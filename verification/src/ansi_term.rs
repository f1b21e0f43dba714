//! Styles for text on an ANSI terminal, and the escape sequences that select
//! them.

use vstd::prelude::*;

verus! {

/// The eight colours of an ANSI terminal, in the order of their numbers.
#[derive(Clone, Copy, Debug, PartialEq, Eq, Structural)]
pub enum TermColour {
    Black,
    Red,
    Green,
    Yellow,
    Blue,
    Magenta,
    Cyan,
    White,
}

impl TermColour {
    /// The number of the colour, from 0 for black to 7 for white.
    pub open spec fn number(self) -> u8 {
        match self {
            TermColour::Black => 0,
            TermColour::Red => 1,
            TermColour::Green => 2,
            TermColour::Yellow => 3,
            TermColour::Blue => 4,
            TermColour::Magenta => 5,
            TermColour::Cyan => 6,
            TermColour::White => 7,
        }
    }

    /// The number of the colour.
    pub fn as_u8(self) -> (r: u8)
        ensures
            r == self.number(),
    {
        match self {
            TermColour::Black => 0,
            TermColour::Red => 1,
            TermColour::Green => 2,
            TermColour::Yellow => 3,
            TermColour::Blue => 4,
            TermColour::Magenta => 5,
            TermColour::Cyan => 6,
            TermColour::White => 7,
        }
    }

    /// The parameter that selects the colour for the text: 30 to 37.
    pub fn as_fg(self) -> (r: u8)
        ensures
            r == self.number() + 30,
    {
        self.as_u8() + 30
    }

    /// The parameter that selects the colour for the background: 40 to 47.
    pub fn as_bg(self) -> (r: u8)
        ensures
            r == self.number() + 40,
    {
        self.as_u8() + 40
    }
}

/// The graphics modes of an ANSI terminal, in the order of their parameters.
#[derive(Clone, Copy, Debug, PartialEq, Eq, Structural)]
pub enum TermGMode {
    Reset,
    Bold,
    Dim,
    Italic,
    Underline,
    Blinking,
    Inverse,
    Invisible,
    StrikeThrough,
}

impl TermGMode {
    /// The parameter that selects the mode, from 0 for reset to 8 for
    /// strike-through.
    pub open spec fn number(self) -> u8 {
        match self {
            TermGMode::Reset => 0,
            TermGMode::Bold => 1,
            TermGMode::Dim => 2,
            TermGMode::Italic => 3,
            TermGMode::Underline => 4,
            TermGMode::Blinking => 5,
            TermGMode::Inverse => 6,
            TermGMode::Invisible => 7,
            TermGMode::StrikeThrough => 8,
        }
    }

    /// The parameter that selects the mode.
    pub fn as_u8(self) -> (r: u8)
        ensures
            r == self.number(),
    {
        match self {
            TermGMode::Reset => 0,
            TermGMode::Bold => 1,
            TermGMode::Dim => 2,
            TermGMode::Italic => 3,
            TermGMode::Underline => 4,
            TermGMode::Blinking => 5,
            TermGMode::Inverse => 6,
            TermGMode::Invisible => 7,
            TermGMode::StrikeThrough => 8,
        }
    }
}

/// A style of text: each of its parts is set or left as it is.
#[derive(Clone, Copy, Debug, PartialEq, Eq, Structural)]
pub struct TermStyle {
    pub mode: Option<TermGMode>,
    pub fg: Option<TermColour>,
    pub bg: Option<TermColour>,
}

/// The escape character.
pub const ESC: u8 = 0x1b;

/// The digits of `n` in base ten, as ASCII, without leading zeros.
pub open spec fn decimal(n: nat) -> Seq<u8>
    decreases n,
{
    if n < 10 {
        seq![(0x30 + n) as u8]
    } else {
        decimal(n / 10) + seq![(0x30 + n % 10) as u8]
    }
}

/// The sequences of `parts` one after another, with `sep` between them.
pub open spec fn joined(parts: Seq<Seq<u8>>, sep: u8) -> Seq<u8>
    decreases parts.len(),
{
    if parts.len() == 0 {
        Seq::empty()
    } else if parts.len() == 1 {
        parts[0]
    } else {
        joined(parts.drop_last(), sep) + seq![sep] + parts.last()
    }
}

impl TermStyle {
    /// The style that leaves everything as it is.
    pub fn reset() -> (r: Self)
        ensures
            r.mode is None,
            r.fg is None,
            r.bg is None,
    {
        TermStyle { mode: None, fg: None, bg: None }
    }

    pub fn new(mode: Option<TermGMode>, fg: Option<TermColour>, bg: Option<TermColour>) -> (r:
        Self)
        ensures
            r.mode == mode,
            r.fg == fg,
            r.bg == bg,
    {
        TermStyle { mode, fg, bg }
    }

    /// The style that sets the colour of the text and nothing else.
    pub fn fg(fg: TermColour) -> (r: Self)
        ensures
            r.mode is None,
            r.fg == Some(fg),
            r.bg is None,
    {
        TermStyle::new(None, Some(fg), None)
    }

    /// The style with the background colour `bg`.
    pub fn with_bg(self, bg: TermColour) -> (r: Self)
        ensures
            r.mode == self.mode,
            r.fg == self.fg,
            r.bg == Some(bg),
    {
        let mut style = self;
        style.bg = Some(bg);
        style
    }

    /// The style with the graphics mode `mode`.
    pub fn with_mode(self, mode: TermGMode) -> (r: Self)
        ensures
            r.mode == Some(mode),
            r.fg == self.fg,
            r.bg == self.bg,
    {
        let mut style = self;
        style.mode = Some(mode);
        style
    }

    /// The parameters of the style's escape sequence: the mode, the colour
    /// of the text and the colour of the background, as far as they are set,
    /// each as a decimal number.
    pub open spec fn params(self) -> Seq<Seq<u8>> {
        (match self.mode {
            Some(mode) => seq![decimal(mode.number() as nat)],
            None => Seq::empty(),
        }) + (match self.fg {
            Some(colour) => seq![decimal((colour.number() + 30) as nat)],
            None => Seq::empty(),
        }) + (match self.bg {
            Some(colour) => seq![decimal((colour.number() + 40) as nat)],
            None => Seq::empty(),
        })
    }

    /// The escape sequence that selects the style: `ESC [`, the parameters
    /// with semicolons between them, and `m`.
    pub open spec fn escape(self) -> Seq<u8> {
        seq![ESC, 0x5bu8] + joined(self.params(), 0x3b) + seq![0x6du8]
    }

    /// The escape sequence that selects the style.
    pub fn escape_sequence(&self) -> (r: Vec<u8>)
        ensures
            r@ == self.escape(),
    {
        let (bytes, len) = self.escape_bytes();
        let mut out: Vec<u8> = Vec::new();
        let mut i: usize = 0;
        while i < len
            invariant
                i <= len <= 10,
                out@ == bytes@.subrange(0, i as int),
            decreases len - i,
        {
            out.push(bytes[i]);
            i += 1;
            proof {
                assert(out@ =~= bytes@.subrange(0, i as int));
            }
        }
        out
    }

    /// The escape sequence that selects the style, without a heap: the
    /// sequence is the first `r.1` bytes of `r.0`.
    pub fn escape_bytes(&self) -> (r: ([u8; 10], usize))
        ensures
            r.1 <= 10,
            r.0@.subrange(0, r.1 as int) == self.escape(),
    {
        let mut bytes: [u8; 10] = [0; 10];
        bytes[0] = ESC;
        bytes[1] = 0x5b;
        let mut len: usize = 2;
        let ghost head = seq![ESC, 0x5bu8];
        let ghost mut parts: Seq<Seq<u8>> = Seq::empty();
        let mut first = true;
        assert(bytes@.subrange(0, 2) =~= head + joined(parts, 0x3b));
        if let Some(mode) = self.mode {
            len = put_param(&mut bytes, len, mode.as_u8(), first, Ghost(head), Ghost(parts));
            proof {
                parts = parts.push(decimal(mode.number() as nat));
            }
            first = false;
        }
        if let Some(colour) = self.fg {
            len = put_param(&mut bytes, len, colour.as_fg(), first, Ghost(head), Ghost(parts));
            proof {
                parts = parts.push(decimal((colour.number() + 30) as nat));
            }
            first = false;
        }
        if let Some(colour) = self.bg {
            len = put_param(&mut bytes, len, colour.as_bg(), first, Ghost(head), Ghost(parts));
            proof {
                parts = parts.push(decimal((colour.number() + 40) as nat));
            }
        }
        assert(parts =~= self.params());
        let ghost before = bytes@;
        bytes[len] = 0x6d;
        proof {
            assert(bytes@.subrange(0, len + 1) =~= before.subrange(0, len as int) + seq![0x6du8]);
        }
        (bytes, len + 1)
    }

    /// The escape sequence that puts the terminal back to its normal style:
    /// `ESC [ 0 m`.
    pub fn reset_sequence() -> (r: [u8; 4])
        ensures
            r@ == seq![ESC, 0x5bu8, 0x30u8, 0x6du8],
    {
        let bytes = [ESC, 0x5b, 0x30, 0x6d];
        assert(bytes@ =~= seq![ESC, 0x5bu8, 0x30u8, 0x6du8]);
        bytes
    }
}

impl Default for TermStyle {
    fn default() -> (r: Self)
        ensures
            r.mode is None,
            r.fg is None,
            r.bg is None,
    {
        Self::reset()
    }
}

/// Joining one more part puts a separator before it, unless it is the first.
pub proof fn lemma_joined_push(parts: Seq<Seq<u8>>, part: Seq<u8>, sep: u8)
    ensures
        joined(parts.push(part), sep) == (if parts.len() == 0 {
            part
        } else {
            joined(parts, sep) + seq![sep] + part
        }),
{
    let all = parts.push(part);
    assert(all.drop_last() =~= parts);
    assert(all.last() == part);
    assert(all[0] == if parts.len() == 0 {
        part
    } else {
        parts[0]
    });
}

/// The number of bytes that a parameter of at most two digits takes, with
/// the semicolon before it unless it is the first.
spec fn param_len(n: u8, first: bool) -> int {
    (if first {
        0int
    } else {
        1int
    }) + (if n >= 10 {
        2int
    } else {
        1int
    })
}

/// Writes the parameter `n`, which has at most two digits, behind the first
/// `len` bytes of an escape sequence that begins with `head` and holds
/// `parts` so far, with a semicolon before it unless it is the first.
/// Returned is the new length.
fn put_param(
    bytes: &mut [u8; 10],
    len: usize,
    n: u8,
    first: bool,
    Ghost(head): Ghost<Seq<u8>>,
    Ghost(parts): Ghost<Seq<Seq<u8>>>,
) -> (r: usize)
    requires
        n < 100,
        len + param_len(n, first) <= 10,
        old(bytes)@.subrange(0, len as int) == head + joined(parts, 0x3b),
        first == (parts.len() == 0),
    ensures
        r == len + param_len(n, first),
        final(bytes)@.subrange(0, r as int) == head + joined(parts.push(decimal(n as nat)), 0x3b),
{
    let ghost before = bytes@.subrange(0, len as int);
    let mut at = len;
    if !first {
        bytes[at] = 0x3b;
        at += 1;
    }
    if n >= 10 {
        bytes[at] = 0x30 + n / 10;
        at += 1;
    }
    bytes[at] = 0x30 + n % 10;
    at += 1;
    proof {
        reveal_with_fuel(decimal, 2);
        lemma_joined_push(parts, decimal(n as nat), 0x3b);
        assert(joined(Seq::<Seq<u8>>::empty(), 0x3b) =~= Seq::<u8>::empty());
        let sep = if first {
            Seq::<u8>::empty()
        } else {
            seq![0x3bu8]
        };
        assert(bytes@.subrange(0, at as int) =~= before + sep + decimal(n as nat));
        assert(bytes@.subrange(0, at as int) =~= head + joined(
            parts.push(decimal(n as nat)),
            0x3b,
        ));
    }
    at
}

} // verus!
