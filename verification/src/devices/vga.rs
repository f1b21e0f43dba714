//! The colours and character cells of the VGA text buffer.
//!
//! A cell of the text buffer is a character and a colour code. The colour
//! code is one byte: the background colour in the upper four bits, the
//! foreground colour in the lower four.

use vstd::prelude::*;
use vstd::string::StringSliceAdditionalSpecFns;

verus! {

/// The sixteen colours of the VGA text mode, in the order of their numbers.
#[derive(Debug, Clone, Copy, PartialEq, Eq, Structural)]
pub enum Colour {
    Black,
    Blue,
    Green,
    Cyan,
    Red,
    Magenta,
    Brown,
    LightGray,
    DarkGray,
    LightBlue,
    LightGreen,
    LightCyan,
    LightRed,
    Pink,
    Yellow,
    White,
}

impl Colour {
    /// The number of the colour, from 0 for black to 15 for white.
    pub open spec fn number(self) -> u8 {
        match self {
            Colour::Black => 0,
            Colour::Blue => 1,
            Colour::Green => 2,
            Colour::Cyan => 3,
            Colour::Red => 4,
            Colour::Magenta => 5,
            Colour::Brown => 6,
            Colour::LightGray => 7,
            Colour::DarkGray => 8,
            Colour::LightBlue => 9,
            Colour::LightGreen => 10,
            Colour::LightCyan => 11,
            Colour::LightRed => 12,
            Colour::Pink => 13,
            Colour::Yellow => 14,
            Colour::White => 15,
        }
    }

    /// The colour with the number `num`; white for every number above 15.
    pub open spec fn of_number(num: u8) -> Colour {
        if num == 0 {
            Colour::Black
        } else if num == 1 {
            Colour::Blue
        } else if num == 2 {
            Colour::Green
        } else if num == 3 {
            Colour::Cyan
        } else if num == 4 {
            Colour::Red
        } else if num == 5 {
            Colour::Magenta
        } else if num == 6 {
            Colour::Brown
        } else if num == 7 {
            Colour::LightGray
        } else if num == 8 {
            Colour::DarkGray
        } else if num == 9 {
            Colour::LightBlue
        } else if num == 10 {
            Colour::LightGreen
        } else if num == 11 {
            Colour::LightCyan
        } else if num == 12 {
            Colour::LightRed
        } else if num == 13 {
            Colour::Pink
        } else if num == 14 {
            Colour::Yellow
        } else {
            Colour::White
        }
    }

    /// The number of the colour.
    #[inline]
    pub fn as_u8(self) -> (r: u8)
        ensures
            r == self.number(),
            r <= 15,
    {
        match self {
            Colour::Black => 0,
            Colour::Blue => 1,
            Colour::Green => 2,
            Colour::Cyan => 3,
            Colour::Red => 4,
            Colour::Magenta => 5,
            Colour::Brown => 6,
            Colour::LightGray => 7,
            Colour::DarkGray => 8,
            Colour::LightBlue => 9,
            Colour::LightGreen => 10,
            Colour::LightCyan => 11,
            Colour::LightRed => 12,
            Colour::Pink => 13,
            Colour::Yellow => 14,
            Colour::White => 15,
        }
    }

    /// The colour with the number `num`; white for every number above 15.
    #[inline]
    pub fn from_u8(num: u8) -> (r: Colour)
        ensures
            r == Colour::of_number(num),
            num <= 15 ==> r.number() == num,
    {
        match num {
            0 => Colour::Black,
            1 => Colour::Blue,
            2 => Colour::Green,
            3 => Colour::Cyan,
            4 => Colour::Red,
            5 => Colour::Magenta,
            6 => Colour::Brown,
            7 => Colour::LightGray,
            8 => Colour::DarkGray,
            9 => Colour::LightBlue,
            10 => Colour::LightGreen,
            11 => Colour::LightCyan,
            12 => Colour::LightRed,
            13 => Colour::Pink,
            14 => Colour::Yellow,
            _ => Colour::White,
        }
    }
}

/// Every colour is the colour of its number.
pub proof fn lemma_colour_of_its_number(colour: Colour)
    ensures
        Colour::of_number(colour.number()) == colour,
        colour.number() <= 15,
{
}

/// A foreground and a background colour, as the text buffer stores them.
#[derive(Debug, Clone, Copy, PartialEq, Eq, Structural)]
pub struct ColourCode(u8);

impl ColourCode {
    /// The byte that the text buffer stores: sixteen times the number of the
    /// background colour, plus the number of the foreground colour.
    pub closed spec fn byte(self) -> u8 {
        self.0
    }

    /// The code of foreground `fg` on background `bg`.
    pub open spec fn of(fg: Colour, bg: Colour) -> int {
        bg.number() * 16 + fg.number()
    }

    pub fn new(fg: Colour, bg: Colour) -> (r: ColourCode)
        ensures
            r.byte() == Self::of(fg, bg),
    {
        let b = bg.as_u8();
        let f = fg.as_u8();
        assert((b << 4 | f) == b * 16 + f) by (bit_vector)
            requires
                b <= 15,
                f <= 15,
        ;
        ColourCode(b << 4 | f)
    }

    /// The background colour.
    pub fn bg(&self) -> (r: Colour)
        ensures
            r == Colour::of_number(self.byte() / 16),
    {
        let byte = self.0;
        assert((byte & 0xf0u8) >> 4 == byte / 16) by (bit_vector);
        Colour::from_u8((self.0 & 0xf0u8) >> 4)
    }

    /// The foreground colour.
    pub fn fg(&self) -> (r: Colour)
        ensures
            r == Colour::of_number(self.byte() % 16),
    {
        let byte = self.0;
        assert(byte & 0x0fu8 == byte % 16) by (bit_vector);
        Colour::from_u8(self.0 & 0x0fu8)
    }

    /// The code with the foreground colour `fg` and the background as it is.
    pub fn with_fg(&self, fg: Colour) -> (r: ColourCode)
        ensures
            r.byte() == self.byte() / 16 * 16 + fg.number(),
    {
        let byte = self.0;
        let f = fg.as_u8();
        assert(((byte & 0xf0) | f) == byte / 16 * 16 + f) by (bit_vector)
            requires
                f <= 15,
        ;
        ColourCode((self.0 & 0xf0) | f)
    }

    /// The code with the background colour `bg` and the foreground as it is.
    pub fn with_bg(&self, bg: Colour) -> (r: ColourCode)
        ensures
            r.byte() == bg.number() * 16 + self.byte() % 16,
    {
        let byte = self.0;
        let b = bg.as_u8();
        assert(((byte & 0x0f) | (b << 4)) == b * 16 + byte % 16) by (bit_vector)
            requires
                b <= 15,
        ;
        ColourCode((self.0 & 0x0f) | (b << 4))
    }

    /// The byte that the text buffer stores.
    pub fn as_u8(&self) -> (r: u8)
        ensures
            r == self.byte(),
    {
        self.0
    }
}

/// A colour code gives back the colours it was made of, and a colour that
/// is replaced leaves the other one as it was.
pub proof fn lemma_colour_code_parts(fg: Colour, bg: Colour, other: Colour)
    ensures
        Colour::of_number((ColourCode::of(fg, bg) % 16) as u8) == fg,
        Colour::of_number((ColourCode::of(fg, bg) / 16) as u8) == bg,
        ColourCode::of(fg, bg) / 16 * 16 + other.number() == ColourCode::of(other, bg),
        other.number() * 16 + ColourCode::of(fg, bg) % 16 == ColourCode::of(fg, other),
{
    lemma_colour_of_its_number(fg);
    lemma_colour_of_its_number(bg);
}

/// A character cell of the text buffer.
#[derive(Debug, Clone, Copy, PartialEq, Eq, Structural)]
pub struct ScChar {
    pub ascii_char: u8,
    pub colour_code: ColourCode,
}

impl ScChar {
    /// A space in the colours given.
    pub fn blank(colour_code: ColourCode) -> (r: ScChar)
        ensures
            r == blank_cell(colour_code),
    {
        ScChar { ascii_char: 0x20, colour_code }
    }
}

/// The number of rows of the text buffer.
pub const BUFFER_HEIGHT: usize = 25;

/// The number of columns of the text buffer.
pub const BUFFER_WIDTH: usize = 80;

/// The byte that is shown for a character the text buffer cannot show.
pub const UNPRINTABLE: u8 = 0xfe;

/// The line feed.
pub const NEWLINE: u8 = 0x0a;

/// A cell and where it goes on the screen.
#[derive(Debug, Clone, Copy, PartialEq, Eq, Structural)]
pub struct Cell {
    pub row: usize,
    pub col: usize,
    pub ch: ScChar,
}

/// What writing one byte does to the screen. Where `scroll` is set, every
/// row moves up by one first, the top row is lost, and the bottom row is
/// filled with the cell given. Then the cell of `put`, if there is one, is
/// written.
#[derive(Debug, Clone, Copy, PartialEq, Eq, Structural)]
pub struct ScreenUpdate {
    pub scroll: Option<ScChar>,
    pub put: Option<Cell>,
}

/// The blank cell in the colours given.
pub open spec fn blank_cell(colour_code: ColourCode) -> ScChar {
    ScChar { ascii_char: 0x20, colour_code }
}

/// The byte that is written for `byte`: itself where it is a printable ASCII
/// character or the line feed, and a filled box for everything else.
pub open spec fn shown(byte: u8) -> u8 {
    if 0x20 <= byte <= 0x7e || byte == NEWLINE {
        byte
    } else {
        UNPRINTABLE
    }
}

/// The screen, row by row, after an update.
pub open spec fn updated(screen: Seq<Seq<ScChar>>, update: ScreenUpdate) -> Seq<Seq<ScChar>> {
    let scrolled = match update.scroll {
        Some(blank) => screen.skip(1).push(Seq::new(BUFFER_WIDTH as nat, |c: int| blank)),
        None => screen,
    };
    match update.put {
        Some(cell) => scrolled.update(
            cell.row as int,
            scrolled[cell.row as int].update(cell.col as int, cell.ch),
        ),
        None => scrolled,
    }
}

/// The cursor of the text buffer: where the next character goes, and in
/// which colours.
#[derive(Debug, Clone, Copy, PartialEq, Eq, Structural)]
pub struct Writer {
    pub col: usize,
    pub row: usize,
    pub colour_code: ColourCode,
}

impl Writer {
    /// Whether the cursor is on the screen: in one of the rows, and in one
    /// of the columns or just behind the last.
    pub open spec fn wf(self) -> bool {
        self.row < BUFFER_HEIGHT && self.col <= BUFFER_WIDTH
    }

    /// The cursor after a new line, and the blank cell with which the bottom
    /// row is filled where the screen scrolls: the cursor goes to the start
    /// of the next row, and where there is none it stays in the last row and
    /// the screen scrolls.
    pub open spec fn after_new_line(self) -> (Writer, Option<ScChar>) {
        if self.row + 1 < BUFFER_HEIGHT {
            (Writer { row: (self.row + 1) as usize, col: 0, ..self }, None)
        } else {
            (
                Writer { row: (BUFFER_HEIGHT - 1) as usize, col: 0, ..self },
                Some(blank_cell(self.colour_code)),
            )
        }
    }

    /// The cursor after `byte` is written, and what that does to the screen.
    /// A line feed is a new line. Any other byte is written at the cursor,
    /// after a new line where the cursor is behind the last column, and the
    /// cursor moves on by one column.
    pub open spec fn after_byte(self, byte: u8) -> (Writer, ScreenUpdate) {
        if byte == NEWLINE {
            (self.after_new_line().0, ScreenUpdate { scroll: self.after_new_line().1, put: None })
        } else {
            let (at, scroll) = if self.col >= BUFFER_WIDTH {
                self.after_new_line()
            } else {
                (self, None)
            };
            (
                Writer { col: (at.col + 1) as usize, ..at },
                ScreenUpdate {
                    scroll,
                    put: Some(
                        Cell {
                            row: at.row,
                            col: at.col,
                            ch: ScChar { ascii_char: byte, colour_code: self.colour_code },
                        },
                    ),
                },
            )
        }
    }

    /// The cursor after the bytes are written, each as `shown` says, and
    /// what that does to the screen, update by update.
    pub open spec fn after_string(self, bytes: Seq<u8>) -> (Writer, Seq<ScreenUpdate>)
        decreases bytes.len(),
    {
        if bytes.len() == 0 {
            (self, Seq::empty())
        } else {
            let (before, updates) = self.after_string(bytes.drop_last());
            let (after, update) = before.after_byte(shown(bytes.last()));
            (after, updates.push(update))
        }
    }

    /// The cursor at the top left of the screen.
    pub fn new(colour_code: ColourCode) -> (r: Writer)
        ensures
            r == (Writer { col: 0, row: 0, colour_code }),
            r.wf(),
    {
        Writer { col: 0, row: 0, colour_code }
    }

    pub fn get_colour(&self) -> (r: ColourCode)
        ensures
            r == self.colour_code,
    {
        self.colour_code
    }

    pub fn set_colour(&mut self, colour_code: ColourCode)
        ensures
            *final(self) == (Writer { colour_code, ..*old(self) }),
    {
        self.colour_code = colour_code;
    }

    /// Writes one byte at the cursor; see `after_byte`.
    pub fn write_byte(&mut self, byte: u8) -> (r: ScreenUpdate)
        requires
            old(self).wf(),
        ensures
            (*final(self), r) == old(self).after_byte(byte),
            final(self).wf(),
            r.put matches Some(cell) ==> cell.row < BUFFER_HEIGHT && cell.col < BUFFER_WIDTH,
    {
        if byte == NEWLINE {
            let scroll = self.new_line();
            ScreenUpdate { scroll, put: None }
        } else {
            let colour_code = self.colour_code;
            let scroll = if self.col >= BUFFER_WIDTH {
                self.new_line()
            } else {
                None
            };
            let row = self.row;
            let col = self.col;
            self.col += 1;
            ScreenUpdate {
                scroll,
                put: Some(Cell { row, col, ch: ScChar { ascii_char: byte, colour_code } }),
            }
        }
    }

    /// Writes a string: each byte of it as `shown` says; see `after_string`.
    pub fn write_string(&mut self, s: &str) -> (r: Vec<ScreenUpdate>)
        requires
            old(self).wf(),
        ensures
            (*final(self), r@) == old(self).after_string(s.spec_bytes()),
            final(self).wf(),
    {
        let bytes = s.as_bytes();
        let mut updates: Vec<ScreenUpdate> = Vec::new();
        let mut i: usize = 0;
        while i < bytes.len()
            invariant
                i <= bytes.len(),
                bytes@ == s.spec_bytes(),
                self.wf(),
                (*self, updates@) == old(self).after_string(bytes@.subrange(0, i as int)),
            decreases bytes.len() - i,
        {
            let update = self.write_byte(Self::printable(bytes[i]));
            updates.push(update);
            proof {
                assert(bytes@.subrange(0, i + 1).drop_last() =~= bytes@.subrange(0, i as int));
            }
            i += 1;
        }
        proof {
            assert(bytes@.subrange(0, i as int) =~= bytes@);
        }
        updates
    }

    /// The byte that is written for `byte`; see `shown`.
    pub fn printable(byte: u8) -> (r: u8)
        ensures
            r == shown(byte),
    {
        if (0x20 <= byte && byte <= 0x7e) || byte == NEWLINE {
            byte
        } else {
            UNPRINTABLE
        }
    }

    /// Moves the cursor to the start of the next row; see `after_new_line`.
    pub fn new_line(&mut self) -> (r: Option<ScChar>)
        requires
            old(self).wf(),
        ensures
            (*final(self), r) == old(self).after_new_line(),
            final(self).wf(),
            final(self).col == 0,
    {
        self.row += 1;
        self.col = 0;
        if self.row < BUFFER_HEIGHT {
            return None;
        }
        self.row = BUFFER_HEIGHT - 1;
        Some(ScChar::blank(self.colour_code))
    }
}

} // verus!
