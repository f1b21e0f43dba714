use kernel::ansi_term::TermColour;
use kernel::ansi_term::TermGMode;
use kernel::ansi_term::TermStyle;
use kernel::devices::vga::Colour;
use kernel::devices::vga::ColourCode;
use kernel::devices::vga::Cell;
use kernel::devices::vga::ScChar;
use kernel::devices::vga::ScreenUpdate;
use kernel::devices::vga::Writer;
use kernel::interrupts::pic::DualPic;
use kernel::interrupts::pic::InterruptIndex;
use kernel::interrupts::pic::Pic;
use kernel::interrupts::pic::PortWrite;
use kernel::interrupts::pic::MASTER_PIC_OFFSET;
use kernel::interrupts::pic::SLAVE_PIC_OFFSET;

const COLOURS: [Colour; 16] = [
    Colour::Black,
    Colour::Blue,
    Colour::Green,
    Colour::Cyan,
    Colour::Red,
    Colour::Magenta,
    Colour::Brown,
    Colour::LightGray,
    Colour::DarkGray,
    Colour::LightBlue,
    Colour::LightGreen,
    Colour::LightCyan,
    Colour::LightRed,
    Colour::Pink,
    Colour::Yellow,
    Colour::White,
];

#[test]
fn colours_are_numbered_from_black_to_white() {
    for (i, colour) in COLOURS.iter().enumerate() {
        assert_eq!(colour.as_u8(), i as u8);
        assert_eq!(Colour::from_u8(i as u8), *colour);
    }
    assert_eq!(Colour::from_u8(16), Colour::White);
    assert_eq!(Colour::from_u8(255), Colour::White);
}

#[test]
fn a_colour_code_holds_the_background_above_the_foreground() {
    let code = ColourCode::new(Colour::Yellow, Colour::Black);
    assert_eq!(code.as_u8(), 0x0e);
    assert_eq!(ColourCode::new(Colour::White, Colour::Blue).as_u8(), 0x1f);
    assert_eq!(ColourCode::new(Colour::Black, Colour::White).as_u8(), 0xf0);
    for fg in COLOURS {
        for bg in COLOURS {
            let code = ColourCode::new(fg, bg);
            assert_eq!(code.as_u8(), bg.as_u8() * 16 + fg.as_u8());
            assert_eq!(code.fg(), fg);
            assert_eq!(code.bg(), bg);
        }
    }
}

#[test]
fn one_colour_of_a_code_is_replaced() {
    let code = ColourCode::new(Colour::Yellow, Colour::Blue);
    assert_eq!(code.with_fg(Colour::Red), ColourCode::new(Colour::Red, Colour::Blue));
    assert_eq!(code.with_bg(Colour::Red), ColourCode::new(Colour::Yellow, Colour::Red));
    assert_eq!(code.with_fg(Colour::Red).as_u8(), 0x14);
    assert_eq!(code.with_bg(Colour::Red).as_u8(), 0x4e);
}

#[test]
fn a_blank_cell_is_a_space() {
    let code = ColourCode::new(Colour::Yellow, Colour::Black);
    let cell = ScChar::blank(code);
    assert_eq!(cell, ScChar { ascii_char: b' ', colour_code: code });
}

#[test]
fn terminal_colours_select_text_and_background() {
    assert_eq!(TermColour::Black.as_fg(), 30);
    assert_eq!(TermColour::Red.as_fg(), 31);
    assert_eq!(TermColour::Cyan.as_fg(), 36);
    assert_eq!(TermColour::White.as_fg(), 37);
    assert_eq!(TermColour::Black.as_bg(), 40);
    assert_eq!(TermColour::Yellow.as_bg(), 43);
    assert_eq!(TermColour::White.as_bg(), 47);
    assert_eq!(TermColour::Blue.as_u8(), 4);
    assert_eq!(TermGMode::Reset.as_u8(), 0);
    assert_eq!(TermGMode::Bold.as_u8(), 1);
    assert_eq!(TermGMode::StrikeThrough.as_u8(), 8);
}

#[test]
fn styles_are_built_part_by_part() {
    let style = TermStyle::fg(TermColour::Red);
    assert_eq!(style, TermStyle { mode: None, fg: Some(TermColour::Red), bg: None });
    let style = style.with_mode(TermGMode::Bold).with_bg(TermColour::Blue);
    assert_eq!(
        style,
        TermStyle::new(Some(TermGMode::Bold), Some(TermColour::Red), Some(TermColour::Blue))
    );
    assert_eq!(TermStyle::default(), TermStyle { mode: None, fg: None, bg: None });
    assert_eq!(TermStyle::reset(), TermStyle::default());
}

#[test]
fn escape_sequences_select_a_style() {
    assert_eq!(TermStyle::fg(TermColour::Cyan).escape_sequence(), b"\x1b[36m");
    assert_eq!(
        TermStyle::fg(TermColour::Red).with_mode(TermGMode::Bold).escape_sequence(),
        b"\x1b[1;31m"
    );
    assert_eq!(
        TermStyle::new(Some(TermGMode::Underline), Some(TermColour::Yellow), Some(TermColour::Blue))
            .escape_sequence(),
        b"\x1b[4;33;44m"
    );
    assert_eq!(
        TermStyle::new(Some(TermGMode::Dim), None, Some(TermColour::White)).escape_sequence(),
        b"\x1b[2;47m"
    );
    assert_eq!(TermStyle::new(None, None, Some(TermColour::Black)).escape_sequence(), b"\x1b[40m");
    assert_eq!(TermStyle::reset().escape_sequence(), b"\x1b[m");
    assert_eq!(&TermStyle::reset_sequence(), b"\x1b[0m");
}

#[test]
fn escape_sequences_fit_in_ten_bytes() {
    let style =
        TermStyle::new(Some(TermGMode::StrikeThrough), Some(TermColour::White), Some(TermColour::White));
    let (bytes, len) = style.escape_bytes();
    assert_eq!(len, 10);
    assert_eq!(&bytes[..len], b"\x1b[8;37;47m");
    let (bytes, len) = TermStyle::fg(TermColour::Black).escape_bytes();
    assert_eq!(&bytes[..len], b"\x1b[30m");
    let (bytes, len) = TermStyle::reset().with_mode(TermGMode::Reset).escape_bytes();
    assert_eq!(&bytes[..len], b"\x1b[0m");
}

#[test]
fn interrupts_are_numbered_from_the_master_offset() {
    assert_eq!(MASTER_PIC_OFFSET, 32);
    assert_eq!(SLAVE_PIC_OFFSET, 40);
    assert_eq!(InterruptIndex::Timer.as_u8(), 32);
    assert_eq!(InterruptIndex::Timer.as_usize(), 32);
    assert_eq!(InterruptIndex::Keyboard.as_u8(), 33);
    assert_eq!(InterruptIndex::Keyboard.as_usize(), 33);
}

#[test]
fn a_controller_handles_eight_interrupts() {
    let pics = DualPic::new(MASTER_PIC_OFFSET, SLAVE_PIC_OFFSET);
    assert_eq!(pics.master, Pic { command: 0x20, data: 0x21, offset: 32 });
    assert_eq!(pics.slave, Pic { command: 0xa0, data: 0xa1, offset: 40 });
    assert!(!pics.handles_interrupt(31));
    assert!(pics.master.handles_interrupt(32));
    assert!(pics.master.handles_interrupt(39));
    assert!(!pics.master.handles_interrupt(40));
    assert!(pics.slave.handles_interrupt(40));
    assert!(pics.slave.handles_interrupt(47));
    assert!(pics.handles_interrupt(47));
    assert!(!pics.handles_interrupt(48));
    let high = Pic { command: 0x20, data: 0x21, offset: 250 };
    assert!(high.handles_interrupt(255));
    assert!(!high.handles_interrupt(249));
}

#[test]
fn the_end_of_an_interrupt_goes_to_its_controller() {
    let pics = DualPic::new(MASTER_PIC_OFFSET, SLAVE_PIC_OFFSET);
    assert_eq!(pics.notify_eoi(32), Some(PortWrite { port: 0x20, value: 0x20 }));
    assert_eq!(pics.notify_eoi(33), Some(PortWrite { port: 0x20, value: 0x20 }));
    assert_eq!(pics.notify_eoi(44), Some(PortWrite { port: 0xa0, value: 0x20 }));
    assert_eq!(pics.notify_eoi(3), None);
    assert_eq!(pics.notify_eoi(48), None);
    // Where both handle an interrupt, the master is told.
    let both = DualPic::new(32, 36);
    assert_eq!(both.notify_eoi(37), Some(PortWrite { port: 0x20, value: 0x20 }));
    assert_eq!(both.notify_eoi(41), Some(PortWrite { port: 0xa0, value: 0x20 }));
}

#[test]
fn the_controllers_are_initialised_in_four_steps() {
    let pics = DualPic::new(MASTER_PIC_OFFSET, SLAVE_PIC_OFFSET);
    let wait = PortWrite { port: 0x80, value: 0 };
    assert_eq!(pics.read_masks(), [0x21, 0xa1]);
    assert_eq!(
        pics.initialize([0xfc, 0xff]),
        [
            PortWrite { port: 0x20, value: 0x11 },
            wait,
            PortWrite { port: 0xa0, value: 0x11 },
            wait,
            PortWrite { port: 0x21, value: 32 },
            wait,
            PortWrite { port: 0xa1, value: 40 },
            wait,
            PortWrite { port: 0x21, value: 4 },
            wait,
            PortWrite { port: 0xa1, value: 2 },
            wait,
            PortWrite { port: 0x21, value: 1 },
            wait,
            PortWrite { port: 0xa1, value: 1 },
            wait,
            PortWrite { port: 0x21, value: 0xfc },
            PortWrite { port: 0xa1, value: 0xff },
        ]
    );
    assert_eq!(
        pics.write_masks(1, 2),
        [PortWrite { port: 0x21, value: 1 }, PortWrite { port: 0xa1, value: 2 }]
    );
}

#[test]
fn bytes_are_written_along_the_row() {
    let code = ColourCode::new(Colour::Yellow, Colour::Black);
    let mut writer = Writer::new(code);
    assert_eq!(writer.get_colour(), code);
    let update = writer.write_byte(b'H');
    assert_eq!(
        update,
        ScreenUpdate {
            scroll: None,
            put: Some(Cell { row: 0, col: 0, ch: ScChar { ascii_char: b'H', colour_code: code } })
        }
    );
    assert_eq!((writer.row, writer.col), (0, 1));
    let update = writer.write_byte(b'i');
    assert_eq!(update.put.unwrap().col, 1);
    assert_eq!((writer.row, writer.col), (0, 2));
}

#[test]
fn a_line_feed_starts_the_next_row() {
    let mut writer = Writer::new(ColourCode::new(Colour::White, Colour::Blue));
    writer.write_byte(b'a');
    assert_eq!(writer.write_byte(b'\n'), ScreenUpdate { scroll: None, put: None });
    assert_eq!((writer.row, writer.col), (1, 0));
    assert_eq!(writer.new_line(), None);
    assert_eq!((writer.row, writer.col), (2, 0));
}

#[test]
fn a_full_row_wraps_with_the_next_byte() {
    let code = ColourCode::new(Colour::White, Colour::Blue);
    let mut writer = Writer::new(code);
    for col in 0..80 {
        let update = writer.write_byte(b'x');
        assert_eq!(update.put.unwrap().col, col);
        assert_eq!(update.put.unwrap().row, 0);
    }
    // The cursor waits behind the last column.
    assert_eq!((writer.row, writer.col), (0, 80));
    let update = writer.write_byte(b'y');
    assert_eq!(update.scroll, None);
    assert_eq!(
        update.put,
        Some(Cell { row: 1, col: 0, ch: ScChar { ascii_char: b'y', colour_code: code } })
    );
    assert_eq!((writer.row, writer.col), (1, 1));
}

#[test]
fn the_screen_scrolls_in_the_last_row() {
    let code = ColourCode::new(Colour::White, Colour::Blue);
    let mut writer = Writer { col: 5, row: 24, colour_code: code };
    assert_eq!(
        writer.write_byte(b'\n'),
        ScreenUpdate { scroll: Some(ScChar::blank(code)), put: None }
    );
    assert_eq!((writer.row, writer.col), (24, 0));
    let mut writer = Writer { col: 80, row: 24, colour_code: code };
    let update = writer.write_byte(b'z');
    assert_eq!(update.scroll, Some(ScChar { ascii_char: b' ', colour_code: code }));
    assert_eq!(
        update.put,
        Some(Cell { row: 24, col: 0, ch: ScChar { ascii_char: b'z', colour_code: code } })
    );
    assert_eq!((writer.row, writer.col), (24, 1));
}

#[test]
fn the_colour_changes_for_what_follows() {
    let code = ColourCode::new(Colour::Yellow, Colour::Black);
    let mut writer = Writer::new(code);
    let red = code.with_fg(Colour::Red);
    writer.set_colour(red);
    assert_eq!(writer.get_colour(), red);
    assert_eq!(writer.write_byte(b'!').put.unwrap().ch.colour_code, red);
    assert_eq!((writer.row, writer.col), (0, 1));
}

#[test]
fn a_string_is_written_byte_by_byte() {
    let code = ColourCode::new(Colour::Yellow, Colour::Black);
    let mut writer = Writer::new(code);
    let updates = writer.write_string("ok\n\u{e9}\t~");
    let shown: Vec<Option<(usize, usize, u8)>> =
        updates.iter().map(|u| u.put.map(|c| (c.row, c.col, c.ch.ascii_char))).collect();
    assert_eq!(
        shown,
        vec![
            Some((0, 0, b'o')),
            Some((0, 1, b'k')),
            None,
            // The two bytes of a letter outside ASCII, and the tabulator.
            Some((1, 0, 0xfe)),
            Some((1, 1, 0xfe)),
            Some((1, 2, 0xfe)),
            Some((1, 3, b'~')),
        ]
    );
    assert!(updates.iter().all(|u| u.scroll.is_none()));
    assert_eq!((writer.row, writer.col), (1, 4));
    assert!(writer.write_string("").is_empty());
}

#[test]
fn only_printable_bytes_are_shown() {
    assert_eq!(Writer::printable(b' '), b' ');
    assert_eq!(Writer::printable(b'~'), b'~');
    assert_eq!(Writer::printable(b'\n'), b'\n');
    assert_eq!(Writer::printable(0x1f), 0xfe);
    assert_eq!(Writer::printable(0x7f), 0xfe);
    assert_eq!(Writer::printable(0), 0xfe);
    assert_eq!(Writer::printable(0xff), 0xfe);
    assert_eq!(Writer::printable(b'\r'), 0xfe);
}
