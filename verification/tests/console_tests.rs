use badapple::krnl::console::{
    initialize, Attribute, Color, Console, ScreenChar, MAX_COLUMN, MAX_ROW, SIZE,
};
use badapple::krnl::port::Port;

fn screen_of(ch: u8) -> Vec<ScreenChar> {
    vec![ScreenChar::new(ch, Attribute::default()); SIZE]
}

fn console() -> Console {
    // cursor register value 0: top left
    Console::new(Port::new(0x3d4), 0, 0, screen_of(b'.'))
}

#[test]
fn attribute_packs_colors() {
    assert_eq!(Attribute::new(Color::White, Color::Blue), Attribute(0x1f));
    assert_eq!(Attribute::new(Color::LightGrey, Color::Black), Attribute(0x07));
    assert_eq!(Attribute::default(), Attribute(0x07));
    assert_eq!(Color::Yellow.value(), 14);
    assert_eq!(ScreenChar::default(), ScreenChar::new(0, Attribute(0x07)));
}

#[test]
fn console_new_reads_cursor_offset() {
    // offset 0x00a5 = 165 = row 2, column 5
    let c = Console::new(Port::new(0x3d4), 0x00, 0xa5, screen_of(b' '));
    assert_eq!(c.cursor(), (2, 5));
    assert_eq!(c.attrib(), Attribute(0x07));
}

#[test]
fn putch_draws_and_moves_cursor() {
    let mut c = console();
    let w = c.putch(b'A');
    assert_eq!(c.screen()[0], ScreenChar::new(b'A', Attribute(0x07)));
    assert_eq!(c.screen()[1].ch, b'.');
    assert_eq!(c.cursor(), (0, 1));
    // the cursor moves to offset 1
    assert_eq!(
        w,
        vec![(Port(0x3d4), 14), (Port(0x3d5), 0), (Port(0x3d4), 15), (Port(0x3d5), 1)]
    );
}

#[test]
fn putch_control_characters() {
    let mut c = console();
    c.putch(b'a');
    c.putch(b'\t');
    assert_eq!(c.cursor(), (0, 4));
    c.putch(b'\t');
    assert_eq!(c.cursor(), (0, 8));
    c.putch(8); // backspace
    assert_eq!(c.cursor(), (0, 7));
    c.putch(b'\r');
    assert_eq!(c.cursor(), (0, 0));
    c.putch(8); // backspace at column 0 stays
    assert_eq!(c.cursor(), (0, 0));
    c.putch(b'\n');
    assert_eq!(c.cursor(), (1, 0));
    // control characters draw nothing
    assert_eq!(c.screen()[1].ch, b'.');
}

#[test]
fn putch_wraps_at_end_of_line() {
    let mut c = Console::new(Port::new(0x3d4), 0, 79, screen_of(b' '));
    assert_eq!(c.cursor(), (0, 79));
    c.putch(b'z');
    assert_eq!(c.screen()[79].ch, b'z');
    assert_eq!(c.cursor(), (1, 0));
}

#[test]
fn newline_on_last_row_scrolls() {
    let mut screen = screen_of(b' ');
    screen[MAX_COLUMN].ch = b'x'; // row 1
    screen[(MAX_ROW - 1) * MAX_COLUMN].ch = b'y'; // last row
    // offset 24 * 80 = 1920 = 0x0780
    let mut c = Console::new(Port::new(0x3d4), 0x07, 0x80, screen);
    assert_eq!(c.cursor(), (24, 0));
    c.putch(b'\n');
    assert_eq!(c.cursor(), (24, 0));
    assert_eq!(c.screen()[0].ch, b'x');
    assert_eq!(c.screen()[(MAX_ROW - 2) * MAX_COLUMN].ch, b'y');
    assert_eq!(c.screen()[(MAX_ROW - 1) * MAX_COLUMN].ch, b' ');
}

#[test]
fn write_str_writes_each_byte() {
    let mut c = console();
    let w = c.write_str("Hi\nyo");
    assert_eq!(c.screen()[0].ch, b'H');
    assert_eq!(c.screen()[1].ch, b'i');
    assert_eq!(c.screen()[MAX_COLUMN].ch, b'y');
    assert_eq!(c.screen()[MAX_COLUMN + 1].ch, b'o');
    assert_eq!(c.cursor(), (1, 2));
    // four cursor writes per character
    assert_eq!(w.len(), 20);
    assert_eq!(w[19], (Port(0x3d5), 82));
}

#[test]
fn setcolor_with_and_without_reset() {
    let mut c = console();
    c.setcolor(Color::White, Color::Blue, false);
    assert_eq!(c.attrib(), Attribute(0x1f));
    assert_eq!(c.screen()[5].attrib, Attribute(0x07));
    c.putch(b'q');
    assert_eq!(c.screen()[0], ScreenChar::new(b'q', Attribute(0x1f)));
    c.setcolor(Color::Red, Color::Green, true);
    assert_eq!(c.screen()[5], ScreenChar::new(b'.', Attribute(0x24)));
    assert_eq!(c.screen()[0], ScreenChar::new(b'q', Attribute(0x24)));
}

#[test]
fn clear_blanks_screen() {
    let mut c = Console::new(Port::new(0x3d4), 0x01, 0x00, screen_of(b'#'));
    let w = c.clear();
    assert!(c.screen().iter().all(|s| *s == ScreenChar::new(b' ', Attribute(0x07))));
    assert_eq!(c.cursor(), (0, 0));
    assert_eq!(
        w,
        vec![
            (Port(0x3d4), 14),
            (Port(0x3d5), 0),
            (Port(0x3d4), 15),
            (Port(0x3d5), 0),
            (Port(0x80), 0)
        ]
    );
}

#[test]
fn bkcpy_copies_frame() {
    let mut c = Console::new(Port::new(0x3d4), 0x01, 0x00, screen_of(b'#'));
    let frame = screen_of(b'%');
    let w = c.bkcpy(&frame);
    assert_eq!(c.screen(), frame.as_slice());
    assert_eq!(c.cursor(), (0, 0));
    assert_eq!(w.len(), 5);
}

#[test]
fn hide_cursor_moves_it_off_screen() {
    let mut c = console();
    let w = c.hide_cursor();
    // offset 25 * 80 = 2000 = 0x07d0
    assert_eq!(
        w,
        vec![(Port(0x3d4), 14), (Port(0x3d5), 0x07), (Port(0x3d4), 15), (Port(0x3d5), 0xd0)]
    );
    // a hidden cursor is not moved any more
    let w = c.putch(b'k');
    assert!(w.is_empty());
}

#[test]
fn initialize_resets_colors_and_clears() {
    let mut c = console();
    c.setcolor(Color::White, Color::Blue, false);
    let w = initialize(&mut c);
    assert_eq!(c.attrib(), Attribute(0x07));
    assert!(c.screen().iter().all(|s| *s == ScreenChar::new(b' ', Attribute(0x07))));
    assert_eq!(w.last(), Some(&(Port(0x80), 0)));
}

#[test]
fn port_silbing_flips_low_bit() {
    assert_eq!(Port::new(0x3d4).silbing(), Port(0x3d5));
    assert_eq!(Port::new(0x3d5).silbing(), Port(0x3d4));
    assert_eq!(Port::new(0x3d4).silbing().silbing(), Port(0x3d4));
    assert_eq!(badapple::krnl::port::wait(), (Port(0x80), 0));
}
