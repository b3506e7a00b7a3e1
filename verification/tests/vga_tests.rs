//! The console writer over the model screen buffer.

use rust_os::vga_buffer::{
    print_helper, Color, ColorCode, Writer, BUFFER_HEIGHT, BUFFER_WIDTH,
};

fn writer() -> Writer {
    Writer::new(ColorCode::new(Color::Yellow, Color::Black))
}

#[test]
fn color_code_packs_background_high() {
    let cc = ColorCode::new(Color::Yellow, Color::Black);
    assert_eq!(cc.0, 0x0e);
    let cc2 = ColorCode::new(Color::White, Color::Blue);
    assert_eq!(cc2.0, 0x1f);
}

#[test]
fn test_println_simple() {
    let mut w = writer();
    print_helper(&mut w, "test_println_simple output\n");
}

#[test]
fn test_println_many() {
    let mut w = writer();
    for _ in 0..200 {
        print_helper(&mut w, "test_println_many output\n");
    }
}

#[test]
fn test_println_long() {
    let mut w = writer();
    for _ in 0..200 {
        print_helper(&mut w, "test_println_long output");
    }
    // Wrapping never leaves the column outside the row.
    assert!(w.column_position <= BUFFER_WIDTH);
}

#[test]
fn test_println_output() {
    let mut w = writer();
    let s = "Some test string that fits on a single line";
    print_helper(&mut w, s);
    print_helper(&mut w, "\n");
    for (i, c) in s.chars().enumerate() {
        let screen_char = w.buffer[BUFFER_HEIGHT - 2][i];
        assert_eq!(char::from(screen_char.ascii_char), c);
    }
}

#[test]
fn writes_land_on_the_bottom_row() {
    let mut w = writer();
    print_helper(&mut w, "AB");
    assert_eq!(w.buffer[BUFFER_HEIGHT - 1][0].ascii_char, b'A');
    assert_eq!(w.buffer[BUFFER_HEIGHT - 1][1].ascii_char, b'B');
    assert_eq!(w.column_position, 2);
}

#[test]
fn newline_scrolls_the_screen() {
    let mut w = writer();
    print_helper(&mut w, "X\n");
    assert_eq!(w.buffer[BUFFER_HEIGHT - 2][0].ascii_char, b'X');
    assert_eq!(w.column_position, 0);
    // The bottom row is blank again.
    for col in 0..BUFFER_WIDTH {
        assert_eq!(w.buffer[BUFFER_HEIGHT - 1][col].ascii_char, b' ');
    }
}

#[test]
fn long_lines_wrap() {
    let mut w = writer();
    let long: String = std::iter::repeat('a').take(BUFFER_WIDTH + 3).collect();
    print_helper(&mut w, &long);
    // The first 80 bytes filled the row, which then scrolled up.
    assert_eq!(w.buffer[BUFFER_HEIGHT - 2][0].ascii_char, b'a');
    assert_eq!(w.buffer[BUFFER_HEIGHT - 1][0].ascii_char, b'a');
    assert_eq!(w.column_position, 3);
}

#[test]
fn unprintable_bytes_become_the_replacement_glyph() {
    let mut w = writer();
    print_helper(&mut w, "a\u{7f}b");
    assert_eq!(w.buffer[BUFFER_HEIGHT - 1][0].ascii_char, b'a');
    assert_eq!(w.buffer[BUFFER_HEIGHT - 1][1].ascii_char, 0xfe);
    assert_eq!(w.buffer[BUFFER_HEIGHT - 1][2].ascii_char, b'b');
}
