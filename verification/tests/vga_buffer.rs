use neekos::vga_buffer::{
    Color, ColorCode, ScreenChar, Writer, BUFFER_HEIGHT, BUFFER_WIDTH, UNPRINTABLE,
};

fn writer() -> Writer {
    Writer::new(ColorCode::new(Color::Yellow, Color::Black))
}

fn row(writer: &Writer, row: usize) -> String {
    (0..BUFFER_WIDTH).map(|col| char::from(writer.screen_char(row, col).ascii_character)).collect()
}

fn padded(text: &str) -> String {
    format!("{:<80}", text)
}

#[test]
fn colors_are_numbered_in_order() {
    assert_eq!(Color::Black.code(), 0);
    assert_eq!(Color::Magent.code(), 5);
    assert_eq!(Color::LightGray.code(), 7);
    assert_eq!(Color::Yellow.code(), 14);
    assert_eq!(Color::White.code(), 15);
}

#[test]
fn color_code_holds_background_above_foreground() {
    assert_eq!(ColorCode::new(Color::Yellow, Color::Black), ColorCode(0x0e));
    assert_eq!(ColorCode::new(Color::Black, Color::Yellow), ColorCode(0xe0));
    assert_eq!(ColorCode::new(Color::White, Color::White), ColorCode(0xff));
    assert_eq!(ColorCode::new(Color::LightRed, Color::Blue), ColorCode(0x1c));
}

#[test]
fn screen_is_25_by_80() {
    assert_eq!(BUFFER_HEIGHT, 25);
    assert_eq!(BUFFER_WIDTH, 80);
}

#[test]
fn new_writer_has_an_empty_screen() {
    let writer = writer();
    assert_eq!(writer.column_position(), 0);
    let blank = ScreenChar { ascii_character: b' ', color_code: ColorCode(0x0e) };
    for r in 0..BUFFER_HEIGHT {
        for c in 0..BUFFER_WIDTH {
            assert_eq!(writer.screen_char(r, c), blank);
        }
    }
}

#[test]
fn bytes_go_to_the_last_row() {
    let mut writer = writer();
    writer.write_byte(b'H');
    writer.write_byte(b'i');
    assert_eq!(writer.column_position(), 2);
    assert_eq!(row(&writer, BUFFER_HEIGHT - 1), padded("Hi"));
    assert_eq!(row(&writer, BUFFER_HEIGHT - 2), padded(""));
    assert_eq!(
        writer.screen_char(BUFFER_HEIGHT - 1, 0),
        ScreenChar { ascii_character: b'H', color_code: ColorCode(0x0e) }
    );
}

#[test]
fn line_feed_moves_the_rows_up() {
    let mut writer = writer();
    writer.write_string("one\ntwo\nthree");
    assert_eq!(row(&writer, BUFFER_HEIGHT - 3), padded("one"));
    assert_eq!(row(&writer, BUFFER_HEIGHT - 2), padded("two"));
    assert_eq!(row(&writer, BUFFER_HEIGHT - 1), padded("three"));
    assert_eq!(writer.column_position(), 5);
    writer.write_byte(b'\n');
    assert_eq!(row(&writer, BUFFER_HEIGHT - 2), padded("three"));
    assert_eq!(row(&writer, BUFFER_HEIGHT - 1), padded(""));
    assert_eq!(writer.column_position(), 0);
}

#[test]
fn printed_line_appears_above_the_last_row() {
    let s = "Some test string that fits on a single line";
    let mut writer = writer();
    writer.write_string("\n");
    writer.write_string(s);
    writer.write_string("\n");
    for (i, c) in s.chars().enumerate() {
        let screen_char = writer.screen_char(BUFFER_HEIGHT - 2, i);
        assert_eq!(char::from(screen_char.ascii_character), c);
    }
}

#[test]
fn full_row_wraps() {
    let mut writer = writer();
    let line = "x".repeat(BUFFER_WIDTH);
    writer.write_string(&line);
    assert_eq!(writer.column_position(), BUFFER_WIDTH);
    assert_eq!(row(&writer, BUFFER_HEIGHT - 1), line);
    writer.write_byte(b'y');
    assert_eq!(writer.column_position(), 1);
    assert_eq!(row(&writer, BUFFER_HEIGHT - 2), line);
    assert_eq!(row(&writer, BUFFER_HEIGHT - 1), padded("y"));
}

#[test]
fn first_row_is_lost_when_the_screen_is_full() {
    let mut writer = writer();
    for i in 0..BUFFER_HEIGHT {
        writer.write_string(&format!("line {}\n", i));
    }
    assert_eq!(row(&writer, 0), padded("line 1"));
    assert_eq!(row(&writer, BUFFER_HEIGHT - 2), padded("line 24"));
    assert_eq!(row(&writer, BUFFER_HEIGHT - 1), padded(""));
}

#[test]
fn many_lines_can_be_written() {
    let mut writer = writer();
    for _ in 0..200 {
        writer.write_string("test_println_many output\n");
    }
    assert_eq!(row(&writer, 0), padded("test_println_many output"));
    assert_eq!(row(&writer, BUFFER_HEIGHT - 1), padded(""));
}

#[test]
fn unprintable_bytes_are_replaced() {
    let mut writer = writer();
    writer.write_string("a\tb\u{7f}c");
    let shown: Vec<u8> =
        (0..5).map(|col| writer.screen_char(BUFFER_HEIGHT - 1, col).ascii_character).collect();
    assert_eq!(shown, [b'a', UNPRINTABLE, b'b', UNPRINTABLE, b'c']);
    assert_eq!(UNPRINTABLE, 0xfe);
}

#[test]
fn each_byte_of_a_wide_character_is_replaced() {
    let mut writer = writer();
    writer.write_string("ö~ ");
    let shown: Vec<u8> =
        (0..4).map(|col| writer.screen_char(BUFFER_HEIGHT - 1, col).ascii_character).collect();
    assert_eq!(shown, [UNPRINTABLE, UNPRINTABLE, b'~', b' ']);
    assert_eq!(writer.column_position(), 4);
}

#[test]
fn write_byte_takes_any_byte() {
    let mut writer = writer();
    writer.write_byte(0x01);
    writer.write_byte(0xff);
    assert_eq!(writer.screen_char(BUFFER_HEIGHT - 1, 0).ascii_character, 0x01);
    assert_eq!(writer.screen_char(BUFFER_HEIGHT - 1, 1).ascii_character, 0xff);
}
