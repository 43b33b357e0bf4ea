use kernel_memory::vga_buffer::{
    clear_screen, print, Color, ColorCode, ScreenChar, Writer, BUFFER_HEIGHT, BUFFER_WIDTH,
};

fn row_text(writer: &Writer, row: usize) -> String {
    (0..BUFFER_WIDTH).map(|col| writer.char_at(row, col).ascii_char as char).collect()
}

fn padded(text: &str) -> String {
    format!("{:<80}", text)
}

#[test]
fn colours_are_numbered_from_black_to_white() {
    let colours = [
        Color::Black,
        Color::Blue,
        Color::Green,
        Color::Cyan,
        Color::Red,
        Color::Magenta,
        Color::Brown,
        Color::LightGray,
        Color::DarkGray,
        Color::LightBlue,
        Color::LightGreen,
        Color::LightCyan,
        Color::LightRed,
        Color::PINK,
        Color::YELLOW,
        Color::WHITE,
    ];
    for (number, colour) in colours.iter().enumerate() {
        assert_eq!(colour.number() as usize, number);
    }
}

#[test]
fn colour_code_holds_background_above_foreground() {
    assert_eq!(ColorCode::new(Color::LightGreen, Color::Black).code, 0x0a);
    assert_eq!(ColorCode::new(Color::Black, Color::LightGreen).code, 0xa0);
    assert_eq!(ColorCode::new(Color::WHITE, Color::Blue).code, 0x1f);
    assert_eq!(ColorCode::new(Color::WHITE, Color::WHITE).code, 0xff);
    assert_eq!(ColorCode::new(Color::Black, Color::Black).code, 0x00);
}

#[test]
fn new_writer_has_a_screen_of_blanks() {
    let code = ColorCode::new(Color::LightGreen, Color::Black);
    let writer = Writer::new(0, code);
    assert_eq!(writer.column_position(), 0);
    for row in 0..BUFFER_HEIGHT {
        for col in 0..BUFFER_WIDTH {
            assert_eq!(writer.char_at(row, col), ScreenChar { ascii_char: b' ', color_code: code });
        }
    }
}

#[test]
fn characters_go_to_the_bottom_row() {
    let code = ColorCode::new(Color::YELLOW, Color::Red);
    let mut writer = Writer::new(0, code);
    writer.write_byte(b'H');
    writer.write_byte(b'i');
    assert_eq!(writer.column_position(), 2);
    assert_eq!(writer.char_at(24, 0), ScreenChar { ascii_char: b'H', color_code: code });
    assert_eq!(writer.char_at(24, 1), ScreenChar { ascii_char: b'i', color_code: code });
    assert_eq!(writer.char_at(24, 2), ScreenChar { ascii_char: b' ', color_code: code });
    assert_eq!(row_text(&writer, 23), padded(""));
}

#[test]
fn writer_starts_at_the_given_column() {
    let mut writer = Writer::new(78, ColorCode::new(Color::WHITE, Color::Black));
    writer.write_str("abc");
    assert_eq!(row_text(&writer, 23), format!("{:>80}", "ab"));
    assert_eq!(row_text(&writer, 24), padded("c"));
    assert_eq!(writer.column_position(), 1);
}

#[test]
fn line_feed_moves_the_rows_up() {
    let mut writer = Writer::new(0, ColorCode::new(Color::WHITE, Color::Black));
    writer.write_str("one\ntwo\nthree");
    assert_eq!(row_text(&writer, 22), padded("one"));
    assert_eq!(row_text(&writer, 23), padded("two"));
    assert_eq!(row_text(&writer, 24), padded("three"));
    assert_eq!(row_text(&writer, 21), padded(""));
    assert_eq!(writer.column_position(), 5);
    writer.write_byte(b'\n');
    assert_eq!(row_text(&writer, 21), padded("one"));
    assert_eq!(row_text(&writer, 24), padded(""));
    assert_eq!(writer.column_position(), 0);
}

#[test]
fn full_row_wraps_before_the_next_character() {
    let mut writer = Writer::new(0, ColorCode::new(Color::WHITE, Color::Black));
    let line: String = (0..80).map(|i| (b'a' + (i % 26) as u8) as char).collect();
    writer.write_str(&line);
    assert_eq!(writer.column_position(), 80);
    assert_eq!(row_text(&writer, 24), line);
    assert_eq!(row_text(&writer, 23), padded(""));
    writer.write_byte(b'!');
    assert_eq!(writer.column_position(), 1);
    assert_eq!(row_text(&writer, 23), line);
    assert_eq!(row_text(&writer, 24), padded("!"));
}

#[test]
fn top_row_is_lost_when_the_screen_is_full() {
    let mut writer = Writer::new(0, ColorCode::new(Color::WHITE, Color::Black));
    for line in 0..30 {
        writer.write_str(&format!("line {}\n", line));
    }
    assert_eq!(row_text(&writer, 0), padded("line 6"));
    assert_eq!(row_text(&writer, 23), padded("line 29"));
    assert_eq!(row_text(&writer, 24), padded(""));
}

#[test]
fn bytes_beyond_ascii_are_written_one_by_one() {
    let mut writer = Writer::new(0, ColorCode::new(Color::WHITE, Color::Black));
    writer.write_str("é");
    assert_eq!(writer.column_position(), 2);
    assert_eq!(writer.char_at(24, 0).ascii_char, 0xc3);
    assert_eq!(writer.char_at(24, 1).ascii_char, 0xa9);
}

#[test]
fn print_writes_the_text() {
    let mut writer = Writer::new(0, ColorCode::new(Color::LightGreen, Color::Black));
    print(&mut writer, "Booted!\n");
    print(&mut writer, "ok");
    assert_eq!(row_text(&writer, 23), padded("Booted!"));
    assert_eq!(row_text(&writer, 24), padded("ok"));
}

#[test]
fn clear_screen_leaves_blanks() {
    let code = ColorCode::new(Color::Cyan, Color::Magenta);
    let mut writer = Writer::new(0, code);
    for line in 0..40 {
        writer.write_str(&format!("{} bottles\n", line));
    }
    writer.write_str("rest");
    clear_screen(&mut writer);
    assert_eq!(writer.column_position(), 0);
    for row in 0..BUFFER_HEIGHT {
        for col in 0..BUFFER_WIDTH {
            assert_eq!(writer.char_at(row, col), ScreenChar { ascii_char: b' ', color_code: code });
        }
    }
}
