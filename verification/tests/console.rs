use kernel_core::interrupts::PortWrite;
use kernel_core::vga_buffer::{
    backspace, get_color_code, scancode_to_ascii, write_byte, Color, ColorCode, ScreenChar, Writer,
    BUFFER_HEIGHT, BUFFER_WIDTH, VGA_BUFFER_ADDRESS,
};

fn white() -> ColorCode {
    get_color_code(Color::White, Color::Black)
}

fn row_text(writer: &Writer, row: usize) -> String {
    let mut text = String::new();
    for column in 0..BUFFER_WIDTH {
        text.push(writer.cell(row, column).ascii_character as char);
    }
    text.trim_end().to_string()
}

fn print(writer: &mut Writer, text: &str) {
    for byte in text.bytes() {
        write_byte(writer, byte, white());
    }
}

#[test]
fn scancode_table() {
    let digits = b"1234567890";
    for (i, &byte) in digits.iter().enumerate() {
        assert_eq!(scancode_to_ascii(0x02 + i as u8), Some(byte));
    }
    let upper = b"qwertyuiop";
    for (i, &byte) in upper.iter().enumerate() {
        assert_eq!(scancode_to_ascii(0x10 + i as u8), Some(byte));
    }
    let home = b"asdfghjkl";
    for (i, &byte) in home.iter().enumerate() {
        assert_eq!(scancode_to_ascii(0x1E + i as u8), Some(byte));
    }
    let lower = b"zxcvbnm";
    for (i, &byte) in lower.iter().enumerate() {
        assert_eq!(scancode_to_ascii(0x2C + i as u8), Some(byte));
    }
    assert_eq!(scancode_to_ascii(0x39), Some(b' '));
    assert_eq!(scancode_to_ascii(0x1C), Some(b'\n'));
    assert_eq!(scancode_to_ascii(0x0F), Some(b'\t'));
    assert_eq!(scancode_to_ascii(0x0E), Some(0x08));
}

#[test]
fn keys_without_a_byte() {
    let mut mapped = 0;
    for sc in 0u8..=255 {
        if scancode_to_ascii(sc).is_some() {
            mapped += 1;
        }
    }
    assert_eq!(mapped, 40);
    for sc in [0x00u8, 0x01, 0x0C, 0x0D, 0x1A, 0x1B, 0x1D, 0x27, 0x2A, 0x33, 0x3A, 0x48, 0x50, 0x9E, 0xE0] {
        assert_eq!(scancode_to_ascii(sc), None);
    }
}

#[test]
fn colour_codes() {
    assert_eq!(get_color_code(Color::White, Color::Black), ColorCode(0x0F));
    assert_eq!(get_color_code(Color::Black, Color::White), ColorCode(0xF0));
    assert_eq!(get_color_code(Color::Yellow, Color::Blue), ColorCode(0x1E));
    assert_eq!(ColorCode::new(Color::LightRed, Color::Black), ColorCode(0x0C));
    assert_eq!(Color::Black.code(), 0);
    assert_eq!(Color::LightGray.code(), 7);
    assert_eq!(Color::Pink.code(), 13);
    assert_eq!(Color::White.code(), 15);
}

#[test]
fn new_console_is_blank() {
    let writer = Writer::new();
    assert_eq!(BUFFER_HEIGHT, 25);
    assert_eq!(BUFFER_WIDTH, 80);
    assert_eq!(VGA_BUFFER_ADDRESS, 0xb8000);
    assert_eq!(writer.row(), 0);
    assert_eq!(writer.column(), 0);
    for row in 0..25 {
        for column in 0..80 {
            assert_eq!(writer.cell(row, column), ScreenChar { ascii_character: b' ', color_code: ColorCode(0x0F) });
        }
    }
}

#[test]
fn bytes_go_to_the_cursor_in_the_given_colour() {
    let mut writer = Writer::new();
    write_byte(&mut writer, b'H', ColorCode(0x0A));
    write_byte(&mut writer, b'i', ColorCode(0x0C));
    assert_eq!(writer.cell(0, 0), ScreenChar { ascii_character: b'H', color_code: ColorCode(0x0A) });
    assert_eq!(writer.cell(0, 1), ScreenChar { ascii_character: b'i', color_code: ColorCode(0x0C) });
    assert_eq!((writer.row(), writer.column()), (0, 2));
}

#[test]
fn line_feed_moves_to_the_next_row() {
    let mut writer = Writer::new();
    print(&mut writer, "ab\ncd");
    assert_eq!(row_text(&writer, 0), "ab");
    assert_eq!(row_text(&writer, 1), "cd");
    assert_eq!((writer.row(), writer.column()), (1, 2));
}

#[test]
fn full_row_wraps_on_the_next_byte() {
    let mut writer = Writer::new();
    for _ in 0..80 {
        write_byte(&mut writer, b'x', white());
    }
    assert_eq!((writer.row(), writer.column()), (0, 80));
    write_byte(&mut writer, b'y', white());
    assert_eq!((writer.row(), writer.column()), (1, 1));
    assert_eq!(writer.cell(0, 79).ascii_character, b'x');
    assert_eq!(writer.cell(1, 0).ascii_character, b'y');
}

#[test]
fn bottom_row_scrolls() {
    let mut writer = Writer::new();
    for row in 0..25 {
        print(&mut writer, &format!("row {}", row));
        if row < 24 {
            print(&mut writer, "\n");
        }
    }
    assert_eq!(row_text(&writer, 0), "row 0");
    assert_eq!(row_text(&writer, 24), "row 24");
    write_byte(&mut writer, b'\n', ColorCode(0x1E));
    assert_eq!((writer.row(), writer.column()), (24, 0));
    assert_eq!(row_text(&writer, 0), "row 1");
    assert_eq!(row_text(&writer, 23), "row 24");
    assert_eq!(row_text(&writer, 24), "");
    assert_eq!(writer.cell(24, 5), ScreenChar { ascii_character: b' ', color_code: ColorCode(0x1E) });
    print(&mut writer, "next");
    assert_eq!(row_text(&writer, 24), "next");
}

#[test]
fn backspace_blanks_the_cell_before_the_cursor() {
    let mut writer = Writer::new();
    print(&mut writer, "abc");
    backspace(&mut writer, white());
    assert_eq!(row_text(&writer, 0), "ab");
    assert_eq!((writer.row(), writer.column()), (0, 2));
    backspace(&mut writer, white());
    backspace(&mut writer, white());
    assert_eq!((writer.row(), writer.column()), (0, 0));
    backspace(&mut writer, white());
    assert_eq!((writer.row(), writer.column()), (0, 0));
    assert_eq!(row_text(&writer, 0), "");
}

#[test]
fn backspace_at_the_start_of_a_row_goes_to_the_row_above() {
    let mut writer = Writer::new();
    for _ in 0..80 {
        write_byte(&mut writer, b'x', white());
    }
    print(&mut writer, "\n");
    assert_eq!((writer.row(), writer.column()), (1, 0));
    backspace(&mut writer, white());
    assert_eq!((writer.row(), writer.column()), (0, 79));
    assert_eq!(writer.cell(0, 79).ascii_character, b' ');
    assert_eq!(writer.cell(0, 78).ascii_character, b'x');
}

#[test]
fn clear_row_uses_the_current_colour() {
    let mut writer = Writer::new();
    print(&mut writer, "abc\ndef");
    writer.set_color(ColorCode(0x2F));
    writer.clear_row(0);
    assert_eq!(row_text(&writer, 0), "");
    assert_eq!(writer.cell(0, 0).color_code, ColorCode(0x2F));
    assert_eq!(row_text(&writer, 1), "def");
}

#[test]
fn hardware_cursor_follows_the_writer() {
    let mut writer = Writer::new();
    assert_eq!(
        writer.set_cursor_position(),
        [
            PortWrite { port: 0x3D4, value: 0x0F },
            PortWrite { port: 0x3D5, value: 0 },
            PortWrite { port: 0x3D4, value: 0x0E },
            PortWrite { port: 0x3D5, value: 0 },
        ]
    );
    print(&mut writer, "\n\n\n\nabc");
    let position = 4 * 80 + 3;
    assert_eq!(
        writer.set_cursor_position(),
        [
            PortWrite { port: 0x3D4, value: 0x0F },
            PortWrite { port: 0x3D5, value: (position & 0xFF) as u8 },
            PortWrite { port: 0x3D4, value: 0x0E },
            PortWrite { port: 0x3D5, value: (position >> 8) as u8 },
        ]
    );
}
