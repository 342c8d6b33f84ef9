use myos::vga_buffer::{Color, ColorCode, Writer, BUFFER_HEIGHT, BUFFER_WIDTH, PLACEHOLDER_BYTE};

fn cyan_on_black() -> ColorCode {
    ColorCode::new(Color::Cyan, Color::Black)
}

fn row_text(writer: &Writer, row: usize) -> String {
    writer.buffer[row].iter().map(|sc| char::from(sc.ascii_character)).collect()
}

#[test]
fn color_codes_pack_background_and_foreground() {
    assert_eq!(ColorCode::new(Color::Cyan, Color::Black).0, 3);
    assert_eq!(ColorCode::new(Color::Black, Color::Cyan).0, 48);
    assert_eq!(ColorCode::new(Color::White, Color::White).0, 255);
    assert_eq!(ColorCode::new(Color::Yellow, Color::Blue).0, 16 + 14);
}

#[test]
fn a_new_writer_shows_a_blank_screen() {
    let writer = Writer::new(cyan_on_black());
    assert_eq!(writer.column_position, 0);
    assert_eq!(writer.buffer.len(), BUFFER_HEIGHT);
    for row in 0..BUFFER_HEIGHT {
        assert_eq!(writer.buffer[row].len(), BUFFER_WIDTH);
        assert!(row_text(&writer, row).chars().all(|c| c == ' '));
    }
}

#[test]
fn bytes_are_written_in_the_bottom_row() {
    let mut writer = Writer::new(cyan_on_black());
    writer.write_byte(b'h');
    writer.write_byte(b'i');

    assert_eq!(writer.column_position, 2);
    assert!(row_text(&writer, BUFFER_HEIGHT - 1).starts_with("hi"));
}

#[test]
fn unprintable_bytes_show_the_placeholder() {
    let mut writer = Writer::new(cyan_on_black());
    writer.write_byte(0x01);
    writer.write_byte(0x7f);

    assert_eq!(writer.buffer[BUFFER_HEIGHT - 1][0].ascii_character, PLACEHOLDER_BYTE);
    assert_eq!(writer.buffer[BUFFER_HEIGHT - 1][1].ascii_character, PLACEHOLDER_BYTE);
}

#[test]
fn writing_lines_has_correct_output() {
    let line = "A string that can fit in a single line";
    let mut writer = Writer::new(cyan_on_black());

    writer.write_string("\n");
    writer.write_string(line);
    writer.write_string("\n");

    let shown = row_text(&writer, BUFFER_HEIGHT - 2);
    assert!(shown.starts_with(line));
    assert!(shown[line.len()..].chars().all(|c| c == ' '));
    assert!(row_text(&writer, BUFFER_HEIGHT - 1).chars().all(|c| c == ' '));
}

#[test]
fn a_long_line_wraps_to_the_next_row() {
    let mut writer = Writer::new(cyan_on_black());
    for _ in 0..BUFFER_WIDTH {
        writer.write_byte(b'x');
    }
    assert_eq!(writer.column_position, BUFFER_WIDTH);
    writer.write_byte(b'y');

    // the full row scrolled up, and the overflowing byte starts the new row
    assert_eq!(writer.column_position, 1);
    assert!(row_text(&writer, BUFFER_HEIGHT - 2).chars().all(|c| c == 'x'));
    assert!(row_text(&writer, BUFFER_HEIGHT - 1).starts_with('y'));
}

#[test]
fn scrolling_drops_the_top_row() {
    let mut writer = Writer::new(cyan_on_black());
    writer.write_string("first");
    for _ in 0..BUFFER_HEIGHT {
        writer.write_byte(b'\n');
    }
    for row in 0..BUFFER_HEIGHT {
        assert!(row_text(&writer, row).chars().all(|c| c == ' '));
    }
}
