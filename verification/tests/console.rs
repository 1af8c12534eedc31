use rustferret::vga_buffer::{Buffer, Color, ColorCode, ScreenChar, Writer};
use rustferret::video_memory::{Cells, BUFFER_HEIGHT, BUFFER_WIDTH};
use volatile::Volatile;

const YELLOW_ON_BLACK: u8 = 0x0e;

/// A grid in ordinary memory in which every cell holds `bits`.
fn cells(bits: u16) -> &'static mut Cells {
    Box::leak(Box::new(core::array::from_fn(|_| {
        core::array::from_fn(|_| Volatile::new(bits))
    })))
}

/// A writer on a screen of blanks in the writer's own color.
fn blank_writer() -> Writer {
    Writer::new(Buffer::new(cells(0x0e20)))
}

fn row_text(writer: &Writer, row: usize) -> String {
    (0..BUFFER_WIDTH)
        .map(|col| char::from(writer.read(row, col).ascii_char))
        .collect()
}

fn padded(text: &str) -> String {
    format!("{:<width$}", text, width = BUFFER_WIDTH)
}

fn println(writer: &mut Writer, text: &str) {
    writer.write_string(text);
    writer.write_string("\n");
}

#[test]
fn test_println() {
    let mut writer = blank_writer();
    println(&mut writer, "test_println output");
    assert_eq!(row_text(&writer, BUFFER_HEIGHT - 2), padded("test_println output"));
    assert_eq!(row_text(&writer, BUFFER_HEIGHT - 1), padded(""));
}

#[test]
fn test_println_simple() {
    let mut writer = blank_writer();
    println(&mut writer, "test_println_simple output");
    assert_eq!(row_text(&writer, BUFFER_HEIGHT - 2), padded("test_println_simple output"));
    assert_eq!(row_text(&writer, BUFFER_HEIGHT - 1), padded(""));
    assert_eq!(writer.column_position(), 0);
}

#[test]
fn test_println_many() {
    let mut writer = blank_writer();
    for _ in 0..200 {
        println(&mut writer, "test_println_many output");
    }
    for row in 0..BUFFER_HEIGHT - 1 {
        assert_eq!(row_text(&writer, row), padded("test_println_many output"));
    }
    assert_eq!(row_text(&writer, BUFFER_HEIGHT - 1), padded(""));
    assert_eq!(writer.column_position(), 0);
}

#[test]
fn test_println_output() {
    let mut writer = blank_writer();
    let s = "Some test string that fits on a single line";
    println(&mut writer, s);
    for (i, c) in s.chars().enumerate() {
        let screen_char = writer.read(BUFFER_HEIGHT - 2, i);
        assert_eq!(char::from(screen_char.ascii_char), c);
    }
}

#[test]
fn test_println_wraparound() {
    let text = "Long string! Gray eel-catfish labyrinth fish x-ray tetra, barbeled houndshark gianttail dorado Mexican golden trout, mudfish ground shark.\" North American freshwater catfish scaleless black dragonfish, \"blacktip reef shark,\" kaluga sea lamprey sixgill shark searobin; bluntnose knifefish, soldierfish. Butterfly ray red velvetfish golden trout humuhumunukunukuapua'a. Goldfish yellow-and-black triplefin mummichog, Pacific hake mackerel shark char banded killifish, \"scat halosaur, snoek weever, garden eel snailfish Pacific cod.\" Ghost fish roosterfish peamouth Australasian salmon jewel tetra pufferfish orbicular batfish convict cichlid stonecat spinefoot, seamoth silverside longjaw mudsucker burma danio shiner eucla cod yellowfin pike Asiatic glassfish. Javelin Pacific saury glowlight danio skipping goby jewelfish, hardhead catfish blackchin sand knifefish rivuline; Old World rivuline Atlantic trout.";
    let mut writer = blank_writer();
    println(&mut writer, text);
    let length = text.len();
    let full_rows = length / BUFFER_WIDTH;
    assert!(length % BUFFER_WIDTH != 0);
    assert!(full_rows + 2 <= BUFFER_HEIGHT);
    for (i, byte) in text.bytes().enumerate() {
        let row = BUFFER_HEIGHT - 2 - (full_rows - i / BUFFER_WIDTH);
        assert_eq!(writer.read(row, i % BUFFER_WIDTH).ascii_char, byte);
    }
    assert_eq!(row_text(&writer, BUFFER_HEIGHT - 1), padded(""));
    assert_eq!(writer.column_position(), 0);
}

#[test]
fn two_lines_on_an_empty_screen() {
    let mut writer = blank_writer();
    writer.write_string("AB\nCD");
    assert_eq!(row_text(&writer, BUFFER_HEIGHT - 2), padded("AB"));
    assert_eq!(row_text(&writer, BUFFER_HEIGHT - 1), padded("CD"));
    assert_eq!(writer.column_position(), 2);
    for row in 0..BUFFER_HEIGHT - 2 {
        assert_eq!(row_text(&writer, row), padded(""));
    }
}

#[test]
fn eighty_five_characters_scroll_once() {
    let mut writer = blank_writer();
    println(&mut writer, "marker");
    let text: String = (0..85u8).map(|i| char::from(b'!' + i)).collect();
    writer.write_string(&text);
    assert_eq!(row_text(&writer, BUFFER_HEIGHT - 3), padded("marker"));
    assert_eq!(row_text(&writer, BUFFER_HEIGHT - 2), text[..80]);
    assert_eq!(row_text(&writer, BUFFER_HEIGHT - 1), padded(&text[80..]));
    for col in 0..5 {
        assert_eq!(
            writer.read(BUFFER_HEIGHT - 1, col).ascii_char,
            text.as_bytes()[80 + col]
        );
    }
    assert_eq!(writer.column_position(), 5);
}

#[test]
fn unprintable_byte_becomes_placeholder() {
    let mut writer = blank_writer();
    writer.write_string("\u{1}");
    let cell = writer.read(BUFFER_HEIGHT - 1, 0);
    assert_eq!(cell.ascii_char, 0xfe);
    assert_ne!(cell.ascii_char, 0x01);
    assert_eq!(cell.color_code, ColorCode(YELLOW_ON_BLACK));
    assert_eq!(writer.column_position(), 1);
}

#[test]
fn every_unprintable_byte_becomes_placeholder() {
    for byte in 0u8..=0x7f {
        let mut writer = blank_writer();
        let text = String::from(char::from(byte));
        writer.write_string(&text);
        if byte == b'\n' {
            assert_eq!(writer.column_position(), 0);
            assert_eq!(row_text(&writer, BUFFER_HEIGHT - 1), padded(""));
        } else {
            let expected = if (0x20..=0x7e).contains(&byte) { byte } else { 0xfe };
            assert_eq!(writer.read(BUFFER_HEIGHT - 1, 0).ascii_char, expected);
            assert_eq!(writer.column_position(), 1);
        }
    }
}

#[test]
fn each_byte_of_a_wide_character_becomes_placeholder() {
    let mut writer = blank_writer();
    writer.write_string("a\u{e9}b\t");
    let shown: Vec<u8> = (0..5)
        .map(|col| writer.read(BUFFER_HEIGHT - 1, col).ascii_char)
        .collect();
    assert_eq!(shown, vec![b'a', 0xfe, 0xfe, b'b', 0xfe]);
    assert_eq!(writer.column_position(), 5);
}

#[test]
fn write_byte_stores_the_byte_as_it_is() {
    let mut writer = blank_writer();
    writer.write_byte(0x01);
    writer.write_byte(b'x');
    assert_eq!(
        writer.read(BUFFER_HEIGHT - 1, 0),
        ScreenChar { ascii_char: 0x01, color_code: ColorCode(YELLOW_ON_BLACK) }
    );
    assert_eq!(
        writer.read(BUFFER_HEIGHT - 1, 1),
        ScreenChar { ascii_char: b'x', color_code: ColorCode(YELLOW_ON_BLACK) }
    );
    assert_eq!(writer.column_position(), 2);
}

#[test]
fn write_byte_newline_scrolls() {
    let mut writer = blank_writer();
    writer.write_byte(b'a');
    writer.write_byte(b'\n');
    writer.write_byte(b'b');
    assert_eq!(row_text(&writer, BUFFER_HEIGHT - 2), padded("a"));
    assert_eq!(row_text(&writer, BUFFER_HEIGHT - 1), padded("b"));
    assert_eq!(writer.column_position(), 1);
}

#[test]
fn new_writer_keeps_what_the_cells_hold() {
    let writer = Writer::new(Buffer::new(cells(0x1f41)));
    assert_eq!(writer.column_position(), 0);
    for row in 0..BUFFER_HEIGHT {
        for col in 0..BUFFER_WIDTH {
            assert_eq!(
                writer.read(row, col),
                ScreenChar { ascii_char: b'A', color_code: ColorCode(0x1f) }
            );
        }
    }
}

#[test]
fn scroll_clears_the_bottom_row_in_the_current_color() {
    let mut writer = Writer::new(Buffer::new(cells(0x1f41)));
    writer.write_string("\n");
    for col in 0..BUFFER_WIDTH {
        assert_eq!(
            writer.read(BUFFER_HEIGHT - 1, col),
            ScreenChar { ascii_char: b' ', color_code: ColorCode(YELLOW_ON_BLACK) }
        );
        assert_eq!(
            writer.read(BUFFER_HEIGHT - 2, col),
            ScreenChar { ascii_char: b'A', color_code: ColorCode(0x1f) }
        );
    }
}

#[test]
fn only_the_written_cell_changes() {
    let mut writer = Writer::new(Buffer::new(cells(0x1f41)));
    writer.write_string("z");
    for row in 0..BUFFER_HEIGHT {
        for col in 0..BUFFER_WIDTH {
            let expected = if row == BUFFER_HEIGHT - 1 && col == 0 {
                ScreenChar { ascii_char: b'z', color_code: ColorCode(YELLOW_ON_BLACK) }
            } else {
                ScreenChar { ascii_char: b'A', color_code: ColorCode(0x1f) }
            };
            assert_eq!(writer.read(row, col), expected);
        }
    }
}

#[test]
fn buffer_write_then_read() {
    let mut buffer = Buffer::new(cells(0));
    let cell = ScreenChar { ascii_char: b'Q', color_code: ColorCode(0x4a) };
    buffer.write(3, 7, cell);
    assert_eq!(buffer.read(3, 7), cell);
    assert_eq!(buffer.read(3, 6), ScreenChar { ascii_char: 0, color_code: ColorCode(0) });
    assert_eq!(buffer.read(7, 3), ScreenChar { ascii_char: 0, color_code: ColorCode(0) });
    buffer.write(BUFFER_HEIGHT - 1, BUFFER_WIDTH - 1, cell);
    assert_eq!(buffer.read(BUFFER_HEIGHT - 1, BUFFER_WIDTH - 1), cell);
}

#[test]
fn full_row_wraps_only_on_the_next_character() {
    let mut writer = blank_writer();
    println(&mut writer, "marker");
    let row: String = "0123456789".repeat(8);
    writer.write_string(&row);
    assert_eq!(writer.column_position(), BUFFER_WIDTH);
    assert_eq!(row_text(&writer, BUFFER_HEIGHT - 1), row);
    assert_eq!(row_text(&writer, BUFFER_HEIGHT - 2), padded("marker"));
    writer.write_string("x");
    assert_eq!(writer.column_position(), 1);
    assert_eq!(row_text(&writer, BUFFER_HEIGHT - 1), padded("x"));
    assert_eq!(row_text(&writer, BUFFER_HEIGHT - 2), row);
    assert_eq!(row_text(&writer, BUFFER_HEIGHT - 3), padded("marker"));
}

#[test]
fn newline_after_a_full_row_scrolls_once() {
    let mut writer = blank_writer();
    println(&mut writer, "marker");
    let row: String = "abcdefghij".repeat(8);
    writer.write_string(&row);
    writer.write_string("\n");
    assert_eq!(writer.column_position(), 0);
    assert_eq!(row_text(&writer, BUFFER_HEIGHT - 1), padded(""));
    assert_eq!(row_text(&writer, BUFFER_HEIGHT - 2), row);
    assert_eq!(row_text(&writer, BUFFER_HEIGHT - 3), padded("marker"));
}

#[test]
fn scroll_count_and_cursor_by_length() {
    for (length, scrolls, column) in [
        (1usize, 0usize, 1usize),
        (79, 0, 79),
        (80, 0, 80),
        (81, 1, 1),
        (85, 1, 5),
        (160, 1, 80),
        (161, 2, 1),
        (400, 4, 80),
    ] {
        let mut writer = blank_writer();
        println(&mut writer, "marker");
        let text: String = (0..length).map(|i| char::from(b'a' + (i % 26) as u8)).collect();
        writer.write_string(&text);
        assert_eq!(writer.column_position(), column);
        assert_eq!(row_text(&writer, BUFFER_HEIGHT - 2 - scrolls), padded("marker"));
        for (i, byte) in text.bytes().enumerate() {
            let row = BUFFER_HEIGHT - 1 - (scrolls - i / BUFFER_WIDTH);
            assert_eq!(writer.read(row, i % BUFFER_WIDTH).ascii_char, byte);
        }
    }
}

#[test]
fn latest_lines_fill_the_screen() {
    let mut writer = Writer::new(Buffer::new(cells(0x1f41)));
    writer.write_string("left over");
    let lines: Vec<String> = (0..30).map(|i| format!("line number {}", i)).collect();
    for line in &lines {
        println(&mut writer, line);
    }
    let text_rows = BUFFER_HEIGHT - 1;
    for row in 0..text_rows {
        assert_eq!(row_text(&writer, row), padded(&lines[lines.len() - text_rows + row]));
    }
    assert_eq!(row_text(&writer, BUFFER_HEIGHT - 1), padded(""));
    for row in 0..BUFFER_HEIGHT {
        assert!(!row_text(&writer, row).contains("line number 5 "));
        assert!(!row_text(&writer, row).contains("left over"));
        for col in 0..BUFFER_WIDTH {
            assert_eq!(writer.read(row, col).color_code, ColorCode(YELLOW_ON_BLACK));
        }
    }
}

#[test]
fn latest_line_is_on_the_bottom_row_before_its_newline() {
    let mut writer = blank_writer();
    for i in 0..40 {
        let line = format!("entry {}", i);
        writer.write_string(&line);
        assert_eq!(row_text(&writer, BUFFER_HEIGHT - 1), padded(&line));
        writer.write_string("\n");
        assert_eq!(row_text(&writer, BUFFER_HEIGHT - 2), padded(&line));
    }
}

#[test]
fn two_writes_show_what_one_write_of_both_shows() {
    let first = "first part, long enough to get near the end of the row .....";
    let second = "second part\nwith a newline and \u{7f} a byte that cannot be shown";
    let mut split = blank_writer();
    split.write_string(first);
    split.write_string(second);
    let mut joined = blank_writer();
    joined.write_string(&format!("{}{}", first, second));
    assert_eq!(split.column_position(), joined.column_position());
    for row in 0..BUFFER_HEIGHT {
        for col in 0..BUFFER_WIDTH {
            assert_eq!(split.read(row, col), joined.read(row, col));
        }
    }
}

#[test]
fn text_with_newlines_reads_back() {
    let mut writer = blank_writer();
    writer.write_string("ab");
    writer.write_string("cd\nefg\n\nh");
    assert_eq!(row_text(&writer, BUFFER_HEIGHT - 4), padded("abcd"));
    assert_eq!(row_text(&writer, BUFFER_HEIGHT - 3), padded("efg"));
    assert_eq!(row_text(&writer, BUFFER_HEIGHT - 2), padded(""));
    assert_eq!(row_text(&writer, BUFFER_HEIGHT - 1), padded("h"));
    assert_eq!(writer.column_position(), 1);
}

#[test]
fn empty_string_changes_nothing() {
    let mut writer = Writer::new(Buffer::new(cells(0x1f41)));
    writer.write_string("abc");
    writer.write_string("");
    assert_eq!(writer.column_position(), 3);
    assert_eq!(writer.read(BUFFER_HEIGHT - 1, 3).ascii_char, b'A');
}

#[test]
fn color_codes() {
    let colors = [
        Color::Black,
        Color::Blue,
        Color::Green,
        Color::Cyan,
        Color::Red,
        Color::Magenta,
        Color::Brown,
        Color::LightGray,
        Color::DarkGray,
        Color::LightBlue,
        Color::LightGreen,
        Color::LightCyan,
        Color::LightRed,
        Color::Pink,
        Color::Yellow,
        Color::White,
    ];
    for (code, color) in colors.iter().enumerate() {
        assert_eq!(color.to_code() as usize, code);
    }
}

#[test]
fn color_code_packs_background_above_foreground() {
    assert_eq!(ColorCode::new(Color::Yellow, Color::Black), ColorCode(0x0e));
    assert_eq!(ColorCode::new(Color::White, Color::Blue), ColorCode(0x1f));
    assert_eq!(ColorCode::new(Color::Black, Color::White), ColorCode(0xf0));
    assert_eq!(ColorCode::new(Color::LightRed, Color::Cyan), ColorCode(0x3c));
    assert_eq!(ColorCode::new(Color::Black, Color::Black), ColorCode(0x00));
    assert_eq!(ColorCode::new(Color::White, Color::White), ColorCode(0xff));
}

#[test]
fn screen_char_word_has_character_low_and_color_high() {
    let cell = ScreenChar { ascii_char: b'A', color_code: ColorCode(0x0e) };
    assert_eq!(cell.to_bits(), 0x0e41);
    assert_eq!(cell.to_bits().to_le_bytes(), [b'A', 0x0e]);
    assert_eq!(ScreenChar::from_bits(0x0e41), cell);
    assert_eq!(
        ScreenChar::from_bits(0xfffe),
        ScreenChar { ascii_char: 0xfe, color_code: ColorCode(0xff) }
    );
    for bits in [0u16, 1, 0x00ff, 0x0100, 0x1234, 0xffff] {
        assert_eq!(ScreenChar::from_bits(bits).to_bits(), bits);
    }
}

#[test]
fn formatting_sink_writes_like_write_string() {
    let mut through_sink = blank_writer();
    assert!(core::fmt::Write::write_str(&mut through_sink, "sum = ").is_ok());
    assert!(core::fmt::Write::write_char(&mut through_sink, '7').is_ok());
    assert!(core::fmt::Write::write_str(&mut through_sink, "\n\u{7f}").is_ok());
    let mut direct = blank_writer();
    direct.write_string("sum = 7\n\u{7f}");
    assert_eq!(through_sink.column_position(), 1);
    assert_eq!(row_text(&through_sink, BUFFER_HEIGHT - 2), padded("sum = 7"));
    assert_eq!(through_sink.read(BUFFER_HEIGHT - 1, 0).ascii_char, 0xfe);
    for row in 0..BUFFER_HEIGHT {
        for col in 0..BUFFER_WIDTH {
            assert_eq!(through_sink.read(row, col), direct.read(row, col));
        }
    }
}

#[test]
fn old_rows_leave_at_the_top() {
    let mut first = Writer::new(Buffer::new(cells(0x1f41)));
    let mut second = Writer::new(Buffer::new(cells(0x2a5a)));
    first.write_string("\n");
    second.write_string("\n");
    let text: String = (0..BUFFER_HEIGHT - 1)
        .map(|i| format!("{}{}\n", "wide ".repeat(i), i))
        .collect();
    first.write_string(&text);
    second.write_string(&text);
    assert_eq!(first.column_position(), second.column_position());
    for row in 0..BUFFER_HEIGHT {
        for col in 0..BUFFER_WIDTH {
            assert_eq!(first.read(row, col), second.read(row, col));
        }
    }
}

#[test]
fn one_newline_short_the_top_row_still_differs() {
    let mut first = Writer::new(Buffer::new(cells(0x1f41)));
    let mut second = Writer::new(Buffer::new(cells(0x2a5a)));
    first.write_string("\n");
    second.write_string("\n");
    first.write_string("x");
    second.write_string("x");
    let text = "\n".repeat(BUFFER_HEIGHT - 2);
    first.write_string(&text);
    second.write_string(&text);
    assert_eq!(first.read(0, 0).ascii_char, b'A');
    assert_eq!(second.read(0, 0).ascii_char, b'Z');
    assert_eq!(row_text(&first, 1), padded("x"));
    assert_eq!(row_text(&second, 1), padded("x"));
}
