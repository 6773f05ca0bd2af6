use reeos::vga_buffer::{
    clear_screen, decode_color, ScreenChar, get_color, reset_color, set_color, test_write, Color, ColorCode,
    Writer, BUFFER_HEIGHT, BUFFER_WIDTH,
};

fn bottom_row(w: &Writer) -> Vec<u8> {
    (0..BUFFER_WIDTH).map(|c| w.cell(BUFFER_HEIGHT - 1, c).ascii_character).collect()
}

#[test]
fn color_code_packs_background_high_and_foreground_low() {
    assert_eq!(ColorCode::new(Color::White, Color::Black), ColorCode(0x0F));
    assert_eq!(ColorCode::new(Color::Red, Color::Blue), ColorCode(0x14));
    assert_eq!(ColorCode::new(Color::Yellow, Color::White), ColorCode(0xFE));
}

#[test]
fn color_numbers() {
    assert_eq!(Color::Black.number(), 0);
    assert_eq!(Color::Pink.number(), 13);
    assert_eq!(Color::White.number(), 15);
    assert_eq!(Color::from_number(9), Color::LightBlue);
    assert_eq!(Color::from_number(200), Color::White);
}

#[test]
fn set_then_get_color_round_trips() {
    let mut w = Writer::new();
    set_color(&mut w, Color::Cyan, Color::Red);
    assert_eq!(get_color(&w), (Color::Cyan, Color::Red));
    set_color(&mut w, Color::Green, Color::Black);
    assert_eq!(get_color(&w), (Color::Green, Color::Black));
}

#[test]
fn bright_background_reads_back_as_black() {
    let mut w = Writer::new();
    set_color(&mut w, Color::Yellow, Color::LightBlue);
    assert_eq!(get_color(&w), (Color::Yellow, Color::Black));
    assert_eq!(decode_color(ColorCode(0xF3)), (Color::Cyan, Color::Black));
}

#[test]
fn reset_color_is_white_on_black() {
    let mut w = Writer::new();
    set_color(&mut w, Color::Red, Color::Blue);
    reset_color(&mut w);
    assert_eq!(get_color(&w), (Color::White, Color::Black));
    assert_eq!(w.color_code(), ColorCode(0x0F));
}

#[test]
fn new_writer_is_blank() {
    let w = Writer::new();
    assert_eq!(w.column(), 0);
    for r in 0..BUFFER_HEIGHT {
        for c in 0..BUFFER_WIDTH {
            assert_eq!(w.cell(r, c).ascii_character, b' ');
            assert_eq!(w.cell(r, c).color_code, ColorCode(0x0F));
        }
    }
}

#[test]
fn write_byte_goes_to_the_bottom_row() {
    let mut w = Writer::new();
    w.write_byte(b'h');
    w.write_byte(b'i');
    assert_eq!(w.column(), 2);
    assert_eq!(w.cell(24, 0).ascii_character, b'h');
    assert_eq!(w.cell(24, 1).ascii_character, b'i');
    assert_eq!(w.cell(23, 0).ascii_character, b' ');
}

#[test]
fn newline_scrolls_up() {
    let mut w = Writer::new();
    w.write_string("ab\ncd");
    assert_eq!(w.cell(23, 0).ascii_character, b'a');
    assert_eq!(w.cell(23, 1).ascii_character, b'b');
    assert_eq!(w.cell(24, 0).ascii_character, b'c');
    assert_eq!(w.cell(24, 1).ascii_character, b'd');
    assert_eq!(w.column(), 2);
}

#[test]
fn full_row_wraps_to_a_new_line() {
    let mut w = Writer::new();
    for _ in 0..BUFFER_WIDTH {
        w.write_byte(b'x');
    }
    assert_eq!(w.column(), 80);
    w.write_byte(b'y');
    assert_eq!(w.column(), 1);
    assert_eq!(w.cell(23, 79).ascii_character, b'x');
    assert_eq!(w.cell(24, 0).ascii_character, b'y');
    assert_eq!(w.cell(24, 1).ascii_character, b' ');
}

#[test]
fn unprintable_bytes_show_as_blocks() {
    let mut w = Writer::new();
    w.write_string("a\tb\u{e9}");
    let row = bottom_row(&w);
    assert_eq!(&row[..5], &[b'a', 0xfe, b'b', 0xfe, 0xfe]);
    w.write_bytes(&[0x7f, 0x20, 0x7e]);
    assert_eq!(w.cell(24, 5).ascii_character, 0xfe);
    assert_eq!(w.cell(24, 7).ascii_character, 0x7e);
}

#[test]
fn write_byte_does_not_filter() {
    let mut w = Writer::new();
    w.write_byte(0x08);
    assert_eq!(w.cell(24, 0).ascii_character, 0x08);
}

#[test]
fn characters_take_the_current_color() {
    let mut w = Writer::new();
    set_color(&mut w, Color::Red, Color::Black);
    w.write_byte(b'r');
    assert_eq!(w.cell(24, 0).color_code, ColorCode(0x04));
    w.write_byte(b'\n');
    assert_eq!(w.cell(24, 0).color_code, ColorCode(0x04));
    assert_eq!(w.cell(24, 0).ascii_character, b' ');
}

#[test]
fn clear_screen_blanks_everything() {
    let mut w = Writer::new();
    w.write_string("some text\nmore text");
    clear_screen(&mut w);
    assert_eq!(w.column(), 0);
    for r in 0..BUFFER_HEIGHT {
        for c in 0..BUFFER_WIDTH {
            assert_eq!(w.cell(r, c).ascii_character, b' ');
        }
    }
}

#[test]
fn test_write_prints_abc_line() {
    let mut w = Writer::new();
    test_write(&mut w);
    assert_eq!(w.cell(23, 0).ascii_character, b'a');
    assert_eq!(w.cell(23, 1).ascii_character, b'b');
    assert_eq!(w.cell(23, 2).ascii_character, b'c');
    assert_eq!(w.column(), 0);
}

#[test]
fn writer_on_screen_keeps_and_scrolls_boot_text() {
    let mut cells = vec![ScreenChar { ascii_character: b' ', color_code: ColorCode(0x07) }; 2000];
    cells[24 * 80] = ScreenChar { ascii_character: b'B', color_code: ColorCode(0x07) };
    cells[10 * 80 + 3] = ScreenChar { ascii_character: b'I', color_code: ColorCode(0x1F) };
    let mut w = Writer::on_screen(cells);
    assert_eq!(w.column(), 0);
    assert_eq!(w.color_code(), ColorCode(0x0F));
    assert_eq!(w.cell(24, 0).ascii_character, b'B');
    assert_eq!(w.cell(10, 3).color_code, ColorCode(0x1F));
    w.write_byte(b'\n');
    assert_eq!(w.cell(23, 0).ascii_character, b'B');
    assert_eq!(w.cell(9, 3).ascii_character, b'I');
    assert_eq!(w.cell(24, 0).ascii_character, b' ');
}
