use reeos::keyboard::{
    keep_draining, DRAIN_ROUNDS,
    is_key_release, key_available, scancode_to_ascii, LineInput, LINE_CAPACITY, SCANCODE_BACKSPACE,
    SCANCODE_ENTER, SCANCODE_SPACE,
};
use reeos::vga_buffer::Writer;

#[test]
fn scancodes_map_to_characters() {
    assert_eq!(scancode_to_ascii(0x02), Some('1'));
    assert_eq!(scancode_to_ascii(0x0B), Some('0'));
    assert_eq!(scancode_to_ascii(0x10), Some('q'));
    assert_eq!(scancode_to_ascii(0x32), Some('m'));
    assert_eq!(scancode_to_ascii(0x28), Some('\''));
    assert_eq!(scancode_to_ascii(0x35), Some('/'));
    assert_eq!(scancode_to_ascii(0x39), None);
    assert_eq!(scancode_to_ascii(0x1C), None);
    assert_eq!(scancode_to_ascii(0xFF), None);
}

#[test]
fn releases_and_status() {
    assert!(is_key_release(0x9C));
    assert!(!is_key_release(0x1C));
    assert!(key_available(0x1D));
    assert!(!key_available(0x1C));
}

#[test]
fn quiet_line_collects_keys_until_enter() {
    let mut line = LineInput::new();
    // h, i, release of i, space (ignored here), Enter
    assert!(!line.feed_quiet(0x23));
    assert!(!line.feed_quiet(0x17));
    assert!(!line.feed_quiet(0x97));
    assert!(!line.feed_quiet(SCANCODE_SPACE));
    assert!(line.feed_quiet(SCANCODE_ENTER));
    assert_eq!(line.pos(), 2);
    assert_eq!(&line.bytes()[..3], b"hi\0");
    let mut w = Writer::new();
    line.echo_quiet_line(&mut w);
    assert_eq!(w.cell(23, 0).ascii_character, b'h');
    assert_eq!(w.cell(23, 1).ascii_character, b'i');
    assert_eq!(w.column(), 0);
}

#[test]
fn backspace_keeps_the_old_byte() {
    let mut line = LineInput::new();
    line.feed_quiet(0x1E); // a
    line.feed_quiet(0x30); // b
    line.feed_quiet(SCANCODE_BACKSPACE);
    assert_eq!(line.pos(), 1);
    assert_eq!(&line.bytes()[..2], b"ab");
    line.feed_quiet(SCANCODE_BACKSPACE);
    line.feed_quiet(SCANCODE_BACKSPACE);
    assert_eq!(line.pos(), 0);
}

#[test]
fn line_stops_at_255_characters() {
    let mut line = LineInput::new();
    for _ in 0..300 {
        line.feed_quiet(0x1E);
    }
    assert_eq!(line.pos(), LINE_CAPACITY - 1);
    assert_eq!(line.bytes()[LINE_CAPACITY - 1], 0);
    assert_eq!(line.bytes().len(), LINE_CAPACITY);
}

#[test]
fn echo_line_echoes_keys() {
    let mut line = LineInput::new();
    let mut w = Writer::new();
    assert!(!line.feed_echo(&mut w, 0x1E)); // a
    assert!(!line.feed_echo(&mut w, SCANCODE_SPACE));
    assert!(!line.feed_echo(&mut w, 0x30)); // b
    assert_eq!(&line.bytes()[..3], b"a b");
    assert_eq!(w.cell(24, 0).ascii_character, b'a');
    assert_eq!(w.cell(24, 1).ascii_character, b' ');
    assert_eq!(w.cell(24, 2).ascii_character, b'b');
    assert!(!line.feed_echo(&mut w, SCANCODE_BACKSPACE));
    assert_eq!(line.pos(), 2);
    // backspace, space, backspace written as characters
    assert_eq!(w.cell(24, 3).ascii_character, 0x08);
    assert_eq!(w.cell(24, 4).ascii_character, b' ');
    assert_eq!(w.cell(24, 5).ascii_character, 0x08);
    assert!(line.feed_echo(&mut w, SCANCODE_ENTER));
    assert_eq!(w.column(), 0);
}

#[test]
fn echo_backspace_at_start_echoes_nothing() {
    let mut line = LineInput::new();
    let mut w = Writer::new();
    assert!(!line.feed_echo(&mut w, SCANCODE_BACKSPACE));
    assert_eq!(w.column(), 0);
    assert!(!line.feed_echo(&mut w, 0x01));
    assert_eq!(w.column(), 0);
}

#[test]
fn scancode_table_is_one_to_one() {
    let mut seen = Vec::new();
    for code in 0..=255u8 {
        if let Some(ch) = scancode_to_ascii(code) {
            assert!(code < 0x80);
            assert!(ch.is_ascii_lowercase() || ch.is_ascii_digit() || "-=/.'".contains(ch));
            assert!(!seen.contains(&ch));
            seen.push(ch);
        }
    }
    assert_eq!(seen.len(), 41);
}

#[test]
fn draining_stops_when_empty_or_after_enough_rounds() {
    assert!(keep_draining(0, 0x01));
    assert!(!keep_draining(0, 0x00));
    assert!(!keep_draining(DRAIN_ROUNDS, 0x01));
    assert!(keep_draining(DRAIN_ROUNDS - 1, 0x03));
}
