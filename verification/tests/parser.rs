//! The input parser.

use shpool_table::tui::keymap::Key;
use shpool_table::tui::parser::{decode_byte, Input, InputParser};

fn decode(bytes: &[u8]) -> Vec<Input> {
    let mut p = InputParser::new();
    let mut out = vec![];
    p.feed(bytes, &mut out);
    out
}

/// Shortcut for tests that only care about the Key stream,
/// filtering out any focus events.
fn decode_keys(bytes: &[u8]) -> Vec<Key> {
    decode(bytes)
        .into_iter()
        .filter_map(|i| match i {
            Input::Key(k) => Some(k),
            _ => None,
        })
        .collect()
}

#[test]
fn parser_parser_up_arrow() {
    assert_eq!(decode_keys(&[0x1b, b'[', b'A']), vec![Key::Up]);
}

#[test]
fn parser_parser_down_arrow() {
    assert_eq!(decode_keys(&[0x1b, b'[', b'B']), vec![Key::Down]);
}

#[test]
fn parser_plain_bytes_decode_to_chars_and_enter() {
    assert_eq!(
        decode_keys(b"q\rj"),
        vec![Key::Char(b'q'), Key::Enter, Key::Char(b'j')],
    );
}

#[test]
fn parser_parser_unterminated_esc_is_bare() {
    assert_eq!(decode_keys(&[0x1b]), vec![Key::Esc]);
}

#[test]
fn parser_parser_esc_plus_non_bracket_emits_both() {
    // ESC followed by a non-bracket byte in the same buffer:
    // bare Esc plus the decoded following byte. Lets ESC+q still
    // fire the Quit binding (via the Char(b'q') that follows).
    assert_eq!(decode_keys(&[0x1b, b'q']), vec![Key::Esc, Key::Char(b'q')]);
}

#[test]
fn parser_parser_csi_split_across_feeds() {
    let mut p = InputParser::new();
    let mut out = vec![];
    p.feed(&[0x1b, b'['], &mut out);
    assert!(out.is_empty());
    p.feed(&[b'B'], &mut out);
    assert_eq!(out, vec![Input::Key(Key::Down)]);
}

#[test]
fn parser_parser_csi_consumes_params() {
    // CSI with a parameter byte before the final (e.g., F5 sends
    // ESC [ 15 ~). We don't bind function keys, so the final `~`
    // decodes to Key::Other.
    assert_eq!(decode_keys(b"\x1b[15~"), vec![Key::Other]);
}

#[test]
fn parser_parser_stream_of_arrows_and_enter() {
    assert_eq!(
        decode_keys(&[0x1b, b'[', b'B', 0x1b, b'[', b'B', b'\r']),
        vec![Key::Down, Key::Down, Key::Enter],
    );
}

#[test]
fn parser_focus_gained() {
    assert_eq!(decode(b"\x1b[I"), vec![Input::FocusGained]);
}

#[test]
fn parser_focus_lost_is_dropped() {
    // ESC [ O is focus-out. We don't need to react — no event
    // emitted at all.
    assert_eq!(decode(b"\x1b[O"), vec![]);
}

#[test]
fn parser_focus_then_keystroke() {
    // Focus report arriving alongside input: both decode and
    // survive in order.
    assert_eq!(
        decode(b"\x1b[Ij"),
        vec![Input::FocusGained, Input::Key(Key::Char(b'j'))],
    );
}

#[test]
fn decode_byte_covers_named_controls() {
    assert_eq!(decode_byte(0x08), Key::Backspace);
    assert_eq!(decode_byte(0x7f), Key::Backspace);
    assert_eq!(decode_byte(0x09), Key::Tab);
    assert_eq!(decode_byte(0x0a), Key::Enter);
    assert_eq!(decode_byte(0x0d), Key::Enter);
    assert_eq!(decode_byte(b' '), Key::Char(b' '));
    assert_eq!(decode_byte(b'a'), Key::Char(b'a'));
    assert_eq!(decode_byte(0x03), Key::Ctrl(0x03)); // Ctrl-C
    // 0xff is non-ASCII — out of any of our recognized ranges.
    assert_eq!(decode_byte(0xff), Key::Other);
}

#[test]
fn decode_byte_keeps_unmapped_controls() {
    assert_eq!(decode_byte(0x00), Key::Ctrl(0x00));
    assert_eq!(decode_byte(0x1c), Key::Ctrl(0x1c));
    assert_eq!(decode_byte(0x1f), Key::Ctrl(0x1f));
    assert_eq!(decode_byte(0x1a), Key::Ctrl(0x1a));
    assert_eq!(decode_byte(0x7e), Key::Char(0x7e));
    assert_eq!(decode_byte(0x80), Key::Other);
    assert_eq!(
        decode_keys(&[0x00, 0x1c]),
        vec![Key::Ctrl(0x00), Key::Ctrl(0x1c)]
    );
}

#[test]
fn default_parser_is_a_new_one() {
    let mut p = InputParser::default();
    let mut out = vec![];
    p.feed(b"a\x1b[A", &mut out);
    assert_eq!(out, decode(b"a\x1b[A"));
    assert_eq!(out, vec![Input::Key(Key::Char(b'a')), Input::Key(Key::Up)]);
}
