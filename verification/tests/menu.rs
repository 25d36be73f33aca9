//! The plain session menu.

use shpool_table::menu::{
    process_input, render, token_to_key, InputParser, Key, LoopAction, Mode, Model, Token,
};
use shpool_table::session::Session;
use shpool_table::table::viewport;

fn mk(name: &str) -> Session {
    Session {
        name: name.to_string(),
        attached: false,
        started_at_unix_ms: 0,
        last_connected_at_unix_ms: 0,
        last_disconnected_at_unix_ms: None,
        attachments: Vec::new(),
    }
}

// -- Model tests --

#[test]
fn tui_select_next_wraps() {
    let mut m = Model::new(vec![mk("a"), mk("b"), mk("c")]);
    assert_eq!(m.selected, 0);
    m.select_next();
    assert_eq!(m.selected, 1);
    m.select_next();
    assert_eq!(m.selected, 2);
    m.select_next();
    assert_eq!(m.selected, 0);
}

#[test]
fn tui_select_prev_wraps() {
    let mut m = Model::new(vec![mk("a"), mk("b"), mk("c")]);
    m.select_prev();
    assert_eq!(m.selected, 2);
    m.select_prev();
    assert_eq!(m.selected, 1);
}

#[test]
fn empty_model_is_noop() {
    let mut m = Model::new(vec![]);
    m.select_next();
    m.select_prev();
    assert_eq!(m.selected, 0);
    assert_eq!(m.selected_name(), None);
}

#[test]
fn empty_list_leaves_any_cursor_alone() {
    let mut m = Model::new(vec![]);
    m.selected = usize::MAX;
    m.select_next();
    assert_eq!(m.selected, usize::MAX);
    let mut p = InputParser::default();
    assert_eq!(process_input(b"jkj", &mut m, &mut p), None);
    assert_eq!(m.selected, usize::MAX);
}

#[test]
fn rows_down_go_round() {
    for start in 0..4usize {
        for k in 0..10usize {
            let mut m = Model::new(vec![mk("a"), mk("b"), mk("c"), mk("d")]);
            m.selected = start;
            for _ in 0..k {
                m.select_next();
            }
            assert_eq!(m.selected, (start + k) % 4);
        }
    }
}

// -- Parser tests --

fn tokenize(bytes: &[u8]) -> Vec<Token> {
    let mut p = InputParser::new();
    let mut out = vec![];
    p.feed(bytes, &mut out);
    out
}

#[test]
fn tui_parser_up_arrow() {
    assert_eq!(tokenize(&[0x1b, b'[', b'A']), vec![Token::Csi(b'A')]);
}

#[test]
fn tui_parser_down_arrow() {
    assert_eq!(tokenize(&[0x1b, b'[', b'B']), vec![Token::Csi(b'B')]);
}

#[test]
fn parser_plain_bytes_are_byte_tokens() {
    assert_eq!(
        tokenize(b"q\rj"),
        vec![Token::Byte(b'q'), Token::Byte(b'\r'), Token::Byte(b'j')],
    );
}

#[test]
fn tui_parser_unterminated_esc_is_bare() {
    assert_eq!(tokenize(&[0x1b]), vec![Token::BareEsc]);
}

#[test]
fn tui_parser_esc_plus_non_bracket_emits_both() {
    // ESC followed by a non-bracket byte in the same buffer:
    // bare Escape plus the following byte. Lets ESC+q still quit.
    assert_eq!(tokenize(&[0x1b, b'q']), vec![Token::BareEsc, Token::Byte(b'q')]);
}

#[test]
fn tui_parser_csi_split_across_feeds() {
    let mut p = InputParser::new();
    let mut out = vec![];
    p.feed(&[0x1b, b'['], &mut out);
    assert!(out.is_empty());
    p.feed(&[b'B'], &mut out);
    assert_eq!(out, vec![Token::Csi(b'B')]);
}

#[test]
fn tui_parser_csi_consumes_params() {
    // CSI with a parameter byte before the final (e.g., F5).
    assert_eq!(tokenize(b"\x1b[15~"), vec![Token::Csi(b'~')]);
}

#[test]
fn tui_parser_stream_of_arrows_and_enter() {
    assert_eq!(
        tokenize(&[0x1b, b'[', b'B', 0x1b, b'[', b'B', b'\r']),
        vec![Token::Csi(b'B'), Token::Csi(b'B'), Token::Byte(b'\r')],
    );
}

#[test]
fn token_to_key_maps_bindings() {
    assert_eq!(token_to_key(Token::Csi(b'A')), Key::Up);
    assert_eq!(token_to_key(Token::Csi(b'B')), Key::Down);
    assert_eq!(token_to_key(Token::Byte(b'q')), Key::Quit);
    assert_eq!(token_to_key(Token::Byte(b'Q')), Key::Quit); // case fold
    assert_eq!(token_to_key(Token::Byte(b'n')), Key::NewSession);
    assert_eq!(token_to_key(Token::Byte(b'j')), Key::Down);
    assert_eq!(token_to_key(Token::BareEsc), Key::Other);
    assert_eq!(token_to_key(Token::Csi(b'Z')), Key::Other);
}

// -- process_input: normal mode --

#[test]
fn process_input_navigate_and_attach() {
    let mut m = Model::new(vec![mk("a"), mk("b"), mk("c")]);
    let mut p = InputParser::new();
    let input = [0x1b, b'[', b'B', 0x1b, b'[', b'B', b'\r'];
    assert_eq!(process_input(&input, &mut m, &mut p), Some(LoopAction::Attach("c".into())));
}

#[test]
fn process_input_up_wraps_and_attach() {
    let mut m = Model::new(vec![mk("x"), mk("y"), mk("z")]);
    let mut p = InputParser::new();
    let input = [0x1b, b'[', b'A', b'\r'];
    assert_eq!(process_input(&input, &mut m, &mut p), Some(LoopAction::Attach("z".into())));
}

#[test]
fn process_input_quit() {
    let mut m = Model::new(vec![mk("a")]);
    let mut p = InputParser::new();
    assert_eq!(process_input(b"q", &mut m, &mut p), Some(LoopAction::Quit));
}

#[test]
fn process_input_ctrl_c() {
    let mut m = Model::new(vec![mk("a")]);
    let mut p = InputParser::new();
    assert_eq!(process_input(&[0x03], &mut m, &mut p), Some(LoopAction::Quit));
}

#[test]
fn process_input_enter_empty_list() {
    let mut m = Model::new(vec![]);
    let mut p = InputParser::new();
    assert_eq!(process_input(b"\r", &mut m, &mut p), None);
}

#[test]
fn process_input_clears_error() {
    let mut m = Model::new(vec![mk("a")]);
    let mut p = InputParser::new();
    m.set_error("session 'a' is gone");
    assert!(m.error.is_some());
    process_input(b"j", &mut m, &mut p);
    assert!(m.error.is_none());
}

#[test]
fn process_input_ignores_other_keys() {
    let mut m = Model::new(vec![mk("a")]);
    let mut p = InputParser::new();
    assert_eq!(process_input(b"xyz", &mut m, &mut p), None);
}

// -- process_input: create mode --

#[test]
fn process_input_create_flow() {
    let mut m = Model::new(vec![mk("a")]);
    let mut p = InputParser::new();
    assert_eq!(process_input(b"n", &mut m, &mut p), None);
    assert_eq!(m.mode, Mode::CreateInput(String::new()));
    assert_eq!(
        process_input(b"foo\r", &mut m, &mut p),
        Some(LoopAction::Create("foo".into()))
    );
    assert_eq!(m.mode, Mode::Normal);
}

#[test]
fn process_input_create_cancel() {
    let mut m = Model::new(vec![mk("a")]);
    let mut p = InputParser::new();
    assert_eq!(process_input(b"n", &mut m, &mut p), None);
    assert_eq!(process_input(b"bar\x1b", &mut m, &mut p), None);
    assert_eq!(m.mode, Mode::Normal);
}

#[test]
fn process_input_create_backspace() {
    let mut m = Model::new(vec![mk("a")]);
    let mut p = InputParser::new();
    assert_eq!(process_input(b"n", &mut m, &mut p), None);
    assert_eq!(
        process_input(b"ab\x7fc\r", &mut m, &mut p),
        Some(LoopAction::Create("ac".into()))
    );
}

#[test]
fn process_input_create_reject_empty() {
    let mut m = Model::new(vec![mk("a")]);
    let mut p = InputParser::new();
    assert_eq!(process_input(b"n", &mut m, &mut p), None);
    assert_eq!(process_input(b"\r", &mut m, &mut p), None);
    assert_eq!(m.mode, Mode::CreateInput(String::new()));
}

#[test]
fn process_input_create_rejects_spaces() {
    let mut m = Model::new(vec![mk("a")]);
    let mut p = InputParser::new();
    assert_eq!(process_input(b"n", &mut m, &mut p), None);
    assert_eq!(
        process_input(b"a b\r", &mut m, &mut p),
        Some(LoopAction::Create("ab".into()))
    );
}

// -- process_input: kill mode --

#[test]
fn process_input_kill_confirm() {
    let mut m = Model::new(vec![mk("a"), mk("b")]);
    let mut p = InputParser::new();
    assert_eq!(process_input(b"d", &mut m, &mut p), None);
    assert_eq!(m.mode, Mode::ConfirmKill("a".into()));
    assert_eq!(process_input(b"y", &mut m, &mut p), Some(LoopAction::Kill("a".into())));
    assert_eq!(m.mode, Mode::Normal);
}

#[test]
fn process_input_kill_cancel() {
    let mut m = Model::new(vec![mk("a")]);
    let mut p = InputParser::new();
    assert_eq!(process_input(b"d", &mut m, &mut p), None);
    assert_eq!(process_input(b"x", &mut m, &mut p), None);
    assert_eq!(m.mode, Mode::Normal);
}

#[test]
fn process_input_kill_empty_list() {
    let mut m = Model::new(vec![]);
    let mut p = InputParser::new();
    assert_eq!(process_input(b"d", &mut m, &mut p), None);
    assert_eq!(m.mode, Mode::Normal);
}

#[test]
fn process_input_vim_navigate_and_attach() {
    let mut m = Model::new(vec![mk("a"), mk("b"), mk("c")]);
    let mut p = InputParser::new();
    assert_eq!(process_input(b"jj\r", &mut m, &mut p), Some(LoopAction::Attach("c".into())));
}

// -- Viewport --

#[test]
fn tui_viewport_fits() {
    assert_eq!(viewport(3, 0, 10), (0, 3));
}

#[test]
fn tui_viewport_scrolls_down() {
    assert_eq!(viewport(20, 15, 5), (13, 18));
}

#[test]
fn tui_viewport_clamps_to_end() {
    assert_eq!(viewport(20, 19, 5), (15, 20));
}

#[test]
fn tui_viewport_centers_selected() {
    assert_eq!(viewport(20, 10, 5), (8, 13));
}

// -- More of the menu --

fn at(name: &str, touched: u64) -> Session {
    Session {
        last_connected_at_unix_ms: touched,
        ..mk(name)
    }
}

#[test]
fn menu_refresh_follows_the_name_or_clamps() {
    let mut m = Model::new(vec![at("a", 3), at("b", 2), at("c", 1)]);
    m.selected = 2;
    m.refresh(vec![at("a", 1), at("b", 2), at("c", 3)]);
    assert_eq!(m.selected, 0);
    assert_eq!(m.selected_name(), Some("c"));
    m.selected = 2;
    m.refresh(vec![at("x", 1), at("y", 2)]);
    assert_eq!(m.selected, 1);
    assert_eq!(m.selected_name(), Some("x"));
    m.refresh(vec![]);
    assert_eq!(m.selected, 0);
}

#[test]
fn menu_next_and_prev_undo_each_other() {
    let mut m = Model::new(vec![mk("a"), mk("b")]);
    m.select_next();
    m.select_prev();
    assert_eq!(m.selected, 0);
    m.select_prev();
    m.select_next();
    assert_eq!(m.selected, 0);
}

#[test]
fn menu_split_reads_make_the_same_tokens() {
    let mut p = InputParser::new();
    let mut out = vec![];
    p.feed(b"a\x1b[1", &mut out);
    p.feed(b"5~b", &mut out);
    assert_eq!(out, tokenize(b"a\x1b[15~b"));
}

#[test]
fn menu_frame() {
    let mut m = Model::new(vec![mk("a"), mk("b")]);
    m.selected = 1;
    let mut out = String::from("|");
    render(&m, 30, 10, 0, &mut out);
    assert!(out.starts_with("|\x1b[2J\x1b[H"));
    assert!(out.contains("  a     now      now          \r\n"));
    assert!(out.contains("\x1b[7m >b     now      now          \x1b[0m\r\n"));
    assert!(out.contains("quit") || out.contains("spc"));
    m.mode = Mode::ConfirmKill("b".into());
    let mut out = String::new();
    render(&m, 60, 10, 0, &mut out);
    assert!(out.contains("\"b\""));
    m.set_error("boom");
    let mut out = String::new();
    render(&m, 60, 10, 0, &mut out);
    assert!(out.contains("boom") && !out.contains("\"b\""));
}
