//! The event subscription and the terminal's state.

use shpool_table::events::{drain, Drain, PipeRead};
use shpool_table::tty::{after_write, clear_screen, AltScreen, Writing, Written};

#[test]
fn drain_reports_activity_then_eof() {
    assert!(matches!(drain(PipeRead::Bytes(1)), Drain::Activity));
    assert!(matches!(drain(PipeRead::Bytes(0)), Drain::Eof));
}

#[test]
fn drain_reports_eof_when_stream_closes_empty() {
    assert!(matches!(drain(PipeRead::Bytes(0)), Drain::Eof));
}

#[test]
fn interrupted_reads_are_no_end() {
    assert_eq!(drain(PipeRead::Interrupted), Drain::Activity);
    assert_eq!(drain(PipeRead::Failed), Drain::Eof);
}

#[test]
fn alt_screen_sequences() {
    let mut out = String::from("|");
    let screen = AltScreen::enter(&mut out);
    assert_eq!(out, "|\x1b[?1049h\x1b[?25l\x1b[?1l\x1b[?7l\x1b[?1004h");
    let mut out = String::new();
    screen.suspend(&mut out);
    assert_eq!(out, "\x1b[?25h\x1b[?7h\x1b[?1004l\x1b[?1049l");
    let mut out = String::new();
    screen.resume(&mut out);
    assert_eq!(out, "\x1b[?1049h\x1b[?25l\x1b[?1l\x1b[?7l\x1b[?1004h");
    let mut out = String::new();
    clear_screen(&mut out);
    assert_eq!(out, "\x1b[2J\x1b[H");
}

#[test]
fn writes_go_on_where_they_stopped() {
    assert_eq!(after_write(5, 0, Written::Bytes(2)), Writing::From(2));
    assert_eq!(after_write(5, 2, Written::Bytes(3)), Writing::Done);
    assert_eq!(after_write(5, 2, Written::Bytes(0)), Writing::From(2));
    assert_eq!(after_write(5, 2, Written::Interrupted), Writing::From(2));
    assert_eq!(after_write(5, 2, Written::Failed), Writing::Failed);
}
