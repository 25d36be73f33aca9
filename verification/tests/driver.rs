//! The executor and the main loop.

use shpool_table::driver::{Driver, Report, Stage, Then, EVENTS_LOST};
use shpool_table::events::Drain;
use shpool_table::executor::{execute, resume, run_cascade, Reply, Task};
use shpool_table::session::Session;
use shpool_table::shell::{SessionListing, VarListing};
use shpool_table::tui::command::Command;
use shpool_table::tui::event::Event;
use shpool_table::tui::keymap::Key;
use shpool_table::tui::model::{Mode, Model};

fn session(name: &str, attached: bool) -> Session {
    Session {
        name: name.to_string(),
        attached,
        started_at_unix_ms: 0,
        last_connected_at_unix_ms: 0,
        last_disconnected_at_unix_ms: None,
        attachments: Vec::new(),
    }
}

fn listed(sessions: Vec<Session>) -> Reply {
    Reply::Sessions(SessionListing::Listed(sessions))
}

fn printed(stdout: &str) -> Reply {
    Reply::Vars(VarListing::Printed {
        stdout: stdout.as_bytes().to_vec(),
    })
}

fn ran(ok: bool, stderr: &str) -> Reply {
    Reply::Ran {
        ok,
        stderr: stderr.as_bytes().to_vec(),
    }
}

// -- The executor --

#[test]
fn quit_is_done_at_once() {
    let mut m = Model::new(vec![]);
    assert!(execute(Command::Quit, &mut m).is_none());
    assert!(m.quit);
}

#[test]
fn refresh_lists_and_ensure_daemon_daemonizes() {
    let mut m = Model::new(vec![]);
    assert!(matches!(
        execute(Command::Refresh, &mut m),
        Some(Task::List { daemonize: false })
    ));
    assert!(matches!(
        execute(Command::EnsureDaemon, &mut m),
        Some(Task::List { daemonize: true })
    ));
}

#[test]
fn attach_is_preflighted_and_followed_by_a_list() {
    let mut m = Model::new(vec![session("a", false)]);
    m.events_active = true;
    let task = run_cascade(&mut m, Event::Key(Key::Enter)).unwrap();
    assert!(matches!(&task, Task::Preflight { name, force: false } if name == "a"));
    let task = resume(&mut m, task, listed(vec![session("a", false)])).unwrap();
    assert!(matches!(&task, Task::Attach { name, force: false } if name == "a"));
    assert!(!m.events_active, "no subscription while attached");
    let task = resume(&mut m, task, Reply::Attached { ok: true }).unwrap();
    assert!(matches!(task, Task::List { daemonize: false }));
    assert!(resume(&mut m, task, listed(vec![session("a", false), session("b", false)])).is_none());
    assert_eq!(m.sessions.len(), 2);
}

#[test]
fn preflight_finds_the_session_gone() {
    let mut m = Model::new(vec![session("a", false), session("b", false)]);
    let task = run_cascade(&mut m, Event::Key(Key::Enter)).unwrap();
    assert!(resume(&mut m, task, listed(vec![session("b", false)])).is_none());
    assert_eq!(m.error.as_deref(), Some("session 'a' is gone"));
    assert!(m.is_stale());
}

#[test]
fn preflight_asks_before_taking_over() {
    let mut m = Model::new(vec![session("a", false)]);
    let task = run_cascade(&mut m, Event::Key(Key::Enter)).unwrap();
    assert!(resume(&mut m, task, listed(vec![session("a", true)])).is_none());
    assert_eq!(m.mode, Mode::ConfirmForce("a".into()));
    let task = run_cascade(&mut m, Event::Key(Key::Char(b'y'))).unwrap();
    assert!(matches!(&task, Task::Preflight { force: true, .. }));
    let task = resume(&mut m, task, listed(vec![session("a", true)])).unwrap();
    assert!(matches!(&task, Task::Attach { name, force: true } if name == "a"));
}

#[test]
fn failed_lists_are_said() {
    let mut m = Model::new(vec![session("a", false)]);
    let task = run_cascade(&mut m, Event::FocusGained).unwrap();
    let reply = Reply::Sessions(SessionListing::Failed {
        stderr: b"down\n".to_vec(),
    });
    assert!(resume(&mut m, task, reply).is_none());
    assert_eq!(
        m.error.as_deref(),
        Some("shpool list: `shpool list --json` failed: down")
    );
    let task = run_cascade(&mut m, Event::Key(Key::Enter)).unwrap();
    assert!(resume(&mut m, task, Reply::Sessions(SessionListing::NotRun)).is_none());
    assert_eq!(
        m.error.as_deref(),
        Some("shpool list: running `shpool list --json`")
    );
}

#[test]
fn create_asks_for_unknown_variables_and_sets_them_first() {
    let mut m = Model::new(vec![]);
    m.mode = Mode::CreateInput("{a}-{b}-{c}".into());
    let task = run_cascade(&mut m, Event::Key(Key::Enter)).unwrap();
    assert!(matches!(&task, Task::DetectVars { name } if name == "{a}-{b}-{c}"));
    assert!(resume(&mut m, task, printed("b\tbee\n")).is_none());
    let Mode::CreateVarPrompt(vp) = &m.mode else {
        panic!("expected the prompt");
    };
    assert_eq!(vp.vars, ["a", "c"]);
    assert_eq!(vp.set_vars, [("b".to_string(), "bee".to_string())]);
    run_cascade(&mut m, Event::Key(Key::Char(b'x')));
    run_cascade(&mut m, Event::Key(Key::Enter));
    run_cascade(&mut m, Event::Key(Key::Char(b'y')));
    let task = run_cascade(&mut m, Event::Key(Key::Enter)).unwrap();
    assert!(matches!(&task, Task::SetVars { at: 0, .. }));
    let task = resume(&mut m, task, ran(true, "")).unwrap();
    assert!(matches!(&task, Task::SetVars { at: 1, .. }));
    let task = resume(&mut m, task, ran(true, "")).unwrap();
    assert!(matches!(&task, Task::Attach { name, force: false } if name == "{a}-{b}-{c}"));
}

#[test]
fn create_goes_ahead_when_all_variables_are_set() {
    let mut m = Model::new(vec![]);
    let task = execute(Command::Create("{a}-x".into()), &mut m).unwrap();
    let task = resume(&mut m, task, printed("a\t\n")).unwrap();
    assert!(matches!(task, Task::Attach { .. }));
}

#[test]
fn create_is_given_up_without_the_variables() {
    let mut m = Model::new(vec![]);
    let task = execute(Command::Create("x".into()), &mut m).unwrap();
    assert!(resume(&mut m, task, Reply::Vars(VarListing::NotRun)).is_none());
    assert_eq!(
        m.error.as_deref(),
        Some("shpool var list: running `shpool var list`")
    );
    let pairs = vec![("a".to_string(), "1".to_string())];
    let cmd = Command::CreateWithVars {
        name: "{a}".into(),
        set_vars: pairs,
    };
    let task = execute(cmd, &mut m).unwrap();
    assert!(resume(&mut m, task, ran(false, "no\n")).is_none());
    assert_eq!(m.error.as_deref(), Some("var set a: no"));
}

#[test]
fn create_with_no_values_attaches_right_away() {
    let mut m = Model::new(vec![]);
    let cmd = Command::CreateWithVars {
        name: "{a}".into(),
        set_vars: vec![],
    };
    assert!(matches!(execute(cmd, &mut m), Some(Task::Attach { .. })));
}

#[test]
fn kill_reports_and_lists() {
    let mut m = Model::new(vec![session("a", false)]);
    let task = execute(Command::Kill("a".into()), &mut m).unwrap();
    let task = resume(&mut m, task, ran(false, "not found")).unwrap();
    assert!(matches!(task, Task::List { daemonize: false }));
    assert_eq!(m.error.as_deref(), Some("kill a: not found"));
}

#[test]
fn variables_are_fetched_set_and_fetched_again() {
    let mut m = Model::new(vec![session("a", false)]);
    let task = run_cascade(&mut m, Event::Key(Key::Char(b'v'))).unwrap();
    assert!(matches!(task, Task::FetchVars));
    assert!(resume(&mut m, task, printed("w\told\n")).is_none());
    run_cascade(&mut m, Event::Key(Key::Char(b'e')));
    run_cascade(&mut m, Event::Key(Key::Char(b'n')));
    let task = run_cascade(&mut m, Event::Key(Key::Enter)).unwrap();
    assert!(matches!(&task, Task::SetVar { name, value } if name == "w" && value == "n"));
    let task = resume(&mut m, task, ran(true, "")).unwrap();
    assert!(matches!(&task, Task::RefetchVars { name } if name == "w"));
    let task = resume(&mut m, task, printed("w\tn\n")).unwrap();
    assert!(matches!(task, Task::List { daemonize: false }));
    let Mode::Vars(vs) = &m.mode else {
        panic!("expected the variables");
    };
    assert_eq!(vs.vars[0].value, "n");
}

#[test]
fn variables_that_cannot_be_had_or_set() {
    let mut m = Model::new(vec![]);
    let task = execute(Command::FetchVars, &mut m).unwrap();
    assert!(resume(&mut m, task, Reply::Vars(VarListing::NotRun)).is_none());
    assert_eq!(
        m.error.as_deref(),
        Some("shpool var list: running `shpool var list`")
    );
    let cmd = Command::SetVar {
        name: "w".into(),
        value: "n".into(),
    };
    let task = execute(cmd, &mut m).unwrap();
    assert!(resume(&mut m, task, ran(false, "")).is_none());
    assert_eq!(m.error.as_deref(), Some("var set w failed"));
}

// -- The main loop --

/// A loop that has listed `sessions` and waits.
fn waiting(subscribed: bool, sessions: Vec<Session>) -> Driver {
    let mut d = Driver::new();
    assert!(matches!(d.stage, Stage::Subscribing { first: true }));
    d.advance(Report::Subscribed(subscribed));
    assert!(matches!(
        d.stage,
        Stage::Performing {
            task: Task::List { daemonize: false },
            then: Then::Draw
        }
    ));
    d.advance(Report::Replied(listed(sessions)));
    assert!(matches!(d.stage, Stage::Drawing));
    d.advance(Report::Drawn);
    assert!(matches!(d.stage, Stage::Waiting));
    d
}

#[test]
fn loop_starts_with_a_subscription_and_a_list() {
    let d = waiting(true, vec![session("a", false)]);
    assert!(d.model.events_active);
    assert_eq!(d.model.sessions.len(), 1);
    let d = waiting(false, vec![]);
    assert!(!d.model.events_active);
}

#[test]
fn timeout_and_signals_draw_again() {
    let mut d = waiting(true, vec![]);
    d.advance(Report::Woken {
        stdin: false,
        events: false,
    });
    assert!(matches!(d.stage, Stage::Drawing));
    d.advance(Report::Drawn);
    d.advance(Report::Interrupted);
    assert!(matches!(d.stage, Stage::Drawing));
}

#[test]
fn events_are_read_before_input() {
    let mut d = waiting(true, vec![session("a", false)]);
    d.advance(Report::Woken {
        stdin: true,
        events: true,
    });
    assert!(matches!(d.stage, Stage::Draining { stdin: true }));
    d.advance(Report::Drained(Drain::Activity));
    assert!(matches!(d.stage, Stage::Performing { .. }));
    d.advance(Report::Replied(listed(vec![session("a", true)])));
    assert!(matches!(d.stage, Stage::Reading));
    assert!(d.model.sessions[0].attached);
    assert!(d.model.error.is_none());
}

#[test]
fn lost_subscription_is_said_and_made_again_on_input_only() {
    let mut d = waiting(true, vec![session("a", false)]);
    d.advance(Report::Woken {
        stdin: false,
        events: true,
    });
    d.advance(Report::Drained(Drain::Eof));
    d.advance(Report::Replied(listed(vec![session("a", false)])));
    assert!(matches!(d.stage, Stage::Drawing));
    assert_eq!(d.model.error.as_deref(), Some(EVENTS_LOST));
    assert!(!d.model.events_active);
    d.advance(Report::Drawn);
    d.advance(Report::Woken {
        stdin: true,
        events: false,
    });
    assert!(matches!(d.stage, Stage::Reading));
    d.advance(Report::Read(b"j".to_vec()));
    assert!(matches!(d.stage, Stage::Performing { .. }));
    d.advance(Report::Replied(listed(vec![session("a", false)])));
    assert!(matches!(d.stage, Stage::Subscribing { first: false }));
    d.advance(Report::Subscribed(true));
    assert!(matches!(d.stage, Stage::Drawing));
    assert!(d.model.events_active);
}

#[test]
fn specific_errors_outrank_the_notice() {
    let mut d = waiting(true, vec![]);
    d.advance(Report::Woken {
        stdin: false,
        events: true,
    });
    d.advance(Report::Drained(Drain::Eof));
    d.advance(Report::Replied(Reply::Sessions(SessionListing::NotRun)));
    assert_eq!(
        d.model.error.as_deref(),
        Some("shpool list: running `shpool list --json`")
    );
}

#[test]
fn each_input_of_a_read_has_its_own_cascade() {
    let mut d = waiting(false, vec![session("a", false), session("b", false)]);
    d.advance(Report::Woken {
        stdin: true,
        events: false,
    });
    d.advance(Report::Read(b"j\r".to_vec()));
    assert!(matches!(
        &d.stage,
        Stage::Performing {
            task: Task::List { .. },
            then: Then::Inputs { .. }
        }
    ));
    d.advance(Report::Replied(listed(vec![
        session("a", false),
        session("b", false),
    ])));
    assert!(matches!(
        &d.stage,
        Stage::Performing { task: Task::Preflight { name, .. }, .. } if name == "b"
    ));
}

#[test]
fn quitting_drops_the_rest_of_the_input() {
    let mut d = waiting(true, vec![session("a", false)]);
    d.advance(Report::Woken {
        stdin: true,
        events: false,
    });
    d.advance(Report::Read(b"qn".to_vec()));
    assert!(matches!(d.stage, Stage::Drawing));
    assert!(d.model.quit);
    assert_eq!(d.model.mode, Mode::Normal);
    d.advance(Report::Drawn);
    assert!(matches!(d.stage, Stage::Stopped));
}

#[test]
fn end_of_input_stops() {
    let mut d = waiting(false, vec![]);
    d.advance(Report::Woken {
        stdin: true,
        events: false,
    });
    d.advance(Report::Read(Vec::new()));
    assert!(matches!(d.stage, Stage::Drawing));
    d.advance(Report::Drawn);
    assert!(matches!(d.stage, Stage::Stopped));
}

#[test]
fn interrupted_reads_draw_again() {
    let mut d = waiting(false, vec![]);
    d.advance(Report::Woken {
        stdin: true,
        events: false,
    });
    d.advance(Report::Interrupted);
    assert!(matches!(d.stage, Stage::Drawing));
}

#[test]
fn flag_mirrors_the_subscription() {
    // An attach gives the subscription up, and coming back makes a new one.
    let mut d = waiting(true, vec![session("a", false)]);
    d.advance(Report::Woken {
        stdin: true,
        events: false,
    });
    d.advance(Report::Read(b"\r".to_vec()));
    assert!(d.model.events_active, "still there for the pre-flight");
    d.advance(Report::Replied(listed(vec![session("a", false)])));
    assert!(matches!(
        d.stage,
        Stage::Performing {
            task: Task::Attach { .. },
            ..
        }
    ));
    assert!(!d.model.events_active);
    d.advance(Report::Replied(Reply::Attached { ok: true }));
    d.advance(Report::Replied(listed(vec![session("a", false)])));
    assert!(matches!(d.stage, Stage::Subscribing { first: false }));
    assert!(!d.model.events_active);
    // One that cannot be made leaves the flag down.
    d.advance(Report::Subscribed(false));
    assert!(matches!(d.stage, Stage::Drawing));
    assert!(!d.model.events_active);
}

#[test]
fn creating_gives_the_subscription_up() {
    let mut d = waiting(true, vec![]);
    d.advance(Report::Woken {
        stdin: true,
        events: false,
    });
    d.advance(Report::Read(b"nx\r".to_vec()));
    assert!(matches!(
        d.stage,
        Stage::Performing {
            task: Task::DetectVars { .. },
            ..
        }
    ));
    assert!(d.model.events_active);
    d.advance(Report::Replied(printed("")));
    assert!(!d.model.events_active);
}
