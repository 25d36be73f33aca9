//! The update function.

use shpool_table::session::{Attachment, Session};
use shpool_table::tui::command::Command;
use shpool_table::tui::event::Event;
use shpool_table::tui::keymap::Key;
use shpool_table::tui::model::{
    resolution_map, EditState, Mode, Model, Selection, Var, VarPromptState, VarsState,
};
use shpool_table::tui::template::{
    candidate_values, filter_rank, resolve_template, unknown_template_vars,
};
use shpool_table::tui::update::update;

fn mk(name: &str) -> Session {
    Session {
        name: name.to_string(),
        attached: false,
        started_at_unix_ms: 0,
        last_connected_at_unix_ms: 0,
        last_disconnected_at_unix_ms: None,
        attachments: Vec::new(),
    }
}

fn key(k: Key) -> Event {
    Event::Key(k)
}

#[test]
fn down_then_enter_attaches_second_session() {
    let mut m = Model::new(vec![mk("a"), mk("b"), mk("c")]);
    // Down is a Normal-mode keystroke with no session-binding
    // command, so it triggers auto-refresh — the list stays
    // current without the user having to do anything explicit.
    assert_eq!(update(&mut m, key(Key::Down)), Some(Command::Refresh));
    assert_eq!(
        update(&mut m, key(Key::Enter)),
        Some(Command::Attach {
            name: "b".into(),
            force: false
        }),
    );
}

#[test]
fn up_wraps_and_attaches_last() {
    let mut m = Model::new(vec![mk("x"), mk("y"), mk("z")]);
    assert_eq!(update(&mut m, key(Key::Up)), Some(Command::Refresh));
    assert_eq!(
        update(&mut m, key(Key::Enter)),
        Some(Command::Attach {
            name: "z".into(),
            force: false
        }),
    );
}

#[test]
fn q_quits() {
    let mut m = Model::new(vec![mk("a")]);
    assert_eq!(update(&mut m, key(Key::Char(b'q'))), Some(Command::Quit));
}

#[test]
fn ctrl_c_quits_in_normal_mode() {
    let mut m = Model::new(vec![mk("a")]);
    assert_eq!(update(&mut m, key(Key::Ctrl(0x03))), Some(Command::Quit));
}

#[test]
fn enter_on_empty_list_triggers_auto_refresh_only() {
    // AttachSelected short-circuits when the list is empty, so
    // handle_key_normal produces no Command. The Normal-mode
    // auto-refresh still fires.
    let mut m = Model::new(vec![]);
    assert_eq!(update(&mut m, key(Key::Enter)), Some(Command::Refresh));
}

#[test]
fn keystroke_clears_error() {
    let mut m = Model::new(vec![mk("a")]);
    m.set_error("session 'a' is gone");
    assert!(m.error.is_some());
    update(&mut m, key(Key::Char(b'j')));
    assert!(m.error.is_none());
}

#[test]
fn unbound_keys_in_normal_mode_trigger_auto_refresh() {
    // No action binding for x/y/z in Normal mode, but each is
    // still a keystroke — the auto-refresh rule treats them
    // like any other Normal-mode keypress.
    let mut m = Model::new(vec![mk("a")]);
    assert_eq!(update(&mut m, key(Key::Char(b'x'))), Some(Command::Refresh));
    assert_eq!(update(&mut m, key(Key::Char(b'y'))), Some(Command::Refresh));
    assert_eq!(update(&mut m, key(Key::Char(b'z'))), Some(Command::Refresh));
}

#[test]
fn create_flow_enter_submits() {
    let mut m = Model::new(vec![mk("a")]);
    assert_eq!(update(&mut m, key(Key::Char(b'n'))), None);
    assert_eq!(m.mode, Mode::CreateInput(String::new()));
    update(&mut m, key(Key::Char(b'f')));
    update(&mut m, key(Key::Char(b'o')));
    update(&mut m, key(Key::Char(b'o')));
    assert_eq!(
        update(&mut m, key(Key::Enter)),
        Some(Command::Create("foo".into()))
    );
    assert_eq!(m.mode, Mode::Normal);
}

#[test]
fn create_typing_accumulates_into_buffer() {
    let mut m = Model::new(vec![]);
    m.mode = Mode::CreateInput(String::new());
    update(&mut m, key(Key::Char(b'f')));
    update(&mut m, key(Key::Char(b'o')));
    update(&mut m, key(Key::Char(b'o')));
    assert_eq!(m.mode, Mode::CreateInput("foo".into()));
}

#[test]
fn create_esc_cancels() {
    // Esc transitions out of CreateInput. Auto-refresh then
    // fires since we've landed back in Normal mode.
    let mut m = Model::new(vec![mk("a")]);
    m.mode = Mode::CreateInput("partial".into());
    assert_eq!(update(&mut m, key(Key::Esc)), Some(Command::Refresh));
    assert_eq!(m.mode, Mode::Normal);
}

#[test]
fn create_backspace_pops() {
    let mut m = Model::new(vec![]);
    m.mode = Mode::CreateInput("ab".into());
    update(&mut m, key(Key::Backspace));
    assert_eq!(m.mode, Mode::CreateInput("a".into()));
}

#[test]
fn create_rejects_empty_on_enter() {
    // Empty name on Enter: return to Normal without emitting
    // Command::Create. Auto-refresh fires because we're back
    // in Normal mode.
    let mut m = Model::new(vec![]);
    m.mode = Mode::CreateInput(String::new());
    assert_eq!(update(&mut m, key(Key::Enter)), Some(Command::Refresh));
    assert_eq!(m.mode, Mode::Normal);
}

#[test]
fn create_rejects_duplicate_name() {
    let mut m = Model::new(vec![mk("main")]);
    m.mode = Mode::CreateInput("main".into());
    // Duplicate check runs in update before emitting Create, so
    // the executor never sees the doomed command. Auto-refresh
    // fires after the mode transitions to Normal.
    assert_eq!(update(&mut m, key(Key::Enter)), Some(Command::Refresh));
    assert!(m.error.as_deref().unwrap_or("").contains("already exists"));
    assert_eq!(m.mode, Mode::Normal);
}

#[test]
fn create_drops_spaces_in_name() {
    let mut m = Model::new(vec![]);
    m.mode = Mode::CreateInput(String::new());
    update(&mut m, key(Key::Char(b'a')));
    update(&mut m, key(Key::Char(b' ')));
    update(&mut m, key(Key::Char(b'b')));
    assert_eq!(m.mode, Mode::CreateInput("ab".into()));
}

#[test]
fn confirm_kill_y_fires() {
    let mut m = Model::new(vec![mk("a"), mk("b")]);
    assert_eq!(update(&mut m, key(Key::Char(b'd'))), None);
    assert_eq!(m.mode, Mode::ConfirmKill("a".into()));
    assert_eq!(
        update(&mut m, key(Key::Char(b'y'))),
        Some(Command::Kill("a".into()))
    );
    assert_eq!(m.mode, Mode::Normal);
}

#[test]
fn confirm_kill_stray_key_is_ignored() {
    let mut m = Model::new(vec![mk("a")]);
    m.mode = Mode::ConfirmKill("a".into());
    assert_eq!(update(&mut m, key(Key::Char(b'x'))), None);
    assert_eq!(m.mode, Mode::ConfirmKill("a".into()));
    assert_eq!(update(&mut m, key(Key::Down)), None);
    assert_eq!(m.mode, Mode::ConfirmKill("a".into()));
}

#[test]
fn confirm_kill_n_and_esc_cancel() {
    for cancel in [Key::Char(b'n'), Key::Char(b'N'), Key::Esc, Key::Ctrl(0x03)] {
        let mut m = Model::new(vec![mk("a")]);
        m.mode = Mode::ConfirmKill("a".into());
        // Cancel returns to Normal, which then auto-refreshes.
        assert_eq!(update(&mut m, key(cancel)), Some(Command::Refresh));
        assert_eq!(m.mode, Mode::Normal);
    }
}

#[test]
fn confirm_kill_y_advances_cursor_off_target() {
    // 'y' steps the cursor onto a neighbor before issuing the kill,
    // so the post-kill refresh won't read it as a stale loss.
    let mut m = Model::new(vec![mk("a"), mk("b")]);
    m.selection = Selection::At(0); // "a"
    m.mode = Mode::ConfirmKill("a".into());
    assert_eq!(
        update(&mut m, key(Key::Char(b'y'))),
        Some(Command::Kill("a".into()))
    );
    assert_eq!(m.selected_name(), Some("b"));
}

#[test]
fn kill_on_empty_list_is_noop() {
    // 'd' with no sessions: handle_key_normal short-circuits (no
    // mode change, no command). Auto-refresh still fires because
    // we're in Normal mode.
    let mut m = Model::new(vec![]);
    assert_eq!(update(&mut m, key(Key::Char(b'd'))), Some(Command::Refresh));
    assert_eq!(m.mode, Mode::Normal);
}

#[test]
fn confirm_force_y_force_attaches() {
    let mut m = Model::new(vec![mk("a")]);
    m.mode = Mode::ConfirmForce("a".into());
    assert_eq!(
        update(&mut m, key(Key::Char(b'y'))),
        Some(Command::Attach {
            name: "a".into(),
            force: true
        }),
    );
    assert_eq!(m.mode, Mode::Normal);
}

#[test]
fn confirm_force_n_cancels() {
    let mut m = Model::new(vec![mk("a")]);
    m.mode = Mode::ConfirmForce("a".into());
    assert_eq!(update(&mut m, key(Key::Char(b'n'))), Some(Command::Refresh));
    assert_eq!(m.mode, Mode::Normal);
}

// -- async event tests --

#[test]
fn sessions_refreshed_applies_and_does_not_re_refresh() {
    // Guards against an infinite-refresh loop: the event that
    // comes back from the executor after Command::Refresh must
    // NOT itself emit another Command::Refresh. The
    // `was_keystroke` gate in update() is what prevents this.
    let mut m = Model::new(vec![]);
    let cmd = update(&mut m, Event::SessionsRefreshed(vec![mk("a"), mk("b")]));
    assert_eq!(cmd, None);
    assert_eq!(m.sessions.len(), 2);
}

#[test]
fn refresh_failed_sets_error_no_re_refresh() {
    // Same invariant for the failure path — otherwise a down
    // daemon would tight-loop refresh-failures.
    let mut m = Model::new(vec![]);
    let cmd = update(&mut m, Event::RefreshFailed("boom".into()));
    assert_eq!(cmd, None);
    assert!(m.error.as_deref().unwrap_or("").contains("shpool list"));
}

#[test]
fn attach_exited_ok_reselects_and_refreshes() {
    let mut m = Model::new(vec![mk("a"), mk("b"), mk("c")]);
    m.selection = Selection::At(0);
    let cmd = update(
        &mut m,
        Event::AttachExited {
            ok: true,
            name: "c".into(),
        },
    );
    assert_eq!(cmd, Some(Command::Refresh));
    assert_eq!(m.selected_index(), Some(2));
    assert!(m.error.is_none());
}

#[test]
fn attach_exited_fail_sets_error_and_refreshes() {
    let mut m = Model::new(vec![mk("a")]);
    let cmd = update(
        &mut m,
        Event::AttachExited {
            ok: false,
            name: "a".into(),
        },
    );
    assert_eq!(cmd, Some(Command::Refresh));
    assert!(m.error.as_deref().unwrap_or("").contains("shpool attach"));
}

#[test]
fn kill_finished_ok_refreshes() {
    let mut m = Model::new(vec![mk("a")]);
    let cmd = update(
        &mut m,
        Event::KillFinished {
            ok: true,
            name: "a".into(),
            err: None,
        },
    );
    assert_eq!(cmd, Some(Command::Refresh));
    assert!(m.error.is_none());
}

#[test]
fn kill_finished_fail_sets_error_and_refreshes() {
    let mut m = Model::new(vec![mk("a")]);
    let cmd = update(
        &mut m,
        Event::KillFinished {
            ok: false,
            name: "a".into(),
            err: Some("kill a: not found".into()),
        },
    );
    assert_eq!(cmd, Some(Command::Refresh));
    assert_eq!(m.error.as_deref(), Some("kill a: not found"));
}

#[test]
fn typing_in_create_mode_does_not_auto_refresh() {
    // In modal modes we skip auto-refresh — typing "foo" into
    // the create prompt shouldn't fire three shell-outs.
    let mut m = Model::new(vec![]);
    m.mode = Mode::CreateInput(String::new());
    assert_eq!(update(&mut m, key(Key::Char(b'f'))), None);
}

#[test]
fn async_events_do_not_clear_transient_error() {
    // Only keystrokes clear the error — a background event like
    // a refresh completion shouldn't dismiss a message the user
    // hasn't acknowledged.
    let mut m = Model::new(vec![]);
    m.set_error("sticky");
    update(&mut m, Event::SessionsRefreshed(vec![]));
    assert_eq!(m.error.as_deref(), Some("sticky"));
}

#[test]
fn focus_gained_triggers_refresh() {
    let mut m = Model::new(vec![]);
    assert_eq!(update(&mut m, Event::FocusGained), Some(Command::Refresh));
}

#[test]
fn uppercase_d_fires_ensure_daemon() {
    let mut m = Model::new(vec![mk("a")]);
    assert_eq!(
        update(&mut m, key(Key::Char(b'D'))),
        Some(Command::EnsureDaemon),
    );
}

#[test]
fn lowercase_d_still_enters_confirm_kill() {
    let mut m = Model::new(vec![mk("a")]);
    update(&mut m, key(Key::Char(b'd')));
    assert_eq!(m.mode, Mode::ConfirmKill("a".into()));
}

#[test]
fn focus_gained_does_not_clear_error() {
    let mut m = Model::new(vec![]);
    m.set_error("sticky");
    update(&mut m, Event::FocusGained);
    assert_eq!(m.error.as_deref(), Some("sticky"));
}

#[test]
fn vim_jj_then_enter_attaches_third() {
    let mut m = Model::new(vec![mk("a"), mk("b"), mk("c")]);
    update(&mut m, key(Key::Char(b'j')));
    update(&mut m, key(Key::Char(b'j')));
    assert_eq!(
        update(&mut m, key(Key::Enter)),
        Some(Command::Attach {
            name: "c".into(),
            force: false
        }),
    );
}

// -- events subscription gating --

#[test]
fn events_arrived_refreshes() {
    let mut m = Model::new(vec![]);
    assert_eq!(update(&mut m, Event::EventsArrived), Some(Command::Refresh));
}

#[test]
fn subscribed_keystroke_skips_auto_refresh() {
    // While subscribed the event stream keeps the list current, so a
    // no-op Normal keystroke must NOT also fire a list call.
    let mut m = Model::new(vec![mk("a")]);
    m.events_active = true;
    assert_eq!(update(&mut m, key(Key::Char(b'x'))), None);
}

#[test]
fn subscribed_focus_gained_skips_refresh() {
    let mut m = Model::new(vec![]);
    m.events_active = true;
    assert_eq!(update(&mut m, Event::FocusGained), None);
}

#[test]
fn unsubscribed_focus_gained_refreshes() {
    let mut m = Model::new(vec![]);
    assert_eq!(update(&mut m, Event::FocusGained), Some(Command::Refresh));
}

// -- stale-selection acknowledgment --

#[test]
fn stale_selection_consumes_enter_without_attaching() {
    let mut m = Model::new(vec![mk("a"), mk("b"), mk("c")]);
    m.selection = Selection::At(1); // "b"
    // A racy refresh drops "b": selection goes stale, error set.
    update(&mut m, Event::SessionsRefreshed(vec![mk("a"), mk("c")]));
    assert!(m.is_stale());
    assert!(m.error.is_some());
    let cmd = update(&mut m, key(Key::Enter));
    assert!(!matches!(cmd, Some(Command::Attach { .. })));
    assert!(!m.is_stale());
    assert!(m.error.is_none());
}

#[test]
fn stale_selection_consumes_kill_keystroke() {
    let mut m = Model::new(vec![mk("a"), mk("b")]);
    m.selection = Selection::At(1);
    update(&mut m, Event::SessionsRefreshed(vec![mk("a")]));
    assert!(m.is_stale());
    // d is consumed as ack — no ConfirmKill, no command that could
    // act on the wrong row.
    let cmd = update(&mut m, key(Key::Char(b'd')));
    assert!(!matches!(cmd, Some(Command::Kill(_))));
    assert_eq!(m.mode, Mode::Normal);
    assert!(!m.is_stale());
}

#[test]
fn stale_selection_navigation_clears_and_moves() {
    let mut m = Model::new(vec![mk("a"), mk("b"), mk("c")]);
    m.selection = Selection::At(1);
    update(&mut m, Event::SessionsRefreshed(vec![mk("a"), mk("c")]));
    assert!(m.is_stale());
    // j acknowledges AND re-seats onto a real row.
    update(&mut m, key(Key::Char(b'j')));
    assert!(!m.is_stale());
    assert!(m.selected_name().is_some());
}

#[test]
fn stale_ack_reseats_onto_a_row_even_when_subscribed() {
    // Subscribed: there's no fallback auto-refresh to re-seat the
    // cursor, so acking must land it on a real row itself rather than
    // strand it on None. Covers an unbound key and a swallowed
    // act-on-selection key — the two paths that don't navigate.
    for ack in [Key::Char(b'x'), Key::Enter] {
        let mut m = Model::new(vec![mk("a"), mk("b"), mk("c")]);
        m.events_active = true;
        m.selection = Selection::At(1); // "b"
        update(&mut m, Event::SessionsRefreshed(vec![mk("a"), mk("c")]));
        assert!(m.is_stale());
        update(&mut m, key(ack));
        assert!(!m.is_stale(), "ack with {ack:?} should clear stale");
        assert!(
            m.selected_index().is_some(),
            "ack with {ack:?} should re-seat onto a row, not strand at None",
        );
    }
}

// -- modal cancelled when its target vanishes --

#[test]
fn confirm_kill_cancelled_when_target_vanishes() {
    let mut m = Model::new(vec![mk("a"), mk("b")]);
    m.selection = Selection::At(0);
    m.mode = Mode::ConfirmKill("a".into());
    // A background refresh removes "a" out from under the prompt.
    update(&mut m, Event::SessionsRefreshed(vec![mk("b")]));
    assert_eq!(m.mode, Mode::Normal);
    assert!(m.error.as_deref().unwrap_or("").contains("'a' is gone"));
}

#[test]
fn confirm_force_cancelled_when_target_vanishes() {
    let mut m = Model::new(vec![mk("a"), mk("b")]);
    m.mode = Mode::ConfirmForce("a".into());
    update(&mut m, Event::SessionsRefreshed(vec![mk("b")]));
    assert_eq!(m.mode, Mode::Normal);
    assert!(m.error.as_deref().unwrap_or("").contains("'a' is gone"));
}

#[test]
fn create_modal_survives_session_churn() {
    // CreateInput holds a name being typed, not a session ref, so a
    // refresh that changes the list must not cancel it.
    let mut m = Model::new(vec![mk("a")]);
    m.mode = Mode::CreateInput("foo".into());
    update(&mut m, Event::SessionsRefreshed(vec![mk("b")]));
    assert_eq!(m.mode, Mode::CreateInput("foo".into()));
}

#[test]
fn attach_return_clears_prior_stale() {
    // The user was stale (a session vanished), then completed an
    // attach. Returning clears the now-irrelevant stale alert.
    let mut m = Model::new(vec![mk("a")]);
    m.selection = Selection::Stale("old".into());
    m.set_error("session 'old' is gone");
    let cmd = update(
        &mut m,
        Event::AttachExited {
            ok: true,
            name: "a".into(),
        },
    );
    assert_eq!(cmd, Some(Command::Refresh));
    assert!(!m.is_stale());
    assert!(m.error.is_none());
}

// -- vars view state machine --

fn var(name: &str, value: &str) -> Var {
    Var {
        name: name.to_string(),
        value: value.to_string(),
        unset: false,
    }
}

fn vars_sessions() -> Vec<Session> {
    vec![
        attached_sess("myproj-edit", "{workspace}-edit", 111),
        attached_sess("myproj-term", "{workspace}-term", 222),
        attached_sess("vim-notes", "{editor}-notes", 333),
    ]
}

fn attached_sess(name: &str, template: &str, pid: u64) -> Session {
    Session {
        name: name.to_string(),
        attached: true,
        started_at_unix_ms: 0,
        last_connected_at_unix_ms: 0,
        last_disconnected_at_unix_ms: None,
        attachments: vec![Attachment {
            session_name_template: template.to_string(),
            pid,
        }],
    }
}

fn vars_model() -> Model {
    let mut m = Model::new(vars_sessions());
    m.mode = Mode::Vars(VarsState {
        vars: vec![var("editor", "vim"), var("workspace", "myproj")],
        selected: 0,
        edit: Option::None,
    });
    m
}

/// Destructure the vars state, panicking if the model isn't in the
/// vars view — keeps the tests asserting on fields, not on whole-Vec
/// equality.
fn vars(m: &Model) -> &VarsState {
    let Mode::Vars(vs) = &m.mode else {
        panic!("expected Mode::Vars, got {:?}", m.mode);
    };
    vs
}

/// The value-selector edit state, panicking if not editing.
fn edit(m: &Model) -> &EditState {
    vars(m)
        .edit
        .as_ref()
        .unwrap_or_else(|| panic!("expected an active edit"))
}

#[test]
fn v_in_normal_mode_fetches_vars() {
    let mut m = Model::new(vec![mk("a")]);
    assert_eq!(
        update(&mut m, key(Key::Char(b'v'))),
        Some(Command::FetchVars)
    );
    // Still Normal until the fetched event arrives.
    assert_eq!(m.mode, Mode::Normal);
}

#[test]
fn vars_fetched_opens_view() {
    let mut m = Model::new(vec![mk("a")]);
    let cmd = update(
        &mut m,
        Event::VarsFetched(vec![var("editor", "vim"), var("workspace", "myproj")]),
    );
    assert_eq!(cmd, None);
    let vs = vars(&m);
    assert_eq!(vs.vars.len(), 2);
    assert_eq!(vs.selected, 0);
    assert_eq!(vs.edit, None);
}

#[test]
fn vars_fetch_failed_stays_normal_with_error() {
    let mut m = Model::new(vec![mk("a")]);
    let cmd = update(&mut m, Event::VarsFetchFailed("boom".into()));
    assert_eq!(cmd, None);
    assert_eq!(m.mode, Mode::Normal);
    assert!(m.error.as_deref().unwrap_or("").contains("shpool var list"));
}

#[test]
fn vars_browse_jk_move_and_wrap() {
    let mut m = vars_model();
    update(&mut m, key(Key::Char(b'j')));
    assert_eq!(vars(&m).selected, 1, "j moves down");
    update(&mut m, key(Key::Char(b'j')));
    assert_eq!(vars(&m).selected, 0, "j wraps to top");
    update(&mut m, key(Key::Char(b'k')));
    assert_eq!(vars(&m).selected, 1, "k wraps to bottom");
}

#[test]
fn vars_edit_e_opens_empty_field_then_enter_commits() {
    // `e` opens the value selector with an empty field (the current
    // value is just the highlighted row, not prefilled text); typing +
    // Enter commit the typed value. Asserts the emitted Command::SetVar,
    // not a shell-out.
    let mut m = vars_model(); // selected 0 = editor=vim
    update(&mut m, key(Key::Char(b'e')));
    let e = edit(&m);
    assert_eq!(e.field, "", "field starts empty (no prefill)");
    assert_eq!(e.filter, "", "filter starts empty");
    assert_eq!(e.highlight, 0, "highlight starts at the top");
    assert_eq!(
        e.candidates,
        vec!["vim".to_string()],
        "candidates harvested ({{editor}}-notes -> vim)"
    );
    // Type "nano".
    for b in b"nano" {
        update(&mut m, key(Key::Char(*b)));
    }
    assert_eq!(edit(&m).field, "nano", "typed new value into the field");
    let cmd = update(&mut m, key(Key::Enter));
    assert_eq!(
        cmd,
        Some(Command::SetVar {
            name: "editor".into(),
            value: "nano".into(),
        }),
    );
}

#[test]
fn vars_edit_accepts_spaces_in_value() {
    // Values may hold spaces (unlike session names) — the create
    // prompt drops them, the vars edit field keeps them. The field
    // starts empty now, so no prefill to clear first.
    let mut m = vars_model();
    update(&mut m, key(Key::Char(b'e')));
    for b in b"key bugfix" {
        update(&mut m, key(Key::Char(*b)));
    }
    assert_eq!(edit(&m).field, "key bugfix");
}

#[test]
fn vars_edit_esc_cancels_but_stays_in_view() {
    let mut m = vars_model();
    update(&mut m, key(Key::Char(b'e')));
    update(&mut m, key(Key::Char(b'x')));
    assert_eq!(edit(&m).field, "x", "typed into the field");
    update(&mut m, key(Key::Esc));
    assert_eq!(vars(&m).edit, None, "edit cancelled");
    assert!(matches!(m.mode, Mode::Vars(_)), "still in the vars view");
}

// -- value-selector state machine --

fn vars_edit_model(cand_names: &[&str]) -> Model {
    let mut sessions = vec![attached_sess("djt-edit", "{v}-edit", 1)];
    for name in cand_names {
        sessions.push(detached_sess(&format!("{name}-edit")));
    }
    let mut m = Model::new(sessions);
    m.mode = Mode::Vars(VarsState {
        vars: vec![var("v", "djt")],
        selected: 0,
        edit: Option::None,
    });
    // Open the selector via the real key path so the harvest runs.
    update(&mut m, key(Key::Char(b'e')));
    m
}

fn detached_sess(name: &str) -> Session {
    Session {
        name: name.to_string(),
        attached: false,
        started_at_unix_ms: 0,
        last_connected_at_unix_ms: 0,
        last_disconnected_at_unix_ms: None,
        attachments: Vec::new(),
    }
}

/// `shown` = the filtered/ranked candidate list for the current filter.
fn shown(m: &Model) -> Vec<String> {
    let e = edit(m);
    filter_rank(&e.candidates, &e.filter)
}

#[test]
fn selector_arrows_fill_field_and_do_not_refilter() {
    let mut m = vars_edit_model(&["xmr", "xrp"]); // cands: djt, xmr, xrp
    assert_eq!(
        edit(&m).candidates,
        vec!["djt".to_string(), "xmr".to_string(), "xrp".to_string()],
        "candidates harvested",
    );
    update(&mut m, key(Key::Down));
    assert_eq!(edit(&m).highlight, 1, "Down moves the highlight");
    assert_eq!(
        edit(&m).field,
        "xmr",
        "highlighted candidate copied into field"
    );
    assert_eq!(edit(&m).filter, "", "filter stays frozen while arrowing");
    update(&mut m, key(Key::Down));
    assert_eq!(edit(&m).field, "xrp", "Down again -> next candidate");
    update(&mut m, key(Key::Down));
    assert_eq!(edit(&m).highlight, 2, "Down clamps at the last row");
    update(&mut m, key(Key::Up));
    assert_eq!(edit(&m).field, "xmr", "Up walks back up the list");
}

#[test]
fn selector_typing_filters_and_resets_highlight() {
    let mut m = vars_edit_model(&["xmr", "xrp"]); // cands: djt, xmr, xrp
    update(&mut m, key(Key::Char(b'x')));
    assert_eq!(edit(&m).field, "x", "char appended to the field");
    assert_eq!(edit(&m).filter, "x", "filter follows the field when typing");
    assert_eq!(
        edit(&m).highlight,
        0,
        "highlight at the top after first char"
    );
    assert_eq!(shown(&m), vec!["xmr", "xrp"], "shown narrowed to x-matches");
    update(&mut m, key(Key::Char(b'm')));
    assert_eq!(edit(&m).filter, "xm", "filter keeps following the field");
    assert_eq!(shown(&m), vec!["xmr"], "filter narrowed further to xm");

    // A typing keystroke snaps the highlight back to the top even after
    // an arrow moved it.
    let mut m = vars_edit_model(&["xmr", "xrp"]);
    update(&mut m, key(Key::Char(b'x'))); // shown = [xmr, xrp]
    update(&mut m, key(Key::Down)); // highlight 1
    assert_eq!(
        edit(&m).highlight,
        1,
        "arrowed down within the filtered list"
    );
    update(&mut m, key(Key::Char(b'q'))); // any printable
    assert_eq!(
        edit(&m).highlight,
        0,
        "highlight reset to the top by typing"
    );
}

#[test]
fn selector_arrow_then_type_extends_field_and_filters() {
    let mut m = vars_edit_model(&["xmr", "xrp"]); // cands: djt, xmr, xrp
    update(&mut m, key(Key::Down)); // highlight xmr, field=xmr
    assert_eq!(edit(&m).field, "xmr", "arrow copied xmr into the field");
    update(&mut m, key(Key::Char(b'z'))); // type onto the copied text
    assert_eq!(
        edit(&m).field,
        "xmrz",
        "typed char extends the arrowed-in value"
    );
    assert_eq!(edit(&m).filter, "xmrz", "filter now equals the field");
    assert_eq!(
        edit(&m).highlight,
        0,
        "highlight reset by the typing keystroke"
    );
    assert!(shown(&m).is_empty(), "nothing matches xmrz");
    let cmd = update(&mut m, key(Key::Enter));
    assert_eq!(
        cmd,
        Some(Command::SetVar {
            name: "v".into(),
            value: "xmrz".into(),
        }),
        "Enter applies the free-text field",
    );
}

#[test]
fn selector_non_arrow_key_is_consumed_without_touching_field() {
    let mut m = vars_edit_model(&["xmr", "xrp"]); // cands: djt, xmr, xrp
    update(&mut m, key(Key::Down)); // highlight 1, field=xmr, filter frozen
    assert_eq!(
        update(&mut m, key(Key::Other)),
        None,
        "Key::Other emits no command"
    );
    assert_eq!(
        edit(&m).field,
        "xmr",
        "Key::Other leaves the field untouched"
    );
    assert_eq!(
        edit(&m).filter,
        "",
        "Key::Other leaves the filter untouched"
    );
    assert_eq!(
        edit(&m).highlight,
        1,
        "Key::Other leaves the highlight untouched"
    );
    assert_eq!(update(&mut m, key(Key::Tab)), None, "Tab emits no command");
    assert_eq!(edit(&m).field, "xmr", "Tab leaves the field untouched");
    assert_eq!(edit(&m).highlight, 1, "Tab leaves the highlight untouched");
}

#[test]
fn selector_empty_field_enter_keeps_current_value() {
    let mut m = vars_edit_model(&["xmr", "xrp"]); // cands: djt(current), xmr, xrp
    assert_eq!(edit(&m).field, "", "field empty on entry");
    let cmd = update(&mut m, key(Key::Enter));
    assert_eq!(
        cmd,
        Some(Command::SetVar {
            name: "v".into(),
            value: "djt".into(),
        }),
        "empty field -> highlighted row (the current value) is applied",
    );
}

#[test]
fn selector_empty_field_after_backspacing_keeps_current() {
    let mut m = vars_edit_model(&["xmr", "xrp"]);
    update(&mut m, key(Key::Char(b'x'))); // field=x
    update(&mut m, key(Key::Backspace)); // -> empty
    assert_eq!(edit(&m).field, "", "backspaced to empty");
    assert_eq!(edit(&m).highlight, 0, "highlight back at the top");
    let cmd = update(&mut m, key(Key::Enter));
    assert_eq!(
        cmd,
        Some(Command::SetVar {
            name: "v".into(),
            value: "djt".into(),
        }),
        "still applies the current value",
    );
}

#[test]
fn selector_literal_field_is_not_a_dead_zone() {
    let mut m = vars_edit_model(&["xmr"]); // cands: djt, xmr
    for b in b"xm" {
        update(&mut m, key(Key::Char(*b)));
    }
    assert_eq!(edit(&m).field, "xm", "field holds the literal typed text");
    assert_eq!(shown(&m), vec!["xmr"], "xmr shown as the suggestion");
    let cmd = update(&mut m, key(Key::Enter));
    assert_eq!(
        cmd,
        Some(Command::SetVar {
            name: "v".into(),
            value: "xm".into(),
        }),
        "Enter applies the literal xm, not the shown xmr",
    );
}

#[test]
fn selector_arrow_to_suggestion_then_enter_applies_it() {
    let mut m = vars_edit_model(&["xmr"]); // cands: djt, xmr
    for b in b"xm" {
        update(&mut m, key(Key::Char(*b)));
    }
    update(&mut m, key(Key::Down)); // highlight xmr, field=xmr
    assert_eq!(
        edit(&m).field,
        "xmr",
        "arrow filled the field with the suggestion"
    );
    let cmd = update(&mut m, key(Key::Enter));
    assert_eq!(
        cmd,
        Some(Command::SetVar {
            name: "v".into(),
            value: "xmr".into(),
        }),
        "now xmr is applied",
    );
}

#[test]
fn selector_esc_cancels_and_clears_edit_state() {
    let mut m = vars_edit_model(&["xmr", "xrp"]);
    update(&mut m, key(Key::Down)); // field=xmr
    update(&mut m, key(Key::Esc));
    assert_eq!(vars(&m).edit, None, "no longer editing");
    assert!(matches!(m.mode, Mode::Vars(_)), "still in the vars view");
}

#[test]
fn vars_browse_esc_and_q_both_leave() {
    let mut m = vars_model();
    update(&mut m, key(Key::Esc));
    assert_eq!(m.mode, Mode::Normal, "Esc returns to the session list");
    let mut m2 = vars_model();
    update(&mut m2, key(Key::Char(b'q')));
    assert_eq!(m2.mode, Mode::Normal, "q returns to the session list");
}

#[test]
fn vars_browse_uppercase_q_does_not_leave() {
    let mut m = vars_model();
    update(&mut m, key(Key::Char(b'Q')));
    assert!(matches!(m.mode, Mode::Vars(_)));
}

#[test]
fn vars_set_finished_ok_applies_list_and_refreshes() {
    // On success the edit line clears, the refetched list is applied
    // (cursor preserved), and a Refresh is emitted to re-dial the
    // preview.
    let mut m = vars_model();
    update(&mut m, key(Key::Char(b'e'))); // open edit on editor
    let cmd = update(
        &mut m,
        Event::VarSetFinished {
            name: "editor".into(),
            ok: true,
            err: Option::None,
            vars: Some(vec![var("editor", "nano"), var("workspace", "myproj")]),
        },
    );
    assert_eq!(cmd, Some(Command::Refresh));
    let vs = vars(&m);
    assert_eq!(vs.edit, None, "edit line cleared");
    assert_eq!(vs.vars[0].value, "nano", "new list applied");
    assert_eq!(vs.selected, 0, "cursor preserved");
}

#[test]
fn vars_set_finished_ok_with_no_refetch_keeps_old_list() {
    // A successful set whose refetch failed (vars: None) keeps the
    // prior list silently — still refreshes sessions.
    let mut m = vars_model();
    let cmd = update(
        &mut m,
        Event::VarSetFinished {
            name: "editor".into(),
            ok: true,
            err: Option::None,
            vars: Option::None,
        },
    );
    assert_eq!(cmd, Some(Command::Refresh));
    let vs = vars(&m);
    assert_eq!(vs.vars[0].value, "vim", "old list kept");
}

#[test]
fn vars_set_finished_fail_sets_error_no_refresh() {
    let mut m = vars_model();
    let cmd = update(
        &mut m,
        Event::VarSetFinished {
            name: "editor".into(),
            ok: false,
            err: Some("not allowed".into()),
            vars: Option::None,
        },
    );
    assert_eq!(cmd, None, "no refresh on failure");
    assert_eq!(m.error.as_deref(), Some("var set editor: not allowed"));
    // Edit line still cleared; still in the view.
    assert_eq!(vars(&m).edit, None);
}

#[test]
fn vars_set_finished_fail_without_stderr_uses_generic() {
    let mut m = vars_model();
    update(
        &mut m,
        Event::VarSetFinished {
            name: "editor".into(),
            ok: false,
            err: Option::None,
            vars: Option::None,
        },
    );
    assert_eq!(m.error.as_deref(), Some("var set editor failed"));
}

#[test]
fn vars_keystroke_does_not_auto_refresh() {
    // The auto-refresh fallback is gated on Mode::Normal, so a
    // browse keystroke in the vars view never storms shpool with
    // list calls.
    let mut m = vars_model();
    assert_eq!(update(&mut m, key(Key::Char(b'j'))), None);
}

#[test]
fn vars_e_on_empty_list_is_noop() {
    let mut m = Model::new(vec![]);
    m.mode = Mode::Vars(VarsState {
        vars: vec![],
        selected: 0,
        edit: Option::None,
    });
    assert_eq!(update(&mut m, key(Key::Char(b'e'))), None);
    assert_eq!(vars(&m).edit, None, "no edit opened on empty list");
}

/// A session whose single attachment carries `tmpl`.
fn tmpl_session(name: &str, tmpl: &str) -> Session {
    Session {
        name: name.to_string(),
        attached: true,
        started_at_unix_ms: 0,
        last_connected_at_unix_ms: 0,
        last_disconnected_at_unix_ms: None,
        attachments: vec![Attachment {
            session_name_template: tmpl.to_string(),
            pid: 1,
        }],
    }
}

/// Flatten a vars list to `name=value` / `name(unset)` tokens.
fn merged_repr(vs: &VarsState) -> Vec<String> {
    vs.vars
        .iter()
        .map(|v| {
            if v.unset {
                format!("{}(unset)", v.name)
            } else {
                format!("{}={}", v.name, v.value)
            }
        })
        .collect()
}

#[test]
fn vars_fetched_merges_unset_rows_against_sessions() {
    let mut m = Model::new(vec![tmpl_session("B-x", "{b}-x")]);
    let cmd = update(&mut m, Event::VarsFetched(vec![var("a", "1")]));
    assert_eq!(cmd, None);
    assert_eq!(merged_repr(vars(&m)), ["a=1", "b(unset)"]);
    assert_eq!(vars(&m).selected, 0, "cursor resets to the top");
}

#[test]
fn vars_set_finished_keeps_unset_sibling_and_cursor_by_name() {
    let mut m = Model::new(vec![
        tmpl_session("B-x", "{b}-x"),
        tmpl_session("C-x", "{c}-x"),
    ]);
    update(&mut m, Event::VarsFetched(vec![]));
    assert_eq!(merged_repr(vars(&m)), ["b(unset)", "c(unset)"]);
    // Cursor is at 0 (b). Open the selector so the edit line is live,
    // then deliver the set result with a refetched set list.
    update(&mut m, key(Key::Char(b'e')));
    let cmd = update(
        &mut m,
        Event::VarSetFinished {
            name: "b".into(),
            ok: true,
            err: Option::None,
            vars: Some(vec![var("b", "foo")]),
        },
    );
    assert_eq!(cmd, Some(Command::Refresh));
    assert_eq!(
        merged_repr(vars(&m)),
        ["b=foo", "c(unset)"],
        "b promoted; c survives as unset"
    );
    let vs = vars(&m);
    assert_eq!(
        vs.vars[vs.selected].name, "b",
        "cursor stays on the promoted var by name"
    );
    assert_eq!(vs.edit, None, "edit line cleared");
}

#[test]
fn sessions_refreshed_in_vars_mode_adds_unset_row_and_keeps_cursor() {
    let mut m = Model::new(vec![tmpl_session("B-x", "{b}-x")]);
    update(&mut m, Event::VarsFetched(vec![var("a", "1")]));
    assert_eq!(merged_repr(vars(&m)), ["a=1", "b(unset)"]);
    // Move the cursor onto b.
    update(&mut m, key(Key::Char(b'j')));
    assert_eq!(vars(&m).vars[vars(&m).selected].name, "b");

    update(
        &mut m,
        Event::SessionsRefreshed(vec![
            tmpl_session("B-x", "{b}-x"),
            tmpl_session("C-x", "{c}-x"),
        ]),
    );
    assert_eq!(merged_repr(vars(&m)), ["a=1", "b(unset)", "c(unset)"]);
    let vs = vars(&m);
    assert_eq!(vs.vars[vs.selected].name, "b", "cursor held on b by name");
}

#[test]
fn sessions_refreshed_in_vars_mode_removes_unset_row_and_clamps_cursor() {
    let mut m = Model::new(vec![
        tmpl_session("B-x", "{b}-x"),
        tmpl_session("C-x", "{c}-x"),
    ]);
    update(&mut m, Event::VarsFetched(vec![]));
    assert_eq!(merged_repr(vars(&m)), ["b(unset)", "c(unset)"]);
    update(&mut m, key(Key::Char(b'j'))); // cursor on c
    assert_eq!(vars(&m).vars[vars(&m).selected].name, "c");

    update(
        &mut m,
        Event::SessionsRefreshed(vec![tmpl_session("B-x", "{b}-x")]),
    );
    assert_eq!(merged_repr(vars(&m)), ["b(unset)"]);
    assert_eq!(vars(&m).selected, 0, "cursor clamped into bounds");
}

#[test]
fn map_unchanged_candidate_harvest_ignores_an_unset_co_var() {
    let sessions = vec![
        tmpl_session("{editor}-myproj", "{editor}-{workspace}"),
        // detached target carrying the literal-prefix name.
        Session {
            name: "{editor}-demo".into(),
            attached: false,
            started_at_unix_ms: 0,
            last_connected_at_unix_ms: 0,
            last_disconnected_at_unix_ms: None,
            attachments: Vec::new(),
        },
    ];
    // Pre-union baseline: harvest with only the real row in the map.
    // Computed before `sessions` moves into the model.
    let real = vec![var("workspace", "myproj")];
    let map = resolution_map(&real);
    let pre_union = candidate_values(&sessions, &map, "workspace");

    let mut m = Model::new(sessions);
    update(&mut m, Event::VarsFetched(vec![var("workspace", "myproj")]));
    // editor surfaced as an unset co-var row.
    assert!(
        vars(&m).vars.iter().any(|v| v.name == "editor" && v.unset),
        "editor surfaced as an unset row"
    );
    // Point the cursor at the set var and open the selector.
    let wi = vars(&m)
        .vars
        .iter()
        .position(|v| v.name == "workspace")
        .unwrap();
    if let Mode::Vars(vs) = &mut m.mode {
        vs.selected = wi;
    }
    update(&mut m, key(Key::Char(b'e')));
    let with_union = edit(&m).candidates.clone();

    assert_eq!(
        with_union, pre_union,
        "candidate harvest is identical with vs. without the unset row"
    );
    assert_eq!(
        with_union,
        vec!["myproj".to_string(), "demo".to_string()],
        "captures are the remainders after the literal {{editor}}- prefix"
    );
}

#[test]
fn map_unchanged_preview_keeps_unset_co_var_literal() {
    let sessions = vec![tmpl_session("{editor}-myproj", "{editor}-{workspace}")];
    let mut m = Model::new(sessions);
    update(&mut m, Event::VarsFetched(vec![var("workspace", "myproj")]));
    let vs = vars(&m);
    let map = resolution_map(&vs.vars);
    assert_eq!(
        resolve_template("{editor}-{workspace}", &map),
        "{editor}-myproj",
        "unknown {{editor}} stays literal, not collapsed to -myproj"
    );
}

#[test]
fn set_but_empty_var_stays_a_set_row_through_fetch() {
    // A var with an empty value is a real (set) row, never flagged
    // unset, even when its name is referenced by a template.
    let mut m = Model::new(vec![tmpl_session("-x", "{a}-x")]);
    update(&mut m, Event::VarsFetched(vec![var("a", "")]));
    let vs = vars(&m);
    assert_eq!(vs.vars.len(), 1);
    assert!(!vs.vars[0].unset, "set-but-empty var is not flagged unset");
    assert_eq!(vs.vars[0].value, "");
}

/// Borrow the VarPromptState out of a model parked in the prompt,
/// panicking otherwise — keeps tests asserting on fields.
fn vp(m: &Model) -> &VarPromptState {
    let Mode::CreateVarPrompt(vp) = &m.mode else {
        panic!("expected Mode::CreateVarPrompt, got {:?}", m.mode);
    };
    vp
}

/// A model parked in the create-var prompt over `vars` (with no
/// pre-set co-vars), as the CreateNeedsVars handler builds it.
fn prompt_model(name: &str, names: &[&str]) -> Model {
    let mut m = Model::new(vec![]);
    update(
        &mut m,
        Event::CreateNeedsVars {
            name: name.to_string(),
            vars: names.iter().map(|s| s.to_string()).collect(),
            set_vars: Vec::new(),
        },
    );
    m
}

/// Feed a run of printable chars as individual keystrokes.
fn type_str(m: &mut Model, s: &str) {
    for b in s.bytes() {
        update(m, key(Key::Char(b)));
    }
}

#[test]
fn create_needs_vars_opens_prompt() {
    // The detect-step event opens the prompt at idx 0 with empty input
    // and carries the set-var snapshot for the preview.
    let mut m = Model::new(vec![]);
    let cmd = update(
        &mut m,
        Event::CreateNeedsVars {
            name: "{a}-{b}".into(),
            vars: vec!["a".into(), "b".into()],
            set_vars: vec![("c".into(), "see".into())],
        },
    );
    assert_eq!(cmd, None, "opening the prompt emits no command");
    let p = vp(&m);
    assert_eq!(p.name, "{a}-{b}");
    assert_eq!(p.vars, vec!["a".to_string(), "b".to_string()]);
    assert_eq!(p.idx, 0);
    assert_eq!(p.input, "");
    assert!(p.collected.is_empty());
    assert_eq!(p.set_vars, vec![("c".to_string(), "see".to_string())]);
}

#[test]
fn create_prompt_single_var_collects_then_emits() {
    // A single unknown var: type a value, Enter emits CreateWithVars
    // with the one pair and drops to Normal.
    let mut m = prompt_model("{a}-x", &["a"]);
    type_str(&mut m, "hello");
    assert_eq!(vp(&m).input, "hello", "input accumulates printable bytes");
    let cmd = update(&mut m, key(Key::Enter));
    assert_eq!(
        cmd,
        Some(Command::CreateWithVars {
            name: "{a}-x".into(),
            set_vars: vec![("a".into(), "hello".into())],
        }),
        "Enter on the last var emits the apply command with the pair"
    );
    assert_eq!(
        m.mode,
        Mode::Normal,
        "dropped to Normal at apply-emit"
    );
}

#[test]
fn create_prompt_multiple_vars_collected_in_order() {
    let mut m = prompt_model("{a}-{b}", &["a", "b"]);
    type_str(&mut m, "one");
    update(&mut m, key(Key::Enter));
    assert!(
        matches!(m.mode, Mode::CreateVarPrompt(_)),
        "still prompting after the first var"
    );
    assert_eq!(vp(&m).idx, 1, "advanced to the second var");
    assert_eq!(vp(&m).input, "", "input reset for the next var");
    assert_eq!(
        vp(&m).collected,
        vec![("a".to_string(), "one".to_string())],
        "first pair stored"
    );
    type_str(&mut m, "two");
    let cmd = update(&mut m, key(Key::Enter));
    assert_eq!(
        cmd,
        Some(Command::CreateWithVars {
            name: "{a}-{b}".into(),
            set_vars: vec![("a".into(), "one".into()), ("b".into(), "two".into())],
        }),
        "both pairs emitted in template order"
    );
    assert_eq!(m.mode, Mode::Normal);
}

#[test]
fn create_prompt_empty_entry_skips_that_var() {
    let mut m = prompt_model("{a}-{b}", &["a", "b"]);
    // Enter on empty input for 'a' -> skip it.
    update(&mut m, key(Key::Enter));
    assert_eq!(vp(&m).idx, 1, "advanced past the skipped var");
    assert!(
        vp(&m).collected.is_empty(),
        "nothing collected for the empty entry"
    );
    type_str(&mut m, "bee");
    let cmd = update(&mut m, key(Key::Enter));
    assert_eq!(
        cmd,
        Some(Command::CreateWithVars {
            name: "{a}-{b}".into(),
            set_vars: vec![("b".into(), "bee".into())],
        }),
        "only the non-empty var is in the emitted pairs"
    );
}

#[test]
fn create_prompt_all_entries_skipped_emits_empty_pair_list() {
    let mut m = prompt_model("{a}-{b}", &["a", "b"]);
    update(&mut m, key(Key::Enter)); // skip a
    let cmd = update(&mut m, key(Key::Enter)); // skip b
    assert_eq!(
        cmd,
        Some(Command::CreateWithVars {
            name: "{a}-{b}".into(),
            set_vars: vec![],
        }),
        "all-skip -> CreateWithVars with an empty set_vars list"
    );
    assert_eq!(m.mode, Mode::Normal);
}

#[test]
fn create_prompt_backspace_edits_input() {
    let mut m = prompt_model("{a}", &["a"]);
    type_str(&mut m, "abc");
    update(&mut m, key(Key::Backspace));
    assert_eq!(vp(&m).input, "ab", "Backspace removes the last char");
}

#[test]
fn create_prompt_accepts_spaces() {
    let mut m = prompt_model("{a}", &["a"]);
    type_str(&mut m, "key bugfix");
    assert_eq!(vp(&m).input, "key bugfix");
}

#[test]
fn create_prompt_esc_cancels_nothing_collected() {
    let mut m = prompt_model("{a}-{b}", &["a", "b"]);
    type_str(&mut m, "partial");
    // Esc cancels: returns to Normal (which then auto-refreshes, like
    // the CreateInput Esc path), prompt torn down, nothing set.
    let cmd = update(&mut m, key(Key::Esc));
    assert_eq!(cmd, Some(Command::Refresh));
    assert_eq!(m.mode, Mode::Normal, "Esc returns to Normal mode");
}

#[test]
fn create_prompt_ctrl_c_cancels_like_esc() {
    let mut m = prompt_model("{a}", &["a"]);
    let cmd = update(&mut m, key(Key::Ctrl(0x03)));
    assert_eq!(cmd, Some(Command::Refresh), "Ctrl-C cancels to Normal");
    assert_eq!(m.mode, Mode::Normal);
}

#[test]
fn create_prompt_arrow_keys_ignored() {
    let mut m = prompt_model("{a}", &["a"]);
    update(&mut m, key(Key::Down));
    update(&mut m, key(Key::Up));
    assert_eq!(vp(&m).input, "", "CSI/arrow keys are not typed into input");
    assert_eq!(vp(&m).idx, 0, "still on the first var");
}

#[test]
fn create_prompt_keystroke_does_not_auto_refresh() {
    // The Normal-only auto-refresh must not fire mid-prompt: typing a
    // value isn't a list-storm trigger.
    let mut m = prompt_model("{a}", &["a"]);
    assert_eq!(update(&mut m, key(Key::Char(b'x'))), None);
    // A non-final Enter (skip) also produces no command.
    let mut m2 = prompt_model("{a}-{b}", &["a", "b"]);
    assert_eq!(update(&mut m2, key(Key::Enter)), None);
}

#[test]
fn create_vars_failed_parks_error_in_normal_mode() {
    let mut m = Model::new(vec![]);
    let cmd = update(
        &mut m,
        Event::CreateVarsFailed {
            var: "b".into(),
            err: Some("not allowed".into()),
        },
    );
    assert_eq!(cmd, None);
    assert_eq!(m.mode, Mode::Normal, "error surfaces in Normal mode");
    assert_eq!(m.error.as_deref(), Some("var set b: not allowed"));
}

#[test]
fn create_vars_failed_without_stderr_uses_generic() {
    let mut m = Model::new(vec![]);
    update(
        &mut m,
        Event::CreateVarsFailed {
            var: "b".into(),
            err: Option::None,
        },
    );
    assert_eq!(m.error.as_deref(), Some("var set b failed"));
}

#[test]
fn mid_prompt_session_refresh_leaves_prompt_intact() {
    // A background refresh (events/focus) during the prompt only
    // touches the session list — mode and VarPromptState survive.
    let mut m = prompt_model("{a}-x", &["a"]);
    type_str(&mut m, "half");
    update(&mut m, Event::SessionsRefreshed(vec![mk("other")]));
    assert!(
        matches!(m.mode, Mode::CreateVarPrompt(_)),
        "still in the prompt after a refresh"
    );
    assert_eq!(vp(&m).input, "half", "the in-progress input survives");
    assert_eq!(vp(&m).idx, 0, "prompt position unchanged");
}

#[test]
fn create_prompt_first_keystroke_clears_parked_error() {
    let mut m = prompt_model("{a}", &["a"]);
    m.set_error("stale background error");
    update(&mut m, key(Key::Char(b'x')));
    assert!(m.error.is_none(), "first keystroke cleared the error");
}

#[test]
fn create_all_known_never_reaches_prompt() {
    let known = ["a", "b"];
    assert!(
        unknown_template_vars("{a}-{b}", &known).is_empty(),
        "all-known name -> no unknowns -> detect falls through to attach"
    );
}
