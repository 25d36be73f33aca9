//! What the interface promises, on given values.

use shpool_table::age::format_age;
use shpool_table::order::stable_sort;
use shpool_table::session::{Attachment, Session};
use shpool_table::tui::command::Command;
use shpool_table::tui::event::Event;
use shpool_table::tui::keymap::Key;
use shpool_table::tui::model::{
    merge_unset_vars, remerge_preserving_cursor, Mode, Model, Selection, Var, VarsState,
};
use shpool_table::tui::template::{
    candidate_values, filter_rank, resolve_template, unknown_template_vars, VarMap,
};
use shpool_table::tui::update::update;

fn at(name: &str, touched: u64) -> Session {
    Session {
        name: name.to_string(),
        attached: false,
        started_at_unix_ms: 0,
        last_connected_at_unix_ms: touched,
        last_disconnected_at_unix_ms: None,
        attachments: Vec::new(),
    }
}

fn with_template(name: &str, template: &str) -> Session {
    Session {
        attachments: vec![Attachment {
            session_name_template: template.to_string(),
            pid: 1,
        }],
        ..at(name, 0)
    }
}

fn var(name: &str, value: &str) -> Var {
    Var {
        name: name.to_string(),
        value: value.to_string(),
        unset: false,
    }
}

#[test]
fn refresh_sorts_stably_by_activity() {
    let mut m = Model::new(vec![]);
    m.refresh(vec![at("a", 1), at("b", 2), at("c", 1), at("d", 2)]);
    let names: Vec<&str> = m.sessions.iter().map(|s| s.name.as_str()).collect();
    assert_eq!(names, ["b", "d", "a", "c"]);
}

#[test]
fn steps_undo_each_other() {
    let mut m = Model::new(vec![at("a", 0), at("b", 0), at("c", 0)]);
    m.select_next();
    m.select_prev();
    assert_eq!(m.selection, Selection::At(0));
    m.select_prev();
    m.select_next();
    assert_eq!(m.selection, Selection::At(0));
    let mut m = Model::new(vec![]);
    m.mode = Mode::Vars(VarsState {
        vars: vec![var("a", ""), var("b", "")],
        selected: 1,
        edit: None,
    });
    update(&mut m, Event::Key(Key::Down));
    update(&mut m, Event::Key(Key::Up));
    assert!(matches!(&m.mode, Mode::Vars(vs) if vs.selected == 1));
}

#[test]
fn killing_the_only_session_clears_the_selection() {
    let mut m = Model::new(vec![at("a", 0)]);
    m.mode = Mode::ConfirmKill("a".into());
    assert_eq!(
        update(&mut m, Event::Key(Key::Char(b'Y'))),
        Some(Command::Kill("a".into()))
    );
    update(&mut m, Event::SessionsRefreshed(vec![]));
    assert_eq!(m.selection, Selection::Nothing);
    assert!(m.error.is_none());
}

#[test]
fn failed_attach_keeps_its_error_through_the_refresh() {
    let mut m = Model::new(vec![at("a", 0)]);
    update(
        &mut m,
        Event::AttachExited {
            ok: false,
            name: "a".into(),
        },
    );
    update(&mut m, Event::SessionsRefreshed(vec![at("a", 0)]));
    assert_eq!(m.error.as_deref(), Some("shpool attach a failed"));
    update(&mut m, Event::Key(Key::Esc));
    assert!(m.error.is_none());
}

#[test]
fn kill_failure_without_detail_is_said() {
    let mut m = Model::new(vec![]);
    update(
        &mut m,
        Event::KillFinished {
            ok: false,
            name: "a".into(),
            err: None,
        },
    );
    assert_eq!(m.error.as_deref(), Some("kill a failed"));
}

#[test]
fn duplicate_names_are_refused_by_name() {
    let mut m = Model::new(vec![at("main", 0)]);
    m.mode = Mode::CreateInput("main".into());
    update(&mut m, Event::Key(Key::Enter));
    assert_eq!(m.error.as_deref(), Some("session 'main' already exists"));
}

#[test]
fn resolving_without_values_changes_nothing() {
    let none = VarMap::new();
    for t in ["", "plain", "{a}-{b}", "{", "{}", "{a", "a}", "{{a}}", "{a-b}", "é{x}é"] {
        assert_eq!(resolve_template(t, &none), t);
    }
}

#[test]
fn resolving_looks_at_mentioned_variables_only() {
    let mut a = VarMap::new();
    a.insert("x", "1");
    let mut b = VarMap::new();
    b.insert("y", "2");
    b.insert("x", "0");
    b.insert("x", "1");
    assert_eq!(resolve_template("{x}{{x}}{1_a}", &a), "1{1}{1_a}");
    assert_eq!(
        resolve_template("{x}{{x}}{1_a}", &a),
        resolve_template("{x}{{x}}{1_a}", &b)
    );
    assert_eq!(b.len(), 2);
    assert_eq!(b.get("x"), Some("1"));
    assert_eq!(b.get("z"), None);
}

#[test]
fn nothing_is_unknown_when_everything_is_known() {
    assert!(unknown_template_vars("{a}{b}{a}", &["b", "a", "c"]).is_empty());
    assert_eq!(unknown_template_vars("{a}{b}{a}", &["c"]), ["a", "b"]);
}

#[test]
fn candidates_resolve_to_sessions() {
    let sessions = vec![
        with_template("vim-p-edit", "{e}-{w}-edit"),
        at("vim-q-edit", 0),
        at("nano-r-edit", 0),
    ];
    let mut vars = VarMap::new();
    vars.insert("e", "vim");
    vars.insert("w", "p");
    let cands = candidate_values(&sessions, &vars, "w");
    assert_eq!(cands, ["p", "q"]);
    for c in cands {
        vars.insert("w", &c);
        let name = resolve_template("{e}-{w}-edit", &vars);
        assert!(sessions.iter().any(|s| s.name == name));
    }
}

#[test]
fn ranking_shows_matches_only_and_exact_ones_first() {
    let cands: Vec<String> = ["XbA", "ab", "xab", "AB", "b"]
        .iter()
        .map(|s| s.to_string())
        .collect();
    assert_eq!(filter_rank(&cands, "ab"), ["ab", "AB", "xab"]);
    assert_eq!(filter_rank(&cands, ""), cands);
    assert!(filter_rank(&cands, "zz").is_empty());
}

#[test]
fn merging_again_changes_nothing() {
    let sessions = vec![with_template("x", "{b}-{a}-{c}")];
    let mut vs = VarsState {
        vars: merge_unset_vars(&vec![var("c", "3"), var("a", "1")], &sessions),
        selected: 1,
        edit: None,
    };
    let names: Vec<&str> = vs.vars.iter().map(|v| v.name.as_str()).collect();
    assert_eq!(names, ["a", "b", "c"]);
    let before = vs.clone();
    remerge_preserving_cursor(&mut vs, &sessions);
    assert_eq!(vs, before);
}

#[test]
fn coming_back_highlights_the_session() {
    let mut m = Model::new(vec![at("a", 0), at("b", 0)]);
    update(
        &mut m,
        Event::AttachExited {
            ok: true,
            name: "b".into(),
        },
    );
    assert_eq!(m.selected_name(), Some("b"));
    update(&mut m, Event::SessionsRefreshed(vec![at("b", 9), at("a", 0)]));
    assert_eq!(m.selected_name(), Some("b"));
}

#[test]
fn quit_works_while_stale() {
    let mut m = Model::new(vec![at("a", 0)]);
    m.selection = Selection::Stale("gone".into());
    assert_eq!(
        update(&mut m, Event::Key(Key::Ctrl(0x03))),
        Some(Command::Quit)
    );
}

#[test]
fn cancel_leaves_the_variables_in_two_steps() {
    let mut m = Model::new(vec![]);
    m.mode = Mode::Vars(VarsState {
        vars: vec![var("a", "1")],
        selected: 0,
        edit: None,
    });
    update(&mut m, Event::Key(Key::Enter));
    update(&mut m, Event::Key(Key::Ctrl(0x03)));
    assert!(matches!(&m.mode, Mode::Vars(vs) if vs.edit.is_none()));
    update(&mut m, Event::Key(Key::Ctrl(0x03)));
    assert_eq!(m.mode, Mode::Normal);
}

#[test]
fn cursor_goes_round() {
    for start in 0..3usize {
        for k in 0..8usize {
            let mut m = Model::new(vec![at("a", 3), at("b", 2), at("c", 1)]);
            m.selection = Selection::At(start);
            for _ in 0..k {
                m.select_next();
            }
            assert_eq!(m.selection, Selection::At((start + k) % 3));
        }
    }
}

#[test]
fn updates_keep_the_flags_of_the_loop() {
    for (quit, active) in [(false, true), (true, false)] {
        let mut m = Model::new(vec![at("a", 0)]);
        m.quit = quit;
        m.events_active = active;
        update(&mut m, Event::Key(Key::Char(b'q')));
        update(&mut m, Event::EventsArrived);
        update(&mut m, Event::SessionsRefreshed(vec![]));
        update(&mut m, Event::AttachExited { ok: true, name: "a".into() });
        assert_eq!((m.quit, m.events_active), (quit, active));
    }
}

fn by_name(names: &[(&str, &str)]) -> Vec<Var> {
    names.iter().map(|(n, v)| var(n, v)).collect()
}

#[test]
fn sorting_has_one_outcome() {
    let items = by_name(&[("b", "1"), ("a", "2"), ("b", "3"), ("", "4"), ("ab", "5")]);
    let sorted = by_name(&[("", "4"), ("a", "2"), ("ab", "5"), ("b", "1"), ("b", "3")]);
    assert_eq!(stable_sort(items.clone()), sorted);
    assert_eq!(stable_sort(sorted.clone()), sorted);
    // A part sorted first.
    let mut part = stable_sort(items[..3].to_vec());
    part.extend_from_slice(&items[3..]);
    assert_eq!(stable_sort(part), sorted);
    // Some left out, before or after.
    let keep = |v: &Var| v.name.len() != 1 || v.value == "3";
    let before: Vec<Var> = items.iter().filter(|v| keep(v)).cloned().collect();
    let after: Vec<Var> = sorted.iter().filter(|v| keep(v)).cloned().collect();
    assert_eq!(stable_sort(before), after);
    // Mapped, before or after, without a change of rank.
    let mark = |v: &Var| var(&v.name, &format!("{}!", v.value));
    let before: Vec<Var> = items.iter().map(mark).collect();
    let after: Vec<Var> = sorted.iter().map(mark).collect();
    assert_eq!(stable_sort(before), after);
}

#[test]
fn a_query_is_found_wherever_it_can_be() {
    // The first `a` is taken, and the rest still has a `b` and a `c`.
    let cands: Vec<String> = ["aabxc", "acb", "xaxbxc"].iter().map(|s| s.to_string()).collect();
    assert_eq!(filter_rank(&cands, "abc"), ["aabxc", "xaxbxc"]);
}

#[test]
fn ages_tell_apart_and_fit() {
    const DAY: u64 = 86_400_000;
    let ages = [0, 5_000, 59_000, 60_000, 3_540_000, 3_600_000, 23 * 3_600_000, DAY, 99_999 * DAY];
    let shown: Vec<String> = ages.iter().map(|a| format_age(100_000 * DAY, 100_000 * DAY - a)).collect();
    assert_eq!(shown, ["now", "5s", "59s", "1m", "59m", "1h", "23h", "1d", "99999d"]);
    assert!(shown.iter().all(|s| s.len() <= "active".len()));
}
