//! The model.

use shpool_table::session::{Attachment, Session};
use shpool_table::tui::model::{
    merge_unset_vars, remerge_preserving_cursor, resolution_map, Mode, Model, Selection, Var,
    VarsState,
};

fn mk(name: &str) -> Session {
    Session {
        name: name.to_string(),
        attached: false,
        started_at_unix_ms: 0,
        last_connected_at_unix_ms: 0,
        last_disconnected_at_unix_ms: None,
        attachments: Vec::new(),
    }
}

/// A session with an explicit last-touched time, so refresh's sort
/// order is deterministic in tests that care about it.
fn mk_at(name: &str, touched: u64) -> Session {
    Session {
        name: name.to_string(),
        attached: false,
        started_at_unix_ms: touched,
        last_connected_at_unix_ms: touched,
        last_disconnected_at_unix_ms: None,
        attachments: Vec::new(),
    }
}

#[test]
fn model_select_next_wraps() {
    let mut m = Model::new(vec![mk("a"), mk("b"), mk("c")]);
    assert_eq!(m.selection, Selection::At(0));
    m.select_next();
    assert_eq!(m.selection, Selection::At(1));
    m.select_next();
    assert_eq!(m.selection, Selection::At(2));
    m.select_next();
    assert_eq!(m.selection, Selection::At(0));
}

#[test]
fn model_select_prev_wraps() {
    let mut m = Model::new(vec![mk("a"), mk("b"), mk("c")]);
    m.select_prev();
    assert_eq!(m.selection, Selection::At(2));
    m.select_prev();
    assert_eq!(m.selection, Selection::At(1));
}

#[test]
fn empty_model_has_no_selection() {
    let mut m = Model::new(vec![]);
    assert_eq!(m.selection, Selection::Nothing);
    m.select_next();
    m.select_prev();
    assert_eq!(m.selection, Selection::Nothing);
    assert_eq!(m.selected_name(), None);
    assert_eq!(m.selected_index(), None);
}

#[test]
fn nav_from_stale_lands_on_an_edge() {
    // j from "nowhere" goes to the top, k to the bottom.
    let mut m = Model::new(vec![mk("a"), mk("b"), mk("c")]);
    m.selection = Selection::Stale("gone".into());
    m.select_next();
    assert_eq!(m.selection, Selection::At(0));
    m.selection = Selection::Stale("gone".into());
    m.select_prev();
    assert_eq!(m.selection, Selection::At(2));
}

#[test]
fn refresh_preserves_selection_by_name() {
    let mut m = Model::new(vec![mk_at("a", 3), mk_at("b", 2), mk_at("c", 1)]);
    m.selection = Selection::At(2); // "c"
    // New list reorders; selection should track "c" by name.
    m.refresh(vec![mk_at("c", 9), mk_at("a", 3), mk_at("b", 2)]);
    assert_eq!(m.selected_name(), Some("c"));
    assert!(m.error.is_none());
}

#[test]
fn refresh_marks_stale_when_selected_disappears() {
    let mut m = Model::new(vec![mk("a"), mk("b"), mk("c")]);
    m.selection = Selection::At(1); // "b"
    m.refresh(vec![mk("a"), mk("c")]);
    assert_eq!(m.selection, Selection::Stale("b".into()));
    assert_eq!(m.selected_name(), None); // no wrong-session action
    assert!(m.is_stale());
    assert!(m.error.as_deref().unwrap_or("").contains("'b' is gone"));
}

#[test]
fn refresh_stale_persists_when_same_named_session_reappears() {
    // A reappeared same-named session is a recreated, different
    // instance — stay stale so the user is told the original is gone
    // rather than silently adopting the new one.
    let mut m = Model::new(vec![mk("a")]);
    m.selection = Selection::Stale("b".into());
    m.refresh(vec![mk("a"), mk("b")]);
    assert_eq!(m.selection, Selection::Stale("b".into()));
    assert_eq!(m.selected_name(), None);
}

#[test]
fn refresh_stale_persists_while_still_gone() {
    let mut m = Model::new(vec![mk("a")]);
    m.selection = Selection::Stale("b".into());
    m.refresh(vec![mk("a"), mk("c")]);
    assert_eq!(m.selection, Selection::Stale("b".into()));
}

#[test]
fn advance_off_moves_to_next_neighbor() {
    let mut m = Model::new(vec![mk("a"), mk("b"), mk("c")]);
    m.selection = Selection::At(1); // "b"
    m.advance_off("b");
    assert_eq!(m.selected_name(), Some("c"));
}

#[test]
fn advance_off_last_moves_to_previous() {
    let mut m = Model::new(vec![mk("a"), mk("b"), mk("c")]);
    m.selection = Selection::At(2); // "c"
    m.advance_off("c");
    assert_eq!(m.selected_name(), Some("b"));
}

#[test]
fn advance_off_only_session_clears() {
    let mut m = Model::new(vec![mk("solo")]);
    m.advance_off("solo");
    assert_eq!(m.selection, Selection::Nothing);
}

#[test]
fn advance_off_then_kill_refresh_is_not_stale() {
    // The point of advance_off: after moving off "b" and refreshing
    // with "b" removed, the neighbor is re-selected by name and no
    // stale alert fires for the user's own kill.
    let mut m = Model::new(vec![mk("a"), mk("b"), mk("c")]);
    m.selection = Selection::At(1); // "b"
    m.advance_off("b");
    m.refresh(vec![mk("a"), mk("c")]);
    assert_eq!(m.selected_name(), Some("c"));
    assert!(!m.is_stale());
    assert!(m.error.is_none());
}

#[test]
fn refresh_onto_empty_then_repopulated() {
    let mut m = Model::new(vec![]);
    assert_eq!(m.selection, Selection::Nothing);
    m.refresh(vec![mk("a")]);
    assert_eq!(m.selected_name(), Some("a"));
}

/// A session whose single attachment carries `tmpl`. Bare-bones: the
/// unset derivation only reads `attachments[].session_name_template`.
fn tmpl_session(name: &str, tmpl: &str) -> Session {
    Session {
        name: name.to_string(),
        attached: true,
        started_at_unix_ms: 0,
        last_connected_at_unix_ms: 0,
        last_disconnected_at_unix_ms: None,
        attachments: vec![Attachment {
            session_name_template: tmpl.to_string(),
            pid: 1,
        }],
    }
}

/// A detached session: exists by name but carries no attachments, so
/// its (notional) template is invisible to the unset derivation.
fn detached_session(name: &str) -> Session {
    mk(name)
}

/// Reconstruct a session list (Session isn't Clone, but Attachment is)
/// so a test can both seed a model and keep a copy to re-merge against.
fn clone_sessions(sessions: &[Session]) -> Vec<Session> {
    sessions
        .iter()
        .map(|s| Session {
            name: s.name.clone(),
            attached: s.attached,
            started_at_unix_ms: s.started_at_unix_ms,
            last_connected_at_unix_ms: s.last_connected_at_unix_ms,
            last_disconnected_at_unix_ms: s.last_disconnected_at_unix_ms,
            attachments: s.attachments.clone(),
        })
        .collect()
}

fn set_var(name: &str, value: &str) -> Var {
    Var {
        name: name.to_string(),
        value: value.to_string(),
        unset: false,
    }
}

fn merged_repr(vars: &[Var]) -> Vec<String> {
    vars.iter()
        .map(|v| {
            if v.unset {
                format!("{}(unset)", v.name)
            } else {
                format!("{}={}", v.name, v.value)
            }
        })
        .collect()
}

#[test]
fn merge_unset_vars_referenced_but_absent_become_unset_rows_sorted() {
    let sessions = vec![
        tmpl_session("A-x", "{a}-x"),
        tmpl_session("B-x", "{b}-x"),
        tmpl_session("C-x", "{c}-x"),
    ];
    let merged = merge_unset_vars(&vec![set_var("a", "1")], &sessions);
    assert_eq!(merged_repr(&merged), ["a=1", "b(unset)", "c(unset)"]);
}

#[test]
fn merge_unset_vars_set_and_referenced_stays_a_single_set_row() {
    let sessions = vec![tmpl_session("1-x", "{a}-x")];
    let merged = merge_unset_vars(&vec![set_var("a", "1")], &sessions);
    assert_eq!(merged_repr(&merged), ["a=1"]);
}

#[test]
fn merge_unset_vars_var_referenced_by_several_templates_yields_one_row() {
    let sessions = vec![
        tmpl_session("w-edit", "{w}-edit"),
        tmpl_session("w-term", "{w}-term"),
        tmpl_session("w-logs", "{w}-logs"),
    ];
    let merged = merge_unset_vars(&vec![], &sessions);
    assert_eq!(merged_repr(&merged), ["w(unset)"]);
}

#[test]
fn merge_unset_vars_repeated_token_within_one_template_dedups() {
    let sessions = vec![tmpl_session("a-a", "{a}-{a}")];
    let merged = merge_unset_vars(&vec![], &sessions);
    assert_eq!(merged_repr(&merged), ["a(unset)"]);
}

#[test]
fn merge_unset_vars_detached_session_surfaces_nothing() {
    let sessions = vec![
        detached_session("detached-edit"), // template invisible
        tmpl_session("plain", "plain"),    // no tokens
    ];
    let merged = merge_unset_vars(&vec![set_var("a", "1")], &sessions);
    assert_eq!(merged_repr(&merged), ["a=1"]);
}

#[test]
fn merge_unset_vars_set_but_empty_var_stays_a_set_row() {
    // The value is "", but it is a real (set) row: emptiness must not
    // be confused with unset.
    let sessions = vec![tmpl_session("-x", "{a}-x")];
    let merged = merge_unset_vars(&vec![set_var("a", "")], &sessions);
    assert_eq!(merged.len(), 1);
    assert!(!merged[0].unset, "set-but-empty var is not flagged unset");
    assert_eq!(merged[0].value, "", "value stays the empty string");
}

fn merged_vars_model(real: Vec<Var>, sessions: Vec<Session>) -> Model {
    let mut m = Model::new(sessions);
    let vars = merge_unset_vars(&real, &m.sessions);
    m.mode = Mode::Vars(VarsState {
        vars,
        selected: 0,
        edit: Option::None,
    });
    m
}

/// Borrow the VarsState out of a model parked in the vars view.
fn vs_of(m: &mut Model) -> &mut VarsState {
    match &mut m.mode {
        Mode::Vars(vs) => vs,
        _ => panic!("expected Mode::Vars"),
    }
}

#[test]
fn remerge_set_one_of_two_unset_siblings_other_survives_cursor_by_name() {
    // b and c are both unset siblings; the cursor sits on b. Replay the
    // successful-set sequence: fresh set rows (b now set), cursor
    // pointed at the promoted var, then a re-merge against the
    // (unchanged) sessions.
    let sessions = vec![tmpl_session("B-x", "{b}-x"), tmpl_session("C-x", "{c}-x")];
    let mut m = merged_vars_model(vec![], clone_sessions(&sessions));
    assert_eq!(merged_repr(&vs_of(&mut m).vars), ["b(unset)", "c(unset)"]);
    vs_of(&mut m).selected = 0; // cursor on b

    // Post-set: fresh `var list` (b promoted), cursor at the set var,
    // then a re-merge against the fresh sessions.
    let vs = vs_of(&mut m);
    vs.vars = vec![set_var("b", "foo")];
    vs.selected = vs.vars.iter().position(|v| v.name == "b").unwrap();
    remerge_preserving_cursor(vs, &sessions);

    assert_eq!(merged_repr(&vs_of(&mut m).vars), ["b=foo", "c(unset)"]);
    let vs = vs_of(&mut m);
    assert_eq!(
        vs.vars[vs.selected].name, "b",
        "cursor stays on the promoted var by name across the resort"
    );
}

#[test]
fn remerge_session_refresh_introducing_a_referencing_session_adds_the_unset_row() {
    let mut sessions = vec![tmpl_session("B-x", "{b}-x")];
    let mut m = merged_vars_model(vec![set_var("a", "1")], clone_sessions(&sessions));
    assert_eq!(merged_repr(&vs_of(&mut m).vars), ["a=1", "b(unset)"]);
    vs_of(&mut m).selected = 1; // cursor on b

    // A refresh brings in a session referencing a new var {c}.
    sessions.push(tmpl_session("C-x", "{c}-x"));
    remerge_preserving_cursor(vs_of(&mut m), &sessions);
    assert_eq!(
        merged_repr(&vs_of(&mut m).vars),
        ["a=1", "b(unset)", "c(unset)"]
    );
    let vs = vs_of(&mut m);
    assert_eq!(vs.vars[vs.selected].name, "b", "cursor held on b by name");
}

#[test]
fn remerge_refresh_dropping_the_only_referencing_session_removes_its_unset_row() {
    let sessions = vec![tmpl_session("B-x", "{b}-x"), tmpl_session("C-x", "{c}-x")];
    let mut m = merged_vars_model(vec![], sessions);
    assert_eq!(merged_repr(&vs_of(&mut m).vars), ["b(unset)", "c(unset)"]);
    vs_of(&mut m).selected = 0; // cursor on b

    // c's session goes away; only b remains referenced.
    let sessions = vec![tmpl_session("B-x", "{b}-x")];
    remerge_preserving_cursor(vs_of(&mut m), &sessions);
    assert_eq!(merged_repr(&vs_of(&mut m).vars), ["b(unset)"]);
    let vs = vs_of(&mut m);
    assert_eq!(vs.vars[vs.selected].name, "b", "cursor still on b");
}

#[test]
fn remerge_cursor_whose_variable_vanished_clamps_to_last_row() {
    let sessions = vec![tmpl_session("B-x", "{b}-x"), tmpl_session("C-x", "{c}-x")];
    let mut m = merged_vars_model(vec![], sessions); // [b(unset), c(unset)]
    vs_of(&mut m).selected = 1; // cursor on c

    let sessions = vec![tmpl_session("B-x", "{b}-x")];
    remerge_preserving_cursor(vs_of(&mut m), &sessions);
    assert_eq!(merged_repr(&vs_of(&mut m).vars), ["b(unset)"]);
    assert_eq!(vs_of(&mut m).selected, 0, "cursor clamped into bounds");
}

#[test]
fn remerge_on_an_empty_list_does_not_panic_or_conjure_a_row() {
    let sessions = vec![tmpl_session("plain", "plain")];
    let mut m = merged_vars_model(vec![], clone_sessions(&sessions));
    assert!(vs_of(&mut m).vars.is_empty(), "list starts empty");
    remerge_preserving_cursor(vs_of(&mut m), &sessions);
    assert!(
        vs_of(&mut m).vars.is_empty(),
        "still empty — no phantom row"
    );
    assert_eq!(vs_of(&mut m).selected, 0, "cursor pinned at 0");
}

#[test]
fn resolution_map_drops_unset_rows() {
    let list = vec![
        set_var("editor", "vim"),
        Var {
            name: "workspace".into(),
            value: String::new(),
            unset: true,
        },
    ];
    let map = resolution_map(&list);
    assert_eq!(map.len(), 1);
    assert_eq!(map.get("editor"), Some("vim"));
    assert_eq!(
        map.get("workspace"),
        None,
        "unset row contributes no key (no synthetic workspace=\"\")"
    );
}
