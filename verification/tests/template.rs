//! Session-name templates.

use shpool_table::session::{Attachment, Session};
use shpool_table::tui::template::{
    attachments_for_var, candidate_values, filter_rank, resolve_template, template_vars,
    unknown_template_vars, VarMap,
};

#[test]
fn template_vars_extracts_tokens_deduped_in_order() {
    assert_eq!(template_vars("{workspace}-edit"), vec!["workspace"]);
    assert_eq!(template_vars("{a}-{b}-{a}"), vec!["a", "b"]);
    assert_eq!(template_vars("plainsess"), Vec::<String>::new());
}

/// Build a `known` set from a slice of names, for
/// `unknown_template_vars`.
fn known<'a>(names: &[&'a str]) -> Vec<&'a str> {
    names.to_vec()
}

#[test]
fn unknown_template_vars_tokens_minus_known_order_preserved() {
    assert_eq!(
        unknown_template_vars("plainsess", &known(&[])),
        Vec::<String>::new(),
        "no tokens -> nothing unknown"
    );
    assert_eq!(
        unknown_template_vars("{a}-x", &known(&[])),
        vec!["a"],
        "one token, none known"
    );
    assert_eq!(
        unknown_template_vars("{a}-{b}-{c}", &known(&[])),
        vec!["a", "b", "c"],
        "many tokens, first-seen order"
    );
    assert_eq!(
        unknown_template_vars("{a}-{b}-{c}", &known(&["b"])),
        vec!["a", "c"],
        "a known middle var is dropped, the rest keep order"
    );
    assert_eq!(
        unknown_template_vars("{a}-{b}", &known(&["a", "b"])),
        Vec::<String>::new(),
        "all known -> nothing to prompt"
    );
    assert_eq!(
        unknown_template_vars("{a}-{b}-{a}", &known(&[])),
        vec!["a", "b"],
        "a repeated token is de-duped (template_vars order)"
    );
    // A var set to the empty string still counts as known
    // (membership, not truthiness) — must not be re-prompted. The
    // detect-time set carries the name regardless of its value.
    assert_eq!(
        unknown_template_vars("{a}-x", &known(&["a"])),
        Vec::<String>::new(),
        "a set-but-empty var is known, not prompted"
    );
}

#[test]
fn resolve_template_substitutes_known_leaves_unknown_literal() {
    let vars = vmap(&[("workspace", "newproj"), ("editor", "vim")]);
    assert_eq!(resolve_template("{workspace}-edit", &vars), "newproj-edit");
    assert_eq!(
        resolve_template("{workspace}-{editor}", &vars),
        "newproj-vim"
    );
    assert_eq!(resolve_template("{gone}-x", &vars), "{gone}-x");
}

fn attached(name: &str, template: &str, pid: u64) -> Session {
    Session {
        name: name.to_string(),
        attached: true,
        started_at_unix_ms: 0,
        last_connected_at_unix_ms: 0,
        last_disconnected_at_unix_ms: None,
        attachments: vec![Attachment {
            session_name_template: template.to_string(),
            pid,
        }],
    }
}

fn vars_sessions() -> Vec<Session> {
    vec![
        attached("myproj-edit", "{workspace}-edit", 111),
        attached("myproj-term", "{workspace}-term", 222),
        attached("vim-notes", "{editor}-notes", 333),
        attached("plainsess", "plainsess", 444),
    ]
}

#[test]
fn attachments_for_var_finds_only_referencing_attachments() {
    let sessions = vars_sessions();
    let hits = attachments_for_var(&sessions, "workspace");
    assert_eq!(hits.len(), 2);
    let mut names: Vec<&str> = hits.iter().map(|h| h.session).collect();
    names.sort();
    assert_eq!(names, vec!["myproj-edit", "myproj-term"]);
    let mut pids: Vec<u64> = hits.iter().map(|h| h.pid).collect();
    pids.sort();
    assert_eq!(pids, vec![111, 222]);
    assert_eq!(attachments_for_var(&sessions, "editor").len(), 1);
    assert_eq!(attachments_for_var(&sessions, "nope").len(), 0);
}

// -- candidate_values --

/// A detached session: exists by name, carries no attachments, so it
/// contributes a template to nobody but is still a valid match target.
fn detached(name: &str) -> Session {
    Session {
        name: name.to_string(),
        attached: false,
        started_at_unix_ms: 0,
        last_connected_at_unix_ms: 0,
        last_disconnected_at_unix_ms: None,
        attachments: Vec::new(),
    }
}

fn vmap(pairs: &[(&str, &str)]) -> VarMap {
    let mut map = VarMap::new();
    for (name, value) in pairs {
        map.insert(name, value);
    }
    map
}

#[test]
fn candidate_values_single_template_strips_prefix_suffix() {
    // demo-edit is detached but still a valid target; noise doesn't
    // fit the prefix/suffix.
    let sessions = vec![
        attached("myproj-edit", "{workspace}-edit", 1),
        detached("demo-edit"),
        detached("noise"),
    ];
    assert_eq!(
        candidate_values(&sessions, &vmap(&[("workspace", "myproj")]), "workspace"),
        vec!["myproj", "demo"],
    );
}

#[test]
fn candidate_values_unions_across_a_variables_templates() {
    let sessions = vec![
        attached("a-edit", "{w}-edit", 1),
        attached("b-term", "{w}-term", 2),
        detached("c-edit"),
    ];
    // Captures unioned across {w}-edit (a, c) then {w}-term (b),
    // current first.
    assert_eq!(
        candidate_values(&sessions, &vmap(&[("w", "a")]), "w"),
        vec!["a", "c", "b"],
    );
}

#[test]
fn candidate_values_pins_co_vars_to_current_values() {
    let sessions = vec![
        attached("vim-myproj-edit", "{editor}-{workspace}-edit", 1),
        detached("vim-demo-edit"),
        detached("nano-other-edit"), // editor != vim -> excluded
    ];
    assert_eq!(
        candidate_values(
            &sessions,
            &vmap(&[("editor", "vim"), ("workspace", "myproj")]),
            "workspace",
        ),
        vec!["myproj", "demo"],
    );
}

#[test]
fn candidate_values_delimiter_bearing_co_var_pins_literally() {
    // editor="a-b" makes the pinned prefix "a-b-"; only names with
    // that exact prefix contribute, on the literal string.
    let sessions = vec![
        attached("a-b-myproj", "{editor}-{workspace}", 1),
        detached("a-b-demo"),
        detached("a-other"), // prefix "a-b-" mismatch
    ];
    assert_eq!(
        candidate_values(
            &sessions,
            &vmap(&[("editor", "a-b"), ("workspace", "myproj")]),
            "workspace",
        ),
        vec!["myproj", "demo"],
    );
}

#[test]
fn candidate_values_bare_token_captures_every_name() {
    let sessions = vec![
        attached("alpha", "{x}", 1),
        detached("beta"),
        detached("gamma"),
    ];
    // Bare {x}: prefix and suffix both empty -> all names.
    assert_eq!(
        candidate_values(&sessions, &vmap(&[("x", "alpha")]), "x"),
        vec!["alpha", "beta", "gamma"],
    );
}

#[test]
fn candidate_values_no_attached_template_yields_current_only() {
    let sessions = vec![attached("myproj-edit", "{workspace}-edit", 1)];
    // No template references {gone} -> just the current value.
    assert_eq!(
        candidate_values(&sessions, &vmap(&[("gone", "cur")]), "gone"),
        vec!["cur"],
    );
}

#[test]
fn candidate_values_multibyte_name_is_char_safe() {
    // café-edit / naïve-edit: the strip works on characters, never
    // panicking on a byte boundary inside a multibyte char.
    let sessions = vec![attached("café-edit", "{w}-edit", 1), detached("naïve-edit")];
    let c = candidate_values(&sessions, &vmap(&[("w", "café")]), "w");
    assert_eq!(c, vec!["café", "naïve"]);
    assert_eq!(c[1].chars().count(), 5, "naïve is 5 characters");
}

#[test]
fn candidate_values_empty_capture_is_dropped() {
    // A session named exactly "-edit" would capture "" under
    // {w}-edit; that empty capture is dropped, "real" kept.
    let sessions = vec![attached("-edit", "{w}-edit", 1), detached("real-edit")];
    assert_eq!(
        candidate_values(&sessions, &vmap(&[("w", "cur")]), "w"),
        vec!["cur", "real"],
    );
}

#[test]
fn candidate_values_repeated_token_template_is_skipped() {
    let sessions = vec![attached("a-a", "{v}-{v}", 1), attached("x-y", "{v}-y", 2)];
    // {v}-{v} skipped (token appears twice); {v}-y still captures x.
    assert_eq!(
        candidate_values(&sessions, &vmap(&[("v", "a")]), "v"),
        vec!["a", "x"],
    );
}

// -- filter_rank --

fn strs(items: &[&str]) -> Vec<String> {
    items.iter().map(|s| s.to_string()).collect()
}

#[test]
fn filter_rank_ascii_case_insensitive_subsequence() {
    // Folded query matches a folded candidate; non-match dropped.
    assert_eq!(filter_rank(&strs(&["XRP", "abc"]), "xrp"), vec!["XRP"]);
}

#[test]
fn filter_rank_exact_match_sorts_to_top() {
    // The exact candidate outranks the longer subsequence matches.
    assert_eq!(
        filter_rank(&strs(&["xrpz", "xrp", "xrpa"]), "xrp"),
        vec!["xrp", "xrpz", "xrpa"],
    );
}

#[test]
fn filter_rank_contiguous_before_scattered() {
    // xrp (contains "xr") outranks xmr (scattered); djt drops out.
    assert_eq!(
        filter_rank(&strs(&["xmr", "xrp", "djt"]), "xr"),
        vec!["xrp", "xmr"],
    );
}

#[test]
fn filter_rank_sparse_subsequence_matches() {
    // k...b is a subsequence of key-bugfix; unrelated drops out.
    assert_eq!(
        filter_rank(&strs(&["key-bugfix", "unrelated"]), "kb"),
        vec!["key-bugfix"],
    );
}

#[test]
fn filter_rank_empty_query_keeps_harvest_order() {
    assert_eq!(
        filter_rank(&strs(&["c", "a", "b"]), ""),
        vec!["c", "a", "b"],
    );
}

#[test]
fn filter_rank_harvest_index_is_final_tiebreak() {
    // Both contiguous, first-match index 0, same char count -> input
    // order preserved by the harvest-index tiebreak.
    assert_eq!(
        filter_rank(&strs(&["abx", "aby"]), "ab"),
        vec!["abx", "aby"],
    );
}

#[test]
fn filter_rank_length_compared_by_chars_not_bytes() {
    // Both contain folded "x"; "Xé" is 2 chars, "aXc" is 3 chars, so
    // the multibyte 2-char candidate sorts first.
    assert_eq!(filter_rank(&strs(&["aXc", "Xé"]), "x"), vec!["Xé", "aXc"]);
}
