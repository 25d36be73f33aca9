//! What the terminal shows.

use shpool_table::age::{age_change_delay, format_age};
use shpool_table::chrome::{clip, clip_styled, render_bar, title_label, BarAlign, Label};
use shpool_table::session::{Attachment, Session};
use shpool_table::table::viewport;
use shpool_table::tui::model::{
    EditState, Mode, Model, Selection, Var, VarPromptState, VarsState,
};
use shpool_table::tui::view::{next_render_delay_ms, prompt_preview, render};

#[test]
fn view_viewport_fits() {
    assert_eq!(viewport(3, 0, 10), (0, 3));
}

#[test]
fn view_viewport_scrolls_down() {
    assert_eq!(viewport(20, 15, 5), (13, 18));
}

#[test]
fn view_viewport_clamps_to_end() {
    assert_eq!(viewport(20, 19, 5), (15, 20));
}

#[test]
fn view_viewport_centers_selected() {
    assert_eq!(viewport(20, 10, 5), (8, 13));
}

// -- Frames --

fn session(name: &str, attached: bool, touched: u64) -> Session {
    Session {
        name: name.to_string(),
        attached,
        started_at_unix_ms: 0,
        last_connected_at_unix_ms: touched,
        last_disconnected_at_unix_ms: None,
        attachments: Vec::new(),
    }
}

fn attached(name: &str, template: &str) -> Session {
    Session {
        name: name.to_string(),
        attached: true,
        started_at_unix_ms: 0,
        last_connected_at_unix_ms: 0,
        last_disconnected_at_unix_ms: None,
        attachments: vec![Attachment {
            session_name_template: template.to_string(),
            pid: 7,
        }],
    }
}

/// The frame without its styles, line by line.
fn lines(model: &Model, width: u16, height: u16, now: u64) -> Vec<String> {
    let mut out = String::new();
    render(model, width, height, now, &mut out);
    plain(&out)
}

fn plain(frame: &str) -> Vec<String> {
    let mut text = String::new();
    let mut chars = frame.chars();
    while let Some(c) = chars.next() {
        if c == '\x1b' {
            for d in chars.by_ref() {
                if d != '[' && ('\x40'..='\x7e').contains(&d) {
                    break;
                }
            }
        } else {
            text.push(c);
        }
    }
    text.split("\r\n").map(|l| l.to_string()).collect()
}

#[test]
fn frame_of_two_sessions() {
    let mut m = Model::new(vec![session("acme", false, 90_000), session("b", true, 0)]);
    m.events_active = true;
    assert_eq!(
        lines(&m, 40, 10, 100_000),
        [
            "          shpool (2 sessions)           ",
            "  name  created  active                 ",
            " >acme  1m       10s                    ",
            "* b     1m       1m                     ",
            "  j down   k up   spc attach   n new   d",
            "",
        ]
    );
}

#[test]
fn frame_is_styled_and_appended() {
    let m = Model::new(vec![]);
    let mut out = String::from("before");
    render(&m, 25, 5, 0, &mut out);
    assert!(out.starts_with(
        "before\x1b[2J\x1b[H\x1b[48;5;236m   \x1b[1;38;2;235;185;90mshpool (0 sessions)\x1b[22;39m   \
         \x1b[49m\x1b[0m\r\n\x1b[48;5;236m\x1b[38;2;130;105;75m  name  created  active  \x1b[0m\r\n  (no sessions)\r\n"
    ));
    let m = Model::new(vec![session("a", false, 0)]);
    let mut out = String::new();
    render(&m, 25, 5, 0, &mut out);
    assert!(out.contains("\x1b[7m >a     now      now     \x1b[0m\r\n"));
    assert_eq!(plain(&out)[0], "   shpool (1 session)    ");
}

#[test]
fn stale_selection_lights_nothing_up() {
    let mut m = Model::new(vec![session("a", false, 0)]);
    m.selection = Selection::Stale("gone".into());
    m.set_error("session 'gone' is gone");
    let mut out = String::new();
    render(&m, 30, 5, 0, &mut out);
    assert!(!out.contains("\x1b[7m"));
    assert_eq!(plain(&out)[3], "  ! session 'gone' is gone    ");
}

#[test]
fn long_lists_scroll_with_the_selection() {
    let sessions: Vec<Session> = (0..20).map(|i| session(&format!("s{i}"), false, 0)).collect();
    let mut m = Model::new(sessions);
    m.selection = Selection::At(19);
    let shown = lines(&m, 30, 8, 0);
    assert_eq!(shown.len(), 9);
    assert!(shown[2].starts_with("  s15 "));
    assert!(shown[6].starts_with(" >s19 "));
}

#[test]
fn bottom_bar_of_each_mode() {
    let mut m = Model::new(vec![session("a", false, 0)]);
    let bar = |m: &Model| lines(m, 80, 5, 0)[3].trim_end().to_string();
    assert_eq!(
        bar(&m),
        "  j down   k up   spc attach   n new   d kill   D daemon   v vars   q quit"
    );
    m.mode = Mode::CreateInput("foo".into());
    assert_eq!(bar(&m), "  new session: foo_   (ret: create, esc: cancel)");
    m.mode = Mode::ConfirmKill("a".into());
    assert_eq!(bar(&m), "  kill \"a\"?   (y: confirm, n: cancel)");
    m.mode = Mode::ConfirmForce("a".into());
    assert_eq!(
        bar(&m),
        "  \"a\" already attached. force-attach?   (y: force, n: cancel)"
    );
    m.set_error("boom");
    assert_eq!(bar(&m), "  ! boom");
}

#[test]
fn variable_prompt_previews_the_name_and_outranks_an_error() {
    let mut m = Model::new(vec![]);
    m.mode = Mode::CreateVarPrompt(VarPromptState {
        name: "{a}-{b}-{c}-{d}".into(),
        vars: vec!["b".into(), "c".into(), "d".into()],
        idx: 1,
        input: "cee".into(),
        collected: vec![("b".into(), "bee".into())],
        set_vars: vec![("a".into(), "ay".into())],
    });
    m.set_error("boom");
    assert_eq!(
        lines(&m, 80, 5, 0)[3].trim_end(),
        "  value of c: cee_   [ay-bee-cee-{d}]   (ret: next, esc: cancel)"
    );
    let Mode::CreateVarPrompt(vp) = &mut m.mode else {
        panic!("still prompting");
    };
    assert_eq!(prompt_preview(vp), "ay-bee-cee-{d}");
    vp.input.clear();
    assert_eq!(prompt_preview(vp), "ay-bee-{c}-{d}");
}

#[test]
fn variable_screen_lists_variables_and_what_they_govern() {
    let mut m = Model::new(vec![attached("myproj-edit", "{w}-edit")]);
    m.mode = Mode::Vars(VarsState {
        vars: vec![
            Var {
                name: "editor".into(),
                value: String::new(),
                unset: true,
            },
            Var {
                name: "w".into(),
                value: "myproj".into(),
                unset: false,
            },
        ],
        selected: 1,
        edit: None,
    });
    let mut out = String::new();
    render(&m, 40, 10, 0, &mut out);
    let shown: Vec<String> = plain(&out).iter().map(|l| l.trim_end().to_string()).collect();
    assert_eq!(
        shown,
        [
            "          shpool (2 variables)",
            "  name    value",
            "  editor  (unset)",
            " >w       myproj",
            "    myproj-edit -> myproj-edit",
            "  j down   k up   ret edit   q back",
            "",
        ]
    );
    assert!(out.contains("\x1b[38;2;130;105;75m  editor  (unset)"));
    assert!(out.contains("\x1b[7m >w       myproj"));

    if let Mode::Vars(vs) = &mut m.mode {
        vs.edit = Some(EditState {
            field: "de".into(),
            filter: "de".into(),
            candidates: vec!["myproj".into(), "demo".into()],
            highlight: 0,
        });
    }
    let shown: Vec<String> = lines(&m, 50, 10, 0)
        .iter()
        .map(|l| l.trim_end().to_string())
        .collect();
    assert_eq!(shown[2], " >demo");
    assert_eq!(shown[3], "    myproj-edit -> de-edit");
    assert_eq!(shown[4], "  set w: de_   (ret: set, esc: cancel)");
}

#[test]
fn frames_are_drawn_again_when_an_age_changes() {
    let mut m = Model::new(vec![session("a", false, 0)]);
    assert_eq!(next_render_delay_ms(&m, 0), Some(5_000));
    assert_eq!(next_render_delay_ms(&m, 5_400), Some(600));
    assert_eq!(next_render_delay_ms(&m, 61_000), Some(59_000));
    assert_eq!(next_render_delay_ms(&m, 3_600_000), Some(3_600_000));
    assert_eq!(next_render_delay_ms(&m, 86_400_001), Some(86_399_999));
    m.sessions[0].last_connected_at_unix_ms = 58_000;
    assert_eq!(next_render_delay_ms(&m, 61_000), Some(2_000));
    assert_eq!(next_render_delay_ms(&Model::new(vec![]), 0), None);
    m.mode = Mode::Vars(VarsState {
        vars: vec![],
        selected: 0,
        edit: None,
    });
    assert_eq!(next_render_delay_ms(&m, 0), None);
}

#[test]
fn delays_end_with_the_clock() {
    assert_eq!(age_change_delay(u64::MAX, u64::MAX), None);
    assert_eq!(age_change_delay(10, 1_000), Some(5_990));
}

#[test]
fn ages() {
    assert_eq!(format_age(4_999, 0), "now");
    assert_eq!(format_age(5_000, 0), "5s");
    assert_eq!(format_age(59_999, 0), "59s");
    assert_eq!(format_age(60_000, 0), "1m");
    assert_eq!(format_age(3_599_999, 0), "59m");
    assert_eq!(format_age(3_600_000, 0), "1h");
    assert_eq!(format_age(86_399_999, 0), "23h");
    assert_eq!(format_age(86_400_000, 0), "1d");
    assert_eq!(format_age(0, 1_000_000), "now");
}

#[test]
fn clipping_keeps_styles() {
    assert_eq!(clip("héllo", 3), "hél");
    assert_eq!(clip("ab", 3), "ab");
    assert_eq!(clip_styled("\x1b[1mabc\x1b[0m", 2), "\x1b[1mab");
    assert_eq!(clip_styled("\x1b[1mabc\x1b[0m", 3), "\x1b[1mabc\x1b[0m");
    assert_eq!(clip_styled("abc", 0), "");
}

#[test]
fn clipping_keeps_what_fits() {
    // Styling behind the last character that fits is kept; the next visible
    // character would be one column too many.
    let styled = "a\x1b[1mb\x1b[0mc";
    assert_eq!(clip_styled(styled, 1), "a\x1b[1m");
    assert_eq!(clip_styled(styled, 2), "a\x1b[1mb\x1b[0m");
    assert_eq!(clip_styled(styled, 3), styled);
    assert_eq!(clip_styled(styled, 4), styled);
}

#[test]
fn bars_are_as_wide_as_the_screen() {
    for width in [10u16, 19, 40] {
        for align in [BarAlign::Left, BarAlign::Center] {
            let mut out = String::new();
            render_bar(&mut out, width, &title_label(3), align);
            assert_eq!(plain(&out)[0].chars().count(), width as usize);
        }
    }
    for width in [0u16, 1] {
        let mut out = String::new();
        render_bar(&mut out, width, &title_label(3), BarAlign::Center);
        assert_eq!(plain(&out)[0].chars().count(), width as usize);
    }
}

#[test]
fn labels_count_what_shows() {
    let mut label = Label::new();
    label.push_plain("kill ");
    label.push_key("\"größe\"");
    label.push_error(" !");
    let mut out = String::new();
    render_bar(&mut out, 20, &label, BarAlign::Left);
    assert_eq!(plain(&out)[0], "  kill \"größe\" !    ");
}

#[test]
fn the_name_column_is_as_wide_as_its_longest_name() {
    let m = Model::new(vec![session("größenwahn", false, 0), session("b", false, 0)]);
    let rows = lines(&m, 40, 10, 0);
    let column = |row: &str, what: &str| row.chars().count() - row.split_once(what).unwrap().1.chars().count();
    assert_eq!(column(&rows[1], "created"), 2 + 10 + 2 + "created".len());
    assert_eq!(column(&rows[2], "now"), 2 + 10 + 2 + "now".len());
    assert_eq!(column(&rows[3], "now"), 2 + 10 + 2 + "now".len());
}
