//! The `shpool` command line.

use shpool_table::session::{Attachment, Session};
use shpool_table::shell::{
    attach_cmd, call_failed_message, ensure_daemon_cmd, events_cmd, kill_cmd, list_cmd,
    list_sessions, list_vars, parse_var_list, preflight_attach, print_list_cmd, set_var,
    shell_kill, var_list_cmd, var_set_cmd, Flags, Preflight, SessionListing, VarListing,
};
use shpool_table::text::{lines_of, trim};
use shpool_table::tui::model::Var;

fn session(name: &str, attached: bool) -> Session {
    Session {
        name: name.to_string(),
        attached,
        started_at_unix_ms: 0,
        last_connected_at_unix_ms: 0,
        last_disconnected_at_unix_ms: None,
        attachments: vec![Attachment {
            session_name_template: name.to_string(),
            pid: 1,
        }],
    }
}

fn var(name: &str, value: &str) -> Var {
    Var {
        name: name.to_string(),
        value: value.to_string(),
        unset: false,
    }
}

#[test]
fn attach_cmd_guards_dash_led_name() {
    let flags = Flags::default();
    assert_eq!(attach_cmd("-sh", false, &flags), ["attach", "--", "-sh"]);
    assert_eq!(
        attach_cmd("-sh", true, &flags),
        ["attach", "-f", "--", "-sh"]
    );
}

#[test]
fn kill_cmd_guards_dash_led_name() {
    let flags = Flags::default();
    assert_eq!(kill_cmd("-sh", &flags), ["kill", "--", "-sh"]);
}

#[test]
fn var_set_cmd_guards_dash_led_value() {
    let flags = Flags::default();
    assert_eq!(
        var_set_cmd("coin", "-xmr", &flags),
        ["var", "set", "--", "coin", "-xmr"]
    );
}

#[test]
fn flags_apply_nothing_when_default() {
    let flags = Flags::default();
    let mut args: Vec<String> = Vec::new();
    flags.apply(&mut args);
    assert!(args.is_empty());
}

#[test]
fn flags_apply_all_fields() {
    let flags = Flags {
        config_file: Some("/etc/shpool/custom.toml".into()),
        log_file: Some("/var/log/shpool.log".into()),
        verbose: 2,
        socket: Some("/tmp/shpool.sock".into()),
    };
    let mut args: Vec<String> = Vec::new();
    flags.apply(&mut args);
    // Exact order + presence check. Duplicated -v for verbose=2.
    assert_eq!(
        args,
        vec![
            "--config-file",
            "/etc/shpool/custom.toml",
            "--log-file",
            "/var/log/shpool.log",
            "-v",
            "-v",
            "--socket",
            "/tmp/shpool.sock",
        ],
    );
}

#[test]
fn flags_precede_subcommand() {
    let flags = Flags {
        config_file: Some("/c".into()),
        log_file: Some("/l".into()),
        verbose: 1,
        socket: Some("/s".into()),
    };
    let args = list_cmd(&flags);
    let list_pos = args.iter().position(|a| a == "list").expect("list present");
    for flag in ["--config-file", "--log-file", "-v", "--socket"] {
        let pos = args.iter().position(|a| a == flag).expect(flag);
        assert!(
            pos < list_pos,
            "{flag} must come before `list`; got {args:?}"
        );
    }
    // Behind the subcommand's own arguments stands what the user named.
    let args = kill_cmd("-v", &flags);
    assert_eq!(args.len(), 10);
    assert_eq!(args[7..], ["kill", "--", "-v"]);
}

#[test]
fn fixed_calls() {
    let flags = Flags::default();
    assert_eq!(list_cmd(&flags), ["list", "--json"]);
    assert_eq!(
        ensure_daemon_cmd(&flags),
        ["--daemonize", "list", "--json"]
    );
    assert_eq!(print_list_cmd(&flags), ["list"]);
    assert_eq!(events_cmd(&flags), ["events"]);
    assert_eq!(var_list_cmd(&flags), ["var", "list"]);
}

#[test]
fn var_list_is_read_line_by_line_and_sorted() {
    let vars = parse_var_list("workspace\tmyproj\n\neditor\tvim\r\nempty\t\nbare\ntabs\ta\tb");
    assert_eq!(
        vars,
        vec![
            var("bare", ""),
            var("editor", "vim"),
            var("empty", ""),
            var("tabs", "a\tb"),
            var("workspace", "myproj"),
        ]
    );
    assert!(parse_var_list("").is_empty());
}

#[test]
fn printed_variables_come_back() {
    let vars = vec![var("b", "two words"), var("a", ""), var("c", "x\ty")];
    let mut printed = String::new();
    for v in &vars {
        printed.push_str(&format!("{}\t{}\n", v.name, v.value));
    }
    assert_eq!(
        parse_var_list(&printed),
        vec![var("a", ""), var("b", "two words"), var("c", "x\ty")]
    );
}

#[test]
fn lines_end_at_newlines_only() {
    assert_eq!(lines_of("a\nb\r\n\nc\r"), ["a", "b", "", "c\r"]);
    assert_eq!(lines_of("a\n"), ["a"]);
    assert!(lines_of("").is_empty());
    assert_eq!(lines_of("\n"), [""]);
}

#[test]
fn trim_takes_white_space_off_both_ends() {
    assert_eq!(trim(" \t\r\n a b \n"), "a b");
    assert_eq!(trim("\u{a0}\u{2003}x\u{3000}"), "x");
    assert_eq!(trim("   "), "");
    assert_eq!(trim("\u{200b}x"), "\u{200b}x");
}

#[test]
fn listings_come_out_as_sessions_or_messages() {
    let messages: Vec<String> = vec![
        SessionListing::NotRun,
        SessionListing::Failed {
            stderr: b" no daemon\n".to_vec(),
        },
        SessionListing::Unreadable,
    ]
    .into_iter()
    .map(|l| list_sessions(l).unwrap_err())
    .collect();
    assert_eq!(
        messages,
        [
            "running `shpool list --json`",
            "`shpool list --json` failed: no daemon",
            "parsing shpool list JSON",
        ]
    );
    let sessions = list_sessions(SessionListing::Listed(vec![session("a", false)])).unwrap();
    assert_eq!(sessions.len(), 1);
    assert_eq!(sessions[0].name, "a");
}

#[test]
fn variable_listings_come_out_as_variables_or_messages() {
    assert_eq!(
        list_vars(VarListing::NotRun),
        Err("running `shpool var list`".to_string())
    );
    assert_eq!(
        list_vars(VarListing::Failed {
            stderr: b"boom".to_vec()
        }),
        Err("`shpool var list` failed: boom".to_string())
    );
    assert_eq!(
        list_vars(VarListing::Printed {
            stdout: "w\tcafé\n".as_bytes().to_vec()
        }),
        Ok(vec![var("w", "café")])
    );
    // Bytes that are no UTF-8 stand as replacement characters.
    assert_eq!(
        list_vars(VarListing::Printed {
            stdout: b"w\t\xff\n".to_vec()
        }),
        Ok(vec![var("w", "\u{fffd}")])
    );
}

#[test]
fn call_failures_say_what_was_printed() {
    assert_eq!(call_failed_message("`x`", " y \n"), "`x` failed: y");
}

#[test]
fn var_set_errors() {
    assert_eq!(set_var(true, "noise"), None);
    assert_eq!(set_var(false, "  \n"), None);
    assert_eq!(set_var(false, " bad name\n"), Some("bad name".to_string()));
}

#[test]
fn kill_errors() {
    assert_eq!(shell_kill("a", true, "noise"), None);
    assert_eq!(
        shell_kill("a", false, " \n"),
        Some("kill a failed".to_string())
    );
    assert_eq!(
        shell_kill("a", false, "not found\n"),
        Some("kill a: not found".to_string())
    );
}

#[test]
fn preflight_tells_the_three_cases_apart() {
    let sessions = vec![session("a", false), session("b", true)];
    assert_eq!(
        preflight_attach(&sessions, "a", false),
        Preflight::ClearToAttach
    );
    assert_eq!(
        preflight_attach(&sessions, "b", false),
        Preflight::AttachedElsewhere
    );
    assert_eq!(
        preflight_attach(&sessions, "b", true),
        Preflight::ClearToAttach
    );
    assert_eq!(preflight_attach(&sessions, "c", false), Preflight::Gone);
    assert_eq!(preflight_attach(&sessions, "c", true), Preflight::Gone);
}

#[test]
fn flags_start_out_empty_and_copy_as_they_are() {
    let none = Flags::default();
    assert_eq!(none.config_file, None);
    assert_eq!(none.log_file, None);
    assert_eq!(none.verbose, 0);
    assert_eq!(none.socket, None);
    let some = Flags {
        verbose: 2,
        socket: Some("/s".into()),
        ..Flags::default()
    };
    assert_eq!(list_cmd(&some.clone()), list_cmd(&some));
    assert_ne!(list_cmd(&some), list_cmd(&none));
}

#[test]
fn output_is_read_as_the_text_it_encodes() {
    let printed = "größe\t日本\n";
    assert_eq!(
        list_vars(VarListing::Printed {
            stdout: printed.as_bytes().to_vec(),
        }),
        Ok(vec![var("größe", "日本")])
    );
    assert_eq!(
        list_vars(VarListing::Failed {
            stderr: "für nichts\n".as_bytes().to_vec(),
        }),
        Err("`shpool var list` failed: für nichts".to_string())
    );
    let failed = SessionListing::Failed {
        stderr: "für nichts\n".as_bytes().to_vec(),
    };
    assert_eq!(
        list_sessions(failed).unwrap_err(),
        "`shpool list --json` failed: für nichts"
    );
}
