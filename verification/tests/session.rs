//! Sessions as the daemon lists them.

use serde_json::Value;

use shpool_table::session::{attached_from_status, position_of, ListReply, Session};
use shpool_table::shell::{list_sessions, SessionListing};

/// Reads the wire format, and takes what it lists in as the reply of a call.
fn read_list(json: &str) -> ListReply {
    let reply: Value = serde_json::from_str(json).unwrap();
    let sessions = reply["sessions"].as_array().unwrap();
    let listed: Vec<Session> = sessions
        .iter()
        .map(|s| Session {
            name: s["name"].as_str().unwrap().to_string(),
            attached: attached_from_status(s["status"].as_str().unwrap()),
            started_at_unix_ms: s["started_at_unix_ms"].as_u64().unwrap(),
            last_connected_at_unix_ms: s["last_connected_at_unix_ms"].as_u64().unwrap(),
            last_disconnected_at_unix_ms: s["last_disconnected_at_unix_ms"].as_u64(),
            attachments: Vec::new(),
        })
        .collect();
    ListReply {
        sessions: list_sessions(SessionListing::Listed(listed)).unwrap(),
    }
}

#[test]
fn parse_shpool_list_json() {
    let json = r#"{
        "sessions": [
            {
                "name": "main",
                "started_at_unix_ms": 1000,
                "last_connected_at_unix_ms": 2000,
                "last_disconnected_at_unix_ms": null,
                "status": "Attached"
            },
            {
                "name": "build",
                "started_at_unix_ms": 500,
                "last_connected_at_unix_ms": 500,
                "last_disconnected_at_unix_ms": 1500,
                "status": "Disconnected"
            }
        ]
    }"#;
    let reply = read_list(json);
    assert_eq!(reply.sessions.len(), 2);
    assert_eq!(reply.sessions[0].name, "main");
    assert!(reply.sessions[0].attached);
    assert_eq!(reply.sessions[0].last_active_unix_ms(), 2000);
    assert_eq!(reply.sessions[1].name, "build");
    assert!(!reply.sessions[1].attached);
    assert_eq!(reply.sessions[1].last_active_unix_ms(), 1500);
}

#[test]
fn parse_unknown_status_is_not_attached() {
    let json = r#"{
        "sessions": [{
            "name": "x",
            "started_at_unix_ms": 0,
            "last_connected_at_unix_ms": 0,
            "last_disconnected_at_unix_ms": null,
            "status": "Frozen"
        }]
    }"#;
    let reply = read_list(json);
    assert!(!reply.sessions[0].attached);
}

#[test]
fn parse_empty_sessions() {
    let json = r#"{"sessions": []}"#;
    let reply = read_list(json);
    assert!(reply.sessions.is_empty());
    assert_eq!(position_of(&reply.sessions, ""), None);
}

#[test]
fn parse_ignores_extra_fields() {
    let json = r#"{
        "sessions": [{
            "name": "x",
            "started_at_unix_ms": 0,
            "last_connected_at_unix_ms": 0,
            "last_disconnected_at_unix_ms": null,
            "status": "Attached",
            "extra": true
        }],
        "unknown_top_level": 42
    }"#;
    let reply = read_list(json);
    assert_eq!(reply.sessions.len(), 1);
    assert_eq!(position_of(&reply.sessions, "x"), Some(0));
    assert!(reply.sessions[0].attached);
}

fn at(started: u64, connected: u64, disconnected: Option<u64>) -> Session {
    Session {
        name: "s".to_string(),
        attached: false,
        started_at_unix_ms: started,
        last_connected_at_unix_ms: connected,
        last_disconnected_at_unix_ms: disconnected,
        attachments: Vec::new(),
    }
}

#[test]
fn last_active_is_the_latest_transition() {
    assert_eq!(at(3, 2, Some(1)).last_active_unix_ms(), 3);
    assert_eq!(at(1, 2, Some(3)).last_active_unix_ms(), 3);
    assert_eq!(at(1, 3, Some(2)).last_active_unix_ms(), 3);
    assert_eq!(at(1, 0, None).last_active_unix_ms(), 1);
}

#[test]
fn position_is_by_name() {
    let mut sessions = vec![at(0, 0, None), at(0, 0, None)];
    sessions[1].name = "t".to_string();
    assert_eq!(position_of(&sessions, "t"), Some(1));
    assert_eq!(position_of(&sessions, "s"), Some(0));
    assert_eq!(position_of(&sessions, "u"), None);
}
