//! The bindings of normal mode.

use std::collections::HashMap;

use shpool_table::tui::keymap::{normal_action, normal_bindings, Key, NormalAction};

#[test]
fn normal_action_maps_bindings() {
    assert_eq!(normal_action(Key::Up), Some(NormalAction::SelectPrev));
    assert_eq!(normal_action(Key::Down), Some(NormalAction::SelectNext));
    assert_eq!(normal_action(Key::Enter), Some(NormalAction::AttachSelected));
    assert_eq!(normal_action(Key::Char(b' ')), Some(NormalAction::AttachSelected));
    assert_eq!(normal_action(Key::Char(b'q')), Some(NormalAction::Quit));
    assert_eq!(normal_action(Key::Char(b'Q')), Some(NormalAction::Quit));
    assert_eq!(normal_action(Key::Ctrl(0x03)), Some(NormalAction::Quit));
    assert_eq!(normal_action(Key::Char(b'n')), Some(NormalAction::NewSession));
    assert_eq!(normal_action(Key::Char(b'd')), Some(NormalAction::KillSelected));
    assert_eq!(normal_action(Key::Char(b'D')), Some(NormalAction::EnsureDaemon));
    assert_eq!(normal_action(Key::Char(b'j')), Some(NormalAction::SelectNext));
    assert_eq!(normal_action(Key::Char(b'k')), Some(NormalAction::SelectPrev));
    assert_eq!(normal_action(Key::Esc), None);
    assert_eq!(normal_action(Key::Other), None);
}

/// Guard against drift: if a new binding accidentally re-uses a
/// key already claimed by an existing binding, `normal_action`'s
/// linear scan would silently dispatch to whichever comes first
/// and the new binding would never fire. Catch that at test time.
#[test]
fn no_key_bound_to_multiple_actions() {
    let mut claimed: HashMap<Key, &'static str> = HashMap::new();
    for b in normal_bindings() {
        for k in b.keys {
            if let Some(existing) = claimed.insert(k, b.label) {
                panic!(
                    "key {:?} is bound by both [{}] and [{}] — \
                     the bindings must have disjoint keys",
                    k, existing, b.label,
                );
            }
        }
    }
}
