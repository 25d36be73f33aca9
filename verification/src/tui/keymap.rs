//! Keystrokes and the bindings of normal mode.

use vstd::prelude::*;

verus! {

/// A semantic keystroke — the parser's output vocabulary. The mode
/// handlers match on this rather than on raw bytes.
///
/// `Char(b)` carries the raw byte, so `y` and `Y` differ: case-folding is
/// done in the binding table where wanted, not at lookup time. `Ctrl(b)` is
/// kept separate from `Char`, so Ctrl-C is never confused with a printable
/// `c`. Named controls that have their own variant (Backspace, Tab, Enter)
/// don't appear as `Ctrl`.
#[derive(Debug, PartialEq, Eq, Hash, Clone, Copy, Structural)]
pub enum Key {
    // Arrows.
    Up,
    Down,
    Left,
    Right,
    // Named controls.
    Enter,
    Esc,
    Backspace,
    Tab,
    // Raw bytes.
    Ctrl(u8),
    Char(u8),
    // Anything unrecognized (unmapped CSI finals, non-ASCII bytes).
    Other,
}

/// The byte of Ctrl-C.
pub const CTRL_C: u8 = 0x03;

/// The logical actions bound to keys in normal mode.
#[derive(Debug, Clone, Copy, PartialEq, Eq, Structural)]
pub enum NormalAction {
    SelectPrev,
    SelectNext,
    AttachSelected,
    NewSession,
    KillSelected,
    EnsureDaemon,
    Variables,
    Quit,
}

/// One row of the binding table, which both the key dispatch and the footer
/// are made from.
pub struct Binding {
    pub label: &'static str,
    pub description: &'static str,
    /// Every `Key` that triggers this action, listed explicitly.
    pub keys: Vec<Key>,
    pub action: NormalAction,
}

/// What a `Binding` holds.
#[verifier::ext_equal]
pub struct BindingView {
    pub label: Seq<char>,
    pub description: Seq<char>,
    pub keys: Seq<Key>,
    pub action: NormalAction,
}

impl DeepView for Binding {
    type V = BindingView;

    open spec fn deep_view(&self) -> BindingView {
        BindingView {
            label: self.label@,
            description: self.description@,
            keys: self.keys@,
            action: self.action,
        }
    }
}

pub open spec fn char_key(c: char) -> Key {
    Key::Char(c as u8)
}

/// The bindings of normal mode, in footer order.
pub open spec fn binding_table() -> Seq<BindingView> {
    seq![
        BindingView {
            label: "j"@,
            description: "down"@,
            keys: seq![Key::Down, char_key('j'), char_key('J')],
            action: NormalAction::SelectNext,
        },
        BindingView {
            label: "k"@,
            description: "up"@,
            keys: seq![Key::Up, char_key('k'), char_key('K')],
            action: NormalAction::SelectPrev,
        },
        BindingView {
            label: "spc"@,
            description: "attach"@,
            keys: seq![char_key(' '), Key::Enter],
            action: NormalAction::AttachSelected,
        },
        BindingView {
            label: "n"@,
            description: "new"@,
            keys: seq![char_key('n'), char_key('N')],
            action: NormalAction::NewSession,
        },
        BindingView {
            label: "d"@,
            description: "kill"@,
            keys: seq![char_key('d')],
            action: NormalAction::KillSelected,
        },
        BindingView {
            label: "D"@,
            description: "daemon"@,
            keys: seq![char_key('D')],
            action: NormalAction::EnsureDaemon,
        },
        BindingView {
            label: "v"@,
            description: "vars"@,
            keys: seq![char_key('v')],
            action: NormalAction::Variables,
        },
        BindingView {
            label: "q"@,
            description: "quit"@,
            keys: seq![char_key('q'), char_key('Q'), Key::Ctrl(CTRL_C)],
            action: NormalAction::Quit,
        },
    ]
}

fn binding(
    label: &'static str,
    description: &'static str,
    keys: Vec<Key>,
    action: NormalAction,
) -> (b: Binding)
    ensures
        b.deep_view() == (BindingView {
            label: label@,
            description: description@,
            keys: keys@,
            action,
        }),
{
    Binding { label, description, keys, action }
}

/// The bindings of normal mode, in footer order.
pub fn normal_bindings() -> (bindings: Vec<Binding>)
    ensures
        bindings.deep_view() == binding_table(),
{
    let bindings = vec![
        binding(
            "j",
            "down",
            vec![Key::Down, Key::Char('j' as u8), Key::Char('J' as u8)],
            NormalAction::SelectNext,
        ),
        binding(
            "k",
            "up",
            vec![Key::Up, Key::Char('k' as u8), Key::Char('K' as u8)],
            NormalAction::SelectPrev,
        ),
        binding(
            "spc",
            "attach",
            vec![Key::Char(' ' as u8), Key::Enter],
            NormalAction::AttachSelected,
        ),
        binding(
            "n",
            "new",
            vec![Key::Char('n' as u8), Key::Char('N' as u8)],
            NormalAction::NewSession,
        ),
        binding("d", "kill", vec![Key::Char('d' as u8)], NormalAction::KillSelected),
        binding("D", "daemon", vec![Key::Char('D' as u8)], NormalAction::EnsureDaemon),
        binding("v", "vars", vec![Key::Char('v' as u8)], NormalAction::Variables),
        // Ctrl-C is a global-quit convention.
        binding(
            "q",
            "quit",
            vec![Key::Char('q' as u8), Key::Char('Q' as u8), Key::Ctrl(CTRL_C)],
            NormalAction::Quit,
        ),
    ];
    assert(bindings.deep_view() =~~= binding_table());
    bindings
}

/// The action of the first of `bindings` that `key` triggers.
pub open spec fn lookup(bindings: Seq<BindingView>, key: Key) -> Option<NormalAction>
    decreases bindings.len(),
{
    if bindings.len() == 0 {
        None
    } else if bindings[0].keys.contains(key) {
        Some(bindings[0].action)
    } else {
        lookup(bindings.drop_first(), key)
    }
}

/// The action that `key` triggers in normal mode.
pub open spec fn action_of(key: Key) -> Option<NormalAction> {
    lookup(binding_table(), key)
}

/// Footer hints for create mode: key, then what it does.
pub fn create_hints() -> (hints: Vec<(&'static str, &'static str)>)
    ensures
        hints.deep_view() == seq![("ret"@, "create"@), ("esc"@, "cancel"@)],
{
    let hints = vec![("ret", "create"), ("esc", "cancel")];
    assert(hints.deep_view() =~= seq![("ret"@, "create"@), ("esc"@, "cancel"@)]);
    hints
}

/// Footer hints for the kill prompt.
pub fn confirm_kill_hints() -> (hints: Vec<(&'static str, &'static str)>)
    ensures
        hints.deep_view() == seq![("y"@, "confirm"@), ("n"@, "cancel"@)],
{
    let hints = vec![("y", "confirm"), ("n", "cancel")];
    assert(hints.deep_view() =~= seq![("y"@, "confirm"@), ("n"@, "cancel"@)]);
    hints
}

/// Footer hints for the force-attach prompt.
pub fn confirm_force_hints() -> (hints: Vec<(&'static str, &'static str)>)
    ensures
        hints.deep_view() == seq![("y"@, "force"@), ("n"@, "cancel"@)],
{
    let hints = vec![("y", "force"), ("n", "cancel")];
    assert(hints.deep_view() =~= seq![("y"@, "force"@), ("n"@, "cancel"@)]);
    hints
}

fn has_key(keys: &Vec<Key>, key: Key) -> (r: bool)
    ensures
        r == keys@.contains(key),
{
    for i in 0..keys.len()
        invariant
            forall|j: int| 0 <= j < i ==> keys@[j] != key,
    {
        if keys[i] == key {
            return true;
        }
    }
    false
}

/// Look up which `NormalAction` (if any) a given `Key` triggers.
pub fn normal_action(key: Key) -> (action: Option<NormalAction>)
    ensures
        action == action_of(key),
{
    let bindings = normal_bindings();
    let ghost table = bindings.deep_view();
    assert(table.skip(0) =~= table);
    for i in 0..bindings.len()
        invariant
            table == bindings.deep_view(),
            table == binding_table(),
            lookup(table, key) == lookup(table.skip(i as int), key),
    {
        assert(table.skip(i as int).drop_first() =~= table.skip(i + 1));
        assert(table.skip(i as int)[0] == bindings@[i as int].deep_view());
        if has_key(&bindings[i].keys, key) {
            return Some(bindings[i].action);
        }
    }
    None
}

/// What the binding table amounts to, key by key.
pub proof fn actions_by_key(key: Key)
    ensures
        action_of(key) == match key {
            Key::Down => Some(NormalAction::SelectNext),
            Key::Up => Some(NormalAction::SelectPrev),
            Key::Enter => Some(NormalAction::AttachSelected),
            Key::Ctrl(b) => if b == CTRL_C {
                Some(NormalAction::Quit)
            } else {
                None
            },
            Key::Char(b) => if b == 'j' as u8 || b == 'J' as u8 {
                Some(NormalAction::SelectNext)
            } else if b == 'k' as u8 || b == 'K' as u8 {
                Some(NormalAction::SelectPrev)
            } else if b == ' ' as u8 {
                Some(NormalAction::AttachSelected)
            } else if b == 'n' as u8 || b == 'N' as u8 {
                Some(NormalAction::NewSession)
            } else if b == 'd' as u8 {
                Some(NormalAction::KillSelected)
            } else if b == 'D' as u8 {
                Some(NormalAction::EnsureDaemon)
            } else if b == 'v' as u8 {
                Some(NormalAction::Variables)
            } else if b == 'q' as u8 || b == 'Q' as u8 {
                Some(NormalAction::Quit)
            } else {
                None
            },
            _ => None,
        },
{
    let t = binding_table();
    assert(t[0].keys[0] == Key::Down && t[0].keys[1] == char_key('j') && t[0].keys[2] == char_key(
        'J',
    ));
    assert(t[1].keys[0] == Key::Up && t[1].keys[1] == char_key('k') && t[1].keys[2] == char_key(
        'K',
    ));
    assert(t[2].keys[0] == char_key(' ') && t[2].keys[1] == Key::Enter);
    assert(t[3].keys[0] == char_key('n') && t[3].keys[1] == char_key('N'));
    assert(t[4].keys[0] == char_key('d'));
    assert(t[5].keys[0] == char_key('D'));
    assert(t[6].keys[0] == char_key('v'));
    assert(t[7].keys[0] == char_key('q') && t[7].keys[1] == char_key('Q') && t[7].keys[2]
        == Key::Ctrl(CTRL_C));
    reveal_with_fuel(lookup, 9);
    assert(t.drop_first()[0] == t[1]);
    assert(t.drop_first().drop_first()[0] == t[2]);
    assert(t.drop_first().drop_first().drop_first()[0] == t[3]);
    let u = t.drop_first().drop_first().drop_first().drop_first();
    assert(u[0] == t[4]);
    assert(u.drop_first()[0] == t[5]);
    assert(u.drop_first().drop_first()[0] == t[6]);
    assert(u.drop_first().drop_first().drop_first()[0] == t[7]);
}

/// No key is claimed by two bindings, so the order of the table decides nothing.
pub proof fn bindings_are_disjoint(i: int, j: int, key: Key)
    requires
        0 <= i < binding_table().len(),
        0 <= j < binding_table().len(),
        binding_table()[i].keys.contains(key),
        binding_table()[j].keys.contains(key),
    ensures
        i == j,
        action_of(key) == Some(binding_table()[i].action),
{
    actions_by_key(key);
}

}
