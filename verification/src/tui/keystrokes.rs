//! What every key does, mode by mode, and what every other event does.

use vstd::prelude::*;

use super::command::CommandView;
use super::event::EventView;
use super::keymap;
use super::keymap::Key;
use super::model;
use super::model::{
    EditView, ModeView, ModelView, SelectionView, VarPromptView, VarView, VarsView,
};
use super::template;
use super::update;
use crate::order;
use crate::session;
use crate::session::{Session, SessionView};
use crate::text;

verus! {

// -- Keys --

/// The key of the printable character `c`.
pub open spec fn letter(key: Key, c: char) -> bool {
    key == Key::Char(c as u8)
}

/// Esc or Ctrl-C.
pub open spec fn backs_out(key: Key) -> bool {
    key == Key::Esc || key == Key::Ctrl(0x03)
}

/// The arrow down or its letter.
pub open spec fn goes_down(key: Key) -> bool {
    key == Key::Down || letter(key, 'j') || letter(key, 'J')
}

/// The arrow up or its letter.
pub open spec fn goes_up(key: Key) -> bool {
    key == Key::Up || letter(key, 'k') || letter(key, 'K')
}

/// Space or Enter.
pub open spec fn goes_in(key: Key) -> bool {
    letter(key, ' ') || key == Key::Enter
}

/// Session `name` is in some row.
pub open spec fn in_some_row(m: ModelView, name: Seq<char>) -> bool {
    exists|i: int| 0 <= i < m.sessions.len() && (#[trigger] m.sessions[i]).name == name
}

/// The cursor is on a row with session `name`.
pub open spec fn highlights(m: ModelView, name: Seq<char>) -> bool {
    m.selection matches SelectionView::At(i) && 0 <= i < m.sessions.len() && m.sessions[i].name
        == name
}

/// The refresh that a key has go out that asks for nothing else: none while
/// a subscription keeps the list current.
pub open spec fn fallback(m: ModelView) -> Option<CommandView> {
    if m.events_active {
        None
    } else {
        Some(CommandView::Refresh)
    }
}

/// The same list and flags.
pub open spec fn same_list(a: ModelView, b: ModelView) -> bool {
    a.sessions == b.sessions && a.quit == b.quit && a.events_active == b.events_active
}

/// No key changes the list of sessions or the flags of the main loop. Only in
/// the session list itself, and at a kill prompt, does one move the cursor.
pub proof fn keys_leave_the_list_alone(m: ModelView, key: Key)
    ensures
        same_list(update::updated(m, EventView::Key(key)).0, m),
        m.mode !is Normal && m.mode !is ConfirmKill ==> update::updated(
            m,
            EventView::Key(key),
        ).0.selection == m.selection,
{
    keymap::actions_by_key(key);
}

/// Any key takes the error down, but for one that the selection has gone
/// stale over: that one stays until the user is back in the session list.
pub proof fn keys_take_errors_down(m: ModelView, key: Key)
    requires
        !(m.mode is CreateInput && key == Key::Enter),
    ensures
        ({
            let after = update::updated(m, EventView::Key(key)).0;
            &&& m.selection !is Stale || m.mode is Normal ==> after.error is None
            &&& m.selection is Stale && m.mode !is Normal ==> after.error == m.error
        }),
{
    keymap::actions_by_key(key);
}

// -- In the session list --

/// One row down, from the last one to the first; from nowhere to the first.
pub proof fn down_keys_go_down(m: ModelView, key: Key)
    requires
        m.mode is Normal,
        goes_down(key),
        m.selection matches SelectionView::At(i) ==> 0 <= i < m.sessions.len(),
    ensures
        ({
            let (after, cmd) = update::updated(m, EventView::Key(key));
            let n = m.sessions.len();
            &&& after.mode is Normal
            &&& cmd == fallback(m)
            &&& n == 0 ==> after.selection is Nothing
            &&& n > 0 && m.selection !is At ==> after.selection == SelectionView::At(0)
            &&& m.selection matches SelectionView::At(i) ==> after.selection == SelectionView::At(
                if i == n - 1 {
                    0
                } else {
                    i + 1
                },
            )
        }),
{
    keymap::actions_by_key(key);
    if let SelectionView::At(i) = m.selection {
        let n = m.sessions.len() as int;
        if i == n - 1 {
            vstd::arithmetic::div_mod::lemma_mod_self_0(n);
        } else {
            vstd::arithmetic::div_mod::lemma_small_mod((i + 1) as nat, n as nat);
        }
    }
}

/// One row up, from the first one to the last; from nowhere to the last.
pub proof fn up_keys_go_up(m: ModelView, key: Key)
    requires
        m.mode is Normal,
        goes_up(key),
        m.selection matches SelectionView::At(i) ==> 0 <= i < m.sessions.len(),
    ensures
        ({
            let (after, cmd) = update::updated(m, EventView::Key(key));
            let n = m.sessions.len();
            &&& after.mode is Normal
            &&& cmd == fallback(m)
            &&& n == 0 ==> after.selection is Nothing
            &&& n > 0 && m.selection !is At ==> after.selection == SelectionView::At(n - 1)
            &&& m.selection matches SelectionView::At(i) ==> after.selection == SelectionView::At(
                if i == 0 {
                    n - 1
                } else {
                    i - 1
                },
            )
        }),
{
    keymap::actions_by_key(key);
}

/// Space and Enter attach to the session under the cursor, without force; with
/// no session there, they attach to none.
pub proof fn attach_keys_attach(m: ModelView, key: Key)
    requires
        m.mode is Normal,
        goes_in(key),
        m.selection !is Stale,
    ensures
        ({
            let (after, cmd) = update::updated(m, EventView::Key(key));
            &&& after.mode is Normal
            &&& after.selection == m.selection
            &&& forall|name: Seq<char>|
                highlights(m, name) ==> cmd == Some(CommandView::Attach { name, force: false })
            &&& (forall|name: Seq<char>| !highlights(m, name)) ==> cmd == fallback(m)
        }),
{
    keymap::actions_by_key(key);
    if let SelectionView::At(i) = m.selection {
        if 0 <= i < m.sessions.len() {
            assert(highlights(m, m.sessions[i].name));
        }
    }
}

/// `d` asks whether to kill the session under the cursor, and kills nothing
/// yet; with no session there, it asks nothing.
pub proof fn kill_key_asks(m: ModelView)
    requires
        m.mode is Normal,
        m.selection !is Stale,
    ensures
        ({
            let (after, cmd) = update::updated(m, EventView::Key(Key::Char('d' as u8)));
            &&& after.selection == m.selection
            &&& forall|name: Seq<char>|
                highlights(m, name) ==> after.mode == ModeView::ConfirmKill(name) && cmd is None
            &&& (forall|name: Seq<char>| !highlights(m, name)) ==> after.mode is Normal && cmd
                == fallback(m)
        }),
{
    keymap::actions_by_key(Key::Char('d' as u8));
    if let SelectionView::At(i) = m.selection {
        if 0 <= i < m.sessions.len() {
            assert(highlights(m, m.sessions[i].name));
        }
    }
}

/// A kill prompt opens only on `d`, and only for the session that is
/// highlighted.
pub proof fn kill_prompts_are_for_the_highlighted(m: ModelView, event: EventView, name: Seq<char>)
    requires
        m.mode !is ConfirmKill,
        update::updated(m, event).0.mode == ModeView::ConfirmKill(name),
    ensures
        event == EventView::Key(Key::Char('d' as u8)),
        m.mode is Normal,
        m.selection !is Stale,
        highlights(m, name),
{
    if let EventView::Key(key) = event {
        keymap::actions_by_key(key);
    }
}

/// A kill that is asked for and granted is the kill of the session that was
/// highlighted: `d`, then `y`.
pub proof fn kills_strike_the_highlighted(m: ModelView, name: Seq<char>)
    requires
        m.mode is Normal,
        m.selection !is Stale,
        highlights(m, name),
    ensures
        ({
            let asked = update::updated(m, EventView::Key(Key::Char('d' as u8))).0;
            let (after, cmd) = update::updated(asked, EventView::Key(Key::Char('y' as u8)));
            &&& cmd == Some(CommandView::Kill(name))
            &&& after.mode is Normal
            &&& asked.sessions == m.sessions && after.sessions == m.sessions
        }),
{
    keymap::actions_by_key(Key::Char('d' as u8));
}

/// `n` and `N` ask for the name of a new session, starting from none.
pub proof fn new_keys_ask_for_a_name(m: ModelView, key: Key)
    requires
        m.mode is Normal,
        letter(key, 'n') || letter(key, 'N'),
    ensures
        ({
            let (after, cmd) = update::updated(m, EventView::Key(key));
            &&& after.mode == ModeView::CreateInput(Seq::empty())
            &&& cmd is None
            &&& m.selection !is Stale ==> after.selection == m.selection
            &&& m.selection is Stale ==> after.selection is Nothing
        }),
{
    keymap::actions_by_key(key);
}

/// `D` ensures that a daemon runs, `v` has the variables fetched, and `q`, `Q`
/// and Ctrl-C quit.
pub proof fn command_keys_command(m: ModelView, key: Key)
    requires
        m.mode is Normal,
    ensures
        ({
            let (after, cmd) = update::updated(m, EventView::Key(key));
            &&& letter(key, 'D') <==> cmd == Some(CommandView::EnsureDaemon)
            &&& letter(key, 'v') <==> cmd == Some(CommandView::FetchVars)
            &&& letter(key, 'q') || letter(key, 'Q') || key == Key::Ctrl(0x03) <==> cmd == Some(
                CommandView::Quit,
            )
            &&& cmd == Some(CommandView::EnsureDaemon) || cmd == Some(CommandView::FetchVars)
                || cmd == Some(CommandView::Quit) ==> after.mode is Normal && (m.selection !is Stale
                ==> after.selection == m.selection) && (m.selection is Stale
                ==> after.selection is Nothing)
        }),
{
    keymap::actions_by_key(key);
}

/// Quitting, starting a daemon and fetching the variables are never done but
/// from the session list.
pub proof fn commands_come_from_the_list(m: ModelView, event: EventView)
    requires
        m.mode !is Normal || event !is Key,
    ensures
        update::updated(m, event).1 != Some(CommandView::Quit),
        update::updated(m, event).1 != Some(CommandView::EnsureDaemon),
        update::updated(m, event).1 != Some(CommandView::FetchVars),
{
}

/// Every other key does nothing in the session list, but for the refresh.
pub proof fn other_keys_do_nothing(m: ModelView, key: Key)
    requires
        m.mode is Normal,
        m.selection !is Stale,
        !goes_down(key) && !goes_up(key) && !goes_in(key),
        !letter(key, 'n') && !letter(key, 'N') && !letter(key, 'd') && !letter(key, 'D'),
        !letter(key, 'v') && !letter(key, 'q') && !letter(key, 'Q') && key != Key::Ctrl(0x03),
    ensures
        update::updated(m, EventView::Key(key)) == (
            (ModelView { error: None, ..m }),
            fallback(m),
        ),
{
    keymap::actions_by_key(key);
}

/// While the selection is stale, a key that would strike it or that has no
/// meaning puts the cursor on the first row, and does nothing else.
pub proof fn stale_keys_acknowledge(m: ModelView, key: Key)
    requires
        m.mode is Normal,
        m.selection is Stale,
        !goes_down(key) && !goes_up(key),
        !letter(key, 'n') && !letter(key, 'N') && !letter(key, 'D'),
        !letter(key, 'v') && !letter(key, 'q') && !letter(key, 'Q') && key != Key::Ctrl(0x03),
    ensures
        update::updated(m, EventView::Key(key)) == (
            (ModelView {
                error: None,
                selection: if m.sessions.len() == 0 {
                    SelectionView::Nothing
                } else {
                    SelectionView::At(0)
                },
                ..m
            }),
            fallback(m),
        ),
{
    keymap::actions_by_key(key);
}

// -- Typing the name of a new session --

/// Every printable character but the space goes into the name; a space does
/// not.
pub proof fn typing_appends(m: ModelView, name: Seq<char>, b: u8)
    requires
        m.mode == ModeView::CreateInput(name),
    ensures
        ({
            let (after, cmd) = update::updated(m, EventView::Key(Key::Char(b)));
            &&& cmd is None
            &&& after.mode == ModeView::CreateInput(
                if b == 0x20 {
                    name
                } else {
                    name + seq![b as char]
                },
            )
        }),
{
    assert(name.push(b as char) =~= name + seq![b as char]);
}

/// Backspace takes the last character back; Esc and Ctrl-C give the name up;
/// keys that type nothing leave it as it is.
pub proof fn typing_is_edited(m: ModelView, name: Seq<char>, key: Key)
    requires
        m.mode == ModeView::CreateInput(name),
        key !is Char,
        key != Key::Enter,
    ensures
        ({
            let (after, cmd) = update::updated(m, EventView::Key(key));
            &&& backs_out(key) ==> after.mode is Normal && cmd == fallback(m)
            &&& !backs_out(key) ==> cmd is None
            &&& key == Key::Backspace && name.len() > 0 ==> after.mode == ModeView::CreateInput(
                name.take(name.len() - 1),
            )
            &&& (key == Key::Backspace && name.len() == 0) || (key != Key::Backspace && !backs_out(
                key,
            )) ==> after.mode == m.mode
        }),
{
    if name.len() > 0 {
        assert(name.drop_last() =~= name.take(name.len() - 1));
    }
}

/// Enter creates a session under the name as it stands. It does not under no
/// name at all, nor under one that is taken, and then it says so.
pub proof fn enter_creates_what_was_typed(m: ModelView, name: Seq<char>)
    requires
        m.mode == ModeView::CreateInput(name),
    ensures
        ({
            let (after, cmd) = update::updated(m, EventView::Key(Key::Enter));
            &&& after.mode is Normal
            &&& name.len() > 0 && !in_some_row(m, name) <==> cmd == Some(CommandView::Create(name))
            &&& name.len() == 0 || in_some_row(m, name) ==> cmd == fallback(m)
            &&& name.len() > 0 && in_some_row(m, name) ==> after.error == Some(
                "session '"@ + name + "' already exists"@,
            )
            &&& !(name.len() > 0 && in_some_row(m, name)) ==> after.error == if m.selection is Stale {
                m.error
            } else {
                None
            }
        }),
{
    let names = session::names(m.sessions);
    if in_some_row(m, name) {
        let i = choose|i: int|
            0 <= i < m.sessions.len() && (#[trigger] m.sessions[i]).name == name;
        assert(names[i] == name);
    }
    if names.contains(name) {
        let i = choose|i: int| 0 <= i < names.len() && names[i] == name;
        assert(m.sessions[i].name == name);
    }
}

/// The model after a run of keys.
pub open spec fn after_keys(m: ModelView, keys: Seq<Key>) -> ModelView
    decreases keys.len(),
{
    if keys.len() == 0 {
        m
    } else {
        update::updated(after_keys(m, keys.drop_last()), EventView::Key(keys.last())).0
    }
}

/// The keys of a run of characters.
pub open spec fn keys_of(bytes: Seq<u8>) -> Seq<Key> {
    bytes.map_values(|b: u8| Key::Char(b))
}

/// The characters of `bytes`.
pub open spec fn chars_typed(bytes: Seq<u8>) -> Seq<char> {
    bytes.map_values(|b: u8| b as char)
}

proof fn typing_a_run(m: ModelView, bytes: Seq<u8>)
    requires
        m.mode == ModeView::CreateInput(Seq::empty()),
        forall|i: int| 0 <= i < bytes.len() ==> #[trigger] bytes[i] != 0x20,
    ensures
        after_keys(m, keys_of(bytes)).mode == ModeView::CreateInput(chars_typed(bytes)),
        after_keys(m, keys_of(bytes)).sessions == m.sessions,
    decreases bytes.len(),
{
    if bytes.len() == 0 {
        assert(chars_typed(bytes) =~= Seq::empty());
    } else {
        let rest = bytes.drop_last();
        assert forall|i: int| 0 <= i < rest.len() implies #[trigger] rest[i] != 0x20 by {
            assert(bytes[i] != 0x20);
        }
        typing_a_run(m, rest);
        assert(bytes[bytes.len() - 1] != 0x20);
        assert(keys_of(bytes).drop_last() =~= keys_of(rest));
        assert(chars_typed(bytes) =~= chars_typed(rest) + seq![bytes.last() as char]);
        typing_appends(after_keys(m, keys_of(rest)), chars_typed(rest), bytes.last());
        keys_leave_the_list_alone(after_keys(m, keys_of(rest)), Key::Char(bytes.last()));
    }
}

/// A new session gets exactly the name that was typed for it, whatever
/// characters but spaces it is made of: `n`, the name, and Enter.
pub proof fn sessions_are_named_as_typed(m: ModelView, bytes: Seq<u8>)
    requires
        m.mode is Normal,
        bytes.len() > 0,
        forall|i: int| 0 <= i < bytes.len() ==> #[trigger] bytes[i] != 0x20,
        !in_some_row(m, chars_typed(bytes)),
    ensures
        ({
            let asked = update::updated(m, EventView::Key(Key::Char('n' as u8))).0;
            let typed = after_keys(asked, keys_of(bytes));
            update::updated(typed, EventView::Key(Key::Enter)).1 == Some(
                CommandView::Create(chars_typed(bytes)),
            )
        }),
{
    new_keys_ask_for_a_name(m, Key::Char('n' as u8));
    keys_leave_the_list_alone(m, Key::Char('n' as u8));
    let asked = update::updated(m, EventView::Key(Key::Char('n' as u8))).0;
    typing_a_run(asked, bytes);
    let typed = after_keys(asked, keys_of(bytes));
    assert(in_some_row(typed, chars_typed(bytes)) == in_some_row(m, chars_typed(bytes)));
    enter_creates_what_was_typed(typed, chars_typed(bytes));
}

// -- Answering prompts --

/// `y` and `Y` at a kill prompt kill the session that it is about, and step
/// off its row: to the next one, from the last to the one before, and from
/// the only one to nowhere. A cursor that is elsewhere stays there.
pub proof fn yes_kills(m: ModelView, name: Seq<char>, key: Key)
    requires
        m.mode == ModeView::ConfirmKill(name),
        letter(key, 'y') || letter(key, 'Y'),
    ensures
        ({
            let (after, cmd) = update::updated(m, EventView::Key(key));
            let n = m.sessions.len();
            &&& cmd == Some(CommandView::Kill(name))
            &&& after.mode is Normal
            &&& !highlights(m, name) ==> after.selection == m.selection
            &&& highlights(m, name) ==> (m.selection matches SelectionView::At(i)
                && after.selection == if n == 1 {
                SelectionView::Nothing
            } else if i == n - 1 {
                SelectionView::At(n - 2)
            } else {
                SelectionView::At(i + 1)
            })
        }),
{
}

/// `y` and `Y` at a force prompt attach to the session that it is about, with
/// force.
pub proof fn yes_forces(m: ModelView, name: Seq<char>, key: Key)
    requires
        m.mode == ModeView::ConfirmForce(name),
        letter(key, 'y') || letter(key, 'Y'),
    ensures
        update::updated(m, EventView::Key(key)).1 == Some(CommandView::Attach { name, force: true }),
        update::updated(m, EventView::Key(key)).0.mode is Normal,
{
}

/// `n`, `N`, Esc and Ctrl-C drop a prompt with nothing done; any other key
/// but a yes leaves it up.
pub proof fn no_drops_the_prompt(m: ModelView, key: Key)
    requires
        m.mode is ConfirmKill || m.mode is ConfirmForce,
        !letter(key, 'y') && !letter(key, 'Y'),
    ensures
        ({
            let (after, cmd) = update::updated(m, EventView::Key(key));
            &&& after.selection == m.selection
            &&& if letter(key, 'n') || letter(key, 'N') || backs_out(key) {
                after.mode is Normal && cmd == fallback(m)
            } else {
                after.mode == m.mode && cmd is None
            }
        }),
{
}

// -- Giving variables their values for a new session --

/// Every printable character goes into the value, the space too.
pub proof fn values_are_typed(m: ModelView, vp: VarPromptView, b: u8)
    requires
        m.mode == ModeView::CreateVarPrompt(vp),
    ensures
        ({
            let (after, cmd) = update::updated(m, EventView::Key(Key::Char(b)));
            &&& cmd is None
            &&& after.mode == ModeView::CreateVarPrompt(
                VarPromptView { input: vp.input + seq![b as char], ..vp },
            )
        }),
{
    assert(vp.input.push(b as char) =~= vp.input + seq![b as char]);
}

/// Backspace takes the last character of the value back; Esc and Ctrl-C give
/// the whole session up; keys that type nothing change nothing.
pub proof fn values_are_edited(m: ModelView, vp: VarPromptView, key: Key)
    requires
        m.mode == ModeView::CreateVarPrompt(vp),
        key !is Char,
        key != Key::Enter,
    ensures
        ({
            let (after, cmd) = update::updated(m, EventView::Key(key));
            &&& backs_out(key) ==> after.mode is Normal && cmd == fallback(m)
            &&& !backs_out(key) ==> cmd is None
            &&& key == Key::Backspace && vp.input.len() > 0 ==> after.mode
                == ModeView::CreateVarPrompt(
                VarPromptView { input: vp.input.take(vp.input.len() - 1), ..vp },
            )
            &&& (key == Key::Backspace && vp.input.len() == 0) || (key != Key::Backspace
                && !backs_out(key)) ==> after.mode == m.mode
        }),
{
    if vp.input.len() > 0 {
        assert(vp.input.drop_last() =~= vp.input.take(vp.input.len() - 1));
    }
}

/// Enter takes the value in for the variable that is being asked for, if
/// there is any, and goes on to the next variable with a blank field; behind
/// the last one, the session is created with all that was given.
pub proof fn enter_takes_the_value_in(m: ModelView, vp: VarPromptView)
    requires
        m.mode == ModeView::CreateVarPrompt(vp),
        0 <= vp.idx < vp.vars.len(),
    ensures
        ({
            let (after, cmd) = update::updated(m, EventView::Key(Key::Enter));
            let given = if vp.input.len() == 0 {
                vp.collected
            } else {
                vp.collected + seq![(vp.vars[vp.idx], vp.input)]
            };
            if vp.idx == vp.vars.len() - 1 {
                &&& after.mode is Normal
                &&& cmd == Some(CommandView::CreateWithVars { name: vp.name, set_vars: given })
            } else {
                &&& cmd is None
                &&& after.mode matches ModeView::CreateVarPrompt(next) && next.name == vp.name
                    && next.vars == vp.vars && next.idx == vp.idx + 1 && next.input.len() == 0
                    && next.collected == given && next.set_vars == vp.set_vars
            }
        }),
{
    if vp.input.len() > 0 {
        let pair = (vp.vars[vp.idx], vp.input);
        assert(vp.collected.push(pair) =~= vp.collected + seq![pair]);
    }
}

/// A session is created with variables only from their prompt.
pub proof fn variables_are_asked_for_first(
    m: ModelView,
    event: EventView,
    name: Seq<char>,
    set_vars: Seq<(Seq<char>, Seq<char>)>,
)
    requires
        update::updated(m, event).1 == Some(CommandView::CreateWithVars { name, set_vars }),
    ensures
        event == EventView::Key(Key::Enter),
        m.mode matches ModeView::CreateVarPrompt(vp) && vp.name == name && vp.idx + 1
            == vp.vars.len(),
{
    if let EventView::Key(key) = event {
        keymap::actions_by_key(key);
    }
}

// -- Among the variables --

/// While browsing, the arrows and their letters go from row to row, round
/// both ends; `q`, Esc and Ctrl-C go back to the sessions; keys without a
/// meaning change nothing; and none has any command go out but a refresh.
pub proof fn browsing_keys_browse(m: ModelView, vs: VarsView, key: Key)
    requires
        m.mode == ModeView::Vars(vs),
        vs.edit is None,
        vs.selected == 0 || 0 < vs.selected < vs.vars.len(),
        key != Key::Enter && !letter(key, 'e'),
    ensures
        ({
            let (after, cmd) = update::updated(m, EventView::Key(key));
            let n = vs.vars.len();
            if backs_out(key) || letter(key, 'q') {
                after.mode is Normal && cmd == fallback(m)
            } else {
                &&& cmd is None
                &&& after.mode matches ModeView::Vars(next) && next.vars == vs.vars
                    && next.edit is None && next.selected == if n == 0 {
                    vs.selected
                } else if goes_down(key) {
                    if vs.selected == n - 1 {
                        0
                    } else {
                        vs.selected + 1
                    }
                } else if goes_up(key) {
                    if vs.selected == 0 {
                        n - 1
                    } else {
                        vs.selected - 1
                    }
                } else {
                    vs.selected
                }
            }
        }),
{
    let n = vs.vars.len() as int;
    if n > 0 {
        if vs.selected == n - 1 {
            vstd::arithmetic::div_mod::lemma_mod_self_0(n);
        } else {
            vstd::arithmetic::div_mod::lemma_small_mod((vs.selected + 1) as nat, n as nat);
        }
        if vs.selected == 0 {
            vstd::arithmetic::div_mod::lemma_fundamental_div_mod_converse(-1, n, -1, n - 1);
        } else {
            vstd::arithmetic::div_mod::lemma_small_mod((vs.selected - 1) as nat, n as nat);
        }
    }
}

/// Enter and `e` open the value selector on the variable under the cursor:
/// its field and filter blank, the highlight on top, the candidates those of
/// the variable. With no variable there, they do nothing.
pub proof fn selector_opens_on_the_variable(m: ModelView, vs: VarsView, key: Key)
    requires
        m.mode == ModeView::Vars(vs),
        vs.edit is None,
        key == Key::Enter || letter(key, 'e'),
    ensures
        ({
            let (after, cmd) = update::updated(m, EventView::Key(key));
            &&& cmd is None
            &&& after.mode matches ModeView::Vars(next) && next.vars == vs.vars && next.selected
                == vs.selected && if 0 <= vs.selected < vs.vars.len() {
                next.edit matches Some(edit) && edit.field.len() == 0 && edit.filter.len() == 0
                    && edit.highlight == 0 && edit.candidates == template::candidates_for(
                    m.sessions,
                    model::resolution(vs.vars),
                    vs.vars[vs.selected].name,
                )
            } else {
                next.edit is None
            }
        }),
{
}

/// Typing into the selector, or taking back, changes the field, and the list
/// follows: it is filtered by what stands in the field then, and the
/// highlight is back on top.
pub proof fn selector_follows_the_field(m: ModelView, vs: VarsView, edit: EditView, key: Key)
    requires
        m.mode == ModeView::Vars(vs),
        vs.edit == Some(edit),
        key is Char || key == Key::Backspace,
    ensures
        ({
            let (after, cmd) = update::updated(m, EventView::Key(key));
            &&& cmd is None
            &&& after.mode matches ModeView::Vars(next) && next.vars == vs.vars && next.selected
                == vs.selected && (next.edit matches Some(e) && e.candidates == edit.candidates
                && e.filter == e.field && e.highlight == 0 && match key {
                Key::Char(b) => e.field == edit.field + seq![b as char],
                _ => if edit.field.len() == 0 {
                    e.field.len() == 0
                } else {
                    e.field == edit.field.take(edit.field.len() - 1)
                },
            })
        }),
{
    if let Key::Char(b) = key {
        assert(edit.field.push(b as char) =~= edit.field + seq![b as char]);
    } else if edit.field.len() > 0 {
        assert(edit.field.drop_last() =~= edit.field.take(edit.field.len() - 1));
    }
}

/// The arrows go through the list that is shown, row by row, and stop at its
/// ends; what they come to is copied into the field. The list stays as it is,
/// for the filter does.
pub proof fn selector_arrows_pick(m: ModelView, vs: VarsView, edit: EditView, key: Key)
    requires
        m.mode == ModeView::Vars(vs),
        vs.edit == Some(edit),
        key == Key::Up || key == Key::Down,
        edit.wf(),
    ensures
        ({
            let (after, cmd) = update::updated(m, EventView::Key(key));
            let shown = template::shown_for(edit.candidates, edit.filter);
            &&& cmd is None
            &&& after.mode matches ModeView::Vars(next) && next.vars == vs.vars && next.selected
                == vs.selected && (next.edit matches Some(e) && e.candidates == edit.candidates
                && e.filter == edit.filter && if shown.len() == 0 {
                e == edit
            } else {
                &&& e.field == shown[e.highlight]
                &&& e.highlight == if key == Key::Down && edit.highlight < shown.len() - 1 {
                    edit.highlight + 1
                } else if key == Key::Up && edit.highlight > 0 {
                    edit.highlight - 1
                } else {
                    edit.highlight
                }
            })
        }),
{
}

/// Enter sets the variable under the cursor to what stands in the field, or,
/// if nothing does, to the candidate that is highlighted. The selector stays
/// up until the outcome is in.
pub proof fn selector_enter_sets(m: ModelView, vs: VarsView, edit: EditView)
    requires
        m.mode == ModeView::Vars(vs),
        vs.edit == Some(edit),
        0 <= vs.selected < vs.vars.len(),
    ensures
        ({
            let (after, cmd) = update::updated(m, EventView::Key(Key::Enter));
            let shown = template::shown_for(edit.candidates, edit.filter);
            let value = if edit.field.len() > 0 {
                edit.field
            } else if 0 <= edit.highlight < shown.len() {
                shown[edit.highlight]
            } else {
                Seq::empty()
            };
            &&& cmd == Some(CommandView::SetVar { name: vs.vars[vs.selected].name, value })
            &&& after.mode matches ModeView::Vars(next) && next.vars == vs.vars && next.selected
                == vs.selected && (next.edit matches Some(e) && e.candidates == edit.candidates
                && e.filter == edit.filter && e.highlight == edit.highlight && e.field.len() == 0)
        }),
{
}

/// Esc and Ctrl-C close the selector and set nothing; other keys without a
/// meaning change nothing.
pub proof fn selector_is_left(m: ModelView, vs: VarsView, edit: EditView, key: Key)
    requires
        m.mode == ModeView::Vars(vs),
        vs.edit == Some(edit),
        key !is Char && key != Key::Backspace && key != Key::Enter && key != Key::Up && key
            != Key::Down,
    ensures
        update::updated(m, EventView::Key(key)).1 is None,
        update::updated(m, EventView::Key(key)).0.mode == if backs_out(key) {
            ModeView::Vars(VarsView { vars: vs.vars, selected: vs.selected, edit: None })
        } else {
            m.mode
        },
{
}

// -- What comes from outside --

/// The message that session `name` is gone.
pub open spec fn says_gone(msg: Seq<char>, name: Seq<char>) -> bool {
    msg == "session '"@ + name + "' is gone"@
}

/// A fresh list takes the place of the old one. The cursor stays with its
/// session, wherever that is listed now; if it is not, the selection is stale,
/// and the user is told. A stale selection stays so. With nothing selected,
/// the cursor goes to the first row there is.
#[verifier::rlimit(40)]
pub proof fn refreshes_are_taken_in(m: ModelView, fresh: Seq<SessionView>)
    ensures
        ({
            let (after, cmd) = update::updated(m, EventView::SessionsRefreshed(fresh));
            &&& cmd is None
            &&& after.quit == m.quit && after.events_active == m.events_active
            &&& after.sessions.to_multiset() == fresh.to_multiset()
            &&& forall|name: Seq<char>|
                highlights(m, name) ==> (if in_some_row(after, name) {
                    highlights(after, name)
                } else {
                    after.selection == SelectionView::Stale(name)
                })
            &&& m.selection is Stale ==> after.selection == m.selection
            &&& m.selection is Nothing ==> after.selection == if fresh.len() == 0 {
                SelectionView::Nothing
            } else {
                SelectionView::At(0)
            }
        }),
{
    let sessions = order::sorted(fresh, order::ranking::<Session>());
    super::laws::activity_is_a_ranking();
    order::sorting_is_stable(fresh, order::ranking::<Session>());
    fresh.to_multiset_ensures();
    sessions.to_multiset_ensures();
    let names = session::names(sessions);
    let after = update::updated(m, EventView::SessionsRefreshed(fresh)).0;
    assert(after.sessions == sessions);
    assert forall|name: Seq<char>| highlights(m, name) implies (if in_some_row(after, name) {
        highlights(after, name)
    } else {
        after.selection == SelectionView::Stale(name)
    }) by {
        text::position_exists(names, name);
        if in_some_row(after, name) {
            let i = choose|i: int|
                0 <= i < after.sessions.len() && (#[trigger] after.sessions[i]).name == name;
            assert(names[i] == name);
            let at = text::position(names, name)->0;
            assert(names[at] == name);
        }
        if names.contains(name) {
            let i = choose|i: int| 0 <= i < names.len() && names[i] == name;
            assert(after.sessions[i].name == name);
        }
    }
}

/// The order of the rows is that of the sessions' latest times: their
/// creation, the last time someone connected, or the last time someone
/// disconnected. The latest comes first.
pub proof fn rows_are_in_order_of_activity(
    m: ModelView,
    fresh: Seq<SessionView>,
    i: int,
    j: int,
    a: u64,
    b: u64,
)
    requires
        ({
            let rows = update::updated(m, EventView::SessionsRefreshed(fresh)).0.sessions;
            &&& 0 <= i < j < rows.len()
            &&& session::is_latest(rows[i], a)
            &&& session::is_latest(rows[j], b)
        }),
    ensures
        a >= b,
{
    super::laws::refresh_lists_what_came_back(m, fresh);
    let rows = update::updated(m, EventView::SessionsRefreshed(fresh)).0.sessions;
    assert(rows[i].last_active() >= rows[j].last_active());
}

/// A refresh says of at most one session that it is gone: of the one that a
/// prompt was about, else of the one that was highlighted. Otherwise the error
/// stays what it was.
pub proof fn refreshes_say_what_is_gone(m: ModelView, fresh: Seq<SessionView>)
    ensures
        ({
            let after = update::updated(m, EventView::SessionsRefreshed(fresh)).0;
            let target = match m.mode {
                ModeView::ConfirmKill(name) => Some(name),
                ModeView::ConfirmForce(name) => Some(name),
                _ => None,
            };
            if target matches Some(name) && !in_some_row(after, name) {
                &&& after.mode is Normal
                &&& after.error matches Some(msg) && says_gone(msg, target->0)
            } else {
                &&& m.mode !is Vars ==> after.mode == m.mode
                &&& m.mode is Vars ==> after.mode is Vars
                &&& if after.selection is Stale && m.selection !is Stale {
                    after.error matches Some(msg) && says_gone(msg, after.selection->Stale_0)
                } else {
                    after.error == m.error
                }
            }
        }),
{
    let sessions = order::sorted(fresh, order::ranking::<Session>());
    let names = session::names(sessions);
    let after = update::updated(m, EventView::SessionsRefreshed(fresh)).0;
    assert(after.sessions == sessions);
    assert forall|name: Seq<char>| in_some_row(after, name) == #[trigger] names.contains(name) by {
        if in_some_row(after, name) {
            let i = choose|i: int|
                0 <= i < after.sessions.len() && (#[trigger] after.sessions[i]).name == name;
            assert(names[i] == name);
        }
        if names.contains(name) {
            let i = choose|i: int| 0 <= i < names.len() && names[i] == name;
            assert(after.sessions[i].name == name);
        }
    }
}

/// Focus has the list refreshed unless a subscription keeps it current; an
/// event of the subscription always does. Neither changes the model.
pub proof fn wake_ups_refresh(m: ModelView)
    ensures
        update::updated(m, EventView::FocusGained) == (m, fallback(m)),
        update::updated(m, EventView::EventsArrived) == (m, Some(CommandView::Refresh)),
{
}

/// A list that could not be had is said, and changes nothing else; so are
/// variables that could not be had or set.
pub proof fn failures_are_said(
    m: ModelView,
    msg: Seq<char>,
    var: Seq<char>,
    err: Option<Seq<char>>,
)
    ensures
        update::updated(m, EventView::RefreshFailed(msg)) == (
            (ModelView { error: Some("shpool list: "@ + msg), ..m }),
            None::<CommandView>,
        ),
        update::updated(m, EventView::VarsFetchFailed(msg)) == (
            (ModelView { error: Some("shpool var list: "@ + msg), ..m }),
            None::<CommandView>,
        ),
        update::updated(m, EventView::CreateVarsFailed { var, err }) == (
            (ModelView {
                error: Some(
                    match err {
                        Some(e) => "var set "@ + var + ": "@ + e,
                        None => "var set "@ + var + " failed"@,
                    },
                ),
                ..m
            }),
            None::<CommandView>,
        ),
{
}

/// Coming back from a session puts the cursor on it, wherever it is listed,
/// and has the list refreshed. What was said before is taken down; only a
/// failure is said.
pub proof fn attach_ends(m: ModelView, ok: bool, name: Seq<char>)
    ensures
        ({
            let (after, cmd) = update::updated(m, EventView::AttachExited { ok, name });
            &&& cmd == Some(CommandView::Refresh)
            &&& same_list(after, m) && after.mode == m.mode
            &&& in_some_row(m, name) ==> highlights(after, name)
            &&& !in_some_row(m, name) && m.selection !is Stale ==> after.selection == m.selection
            &&& !in_some_row(m, name) && m.selection is Stale ==> after.selection is Nothing
            &&& after.error == if ok {
                None
            } else {
                Some("shpool attach "@ + name + " failed"@)
            }
        }),
{
    let names = session::names(m.sessions);
    text::position_exists(names, name);
    if in_some_row(m, name) {
        let i = choose|i: int|
            0 <= i < m.sessions.len() && (#[trigger] m.sessions[i]).name == name;
        assert(names[i] == name);
    }
    if names.contains(name) {
        let i = choose|i: int| 0 <= i < names.len() && names[i] == name;
        assert(m.sessions[i].name == name);
    }
}

/// The end of a kill has the list refreshed and takes down what was said
/// before; only a failure is said, in the words it came with, if it came with
/// any. A cursor on a row stays there.
pub proof fn kill_ends(m: ModelView, ok: bool, name: Seq<char>, err: Option<Seq<char>>)
    ensures
        ({
            let (after, cmd) = update::updated(m, EventView::KillFinished { ok, name, err });
            &&& cmd == Some(CommandView::Refresh)
            &&& same_list(after, m) && after.mode == m.mode
            &&& m.selection !is Stale ==> after.selection == m.selection
            &&& m.selection is Stale ==> after.selection is Nothing
            &&& ok ==> after.error is None
            &&& !ok && err is Some ==> after.error == err
            &&& !ok && err is None ==> after.error == Some("kill "@ + name + " failed"@)
        }),
{
}

/// A new session whose name needs variables has them asked for, from the
/// first one on, with nothing given yet.
pub proof fn needed_variables_are_asked_for(
    m: ModelView,
    name: Seq<char>,
    vars: Seq<Seq<char>>,
    set_vars: Seq<(Seq<char>, Seq<char>)>,
)
    ensures
        ({
            let (after, cmd) = update::updated(
                m,
                EventView::CreateNeedsVars { name, vars, set_vars },
            );
            &&& cmd is None
            &&& same_list(after, m) && after.selection == m.selection && after.error == m.error
            &&& after.mode matches ModeView::CreateVarPrompt(vp) && vp.name == name && vp.vars
                == vars && vp.idx == 0 && vp.input.len() == 0 && vp.collected.len() == 0
                && vp.set_vars == set_vars
        }),
{
}

/// Variables that come back are shown, together with those that templates
/// reference and that are not set, from the first one on.
pub proof fn fetched_variables_are_shown(m: ModelView, vars: Seq<VarView>)
    ensures
        ({
            let (after, cmd) = update::updated(m, EventView::VarsFetched(vars));
            &&& cmd is None
            &&& same_list(after, m) && after.selection == m.selection && after.error == m.error
            &&& after.mode matches ModeView::Vars(vs) && vs.vars == model::merged(vars, m.sessions)
                && vs.selected == 0 && vs.edit is None
        }),
{
}

/// Setting a variable closes the selector. A success has the sessions
/// refreshed, for their names may change, and shows the variables as they are
/// now, with the cursor on the one that was set. A failure is said, and
/// changes no row.
pub proof fn variable_setting_ends(
    m: ModelView,
    name: Seq<char>,
    ok: bool,
    err: Option<Seq<char>>,
    vars: Option<Seq<VarView>>,
)
    ensures
        ({
            let (after, cmd) = update::updated(
                m,
                EventView::VarSetFinished { name, ok, err, vars },
            );
            &&& same_list(after, m) && after.selection == m.selection
            &&& cmd == if ok {
                Some(CommandView::Refresh)
            } else {
                None
            }
            &&& after.error == if ok {
                m.error
            } else {
                Some(
                    match err {
                        Some(e) => "var set "@ + name + ": "@ + e,
                        None => "var set "@ + name + " failed"@,
                    },
                )
            }
            &&& m.mode !is Vars ==> after.mode == m.mode
            &&& m.mode matches ModeView::Vars(vs) ==> (after.mode matches ModeView::Vars(next)
                && next.edit is None && (!ok || vars is None ==> next.vars == vs.vars
                && next.selected == vs.selected) && (ok && vars is Some ==> next.vars
                == model::merged(vars->0.filter(|v: VarView| !v.unset), m.sessions)))
        }),
{
    if let Some(fresh) = vars {
        assert(model::set_rows(fresh) == fresh.filter(|v: VarView| !v.unset));
    }
}

/// The cursor stands on the variable that was just set.
#[verifier::rlimit(40)]
pub proof fn cursor_is_on_the_variable_set(
    m: ModelView,
    vs: VarsView,
    name: Seq<char>,
    err: Option<Seq<char>>,
    fresh: Seq<VarView>,
    k: int,
)
    requires
        m.mode == ModeView::Vars(vs),
        0 <= k < fresh.len(),
        fresh[k].name == name,
        !fresh[k].unset,
    ensures
        ({
            let after = update::updated(
                m,
                EventView::VarSetFinished { name, ok: true, err, vars: Some(fresh) },
            ).0;
            after.mode matches ModeView::Vars(next) && 0 <= next.selected < next.vars.len()
                && next.vars[next.selected].name == name
        }),
{
    let names = model::var_names(fresh);
    assert(names[k] == name);
    text::position_exists(names, name);
    let real_rows = model::set_rows(fresh);
    fresh.lemma_filter_contains(|v: VarView| !v.unset, k);
    assert(real_rows.contains(fresh[k]));
    let j = choose|j: int| 0 <= j < real_rows.len() && real_rows[j] == fresh[k];
    assert(model::var_names(real_rows)[j] == name);
    assert(model::var_names(real_rows).contains(name));
    super::laws::list_covers_what_is_referenced(real_rows, m.sessions);
    let merged = model::merged(real_rows, m.sessions);
    assert(model::var_names(merged).contains(name));
    text::position_exists(model::var_names(merged), name);
    let at = text::position(model::var_names(merged), name)->0;
    assert(model::var_names(merged)[at] == merged[at].name);
}

/// While the variables are shown, a fresh list of sessions has them derived
/// anew from those that are set; the cursor stays with its variable, or goes
/// to the last row if that is gone, and a value that is being typed stays.
#[verifier::rlimit(40)]
pub proof fn variables_follow_the_sessions(m: ModelView, vs: VarsView, fresh: Seq<SessionView>)
    requires
        m.mode == ModeView::Vars(vs),
        0 <= vs.selected < vs.vars.len(),
    ensures
        ({
            let after = update::updated(m, EventView::SessionsRefreshed(fresh)).0;
            let name = vs.vars[vs.selected].name;
            &&& after.mode matches ModeView::Vars(next) && next.edit == vs.edit && next.vars
                == model::merged(vs.vars.filter(|v: VarView| !v.unset), after.sessions) && if (
            exists|i: int| 0 <= i < next.vars.len() && (#[trigger] next.vars[i]).name == name) {
                0 <= next.selected < next.vars.len() && next.vars[next.selected].name == name
            } else {
                next.selected == if next.vars.len() == 0 {
                    0
                } else {
                    next.vars.len() - 1
                }
            }
        }),
{
    let after = update::updated(m, EventView::SessionsRefreshed(fresh)).0;
    let name = vs.vars[vs.selected].name;
    let rows = model::merged(model::set_rows(vs.vars), after.sessions);
    let names = model::var_names(rows);
    assert(model::set_rows(vs.vars) == vs.vars.filter(|v: VarView| !v.unset));
    text::position_exists(names, name);
    if names.contains(name) {
        let i = choose|i: int| 0 <= i < names.len() && names[i] == name;
        assert(rows[i].name == name);
        let at = text::position(names, name)->0;
        assert(names[at] == rows[at].name);
    }
    if exists|i: int| 0 <= i < rows.len() && (#[trigger] rows[i]).name == name {
        let i = choose|i: int| 0 <= i < rows.len() && (#[trigger] rows[i]).name == name;
        assert(names[i] == name);
    }
}

/// With no variable under the cursor, a fresh list of sessions puts it on the
/// last row there is.
pub proof fn cursor_without_a_variable_goes_last(
    m: ModelView,
    vs: VarsView,
    fresh: Seq<SessionView>,
)
    requires
        m.mode == ModeView::Vars(vs),
        vs.vars.len() == 0,
    ensures
        ({
            let after = update::updated(m, EventView::SessionsRefreshed(fresh)).0;
            after.mode matches ModeView::Vars(next) && next.edit == vs.edit && next.selected
                == if next.vars.len() == 0 {
                0
            } else {
                next.vars.len() - 1
            }
        }),
{
}

/// If the variable that was set is not listed afterwards, the cursor stands on
/// the first one that is.
pub proof fn cursor_without_the_variable_set(
    m: ModelView,
    vs: VarsView,
    name: Seq<char>,
    err: Option<Seq<char>>,
    fresh: Seq<VarView>,
)
    requires
        m.mode == ModeView::Vars(vs),
        fresh.len() > 0,
        !fresh[0].unset,
        forall|k: int| 0 <= k < fresh.len() ==> (#[trigger] fresh[k]).name != name,
    ensures
        ({
            let after = update::updated(
                m,
                EventView::VarSetFinished { name, ok: true, err, vars: Some(fresh) },
            ).0;
            after.mode matches ModeView::Vars(next) && 0 <= next.selected < next.vars.len()
                && next.vars[next.selected].name == fresh[0].name
        }),
{
    let names = model::var_names(fresh);
    text::position_exists(names, name);
    if names.contains(name) {
        let k = choose|k: int| 0 <= k < names.len() && names[k] == name;
        assert(fresh[k].name == name);
    }
    let first = fresh[0].name;
    let real_rows = model::set_rows(fresh);
    fresh.lemma_filter_contains(|v: VarView| !v.unset, 0);
    assert(real_rows.contains(fresh[0]));
    let j = choose|j: int| 0 <= j < real_rows.len() && real_rows[j] == fresh[0];
    assert(model::var_names(real_rows)[j] == first);
    assert(model::var_names(real_rows).contains(first));
    super::laws::list_covers_what_is_referenced(real_rows, m.sessions);
    let merged = model::merged(real_rows, m.sessions);
    assert(model::var_names(merged).contains(first));
    text::position_exists(model::var_names(merged), first);
    let at = text::position(model::var_names(merged), first)->0;
    assert(model::var_names(merged)[at] == merged[at].name);
}

}
