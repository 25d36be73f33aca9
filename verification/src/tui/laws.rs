//! What the interface promises, whatever happens.

use vstd::prelude::*;

use super::command::CommandView;
use super::event::EventView;
use super::keymap;
use super::keymap::Key;
use super::model;
use super::model::{
    EditView, ModeView, ModelView, SelectionView, VarPromptView, VarView, VarsView,
};
use super::template;
use super::update;
use crate::order;
use crate::session;
use crate::session::{Session, SessionView};
use crate::text;

verus! {

// -- Errors --

/// What goes on in the background sets errors but dismisses none: only a
/// keystroke does, or the end of an attach or a kill.
pub proof fn background_events_keep_errors(m: ModelView, event: EventView)
    requires
        m.error is Some,
        event !is Key,
        event !is AttachExited,
        event !is KillFinished,
    ensures
        update::updated(m, event).0.error is Some,
{
}

/// A keystroke dismisses the error, unless the selection is stale. Afterwards
/// there is an error only if the keystroke tried to create a session under a
/// name that is taken.
pub proof fn keystrokes_dismiss_errors(m: ModelView, key: Key)
    requires
        !m.stale(),
    ensures
        update::updated(m, EventView::Key(key)).0.error matches Some(msg) ==> key == Key::Enter && (
        m.mode matches ModeView::CreateInput(name) && m.lists(name) && msg == "session '"@ + name
            + "' already exists"@),
{
    keymap::actions_by_key(key);
}

/// The message that a session is gone stays up until the user has pressed a
/// key, whatever comes in between; and that key takes both the message and
/// the staleness away.
pub proof fn gone_message_waits_for_a_key(m: ModelView, fresh: Seq<SessionView>, key: Key)
    requires
        m.stale(),
        m.mode is Normal,
    ensures
        m.refreshed(fresh).selection == m.selection,
        m.refreshed(fresh).error == m.error,
        !update::updated(m, EventView::Key(key)).0.stale(),
        update::updated(m, EventView::Key(key)).0.error is None,
{
    keymap::actions_by_key(key);
}

// -- Acting on sessions --

/// While the selection is stale, a key that would attach to or kill the
/// selected session does neither: it only puts the cursor on a row that the
/// user can see.
pub proof fn stale_selection_is_not_struck(m: ModelView, key: Key)
    requires
        m.stale(),
        m.mode is Normal,
    ensures
        ({
            let (after, cmd) = update::updated(m, EventView::Key(key));
            &&& cmd matches Some(c) ==> c !is Attach && c !is Kill
            &&& after.mode !is ConfirmKill
            &&& update::strikes_selection(keymap::action_of(key)) ==> after.selection
                == model::top_of(m.sessions) && after.mode is Normal
        }),
{
    keymap::actions_by_key(key);
}

/// A plain attach goes to the session that is highlighted, which is listed.
pub proof fn attach_goes_to_the_highlighted(m: ModelView, event: EventView, name: Seq<char>)
    requires
        update::updated(m, event).1 == Some(CommandView::Attach { name, force: false }),
    ensures
        event is Key,
        m.mode is Normal,
        !m.stale(),
        m.selected_name() == Some(name),
        m.lists(name),
{
    if let EventView::Key(key) = event {
        keymap::actions_by_key(key);
    }
    if let SelectionView::At(i) = m.selection {
        assert(session::names(m.sessions)[i] == m.sessions[i].name);
    }
}

/// A session is killed only by answering its own kill prompt with yes.
pub proof fn kill_is_confirmed(m: ModelView, event: EventView, name: Seq<char>)
    requires
        update::updated(m, event).1 == Some(CommandView::Kill(name)),
    ensures
        m.mode == ModeView::ConfirmKill(name),
        event matches EventView::Key(key) && update::is_yes(key),
{
    if let EventView::Key(key) = event {
        keymap::actions_by_key(key);
    }
}

/// A session is taken over from another terminal only by answering its own
/// prompt with yes.
pub proof fn force_is_confirmed(m: ModelView, event: EventView, name: Seq<char>)
    requires
        update::updated(m, event).1 == Some(CommandView::Attach { name, force: true }),
    ensures
        m.mode == ModeView::ConfirmForce(name),
        event matches EventView::Key(key) && update::is_yes(key),
{
    if let EventView::Key(key) = event {
        keymap::actions_by_key(key);
    }
}

/// A prompt is answered by y or n (or Esc, or Ctrl-C) only: any other key
/// leaves it up.
pub proof fn prompts_stay_up(m: ModelView, key: Key)
    requires
        m.mode is ConfirmKill || m.mode is ConfirmForce,
        !update::is_yes(key),
        !update::is_no(key),
    ensures
        update::updated(m, EventView::Key(key)).0.mode == m.mode,
        update::updated(m, EventView::Key(key)).1 is None,
{
}

/// A kill or force prompt goes away by itself exactly when its session is no
/// longer listed, and then the user is told.
pub proof fn prompts_follow_their_target(m: ModelView, fresh: Seq<SessionView>)
    requires
        m.mode is ConfirmKill || m.mode is ConfirmForce,
    ensures
        ({
            let name = match m.mode {
                ModeView::ConfirmKill(name) => name,
                ModeView::ConfirmForce(name) => name,
                _ => Seq::empty(),
            };
            let after = update::updated(m, EventView::SessionsRefreshed(fresh)).0;
            if after.lists(name) {
                after.mode == m.mode
            } else {
                after.mode is Normal && after.error == Some(model::gone_message(name))
            }
        }),
{
}

/// What is being typed for a new session survives every refresh.
pub proof fn typing_survives_refresh(m: ModelView, fresh: Seq<SessionView>)
    requires
        m.mode is CreateInput || m.mode is CreateVarPrompt,
    ensures
        update::updated(m, EventView::SessionsRefreshed(fresh)).0.mode == m.mode,
{
}

/// A session is created only under a name that is not empty and not taken.
pub proof fn created_names_are_new(m: ModelView, event: EventView, name: Seq<char>)
    requires
        update::updated(m, event).1 == Some(CommandView::Create(name)),
    ensures
        name.len() > 0,
        !m.lists(name),
        m.mode == ModeView::CreateInput(name),
        event == EventView::Key(Key::Enter),
{
    if let EventView::Key(key) = event {
        keymap::actions_by_key(key);
    }
}

/// Whoever comes back from a session finds it highlighted, wherever it is
/// listed; and the list is refreshed right away.
pub proof fn attach_returns_to_its_session(m: ModelView, ok: bool, name: Seq<char>)
    ensures
        ({
            let (after, cmd) = update::updated(m, EventView::AttachExited { ok, name });
            &&& m.lists(name) ==> after.selected_name() == Some(name)
            &&& !after.stale()
            &&& after.error is None <==> ok
            &&& cmd == Some(CommandView::Refresh)
        }),
{
    text::position_exists(session::names(m.sessions), name);
}

/// The session list can always be left: its quit keys quit, stale selection
/// or not.
pub proof fn quit_keys_quit(m: ModelView, key: Key)
    requires
        m.mode is Normal,
        key == Key::Char('q' as u8) || key == Key::Char('Q' as u8) || key == Key::Ctrl(
            keymap::CTRL_C,
        ),
    ensures
        update::updated(m, EventView::Key(key)).1 == Some(CommandView::Quit),
{
    keymap::actions_by_key(key);
}

/// Esc and Ctrl-C get out of every prompt, and out of the variables in two
/// steps at most, with nothing done.
pub proof fn cancel_keys_cancel(m: ModelView, key: Key)
    requires
        m.mode !is Normal,
        update::is_cancel(key),
    ensures
        ({
            let (after, cmd) = update::updated(m, EventView::Key(key));
            &&& cmd is None || cmd == Some(CommandView::Refresh)
            &&& after.mode is Normal || (after.mode matches ModeView::Vars(vs) && vs.edit is None)
            &&& m.mode !is Vars ==> after.mode is Normal
        }),
{
}

// -- Refreshing --

/// A list that comes back, or fails to, never asks for another one: there is
/// no refresh loop.
pub proof fn refreshes_do_not_loop(m: ModelView, fresh: Seq<SessionView>, msg: Seq<char>)
    ensures
        update::updated(m, EventView::SessionsRefreshed(fresh)).1 is None,
        update::updated(m, EventView::RefreshFailed(msg)).1 is None,
{
}

/// Without a subscription, every keystroke that leaves the session list up
/// has a command go out, be it only a refresh.
pub proof fn keystrokes_refresh_the_list(m: ModelView, key: Key)
    requires
        !m.events_active,
        update::updated(m, EventView::Key(key)).0.mode is Normal,
    ensures
        update::updated(m, EventView::Key(key)).1 is Some,
{
}

/// A keystroke that leaves a prompt or the variables up never refreshes.
pub proof fn typing_does_not_refresh(m: ModelView, key: Key)
    requires
        update::updated(m, EventView::Key(key)).0.mode !is Normal,
    ensures
        update::updated(m, EventView::Key(key)).1 != Some(CommandView::Refresh),
{
    keymap::actions_by_key(key);
}

/// With a subscription, neither keystrokes nor focus refresh the list:
/// events alone do.
pub proof fn subscription_replaces_polling(m: ModelView, key: Key)
    requires
        m.events_active,
    ensures
        update::updated(m, EventView::Key(key)).1 != Some(CommandView::Refresh),
        update::updated(m, EventView::FocusGained) == (m, None::<CommandView>),
        update::updated(m, EventView::EventsArrived) == (m, Some(CommandView::Refresh)),
{
    keymap::actions_by_key(key);
}

/// An event never touches the quit flag or the subscription: those are for
/// the executor and the main loop.
pub proof fn updates_leave_the_loop_alone(m: ModelView, event: EventView)
    ensures
        update::updated(m, event).0.quit == m.quit,
        update::updated(m, event).0.events_active == m.events_active,
{
    if let EventView::Key(key) = event {
        keymap::actions_by_key(key);
    }
}

// -- The cursor --

/// The cursor `k` rows further down, one at a time.
pub open spec fn after_nexts(m: ModelView, k: nat) -> ModelView
    decreases k,
{
    if k == 0 {
        m
    } else {
        after_nexts(m, (k - 1) as nat).after_next()
    }
}

/// The cursor goes round: `k` rows down from row `i` of `n` is row
/// `(i + k) % n`, and nothing else changes.
pub proof fn next_goes_round(m: ModelView, i: int, k: nat)
    requires
        m.wf(),
        m.selection == SelectionView::At(i),
    ensures
        after_nexts(m, k) == m.selecting(
            SelectionView::At((i + k) % (m.sessions.len() as int)),
        ),
    decreases k,
{
    let n = m.sessions.len() as int;
    if k == 0 {
        vstd::arithmetic::div_mod::lemma_small_mod(i as nat, n as nat);
    } else {
        let before = (k - 1) as nat;
        next_goes_round(m, i, before);
        vstd::arithmetic::div_mod::lemma_add_mod_noop_right(1, i + before, n);
        assert(((i + before) % n + 1) % n == (i + k) % n);
    }
}

/// One row down and one row up undo each other.
pub proof fn next_and_prev_are_inverse(m: ModelView)
    requires
        m.wf(),
        m.selection is At,
    ensures
        m.after_next().after_prev() == m,
        m.after_prev().after_next() == m,
{
    let n = m.sessions.len() as int;
    if let SelectionView::At(i) = m.selection {
        if i + 1 == n {
            vstd::arithmetic::div_mod::lemma_mod_self_0(n);
        } else {
            vstd::arithmetic::div_mod::lemma_small_mod((i + 1) as nat, n as nat);
        }
        if i == 0 {
            vstd::arithmetic::div_mod::lemma_mod_self_0(n);
        } else {
            vstd::arithmetic::div_mod::lemma_small_mod(i as nat, n as nat);
        }
    }
}

/// In the variable view, too, one row down and one row up undo each other.
pub proof fn variable_steps_are_inverse(vs: VarsView)
    requires
        vs.wf(),
    ensures
        update::vars_moved(update::vars_moved(vs, 1), -1) == vs,
        update::vars_moved(update::vars_moved(vs, -1), 1) == vs,
{
    let n = vs.vars.len() as int;
    if n > 0 {
        let i = vs.selected;
        if i + 1 == n {
            vstd::arithmetic::div_mod::lemma_mod_self_0(n);
            vstd::arithmetic::div_mod::lemma_fundamental_div_mod_converse(-1, n, -1, n - 1);
        } else {
            vstd::arithmetic::div_mod::lemma_small_mod((i + 1) as nat, n as nat);
            vstd::arithmetic::div_mod::lemma_small_mod(i as nat, n as nat);
        }
        if i == 0 {
            vstd::arithmetic::div_mod::lemma_mod_self_0(n);
            vstd::arithmetic::div_mod::lemma_fundamental_div_mod_converse(-1, n, -1, n - 1);
        } else {
            vstd::arithmetic::div_mod::lemma_small_mod((i - 1) as nat, n as nat);
            vstd::arithmetic::div_mod::lemma_small_mod(i as nat, n as nat);
        }
    }
}

/// The sessions' order ranks them all.
pub proof fn activity_is_a_ranking()
    ensures
        order::is_ranking(order::ranking::<Session>()),
{
}

/// A refresh lists exactly the sessions that came back, the most recently
/// active first, those equally recent in the order they came.
pub proof fn refresh_lists_what_came_back(m: ModelView, fresh: Seq<SessionView>)
    ensures
        m.refreshed(fresh).sessions.to_multiset() == fresh.to_multiset(),
        forall|i: int, j: int|
            0 <= i < j < m.refreshed(fresh).sessions.len() ==> (
            #[trigger] m.refreshed(fresh).sessions[i]).last_active() >= (
            #[trigger] m.refreshed(fresh).sessions[j]).last_active(),
        forall|s: SessionView|
            order::level_with(m.refreshed(fresh).sessions, s, order::ranking::<Session>())
                == order::level_with(fresh, s, order::ranking::<Session>()),
{
    activity_is_a_ranking();
    order::sorting_is_stable(fresh, order::ranking::<Session>());
    let sessions = m.refreshed(fresh).sessions;
    assert forall|i: int, j: int| 0 <= i < j < sessions.len() implies (
    #[trigger] sessions[i]).last_active() >= (#[trigger] sessions[j]).last_active() by {
        assert(order::ranking::<Session>()(sessions[i], sessions[j]));
    }
}

/// A refresh never moves the highlight to another session: it stays on the
/// session of the same name, or goes stale, saying which session is gone.
pub proof fn refresh_keeps_the_highlighted_session(
    m: ModelView,
    fresh: Seq<SessionView>,
    name: Seq<char>,
)
    requires
        m.selected_name() == Some(name),
    ensures
        m.refreshed(fresh).lists(name) ==> m.refreshed(fresh).selected_name() == Some(name)
            && m.refreshed(fresh).error == m.error,
        !m.refreshed(fresh).lists(name) ==> m.refreshed(fresh).selection == SelectionView::Stale(
            name,
        ) && m.refreshed(fresh).error == Some(model::gone_message(name)),
{
    text::position_exists(session::names(m.refreshed(fresh).sessions), name);
}

/// A session that the user kills is no surprise: as long as its neighbor is
/// still listed, the refresh that follows puts the highlight there, and
/// raises no alarm.
pub proof fn own_kill_is_no_surprise(
    m: ModelView,
    key: Key,
    name: Seq<char>,
    fresh: Seq<SessionView>,
)
    requires
        m.wf(),
        m.mode == ModeView::ConfirmKill(name),
        m.selected_name() == Some(name),
        update::is_yes(key),
        update::updated(m, EventView::Key(key)).0.selected_name() matches Some(neighbor)
            ==> session::names(fresh).contains(neighbor),
    ensures
        ({
            let killing = update::updated(m, EventView::Key(key)).0;
            let after = update::updated(killing, EventView::SessionsRefreshed(fresh)).0;
            &&& !after.stale()
            &&& after.error is None
            &&& killing.selected_name() is Some ==> after.selected_name()
                == killing.selected_name()
        }),
{
    let killing = update::updated(m, EventView::Key(key)).0;
    if let Some(neighbor) = killing.selected_name() {
        let sessions = killing.refreshed(fresh).sessions;
        activity_is_a_ranking();
        order::sorting_is_stable(fresh, order::ranking::<Session>());
        let k = choose|k: int|
            0 <= k < session::names(fresh).len() && session::names(fresh)[k] == neighbor;
        assert(fresh.to_multiset().count(fresh[k]) > 0) by {
            fresh.to_multiset_ensures();
        }
        sessions.to_multiset_ensures();
        assert(sessions.contains(fresh[k]));
        let j = choose|j: int| 0 <= j < sessions.len() && sessions[j] == fresh[k];
        assert(session::names(sessions)[j] == neighbor);
        text::position_exists(session::names(sessions), neighbor);
    }
}

// -- Template variables --

/// `part` is what is left of `whole` when some of it is left out.
pub open spec fn in_turn(part: Seq<Seq<char>>, whole: Seq<Seq<char>>) -> bool
    decreases whole.len(),
{
    if part.len() == 0 {
        true
    } else if whole.len() == 0 {
        false
    } else {
        (part.last() == whole.last() && in_turn(part.drop_last(), whole.drop_last())) || in_turn(
            part,
            whole.drop_last(),
        )
    }
}

/// The variables of `pairs`, in order.
pub open spec fn asked_names(pairs: Seq<(Seq<char>, Seq<char>)>) -> Seq<Seq<char>> {
    pairs.map_values(|p: (Seq<char>, Seq<char>)| p.0)
}

/// The values that a prompt has collected: none of them empty, for variables
/// that it has been through, in the order that it asked for them.
pub open spec fn collects_in_turn(
    pairs: Seq<(Seq<char>, Seq<char>)>,
    vars: Seq<Seq<char>>,
) -> bool {
    &&& forall|i: int| 0 <= i < pairs.len() ==> (#[trigger] pairs[i]).1.len() > 0
    &&& in_turn(asked_names(pairs), vars)
}

proof fn in_turn_of_more(part: Seq<Seq<char>>, whole: Seq<Seq<char>>, next: Seq<char>)
    requires
        in_turn(part, whole),
    ensures
        in_turn(part, whole.push(next)),
        in_turn(part.push(next), whole.push(next)),
{
    assert(whole.push(next).drop_last() =~= whole);
    assert(part.push(next).drop_last() =~= part);
}

/// A variable prompt asks for its variables one after the other, and collects
/// a value for each that is given one; an empty answer leaves the variable
/// out. When it is through, the session is created with exactly what was
/// collected.
pub proof fn prompt_collects_in_turn(m: ModelView, vp: VarPromptView, key: Key)
    requires
        m.mode == ModeView::CreateVarPrompt(vp),
        vp.wf(),
        collects_in_turn(vp.collected, vp.vars.take(vp.idx)),
    ensures
        ({
            let (after, cmd) = update::updated(m, EventView::Key(key));
            &&& after.mode matches ModeView::CreateVarPrompt(next) ==> collects_in_turn(
                next.collected,
                next.vars.take(next.idx),
            ) && next.vars == vp.vars && next.name == vp.name
            &&& cmd matches Some(CommandView::CreateWithVars { name, set_vars }) ==> name
                == vp.name && collects_in_turn(set_vars, vp.vars)
        }),
{
    let asked = vp.vars.take(vp.idx);
    let var = vp.vars[vp.idx];
    let taken = update::collected_with_input(vp);
    assert(vp.vars.take(vp.idx + 1) =~= asked.push(var));
    in_turn_of_more(asked_names(vp.collected), asked, var);
    if vp.input.len() > 0 {
        assert(asked_names(taken) =~= asked_names(vp.collected).push(var));
    }
    assert(collects_in_turn(taken, vp.vars.take(vp.idx + 1)));
    assert(vp.vars.take(vp.vars.len() as int) =~= vp.vars);
}

/// A variable is set only from the value selector, to what stands in its
/// field: literally, even while the list shows something longer. Only an
/// empty field stands for the highlighted candidate.
pub proof fn field_is_applied_literally(
    m: ModelView,
    event: EventView,
    name: Seq<char>,
    value: Seq<char>,
)
    requires
        update::updated(m, event).1 == Some(CommandView::SetVar { name, value }),
    ensures
        event == EventView::Key(Key::Enter),
        m.mode matches ModeView::Vars(vs) && vs.selected_name() == Some(name) && (
        vs.edit matches Some(edit) && (edit.field.len() > 0 ==> value == edit.field) && (
        edit.field.len() == 0 && 0 <= edit.highlight < edit.shown().len() ==> value
            == edit.shown()[edit.highlight])),
{
    if let EventView::Key(key) = event {
        keymap::actions_by_key(key);
    }
}

/// Arrowing through the candidates leaves the list as it is, and keeps the
/// highlight on it.
pub proof fn arrowing_keeps_the_list(edit: EditView, down: bool)
    requires
        edit.wf(),
    ensures
        update::arrowed(edit, down).shown() == edit.shown(),
        update::arrowed(edit, down).wf(),
        edit.shown().len() > 0 ==> update::arrowed(edit, down).field
            == edit.shown()[update::arrowed(edit, down).highlight],
{
}

/// The variables' order ranks them all.
pub proof fn names_are_a_ranking()
    ensures
        order::is_ranking(order::ranking::<model::Var>()),
{
    let by_name = order::ranking::<model::Var>();
    assert forall|a: VarView, b: VarView| #[trigger] by_name(a, b) || by_name(b, a) by {
        text::no_later_is_total(a.name, b.name);
    }
    assert forall|a: VarView, b: VarView, c: VarView| #[trigger]
        by_name(a, b) && #[trigger] by_name(b, c) implies by_name(a, c) by {
        text::no_later_is_transitive(a.name, b.name, c.name);
    }
}

proof fn filtering_keeps_apart(texts: Seq<Seq<char>>, keep: spec_fn(Seq<char>) -> bool)
    requires
        texts.no_duplicates(),
    ensures
        texts.filter(keep).no_duplicates(),
    decreases texts.len(),
{
    reveal(Seq::filter);
    if texts.len() > 0 {
        let rest = texts.drop_last();
        filtering_keeps_apart(rest, keep);
        if keep(texts.last()) && rest.filter(keep).contains(texts.last()) {
            rest.lemma_filter_contains_rev(keep, texts.last());
            let i = choose|i: int| 0 <= i < rest.len() && rest[i] == texts.last();
            assert(texts[i] == texts[texts.len() - 1]);
        }
    }
}

/// The rows of the variables that `vars` lacks.
pub open spec fn unset_rows(vars: Seq<VarView>, sessions: Seq<SessionView>) -> Seq<VarView> {
    model::missing(vars, sessions).map_values(|name: Seq<char>| model::unset_row(name))
}

proof fn missing_is(vars: Seq<VarView>, sessions: Seq<SessionView>)
    ensures
        model::missing(vars, sessions).no_duplicates(),
        forall|name: Seq<char>|
            model::missing(vars, sessions).contains(name) <==> model::referenced(
                template::all_templates(sessions),
            ).contains(name) && !model::var_names(vars).contains(name),
{
    let wanted = model::referenced(template::all_templates(sessions));
    let once = text::distinct(wanted);
    let absent = |t: Seq<char>| !model::var_names(vars).contains(t);
    text::distinct_holds_each_once(wanted);
    filtering_keeps_apart(once, absent);
    assert forall|name: Seq<char>|
        model::missing(vars, sessions).contains(name) <==> wanted.contains(name)
            && !model::var_names(vars).contains(name) by {
        if model::missing(vars, sessions).contains(name) {
            once.lemma_filter_contains_rev(absent, name);
            let i = choose|i: int|
                0 <= i < once.filter(absent).len() && once.filter(absent)[i] == name;
            once.lemma_filter_pred(absent, i);
        }
        if wanted.contains(name) && !model::var_names(vars).contains(name) {
            assert(once.contains(name));
            let i = choose|i: int| 0 <= i < once.len() && once[i] == name;
            once.lemma_filter_contains(absent, i);
        }
    }
}

proof fn placing_keeps_names_apart(rows: Seq<VarView>, row: VarView)
    ensures
        ({
            let by_name = order::ranking::<model::Var>();
            let after = model::var_names(order::placed(rows, row, by_name));
            &&& forall|name: Seq<char>|
                after.contains(name) <==> name == row.name || model::var_names(rows).contains(name)
            &&& model::var_names(rows).no_duplicates() && !model::var_names(rows).contains(row.name)
                ==> after.no_duplicates()
        }),
    decreases rows.len(),
{
    let by_name = order::ranking::<model::Var>();
    let names = model::var_names(rows);
    let after = model::var_names(order::placed(rows, row, by_name));
    if rows.len() == 0 || by_name(row, rows[0]) {
        assert(after =~= seq![row.name] + names);
        assert forall|name: Seq<char>|
            after.contains(name) <==> name == row.name || names.contains(name) by {
            if names.contains(name) {
                let i = choose|i: int| 0 <= i < names.len() && names[i] == name;
                assert(after[i + 1] == name);
            }
            if name == row.name {
                assert(after[0] == name);
            }
        }
    } else {
        let rest = rows.drop_first();
        placing_keeps_names_apart(rest, row);
        let rest_names = model::var_names(rest);
        let rest_after = model::var_names(order::placed(rest, row, by_name));
        assert(names =~= seq![rows[0].name] + rest_names);
        assert(after =~= seq![rows[0].name] + rest_after);
        assert forall|name: Seq<char>|
            after.contains(name) <==> name == row.name || names.contains(name) by {
            if names.contains(name) {
                let i = choose|i: int| 0 <= i < names.len() && names[i] == name;
                if i == 0 {
                    assert(after[0] == name);
                } else {
                    assert(rest_names[i - 1] == name);
                }
            }
            if rest_after.contains(name) {
                let i = choose|i: int| 0 <= i < rest_after.len() && rest_after[i] == name;
                assert(after[i + 1] == name);
            }
            if rest_names.contains(name) {
                let i = choose|i: int| 0 <= i < rest_names.len() && rest_names[i] == name;
                assert(names[i + 1] == name);
            }
            if after.contains(name) {
                let i = choose|i: int| 0 <= i < after.len() && after[i] == name;
                if i == 0 {
                    assert(names[0] == name);
                } else {
                    assert(rest_after[i - 1] == name);
                }
            }
        }
        if names.no_duplicates() && !names.contains(row.name) {
            assert forall|i: int, j: int|
                0 <= i < rest_names.len() && 0 <= j < rest_names.len() && i != j implies
                rest_names[i] != rest_names[j] by {
                assert(names[i + 1] == rest_names[i]);
                assert(names[j + 1] == rest_names[j]);
            }
            if rest_names.contains(row.name) {
                let i = choose|i: int| 0 <= i < rest_names.len() && rest_names[i] == row.name;
                assert(names[i + 1] == row.name);
            }
            assert(!rest_after.contains(rows[0].name)) by {
                assert(names[0] == rows[0].name);
                if rest_names.contains(rows[0].name) {
                    let i = choose|i: int|
                        0 <= i < rest_names.len() && rest_names[i] == rows[0].name;
                    assert(names[i + 1] == names[0]);
                }
            }
        }
    }
}

proof fn sorting_keeps_names(rows: Seq<VarView>)
    ensures
        ({
            let after = model::var_names(order::sorted(rows, order::ranking::<model::Var>()));
            &&& forall|name: Seq<char>|
                after.contains(name) <==> model::var_names(rows).contains(name)
            &&& model::var_names(rows).no_duplicates() ==> after.no_duplicates()
        }),
    decreases rows.len(),
{
    let by_name = order::ranking::<model::Var>();
    if rows.len() > 0 {
        let rest = rows.drop_first();
        let names = model::var_names(rows);
        let rest_names = model::var_names(rest);
        sorting_keeps_names(rest);
        placing_keeps_names_apart(order::sorted(rest, by_name), rows[0]);
        assert(names =~= seq![rows[0].name] + rest_names);
        assert forall|name: Seq<char>|
            names.contains(name) <==> name == rows[0].name || rest_names.contains(name) by {
            if rest_names.contains(name) {
                let i = choose|i: int| 0 <= i < rest_names.len() && rest_names[i] == name;
                assert(names[i + 1] == name);
            }
            if name == rows[0].name {
                assert(names[0] == name);
            }
        }
        if names.no_duplicates() {
            assert forall|i: int, j: int|
                0 <= i < rest_names.len() && 0 <= j < rest_names.len() && i != j implies
                rest_names[i] != rest_names[j] by {
                assert(names[i + 1] == rest_names[i]);
                assert(names[j + 1] == rest_names[j]);
            }
            if rest_names.contains(rows[0].name) {
                let i = choose|i: int|
                    0 <= i < rest_names.len() && rest_names[i] == rows[0].name;
                assert(names[i + 1] == names[0]);
            }
        }
    } else {
        assert(order::sorted(rows, by_name) =~= rows);
    }
}

/// The variable list has a row for each variable that is set or that a
/// template references, and for no other; one row each, if no variable is
/// listed as set twice; in the order of their names.
pub proof fn list_covers_what_is_referenced(vars: Seq<VarView>, sessions: Seq<SessionView>)
    ensures
        forall|name: Seq<char>|
            model::var_names(model::merged(vars, sessions)).contains(name)
                <==> model::var_names(vars).contains(name) || model::referenced(
                template::all_templates(sessions),
            ).contains(name),
        model::var_names(vars).no_duplicates() ==> model::var_names(
            model::merged(vars, sessions),
        ).no_duplicates(),
        model::merged(vars, sessions).to_multiset() == (vars + unset_rows(
            vars,
            sessions,
        )).to_multiset(),
        forall|i: int, j: int|
            0 <= i < j < model::merged(vars, sessions).len() ==> text::no_later(
                (#[trigger] model::merged(vars, sessions)[i]).name,
                (#[trigger] model::merged(vars, sessions)[j]).name,
            ),
{
    let by_name = order::ranking::<model::Var>();
    let lacking = model::missing(vars, sessions);
    let rows = vars + unset_rows(vars, sessions);
    let names = model::var_names(rows);
    names_are_a_ranking();
    order::sorting_is_stable(rows, by_name);
    missing_is(vars, sessions);
    sorting_keeps_names(rows);
    assert(names =~= model::var_names(vars) + lacking);
    assert forall|name: Seq<char>|
        names.contains(name) <==> model::var_names(vars).contains(name) || lacking.contains(
            name,
        ) by {
        if model::var_names(vars).contains(name) {
            let i = choose|i: int|
                0 <= i < model::var_names(vars).len() && model::var_names(vars)[i] == name;
            assert(names[i] == name);
        }
        if lacking.contains(name) {
            let i = choose|i: int| 0 <= i < lacking.len() && lacking[i] == name;
            assert(names[vars.len() + i] == name);
        }
    }
    if model::var_names(vars).no_duplicates() {
        assert forall|i: int, j: int|
            0 <= i < names.len() && 0 <= j < names.len() && i != j implies names[i]
            != names[j] by {
            let n = vars.len() as int;
            if i < n && j >= n {
                assert(model::var_names(vars)[i] == names[i]);
                assert(lacking[j - n] == names[j]);
                assert(lacking.contains(names[j]));
            } else if j < n && i >= n {
                assert(model::var_names(vars)[j] == names[j]);
                assert(lacking[i - n] == names[i]);
                assert(lacking.contains(names[i]));
            }
        }
    }
    let merged = model::merged(vars, sessions);
    assert forall|i: int, j: int| 0 <= i < j < merged.len() implies text::no_later(
        (#[trigger] merged[i]).name,
        (#[trigger] merged[j]).name,
    ) by {
        assert(by_name(merged[i], merged[j]));
    }
}

proof fn set_rows_of_merged(vars: Seq<VarView>, sessions: Seq<SessionView>)
    ensures
        model::set_rows(model::merged(vars, sessions)) == order::sorted(
            model::set_rows(vars),
            order::ranking::<model::Var>(),
        ),
{
    let by_name = order::ranking::<model::Var>();
    let is_set = |v: VarView| !v.unset;
    let rows = unset_rows(vars, sessions);
    names_are_a_ranking();
    order::sorted_of_filtered(vars + rows, by_name, is_set);
    Seq::filter_distributes_over_add(vars, rows, is_set);
    if rows.filter(is_set).len() > 0 {
        let row = rows.filter(is_set)[0];
        assert(rows.filter(is_set).contains(row));
        rows.lemma_filter_pred(is_set, 0);
        rows.lemma_filter_contains_rev(is_set, row);
    }
    assert((vars + rows).filter(is_set) =~= vars.filter(is_set));
}

/// A variable that is set stays a set row, whatever the templates reference:
/// the set rows of the list are the variables that are set, by name.
pub proof fn set_variables_stay_set(vars: Seq<VarView>, sessions: Seq<SessionView>)
    ensures
        model::set_rows(model::merged(vars, sessions)) == order::sorted(
            model::set_rows(vars),
            order::ranking::<model::Var>(),
        ),
        model::set_rows(model::merged(vars, sessions)).to_multiset() == model::set_rows(
            vars,
        ).to_multiset(),
{
    set_rows_of_merged(vars, sessions);
    names_are_a_ranking();
    order::sorting_is_stable(model::set_rows(vars), order::ranking::<model::Var>());
}

/// The last row of a name gives its value.
proof fn value_is_the_last(rows: Seq<VarView>, name: Seq<char>)
    ensures
        ({
            let map = template::map_of(model::name_values(rows));
            let named = rows.filter(|v: VarView| v.name == name);
            &&& map.contains_key(name) <==> named.len() > 0
            &&& map.contains_key(name) ==> map[name] == named.last().value
        }),
    decreases rows.len(),
{
    let is_named = |v: VarView| v.name == name;
    reveal(Seq::filter);
    if rows.len() > 0 {
        let rest = rows.drop_last();
        value_is_the_last(rest, name);
        assert(model::name_values(rows).drop_last() =~= model::name_values(rest));
        assert(model::name_values(rows).last() == (rows.last().name, rows.last().value));
    } else {
        assert(model::name_values(rows) =~= Seq::empty());
    }
}

proof fn sorting_keeps_values(rows: Seq<VarView>)
    ensures
        template::map_of(
            model::name_values(order::sorted(rows, order::ranking::<model::Var>())),
        ) == template::map_of(model::name_values(rows)),
{
    let by_name = order::ranking::<model::Var>();
    let sorted = order::sorted(rows, by_name);
    names_are_a_ranking();
    order::sorting_is_stable(rows, by_name);
    let a = template::map_of(model::name_values(sorted));
    let b = template::map_of(model::name_values(rows));
    assert forall|name: Seq<char>|
        a.dom().contains(name) == b.dom().contains(name) && (a.dom().contains(name)
            ==> #[trigger] a[name] == #[trigger] b[name]) by {
        let is_named = |v: VarView| v.name == name;
        let x = model::unset_row(name);
        let is_level = |v: VarView| by_name(v, x) && by_name(x, v);
        assert forall|v: VarView| #[trigger] is_named(v) == is_level(v) by {
            if is_level(v) {
                text::no_later_is_antisymmetric(v.name, name);
            }
            if is_named(v) {
                text::no_later_is_total(name, name);
            }
        }
        assert(is_named =~= is_level);
        value_is_the_last(sorted, name);
        value_is_the_last(rows, name);
        assert(order::level_with(sorted, x, by_name) == order::level_with(rows, x, by_name));
    }
    assert forall|name: Seq<char>| a.dom().contains(name) == b.dom().contains(name) by {
        assert(a[name] == a[name] && b[name] == b[name]);
    }
    assert(a.dom() =~= b.dom());
    assert(a =~= b);
}

/// Unset rows carry no value: what templates resolve to, and which values are
/// offered for a variable, is the same with them and without them. A token of
/// an unset variable stays as it is, rather than vanishing.
pub proof fn unset_rows_change_no_values(
    vars: Seq<VarView>,
    sessions: Seq<SessionView>,
    target: Seq<char>,
)
    ensures
        model::resolution(model::merged(vars, sessions)) == model::resolution(vars),
        template::candidates_for(
            sessions,
            model::resolution(model::merged(vars, sessions)),
            target,
        ) == template::candidates_for(sessions, model::resolution(vars), target),
{
    set_rows_of_merged(vars, sessions);
    sorting_keeps_values(model::set_rows(vars));
}

/// Deriving the variable list again from the same sessions changes nothing:
/// unset rows never feed back as if they were set. The cursor stays, too, if
/// no variable is listed as set twice.
pub proof fn remerging_is_idempotent(vs: VarsView, sessions: Seq<SessionView>)
    ensures
        vs.remerged(sessions).remerged(sessions).vars == vs.remerged(sessions).vars,
        model::var_names(model::set_rows(vs.vars)).no_duplicates() ==> vs.remerged(
            sessions,
        ).remerged(sessions) == vs.remerged(sessions),
{
    let by_name = order::ranking::<model::Var>();
    let real_rows = model::set_rows(vs.vars);
    let again = order::sorted(real_rows, by_name);
    let is_set = |v: VarView| !v.unset;
    names_are_a_ranking();
    set_rows_of_merged(real_rows, sessions);
    // The set rows are all set.
    assert(model::set_rows(real_rows) =~= real_rows) by {
        filter_twice(vs.vars, is_set);
    }
    sorting_keeps_names(real_rows);
    let absent_a = |t: Seq<char>| !model::var_names(real_rows).contains(t);
    let absent_b = |t: Seq<char>| !model::var_names(again).contains(t);
    assert(absent_a =~= absent_b);
    assert(model::missing(again, sessions) == model::missing(real_rows, sessions));
    order::sorted_of_presorted(real_rows, unset_rows(real_rows, sessions), by_name);
    let once = vs.remerged(sessions);
    assert(once.remerged(sessions).vars == once.vars);
    if model::var_names(real_rows).no_duplicates() {
        list_covers_what_is_referenced(real_rows, sessions);
        let names = model::var_names(once.vars);
        if let Some(name) = vs.selected_name() {
            text::position_exists(names, name);
        }
        if 0 <= once.selected < once.vars.len() {
            assert(names[once.selected] == once.vars[once.selected].name);
            assert(text::is_first(names, names[once.selected], once.selected));
            text::position_is(names, names[once.selected], once.selected);
        }
    }
}

proof fn filter_twice(rows: Seq<VarView>, keep: spec_fn(VarView) -> bool)
    ensures
        rows.filter(keep).filter(keep) == rows.filter(keep),
    decreases rows.len(),
{
    reveal(Seq::filter);
    if rows.len() > 0 {
        filter_twice(rows.drop_last(), keep);
        if keep(rows.last()) {
            let kept = rows.drop_last().filter(keep);
            assert(kept.push(rows.last()).drop_last() =~= kept);
        }
    }
}

/// A template resolves with the value of a variable's last row that is set.
pub proof fn set_rows_give_the_values(vars: Seq<VarView>, i: int)
    requires
        0 <= i < vars.len(),
        !vars[i].unset,
        forall|j: int|
            i < j < vars.len() && (#[trigger] vars[j]).name == vars[i].name ==> vars[j].unset,
    ensures
        model::resolution(vars).contains_key(vars[i].name),
        model::resolution(vars)[vars[i].name] == vars[i].value,
    decreases vars.len(),
{
    reveal(Seq::filter);
    let rest = vars.drop_last();
    let last = vars.last();
    let set = model::set_rows(rest);
    if !last.unset {
        let pairs = model::name_values(set);
        assert(model::name_values(set.push(last)) =~= pairs.push((last.name, last.value)));
        assert(pairs.push((last.name, last.value)).drop_last() =~= pairs);
    }
    if i < vars.len() - 1 {
        assert forall|j: int| i < j < rest.len() && (#[trigger] rest[j]).name
            == rest[i].name implies rest[j].unset by {
            assert(vars[j].name == vars[i].name);
        }
        set_rows_give_the_values(rest, i);
        assert(vars[vars.len() - 1].name == vars[i].name ==> last.unset);
    }
}

/// A variable without a row that is set has no value.
pub proof fn values_come_from_set_rows(vars: Seq<VarView>, name: Seq<char>)
    requires
        model::resolution(vars).contains_key(name),
    ensures
        exists|i: int| 0 <= i < vars.len() && !vars[i].unset && (#[trigger] vars[i]).name == name,
{
    let set = model::set_rows(vars);
    let pairs = model::name_values(set);
    template::values_are_given(pairs, name);
    let k = choose|k: int| 0 <= k < pairs.len() && (#[trigger] pairs[k]).0 == name;
    vars.lemma_filter_pred(|v: VarView| !v.unset, k);
    assert(set.contains(set[k]));
    vars.lemma_filter_contains_rev(|v: VarView| !v.unset, set[k]);
    let i = choose|i: int| 0 <= i < vars.len() && vars[i] == set[k];
    assert(vars[i].name == name);
}

proof fn referenced_is(templates: Seq<Seq<char>>, name: Seq<char>)
    ensures
        model::referenced(templates).contains(name) <==> exists|t: int|
            0 <= t < templates.len() && template::mentions(#[trigger] templates[t], name),
    decreases templates.len(),
{
    if templates.len() > 0 {
        let rest = templates.drop_last();
        let before = model::referenced(rest);
        let all = model::referenced(templates);
        let last = template::vars_of(templates.last());
        referenced_is(rest, name);
        if all.contains(name) {
            let k = choose|k: int| 0 <= k < all.len() && all[k] == name;
            if k < before.len() {
                assert(before[k] == name);
                let t = choose|t: int|
                    0 <= t < rest.len() && template::mentions(#[trigger] rest[t], name);
                assert(template::mentions(templates[t], name));
            } else {
                assert(last[k - before.len()] == name);
                assert(template::mentions(templates[templates.len() - 1], name));
            }
        }
        if exists|t: int| 0 <= t < templates.len() && template::mentions(
            #[trigger] templates[t],
            name,
        ) {
            let t = choose|t: int|
                0 <= t < templates.len() && template::mentions(#[trigger] templates[t], name);
            if t < rest.len() {
                assert(template::mentions(rest[t], name));
                let k = choose|k: int| 0 <= k < before.len() && before[k] == name;
                assert(all[k] == name);
            } else {
                let k = choose|k: int| 0 <= k < last.len() && last[k] == name;
                assert(all[before.len() + k] == name);
            }
        }
    }
}

/// Some client dialed in with a template that has `name` in braces.
pub open spec fn in_use(sessions: Seq<SessionView>, name: Seq<char>) -> bool {
    exists|i: int, tmpl: Seq<char>, at: int| #[trigger]
        template::dialed_with(sessions, i, tmpl) && #[trigger] template::braced_at(tmpl, name, at)
}

/// The rows of the variable list are those of the variables that were listed
/// and, for every other variable that a template in use has in braces, one
/// without a value that is marked as unset.
#[verifier::rlimit(40)]
pub proof fn list_has_a_row_for_every_variable(
    vars: Seq<VarView>,
    sessions: Seq<SessionView>,
    row: VarView,
)
    ensures
        model::merged(vars, sessions).contains(row) <==> vars.contains(row) || (row.unset
            && row.value.len() == 0 && template::names_a_variable(row.name) && in_use(
            sessions,
            row.name,
        ) && forall|i: int| 0 <= i < vars.len() ==> (#[trigger] vars[i]).name != row.name),
{
    let merged = model::merged(vars, sessions);
    let lacking = model::missing(vars, sessions);
    let extra = unset_rows(vars, sessions);
    let rows = vars + extra;
    let templates = template::all_templates(sessions);
    let names = model::var_names(vars);
    list_covers_what_is_referenced(vars, sessions);
    missing_is(vars, sessions);
    referenced_is(templates, row.name);
    merged.to_multiset_ensures();
    rows.to_multiset_ensures();
    assert(merged.to_multiset().count(row) == rows.to_multiset().count(row));
    assert(merged.contains(row) <==> rows.contains(row));
    assert(rows.contains(row) <==> vars.contains(row) || extra.contains(row)) by {
        if vars.contains(row) {
            let k = choose|k: int| 0 <= k < vars.len() && vars[k] == row;
            assert(rows[k] == row);
        }
        if extra.contains(row) {
            let k = choose|k: int| 0 <= k < extra.len() && extra[k] == row;
            assert(rows[vars.len() + k] == row);
        }
    }
    assert(extra.contains(row) <==> row == model::unset_row(row.name) && lacking.contains(
        row.name,
    )) by {
        if extra.contains(row) {
            let k = choose|k: int| 0 <= k < extra.len() && extra[k] == row;
            assert(lacking[k] == row.name);
        }
        if row == model::unset_row(row.name) && lacking.contains(row.name) {
            let k = choose|k: int| 0 <= k < lacking.len() && lacking[k] == row.name;
            assert(extra[k] == row);
        }
    }
    assert(row == model::unset_row(row.name) <==> row.unset && row.value.len() == 0) by {
        if row.value.len() == 0 {
            assert(row.value =~= Seq::empty());
        }
    }
    assert(names.contains(row.name) <==> exists|i: int|
        0 <= i < vars.len() && (#[trigger] vars[i]).name == row.name) by {
        if names.contains(row.name) {
            let k = choose|k: int| 0 <= k < names.len() && names[k] == row.name;
            assert(vars[k].name == row.name);
        }
        if exists|i: int| 0 <= i < vars.len() && (#[trigger] vars[i]).name == row.name {
            let i = choose|i: int| 0 <= i < vars.len() && (#[trigger] vars[i]).name == row.name;
            assert(names[i] == row.name);
        }
    }
    if exists|t: int| 0 <= t < templates.len() && template::mentions(
        #[trigger] templates[t],
        row.name,
    ) {
        let t = choose|t: int|
            0 <= t < templates.len() && template::mentions(#[trigger] templates[t], row.name);
        let tmpl = templates[t];
        template::mentioned_variables_stand_in_braces(tmpl, row.name);
        assert(templates.contains(tmpl));
        template::templates_in_use_are_dialed(sessions, tmpl);
        let i = choose|i: int| template::dialed_with(sessions, i, tmpl);
        let at = choose|at: int| template::braced_at(tmpl, row.name, at);
        assert(template::dialed_with(sessions, i, tmpl) && template::braced_at(tmpl, row.name, at));
    }
    if template::names_a_variable(row.name) && in_use(sessions, row.name) {
        let (i, tmpl, at) = choose|i: int, tmpl: Seq<char>, at: int| #[trigger]
            template::dialed_with(sessions, i, tmpl) && #[trigger] template::braced_at(
                tmpl,
                row.name,
                at,
            );
        template::templates_in_use_are_dialed(sessions, tmpl);
        template::mentioned_variables_stand_in_braces(tmpl, row.name);
        let t = choose|t: int| 0 <= t < templates.len() && templates[t] == tmpl;
        assert(template::mentions(templates[t], row.name));
    }
}

}
