//! The pure update function: `(&mut Model, Event) -> Option<Command>`.
//!
//! Free of I/O — no stdin reads, no shell-outs, no ANSI writes. All
//! the dispatch policy (which key does what in which mode, when to
//! clear the transient error, when to enter or leave a modal mode,
//! when to refresh) lives here.
//!
//! Side effects are expressed as `Command` return values, which the
//! executor carries out.

use vstd::prelude::*;

use super::command::{Command, CommandView};
use super::event::{Event, EventView};
use super::keymap;
use super::keymap::{normal_action, Key, NormalAction, CTRL_C};
use super::model;
use super::model::{
    merge_unset_vars, position_of_var, remerge_preserving_cursor, resolution_map, EditState,
    EditView, Mode, ModeView, Model, ModelView, Selection, SelectionView, VarPromptState,
    VarPromptView, VarsState, VarsView,
};
use super::template;
use super::template::{candidate_values, filter_rank};
use crate::session;
use crate::session::{position_of, Session, SessionView};
use crate::text;
use crate::text::framed;

verus! {

// -- What events do --

/// A model, and the command that goes out with it.
pub type Outcome = (ModelView, Option<CommandView>);

/// Esc and Ctrl-C: the reflexive "get me out of here" keys.
pub open spec fn is_cancel(key: Key) -> bool {
    key == Key::Esc || key == Key::Ctrl(CTRL_C)
}

/// `text` without its last character.
pub open spec fn shortened(text: Seq<char>) -> Seq<char> {
    if text.len() == 0 {
        text
    } else {
        text.drop_last()
    }
}

/// What a bound key does in normal mode, with nothing stale in the way.
pub open spec fn acted(m: ModelView, action: Option<NormalAction>) -> Outcome {
    match action {
        None => (m, None),
        Some(NormalAction::SelectPrev) => (m.after_prev(), None),
        Some(NormalAction::SelectNext) => (m.after_next(), None),
        Some(NormalAction::AttachSelected) => match m.selected_name() {
            Some(name) => (m, Some(CommandView::Attach { name, force: false })),
            None => (m, None),
        },
        Some(NormalAction::NewSession) => (m.in_mode(ModeView::CreateInput(Seq::empty())), None),
        Some(NormalAction::KillSelected) => match m.selected_name() {
            Some(name) => (m.in_mode(ModeView::ConfirmKill(name)), None),
            None => (m, None),
        },
        Some(NormalAction::EnsureDaemon) => (m, Some(CommandView::EnsureDaemon)),
        Some(NormalAction::Variables) => (m, Some(CommandView::FetchVars)),
        Some(NormalAction::Quit) => (m, Some(CommandView::Quit)),
    }
}

/// The actions that strike the selected session.
pub open spec fn strikes_selection(action: Option<NormalAction>) -> bool {
    action == Some(NormalAction::AttachSelected) || action == Some(NormalAction::KillSelected)
}

/// A stale selection acknowledged: the error goes, and the cursor lands on
/// the first row for keys that would otherwise leave it nowhere.
pub open spec fn acknowledged(m: ModelView, action: Option<NormalAction>) -> ModelView {
    ModelView {
        error: None,
        selection: if strikes_selection(action) || action is None {
            model::top_of(m.sessions)
        } else {
            SelectionView::Nothing
        },
        ..m
    }
}

/// A key in normal mode. While the selection is stale, the key first
/// acknowledges that; a key that would strike the selection does only that.
pub open spec fn normal_key(m: ModelView, key: Key) -> Outcome {
    let action = keymap::action_of(key);
    if !m.stale() {
        acted(m, action)
    } else if strikes_selection(action) {
        (acknowledged(m, action), None)
    } else {
        acted(acknowledged(m, action), action)
    }
}

/// A key while the name of a new session is typed.
pub open spec fn create_key(m: ModelView, buf: Seq<char>, key: Key) -> Outcome {
    let normal = m.in_mode(ModeView::Normal);
    if is_cancel(key) {
        (normal, None)
    } else {
        match key {
            Key::Enter => if buf.len() == 0 {
                (normal, None)
            } else if m.lists(buf) {
                (normal.with_error("session '"@ + buf + "' already exists"@), None)
            } else {
                (normal, Some(CommandView::Create(buf)))
            },
            Key::Backspace => (m.in_mode(ModeView::CreateInput(shortened(buf))), None),
            Key::Char(b) => if b == ' ' as u8 {
                (m, None)
            } else {
                (m.in_mode(ModeView::CreateInput(buf.push(b as char))), None)
            },
            _ => (m, None),
        }
    }
}

/// The pairs collected once the current variable's input is taken in: an
/// empty input skips the variable.
pub open spec fn collected_with_input(vp: VarPromptView) -> Seq<(Seq<char>, Seq<char>)> {
    if vp.input.len() == 0 {
        vp.collected
    } else {
        vp.collected.push((vp.vars[vp.idx], vp.input))
    }
}

/// A key in the create-time variable prompt.
pub open spec fn create_vars_key(m: ModelView, vp: VarPromptView, key: Key) -> Outcome {
    if is_cancel(key) {
        (m.in_mode(ModeView::Normal), None)
    } else {
        match key {
            Key::Enter => if vp.idx + 1 == vp.vars.len() {
                (
                    m.in_mode(ModeView::Normal),
                    Some(
                        CommandView::CreateWithVars {
                            name: vp.name,
                            set_vars: collected_with_input(vp),
                        },
                    ),
                )
            } else {
                (
                    m.in_mode(
                        ModeView::CreateVarPrompt(
                            VarPromptView {
                                idx: vp.idx + 1,
                                input: Seq::empty(),
                                collected: collected_with_input(vp),
                                ..vp
                            },
                        ),
                    ),
                    None,
                )
            },
            Key::Backspace => (
                m.in_mode(
                    ModeView::CreateVarPrompt(VarPromptView { input: shortened(vp.input), ..vp }),
                ),
                None,
            ),
            Key::Char(b) => (
                m.in_mode(
                    ModeView::CreateVarPrompt(
                        VarPromptView { input: vp.input.push(b as char), ..vp },
                    ),
                ),
                None,
            ),
            _ => (m, None),
        }
    }
}

pub open spec fn is_yes(key: Key) -> bool {
    key == Key::Char('y' as u8) || key == Key::Char('Y' as u8)
}

pub open spec fn is_no(key: Key) -> bool {
    key == Key::Char('n' as u8) || key == Key::Char('N' as u8) || is_cancel(key)
}

/// A key in the kill prompt for `name`.
pub open spec fn confirm_kill_key(m: ModelView, name: Seq<char>, key: Key) -> Outcome {
    if is_yes(key) {
        (m.in_mode(ModeView::Normal).moved_off(name), Some(CommandView::Kill(name)))
    } else if is_no(key) {
        (m.in_mode(ModeView::Normal), None)
    } else {
        (m, None)
    }
}

/// A key in the force-attach prompt for `name`.
pub open spec fn confirm_force_key(m: ModelView, name: Seq<char>, key: Key) -> Outcome {
    if is_yes(key) {
        (m.in_mode(ModeView::Normal), Some(CommandView::Attach { name, force: true }))
    } else if is_no(key) {
        (m.in_mode(ModeView::Normal), None)
    } else {
        (m, None)
    }
}

/// The highlight moved within the shown list, and the highlighted candidate
/// copied into the field; the filter stays as it is.
pub open spec fn arrowed(edit: EditView, down: bool) -> EditView {
    let shown = edit.shown();
    if shown.len() == 0 {
        edit
    } else {
        let highlight = if down {
            if edit.highlight + 1 < shown.len() {
                edit.highlight + 1
            } else {
                shown.len() - 1
            }
        } else if edit.highlight > 0 {
            edit.highlight - 1
        } else {
            0
        };
        EditView { highlight, field: shown[highlight], ..edit }
    }
}

/// The field set by typing: the filter follows and the highlight returns to
/// the top.
pub open spec fn typed(edit: EditView, field: Seq<char>) -> EditView {
    EditView { field, filter: field, highlight: 0, ..edit }
}

/// The value that Enter applies: the field, or the highlighted candidate if
/// the field is empty.
pub open spec fn applied_value(edit: EditView) -> Seq<char> {
    if edit.field.len() > 0 {
        edit.field
    } else if 0 <= edit.highlight < edit.shown().len() {
        edit.shown()[edit.highlight]
    } else {
        Seq::empty()
    }
}

/// A key in the value selector.
pub open spec fn edit_key(vs: VarsView, edit: EditView, key: Key) -> (VarsView, Option<CommandView>) {
    if is_cancel(key) {
        (VarsView { edit: None, ..vs }, None)
    } else {
        match key {
            Key::Up => (VarsView { edit: Some(arrowed(edit, false)), ..vs }, None),
            Key::Down => (VarsView { edit: Some(arrowed(edit, true)), ..vs }, None),
            Key::Enter => (
                VarsView { edit: Some(EditView { field: Seq::empty(), ..edit }), ..vs },
                match vs.selected_name() {
                    Some(name) => Some(CommandView::SetVar { name, value: applied_value(edit) }),
                    None => None,
                },
            ),
            Key::Backspace => (
                VarsView { edit: Some(typed(edit, shortened(edit.field))), ..vs },
                None,
            ),
            Key::Char(b) => (
                VarsView { edit: Some(typed(edit, edit.field.push(b as char))), ..vs },
                None,
            ),
            _ => (vs, None),
        }
    }
}

/// The cursor of the variable list moved by `by`, wrapping at both ends.
pub open spec fn vars_moved(vs: VarsView, by: int) -> VarsView {
    if vs.vars.len() == 0 {
        vs
    } else {
        VarsView { selected: (vs.selected + by) % (vs.vars.len() as int), ..vs }
    }
}

/// The value selector opened on the variable under the cursor.
pub open spec fn selector_opened(vs: VarsView, sessions: Seq<SessionView>) -> VarsView {
    match vs.selected_name() {
        Some(name) => VarsView {
            edit: Some(
                EditView {
                    field: Seq::empty(),
                    filter: Seq::empty(),
                    candidates: template::candidates_for(
                        sessions,
                        model::resolution(vs.vars),
                        name,
                    ),
                    highlight: 0,
                },
            ),
            ..vs
        },
        None => vs,
    }
}

pub open spec fn is_char(key: Key, c: char) -> bool {
    key == Key::Char(c as u8)
}

/// A key while browsing the variables: the mode it leads to.
pub open spec fn browse_key(vs: VarsView, sessions: Seq<SessionView>, key: Key) -> ModeView {
    if key == Key::Down || is_char(key, 'j') || is_char(key, 'J') {
        ModeView::Vars(vars_moved(vs, 1))
    } else if key == Key::Up || is_char(key, 'k') || is_char(key, 'K') {
        ModeView::Vars(vars_moved(vs, -1))
    } else if key == Key::Enter || is_char(key, 'e') {
        ModeView::Vars(selector_opened(vs, sessions))
    } else if is_cancel(key) || is_char(key, 'q') {
        ModeView::Normal
    } else {
        ModeView::Vars(vs)
    }
}

/// A key in the template-variable view.
pub open spec fn vars_key(m: ModelView, vs: VarsView, key: Key) -> Outcome {
    match vs.edit {
        Some(edit) => (
            m.in_mode(ModeView::Vars(edit_key(vs, edit, key).0)),
            edit_key(vs, edit, key).1,
        ),
        None => (m.in_mode(browse_key(vs, m.sessions, key)), None),
    }
}

/// A key, by mode.
pub open spec fn key_pressed(m: ModelView, key: Key) -> Outcome {
    match m.mode {
        ModeView::Normal => normal_key(m, key),
        ModeView::CreateInput(buf) => create_key(m, buf, key),
        ModeView::CreateVarPrompt(vp) => create_vars_key(m, vp, key),
        ModeView::ConfirmKill(name) => confirm_kill_key(m, name, key),
        ModeView::ConfirmForce(name) => confirm_force_key(m, name, key),
        ModeView::Vars(vs) => vars_key(m, vs, key),
    }
}

/// The error gone, and a stale selection with it.
pub open spec fn alert_cleared(m: ModelView) -> ModelView {
    ModelView {
        error: None,
        selection: if m.stale() {
            SelectionView::Nothing
        } else {
            m.selection
        },
        ..m
    }
}

/// A kill or force-attach prompt whose target is no longer listed, dropped.
pub open spec fn modal_cancelled(m: ModelView) -> ModelView {
    match m.mode {
        ModeView::ConfirmKill(name) | ModeView::ConfirmForce(name) => if m.lists(name) {
            m
        } else {
            m.in_mode(ModeView::Normal).with_error(model::gone_message(name))
        },
        _ => m,
    }
}

/// The variable view, if it is open, re-derived from the current sessions.
pub open spec fn vars_remerged(m: ModelView) -> ModelView {
    match m.mode {
        ModeView::Vars(vs) => m.in_mode(ModeView::Vars(vs.remerged(m.sessions))),
        _ => m,
    }
}

/// What is said of a failed `var set`.
pub open spec fn var_set_message(var: Seq<char>, err: Option<Seq<char>>) -> Seq<char> {
    match err {
        Some(e) => "var set "@ + var + ": "@ + e,
        None => "var set "@ + var + " failed"@,
    }
}

/// The variable view after a `var set` ended: no longer editing, and on
/// success over the refetched list, with the cursor on the variable just set.
pub open spec fn after_var_set(
    vs: VarsView,
    sessions: Seq<SessionView>,
    name: Seq<char>,
    ok: bool,
    vars: Option<Seq<model::VarView>>,
) -> VarsView {
    let closed = VarsView { edit: None, ..vs };
    match vars {
        Some(fresh) => if ok {
            let selected = match text::position(model::var_names(fresh), name) {
                Some(i) => i,
                None => 0,
            };
            VarsView { vars: fresh, selected, ..closed }.remerged(sessions)
        } else {
            closed
        },
        None => closed,
    }
}

/// Refresh unless a subscription keeps the list current anyway.
pub open spec fn unless_subscribed(m: ModelView) -> Option<CommandView> {
    if m.events_active {
        None
    } else {
        Some(CommandView::Refresh)
    }
}

/// What an event does, apart from clearing the error and refreshing on keystrokes.
pub open spec fn reacted(m: ModelView, event: EventView) -> Outcome {
    match event {
        EventView::Key(key) => key_pressed(m, key),
        EventView::FocusGained => (m, unless_subscribed(m)),
        EventView::EventsArrived => (m, Some(CommandView::Refresh)),
        EventView::SessionsRefreshed(fresh) => (
            vars_remerged(modal_cancelled(m.refreshed(fresh))),
            None,
        ),
        EventView::RefreshFailed(msg) => (m.with_error("shpool list: "@ + msg), None),
        EventView::AttachExited { ok, name } => {
            let cleared = alert_cleared(m);
            let told = if ok {
                cleared
            } else {
                cleared.with_error("shpool attach "@ + name + " failed"@)
            };
            (
                match text::position(session::names(m.sessions), name) {
                    Some(i) => told.selecting(SelectionView::At(i)),
                    None => told,
                },
                Some(CommandView::Refresh),
            )
        },
        EventView::KillFinished { ok, name, err } => {
            let cleared = alert_cleared(m);
            (
                if ok {
                    cleared
                } else {
                    cleared.with_error(
                        match err {
                            Some(e) => e,
                            None => "kill "@ + name + " failed"@,
                        },
                    )
                },
                Some(CommandView::Refresh),
            )
        },
        EventView::CreateNeedsVars { name, vars, set_vars } => (
            m.in_mode(
                ModeView::CreateVarPrompt(
                    VarPromptView {
                        name,
                        vars,
                        idx: 0,
                        input: Seq::empty(),
                        collected: Seq::empty(),
                        set_vars,
                    },
                ),
            ),
            None,
        ),
        EventView::CreateVarsFailed { var, err } => (m.with_error(var_set_message(var, err)), None),
        EventView::VarsFetched(vars) => (
            m.in_mode(
                ModeView::Vars(
                    VarsView { vars: model::merged(vars, m.sessions), selected: 0, edit: None },
                ),
            ),
            None,
        ),
        EventView::VarsFetchFailed(msg) => (m.with_error("shpool var list: "@ + msg), None),
        EventView::VarSetFinished { name, ok, err, vars } => {
            let shown = match m.mode {
                ModeView::Vars(vs) => m.in_mode(
                    ModeView::Vars(after_var_set(vs, m.sessions, name, ok, vars)),
                ),
                _ => m,
            };
            if ok {
                (shown, Some(CommandView::Refresh))
            } else {
                (shown.with_error(var_set_message(name, err)), None)
            }
        },
    }
}

/// What an event does. A keystroke clears the error, unless the selection is
/// stale: then the error stays for the handler to clear on acknowledgment.
/// A keystroke that leaves normal mode on screen and yields no command of
/// its own refreshes the list, unless a subscription does so.
pub open spec fn updated(m: ModelView, event: EventView) -> Outcome {
    let seen = if event is Key && !m.stale() {
        ModelView { error: None, ..m }
    } else {
        m
    };
    let (after, cmd) = reacted(seen, event);
    if event is Key && cmd is None && after.mode is Normal && !after.events_active {
        (after, Some(CommandView::Refresh))
    } else {
        (after, cmd)
    }
}

// -- The handlers --

fn cancels(key: Key) -> (r: bool)
    ensures
        r == is_cancel(key),
{
    key == Key::Esc || key == Key::Ctrl(CTRL_C)
}

/// Refresh unless an events subscription is already keeping the list
/// current. The focus-gained path is pure redundancy while subscribed.
fn refresh_unless_subscribed(model: &Model) -> (cmd: Option<Command>)
    ensures
        cmd.deep_view() == unless_subscribed(model.deep_view()),
{
    if model.events_active {
        None
    } else {
        Some(Command::Refresh)
    }
}

/// Clear the transient error and demote a stale selection back to a
/// clean slate, ahead of a completed action's own refresh. A valid
/// `At` selection is left untouched; only the stale/cleared alert goes.
fn clear_pre_action_alert(model: &mut Model)
    ensures
        final(model).deep_view() == alert_cleared(old(model).deep_view()),
        final(model).sessions == old(model).sessions,
{
    if model.is_stale() {
        model.selection = Selection::Nothing;
    }
    model.error = None;
}

/// Drop a kill / force-attach modal whose target session has vanished
/// from under it — any refresh (event-driven, focus, the keystroke
/// fallback) can race ahead of the user mid-prompt. CreateInput and
/// CreateVarPrompt are safe: their state is a name/value being typed,
/// not a reference to an existing session.
fn cancel_modal_if_target_gone(model: &mut Model)
    ensures
        final(model).deep_view() == modal_cancelled(old(model).deep_view()),
        final(model).sessions == old(model).sessions,
{
    let target: String = match &model.mode {
        Mode::ConfirmKill(name) => name.clone(),
        Mode::ConfirmForce(name) => name.clone(),
        _ => {
            return ;
        },
    };
    proof {
        text::position_exists(session::names(model.sessions.deep_view()), target@);
    }
    if position_of(&model.sessions, target.as_str()).is_none() {
        model.mode = Mode::Normal;
        let msg = framed("session '", target.as_str(), "' is gone");
        model.error = Some(msg);
    }
}

fn handle_key(model: &mut Model, key: Key) -> (cmd: Option<Command>)
    requires
        old(model).deep_view().wf(),
    ensures
        final(model).deep_view() == key_pressed(old(model).deep_view(), key).0,
        cmd.deep_view() == key_pressed(old(model).deep_view(), key).1,
{
    match &model.mode {
        Mode::Normal => handle_key_normal(model, key),
        Mode::CreateInput(_) => handle_key_create(model, key),
        Mode::CreateVarPrompt(_) => handle_key_create_vars(model, key),
        Mode::ConfirmKill(_) | Mode::ConfirmForce(_) => handle_key_confirm(model, key),
        Mode::Vars(_) => handle_key_vars(model, key),
    }
}

fn handle_key_normal(model: &mut Model, key: Key) -> (cmd: Option<Command>)
    ensures
        final(model).deep_view() == normal_key(old(model).deep_view(), key).0,
        cmd.deep_view() == normal_key(old(model).deep_view(), key).1,
{
    let action = normal_action(key);
    // Acknowledge a stale selection on the first keystroke — whatever it
    // is. Clear the error; for the act-on-selection keys, also swallow
    // the keystroke so the action can't strike whatever shifted into the
    // vanished session's row.
    if model.is_stale() {
        model.error = None;
        let swallow = match action {
            Some(NormalAction::AttachSelected) | Some(NormalAction::KillSelected) => true,
            _ => false,
        };
        // Re-seat the cursor onto the freshest row for keys that would
        // otherwise strand it on nothing: a swallowed act-on-selection
        // key, or any unbound key. Navigation re-seats itself and the
        // mode-changing keys resolve their own state.
        model.selection = if (swallow || action.is_none()) && model.sessions.len() > 0 {
            Selection::At(0)
        } else {
            Selection::Nothing
        };
        if swallow {
            return None;
        }
    }
    match action {
        None => None,
        Some(NormalAction::SelectPrev) => {
            model.select_prev();
            None
        },
        Some(NormalAction::SelectNext) => {
            model.select_next();
            None
        },
        Some(NormalAction::AttachSelected) => {
            // The executor pre-flights fresh data and may pop a
            // force-confirm prompt if the session turns out to be attached
            // elsewhere — no reason to guess from (possibly stale) state.
            match model.selected_name() {
                Some(name) => Some(Command::Attach { name: name.to_owned(), force: false }),
                None => None,
            }
        },
        Some(NormalAction::NewSession) => {
            model.mode = Mode::CreateInput(String::new());
            None
        },
        Some(NormalAction::KillSelected) => {
            let name: String = match model.selected_name() {
                Some(name) => name.to_owned(),
                None => {
                    return None;
                },
            };
            model.mode = Mode::ConfirmKill(name);
            None
        },
        Some(NormalAction::EnsureDaemon) => Some(Command::EnsureDaemon),
        Some(NormalAction::Variables) => Some(Command::FetchVars),
        Some(NormalAction::Quit) => Some(Command::Quit),
    }
}

fn handle_key_create(model: &mut Model, key: Key) -> (cmd: Option<Command>)
    requires
        old(model).mode is CreateInput,
    ensures
        old(model).deep_view().mode matches ModeView::CreateInput(buf) && final(model).deep_view()
            == create_key(old(model).deep_view(), buf, key).0 && cmd.deep_view() == create_key(
            old(model).deep_view(),
            buf,
            key,
        ).1,
{
    if cancels(key) {
        model.mode = Mode::Normal;
        return None;
    }
    match key {
        Key::Enter => {
            let name: String = match &model.mode {
                Mode::CreateInput(buf) => buf.clone(),
                _ => String::new(),
            };
            model.mode = Mode::Normal;
            if name.as_str().is_empty() {
                return None;
            }
            // Reject duplicates here rather than in the executor. The
            // model may be a touch stale (auto-refresh is skipped while
            // the prompt is open); in the rare race the user sees
            // `already exists` on one attempt and a fresh list on the next.
            proof {
                text::position_exists(session::names(model.sessions.deep_view()), name@);
            }
            if position_of(&model.sessions, name.as_str()).is_some() {
                let msg = framed("session '", name.as_str(), "' already exists");
                model.error = Some(msg);
                return None;
            }
            Some(Command::Create(name))
        },
        Key::Backspace => {
            if let Mode::CreateInput(buf) = &mut model.mode {
                let _ = buf.pop();
            }
            None
        },
        // Printable non-space ASCII. shpool rejects whitespace in
        // names. The decoder already filtered non-ASCII bytes.
        Key::Char(b) => {
            if b != ' ' as u8 {
                if let Mode::CreateInput(buf) = &mut model.mode {
                    buf.push(b as char);
                }
            }
            None
        },
        _ => None,
    }
}

/// Handle a key in the create-time variable prompt. Walks the unknown
/// vars one at a time: printable bytes (incl. space — values may hold
/// spaces, unlike session names) / Backspace edit the current `input`;
/// Enter pushes `(vars[idx], input)` to `collected` when non-empty (an
/// empty entry skips that var — it stays unset) and advances `idx`. Once
/// every var has been visited, drop to Normal (so a failed apply's error
/// isn't hidden behind this bottom-bar label) and emit
/// `Command::CreateWithVars` with the collected pairs. Esc/Ctrl-C cancel
/// the whole prompt (nothing set, no session created). Other keys
/// are consumed.
fn handle_key_create_vars(model: &mut Model, key: Key) -> (cmd: Option<Command>)
    requires
        old(model).mode is CreateVarPrompt,
        old(model).deep_view().mode.wf(),
    ensures
        old(model).deep_view().mode matches ModeView::CreateVarPrompt(vp)
            && final(model).deep_view() == create_vars_key(old(model).deep_view(), vp, key).0
            && cmd.deep_view() == create_vars_key(old(model).deep_view(), vp, key).1,
{
    if cancels(key) {
        model.mode = Mode::Normal;
        return None;
    }
    match key {
        Key::Enter => {
            let mut apply: Option<Command> = None;
            if let Mode::CreateVarPrompt(vp) = &mut model.mode {
                let ghost start = vp.deep_view();
                let n: usize = vp.vars.len();
                assert(vp.idx < n);
                if !vp.input.as_str().is_empty() {
                    let var: String = vp.vars[vp.idx].clone();
                    let value: String = vp.input.clone();
                    let ghost before = vp.collected.deep_view();
                    let ghost pair = (var@, value@);
                    vp.collected.push((var, value));
                    assert(vp.collected.deep_view() =~= before.push(pair));
                }
                assert(vp.collected.deep_view() == collected_with_input(start));
                vp.idx = vp.idx + 1;
                if vp.idx == n {
                    let mut set_vars: Vec<(String, String)> = Vec::new();
                    std::mem::swap(&mut set_vars, &mut vp.collected);
                    apply = Some(Command::CreateWithVars { name: vp.name.clone(), set_vars });
                } else {
                    vp.input = String::new();
                }
            }
            // Drop to Normal before emitting so an apply failure's
            // parked error isn't outranked by this prompt's label.
            if apply.is_some() {
                model.mode = Mode::Normal;
            }
            apply
        },
        Key::Backspace => {
            if let Mode::CreateVarPrompt(vp) = &mut model.mode {
                let _ = vp.input.pop();
            }
            None
        },
        // Printable ASCII, space included.
        Key::Char(b) => {
            if let Mode::CreateVarPrompt(vp) = &mut model.mode {
                vp.input.push(b as char);
            }
            None
        },
        // Other keys (arrows, Tab, Key::Other): consumed, input untouched.
        _ => None,
    }
}

/// Handle a key in either confirm modal (kill or force-attach). y/Y
/// confirms; n/N/Esc/Ctrl-C cancels; every other key — arrows, stray
/// letters, a fat-fingered space — is ignored so the prompt stays put.
fn handle_key_confirm(model: &mut Model, key: Key) -> (cmd: Option<Command>)
    requires
        old(model).mode is ConfirmKill || old(model).mode is ConfirmForce,
    ensures
        final(model).deep_view() == key_pressed(old(model).deep_view(), key).0,
        cmd.deep_view() == key_pressed(old(model).deep_view(), key).1,
{
    if key == Key::Char('y' as u8) || key == Key::Char('Y' as u8) {
        let mut mode = Mode::Normal;
        std::mem::swap(&mut mode, &mut model.mode);
        match mode {
            Mode::ConfirmKill(name) => {
                // Step the cursor onto a neighbor first so the
                // post-kill refresh reads the user's own kill as an
                // expected change, not a stale disappearance.
                model.advance_off(name.as_str());
                Some(Command::Kill(name))
            },
            Mode::ConfirmForce(name) => Some(Command::Attach { name, force: true }),
            _ => None,
        }
    } else if key == Key::Char('n' as u8) || key == Key::Char('N' as u8) || cancels(key) {
        model.mode = Mode::Normal;
        None
    } else {
        // Any other key: stay in the modal rather than dismissing it.
        None
    }
}

/// Handle a key in the value selector. Up/Down move the highlight within
/// the candidate list (copying the highlighted value into `field`, leaving
/// `filter` frozen so the list stays put); printable bytes (incl. space) /
/// Backspace edit `field`, refresh `filter` from it, and reset the
/// highlight to the top; Enter commits a `Command::SetVar` — applying
/// `field`, or the highlighted candidate when `field` is empty; Esc/Ctrl-C
/// cancel the edit. Other non-printables are ignored.
fn handle_key_edit(vs: &mut VarsState, key: Key) -> (cmd: Option<Command>)
    requires
        old(vs).edit is Some,
        old(vs).deep_view().wf(),
    ensures
        old(vs).deep_view().edit matches Some(edit) && final(vs).deep_view() == edit_key(
            old(vs).deep_view(),
            edit,
            key,
        ).0 && cmd.deep_view() == edit_key(old(vs).deep_view(), edit, key).1,
{
    if cancels(key) {
        vs.edit = None;
        return None;
    }
    let ghost start = vs.deep_view();
    if let Some(edit) = &mut vs.edit {
        let ghost before = edit.deep_view();
        match key {
            // Up/Down move the highlight within the shown list and copy
            // the highlighted candidate into the field; the filter is left
            // frozen so the list stays stable while arrowing.
            Key::Up | Key::Down => {
                let shown = filter_rank(&edit.candidates, edit.filter.as_str());
                let n: usize = shown.len();
                if n > 0 {
                    assert(shown.deep_view().len() == n);
                    edit.highlight = if key == Key::Down {
                        if edit.highlight < n - 1 {
                            edit.highlight + 1
                        } else {
                            n - 1
                        }
                    } else if edit.highlight > 0 {
                        // Up: clamp at 0, so it never wraps.
                        edit.highlight - 1
                    } else {
                        0
                    };
                    edit.field = shown[edit.highlight].clone();
                    assert(shown.deep_view()[edit.highlight as int] == edit.field@);
                    assert(edit.deep_view() =~= arrowed(before, key == Key::Down));
                }
                None
            },
            Key::Enter => {
                // Empty field => apply the highlighted row (= the current
                // value, since an empty filter shows it first); otherwise
                // apply the literal field (no dead zone — `xm` is applied
                // as `xm` even while `xmr` is shown). The edit sub-state is
                // cleared when the set has ended.
                let mut value = String::new();
                if edit.field.as_str().is_empty() {
                    let shown = filter_rank(&edit.candidates, edit.filter.as_str());
                    if edit.highlight < shown.len() {
                        value = shown[edit.highlight].clone();
                        assert(shown.deep_view()[edit.highlight as int] == value@);
                    } else {
                        assert(value@ =~= Seq::empty());
                    }
                } else {
                    std::mem::swap(&mut value, &mut edit.field);
                }
                assert(value@ == applied_value(before));
                assert(edit.field@ =~= Seq::empty());
                if vs.selected < vs.vars.len() {
                    Some(Command::SetVar { name: vs.vars[vs.selected].name.clone(), value })
                } else {
                    None
                }
            },
            Key::Backspace => {
                let _ = edit.field.pop();
                edit.filter = edit.field.clone();
                edit.highlight = 0;
                None
            },
            // Values may hold spaces, so space is accepted unlike in the
            // create-name prompt. A typing keystroke snaps the highlight
            // back to the top.
            Key::Char(b) => {
                edit.field.push(b as char);
                edit.filter = edit.field.clone();
                edit.highlight = 0;
                None
            },
            // Other non-printables (Tab, unmapped CSI): the sequence is
            // consumed, the field untouched.
            _ => None,
        }
    } else {
        None
    }
}

/// Handle a key while browsing the variables: j/k/arrows move the cursor
/// (wrapping); e/Enter open the value selector (field empty, current value
/// just the highlighted row); Esc/q/Ctrl-C ask to leave the view, which is
/// what the result says. `Q` and everything else are ignored.
fn handle_key_browse(vs: &mut VarsState, sessions: &Vec<Session>, key: Key) -> (leave: bool)
    requires
        old(vs).deep_view().wf(),
        old(vs).edit is None,
    ensures
        leave == (browse_key(old(vs).deep_view(), sessions.deep_view(), key) is Normal),
        !leave ==> ModeView::Vars(final(vs).deep_view()) == browse_key(
            old(vs).deep_view(),
            sessions.deep_view(),
            key,
        ),
{
    if key == Key::Down || key == Key::Char('j' as u8) || key == Key::Char('J' as u8) {
        vars_select(vs, true);
        false
    } else if key == Key::Up || key == Key::Char('k' as u8) || key == Key::Char('K' as u8) {
        vars_select(vs, false);
        false
    } else if key == Key::Enter || key == Key::Char('e' as u8) {
        // Open the value selector: harvest candidates from existing
        // session names, start with an empty field/filter, highlight the
        // first row. No-op on an empty list.
        if vs.selected < vs.vars.len() {
            // Map from set rows only, so a synthetic unset co-var can't
            // collapse a literal {name} to empty in the harvest. An unset
            // target itself is fine: its current value reads as "".
            let vmap = resolution_map(&vs.vars);
            let candidates = candidate_values(
                sessions,
                &vmap,
                vs.vars[vs.selected].name.as_str(),
            );
            let edit = EditState {
                field: String::new(),
                filter: String::new(),
                candidates,
                highlight: 0,
            };
            vs.edit = Some(edit);
        }
        false
    } else {
        cancels(key) || key == Key::Char('q' as u8)
    }
}

/// Handle a key in the template-variable view.
fn handle_key_vars(model: &mut Model, key: Key) -> (cmd: Option<Command>)
    requires
        old(model).mode is Vars,
        old(model).deep_view().mode.wf(),
    ensures
        old(model).deep_view().mode matches ModeView::Vars(vs) && final(model).deep_view()
            == vars_key(old(model).deep_view(), vs, key).0 && cmd.deep_view() == vars_key(
            old(model).deep_view(),
            vs,
            key,
        ).1,
{
    // The harvest reads `sessions` while `mode` is changed; the two fields
    // are disjoint.
    let sessions = &model.sessions;
    let mut cmd: Option<Command> = None;
    let mut leave = false;
    if let Mode::Vars(vs) = &mut model.mode {
        if vs.edit.is_some() {
            cmd = handle_key_edit(vs, key);
        } else {
            leave = handle_key_browse(vs, sessions, key);
        }
    }
    if leave {
        model.mode = Mode::Normal;
    }
    cmd
}

/// Move the vars cursor one row down or up, wrapping at both ends. No-op on
/// an empty list.
fn vars_select(vs: &mut VarsState, down: bool)
    requires
        old(vs).deep_view().wf(),
    ensures
        final(vs).deep_view() == vars_moved(
            old(vs).deep_view(),
            if down {
                1
            } else {
                -1
            },
        ),
{
    let n: usize = vs.vars.len();
    if n == 0 {
        return ;
    }
    let at: usize = vs.selected;
    proof {
        let k = n as int;
        if down {
            if at + 1 < k {
                vstd::arithmetic::div_mod::lemma_small_mod((at + 1) as nat, n as nat);
            } else {
                vstd::arithmetic::div_mod::lemma_mod_self_0(k);
            }
        } else if at > 0 {
            vstd::arithmetic::div_mod::lemma_small_mod((at - 1) as nat, n as nat);
        } else {
            vstd::arithmetic::div_mod::lemma_fundamental_div_mod_converse(-1, k, -1, k - 1);
        }
    }
    vs.selected = if down {
        if at + 1 == n {
            0
        } else {
            at + 1
        }
    } else if at == 0 {
        n - 1
    } else {
        at - 1
    };
}

/// What is said of a failed `var set`.
fn var_set_error(var: &str, err: &Option<String>) -> (msg: String)
    ensures
        msg@ == var_set_message(var@, err.deep_view()),
{
    let mut msg = String::new();
    msg.append("var set ");
    msg.append(var);
    match err {
        Some(e) => {
            msg.append(": ");
            msg.append(e.as_str());
        },
        None => {
            msg.append(" failed");
        },
    }
    assert(msg@ =~= var_set_message(var@, err.deep_view()));
    msg
}

proof fn remerging_keeps_wf(vs: VarsView, sessions: Seq<SessionView>)
    ensures
        vs.edit is None ==> vs.remerged(sessions).wf(),
        vs.wf() ==> vs.remerged(sessions).wf(),
{
    let vars = model::merged(model::set_rows(vs.vars), sessions);
    match vs.selected_name() {
        Some(name) => {
            text::position_exists(model::var_names(vars), name);
        },
        None => {},
    }
}

/// No event breaks the model: the cursor stays on a row, and each mode's
/// own state keeps holding together.
pub proof fn updating_keeps_wf(m: ModelView, event: EventView)
    requires
        m.wf(),
        event.wf(),
    ensures
        updated(m, event).0.wf(),
{
    match event {
        EventView::SessionsRefreshed(fresh) => {
            let after = m.refreshed(fresh);
            match m.selected_name() {
                Some(name) => {
                    text::position_exists(session::names(after.sessions), name);
                },
                None => {},
            }
            if let ModeView::Vars(vs) = m.mode {
                remerging_keeps_wf(vs, after.sessions);
            }
        },
        EventView::AttachExited { ok, name } => {
            text::position_exists(session::names(m.sessions), name);
        },
        EventView::VarSetFinished { name, ok, err, vars } => {
            if let ModeView::Vars(vs) = m.mode {
                if let Some(fresh) = vars {
                    text::position_exists(model::var_names(fresh), name);
                    let selected = match text::position(model::var_names(fresh), name) {
                        Some(i) => i,
                        None => 0,
                    };
                    remerging_keeps_wf(
                        VarsView { vars: fresh, selected, edit: None },
                        m.sessions,
                    );
                }
            }
        },
        EventView::Key(key) => {
            let n = m.sessions.len() as int;
            if n > 0 {
                if let SelectionView::At(i) = m.selection {
                    vstd::arithmetic::div_mod::lemma_mod_bound(i + 1, n);
                }
            }
            if let ModeView::Vars(vs) = m.mode {
                if vs.vars.len() > 0 {
                    let k = vs.vars.len() as int;
                    vstd::arithmetic::div_mod::lemma_mod_bound(vs.selected + 1, k);
                    vstd::arithmetic::div_mod::lemma_mod_bound(vs.selected - 1, k);
                }
            }
        },
        _ => {},
    }
}

/// Fold one event into the model. Returns `Some(Command)` if the
/// event triggers a side effect (attach / kill / create / quit /
/// refresh / variables).
pub fn update(model: &mut Model, event: Event) -> (cmd: Option<Command>)
    requires
        old(model).deep_view().wf(),
    ensures
        final(model).deep_view() == updated(old(model).deep_view(), event.deep_view()).0,
        cmd.deep_view() == updated(old(model).deep_view(), event.deep_view()).1,
        event.deep_view().wf() ==> final(model).deep_view().wf(),
{
    proof {
        if event.deep_view().wf() {
            updating_keeps_wf(model.deep_view(), event.deep_view());
        }
    }
    // Any keystroke clears the transient error — the user has seen it
    // now. Async events SET errors but don't clear them, so messages
    // about failed background actions don't self-dismiss.
    //
    // Exception: while the selection is stale, the error rides through
    // this first keystroke. handle_key_normal consumes that keystroke
    // as the acknowledgment and clears both together — so the "is gone"
    // message is guaranteed at least one frame in front of the user.
    let was_keystroke = match &event {
        Event::Key(_) => true,
        _ => false,
    };
    if was_keystroke && !model.is_stale() {
        model.error = None;
    }
    let cmd: Option<Command> = match event {
        Event::Key(k) => handle_key(model, k),
        // Focus-gained is pure redundancy while subscribed — the event
        // stream already keeps the list current.
        Event::FocusGained => refresh_unless_subscribed(model),
        // An event from the subscription always means "re-list".
        Event::EventsArrived => Some(Command::Refresh),
        Event::SessionsRefreshed(sessions) => {
            model.refresh(sessions);
            cancel_modal_if_target_gone(model);
            // In the vars view the displayed list depends on the sessions
            // just refreshed (the unset rows derive from their templates),
            // so re-merge against the new list, keeping the cursor on its
            // variable by name.
            let sessions = &model.sessions;
            if let Mode::Vars(vs) = &mut model.mode {
                remerge_preserving_cursor(vs, sessions);
            }
            None
        },
        Event::RefreshFailed(msg) => {
            let mut text = String::new();
            text.append("shpool list: ");
            text.append(msg.as_str());
            assert(text@ =~= "shpool list: "@ + msg@);
            model.set_error(text.as_str());
            None
        },
        Event::AttachExited { ok, name } => {
            // A completed action supersedes any stale-selection state
            // left over from before it. Clear it ahead of the refresh
            // below, which re-raises stale only if something fresh
            // disappeared mid-action.
            clear_pre_action_alert(model);
            if !ok {
                let msg = framed("shpool attach ", name.as_str(), " failed");
                model.set_error(msg.as_str());
            }
            // Reselect the session just attached to, so when the
            // user returns they're looking at what they just left.
            match position_of(&model.sessions, name.as_str()) {
                Some(i) => {
                    model.selection = Selection::At(i);
                },
                None => {},
            }
            // Always refresh after attach: state may have changed
            // while the attach was up.
            Some(Command::Refresh)
        },
        Event::KillFinished { ok, name, err } => {
            clear_pre_action_alert(model);
            if !ok {
                let msg: String = match err {
                    Some(e) => e,
                    None => framed("kill ", name.as_str(), " failed"),
                };
                model.set_error(msg.as_str());
            }
            Some(Command::Refresh)
        },
        Event::CreateNeedsVars { name, vars, set_vars } => {
            // Open the per-var prompt, carrying the set-var snapshot so the
            // live preview can resolve known co-vars. No Command — the
            // prompt drives the next step.
            let collected: Vec<(String, String)> = Vec::new();
            assert(collected.deep_view() =~= Seq::empty());
            model.mode = Mode::CreateVarPrompt(
                VarPromptState { name, vars, idx: 0, input: String::new(), collected, set_vars },
            );
            None
        },
        Event::CreateVarsFailed { var, err } => {
            // A `var set` in the apply step failed; the create was aborted
            // with no attach. The prompt already dropped to Normal at
            // apply-emit, so this parked error is visible. Partial
            // sets linger (no rollback) — the next detect sees them as set.
            let msg = var_set_error(var.as_str(), &err);
            model.set_error(msg.as_str());
            None
        },
        Event::VarsFetched(vars) => {
            // Open the vars view on the fresh snapshot, cursor at the top.
            let vars = merge_unset_vars(&vars, &model.sessions);
            model.mode = Mode::Vars(VarsState { vars, selected: 0, edit: None });
            None
        },
        Event::VarsFetchFailed(e) => {
            // List failed: stay in the mode with the error parked,
            // rather than opening an empty view.
            let mut text = String::new();
            text.append("shpool var list: ");
            text.append(e.as_str());
            assert(text@ =~= "shpool var list: "@ + e@);
            model.set_error(text.as_str());
            None
        },
        Event::VarSetFinished { name, ok, err, vars } => {
            // Clear the edit line regardless of outcome; on success swap
            // in the refetched (set-only) list, point the cursor at the
            // var we just set by name, then re-merge the unset rows the
            // current sessions reference (carrying the cursor across the
            // resort). The set may have promoted an unset row to a set one
            // or added a brand-new var.
            let sessions = &model.sessions;
            if let Mode::Vars(vs) = &mut model.mode {
                vs.edit = None;
                if ok {
                    if let Some(fresh) = vars {
                        vs.selected = match position_of_var(&fresh, name.as_str()) {
                            Some(i) => i,
                            None => 0,
                        };
                        vs.vars = fresh;
                        remerge_preserving_cursor(vs, sessions);
                    }
                }
            }
            if ok {
                // Refresh sessions so the preview reflects any re-dial
                // the set triggered.
                Some(Command::Refresh)
            } else {
                let msg = var_set_error(name.as_str(), &err);
                model.set_error(msg.as_str());
                None
            }
        },
    };
    // Auto-refresh: a Normal-mode keystroke that produced no Command of
    // its own requests a refresh so the list tracks daemon-side changes
    // without explicit user action. Skipped in modal modes so typing "foo"
    // into CreateInput isn't three shell-outs, and skipped while
    // subscribed — the event stream already keeps the list current.
    let in_normal = match &model.mode {
        Mode::Normal => true,
        _ => false,
    };
    if was_keystroke && cmd.is_none() && in_normal && !model.events_active {
        return Some(Command::Refresh);
    }
    cmd
}

}
