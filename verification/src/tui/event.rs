//! The `Event` type — everything `update` can react to.

use vstd::prelude::*;

use super::keymap::Key;
use super::model::{Var, VarView};
use crate::session::{Session, SessionView};

verus! {

#[derive(Debug)]
#[allow(inconsistent_fields)]
pub enum Event {
    /// A decoded keystroke from the parser.
    Key(Key),
    /// The terminal regained focus.
    FocusGained,
    /// The event subscription reported daemon-side activity (or its end):
    /// re-list.
    EventsArrived,
    /// A list request came back.
    SessionsRefreshed(Vec<Session>),
    /// A list request failed.
    RefreshFailed(String),
    /// The `shpool attach` child ended.
    AttachExited { ok: bool, name: String },
    /// `shpool kill` ended; `err` is what it had to say.
    KillFinished { ok: bool, name: String, err: Option<String> },
    /// A new session's name references variables that are not set yet:
    /// `vars`, in the order they appear. `set_vars` are those that are set.
    CreateNeedsVars { name: String, vars: Vec<String>, set_vars: Vec<(String, String)> },
    /// Setting `var` failed while a new session was being created.
    CreateVarsFailed { var: String, err: Option<String> },
    /// The variable list came back.
    VarsFetched(Vec<Var>),
    /// The variable list could not be had.
    VarsFetchFailed(String),
    /// `shpool var set` ended; `vars` is the list as of then, if it was
    /// refetched.
    VarSetFinished { name: String, ok: bool, err: Option<String>, vars: Option<Vec<Var>> },
}

/// What an `Event` holds.
#[verifier::ext_equal]
#[allow(inconsistent_fields)]
pub enum EventView {
    Key(Key),
    FocusGained,
    EventsArrived,
    SessionsRefreshed(Seq<SessionView>),
    RefreshFailed(Seq<char>),
    AttachExited { ok: bool, name: Seq<char> },
    KillFinished { ok: bool, name: Seq<char>, err: Option<Seq<char>> },
    CreateNeedsVars {
        name: Seq<char>,
        vars: Seq<Seq<char>>,
        set_vars: Seq<(Seq<char>, Seq<char>)>,
    },
    CreateVarsFailed { var: Seq<char>, err: Option<Seq<char>> },
    VarsFetched(Seq<VarView>),
    VarsFetchFailed(Seq<char>),
    VarSetFinished {
        name: Seq<char>,
        ok: bool,
        err: Option<Seq<char>>,
        vars: Option<Seq<VarView>>,
    },
}

impl DeepView for Event {
    type V = EventView;

    open spec fn deep_view(&self) -> EventView {
        match self {
            Event::Key(key) => EventView::Key(*key),
            Event::FocusGained => EventView::FocusGained,
            Event::EventsArrived => EventView::EventsArrived,
            Event::SessionsRefreshed(sessions) => EventView::SessionsRefreshed(
                sessions.deep_view(),
            ),
            Event::RefreshFailed(msg) => EventView::RefreshFailed(msg@),
            Event::AttachExited { ok, name } => EventView::AttachExited { ok: *ok, name: name@ },
            Event::KillFinished { ok, name, err } => EventView::KillFinished {
                ok: *ok,
                name: name@,
                err: err.deep_view(),
            },
            Event::CreateNeedsVars { name, vars, set_vars } => EventView::CreateNeedsVars {
                name: name@,
                vars: vars.deep_view(),
                set_vars: set_vars.deep_view(),
            },
            Event::CreateVarsFailed { var, err } => EventView::CreateVarsFailed {
                var: var@,
                err: err.deep_view(),
            },
            Event::VarsFetched(vars) => EventView::VarsFetched(vars.deep_view()),
            Event::VarsFetchFailed(msg) => EventView::VarsFetchFailed(msg@),
            Event::VarSetFinished { name, ok, err, vars } => EventView::VarSetFinished {
                name: name@,
                ok: *ok,
                err: err.deep_view(),
                vars: vars.deep_view(),
            },
        }
    }
}

impl EventView {
    /// A prompt for variables names at least one.
    pub open spec fn wf(self) -> bool {
        self matches EventView::CreateNeedsVars { vars, .. } ==> vars.len() > 0
    }
}

}
