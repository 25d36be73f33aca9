//! `Command` — side effects that the program carries out.
//!
//! Produced by `update`, consumed by the executor. Named variants, so each
//! action's intent is visible at the call site.

use vstd::prelude::*;

verus! {

#[derive(Debug, PartialEq)]
pub enum Command {
    /// Refetch the session list. Result comes back as
    /// `Event::SessionsRefreshed` or `Event::RefreshFailed`.
    Refresh,
    /// Ensure a shpool daemon is running, then refetch the session
    /// list. Idempotent (no-op if the daemon is already up). Result comes
    /// back as `Event::SessionsRefreshed` or `Event::RefreshFailed`.
    EnsureDaemon,
    /// Spawn `shpool attach [-f] <name>` as a child process. `force`
    /// passes `-f` through — reached either from a plain attach or
    /// from the force-confirm prompt.
    Attach { name: String, force: bool },
    /// Spawn `shpool attach <new-name>`, which create-or-attaches on
    /// the daemon side. Distinct from `Attach` so the executor can skip
    /// the "session must already exist" pre-flight check.
    ///
    /// Detect step for the create-time variable prompt: the executor lists
    /// the variables and looks for unknown ones first. Unknowns come back
    /// as `Event::CreateNeedsVars`; none falls through to the attach.
    Create(String),
    /// Apply step for the create-time variable prompt: set each
    /// collected `(name, value)` pair via `shpool var set` in order,
    /// then attach exactly like `Create`. A set failure aborts (no attach)
    /// and comes back as `Event::CreateVarsFailed`. Partial sets linger.
    CreateWithVars { name: String, set_vars: Vec<(String, String)> },
    /// Kill the named session via `shpool kill`.
    Kill(String),
    /// Fetch the daemon's template variables via `shpool var list`.
    /// Result comes back as `Event::VarsFetched` or `Event::VarsFetchFailed`.
    FetchVars,
    /// Set a template variable via `shpool var set <name> <value>`, then
    /// (on success) refetch the list. Result comes back as
    /// `Event::VarSetFinished`.
    SetVar { name: String, value: String },
    /// Stop the main loop.
    Quit,
}

/// What a `Command` holds.
#[verifier::ext_equal]
pub enum CommandView {
    Refresh,
    EnsureDaemon,
    Attach { name: Seq<char>, force: bool },
    Create(Seq<char>),
    CreateWithVars { name: Seq<char>, set_vars: Seq<(Seq<char>, Seq<char>)> },
    Kill(Seq<char>),
    FetchVars,
    SetVar { name: Seq<char>, value: Seq<char> },
    Quit,
}

impl DeepView for Command {
    type V = CommandView;

    open spec fn deep_view(&self) -> CommandView {
        match self {
            Command::Refresh => CommandView::Refresh,
            Command::EnsureDaemon => CommandView::EnsureDaemon,
            Command::Attach { name, force } => CommandView::Attach { name: name@, force: *force },
            Command::Create(name) => CommandView::Create(name@),
            Command::CreateWithVars { name, set_vars } => CommandView::CreateWithVars {
                name: name@,
                set_vars: set_vars.deep_view(),
            },
            Command::Kill(name) => CommandView::Kill(name@),
            Command::FetchVars => CommandView::FetchVars,
            Command::SetVar { name, value } => CommandView::SetVar { name: name@, value: value@ },
            Command::Quit => CommandView::Quit,
        }
    }
}

/// The view of a command holds what the command holds.
pub proof fn command_views_are_true(
    name: String,
    value: String,
    force: bool,
    pairs: Vec<(String, String)>,
)
    ensures
        Command::Refresh.deep_view() == CommandView::Refresh,
        Command::EnsureDaemon.deep_view() == CommandView::EnsureDaemon,
        (Command::Attach { name, force }).deep_view() == (CommandView::Attach {
            name: name@,
            force,
        }),
        Command::Create(name).deep_view() == CommandView::Create(name@),
        (Command::CreateWithVars { name, set_vars: pairs }).deep_view() == (
        CommandView::CreateWithVars { name: name@, set_vars: pairs.deep_view() }),
        Command::Kill(name).deep_view() == CommandView::Kill(name@),
        Command::FetchVars.deep_view() == CommandView::FetchVars,
        (Command::SetVar { name, value }).deep_view() == (CommandView::SetVar {
            name: name@,
            value: value@,
        }),
        Command::Quit.deep_view() == CommandView::Quit,
{
}

}
