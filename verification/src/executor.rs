//! The executor: which `shpool` call each `Command` takes, and which `Event`
//! or further call its outcome leads to.
//!
//! A command becomes a `Task` for the program to perform; the program hands
//! the outcome back as a `Reply`; that leads to the next task of the cascade,
//! until it runs dry.

use vstd::prelude::*;

use crate::session::SessionView;
use crate::shell;
use crate::shell::{
    list_sessions, list_vars, preflight_attach, set_var, shell_kill, Preflight, SessionListing,
    SessionListingView, VarListing, VarListingView,
};
use crate::text;
use crate::text::{framed, lossy_text};
use crate::tui::command::{Command, CommandView};
use crate::tui::event::{Event, EventView};
use crate::tui::model;
use crate::tui::model::{Mode, ModeView, Model, ModelView, Var, VarView};
use crate::tui::template;
use crate::tui::template::unknown_template_vars;
use crate::tui::update;

verus! {

/// A piece of outside work.
#[derive(Debug)]
pub enum Task {
    /// List the sessions; with `daemonize`, start a daemon first if none is
    /// running.
    List { daemonize: bool },
    /// List the sessions, to see whether `name` can be attached to.
    Preflight { name: String, force: bool },
    /// Hand the terminal to `shpool attach` until it ends. The event
    /// subscription is down for that long: nobody would read it, so the
    /// daemon would drop it as a slow subscriber anyway.
    Attach { name: String, force: bool },
    /// List the variables, to see which ones `name` needs that are not set.
    DetectVars { name: String },
    /// Set the variable `pairs[at]`, on the way to creating `name`.
    SetVars { name: String, pairs: Vec<(String, String)>, at: usize },
    /// Kill a session.
    Kill { name: String },
    /// List the variables.
    FetchVars,
    /// Set a variable.
    SetVar { name: String, value: String },
    /// List the variables again, after `name` was set.
    RefetchVars { name: String },
}

/// What a `Task` holds.
#[verifier::ext_equal]
pub enum TaskView {
    List { daemonize: bool },
    Preflight { name: Seq<char>, force: bool },
    Attach { name: Seq<char>, force: bool },
    DetectVars { name: Seq<char> },
    SetVars { name: Seq<char>, pairs: Seq<(Seq<char>, Seq<char>)>, at: int },
    Kill { name: Seq<char> },
    FetchVars,
    SetVar { name: Seq<char>, value: Seq<char> },
    RefetchVars { name: Seq<char> },
}

impl DeepView for Task {
    type V = TaskView;

    open spec fn deep_view(&self) -> TaskView {
        match self {
            Task::List { daemonize } => TaskView::List { daemonize: *daemonize },
            Task::Preflight { name, force } => TaskView::Preflight { name: name@, force: *force },
            Task::Attach { name, force } => TaskView::Attach { name: name@, force: *force },
            Task::DetectVars { name } => TaskView::DetectVars { name: name@ },
            Task::SetVars { name, pairs, at } => TaskView::SetVars {
                name: name@,
                pairs: pairs.deep_view(),
                at: *at as int,
            },
            Task::Kill { name } => TaskView::Kill { name: name@ },
            Task::FetchVars => TaskView::FetchVars,
            Task::SetVar { name, value } => TaskView::SetVar { name: name@, value: value@ },
            Task::RefetchVars { name } => TaskView::RefetchVars { name: name@ },
        }
    }
}

impl TaskView {
    /// The variable that is being set is one of the pairs.
    pub open spec fn wf(self) -> bool {
        self matches TaskView::SetVars { pairs, at, .. } ==> 0 <= at < pairs.len()
    }
}

/// What came of a task.
pub enum Reply {
    Sessions(SessionListing),
    Vars(VarListing),
    /// A call ran to its end, and printed this to its error stream.
    Ran { ok: bool, stderr: Vec<u8> },
    /// The attach child ended.
    Attached { ok: bool },
}

/// What a `Reply` holds.
#[verifier::ext_equal]
pub enum ReplyView {
    Sessions(SessionListingView),
    Vars(VarListingView),
    Ran { ok: bool, stderr: Seq<u8> },
    Attached { ok: bool },
}

impl DeepView for Reply {
    type V = ReplyView;

    open spec fn deep_view(&self) -> ReplyView {
        match self {
            Reply::Sessions(listing) => ReplyView::Sessions(listing.deep_view()),
            Reply::Vars(listing) => ReplyView::Vars(listing.deep_view()),
            Reply::Ran { ok, stderr } => ReplyView::Ran { ok: *ok, stderr: stderr@ },
            Reply::Attached { ok } => ReplyView::Attached { ok: *ok },
        }
    }
}

/// `reply` is the kind of reply that `task` has.
pub open spec fn answers(reply: ReplyView, task: TaskView) -> bool {
    match task {
        TaskView::List { .. } | TaskView::Preflight { .. } => reply is Sessions,
        TaskView::DetectVars { .. } | TaskView::FetchVars | TaskView::RefetchVars {
            ..
        } => reply is Vars,
        TaskView::SetVars { .. } | TaskView::Kill { .. } | TaskView::SetVar { .. } => reply is Ran,
        TaskView::Attach { .. } => reply is Attached,
    }
}

/// The state of a cascade: the model, and the task to perform next, if any.
pub type Stage = (ModelView, Option<TaskView>);

/// The terminal handed over to the session `name`, the subscription down.
pub open spec fn attaching(m: ModelView, name: Seq<char>, force: bool) -> Stage {
    (ModelView { events_active: false, ..m }, Some(TaskView::Attach { name, force }))
}

/// The session `name` created once the pairs from `at` on are set.
pub open spec fn creating(
    m: ModelView,
    name: Seq<char>,
    pairs: Seq<(Seq<char>, Seq<char>)>,
    at: int,
) -> Stage {
    if at < pairs.len() {
        (m, Some(TaskView::SetVars { name, pairs, at }))
    } else {
        attaching(m, name, false)
    }
}

/// What a command starts.
pub open spec fn executed(m: ModelView, cmd: CommandView) -> Stage {
    match cmd {
        CommandView::Quit => (ModelView { quit: true, ..m }, None),
        CommandView::Refresh => (m, Some(TaskView::List { daemonize: false })),
        CommandView::EnsureDaemon => (m, Some(TaskView::List { daemonize: true })),
        CommandView::Attach { name, force } => (m, Some(TaskView::Preflight { name, force })),
        CommandView::Create(name) => (m, Some(TaskView::DetectVars { name })),
        CommandView::CreateWithVars { name, set_vars } => creating(m, name, set_vars, 0),
        CommandView::Kill(name) => (m, Some(TaskView::Kill { name })),
        CommandView::FetchVars => (m, Some(TaskView::FetchVars)),
        CommandView::SetVar { name, value } => (m, Some(TaskView::SetVar { name, value })),
    }
}

/// Starts a command. Stopping is done right away, everything else takes a
/// task.
pub fn execute(cmd: Command, model: &mut Model) -> (task: Option<Task>)
    ensures
        (final(model).deep_view(), task.deep_view()) == executed(
            old(model).deep_view(),
            cmd.deep_view(),
        ),
        task matches Some(t) ==> t.deep_view().wf(),
{
    match cmd {
        Command::Quit => {
            model.quit = true;
            None
        },
        Command::Refresh => Some(Task::List { daemonize: false }),
        Command::EnsureDaemon => Some(Task::List { daemonize: true }),
        Command::Attach { name, force } => Some(Task::Preflight { name, force }),
        // The duplicate-name check already ran in update (before
        // Command::Create was emitted), so detection never sees a
        // duplicate. `shpool attach` with a new name creates
        // atomically on the daemon side.
        Command::Create(name) => Some(Task::DetectVars { name }),
        Command::CreateWithVars { name, set_vars } => Some(create_from(model, name, set_vars, 0)),
        Command::Kill(name) => Some(Task::Kill { name }),
        Command::FetchVars => Some(Task::FetchVars),
        Command::SetVar { name, value } => Some(Task::SetVar { name, value }),
    }
}

/// Drop the events subscriber for the duration of the attached session.
fn attach_to(model: &mut Model, name: String, force: bool) -> (task: Task)
    ensures
        (final(model).deep_view(), Some(task.deep_view())) == attaching(
            old(model).deep_view(),
            name@,
            force,
        ),
        task.deep_view().wf(),
{
    model.events_active = false;
    Task::Attach { name, force }
}

fn create_from(
    model: &mut Model,
    name: String,
    pairs: Vec<(String, String)>,
    at: usize,
) -> (task: Task)
    ensures
        (final(model).deep_view(), Some(task.deep_view())) == creating(
            old(model).deep_view(),
            name@,
            pairs.deep_view(),
            at as int,
        ),
        task.deep_view().wf(),
{
    if at < pairs.len() {
        Task::SetVars { name, pairs, at }
    } else {
        attach_to(model, name, false)
    }
}

/// What a reply leads to.
#[verifier::ext_equal]
pub enum Next {
    /// The next task right away.
    Task(TaskView),
    /// An event for the model.
    Event(EventView),
    /// Nothing more.
    Nothing,
}

/// The event that a list of sessions makes, however it came out.
pub open spec fn listing_event(listing: SessionListingView) -> EventView {
    match shell::sessions_of(listing) {
        Ok(sessions) => EventView::SessionsRefreshed(sessions),
        Err(msg) => EventView::RefreshFailed(msg),
    }
}

/// The variables that the name of a new session needs and `vars` lacks.
pub open spec fn needed(name: Seq<char>, vars: Seq<VarView>) -> Seq<Seq<char>> {
    template::without(template::vars_of(name), model::var_names(vars))
}

/// What comes of the pre-flight for the session `name`.
pub open spec fn preflighted(
    m: ModelView,
    name: Seq<char>,
    force: bool,
    listing: SessionListingView,
) -> (ModelView, Next) {
    match shell::sessions_of(listing) {
        Err(msg) => (m, Next::Event(EventView::RefreshFailed(msg))),
        Ok(sessions) => match shell::preflight(sessions, name, force) {
            Preflight::Gone => (
                m.with_error(model::gone_message(name)),
                Next::Event(EventView::SessionsRefreshed(sessions)),
            ),
            Preflight::AttachedElsewhere => (
                m.in_mode(ModeView::ConfirmForce(name)),
                Next::Event(EventView::SessionsRefreshed(sessions)),
            ),
            Preflight::ClearToAttach => (
                attaching(m, name, force).0,
                Next::Task(TaskView::Attach { name, force }),
            ),
        },
    }
}

/// What comes of listing the variables for a new session `name`.
pub open spec fn detected(
    m: ModelView,
    name: Seq<char>,
    listing: VarListingView,
) -> (ModelView, Next) {
    match shell::vars_of(listing) {
        Err(msg) => (m.with_error("shpool var list: "@ + msg), Next::Nothing),
        Ok(vars) => if needed(name, vars).len() > 0 {
            (
                m,
                Next::Event(
                    EventView::CreateNeedsVars {
                        name,
                        vars: needed(name, vars),
                        set_vars: model::name_values(vars),
                    },
                ),
            )
        } else {
            (
                attaching(m, name, false).0,
                Next::Task(TaskView::Attach { name, force: false }),
            )
        },
    }
}

/// What the call behind `task` printed, wherever it is looked at and is valid
/// UTF-8, is read as the text that it encodes.
pub open spec fn output_read_as_utf8(task: TaskView, reply: ReplyView) -> bool {
    match reply {
        ReplyView::Sessions(listing) => listing.read_as_utf8(),
        ReplyView::Vars(listing) => listing.read_as_utf8(),
        // Only for a kill is it looked at after a success.
        ReplyView::Ran { ok, stderr } => !ok || task is Kill ==> text::read_as_utf8(stderr),
        ReplyView::Attached { .. } => true,
    }
}

/// What a task's reply does.
pub open spec fn followed(m: ModelView, task: TaskView, reply: ReplyView) -> (ModelView, Next) {
    match (task, reply) {
        (TaskView::List { .. }, ReplyView::Sessions(listing)) => (
            m,
            Next::Event(listing_event(listing)),
        ),
        (TaskView::Preflight { name, force }, ReplyView::Sessions(listing)) => preflighted(
            m,
            name,
            force,
            listing,
        ),
        (TaskView::Attach { name, .. }, ReplyView::Attached { ok }) => (
            m,
            Next::Event(EventView::AttachExited { ok, name }),
        ),
        (TaskView::DetectVars { name }, ReplyView::Vars(listing)) => detected(m, name, listing),
        (TaskView::SetVars { name, pairs, at }, ReplyView::Ran { ok, stderr }) => if ok {
            let (after, next) = creating(m, name, pairs, at + 1);
            (after, Next::Task(next->0))
        } else {
            (
                m,
                Next::Event(
                    EventView::CreateVarsFailed {
                        var: pairs[at].0,
                        err: shell::var_set_error(false, text::lossy(stderr)),
                    },
                ),
            )
        },
        (TaskView::Kill { name }, ReplyView::Ran { ok, stderr }) => (
            m,
            Next::Event(
                EventView::KillFinished {
                    ok,
                    name,
                    err: shell::kill_error(name, ok, text::lossy(stderr)),
                },
            ),
        ),
        (TaskView::FetchVars, ReplyView::Vars(listing)) => (
            m,
            Next::Event(
                match shell::vars_of(listing) {
                    Ok(vars) => EventView::VarsFetched(vars),
                    Err(msg) => EventView::VarsFetchFailed(msg),
                },
            ),
        ),
        (TaskView::SetVar { name, .. }, ReplyView::Ran { ok, stderr }) => if ok {
            (m, Next::Task(TaskView::RefetchVars { name }))
        } else {
            (
                m,
                Next::Event(
                    EventView::VarSetFinished {
                        name,
                        ok: false,
                        err: shell::var_set_error(false, text::lossy(stderr)),
                        vars: None,
                    },
                ),
            )
        },
        (TaskView::RefetchVars { name }, ReplyView::Vars(listing)) => (
            m,
            Next::Event(
                EventView::VarSetFinished {
                    name,
                    ok: true,
                    err: None,
                    vars: match shell::vars_of(listing) {
                        Ok(vars) => Some(vars),
                        Err(_) => None,
                    },
                },
            ),
        ),
        _ => (m, Next::Nothing),
    }
}

/// An event, and the command that it gives rise to.
pub open spec fn cascaded(m: ModelView, event: EventView) -> Stage {
    let (after, cmd) = update::updated(m, event);
    match cmd {
        Some(c) => executed(after, c),
        None => (after, None),
    }
}

/// A reply, and everything up to the next task.
pub open spec fn resumed(m: ModelView, task: TaskView, reply: ReplyView) -> Stage {
    let (after, next) = followed(m, task, reply);
    match next {
        Next::Task(t) => (after, Some(t)),
        Next::Event(event) => cascaded(after, event),
        Next::Nothing => (after, None),
    }
}

/// Feed `event` through `update` and start the command that comes of it, if
/// any. Returns the task to perform; its reply goes to `resume`.
pub fn run_cascade(model: &mut Model, event: Event) -> (task: Option<Task>)
    requires
        old(model).deep_view().wf(),
        event.deep_view().wf(),
    ensures
        (final(model).deep_view(), task.deep_view()) == cascaded(
            old(model).deep_view(),
            event.deep_view(),
        ),
        final(model).deep_view().wf(),
        task matches Some(t) ==> t.deep_view().wf(),
{
    match update::update(model, event) {
        Some(cmd) => execute(cmd, model),
        None => None,
    }
}

/// The names of `vars`.
fn names_of(vars: &Vec<Var>) -> (names: Vec<&str>)
    ensures
        names.deep_view() == model::var_names(vars.deep_view()),
{
    let ghost all = model::var_names(vars.deep_view());
    let mut names: Vec<&str> = Vec::new();
    for i in 0..vars.len()
        invariant
            all == model::var_names(vars.deep_view()),
            names.deep_view() == all.take(i as int),
    {
        let ghost before = names.deep_view();
        names.push(vars[i].name.as_str());
        proof {
            assert(all[i as int] == vars@[i as int].name@);
            assert(names.deep_view() =~= before.push(all[i as int]));
            assert(all.take(i + 1) =~= all.take(i as int).push(all[i as int]));
        }
    }
    assert(all.take(all.len() as int) =~= all);
    names
}

/// The names and values of `vars`.
fn pairs_of(vars: &Vec<Var>) -> (pairs: Vec<(String, String)>)
    ensures
        pairs.deep_view() == model::name_values(vars.deep_view()),
{
    let ghost all = model::name_values(vars.deep_view());
    let mut pairs: Vec<(String, String)> = Vec::new();
    for i in 0..vars.len()
        invariant
            all == model::name_values(vars.deep_view()),
            pairs.deep_view() == all.take(i as int),
    {
        let ghost before = pairs.deep_view();
        pairs.push((vars[i].name.clone(), vars[i].value.clone()));
        proof {
            assert(all[i as int] == (vars@[i as int].name@, vars@[i as int].value@));
            assert(pairs.deep_view() =~= before.push(all[i as int]));
            assert(all.take(i + 1) =~= all.take(i as int).push(all[i as int]));
        }
    }
    assert(all.take(all.len() as int) =~= all);
    pairs
}

fn resume_listing(model: &mut Model, listing: SessionListing) -> (task: Option<Task>)
    requires
        old(model).deep_view().wf(),
    ensures
        (final(model).deep_view(), task.deep_view()) == cascaded(
            old(model).deep_view(),
            listing_event(listing.deep_view()),
        ),
        listing.deep_view().read_as_utf8(),
        final(model).deep_view().wf(),
        task matches Some(t) ==> t.deep_view().wf(),
{
    let event = match list_sessions(listing) {
        Ok(sessions) => Event::SessionsRefreshed(sessions),
        Err(msg) => Event::RefreshFailed(msg),
    };
    run_cascade(model, event)
}

fn resume_preflight(
    model: &mut Model,
    name: String,
    force: bool,
    listing: SessionListing,
) -> (task: Option<Task>)
    requires
        old(model).deep_view().wf(),
    ensures
        (final(model).deep_view(), task.deep_view()) == resumed(
            old(model).deep_view(),
            TaskView::Preflight { name: name@, force },
            ReplyView::Sessions(listing.deep_view()),
        ),
        listing.deep_view().read_as_utf8(),
        final(model).deep_view().wf(),
        task matches Some(t) ==> t.deep_view().wf(),
{
    match list_sessions(listing) {
        // Goes the way of a failed refresh, so that what leads such a
        // message in stands in exactly one place.
        Err(msg) => run_cascade(model, Event::RefreshFailed(msg)),
        Ok(sessions) => match preflight_attach(&sessions, name.as_str(), force) {
            Preflight::Gone => {
                model.set_error(framed("session '", name.as_str(), "' is gone").as_str());
                run_cascade(model, Event::SessionsRefreshed(sessions))
            },
            Preflight::AttachedElsewhere => {
                // Pop ConfirmForce rather than bumping the other client
                // silently. The user can press 'y' to re-issue Attach with
                // force, which skips this check.
                model.mode = Mode::ConfirmForce(name);
                run_cascade(model, Event::SessionsRefreshed(sessions))
            },
            Preflight::ClearToAttach => Some(attach_to(model, name, force)),
        },
    }
}

fn resume_detect(model: &mut Model, name: String, listing: VarListing) -> (task: Option<Task>)
    requires
        old(model).deep_view().wf(),
    ensures
        (final(model).deep_view(), task.deep_view()) == resumed(
            old(model).deep_view(),
            TaskView::DetectVars { name: name@ },
            ReplyView::Vars(listing.deep_view()),
        ),
        listing.deep_view().read_as_utf8(),
        final(model).deep_view().wf(),
        task matches Some(t) ==> t.deep_view().wf(),
{
    match list_vars(listing) {
        // Don't attach blind: give the creation up, and say why.
        Err(msg) => {
            let mut text = "shpool var list: ".to_owned();
            text.append(msg.as_str());
            model.set_error(text.as_str());
            None
        },
        Ok(set_list) => {
            let vars = {
                let known = names_of(&set_list);
                unknown_template_vars(name.as_str(), known.as_slice())
            };
            if vars.len() > 0 {
                // No teardown, no suspend: the prompt renders without a
                // flicker.
                let set_vars = pairs_of(&set_list);
                run_cascade(model, Event::CreateNeedsVars { name, vars, set_vars })
            } else {
                Some(attach_to(model, name, false))
            }
        },
    }
}

fn resume_set(
    model: &mut Model,
    name: String,
    pairs: Vec<(String, String)>,
    at: usize,
    ok: bool,
    stderr: Vec<u8>,
) -> (task: Option<Task>)
    requires
        old(model).deep_view().wf(),
        at < pairs@.len(),
    ensures
        (final(model).deep_view(), task.deep_view()) == resumed(
            old(model).deep_view(),
            TaskView::SetVars { name: name@, pairs: pairs.deep_view(), at: at as int },
            ReplyView::Ran { ok, stderr: stderr@ },
        ),
        !ok ==> text::read_as_utf8(stderr@),
        final(model).deep_view().wf(),
        task matches Some(t) ==> t.deep_view().wf(),
{
    let n: usize = pairs.len();
    if ok {
        assert(at < n);
        Some(create_from(model, name, pairs, at + 1))
    } else {
        // No attach, and no rollback either: what has been set stays set.
        let err = set_var(false, lossy_text(stderr.as_slice()).as_str());
        assert(pairs.deep_view()[at as int].0 == pairs@[at as int].0@);
        let var = pairs[at].0.clone();
        run_cascade(model, Event::CreateVarsFailed { var, err })
    }
}

fn resume_set_var(model: &mut Model, name: String, ok: bool, stderr: Vec<u8>) -> (task: Option<
    Task,
>)
    requires
        old(model).deep_view().wf(),
    ensures
        forall|value: Seq<char>|
            (final(model).deep_view(), task.deep_view()) == #[trigger] resumed(
                old(model).deep_view(),
                TaskView::SetVar { name: name@, value },
                ReplyView::Ran { ok, stderr: stderr@ },
            ),
        !ok ==> text::read_as_utf8(stderr@),
        final(model).deep_view().wf(),
        task matches Some(t) ==> t.deep_view().wf(),
{
    if ok {
        // List again, so that the view reflects the new value.
        Some(Task::RefetchVars { name })
    } else {
        let err = set_var(false, lossy_text(stderr.as_slice()).as_str());
        run_cascade(model, Event::VarSetFinished { name, ok: false, err, vars: None })
    }
}

/// Takes the reply to a task in: feeds what it means to the model, and
/// returns the next task of the cascade, or `None` once that has run dry.
pub fn resume(model: &mut Model, task: Task, reply: Reply) -> (next: Option<Task>)
    requires
        old(model).deep_view().wf(),
        task.deep_view().wf(),
        answers(reply.deep_view(), task.deep_view()),
    ensures
        (final(model).deep_view(), next.deep_view()) == resumed(
            old(model).deep_view(),
            task.deep_view(),
            reply.deep_view(),
        ),
        output_read_as_utf8(task.deep_view(), reply.deep_view()),
        final(model).deep_view().wf(),
        next matches Some(t) ==> t.deep_view().wf(),
{
    match (task, reply) {
        (Task::List { daemonize: _ }, Reply::Sessions(listing)) => resume_listing(model, listing),
        (Task::Preflight { name, force }, Reply::Sessions(listing)) => resume_preflight(
            model,
            name,
            force,
            listing,
        ),
        (Task::Attach { name, force: _ }, Reply::Attached { ok }) => run_cascade(
            model,
            Event::AttachExited { ok, name },
        ),
        (Task::DetectVars { name }, Reply::Vars(listing)) => resume_detect(model, name, listing),
        (Task::SetVars { name, pairs, at }, Reply::Ran { ok, stderr }) => resume_set(
            model,
            name,
            pairs,
            at,
            ok,
            stderr,
        ),
        (Task::Kill { name }, Reply::Ran { ok, stderr }) => {
            let err = shell_kill(name.as_str(), ok, lossy_text(stderr.as_slice()).as_str());
            run_cascade(model, Event::KillFinished { ok, name, err })
        },
        (Task::FetchVars, Reply::Vars(listing)) => {
            let event = match list_vars(listing) {
                Ok(vars) => Event::VarsFetched(vars),
                Err(msg) => Event::VarsFetchFailed(msg),
            };
            run_cascade(model, event)
        },
        (Task::SetVar { name, value: _ }, Reply::Ran { ok, stderr }) => resume_set_var(
            model,
            name,
            ok,
            stderr,
        ),
        (Task::RefetchVars { name }, Reply::Vars(listing)) => {
            // A list that cannot be had keeps the old one on screen.
            let vars = match list_vars(listing) {
                Ok(vars) => Some(vars),
                Err(_) => None,
            };
            run_cascade(model, Event::VarSetFinished { name, ok: true, err: None, vars })
        },
        _ => None,
    }
}

// -- What cascades keep --

/// How many more tasks can follow on `task`, itself included.
pub open spec fn tasks_left(task: TaskView) -> int {
    match task {
        TaskView::List { .. } | TaskView::FetchVars => 1,
        TaskView::Attach { .. } | TaskView::Kill { .. } | TaskView::RefetchVars { .. } => 2,
        TaskView::Preflight { .. } | TaskView::DetectVars { .. } | TaskView::SetVar { .. } => 3,
        TaskView::SetVars { pairs, at, .. } => pairs.len() - at + 2,
    }
}

/// Every cascade ends: whatever the replies, each task leaves room for fewer
/// to come.
pub proof fn cascades_end(m: ModelView, task: TaskView, reply: ReplyView)
    requires
        task.wf(),
        answers(reply, task),
    ensures
        tasks_left(task) > 0,
        resumed(m, task, reply).1 matches Some(next) ==> tasks_left(next) < tasks_left(task),
{
}

/// An attached session that ends, one just created among them, is followed
/// by a fresh list: that is how a new session gets into the table.
pub proof fn attach_leads_to_refresh(m: ModelView, name: Seq<char>, force: bool, ok: bool)
    ensures
        resumed(m, TaskView::Attach { name, force }, ReplyView::Attached { ok }).1 == Some(
            TaskView::List { daemonize: false },
        ),
{
}

/// The terminal is handed to a session only after a fresh list says that it
/// exists, and, unless the user insists, that it is attached nowhere else.
/// Meanwhile there is no subscription.
pub proof fn attaching_is_cleared_first(
    m: ModelView,
    name: Seq<char>,
    force: bool,
    listing: SessionListingView,
    to: Seq<char>,
    forced: bool,
)
    requires
        resumed(
            m,
            TaskView::Preflight { name, force },
            ReplyView::Sessions(listing),
        ).1 == Some(TaskView::Attach { name: to, force: forced }),
    ensures
        to == name,
        forced == force,
        listing is Listed,
        shell::preflight(listing->Listed_0, name, force) == Preflight::ClearToAttach,
        !resumed(
            m,
            TaskView::Preflight { name, force },
            ReplyView::Sessions(listing),
        ).0.events_active,
{
}

/// A new session is attached to only once every variable that its name needs
/// is set, or the user was asked for it.
pub proof fn creating_asks_for_variables(
    m: ModelView,
    name: Seq<char>,
    listing: VarListingView,
    vars: Seq<VarView>,
)
    requires
        shell::vars_of(listing) == Ok::<Seq<VarView>, Seq<char>>(vars),
    ensures
        ({
            let (after, next) = resumed(
                m,
                TaskView::DetectVars { name },
                ReplyView::Vars(listing),
            );
            if needed(name, vars).len() > 0 {
                next is None && after.mode is CreateVarPrompt && after.mode->CreateVarPrompt_0.vars
                    == needed(name, vars)
            } else {
                next == Some(TaskView::Attach { name, force: false })
            }
        }),
{
}

/// Variables are set in order, and a session whose variables could not all be
/// set is not attached to.
pub proof fn failed_set_aborts_creation(
    m: ModelView,
    name: Seq<char>,
    pairs: Seq<(Seq<char>, Seq<char>)>,
    at: int,
    ok: bool,
    stderr: Seq<u8>,
)
    requires
        0 <= at < pairs.len(),
    ensures
        ({
            let (after, next) = resumed(
                m,
                TaskView::SetVars { name, pairs, at },
                ReplyView::Ran { ok, stderr },
            );
            if !ok {
                next is None && after.error is Some
            } else if at + 1 < pairs.len() {
                next == Some(TaskView::SetVars { name, pairs, at: at + 1 })
            } else {
                next == Some(TaskView::Attach { name, force: false })
            }
        }),
{
}

// -- What each command comes to --

/// Quitting is done right away. Every other command takes one task first: a
/// list of sessions for a refresh, with a daemon started for it if one is
/// wanted; a look at the sessions before attaching; a look at the variables
/// before creating; the first variable, or the session itself where there is
/// none, when they are given; and a kill, a list of variables, or a variable
/// set for just that.
pub proof fn commands_take_their_task(
    m: ModelView,
    name: Seq<char>,
    value: Seq<char>,
    force: bool,
    pairs: Seq<(Seq<char>, Seq<char>)>,
)
    ensures
        executed(m, CommandView::Quit).1 is None && executed(m, CommandView::Quit).0.quit,
        executed(m, CommandView::Refresh) == (m, Some(TaskView::List { daemonize: false })),
        executed(m, CommandView::EnsureDaemon) == (m, Some(TaskView::List { daemonize: true })),
        executed(m, CommandView::Attach { name, force }) == (
            m,
            Some(TaskView::Preflight { name, force }),
        ),
        executed(m, CommandView::Create(name)) == (m, Some(TaskView::DetectVars { name })),
        executed(m, CommandView::Kill(name)) == (m, Some(TaskView::Kill { name })),
        executed(m, CommandView::FetchVars) == (m, Some(TaskView::FetchVars)),
        executed(m, CommandView::SetVar { name, value }) == (
            m,
            Some(TaskView::SetVar { name, value }),
        ),
        pairs.len() > 0 ==> executed(m, CommandView::CreateWithVars { name, set_vars: pairs }) == (
            m,
            Some(TaskView::SetVars { name, pairs, at: 0 }),
        ),
        pairs.len() == 0 ==> executed(
            m,
            CommandView::CreateWithVars { name, set_vars: pairs },
        ).1 == Some(TaskView::Attach { name, force: false }),
{
}

/// Quitting changes nothing but the flag that stops the loop.
pub proof fn quitting_only_sets_the_flag(m: ModelView)
    ensures
        ({
            let after = executed(m, CommandView::Quit).0;
            after.sessions == m.sessions && after.selection == m.selection && after.mode == m.mode
                && after.error == m.error && after.events_active == m.events_active
        }),
{
}

/// A key's own command starts its task: that is how a keystroke gets to the
/// daemon.
pub proof fn keys_start_tasks(m: ModelView, event: EventView)
    ensures
        ({
            let (after, cmd) = update::updated(m, event);
            cascaded(m, event) == match cmd {
                Some(c) => executed(after, c),
                None => (after, None),
            }
        }),
{
}

/// A list of sessions that comes back is taken in, and no further task comes
/// of it; if it does not come back, that is said.
pub proof fn lists_are_taken_in(
    m: ModelView,
    daemonize: bool,
    sessions: Seq<SessionView>,
    listing: SessionListingView,
    msg: Seq<char>,
)
    ensures
        resumed(
            m,
            TaskView::List { daemonize },
            ReplyView::Sessions(SessionListingView::Listed(sessions)),
        ) == (update::updated(m, EventView::SessionsRefreshed(sessions)).0, None::<TaskView>),
        shell::sessions_of(listing) == Err::<Seq<SessionView>, Seq<char>>(msg) ==> ({
            let (after, next) = resumed(
                m,
                TaskView::List { daemonize },
                ReplyView::Sessions(listing),
            );
            &&& next is None
            &&& after == (ModelView { error: Some("shpool list: "@ + msg), ..m })
        }),
{
}

/// The session that is to be attached to is looked up in the list as it is
/// now. If it is there and not attached, or force is given, the terminal goes
/// to it, and the subscription goes down.
pub proof fn free_sessions_are_attached_to(
    m: ModelView,
    name: Seq<char>,
    force: bool,
    sessions: Seq<SessionView>,
    i: int,
)
    requires
        0 <= i < sessions.len(),
        sessions[i].name == name,
        forall|k: int| 0 <= k < i ==> (#[trigger] sessions[k]).name != name,
        force || !sessions[i].attached,
    ensures
        resumed(
            m,
            TaskView::Preflight { name, force },
            ReplyView::Sessions(SessionListingView::Listed(sessions)),
        ) == (
            (ModelView { events_active: false, ..m }),
            Some(TaskView::Attach { name, force }),
        ),
{
    shell::only_attached_sessions_are_asked_about(sessions, name, i);
}

/// If it is attached and no force is given, the user is asked; the fresh list
/// is taken in.
pub proof fn attached_sessions_are_asked_about(
    m: ModelView,
    name: Seq<char>,
    sessions: Seq<SessionView>,
    i: int,
)
    requires
        0 <= i < sessions.len(),
        sessions[i].name == name,
        forall|k: int| 0 <= k < i ==> (#[trigger] sessions[k]).name != name,
        sessions[i].attached,
    ensures
        ({
            let (after, next) = resumed(
                m,
                TaskView::Preflight { name, force: false },
                ReplyView::Sessions(SessionListingView::Listed(sessions)),
            );
            &&& next is None
            &&& after.mode == ModeView::ConfirmForce(name)
            &&& after.sessions.to_multiset() == sessions.to_multiset()
        }),
{
    shell::only_attached_sessions_are_asked_about(sessions, name, i);
    let asked = m.in_mode(ModeView::ConfirmForce(name));
    crate::tui::keystrokes::refreshes_are_taken_in(asked, sessions);
    crate::tui::keystrokes::refreshes_say_what_is_gone(asked, sessions);
    let after = update::updated(asked, EventView::SessionsRefreshed(sessions)).0;
    after.sessions.to_multiset_ensures();
    sessions.to_multiset_ensures();
    assert(sessions.contains(sessions[i]));
    assert(after.sessions.to_multiset().count(sessions[i]) > 0);
    assert(after.sessions.contains(sessions[i]));
    let k = choose|k: int| 0 <= k < after.sessions.len() && after.sessions[k] == sessions[i];
    assert(after.sessions[k].name == name);
    assert(crate::tui::keystrokes::in_some_row(after, name));
}

/// If it is not there, that is said, and nothing is attached to; the fresh
/// list is taken in.
pub proof fn gone_sessions_are_not_attached_to(
    m: ModelView,
    name: Seq<char>,
    force: bool,
    sessions: Seq<SessionView>,
)
    requires
        m.mode is Normal,
        forall|k: int| 0 <= k < sessions.len() ==> (#[trigger] sessions[k]).name != name,
    ensures
        ({
            let (after, next) = resumed(
                m,
                TaskView::Preflight { name, force },
                ReplyView::Sessions(SessionListingView::Listed(sessions)),
            );
            &&& next is None
            &&& after.mode is Normal
            &&& after.sessions.to_multiset() == sessions.to_multiset()
            &&& after.error is Some
            &&& crate::tui::keystrokes::highlights(m, name) || m.selection is Stale ==> after.error
                == Some("session '"@ + name + "' is gone"@)
        }),
{
    shell::only_attached_sessions_are_asked_about(sessions, name, 0);
    let told = m.with_error(model::gone_message(name));
    crate::tui::keystrokes::refreshes_are_taken_in(told, sessions);
    crate::tui::keystrokes::refreshes_say_what_is_gone(told, sessions);
}

/// The end of a kill is said only if it failed, and has the list refreshed.
pub proof fn kills_are_followed_up(m: ModelView, name: Seq<char>, ok: bool, stderr: Seq<u8>)
    ensures
        ({
            let (after, next) = resumed(
                m,
                TaskView::Kill { name },
                ReplyView::Ran { ok, stderr },
            );
            &&& next == Some(TaskView::List { daemonize: false })
            &&& after.sessions == m.sessions && after.mode == m.mode
            &&& ok ==> after.error is None
            &&& !ok && text::trimmed(text::lossy(stderr)).len() > 0 ==> after.error == Some(
                "kill "@ + name + ": "@ + text::trimmed(text::lossy(stderr)),
            )
            &&& !ok && text::trimmed(text::lossy(stderr)).len() == 0 ==> after.error == Some(
                "kill "@ + name + " failed"@,
            )
        }),
{
}

/// The end of an attached session puts the cursor on it, and has the list
/// refreshed.
pub proof fn attaches_are_followed_up(m: ModelView, name: Seq<char>, force: bool, ok: bool)
    ensures
        ({
            let (after, next) = resumed(
                m,
                TaskView::Attach { name, force },
                ReplyView::Attached { ok },
            );
            &&& next == Some(TaskView::List { daemonize: false })
            &&& crate::tui::keystrokes::in_some_row(m, name)
                ==> crate::tui::keystrokes::highlights(after, name)
            &&& ok ==> after.error is None
            &&& !ok ==> after.error == Some("shpool attach "@ + name + " failed"@)
        }),
{
    crate::tui::keystrokes::attach_ends(m, ok, name);
}

/// Fetched variables are shown; if they could not be had, that is said.
pub proof fn fetched_variables_come_up(m: ModelView, listing: VarListingView)
    ensures
        ({
            let (after, next) = resumed(m, TaskView::FetchVars, ReplyView::Vars(listing));
            &&& next is None
            &&& match shell::vars_of(listing) {
                Ok(vars) => after.mode matches ModeView::Vars(vs) && vs.vars == model::merged(
                    vars,
                    m.sessions,
                ) && vs.selected == 0 && vs.edit is None && after.error == m.error,
                Err(msg) => after == (ModelView {
                    error: Some("shpool var list: "@ + msg),
                    ..m
                }),
            }
        }),
{
}

/// A variable that was set has the variables listed again, to show what they
/// are now, and then the sessions; one that could not be set is said.
pub proof fn set_variables_are_followed_up(
    m: ModelView,
    name: Seq<char>,
    value: Seq<char>,
    ok: bool,
    stderr: Seq<u8>,
    listing: VarListingView,
)
    ensures
        ({
            let (after, next) = resumed(
                m,
                TaskView::SetVar { name, value },
                ReplyView::Ran { ok, stderr },
            );
            let said = text::trimmed(text::lossy(stderr));
            &&& ok ==> after == m && next == Some(TaskView::RefetchVars { name })
            &&& !ok ==> next is None
            &&& !ok && said.len() > 0 ==> after.error == Some("var set "@ + name + ": "@ + said)
            &&& !ok && said.len() == 0 ==> after.error == Some("var set "@ + name + " failed"@)
        }),
        ({
            let (after, next) = resumed(
                m,
                TaskView::RefetchVars { name },
                ReplyView::Vars(listing),
            );
            &&& next == Some(TaskView::List { daemonize: false })
            &&& after == update::updated(
                m,
                EventView::VarSetFinished {
                    name,
                    ok: true,
                    err: None,
                    vars: match shell::vars_of(listing) {
                        Ok(vars) => Some(vars),
                        Err(_) => None,
                    },
                },
            ).0
        }),
{
}

/// A new session is created right away if all that its name needs is set. If
/// not, the prompt asks for what is missing, and knows what is not. If it
/// cannot be told, nothing is created, and that is said.
pub proof fn creation_looks_at_the_variables(
    m: ModelView,
    name: Seq<char>,
    listing: VarListingView,
)
    ensures
        ({
            let (after, next) = resumed(m, TaskView::DetectVars { name }, ReplyView::Vars(listing));
            match shell::vars_of(listing) {
                Err(msg) => next is None && after == (ModelView {
                    error: Some("shpool var list: "@ + msg),
                    ..m
                }),
                Ok(vars) => if needed(name, vars).len() == 0 {
                    &&& next == Some(TaskView::Attach { name, force: false })
                    &&& after == (ModelView { events_active: false, ..m })
                } else {
                    &&& next is None
                    &&& after.mode matches ModeView::CreateVarPrompt(vp) && vp.name == name
                        && vp.vars == needed(name, vars) && vp.idx == 0 && vp.input.len() == 0
                        && vp.collected.len() == 0 && vp.set_vars.len() == vars.len() && (forall|
                        i: int,
                    |
                        0 <= i < vars.len() ==> #[trigger] vp.set_vars[i] == (
                            vars[i].name,
                            vars[i].value,
                        ))
                },
            }
        }),
{
}

/// What a name needs is every variable that stands in it in braces and that
/// is not listed as set, even to nothing.
pub proof fn names_need_what_is_not_set(name: Seq<char>, vars: Seq<VarView>, var: Seq<char>)
    ensures
        needed(name, vars).contains(var) <==> template::names_a_variable(var) && (exists|at: int|
            template::braced_at(name, var, at)) && forall|i: int|
            0 <= i < vars.len() ==> (#[trigger] vars[i]).name != var,
{
    let names = model::var_names(vars);
    template::unknown_variables_are_those_not_known(name, names);
    template::mentioned_variables_stand_in_braces(name, var);
    assert(needed(name, vars).contains(var) <==> template::mentions(name, var) && !names.contains(
        var,
    ));
    if names.contains(var) {
        let i = choose|i: int| 0 <= i < names.len() && names[i] == var;
        assert(vars[i].name == var);
    }
    if exists|i: int| 0 <= i < vars.len() && (#[trigger] vars[i]).name == var {
        let i = choose|i: int| 0 <= i < vars.len() && (#[trigger] vars[i]).name == var;
        assert(names[i] == var);
    }
}

/// A variable that could not be set on the way to a new session is said, by
/// its name; the model stays as it is otherwise.
pub proof fn failed_sets_are_said(
    m: ModelView,
    name: Seq<char>,
    pairs: Seq<(Seq<char>, Seq<char>)>,
    at: int,
    stderr: Seq<u8>,
)
    requires
        0 <= at < pairs.len(),
    ensures
        ({
            let (after, next) = resumed(
                m,
                TaskView::SetVars { name, pairs, at },
                ReplyView::Ran { ok: false, stderr },
            );
            let said = text::trimmed(text::lossy(stderr));
            &&& next is None
            &&& after.mode == m.mode && after.sessions == m.sessions
            &&& said.len() > 0 ==> after.error == Some("var set "@ + pairs[at].0 + ": "@ + said)
            &&& said.len() == 0 ==> after.error == Some("var set "@ + pairs[at].0 + " failed"@)
        }),
{
}

}
