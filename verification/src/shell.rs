//! The `shpool` command line: the arguments of each call, and what its
//! output means.

use vstd::prelude::*;

use crate::order;
use crate::order::stable_sort;
use crate::session;
use crate::session::{position_of, Session, SessionView};
use crate::text;
use crate::text::{chars_of, framed, lossy_text, substring, trim};
use crate::tui::model::{Var, VarView};

verus! {

// -- Arguments --

/// Top-level flags. `apply` puts the four below — in a fixed order,
/// ahead of the subcommand — into every `shpool` call; it forwards exactly
/// these, so a new shpool top-level flag to pass through has to be added
/// here too.
///
/// `--daemonize` / `--no-daemonize` are deliberately not among them —
/// auto-launching a daemon from under the TUI (especially mid-session)
/// is confusing.
#[derive(Debug, Clone)]
pub struct Flags {
    /// Forwarded to every `shpool` invocation as `--config-file <path>`.
    pub config_file: Option<String>,
    /// Forwarded as `--log-file <path>`.
    pub log_file: Option<String>,
    /// Forwarded as that many `-v`.
    pub verbose: u8,
    /// Forwarded as `--socket <path>`.
    pub socket: Option<String>,
}

/// What `Flags` hold.
#[verifier::ext_equal]
pub struct FlagsView {
    pub config_file: Option<Seq<char>>,
    pub log_file: Option<Seq<char>>,
    pub verbose: nat,
    pub socket: Option<Seq<char>>,
}

impl DeepView for Flags {
    type V = FlagsView;

    open spec fn deep_view(&self) -> FlagsView {
        FlagsView {
            config_file: self.config_file.deep_view(),
            log_file: self.log_file.deep_view(),
            verbose: self.verbose as nat,
            socket: self.socket.deep_view(),
        }
    }
}

impl Default for Flags {
    /// No flag given.
    fn default() -> (flags: Self)
        ensures
            flags.deep_view() == (FlagsView {
                config_file: None,
                log_file: None,
                verbose: 0,
                socket: None,
            }),
    {
        Flags { config_file: None, log_file: None, verbose: 0, socket: None }
    }
}

/// A flag and its value, if there is one.
pub open spec fn valued(flag: Seq<char>, value: Option<Seq<char>>) -> Seq<Seq<char>> {
    match value {
        Some(v) => seq![flag, v],
        None => Seq::empty(),
    }
}

impl FlagsView {
    /// The arguments that the flags amount to.
    pub open spec fn args(self) -> Seq<Seq<char>> {
        valued("--config-file"@, self.config_file) + valued("--log-file"@, self.log_file)
            + Seq::new(self.verbose, |i: int| "-v"@) + valued("--socket"@, self.socket)
    }
}

fn push_arg(args: &mut Vec<String>, arg: &str)
    ensures
        final(args).deep_view() == old(args).deep_view().push(arg@),
{
    let ghost before = args.deep_view();
    args.push(arg.to_owned());
    assert(args.deep_view() =~= before.push(arg@));
}

fn push_valued(args: &mut Vec<String>, flag: &str, value: &Option<String>)
    ensures
        final(args).deep_view() == old(args).deep_view() + valued(flag@, value.deep_view()),
{
    let ghost before = args.deep_view();
    if let Some(v) = value {
        push_arg(args, flag);
        push_arg(args, v.as_str());
    }
    assert(args.deep_view() =~= before + valued(flag@, value.deep_view()));
}

impl Flags {
    /// Appends the forwardable flags to the arguments of a `shpool` call.
    /// Global flags have to appear before the subcommand, so callers apply
    /// these *before* `list`, `attach` and so on.
    pub fn apply(&self, args: &mut Vec<String>)
        ensures
            final(args).deep_view() == old(args).deep_view() + self.deep_view().args(),
    {
        let ghost before = args.deep_view();
        push_valued(args, "--config-file", &self.config_file);
        push_valued(args, "--log-file", &self.log_file);
        let ghost so_far = args.deep_view();
        assert(so_far =~= so_far + Seq::new(0, |i: int| "-v"@));
        for i in 0..self.verbose
            invariant
                args.deep_view() == so_far + Seq::new(i as nat, |i: int| "-v"@),
        {
            push_arg(args, "-v");
            assert(args.deep_view() =~= so_far + Seq::new((i + 1) as nat, |i: int| "-v"@));
        }
        push_valued(args, "--socket", &self.socket);
        assert(args.deep_view() =~= before + self.deep_view().args());
    }

    fn args_with(&self, words: Vec<&str>) -> (args: Vec<String>)
        ensures
            args.deep_view() == self.deep_view().args() + words.deep_view(),
    {
        let mut args: Vec<String> = Vec::new();
        assert(args.deep_view() =~= Seq::empty());
        self.apply(&mut args);
        let ghost flags = self.deep_view().args();
        let ghost all = words.deep_view();
        assert(args.deep_view() =~= flags + all.take(0));
        for i in 0..words.len()
            invariant
                all == words.deep_view(),
                args.deep_view() == flags + all.take(i as int),
        {
            assert(all[i as int] == words@[i as int]@);
            push_arg(&mut args, words[i]);
            assert(args.deep_view() =~= flags + all.take(i + 1));
        }
        assert(all.take(all.len() as int) =~= all);
        args
    }
}

/// The arguments of the call that lists the sessions.
pub open spec fn list_args(flags: FlagsView) -> Seq<Seq<char>> {
    flags.args() + seq!["list"@, "--json"@]
}

/// The arguments of the call that lists the sessions.
pub fn list_cmd(flags: &Flags) -> (args: Vec<String>)
    ensures
        args.deep_view() == list_args(flags.deep_view()),
{
    let words = vec!["list", "--json"];
    assert(words.deep_view() =~= seq!["list"@, "--json"@]);
    flags.args_with(words)
}

/// Same as `list_args`, with a daemon started first.
pub open spec fn ensure_daemon_args(flags: FlagsView) -> Seq<Seq<char>> {
    flags.args() + seq!["--daemonize"@, "list"@, "--json"@]
}

/// Same as `list_cmd`, but shpool forks a daemon first if one isn't running.
/// No effect when the daemon is already up.
pub fn ensure_daemon_cmd(flags: &Flags) -> (args: Vec<String>)
    ensures
        args.deep_view() == ensure_daemon_args(flags.deep_view()),
{
    let words = vec!["--daemonize", "list", "--json"];
    assert(words.deep_view() =~= seq!["--daemonize"@, "list"@, "--json"@]);
    flags.args_with(words)
}

/// The arguments of the call that prints the sessions for people to read.
pub open spec fn print_list_args(flags: FlagsView) -> Seq<Seq<char>> {
    flags.args() + seq!["list"@]
}

/// The arguments of the call that prints the sessions for people to read.
pub fn print_list_cmd(flags: &Flags) -> (args: Vec<String>)
    ensures
        args.deep_view() == print_list_args(flags.deep_view()),
{
    let words = vec!["list"];
    assert(words.deep_view() =~= seq!["list"@]);
    flags.args_with(words)
}

/// The arguments of the call that subscribes to the daemon's events.
pub open spec fn events_args(flags: FlagsView) -> Seq<Seq<char>> {
    flags.args() + seq!["events"@]
}

/// The arguments of the call that subscribes to the daemon's events.
pub fn events_cmd(flags: &Flags) -> (args: Vec<String>)
    ensures
        args.deep_view() == events_args(flags.deep_view()),
{
    let words = vec!["events"];
    assert(words.deep_view() =~= seq!["events"@]);
    flags.args_with(words)
}

/// The arguments of the call that lists the template variables.
pub open spec fn var_list_args(flags: FlagsView) -> Seq<Seq<char>> {
    flags.args() + seq!["var"@, "list"@]
}

/// The arguments of the call that lists the template variables.
pub fn var_list_cmd(flags: &Flags) -> (args: Vec<String>)
    ensures
        args.deep_view() == var_list_args(flags.deep_view()),
{
    let words = vec!["var", "list"];
    assert(words.deep_view() =~= seq!["var"@, "list"@]);
    flags.args_with(words)
}

// Each call below has `--` before the user-controlled positionals, so that a
// session name or value that begins with a dash (e.g. "-sh") isn't parsed as
// a flag by shpool's argument parser.

/// A call of `command` on what the user has `named`.
pub open spec fn guarded(
    flags: FlagsView,
    command: Seq<Seq<char>>,
    named: Seq<Seq<char>>,
) -> Seq<Seq<char>> {
    flags.args() + command + seq!["--"@] + named
}

/// The arguments of the call that attaches to (or creates) a session.
pub open spec fn attach_args(flags: FlagsView, name: Seq<char>, force: bool) -> Seq<Seq<char>> {
    guarded(
        flags,
        if force {
            seq!["attach"@, "-f"@]
        } else {
            seq!["attach"@]
        },
        seq![name],
    )
}

/// The arguments of the call that attaches to (or creates) a session.
pub fn attach_cmd(name: &str, force: bool, flags: &Flags) -> (args: Vec<String>)
    ensures
        args.deep_view() == attach_args(flags.deep_view(), name@, force),
{
    let words = if force {
        vec!["attach", "-f", "--", name]
    } else {
        vec!["attach", "--", name]
    };
    assert(words.deep_view() =~= (if force {
        seq!["attach"@, "-f"@]
    } else {
        seq!["attach"@]
    }) + seq!["--"@] + seq![name@]);
    flags.args_with(words)
}

/// The arguments of the call that kills a session.
pub open spec fn kill_args(flags: FlagsView, name: Seq<char>) -> Seq<Seq<char>> {
    guarded(flags, seq!["kill"@], seq![name])
}

/// The arguments of the call that kills a session.
pub fn kill_cmd(name: &str, flags: &Flags) -> (args: Vec<String>)
    ensures
        args.deep_view() == kill_args(flags.deep_view(), name@),
{
    let words = vec!["kill", "--", name];
    assert(words.deep_view() =~= seq!["kill"@] + seq!["--"@] + seq![name@]);
    flags.args_with(words)
}

/// The arguments of the call that sets a template variable.
pub open spec fn var_set_args(
    flags: FlagsView,
    name: Seq<char>,
    value: Seq<char>,
) -> Seq<Seq<char>> {
    guarded(flags, seq!["var"@, "set"@], seq![name, value])
}

/// The arguments of the call that sets a template variable.
pub fn var_set_cmd(name: &str, value: &str, flags: &Flags) -> (args: Vec<String>)
    ensures
        args.deep_view() == var_set_args(flags.deep_view(), name@, value@),
{
    let words = vec!["var", "set", "--", name, value];
    assert(words.deep_view() =~= seq!["var"@, "set"@] + seq!["--"@] + seq![name@, value@]);
    flags.args_with(words)
}

// -- Output --

/// What came of the call that lists the sessions.
pub enum SessionListing {
    /// The call could not be made.
    NotRun,
    /// The call failed and said this.
    Failed { stderr: Vec<u8> },
    /// The reply was no list of sessions.
    Unreadable,
    Listed(Vec<Session>),
}

/// What a `SessionListing` holds.
#[verifier::ext_equal]
pub enum SessionListingView {
    NotRun,
    Failed { stderr: Seq<u8> },
    Unreadable,
    Listed(Seq<SessionView>),
}

impl DeepView for SessionListing {
    type V = SessionListingView;

    open spec fn deep_view(&self) -> SessionListingView {
        match self {
            SessionListing::NotRun => SessionListingView::NotRun,
            SessionListing::Failed { stderr } => SessionListingView::Failed { stderr: stderr@ },
            SessionListing::Unreadable => SessionListingView::Unreadable,
            SessionListing::Listed(sessions) => SessionListingView::Listed(sessions.deep_view()),
        }
    }
}

impl SessionListingView {
    /// What the call printed, where it is valid UTF-8, is read as the text
    /// that it encodes.
    pub open spec fn read_as_utf8(self) -> bool {
        self matches SessionListingView::Failed { stderr } ==> text::read_as_utf8(stderr)
    }
}

/// The message that the call `what` failed and printed `stderr`.
pub open spec fn call_failed(what: Seq<char>, stderr: Seq<char>) -> Seq<char> {
    what + " failed: "@ + text::trimmed(stderr)
}

pub fn call_failed_message(what: &str, stderr: &str) -> (msg: String)
    ensures
        msg@ == call_failed(what@, stderr@),
{
    framed(what, " failed: ", trim(stderr).as_str())
}

/// The sessions that a listing gives, or why it gives none.
pub open spec fn sessions_of(listing: SessionListingView) -> Result<Seq<SessionView>, Seq<char>> {
    match listing {
        SessionListingView::NotRun => Err("running `shpool list --json`"@),
        SessionListingView::Failed { stderr } => Err(
            call_failed("`shpool list --json`"@, text::lossy(stderr)),
        ),
        SessionListingView::Unreadable => Err("parsing shpool list JSON"@),
        SessionListingView::Listed(sessions) => Ok(sessions),
    }
}

/// The sessions that a listing gives, or why it gives none.
pub fn list_sessions(listing: SessionListing) -> (sessions: Result<Vec<Session>, String>)
    ensures
        match sessions {
            Ok(s) => sessions_of(listing.deep_view()) == Ok::<Seq<SessionView>, Seq<char>>(
                s.deep_view(),
            ),
            Err(msg) => sessions_of(listing.deep_view()) == Err::<Seq<SessionView>, Seq<char>>(
                msg@,
            ),
        },
        match listing.deep_view() {
            SessionListingView::Failed { stderr } => vstd::utf8::valid_utf8(stderr)
                ==> sessions is Err && sessions->Err_0@ == call_failed(
                "`shpool list --json`"@,
                vstd::utf8::decode_utf8(stderr),
            ),
            _ => true,
        },
        listing.deep_view().read_as_utf8(),
{
    match listing {
        SessionListing::NotRun => Err("running `shpool list --json`".to_owned()),
        SessionListing::Failed { stderr } => Err(
            call_failed_message(
                "`shpool list --json`",
                lossy_text(stderr.as_slice()).as_str(),
            ),
        ),
        SessionListing::Unreadable => Err("parsing shpool list JSON".to_owned()),
        SessionListing::Listed(sessions) => Ok(sessions),
    }
}

/// What came of the call that lists the template variables.
pub enum VarListing {
    /// The call could not be made.
    NotRun,
    /// The call failed and said this.
    Failed { stderr: Vec<u8> },
    /// The call printed this.
    Printed { stdout: Vec<u8> },
}

/// What a `VarListing` holds.
#[verifier::ext_equal]
pub enum VarListingView {
    NotRun,
    Failed { stderr: Seq<u8> },
    Printed { stdout: Seq<u8> },
}

impl DeepView for VarListing {
    type V = VarListingView;

    open spec fn deep_view(&self) -> VarListingView {
        match self {
            VarListing::NotRun => VarListingView::NotRun,
            VarListing::Failed { stderr } => VarListingView::Failed { stderr: stderr@ },
            VarListing::Printed { stdout } => VarListingView::Printed { stdout: stdout@ },
        }
    }
}

impl VarListingView {
    /// What the call printed, where it is valid UTF-8, is read as the text
    /// that it encodes.
    pub open spec fn read_as_utf8(self) -> bool {
        match self {
            VarListingView::NotRun => true,
            VarListingView::Failed { stderr } => text::read_as_utf8(stderr),
            VarListingView::Printed { stdout } => text::read_as_utf8(stdout),
        }
    }
}

/// The variable on a line: its name up to the first tab, its value behind
/// that. A line without a tab is a name with an empty value.
pub open spec fn var_on(line: Seq<char>) -> VarView {
    let end = text::end_before(line, '\t');
    VarView {
        name: line.take(end),
        value: if end < line.len() {
            line.skip(end + 1)
        } else {
            Seq::empty()
        },
        unset: false,
    }
}

/// The variables on `lines`, in order; empty lines have none.
pub open spec fn vars_on(lines: Seq<Seq<char>>) -> Seq<VarView>
    decreases lines.len(),
{
    if lines.len() == 0 {
        Seq::empty()
    } else if lines.last().len() == 0 {
        vars_on(lines.drop_last())
    } else {
        vars_on(lines.drop_last()).push(var_on(lines.last()))
    }
}

/// The variables that `stdout` lists, by name.
pub open spec fn vars_in(stdout: Seq<char>) -> Seq<VarView> {
    order::sorted(vars_on(text::lines(stdout)), order::ranking::<Var>())
}

fn var_of_line(line: &str) -> (var: Var)
    ensures
        var.deep_view() == var_on(line@),
{
    let chars = chars_of(line);
    let n: usize = chars.len();
    assert(chars@.skip(0) =~= chars@);
    let tab: usize = text::find_from(chars.as_slice(), 0, '\t');
    let name = substring(chars.as_slice(), 0, tab);
    let value = if tab < n {
        substring(chars.as_slice(), tab + 1, n)
    } else {
        String::new()
    };
    assert(name@ =~= var_on(line@).name);
    assert(value@ =~= var_on(line@).value);
    // A var from `var list` is by definition set, even with an empty
    // value — emptiness is never inferred as unset.
    Var { name, value, unset: false }
}

/// Reads what `shpool var list` prints: one `name<TAB>value` line each.
/// Returns the variables sorted by name.
pub fn parse_var_list(stdout: &str) -> (vars: Vec<Var>)
    ensures
        vars.deep_view() == vars_in(stdout@),
{
    let lines = text::lines_of(stdout);
    let ghost all = lines.deep_view();
    let mut vars: Vec<Var> = Vec::new();
    assert(all.take(0) =~= Seq::empty());
    assert(vars.deep_view() =~= Seq::empty());
    for i in 0..lines.len()
        invariant
            all == lines.deep_view(),
            vars.deep_view() == vars_on(all.take(i as int)),
    {
        let line = lines[i].as_str();
        let ghost before = vars.deep_view();
        assert(all.take(i + 1).drop_last() =~= all.take(i as int));
        assert(all[i as int] == line@);
        if !line.is_empty() {
            vars.push(var_of_line(line));
            assert(vars.deep_view() =~= before.push(var_on(line@)));
        }
    }
    assert(all.take(all.len() as int) =~= all);
    stable_sort(vars)
}

/// The variables that a listing gives, or why it gives none.
pub open spec fn vars_of(listing: VarListingView) -> Result<Seq<VarView>, Seq<char>> {
    match listing {
        VarListingView::NotRun => Err("running `shpool var list`"@),
        VarListingView::Failed { stderr } => Err(
            call_failed("`shpool var list`"@, text::lossy(stderr)),
        ),
        VarListingView::Printed { stdout } => Ok(vars_in(text::lossy(stdout))),
    }
}

/// The daemon's template variables, sorted by name, or why they could not be
/// had.
pub fn list_vars(listing: VarListing) -> (vars: Result<Vec<Var>, String>)
    ensures
        match vars {
            Ok(v) => vars_of(listing.deep_view()) == Ok::<Seq<VarView>, Seq<char>>(v.deep_view()),
            Err(msg) => vars_of(listing.deep_view()) == Err::<Seq<VarView>, Seq<char>>(msg@),
        },
        match listing.deep_view() {
            VarListingView::NotRun => true,
            VarListingView::Failed { stderr } => vstd::utf8::valid_utf8(stderr) ==> vars is Err
                && vars->Err_0@ == call_failed(
                "`shpool var list`"@,
                vstd::utf8::decode_utf8(stderr),
            ),
            VarListingView::Printed { stdout } => vstd::utf8::valid_utf8(stdout) ==> vars is Ok
                && vars->Ok_0.deep_view() == vars_in(vstd::utf8::decode_utf8(stdout)),
        },
        listing.deep_view().read_as_utf8(),
{
    match listing {
        VarListing::NotRun => Err("running `shpool var list`".to_owned()),
        VarListing::Failed { stderr } => Err(
            call_failed_message("`shpool var list`", lossy_text(stderr.as_slice()).as_str()),
        ),
        VarListing::Printed { stdout } => Ok(
            parse_var_list(lossy_text(stdout.as_slice()).as_str()),
        ),
    }
}

/// What there is to say about a `shpool var set`: what a failed one printed,
/// if it printed anything.
pub open spec fn var_set_error(ok: bool, stderr: Seq<char>) -> Option<Seq<char>> {
    if ok || text::trimmed(stderr).len() == 0 {
        None
    } else {
        Some(text::trimmed(stderr))
    }
}

/// What there is to say about a `shpool var set`. The text comes back as it
/// is: whoever shows it says what it is about.
pub fn set_var(ok: bool, stderr: &str) -> (err: Option<String>)
    ensures
        err.deep_view() == var_set_error(ok, stderr@),
{
    if ok {
        return None;
    }
    let detail = trim(stderr);
    if detail.as_str().is_empty() {
        None
    } else {
        Some(detail)
    }
}

/// What there is to say about a `shpool kill`: nothing if it went well, else
/// what it printed, or at least that it failed.
pub open spec fn kill_error(name: Seq<char>, ok: bool, stderr: Seq<char>) -> Option<Seq<char>> {
    if ok {
        None
    } else if text::trimmed(stderr).len() == 0 {
        Some("kill "@ + name + " failed"@)
    } else {
        Some("kill "@ + name + ": "@ + text::trimmed(stderr))
    }
}

/// What there is to say about a `shpool kill`.
pub fn shell_kill(name: &str, ok: bool, stderr: &str) -> (err: Option<String>)
    ensures
        err.deep_view() == kill_error(name@, ok, stderr@),
{
    if ok {
        return None;
    }
    let detail = trim(stderr);
    if detail.as_str().is_empty() {
        Some(framed("kill ", name, " failed"))
    } else {
        let mut msg = framed("kill ", name, ": ");
        msg.append(detail.as_str());
        Some(msg)
    }
}

/// Result of the attach pre-flight — a presence and attached-elsewhere check
/// on a fresh list of sessions.
#[derive(Debug, PartialEq, Eq, Clone, Copy, Structural)]
pub enum Preflight {
    /// Session no longer exists; some other client killed it since
    /// the user's last view.
    Gone,
    /// Session exists but is attached from another terminal and
    /// `force` was not set.
    AttachedElsewhere,
    /// Session exists and is ready to attach.
    ClearToAttach,
}

/// Whether the session `name` of `sessions` can be attached to.
pub open spec fn preflight(sessions: Seq<SessionView>, name: Seq<char>, force: bool) -> Preflight {
    match text::position(session::names(sessions), name) {
        None => Preflight::Gone,
        Some(i) => if !force && sessions[i].attached {
            Preflight::AttachedElsewhere
        } else {
            Preflight::ClearToAttach
        },
    }
}

/// Whether the session `name` of `sessions` can be attached to.
pub fn preflight_attach(sessions: &Vec<Session>, name: &str, force: bool) -> (verdict: Preflight)
    ensures
        verdict == preflight(sessions.deep_view(), name@, force),
{
    match position_of(sessions, name) {
        None => Preflight::Gone,
        Some(i) => {
            assert(sessions.deep_view()[i as int].attached == sessions@[i as int].attached);
            if !force && sessions[i].attached {
                Preflight::AttachedElsewhere
            } else {
                Preflight::ClearToAttach
            }
        },
    }
}

// -- What the calls keep --

/// The forwarded flags stand ahead of the subcommand, and what the user named
/// stands behind a `--`, where it is no flag however it begins.
pub proof fn flags_lead_and_names_are_guarded(
    flags: FlagsView,
    command: Seq<Seq<char>>,
    named: Seq<Seq<char>>,
    i: int,
)
    requires
        0 <= i < named.len(),
    ensures
        ({
            let args = guarded(flags, command, named);
            let guard = flags.args().len() + command.len();
            &&& args.take(flags.args().len() as int) == flags.args()
            &&& args[guard as int] == "--"@
            &&& args[guard + 1 + i] == named[i]
        }),
{
    let args = guarded(flags, command, named);
    assert(args.take(flags.args().len() as int) =~= flags.args());
}

/// Without `force`, a session is clear to attach to only if it is listed and
/// not attached elsewhere; with it, whenever it is listed.
pub proof fn attached_sessions_need_force(
    sessions: Seq<SessionView>,
    name: Seq<char>,
    force: bool,
)
    ensures
        preflight(sessions, name, force) == Preflight::Gone <==> !session::names(
            sessions,
        ).contains(name),
        preflight(sessions, name, true) != Preflight::AttachedElsewhere,
        preflight(sessions, name, false) == Preflight::ClearToAttach ==> exists|i: int|
            0 <= i < sessions.len() && (#[trigger] sessions[i]).name == name
                && !sessions[i].attached,
{
    text::position_exists(session::names(sessions), name);
    if let Some(i) = text::position(session::names(sessions), name) {
        assert(session::names(sessions)[i] == sessions[i].name);
    }
}

/// A line as `shpool var list` prints it.
pub open spec fn printed_line(v: VarView) -> Seq<char> {
    v.name + seq!['\t'] + v.value
}

/// What `shpool var list` prints: a line for each variable.
pub open spec fn printed(vars: Seq<VarView>) -> Seq<char>
    decreases vars.len(),
{
    if vars.len() == 0 {
        Seq::empty()
    } else {
        printed_line(vars[0]) + seq!['\n'] + printed(vars.drop_first())
    }
}

/// A variable that a line can hold: no tab in its name, no newline in either
/// part, and no carriage return at the end.
pub open spec fn is_printable(v: VarView) -> bool {
    &&& !v.unset
    &&& !v.name.contains('\t')
    &&& !v.name.contains('\n')
    &&& !v.value.contains('\n')
    &&& v.value.len() > 0 ==> v.value.last() != '\r'
}

proof fn end_is_first(s: Seq<char>, c: char, at: int)
    requires
        0 <= at < s.len(),
        s[at] == c,
        forall|i: int| 0 <= i < at ==> s[i] != c,
    ensures
        text::end_before(s, c) == at,
    decreases at,
{
    if at > 0 {
        assert(s[0] != c);
        assert(forall|i: int| 0 <= i < at - 1 ==> s.drop_first()[i] == s[i + 1]);
        end_is_first(s.drop_first(), c, at - 1);
    }
}

proof fn vars_on_front(first: Seq<char>, rest: Seq<Seq<char>>)
    requires
        first.len() > 0,
    ensures
        vars_on(seq![first] + rest) == seq![var_on(first)] + vars_on(rest),
    decreases rest.len(),
{
    let all = seq![first] + rest;
    if rest.len() == 0 {
        assert(all.drop_last() =~= Seq::empty());
        assert(vars_on(all.drop_last()) =~= Seq::empty());
        assert(vars_on(all) =~= seq![var_on(first)] + vars_on(rest));
    } else {
        assert(all.drop_last() =~= seq![first] + rest.drop_last());
        vars_on_front(first, rest.drop_last());
        assert(vars_on(all) =~= seq![var_on(first)] + vars_on(rest));
    }
}

/// Reading what was printed gives the variables back, by name.
pub proof fn printed_variables_read_back(vars: Seq<VarView>)
    requires
        forall|i: int| 0 <= i < vars.len() ==> is_printable(#[trigger] vars[i]),
    ensures
        vars_on(text::lines(printed(vars))) == vars,
        vars_in(printed(vars)) == order::sorted(vars, order::ranking::<Var>()),
    decreases vars.len(),
{
    if vars.len() == 0 {
        assert(vars_on(text::lines(printed(vars))) =~= vars);
    } else {
        let v = vars[0];
        let rest = vars.drop_first();
        let line = printed_line(v);
        let whole = printed(vars);
        assert(is_printable(v));
        assert(forall|i: int| 0 <= i < rest.len() ==> rest[i] == vars[i + 1]);
        printed_variables_read_back(rest);
        assert forall|i: int| 0 <= i < line.len() implies line[i] != '\n' by {
            if i < v.name.len() {
                assert(line[i] == v.name[i]);
                assert(v.name.contains(v.name[i]));
            } else if i > v.name.len() {
                let k = i - v.name.len() - 1;
                assert(line[i] == v.value[k]);
                assert(v.value.contains(v.value[k]));
            }
        }
        assert(whole[line.len() as int] == '\n');
        end_is_first(whole, '\n', line.len() as int);
        assert(whole.take(line.len() as int) =~= line);
        assert(whole.skip(line.len() as int + 1) =~= printed(rest));
        assert(text::without_return(line) == line) by {
            if v.value.len() > 0 {
                assert(line.last() == v.value.last());
            } else {
                assert(line.last() == '\t');
            }
        }
        assert(text::lines(whole) == seq![line] + text::lines(printed(rest)));
        vars_on_front(line, text::lines(printed(rest)));
        assert forall|i: int| 0 <= i < v.name.len() implies line[i] != '\t' by {
            assert(line[i] == v.name[i]);
            assert(v.name.contains(v.name[i]));
        }
        end_is_first(line, '\t', v.name.len() as int);
        assert(var_on(line).name =~= v.name);
        assert(var_on(line).value =~= v.value);
        assert(seq![v] + rest =~= vars);
    }
}

/// A session that is listed is clear to attach to unless it is attached, and
/// with force even then; without force, an attached one is not. One that is
/// not listed is gone. Of several sessions of the name, the first counts.
pub proof fn only_attached_sessions_are_asked_about(
    sessions: Seq<SessionView>,
    name: Seq<char>,
    i: int,
)
    ensures
        (forall|k: int| 0 <= k < sessions.len() ==> (#[trigger] sessions[k]).name != name)
            ==> preflight(sessions, name, false) == Preflight::Gone && preflight(
            sessions,
            name,
            true,
        ) == Preflight::Gone,
        0 <= i < sessions.len() && sessions[i].name == name && (forall|k: int|
            0 <= k < i ==> (#[trigger] sessions[k]).name != name) ==> {
            &&& preflight(sessions, name, true) == Preflight::ClearToAttach
            &&& sessions[i].attached ==> preflight(sessions, name, false)
                == Preflight::AttachedElsewhere
            &&& !sessions[i].attached ==> preflight(sessions, name, false)
                == Preflight::ClearToAttach
        },
{
    let names = session::names(sessions);
    text::position_exists(names, name);
    if let Some(k) = text::position(names, name) {
        assert(names[k] == sessions[k].name);
    }
    if 0 <= i < sessions.len() && sessions[i].name == name && (forall|k: int|
        0 <= k < i ==> (#[trigger] sessions[k]).name != name) {
        assert forall|k: int| 0 <= k < i implies names[k] != name by {
            assert(sessions[k].name != name);
        }
        assert(text::is_first(names, name, i));
        text::position_is(names, name, i);
    }
}

/// Whether a session can be attached to depends on its name and on whether it
/// is attached, and on nothing else that is known of any session.
pub proof fn preflight_looks_at_names_and_attachment(
    a: Seq<SessionView>,
    b: Seq<SessionView>,
    name: Seq<char>,
    force: bool,
)
    requires
        a.len() == b.len(),
        forall|i: int|
            0 <= i < a.len() ==> (#[trigger] a[i]).name == (#[trigger] b[i]).name && a[i].attached
                == b[i].attached,
    ensures
        preflight(a, name, force) == preflight(b, name, force),
{
    assert forall|i: int| 0 <= i < a.len() implies session::names(a)[i] == session::names(
        b,
    )[i] by {
        assert(a[i].name == b[i].name);
    }
    assert(session::names(a) =~= session::names(b));
    text::position_exists(session::names(a), name);
    if let Some(i) = text::position(session::names(a), name) {
        assert(a[i].attached == b[i].attached);
    }
}

/// Each flag that is given is forwarded with its value, `-v` as often as it
/// was given, and none that was not given: first the configuration file, then
/// the log file, then the `-v`s, then the socket.
pub proof fn given_flags_are_forwarded(f: FlagsView, value: Seq<char>)
    ensures
        ({
            let config = FlagsView { config_file: Some(value), ..f };
            let no_config = FlagsView { config_file: None, ..f };
            config.args() == seq!["--config-file"@, value] + no_config.args()
        }),
        ({
            let log = FlagsView { log_file: Some(value), ..f };
            let no_log = FlagsView { log_file: None, ..f };
            f.config_file is None ==> log.args() == seq!["--log-file"@, value] + no_log.args()
        }),
        ({
            let socket = FlagsView { socket: Some(value), ..f };
            let no_socket = FlagsView { socket: None, ..f };
            socket.args() == no_socket.args() + seq!["--socket"@, value]
        }),
        f.config_file is None && f.log_file is None && f.socket is None ==> f.args().len()
            == f.verbose && forall|i: int| 0 <= i < f.verbose ==> #[trigger] f.args()[i] == "-v"@,
{
    let config = FlagsView { config_file: Some(value), ..f };
    let no_config = FlagsView { config_file: None, ..f };
    assert(config.args() =~= seq!["--config-file"@, value] + no_config.args());
    if f.config_file is None {
        let log = FlagsView { log_file: Some(value), ..f };
        let no_log = FlagsView { log_file: None, ..f };
        assert(log.args() =~= seq!["--log-file"@, value] + no_log.args());
    }
    let socket = FlagsView { socket: Some(value), ..f };
    let no_socket = FlagsView { socket: None, ..f };
    assert(socket.args() =~= no_socket.args() + seq!["--socket"@, value]);
}

/// White space, and nothing else.
pub open spec fn is_blank(s: Seq<char>) -> bool {
    forall|i: int| 0 <= i < s.len() ==> text::is_space(#[trigger] s[i])
}

/// A text that begins and ends with something other than white space.
pub open spec fn is_said(s: Seq<char>) -> bool {
    s.len() > 0 && !text::is_space(s[0]) && !text::is_space(s[s.len() - 1])
}

/// What a failed call printed is said without the white space around it; a
/// call that printed nothing else still is said to have failed, but for a
/// `var set`, which leaves that to whoever shows it. A call that went well has
/// nothing said of it.
pub proof fn failures_are_said_in_their_words(
    what: Seq<char>,
    name: Seq<char>,
    before: Seq<char>,
    said: Seq<char>,
    behind: Seq<char>,
)
    requires
        is_blank(before),
        is_blank(behind),
        is_said(said),
    ensures
        call_failed(what, before + said + behind) == what + " failed: "@ + said,
        kill_error(name, false, before + said + behind) == Some("kill "@ + name + ": "@ + said),
        kill_error(name, false, before) == Some("kill "@ + name + " failed"@),
        kill_error(name, true, before + said + behind) is None,
        var_set_error(false, before + said + behind) == Some(said),
        var_set_error(false, before) is None,
        var_set_error(true, before + said + behind) is None,
{
    text::trimming_takes_white_space_off(before, said, behind);
    let none: Seq<char> = Seq::empty();
    text::trimming_takes_white_space_off(before, none, none);
    assert(before + none + none =~= before);
}

/// Sessions that were listed are handed on as they are; each way of not
/// getting a list is said in its own words.
pub proof fn listings_are_handed_on(sessions: Seq<SessionView>, stderr: Seq<u8>)
    ensures
        sessions_of(SessionListingView::Listed(sessions)) == Ok::<Seq<SessionView>, Seq<char>>(
            sessions,
        ),
        sessions_of(SessionListingView::NotRun) == Err::<Seq<SessionView>, Seq<char>>(
            "running `shpool list --json`"@,
        ),
        sessions_of(SessionListingView::Unreadable) == Err::<Seq<SessionView>, Seq<char>>(
            "parsing shpool list JSON"@,
        ),
        sessions_of(SessionListingView::Failed { stderr }) == Err::<Seq<SessionView>, Seq<char>>(
            call_failed("`shpool list --json`"@, text::lossy(stderr)),
        ),
        vars_of(VarListingView::NotRun) == Err::<Seq<VarView>, Seq<char>>(
            "running `shpool var list`"@,
        ),
        vars_of(VarListingView::Failed { stderr }) == Err::<Seq<VarView>, Seq<char>>(
            call_failed("`shpool var list`"@, text::lossy(stderr)),
        ),
{
}

/// A line is read as a name up to its first tab and a value behind it, further
/// tabs and all; a line without a tab is a name with an empty value. Either
/// way the variable counts as set.
pub proof fn lines_are_read_as_variables(name: Seq<char>, value: Seq<char>)
    requires
        !name.contains('\t'),
    ensures
        var_on(name + seq!['\t'] + value) == (VarView { name, value, unset: false }),
        var_on(name) == (VarView { name, value: Seq::empty(), unset: false }),
{
    let line = name + seq!['\t'] + value;
    assert forall|i: int| 0 <= i < name.len() implies line[i] != '\t' by {
        assert(line[i] == name[i]);
        assert(name.contains(name[i]));
    }
    end_is_first(line, '\t', name.len() as int);
    assert(var_on(line).name =~= name);
    assert(var_on(line).value =~= value);
    text::search_ends_at_the_first(name, '\t');
    let end = text::end_before(name, '\t');
    if end < name.len() {
        assert(name.contains(name[end]));
    }
    assert(var_on(name).name =~= name);
    assert(var_on(name).value =~= Seq::empty());
}

/// Each line that is not empty gives one variable, in order; an empty line
/// gives none.
pub proof fn lines_give_a_variable_each(lines: Seq<Seq<char>>, more: Seq<char>)
    ensures
        vars_on(lines + seq![more]) == if more.len() == 0 {
            vars_on(lines)
        } else {
            vars_on(lines) + seq![var_on(more)]
        },
        vars_on(Seq::empty()).len() == 0,
{
    let all = lines + seq![more];
    assert(all.drop_last() =~= lines);
    if more.len() > 0 {
        assert(vars_on(lines).push(var_on(more)) =~= vars_on(lines) + seq![var_on(more)]);
    }
}

/// The variables of a listing are exactly those on its lines, in the order of
/// their names.
pub proof fn listed_variables_are_in_order(stdout: Seq<char>, i: int, j: int)
    ensures
        vars_in(stdout).to_multiset() == vars_on(text::lines(stdout)).to_multiset(),
        0 <= i < j < vars_in(stdout).len() ==> text::no_later(
            vars_in(stdout)[i].name,
            vars_in(stdout)[j].name,
        ),
{
    let by_name = order::ranking::<Var>();
    crate::tui::laws::names_are_a_ranking();
    order::sorting_is_stable(vars_on(text::lines(stdout)), by_name);
    if 0 <= i < j < vars_in(stdout).len() {
        assert(by_name(vars_in(stdout)[i], vars_in(stdout)[j]));
    }
}

/// A call that names something is the flags, the command, a `--`, and what is
/// named, and nothing else.
pub proof fn guarded_calls_hold_nothing_else(
    flags: FlagsView,
    command: Seq<Seq<char>>,
    named: Seq<Seq<char>>,
)
    ensures
        ({
            let args = guarded(flags, command, named);
            let lead = flags.args().len() as int;
            let guard = lead + command.len();
            &&& args.len() == guard + 1 + named.len()
            &&& args.take(lead) == flags.args()
            &&& args.subrange(lead, guard) == command
            &&& args[guard] == "--"@
            &&& args.skip(guard + 1) == named
        }),
{
    let args = guarded(flags, command, named);
    let lead = flags.args().len() as int;
    let guard = lead + command.len();
    assert(args.take(lead) =~= flags.args());
    assert(args.subrange(lead, guard) =~= command);
    assert(args.skip(guard + 1) =~= named);
}

/// Behind the flags, each call has its command and, behind a `--`, exactly
/// what it is about; `-f` is there only with force.
pub proof fn calls_say_what_they_are_for(flags: FlagsView, name: Seq<char>, value: Seq<char>)
    ensures
        list_args(flags) == flags.args() + seq!["list"@, "--json"@],
        ensure_daemon_args(flags) == flags.args() + seq!["--daemonize"@, "list"@, "--json"@],
        print_list_args(flags) == flags.args() + seq!["list"@],
        events_args(flags) == flags.args() + seq!["events"@],
        var_list_args(flags) == flags.args() + seq!["var"@, "list"@],
        attach_args(flags, name, false) == flags.args() + seq!["attach"@, "--"@, name],
        attach_args(flags, name, true) == flags.args() + seq!["attach"@, "-f"@, "--"@, name],
        kill_args(flags, name) == flags.args() + seq!["kill"@, "--"@, name],
        var_set_args(flags, name, value) == flags.args() + seq![
            "var"@,
            "set"@,
            "--"@,
            name,
            value,
        ],
{
    assert(attach_args(flags, name, false) =~= flags.args() + seq!["attach"@, "--"@, name]);
    assert(attach_args(flags, name, true) =~= flags.args() + seq!["attach"@, "-f"@, "--"@, name]);
    assert(kill_args(flags, name) =~= flags.args() + seq!["kill"@, "--"@, name]);
    assert(var_set_args(flags, name, value) =~= flags.args() + seq![
        "var"@,
        "set"@,
        "--"@,
        name,
        value,
    ]);
}

/// The view of the flags holds what they hold, and that of a listing what came
/// back.
pub proof fn call_views_are_true(
    flags: Flags,
    value: String,
    bytes: Vec<u8>,
    sessions: Vec<Session>,
)
    ensures
        flags.deep_view().verbose == flags.verbose,
        flags.config_file == Some(value) ==> flags.deep_view().config_file == Some(value@),
        flags.config_file is None ==> flags.deep_view().config_file is None,
        flags.log_file == Some(value) ==> flags.deep_view().log_file == Some(value@),
        flags.log_file is None ==> flags.deep_view().log_file is None,
        flags.socket == Some(value) ==> flags.deep_view().socket == Some(value@),
        flags.socket is None ==> flags.deep_view().socket is None,
        SessionListing::NotRun.deep_view() == SessionListingView::NotRun,
        (SessionListing::Failed { stderr: bytes }).deep_view() == (SessionListingView::Failed {
            stderr: bytes@,
        }),
        SessionListing::Unreadable.deep_view() == SessionListingView::Unreadable,
        SessionListing::Listed(sessions).deep_view() == SessionListingView::Listed(
            sessions.deep_view(),
        ),
        VarListing::NotRun.deep_view() == VarListingView::NotRun,
        (VarListing::Failed { stderr: bytes }).deep_view() == (VarListingView::Failed {
            stderr: bytes@,
        }),
        (VarListing::Printed { stdout: bytes }).deep_view() == (VarListingView::Printed {
            stdout: bytes@,
        }),
{
}

}
