//! The main loop, one step at a time: what the program does next, given what
//! came of what it did last.
//!
//! Standard input is multiplexed with an event subscription (when one can be
//! had), so that changes from other clients refresh the table without a
//! keystroke. When the subscription is unavailable or drops, the loop falls
//! back to refreshing on keystrokes and focus events, and tries to subscribe
//! again the next time the user does something. The fallback is visible, not
//! silent: the end of a subscription surfaces a footer notice.

use vstd::prelude::*;

use crate::events::Drain;
use crate::executor;
use crate::executor::{resume, run_cascade, Reply, ReplyView, Task, TaskView};
use crate::tui::event::{Event, EventView};
use crate::tui::model::{ModeView, Model, ModelView, SelectionView};
use crate::tui::parser;
use crate::tui::parser::{Input, InputParser, ParserState};
use crate::tui::update;

verus! {

/// The footer notice that the subscription has ended.
pub const EVENTS_LOST: &'static str = "events unavailable — refreshing on keypress (D to reconnect)";

/// What the program is to do.
pub enum Stage {
    /// Subscribe to the daemon's events, for the first time or again.
    Subscribing { first: bool },
    /// Perform the task; `then` is what follows the cascade that it is in.
    Performing { task: Task, then: Then },
    /// Draw the model.
    Drawing,
    /// Wait for input, an event, or the next change of an age on screen.
    Waiting,
    /// Read what the subscription has; `stdin` tells of input to read after.
    Draining { stdin: bool },
    /// Read from standard input.
    Reading,
    /// Nothing more: stop.
    Stopped,
}

/// What follows once a cascade has run dry.
pub enum Then {
    /// Draw.
    Draw,
    /// Read the input, if there is any, that came along with the event.
    Input { stdin: bool },
    /// The same, but say first that the subscription has ended.
    Lost { stdin: bool },
    /// Go on with the inputs from `at` on.
    Inputs { inputs: Vec<Input>, at: usize },
}

/// What a `Stage` holds.
#[verifier::ext_equal]
pub enum StageView {
    Subscribing { first: bool },
    Performing { task: TaskView, then: ThenView },
    Drawing,
    Waiting,
    Draining { stdin: bool },
    Reading,
    Stopped,
}

/// What a `Then` holds.
#[verifier::ext_equal]
pub enum ThenView {
    Draw,
    Input { stdin: bool },
    Lost { stdin: bool },
    Inputs(Seq<Input>),
}

impl DeepView for Then {
    type V = ThenView;

    open spec fn deep_view(&self) -> ThenView {
        match self {
            Then::Draw => ThenView::Draw,
            Then::Input { stdin } => ThenView::Input { stdin: *stdin },
            Then::Lost { stdin } => ThenView::Lost { stdin: *stdin },
            Then::Inputs { inputs, at } => ThenView::Inputs(
                if *at <= inputs@.len() {
                    inputs@.skip(*at as int)
                } else {
                    Seq::empty()
                },
            ),
        }
    }
}

impl DeepView for Stage {
    type V = StageView;

    open spec fn deep_view(&self) -> StageView {
        match self {
            Stage::Subscribing { first } => StageView::Subscribing { first: *first },
            Stage::Performing { task, then } => StageView::Performing {
                task: task.deep_view(),
                then: then.deep_view(),
            },
            Stage::Drawing => StageView::Drawing,
            Stage::Waiting => StageView::Waiting,
            Stage::Draining { stdin } => StageView::Draining { stdin: *stdin },
            Stage::Reading => StageView::Reading,
            Stage::Stopped => StageView::Stopped,
        }
    }
}

/// What came of what the program did.
pub enum Report {
    /// The subscription was made, or not.
    Subscribed(bool),
    /// The task was performed.
    Replied(Reply),
    /// The frame is on the screen.
    Drawn,
    /// The wait ended: input, events, or neither is ready.
    Woken { stdin: bool, events: bool },
    /// A signal interrupted the wait or the read.
    Interrupted,
    /// The subscription was read from.
    Drained(Drain),
    /// These bytes were read from standard input; none at its end.
    Read(Vec<u8>),
}

/// What a `Report` holds.
#[verifier::ext_equal]
pub enum ReportView {
    Subscribed(bool),
    Replied(ReplyView),
    Drawn,
    Woken { stdin: bool, events: bool },
    Interrupted,
    Drained(Drain),
    Read(Seq<u8>),
}

impl DeepView for Report {
    type V = ReportView;

    open spec fn deep_view(&self) -> ReportView {
        match self {
            Report::Subscribed(ok) => ReportView::Subscribed(*ok),
            Report::Replied(reply) => ReportView::Replied(reply.deep_view()),
            Report::Drawn => ReportView::Drawn,
            Report::Woken { stdin, events } => ReportView::Woken { stdin: *stdin, events: *events },
            Report::Interrupted => ReportView::Interrupted,
            Report::Drained(drain) => ReportView::Drained(*drain),
            Report::Read(bytes) => ReportView::Read(bytes@),
        }
    }
}

/// `report` is the kind of report that `stage` has.
pub open spec fn reports(report: ReportView, stage: StageView) -> bool {
    match stage {
        StageView::Subscribing { .. } => report is Subscribed,
        StageView::Performing { task, .. } => report matches ReportView::Replied(reply)
            && executor::answers(reply, task),
        StageView::Drawing => report is Drawn,
        StageView::Waiting => report is Woken || report is Interrupted,
        StageView::Draining { .. } => report is Drained,
        StageView::Reading => report is Read || report is Interrupted,
        StageView::Stopped => false,
    }
}

/// The event that an input makes.
pub open spec fn event_of(input: Input) -> EventView {
    match input {
        Input::Key(key) => EventView::Key(key),
        Input::FocusGained => EventView::FocusGained,
    }
}

/// A model and what the program is to do.
pub type Position = (ModelView, StageView);

/// After the input: subscribe again if there is no subscription. Only what
/// the user does leads here, so that a subscription that ends right away is
/// not made over and over.
pub open spec fn after_input(m: ModelView) -> Position {
    if !m.events_active && !m.quit {
        (m, StageView::Subscribing { first: false })
    } else {
        (m, StageView::Drawing)
    }
}

/// The inputs one after the other, each with its own cascade, until one asks
/// to quit.
pub open spec fn after_inputs(m: ModelView, inputs: Seq<Input>) -> Position
    decreases inputs.len(),
{
    if m.quit || inputs.len() == 0 {
        after_input(m)
    } else {
        let rest = inputs.drop_first();
        let (after, task) = executor::cascaded(m, event_of(inputs[0]));
        match task {
            Some(t) => (
                after,
                StageView::Performing { task: t, then: ThenView::Inputs(rest) },
            ),
            None => after_inputs(after, rest),
        }
    }
}

/// On to the input, if there is any.
pub open spec fn after_events(m: ModelView, stdin: bool) -> Position {
    if stdin {
        (m, StageView::Reading)
    } else {
        (m, StageView::Drawing)
    }
}

/// A cascade has run dry.
pub open spec fn settled(m: ModelView, then: ThenView) -> Position {
    match then {
        ThenView::Draw => (m, StageView::Drawing),
        ThenView::Input { stdin } => after_events(m, stdin),
        // A specific error (a daemon truly down) outranks the notice.
        ThenView::Lost { stdin } => after_events(
            if m.error is None {
                m.with_error(EVENTS_LOST@)
            } else {
                m
            },
            stdin,
        ),
        ThenView::Inputs(inputs) => after_inputs(m, inputs),
    }
}

/// A cascade at its next task, or run dry.
pub open spec fn performing(stage: executor::Stage, then: ThenView) -> Position {
    match stage.1 {
        Some(task) => (stage.0, StageView::Performing { task, then }),
        None => settled(stage.0, then),
    }
}

/// What the loop has in hand.
pub struct Driver {
    pub model: Model,
    pub parser: InputParser,
    pub stage: Stage,
}

/// What a `Driver` holds.
#[verifier::ext_equal]
pub struct DriverView {
    pub model: ModelView,
    pub parser: ParserState,
    pub stage: StageView,
}

impl DeepView for Driver {
    type V = DriverView;

    open spec fn deep_view(&self) -> DriverView {
        DriverView {
            model: self.model.deep_view(),
            parser: self.parser@,
            stage: self.stage.deep_view(),
        }
    }
}

impl DriverView {
    pub open spec fn wf(self) -> bool {
        &&& self.model.wf()
        &&& self.stage matches StageView::Performing { task, .. } ==> task.wf()
    }

    pub open spec fn at(self, position: Position) -> DriverView {
        DriverView { model: position.0, stage: position.1, ..self }
    }

    /// The loop after `report`.
    pub open spec fn advanced(self, report: ReportView) -> DriverView {
        let m = self.model;
        match (self.stage, report) {
            // Subscribed before the first list, so that a change that lands
            // during the list call still wakes the loop.
            (StageView::Subscribing { first }, ReportView::Subscribed(ok)) => self.at(
                (
                    ModelView { events_active: ok, ..m },
                    if first {
                        StageView::Performing {
                            task: TaskView::List { daemonize: false },
                            then: ThenView::Draw,
                        }
                    } else {
                        StageView::Drawing
                    },
                ),
            ),
            (StageView::Performing { task, then }, ReportView::Replied(reply)) => self.at(
                performing(executor::resumed(m, task, reply), then),
            ),
            (StageView::Drawing, ReportView::Drawn) => self.at(
                (
                    m,
                    if m.quit {
                        StageView::Stopped
                    } else {
                        StageView::Waiting
                    },
                ),
            ),
            // Events come first, so that a refresh they trigger is in place
            // before a keystroke from the same wake.
            (StageView::Waiting, ReportView::Woken { stdin, events }) => self.at(
                if events && m.events_active {
                    (m, StageView::Draining { stdin })
                } else {
                    after_events(m, stdin)
                },
            ),
            (StageView::Waiting, ReportView::Interrupted) => self.at((m, StageView::Drawing)),
            (StageView::Draining { stdin }, ReportView::Drained(Drain::Activity)) => self.at(
                performing(
                    executor::cascaded(m, EventView::EventsArrived),
                    ThenView::Input { stdin },
                ),
            ),
            (StageView::Draining { stdin }, ReportView::Drained(Drain::Eof)) => self.at(
                performing(
                    executor::cascaded(
                        ModelView { events_active: false, ..m },
                        EventView::EventsArrived,
                    ),
                    ThenView::Lost { stdin },
                ),
            ),
            (StageView::Reading, ReportView::Read(bytes)) => if bytes.len() == 0 {
                self.at(after_input(ModelView { quit: true, ..m }))
            } else {
                let (state, inputs) = parser::fed(self.parser, bytes);
                DriverView { parser: state, ..self }.at(after_inputs(m, inputs))
            },
            (StageView::Reading, ReportView::Interrupted) => self.at((m, StageView::Drawing)),
            _ => self,
        }
    }
}

fn event_for(input: Input) -> (event: Event)
    ensures
        event.deep_view() == event_of(input),
        event.deep_view().wf(),
{
    match input {
        Input::Key(key) => Event::Key(key),
        Input::FocusGained => Event::FocusGained,
    }
}

fn finish_input(model: &Model) -> (stage: Stage)
    ensures
        (model.deep_view(), stage.deep_view()) == after_input(model.deep_view()),
{
    if !model.events_active && !model.quit {
        Stage::Subscribing { first: false }
    } else {
        Stage::Drawing
    }
}

fn finish_events(stdin: bool) -> (stage: Stage)
    ensures
        forall|m: ModelView| (m, stage.deep_view()) == #[trigger] after_events(m, stdin),
{
    if stdin {
        Stage::Reading
    } else {
        Stage::Drawing
    }
}

fn feed_inputs(model: &mut Model, inputs: Vec<Input>, at: usize) -> (stage: Stage)
    requires
        old(model).deep_view().wf(),
        at <= inputs@.len(),
    ensures
        (final(model).deep_view(), stage.deep_view()) == after_inputs(
            old(model).deep_view(),
            inputs@.skip(at as int),
        ),
        final(model).deep_view().wf(),
        stage matches Stage::Performing { task, .. } ==> task.deep_view().wf(),
{
    let n: usize = inputs.len();
    let mut next: usize = at;
    let ghost goal = after_inputs(model.deep_view(), inputs@.skip(at as int));
    while next < n && !model.quit
        invariant
            n == inputs@.len(),
            at <= next <= n,
            model.deep_view().wf(),
            after_inputs(model.deep_view(), inputs@.skip(next as int)) == goal,
            goal == after_inputs(old(model).deep_view(), inputs@.skip(at as int)),
        decreases n - next,
    {
        let input = inputs[next];
        proof {
            assert(inputs@.skip(next as int).drop_first() =~= inputs@.skip(next + 1));
            assert(inputs@.skip(next as int)[0] == input);
        }
        next = next + 1;
        if let Some(task) = run_cascade(model, event_for(input)) {
            return Stage::Performing { task, then: Then::Inputs { inputs, at: next } };
        }
    }
    finish_input(model)
}

fn settle(model: &mut Model, then: Then) -> (stage: Stage)
    requires
        old(model).deep_view().wf(),
    ensures
        (final(model).deep_view(), stage.deep_view()) == settled(
            old(model).deep_view(),
            then.deep_view(),
        ),
        final(model).deep_view().wf(),
        stage matches Stage::Performing { task, .. } ==> task.deep_view().wf(),
{
    match then {
        Then::Draw => Stage::Drawing,
        Then::Input { stdin } => finish_events(stdin),
        Then::Lost { stdin } => {
            if model.error.is_none() {
                model.set_error(EVENTS_LOST);
            }
            finish_events(stdin)
        },
        Then::Inputs { inputs, at } => if at <= inputs.len() {
            feed_inputs(model, inputs, at)
        } else {
            finish_input(model)
        },
    }
}

fn perform(model: &mut Model, task: Option<Task>, then: Then) -> (stage: Stage)
    requires
        old(model).deep_view().wf(),
        task matches Some(t) ==> t.deep_view().wf(),
    ensures
        (final(model).deep_view(), stage.deep_view()) == performing(
            (old(model).deep_view(), task.deep_view()),
            then.deep_view(),
        ),
        final(model).deep_view().wf(),
        stage matches Stage::Performing { task, .. } ==> task.deep_view().wf(),
{
    match task {
        Some(task) => Stage::Performing { task, then },
        None => settle(model, then),
    }
}

impl Driver {
    /// The loop at its start: nothing listed yet, and nothing subscribed to.
    pub fn new() -> (driver: Driver)
        ensures
            driver.deep_view() == (DriverView {
                model: ModelView {
                    sessions: Seq::empty(),
                    selection: SelectionView::Nothing,
                    mode: ModeView::Normal,
                    error: None,
                    quit: false,
                    events_active: false,
                },
                parser: ParserState::Normal,
                stage: StageView::Subscribing { first: true },
            }),
            driver.deep_view().wf(),
    {
        Driver {
            model: Model::new(Vec::new()),
            parser: InputParser::new(),
            stage: Stage::Subscribing { first: true },
        }
    }

    /// Takes in what came of the current stage, and goes on to the next.
    pub fn advance(&mut self, report: Report)
        requires
            old(self).deep_view().wf(),
            reports(report.deep_view(), old(self).deep_view().stage),
        ensures
            final(self).deep_view() == old(self).deep_view().advanced(report.deep_view()),
            match (old(self).deep_view().stage, report.deep_view()) {
                (StageView::Performing { task, .. }, ReportView::Replied(reply)) =>
                    executor::output_read_as_utf8(task, reply),
                _ => true,
            },
            final(self).deep_view().wf(),
    {
        let mut stage = Stage::Stopped;
        std::mem::swap(&mut stage, &mut self.stage);
        self.stage = match (stage, report) {
            (Stage::Subscribing { first }, Report::Subscribed(ok)) => {
                self.model.events_active = ok;
                if first {
                    Stage::Performing { task: Task::List { daemonize: false }, then: Then::Draw }
                } else {
                    Stage::Drawing
                }
            },
            (Stage::Performing { task, then }, Report::Replied(reply)) => {
                let next = resume(&mut self.model, task, reply);
                perform(&mut self.model, next, then)
            },
            (Stage::Drawing, Report::Drawn) => {
                // Checked after the draw, not before: that keeps the model's
                // visible state aligned with the last drawn frame.
                if self.model.quit {
                    Stage::Stopped
                } else {
                    Stage::Waiting
                }
            },
            (Stage::Waiting, Report::Woken { stdin, events }) => {
                if events && self.model.events_active {
                    Stage::Draining { stdin }
                } else {
                    finish_events(stdin)
                }
            },
            (Stage::Draining { stdin }, Report::Drained(drain)) => {
                let then = match drain {
                    Drain::Activity => Then::Input { stdin },
                    Drain::Eof => {
                        self.model.events_active = false;
                        Then::Lost { stdin }
                    },
                };
                let task = run_cascade(&mut self.model, Event::EventsArrived);
                perform(&mut self.model, task, then)
            },
            (Stage::Reading, Report::Read(bytes)) => {
                if bytes.len() == 0 {
                    // The end of standard input: stop cleanly.
                    self.model.quit = true;
                    finish_input(&self.model)
                } else {
                    // A single read can decode to multiple inputs (pastes,
                    // CSI sequences, keys typed fast, a focus report next to
                    // a keystroke).
                    let mut inputs: Vec<Input> = Vec::new();
                    self.parser.feed(bytes.as_slice(), &mut inputs);
                    assert(inputs@.skip(0) =~= parser::fed(
                        old(self).deep_view().parser,
                        bytes@,
                    ).1);
                    feed_inputs(&mut self.model, inputs, 0)
                }
            },
            // A signal (the window was resized): draw again.
            _ => Stage::Drawing,
        };
    }
}

// -- What the loop keeps --

/// Only what the user does leads to a new subscription: never an event, the
/// end of a subscription, or a wait that timed out. So a subscription that
/// ends at once is not made over and over.
pub proof fn only_input_subscribes_again(d: DriverView, report: ReportView)
    requires
        reports(report, d.stage),
        d.advanced(report).stage is Subscribing,
    ensures
        d.stage is Reading || (d.stage matches StageView::Performing { then, .. } && then is Inputs),
        d.advanced(report).stage == (StageView::Subscribing { first: false }),
        !d.advanced(report).model.events_active,
        !d.advanced(report).model.quit,
{
    match (d.stage, report) {
        (StageView::Performing { task, then }, ReportView::Replied(reply)) => {
            let (m, next) = executor::resumed(d.model, task, reply);
            if let ThenView::Inputs(inputs) = then {
                inputs_do_not_stop(m, inputs);
            }
        },
        (StageView::Reading, ReportView::Read(bytes)) => {
            inputs_do_not_stop(d.model, parser::fed(d.parser, bytes).1);
        },
        _ => {},
    }
}

/// The program stops only after a draw, and then exactly if it was asked to.
pub proof fn stops_when_asked(d: DriverView, report: ReportView)
    requires
        reports(report, d.stage),
    ensures
        d.advanced(report).stage is Stopped <==> d.stage is Drawing && d.model.quit,
{
    match (d.stage, report) {
        (StageView::Performing { task, then }, ReportView::Replied(reply)) => {
            let (m, next) = executor::resumed(d.model, task, reply);
            if let ThenView::Inputs(inputs) = then {
                inputs_do_not_stop(m, inputs);
            }
        },
        (StageView::Reading, ReportView::Read(bytes)) => {
            inputs_do_not_stop(d.model, parser::fed(d.parser, bytes).1);
        },
        _ => {},
    }
}

proof fn inputs_do_not_stop(m: ModelView, inputs: Seq<Input>)
    ensures
        after_inputs(m, inputs).1 !is Stopped,
        after_inputs(m, inputs).1 matches StageView::Subscribing { first } ==> !first
            && !after_inputs(m, inputs).0.events_active && !after_inputs(m, inputs).0.quit,
    decreases inputs.len(),
{
    if !m.quit && inputs.len() > 0 {
        inputs_do_not_stop(
            executor::cascaded(m, event_of(inputs[0])).0,
            inputs.drop_first(),
        );
    }
}

/// When events and input are ready at once, the events are read first, and
/// the input only once the refresh that they trigger is in place.
pub proof fn events_come_before_input(d: DriverView, stdin: bool, drain: Drain)
    requires
        d.stage is Waiting,
        d.model.events_active,
    ensures
        d.advanced(ReportView::Woken { stdin, events: true }).stage == (StageView::Draining {
            stdin,
        }),
        d.advanced(ReportView::Woken { stdin, events: true }).advanced(
            ReportView::Drained(drain),
        ).stage matches StageView::Performing { task, then } && task == (TaskView::List {
            daemonize: false,
        }) && then == (match drain {
            Drain::Activity => ThenView::Input { stdin },
            Drain::Eof => ThenView::Lost { stdin },
        }),
{
}

/// The end of a subscription never goes unsaid: once the list has caught up,
/// the footer holds the notice or a more specific error.
pub proof fn lost_events_are_said(m: ModelView, stdin: bool)
    ensures
        settled(m, ThenView::Lost { stdin }).0.error is Some,
        m.error is None ==> settled(m, ThenView::Lost { stdin }).0.error == Some(EVENTS_LOST@),
        m.error is Some ==> settled(m, ThenView::Lost { stdin }).0 == m,
{
}

/// A wait that times out only draws again.
pub proof fn timeouts_only_redraw(d: DriverView)
    requires
        d.stage is Waiting,
    ensures
        d.advanced(ReportView::Woken { stdin: false, events: false }) == (DriverView {
            stage: StageView::Drawing,
            ..d
        }),
{
}

/// The end of standard input stops the program, with nothing left to do.
pub proof fn end_of_input_quits(d: DriverView)
    requires
        d.stage is Reading,
    ensures
        d.advanced(ReportView::Read(Seq::empty())).model.quit,
        d.advanced(ReportView::Read(Seq::empty())).stage is Drawing,
        d.advanced(ReportView::Read(Seq::empty())).advanced(ReportView::Drawn).stage is Stopped,
{
}

/// The flag for a live subscription comes on only when one was made, and
/// follows every attempt to make one.
pub proof fn flag_follows_subscribing(d: DriverView, report: ReportView)
    requires
        reports(report, d.stage),
    ensures
        d.advanced(report).model.events_active ==> d.model.events_active || report
            == ReportView::Subscribed(true),
        report matches ReportView::Subscribed(ok) ==> d.advanced(report).model.events_active == ok,
{
    flag_steps_with_subscription(d, report);
}

/// Whether a subscription is held after `report` has led to `stage`, given
/// whether one was `held` before. An attempt to subscribe decides it; the end
/// of the stream ends it; and it is given up when the terminal is handed to
/// an attached session.
pub open spec fn holds_subscription(held: bool, report: ReportView, stage: StageView) -> bool {
    match report {
        ReportView::Subscribed(ok) => ok,
        ReportView::Drained(Drain::Eof) => false,
        _ => held && !(stage matches StageView::Performing { task, .. } && task is Attach),
    }
}

proof fn cascades_drop_for_attach(m: ModelView, event: EventView)
    ensures
        ({
            let (after, task) = executor::cascaded(m, event);
            after.events_active == (m.events_active && !(task matches Some(t) && t is Attach))
        }),
{
    crate::tui::laws::updates_leave_the_loop_alone(m, event);
}

proof fn replies_drop_for_attach(m: ModelView, task: TaskView, reply: ReplyView)
    requires
        executor::answers(reply, task),
    ensures
        ({
            let (after, next) = executor::resumed(m, task, reply);
            after.events_active == (m.events_active && !(next matches Some(t) && t is Attach))
        }),
{
    let (after, next) = executor::followed(m, task, reply);
    if let executor::Next::Event(event) = next {
        cascades_drop_for_attach(after, event);
    }
}

proof fn inputs_drop_for_attach(m: ModelView, inputs: Seq<Input>)
    ensures
        ({
            let (after, stage) = after_inputs(m, inputs);
            after.events_active == (m.events_active && !(stage matches StageView::Performing {
                task,
                ..
            } && task is Attach))
        }),
    decreases inputs.len(),
{
    if !m.quit && inputs.len() > 0 {
        cascades_drop_for_attach(m, event_of(inputs[0]));
        inputs_drop_for_attach(
            executor::cascaded(m, event_of(inputs[0])).0,
            inputs.drop_first(),
        );
    }
}

proof fn flag_steps_with_subscription(d: DriverView, report: ReportView)
    requires
        reports(report, d.stage),
    ensures
        d.advanced(report).model.events_active == holds_subscription(
            d.model.events_active,
            report,
            d.advanced(report).stage,
        ),
{
    match (d.stage, report) {
        (StageView::Performing { task, then }, ReportView::Replied(reply)) => {
            replies_drop_for_attach(d.model, task, reply);
            if let ThenView::Inputs(inputs) = then {
                inputs_drop_for_attach(executor::resumed(d.model, task, reply).0, inputs);
            }
        },
        (StageView::Reading, ReportView::Read(bytes)) => {
            inputs_drop_for_attach(d.model, parser::fed(d.parser, bytes).1);
        },
        _ => {},
    }
}

/// The loop after `history`, one report after the other.
pub open spec fn after_all(d: DriverView, history: Seq<ReportView>) -> DriverView
    decreases history.len(),
{
    if history.len() == 0 {
        d
    } else {
        after_all(d, history.drop_last()).advanced(history.last())
    }
}

/// Each report of `history` is the kind that the loop has asked for.
pub open spec fn all_reported(d: DriverView, history: Seq<ReportView>) -> bool
    decreases history.len(),
{
    history.len() == 0 || (all_reported(d, history.drop_last()) && reports(
        history.last(),
        after_all(d, history.drop_last()).stage,
    ))
}

/// Whether a subscription is held after `history`; none is at the start.
pub open spec fn holds_after_all(d: DriverView, history: Seq<ReportView>) -> bool
    decreases history.len(),
{
    history.len() > 0 && holds_subscription(
        holds_after_all(d, history.drop_last()),
        history.last(),
        after_all(d, history).stage,
    )
}

/// At every point of the loop, and so at every frame that is drawn, the
/// model's flag says whether a subscription is held: also after an attach or
/// a new session gave it up, after its stream ended, and after an attempt to
/// make it again failed.
pub proof fn flag_mirrors_subscription(d: DriverView, history: Seq<ReportView>)
    requires
        !d.model.events_active,
        all_reported(d, history),
    ensures
        after_all(d, history).model.events_active == holds_after_all(d, history),
    decreases history.len(),
{
    if history.len() > 0 {
        flag_mirrors_subscription(d, history.drop_last());
        flag_steps_with_subscription(after_all(d, history.drop_last()), history.last());
    }
}

// -- From stage to stage --

/// The loop begins with a subscription and then a first list, whether or not
/// there is a subscription, and draws what came of it. A subscription that is
/// made again only leads to a new frame.
pub proof fn loop_begins_with_a_list(d: DriverView, first: bool, ok: bool)
    requires
        d.stage == (StageView::Subscribing { first }),
    ensures
        ({
            let next = d.advanced(ReportView::Subscribed(ok));
            &&& next.model == (ModelView { events_active: ok, ..d.model })
            &&& next.parser == d.parser
            &&& first ==> next.stage == (StageView::Performing {
                task: TaskView::List { daemonize: false },
                then: ThenView::Draw,
            })
            &&& !first ==> next.stage is Drawing
        }),
{
}

/// Once a frame is drawn, the loop waits, or stops if it was asked to.
pub proof fn frames_are_followed_by_waiting(d: DriverView)
    requires
        d.stage is Drawing,
    ensures
        ({
            let next = d.advanced(ReportView::Drawn);
            &&& next.model == d.model && next.parser == d.parser
            &&& d.model.quit ==> next.stage is Stopped
            &&& !d.model.quit ==> next.stage is Waiting
        }),
{
}

/// What wakes the loop is read: the subscription first, if there is one and it
/// has something, then the input; with neither, or after an interruption, the
/// loop draws again. Nothing of the model changes by waking.
pub proof fn wake_ups_are_read(d: DriverView, stdin: bool, events: bool)
    requires
        d.stage is Waiting,
    ensures
        ({
            let next = d.advanced(ReportView::Woken { stdin, events });
            &&& next.model == d.model && next.parser == d.parser
            &&& events && d.model.events_active ==> next.stage == (StageView::Draining { stdin })
            &&& !(events && d.model.events_active) && stdin ==> next.stage is Reading
            &&& !(events && d.model.events_active) && !stdin ==> next.stage is Drawing
        }),
        d.advanced(ReportView::Interrupted) == (DriverView { stage: StageView::Drawing, ..d }),
{
}

/// An interrupted read is a new frame, and nothing else.
pub proof fn interrupted_reads_redraw(d: DriverView)
    requires
        d.stage is Reading,
    ensures
        d.advanced(ReportView::Interrupted) == (DriverView { stage: StageView::Drawing, ..d }),
{
}

/// A task's reply goes to the model. If another task comes of it, that one is
/// next, and what was to follow still is; if none does, what was to follow is
/// done.
pub proof fn replies_go_to_the_model(
    d: DriverView,
    task: TaskView,
    then: ThenView,
    reply: ReplyView,
)
    requires
        d.stage == (StageView::Performing { task, then }),
    ensures
        ({
            let next = d.advanced(ReportView::Replied(reply));
            let (m, more) = executor::resumed(d.model, task, reply);
            &&& next.parser == d.parser
            &&& more matches Some(t) ==> next.model == m && next.stage == (StageView::Performing {
                task: t,
                then,
            })
            &&& more is None && then is Draw ==> next.model == m && next.stage is Drawing
            &&& more is None ==> (then matches ThenView::Input { stdin } ==> next.model == m
                && next.stage == if stdin {
                StageView::Reading
            } else {
                StageView::Drawing
            })
            &&& more is None ==> (then matches ThenView::Lost { stdin } ==> next.stage == if stdin {
                StageView::Reading
            } else {
                StageView::Drawing
            })
        }),
{
}

/// That the subscription has ended is said in so many words, unless there is
/// an error to show already.
pub proof fn lost_events_are_said_so(m: ModelView, stdin: bool)
    ensures
        m.error is None ==> settled(m, ThenView::Lost { stdin }).0 == (ModelView {
            error: Some("events unavailable — refreshing on keypress (D to reconnect)"@),
            ..m
        }),
        m.error is Some ==> settled(m, ThenView::Lost { stdin }).0 == m,
{
}

/// Inputs go to the model one at a time, in order: a key as that key, a change
/// of focus as that. If a task comes of one, it is performed before the rest;
/// if none does, the rest follows at once.
pub proof fn inputs_are_taken_in_turn(m: ModelView, input: Input, rest: Seq<Input>)
    requires
        !m.quit,
    ensures
        ({
            let event = match input {
                Input::Key(key) => EventView::Key(key),
                Input::FocusGained => EventView::FocusGained,
            };
            let (after, task) = executor::cascaded(m, event);
            let inputs = seq![input] + rest;
            &&& task matches Some(t) ==> after_inputs(m, inputs) == (
                after,
                (StageView::Performing { task: t, then: ThenView::Inputs(rest) }),
            )
            &&& task is None ==> after_inputs(m, inputs) == after_inputs(after, rest)
        }),
{
    let inputs = seq![input] + rest;
    assert(inputs.drop_first() =~= rest);
    assert(inputs[0] == input);
}

/// Behind the last input, or once the user has quit, the rest of the inputs is
/// dropped, and the loop draws; but if there is no subscription, and it goes
/// on, it tries to make one first.
pub proof fn inputs_end(m: ModelView, inputs: Seq<Input>)
    requires
        m.quit || inputs.len() == 0,
    ensures
        after_inputs(m, inputs) == (
            m,
            if m.events_active || m.quit {
                StageView::Drawing
            } else {
                (StageView::Subscribing { first: false })
            },
        ),
{
}

/// What is read from standard input is decoded where the last read left off,
/// and goes to the model.
pub proof fn reads_are_decoded(d: DriverView, bytes: Seq<u8>)
    requires
        d.stage is Reading,
        bytes.len() > 0,
    ensures
        ({
            let next = d.advanced(ReportView::Read(bytes));
            let (state, inputs) = parser::fed(d.parser, bytes);
            &&& next.parser == state
            &&& (next.model, next.stage) == after_inputs(d.model, inputs)
        }),
{
}

/// One key of input leads to what that key does.
pub proof fn keys_read_are_keys_pressed(d: DriverView, bytes: Seq<u8>, key: crate::tui::keymap::Key)
    requires
        d.stage is Reading,
        bytes.len() > 0,
        !d.model.quit,
        parser::fed(d.parser, bytes).1 == seq![Input::Key(key)],
    ensures
        ({
            let next = d.advanced(ReportView::Read(bytes));
            let (after, cmd) = update::updated(d.model, EventView::Key(key));
            let (m, task) = match cmd {
                Some(c) => executor::executed(after, c),
                None => (after, None),
            };
            &&& next.model == m
            &&& task matches Some(t) ==> next.stage == (StageView::Performing {
                task: t,
                then: ThenView::Inputs(Seq::empty()),
            })
            &&& task is None ==> next.stage is Drawing || next.stage is Subscribing
        }),
{
    let none: Seq<Input> = Seq::empty();
    assert(seq![Input::Key(key)] =~= seq![Input::Key(key)] + none);
    inputs_are_taken_in_turn(d.model, Input::Key(key), none);
}

}
