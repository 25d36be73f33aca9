//! A plain session menu: pick a session to attach to, create one, or kill
//! one. It reads raw input a buffer at a time and hands back the one action
//! that the buffer asks for.

use vstd::prelude::*;

use crate::chrome;
use crate::chrome::{
    confirm_kill_label, create_input_label, error_label, Label, LabelView,
};
use crate::order;
use crate::order::stable_sort;
use crate::session;
use crate::session::{position_of, Session, SessionView};
use crate::table;
use crate::table::render_sessions;
use crate::text;

verus! {

// -- The model --

#[derive(Debug, PartialEq)]
pub enum Mode {
    Normal,
    CreateInput(String),
    ConfirmKill(String),
}

/// What a `Mode` holds.
#[verifier::ext_equal]
pub enum ModeView {
    Normal,
    CreateInput(Seq<char>),
    ConfirmKill(Seq<char>),
}

impl DeepView for Mode {
    type V = ModeView;

    open spec fn deep_view(&self) -> ModeView {
        match self {
            Mode::Normal => ModeView::Normal,
            Mode::CreateInput(name) => ModeView::CreateInput(name@),
            Mode::ConfirmKill(name) => ModeView::ConfirmKill(name@),
        }
    }
}

pub struct Model {
    pub sessions: Vec<Session>,
    pub selected: usize,
    pub mode: Mode,
    /// Transient error message displayed in the bottom bar until the
    /// next keypress. Set by failed shell-outs and pre-flight checks.
    pub error: Option<String>,
}

/// What a `Model` holds.
#[verifier::ext_equal]
pub struct ModelView {
    pub sessions: Seq<SessionView>,
    pub selected: int,
    pub mode: ModeView,
    pub error: Option<Seq<char>>,
}

impl DeepView for Model {
    type V = ModelView;

    open spec fn deep_view(&self) -> ModelView {
        ModelView {
            sessions: self.sessions.deep_view(),
            selected: self.selected as int,
            mode: self.mode.deep_view(),
            error: self.error.deep_view(),
        }
    }
}

impl ModelView {
    /// The cursor is on a row, or at the top of an empty list.
    pub open spec fn wf(self) -> bool {
        self.selected == 0 || 0 < self.selected < self.sessions.len()
    }

    pub open spec fn selecting(self, selected: int) -> ModelView {
        ModelView { selected, ..self }
    }

    pub open spec fn in_mode(self, mode: ModeView) -> ModelView {
        ModelView { mode, ..self }
    }

    /// The cursor one row down, wrapping.
    pub open spec fn after_next(self) -> ModelView {
        if self.sessions.len() == 0 {
            self
        } else {
            self.selecting((self.selected + 1) % (self.sessions.len() as int))
        }
    }

    /// The cursor one row up, wrapping.
    pub open spec fn after_prev(self) -> ModelView {
        if self.sessions.len() == 0 {
            self
        } else if self.selected == 0 {
            self.selecting(self.sessions.len() - 1)
        } else {
            self.selecting(self.selected - 1)
        }
    }

    /// The name of the session under the cursor.
    pub open spec fn selected_name(self) -> Option<Seq<char>> {
        if 0 <= self.selected < self.sessions.len() {
            Some(self.sessions[self.selected].name)
        } else {
            None
        }
    }

    /// The list replaced by `fresh`, most recently active first. The cursor
    /// follows its session by name; if that is gone, it stays on its row, or
    /// goes to the last one.
    pub open spec fn refreshed(self, fresh: Seq<SessionView>) -> ModelView {
        let sessions = order::sorted(fresh, order::ranking::<Session>());
        let kept = match self.selected_name() {
            Some(name) => text::position(session::names(sessions), name),
            None => None,
        };
        let selected = match kept {
            Some(i) => i,
            None => if sessions.len() == 0 {
                0
            } else if self.selected < sessions.len() {
                self.selected
            } else {
                sessions.len() - 1
            },
        };
        ModelView { sessions, selected, ..self }
    }
}

impl Model {
    pub fn new(sessions: Vec<Session>) -> (model: Self)
        ensures
            model.deep_view() == (ModelView {
                sessions: sessions.deep_view(),
                selected: 0,
                mode: ModeView::Normal,
                error: None,
            }),
            model.deep_view().wf(),
    {
        Model { sessions, selected: 0, mode: Mode::Normal, error: None }
    }

    pub fn set_error(&mut self, msg: &str)
        ensures
            final(self).deep_view() == (ModelView { error: Some(msg@), ..old(self).deep_view() }),
    {
        self.error = Some(msg.to_owned());
    }

    pub fn select_next(&mut self)
        requires
            old(self).sessions@.len() == 0 || old(self).selected < usize::MAX,
        ensures
            final(self).deep_view() == old(self).deep_view().after_next(),
            final(self).sessions@.len() == 0 || final(self).selected < usize::MAX,
    {
        let n: usize = self.sessions.len();
        if n == 0 {
            return ;
        }
        self.selected = (self.selected + 1) % n;
    }

    pub fn select_prev(&mut self)
        ensures
            final(self).deep_view() == old(self).deep_view().after_prev(),
            old(self).sessions@.len() == 0 || old(self).selected < usize::MAX
                ==> final(self).sessions@.len() == 0 || final(self).selected < usize::MAX,
    {
        let n: usize = self.sessions.len();
        if n == 0 {
            return ;
        }
        if self.selected == 0 {
            self.selected = n - 1;
        } else {
            self.selected = self.selected - 1;
        }
    }

    pub fn selected_name(&self) -> (name: Option<&str>)
        ensures
            match name {
                Some(n) => self.deep_view().selected_name() == Some(n@),
                None => self.deep_view().selected_name() is None,
            },
    {
        if self.selected < self.sessions.len() {
            Some(self.sessions[self.selected].name.as_str())
        } else {
            None
        }
    }

    /// Replace the session list, preserving the selection by name when
    /// possible and otherwise clamping the previous index into the new
    /// list. Sessions are sorted with the most recently active first,
    /// so whichever session you last touched floats to the top.
    pub fn refresh(&mut self, new_sessions: Vec<Session>)
        ensures
            final(self).deep_view() == old(self).deep_view().refreshed(new_sessions.deep_view()),
            final(self).deep_view().wf(),
    {
        let prev_name: Option<String> = match self.selected_name() {
            Some(name) => Some(name.to_owned()),
            None => None,
        };
        self.sessions = stable_sort(new_sessions);
        let kept: Option<usize> = match &prev_name {
            Some(name) => position_of(&self.sessions, name.as_str()),
            None => None,
        };
        let n: usize = self.sessions.len();
        self.selected = match kept {
            Some(i) => i,
            None => if n == 0 {
                0
            } else if self.selected < n {
                self.selected
            } else {
                n - 1
            },
        };
    }
}

// -- Key binding tables --
//
// This table is the single source of truth for both the key dispatch and the
// footer text rendered in each mode. Each Binding is one footer row (label +
// description) plus a list of (trigger, key) mappings. A single binding can
// fan out to multiple keys.

#[derive(Debug, PartialEq, Eq, Clone, Copy, Structural)]
pub enum Key {
    Up,
    Down,
    Enter,
    Quit,
    NewSession,
    KillSession,
    Other,
}

#[derive(Debug, PartialEq, Eq, Clone, Copy, Structural)]
pub enum Trigger {
    /// A single byte matched in the parser's Normal state.
    Byte(u8),
    /// An ESC [ <byte> sequence (e.g., arrow keys).
    EscBracket(u8),
}

pub struct Binding {
    pub label: &'static str,
    pub description: &'static str,
    pub mappings: Vec<(Trigger, Key)>,
}

/// What a `Binding` holds.
#[verifier::ext_equal]
pub struct BindingView {
    pub label: Seq<char>,
    pub description: Seq<char>,
    pub mappings: Seq<(Trigger, Key)>,
}

impl DeepView for Binding {
    type V = BindingView;

    open spec fn deep_view(&self) -> BindingView {
        BindingView {
            label: self.label@,
            description: self.description@,
            mappings: self.mappings@,
        }
    }
}

/// The bindings of normal mode, in footer order.
pub open spec fn binding_table() -> Seq<BindingView> {
    seq![
        BindingView {
            label: "j"@,
            description: "down"@,
            mappings: seq![
                (Trigger::EscBracket('B' as u8), Key::Down),
                (Trigger::Byte('j' as u8), Key::Down),
            ],
        },
        BindingView {
            label: "k"@,
            description: "up"@,
            mappings: seq![
                (Trigger::EscBracket('A' as u8), Key::Up),
                (Trigger::Byte('k' as u8), Key::Up),
            ],
        },
        BindingView {
            label: "spc"@,
            description: "attach"@,
            mappings: seq![
                (Trigger::Byte(' ' as u8), Key::Enter),
                (Trigger::Byte(0x0d), Key::Enter),
                (Trigger::Byte(0x0a), Key::Enter),
            ],
        },
        BindingView {
            label: "n"@,
            description: "new"@,
            mappings: seq![(Trigger::Byte('n' as u8), Key::NewSession)],
        },
        BindingView {
            label: "d"@,
            description: "kill"@,
            mappings: seq![(Trigger::Byte('d' as u8), Key::KillSession)],
        },
        BindingView {
            label: "q"@,
            description: "quit"@,
            mappings: seq![
                (Trigger::Byte('q' as u8), Key::Quit),
                (Trigger::Byte(0x03), Key::Quit),
            ],
        },
    ]
}

fn binding(
    label: &'static str,
    description: &'static str,
    mappings: Vec<(Trigger, Key)>,
) -> (b: Binding)
    ensures
        b.deep_view() == (BindingView {
            label: label@,
            description: description@,
            mappings: mappings@,
        }),
{
    Binding { label, description, mappings }
}

/// The bindings of normal mode, in footer order.
pub fn normal_bindings() -> (bindings: Vec<Binding>)
    ensures
        bindings.deep_view() == binding_table(),
{
    let bindings = vec![
        binding(
            "j",
            "down",
            vec![
                (Trigger::EscBracket('B' as u8), Key::Down),
                (Trigger::Byte('j' as u8), Key::Down),
            ],
        ),
        binding(
            "k",
            "up",
            vec![
                (Trigger::EscBracket('A' as u8), Key::Up),
                (Trigger::Byte('k' as u8), Key::Up),
            ],
        ),
        binding(
            "spc",
            "attach",
            vec![
                (Trigger::Byte(' ' as u8), Key::Enter),
                (Trigger::Byte(0x0d), Key::Enter),
                (Trigger::Byte(0x0a), Key::Enter),
            ],
        ),
        binding("n", "new", vec![(Trigger::Byte('n' as u8), Key::NewSession)]),
        binding("d", "kill", vec![(Trigger::Byte('d' as u8), Key::KillSession)]),
        binding(
            "q",
            "quit",
            vec![(Trigger::Byte('q' as u8), Key::Quit), (Trigger::Byte(0x03), Key::Quit)],
        ),
    ];
    assert(bindings.deep_view() =~~= binding_table());
    bindings
}

/// Footer hints for create mode. The actual byte handling lives in
/// `process_create_input`; these just keep the display in sync.
pub fn create_hints() -> (hints: Vec<(&'static str, &'static str)>)
    ensures
        hints.deep_view() == seq![("ret"@, "create"@), ("esc"@, "cancel"@)],
{
    let hints = vec![("ret", "create"), ("esc", "cancel")];
    assert(hints.deep_view() =~= seq![("ret"@, "create"@), ("esc"@, "cancel"@)]);
    hints
}

/// Footer hints for the kill prompt.
pub fn confirm_kill_hints() -> (hints: Vec<(&'static str, &'static str)>)
    ensures
        hints.deep_view() == seq![("y"@, "confirm"@), ("n"@, "cancel"@)],
{
    let hints = vec![("y", "confirm"), ("n", "cancel")];
    assert(hints.deep_view() =~= seq![("y"@, "confirm"@), ("n"@, "cancel"@)]);
    hints
}

/// The mappings of all `bindings`, one after the other.
pub open spec fn mappings_of(bindings: Seq<BindingView>) -> Seq<(Trigger, Key)>
    decreases bindings.len(),
{
    if bindings.len() == 0 {
        Seq::empty()
    } else {
        mappings_of(bindings.drop_last()) + bindings.last().mappings
    }
}

/// The key of the last of `mappings` that `trigger` fires.
pub open spec fn mapped(mappings: Seq<(Trigger, Key)>, trigger: Trigger) -> Option<Key>
    decreases mappings.len(),
{
    if mappings.len() == 0 {
        None
    } else if mappings.last().0 == trigger {
        Some(mappings.last().1)
    } else {
        mapped(mappings.drop_last(), trigger)
    }
}

/// The key that `trigger` fires in normal mode.
pub open spec fn bound(trigger: Trigger) -> Option<Key> {
    mapped(mappings_of(binding_table()), trigger)
}

fn bound_key(trigger: Trigger) -> (key: Option<Key>)
    ensures
        key == bound(trigger),
{
    let bindings = normal_bindings();
    let ghost all = bindings.deep_view();
    let mut key: Option<Key> = None;
    assert(all.take(0) =~= Seq::empty());
    for i in 0..bindings.len()
        invariant
            all == bindings.deep_view(),
            key == mapped(mappings_of(all.take(i as int)), trigger),
    {
        let ghost before = mappings_of(all.take(i as int));
        let mappings = &bindings[i].mappings;
        proof {
            assert(all.take(i + 1).drop_last() =~= all.take(i as int));
            assert(all[i as int].mappings == mappings@);
            assert(before + mappings@.take(0) =~= before);
        }
        for k in 0..mappings.len()
            invariant
                key == mapped(before + mappings@.take(k as int), trigger),
        {
            proof {
                let so_far = before + mappings@.take(k as int);
                assert(before + mappings@.take(k + 1) =~= so_far.push(mappings@[k as int]));
                assert(so_far.push(mappings@[k as int]).drop_last() =~= so_far);
            }
            if mappings[k].0 == trigger {
                key = Some(mappings[k].1);
            }
        }
        assert(mappings@.take(mappings@.len() as int) =~= mappings@);
    }
    assert(all.take(all.len() as int) =~= all);
    key
}

/// The key that a plain byte fires.
pub fn byte_key(b: u8) -> (key: Option<Key>)
    ensures
        key == bound(Trigger::Byte(b)),
{
    bound_key(Trigger::Byte(b))
}

/// The key that the final byte of a CSI sequence fires.
pub fn csi_key(b: u8) -> (key: Option<Key>)
    ensures
        key == bound(Trigger::EscBracket(b)),
{
    bound_key(Trigger::EscBracket(b))
}

// -- Input parser --
//
// One state machine turns a raw byte stream into a token stream; each mode
// handler interprets the tokens on its own terms.

#[derive(Debug, PartialEq, Eq, Clone, Copy, Structural)]
pub enum Token {
    /// A regular byte.
    Byte(u8),
    /// A terminated CSI sequence (`ESC [ ... <final>`): only its final byte,
    /// which is all that the bindings care about.
    Csi(u8),
    /// An unterminated ESC at the buffer boundary. A terminal emits full CSI
    /// sequences as one write, so a lone ESC at end-of-buffer is reliably a
    /// bare Escape keypress.
    BareEsc,
}

/// How far into an escape sequence the parser is.
#[derive(Clone, Copy, PartialEq, Eq, Structural)]
pub enum ParserState {
    Normal,
    Esc,
    EscBracket,
}

pub struct InputParser {
    state: ParserState,
}

impl View for InputParser {
    type V = ParserState;

    closed spec fn view(&self) -> ParserState {
        self.state
    }
}

impl Default for InputParser {
    /// A parser between two keys.
    fn default() -> (p: Self)
        ensures
            p@ == ParserState::Normal,
    {
        InputParser { state: ParserState::Normal }
    }
}

/// A byte that ends a CSI sequence.
pub open spec fn is_csi_final(b: u8) -> bool {
    0x40 <= b <= 0x7e
}

/// One byte: the state it leads to and the tokens it emits.
pub open spec fn step(state: ParserState, b: u8) -> (ParserState, Seq<Token>) {
    match state {
        ParserState::Normal => if b == 0x1b {
            (ParserState::Esc, Seq::empty())
        } else {
            (ParserState::Normal, seq![Token::Byte(b)])
        },
        ParserState::Esc => if b == '[' as u8 {
            (ParserState::EscBracket, Seq::empty())
        } else {
            (ParserState::Normal, seq![Token::BareEsc, Token::Byte(b)])
        },
        ParserState::EscBracket => if is_csi_final(b) {
            (ParserState::Normal, seq![Token::Csi(b)])
        } else {
            (ParserState::EscBracket, Seq::empty())
        },
    }
}

/// The bytes one after the other.
pub open spec fn run(state: ParserState, bytes: Seq<u8>) -> (ParserState, Seq<Token>)
    decreases bytes.len(),
{
    if bytes.len() == 0 {
        (state, Seq::empty())
    } else {
        let (mid, tokens) = run(state, bytes.drop_last());
        let (end, more) = step(mid, bytes.last());
        (end, tokens + more)
    }
}

/// A whole buffer: an ESC left over at its end is a bare Escape keypress.
pub open spec fn fed(state: ParserState, bytes: Seq<u8>) -> (ParserState, Seq<Token>) {
    let (end, tokens) = run(state, bytes);
    if end == ParserState::Esc {
        (ParserState::Normal, tokens.push(Token::BareEsc))
    } else {
        (end, tokens)
    }
}

impl InputParser {
    pub fn new() -> (p: Self)
        ensures
            p@ == ParserState::Normal,
    {
        Self::default()
    }

    /// Consume `bytes`, pushing tokens onto `out`. Parser state persists
    /// across calls so a CSI sequence split across reads (rare but
    /// possible) still parses correctly.
    pub fn feed(&mut self, bytes: &[u8], out: &mut Vec<Token>)
        ensures
            final(self)@ == fed(old(self)@, bytes@).0,
            final(out)@ == old(out)@ + fed(old(self)@, bytes@).1,
    {
        let ghost start = self.state;
        let ghost before = out@;
        assert(bytes@.take(0) =~= Seq::empty());
        assert(before + run(start, bytes@.take(0)).1 =~= before);
        for i in 0..bytes.len()
            invariant
                self.state == run(start, bytes@.take(i as int)).0,
                out@ == before + run(start, bytes@.take(i as int)).1,
        {
            let b: u8 = bytes[i];
            let ghost so_far = out@;
            let ghost state = self.state;
            assert(bytes@.take(i + 1).drop_last() =~= bytes@.take(i as int));
            match self.state {
                ParserState::Normal => {
                    if b == 0x1b {
                        self.state = ParserState::Esc;
                    } else {
                        out.push(Token::Byte(b));
                    }
                },
                ParserState::Esc => {
                    if b == '[' as u8 {
                        self.state = ParserState::EscBracket;
                    } else {
                        // ESC followed by a non-bracket byte in the same
                        // buffer: treat as bare Escape plus whatever
                        // followed (so ESC+q still fires Quit).
                        out.push(Token::BareEsc);
                        out.push(Token::Byte(b));
                        self.state = ParserState::Normal;
                    }
                },
                ParserState::EscBracket => {
                    // CSI: skip param (0x30..=0x3f) and intermediate
                    // (0x20..=0x2f) bytes until a final byte terminates.
                    if 0x40 <= b && b <= 0x7e {
                        out.push(Token::Csi(b));
                        self.state = ParserState::Normal;
                    }
                },
            }
            assert(out@ =~= so_far + step(state, b).1);
            assert(out@ =~= before + run(start, bytes@.take(i + 1)).1);
        }
        assert(bytes@.take(bytes@.len() as int) =~= bytes@);
        if self.state == ParserState::Esc {
            out.push(Token::BareEsc);
            self.state = ParserState::Normal;
            assert(out@ =~= before + fed(start, bytes@).1);
        }
    }
}

/// A letter `A`-`Z` as its small letter, any other byte as it is.
pub open spec fn lowercase(b: u8) -> u8 {
    if 'A' as u8 <= b <= 'Z' as u8 {
        (b + 32) as u8
    } else {
        b
    }
}

/// What a token means in normal mode.
pub open spec fn key_of(token: Token) -> Key {
    let key = match token {
        Token::Byte(b) => bound(Trigger::Byte(lowercase(b))),
        Token::Csi(b) => bound(Trigger::EscBracket(b)),
        Token::BareEsc => None,
    };
    match key {
        Some(k) => k,
        None => Key::Other,
    }
}

/// Map a token to a normal-mode Key, for the Normal-mode handler.
/// Tokens that don't map to any binding become Key::Other.
pub fn token_to_key(token: Token) -> (key: Key)
    ensures
        key == key_of(token),
{
    let key = match token {
        Token::Byte(b) => {
            let small: u8 = if 'A' as u8 <= b && b <= 'Z' as u8 {
                b + 32
            } else {
                b
            };
            byte_key(small)
        },
        Token::Csi(b) => csi_key(b),
        Token::BareEsc => None,
    };
    match key {
        Some(k) => k,
        None => Key::Other,
    }
}

// -- Input processing --

#[derive(Debug, PartialEq)]
pub enum LoopAction {
    Attach(String),
    /// Create (via `shpool attach <new-name>`) and immediately attach.
    /// Distinct from Attach so the main loop can skip the
    /// session-must-exist pre-flight check.
    Create(String),
    Kill(String),
    Quit,
}

/// What a `LoopAction` holds.
#[verifier::ext_equal]
pub enum ActionView {
    Attach(Seq<char>),
    Create(Seq<char>),
    Kill(Seq<char>),
    Quit,
}

impl DeepView for LoopAction {
    type V = ActionView;

    open spec fn deep_view(&self) -> ActionView {
        match self {
            LoopAction::Attach(name) => ActionView::Attach(name@),
            LoopAction::Create(name) => ActionView::Create(name@),
            LoopAction::Kill(name) => ActionView::Kill(name@),
            LoopAction::Quit => ActionView::Quit,
        }
    }
}

/// What some input leads to: the model after it and the action it asks for.
pub type Outcome = (ModelView, Option<ActionView>);

/// The tokens in normal mode, until one asks for an action or changes the mode.
pub open spec fn in_normal(m: ModelView, tokens: Seq<Token>) -> Outcome
    decreases tokens.len(),
{
    if tokens.len() == 0 {
        (m, None)
    } else {
        let rest = tokens.drop_first();
        match key_of(tokens[0]) {
            Key::Up => in_normal(m.after_prev(), rest),
            Key::Down => in_normal(m.after_next(), rest),
            Key::Enter => match m.selected_name() {
                Some(name) => (m, Some(ActionView::Attach(name))),
                None => in_normal(m, rest),
            },
            Key::NewSession => (m.in_mode(ModeView::CreateInput(Seq::empty())), None),
            Key::KillSession => match m.selected_name() {
                Some(name) => (m.in_mode(ModeView::ConfirmKill(name)), None),
                None => (m, None),
            },
            Key::Quit => (m, Some(ActionView::Quit)),
            Key::Other => in_normal(m, rest),
        }
    }
}

/// The tokens while the name of a new session is typed; `name` is what has
/// been typed so far.
pub open spec fn in_create(m: ModelView, name: Seq<char>, tokens: Seq<Token>) -> Outcome
    decreases tokens.len(),
{
    if tokens.len() == 0 {
        (m.in_mode(ModeView::CreateInput(name)), None)
    } else {
        let rest = tokens.drop_first();
        match tokens[0] {
            Token::BareEsc => (m.in_mode(ModeView::Normal), None),
            Token::Csi(_) => in_create(m, name, rest),
            Token::Byte(b) => if b == 0x03 {
                (m.in_mode(ModeView::Normal), None)
            } else if b == 0x0d || b == 0x0a {
                if name.len() > 0 {
                    (m.in_mode(ModeView::Normal), Some(ActionView::Create(name)))
                } else {
                    in_create(m, name, rest)
                }
            } else if b == 0x7f || b == 0x08 {
                in_create(
                    m,
                    if name.len() > 0 {
                        name.drop_last()
                    } else {
                        name
                    },
                    rest,
                )
            } else if 0x21 <= b <= 0x7e {
                in_create(m, name.push(b as char), rest)
            } else {
                in_create(m, name, rest)
            },
        }
    }
}

/// The tokens at the kill prompt for `name`: only the first counts.
pub open spec fn in_confirm_kill(m: ModelView, name: Seq<char>, tokens: Seq<Token>) -> Outcome {
    if tokens.len() == 0 {
        (m, None)
    } else if tokens[0] == Token::Byte('y' as u8) || tokens[0] == Token::Byte('Y' as u8) {
        (m.in_mode(ModeView::Normal), Some(ActionView::Kill(name)))
    } else {
        (m.in_mode(ModeView::Normal), None)
    }
}

/// A buffer of input: it dismisses a pending error, and its tokens go to the
/// mode that it finds.
pub open spec fn processed(m: ModelView, tokens: Seq<Token>) -> Outcome {
    let seen = ModelView { error: None, ..m };
    match m.mode {
        ModeView::Normal => in_normal(seen, tokens),
        ModeView::CreateInput(name) => in_create(seen, name, tokens),
        ModeView::ConfirmKill(name) => in_confirm_kill(seen, name, tokens),
    }
}

/// Takes a buffer of raw input in, and returns the action it asks for.
pub fn process_input(buf: &[u8], model: &mut Model, parser: &mut InputParser) -> (action: Option<
    LoopAction,
>)
    requires
        old(model).sessions@.len() == 0 || old(model).selected < usize::MAX,
    ensures
        final(parser)@ == fed(old(parser)@, buf@).0,
        (final(model).deep_view(), action.deep_view()) == processed(
            old(model).deep_view(),
            fed(old(parser)@, buf@).1,
        ),
{
    // Any keypress dismisses a pending error — the user has now seen it.
    model.error = None;
    let mut tokens: Vec<Token> = Vec::new();
    parser.feed(buf, &mut tokens);
    assert(tokens@ =~= fed(old(parser)@, buf@).1);
    match &model.mode {
        Mode::Normal => process_normal(&tokens, model),
        Mode::CreateInput(_) => process_create_input(&tokens, model),
        Mode::ConfirmKill(_) => process_confirm_kill(&tokens, model),
    }
}

fn process_normal(tokens: &Vec<Token>, model: &mut Model) -> (action: Option<LoopAction>)
    requires
        old(model).sessions@.len() == 0 || old(model).selected < usize::MAX,
    ensures
        (final(model).deep_view(), action.deep_view()) == in_normal(
            old(model).deep_view(),
            tokens@,
        ),
{
    let ghost goal = in_normal(model.deep_view(), tokens@);
    assert(tokens@.skip(0) =~= tokens@);
    for i in 0..tokens.len()
        invariant
            model.sessions@.len() == 0 || model.selected < usize::MAX,
            in_normal(model.deep_view(), tokens@.skip(i as int)) == goal,
            goal == in_normal(old(model).deep_view(), tokens@),
    {
        assert(tokens@.skip(i as int).drop_first() =~= tokens@.skip(i + 1));
        assert(tokens@.skip(i as int)[0] == tokens@[i as int]);
        match token_to_key(tokens[i]) {
            Key::Up => model.select_prev(),
            Key::Down => model.select_next(),
            Key::Enter => {
                if let Some(name) = model.selected_name() {
                    return Some(LoopAction::Attach(name.to_owned()));
                }
            },
            Key::NewSession => {
                let empty = String::new();
                assert(empty@ =~= Seq::empty());
                model.mode = Mode::CreateInput(empty);
                return None;
            },
            Key::KillSession => {
                let name: Option<String> = match model.selected_name() {
                    Some(name) => Some(name.to_owned()),
                    None => None,
                };
                if let Some(name) = name {
                    model.mode = Mode::ConfirmKill(name);
                }
                return None;
            },
            Key::Quit => {
                return Some(LoopAction::Quit);
            },
            Key::Other => {},
        }
    }
    None
}

fn process_create_input(tokens: &Vec<Token>, model: &mut Model) -> (action: Option<LoopAction>)
    requires
        old(model).mode is CreateInput,
    ensures
        (final(model).deep_view(), action.deep_view()) == in_create(
            old(model).deep_view(),
            old(model).deep_view().mode->CreateInput_0,
            tokens@,
        ),
{
    let ghost start = model.deep_view();
    let ghost goal = in_create(start, start.mode->CreateInput_0, tokens@);
    let mut name = String::new();
    if let Mode::CreateInput(typed) = &model.mode {
        name = typed.clone();
    }
    assert(tokens@.skip(0) =~= tokens@);
    for i in 0..tokens.len()
        invariant
            model.deep_view() == start,
            in_create(start, name@, tokens@.skip(i as int)) == goal,
            start == old(model).deep_view(),
            goal == in_create(start, start.mode->CreateInput_0, tokens@),
    {
        assert(tokens@.skip(i as int).drop_first() =~= tokens@.skip(i + 1));
        assert(tokens@.skip(i as int)[0] == tokens@[i as int]);
        match tokens[i] {
            Token::BareEsc => {
                model.mode = Mode::Normal;
                return None;
            },
            // Arrow keys etc. are ignored in this mode.
            Token::Csi(_) => {},
            Token::Byte(b) => match b {
                0x03 => {
                    model.mode = Mode::Normal;
                    return None;
                },
                0x0d | 0x0a => {
                    if !name.as_str().is_empty() {
                        model.mode = Mode::Normal;
                        return Some(LoopAction::Create(name));
                    }
                },
                0x7f | 0x08 => {
                    let _ = name.pop();
                },
                // Printable non-space ASCII (shpool rejects whitespace in names).
                0x21..=0x7e => {
                    name.push(b as char);
                },
                _ => {},
            },
        }
    }
    model.mode = Mode::CreateInput(name);
    None
}

fn process_confirm_kill(tokens: &Vec<Token>, model: &mut Model) -> (action: Option<LoopAction>)
    requires
        old(model).mode is ConfirmKill,
    ensures
        (final(model).deep_view(), action.deep_view()) == in_confirm_kill(
            old(model).deep_view(),
            old(model).deep_view().mode->ConfirmKill_0,
            tokens@,
        ),
{
    if tokens.len() == 0 {
        return None;
    }
    let yes = match tokens[0] {
        Token::Byte(b) => b == 'y' as u8 || b == 'Y' as u8,
        _ => false,
    };
    let mut action: Option<LoopAction> = None;
    if yes {
        if let Mode::ConfirmKill(name) = &model.mode {
            action = Some(LoopAction::Kill(name.clone()));
        }
    }
    model.mode = Mode::Normal;
    action
}

// -- Rendering --

/// The footer rows of the normal-mode bindings.
pub open spec fn normal_footer() -> Seq<(Seq<char>, Seq<char>)> {
    binding_table().map_values(|b: BindingView| (b.label, b.description))
}

fn normal_bindings_label() -> (label: Label)
    ensures
        label.deep_view() == chrome::blank().bindings(normal_footer()),
{
    let bindings = normal_bindings();
    let mut rows: Vec<(&'static str, &'static str)> = Vec::new();
    let ghost all = normal_footer();
    for i in 0..bindings.len()
        invariant
            all == normal_footer(),
            bindings.deep_view() == binding_table(),
            rows.deep_view() == all.take(i as int),
    {
        let ghost before = rows.deep_view();
        rows.push((bindings[i].label, bindings[i].description));
        proof {
            let b = bindings.deep_view()[i as int];
            assert(b == bindings@[i as int].deep_view());
            assert(all[i as int] == (b.label, b.description));
            assert(rows.deep_view() =~= before.push(all[i as int]));
            assert(all.take(i + 1) =~= all.take(i as int).push(all[i as int]));
        }
    }
    assert(all.take(all.len() as int) =~= all);
    let mut label = Label::new();
    label.push_bindings(&rows);
    label
}

/// The bottom bar: an error, or what the mode has to say.
pub open spec fn bottom_label(m: ModelView) -> LabelView {
    match (m.error, m.mode) {
        (Some(msg), _) => chrome::error(msg),
        (None, ModeView::Normal) => chrome::blank().bindings(normal_footer()),
        (None, ModeView::CreateInput(input)) => chrome::create_input(
            input,
            seq![("ret"@, "create"@), ("esc"@, "cancel"@)],
        ),
        (None, ModeView::ConfirmKill(name)) => chrome::confirm_kill(
            name,
            seq![("y"@, "confirm"@), ("n"@, "cancel"@)],
        ),
    }
}

/// The whole frame at the time `now`.
pub open spec fn frame(m: ModelView, width: int, height: int, now: int) -> Seq<char> {
    table::session_screen(m.sessions, Some(m.selected), bottom_label(m), now, width, height)
}

/// Appends the frame that shows `model` on a terminal of `width` columns and
/// `height` lines. `now_ms` is the wall-clock time, which the relative-age
/// columns count from.
pub fn render(model: &Model, width: u16, height: u16, now_ms: u64, out: &mut String)
    ensures
        final(out)@ == old(out)@ + frame(
            model.deep_view(),
            width as int,
            height as int,
            now_ms as int,
        ),
{
    let bottom = match &model.error {
        Some(msg) => error_label(msg.as_str()),
        None => match &model.mode {
            Mode::Normal => normal_bindings_label(),
            Mode::CreateInput(input) => create_input_label(input.as_str(), &create_hints()),
            Mode::ConfirmKill(name) => confirm_kill_label(name.as_str(), &confirm_kill_hints()),
        },
    };
    render_sessions(out, &model.sessions, Some(model.selected), &bottom, now_ms, width, height);
}

// -- What the menu keeps --

/// What the binding table amounts to, token by token: small and capital
/// letters fire the same key.
pub proof fn keys_by_token(token: Token)
    ensures
        key_of(token) == match token {
            Token::Csi(b) => if b == 'A' as u8 {
                Key::Up
            } else if b == 'B' as u8 {
                Key::Down
            } else {
                Key::Other
            },
            Token::Byte(b) => if b == 'j' as u8 || b == 'J' as u8 {
                Key::Down
            } else if b == 'k' as u8 || b == 'K' as u8 {
                Key::Up
            } else if b == ' ' as u8 || b == 0x0d || b == 0x0a {
                Key::Enter
            } else if b == 'n' as u8 || b == 'N' as u8 {
                Key::NewSession
            } else if b == 'd' as u8 || b == 'D' as u8 {
                Key::KillSession
            } else if b == 'q' as u8 || b == 'Q' as u8 || b == 0x03 {
                Key::Quit
            } else {
                Key::Other
            },
            Token::BareEsc => Key::Other,
        },
{
    let t = binding_table();
    let all = seq![
        (Trigger::EscBracket('B' as u8), Key::Down),
        (Trigger::Byte('j' as u8), Key::Down),
        (Trigger::EscBracket('A' as u8), Key::Up),
        (Trigger::Byte('k' as u8), Key::Up),
        (Trigger::Byte(' ' as u8), Key::Enter),
        (Trigger::Byte(0x0d), Key::Enter),
        (Trigger::Byte(0x0a), Key::Enter),
        (Trigger::Byte('n' as u8), Key::NewSession),
        (Trigger::Byte('d' as u8), Key::KillSession),
        (Trigger::Byte('q' as u8), Key::Quit),
        (Trigger::Byte(0x03), Key::Quit),
    ];
    assert(mappings_of(t) =~= all) by {
        reveal_with_fuel(mappings_of, 7);
        let t5 = t.drop_last();
        let t4 = t5.drop_last();
        let t3 = t4.drop_last();
        let t2 = t3.drop_last();
        let t1 = t2.drop_last();
        assert(t1.drop_last() =~= Seq::empty());
    }
    reveal_with_fuel(mapped, 12);
}

/// The cursor stays on a row, whatever is typed.
pub proof fn input_keeps_cursor_on_a_row(m: ModelView, tokens: Seq<Token>)
    requires
        m.wf(),
    ensures
        processed(m, tokens).0.wf(),
        processed(m, tokens).0.sessions == m.sessions,
{
    let seen = ModelView { error: None, ..m };
    match m.mode {
        ModeView::Normal => {
            normal_keeps_cursor(seen, tokens);
        },
        ModeView::CreateInput(name) => {
            create_keeps_rest(seen, name, tokens);
        },
        ModeView::ConfirmKill(_) => {},
    }
}

proof fn normal_keeps_cursor(m: ModelView, tokens: Seq<Token>)
    requires
        m.wf(),
    ensures
        in_normal(m, tokens).0.wf(),
        in_normal(m, tokens).0.sessions == m.sessions,
        in_normal(m, tokens).0.error == m.error,
        in_normal(m, tokens).1 !is Some || in_normal(m, tokens).1->0 !is Kill,
        in_normal(m, tokens).1 !is Some || in_normal(m, tokens).1->0 !is Create,
    decreases tokens.len(),
{
    if tokens.len() > 0 {
        let rest = tokens.drop_first();
        match key_of(tokens[0]) {
            Key::Up => {
                normal_keeps_cursor(m.after_prev(), rest);
            },
            Key::Down => {
                if m.sessions.len() > 0 {
                    vstd::arithmetic::div_mod::lemma_mod_bound(
                        m.selected + 1,
                        m.sessions.len() as int,
                    );
                }
                normal_keeps_cursor(m.after_next(), rest);
            },
            _ => {
                normal_keeps_cursor(m, rest);
            },
        }
    }
}

/// A character that a session name may hold.
pub open spec fn is_name_char(c: char) -> bool {
    0x21 <= c as int <= 0x7e
}

proof fn create_keeps_rest(m: ModelView, name: Seq<char>, tokens: Seq<Token>)
    ensures
        ({
            let (after, action) = in_create(m, name, tokens);
            &&& after == m.in_mode(after.mode)
            &&& action matches Some(a) ==> a is Create && a->Create_0.len() > 0
            &&& (forall|i: int| 0 <= i < name.len() ==> is_name_char(#[trigger] name[i])) ==> (
            action matches Some(a) ==> forall|i: int|
                0 <= i < a->Create_0.len() ==> is_name_char(#[trigger] a->Create_0[i]))
        }),
    decreases tokens.len(),
{
    if tokens.len() > 0 {
        let rest = tokens.drop_first();
        if let Token::Byte(b) = tokens[0] {
            if b == 0x7f || b == 0x08 {
                let cut = if name.len() > 0 {
                    name.drop_last()
                } else {
                    name
                };
                assert(forall|i: int| 0 <= i < cut.len() ==> cut[i] == name[i]);
                create_keeps_rest(m, cut, rest);
            } else if 0x21 <= b <= 0x7e && b != 0x0d && b != 0x0a && b != 0x03 {
                let more = name.push(b as char);
                assert(is_name_char(b as char));
                assert(forall|i: int| 0 <= i < name.len() ==> more[i] == name[i]);
                assert((forall|i: int| 0 <= i < name.len() ==> is_name_char(#[trigger] name[i]))
                    ==> forall|i: int| 0 <= i < more.len() ==> is_name_char(#[trigger] more[i]));
                create_keeps_rest(m, more, rest);
            } else {
                create_keeps_rest(m, name, rest);
            }
        } else {
            create_keeps_rest(m, name, rest);
        }
    }
}

/// Any input dismisses a pending error.
pub proof fn input_dismisses_error(m: ModelView, tokens: Seq<Token>)
    requires
        m.wf(),
    ensures
        processed(m, tokens).0.error is None,
{
    let seen = ModelView { error: None, ..m };
    match m.mode {
        ModeView::Normal => {
            normal_keeps_cursor(seen, tokens);
        },
        ModeView::CreateInput(name) => {
            create_keeps_rest(seen, name, tokens);
        },
        ModeView::ConfirmKill(_) => {},
    }
}

/// A session is killed only when its kill prompt is answered with yes.
pub proof fn killing_is_confirmed(m: ModelView, tokens: Seq<Token>, name: Seq<char>)
    requires
        m.wf(),
        processed(m, tokens).1 == Some(ActionView::Kill(name)),
    ensures
        m.mode == ModeView::ConfirmKill(name),
        tokens.len() > 0,
        tokens[0] == Token::Byte('y' as u8) || tokens[0] == Token::Byte('Y' as u8),
{
    let seen = ModelView { error: None, ..m };
    match m.mode {
        ModeView::Normal => {
            normal_keeps_cursor(seen, tokens);
        },
        ModeView::CreateInput(typed) => {
            create_keeps_rest(seen, typed, tokens);
        },
        ModeView::ConfirmKill(_) => {},
    }
}

/// A session is created only from create mode and only under a name that is
/// not empty; and a name that is typed there holds no whitespace.
pub proof fn created_names_are_names(m: ModelView, tokens: Seq<Token>, name: Seq<char>)
    requires
        m.wf(),
        processed(m, tokens).1 == Some(ActionView::Create(name)),
    ensures
        m.mode is CreateInput,
        name.len() > 0,
        (forall|i: int|
            0 <= i < m.mode->CreateInput_0.len() ==> is_name_char(
                #[trigger] m.mode->CreateInput_0[i],
            )) ==> forall|i: int| 0 <= i < name.len() ==> is_name_char(#[trigger] name[i]),
{
    let seen = ModelView { error: None, ..m };
    match m.mode {
        ModeView::Normal => {
            normal_keeps_cursor(seen, tokens);
        },
        ModeView::CreateInput(typed) => {
            create_keeps_rest(seen, typed, tokens);
        },
        ModeView::ConfirmKill(_) => {},
    }
}

/// The cursor `k` rows further down, one at a time.
pub open spec fn after_nexts(m: ModelView, k: nat) -> ModelView
    decreases k,
{
    if k == 0 {
        m
    } else {
        after_nexts(m, (k - 1) as nat).after_next()
    }
}

/// The cursor goes round: `k` rows down from row `i` of `n` is row
/// `(i + k) % n`, and nothing else changes.
pub proof fn next_goes_round(m: ModelView, k: nat)
    requires
        m.wf(),
        m.sessions.len() > 0,
    ensures
        after_nexts(m, k) == m.selecting((m.selected + k) % (m.sessions.len() as int)),
    decreases k,
{
    let n = m.sessions.len() as int;
    if k == 0 {
        vstd::arithmetic::div_mod::lemma_small_mod(m.selected as nat, n as nat);
    } else {
        let before = (k - 1) as nat;
        next_goes_round(m, before);
        vstd::arithmetic::div_mod::lemma_add_mod_noop_right(1, m.selected + before, n);
        assert(((m.selected + before) % n + 1) % n == (m.selected + k) % n);
    }
}

/// One row down and one row up undo each other.
pub proof fn next_and_prev_are_inverse(m: ModelView)
    requires
        m.wf(),
    ensures
        m.after_next().after_prev() == m,
        m.after_prev().after_next() == m,
{
    let n = m.sessions.len() as int;
    if n > 0 {
        if m.selected + 1 == n {
            assert((m.selected + 1) % n == 0) by {
                vstd::arithmetic::div_mod::lemma_mod_self_0(n);
            }
        } else {
            vstd::arithmetic::div_mod::lemma_small_mod((m.selected + 1) as nat, n as nat);
        }
        if m.selected == 0 {
            vstd::arithmetic::div_mod::lemma_mod_self_0(n);
        } else {
            vstd::arithmetic::div_mod::lemma_small_mod(m.selected as nat, n as nat);
        }
    }
}

/// A refresh leaves the cursor on the session of the same name wherever that
/// is still listed, and on a row of the list in any case.
pub proof fn refresh_follows_the_name(m: ModelView, fresh: Seq<SessionView>)
    requires
        0 <= m.selected,
    ensures
        m.refreshed(fresh).wf(),
        m.selected_name() matches Some(name) ==> session::names(
            m.refreshed(fresh).sessions,
        ).contains(name) ==> m.refreshed(fresh).selected_name() == Some(name),
{
    if let Some(name) = m.selected_name() {
        text::position_exists(session::names(m.refreshed(fresh).sessions), name);
    }
}

proof fn run_of_concat(state: ParserState, a: Seq<u8>, b: Seq<u8>)
    ensures
        run(state, a + b).0 == run(run(state, a).0, b).0,
        run(state, a + b).1 == run(state, a).1 + run(run(state, a).0, b).1,
    decreases b.len(),
{
    if b.len() == 0 {
        assert(a + b =~= a);
        assert(run(state, a).1 + run(run(state, a).0, b).1 =~= run(state, a).1);
    } else {
        assert((a + b).drop_last() =~= a + b.drop_last());
        run_of_concat(state, a, b.drop_last());
        assert(run(state, a + b).1 =~= run(state, a).1 + run(run(state, a).0, b).1);
    }
}

/// Where a read happens to end makes no difference to the tokens, as long as
/// the first buffer does not end in a lone ESC.
pub proof fn split_reads_tokenize_alike(state: ParserState, a: Seq<u8>, b: Seq<u8>)
    requires
        run(state, a).0 != ParserState::Esc,
    ensures
        fed(state, a + b).0 == fed(fed(state, a).0, b).0,
        fed(state, a + b).1 == fed(state, a).1 + fed(fed(state, a).0, b).1,
{
    run_of_concat(state, a, b);
    assert(fed(state, a + b).1 =~= fed(state, a).1 + fed(fed(state, a).0, b).1);
}

// -- What each key does --

/// The cursor is on a row with session `name`.
pub open spec fn highlights(m: ModelView, name: Seq<char>) -> bool {
    0 <= m.selected < m.sessions.len() && m.sessions[m.selected].name == name
}

/// The byte of `c`.
pub open spec fn types(token: Token, c: char) -> bool {
    token == Token::Byte(c as u8)
}

/// The arrow down, or its letter.
pub open spec fn goes_down(token: Token) -> bool {
    token == Token::Csi('B' as u8) || types(token, 'j') || types(token, 'J')
}

/// The arrow up, or its letter.
pub open spec fn goes_up(token: Token) -> bool {
    token == Token::Csi('A' as u8) || types(token, 'k') || types(token, 'K')
}

/// Space or Enter.
pub open spec fn goes_in(token: Token) -> bool {
    types(token, ' ') || token == Token::Byte(0x0d) || token == Token::Byte(0x0a)
}

/// In the list, the arrows and their letters move the cursor one row, round
/// both ends, and the rest of the input goes on from there.
pub proof fn arrows_move_the_cursor(m: ModelView, token: Token, rest: Seq<Token>)
    requires
        m.mode is Normal,
        m.wf(),
        goes_down(token) || goes_up(token),
    ensures
        ({
            let n = m.sessions.len();
            let row = if n == 0 {
                m.selected
            } else if goes_down(token) {
                if m.selected == n - 1 {
                    0
                } else {
                    m.selected + 1
                }
            } else if m.selected == 0 {
                n - 1
            } else {
                m.selected - 1
            };
            let moved = ModelView { selected: row, error: None, ..m };
            processed(m, seq![token] + rest) == processed(moved, rest)
        }),
{
    let all = seq![token] + rest;
    assert(all.drop_first() =~= rest);
    assert(all[0] == token);
    keys_by_token(token);
    let n = m.sessions.len() as int;
    if n > 0 {
        if m.selected == n - 1 {
            vstd::arithmetic::div_mod::lemma_mod_self_0(n);
        } else {
            vstd::arithmetic::div_mod::lemma_small_mod((m.selected + 1) as nat, n as nat);
        }
    }
}

/// In the list, Space and Enter attach to the session under the cursor; `n`
/// asks for the name of a new one, `d` whether to kill the one under the
/// cursor; `q` and Ctrl-C quit. Each of these, capitals alike, ends the input.
pub proof fn list_keys_act(m: ModelView, token: Token, rest: Seq<Token>)
    requires
        m.mode is Normal,
    ensures
        ({
            let (after, action) = processed(m, seq![token] + rest);
            let same = after.sessions == m.sessions && after.selected == m.selected
                && after.error is None;
            &&& goes_in(token) ==> forall|name: Seq<char>|
                highlights(m, name) ==> same && after.mode is Normal && action == Some(
                    ActionView::Attach(name),
                )
            &&& types(token, 'n') || types(token, 'N') ==> same && action is None && after.mode
                == ModeView::CreateInput(Seq::empty())
            &&& types(token, 'd') || types(token, 'D') ==> same && action is None && (forall|
                name: Seq<char>,
            | highlights(m, name) ==> after.mode == ModeView::ConfirmKill(name)) && ((forall|
                name: Seq<char>,
            | !highlights(m, name)) ==> after.mode is Normal)
            &&& types(token, 'q') || types(token, 'Q') || token == Token::Byte(0x03) ==> same
                && after.mode is Normal && action == Some(ActionView::Quit)
        }),
{
    let all = seq![token] + rest;
    assert(all.drop_first() =~= rest);
    assert(all[0] == token);
    keys_by_token(token);
    if 0 <= m.selected < m.sessions.len() {
        assert(highlights(m, m.sessions[m.selected].name));
    }
}

/// In the list, a key without a meaning is passed over, and so are Space and
/// Enter where there is no session; input that ends leaves the list up.
pub proof fn other_keys_are_passed_over(m: ModelView, token: Token, rest: Seq<Token>)
    requires
        m.mode is Normal,
        !goes_down(token) && !goes_up(token),
        goes_in(token) ==> forall|name: Seq<char>| !highlights(m, name),
        !types(token, 'n') && !types(token, 'N') && !types(token, 'd') && !types(token, 'D'),
        !types(token, 'q') && !types(token, 'Q') && token != Token::Byte(0x03),
    ensures
        processed(m, seq![token] + rest) == processed(m, rest),
        processed(m, Seq::empty()) == (
            (ModelView { error: None, ..m }),
            None::<ActionView>,
        ),
{
    let all = seq![token] + rest;
    assert(all.drop_first() =~= rest);
    assert(all[0] == token);
    keys_by_token(token);
    if 0 <= m.selected < m.sessions.len() {
        assert(highlights(m, m.sessions[m.selected].name));
    }
}

/// A session is attached to only if it was under the cursor in the list.
pub proof fn attaching_needs_a_listed_session(m: ModelView, tokens: Seq<Token>, name: Seq<char>)
    requires
        processed(m, tokens).1 == Some(ActionView::Attach(name)),
    ensures
        m.mode is Normal,
        highlights(processed(m, tokens).0, name),
{
    let seen = ModelView { error: None, ..m };
    match m.mode {
        ModeView::Normal => {
            attaching_in_normal(seen, tokens, name);
        },
        ModeView::CreateInput(typed) => {
            create_keeps_rest(seen, typed, tokens);
        },
        ModeView::ConfirmKill(_) => {},
    }
}

proof fn attaching_in_normal(m: ModelView, tokens: Seq<Token>, name: Seq<char>)
    requires
        in_normal(m, tokens).1 == Some(ActionView::Attach(name)),
    ensures
        highlights(in_normal(m, tokens).0, name),
    decreases tokens.len(),
{
    if tokens.len() > 0 {
        let rest = tokens.drop_first();
        match key_of(tokens[0]) {
            Key::Up => {
                attaching_in_normal(m.after_prev(), rest, name);
            },
            Key::Down => {
                attaching_in_normal(m.after_next(), rest, name);
            },
            Key::Enter => {
                if m.selected_name() is None {
                    attaching_in_normal(m, rest, name);
                }
            },
            Key::Other => {
                attaching_in_normal(m, rest, name);
            },
            _ => {},
        }
    }
}

proof fn typing_forgets_the_mode(
    m: ModelView,
    mode: ModeView,
    name: Seq<char>,
    tokens: Seq<Token>,
)
    ensures
        in_create(m.in_mode(mode), name, tokens) == in_create(m, name, tokens),
    decreases tokens.len(),
{
    if tokens.len() > 0 {
        let rest = tokens.drop_first();
        if let Token::Byte(b) = tokens[0] {
            if b == 0x7f || b == 0x08 {
                let cut = if name.len() > 0 {
                    name.drop_last()
                } else {
                    name
                };
                typing_forgets_the_mode(m, mode, cut, rest);
            } else if 0x21 <= b <= 0x7e {
                typing_forgets_the_mode(m, mode, name.push(b as char), rest);
            } else {
                typing_forgets_the_mode(m, mode, name, rest);
            }
        } else {
            typing_forgets_the_mode(m, mode, name, rest);
        }
    }
}

/// While a name is typed, every printable character but the space goes into
/// it, Backspace takes the last one back, and spaces, other control bytes and
/// arrows are passed over.
#[verifier::rlimit(40)]
pub proof fn names_are_typed(m: ModelView, name: Seq<char>, token: Token, rest: Seq<Token>)
    requires
        m.mode == ModeView::CreateInput(name),
        token != Token::BareEsc && token != Token::Byte(0x03) && token != Token::Byte(0x0d) && token
            != Token::Byte(0x0a),
    ensures
        ({
            let typed = match token {
                Token::Byte(b) => if 0x21 <= b <= 0x7e {
                    name + seq![b as char]
                } else if (b == 0x08 || b == 0x7f) && name.len() > 0 {
                    name.take(name.len() - 1)
                } else {
                    name
                },
                _ => name,
            };
            let next = ModelView { mode: ModeView::CreateInput(typed), ..m };
            processed(m, seq![token] + rest) == processed(next, rest)
        }),
{
    let all = seq![token] + rest;
    assert(all.drop_first() =~= rest);
    assert(all[0] == token);
    let seen = ModelView { error: None, ..m };
    let typed = match token {
        Token::Byte(b) => if 0x21 <= b <= 0x7e {
            name + seq![b as char]
        } else if (b == 0x08 || b == 0x7f) && name.len() > 0 {
            name.take(name.len() - 1)
        } else {
            name
        },
        _ => name,
    };
    if let Token::Byte(b) = token {
        assert(name.push(b as char) =~= name + seq![b as char]);
    }
    if name.len() > 0 {
        assert(name.drop_last() =~= name.take(name.len() - 1));
    }
    assert(in_create(seen, name, all) == in_create(seen, typed, rest));
    typing_forgets_the_mode(seen, ModeView::CreateInput(typed), typed, rest);
    assert(processed(ModelView { mode: ModeView::CreateInput(typed), ..m }, rest) == in_create(
        seen.in_mode(ModeView::CreateInput(typed)),
        typed,
        rest,
    ));
}

/// Enter creates the session under the name as it stands; under no name, it is
/// passed over. Esc and Ctrl-C give the name up.
pub proof fn names_are_entered_or_given_up(m: ModelView, name: Seq<char>, rest: Seq<Token>)
    requires
        m.mode == ModeView::CreateInput(name),
    ensures
        ({
            let normal = ModelView { mode: ModeView::Normal, error: None, ..m };
            let cr = Token::Byte(0x0d);
            let lf = Token::Byte(0x0a);
            &&& name.len() > 0 ==> processed(m, seq![cr] + rest) == (
                normal,
                Some(ActionView::Create(name)),
            ) && processed(m, seq![lf] + rest) == (normal, Some(ActionView::Create(name)))
            &&& name.len() == 0 ==> processed(m, seq![cr] + rest) == processed(m, rest)
                && processed(m, seq![lf] + rest) == processed(m, rest)
            &&& processed(m, seq![Token::BareEsc] + rest) == (normal, None::<ActionView>)
            &&& processed(m, seq![Token::Byte(0x03)] + rest) == (normal, None::<ActionView>)
        }),
        processed(m, Seq::empty()) == (
            (ModelView { error: None, ..m }),
            None::<ActionView>,
        ),
{
    let cr = seq![Token::Byte(0x0d)] + rest;
    let lf = seq![Token::Byte(0x0a)] + rest;
    let esc = seq![Token::BareEsc] + rest;
    let ctrl_c = seq![Token::Byte(0x03)] + rest;
    assert(cr.drop_first() =~= rest);
    assert(lf.drop_first() =~= rest);
    assert(cr[0] == Token::Byte(0x0d) && lf[0] == Token::Byte(0x0a));
    assert(esc[0] == Token::BareEsc && ctrl_c[0] == Token::Byte(0x03));
}

/// The tokens of a run of bytes.
pub open spec fn bytes_typed(bytes: Seq<u8>) -> Seq<Token> {
    bytes.map_values(|b: u8| Token::Byte(b))
}

/// The characters of `bytes`.
pub open spec fn chars_typed(bytes: Seq<u8>) -> Seq<char> {
    bytes.map_values(|b: u8| b as char)
}

/// A new session gets exactly the name that was typed for it, whatever
/// printable characters but spaces it is made of.
pub proof fn sessions_are_named_as_typed(m: ModelView, name: Seq<char>, bytes: Seq<u8>)
    requires
        m.mode == ModeView::CreateInput(name),
        name.len() + bytes.len() > 0,
        forall|i: int| 0 <= i < bytes.len() ==> 0x21 <= #[trigger] bytes[i] <= 0x7e,
    ensures
        processed(m, bytes_typed(bytes) + seq![Token::Byte(0x0d)]).1 == Some(
            ActionView::Create(name + chars_typed(bytes)),
        ),
    decreases bytes.len(),
{
    let enter = seq![Token::Byte(0x0d)];
    if bytes.len() == 0 {
        names_are_entered_or_given_up(m, name, Seq::empty());
        assert(bytes_typed(bytes) + enter =~= enter + Seq::empty());
        assert(name + chars_typed(bytes) =~= name);
    } else {
        let rest = bytes.drop_first();
        let first = Token::Byte(bytes[0]);
        let all = bytes_typed(bytes) + enter;
        let more = name + seq![bytes[0] as char];
        assert(0x21 <= bytes[0] <= 0x7e);
        assert forall|i: int| 0 <= i < rest.len() implies 0x21 <= #[trigger] rest[i] <= 0x7e by {
            assert(0x21 <= bytes[i + 1] <= 0x7e);
        }
        assert(all =~= seq![first] + (bytes_typed(rest) + enter));
        names_are_typed(m, name, first, bytes_typed(rest) + enter);
        let next = ModelView { mode: ModeView::CreateInput(more), ..m };
        sessions_are_named_as_typed(next, more, rest);
        assert(more + chars_typed(rest) =~= name + chars_typed(bytes));
    }
}

/// `y` and `Y` at the kill prompt kill the session that it is about; any other
/// key drops the prompt; no key leaves it up.
pub proof fn kill_prompt_is_answered(
    m: ModelView,
    name: Seq<char>,
    token: Token,
    rest: Seq<Token>,
)
    requires
        m.mode == ModeView::ConfirmKill(name),
    ensures
        processed(m, seq![token] + rest) == (
            (ModelView { mode: ModeView::Normal, error: None, ..m }),
            if types(token, 'y') || types(token, 'Y') {
                Some(ActionView::Kill(name))
            } else {
                None
            },
        ),
        processed(m, Seq::empty()) == (
            (ModelView { error: None, ..m }),
            None::<ActionView>,
        ),
{
    assert((seq![token] + rest)[0] == token);
}

/// Bytes outside an escape sequence are tokens as they are; ESC alone is the
/// Escape key; ESC, `[`, parameters and a final byte from `@` to `~` are one
/// token, by the final byte.
pub proof fn bytes_become_tokens(b: u8, other: u8, params: Seq<u8>, last: u8)
    requires
        b != 0x1b,
        other != 0x5b,
        forall|i: int| 0 <= i < params.len() ==> !(0x40 <= #[trigger] params[i] <= 0x7e),
        0x40 <= last <= 0x7e,
    ensures
        fed(ParserState::Normal, seq![b]) == (ParserState::Normal, seq![Token::Byte(b)]),
        fed(ParserState::Normal, seq![0x1bu8]) == (ParserState::Normal, seq![Token::BareEsc]),
        fed(ParserState::Normal, seq![0x1bu8, other]) == (
            ParserState::Normal,
            seq![Token::BareEsc, Token::Byte(other)],
        ),
        fed(ParserState::Normal, seq![0x1bu8, 0x5bu8] + params + seq![last]) == (
            ParserState::Normal,
            seq![Token::Csi(last)],
        ),
{
    reveal_with_fuel(run, 3);
    let esc = seq![0x1bu8];
    let both = seq![0x1bu8, other];
    let open = seq![0x1bu8, 0x5bu8];
    let whole = open + params + seq![last];
    assert(seq![b].drop_last() =~= Seq::empty());
    assert(esc.drop_last() =~= Seq::empty());
    assert(both.drop_last() =~= esc);
    assert(open.drop_last() =~= esc);
    assert(fed(ParserState::Normal, seq![b]).1 =~= seq![Token::Byte(b)]);
    assert(run(ParserState::Normal, esc).1 =~= Seq::empty());
    assert(fed(ParserState::Normal, esc).1 =~= seq![Token::BareEsc]);
    assert(fed(ParserState::Normal, both).1 =~= seq![Token::BareEsc, Token::Byte(other)]);
    assert(run(ParserState::Normal, open).0 == ParserState::EscBracket);
    assert(run(ParserState::Normal, open).1 =~= Seq::empty());
    params_are_skipped(params);
    run_of_concat(ParserState::Normal, open, params);
    assert(whole.drop_last() =~= open + params);
    assert(whole.last() == last);
    assert(run(ParserState::Normal, whole).1 =~= seq![Token::Csi(last)]);
}

proof fn params_are_skipped(params: Seq<u8>)
    requires
        forall|i: int| 0 <= i < params.len() ==> !(0x40 <= #[trigger] params[i] <= 0x7e),
    ensures
        run(ParserState::EscBracket, params) == (ParserState::EscBracket, Seq::<Token>::empty()),
    decreases params.len(),
{
    if params.len() > 0 {
        let rest = params.drop_last();
        assert forall|i: int| 0 <= i < rest.len() implies !(0x40 <= #[trigger] rest[i]
            <= 0x7e) by {
            assert(!(0x40 <= params[i] <= 0x7e));
        }
        params_are_skipped(rest);
        assert(!(0x40 <= params[params.len() - 1] <= 0x7e));
        assert(run(ParserState::EscBracket, params).1 =~= Seq::empty());
    }
}

/// A refresh lists exactly the sessions that came back, the latest first. The
/// cursor follows its session; if that is gone, it stays in its row, or goes
/// to the last one; and nothing else changes.
pub proof fn refreshes_are_taken_in(m: ModelView, fresh: Seq<SessionView>)
    requires
        0 <= m.selected,
    ensures
        ({
            let after = m.refreshed(fresh);
            &&& after.mode == m.mode && after.error == m.error
            &&& after.sessions.to_multiset() == fresh.to_multiset()
            &&& forall|name: Seq<char>|
                highlights(m, name) && session::names(after.sessions).contains(name)
                    ==> highlights(after, name)
            &&& (forall|name: Seq<char>| #[trigger]
                highlights(m, name) ==> !session::names(after.sessions).contains(name))
                ==> after.selected == if fresh.len() == 0 {
                0
            } else if m.selected < fresh.len() {
                m.selected
            } else {
                fresh.len() - 1
            }
        }),
{
    let sessions = m.refreshed(fresh).sessions;
    crate::tui::laws::activity_is_a_ranking();
    order::sorting_is_stable(fresh, order::ranking::<Session>());
    fresh.to_multiset_ensures();
    sessions.to_multiset_ensures();
    if let Some(name) = m.selected_name() {
        text::position_exists(session::names(sessions), name);
        assert(highlights(m, name));
        if let Some(i) = text::position(session::names(sessions), name) {
            assert(session::names(sessions)[i] == sessions[i].name);
        }
    }
}

/// The rows of the list are in the order of the sessions' latest times.
pub proof fn rows_are_in_order_of_activity(
    m: ModelView,
    fresh: Seq<SessionView>,
    i: int,
    j: int,
    a: u64,
    b: u64,
)
    requires
        0 <= i < j < m.refreshed(fresh).sessions.len(),
        session::is_latest(m.refreshed(fresh).sessions[i], a),
        session::is_latest(m.refreshed(fresh).sessions[j], b),
    ensures
        a >= b,
{
    crate::tui::laws::activity_is_a_ranking();
    order::sorting_is_stable(fresh, order::ranking::<Session>());
    let rows = m.refreshed(fresh).sessions;
    assert(order::ranking::<Session>()(rows[i], rows[j]));
}

/// The screen shows the sessions with the cursor's row selected. The bottom
/// bar has the error, if there is one; else it says what is being asked.
pub proof fn frames_show_the_menu(
    m: ModelView,
    width: int,
    height: int,
    now: int,
    about: Seq<char>,
)
    requires
        chrome::is_plain(about),
    ensures
        frame(m, width, height, now) == table::session_screen(
            m.sessions,
            Some(m.selected),
            bottom_label(m),
            now,
            width,
            height,
        ),
        m.error == Some(about) ==> chrome::shows(bottom_label(m), "! "@ + about),
        m.error is None && m.mode == ModeView::CreateInput(about) ==> chrome::shows(
            bottom_label(m),
            "new session: "@ + about + "_   ("@ + "ret"@ + ": "@ + "create"@ + ", "@ + "esc"@
                + ": "@ + "cancel"@ + ")"@,
        ),
        m.error is None && m.mode == ModeView::ConfirmKill(about) ==> chrome::shows(
            bottom_label(m),
            "kill "@ + ("\""@ + about + "\""@) + "?   ("@ + "y"@ + ": "@ + "confirm"@ + ", "@
                + "n"@ + ": "@ + "cancel"@ + ")"@,
        ),
{
    reveal_strlit("ret");
    reveal_strlit("create");
    reveal_strlit("esc");
    reveal_strlit("cancel");
    reveal_strlit("y");
    reveal_strlit("confirm");
    reveal_strlit("n");
    chrome::errors_read(about);
    chrome::create_prompt_reads(about, ("ret"@, "create"@), ("esc"@, "cancel"@));
    chrome::kill_prompt_reads(about, ("y"@, "confirm"@), ("n"@, "cancel"@));
}

/// Without an error or a prompt, the bottom bar lists the keys and what they
/// do.
#[verifier::rlimit(40)]
pub proof fn footer_lists_the_keys(m: ModelView)
    requires
        m.mode is Normal,
        m.error is None,
    ensures
        chrome::shows(
            bottom_label(m),
            "j"@ + " "@ + "down"@ + "   "@ + "k"@ + " "@ + "up"@ + "   "@ + "spc"@ + " "@
                + "attach"@ + "   "@ + "n"@ + " "@ + "new"@ + "   "@ + "d"@ + " "@ + "kill"@
                + "   "@ + "q"@ + " "@ + "quit"@,
        ),
{
    assert(chrome::is_plain("j"@)) by {
        reveal_strlit("j");
    }
    assert(chrome::is_plain("down"@)) by {
        reveal_strlit("down");
    }
    assert(chrome::is_plain("k"@)) by {
        reveal_strlit("k");
    }
    assert(chrome::is_plain("up"@)) by {
        reveal_strlit("up");
    }
    assert(chrome::is_plain("spc"@)) by {
        reveal_strlit("spc");
    }
    assert(chrome::is_plain("attach"@)) by {
        reveal_strlit("attach");
    }
    assert(chrome::is_plain("n"@)) by {
        reveal_strlit("n");
    }
    assert(chrome::is_plain("new"@)) by {
        reveal_strlit("new");
    }
    assert(chrome::is_plain("d"@)) by {
        reveal_strlit("d");
    }
    assert(chrome::is_plain("kill"@)) by {
        reveal_strlit("kill");
    }
    assert(chrome::is_plain("q"@)) by {
        reveal_strlit("q");
    }
    assert(chrome::is_plain("quit"@)) by {
        reveal_strlit("quit");
    }
    let none: Seq<(Seq<char>, Seq<char>)> = Seq::empty();
    let s0: Seq<char> = Seq::empty();
    let l = chrome::blank();
    chrome::blank_labels_show_nothing();
    assert(l.bindings(none) == l);
    chrome::bindings_read(l, s0, none, ("j"@, "down"@), s0);
    let b1 = none + seq![("j"@, "down"@)];
    let s1 = "j"@ + " "@ + "down"@;
    assert(s0 + s0 + "j"@ + " "@ + "down"@ =~= s1);
    chrome::bindings_read(l, s0, b1, ("k"@, "up"@), s1);
    let b2 = b1 + seq![("k"@, "up"@)];
    let s2 = s1 + "   "@ + "k"@ + " "@ + "up"@;
    chrome::bindings_read(l, s0, b2, ("spc"@, "attach"@), s2);
    let b3 = b2 + seq![("spc"@, "attach"@)];
    let s3 = s2 + "   "@ + "spc"@ + " "@ + "attach"@;
    chrome::bindings_read(l, s0, b3, ("n"@, "new"@), s3);
    let b4 = b3 + seq![("n"@, "new"@)];
    let s4 = s3 + "   "@ + "n"@ + " "@ + "new"@;
    chrome::bindings_read(l, s0, b4, ("d"@, "kill"@), s4);
    let b5 = b4 + seq![("d"@, "kill"@)];
    let s5 = s4 + "   "@ + "d"@ + " "@ + "kill"@;
    chrome::bindings_read(l, s0, b5, ("q"@, "quit"@), s5);
    let b6 = b5 + seq![("q"@, "quit"@)];
    assert(normal_footer() =~= b6);
}

/// The view of a menu holds what its fields hold.
pub proof fn menu_views_are_true(m: Model, name: String)
    ensures
        m.deep_view().sessions.len() == m.sessions@.len(),
        forall|k: int|
            0 <= k < m.sessions@.len() ==> #[trigger] m.deep_view().sessions[k]
                == m.sessions@[k].deep_view(),
        m.deep_view().selected == m.selected,
        m.deep_view().mode == m.mode.deep_view(),
        m.deep_view().error is Some == m.error is Some,
        m.error matches Some(msg) ==> m.deep_view().error == Some(msg@),
        Mode::Normal.deep_view() == ModeView::Normal,
        Mode::CreateInput(name).deep_view() == ModeView::CreateInput(name@),
        Mode::ConfirmKill(name).deep_view() == ModeView::ConfirmKill(name@),
        LoopAction::Attach(name).deep_view() == ActionView::Attach(name@),
        LoopAction::Create(name).deep_view() == ActionView::Create(name@),
        LoopAction::Kill(name).deep_view() == ActionView::Kill(name@),
        LoopAction::Quit.deep_view() == ActionView::Quit,
{
}

}
