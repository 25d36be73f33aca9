//! The state of the terminal interface.

use vstd::prelude::*;

use super::template;
use super::template::{template_vars, VarMap};
use crate::order;
use crate::order::{stable_sort, Ranked};
use crate::session;
use crate::session::{position_of, Session, SessionView};
use crate::text;
use crate::text::{comes_no_later, contains_text, framed, same};

verus! {

// -- Template variables --

/// One of the daemon's template variables. `unset` flags a synthetic
/// row — a variable an attached template references but `var list`
/// doesn't carry — surfaced by the vars view as a dimmed `(unset)` row.
/// Real (set) rows have `unset: false`, including a legitimately set
/// but empty-valued var: emptiness is never inferred as unset.
#[derive(Debug, Default, PartialEq)]
pub struct Var {
    pub name: String,
    pub value: String,
    pub unset: bool,
}

/// What a `Var` holds.
#[verifier::ext_equal]
pub struct VarView {
    pub name: Seq<char>,
    pub value: Seq<char>,
    pub unset: bool,
}

impl DeepView for Var {
    type V = VarView;

    open spec fn deep_view(&self) -> VarView {
        VarView { name: self.name@, value: self.value@, unset: self.unset }
    }
}

impl Clone for Var {
    fn clone(&self) -> (copy: Self)
        ensures
            copy == *self,
    {
        Var { name: self.name.clone(), value: self.value.clone(), unset: self.unset }
    }
}

impl Ranked for Var {
    /// Variables are listed by name.
    open spec fn no_later(a: VarView, b: VarView) -> bool {
        text::no_later(a.name, b.name)
    }

    fn comes_no_later(&self, other: &Self) -> (r: bool) {
        comes_no_later(self.name.as_str(), other.name.as_str())
    }
}

/// The names of `vars`, in order.
pub open spec fn var_names(vars: Seq<VarView>) -> Seq<Seq<char>> {
    Seq::new(vars.len(), |i: int| vars[i].name)
}

/// The real (set) rows of `vars`, in order.
pub open spec fn set_rows(vars: Seq<VarView>) -> Seq<VarView> {
    vars.filter(|v: VarView| !v.unset)
}

/// Names and values of `vars`, in order.
pub open spec fn name_values(vars: Seq<VarView>) -> Seq<(Seq<char>, Seq<char>)> {
    vars.map_values(|v: VarView| (v.name, v.value))
}

/// The values that the set rows of `vars` give.
pub open spec fn resolution(vars: Seq<VarView>) -> Map<Seq<char>, Seq<char>> {
    template::map_of(name_values(set_rows(vars)))
}

/// The `name -> value` map fed to `resolve_template` / `candidate_values`.
/// Built from real (`!unset`) rows only: a synthetic unset row carries no
/// value, and slipping an `editor -> ""` in here would collapse a literal
/// `{editor}` in a preview to empty.
pub fn resolution_map(vars: &Vec<Var>) -> (map: VarMap)
    ensures
        map@ == resolution(vars.deep_view()),
{
    let ghost all = vars.deep_view();
    let ghost is_set = |v: VarView| !v.unset;
    let mut map = VarMap::new();
    assert(name_values(all.take(0).filter(is_set)) =~= Seq::empty());
    for i in 0..vars.len()
        invariant
            all == vars.deep_view(),
            is_set == (|v: VarView| !v.unset),
            map@ == template::map_of(name_values(all.take(i as int).filter(is_set))),
    {
        let v = &vars[i];
        proof {
            let before = all.take(i as int);
            let row = all[i as int];
            assert(all.take(i + 1) =~= before.push(row));
            before.lemma_filter_push(row, is_set);
            if !row.unset {
                let pairs = name_values(before.filter(is_set));
                assert(name_values(before.filter(is_set).push(row)) =~= pairs.push(
                    (row.name, row.value),
                ));
                assert(pairs.push((row.name, row.value)).drop_last() =~= pairs);
            }
        }
        if !v.unset {
            map.insert(v.name.as_str(), v.value.as_str());
        }
    }
    assert(all.take(all.len() as int) =~= all);
    map
}

/// The variables that `templates` reference, one template after the other.
pub open spec fn referenced(templates: Seq<Seq<char>>) -> Seq<Seq<char>>
    decreases templates.len(),
{
    if templates.len() == 0 {
        Seq::empty()
    } else {
        referenced(templates.drop_last()) + template::vars_of(templates.last())
    }
}

/// The synthetic row of a variable that is referenced but not set.
pub open spec fn unset_row(name: Seq<char>) -> VarView {
    VarView { name, value: Seq::empty(), unset: true }
}

/// The variables that the sessions' templates reference and `vars` does not
/// carry, each once.
pub open spec fn missing(vars: Seq<VarView>, sessions: Seq<SessionView>) -> Seq<Seq<char>> {
    template::without(
        text::distinct(referenced(template::all_templates(sessions))),
        var_names(vars),
    )
}

/// `vars` and an unset row for each missing variable, by name.
pub open spec fn merged(vars: Seq<VarView>, sessions: Seq<SessionView>) -> Seq<VarView> {
    order::sorted(
        vars + missing(vars, sessions).map_values(|name: Seq<char>| unset_row(name)),
        order::ranking::<Var>(),
    )
}

/// The variables that the templates of the attached sessions reference, each
/// once, in first-seen order.
fn referenced_vars(sessions: &Vec<Session>) -> (names: Vec<String>)
    ensures
        names.deep_view() == text::distinct(
            referenced(template::all_templates(sessions.deep_view())),
        ),
{
    let mut names: Vec<String> = Vec::new();
    let ghost all = sessions.deep_view();
    assert(all.take(0) =~= Seq::empty());
    assert(names.deep_view() =~= Seq::empty());
    for i in 0..sessions.len()
        invariant
            all == sessions.deep_view(),
            names.deep_view() == text::distinct(
                referenced(template::all_templates(all.take(i as int))),
            ),
    {
        let s = &sessions[i];
        let ghost atts = s.attachments.deep_view();
        let ghost base = template::all_templates(all.take(i as int));
        proof {
            assert(all[i as int] == s.deep_view());
            assert(all.take(i + 1).drop_last() =~= all.take(i as int));
            assert(base + template::attachment_templates(atts.take(0)) =~= base);
        }
        for k in 0..s.attachments.len()
            invariant
                atts == s.attachments.deep_view(),
                names.deep_view() == text::distinct(
                    referenced(base + template::attachment_templates(atts.take(k as int))),
                ),
        {
            let vars = template_vars(s.attachments[k].session_name_template.as_str());
            let ghost before = base + template::attachment_templates(atts.take(k as int));
            let ghost tmpl = atts[k as int].template;
            let ghost vs = vars.deep_view();
            proof {
                assert(tmpl == s.attachments@[k as int].session_name_template@);
                assert(base + template::attachment_templates(atts.take(k + 1)) =~= before.push(
                    tmpl,
                ));
                assert(before.push(tmpl).drop_last() =~= before);
                assert(referenced(before) + vs.take(0) =~= referenced(before));
            }
            for m in 0..vars.len()
                invariant
                    vs == vars.deep_view(),
                    names.deep_view() == text::distinct(referenced(before) + vs.take(m as int)),
            {
                let ghost so_far = referenced(before) + vs.take(m as int);
                let ghost names_before = names.deep_view();
                proof {
                    assert(referenced(before) + vs.take(m + 1) =~= so_far.push(vs[m as int]));
                    assert(so_far.push(vs[m as int]).drop_last() =~= so_far);
                }
                if !contains_text(&names, vars[m].as_str()) {
                    names.push(vars[m].clone());
                    assert(names.deep_view() =~= names_before.push(vs[m as int]));
                }
            }
            assert(vs.take(vs.len() as int) =~= vs);
        }
        assert(atts.take(atts.len() as int) =~= atts);
    }
    assert(all.take(all.len() as int) =~= all);
    names
}

/// The place of the variable `name` in `vars`.
pub fn position_of_var(vars: &Vec<Var>, name: &str) -> (at: Option<usize>)
    ensures
        match at {
            Some(i) => text::position(var_names(vars.deep_view()), name@) == Some(i as int) && i
                < vars@.len(),
            None => text::position(var_names(vars.deep_view()), name@) is None && !var_names(
                vars.deep_view(),
            ).contains(name@),
        },
{
    for i in 0..vars.len()
        invariant
            forall|j: int| 0 <= j < i ==> var_names(vars.deep_view())[j] != name@,
    {
        if same(vars[i].name.as_str(), name) {
            proof {
                text::position_is(var_names(vars.deep_view()), name@, i as int);
            }
            return Some(i);
        }
        assert(var_names(vars.deep_view())[i as int] == vars@[i as int].name@);
    }
    proof {
        text::position_exists(var_names(vars.deep_view()), name@);
    }
    None
}

/// Surface variables a template references but `var list` doesn't carry:
/// union the template vars across every attachment of every session, drop
/// the ones already in `var_list`, and append a synthetic
/// `Var { unset: true }` row for each remainder. The result is sorted
/// by name so set and unset rows interleave alphabetically.
///
/// Templates live only on attached sessions (`attachments`), so a var
/// referenced solely by a detached session contributes nothing. A var that
/// is both set and referenced stays a single (set) row; a var referenced by
/// several templates yields one unset row.
pub fn merge_unset_vars(var_list: &Vec<Var>, sessions: &Vec<Session>) -> (rows: Vec<Var>)
    ensures
        rows.deep_view() == merged(var_list.deep_view(), sessions.deep_view()),
{
    let ghost given = var_list.deep_view();
    let mut rows: Vec<Var> = Vec::new();
    for i in 0..var_list.len()
        invariant
            given == var_list.deep_view(),
            rows.deep_view() == given.take(i as int),
    {
        let ghost before = rows.deep_view();
        rows.push(var_list[i].clone());
        assert(rows.deep_view() =~= before.push(given[i as int]));
        assert(rows.deep_view() =~= given.take(i + 1));
    }
    assert(given.take(given.len() as int) =~= given);
    let names = referenced_vars(sessions);
    let ghost wanted = names.deep_view();
    let ghost absent = |t: Seq<char>| !var_names(given).contains(t);
    let ghost as_row = |name: Seq<char>| unset_row(name);
    assert(given + wanted.take(0).filter(absent).map_values(as_row) =~= given);
    for i in 0..names.len()
        invariant
            given == var_list.deep_view(),
            wanted == names.deep_view(),
            absent == (|t: Seq<char>| !var_names(given).contains(t)),
            as_row == (|name: Seq<char>| unset_row(name)),
            rows.deep_view() == given + wanted.take(i as int).filter(absent).map_values(as_row),
    {
        let ghost before = rows.deep_view();
        let ghost name = wanted[i as int];
        proof {
            assert(wanted.take(i + 1) =~= wanted.take(i as int).push(name));
            wanted.take(i as int).lemma_filter_push(name, absent);
        }
        if position_of_var(var_list, names[i].as_str()).is_none() {
            rows.push(Var { name: names[i].clone(), value: String::new(), unset: true });
            proof {
                assert(rows@.last().deep_view() =~= unset_row(name));
                assert(rows.deep_view() =~= before.push(unset_row(name)));
                assert(rows.deep_view() =~= given + wanted.take(i + 1).filter(absent).map_values(
                    as_row,
                ));
            }
        } else {
            proof {
                text::position_exists(var_names(given), name);
            }
        }
    }
    assert(wanted.take(wanted.len() as int) =~= wanted);
    stable_sort(rows)
}

/// The value selector's two-slot state, held while editing a variable.
/// `field` is the text Enter applies; `filter` is `field` as of the last
/// typing keystroke (frozen while arrowing) and is what `candidates`
/// filters by; `highlight` indexes the filtered (shown) list.
#[derive(Debug, Clone, PartialEq)]
pub struct EditState {
    /// Editable text — the value Enter applies. Starts empty.
    pub field: String,
    /// The list filter: `field` as of the last typing keystroke.
    pub filter: String,
    /// All harvested candidate values, fixed for the duration of the edit.
    pub candidates: Vec<String>,
    /// Index into the filtered (shown) list.
    pub highlight: usize,
}

/// What an `EditState` holds.
#[verifier::ext_equal]
pub struct EditView {
    pub field: Seq<char>,
    pub filter: Seq<char>,
    pub candidates: Seq<Seq<char>>,
    pub highlight: int,
}

impl DeepView for EditState {
    type V = EditView;

    open spec fn deep_view(&self) -> EditView {
        EditView {
            field: self.field@,
            filter: self.filter@,
            candidates: self.candidates.deep_view(),
            highlight: self.highlight as int,
        }
    }
}

impl EditView {
    /// The candidates that the list shows.
    pub open spec fn shown(self) -> Seq<Seq<char>> {
        template::shown_for(self.candidates, self.filter)
    }

    /// The highlight is on a shown row, or at the top.
    pub open spec fn wf(self) -> bool {
        self.highlight == 0 || 0 < self.highlight < self.shown().len()
    }
}

/// State of the template-variable view: the snapshot of variables, the
/// cursor into them, and the value selector. `edit` is `None` while
/// browsing and `Some(EditState)` while picking/typing a value.
#[derive(Debug, Clone, PartialEq)]
pub struct VarsState {
    pub vars: Vec<Var>,
    pub selected: usize,
    pub edit: Option<EditState>,
}

/// What a `VarsState` holds.
#[verifier::ext_equal]
pub struct VarsView {
    pub vars: Seq<VarView>,
    pub selected: int,
    pub edit: Option<EditView>,
}

impl DeepView for VarsState {
    type V = VarsView;

    open spec fn deep_view(&self) -> VarsView {
        VarsView {
            vars: self.vars.deep_view(),
            selected: self.selected as int,
            edit: self.edit.deep_view(),
        }
    }
}

impl VarsView {
    /// The cursor is on a row, or at the top of an empty list.
    pub open spec fn wf(self) -> bool {
        &&& self.selected == 0 || 0 < self.selected < self.vars.len()
        &&& self.edit matches Some(edit) ==> edit.wf()
    }

    /// The name of the variable under the cursor.
    pub open spec fn selected_name(self) -> Option<Seq<char>> {
        if 0 <= self.selected < self.vars.len() {
            Some(self.vars[self.selected].name)
        } else {
            None
        }
    }

    /// The list re-derived from its set rows and `sessions`, the cursor on
    /// the same variable by name, or on the last row if that one is gone.
    pub open spec fn remerged(self, sessions: Seq<SessionView>) -> VarsView {
        let vars = merged(set_rows(self.vars), sessions);
        let kept = match self.selected_name() {
            Some(name) => text::position(var_names(vars), name),
            None => None,
        };
        let selected = match kept {
            Some(i) => i,
            None => if vars.len() == 0 {
                0
            } else {
                vars.len() - 1
            },
        };
        VarsView { vars, selected, ..self }
    }
}

/// Re-derive the displayed variable list — set rows ∪ the unset rows the
/// current sessions reference — preserving the cursor on the same variable
/// by name. The list is a function of (real vars, sessions), so anything
/// that changes either input while in the view (a `var set`, a session
/// refresh) runs through here. On no match (only a concurrent external
/// `var unset` can drop the selected name) the cursor clamps to the last
/// row. Prior synthetic rows are filtered out first so they never feed back
/// into the union as if they were set.
pub fn remerge_preserving_cursor(vs: &mut VarsState, sessions: &Vec<Session>)
    ensures
        final(vs).deep_view() == old(vs).deep_view().remerged(sessions.deep_view()),
{
    let ghost start = vs.deep_view();
    let prev_name: Option<String> = if vs.selected < vs.vars.len() {
        Some(vs.vars[vs.selected].name.clone())
    } else {
        None
    };
    assert(prev_name.deep_view() == start.selected_name());
    let mut set: Vec<Var> = Vec::new();
    let ghost all = vs.vars.deep_view();
    let ghost is_set = |v: VarView| !v.unset;
    assert(all.take(0).filter(is_set) =~= Seq::empty());
    assert(set.deep_view() =~= Seq::empty());
    for i in 0..vs.vars.len()
        invariant
            all == vs.vars.deep_view(),
            is_set == (|v: VarView| !v.unset),
            set.deep_view() == all.take(i as int).filter(is_set),
            *vs == *old(vs),
    {
        let ghost before = set.deep_view();
        proof {
            assert(all.take(i + 1) =~= all.take(i as int).push(all[i as int]));
            all.take(i as int).lemma_filter_push(all[i as int], is_set);
        }
        if !vs.vars[i].unset {
            set.push(vs.vars[i].clone());
            assert(set.deep_view() =~= before.push(all[i as int]));
        }
    }
    assert(all.take(all.len() as int) =~= all);
    vs.vars = merge_unset_vars(&set, sessions);
    let kept: Option<usize> = match &prev_name {
        Some(name) => position_of_var(&vs.vars, name.as_str()),
        None => None,
    };
    vs.selected = match kept {
        Some(i) => i,
        None => if vs.vars.len() == 0 {
            0
        } else {
            vs.vars.len() - 1
        },
    };
}

/// Per-var prompt state for a new session whose name references vars not
/// yet set. `vars` is the ordered unknowns to walk; `idx` is the current
/// one; `input` is the value typed so far; `collected` accumulates the
/// non-empty `(var, value)` pairs to apply; `set_vars` is the snapshot of
/// already-set vars, kept only to feed the live name preview.
#[derive(Debug, Clone, PartialEq)]
pub struct VarPromptState {
    pub name: String,
    pub vars: Vec<String>,
    pub idx: usize,
    pub input: String,
    pub collected: Vec<(String, String)>,
    pub set_vars: Vec<(String, String)>,
}

/// What a `VarPromptState` holds.
#[verifier::ext_equal]
pub struct VarPromptView {
    pub name: Seq<char>,
    pub vars: Seq<Seq<char>>,
    pub idx: int,
    pub input: Seq<char>,
    pub collected: Seq<(Seq<char>, Seq<char>)>,
    pub set_vars: Seq<(Seq<char>, Seq<char>)>,
}

impl DeepView for VarPromptState {
    type V = VarPromptView;

    open spec fn deep_view(&self) -> VarPromptView {
        VarPromptView {
            name: self.name@,
            vars: self.vars.deep_view(),
            idx: self.idx as int,
            input: self.input@,
            collected: self.collected.deep_view(),
            set_vars: self.set_vars.deep_view(),
        }
    }
}

impl VarPromptView {
    /// The prompt is on one of its variables.
    pub open spec fn wf(self) -> bool {
        0 <= self.idx < self.vars.len()
    }
}

#[derive(Debug, PartialEq)]
pub enum Mode {
    Normal,
    CreateInput(String),
    ConfirmKill(String),
    ConfirmForce(String),
    /// The create-time variable prompt: a new session whose name
    /// references vars not yet set walks each unknown var, collecting a
    /// value, then sets the non-empty ones and attaches. A bottom-bar mode
    /// like `CreateInput` — the session list still renders behind it.
    CreateVarPrompt(VarPromptState),
    /// The template-variable view. Carries its own scoped state so no
    /// stale vars data lingers in the other modes.
    Vars(VarsState),
}

/// What a `Mode` holds.
#[verifier::ext_equal]
pub enum ModeView {
    Normal,
    CreateInput(Seq<char>),
    ConfirmKill(Seq<char>),
    ConfirmForce(Seq<char>),
    CreateVarPrompt(VarPromptView),
    Vars(VarsView),
}

impl DeepView for Mode {
    type V = ModeView;

    open spec fn deep_view(&self) -> ModeView {
        match self {
            Mode::Normal => ModeView::Normal,
            Mode::CreateInput(buf) => ModeView::CreateInput(buf@),
            Mode::ConfirmKill(name) => ModeView::ConfirmKill(name@),
            Mode::ConfirmForce(name) => ModeView::ConfirmForce(name@),
            Mode::CreateVarPrompt(vp) => ModeView::CreateVarPrompt(vp.deep_view()),
            Mode::Vars(vs) => ModeView::Vars(vs.deep_view()),
        }
    }
}

impl ModeView {
    pub open spec fn wf(self) -> bool {
        match self {
            ModeView::CreateVarPrompt(vp) => vp.wf(),
            ModeView::Vars(vs) => vs.wf(),
            _ => true,
        }
    }
}

// -- The model --

/// Where the cursor is, as a three-state value rather than a bare
/// index — so "nothing is validly selected" can never be confused with
/// "row 0": when the selected session vanishes from a refresh, clamping
/// would silently land the cursor on whatever shifted into that slot, and
/// the next attach/kill would hit the wrong session.
#[derive(Debug, PartialEq)]
pub enum Selection {
    /// Cursor on a valid row.
    At(usize),
    /// Deliberately nothing selected: an empty list, or the user just
    /// killed the last/only session. Attaching/killing is a no-op and
    /// no acknowledgment is required.
    Nothing,
    /// The selected session disappeared from a refresh the user didn't
    /// initiate. Carries the lost name for the "is gone" error. The
    /// highlight is suppressed and the next keystroke is consumed as
    /// acknowledgment before any attach/kill can land — so the action
    /// never strikes whatever moved into that row.
    Stale(String),
}

/// What a `Selection` holds.
#[verifier::ext_equal]
pub enum SelectionView {
    At(int),
    Nothing,
    Stale(Seq<char>),
}

impl DeepView for Selection {
    type V = SelectionView;

    open spec fn deep_view(&self) -> SelectionView {
        match self {
            Selection::At(i) => SelectionView::At(*i as int),
            Selection::Nothing => SelectionView::Nothing,
            Selection::Stale(name) => SelectionView::Stale(name@),
        }
    }
}

pub struct Model {
    pub sessions: Vec<Session>,
    pub selection: Selection,
    pub mode: Mode,
    /// Transient error message displayed in the bottom bar until the
    /// next keypress. Set by failed shell-outs and pre-flight checks.
    pub error: Option<String>,
    /// Set to stop the main loop, which checks this after each render.
    pub quit: bool,
    /// True while a `shpool events` subscription is feeding push-driven
    /// refreshes, which make the keystroke/focus auto-refresh redundant.
    pub events_active: bool,
}

/// What a `Model` holds.
#[verifier::ext_equal]
pub struct ModelView {
    pub sessions: Seq<SessionView>,
    pub selection: SelectionView,
    pub mode: ModeView,
    pub error: Option<Seq<char>>,
    pub quit: bool,
    pub events_active: bool,
}

impl DeepView for Model {
    type V = ModelView;

    open spec fn deep_view(&self) -> ModelView {
        ModelView {
            sessions: self.sessions.deep_view(),
            selection: self.selection.deep_view(),
            mode: self.mode.deep_view(),
            error: self.error.deep_view(),
            quit: self.quit,
            events_active: self.events_active,
        }
    }
}

/// The first row of a list, or nothing if it is empty.
pub open spec fn top_of(sessions: Seq<SessionView>) -> SelectionView {
    if sessions.len() == 0 {
        SelectionView::Nothing
    } else {
        SelectionView::At(0)
    }
}

/// The message that a session has disappeared.
pub open spec fn gone_message(name: Seq<char>) -> Seq<char> {
    "session '"@ + name + "' is gone"@
}

impl ModelView {
    /// The cursor is on a row of the list, and the mode's own state holds
    /// together.
    pub open spec fn wf(self) -> bool {
        &&& self.selection matches SelectionView::At(i) ==> 0 <= i < self.sessions.len()
        &&& self.mode.wf()
    }

    pub open spec fn stale(self) -> bool {
        self.selection is Stale
    }

    /// The name of the highlighted session, if there is one.
    pub open spec fn selected_name(self) -> Option<Seq<char>> {
        match self.selection {
            SelectionView::At(i) => if 0 <= i < self.sessions.len() {
                Some(self.sessions[i].name)
            } else {
                None
            },
            _ => None,
        }
    }

    /// A session of that name is listed.
    pub open spec fn lists(self, name: Seq<char>) -> bool {
        session::names(self.sessions).contains(name)
    }

    pub open spec fn with_error(self, msg: Seq<char>) -> ModelView {
        ModelView { error: Some(msg), ..self }
    }

    pub open spec fn in_mode(self, mode: ModeView) -> ModelView {
        ModelView { mode, ..self }
    }

    pub open spec fn selecting(self, selection: SelectionView) -> ModelView {
        ModelView { selection, ..self }
    }

    /// The cursor one row down, wrapping; from no valid selection, the first row.
    pub open spec fn after_next(self) -> ModelView {
        let n = self.sessions.len() as int;
        self.selecting(
            if n == 0 {
                SelectionView::Nothing
            } else {
                match self.selection {
                    SelectionView::At(i) => SelectionView::At((i + 1) % n),
                    _ => SelectionView::At(0),
                }
            },
        )
    }

    /// The cursor one row up, wrapping; from no valid selection, the last row.
    pub open spec fn after_prev(self) -> ModelView {
        let n = self.sessions.len() as int;
        self.selecting(
            if n == 0 {
                SelectionView::Nothing
            } else {
                match self.selection {
                    SelectionView::At(i) => SelectionView::At(
                        if i == 0 {
                            n - 1
                        } else {
                            i - 1
                        },
                    ),
                    _ => SelectionView::At(n - 1),
                }
            },
        )
    }

    /// The cursor moved off `name`, if it is there: to the next row, or the
    /// previous one from the last row, or nowhere from the only one.
    pub open spec fn moved_off(self, name: Seq<char>) -> ModelView {
        match self.selection {
            SelectionView::At(i) => if self.selected_name() == Some(name) {
                self.selecting(
                    if self.sessions.len() == 1 {
                        SelectionView::Nothing
                    } else if i == self.sessions.len() - 1 {
                        SelectionView::At(i - 1)
                    } else {
                        SelectionView::At(i + 1)
                    },
                )
            } else {
                self
            },
            _ => self,
        }
    }

    /// The list replaced by `fresh`, most recently active first. A valid
    /// selection follows its session by name, or goes stale, with an error,
    /// if that is gone. A stale selection stays stale. No selection becomes
    /// the first row.
    pub open spec fn refreshed(self, fresh: Seq<SessionView>) -> ModelView {
        let sessions = order::sorted(fresh, order::ranking::<Session>());
        let listed = ModelView { sessions, ..self };
        match self.selected_name() {
            Some(name) => match text::position(session::names(sessions), name) {
                Some(i) => listed.selecting(SelectionView::At(i)),
                None => listed.selecting(SelectionView::Stale(name)).with_error(
                    gone_message(name),
                ),
            },
            None => if self.stale() {
                listed
            } else {
                listed.selecting(top_of(sessions))
            },
        }
    }
}

proof fn wrapping_step(i: int, n: int)
    requires
        0 <= i,
        0 < n,
    ensures
        (i + 1) % n == if i % n + 1 == n {
            0
        } else {
            i % n + 1
        },
{
    let q = i / n;
    let r = i % n;
    vstd::arithmetic::div_mod::lemma_fundamental_div_mod(i, n);
    vstd::arithmetic::div_mod::lemma_mod_bound(i, n);
    if r + 1 == n {
        assert(i + 1 == (q + 1) * n + 0) by (nonlinear_arith)
            requires
                i == n * q + r,
                r + 1 == n,
        ;
        vstd::arithmetic::div_mod::lemma_fundamental_div_mod_converse(i + 1, n, q + 1, 0);
    } else {
        assert(i + 1 == q * n + (r + 1)) by (nonlinear_arith)
            requires
                i == n * q + r,
        ;
        vstd::arithmetic::div_mod::lemma_fundamental_div_mod_converse(i + 1, n, q, r + 1);
    }
}

impl Model {
    pub fn new(sessions: Vec<Session>) -> (model: Self)
        ensures
            model.deep_view() == (ModelView {
                sessions: sessions.deep_view(),
                selection: top_of(sessions.deep_view()),
                mode: ModeView::Normal,
                error: None,
                quit: false,
                events_active: false,
            }),
            model.deep_view().wf(),
    {
        let selection = if sessions.len() == 0 {
            Selection::Nothing
        } else {
            Selection::At(0)
        };
        Model {
            sessions,
            selection,
            mode: Mode::Normal,
            error: Option::None,
            quit: false,
            events_active: false,
        }
    }

    pub fn set_error(&mut self, msg: &str)
        ensures
            final(self).deep_view() == old(self).deep_view().with_error(msg@),
    {
        self.error = Some(msg.to_owned());
    }

    /// The highlighted row index, or `None` in the empty / cleared /
    /// stale states. The view uses this so nothing lights up when
    /// there's no valid selection.
    pub fn selected_index(&self) -> (index: Option<usize>)
        ensures
            index == match self.selection {
                Selection::At(i) => Some(i),
                _ => Option::None,
            },
    {
        match &self.selection {
            Selection::At(i) => Some(*i),
            _ => Option::None,
        }
    }

    /// The name of the highlighted session, or `None` when there's no
    /// valid selection. Returns `None` while stale, so attach/kill
    /// short-circuit instead of acting on the wrong session.
    pub fn selected_name(&self) -> (name: Option<&str>)
        ensures
            match name {
                Some(n) => self.deep_view().selected_name() == Some(n@),
                Option::None => self.deep_view().selected_name() is None,
            },
    {
        match &self.selection {
            Selection::At(i) => {
                let i: usize = *i;
                if i < self.sessions.len() {
                    Some(self.sessions[i].name.as_str())
                } else {
                    Option::None
                }
            },
            _ => Option::None,
        }
    }

    /// True while the selection is in the unexpected-disappearance
    /// state, where the next keystroke is consumed as acknowledgment.
    pub fn is_stale(&self) -> (r: bool)
        ensures
            r == self.deep_view().stale(),
    {
        match &self.selection {
            Selection::Stale(_) => true,
            _ => false,
        }
    }

    pub fn select_next(&mut self)
        ensures
            final(self).deep_view() == old(self).deep_view().after_next(),
    {
        let n: usize = self.sessions.len();
        if n == 0 {
            self.selection = Selection::Nothing;
            return ;
        }
        let next: usize = match &self.selection {
            Selection::At(i) => {
                let i: usize = *i;
                proof {
                    wrapping_step(i as int, n as int);
                }
                let row: usize = i % n;
                if row + 1 == n {
                    0
                } else {
                    row + 1
                }
            },
            // From no valid selection (cleared or stale), land on the
            // first row rather than tracking a remembered index.
            _ => 0,
        };
        self.selection = Selection::At(next);
    }

    pub fn select_prev(&mut self)
        ensures
            final(self).deep_view() == old(self).deep_view().after_prev(),
    {
        let n: usize = self.sessions.len();
        if n == 0 {
            self.selection = Selection::Nothing;
            return ;
        }
        let last: usize = n - 1;
        let prev: usize = match &self.selection {
            Selection::At(i) => {
                let i: usize = *i;
                if i == 0 {
                    last
                } else {
                    i - 1
                }
            },
            _ => last,
        };
        self.selection = Selection::At(prev);
    }

    /// Move the cursor off `name` to a neighbor (vim `dd` semantics),
    /// or clear the selection if it was the only session. Called before
    /// issuing a kill of the *highlighted* session so the post-kill
    /// refresh re-selects the neighbor by name instead of raising a
    /// spurious stale alert for a disappearance the user caused.
    pub fn advance_off(&mut self, name: &str)
        ensures
            final(self).deep_view() == old(self).deep_view().moved_off(name@),
    {
        let i: usize = match &self.selection {
            Selection::At(i) => *i,
            _ => {
                return ;
            },
        };
        let n: usize = self.sessions.len();
        if i >= n || !same(self.sessions[i].name.as_str(), name) {
            return ;
        }
        self.selection = if n == 1 {
            Selection::Nothing
        } else if i == n - 1 {
            Selection::At(i - 1)
        } else {
            Selection::At(i + 1)
        };
    }

    /// Replace the session list, most-recently-active first, preserving
    /// the selection by name. If the previously-selected session is gone
    /// from a refresh the user didn't initiate, enter the Stale state —
    /// don't silently move the cursor onto whatever shifted into its
    /// place — and raise an error.
    pub fn refresh(&mut self, new_sessions: Vec<Session>)
        ensures
            final(self).deep_view() == old(self).deep_view().refreshed(new_sessions.deep_view()),
    {
        // Capture the prior selection's identity before swapping the
        // list out from under the index it points into.
        let prev_name: Option<String> = match self.selected_name() {
            Some(name) => Some(name.to_owned()),
            Option::None => Option::None,
        };
        let was_stale = self.is_stale();
        self.sessions = stable_sort(new_sessions);
        match prev_name {
            // Had a valid selection: re-seat by name, or go Stale.
            Some(name) => {
                match position_of(&self.sessions, name.as_str()) {
                    Some(i) => {
                        self.selection = Selection::At(i);
                    },
                    Option::None => {
                        let msg = framed("session '", name.as_str(), "' is gone");
                        self.set_error(msg.as_str());
                        self.selection = Selection::Stale(name);
                    },
                }
            },
            Option::None => {
                // Already stale: stay stale until the user acks, even if a
                // same-named session reappears. A reappearance is a recreated,
                // different instance; silently adopting it would hide that the
                // original is gone.
                if !was_stale {
                    // Cleared or empty: land on the freshest row if any
                    // appeared, else stay empty.
                    self.selection = if self.sessions.len() == 0 {
                        Selection::Nothing
                    } else {
                        Selection::At(0)
                    };
                }
            },
        }
    }
}

// -- Views --

/// The view of a model holds what its fields hold.
pub proof fn model_views_are_true(m: Model, name: String, i: usize)
    ensures
        m.deep_view().sessions.len() == m.sessions@.len(),
        forall|k: int|
            0 <= k < m.sessions@.len() ==> #[trigger] m.deep_view().sessions[k]
                == m.sessions@[k].deep_view(),
        m.deep_view().selection == m.selection.deep_view(),
        m.deep_view().mode == m.mode.deep_view(),
        m.deep_view().error is Some == m.error is Some,
        m.error matches Some(msg) ==> m.deep_view().error == Some(msg@),
        m.deep_view().quit == m.quit,
        m.deep_view().events_active == m.events_active,
        Selection::At(i).deep_view() == SelectionView::At(i as int),
        Selection::Nothing.deep_view() == SelectionView::Nothing,
        Selection::Stale(name).deep_view() == SelectionView::Stale(name@),
        Mode::Normal.deep_view() == ModeView::Normal,
        Mode::CreateInput(name).deep_view() == ModeView::CreateInput(name@),
        Mode::ConfirmKill(name).deep_view() == ModeView::ConfirmKill(name@),
        Mode::ConfirmForce(name).deep_view() == ModeView::ConfirmForce(name@),
{
}

/// The views of the variables, of their screen and of their prompt hold what
/// the fields hold.
pub proof fn variable_views_are_true(v: Var, vs: VarsState, edit: EditState, vp: VarPromptState)
    ensures
        v.deep_view().name == v.name@,
        v.deep_view().value == v.value@,
        v.deep_view().unset == v.unset,
        Mode::Vars(vs).deep_view() == ModeView::Vars(vs.deep_view()),
        vs.deep_view().vars.len() == vs.vars@.len(),
        forall|k: int|
            0 <= k < vs.vars@.len() ==> #[trigger] vs.deep_view().vars[k]
                == vs.vars@[k].deep_view(),
        vs.deep_view().selected == vs.selected,
        vs.deep_view().edit is Some == vs.edit is Some,
        vs.edit matches Some(e) ==> vs.deep_view().edit == Some(e.deep_view()),
        edit.deep_view().field == edit.field@,
        edit.deep_view().filter == edit.filter@,
        edit.deep_view().highlight == edit.highlight,
        edit.deep_view().candidates.len() == edit.candidates@.len(),
        forall|k: int|
            0 <= k < edit.candidates@.len() ==> #[trigger] edit.deep_view().candidates[k]
                == edit.candidates@[k]@,
        Mode::CreateVarPrompt(vp).deep_view() == ModeView::CreateVarPrompt(vp.deep_view()),
        vp.deep_view().name == vp.name@,
        vp.deep_view().idx == vp.idx,
        vp.deep_view().input == vp.input@,
        vp.deep_view().vars.len() == vp.vars@.len(),
        forall|k: int|
            0 <= k < vp.vars@.len() ==> #[trigger] vp.deep_view().vars[k] == vp.vars@[k]@,
        vp.deep_view().collected == vp.collected.deep_view(),
        vp.deep_view().set_vars == vp.set_vars.deep_view(),
{
}

}
