//! What the terminal shows of a model.

use vstd::prelude::*;

use super::keymap;
use super::keymap::{confirm_force_hints, confirm_kill_hints, create_hints, normal_bindings};
use super::model;
use super::model::{
    resolution_map, EditState, EditView, Mode, ModeView, Model, ModelView, SelectionView, Var,
    VarPromptState, VarPromptView, VarView, VarsState, VarsView,
};
use super::template;
use super::template::{attachments_for_var, filter_rank, resolve_template, VarMap};
use super::update;
use crate::age;
use crate::age::age_change_delay;
use crate::chrome;
use crate::chrome::{
    clip, confirm_kill_label, create_input_label, error_label, push_padded, push_spaces,
    render_bar, BarAlign, Label, LabelView, CLEAR_SCREEN, LINE_END, SGR_AMBER_DIM, SGR_BAR_BG,
    SGR_RESET,
};
use crate::session::{Session, SessionView};
use crate::table;
use crate::table::{render_sessions, viewport, CHROME_LINES, COL_GAP, COL_NAME};
use crate::text;
use crate::text::{decimal_of, framed};

verus! {

// -- Bottom bar labels --

/// The footer rows of the normal-mode bindings.
pub open spec fn normal_footer() -> Seq<(Seq<char>, Seq<char>)> {
    keymap::binding_table().map_values(
        |b: keymap::BindingView| (b.label, b.description),
    )
}

fn normal_bindings_label() -> (label: Label)
    ensures
        label.deep_view() == chrome::blank().bindings(normal_footer()),
{
    let bindings = normal_bindings();
    let mut rows: Vec<(&'static str, &'static str)> = Vec::new();
    let ghost all = normal_footer();
    for i in 0..bindings.len()
        invariant
            all == normal_footer(),
            bindings.deep_view() == keymap::binding_table(),
            rows.deep_view() == all.take(i as int),
    {
        let ghost before = rows.deep_view();
        rows.push((bindings[i].label, bindings[i].description));
        proof {
            let b = bindings.deep_view()[i as int];
            assert(all[i as int] == (b.label, b.description));
            assert(rows.deep_view() =~= before.push(all[i as int]));
            assert(all.take(i + 1) =~= all.take(i as int).push(all[i as int]));
        }
    }
    assert(all.take(all.len() as int) =~= all);
    let mut label = Label::new();
    label.push_bindings(&rows);
    label
}

/// The prompt before a session is taken over from another terminal.
pub open spec fn confirm_force(name: Seq<char>) -> LabelView {
    chrome::blank().key(chrome::quoted(name)).plain(
        " already attached. force-attach?   ("@,
    ).hints(seq![("y"@, "force"@), ("n"@, "cancel"@)]).plain(")"@)
}

fn confirm_force_label(name: &str) -> (label: Label)
    ensures
        label.deep_view() == confirm_force(name@),
{
    let mut label = Label::new();
    label.push_key(framed("\"", name, "\"").as_str());
    label.push_plain(" already attached. force-attach?   (");
    label.push_hints(&confirm_force_hints());
    label.push_plain(")");
    label
}

impl VarPromptView {
    /// The variable that is being asked for.
    pub open spec fn asked(self) -> Seq<char> {
        if 0 <= self.idx < self.vars.len() {
            self.vars[self.idx]
        } else {
            Seq::empty()
        }
    }

    /// The values known so far: those that were set before, those collected,
    /// and the one being typed. A variable still to come has none.
    pub open spec fn known(self) -> Map<Seq<char>, Seq<char>> {
        let before = template::map_of(self.set_vars + self.collected);
        if self.input.len() > 0 {
            before.insert(self.asked(), self.input)
        } else {
            before
        }
    }

    /// The name that the new session would have as things stand.
    pub open spec fn preview(self) -> Seq<char> {
        template::resolved(self.name, self.known())
    }
}

/// The prompt for the value of a variable that a new session's name needs.
pub open spec fn var_prompt(vp: VarPromptView) -> LabelView {
    chrome::blank().plain("value of "@).key(vp.asked()).plain(": "@).key(vp.input).plain(
        "_   ["@,
    ).key(vp.preview()).plain("]   ("@).hints(seq![("ret"@, "next"@), ("esc"@, "cancel"@)]).plain(
        ")"@,
    )
}

/// Adds `pairs` to a map that was made from `before`.
fn insert_all(
    map: &mut VarMap,
    pairs: &Vec<(String, String)>,
    Ghost(before): Ghost<Seq<(Seq<char>, Seq<char>)>>,
)
    requires
        old(map)@ == template::map_of(before),
    ensures
        final(map)@ == template::map_of(before + pairs.deep_view()),
{
    let ghost all = pairs.deep_view();
    assert(before + all.take(0) =~= before);
    for i in 0..pairs.len()
        invariant
            all == pairs.deep_view(),
            map@ == template::map_of(before + all.take(i as int)),
    {
        proof {
            let so_far = before + all.take(i as int);
            assert(all[i as int] == (pairs@[i as int].0@, pairs@[i as int].1@));
            assert(before + all.take(i + 1) =~= so_far.push(all[i as int]));
            assert(so_far.push(all[i as int]).drop_last() =~= so_far);
        }
        map.insert(pairs[i].0.as_str(), pairs[i].1.as_str());
    }
    assert(all.take(all.len() as int) =~= all);
}

/// The name that the new session would have as things stand.
pub fn prompt_preview(vp: &VarPromptState) -> (name: String)
    ensures
        name@ == vp.deep_view().preview(),
{
    let mut known = VarMap::new();
    assert(known@ =~= template::map_of(Seq::empty()));
    insert_all(&mut known, &vp.set_vars, Ghost(Seq::empty()));
    assert(Seq::empty() + vp.set_vars.deep_view() =~= vp.set_vars.deep_view());
    insert_all(&mut known, &vp.collected, Ghost(vp.set_vars.deep_view()));
    if !vp.input.as_str().is_empty() {
        if vp.idx < vp.vars.len() {
            known.insert(vp.vars[vp.idx].as_str(), vp.input.as_str());
        } else {
            let none = String::new();
            assert(none@ =~= Seq::empty());
            known.insert(none.as_str(), vp.input.as_str());
        }
    }
    resolve_template(vp.name.as_str(), &known)
}

fn var_prompt_label(vp: &VarPromptState) -> (label: Label)
    ensures
        label.deep_view() == var_prompt(vp.deep_view()),
{
    let mut label = Label::new();
    label.push_plain("value of ");
    if vp.idx < vp.vars.len() {
        label.push_key(vp.vars[vp.idx].as_str());
    } else {
        let none = String::new();
        assert(none@ =~= Seq::empty());
        label.push_key(none.as_str());
    }
    label.push_plain(": ");
    label.push_key(vp.input.as_str());
    label.push_plain("_   [");
    label.push_key(prompt_preview(vp).as_str());
    label.push_plain("]   (");
    let hints = vec![("ret", "next"), ("esc", "cancel")];
    assert(hints.deep_view() =~= seq![("ret"@, "next"@), ("esc"@, "cancel"@)]);
    label.push_hints(&hints);
    label.push_plain(")");
    label
}

// -- The template-variable screen --

/// How a row is set off from the others.
#[derive(Clone, Copy, PartialEq, Eq, Structural)]
pub enum Look {
    Plain,
    Selected,
    Dim,
}

/// One row of the template-variable screen.
pub struct Row {
    pub text: String,
    pub look: Look,
}

/// What a `Row` holds.
#[verifier::ext_equal]
pub struct RowView {
    pub text: Seq<char>,
    pub look: Look,
}

impl DeepView for Row {
    type V = RowView;

    open spec fn deep_view(&self) -> RowView {
        RowView { text: self.text@, look: self.look }
    }
}

/// The screen line of a row.
pub open spec fn row_line(row: RowView, width: int) -> Seq<char> {
    match row.look {
        Look::Plain => table::list_line(row.text, false, width),
        Look::Selected => table::list_line(row.text, true, width),
        Look::Dim => SGR_AMBER_DIM@ + chrome::padded(chrome::clipped(row.text, width), width)
            + SGR_RESET@ + LINE_END@,
    }
}

/// The screen lines of the rows `[from, to)`.
pub open spec fn row_lines(rows: Seq<RowView>, from: int, to: int, width: int) -> Seq<char>
    decreases to - from,
{
    if to <= from {
        Seq::empty()
    } else {
        row_lines(rows, from, to - 1, width) + row_line(rows[to - 1], width)
    }
}

fn push_row_lines(out: &mut String, rows: &Vec<Row>, from: usize, to: usize, width: u16)
    requires
        from <= to <= rows@.len(),
    ensures
        final(out)@ == old(out)@ + row_lines(
            rows.deep_view(),
            from as int,
            to as int,
            width as int,
        ),
{
    let ghost before = out@;
    let ghost all = rows.deep_view();
    assert(before + row_lines(all, from as int, from as int, width as int) =~= before);
    for i in from..to
        invariant
            from <= to <= rows@.len(),
            all == rows.deep_view(),
            out@ == before + row_lines(all, from as int, i as int, width as int),
    {
        let row = &rows[i];
        let ghost so_far = out@;
        assert(all[i as int] == row.deep_view());
        match row.look {
            Look::Plain => table::push_list_line(out, row.text.as_str(), false, width),
            Look::Selected => table::push_list_line(out, row.text.as_str(), true, width),
            Look::Dim => {
                let text = clip(row.text.as_str(), width as usize);
                out.append(SGR_AMBER_DIM);
                push_padded(out, text.as_str(), width as usize);
                out.append(SGR_RESET);
                out.append(LINE_END);
            },
        }
        assert(out@ =~= so_far + row_line(all[i as int], width as int));
        assert(out@ =~= before + row_lines(all, from as int, i + 1, width as int));
    }
}

/// The arrow in front of the selected row.
pub open spec fn arrow(selected: bool) -> Seq<char> {
    if selected {
        " >"@
    } else {
        "  "@
    }
}

fn arrow_text(selected: bool) -> (out: &'static str)
    ensures
        out@ == arrow(selected),
{
    if selected {
        " >"
    } else {
        "  "
    }
}

/// A variable's row: its name, and its value or `(unset)`.
pub open spec fn var_row(v: VarView, selected: bool, name_width: int) -> RowView {
    RowView {
        text: arrow(selected) + chrome::padded(v.name, name_width) + chrome::spaces(COL_GAP as int)
            + (if v.unset {
            "(unset)"@
        } else {
            v.value
        }),
        look: if selected {
            Look::Selected
        } else if v.unset {
            Look::Dim
        } else {
            Look::Plain
        },
    }
}

/// The rows of the variables, the one under the cursor selected.
pub open spec fn var_rows(vs: VarsView) -> Seq<RowView> {
    Seq::new(
        vs.vars.len(),
        |i: int|
            var_row(
                vs.vars[i],
                i == vs.selected,
                table::name_width(model::var_names(vs.vars)),
            ),
    )
}

/// The rows of the candidate values, the highlighted one selected.
pub open spec fn candidate_rows(edit: EditView) -> Seq<RowView> {
    Seq::new(
        edit.shown().len(),
        |i: int|
            RowView {
                text: arrow(i == edit.highlight) + edit.shown()[i],
                look: if i == edit.highlight {
                    Look::Selected
                } else {
                    Look::Plain
                },
            },
    )
}

/// The values that the preview resolves templates against: the set rows, and
/// while a value is being picked, that value for the variable under the
/// cursor.
pub open spec fn preview_values(vs: VarsView) -> Map<Seq<char>, Seq<char>> {
    let values = model::resolution(vs.vars);
    match (vs.edit, vs.selected_name()) {
        (Some(edit), Some(name)) => values.insert(name, update::applied_value(edit)),
        _ => values,
    }
}

/// The attachments that the variable under the cursor governs: the session
/// that each is on, and what its template resolves to.
pub open spec fn preview_rows(vs: VarsView, sessions: Seq<SessionView>) -> Seq<RowView> {
    match vs.selected_name() {
        Some(name) => template::governed(sessions, name).map_values(
            |g: template::GovernedView|
                RowView {
                    text: "    "@ + g.session + " -> "@ + template::resolved(
                        g.template,
                        preview_values(vs),
                    ),
                    look: Look::Dim,
                },
        ),
        None => Seq::empty(),
    }
}

/// The rows of the list: variables, or candidate values while one is picked.
pub open spec fn list_rows(vs: VarsView) -> Seq<RowView> {
    match vs.edit {
        Some(edit) => candidate_rows(edit),
        None => var_rows(vs),
    }
}

/// The row of the list that stays on screen.
pub open spec fn list_focus(vs: VarsView) -> int {
    match vs.edit {
        Some(edit) => edit.highlight,
        None => vs.selected,
    }
}

/// The title of the template-variable screen.
pub open spec fn vars_title(n: nat) -> LabelView {
    chrome::blank().key(
        "shpool ("@ + text::decimal(n) + (if n == 1 {
            " variable)"@
        } else {
            " variables)"@
        }),
    )
}

/// The heading of the list.
pub open spec fn vars_heading(vs: VarsView, width: int) -> Seq<char> {
    let text = "  "@ + chrome::padded(
        COL_NAME@,
        table::name_width(model::var_names(vs.vars)),
    ) + chrome::spaces(COL_GAP as int) + "value"@;
    SGR_BAR_BG@ + SGR_AMBER_DIM@ + chrome::padded(chrome::clipped(text, width), width)
        + SGR_RESET@ + LINE_END@
}

/// The bottom bar of the template-variable screen.
pub open spec fn vars_label(vs: VarsView) -> LabelView {
    match vs.edit {
        Some(edit) => chrome::blank().plain("set "@).key(
            match vs.selected_name() {
                Some(name) => name,
                None => Seq::empty(),
            },
        ).plain(": "@).key(edit.field).plain("_   ("@).hints(
            seq![("ret"@, "set"@), ("esc"@, "cancel"@)],
        ).plain(")"@),
        None => chrome::blank().bindings(
            seq![("j"@, "down"@), ("k"@, "up"@), ("ret"@, "edit"@), ("q"@, "back"@)],
        ),
    }
}

/// The list and, below it, as much of the preview as fits.
pub open spec fn vars_list(
    vs: VarsView,
    sessions: Seq<SessionView>,
    width: int,
    height: int,
) -> Seq<char> {
    let rows = list_rows(vs);
    let preview = preview_rows(vs, sessions);
    let fit = table::rows_that_fit(height);
    let (start, end) = table::window(rows.len() as int, list_focus(vs), fit);
    let room = fit - (end - start);
    row_lines(rows, start, end, width) + row_lines(
        preview,
        0,
        if preview.len() < room {
            preview.len() as int
        } else {
            room
        },
        width,
    )
}

/// The whole template-variable screen.
pub open spec fn vars_screen(
    vs: VarsView,
    sessions: Seq<SessionView>,
    bottom: LabelView,
    width: int,
    height: int,
) -> Seq<char> {
    CLEAR_SCREEN@ + chrome::bar(width, vars_title(vs.vars.len()), BarAlign::Center) + vars_heading(
        vs,
        width,
    ) + vars_list(vs, sessions, width, height) + chrome::bar(width, bottom, BarAlign::Left)
}

fn widest_var_name(vars: &Vec<Var>) -> (width: usize)
    ensures
        width == table::name_width(model::var_names(vars.deep_view())),
{
    let ghost names = model::var_names(vars.deep_view());
    let mut width: usize = COL_NAME.unicode_len();
    assert(names.take(0) =~= Seq::empty());
    for i in 0..vars.len()
        invariant
            names == model::var_names(vars.deep_view()),
            width == table::name_width(names.take(i as int)),
    {
        assert(names.take(i + 1).drop_last() =~= names.take(i as int));
        assert(names[i as int] == vars@[i as int].name@);
        let n: usize = vars[i].name.as_str().unicode_len();
        if width < n {
            width = n;
        }
    }
    assert(names.take(names.len() as int) =~= names);
    width
}

fn var_row_of(v: &Var, selected: bool, name_width: usize) -> (row: Row)
    ensures
        row.deep_view() == var_row(v.deep_view(), selected, name_width as int),
{
    let mut text = String::new();
    text.append(arrow_text(selected));
    push_padded(&mut text, v.name.as_str(), name_width);
    push_spaces(&mut text, COL_GAP);
    if v.unset {
        text.append("(unset)");
    } else {
        text.append(v.value.as_str());
    }
    let look = if selected {
        Look::Selected
    } else if v.unset {
        Look::Dim
    } else {
        Look::Plain
    };
    let row = Row { text, look };
    assert(row.text@ =~= var_row(v.deep_view(), selected, name_width as int).text);
    row
}

fn rows_of_vars(vs: &VarsState) -> (rows: Vec<Row>)
    ensures
        rows.deep_view() == var_rows(vs.deep_view()),
{
    let name_width: usize = widest_var_name(&vs.vars);
    let mut rows: Vec<Row> = Vec::new();
    let ghost all = var_rows(vs.deep_view());
    for i in 0..vs.vars.len()
        invariant
            all == var_rows(vs.deep_view()),
            name_width == table::name_width(model::var_names(vs.vars.deep_view())),
            rows.deep_view() == all.take(i as int),
    {
        let ghost before = rows.deep_view();
        rows.push(var_row_of(&vs.vars[i], i == vs.selected, name_width));
        proof {
            assert(vs.deep_view().vars[i as int] == vs.vars@[i as int].deep_view());
            assert(rows.deep_view() =~= before.push(all[i as int]));
            assert(all.take(i + 1) =~= all.take(i as int).push(all[i as int]));
        }
    }
    assert(all.take(all.len() as int) =~= all);
    rows
}

fn rows_of_candidates(edit: &EditState) -> (rows: Vec<Row>)
    ensures
        rows.deep_view() == candidate_rows(edit.deep_view()),
{
    let shown = filter_rank(&edit.candidates, edit.filter.as_str());
    let mut rows: Vec<Row> = Vec::new();
    let ghost all = candidate_rows(edit.deep_view());
    for i in 0..shown.len()
        invariant
            all == candidate_rows(edit.deep_view()),
            shown.deep_view() == edit.deep_view().shown(),
            rows.deep_view() == all.take(i as int),
    {
        let selected = i == edit.highlight;
        let mut text = String::new();
        text.append(arrow_text(selected));
        text.append(shown[i].as_str());
        let look = if selected {
            Look::Selected
        } else {
            Look::Plain
        };
        let ghost before = rows.deep_view();
        proof {
            assert(shown.deep_view()[i as int] == shown@[i as int]@);
            assert(text@ =~= all[i as int].text);
        }
        rows.push(Row { text, look });
        proof {
            assert(rows.deep_view() =~= before.push(all[i as int]));
            assert(all.take(i + 1) =~= all.take(i as int).push(all[i as int]));
        }
    }
    assert(all.take(all.len() as int) =~= all);
    rows
}

/// The value that Enter would apply.
fn pending_value(edit: &EditState) -> (value: String)
    ensures
        value@ == update::applied_value(edit.deep_view()),
{
    if !edit.field.as_str().is_empty() {
        edit.field.clone()
    } else {
        let shown = filter_rank(&edit.candidates, edit.filter.as_str());
        if edit.highlight < shown.len() {
            assert(shown.deep_view()[edit.highlight as int] == shown@[edit.highlight as int]@);
            shown[edit.highlight].clone()
        } else {
            let none = String::new();
            assert(none@ =~= Seq::empty());
            none
        }
    }
}

fn rows_of_preview(vs: &VarsState, sessions: &Vec<Session>) -> (rows: Vec<Row>)
    ensures
        rows.deep_view() == preview_rows(vs.deep_view(), sessions.deep_view()),
{
    let mut rows: Vec<Row> = Vec::new();
    if vs.selected >= vs.vars.len() {
        assert(rows.deep_view() =~= Seq::empty());
        return rows;
    }
    let name = &vs.vars[vs.selected].name;
    assert(vs.deep_view().selected_name() == Some(name@));
    let mut values = resolution_map(&vs.vars);
    if let Some(edit) = &vs.edit {
        values.insert(name.as_str(), pending_value(edit).as_str());
    }
    let hits = attachments_for_var(sessions, name.as_str());
    let ghost all = preview_rows(vs.deep_view(), sessions.deep_view());
    let ghost governed = hits.deep_view();
    for i in 0..hits.len()
        invariant
            governed == hits.deep_view(),
            governed == template::governed(sessions.deep_view(), name@),
            vs.deep_view().selected_name() == Some(name@),
            all == preview_rows(vs.deep_view(), sessions.deep_view()),
            values@ == preview_values(vs.deep_view()),
            rows.deep_view() == all.take(i as int),
    {
        let target = resolve_template(hits[i].template, &values);
        let mut text = String::new();
        text.append("    ");
        text.append(hits[i].session);
        text.append(" -> ");
        text.append(target.as_str());
        let ghost before = rows.deep_view();
        proof {
            assert(governed[i as int] == hits@[i as int].deep_view());
            assert(text@ =~= all[i as int].text);
        }
        rows.push(Row { text, look: Look::Dim });
        proof {
            assert(rows.deep_view() =~= before.push(all[i as int]));
            assert(all.take(i + 1) =~= all.take(i as int).push(all[i as int]));
        }
    }
    assert(all.take(all.len() as int) =~= all);
    rows
}

fn vars_bottom_label(vs: &VarsState) -> (label: Label)
    ensures
        label.deep_view() == vars_label(vs.deep_view()),
{
    let mut label = Label::new();
    match &vs.edit {
        Some(edit) => {
            label.push_plain("set ");
            if vs.selected < vs.vars.len() {
                label.push_key(vs.vars[vs.selected].name.as_str());
            } else {
                let none = String::new();
                assert(none@ =~= Seq::empty());
                label.push_key(none.as_str());
            }
            label.push_plain(": ");
            label.push_key(edit.field.as_str());
            label.push_plain("_   (");
            let hints = vec![("ret", "set"), ("esc", "cancel")];
            assert(hints.deep_view() =~= seq![("ret"@, "set"@), ("esc"@, "cancel"@)]);
            label.push_hints(&hints);
            label.push_plain(")");
        },
        None => {
            let rows = vec![("j", "down"), ("k", "up"), ("ret", "edit"), ("q", "back")];
            assert(rows.deep_view() =~= seq![
                ("j"@, "down"@),
                ("k"@, "up"@),
                ("ret"@, "edit"@),
                ("q"@, "back"@),
            ]);
            label.push_bindings(&rows);
        },
    }
    label
}

fn push_vars_top(out: &mut String, vs: &VarsState, width: u16)
    ensures
        final(out)@ == old(out)@ + (chrome::bar(
            width as int,
            vars_title(vs.deep_view().vars.len()),
            BarAlign::Center,
        ) + vars_heading(vs.deep_view(), width as int)),
{
    let ghost before = out@;
    let n: usize = vs.vars.len();
    let mut title = Label::new();
    title.push_key(
        framed(
            "shpool (",
            decimal_of(n as u64).as_str(),
            if n == 1 {
                " variable)"
            } else {
                " variables)"
            },
        ).as_str(),
    );
    render_bar(out, width, &title, BarAlign::Center);
    let mut heading = String::new();
    heading.append("  ");
    push_padded(&mut heading, COL_NAME, widest_var_name(&vs.vars));
    push_spaces(&mut heading, COL_GAP);
    heading.append("value");
    let heading = clip(heading.as_str(), width as usize);
    out.append(SGR_BAR_BG);
    out.append(SGR_AMBER_DIM);
    push_padded(out, heading.as_str(), width as usize);
    out.append(SGR_RESET);
    out.append(LINE_END);
    assert(out@ =~= before + (chrome::bar(
        width as int,
        vars_title(vs.deep_view().vars.len()),
        BarAlign::Center,
    ) + vars_heading(vs.deep_view(), width as int)));
}

fn push_vars_list(
    out: &mut String,
    vs: &VarsState,
    sessions: &Vec<Session>,
    width: u16,
    height: u16,
)
    ensures
        final(out)@ == old(out)@ + vars_list(
            vs.deep_view(),
            sessions.deep_view(),
            width as int,
            height as int,
        ),
{
    let ghost before = out@;
    let (rows, focus): (Vec<Row>, usize) = match &vs.edit {
        Some(edit) => (rows_of_candidates(edit), edit.highlight),
        None => (rows_of_vars(vs), vs.selected),
    };
    assert(rows.deep_view() == list_rows(vs.deep_view()));
    assert(focus == list_focus(vs.deep_view()));
    let preview = rows_of_preview(vs, sessions);
    let fit: usize = if (height as usize) > CHROME_LINES {
        height as usize - CHROME_LINES
    } else {
        0
    };
    let (start, end): (usize, usize) = viewport(rows.len(), focus, fit);
    push_row_lines(out, &rows, start, end, width);
    let room: usize = fit - (end - start);
    let shown: usize = if preview.len() < room {
        preview.len()
    } else {
        room
    };
    push_row_lines(out, &preview, 0, shown, width);
    assert(out@ =~= before + vars_list(
        vs.deep_view(),
        sessions.deep_view(),
        width as int,
        height as int,
    ));
}

/// Appends the whole template-variable screen.
fn render_vars(
    out: &mut String,
    vs: &VarsState,
    sessions: &Vec<Session>,
    bottom: &Label,
    width: u16,
    height: u16,
)
    ensures
        final(out)@ == old(out)@ + vars_screen(
            vs.deep_view(),
            sessions.deep_view(),
            bottom.deep_view(),
            width as int,
            height as int,
        ),
{
    let ghost before = out@;
    out.append(CLEAR_SCREEN);
    push_vars_top(out, vs, width);
    push_vars_list(out, vs, sessions, width, height);
    render_bar(out, width, bottom, BarAlign::Left);
    assert(out@ =~= before + vars_screen(
        vs.deep_view(),
        sessions.deep_view(),
        bottom.deep_view(),
        width as int,
        height as int,
    ));
}

// -- The frame --

/// The bottom bar. An error outranks what a mode has to say, except while a
/// new session's variables are asked for: there the prompt stays.
pub open spec fn bottom_label(m: ModelView) -> LabelView {
    match (m.mode, m.error) {
        (ModeView::CreateVarPrompt(vp), _) => var_prompt(vp),
        (_, Some(msg)) => chrome::error(msg),
        (ModeView::Normal, None) => chrome::blank().bindings(normal_footer()),
        (ModeView::CreateInput(input), None) => chrome::create_input(
            input,
            seq![("ret"@, "create"@), ("esc"@, "cancel"@)],
        ),
        (ModeView::ConfirmKill(name), None) => chrome::confirm_kill(
            name,
            seq![("y"@, "confirm"@), ("n"@, "cancel"@)],
        ),
        (ModeView::ConfirmForce(name), None) => confirm_force(name),
        (ModeView::Vars(vs), None) => vars_label(vs),
    }
}

/// The highlighted row, if there is one.
pub open spec fn highlighted(m: ModelView) -> Option<int> {
    match m.selection {
        SelectionView::At(i) => Some(i),
        _ => None,
    }
}

/// The whole frame at the time `now`.
pub open spec fn frame(m: ModelView, width: int, height: int, now: int) -> Seq<char> {
    match m.mode {
        ModeView::Vars(vs) => vars_screen(vs, m.sessions, bottom_label(m), width, height),
        _ => table::session_screen(
            m.sessions,
            highlighted(m),
            bottom_label(m),
            now,
            width,
            height,
        ),
    }
}

fn bottom_label_of(model: &Model) -> (label: Label)
    ensures
        label.deep_view() == bottom_label(model.deep_view()),
{
    if let Mode::CreateVarPrompt(vp) = &model.mode {
        return var_prompt_label(vp);
    }
    if let Some(msg) = &model.error {
        return error_label(msg.as_str());
    }
    match &model.mode {
        Mode::Normal => normal_bindings_label(),
        Mode::CreateInput(input) => create_input_label(input.as_str(), &create_hints()),
        Mode::ConfirmKill(name) => confirm_kill_label(name.as_str(), &confirm_kill_hints()),
        Mode::ConfirmForce(name) => confirm_force_label(name.as_str()),
        Mode::CreateVarPrompt(vp) => var_prompt_label(vp),
        Mode::Vars(vs) => vars_bottom_label(vs),
    }
}

/// Appends the frame that shows `model` on a terminal of `width` columns and
/// `height` lines. `now_ms` is the wall-clock time, which the relative-age
/// columns count from.
pub fn render(model: &Model, width: u16, height: u16, now_ms: u64, out: &mut String)
    ensures
        final(out)@ == old(out)@ + frame(
            model.deep_view(),
            width as int,
            height as int,
            now_ms as int,
        ),
{
    let bottom = bottom_label_of(model);
    match &model.mode {
        Mode::Vars(vs) => render_vars(out, vs, &model.sessions, &bottom, width, height),
        _ => render_sessions(
            out,
            &model.sessions,
            model.selected_index(),
            &bottom,
            now_ms,
            width,
            height,
        ),
    }
}

/// The two ages that a session's row shows.
pub open spec fn shown_ages(s: SessionView, now: int) -> (age::Age, age::Age) {
    (age::age(now, s.started as int), age::age(now, s.last_active() as int))
}

/// Every age on the screen reads the same at all times from `now` until
/// right before `until`.
pub open spec fn ages_hold(m: ModelView, now: int, until: int) -> bool {
    m.mode is Vars || forall|i: int, t: int|
        0 <= i < m.sessions.len() && now <= t < until ==> #[trigger] shown_ages(m.sessions[i], t)
            == shown_ages(m.sessions[i], now)
}

/// Some age on the screen reads differently at `then` than at `now`.
pub open spec fn some_age_changes(m: ModelView, now: int, then: int) -> bool {
    m.mode !is Vars && exists|i: int|
        0 <= i < m.sessions.len() && #[trigger] shown_ages(m.sessions[i], then) != shown_ages(
            m.sessions[i],
            now,
        )
}

/// The sooner of two delays; `None` is never.
fn sooner(a: Option<u64>, b: Option<u64>) -> (delay: Option<u64>)
    ensures
        delay == match (a, b) {
            (Some(x), Some(y)) => if x < y {
                Some(x)
            } else {
                Some(y)
            },
            (Some(x), None) => Some(x),
            (None, _) => b,
        },
{
    match (a, b) {
        (Some(x), Some(y)) => if x < y {
            Some(x)
        } else {
            Some(y)
        },
        (Some(x), None) => Some(x),
        (None, _) => b,
    }
}

/// How long from `now_ms` until the soonest age on the screen would next
/// change, so that an idle table can be drawn again right then. `None` if
/// none will: no session is listed, or the screen shows no ages.
pub fn next_render_delay_ms(model: &Model, now_ms: u64) -> (delay: Option<u64>)
    ensures
        match delay {
            Some(d) => d > 0 && now_ms + d <= u64::MAX && ages_hold(
                model.deep_view(),
                now_ms as int,
                now_ms + d,
            ) && some_age_changes(model.deep_view(), now_ms as int, now_ms + d),
            None => ages_hold(model.deep_view(), now_ms as int, u64::MAX + 1),
        },
{
    if let Mode::Vars(_) = &model.mode {
        return None;
    }
    let ghost all = model.deep_view().sessions;
    let ghost now = now_ms as int;
    let mut delay: Option<u64> = None;
    for i in 0..model.sessions.len()
        invariant
            all == model.deep_view().sessions,
            all.len() == model.sessions@.len(),
            now == now_ms,
            match delay {
                Some(d) => d > 0 && now + d <= u64::MAX && (exists|k: int|
                    0 <= k < i && #[trigger] shown_ages(all[k], now + d) != shown_ages(
                        all[k],
                        now,
                    )),
                None => true,
            },
            forall|k: int, t: int|
                0 <= k < i && now <= t < (match delay {
                    Some(d) => now + d,
                    None => u64::MAX + 1,
                }) ==> #[trigger] shown_ages(all[k], t) == shown_ages(all[k], now),
    {
        let s = &model.sessions[i];
        assert(all[i as int] == s.deep_view());
        let created = age_change_delay(now_ms, s.started_at_unix_ms);
        let active = age_change_delay(now_ms, s.last_active_unix_ms());
        let here = sooner(created, active);
        let ghost before = delay;
        delay = sooner(delay, here);
        proof {
            if delay is Some {
                let d = delay->0;
                if before == Some(d) {
                    let k = choose|k: int|
                        0 <= k < i && #[trigger] shown_ages(all[k], now + d) != shown_ages(
                            all[k],
                            now,
                        );
                    assert(shown_ages(all[k], now + d) != shown_ages(all[k], now));
                } else {
                    assert(shown_ages(all[i as int], now + d) != shown_ages(all[i as int], now));
                }
            }
        }
    }
    delay
}

// -- What the screen says --

proof fn footer_of(
    bindings: Seq<(Seq<char>, Seq<char>)>,
    so_far: Seq<char>,
    key: Seq<char>,
    what: Seq<char>,
) -> (longer: Seq<char>)
    requires
        chrome::shows(chrome::blank().bindings(bindings), so_far),
        chrome::is_plain(key) && chrome::is_plain(what),
    ensures
        longer == so_far + (if bindings.len() > 0 {
            "   "@
        } else {
            Seq::empty()
        }) + key + " "@ + what,
        chrome::shows(chrome::blank().bindings(bindings + seq![(key, what)]), longer),
{
    chrome::blank_labels_show_nothing();
    chrome::bindings_read(chrome::blank(), Seq::empty(), bindings, (key, what), so_far);
    so_far + (if bindings.len() > 0 {
        "   "@
    } else {
        Seq::empty()
    }) + key + " "@ + what
}

/// The first half of the footer, as bindings and as it reads.
spec fn front_keys() -> (Seq<(Seq<char>, Seq<char>)>, Seq<char>) {
    (
        seq![("j"@, "down"@), ("k"@, "up"@), ("spc"@, "attach"@), ("n"@, "new"@)],
        "j"@ + " "@ + "down"@ + "   "@ + "k"@ + " "@ + "up"@ + "   "@ + "spc"@ + " "@ + "attach"@
            + "   "@ + "n"@ + " "@ + "new"@,
    )
}

proof fn front_keys_read()
    ensures
        chrome::shows(chrome::blank().bindings(front_keys().0), front_keys().1),
{
    assert(chrome::is_plain("j"@) && chrome::is_plain("down"@)) by {
        reveal_strlit("j");
        reveal_strlit("down");
    }
    assert(chrome::is_plain("k"@) && chrome::is_plain("up"@)) by {
        reveal_strlit("k");
        reveal_strlit("up");
    }
    assert(chrome::is_plain("spc"@) && chrome::is_plain("attach"@)) by {
        reveal_strlit("spc");
        reveal_strlit("attach");
    }
    assert(chrome::is_plain("n"@) && chrome::is_plain("new"@)) by {
        reveal_strlit("n");
        reveal_strlit("new");
    }
    chrome::blank_labels_show_nothing();
    let none: Seq<(Seq<char>, Seq<char>)> = Seq::empty();
    let s0: Seq<char> = Seq::empty();
    assert(chrome::blank().bindings(none) == chrome::blank());
    let s1 = footer_of(none, s0, "j"@, "down"@);
    let b1 = none + seq![("j"@, "down"@)];
    let s2 = footer_of(b1, s1, "k"@, "up"@);
    let b2 = b1 + seq![("k"@, "up"@)];
    let s3 = footer_of(b2, s2, "spc"@, "attach"@);
    let b3 = b2 + seq![("spc"@, "attach"@)];
    let s4 = footer_of(b3, s3, "n"@, "new"@);
    let b4 = b3 + seq![("n"@, "new"@)];
    assert(front_keys().0 =~= b4);
    assert(s0 + s0 + "j"@ + " "@ + "down"@ =~= "j"@ + " "@ + "down"@);
}

proof fn all_keys_read()
    ensures
        chrome::shows(
            chrome::blank().bindings(
                front_keys().0 + seq![("d"@, "kill"@)] + seq![("D"@, "daemon"@)] + seq![
                    ("v"@, "vars"@),
                ] + seq![("q"@, "quit"@)],
            ),
            front_keys().1 + "   "@ + "d"@ + " "@ + "kill"@ + "   "@ + "D"@ + " "@ + "daemon"@
                + "   "@ + "v"@ + " "@ + "vars"@ + "   "@ + "q"@ + " "@ + "quit"@,
        ),
{
    assert(chrome::is_plain("d"@) && chrome::is_plain("kill"@)) by {
        reveal_strlit("d");
        reveal_strlit("kill");
    }
    assert(chrome::is_plain("D"@) && chrome::is_plain("daemon"@)) by {
        reveal_strlit("D");
        reveal_strlit("daemon");
    }
    assert(chrome::is_plain("v"@) && chrome::is_plain("vars"@)) by {
        reveal_strlit("v");
        reveal_strlit("vars");
    }
    assert(chrome::is_plain("q"@) && chrome::is_plain("quit"@)) by {
        reveal_strlit("q");
        reveal_strlit("quit");
    }
    front_keys_read();
    let b4 = front_keys().0;
    let s5 = footer_of(b4, front_keys().1, "d"@, "kill"@);
    let b5 = b4 + seq![("d"@, "kill"@)];
    let s6 = footer_of(b5, s5, "D"@, "daemon"@);
    let b6 = b5 + seq![("D"@, "daemon"@)];
    let s7 = footer_of(b6, s6, "v"@, "vars"@);
    let b7 = b6 + seq![("v"@, "vars"@)];
    let s8 = footer_of(b7, s7, "q"@, "quit"@);
}

/// Without a prompt or an error, the bottom bar lists the keys of the session
/// list and what they do.
#[verifier::rlimit(40)]
pub proof fn footer_lists_the_keys(m: ModelView)
    requires
        m.mode is Normal,
        m.error is None,
    ensures
        chrome::shows(
            bottom_label(m),
            "j"@ + " "@ + "down"@ + "   "@ + "k"@ + " "@ + "up"@ + "   "@ + "spc"@ + " "@
                + "attach"@ + "   "@ + "n"@ + " "@ + "new"@ + "   "@ + "d"@ + " "@ + "kill"@
                + "   "@ + "D"@ + " "@ + "daemon"@ + "   "@ + "v"@ + " "@ + "vars"@ + "   "@
                + "q"@ + " "@ + "quit"@,
        ),
{
    all_keys_read();
    assert(normal_footer() =~= front_keys().0 + seq![("d"@, "kill"@)] + seq![("D"@, "daemon"@)]
        + seq![("v"@, "vars"@)] + seq![("q"@, "quit"@)]);
}

/// While browsing the variables, too, the bottom bar lists the keys.
#[verifier::rlimit(40)]
pub proof fn variable_footer_lists_the_keys(m: ModelView, vs: VarsView)
    requires
        m.mode == ModeView::Vars(vs),
        vs.edit is None,
        m.error is None,
    ensures
        chrome::shows(
            bottom_label(m),
            "j"@ + " "@ + "down"@ + "   "@ + "k"@ + " "@ + "up"@ + "   "@ + "ret"@ + " "@ + "edit"@
                + "   "@ + "q"@ + " "@ + "back"@,
        ),
{
    assert(chrome::is_plain("j"@)) by {
        reveal_strlit("j");
    }
    assert(chrome::is_plain("down"@)) by {
        reveal_strlit("down");
    }
    assert(chrome::is_plain("k"@)) by {
        reveal_strlit("k");
    }
    assert(chrome::is_plain("up"@)) by {
        reveal_strlit("up");
    }
    assert(chrome::is_plain("ret"@)) by {
        reveal_strlit("ret");
    }
    assert(chrome::is_plain("edit"@)) by {
        reveal_strlit("edit");
    }
    assert(chrome::is_plain("q"@)) by {
        reveal_strlit("q");
    }
    assert(chrome::is_plain("back"@)) by {
        reveal_strlit("back");
    }
    chrome::blank_labels_show_nothing();
    let none: Seq<(Seq<char>, Seq<char>)> = Seq::empty();
    let s0: Seq<char> = Seq::empty();
    assert(chrome::blank().bindings(none) == chrome::blank());
    let s1 = footer_of(none, s0, "j"@, "down"@);
    let b1 = none + seq![("j"@, "down"@)];
    let s2 = footer_of(b1, s1, "k"@, "up"@);
    let b2 = b1 + seq![("k"@, "up"@)];
    let s3 = footer_of(b2, s2, "ret"@, "edit"@);
    let b3 = b2 + seq![("ret"@, "edit"@)];
    let s4 = footer_of(b3, s3, "q"@, "back"@);
    let b4 = b3 + seq![("q"@, "back"@)];
    assert(seq![("j"@, "down"@), ("k"@, "up"@), ("ret"@, "edit"@), ("q"@, "back"@)] =~= b4);
    assert(s0 + s0 + "j"@ + " "@ + "down"@ =~= "j"@ + " "@ + "down"@);
}

/// An error takes the place of whatever else the bottom bar would say, but
/// for the prompt for a variable's value.
pub proof fn errors_are_shown(m: ModelView, msg: Seq<char>)
    requires
        m.error == Some(msg),
        m.mode !is CreateVarPrompt,
        chrome::is_plain(msg),
    ensures
        chrome::shows(bottom_label(m), "! "@ + msg),
{
    chrome::errors_read(msg);
}

/// Each prompt says what it is about, and which keys answer it.
#[verifier::rlimit(40)]
pub proof fn prompts_say_what_they_are_about(m: ModelView, about: Seq<char>)
    requires
        m.error is None,
        chrome::is_plain(about),
    ensures
        m.mode == ModeView::CreateInput(about) ==> chrome::shows(
            bottom_label(m),
            "new session: "@ + about + "_   ("@ + "ret"@ + ": "@ + "create"@ + ", "@ + "esc"@
                + ": "@ + "cancel"@ + ")"@,
        ),
        m.mode == ModeView::ConfirmKill(about) ==> chrome::shows(
            bottom_label(m),
            "kill "@ + ("\""@ + about + "\""@) + "?   ("@ + "y"@ + ": "@ + "confirm"@ + ", "@
                + "n"@ + ": "@ + "cancel"@ + ")"@,
        ),
        m.mode == ModeView::ConfirmForce(about) ==> chrome::shows(
            bottom_label(m),
            ("\""@ + about + "\""@) + " already attached. force-attach?   ("@ + "y"@ + ": "@
                + "force"@ + ", "@ + "n"@ + ": "@ + "cancel"@ + ")"@,
        ),
{
    reveal_strlit("ret");
    reveal_strlit("create");
    reveal_strlit("esc");
    reveal_strlit("cancel");
    reveal_strlit("y");
    reveal_strlit("confirm");
    reveal_strlit("force");
    reveal_strlit("n");
    chrome::create_prompt_reads(about, ("ret"@, "create"@), ("esc"@, "cancel"@));
    chrome::kill_prompt_reads(about, ("y"@, "confirm"@), ("n"@, "cancel"@));
    reveal_strlit("\"");
    reveal_strlit(" already attached. force-attach?   (");
    reveal_strlit(")");
    let q = "\""@ + about + "\""@;
    let none: Seq<char> = Seq::empty();
    let mid = " already attached. force-attach?   ("@;
    assert(chrome::is_plain(q));
    chrome::blank_labels_show_nothing();
    chrome::labels_show_what_is_added(chrome::blank(), none, q);
    assert(none + q =~= q);
    let l1 = chrome::blank().key(q);
    chrome::labels_show_what_is_added(l1, q, mid);
    let l2 = l1.plain(mid);
    chrome::hints_read(l2, q + mid, ("y"@, "force"@), ("n"@, "cancel"@));
    let l3 = l2.hints(seq![("y"@, "force"@), ("n"@, "cancel"@)]);
    chrome::labels_show_what_is_added(
        l3,
        q + mid + "y"@ + ": "@ + "force"@ + ", "@ + "n"@ + ": "@ + "cancel"@,
        ")"@,
    );
}

/// The prompt for a variable's value names the variable, shows what has been
/// typed, and what the new session would be called. No error hides it.
#[verifier::rlimit(40)]
pub proof fn variable_prompt_says_what_it_asks(m: ModelView, vp: VarPromptView)
    requires
        m.mode == ModeView::CreateVarPrompt(vp),
        0 <= vp.idx < vp.vars.len(),
        chrome::is_plain(vp.vars[vp.idx]),
        chrome::is_plain(vp.input),
        chrome::is_plain(vp.preview()),
    ensures
        chrome::shows(
            bottom_label(m),
            "value of "@ + vp.vars[vp.idx] + ": "@ + vp.input + "_   ["@ + vp.preview() + "]   ("@
                + "ret"@ + ": "@ + "next"@ + ", "@ + "esc"@ + ": "@ + "cancel"@ + ")"@,
        ),
{
    reveal_strlit("value of ");
    reveal_strlit(": ");
    reveal_strlit("_   [");
    reveal_strlit("]   (");
    reveal_strlit("ret");
    reveal_strlit("next");
    reveal_strlit("esc");
    reveal_strlit("cancel");
    reveal_strlit(")");
    let none: Seq<char> = Seq::empty();
    let var = vp.vars[vp.idx];
    chrome::blank_labels_show_nothing();
    chrome::labels_show_what_is_added(chrome::blank(), none, "value of "@);
    assert(none + "value of "@ =~= "value of "@);
    let l1 = chrome::blank().plain("value of "@);
    let t1 = "value of "@;
    chrome::labels_show_what_is_added(l1, t1, var);
    let l2 = l1.key(var);
    let t2 = t1 + var;
    chrome::labels_show_what_is_added(l2, t2, ": "@);
    let l3 = l2.plain(": "@);
    let t3 = t2 + ": "@;
    chrome::labels_show_what_is_added(l3, t3, vp.input);
    let l4 = l3.key(vp.input);
    let t4 = t3 + vp.input;
    chrome::labels_show_what_is_added(l4, t4, "_   ["@);
    let l5 = l4.plain("_   ["@);
    let t5 = t4 + "_   ["@;
    chrome::labels_show_what_is_added(l5, t5, vp.preview());
    let l6 = l5.key(vp.preview());
    let t6 = t5 + vp.preview();
    chrome::labels_show_what_is_added(l6, t6, "]   ("@);
    let l7 = l6.plain("]   ("@);
    let t7 = t6 + "]   ("@;
    chrome::hints_read(l7, t7, ("ret"@, "next"@), ("esc"@, "cancel"@));
    let l8 = l7.hints(seq![("ret"@, "next"@), ("esc"@, "cancel"@)]);
    chrome::labels_show_what_is_added(
        l8,
        t7 + "ret"@ + ": "@ + "next"@ + ", "@ + "esc"@ + ": "@ + "cancel"@,
        ")"@,
    );
}

/// The value selector names the variable that it is for, and shows what stands
/// in its field.
#[verifier::rlimit(40)]
pub proof fn selector_says_what_it_sets(m: ModelView, vs: VarsView, edit: EditView)
    requires
        m.mode == ModeView::Vars(vs),
        vs.edit == Some(edit),
        m.error is None,
        0 <= vs.selected < vs.vars.len(),
        chrome::is_plain(vs.vars[vs.selected].name),
        chrome::is_plain(edit.field),
    ensures
        chrome::shows(
            bottom_label(m),
            "set "@ + vs.vars[vs.selected].name + ": "@ + edit.field + "_   ("@ + "ret"@ + ": "@
                + "set"@ + ", "@ + "esc"@ + ": "@ + "cancel"@ + ")"@,
        ),
{
    reveal_strlit("set ");
    reveal_strlit(": ");
    reveal_strlit("_   (");
    reveal_strlit("ret");
    reveal_strlit("set");
    reveal_strlit("esc");
    reveal_strlit("cancel");
    reveal_strlit(")");
    let none: Seq<char> = Seq::empty();
    let var = vs.vars[vs.selected].name;
    chrome::blank_labels_show_nothing();
    chrome::labels_show_what_is_added(chrome::blank(), none, "set "@);
    assert(none + "set "@ =~= "set "@);
    let l1 = chrome::blank().plain("set "@);
    let t1 = "set "@;
    chrome::labels_show_what_is_added(l1, t1, var);
    let l2 = l1.key(var);
    let t2 = t1 + var;
    chrome::labels_show_what_is_added(l2, t2, ": "@);
    let l3 = l2.plain(": "@);
    let t3 = t2 + ": "@;
    chrome::labels_show_what_is_added(l3, t3, edit.field);
    let l4 = l3.key(edit.field);
    let t4 = t3 + edit.field;
    chrome::labels_show_what_is_added(l4, t4, "_   ("@);
    let l5 = l4.plain("_   ("@);
    let t5 = t4 + "_   ("@;
    chrome::hints_read(l5, t5, ("ret"@, "set"@), ("esc"@, "cancel"@));
    let l6 = l5.hints(seq![("ret"@, "set"@), ("esc"@, "cancel"@)]);
    chrome::labels_show_what_is_added(
        l6,
        t5 + "ret"@ + ": "@ + "set"@ + ", "@ + "esc"@ + ": "@ + "cancel"@,
        ")"@,
    );
}

/// The name that a prompt previews is the new session's template with the
/// values that there are: the one being typed for the variable that is being
/// asked for; for every other variable, the last one that was given, or else
/// the one that it had.
#[verifier::rlimit(40)]
pub proof fn preview_resolves_what_is_known(vp: VarPromptView, var: Seq<char>, i: int)
    requires
        0 <= vp.idx < vp.vars.len(),
    ensures
        vp.preview() == template::resolved(vp.name, vp.known()),
        vp.input.len() > 0 && var == vp.vars[vp.idx] ==> vp.known().contains_key(var)
            && vp.known()[var] == vp.input,
        !(vp.input.len() > 0 && var == vp.vars[vp.idx]) && 0 <= i < vp.collected.len()
            && vp.collected[i].0 == var && (forall|j: int|
            i < j < vp.collected.len() ==> (#[trigger] vp.collected[j]).0 != var)
            ==> vp.known().contains_key(var) && vp.known()[var] == vp.collected[i].1,
        !(vp.input.len() > 0 && var == vp.vars[vp.idx]) && (forall|j: int|
            0 <= j < vp.collected.len() ==> (#[trigger] vp.collected[j]).0 != var) && 0 <= i
            < vp.set_vars.len() && vp.set_vars[i].0 == var && (forall|j: int|
            i < j < vp.set_vars.len() ==> (#[trigger] vp.set_vars[j]).0 != var)
            ==> vp.known().contains_key(var) && vp.known()[var] == vp.set_vars[i].1,
{
    let n = vp.set_vars.len();
    let all = vp.set_vars + vp.collected;
    if 0 <= i < vp.collected.len() && vp.collected[i].0 == var && (forall|j: int|
        i < j < vp.collected.len() ==> (#[trigger] vp.collected[j]).0 != var) {
        assert(all[n + i] == vp.collected[i]);
        assert forall|j: int| n + i < j < all.len() implies (#[trigger] all[j]).0 != all[n
            + i].0 by {
            assert(all[j] == vp.collected[j - n]);
        }
        template::last_value_counts(all, n + i);
    }
    if (forall|j: int| 0 <= j < vp.collected.len() ==> (#[trigger] vp.collected[j]).0 != var) && 0
        <= i < n && vp.set_vars[i].0 == var && (forall|j: int|
        i < j < n ==> (#[trigger] vp.set_vars[j]).0 != var) {
        assert(all[i] == vp.set_vars[i]);
        assert forall|j: int| i < j < all.len() implies (#[trigger] all[j]).0 != all[i].0 by {
            if j < n {
                assert(all[j] == vp.set_vars[j]);
            } else {
                assert(all[j] == vp.collected[j - n]);
            }
        }
        template::last_value_counts(all, i);
    }
}

/// A variable without any value has none in the preview either: its token
/// stays.
pub proof fn preview_leaves_unknown_variables(vp: VarPromptView, var: Seq<char>)
    requires
        0 <= vp.idx < vp.vars.len(),
        vp.known().contains_key(var),
    ensures
        (vp.input.len() > 0 && var == vp.vars[vp.idx]) || (exists|j: int|
            0 <= j < vp.collected.len() && (#[trigger] vp.collected[j]).0 == var) || (exists|
            j: int,
        |
            0 <= j < vp.set_vars.len() && (#[trigger] vp.set_vars[j]).0 == var),
{
    let n = vp.set_vars.len();
    let all = vp.set_vars + vp.collected;
    if !(vp.input.len() > 0 && var == vp.vars[vp.idx]) {
        template::values_are_given(all, var);
        let i = choose|i: int| 0 <= i < all.len() && (#[trigger] all[i]).0 == var;
        if i < n {
            assert(vp.set_vars[i].0 == var);
        } else {
            assert(vp.collected[i - n].0 == var);
        }
    }
}

/// There is a row for each variable, in order: its name, then its value, or
/// `(unset)` if it has none. The one under the cursor is marked; the others
/// are dim if they are unset.
pub proof fn variable_rows_show_their_variable(vs: VarsView, i: int)
    requires
        0 <= i < vs.vars.len(),
        vs.edit is None,
    ensures
        list_rows(vs).len() == vs.vars.len(),
        ({
            let v = vs.vars[i];
            let column = table::name_width(model::var_names(vs.vars));
            &&& v.name.len() <= column
            &&& list_rows(vs)[i].text == (if i == vs.selected {
                " >"@
            } else {
                "  "@
            }) + v.name + chrome::spaces(column - v.name.len() + 2) + (if v.unset {
                "(unset)"@
            } else {
                v.value
            })
            &&& list_rows(vs)[i].look == if i == vs.selected {
                Look::Selected
            } else if v.unset {
                Look::Dim
            } else {
                Look::Plain
            }
        }),
{
    let v = vs.vars[i];
    let names = model::var_names(vs.vars);
    table::name_column_is_tight(names);
    assert(names[i] == v.name);
    let column = table::name_width(names);
    assert(chrome::padded(v.name, column) + chrome::spaces(2) =~= v.name + chrome::spaces(
        column - v.name.len() + 2,
    ));
    assert(list_rows(vs)[i].text =~= (if i == vs.selected {
        " >"@
    } else {
        "  "@
    }) + v.name + chrome::spaces(column - v.name.len() + 2) + (if v.unset {
        "(unset)"@
    } else {
        v.value
    }));
}

/// While a value is picked, there is a row for each value that the list shows,
/// in order; the highlighted one is marked.
pub proof fn value_rows_show_their_value(vs: VarsView, edit: EditView, i: int)
    requires
        vs.edit == Some(edit),
        0 <= i < template::shown_for(edit.candidates, edit.filter).len(),
    ensures
        ({
            let shown = template::shown_for(edit.candidates, edit.filter);
            &&& list_rows(vs).len() == shown.len()
            &&& list_rows(vs)[i].text == (if i == edit.highlight {
                " >"@
            } else {
                "  "@
            }) + shown[i]
            &&& list_rows(vs)[i].look == if i == edit.highlight {
                Look::Selected
            } else {
                Look::Plain
            }
        }),
{
}

/// The preview has a row for each attachment that the variable under the
/// cursor governs: the session that it is on now, and the one that its
/// template would lead to.
pub proof fn preview_shows_where_attachments_go(vs: VarsView, sessions: Seq<SessionView>, i: int)
    requires
        0 <= vs.selected < vs.vars.len(),
        0 <= i < template::governed(sessions, vs.vars[vs.selected].name).len(),
    ensures
        ({
            let governed = template::governed(sessions, vs.vars[vs.selected].name);
            let g = governed[i];
            &&& preview_rows(vs, sessions).len() == governed.len()
            &&& preview_rows(vs, sessions)[i].text == "    "@ + g.session + " -> "@
                + template::resolved(g.template, preview_values(vs))
            &&& preview_rows(vs, sessions)[i].look == Look::Dim
        }),
{
}

/// The preview goes by the variables that are set; while a value is picked,
/// the variable under the cursor has the value that Enter would give it: what
/// stands in the field, or else the highlighted one.
pub proof fn preview_goes_by_the_value_picked(vs: VarsView, edit: EditView)
    requires
        0 <= vs.selected < vs.vars.len(),
    ensures
        vs.edit is None ==> preview_values(vs) == model::resolution(vs.vars),
        vs.edit == Some(edit) && edit.field.len() > 0 ==> preview_values(vs) == model::resolution(
            vs.vars,
        ).insert(vs.vars[vs.selected].name, edit.field),
        vs.edit == Some(edit) && edit.field.len() == 0 && 0 <= edit.highlight
            < template::shown_for(edit.candidates, edit.filter).len() ==> preview_values(vs)
            == model::resolution(vs.vars).insert(
            vs.vars[vs.selected].name,
            template::shown_for(edit.candidates, edit.filter)[edit.highlight],
        ),
        vs.edit == Some(edit) && edit.field.len() == 0 && !(0 <= edit.highlight
            < template::shown_for(edit.candidates, edit.filter).len()) ==> preview_values(vs)
            == model::resolution(vs.vars).insert(vs.vars[vs.selected].name, Seq::empty()),
{
}

/// A row's line: cut or filled to the width of the screen; in reverse video if
/// it is selected, and muted if it is dim.
pub proof fn row_lines_have_their_look(row: RowView, width: int)
    requires
        0 <= width,
    ensures
        ({
            let text = if row.text.len() <= width {
                row.text + chrome::spaces(width - row.text.len())
            } else {
                row.text.take(width)
            };
            row_line(row, width) == match row.look {
                Look::Plain => text + "\r\n"@,
                Look::Selected => "\x1b[7m"@ + text + "\x1b[0m"@ + "\r\n"@,
                Look::Dim => "\x1b[38;2;130;105;75m"@ + text + "\x1b[0m"@ + "\r\n"@,
            }
        }),
{
    chrome::padding_and_clipping(row.text, width);
    if row.text.len() > width {
        chrome::padding_and_clipping(row.text.take(width), width);
        assert(chrome::padded(row.text.take(width), width) =~= row.text.take(width));
    }
}

/// Rows come one below the other, each once, in order.
pub proof fn rows_follow_each_other(rows: Seq<RowView>, from: int, to: int, width: int)
    requires
        from < to,
    ensures
        row_lines(rows, from, to, width) == row_line(rows[from], width) + row_lines(
            rows,
            from + 1,
            to,
            width,
        ),
        row_lines(rows, to, to, width).len() == 0,
    decreases to - from,
{
    if to == from + 1 {
        assert(row_lines(rows, from, from, width) =~= Seq::empty());
        assert(row_lines(rows, from, to, width) =~= row_line(rows[from], width) + row_lines(
            rows,
            to,
            to,
            width,
        ));
    } else {
        rows_follow_each_other(rows, from, to - 1, width);
        assert(row_lines(rows, from, to, width) =~= row_line(rows[from], width) + row_lines(
            rows,
            from + 1,
            to,
            width,
        ));
    }
}

/// All rows of the list are shown if they fit between the bars, and below them
/// as much of the preview as there is room for. If they do not fit, as many
/// are shown as do, among them the one under the cursor.
#[verifier::rlimit(40)]
pub proof fn variable_list_shows_what_fits(
    vs: VarsView,
    sessions: Seq<SessionView>,
    width: int,
    height: int,
)
    requires
        3 <= height,
        0 <= list_focus(vs) < list_rows(vs).len(),
    ensures
        ({
            let rows = list_rows(vs);
            let preview = preview_rows(vs, sessions);
            let room = height - 3 - rows.len();
            &&& room >= 0 && preview.len() <= room ==> vars_list(vs, sessions, width, height)
                == row_lines(rows, 0, rows.len() as int, width) + row_lines(
                preview,
                0,
                preview.len() as int,
                width,
            )
            &&& room >= 0 && preview.len() > room ==> vars_list(vs, sessions, width, height)
                == row_lines(rows, 0, rows.len() as int, width) + row_lines(preview, 0, room, width)
            &&& room < 0 ==> exists|start: int|
                0 <= start <= rows.len() - (height - 3) && (height > 3 ==> start <= list_focus(vs)
                    < start + (height - 3)) && vars_list(vs, sessions, width, height)
                    == #[trigger] row_lines(rows, start, start + (height - 3), width)
        }),
        vs.edit is None ==> list_focus(vs) == vs.selected,
        vs.edit matches Some(edit) ==> list_focus(vs) == edit.highlight,
{
    let rows = list_rows(vs);
    let preview = preview_rows(vs, sessions);
    let fit = table::rows_that_fit(height);
    let (start, end) = table::window(rows.len() as int, list_focus(vs), fit);
    table::window_shows_selected(rows.len() as int, list_focus(vs), fit);
    if rows.len() > height - 3 {
        assert(end == start + (height - 3));
        assert(row_lines(preview, 0, 0, width) =~= Seq::empty());
        assert(vars_list(vs, sessions, width, height) =~= row_lines(
            rows,
            start,
            start + (height - 3),
            width,
        ));
    }
}

/// While the variables are up, the screen shows them; otherwise it shows the
/// sessions, whatever prompt is up, and the row that the cursor is on, if it
/// is on one, as selected.
pub proof fn frames_show_the_mode(m: ModelView, width: int, height: int, now: int)
    ensures
        m.mode !is Vars ==> frame(m, width, height, now) == table::session_screen(
            m.sessions,
            match m.selection {
                SelectionView::At(i) => Some(i),
                SelectionView::Nothing => None,
                SelectionView::Stale(_) => None,
            },
            bottom_label(m),
            now,
            width,
            height,
        ),
        m.mode matches ModeView::Vars(vs) ==> frame(m, width, height, now) == "\x1b[2J\x1b[H"@ + (
        chrome::bar_content(width, vars_title(vs.vars.len()), BarAlign::Center) + "\r\n"@)
            + vars_heading(vs, width) + vars_list(vs, m.sessions, width, height) + (
        chrome::bar_content(width, bottom_label(m), BarAlign::Left) + "\r\n"@),
{
}

/// The title of the variables says how many there are.
pub proof fn variable_title_says_how_many(n: nat)
    ensures
        chrome::shows(
            vars_title(n),
            "shpool ("@ + text::decimal(n) + (if n == 1 {
                " variable)"@
            } else {
                " variables)"@
            }),
        ),
{
    let name = "shpool ("@ + text::decimal(n) + (if n == 1 {
        " variable)"@
    } else {
        " variables)"@
    });
    reveal_strlit("shpool (");
    reveal_strlit(" variable)");
    reveal_strlit(" variables)");
    text::numbers_read_back(n);
    assert(chrome::is_plain(name));
    chrome::blank_labels_show_nothing();
    chrome::labels_show_what_is_added(chrome::blank(), Seq::empty(), name);
    assert(Seq::empty() + name =~= name);
}

/// The heading of the variables names their columns.
pub proof fn variable_heading_names_the_columns(vs: VarsView, width: int)
    requires
        table::name_width(model::var_names(vs.vars)) + 9 <= width,
    ensures
        ({
            let column = table::name_width(model::var_names(vs.vars));
            vars_heading(vs, width) == "\x1b[48;5;236m"@ + "\x1b[38;2;130;105;75m"@ + (
            chrome::spaces(2) + "name"@ + chrome::spaces(column - 4 + 2) + "value"@
                + chrome::spaces(width - column - 9)) + "\x1b[0m"@ + "\r\n"@
        }),
{
    let column = table::name_width(model::var_names(vs.vars));
    table::name_column_is_tight(model::var_names(vs.vars));
    reveal_strlit("name");
    reveal_strlit("value");
    reveal_strlit("  ");
    let text = "  "@ + chrome::padded(COL_NAME@, column) + chrome::spaces(COL_GAP as int)
        + "value"@;
    assert(chrome::padded(chrome::clipped(text, width), width) =~= chrome::spaces(2) + "name"@
        + chrome::spaces(column - 4 + 2) + "value"@ + chrome::spaces(width - column - 9));
}

/// The ages that the next redraw waits for are those that the table shows: of
/// a session's creation and of the latest of its times.
pub proof fn ages_waited_for_are_shown(s: SessionView, now: int, latest: u64)
    requires
        crate::session::is_latest(s, latest),
    ensures
        shown_ages(s, now) == (age::age(now, s.started as int), age::age(now, latest as int)),
{
    crate::session::activity_is_the_latest_time(s);
}

/// As long as the ages hold, the frame is the same: no redraw is missed by
/// waiting for them.
pub proof fn frames_hold_with_their_ages(
    m: ModelView,
    width: int,
    height: int,
    now: int,
    until: int,
    t: int,
)
    requires
        m.selection matches SelectionView::At(i) ==> 0 <= i < m.sessions.len(),
        ages_hold(m, now, until),
        now <= t < until,
    ensures
        frame(m, width, height, t) == frame(m, width, height, now),
{
    if m.mode !is Vars {
        assert forall|i: int| 0 <= i < m.sessions.len() implies age::age(
            now,
            (#[trigger] m.sessions[i]).started as int,
        ) == age::age(t, m.sessions[i].started as int) && age::age(
            now,
            m.sessions[i].last_active() as int,
        ) == age::age(t, m.sessions[i].last_active() as int) by {
            assert(shown_ages(m.sessions[i], t) == shown_ages(m.sessions[i], now));
        }
        table::only_ages_change_with_time(
            m.sessions,
            highlighted(m),
            bottom_label(m),
            now,
            t,
            width,
            height,
        );
    }
}

/// An age changes only if some session's created or active column reads
/// differently: no redraw is waited for that shows nothing new.
pub proof fn changed_ages_read_differently(m: ModelView, now: int, then: int)
    requires
        some_age_changes(m, now, then),
    ensures
        m.mode !is Vars,
        exists|i: int|
            0 <= i < m.sessions.len() && (age::age_text(
                age::age(now, (#[trigger] m.sessions[i]).started as int),
            ) != age::age_text(age::age(then, m.sessions[i].started as int)) || age::age_text(
                age::age(now, m.sessions[i].last_active() as int),
            ) != age::age_text(age::age(then, m.sessions[i].last_active() as int))),
{
    let i = choose|i: int|
        0 <= i < m.sessions.len() && #[trigger] shown_ages(m.sessions[i], then) != shown_ages(
            m.sessions[i],
            now,
        );
    let s = m.sessions[i];
    if age::age_text(age::age(now, s.started as int)) == age::age_text(
        age::age(then, s.started as int),
    ) {
        age::ages_read_differently(age::age(now, s.started as int), age::age(then, s.started as int));
    }
    if age::age_text(age::age(now, s.last_active() as int)) == age::age_text(
        age::age(then, s.last_active() as int),
    ) {
        age::ages_read_differently(
            age::age(now, s.last_active() as int),
            age::age(then, s.last_active() as int),
        );
    }
    assert(m.sessions[i] == s);
}

/// With no row in the list, the preview has all the room between the bars; and
/// with no such room, nothing is shown of either. Without a variable under the
/// cursor there is no preview.
pub proof fn variable_list_without_rows(
    vs: VarsView,
    sessions: Seq<SessionView>,
    width: int,
    height: int,
)
    ensures
        ({
            let preview = preview_rows(vs, sessions);
            &&& height >= 3 && list_rows(vs).len() == 0 && preview.len() <= height - 3
                ==> vars_list(vs, sessions, width, height) == row_lines(
                preview,
                0,
                preview.len() as int,
                width,
            )
            &&& height >= 3 && list_rows(vs).len() == 0 && preview.len() > height - 3
                ==> vars_list(vs, sessions, width, height) == row_lines(
                preview,
                0,
                height - 3,
                width,
            )
            &&& height <= 3 ==> vars_list(vs, sessions, width, height).len() == 0
            &&& !(0 <= vs.selected < vs.vars.len()) ==> preview.len() == 0
        }),
{
    let rows = list_rows(vs);
    let preview = preview_rows(vs, sessions);
    let fit = table::rows_that_fit(height);
    let (start, end) = table::window(rows.len() as int, list_focus(vs), fit);
    if rows.len() == 0 {
        assert(row_lines(rows, start, end, width) =~= Seq::empty());
        if height >= 3 {
            let shown = if preview.len() <= height - 3 {
                preview.len() as int
            } else {
                height - 3
            };
            assert(vars_list(vs, sessions, width, height) =~= row_lines(preview, 0, shown, width));
        }
    }
}

}
