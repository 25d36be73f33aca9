//! The session table: a screen with a title bar, one row per session, and a
//! bottom bar.

use vstd::prelude::*;

use crate::age;
use crate::age::format_age;
use crate::chrome;
use crate::chrome::{
    clip, push_padded, push_spaces, render_bar, title_label, BarAlign, Label, LabelView,
    CLEAR_SCREEN, LINE_END, SGR_AMBER_DIM, SGR_BAR_BG, SGR_RESET, SGR_SELECTED,
};
use crate::session;
use crate::session::{Session, SessionView};

verus! {

/// Top bar + table header + bottom bar: the lines that are no rows.
pub const CHROME_LINES: usize = 3;

pub const COL_NAME: &'static str = "name";

pub const COL_CREATED: &'static str = "created";

pub const COL_ACTIVE: &'static str = "active";

/// Columns between two table columns.
pub const COL_GAP: usize = 2;

// -- The viewport --

/// The rows `[start, end)` of a list of `total` that are on screen when
/// `max_visible` fit: centered on `selected`, but never past either end.
pub open spec fn window(total: int, selected: int, max_visible: int) -> (int, int) {
    if total <= max_visible {
        (0, total)
    } else {
        let centered = chrome::at_least_zero(selected - max_visible / 2);
        let start = if centered < total - max_visible {
            centered
        } else {
            total - max_visible
        };
        (start, start + max_visible)
    }
}

/// Compute the visible window [start, end) that keeps `selected` on screen.
pub fn viewport(total: usize, selected: usize, max_visible: usize) -> (rows: (usize, usize))
    ensures
        (rows.0 as int, rows.1 as int) == window(
            total as int,
            selected as int,
            max_visible as int,
        ),
        rows.0 <= rows.1 <= total,
{
    if total <= max_visible {
        return (0, total);
    }
    let half: usize = max_visible / 2;
    let ideal_start: usize = if half < selected {
        selected - half
    } else {
        0
    };
    let last_start: usize = total - max_visible;
    let start: usize = if ideal_start < last_start {
        ideal_start
    } else {
        last_start
    };
    (start, start + max_visible)
}

/// The window lies within the list, shows as many rows as fit, and keeps the
/// selected row on screen wherever any row fits.
pub proof fn window_shows_selected(total: int, selected: int, max_visible: int)
    requires
        0 <= selected < total,
        0 <= max_visible,
    ensures
        ({
            let (start, end) = window(total, selected, max_visible);
            &&& 0 <= start <= end <= total
            &&& end - start == if total <= max_visible {
                total
            } else {
                max_visible
            }
            &&& max_visible > 0 ==> start <= selected < end
        }),
{
}

// -- The session table --

/// The width of the name column: that of the longest name, and of its
/// heading at least.
pub open spec fn name_width(names: Seq<Seq<char>>) -> int
    decreases names.len(),
{
    if names.len() == 0 {
        COL_NAME@.len() as int
    } else {
        let before = name_width(names.drop_last());
        if before < names.last().len() {
            names.last().len() as int
        } else {
            before
        }
    }
}

/// The cells of a table row, each column padded to its width.
pub open spec fn table_row(
    prefix: Seq<char>,
    name: Seq<char>,
    name_width: int,
    created: Seq<char>,
    active: Seq<char>,
) -> Seq<char> {
    prefix + chrome::padded(name, name_width) + chrome::spaces(COL_GAP as int) + chrome::padded(
        created,
        COL_CREATED@.len() as int,
    ) + chrome::spaces(COL_GAP as int) + chrome::padded(active, COL_ACTIVE@.len() as int)
}

fn table_row_text(
    prefix: &str,
    name: &str,
    name_width: usize,
    created: &str,
    active: &str,
) -> (out: String)
    ensures
        out@ == table_row(prefix@, name@, name_width as int, created@, active@),
{
    let mut out = String::new();
    out.append(prefix);
    push_padded(&mut out, name, name_width);
    push_spaces(&mut out, COL_GAP);
    push_padded(&mut out, created, COL_CREATED.unicode_len());
    push_spaces(&mut out, COL_GAP);
    push_padded(&mut out, active, COL_ACTIVE.unicode_len());
    assert(out@ =~= table_row(prefix@, name@, name_width as int, created@, active@));
    out
}

/// The table's heading: dim amber on the bar background.
pub open spec fn header_line(name_width: int, width: int) -> Seq<char> {
    let text = chrome::clipped(
        table_row("  "@, COL_NAME@, name_width, COL_CREATED@, COL_ACTIVE@),
        width,
    );
    SGR_BAR_BG@ + SGR_AMBER_DIM@ + chrome::padded(text, width) + SGR_RESET@ + LINE_END@
}

/// The two columns in front of a session's name: an asterisk if it is
/// attached elsewhere, an arrow if it is selected.
pub open spec fn row_prefix(attached: bool, selected: bool) -> Seq<char> {
    (if attached {
        "*"@
    } else {
        " "@
    }) + (if selected {
        ">"@
    } else {
        " "@
    })
}

/// One screen line, in reverse video if it is selected.
pub open spec fn list_line(content: Seq<char>, selected: bool, width: int) -> Seq<char> {
    let text = chrome::padded(chrome::clipped(content, width), width);
    if selected {
        SGR_SELECTED@ + text + SGR_RESET@ + LINE_END@
    } else {
        text + LINE_END@
    }
}

/// Appends one screen line.
pub fn push_list_line(out: &mut String, content: &str, selected: bool, width: u16)
    ensures
        final(out)@ == old(out)@ + list_line(content@, selected, width as int),
{
    let ghost before = out@;
    let text = clip(content, width as usize);
    if selected {
        out.append(SGR_SELECTED);
        push_padded(out, text.as_str(), width as usize);
        out.append(SGR_RESET);
    } else {
        push_padded(out, text.as_str(), width as usize);
    }
    out.append(LINE_END);
    assert(out@ =~= before + list_line(content@, selected, width as int));
}

/// The line of one session.
pub open spec fn session_line(
    s: SessionView,
    selected: bool,
    name_width: int,
    now: int,
    width: int,
) -> Seq<char> {
    list_line(
        table_row(
            row_prefix(s.attached, selected),
            s.name,
            name_width,
            age::age_text(age::age(now, s.started as int)),
            age::age_text(age::age(now, s.last_active() as int)),
        ),
        selected,
        width,
    )
}

/// The lines of the sessions `[from, to)`.
pub open spec fn session_lines(
    sessions: Seq<SessionView>,
    selected: Option<int>,
    from: int,
    to: int,
    now: int,
    width: int,
) -> Seq<char>
    decreases to - from,
{
    if to <= from {
        Seq::empty()
    } else {
        session_lines(sessions, selected, from, to - 1, now, width) + session_line(
            sessions[to - 1],
            selected == Some(to - 1),
            name_width(session::names(sessions)),
            now,
            width,
        )
    }
}

/// The rows that fit between the bars of a screen of `height` lines.
pub open spec fn rows_that_fit(height: int) -> int {
    chrome::at_least_zero(height - CHROME_LINES)
}

/// The row that the window is built around: the selected one, else the first.
pub open spec fn focus(selected: Option<int>) -> int {
    match selected {
        Some(i) => i,
        None => 0,
    }
}

/// The list part of the screen.
pub open spec fn session_list(
    sessions: Seq<SessionView>,
    selected: Option<int>,
    now: int,
    width: int,
    height: int,
) -> Seq<char> {
    if sessions.len() == 0 {
        "  (no sessions)\r\n"@
    } else {
        let (start, end) = window(sessions.len() as int, focus(selected), rows_that_fit(height));
        session_lines(sessions, selected, start, end, now, width)
    }
}

/// A whole screen with the session table: the title bar, the heading, the
/// sessions that fit, and the bottom bar.
pub open spec fn session_screen(
    sessions: Seq<SessionView>,
    selected: Option<int>,
    bottom: LabelView,
    now: int,
    width: int,
    height: int,
) -> Seq<char> {
    CLEAR_SCREEN@ + chrome::bar(width, chrome::title(sessions.len()), BarAlign::Center) + header_line(
        name_width(session::names(sessions)),
        width,
    ) + session_list(sessions, selected, now, width, height) + chrome::bar(width, bottom, BarAlign::Left)
}

fn widest_name(sessions: &Vec<Session>) -> (width: usize)
    ensures
        width == name_width(session::names(sessions.deep_view())),
{
    let ghost names = session::names(sessions.deep_view());
    let mut width: usize = COL_NAME.unicode_len();
    assert(names.take(0) =~= Seq::empty());
    for i in 0..sessions.len()
        invariant
            names == session::names(sessions.deep_view()),
            width == name_width(names.take(i as int)),
    {
        assert(names.take(i + 1).drop_last() =~= names.take(i as int));
        assert(names[i as int] == sessions@[i as int].name@);
        let n: usize = sessions[i].name.as_str().unicode_len();
        if width < n {
            width = n;
        }
    }
    assert(names.take(names.len() as int) =~= names);
    width
}

fn push_session_line(
    out: &mut String,
    s: &Session,
    selected: bool,
    name_width: usize,
    now_ms: u64,
    width: u16,
)
    ensures
        final(out)@ == old(out)@ + session_line(
            s.deep_view(),
            selected,
            name_width as int,
            now_ms as int,
            width as int,
        ),
{
    // 2-char prefix: [attached marker][selected arrow]. An asterisk marks
    // sessions attached elsewhere so the user sees the "already attached"
    // state without having to hit Enter and get the pre-flight rejection.
    // ASCII so we don't depend on the terminal's locale/font.
    let mut prefix = String::new();
    prefix.append(
        if s.attached {
            "*"
        } else {
            " "
        },
    );
    prefix.append(
        if selected {
            ">"
        } else {
            " "
        },
    );
    assert(prefix@ =~= row_prefix(s.attached, selected));
    let created = format_age(now_ms, s.started_at_unix_ms);
    let active = format_age(now_ms, s.last_active_unix_ms());
    let text = table_row_text(
        prefix.as_str(),
        s.name.as_str(),
        name_width,
        created.as_str(),
        active.as_str(),
    );
    push_list_line(out, text.as_str(), selected, width);
}

/// Appends a whole screen with the session table.
#[verifier::rlimit(30)]
pub fn render_sessions(
    out: &mut String,
    sessions: &Vec<Session>,
    selected: Option<usize>,
    bottom: &Label,
    now_ms: u64,
    width: u16,
    height: u16,
)
    ensures
        final(out)@ == old(out)@ + session_screen(
            sessions.deep_view(),
            match selected {
                Some(i) => Some(i as int),
                None => None,
            },
            bottom.deep_view(),
            now_ms as int,
            width as int,
            height as int,
        ),
{
    let ghost before = out@;
    let ghost all = sessions.deep_view();
    let ghost at: Option<int> = match selected {
        Some(i) => Some(i as int),
        None => None,
    };
    out.append(CLEAR_SCREEN);
    render_bar(out, width, &title_label(sessions.len()), BarAlign::Center);
    // Name column width grows to fit the longest session name, with a
    // floor of its heading so the header never overflows.
    let name_width: usize = widest_name(sessions);
    // Header row, styled like the bindings (dim amber) to subordinate
    // it to the list content.
    let heading = table_row_text("  ", COL_NAME, name_width, COL_CREATED, COL_ACTIVE);
    let heading = clip(heading.as_str(), width as usize);
    out.append(SGR_BAR_BG);
    out.append(SGR_AMBER_DIM);
    push_padded(out, heading.as_str(), width as usize);
    out.append(SGR_RESET);
    out.append(LINE_END);
    let ghost top = out@;
    assert(top =~= before + (CLEAR_SCREEN@ + chrome::bar(
        width as int,
        chrome::title(all.len()),
        BarAlign::Center,
    ) + header_line(name_width as int, width as int)));
    if sessions.len() == 0 {
        out.append("  (no sessions)\r\n");
    } else {
        let max_visible: usize = if (height as usize) > CHROME_LINES {
            height as usize - CHROME_LINES
        } else {
            0
        };
        let focus: usize = match selected {
            Some(i) => i,
            None => 0,
        };
        let (start, end): (usize, usize) = viewport(sessions.len(), focus, max_visible);
        assert(out@ =~= top + session_lines(
            all,
            at,
            start as int,
            start as int,
            now_ms as int,
            width as int,
        ));
        for i in start..end
            invariant
                start <= end <= sessions@.len(),
                all == sessions.deep_view(),
                at == (match selected {
                    Some(i) => Some(i as int),
                    None => None,
                }),
                name_width == self::name_width(session::names(all)),
                out@ == top + session_lines(
                    all,
                    at,
                    start as int,
                    i as int,
                    now_ms as int,
                    width as int,
                ),
        {
            let is_selected = match selected {
                Some(row) => row == i,
                None => false,
            };
            let ghost so_far = out@;
            push_session_line(out, &sessions[i], is_selected, name_width, now_ms, width);
            assert(all[i as int] == sessions@[i as int].deep_view());
            assert(out@ =~= top + session_lines(
                all,
                at,
                start as int,
                i + 1,
                now_ms as int,
                width as int,
            ));
        }
    }
    assert(out@ =~= top + session_list(all, at, now_ms as int, width as int, height as int));
    render_bar(out, width, bottom, BarAlign::Left);
    assert(out@ =~= before + session_screen(
        all,
        at,
        bottom.deep_view(),
        now_ms as int,
        width as int,
        height as int,
    ));
}

/// A row of a list is exactly as wide as the screen.
pub proof fn rows_fill_the_width(content: Seq<char>, width: int)
    requires
        0 <= width,
    ensures
        chrome::padded(chrome::clipped(content, width), width).len() == width,
{
}

/// An age of less than a hundred thousand days fits the columns for ages, so
/// that it never moves what stands to its right.
pub proof fn ages_fit_their_columns(now: int, then: int)
    requires
        now - then < 100_000 * 86_400_000,
    ensures
        age::age_text(age::age(now, then)).len() <= COL_ACTIVE@.len(),
        age::age_text(age::age(now, then)).len() <= COL_CREATED@.len(),
{
    reveal_strlit("active");
    reveal_strlit("created");
    reveal_strlit("now");
    reveal_strlit("s");
    reveal_strlit("m");
    reveal_strlit("h");
    reveal_strlit("d");
    reveal_with_fuel(crate::text::decimal, 6);
}

/// The name column is as wide as its heading and every name in it.
pub proof fn names_fit_their_column(names: Seq<Seq<char>>)
    ensures
        COL_NAME@.len() <= name_width(names),
        forall|i: int| 0 <= i < names.len() ==> (#[trigger] names[i]).len() <= name_width(names),
    decreases names.len(),
{
    if names.len() > 0 {
        let rest = names.drop_last();
        names_fit_their_column(rest);
        assert forall|i: int| 0 <= i < names.len() implies (#[trigger] names[i]).len()
            <= name_width(names) by {
            if i < rest.len() {
                assert(rest[i] == names[i]);
            }
        }
    }
}

// -- What the table shows --

/// A session's line shows, from left to right: an asterisk if the session is
/// attached, an arrow if its row is selected, its name, and the ages of its
/// creation and of the latest of its times, each in its column. A selected
/// line is in reverse video.
#[verifier::rlimit(40)]
pub proof fn session_lines_show_their_session(
    s: SessionView,
    selected: bool,
    name_width: int,
    now: int,
    width: int,
    latest: u64,
)
    requires
        session::is_latest(s, latest),
        s.name.len() <= name_width,
        name_width + 19 <= width,
        now - s.started < 100_000 * 86_400_000,
    ensures
        ({
            let created = age::age_text(age::age(now, s.started as int));
            let active = age::age_text(age::age(now, latest as int));
            let marks = seq![
                if s.attached {
                    '*'
                } else {
                    ' '
                },
                if selected {
                    '>'
                } else {
                    ' '
                },
            ];
            let row = marks + s.name + chrome::spaces(name_width - s.name.len() + 2) + created
                + chrome::spaces(9 - created.len()) + active + chrome::spaces(
                width - name_width - 13 - active.len(),
            );
            &&& created.len() <= 7 && active.len() <= 6 && row.len() == width
            &&& session_line(s, selected, name_width, now, width) == if selected {
                "\x1b[7m"@ + row + "\x1b[0m"@ + "\r\n"@
            } else {
                row + "\r\n"@
            }
        }),
{
    session::activity_is_the_latest_time(s);
    assert(latest == s.last_active());
    let created = age::age_text(age::age(now, s.started as int));
    let active = age::age_text(age::age(now, latest as int));
    ages_fit_their_columns(now, s.started as int);
    ages_fit_their_columns(now, latest as int);
    reveal_strlit("created");
    reveal_strlit("active");
    reveal_strlit("*");
    reveal_strlit(" ");
    reveal_strlit(">");
    let marks = seq![
        if s.attached {
            '*'
        } else {
            ' '
        },
        if selected {
            '>'
        } else {
            ' '
        },
    ];
    assert(row_prefix(s.attached, selected) =~= marks);
    let row = marks + s.name + chrome::spaces(name_width - s.name.len() + 2) + created
        + chrome::spaces(9 - created.len()) + active + chrome::spaces(
        width - name_width - 13 - active.len(),
    );
    let content = table_row(row_prefix(s.attached, selected), s.name, name_width, created, active);
    assert(content.len() <= width);
    assert(chrome::padded(chrome::clipped(content, width), width) =~= row);
}

/// On a screen too narrow for it, a line is cut off at the right.
pub proof fn narrow_lines_are_cut(content: Seq<char>, width: int, wider: int)
    requires
        0 <= width <= wider,
    ensures
        list_line(content, false, width) == list_line(content, false, wider).take(width) + "\r\n"@,
        list_line(content, true, width) == "\x1b[7m"@ + list_line(content, false, wider).take(width)
            + "\x1b[0m"@ + "\r\n"@,
{
    let text = chrome::padded(chrome::clipped(content, width), width);
    assert(list_line(content, false, wider).take(width) =~= text);
}

/// The heading names the columns, each right above what it is about.
#[verifier::rlimit(40)]
pub proof fn heading_names_the_columns(name_width: int, width: int)
    requires
        4 <= name_width,
        name_width + 19 <= width,
    ensures
        header_line(name_width, width) == "\x1b[48;5;236m"@ + "\x1b[38;2;130;105;75m"@ + (
        chrome::spaces(2) + "name"@ + chrome::spaces(name_width - 4 + 2) + "created"@
            + chrome::spaces(2) + "active"@ + chrome::spaces(width - name_width - 19))
            + "\x1b[0m"@ + "\r\n"@,
{
    reveal_strlit("name");
    reveal_strlit("created");
    reveal_strlit("active");
    reveal_strlit("  ");
    let content = table_row("  "@, COL_NAME@, name_width, COL_CREATED@, COL_ACTIVE@);
    assert(chrome::padded(chrome::clipped(content, width), width) =~= chrome::spaces(2) + "name"@
        + chrome::spaces(name_width - 4 + 2) + "created"@ + chrome::spaces(2) + "active"@
        + chrome::spaces(width - name_width - 19));
}

/// The name column is no wider than it has to be: four columns, or as many as
/// some name has characters.
pub proof fn name_column_is_tight(names: Seq<Seq<char>>)
    ensures
        4 <= name_width(names),
        name_width(names) == 4 || exists|i: int|
            0 <= i < names.len() && (#[trigger] names[i]).len() == name_width(names),
        forall|i: int| 0 <= i < names.len() ==> (#[trigger] names[i]).len() <= name_width(names),
    decreases names.len(),
{
    reveal_strlit("name");
    names_fit_their_column(names);
    if names.len() > 0 {
        let rest = names.drop_last();
        name_column_is_tight(rest);
        if name_width(rest) < names.last().len() {
            assert(names[names.len() - 1].len() == name_width(names));
        } else if name_width(rest) != 4 {
            let i = choose|i: int|
                0 <= i < rest.len() && (#[trigger] rest[i]).len() == name_width(rest);
            assert(names[i].len() == name_width(names));
        }
    }
}

/// The rows of a list come one below the other, each once, in list order: a
/// row's line, and those of the rows below it. The selected row alone is
/// marked.
pub proof fn rows_come_in_order(
    sessions: Seq<SessionView>,
    selected: Option<int>,
    from: int,
    to: int,
    now: int,
    width: int,
)
    requires
        from < to,
    ensures
        session_lines(sessions, selected, from, to, now, width) == session_line(
            sessions[from],
            selected == Some(from),
            name_width(session::names(sessions)),
            now,
            width,
        ) + session_lines(sessions, selected, from + 1, to, now, width),
        session_lines(sessions, selected, to, to, now, width).len() == 0,
    decreases to - from,
{
    if to == from + 1 {
        assert(session_lines(sessions, selected, from, from, now, width) =~= Seq::empty());
        assert(session_lines(sessions, selected, from, to, now, width) =~= session_line(
            sessions[from],
            selected == Some(from),
            name_width(session::names(sessions)),
            now,
            width,
        ) + session_lines(sessions, selected, to, to, now, width));
    } else {
        rows_come_in_order(sessions, selected, from, to - 1, now, width);
        assert(session_lines(sessions, selected, from, to, now, width) =~= session_line(
            sessions[from],
            selected == Some(from),
            name_width(session::names(sessions)),
            now,
            width,
        ) + session_lines(sessions, selected, from + 1, to, now, width));
    }
}

/// The rows on screen have the selected one in the middle, unless the list
/// ends sooner above or below: then they begin with the first row, or end with
/// the last one.
pub proof fn window_is_centered(total: int, selected: int, max_visible: int)
    requires
        0 <= selected < total,
        0 <= max_visible < total,
    ensures
        ({
            let (start, end) = window(total, selected, max_visible);
            &&& end == start + max_visible
            &&& selected <= max_visible / 2 ==> start == 0
            &&& selected >= total - max_visible + max_visible / 2 ==> end == total
            &&& max_visible / 2 <= selected <= total - max_visible + max_visible / 2 ==> start
                == selected - max_visible / 2
        }),
{
}

/// The list shows all rows if they fit between the bars, and else as many as
/// do, the selected one among them, or the first one if none is selected. An
/// empty list says so.
pub proof fn list_shows_the_rows_that_fit(
    sessions: Seq<SessionView>,
    selected: Option<int>,
    now: int,
    width: int,
    height: int,
)
    requires
        selected matches Some(i) ==> 0 <= i < sessions.len(),
        3 <= height,
    ensures
        sessions.len() == 0 ==> session_list(sessions, selected, now, width, height)
            == "  (no sessions)\r\n"@,
        0 < sessions.len() <= height - 3 ==> session_list(sessions, selected, now, width, height)
            == session_lines(sessions, selected, 0, sessions.len() as int, now, width),
        sessions.len() > height - 3 ==> exists|start: int|
            0 <= start <= sessions.len() - (height - 3) && (selected is None ==> start == 0) && (
            height > 3 ==> (selected matches Some(i) ==> start <= i < start + height - 3))
                && session_list(sessions, selected, now, width, height)
                == #[trigger] session_lines(
                sessions,
                selected,
                start,
                start + (height - 3),
                now,
                width,
            ),
{
    if sessions.len() > height - 3 {
        let (start, end) = window(sessions.len() as int, focus(selected), rows_that_fit(height));
        if sessions.len() > 0 {
            window_shows_selected(sessions.len() as int, focus(selected), rows_that_fit(height));
        }
        assert(end == start + (height - 3));
        assert(session_list(sessions, selected, now, width, height) == session_lines(
            sessions,
            selected,
            start,
            start + (height - 3),
            now,
            width,
        ));
    }
}

/// A screen is cleared first. Then come the title, how many sessions there
/// are, in the middle of its bar; the heading; the list; and the bottom bar.
pub proof fn screens_are_laid_out(
    sessions: Seq<SessionView>,
    selected: Option<int>,
    bottom: LabelView,
    now: int,
    width: int,
    height: int,
)
    ensures
        session_screen(sessions, selected, bottom, now, width, height) == "\x1b[2J\x1b[H"@ + (
        chrome::bar_content(width, chrome::title(sessions.len()), BarAlign::Center) + "\r\n"@)
            + header_line(name_width(session::names(sessions)), width) + session_list(
            sessions,
            selected,
            now,
            width,
            height,
        ) + (chrome::bar_content(width, bottom, BarAlign::Left) + "\r\n"@),
{
}

/// A screen with no line to spare between its bars shows no session.
pub proof fn low_screens_show_no_rows(
    sessions: Seq<SessionView>,
    selected: Option<int>,
    now: int,
    width: int,
    height: int,
)
    requires
        sessions.len() > 0,
        height <= 3,
    ensures
        session_list(sessions, selected, now, width, height).len() == 0,
{
}

/// A screen changes with the time only by the ages on it: as long as each of
/// them reads the same, it stays the same.
pub proof fn only_ages_change_with_time(
    sessions: Seq<SessionView>,
    selected: Option<int>,
    bottom: LabelView,
    now: int,
    then: int,
    width: int,
    height: int,
)
    requires
        selected matches Some(i) ==> 0 <= i < sessions.len(),
        forall|i: int|
            0 <= i < sessions.len() ==> age::age(now, (#[trigger] sessions[i]).started as int)
                == age::age(then, sessions[i].started as int) && age::age(
                now,
                sessions[i].last_active() as int,
            ) == age::age(then, sessions[i].last_active() as int),
    ensures
        session_screen(sessions, selected, bottom, now, width, height) == session_screen(
            sessions,
            selected,
            bottom,
            then,
            width,
            height,
        ),
{
    if sessions.len() > 0 {
        let fit = rows_that_fit(height);
        let (start, end) = window(sessions.len() as int, focus(selected), fit);
        window_shows_selected(sessions.len() as int, focus(selected), fit);
        lines_with_the_same_ages(sessions, selected, start, end, now, then, width);
    }
}

proof fn lines_with_the_same_ages(
    sessions: Seq<SessionView>,
    selected: Option<int>,
    from: int,
    to: int,
    now: int,
    then: int,
    width: int,
)
    requires
        0 <= from <= to <= sessions.len(),
        forall|i: int|
            0 <= i < sessions.len() ==> age::age(now, (#[trigger] sessions[i]).started as int)
                == age::age(then, sessions[i].started as int) && age::age(
                now,
                sessions[i].last_active() as int,
            ) == age::age(then, sessions[i].last_active() as int),
    ensures
        session_lines(sessions, selected, from, to, now, width) == session_lines(
            sessions,
            selected,
            from,
            to,
            then,
            width,
        ),
    decreases to - from,
{
    if from < to {
        lines_with_the_same_ages(sessions, selected, from, to - 1, now, then, width);
        assert(age::age(now, sessions[to - 1].started as int) == age::age(
            then,
            sessions[to - 1].started as int,
        ));
    }
}

/// On a screen too narrow for it, a session's line, too, is cut off at the
/// right, and so is the heading.
#[verifier::rlimit(40)]
pub proof fn narrow_tables_are_cut(
    s: SessionView,
    name_width: int,
    now: int,
    width: int,
    wider: int,
)
    requires
        0 <= width <= wider,
    ensures
        session_line(s, false, name_width, now, width) == session_line(
            s,
            false,
            name_width,
            now,
            wider,
        ).take(width) + "\r\n"@,
        ({
            let style = "\x1b[48;5;236m"@ + "\x1b[38;2;130;105;75m"@;
            let n = style.len() as int;
            header_line(name_width, width) == header_line(name_width, wider).take(n + width)
                + "\x1b[0m"@ + "\r\n"@
        }),
        ({
            let n = "\x1b[7m"@.len() as int;
            session_line(s, true, name_width, now, width) == session_line(
                s,
                true,
                name_width,
                now,
                wider,
            ).take(n + width) + "\x1b[0m"@ + "\r\n"@
        }),
{
    let plain = table_row(
        row_prefix(s.attached, false),
        s.name,
        name_width,
        age::age_text(age::age(now, s.started as int)),
        age::age_text(age::age(now, s.last_active() as int)),
    );
    let marked = table_row(
        row_prefix(s.attached, true),
        s.name,
        name_width,
        age::age_text(age::age(now, s.started as int)),
        age::age_text(age::age(now, s.last_active() as int)),
    );
    let heading = table_row("  "@, COL_NAME@, name_width, COL_CREATED@, COL_ACTIVE@);
    narrow_lines_are_cut(plain, width, wider);
    let n = SGR_SELECTED@.len() as int;
    assert(session_line(s, true, name_width, now, wider).take(n + width) =~= SGR_SELECTED@
        + chrome::padded(chrome::clipped(marked, width), width));
    assert(session_line(s, true, name_width, now, width) =~= session_line(
        s,
        true,
        name_width,
        now,
        wider,
    ).take(n + width) + "\x1b[0m"@ + "\r\n"@);
    let style = SGR_BAR_BG@ + SGR_AMBER_DIM@;
    let k = style.len() as int;
    assert(header_line(name_width, wider).take(k + width) =~= style + chrome::padded(
        chrome::clipped(heading, width),
        width,
    ));
    assert(header_line(name_width, width) =~= header_line(name_width, wider).take(k + width)
        + "\x1b[0m"@ + "\r\n"@);
}

}
