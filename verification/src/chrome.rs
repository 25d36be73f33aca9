//! Chrome: bars with styled labels, and text cut to the width of a screen.
//!
//! A frame is text with ANSI escape sequences, built up in a `String`.

use vstd::prelude::*;

use crate::text;
use crate::text::decimal_of;

verus! {

// SGR codes for the bar chrome. The chrome reads as a phosphor-amber
// CRT bezel: dark bar background with two-tone amber text on top.
pub const SGR_RESET: &'static str = "\x1b[0m";

/// Dark gray bar background (#303030).
pub const SGR_BAR_BG: &'static str = "\x1b[48;5;236m";

/// Restore default bg, keep fg.
pub const SGR_BAR_END: &'static str = "\x1b[49m";

/// Bold warm amber (#ebb95a).
pub const SGR_AMBER: &'static str = "\x1b[1;38;2;235;185;90m";

/// Muted warm amber (#82694b).
pub const SGR_AMBER_DIM: &'static str = "\x1b[38;2;130;105;75m";

/// Bold warm red (#ff7864).
pub const SGR_ERROR: &'static str = "\x1b[1;38;2;255;120;100m";

/// Reset only fg + bold inside a bar — leaves the bar background intact.
pub const SGR_BAR_FG_RESET: &'static str = "\x1b[22;39m";

/// Reverse video.
pub const SGR_SELECTED: &'static str = "\x1b[7m";

/// Clear the screen and home the cursor.
pub const CLEAR_SCREEN: &'static str = "\x1b[2J\x1b[H";

/// End of a screen line.
pub const LINE_END: &'static str = "\r\n";

// -- Padding and clipping --

/// `n` spaces.
pub open spec fn spaces(n: int) -> Seq<char> {
    Seq::new(
        if n < 0 {
            0
        } else {
            n as nat
        },
        |i: int| ' ',
    )
}

/// `s`, filled up with spaces to `width` columns.
pub open spec fn padded(s: Seq<char>, width: int) -> Seq<char> {
    s + spaces(width - s.len())
}

/// At most the first `width` characters of `s`.
pub open spec fn clipped(s: Seq<char>, width: int) -> Seq<char> {
    if s.len() <= width {
        s
    } else {
        s.take(width)
    }
}

/// Appends `n` spaces.
pub fn push_spaces(out: &mut String, n: usize)
    ensures
        final(out)@ == old(out)@ + spaces(n as int),
{
    let ghost before = out@;
    assert(before + spaces(0) =~= before);
    for i in 0..n
        invariant
            out@ == before + spaces(i as int),
    {
        out.push(' ');
        assert(out@ =~= before + spaces(i + 1));
    }
}

/// Appends `s`, filled up with spaces to `width` columns.
pub fn push_padded(out: &mut String, s: &str, width: usize)
    ensures
        final(out)@ == old(out)@ + padded(s@, width as int),
{
    let ghost before = out@;
    let n: usize = s.unicode_len();
    out.append(s);
    if n < width {
        push_spaces(out, width - n);
    } else {
        assert(spaces(width - s@.len()) =~= Seq::empty());
    }
    assert(out@ =~= before + padded(s@, width as int));
}

/// Clip a string to at most `max_chars` characters. Used on row
/// content so rows longer than the terminal width are truncated
/// rather than wrapped or clobbering the rightmost column.
pub fn clip(s: &str, max_chars: usize) -> (out: String)
    ensures
        out@ == clipped(s@, max_chars as int),
{
    let chars = text::chars_of(s);
    if chars.len() <= max_chars {
        text::substring(chars.as_slice(), 0, chars.len())
    } else {
        text::substring(chars.as_slice(), 0, max_chars)
    }
}

/// Where in a styled text a character stands: in the text itself, right
/// behind an ESC, or inside a CSI sequence.
#[derive(Clone, Copy, PartialEq, Eq, Structural)]
pub enum Place {
    Text,
    Escape,
    Sequence,
}

/// The character that starts an escape sequence.
pub open spec fn is_esc(c: char) -> bool {
    c == '\x1b'
}

/// Where the character behind `c` stands.
pub open spec fn next_place(place: Place, c: char) -> Place {
    match place {
        Place::Text => if is_esc(c) {
            Place::Escape
        } else {
            Place::Text
        },
        Place::Escape => if c == '[' {
            Place::Sequence
        } else {
            Place::Text
        },
        Place::Sequence => if '\x40' <= c <= '\x7e' {
            Place::Text
        } else {
            Place::Sequence
        },
    }
}

/// The character takes up a column.
pub open spec fn is_visible(place: Place, c: char) -> bool {
    place == Place::Text && !is_esc(c)
}

/// The number of columns that the styled text `s` takes up.
pub open spec fn columns(s: Seq<char>, place: Place) -> nat
    decreases s.len(),
{
    if s.len() == 0 {
        0
    } else {
        columns(s.drop_first(), next_place(place, s[0])) + if is_visible(place, s[0]) {
            1nat
        } else {
            0nat
        }
    }
}

/// `s` up to the first visible character for which there is no column left.
pub open spec fn clipped_styled(s: Seq<char>, place: Place, room: int) -> Seq<char>
    decreases s.len(),
{
    if s.len() == 0 {
        s
    } else if is_visible(place, s[0]) {
        if room <= 0 {
            Seq::empty()
        } else {
            seq![s[0]] + clipped_styled(s.drop_first(), next_place(place, s[0]), room - 1)
        }
    } else {
        seq![s[0]] + clipped_styled(s.drop_first(), next_place(place, s[0]), room)
    }
}

/// Clip a styled string (ANSI + text) so the visible character count
/// does not exceed `max_visible`. ANSI CSI escape sequences
/// (`\x1b[...<final>`) are passed through verbatim — they don't
/// consume visible columns, but they stay attached to the text
/// they were styling.
pub fn clip_styled(styled: &str, max_visible: usize) -> (out: String)
    ensures
        out@ == clipped_styled(styled@, Place::Text, max_visible as int),
{
    let chars = text::chars_of(styled);
    let n: usize = chars.len();
    let mut out = String::new();
    let mut visible: usize = 0;
    let mut place = Place::Text;
    let mut i: usize = 0;
    assert(chars@.skip(0) =~= chars@);
    assert(out@ + clipped_styled(chars@.skip(0), Place::Text, max_visible as int)
        =~= clipped_styled(chars@, Place::Text, max_visible as int));
    while i < n
        invariant
            n == chars@.len(),
            i <= n,
            visible <= max_visible,
            out@ + clipped_styled(chars@.skip(i as int), place, max_visible - visible)
                == clipped_styled(chars@, Place::Text, max_visible as int),
        ensures
            out@ == clipped_styled(chars@, Place::Text, max_visible as int),
        decreases n - i,
    {
        let ch: char = chars[i];
        let ghost before = out@;
        let ghost rest = chars@.skip(i as int);
        proof {
            assert(rest[0] == ch);
            assert(rest.drop_first() =~= chars@.skip(i + 1));
        }
        match place {
            Place::Text => {
                if ch == '\x1b' {
                    place = Place::Escape;
                } else {
                    if visible >= max_visible {
                        assert(out@ =~= clipped_styled(chars@, Place::Text, max_visible as int));
                        break ;
                    }
                    visible = visible + 1;
                }
            },
            Place::Escape => {
                place = if ch == '[' {
                    Place::Sequence
                } else {
                    Place::Text
                };
            },
            Place::Sequence => {
                if '\x40' <= ch && ch <= '\x7e' {
                    place = Place::Text;
                }
            },
        }
        out.push(ch);
        i = i + 1;
        proof {
            let more = clipped_styled(chars@.skip(i as int), place, max_visible - visible);
            assert(out@ + more =~= before + (seq![ch] + more));
            if i == n {
                assert(chars@.skip(n as int) =~= Seq::empty());
                assert(out@ + more =~= out@);
            }
        }
    }
    out
}

/// Of the beginnings of a text that there is room for, the clipped text is the
/// longest.
pub proof fn clipping_keeps_the_most(s: Seq<char>, place: Place, room: int, start: Seq<char>)
    requires
        0 <= room,
        start.is_prefix_of(s),
        columns(start, place) <= room,
    ensures
        clipped_styled(s, place, room).is_prefix_of(s),
        columns(clipped_styled(s, place, room), place) <= room,
        start.len() <= clipped_styled(s, place, room).len(),
    decreases s.len(),
{
    clipping_fits(s, place, room);
    if start.len() > 0 {
        let rest = s.drop_first();
        let next = next_place(place, s[0]);
        assert(start[0] == s[0]);
        assert(start.drop_first().is_prefix_of(rest)) by {
            assert(start.drop_first() =~= rest.subrange(0, start.len() - 1));
        }
        let left = if is_visible(place, s[0]) {
            room - 1
        } else {
            room
        };
        clipping_keeps_the_most(rest, next, left, start.drop_first());
    }
}

/// A clipped text never takes up more columns than there is room for, and a
/// text that fits is not clipped at all.
pub proof fn clipping_fits(s: Seq<char>, place: Place, room: int)
    requires
        0 <= room,
    ensures
        columns(clipped_styled(s, place, room), place) <= room,
        columns(s, place) <= room ==> clipped_styled(s, place, room) == s,
        columns(s, place) >= room ==> columns(clipped_styled(s, place, room), place) == room,
        clipped_styled(s, place, room).is_prefix_of(s),
    decreases s.len(),
{
    if s.len() > 0 {
        let out = clipped_styled(s, place, room);
        let rest = s.drop_first();
        let next = next_place(place, s[0]);
        if is_visible(place, s[0]) {
            if room > 0 {
                clipping_fits(rest, next, room - 1);
                assert(out.drop_first() =~= clipped_styled(rest, next, room - 1));
                assert(s =~= seq![s[0]] + rest);
                assert(out.is_prefix_of(s)) by {
                    let tail = clipped_styled(rest, next, room - 1);
                    assert(out =~= s.subrange(0, out.len() as int)) by {
                        assert(tail =~= rest.subrange(0, tail.len() as int));
                        assert forall|k: int| 0 <= k < out.len() implies out[k] == s[k] by {
                            if k > 0 {
                                assert(out[k] == tail[k - 1]);
                                assert(tail[k - 1] == rest.subrange(0, tail.len() as int)[k - 1]);
                            }
                        }
                    }
                }
            } else {
                assert(out =~= s.subrange(0, 0));
            }
        } else {
            clipping_fits(rest, next, room);
            assert(out.drop_first() =~= clipped_styled(rest, next, room));
            assert(s =~= seq![s[0]] + rest);
            assert(out.is_prefix_of(s)) by {
                let tail = clipped_styled(rest, next, room);
                assert(out =~= s.subrange(0, out.len() as int)) by {
                    assert(tail =~= rest.subrange(0, tail.len() as int));
                    assert forall|k: int| 0 <= k < out.len() implies out[k] == s[k] by {
                        if k > 0 {
                            assert(out[k] == tail[k - 1]);
                            assert(tail[k - 1] == rest.subrange(0, tail.len() as int)[k - 1]);
                        }
                    }
                }
            }
        }
    }
}

// -- Labels --

/// A label destined for embedding in a chrome bar. Keeps the styled
/// characters and the visible ones separately, so the bar's trailing
/// space fill can be sized correctly without parsing ANSI.
pub struct Label {
    pub styled: String,
    pub visible: String,
}

/// What a `Label` holds.
#[verifier::ext_equal]
pub struct LabelView {
    pub styled: Seq<char>,
    pub visible: Seq<char>,
}

impl DeepView for Label {
    type V = LabelView;

    open spec fn deep_view(&self) -> LabelView {
        LabelView { styled: self.styled@, visible: self.visible@ }
    }
}

/// A label without text.
pub open spec fn blank() -> LabelView {
    LabelView { styled: Seq::empty(), visible: Seq::empty() }
}

impl LabelView {
    /// The label with `s` behind it, in the style `sgr`.
    pub open spec fn styled_with(self, sgr: Seq<char>, s: Seq<char>) -> LabelView {
        LabelView {
            styled: self.styled + sgr + s + SGR_BAR_FG_RESET@,
            visible: self.visible + s,
        }
    }

    /// The label with `s` behind it, muted.
    pub open spec fn plain(self, s: Seq<char>) -> LabelView {
        self.styled_with(SGR_AMBER_DIM@, s)
    }

    /// The label with `s` behind it, bright.
    pub open spec fn key(self, s: Seq<char>) -> LabelView {
        self.styled_with(SGR_AMBER@, s)
    }

    /// The label with `s` behind it, as an error.
    pub open spec fn error(self, s: Seq<char>) -> LabelView {
        self.styled_with(SGR_ERROR@, s)
    }

    /// The label with `hints` behind it: each key and what it does.
    pub open spec fn hints(self, hints: Seq<(Seq<char>, Seq<char>)>) -> LabelView
        decreases hints.len(),
    {
        if hints.len() == 0 {
            self
        } else {
            let before = self.hints(hints.drop_last());
            let spaced = if hints.len() > 1 {
                before.plain(", "@)
            } else {
                before
            };
            spaced.key(hints.last().0).plain(": "@).plain(hints.last().1)
        }
    }

    /// The label with the `bindings` behind it: each key and what it does.
    pub open spec fn bindings(self, bindings: Seq<(Seq<char>, Seq<char>)>) -> LabelView
        decreases bindings.len(),
    {
        if bindings.len() == 0 {
            self
        } else {
            let before = self.bindings(bindings.drop_last());
            let spaced = if bindings.len() > 1 {
                before.plain("   "@)
            } else {
                before
            };
            spaced.key(bindings.last().0).plain(" "@).plain(bindings.last().1)
        }
    }
}

impl Label {
    pub fn new() -> (label: Label)
        ensures
            label.deep_view() == blank(),
    {
        Label { styled: String::new(), visible: String::new() }
    }

    fn push(&mut self, sgr: &str, s: &str)
        ensures
            final(self).deep_view() == old(self).deep_view().styled_with(sgr@, s@),
    {
        self.styled.append(sgr);
        self.styled.append(s);
        self.styled.append(SGR_BAR_FG_RESET);
        self.visible.append(s);
    }

    pub fn push_plain(&mut self, s: &str)
        ensures
            final(self).deep_view() == old(self).deep_view().plain(s@),
    {
        self.push(SGR_AMBER_DIM, s);
    }

    pub fn push_key(&mut self, s: &str)
        ensures
            final(self).deep_view() == old(self).deep_view().key(s@),
    {
        self.push(SGR_AMBER, s);
    }

    pub fn push_error(&mut self, s: &str)
        ensures
            final(self).deep_view() == old(self).deep_view().error(s@),
    {
        self.push(SGR_ERROR, s);
    }

    /// Appends the key hints of a mode.
    pub fn push_hints(&mut self, hints: &Vec<(&'static str, &'static str)>)
        ensures
            final(self).deep_view() == old(self).deep_view().hints(hints.deep_view()),
    {
        let ghost all = hints.deep_view();
        let ghost start = self.deep_view();
        for i in 0..hints.len()
            invariant
                all == hints.deep_view(),
                self.deep_view() == start.hints(all.take(i as int)),
        {
            assert(all.take(i + 1).drop_last() =~= all.take(i as int));
            assert(all[i as int] == (hints@[i as int].0@, hints@[i as int].1@));
            if i > 0 {
                self.push_plain(", ");
            }
            self.push_key(hints[i].0);
            self.push_plain(": ");
            self.push_plain(hints[i].1);
        }
        assert(all.take(all.len() as int) =~= all);
    }

    /// Appends the footer rows of a binding table.
    pub fn push_bindings(&mut self, bindings: &Vec<(&'static str, &'static str)>)
        ensures
            final(self).deep_view() == old(self).deep_view().bindings(bindings.deep_view()),
    {
        let ghost all = bindings.deep_view();
        let ghost start = self.deep_view();
        for i in 0..bindings.len()
            invariant
                all == bindings.deep_view(),
                self.deep_view() == start.bindings(all.take(i as int)),
        {
            assert(all.take(i + 1).drop_last() =~= all.take(i as int));
            assert(all[i as int] == (bindings@[i as int].0@, bindings@[i as int].1@));
            if i > 0 {
                self.push_plain("   ");
            }
            self.push_key(bindings[i].0);
            self.push_plain(" ");
            self.push_plain(bindings[i].1);
        }
        assert(all.take(all.len() as int) =~= all);
    }
}

/// The title of a list of `n` sessions.
pub open spec fn title(n: nat) -> LabelView {
    blank().key(
        "shpool ("@ + text::decimal(n) + (if n == 1 {
            " session)"@
        } else {
            " sessions)"@
        }),
    )
}

pub fn title_label(n: usize) -> (label: Label)
    ensures
        label.deep_view() == title(n as nat),
{
    let mut label = Label::new();
    let count = decimal_of(n as u64);
    let text = text::framed(
        "shpool (",
        count.as_str(),
        if n == 1 {
            " session)"
        } else {
            " sessions)"
        },
    );
    label.push_key(text.as_str());
    label
}

/// The prompt for the name of a new session.
pub open spec fn create_input(input: Seq<char>, hints: Seq<(Seq<char>, Seq<char>)>) -> LabelView {
    blank().plain("new session: "@).key(input).plain("_   ("@).hints(hints).plain(")"@)
}

pub fn create_input_label(input: &str, hints: &Vec<(&'static str, &'static str)>) -> (label: Label)
    ensures
        label.deep_view() == create_input(input@, hints.deep_view()),
{
    let mut label = Label::new();
    label.push_plain("new session: ");
    label.push_key(input);
    label.push_plain("_   (");
    label.push_hints(hints);
    label.push_plain(")");
    label
}

/// An error message.
pub open spec fn error(msg: Seq<char>) -> LabelView {
    blank().error("! "@).error(msg)
}

pub fn error_label(msg: &str) -> (label: Label)
    ensures
        label.deep_view() == error(msg@),
{
    let mut label = Label::new();
    label.push_error("! ");
    label.push_error(msg);
    label
}

/// `name` in double quotes.
pub open spec fn quoted(name: Seq<char>) -> Seq<char> {
    "\""@ + name + "\""@
}

/// The prompt before a session is killed.
pub open spec fn confirm_kill(name: Seq<char>, hints: Seq<(Seq<char>, Seq<char>)>) -> LabelView {
    blank().plain("kill "@).key(quoted(name)).plain("?   ("@).hints(hints).plain(")"@)
}

pub fn confirm_kill_label(name: &str, hints: &Vec<(&'static str, &'static str)>) -> (label: Label)
    ensures
        label.deep_view() == confirm_kill(name@, hints.deep_view()),
{
    let mut label = Label::new();
    label.push_plain("kill ");
    label.push_key(text::framed("\"", name, "\"").as_str());
    label.push_plain("?   (");
    label.push_hints(hints);
    label.push_plain(")");
    label
}

// -- Bars --

/// Where a bar's label stands.
#[derive(Clone, Copy, PartialEq, Eq, Structural)]
pub enum BarAlign {
    Left,
    Center,
}

pub open spec fn at_least_zero(n: int) -> int {
    if n < 0 {
        0
    } else {
        n
    }
}

/// The columns in front of a label that takes up `visible` of `width`.
pub open spec fn lead(width: int, visible: int, align: BarAlign) -> int {
    match align {
        BarAlign::Left => 2,
        BarAlign::Center => at_least_zero(width - visible) / 2,
    }
}

/// What a bar of `width` columns with `label` in it shows.
pub open spec fn bar_content(width: int, label: LabelView, align: BarAlign) -> Seq<char> {
    let visible = label.visible.len() as int;
    let before = lead(width, visible, align);
    let after = at_least_zero(width - before - visible);
    SGR_BAR_BG@ + spaces(before) + clipped_styled(
        label.styled,
        Place::Text,
        at_least_zero(width - before),
    ) + spaces(after) + SGR_BAR_END@ + SGR_RESET@
}

/// The screen line of a bar.
pub open spec fn bar(width: int, label: LabelView, align: BarAlign) -> Seq<char> {
    bar_content(width, label, align) + LINE_END@
}

/// Render a chrome bar with an embedded label, filling `width` columns
/// with the bar background. Left-aligned bars get a 2-col leading
/// pad; centered bars split the remaining space evenly.
pub fn render_bar(out: &mut String, width: u16, label: &Label, align: BarAlign)
    ensures
        final(out)@ == old(out)@ + bar(width as int, label.deep_view(), align),
{
    let ghost before = out@;
    let w: usize = width as usize;
    let visible: usize = label.visible.as_str().unicode_len();
    let slack: usize = if visible < w {
        w - visible
    } else {
        0
    };
    let (lead, trail): (usize, usize) = match align {
        BarAlign::Left => (
            2,
            if slack > 2 {
                slack - 2
            } else {
                0
            },
        ),
        BarAlign::Center => (slack / 2, slack - slack / 2),
    };
    // Clip the styled label to whatever visible space is left after
    // the leading pad. For labels that already fit this is a no-op;
    // for over-long labels this drops the tail so nothing bleeds
    // onto or clobbers the right margin.
    let available: usize = if lead < w {
        w - lead
    } else {
        0
    };
    let clipped = clip_styled(label.styled.as_str(), available);
    out.append(SGR_BAR_BG);
    push_spaces(out, lead);
    out.append(clipped.as_str());
    push_spaces(out, trail);
    out.append(SGR_BAR_END);
    out.append(SGR_RESET);
    out.append(LINE_END);
    assert(out@ =~= before + bar(width as int, label.deep_view(), align));
}

// -- What a frame amounts to --

/// Where the character behind `s` stands.
pub open spec fn place_after(s: Seq<char>, place: Place) -> Place
    decreases s.len(),
{
    if s.len() == 0 {
        place
    } else {
        place_after(s.drop_first(), next_place(place, s[0]))
    }
}

proof fn columns_of_concat(a: Seq<char>, b: Seq<char>, place: Place)
    ensures
        columns(a + b, place) == columns(a, place) + columns(b, place_after(a, place)),
        place_after(a + b, place) == place_after(b, place_after(a, place)),
    decreases a.len(),
{
    if a.len() == 0 {
        assert(a + b =~= b);
    } else {
        assert((a + b).drop_first() =~= a.drop_first() + b);
        columns_of_concat(a.drop_first(), b, next_place(place, a[0]));
    }
}

proof fn columns_of_spaces(n: int)
    requires
        0 <= n,
    ensures
        columns(spaces(n), Place::Text) == n,
        place_after(spaces(n), Place::Text) == Place::Text,
    decreases n,
{
    if n > 0 {
        assert(spaces(n).drop_first() =~= spaces(n - 1));
        columns_of_spaces(n - 1);
    }
}

proof fn clipping_ends_in_text(s: Seq<char>, place: Place, room: int)
    requires
        place_after(s, place) == Place::Text,
    ensures
        place_after(clipped_styled(s, place, room), place) == Place::Text,
    decreases s.len(),
{
    if s.len() > 0 {
        let next = next_place(place, s[0]);
        let left = if is_visible(place, s[0]) {
            room - 1
        } else {
            room
        };
        if !is_visible(place, s[0]) || room > 0 {
            let out = clipped_styled(s, place, room);
            assert(out.drop_first() =~= clipped_styled(s.drop_first(), next, left));
            clipping_ends_in_text(s.drop_first(), next, left);
        }
    }
}

spec fn ends_sequence(c: char) -> bool {
    next_place(Place::Sequence, c) == Place::Text
}

proof fn sequence_takes_no_columns(s: Seq<char>)
    requires
        0 < s.len(),
        ends_sequence(s.last()),
        forall|i: int| 0 <= i < s.len() - 1 ==> !ends_sequence(#[trigger] s[i]),
    ensures
        columns(s, Place::Sequence) == 0,
        place_after(s, Place::Sequence) == Place::Text,
    decreases s.len(),
{
    let rest = s.drop_first();
    if rest.len() == 0 {
        assert(columns(rest, Place::Text) == 0);
        assert(place_after(rest, Place::Text) == Place::Text);
    } else {
        assert(forall|i: int| 0 <= i < rest.len() ==> rest[i] == s[i + 1]);
        assert(!ends_sequence(s[0]));
        sequence_takes_no_columns(rest);
    }
}

/// A style is a CSI sequence and nothing else.
spec fn is_style(s: Seq<char>) -> bool {
    &&& 3 <= s.len()
    &&& is_esc(s[0])
    &&& s[1] == '['
    &&& ends_sequence(s.last())
    &&& forall|i: int| 2 <= i < s.len() - 1 ==> !ends_sequence(#[trigger] s[i])
}

proof fn style_takes_no_columns(s: Seq<char>)
    requires
        is_style(s),
    ensures
        columns(s, Place::Text) == 0,
        place_after(s, Place::Text) == Place::Text,
{
    let behind = s.drop_first();
    let rest = behind.drop_first();
    assert(behind[0] == s[1]);
    assert(forall|i: int| 0 <= i < rest.len() ==> rest[i] == s[i + 2]);
    sequence_takes_no_columns(rest);
    assert(columns(behind, Place::Escape) == columns(rest, Place::Sequence));
    assert(place_after(behind, Place::Escape) == place_after(rest, Place::Sequence));
}

proof fn styles_are_styles()
    ensures
        is_style(SGR_BAR_BG@),
        is_style(SGR_BAR_END@),
        is_style(SGR_RESET@),
        is_style(SGR_BAR_FG_RESET@),
        is_style(SGR_AMBER@),
        is_style(SGR_AMBER_DIM@),
        is_style(SGR_ERROR@),
{
    reveal_strlit("\x1b[48;5;236m");
    reveal_strlit("\x1b[49m");
    reveal_strlit("\x1b[0m");
    reveal_strlit("\x1b[22;39m");
    reveal_strlit("\x1b[1;38;2;235;185;90m");
    reveal_strlit("\x1b[38;2;130;105;75m");
    reveal_strlit("\x1b[1;38;2;255;120;100m");
}

/// A bar takes up exactly the width of the screen, however long its label, if
/// the label's visible columns are counted right. A left-aligned one needs a
/// screen at least as wide as its leading pad.
pub proof fn bars_fill_the_width(width: int, label: LabelView, align: BarAlign)
    requires
        columns(label.styled, Place::Text) == label.visible.len(),
        place_after(label.styled, Place::Text) == Place::Text,
        0 <= width,
        align == BarAlign::Left ==> 2 <= width,
    ensures
        columns(bar_content(width, label, align), Place::Text) == width,
{
    let visible = label.visible.len() as int;
    let before = lead(width, visible, align);
    let after = at_least_zero(width - before - visible);
    let room = at_least_zero(width - before);
    let text = clipped_styled(label.styled, Place::Text, room);
    styles_are_styles();
    style_takes_no_columns(SGR_BAR_BG@);
    style_takes_no_columns(SGR_BAR_END@);
    style_takes_no_columns(SGR_RESET@);
    columns_of_concat(SGR_BAR_END@, SGR_RESET@, Place::Text);
    columns_of_spaces(before);
    columns_of_spaces(after);
    clipping_fits(label.styled, Place::Text, room);
    clipping_ends_in_text(label.styled, Place::Text, room);
    let a = SGR_BAR_BG@ + spaces(before);
    columns_of_concat(SGR_BAR_BG@, spaces(before), Place::Text);
    columns_of_concat(a, text, Place::Text);
    columns_of_concat(a + text, spaces(after), Place::Text);
    columns_of_concat(a + text + spaces(after), SGR_BAR_END@ + SGR_RESET@, Place::Text);
    assert(bar_content(width, label, align) =~= a + text + spaces(after) + (SGR_BAR_END@
        + SGR_RESET@));
}

/// A text without escape characters is all visible.
proof fn columns_of_plain_text(s: Seq<char>)
    requires
        forall|i: int| 0 <= i < s.len() ==> !is_esc(#[trigger] s[i]),
    ensures
        columns(s, Place::Text) == s.len(),
        place_after(s, Place::Text) == Place::Text,
    decreases s.len(),
{
    if s.len() > 0 {
        assert(forall|i: int|
            0 <= i < s.drop_first().len() ==> s.drop_first()[i] == s[i + 1]);
        columns_of_plain_text(s.drop_first());
    }
}

/// A label's visible columns stay counted right, whatever text without escape
/// characters is added to it in whichever style.
pub proof fn labels_count_their_columns(label: LabelView, s: Seq<char>)
    requires
        columns(label.styled, Place::Text) == label.visible.len(),
        place_after(label.styled, Place::Text) == Place::Text,
        forall|i: int| 0 <= i < s.len() ==> !is_esc(#[trigger] s[i]),
    ensures
        columns(label.plain(s).styled, Place::Text) == label.plain(s).visible.len(),
        place_after(label.plain(s).styled, Place::Text) == Place::Text,
        columns(label.key(s).styled, Place::Text) == label.key(s).visible.len(),
        place_after(label.key(s).styled, Place::Text) == Place::Text,
        columns(label.error(s).styled, Place::Text) == label.error(s).visible.len(),
        place_after(label.error(s).styled, Place::Text) == Place::Text,
{
    styles_are_styles();
    columns_of_plain_text(s);
    styling_counts(label, SGR_AMBER_DIM@, s);
    styling_counts(label, SGR_AMBER@, s);
    styling_counts(label, SGR_ERROR@, s);
}

proof fn styling_counts(label: LabelView, sgr: Seq<char>, s: Seq<char>)
    requires
        columns(label.styled, Place::Text) == label.visible.len(),
        place_after(label.styled, Place::Text) == Place::Text,
        columns(s, Place::Text) == s.len(),
        place_after(s, Place::Text) == Place::Text,
        is_style(sgr),
        is_style(SGR_BAR_FG_RESET@),
    ensures
        columns(label.styled_with(sgr, s).styled, Place::Text) == label.styled_with(
            sgr,
            s,
        ).visible.len(),
        place_after(label.styled_with(sgr, s).styled, Place::Text) == Place::Text,
{
    style_takes_no_columns(sgr);
    style_takes_no_columns(SGR_BAR_FG_RESET@);
    columns_of_concat(label.styled, sgr, Place::Text);
    columns_of_concat(label.styled + sgr, s, Place::Text);
    columns_of_concat(label.styled + sgr + s, SGR_BAR_FG_RESET@, Place::Text);
}

// -- What is seen of a frame --

/// The characters of the styled text `s` that take up columns.
pub open spec fn seen_from(s: Seq<char>, place: Place) -> Seq<char>
    decreases s.len(),
{
    if s.len() == 0 {
        Seq::empty()
    } else if is_visible(place, s[0]) {
        seq![s[0]] + seen_from(s.drop_first(), next_place(place, s[0]))
    } else {
        seen_from(s.drop_first(), next_place(place, s[0]))
    }
}

/// What is seen of the styled text `s`.
pub open spec fn seen(s: Seq<char>) -> Seq<char> {
    seen_from(s, Place::Text)
}

/// No character of `s` starts an escape sequence.
pub open spec fn is_plain(s: Seq<char>) -> bool {
    forall|i: int| 0 <= i < s.len() ==> #[trigger] s[i] != '\x1b'
}

/// What is seen takes up as many columns as it has characters.
pub proof fn columns_are_seen(s: Seq<char>, place: Place)
    ensures
        columns(s, place) == seen_from(s, place).len(),
    decreases s.len(),
{
    if s.len() > 0 {
        columns_are_seen(s.drop_first(), next_place(place, s[0]));
    }
}

proof fn seen_of_concat(a: Seq<char>, b: Seq<char>, place: Place)
    ensures
        seen_from(a + b, place) == seen_from(a, place) + seen_from(b, place_after(a, place)),
    decreases a.len(),
{
    if a.len() == 0 {
        assert(a + b =~= b);
        assert(seen_from(a + b, place) =~= seen_from(a, place) + seen_from(b, place));
    } else {
        let next = next_place(place, a[0]);
        assert((a + b).drop_first() =~= a.drop_first() + b);
        seen_of_concat(a.drop_first(), b, next);
        assert(seen_from(a + b, place) =~= seen_from(a, place) + seen_from(
            b,
            place_after(a, place),
        ));
    }
}

proof fn seen_of_plain(s: Seq<char>)
    requires
        is_plain(s),
    ensures
        seen(s) == s,
        place_after(s, Place::Text) == Place::Text,
    decreases s.len(),
{
    if s.len() > 0 {
        let rest = s.drop_first();
        assert forall|i: int| 0 <= i < rest.len() implies #[trigger] rest[i] != '\x1b' by {
            assert(s[i + 1] != '\x1b');
        }
        assert(s[0] != '\x1b');
        seen_of_plain(rest);
        assert(seen(s) =~= s);
    } else {
        assert(seen(s) =~= s);
    }
}

proof fn seen_of_style(s: Seq<char>)
    requires
        is_style(s),
    ensures
        seen(s) == Seq::<char>::empty(),
        place_after(s, Place::Text) == Place::Text,
{
    style_takes_no_columns(s);
    columns_are_seen(s, Place::Text);
    assert(seen(s) =~= Seq::empty());
}

/// Text is seen as it is, and so is what follows it.
pub proof fn text_is_seen(s: Seq<char>, rest: Seq<char>)
    requires
        is_plain(s),
    ensures
        seen(s + rest) == s + seen(rest),
{
    seen_of_plain(s);
    seen_of_concat(s, rest, Place::Text);
}

/// Nothing is seen of an escape sequence: ESC, `[`, anything up to the first
/// character from `@` to `~`, and that character. Nor is anything seen of an
/// ESC with any other character behind it.
pub proof fn escape_sequences_are_not_seen(
    params: Seq<char>,
    last: char,
    other: char,
    rest: Seq<char>,
)
    requires
        forall|i: int| 0 <= i < params.len() ==> !('@' <= #[trigger] params[i] <= '~'),
        '@' <= last <= '~',
        other != '[',
    ensures
        seen(seq!['\x1b', '['] + params + seq![last] + rest) == seen(rest),
        seen(seq!['\x1b', other] + rest) == seen(rest),
{
    let style = seq!['\x1b', '['] + params + seq![last];
    assert forall|i: int| 2 <= i < style.len() - 1 implies !ends_sequence(#[trigger] style[i]) by {
        assert(style[i] == params[i - 2]);
    }
    seen_of_style(style);
    seen_of_concat(style, rest, Place::Text);
    assert(seq!['\x1b', '['] + params + seq![last] + rest =~= style + rest);
    let pair = seq!['\x1b', other];
    assert(pair.drop_first() =~= seq![other]);
    assert(seq![other].drop_first() =~= Seq::empty());
    assert(place_after(Seq::empty(), Place::Text) == Place::Text);
    assert(place_after(seq![other], Place::Escape) == Place::Text);
    assert(place_after(pair, Place::Text) == Place::Text);
    assert(seen_from(Seq::empty(), Place::Text) =~= Seq::empty());
    assert(seen_from(seq![other], Place::Escape) =~= Seq::empty());
    assert(seen(pair) =~= Seq::empty());
    seen_of_concat(pair, rest, Place::Text);
    assert(seen(rest) =~= Seq::empty() + seen(rest));
}

/// Of a text that is clipped to some columns, what is seen is what was seen of
/// it before, up to that many characters.
pub proof fn clipping_cuts_what_is_seen(s: Seq<char>, place: Place, room: int)
    requires
        0 <= room,
    ensures
        seen_from(clipped_styled(s, place, room), place) == if seen_from(s, place).len() <= room {
            seen_from(s, place)
        } else {
            seen_from(s, place).take(room)
        },
    decreases s.len(),
{
    if s.len() > 0 {
        let rest = s.drop_first();
        let next = next_place(place, s[0]);
        let out = clipped_styled(s, place, room);
        if is_visible(place, s[0]) {
            if room > 0 {
                clipping_cuts_what_is_seen(rest, next, room - 1);
                assert(out.drop_first() =~= clipped_styled(rest, next, room - 1));
                let all = seen_from(s, place);
                let tail = seen_from(rest, next);
                if all.len() > room {
                    assert(all.take(room) =~= seq![s[0]] + tail.take(room - 1));
                }
            } else {
                assert(seen_from(out, place) =~= seen_from(s, place).take(0));
            }
        } else {
            clipping_cuts_what_is_seen(rest, next, room);
            assert(out.drop_first() =~= clipped_styled(rest, next, room));
        }
    }
}

/// A label shows its text, and nothing else.
pub open spec fn shows(label: LabelView, s: Seq<char>) -> bool {
    &&& label.visible == s
    &&& seen(label.styled) == s
    &&& place_after(label.styled, Place::Text) == Place::Text
}

/// A text that is added to a label, in whichever style, is seen behind what
/// the label showed before.
pub proof fn labels_show_what_is_added(label: LabelView, before: Seq<char>, s: Seq<char>)
    requires
        shows(label, before),
        is_plain(s),
    ensures
        shows(label.plain(s), before + s),
        shows(label.key(s), before + s),
        shows(label.error(s), before + s),
        shows(blank(), Seq::empty()),
{
    styles_are_styles();
    styling_shows(label, before, SGR_AMBER_DIM@, s);
    styling_shows(label, before, SGR_AMBER@, s);
    styling_shows(label, before, SGR_ERROR@, s);
}

proof fn styling_shows(label: LabelView, before: Seq<char>, sgr: Seq<char>, s: Seq<char>)
    requires
        shows(label, before),
        is_plain(s),
        is_style(sgr),
        is_style(SGR_BAR_FG_RESET@),
    ensures
        shows(label.styled_with(sgr, s), before + s),
{
    let reset = SGR_BAR_FG_RESET@;
    seen_of_style(sgr);
    seen_of_style(reset);
    seen_of_plain(s);
    seen_of_concat(label.styled, sgr, Place::Text);
    seen_of_concat(label.styled + sgr, s, Place::Text);
    seen_of_concat(label.styled + sgr + s, reset, Place::Text);
    columns_of_concat(label.styled, sgr, Place::Text);
    columns_of_concat(label.styled + sgr, s, Place::Text);
    columns_of_concat(label.styled + sgr + s, reset, Place::Text);
    assert(seen(label.styled_with(sgr, s).styled) =~= before + s);
}

proof fn spaces_are_plain(n: int)
    ensures
        is_plain(spaces(n)),
{
}

/// A bar shows its label behind two spaces, or in the middle, with spaces up
/// to the full width; of a label that is too long, it shows the beginning.
#[verifier::rlimit(40)]
pub proof fn bars_show_their_label(width: int, label: LabelView, s: Seq<char>, align: BarAlign)
    requires
        shows(label, s),
        2 <= width,
    ensures
        ({
            let n = s.len() as int;
            let line = seen(bar_content(width, label, align));
            &&& line.len() == width
            &&& align == BarAlign::Left && n <= width - 2 ==> line == spaces(2) + s + spaces(
                width - 2 - n,
            )
            &&& align == BarAlign::Left && n > width - 2 ==> line == spaces(2) + s.take(width - 2)
            &&& align == BarAlign::Center && n <= width ==> line == spaces((width - n) / 2) + s
                + spaces(width - n - (width - n) / 2)
            &&& align == BarAlign::Center && n > width ==> line == s.take(width)
        }),
{
    let n = s.len() as int;
    let before = lead(width, n, align);
    let after = at_least_zero(width - before - n);
    let room = at_least_zero(width - before);
    let text = clipped_styled(label.styled, Place::Text, room);
    let a = SGR_BAR_BG@ + spaces(before);
    let z = SGR_BAR_END@ + SGR_RESET@;
    styles_are_styles();
    seen_of_style(SGR_BAR_BG@);
    seen_of_style(SGR_BAR_END@);
    seen_of_style(SGR_RESET@);
    seen_of_concat(SGR_BAR_END@, SGR_RESET@, Place::Text);
    spaces_are_plain(before);
    spaces_are_plain(after);
    seen_of_plain(spaces(before));
    seen_of_plain(spaces(after));
    clipping_cuts_what_is_seen(label.styled, Place::Text, room);
    clipping_ends_in_text(label.styled, Place::Text, room);
    seen_of_concat(SGR_BAR_BG@, spaces(before), Place::Text);
    columns_of_concat(SGR_BAR_BG@, spaces(before), Place::Text);
    seen_of_concat(a, text, Place::Text);
    columns_of_concat(a, text, Place::Text);
    seen_of_concat(a + text, spaces(after), Place::Text);
    columns_of_concat(a + text, spaces(after), Place::Text);
    seen_of_concat(a + text + spaces(after), z, Place::Text);
    assert(bar_content(width, label, align) =~= a + text + spaces(after) + z);
    let line = seen(bar_content(width, label, align));
    let cut = if n <= room {
        s
    } else {
        s.take(room)
    };
    assert(line =~= spaces(before) + cut + spaces(after));
    if align == BarAlign::Left {
        if n <= width - 2 {
            assert(line =~= spaces(2) + s + spaces(width - 2 - n));
        } else {
            assert(line =~= spaces(2) + s.take(width - 2));
        }
    } else if n <= width {
        assert(line =~= spaces((width - n) / 2) + s + spaces(width - n - (width - n) / 2));
    } else {
        assert(line =~= s.take(width));
    }
}

/// `n` spaces are `n` characters, each of them a space.
pub proof fn spaces_are_spaces(n: int)
    requires
        0 <= n,
    ensures
        spaces(n).len() == n,
        forall|i: int| 0 <= i < n ==> #[trigger] spaces(n)[i] == ' ',
{
}

/// A text is padded with spaces behind it up to the width it should have, and
/// cut off there; one that is wider stays as it is when it is padded.
pub proof fn padding_and_clipping(s: Seq<char>, width: int)
    requires
        0 <= width,
    ensures
        s.len() <= width ==> padded(s, width).len() == width && padded(s, width).take(
            s.len() as int,
        ) == s && clipped(s, width) == s,
        forall|i: int| s.len() <= i < padded(s, width).len() ==> #[trigger] padded(s, width)[i]
            == ' ',
        s.len() > width ==> padded(s, width) == s && clipped(s, width) == s.take(width),
{
    assert(padded(s, width).take(s.len() as int) =~= s);
    if s.len() > width {
        assert(padded(s, width) =~= s);
    }
}

/// The title says how many sessions there are.
pub proof fn title_says_how_many(n: nat)
    ensures
        n == 1 ==> title(n).visible == "shpool ("@ + text::decimal(1) + " session)"@,
        n != 1 ==> title(n).visible == "shpool ("@ + text::decimal(n) + " sessions)"@,
        shows(title(n), title(n).visible),
{
    let name = "shpool ("@ + text::decimal(n) + (if n == 1 {
        " session)"@
    } else {
        " sessions)"@
    });
    reveal_strlit("shpool (");
    reveal_strlit(" session)");
    reveal_strlit(" sessions)");
    text::numbers_read_back(n);
    assert(is_plain(name));
    blank_labels_show_nothing();
    labels_show_what_is_added(blank(), Seq::empty(), name);
    assert(Seq::empty() + name =~= name);
}

/// Nothing is shown of a label without text.
pub proof fn blank_labels_show_nothing()
    ensures
        shows(blank(), Seq::empty()),
{
    assert(seen(blank().styled) =~= Seq::empty());
}

/// A hint reads as its key, a colon and what it does; two of them have a comma
/// between them.
#[verifier::rlimit(40)]
pub proof fn hints_read(
    label: LabelView,
    before: Seq<char>,
    a: (Seq<char>, Seq<char>),
    b: (Seq<char>, Seq<char>),
)
    requires
        shows(label, before),
        is_plain(a.0) && is_plain(a.1) && is_plain(b.0) && is_plain(b.1),
    ensures
        shows(
            label.hints(seq![a, b]),
            before + a.0 + ": "@ + a.1 + ", "@ + b.0 + ": "@ + b.1,
        ),
{
    reveal_strlit(": ");
    reveal_strlit(", ");
    let one = seq![a];
    let two = seq![a, b];
    assert(two.drop_last() =~= one);
    assert(one.drop_last() =~= Seq::empty());
    reveal_with_fuel(LabelView::hints, 3);
    assert(label.hints(Seq::empty()) == label);
    let l1 = label.key(a.0);
    let l2 = l1.plain(": "@);
    let l3 = l2.plain(a.1);
    let l4 = l3.plain(", "@);
    let l5 = l4.key(b.0);
    let l6 = l5.plain(": "@);
    let l7 = l6.plain(b.1);
    assert(label.hints(one) == l3);
    assert(label.hints(two) == l7);
    labels_show_what_is_added(label, before, a.0);
    let t1 = before + a.0;
    labels_show_what_is_added(l1, t1, ": "@);
    let t2 = t1 + ": "@;
    labels_show_what_is_added(l2, t2, a.1);
    let t3 = t2 + a.1;
    labels_show_what_is_added(l3, t3, ", "@);
    let t4 = t3 + ", "@;
    labels_show_what_is_added(l4, t4, b.0);
    let t5 = t4 + b.0;
    labels_show_what_is_added(l5, t5, ": "@);
    labels_show_what_is_added(l6, t5 + ": "@, b.1);
}

/// A footer reads as its bindings one behind the other, each its key, a space
/// and what it does, with three spaces between two of them.
pub proof fn bindings_read(
    label: LabelView,
    before: Seq<char>,
    bindings: Seq<(Seq<char>, Seq<char>)>,
    more: (Seq<char>, Seq<char>),
    so_far: Seq<char>,
)
    requires
        shows(label, before),
        shows(label.bindings(bindings), so_far),
        is_plain(more.0) && is_plain(more.1),
    ensures
        shows(label.bindings(Seq::empty()), before),
        shows(
            label.bindings(bindings + seq![more]),
            so_far + (if bindings.len() > 0 {
                "   "@
            } else {
                Seq::empty()
            }) + more.0 + " "@ + more.1,
        ),
{
    reveal_strlit("   ");
    reveal_strlit(" ");
    let all = bindings + seq![more];
    assert(all.drop_last() =~= bindings);
    let l0 = label.bindings(bindings);
    let gap = if bindings.len() > 0 {
        "   "@
    } else {
        Seq::empty()
    };
    labels_show_what_is_added(l0, so_far, "   "@);
    let l1 = if bindings.len() > 0 {
        l0.plain("   "@)
    } else {
        l0
    };
    let t1 = so_far + gap;
    if bindings.len() == 0 {
        assert(t1 =~= so_far);
    }
    labels_show_what_is_added(l1, t1, more.0);
    let l2 = l1.key(more.0);
    labels_show_what_is_added(l2, t1 + more.0, " "@);
    labels_show_what_is_added(l2.plain(" "@), t1 + more.0 + " "@, more.1);
}

/// The prompt for the name of a new session shows what has been typed.
#[verifier::rlimit(40)]
pub proof fn create_prompt_reads(input: Seq<char>, a: (Seq<char>, Seq<char>), b: (Seq<char>, Seq<char>))
    requires
        is_plain(input),
        is_plain(a.0) && is_plain(a.1) && is_plain(b.0) && is_plain(b.1),
    ensures
        shows(
            create_input(input, seq![a, b]),
            "new session: "@ + input + "_   ("@ + a.0 + ": "@ + a.1 + ", "@ + b.0 + ": "@ + b.1
                + ")"@,
        ),
{
    reveal_strlit("new session: ");
    reveal_strlit("_   (");
    reveal_strlit(")");
    blank_labels_show_nothing();
    labels_show_what_is_added(blank(), Seq::empty(), "new session: "@);
    assert(Seq::empty() + "new session: "@ =~= "new session: "@);
    let l1 = blank().plain("new session: "@);
    labels_show_what_is_added(l1, "new session: "@, input);
    labels_show_what_is_added(l1.key(input), "new session: "@ + input, "_   ("@);
    let l3 = l1.key(input).plain("_   ("@);
    let t3 = "new session: "@ + input + "_   ("@;
    hints_read(l3, t3, a, b);
    labels_show_what_is_added(
        l3.hints(seq![a, b]),
        t3 + a.0 + ": "@ + a.1 + ", "@ + b.0 + ": "@ + b.1,
        ")"@,
    );
}

/// The prompt before a session is killed names the session, in quotes.
#[verifier::rlimit(40)]
pub proof fn kill_prompt_reads(name: Seq<char>, a: (Seq<char>, Seq<char>), b: (Seq<char>, Seq<char>))
    requires
        is_plain(name),
        is_plain(a.0) && is_plain(a.1) && is_plain(b.0) && is_plain(b.1),
    ensures
        shows(
            confirm_kill(name, seq![a, b]),
            "kill "@ + ("\""@ + name + "\""@) + "?   ("@ + a.0 + ": "@ + a.1 + ", "@ + b.0 + ": "@
                + b.1 + ")"@,
        ),
{
    reveal_strlit("kill ");
    reveal_strlit("\"");
    reveal_strlit("?   (");
    reveal_strlit(")");
    let q = "\""@ + name + "\""@;
    assert(is_plain(q));
    blank_labels_show_nothing();
    labels_show_what_is_added(blank(), Seq::empty(), "kill "@);
    assert(Seq::empty() + "kill "@ =~= "kill "@);
    let l1 = blank().plain("kill "@);
    labels_show_what_is_added(l1, "kill "@, q);
    labels_show_what_is_added(l1.key(q), "kill "@ + q, "?   ("@);
    let l3 = l1.key(q).plain("?   ("@);
    let t3 = "kill "@ + q + "?   ("@;
    hints_read(l3, t3, a, b);
    labels_show_what_is_added(
        l3.hints(seq![a, b]),
        t3 + a.0 + ": "@ + a.1 + ", "@ + b.0 + ": "@ + b.1,
        ")"@,
    );
}

/// An error is shown behind an exclamation mark.
pub proof fn errors_read(msg: Seq<char>)
    requires
        is_plain(msg),
    ensures
        shows(error(msg), "! "@ + msg),
{
    reveal_strlit("! ");
    blank_labels_show_nothing();
    labels_show_what_is_added(blank(), Seq::empty(), "! "@);
    assert(Seq::empty() + "! "@ =~= "! "@);
    labels_show_what_is_added(blank().error("! "@), "! "@, msg);
}

/// Muted, bright and error text have their colors, and end with the colors of
/// the bar around them.
pub proof fn labels_have_their_colors(label: LabelView, s: Seq<char>)
    ensures
        label.plain(s).styled == label.styled + "\x1b[38;2;130;105;75m"@ + s + "\x1b[22;39m"@,
        label.key(s).styled == label.styled + "\x1b[1;38;2;235;185;90m"@ + s + "\x1b[22;39m"@,
        label.error(s).styled == label.styled + "\x1b[1;38;2;255;120;100m"@ + s + "\x1b[22;39m"@,
{
}

/// A bar has its background from its first column to its last, and leaves no
/// style behind. A left-aligned one on a screen without room for any of its
/// label is two spaces.
#[verifier::rlimit(40)]
pub proof fn bars_have_their_background(width: int, label: LabelView, align: BarAlign)
    requires
        0 <= width,
    ensures
        ({
            let bar = bar_content(width, label, align);
            let begin = "\x1b[48;5;236m"@;
            let end = "\x1b[49m"@ + "\x1b[0m"@;
            &&& bar.len() >= begin.len() + end.len()
            &&& bar.take(begin.len() as int) == begin
            &&& bar.skip(bar.len() - end.len()) == end
            &&& align == BarAlign::Left && width < 2 && place_after(label.styled, Place::Text)
                == Place::Text ==> seen(bar) == spaces(2)
        }),
{
    let visible = label.visible.len() as int;
    let before = lead(width, visible, align);
    let after = at_least_zero(width - before - visible);
    let room = at_least_zero(width - before);
    let text = clipped_styled(label.styled, Place::Text, room);
    let begin = SGR_BAR_BG@;
    let end = SGR_BAR_END@ + SGR_RESET@;
    let bar = bar_content(width, label, align);
    let a = begin + spaces(before);
    assert(bar =~= a + text + spaces(after) + end);
    assert(bar.take(begin.len() as int) =~= begin);
    assert(bar.skip(bar.len() - end.len()) =~= end);
    if align == BarAlign::Left && width < 2 && place_after(label.styled, Place::Text)
        == Place::Text {
        styles_are_styles();
        seen_of_style(SGR_BAR_BG@);
        seen_of_style(SGR_BAR_END@);
        seen_of_style(SGR_RESET@);
        spaces_are_plain(2);
        seen_of_plain(spaces(2));
        assert(spaces(after) =~= Seq::empty());
        clipping_cuts_what_is_seen(label.styled, Place::Text, 0);
        clipping_ends_in_text(label.styled, Place::Text, 0);
        seen_of_concat(begin, spaces(2), Place::Text);
        columns_of_concat(begin, spaces(2), Place::Text);
        seen_of_concat(a, text, Place::Text);
        columns_of_concat(a, text, Place::Text);
        seen_of_concat(SGR_BAR_END@, SGR_RESET@, Place::Text);
        seen_of_concat(a + text, end, Place::Text);
        assert(bar =~= a + text + end);
        assert(seen(text) =~= Seq::empty());
        assert(seen(bar) =~= spaces(2));
    }
}

}
