//! Session-name templates.
//!
//! A session-name template like `{workspace}-edit` embeds `{name}` tokens
//! that resolve against the daemon's template variables. The functions
//! here extract those tokens, resolve a template against a value map, find
//! which live attachments a variable governs (the set that would re-dial
//! if the variable's value changed), and harvest and rank values for a
//! variable.
//!
//! A token is a `{`, one or more identifier characters (`[A-Za-z0-9_]`),
//! then a `}`. A `{` that opens no such token is literal text.

use vstd::hash_map::StringHashMap;
use vstd::prelude::*;

use crate::session;
use crate::session::{Session, SessionView, AttachmentView};
use crate::text;
use crate::text::{chars_of, contains_text, same, substring};

verus! {

// -- Tokens --

/// The characters that may appear inside a `{name}` token.
pub open spec fn is_ident(c: char) -> bool {
    ||| '0' <= c <= '9'
    ||| 'A' <= c <= 'Z'
    ||| 'a' <= c <= 'z'
    ||| c == '_'
}

/// The end of the run of identifier characters of `s` that starts at `i`.
pub open spec fn ident_end(s: Seq<char>, i: int) -> int
    decreases s.len() - i,
{
    if 0 <= i < s.len() && is_ident(s[i]) {
        ident_end(s, i + 1)
    } else {
        i
    }
}

/// Where the token that opens at `i` has its closing brace, if one opens there.
pub open spec fn token_at(s: Seq<char>, i: int) -> Option<int> {
    let end = ident_end(s, i + 1);
    if 0 <= i < s.len() && s[i] == '{' && i + 1 < end < s.len() && s[end] == '}' {
        Some(end)
    } else {
        None
    }
}

/// A piece of a template: one character of literal text, or a token's name.
pub enum Piece {
    Text(Seq<char>),
    Token(Seq<char>),
}

/// The pieces of `s` from position `i` on, left to right.
pub open spec fn pieces_from(s: Seq<char>, i: int) -> Seq<Piece>
    decreases s.len() - i,
{
    if i < 0 || i >= s.len() {
        Seq::empty()
    } else {
        match token_at(s, i) {
            Some(end) => seq![Piece::Token(s.subrange(i + 1, end))] + pieces_from(s, end + 1),
            None => seq![Piece::Text(seq![s[i]])] + pieces_from(s, i + 1),
        }
    }
}

/// The pieces of a template.
pub open spec fn pieces(s: Seq<char>) -> Seq<Piece> {
    pieces_from(s, 0)
}

/// The names of the tokens among `ps`, in order.
pub open spec fn token_names(ps: Seq<Piece>) -> Seq<Seq<char>>
    decreases ps.len(),
{
    if ps.len() == 0 {
        Seq::empty()
    } else {
        match ps.last() {
            Piece::Token(name) => token_names(ps.drop_last()).push(name),
            Piece::Text(_) => token_names(ps.drop_last()),
        }
    }
}

/// The variables that a template references: each once, in first-seen order.
pub open spec fn vars_of(tmpl: Seq<char>) -> Seq<Seq<char>> {
    text::distinct(token_names(pieces(tmpl)))
}

/// The template references the variable.
pub open spec fn mentions(tmpl: Seq<char>, var: Seq<char>) -> bool {
    vars_of(tmpl).contains(var)
}

/// A literal run of characters, as pieces.
pub open spec fn text_pieces(s: Seq<char>) -> Seq<Piece> {
    Seq::new(s.len(), |i: int| Piece::Text(seq![s[i]]))
}

proof fn token_names_of_concat(a: Seq<Piece>, b: Seq<Piece>)
    ensures
        token_names(a + b) == token_names(a) + token_names(b),
    decreases b.len(),
{
    if b.len() == 0 {
        assert(a + b =~= a);
    } else {
        assert((a + b).drop_last() =~= a + b.drop_last());
        token_names_of_concat(a, b.drop_last());
        assert(token_names(a + b) =~= token_names(a) + token_names(b));
    }
}

proof fn text_has_no_tokens(s: Seq<char>)
    ensures
        token_names(text_pieces(s)) == Seq::<Seq<char>>::empty(),
    decreases s.len(),
{
    if s.len() > 0 {
        assert(text_pieces(s).drop_last() =~= text_pieces(s.drop_last()));
        text_has_no_tokens(s.drop_last());
    }
}

/// True for the identifier characters that may appear inside a `{name}`
/// token.
pub fn is_ident_char(c: char) -> (r: bool)
    ensures
        r == is_ident(c),
{
    ('0' <= c && c <= '9') || ('A' <= c && c <= 'Z') || ('a' <= c && c <= 'z') || c == '_'
}

/// A scanned stretch of a template: either a run of literal text or a
/// `{name}` token (carrying just the inner name).
pub enum Segment {
    Literal(String),
    Token(String),
}

/// What a `Segment` holds.
#[verifier::ext_equal]
pub enum SegmentView {
    Literal(Seq<char>),
    Token(Seq<char>),
}

impl DeepView for Segment {
    type V = SegmentView;

    open spec fn deep_view(&self) -> SegmentView {
        match self {
            Segment::Literal(s) => SegmentView::Literal(s@),
            Segment::Token(s) => SegmentView::Token(s@),
        }
    }
}

/// The pieces of one segment.
pub open spec fn segment_pieces(segment: SegmentView) -> Seq<Piece> {
    match segment {
        SegmentView::Literal(s) => text_pieces(s),
        SegmentView::Token(name) => seq![Piece::Token(name)],
    }
}

/// The pieces that `segments` stand for.
pub open spec fn expand(segments: Seq<SegmentView>) -> Seq<Piece>
    decreases segments.len(),
{
    if segments.len() == 0 {
        Seq::empty()
    } else {
        expand(segments.drop_last()) + segment_pieces(segments.last())
    }
}

/// Literal runs are as long as they can be: none is empty, and no two
/// stand side by side.
pub open spec fn runs_are_maximal(segments: Seq<SegmentView>) -> bool {
    &&& forall|i: int|
        0 <= i < segments.len() ==> (#[trigger] segments[i] matches SegmentView::Literal(s)
            ==> s.len() > 0)
    &&& forall|i: int|
        0 < i < segments.len() ==> (#[trigger] segments[i] is Literal ==> segments[i - 1] is Token)
}

/// Split `tmpl` into literal runs and `{name}` tokens, left to right. A
/// `{` that doesn't open a well-formed `{ident+}` token stays in a
/// literal run.
pub fn scan_template(tmpl: &str) -> (segments: Vec<Segment>)
    ensures
        expand(segments.deep_view()) == pieces(tmpl@),
        runs_are_maximal(segments.deep_view()),
{
    let chars = chars_of(tmpl);
    let n: usize = chars.len();
    let mut segments: Vec<Segment> = Vec::new();
    let mut i: usize = 0;
    let mut literal_start: usize = 0;
    assert(expand(segments.deep_view()) =~= Seq::empty());
    assert(text_pieces(chars@.subrange(0, 0)) =~= Seq::empty());
    while i < n
        invariant
            n == chars@.len(),
            chars@ == tmpl@,
            literal_start <= i <= n,
            expand(segments.deep_view()) + text_pieces(
                chars@.subrange(literal_start as int, i as int),
            ) + pieces_from(chars@, i as int) == pieces(chars@),
            runs_are_maximal(segments.deep_view()),
            segments@.len() > 0 ==> segments@.last() is Token,
        decreases n - i,
    {
        let ghost done = expand(segments.deep_view());
        let ghost run = chars@.subrange(literal_start as int, i as int);
        if chars[i] != '{' {
            proof {
                assert(token_at(chars@, i as int) is None);
                assert(text_pieces(chars@.subrange(literal_start as int, i + 1)) =~= text_pieces(
                    run,
                ) + seq![Piece::Text(seq![chars@[i as int]])]);
                assert(done + text_pieces(chars@.subrange(literal_start as int, i + 1))
                    + pieces_from(chars@, i + 1) =~= pieces(chars@));
            }
            i = i + 1;
            continue ;
        }
        // Read the identifier run after the brace.

        let name_start: usize = i + 1;
        let mut j: usize = name_start;
        while j < n && is_ident_char(chars[j])
            invariant
                n == chars@.len(),
                i + 1 == name_start,
                name_start <= j <= n,
                ident_end(chars@, name_start as int) == ident_end(chars@, j as int),
            ensures
                name_start <= j <= n,
                ident_end(chars@, name_start as int) == j,
            decreases n - j,
        {
            j = j + 1;
        }
        // A token needs at least one identifier char and a closing brace.
        if j > name_start && j < n && chars[j] == '}' {
            proof {
                assert(token_at(chars@, i as int) == Some(j as int));
            }
            let ghost segments_before = segments.deep_view();
            if literal_start < i {
                let literal = substring(chars.as_slice(), literal_start, i);
                segments.push(Segment::Literal(literal));
                assert(segments.deep_view() =~= segments_before.push(SegmentView::Literal(run)));
                assert(segments.deep_view().drop_last() =~= segments_before);
            } else {
                assert(text_pieces(run) =~= Seq::empty());
            }
            assert(expand(segments.deep_view()) =~= done + text_pieces(run));
            let ghost segments_mid = segments.deep_view();
            let name = substring(chars.as_slice(), name_start, j);
            segments.push(Segment::Token(name));
            proof {
                let token = SegmentView::Token(chars@.subrange(i + 1, j as int));
                assert(segments.deep_view() =~= segments_mid.push(token));
                assert(segments.deep_view().drop_last() =~= segments_mid);
                assert(text_pieces(chars@.subrange(j + 1, j + 1)) =~= Seq::empty());
                assert(expand(segments.deep_view()) + text_pieces(chars@.subrange(j + 1, j + 1))
                    + pieces_from(chars@, j + 1) =~= pieces(chars@));
            }
            i = j + 1;
            literal_start = i;
        } else {
            // Not a token — leave the brace as literal text.
            proof {
                assert(token_at(chars@, i as int) is None);
                assert(text_pieces(chars@.subrange(literal_start as int, i + 1)) =~= text_pieces(
                    run,
                ) + seq![Piece::Text(seq![chars@[i as int]])]);
                assert(done + text_pieces(chars@.subrange(literal_start as int, i + 1))
                    + pieces_from(chars@, i + 1) =~= pieces(chars@));
            }
            i = i + 1;
        }
    }
    let ghost segments_before = segments.deep_view();
    let ghost run = chars@.subrange(literal_start as int, n as int);
    if literal_start < n {
        let literal = substring(chars.as_slice(), literal_start, n);
        segments.push(Segment::Literal(literal));
        assert(segments.deep_view() =~= segments_before.push(SegmentView::Literal(run)));
        assert(segments.deep_view().drop_last() =~= segments_before);
    } else {
        assert(text_pieces(run) =~= Seq::empty());
    }
    assert(expand(segments.deep_view()) =~= pieces(tmpl@));
    segments
}

/// Variable names referenced by a template: each `{name}` token in
/// first-seen order, de-duplicated. `"{a}-{b}-{a}"` -> `["a", "b"]`;
/// `"plainsess"` -> `[]`.
pub fn template_vars(tmpl: &str) -> (names: Vec<String>)
    ensures
        names.deep_view() == vars_of(tmpl@),
{
    let segments = scan_template(tmpl);
    let mut names: Vec<String> = Vec::new();
    let ghost all = segments.deep_view();
    assert(all.take(0) =~= Seq::empty());
    assert(names.deep_view() =~= Seq::empty());
    for i in 0..segments.len()
        invariant
            all == segments.deep_view(),
            names.deep_view() == text::distinct(token_names(expand(all.take(i as int)))),
    {
        let ghost before = expand(all.take(i as int));
        let ghost seen = token_names(before);
        let ghost names_before = names.deep_view();
        proof {
            assert(all.take(i + 1).drop_last() =~= all.take(i as int));
            token_names_of_concat(before, segment_pieces(all[i as int]));
        }
        match &segments[i] {
            Segment::Token(name) => {
                proof {
                    let one = seq![Piece::Token(name@)];
                    assert(one.drop_last() =~= Seq::empty());
                    assert(one.last() == Piece::Token(name@));
                    assert(token_names(one.drop_last()) =~= Seq::empty());
                    assert(token_names(one) =~= seq![name@]);
                    assert(token_names(expand(all.take(i + 1))) =~= seen.push(name@));
                    assert(seen.push(name@).drop_last() =~= seen);
                }
                if !contains_text(&names, name.as_str()) {
                    names.push(name.clone());
                    assert(names.deep_view() =~= names_before.push(name@));
                }
            },
            Segment::Literal(lit) => {
                proof {
                    text_has_no_tokens(lit@);
                    assert(token_names(expand(all.take(i + 1))) =~= seen);
                }
            },
        }
    }
    assert(all.take(all.len() as int) =~= all);
    names
}

/// The texts of `texts` that are not in `known`, in order.
pub open spec fn without(texts: Seq<Seq<char>>, known: Seq<Seq<char>>) -> Seq<Seq<char>> {
    texts.filter(|t: Seq<char>| !known.contains(t))
}

/// Variables a template references that aren't in `known` — the names a
/// create-time prompt has to ask for. First-seen order is preserved, so
/// the prompt walks them in the order they appear in the name. A var set
/// to the empty string still counts as known — membership decides, not the
/// value — so it is never prompted for again.
pub fn unknown_template_vars(name: &str, known: &[&str]) -> (unknown: Vec<String>)
    ensures
        unknown.deep_view() == without(vars_of(name@), known.deep_view()),
{
    let vars = template_vars(name);
    let ghost all = vars.deep_view();
    let ghost is_unknown = |t: Seq<char>| !known.deep_view().contains(t);
    let mut unknown: Vec<String> = Vec::new();
    assert(all.take(0) =~= Seq::empty());
    assert(unknown.deep_view() =~= Seq::empty());
    assert(all.take(0).filter(is_unknown) =~= Seq::empty());
    for i in 0..vars.len()
        invariant
            all == vars.deep_view(),
            is_unknown == (|t: Seq<char>| !known.deep_view().contains(t)),
            unknown.deep_view() == all.take(i as int).filter(is_unknown),
    {
        let ghost before = unknown.deep_view();
        proof {
            assert(all.take(i + 1) =~= all.take(i as int).push(all[i as int]));
            all.take(i as int).lemma_filter_push(all[i as int], is_unknown);
        }
        if !is_among(known, vars[i].as_str()) {
            unknown.push(vars[i].clone());
            assert(unknown.deep_view() =~= before.push(all[i as int]));
        }
    }
    assert(all.take(all.len() as int) =~= all);
    unknown
}

fn is_among(known: &[&str], name: &str) -> (r: bool)
    ensures
        r == known.deep_view().contains(name@),
{
    for i in 0..known.len()
        invariant
            forall|j: int| 0 <= j < i ==> known.deep_view()[j] != name@,
    {
        if same(known[i], name) {
            assert(known.deep_view()[i as int] == name@);
            return true;
        }
        assert(known.deep_view()[i as int] == known@[i as int]@);
    }
    false
}

// -- Values --

/// The value map that templates resolve against: variable names to values.
pub struct VarMap {
    values: StringHashMap<String>,
}

/// The map that inserting `entries` one after the other leaves behind.
pub open spec fn map_of(entries: Seq<(Seq<char>, Seq<char>)>) -> Map<Seq<char>, Seq<char>>
    decreases entries.len(),
{
    if entries.len() == 0 {
        Map::empty()
    } else {
        map_of(entries.drop_last()).insert(entries.last().0, entries.last().1)
    }
}

impl View for VarMap {
    type V = Map<Seq<char>, Seq<char>>;

    closed spec fn view(&self) -> Map<Seq<char>, Seq<char>> {
        self.values@.map_values(|value: String| value@)
    }
}

impl VarMap {
    /// The empty map.
    pub fn new() -> (m: VarMap)
        ensures
            m@ == Map::<Seq<char>, Seq<char>>::empty(),
    {
        VarMap { values: StringHashMap::new() }
    }

    /// Sets `name` to `value`, replacing any earlier value.
    pub fn insert(&mut self, name: &str, value: &str)
        ensures
            final(self)@ == old(self)@.insert(name@, value@),
    {
        self.values.insert(name.to_owned(), value.to_owned());
        assert(self@ =~= old(self)@.insert(name@, value@));
    }

    /// The value of `name`, if it has one.
    pub fn get(&self, name: &str) -> (value: Option<&str>)
        ensures
            match value {
                Some(v) => self@.contains_key(name@) && self@[name@] == v@,
                None => !self@.contains_key(name@),
            },
    {
        match self.values.get(name) {
            Some(value) => Some(value.as_str()),
            None => None,
        }
    }

    /// The number of names that have a value.
    pub fn len(&self) -> (n: usize)
        ensures
            n == self@.dom().len(),
    {
        assert(self@.dom() =~= self.values@.dom());
        self.values.len()
    }
}

/// What one piece resolves to: literal text stays, a known token becomes
/// its value, an unknown one stays the literal `{name}`.
pub open spec fn piece_text(piece: Piece, vars: Map<Seq<char>, Seq<char>>) -> Seq<char> {
    match piece {
        Piece::Text(s) => s,
        Piece::Token(name) => if vars.contains_key(name) {
            vars[name]
        } else {
            seq!['{'] + name + seq!['}']
        },
    }
}

/// What the pieces resolve to, put together.
pub open spec fn resolve_pieces(ps: Seq<Piece>, vars: Map<Seq<char>, Seq<char>>) -> Seq<char>
    decreases ps.len(),
{
    if ps.len() == 0 {
        Seq::empty()
    } else {
        resolve_pieces(ps.drop_last(), vars) + piece_text(ps.last(), vars)
    }
}

/// What the template resolves to.
pub open spec fn resolved(tmpl: Seq<char>, vars: Map<Seq<char>, Seq<char>>) -> Seq<char> {
    resolve_pieces(pieces(tmpl), vars)
}

proof fn resolve_of_concat(a: Seq<Piece>, b: Seq<Piece>, vars: Map<Seq<char>, Seq<char>>)
    ensures
        resolve_pieces(a + b, vars) == resolve_pieces(a, vars) + resolve_pieces(b, vars),
    decreases b.len(),
{
    if b.len() == 0 {
        assert(a + b =~= a);
        assert(resolve_pieces(a + b, vars) =~= resolve_pieces(a, vars) + resolve_pieces(b, vars));
    } else {
        assert((a + b).drop_last() =~= a + b.drop_last());
        resolve_of_concat(a, b.drop_last(), vars);
        assert(resolve_pieces(a + b, vars) =~= resolve_pieces(a, vars) + resolve_pieces(b, vars));
    }
}

proof fn resolve_of_text(s: Seq<char>, vars: Map<Seq<char>, Seq<char>>)
    ensures
        resolve_pieces(text_pieces(s), vars) == s,
    decreases s.len(),
{
    if s.len() > 0 {
        assert(text_pieces(s).drop_last() =~= text_pieces(s.drop_last()));
        resolve_of_text(s.drop_last(), vars);
        assert(text_pieces(s).last() == Piece::Text(seq![s.last()]));
        assert(s =~= s.drop_last() + seq![s.last()]);
    } else {
        assert(text_pieces(s) =~= Seq::empty());
        assert(resolve_pieces(text_pieces(s), vars) =~= s);
    }
}

proof fn resolve_of_token(name: Seq<char>, vars: Map<Seq<char>, Seq<char>>)
    ensures
        resolve_pieces(seq![Piece::Token(name)], vars) == piece_text(Piece::Token(name), vars),
{
    let one = seq![Piece::Token(name)];
    assert(one.drop_last() =~= Seq::empty());
    assert(resolve_pieces(one.drop_last(), vars) =~= Seq::empty());
    assert(resolve_pieces(one, vars) =~= piece_text(Piece::Token(name), vars));
}

/// Appends what the token `name` resolves to.
fn push_token(out: &mut String, name: &str, vars: &VarMap)
    ensures
        final(out)@ == old(out)@ + piece_text(Piece::Token(name@), vars@),
{
    match vars.get(name) {
        Some(value) => {
            out.append(value);
        },
        None => {
            let ghost before = out@;
            out.push('{');
            out.append(name);
            out.push('}');
            assert(out@ =~= before + (seq!['{'] + name@ + seq!['}']));
        },
    }
}

/// Resolve a template against a `name -> value` map: each `{name}`
/// becomes its value; an unknown name is left as the literal `{name}`.
pub fn resolve_template(tmpl: &str, vars: &VarMap) -> (out: String)
    ensures
        out@ == resolved(tmpl@, vars@),
{
    let segments = scan_template(tmpl);
    let ghost all = segments.deep_view();
    let mut out = String::new();
    assert(all.take(0) =~= Seq::empty());
    assert(out@ =~= Seq::empty());
    for i in 0..segments.len()
        invariant
            all == segments.deep_view(),
            out@ == resolve_pieces(expand(all.take(i as int)), vars@),
    {
        proof {
            assert(all.take(i + 1).drop_last() =~= all.take(i as int));
            resolve_of_concat(expand(all.take(i as int)), segment_pieces(all[i as int]), vars@);
        }
        match &segments[i] {
            Segment::Literal(lit) => {
                proof {
                    resolve_of_text(lit@, vars@);
                }
                out.append(lit.as_str());
            },
            Segment::Token(name) => {
                proof {
                    resolve_of_token(name@, vars@);
                }
                push_token(&mut out, name.as_str(), vars);
            },
        }
    }
    assert(all.take(all.len() as int) =~= all);
    out
}

// -- Governed attachments --

/// One attachment whose template references the queried variable — the
/// set that would re-dial if the variable changed. Borrows from the
/// session slice rather than copying.
#[derive(Debug, PartialEq)]
pub struct GovernedAttachment<'a> {
    /// The session the attachment currently resolves to.
    pub session: &'a str,
    /// The template it dialed in with.
    pub template: &'a str,
    /// The attach-proc pid.
    pub pid: u64,
}

/// What a `GovernedAttachment` holds.
#[verifier::ext_equal]
pub struct GovernedView {
    pub session: Seq<char>,
    pub template: Seq<char>,
    pub pid: u64,
}

impl<'a> DeepView for GovernedAttachment<'a> {
    type V = GovernedView;

    open spec fn deep_view(&self) -> GovernedView {
        GovernedView { session: self.session@, template: self.template@, pid: self.pid }
    }
}

/// The attachments of a session `name` whose template references `var`, in order.
pub open spec fn governed_in(
    name: Seq<char>,
    attachments: Seq<AttachmentView>,
    var: Seq<char>,
) -> Seq<GovernedView>
    decreases attachments.len(),
{
    if attachments.len() == 0 {
        Seq::empty()
    } else {
        let before = governed_in(name, attachments.drop_last(), var);
        let last = attachments.last();
        if mentions(last.template, var) {
            before.push(GovernedView { session: name, template: last.template, pid: last.pid })
        } else {
            before
        }
    }
}

/// The attachments across all sessions whose template references `var`, in order.
pub open spec fn governed(sessions: Seq<SessionView>, var: Seq<char>) -> Seq<GovernedView>
    decreases sessions.len(),
{
    if sessions.len() == 0 {
        Seq::empty()
    } else {
        governed(sessions.drop_last(), var) + governed_in(
            sessions.last().name,
            sessions.last().attachments,
            var,
        )
    }
}

fn references(tmpl: &str, var: &str) -> (r: bool)
    ensures
        r == mentions(tmpl@, var@),
{
    contains_text(&template_vars(tmpl), var)
}

/// Attachments across all sessions whose template references `var`.
pub fn attachments_for_var<'a>(sessions: &'a Vec<Session>, var: &str) -> (hits: Vec<
    GovernedAttachment<'a>,
>)
    ensures
        hits.deep_view() == governed(sessions.deep_view(), var@),
{
    let mut hits: Vec<GovernedAttachment<'a>> = Vec::new();
    let ghost all = sessions.deep_view();
    assert(all.take(0) =~= Seq::empty());
    assert(hits.deep_view() =~= Seq::empty());
    for i in 0..sessions.len()
        invariant
            all == sessions.deep_view(),
            hits.deep_view() == governed(all.take(i as int), var@),
    {
        let s = &sessions[i];
        let ghost before = hits.deep_view();
        let ghost atts = s.attachments.deep_view();
        proof {
            assert(all[i as int] == s.deep_view());
            assert(all.take(i + 1).drop_last() =~= all.take(i as int));
            assert(atts.take(0) =~= Seq::empty());
            assert(before + governed_in(s.name@, atts.take(0), var@) =~= before);
        }
        for k in 0..s.attachments.len()
            invariant
                atts == s.attachments.deep_view(),
                hits.deep_view() == before + governed_in(s.name@, atts.take(k as int), var@),
        {
            let a = &s.attachments[k];
            let ghost hits_before = hits.deep_view();
            proof {
                assert(atts[k as int] == a.deep_view());
                assert(atts.take(k + 1).drop_last() =~= atts.take(k as int));
            }
            if references(a.session_name_template.as_str(), var) {
                hits.push(
                    GovernedAttachment {
                        session: s.name.as_str(),
                        template: a.session_name_template.as_str(),
                        pid: a.pid,
                    },
                );
                proof {
                    let hit = GovernedView {
                        session: s.name@,
                        template: a.session_name_template@,
                        pid: a.pid,
                    };
                    assert(hits.deep_view() =~= hits_before.push(hit));
                    assert(hits.deep_view() =~= before + governed_in(
                        s.name@,
                        atts.take(k + 1),
                        var@,
                    ));
                }
            }
        }
        assert(atts.take(atts.len() as int) =~= atts);
    }
    assert(all.take(all.len() as int) =~= all);
    hits
}

// -- Candidate values --

/// The templates of `attachments`, in order.
pub open spec fn attachment_templates(attachments: Seq<AttachmentView>) -> Seq<Seq<char>> {
    Seq::new(attachments.len(), |i: int| attachments[i].template)
}

/// The templates of all attachments of all sessions, in order.
pub open spec fn all_templates(sessions: Seq<SessionView>) -> Seq<Seq<char>>
    decreases sessions.len(),
{
    if sessions.len() == 0 {
        Seq::empty()
    } else {
        all_templates(sessions.drop_last()) + attachment_templates(sessions.last().attachments)
    }
}

/// The distinct templates in use that reference `target`, in first-seen order.
pub open spec fn target_templates(sessions: Seq<SessionView>, target: Seq<char>) -> Seq<Seq<char>> {
    text::distinct(all_templates(sessions).filter(|t: Seq<char>| mentions(t, target)))
}

/// How many pieces are the token `target`.
pub open spec fn occurrences(ps: Seq<Piece>, target: Seq<char>) -> nat
    decreases ps.len(),
{
    if ps.len() == 0 {
        0
    } else {
        occurrences(ps.drop_last(), target) + if ps.last() == Piece::Token(target) {
            1nat
        } else {
            0nat
        }
    }
}

/// What the pieces ahead of the token `target` resolve to.
pub open spec fn prefix_of(
    ps: Seq<Piece>,
    vars: Map<Seq<char>, Seq<char>>,
    target: Seq<char>,
) -> Seq<char> {
    resolve_pieces(ps.take(ps.index_of(Piece::Token(target))), vars)
}

/// What the pieces behind the token `target` resolve to.
pub open spec fn suffix_of(
    ps: Seq<Piece>,
    vars: Map<Seq<char>, Seq<char>>,
    target: Seq<char>,
) -> Seq<char> {
    resolve_pieces(ps.skip(ps.index_of(Piece::Token(target)) + 1), vars)
}

/// The non-empty text between `prefix` and `suffix` in `name`, if `name` is
/// made that way.
pub open spec fn captured(name: Seq<char>, prefix: Seq<char>, suffix: Seq<char>) -> Option<
    Seq<char>,
> {
    let end = name.len() - suffix.len();
    if prefix.len() < end && name.take(prefix.len() as int) == prefix && name.skip(end) == suffix {
        Some(name.subrange(prefix.len() as int, end))
    } else {
        None
    }
}

/// The texts captured from `names`, in order.
pub open spec fn captures(names: Seq<Seq<char>>, prefix: Seq<char>, suffix: Seq<char>) -> Seq<
    Seq<char>,
>
    decreases names.len(),
{
    if names.len() == 0 {
        Seq::empty()
    } else {
        let before = captures(names.drop_last(), prefix, suffix);
        match captured(names.last(), prefix, suffix) {
            Some(text) => before.push(text),
            None => before,
        }
    }
}

/// The values that make `tmpl` resolve to one of `names`; none for a
/// template that has the token `target` more than once.
pub open spec fn harvest_one(
    tmpl: Seq<char>,
    names: Seq<Seq<char>>,
    vars: Map<Seq<char>, Seq<char>>,
    target: Seq<char>,
) -> Seq<Seq<char>> {
    let ps = pieces(tmpl);
    if occurrences(ps, target) == 1 {
        captures(names, prefix_of(ps, vars, target), suffix_of(ps, vars, target))
    } else {
        Seq::empty()
    }
}

/// The values harvested from `templates`, one template after the other.
pub open spec fn harvest(
    templates: Seq<Seq<char>>,
    names: Seq<Seq<char>>,
    vars: Map<Seq<char>, Seq<char>>,
    target: Seq<char>,
) -> Seq<Seq<char>>
    decreases templates.len(),
{
    if templates.len() == 0 {
        Seq::empty()
    } else {
        harvest(templates.drop_last(), names, vars, target) + harvest_one(
            templates.last(),
            names,
            vars,
            target,
        )
    }
}

/// The current value of `target`: empty if it has none.
pub open spec fn current_value(vars: Map<Seq<char>, Seq<char>>, target: Seq<char>) -> Seq<char> {
    if vars.contains_key(target) {
        vars[target]
    } else {
        Seq::empty()
    }
}

/// The current value of `target`, then the values harvested from the
/// session names, each once.
pub open spec fn candidates_for(
    sessions: Seq<SessionView>,
    vars: Map<Seq<char>, Seq<char>>,
    target: Seq<char>,
) -> Seq<Seq<char>> {
    text::distinct(
        seq![current_value(vars, target)] + harvest(
            target_templates(sessions, target),
            session::names(sessions),
            vars,
            target,
        ),
    )
}

fn templates_for_target(sessions: &Vec<Session>, target: &str) -> (templates: Vec<String>)
    ensures
        templates.deep_view() == target_templates(sessions.deep_view(), target@),
{
    let mut templates: Vec<String> = Vec::new();
    let ghost all = sessions.deep_view();
    let ghost about = |t: Seq<char>| mentions(t, target@);
    assert(all.take(0) =~= Seq::empty());
    assert(templates.deep_view() =~= Seq::empty());
    assert(all_templates(all.take(0)).filter(about) =~= Seq::empty());
    for i in 0..sessions.len()
        invariant
            all == sessions.deep_view(),
            about == (|t: Seq<char>| mentions(t, target@)),
            templates.deep_view() == text::distinct(
                all_templates(all.take(i as int)).filter(about),
            ),
    {
        let s = &sessions[i];
        let ghost atts = s.attachments.deep_view();
        let ghost base = all_templates(all.take(i as int));
        proof {
            assert(all[i as int] == s.deep_view());
            assert(all.take(i + 1).drop_last() =~= all.take(i as int));
            assert(base + attachment_templates(atts.take(0)) =~= base);
        }
        for k in 0..s.attachments.len()
            invariant
                about == (|t: Seq<char>| mentions(t, target@)),
                atts == s.attachments.deep_view(),
                templates.deep_view() == text::distinct(
                    (base + attachment_templates(atts.take(k as int))).filter(about),
                ),
        {
            let tmpl = s.attachments[k].session_name_template.as_str();
            let ghost before = base + attachment_templates(atts.take(k as int));
            let ghost templates_before = templates.deep_view();
            proof {
                assert(atts[k as int].template == tmpl@);
                assert(base + attachment_templates(atts.take(k + 1)) =~= before.push(tmpl@));
                before.lemma_filter_push(tmpl@, about);
                assert(before.filter(about).push(tmpl@).drop_last() =~= before.filter(about));
            }
            if references(tmpl, target) && !contains_text(&templates, tmpl) {
                templates.push(tmpl.to_owned());
                assert(templates.deep_view() =~= templates_before.push(tmpl@));
            }
        }
        assert(atts.take(atts.len() as int) =~= atts);
    }
    assert(all.take(all.len() as int) =~= all);
    templates
}

proof fn occurs_once(ps: Seq<Piece>, target: Seq<char>, i: int)
    requires
        0 <= i < ps.len(),
        ps[i] == Piece::Token(target),
    ensures
        occurrences(ps, target) >= 1,
    decreases ps.len(),
{
    if i < ps.len() - 1 {
        occurs_once(ps.drop_last(), target, i);
    }
}

proof fn only_occurrence(ps: Seq<Piece>, target: Seq<char>, i: int, j: int)
    requires
        0 <= i < ps.len(),
        0 <= j < ps.len(),
        ps[i] == Piece::Token(target),
        ps[j] == Piece::Token(target),
        occurrences(ps, target) == 1,
    ensures
        i == j,
    decreases ps.len(),
{
    let rest = ps.drop_last();
    if i < ps.len() - 1 && j < ps.len() - 1 {
        occurs_once(rest, target, i);
        only_occurrence(rest, target, i, j);
    } else if i < ps.len() - 1 {
        occurs_once(rest, target, i);
    } else if j < ps.len() - 1 {
        occurs_once(rest, target, j);
    }
}

proof fn occurrences_of_concat(a: Seq<Piece>, b: Seq<Piece>, target: Seq<char>)
    ensures
        occurrences(a + b, target) == occurrences(a, target) + occurrences(b, target),
    decreases b.len(),
{
    if b.len() == 0 {
        assert(a + b =~= a);
    } else {
        assert((a + b).drop_last() =~= a + b.drop_last());
        occurrences_of_concat(a, b.drop_last(), target);
    }
}

proof fn no_occurrence_in_text(s: Seq<char>, target: Seq<char>)
    ensures
        occurrences(text_pieces(s), target) == 0,
    decreases s.len(),
{
    if s.len() > 0 {
        assert(text_pieces(s).drop_last() =~= text_pieces(s.drop_last()));
        no_occurrence_in_text(s.drop_last(), target);
    }
}

proof fn occurrence_of_token(name: Seq<char>, target: Seq<char>)
    ensures
        occurrences(seq![Piece::Token(name)], target) == if name == target {
            1nat
        } else {
            0nat
        },
{
    let one = seq![Piece::Token(name)];
    assert(one.drop_last() =~= Seq::empty());
    assert(one.last() == Piece::Token(name));
    assert(occurrences(one.drop_last(), target) == 0);
}

fn count_token(segments: &Vec<Segment>, target: &str) -> (n: usize)
    ensures
        n == occurrences(expand(segments.deep_view()), target@),
{
    let ghost all = segments.deep_view();
    let mut n: usize = 0;
    assert(all.take(0) =~= Seq::empty());
    for i in 0..segments.len()
        invariant
            all == segments.deep_view(),
            n <= i,
            n == occurrences(expand(all.take(i as int)), target@),
    {
        proof {
            assert(all.take(i + 1).drop_last() =~= all.take(i as int));
            occurrences_of_concat(
                expand(all.take(i as int)),
                segment_pieces(all[i as int]),
                target@,
            );
        }
        match &segments[i] {
            Segment::Token(name) => {
                proof {
                    occurrence_of_token(name@, target@);
                }
                if same(name.as_str(), target) {
                    n = n + 1;
                }
            },
            Segment::Literal(lit) => {
                proof {
                    no_occurrence_in_text(lit@, target@);
                }
            },
        }
    }
    assert(all.take(all.len() as int) =~= all);
    n
}

/// Resolves what stands ahead of the single token `target` and what stands
/// behind it.
fn pin_around(segments: &Vec<Segment>, vars: &VarMap, target: &str) -> (ends: (String, String))
    requires
        occurrences(expand(segments.deep_view()), target@) == 1,
    ensures
        ends.0@ == prefix_of(expand(segments.deep_view()), vars@, target@),
        ends.1@ == suffix_of(expand(segments.deep_view()), vars@, target@),
{
    let ghost all = segments.deep_view();
    let ghost ps = expand(all);
    let ghost token = Piece::Token(target@);
    let mut prefix = String::new();
    let mut suffix = String::new();
    let mut seen_target = false;
    let ghost mut at: int = 0;
    assert(all.take(0) =~= Seq::empty());
    assert(prefix@ =~= Seq::empty());
    assert(suffix@ =~= Seq::empty());
    for i in 0..segments.len()
        invariant
            all == segments.deep_view(),
            ps == expand(all),
            token == Piece::Token(target@),
            !seen_target ==> prefix@ == resolve_pieces(expand(all.take(i as int)), vars@)
                && suffix@ == Seq::<char>::empty() && occurrences(
                expand(all.take(i as int)),
                target@,
            ) == 0,
            seen_target ==> 0 <= at < expand(all.take(i as int)).len() && expand(
                all.take(i as int),
            )[at] == token && prefix@ == resolve_pieces(
                expand(all.take(i as int)).take(at),
                vars@,
            ) && suffix@ == resolve_pieces(expand(all.take(i as int)).skip(at + 1), vars@),
    {
        let ghost before = expand(all.take(i as int));
        let ghost more = segment_pieces(all[i as int]);
        let ghost after = expand(all.take(i + 1));
        proof {
            assert(all.take(i + 1).drop_last() =~= all.take(i as int));
            assert(after == before + more);
            resolve_of_concat(before, more, vars@);
            occurrences_of_concat(before, more, target@);
            if seen_target {
                resolve_of_concat(before.skip(at + 1), more, vars@);
                assert(after.take(at) =~= before.take(at));
                assert(after.skip(at + 1) =~= before.skip(at + 1) + more);
            }
        }
        match &segments[i] {
            Segment::Literal(lit) => {
                proof {
                    resolve_of_text(lit@, vars@);
                    no_occurrence_in_text(lit@, target@);
                }
                if seen_target {
                    suffix.append(lit.as_str());
                } else {
                    prefix.append(lit.as_str());
                }
            },
            Segment::Token(name) => {
                proof {
                    resolve_of_token(name@, vars@);
                    occurrence_of_token(name@, target@);
                }
                if !seen_target && same(name.as_str(), target) {
                    seen_target = true;
                    proof {
                        at = before.len() as int;
                        assert(after.take(at) =~= before);
                        assert(after.skip(at + 1) =~= Seq::empty());
                    }
                } else if seen_target {
                    push_token(&mut suffix, name.as_str(), vars);
                } else {
                    push_token(&mut prefix, name.as_str(), vars);
                }
            },
        }
    }
    proof {
        assert(all.take(all.len() as int) =~= all);
        let found = ps.index_of(token);
        assert(ps[at] == token);
        assert(0 <= found < ps.len() && ps[found] == token);
        only_occurrence(ps, target@, at, found);
    }
    (prefix, suffix)
}

/// Strips `prefix` off the front and `suffix` off the back of `name`; what
/// remains is the captured value, unless it is empty.
fn capture(name: &str, prefix: &str, suffix: &str) -> (text: Option<String>)
    ensures
        text.deep_view() == captured(name@, prefix@, suffix@),
{
    let n = chars_of(name);
    let p = chars_of(prefix);
    let s = chars_of(suffix);
    if s.len() >= n.len() || p.len() >= n.len() - s.len() {
        return None;
    }
    let end: usize = n.len() - s.len();
    for i in 0..p.len()
        invariant
            n@ == name@,
            p@ == prefix@,
            s@ == suffix@,
            end == n@.len() - s@.len(),
            p@.len() < end,
            forall|j: int| 0 <= j < i ==> n@[j] == p@[j],
    {
        if n[i] != p[i] {
            assert(name@.take(prefix@.len() as int)[i as int] != prefix@[i as int]);
            return None;
        }
    }
    assert(name@.take(prefix@.len() as int) =~= prefix@);
    let total: usize = n.len();
    for i in 0..s.len()
        invariant
            n@ == name@,
            p@ == prefix@,
            s@ == suffix@,
            total == n@.len(),
            end == total - s@.len(),
            p@.len() < end,
            forall|j: int| 0 <= j < i ==> n@[end + j] == s@[j],
    {
        assert(end + i < total);
        if n[end + i] != s[i] {
            assert(name@.skip(end as int)[i as int] != suffix@[i as int]);
            return None;
        }
    }
    assert(name@.skip(end as int) =~= suffix@);
    Some(substring(n.as_slice(), p.len(), end))
}

/// Candidate values for `target`: values that, substituted for `target`
/// (the other variables pinned to their current values in `vars`), make
/// one of `target`'s templates resolve to a session name that currently
/// exists. `vars` is the `name -> value` map `resolve_template` consumes.
///
/// Templates come only from currently-attached sessions (`attachments`),
/// but the match scans ALL session names — a detached session still
/// exists by name and is a valid re-dial target. Returns the current value
/// first, then the harvested captures, de-duplicated.
pub fn candidate_values(sessions: &Vec<Session>, vars: &VarMap, target: &str) -> (cands: Vec<
    String,
>)
    ensures
        cands.deep_view() == candidates_for(sessions.deep_view(), vars@, target@),
{
    let current: String = match vars.get(target) {
        Some(value) => value.to_owned(),
        None => String::new(),
    };
    let ghost now = current@;
    assert(now =~= current_value(vars@, target@));
    let templates = templates_for_target(sessions, target);
    let ghost tmpls = templates.deep_view();
    let ghost all = session::names(sessions.deep_view());
    let mut cands: Vec<String> = Vec::new();
    cands.push(current);
    let ghost first = seq![now];
    proof {
        assert(tmpls.take(0) =~= Seq::empty());
        assert(first + harvest(tmpls.take(0), all, vars@, target@) =~= first);
        assert(first.drop_last() =~= Seq::empty());
        assert(text::distinct(first.drop_last()) =~= Seq::empty());
        assert(text::distinct(first) =~= first);
        assert(cands.deep_view() =~= first);
    }
    for i in 0..templates.len()
        invariant
            tmpls == templates.deep_view(),
            all == session::names(sessions.deep_view()),
            cands.deep_view() == text::distinct(
                first + harvest(tmpls.take(i as int), all, vars@, target@),
            ),
    {
        let segments = scan_template(templates[i].as_str());
        let ghost tmpl = tmpls[i as int];
        let ghost base = first + harvest(tmpls.take(i as int), all, vars@, target@);
        proof {
            assert(tmpl == templates@[i as int]@);
            assert(tmpls.take(i + 1).drop_last() =~= tmpls.take(i as int));
            assert(first + harvest(tmpls.take(i + 1), all, vars@, target@) =~= base + harvest_one(
                tmpl,
                all,
                vars@,
                target@,
            ));
        }
        if count_token(&segments, target) == 1 {
            let (prefix, suffix) = pin_around(&segments, vars, target);
            proof {
                assert(all.take(0) =~= Seq::empty());
                assert(base + captures(all.take(0), prefix@, suffix@) =~= base);
            }
            for k in 0..sessions.len()
                invariant
                    all == session::names(sessions.deep_view()),
                    cands.deep_view() == text::distinct(
                        base + captures(all.take(k as int), prefix@, suffix@),
                    ),
            {
                let ghost before = base + captures(all.take(k as int), prefix@, suffix@);
                let ghost cands_before = cands.deep_view();
                proof {
                    assert(all[k as int] == sessions@[k as int].name@);
                    assert(all.take(k + 1).drop_last() =~= all.take(k as int));
                }
                match capture(sessions[k].name.as_str(), prefix.as_str(), suffix.as_str()) {
                    Some(cap) => {
                        proof {
                            assert(base + captures(all.take(k + 1), prefix@, suffix@) =~= before.push(
                                cap@,
                            ));
                            assert(before.push(cap@).drop_last() =~= before);
                        }
                        if !contains_text(&cands, cap.as_str()) {
                            let ghost cap_view = cap@;
                            cands.push(cap);
                            assert(cands.deep_view() =~= cands_before.push(cap_view));
                        }
                    },
                    None => {},
                }
            }
            assert(all.take(all.len() as int) =~= all);
        } else {
            assert(base + harvest_one(tmpl, all, vars@, target@) =~= base);
        }
    }
    assert(tmpls.take(tmpls.len() as int) =~= tmpls);
    cands
}

// -- Filtering and ranking --

/// `A`–`Z` become `a`–`z`; every other character stays.
pub open spec fn fold_char(c: char) -> char {
    if 'A' <= c <= 'Z' {
        ((c as u8) + 32) as char
    } else {
        c
    }
}

/// The text with its ASCII letters in lower case.
pub open spec fn folded(s: Seq<char>) -> Seq<char> {
    s.map_values(|c: char| fold_char(c))
}

/// The characters of `q` occur in `s` in order, with or without gaps.
pub open spec fn is_subsequence(q: Seq<char>, s: Seq<char>) -> bool
    decreases s.len(),
{
    if q.len() == 0 {
        true
    } else if s.len() == 0 {
        false
    } else if q[0] == s[0] {
        is_subsequence(q.drop_first(), s.drop_first())
    } else {
        is_subsequence(q, s.drop_first())
    }
}

/// `q` occurs in `s` at position `at`.
pub open spec fn occurs_at(q: Seq<char>, s: Seq<char>, at: int) -> bool {
    0 <= at && at + q.len() <= s.len() && s.subrange(at, at + q.len()) == q
}

/// `q` occurs in `s` in one piece.
pub open spec fn occurs_in(q: Seq<char>, s: Seq<char>) -> bool {
    exists|at: int| occurs_at(q, s, at)
}

/// The index of the first `c` in `s`; the length of `s` if there is none.
pub open spec fn first_index_of(s: Seq<char>, c: char) -> int
    decreases s.len(),
{
    if s.len() == 0 || s[0] == c {
        0
    } else {
        1 + first_index_of(s.drop_first(), c)
    }
}

/// How well a candidate matches a query; the smaller, the better, field by field.
pub struct RankView {
    /// 0 for an exact match, else 1.
    pub exact: int,
    /// 0 if the query occurs in one piece, else 1.
    pub contiguous: int,
    /// Where the query's first character first occurs.
    pub first: int,
    /// The number of characters of the candidate.
    pub length: int,
}

/// The rank of a candidate against a non-empty query, both ASCII-folded.
pub open spec fn rank(cand: Seq<char>, query: Seq<char>) -> RankView {
    let s = folded(cand);
    let q = folded(query);
    RankView {
        exact: if s == q {
            0
        } else {
            1
        },
        contiguous: if occurs_in(q, s) {
            0
        } else {
            1
        },
        first: first_index_of(s, q[0]),
        length: s.len() as int,
    }
}

/// `a` ranks no worse than `b`.
pub open spec fn rank_no_later(a: RankView, b: RankView) -> bool {
    if a.exact != b.exact {
        a.exact < b.exact
    } else if a.contiguous != b.contiguous {
        a.contiguous < b.contiguous
    } else if a.first != b.first {
        a.first < b.first
    } else {
        a.length <= b.length
    }
}

/// The folded query is a subsequence of the folded candidate.
pub open spec fn matches_query(cand: Seq<char>, query: Seq<char>) -> bool {
    is_subsequence(folded(query), folded(cand))
}

/// The order in which the candidates that match `query` are shown.
pub open spec fn shown_no_later(query: Seq<char>) -> spec_fn(Seq<char>, Seq<char>) -> bool {
    |a: Seq<char>, b: Seq<char>| rank_no_later(rank(a, query), rank(b, query))
}

/// The candidates that match the query, best first, equally good ones in
/// harvest order; all of them in harvest order for an empty query.
pub open spec fn shown_for(cands: Seq<Seq<char>>, query: Seq<char>) -> Seq<Seq<char>> {
    if query.len() == 0 {
        cands
    } else {
        crate::order::sorted(
            cands.filter(|c: Seq<char>| matches_query(c, query)),
            shown_no_later(query),
        )
    }
}

/// ASCII-lowercase a text: `A`–`Z` fold to `a`–`z`, every other character
/// is left untouched.
pub fn ascii_fold(s: &str) -> (out: Vec<char>)
    ensures
        out@ == folded(s@),
{
    let mut out: Vec<char> = Vec::new();
    for c in it: s.chars()
        invariant
            it.seq() == s@,
            out@ == folded(s@.take(it.index())),
    {
        let ghost before = out@;
        if 'A' <= c && c <= 'Z' {
            out.push((c as u8 + 32) as char);
        } else {
            out.push(c);
        }
        assert(out@ =~= folded(s@.take(it.index() + 1)));
    }
    assert(s@.take(s@.len() as int) =~= s@);
    out
}

/// A candidate with its rank.
struct RankedCandidate {
    exact: u8,
    contiguous: u8,
    first: usize,
    length: usize,
    text: String,
}

impl RankedCandidate {
    spec fn rank(self) -> RankView {
        RankView {
            exact: self.exact as int,
            contiguous: self.contiguous as int,
            first: self.first as int,
            length: self.length as int,
        }
    }
}

impl DeepView for RankedCandidate {
    type V = (RankView, Seq<char>);

    closed spec fn deep_view(&self) -> (RankView, Seq<char>) {
        (self.rank(), self.text@)
    }
}

impl crate::order::Ranked for RankedCandidate {
    open spec fn no_later(a: (RankView, Seq<char>), b: (RankView, Seq<char>)) -> bool {
        rank_no_later(a.0, b.0)
    }

    fn comes_no_later(&self, other: &Self) -> (r: bool) {
        if self.exact != other.exact {
            self.exact < other.exact
        } else if self.contiguous != other.contiguous {
            self.contiguous < other.contiguous
        } else if self.first != other.first {
            self.first < other.first
        } else {
            self.length <= other.length
        }
    }
}

proof fn first_index_at(s: Seq<char>, c: char, at: int)
    requires
        0 <= at < s.len(),
        s[at] == c,
        forall|j: int| 0 <= j < at ==> s[j] != c,
    ensures
        first_index_of(s, c) == at,
    decreases s.len(),
{
    if at > 0 {
        assert(s[0] != c);
        assert forall|j: int| 0 <= j < at - 1 implies s.drop_first()[j] != c by {
            assert(s[j + 1] != c);
        }
        first_index_at(s.drop_first(), c, at - 1);
    }
}

proof fn first_index_absent(s: Seq<char>, c: char)
    requires
        forall|j: int| 0 <= j < s.len() ==> s[j] != c,
    ensures
        first_index_of(s, c) == s.len(),
    decreases s.len(),
{
    if s.len() > 0 {
        assert forall|j: int| 0 <= j < s.drop_first().len() implies s.drop_first()[j] != c by {
            assert(s[j + 1] != c);
        }
        first_index_absent(s.drop_first(), c);
    }
}

/// Tests whether `q` is a subsequence of `s`.
fn has_subsequence(q: &Vec<char>, s: &Vec<char>) -> (r: bool)
    ensures
        r == is_subsequence(q@, s@),
{
    let mut qi: usize = 0;
    assert(q@.skip(0) =~= q@);
    assert(s@.skip(0) =~= s@);
    for ci in 0..s.len()
        invariant
            qi <= q@.len(),
            is_subsequence(q@, s@) == is_subsequence(q@.skip(qi as int), s@.skip(ci as int)),
    {
        proof {
            assert(s@.skip(ci as int).drop_first() =~= s@.skip(ci + 1));
            if qi < q@.len() {
                assert(q@.skip(qi as int).drop_first() =~= q@.skip(qi + 1));
            }
        }
        if qi < q.len() && s[ci] == q[qi] {
            qi = qi + 1;
        }
    }
    qi == q.len()
}

/// The index of the first `c` in `s`; the length of `s` if there is none.
fn index_of_char(s: &Vec<char>, c: char) -> (at: usize)
    ensures
        at == first_index_of(s@, c),
{
    for i in 0..s.len()
        invariant
            forall|j: int| 0 <= j < i ==> s@[j] != c,
    {
        if s[i] == c {
            proof {
                first_index_at(s@, c, i as int);
            }
            return i;
        }
    }
    proof {
        first_index_absent(s@, c);
    }
    s.len()
}

/// Tests whether `q` occurs in `s` at position `at`.
fn matches_at(q: &Vec<char>, s: &Vec<char>, at: usize) -> (r: bool)
    requires
        at <= s@.len(),
    ensures
        r == occurs_at(q@, s@, at as int),
{
    let n: usize = s.len();
    if q.len() > n - at {
        return false;
    }
    for k in 0..q.len()
        invariant
            n == s@.len(),
            at + q@.len() <= n,
            forall|j: int| 0 <= j < k ==> s@[at + j] == q@[j],
    {
        let i: usize = at + k;
        if s[i] != q[k] {
            assert(s@.subrange(at as int, at + q@.len())[k as int] != q@[k as int]);
            return false;
        }
    }
    assert(s@.subrange(at as int, at + q@.len()) =~= q@);
    true
}

/// Tests whether `q` occurs in `s` in one piece.
fn has_substring(q: &Vec<char>, s: &Vec<char>) -> (r: bool)
    ensures
        r == occurs_in(q@, s@),
{
    let n: usize = s.len();
    let mut at: usize = 0;
    loop
        invariant
            n == s@.len(),
            at <= n,
            forall|j: int| 0 <= j < at ==> !occurs_at(q@, s@, j),
        decreases n - at,
    {
        if matches_at(q, s, at) {
            return true;
        }
        if at == n {
            assert forall|j: int| !occurs_at(q@, s@, j) by {
                if j > n {
                    assert(j + q@.len() > s@.len());
                }
            }
            return false;
        }
        at = at + 1;
    }
}

fn same_chars(a: &Vec<char>, b: &Vec<char>) -> (r: bool)
    ensures
        r == (a@ == b@),
{
    if a.len() != b.len() {
        return false;
    }
    for i in 0..a.len()
        invariant
            a@.len() == b@.len(),
            forall|j: int| 0 <= j < i ==> a@[j] == b@[j],
    {
        if a[i] != b[i] {
            return false;
        }
    }
    assert(a@ =~= b@);
    true
}

/// The texts of ranked candidates, in order.
fn texts_of(ranked: &Vec<RankedCandidate>) -> (texts: Vec<String>)
    ensures
        texts@.len() == ranked@.len(),
        forall|i: int|
            0 <= i < texts@.len() ==> #[trigger] texts.deep_view()[i] == ranked.deep_view()[i].1,
{
    let mut texts: Vec<String> = Vec::new();
    for i in 0..ranked.len()
        invariant
            texts@.len() == i,
            forall|k: int| 0 <= k < i ==> #[trigger] texts@[k]@ == ranked@[k].text@,
    {
        texts.push(ranked[i].text.clone());
    }
    assert forall|i: int| 0 <= i < texts@.len() implies #[trigger] texts.deep_view()[i]
        == ranked.deep_view()[i].1 by {
        assert(texts@[i]@ == ranked@[i].text@);
    }
    texts
}

/// Filter + rank `candidates` against `query`. Keep candidates whose
/// ASCII-folded form has the ASCII-folded query as a subsequence; order
/// by a total key: (1) exact match, (2) contiguous (folded candidate
/// *contains* folded query) before scattered, (3) earliest first-match
/// char index, (4) fewer characters, (5) harvest index. An empty query
/// keeps everything in harvest order. All comparisons are on folded
/// characters, so the ranking is identical regardless of byte width.
pub fn filter_rank(candidates: &Vec<String>, query: &str) -> (shown: Vec<String>)
    ensures
        shown.deep_view() == shown_for(candidates.deep_view(), query@),
{
    let ghost all = candidates.deep_view();
    let q = ascii_fold(query);
    if q.len() == 0 {
        let mut shown: Vec<String> = Vec::new();
        for i in 0..candidates.len()
            invariant
                all == candidates.deep_view(),
                shown.deep_view() == all.take(i as int),
        {
            let ghost before = shown.deep_view();
            shown.push(candidates[i].clone());
            assert(shown.deep_view() =~= before.push(all[i as int]));
            assert(shown.deep_view() =~= all.take(i + 1));
        }
        assert(all.take(all.len() as int) =~= all);
        return shown;
    }
    let first_query: char = q[0];
    let ghost keep = |c: Seq<char>| matches_query(c, query@);
    let ghost with_rank = |c: Seq<char>| (rank(c, query@), c);
    let mut ranked: Vec<RankedCandidate> = Vec::new();
    assert(all.take(0) =~= Seq::empty());
    assert(ranked.deep_view() =~= all.take(0).filter(keep).map_values(with_rank));
    for i in 0..candidates.len()
        invariant
            all == candidates.deep_view(),
            q@ == folded(query@),
            q@.len() > 0,
            first_query == q@[0],
            keep == (|c: Seq<char>| matches_query(c, query@)),
            with_rank == (|c: Seq<char>| (rank(c, query@), c)),
            ranked.deep_view() == all.take(i as int).filter(keep).map_values(with_rank),
    {
        let cand = &candidates[i];
        let s = ascii_fold(cand.as_str());
        let ghost before = ranked.deep_view();
        proof {
            assert(all[i as int] == cand@);
            assert(all.take(i + 1) =~= all.take(i as int).push(cand@));
            all.take(i as int).lemma_filter_push(cand@, keep);
        }
        if has_subsequence(&q, &s) {
            let exact: u8 = if same_chars(&s, &q) {
                0
            } else {
                1
            };
            let contiguous: u8 = if has_substring(&q, &s) {
                0
            } else {
                1
            };
            let first: usize = index_of_char(&s, first_query);
            let entry = RankedCandidate {
                exact,
                contiguous,
                first,
                length: s.len(),
                text: cand.clone(),
            };
            assert(entry.deep_view() == with_rank(cand@));
            ranked.push(entry);
            assert(ranked.deep_view() =~= before.push(with_rank(cand@)));
            assert(ranked.deep_view() =~= all.take(i + 1).filter(keep).map_values(with_rank));
        }
    }
    assert(all.take(all.len() as int) =~= all);
    let sorted = crate::order::stable_sort(ranked);
    let ghost kept = all.filter(keep);
    proof {
        let ranking = crate::order::ranking::<RankedCandidate>();
        crate::order::sorted_of_mapped(kept, with_rank, shown_no_later(query@), ranking);
        assert(sorted.deep_view() == crate::order::sorted(kept, shown_no_later(query@)).map_values(
            with_rank,
        ));
    }
    let shown = texts_of(&sorted);
    assert(shown.deep_view() =~= shown_for(all, query@));
    shown
}

// -- What templates keep --

proof fn token_names_of_front(first: Piece, rest: Seq<Piece>)
    ensures
        token_names(seq![first] + rest) == (match first {
            Piece::Token(name) => seq![name],
            Piece::Text(_) => Seq::empty(),
        }) + token_names(rest),
{
    let one = seq![first];
    token_names_of_concat(one, rest);
    assert(one.drop_last() =~= Seq::empty());
    assert(token_names(one.drop_last()) =~= Seq::empty());
    assert(one.last() == first);
    assert(token_names(one) =~= match first {
        Piece::Token(name) => seq![name],
        Piece::Text(_) => Seq::empty(),
    });
}

proof fn resolve_of_front(first: Piece, rest: Seq<Piece>, vars: Map<Seq<char>, Seq<char>>)
    ensures
        resolve_pieces(seq![first] + rest, vars) == piece_text(first, vars) + resolve_pieces(
            rest,
            vars,
        ),
{
    let one = seq![first];
    resolve_of_concat(one, rest, vars);
    assert(one.drop_last() =~= Seq::empty());
    assert(resolve_pieces(one.drop_last(), vars) =~= Seq::empty());
    assert(resolve_pieces(one, vars) =~= piece_text(first, vars));
}

proof fn unknown_tokens_stay(s: Seq<char>, i: int, vars: Map<Seq<char>, Seq<char>>)
    requires
        0 <= i <= s.len(),
        forall|k: int|
            0 <= k < token_names(pieces_from(s, i)).len() ==> !vars.contains_key(
                #[trigger] token_names(pieces_from(s, i))[k],
            ),
    ensures
        resolve_pieces(pieces_from(s, i), vars) == s.skip(i),
    decreases s.len() - i,
{
    if i == s.len() {
        assert(s.skip(i) =~= Seq::empty());
        assert(resolve_pieces(pieces_from(s, i), vars) =~= Seq::empty());
    } else {
        match token_at(s, i) {
            Some(end) => {
                let name = s.subrange(i + 1, end);
                let rest = pieces_from(s, end + 1);
                token_names_of_front(Piece::Token(name), rest);
                resolve_of_front(Piece::Token(name), rest, vars);
                let all = token_names(pieces_from(s, i));
                assert(all[0] == name);
                assert forall|k: int| 0 <= k < token_names(rest).len() implies !vars.contains_key(
                    #[trigger] token_names(rest)[k],
                ) by {
                    assert(all[k + 1] == token_names(rest)[k]);
                }
                unknown_tokens_stay(s, end + 1, vars);
                assert(s.skip(i) =~= seq!['{'] + name + seq!['}'] + s.skip(end + 1));
            },
            None => {
                let rest = pieces_from(s, i + 1);
                token_names_of_front(Piece::Text(seq![s[i]]), rest);
                resolve_of_front(Piece::Text(seq![s[i]]), rest, vars);
                assert(token_names(pieces_from(s, i)) =~= token_names(rest));
                unknown_tokens_stay(s, i + 1, vars);
                assert(s.skip(i) =~= seq![s[i]] + s.skip(i + 1));
            },
        }
    }
}

/// A template whose variables all lack a value resolves to itself: tokens
/// that are not known stay as they are.
pub proof fn unknown_variables_stay_literal(tmpl: Seq<char>, vars: Map<Seq<char>, Seq<char>>)
    requires
        forall|name: Seq<char>| mentions(tmpl, name) ==> !vars.contains_key(name),
    ensures
        resolved(tmpl, vars) == tmpl,
{
    let names = token_names(pieces(tmpl));
    text::distinct_holds_each_once(names);
    assert forall|k: int| 0 <= k < names.len() implies !vars.contains_key(
        #[trigger] names[k],
    ) by {
        assert(names.contains(names[k]));
        assert(mentions(tmpl, names[k]));
    }
    unknown_tokens_stay(tmpl, 0, vars);
    assert(tmpl.skip(0) =~= tmpl);
}

/// `a` and `b` have the same value for `name`, or neither has one.
pub open spec fn agree_on(
    a: Map<Seq<char>, Seq<char>>,
    b: Map<Seq<char>, Seq<char>>,
    name: Seq<char>,
) -> bool {
    if a.contains_key(name) {
        b.contains_key(name) && a[name] == b[name]
    } else {
        !b.contains_key(name)
    }
}

proof fn agreeing_values_resolve_alike(
    ps: Seq<Piece>,
    a: Map<Seq<char>, Seq<char>>,
    b: Map<Seq<char>, Seq<char>>,
)
    requires
        forall|name: Seq<char>| token_names(ps).contains(name) ==> #[trigger] agree_on(a, b, name),
    ensures
        resolve_pieces(ps, a) == resolve_pieces(ps, b),
    decreases ps.len(),
{
    if ps.len() > 0 {
        let rest = ps.drop_last();
        assert forall|name: Seq<char>| token_names(rest).contains(name) implies #[trigger] agree_on(
            a,
            b,
            name,
        ) by {
            let k = choose|k: int| 0 <= k < token_names(rest).len() && token_names(rest)[k] == name;
            assert(token_names(ps)[k] == name);
        }
        agreeing_values_resolve_alike(rest, a, b);
        if let Piece::Token(name) = ps.last() {
            assert(token_names(ps).last() == name);
            assert(token_names(ps).contains(name));
            assert(agree_on(a, b, name));
        }
    }
}

/// What a template resolves to depends on the variables that it mentions and
/// on nothing else.
pub proof fn only_mentioned_variables_matter(
    tmpl: Seq<char>,
    a: Map<Seq<char>, Seq<char>>,
    b: Map<Seq<char>, Seq<char>>,
)
    requires
        forall|name: Seq<char>| mentions(tmpl, name) ==> #[trigger] agree_on(a, b, name),
    ensures
        resolved(tmpl, a) == resolved(tmpl, b),
{
    text::distinct_holds_each_once(token_names(pieces(tmpl)));
    assert forall|name: Seq<char>| token_names(pieces(tmpl)).contains(
        name,
    ) implies #[trigger] agree_on(a, b, name) by {
        assert(mentions(tmpl, name));
    }
    agreeing_values_resolve_alike(pieces(tmpl), a, b);
}

/// An attachment that a variable does not govern stays where it is when that
/// variable changes.
pub proof fn ungoverned_templates_do_not_change(
    tmpl: Seq<char>,
    vars: Map<Seq<char>, Seq<char>>,
    var: Seq<char>,
    value: Seq<char>,
)
    requires
        !mentions(tmpl, var),
    ensures
        resolved(tmpl, vars.insert(var, value)) == resolved(tmpl, vars),
{
    only_mentioned_variables_matter(tmpl, vars.insert(var, value), vars);
}

/// A template mentions each of its variables once, and no variable is unknown
/// exactly when all of them are known.
pub proof fn unknown_variables_are_those_not_known(tmpl: Seq<char>, known: Seq<Seq<char>>)
    ensures
        vars_of(tmpl).no_duplicates(),
        forall|name: Seq<char>|
            without(vars_of(tmpl), known).contains(name) <==> mentions(tmpl, name)
                && !known.contains(name),
        without(vars_of(tmpl), known).len() == 0 <==> forall|name: Seq<char>|
            mentions(tmpl, name) ==> known.contains(name),
{
    text::distinct_holds_each_once(token_names(pieces(tmpl)));
    let names = vars_of(tmpl);
    let left = without(names, known);
    let absent = |t: Seq<char>| !known.contains(t);
    assert forall|name: Seq<char>| left.contains(name) <==> mentions(tmpl, name)
        && !known.contains(name) by {
        if left.contains(name) {
            names.lemma_filter_contains_rev(absent, name);
            let i = choose|i: int| 0 <= i < left.len() && left[i] == name;
            names.lemma_filter_pred(absent, i);
        }
        if names.contains(name) && !known.contains(name) {
            let i = choose|i: int| 0 <= i < names.len() && names[i] == name;
            names.lemma_filter_contains(absent, i);
        }
    }
    if left.len() > 0 {
        assert(left.contains(left[0]));
    }
    if exists|name: Seq<char>| mentions(tmpl, name) && !known.contains(name) {
        let name = choose|name: Seq<char>| mentions(tmpl, name) && !known.contains(name);
        assert(left.contains(name));
    }
}

/// Around its only `target` token, a template resolves to a prefix and a
/// suffix that do not depend on the value of `target`.
proof fn resolves_around_target(
    tmpl: Seq<char>,
    vars: Map<Seq<char>, Seq<char>>,
    target: Seq<char>,
    value: Seq<char>,
)
    requires
        occurrences(pieces(tmpl), target) == 1,
    ensures
        resolved(tmpl, vars.insert(target, value)) == prefix_of(pieces(tmpl), vars, target) + value
            + suffix_of(pieces(tmpl), vars, target),
{
    let ps = pieces(tmpl);
    let token = Piece::Token(target);
    let with_value = vars.insert(target, value);
    one_occurrence_is_found(ps, target);
    let at = ps.index_of(token);
    let head = ps.take(at);
    let tail = ps.skip(at + 1);
    assert(ps =~= head + (seq![token] + tail));
    resolve_of_concat(head, seq![token] + tail, with_value);
    resolve_of_front(token, tail, with_value);
    assert forall|name: Seq<char>| token_names(head).contains(name) implies name != target by {
        if token_names(head).contains(target) {
            name_comes_from_a_token(head, target);
            let k = choose|k: int| 0 <= k < head.len() && head[k] == token;
            assert(ps[k] == token);
            only_occurrence(ps, target, k, at);
        }
    }
    assert forall|name: Seq<char>| token_names(tail).contains(name) implies name != target by {
        if token_names(tail).contains(target) {
            name_comes_from_a_token(tail, target);
            let k = choose|k: int| 0 <= k < tail.len() && tail[k] == token;
            assert(ps[at + 1 + k] == token);
            only_occurrence(ps, target, at + 1 + k, at);
        }
    }
    agreeing_values_resolve_alike(head, with_value, vars);
    agreeing_values_resolve_alike(tail, with_value, vars);
    assert(resolved(tmpl, with_value) =~= prefix_of(ps, vars, target) + value + suffix_of(
        ps,
        vars,
        target,
    ));
}

proof fn one_occurrence_is_found(ps: Seq<Piece>, target: Seq<char>)
    requires
        occurrences(ps, target) >= 1,
    ensures
        0 <= ps.index_of(Piece::Token(target)) < ps.len(),
        ps[ps.index_of(Piece::Token(target))] == Piece::Token(target),
    decreases ps.len(),
{
    let token = Piece::Token(target);
    if ps.last() == token {
        assert(ps[ps.len() - 1] == token);
    } else {
        let rest = ps.drop_last();
        one_occurrence_is_found(rest, target);
        assert(ps[rest.index_of(token)] == token);
    }
}

proof fn name_comes_from_a_token(ps: Seq<Piece>, name: Seq<char>)
    requires
        token_names(ps).contains(name),
    ensures
        exists|k: int| 0 <= k < ps.len() && ps[k] == Piece::Token(name),
    decreases ps.len(),
{
    if ps.len() > 0 {
        let rest = ps.drop_last();
        if ps.last() == Piece::Token(name) {
            assert(ps[ps.len() - 1] == Piece::Token(name));
        } else {
            let names = token_names(ps);
            let k = choose|k: int| 0 <= k < names.len() && names[k] == name;
            assert(token_names(rest)[k] == name);
            name_comes_from_a_token(rest, name);
            let j = choose|j: int| 0 <= j < rest.len() && rest[j] == Piece::Token(name);
            assert(ps[j] == Piece::Token(name));
        }
    }
}

proof fn captured_means(name: Seq<char>, prefix: Seq<char>, suffix: Seq<char>, value: Seq<char>)
    ensures
        captured(name, prefix, suffix) == Some(value) <==> value.len() > 0 && name == prefix + value
            + suffix,
{
    let end = name.len() - suffix.len();
    if captured(name, prefix, suffix) == Some(value) {
        assert(name =~= name.take(prefix.len() as int) + name.subrange(prefix.len() as int, end)
            + name.skip(end));
    }
    if value.len() > 0 && name == prefix + value + suffix {
        assert(name.take(prefix.len() as int) =~= prefix);
        assert(name.skip(end) =~= suffix);
        assert(name.subrange(prefix.len() as int, end) =~= value);
    }
}

proof fn captures_means(
    names: Seq<Seq<char>>,
    prefix: Seq<char>,
    suffix: Seq<char>,
    value: Seq<char>,
)
    ensures
        captures(names, prefix, suffix).contains(value) <==> value.len() > 0 && names.contains(
            prefix + value + suffix,
        ),
    decreases names.len(),
{
    let whole = prefix + value + suffix;
    let all = captures(names, prefix, suffix);
    if names.len() > 0 {
        let rest = names.drop_last();
        let before = captures(rest, prefix, suffix);
        captures_means(rest, prefix, suffix, value);
        captured_means(names.last(), prefix, suffix, value);
        if names.contains(whole) {
            let k = choose|k: int| 0 <= k < names.len() && names[k] == whole;
            if k < rest.len() {
                assert(rest[k] == whole);
            } else {
                assert(names.last() == whole);
            }
        }
        if rest.contains(whole) {
            let k = choose|k: int| 0 <= k < rest.len() && rest[k] == whole;
            assert(names[k] == whole);
        }
        if names.last() == whole {
            assert(names[names.len() - 1] == whole);
        }
        if before.contains(value) {
            let k = choose|k: int| 0 <= k < before.len() && before[k] == value;
            assert(all[k] == value);
        }
        if captured(names.last(), prefix, suffix) == Some(value) {
            assert(all[all.len() - 1] == value);
        }
        if all.contains(value) && !before.contains(value) {
            let k = choose|k: int| 0 <= k < all.len() && all[k] == value;
            if k < before.len() {
                assert(before[k] == value);
            }
            assert(captured(names.last(), prefix, suffix) == Some(value));
        }
    }
}

proof fn harvest_means(
    templates: Seq<Seq<char>>,
    names: Seq<Seq<char>>,
    vars: Map<Seq<char>, Seq<char>>,
    target: Seq<char>,
    value: Seq<char>,
)
    ensures
        harvest(templates, names, vars, target).contains(value) <==> value.len() > 0 && exists|
            t: int,
        |
            0 <= t < templates.len() && occurrences(pieces(#[trigger] templates[t]), target) == 1
                && names.contains(resolved(templates[t], vars.insert(target, value))),
    decreases templates.len(),
{
    let all = harvest(templates, names, vars, target);
    if templates.len() > 0 {
        let rest = templates.drop_last();
        let last = templates.last();
        let before = harvest(rest, names, vars, target);
        let here = harvest_one(last, names, vars, target);
        harvest_means(rest, names, vars, target, value);
        if occurrences(pieces(last), target) == 1 {
            resolves_around_target(last, vars, target, value);
            captures_means(
                names,
                prefix_of(pieces(last), vars, target),
                suffix_of(pieces(last), vars, target),
                value,
            );
        }
        if before.contains(value) {
            let k = choose|k: int| 0 <= k < before.len() && before[k] == value;
            assert(all[k] == value);
            let t = choose|t: int|
                0 <= t < rest.len() && occurrences(pieces(#[trigger] rest[t]), target) == 1
                    && names.contains(resolved(rest[t], vars.insert(target, value)));
            assert(templates[t] == rest[t]);
        }
        if here.contains(value) {
            let k = choose|k: int| 0 <= k < here.len() && here[k] == value;
            assert(all[before.len() + k] == value);
            assert(templates[templates.len() - 1] == last);
        }
        if all.contains(value) {
            let k = choose|k: int| 0 <= k < all.len() && all[k] == value;
            if k < before.len() {
                assert(before[k] == value);
            } else {
                assert(here[k - before.len()] == value);
            }
        }
        if value.len() > 0 && exists|t: int|
            0 <= t < templates.len() && occurrences(pieces(#[trigger] templates[t]), target) == 1
                && names.contains(resolved(templates[t], vars.insert(target, value))) {
            let t = choose|t: int|
                0 <= t < templates.len() && occurrences(pieces(#[trigger] templates[t]), target)
                    == 1 && names.contains(resolved(templates[t], vars.insert(target, value)));
            if t < rest.len() {
                assert(rest[t] == templates[t]);
                assert(before.contains(value));
            } else {
                assert(here.contains(value));
            }
        }
    }
}

/// The values offered for a variable are its current value, in the first
/// place, and exactly those that make one of its templates in use resolve to
/// the name of a session that exists, the other variables keeping their
/// values. None is offered twice. (A template that has the variable more than
/// once offers nothing.)
pub proof fn candidates_redial_to_sessions(
    sessions: Seq<SessionView>,
    vars: Map<Seq<char>, Seq<char>>,
    target: Seq<char>,
    value: Seq<char>,
)
    ensures
        candidates_for(sessions, vars, target).len() > 0,
        candidates_for(sessions, vars, target)[0] == current_value(vars, target),
        candidates_for(sessions, vars, target).no_duplicates(),
        candidates_for(sessions, vars, target).contains(value) <==> value == current_value(
            vars,
            target,
        ) || (value.len() > 0 && exists|tmpl: Seq<char>|
            all_templates(sessions).contains(tmpl) && #[trigger] occurrences(pieces(tmpl), target)
                == 1 && session::names(sessions).contains(
                resolved(tmpl, vars.insert(target, value)),
            )),
{
    let names = session::names(sessions);
    let templates = target_templates(sessions, target);
    let current = seq![current_value(vars, target)];
    let harvested = harvest(templates, names, vars, target);
    let all = current + harvested;
    text::distinct_holds_each_once(all);
    distinct_starts_with_first(all);
    harvest_means(templates, names, vars, target, value);
    templates_of_target(sessions, target);
    if harvested.contains(value) {
        let k = choose|k: int| 0 <= k < harvested.len() && harvested[k] == value;
        assert(all[k + 1] == value);
        let t = choose|t: int|
            0 <= t < templates.len() && occurrences(pieces(#[trigger] templates[t]), target) == 1
                && names.contains(resolved(templates[t], vars.insert(target, value)));
        assert(templates.contains(templates[t]));
    }
    if value == current_value(vars, target) {
        assert(all[0] == value);
    }
    if all.contains(value) {
        let k = choose|k: int| 0 <= k < all.len() && all[k] == value;
        if k > 0 {
            assert(harvested[k - 1] == value);
        }
    }
    if value.len() > 0 && exists|tmpl: Seq<char>|
        all_templates(sessions).contains(tmpl) && #[trigger] occurrences(pieces(tmpl), target) == 1
            && names.contains(resolved(tmpl, vars.insert(target, value))) {
        let tmpl = choose|tmpl: Seq<char>|
            all_templates(sessions).contains(tmpl) && #[trigger] occurrences(pieces(tmpl), target)
                == 1 && names.contains(resolved(tmpl, vars.insert(target, value)));
        assert(templates.contains(tmpl));
        let t = choose|t: int| 0 <= t < templates.len() && templates[t] == tmpl;
        assert(occurrences(pieces(templates[t]), target) == 1);
        assert(harvested.contains(value));
    }
}

proof fn distinct_starts_with_first(texts: Seq<Seq<char>>)
    requires
        texts.len() > 0,
    ensures
        text::distinct(texts).len() > 0,
        text::distinct(texts)[0] == texts[0],
    decreases texts.len(),
{
    if texts.len() > 1 {
        distinct_starts_with_first(texts.drop_last());
    } else {
        assert(text::distinct(texts.drop_last()) =~= Seq::empty());
    }
}

/// The templates of a variable are those in use that have its token.
proof fn templates_of_target(sessions: Seq<SessionView>, target: Seq<char>)
    ensures
        forall|tmpl: Seq<char>| #[trigger]
            target_templates(sessions, target).contains(tmpl) <==> all_templates(
                sessions,
            ).contains(tmpl) && mentions(tmpl, target),
        forall|tmpl: Seq<char>| #[trigger]
            occurrences(pieces(tmpl), target) >= 1 ==> mentions(tmpl, target),
{
    let used = all_templates(sessions);
    let has_target = |t: Seq<char>| mentions(t, target);
    let with_target = used.filter(has_target);
    text::distinct_holds_each_once(with_target);
    assert forall|tmpl: Seq<char>| #[trigger]
        target_templates(sessions, target).contains(tmpl) <==> used.contains(tmpl) && mentions(
            tmpl,
            target,
        ) by {
        if with_target.contains(tmpl) {
            used.lemma_filter_contains_rev(has_target, tmpl);
            let i = choose|i: int| 0 <= i < with_target.len() && with_target[i] == tmpl;
            used.lemma_filter_pred(has_target, i);
        }
        if used.contains(tmpl) && mentions(tmpl, target) {
            let i = choose|i: int| 0 <= i < used.len() && used[i] == tmpl;
            used.lemma_filter_contains(has_target, i);
        }
    }
    assert forall|tmpl: Seq<char>| #[trigger] occurrences(pieces(tmpl), target) >= 1 implies mentions(
        tmpl,
        target,
    ) by {
        one_occurrence_is_found(pieces(tmpl), target);
        token_is_named(pieces(tmpl), target, pieces(tmpl).index_of(Piece::Token(target)));
        text::distinct_holds_each_once(token_names(pieces(tmpl)));
    }
}

proof fn token_is_named(ps: Seq<Piece>, name: Seq<char>, at: int)
    requires
        0 <= at < ps.len(),
        ps[at] == Piece::Token(name),
    ensures
        token_names(ps).contains(name),
    decreases ps.len(),
{
    let rest = ps.drop_last();
    if at == ps.len() - 1 {
        assert(token_names(ps).last() == name);
    } else {
        token_is_named(rest, name, at);
        let k = choose|k: int| 0 <= k < token_names(rest).len() && token_names(rest)[k] == name;
        assert(token_names(ps)[k] == name);
    }
}

/// How well candidates match a query ranks them all.
pub proof fn matching_is_a_ranking(query: Seq<char>)
    ensures
        crate::order::is_ranking(shown_no_later(query)),
{
}

/// The list shows exactly the candidates that match the query, the best ones
/// first and equally good ones in the order they were harvested; an empty
/// query shows them all as they are.
pub proof fn list_shows_what_matches(cands: Seq<Seq<char>>, query: Seq<char>)
    ensures
        query.len() == 0 ==> shown_for(cands, query) == cands,
        query.len() > 0 ==> forall|c: Seq<char>|
            shown_for(cands, query).contains(c) <==> cands.contains(c) && matches_query(c, query),
        query.len() > 0 ==> crate::order::in_order(
            shown_for(cands, query),
            shown_no_later(query),
        ),
        query.len() > 0 ==> forall|c: Seq<char>|
            crate::order::level_with(shown_for(cands, query), c, shown_no_later(query))
                == crate::order::level_with(
                cands.filter(|c: Seq<char>| matches_query(c, query)),
                c,
                shown_no_later(query),
            ),
{
    if query.len() > 0 {
        let fits = |c: Seq<char>| matches_query(c, query);
        let kept = cands.filter(fits);
        let shown = shown_for(cands, query);
        matching_is_a_ranking(query);
        crate::order::sorting_is_stable(kept, shown_no_later(query));
        kept.to_multiset_ensures();
        shown.to_multiset_ensures();
        assert forall|c: Seq<char>| shown.contains(c) <==> cands.contains(c) && matches_query(
            c,
            query,
        ) by {
            assert(shown.to_multiset().count(c) == kept.to_multiset().count(c));
            if kept.contains(c) {
                cands.lemma_filter_contains_rev(fits, c);
                let i = choose|i: int| 0 <= i < kept.len() && kept[i] == c;
                cands.lemma_filter_pred(fits, i);
            }
            if cands.contains(c) && matches_query(c, query) {
                let i = choose|i: int| 0 <= i < cands.len() && cands[i] == c;
                cands.lemma_filter_contains(fits, i);
            }
        }
    }
}

/// An exact match, upper and lower case aside, is shown ahead of every
/// candidate that is none.
pub proof fn exact_matches_come_first(
    cands: Seq<Seq<char>>,
    query: Seq<char>,
    i: int,
    j: int,
)
    requires
        query.len() > 0,
        0 <= i < shown_for(cands, query).len(),
        0 <= j < shown_for(cands, query).len(),
        folded(shown_for(cands, query)[i]) == folded(query),
        folded(shown_for(cands, query)[j]) != folded(query),
    ensures
        i < j,
{
    list_shows_what_matches(cands, query);
    let shown = shown_for(cands, query);
    if j < i {
        assert(shown_no_later(query)(shown[j], shown[i]));
    }
}

/// The positions of `q` in `s`, one for each of its characters, in order.
pub open spec fn is_embedding(q: Seq<char>, s: Seq<char>, at: Seq<int>) -> bool {
    &&& at.len() == q.len()
    &&& forall|i: int| 0 <= i < at.len() ==> 0 <= #[trigger] at[i] < s.len() && s[at[i]] == q[i]
    &&& forall|i: int, j: int| 0 <= i < j < at.len() ==> #[trigger] at[i] < #[trigger] at[j]
}

/// Taking each character of a query at the first place that it fits finds the
/// query wherever it can be found at all.
pub proof fn subsequences_are_embeddings(q: Seq<char>, s: Seq<char>)
    ensures
        is_subsequence(q, s) <==> exists|at: Seq<int>| is_embedding(q, s, at),
    decreases s.len(),
{
    if is_subsequence(q, s) {
        let at = embedding_of(q, s);
        assert(is_embedding(q, s, at));
    }
    if exists|at: Seq<int>| is_embedding(q, s, at) {
        let at = choose|at: Seq<int>| is_embedding(q, s, at);
        embedding_is_found(q, s, at);
    }
}

proof fn embedding_of(q: Seq<char>, s: Seq<char>) -> (at: Seq<int>)
    requires
        is_subsequence(q, s),
    ensures
        is_embedding(q, s, at),
    decreases s.len(),
{
    if q.len() == 0 {
        Seq::empty()
    } else if q[0] == s[0] {
        let rest = embedding_of(q.drop_first(), s.drop_first());
        let at = seq![0int] + rest.map_values(|i: int| i + 1);
        assert forall|i: int| 0 <= i < at.len() implies 0 <= #[trigger] at[i] < s.len() && s[at[i]]
            == q[i] by {
            if i > 0 {
                assert(at[i] == rest[i - 1] + 1);
                assert(s.drop_first()[rest[i - 1]] == q.drop_first()[i - 1]);
            }
        }
        assert forall|i: int, j: int| 0 <= i < j < at.len() implies #[trigger] at[i]
            < #[trigger] at[j] by {
            assert(at[j] == rest[j - 1] + 1);
            if i > 0 {
                assert(at[i] == rest[i - 1] + 1);
                assert(rest[i - 1] < rest[j - 1]);
            }
        }
        at
    } else {
        let rest = embedding_of(q, s.drop_first());
        let at = rest.map_values(|i: int| i + 1);
        assert forall|i: int| 0 <= i < at.len() implies 0 <= #[trigger] at[i] < s.len() && s[at[i]]
            == q[i] by {
            assert(at[i] == rest[i] + 1);
            assert(s.drop_first()[rest[i]] == q[i]);
        }
        assert forall|i: int, j: int| 0 <= i < j < at.len() implies #[trigger] at[i]
            < #[trigger] at[j] by {
            assert(rest[i] < rest[j]);
        }
        at
    }
}

proof fn embedding_is_found(q: Seq<char>, s: Seq<char>, at: Seq<int>)
    requires
        is_embedding(q, s, at),
    ensures
        is_subsequence(q, s),
    decreases s.len(),
{
    if q.len() > 0 {
        assert(0 <= at[0] < s.len());
        let tail = s.drop_first();
        if q[0] == s[0] {
            let rest = at.drop_first().map_values(|i: int| i - 1);
            let q_rest = q.drop_first();
            assert forall|i: int| 0 <= i < rest.len() implies 0 <= #[trigger] rest[i] < tail.len()
                && tail[rest[i]] == q_rest[i] by {
                assert(rest[i] == at[i + 1] - 1);
                assert(at[0] < at[i + 1]);
                assert(s[at[i + 1]] == q[i + 1]);
            }
            assert forall|i: int, j: int| 0 <= i < j < rest.len() implies #[trigger] rest[i]
                < #[trigger] rest[j] by {
                assert(at[i + 1] < at[j + 1]);
            }
            embedding_is_found(q_rest, tail, rest);
        } else {
            let rest = at.map_values(|i: int| i - 1);
            assert(at[0] > 0);
            assert forall|i: int| 0 <= i < rest.len() implies 0 <= #[trigger] rest[i] < tail.len()
                && tail[rest[i]] == q[i] by {
                assert(rest[i] == at[i] - 1);
                if i > 0 {
                    assert(at[0] < at[i]);
                }
                assert(s[at[i]] == q[i]);
            }
            assert forall|i: int, j: int| 0 <= i < j < rest.len() implies #[trigger] rest[i]
                < #[trigger] rest[j] by {
                assert(at[i] < at[j]);
            }
            embedding_is_found(q, tail, rest);
        }
    }
}

// -- What templates mean --

/// A name that a variable can have: letters, digits and underscores, and at
/// least one of them.
pub open spec fn names_a_variable(name: Seq<char>) -> bool {
    &&& name.len() > 0
    &&& forall|i: int|
        0 <= i < name.len() ==> {
            let c = #[trigger] name[i];
            ('A' <= c <= 'Z') || ('a' <= c <= 'z') || ('0' <= c <= '9') || c == '_'
        }
}

/// `{name}`.
pub open spec fn braced(name: Seq<char>) -> Seq<char> {
    seq!['{'] + name + seq!['}']
}

/// `{name}` stands in `tmpl` at position `at`.
pub open spec fn braced_at(tmpl: Seq<char>, name: Seq<char>, at: int) -> bool {
    0 <= at && at + name.len() + 2 <= tmpl.len() && tmpl.subrange(at, at + name.len() + 2)
        == braced(name)
}

/// No `{name}` stands anywhere in `s`.
pub open spec fn has_no_token(s: Seq<char>) -> bool {
    forall|name: Seq<char>, at: int| names_a_variable(name) ==> !#[trigger] braced_at(s, name, at)
}

proof fn ident_run(s: Seq<char>, i: int, j: int)
    requires
        0 <= i <= j <= s.len(),
        forall|k: int| i <= k < j ==> is_ident(#[trigger] s[k]),
        j < s.len() ==> !is_ident(s[j]),
    ensures
        ident_end(s, i) == j,
    decreases j - i,
{
    if i < j {
        assert(is_ident(s[i]));
        ident_run(s, i + 1, j);
    }
}

proof fn ident_run_is(s: Seq<char>, i: int)
    requires
        0 <= i <= s.len(),
    ensures
        i <= ident_end(s, i) <= s.len(),
        forall|k: int| i <= k < ident_end(s, i) ==> is_ident(#[trigger] s[k]),
        ident_end(s, i) < s.len() ==> !is_ident(s[ident_end(s, i)]),
    decreases s.len() - i,
{
    if i < s.len() && is_ident(s[i]) {
        ident_run_is(s, i + 1);
    }
}

/// A token opens at `i` exactly where `{name}` stands.
proof fn token_at_is_braced(s: Seq<char>, i: int)
    requires
        0 <= i < s.len(),
    ensures
        match token_at(s, i) {
            Some(end) => i + 1 < end < s.len() && names_a_variable(s.subrange(i + 1, end))
                && braced_at(s, s.subrange(i + 1, end), i),
            None => forall|name: Seq<char>|
                names_a_variable(name) ==> !#[trigger] braced_at(s, name, i),
        },
{
    let end = ident_end(s, i + 1);
    ident_run_is(s, i + 1);
    match token_at(s, i) {
        Some(_) => {
            let name = s.subrange(i + 1, end);
            assert forall|k: int| 0 <= k < name.len() implies is_ident(#[trigger] name[k]) by {
                assert(is_ident(s[i + 1 + k]));
            }
            assert(s.subrange(i, i + name.len() + 2) =~= braced(name));
        },
        None => {
            assert forall|name: Seq<char>| names_a_variable(name) implies !#[trigger] braced_at(
                s,
                name,
                i,
            ) by {
                if braced_at(s, name, i) {
                    let whole = s.subrange(i, i + name.len() + 2);
                    let j = i + 1 + name.len();
                    assert(whole[0] == '{' && s[i] == whole[0]);
                    assert(whole[j - i] == '}' && s[j] == whole[j - i]);
                    assert forall|k: int| i + 1 <= k < j implies is_ident(#[trigger] s[k]) by {
                        assert(s[k] == whole[k - i]);
                        assert(whole[k - i] == name[k - i - 1]);
                    }
                    ident_run(s, i + 1, j);
                }
            }
        },
    }
}

/// The pieces in front of a brace do not depend on what stands behind it.
proof fn pieces_in_front(a: Seq<char>, c: Seq<char>, i: int)
    requires
        0 <= i <= a.len(),
        c.len() > 0,
        c[0] == '{',
    ensures
        pieces_from(a + c, i) == pieces_from(a, i) + pieces_from(a + c, a.len() as int),
    decreases a.len() - i,
{
    let s = a + c;
    if i == a.len() {
        assert(pieces_from(a, i) =~= Seq::empty());
        assert(pieces_from(s, i) =~= pieces_from(a, i) + pieces_from(s, a.len() as int));
    } else {
        let end = ident_end(a, i + 1);
        ident_run_is(a, i + 1);
        assert forall|k: int| i + 1 <= k < end implies is_ident(#[trigger] s[k]) by {
            assert(s[k] == a[k]);
        }
        assert(end < a.len() ==> s[end] == a[end]);
        assert(end == a.len() ==> s[end] == '{');
        ident_run(s, i + 1, end);
        assert(s[i] == a[i]);
        assert(token_at(s, i) == token_at(a, i));
        match token_at(a, i) {
            Some(end) => {
                pieces_in_front(a, c, end + 1);
                assert(s.subrange(i + 1, end) =~= a.subrange(i + 1, end));
                assert(pieces_from(s, i) =~= pieces_from(a, i) + pieces_from(s, a.len() as int));
            },
            None => {
                pieces_in_front(a, c, i + 1);
                assert(pieces_from(s, i) =~= pieces_from(a, i) + pieces_from(s, a.len() as int));
            },
        }
    }
}

/// The pieces from `i` on are those of the rest.
proof fn pieces_of_rest(s: Seq<char>, from: int, i: int)
    requires
        0 <= from <= i <= s.len(),
    ensures
        pieces_from(s, i) == pieces_from(s.skip(from), i - from),
    decreases s.len() - i,
{
    let r = s.skip(from);
    if i < s.len() {
        let end = ident_end(s, i + 1);
        ident_run_is(s, i + 1);
        assert forall|k: int| i + 1 - from <= k < end - from implies is_ident(
            #[trigger] r[k],
        ) by {
            assert(r[k] == s[k + from]);
        }
        assert(end < s.len() ==> r[end - from] == s[end]);
        ident_run(r, i + 1 - from, end - from);
        assert(r[i - from] == s[i]);
        match token_at(s, i) {
            Some(e) => {
                assert(token_at(r, i - from) == Some(e - from));
                pieces_of_rest(s, from, e + 1);
                assert(r.subrange(i - from + 1, e - from) =~= s.subrange(i + 1, e));
            },
            None => {
                assert(token_at(r, i - from) is None);
                pieces_of_rest(s, from, i + 1);
            },
        }
    }
}

/// Wherever a brace, a name of letters, digits and underscores, and a closing
/// brace stand, they are a token; what stands in front of it and behind it is
/// taken apart as if it stood alone.
#[verifier::rlimit(40)]
pub proof fn braced_names_are_tokens(a: Seq<char>, name: Seq<char>, b: Seq<char>)
    requires
        names_a_variable(name),
    ensures
        pieces(a + braced(name) + b) == pieces(a) + seq![Piece::Token(name)] + pieces(b),
{
    let c = braced(name) + b;
    let s = a + c;
    let n = a.len() as int;
    let end = n + 1 + name.len();
    assert(a + braced(name) + b =~= s);
    pieces_in_front(a, c, 0);
    assert forall|k: int| n + 1 <= k < end implies is_ident(#[trigger] s[k]) by {
        assert(s[k] == name[k - n - 1]);
    }
    assert(s[end] == '}');
    ident_run(s, n + 1, end);
    assert(s[n] == '{');
    assert(token_at(s, n) == Some(end));
    assert(s.subrange(n + 1, end) =~= name);
    pieces_of_rest(s, end + 1, end + 1);
    assert(s.skip(end + 1) =~= b);
    assert(pieces(s) =~= pieces(a) + seq![Piece::Token(name)] + pieces(b));
}

proof fn no_token_from(s: Seq<char>, i: int)
    requires
        0 <= i <= s.len(),
        has_no_token(s),
    ensures
        pieces_from(s, i).len() == s.len() - i,
        forall|k: int|
            0 <= k < s.len() - i ==> #[trigger] pieces_from(s, i)[k] == Piece::Text(
                seq![s[i + k]],
            ),
    decreases s.len() - i,
{
    if i < s.len() {
        token_at_is_braced(s, i);
        no_token_from(s, i + 1);
        let rest = pieces_from(s, i + 1);
        assert(token_at(s, i) is None);
        assert forall|k: int| 0 <= k < s.len() - i implies #[trigger] pieces_from(s, i)[k]
            == Piece::Text(seq![s[i + k]]) by {
            if k > 0 {
                assert(pieces_from(s, i)[k] == rest[k - 1]);
            }
        }
    }
}

/// Text that no `{name}` stands in is literal, braces and all.
pub proof fn text_without_tokens_is_literal(s: Seq<char>, vars: Map<Seq<char>, Seq<char>>)
    requires
        has_no_token(s),
    ensures
        pieces(s).len() == s.len(),
        forall|k: int| 0 <= k < s.len() ==> #[trigger] pieces(s)[k] == Piece::Text(seq![s[k]]),
        resolved(s, vars) == s,
        vars_of(s).len() == 0,
{
    no_token_from(s, 0);
    assert(pieces(s) =~= text_pieces(s));
    resolve_of_text(s, vars);
    text_has_no_tokens(s);
}

/// A `{name}` becomes the value of the variable where it has one, and stays as
/// it is where it has none; what stands around it resolves by itself.
pub proof fn tokens_become_their_values(
    a: Seq<char>,
    name: Seq<char>,
    b: Seq<char>,
    vars: Map<Seq<char>, Seq<char>>,
)
    requires
        names_a_variable(name),
    ensures
        resolved(a + braced(name) + b, vars) == resolved(a, vars) + (if vars.contains_key(name) {
            vars[name]
        } else {
            braced(name)
        }) + resolved(b, vars),
{
    braced_names_are_tokens(a, name, b);
    let one = seq![Piece::Token(name)];
    resolve_of_concat(pieces(a) + one, pieces(b), vars);
    resolve_of_concat(pieces(a), one, vars);
    resolve_of_token(name, vars);
}

/// Between two texts without tokens, one token resolves to its value.
pub proof fn one_token_is_replaced(
    a: Seq<char>,
    name: Seq<char>,
    b: Seq<char>,
    vars: Map<Seq<char>, Seq<char>>,
)
    requires
        names_a_variable(name),
        has_no_token(a),
        has_no_token(b),
        vars.contains_key(name),
    ensures
        resolved(a + braced(name) + b, vars) == a + vars[name] + b,
{
    tokens_become_their_values(a, name, b, vars);
    text_without_tokens_is_literal(a, vars);
    text_without_tokens_is_literal(b, vars);
}

proof fn token_names_stand_in_braces(s: Seq<char>, i: int, name: Seq<char>)
    requires
        0 <= i <= s.len(),
        token_names(pieces_from(s, i)).contains(name),
    ensures
        names_a_variable(name),
        exists|at: int| braced_at(s, name, at),
    decreases s.len() - i,
{
    if i < s.len() {
        token_at_is_braced(s, i);
        match token_at(s, i) {
            Some(end) => {
                let first = Piece::Token(s.subrange(i + 1, end));
                let rest = pieces_from(s, end + 1);
                token_names_of_front(first, rest);
                let names = token_names(pieces_from(s, i));
                let k = choose|k: int| 0 <= k < names.len() && names[k] == name;
                if k > 0 {
                    assert(token_names(rest)[k - 1] == name);
                    token_names_stand_in_braces(s, end + 1, name);
                } else {
                    assert(braced_at(s, name, i));
                }
            },
            None => {
                let first = Piece::Text(seq![s[i]]);
                let rest = pieces_from(s, i + 1);
                token_names_of_front(first, rest);
                assert(token_names(pieces_from(s, i)) =~= token_names(rest));
                token_names_stand_in_braces(s, i + 1, name);
            },
        }
    }
}

/// A template mentions a variable exactly if its name stands in it somewhere
/// in braces.
pub proof fn mentioned_variables_stand_in_braces(tmpl: Seq<char>, name: Seq<char>)
    ensures
        vars_of(tmpl).contains(name) <==> names_a_variable(name) && exists|at: int|
            braced_at(tmpl, name, at),
        mentions(tmpl, name) == vars_of(tmpl).contains(name),
{
    let names = token_names(pieces(tmpl));
    text::distinct_holds_each_once(names);
    if names.contains(name) {
        token_names_stand_in_braces(tmpl, 0, name);
    }
    if names_a_variable(name) && exists|at: int| braced_at(tmpl, name, at) {
        let at = choose|at: int| braced_at(tmpl, name, at);
        let a = tmpl.take(at);
        let b = tmpl.skip(at + name.len() + 2);
        assert(tmpl =~= a + tmpl.subrange(at, at + name.len() + 2) + b);
        braced_names_are_tokens(a, name, b);
        let one = seq![Piece::Token(name)];
        token_names_of_concat(pieces(a) + one, pieces(b));
        token_names_of_concat(pieces(a), one);
        assert(one.drop_last() =~= Seq::empty());
        assert(token_names(one.drop_last()) =~= Seq::empty());
        assert(token_names(one) =~= seq![name]);
        assert(names[token_names(pieces(a)).len() as int] == name);
    }
}

/// Variables are listed in the order in which they first stand in a template:
/// a token further behind adds its name at the end, unless it is there
/// already.
pub proof fn variables_are_listed_as_they_come(a: Seq<char>, name: Seq<char>, b: Seq<char>)
    requires
        names_a_variable(name),
        has_no_token(b),
    ensures
        vars_of(a + braced(name) + b) == if vars_of(a).contains(name) {
            vars_of(a)
        } else {
            vars_of(a) + seq![name]
        },
{
    braced_names_are_tokens(a, name, b);
    text_without_tokens_is_literal(b, Map::empty());
    let one = seq![Piece::Token(name)];
    token_names_of_concat(pieces(a) + one, pieces(b));
    token_names_of_concat(pieces(a), one);
    assert(one.drop_last() =~= Seq::empty());
    assert(token_names(one.drop_last()) =~= Seq::empty());
    assert(token_names(one) =~= seq![name]);
    no_token_from(b, 0);
    assert(pieces(b) =~= text_pieces(b));
    text_has_no_tokens(b);
    let before = token_names(pieces(a));
    assert(token_names(pieces(a + braced(name) + b)) =~= before.push(name));
    assert(before.push(name).drop_last() =~= before);
    text::distinct_holds_each_once(before);
    assert(vars_of(a).push(name) =~= vars_of(a) + seq![name]);
}

/// Of the variables that a name needs, those that are not known are asked for
/// in the order in which they stand in it.
pub proof fn unknown_variables_keep_their_order(
    tmpl: Seq<char>,
    known: Seq<Seq<char>>,
    i: int,
    j: int,
)
    requires
        0 <= i < j < without(vars_of(tmpl), known).len(),
    ensures
        exists|k: int, l: int|
            0 <= k < l < vars_of(tmpl).len() && #[trigger] vars_of(tmpl)[k] == without(
                vars_of(tmpl),
                known,
            )[i] && #[trigger] vars_of(tmpl)[l] == without(vars_of(tmpl), known)[j],
{
    filtering_keeps_order(vars_of(tmpl), |t: Seq<char>| !known.contains(t), i, j);
}

proof fn filtering_keeps_order(
    texts: Seq<Seq<char>>,
    keep: spec_fn(Seq<char>) -> bool,
    i: int,
    j: int,
)
    requires
        0 <= i < j < texts.filter(keep).len(),
    ensures
        exists|k: int, l: int|
            0 <= k < l < texts.len() && #[trigger] texts[k] == texts.filter(keep)[i]
                && #[trigger] texts[l] == texts.filter(keep)[j],
    decreases texts.len(),
{
    reveal(Seq::filter);
    let kept = texts.filter(keep);
    if texts.len() > 0 {
        let rest = texts.drop_last();
        let before = rest.filter(keep);
        assert(kept[i] == before[i]);
        if j < before.len() {
            assert(kept[j] == before[j]);
            filtering_keeps_order(rest, keep, i, j);
            let (k, l) = choose|k: int, l: int|
                0 <= k < l < rest.len() && #[trigger] rest[k] == before[i] && #[trigger] rest[l]
                    == before[j];
            assert(texts[k] == kept[i] && texts[l] == kept[j]);
        } else {
            assert(before.contains(before[i]));
            rest.lemma_filter_contains_rev(keep, before[i]);
            let k = choose|k: int| 0 <= k < rest.len() && rest[k] == before[i];
            let l = texts.len() - 1;
            assert(texts[k] == kept[i] && texts[l] == kept[j]);
        }
    }
}

// -- Templates in use --

proof fn templates_of(attachments: Seq<AttachmentView>, tmpl: Seq<char>)
    ensures
        attachment_templates(attachments).contains(tmpl) <==> exists|k: int|
            0 <= k < attachments.len() && (#[trigger] attachments[k]).template == tmpl,
{
    let all = attachment_templates(attachments);
    if all.contains(tmpl) {
        let k = choose|k: int| 0 <= k < all.len() && all[k] == tmpl;
        assert(attachments[k].template == tmpl);
    }
    if exists|k: int| 0 <= k < attachments.len() && (#[trigger] attachments[k]).template == tmpl {
        let k = choose|k: int|
            0 <= k < attachments.len() && (#[trigger] attachments[k]).template == tmpl;
        assert(all[k] == tmpl);
    }
}

/// A client of the session in row `i` dialed in with `tmpl`.
pub open spec fn dialed_with(sessions: Seq<SessionView>, i: int, tmpl: Seq<char>) -> bool {
    0 <= i < sessions.len() && exists|k: int|
        0 <= k < sessions[i].attachments.len() && (
        #[trigger] sessions[i].attachments[k]).template == tmpl
}

/// The templates in use are those that some client of some session dialed in
/// with.
pub proof fn templates_in_use_are_dialed(sessions: Seq<SessionView>, tmpl: Seq<char>)
    ensures
        all_templates(sessions).contains(tmpl) <==> exists|i: int| dialed_with(sessions, i, tmpl),
    decreases sessions.len(),
{
    if sessions.len() > 0 {
        let rest = sessions.drop_last();
        let n = sessions.len() - 1;
        let before = all_templates(rest);
        let last = attachment_templates(sessions.last().attachments);
        let all = all_templates(sessions);
        templates_in_use_are_dialed(rest, tmpl);
        templates_of(sessions.last().attachments, tmpl);
        if all.contains(tmpl) {
            let k = choose|k: int| 0 <= k < all.len() && all[k] == tmpl;
            if k < before.len() {
                assert(before[k] == tmpl);
                let i = choose|i: int| dialed_with(rest, i, tmpl);
                assert(rest[i] == sessions[i]);
                assert(dialed_with(sessions, i, tmpl));
            } else {
                assert(last[k - before.len()] == tmpl);
                assert(dialed_with(sessions, n, tmpl));
            }
        }
        if exists|i: int| dialed_with(sessions, i, tmpl) {
            let i = choose|i: int| dialed_with(sessions, i, tmpl);
            if i < n {
                assert(rest[i] == sessions[i]);
                assert(dialed_with(rest, i, tmpl));
                let k = choose|k: int| 0 <= k < before.len() && before[k] == tmpl;
                assert(all[k] == tmpl);
            } else {
                let k = choose|k: int| 0 <= k < last.len() && last[k] == tmpl;
                assert(all[before.len() + k] == tmpl);
            }
        }
    }
}

// -- Governed attachments --

proof fn governed_in_of_concat(
    name: Seq<char>,
    a: Seq<AttachmentView>,
    b: Seq<AttachmentView>,
    var: Seq<char>,
)
    ensures
        governed_in(name, a + b, var) == governed_in(name, a, var) + governed_in(name, b, var),
    decreases b.len(),
{
    if b.len() == 0 {
        assert(a + b =~= a);
        assert(governed_in(name, a + b, var) =~= governed_in(name, a, var) + governed_in(
            name,
            b,
            var,
        ));
    } else {
        assert((a + b).drop_last() =~= a + b.drop_last());
        governed_in_of_concat(name, a, b.drop_last(), var);
        assert(governed_in(name, a + b, var) =~= governed_in(name, a, var) + governed_in(
            name,
            b,
            var,
        ));
    }
}

/// The attachments that a variable governs are listed in the order of the
/// sessions, and of the clients of each: those of some sessions, then those of
/// the others.
pub proof fn governed_attachments_add_up(
    a: Seq<SessionView>,
    b: Seq<SessionView>,
    var: Seq<char>,
)
    ensures
        governed(a + b, var) == governed(a, var) + governed(b, var),
    decreases b.len(),
{
    if b.len() == 0 {
        assert(a + b =~= a);
        assert(governed(a + b, var) =~= governed(a, var) + governed(b, var));
    } else {
        assert((a + b).drop_last() =~= a + b.drop_last());
        governed_attachments_add_up(a, b.drop_last(), var);
        assert(governed(a + b, var) =~= governed(a, var) + governed(b, var));
    }
}

/// Of the clients of one session, a variable governs those whose template has
/// its name in braces, each with its template and process id; one more client
/// comes behind the others.
pub proof fn governed_clients_mention_the_variable(
    s: SessionView,
    more: AttachmentView,
    var: Seq<char>,
)
    ensures
        ({
            let with = SessionView { attachments: s.attachments + seq![more], ..s };
            governed(seq![with], var) == governed(seq![s], var) + if names_a_variable(var)
                && exists|at: int| braced_at(more.template, var, at) {
                seq![GovernedView { session: s.name, template: more.template, pid: more.pid }]
            } else {
                Seq::empty()
            }
        }),
        s.attachments.len() == 0 ==> governed(seq![s], var).len() == 0,
{
    let with = SessionView { attachments: s.attachments + seq![more], ..s };
    mentioned_variables_stand_in_braces(more.template, var);
    governed_in_of_concat(s.name, s.attachments, seq![more], var);
    assert(seq![with].drop_last() =~= Seq::empty());
    assert(seq![s].drop_last() =~= Seq::empty());
    assert(seq![more].drop_last() =~= Seq::empty());
    assert(governed(Seq::empty(), var) =~= Seq::empty());
    assert(governed_in(s.name, seq![more].drop_last(), var) =~= Seq::empty());
    assert(governed(seq![with], var) =~= governed_in(s.name, s.attachments, var) + governed_in(
        s.name,
        seq![more],
        var,
    ));
    assert(governed(seq![s], var) =~= governed_in(s.name, s.attachments, var));
}

// -- Values on offer --

proof fn occurrences_are_names(ps: Seq<Piece>, target: Seq<char>)
    ensures
        occurrences(ps, target) > 0 <==> token_names(ps).contains(target),
    decreases ps.len(),
{
    if ps.len() > 0 {
        let rest = ps.drop_last();
        occurrences_are_names(rest, target);
        let names = token_names(ps);
        let before = token_names(rest);
        if names.contains(target) {
            let k = choose|k: int| 0 <= k < names.len() && names[k] == target;
            if k < before.len() {
                assert(before[k] == target);
            }
        }
        if before.contains(target) {
            let k = choose|k: int| 0 <= k < before.len() && before[k] == target;
            assert(names[k] == target);
        }
        if ps.last() == Piece::Token(target) {
            assert(names[names.len() - 1] == target);
        }
    }
}

/// `{name}` stands in `tmpl` between `a` and `b`, and nowhere else.
pub open spec fn stands_between(
    tmpl: Seq<char>,
    name: Seq<char>,
    a: Seq<char>,
    b: Seq<char>,
) -> bool {
    &&& tmpl == a + braced(name) + b
    &&& forall|at: int| !braced_at(a, name, at)
    &&& forall|at: int| !braced_at(b, name, at)
}

/// `{name}` stands in `tmpl` exactly once.
pub open spec fn stands_once(tmpl: Seq<char>, name: Seq<char>) -> bool {
    exists|a: Seq<char>, b: Seq<char>| stands_between(tmpl, name, a, b)
}

proof fn occurrences_around(a: Seq<char>, name: Seq<char>, b: Seq<char>)
    requires
        names_a_variable(name),
    ensures
        occurrences(pieces(a + braced(name) + b), name) == occurrences(pieces(a), name) + 1
            + occurrences(pieces(b), name),
{
    let one = seq![Piece::Token(name)];
    braced_names_are_tokens(a, name, b);
    occurrences_of_concat(pieces(a) + one, pieces(b), name);
    occurrences_of_concat(pieces(a), one, name);
    assert(one.drop_last() =~= Seq::empty());
    assert(occurrences(one.drop_last(), name) == 0);
}

proof fn occurrences_stand_in_braces(tmpl: Seq<char>, name: Seq<char>)
    requires
        names_a_variable(name),
    ensures
        occurrences(pieces(tmpl), name) > 0 <==> exists|at: int| braced_at(tmpl, name, at),
{
    occurrences_are_names(pieces(tmpl), name);
    text::distinct_holds_each_once(token_names(pieces(tmpl)));
    mentioned_variables_stand_in_braces(tmpl, name);
}

proof fn one_occurrence_stands_once(tmpl: Seq<char>, name: Seq<char>)
    ensures
        occurrences(pieces(tmpl), name) == 1 <==> names_a_variable(name) && stands_once(tmpl, name),
{
    if occurrences(pieces(tmpl), name) == 1 {
        occurrences_are_names(pieces(tmpl), name);
        token_names_stand_in_braces(tmpl, 0, name);
        let at = choose|at: int| braced_at(tmpl, name, at);
        let a = tmpl.take(at);
        let b = tmpl.skip(at + name.len() + 2);
        assert(tmpl =~= a + tmpl.subrange(at, at + name.len() + 2) + b);
        occurrences_around(a, name, b);
        occurrences_stand_in_braces(a, name);
        occurrences_stand_in_braces(b, name);
        assert(stands_between(tmpl, name, a, b));
    }
    if names_a_variable(name) && stands_once(tmpl, name) {
        let (a, b) = choose|a: Seq<char>, b: Seq<char>| stands_between(tmpl, name, a, b);
        occurrences_around(a, name, b);
        occurrences_stand_in_braces(a, name);
        occurrences_stand_in_braces(b, name);
    }
}

/// Some client dialed in with a template that has `target` once, and that
/// names session `j` once `target` has `value`.
pub open spec fn redials(
    sessions: Seq<SessionView>,
    vars: Map<Seq<char>, Seq<char>>,
    target: Seq<char>,
    value: Seq<char>,
    tmpl: Seq<char>,
    i: int,
    j: int,
) -> bool {
    &&& dialed_with(sessions, i, tmpl)
    &&& stands_once(tmpl, target)
    &&& 0 <= j < sessions.len()
    &&& resolved(tmpl, vars.insert(target, value)) == sessions[j].name
}

/// The values on offer for a variable are the one that it has, first of all
/// (nothing, if it has none), and every other one that would make a client
/// redial to a session that exists; none of them twice.
#[verifier::rlimit(40)]
pub proof fn offered_values_redial(
    sessions: Seq<SessionView>,
    vars: Map<Seq<char>, Seq<char>>,
    target: Seq<char>,
    value: Seq<char>,
)
    requires
        names_a_variable(target),
    ensures
        ({
            let offered = candidates_for(sessions, vars, target);
            let current = if vars.contains_key(target) {
                vars[target]
            } else {
                Seq::empty()
            };
            &&& offered.len() > 0 && offered[0] == current
            &&& offered.no_duplicates()
            &&& offered.contains(value) <==> value == current || (value.len() > 0 && exists|
                tmpl: Seq<char>,
                i: int,
                j: int,
            | redials(sessions, vars, target, value, tmpl, i, j))
        }),
{
    candidates_redial_to_sessions(sessions, vars, target, value);
    let names = session::names(sessions);
    if exists|tmpl: Seq<char>|
        all_templates(sessions).contains(tmpl) && #[trigger] occurrences(pieces(tmpl), target) == 1
            && names.contains(resolved(tmpl, vars.insert(target, value))) {
        let tmpl = choose|tmpl: Seq<char>|
            all_templates(sessions).contains(tmpl) && #[trigger] occurrences(pieces(tmpl), target)
                == 1 && names.contains(resolved(tmpl, vars.insert(target, value)));
        let name = resolved(tmpl, vars.insert(target, value));
        templates_in_use_are_dialed(sessions, tmpl);
        one_occurrence_stands_once(tmpl, target);
        let i = choose|i: int| dialed_with(sessions, i, tmpl);
        let j = choose|j: int| 0 <= j < names.len() && names[j] == name;
        assert(redials(sessions, vars, target, value, tmpl, i, j));
    }
    if exists|tmpl: Seq<char>, i: int, j: int|
        redials(sessions, vars, target, value, tmpl, i, j) {
        let (tmpl, i, j) = choose|tmpl: Seq<char>, i: int, j: int|
            redials(sessions, vars, target, value, tmpl, i, j);
        templates_in_use_are_dialed(sessions, tmpl);
        one_occurrence_stands_once(tmpl, target);
        assert(names[j] == sessions[j].name);
        assert(names.contains(resolved(tmpl, vars.insert(target, value))));
        assert(occurrences(pieces(tmpl), target) == 1);
    }
}

// -- The list of values --

/// `lower` is `s` with the letters `A` to `Z` in lower case, and everything
/// else as it is.
pub open spec fn is_lower_case_of(lower: Seq<char>, s: Seq<char>) -> bool {
    &&& lower.len() == s.len()
    &&& forall|i: int|
        0 <= i < s.len() ==> (#[trigger] lower[i]) as int == if 'A' <= s[i] <= 'Z' {
            s[i] as int + ('a' as int - 'A' as int)
        } else {
            s[i] as int
        }
}

/// Folding a text puts the letters `A` to `Z` in lower case, and leaves
/// everything else as it is.
pub proof fn folding_lowers_letters(s: Seq<char>)
    ensures
        is_lower_case_of(folded(s), s),
{
}

/// `q` stands in `s` in one piece, at `at`.
pub open spec fn stands_at(q: Seq<char>, s: Seq<char>, at: int) -> bool {
    &&& 0 <= at && at + q.len() <= s.len()
    &&& forall|k: int| 0 <= k < q.len() ==> s[at + k] == #[trigger] q[k]
}

/// `c` first stands in `s` at `at`.
pub open spec fn first_stands_at(c: char, s: Seq<char>, at: int) -> bool {
    &&& 0 <= at < s.len() && s[at] == c
    &&& forall|k: int| 0 <= k < at ==> #[trigger] s[k] != c
}

/// What is typed picks from the list the values that have its characters in
/// order, gaps or not, upper and lower case alike.
pub proof fn list_shows_values_with_the_query(
    cands: Seq<Seq<char>>,
    query: Seq<char>,
    value: Seq<char>,
    lower_query: Seq<char>,
    lower_value: Seq<char>,
)
    requires
        query.len() > 0,
        is_lower_case_of(lower_query, query),
        is_lower_case_of(lower_value, value),
    ensures
        shown_for(cands, query).contains(value) <==> cands.contains(value) && exists|at: Seq<int>|
            is_embedding(lower_query, lower_value, at),
{
    assert(lower_query =~= folded(query));
    assert(lower_value =~= folded(value));
    list_shows_what_matches(cands, query);
    assert(shown_for(cands, query).contains(value) <==> cands.contains(value) && matches_query(
        value,
        query,
    ));
    subsequences_are_embeddings(folded(query), folded(value));
}

proof fn standing_is_occurring(q: Seq<char>, s: Seq<char>)
    ensures
        occurs_in(q, s) <==> exists|at: int| stands_at(q, s, at),
{
    if occurs_in(q, s) {
        let at = choose|at: int| occurs_at(q, s, at);
        assert forall|k: int| 0 <= k < q.len() implies s[at + k] == #[trigger] q[k] by {
            assert(s.subrange(at, at + q.len())[k] == s[at + k]);
        }
        assert(stands_at(q, s, at));
    }
    if exists|at: int| stands_at(q, s, at) {
        let at = choose|at: int| stands_at(q, s, at);
        assert(s.subrange(at, at + q.len()) =~= q);
        assert(occurs_at(q, s, at));
    }
}

proof fn first_index_is(s: Seq<char>, c: char, at: int)
    requires
        first_stands_at(c, s, at),
    ensures
        first_index_of(s, c) == at,
    decreases s.len(),
{
    if at > 0 {
        assert(s[0] != c);
        let rest = s.drop_first();
        assert forall|k: int| 0 <= k < at - 1 implies #[trigger] rest[k] != c by {
            assert(s[k + 1] != c);
        }
        first_index_is(rest, c, at - 1);
    }
}

/// The values that the list shows come in this order: those that are what was
/// typed, upper and lower case aside; then those that have it in one piece;
/// then those where its first character stands further ahead; then the shorter
/// ones.
#[verifier::rlimit(40)]
pub proof fn list_is_in_order_of_closeness(
    cands: Seq<Seq<char>>,
    query: Seq<char>,
    i: int,
    j: int,
    q: Seq<char>,
    x: Seq<char>,
    y: Seq<char>,
    at_x: int,
    at_y: int,
)
    requires
        query.len() > 0,
        0 <= i < j < shown_for(cands, query).len(),
        is_lower_case_of(q, query),
        is_lower_case_of(x, shown_for(cands, query)[i]),
        is_lower_case_of(y, shown_for(cands, query)[j]),
        first_stands_at(q[0], x, at_x),
        first_stands_at(q[0], y, at_y),
    ensures
        ({
            let x_whole = exists|at: int| stands_at(q, x, at);
            let y_whole = exists|at: int| stands_at(q, y, at);
            &&& y == q ==> x == q
            &&& x != q && y_whole ==> x_whole
            &&& (x == q <==> y == q) && (x_whole <==> y_whole) ==> at_x < at_y || (at_x == at_y
                && x.len() <= y.len())
        }),
{
    let shown = shown_for(cands, query);
    list_shows_what_matches(cands, query);
    assert(shown_no_later(query)(shown[i], shown[j]));
    assert(q =~= folded(query));
    assert(x =~= folded(shown[i]));
    assert(y =~= folded(shown[j]));
    standing_is_occurring(q, x);
    standing_is_occurring(q, y);
    first_index_is(x, q[0], at_x);
    first_index_is(y, q[0], at_y);
}

// -- Values by name --

/// Of several values for a name, the last one counts.
pub proof fn last_value_counts(entries: Seq<(Seq<char>, Seq<char>)>, i: int)
    requires
        0 <= i < entries.len(),
        forall|j: int| i < j < entries.len() ==> (#[trigger] entries[j]).0 != entries[i].0,
    ensures
        map_of(entries).contains_key(entries[i].0),
        map_of(entries)[entries[i].0] == entries[i].1,
    decreases entries.len(),
{
    if i < entries.len() - 1 {
        let rest = entries.drop_last();
        assert(entries[entries.len() - 1].0 != entries[i].0);
        assert forall|j: int| i < j < rest.len() implies (#[trigger] rest[j]).0 != rest[i].0 by {
            assert(entries[j].0 != entries[i].0);
        }
        last_value_counts(rest, i);
    }
}

/// Only a name that was given a value has one.
pub proof fn values_are_given(entries: Seq<(Seq<char>, Seq<char>)>, name: Seq<char>)
    requires
        map_of(entries).contains_key(name),
    ensures
        exists|i: int| 0 <= i < entries.len() && (#[trigger] entries[i]).0 == name,
    decreases entries.len(),
{
    let rest = entries.drop_last();
    if entries.last().0 == name {
        assert(entries[entries.len() - 1].0 == name);
    } else {
        values_are_given(rest, name);
        let i = choose|i: int| 0 <= i < rest.len() && (#[trigger] rest[i]).0 == name;
        assert(entries[i].0 == name);
    }
}

/// Where every client dialed in with the same template, the values on offer
/// come in the order of the sessions: a session further down adds its value
/// behind the others, unless it is on offer already.
#[verifier::rlimit(40)]
pub proof fn values_come_in_session_order(
    sessions: Seq<SessionView>,
    vars: Map<Seq<char>, Seq<char>>,
    target: Seq<char>,
    tmpl: Seq<char>,
    i: int,
    s: SessionView,
    value: Seq<char>,
)
    requires
        names_a_variable(target),
        dialed_with(sessions, i, tmpl),
        stands_once(tmpl, target),
        forall|j: int, other: Seq<char>| #[trigger]
            dialed_with(sessions, j, other) ==> other == tmpl,
        s.attachments.len() == 0,
        value.len() > 0,
        s.name == resolved(tmpl, vars.insert(target, value)),
    ensures
        ({
            let before = candidates_for(sessions, vars, target);
            candidates_for(sessions + seq![s], vars, target) == if before.contains(value) {
                before
            } else {
                before + seq![value]
            }
        }),
{
    let more = sessions + seq![s];
    let names = session::names(sessions);
    let ps = pieces(tmpl);
    let about = |t: Seq<char>| mentions(t, target);
    assert(more.drop_last() =~= sessions);
    assert(attachment_templates(s.attachments) =~= Seq::empty());
    assert(all_templates(more) =~= all_templates(sessions));
    assert(session::names(more) =~= names + seq![s.name]);
    one_occurrence_stands_once(tmpl, target);
    only_template_is_used(sessions, target, tmpl, i);
    let templates = target_templates(sessions, target);
    assert(templates =~= seq![tmpl]);
    assert(templates.drop_last() =~= Seq::empty());
    let prefix = prefix_of(ps, vars, target);
    let suffix = suffix_of(ps, vars, target);
    resolves_around_target(tmpl, vars, target, value);
    assert(s.name =~= prefix + value + suffix);
    let end = s.name.len() - suffix.len();
    assert(s.name.take(prefix.len() as int) =~= prefix);
    assert(s.name.skip(end) =~= suffix);
    assert(s.name.subrange(prefix.len() as int, end) =~= value);
    assert(captured(s.name, prefix, suffix) == Some(value));
    let all = names + seq![s.name];
    assert(all.drop_last() =~= names);
    assert(captures(all, prefix, suffix) == captures(names, prefix, suffix).push(value));
    let current = seq![current_value(vars, target)];
    let old_values = harvest(templates, names, vars, target);
    let new_values = harvest(templates, all, vars, target);
    assert(harvest(templates.drop_last(), names, vars, target) =~= Seq::empty());
    assert(harvest(templates.drop_last(), all, vars, target) =~= Seq::empty());
    assert(old_values =~= captures(names, prefix, suffix));
    assert(new_values =~= old_values.push(value));
    assert(current + new_values =~= (current + old_values).push(value));
    assert((current + old_values).push(value).drop_last() =~= current + old_values);
    let before = candidates_for(sessions, vars, target);
    assert(before.push(value) =~= before + seq![value]);
}

proof fn only_template_is_used(
    sessions: Seq<SessionView>,
    target: Seq<char>,
    tmpl: Seq<char>,
    i: int,
)
    requires
        dialed_with(sessions, i, tmpl),
        mentions(tmpl, target) || occurrences(pieces(tmpl), target) == 1,
        forall|j: int, other: Seq<char>| #[trigger]
            dialed_with(sessions, j, other) ==> other == tmpl,
    ensures
        target_templates(sessions, target) == seq![tmpl],
{
    let all = all_templates(sessions);
    let about = |t: Seq<char>| mentions(t, target);
    let kept = all.filter(about);
    let once = target_templates(sessions, target);
    occurrences_are_names(pieces(tmpl), target);
    text::distinct_holds_each_once(token_names(pieces(tmpl)));
    assert(mentions(tmpl, target));
    templates_in_use_are_dialed(sessions, tmpl);
    let k = choose|k: int| 0 <= k < all.len() && all[k] == tmpl;
    all.lemma_filter_contains(about, k);
    text::distinct_holds_each_once(kept);
    assert(once.contains(tmpl));
    assert forall|n: int| 0 <= n < once.len() implies #[trigger] once[n] == tmpl by {
        assert(once.contains(once[n]));
        assert(kept.contains(once[n]));
        all.lemma_filter_contains_rev(about, once[n]);
        templates_in_use_are_dialed(sessions, once[n]);
        let j = choose|j: int| dialed_with(sessions, j, once[n]);
        assert(dialed_with(sessions, j, once[n]));
    }
    if once.len() > 1 {
        assert(once[0] == once[1]);
    }
    assert(once =~= seq![tmpl]);
}

/// One more client adds at most its own template, behind the others.
proof fn one_more_client_adds_its_template(
    sessions: Seq<SessionView>,
    s: SessionView,
    more: AttachmentView,
    target: Seq<char>,
)
    ensures
        ({
            let with = SessionView { attachments: s.attachments + seq![more], ..s };
            let before = target_templates(sessions + seq![s], target);
            let after = target_templates(sessions + seq![with], target);
            after == before || after == before.push(more.template)
        }),
{
    let with = SessionView { attachments: s.attachments + seq![more], ..s };
    let a = sessions + seq![s];
    let b = sessions + seq![with];
    let about = |t: Seq<char>| mentions(t, target);
    let old_templates = all_templates(a);
    assert(all_templates(b) == old_templates.push(more.template)) by {
        assert(a.drop_last() =~= sessions);
        assert(b.drop_last() =~= sessions);
        assert(attachment_templates(with.attachments) =~= attachment_templates(s.attachments).push(
            more.template,
        ));
        assert(all_templates(b) =~= old_templates.push(more.template));
    }
    let kept = old_templates.filter(about);
    old_templates.lemma_filter_push(more.template, about);
    assert(kept.push(more.template).drop_last() =~= kept);
}

/// What one more template has to offer comes behind the rest.
proof fn one_more_template_offers_behind(
    templates: Seq<Seq<char>>,
    tmpl: Seq<char>,
    names: Seq<Seq<char>>,
    vars: Map<Seq<char>, Seq<char>>,
    target: Seq<char>,
    current: Seq<Seq<char>>,
)
    ensures
        text::distinct(current + harvest(templates, names, vars, target)).is_prefix_of(
            text::distinct(current + harvest(templates.push(tmpl), names, vars, target)),
        ),
{
    let before = current + harvest(templates, names, vars, target);
    let after = current + harvest(templates.push(tmpl), names, vars, target);
    assert(templates.push(tmpl).drop_last() =~= templates);
    assert(after =~= before + harvest_one(tmpl, names, vars, target));
    assert(after.take(before.len() as int) =~= before);
    text::distinct_of_more(after, before.len() as int);
}

/// The values that one more client's template has to offer come behind those
/// of the clients before it.
pub proof fn values_come_in_client_order(
    sessions: Seq<SessionView>,
    s: SessionView,
    more: AttachmentView,
    vars: Map<Seq<char>, Seq<char>>,
    target: Seq<char>,
)
    ensures
        ({
            let with = SessionView { attachments: s.attachments + seq![more], ..s };
            candidates_for(sessions + seq![s], vars, target).is_prefix_of(
                candidates_for(sessions + seq![with], vars, target),
            )
        }),
{
    let with = SessionView { attachments: s.attachments + seq![more], ..s };
    let a = sessions + seq![s];
    let b = sessions + seq![with];
    let names = session::names(a);
    assert(names =~= session::names(b));
    one_more_client_adds_its_template(sessions, s, more, target);
    one_more_template_offers_behind(
        target_templates(a, target),
        more.template,
        names,
        vars,
        target,
        seq![current_value(vars, target)],
    );
}

}
