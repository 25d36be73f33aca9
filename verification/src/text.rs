//! Text as sequences of characters: building, comparing, trimming and
//! numbering strings.

use vstd::prelude::*;

verus! {

/// `String::push`: the character is appended to the text.
pub assume_specification[ String::push ](s: &mut String, c: char)
    ensures
        final(s)@ == old(s)@.push(c),
;

/// `String::pop`: the last character is removed and returned; an empty
/// text yields `None` and stays empty.
pub assume_specification[ String::pop ](s: &mut String) -> (c: Option<char>)
    ensures
        old(s)@.len() == 0 ==> c is None && final(s)@ == old(s)@,
        old(s)@.len() > 0 ==> c == Some(old(s)@.last()) && final(s)@ == old(s)@.drop_last(),
;

/// The characters of `s`, in order.
pub fn chars_of(s: &str) -> (out: Vec<char>)
    ensures
        out@ == s@,
{
    let mut out: Vec<char> = Vec::new();
    for c in it: s.chars()
        invariant
            out@ == s@.take(it.index()),
            it.seq() == s@,
    {
        out.push(c);
    }
    out
}

/// The text made of the characters `chars[from..to]`.
pub fn substring(chars: &[char], from: usize, to: usize) -> (out: String)
    requires
        from <= to <= chars@.len(),
    ensures
        out@ == chars@.subrange(from as int, to as int),
{
    let mut out = String::new();
    for i in from..to
        invariant
            from <= i <= to <= chars@.len(),
            out@ == chars@.subrange(from as int, i as int),
    {
        out.push(chars[i]);
    }
    out
}

/// True when the two texts hold the same characters.
pub fn same(a: &str, b: &str) -> (r: bool)
    ensures
        r == (a@ == b@),
{
    let mut ia = a.chars();
    let mut ib = b.chars();
    let ghost mut i: int = 0;
    loop
        invariant
            0 <= i <= a@.len(),
            i <= b@.len(),
            vstd::std_specs::iter::IteratorSpec::remaining(&ia) == a@.skip(i),
            vstd::std_specs::iter::IteratorSpec::remaining(&ib) == b@.skip(i),
            forall|k: int| 0 <= k < i ==> a@[k] == b@[k],
        decreases a@.len() - i,
    {
        match (ia.next(), ib.next()) {
            (Some(x), Some(y)) => {
                if x != y {
                    assert(a@[i] != b@[i]);
                    return false;
                }
                proof {
                    assert(a@.skip(i).drop_first() == a@.skip(i + 1));
                    assert(b@.skip(i).drop_first() == b@.skip(i + 1));
                    i = i + 1;
                }
            },
            (None, None) => {
                assert(a@ =~= b@);
                return true;
            },
            _ => {
                return false;
            },
        }
    }
}

/// `a` comes no later than `b` in dictionary order of code points.
pub open spec fn no_later(a: Seq<char>, b: Seq<char>) -> bool
    decreases a.len(),
{
    if a.len() == 0 {
        true
    } else if b.len() == 0 {
        false
    } else if a[0] != b[0] {
        (a[0] as int) < (b[0] as int)
    } else {
        no_later(a.drop_first(), b.drop_first())
    }
}

/// Any two texts are ordered one way or the other.
pub proof fn no_later_is_total(a: Seq<char>, b: Seq<char>)
    ensures
        no_later(a, b) || no_later(b, a),
    decreases a.len(),
{
    if a.len() > 0 && b.len() > 0 && a[0] == b[0] {
        no_later_is_total(a.drop_first(), b.drop_first());
    }
}

/// Dictionary order is transitive.
pub proof fn no_later_is_transitive(a: Seq<char>, b: Seq<char>, c: Seq<char>)
    requires
        no_later(a, b),
        no_later(b, c),
    ensures
        no_later(a, c),
    decreases a.len(),
{
    if a.len() > 0 && a[0] == b[0] && b[0] == c[0] {
        no_later_is_transitive(a.drop_first(), b.drop_first(), c.drop_first());
    }
}

/// Two texts that come no later than each other are the same text.
pub proof fn no_later_is_antisymmetric(a: Seq<char>, b: Seq<char>)
    requires
        no_later(a, b),
        no_later(b, a),
    ensures
        a == b,
    decreases a.len(),
{
    if a.len() > 0 {
        no_later_is_antisymmetric(a.drop_first(), b.drop_first());
        assert(a =~= seq![a[0]] + a.drop_first());
        assert(b =~= seq![b[0]] + b.drop_first());
    } else {
        assert(a =~= b);
    }
}

/// Compares two texts in dictionary order.
pub fn comes_no_later(a: &str, b: &str) -> (r: bool)
    ensures
        r == no_later(a@, b@),
{
    let mut ia = a.chars();
    let mut ib = b.chars();
    let ghost mut i: int = 0;
    loop
        invariant
            0 <= i <= a@.len(),
            i <= b@.len(),
            vstd::std_specs::iter::IteratorSpec::remaining(&ia) == a@.skip(i),
            vstd::std_specs::iter::IteratorSpec::remaining(&ib) == b@.skip(i),
            no_later(a@, b@) == no_later(a@.skip(i), b@.skip(i)),
        decreases a@.len() - i,
    {
        match (ia.next(), ib.next()) {
            (Some(x), Some(y)) => {
                if x != y {
                    return x < y;
                }
                proof {
                    assert(a@.skip(i).drop_first() == a@.skip(i + 1));
                    assert(b@.skip(i).drop_first() == b@.skip(i + 1));
                    i = i + 1;
                }
            },
            (None, _) => {
                return true;
            },
            (Some(_), None) => {
                return false;
            },
        }
    }
}

/// The decimal digits of `n`, most significant first, without leading zeros.
pub open spec fn decimal(n: nat) -> Seq<char>
    decreases n,
{
    if n < 10 {
        seq![digit(n)]
    } else {
        decimal(n / 10).push(digit(n % 10))
    }
}

/// The character of the digit `d`.
pub open spec fn digit(d: nat) -> char {
    (('0' as u8) + d) as char
}

/// Writes `n` in decimal.
pub fn decimal_of(n: u64) -> (out: String)
    ensures
        out@ == decimal(n as nat),
    decreases n,
{
    let d: u8 = (n % 10) as u8;
    let c: char = ('0' as u8 + d) as char;
    if n < 10 {
        let mut out = String::new();
        out.push(c);
        assert(out@ =~= decimal(n as nat));
        out
    } else {
        let mut out = decimal_of(n / 10);
        out.push(c);
        out
    }
}

/// The text `before`, `middle` and `after` make, one behind the other.
pub fn framed(before: &str, middle: &str, after: &str) -> (out: String)
    ensures
        out@ == before@ + middle@ + after@,
{
    let mut out = String::new();
    out.append(before);
    out.append(middle);
    out.append(after);
    out
}

/// `i` is the position of the first text in `texts` that equals `wanted`.
pub open spec fn is_first(texts: Seq<Seq<char>>, wanted: Seq<char>, i: int) -> bool {
    &&& 0 <= i < texts.len()
    &&& texts[i] == wanted
    &&& forall|j: int| 0 <= j < i ==> texts[j] != wanted
}

/// The position of the first text in `texts` that equals `wanted`, if any does.
pub open spec fn position(texts: Seq<Seq<char>>, wanted: Seq<char>) -> Option<int> {
    if exists|i: int| is_first(texts, wanted, i) {
        Some(choose|i: int| is_first(texts, wanted, i))
    } else {
        None
    }
}

/// The first position is unique.
pub proof fn position_is(texts: Seq<Seq<char>>, wanted: Seq<char>, i: int)
    requires
        is_first(texts, wanted, i),
    ensures
        position(texts, wanted) == Some(i),
{
    let k = choose|k: int| is_first(texts, wanted, k);
    assert(is_first(texts, wanted, k));
    if k < i {
        assert(texts[k] != wanted);
    }
    if i < k {
        assert(texts[i] != wanted);
    }
}

/// A position exists exactly when the text occurs.
pub proof fn position_exists(texts: Seq<Seq<char>>, wanted: Seq<char>)
    ensures
        position(texts, wanted) is Some <==> texts.contains(wanted),
        position(texts, wanted) matches Some(i) ==> is_first(texts, wanted, i),
    decreases texts.len(),
{
    if texts.contains(wanted) {
        let k = choose|k: int| 0 <= k < texts.len() && texts[k] == wanted;
        let head = texts.take(k);
        if head.contains(wanted) {
            position_exists(head, wanted);
            let i = position(head, wanted)->0;
            assert(is_first(texts, wanted, i)) by {
                assert forall|j: int| 0 <= j < i implies texts[j] != wanted by {
                    assert(head[j] == texts[j]);
                }
            }
            position_is(texts, wanted, i);
        } else {
            assert(is_first(texts, wanted, k)) by {
                assert forall|j: int| 0 <= j < k implies texts[j] != wanted by {
                    assert(head[j] == texts[j]);
                }
            }
            position_is(texts, wanted, k);
        }
    }
}

/// Each text of `texts` once, in the order of first occurrence.
pub open spec fn distinct(texts: Seq<Seq<char>>) -> Seq<Seq<char>>
    decreases texts.len(),
{
    if texts.len() == 0 {
        Seq::empty()
    } else {
        let before = distinct(texts.drop_last());
        if before.contains(texts.last()) {
            before
        } else {
            before.push(texts.last())
        }
    }
}

/// `distinct` holds exactly the texts of `texts`, and none of them twice.
pub proof fn distinct_holds_each_once(texts: Seq<Seq<char>>)
    ensures
        forall|t: Seq<char>| distinct(texts).contains(t) <==> texts.contains(t),
        distinct(texts).no_duplicates(),
    decreases texts.len(),
{
    if texts.len() > 0 {
        let rest = texts.drop_last();
        let before = distinct(rest);
        distinct_holds_each_once(rest);
        assert forall|t: Seq<char>| distinct(texts).contains(t) <==> texts.contains(t) by {
            if texts.contains(t) {
                let k = choose|k: int| 0 <= k < texts.len() && texts[k] == t;
                if k < rest.len() {
                    assert(rest[k] == t);
                    assert(rest.contains(t));
                    assert(before.contains(t));
                }
                if before.contains(t) {
                    let m = choose|m: int| 0 <= m < before.len() && before[m] == t;
                    assert(distinct(texts)[m] == t);
                } else {
                    assert(distinct(texts).last() == t);
                }
            }
            if distinct(texts).contains(t) {
                let m = choose|m: int| 0 <= m < distinct(texts).len() && distinct(texts)[m] == t;
                if m < before.len() {
                    assert(before[m] == t);
                    assert(rest.contains(t));
                    let k = choose|k: int| 0 <= k < rest.len() && rest[k] == t;
                    assert(texts[k] == t);
                } else {
                    assert(texts[texts.len() - 1] == t);
                }
            }
        }
    } else {
        assert(distinct(texts) =~= Seq::empty());
    }
}

/// Looks `wanted` up among `texts`.
pub fn contains_text(texts: &Vec<String>, wanted: &str) -> (r: bool)
    ensures
        r == texts.deep_view().contains(wanted@),
{
    for i in 0..texts.len()
        invariant
            forall|j: int| 0 <= j < i ==> texts.deep_view()[j] != wanted@,
    {
        if same(texts[i].as_str(), wanted) {
            assert(texts.deep_view()[i as int] == wanted@);
            return true;
        }
    }
    false
}

/// The text that `String::from_utf8_lossy` makes of `bytes`.
pub uninterp spec fn lossy(bytes: Seq<u8>) -> Seq<char>;

/// `String::from_utf8_lossy`: valid UTF-8 gives the text that it encodes.
/// What stands for each invalid sequence of bytes is left to the name
/// `lossy`; it depends on the bytes alone.
#[verifier::external_body]
pub(crate) fn lossy_text(bytes: &[u8]) -> (s: String)
    ensures
        s@ == lossy(bytes@),
        vstd::utf8::valid_utf8(bytes@) ==> s@ == vstd::utf8::decode_utf8(bytes@),
{
    String::from_utf8_lossy(bytes).into_owned()
}

/// Bytes that are valid UTF-8 are read as the text that they encode.
pub open spec fn read_as_utf8(bytes: Seq<u8>) -> bool {
    vstd::utf8::valid_utf8(bytes) ==> lossy(bytes) == vstd::utf8::decode_utf8(bytes)
}

/// A character with the Unicode property `White_Space`.
pub open spec fn is_space(c: char) -> bool {
    let n = c as int;
    ||| 0x09 <= n <= 0x0d
    ||| n == 0x20
    ||| n == 0x85
    ||| n == 0xa0
    ||| n == 0x1680
    ||| 0x2000 <= n <= 0x200a
    ||| n == 0x2028
    ||| n == 0x2029
    ||| n == 0x202f
    ||| n == 0x205f
    ||| n == 0x3000
}

fn is_white_space(c: char) -> (r: bool)
    ensures
        r == is_space(c),
{
    let n: u32 = c as u32;
    (0x09 <= n && n <= 0x0d) || n == 0x20 || n == 0x85 || n == 0xa0 || n == 0x1680 || (0x2000 <= n
        && n <= 0x200a) || n == 0x2028 || n == 0x2029 || n == 0x202f || n == 0x205f || n == 0x3000
}

/// `s` without the white space at its start.
pub open spec fn trimmed_start(s: Seq<char>) -> Seq<char>
    decreases s.len(),
{
    if s.len() > 0 && is_space(s[0]) {
        trimmed_start(s.drop_first())
    } else {
        s
    }
}

/// `s` without the white space at its end.
pub open spec fn trimmed_end(s: Seq<char>) -> Seq<char>
    decreases s.len(),
{
    if s.len() > 0 && is_space(s.last()) {
        trimmed_end(s.drop_last())
    } else {
        s
    }
}

/// `s` without the white space around it.
pub open spec fn trimmed(s: Seq<char>) -> Seq<char> {
    trimmed_end(trimmed_start(s))
}

/// Takes the white space off both ends.
pub fn trim(s: &str) -> (out: String)
    ensures
        out@ == trimmed(s@),
{
    let chars = chars_of(s);
    let n: usize = chars.len();
    let mut from: usize = 0;
    assert(chars@.skip(0) =~= chars@);
    while from < n && is_white_space(chars[from])
        invariant
            n == chars@.len(),
            from <= n,
            trimmed_start(chars@) == trimmed_start(chars@.skip(from as int)),
        decreases n - from,
    {
        assert(chars@.skip(from as int).drop_first() =~= chars@.skip(from + 1));
        from = from + 1;
    }
    let ghost rest = chars@.skip(from as int);
    assert(trimmed_start(chars@) == rest);
    let mut to: usize = n;
    assert(chars@.subrange(from as int, n as int) =~= rest);
    while from < to && is_white_space(chars[to - 1])
        invariant
            n == chars@.len(),
            from <= to <= n,
            trimmed_end(rest) == trimmed_end(chars@.subrange(from as int, to as int)),
        decreases to,
    {
        assert(chars@.subrange(from as int, to as int).drop_last() =~= chars@.subrange(
            from as int,
            to - 1,
        ));
        to = to - 1;
    }
    substring(chars.as_slice(), from, to)
}

/// The first position of `c` in `s`, or the end of `s` if it has none.
pub open spec fn end_before(s: Seq<char>, c: char) -> int
    decreases s.len(),
{
    if s.len() == 0 || s[0] == c {
        0
    } else {
        1 + end_before(s.drop_first(), c)
    }
}

pub proof fn end_before_bounds(s: Seq<char>, c: char)
    ensures
        0 <= end_before(s, c) <= s.len(),
    decreases s.len(),
{
    if s.len() > 0 && s[0] != c {
        end_before_bounds(s.drop_first(), c);
    }
}

/// Finds the first `c` at or behind `from`.
pub fn find_from(chars: &[char], from: usize, c: char) -> (at: usize)
    requires
        from <= chars@.len(),
    ensures
        at == from + end_before(chars@.skip(from as int), c),
        from <= at <= chars@.len(),
        at < chars@.len() ==> chars@[at as int] == c,
{
    let n: usize = chars.len();
    let mut at: usize = from;
    while at < n && chars[at] != c
        invariant
            n == chars@.len(),
            from <= at <= n,
            at + end_before(chars@.skip(at as int), c) == from + end_before(
                chars@.skip(from as int),
                c,
            ),
        decreases n - at,
    {
        assert(chars@.skip(at as int).drop_first() =~= chars@.skip(at + 1));
        assert(chars@.skip(at as int)[0] == chars@[at as int]);
        at = at + 1;
    }
    if at < n {
        assert(chars@.skip(at as int)[0] == chars@[at as int]);
    }
    at
}

/// `line` without a carriage return at its end.
pub open spec fn without_return(line: Seq<char>) -> Seq<char> {
    if line.len() > 0 && line.last() == '\r' {
        line.drop_last()
    } else {
        line
    }
}

/// The lines of `s`. A line ends at a newline, with or without a carriage
/// return in front of it; the last one may also end where `s` does.
pub open spec fn lines(s: Seq<char>) -> Seq<Seq<char>>
    decreases s.len(),
    via lines_decreases
{
    if s.len() == 0 {
        Seq::empty()
    } else {
        let end = end_before(s, '\n');
        if end >= s.len() {
            seq![s]
        } else {
            seq![without_return(s.take(end))] + lines(s.skip(end + 1))
        }
    }
}

#[via_fn]
proof fn lines_decreases(s: Seq<char>) {
    end_before_bounds(s, '\n');
}

/// Splits a text into its lines.
pub fn lines_of(s: &str) -> (out: Vec<String>)
    ensures
        out.deep_view() == lines(s@),
{
    let chars = chars_of(s);
    let n: usize = chars.len();
    let mut out: Vec<String> = Vec::new();
    let mut from: usize = 0;
    assert(chars@.skip(0) =~= chars@);
    assert(out.deep_view() + lines(chars@) =~= lines(chars@));
    while from < n
        invariant
            n == chars@.len(),
            from <= n,
            out.deep_view() + lines(chars@.skip(from as int)) == lines(chars@),
        decreases n - from,
    {
        let end: usize = find_from(chars.as_slice(), from, '\n');
        let ghost rest = chars@.skip(from as int);
        let ghost before = out.deep_view();
        if end == n {
            let line = substring(chars.as_slice(), from, n);
            assert(line@ =~= rest);
            out.push(line);
            from = n;
            proof {
                assert(out.deep_view() =~= before.push(rest));
                assert(lines(rest) =~= seq![rest]);
                assert(lines(chars@.skip(n as int)) =~= Seq::empty());
                assert(out.deep_view() + lines(chars@.skip(n as int)) =~= before + lines(rest));
            }
        } else {
            let to: usize = if from < end && chars[end - 1] == '\r' {
                end - 1
            } else {
                end
            };
            let line = substring(chars.as_slice(), from, to);
            proof {
                let taken = rest.take(end - from);
                assert(taken =~= chars@.subrange(from as int, end as int));
                assert(line@ =~= without_return(taken));
                assert(rest.skip(end - from + 1) =~= chars@.skip(end + 1));
            }
            let ghost text = line@;
            out.push(line);
            from = end + 1;
            proof {
                assert(out.deep_view() =~= before.push(text));
                assert(lines(rest) == seq![text] + lines(chars@.skip(from as int)));
                assert(out.deep_view() + lines(chars@.skip(from as int)) =~= before + lines(
                    rest,
                ));
            }
        }
    }
    assert(chars@.skip(n as int) =~= Seq::empty());
    assert(out.deep_view() + lines(chars@.skip(from as int)) =~= out.deep_view());
    out
}

// -- What the texts amount to --

/// In dictionary order, a text comes ahead of those that it begins, and of
/// those that have a greater character at the first place where they differ.
pub proof fn dictionary_order_is(a: Seq<char>, b: Seq<char>, k: int)
    requires
        0 <= k <= a.len(),
        k <= b.len(),
        forall|i: int| 0 <= i < k ==> #[trigger] a[i] == b[i],
        k < a.len() && k < b.len() ==> a[k] != b[k],
    ensures
        k == a.len() ==> no_later(a, b),
        k < a.len() && k == b.len() ==> !no_later(a, b),
        k < a.len() && k < b.len() ==> (no_later(a, b) <==> (a[k] as int) < (b[k] as int)),
    decreases k,
{
    if k > 0 {
        assert(a[0] == b[0]);
        let x = a.drop_first();
        let y = b.drop_first();
        assert forall|i: int| 0 <= i < k - 1 implies #[trigger] x[i] == y[i] by {
            assert(a[i + 1] == b[i + 1]);
        }
        dictionary_order_is(x, y, k - 1);
    }
}

/// The number that a text of digits stands for.
pub open spec fn number_of(digits: Seq<char>) -> int
    decreases digits.len(),
{
    if digits.len() == 0 {
        0
    } else {
        number_of(digits.drop_last()) * 10 + (digits.last() as int - '0' as int)
    }
}

/// A number is written in digits that stand for it, without leading zeros.
pub proof fn numbers_read_back(n: nat)
    ensures
        number_of(decimal(n)) == n,
        decimal(n).len() > 0,
        forall|i: int| 0 <= i < decimal(n).len() ==> '0' <= #[trigger] decimal(n)[i] <= '9',
        n > 0 ==> decimal(n)[0] != '0',
    decreases n,
{
    if n < 10 {
        assert(decimal(n).drop_last() =~= Seq::empty());
        assert(number_of(Seq::empty()) == 0);
    } else {
        numbers_read_back(n / 10);
        assert(decimal(n).drop_last() =~= decimal(n / 10));
        assert forall|i: int| 0 <= i < decimal(n).len() implies '0' <= #[trigger] decimal(n)[i]
            <= '9' by {
            if i < decimal(n / 10).len() {
                assert(decimal(n)[i] == decimal(n / 10)[i]);
            }
        }
    }
}

/// The distinct texts of a beginning are the beginning of the distinct texts.
pub proof fn distinct_of_more(texts: Seq<Seq<char>>, n: int)
    requires
        0 <= n <= texts.len(),
    ensures
        distinct(texts.take(n)).is_prefix_of(distinct(texts)),
    decreases texts.len() - n,
{
    if n == texts.len() {
        assert(texts.take(n) =~= texts);
    } else {
        distinct_of_more(texts, n + 1);
        let next = texts.take(n + 1);
        assert(next.drop_last() =~= texts.take(n));
        let short = distinct(texts.take(n));
        let longer = distinct(next);
        let all = distinct(texts);
        assert(short =~= longer.subrange(0, short.len() as int));
        assert(longer =~= all.subrange(0, longer.len() as int));
        assert(short =~= all.subrange(0, short.len() as int));
    }
}

/// The distinct texts stand in the order in which each first occurs.
pub proof fn distinct_keeps_first_order(
    texts: Seq<Seq<char>>,
    i: int,
    j: int,
    a: Seq<char>,
    b: Seq<char>,
)
    requires
        is_first(texts, a, i),
        is_first(texts, b, j),
        i < j,
    ensures
        exists|k: int, l: int|
            0 <= k < l < distinct(texts).len() && #[trigger] distinct(texts)[k] == a
                && #[trigger] distinct(texts)[l] == b,
{
    let head = texts.take(j);
    let upto = texts.take(j + 1);
    let all = distinct(texts);
    assert(head[i] == a);
    assert(upto.drop_last() =~= head);
    assert(upto.last() == b);
    distinct_holds_each_once(head);
    distinct_of_more(texts, j + 1);
    let before = distinct(head);
    assert(head.contains(a));
    assert(before.contains(a));
    assert(!head.contains(b)) by {
        if head.contains(b) {
            let m = choose|m: int| 0 <= m < head.len() && head[m] == b;
            assert(texts[m] == b);
        }
    }
    assert(!before.contains(b));
    let k = choose|k: int| 0 <= k < before.len() && before[k] == a;
    let l = before.len() as int;
    let part = distinct(upto);
    assert(part[k] == a && part[l] == b);
    assert(part =~= all.subrange(0, part.len() as int));
    assert(all[k] == part[k] && all[l] == part[l]);
}

/// Spaces, tabs and line ends are white space; characters that can be seen
/// are not, as far as ASCII goes.
pub proof fn white_space_is_not_seen(c: char)
    ensures
        c == ' ' || c == '\t' || c == '\n' || c == '\r' ==> is_space(c),
        '!' <= c <= '~' ==> !is_space(c),
{
}

proof fn trimmed_start_is(s: Seq<char>)
    ensures
        ({
            let t = trimmed_start(s);
            let n = s.len() - t.len();
            &&& 0 <= n && t == s.skip(n)
            &&& forall|i: int| 0 <= i < n ==> is_space(#[trigger] s[i])
            &&& t.len() > 0 ==> !is_space(t[0])
        }),
    decreases s.len(),
{
    if s.len() > 0 && is_space(s[0]) {
        let rest = s.drop_first();
        trimmed_start_is(rest);
        let t = trimmed_start(s);
        let n = s.len() - t.len();
        assert(rest.skip(n - 1) =~= s.skip(n));
        assert forall|i: int| 0 <= i < n implies is_space(#[trigger] s[i]) by {
            if i > 0 {
                assert(is_space(rest[i - 1]));
            }
        }
    } else {
        assert(s.skip(0) =~= s);
    }
}

proof fn trimmed_end_is(s: Seq<char>)
    ensures
        ({
            let t = trimmed_end(s);
            &&& t.len() <= s.len() && t == s.take(t.len() as int)
            &&& forall|i: int| t.len() <= i < s.len() ==> is_space(#[trigger] s[i])
            &&& t.len() > 0 ==> !is_space(t.last())
        }),
    decreases s.len(),
{
    if s.len() > 0 && is_space(s.last()) {
        let rest = s.drop_last();
        trimmed_end_is(rest);
        let t = trimmed_end(s);
        assert(rest.take(t.len() as int) =~= s.take(t.len() as int));
        assert forall|i: int| t.len() <= i < s.len() implies is_space(#[trigger] s[i]) by {
            if i < rest.len() {
                assert(is_space(rest[i]));
            }
        }
    } else {
        assert(s.take(s.len() as int) =~= s);
    }
}

/// What stands between white space is what trimming leaves: all of it, and
/// nothing else.
#[verifier::rlimit(40)]
pub proof fn trimming_takes_white_space_off(a: Seq<char>, s: Seq<char>, b: Seq<char>)
    requires
        forall|i: int| 0 <= i < a.len() ==> is_space(#[trigger] a[i]),
        forall|i: int| 0 <= i < b.len() ==> is_space(#[trigger] b[i]),
        s.len() > 0 ==> !is_space(s[0]) && !is_space(s[s.len() - 1]),
    ensures
        trimmed(a + s + b) == s,
{
    let whole = a + s + b;
    let start = trimmed_start(whole);
    trimmed_start_is(whole);
    trimmed_end_is(start);
    let n = whole.len() - start.len();
    let out = trimmed(whole);
    if s.len() == 0 {
        assert forall|i: int| 0 <= i < whole.len() implies is_space(#[trigger] whole[i]) by {
            if i < a.len() {
                assert(whole[i] == a[i]);
            } else {
                assert(whole[i] == b[i - a.len()]);
            }
        }
        if start.len() > 0 {
            assert(start[0] == whole[n]);
        }
        assert(out =~= s);
    } else {
        assert(whole[a.len() as int] == s[0]);
        if n > a.len() {
            assert(is_space(whole[a.len() as int]));
        }
        if n < a.len() {
            assert(start[0] == whole[n]);
            assert(whole[n] == a[n]);
        }
        assert(n == a.len());
        assert(start =~= s + b);
        let end = s.len() - 1;
        assert(start[end] == s[end]);
        if out.len() <= end {
            assert(is_space(start[end]));
        }
        if out.len() > s.len() {
            assert(out.last() == start[out.len() - 1]);
            assert(start[out.len() - 1] == b[out.len() - 1 - s.len()]);
        }
        assert(out =~= s);
    }
}

/// The first place of a character: nothing ahead of it is that character.
pub proof fn search_ends_at_the_first(s: Seq<char>, c: char)
    ensures
        0 <= end_before(s, c) <= s.len(),
        forall|i: int| 0 <= i < end_before(s, c) ==> #[trigger] s[i] != c,
        end_before(s, c) < s.len() ==> s[end_before(s, c)] == c,
    decreases s.len(),
{
    if s.len() > 0 && s[0] != c {
        let rest = s.drop_first();
        search_ends_at_the_first(rest, c);
        assert forall|i: int| 0 <= i < end_before(s, c) implies #[trigger] s[i] != c by {
            if i > 0 {
                assert(rest[i - 1] != c);
            }
        }
    }
}

/// A text up to a newline is a line, without a carriage return at its end; the
/// lines of what is behind the newline follow. Text without a newline is one
/// line as it stands, and no text is no line.
pub proof fn lines_end_at_newlines(line: Seq<char>, rest: Seq<char>)
    requires
        forall|i: int| 0 <= i < line.len() ==> #[trigger] line[i] != '\n',
    ensures
        lines(line + seq!['\n'] + rest) == seq![
            if line.len() > 0 && line[line.len() - 1] == '\r' {
                line.take(line.len() - 1)
            } else {
                line
            },
        ] + lines(rest),
        line.len() > 0 ==> lines(line) == seq![line],
        line.len() == 0 ==> lines(line).len() == 0,
{
    let s = line + seq!['\n'] + rest;
    let n = line.len() as int;
    search_ends_at_the_first(s, '\n');
    search_ends_at_the_first(line, '\n');
    let end = end_before(s, '\n');
    assert(s[n] == '\n');
    if end < n {
        assert(s[end] == line[end]);
    }
    assert(end == n);
    assert(s.take(n) =~= line);
    assert(s.skip(n + 1) =~= rest);
    if line.len() > 0 {
        assert(line.drop_last() =~= line.take(n - 1));
        if end_before(line, '\n') < n {
            assert(line[end_before(line, '\n')] != '\n');
        }
    }
}

/// White space is what Unicode calls so, and nothing else: tab to carriage
/// return, the space, the next-line and no-break ones, and those further up.
pub proof fn white_space_is(c: char)
    ensures
        is_space(c) <==> seq![
            0x09int, 0x0a, 0x0b, 0x0c, 0x0d, 0x20, 0x85, 0xa0, 0x1680, 0x2000, 0x2001, 0x2002,
            0x2003, 0x2004, 0x2005, 0x2006, 0x2007, 0x2008, 0x2009, 0x200a, 0x2028, 0x2029, 0x202f,
            0x205f, 0x3000,
        ].contains(c as int),
{
    let all = seq![
        0x09int, 0x0a, 0x0b, 0x0c, 0x0d, 0x20, 0x85, 0xa0, 0x1680, 0x2000, 0x2001, 0x2002, 0x2003,
        0x2004, 0x2005, 0x2006, 0x2007, 0x2008, 0x2009, 0x200a, 0x2028, 0x2029, 0x202f, 0x205f,
        0x3000,
    ];
    let n = c as int;
    if 0x09 <= n <= 0x0d {
        assert(all[n - 9] == n);
    } else if n == 0x20 {
        assert(all[5] == n);
    } else if n == 0x85 {
        assert(all[6] == n);
    } else if n == 0xa0 {
        assert(all[7] == n);
    } else if n == 0x1680 {
        assert(all[8] == n);
    } else if 0x2000 <= n <= 0x200a {
        assert(all[n - 0x2000 + 9] == n);
    } else if n == 0x2028 {
        assert(all[20] == n);
    } else if n == 0x2029 {
        assert(all[21] == n);
    } else if n == 0x202f {
        assert(all[22] == n);
    } else if n == 0x205f {
        assert(all[23] == n);
    } else if n == 0x3000 {
        assert(all[24] == n);
    }
}

}
