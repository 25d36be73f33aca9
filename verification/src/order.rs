//! Stable sorting.

use vstd::prelude::*;

verus! {

/// `item` put into `items`, ahead of the first item that it comes no later than.
pub open spec fn placed<V>(items: Seq<V>, item: V, no_later: spec_fn(V, V) -> bool) -> Seq<V>
    decreases items.len(),
{
    if items.len() == 0 || no_later(item, items[0]) {
        seq![item] + items
    } else {
        seq![items[0]] + placed(items.drop_first(), item, no_later)
    }
}

/// `items` in the order of `no_later`, items of equal rank in the order
/// they came in. `sorting_is_stable` shows what this amounts to.
pub open spec fn sorted<V>(items: Seq<V>, no_later: spec_fn(V, V) -> bool) -> Seq<V>
    decreases items.len(),
{
    if items.len() == 0 {
        items
    } else {
        placed(sorted(items.drop_first(), no_later), items[0], no_later)
    }
}

/// No item stands behind one that it should come before.
pub open spec fn in_order<V>(items: Seq<V>, no_later: spec_fn(V, V) -> bool) -> bool {
    forall|i: int, j: int| 0 <= i < j < items.len() ==> no_later(#[trigger] items[i], #[trigger] items[j])
}

/// `no_later` ranks all items: any two are ordered, and the order carries over.
pub open spec fn is_ranking<V>(no_later: spec_fn(V, V) -> bool) -> bool {
    &&& forall|a: V, b: V| #[trigger] no_later(a, b) || no_later(b, a)
    &&& forall|a: V, b: V, c: V| #[trigger] no_later(a, b) && #[trigger] no_later(b, c) ==> no_later(a, c)
}

/// Items that can be sorted by rank.
pub trait Ranked: DeepView + Sized {
    /// `a` comes no later than `b`.
    spec fn no_later(a: Self::V, b: Self::V) -> bool;

    /// Compares the ranks of two items.
    fn comes_no_later(&self, other: &Self) -> (r: bool)
        ensures
            r == Self::no_later(self.deep_view(), other.deep_view()),
    ;
}

/// The order of `T`, as a relation.
pub open spec fn ranking<T: Ranked>() -> spec_fn(T::V, T::V) -> bool {
    |a: T::V, b: T::V| T::no_later(a, b)
}

proof fn placed_at<V>(items: Seq<V>, item: V, no_later: spec_fn(V, V) -> bool, at: int)
    requires
        0 <= at <= items.len(),
        forall|j: int| 0 <= j < at ==> !no_later(item, #[trigger] items[j]),
        at < items.len() ==> no_later(item, items[at]),
    ensures
        placed(items, item, no_later) == items.insert(at, item),
    decreases items.len(),
{
    if at == 0 {
        assert(items.insert(0, item) =~= seq![item] + items);
    } else {
        assert(!no_later(item, items[0]));
        let rest = items.drop_first();
        assert forall|j: int| 0 <= j < at - 1 implies !no_later(item, #[trigger] rest[j]) by {
            assert(rest[j] == items[j + 1]);
        }
        placed_at(rest, item, no_later, at - 1);
        assert(items.insert(at, item) =~= seq![items[0]] + rest.insert(at - 1, item));
    }
}

/// Sorts by rank, keeping items of equal rank in the order they came in.
pub fn stable_sort<T: Ranked>(items: Vec<T>) -> (out: Vec<T>)
    ensures
        out.deep_view() == sorted(items.deep_view(), ranking::<T>()),
{
    let ghost all = items.deep_view();
    let mut rest = items;
    let mut out: Vec<T> = Vec::new();
    assert(all.skip(all.len() as int) =~= Seq::empty());
    assert(out.deep_view() =~= Seq::empty());
    assert(rest.deep_view() =~= all.take(all.len() as int));
    loop
        invariant
            all == items.deep_view(),
            rest@.len() <= all.len(),
            rest.deep_view() == all.take(rest@.len() as int),
            out.deep_view() == sorted(all.skip(rest@.len() as int), ranking::<T>()),
        decreases rest@.len(),
    {
        let ghost n = rest@.len();
        let ghost before = rest.deep_view();
        match rest.pop() {
            None => {
                assert(all.skip(0) =~= all);
                return out;
            },
            Some(item) => {
                assert(item.deep_view() == before.last());
                assert(all.skip(n - 1)[0] == item.deep_view());
                assert(all.skip(n - 1).drop_first() =~= all.skip(n as int));
                assert(rest.deep_view() =~= all.take(n - 1)) by {
                    assert(rest.deep_view() =~= before.drop_last());
                }
                let mut at: usize = 0;
                while at < out.len() && !item.comes_no_later(&out[at])
                    invariant
                        at <= out@.len(),
                        forall|j: int|
                            0 <= j < at ==> !ranking::<T>()(
                                item.deep_view(),
                                #[trigger] out.deep_view()[j],
                            ),
                    ensures
                        at <= out@.len(),
                        forall|j: int|
                            0 <= j < at ==> !ranking::<T>()(
                                item.deep_view(),
                                #[trigger] out.deep_view()[j],
                            ),
                        at < out@.len() ==> ranking::<T>()(
                            item.deep_view(),
                            out.deep_view()[at as int],
                        ),
                    decreases out@.len() - at,
                {
                    at = at + 1;
                }
                proof {
                    placed_at(out.deep_view(), item.deep_view(), ranking::<T>(), at as int);
                }
                let ghost sorted_before = out.deep_view();
                let ghost item_view = item.deep_view();
                out.insert(at, item);
                assert(out.deep_view() =~= sorted_before.insert(at as int, item_view));
            },
        }
    }
}

/// The items of `items` that rank level with `item`, in order.
pub open spec fn level_with<V>(items: Seq<V>, item: V, no_later: spec_fn(V, V) -> bool) -> Seq<V> {
    items.filter(|x: V| no_later(x, item) && no_later(item, x))
}

proof fn placing_keeps_order<V>(items: Seq<V>, item: V, no_later: spec_fn(V, V) -> bool)
    requires
        is_ranking(no_later),
        in_order(items, no_later),
    ensures
        in_order(placed(items, item, no_later), no_later),
        placed(items, item, no_later).to_multiset() == items.to_multiset().insert(item),
        forall|x: V|
            level_with(placed(items, item, no_later), x, no_later) == level_with(
                seq![item] + items,
                x,
                no_later,
            ),
    decreases items.len(),
{
    broadcast use vstd::seq_lib::group_seq_properties;
    broadcast use vstd::multiset::group_multiset_axioms;

    let out = placed(items, item, no_later);
    if items.len() == 0 || no_later(item, items[0]) {
        assert forall|i: int, j: int| 0 <= i < j < out.len() implies no_later(
            #[trigger] out[i],
            #[trigger] out[j],
        ) by {
            if i == 0 {
                assert(out[j] == items[j - 1]);
                if j > 1 {
                    assert(no_later(items[0], items[j - 1]));
                    assert(no_later(item, items[0]));
                }
            } else {
                assert(out[i] == items[i - 1] && out[j] == items[j - 1]);
            }
        }
        assert(out.to_multiset() =~= items.to_multiset().insert(item)) by {
            vstd::seq_lib::lemma_multiset_commutative(seq![item], items);
            assert(seq![item] =~= Seq::empty().push(item));
        }
    } else {
        let rest = items.drop_first();
        assert(in_order(rest, no_later)) by {
            assert forall|i: int, j: int| 0 <= i < j < rest.len() implies no_later(
                #[trigger] rest[i],
                #[trigger] rest[j],
            ) by {
                assert(no_later(items[i + 1], items[j + 1]));
            }
        }
        placing_keeps_order(rest, item, no_later);
        let tail = placed(rest, item, no_later);
        assert(out =~= seq![items[0]] + tail);
        assert(items =~= seq![items[0]] + rest);
        vstd::seq_lib::lemma_multiset_commutative(seq![items[0]], tail);
        vstd::seq_lib::lemma_multiset_commutative(seq![items[0]], rest);
        assert(out.to_multiset() =~= items.to_multiset().insert(item));
        assert(no_later(items[0], item)) by {
            assert(no_later(item, items[0]) || no_later(items[0], item));
        }
        assert forall|i: int, j: int| 0 <= i < j < out.len() implies no_later(
            #[trigger] out[i],
            #[trigger] out[j],
        ) by {
            if i == 0 {
                assert(out[j] == tail[j - 1]);
                assert(tail.to_multiset().contains(tail[j - 1])) by {
                    tail.to_multiset_ensures();
                }
                assert(rest.to_multiset().insert(item).contains(tail[j - 1]));
                if tail[j - 1] != item {
                    assert(rest.to_multiset().contains(tail[j - 1]));
                    rest.to_multiset_ensures();
                    assert(rest.contains(tail[j - 1]));
                    let k = choose|k: int| 0 <= k < rest.len() && rest[k] == tail[j - 1];
                    assert(no_later(items[0], items[k + 1]));
                }
            } else {
                assert(out[i] == tail[i - 1] && out[j] == tail[j - 1]);
            }
        }
        assert forall|x: V|
            level_with(out, x, no_later) == level_with(seq![item] + items, x, no_later) by {
            let p = |y: V| no_later(y, x) && no_later(x, y);
            let head = seq![items[0]];
            let one = seq![item];
            Seq::filter_distributes_over_add(head, tail, p);
            Seq::filter_distributes_over_add(one, items, p);
            Seq::filter_distributes_over_add(head, rest, p);
            Seq::filter_distributes_over_add(one, rest, p);
            assert(level_with(tail, x, no_later) == level_with(one + rest, x, no_later));
            assert(tail.filter(p) == one.filter(p) + rest.filter(p));
            assert(out.filter(p) == head.filter(p) + (one.filter(p) + rest.filter(p)));
            assert((one + items).filter(p) == one.filter(p) + (head.filter(p) + rest.filter(p)));
            // `item` and the head are never level: one of them is empty here.
            if p(item) && p(items[0]) {
                assert(no_later(item, x) && no_later(x, items[0]));
                assert(no_later(item, items[0]));
            }
            reveal_with_fuel(Seq::filter, 3);
            assert(head.drop_last() =~= Seq::empty());
            assert(one.drop_last() =~= Seq::empty());
            assert(head.filter(p) =~= if p(items[0]) { head } else { Seq::empty() });
            assert(one.filter(p) =~= if p(item) { one } else { Seq::empty() });
            assert(out.filter(p) =~= (one + items).filter(p));
        }
    }
}

/// Sorting puts every item in its place: the result is in order, holds the
/// same items, and keeps items of equal rank as they came.
pub proof fn sorting_is_stable<V>(items: Seq<V>, no_later: spec_fn(V, V) -> bool)
    requires
        is_ranking(no_later),
    ensures
        in_order(sorted(items, no_later), no_later),
        sorted(items, no_later).to_multiset() == items.to_multiset(),
        forall|x: V|
            level_with(sorted(items, no_later), x, no_later) == level_with(items, x, no_later),
    decreases items.len(),
{
    if items.len() > 0 {
        broadcast use vstd::seq_lib::group_seq_properties;
        broadcast use vstd::multiset::group_multiset_axioms;

        let rest = items.drop_first();
        sorting_is_stable(rest, no_later);
        placing_keeps_order(sorted(rest, no_later), items[0], no_later);
        assert(items =~= seq![items[0]] + rest);
        vstd::seq_lib::lemma_multiset_commutative(seq![items[0]], rest);
        assert(sorted(items, no_later).to_multiset() =~= items.to_multiset());
        assert forall|x: V|
            level_with(sorted(items, no_later), x, no_later) == level_with(items, x, no_later) by {
            let p = |y: V| no_later(y, x) && no_later(x, y);
            Seq::filter_distributes_over_add(seq![items[0]], sorted(rest, no_later), p);
            Seq::filter_distributes_over_add(seq![items[0]], rest, p);
            assert(level_with(sorted(rest, no_later), x, no_later) == level_with(rest, x, no_later));
        }
    }
}

proof fn placed_of_mapped<A, B>(
    items: Seq<A>,
    item: A,
    f: spec_fn(A) -> B,
    no_later_a: spec_fn(A, A) -> bool,
    no_later_b: spec_fn(B, B) -> bool,
)
    requires
        forall|x: A, y: A| #[trigger] no_later_a(x, y) == no_later_b(f(x), f(y)),
    ensures
        placed(items.map_values(f), f(item), no_later_b) == placed(
            items,
            item,
            no_later_a,
        ).map_values(f),
    decreases items.len(),
{
    let mapped = items.map_values(f);
    if items.len() == 0 || no_later_a(item, items[0]) {
        assert(placed(mapped, f(item), no_later_b) =~= placed(items, item, no_later_a).map_values(
            f,
        ));
    } else {
        assert(!no_later_b(f(item), mapped[0]));
        placed_of_mapped(items.drop_first(), item, f, no_later_a, no_later_b);
        assert(mapped.drop_first() =~= items.drop_first().map_values(f));
        assert(placed(mapped, f(item), no_later_b) =~= placed(items, item, no_later_a).map_values(
            f,
        ));
    }
}

/// Sorting commutes with a mapping that keeps the ranks.
pub proof fn sorted_of_mapped<A, B>(
    items: Seq<A>,
    f: spec_fn(A) -> B,
    no_later_a: spec_fn(A, A) -> bool,
    no_later_b: spec_fn(B, B) -> bool,
)
    requires
        forall|x: A, y: A| #[trigger] no_later_a(x, y) == no_later_b(f(x), f(y)),
    ensures
        sorted(items.map_values(f), no_later_b) == sorted(items, no_later_a).map_values(f),
    decreases items.len(),
{
    if items.len() == 0 {
        assert(sorted(items.map_values(f), no_later_b) =~= sorted(items, no_later_a).map_values(f));
    } else {
        sorted_of_mapped(items.drop_first(), f, no_later_a, no_later_b);
        assert(items.map_values(f).drop_first() =~= items.drop_first().map_values(f));
        placed_of_mapped(
            sorted(items.drop_first(), no_later_a),
            items[0],
            f,
            no_later_a,
            no_later_b,
        );
    }
}

proof fn filter_of_one<V>(item: V, keep: spec_fn(V) -> bool)
    ensures
        seq![item].filter(keep) == if keep(item) {
            seq![item]
        } else {
            Seq::empty()
        },
{
    reveal_with_fuel(Seq::filter, 2);
    assert(seq![item].drop_last() =~= Seq::empty());
    assert(seq![item].filter(keep) =~= if keep(item) {
        seq![item]
    } else {
        Seq::empty()
    });
}

proof fn placed_of_filtered<V>(
    items: Seq<V>,
    item: V,
    no_later: spec_fn(V, V) -> bool,
    keep: spec_fn(V) -> bool,
)
    requires
        is_ranking(no_later),
        in_order(items, no_later),
    ensures
        placed(items, item, no_later).filter(keep) == if keep(item) {
            placed(items.filter(keep), item, no_later)
        } else {
            items.filter(keep)
        },
    decreases items.len(),
{
    let one = seq![item];
    let kept = items.filter(keep);
    filter_of_one(item, keep);
    if items.len() == 0 || no_later(item, items[0]) {
        Seq::filter_distributes_over_add(one, items, keep);
        if kept.len() > 0 {
            assert(kept.contains(kept[0]));
            items.lemma_filter_contains_rev(keep, kept[0]);
            let j = choose|j: int| 0 <= j < items.len() && items[j] == kept[0];
            if j > 0 {
                assert(no_later(items[0], items[j]));
            }
            assert(no_later(item, kept[0]));
        }
        assert(placed(items, item, no_later).filter(keep) =~= one.filter(keep) + kept);
        assert(one.filter(keep) + kept =~= if keep(item) {
            placed(kept, item, no_later)
        } else {
            kept
        });
    } else {
        let rest = items.drop_first();
        let head = seq![items[0]];
        assert(in_order(rest, no_later)) by {
            assert(forall|i: int| 0 <= i < rest.len() ==> rest[i] == items[i + 1]);
        }
        placed_of_filtered(rest, item, no_later, keep);
        filter_of_one(items[0], keep);
        Seq::filter_distributes_over_add(head, placed(rest, item, no_later), keep);
        Seq::filter_distributes_over_add(head, rest, keep);
        assert(items =~= head + rest);
        if keep(items[0]) {
            assert(kept =~= head + rest.filter(keep));
            assert(kept.drop_first() =~= rest.filter(keep));
            assert(placed(items, item, no_later).filter(keep) =~= if keep(item) {
                placed(kept, item, no_later)
            } else {
                kept
            });
        } else {
            assert(kept =~= rest.filter(keep));
            assert(placed(items, item, no_later).filter(keep) =~= placed(
                rest,
                item,
                no_later,
            ).filter(keep));
        }
    }
}

/// Sorting commutes with leaving items out.
pub proof fn sorted_of_filtered<V>(
    items: Seq<V>,
    no_later: spec_fn(V, V) -> bool,
    keep: spec_fn(V) -> bool,
)
    requires
        is_ranking(no_later),
    ensures
        sorted(items, no_later).filter(keep) == sorted(items.filter(keep), no_later),
    decreases items.len(),
{
    if items.len() == 0 {
        items.lemma_filter_len(keep);
        assert(items.filter(keep) =~= items);
    } else {
        let rest = items.drop_first();
        let head = seq![items[0]];
        sorted_of_filtered(rest, no_later, keep);
        sorting_is_stable(rest, no_later);
        placed_of_filtered(sorted(rest, no_later), items[0], no_later, keep);
        filter_of_one(items[0], keep);
        Seq::filter_distributes_over_add(head, rest, keep);
        assert(items =~= head + rest);
        if keep(items[0]) {
            assert(items.filter(keep) =~= head + rest.filter(keep));
            assert(items.filter(keep).drop_first() =~= rest.filter(keep));
        } else {
            assert(items.filter(keep) =~= rest.filter(keep));
        }
    }
}

/// Items that are in order, and level with each other in the same order, are
/// the same: there is one way only to sort stably.
pub proof fn stable_order_is_unique<V>(a: Seq<V>, b: Seq<V>, no_later: spec_fn(V, V) -> bool)
    requires
        is_ranking(no_later),
        in_order(a, no_later),
        in_order(b, no_later),
        forall|x: V| level_with(a, x, no_later) == level_with(b, x, no_later),
    ensures
        a == b,
    decreases a.len(),
{
    if a.len() == 0 {
        if b.len() > 0 {
            let p = |y: V| no_later(y, b[0]) && no_later(b[0], y);
            assert(no_later(b[0], b[0]));
            b.lemma_filter_contains(p, 0);
            assert(level_with(b, b[0], no_later).len() > 0);
            a.lemma_filter_len(p);
            assert(level_with(a, b[0], no_later).len() == 0);
        }
        assert(a =~= b);
    } else {
        let x = a[0];
        let p = |y: V| no_later(y, x) && no_later(x, y);
        assert(no_later(x, x));
        a.lemma_filter_contains(p, 0);
        assert(level_with(a, x, no_later).len() > 0);
        if b.len() == 0 {
            b.lemma_filter_len(p);
            assert(false);
        }
        let y = b[0];
        let q = |z: V| no_later(z, y) && no_later(y, z);
        assert(no_later(y, y));
        // Each list holds the other's first item.
        assert(level_with(b, x, no_later).contains(x));
        b.lemma_filter_contains_rev(p, x);
        b.lemma_filter_contains(q, 0);
        assert(level_with(a, y, no_later).contains(y));
        a.lemma_filter_contains_rev(q, y);
        let i = choose|i: int| 0 <= i < b.len() && b[i] == x;
        let j = choose|j: int| 0 <= j < a.len() && a[j] == y;
        if i > 0 {
            assert(no_later(b[0], b[i]));
        }
        if j > 0 {
            assert(no_later(a[0], a[j]));
        }
        assert(no_later(x, y) && no_later(y, x));
        let rest_a = a.drop_first();
        let rest_b = b.drop_first();
        assert(a =~= seq![x] + rest_a);
        assert(b =~= seq![y] + rest_b);
        filter_of_one(x, p);
        filter_of_one(y, p);
        Seq::filter_distributes_over_add(seq![x], rest_a, p);
        Seq::filter_distributes_over_add(seq![y], rest_b, p);
        assert(level_with(a, x, no_later)[0] == x);
        assert(level_with(b, x, no_later)[0] == y);
        assert(x == y);
        assert(in_order(rest_a, no_later)) by {
            assert(forall|k: int| 0 <= k < rest_a.len() ==> rest_a[k] == a[k + 1]);
        }
        assert(in_order(rest_b, no_later)) by {
            assert(forall|k: int| 0 <= k < rest_b.len() ==> rest_b[k] == b[k + 1]);
        }
        assert forall|z: V|
            level_with(rest_a, z, no_later) == level_with(rest_b, z, no_later) by {
            let r = |w: V| no_later(w, z) && no_later(z, w);
            filter_of_one(x, r);
            Seq::filter_distributes_over_add(seq![x], rest_a, r);
            Seq::filter_distributes_over_add(seq![x], rest_b, r);
            let la = level_with(a, z, no_later);
            let lb = level_with(b, z, no_later);
            assert(la == lb);
            if r(x) {
                assert(la =~= seq![x] + rest_a.filter(r));
                assert(lb =~= seq![x] + rest_b.filter(r));
                assert(la.drop_first() =~= rest_a.filter(r));
                assert(lb.drop_first() =~= rest_b.filter(r));
            } else {
                assert(la =~= rest_a.filter(r));
                assert(lb =~= rest_b.filter(r));
            }
        }
        stable_order_is_unique(rest_a, rest_b, no_later);
    }
}

/// Sorting a part of the items first makes no difference.
pub proof fn sorted_of_presorted<V>(a: Seq<V>, b: Seq<V>, no_later: spec_fn(V, V) -> bool)
    requires
        is_ranking(no_later),
    ensures
        sorted(sorted(a, no_later) + b, no_later) == sorted(a + b, no_later),
{
    let first = sorted(a, no_later) + b;
    sorting_is_stable(a, no_later);
    sorting_is_stable(first, no_later);
    sorting_is_stable(a + b, no_later);
    assert forall|x: V|
        level_with(sorted(first, no_later), x, no_later) == level_with(
            sorted(a + b, no_later),
            x,
            no_later,
        ) by {
        let p = |y: V| no_later(y, x) && no_later(x, y);
        Seq::filter_distributes_over_add(sorted(a, no_later), b, p);
        Seq::filter_distributes_over_add(a, b, p);
        assert(level_with(sorted(a, no_later), x, no_later) == level_with(a, x, no_later));
        assert(level_with(sorted(first, no_later), x, no_later) == level_with(first, x, no_later));
        assert(level_with(sorted(a + b, no_later), x, no_later) == level_with(a + b, x, no_later));
    }
    stable_order_is_unique(sorted(first, no_later), sorted(a + b, no_later), no_later);
}

}
