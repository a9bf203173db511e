//! Facts about sequences that the filters and the counts rest on.

use vstd::prelude::*;
use vstd::seq_lib::seq_to_set_is_finite;
use vstd::set::group_set_axioms;

verus! {

/// Filtering a sequence that grew by one item keeps that item exactly when
/// the predicate holds of it.
pub proof fn lemma_filter_push<A>(s: Seq<A>, x: A, pred: spec_fn(A) -> bool)
    ensures
        s.push(x).filter(pred) == if pred(x) {
            s.filter(pred).push(x)
        } else {
            s.filter(pred)
        },
{
    reveal(Seq::filter);
    assert(s.push(x).drop_last() =~= s);
}

/// The first `i + 1` items are the first `i` and the one at `i`.
pub proof fn lemma_take_next<A>(s: Seq<A>, i: int)
    requires
        0 <= i < s.len(),
    ensures
        s.take(i + 1) == s.take(i).push(s[i]),
{
    assert(s.take(i + 1) =~= s.take(i).push(s[i]));
}

/// Filtering the first `i + 1` items, from the filter of the first `i`.
pub proof fn lemma_filter_take_next<A>(s: Seq<A>, i: int, pred: spec_fn(A) -> bool)
    requires
        0 <= i < s.len(),
    ensures
        s.take(i + 1).filter(pred) == if pred(s[i]) {
            s.take(i).filter(pred).push(s[i])
        } else {
            s.take(i).filter(pred)
        },
{
    lemma_take_next(s, i);
    lemma_filter_push(s.take(i), s[i], pred);
}

/// Nothing is left of an empty sequence after filtering.
pub proof fn lemma_filter_empty<A>(pred: spec_fn(A) -> bool)
    ensures
        Seq::<A>::empty().filter(pred) == Seq::<A>::empty(),
{
    reveal(Seq::filter);
}

/// Among distinct items, as many satisfy a predicate as the set of them
/// holds.
pub proof fn lemma_count_of_distinct<A>(s: Seq<A>, pred: spec_fn(A) -> bool)
    requires
        s.no_duplicates(),
    ensures
        s.to_set().filter(pred).finite(),
        s.filter(pred).len() == s.to_set().filter(pred).len(),
    decreases s.len(),
{
    broadcast use {group_set_axioms, seq_to_set_is_finite};

    reveal(Seq::filter);
    if s.len() == 0 {
        assert(s.to_set().filter(pred) =~= Set::<A>::empty());
    } else {
        let rest = s.drop_last();
        let last = s.last();
        lemma_count_of_distinct(rest, pred);
        assert(!rest.contains(last));
        assert(s.to_set() =~= rest.to_set().insert(last)) by {
            assert forall|a: A| s.to_set().contains(a) <==> rest.to_set().insert(last).contains(
                a,
            ) by {
                if s.contains(a) {
                    let i = choose|i: int| 0 <= i < s.len() && s[i] == a;
                    if i < s.len() - 1 {
                        assert(rest[i] == a);
                    }
                }
                if rest.contains(a) {
                    let i = choose|i: int| 0 <= i < rest.len() && rest[i] == a;
                    assert(s[i] == a);
                }
                if a == last {
                    assert(s[s.len() - 1] == a);
                }
            }
        }
        if pred(last) {
            assert(s.to_set().filter(pred) =~= rest.to_set().filter(pred).insert(last));
        } else {
            assert(s.to_set().filter(pred) =~= rest.to_set().filter(pred));
        }
    }
}

/// A sequence that grew by one item holds what it held before, and that
/// item.
pub proof fn lemma_contains_push<A>(s: Seq<A>, x: A, a: A)
    ensures
        s.push(x).contains(a) <==> (s.contains(a) || a == x),
{
    if s.contains(a) {
        let i = choose|i: int| 0 <= i < s.len() && s[i] == a;
        assert(s.push(x)[i] == a);
    }
    if a == x {
        assert(s.push(x)[s.len() as int] == a);
    }
    if s.push(x).contains(a) {
        let i = choose|i: int| 0 <= i < s.push(x).len() && s.push(x)[i] == a;
        if i < s.len() {
            assert(s[i] == a);
        }
    }
}

/// Nothing is left of a sequence after filtering by a predicate that holds
/// of none of its items.
pub proof fn lemma_filter_none<A>(s: Seq<A>, pred: spec_fn(A) -> bool)
    requires
        forall|i: int| 0 <= i < s.len() ==> !pred(#[trigger] s[i]),
    ensures
        s.filter(pred).len() == 0,
    decreases s.len(),
{
    reveal(Seq::filter);
    if s.len() > 0 {
        let rest = s.drop_last();
        assert forall|i: int| 0 <= i < rest.len() implies !pred(#[trigger] rest[i]) by {
            assert(rest[i] == s[i]);
        }
        lemma_filter_none(rest, pred);
        assert(!pred(s[s.len() - 1]));
    }
}

/// Filtering by a predicate that holds of every item keeps the sequence.
pub proof fn lemma_filter_all<A>(s: Seq<A>, pred: spec_fn(A) -> bool)
    requires
        forall|i: int| 0 <= i < s.len() ==> pred(#[trigger] s[i]),
    ensures
        s.filter(pred) == s,
    decreases s.len(),
{
    reveal(Seq::filter);
    if s.len() > 0 {
        let rest = s.drop_last();
        assert forall|i: int| 0 <= i < rest.len() implies pred(#[trigger] rest[i]) by {
            assert(rest[i] == s[i]);
        }
        lemma_filter_all(rest, pred);
        assert(pred(s[s.len() - 1]));
        assert(rest.push(s.last()) =~= s);
    }
}

/// Two predicates that agree on all items of a sequence but the one at `at`,
/// of which only the second holds: the second keeps one item more.
pub proof fn lemma_filter_one_more<A>(
    s: Seq<A>,
    at: int,
    pred: spec_fn(A) -> bool,
    wider: spec_fn(A) -> bool,
)
    requires
        0 <= at < s.len(),
        !pred(s[at]),
        wider(s[at]),
        forall|i: int| 0 <= i < s.len() && i != at ==> pred(#[trigger] s[i]) == wider(s[i]),
    ensures
        s.filter(wider).len() == s.filter(pred).len() + 1,
    decreases s.len(),
{
    reveal(Seq::filter);
    let rest = s.drop_last();
    if at == s.len() - 1 {
        lemma_filter_same(rest, pred, wider);
    } else {
        assert(rest[at] == s[at]);
        assert forall|i: int| 0 <= i < rest.len() && i != at implies pred(#[trigger] rest[i])
            == wider(rest[i]) by {
            assert(rest[i] == s[i]);
        }
        lemma_filter_one_more(rest, at, pred, wider);
        assert(pred(s[s.len() - 1]) == wider(s[s.len() - 1]));
    }
}

/// Two predicates that agree on all items of a sequence keep the same items.
pub proof fn lemma_filter_same<A>(s: Seq<A>, pred: spec_fn(A) -> bool, other: spec_fn(A) -> bool)
    requires
        forall|i: int| 0 <= i < s.len() ==> pred(#[trigger] s[i]) == other(s[i]),
    ensures
        s.filter(pred) == s.filter(other),
    decreases s.len(),
{
    reveal(Seq::filter);
    if s.len() > 0 {
        let rest = s.drop_last();
        assert forall|i: int| 0 <= i < rest.len() implies pred(#[trigger] rest[i]) == other(
            rest[i],
        ) by {
            assert(rest[i] == s[i]);
        }
        lemma_filter_same(rest, pred, other);
        assert(pred(s[s.len() - 1]) == other(s[s.len() - 1]));
    }
}

/// A filtered sequence holds an item exactly if the sequence holds it and
/// the predicate is true of it.
pub proof fn lemma_filter_holds<A>(s: Seq<A>, pred: spec_fn(A) -> bool, x: A)
    ensures
        s.filter(pred).contains(x) == (s.contains(x) && pred(x)),
    decreases s.len(),
{
    reveal(Seq::filter);
    if s.len() > 0 {
        let rest = s.drop_last();
        lemma_filter_holds(rest, pred, x);
        let kept = rest.filter(pred);
        if s.contains(x) {
            let i = choose|i: int| 0 <= i < s.len() && s[i] == x;
            if i < rest.len() {
                assert(rest[i] == x);
            }
        }
        if rest.contains(x) {
            let i = choose|i: int| 0 <= i < rest.len() && rest[i] == x;
            assert(s[i] == x);
        }
        if s.last() == x {
            assert(s[s.len() - 1] == x);
        }
        if pred(s.last()) {
            let more = kept.push(s.last());
            if kept.contains(x) {
                let i = choose|i: int| 0 <= i < kept.len() && kept[i] == x;
                assert(more[i] == x);
            }
            if more.contains(x) {
                let i = choose|i: int| 0 <= i < more.len() && more[i] == x;
                if i < kept.len() {
                    assert(kept[i] == x);
                }
            }
            if s.last() == x {
                assert(more[more.len() - 1] == x);
            }
        }
    }
}

/// The filter of a prefix is a prefix of the filter.
pub proof fn lemma_filter_prefix<A>(s: Seq<A>, n: int, pred: spec_fn(A) -> bool)
    requires
        0 <= n <= s.len(),
    ensures
        s.take(n).filter(pred).len() <= s.filter(pred).len(),
        forall|k: int|
            0 <= k < s.take(n).filter(pred).len() ==> s.filter(pred)[k] == s.take(n).filter(
                pred,
            )[k],
    decreases s.len() - n,
{
    if n < s.len() {
        lemma_filter_prefix(s, n + 1, pred);
        lemma_filter_take_next(s, n, pred);
    } else {
        assert(s.take(n) =~= s);
    }
}

} // verus!
