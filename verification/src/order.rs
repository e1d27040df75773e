//! Ordering of listing results.
//!
//! Listings are specified as an insertion sort over a total "less or equal"
//! relation.  The relation is a parameter, so the same definitions serve the
//! memo listings (pinned first, then newest first) and the plan listings
//! (highest priority first, then oldest first).

use vstd::prelude::*;
use vstd::relations::sorted_by;
use vstd::relations::strongly_connected;
use vstd::relations::transitive;
use vstd::seq_lib::lemma_multiset_commutative;
use vstd::seq_lib::lemma_seq_union_to_multiset_commutative;

verus! {

/// `x` placed immediately before the first element `e` of `s` with `leq(x, e)`,
/// or at the end when there is no such element.
pub open spec fn ordered_insert<A>(x: A, s: Seq<A>, leq: spec_fn(A, A) -> bool) -> Seq<A>
    decreases s.len(),
{
    if s.len() == 0 {
        seq![x]
    } else if leq(x, s.first()) {
        seq![x] + s
    } else {
        seq![s.first()] + ordered_insert(x, s.drop_first(), leq)
    }
}

/// Insertion sort of `s` under `leq`, inserting elements from the back.
pub open spec fn sort_ordered<A>(s: Seq<A>, leq: spec_fn(A, A) -> bool) -> Seq<A>
    decreases s.len(),
{
    if s.len() == 0 {
        Seq::empty()
    } else {
        ordered_insert(s.last(), sort_ordered(s.drop_last(), leq), leq)
    }
}

/// The window of `s` selected by `limit` and `offset`: a negative offset
/// counts as zero, a negative limit as no bound, and a window reaching past
/// the end is cut off there.
pub open spec fn page<A>(s: Seq<A>, limit: int, offset: int) -> Seq<A> {
    let start = if offset < 0 {
        0
    } else if offset > s.len() {
        s.len() as int
    } else {
        offset
    };
    let end = if limit < 0 || start + limit > s.len() {
        s.len() as int
    } else {
        start + limit
    };
    s.subrange(start, end)
}

/// One step of filtering a prefix: extending the prefix by `s[i]` appends it
/// to the filtered result exactly when it satisfies the predicate.
pub proof fn lemma_filter_take_step<A>(s: Seq<A>, pred: spec_fn(A) -> bool, i: int)
    requires
        0 <= i < s.len(),
    ensures
        s.take(i + 1).filter(pred) == if pred(s[i]) {
            s.take(i).filter(pred).push(s[i])
        } else {
            s.take(i).filter(pred)
        },
{
    reveal(Seq::filter);
    assert(s.take(i + 1).drop_last() =~= s.take(i));
    assert(s.take(i + 1).last() == s[i]);
}

/// When `j` is the first position of `s` whose element `e` has `leq(x, e)`
/// (or `s.len()` when there is none), `ordered_insert` places `x` at `j`.
pub proof fn lemma_ordered_insert_is_insert_at<A>(
    x: A,
    s: Seq<A>,
    leq: spec_fn(A, A) -> bool,
    j: int,
)
    requires
        0 <= j <= s.len(),
        forall|k: int| 0 <= k < j ==> !leq(x, s[k]),
        j < s.len() ==> leq(x, s[j]),
    ensures
        ordered_insert(x, s, leq) == s.insert(j, x),
    decreases s.len(),
{
    if s.len() == 0 {
        assert(ordered_insert(x, s, leq) =~= s.insert(0, x));
    } else if leq(x, s.first()) {
        assert(j == 0);
        assert(seq![x] + s =~= s.insert(0, x));
    } else {
        assert(j >= 1) by {
            assert(0 < s.len());
        }
        assert forall|k: int| 0 <= k < j - 1 implies !leq(x, s.drop_first()[k]) by {
            assert(s.drop_first()[k] == s[k + 1]);
        }
        assert(j - 1 < s.drop_first().len() ==> leq(x, s.drop_first()[j - 1]));
        lemma_ordered_insert_is_insert_at(x, s.drop_first(), leq, j - 1);
        assert(seq![s.first()] + s.drop_first().insert(j - 1, x) =~= s.insert(j, x));
    }
}

/// `ordered_insert` adds exactly one occurrence of `x` to the contents of `s`.
pub proof fn lemma_ordered_insert_multiset<A>(x: A, s: Seq<A>, leq: spec_fn(A, A) -> bool)
    ensures
        ordered_insert(x, s, leq).to_multiset() == s.to_multiset().insert(x),
    decreases s.len(),
{
    broadcast use vstd::seq_lib::group_to_multiset_ensures;
    broadcast use vstd::multiset::group_multiset_axioms;

    if s.len() == 0 {
        assert(seq![x] =~= s.push(x));
    } else if leq(x, s.first()) {
        lemma_seq_union_to_multiset_commutative(seq![x], s);
        assert(s + seq![x] =~= s.push(x));
    } else {
        lemma_ordered_insert_multiset(x, s.drop_first(), leq);
        lemma_multiset_commutative(seq![s.first()], ordered_insert(x, s.drop_first(), leq));
        lemma_multiset_commutative(seq![s.first()], s.drop_first());
        assert(seq![s.first()] + s.drop_first() =~= s);
        assert(seq![s.first()].to_multiset().add(s.drop_first().to_multiset().insert(x)) =~= seq![
            s.first(),
        ].to_multiset().add(s.drop_first().to_multiset()).insert(x));
    }
}

/// Inserting into a sequence sorted under a transitive, total `leq` keeps it sorted.
pub proof fn lemma_ordered_insert_sorted<A>(x: A, s: Seq<A>, leq: spec_fn(A, A) -> bool)
    requires
        sorted_by(s, leq),
        transitive(leq),
        strongly_connected(leq),
    ensures
        sorted_by(ordered_insert(x, s, leq), leq),
    decreases s.len(),
{
    broadcast use vstd::seq_lib::group_to_multiset_ensures;
    broadcast use vstd::multiset::group_multiset_axioms;

    if s.len() == 0 {
    } else if leq(x, s.first()) {
        let r = seq![x] + s;
        assert forall|i: int, j: int| 0 <= i < j < r.len() implies leq(r[i], r[j]) by {
            if i == 0 {
                if j > 1 {
                    assert(leq(s.first(), s[j - 1]));
                }
            } else {
                assert(leq(s[i - 1], s[j - 1]));
            }
        }
    } else {
        let tail = ordered_insert(x, s.drop_first(), leq);
        assert forall|i: int, j: int|
            0 <= i < j < s.drop_first().len() implies leq(s.drop_first()[i], s.drop_first()[j]) by {
            assert(leq(s[i + 1], s[j + 1]));
        }
        lemma_ordered_insert_sorted(x, s.drop_first(), leq);
        lemma_ordered_insert_multiset(x, s.drop_first(), leq);
        let r = seq![s.first()] + tail;
        assert forall|i: int, j: int| 0 <= i < j < r.len() implies leq(r[i], r[j]) by {
            if i == 0 {
                // every element of `tail` is either `x` or an element of `s.drop_first()`
                assert(tail.contains(tail[j - 1]));
                assert(tail.to_multiset().count(tail[j - 1]) > 0);
                if tail[j - 1] == x {
                    assert(leq(s.first(), x));
                } else {
                    assert(s.drop_first().to_multiset().count(tail[j - 1]) > 0);
                    assert(s.drop_first().contains(tail[j - 1]));
                    let k = choose|k: int|
                        0 <= k < s.drop_first().len() && s.drop_first()[k] == tail[j - 1];
                    assert(leq(s[0], s[k + 1]));
                }
            } else {
                assert(leq(tail[i - 1], tail[j - 1]));
            }
        }
    }
}

/// Sorting does not lose, duplicate or invent elements.
pub proof fn lemma_sort_ordered_permutes<A>(s: Seq<A>, leq: spec_fn(A, A) -> bool)
    ensures
        sort_ordered(s, leq).to_multiset() == s.to_multiset(),
    decreases s.len(),
{
    broadcast use vstd::seq_lib::group_to_multiset_ensures;

    if s.len() == 0 {
        assert(sort_ordered(s, leq) =~= s);
    } else {
        lemma_sort_ordered_permutes(s.drop_last(), leq);
        lemma_ordered_insert_multiset(s.last(), sort_ordered(s.drop_last(), leq), leq);
        assert(s.drop_last().push(s.last()) =~= s);
    }
}

/// Sorting under a transitive, total `leq` yields a sequence sorted under it.
pub proof fn lemma_sort_ordered_sorted<A>(s: Seq<A>, leq: spec_fn(A, A) -> bool)
    requires
        transitive(leq),
        strongly_connected(leq),
    ensures
        sorted_by(sort_ordered(s, leq), leq),
    decreases s.len(),
{
    if s.len() == 0 {
    } else {
        lemma_sort_ordered_sorted(s.drop_last(), leq);
        lemma_ordered_insert_sorted(s.last(), sort_ordered(s.drop_last(), leq), leq);
    }
}

} // verus!
