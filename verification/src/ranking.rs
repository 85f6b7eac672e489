//! The order in which slots are served with names.
//!
//! The more often a slot occurs, the earlier it is served; among slots that
//! occur equally often, the lower slot goes first. The rank of a slot is the
//! number of slots that are served before it.

use vstd::prelude::*;
use vstd::seq_lib::*;
use vstd::set_lib::*;
use crate::frequency::Bucket;

verus! {

/// Whether bucket `a` is served before bucket `b`.
pub open spec fn served_before(a: Bucket, b: Bucket) -> bool {
    a.frequency > b.frequency || (a.frequency == b.frequency && a.index < b.index)
}

/// Whether no bucket of `s` stands behind one that it is served before.
pub open spec fn in_order(s: Seq<Bucket>) -> bool {
    forall|p: int, q: int| 0 <= p < q < s.len() ==> !served_before(#[trigger] s[q], #[trigger] s[p])
}

/// Whether the slot at table place `a` is served before the one at place
/// `b`, where `frequencies` holds the frequency of each place.
pub open spec fn precedes(frequencies: Seq<nat>, a: int, b: int) -> bool {
    frequencies[a] > frequencies[b] || (frequencies[a] == frequencies[b] && a < b)
}

/// The table places that are served before place `index`.
pub open spec fn predecessors(frequencies: Seq<nat>, index: int) -> Set<int> {
    Set::new(|j: int| 0 <= j < frequencies.len() && precedes(frequencies, j, index))
}

/// The number of slots that are served before the one at table place `index`.
pub open spec fn rank(frequencies: Seq<nat>, index: int) -> nat {
    predecessors(frequencies, index).len()
}

/// The frequencies that a row of buckets holds, place by place.
pub open spec fn tallies(buckets: Seq<Bucket>) -> Seq<nat> {
    Seq::new(buckets.len(), |i: int| buckets[i].frequency as nat)
}

/// Whether each bucket stands at the place of its own slot.
pub open spec fn is_indexed(buckets: Seq<Bucket>) -> bool {
    forall|i: int| 0 <= i < buckets.len() ==> (#[trigger] buckets[i]).index == i
}

/// The slots served before a slot are finitely many, and the slot itself is
/// not among them: a rank stays below the number of slots.
pub proof fn lemma_rank_bound(frequencies: Seq<nat>, index: int)
    requires
        0 <= index < frequencies.len(),
    ensures
        predecessors(frequencies, index).finite(),
        rank(frequencies, index) < frequencies.len(),
{
    let all = set_int_range(0, frequencies.len() as int);
    lemma_int_range(0, frequencies.len() as int);
    assert(predecessors(frequencies, index).subset_of(all.remove(index)));
    lemma_len_subset(predecessors(frequencies, index), all.remove(index));
}

/// A slot that is served before another has the lower rank.
pub proof fn lemma_rank_increases(frequencies: Seq<nat>, a: int, b: int)
    requires
        0 <= a < frequencies.len(),
        0 <= b < frequencies.len(),
        precedes(frequencies, a, b),
    ensures
        rank(frequencies, a) < rank(frequencies, b),
{
    lemma_rank_bound(frequencies, b);
    let before_a = predecessors(frequencies, a);
    let before_b = predecessors(frequencies, b);
    assert(before_b.contains(a));
    assert(before_a.subset_of(before_b.remove(a)));
    lemma_len_subset(before_a, before_b.remove(a));
}

/// Two different slots have different ranks.
pub proof fn lemma_rank_injective(frequencies: Seq<nat>, a: int, b: int)
    requires
        0 <= a < frequencies.len(),
        0 <= b < frequencies.len(),
        a != b,
    ensures
        rank(frequencies, a) != rank(frequencies, b),
{
    if precedes(frequencies, a, b) {
        lemma_rank_increases(frequencies, a, b);
    } else {
        lemma_rank_increases(frequencies, b, a);
    }
}

/// A slot that occurs more often than another has the lower rank.
pub proof fn lemma_rank_by_frequency(frequencies: Seq<nat>, a: int, b: int)
    requires
        0 <= a < frequencies.len(),
        0 <= b < frequencies.len(),
        frequencies[a] > frequencies[b],
    ensures
        rank(frequencies, a) < rank(frequencies, b),
{
    lemma_rank_increases(frequencies, a, b);
}

/// Buckets that were put in serving order stand at their ranks: the bucket
/// at place `p` of the order is that of the slot with rank `p`, and the
/// bucket of the slot at table place `i` is found at place `rank(i)`.
pub proof fn lemma_order_by_rank(buckets: Seq<Bucket>, order: Seq<Bucket>)
    requires
        is_indexed(buckets),
        in_order(order),
        order.to_multiset() == buckets.to_multiset(),
    ensures
        order.len() == buckets.len(),
        forall|p: int|
            0 <= p < order.len() ==> {
                &&& 0 <= (#[trigger] order[p]).index < buckets.len()
                &&& order[p] == buckets[order[p].index as int]
                &&& rank(tallies(buckets), order[p].index as int) == p
            },
        forall|i: int|
            #![trigger rank(tallies(buckets), i)]
            0 <= i < buckets.len() ==> rank(tallies(buckets), i) < buckets.len() && order[rank(
                tallies(buckets),
                i,
            ) as int] == buckets[i],
{
    broadcast use {to_multiset_len, to_multiset_contains};

    let n = buckets.len();
    let f = tallies(buckets);
    assert(order.len() == n) by {
        assert(order.len() == order.to_multiset().len());
        assert(buckets.len() == buckets.to_multiset().len());
    }
    assert(buckets.no_duplicates());
    buckets.lemma_multiset_has_no_duplicates();
    order.lemma_multiset_has_no_duplicates_conv();
    // Each bucket of the order is the bucket of its slot.
    assert forall|p: int| 0 <= p < n implies 0 <= (#[trigger] order[p]).index < n && order[p]
        == buckets[order[p].index as int] by {
        assert(order.contains(order[p]));
        assert(order.to_multiset().count(order[p]) > 0);
        assert(buckets.contains(order[p]));
        let i = choose|i: int| 0 <= i < n && buckets[i] == order[p];
        assert(buckets[i].index == i);
    }
    // The slots served before the one at place `p` are those in front of it.
    assert forall|p: int| 0 <= p < n implies rank(f, (#[trigger] order[p]).index as int) == p by {
        let i = order[p].index as int;
        let front = Seq::new(p as nat, |q: int| order[q].index as int);
        assert(front.no_duplicates()) by {
            assert forall|q1: int, q2: int|
                0 <= q1 < front.len() && 0 <= q2 < front.len() && q1 != q2 implies front[q1]
                != front[q2] by {
                assert(order[q1] != order[q2]);
                assert(order[q1] == buckets[order[q1].index as int]);
                assert(order[q2] == buckets[order[q2].index as int]);
            }
        }
        front.unique_seq_to_set();
        assert(predecessors(f, i) =~= front.to_set()) by {
            assert forall|j: int| predecessors(f, i).contains(j) implies front.to_set().contains(j) by {
                assert(buckets.contains(buckets[j]));
                assert(buckets.to_multiset().count(buckets[j]) > 0);
                assert(order.contains(buckets[j]));
                let q = choose|q: int| 0 <= q < n && order[q] == buckets[j];
                assert(served_before(order[q], order[p]));
                assert(q < p);
                assert(front[q] == j);
            }
            assert forall|j: int| front.to_set().contains(j) implies predecessors(f, i).contains(j) by {
                let q = choose|q: int| 0 <= q < front.len() && front[q] == j;
                assert(order[q] == buckets[order[q].index as int]);
                assert(order[q] != order[p]);
                assert(!served_before(order[p], order[q]));
                assert(served_before(buckets[j], buckets[i]));
            }
        }
    }
    assert forall|i: int| 0 <= i < n implies #[trigger] rank(f, i) < n && order[rank(f, i) as int]
        == buckets[i] by {
        assert(buckets.contains(buckets[i]));
        assert(buckets.to_multiset().count(buckets[i]) > 0);
        assert(order.contains(buckets[i]));
        let p = choose|p: int| 0 <= p < n && order[p] == buckets[i];
        assert(rank(f, order[p].index as int) == p);
    }
}

/// Whether `a` is served before `b`.
fn goes_first(a: &Bucket, b: &Bucket) -> (first: bool)
    ensures
        first == served_before(*a, *b),
{
    a.frequency > b.frequency || (a.frequency == b.frequency && a.index < b.index)
}

/// Merges two rows of buckets, each in serving order, into one.
fn merge(left: &Vec<Bucket>, right: &Vec<Bucket>) -> (merged: Vec<Bucket>)
    requires
        in_order(left@),
        in_order(right@),
    ensures
        in_order(merged@),
        merged@.to_multiset() == left@.to_multiset().add(right@.to_multiset()),
{
    let mut merged: Vec<Bucket> = Vec::new();
    let mut i: usize = 0;
    let mut j: usize = 0;
    proof {
        assert(merged@ == left@.subrange(0, 0) + right@.subrange(0, 0));
    }
    while i < left.len() || j < right.len()
        invariant
            i <= left@.len(),
            j <= right@.len(),
            in_order(left@),
            in_order(right@),
            in_order(merged@),
            merged@.to_multiset() == (left@.subrange(0, i as int) + right@.subrange(
                0,
                j as int,
            )).to_multiset(),
            forall|k: int, p: int|
                0 <= k < merged@.len() && i <= p < left@.len() ==> !served_before(
                    #[trigger] left@[p],
                    #[trigger] merged@[k],
                ),
            forall|k: int, p: int|
                0 <= k < merged@.len() && j <= p < right@.len() ==> !served_before(
                    #[trigger] right@[p],
                    #[trigger] merged@[k],
                ),
        decreases left@.len() - i + right@.len() - j,
    {
        let from_left = if i == left.len() {
            false
        } else if j == right.len() {
            true
        } else {
            !goes_first(&right[j], &left[i])
        };
        let ghost before = merged@;
        if from_left {
            let next = left[i];
            merged.push(next);
            proof {
                let taken = left@.subrange(0, i as int) + right@.subrange(0, j as int);
                to_multiset_build(before, next);
                to_multiset_insert(taken, i as int, next);
                assert(left@.subrange(0, i + 1) + right@.subrange(0, j as int) == taken.insert(
                    i as int,
                    next,
                ));
            }
            i += 1;
        } else {
            let next = right[j];
            merged.push(next);
            proof {
                let taken = left@.subrange(0, i as int) + right@.subrange(0, j as int);
                to_multiset_build(before, next);
                to_multiset_build(taken, next);
                assert(left@.subrange(0, i as int) + right@.subrange(0, j + 1) == taken.push(next));
            }
            j += 1;
        }
    }
    proof {
        assert(left@.subrange(0, i as int) == left@);
        assert(right@.subrange(0, j as int) == right@);
        lemma_multiset_commutative(left@, right@);
    }
    merged
}

/// Puts the buckets from place `lo` up to, but not including, place `hi` in
/// serving order.
fn sort_range(buckets: &Vec<Bucket>, lo: usize, hi: usize) -> (sorted: Vec<Bucket>)
    requires
        lo <= hi <= buckets@.len(),
    ensures
        in_order(sorted@),
        sorted@.to_multiset() == buckets@.subrange(lo as int, hi as int).to_multiset(),
    decreases hi - lo,
{
    if hi - lo <= 1 {
        let mut sorted: Vec<Bucket> = Vec::new();
        if lo < hi {
            sorted.push(buckets[lo]);
        }
        proof {
            assert(sorted@ == buckets@.subrange(lo as int, hi as int));
        }
        sorted
    } else {
        let mid = lo + (hi - lo) / 2;
        let left = sort_range(buckets, lo, mid);
        let right = sort_range(buckets, mid, hi);
        proof {
            let whole = buckets@.subrange(lo as int, hi as int);
            let front = buckets@.subrange(lo as int, mid as int);
            let back = buckets@.subrange(mid as int, hi as int);
            assert(whole == front + back);
            lemma_multiset_commutative(front, back);
        }
        merge(&left, &right)
    }
}

/// Puts the buckets in serving order: the result holds the same buckets, the
/// more frequent first, and among equally frequent ones the lower slot first.
pub fn sort_buckets(buckets: &Vec<Bucket>) -> (sorted: Vec<Bucket>)
    ensures
        in_order(sorted@),
        sorted@.to_multiset() == buckets@.to_multiset(),
{
    proof {
        assert(buckets@.subrange(0, buckets@.len() as int) == buckets@);
    }
    sort_range(buckets, 0, buckets.len())
}

} // verus!
