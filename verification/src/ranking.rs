//! Ranking by popularity.
//!
//! A ranking of a sequence of popularity scores lists the positions of the
//! sequence from the most popular to the least popular. Positions that carry
//! the same score keep the order in which they stand in the sequence, so the
//! ranking of a sequence is unique.

use vstd::prelude::*;

verus! {

/// Position `a` comes before position `b` in the ranking of `pops`: it has
/// the higher score, or the same score and it stands earlier.
pub open spec fn ranks_before(pops: Seq<u32>, a: int, b: int) -> bool {
    pops[a] > pops[b] || (pops[a] == pops[b] && a < b)
}

/// Each entry of `order` ranks before all entries that follow it.
pub open spec fn is_ranked(pops: Seq<u32>, order: Seq<int>) -> bool {
    forall|k1: int, k2: int|
        0 <= k1 < k2 < order.len() ==> ranks_before(pops, #[trigger] order[k1], #[trigger] order[k2])
}

/// `order` is the ranking of `pops`: every position of `pops` occurs in it,
/// and each entry ranks before all entries that follow it.
pub open spec fn is_ranking(pops: Seq<u32>, order: Seq<int>) -> bool {
    &&& order.len() == pops.len()
    &&& forall|k: int| 0 <= k < order.len() ==> 0 <= (#[trigger] order[k]) < pops.len()
    &&& forall|i: int| 0 <= i < pops.len() ==> #[trigger] order.contains(i)
    &&& is_ranked(pops, order)
}

/// The ranking of `pops`: the one sequence of which `is_ranking` holds. That
/// there is one is `lemma_ranking_exists`, that there is no other is
/// `lemma_ranking_unique`.
pub open spec fn rank_order(pops: Seq<u32>) -> Seq<int> {
    choose|order: Seq<int>| is_ranking(pops, order)
}

/// The scores along a ranking never increase.
pub proof fn lemma_ranking_descends(pops: Seq<u32>, order: Seq<int>)
    requires
        is_ranking(pops, order),
    ensures
        forall|k1: int, k2: int|
            0 <= k1 <= k2 < order.len() ==> pops[#[trigger] order[k1]] >= pops[#[trigger] order[k2]],
{
    assert forall|k1: int, k2: int| 0 <= k1 <= k2 < order.len() implies pops[#[trigger] order[k1]]
        >= pops[#[trigger] order[k2]] by {
        if k1 < k2 {
            assert(ranks_before(pops, order[k1], order[k2]));
        }
    }
}

/// No position occurs twice in a ranking.
pub proof fn lemma_ranking_distinct(pops: Seq<u32>, order: Seq<int>)
    requires
        is_ranking(pops, order),
    ensures
        forall|k1: int, k2: int|
            0 <= k1 < order.len() && 0 <= k2 < order.len() && k1 != k2 ==> #[trigger] order[k1]
                != #[trigger] order[k2],
{
    assert forall|k1: int, k2: int|
        0 <= k1 < order.len() && 0 <= k2 < order.len() && k1 != k2 implies #[trigger] order[k1]
        != #[trigger] order[k2] by {
        if k1 < k2 {
            assert(ranks_before(pops, order[k1], order[k2]));
        } else {
            assert(ranks_before(pops, order[k2], order[k1]));
        }
    }
}

/// Two ranked sequences with the same entries agree on their first `n`
/// entries.
proof fn lemma_ranked_agree(pops: Seq<u32>, a: Seq<int>, b: Seq<int>, n: nat)
    requires
        is_ranked(pops, a),
        is_ranked(pops, b),
        forall|x: int| a.contains(x) <==> b.contains(x),
        n <= a.len(),
        n <= b.len(),
    ensures
        forall|k: int| 0 <= k < n ==> a[k] == b[k],
    decreases n,
{
    if n > 0 {
        lemma_ranked_agree(pops, a, b, (n - 1) as nat);
        let k: int = n - 1;
        assert(a.contains(a[k]) && b.contains(b[k]));
        let in_b: int = choose|m: int| 0 <= m < b.len() && b[m] == a[k];
        let in_a: int = choose|m: int| 0 <= m < a.len() && a[m] == b[k];
        if in_b < k {
            assert(a[in_b] == b[in_b]);
            assert(ranks_before(pops, a[in_b], a[k]));
        }
        if in_a < k {
            assert(b[in_a] == a[in_a]);
            assert(ranks_before(pops, b[in_a], b[k]));
        }
        if in_b > k && in_a > k {
            assert(ranks_before(pops, b[k], b[in_b]));
            assert(ranks_before(pops, a[k], a[in_a]));
        }
        assert(a[k] == b[k]);
    }
}

/// Ranking leaves no choice: two ranked sequences with the same entries are
/// the same sequence.
pub proof fn lemma_ranked_unique(pops: Seq<u32>, a: Seq<int>, b: Seq<int>)
    requires
        is_ranked(pops, a),
        is_ranked(pops, b),
        forall|x: int| a.contains(x) <==> b.contains(x),
    ensures
        a == b,
{
    let n: nat = if a.len() <= b.len() {
        a.len()
    } else {
        b.len()
    };
    lemma_ranked_agree(pops, a, b, n);
    if a.len() < b.len() {
        let extra = b[n as int];
        assert(b.contains(extra));
        let m: int = choose|m: int| 0 <= m < a.len() && a[m] == extra;
        assert(b[m] == a[m]);
        assert(ranks_before(pops, b[m], b[n as int]));
    }
    if b.len() < a.len() {
        let extra = a[n as int];
        assert(a.contains(extra));
        let m: int = choose|m: int| 0 <= m < b.len() && b[m] == extra;
        assert(a[m] == b[m]);
        assert(ranks_before(pops, a[m], a[n as int]));
    }
    assert(a =~= b);
}

/// A sequence of scores has at most one ranking.
pub proof fn lemma_ranking_unique(pops: Seq<u32>, a: Seq<int>, b: Seq<int>)
    requires
        is_ranking(pops, a),
        is_ranking(pops, b),
    ensures
        a == b,
{
    assert forall|x: int| a.contains(x) <==> b.contains(x) by {
        if a.contains(x) {
            let k: int = choose|k: int| 0 <= k < a.len() && a[k] == x;
            assert(0 <= a[k] < pops.len());
        }
        if b.contains(x) {
            let k: int = choose|k: int| 0 <= k < b.len() && b[k] == x;
            assert(0 <= b[k] < pops.len());
        }
    }
    lemma_ranked_unique(pops, a, b);
}

/// Placing the next position into the ranking of the scores before it gives
/// the ranking of the longer sequence, provided the entries in front of the
/// place score at least as high and the entries behind it score lower.
proof fn lemma_ranking_insert(pops: Seq<u32>, order: Seq<int>, n: int, at: int)
    requires
        0 <= n < pops.len(),
        is_ranking(pops.take(n), order),
        0 <= at <= order.len(),
        forall|k: int| 0 <= k < at ==> pops[#[trigger] order[k]] >= pops[n],
        forall|k: int| at <= k < order.len() ==> pops[#[trigger] order[k]] < pops[n],
    ensures
        is_ranking(pops.take(n + 1), order.insert(at, n)),
{
    let before = pops.take(n);
    let after = pops.take(n + 1);
    let grown = order.insert(at, n);
    order.insert_ensures(at, n);
    assert forall|k: int| 0 <= k < grown.len() implies 0 <= (#[trigger] grown[k]) < after.len() by {
        if k < at {
            assert(grown[k] == order[k]);
        } else if k > at {
            assert(grown[k] == order[k - 1]);
        }
    }
    assert forall|i: int| 0 <= i < after.len() implies #[trigger] grown.contains(i) by {
        if i == n {
            assert(grown[at] == i);
        } else {
            assert(order.contains(i));
            let k: int = choose|k: int| 0 <= k < order.len() && order[k] == i;
            if k < at {
                assert(grown[k] == i);
            } else {
                assert(grown[k + 1] == order[k]);
            }
        }
    }
    assert forall|k1: int, k2: int| 0 <= k1 < k2 < grown.len() implies ranks_before(
        after,
        #[trigger] grown[k1],
        #[trigger] grown[k2],
    ) by {
        let o1: int = if k1 < at { k1 } else { k1 - 1 };
        let o2: int = if k2 < at { k2 } else { k2 - 1 };
        if k1 != at {
            assert(grown[k1] == order[o1]);
            assert(0 <= order[o1] < before.len());
        }
        if k2 != at {
            assert(grown[k2] == order[o2]);
            assert(0 <= order[o2] < before.len());
        }
        if k1 != at && k2 != at {
            assert(ranks_before(before, order[o1], order[o2]));
        }
    }
}

/// Every sequence of scores has a ranking.
pub proof fn lemma_ranking_exists(pops: Seq<u32>)
    ensures
        is_ranking(pops, rank_order(pops)),
    decreases pops.len(),
{
    if pops.len() == 0 {
        assert(is_ranking(pops, Seq::<int>::empty()));
    } else {
        let n: int = pops.len() - 1;
        let shorter = pops.take(n);
        lemma_ranking_exists(shorter);
        let order = rank_order(shorter);
        let at: int = lemma_split_point(pops, order, pops[n]);
        lemma_ranking_insert(pops, order, n, at);
        assert(pops.take(n + 1) =~= pops);
        assert(is_ranking(pops, order.insert(at, n)));
    }
}

/// In a sequence whose scores never increase there is a place that has all
/// scores of at least `score` in front of it and all lower scores behind it.
proof fn lemma_split_point(pops: Seq<u32>, order: Seq<int>, score: u32) -> (at: int)
    requires
        forall|k: int| 0 <= k < order.len() ==> 0 <= (#[trigger] order[k]) < pops.len(),
        forall|k1: int, k2: int|
            0 <= k1 < k2 < order.len() ==> pops[#[trigger] order[k1]] >= pops[#[trigger] order[k2]],
    ensures
        0 <= at <= order.len(),
        forall|k: int| 0 <= k < at ==> pops[#[trigger] order[k]] >= score,
        forall|k: int| at <= k < order.len() ==> pops[#[trigger] order[k]] < score,
    decreases order.len(),
{
    if order.len() == 0 {
        0
    } else if pops[order.last()] >= score {
        assert forall|k: int| 0 <= k < order.len() implies pops[#[trigger] order[k]]
            >= score by {
            if k < order.len() - 1 {
                assert(pops[order[k]] >= pops[order[order.len() - 1]]);
            }
        }
        order.len() as int
    } else {
        let front = order.drop_last();
        assert forall|k1: int, k2: int| 0 <= k1 < k2 < front.len() implies pops[#[trigger] front[k1]]
            >= pops[#[trigger] front[k2]] by {
            assert(front[k1] == order[k1] && front[k2] == order[k2]);
        }
        let at: int = lemma_split_point(pops, front, score);
        assert forall|k: int| 0 <= k < at implies pops[#[trigger] order[k]] >= score by {
            assert(order[k] == front[k]);
        }
        assert forall|k: int| at <= k < order.len() implies pops[#[trigger] order[k]]
            < score by {
            if k < front.len() {
                assert(order[k] == front[k]);
            }
        }
        at
    }
}

/// The positions that a vector of indices stands for.
pub open spec fn positions(order: Seq<usize>) -> Seq<int> {
    order.map_values(|p: usize| p as int)
}

/// `order` ranks the positions from `lo` up to, but not including, `hi`:
/// each of them occurs in it, and each entry ranks before all entries that
/// follow it.
pub open spec fn ranks_range(pops: Seq<u32>, lo: int, hi: int, order: Seq<usize>) -> bool {
    &&& order.len() == hi - lo
    &&& forall|k: int| 0 <= k < order.len() ==> lo <= (#[trigger] order[k]) < hi
    &&& forall|i: usize| lo <= i < hi ==> #[trigger] order.contains(i)
    &&& forall|k1: int, k2: int|
        0 <= k1 < k2 < order.len() ==> ranks_before(
            pops,
            #[trigger] order[k1] as int,
            #[trigger] order[k2] as int,
        )
}

/// A ranking of all positions, written with machine indices, is a ranking.
proof fn lemma_ranks_whole(pops: Seq<u32>, order: Seq<usize>)
    requires
        ranks_range(pops, 0, pops.len() as int, order),
        pops.len() <= usize::MAX,
    ensures
        is_ranking(pops, positions(order)),
{
    let ranked = positions(order);
    assert forall|i: int| 0 <= i < pops.len() implies #[trigger] ranked.contains(i) by {
        assert(order.contains(i as usize));
        let k: int = choose|k: int| 0 <= k < order.len() && order[k] == i as usize;
        assert(ranked[k] == i);
    }
    assert forall|k1: int, k2: int| 0 <= k1 < k2 < ranked.len() implies ranks_before(
        pops,
        #[trigger] ranked[k1],
        #[trigger] ranked[k2],
    ) by {
        assert(ranks_before(pops, order[k1] as int, order[k2] as int));
    }
}

/// Merges the ranking of the positions from `lo` to `mid` with the ranking
/// of the positions from `mid` to `hi`. Of two entries with the same score
/// the one from the lower range goes first.
fn merge_ranked(
    pops: &Vec<u32>,
    left: &Vec<usize>,
    right: &Vec<usize>,
    lo: usize,
    mid: usize,
    hi: usize,
) -> (merged: Vec<usize>)
    requires
        lo <= mid <= hi <= pops@.len(),
        ranks_range(pops@, lo as int, mid as int, left@),
        ranks_range(pops@, mid as int, hi as int, right@),
    ensures
        ranks_range(pops@, lo as int, hi as int, merged@),
{
    let mut merged: Vec<usize> = Vec::new();
    let mut i: usize = 0;
    let mut j: usize = 0;
    while i < left.len() || j < right.len()
        invariant
            lo <= mid <= hi <= pops@.len(),
            ranks_range(pops@, lo as int, mid as int, left@),
            ranks_range(pops@, mid as int, hi as int, right@),
            i <= left@.len(),
            j <= right@.len(),
            merged@.len() == i + j,
            forall|m: int| 0 <= m < merged@.len() ==> lo <= (#[trigger] merged@[m]) < hi,
            forall|k: int| 0 <= k < i ==> merged@.contains(#[trigger] left@[k]),
            forall|k: int| 0 <= k < j ==> merged@.contains(#[trigger] right@[k]),
            forall|m1: int, m2: int|
                0 <= m1 < m2 < merged@.len() ==> ranks_before(
                    pops@,
                    #[trigger] merged@[m1] as int,
                    #[trigger] merged@[m2] as int,
                ),
            forall|m: int, k: int|
                0 <= m < merged@.len() && i <= k < left@.len() ==> ranks_before(
                    pops@,
                    #[trigger] merged@[m] as int,
                    #[trigger] left@[k] as int,
                ),
            forall|m: int, k: int|
                0 <= m < merged@.len() && j <= k < right@.len() ==> ranks_before(
                    pops@,
                    #[trigger] merged@[m] as int,
                    #[trigger] right@[k] as int,
                ),
        decreases left@.len() - i + right@.len() - j,
    {
        let ghost before = merged@;
        let from_left: bool = if j == right.len() {
            true
        } else if i == left.len() {
            false
        } else {
            pops[left[i]] >= pops[right[j]]
        };
        if from_left {
            let next: usize = left[i];
            merged.push(next);
            proof {
                assert forall|k: int| i + 1 <= k < left@.len() implies ranks_before(
                    pops@,
                    next as int,
                    #[trigger] left@[k] as int,
                ) by {
                    assert(ranks_before(pops@, left@[i as int] as int, left@[k] as int));
                }
                assert forall|k: int| j <= k < right@.len() implies ranks_before(
                    pops@,
                    next as int,
                    #[trigger] right@[k] as int,
                ) by {
                    assert(next < mid <= right@[k]);
                    if k > j {
                        assert(ranks_before(pops@, right@[j as int] as int, right@[k] as int));
                    }
                }
                lemma_pushed(pops@, before, next, merged@);
                assert forall|k: int| 0 <= k < i + 1 implies merged@.contains(
                    #[trigger] left@[k],
                ) by {
                    if k < i {
                        assert(before.contains(left@[k]));
                        let m: int = choose|m: int| 0 <= m < before.len() && before[m] == left@[k];
                        assert(merged@[m] == left@[k]);
                    } else {
                        assert(merged@[before.len() as int] == left@[k]);
                    }
                }
                assert forall|k: int| 0 <= k < j implies merged@.contains(#[trigger] right@[k]) by {
                    assert(before.contains(right@[k]));
                    let m: int = choose|m: int| 0 <= m < before.len() && before[m] == right@[k];
                    assert(merged@[m] == right@[k]);
                }
            }
            i += 1;
        } else {
            let next: usize = right[j];
            merged.push(next);
            proof {
                assert forall|k: int| j + 1 <= k < right@.len() implies ranks_before(
                    pops@,
                    next as int,
                    #[trigger] right@[k] as int,
                ) by {
                    assert(ranks_before(pops@, right@[j as int] as int, right@[k] as int));
                }
                assert forall|k: int| i <= k < left@.len() implies ranks_before(
                    pops@,
                    next as int,
                    #[trigger] left@[k] as int,
                ) by {
                    if k > i {
                        assert(ranks_before(pops@, left@[i as int] as int, left@[k] as int));
                    }
                }
                lemma_pushed(pops@, before, next, merged@);
                assert forall|k: int| 0 <= k < j + 1 implies merged@.contains(
                    #[trigger] right@[k],
                ) by {
                    if k < j {
                        assert(before.contains(right@[k]));
                        let m: int = choose|m: int| 0 <= m < before.len() && before[m] == right@[k];
                        assert(merged@[m] == right@[k]);
                    } else {
                        assert(merged@[before.len() as int] == right@[k]);
                    }
                }
                assert forall|k: int| 0 <= k < i implies merged@.contains(#[trigger] left@[k]) by {
                    assert(before.contains(left@[k]));
                    let m: int = choose|m: int| 0 <= m < before.len() && before[m] == left@[k];
                    assert(merged@[m] == left@[k]);
                }
            }
            j += 1;
        }
    }
    proof {
        assert forall|p: usize| lo <= p < hi implies #[trigger] merged@.contains(p) by {
            if p < mid {
                assert(left@.contains(p));
                let k: int = choose|k: int| 0 <= k < left@.len() && left@[k] == p;
                assert(merged@.contains(left@[k]));
            } else {
                assert(right@.contains(p));
                let k: int = choose|k: int| 0 <= k < right@.len() && right@[k] == p;
                assert(merged@.contains(right@[k]));
            }
        }
    }
    merged
}

/// An entry that ranks behind all entries of a ranked sequence keeps the
/// sequence ranked when it is put at its end.
proof fn lemma_pushed(pops: Seq<u32>, before: Seq<usize>, next: usize, after: Seq<usize>)
    requires
        after == before.push(next),
        forall|m1: int, m2: int|
            0 <= m1 < m2 < before.len() ==> ranks_before(
                pops,
                #[trigger] before[m1] as int,
                #[trigger] before[m2] as int,
            ),
        forall|m: int|
            0 <= m < before.len() ==> ranks_before(pops, #[trigger] before[m] as int, next as int),
    ensures
        forall|m1: int, m2: int|
            0 <= m1 < m2 < after.len() ==> ranks_before(
                pops,
                #[trigger] after[m1] as int,
                #[trigger] after[m2] as int,
            ),
{
    assert forall|m1: int, m2: int| 0 <= m1 < m2 < after.len() implies ranks_before(
        pops,
        #[trigger] after[m1] as int,
        #[trigger] after[m2] as int,
    ) by {
        assert(after[m1] == before[m1]);
        if m2 < before.len() {
            assert(after[m2] == before[m2]);
        }
    }
}

/// Ranks the positions from `lo` up to, but not including, `hi`.
fn rank_range(pops: &Vec<u32>, lo: usize, hi: usize) -> (order: Vec<usize>)
    requires
        lo <= hi <= pops@.len(),
    ensures
        ranks_range(pops@, lo as int, hi as int, order@),
    decreases hi - lo,
{
    let mut order: Vec<usize> = Vec::new();
    if hi - lo == 0 {
        return order;
    }
    if hi - lo == 1 {
        order.push(lo);
        assert(order@[0] == lo);
        return order;
    }
    let mid: usize = lo + (hi - lo) / 2;
    let left = rank_range(pops, lo, mid);
    let right = rank_range(pops, mid, hi);
    merge_ranked(pops, &left, &right, lo, mid, hi)
}

/// Ranks the positions of `pops` from the most popular to the least popular;
/// positions with the same score stay in the order in which they stand.
pub fn rank_positions(pops: &Vec<u32>) -> (order: Vec<usize>)
    ensures
        is_ranking(pops@, positions(order@)),
        positions(order@) == rank_order(pops@),
{
    let order = rank_range(pops, 0, pops.len());
    proof {
        lemma_ranks_whole(pops@, order@);
        lemma_ranking_exists(pops@);
        lemma_ranking_unique(pops@, positions(order@), rank_order(pops@));
    }
    order
}

} // verus!
