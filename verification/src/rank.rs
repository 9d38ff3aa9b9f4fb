//! Ranking surviving candidates by popularity.
//!
//! Candidates are presented in descending order of a caller-supplied
//! popularity score, ties kept in the candidates' given order. The ranker
//! works on the score table alone and returns the presentation order as a
//! permutation of the candidate indices, which pins the result uniquely:
//! there is exactly one stable descending arrangement.

use vstd::prelude::*;

verus! {

/// Whether position `a` of the score table comes no later than position
/// `b` in a stable descending presentation: a strictly higher score, or an
/// equal score at an earlier position.
pub open spec fn ahead_of(scores: Seq<u64>, a: int, b: int) -> bool {
    scores[a] > scores[b] || (scores[a] == scores[b] && a < b)
}

/// Whether `order` lists every index of the score table exactly once, in
/// descending order of score with ties in index order.
pub open spec fn rank_ordered(scores: Seq<u64>, order: Seq<usize>) -> bool {
    &&& order.len() == scores.len()
    &&& (forall|a: int| 0 <= a < order.len() ==> (#[trigger] order[a]) < scores.len())
    &&& (forall|a: int, b: int|
        0 <= a < b < order.len() ==> ahead_of(scores, #[trigger] order[a] as int, #[trigger] order[b] as int))
    &&& (forall|a: int, b: int|
        0 <= a < order.len() && 0 <= b < order.len() && a != b ==> #[trigger] order[a]
            != #[trigger] order[b])
}

/// How many of the first `n` entries of `used` are set.
spec fn count_used(used: Seq<bool>, n: int) -> nat
    decreases n,
{
    if n <= 0 || n > used.len() {
        0
    } else {
        count_used(used, n - 1) + (if used[n - 1] {
            1nat
        } else {
            0nat
        })
    }
}

/// Setting one clear entry raises the number of set entries by one.
proof fn lemma_count_used_update(used: Seq<bool>, j: int, n: int)
    requires
        0 <= j < used.len(),
        n <= used.len(),
        !used[j],
    ensures
        count_used(used.update(j, true), n) == count_used(used, n) + (if j < n {
            1nat
        } else {
            0nat
        }),
    decreases n,
{
    if n > 0 {
        lemma_count_used_update(used, j, n - 1);
    }
}

/// When every entry is set, the count says so.
proof fn lemma_count_used_full(used: Seq<bool>, n: int)
    requires
        n <= used.len(),
        forall|m: int| 0 <= m < n ==> #[trigger] used[m],
    ensures
        count_used(used, n) == n || n < 0,
    decreases n,
{
    if n > 0 {
        lemma_count_used_full(used, n - 1);
    }
}

/// Returns the order in which the scored candidates should be presented:
/// a permutation of their indices, descending by score, ties kept in the
/// candidates' given order.
pub fn rank_order(scores: &Vec<u64>) -> (order: Vec<usize>)
    ensures
        rank_ordered(scores@, order@),
{
    let n = scores.len();
    let mut used: Vec<bool> = Vec::new();
    let mut i: usize = 0;
    while i < n
        invariant
            i <= n,
            used@.len() == i,
            forall|m: int| 0 <= m < i ==> !(#[trigger] used@[m]),
        decreases n - i,
    {
        used.push(false);
        i += 1;
    }
    proof {
        lemma_count_used_zero(used@, n as int);
    }
    let mut order: Vec<usize> = Vec::new();
    let mut k: usize = 0;
    while k < n
        invariant
            k <= n,
            n == scores@.len(),
            used@.len() == n,
            order@.len() == k,
            count_used(used@, n as int) == k,
            forall|a: int| 0 <= a < k ==> (#[trigger] order@[a]) < n,
            forall|a: int| 0 <= a < k ==> used@[order@[a] as int],
            forall|a: int, b: int|
                0 <= a < k && 0 <= b < k && a != b ==> #[trigger] order@[a] != #[trigger] order@[b],
            forall|a: int, b: int|
                0 <= a < b < k ==> ahead_of(
                    scores@,
                    #[trigger] order@[a] as int,
                    #[trigger] order@[b] as int,
                ),
            forall|a: int, j: int|
                #![trigger order@[a], used@[j]]
                0 <= a < k && 0 <= j < n && !used@[j] ==> ahead_of(scores@, order@[a] as int, j),
        decreases n - k,
    {
        let mut best: usize = n;
        let mut j: usize = 0;
        while j < n
            invariant
                j <= n,
                n == scores@.len(),
                used@.len() == n,
                best == n || (best < j && !used@[best as int]),
                best == n ==> forall|m: int| 0 <= m < j ==> #[trigger] used@[m],
                best < n ==> forall|m: int|
                    0 <= m < j && !used@[m] ==> (scores@[best as int] > scores@[m] || (
                    scores@[best as int] == scores@[m] && best <= m)),
            decreases n - j,
        {
            if !used[j] {
                if best == n || scores[j] > scores[best] {
                    best = j;
                }
            }
            j += 1;
        }
        if best == n {
            proof {
                lemma_count_used_full(used@, n as int);
                assert(false);
            }
        }
        let ghost pre_order = order@;
        let ghost pre_used = used@;
        order.push(best);
        used.set(best, true);
        proof {
            lemma_count_used_update(pre_used, best as int, n as int);
            assert forall|a: int, j2: int|
                #![trigger order@[a], used@[j2]]
                0 <= a < k + 1 && 0 <= j2 < n && !used@[j2] implies ahead_of(
                scores@,
                order@[a] as int,
                j2,
            ) by {
                assert(!pre_used[j2]);
                if a < k {
                    assert(order@[a] == pre_order[a]);
                } else {
                    assert(order@[a] == best);
                }
            }
            assert forall|a: int, b: int| 0 <= a < b < k + 1 implies ahead_of(
                scores@,
                #[trigger] order@[a] as int,
                #[trigger] order@[b] as int,
            ) by {
                if b == k {
                    assert(!pre_used[best as int]);
                    assert(ahead_of(scores@, pre_order[a] as int, best as int));
                }
            }
        }
        k += 1;
    }
    order
}

/// An all-clear table has no set entries.
proof fn lemma_count_used_zero(used: Seq<bool>, n: int)
    requires
        n <= used.len(),
        forall|m: int| 0 <= m < n ==> !(#[trigger] used[m]),
    ensures
        count_used(used, n) == 0,
    decreases n,
{
    if n > 0 {
        lemma_count_used_zero(used, n - 1);
    }
}

} // verus!
