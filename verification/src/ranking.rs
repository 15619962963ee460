//! Ordering branch indices by weight: heaviest first, and among equally heavy
//! branches the one listed first.

use vstd::prelude::*;

verus! {

/// Whether branch `a` stands before branch `b`: it is heavier, or as heavy
/// and listed earlier. On distinct indices this is a strict total order.
pub open spec fn heavier(totals: Seq<u64>, a: int, b: int) -> bool {
    totals[a] > totals[b] || (totals[a] == totals[b] && a < b)
}

/// Every index of `order` is below `n`.
pub open spec fn all_below(order: Seq<usize>, n: nat) -> bool {
    forall|k: int| 0 <= k < order.len() ==> #[trigger] order[k] < n
}

/// Each index of `order` stands before all that follow it.
pub open spec fn is_ranked(totals: Seq<u64>, order: Seq<usize>) -> bool {
    forall|j: int, k: int|
        #![trigger order[j], order[k]]
        0 <= j < k < order.len() ==> heavier(totals, order[j] as int, order[k] as int)
}

/// Tests `heavier` on two indices.
fn stands_before(totals: &Vec<u64>, a: usize, b: usize) -> (r: bool)
    requires
        a < totals.len(),
        b < totals.len(),
    ensures
        r == heavier(totals@, a as int, b as int),
{
    totals[a] > totals[b] || (totals[a] == totals[b] && a < b)
}

/// Merges two ranked runs that share no index into one ranked run.
fn merge_ranked(left: &Vec<usize>, right: &Vec<usize>, totals: &Vec<u64>) -> (out: Vec<usize>)
    requires
        all_below(left@, totals@.len()),
        all_below(right@, totals@.len()),
        is_ranked(totals@, left@),
        is_ranked(totals@, right@),
        forall|i: int, j: int|
            0 <= i < left.len() && 0 <= j < right.len() ==> #[trigger] left[i]
                != #[trigger] right[j],
    ensures
        is_ranked(totals@, out@),
        all_below(out@, totals@.len()),
        out.len() == left.len() + right.len(),
        forall|x: usize| out@.contains(x) <==> left@.contains(x) || right@.contains(x),
{
    let mut out: Vec<usize> = Vec::new();
    let mut i: usize = 0;
    let mut j: usize = 0;
    while i < left.len() || j < right.len()
        invariant
            0 <= i <= left.len(),
            0 <= j <= right.len(),
            out.len() == i + j,
            all_below(left@, totals@.len()),
            all_below(right@, totals@.len()),
            is_ranked(totals@, left@),
            is_ranked(totals@, right@),
            forall|a: int, b: int|
                0 <= a < left.len() && 0 <= b < right.len() ==> #[trigger] left[a]
                    != #[trigger] right[b],
            is_ranked(totals@, out@),
            all_below(out@, totals@.len()),
            forall|p: int, q: int|
                #![trigger out[p], left[q]]
                0 <= p < out.len() && i <= q < left.len() ==> heavier(
                    totals@,
                    out[p] as int,
                    left[q] as int,
                ),
            forall|p: int, q: int|
                #![trigger out[p], right[q]]
                0 <= p < out.len() && j <= q < right.len() ==> heavier(
                    totals@,
                    out[p] as int,
                    right[q] as int,
                ),
            forall|x: usize|
                out@.contains(x) <==> left@.take(i as int).contains(x) || right@.take(
                    j as int,
                ).contains(x),
        decreases left.len() - i + right.len() - j,
    {
        let ghost before = out@;
        let take_left: bool = if j >= right.len() {
            true
        } else if i >= left.len() {
            false
        } else {
            stands_before(totals, left[i], right[j])
        };
        if take_left {
            let x: usize = left[i];
            out.push(x);
            proof {
                assert(left@.take(i + 1) =~= left@.take(i as int).push(x));
                assert forall|y: usize|
                    out@.contains(y) <==> left@.take(i + 1).contains(y) || right@.take(
                        j as int,
                    ).contains(y) by {
                    lemma_contains_push(before, x, y);
                    lemma_contains_push(left@.take(i as int), x, y);
                }
            }
            i = i + 1;
        } else {
            let x: usize = right[j];
            out.push(x);
            proof {
                assert(right@.take(j + 1) =~= right@.take(j as int).push(x));
                assert forall|y: usize|
                    out@.contains(y) <==> left@.take(i as int).contains(y) || right@.take(
                        j + 1,
                    ).contains(y) by {
                    lemma_contains_push(before, x, y);
                    lemma_contains_push(right@.take(j as int), x, y);
                }
            }
            j = j + 1;
        }
    }
    proof {
        assert(left@.take(i as int) =~= left@);
        assert(right@.take(j as int) =~= right@);
    }
    out
}

/// What a sequence holds once `x` is pushed.
proof fn lemma_contains_push(s: Seq<usize>, x: usize, y: usize)
    ensures
        s.push(x).contains(y) <==> s.contains(y) || y == x,
{
    if s.contains(y) {
        let i = choose|i: int| 0 <= i < s.len() && s[i] == y;
        assert(s.push(x)[i] == y);
    }
    if y == x {
        assert(s.push(x)[s.len() as int] == y);
    }
}

/// Ranks the indices `candidates[lo..hi]`.
fn rank_range(candidates: &Vec<usize>, lo: usize, hi: usize, totals: &Vec<u64>) -> (order: Vec<
    usize,
>)
    requires
        lo <= hi <= candidates.len(),
        candidates@.no_duplicates(),
        all_below(candidates@, totals@.len()),
    ensures
        is_ranked(totals@, order@),
        all_below(order@, totals@.len()),
        order.len() == hi - lo,
        forall|x: usize|
            order@.contains(x) <==> candidates@.subrange(lo as int, hi as int).contains(x),
    decreases hi - lo,
{
    let ghost whole = candidates@.subrange(lo as int, hi as int);
    if hi - lo == 0 {
        let order: Vec<usize> = Vec::new();
        assert(forall|x: usize| !order@.contains(x));
        assert(forall|x: usize| !whole.contains(x));
        order
    } else if hi - lo == 1 {
        let mut order: Vec<usize> = Vec::new();
        order.push(candidates[lo]);
        assert(order@ =~= whole);
        order
    } else {
        let mid: usize = lo + (hi - lo) / 2;
        let left = rank_range(candidates, lo, mid, totals);
        let right = rank_range(candidates, mid, hi, totals);
        let ghost first = candidates@.subrange(lo as int, mid as int);
        let ghost second = candidates@.subrange(mid as int, hi as int);
        proof {
            assert forall|i: int, j: int|
                0 <= i < left.len() && 0 <= j < right.len() implies #[trigger] left[i]
                != #[trigger] right[j] by {
                assert(left@.contains(left[i]));
                assert(right@.contains(right[j]));
                let a = choose|a: int| 0 <= a < first.len() && first[a] == left[i];
                let b = choose|b: int| 0 <= b < second.len() && second[b] == right[j];
                assert(candidates@[lo + a] == left[i]);
                assert(candidates@[mid + b] == right[j]);
            }
        }
        let order = merge_ranked(&left, &right, totals);
        proof {
            assert(whole =~= first + second);
            assert forall|x: usize| order@.contains(x) <==> whole.contains(x) by {
                if first.contains(x) {
                    let a = choose|a: int| 0 <= a < first.len() && first[a] == x;
                    assert(whole[a] == x);
                }
                if second.contains(x) {
                    let b = choose|b: int| 0 <= b < second.len() && second[b] == x;
                    assert(whole[first.len() + b] == x);
                }
                if whole.contains(x) {
                    let c = choose|c: int| 0 <= c < whole.len() && whole[c] == x;
                    if c < first.len() {
                        assert(first[c] == x);
                    } else {
                        assert(second[c - first.len()] == x);
                    }
                }
            }
        }
        order
    }
}

/// Ranks distinct branch indices by their totals: heaviest first, ties in
/// rising index. The result holds exactly the indices of `candidates`.
pub fn rank_by_total(candidates: &Vec<usize>, totals: &Vec<u64>) -> (order: Vec<usize>)
    requires
        candidates@.no_duplicates(),
        all_below(candidates@, totals@.len()),
    ensures
        is_ranked(totals@, order@),
        all_below(order@, totals@.len()),
        order.len() == candidates.len(),
        forall|x: usize| order@.contains(x) <==> candidates@.contains(x),
{
    proof {
        assert(candidates@.subrange(0, candidates.len() as int) =~= candidates@);
    }
    rank_range(candidates, 0, candidates.len(), totals)
}

} // verus!
