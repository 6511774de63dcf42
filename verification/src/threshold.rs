//! Percentile-based threshold estimation.
//!
//! The silence boundary is not a fixed amplitude: it is the q-th percentile
//! of the stream's own positive samples, so the cut adapts to how loud the
//! recording is overall. The estimator sorts the positive samples ascending
//! and picks the element at index `q * (n + 1) / 100`, truncated, clamped to
//! the last element when the raw index runs past the end.

use vstd::prelude::*;
use vstd::relations::{sorted_by, total_ordering};
use vstd::seq_lib::group_to_multiset_ensures;
use vstd::seq_lib::lemma_sorted_unique;

verus! {

/// The ordering by which amplitudes are sorted.
pub open spec fn amp_leq() -> spec_fn(i64, i64) -> bool {
    |x: i64, y: i64| x <= y
}

/// The ascending reordering of `s`.
pub open spec fn sorted_amplitudes(s: Seq<i64>) -> Seq<i64> {
    s.sort_by(amp_leq())
}

/// The index that the q-th percentile names in a sorted sequence of length
/// `n`: `q * (n + 1) / 100` truncated, clamped to the last element.
pub open spec fn percentile_index(n: nat, q: nat) -> int {
    let raw = q * (n + 1) / 100;
    if raw < n {
        raw as int
    } else {
        n - 1
    }
}

/// The q-th percentile of `s`: the element at the percentile index after
/// sorting ascending.
pub open spec fn spec_percentile(s: Seq<i64>, q: nat) -> i64
    recommends
        s.len() > 0,
{
    sorted_amplitudes(s)[percentile_index(s.len(), q)]
}

proof fn lemma_amp_leq_total()
    ensures
        total_ordering(amp_leq()),
{
}

/// What sorting promises: the result is ascending, holds exactly the same
/// amplitudes with the same duplicates, and keeps the length.
pub proof fn lemma_sorted_amplitudes(s: Seq<i64>)
    ensures
        sorted_by(sorted_amplitudes(s), amp_leq()),
        sorted_amplitudes(s).to_multiset() == s.to_multiset(),
        sorted_amplitudes(s).len() == s.len(),
{
    broadcast use group_to_multiset_ensures;

    s.lemma_sort_by_ensures(amp_leq());
    assert(sorted_amplitudes(s).to_multiset().len() == sorted_amplitudes(s).len());
    assert(s.to_multiset().len() == s.len());
}

/// Sorts amplitudes ascending by insertion into a sorted prefix.
pub fn sort_amplitudes(arr: &Vec<i64>) -> (r: Vec<i64>)
    ensures
        r@ == sorted_amplitudes(arr@),
{
    broadcast use group_to_multiset_ensures;

    let mut r: Vec<i64> = Vec::new();
    let mut i: usize = 0;
    proof {
        assert(arr@.take(0int) =~= Seq::<i64>::empty());
        assert(r@.to_multiset() =~= arr@.take(0int).to_multiset());
    }
    while i < arr.len()
        invariant
            i <= arr.len(),
            forall|a: int, b: int| 0 <= a < b < r@.len() ==> r@[a] <= r@[b],
            r@.to_multiset() == arr@.take(i as int).to_multiset(),
        decreases arr.len() - i,
    {
        let x = arr[i];
        let mut pos: usize = 0;
        while pos < r.len() && r[pos] <= x
            invariant
                pos <= r.len(),
                forall|j: int| 0 <= j < pos ==> r@[j] <= x,
            decreases r.len() - pos,
        {
            pos += 1;
        }
        let ghost prev = r@;
        r.insert(pos, x);
        proof {
            assert forall|a: int, b: int| 0 <= a < b < r@.len() implies r@[a] <= r@[b] by {
                if b < pos {
                    assert(r@[a] == prev[a] && r@[b] == prev[b]);
                } else if a > pos {
                    assert(r@[a] == prev[a - 1] && r@[b] == prev[b - 1]);
                } else if a < pos && b == pos {
                    assert(r@[a] == prev[a] && r@[b] == x);
                } else if a == pos && b > pos {
                    assert(r@[a] == x && r@[b] == prev[b - 1]);
                    assert(pos < prev.len() && x < prev[pos as int]);
                } else if a < pos && b > pos {
                    assert(r@[a] == prev[a] && r@[b] == prev[b - 1]);
                }
            }
            assert(r@ == prev.insert(pos as int, x));
            vstd::seq_lib::to_multiset_insert(prev, pos as int, x);
            let ghost taken = arr@.take(i as int);
            vstd::seq_lib::to_multiset_build(taken, x);
            assert(arr@.take(i as int + 1) =~= taken.push(x));
            assert(r@.to_multiset() =~= arr@.take(i as int + 1).to_multiset());
        }
        i += 1;
    }
    proof {
        assert(arr@.take(arr@.len() as int) =~= arr@);
        lemma_amp_leq_total();
        arr@.lemma_sort_by_ensures(amp_leq());
        assert(sorted_by(r@, amp_leq()));
        lemma_sorted_unique(r@, sorted_amplitudes(arr@), amp_leq());
        assert(r@ =~= sorted_amplitudes(arr@));
    }
    r
}

/// The q-th percentile of the amplitudes in `arr`.
pub fn percentile(arr: &Vec<i64>, q: u32) -> (r: i64)
    requires
        arr.len() > 0,
        q <= 100,
        100 * (arr@.len() + 1) <= u64::MAX,
    ensures
        r == spec_percentile(arr@, q as nat),
{
    let sorted = sort_amplitudes(arr);
    proof {
        lemma_sorted_amplitudes(arr@);
    }
    proof {
        vstd::arithmetic::mul::lemma_mul_inequality(q as int, 100, arr@.len() as int + 1);
    }
    let raw: u64 = (q as u64) * (arr.len() as u64 + 1) / 100;
    let idx: usize = if raw < sorted.len() as u64 {
        raw as usize
    } else {
        sorted.len() - 1
    };
    sorted[idx]
}

/// Raising the percentile never lowers the threshold: for `q1 <= q2`, the
/// q1-th percentile of any amplitude sequence is at most its q2-th
/// percentile.
pub proof fn lemma_percentile_monotone(s: Seq<i64>, q1: nat, q2: nat)
    requires
        s.len() > 0,
        q1 <= q2,
    ensures
        spec_percentile(s, q1) <= spec_percentile(s, q2),
{
    lemma_sorted_amplitudes(s);
    let n = s.len();
    vstd::arithmetic::mul::lemma_mul_inequality(q1 as int, q2 as int, n as int + 1);
    vstd::arithmetic::div_mod::lemma_div_is_ordered(
        q1 as int * (n as int + 1),
        q2 as int * (n as int + 1),
        100,
    );
    let i1 = percentile_index(n, q1);
    let i2 = percentile_index(n, q2);
    assert(0 <= i1 <= i2 < n);
    if i1 < i2 {
        assert(amp_leq()(sorted_amplitudes(s)[i1], sorted_amplitudes(s)[i2]));
    }
}

} // verus!
