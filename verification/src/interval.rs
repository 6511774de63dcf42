//! Half-open sample-index ranges and their well-formedness.

use vstd::prelude::*;

verus! {

/// A half-open range `[start, stop)` of sample indices.
#[derive(Clone, Copy, Debug, PartialEq, Eq, Structural)]
pub struct Interval {
    pub start: usize,
    pub stop: usize,
}

/// A well-formed interval set over a stream of `n` samples: every interval
/// is non-empty and ends within the stream, and the set is sorted with no
/// two intervals overlapping.
pub open spec fn valid_intervals(ivs: Seq<Interval>, n: nat) -> bool {
    &&& forall|k: int| 0 <= k < ivs.len() ==> (#[trigger] ivs[k]).start < ivs[k].stop <= n
    &&& forall|k: int, l: int|
        0 <= k < l < ivs.len() ==> (#[trigger] ivs[k]).stop <= (#[trigger] ivs[l]).start
}

/// Whether sample index `x` falls inside one of the intervals.
pub open spec fn in_intervals(ivs: Seq<Interval>, x: int) -> bool {
    exists|k: int| 0 <= k < ivs.len() && (#[trigger] ivs[k]).start <= x < ivs[k].stop
}

/// The number of sample indices one interval spans.
pub open spec fn interval_len(iv: Interval) -> nat {
    if iv.start <= iv.stop {
        (iv.stop - iv.start) as nat
    } else {
        0
    }
}

/// The total number of sample indices the intervals span, counted interval
/// by interval.
pub open spec fn total_len(ivs: Seq<Interval>) -> nat
    decreases ivs.len(),
{
    if ivs.len() == 0 {
        0
    } else {
        interval_len(ivs[0]) + total_len(ivs.drop_first())
    }
}

/// Appending an interval adds its length to the total.
pub proof fn lemma_total_len_push(ivs: Seq<Interval>, iv: Interval)
    ensures
        total_len(ivs.push(iv)) == total_len(ivs) + interval_len(iv),
    decreases ivs.len(),
{
    assert(total_len(ivs.push(iv)) == interval_len(ivs.push(iv)[0]) + total_len(
        ivs.push(iv).drop_first(),
    ));
    if ivs.len() == 0 {
        assert(ivs.push(iv).drop_first() =~= Seq::<Interval>::empty());
        assert(total_len(Seq::<Interval>::empty()) == 0);
        assert(ivs.push(iv)[0] == iv);
    } else {
        assert(ivs.push(iv).drop_first() =~= ivs.drop_first().push(iv));
        assert(ivs.push(iv)[0] == ivs[0]);
        lemma_total_len_push(ivs.drop_first(), iv);
    }
}

/// Dropping the last interval takes its length off the total.
pub proof fn lemma_total_len_drop_last(ivs: Seq<Interval>)
    requires
        ivs.len() > 0,
    ensures
        total_len(ivs) == total_len(ivs.drop_last()) + interval_len(ivs.last()),
{
    assert(ivs =~= ivs.drop_last().push(ivs.last()));
    lemma_total_len_push(ivs.drop_last(), ivs.last());
}

} // verus!
