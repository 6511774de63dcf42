//! The keep-interval builder.
//!
//! Silence intervals say what to drop; the output is assembled from their
//! complement. The builder walks the sorted silence intervals once, emitting
//! the gap in front of each and the tail after the last one, so that the
//! keep intervals and the silence intervals together tile the stream. A
//! stream with no silence detected is kept as a single span.

use vstd::prelude::*;

use crate::interval::{in_intervals, interval_len, total_len, valid_intervals, Interval};

verus! {

/// The keep intervals that complement `ivs` from position `prev` to the end
/// of a stream of `n` samples: the gap in front of each silence interval,
/// then the tail after the last one. Empty gaps are left out.
pub open spec fn keep_from(ivs: Seq<Interval>, prev: nat, n: nat) -> Seq<Interval>
    decreases ivs.len(),
{
    if ivs.len() == 0 {
        if prev < n {
            seq![Interval { start: prev as usize, stop: n as usize }]
        } else {
            Seq::empty()
        }
    } else {
        let rest = keep_from(ivs.drop_first(), ivs[0].stop as nat, n);
        if prev < ivs[0].start {
            seq![Interval { start: prev as usize, stop: ivs[0].start }] + rest
        } else {
            rest
        }
    }
}

/// The sample ranges to keep: everything in `[0, n)` that no silence
/// interval covers.
pub open spec fn keep_intervals(ivs: Seq<Interval>, n: nat) -> Seq<Interval> {
    keep_from(ivs, 0, n)
}

/// What the builder guarantees from position `prev` on: the keep intervals
/// are well formed, start no earlier than `prev`, cover exactly the indices
/// of `[prev, n)` that the silence intervals leave out, and their lengths
/// account for every such index.
proof fn lemma_keep_from_properties(ivs: Seq<Interval>, prev: nat, n: nat)
    requires
        prev <= n <= usize::MAX,
        valid_intervals(ivs, n),
        forall|k: int| 0 <= k < ivs.len() ==> prev <= (#[trigger] ivs[k]).start,
    ensures
        valid_intervals(keep_from(ivs, prev, n), n),
        forall|k: int|
            0 <= k < keep_from(ivs, prev, n).len() ==> prev <= (#[trigger] keep_from(
                ivs,
                prev,
                n,
            )[k]).start,
        forall|x: int|
            prev <= x < n ==> (in_intervals(keep_from(ivs, prev, n), x) <==> !in_intervals(
                ivs,
                x,
            )),
        forall|x: int| x < prev ==> !in_intervals(keep_from(ivs, prev, n), x),
        total_len(keep_from(ivs, prev, n)) + total_len(ivs) == n - prev,
    decreases ivs.len(),
{
    let keeps = keep_from(ivs, prev, n);
    if ivs.len() == 0 {
        if prev < n {
            let tail = Interval { start: prev as usize, stop: n as usize };
            assert(keeps =~= seq![tail]);
            assert(keeps.drop_first() =~= Seq::<Interval>::empty());
            assert(total_len(Seq::<Interval>::empty()) == 0);
            assert(keeps.len() == 1 && keeps[0] == tail);
            assert(total_len(keeps) == interval_len(tail));
            assert forall|x: int| prev <= x < n implies in_intervals(keeps, x) by {
                assert(keeps[0].start <= x < keeps[0].stop);
            }
        } else {
            assert(total_len(keeps) == 0);
        }
    } else {
        let h = ivs[0];
        let rest_ivs = ivs.drop_first();
        assert(prev <= h.start && h.start < h.stop <= n);
        assert forall|k: int| 0 <= k < rest_ivs.len() implies h.stop <= (
        #[trigger] rest_ivs[k]).start && rest_ivs[k] == ivs[k + 1] by {
            assert(ivs[0].stop <= ivs[k + 1].start);
        }
        lemma_keep_from_properties(rest_ivs, h.stop as nat, n);
        let rest_keeps = keep_from(rest_ivs, h.stop as nat, n);
        // relate membership in `ivs` to membership in its head and tail
        assert forall|x: int| #![all_triggers] in_intervals(ivs, x) implies (h.start <= x < h.stop)
            || in_intervals(rest_ivs, x) by {
            let k = choose|k: int|
                0 <= k < ivs.len() && (#[trigger] ivs[k]).start <= x < ivs[k].stop;
            if k > 0 {
                assert(rest_ivs[k - 1].start <= x < rest_ivs[k - 1].stop);
            }
        }
        assert forall|x: int| in_intervals(rest_ivs, x) implies in_intervals(ivs, x) by {
            let k = choose|k: int|
                0 <= k < rest_ivs.len() && (#[trigger] rest_ivs[k]).start <= x < rest_ivs[k].stop;
            assert(ivs[k + 1].start <= x < ivs[k + 1].stop);
        }
        if prev < h.start {
            let gap = Interval { start: prev as usize, stop: h.start };
            assert(keeps =~= seq![gap] + rest_keeps);
            assert(keeps.drop_first() =~= rest_keeps);
            assert(keeps[0] == gap);
            assert(total_len(keeps) == interval_len(gap) + total_len(rest_keeps));
            assert forall|x: int| in_intervals(keeps, x) implies (gap.start <= x < gap.stop)
                || in_intervals(rest_keeps, x) by {
                let k = choose|k: int|
                    0 <= k < keeps.len() && (#[trigger] keeps[k]).start <= x < keeps[k].stop;
                if k > 0 {
                    assert(rest_keeps[k - 1].start <= x < rest_keeps[k - 1].stop);
                }
            }
            assert forall|x: int| in_intervals(rest_keeps, x) implies in_intervals(keeps, x) by {
                let k = choose|k: int|
                    0 <= k < rest_keeps.len() && (#[trigger] rest_keeps[k]).start <= x
                        < rest_keeps[k].stop;
                assert(keeps[k + 1].start <= x < keeps[k + 1].stop);
            }
            assert forall|x: int| prev <= x < gap.stop implies in_intervals(keeps, x) by {
                assert(keeps[0].start <= x < keeps[0].stop);
            }
        } else {
            assert(keeps =~= rest_keeps);
        }
        assert(total_len(ivs) == interval_len(h) + total_len(rest_ivs));
        assert forall|x: int| prev <= x < n implies (in_intervals(keeps, x) <==> !in_intervals(
            ivs,
            x,
        )) by {
            if x < h.start {
                assert(in_intervals(keeps, x) <==> prev <= x);
            } else if x < h.stop {
                assert(ivs[0].start <= x < ivs[0].stop);
                assert(!in_intervals(rest_keeps, x));
            } else {
                assert(in_intervals(keeps, x) <==> in_intervals(rest_keeps, x));
            }
        }
    }
}

/// The coverage law: over a stream of `n` samples, any well-formed silence
/// set and the keep intervals built from it tile `[0, n)` exactly once.
/// Every index lies in a silence interval or in a keep interval, never in
/// both; the keep intervals are themselves well formed (sorted, disjoint,
/// within the stream); and the two sets' lengths add up to the whole stream.
pub proof fn lemma_keep_silence_cover(ivs: Seq<Interval>, n: nat)
    requires
        n <= usize::MAX,
        valid_intervals(ivs, n),
    ensures
        valid_intervals(keep_intervals(ivs, n), n),
        forall|x: int|
            0 <= x < n ==> (in_intervals(keep_intervals(ivs, n), x) <==> !in_intervals(ivs, x)),
        total_len(keep_intervals(ivs, n)) + total_len(ivs) == n,
{
    lemma_keep_from_properties(ivs, 0, n);
}

/// Builds the keep intervals for a stream of `n` samples from its silence
/// intervals: the gap in front of each silence interval and the tail behind
/// the last one, empty gaps left out. With no silence detected the whole
/// stream is one keep interval.
pub fn get_keep_rate(under_ts: &Vec<Interval>, n: usize) -> (r: Vec<Interval>)
    requires
        valid_intervals(under_ts@, n as nat),
    ensures
        r@ == keep_intervals(under_ts@, n as nat),
        valid_intervals(r@, n as nat),
{
    let ivs = under_ts;
    let mut r: Vec<Interval> = Vec::new();
    let mut prev: usize = 0;
    let mut k: usize = 0;
    proof {
        assert(ivs@.skip(0) =~= ivs@);
        assert(Seq::<Interval>::empty() + keep_from(ivs@, 0, n as nat) =~= keep_intervals(
            ivs@,
            n as nat,
        ));
    }
    while k < ivs.len()
        invariant
            k <= ivs@.len(),
            valid_intervals(ivs@, n as nat),
            prev <= n,
            k > 0 ==> prev == ivs@[k - 1].stop,
            keep_intervals(ivs@, n as nat) == r@ + keep_from(
                ivs@.skip(k as int),
                prev as nat,
                n as nat,
            ),
        decreases ivs@.len() - k,
    {
        let ghost pre_r = r@;
        let ghost rem = ivs@.skip(k as int);
        let iv = ivs[k];
        proof {
            assert(rem[0] == iv);
            assert(rem.drop_first() =~= ivs@.skip(k as int + 1));
            if k > 0 {
                assert(ivs@[k - 1].stop <= ivs@[k as int].start);
            }
        }
        if prev < iv.start {
            r.push(Interval { start: prev, stop: iv.start });
            proof {
                let gap = Interval { start: prev, stop: iv.start };
                assert(pre_r + (seq![gap] + keep_from(
                    rem.drop_first(),
                    iv.stop as nat,
                    n as nat,
                )) =~= r@ + keep_from(rem.drop_first(), iv.stop as nat, n as nat));
            }
        }
        prev = iv.stop;
        k = k + 1;
    }
    proof {
        assert(ivs@.skip(ivs@.len() as int) =~= Seq::<Interval>::empty());
    }
    if prev < n {
        r.push(Interval { start: prev, stop: n });
    }
    proof {
        assert(r@ =~= keep_intervals(ivs@, n as nat));
        lemma_keep_silence_cover(ivs@, n as nat);
    }
    r
}

} // verus!
