//! The silence-interval scanner.
//!
//! One left-to-right pass over the detection stream finds every run of
//! samples at or below the threshold whose length reaches the minimum cut
//! duration, and records it with `margin` samples handed back on each side,
//! so the cut clips neither the tail of the sound before it nor the onset of
//! the sound after it. A run shorter than the minimum, or one the margins
//! swallow whole, records nothing.

use vstd::prelude::*;

use crate::interval::{
    interval_len, lemma_total_len_drop_last, lemma_total_len_push, total_len, valid_intervals,
    Interval,
};

verus! {

/// One record step of the scanner. A run records its interval anew each time
/// it grows, so a record whose start matches the last one already recorded
/// replaces it; any other record is a fresh run and is appended.
pub open spec fn record_interval(acc: Seq<Interval>, iv: Interval) -> Seq<Interval> {
    if acc.len() > 0 && acc.last().start == iv.start {
        acc.drop_last().push(iv)
    } else {
        acc.push(iv)
    }
}

/// The scanner's pass from index `i` on, carrying its state: `below` counts
/// the silent samples of the current run, `run_start` is the index of the
/// run's first sample (meaningful while `below > 0`), and `acc` holds the
/// intervals recorded so far. A sample is silent when it is at or below the
/// threshold `t`. Once a run's count reaches `min_cut`, the run is recorded
/// as `[run_start + margin, i + 1 - margin)` — provided that range is
/// non-empty — and the record is refreshed as the run grows. A loud sample
/// resets the count.
pub open spec fn scan_from(
    s: Seq<i64>,
    t: i64,
    min_cut: nat,
    margin: nat,
    i: nat,
    below: nat,
    run_start: nat,
    acc: Seq<Interval>,
) -> Seq<Interval>
    decreases s.len() - i,
{
    if i >= s.len() {
        acc
    } else if s[i as int] <= t {
        let rs = if below == 0 {
            i
        } else {
            run_start
        };
        let acc2 = if below + 1 >= min_cut && rs + 2 * margin <= i {
            record_interval(
                acc,
                Interval { start: (rs + margin) as usize, stop: (i + 1 - margin) as usize },
            )
        } else {
            acc
        };
        scan_from(s, t, min_cut, margin, i + 1, below + 1, rs, acc2)
    } else {
        scan_from(s, t, min_cut, margin, i + 1, 0, run_start, acc)
    }
}

/// The silence intervals of the whole stream: the scanner's pass from the
/// first sample, starting with no run and nothing recorded.
pub open spec fn silence_intervals(s: Seq<i64>, t: i64, min_cut: nat, margin: nat) -> Seq<
    Interval,
> {
    scan_from(s, t, min_cut, margin, 0, 0, 0, Seq::empty())
}

/// Whether every sample the interval covers is at or below the threshold.
pub open spec fn interval_silent(s: Seq<i64>, t: i64, iv: Interval) -> bool {
    forall|x: int| iv.start <= x < iv.stop ==> s[x] <= t
}

/// Whether the last recorded interval belongs to the run that starts at
/// `run_start`: the scanner recognizes its own run by the margin-adjusted
/// start it recorded for it.
pub open spec fn last_is_current_run(acc: Seq<Interval>, run_start: nat, margin: nat) -> bool {
    acc.len() > 0 && acc.last().start == run_start + margin
}

/// The shape the recorded intervals have at any reachable pass state: they
/// are well formed; every recorded stop leaves `m` samples before the
/// current index `i`; and while a run is open whose interval is already
/// recorded, that record's stop trails the current index by the margin, the
/// run has reached the minimum cut, and the margins fit strictly inside it.
/// While an open run has no record yet, everything recorded so far ends by
/// the run's own margin-adjusted start.
spec fn scan_shape(acc: Seq<Interval>, mc: nat, m: nat, i: nat, below: nat, rs: nat, n: nat) -> bool {
    &&& valid_intervals(acc, n)
    &&& forall|k: int| 0 <= k < acc.len() ==> (#[trigger] acc[k]).stop + m <= i
    &&& (below > 0 && last_is_current_run(acc, rs, m) ==> acc.last().stop == i - m && below >= mc
        && rs + 2 * m < i)
    &&& (below > 0 && !last_is_current_run(acc, rs, m) ==> forall|k: int|
        0 <= k < acc.len() ==> (#[trigger] acc[k]).stop <= rs + m)
}

/// What the open run has contributed to the recorded total so far: the
/// length of its record when it has one, nothing otherwise.
spec fn cur_contrib(acc: Seq<Interval>, m: nat, i: nat, below: nat, rs: nat) -> int {
    if below > 0 && last_is_current_run(acc, rs, m) {
        i - rs - 2 * m
    } else {
        0
    }
}

/// One silent step of the scanner preserves the shape, and moves the
/// recorded total and the open run's contribution in lockstep.
proof fn lemma_scan_step(
    s: Seq<i64>,
    t: i64,
    mc: nat,
    m: nat,
    i: nat,
    below: nat,
    rs: nat,
    acc: Seq<Interval>,
)
    requires
        s.len() <= usize::MAX,
        i < s.len(),
        below <= i,
        below > 0 ==> rs + below == i,
        s[i as int] <= t,
        scan_shape(acc, mc, m, i, below, rs, s.len()),
    ensures
        ({
            let rs2: nat = if below == 0 {
                i
            } else {
                rs
            };
            let cond = below + 1 >= mc && rs2 + 2 * m <= i;
            let iv = Interval { start: (rs2 + m) as usize, stop: (i + 1 - m) as usize };
            let acc2 = if cond {
                record_interval(acc, iv)
            } else {
                acc
            };
            &&& scan_shape(acc2, mc, m, i + 1, below + 1, rs2, s.len())
            &&& (cond <==> last_is_current_run(acc2, rs2, m))
            &&& total_len(acc2) - cur_contrib(acc2, m, i + 1, below + 1, rs2) == total_len(acc)
                - cur_contrib(acc, m, i, below, rs)
        }),
{
    let n = s.len();
    let rs2: nat = if below == 0 {
        i
    } else {
        rs
    };
    let cond = below + 1 >= mc && rs2 + 2 * m <= i;
    let iv = Interval { start: (rs2 + m) as usize, stop: (i + 1 - m) as usize };
    // a record whose start is the new run's margin-adjusted start cannot
    // predate the run: it would have to stop before it starts
    if below == 0 && last_is_current_run(acc, rs2, m) {
        assert(acc.last().start < acc.last().stop);
        assert(acc.last().stop + m <= i);
        assert(false);
    }
    if cond {
        assert(rs2 + m <= i && i + 1 - m <= i + 1 <= n);
        assert(iv.start == rs2 + m && iv.stop == i + 1 - m);
        assert(iv.start < iv.stop);
        let acc2 = record_interval(acc, iv);
        if acc.len() > 0 && acc.last().start == iv.start {
            // the open run is already recorded: its record is refreshed
            assert(last_is_current_run(acc, rs2, m));
            assert(below > 0);
            assert(acc2 =~= acc.drop_last().push(iv));
            lemma_total_len_drop_last(acc);
            lemma_total_len_push(acc.drop_last(), iv);
            assert(interval_len(acc.last()) == cur_contrib(acc, m, i, below, rs));
            assert forall|k: int| 0 <= k < acc2.len() - 1 implies (#[trigger] acc2[k]).stop
                <= iv.start by {
                assert(acc2[k] == acc[k]);
                assert(acc[k].stop <= acc[acc.len() - 1].start);
            }
            assert(valid_intervals(acc2, n));
        } else {
            assert(!last_is_current_run(acc, rs2, m));
            assert(acc2 =~= acc.push(iv));
            lemma_total_len_push(acc, iv);
            assert(cur_contrib(acc, m, i, below, rs) == 0);
            assert forall|k: int| 0 <= k < acc2.len() - 1 implies (#[trigger] acc2[k]).stop
                <= iv.start by {
                assert(acc2[k] == acc[k]);
                if below > 0 {
                    assert(acc[k].stop <= rs + m);
                } else {
                    assert(acc[k].stop + m <= i);
                }
            }
            assert(valid_intervals(acc2, n));
        }
        assert(last_is_current_run(acc2, rs2, m));
        assert(interval_len(iv) == i + 1 - rs2 - 2 * m);
        assert(cur_contrib(acc2, m, i + 1, below + 1, rs2) == i + 1 - rs2 - 2 * m);
        assert(scan_shape(acc2, mc, m, i + 1, below + 1, rs2, n));
    } else {
        // no record: the open run cannot already have one, or the refresh
        // conditions would still hold
        if below > 0 && last_is_current_run(acc, rs, m) {
            assert(below >= mc && rs + 2 * m < i);
            assert(false);
        }
        assert(!last_is_current_run(acc, rs2, m));
        assert(cur_contrib(acc, m, i, below, rs) == 0);
        assert(cur_contrib(acc, m, i + 1, below + 1, rs2) == 0);
        if below > 0 {
            assert(scan_shape(acc, mc, m, i + 1, below + 1, rs2, n));
        } else {
            assert forall|k: int| 0 <= k < acc.len() implies (#[trigger] acc[k]).stop <= rs2
                + m by {
                assert(acc[k].stop + m <= i);
            }
            assert(scan_shape(acc, mc, m, i + 1, below + 1, rs2, n));
        }
    }
}

/// From any reachable state, the scanner's final output is well formed.
proof fn lemma_scan_from_valid_rec(
    s: Seq<i64>,
    t: i64,
    mc: nat,
    m: nat,
    i: nat,
    below: nat,
    rs: nat,
    acc: Seq<Interval>,
)
    requires
        s.len() <= usize::MAX,
        i <= s.len(),
        below <= i,
        below > 0 ==> rs + below == i,
        scan_shape(acc, mc, m, i, below, rs, s.len()),
    ensures
        valid_intervals(scan_from(s, t, mc, m, i, below, rs, acc), s.len()),
    decreases s.len() - i,
{
    if i < s.len() {
        if s[i as int] <= t {
            let rs2: nat = if below == 0 {
                i
            } else {
                rs
            };
            let cond = below + 1 >= mc && rs2 + 2 * m <= i;
            let iv = Interval { start: (rs2 + m) as usize, stop: (i + 1 - m) as usize };
            let acc2 = if cond {
                record_interval(acc, iv)
            } else {
                acc
            };
            lemma_scan_step(s, t, mc, m, i, below, rs, acc);
            lemma_scan_from_valid_rec(s, t, mc, m, i + 1, below + 1, rs2, acc2);
        } else {
            assert(scan_shape(acc, mc, m, i + 1, 0, rs, s.len()));
            lemma_scan_from_valid_rec(s, t, mc, m, i + 1, 0, rs, acc);
        }
    }
}

/// The silence intervals of any stream are well formed: sorted,
/// non-overlapping, non-empty, within the stream.
pub proof fn lemma_silence_intervals_valid(s: Seq<i64>, t: i64, min_cut: nat, margin: nat)
    requires
        s.len() <= usize::MAX,
    ensures
        valid_intervals(silence_intervals(s, t, min_cut, margin), s.len()),
{
    lemma_scan_from_valid_rec(s, t, min_cut, margin, 0, 0, 0, Seq::empty());
}

/// The margin comparison, generalized over the scanner's state: with the
/// larger margin `m2`, whatever has been recorded (less the open run's share
/// on each side) spans no more than with `m1`, and that stays so to the end
/// of the pass.
proof fn lemma_scan_margin_rec(
    s: Seq<i64>,
    t: i64,
    mc: nat,
    m1: nat,
    m2: nat,
    i: nat,
    below: nat,
    rs: nat,
    acc1: Seq<Interval>,
    acc2: Seq<Interval>,
)
    requires
        m1 <= m2,
        s.len() <= usize::MAX,
        i <= s.len(),
        below <= i,
        below > 0 ==> rs + below == i,
        scan_shape(acc1, mc, m1, i, below, rs, s.len()),
        scan_shape(acc2, mc, m2, i, below, rs, s.len()),
        below > 0 && last_is_current_run(acc2, rs, m2) ==> last_is_current_run(acc1, rs, m1),
        total_len(acc1) - cur_contrib(acc1, m1, i, below, rs) >= total_len(acc2) - cur_contrib(
            acc2,
            m2,
            i,
            below,
            rs,
        ),
    ensures
        total_len(scan_from(s, t, mc, m2, i, below, rs, acc2)) <= total_len(
            scan_from(s, t, mc, m1, i, below, rs, acc1),
        ),
    decreases s.len() - i,
{
    let c1 = cur_contrib(acc1, m1, i, below, rs);
    let c2 = cur_contrib(acc2, m2, i, below, rs);
    // the two open-run shares compare as the margins do
    assert(c1 >= c2 >= 0) by {
        if below > 0 && last_is_current_run(acc2, rs, m2) {
            assert(rs + 2 * m2 < i);
        }
        if below > 0 && last_is_current_run(acc1, rs, m1) {
            assert(rs + 2 * m1 < i);
        }
    }
    if i >= s.len() {
        assert(total_len(acc1) >= total_len(acc2));
    } else if s[i as int] <= t {
        let rs2: nat = if below == 0 {
            i
        } else {
            rs
        };
        let cond1 = below + 1 >= mc && rs2 + 2 * m1 <= i;
        let cond2 = below + 1 >= mc && rs2 + 2 * m2 <= i;
        let iv1 = Interval { start: (rs2 + m1) as usize, stop: (i + 1 - m1) as usize };
        let iv2 = Interval { start: (rs2 + m2) as usize, stop: (i + 1 - m2) as usize };
        let acc1n = if cond1 {
            record_interval(acc1, iv1)
        } else {
            acc1
        };
        let acc2n = if cond2 {
            record_interval(acc2, iv2)
        } else {
            acc2
        };
        lemma_scan_step(s, t, mc, m1, i, below, rs, acc1);
        lemma_scan_step(s, t, mc, m2, i, below, rs, acc2);
        lemma_scan_margin_rec(s, t, mc, m1, m2, i + 1, below + 1, rs2, acc1n, acc2n);
    } else {
        assert(scan_shape(acc1, mc, m1, i + 1, 0, rs, s.len()));
        assert(scan_shape(acc2, mc, m2, i + 1, 0, rs, s.len()));
        lemma_scan_margin_rec(s, t, mc, m1, m2, i + 1, 0, rs, acc1, acc2);
    }
}

/// Widening the smoothing margin never lengthens the detected silence: with
/// the same stream, threshold and minimum cut, the silence intervals found
/// with a larger margin span at most as many samples in total, because each
/// run's record only shrinks and some records drop out altogether.
pub proof fn lemma_margin_shrinks_silence(s: Seq<i64>, t: i64, min_cut: nat, m1: nat, m2: nat)
    requires
        m1 <= m2,
        s.len() <= usize::MAX,
    ensures
        total_len(silence_intervals(s, t, min_cut, m2)) <= total_len(
            silence_intervals(s, t, min_cut, m1),
        ),
{
    lemma_scan_margin_rec(s, t, min_cut, m1, m2, 0, 0, 0, Seq::empty(), Seq::empty());
}

/// Scans the detection stream and returns the silence intervals: every run
/// of at least `min_cut` samples at or below `threshold`, shrunk by `margin`
/// samples on each side. The result is sorted, non-overlapping, and lies
/// within the stream.
pub fn find_silence_intervals(
    samples: &Vec<i64>,
    threshold: i64,
    min_cut: u64,
    margin: u64,
) -> (r: Vec<Interval>)
    ensures
        r@ == silence_intervals(samples@, threshold, min_cut as nat, margin as nat),
        valid_intervals(r@, samples@.len()),
        forall|k: int|
            0 <= k < r@.len() ==> interval_silent(samples@, threshold, #[trigger] r@[k]),
{
    let n = samples.len();
    let mut acc: Vec<Interval> = Vec::new();
    let mut below: u64 = 0;
    let mut run_start: usize = 0;
    let mut i: usize = 0;
    while i < n
        invariant
            i <= n,
            n == samples@.len(),
            below <= i,
            below > 0 ==> run_start + below == i,
            scan_from(
                samples@,
                threshold,
                min_cut as nat,
                margin as nat,
                i as nat,
                below as nat,
                run_start as nat,
                acc@,
            ) == silence_intervals(samples@, threshold, min_cut as nat, margin as nat),
            valid_intervals(acc@, n as nat),
            below > 0 ==> forall|j: int| run_start <= j < i ==> samples@[j] <= threshold,
            forall|k: int|
                0 <= k < acc@.len() ==> interval_silent(samples@, threshold, #[trigger] acc@[k]),
            forall|k: int| 0 <= k < acc@.len() ==> (#[trigger] acc@[k]).stop + margin <= i,
            below > 0 ==> forall|k: int|
                0 <= k < acc@.len() && !(k == acc@.len() - 1 && last_is_current_run(
                    acc@,
                    run_start as nat,
                    margin as nat,
                )) ==> (#[trigger] acc@[k]).stop <= run_start + margin,
        decreases n - i,
    {
        let ghost pre_acc = acc@;
        let ghost pre_below = below;
        let ghost pre_rs = run_start;
        if samples[i] <= threshold {
            if below == 0 {
                run_start = i;
            }
            below = below + 1;
            let ghost rs = run_start as nat;
            if below >= min_cut {
                let span = (i - run_start) as u64;
                if span >= margin && span - margin >= margin {
                    let m = margin as usize;
                    let start = run_start + m;
                    let stop = i + 1 - m;
                    let iv = Interval { start, stop };
                    proof {
                        assert(rs + 2 * (margin as nat) <= i);
                        assert(start == rs + margin && stop == i + 1 - margin);
                    }
                    if acc.len() > 0 && acc[acc.len() - 1].start == start {
                        let _ = acc.pop();
                        acc.push(iv);
                        proof {
                            assert(acc@ =~= record_interval(pre_acc, iv));
                        }
                    } else {
                        acc.push(iv);
                        proof {
                            assert(acc@ =~= record_interval(pre_acc, iv));
                        }
                    }
                    proof {
                        assert forall|k: int| 0 <= k < acc@.len() - 1 implies (
                        #[trigger] acc@[k]).stop <= rs + margin by {
                            assert(acc@[k] == pre_acc[k]);
                        }
                        assert(valid_intervals(acc@, n as nat));
                        assert(last_is_current_run(acc@, rs, margin as nat));
                    }
                }
            }
            proof {
                // a record with start `i + margin` cannot already stand when a
                // new run begins at `i`: it would have to end by `i - margin`
                if pre_below == 0 && last_is_current_run(pre_acc, i as nat, margin as nat) {
                    assert(pre_acc.last().start < pre_acc.last().stop);
                    assert(pre_acc.last().stop + margin <= i);
                    assert(false);
                }
                assert(scan_from(
                    samples@,
                    threshold,
                    min_cut as nat,
                    margin as nat,
                    i as nat,
                    pre_below as nat,
                    pre_rs as nat,
                    pre_acc,
                ) == scan_from(
                    samples@,
                    threshold,
                    min_cut as nat,
                    margin as nat,
                    i as nat + 1,
                    below as nat,
                    run_start as nat,
                    acc@,
                ));
            }
        } else {
            below = 0;
            proof {
                assert(scan_from(
                    samples@,
                    threshold,
                    min_cut as nat,
                    margin as nat,
                    i as nat,
                    pre_below as nat,
                    pre_rs as nat,
                    pre_acc,
                ) == scan_from(
                    samples@,
                    threshold,
                    min_cut as nat,
                    margin as nat,
                    i as nat + 1,
                    0,
                    run_start as nat,
                    acc@,
                ));
            }
        }
        i = i + 1;
    }
    acc
}

} // verus!
