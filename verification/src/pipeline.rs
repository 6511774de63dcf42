//! The full run over a decoded stream.
//!
//! The stream is rectified for detection, the threshold is estimated from
//! the positive samples, silence is scanned for on the rectified copy, the
//! complementary keep intervals are built, and the kept slices of the
//! original stream are concatenated. A configuration out of range and a
//! stream with nothing above zero are rejected up front, each with its own
//! error, rather than faulting later.

use vstd::prelude::*;

use crate::assemble::{assemble, assembled, lemma_assembled_len};
use crate::interval::Interval;
use crate::keep::{get_keep_rate, keep_intervals, lemma_keep_silence_cover};
use crate::scan::{
    find_silence_intervals, lemma_margin_shrinks_silence, lemma_silence_intervals_valid,
    scan_from, silence_intervals,
};
use crate::threshold::{percentile, spec_percentile};
use crate::units::{ms_to_sample_count, spec_ms_to_sample_count};
use crate::DesilenceError;

verus! {

/// Configuration of a run.
#[derive(Clone, Copy, Debug, PartialEq, Eq, Structural)]
pub struct DesilenceConfig {
    /// Which percentile of the positive-sample distribution becomes the
    /// silence threshold, 0 to 100.
    pub percentile: u32,
    /// The shortest silence worth cutting, in milliseconds; zero is
    /// rejected.
    pub min_silence_ms: u64,
    /// The margin kept at each edge of a cut, in milliseconds.
    pub margin_ms: u64,
    /// The sampling rate of the stream, in samples per second; zero is
    /// rejected.
    pub sample_rate: u32,
}

/// A configuration the pipeline accepts.
pub open spec fn config_valid(cfg: DesilenceConfig) -> bool {
    &&& cfg.percentile <= 100
    &&& cfg.min_silence_ms > 0
    &&& cfg.sample_rate > 0
}

/// Keeps a sample for detection: negatives are clamped to zero.
pub open spec fn spec_rectified(s: Seq<i64>) -> Seq<i64> {
    Seq::new(s.len(), |i: int| if s[i] > 0 { s[i] } else { 0 })
}

/// The predicate that selects the positive samples.
pub open spec fn pos_pred() -> spec_fn(i64) -> bool {
    |x: i64| x > 0
}

/// The samples strictly above zero, in order, duplicates kept.
pub open spec fn spec_positives(s: Seq<i64>) -> Seq<i64> {
    s.filter(pos_pred())
}

/// The whole computation on a decoded stream: silence is detected on the
/// rectified copy against the percentile threshold of the positive samples,
/// and the kept ranges of the original stream are concatenated.
pub open spec fn spec_remove_silence(s: Seq<i64>, q: nat, min_cut: nat, margin: nat) -> Seq<
    i64,
> {
    let t = spec_percentile(spec_positives(s), q);
    let silence = silence_intervals(spec_rectified(s), t, min_cut, margin);
    assembled(s, keep_intervals(silence, s.len()))
}

/// The rectified copy of the stream, used only for detection.
pub fn rectify(samples: &Vec<i64>) -> (r: Vec<i64>)
    ensures
        r@ == spec_rectified(samples@),
{
    let mut r: Vec<i64> = Vec::new();
    let mut i: usize = 0;
    while i < samples.len()
        invariant
            i <= samples@.len(),
            r@.len() == i,
            forall|j: int| 0 <= j < i ==> r@[j] == spec_rectified(samples@)[j],
        decreases samples@.len() - i,
    {
        let x = samples[i];
        if x > 0 {
            r.push(x);
        } else {
            r.push(0);
        }
        i = i + 1;
    }
    proof {
        assert(r@ =~= spec_rectified(samples@));
    }
    r
}

/// The positive samples of the stream, the material the threshold is
/// estimated from.
pub fn positive_samples(samples: &Vec<i64>) -> (r: Vec<i64>)
    ensures
        r@ == spec_positives(samples@),
{
    let mut r: Vec<i64> = Vec::new();
    let mut i: usize = 0;
    proof {
        reveal(Seq::filter);
        assert(samples@.take(0) =~= Seq::<i64>::empty());
    }
    while i < samples.len()
        invariant
            i <= samples@.len(),
            r@ == samples@.take(i as int).filter(pos_pred()),
        decreases samples@.len() - i,
    {
        let x = samples[i];
        proof {
            reveal(Seq::filter);
            assert(samples@.take(i as int + 1).drop_last() =~= samples@.take(i as int));
            assert(samples@.take(i as int + 1).last() == samples@[i as int]);
        }
        if x > 0 {
            r.push(x);
        }
        i = i + 1;
    }
    proof {
        assert(samples@.take(samples@.len() as int) =~= samples@);
    }
    r
}

/// Removes the silent passages of `samples` and returns the assembled
/// output. The configuration is rejected as `InvalidConfiguration` when the
/// percentile is above 100, the minimum silence duration is zero, or the
/// sampling rate is zero; a stream with no sample above zero is rejected as
/// `EmptyInputSignal`; every other run succeeds, and the output is exactly
/// the kept ranges of the input, in order, bit for bit.
pub fn remove_silence(samples: &Vec<i64>, cfg: &DesilenceConfig) -> (out: Result<
    Vec<i64>,
    DesilenceError,
>)
    requires
        cfg.min_silence_ms * cfg.sample_rate * 2 <= u64::MAX,
        cfg.margin_ms * cfg.sample_rate * 2 <= u64::MAX,
        100 * (samples@.len() + 1) <= u64::MAX,
    ensures
        out is Err <==> (!config_valid(*cfg) || spec_positives(samples@).len() == 0),
        !config_valid(*cfg) ==> out == Err::<Vec<i64>, DesilenceError>(
            DesilenceError::InvalidConfiguration,
        ),
        config_valid(*cfg) && spec_positives(samples@).len() == 0 ==> out == Err::<
            Vec<i64>,
            DesilenceError,
        >(DesilenceError::EmptyInputSignal),
        out matches Ok(v) ==> v@ == spec_remove_silence(
            samples@,
            cfg.percentile as nat,
            spec_ms_to_sample_count(cfg.min_silence_ms, cfg.sample_rate) as nat,
            spec_ms_to_sample_count(cfg.margin_ms, cfg.sample_rate) as nat,
        ),
{
    if cfg.percentile > 100 || cfg.min_silence_ms == 0 || cfg.sample_rate == 0 {
        return Err(DesilenceError::InvalidConfiguration);
    }
    let positives = positive_samples(samples);
    if positives.len() == 0 {
        return Err(DesilenceError::EmptyInputSignal);
    }
    proof {
        samples@.lemma_filter_len(pos_pred());
    }
    let t = percentile(&positives, cfg.percentile);
    let rect = rectify(samples);
    let min_cut = ms_to_sample_count(cfg.min_silence_ms, cfg.sample_rate);
    let margin = ms_to_sample_count(cfg.margin_ms, cfg.sample_rate);
    let silence = find_silence_intervals(&rect, t, min_cut, margin);
    let keeps = get_keep_rate(&silence, samples.len());
    proof {
        assert forall|k: int| 0 <= k < keeps@.len() implies (#[trigger] keeps@[k]).start
            <= keeps@[k].stop <= samples@.len() by {
            assert(keeps@[k].start < keeps@[k].stop <= samples@.len());
        }
    }
    let out = assemble(samples, &keeps);
    Ok(out)
}

/// Widening the smoothing margin never shortens the output: with the same
/// detection stream, threshold and minimum cut, the stream assembled with a
/// larger margin keeps at least as many samples, because every silence
/// interval only shrinks or drops out.
pub proof fn lemma_margin_never_shortens_output(
    detect: Seq<i64>,
    orig: Seq<i64>,
    t: i64,
    min_cut: nat,
    m1: nat,
    m2: nat,
)
    requires
        m1 <= m2,
        detect.len() == orig.len() <= usize::MAX,
    ensures
        assembled(
            orig,
            keep_intervals(silence_intervals(detect, t, min_cut, m2), orig.len()),
        ).len() >= assembled(
            orig,
            keep_intervals(silence_intervals(detect, t, min_cut, m1), orig.len()),
        ).len(),
{
    let n = orig.len();
    let s1 = silence_intervals(detect, t, min_cut, m1);
    let s2 = silence_intervals(detect, t, min_cut, m2);
    lemma_silence_intervals_valid(detect, t, min_cut, m1);
    lemma_silence_intervals_valid(detect, t, min_cut, m2);
    lemma_margin_shrinks_silence(detect, t, min_cut, m1, m2);
    lemma_keep_silence_cover(s1, n);
    lemma_keep_silence_cover(s2, n);
    assert forall|k: int| 0 <= k < keep_intervals(s1, n).len() implies (#[trigger] keep_intervals(
        s1,
        n,
    )[k]).start <= keep_intervals(s1, n)[k].stop <= orig.len() by {
        assert(keep_intervals(s1, n)[k].start < keep_intervals(s1, n)[k].stop <= n);
    }
    assert forall|k: int| 0 <= k < keep_intervals(s2, n).len() implies (#[trigger] keep_intervals(
        s2,
        n,
    )[k]).start <= keep_intervals(s2, n)[k].stop <= orig.len() by {
        assert(keep_intervals(s2, n)[k].start < keep_intervals(s2, n)[k].stop <= n);
    }
    lemma_assembled_len(orig, keep_intervals(s1, n));
    lemma_assembled_len(orig, keep_intervals(s2, n));
}

/// When every sample of the detection stream is strictly above the
/// threshold, the scanner finds nothing from any state on: the silent branch
/// is never taken and the recorded intervals stay as they are.
proof fn lemma_scan_all_loud(
    s: Seq<i64>,
    t: i64,
    min_cut: nat,
    margin: nat,
    i: nat,
    below: nat,
    run_start: nat,
    acc: Seq<Interval>,
)
    requires
        forall|j: int| i <= j < s.len() ==> s[j] > t,
    ensures
        scan_from(s, t, min_cut, margin, i, below, run_start, acc) == acc,
    decreases s.len() - i,
{
    if i < s.len() {
        lemma_scan_all_loud(s, t, min_cut, margin, i + 1, 0, run_start, acc);
    }
}

/// Keeping everything: when every sample of the detection stream is strictly
/// above the threshold, no silence is detected, the whole stream is one keep
/// interval, and the assembled output is the original stream, unchanged in
/// length and values.
pub proof fn lemma_no_silence_is_identity(
    detect: Seq<i64>,
    orig: Seq<i64>,
    t: i64,
    min_cut: nat,
    margin: nat,
)
    requires
        detect.len() == orig.len() <= usize::MAX,
        forall|i: int| 0 <= i < detect.len() ==> detect[i] > t,
    ensures
        silence_intervals(detect, t, min_cut, margin) == Seq::<Interval>::empty(),
        assembled(orig, keep_intervals(silence_intervals(detect, t, min_cut, margin), orig.len()))
            == orig,
{
    lemma_scan_all_loud(detect, t, min_cut, margin, 0, 0, 0, Seq::empty());
    let keeps = keep_intervals(Seq::<Interval>::empty(), orig.len());
    if orig.len() == 0 {
        assert(assembled(orig, keeps) =~= orig);
    } else {
        let whole = Interval { start: 0, stop: orig.len() as usize };
        assert(keeps =~= seq![whole]);
        assert(keeps.drop_first() =~= Seq::<Interval>::empty());
        assert(assembled(orig, keeps) == orig.subrange(0, orig.len() as int) + assembled(
            orig,
            keeps.drop_first(),
        ));
        assert(orig.subrange(0, orig.len() as int) + Seq::<i64>::empty() =~= orig);
    }
}

} // verus!
