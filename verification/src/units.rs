//! Conversion between time and sample-count offsets.
//!
//! Durations are carried as integer milliseconds. The stream is indexed in
//! sample units, and the fixed convention throughout the library is that one
//! rate unit equals half a second of samples, so a duration of `ms`
//! milliseconds at sampling rate `rate` spans `ms * rate * 2 / 1000` sample
//! units, truncated toward zero.

use vstd::prelude::*;

verus! {

/// The number of sample units spanned by `ms` milliseconds at sampling rate
/// `rate`, under the two-samples-per-rate-unit convention, truncated toward
/// zero.
pub open spec fn spec_ms_to_sample_count(ms: u64, rate: u32) -> int {
    ms * rate * 2 / 1000
}

/// The time offset in milliseconds of sample index `index` at sampling rate
/// `rate`, truncated toward zero.
pub open spec fn spec_sample_index_to_ms(index: u64, rate: u32) -> int {
    index * 1000 / (rate * 2)
}

/// Converts a duration in milliseconds to a count of sample units.
pub fn ms_to_sample_count(ms: u64, rate: u32) -> (count: u64)
    requires
        ms * rate * 2 <= u64::MAX,
    ensures
        count == spec_ms_to_sample_count(ms, rate),
{
    ms * (rate as u64) * 2 / 1000
}

/// The round trip through sample units truncates downward: converting a
/// duration to sample units and the resulting index back to time never lands
/// after the original duration.
pub proof fn lemma_round_trip_never_overshoots(ms: u64, rate: u32)
    requires
        rate > 0,
        ms * rate * 2 <= u64::MAX,
    ensures
        spec_sample_index_to_ms(spec_ms_to_sample_count(ms, rate) as u64, rate) <= ms,
{
    let d: int = ms * rate * 2;
    let c: int = d / 1000;
    vstd::arithmetic::div_mod::lemma_fundamental_div_mod(d, 1000);
    vstd::arithmetic::div_mod::lemma_mod_bound(d, 1000);
    assert(c * 1000 <= d);
    vstd::arithmetic::div_mod::lemma_div_is_ordered(c * 1000, d, rate as int * 2);
    vstd::arithmetic::div_mod::lemma_div_multiples_vanish(ms as int, rate as int * 2);
    assert(ms as int * (rate as int) * 2 == (rate as int * 2) * (ms as int)) by (nonlinear_arith);
    assert(d == (rate as int * 2) * ms);
    assert(c as u64 == c);
}

/// Converts a sample-unit index back to a time offset in milliseconds.
pub fn sample_index_to_ms(index: u64, rate: u32) -> (ms: u64)
    requires
        rate > 0,
        index * 1000 <= u64::MAX,
    ensures
        ms == spec_sample_index_to_ms(index, rate),
{
    index * 1000 / ((rate as u64) * 2)
}

} // verus!
