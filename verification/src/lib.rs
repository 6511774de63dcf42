//! Silence removal for audio sample streams.
//!
//! The library takes a fully decoded stream of signed integer amplitudes,
//! estimates a loudness threshold from the stream's own distribution of
//! positive samples, locates runs of near-silence that last long enough to
//! be worth cutting, inverts them into the complementary set of ranges to
//! keep, and concatenates those ranges into the output stream. Decoding and
//! encoding of media containers is left to the caller.

use vstd::prelude::*;

pub mod assemble;
pub mod interval;
pub mod keep;
pub mod pipeline;
pub mod scan;
pub mod threshold;
pub mod units;

verus! {

/// Why a run over a sample stream was rejected.
#[derive(Clone, Copy, Debug, PartialEq, Eq, Structural)]
pub enum DesilenceError {
    /// The configuration is out of range: a percentile above 100, a zero
    /// minimum silence duration, or a zero sampling rate.
    InvalidConfiguration,
    /// The stream holds no sample above zero, so no threshold can be
    /// estimated from it.
    EmptyInputSignal,
}

} // verus!
