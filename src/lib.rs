//! The audio pipeline of a push-to-talk dictation tool: down-mixing of
//! captured frames, linear-interpolation resampling to the recognizer's rate,
//! silence trimming, the choice of a capture configuration and the recording
//! state machine of the capture worker.
//!
//! Samples are fixed-point integers: `FULL_SCALE` stands for an amplitude of
//! 1.0, so a sample in the nominal range lies in `-FULL_SCALE..=FULL_SCALE`.

pub mod config;
pub mod downmix;
pub mod resample;
pub mod trim;
pub mod worker;

use vstd::prelude::*;

verus! {

/// Sample value of a full-scale amplitude (1.0).
pub const FULL_SCALE: i32 = 1_000_000;

/// Sample rate, in Hz, that finished clips are delivered at.
pub const WHISPER_SAMPLE_RATE: u32 = 16000;

} // verus!
