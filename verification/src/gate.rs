//! Startup gate: playback is deferred until either a minimum number of
//! samples is buffered or the producer has already finished (so that
//! clips shorter than the threshold still play instead of waiting
//! forever). The host polls the shared buffer's length and finished flag
//! and starts the renderer as soon as [`startup_gate_released`] says so.

use vstd::prelude::*;
use crate::source::SAMPLE_RATE;

verus! {

/// Target startup buffering, in milliseconds of audio.
pub const MIN_BUFFER_MS: u32 = 150;

/// Startup threshold as a sample count: [`MIN_BUFFER_MS`] worth of audio
/// at [`SAMPLE_RATE`].
pub const MIN_BUFFER_SAMPLES: usize = 3600;

/// Playback may start exactly when the threshold is buffered or the
/// producer has finished.
pub open spec fn gate_released(len: int, done: bool) -> bool {
    len >= MIN_BUFFER_SAMPLES as int || done
}

/// The threshold equals the target duration converted at the fixed
/// sample rate.
pub proof fn lemma_threshold_matches_duration()
    ensures
        MIN_BUFFER_SAMPLES as int == SAMPLE_RATE as int * MIN_BUFFER_MS as int / 1000,
{
}

/// Start conditions: reaching the threshold lets playback start at
/// once, and so does the finished signal, whatever the length — a short,
/// already-finished stream never blocks; and playback never starts
/// before one of the two holds.
pub proof fn lemma_gate_release_conditions(len: int, done: bool)
    ensures
        len >= MIN_BUFFER_SAMPLES as int ==> gate_released(len, done),
        done ==> gate_released(len, done),
        gate_released(len, done) ==> len >= MIN_BUFFER_SAMPLES as int || done,
{
}

/// Decides, from one reading of the buffer's length and finished flag,
/// whether playback may start. The host calls this in its poll loop and
/// stops waiting on the first `true`.
pub fn startup_gate_released(len: usize, done: bool) -> (released: bool)
    ensures
        released == gate_released(len as int, done),
{
    len >= MIN_BUFFER_SAMPLES || done
}

} // verus!
