//! Playback source: drains the shared buffer one sample per request,
//! shapes the first samples with a linear fade-in to suppress the startup
//! click, and turns "empty and finished" into a clean end-of-sequence
//! signal.

use vstd::prelude::*;
use vstd::arithmetic::div_mod::lemma_div_is_ordered;
use vstd::arithmetic::div_mod::lemma_fundamental_div_mod;
use vstd::arithmetic::div_mod::lemma_fundamental_div_mod_converse;
use crate::buffer::LockFreeBuffer;
use crate::buffer::model_pop;

verus! {

/// Fixed operating sample rate, in samples per second.
pub const SAMPLE_RATE: u32 = 24000;

/// Number of initial samples over which the output ramps linearly from
/// silence to full amplitude (10 ms at the operating sample rate).
pub const FADE_IN_SAMPLES: usize = 240;

/// Amplitude emitted for a sample of value `s` at cursor position `c`:
/// within the fade-in window this is `s * c / FADE_IN_SAMPLES` rounded to
/// the nearest integer (ties rounded up); from the end of the window on,
/// `s` passes through unchanged.
pub open spec fn faded_amplitude(s: int, c: int) -> int {
    if c >= FADE_IN_SAMPLES as int {
        s
    } else {
        (s * c + (FADE_IN_SAMPLES as int) / 2) / (FADE_IN_SAMPLES as int)
    }
}

/// [`faded_amplitude`] as a sample value; within the fade-in window its
/// magnitude never exceeds the input's, so the cast is exact.
pub open spec fn faded_sample(s: i16, c: int) -> i16 {
    faded_amplitude(s as int, c) as i16
}

/// Rounded scaling for the negative case: for `t, c >= 0`,
/// `(-(t * c) + 120) / 240 == -((t * c + 119) / 240)`.
proof fn lemma_fade_negative_case(t: int, c: int)
    requires
        0 <= t,
        0 <= c,
    ensures
        (-(t * c) + 120) / 240 == -((t * c + 119) / 240),
{
    assert(t * c >= 0) by (nonlinear_arith)
        requires
            0 <= t && 0 <= c,
    ;
    let x = t * c;
    let q = (x + 119) / 240;
    let r = (x + 119) % 240;
    lemma_fundamental_div_mod(x + 119, 240);
    assert(x + 119 == 240 * q + r);
    assert(0 <= r < 240);
    assert(-x + 120 == (-q) * 240 + (239 - r)) by {
        assert(240 * q == q * 240) by (nonlinear_arith);
        assert((-q) * 240 == -(q * 240)) by (nonlinear_arith);
    }
    lemma_fundamental_div_mod_converse(-x + 120, 240, -q, 239 - r);
}

/// Applies the fade-in ramp: scales `sample` by `cursor / FADE_IN_SAMPLES`
/// (rounded to nearest) while the cursor is inside the window, and returns
/// it unchanged afterwards.
pub fn apply_fade(sample: i16, cursor: usize) -> (out: i16)
    ensures
        out as int == faded_amplitude(sample as int, cursor as int),
        out == faded_sample(sample, cursor as int),
{
    if cursor >= FADE_IN_SAMPLES {
        sample
    } else if sample >= 0 {
        let s: u32 = sample as u32;
        let c: u32 = cursor as u32;
        proof {
            assert(s == sample as int);
            assert(c == cursor as int);
            assert(s * c <= 32767 * 239) by (nonlinear_arith)
                requires
                    s <= 32767 && 0 <= c <= 239,
            ;
        }
        let num: u32 = s * c + 120;
        let q: u32 = num / 240;
        proof {
            lemma_div_is_ordered(num as int, (32767 * 239 + 120) as int, 240);
            assert(q <= 32630);
            assert(q as int == (sample as int * cursor as int + 120) / 240);
        }
        q as i16
    } else {
        let t: u32 = (-(sample as i32)) as u32;
        let c: u32 = cursor as u32;
        proof {
            assert(t as int == -(sample as int));
            assert(c == cursor as int);
            assert(t * c <= 32768 * 239) by (nonlinear_arith)
                requires
                    t <= 32768 && 0 <= c <= 239,
            ;
        }
        let num: u32 = t * c + 119;
        let q: u32 = num / 240;
        let out: i16 = (-(q as i32)) as i16;
        proof {
            lemma_div_is_ordered(num as int, (32768 * 239 + 119) as int, 240);
            assert(q <= 32631);
            lemma_fade_negative_case(t as int, c as int);
            assert((-(t as int)) * (c as int) == -(t as int * c as int)) by (nonlinear_arith);
            assert(out as int == (-(t as int * c as int) + 120) / 240);
            assert(out as int == (sample as int * cursor as int + 120) / 240);
        }
        out
    }
}

/// One answer of the playback source to a request for the next sample.
#[derive(Clone, Copy, Debug, PartialEq, Eq, Structural)]
pub enum PlaybackStep {
    /// A sample, already fade-shaped, ready to hand to the renderer.
    Sample(i16),
    /// The buffer is empty right now but the producer has not finished:
    /// the caller retries after yielding briefly.
    Pending,
    /// The buffer is empty and the producer has finished: the sequence
    /// ends here, and no further samples will ever arrive.
    Finished,
}

/// Pull-based producer of fade-shaped samples for the audio renderer.
///
/// It owns only the playback cursor (samples emitted so far); the shared
/// buffer it drains is passed to [`StreamSource::next`] by the caller,
/// which lets a host hold the buffer behind its own lock between calls.
pub struct StreamSource {
    /// Samples emitted so far; decides whether fade-in still applies.
    pub samples_emitted: usize,
}

impl StreamSource {
    /// A fresh source whose cursor is at the very first sample.
    pub fn new() -> (source: Self)
        ensures
            source.samples_emitted == 0,
    {
        StreamSource { samples_emitted: 0 }
    }

    /// One step of the per-request algorithm: pop the head sample and
    /// emit it fade-shaped, or report why none is available — `Pending`
    /// while the producer is still running, `Finished` once the buffer is
    /// empty for good.
    pub fn next(&mut self, buffer: &mut LockFreeBuffer) -> (step: PlaybackStep)
        requires
            old(self).samples_emitted < usize::MAX,
        ensures
            final(buffer)@ == model_pop(old(buffer)@).0,
            old(buffer)@.samples.len() > 0 ==> step == PlaybackStep::Sample(
                faded_sample(old(buffer)@.samples[0], old(self).samples_emitted as int),
            ) && final(self).samples_emitted == old(self).samples_emitted + 1,
            old(buffer)@.samples.len() == 0 ==> final(self).samples_emitted == old(
                self,
            ).samples_emitted && step == (
            if old(buffer)@.done {
                PlaybackStep::Finished
            } else {
                PlaybackStep::Pending
            }),
    {
        match buffer.pop() {
            Some(sample) => {
                let out = apply_fade(sample, self.samples_emitted);
                self.samples_emitted = self.samples_emitted + 1;
                PlaybackStep::Sample(out)
            },
            None => {
                if buffer.is_done() {
                    PlaybackStep::Finished
                } else {
                    PlaybackStep::Pending
                }
            },
        }
    }

    /// The stream is mono.
    pub fn channels(&self) -> (n: u16)
        ensures
            n == 1,
    {
        1
    }

    /// The stream plays at the fixed operating sample rate.
    pub fn sample_rate(&self) -> (rate: u32)
        ensures
            rate == SAMPLE_RATE,
    {
        SAMPLE_RATE
    }

    /// The stream's frame length is unknown in advance.
    pub fn current_frame_len(&self) -> (len: Option<usize>)
        ensures
            len is None,
    {
        None
    }
}

} // verus!
