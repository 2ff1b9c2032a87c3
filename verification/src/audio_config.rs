use vstd::prelude::*;

verus! {

/// Sample rate of the emitted stream, in hertz.
pub const SAMPLE_RATE: u32 = 16_000;

/// Duration of one emitted frame, in milliseconds.
pub const FRAME_MS: u32 = 20;

/// Number of samples in one emitted frame.
pub const FRAME_SAMPLES: usize = 320;

/// Pause of the capture loop while less than one frame is pending, in milliseconds.
pub const DSP_POLL_MS: u64 = 1;

/// Longest wait for the audio device in one poll, in milliseconds.
pub const POLL_TIMEOUT_MS: u32 = 100;

/// Capacity reserved for buffered samples.
pub const RING_BUFFER_SAMPLES: usize = 32768;

/// One frame holds exactly the samples that `FRAME_MS` milliseconds take at `SAMPLE_RATE`.
pub proof fn lemma_frame_samples_match_duration()
    ensures
        FRAME_SAMPLES as int * 1000 == SAMPLE_RATE as int * FRAME_MS as int,
{
}

} // verus!
