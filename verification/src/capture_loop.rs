use crate::audio_config::{FRAME_SAMPLES, SAMPLE_RATE};
use crate::framer::{after_first_frame, first_frame, holds_frame, Framer};
use crate::pcm::encoded;
use crate::resampler_laws::{lemma_count_brackets_chunk, lemma_count_splits, lemma_empty_chunk};
use crate::silence_suppression::{
    default_config, generate_silence_frame, FrameAction, FrameActionView,
    SilenceSuppressionConfig, SilenceSuppressor, SuppressorModel,
};
use crate::streaming_resampler::{lemma_tap_step, ResamplerModel, StreamingResampler};
use vstd::prelude::*;

verus! {

/// What the capture loop does next.
#[derive(PartialEq, Eq, Debug)]
pub enum LoopStep {
    /// Hand this frame to the sink.
    Dispatch(Vec<i16>),
    /// A frame was taken and nothing is to be sent for it.
    Dropped,
    /// Less than one frame is pending: poll the source again.
    Idle,
}

/// A `LoopStep` with its payload as a sequence.
pub enum LoopStepView {
    Dispatch(Seq<i16>),
    Dropped,
    Idle,
}

impl View for LoopStep {
    type V = LoopStepView;

    open spec fn view(&self) -> LoopStepView {
        match self {
            LoopStep::Dispatch(audio) => LoopStepView::Dispatch(audio@),
            LoopStep::Dropped => LoopStepView::Dropped,
            LoopStep::Idle => LoopStepView::Idle,
        }
    }
}

/// The keepalive frame: `FRAME_SAMPLES` zeros.
pub open spec fn silence_frame() -> Seq<i16> {
    Seq::new(FRAME_SAMPLES as nat, |i: int| 0i16)
}

/// Mathematical state of the stages between the audio source and the sink.
pub struct PipelineModel {
    pub resampler: ResamplerModel,
    pub buffer: Seq<i16>,
    pub suppressor: SuppressorModel,
}

impl PipelineModel {
    /// State at the start of a session on a source of the given rate.
    pub open spec fn initial(input_rate: nat) -> PipelineModel {
        PipelineModel {
            resampler: ResamplerModel::fresh(input_rate, SAMPLE_RATE as nat),
            buffer: Seq::empty(),
            suppressor: SuppressorModel::initial(default_config()),
        }
    }

    /// State after the samples of one poll have been resampled and buffered.
    pub open spec fn fed(self, samples: Seq<i32>) -> PipelineModel {
        PipelineModel {
            resampler: self.resampler.advanced(samples),
            buffer: self.buffer + self.resampler.resampled(samples),
            suppressor: self.suppressor,
        }
    }

    /// What the loop does next at the time `now`: nothing while less than a frame is pending,
    /// else what the suppressor decides for the oldest frame.
    pub open spec fn step(self, now: nat) -> LoopStepView {
        if !holds_frame(self.buffer) {
            LoopStepView::Idle
        } else {
            match self.suppressor.action(first_frame(self.buffer), now) {
                FrameActionView::Send(audio) => LoopStepView::Dispatch(audio),
                FrameActionView::SendSilence => LoopStepView::Dispatch(silence_frame()),
                FrameActionView::Suppress => LoopStepView::Dropped,
            }
        }
    }

    /// State after that step.
    pub open spec fn after_step(self, now: nat) -> PipelineModel {
        if !holds_frame(self.buffer) {
            self
        } else {
            PipelineModel {
                resampler: self.resampler,
                buffer: after_first_frame(self.buffer),
                suppressor: self.suppressor.next(first_frame(self.buffer), now),
            }
        }
    }
}

/// Every payload is one frame. Whatever the state and the time, a step that dispatches hands
/// out exactly `FRAME_SAMPLES` samples, which make `2 * FRAME_SAMPLES` bytes for the sink, and
/// a step that is not idle shortens the buffer by exactly one frame.
pub proof fn lemma_dispatch_is_one_frame(m: PipelineModel, now: nat)
    ensures
        m.step(now) matches LoopStepView::Dispatch(audio) ==> audio.len() == FRAME_SAMPLES
            && encoded(audio).len() == 2 * FRAME_SAMPLES,
        m.step(now) is Idle <==> m.buffer.len() < FRAME_SAMPLES,
        m.step(now) is Idle ==> m.after_step(now) == m,
        !(m.step(now) is Idle) ==> m.after_step(now).buffer.len() + FRAME_SAMPLES
            == m.buffer.len(),
{
}

/// One operation of the capture loop on the stages.
pub enum PipelineOp {
    /// The samples of one poll are fed in.
    Feed(Seq<i32>),
    /// A step is taken at the given time.
    Step(nat),
}

/// State of the stages after the operations.
pub open spec fn state_after(m: PipelineModel, ops: Seq<PipelineOp>) -> PipelineModel
    decreases ops.len(),
{
    if ops.len() == 0 {
        m
    } else {
        let before = state_after(m, ops.drop_last());
        match ops.last() {
            PipelineOp::Feed(samples) => before.fed(samples),
            PipelineOp::Step(now) => before.after_step(now),
        }
    }
}

/// Number of input samples that the operations have fed in.
pub open spec fn samples_fed(ops: Seq<PipelineOp>) -> nat
    decreases ops.len(),
{
    if ops.len() == 0 {
        0
    } else {
        match ops.last() {
            PipelineOp::Feed(samples) => samples_fed(ops.drop_last()) + samples.len(),
            PipelineOp::Step(now) => samples_fed(ops.drop_last()),
        }
    }
}

/// Number of frames that the steps among the operations have taken out of the buffer.
pub open spec fn frames_taken(m: PipelineModel, ops: Seq<PipelineOp>) -> nat
    decreases ops.len(),
{
    if ops.len() == 0 {
        0
    } else {
        let before = state_after(m, ops.drop_last());
        match ops.last() {
            PipelineOp::Feed(samples) => frames_taken(m, ops.drop_last()),
            PipelineOp::Step(now) => frames_taken(m, ops.drop_last()) + if holds_frame(
                before.buffer,
            ) {
                1nat
            } else {
                0nat
            },
        }
    }
}

/// No sample is lost between the source and the suppressor. However the input is cut into
/// polls and whenever steps are taken, the frames taken so far and the samples still buffered
/// add up to what the resampler yields for the whole input in one piece, and the resampler's
/// cursor is where that one piece would have left it.
pub proof fn lemma_pipeline_keeps_every_sample(m: PipelineModel, ops: Seq<PipelineOp>)
    requires
        m.resampler.wf(),
    ensures
        state_after(m, ops).resampler.wf(),
        state_after(m, ops).resampler.input_rate == m.resampler.input_rate,
        state_after(m, ops).resampler.output_rate == m.resampler.output_rate,
        state_after(m, ops).resampler.phase == m.resampler.phase_after(samples_fed(ops)),
        frames_taken(m, ops) * FRAME_SAMPLES + state_after(m, ops).buffer.len() == m.buffer.len()
            + m.resampler.output_count(samples_fed(ops)),
    decreases ops.len(),
{
    let r = m.resampler;
    if ops.len() == 0 {
        lemma_count_brackets_chunk(r, 0);
        lemma_tap_step(r, 0);
    } else {
        let head = ops.drop_last();
        let before = state_after(m, head);
        lemma_pipeline_keeps_every_sample(m, head);
        match ops.last() {
            PipelineOp::Feed(samples) => {
                let n1 = samples_fed(head);
                let n2 = samples.len();
                lemma_count_splits(r, n1, n2);
                let shifted = ResamplerModel { phase: r.phase_after(n1), ..r };
                assert(before.resampler.output_count(n2) == shifted.output_count(n2));
                assert(before.resampler.phase_after(n2) == shifted.phase_after(n2));
                lemma_count_brackets_chunk(before.resampler, n2);
                if n2 == 0 {
                    lemma_tap_step(before.resampler, 0);
                }
            },
            PipelineOp::Step(now) => {},
        }
    }
}

/// The stages of a capture session between the audio source and the sink: resampler, frame
/// buffer and silence suppressor.
pub struct CapturePipeline {
    resampler: StreamingResampler,
    framer: Framer,
    suppressor: SilenceSuppressor,
}

impl View for CapturePipeline {
    type V = PipelineModel;

    closed spec fn view(&self) -> PipelineModel {
        PipelineModel {
            resampler: self.resampler@,
            buffer: self.framer@,
            suppressor: self.suppressor@,
        }
    }
}

impl CapturePipeline {
    /// The stages for a source that delivers `input_sample_rate` samples per second, with the
    /// default thresholds and a clock that starts now.
    pub fn new(input_sample_rate: u32) -> (pipeline: Self)
        requires
            input_sample_rate > 0,
        ensures
            pipeline@ == PipelineModel::initial(input_sample_rate as nat),
    {
        CapturePipeline {
            resampler: StreamingResampler::new(input_sample_rate, SAMPLE_RATE),
            framer: Framer::new(),
            suppressor: SilenceSuppressor::new(SilenceSuppressionConfig::default()),
        }
    }

    /// Resamples what one poll of the source returned and buffers the result. An empty poll
    /// changes nothing.
    pub fn feed(&mut self, samples: &[i32])
        ensures
            final(self)@ == old(self)@.fed(samples@),
            samples@.len() == 0 ==> final(self)@ == old(self)@,
    {
        if samples.len() > 0 {
            let resampled = self.resampler.resample(samples);
            self.framer.append(resampled.as_slice());
        } else {
            assert(self@.fed(samples@).buffer =~= self@.buffer) by {
                lemma_empty_chunk(self@.resampler, samples@);
            }
        }
    }

    /// Number of resampled samples that wait for their frame to fill up.
    pub fn pending(&self) -> (count: usize)
        ensures
            count == self@.buffer.len(),
    {
        self.framer.pending()
    }

    /// Whether less than one frame is pending, so that the loop may pause before it polls again.
    pub fn is_idle(&self) -> (idle: bool)
        ensures
            idle == !holds_frame(self@.buffer),
    {
        !self.framer.has_frame()
    }

    /// Takes the next step at the present time. Whatever the clock reads, the outcome is the
    /// one that `step_at` gives for some time: it is idle exactly when less than a frame is
    /// pending, else the buffer loses its oldest frame, and a payload is one frame long.
    pub fn step(&mut self) -> (step: LoopStep)
        ensures
            exists|now: nat|
                step@ == old(self)@.step(now) && final(self)@ == old(self)@.after_step(now),
            step@ is Idle <==> !holds_frame(old(self)@.buffer),
            step@ is Idle ==> final(self)@ == old(self)@,
            !(step@ is Idle) ==> final(self)@.buffer == after_first_frame(old(self)@.buffer),
            final(self)@.resampler == old(self)@.resampler,
            step@ matches LoopStepView::Dispatch(audio) ==> audio.len() == FRAME_SAMPLES,
    {
        let now = self.suppressor.now();
        let step = self.step_at(now);
        assert(step@ == old(self)@.step(now as nat));
        step
    }

    /// Takes the next step at the time `now`, in nanoseconds since the session began: takes the
    /// oldest frame out of the buffer, if a whole one is pending, and lets the suppressor
    /// decide on it.
    pub fn step_at(&mut self, now: u128) -> (step: LoopStep)
        ensures
            step@ == old(self)@.step(now as nat),
            final(self)@ == old(self)@.after_step(now as nat),
    {
        match self.framer.next_frame() {
            None => LoopStep::Idle,
            Some(frame) => {
                match self.suppressor.process_at(frame.as_slice(), now) {
                    FrameAction::Send(audio) => LoopStep::Dispatch(audio),
                    FrameAction::SendSilence => {
                        let silence = generate_silence_frame(FRAME_SAMPLES);
                        assert(silence@ =~= silence_frame());
                        LoopStep::Dispatch(silence)
                    },
                    FrameAction::Suppress => LoopStep::Dropped,
                }
            },
        }
    }
}

} // verus!
