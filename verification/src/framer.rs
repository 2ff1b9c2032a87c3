use crate::audio_config::FRAME_SAMPLES;
use vstd::prelude::*;

verus! {

/// Whether a buffer holds at least one whole frame.
pub open spec fn holds_frame(buffer: Seq<i16>) -> bool {
    buffer.len() >= FRAME_SAMPLES
}

/// The oldest frame of a buffer that holds one.
pub open spec fn first_frame(buffer: Seq<i16>) -> Seq<i16> {
    buffer.subrange(0, FRAME_SAMPLES as int)
}

/// What is left of a buffer once its oldest frame is taken out.
pub open spec fn after_first_frame(buffer: Seq<i16>) -> Seq<i16> {
    buffer.subrange(FRAME_SAMPLES as int, buffer.len() as int)
}

/// Ordered buffer of samples that hands them out again in frames of `FRAME_SAMPLES`.
pub struct Framer {
    buffer: Vec<i16>,
}

impl View for Framer {
    type V = Seq<i16>;

    closed spec fn view(&self) -> Seq<i16> {
        self.buffer@
    }
}

impl Framer {
    /// An empty buffer.
    pub fn new() -> (framer: Self)
        ensures
            framer@ == Seq::<i16>::empty(),
    {
        Framer { buffer: Vec::with_capacity(FRAME_SAMPLES * 4) }
    }

    /// Number of samples that wait in the buffer.
    pub fn pending(&self) -> (count: usize)
        ensures
            count == self@.len(),
    {
        self.buffer.len()
    }

    /// Whether a whole frame waits in the buffer.
    pub fn has_frame(&self) -> (ready: bool)
        ensures
            ready == holds_frame(self@),
    {
        self.buffer.len() >= FRAME_SAMPLES
    }

    /// Puts the samples behind those that wait already.
    pub fn append(&mut self, samples: &[i16])
        ensures
            final(self)@ == old(self)@ + samples@,
    {
        self.buffer.extend_from_slice(samples);
    }

    /// Takes the oldest frame out of the buffer, if it holds a whole one. A shorter buffer stays
    /// as it is.
    pub fn next_frame(&mut self) -> (frame: Option<Vec<i16>>)
        ensures
            match frame {
                Some(samples) => holds_frame(old(self)@) && samples@ == first_frame(old(self)@)
                    && final(self)@ == after_first_frame(old(self)@),
                None => !holds_frame(old(self)@) && final(self)@ == old(self)@,
            },
    {
        if self.buffer.len() < FRAME_SAMPLES {
            return None;
        }
        let mut frame = self.buffer.split_off(FRAME_SAMPLES);
        core::mem::swap(&mut self.buffer, &mut frame);
        Some(frame)
    }
}

/// One operation on a framer.
pub enum FramerOp {
    /// Samples are appended.
    Append(Seq<i16>),
    /// A frame is asked for.
    Extract,
}

/// Buffer of a framer that started empty, after the operations.
pub open spec fn buffer_after(ops: Seq<FramerOp>) -> Seq<i16>
    decreases ops.len(),
{
    if ops.len() == 0 {
        Seq::empty()
    } else {
        let before = buffer_after(ops.drop_last());
        match ops.last() {
            FramerOp::Append(samples) => before + samples,
            FramerOp::Extract => if holds_frame(before) {
                after_first_frame(before)
            } else {
                before
            },
        }
    }
}

/// The frames that the operations have taken out of a framer that started empty, in order.
pub open spec fn emitted(ops: Seq<FramerOp>) -> Seq<Seq<i16>>
    decreases ops.len(),
{
    if ops.len() == 0 {
        Seq::empty()
    } else {
        let before = buffer_after(ops.drop_last());
        match ops.last() {
            FramerOp::Append(samples) => emitted(ops.drop_last()),
            FramerOp::Extract => if holds_frame(before) {
                emitted(ops.drop_last()).push(first_frame(before))
            } else {
                emitted(ops.drop_last())
            },
        }
    }
}

/// All samples that the operations have appended, in order.
pub open spec fn appended(ops: Seq<FramerOp>) -> Seq<i16>
    decreases ops.len(),
{
    if ops.len() == 0 {
        Seq::empty()
    } else {
        match ops.last() {
            FramerOp::Append(samples) => appended(ops.drop_last()) + samples,
            FramerOp::Extract => appended(ops.drop_last()),
        }
    }
}

/// Framing is exact. Whatever is appended and whenever frames are asked for, every frame that
/// comes out holds `FRAME_SAMPLES` samples, and the frames in order followed by what waits in
/// the buffer are the appended samples in order: nothing is lost, added, padded or reordered.
pub proof fn lemma_framing_is_exact(ops: Seq<FramerOp>)
    ensures
        forall|i: int|
            0 <= i < emitted(ops).len() ==> (#[trigger] emitted(ops)[i]).len() == FRAME_SAMPLES,
        emitted(ops).flatten() + buffer_after(ops) == appended(ops),
        emitted(ops).len() * FRAME_SAMPLES + buffer_after(ops).len() == appended(ops).len(),
    decreases ops.len(),
{
    if ops.len() > 0 {
        let head = ops.drop_last();
        let before = buffer_after(head);
        lemma_framing_is_exact(head);
        if ops.last() is Extract && holds_frame(before) {
            emitted(head).lemma_flatten_push(first_frame(before));
            assert(first_frame(before) + after_first_frame(before) =~= before);
        }
    }
}

/// Frames come out in the order of arrival. Frame `i` holds the appended samples
/// `i * FRAME_SAMPLES` up to, not including, `(i + 1) * FRAME_SAMPLES`, and the buffer holds the
/// appended samples behind the last frame taken: no frame is skipped, repeated or reordered.
pub proof fn lemma_frames_are_consecutive(ops: Seq<FramerOp>)
    ensures
        emitted(ops).len() * FRAME_SAMPLES <= appended(ops).len(),
        forall|i: int|
            0 <= i < emitted(ops).len() ==> #[trigger] emitted(ops)[i] == appended(ops).subrange(
                i * FRAME_SAMPLES,
                (i + 1) * FRAME_SAMPLES,
            ),
        buffer_after(ops) == appended(ops).subrange(
            emitted(ops).len() * FRAME_SAMPLES,
            appended(ops).len() as int,
        ),
    decreases ops.len(),
{
    lemma_framing_is_exact(ops);
    if ops.len() == 0 {
        assert(buffer_after(ops) =~= appended(ops).subrange(0, 0));
    } else {
        let head = ops.drop_last();
        let before = buffer_after(head);
        let taken = emitted(head).len() as int;
        let stream = appended(ops);
        lemma_frames_are_consecutive(head);
        lemma_framing_is_exact(head);
        match ops.last() {
            FramerOp::Append(samples) => {
                assert forall|i: int| 0 <= i < emitted(ops).len() implies #[trigger] emitted(
                    ops,
                )[i] == stream.subrange(i * FRAME_SAMPLES, (i + 1) * FRAME_SAMPLES) by {
                    assert(appended(head).subrange(i * FRAME_SAMPLES, (i + 1) * FRAME_SAMPLES)
                        =~= stream.subrange(i * FRAME_SAMPLES, (i + 1) * FRAME_SAMPLES));
                }
                assert(buffer_after(ops) =~= stream.subrange(
                    taken * FRAME_SAMPLES,
                    stream.len() as int,
                ));
            },
            FramerOp::Extract => {
                if holds_frame(before) {
                    assert(first_frame(before) =~= stream.subrange(
                        taken * FRAME_SAMPLES,
                        (taken + 1) * FRAME_SAMPLES,
                    ));
                    assert(after_first_frame(before) =~= stream.subrange(
                        (taken + 1) * FRAME_SAMPLES,
                        stream.len() as int,
                    ));
                }
            },
        }
    }
}

} // verus!
