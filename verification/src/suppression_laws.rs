use crate::silence_suppression::{FrameActionView, SuppressionState, SuppressorModel};
use vstd::prelude::*;

verus! {

/// State after the first `n` of the frames have been processed, frame `i` at `times[i]`.
pub open spec fn state_after(
    m: SuppressorModel,
    frames: Seq<Seq<i16>>,
    times: Seq<nat>,
    n: nat,
) -> SuppressorModel
    decreases n,
{
    if n == 0 {
        m
    } else {
        state_after(m, frames, times, (n - 1) as nat).next(frames[n - 1], times[n - 1])
    }
}

/// What is done with frame `i` of the run.
pub open spec fn action_at(
    m: SuppressorModel,
    frames: Seq<Seq<i16>>,
    times: Seq<nat>,
    i: nat,
) -> FrameActionView {
    state_after(m, frames, times, i).action(frames[i as int], times[i as int])
}

/// The clock never runs backwards over the run.
pub open spec fn monotonic(times: Seq<nat>) -> bool {
    forall|i: int, j: int| 0 <= i <= j < times.len() ==> times[i] <= times[j]
}

/// Processing a frame never changes the thresholds.
pub proof fn lemma_config_is_kept(
    m: SuppressorModel,
    frames: Seq<Seq<i16>>,
    times: Seq<nat>,
    n: nat,
)
    ensures
        state_after(m, frames, times, n).config == m.config,
    decreases n,
{
    if n > 0 {
        lemma_config_is_kept(m, frames, times, (n - 1) as nat);
    }
}

/// One step. A frame at or above the threshold is forwarded and makes the state `Active`. A
/// quiet frame is forwarded, with the state `Hangover`, as long as speech ended no longer ago
/// than the hangover. Any later quiet frame makes the state `Suppressed` and is either replaced
/// by a keepalive, if at least the keepalive interval has passed since the last one, or dropped;
/// a keepalive restarts the interval.
pub proof fn lemma_step_cases(m: SuppressorModel, frame: Seq<i16>, now: nat)
    ensures
        m.is_speech(frame) ==> m.action(frame, now) == FrameActionView::Send(frame) && m.next(
            frame,
            now,
        ).state == SuppressionState::Active && m.next(frame, now).last_speech_time == now,
        m.in_hangover(frame, now) ==> m.action(frame, now) == FrameActionView::Send(frame)
            && m.next(frame, now).state == SuppressionState::Hangover,
        !m.is_speech(frame) && !m.in_hangover(frame, now) ==> m.next(frame, now).state
            == SuppressionState::Suppressed && m.action(frame, now) != FrameActionView::Send(
            frame,
        ),
        m.action(frame, now) == FrameActionView::SendSilence ==> m.next(
            frame,
            now,
        ).last_keepalive_time == now,
        m.action(frame, now) != FrameActionView::SendSilence ==> m.next(
            frame,
            now,
        ).last_keepalive_time == m.last_keepalive_time,
        !m.is_speech(frame) ==> m.next(frame, now).last_speech_time == m.last_speech_time,
        !m.is_speech(frame) && !m.in_hangover(frame, now) ==> (m.action(frame, now)
            == FrameActionView::SendSilence <==> m.keepalive_due(now)),
        !m.is_speech(frame) && !m.in_hangover(frame, now) ==> (m.action(frame, now)
            == FrameActionView::Suppress <==> !m.keepalive_due(now)),
{
}

/// From frame `i` to frame `n` the time of the last keepalive never lies before `times[i]`,
/// if frame `i` was replaced by a keepalive.
proof fn lemma_keepalive_time_grows(
    m: SuppressorModel,
    frames: Seq<Seq<i16>>,
    times: Seq<nat>,
    i: nat,
    n: nat,
)
    requires
        frames.len() == times.len(),
        monotonic(times),
        i < n <= times.len(),
        action_at(m, frames, times, i) == FrameActionView::SendSilence,
    ensures
        times[i as int] <= state_after(m, frames, times, n).last_keepalive_time,
        state_after(m, frames, times, n).last_keepalive_time <= times[n - 1],
    decreases n,
{
    if n - 1 > i {
        lemma_keepalive_time_grows(m, frames, times, i, (n - 1) as nat);
    }
}

/// Keepalive spacing. While the clock does not run backwards, two keepalive frames are never
/// closer together than the keepalive interval.
pub proof fn lemma_keepalives_are_spaced(
    m: SuppressorModel,
    frames: Seq<Seq<i16>>,
    times: Seq<nat>,
    i: nat,
    j: nat,
)
    requires
        frames.len() == times.len(),
        monotonic(times),
        i < j < times.len(),
        action_at(m, frames, times, i) == FrameActionView::SendSilence,
        action_at(m, frames, times, j) == FrameActionView::SendSilence,
    ensures
        times[j as int] - times[i as int] >= m.config.silence_keepalive_interval,
{
    lemma_keepalive_time_grows(m, frames, times, i, j);
    lemma_config_is_kept(m, frames, times, j);
}

/// From frame `i` to frame `n` the time of the last speech is `times[i]`, if frame `i` was
/// speech and every frame after it was quiet.
proof fn lemma_speech_time_stays(
    m: SuppressorModel,
    frames: Seq<Seq<i16>>,
    times: Seq<nat>,
    i: nat,
    n: nat,
)
    requires
        frames.len() == times.len(),
        i < n <= times.len(),
        m.is_speech(frames[i as int]),
        forall|k: int| i < k < n ==> !m.is_speech(#[trigger] frames[k]),
    ensures
        state_after(m, frames, times, n).last_speech_time == times[i as int],
    decreases n,
{
    lemma_config_is_kept(m, frames, times, (n - 1) as nat);
    if n - 1 > i {
        lemma_speech_time_stays(m, frames, times, i, (n - 1) as nat);
    }
}

/// Tail of speech. While the clock does not run backwards, a quiet frame that follows speech
/// with only quiet frames in between is forwarded if and only if it comes no later than the
/// hangover after the last speech frame; from then on the state is `Suppressed` and a frame is
/// replaced by a keepalive or dropped.
pub proof fn lemma_tail_of_speech(
    m: SuppressorModel,
    frames: Seq<Seq<i16>>,
    times: Seq<nat>,
    i: nat,
    j: nat,
)
    requires
        frames.len() == times.len(),
        monotonic(times),
        i < j < times.len(),
        m.is_speech(frames[i as int]),
        forall|k: int| i < k <= j ==> !m.is_speech(#[trigger] frames[k]),
    ensures
        action_at(m, frames, times, i) == FrameActionView::Send(frames[i as int]),
        times[j as int] - times[i as int] <= m.config.speech_hangover ==> action_at(
            m,
            frames,
            times,
            j,
        ) == FrameActionView::Send(frames[j as int]) && state_after(
            m,
            frames,
            times,
            j + 1,
        ).state == SuppressionState::Hangover,
        times[j as int] - times[i as int] > m.config.speech_hangover ==> action_at(
            m,
            frames,
            times,
            j,
        ) != FrameActionView::Send(frames[j as int]) && state_after(
            m,
            frames,
            times,
            j + 1,
        ).state == SuppressionState::Suppressed,
{
    lemma_config_is_kept(m, frames, times, i);
    lemma_config_is_kept(m, frames, times, j);
    lemma_speech_time_stays(m, frames, times, i, j);
}

} // verus!
