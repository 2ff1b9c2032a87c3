use std::time::Instant;
use vstd::prelude::*;
use vstd::slice::slice_to_vec;

verus! {

/// Opaque monotonic timestamp of the standard library.
#[verifier::external_type_specification]
#[verifier::external_body]
pub struct ExInstant(std::time::Instant);

/// `Instant::now` reads the monotonic clock. Nothing is claimed of the value it returns.
pub assume_specification[ std::time::Instant::now ]() -> std::time::Instant;

/// `Instant::elapsed` measures the time since the instant was taken. Nothing is claimed of the
/// value it returns.
pub assume_specification[ std::time::Instant::elapsed ](
    instant: &std::time::Instant,
) -> std::time::Duration;

/// `Duration::as_nanos` gives a duration in whole nanoseconds. Nothing is claimed of the value
/// it returns.
pub assume_specification[ std::time::Duration::as_nanos ](duration: &std::time::Duration) -> u128;

/// Thresholds of the silence suppressor.
#[derive(Clone, Copy, PartialEq, Eq, Debug)]
pub struct SilenceSuppressionConfig {
    /// Level on the 16-bit scale from which a frame counts as speech.
    pub speech_threshold_rms: u32,
    /// Time after the last speech frame, in nanoseconds, during which frames are still forwarded.
    pub speech_hangover: u128,
    /// Least distance, in nanoseconds, between two keepalive frames.
    pub silence_keepalive_interval: u128,
}

/// The default thresholds: level 100, hangover 200 ms, a keepalive every 100 ms.
pub open spec fn default_config() -> SilenceSuppressionConfig {
    SilenceSuppressionConfig {
        speech_threshold_rms: 100,
        speech_hangover: 200_000_000,
        silence_keepalive_interval: 100_000_000,
    }
}

impl Default for SilenceSuppressionConfig {
    /// Level 100, hangover 200 ms, a keepalive every 100 ms.
    fn default() -> (config: Self)
        ensures
            config == default_config(),
    {
        SilenceSuppressionConfig {
            speech_threshold_rms: 100,
            speech_hangover: 200_000_000,
            silence_keepalive_interval: 100_000_000,
        }
    }
}

/// Classification of the stream after the latest frame.
#[derive(Clone, Copy, PartialEq, Eq, Debug)]
pub enum SuppressionState {
    /// The latest frame was speech.
    Active,
    /// The latest frame was quiet, but speech ended no longer ago than the hangover.
    Hangover,
    /// Speech ended longer ago than the hangover.
    Suppressed,
}

/// What is to be done with one frame.
#[derive(PartialEq, Eq, Debug)]
pub enum FrameAction {
    /// Forward the frame as it is.
    Send(Vec<i16>),
    /// Forward a frame of zeros in its place.
    SendSilence,
    /// Forward nothing.
    Suppress,
}

/// A `FrameAction` with its payload as a sequence.
pub enum FrameActionView {
    Send(Seq<i16>),
    SendSilence,
    Suppress,
}

impl View for FrameAction {
    type V = FrameActionView;

    open spec fn view(&self) -> FrameActionView {
        match self {
            FrameAction::Send(audio) => FrameActionView::Send(audio@),
            FrameAction::SendSilence => FrameActionView::SendSilence,
            FrameAction::Suppress => FrameActionView::Suppress,
        }
    }
}

/// Number of samples that the energy measure reads: every fourth, starting with the first.
pub open spec fn strided_count(len: nat) -> nat {
    (len + 3) / 4
}

/// Sum of the squares of the first `k` samples that the energy measure reads.
pub open spec fn strided_energy(frame: Seq<i16>, k: nat) -> nat
    decreases k,
{
    if k == 0 {
        0
    } else {
        let sample = frame[4 * (k - 1)] as int;
        strided_energy(frame, (k - 1) as nat) + (sample * sample) as nat
    }
}

/// Mean of the squares of every fourth sample, rounded down; zero for an empty frame.
pub open spec fn mean_square(frame: Seq<i16>) -> nat {
    if frame.len() == 0 {
        0
    } else {
        strided_energy(frame, strided_count(frame.len())) / strided_count(frame.len())
    }
}

/// Square root of `n`, rounded down.
pub open spec fn floor_sqrt(n: nat) -> nat
    decreases n,
{
    if n == 0 {
        0
    } else {
        let r = floor_sqrt((n - 1) as nat);
        if (r + 1) * (r + 1) <= n {
            r + 1
        } else {
            r
        }
    }
}

/// Root mean square of every fourth sample, rounded down.
pub open spec fn rms_of(frame: Seq<i16>) -> nat {
    floor_sqrt(mean_square(frame))
}

/// Time from `since` to `now`; zero where `now` is the earlier one.
pub open spec fn elapsed(now: nat, since: nat) -> nat {
    if now >= since {
        (now - since) as nat
    } else {
        0
    }
}

/// Mathematical state of a silence suppressor. Times are nanoseconds since it was made.
pub struct SuppressorModel {
    pub config: SilenceSuppressionConfig,
    pub state: SuppressionState,
    pub last_speech_time: nat,
    pub last_keepalive_time: nat,
}

impl SuppressorModel {
    /// State of a suppressor that has seen no frame yet.
    pub open spec fn initial(config: SilenceSuppressionConfig) -> SuppressorModel {
        SuppressorModel {
            config,
            state: SuppressionState::Active,
            last_speech_time: 0,
            last_keepalive_time: 0,
        }
    }

    /// The frame reaches the speech threshold.
    pub open spec fn is_speech(self, frame: Seq<i16>) -> bool {
        rms_of(frame) >= self.config.speech_threshold_rms
    }

    /// The frame is quiet but speech ended no longer ago than the hangover.
    pub open spec fn in_hangover(self, frame: Seq<i16>, now: nat) -> bool {
        !self.is_speech(frame) && elapsed(now, self.last_speech_time) <= self.config.speech_hangover
    }

    /// A keepalive frame is due.
    pub open spec fn keepalive_due(self, now: nat) -> bool {
        elapsed(now, self.last_keepalive_time) >= self.config.silence_keepalive_interval
    }

    /// What is done with `frame` when it is processed at `now`.
    pub open spec fn action(self, frame: Seq<i16>, now: nat) -> FrameActionView {
        if self.is_speech(frame) || self.in_hangover(frame, now) {
            FrameActionView::Send(frame)
        } else if self.keepalive_due(now) {
            FrameActionView::SendSilence
        } else {
            FrameActionView::Suppress
        }
    }

    /// State after `frame` has been processed at `now`.
    pub open spec fn next(self, frame: Seq<i16>, now: nat) -> SuppressorModel {
        if self.is_speech(frame) {
            SuppressorModel { state: SuppressionState::Active, last_speech_time: now, ..self }
        } else if self.in_hangover(frame, now) {
            SuppressorModel { state: SuppressionState::Hangover, ..self }
        } else if self.keepalive_due(now) {
            SuppressorModel {
                state: SuppressionState::Suppressed,
                last_keepalive_time: now,
                ..self
            }
        } else {
            SuppressorModel { state: SuppressionState::Suppressed, ..self }
        }
    }
}

/// Three-state machine that forwards speech and its tail and replaces longer silence by sparse
/// keepalive frames.
pub struct SilenceSuppressor {
    config: SilenceSuppressionConfig,
    state: SuppressionState,
    last_speech_time: u128,
    last_keepalive_time: u128,
    origin: Instant,
}

impl View for SilenceSuppressor {
    type V = SuppressorModel;

    closed spec fn view(&self) -> SuppressorModel {
        SuppressorModel {
            config: self.config,
            state: self.state,
            last_speech_time: self.last_speech_time as nat,
            last_keepalive_time: self.last_keepalive_time as nat,
        }
    }
}

impl SilenceSuppressor {
    /// A suppressor in the state `Active` whose clock starts now.
    pub fn new(config: SilenceSuppressionConfig) -> (suppressor: Self)
        ensures
            suppressor@ == SuppressorModel::initial(config),
    {
        SilenceSuppressor {
            config,
            state: SuppressionState::Active,
            last_speech_time: 0,
            last_keepalive_time: 0,
            origin: Instant::now(),
        }
    }

    /// Nanoseconds on the suppressor's clock.
    pub(crate) fn now(&self) -> (nanos: u128) {
        let since = self.origin.elapsed();
        since.as_nanos()
    }

    /// Classification after the latest frame.
    pub fn state(&self) -> (state: SuppressionState)
        ensures
            state == self@.state,
    {
        self.state
    }

    /// Processes one frame at the present time. Whatever the clock reads, the outcome is the one
    /// that `process_at` gives for some time: speech is forwarded, what is forwarded is the
    /// frame itself, and the thresholds stay.
    pub fn process(&mut self, frame: &[i16]) -> (action: FrameAction)
        ensures
            exists|now: nat|
                action@ == old(self)@.action(frame@, now) && final(self)@ == old(self)@.next(
                    frame@,
                    now,
                ),
            old(self)@.is_speech(frame@) ==> action@ == FrameActionView::Send(frame@)
                && final(self)@.state == SuppressionState::Active,
            action@ is Send ==> action@ == FrameActionView::Send(frame@),
            final(self)@.config == old(self)@.config,
    {
        let now = self.now();
        let action = self.process_at(frame, now);
        assert(action@ == old(self)@.action(frame@, now as nat));
        action
    }

    /// Processes one frame at the time `now`, in nanoseconds on the suppressor's clock.
    pub fn process_at(&mut self, frame: &[i16], now: u128) -> (action: FrameAction)
        ensures
            action@ == old(self)@.action(frame@, now as nat),
            final(self)@ == old(self)@.next(frame@, now as nat),
    {
        let rms = calculate_rms(frame);
        if rms >= self.config.speech_threshold_rms {
            self.state = SuppressionState::Active;
            self.last_speech_time = now;
            return FrameAction::Send(slice_to_vec(frame));
        }
        let since_speech: u128 = if now >= self.last_speech_time {
            now - self.last_speech_time
        } else {
            0
        };
        if since_speech <= self.config.speech_hangover {
            self.state = SuppressionState::Hangover;
            return FrameAction::Send(slice_to_vec(frame));
        }
        self.state = SuppressionState::Suppressed;
        let since_keepalive: u128 = if now >= self.last_keepalive_time {
            now - self.last_keepalive_time
        } else {
            0
        };
        if since_keepalive >= self.config.silence_keepalive_interval {
            self.last_keepalive_time = now;
            FrameAction::SendSilence
        } else {
            FrameAction::Suppress
        }
    }
}

/// Root mean square of every fourth sample of the frame, rounded down; zero for an empty frame.
pub fn calculate_rms(samples: &[i16]) -> (rms: u32)
    ensures
        rms == rms_of(samples@),
        rms * rms <= mean_square(samples@) < (rms + 1) * (rms + 1),
{
    let len = samples.len();
    if len == 0 {
        proof {
            lemma_floor_sqrt_is_root(0);
        }
        return 0;
    }
    let count: usize = (len - 1) / 4 + 1;
    let mut sum: u128 = 0;
    let mut k: usize = 0;
    while k < count
        invariant
            len == samples.len(),
            count == strided_count(len as nat),
            k <= count,
            sum == strided_energy(samples@, k as nat),
            sum <= k * 0x4000_0000,
        decreases count - k,
    {
        let value: i64 = samples[4 * k] as i64;
        assert(0 <= value * value <= 0x4000_0000) by (nonlinear_arith)
            requires
                -32768 <= value <= 32767,
        ;
        sum = sum + (value * value) as u128;
        k = k + 1;
    }
    let mean: u128 = sum / (count as u128);
    assert(mean <= 0x4000_0000) by (nonlinear_arith)
        requires
            mean == sum / (count as u128),
            sum <= count * 0x4000_0000,
            count > 0,
    ;
    integer_sqrt(mean as u64)
}

/// Square root of `n`, rounded down: the one number whose square is at most `n` while the
/// square of its successor is above `n`.
pub fn integer_sqrt(n: u64) -> (root: u32)
    ensures
        root == floor_sqrt(n as nat),
        root * root <= n < (root + 1) * (root + 1),
{
    let mut low: u128 = 0;
    let mut high: u128 = 0x1_0000_0000;
    while high - low > 1
        invariant
            low < high <= 0x1_0000_0000,
            low * low <= n < high * high,
        decreases high - low,
    {
        let mid: u128 = (low + high) / 2;
        assert(mid * mid <= 0x1_0000_0000 * 0x1_0000_0000) by (nonlinear_arith)
            requires
                mid <= 0x1_0000_0000,
        ;
        if mid * mid <= n as u128 {
            low = mid;
        } else {
            high = mid;
        }
    }
    proof {
        lemma_floor_sqrt_is_root(n as nat);
        lemma_root_is_unique(n as nat, low as nat, floor_sqrt(n as nat));
    }
    low as u32
}

/// `floor_sqrt(n)` is the greatest number whose square does not exceed `n`.
pub proof fn lemma_floor_sqrt_is_root(n: nat)
    ensures
        floor_sqrt(n) * floor_sqrt(n) <= n < (floor_sqrt(n) + 1) * (floor_sqrt(n) + 1),
    decreases n,
{
    let root = floor_sqrt(n);
    if n > 0 {
        lemma_floor_sqrt_is_root((n - 1) as nat);
        let r = floor_sqrt((n - 1) as nat);
        if (r + 1) * (r + 1) <= n {
            assert((r + 1) * (r + 1) < (root + 1) * (root + 1)) by (nonlinear_arith)
                requires
                    r >= 0,
                    root == r + 1,
            ;
        }
    } else {
        assert(root * root == 0 && (root + 1) * (root + 1) == 1) by (nonlinear_arith)
            requires
                root == 0,
        ;
    }
}

/// Only one number has its square at most `n` and the square of its successor above `n`.
pub proof fn lemma_root_is_unique(n: nat, a: nat, b: nat)
    requires
        a * a <= n < (a + 1) * (a + 1),
        b * b <= n < (b + 1) * (b + 1),
    ensures
        a == b,
{
    if a < b {
        assert((a + 1) * (a + 1) <= b * b) by (nonlinear_arith)
            requires
                a + 1 <= b,
        ;
    } else if b < a {
        assert((b + 1) * (b + 1) <= a * a) by (nonlinear_arith)
            requires
                b + 1 <= a,
        ;
    }
}

/// A frame of `size` zero samples.
pub fn generate_silence_frame(size: usize) -> (frame: Vec<i16>)
    ensures
        frame@.len() == size,
        forall|i: int| 0 <= i < size ==> frame@[i] == 0,
{
    vec![0i16; size]
}

} // verus!
