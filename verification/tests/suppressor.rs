use audio_capture::silence_suppression::{
    calculate_rms, generate_silence_frame, integer_sqrt, FrameAction, SilenceSuppressionConfig,
    SilenceSuppressor, SuppressionState,
};

const MS: u128 = 1_000_000;

fn loud() -> Vec<i16> {
    vec![5000; 320]
}

fn quiet() -> Vec<i16> {
    vec![0; 320]
}

fn kind(action: &FrameAction) -> u8 {
    match action {
        FrameAction::Send(_) => 0,
        FrameAction::SendSilence => 1,
        FrameAction::Suppress => 2,
    }
}

#[test]
fn default_config_has_the_documented_thresholds() {
    let c = SilenceSuppressionConfig::default();
    assert_eq!(c.speech_threshold_rms, 100);
    assert_eq!(c.speech_hangover, 200 * MS);
    assert_eq!(c.silence_keepalive_interval, 100 * MS);
}

#[test]
fn new_suppressor_is_active() {
    let s = SilenceSuppressor::new(SilenceSuppressionConfig::default());
    assert_eq!(s.state(), SuppressionState::Active);
}

#[test]
fn rms_reads_every_fourth_sample() {
    assert_eq!(calculate_rms(&[]), 0);
    assert_eq!(calculate_rms(&[1000]), 1000);
    assert_eq!(calculate_rms(&[1000, 0, 0, 0]), 1000);
    assert_eq!(calculate_rms(&[0, 1000, 1000, 1000]), 0);
    // Samples 0 and 4 are read: mean square (9 + 16) / 2 = 12, root 3.
    assert_eq!(calculate_rms(&[3, 9999, 9999, 9999, 4]), 3);
    assert_eq!(calculate_rms(&[-32768; 320]), 32768);
    assert_eq!(calculate_rms(&[32767; 7]), 32767);
    assert_eq!(calculate_rms(&[100; 320]), 100);
    assert_eq!(calculate_rms(&[-100; 320]), 100);
}

#[test]
fn integer_sqrt_rounds_down() {
    assert_eq!(integer_sqrt(0), 0);
    assert_eq!(integer_sqrt(1), 1);
    assert_eq!(integer_sqrt(3), 1);
    assert_eq!(integer_sqrt(4), 2);
    assert_eq!(integer_sqrt(9999), 99);
    assert_eq!(integer_sqrt(10000), 100);
    assert_eq!(integer_sqrt(10001), 100);
    assert_eq!(integer_sqrt(0x4000_0000), 32768);
    assert_eq!(integer_sqrt(0x4000_0000 - 1), 32767);
    assert_eq!(integer_sqrt(u64::MAX), u32::MAX);
    assert_eq!(integer_sqrt(0xffff_fffe_0000_0001), u32::MAX);
    assert_eq!(integer_sqrt(0xffff_fffe_0000_0000), u32::MAX - 1);
}

#[test]
fn silence_frame_is_all_zero() {
    assert_eq!(generate_silence_frame(320), vec![0i16; 320]);
    assert_eq!(generate_silence_frame(0), Vec::<i16>::new());
    assert_eq!(generate_silence_frame(3), vec![0, 0, 0]);
}

#[test]
fn frame_at_the_threshold_is_speech() {
    let mut s = SilenceSuppressor::new(SilenceSuppressionConfig::default());
    let at = vec![100i16; 320];
    match s.process_at(&at, 1000 * MS) {
        FrameAction::Send(audio) => assert_eq!(audio, at),
        _ => panic!("a frame at the threshold is forwarded"),
    }
    assert_eq!(s.state(), SuppressionState::Active);
    let mut t = SilenceSuppressor::new(SilenceSuppressionConfig::default());
    let below = vec![99i16; 320];
    assert_eq!(kind(&t.process_at(&below, 1000 * MS)), 1);
    assert_eq!(t.state(), SuppressionState::Suppressed);
}

#[test]
fn zero_threshold_forwards_everything() {
    let config = SilenceSuppressionConfig {
        speech_threshold_rms: 0,
        speech_hangover: 0,
        silence_keepalive_interval: 0,
    };
    let mut s = SilenceSuppressor::new(config);
    assert_eq!(kind(&s.process_at(&quiet(), 5000 * MS)), 0);
    assert_eq!(kind(&s.process_at(&[], 9000 * MS)), 0);
    assert_eq!(s.state(), SuppressionState::Active);
}

#[test]
fn hangover_ends_just_after_its_length() {
    let mut s = SilenceSuppressor::new(SilenceSuppressionConfig::default());
    assert_eq!(kind(&s.process_at(&loud(), 1000 * MS)), 0);
    match s.process_at(&quiet(), 1200 * MS) {
        FrameAction::Send(audio) => assert_eq!(audio, quiet()),
        _ => panic!("the tail of speech is forwarded"),
    }
    assert_eq!(s.state(), SuppressionState::Hangover);
    assert_eq!(kind(&s.process_at(&quiet(), 1200 * MS + 1)), 1);
    assert_eq!(s.state(), SuppressionState::Suppressed);
}

#[test]
fn keepalive_comes_at_the_interval_and_not_before() {
    let mut s = SilenceSuppressor::new(SilenceSuppressionConfig::default());
    assert_eq!(kind(&s.process_at(&quiet(), 500 * MS)), 1);
    assert_eq!(kind(&s.process_at(&quiet(), 600 * MS - 1)), 2);
    assert_eq!(kind(&s.process_at(&quiet(), 600 * MS)), 1);
    assert_eq!(kind(&s.process_at(&quiet(), 600 * MS)), 2);
}

#[test]
fn speech_ends_suppression() {
    let mut s = SilenceSuppressor::new(SilenceSuppressionConfig::default());
    assert_eq!(kind(&s.process_at(&quiet(), 500 * MS)), 1);
    assert_eq!(s.state(), SuppressionState::Suppressed);
    assert_eq!(kind(&s.process_at(&loud(), 520 * MS)), 0);
    assert_eq!(s.state(), SuppressionState::Active);
    assert_eq!(kind(&s.process_at(&quiet(), 540 * MS)), 0);
    assert_eq!(s.state(), SuppressionState::Hangover);
}

#[test]
fn clock_that_runs_backwards_counts_as_no_time_passed() {
    let mut s = SilenceSuppressor::new(SilenceSuppressionConfig::default());
    assert_eq!(kind(&s.process_at(&loud(), 1000 * MS)), 0);
    assert_eq!(kind(&s.process_at(&quiet(), 10 * MS)), 0);
    assert_eq!(s.state(), SuppressionState::Hangover);
}

#[test]
fn suppressor_state_transitions() {
    // Loud frames, then silence for the hangover and beyond, one frame every 20 ms.
    let mut s = SilenceSuppressor::new(SilenceSuppressionConfig::default());
    let mut now = 0u128;
    for _ in 0..5 {
        now += 20 * MS;
        assert_eq!(kind(&s.process_at(&loud(), now)), 0);
        assert_eq!(s.state(), SuppressionState::Active);
    }
    let last_speech = now;
    // The hangover window: 10 frames up to and including 200 ms after the last speech.
    for _ in 0..10 {
        now += 20 * MS;
        assert!(now - last_speech <= 200 * MS);
        assert_eq!(kind(&s.process_at(&quiet(), now)), 0);
        assert_eq!(s.state(), SuppressionState::Hangover);
    }
    // From here on: a keepalive at once, then one every 100 ms, nothing in between.
    let mut keepalives: Vec<u128> = Vec::new();
    for i in 0..50 {
        now += 20 * MS;
        let action = s.process_at(&quiet(), now);
        assert_eq!(s.state(), SuppressionState::Suppressed);
        if i % 5 == 0 {
            assert_eq!(kind(&action), 1);
            keepalives.push(now);
        } else {
            assert_eq!(kind(&action), 2);
        }
    }
    assert_eq!(keepalives.len(), 10);
    for pair in keepalives.windows(2) {
        assert!(pair[1] - pair[0] >= 100 * MS);
    }
}

#[test]
fn keepalives_are_never_closer_than_the_interval() {
    // Irregular arrival times.
    let mut s = SilenceSuppressor::new(SilenceSuppressionConfig::default());
    let mut now = 300 * MS;
    let mut last: Option<u128> = None;
    let mut seed = 12345u64;
    for _ in 0..2000 {
        seed = seed.wrapping_mul(6364136223846793005).wrapping_add(1442695040888963407);
        now += ((seed >> 33) % 70) as u128 * MS;
        let action = s.process_at(&quiet(), now);
        match action {
            FrameAction::SendSilence => {
                if let Some(before) = last {
                    assert!(now - before >= 100 * MS);
                }
                last = Some(now);
            }
            FrameAction::Suppress => {}
            FrameAction::Send(_) => panic!("silence long after speech is not forwarded"),
        }
    }
    assert!(last.is_some());
}

#[test]
fn process_reads_the_clock_and_forwards_speech() {
    let mut s = SilenceSuppressor::new(SilenceSuppressionConfig::default());
    match s.process(&loud()) {
        FrameAction::Send(audio) => assert_eq!(audio, loud()),
        _ => panic!("speech is forwarded at any time"),
    }
    assert_eq!(s.state(), SuppressionState::Active);
    // Right after speech the hangover has not run out.
    assert_eq!(kind(&s.process(&quiet())), 0);
    assert_eq!(s.state(), SuppressionState::Hangover);
}
