use audio_capture::capture_loop::{CapturePipeline, LoopStep};
use audio_capture::pcm::encode_pcm;

const MS: u128 = 1_000_000;

fn drain(pipeline: &mut CapturePipeline, now: u128, sent: &mut Vec<Vec<u8>>, dropped: &mut usize) {
    loop {
        match pipeline.step_at(now) {
            LoopStep::Dispatch(audio) => sent.push(encode_pcm(&audio)),
            LoopStep::Dropped => *dropped += 1,
            LoopStep::Idle => break,
        }
    }
    assert!(pipeline.is_idle());
}

#[test]
fn end_to_end_scenario() {
    // One second at 48000 Hz, loud, delivered in polls of 10 ms.
    let mut pipeline = CapturePipeline::new(48000);
    let mut sent: Vec<Vec<u8>> = Vec::new();
    let mut dropped = 0usize;
    let mut input: Vec<i32> = Vec::new();
    for i in 0..48000 {
        // Frame f of the output is made of input samples 960 f .. 960 f + 959.
        input.push(10000 + (i / 960) as i32);
    }
    let mut now = 0u128;
    for poll in input.chunks(480) {
        now += 10 * MS;
        pipeline.feed(poll);
        drain(&mut pipeline, now, &mut sent, &mut dropped);
    }
    assert_eq!(sent.len(), 50);
    assert_eq!(dropped, 0);
    for (f, payload) in sent.iter().enumerate() {
        assert_eq!(payload.len(), 640);
        // A sample in the middle of frame f names the frame: the payloads are in order.
        let sample = i16::from_le_bytes([payload[320], payload[321]]);
        assert_eq!(sample as usize, 10000 + f);
    }
}

#[test]
fn end_to_end_scenario_in_one_poll() {
    let mut pipeline = CapturePipeline::new(48000);
    let mut input: Vec<i32> = Vec::new();
    for i in 0..48000 {
        input.push(((i % 3000) as i32 - 1500) * 20);
    }
    pipeline.feed(&input);
    let mut sent: Vec<Vec<u8>> = Vec::new();
    let mut dropped = 0usize;
    drain(&mut pipeline, 1000 * MS, &mut sent, &mut dropped);
    assert_eq!(sent.len(), 50);
    assert_eq!(dropped, 0);
    for (f, payload) in sent.iter().enumerate() {
        assert_eq!(payload.len(), 640);
        for k in 0..320 {
            let sample = i16::from_le_bytes([payload[2 * k], payload[2 * k + 1]]);
            assert_eq!(sample as i32, input[3 * (320 * f + k)]);
        }
    }
}

#[test]
fn silence_scenario() {
    // Two seconds of silence at 48000 Hz from the start of the session, one poll every 20 ms.
    let mut pipeline = CapturePipeline::new(48000);
    let silence = vec![0i32; 960];
    let mut kinds: Vec<u8> = Vec::new();
    for poll in 1..=100u128 {
        pipeline.feed(&silence);
        match pipeline.step_at(poll * 20 * MS) {
            LoopStep::Dispatch(audio) => {
                assert_eq!(audio, vec![0i16; 320]);
                assert_eq!(encode_pcm(&audio), vec![0u8; 640]);
                kinds.push(0);
            }
            LoopStep::Dropped => kinds.push(1),
            LoopStep::Idle => panic!("each poll completes a frame"),
        }
        assert!(pipeline.is_idle());
    }
    // The session starts in the state Active: until 200 ms have passed the frames are the
    // tail of speech and go out as they are. Then a keepalive every 100 ms.
    for (i, kind) in kinds.iter().enumerate() {
        let t = (i as u128 + 1) * 20;
        if t <= 200 {
            assert_eq!(*kind, 0);
        } else if (t - 220) % 100 == 0 {
            assert_eq!(*kind, 0);
        } else {
            assert_eq!(*kind, 1);
        }
    }
    assert_eq!(kinds.iter().filter(|k| **k == 0).count(), 10 + 18);
    assert_eq!(kinds.iter().filter(|k| **k == 1).count(), 72);
}

#[test]
fn silence_scenario_after_the_hangover() {
    // Two seconds of silence that begin once the hangover has run out: no frame goes out as
    // it is, and a keepalive goes out every 100 ms.
    let mut pipeline = CapturePipeline::new(48000);
    let silence = vec![0i32; 960];
    let mut keepalives: Vec<u128> = Vec::new();
    let mut dropped = 0usize;
    for poll in 1..=100u128 {
        let now = 200 * MS + poll * 20 * MS;
        pipeline.feed(&silence);
        match pipeline.step_at(now) {
            LoopStep::Dispatch(audio) => {
                assert_eq!(encode_pcm(&audio), vec![0u8; 640]);
                keepalives.push(now);
            }
            LoopStep::Dropped => dropped += 1,
            LoopStep::Idle => panic!("each poll completes a frame"),
        }
    }
    assert_eq!(keepalives.len(), 20);
    assert_eq!(dropped, 80);
    for pair in keepalives.windows(2) {
        assert_eq!(pair[1] - pair[0], 100 * MS);
    }
}

#[test]
fn empty_poll_changes_nothing() {
    let mut pipeline = CapturePipeline::new(44100);
    pipeline.feed(&[]);
    assert!(pipeline.is_idle());
    assert!(matches!(pipeline.step_at(0), LoopStep::Idle));
    pipeline.feed(&vec![3000; 881]);
    // ceil(881 * 16000 / 44100) = 320
    assert!(!pipeline.is_idle());
    pipeline.feed(&[]);
    match pipeline.step_at(MS) {
        LoopStep::Dispatch(audio) => assert_eq!(audio, vec![3000i16; 320]),
        _ => panic!("a loud frame is forwarded"),
    }
    assert!(pipeline.is_idle());
}

#[test]
fn step_reads_the_clock() {
    let mut pipeline = CapturePipeline::new(16000);
    assert!(matches!(pipeline.step(), LoopStep::Idle));
    pipeline.feed(&vec![-8000; 320]);
    match pipeline.step() {
        LoopStep::Dispatch(audio) => assert_eq!(audio, vec![-8000i16; 320]),
        _ => panic!("a loud frame is forwarded at any time"),
    }
    assert!(matches!(pipeline.step(), LoopStep::Idle));
}

#[test]
fn no_sample_is_lost_between_source_and_frames() {
    // 44100 Hz in polls of uneven length, steps taken now and then.
    let mut pipeline = CapturePipeline::new(44100);
    let polls = [441usize, 0, 1, 5000, 37, 882, 10000, 3, 0, 2205];
    let mut fed = 0u64;
    let mut frames = 0u64;
    let mut now = 0u128;
    for (i, len) in polls.iter().enumerate() {
        pipeline.feed(&vec![1000; *len]);
        fed += *len as u64;
        if i % 2 == 1 {
            loop {
                now += 20 * MS;
                match pipeline.step_at(now) {
                    LoopStep::Idle => break,
                    _ => frames += 1,
                }
            }
            assert!(pipeline.pending() < 320);
        }
        let resampled = (fed * 16000 + 44099) / 44100;
        assert_eq!(frames * 320 + pipeline.pending() as u64, resampled);
    }
    assert_eq!(fed, 18569);
    assert_eq!(frames, 21);
    assert_eq!(pipeline.pending(), 18);
}
