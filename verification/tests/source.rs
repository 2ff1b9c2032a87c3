use audio_capture::pcm::encode_pcm;
use audio_capture::session::{CaptureError, CaptureSession, StartupStage};
use audio_capture::speaker::Backend;
use audio_capture::system_audio::{bytes_to_words, downmix, packet_pending, PacketDrain};
use audio_capture::vad::Vad;

#[test]
fn packet_bytes_become_little_endian_words() {
    let bytes = [1u8, 0, 0, 0, 0, 0, 128, 63, 0xff, 0xff, 0xff, 0xff, 9, 9];
    let words = bytes_to_words(&bytes);
    assert_eq!(words, vec![1, 0x3f80_0000, 0xffff_ffff]);
    assert_eq!(f32::from_bits(words[1]), 1.0);
    assert_eq!(bytes_to_words(&[1, 2, 3]), Vec::<u32>::new());
    assert_eq!(bytes_to_words(&[]), Vec::<u32>::new());
    assert_eq!(bytes_to_words(&[0x78, 0x56, 0x34, 0x12]), vec![0x1234_5678]);
}

#[test]
fn downmix_averages_each_frame() {
    assert_eq!(downmix(&[2, 4, 6, 9], 2), vec![3, 7]);
    assert_eq!(downmix(&[-3, -4, -1, 0], 2), vec![-3, 0]);
    assert_eq!(downmix(&[3, 6, 9, 30, 60, 90], 3), vec![6, 60]);
    assert_eq!(downmix(&[i32::MAX, i32::MAX, i32::MIN, i32::MIN], 2), vec![i32::MAX, i32::MIN]);
}

#[test]
fn downmix_divides_a_short_last_frame_by_the_channel_count() {
    assert_eq!(downmix(&[10, 20, 30], 2), vec![15, 15]);
    assert_eq!(downmix(&[8], 4), vec![2]);
}

#[test]
fn downmix_copies_mono_input() {
    assert_eq!(downmix(&[5, -6, 7], 1), vec![5, -6, 7]);
    assert_eq!(downmix(&[5, -6, 7], 0), vec![5, -6, 7]);
    assert_eq!(downmix(&[], 2), Vec::<i32>::new());
}

#[test]
fn pcm_is_little_endian() {
    let bytes = encode_pcm(&[1, -1, 256, -32768, 32767, -2]);
    assert_eq!(bytes, vec![1, 0, 255, 255, 0, 1, 0, 128, 255, 127, 254, 255]);
    for (i, sample) in [1i16, -1, 256, -32768, 32767, -2].iter().enumerate() {
        assert_eq!(bytes[2 * i..2 * i + 2], sample.to_le_bytes());
    }
    assert_eq!(encode_pcm(&[]), Vec::<u8>::new());
    assert_eq!(encode_pcm(&[0; 320]).len(), 640);
}

#[test]
fn idempotent_stop() {
    let mut never_started = CaptureSession::new();
    assert!(!never_started.stop());
    assert!(!never_started.is_active());
    assert!(!never_started.stop());
    let mut started = CaptureSession::new();
    assert_eq!(started.start(), Ok(()));
    assert!(started.stop());
    assert!(!started.stop());
    assert!(!started.is_active());
    assert_eq!(started.start(), Ok(()));
}

#[test]
fn second_start_is_refused() {
    let mut session = CaptureSession::new();
    assert!(!session.is_active());
    assert_eq!(session.start(), Ok(()));
    assert!(session.is_active());
    assert_eq!(session.start(), Err(CaptureError::AlreadyActive));
    assert!(session.is_active());
}

#[test]
fn source_failures_end_the_session_with_their_error() {
    let mut session = CaptureSession::new();
    assert_eq!(session.start(), Ok(()));
    assert_eq!(session.startup_failed(StartupStage::Open), CaptureError::DeviceUnavailable);
    assert!(!session.is_active());
    assert_eq!(session.start(), Ok(()));
    assert_eq!(session.startup_failed(StartupStage::Start), CaptureError::StreamStartFailure);
    assert!(!session.is_active());
}

#[test]
fn backend_without_loopback_never_fails() {
    let mut backend = Backend::new(None);
    assert_eq!(backend.stop(), Ok(()));
    assert_eq!(backend.start(), Ok(()));
    assert_eq!(backend.start(), Ok(()));
    assert_eq!(backend.stop(), Ok(()));
    assert_eq!(backend.stop(), Ok(()));
    let mut named = Backend::new(Some(String::from("speakers")));
    assert_eq!(named.start(), Ok(()));
}

#[test]
fn vad_can_be_made() {
    let _a = Vad::new();
    let _b = Vad::default();
}

#[test]
fn poll_goes_on_while_a_packet_is_pending() {
    assert!(packet_pending(false, Some(1)));
    assert!(packet_pending(false, Some(480)));
    assert!(packet_pending(false, Some(u32::MAX)));
    assert!(!packet_pending(false, Some(0)));
    assert!(!packet_pending(false, None));
}

#[test]
fn poll_ends_once_a_stop_is_requested() {
    assert!(!packet_pending(true, Some(480)));
    assert!(!packet_pending(true, Some(0)));
    assert!(!packet_pending(true, None));
}

#[test]
fn packets_of_one_poll_are_gathered_in_order() {
    let mut drain = PacketDrain::new(2);
    drain.push_packet(&[10, 20, 30, 50]);
    drain.push_packet(&[]);
    drain.push_packet(&[-7, -8, 100]);
    assert_eq!(drain.finish(), vec![15, 40, -7, 50]);
    let untouched = PacketDrain::new(6);
    assert_eq!(untouched.finish(), Vec::<i32>::new());
    let mut mono = PacketDrain::new(1);
    mono.push_packet(&[1, 2]);
    mono.push_packet(&[3]);
    assert_eq!(mono.finish(), vec![1, 2, 3]);
}
