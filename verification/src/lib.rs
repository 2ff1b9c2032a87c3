//! Real-time pipeline from captured system audio to 16 kHz mono 16-bit PCM frames: decoding
//! and downmixing of device packets, streaming sample-rate conversion, framing, silence
//! suppression with keepalive frames, PCM encoding, and the life cycle of a capture session.
//! All arithmetic is exact integer arithmetic on fixed-point samples.

pub mod audio_config;
pub mod capture_loop;
pub mod framer;
pub mod pcm;
pub mod resampler_laws;
pub mod session;
pub mod silence_suppression;
pub mod speaker;
pub mod streaming_resampler;
pub mod suppression_laws;
pub mod system_audio;
pub mod vad;
