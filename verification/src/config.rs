//! Board-independent behaviour constants, shared with the server where noted.
use vstd::prelude::*;

verus! {

/// Path of the voice channel.
pub const WS_VOICE_PATH: &'static str = "/ws/voice";

/// Path of the speech synthesis channel.
pub const WS_TTS_PATH: &'static str = "/ws/tts-stream";

/// Uplink sample rate, PCM16 mono.
pub const MIC_SAMPLE_RATE: u32 = 16000;

/// Rate at which the speaker is driven.
pub const SPK_SAMPLE_RATE: u32 = 16000;

/// Left shift applied to demodulated microphone samples.
pub const MIC_GAIN_SHIFT: u32 = 5;

/// Time servers, asked in this order.
pub const NTP_SERVERS: [[u8; 4]; 3] = [[120, 25, 115, 20], [119, 28, 183, 184], [216, 239, 35, 8]];

/// Seconds between two clock synchronisations.
pub const NTP_RESYNC_SECS: u64 = 43200;

/// Local time zone, in hours east of UTC.
pub const TZ_OFFSET_HOURS: u64 = 8;

/// Enter the listening state as soon as the channel is up.
pub const AUTO_LISTEN_ON_BOOT: bool = true;

/// Samples in one uplink block (32 ms).
pub const RECORD_CHUNK_SAMPLES: usize = 512;

/// Silence sent after release, so that the server sees the end of a sentence.
pub const RELEASE_SILENCE_MS: u32 = 700;

/// Bytes that must be buffered before playback starts.
pub const PLAY_WATERMARK_BYTES: usize = 32768;

/// Listening ends after this long without speech.
pub const LISTEN_TIMEOUT_MS: u32 = 180000;

/// Quiet time after playback before listening resumes.
pub const RESUME_LISTEN_SILENCE_MS: u32 = 400;

/// Pause before listening restarts by itself after it was left.
pub const LISTEN_COOLDOWN_MS: u32 = 8000;

/// Time between two reveals of the subtitle typewriter.
pub const TYPE_INTERVAL_MS: u32 = 143;

/// Rate of an audio stream whose start message names none.
pub const DEFAULT_STREAM_INPUT_RATE: u32 = 24000;

/// Time between two battery samples.
pub const BAT_POLL_MS: u32 = 30000;

} // verus!
