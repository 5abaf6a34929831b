//! The assistant's fixed parameters.

use vstd::prelude::*;

verus! {

/// Samples per second that every stage after capture works at.
pub const SAMPLE_RATE: u32 = 16_000;

/// Samples in one frame.
pub const FRAME: usize = 512;

/// Milliseconds in one frame.
pub const FRAME_MS: u32 = 32;

/// Audio kept from before speech begins, in milliseconds.
pub const PREROLL_MS: usize = 250;

/// The same in whole frames.
pub const PREROLL_FRAMES: usize = (PREROLL_MS * 16_000) / (1000 * FRAME);

/// Silence that ends an utterance, in milliseconds, unless set otherwise.
pub const MIN_SILENCE_MS: u32 = 700;

/// Speech probability that counts as speech unless set otherwise: the bits of 0.5.
pub const SPEECH_THRESHOLD: u32 = 0x3f00_0000;

/// Messages that the conversation history keeps.
pub const HISTORY_MAXLEN: usize = 40;

pub const OMLX_URL: &'static str = "http://127.0.0.1:8002/v1/chat/completions";

pub const OMLX_MODEL: &'static str = "gemma-4-e4b-it-8bit";

pub const OMLX_API_KEY: &'static str = "rdaz1234";

pub const TTS_URL: &'static str = "http://127.0.0.1:8123/tts";

pub const SYSTEM_PROMPT: &'static str =
    "You are a refinement assistant. The user gives you a raw spoken utterance. Repeat it back, cleaned up: fix grammar, drop filler words and false starts, keep the meaning and tone. Reply with ONLY the refined sentence, nothing else.";

pub const WHISPER_MODEL_PATH: &'static str = "models/ggml-base.en.bin";

pub const SILERO_MODEL_PATH: &'static str = "models/silero_vad.onnx";

/// However many frames there are, they last 32 milliseconds each: 512 samples of
/// 16000 in a second.
pub proof fn frames_last_their_milliseconds(frames: nat)
    ensures
        1000 * (frames * FRAME) == SAMPLE_RATE * (frames * FRAME_MS),
        frames * FRAME_MS == 32 * frames,
        frames * FRAME == 512 * frames,
{
    let size = FRAME as int;
    let ms = FRAME_MS as int;
    let rate = SAMPLE_RATE as int;
    assert(frames * ms == 32 * frames && frames * size == 512 * frames && rate * (frames * ms)
        == 16_000 * (32 * frames)) by (nonlinear_arith)
        requires
            size == 512,
            ms == 32,
            rate == 16_000,
    ;
}

} // verus!
