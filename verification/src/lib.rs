//! The verified core of an always-listening voice assistant:
//! listen, transcribe, refine, speak.

pub mod audio;
pub mod clock;
pub mod config;
pub mod echo;
pub mod events;
pub mod history;
pub mod json;
pub mod pcm;
pub mod refine;
pub mod rounding;
pub mod segmenter;
pub mod settings;
pub mod single;
pub mod state;
pub mod stt;
pub mod text;
pub mod timing;
pub mod tts;
pub mod ui;
pub mod vad;
pub mod worker;
