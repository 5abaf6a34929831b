//! What the user can set, and the bounds of it.

use crate::config::{MIN_SILENCE_MS, SPEECH_THRESHOLD, SYSTEM_PROMPT};
use crate::single::{lemma_distance_keeps_order, Single};
use vstd::prelude::*;

verus! {

pub const SILENCE_MS_MIN: u32 = 300;

pub const SILENCE_MS_MAX: u32 = 5000;

/// The bits of 0.1.
pub const SPEECH_THRESHOLD_MIN: u32 = 0x3dcc_cccd;

/// The bits of 0.9.
pub const SPEECH_THRESHOLD_MAX: u32 = 0x3f66_6666;

pub const HISTORY_TURNS_MAX: u32 = 20;

/// The user's settings.
#[derive(Debug, PartialEq)]
pub struct AppSettings {
    /// What the language model is told before every utterance.
    pub system_prompt: String,
    /// Silence that ends an utterance, in milliseconds.
    pub silence_ms: u32,
    /// Speech probability from which a frame counts as speech.
    pub speech_threshold: Single,
    /// Turns that the history has room for once this is set, two messages each;
    /// 0 for requests without a history.
    pub history_turns: u32,
}

impl Clone for AppSettings {
    fn clone(&self) -> (copy: Self)
        ensures
            copy == *self,
    {
        AppSettings {
            system_prompt: self.system_prompt.clone(),
            silence_ms: self.silence_ms,
            speech_threshold: self.speech_threshold,
            history_turns: self.history_turns,
        }
    }
}

impl Default for AppSettings {
    fn default() -> (settings: Self)
        ensures
            settings.is_default(),
    {
        AppSettings {
            system_prompt: SYSTEM_PROMPT.to_owned(),
            silence_ms: MIN_SILENCE_MS,
            speech_threshold: Single { bits: SPEECH_THRESHOLD },
            history_turns: 0,
        }
    }
}

impl AppSettings {
    /// The settings that hold where the user has made none.
    pub open spec fn is_default(self) -> bool {
        &&& self.system_prompt@ == SYSTEM_PROMPT@
        &&& self.silence_ms == MIN_SILENCE_MS
        &&& self.speech_threshold == (Single { bits: SPEECH_THRESHOLD })
        &&& self.history_turns == 0
    }

    /// Every number lies within its bounds.
    pub open spec fn is_valid(self) -> bool {
        &&& SILENCE_MS_MIN <= self.silence_ms <= SILENCE_MS_MAX
        &&& !self.speech_threshold.is_nan()
        &&& (Single { bits: SPEECH_THRESHOLD_MIN }).value() <= self.speech_threshold.value()
        &&& self.speech_threshold.value() <= (Single { bits: SPEECH_THRESHOLD_MAX }).value()
        &&& self.history_turns <= HISTORY_TURNS_MAX
    }

    /// The settings with every number moved to the nearer bound where it lies
    /// outside its bounds.
    pub open spec fn validated(self) -> AppSettings {
        AppSettings {
            silence_ms: if self.silence_ms < SILENCE_MS_MIN {
                SILENCE_MS_MIN
            } else if self.silence_ms > SILENCE_MS_MAX {
                SILENCE_MS_MAX
            } else {
                self.silence_ms
            },
            speech_threshold: self.speech_threshold.clamped(
                Single { bits: SPEECH_THRESHOLD_MIN },
                Single { bits: SPEECH_THRESHOLD_MAX },
            ),
            history_turns: if self.history_turns > HISTORY_TURNS_MAX {
                HISTORY_TURNS_MAX
            } else {
                self.history_turns
            },
            ..self
        }
    }

    /// Brings every number within its bounds.
    pub fn validate(self) -> (settings: Self)
        ensures
            settings == self.validated(),
    {
        let silence_ms: u32 = if self.silence_ms < SILENCE_MS_MIN {
            SILENCE_MS_MIN
        } else if self.silence_ms > SILENCE_MS_MAX {
            SILENCE_MS_MAX
        } else {
            self.silence_ms
        };
        let history_turns: u32 = if self.history_turns > HISTORY_TURNS_MAX {
            HISTORY_TURNS_MAX
        } else {
            self.history_turns
        };
        AppSettings {
            system_prompt: self.system_prompt,
            silence_ms,
            speech_threshold: self.speech_threshold.clamp(
                Single { bits: SPEECH_THRESHOLD_MIN },
                Single { bits: SPEECH_THRESHOLD_MAX },
            ),
            history_turns,
        }
    }

    /// The settings to start with, from what the settings file held, if it
    /// could be read.
    pub fn loaded(stored: Option<AppSettings>) -> (settings: Self)
        ensures
            match stored {
                Some(s) => settings == s.validated(),
                None => settings.is_default(),
            },
    {
        match stored {
            Some(s) => s.validate(),
            None => {
                let settings = AppSettings::default();
                proof {
                    default_settings_are_valid(settings);
                    valid_settings_stay(settings);
                }
                settings.validate()
            },
        }
    }
}

/// The path of the settings file, part by part, below the user's home
/// directory, or below the current one where the user has none.
pub fn settings_path(home: Option<String>) -> (parts: Vec<String>)
    ensures
        parts@.len() == 4,
        parts@[0]@ == match home {
            Some(h) => h@,
            None => "."@,
        },
        parts@[1]@ == ".config"@,
        parts@[2]@ == "azva"@,
        parts@[3]@ == "settings.json"@,
{
    let base = match home {
        Some(h) => h,
        None => ".".to_owned(),
    };
    let mut parts: Vec<String> = Vec::new();
    parts.push(base);
    parts.push(".config".to_owned());
    parts.push("azva".to_owned());
    parts.push("settings.json".to_owned());
    parts
}

proof fn lemma_threshold_bounds()
    ensures
        !(Single { bits: SPEECH_THRESHOLD_MIN }).is_nan(),
        !(Single { bits: SPEECH_THRESHOLD_MAX }).is_nan(),
        !(Single { bits: SPEECH_THRESHOLD }).is_nan(),
        (Single { bits: SPEECH_THRESHOLD_MIN }).value() < (Single {
            bits: SPEECH_THRESHOLD,
        }).value(),
        (Single { bits: SPEECH_THRESHOLD }).value() < (Single {
            bits: SPEECH_THRESHOLD_MAX,
        }).value(),
{
    lemma_distance_keeps_order(SPEECH_THRESHOLD_MIN as nat, SPEECH_THRESHOLD as nat);
    lemma_distance_keeps_order(SPEECH_THRESHOLD as nat, SPEECH_THRESHOLD_MAX as nat);
}

/// Whatever was set, validated settings lie within the bounds; only a threshold
/// that is no number stays what it is.
pub proof fn validated_settings_are_valid(s: AppSettings)
    requires
        !s.speech_threshold.is_nan(),
    ensures
        s.validated().is_valid(),
{
    lemma_threshold_bounds();
}

/// Validation changes nothing of settings within the bounds.
pub proof fn valid_settings_stay(s: AppSettings)
    requires
        s.is_valid(),
    ensures
        s.validated() == s,
{
}

/// Validating a second time changes nothing.
pub proof fn validation_is_idempotent(s: AppSettings)
    ensures
        s.validated().validated() == s.validated(),
{
    lemma_threshold_bounds();
}

/// The default settings lie within the bounds.
pub proof fn default_settings_are_valid(s: AppSettings)
    requires
        s.is_default(),
    ensures
        s.is_valid(),
{
    lemma_threshold_bounds();
}

/// Validation keeps every number that lies within its bounds and moves any other to
/// the bound it lies beyond: silence between 300 and 5000 milliseconds, the
/// threshold between 0.1 and 0.9, the turns at most 20. The prompt stays.
pub proof fn validation_moves_numbers_to_their_bounds(s: AppSettings)
    ensures
        ({
            let v = s.validated();
            let least = Single { bits: 0x3dcc_cccd };
            let most = Single { bits: 0x3f66_6666 };
            let t = s.speech_threshold;
            &&& v.system_prompt == s.system_prompt
            &&& 300 <= v.silence_ms <= 5000
            &&& 300 <= s.silence_ms <= 5000 ==> v.silence_ms == s.silence_ms
            &&& s.silence_ms < 300 ==> v.silence_ms == 300
            &&& s.silence_ms > 5000 ==> v.silence_ms == 5000
            &&& v.history_turns <= 20
            &&& s.history_turns <= 20 ==> v.history_turns == s.history_turns
            &&& s.history_turns > 20 ==> v.history_turns == 20
            &&& t.is_nan() ==> v.speech_threshold == t
            &&& !t.is_nan() && t.value() < least.value() ==> v.speech_threshold == least
            &&& !t.is_nan() && t.value() > most.value() ==> v.speech_threshold == most
            &&& !t.is_nan() && least.value() <= t.value() <= most.value() ==> v.speech_threshold == t
        }),
{
    lemma_threshold_bounds();
}

/// Settings are valid exactly where every number lies within its bounds.
pub proof fn valid_settings_are_those_within_the_bounds(s: AppSettings)
    ensures
        s.is_valid() <==> {
            &&& 300 <= s.silence_ms <= 5000
            &&& s.history_turns <= 20
            &&& !s.speech_threshold.is_nan()
            &&& (Single { bits: 0x3dcc_cccd }).value() <= s.speech_threshold.value()
            &&& s.speech_threshold.value() <= (Single { bits: 0x3f66_6666 }).value()
        },
{
}

/// The defaults are the usual prompt, 700 milliseconds, a threshold of 0.5, and
/// requests without a history.
pub proof fn defaults_are_the_usual_values(s: AppSettings)
    ensures
        s.is_default() <==> {
            &&& s.system_prompt@ == SYSTEM_PROMPT@
            &&& s.silence_ms == 700
            &&& s.speech_threshold.bits == 0x3f00_0000
            &&& s.history_turns == 0
        },
{
}

} // verus!
