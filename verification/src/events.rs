//! What the assistant shows and what it can be told.

use crate::settings::AppSettings;
use crate::timing::TurnTiming;
use vstd::prelude::*;

verus! {

/// What the assistant is doing.
#[derive(Clone, Copy, PartialEq, Eq, Structural, Debug)]
pub enum State {
    Listening,
    Thinking,
    Speaking,
    Muted,
}

impl State {
    /// The word for a state.
    pub open spec fn word(self) -> Seq<char> {
        match self {
            State::Listening => "listening"@,
            State::Thinking => "thinking"@,
            State::Speaking => "speaking"@,
            State::Muted => "muted"@,
        }
    }

    /// Not in the middle of a turn.
    pub open spec fn idle(self) -> bool {
        self == State::Listening || self == State::Muted
    }

    pub fn label(self) -> (label: &'static str)
        ensures
            label@ == self.word(),
    {
        match self {
            State::Listening => "listening",
            State::Thinking => "thinking",
            State::Speaking => "speaking",
            State::Muted => "muted",
        }
    }
}

/// What the front end is told.
#[derive(Clone, Debug)]
pub enum UiEvent {
    StateChanged(State),
    Turn { heard: String, refined: String, timing: TurnTiming, timestamp: String },
    Cleared,
}

/// What the front end tells the assistant.
#[derive(Clone, Debug)]
pub enum ControlMsg {
    ToggleMic,
    Clear,
    Stop,
    SettingsChanged(AppSettings),
}

/// A change of state, as it is sent to the window.
#[derive(Clone)]
pub struct StatePayload {
    pub value: &'static str,
}

/// A turn, as it is sent to the window.
#[derive(Clone)]
pub struct TurnPayload {
    pub heard: String,
    pub refined: String,
    pub timestamp: String,
    pub endpoint_ms: u32,
    pub stt_ms: u32,
    pub refine_ms: u32,
    pub reply_start_ms: u32,
}

/// One message to the window.
pub enum Emission {
    State(StatePayload),
    Turn(TurnPayload),
    Clear,
}

impl Emission {
    /// The name under which the window listens for the message.
    pub fn name(&self) -> (name: &'static str)
        ensures
            name@ == match *self {
                Emission::State(_) => "state"@,
                Emission::Turn(_) => "turn"@,
                Emission::Clear => "clear"@,
            },
    {
        match self {
            Emission::State(_) => "state",
            Emission::Turn(_) => "turn",
            Emission::Clear => "clear",
        }
    }
}

impl UiEvent {
    /// The message that carries this event to the window.
    pub fn emission(self) -> (message: Emission)
        ensures
            match self {
                UiEvent::StateChanged(s) => message matches Emission::State(p) && p.value@
                    == s.word(),
                UiEvent::Turn { heard, refined, timing, timestamp } => message == Emission::Turn(
                    TurnPayload {
                        heard,
                        refined,
                        timestamp,
                        endpoint_ms: timing.endpoint_ms,
                        stt_ms: timing.stt_ms,
                        refine_ms: timing.refine_ms,
                        reply_start_ms: timing.reply_start_ms,
                    },
                ),
                UiEvent::Cleared => message is Clear,
            },
    {
        match self {
            UiEvent::StateChanged(s) => Emission::State(StatePayload { value: s.label() }),
            UiEvent::Turn { heard, refined, timing, timestamp } => Emission::Turn(
                TurnPayload {
                    heard,
                    refined,
                    timestamp,
                    endpoint_ms: timing.endpoint_ms,
                    stt_ms: timing.stt_ms,
                    refine_ms: timing.refine_ms,
                    reply_start_ms: timing.reply_start_ms,
                },
            ),
            UiEvent::Cleared => Emission::Clear,
        }
    }
}

/// Every state has its word, and between turns are the states without one.
pub proof fn states_have_their_words(s: State)
    ensures
        s == State::Listening ==> s.word() == "listening"@ && s.idle(),
        s == State::Thinking ==> s.word() == "thinking"@ && !s.idle(),
        s == State::Speaking ==> s.word() == "speaking"@ && !s.idle(),
        s == State::Muted ==> s.word() == "muted"@ && s.idle(),
{
}

} // verus!
