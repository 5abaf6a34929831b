//! The state that is shown and the microphone switch.

use crate::events::State;
use vstd::prelude::*;

verus! {

/// The state machine behind the controls.
#[derive(Clone, Copy, PartialEq, Eq, Structural, Debug)]
pub struct SharedState {
    /// Whether the microphone is on.
    pub listening_enabled: bool,
    /// The state that is shown.
    pub current: State,
}

impl SharedState {
    /// The state between turns.
    pub open spec fn at_rest(self) -> State {
        if self.listening_enabled {
            State::Listening
        } else {
            State::Muted
        }
    }

    /// Between turns, the state that is shown says whether the microphone is on.
    pub open spec fn consistent(self) -> bool {
        self.current.idle() ==> self.current == self.at_rest()
    }

    /// The machine after the microphone switch.
    pub open spec fn toggled(self) -> SharedState {
        let flipped = SharedState { listening_enabled: !self.listening_enabled, ..self };
        if self.current.idle() {
            SharedState { current: flipped.at_rest(), ..flipped }
        } else {
            flipped
        }
    }

    /// The microphone on, listening.
    pub fn new() -> (s: Self)
        ensures
            s == (SharedState { listening_enabled: true, current: State::Listening }),
    {
        SharedState { listening_enabled: true, current: State::Listening }
    }

    pub fn current(&self) -> (state: State)
        ensures
            state == self.current,
    {
        self.current
    }

    pub fn set(&mut self, s: State)
        ensures
            *final(self) == (SharedState { current: s, ..*old(self) }),
    {
        self.current = s;
    }

    pub fn idle_state(&self) -> (state: State)
        ensures
            state == self.at_rest(),
    {
        if self.listening_enabled {
            State::Listening
        } else {
            State::Muted
        }
    }

    /// Flips the microphone. Returns the new state to show between turns, and
    /// nothing in the middle of one.
    pub fn toggle_mic(&mut self) -> (shown: Option<State>)
        ensures
            *final(self) == old(self).toggled(),
            shown == if old(self).current.idle() {
                Some(old(self).toggled().current)
            } else {
                None
            },
    {
        let now: bool = !self.listening_enabled;
        self.listening_enabled = now;
        let cur = self.current();
        if cur == State::Listening || cur == State::Muted {
            let s = if now {
                State::Listening
            } else {
                State::Muted
            };
            self.set(s);
            Some(s)
        } else {
            None
        }
    }
}

impl Default for SharedState {
    fn default() -> (s: Self)
        ensures
            s == (SharedState { listening_enabled: true, current: State::Listening }),
    {
        SharedState::new()
    }
}

/// Two flips of the microphone bring back the machine as it was.
pub proof fn toggling_twice_changes_nothing(s: SharedState)
    requires
        s.consistent(),
    ensures
        s.toggled().toggled() == s,
{
}

/// In the middle of a turn the microphone switch leaves what is shown alone;
/// between turns it shows the new state of the microphone.
pub proof fn toggling_repaints_only_between_turns(s: SharedState)
    ensures
        s.toggled().listening_enabled == !s.listening_enabled,
        !s.current.idle() ==> s.toggled().current == s.current,
        s.current.idle() ==> s.toggled().current == s.toggled().at_rest(),
        s.consistent() ==> s.toggled().consistent(),
{
}

/// At rest the assistant listens exactly where the microphone is on, and is muted
/// otherwise.
pub proof fn rest_is_listening_or_muted(s: SharedState)
    ensures
        s.listening_enabled ==> s.at_rest() == State::Listening,
        !s.listening_enabled ==> s.at_rest() == State::Muted,
        s.consistent() <==> (s.current == State::Listening ==> s.listening_enabled) && (s.current
            == State::Muted ==> !s.listening_enabled),
{
}

/// The microphone switch flips the microphone, always; a state between turns
/// becomes the other one by it, and a state in a turn stays.
pub proof fn switch_flips_the_microphone(s: SharedState)
    ensures
        s.toggled().listening_enabled != s.listening_enabled,
        s.current == State::Thinking || s.current == State::Speaking ==> s.toggled().current
            == s.current,
        s.current == State::Listening || s.current == State::Muted ==> s.toggled().current == if s.listening_enabled {
            State::Muted
        } else {
            State::Listening
        },
{
}

} // verus!
