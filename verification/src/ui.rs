//! What the window shows and how its controls change it.

use crate::events::{ControlMsg, State, UiEvent};
use crate::segmenter::last_items;
use crate::settings::AppSettings;
use crate::text::{decimal, push_decimal};
use vstd::prelude::*;
use vstd::string::StringExecFns;

verus! {

/// Turns that the transcript keeps.
pub const TRANSCRIPT_TURNS: usize = 100;

/// One turn of the transcript: what was heard, what was made of it, and when.
pub type Entry = (String, String, String);

/// The window.
pub struct VoiceApp {
    pub state: State,
    pub transcript: Vec<Entry>,
    /// The times of the last turn.
    pub last_timing: Option<String>,
    /// Whether the settings are open.
    pub show_settings: bool,
    /// The settings as they are being edited.
    pub draft: AppSettings,
    /// The settings as they were last saved.
    pub applied: AppSettings,
}

/// What the window shows of the conversation.
#[verifier::ext_equal]
pub struct Shown {
    pub state: State,
    pub transcript: Seq<Entry>,
    pub timing: Option<Seq<char>>,
}

/// What an event changes.
pub open spec fn shown_after(s: Shown, event: UiEvent) -> Shown {
    match event {
        UiEvent::StateChanged(state) => Shown { state, ..s },
        UiEvent::Turn { heard, refined, timing, timestamp } => Shown {
            transcript: last_items(
                s.transcript.push((heard, refined, timestamp)),
                TRANSCRIPT_TURNS as nat,
            ),
            timing: Some(timing.line()),
            ..s
        },
        UiEvent::Cleared => Shown { transcript: seq![], timing: None, ..s },
    }
}

/// What some events change.
pub open spec fn shown_after_all(s: Shown, events: Seq<UiEvent>) -> Shown
    decreases events.len(),
{
    if events.len() == 0 {
        s
    } else {
        shown_after(shown_after_all(s, events.drop_last()), events.last())
    }
}

/// The turns since the last clearing, those that were there before included
/// where nothing was cleared.
pub open spec fn turns_since_cleared(before: Seq<Entry>, events: Seq<UiEvent>) -> Seq<Entry>
    decreases events.len(),
{
    if events.len() == 0 {
        before
    } else {
        let earlier = turns_since_cleared(before, events.drop_last());
        match events.last() {
            UiEvent::StateChanged(_) => earlier,
            UiEvent::Turn { heard, refined, timestamp, .. } => earlier.push(
                (heard, refined, timestamp),
            ),
            UiEvent::Cleared => seq![],
        }
    }
}

impl View for VoiceApp {
    type V = Shown;

    open spec fn view(&self) -> Shown {
        Shown {
            state: self.state,
            transcript: self.transcript@,
            timing: match self.last_timing {
                Some(text) => Some(text@),
                None => None,
            },
        }
    }
}

impl VoiceApp {
    /// The transcript is no longer than it may be.
    pub open spec fn wf(self) -> bool {
        self.transcript@.len() <= TRANSCRIPT_TURNS
    }

    /// A window that was just opened.
    pub fn new(settings: AppSettings) -> (app: Self)
        ensures
            app.wf(),
            app@ == (Shown { state: State::Listening, transcript: seq![], timing: None }),
            !app.show_settings,
            app.draft == settings,
            app.applied == settings,
    {
        let app = VoiceApp {
            state: State::Listening,
            transcript: Vec::new(),
            last_timing: None,
            show_settings: false,
            draft: settings.clone(),
            applied: settings,
        };
        assert(app@ =~= (Shown { state: State::Listening, transcript: seq![], timing: None }));
        app
    }

    /// Takes one event.
    pub fn apply(&mut self, event: UiEvent)
        requires
            old(self).wf(),
        ensures
            final(self).wf(),
            final(self)@ == shown_after(old(self)@, event),
            final(self).show_settings == old(self).show_settings,
            final(self).draft == old(self).draft,
            final(self).applied == old(self).applied,
    {
        match event {
            UiEvent::StateChanged(s) => {
                self.state = s;
            },
            UiEvent::Turn { heard, refined, timing, timestamp } => {
                self.last_timing = Some(timing.format());
                self.transcript.push((heard, refined, timestamp));
                if self.transcript.len() > TRANSCRIPT_TURNS {
                    let _ = self.transcript.remove(0);
                }
            },
            UiEvent::Cleared => {
                self.transcript.clear();
                self.last_timing = None;
            },
        }
        assert(self@ =~= shown_after(old(self)@, event));
    }

    /// The gear: opens the settings as they were last saved, or closes them.
    pub fn toggle_settings(&mut self)
        ensures
            final(self)@ == old(self)@,
            final(self).applied == old(self).applied,
            final(self).show_settings == !old(self).show_settings,
            final(self).draft == if final(self).show_settings {
                old(self).applied
            } else {
                old(self).draft
            },
    {
        self.show_settings = !self.show_settings;
        if self.show_settings {
            self.draft = self.applied.clone();
        }
    }

    /// Ends the edit after an attempt to save it. What was saved is applied and
    /// is to be sent on; where saving failed, the edit stays open.
    pub fn apply_settings(&mut self, saved: bool) -> (msg: Option<ControlMsg>)
        ensures
            final(self)@ == old(self)@,
            final(self).draft == old(self).draft,
            saved ==> {
                &&& final(self).applied == old(self).draft
                &&& !final(self).show_settings
                &&& msg == Some(ControlMsg::SettingsChanged(old(self).draft))
            },
            !saved ==> {
                &&& final(self).applied == old(self).applied
                &&& final(self).show_settings == old(self).show_settings
                &&& msg is None
            },
    {
        if saved {
            self.applied = self.draft.clone();
            self.show_settings = false;
            Some(ControlMsg::SettingsChanged(self.draft.clone()))
        } else {
            None
        }
    }

    /// Puts the defaults into the edit.
    pub fn restore_defaults(&mut self)
        ensures
            final(self)@ == old(self)@,
            final(self).draft.is_default(),
            final(self).applied == old(self).applied,
            final(self).show_settings == old(self).show_settings,
    {
        self.draft = AppSettings::default();
    }

    /// Closes the settings; nothing of the edit is applied.
    pub fn cancel_settings(&mut self)
        ensures
            final(self)@ == old(self)@,
            final(self).draft == old(self).draft,
            final(self).applied == old(self).applied,
            !final(self).show_settings,
    {
        self.show_settings = false;
    }
}

/// The colour of a state: red, green and blue.
pub fn state_color(state: State) -> (rgb: (u8, u8, u8))
    ensures
        rgb == match state {
            State::Listening => (59u8, 130u8, 246u8),
            State::Thinking => (168u8, 85u8, 247u8),
            State::Speaking => (34u8, 197u8, 94u8),
            State::Muted => (100u8, 100u8, 100u8),
        },
{
    match state {
        State::Listening => (59, 130, 246),
        State::Thinking => (168, 85, 247),
        State::Speaking => (34, 197, 94),
        State::Muted => (100, 100, 100),
    }
}

/// The line above what was heard.
pub fn heard_label(timestamp: &str) -> (text: String)
    ensures
        text@ == "heard  "@ + timestamp@,
{
    let mut text = "heard  ".to_owned();
    text.append(timestamp);
    text
}

/// The line above the slider for silence.
pub fn silence_label(silence_ms: u32) -> (text: String)
    ensures
        text@ == "Silence timeout: "@ + decimal(silence_ms as nat) + " ms"@,
{
    let mut text = "Silence timeout: ".to_owned();
    push_decimal(&mut text, silence_ms);
    text.append(" ms");
    text
}

/// The line above the slider for context turns.
pub fn context_label(history_turns: u32) -> (text: String)
    ensures
        text@ == if history_turns == 0 {
            "Context turns: off (stateless)"@
        } else {
            "Context turns: "@ + decimal(history_turns as nat) + " (last "@ + decimal(
                history_turns as nat,
            ) + (if history_turns == 1 {
                " turn)"@
            } else {
                " turns)"@
            })
        },
{
    if history_turns == 0 {
        return "Context turns: off (stateless)".to_owned();
    }
    let mut text = "Context turns: ".to_owned();
    push_decimal(&mut text, history_turns);
    text.append(" (last ");
    push_decimal(&mut text, history_turns);
    if history_turns == 1 {
        text.append(" turn)");
    } else {
        text.append(" turns)");
    }
    text
}

/// Whatever happens, the transcript holds the last turns since it was cleared, as
/// many as it keeps.
pub proof fn transcript_holds_the_last_turns(s: Shown, events: Seq<UiEvent>)
    requires
        s.transcript.len() <= TRANSCRIPT_TURNS,
    ensures
        shown_after_all(s, events).transcript == last_items(
            turns_since_cleared(s.transcript, events),
            TRANSCRIPT_TURNS as nat,
        ),
    decreases events.len(),
{
    let cap = TRANSCRIPT_TURNS as nat;
    if events.len() > 0 {
        let shorter = events.drop_last();
        let earlier = turns_since_cleared(s.transcript, shorter);
        transcript_holds_the_last_turns(s, shorter);
        if let UiEvent::Turn { heard, refined, timestamp, .. } = events.last() {
            let entry = (heard, refined, timestamp);
            assert(last_items(last_items(earlier, cap).push(entry), cap) =~= last_items(
                earlier.push(entry),
                cap,
            ));
        }
    }
}

/// Clearing leaves no turn and no time, whatever was shown.
pub proof fn clearing_leaves_nothing(s: Shown, events: Seq<UiEvent>)
    requires
        events.len() > 0,
        events.last() is Cleared,
    ensures
        shown_after_all(s, events).transcript == Seq::<Entry>::empty(),
        shown_after_all(s, events).timing is None,
        shown_after_all(s, events).state == shown_after_all(s, events.drop_last()).state,
{
}

/// The window shows each event as it comes. A change of state changes the state
/// alone. A turn goes behind the others, and the oldest goes where there were a
/// hundred; its times are shown. Clearing takes the turns and the times.
pub proof fn window_shows_each_event(s: Shown, event: UiEvent)
    requires
        s.transcript.len() <= 100,
    ensures
        ({
            let after = shown_after(s, event);
            &&& event matches UiEvent::StateChanged(state) ==> {
                &&& after.state == state
                &&& after.transcript == s.transcript
                &&& after.timing == s.timing
            }
            &&& event matches UiEvent::Turn { heard, refined, timing, timestamp } ==> {
                &&& after.state == s.state
                &&& after.timing == Some(timing.line())
                &&& s.transcript.len() < 100 ==> after.transcript == s.transcript + seq![
                    (heard, refined, timestamp),
                ]
                &&& s.transcript.len() == 100 ==> after.transcript == s.transcript.drop_first()
                    + seq![(heard, refined, timestamp)]
            }
            &&& event is Cleared ==> {
                &&& after.state == s.state
                &&& after.transcript.len() == 0
                &&& after.timing is None
            }
        }),
{
    if let UiEvent::Turn { heard, refined, timing, timestamp } = event {
        let entry = (heard, refined, timestamp);
        if s.transcript.len() < 100 {
            assert(shown_after(s, event).transcript =~= s.transcript + seq![entry]);
        } else {
            assert(shown_after(s, event).transcript =~= s.transcript.drop_first() + seq![entry]);
        }
    }
}

/// What the window shows is what it holds.
pub proof fn window_shows_what_it_holds(app: VoiceApp)
    ensures
        app@.state == app.state,
        app@.transcript == app.transcript@,
        app.last_timing is None <==> app@.timing is None,
        app.last_timing matches Some(text) ==> app@.timing == Some(text@),
{
}

} // verus!
