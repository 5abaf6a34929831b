//! The course of a conversation: what each event does to it, and what is to be
//! done about the event.

use crate::config::{FRAME, HISTORY_MAXLEN, PREROLL_FRAMES, PREROLL_MS};
use crate::events::{ControlMsg, State, UiEvent};
use crate::history::{
    message_value, nothing_said, remember, request_list, said_json, said_list, History, Remembering, Role, Said,
};
use crate::json::{json_items, json_of, Json};
use crate::segmenter::{
    every_frame_is_kept_where_it_belongs, fresh, last_items, segment_step,
    utterance_comes_out_only_at_an_end, Segmenter, Segmenting, VadEvent,
};
use crate::settings::AppSettings;
use crate::single::Single;
use crate::state::SharedState;
use crate::timing::TurnTiming;
use crate::vad::{
    can_accept, detect_step, frame_turns_speech_on_or_counts_silence, is_speech, recall_at_rest,
    recalled, silence_is_long_enough_once_it_has_lasted, silence_limit, Answer, Detecting, Recall,
    Vad,
};
use vstd::prelude::*;

verus! {

/// A start of speech that is not louder than this is taken for an echo of what
/// is being spoken: the bits of 0.02.
pub const BARGE_IN_THRESHOLD: u32 = 0x3ca3_d70a;

/// What can happen.
pub enum Event<T> {
    /// The user touched a control.
    Control(ControlMsg),
    /// The reply of this generation is over.
    SpeechDone(u64),
    /// A frame came in, with what the detection model gave back for it and how
    /// loud it is.
    Frame { samples: Vec<T>, answer: Result<Answer<T>, String>, loudness: Single },
    /// An utterance was transcribed.
    Transcribed { text: Result<String, String>, stt_ms: u32 },
    /// What was heard was refined.
    Refined {
        heard: String,
        text: Result<String, String>,
        stt_ms: u32,
        refine_ms: u32,
        reply_start_ms: u32,
        timestamp: String,
    },
}

/// What is to be done.
pub enum Action<T> {
    /// Tell the front end.
    Tell(UiEvent),
    /// Raise the stop flag of the reply of this generation.
    StopSpeech(u64),
    /// Transcribe an utterance.
    Transcribe(Vec<T>),
    /// Send these messages to the language model.
    Refine { heard: String, stt_ms: u32, messages: Vec<serde_json::Value> },
    /// Speak a text as the reply of this generation.
    Speak { generation: u64, text: String },
}

/// What an action asks for.
pub enum Deed<T> {
    Tell(UiEvent),
    StopSpeech(u64),
    Transcribe(Seq<T>),
    Refine { heard: String, stt_ms: u32, messages: Seq<Json> },
    Speak { generation: u64, text: String },
}

impl<T> View for Action<T> {
    type V = Deed<T>;

    open spec fn view(&self) -> Deed<T> {
        match *self {
            Action::Tell(event) => Deed::Tell(event),
            Action::StopSpeech(generation) => Deed::StopSpeech(generation),
            Action::Transcribe(samples) => Deed::Transcribe(samples@),
            Action::Refine { heard, stt_ms, messages } => Deed::Refine {
                heard,
                stt_ms,
                messages: json_items(messages@),
            },
            Action::Speak { generation, text } => Deed::Speak { generation, text },
        }
    }
}

pub open spec fn deeds<T>(actions: Seq<Action<T>>) -> Seq<Deed<T>> {
    actions.map_values(|a: Action<T>| a@)
}

/// Where a conversation stands.
#[verifier::ext_equal]
pub struct Working<T> {
    pub shared: SharedState,
    pub settings: AppSettings,
    /// The sample that stands for no sound.
    pub rest: T,
    /// What the detection model goes on from.
    pub recall: Recall<T>,
    pub detecting: Detecting,
    pub segmenting: Segmenting<T>,
    pub memory: Remembering,
    /// The generation of the last reply.
    pub generation: u64,
    /// The generation of the reply that is being spoken.
    pub speaking: Option<u64>,
}

/// The conversation with another state shown.
pub open spec fn showing<T>(w: Working<T>, state: State) -> Working<T> {
    Working { shared: SharedState { current: state, ..w.shared }, ..w }
}

/// The conversation with nothing heard.
pub open spec fn unheard<T>(w: Working<T>) -> Working<T> {
    Working {
        recall: recall_at_rest(w.rest),
        detecting: Detecting { speech_active: false, silence_frames: 0 },
        ..w
    }
}

/// The end of a turn: the state between turns is shown, and what was heard is
/// forgotten.
pub open spec fn to_rest<T>(w: Working<T>) -> (Working<T>, Seq<Deed<T>>) {
    let state = w.shared.at_rest();
    (unheard(showing(w, state)), seq![Deed::Tell(UiEvent::StateChanged(state))])
}

/// The deed that stops the reply that is being spoken, if one is.
pub open spec fn hush<T>(w: Working<T>) -> Seq<Deed<T>> {
    match w.speaking {
        Some(generation) => seq![Deed::StopSpeech(generation)],
        None => seq![],
    }
}

/// What a control does.
pub open spec fn control_step<T>(w: Working<T>, msg: ControlMsg) -> (Working<T>, Seq<Deed<T>>) {
    match msg {
        ControlMsg::ToggleMic => (
            Working { shared: w.shared.toggled(), ..w },
            if w.shared.current.idle() {
                seq![Deed::Tell(UiEvent::StateChanged(w.shared.toggled().current))]
            } else {
                seq![]
            },
        ),
        ControlMsg::Clear => (
            Working { memory: nothing_said(w.memory.cap), ..w },
            seq![Deed::Tell(UiEvent::Cleared)],
        ),
        ControlMsg::Stop => (w, hush(w)),
        ControlMsg::SettingsChanged(settings) => (
            Working {
                settings,
                memory: nothing_said((2 * settings.history_turns) as nat),
                ..w
            },
            seq![],
        ),
    }
}

/// What the end of a reply does: it ends the turn, unless another reply has
/// taken its place. Speech that has begun meanwhile, and may be what stopped the
/// reply, goes on being heard.
pub open spec fn done_step<T>(w: Working<T>, generation: u64) -> (Working<T>, Seq<Deed<T>>) {
    let silent = Working { speaking: None, ..w };
    if w.speaking != Some(generation) {
        (w, seq![])
    } else if w.detecting.speech_active {
        let state = w.shared.at_rest();
        (showing(silent, state), seq![Deed::Tell(UiEvent::StateChanged(state))])
    } else {
        to_rest(silent)
    }
}

/// Whether a frame interrupts what is being spoken.
pub open spec fn barges_in(event: Option<VadEvent>, loudness: Single) -> bool {
    event == Some(VadEvent::Start) && (Single { bits: BARGE_IN_THRESHOLD }).below(loudness)
}

/// What a frame does.
pub open spec fn frame_step<T>(
    w: Working<T>,
    samples: Seq<T>,
    answer: Result<Answer<T>, String>,
    loudness: Single,
) -> (Working<T>, Seq<Deed<T>>) {
    match answer {
        Err(_) => (unheard(w), seq![]),
        Ok(a) => {
            let (detecting, event) = detect_step(
                w.detecting,
                is_speech(a.probability, w.settings.speech_threshold),
                silence_limit(w.settings.silence_ms as nat),
            );
            let (segmenting, utterance) = segment_step(w.segmenting, samples, event);
            let heard = Working {
                recall: recalled(w.recall, samples, answer),
                detecting,
                segmenting,
                ..w
            };
            let first = if barges_in(event, loudness) {
                hush(w)
            } else {
                seq![]
            };
            match utterance {
                None => (heard, first),
                Some(u) => (
                    showing(heard, State::Thinking),
                    first + seq![
                        Deed::Tell(UiEvent::StateChanged(State::Thinking)),
                        Deed::Transcribe(u),
                    ],
                ),
            }
        },
    }
}

/// The messages of a request: without context turns, what the model is told first
/// and what was just heard; with them, what it is told first and all that the
/// history then keeps, what was just heard included.
pub open spec fn messages_for<T>(w: Working<T>, heard: Seq<char>) -> Seq<Said> {
    let user = Said { role: Role::User, content: heard };
    if w.settings.history_turns == 0 {
        seq![Said { role: Role::System, content: w.settings.system_prompt@ }, user]
    } else {
        request_list(remember(w.memory, user), w.settings.system_prompt@)
    }
}

/// The history after one more message, where there is context.
pub open spec fn remembering<T>(w: Working<T>, said: Said) -> Working<T> {
    if w.settings.history_turns == 0 {
        w
    } else {
        Working { memory: remember(w.memory, said), ..w }
    }
}

/// What a transcription does: one that failed or heard nothing ends the turn.
pub open spec fn transcribed_step<T>(
    w: Working<T>,
    text: Result<String, String>,
    stt_ms: u32,
) -> (Working<T>, Seq<Deed<T>>) {
    match text {
        Err(_) => to_rest(w),
        Ok(heard) => if heard@.len() == 0 {
            to_rest(w)
        } else {
            (
                remembering(w, Said { role: Role::User, content: heard@ }),
                seq![Deed::Refine { heard, stt_ms, messages: said_list(messages_for(w, heard@)) }],
            )
        },
    }
}

/// What a refinement does: one that failed ends the turn, any other is shown
/// and spoken as the reply of a new generation.
pub open spec fn refined_step<T>(
    w: Working<T>,
    heard: String,
    text: Result<String, String>,
    stt_ms: u32,
    refine_ms: u32,
    reply_start_ms: u32,
    timestamp: String,
) -> (Working<T>, Seq<Deed<T>>) {
    match text {
        Err(_) => to_rest(w),
        Ok(refined) => {
            let generation = (w.generation + 1) as u64;
            let timing = TurnTiming {
                endpoint_ms: w.settings.silence_ms,
                stt_ms,
                refine_ms,
                reply_start_ms,
            };
            (
                Working {
                    generation,
                    speaking: Some(generation),
                    ..showing(
                        remembering(w, Said { role: Role::Assistant, content: refined@ }),
                        State::Speaking,
                    )
                },
                seq![Deed::Tell(UiEvent::Turn { heard, refined, timing, timestamp })] + hush(w)
                    + seq![
                    Deed::Tell(UiEvent::StateChanged(State::Speaking)),
                    Deed::Speak { generation, text: refined },
                ],
            )
        },
    }
}

/// What an event does to a conversation, and what is to be done about it.
pub open spec fn worker_step<T>(w: Working<T>, event: Event<T>) -> (Working<T>, Seq<Deed<T>>) {
    match event {
        Event::Control(msg) => control_step(w, msg),
        Event::SpeechDone(generation) => done_step(w, generation),
        Event::Frame { samples, answer, loudness } => frame_step(w, samples@, answer, loudness),
        Event::Transcribed { text, stt_ms } => transcribed_step(w, text, stt_ms),
        Event::Refined { heard, text, stt_ms, refine_ms, reply_start_ms, timestamp } =>
            refined_step(w, heard, text, stt_ms, refine_ms, reply_start_ms, timestamp),
    }
}

/// The events that can be taken: the answer to a frame can be accepted, a
/// history is no longer than can be counted, and generations do not run out.
pub open spec fn can_take<T>(w: Working<T>, event: Event<T>) -> bool {
    match event {
        Event::Control(ControlMsg::SettingsChanged(s)) => 2 * s.history_turns <= usize::MAX,
        Event::Frame { samples, answer, .. } => can_accept(samples@, answer),
        Event::Refined { .. } => w.generation < u64::MAX,
        _ => true,
    }
}

/// A conversation.
pub struct Worker<T> {
    pub shared: SharedState,
    pub settings: AppSettings,
    pub vad: Vad<T>,
    pub segmenter: Segmenter<T>,
    pub history: History,
    pub generation: u64,
    pub speaking: Option<u64>,
}

impl<T> View for Worker<T> {
    type V = Working<T>;

    open spec fn view(&self) -> Working<T> {
        Working {
            shared: self.shared,
            settings: self.settings,
            rest: self.vad.rest,
            recall: Recall { context: self.vad.context@, state: self.vad.state@ },
            detecting: Detecting {
                speech_active: self.vad.speech_active,
                silence_frames: self.vad.silence_frames as nat,
            },
            segmenting: self.segmenter@,
            memory: self.history@,
            generation: self.generation,
            speaking: self.speaking,
        }
    }
}

/// A conversation that has not begun.
pub open spec fn begun<T>(rest: T, settings: AppSettings) -> Working<T> {
    Working {
        shared: SharedState { listening_enabled: true, current: State::Listening },
        settings,
        rest,
        recall: recall_at_rest(rest),
        detecting: Detecting { speech_active: false, silence_frames: 0 },
        segmenting: fresh(PREROLL_FRAMES as nat),
        memory: nothing_said(HISTORY_MAXLEN as nat),
        generation: 0,
        speaking: None,
    }
}

impl<T: Copy> Worker<T> {
    /// The parts are sound, and detection goes by the settings.
    pub open spec fn wf(self) -> bool {
        &&& self.vad.wf()
        &&& self.segmenter.wf()
        &&& self.history.wf()
        &&& self.vad.silence_ms == self.settings.silence_ms
        &&& self.vad.speech_threshold == self.settings.speech_threshold
    }

    pub fn new(rest: T, settings: AppSettings) -> (w: Self)
        ensures
            w.wf(),
            w@ == begun(rest, settings),
    {
        let mut vad = Vad::new(rest);
        vad.set_thresholds(settings.silence_ms, settings.speech_threshold);
        let w = Worker {
            shared: SharedState::new(),
            settings,
            vad,
            segmenter: Segmenter::new(PREROLL_FRAMES),
            history: History::new(HISTORY_MAXLEN),
            generation: 0,
            speaking: None,
        };
        assert(w@ =~= begun(rest, settings));
        w
    }

    /// Takes an event. Returns what is to be done, in this order.
    pub fn handle(&mut self, event: Event<T>) -> (actions: Vec<Action<T>>)
        requires
            old(self).wf(),
            can_take(old(self)@, event),
        ensures
            final(self).wf(),
            final(self)@ == worker_step(old(self)@, event).0,
            deeds(actions@) == worker_step(old(self)@, event).1,
    {
        let mut actions: Vec<Action<T>> = Vec::new();
        match event {
            Event::Control(msg) => self.control(msg, &mut actions),
            Event::SpeechDone(generation) => self.speech_done(generation, &mut actions),
            Event::Frame { samples, answer, loudness } => self.frame(
                samples,
                answer,
                loudness,
                &mut actions,
            ),
            Event::Transcribed { text, stt_ms } => self.transcribed(text, stt_ms, &mut actions),
            Event::Refined { heard, text, stt_ms, refine_ms, reply_start_ms, timestamp } => {
                let timing = TurnTiming {
                    endpoint_ms: self.settings.silence_ms,
                    stt_ms,
                    refine_ms,
                    reply_start_ms,
                };
                self.refined(heard, text, timing, timestamp, &mut actions)
            },
        }
        assert(deeds(actions@) =~= worker_step(old(self)@, event).1);
        actions
    }

    fn reset_to_idle(&mut self, actions: &mut Vec<Action<T>>)
        requires
            old(self).wf(),
        ensures
            final(self).wf(),
            final(self)@ == to_rest(old(self)@).0,
            deeds(final(actions)@) == deeds(old(actions)@) + to_rest(old(self)@).1,
    {
        let s = self.shared.idle_state();
        self.shared.set(s);
        actions.push(Action::Tell(UiEvent::StateChanged(s)));
        self.vad.reset();
        assert(self@ =~= to_rest(old(self)@).0);
        assert(deeds(actions@) =~= deeds(old(actions)@) + to_rest(old(self)@).1);
    }

    fn stop_speech(&self, actions: &mut Vec<Action<T>>)
        ensures
            deeds(final(actions)@) == deeds(old(actions)@) + hush(self@),
    {
        match self.speaking {
            Some(generation) => actions.push(Action::StopSpeech(generation)),
            None => {},
        }
        assert(deeds(actions@) =~= deeds(old(actions)@) + hush(self@));
    }

    fn control(&mut self, msg: ControlMsg, actions: &mut Vec<Action<T>>)
        requires
            old(self).wf(),
            can_take(old(self)@, Event::<T>::Control(msg)),
        ensures
            final(self).wf(),
            final(self)@ == control_step(old(self)@, msg).0,
            deeds(final(actions)@) == deeds(old(actions)@) + control_step(old(self)@, msg).1,
    {
        match msg {
            ControlMsg::ToggleMic => {
                match self.shared.toggle_mic() {
                    Some(s) => actions.push(Action::Tell(UiEvent::StateChanged(s))),
                    None => {},
                }
            },
            ControlMsg::Clear => {
                self.history.clear();
                actions.push(Action::Tell(UiEvent::Cleared));
            },
            ControlMsg::Stop => self.stop_speech(actions),
            ControlMsg::SettingsChanged(s) => {
                self.vad.set_thresholds(s.silence_ms, s.speech_threshold);
                self.history = History::new(s.history_turns as usize * 2);
                self.settings = s;
            },
        }
        assert(self@ =~= control_step(old(self)@, msg).0);
        assert(deeds(actions@) =~= deeds(old(actions)@) + control_step(old(self)@, msg).1);
    }

    fn speech_done(&mut self, generation: u64, actions: &mut Vec<Action<T>>)
        requires
            old(self).wf(),
        ensures
            final(self).wf(),
            final(self)@ == done_step(old(self)@, generation).0,
            deeds(final(actions)@) == deeds(old(actions)@) + done_step(old(self)@, generation).1,
    {
        let current = match self.speaking {
            Some(g) => g == generation,
            None => false,
        };
        if current {
            self.speaking = None;
            if self.vad.speech_active {
                let s = self.shared.idle_state();
                self.shared.set(s);
                actions.push(Action::Tell(UiEvent::StateChanged(s)));
            } else {
                self.reset_to_idle(actions);
            }
        }
        assert(self@ =~= done_step(old(self)@, generation).0);
        assert(deeds(actions@) =~= deeds(old(actions)@) + done_step(old(self)@, generation).1);
    }

    fn frame(
        &mut self,
        samples: Vec<T>,
        answer: Result<Answer<T>, String>,
        loudness: Single,
        actions: &mut Vec<Action<T>>,
    )
        requires
            old(self).wf(),
            can_accept(samples@, answer),
        ensures
            final(self).wf(),
            final(self)@ == frame_step(old(self)@, samples@, answer, loudness).0,
            deeds(final(actions)@) == deeds(old(actions)@) + frame_step(
                old(self)@,
                samples@,
                answer,
                loudness,
            ).1,
    {
        let ghost before = self@;
        let ghost asked = frame_step(before, samples@, answer, loudness);
        let event = match self.vad.accept(samples.as_slice(), answer) {
            Ok(event) => event,
            Err(_) => {
                self.vad.reset();
                        assert(self@ =~= asked.0);
                assert(deeds(actions@) =~= deeds(old(actions)@) + asked.1);
                return;
            },
        };
        let start = match event {
            Some(VadEvent::Start) => true,
            _ => false,
        };
        let threshold = Single { bits: BARGE_IN_THRESHOLD };
        if start && threshold.is_below(loudness) {
            self.stop_speech(actions);
        }
        match self.segmenter.push(samples, event) {
            Some(utterance) => {
                self.shared.set(State::Thinking);
                actions.push(Action::Tell(UiEvent::StateChanged(State::Thinking)));
                actions.push(Action::Transcribe(utterance));
            },
            None => {},
        }
        assert(self@ =~= asked.0);
        assert(deeds(actions@) =~= deeds(old(actions)@) + asked.1);
    }

    fn transcribed(
        &mut self,
        text: Result<String, String>,
        stt_ms: u32,
        actions: &mut Vec<Action<T>>,
    )
        requires
            old(self).wf(),
        ensures
            final(self).wf(),
            final(self)@ == transcribed_step(old(self)@, text, stt_ms).0,
            deeds(final(actions)@) == deeds(old(actions)@) + transcribed_step(
                old(self)@,
                text,
                stt_ms,
            ).1,
    {
        let ghost asked = transcribed_step(self@, text, stt_ms);
        let heard = match text {
            Ok(t) => t,
            Err(_) => {
                self.reset_to_idle(actions);
                return;
            },
        };
        if heard.as_str().is_empty() {
            self.reset_to_idle(actions);
            return;
        }
        let messages = if self.settings.history_turns == 0 {
            let mut messages: Vec<serde_json::Value> = Vec::new();
            messages.push(message_value(Role::System, self.settings.system_prompt.as_str()));
            messages.push(message_value(Role::User, heard.as_str()));
            assert(json_items(messages@) =~= said_list(messages_for(old(self)@, heard@)));
            messages
        } else {
            self.history.record_user_and_build(
                heard.as_str(),
                self.settings.system_prompt.as_str(),
            )
        };
        actions.push(Action::Refine { heard, stt_ms, messages });
        assert(self@ =~= asked.0);
        assert(deeds(actions@) =~= deeds(old(actions)@) + asked.1);
    }

    fn refined(
        &mut self,
        heard: String,
        text: Result<String, String>,
        timing: TurnTiming,
        timestamp: String,
        actions: &mut Vec<Action<T>>,
    )
        requires
            old(self).wf(),
            old(self).generation < u64::MAX,
            timing.endpoint_ms == old(self).settings.silence_ms,
        ensures
            final(self).wf(),
            ({
                let asked = refined_step(
                    old(self)@,
                    heard,
                    text,
                    timing.stt_ms,
                    timing.refine_ms,
                    timing.reply_start_ms,
                    timestamp,
                );
                &&& final(self)@ == asked.0
                &&& deeds(final(actions)@) == deeds(old(actions)@) + asked.1
            }),
    {
        let ghost asked = refined_step(
            self@,
            heard,
            text,
            timing.stt_ms,
            timing.refine_ms,
            timing.reply_start_ms,
            timestamp,
        );
        let refined = match text {
            Ok(r) => r,
            Err(_) => {
                self.reset_to_idle(actions);
                return;
            },
        };
        if self.settings.history_turns > 0 {
            self.history.record_assistant(refined.as_str());
        }
        actions.push(
            Action::Tell(UiEvent::Turn { heard, refined: refined.clone(), timing, timestamp }),
        );
        let ghost told = Deed::<T>::Tell(UiEvent::Turn { heard, refined, timing, timestamp });
        assert(deeds(actions@) =~= deeds(old(actions)@) + seq![told]);
        self.stop_speech(actions);
        let ghost stopped = deeds(actions@);
        self.generation = self.generation + 1;
        self.speaking = Some(self.generation);
        self.shared.set(State::Speaking);
        actions.push(Action::Tell(UiEvent::StateChanged(State::Speaking)));
        actions.push(Action::Speak { generation: self.generation, text: refined });
        assert(self@ =~= asked.0);
        assert(deeds(actions@) =~= stopped + seq![
            Deed::Tell(UiEvent::StateChanged(State::Speaking)),
            Deed::Speak { generation: self.generation, text: refined },
        ]);
        assert(deeds(actions@) =~= deeds(old(actions)@) + asked.1);
    }
}

/// What an event after another does, and after another, with all that is to be
/// done about them.
pub open spec fn worker_run<T>(w: Working<T>, events: Seq<Event<T>>) -> (Working<T>, Seq<Deed<T>>)
    decreases events.len(),
{
    if events.len() == 0 {
        (w, seq![])
    } else {
        let (before, done) = worker_run(w, events.drop_last());
        let (after, more) = worker_step(before, events.last());
        (after, done + more)
    }
}

/// The state that a front end shows, after what it is told in these deeds.
pub open spec fn shown<T>(state: State, done: Seq<Deed<T>>) -> State
    decreases done.len(),
{
    if done.len() == 0 {
        state
    } else {
        match done.last() {
            Deed::Tell(UiEvent::StateChanged(s)) => s,
            _ => shown(state, done.drop_last()),
        }
    }
}

proof fn lemma_shown_appends<T>(state: State, a: Seq<Deed<T>>, b: Seq<Deed<T>>)
    ensures
        shown(state, a + b) == shown(shown(state, a), b),
    decreases b.len(),
{
    if b.len() == 0 {
        assert(a + b =~= a);
    } else {
        assert((a + b).drop_last() =~= a + b.drop_last());
        lemma_shown_appends(state, a, b.drop_last());
    }
}

proof fn lemma_step_is_shown<T>(w: Working<T>, event: Event<T>)
    ensures
        shown(w.shared.current, worker_step(w, event).1) == worker_step(
            w,
            event,
        ).0.shared.current,
{
    reveal_with_fuel(shown, 5);
}

/// A front end that starts with the state that is shown and goes by what it is
/// told always shows the conversation's state: every change is announced.
pub proof fn every_change_of_state_is_announced<T>(w: Working<T>, events: Seq<Event<T>>)
    ensures
        shown(w.shared.current, worker_run(w, events).1) == worker_run(w, events).0.shared.current,
    decreases events.len(),
{
    if events.len() > 0 {
        let (before, done) = worker_run(w, events.drop_last());
        every_change_of_state_is_announced(w, events.drop_last());
        lemma_step_is_shown(before, events.last());
        lemma_shown_appends(w.shared.current, done, worker_step(before, events.last()).1);
    }
}

/// Between turns the state that is shown always says whether the microphone is
/// on.
pub proof fn rest_shows_the_microphone<T>(w: Working<T>, events: Seq<Event<T>>)
    requires
        w.shared.consistent(),
    ensures
        worker_run(w, events).0.shared.consistent(),
    decreases events.len(),
{
    if events.len() > 0 {
        rest_shows_the_microphone(w, events.drop_last());
    }
}

/// What is being spoken is a reply that was begun, and no reply has the number
/// of an earlier one.
pub open spec fn numbered<T>(w: Working<T>) -> bool {
    w.speaking matches Some(g) ==> 1 <= g <= w.generation
}

/// Replies are numbered upwards: an event that begins one gives it the next
/// number and makes it the one that is being spoken, and no event goes back.
pub proof fn replies_are_numbered_upwards<T>(w: Working<T>, event: Event<T>)
    requires
        numbered(w),
        can_take(w, event),
    ensures
        ({
            let (after, done) = worker_step(w, event);
            &&& numbered(after)
            &&& w.generation <= after.generation <= w.generation + 1
            &&& forall|i: int|
                0 <= i < done.len() ==> ((#[trigger] done[i]) matches Deed::Speak {
                    generation,
                    ..
                } ==> generation == w.generation + 1 && after.speaking == Some(generation))
        }),
{
}

/// Only the reply that is being spoken is ever told to stop, and a new reply
/// begins only after the one before it was.
pub proof fn only_the_spoken_reply_is_stopped<T>(w: Working<T>, event: Event<T>)
    ensures
        ({
            let done = worker_step(w, event).1;
            &&& forall|i: int|
                0 <= i < done.len() ==> ((#[trigger] done[i]) matches Deed::StopSpeech(g)
                    ==> w.speaking == Some(g))
            &&& forall|i: int|
                0 <= i < done.len() && (#[trigger] done[i]) is Speak && w.speaking is Some
                    ==> exists|j: int| 0 <= j < i && done[j] == Deed::<T>::StopSpeech(w.speaking->0)
        }),
{
    let done = worker_step(w, event).1;
    if w.speaking is Some && event is Refined && event->Refined_text is Ok {
        assert(done[1] == Deed::<T>::StopSpeech(w.speaking->0));
    }
}

/// The end of a reply that is no longer the one being spoken changes nothing.
pub proof fn late_end_of_a_reply_changes_nothing<T>(w: Working<T>, generation: u64)
    requires
        w.speaking != Some(generation),
    ensures
        worker_step(w, Event::SpeechDone(generation)) == (w, Seq::<Deed<T>>::empty()),
{
}

/// The stop button stops what is being spoken, and does nothing else.
pub proof fn stop_button_stops_the_reply<T>(w: Working<T>)
    ensures
        worker_step(w, Event::Control(ControlMsg::Stop)).0 == w,
        worker_step(w, Event::Control(ControlMsg::Stop)).1 == match w.speaking {
            Some(g) => seq![Deed::<T>::StopSpeech(g)],
            None => seq![],
        },
{
}

/// Speech that begins loud enough while a reply is being spoken stops the
/// reply, and the frame it began with is the first after those kept from before
/// it; speech that is no louder than an echo stops nothing.
pub proof fn loud_speech_interrupts_the_reply<T>(
    w: Working<T>,
    samples: Vec<T>,
    a: Answer<T>,
    loudness: Single,
    generation: u64,
)
    requires
        w.speaking == Some(generation),
        !w.detecting.speech_active,
        is_speech(a.probability, w.settings.speech_threshold),
    ensures
        ({
            let (after, done) = worker_step(
                w,
                Event::Frame { samples, answer: Ok(a), loudness },
            );
            &&& after.detecting.speech_active
            &&& after.segmenting.collecting
            &&& after.segmenting.buffer == w.segmenting.preroll.push(samples@)
            &&& after.speaking == w.speaking
            &&& done == if (Single { bits: BARGE_IN_THRESHOLD }).below(loudness) {
                seq![Deed::<T>::StopSpeech(generation)]
            } else {
                seq![]
            }
        }),
{
}

/// The frames among some events.
pub open spec fn frames_among<T>(events: Seq<Event<T>>) -> Seq<Seq<T>>
    decreases events.len(),
{
    if events.len() == 0 {
        seq![]
    } else {
        match events.last() {
            Event::Frame { samples, .. } => frames_among(events.drop_last()).push(samples@),
            _ => frames_among(events.drop_last()),
        }
    }
}

/// What can happen while the user speaks: frames that the model can read, ends of
/// replies, and controls.
pub open spec fn while_speaking<T>(event: Event<T>) -> bool {
    match event {
        Event::Control(_) => true,
        Event::SpeechDone(_) => true,
        Event::Frame { answer, .. } => answer is Ok,
        _ => false,
    }
}

/// On this frame the user has been silent long enough.
pub open spec fn ends_speech<T>(w: Working<T>, event: Event<T>) -> bool {
    event matches Event::Frame { answer: Ok(a), .. } && detect_step(
        w.detecting,
        is_speech(a.probability, w.settings.speech_threshold),
        silence_limit(w.settings.silence_ms as nat),
    ).1 == Some(VadEvent::End)
}

proof fn lemma_control_keeps_collecting<T>(w: Working<T>, msg: ControlMsg)
    ensures
        control_step(w, msg).0.detecting == w.detecting,
        control_step(w, msg).0.segmenting == w.segmenting,
{
}

proof fn lemma_done_keeps_collecting<T>(w: Working<T>, generation: u64)
    requires
        w.detecting.speech_active,
    ensures
        done_step(w, generation).0.detecting == w.detecting,
        done_step(w, generation).0.segmenting == w.segmenting,
{
}

proof fn lemma_frame_is_collected<T>(
    w: Working<T>,
    samples: Vec<T>,
    answer: Result<Answer<T>, String>,
    loudness: Single,
)
    requires
        w.detecting.speech_active,
        w.segmenting.collecting,
        answer is Ok,
        !ends_speech(w, Event::Frame { samples, answer, loudness }),
    ensures
        ({
            let after = frame_step(w, samples@, answer, loudness).0;
            &&& after.detecting.speech_active
            &&& after.segmenting == (Segmenting {
                buffer: w.segmenting.buffer.push(samples@),
                ..w.segmenting
            })
        }),
{
}

/// One event while the user speaks leaves speech on, and collects its frame.
proof fn lemma_event_is_collected<T>(w: Working<T>, event: Event<T>)
    requires
        w.detecting.speech_active,
        w.segmenting.collecting,
        while_speaking(event),
        !ends_speech(w, event),
    ensures
        worker_step(w, event).0.detecting.speech_active,
        worker_step(w, event).0.segmenting == (Segmenting {
            buffer: w.segmenting.buffer + frames_among(seq![event]),
            ..w.segmenting
        }),
{
    assert(seq![event].last() == event);
    assert(seq![event].drop_last() =~= seq![]);
    assert(frames_among(Seq::<Event<T>>::empty()) =~= seq![]);
    match event {
        Event::Control(msg) => {
            lemma_control_keeps_collecting(w, msg);
            assert(w.segmenting.buffer + frames_among(seq![event]) =~= w.segmenting.buffer);
        },
        Event::SpeechDone(generation) => {
            lemma_done_keeps_collecting(w, generation);
            assert(w.segmenting.buffer + frames_among(seq![event]) =~= w.segmenting.buffer);
        },
        Event::Frame { samples, answer, loudness } => {
            lemma_frame_is_collected(w, samples, answer, loudness);
            assert(w.segmenting.buffer + frames_among(seq![event]) =~= w.segmenting.buffer.push(
                samples@,
            ));
        },
        _ => {},
    }
}

proof fn lemma_frames_among_appends<T>(events: Seq<Event<T>>, event: Event<T>)
    ensures
        frames_among(events.push(event)) == frames_among(events) + frames_among(seq![event]),
{
    assert(events.push(event).drop_last() =~= events);
    assert(seq![event].drop_last() =~= seq![]);
    assert(frames_among(Seq::<Event<T>>::empty()) =~= seq![]);
    assert(frames_among(events.push(event)) =~= frames_among(events) + frames_among(seq![event]));
}

proof fn lemma_speech_is_collected<T>(w: Working<T>, events: Seq<Event<T>>)
    requires
        w.detecting.speech_active,
        w.segmenting.collecting,
        forall|i: int|
            0 <= i < events.len() ==> while_speaking(#[trigger] events[i]) && !ends_speech(
                worker_run(w, events.take(i)).0,
                events[i],
            ),
    ensures
        worker_run(w, events).0.detecting.speech_active,
        worker_run(w, events).0.segmenting == (Segmenting {
            buffer: w.segmenting.buffer + frames_among(events),
            ..w.segmenting
        }),
    decreases events.len(),
{
    if events.len() == 0 {
        assert(w.segmenting.buffer + frames_among(events) =~= w.segmenting.buffer);
    } else {
        let shorter = events.drop_last();
        let event = events[events.len() - 1];
        assert forall|i: int| 0 <= i < shorter.len() implies while_speaking(
            #[trigger] shorter[i],
        ) && !ends_speech(worker_run(w, shorter.take(i)).0, shorter[i]) by {
            assert(shorter[i] == events[i]);
            assert(shorter.take(i) =~= events.take(i));
        }
        lemma_speech_is_collected(w, shorter);
        let before = worker_run(w, shorter).0;
        assert(events.take(events.len() - 1) =~= shorter);
        lemma_event_is_collected(before, event);
        assert(shorter.push(event) =~= events);
        lemma_frames_among_appends(shorter, event);
        assert(before.segmenting.buffer + frames_among(seq![event]) =~= w.segmenting.buffer
            + frames_among(events));
    }
}

proof fn lemma_end_gives_out_the_speech<T>(w: Working<T>, last: Event<T>)
    requires
        w.segmenting.collecting,
        ends_speech(w, last),
    ensures
        worker_step(w, last).1 == seq![
            Deed::<T>::Tell(UiEvent::StateChanged(State::Thinking)),
            Deed::<T>::Transcribe(w.segmenting.buffer.push(last->samples@).flatten()),
        ],
{
    let done = seq![
        Deed::<T>::Tell(UiEvent::StateChanged(State::Thinking)),
        Deed::<T>::Transcribe(w.segmenting.buffer.push(last->samples@).flatten()),
    ];
    assert(Seq::<Deed<T>>::empty() + done =~= done);
}

/// Nothing of an interruption is lost: from the frame on which the user breaks in
/// on a reply to the frame on which they have been silent long enough, whatever
/// control is touched and whatever reply comes to its end meanwhile, what is then
/// transcribed is the frames kept from before the interruption, the interrupting
/// frame, and every frame after it up to the end, in order.
pub proof fn interruption_is_heard_whole<T>(
    w: Working<T>,
    samples: Vec<T>,
    a: Answer<T>,
    loudness: Single,
    events: Seq<Event<T>>,
    last: Event<T>,
)
    requires
        !w.detecting.speech_active,
        is_speech(a.probability, w.settings.speech_threshold),
        ({
            let first = Event::Frame { samples, answer: Ok(a), loudness };
            let started = worker_step(w, first).0;
            &&& forall|i: int|
                0 <= i < events.len() ==> while_speaking(#[trigger] events[i]) && !ends_speech(
                    worker_run(started, events.take(i)).0,
                    events[i],
                )
            &&& ends_speech(worker_run(started, events).0, last)
        }),
    ensures
        ({
            let first = Event::Frame { samples, answer: Ok(a), loudness };
            let spoken = worker_run(worker_step(w, first).0, events).0;
            worker_step(spoken, last).1 == seq![
                Deed::<T>::Tell(UiEvent::StateChanged(State::Thinking)),
                Deed::<T>::Transcribe(
                    (w.segmenting.preroll.push(samples@) + frames_among(events.push(
                        last,
                    ))).flatten(),
                ),
            ]
        }),
{
    let first = Event::Frame { samples, answer: Ok(a), loudness };
    let started = worker_step(w, first).0;
    let spoken = worker_run(started, events).0;
    lemma_speech_is_collected(started, events);
    lemma_end_gives_out_the_speech(spoken, last);
    let kept = w.segmenting.preroll.push(samples@);
    assert(started.segmenting.buffer == kept);
    assert(events.push(last).drop_last() =~= events);
    assert(frames_among(events.push(last)) == frames_among(events).push(last->samples@));
    assert((kept + frames_among(events)).push(last->samples@) =~= kept + frames_among(
        events.push(last),
    ));
}

/// The microphone switched off while a reply is being spoken leaves the reply
/// alone; when it is over, the microphone is still off.
pub proof fn muting_lasts_beyond_the_reply<T>(w: Working<T>, generation: u64)
    requires
        w.speaking == Some(generation),
        w.shared == (SharedState { listening_enabled: true, current: State::Speaking }),
    ensures
        ({
            let (muted, done) = worker_step(w, Event::Control(ControlMsg::ToggleMic));
            let after = worker_step(muted, Event::SpeechDone(generation)).0;
            &&& done == Seq::<Deed<T>>::empty()
            &&& muted.speaking == w.speaking
            &&& after.shared == (SharedState { listening_enabled: false, current: State::Muted })
            &&& after.speaking is None
        }),
{
}

/// Without context turns, what the model is sent depends on nothing that was
/// said before, and nothing is remembered.
pub proof fn stateless_requests_hold_one_turn<T>(w: Working<T>, heard: Seq<char>)
    requires
        w.settings.history_turns == 0,
    ensures
        messages_for(w, heard) == seq![
            Said { role: Role::System, content: w.settings.system_prompt@ },
            Said { role: Role::User, content: heard },
        ],
        forall|said: Said| remembering(w, said) == w,
{
}

/// With context turns, what the model is sent is what it is told first and the
/// last messages of the conversation, what was just heard among them, as many as
/// the history keeps.
pub proof fn requests_hold_the_last_messages<T>(w: Working<T>, heard: Seq<char>)
    requires
        w.settings.history_turns > 0,
    ensures
        ({
            let user = Said { role: Role::User, content: heard };
            let request = messages_for(w, heard);
            &&& request == seq![
                Said { role: Role::System, content: w.settings.system_prompt@ },
            ] + last_items(w.memory.turns.push(user), w.memory.cap)
            &&& request.len() <= w.memory.cap + 1
            &&& w.memory.cap > 0 ==> request.last() == user
        }),
{
}

/// A turn on which transcription fails or hears nothing, or on which refinement
/// fails, is over at once: the state between turns is shown, the next frame is
/// heard as the first, nothing is spoken, and what is being spoken is left alone.
pub proof fn failed_turn_comes_back_to_rest<T>(w: Working<T>, event: Event<T>)
    requires
        match event {
            Event::Transcribed { text, .. } => text is Err || text->Ok_0@.len() == 0,
            Event::Refined { text, .. } => text is Err,
            _ => false,
        },
    ensures
        ({
            let (after, done) = worker_step(w, event);
            &&& after.shared.current == w.shared.at_rest()
            &&& after.shared.listening_enabled == w.shared.listening_enabled
            &&& after.recall == recall_at_rest(w.rest)
            &&& after.detecting == (Detecting { speech_active: false, silence_frames: 0 })
            &&& after.speaking == w.speaking
            &&& after.memory == w.memory
            &&& done == seq![Deed::<T>::Tell(UiEvent::StateChanged(w.shared.at_rest()))]
        }),
{
}

/// A turn that goes well is spoken and then over: the state between turns is
/// shown again, nothing is being spoken, speech that began meanwhile is still
/// being heard, and, with context turns, what was said on both sides is
/// remembered.
pub proof fn turn_comes_back_to_rest<T>(
    w: Working<T>,
    heard: String,
    refined: String,
    stt_ms: u32,
    refine_ms: u32,
    reply_start_ms: u32,
    timestamp: String,
)
    requires
        w.generation < u64::MAX,
        heard@.len() > 0,
    ensures
        ({
            let sent = worker_step(w, Event::Transcribed { text: Ok(heard), stt_ms }).0;
            let spoken = worker_step(
                sent,
                Event::Refined {
                    heard,
                    text: Ok(refined),
                    stt_ms,
                    refine_ms,
                    reply_start_ms,
                    timestamp,
                },
            ).0;
            let after = worker_step(spoken, Event::SpeechDone(spoken.generation)).0;
            &&& spoken.shared.current == State::Speaking
            &&& after.shared.current == w.shared.at_rest()
            &&& after.speaking is None
            &&& after.detecting == if w.detecting.speech_active {
                w.detecting
            } else {
                Detecting { speech_active: false, silence_frames: 0 }
            }
            &&& after.memory == if w.settings.history_turns == 0 {
                w.memory
            } else {
                remember(
                    remember(w.memory, Said { role: Role::User, content: heard@ }),
                    Said { role: Role::Assistant, content: refined@ },
                )
            }
        }),
{
}

/// On every turn the refined text, and only it, is what is spoken: a refinement asks
/// for one reply, of the next generation, with that text. The front end is told the
/// turn once, with what was heard, what was made of it, its times and when it was,
/// and then that the assistant speaks. What was being spoken is stopped in between.
/// With context turns the text is remembered as the assistant's.
pub proof fn refined_text_is_told_and_spoken<T>(
    w: Working<T>,
    heard: String,
    refined: String,
    stt_ms: u32,
    refine_ms: u32,
    reply_start_ms: u32,
    timestamp: String,
)
    requires
        w.generation < u64::MAX,
    ensures
        ({
            let (after, done) = worker_step(
                w,
                Event::Refined {
                    heard,
                    text: Ok(refined),
                    stt_ms,
                    refine_ms,
                    reply_start_ms,
                    timestamp,
                },
            );
            let told = Deed::<T>::Tell(
                UiEvent::Turn {
                    heard,
                    refined,
                    timing: TurnTiming {
                        endpoint_ms: w.settings.silence_ms,
                        stt_ms,
                        refine_ms,
                        reply_start_ms,
                    },
                    timestamp,
                },
            );
            let said = Said { role: Role::Assistant, content: refined@ };
            &&& done.len() == if w.speaking is Some {
                4int
            } else {
                3
            }
            &&& done[0] == told
            &&& w.speaking matches Some(g) ==> done[1] == Deed::<T>::StopSpeech(g)
            &&& done[done.len() - 2] == Deed::<T>::Tell(UiEvent::StateChanged(State::Speaking))
            &&& done[done.len() - 1] == (Deed::<T>::Speak {
                generation: (w.generation + 1) as u64,
                text: refined,
            })
            &&& after.generation == w.generation + 1
            &&& after.speaking == Some(after.generation)
            &&& after.shared.current == State::Speaking
            &&& after.shared.listening_enabled == w.shared.listening_enabled
            &&& after.settings == w.settings
            &&& after.rest == w.rest
            &&& after.recall == w.recall
            &&& after.detecting == w.detecting
            &&& after.segmenting == w.segmenting
            &&& after.memory == if w.settings.history_turns == 0 {
                w.memory
            } else {
                remember(w.memory, said)
            }
        }),
{
}

/// A reply is asked for only by a refinement, a transcription only by a frame, and a
/// request to the language model only by a transcription.
pub proof fn each_deed_has_its_event<T>(w: Working<T>, event: Event<T>)
    ensures
        ({
            let done = worker_step(w, event).1;
            forall|i: int|
                0 <= i < done.len() ==> {
                    &&& (#[trigger] done[i]) is Speak ==> event is Refined
                    &&& done[i] is Transcribe ==> event is Frame
                    &&& done[i] is Refine ==> event is Transcribed
                    &&& done[i] is StopSpeech ==> event is Refined || event is Frame || event
                        == Event::<T>::Control(ControlMsg::Stop)
                }
        }),
{
}

/// A frame does at most one thing. It stops the reply where one is being spoken,
/// speech starts on this frame, and the frame is louder than the threshold. It asks
/// for a transcription where speech was on, this frame is without it, the silence
/// has now lasted as long as is set, and speech was being collected. Any other frame,
/// however loud, does nothing.
pub proof fn frame_stops_or_asks_or_does_nothing<T>(
    w: Working<T>,
    samples: Vec<T>,
    a: Answer<T>,
    loudness: Single,
)
    ensures
        ({
            let done = worker_step(w, Event::Frame { samples, answer: Ok(a), loudness }).1;
            let t = w.settings.speech_threshold;
            let speech = !a.probability.is_nan() && !t.is_nan() && a.probability.value()
                >= t.value();
            let loud = !loudness.is_nan() && loudness.value() > (Single {
                bits: 0x3ca3_d70a,
            }).value();
            let starts = speech && !w.detecting.speech_active;
            let ends = !speech && w.detecting.speech_active && 32 * (w.detecting.silence_frames + 1)
                >= w.settings.silence_ms;
            &&& starts && loud && w.speaking is Some ==> done == seq![
                Deed::<T>::StopSpeech(w.speaking->0),
            ]
            &&& ends && w.segmenting.collecting ==> done == seq![
                Deed::<T>::Tell(UiEvent::StateChanged(State::Thinking)),
                Deed::<T>::Transcribe(w.segmenting.buffer.flatten() + samples@),
            ]
            &&& !(starts && loud && w.speaking is Some) && !(ends && w.segmenting.collecting)
                ==> done.len() == 0
        }),
{
    lemma_event_of_a_frame(w, a);
    let event = detect_step(
        w.detecting,
        is_speech(a.probability, w.settings.speech_threshold),
        silence_limit(w.settings.silence_ms as nat),
    ).1;
    utterance_comes_out_only_at_an_end(w.segmenting, samples@, event);
    let done = worker_step(w, Event::Frame { samples, answer: Ok(a), loudness }).1;
    assert((Single { bits: 0x3ca3_d70a }).magnitude() == 0x3ca3_d70a);
    if event == Some(VadEvent::End) && w.segmenting.collecting {
        let asked = seq![
            Deed::<T>::Tell(UiEvent::StateChanged(State::Thinking)),
            Deed::<T>::Transcribe(w.segmenting.buffer.flatten() + samples@),
        ];
        assert(Seq::<Deed<T>>::empty() + asked =~= asked);
        assert(done =~= asked);
    }
}

proof fn lemma_event_of_a_frame<T>(w: Working<T>, a: Answer<T>)
    ensures
        ({
            let t = w.settings.speech_threshold;
            let speech = !a.probability.is_nan() && !t.is_nan() && a.probability.value()
                >= t.value();
            let (after, event) = detect_step(
                w.detecting,
                is_speech(a.probability, t),
                silence_limit(w.settings.silence_ms as nat),
            );
            &&& event == Some(VadEvent::Start) <==> speech && !w.detecting.speech_active
            &&& event == Some(VadEvent::End) <==> !speech && w.detecting.speech_active && 32 * (
            w.detecting.silence_frames + 1) >= w.settings.silence_ms
            &&& speech ==> after == (Detecting { speech_active: true, silence_frames: 0 })
            &&& event == Some(VadEvent::End) ==> after == (Detecting {
                speech_active: false,
                silence_frames: 0,
            })
            &&& !speech && w.detecting.speech_active && event is None ==> after == (Detecting {
                speech_active: true,
                silence_frames: w.detecting.silence_frames + 1,
            })
            &&& !speech && !w.detecting.speech_active ==> after == w.detecting
        }),
{
    silence_is_long_enough_once_it_has_lasted(
        w.settings.silence_ms as nat,
        w.detecting.silence_frames + 1,
    );
    frame_turns_speech_on_or_counts_silence(
        w.detecting,
        silence_limit(w.settings.silence_ms as nat),
    );
}

/// What a frame leaves behind. Detection is on with speech, counts the silence
/// without it, and goes off once that has lasted as long as is set. A start of
/// speech is collected behind the frames kept from before it; while speech is
/// collected each frame goes behind the ones before, and the end of speech empties
/// it. The model goes on from the end of the frame and the state it gave back. The
/// state that is shown changes only where a transcription is asked for, and nothing
/// else changes at all.
pub proof fn frame_is_heard_and_kept<T>(
    w: Working<T>,
    samples: Vec<T>,
    a: Answer<T>,
    loudness: Single,
)
    requires
        samples@.len() >= 64,
        w.segmenting.preroll.len() <= w.segmenting.preroll_cap,
    ensures
        ({
            let after = worker_step(w, Event::Frame { samples, answer: Ok(a), loudness }).0;
            let t = w.settings.speech_threshold;
            let speech = !a.probability.is_nan() && !t.is_nan() && a.probability.value()
                >= t.value();
            let on = w.detecting.speech_active;
            let silent = w.detecting.silence_frames + 1;
            let starts = speech && !on;
            let ends = !speech && on && 32 * silent >= w.settings.silence_ms;
            let was = w.segmenting;
            let now = after.segmenting;
            &&& after.detecting.speech_active <==> speech || (on && !ends)
            &&& after.detecting.silence_frames == if speech || ends {
                0
            } else if on {
                silent
            } else {
                w.detecting.silence_frames
            }
            &&& now.preroll_cap == was.preroll_cap
            &&& starts ==> now.collecting && now.buffer == was.preroll + seq![samples@]
                && now.preroll.len() == 0
            &&& !starts && was.collecting && ends ==> !now.collecting && now.buffer.len() == 0
                && now.preroll == was.preroll
            &&& !starts && was.collecting && !ends ==> now.collecting && now.buffer == was.buffer
                + seq![samples@] && now.preroll == was.preroll
            &&& !starts && !was.collecting ==> !now.collecting && now.buffer == was.buffer
            &&& !starts && !was.collecting && was.preroll.len() < was.preroll_cap ==> now.preroll
                == was.preroll + seq![samples@]
            &&& !starts && !was.collecting && was.preroll.len() == was.preroll_cap
                && was.preroll_cap > 0 ==> now.preroll == was.preroll.drop_first() + seq![samples@]
            &&& !starts && !was.collecting && was.preroll_cap == 0 ==> now.preroll.len() == 0
            &&& after.recall.state == a.state@
            &&& after.recall.context == samples@.skip(samples@.len() - 64)
            &&& after.shared.current == if ends && was.collecting {
                State::Thinking
            } else {
                w.shared.current
            }
            &&& after.shared.listening_enabled == w.shared.listening_enabled
            &&& after.settings == w.settings
            &&& after.rest == w.rest
            &&& after.memory == w.memory
            &&& after.generation == w.generation
            &&& after.speaking == w.speaking
        }),
{
    lemma_event_of_a_frame(w, a);
    let event = detect_step(
        w.detecting,
        is_speech(a.probability, w.settings.speech_threshold),
        silence_limit(w.settings.silence_ms as nat),
    ).1;
    every_frame_is_kept_where_it_belongs(w.segmenting, samples@, event);
    utterance_comes_out_only_at_an_end(w.segmenting, samples@, event);
    match event {
        Some(VadEvent::Start) => {},
        Some(VadEvent::End) => {},
        None => {},
    }
}

/// A frame on which the model failed asks for nothing, and what was heard is
/// forgotten: detection is off and the model starts from rest. Nothing else changes.
pub proof fn failed_frame_is_forgotten<T>(
    w: Working<T>,
    samples: Vec<T>,
    error: String,
    loudness: Single,
)
    ensures
        ({
            let (after, done) = worker_step(
                w,
                Event::Frame { samples, answer: Err(error), loudness },
            );
            &&& done.len() == 0
            &&& !after.detecting.speech_active
            &&& after.detecting.silence_frames == 0
            &&& after.recall == recall_at_rest(w.rest)
            &&& after.segmenting == w.segmenting
            &&& after.shared == w.shared
            &&& after.settings == w.settings
            &&& after.rest == w.rest
            &&& after.memory == w.memory
            &&& after.generation == w.generation
            &&& after.speaking == w.speaking
        }),
{
}

/// Clearing forgets the conversation, whether or not a reply is being spoken: no
/// message is left, the history has the room it had, the front end is told once, and
/// nothing else changes.
pub proof fn clearing_forgets_the_conversation<T>(w: Working<T>)
    ensures
        ({
            let (after, done) = worker_step(w, Event::Control(ControlMsg::Clear));
            &&& after.memory.turns.len() == 0
            &&& after.memory.cap == w.memory.cap
            &&& done == seq![Deed::<T>::Tell(UiEvent::Cleared)]
            &&& after.shared == w.shared
            &&& after.settings == w.settings
            &&& after.rest == w.rest
            &&& after.recall == w.recall
            &&& after.detecting == w.detecting
            &&& after.segmenting == w.segmenting
            &&& after.generation == w.generation
            &&& after.speaking == w.speaking
        }),
{
}

/// After clearing, the next request holds nothing that was said before: what the
/// model is told first, and what was just heard.
pub proof fn request_after_clearing_starts_over<T>(w: Working<T>, heard: String, stt_ms: u32)
    requires
        heard@.len() > 0,
        w.memory.cap > 0,
    ensures
        ({
            let cleared = worker_step(w, Event::Control(ControlMsg::Clear)).0;
            let done = worker_step(cleared, Event::Transcribed { text: Ok(heard), stt_ms }).1;
            done == seq![
                Deed::<T>::Refine {
                    heard,
                    stt_ms,
                    messages: seq![
                        said_json(
                            Said { role: Role::System, content: w.settings.system_prompt@ },
                        ),
                        said_json(Said { role: Role::User, content: heard@ }),
                    ],
                },
            ]
        }),
{
    let cleared = worker_step(w, Event::Control(ControlMsg::Clear)).0;
    let user = Said { role: Role::User, content: heard@ };
    let system = Said { role: Role::System, content: w.settings.system_prompt@ };
    assert(last_items(cleared.memory.turns.push(user), w.memory.cap) =~= seq![user]);
    assert(messages_for(cleared, heard@) =~= seq![system, user]);
    assert(said_list(seq![system, user]) =~= seq![said_json(system), said_json(user)]);
}

/// The microphone switch flips the microphone and leaves all else alone but the
/// state that is shown: between turns that becomes the other one, and is announced.
pub proof fn switch_is_shown_between_turns<T>(w: Working<T>)
    ensures
        ({
            let (after, done) = worker_step(w, Event::Control(ControlMsg::ToggleMic));
            let between = w.shared.current == State::Listening || w.shared.current == State::Muted;
            let state = if w.shared.listening_enabled {
                State::Muted
            } else {
                State::Listening
            };
            &&& after.shared.listening_enabled == !w.shared.listening_enabled
            &&& between ==> after.shared.current == state && done == seq![
                Deed::<T>::Tell(UiEvent::StateChanged(state)),
            ]
            &&& !between ==> after.shared.current == w.shared.current && done.len() == 0
            &&& after.settings == w.settings
            &&& after.rest == w.rest
            &&& after.recall == w.recall
            &&& after.detecting == w.detecting
            &&& after.segmenting == w.segmenting
            &&& after.memory == w.memory
            &&& after.generation == w.generation
            &&& after.speaking == w.speaking
        }),
{
}

/// Changed settings hold from then on, whatever they are, and the history starts
/// over with room for two messages to each turn that is set. Nothing else changes,
/// and nobody is told.
pub proof fn changed_settings_hold_from_then_on<T>(w: Working<T>, settings: AppSettings)
    ensures
        ({
            let (after, done) = worker_step(
                w,
                Event::Control(ControlMsg::SettingsChanged(settings)),
            );
            &&& after.settings == settings
            &&& after.memory.turns.len() == 0
            &&& after.memory.cap == 2 * settings.history_turns
            &&& done.len() == 0
            &&& after.shared == w.shared
            &&& after.rest == w.rest
            &&& after.recall == w.recall
            &&& after.detecting == w.detecting
            &&& after.segmenting == w.segmenting
            &&& after.generation == w.generation
            &&& after.speaking == w.speaking
        }),
{
}

/// The end of the reply that is being spoken ends the turn: nothing is being spoken,
/// and the state between turns is shown and announced. What was heard is forgotten,
/// unless the user is speaking; then they go on being heard. Nothing else changes.
pub proof fn end_of_the_reply_ends_the_turn<T>(w: Working<T>, generation: u64)
    requires
        w.speaking == Some(generation),
    ensures
        ({
            let (after, done) = worker_step(w, Event::SpeechDone(generation));
            let state = if w.shared.listening_enabled {
                State::Listening
            } else {
                State::Muted
            };
            &&& after.speaking is None
            &&& after.shared.current == state
            &&& after.shared.listening_enabled == w.shared.listening_enabled
            &&& done == seq![Deed::<T>::Tell(UiEvent::StateChanged(state))]
            &&& w.detecting.speech_active ==> after.detecting == w.detecting && after.recall
                == w.recall
            &&& !w.detecting.speech_active ==> !after.detecting.speech_active
                && after.detecting.silence_frames == 0 && after.recall == recall_at_rest(w.rest)
            &&& after.segmenting == w.segmenting
            &&& after.settings == w.settings
            &&& after.rest == w.rest
            &&& after.memory == w.memory
            &&& after.generation == w.generation
        }),
{
}

/// What was heard is sent on, once, with how long it took and the messages for the
/// language model: what it is told first, then, without context turns, what was
/// heard, and with them every message that the history keeps once what was heard is
/// in it. Nothing is shown yet, and nothing but the history changes.
pub proof fn heard_text_is_sent_on<T>(w: Working<T>, heard: String, stt_ms: u32)
    requires
        heard@.len() > 0,
    ensures
        ({
            let (after, done) = worker_step(w, Event::Transcribed { text: Ok(heard), stt_ms });
            let user = Said { role: Role::User, content: heard@ };
            &&& done.len() == 1
            &&& done[0] is Refine
            &&& done[0]->heard == heard
            &&& done[0]->stt_ms == stt_ms
            &&& done[0]->messages[0] == said_json(
                Said { role: Role::System, content: w.settings.system_prompt@ },
            )
            &&& w.settings.history_turns == 0 ==> {
                &&& after.memory == w.memory
                &&& done[0]->messages.len() == 2
                &&& done[0]->messages[1] == said_json(user)
            }
            &&& w.settings.history_turns > 0 ==> {
                &&& after.memory == remember(w.memory, user)
                &&& done[0]->messages.len() == after.memory.turns.len() + 1
                &&& forall|i: int|
                    0 <= i < after.memory.turns.len() ==> said_json(
                        #[trigger] after.memory.turns[i],
                    ) == done[0]->messages[i + 1]
            }
            &&& after.shared == w.shared
            &&& after.settings == w.settings
            &&& after.rest == w.rest
            &&& after.recall == w.recall
            &&& after.detecting == w.detecting
            &&& after.segmenting == w.segmenting
            &&& after.generation == w.generation
            &&& after.speaking == w.speaking
        }),
{
}

/// A turn that fails leaves the settings, what is being spoken, its number and the
/// frames that are kept as they were.
pub proof fn failed_turn_leaves_the_rest_alone<T>(w: Working<T>, event: Event<T>)
    requires
        match event {
            Event::Transcribed { text, .. } => text is Err || text->Ok_0@.len() == 0,
            Event::Refined { text, .. } => text is Err,
            _ => false,
        },
    ensures
        ({
            let (after, done) = worker_step(w, event);
            let state = if w.shared.listening_enabled {
                State::Listening
            } else {
                State::Muted
            };
            &&& done == seq![Deed::<T>::Tell(UiEvent::StateChanged(state))]
            &&& after.shared.current == state
            &&& after.settings == w.settings
            &&& after.rest == w.rest
            &&& after.segmenting == w.segmenting
            &&& after.generation == w.generation
            &&& after.speaking == w.speaking
        }),
{
}

/// A conversation begins with the microphone on and listening, with nothing heard,
/// said or spoken, with room for 7 frames from before speech and for 40 messages,
/// and with the settings that it was given.
pub proof fn conversation_begins_listening<T>(rest: T, settings: AppSettings)
    ensures
        ({
            let w = begun(rest, settings);
            &&& w.shared.listening_enabled
            &&& w.shared.current == State::Listening
            &&& w.settings == settings
            &&& w.rest == rest
            &&& w.recall == recall_at_rest(rest)
            &&& !w.detecting.speech_active
            &&& w.detecting.silence_frames == 0
            &&& w.segmenting.preroll.len() == 0
            &&& w.segmenting.buffer.len() == 0
            &&& !w.segmenting.collecting
            &&& w.segmenting.preroll_cap == 7
            &&& w.memory.turns.len() == 0
            &&& w.memory.cap == 40
            &&& w.generation == 0
            &&& w.speaking is None
        }),
{
    let size = 1000 * FRAME;
    let kept = PREROLL_MS * 16_000;
    assert(kept / size == 7) by (nonlinear_arith)
        requires
            size == 512_000,
            kept == 4_000_000,
    ;
}

/// Every event can be taken, but for a frame whose answer cannot, settings whose
/// history could not be counted, and a refinement when the numbers have run out.
pub proof fn events_can_be_taken<T>(w: Working<T>, event: Event<T>)
    ensures
        match event {
            Event::Control(ControlMsg::SettingsChanged(s)) => 2 * s.history_turns <= usize::MAX
                ==> can_take(w, event),
            Event::Control(_) => can_take(w, event),
            Event::SpeechDone(_) => can_take(w, event),
            Event::Transcribed { .. } => can_take(w, event),
            Event::Frame { samples, answer, .. } => can_accept(samples@, answer) ==> can_take(
                w,
                event,
            ),
            Event::Refined { .. } => w.generation < u64::MAX ==> can_take(w, event),
        },
{
}

/// An action asks for what it holds, and a list of actions for what each holds, in
/// order.
pub proof fn actions_ask_for_what_they_hold<T>(actions: Seq<Action<T>>, i: int)
    requires
        0 <= i < actions.len(),
    ensures
        deeds(actions).len() == actions.len(),
        deeds(actions)[i] == match actions[i] {
            Action::Tell(event) => Deed::Tell(event),
            Action::StopSpeech(generation) => Deed::StopSpeech(generation),
            Action::Transcribe(samples) => Deed::Transcribe(samples@),
            Action::Refine { heard, stt_ms, messages } => Deed::Refine {
                heard,
                stt_ms,
                messages: Seq::new(messages@.len(), |k: int| json_of(messages@[k])),
            },
            Action::Speak { generation, text } => Deed::Speak { generation, text },
        },
{
    if let Action::Refine { messages, .. } = actions[i] {
        assert(json_items(messages@) =~= Seq::new(messages@.len(), |k: int| json_of(messages@[k])));
    }
}

/// What is said of a conversation is what its parts hold.
pub proof fn conversation_is_what_its_parts_hold<T>(w: Worker<T>)
    ensures
        w@.shared == w.shared,
        w@.settings == w.settings,
        w@.rest == w.vad.rest,
        w@.recall.context == w.vad.context@,
        w@.recall.state == w.vad.state@,
        w@.detecting.speech_active == w.vad.speech_active,
        w@.detecting.silence_frames == w.vad.silence_frames,
        w@.segmenting == w.segmenter@,
        w@.memory == w.history@,
        w@.generation == w.generation,
        w@.speaking == w.speaking,
{
}

} // verus!
