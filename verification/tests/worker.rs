use azva::config::FRAME;
use azva::events::{ControlMsg, State, UiEvent};
use azva::settings::AppSettings;
use azva::single::Single;
use azva::vad::{Answer, STATE};
use azva::worker::{Action, Event, Worker};
use serde_json::Value;

fn single(x: f32) -> Single {
    Single { bits: x.to_bits() }
}

fn frame(sample: f32, probability: f32, loudness: f32) -> Event<f32> {
    Event::Frame {
        samples: vec![sample; FRAME],
        answer: Ok(Answer { probability: single(probability), state: vec![sample; STATE] }),
        loudness: single(loudness),
    }
}

fn refined(heard: &str, text: Result<&str, &str>) -> Event<f32> {
    Event::Refined {
        heard: heard.to_string(),
        text: text.map(|t| t.to_string()).map_err(|e| e.to_string()),
        stt_ms: 240,
        refine_ms: 180,
        reply_start_ms: 430,
        timestamp: "01:01:01".to_string(),
    }
}

fn transcribed(text: Result<&str, &str>) -> Event<f32> {
    Event::Transcribed {
        text: text.map(|t| t.to_string()).map_err(|e| e.to_string()),
        stt_ms: 240,
    }
}

fn speaking_worker() -> Worker<f32> {
    let mut w = Worker::new(0.0f32, AppSettings::default());
    w.handle(refined("hi", Ok("Hi.")));
    w
}

fn stops(actions: &[Action<f32>]) -> Vec<u64> {
    actions
        .iter()
        .filter_map(|a| match a {
            Action::StopSpeech(g) => Some(*g),
            _ => None,
        })
        .collect()
}

fn states(actions: &[Action<f32>]) -> Vec<State> {
    actions
        .iter()
        .filter_map(|a| match a {
            Action::Tell(UiEvent::StateChanged(s)) => Some(*s),
            _ => None,
        })
        .collect()
}

#[test]
fn barge_in_fires_above_threshold() {
    let mut w = speaking_worker();
    let clean_rms = 0.05f32;
    let actions = w.handle(frame(0.05, 0.9, clean_rms));
    assert_eq!(stops(&actions), vec![1]);
    assert_eq!(actions.len(), 1);
    // speech goes on being collected
    assert!(w.vad.speech_active);
}

#[test]
fn barge_in_suppressed_below_threshold() {
    let mut w = speaking_worker();
    let clean_rms = 0.005f32;
    let actions = w.handle(frame(0.005, 0.9, clean_rms));
    assert!(actions.is_empty());
    // nor at the threshold itself, nor later in the speech
    let mut w = speaking_worker();
    assert!(w.handle(frame(0.02, 0.9, 0.02)).is_empty());
    assert!(w.handle(frame(0.9, 0.9, 0.9)).is_empty());
}

#[test]
fn stale_tts_done_does_not_affect_active_generation() {
    let mut w = speaking_worker();
    w.handle(refined("again", Ok("Again.")));
    let active_gen = 2u64;
    let stale_done_gen = 1u64;
    assert_eq!(w.speaking, Some(active_gen));
    let actions = w.handle(Event::SpeechDone(stale_done_gen));
    let cleared = !actions.is_empty() || w.speaking != Some(active_gen);
    assert!(!cleared);
    assert_eq!(w.shared.current, State::Speaking);
    // the active one does end the turn
    let actions = w.handle(Event::SpeechDone(active_gen));
    assert_eq!(states(&actions), vec![State::Listening]);
    assert_eq!(actions.len(), 1);
    assert_eq!(w.speaking, None);
}

#[test]
fn stop_button_sets_active_tts_stop_flag() {
    let mut w = speaking_worker();
    assert_eq!(stops(&w.handle(Event::Control(ControlMsg::Stop))), vec![1]);
    // and does nothing with no reply to stop
    let mut quiet = Worker::new(0.0f32, AppSettings::default());
    assert!(quiet.handle(Event::Control(ControlMsg::Stop)).is_empty());
}

#[test]
fn utterance_becomes_a_spoken_reply() {
    let mut w = Worker::new(0.0f32, AppSettings::default());
    assert!(w.handle(frame(0.1, 0.0, 0.1)).is_empty());
    assert!(w.handle(frame(0.2, 0.9, 0.2)).is_empty());
    let mut actions = vec![];
    for _ in 0..22 {
        assert!(actions.is_empty());
        actions = w.handle(frame(0.3, 0.0, 0.3));
    }
    assert_eq!(states(&actions), vec![State::Thinking]);
    match &actions[1] {
        Action::Transcribe(samples) => {
            assert_eq!(samples.len(), 24 * FRAME);
            assert_eq!(samples[0], 0.1);
            assert_eq!(samples[FRAME], 0.2);
        }
        _ => panic!("not transcribed"),
    }

    let mut actions = w.handle(transcribed(Ok("um hi")));
    assert_eq!(actions.len(), 1);
    match actions.remove(0) {
        Action::Refine { heard, stt_ms, messages } => {
            assert_eq!((heard.as_str(), stt_ms), ("um hi", 240));
            assert_eq!(messages.len(), 2);
            assert_eq!(messages[0]["role"], "system");
            assert_eq!(messages[0]["content"], azva::config::SYSTEM_PROMPT);
            assert_eq!(messages[1]["role"], "user");
            assert_eq!(messages[1]["content"], "um hi");
        }
        _ => panic!("not refined"),
    }

    let actions = w.handle(refined("um hi", Ok("Hi.")));
    match &actions[0] {
        Action::Tell(UiEvent::Turn { heard, refined, timing, timestamp }) => {
            assert_eq!((heard.as_str(), refined.as_str(), timestamp.as_str()), ("um hi", "Hi.", "01:01:01"));
            assert_eq!(timing.endpoint_ms, 700);
            assert_eq!((timing.stt_ms, timing.refine_ms, timing.reply_start_ms), (240, 180, 430));
        }
        _ => panic!("no turn"),
    }
    assert_eq!(states(&actions), vec![State::Speaking]);
    match &actions[2] {
        Action::Speak { generation, text } => assert_eq!((*generation, text.as_str()), (1, "Hi.")),
        _ => panic!("not spoken"),
    }
    assert_eq!(actions.len(), 3);
    assert_eq!(states(&w.handle(Event::SpeechDone(1))), vec![State::Listening]);
}

#[test]
fn new_reply_stops_the_one_before_it() {
    let mut w = speaking_worker();
    let actions = w.handle(refined("more", Ok("More.")));
    assert!(matches!(actions[1], Action::StopSpeech(1)));
    assert!(matches!(actions[3], Action::Speak { generation: 2, .. }));
}

#[test]
fn turn_that_fails_comes_to_rest() {
    for event in [transcribed(Err("whisper full")), transcribed(Ok("")), refined("hi", Err("oMLX send"))] {
        let mut w = Worker::new(0.0f32, AppSettings::default());
        w.shared.set(State::Thinking);
        let actions = w.handle(event);
        assert_eq!(states(&actions), vec![State::Listening]);
        assert_eq!(actions.len(), 1);
        assert_eq!(w.shared.current, State::Listening);
    }
}

#[test]
fn muting_while_speaking_lasts() {
    let mut w = speaking_worker();
    assert!(w.handle(Event::Control(ControlMsg::ToggleMic)).is_empty());
    assert_eq!(w.shared.current, State::Speaking);
    assert_eq!(states(&w.handle(Event::SpeechDone(1))), vec![State::Muted]);
    assert_eq!(states(&w.handle(Event::Control(ControlMsg::ToggleMic))), vec![State::Listening]);
}

fn context_of(w: &mut Worker<f32>, text: &str) -> Vec<Value> {
    match w.handle(transcribed(Ok(text))).remove(0) {
        Action::Refine { messages, .. } => messages,
        _ => panic!("not refined"),
    }
}

#[test]
fn context_turns_are_remembered_and_bounded() {
    let mut w = Worker::new(0.0f32, AppSettings::default());
    let mut s = AppSettings::default();
    s.history_turns = 1;
    s.system_prompt = "SYS".to_string();
    assert!(w.handle(Event::Control(ControlMsg::SettingsChanged(s))).is_empty());
    context_of(&mut w, "one");
    w.handle(refined("one", Ok("One.")));
    context_of(&mut w, "two");
    w.handle(refined("two", Ok("Two.")));
    let messages = context_of(&mut w, "three");
    let contents: Vec<&str> = messages.iter().map(|m| m["content"].as_str().unwrap()).collect();
    assert_eq!(contents, vec!["SYS", "Two.", "three"]);
    let actions = w.handle(Event::Control(ControlMsg::Clear));
    assert!(matches!(actions[0], Action::Tell(UiEvent::Cleared)));
    assert_eq!(context_of(&mut w, "four").len(), 2);
}

#[test]
fn without_context_turns_nothing_is_remembered() {
    let mut w = Worker::new(0.0f32, AppSettings::default());
    context_of(&mut w, "one");
    w.handle(refined("one", Ok("One.")));
    assert_eq!(context_of(&mut w, "two").len(), 2);
    assert!(w.history.is_empty());
}

#[test]
fn changed_settings_take_effect() {
    let mut w = Worker::new(0.0f32, AppSettings::default());
    let mut s = AppSettings::default();
    s.silence_ms = 300;
    s.speech_threshold = single(0.8);
    w.handle(Event::Control(ControlMsg::SettingsChanged(s)));
    w.handle(frame(0.1, 0.7, 0.1));
    assert!(!w.vad.speech_active);
    w.handle(frame(0.1, 0.8, 0.1));
    for _ in 0..9 {
        assert!(w.handle(frame(0.0, 0.0, 0.0)).is_empty());
    }
    assert_eq!(states(&w.handle(frame(0.0, 0.0, 0.0))), vec![State::Thinking]);
}

#[test]
fn failed_model_starts_over() {
    let mut w = Worker::new(0.0f32, AppSettings::default());
    w.handle(frame(0.1, 0.9, 0.1));
    let actions = w.handle(Event::Frame {
        samples: vec![],
        answer: Err("run: broken".to_string()),
        loudness: single(0.5),
    });
    assert!(actions.is_empty());
    assert!(!w.vad.speech_active);
    assert_eq!(w.vad.state, vec![0.0; STATE]);
}

#[test]
fn front_end_always_shows_the_state() {
    let mut w = Worker::new(0.0f32, AppSettings::default());
    let mut shown = w.shared.current;
    let mut last_spoken = 0;
    let mut noise: u32 = 7;
    for _ in 0..3000 {
        noise = noise.wrapping_mul(1_664_525).wrapping_add(1_013_904_223);
        let n = noise >> 24;
        let event = match n % 8 {
            0 => Event::Control(ControlMsg::ToggleMic),
            1 => Event::Control(ControlMsg::Stop),
            2 => Event::SpeechDone(w.generation),
            3 => transcribed(if n < 128 { Ok("text") } else { Err("failed") }),
            4 => refined("text", if n < 128 { Ok("Text.") } else { Err("failed") }),
            5 => frame(0.1, 0.9, n as f32 / 256.0),
            _ => frame(0.1, 0.1, 0.1),
        };
        let speaking = w.speaking;
        for action in w.handle(event) {
            match action {
                Action::Tell(UiEvent::StateChanged(s)) => shown = s,
                Action::StopSpeech(g) => assert_eq!(speaking, Some(g)),
                Action::Speak { generation, .. } => {
                    assert_eq!(generation, last_spoken + 1);
                    last_spoken = generation;
                }
                _ => {}
            }
        }
        assert_eq!(shown, w.shared.current);
        if shown == State::Listening || shown == State::Muted {
            assert_eq!(shown, w.shared.idle_state());
        }
    }
    assert!(last_spoken > 10);
}

#[test]
fn interruption_is_heard_whole() {
    let mut w = speaking_worker();
    w.handle(frame(0.01, 0.0, 0.0));
    assert_eq!(stops(&w.handle(frame(0.1, 0.9, 0.1))), vec![1]);
    assert!(w.handle(frame(0.2, 0.9, 0.2)).is_empty());
    // the interrupted reply comes to its end in the middle of the speech
    let actions = w.handle(Event::SpeechDone(1));
    assert_eq!(states(&actions), vec![State::Listening]);
    assert_eq!(actions.len(), 1);
    assert_eq!(w.speaking, None);
    assert!(w.vad.speech_active);
    assert!(w.handle(frame(0.3, 0.9, 0.3)).is_empty());
    let mut actions = vec![];
    for _ in 0..22 {
        assert!(actions.is_empty());
        actions = w.handle(frame(0.0, 0.0, 0.0));
    }
    match &actions[1] {
        Action::Transcribe(samples) => {
            let firsts: Vec<f32> = samples.iter().step_by(FRAME).copied().collect();
            assert_eq!(firsts[..4], [0.01, 0.1, 0.2, 0.3]);
            assert_eq!(firsts.len(), 4 + 22);
        }
        _ => panic!("not transcribed"),
    }
}

#[test]
fn history_has_room_for_forty_messages_until_settings_change() {
    let mut s = AppSettings::default();
    s.history_turns = 1;
    let mut w = Worker::new(0.0f32, s);
    for (heard, reply) in [("one", "One."), ("two", "Two.")] {
        context_of(&mut w, heard);
        w.handle(refined(heard, Ok(reply)));
    }
    let messages = context_of(&mut w, "three");
    let contents: Vec<&str> = messages.iter().skip(1).map(|m| m["content"].as_str().unwrap()).collect();
    assert_eq!(contents, vec!["one", "One.", "two", "Two.", "three"]);
    for _ in 0..30 {
        context_of(&mut w, "more");
        w.handle(refined("more", Ok("More.")));
    }
    assert_eq!(context_of(&mut w, "last").len(), 41);
}

#[test]
fn failed_refinement_leaves_what_was_heard() {
    let mut s = AppSettings::default();
    s.history_turns = 2;
    let mut w = Worker::new(0.0f32, s);
    context_of(&mut w, "one");
    w.handle(refined("one", Err("oMLX send")));
    let messages = context_of(&mut w, "two");
    let roles: Vec<&str> = messages.iter().map(|m| m["role"].as_str().unwrap()).collect();
    assert_eq!(roles, vec!["system", "user", "user"]);
}
