use azva::events::{ControlMsg, State, UiEvent};
use azva::settings::AppSettings;
use azva::timing::TurnTiming;
use azva::ui::{context_label, heard_label, silence_label, state_color, VoiceApp};

fn turn(i: u32) -> UiEvent {
    UiEvent::Turn {
        heard: format!("heard {i}"),
        refined: format!("refined {i}"),
        timing: TurnTiming { endpoint_ms: 700, stt_ms: i, refine_ms: 0, reply_start_ms: 0 },
        timestamp: "00:00:00".to_string(),
    }
}

#[test]
fn window_shows_what_it_is_told() {
    let mut app = VoiceApp::new(AppSettings::default());
    assert_eq!(app.state, State::Listening);
    app.apply(UiEvent::StateChanged(State::Thinking));
    assert_eq!(app.state, State::Thinking);
    app.apply(turn(7));
    assert_eq!(
        app.transcript,
        vec![("heard 7".to_string(), "refined 7".to_string(), "00:00:00".to_string())]
    );
    assert_eq!(
        app.last_timing,
        Some("endpoint ~700ms \u{00B7} stt 7ms \u{00B7} refine 0ms \u{00B7} reply-start +0ms".to_string())
    );
    app.apply(UiEvent::Cleared);
    assert!(app.transcript.is_empty());
    assert_eq!(app.last_timing, None);
    assert_eq!(app.state, State::Thinking);
}

#[test]
fn transcript_holds_the_last_hundred_turns() {
    let mut app = VoiceApp::new(AppSettings::default());
    for i in 0..103 {
        app.apply(turn(i));
    }
    assert_eq!(app.transcript.len(), 100);
    assert_eq!(app.transcript[0].0, "heard 3");
    assert_eq!(app.transcript[99].0, "heard 102");
}

#[test]
fn cancelled_edit_is_gone_when_settings_open_again() {
    let mut app = VoiceApp::new(AppSettings::default());
    app.toggle_settings();
    assert!(app.show_settings);
    app.draft.silence_ms = 1234;
    app.cancel_settings();
    assert!(!app.show_settings);
    app.toggle_settings();
    assert_eq!(app.draft, AppSettings::default());
}

#[test]
fn saved_edit_is_applied_and_sent() {
    let mut app = VoiceApp::new(AppSettings::default());
    app.toggle_settings();
    app.draft.silence_ms = 1234;
    assert!(app.apply_settings(false).is_none());
    assert!(app.show_settings);
    assert_eq!(app.applied, AppSettings::default());
    match app.apply_settings(true) {
        Some(ControlMsg::SettingsChanged(s)) => assert_eq!(s.silence_ms, 1234),
        _ => panic!("nothing sent"),
    }
    assert!(!app.show_settings);
    assert_eq!(app.applied.silence_ms, 1234);
    app.toggle_settings();
    app.restore_defaults();
    assert_eq!(app.draft, AppSettings::default());
    assert_eq!(app.applied.silence_ms, 1234);
}

#[test]
fn labels_read_as_they_should() {
    assert_eq!(heard_label("01:02:03"), "heard  01:02:03");
    assert_eq!(silence_label(700), "Silence timeout: 700 ms");
    assert_eq!(context_label(0), "Context turns: off (stateless)");
    assert_eq!(context_label(1), "Context turns: 1 (last 1 turn)");
    assert_eq!(context_label(20), "Context turns: 20 (last 20 turns)");
}

#[test]
fn every_state_has_its_colour() {
    assert_eq!(state_color(State::Listening), (59, 130, 246));
    assert_eq!(state_color(State::Thinking), (168, 85, 247));
    assert_eq!(state_color(State::Speaking), (34, 197, 94));
    assert_eq!(state_color(State::Muted), (100, 100, 100));
}

#[test]
fn transcript_starts_over_when_cleared() {
    let mut app = VoiceApp::new(AppSettings::default());
    for i in 0..5 {
        app.apply(turn(i));
    }
    app.apply(UiEvent::Cleared);
    app.apply(turn(5));
    app.apply(UiEvent::StateChanged(State::Speaking));
    app.apply(turn(6));
    let heard: Vec<&str> = app.transcript.iter().map(|e| e.0.as_str()).collect();
    assert_eq!(heard, vec!["heard 5", "heard 6"]);
}
