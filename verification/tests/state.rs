use azva::events::{Emission, State, UiEvent};
use azva::state::SharedState;
use azva::timing::TurnTiming;

#[test]
fn toggle_mic_when_idle_repaints_muted_then_listening() {
    let mut s = SharedState::new();
    assert_eq!(s.current(), State::Listening);
    assert_eq!(s.toggle_mic(), Some(State::Muted));
    assert_eq!(s.listening_enabled, false);
    assert_eq!(s.toggle_mic(), Some(State::Listening));
    assert_eq!(s.listening_enabled, true);
}

#[test]
fn toggle_mic_mid_turn_does_not_repaint() {
    let mut s = SharedState::new();
    s.set(State::Speaking);
    assert_eq!(s.toggle_mic(), None);
    assert_eq!(s.listening_enabled, false);
}

#[test]
fn idle_state_reflects_mic() {
    let mut s = SharedState::new();
    s.toggle_mic(); // disable
    assert_eq!(s.idle_state(), State::Muted);
    s.toggle_mic(); // re-enable
    assert_eq!(s.idle_state(), State::Listening);
}

#[test]
fn toggling_twice_restores_the_machine() {
    for state in [State::Listening, State::Thinking, State::Speaking] {
        let mut s = SharedState::default();
        s.set(state);
        let before = s;
        s.toggle_mic();
        assert_ne!(s, before);
        s.toggle_mic();
        assert_eq!(s, before);
    }
}

#[test]
fn labels_are_lower_case_words() {
    assert_eq!(State::Listening.label(), "listening");
    assert_eq!(State::Thinking.label(), "thinking");
    assert_eq!(State::Speaking.label(), "speaking");
    assert_eq!(State::Muted.label(), "muted");
}

#[test]
fn events_become_messages_to_the_window() {
    let state = UiEvent::StateChanged(State::Thinking).emission();
    assert_eq!(state.name(), "state");
    match state {
        Emission::State(p) => assert_eq!(p.value, "thinking"),
        _ => panic!("not a state"),
    }
    let turn = UiEvent::Turn {
        heard: "um hi".to_string(),
        refined: "Hi.".to_string(),
        timing: TurnTiming { endpoint_ms: 700, stt_ms: 240, refine_ms: 180, reply_start_ms: 430 },
        timestamp: "01:01:01".to_string(),
    }
    .emission();
    assert_eq!(turn.name(), "turn");
    match turn {
        Emission::Turn(p) => {
            assert_eq!(p.heard, "um hi");
            assert_eq!(p.refined, "Hi.");
            assert_eq!(p.timestamp, "01:01:01");
            assert_eq!((p.endpoint_ms, p.stt_ms, p.refine_ms, p.reply_start_ms), (700, 240, 180, 430));
        }
        _ => panic!("not a turn"),
    }
    assert_eq!(UiEvent::Cleared.emission().name(), "clear");
}
