use azva::config::{MIN_SILENCE_MS, SPEECH_THRESHOLD, SYSTEM_PROMPT};
use azva::settings::{settings_path, AppSettings};
use azva::single::Single;

fn single(x: f32) -> Single {
    Single { bits: x.to_bits() }
}

fn number(x: Single) -> f32 {
    f32::from_bits(x.bits)
}

fn settings(prompt: &str, silence_ms: u32, threshold: f32, history_turns: u32) -> AppSettings {
    AppSettings {
        system_prompt: prompt.to_string(),
        silence_ms,
        speech_threshold: single(threshold),
        history_turns,
    }
}

#[test]
fn default_matches_config_constants() {
    let s = AppSettings::default();
    assert_eq!(s.system_prompt, SYSTEM_PROMPT);
    assert_eq!(s.silence_ms, MIN_SILENCE_MS);
    assert!((number(s.speech_threshold) - f32::from_bits(SPEECH_THRESHOLD)).abs() < 1e-6);
    assert_eq!(number(s.speech_threshold), 0.5);
    assert_eq!(s.history_turns, 0);
}

#[test]
fn validate_clamps_out_of_range() {
    let s = settings("x", 99_999, 5.0, 99);
    let v = s.validate();
    assert_eq!(v.silence_ms, 5000);
    assert!((number(v.speech_threshold) - 0.9).abs() < 1e-6);
    assert_eq!(v.history_turns, 20);
}

#[test]
fn validate_leaves_valid_values_unchanged() {
    let s = settings("ok", 700, 0.5, 0);
    let v = s.clone().validate();
    assert_eq!(v, s);
}

#[test]
fn validate_raises_what_is_too_low() {
    let v = settings("", 0, -3.5, 0).validate();
    assert_eq!(v, settings("", 300, 0.1, 0));
    let v = settings("", 299, f32::NEG_INFINITY, 21).validate();
    assert_eq!(v, settings("", 300, 0.1, 20));
    let v = settings("", 5001, f32::INFINITY, 20).validate();
    assert_eq!(v, settings("", 5000, 0.9, 20));
}

#[test]
fn validate_keeps_the_bounds_and_a_threshold_that_is_no_number() {
    for s in [settings("a", 300, 0.1, 1), settings("b", 5000, 0.9, 20)] {
        assert_eq!(s.clone().validate(), s);
    }
    let v = settings("c", 700, f32::NAN, 0).validate();
    assert!(number(v.speech_threshold).is_nan());
}

#[test]
fn validating_twice_is_validating_once() {
    let once = settings("x", 99_999, 0.05, 3).validate();
    assert_eq!(once.clone().validate(), once);
}

#[test]
fn stored_settings_are_validated_and_missing_ones_are_the_defaults() {
    let stored = settings("Test prompt", 500, 0.6, 2);
    assert_eq!(AppSettings::loaded(Some(stored.clone())), stored);
    assert_eq!(AppSettings::loaded(Some(settings("p", 1, 1.0, 0))), settings("p", 300, 0.9, 0));
    assert_eq!(AppSettings::loaded(None), AppSettings::default());
}

#[test]
fn settings_live_below_the_home_directory() {
    assert_eq!(
        settings_path(Some("/home/me".to_string())),
        vec!["/home/me", ".config", "azva", "settings.json"]
    );
    assert_eq!(settings_path(None)[0], ".");
}
