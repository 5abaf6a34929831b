use azva::config::FRAME;
use azva::segmenter::VadEvent;
use azva::single::Single;
use azva::vad::{silence_frame_limit, Answer, Vad, CTX, STATE};

fn single(x: f32) -> Single {
    Single { bits: x.to_bits() }
}

fn answer<T: Copy>(probability: f32, state: T) -> Result<Answer<T>, String> {
    Ok(Answer { probability: single(probability), state: vec![state; STATE] })
}

fn feed(vad: &mut Vad<f32>, probability: f32) -> Option<VadEvent> {
    vad.accept(&[0.0f32; FRAME], answer(probability, 0.0)).expect("accept")
}

#[test]
fn silence_produces_no_start() {
    let mut vad = Vad::new(0.0f32);
    let silence = vec![0.0f32; FRAME];
    // Feed 10 frames of silence — should never produce Start
    for _ in 0..10 {
        let event = vad.accept(&silence, answer(0.0, 0.0)).expect("accept");
        assert!(event != Some(VadEvent::Start), "silence should not trigger speech start");
    }
}

#[test]
fn set_thresholds_updates_fields() {
    let mut vad = Vad::new(0.0f32);
    vad.set_thresholds(1000, single(0.7));
    assert_eq!(vad.silence_ms, 1000);
    assert!((f32::from_bits(vad.speech_threshold.bits) - 0.7).abs() < 1e-6);
}

#[test]
fn speech_starts_at_the_threshold_and_ends_after_the_silence() {
    let mut vad = Vad::new(0.0f32);
    assert_eq!(feed(&mut vad, 0.499_999_97), None);
    assert_eq!(feed(&mut vad, 0.5), Some(VadEvent::Start));
    assert_eq!(feed(&mut vad, 0.9), None);
    // 21 frames are 672 ms, 22 are 704 ms
    for _ in 0..21 {
        assert_eq!(feed(&mut vad, 0.1), None);
    }
    assert_eq!(feed(&mut vad, 0.1), Some(VadEvent::End));
    assert_eq!(feed(&mut vad, 0.1), None);
    assert_eq!(feed(&mut vad, 0.6), Some(VadEvent::Start));
}

#[test]
fn speech_in_between_starts_the_count_over() {
    let mut vad = Vad::new(0.0f32);
    vad.set_thresholds(96, single(0.5));
    feed(&mut vad, 1.0);
    assert_eq!(feed(&mut vad, 0.0), None);
    assert_eq!(feed(&mut vad, 0.0), None);
    assert_eq!(feed(&mut vad, 1.0), None);
    assert_eq!(feed(&mut vad, 0.0), None);
    assert_eq!(feed(&mut vad, 0.0), None);
    assert_eq!(feed(&mut vad, 0.0), Some(VadEvent::End));
}

#[test]
fn nan_is_no_speech() {
    let mut vad = Vad::new(0.0f32);
    assert_eq!(feed(&mut vad, f32::NAN), None);
    assert_eq!(feed(&mut vad, f32::INFINITY), Some(VadEvent::Start));
}

#[test]
fn model_goes_on_from_its_last_answer() {
    let mut vad = Vad::new(0i32);
    let frame: Vec<i32> = (1..=FRAME as i32).collect();
    let first = vad.query(&frame);
    assert_eq!(first.samples.len(), 576);
    assert!(first.samples[..CTX].iter().all(|&x| x == 0));
    assert_eq!(first.samples[CTX..], frame[..]);
    assert_eq!(first.state, vec![0; 256]);
    assert_eq!(first.sample_rate, 16_000);

    vad.accept(&frame, answer(0.0, 7)).unwrap();
    let next: Vec<i32> = vec![-1; FRAME];
    let second = vad.query(&next);
    assert_eq!(second.samples[..CTX], frame[FRAME - CTX..]);
    assert_eq!(second.samples[CTX..], next[..]);
    assert_eq!(second.state, vec![7; 256]);
    assert_eq!(second.sample_rate, 16_000);

    // a call that fails leaves nothing behind
    vad.accept(&next, Err("run: broken".to_string())).unwrap_err();
    let third = vad.query(&next);
    assert_eq!(third.samples, second.samples);
    assert_eq!(third.state, second.state);

    vad.reset();
    let again = vad.query(&frame);
    assert_eq!(again.samples, first.samples);
    assert_eq!(again.state, first.state);
}

#[test]
fn failed_model_changes_nothing() {
    let mut vad = Vad::new(0i32);
    vad.accept(&[7; FRAME], answer(0.9, 3)).unwrap();
    assert_eq!(vad.accept(&[9; FRAME], Err("run: broken".to_string())), Err("run: broken".to_string()));
    assert!(vad.speech_active);
    assert_eq!(vad.context, vec![7; CTX]);
    assert_eq!(vad.state, vec![3; STATE]);
    assert_eq!(vad.accept(&[], Err("audio shape".to_string())), Err("audio shape".to_string()));
}

#[test]
fn silence_is_never_cut_short() {
    assert_eq!(silence_frame_limit(0), 0);
    assert_eq!(silence_frame_limit(1), 1);
    assert_eq!(silence_frame_limit(32), 1);
    assert_eq!(silence_frame_limit(33), 2);
    assert_eq!(silence_frame_limit(300), 10);
    assert_eq!(silence_frame_limit(700), 22);
    assert_eq!(silence_frame_limit(5000), 157);
    assert_eq!(silence_frame_limit(u32::MAX), 134_217_728);
    for ms in 300..=5000u32 {
        let frames = silence_frame_limit(ms);
        assert!(frames * 32 >= ms && (frames - 1) * 32 < ms, "{ms}");
    }
}

#[test]
fn speech_of_any_setting_ends_after_the_silence_and_not_before() {
    for ms in [300u32, 320, 700, 1000, 5000] {
        let mut vad = Vad::new(0.0f32);
        vad.set_thresholds(ms, single(0.5));
        assert_eq!(feed(&mut vad, 0.9), Some(VadEvent::Start));
        let mut silent = 0;
        loop {
            silent += 32;
            match feed(&mut vad, 0.1) {
                None => assert!(silent < ms),
                Some(event) => {
                    assert_eq!(event, VadEvent::End);
                    break;
                }
            }
        }
        assert!(silent >= ms && silent - 32 < ms);
    }
}

#[test]
fn singles_compare_as_the_numbers_they_are() {
    let numbers = [
        0.0f32, -0.0, 1.0, -1.0, 0.1, 0.9, -0.1, 1e-45, -1e-45, f32::MIN_POSITIVE, f32::MAX, f32::MIN,
        f32::INFINITY, f32::NEG_INFINITY, f32::NAN, 0.5,
    ];
    for a in numbers {
        for b in numbers {
            assert_eq!(single(a).is_below(single(b)), a < b, "{a} < {b}");
            assert_eq!(single(a).is_at_least(single(b)), a >= b, "{a} >= {b}");
        }
        let clamped = f32::from_bits(single(a).clamp(single(0.1), single(0.9)).bits);
        assert_eq!(clamped.to_bits(), a.clamp(0.1, 0.9).to_bits(), "{a}");
    }
}

#[test]
fn starts_and_ends_alternate() {
    let mut vad = Vad::new(0.0f32);
    vad.set_thresholds(64, single(0.5));
    let mut last = VadEvent::End;
    let mut noise: u32 = 1;
    let mut seen = 0;
    for _ in 0..2000 {
        noise = noise.wrapping_mul(1_664_525).wrapping_add(1_013_904_223);
        if let Some(event) = feed(&mut vad, (noise >> 16) as f32 / 65536.0) {
            assert_ne!(event, last);
            last = event;
            seen += 1;
        }
    }
    assert!(seen > 100);
}
