use azva::segmenter::{Segmenter, VadEvent};

fn frame(v: f32) -> Vec<f32> {
    vec![v; 4]
}

#[test]
fn emits_nothing_before_start() {
    let mut s = Segmenter::new(2);
    assert!(s.push(frame(0.0), None).is_none());
    assert!(s.push(frame(0.0), None).is_none());
}

#[test]
fn prepends_preroll_on_start() {
    let mut s = Segmenter::new(2);
    s.push(frame(1.0), None);
    s.push(frame(1.0), None);
    assert!(s.push(frame(2.0), Some(VadEvent::Start)).is_none());
    let utt = s.push(frame(2.0), Some(VadEvent::End)).unwrap();
    // 2 preroll + start + end = 4 frames of 4 samples = 16
    assert_eq!(utt.len(), 16);
    assert_eq!(utt[0], 1.0);
    assert_eq!(*utt.last().unwrap(), 2.0);
}

#[test]
fn resets_between_utterances() {
    let mut s = Segmenter::new(1);
    s.push(frame(1.0), Some(VadEvent::Start));
    s.push(frame(1.0), Some(VadEvent::End));
    s.push(frame(3.0), Some(VadEvent::Start));
    let utt = s.push(frame(3.0), Some(VadEvent::End)).unwrap();
    assert!(utt.iter().all(|&x| x == 3.0));
}

#[test]
fn utterance_is_the_last_quiet_frames_then_the_speech() {
    let mut s = Segmenter::new(2);
    for v in [1, 2, 3] {
        assert!(s.push(vec![v], None).is_none());
    }
    s.push(vec![4], Some(VadEvent::Start));
    s.push(vec![5, 6], None);
    assert_eq!(s.push(vec![7], Some(VadEvent::End)), Some(vec![2, 3, 4, 5, 6, 7]));
}

#[test]
fn end_without_start_is_silence() {
    let mut s = Segmenter::new(1);
    assert!(s.push(vec![1], Some(VadEvent::End)).is_none());
    s.push(vec![2], Some(VadEvent::Start));
    assert_eq!(s.push(vec![3], Some(VadEvent::End)), Some(vec![1, 2, 3]));
}

#[test]
fn no_preroll_is_kept_where_none_is_asked_for() {
    let mut s = Segmenter::new(0);
    s.push(vec![1], None);
    s.push(vec![2], Some(VadEvent::Start));
    assert_eq!(s.push(vec![3], Some(VadEvent::End)), Some(vec![2, 3]));
}

#[test]
fn second_start_drops_what_was_collected() {
    let mut s = Segmenter::new(2);
    s.push(vec![1], Some(VadEvent::Start));
    s.push(vec![2], Some(VadEvent::Start));
    assert_eq!(s.push(vec![3], Some(VadEvent::End)), Some(vec![2, 3]));
}

#[test]
fn a_quarter_of_a_second_is_kept_from_before_speech() {
    assert_eq!(azva::config::PREROLL_FRAMES, 7);
}
