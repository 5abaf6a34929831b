use azva::audio::{downmix, take_input, Framer};
use azva::config::FRAME;
use azva::echo::EchoCancel;
use azva::stt::transcript;

#[test]
fn first_channel_is_kept() {
    assert_eq!(downmix(&[1, 2, 3, 4, 5, 6], 2), vec![1, 3, 5]);
    assert_eq!(downmix(&[1, 2, 3, 4, 5, 6, 7], 3), vec![1, 4, 7]);
    assert_eq!(downmix(&[1, 2, 3], 1), vec![1, 2, 3]);
    assert_eq!(downmix(&[1, 2, 3], 0), vec![1, 2, 3]);
    assert_eq!(downmix(&[1, 2], 5), vec![1]);
    let nothing: Vec<i32> = vec![];
    assert_eq!(downmix(&nothing, 2), nothing);
}

#[test]
fn nothing_is_taken_while_listening_is_off() {
    assert_eq!(take_input(false, &[1, 2], 2), None);
    assert_eq!(take_input(true, &[1, 2], 2), Some(vec![1]));
}

#[test]
fn frames_are_full_and_nothing_is_lost() {
    let samples: Vec<u32> = (0..2000).collect();
    let mut framer = Framer::new();
    let mut out: Vec<u32> = vec![];
    for piece in samples.chunks(37) {
        for frame in framer.push(piece) {
            assert_eq!(frame.len(), FRAME);
            out.extend(frame);
        }
    }
    assert_eq!(out.len(), 3 * FRAME);
    assert_eq!(framer.pending.len(), 2000 - 3 * FRAME);
    out.extend(framer.pending.iter());
    assert_eq!(out, samples);
}

#[test]
fn framing_ignores_how_samples_arrive() {
    let samples: Vec<u32> = (0..1500).collect();
    let mut at_once = Framer::new();
    let whole = at_once.push(&samples);
    let mut in_two = Framer::new();
    let mut parts = in_two.push(&samples[..700]);
    parts.extend(in_two.push(&samples[700..]));
    assert_eq!(parts, whole);
    assert_eq!(in_two.pending, at_once.pending);
}

#[test]
fn reference_is_cut_into_frames() {
    let mut echo = EchoCancel::new(0u8);
    echo.push_reference_samples(&[1, 2, 3, 4, 5], 2);
    assert_eq!(echo.next_reference(2), vec![1, 2]);
    assert_eq!(echo.next_reference(2), vec![3, 4]);
    assert_eq!(echo.next_reference(2), vec![5]);
    assert_eq!(echo.next_reference(2), vec![0, 0]);
}

#[test]
fn transcript_joins_the_readable_segments() {
    let segments = vec![
        Ok(" Hello".to_string()),
        Err("utf-8".to_string()),
        Ok(" world. ".to_string()),
        Ok("\u{3000}\n".to_string()),
    ];
    assert_eq!(transcript(&segments), "Hello world.");
    assert_eq!(transcript(&vec![]), "");
    assert_eq!(transcript(&vec![Ok(" \t".to_string())]), "");
}

#[test]
fn trimming_a_transcript_again_changes_nothing() {
    let once = transcript(&vec![Ok("\u{2003} a b \u{85}".to_string())]);
    assert_eq!(once, "a b");
    assert_eq!(transcript(&vec![Ok(once.clone())]), once);
}
