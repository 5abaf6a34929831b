use azva::echo::EchoCancel;
use azva::tts::{build_tts_body, extract_wav_pcm_i16, fail_reply, next_move, push_reference, Move, Stage};
use serde_json::Value;

fn text_body(text: &str) -> Value {
    let mut fields = serde_json::Map::new();
    fields.insert("text".to_string(), Value::String(text.to_string()));
    Value::Object(fields)
}

#[test]
fn tts_body_has_text() {
    assert_eq!(build_tts_body("hi"), text_body("hi"));
}

#[test]
fn tts_body_empty_text() {
    assert_eq!(build_tts_body(""), text_body(""));
}

#[test]
fn tts_body_special_chars() {
    let body = build_tts_body("Hello, world! It's a test.");
    assert_eq!(body["text"], "Hello, world! It's a test.");
}

fn wav_with(data: &[u8]) -> Vec<u8> {
    let mut wav: Vec<u8> = Vec::new();
    // RIFF header
    wav.extend_from_slice(b"RIFF");
    wav.extend_from_slice(&48u32.to_le_bytes()); // chunk size = 36 + 12 = 48
    wav.extend_from_slice(b"WAVE");
    // fmt chunk
    wav.extend_from_slice(b"fmt ");
    wav.extend_from_slice(&16u32.to_le_bytes()); // chunk size
    wav.extend_from_slice(&1u16.to_le_bytes()); // PCM
    wav.extend_from_slice(&1u16.to_le_bytes()); // channels = 1
    wav.extend_from_slice(&16000u32.to_le_bytes()); // sample rate
    wav.extend_from_slice(&32000u32.to_le_bytes()); // byte rate
    wav.extend_from_slice(&2u16.to_le_bytes()); // block align
    wav.extend_from_slice(&16u16.to_le_bytes()); // bits per sample
    // data chunk
    wav.extend_from_slice(b"data");
    wav.extend_from_slice(&20u32.to_le_bytes()); // 20 bytes = 10 i16 samples
    wav.extend_from_slice(data);
    wav
}

#[test]
fn extract_pcm_from_wav_silence() {
    let wav = wav_with(&[0u8; 20]); // 10 silence samples

    let samples = extract_wav_pcm_i16(&wav);
    assert!(samples.is_ok(), "should parse: {:?}", samples.err());
    let s = samples.unwrap();
    assert_eq!(s.len(), 10);
    assert!(s.iter().all(|&x| x == 0));
}

#[test]
fn written_samples_are_read_back() {
    let samples: Vec<i16> = vec![0, 1, -1, 255, 256, -256, i16::MAX, i16::MIN, -12345];
    let mut data: Vec<u8> = Vec::new();
    for s in &samples {
        data.extend_from_slice(&s.to_le_bytes());
    }
    assert_eq!(extract_wav_pcm_i16(&wav_with(&data)), Ok(samples.clone()));
    // a header that ends as the tag begins
    let mut tricky: Vec<u8> = b"dadat".to_vec();
    tricky.extend_from_slice(b"data");
    tricky.extend_from_slice(&[9, 9, 9, 9]);
    tricky.extend_from_slice(&data);
    assert_eq!(extract_wav_pcm_i16(&tricky), Ok(samples));
}

#[test]
fn odd_byte_at_the_end_is_no_sample() {
    assert_eq!(extract_wav_pcm_i16(&wav_with(&[1, 2, 3])), Ok(vec![0x0201]));
    assert_eq!(extract_wav_pcm_i16(&wav_with(&[7])), Ok(vec![]));
}

#[test]
fn wav_without_data_is_an_error() {
    let missing = Err("no 'data' chunk in WAV".to_string());
    assert_eq!(extract_wav_pcm_i16(b""), missing);
    assert_eq!(extract_wav_pcm_i16(b"dat"), missing);
    assert_eq!(extract_wav_pcm_i16(b"RIFF....WAVE"), missing);
    let empty = Err("WAV data chunk is empty".to_string());
    assert_eq!(extract_wav_pcm_i16(&wav_with(&[])), empty);
    assert_eq!(extract_wav_pcm_i16(b"data"), empty);
}

#[test]
fn reply_runs_its_course() {
    let mut echo = EchoCancel::new(0i16);
    assert_eq!(next_move(Stage::Before, false, false, &mut echo), Move::Fetch);
    assert_eq!(next_move(Stage::Received, false, false, &mut echo), Move::Play);
    push_reference(&mut echo, &[5; 600]);
    assert_eq!(next_move(Stage::Playing, false, false, &mut echo), Move::Wait);
    assert_eq!(echo.next_reference(4), vec![5; 512]);
    assert_eq!(next_move(Stage::Playing, false, true, &mut echo), Move::Finish);
    // the rest of the reference is gone
    assert_eq!(echo.next_reference(4), vec![0; 4]);
}

#[test]
fn stop_ends_a_reply_at_every_stage() {
    for (stage, last) in
        [(Stage::Before, Move::Finish), (Stage::Received, Move::Finish), (Stage::Playing, Move::Cut)]
    {
        let mut echo = EchoCancel::new(0i16);
        echo.push_reference(&[1, 2, 3]);
        assert_eq!(next_move(stage, true, false, &mut echo), last);
        assert_eq!(echo.next_reference(2), vec![0, 0]);
    }
}

#[test]
fn reference_comes_out_in_order_and_drops_what_finds_no_room() {
    let mut echo = EchoCancel::new(0u32);
    for i in 1..=100u32 {
        echo.push_reference(&[i]);
    }
    for i in 1..=64u32 {
        assert_eq!(echo.next_reference(1), vec![i]);
    }
    assert_eq!(echo.next_reference(3), vec![0, 0, 0]);
}

#[test]
fn failed_reply_leaves_no_reference() {
    let mut echo = EchoCancel::new(0i16);
    push_reference(&mut echo, &[5; 2000]);
    assert_eq!(
        fail_reply("decode: no sound".to_string(), &mut echo),
        Err("decode: no sound".to_string())
    );
    assert_eq!(echo.next_reference(2), vec![0, 0]);
}
