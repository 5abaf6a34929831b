//! Speech synthesis: the request, the samples in its answer, and the course of
//! one spoken reply.

use crate::config::FRAME;
use crate::echo::{offered_all, pieces, EchoCancel};
use crate::json::{json_fields, json_of, object_value, text_value, Json};
use vstd::prelude::*;

verus! {

/// The body of a request to speak a text.
pub fn build_tts_body(text: &str) -> (body: serde_json::Value)
    ensures
        json_of(body) == Json::Object(map!["text"@ => Json::Text(text@)]),
{
    let mut pairs: Vec<(String, serde_json::Value)> = Vec::new();
    pairs.push(("text".to_owned(), text_value(text)));
    assert(json_fields(pairs@.drop_last()) == Map::<Seq<char>, Json>::empty());
    object_value(pairs)
}

/// The name of the chunk that holds the samples: "data".
pub open spec fn data_tag() -> Seq<u8> {
    seq![0x64u8, 0x61u8, 0x74u8, 0x61u8]
}

/// The four bytes at `at` are the name of the chunk with the samples.
pub open spec fn tag_at(wav: Seq<u8>, at: int) -> bool {
    0 <= at && at + 4 <= wav.len() && wav.subrange(at, at + 4) == data_tag()
}

/// The first such place at `from` or later.
pub open spec fn tag_from(wav: Seq<u8>, from: nat) -> Option<nat>
    decreases wav.len() - from,
{
    if from + 4 > wav.len() {
        None
    } else if tag_at(wav, from as int) {
        Some(from)
    } else {
        tag_from(wav, from + 1)
    }
}

/// The sample that two bytes hold, the low byte first.
pub open spec fn sample_of(low: u8, high: u8) -> i16 {
    if high < 0x80 {
        (low + 0x100 * high) as i16
    } else {
        (low + 0x100 * high - 0x1_0000) as i16
    }
}

/// The samples that some bytes hold; a last odd byte holds none.
pub open spec fn samples_of(bytes: Seq<u8>) -> Seq<i16> {
    Seq::new(bytes.len() / 2, |i: int| sample_of(bytes[2 * i], bytes[2 * i + 1]))
}

/// The samples in a WAV file: what follows the name of the chunk and its size.
pub open spec fn wav_samples(wav: Seq<u8>) -> Result<Seq<i16>, Seq<char>> {
    match tag_from(wav, 0) {
        None => Err("no 'data' chunk in WAV"@),
        Some(at) => if at + 8 >= wav.len() {
            Err("WAV data chunk is empty"@)
        } else {
            Ok(samples_of(wav.skip((at + 8) as int)))
        },
    }
}

fn find_tag(wav: &[u8]) -> (at: Option<usize>)
    ensures
        match at {
            Some(a) => tag_from(wav@, 0) == Some(a as nat) && a + 4 <= wav@.len(),
            None => tag_from(wav@, 0) is None,
        },
{
    if wav.len() < 4 {
        return None;
    }
    let mut at: usize = 0;
    while at <= wav.len() - 4
        invariant
            4 <= wav@.len(),
            at <= wav@.len() - 3,
            tag_from(wav@, 0) == tag_from(wav@, at as nat),
        decreases wav@.len() - at,
    {
        let found = wav[at] == 0x64 && wav[at + 1] == 0x61 && wav[at + 2] == 0x74 && wav[at + 3]
            == 0x61;
        proof {
            let four = wav@.subrange(at as int, at + 4);
            if found {
                assert(four =~= data_tag());
            } else if four == data_tag() {
                assert(four[0] == wav@[at as int] && four[1] == wav@[at + 1] && four[2] == wav@[at
                    + 2] && four[3] == wav@[at + 3]);
            }
        }
        if found {
            return Some(at);
        }
        at += 1;
    }
    None
}

fn sample(low: u8, high: u8) -> (s: i16)
    ensures
        s == sample_of(low, high),
{
    let both: i32 = low as i32 + 0x100 * high as i32;
    if high < 0x80 {
        both as i16
    } else {
        (both - 0x1_0000) as i16
    }
}

/// Reads the 16-bit samples of a WAV file.
pub fn extract_wav_pcm_i16(wav: &[u8]) -> (samples: Result<Vec<i16>, String>)
    ensures
        match samples {
            Ok(s) => wav_samples(wav@) == Ok::<Seq<i16>, Seq<char>>(s@),
            Err(e) => wav_samples(wav@) == Err::<Seq<i16>, Seq<char>>(e@),
        },
{
    let at: usize = match find_tag(wav) {
        Some(at) => at,
        None => { return Err("no 'data' chunk in WAV".to_owned()); },
    };
    if wav.len() - at <= 8 {
        return Err("WAV data chunk is empty".to_owned());
    }
    let start: usize = at + 8;
    let ghost bytes = wav@.skip(start as int);
    let mut samples: Vec<i16> = Vec::new();
    let mut i: usize = start;
    while wav.len() - i >= 2
        invariant
            start <= i <= wav@.len(),
            bytes == wav@.skip(start as int),
            i == start + 2 * samples@.len(),
            forall|k: int|
                0 <= k < samples@.len() ==> #[trigger] samples@[k] == sample_of(
                    bytes[2 * k],
                    bytes[2 * k + 1],
                ),
        decreases wav@.len() - i,
    {
        samples.push(sample(wav[i], wav[i + 1]));
        i += 2;
    }
    assert(samples@ =~= samples_of(bytes));
    Ok(samples)
}

/// The low byte of a sample.
pub open spec fn low_byte(s: i16) -> u8 {
    (s as int % 0x100) as u8
}

/// The high byte of a sample.
pub open spec fn high_byte(s: i16) -> u8 {
    ((s as int / 0x100) % 0x100) as u8
}

/// The bytes of some samples, two each, the low byte first.
pub open spec fn sample_bytes(samples: Seq<i16>) -> Seq<u8> {
    Seq::new(
        2 * samples.len(),
        |i: int|
            if i % 2 == 0 {
                low_byte(samples[i / 2])
            } else {
                high_byte(samples[i / 2])
            },
    )
}

/// Whatever header is in front, so long as it does not hold the name of the
/// chunk itself, the samples that were written are the samples that are read.
pub proof fn written_samples_are_read_back(header: Seq<u8>, size: Seq<u8>, samples: Seq<i16>)
    requires
        tag_from(header, 0) is None,
        size.len() == 4,
        samples.len() > 0,
    ensures
        wav_samples(header + data_tag() + size + sample_bytes(samples)) == Ok::<
            Seq<i16>,
            Seq<char>,
        >(samples),
{
    let bytes = sample_bytes(samples);
    let wav = header + data_tag() + size + bytes;
    let at = header.len();
    assert(wav.subrange(at as int, (at + 4) as int) =~= data_tag());
    assert forall|p: int| 0 <= p < at implies !tag_at(wav, p) by {
        if tag_at(wav, p) {
            let four = wav.subrange(p, p + 4);
            assert(four[0] == wav[p] && four[1] == wav[p + 1] && four[2] == wav[p + 2] && four[3]
                == wav[p + 3]);
            if p + 4 <= at {
                assert(header.subrange(p, p + 4) =~= four);
                lemma_no_tag(header, 0, p);
            }
        }
    }
    lemma_first_tag(wav, 0, at);
    assert(wav.skip((at + 8) as int) =~= bytes);
    assert forall|i: int| 0 <= i < samples.len() implies #[trigger] samples_of(bytes)[i]
        == samples[i] by {
        let s = samples[i] as int;
        assert(bytes[2 * i] == low_byte(samples[i]));
        assert(bytes[2 * i + 1] == high_byte(samples[i]));
        assert(s == 0x100 * (s / 0x100) + s % 0x100);
    }
    assert(samples_of(bytes) =~= samples);
}

proof fn lemma_no_tag(wav: Seq<u8>, from: nat, at: int)
    requires
        tag_from(wav, from) is None,
        from <= at,
    ensures
        !tag_at(wav, at),
    decreases wav.len() - from,
{
    if from + 4 <= wav.len() && from < at {
        lemma_no_tag(wav, from + 1, at);
    }
}

proof fn lemma_first_tag(wav: Seq<u8>, from: nat, at: nat)
    requires
        from <= at,
        tag_at(wav, at as int),
        forall|p: int| from <= p < at ==> !tag_at(wav, p),
    ensures
        tag_from(wav, from) == Some(at),
    decreases at - from,
{
    if from < at {
        assert(!tag_at(wav, from as int));
        lemma_first_tag(wav, from + 1, at);
    }
}

/// How far a spoken reply is.
#[derive(Clone, Copy, PartialEq, Eq, Structural, Debug)]
pub enum Stage {
    /// Nothing was asked of the speech service yet.
    Before,
    /// Its answer is there.
    Received,
    /// The answer is being played.
    Playing,
}

/// What to do next about a spoken reply.
#[derive(Clone, Copy, PartialEq, Eq, Structural, Debug)]
pub enum Move {
    /// Ask the speech service.
    Fetch,
    /// Play its answer.
    Play,
    /// Look again after a moment.
    Wait,
    /// Cut the player off, and be done.
    Cut,
    /// Be done.
    Finish,
}

/// How long a moment is, in milliseconds.
pub const POLL_MS: u64 = 50;

/// What comes next, at each stage, with the stop flag as it is and, while
/// playing, with all of it played or not.
pub open spec fn move_after(stage: Stage, stop: bool, played: bool) -> Move {
    match stage {
        Stage::Before => if stop {
            Move::Finish
        } else {
            Move::Fetch
        },
        Stage::Received => if stop {
            Move::Finish
        } else {
            Move::Play
        },
        Stage::Playing => if stop {
            Move::Cut
        } else if played {
            Move::Finish
        } else {
            Move::Wait
        },
    }
}

/// That was the last move of a reply.
pub open spec fn is_last(m: Move) -> bool {
    m == Move::Cut || m == Move::Finish
}

/// Decides what comes next. With the last move of a reply the reference for
/// echo cancellation is forgotten.
pub fn next_move<T: Copy>(
    stage: Stage,
    stop: bool,
    played: bool,
    echo: &mut EchoCancel<T>,
) -> (next: Move)
    requires
        old(echo).wf(),
    ensures
        next == move_after(stage, stop, played),
        final(echo).wf(),
        final(echo).rest() == old(echo).rest(),
        final(echo)@ == if is_last(next) {
            Seq::<Seq<T>>::empty()
        } else {
            old(echo)@
        },
{
    let next = match stage {
        Stage::Before => if stop {
            Move::Finish
        } else {
            Move::Fetch
        },
        Stage::Received => if stop {
            Move::Finish
        } else {
            Move::Play
        },
        Stage::Playing => if stop {
            Move::Cut
        } else if played {
            Move::Finish
        } else {
            Move::Wait
        },
    };
    match next {
        Move::Cut | Move::Finish => echo.reset(),
        _ => {},
    }
    next
}

/// Ends a reply on which the request, the decoding or the player failed: the
/// error is handed on, and the reference for echo cancellation is forgotten.
pub fn fail_reply<T: Copy>(error: String, echo: &mut EchoCancel<T>) -> (outcome: Result<(), String>)
    requires
        old(echo).wf(),
    ensures
        outcome == Err::<(), String>(error),
        final(echo).wf(),
        final(echo).rest() == old(echo).rest(),
        final(echo)@ == Seq::<Seq<T>>::empty(),
{
    echo.reset();
    Err(error)
}

/// Tells echo cancellation what is going to be played, frame by frame.
pub fn push_reference<T: Copy>(echo: &mut EchoCancel<T>, samples: &[T])
    requires
        old(echo).wf(),
    ensures
        final(echo).wf(),
        final(echo).rest() == old(echo).rest(),
        final(echo)@ == offered_all(old(echo)@, pieces(samples@, FRAME as nat)),
{
    echo.push_reference_samples(samples, FRAME);
}

/// A raised stop flag ends a reply at whatever stage it is found, and what was
/// not yet playing never plays; with the flag down a reply ends only when all
/// of it was played.
pub proof fn stop_ends_a_reply_at_every_stage(stage: Stage, played: bool)
    ensures
        is_last(move_after(stage, true, played)),
        move_after(stage, true, played) == Move::Cut <==> stage == Stage::Playing,
        is_last(move_after(stage, false, played)) <==> stage == Stage::Playing && played,
{
}

/// A WAV file is read from the first place at which it says "data": past the name
/// and four bytes more, every two bytes are a sample, the low byte first and in two's
/// complement; a last odd byte is none. Where nothing follows, that is the error.
pub proof fn samples_follow_the_first_data_tag(wav: Seq<u8>, at: int)
    requires
        0 <= at,
        at + 4 <= wav.len(),
        wav[at] == 0x64 && wav[at + 1] == 0x61 && wav[at + 2] == 0x74 && wav[at + 3] == 0x61,
        forall|p: int|
            0 <= p < at ==> !((#[trigger] wav[p]) == 0x64 && wav[p + 1] == 0x61 && wav[p + 2] == 0x74
                && wav[p + 3] == 0x61),
    ensures
        at + 8 >= wav.len() ==> wav_samples(wav) == Err::<Seq<i16>, Seq<char>>(
            "WAV data chunk is empty"@,
        ),
        at + 8 < wav.len() ==> {
            &&& wav_samples(wav) is Ok
            &&& wav_samples(wav)->Ok_0.len() == (wav.len() - at - 8) / 2
            &&& forall|i: int|
                0 <= i < wav_samples(wav)->Ok_0.len() ==> {
                    let sample = #[trigger] wav_samples(wav)->Ok_0[i];
                    let bytes = wav[at + 8 + 2 * i] + 0x100 * wav[at + 9 + 2 * i];
                    sample == if bytes < 0x8000 {
                        bytes
                    } else {
                        bytes - 0x1_0000
                    }
                }
        },
{
    assert(wav.subrange(at, at + 4) =~= data_tag());
    assert forall|p: int| 0 <= p < at implies !tag_at(wav, p) by {
        if tag_at(wav, p) {
            let four = wav.subrange(p, p + 4);
            assert(four[0] == wav[p] && four[1] == wav[p + 1] && four[2] == wav[p + 2] && four[3]
                == wav[p + 3]);
        }
    }
    lemma_first_tag(wav, 0, at as nat);
}

/// A file that nowhere says "data" has no samples, and that is the error.
pub proof fn no_samples_without_a_data_tag(wav: Seq<u8>)
    requires
        forall|p: int|
            0 <= p && p + 4 <= wav.len() ==> !((#[trigger] wav[p]) == 0x64 && wav[p + 1] == 0x61
                && wav[p + 2] == 0x74 && wav[p + 3] == 0x61),
    ensures
        wav_samples(wav) == Err::<Seq<i16>, Seq<char>>("no 'data' chunk in WAV"@),
{
    if let Some(at) = tag_from(wav, 0) {
        lemma_found_tag(wav, 0);
        let p = at as int;
        let four = wav.subrange(p, p + 4);
        assert(four[0] == wav[p] && four[1] == wav[p + 1] && four[2] == wav[p + 2] && four[3]
            == wav[p + 3]);
    }
}

proof fn lemma_found_tag(wav: Seq<u8>, from: nat)
    ensures
        tag_from(wav, from) matches Some(at) ==> tag_at(wav, at as int),
    decreases wav.len() - from,
{
    if from + 4 <= wav.len() && !tag_at(wav, from as int) {
        lemma_found_tag(wav, from + 1);
    }
}

/// A reply goes its way with the flag down: it is fetched, then played, then waited
/// for, 50 milliseconds at a time, until all of it was played. With the flag up it goes no further: what is
/// playing is cut off, and anything else is over.
pub proof fn reply_goes_its_way_until_stopped(stage: Stage, played: bool)
    ensures
        move_after(Stage::Before, false, played) == Move::Fetch,
        move_after(Stage::Received, false, played) == Move::Play,
        move_after(Stage::Playing, false, false) == Move::Wait && POLL_MS == 50,
        move_after(Stage::Playing, false, true) == Move::Finish,
        move_after(Stage::Playing, true, played) == Move::Cut,
        stage != Stage::Playing ==> move_after(stage, true, played) == Move::Finish,
        is_last(Move::Cut) && is_last(Move::Finish),
        !is_last(Move::Fetch) && !is_last(Move::Play) && !is_last(Move::Wait),
{
}

} // verus!
