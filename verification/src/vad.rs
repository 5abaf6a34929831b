//! Voice detection: from the speech probability of each frame to the starts
//! and ends of speech.

use crate::config::{FRAME, FRAME_MS, MIN_SILENCE_MS, SAMPLE_RATE, SPEECH_THRESHOLD};
use crate::segmenter::VadEvent;
use crate::single::Single;
use vstd::prelude::*;

verus! {

/// Samples of the previous frame that the model needs in front of each frame.
pub const CTX: usize = 64;

/// Numbers that the model hands from each call to the next.
pub const STATE: usize = 256;

/// The frames that make up a silence of some milliseconds: as many as it takes
/// to last that long.
pub open spec fn silence_limit(ms: nat) -> nat {
    ((ms + FRAME_MS - 1) / FRAME_MS as int) as nat
}

/// Where voice detection stands: whether speech is on, and how many frames
/// without speech have followed the last one with it.
#[verifier::ext_equal]
pub struct Detecting {
    pub speech_active: bool,
    pub silence_frames: nat,
}

/// What one frame does, with `limit` frames of silence ending speech.
pub open spec fn detect_step(d: Detecting, speech: bool, limit: nat) -> (
    Detecting,
    Option<VadEvent>,
) {
    if speech {
        (
            Detecting { speech_active: true, silence_frames: 0 },
            if d.speech_active {
                None
            } else {
                Some(VadEvent::Start)
            },
        )
    } else if d.speech_active && d.silence_frames + 1 >= limit {
        (Detecting { speech_active: false, silence_frames: 0 }, Some(VadEvent::End))
    } else if d.speech_active {
        (Detecting { silence_frames: d.silence_frames + 1, ..d }, None)
    } else {
        (d, None)
    }
}

/// Where voice detection stands after some frames.
pub open spec fn detect_run(d: Detecting, speech: Seq<bool>, limit: nat) -> Detecting
    decreases speech.len(),
{
    if speech.len() == 0 {
        d
    } else {
        detect_step(detect_run(d, speech.drop_last(), limit), speech.last(), limit).0
    }
}

/// Whether a probability counts as speech; a NaN does not.
pub open spec fn is_speech(probability: Single, threshold: Single) -> bool {
    !probability.is_nan() && !threshold.is_nan() && probability.value() >= threshold.value()
}

/// What the model goes on from: the last samples of the last frame it was run on,
/// and the state that it then gave back.
#[verifier::ext_equal]
pub struct Recall<T> {
    pub context: Seq<T>,
    pub state: Seq<T>,
}

/// What the model goes on from before the first frame: nothing but rest.
pub open spec fn recall_at_rest<T>(rest: T) -> Recall<T> {
    Recall {
        context: Seq::new(CTX as nat, |i: int| rest),
        state: Seq::new(STATE as nat, |i: int| rest),
    }
}

/// What the model is run on.
#[verifier::ext_equal]
pub struct Asked<T> {
    pub samples: Seq<T>,
    pub state: Seq<T>,
    pub sample_rate: nat,
}

/// What the model is run on for a frame: the samples before it and the frame, its
/// own last state, and the sample rate.
pub open spec fn asked_for<T>(recall: Recall<T>, frame: Seq<T>) -> Asked<T> {
    Asked {
        samples: recall.context + frame,
        state: recall.state,
        sample_rate: SAMPLE_RATE as nat,
    }
}

/// What the model is to be run on.
pub struct Query<T> {
    pub samples: Vec<T>,
    pub state: Vec<T>,
    pub sample_rate: u32,
}

impl<T> View for Query<T> {
    type V = Asked<T>;

    open spec fn view(&self) -> Asked<T> {
        Asked {
            samples: self.samples@,
            state: self.state@,
            sample_rate: self.sample_rate as nat,
        }
    }
}

/// What the model gave back.
pub struct Answer<T> {
    /// How probable speech is.
    pub probability: Single,
    /// Its state for the next call.
    pub state: Vec<T>,
}

/// What the model goes on from after a frame: where it failed, the same as before.
pub open spec fn recalled<T>(
    recall: Recall<T>,
    frame: Seq<T>,
    answer: Result<Answer<T>, String>,
) -> Recall<T> {
    match answer {
        Ok(a) => Recall { context: frame.skip(frame.len() - CTX), state: a.state@ },
        Err(_) => recall,
    }
}

/// What the model goes on from after some frames.
pub open spec fn recall_run<T>(
    recall: Recall<T>,
    calls: Seq<(Seq<T>, Result<Answer<T>, String>)>,
) -> Recall<T>
    decreases calls.len(),
{
    if calls.len() == 0 {
        recall
    } else {
        recalled(recall_run(recall, calls.drop_last()), calls.last().0, calls.last().1)
    }
}

/// The last call on which the model did not fail.
pub open spec fn last_answered<T>(calls: Seq<(Seq<T>, Result<Answer<T>, String>)>) -> Option<int>
    decreases calls.len(),
{
    if calls.len() == 0 {
        None
    } else if calls.last().1 is Ok {
        Some(calls.len() - 1)
    } else {
        last_answered(calls.drop_last())
    }
}

/// An answer that can be taken: the frame is long enough to leave a context, and
/// the state has its size.
pub open spec fn can_accept<T>(frame: Seq<T>, answer: Result<Answer<T>, String>) -> bool {
    answer matches Ok(a) ==> frame.len() >= CTX && a.state@.len() == STATE
}

/// Voice detection over frames of samples of type `T`.
pub struct Vad<T> {
    /// The last samples of the previous frame.
    pub context: Vec<T>,
    /// The state that the model gave back for it.
    pub state: Vec<T>,
    /// The sample that stands for no sound.
    pub rest: T,
    /// Frames without speech since the last one with it.
    pub silence_frames: u32,
    pub speech_active: bool,
    /// Silence that ends speech, in milliseconds.
    pub silence_ms: u32,
    /// Speech probability from which a frame counts as speech.
    pub speech_threshold: Single,
}

impl<T: Copy> Vad<T> {
    pub open spec fn wf(self) -> bool {
        &&& self.context@.len() == CTX
        &&& self.state@.len() == STATE
        &&& self.silence_frames < 0x8000_0000
        &&& !self.speech_active ==> self.silence_frames == 0
    }

    pub open spec fn detecting(self) -> Detecting {
        Detecting {
            speech_active: self.speech_active,
            silence_frames: self.silence_frames as nat,
        }
    }

    pub open spec fn recall(self) -> Recall<T> {
        Recall { context: self.context@, state: self.state@ }
    }

    /// A detector that has heard nothing, with the default thresholds.
    pub fn new(rest: T) -> (vad: Self)
        ensures
            vad.wf(),
            vad.rest == rest,
            vad.recall() == recall_at_rest(rest),
            vad.detecting() == (Detecting { speech_active: false, silence_frames: 0 }),
            vad.silence_ms == MIN_SILENCE_MS,
            vad.speech_threshold == (Single { bits: SPEECH_THRESHOLD }),
    {
        Vad {
            context: filled(rest, CTX),
            state: filled(rest, STATE),
            rest,
            silence_frames: 0,
            speech_active: false,
            silence_ms: MIN_SILENCE_MS,
            speech_threshold: Single { bits: SPEECH_THRESHOLD },
        }
    }

    /// What the model is to be run on for a frame.
    pub fn query(&self, frame: &[T]) -> (query: Query<T>)
        ensures
            query@ == asked_for(self.recall(), frame@),
    {
        let mut samples: Vec<T> = Vec::new();
        copy_into(&mut samples, self.context.as_slice(), 0);
        copy_into(&mut samples, frame, 0);
        let mut state: Vec<T> = Vec::new();
        copy_into(&mut state, self.state.as_slice(), 0);
        let query = Query { samples, state, sample_rate: SAMPLE_RATE };
        assert(query@ =~= asked_for(self.recall(), frame@));
        query
    }

    /// Takes one frame and what the model gave back for it. Says when speech
    /// starts, and when it ends after enough silence. Where the model failed, its
    /// error is handed on and nothing changes.
    pub fn accept(&mut self, frame: &[T], answer: Result<Answer<T>, String>) -> (event: Result<
        Option<VadEvent>,
        String,
    >)
        requires
            old(self).wf(),
            can_accept(frame@, answer),
        ensures
            final(self).wf(),
            final(self).rest == old(self).rest,
            final(self).silence_ms == old(self).silence_ms,
            final(self).speech_threshold == old(self).speech_threshold,
            final(self).recall() == recalled(old(self).recall(), frame@, answer),
            match answer {
                Err(e) => {
                    &&& event == Err::<Option<VadEvent>, String>(e)
                    &&& final(self).detecting() == old(self).detecting()
                },
                Ok(a) => {
                    &&& event is Ok
                    &&& (final(self).detecting(), event->Ok_0) == detect_step(
                        old(self).detecting(),
                        is_speech(a.probability, old(self).speech_threshold),
                        silence_limit(old(self).silence_ms as nat),
                    )
                },
            },
    {
        let answer = match answer {
            Ok(a) => a,
            Err(e) => { return Err(e); },
        };
        let prob = answer.probability;
        self.state = answer.state;
        let mut context: Vec<T> = Vec::new();
        copy_into(&mut context, frame, frame.len() - CTX);
        assert(context@ =~= frame@.skip(frame@.len() - CTX));
        self.context = context;
        let limit: u32 = silence_frame_limit(self.silence_ms);
        if prob.is_at_least(self.speech_threshold) {
            self.silence_frames = 0;
            if !self.speech_active {
                self.speech_active = true;
                return Ok(Some(VadEvent::Start));
            }
        } else if self.speech_active {
            self.silence_frames = self.silence_frames + 1;
            if self.silence_frames >= limit {
                self.speech_active = false;
                self.silence_frames = 0;
                return Ok(Some(VadEvent::End));
            }
        }
        Ok(None)
    }

    /// Forgets what was heard; the thresholds stay.
    pub fn reset(&mut self)
        requires
            old(self).wf(),
        ensures
            final(self).wf(),
            final(self).rest == old(self).rest,
            final(self).recall() == recall_at_rest(old(self).rest),
            final(self).detecting() == (Detecting { speech_active: false, silence_frames: 0 }),
            final(self).silence_ms == old(self).silence_ms,
            final(self).speech_threshold == old(self).speech_threshold,
    {
        self.context = filled(self.rest, CTX);
        self.state = filled(self.rest, STATE);
        self.silence_frames = 0;
        self.speech_active = false;
    }

    /// Sets when a frame counts as speech and how much silence ends speech.
    pub fn set_thresholds(&mut self, silence_ms: u32, speech_threshold: Single)
        requires
            old(self).wf(),
        ensures
            final(self).wf(),
            final(self).rest == old(self).rest,
            final(self).recall() == old(self).recall(),
            final(self).detecting() == old(self).detecting(),
            final(self).silence_ms == silence_ms,
            final(self).speech_threshold == speech_threshold,
    {
        self.silence_ms = silence_ms;
        self.speech_threshold = speech_threshold;
    }
}

fn filled<T: Copy>(rest: T, len: usize) -> (numbers: Vec<T>)
    ensures
        numbers@ == Seq::new(len as nat, |i: int| rest),
{
    let mut numbers: Vec<T> = Vec::new();
    while numbers.len() < len
        invariant
            numbers@.len() <= len,
            forall|i: int| 0 <= i < numbers@.len() ==> numbers@[i] == rest,
        decreases len - numbers.len(),
    {
        numbers.push(rest);
    }
    assert(numbers@ =~= Seq::new(len as nat, |i: int| rest));
    numbers
}

/// Appends the samples of a frame from `from` on.
fn copy_into<T: Copy>(out: &mut Vec<T>, samples: &[T], from: usize)
    requires
        from <= samples@.len(),
    ensures
        final(out)@ == old(out)@ + samples@.skip(from as int),
{
    let mut i: usize = from;
    while i < samples.len()
        invariant
            from <= i <= samples@.len(),
            out@ == old(out)@ + samples@.subrange(from as int, i as int),
        decreases samples@.len() - i,
    {
        out.push(samples[i]);
        i += 1;
        assert(out@ =~= old(out)@ + samples@.subrange(from as int, i as int));
    }
    assert(samples@.subrange(from as int, i as int) =~= samples@.skip(from as int));
}

/// The frames of silence that end speech.
pub fn silence_frame_limit(silence_ms: u32) -> (frames: u32)
    ensures
        frames == silence_limit(silence_ms as nat),
        frames < 0x8000_0000,
{
    let ms: u64 = silence_ms as u64;
    ((ms + (FRAME_MS as u64 - 1)) / FRAME_MS as u64) as u32
}

/// The frames that end speech are the fewest whose samples last as long as the
/// silence: they are not shorter than it, and one frame less would be.
pub proof fn silence_is_never_cut_short(ms: nat)
    ensures
        1000 * FRAME * silence_limit(ms) >= ms * SAMPLE_RATE,
        silence_limit(ms) > 0 ==> 1000 * FRAME * (silence_limit(ms) - 1) < ms * SAMPLE_RATE,
        silence_limit(ms) == 0 <==> ms == 0,
{
    let n = silence_limit(ms) as int;
    assert(32 * n >= ms && 32 * (n - 1) < ms);
    let size = 1000 * FRAME;
    assert(size * n == 512_000 * n && size * (n - 1) == 512_000 * (n - 1)) by (nonlinear_arith)
        requires
            size == 512_000,
    ;
}

/// Whatever calls were made since the detector was new or reset, the model is next
/// run on the last samples of the last frame that it answered for, then the frame,
/// with the state that it then gave back; with rest in the place of both where it
/// has answered for none; and always with the same sample rate.
pub proof fn model_goes_on_from_its_last_answer<T>(
    rest: T,
    calls: Seq<(Seq<T>, Result<Answer<T>, String>)>,
    frame: Seq<T>,
)
    ensures
        asked_for(recall_run(recall_at_rest(rest), calls), frame) == match last_answered(calls) {
            Some(j) => Asked {
                samples: calls[j].0.skip(calls[j].0.len() - CTX) + frame,
                state: calls[j].1->Ok_0.state@,
                sample_rate: 16_000,
            },
            None => Asked {
                samples: Seq::new(64, |i: int| rest) + frame,
                state: Seq::new(256, |i: int| rest),
                sample_rate: 16_000,
            },
        },
        frame.len() == FRAME && (forall|i: int|
            0 <= i < calls.len() ==> (#[trigger] calls[i]).0.len() == FRAME) ==> asked_for(
            recall_run(recall_at_rest(rest), calls),
            frame,
        ).samples.len() == 576,
    decreases calls.len(),
{
    if calls.len() > 0 {
        let shorter = calls.drop_last();
        model_goes_on_from_its_last_answer(rest, shorter, frame);
        assert(calls.last() == calls[calls.len() - 1]);
        assert(forall|i: int| 0 <= i < shorter.len() ==> (#[trigger] shorter[i]) == calls[i]);
        if calls.last().1 is Err {
            lemma_last_answered_bound(shorter);
        }
    }
}

proof fn lemma_last_answered_bound<T>(calls: Seq<(Seq<T>, Result<Answer<T>, String>)>)
    ensures
        last_answered(calls) matches Some(j) ==> 0 <= j < calls.len(),
    decreases calls.len(),
{
    if calls.len() > 0 {
        lemma_last_answered_bound(calls.drop_last());
    }
}

/// However many frames without speech come first, speech does not start.
pub proof fn silence_never_starts_speech(frames: nat, limit: nat)
    ensures
        ({
            let idle = Detecting { speech_active: false, silence_frames: 0 };
            let silence = Seq::new(frames, |i: int| false);
            &&& detect_run(idle, silence, limit) == idle
            &&& detect_step(detect_run(idle, silence, limit), false, limit).1 is None
        }),
    decreases frames,
{
    if frames > 0 {
        let silence = Seq::new(frames, |i: int| false);
        assert(silence.drop_last() =~= Seq::new((frames - 1) as nat, |i: int| false));
        silence_never_starts_speech((frames - 1) as nat, limit);
    }
}

/// Speech starts only where it was off and ends only where it was on, so starts
/// and ends alternate; every other frame leaves it on or off.
pub proof fn starts_and_ends_alternate(d: Detecting, speech: bool, limit: nat)
    ensures
        ({
            let (after, event) = detect_step(d, speech, limit);
            &&& event == Some(VadEvent::Start) <==> !d.speech_active && after.speech_active
            &&& event == Some(VadEvent::End) <==> d.speech_active && !after.speech_active
            &&& event is None <==> after.speech_active == d.speech_active
        }),
{
}

/// After a frame with speech, speech stays on through fewer frames of silence
/// than the limit, and ends on the frame that reaches it.
pub proof fn speech_ends_when_silence_reaches_the_limit(
    d: Detecting,
    frames: nat,
    limit: nat,
)
    requires
        frames < limit || frames == 0,
    ensures
        ({
            let spoken = detect_step(d, true, limit).0;
            let silent = detect_run(spoken, Seq::new(frames, |i: int| false), limit);
            &&& silent == (Detecting { speech_active: true, silence_frames: frames })
            &&& detect_step(silent, false, limit).1 == if frames + 1 >= limit {
                Some(VadEvent::End)
            } else {
                None
            }
        }),
    decreases frames,
{
    if frames > 0 {
        let silence = Seq::new(frames, |i: int| false);
        assert(silence.drop_last() =~= Seq::new((frames - 1) as nat, |i: int| false));
        speech_ends_when_silence_reaches_the_limit(d, (frames - 1) as nat, limit);
    }
}

/// A probability counts as speech exactly where it reaches the threshold, whatever
/// the threshold is; so from rest it starts speech exactly there.
pub proof fn speech_is_what_reaches_the_threshold(p: Single, threshold: Single, limit: nat)
    requires
        !p.is_nan(),
        !threshold.is_nan(),
    ensures
        is_speech(p, threshold) <==> p.value() >= threshold.value(),
        ({
            let rest = Detecting { speech_active: false, silence_frames: 0 };
            &&& detect_step(rest, is_speech(p, threshold), limit).1 == Some(VadEvent::Start) <==> p.value()
                >= threshold.value()
            &&& detect_step(rest, is_speech(p, threshold), limit).1 is None <==> p.value()
                < threshold.value()
        }),
{
}

/// What is no number is no speech, and no threshold that could be reached.
pub proof fn speech_is_a_number(p: Single, threshold: Single)
    requires
        p.is_nan() || threshold.is_nan(),
    ensures
        !is_speech(p, threshold),
{
}

/// The number of frames without speech at the end of some frames.
pub open spec fn silent_at_the_end(speech: Seq<bool>) -> nat
    decreases speech.len(),
{
    if speech.len() == 0 || speech.last() {
        0
    } else {
        silent_at_the_end(speech.drop_last()) + 1
    }
}

/// Whatever frames came, speech is on exactly where one of them had speech and
/// fewer frames than the limit have followed the last such, none where the limit
/// is none; and those are then the frames that were counted.
pub proof fn speech_is_on_until_silence_reaches_the_limit(speech: Seq<bool>, limit: nat)
    ensures
        ({
            let d = detect_run(Detecting { speech_active: false, silence_frames: 0 }, speech, limit);
            let silent = silent_at_the_end(speech);
            &&& d.speech_active <==> speech.contains(true) && (silent == 0 || silent < limit)
            &&& d.silence_frames == if d.speech_active {
                silent
            } else {
                0
            }
        }),
    decreases speech.len(),
{
    if speech.len() > 0 {
        let shorter = speech.drop_last();
        speech_is_on_until_silence_reaches_the_limit(shorter, limit);
        assert(speech[speech.len() - 1] == speech.last());
        if shorter.contains(true) {
            let i = choose|i: int| 0 <= i < shorter.len() && shorter[i] == true;
            assert(speech[i] == true);
        }
        if speech.contains(true) && !speech.last() {
            let i = choose|i: int| 0 <= i < speech.len() && speech[i] == true;
            assert(shorter[i] == true);
        }
    }
}

/// A frame changes detection by what it is alone: with speech, speech is on and the
/// silence is over; without, the silence grows while speech is on, until it reaches
/// the limit and speech goes off; with speech off, nothing changes.
pub proof fn frame_turns_speech_on_or_counts_silence(d: Detecting, limit: nat)
    ensures
        detect_step(d, true, limit).0.speech_active,
        detect_step(d, true, limit).0.silence_frames == 0,
        d.speech_active && d.silence_frames + 1 < limit ==> detect_step(d, false, limit) == (
            Detecting { speech_active: true, silence_frames: d.silence_frames + 1 },
            None::<VadEvent>,
        ),
        d.speech_active && d.silence_frames + 1 >= limit ==> detect_step(d, false, limit) == (
            Detecting { speech_active: false, silence_frames: 0 },
            Some(VadEvent::End),
        ),
        !d.speech_active ==> detect_step(d, false, limit) == (d, None::<VadEvent>),
{
}

/// A silence is long enough from the first frame on with which it has lasted as
/// long as was asked.
pub proof fn silence_is_long_enough_once_it_has_lasted(ms: nat, frames: nat)
    ensures
        frames >= silence_limit(ms) <==> 32 * frames >= ms,
{
}

/// What the model goes on from is the end of the frame it answered for and the
/// state it gave back; a failed call leaves both as they were.
pub proof fn answers_are_carried_on<T>(
    recall: Recall<T>,
    frame: Seq<T>,
    answer: Result<Answer<T>, String>,
)
    requires
        frame.len() >= 64,
    ensures
        answer matches Ok(a) ==> {
            &&& recalled(recall, frame, answer).state == a.state@
            &&& recalled(recall, frame, answer).context.len() == 64
            &&& frame == frame.take(frame.len() - 64) + recalled(recall, frame, answer).context
        },
        answer is Err ==> recalled(recall, frame, answer) == recall,
{
    assert(frame =~= frame.take(frame.len() - 64) + frame.skip(frame.len() - 64));
}

/// At rest the model goes on from 64 samples and 256 numbers of rest.
pub proof fn rest_is_nothing_but_rest<T>(rest: T, i: int)
    ensures
        recall_at_rest(rest).context.len() == 64,
        recall_at_rest(rest).state.len() == 256,
        0 <= i < 64 ==> recall_at_rest(rest).context[i] == rest,
        0 <= i < 256 ==> recall_at_rest(rest).state[i] == rest,
{
}

/// An answer can be taken for every frame that is long enough, where its state has
/// the size of the model's state; a failed call always.
pub proof fn every_sound_answer_can_be_taken<T>(frame: Seq<T>, answer: Result<Answer<T>, String>)
    ensures
        answer is Err ==> can_accept(frame, answer),
        answer matches Ok(a) ==> (can_accept(frame, answer) <==> frame.len() >= 64
            && a.state@.len() == 256),
{
}

/// What is said of a detector is what it holds, and what is said of a query is what
/// the model gets.
pub proof fn detector_is_what_it_holds<T: Copy>(vad: Vad<T>, query: Query<T>)
    ensures
        vad.detecting().speech_active == vad.speech_active,
        vad.detecting().silence_frames == vad.silence_frames,
        vad.recall().context == vad.context@,
        vad.recall().state == vad.state@,
        query@.samples == query.samples@,
        query@.state == query.state@,
        query@.sample_rate == query.sample_rate,
{
}

} // verus!
