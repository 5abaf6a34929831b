//! Cutting the stream of frames into utterances.

use std::collections::VecDeque;
use vstd::prelude::*;

verus! {

/// What voice detection says of a frame.
#[derive(Clone, Copy, PartialEq, Eq, Structural, Debug)]
pub enum VadEvent {
    Start,
    End,
}

/// What a segmenter holds: the frames from just before speech, those of the
/// utterance that is being collected, and how many of the former it keeps.
#[verifier::ext_equal]
pub struct Segmenting<T> {
    pub preroll: Seq<Seq<T>>,
    pub preroll_cap: nat,
    pub buffer: Seq<Seq<T>>,
    pub collecting: bool,
}

/// A segmenter that has seen no frame.
pub open spec fn fresh<T>(preroll_cap: nat) -> Segmenting<T> {
    Segmenting { preroll: seq![], preroll_cap, buffer: seq![], collecting: false }
}

/// The last `cap` of some items, or all of them where they are fewer.
pub open spec fn last_items<A>(items: Seq<A>, cap: nat) -> Seq<A> {
    if items.len() <= cap {
        items
    } else {
        items.skip(items.len() - cap)
    }
}

/// What one frame does to a segmenter, and the utterance that it completes.
pub open spec fn segment_step<T>(
    s: Segmenting<T>,
    frame: Seq<T>,
    event: Option<VadEvent>,
) -> (Segmenting<T>, Option<Seq<T>>) {
    if event == Some(VadEvent::Start) {
        (
            Segmenting {
                preroll: seq![],
                buffer: s.preroll.push(frame),
                collecting: true,
                ..s
            },
            None,
        )
    } else if !s.collecting {
        (Segmenting { preroll: last_items(s.preroll.push(frame), s.preroll_cap), ..s }, None)
    } else if event == Some(VadEvent::End) {
        (
            Segmenting { buffer: seq![], collecting: false, ..s },
            Some(s.buffer.push(frame).flatten()),
        )
    } else {
        (Segmenting { buffer: s.buffer.push(frame), ..s }, None)
    }
}

/// What a segmenter holds after some frames.
pub open spec fn segment_run<T>(
    s: Segmenting<T>,
    input: Seq<(Seq<T>, Option<VadEvent>)>,
) -> Segmenting<T>
    decreases input.len(),
{
    if input.len() == 0 {
        s
    } else {
        segment_step(segment_run(s, input.drop_last()), input.last().0, input.last().1).0
    }
}

/// The frames of some input.
pub open spec fn frames_of<T>(input: Seq<(Seq<T>, Option<VadEvent>)>) -> Seq<Seq<T>> {
    input.map_values(|i: (Seq<T>, Option<VadEvent>)| i.0)
}

/// Where the speech began that is still going on: at the last start, where no
/// end came after it.
pub open spec fn open_start<T>(input: Seq<(Seq<T>, Option<VadEvent>)>) -> Option<int>
    decreases input.len(),
{
    if input.len() == 0 {
        None
    } else {
        match input.last().1 {
            Some(VadEvent::Start) => Some(input.len() - 1),
            Some(VadEvent::End) => None,
            None => open_start(input.drop_last()),
        }
    }
}

/// Where the quiet at the end of some input began: behind the last frame of
/// speech, and at the front where there was none.
pub open spec fn quiet_from<T>(input: Seq<(Seq<T>, Option<VadEvent>)>) -> int
    decreases input.len(),
{
    if input.len() == 0 {
        0
    } else if input.last().1 == Some(VadEvent::Start) || open_start(input.drop_last()) is Some {
        input.len() as int
    } else {
        quiet_from(input.drop_last())
    }
}

/// The last frames of the quiet at the end of some input, as many as are kept.
pub open spec fn preroll_of<T>(input: Seq<(Seq<T>, Option<VadEvent>)>, cap: nat) -> Seq<Seq<T>> {
    last_items(frames_of(input).skip(quiet_from(input)), cap)
}

/// The frames of the speech that is going on: those kept from before it, then
/// every frame from its start.
pub open spec fn speech_of<T>(input: Seq<(Seq<T>, Option<VadEvent>)>, cap: nat) -> Seq<Seq<T>> {
    match open_start(input) {
        Some(start) => preroll_of(input.take(start), cap) + frames_of(input).skip(start),
        None => seq![],
    }
}

/// Frames on which voice detection says nothing.
pub open spec fn without_event<T>(frames: Seq<Seq<T>>) -> Seq<(Seq<T>, Option<VadEvent>)> {
    frames.map_values(|f: Seq<T>| (f, None::<VadEvent>))
}

pub open spec fn frames_view<T>(frames: Seq<Vec<T>>) -> Seq<Seq<T>> {
    frames.map_values(|f: Vec<T>| f@)
}

/// Collects the frames of an utterance, with those from just before it began.
pub struct Segmenter<T> {
    preroll: VecDeque<Vec<T>>,
    preroll_cap: usize,
    buffer: VecDeque<Vec<T>>,
    collecting: bool,
}

impl<T> View for Segmenter<T> {
    type V = Segmenting<T>;

    closed spec fn view(&self) -> Segmenting<T> {
        Segmenting {
            preroll: frames_view(self.preroll@),
            preroll_cap: self.preroll_cap as nat,
            buffer: frames_view(self.buffer@),
            collecting: self.collecting,
        }
    }
}

impl<T> Segmenter<T> {
    /// No more frames are kept than asked for, none from before speech while
    /// speech is collected, and none of speech while it is not.
    pub open spec fn wf(self) -> bool {
        &&& self@.preroll.len() <= self@.preroll_cap
        &&& self@.collecting ==> self@.preroll.len() == 0
        &&& !self@.collecting ==> self@.buffer.len() == 0
    }

    pub fn new(preroll_frames: usize) -> (s: Self)
        ensures
            s.wf(),
            s@ == fresh::<T>(preroll_frames as nat),
    {
        let s = Segmenter {
            preroll: VecDeque::new(),
            preroll_cap: preroll_frames,
            buffer: VecDeque::new(),
            collecting: false,
        };
        assert(s@ =~= fresh::<T>(preroll_frames as nat));
        s
    }

    /// Takes one frame. Returns the whole utterance, the frames from before it
    /// included, on its end, and nothing otherwise.
    pub fn push(&mut self, frame: Vec<T>, event: Option<VadEvent>) -> (utterance: Option<Vec<T>>)
        requires
            old(self).wf(),
        ensures
            final(self).wf(),
            final(self)@ == segment_step(old(self)@, frame@, event).0,
            match utterance {
                Some(u) => segment_step(old(self)@, frame@, event).1 == Some(u@),
                None => segment_step(old(self)@, frame@, event).1 is None,
            },
    {
        let ghost before = self@;
        let ghost samples = frame@;
        match event {
            Some(VadEvent::Start) => {
                self.collecting = true;
                self.buffer.clear();
                self.buffer.append(&mut self.preroll);
                self.buffer.push_back(frame);
                assert(self@ =~= segment_step(before, samples, event).0);
                None
            },
            _ => {
                if !self.collecting {
                    if self.preroll.len() == self.preroll_cap && self.preroll_cap > 0 {
                        let _ = self.preroll.pop_front();
                    }
                    if self.preroll_cap > 0 {
                        self.preroll.push_back(frame);
                    }
                    assert(self@ =~= segment_step(before, samples, event).0);
                    return None;
                }
                self.buffer.push_back(frame);
                assert(frames_view(self.buffer@) =~= before.buffer.push(samples));
                match event {
                    Some(VadEvent::End) => {
                        self.collecting = false;
                        let utterance = drain_flat(&mut self.buffer);
                        assert(self@ =~= segment_step(before, samples, event).0);
                        Some(utterance)
                    },
                    _ => {
                        assert(self@ =~= segment_step(before, samples, event).0);
                        None
                    },
                }
            },
        }
    }
}

/// Empties a queue of frames into one run of samples.
fn drain_flat<T>(frames: &mut VecDeque<Vec<T>>) -> (flat: Vec<T>)
    ensures
        final(frames)@.len() == 0,
        flat@ == frames_view(old(frames)@).flatten(),
{
    let ghost all = frames_view(frames@);
    let mut flat: Vec<T> = Vec::new();
    let ghost mut taken: int = 0;
    while frames.len() > 0
        invariant
            0 <= taken <= all.len(),
            frames_view(frames@) == all.skip(taken),
            flat@ + all.skip(taken).flatten() == all.flatten(),
        decreases frames.len(),
    {
        let ghost rest = all.skip(taken);
        if let Some(mut frame) = frames.pop_front() {
            proof {
                assert(frame@ == rest[0]);
                assert(frames_view(frames@) =~= rest.drop_first());
                assert(rest.drop_first() =~= all.skip(taken + 1));
                assert(rest.flatten() == rest.first() + rest.drop_first().flatten());
                taken = taken + 1;
            }
            let ghost start = flat@;
            flat.append(&mut frame);
            assert(flat@ + all.skip(taken).flatten() =~= start + rest.flatten());
        }
    }
    assert(all.skip(taken) =~= seq![]);
    assert(flat@ =~= all.flatten());
    flat
}

proof fn lemma_input_bounds<T>(input: Seq<(Seq<T>, Option<VadEvent>)>)
    ensures
        open_start(input) matches Some(start) ==> 0 <= start < input.len(),
        0 <= quiet_from(input) <= input.len(),
        open_start(input) is Some ==> quiet_from(input) == input.len(),
    decreases input.len(),
{
    if input.len() > 0 {
        lemma_input_bounds(input.drop_last());
    }
}

proof fn lemma_state_after_input<T>(input: Seq<(Seq<T>, Option<VadEvent>)>, cap: nat)
    ensures
        segment_run(fresh::<T>(cap), input) == (Segmenting {
            preroll: preroll_of(input, cap),
            preroll_cap: cap,
            buffer: speech_of(input, cap),
            collecting: open_start(input) is Some,
        }),
    decreases input.len(),
{
    lemma_input_bounds(input);
    let after = segment_run(fresh::<T>(cap), input);
    if input.len() == 0 {
        assert(preroll_of(input, cap) =~= seq![]);
        assert(after.buffer =~= speech_of(input, cap));
    } else {
        let shorter = input.drop_last();
        let (frame, event) = input.last();
        lemma_state_after_input(shorter, cap);
        lemma_input_bounds(shorter);
        assert(frames_of(input) =~= frames_of(shorter).push(frame));
        let before = segment_run(fresh::<T>(cap), shorter);
        if event == Some(VadEvent::Start) {
            assert(input.take(input.len() - 1) =~= shorter);
            assert(frames_of(input).skip(input.len() - 1) =~= seq![frame]);
            assert(speech_of(input, cap) =~= before.preroll.push(frame));
            assert(preroll_of(input, cap) =~= seq![]);
        } else if open_start(shorter) is Some {
            let start = open_start(shorter)->0;
            assert(input.take(start) =~= shorter.take(start));
            assert(frames_of(input).skip(start) =~= frames_of(shorter).skip(start).push(frame));
            assert(preroll_of(shorter, cap) =~= seq![]);
            assert(preroll_of(input, cap) =~= seq![]);
            if event is None {
                assert(speech_of(input, cap) =~= before.buffer.push(frame));
            }
        } else {
            let from = quiet_from(shorter);
            assert(frames_of(input).skip(from) =~= frames_of(shorter).skip(from).push(frame));
            assert(last_items(before.preroll.push(frame), cap) =~= preroll_of(input, cap));
            assert(before.buffer =~= seq![]);
        }
    }
}

/// Whatever frames and events came before, an end gives out the speech since the
/// last start, and in front of it the last frames of the quiet before that start;
/// with no speech going on it gives out nothing. A start in the middle of speech
/// begins the utterance anew.
pub proof fn utterance_is_the_speech_since_the_last_start<T>(
    preroll_cap: nat,
    input: Seq<(Seq<T>, Option<VadEvent>)>,
    last: Seq<T>,
)
    ensures
        segment_step(
            segment_run(fresh::<T>(preroll_cap), input),
            last,
            Some(VadEvent::End),
        ).1 == match open_start(input) {
            Some(start) => Some(
                (preroll_of(input.take(start), preroll_cap) + frames_of(input).skip(start).push(
                    last,
                )).flatten(),
            ),
            None => None,
        },
{
    lemma_state_after_input(input, preroll_cap);
    if let Some(start) = open_start(input) {
        lemma_input_bounds(input);
        let preroll = preroll_of(input.take(start), preroll_cap);
        let speech = frames_of(input).skip(start);
        assert((preroll + speech).push(last) =~= preroll + speech.push(last));
    }
}

/// An utterance is the last frames from before it, as many as are kept, then
/// every frame from its start to its end; and the segmenter is then as it was
/// when it was new, so nothing of one utterance is in the next.
pub proof fn utterance_is_preroll_then_speech<T>(
    preroll_cap: nat,
    quiet: Seq<Seq<T>>,
    first: Seq<T>,
    middle: Seq<Seq<T>>,
    last: Seq<T>,
)
    ensures
        ({
            let waiting = segment_run(fresh::<T>(preroll_cap), without_event(quiet));
            let started = segment_step(waiting, first, Some(VadEvent::Start)).0;
            let speaking = segment_run(started, without_event(middle));
            segment_step(speaking, last, Some(VadEvent::End)) == (
                fresh::<T>(preroll_cap),
                Some((last_items(quiet, preroll_cap).push(first) + middle.push(last)).flatten()),
            )
        }),
{
    let waiting = segment_run(fresh::<T>(preroll_cap), without_event(quiet));
    lemma_quiet_run(preroll_cap, quiet);
    let started = segment_step(waiting, first, Some(VadEvent::Start)).0;
    lemma_speech_run(started, middle);
    let speaking = segment_run(started, without_event(middle));
    let done = segment_step(speaking, last, Some(VadEvent::End));
    assert(speaking.buffer.push(last) =~= last_items(quiet, preroll_cap).push(first)
        + middle.push(last));
    assert(done.0 =~= fresh::<T>(preroll_cap));
}

proof fn lemma_quiet_run<T>(preroll_cap: nat, quiet: Seq<Seq<T>>)
    ensures
        segment_run(fresh::<T>(preroll_cap), without_event(quiet)) == (Segmenting {
            preroll: last_items(quiet, preroll_cap),
            ..fresh::<T>(preroll_cap)
        }),
    decreases quiet.len(),
{
    let input = without_event(quiet);
    if quiet.len() == 0 {
        assert(last_items(quiet, preroll_cap) =~= seq![]);
    } else {
        let shorter = quiet.drop_last();
        assert(input.drop_last() =~= without_event(shorter));
        lemma_quiet_run(preroll_cap, shorter);
        assert(shorter.push(quiet.last()) =~= quiet);
        assert(last_items(last_items(shorter, preroll_cap).push(quiet.last()), preroll_cap)
            =~= last_items(quiet, preroll_cap));
    }
}

proof fn lemma_speech_run<T>(s: Segmenting<T>, frames: Seq<Seq<T>>)
    requires
        s.collecting,
    ensures
        segment_run(s, without_event(frames)) == (Segmenting { buffer: s.buffer + frames, ..s }),
    decreases frames.len(),
{
    let input = without_event(frames);
    if frames.len() == 0 {
        assert(s.buffer + frames =~= s.buffer);
    } else {
        let shorter = frames.drop_last();
        assert(input.drop_last() =~= without_event(shorter));
        lemma_speech_run(s, shorter);
        assert((s.buffer + shorter).push(frames.last()) =~= s.buffer + frames);
    }
}

/// Whatever comes before speech starts, nothing is collected and no utterance
/// comes out; an end without a start is taken as silence.
pub proof fn nothing_comes_out_before_a_start<T>(
    preroll_cap: nat,
    input: Seq<(Seq<T>, Option<VadEvent>)>,
    frame: Seq<T>,
    event: Option<VadEvent>,
)
    requires
        forall|i: int|
            0 <= i < input.len() ==> (#[trigger] input[i]).1 != Some(VadEvent::Start),
        event != Some(VadEvent::Start),
    ensures
        !segment_run(fresh::<T>(preroll_cap), input).collecting,
        segment_step(segment_run(fresh::<T>(preroll_cap), input), frame, event).1 is None,
    decreases input.len(),
{
    if input.len() > 0 {
        let shorter = input.drop_last();
        assert(forall|i: int| 0 <= i < shorter.len() ==> (#[trigger] shorter[i]) == input[i]);
        nothing_comes_out_before_a_start(preroll_cap, shorter, input.last().0, input.last().1);
    }
}

/// The last items are a run of the items that reaches their end, as long as is
/// asked for, or all of them where they are fewer.
pub proof fn last_items_reach_the_end<A>(items: Seq<A>, cap: nat)
    ensures
        ({
            let last = last_items(items, cap);
            &&& last.len() == if items.len() < cap {
                items.len()
            } else {
                cap
            }
            &&& forall|i: int|
                0 <= i < last.len() ==> #[trigger] last[i] == items[items.len() - last.len() + i]
        }),
{
}

/// An utterance comes out only on an end, and only where speech was being
/// collected; however long the speech already is, nothing comes out on a start or
/// on a frame without an event.
pub proof fn utterance_comes_out_only_at_an_end<T>(
    s: Segmenting<T>,
    frame: Seq<T>,
    event: Option<VadEvent>,
)
    ensures
        segment_step(s, frame, event).1 is Some <==> event == Some(VadEvent::End) && s.collecting,
        segment_step(s, frame, event).1 matches Some(u) ==> u == s.buffer.flatten() + frame,
{
    if event == Some(VadEvent::End) && s.collecting {
        let all = s.buffer.push(frame);
        assert(all.drop_last() =~= s.buffer);
        assert(all.flatten() =~= s.buffer.flatten() + frame) by {
            lemma_flatten_push(s.buffer, frame);
        }
    }
}

proof fn lemma_flatten_push<T>(frames: Seq<Seq<T>>, frame: Seq<T>)
    ensures
        frames.push(frame).flatten() == frames.flatten() + frame,
    decreases frames.len(),
{
    let all = frames.push(frame);
    if frames.len() == 0 {
        assert(all =~= seq![frame]);
        seq![frame].lemma_flatten_one_element();
        assert(frames.flatten() + frame =~= frame);
    } else {
        lemma_flatten_push(frames.drop_first(), frame);
        assert(all.drop_first() =~= frames.drop_first().push(frame));
        assert(all.flatten() == all.first() + all.drop_first().flatten());
        assert(frames.flatten() == frames.first() + frames.drop_first().flatten());
        assert(all.flatten() =~= frames.flatten() + frame);
    }
}

/// Every frame is kept where it belongs. A start begins the speech with the frames
/// kept from before it. While speech is collected each frame goes behind the ones
/// before, until an end empties it all. Otherwise a frame goes behind those kept
/// for the next start, of which the oldest goes where there are too many. How many
/// are kept never changes.
pub proof fn every_frame_is_kept_where_it_belongs<T>(
    s: Segmenting<T>,
    frame: Seq<T>,
    event: Option<VadEvent>,
)
    requires
        s.preroll.len() <= s.preroll_cap,
    ensures
        ({
            let after = segment_step(s, frame, event).0;
            &&& after.preroll_cap == s.preroll_cap
            &&& event == Some(VadEvent::Start) ==> {
                &&& after.collecting
                &&& after.preroll.len() == 0
                &&& after.buffer == s.preroll + seq![frame]
            }
            &&& event != Some(VadEvent::Start) && s.collecting ==> {
                &&& after.preroll == s.preroll
                &&& after.collecting <==> event is None
                &&& event is None ==> after.buffer == s.buffer + seq![frame]
                &&& event is Some ==> after.buffer.len() == 0
            }
            &&& event != Some(VadEvent::Start) && !s.collecting ==> {
                &&& !after.collecting
                &&& after.buffer == s.buffer
                &&& s.preroll.len() < s.preroll_cap ==> after.preroll == s.preroll + seq![frame]
                &&& s.preroll.len() == s.preroll_cap && s.preroll_cap > 0 ==> after.preroll
                    == s.preroll.drop_first() + seq![frame]
                &&& s.preroll_cap == 0 ==> after.preroll.len() == 0
            }
        }),
{
    let after = segment_step(s, frame, event).0;
    match event {
        Some(VadEvent::Start) => {},
        Some(VadEvent::End) => {},
        None => {},
    }
    assert(s.preroll.push(frame) =~= s.preroll + seq![frame]);
    assert(s.buffer.push(frame) =~= s.buffer + seq![frame]);
    if event != Some(VadEvent::Start) && !s.collecting && s.preroll_cap > 0 && s.preroll.len()
        == s.preroll_cap {
        assert(after.preroll =~= s.preroll.drop_first() + seq![frame]);
    }
}

/// A segmenter that has seen no frame holds none, and keeps as many from before
/// speech as it was made for.
pub proof fn fresh_segmenter_is_empty<T>(preroll_cap: nat)
    ensures
        fresh::<T>(preroll_cap).preroll.len() == 0,
        fresh::<T>(preroll_cap).buffer.len() == 0,
        !fresh::<T>(preroll_cap).collecting,
        fresh::<T>(preroll_cap).preroll_cap == preroll_cap,
{
}

} // verus!
