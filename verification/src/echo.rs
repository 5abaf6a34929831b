//! The reference for echo cancellation: what is being played.

use std::collections::VecDeque;
use vstd::prelude::*;

verus! {

/// Reference frames that can wait.
pub const REFERENCE_FRAMES: usize = 64;

/// The queue after a frame is offered: one that finds no room is dropped.
pub open spec fn offered<T>(queue: Seq<Seq<T>>, frame: Seq<T>) -> Seq<Seq<T>> {
    if queue.len() < REFERENCE_FRAMES {
        queue.push(frame)
    } else {
        queue
    }
}

/// The queue after some frames are offered.
pub open spec fn offered_all<T>(queue: Seq<Seq<T>>, frames: Seq<Seq<T>>) -> Seq<Seq<T>>
    decreases frames.len(),
{
    if frames.len() == 0 {
        queue
    } else {
        offered(offered_all(queue, frames.drop_last()), frames.last())
    }
}

/// Silence as long as a frame.
pub open spec fn silence<T>(rest: T, len: nat) -> Seq<T> {
    Seq::new(len, |i: int| rest)
}

/// The frames that were sent to the speaker and may come back by the microphone.
pub struct EchoCancel<T> {
    queue: VecDeque<Vec<T>>,
    rest: T,
}

impl<T> View for EchoCancel<T> {
    type V = Seq<Seq<T>>;

    closed spec fn view(&self) -> Seq<Seq<T>> {
        self.queue@.map_values(|f: Vec<T>| f@)
    }
}

impl<T: Copy> EchoCancel<T> {
    pub open spec fn wf(self) -> bool {
        self@.len() <= REFERENCE_FRAMES
    }

    /// The sample that stands for no sound.
    pub closed spec fn rest(self) -> T {
        self.rest
    }

    pub fn new(rest: T) -> (ec: Self)
        ensures
            ec.wf(),
            ec@ == Seq::<Seq<T>>::empty(),
            ec.rest() == rest,
    {
        let ec = EchoCancel { queue: VecDeque::new(), rest };
        assert(ec@ =~= Seq::<Seq<T>>::empty());
        ec
    }

    /// Takes one frame that is going to be played.
    pub fn push_reference(&mut self, frame: &[T])
        requires
            old(self).wf(),
        ensures
            final(self).wf(),
            final(self)@ == offered(old(self)@, frame@),
            final(self).rest() == old(self).rest(),
    {
        if self.queue.len() < REFERENCE_FRAMES {
            self.queue.push_back(copied(frame, 0, frame.len()));
            assert(frame@.subrange(0, frame@.len() as int) =~= frame@);
        }
        assert(self@ =~= offered(old(self)@, frame@));
    }

    /// Takes all that is going to be played, in frames of the given size; the
    /// last one may be shorter.
    pub fn push_reference_samples(&mut self, samples: &[T], size: usize)
        requires
            old(self).wf(),
            size > 0,
        ensures
            final(self).wf(),
            final(self)@ == offered_all(old(self)@, pieces(samples@, size as nat)),
            final(self).rest() == old(self).rest(),
    {
        let mut from: usize = 0;
        let ghost mut done: Seq<Seq<T>> = seq![];
        proof {
            assert(samples@.skip(0) =~= samples@);
            assert(done + pieces(samples@, size as nat) =~= pieces(samples@, size as nat));
        }
        while from < samples.len()
            invariant
                self.wf(),
                self.rest() == old(self).rest(),
                size > 0,
                from <= samples@.len(),
                self@ == offered_all(old(self)@, done),
                done + pieces(samples@.skip(from as int), size as nat) == pieces(
                    samples@,
                    size as nat,
                ),
            decreases samples@.len() - from,
        {
            let left: usize = samples.len() - from;
            let to: usize = if left < size {
                samples.len()
            } else {
                from + size
            };
            let frame = copied(samples, from, to);
            self.push_reference(frame.as_slice());
            proof {
                let rest = samples@.skip(from as int);
                let piece = if rest.len() < size {
                    rest
                } else {
                    rest.take(size as int)
                };
                assert(piece =~= frame@);
                assert(samples@.skip(to as int) =~= rest.skip(piece.len() as int));
                assert(done.push(frame@).drop_last() =~= done);
                assert(done.push(frame@) + pieces(samples@.skip(to as int), size as nat) =~= done
                    + pieces(rest, size as nat));
                done = done.push(frame@);
            }
            from = to;
        }
        assert(done + pieces(samples@.skip(from as int), size as nat) =~= done);
    }

    /// The reference to a frame from the microphone: the oldest frame that
    /// waits, or as much silence where none does.
    pub fn next_reference(&mut self, len: usize) -> (frame: Vec<T>)
        requires
            old(self).wf(),
        ensures
            final(self).wf(),
            final(self).rest() == old(self).rest(),
            old(self)@.len() > 0 ==> {
                &&& frame@ == old(self)@.first()
                &&& final(self)@ == old(self)@.drop_first()
            },
            old(self)@.len() == 0 ==> {
                &&& frame@ == silence(old(self).rest(), len as nat)
                &&& final(self)@ == old(self)@
            },
    {
        match self.queue.pop_front() {
            Some(frame) => {
                assert(self@ =~= old(self)@.drop_first());
                frame
            },
            None => {
                let mut frame: Vec<T> = Vec::new();
                while frame.len() < len
                    invariant
                        frame@.len() <= len,
                        forall|i: int| 0 <= i < frame@.len() ==> frame@[i] == self.rest(),
                    decreases len - frame.len(),
                {
                    frame.push(self.rest);
                }
                assert(frame@ =~= silence(old(self).rest(), len as nat));
                assert(self@ =~= old(self)@);
                frame
            },
        }
    }

    /// Forgets what was to be played.
    pub fn reset(&mut self)
        ensures
            final(self).wf(),
            final(self)@ == Seq::<Seq<T>>::empty(),
            final(self).rest() == old(self).rest(),
    {
        self.queue.clear();
        assert(self@ =~= Seq::<Seq<T>>::empty());
    }
}

/// Samples cut into pieces of one size, the last of which may be shorter.
pub open spec fn pieces<T>(samples: Seq<T>, size: nat) -> Seq<Seq<T>>
    decreases samples.len(),
{
    if samples.len() == 0 || size == 0 {
        seq![]
    } else if samples.len() < size {
        seq![samples]
    } else {
        seq![samples.take(size as int)] + pieces(samples.skip(size as int), size)
    }
}

/// Cutting loses nothing: the pieces put together are the samples again.
pub proof fn pieces_make_up_the_samples<T>(samples: Seq<T>, size: nat)
    requires
        size > 0,
    ensures
        pieces(samples, size).flatten() == samples,
        forall|i: int|
            0 <= i < pieces(samples, size).len() ==> 0 < (#[trigger] pieces(
                samples,
                size,
            )[i]).len() <= size,
    decreases samples.len(),
{
    let all = pieces(samples, size);
    if samples.len() == 0 {
        assert(all.flatten() =~= samples);
    } else if samples.len() < size {
        all.lemma_flatten_one_element();
    } else {
        let rest = samples.skip(size as int);
        pieces_make_up_the_samples(rest, size);
        assert(all.drop_first() =~= pieces(rest, size));
        assert(all.flatten() == all.first() + all.drop_first().flatten());
        assert(samples.take(size as int) + rest =~= samples);
        assert forall|i: int| 0 <= i < all.len() implies 0 < (#[trigger] all[i]).len() <= size by {
            if i > 0 {
                assert(all[i] == pieces(rest, size)[i - 1]);
            }
        }
    }
}

/// What was said to be playing comes out in the order it went in, as far as
/// there was room for it.
pub proof fn reference_keeps_the_first_frames<T>(queue: Seq<Seq<T>>, frames: Seq<Seq<T>>)
    requires
        queue.len() <= REFERENCE_FRAMES,
    ensures
        offered_all(queue, frames) == if queue.len() + frames.len() <= REFERENCE_FRAMES {
            queue + frames
        } else {
            (queue + frames).take(REFERENCE_FRAMES as int)
        },
    decreases frames.len(),
{
    if frames.len() == 0 {
        assert(queue + frames =~= queue);
    } else {
        let shorter = frames.drop_last();
        reference_keeps_the_first_frames(queue, shorter);
        assert((queue + shorter).push(frames.last()) =~= queue + frames);
        assert(offered_all(queue, frames) =~= if queue.len() + frames.len() <= REFERENCE_FRAMES {
            queue + frames
        } else {
            (queue + frames).take(REFERENCE_FRAMES as int)
        });
    }
}

fn copied<T: Copy>(samples: &[T], from: usize, to: usize) -> (copy: Vec<T>)
    requires
        from <= to <= samples@.len(),
    ensures
        copy@ == samples@.subrange(from as int, to as int),
{
    let mut copy: Vec<T> = Vec::new();
    let mut i: usize = from;
    while i < to
        invariant
            from <= i <= to <= samples@.len(),
            copy@ == samples@.subrange(from as int, i as int),
        decreases to - i,
    {
        copy.push(samples[i]);
        i += 1;
        assert(copy@ =~= samples@.subrange(from as int, i as int));
    }
    copy
}

/// A frame that is offered goes behind those that wait, while fewer than 64 do, and
/// is dropped otherwise.
pub proof fn offered_frame_goes_behind_the_others<T>(queue: Seq<Seq<T>>, frame: Seq<T>)
    ensures
        queue.len() < 64 ==> offered(queue, frame) == queue + seq![frame],
        queue.len() >= 64 ==> offered(queue, frame) == queue,
{
    assert(queue.push(frame) =~= queue + seq![frame]);
}

/// Every piece but the last is full.
pub proof fn pieces_are_full_but_for_the_last<T>(samples: Seq<T>, size: nat)
    requires
        size > 0,
    ensures
        forall|i: int|
            0 <= i < pieces(samples, size).len() - 1 ==> (#[trigger] pieces(samples, size)[i]).len()
                == size,
    decreases samples.len(),
{
    if samples.len() >= size {
        let all = pieces(samples, size);
        let rest = pieces(samples.skip(size as int), size);
        pieces_are_full_but_for_the_last(samples.skip(size as int), size);
        assert forall|i: int| 0 <= i < all.len() - 1 implies (#[trigger] all[i]).len() == size by {
            if i > 0 {
                assert(all[i] == rest[i - 1]);
            }
        }
    }
}

/// Silence is as long as is asked for, and nothing but rest.
pub proof fn silence_is_nothing_but_rest<T>(rest: T, len: nat, i: int)
    ensures
        silence(rest, len).len() == len,
        0 <= i < len ==> silence(rest, len)[i] == rest,
{
}

} // verus!
