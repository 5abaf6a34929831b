//! From what the microphone delivers to frames of one size.

use crate::config::FRAME;
use vstd::arithmetic::div_mod::{lemma_fundamental_div_mod, lemma_fundamental_div_mod_converse};
use vstd::prelude::*;

verus! {

/// The samples of the first channel, of samples that are interleaved by channel.
pub open spec fn first_channel<T>(data: Seq<T>, channels: nat) -> Seq<T> {
    if channels > 1 {
        Seq::new((data.len() + channels - 1) as nat / channels, |i: int| data[i * channels])
    } else {
        data
    }
}

/// Takes the first channel.
pub fn downmix<T: Copy>(data: &[T], channels: usize) -> (mono: Vec<T>)
    ensures
        mono@ == first_channel(data@, channels as nat),
{
    let step: usize = if channels > 1 {
        channels
    } else {
        1
    };
    let mut mono: Vec<T> = Vec::new();
    let mut at: usize = 0;
    let mut more: bool = data.len() > 0;
    assert((0 - 1) * step < 0 && 0 * step == 0) by (nonlinear_arith)
        requires
            step >= 1,
    ;
    while more
        invariant
            step == if channels > 1 {
                channels
            } else {
                1
            },
            more ==> at < data@.len() && at == mono@.len() * step,
            !more ==> mono@.len() > 0 || data@.len() == 0,
            !more ==> (mono@.len() - 1) * step < data@.len() <= mono@.len() * step,
            forall|i: int|
                0 <= i < mono@.len() ==> #[trigger] mono@[i] == data@[i * step],
        decreases
                data@.len() - at,
                if more {
                    1int
                } else {
                    0int
                },
    {
        let ghost n = mono@.len() as int;
        assert((n + 1) * step == n * step + step) by (nonlinear_arith);
        mono.push(data[at]);
        if data.len() - at <= step {
            more = false;
        } else {
            at += step;
        }
    }
    proof {
        let n = mono@.len() as int;
        let len = data@.len() as int;
        let s = step as int;
        if channels > 1 {
            assert((len + s - 1) / s == n) by {
                if len > 0 {
                    assert((n - 1) * s == n * s - s) by (nonlinear_arith);
                }
                assert(n * s == s * n) by (nonlinear_arith);
                lemma_fundamental_div_mod_converse(len + s - 1, s, n, len + s - 1 - n * s);
            }
            assert(mono@ =~= first_channel(data@, channels as nat));
        } else {
            assert(n * 1 == n && (n - 1) * 1 == n - 1);
            assert forall|i: int| 0 <= i < n implies #[trigger] mono@[i] == data@[i] by {
                assert(i * s == i);
            }
            assert(mono@ =~= data@);
        }
    }
    mono
}

/// What is kept of the microphone: its first channel while listening is on, and
/// nothing otherwise.
pub fn take_input<T: Copy>(listening: bool, data: &[T], channels: usize) -> (mono: Option<Vec<T>>)
    ensures
        match mono {
            Some(m) => listening && m@ == first_channel(data@, channels as nat),
            None => !listening,
        },
{
    if listening {
        Some(downmix(data, channels))
    } else {
        None
    }
}

/// The whole frames at the front of some samples.
pub open spec fn whole_frames<T>(samples: Seq<T>) -> Seq<Seq<T>> {
    Seq::new(
        samples.len() / FRAME as nat,
        |i: int| samples.subrange(i * FRAME, i * FRAME + FRAME),
    )
}

/// The samples behind the last whole frame.
pub open spec fn after_frames<T>(samples: Seq<T>) -> Seq<T> {
    samples.skip((samples.len() / FRAME as nat) * FRAME)
}

/// Cuts samples that come in any number into frames.
pub struct Framer<T> {
    /// Samples that wait for their frame to be full.
    pub pending: Vec<T>,
}

impl<T: Copy> Framer<T> {
    pub open spec fn wf(self) -> bool {
        self.pending@.len() < FRAME
    }

    pub fn new() -> (f: Self)
        ensures
            f.wf(),
            f.pending@ == Seq::<T>::empty(),
    {
        Framer { pending: Vec::new() }
    }

    /// Takes some samples. Returns the frames that are now full.
    pub fn push(&mut self, samples: &[T]) -> (frames: Vec<Vec<T>>)
        requires
            old(self).wf(),
        ensures
            final(self).wf(),
            final(self).pending@ == after_frames(old(self).pending@ + samples@),
            frames@.len() == whole_frames(old(self).pending@ + samples@).len(),
            forall|i: int|
                0 <= i < frames@.len() ==> (#[trigger] frames@[i])@ == whole_frames(
                    old(self).pending@ + samples@,
                )[i],
    {
        let ghost all = self.pending@ + samples@;
        let ghost before = self.pending@;
        let mut frames: Vec<Vec<T>> = Vec::new();
        let mut i: usize = 0;
        while i < samples.len()
            invariant
                i <= samples@.len(),
                all == before + samples@,
                self.pending@.len() < FRAME,
                frames@.len() * FRAME + self.pending@.len() == before.len() + i,
                self.pending@ == all.subrange(frames@.len() * FRAME, before.len() + i),
                forall|k: int|
                    0 <= k < frames@.len() ==> (#[trigger] frames@[k])@ == all.subrange(
                        k * FRAME,
                        k * FRAME + FRAME,
                    ),
            decreases samples@.len() - i,
        {
            self.pending.push(samples[i]);
            i += 1;
            assert(self.pending@ =~= all.subrange(frames@.len() * FRAME, before.len() + i));
            if self.pending.len() == FRAME {
                let mut full: Vec<T> = Vec::new();
                full.append(&mut self.pending);
                frames.push(full);
                assert(self.pending@ =~= all.subrange(frames@.len() * FRAME, before.len() + i));
            }
        }
        proof {
            let n = frames@.len() as int;
            lemma_fundamental_div_mod_converse(
                all.len() as int,
                FRAME as int,
                n,
                self.pending@.len() as int,
            );
            assert(self.pending@ =~= after_frames(all));
        }
        frames
    }
}

/// Framing loses nothing and adds nothing: the frames, then what is left, are
/// the samples; every frame is full, and what is left would not fill one.
pub proof fn framing_loses_nothing<T>(samples: Seq<T>)
    ensures
        whole_frames(samples).flatten() + after_frames(samples) == samples,
        after_frames(samples).len() < FRAME,
        forall|i: int|
            0 <= i < whole_frames(samples).len() ==> (#[trigger] whole_frames(samples)[i]).len()
                == FRAME,
    decreases samples.len(),
{
    let n = samples.len() / FRAME as nat;
    lemma_fundamental_div_mod(samples.len() as int, FRAME as int);
    if n == 0 {
        assert(whole_frames(samples) =~= seq![]);
        assert(whole_frames(samples).flatten() + after_frames(samples) =~= samples);
    } else {
        let rest = samples.skip(FRAME as int);
        lemma_frames_after_first(samples);
        framing_loses_nothing(rest);
        let frames = whole_frames(samples);
        assert(frames.flatten() == frames.first() + frames.drop_first().flatten());
        assert(samples =~= samples.subrange(0, FRAME as int) + rest);
        assert(frames.flatten() + after_frames(samples) =~= frames.first() + (
        frames.drop_first().flatten() + after_frames(rest)));
    }
}

proof fn lemma_frames_after_first<T>(samples: Seq<T>)
    requires
        samples.len() >= FRAME,
    ensures
        whole_frames(samples).len() > 0,
        whole_frames(samples).first() == samples.subrange(0, FRAME as int),
        whole_frames(samples).drop_first() == whole_frames(samples.skip(FRAME as int)),
        after_frames(samples) == after_frames(samples.skip(FRAME as int)),
{
    let rest = samples.skip(FRAME as int);
    let n = (samples.len() / FRAME as nat) as int;
    lemma_fundamental_div_mod(samples.len() as int, FRAME as int);
    lemma_fundamental_div_mod_converse(
        rest.len() as int,
        FRAME as int,
        n - 1,
        samples.len() as int % FRAME as int,
    );
    assert forall|i: int| 0 <= i < n - 1 implies #[trigger] whole_frames(samples).drop_first()[i]
        == whole_frames(rest)[i] by {
        assert(samples.subrange((i + 1) * FRAME, (i + 1) * FRAME + FRAME) =~= rest.subrange(
            i * FRAME,
            i * FRAME + FRAME,
        ));
    }
    assert(whole_frames(samples).drop_first() =~= whole_frames(rest));
    assert(after_frames(samples) =~= after_frames(rest));
}

/// However the samples are split over two deliveries, the same frames come out
/// and the same samples are left.
pub proof fn framing_ignores_how_samples_arrive<T>(pending: Seq<T>, first: Seq<T>, second: Seq<T>)
    ensures
        whole_frames(pending + first + second) == whole_frames(pending + first) + whole_frames(
            after_frames(pending + first) + second,
        ),
        after_frames(pending + first + second) == after_frames(
            after_frames(pending + first) + second,
        ),
{
    lemma_framing_appends(pending + first, second);
}

proof fn lemma_framing_appends<T>(head: Seq<T>, tail: Seq<T>)
    ensures
        whole_frames(head + tail) == whole_frames(head) + whole_frames(after_frames(head) + tail),
        after_frames(head + tail) == after_frames(after_frames(head) + tail),
    decreases head.len(),
{
    if head.len() < FRAME {
        assert(whole_frames(head) =~= seq![]);
        assert(after_frames(head) =~= head);
        assert(whole_frames(head) + whole_frames(head + tail) =~= whole_frames(head + tail));
    } else {
        let rest = head.skip(FRAME as int);
        lemma_frames_after_first(head);
        lemma_frames_after_first(head + tail);
        lemma_framing_appends(rest, tail);
        assert((head + tail).skip(FRAME as int) =~= rest + tail);
        assert((head + tail).subrange(0, FRAME as int) =~= head.subrange(0, FRAME as int));
        let later = whole_frames(after_frames(head) + tail);
        assert(whole_frames(head + tail) =~= whole_frames(head) + later) by {
            assert(whole_frames(head + tail) =~= seq![whole_frames(head).first()] + whole_frames(
                rest + tail,
            ));
            assert(whole_frames(head) =~= seq![whole_frames(head).first()] + whole_frames(rest));
        }
    }
}

/// The first channel is every sample that starts a group of one sample per channel,
/// the last group included though it may be short; with one channel or none it is
/// all there is.
pub proof fn first_channel_is_the_first_of_each_group<T>(data: Seq<T>, channels: nat)
    ensures
        channels <= 1 ==> first_channel(data, channels) == data,
        channels > 1 ==> {
            let mono = first_channel(data, channels);
            &&& data.len() <= mono.len() * channels < data.len() + channels
            &&& forall|i: int|
                0 <= i < mono.len() ==> #[trigger] mono[i] == data[i * channels]
        },
{
    if channels > 1 {
        let top = data.len() + channels - 1;
        let n = top / channels as int;
        lemma_fundamental_div_mod(top, channels as int);
        assert(channels * n == n * channels) by (nonlinear_arith);
    }
}

} // verus!
