//! The samples that the scope shows: a buffer that keeps the newest, and the synthetic source
//! that fills it when no Pico does.

use std::collections::VecDeque;
use vstd::prelude::*;

verus! {

/// How many samples come in a second.
pub const SAMPLE_RATE_HZ: u32 = 16_000;

/// How many samples the buffer keeps: five seconds of them.
pub const BUF_LEN: usize = 80_000;

/// The newest `BUF_LEN` of the samples `s`, in order; all of them where there are no more.
pub open spec fn newest<T>(s: Seq<T>) -> Seq<T> {
    if s.len() <= BUF_LEN {
        s
    } else {
        s.skip(s.len() - BUF_LEN)
    }
}

/// The newest samples, oldest first.
pub struct SharedSamples<T> {
    samples: VecDeque<T>,
}

impl<T> View for SharedSamples<T> {
    type V = Seq<T>;

    closed spec fn view(&self) -> Seq<T> {
        self.samples@
    }
}

impl<T> SharedSamples<T> {
    /// No more than `BUF_LEN` samples.
    pub open spec fn wf(&self) -> bool {
        self@.len() <= BUF_LEN
    }

    /// An empty buffer.
    pub fn new() -> (res: Self)
        ensures
            res.wf(),
            res@ == Seq::<T>::empty(),
    {
        SharedSamples { samples: VecDeque::with_capacity(BUF_LEN) }
    }

    /// The number of samples.
    pub fn len(&self) -> (res: usize)
        ensures
            res == self@.len(),
    {
        self.samples.len()
    }

    /// Appends a sample. The oldest makes room for it when the buffer is full.
    pub fn push(&mut self, y: T)
        requires
            old(self).wf(),
        ensures
            final(self).wf(),
            final(self)@ == newest(old(self)@.push(y)),
    {
        if self.samples.len() == BUF_LEN {
            let _ = self.samples.pop_front();
        }
        self.samples.push_back(y);
        assert(self@ == newest(old(self)@.push(y)));
    }
}

impl<T: Copy> SharedSamples<T> {
    /// Appends all the samples of a batch, in order.
    pub fn push_batch(&mut self, batch: &Vec<T>)
        requires
            old(self).wf(),
        ensures
            final(self).wf(),
            final(self)@ == newest(old(self)@ + batch@),
    {
        let mut k: usize = 0;
        assert(old(self)@ + batch@.take(0) == old(self)@);
        while k < batch.len()
            invariant
                k <= batch.len(),
                self.wf(),
                self@ == newest(old(self)@ + batch@.take(k as int)),
            decreases batch.len() - k,
        {
            proof {
                buffering_in_steps(old(self)@ + batch@.take(k as int), seq![batch@[k as int]]);
                assert(self@.push(batch@[k as int]) == self@ + seq![batch@[k as int]]);
                assert(old(self)@ + batch@.take(k as int) + seq![batch@[k as int]] == old(self)@
                    + batch@.take(k + 1));
            }
            self.push(batch[k]);
            k += 1;
        }
        assert(batch@.take(k as int) == batch@);
    }

    /// A copy of the samples, oldest first.
    pub fn take_snapshot(&self) -> (res: Vec<T>)
        ensures
            res@ == self@,
    {
        let n: usize = self.samples.len();
        let mut res: Vec<T> = Vec::with_capacity(n);
        let mut k: usize = 0;
        while k < n
            invariant
                k <= n == self@.len(),
                res@ == self@.take(k as int),
            decreases n - k,
        {
            res.push(self.samples[k]);
            k += 1;
            assert(self@.take(k as int) == self@.take(k - 1).push(self@[k - 1]));
        }
        assert(self@.take(n as int) == self@);
        res
    }
}

/// Keeping the newest after each part comes to the same as keeping the newest of everything.
pub proof fn buffering_in_steps<T>(a: Seq<T>, b: Seq<T>)
    ensures
        newest(newest(a) + b) == newest(a + b),
{
}

/// How many samples a source owes that has emitted `emitted` and should have emitted `target`.
pub open spec fn owed(emitted: u64, target: u64) -> nat {
    if target > emitted {
        ((target - emitted) as u64 as usize) as nat
    } else {
        0
    }
}

/// `fresh` holds what `synth` gives for the numbers after `emitted`, in order.
pub open spec fn numbered_from<T, F: Fn(u64) -> T>(
    synth: F,
    emitted: int,
    fresh: Seq<T>,
) -> bool {
    forall|k: int|
        0 <= k < fresh.len() ==> call_ensures(synth, ((emitted + 1 + k) as u64,), #[trigger] fresh[k])
}

/// A source that makes up its samples: the one with number `i` is the value of a function at `i`.
pub struct SynthSource {
    emitted: u64,
}

impl SynthSource {
    /// How many samples were emitted, those of a pause included.
    pub closed spec fn emitted(&self) -> u64 {
        self.emitted
    }

    /// A source that has emitted nothing.
    pub fn new() -> (res: Self)
        ensures
            res.emitted() == 0,
    {
        SynthSource { emitted: 0 }
    }

    /// How many samples were emitted, those of a pause included.
    pub fn samples_emitted_count(&self) -> (res: u64)
        ensures
            res == self.emitted(),
    {
        self.emitted
    }

    /// Emits the samples up to number `target`. While the scope is stopped they are counted
    /// and not kept.
    pub fn pump_synth<T, F: Fn(u64) -> T>(
        &mut self,
        buffer: &mut SharedSamples<T>,
        target: u64,
        running: bool,
        synth: F,
    )
        requires
            old(buffer).wf(),
            forall|i: u64| old(self).emitted() < i <= target ==> call_requires(synth, (i,)),
        ensures
            final(buffer).wf(),
            final(self).emitted() == if target > old(self).emitted() {
                target
            } else {
                old(self).emitted()
            },
            !running ==> final(buffer)@ == old(buffer)@,
            running ==> exists|fresh: Seq<T>|
                {
                    &&& fresh.len() == owed(old(self).emitted(), target)
                    &&& numbered_from(synth, old(self).emitted() as int, fresh)
                    &&& final(buffer)@ == #[trigger] newest(old(buffer)@ + fresh)
                },
    {
        let ghost mut fresh: Seq<T> = Seq::empty();
        assert(old(buffer)@ + fresh == old(buffer)@);
        if target > self.emitted {
            let batch: usize = (target - self.emitted) as usize;
            if running {
                let owing: u64 = target - self.emitted;
                assert(owing as usize as u64 <= owing) by (bit_vector);
                let mut k: usize = 0;
                while k < batch
                    invariant
                        k <= batch,
                        self.emitted == old(self).emitted,
                        self.emitted + batch <= target,
                        forall|i: u64| self.emitted < i <= target ==> call_requires(synth, (i,)),
                        buffer.wf(),
                        fresh.len() == k,
                        numbered_from(synth, self.emitted as int, fresh),
                        buffer@ == newest(old(buffer)@ + fresh),
                    decreases batch - k,
                {
                    let i: u64 = self.emitted + 1 + k as u64;
                    let y = synth(i);
                    proof {
                        buffering_in_steps(old(buffer)@ + fresh, seq![y]);
                        assert(buffer@.push(y) == buffer@ + seq![y]);
                        assert(old(buffer)@ + fresh + seq![y] == old(buffer)@ + fresh.push(y));
                        fresh = fresh.push(y);
                    }
                    buffer.push(y);
                    k += 1;
                }
            }
            self.emitted = target;
        }
        assert(running ==> fresh.len() == owed(old(self).emitted(), target) && numbered_from(
            synth,
            old(self).emitted() as int,
            fresh,
        ) && buffer@ == newest(old(buffer)@ + fresh));
    }
}

/// The numbering has no gaps: what one pump to `middle` and another to `target` emit is,
/// together, what a single pump to `target` emits, and the buffer ends up the same.
pub proof fn pumping_in_steps<T, F: Fn(u64) -> T>(
    synth: F,
    emitted: u64,
    middle: u64,
    target: u64,
    buffer: Seq<T>,
    first: Seq<T>,
    second: Seq<T>,
)
    requires
        emitted <= middle <= target,
        target - emitted <= usize::MAX,
        first.len() == owed(emitted, middle),
        numbered_from(synth, emitted as int, first),
        second.len() == owed(middle, target),
        numbered_from(synth, middle as int, second),
    ensures
        (first + second).len() == owed(emitted, target),
        numbered_from(synth, emitted as int, first + second),
        newest(newest(buffer + first) + second) == newest(buffer + (first + second)),
{
    assert(first.len() == middle - emitted);
    let both = first + second;
    assert forall|k: int| 0 <= k < both.len() implies call_ensures(
        synth,
        ((emitted + 1 + k) as u64,),
        #[trigger] both[k],
    ) by {
        if k < first.len() {
            assert(both[k] == first[k]);
        } else {
            assert(both[k] == second[k - first.len()]);
        }
    }
    buffering_in_steps(buffer + first, second);
    assert(buffer + first + second == buffer + (first + second));
}

/// Of up to 80000 samples all are kept, and of more the last 80000, in order.
pub proof fn newest_samples_are_kept<T>(s: Seq<T>, i: int)
    ensures
        s.len() <= 80_000 ==> newest(s) == s,
        s.len() > 80_000 ==> newest(s).len() == 80_000,
        0 <= i < newest(s).len() ==> newest(s)[i] == s[s.len() - newest(s).len() + i],
{
}

/// A source owes what it lacks, as far as the machine can count it, and nothing once it is there.
pub proof fn owed_is_what_is_lacking(emitted: u64, target: u64)
    ensures
        emitted >= target ==> owed(emitted, target) == 0,
        emitted < target && target - emitted <= usize::MAX ==> owed(emitted, target) == target
            - emitted,
{
}

/// The samples after `emitted` are numbered from the next number on, without a gap.
pub proof fn fresh_samples_have_their_numbers<T, F: Fn(u64) -> T>(
    synth: F,
    emitted: u64,
    fresh: Seq<T>,
    number: u64,
)
    requires
        numbered_from(synth, emitted as int, fresh),
        emitted < number <= emitted + fresh.len(),
    ensures
        call_ensures(synth, (number,), fresh[number - emitted - 1]),
{
    let k = number - emitted - 1;
    let y = fresh[k];
    assert((emitted + 1 + k) as u64 == number);
    assert(call_ensures(synth, ((emitted + 1 + k) as u64,), y));
}

/// After a pump to `target` the newest sample is that with the number `target`, and the one before
/// it, as far as the pump goes back, that with the number before.
pub proof fn buffer_ends_at_the_target<T, F: Fn(u64) -> T>(
    synth: F,
    emitted: u64,
    target: u64,
    buffer: Seq<T>,
    fresh: Seq<T>,
    back: u64,
)
    requires
        emitted < target,
        target - emitted <= usize::MAX,
        fresh.len() == owed(emitted, target),
        numbered_from(synth, emitted as int, fresh),
        back < target - emitted,
        back < 80_000,
    ensures
        ({
            let kept = newest(buffer + fresh);
            &&& back < kept.len()
            &&& call_ensures(synth, ((target - back) as u64,), kept[kept.len() - 1 - back])
        }),
{
    fresh_samples_have_their_numbers(synth, emitted, fresh, (target - back) as u64);
}

} // verus!
