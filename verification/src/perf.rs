//! Timings of the last frames.

use vstd::prelude::*;

verus! {

/// How many timings the ring holds.
pub const PERF_LEN: usize = 60;

/// A ring of the last `PERF_LEN` timings.
pub struct PerfRing<T> {
    samples: [T; 60],
    head: usize,
    filled: usize,
}

/// The last `PERF_LEN` of the timings `s`, in order.
pub open spec fn last_timings<T>(s: Seq<T>) -> Seq<T> {
    if s.len() <= PERF_LEN {
        s
    } else {
        s.skip(s.len() - PERF_LEN)
    }
}

impl<T: Copy> PerfRing<T> {
    /// The ring fills up from its first slot, and goes round once it is full.
    pub closed spec fn wf(&self) -> bool {
        &&& self.head < PERF_LEN
        &&& self.filled <= PERF_LEN
        &&& self.filled < PERF_LEN ==> self.head == self.filled
    }

    /// The slot where the oldest timing stands.
    pub closed spec fn oldest(&self) -> int {
        if self.filled < PERF_LEN {
            0
        } else {
            self.head as int
        }
    }

    /// The slots in use, in the order in which they stand in the ring.
    pub closed spec fn slots(&self) -> Seq<T> {
        self.samples@.take(self.filled as int)
    }

    /// The timings, oldest first.
    pub open spec fn timings(&self) -> Seq<T> {
        self.slots().skip(self.oldest()) + self.slots().take(self.oldest())
    }

    /// An empty ring; `zero` stands in the slots that are not in use.
    pub fn new(zero: T) -> (res: Self)
        ensures
            res.wf(),
            res.timings() == Seq::<T>::empty(),
            res.oldest() == 0,
    {
        PerfRing { samples: [zero; 60], head: 0, filled: 0 }
    }

    /// Adds a timing. It takes the slot of the oldest once the ring is full.
    pub fn push(&mut self, x: T)
        requires
            old(self).wf(),
        ensures
            final(self).wf(),
            final(self).timings() == last_timings(old(self).timings().push(x)),
            final(self).oldest() == if old(self).timings().len() < PERF_LEN {
                0
            } else {
                (old(self).oldest() + 1) % PERF_LEN as int
            },
    {
        self.samples[self.head] = x;
        self.head = (self.head + 1) % PERF_LEN;
        self.filled = if self.filled + 1 < PERF_LEN {
            self.filled + 1
        } else {
            PERF_LEN
        };
        assert(self.timings() == last_timings(old(self).timings().push(x)));
    }

    /// The timings over which a mean is taken, in the order of their slots.
    pub fn live(&self) -> (res: Vec<T>)
        requires
            self.wf(),
        ensures
            res@ == self.slots(),
            res.len() <= PERF_LEN,
            0 <= self.oldest() <= res.len(),
            res.len() < PERF_LEN ==> self.oldest() == 0,
            self.timings() == res@.skip(self.oldest()) + res@.take(self.oldest()),
            res@.to_multiset() == self.timings().to_multiset(),
    {
        let mut res: Vec<T> = Vec::with_capacity(self.filled);
        let mut k: usize = 0;
        while k < self.filled
            invariant
                self.wf(),
                k <= self.filled,
                res@ == self.samples@.take(k as int),
            decreases self.filled - k,
        {
            res.push(self.samples[k]);
            k += 1;
            assert(self.samples@.take(k as int) == self.samples@.take(k - 1).push(
                self.samples@[k - 1],
            ));
        }
        proof {
            let a = self.slots().take(self.oldest());
            let b = self.slots().skip(self.oldest());
            assert(self.slots() == a + b);
            vstd::seq_lib::lemma_multiset_commutative(a, b);
            vstd::seq_lib::lemma_multiset_commutative(b, a);
        }
        res
    }

    /// The mean of the timings, as `average` takes it over `live()`; `zero` where there are none.
    pub fn mean<F: FnOnce(&Vec<T>) -> T>(&self, zero: T, average: F) -> (res: T)
        requires
            self.wf(),
            forall|v: Vec<T>|
                v@.len() > 0 && v@ == self.slots() ==> call_requires(average, (&v,)),
        ensures
            self.timings().len() == 0 ==> res == zero,
            self.timings().len() > 0 ==> exists|v: Vec<T>|
                {
                    &&& v@ == self.slots()
                    &&& v@.to_multiset() == self.timings().to_multiset()
                    &&& #[trigger] call_ensures(average, (&v,), res)
                },
    {
        if self.filled == 0 {
            return zero;
        }
        let v = self.live();
        average(&v)
    }
}

/// Of up to 60 timings all are kept, and of more the last 60, in order.
pub proof fn last_timings_are_kept<T>(s: Seq<T>, i: int)
    ensures
        s.len() <= 60 ==> last_timings(s) == s,
        s.len() > 60 ==> last_timings(s).len() == 60,
        0 <= i < last_timings(s).len() ==> last_timings(s)[i] == s[s.len() - last_timings(s).len()
            + i],
{
}

} // verus!
