//! Everything about the spectrum but its arithmetic: sizes, caches, jobs and results.

use crate::samples::BUF_LEN;
use std::collections::HashMap;
use vstd::arithmetic::power2::{
    lemma2_to64, lemma_pow2_adds, lemma_pow2_pos, lemma_pow2_strictly_increases, lemma_pow2_unfold,
    pow2,
};
use vstd::prelude::*;

verus! {

/// The fewest samples of which a spectrum is computed.
pub const MIN_SPECTRUM: usize = 16;

/// The smallest power of two that is at least `n`.
pub open spec fn padded(n: nat) -> nat
    decreases n,
{
    if n <= 1 {
        1
    } else {
        2 * padded((n + 1) / 2)
    }
}

/// `padded` gives a power of two that is at least `n`, and no smaller one is; it is less than
/// twice `n`.
pub proof fn padding_is_tight(n: nat)
    ensures
        n <= padded(n),
        exists|k: nat| padded(n) == #[trigger] pow2(k),
        forall|k: nat| n <= #[trigger] pow2(k) ==> padded(n) <= pow2(k),
        n >= 1 ==> padded(n) < 2 * n,
    decreases n,
{
    lemma2_to64();
    if n <= 1 {
        assert(padded(n) == pow2(0));
        assert forall|k: nat| n <= #[trigger] pow2(k) implies padded(n) <= pow2(k) by {
            lemma_pow2_pos(k);
        }
    } else {
        let half = (n + 1) / 2;
        padding_is_tight(half);
        let k = choose|k: nat| padded(half) == #[trigger] pow2(k);
        lemma_pow2_unfold(k + 1);
        assert(padded(n) == pow2(k + 1));
        assert forall|j: nat| n <= #[trigger] pow2(j) implies padded(n) <= pow2(j) by {
            if j > 0 {
                lemma_pow2_unfold(j);
                assert(half <= pow2((j - 1) as nat));
            }
        }
    }
}

/// The smallest power of two that is at least `n`.
pub fn next_power_of_two(n: usize) -> (res: usize)
    requires
        n <= usize::MAX / 2 + 1,
    ensures
        res == padded(n as nat),
{
    let mut p: usize = 1;
    let ghost mut e: nat = 0;
    proof {
        lemma2_to64();
        padding_is_tight(n as nat);
    }
    let ghost k = choose|k: nat| padded(n as nat) == #[trigger] pow2(k);
    proof {
        lemma_pow2_pos(k);
    }
    while p < n
        invariant
            n <= usize::MAX / 2 + 1,
            1 <= p == pow2(e),
            p <= padded(n as nat),
            n <= padded(n as nat) == pow2(k),
        decreases padded(n as nat) - p,
    {
        proof {
            lemma_pow2_unfold(e + 1);
            if k <= e {
                if k < e {
                    lemma_pow2_strictly_increases(k, e);
                }
            } else if k > e + 1 {
                lemma_pow2_strictly_increases(e + 1, k);
            }
            e = e + 1;
        }
        p = p * 2;
    }
    assert(padded(n as nat) <= pow2(e));
    p
}

/// The sizes of one transform: the samples that go in, the length to which they are padded
/// with zeros, and the frequencies that come out.
#[derive(Clone, Copy, Debug, PartialEq, Eq, Structural)]
pub struct FftPlan {
    pub n: usize,
    pub n_pad: usize,
    pub bins: usize,
}

/// The sizes of the transform of `n` samples.
pub open spec fn plan_of(n: usize) -> FftPlan {
    let n_pad = padded(n as nat) as usize;
    FftPlan { n, n_pad, bins: (n_pad / 2 + 1) as usize }
}

/// The sizes of the transform of `n` samples; nothing for too few samples.
pub fn fft_plan(n: usize) -> (res: Option<FftPlan>)
    requires
        n <= usize::MAX / 2 + 1,
    ensures
        res == if n < MIN_SPECTRUM {
            None
        } else {
            Some(plan_of(n))
        },
        res matches Some(plan) ==> plan.n_pad == padded(n as nat),
{
    if n < MIN_SPECTRUM {
        return None;
    }
    let n_pad: usize = next_power_of_two(n);
    Some(FftPlan { n, n_pad, bins: n_pad / 2 + 1 })
}

/// The key of a frequency axis in its cache: the padded length in the upper half, the encoding
/// of the sample rate in the lower.
pub open spec fn axis_key(n_pad: usize, fs: u32) -> u64 {
    ((n_pad as u64) << 32) | (fs as u64)
}

/// Two axes share a key only if they are the same, for lengths below two to the power of 32.
pub proof fn axis_keys_differ(n1: usize, fs1: u32, n2: usize, fs2: u32)
    requires
        n1 <= u32::MAX,
        n2 <= u32::MAX,
        axis_key(n1, fs1) == axis_key(n2, fs2),
    ensures
        n1 == n2,
        fs1 == fs2,
{
    let (a, b) = (n1 as u64, n2 as u64);
    let (f, g) = (fs1 as u64, fs2 as u64);
    assert(a == b && f == g) by (bit_vector)
        requires
            a <= 0xFFFF_FFFF,
            b <= 0xFFFF_FFFF,
            f <= 0xFFFF_FFFF,
            g <= 0xFFFF_FFFF,
            (a << 32) | f == (b << 32) | g,
    ;
}

/// The lengths whose axes do not get in the way of others: those below two to the power of 32,
/// and its multiples, of which the key holds nothing.
pub open spec fn keeps_apart(n_pad: usize) -> bool {
    n_pad <= u32::MAX || n_pad as int % 0x1_0000_0000 == 0
}

/// The key of a multiple of two to the power of 32 is that of no length below, but zero.
proof fn lemma_wide_keys(n_pad: usize, fs: u32, n: usize, f: u32)
    requires
        n_pad as int % 0x1_0000_0000 == 0,
        0 < n <= u32::MAX,
    ensures
        axis_key(n_pad, fs) != axis_key(n, f),
{
    let (a, b) = (n_pad as u64, n as u64);
    let (x, y) = (fs as u64, f as u64);
    assert((a << 32) | x != (b << 32) | y) by (bit_vector)
        requires
            a % 0x1_0000_0000 == 0,
            0 < b <= 0xFFFF_FFFF,
            x <= 0xFFFF_FFFF,
            y <= 0xFFFF_FFFF,
    ;
}

/// Every padded length keeps apart.
pub proof fn padded_lengths_keep_apart(n: usize)
    requires
        n <= usize::MAX / 2 + 1,
    ensures
        plan_of(n).n_pad == padded(n as nat),
        0 < plan_of(n).n_pad,
        keeps_apart(plan_of(n).n_pad),
{
    lemma2_to64();
    padding_is_tight(n as nat);
    let p = padded(n as nat);
    let k = choose|k: nat| p == #[trigger] pow2(k);
    lemma_pow2_pos(k);
    assert(p <= usize::MAX) by {
        lemma_pow2_unfold(64);
        assert(n <= pow2(31) || n <= pow2(63));
    }
    if p > u32::MAX {
        if k < 32 {
            lemma_pow2_strictly_increases(k, 32);
        }
        lemma_pow2_adds(32, (k - 32) as nat);
        let q = pow2((k - 32) as nat);
        assert((0x1_0000_0000 * q) % 0x1_0000_0000 == 0) by (nonlinear_arith);
    }
}

/// An axis of the length `m` at the rate `g` is kept under the key of another, that of the length
/// `n` at the rate `fs`.
pub open spec fn takes_key_of(m: usize, g: u32, n: usize, fs: u32) -> bool {
    axis_key(m, g) == axis_key(n, fs) && !(m == n && g == fs)
}

/// Only a call with more than two to the power of 31 samples takes the key of another, and only
/// that of one with as many, at the same rate, and of another padded length.
pub proof fn only_long_calls_take_keys(m: usize, g: u32, n: usize, fs: u32)
    requires
        m <= usize::MAX / 2 + 1,
        n <= usize::MAX / 2 + 1,
        takes_key_of(plan_of(m).n_pad, g, plan_of(n).n_pad, fs),
    ensures
        m > 0x8000_0000,
        n > 0x8000_0000,
        g == fs,
        padded(m as nat) != padded(n as nat),
        n <= u32::MAX ==> m as int > 0x1_0000_0000,
{
    let (p, q) = (plan_of(m).n_pad, plan_of(n).n_pad);
    padded_lengths_keep_apart(m);
    padded_lengths_keep_apart(n);
    lemma2_to64();
    padding_is_tight(m as nat);
    padding_is_tight(n as nat);
    assert(m <= 0x8000_0000 ==> padded(m as nat) <= pow2(31));
    assert(n <= 0x8000_0000 ==> padded(n as nat) <= pow2(31));
    assert(m as int <= 0x1_0000_0000 ==> padded(m as nat) <= pow2(32));
    assert(n <= u32::MAX ==> padded(n as nat) <= pow2(32));
    if p <= u32::MAX && q <= u32::MAX {
        axis_keys_differ(p, g, q, fs);
    } else if p <= u32::MAX {
        lemma_wide_keys(q, fs, p, g);
    } else if q <= u32::MAX {
        lemma_wide_keys(p, g, q, fs);
    }
    let (a, b) = (p as u64, q as u64);
    let (x, y) = (g as u64, fs as u64);
    assert(x == y) by (bit_vector)
        requires
            a % 0x1_0000_0000 == 0,
            b % 0x1_0000_0000 == 0,
            (a << 32) | x == (b << 32) | y,
    ;
}

/// A spectrum: the number of its job, its sizes, and the curves themselves.
pub struct FftResult<D> {
    pub seq: u64,
    pub n: usize,
    pub n_pad: usize,
    pub data: D,
}

/// The samples of one buffer are few enough for their axes to be told apart.
pub proof fn buffer_lengths_are_told_apart(n: usize)
    requires
        n <= BUF_LEN,
    ensures
        plan_of(n).n_pad == padded(n as nat),
        0 < plan_of(n).n_pad <= u32::MAX,
{
    padding_is_tight(n as nat);
}

/// What a call with these arguments may bring, whatever was computed before it: the window and
/// the axis are made for the sizes at hand, and the curve is the transform's.
pub open spec fn is_outcome<
    W,
    A,
    F: Fn(usize) -> W,
    G: Fn(usize, u32) -> A,
    M,
    T: FnOnce(FftPlan, &W) -> Option<M>,
>(
    make_window: F,
    make_axis: G,
    transform: T,
    n: usize,
    fs: u32,
    seq: u64,
    res: Option<(FftResult<M>, &A)>,
) -> bool {
    if n < MIN_SPECTRUM {
        res is None
    } else {
        exists|w: W, made: Option<M>|
            {
                &&& call_ensures(make_window, (n,), w)
                &&& #[trigger] call_ensures(transform, (plan_of(n), &w), made)
                &&& match (made, res) {
                    (Some(curve), Some((result, axis))) => {
                        &&& result == FftResult { seq, n, n_pad: plan_of(n).n_pad, data: curve }
                        &&& call_ensures(make_axis, (plan_of(n).n_pad, fs), *axis)
                    },
                    (None, None) => true,
                    _ => false,
                }
            }
    }
}

/// What was computed before never shows: where the window, the axis and the transform depend on
/// their arguments alone, two calls with the same arguments bring the same, on one computer or
/// on two, and whatever was kept. (`compute` brings an outcome wherever the axis that is kept for
/// it, if one is, is true.)
pub proof fn earlier_calls_do_not_show<
    W,
    A,
    F: Fn(usize) -> W,
    G: Fn(usize, u32) -> A,
    M,
    T: FnOnce(FftPlan, &W) -> Option<M>,
>(
    make_window: F,
    make_axis: G,
    transform: T,
    n: usize,
    fs: u32,
    seq: u64,
    one: Option<(FftResult<M>, &A)>,
    other: Option<(FftResult<M>, &A)>,
)
    requires
        forall|a: W, b: W|
            call_ensures(make_window, (n,), a) && call_ensures(make_window, (n,), b) ==> a == b,
        forall|a: A, b: A|
            call_ensures(make_axis, (plan_of(n).n_pad, fs), a) && call_ensures(
                make_axis,
                (plan_of(n).n_pad, fs),
                b,
            ) ==> a == b,
        forall|w: W, a: Option<M>, b: Option<M>|
            call_ensures(transform, (plan_of(n), &w), a) && call_ensures(
                transform,
                (plan_of(n), &w),
                b,
            ) ==> a == b,
        is_outcome(make_window, make_axis, transform, n, fs, seq, one),
        is_outcome(make_window, make_axis, transform, n, fs, seq, other),
    ensures
        one == other,
{
}

/// What transforms of the same size share, made once and kept: the window of each number of
/// samples, and the frequency axis of each padded length and sample rate.
pub struct FftComputer<W, A, F, G> {
    hann_cache: HashMap<u64, W>,
    freq_cache: HashMap<u64, A>,
    make_window: F,
    make_axis: G,
}

impl<W, A, F: Fn(usize) -> W, G: Fn(usize, u32) -> A> FftComputer<W, A, F, G> {
    pub closed spec fn windows(&self) -> Map<u64, W> {
        self.hann_cache@
    }

    pub closed spec fn axes(&self) -> Map<u64, A> {
        self.freq_cache@
    }

    pub closed spec fn make_window(&self) -> F {
        self.make_window
    }

    pub closed spec fn make_axis(&self) -> G {
        self.make_axis
    }

    /// The makers accept whatever size they are asked for, and each window that is kept was
    /// made for the size under which it is kept.
    pub open spec fn wf(&self) -> bool {
        &&& forall|n: usize| call_requires(self.make_window(), (n,))
        &&& forall|n: usize, fs: u32| call_requires(self.make_axis(), (n, fs))
        &&& forall|n: usize| #[trigger] self.window_is_true(n)
    }

    /// If a window is kept for `n` samples, it was made for `n` samples.
    pub open spec fn window_is_true(&self, n: usize) -> bool {
        self.windows().contains_key(n as u64) ==> call_ensures(
            self.make_window(),
            (n,),
            self.windows()[n as u64],
        )
    }

    /// If an axis is kept under the key of this length and rate, it was made for them.
    pub open spec fn axis_is_true(&self, n_pad: usize, fs: u32) -> bool {
        self.axes().contains_key(axis_key(n_pad, fs)) ==> call_ensures(
            self.make_axis(),
            (n_pad, fs),
            self.axes()[axis_key(n_pad, fs)],
        )
    }

    /// Each axis that is kept was made for the length and the rate under which it is kept, for
    /// lengths from one to below two to the power of 32.
    pub open spec fn axes_are_true(&self) -> bool {
        forall|n: usize, fs: u32| 0 < n <= u32::MAX ==> #[trigger] self.axis_is_true(n, fs)
    }

    /// `after` is what a call with `n` samples at the rate `fs` may leave: the makers stay, and
    /// so does every true axis whose key the call does not take for another.
    pub open spec fn may_become(&self, n: usize, fs: u32, after: Self) -> bool {
        &&& after.make_window() == self.make_window()
        &&& after.make_axis() == self.make_axis()
        &&& forall|m: usize, f: u32|
            self.axis_is_true(m, f) && !takes_key_of(plan_of(n).n_pad, fs, m, f)
                ==> #[trigger] after.axis_is_true(m, f)
    }

    /// `res` is what a call with these arguments may bring: an outcome, unless the axis that is
    /// kept for it was made for another.
    pub open spec fn may_bring<M, T: FnOnce(FftPlan, &W) -> Option<M>>(
        &self,
        transform: T,
        n: usize,
        fs: u32,
        seq: u64,
        res: Option<(FftResult<M>, &A)>,
    ) -> bool {
        self.axis_is_true(plan_of(n).n_pad, fs) ==> is_outcome(
            self.make_window(),
            self.make_axis(),
            transform,
            n,
            fs,
            seq,
            res,
        )
    }

    /// Nothing is kept yet.
    pub fn new(make_window: F, make_axis: G) -> (res: Self)
        requires
            forall|n: usize| call_requires(make_window, (n,)),
            forall|n: usize, fs: u32| call_requires(make_axis, (n, fs)),
        ensures
            res.wf(),
            res.axes_are_true(),
            res.make_window() == make_window,
            res.make_axis() == make_axis,
            res.windows() == Map::<u64, W>::empty(),
            res.axes() == Map::<u64, A>::empty(),
    {
        FftComputer { hann_cache: HashMap::new(), freq_cache: HashMap::new(), make_window, make_axis }
    }

    /// The window of `n` samples, as `make_window` makes it; it is made on the first call only.
    pub fn window(&mut self, n: usize) -> (res: &W)
        requires
            old(self).wf(),
        ensures
            final(self).wf(),
            final(self).make_window() == old(self).make_window(),
            final(self).make_axis() == old(self).make_axis(),
            final(self).axes() == old(self).axes(),
            call_ensures(old(self).make_window(), (n,), *res),
            ({
                let (kept, now) = (old(self).windows(), final(self).windows());
                if kept.contains_key(n as u64) {
                    now == kept && *res == kept[n as u64]
                } else {
                    now == kept.insert(n as u64, *res)
                }
            }),
    {
        broadcast use vstd::std_specs::hash::group_hash_axioms;

        let key: u64 = n as u64;
        if !self.hann_cache.contains_key(&key) {
            assert(call_requires(self.make_window(), (n,)));
            let made = (self.make_window)(n);
            self.hann_cache.insert(key, made);
        }
        proof {
            assert forall|m: usize| #[trigger] self.window_is_true(m) by {
                assert(old(self).window_is_true(m));
            }
            assert forall|m: usize, fs: u32| call_requires(self.make_axis(), (m, fs)) by {
                assert(call_requires(old(self).make_axis(), (m, fs)));
            }
            assert forall|m: usize| call_requires(self.make_window(), (m,)) by {
                assert(call_requires(old(self).make_window(), (m,)));
            }
            assert(self.window_is_true(n));
        }
        self.hann_cache.get(&key).unwrap()
    }

    /// The frequency axis of a padded length and a sample rate; it is made on the first call
    /// with their key only.
    pub fn axis(&mut self, n_pad: usize, fs: u32) -> (res: &A)
        requires
            old(self).wf(),
        ensures
            final(self).wf(),
            final(self).make_window() == old(self).make_window(),
            final(self).make_axis() == old(self).make_axis(),
            final(self).windows() == old(self).windows(),
            ({
                let key = axis_key(n_pad, fs);
                let (kept, now) = (old(self).axes(), final(self).axes());
                if kept.contains_key(key) {
                    now == kept && *res == kept[key]
                } else {
                    &&& now == kept.insert(key, *res)
                    &&& call_ensures(old(self).make_axis(), (n_pad, fs), *res)
                }
            }),
            old(self).axes_are_true() && keeps_apart(n_pad) ==> final(self).axes_are_true(),
            old(self).axis_is_true(n_pad, fs) ==> call_ensures(
                old(self).make_axis(),
                (n_pad, fs),
                *res,
            ),
    {
        broadcast use vstd::std_specs::hash::group_hash_axioms;

        let key: u64 = ((n_pad as u64) << 32) | (fs as u64);
        assert(key == axis_key(n_pad, fs));
        if !self.freq_cache.contains_key(&key) {
            assert(call_requires(self.make_axis(), (n_pad, fs)));
            let made = (self.make_axis)(n_pad, fs);
            self.freq_cache.insert(key, made);
        }
        proof {
            assert forall|m: usize| #[trigger] self.window_is_true(m) by {
                assert(old(self).window_is_true(m));
            }
            assert forall|m: usize, f: u32| call_requires(self.make_axis(), (m, f)) by {
                assert(call_requires(old(self).make_axis(), (m, f)));
            }
            assert forall|m: usize| call_requires(self.make_window(), (m,)) by {
                assert(call_requires(old(self).make_window(), (m,)));
            }
            if old(self).axes_are_true() && keeps_apart(n_pad) {
                assert forall|n: usize, f: u32| 0 < n <= u32::MAX implies #[trigger] self.axis_is_true(
                    n,
                    f,
                ) by {
                    assert(old(self).axis_is_true(n, f));
                    if axis_key(n, f) == key {
                        if n_pad <= u32::MAX {
                            axis_keys_differ(n, f, n_pad, fs);
                        } else {
                            lemma_wide_keys(n_pad, fs, n, f);
                        }
                    }
                }
            }
        }
        self.freq_cache.get(&key).unwrap()
    }

    /// Computes the spectrum of `n` samples at the rate `fs`: `transform` gets the sizes and the
    /// window, and makes the curve of the spectrum or fails. There is no spectrum of too few
    /// samples, and `transform` is not asked for one.
    pub fn compute<M, T: FnOnce(FftPlan, &W) -> Option<M>>(
        &mut self,
        n: usize,
        fs: u32,
        seq: u64,
        transform: T,
    ) -> (res: Option<(FftResult<M>, &A)>)
        requires
            old(self).wf(),
            n <= usize::MAX / 2 + 1,
            forall|w: W|
                call_ensures(old(self).make_window(), (n,), w) ==> call_requires(
                    transform,
                    (plan_of(n), &w),
                ),
        ensures
            final(self).wf(),
            final(self).make_window() == old(self).make_window(),
            final(self).make_axis() == old(self).make_axis(),
            old(self).axes_are_true() ==> final(self).axes_are_true(),
            old(self).may_become(n, fs, *final(self)),
            old(self).may_bring(transform, n, fs, seq, res),
            old(self).axes_are_true() && plan_of(n).n_pad <= u32::MAX ==> is_outcome(
                old(self).make_window(),
                old(self).make_axis(),
                transform,
                n,
                fs,
                seq,
                res,
            ),
            n < MIN_SPECTRUM ==> {
                &&& res is None
                &&& final(self).windows() == old(self).windows()
                &&& final(self).axes() == old(self).axes()
            },
            n >= MIN_SPECTRUM ==> exists|w: W, made: Option<M>|
                {
                    &&& call_ensures(old(self).make_window(), (n,), w)
                    &&& final(self).windows() == old(self).windows().insert(n as u64, w)
                    &&& #[trigger] call_ensures(transform, (plan_of(n), &w), made)
                    &&& match (made, res) {
                        (Some(curve), Some((result, axis))) => {
                            &&& result == FftResult {
                                seq,
                                n,
                                n_pad: plan_of(n).n_pad,
                                data: curve,
                            }
                            &&& final(self).axes() == old(self).axes().insert(
                                axis_key(plan_of(n).n_pad, fs),
                                *axis,
                            )
                            &&& if old(self).axes().contains_key(axis_key(plan_of(n).n_pad, fs)) {
                                *axis == old(self).axes()[axis_key(plan_of(n).n_pad, fs)]
                            } else {
                                call_ensures(
                                    old(self).make_axis(),
                                    (plan_of(n).n_pad, fs),
                                    *axis,
                                )
                            }
                        },
                        (None, None) => final(self).axes() == old(self).axes(),
                        _ => false,
                    }
                },
    {
        let plan = match fft_plan(n) {
            Some(plan) => plan,
            None => {
                return None;
            },
        };
        proof {
            padded_lengths_keep_apart(n);
        }
        let w = self.window(n);
        let ghost window = *w;
        let made = transform(plan, w);
        assert(call_ensures(transform, (plan_of(n), &window), made));
        assert(self.windows() == old(self).windows().insert(n as u64, window));
        proof {
            assert forall|m: usize, f: u32|
                old(self).axis_is_true(m, f) implies #[trigger] self.axis_is_true(m, f) by {}
        }
        match made {
            Some(curve) => {
                let axis = self.axis(plan.n_pad, fs);
                let result = FftResult { seq, n, n_pad: plan.n_pad, data: curve };
                Some((result, axis))
            },
            None => None,
        }
    }
}

/// After any calls, the axis of `n` samples at the rate `fs` is true, if one is kept, unless one
/// of the calls took its key.
pub proof fn axes_stay_true<W, A, F: Fn(usize) -> W, G: Fn(usize, u32) -> A>(
    states: Seq<FftComputer<W, A, F, G>>,
    calls: Seq<(usize, u32)>,
    n: usize,
    fs: u32,
)
    requires
        states.len() == calls.len() + 1,
        states[0].axes() == Map::<u64, A>::empty(),
        forall|i: int|
            0 <= i < calls.len() ==> states[i].may_become(
                (#[trigger] calls[i]).0,
                calls[i].1,
                states[i + 1],
            ),
        forall|i: int|
            0 <= i < calls.len() ==> !takes_key_of(
                plan_of((#[trigger] calls[i]).0).n_pad,
                calls[i].1,
                plan_of(n).n_pad,
                fs,
            ),
    ensures
        states.last().make_window() == states[0].make_window(),
        states.last().make_axis() == states[0].make_axis(),
        states.last().axis_is_true(plan_of(n).n_pad, fs),
    decreases calls.len(),
{
    if calls.len() > 0 {
        let (before, earlier) = (states.drop_last(), calls.drop_last());
        assert forall|i: int| 0 <= i < earlier.len() implies before[i].may_become(
            (#[trigger] earlier[i]).0,
            earlier[i].1,
            before[i + 1],
        ) by {
            assert(earlier[i] == calls[i]);
        }
        assert forall|i: int| 0 <= i < earlier.len() implies !takes_key_of(
            plan_of((#[trigger] earlier[i]).0).n_pad,
            earlier[i].1,
            plan_of(n).n_pad,
            fs,
        ) by {
            assert(earlier[i] == calls[i]);
        }
        axes_stay_true(before, earlier, n, fs);
        let last = calls.last();
        assert(last == calls[calls.len() - 1]);
        assert(before.last().may_become(last.0, last.1, states.last()));
    }
}

/// A computer brings after any calls what a new one brings, unless one of the calls took the key
/// of the axis: where the window, the axis and the transform depend on their arguments alone,
/// the results are the same.
pub proof fn used_is_as_good_as_new<
    W,
    A,
    F: Fn(usize) -> W,
    G: Fn(usize, u32) -> A,
    M,
    T: FnOnce(FftPlan, &W) -> Option<M>,
>(
    states: Seq<FftComputer<W, A, F, G>>,
    calls: Seq<(usize, u32)>,
    fresh: FftComputer<W, A, F, G>,
    transform: T,
    n: usize,
    fs: u32,
    seq: u64,
    used_res: Option<(FftResult<M>, &A)>,
    fresh_res: Option<(FftResult<M>, &A)>,
)
    requires
        forall|a: W, b: W|
            call_ensures(fresh.make_window(), (n,), a) && call_ensures(
                fresh.make_window(),
                (n,),
                b,
            ) ==> a == b,
        forall|a: A, b: A|
            call_ensures(fresh.make_axis(), (plan_of(n).n_pad, fs), a) && call_ensures(
                fresh.make_axis(),
                (plan_of(n).n_pad, fs),
                b,
            ) ==> a == b,
        forall|w: W, a: Option<M>, b: Option<M>|
            call_ensures(transform, (plan_of(n), &w), a) && call_ensures(
                transform,
                (plan_of(n), &w),
                b,
            ) ==> a == b,
        fresh.axes() == Map::<u64, A>::empty(),
        states.len() == calls.len() + 1,
        states[0].axes() == Map::<u64, A>::empty(),
        states[0].make_window() == fresh.make_window(),
        states[0].make_axis() == fresh.make_axis(),
        forall|i: int|
            0 <= i < calls.len() ==> states[i].may_become(
                (#[trigger] calls[i]).0,
                calls[i].1,
                states[i + 1],
            ),
        forall|i: int|
            0 <= i < calls.len() ==> !takes_key_of(
                plan_of((#[trigger] calls[i]).0).n_pad,
                calls[i].1,
                plan_of(n).n_pad,
                fs,
            ),
        states.last().may_bring(transform, n, fs, seq, used_res),
        fresh.may_bring(transform, n, fs, seq, fresh_res),
    ensures
        used_res == fresh_res,
{
    axes_stay_true(states, calls, n, fs);
    earlier_calls_do_not_show(
        fresh.make_window(),
        fresh.make_axis(),
        transform,
        n,
        fs,
        seq,
        used_res,
        fresh_res,
    );
}

/// What a look at the queue of jobs brought.
pub enum Polled<J> {
    Job(J),
    Empty,
    Disconnected,
}

/// What the worker does next.
pub enum WorkerStep<J> {
    /// Look at the queue again, with this job in hand.
    Poll(J),
    /// Compute this job.
    Compute(J),
    /// End.
    Stop,
}

/// A newer job takes the place of the one in hand; an empty queue lets it be computed; and with
/// nobody left to want it, it is dropped.
pub open spec fn next_step<J>(held: J, polled: Polled<J>) -> WorkerStep<J> {
    match polled {
        Polled::Job(newer) => WorkerStep::Poll(newer),
        Polled::Empty => WorkerStep::Compute(held),
        Polled::Disconnected => WorkerStep::Stop,
    }
}

/// What the worker does with the job in hand after a look at the queue.
pub fn on_poll<J>(held: J, polled: Polled<J>) -> (res: WorkerStep<J>)
    ensures
        res == next_step(held, polled),
{
    match polled {
        Polled::Job(newer) => WorkerStep::Poll(newer),
        Polled::Empty => WorkerStep::Compute(held),
        Polled::Disconnected => WorkerStep::Stop,
    }
}

/// What the worker does after a series of looks at the queue, with `held` in hand at first.
pub open spec fn settled<J>(held: J, looks: Seq<Polled<J>>) -> WorkerStep<J>
    decreases looks.len(),
{
    if looks.len() == 0 {
        WorkerStep::Poll(held)
    } else {
        match next_step(held, looks.first()) {
            WorkerStep::Poll(newer) => settled(newer, looks.drop_first()),
            step => step,
        }
    }
}

/// Of the jobs that wait when the worker looks, it computes the newest and no other, or none at
/// all once nobody is left to send more.
pub proof fn only_the_newest_job_counts<J>(first: J, queued: Seq<J>)
    ensures
        ({
            let jobs = queued.map_values(|j: J| Polled::Job(j));
            let newest = if queued.len() == 0 {
                first
            } else {
                queued.last()
            };
            &&& settled(first, jobs.push(Polled::Empty)) == WorkerStep::Compute(newest)
            &&& settled(first, jobs.push(Polled::Disconnected)) == WorkerStep::<J>::Stop
        }),
    decreases queued.len(),
{
    let jobs = queued.map_values(|j: J| Polled::Job(j));
    if queued.len() > 0 {
        let later = queued.drop_first();
        let later_jobs = later.map_values(|j: J| Polled::Job(j));
        only_the_newest_job_counts(queued.first(), later);
        assert(jobs.push(Polled::Empty).drop_first() == later_jobs.push(Polled::Empty));
        assert(jobs.push(Polled::Disconnected).drop_first() == later_jobs.push(
            Polled::Disconnected,
        ));
    }
}

/// Whether the worker waits for another job, after it sent a result and that was taken or not,
/// or had none to send.
pub open spec fn waits_for_more(taken: Option<bool>) -> bool {
    taken != Some(false)
}

/// What the worker does after a job: it ends only if it had a result and nobody took it.
pub fn on_sent(taken: Option<bool>) -> (res: bool)
    ensures
        res == waits_for_more(taken),
{
    match taken {
        Some(was_taken) => was_taken,
        None => true,
    }
}

/// One round of the worker: the job that it waited for, those that it then found queued, whether
/// the other end had hung up by then, what came of the computation, and whether a result was
/// taken when it was sent.
pub struct Round<J, D> {
    pub first: J,
    pub queued: Seq<J>,
    pub hung_up: bool,
    pub result: Option<FftResult<D>>,
    pub taken: bool,
}

impl<J, D> Round<J, D> {
    /// The jobs that came in this round.
    pub open spec fn received(self) -> Seq<J> {
        seq![self.first] + self.queued
    }

    /// What the looks at the queue brought.
    pub open spec fn looks(self) -> Seq<Polled<J>> {
        self.queued.map_values(|j: J| Polled::Job(j)).push(
            if self.hung_up {
                Polled::Disconnected
            } else {
                Polled::Empty
            },
        )
    }

    /// The result is one that the job in hand can have: it bears the number of the job, and there
    /// is none of too few samples.
    pub open spec fn is_true(self, seq_of: spec_fn(J) -> u64, len_of: spec_fn(J) -> nat) -> bool {
        settled(self.first, self.looks()) matches WorkerStep::Compute(job) ==> (
        self.result matches Some(result) ==> result.seq == seq_of(job) && len_of(job)
            >= MIN_SPECTRUM)
    }

    /// The number of the result that is handed over in this round, if one is.
    pub open spec fn handed_over(self) -> Seq<u64> {
        match (settled(self.first, self.looks()), self.result) {
            (WorkerStep::Compute(_), Some(result)) if self.taken => seq![result.seq],
            _ => seq![],
        }
    }

    /// Another round follows.
    pub open spec fn goes_on(self) -> bool {
        &&& settled(self.first, self.looks()) is Compute
        &&& waits_for_more(
            if self.result is Some {
                Some(self.taken)
            } else {
                None
            },
        )
    }
}

/// The numbers of the results that the worker hands over, round after round until it ends.
pub open spec fn all_handed_over<J, D>(rounds: Seq<Round<J, D>>) -> Seq<u64>
    decreases rounds.len(),
{
    if rounds.len() == 0 {
        seq![]
    } else if rounds.first().goes_on() {
        rounds.first().handed_over() + all_handed_over(rounds.drop_first())
    } else {
        rounds.first().handed_over()
    }
}

/// The jobs that came in all rounds.
pub open spec fn all_received<J, D>(rounds: Seq<Round<J, D>>) -> Seq<J>
    decreases rounds.len(),
{
    if rounds.len() == 0 {
        seq![]
    } else {
        rounds.first().received() + all_received(rounds.drop_first())
    }
}

/// Results come in the order of their jobs. Where the numbers of the jobs grow, so do those of
/// the results, and each is that of a job with enough samples: result `i` is that of the job at
/// `at[i]`, and those places grow, too.
pub proof fn results_follow_their_jobs<J, D>(
    rounds: Seq<Round<J, D>>,
    seq_of: spec_fn(J) -> u64,
    len_of: spec_fn(J) -> nat,
) -> (at: Seq<int>)
    requires
        forall|i: int| 0 <= i < rounds.len() ==> (#[trigger] rounds[i]).is_true(seq_of, len_of),
        forall|i: int, j: int|
            #![trigger all_received(rounds)[i], all_received(rounds)[j]]
            0 <= i < j < all_received(rounds).len() ==> seq_of(all_received(rounds)[i]) < seq_of(
                all_received(rounds)[j],
            ),
    ensures
        at.len() == all_handed_over(rounds).len(),
        forall|i: int|
            0 <= i < at.len() ==> {
                let place = #[trigger] at[i];
                &&& 0 <= place < all_received(rounds).len()
                &&& all_handed_over(rounds)[i] == seq_of(all_received(rounds)[place])
                &&& len_of(all_received(rounds)[place]) >= MIN_SPECTRUM
            },
        forall|i: int, j: int| 0 <= i < j < at.len() ==> at[i] < at[j],
        forall|i: int, j: int|
            0 <= i < j < all_handed_over(rounds).len() ==> all_handed_over(rounds)[i]
                < all_handed_over(rounds)[j],
    decreases rounds.len(),
{
    if rounds.len() == 0 {
        seq![]
    } else {
        let (round, later) = (rounds.first(), rounds.drop_first());
        let (mine, others) = (round.received(), all_received(later));
        let all = all_received(rounds);
        only_the_newest_job_counts(round.first, round.queued);
        assert(mine.last() == if round.queued.len() == 0 {
            round.first
        } else {
            round.queued.last()
        });
        assert(round.is_true(seq_of, len_of)) by {
            assert(rounds[0].is_true(seq_of, len_of));
        }
        assert forall|i: int| 0 <= i < later.len() implies (#[trigger] later[i]).is_true(
            seq_of,
            len_of,
        ) by {
            assert(rounds[i + 1].is_true(seq_of, len_of));
        }
        assert forall|i: int, j: int|
            #![trigger others[i], others[j]]
            0 <= i < j < others.len() implies seq_of(others[i]) < seq_of(others[j]) by {
            assert(all[mine.len() + i] == others[i]);
            assert(all[mine.len() + j] == others[j]);
        }
        let rest = results_follow_their_jobs(later, seq_of, len_of);
        let shifted = Seq::new(rest.len(), |i: int| rest[i] + mine.len());
        let newest = mine.len() - 1;
        assert(all[newest] == mine.last());
        let at = if round.goes_on() {
            if round.handed_over().len() == 0 {
                shifted
            } else {
                seq![newest] + shifted
            }
        } else {
            seq![]
        };
        assert forall|i: int| 0 <= i < at.len() implies {
            let place = #[trigger] at[i];
            &&& 0 <= place < all.len()
            &&& all_handed_over(rounds)[i] == seq_of(all[place])
            &&& len_of(all[place]) >= MIN_SPECTRUM
        } by {
            if at[i] != newest {
                let k = if round.handed_over().len() == 0 {
                    i
                } else {
                    i - 1
                };
                assert(at[i] == rest[k] + mine.len());
                assert(all[at[i]] == others[rest[k]]);
            }
        }
        assert forall|i: int, j: int|
            0 <= i < j < all_handed_over(rounds).len() implies all_handed_over(rounds)[i]
            < all_handed_over(rounds)[j] by {
            assert(at[i] < at[j]);
            assert(seq_of(all[at[i]]) < seq_of(all[at[j]]));
        }
        at
    }
}

/// A job of too few samples brings nothing and stops nothing: the worker hands over what it
/// would without the round in which it computed that job.
pub proof fn short_jobs_stop_nothing<J, D>(
    rounds: Seq<Round<J, D>>,
    i: int,
    seq_of: spec_fn(J) -> u64,
    len_of: spec_fn(J) -> nat,
)
    requires
        0 <= i < rounds.len(),
        rounds[i].is_true(seq_of, len_of),
        !rounds[i].hung_up,
        len_of(rounds[i].received().last()) < MIN_SPECTRUM,
    ensures
        rounds[i].goes_on(),
        all_handed_over(rounds) == all_handed_over(rounds.remove(i)),
    decreases i,
{
    let short = rounds[i];
    only_the_newest_job_counts(short.first, short.queued);
    assert(short.received().last() == if short.queued.len() == 0 {
        short.first
    } else {
        short.queued.last()
    });
    if i == 0 {
        assert(rounds.remove(0) == rounds.drop_first());
    } else {
        short_jobs_stop_nothing(rounds.drop_first(), i - 1, seq_of, len_of);
        assert(rounds.remove(i).drop_first() == rounds.drop_first().remove(i - 1));
    }
}

/// The sizes of a transform: the samples that go in are as many as there are, they are padded to
/// a power of two that is less than twice as many, and one more frequency comes out than half of
/// that.
pub proof fn sizes_fit_together(n: usize)
    requires
        16 <= n <= usize::MAX / 2 + 1,
    ensures
        ({
            let plan = plan_of(n);
            &&& plan.n == n
            &&& n <= plan.n_pad < 2 * n
            &&& exists|k: nat| plan.n_pad == #[trigger] pow2(k)
            &&& plan.n_pad == 2 * (plan.bins - 1)
        }),
{
    padded_lengths_keep_apart(n);
    padding_is_tight(n as nat);
}

/// An outcome of at least 16 samples bears the number and the sizes of its job, the curve that the
/// transform made of a window for them, and an axis for the padded length and the rate; it fails
/// only where the transform may. Of fewer samples there is none.
pub proof fn outcomes_belong_to_their_jobs<
    W,
    A,
    F: Fn(usize) -> W,
    G: Fn(usize, u32) -> A,
    M,
    T: FnOnce(FftPlan, &W) -> Option<M>,
>(
    make_window: F,
    make_axis: G,
    transform: T,
    n: usize,
    fs: u32,
    seq: u64,
    res: Option<(FftResult<M>, &A)>,
)
    requires
        is_outcome(make_window, make_axis, transform, n, fs, seq, res),
    ensures
        n < 16 ==> res is None,
        n >= 16 && res is None ==> exists|w: W|
            {
                &&& call_ensures(make_window, (n,), w)
                &&& #[trigger] call_ensures(transform, (plan_of(n), &w), None::<M>)
            },
        n >= 16 && res is Some ==> {
            let (result, axis) = res->0;
            &&& result.seq == seq
            &&& result.n == n
            &&& result.n_pad == plan_of(n).n_pad
            &&& call_ensures(make_axis, (plan_of(n).n_pad, fs), *axis)
            &&& exists|w: W|
                {
                    &&& call_ensures(make_window, (n,), w)
                    &&& #[trigger] call_ensures(transform, (plan_of(n), &w), Some(result.data))
                }
        },
{
    if n >= 16 && res is Some {
        let (result, axis) = res->0;
        let (w, made) = choose|w: W, made: Option<M>|
            {
                &&& call_ensures(make_window, (n,), w)
                &&& #[trigger] call_ensures(transform, (plan_of(n), &w), made)
                &&& made is Some && result == (FftResult {
                    seq,
                    n,
                    n_pad: plan_of(n).n_pad,
                    data: made->0,
                })
            };
        assert(made == Some(result.data));
        assert(call_ensures(transform, (plan_of(n), &w), Some(result.data)));
    }
}

/// A result that nobody takes ends the worker: what would come after that round never does.
pub proof fn refused_results_end_the_worker<J, D>(rounds: Seq<Round<J, D>>, i: int)
    requires
        0 <= i < rounds.len(),
        !rounds[i].hung_up,
        rounds[i].result is Some,
        !rounds[i].taken,
    ensures
        !rounds[i].goes_on(),
        all_handed_over(rounds) == all_handed_over(rounds.take(i)),
    decreases i,
{
    let refused = rounds[i];
    only_the_newest_job_counts(refused.first, refused.queued);
    if i == 0 {
        assert(rounds.take(0).len() == 0);
    } else {
        refused_results_end_the_worker(rounds.drop_first(), i - 1);
        assert(rounds.drop_first().take(i - 1) == rounds.take(i).drop_first());
        assert(rounds.take(i).first() == rounds.first());
    }
}

/// A result that is taken is handed over, and another round follows; and so it does where there
/// was nothing to hand over.
pub proof fn taken_results_are_handed_over<J, D>(round: Round<J, D>)
    requires
        !round.hung_up,
        round.result is None || round.taken,
    ensures
        round.goes_on(),
        round.result matches Some(result) ==> round.handed_over() == seq![result.seq],
        round.result is None ==> round.handed_over().len() == 0,
        waits_for_more(None) && waits_for_more(Some(true)) && !waits_for_more(Some(false)),
{
    only_the_newest_job_counts(round.first, round.queued);
}

/// A job that comes in takes the place of the one in hand, an empty queue lets that be computed,
/// and the end of the queue ends the worker.
pub proof fn each_look_is_answered<J>(held: J, newer: J)
    ensures
        next_step(held, Polled::Job(newer)) == WorkerStep::Poll(newer),
        next_step(held, Polled::Empty) == WorkerStep::Compute(held),
        next_step(held, Polled::<J>::Disconnected) == WorkerStep::<J>::Stop,
{
}

} // verus!
