//! The part of the samples that a view shows.

use crate::ieee::{
    single_finite, single_is_finite, single_is_nan, single_less, single_place,
    single_places_follow_values, single_value, SINGLE_INFINITY, SINGLE_SIGN,
};
use vstd::prelude::*;

verus! {

/// `raw`, moved into the range from 0 to `n`.
pub open spec fn clamped(raw: int, n: int) -> int {
    if raw < 0 {
        0
    } else if raw > n {
        n
    } else {
        raw
    }
}

/// The indices, of `n` samples, that lie between two positions, whichever is the smaller: the
/// first of them, and the one behind the last.
pub open spec fn index_range(raw_lo: int, raw_hi: int, n: int) -> (int, int) {
    let lo = clamped(raw_lo, n);
    let hi = clamped(raw_hi, n);
    if lo > hi {
        (hi, lo)
    } else {
        (lo, hi)
    }
}

fn clamp_index(raw: i64, n: usize) -> (res: usize)
    requires
        n <= i64::MAX,
    ensures
        res == clamped(raw as int, n as int),
{
    if raw < 0 {
        0
    } else if raw > n as i64 {
        n
    } else {
        raw as usize
    }
}

/// The indices, of `n` samples, that lie between two positions. A position is the number of the
/// sample at which an end of the view falls, and may lie outside of the samples.
pub fn slice_indices(raw_lo: i64, raw_hi: i64, n: usize) -> (res: (usize, usize))
    requires
        n <= i64::MAX,
    ensures
        (res.0 as int, res.1 as int) == index_range(raw_lo as int, raw_hi as int, n as int),
        res.0 <= res.1 <= n,
{
    let lo: usize = clamp_index(raw_lo, n);
    let hi: usize = clamp_index(raw_hi, n);
    if lo > hi {
        (hi, lo)
    } else {
        (lo, hi)
    }
}

/// Which end of the view is given first makes no difference.
pub proof fn ends_may_be_swapped(raw_lo: int, raw_hi: int, n: int)
    requires
        0 <= n,
    ensures
        index_range(raw_lo, raw_hi, n) == index_range(raw_hi, raw_lo, n),
{
}

/// An index lies in the range exactly if its sample lies between the two positions.
pub proof fn range_holds_what_lies_between(raw_lo: int, raw_hi: int, n: int, i: int)
    requires
        0 <= i < n,
        raw_lo <= raw_hi,
    ensures
        ({
            let (lo, hi) = index_range(raw_lo, raw_hi, n);
            lo <= i < hi <==> raw_lo <= i < raw_hi
        }),
{
}

/// `x` is the first of the samples in `s` that no other is below. Samples that are no numbers
/// do not count.
pub open spec fn is_least(s: Seq<u32>, x: u32) -> bool {
    exists|i: int|
        {
            &&& 0 <= i < s.len()
            &&& #[trigger] s[i] == x
            &&& !single_is_nan(x)
            &&& forall|j: int|
                0 <= j < s.len() && !single_is_nan(s[j]) ==> single_place(x) <= single_place(
                    #[trigger] s[j],
                ) && (j < i ==> single_place(x) < single_place(s[j]))
        }
}

/// `x` is the first of the samples in `s` that no other is above.
pub open spec fn is_greatest(s: Seq<u32>, x: u32) -> bool {
    exists|i: int|
        {
            &&& 0 <= i < s.len()
            &&& #[trigger] s[i] == x
            &&& !single_is_nan(x)
            &&& forall|j: int|
                0 <= j < s.len() && !single_is_nan(s[j]) ==> single_place(x) >= single_place(
                    #[trigger] s[j],
                ) && (j < i ==> single_place(x) > single_place(s[j]))
        }
}

/// There is a range to show: at least one sample is a finite number, and none is infinite.
pub open spec fn has_range(s: Seq<u32>) -> bool {
    &&& exists|i: int| 0 <= i < s.len() && single_is_finite(#[trigger] s[i])
    &&& forall|i: int|
        0 <= i < s.len() ==> single_is_nan(#[trigger] s[i]) || single_is_finite(s[i])
}

/// The least and the greatest of the samples between two positions, as encodings of single
/// precision; nothing where there is no range to show.
pub fn data_y_range_in_x(samples: &Vec<u32>, raw_lo: i64, raw_hi: i64) -> (res: Option<(u32, u32)>)
    requires
        samples.len() <= i64::MAX,
    ensures
        ({
            let (lo, hi) = index_range(raw_lo as int, raw_hi as int, samples.len() as int);
            let s = samples@.subrange(lo, hi);
            &&& res is Some <==> has_range(s)
            &&& res matches Some((min, max)) ==> is_least(s, min) && is_greatest(s, max)
        }),
{
    let (lo, hi) = slice_indices(raw_lo, raw_hi, samples.len());
    let ghost s = samples@.subrange(lo as int, hi as int);
    let mut min: u32 = SINGLE_INFINITY;
    let mut max: u32 = SINGLE_SIGN + SINGLE_INFINITY;
    let ghost mut at_min: int = -1;
    let ghost mut at_max: int = -1;
    let mut k: usize = lo;
    while k < hi
        invariant
            lo <= k <= hi <= samples.len(),
            s == samples@.subrange(lo as int, hi as int),
            !single_is_nan(min),
            !single_is_nan(max),
            -1 <= at_min < k - lo,
            at_min == -1 ==> min == SINGLE_INFINITY,
            at_min >= 0 ==> s[at_min] == min && single_place(min) < single_place(SINGLE_INFINITY),
            forall|j: int|
                0 <= j < k - lo && !single_is_nan(s[j]) ==> single_place(min) <= single_place(
                    #[trigger] s[j],
                ) && (j < at_min ==> single_place(min) < single_place(s[j])),
            -1 <= at_max < k - lo,
            at_max == -1 ==> max == SINGLE_SIGN + SINGLE_INFINITY,
            at_max >= 0 ==> s[at_max] == max && single_place(max) > -single_place(
                SINGLE_INFINITY,
            ),
            forall|j: int|
                0 <= j < k - lo && !single_is_nan(s[j]) ==> single_place(max) >= single_place(
                    #[trigger] s[j],
                ) && (j < at_max ==> single_place(max) > single_place(s[j])),
        decreases hi - k,
    {
        let x: u32 = samples[k];
        assert(x == s[k - lo]);
        if single_less(x, min) {
            min = x;
            proof {
                at_min = k - lo;
            }
        }
        if single_less(max, x) {
            max = x;
            proof {
                at_max = k - lo;
            }
        }
        k += 1;
    }
    if !single_finite(min) || !single_finite(max) {
        return None;
    }
    proof {
        assert(s[at_min] == min);
        assert(s[at_max] == max);
    }
    Some((min, max))
}

/// Each end of the view falls on the index that lies nearest to it, of those from 0 to `n`.
pub proof fn ends_move_no_further_than_they_must(raw_lo: int, raw_hi: int, n: int, k: int)
    requires
        raw_lo <= raw_hi,
        0 <= k <= n,
    ensures
        ({
            let (lo, hi) = index_range(raw_lo, raw_hi, n);
            let away = |a: int, b: int| if a < b { b - a } else { a - b };
            &&& 0 <= lo <= hi <= n
            &&& away(raw_lo, lo) <= away(raw_lo, k)
            &&& away(raw_hi, hi) <= away(raw_hi, k)
        }),
{
}

/// Two views that meet show parts that meet: no sample is in both, and none between them in
/// neither.
pub proof fn adjacent_views_meet(a: int, b: int, c: int, n: int)
    requires
        a <= b <= c,
        0 <= n,
    ensures
        index_range(a, b, n).1 == index_range(b, c, n).0,
        index_range(a, c, n) == (index_range(a, b, n).0, index_range(b, c, n).1),
{
}

/// The least and the greatest are samples, and every sample that is a number lies between them.
pub proof fn range_spans_the_samples(s: Seq<u32>, min: u32, max: u32, j: int)
    requires
        is_least(s, min),
        is_greatest(s, max),
        0 <= j < s.len(),
        s[j] % 0x8000_0000 <= 0x7F80_0000,
    ensures
        s.contains(min) && s.contains(max),
        min % 0x8000_0000 <= 0x7F80_0000 && max % 0x8000_0000 <= 0x7F80_0000,
        single_value(min) <= single_value(s[j]) <= single_value(max),
{
    single_places_follow_values(min, s[j]);
    single_places_follow_values(s[j], max);
}

/// Samples have one least and one greatest: of those that are equal as numbers, as both zeros
/// are, the first.
pub proof fn range_is_unique(s: Seq<u32>, x: u32, y: u32)
    ensures
        is_least(s, x) && is_least(s, y) ==> x == y,
        is_greatest(s, x) && is_greatest(s, y) ==> x == y,
{
}

/// There is a range to show exactly if there is a sample that is a number, and none that is
/// infinite.
pub proof fn range_is_shown_of_finite_samples(s: Seq<u32>)
    ensures
        has_range(s) <==> {
            &&& exists|i: int| 0 <= i < s.len() && #[trigger] s[i] % 0x8000_0000 < 0x7F80_0000
            &&& forall|i: int| 0 <= i < s.len() ==> #[trigger] s[i] % 0x8000_0000 != 0x7F80_0000
        },
{
    if has_range(s) {
        let i = choose|i: int| 0 <= i < s.len() && single_is_finite(#[trigger] s[i]);
        assert(s[i] % 0x8000_0000 < 0x7F80_0000);
    }
}

} // verus!
