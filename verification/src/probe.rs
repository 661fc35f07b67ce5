//! The distribution of measured delays.

use crate::ranks::{above, ascending, sort_ascending, sum_of, total};
use vstd::prelude::*;

verus! {

/// A distribution. The mean is `sum / n`.
#[derive(Clone, Copy, Debug, PartialEq, Eq, Structural)]
pub struct Percentiles {
    pub min: u64,
    pub p50: u64,
    pub p99: u64,
    pub max: u64,
    pub sum: u64,
    pub n: usize,
}

/// The rank of a hundredth among `n` samples, rounded to the nearest, half up.
pub open spec fn rank(n: nat, percent: nat) -> int {
    ((n - 1) * percent + 50) / 100
}

/// `r` is the distribution of the samples; all zero where there are none.
pub open spec fn is_distribution(v: Seq<u64>, r: Percentiles) -> bool {
    if v.len() == 0 {
        r == (Percentiles { min: 0, p50: 0, p99: 0, max: 0, sum: 0, n: 0 })
    } else {
        let s = ascending(v);
        &&& r.min == s[0]
        &&& r.p50 == s[rank(v.len(), 50)]
        &&& r.p99 == s[rank(v.len(), 99)]
        &&& r.max == s[v.len() - 1]
        &&& r.sum == total(v)
        &&& r.n == v.len()
    }
}

/// The distribution of some samples; all zero where there are none.
pub fn percentiles(v: Vec<u64>) -> (r: Percentiles)
    requires
        total(v@) <= u64::MAX,
        v@.len() <= 0xFFFF_FFFF_FFFF,
    ensures
        is_distribution(v@, r),
{
    let n: usize = v.len();
    if n == 0 {
        return Percentiles { min: 0, p50: 0, p99: 0, max: 0, sum: 0, n: 0 };
    }
    let s: Vec<u64> = sort_ascending(&v);
    let last: u64 = (n - 1) as u64;
    let i50: usize = ((last * 50 + 50) / 100) as usize;
    let i99: usize = ((last * 99 + 50) / 100) as usize;
    Percentiles {
        min: s[0],
        p50: s[i50],
        p99: s[i99],
        max: s[n - 1],
        sum: sum_of(&v),
        n,
    }
}

/// The probe value after `value`.
pub open spec fn marker_after(value: i16) -> i16 {
    if value.wrapping_add(101) == 0 {
        1
    } else {
        value.wrapping_add(101)
    }
}

/// A probe value that differs from the one before it and is never zero, so that a
/// read shows which write it belongs to.
pub fn next_marker(value: i16) -> (r: i16)
    ensures
        r == marker_after(value),
        r != 0,
        value != 0 ==> r != value,
{
    let v: i16 = value.wrapping_add(101);
    if v == 0 {
        1
    } else {
        v
    }
}

/// The round trip of some samples. The mean is rounded down.
#[derive(Clone, Copy, Debug, PartialEq, Eq, Structural)]
pub struct RoundTrip {
    pub min: u64,
    pub avg: u64,
    pub p50: u64,
    pub p99: u64,
    pub max: u64,
    pub n: usize,
}

/// The round trip of some samples, where there are any.
pub open spec fn round_trip_of(s: Seq<u64>) -> Option<RoundTrip> {
    let v = ascending(s);
    if s.len() == 0 {
        None
    } else {
        Some(
            RoundTrip {
                min: v[0],
                avg: (total(s) / s.len()) as u64,
                p50: v[s.len() as int / 2],
                p99: v[s.len() as int * 99 / 100],
                max: v.last(),
                n: s.len() as usize,
            },
        )
    }
}

/// The round trip of some samples: of a pad write until it can be read back.
pub fn round_trip(v: &Vec<u64>) -> (r: Option<RoundTrip>)
    requires
        total(v@) <= u64::MAX,
    ensures
        r == round_trip_of(v@),
{
    let n: usize = v.len();
    if n == 0 {
        return None;
    }
    let s: Vec<u64> = sort_ascending(v);
    let sum: u64 = sum_of(v);
    let k: usize = n / 100 * 99 + n % 100 * 99 / 100;
    assert(k == n * 99 / 100) by (nonlinear_arith)
        requires
            k == n / 100 * 99 + n % 100 * 99 / 100,
            n >= 0,
    ;
    Some(
        RoundTrip {
            min: s[0],
            avg: sum / n as u64,
            p50: s[n / 2],
            p99: s[k],
            max: s[n - 1],
            n,
        },
    )
}

/// The buttons of the test pattern at a tick.
pub open spec fn pattern_at(tick: u32) -> u16 {
    (if tick / 30 % 2 == 0 {
        0x1000u16
    } else {
        0
    }) | (if tick / 15 % 4 == 0 {
        0x0001u16
    } else if tick / 15 % 4 == 1 {
        0x0008
    } else if tick / 15 % 4 == 2 {
        0x0002
    } else {
        0x0004
    })
}

/// The buttons of a visible test pattern at a tick: the first attack goes down and up
/// every thirty ticks, the directions turn every fifteen.
pub fn test_pattern(tick: u32) -> (r: u16)
    ensures
        r == pattern_at(tick),
{
    let a: u16 = if tick / 30 % 2 == 0 {
        0x1000
    } else {
        0
    };
    let hat: u16 = match tick / 15 % 4 {
        0 => 0x0001,
        1 => 0x0008,
        2 => 0x0002,
        _ => 0x0004,
    };
    a | hat
}

/// Every figure of a distribution is one of the samples and they come in order; the smallest
/// and the greatest bound all of them. At most half the samples, less the one in the middle,
/// are above the median, and at least half are at it or above; of the 99th percentile the
/// same holds for the last hundredth, by the nearest rank.
pub proof fn law_a_distribution_describes_its_samples(v: Seq<u64>, r: Percentiles)
    requires
        v.len() > 0,
        is_distribution(v, r),
    ensures
        r.min <= r.p50 <= r.p99 <= r.max,
        v.contains(r.min) && v.contains(r.p50) && v.contains(r.p99) && v.contains(r.max),
        above(v, r.max as int) == 0,
        above(v, r.min - 1) == v.len(),
        2 * above(v, r.p50 as int) <= v.len(),
        2 * above(v, r.p50 - 1) >= v.len(),
        100 * above(v, r.p99 as int) <= v.len() + 49,
        100 * above(v, r.p99 - 1) >= v.len() + 49,
        r.n == v.len(),
        r.min * r.n <= r.sum <= r.max * r.n,
{
    let n = v.len() as int;
    let s = ascending(v);
    let (i, j) = (rank(v.len(), 50), rank(v.len(), 99));
    crate::ranks::law_ascending_is_a_sorted_rearrangement(v);
    crate::ranks::law_rank_counts(v, 0);
    crate::ranks::law_rank_counts(v, i);
    crate::ranks::law_rank_counts(v, j);
    crate::ranks::law_rank_counts(v, n - 1);
    assert(s[0] <= s[i] && s[i] <= s[j] && s[j] <= s[n - 1]);
    lemma_above_at_most_all(v, r.min - 1);
    assert forall|k: int| 0 <= k < v.len() implies #[trigger] v[k] <= r.max by {
        lemma_above_each(v, r.max as int, k);
    }
    crate::ranks::lemma_total_bound(v, r.max as nat);
    assert forall|k: int| 0 <= k < v.len() implies #[trigger] v[k] >= r.min by {
        lemma_above_all(v, r.min - 1, k);
    }
    crate::ranks::lemma_total_at_least(v, r.min as nat);
}

pub(crate) proof fn lemma_above_at_most_all(v: Seq<u64>, limit: int)
    ensures
        above(v, limit) <= v.len(),
    decreases v.len(),
{
    if v.len() > 0 {
        lemma_above_at_most_all(v.drop_last(), limit);
    }
}

pub(crate) proof fn lemma_above_each(v: Seq<u64>, limit: int, k: int)
    requires
        0 <= k < v.len(),
        above(v, limit) == 0,
    ensures
        v[k] <= limit,
    decreases v.len(),
{
    if k < v.len() - 1 {
        lemma_above_each(v.drop_last(), limit, k);
    }
}

pub(crate) proof fn lemma_above_all(v: Seq<u64>, limit: int, k: int)
    requires
        0 <= k < v.len(),
        above(v, limit) == v.len(),
    ensures
        v[k] > limit,
    decreases v.len(),
{
    lemma_above_at_most_all(v.drop_last(), limit);
    if k < v.len() - 1 {
        lemma_above_all(v.drop_last(), limit, k);
    }
}

/// The figures of a round trip describe its samples: they come in order, the greatest and
/// the smallest bound all of them, fewer than half are above the median and at least half at
/// it or above, at most a hundredth are above the last figure but one, and as many times the
/// mean as there are samples is their sum, less what rounding takes.
pub proof fn law_a_round_trip_describes_its_samples(v: Seq<u64>)
    requires
        total(v) <= u64::MAX,
        v.len() <= usize::MAX,
    ensures
        round_trip_of(v) is None <==> v.len() == 0,
        round_trip_of(v) matches Some(r) ==> {
            &&& r.min <= r.p50 <= r.p99 <= r.max
            &&& v.contains(r.min) && v.contains(r.p50) && v.contains(r.p99) && v.contains(r.max)
            &&& above(v, r.max as int) == 0
            &&& above(v, r.min - 1) == v.len()
            &&& 2 * above(v, r.p50 as int) < v.len()
            &&& 2 * above(v, r.p50 - 1) >= v.len()
            &&& 100 * above(v, r.p99 as int) <= v.len() + 99
            &&& 100 * above(v, r.p99 - 1) >= v.len()
            &&& r.avg * v.len() <= total(v) < (r.avg + 1) * v.len()
            &&& r.n == v.len()
        },
{
    if v.len() > 0 {
        let n = v.len() as int;
        let s = ascending(v);
        let (i, j) = (n / 2, n * 99 / 100);
        crate::ranks::law_ascending_is_a_sorted_rearrangement(v);
        crate::ranks::law_rank_counts(v, 0);
        crate::ranks::law_rank_counts(v, i);
        crate::ranks::law_rank_counts(v, j);
        crate::ranks::law_rank_counts(v, n - 1);
        assert(s[0] <= s[i] && s[i] <= s[j] && s[j] <= s[n - 1]);
        lemma_above_at_most_all(v, s[0] - 1);
        let (t, q) = (total(v) as int, total(v) as int / n);
        assert(q * n <= t < (q + 1) * n && 0 <= q <= t) by (nonlinear_arith)
            requires
                q == t / n,
                n > 0,
                t >= 0,
        ;
    }
}

/// A marker is never zero and never its forerunner's value, so that a read shows which of the
/// two writes it belongs to.
pub proof fn law_markers_change(value: i16)
    ensures
        marker_after(value) != 0,
        value != 0 ==> marker_after(value) != value,
        -32768 <= value <= 32666 && value != -101 ==> marker_after(value) == value + 101,
{
}

/// The test pattern comes round every sixty ticks; within it the first attack is down for the
/// first thirty ticks, and the hat is turned a quarter, clockwise, every fifteen.
pub proof fn law_the_pattern_turns_clockwise(tick: u32)
    requires
        tick <= 0xFFFF_0000,
    ensures
        pattern_at((tick + 60) as u32) == pattern_at(tick),
        crate::bits::bit(pattern_at(tick), 12) <==> tick % 60 < 30,
        crate::gip::word_hat(pattern_at(tick)) == 1 + 2 * (tick / 15 % 4),
        forall|i: int| 4 <= i < 16 && i != 12 ==> !#[trigger] crate::bits::bit(pattern_at(tick), i),
{
    broadcast use crate::bits::group_bit;

    crate::bits::lemma_flags();
    let w = pattern_at(tick);
    crate::gip::law_the_hat_reads_back(w);
    crate::bits::lemma_masks(w);
    let q = tick / 15 % 4;
    assert(crate::bits::bit(w, 0) == (q == 0));
    assert(crate::bits::bit(w, 3) == (q == 1));
    assert(crate::bits::bit(w, 1) == (q == 2));
    assert(crate::bits::bit(w, 2) == (q == 3));
}

} // verus!
