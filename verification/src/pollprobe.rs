//! The cadence at which a game reads its input.
//!
//! Committing at the last moment before the game's next read only makes sense if
//! the game reads once per frame and steadily. The probe keeps raw intervals
//! between reads until its buffer is full, and then says what cadence they show.

use crate::ranks::{above, ascending, lemma_total_bound, sort_ascending, sum_of, total};
use vstd::prelude::*;

verus! {

/// How many intervals the probe keeps: about 17 seconds at 60 Hz.
pub const N: usize = 1024;

/// What the cadence allows.
#[derive(Clone, Copy, Debug, PartialEq, Eq)]
pub enum Verdict {
    /// One read per frame at about 60 Hz, tight.
    OncePerFrame,
    /// A 60 Hz median with a wide spread.
    Loose,
    /// Several reads per frame.
    Faster,
    /// None of these.
    Unexpected,
}

/// One bar of the histogram: the reads `ms` milliseconds apart.
#[derive(Clone, Copy, Debug, PartialEq, Eq)]
pub struct Bar {
    pub ms: u32,
    /// The length of the bar, of at most 40.
    pub width: u64,
    pub count: u32,
}

/// What the samples show. Times are in microseconds.
#[derive(Debug, PartialEq, Eq)]
pub struct Analysis {
    pub n: usize,
    pub p01_us: u64,
    pub p50_us: u64,
    pub p99_us: u64,
    pub mean_us: u64,
    /// The spread, from the first to the last hundredth.
    pub jitter_us: u64,
    pub verdict: Verdict,
    /// The occupied millisecond buckets, shortest interval first.
    pub bars: Vec<Bar>,
}

/// The samples widened.
pub open spec fn widened(s: Seq<u32>) -> Seq<u64> {
    Seq::new(s.len(), |i: int| s[i] as u64)
}

/// The sample below which `percent` hundredths of them lie.
pub open spec fn percentile(s: Seq<u32>, percent: int) -> u64 {
    ascending(widened(s))[(s.len() - 1) * percent / 100]
}

/// The millisecond bucket of an interval; the last takes all that is longer.
pub open spec fn bucket(us: u32) -> int {
    if us / 1000 < 24 {
        (us / 1000) as int
    } else {
        24
    }
}

/// How many samples fall into bucket `k`.
pub open spec fn tally(s: Seq<u32>, k: int) -> nat
    decreases s.len(),
{
    if s.len() == 0 {
        0
    } else {
        tally(s.drop_last(), k) + if bucket(s.last()) == k {
            1nat
        } else {
            0nat
        }
    }
}

/// The fullest of the lowest `n` buckets.
pub open spec fn peak_below(s: Seq<u32>, n: int) -> nat
    decreases n,
{
    if n <= 0 {
        0
    } else if tally(s, n - 1) > peak_below(s, n - 1) {
        tally(s, n - 1)
    } else {
        peak_below(s, n - 1)
    }
}

/// The bar of bucket `k`: its share of the fullest bucket, at least one.
pub open spec fn bar_of(s: Seq<u32>, k: int) -> Bar {
    let w = tally(s, k) * 40 / peak_below(s, 25);
    Bar {
        ms: k as u32,
        width: if w < 1 {
            1
        } else {
            w as u64
        },
        count: tally(s, k) as u32,
    }
}

/// The bars of the occupied ones of the lowest `n` buckets.
pub open spec fn bars_below(s: Seq<u32>, n: int) -> Seq<Bar>
    decreases n,
{
    if n <= 0 {
        Seq::empty()
    } else if tally(s, n - 1) == 0 {
        bars_below(s, n - 1)
    } else {
        bars_below(s, n - 1).push(bar_of(s, n - 1))
    }
}

/// What a median and a spread say of the cadence.
pub open spec fn verdict_of(p50: u64, jitter: u64) -> Verdict {
    if 15_000 <= p50 <= 18_000 {
        if jitter <= 4_000 {
            Verdict::OncePerFrame
        } else {
            Verdict::Loose
        }
    } else if p50 < 8_000 {
        Verdict::Faster
    } else {
        Verdict::Unexpected
    }
}

impl Verdict {
    /// The verdict in words.
    pub fn text(&self) -> (r: &'static str)
        ensures
            r@ == (match *self {
                Verdict::OncePerFrame =>
                    "ONE POLL PER FRAME at ~60Hz, tight. Frame-aware committing is viable."@,
                Verdict::Loose =>
                    "~60Hz median but LOOSE. Predicting the next poll needs a safety margin."@,
                Verdict::Faster =>
                    "POLLS FASTER THAN ONCE PER FRAME. 'next poll' is not 'next frame' -- the frame-aware design does not apply as written."@,
                Verdict::Unexpected =>
                    "UNEXPECTED cadence. Do not build on this without looking at the histogram."@,
            }),
    {
        match self {
            Verdict::OncePerFrame =>
                "ONE POLL PER FRAME at ~60Hz, tight. Frame-aware committing is viable.",
            Verdict::Loose =>
                "~60Hz median but LOOSE. Predicting the next poll needs a safety margin.",
            Verdict::Faster =>
                "POLLS FASTER THAN ONCE PER FRAME. 'next poll' is not 'next frame' -- the frame-aware design does not apply as written.",
            Verdict::Unexpected =>
                "UNEXPECTED cadence. Do not build on this without looking at the histogram.",
        }
    }
}

/// The intervals kept so far, and whether they have been reported.
pub struct Probe {
    pub buf: Vec<u32>,
    pub reported: bool,
}

impl Probe {
    /// The buffer never outgrows its size.
    pub open spec fn wf(&self) -> bool {
        self.buf@.len() <= 1024
    }

    /// An empty probe.
    pub fn new() -> (r: Self)
        ensures
            r.wf(),
            r.buf@.len() == 0,
            !r.reported,
    {
        Probe { buf: Vec::new(), reported: false }
    }
}

/// The intervals with one more, while there is room.
pub open spec fn kept(s: Seq<u32>, delta_us: u64) -> Seq<u32> {
    if s.len() >= 1024 {
        s
    } else {
        s.push(
            if delta_us <= u32::MAX {
                delta_us as u32
            } else {
                u32::MAX
            },
        )
    }
}

/// Keep one interval between reads, as it is; once the buffer is full, nothing
/// more is kept. A paused game's interval is cut off at the largest that fits,
/// where wrapping would make it look short.
pub fn sample(p: &mut Probe, delta_us: u64)
    requires
        old(p).wf(),
    ensures
        final(p).wf(),
        final(p).reported == old(p).reported,
        final(p).buf@ == kept(old(p).buf@, delta_us),
{
    if p.buf.len() >= N {
        return;
    }
    let d: u32 = if delta_us <= u32::MAX as u64 {
        delta_us as u32
    } else {
        u32::MAX
    };
    p.buf.push(d);
}

/// The buffer is full and has not been reported.
pub open spec fn is_ready(s: Seq<u32>, reported: bool) -> bool {
    s.len() >= 1024 && !reported
}

/// Whether there is something to report that has not been reported.
pub fn ready(p: &Probe) -> (r: bool)
    ensures
        r == is_ready(p.buf@, p.reported),
{
    p.buf.len() >= N && !p.reported
}

/// The whole buffer: what was kept, and zeros behind it.
pub open spec fn filled(s: Seq<u32>) -> Seq<u32> {
    Seq::new(
        1024,
        |i: int|
            if i < s.len() {
                s[i]
            } else {
                0
            },
    )
}

/// The analysis of the buffer, once; `None` if it has been reported before.
pub fn report(p: &mut Probe) -> (r: Option<Analysis>)
    requires
        old(p).wf(),
    ensures
        final(p).reported,
        final(p).buf@ == old(p).buf@,
        r is Some <==> !old(p).reported,
        r matches Some(a) ==> analysis_of(a, filled(old(p).buf@)),
{
    if p.reported {
        return None;
    }
    p.reported = true;
    let mut v: Vec<u32> = Vec::new();
    while v.len() < N
        invariant
            v@.len() <= 1024,
            p.buf@.len() <= 1024,
            forall|i: int| 0 <= i < v@.len() ==> #[trigger] v@[i] == filled(p.buf@)[i],
        decreases 1024 - v@.len(),
    {
        let i: usize = v.len();
        if i < p.buf.len() {
            v.push(p.buf[i]);
        } else {
            v.push(0);
        }
    }
    assert(v@ =~= filled(p.buf@));
    Some(analyse(v.as_slice()))
}

/// `a` is the analysis of `s`.
pub open spec fn analysis_of(a: Analysis, s: Seq<u32>) -> bool {
    &&& a.n == s.len()
    &&& a.p01_us == percentile(s, 1)
    &&& a.p50_us == percentile(s, 50)
    &&& a.p99_us == percentile(s, 99)
    &&& a.mean_us == total(widened(s)) / s.len()
    &&& a.jitter_us == if a.p99_us >= a.p01_us {
        (a.p99_us - a.p01_us) as u64
    } else {
        0
    }
    &&& a.verdict == verdict_of(a.p50_us, a.jitter_us)
    &&& a.bars@ == bars_below(s, 25)
}

/// A count never exceeds the number of samples.
proof fn lemma_tally_bound(s: Seq<u32>, k: int)
    ensures
        tally(s, k) <= s.len(),
    decreases s.len(),
{
    if s.len() > 0 {
        lemma_tally_bound(s.drop_last(), k);
    }
}

/// The fullest bucket is at least as full as each.
proof fn lemma_peak(s: Seq<u32>, n: int, k: int)
    requires
        0 <= k < n,
    ensures
        tally(s, k) <= peak_below(s, n),
    decreases n,
{
    if k < n - 1 {
        lemma_peak(s, n - 1, k);
    }
}

/// The bucket counts of the samples.
fn histogram(s: &[u32]) -> (r: Vec<u32>)
    requires
        s@.len() <= u32::MAX,
    ensures
        r@.len() == 25,
        forall|k: int| 0 <= k < 25 ==> #[trigger] r@[k] == tally(s@, k),
{
    let mut r: Vec<u32> = Vec::new();
    let mut j: usize = 0;
    while j < 25
        invariant
            j <= 25,
            r@.len() == j,
            forall|k: int| 0 <= k < j ==> #[trigger] r@[k] == 0,
        decreases 25 - j,
    {
        r.push(0);
        j = j + 1;
    }
    let mut i: usize = 0;
    proof {
        assert(s@.take(0) =~= Seq::empty());
    }
    while i < s.len()
        invariant
            i <= s@.len() <= u32::MAX,
            r@.len() == 25,
            forall|k: int| 0 <= k < 25 ==> #[trigger] r@[k] == tally(s@.take(i as int), k),
        decreases s@.len() - i,
    {
        let ms: u32 = s[i] / 1000;
        let b: usize = if ms < 24 {
            ms as usize
        } else {
            24
        };
        let ghost before = r@;
        proof {
            assert(s@.take(i + 1).drop_last() =~= s@.take(i as int));
            lemma_tally_bound(s@.take(i as int), b as int);
        }
        let n: u32 = r[b];
        r.set(b, n + 1);
        proof {
            assert forall|k: int| 0 <= k < 25 implies #[trigger] r@[k] == tally(
                s@.take(i + 1),
                k,
            ) by {
                assert(before[k] == tally(s@.take(i as int), k));
                assert(s@.take(i + 1).last() == s@[i as int]);
            }
        }
        i = i + 1;
    }
    assert(s@.take(i as int) =~= s@);
    r
}

/// The fullest bucket's count.
fn peak_of(h: &Vec<u32>, Ghost(s): Ghost<Seq<u32>>) -> (r: u32)
    requires
        h@.len() == 25,
        forall|k: int| 0 <= k < 25 ==> #[trigger] h@[k] == tally(s, k),
    ensures
        r == peak_below(s, 25),
{
    let mut r: u32 = 0;
    let mut k: usize = 0;
    while k < 25
        invariant
            k <= 25,
            h@.len() == 25,
            forall|j: int| 0 <= j < 25 ==> #[trigger] h@[j] == tally(s, j),
            r == peak_below(s, k as int),
        decreases 25 - k,
    {
        if h[k] > r {
            r = h[k];
        }
        k = k + 1;
    }
    r
}

/// What a run of intervals between reads shows.
pub fn analyse(samples: &[u32]) -> (r: Analysis)
    requires
        0 < samples@.len() <= u32::MAX,
    ensures
        analysis_of(r, samples@),
{
    let n: usize = samples.len();
    let mut wide: Vec<u64> = Vec::new();
    let mut i: usize = 0;
    while i < n
        invariant
            i <= n == samples@.len(),
            wide@.len() == i,
            forall|k: int| 0 <= k < i ==> #[trigger] wide@[k] == samples@[k],
        decreases n - i,
    {
        wide.push(samples[i] as u64);
        i = i + 1;
    }
    assert(wide@ =~= widened(samples@));
    let v: Vec<u64> = sort_ascending(&wide);
    let last: u64 = (n - 1) as u64;
    let p01: u64 = v[(last / 100) as usize];
    let p50: u64 = v[(last * 50 / 100) as usize];
    let p99: u64 = v[(last * 99 / 100) as usize];
    proof {
        assert(last * 1 / 100 == last / 100);
        lemma_total_bound(wide@, u32::MAX as nat);
        assert(u32::MAX as nat * wide@.len() <= u64::MAX) by (nonlinear_arith)
            requires
                wide@.len() <= u32::MAX,
        ;
    }
    let mean: u64 = sum_of(&wide) / (n as u64);
    let jitter: u64 = p99.saturating_sub(p01);

    let h: Vec<u32> = histogram(samples);
    let peak: u32 = peak_of(&h, Ghost(samples@));
    let mut bars: Vec<Bar> = Vec::new();
    let mut k: usize = 0;
    while k < 25
        invariant
            k <= 25,
            h@.len() == 25,
            forall|j: int| 0 <= j < 25 ==> #[trigger] h@[j] == tally(samples@, j),
            peak == peak_below(samples@, 25),
            bars@ == bars_below(samples@, k as int),
        decreases 25 - k,
    {
        let c: u32 = h[k];
        if c != 0 {
            proof {
                lemma_peak(samples@, 25, k as int);
            }
            let w: u64 = c as u64 * 40 / peak as u64;
            let width: u64 = if w < 1 {
                1
            } else {
                w
            };
            bars.push(Bar { ms: k as u32, width, count: c });
        }
        k = k + 1;
    }
    let verdict: Verdict = if p50 >= 15_000 && p50 <= 18_000 {
        if jitter <= 4_000 {
            Verdict::OncePerFrame
        } else {
            Verdict::Loose
        }
    } else if p50 < 8_000 {
        Verdict::Faster
    } else {
        Verdict::Unexpected
    };
    Analysis {
        n,
        p01_us: p01,
        p50_us: p50,
        p99_us: p99,
        mean_us: mean,
        jitter_us: jitter,
        verdict,
        bars,
    }
}

/// An interval is kept as it is, or as the longest that fits, behind the others, until there
/// are 1024; then there is something to report, once.
pub proof fn law_intervals_are_kept_until_full(s: Seq<u32>, delta_us: u64)
    requires
        s.len() <= 1024,
    ensures
        ({
            let n = kept(s, delta_us);
            &&& n.len() == if s.len() < 1024 {
                s.len() + 1
            } else {
                1024
            }
            &&& forall|i: int| 0 <= i < s.len() ==> #[trigger] n[i] == s[i]
            &&& s.len() < 1024 && delta_us <= 0xFFFF_FFFF ==> n.last() == delta_us
            &&& s.len() < 1024 && delta_us > 0xFFFF_FFFF ==> n.last() == 0xFFFF_FFFF
            &&& is_ready(s, false) <==> kept(s, delta_us) == s
            &&& !is_ready(s, true)
        }),
{
    if s.len() < 1024 {
        assert(kept(s, delta_us).len() != s.len());
    }
}

/// The figures of an analysis describe the intervals: they come in order, the spread is the
/// distance of the outer two, at most a hundredth, and the one at the rank, lie below the
/// first and at most a hundredth, rounded up, above the last, about half above the median,
/// and the mean is the sum over the number, rounded down.
pub proof fn law_an_analysis_describes_its_intervals(a: Analysis, s: Seq<u32>)
    requires
        s.len() > 0,
        analysis_of(a, s),
    ensures
        ({
            let v = widened(s);
            let n = s.len() as int;
            &&& a.p01_us <= a.p50_us <= a.p99_us
            &&& a.jitter_us == a.p99_us - a.p01_us
            &&& v.contains(a.p01_us) && v.contains(a.p50_us) && v.contains(a.p99_us)
            &&& 100 * above(v, a.p99_us as int) <= n + 98
            &&& 100 * above(v, a.p99_us - 1) > n
            &&& 2 * above(v, a.p50_us as int) <= n
            &&& 2 * above(v, a.p50_us - 1) > n
            &&& 100 * (n - above(v, a.p01_us - 1)) <= n - 1
            &&& 100 * (n - above(v, a.p01_us as int)) >= n
            &&& a.mean_us * n <= total(v) < (a.mean_us + 1) * n
        }),
{
    let v = widened(s);
    let n = s.len() as int;
    let r = ascending(v);
    let (i, j, k) = ((n - 1) * 1 / 100, (n - 1) * 50 / 100, (n - 1) * 99 / 100);
    crate::ranks::law_ascending_is_a_sorted_rearrangement(v);
    crate::ranks::law_rank_counts(v, i);
    crate::ranks::law_rank_counts(v, j);
    crate::ranks::law_rank_counts(v, k);
    assert(r[i] <= r[j] && r[j] <= r[k]);
    let (t, q) = (total(v) as int, a.mean_us as int);
    assert(q * n <= t < (q + 1) * n) by (nonlinear_arith)
        requires
            q == t / n,
            n > 0,
            t >= 0,
    ;
}

/// A bucket holds the intervals of its millisecond; the last holds all from 24 milliseconds
/// on.
pub proof fn law_buckets_are_milliseconds(us: u32)
    ensures
        0 <= bucket(us) <= 24,
        bucket(us) < 24 ==> 1000 * bucket(us) <= us < 1000 * bucket(us) + 1000,
        bucket(us) == 24 <==> us >= 24_000,
{
}

/// How many intervals the lowest `n` buckets hold.
pub open spec fn tallied(s: Seq<u32>, n: int) -> nat
    decreases n,
{
    if n <= 0 {
        0
    } else {
        tallied(s, n - 1) + tally(s, n - 1)
    }
}

proof fn lemma_tallied(s: Seq<u32>, n: int)
    ensures
        s.len() == 0 ==> tallied(s, n) == 0,
        s.len() > 0 ==> tallied(s, n) == tallied(s.drop_last(), n) + if 0 <= bucket(s.last()) < n {
            1nat
        } else {
            0
        },
    decreases n,
{
    if n > 0 {
        lemma_tallied(s, n - 1);
    }
}

/// Every interval falls into one of the buckets.
pub proof fn law_every_interval_is_in_a_bucket(s: Seq<u32>)
    ensures
        tallied(s, 25) == s.len(),
    decreases s.len(),
{
    lemma_tallied(s, 25);
    if s.len() > 0 {
        law_every_interval_is_in_a_bucket(s.drop_last());
        law_buckets_are_milliseconds(s.last());
    }
}

proof fn lemma_peak_is_one(s: Seq<u32>, n: int)
    ensures
        peak_below(s, n) > 0 ==> exists|k: int| 0 <= k < n && #[trigger] tally(s, k) == peak_below(s, n),
    decreases n,
{
    if n > 0 {
        lemma_peak_is_one(s, n - 1);
        if peak_below(s, n) > 0 {
            if tally(s, n - 1) > peak_below(s, n - 1) {
                assert(tally(s, n - 1) == peak_below(s, n));
            } else {
                let k = choose|k: int| 0 <= k < n - 1 && #[trigger] tally(s, k) == peak_below(
                    s,
                    n - 1,
                );
                assert(tally(s, k) == peak_below(s, n));
            }
        }
    }
}

/// A bar is at most forty wide and at least one; the fullest bucket's is forty, and a fuller
/// bucket's is never shorter. It says how many intervals it stands for.
pub proof fn law_bars_are_in_proportion(s: Seq<u32>, j: int, k: int)
    requires
        0 <= j < 25,
        0 <= k < 25,
        0 < tally(s, j) <= tally(s, k),
        s.len() <= u32::MAX,
    ensures
        1 <= bar_of(s, j).width <= bar_of(s, k).width <= 40,
        tally(s, k) == peak_below(s, 25) ==> bar_of(s, k).width == 40,
        bar_of(s, k).ms == k,
        bar_of(s, k).count == tally(s, k),
        exists|m: int| 0 <= m < 25 && #[trigger] tally(s, m) == peak_below(s, 25),
{
    lemma_peak(s, 25, k);
    lemma_peak(s, 25, j);
    lemma_tally_bound(s, k);
    lemma_peak_is_one(s, 25);
    let (a, b, p) = (tally(s, j) as int, tally(s, k) as int, peak_below(s, 25) as int);
    assert(0 <= a * 40 / p <= b * 40 / p <= 40) by (nonlinear_arith)
        requires
            0 < a <= b <= p,
    ;
    if b == p {
        assert(b * 40 / p == 40) by (nonlinear_arith)
            requires
                b == p,
                p > 0,
        ;
    }
}

/// The bars are those of the occupied buckets, shortest interval first.
pub proof fn law_bars_are_the_occupied_buckets(s: Seq<u32>, n: int)
    requires
        0 <= n <= 25,
    ensures
        ({
            let l = bars_below(s, n);
            &&& forall|k: int|
                0 <= k < n ==> (#[trigger] tally(s, k) > 0 <==> exists|i: int|
                    0 <= i < l.len() && (#[trigger] l[i]).ms == k)
            &&& forall|i: int, j: int|
                0 <= i < j < l.len() ==> (#[trigger] l[i]).ms < (#[trigger] l[j]).ms
            &&& forall|i: int|
                0 <= i < l.len() ==> (#[trigger] l[i]).ms < n && l[i] == bar_of(s, l[i].ms as int)
        }),
    decreases n,
{
    if n > 0 {
        law_bars_are_the_occupied_buckets(s, n - 1);
        let h = bars_below(s, n - 1);
        let l = bars_below(s, n);
        assert forall|k: int| 0 <= k < n implies (#[trigger] tally(s, k) > 0 <==> exists|i: int|
            0 <= i < l.len() && (#[trigger] l[i]).ms == k) by {
            if k < n - 1 {
                if tally(s, k) > 0 {
                    let i = choose|i: int| 0 <= i < h.len() && (#[trigger] h[i]).ms == k;
                    assert(l[i].ms == k);
                }
                if exists|i: int| 0 <= i < l.len() && (#[trigger] l[i]).ms == k {
                    let i = choose|i: int| 0 <= i < l.len() && (#[trigger] l[i]).ms == k;
                    assert(i < h.len());
                    assert(h[i].ms == k);
                }
            } else {
                if tally(s, k) > 0 {
                    assert(l[l.len() - 1].ms == k);
                } else {
                    assert(forall|i: int| 0 <= i < h.len() ==> (#[trigger] h[i]).ms < n - 1);
                }
            }
        }
    }
}

/// A cadence is once per frame exactly where half the intervals are within 15 to 18
/// milliseconds by the median and they spread over no more than 4; with a wider spread it is
/// loose, below 8 milliseconds it is faster, and it is unexpected otherwise.
pub proof fn law_verdicts_by_median_and_spread(p50: u64, jitter: u64)
    ensures
        ({
            let sixty = p50 >= 15_000 && p50 < 18_001;
            &&& verdict_of(p50, jitter) is OncePerFrame <==> sixty && jitter < 4_001
            &&& verdict_of(p50, jitter) is Loose <==> sixty && jitter > 4_000
            &&& verdict_of(p50, jitter) is Faster <==> p50 <= 7_999
            &&& verdict_of(p50, jitter) is Unexpected <==> (8_000 <= p50 < 15_000 || p50 > 18_000)
        }),
{
}

} // verus!
