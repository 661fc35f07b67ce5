//! What the recent chords say: how far apart the fingers are, how often a game
//! would split them, and whether something groups presses upstream.
//!
//! Everything is over the last few inputs only, so the answer follows what the
//! player does now. Times are nanoseconds; a share is in parts per million.

use crate::button::{place, rank, ranked, Button, BUTTONS};
use crate::ranks::{above, ascending, sort_ascending, total};
use vstd::prelude::*;

verus! {

/// The number of inputs that are looked at, unless it is set.
pub const DEFAULT_WINDOW: usize = 12;

/// The bounds of that number.
pub const MIN_WINDOW: usize = 6;

pub const MAX_WINDOW: usize = 40;

/// A verdict wants this many chords, or as many as are looked at.
pub const MIN_SAMPLES: usize = 8;

/// The bounds of the report interval of a device.
pub const MIN_FRAME_NS: u64 = 200_000;

pub const MAX_FRAME_NS: u64 = 8_000_000;

/// What seems to happen to the presses on their way.
#[derive(Clone, Copy, Debug, PartialEq, Eq, Structural)]
pub enum Grouping {
    /// The gaps are those of fingers.
    Natural,
    /// A few pairs in one report: light grouping, or very fast hands.
    Hint,
    /// A sync window: pairs within it fall together, wider gaps remain.
    Window,
    /// Nearly all in one report, always the same buttons: a macro.
    AlwaysOn,
}

/// One recent input.
#[derive(Clone, Copy, Debug)]
struct Sample {
    gap_ns: u64,
    is_solo: bool,
    /// Which buttons, by their places.
    sig: [bool; 20],
    t0_ns: u64,
}

/// One recent input as mathematics.
#[verifier::ext_equal]
pub struct SampleView {
    pub gap_ns: u64,
    /// One attack alone, rather than a chord.
    pub is_solo: bool,
    /// Which buttons, by their places.
    pub sig: Seq<bool>,
    /// The first press.
    pub t0_ns: u64,
}

/// The buttons of a chord, by their places.
pub open spec fn signature(buttons: Seq<Button>) -> Seq<bool> {
    Seq::new(BUTTONS as nat, |i: int| buttons.contains(ranked(i)))
}

/// Two chords have the same signature exactly where they are of the same buttons.
pub proof fn law_signature_is_the_set(a: Seq<Button>, b: Seq<Button>)
    ensures
        signature(a) == signature(b) <==> forall|x: Button| a.contains(x) <==> b.contains(x),
{
    if signature(a) == signature(b) {
        assert forall|x: Button| a.contains(x) <==> b.contains(x) by {
            assert(signature(a)[rank(x)] == signature(b)[rank(x)]);
            assert(ranked(rank(x)) == x);
        }
    } else if forall|x: Button| a.contains(x) <==> b.contains(x) {
        assert(signature(a) =~= signature(b));
    }
}

/// The game's frame at a time: sixty in a second, from the start of the clock.
pub open spec fn game_frame(t_ns: int) -> int {
    t_ns * 60 / 1_000_000_000
}

/// The two ends of a gap fall into different frames of the game.
pub open spec fn splits(t0_ns: u64, gap_ns: u64) -> bool {
    game_frame(t0_ns as int) != game_frame(t0_ns + gap_ns)
}

/// Whether a game at sixty frames a second would read the two ends of a gap on
/// different frames. The frames run free: presses never reset them.
pub fn game_frame_split(t0_ns: u64, gap_ns: u64) -> (r: bool)
    ensures
        r == splits(t0_ns, gap_ns),
{
    let a: u128 = t0_ns as u128 * 60 / 1_000_000_000;
    let b: u128 = (t0_ns as u128 + gap_ns as u128) * 60 / 1_000_000_000;
    a != b
}

/// The gaps of the chords, in order.
pub open spec fn gaps_of(s: Seq<SampleView>) -> Seq<u64>
    decreases s.len(),
{
    if s.len() == 0 {
        Seq::empty()
    } else if s.last().is_solo {
        gaps_of(s.drop_last())
    } else {
        gaps_of(s.drop_last()).push(s.last().gap_ns)
    }
}

/// How many chords there are.
pub open spec fn chords(s: Seq<SampleView>) -> nat {
    gaps_of(s).len()
}

/// How many solos there are.
pub open spec fn solos(s: Seq<SampleView>) -> nat
    decreases s.len(),
{
    if s.len() == 0 {
        0
    } else {
        solos(s.drop_last()) + (if s.last().is_solo {
            1nat
        } else {
            0
        })
    }
}

/// Some chord of `s` has the signature `sig`.
pub open spec fn seen(s: Seq<SampleView>, sig: Seq<bool>) -> bool {
    exists|i: int| 0 <= i < s.len() && !(#[trigger] s[i]).is_solo && s[i].sig == sig
}

/// How many different chords there are.
pub open spec fn different(s: Seq<SampleView>) -> nat
    decreases s.len(),
{
    if s.len() == 0 {
        0
    } else if s.last().is_solo || seen(s.drop_last(), s.last().sig) {
        different(s.drop_last())
    } else {
        different(s.drop_last()) + 1
    }
}

/// The sum of what each gap risks: the part of a frame that it takes, in billionths
/// of a frame, at most a whole one.
pub open spec fn risk_of(g: Seq<u64>) -> nat
    decreases g.len(),
{
    if g.len() == 0 {
        0
    } else {
        risk_of(g.drop_last()) + (if g.last() * 60 <= 1_000_000_000 {
            (g.last() * 60) as nat
        } else {
            1_000_000_000
        })
    }
}

/// How many chords a game would have split.
pub open spec fn split_chords(s: Seq<SampleView>) -> nat
    decreases s.len(),
{
    if s.len() == 0 {
        0
    } else {
        split_chords(s.drop_last()) + (if !s.last().is_solo && splits(
            s.last().t0_ns,
            s.last().gap_ns,
        ) {
            1nat
        } else {
            0
        })
    }
}

/// How many gaps fall into one report: below half the interval.
pub open spec fn same_report(g: Seq<u64>, frame_ns: u64) -> nat
    decreases g.len(),
{
    if g.len() == 0 {
        0
    } else {
        same_report(g.drop_last(), frame_ns) + (if 2 * g.last() < frame_ns {
            1nat
        } else {
            0
        })
    }
}

/// The report of a gap: the nearest multiple of the interval, half up, as far as a
/// `u32` goes.
pub open spec fn bucket(gap_ns: u64, frame_ns: u64) -> int {
    let k = (2 * gap_ns + frame_ns) / (2 * frame_ns as int);
    if k <= u32::MAX {
        k
    } else {
        u32::MAX as int
    }
}

/// How many gaps fall into report `k`.
pub open spec fn in_bucket(g: Seq<u64>, frame_ns: u64, k: int) -> nat
    decreases g.len(),
{
    if g.len() == 0 {
        0
    } else {
        in_bucket(g.drop_last(), frame_ns, k) + (if bucket(g.last(), frame_ns) == k {
            1nat
        } else {
            0
        })
    }
}

/// The highest report that a gap falls into; 0 where there is no gap.
pub open spec fn top_bucket(g: Seq<u64>, frame_ns: u64) -> int
    decreases g.len(),
{
    if g.len() == 0 {
        0
    } else if bucket(g.last(), frame_ns) > top_bucket(g.drop_last(), frame_ns) {
        bucket(g.last(), frame_ns)
    } else {
        top_bucket(g.drop_last(), frame_ns)
    }
}

/// The lowest report above the first that a gap falls into; 0 where there is none.
pub open spec fn first_real(g: Seq<u64>, frame_ns: u64) -> int
    decreases g.len(),
{
    if g.len() == 0 {
        0
    } else {
        let b = bucket(g.last(), frame_ns);
        let k = first_real(g.drop_last(), frame_ns);
        if b >= 1 && (k == 0 || b < k) {
            b
        } else {
            k
        }
    }
}

/// How many reports stay empty between the first and the next that a gap falls into.
pub open spec fn dead_zone(g: Seq<u64>, frame_ns: u64) -> int {
    if first_real(g, frame_ns) == 0 {
        0
    } else {
        first_real(g, frame_ns) - 1
    }
}

/// The last `n` of `s`.
pub open spec fn latest<A>(s: Seq<A>, n: nat) -> Seq<A> {
    if s.len() > n {
        s.skip(s.len() - n)
    } else {
        s
    }
}

/// The recent inputs.
pub struct GapStats {
    samples: Vec<Sample>,
    window: usize,
    frame_ns: u64,
}

/// The recent inputs as mathematics.
#[verifier::ext_equal]
pub struct StatsView {
    pub samples: Seq<SampleView>,
    /// How many inputs are looked at.
    pub window: nat,
    /// The interval between two reports of the device.
    pub frame_ns: u64,
}

impl Sample {
    spec fn seen_as(self) -> SampleView {
        SampleView {
            gap_ns: self.gap_ns,
            is_solo: self.is_solo,
            sig: self.sig@,
            t0_ns: self.t0_ns,
        }
    }
}

impl View for GapStats {
    type V = StatsView;

    closed spec fn view(&self) -> StatsView {
        StatsView {
            samples: Seq::new(self.samples@.len(), |i: int| self.samples@[i].seen_as()),
            window: self.window as nat,
            frame_ns: self.frame_ns,
        }
    }
}

/// No inputs, and the usual settings.
pub open spec fn no_inputs() -> StatsView {
    StatsView { samples: Seq::empty(), window: DEFAULT_WINDOW as nat, frame_ns: 1_000_000 }
}

/// With the number of inputs that are looked at, within its bounds.
pub open spec fn with_window(v: StatsView, n: usize) -> StatsView {
    let w = if n < MIN_WINDOW {
        MIN_WINDOW
    } else if n > MAX_WINDOW {
        MAX_WINDOW
    } else {
        n
    };
    StatsView { samples: latest(v.samples, w as nat), window: w as nat, ..v }
}

/// With the interval between two reports, within its bounds; 0 says nothing.
pub open spec fn with_frame(v: StatsView, ns: u64) -> StatsView {
    StatsView {
        frame_ns: if ns == 0 {
            v.frame_ns
        } else if ns < MIN_FRAME_NS {
            MIN_FRAME_NS
        } else if ns > MAX_FRAME_NS {
            MAX_FRAME_NS
        } else {
            ns
        },
        ..v
    }
}

/// With a chord more.
pub open spec fn with_chord(
    v: StatsView,
    gap_ns: u64,
    buttons: Seq<Button>,
    t0_ns: u64,
) -> StatsView {
    let x = SampleView { gap_ns, is_solo: false, sig: signature(buttons), t0_ns };
    StatsView { samples: latest(v.samples.push(x), v.window), ..v }
}

/// With a solo more.
pub open spec fn with_solo(v: StatsView) -> StatsView {
    let x = SampleView { gap_ns: 0, is_solo: true, sig: signature(Seq::empty()), t0_ns: 0 };
    StatsView { samples: latest(v.samples.push(x), v.window), ..v }
}

/// The verdict over some inputs.
pub open spec fn verdict(v: StatsView) -> Option<Grouping> {
    let g = gaps_of(v.samples);
    let n = g.len();
    let same = same_report(g, v.frame_ns);
    if n < needed(v) {
        None
    } else if 100 * same < 15 * n {
        Some(Grouping::Natural)
    } else if 100 * same >= 85 * n && solos(v.samples) == 0 && different(v.samples) <= 1 {
        Some(Grouping::AlwaysOn)
    } else if first_real(g, v.frame_ns) >= 2 || solos(v.samples) > 0 || 100 * same >= 30 * n {
        Some(Grouping::Window)
    } else {
        Some(Grouping::Hint)
    }
}

/// The verdict says that something groups presses.
pub open spec fn groups(g: Option<Grouping>) -> bool {
    g == Some(Grouping::Window) || g == Some(Grouping::AlwaysOn)
}

/// How many chords a verdict wants.
pub open spec fn needed(v: StatsView) -> nat {
    if v.window < MIN_SAMPLES {
        v.window
    } else {
        MIN_SAMPLES as nat
    }
}

/// How many chords a verdict still wants.
pub open spec fn missing(v: StatsView) -> int {
    if chords(v.samples) >= needed(v) {
        0
    } else {
        needed(v) - chords(v.samples)
    }
}

/// The gap at a hundredth of the chords, by nearest rank; 0 where there are none.
pub open spec fn gap_at(g: Seq<u64>, percent: int) -> u64 {
    if g.len() == 0 {
        0
    } else {
        ascending(g)[((g.len() - 1) * percent + 50) / 100]
    }
}

/// The window that covers all but the worst twentieth of the chords, a millisecond
/// to spare, between 3 and 16 ms; 0 where there are no chords.
pub open spec fn advised(g: Seq<u64>) -> int {
    let ms = (gap_at(g, 95) + 999_999) / 1_000_000 + 1;
    if g.len() == 0 {
        0
    } else if ms < 3 {
        3
    } else if ms > 16 {
        16
    } else {
        ms
    }
}

/// The mean gap, rounded down; 0 where there are none.
pub open spec fn mean(g: Seq<u64>) -> nat {
    if g.len() == 0 {
        0
    } else {
        total(g) / g.len()
    }
}

/// The expected share of split chords, in parts per million; 0 where there are none.
pub open spec fn risk_share(g: Seq<u64>) -> nat {
    if g.len() == 0 {
        0
    } else {
        risk_of(g) / (1000 * g.len())
    }
}

/// A share of `n` in parts per million; 0 where `n` is 0.
pub open spec fn ppm(part: nat, n: nat) -> nat {
    if n == 0 {
        0
    } else {
        part * 1_000_000 / n
    }
}

/// The counts of the reports from the first up to the highest.
pub open spec fn histogram(g: Seq<u64>, frame_ns: u64) -> Seq<(u32, usize)> {
    if g.len() == 0 {
        Seq::empty()
    } else {
        Seq::new(
            (top_bucket(g, frame_ns) + 1) as nat,
            |k: int| (k as u32, in_bucket(g, frame_ns, k) as usize),
        )
    }
}

proof fn lemma_latest_step<A>(s: Seq<A>, n: nat)
    requires
        s.len() > n,
    ensures
        latest(s.remove(0), n) == latest(s, n),
{
    assert(latest(s.remove(0), n) =~= latest(s, n));
}

proof fn lemma_counts(s: Seq<SampleView>)
    ensures
        chords(s) + solos(s) == s.len(),
        different(s) <= chords(s),
        split_chords(s) <= chords(s),
    decreases s.len(),
{
    if s.len() > 0 {
        lemma_counts(s.drop_last());
    }
}

proof fn lemma_same_report_bound(g: Seq<u64>, frame_ns: u64)
    ensures
        same_report(g, frame_ns) <= g.len(),
        risk_of(g) <= 1_000_000_000 * g.len(),
        total(g) <= u64::MAX * g.len(),
    decreases g.len(),
{
    if g.len() > 0 {
        lemma_same_report_bound(g.drop_last(), frame_ns);
    }
}

proof fn lemma_first_real(g: Seq<u64>, frame_ns: u64)
    ensures
        first_real(g, frame_ns) >= 0,
    decreases g.len(),
{
    if g.len() > 0 {
        lemma_first_real(g.drop_last(), frame_ns);
    }
}

fn bucket_of(gap_ns: u64, frame_ns: u64) -> (r: u32)
    requires
        frame_ns > 0,
    ensures
        r == bucket(gap_ns, frame_ns),
{
    let k: u128 = (2 * gap_ns as u128 + frame_ns as u128) / (2 * frame_ns as u128);
    if k <= 0xFFFF_FFFF {
        k as u32
    } else {
        u32::MAX
    }
}

impl GapStats {
    /// The bounds of the settings are kept, and no more inputs than are looked at.
    pub open spec fn wf(&self) -> bool {
        &&& MIN_WINDOW <= self@.window <= MAX_WINDOW
        &&& MIN_FRAME_NS <= self@.frame_ns <= MAX_FRAME_NS
        &&& self@.samples.len() <= self@.window
    }

    /// No inputs.
    pub fn new() -> (r: Self)
        ensures
            r.wf(),
            r@ == no_inputs(),
    {
        let r = GapStats { samples: Vec::new(), window: DEFAULT_WINDOW, frame_ns: 1_000_000 };
        assert(r@ =~= no_inputs());
        r
    }

    /// Drop the oldest inputs beyond those that are looked at.
    fn trim(&mut self)
        ensures
            final(self)@ == (StatsView {
                samples: latest(old(self)@.samples, old(self)@.window),
                ..old(self)@
            }),
            final(self)@.samples.len() <= final(self)@.window,
    {
        let ghost v = self@;
        while self.samples.len() > self.window
            invariant
                self@.window == v.window,
                self@.frame_ns == v.frame_ns,
                latest(self@.samples, v.window) == latest(v.samples, v.window),
            decreases self.samples@.len(),
        {
            proof {
                lemma_latest_step(self@.samples, v.window);
            }
            let ghost before = self@.samples;
            self.samples.remove(0);
            assert(self@.samples =~= before.remove(0));
        }
        assert(self@ =~= (StatsView { samples: latest(v.samples, v.window), ..v }));
    }

    /// Look at the last `n` inputs, within the bounds.
    pub fn set_window(&mut self, n: usize)
        requires
            old(self).wf(),
        ensures
            final(self).wf(),
            final(self)@ == with_window(old(self)@, n),
    {
        let ghost v = self@;
        self.window = if n < MIN_WINDOW {
            MIN_WINDOW
        } else if n > MAX_WINDOW {
            MAX_WINDOW
        } else {
            n
        };
        assert(self@.samples =~= v.samples);
        self.trim();
    }

    /// How many inputs are looked at.
    pub fn window(&self) -> (r: usize)
        ensures
            r == self@.window,
    {
        self.window
    }

    /// Take the interval between two reports, within the bounds; 0 says nothing.
    pub fn set_frame_ns(&mut self, ns: u64)
        requires
            old(self).wf(),
        ensures
            final(self).wf(),
            final(self)@ == with_frame(old(self)@, ns),
    {
        if ns > 0 {
            self.frame_ns = if ns < MIN_FRAME_NS {
                MIN_FRAME_NS
            } else if ns > MAX_FRAME_NS {
                MAX_FRAME_NS
            } else {
                ns
            };
        }
        assert(self@.samples =~= old(self)@.samples);
    }

    /// The interval between two reports.
    pub fn frame_ns(&self) -> (r: u64)
        ensures
            r == self@.frame_ns,
    {
        self.frame_ns
    }

    /// Take in a chord: its gap, its buttons and its first press.
    pub fn record_chord(&mut self, gap_ns: u64, buttons: &Vec<Button>, t0_ns: u64)
        requires
            old(self).wf(),
        ensures
            final(self).wf(),
            final(self)@ == with_chord(old(self)@, gap_ns, buttons@, t0_ns),
    {
        let mut sig: [bool; 20] = [false; 20];
        let mut i: usize = 0;
        assert(sig@ =~= signature(buttons@.take(0)));
        while i < buttons.len()
            invariant
                i <= buttons@.len(),
                sig@ == signature(buttons@.take(i as int)),
            decreases buttons@.len() - i,
        {
            let ghost before = sig@;
            let b: Button = buttons[i];
            sig[place(b)] = true;
            i += 1;
            proof {
                let t = buttons@.take(i as int);
                let u = buttons@.take(i - 1);
                assert(t =~= u.push(b));
                assert forall|k: int| 0 <= k < BUTTONS implies #[trigger] sig@[k] == t.contains(
                    ranked(k),
                ) by {
                    if k == rank(b) {
                        assert(t[i - 1] == ranked(k));
                    } else {
                        assert(rank(ranked(k)) == k);
                        assert(sig@[k] == before[k]);
                        if u.contains(ranked(k)) {
                            let j = choose|j: int| 0 <= j < u.len() && u[j] == ranked(k);
                            assert(t[j] == ranked(k));
                        }
                    }
                }
                assert(sig@ =~= signature(t));
            }
        }
        assert(buttons@.take(i as int) =~= buttons@);
        let ghost v = self@;
        self.samples.push(Sample { gap_ns, is_solo: false, sig, t0_ns });
        assert(self@.samples =~= v.samples.push(
            SampleView { gap_ns, is_solo: false, sig: signature(buttons@), t0_ns },
        ));
        self.trim();
    }

    /// Take in an attack that stayed alone.
    pub fn record_solo(&mut self)
        requires
            old(self).wf(),
        ensures
            final(self).wf(),
            final(self)@ == with_solo(old(self)@),
    {
        let ghost v = self@;
        let sig: [bool; 20] = [false; 20];
        assert(sig@ =~= signature(Seq::empty()));
        self.samples.push(Sample { gap_ns: 0, is_solo: true, sig, t0_ns: 0 });
        assert(self@.samples =~= v.samples.push(
            SampleView { gap_ns: 0, is_solo: true, sig: signature(Seq::empty()), t0_ns: 0 },
        ));
        self.trim();
    }

    /// The gaps of the chords.
    pub fn gaps(&self) -> (r: Vec<u64>)
        ensures
            r@ == gaps_of(self@.samples),
    {
        let mut r: Vec<u64> = Vec::new();
        let mut i: usize = 0;
        assert(r@ =~= gaps_of(self@.samples.take(0)));
        while i < self.samples.len()
            invariant
                i <= self.samples@.len(),
                r@ == gaps_of(self@.samples.take(i as int)),
            decreases self.samples@.len() - i,
        {
            if !self.samples[i].is_solo {
                r.push(self.samples[i].gap_ns);
            }
            i += 1;
            assert(self@.samples.take(i as int).drop_last() =~= self@.samples.take(i - 1));
        }
        assert(self@.samples.take(i as int) =~= self@.samples);
        r
    }

    /// How many chords there are.
    pub fn count(&self) -> (r: usize)
        ensures
            r == chords(self@.samples),
    {
        self.gaps().len()
    }

    /// How many solos there are.
    pub fn solo_count(&self) -> (r: usize)
        ensures
            r == solos(self@.samples),
    {
        proof {
            lemma_counts(self@.samples);
        }
        self.samples.len() - self.count()
    }

    /// How many different chords there are, by their buttons.
    pub fn distinct_chords(&self) -> (r: usize)
        ensures
            r == different(self@.samples),
    {
        let mut n: usize = 0;
        let mut i: usize = 0;
        assert(different(self@.samples.take(0)) == 0);
        while i < self.samples.len()
            invariant
                i <= self.samples@.len(),
                n <= i,
                n == different(self@.samples.take(i as int)),
            decreases self.samples@.len() - i,
        {
            let ghost before = self@.samples.take(i as int);
            let ghost x = self@.samples[i as int];
            if !self.samples[i].is_solo {
                let mut old_one = false;
                let mut j: usize = 0;
                while j < i
                    invariant
                        i < self.samples@.len(),
                        j <= i,
                        before == self@.samples.take(i as int),
                        x == self@.samples[i as int],
                        old_one == seen(before.take(j as int), x.sig),
                    decreases i - j,
                {
                    let ghost was = before.take(j as int);
                    let ghost y = before[j as int];
                    let hit = !self.samples[j].is_solo && same_places(
                        &self.samples[j].sig,
                        &self.samples[i].sig,
                    );
                    j += 1;
                    proof {
                        let now = before.take(j as int);
                        assert(now =~= was.push(y));
                        if seen(was, x.sig) {
                            let k = choose|k: int|
                                0 <= k < was.len() && !(#[trigger] was[k]).is_solo && was[k].sig
                                    == x.sig;
                            assert(!now[k].is_solo && now[k].sig == x.sig);
                        }
                        if hit {
                            assert(!now[j - 1].is_solo && now[j - 1].sig == x.sig);
                        }
                        if seen(now, x.sig) && !hit {
                            let k = choose|k: int|
                                0 <= k < now.len() && !(#[trigger] now[k]).is_solo && now[k].sig
                                    == x.sig;
                            assert(k < was.len());
                            assert(!was[k].is_solo && was[k].sig == x.sig);
                        }
                    }
                    if hit {
                        old_one = true;
                    }
                }
                assert(before.take(j as int) =~= before);
                if !old_one {
                    n += 1;
                }
            }
            i += 1;
            assert(self@.samples.take(i as int).drop_last() =~= before);
        }
        assert(self@.samples.take(i as int) =~= self@.samples);
        n
    }

    /// The mean gap, rounded down; 0 where there are no chords.
    pub fn average(&self) -> (r: u64)
        requires
            self.wf(),
        ensures
            r == mean(gaps_of(self@.samples)),
    {
        let g: Vec<u64> = self.gaps();
        if g.len() == 0 {
            return 0;
        }
        proof {
            lemma_counts(self@.samples);
        }
        let mut sum: u128 = 0;
        let mut i: usize = 0;
        assert(total(g@.take(0)) == 0);
        while i < g.len()
            invariant
                i <= g@.len() <= MAX_WINDOW,
                sum == total(g@.take(i as int)),
                sum <= 0xFFFF_FFFF_FFFF_FFFF * i,
            decreases g@.len() - i,
        {
            sum = sum + g[i] as u128;
            i += 1;
            assert(g@.take(i as int).drop_last() =~= g@.take(i - 1));
        }
        assert(g@.take(i as int) =~= g@);
        let n: u128 = g.len() as u128;
        assert(sum / n <= 0xFFFF_FFFF_FFFF_FFFF) by (nonlinear_arith)
            requires
                sum <= 0xFFFF_FFFF_FFFF_FFFF * n,
                n > 0,
        ;
        (sum / n) as u64
    }

    /// The gap that `percent` of the chords do not pass, by nearest rank; 0 where
    /// there are none.
    pub fn percentile(&self, percent: u32) -> (r: u64)
        requires
            self.wf(),
            percent <= 100,
        ensures
            r == gap_at(gaps_of(self@.samples), percent as int),
    {
        let g: Vec<u64> = self.gaps();
        if g.len() == 0 {
            return 0;
        }
        proof {
            lemma_counts(self@.samples);
        }
        let s: Vec<u64> = sort_ascending(&g);
        let n: usize = g.len();
        let p: usize = percent as usize;
        assert((n - 1) * p <= (n - 1) * 100) by (nonlinear_arith)
            requires
                p <= 100,
                n >= 1,
        ;
        assert((n - 1) * p >= 0) by (nonlinear_arith)
            requires
                n >= 1,
                p >= 0,
        ;
        s[((n - 1) * p + 50) / 100]
    }

    /// The shortest gap, where there is one.
    pub fn min(&self) -> (r: Option<u64>)
        ensures
            r is None <==> chords(self@.samples) == 0,
            r matches Some(m) ==> gaps_of(self@.samples).contains(m) && forall|i: int|
                0 <= i < gaps_of(self@.samples).len() ==> m <= #[trigger] gaps_of(
                    self@.samples,
                )[i],
    {
        let g: Vec<u64> = self.gaps();
        if g.len() == 0 {
            return None;
        }
        let mut m: u64 = g[0];
        let mut i: usize = 1;
        while i < g.len()
            invariant
                1 <= i <= g@.len(),
                g@.contains(m),
                forall|j: int| 0 <= j < i ==> m <= #[trigger] g@[j],
            decreases g@.len() - i,
        {
            if g[i] < m {
                m = g[i];
            }
            i += 1;
        }
        Some(m)
    }

    /// The longest gap; 0 where there is none.
    pub fn max(&self) -> (r: u64)
        ensures
            chords(self@.samples) == 0 ==> r == 0,
            chords(self@.samples) > 0 ==> gaps_of(self@.samples).contains(r),
            forall|i: int|
                0 <= i < gaps_of(self@.samples).len() ==> r >= #[trigger] gaps_of(
                    self@.samples,
                )[i],
    {
        let g: Vec<u64> = self.gaps();
        let mut m: u64 = 0;
        let mut i: usize = 0;
        while i < g.len()
            invariant
                i <= g@.len(),
                i == 0 ==> m == 0,
                i > 0 ==> g@.contains(m),
                forall|j: int| 0 <= j < i ==> m >= #[trigger] g@[j],
            decreases g@.len() - i,
        {
            if i == 0 || g[i] > m {
                m = g[i];
            }
            i += 1;
        }
        m
    }

    /// The window to set, in milliseconds: it covers all but the worst twentieth of
    /// the chords, with a millisecond to spare, between 3 and 16; 0 where there are
    /// no chords.
    pub fn recommended_nobd(&self) -> (r: u32)
        requires
            self.wf(),
        ensures
            r == advised(gaps_of(self@.samples)),
    {
        if self.count() == 0 {
            return 0;
        }
        let p: u64 = self.percentile(95);
        let ms: u64 = p / 1_000_000 + (if p % 1_000_000 > 0 {
            1
        } else {
            0
        }) + 1;
        if ms < 3 {
            3
        } else if ms > 16 {
            16
        } else {
            ms as u32
        }
    }

    /// The expected share of chords that a game splits when nothing groups them: for
    /// each, the part of a frame that its gap takes.
    pub fn split_probability(&self) -> (r: u32)
        requires
            self.wf(),
        ensures
            r == risk_share(gaps_of(self@.samples)),
    {
        let g: Vec<u64> = self.gaps();
        if g.len() == 0 {
            return 0;
        }
        proof {
            lemma_counts(self@.samples);
        }
        let mut sum: u64 = 0;
        let mut i: usize = 0;
        assert(risk_of(g@.take(0)) == 0);
        while i < g.len()
            invariant
                i <= g@.len() <= MAX_WINDOW,
                sum == risk_of(g@.take(i as int)),
                sum <= 1_000_000_000 * i,
            decreases g@.len() - i,
        {
            let part: u64 = if g[i] <= 16_666_666 {
                g[i] * 60
            } else {
                1_000_000_000
            };
            sum = sum + part;
            i += 1;
            assert(g@.take(i as int).drop_last() =~= g@.take(i - 1));
        }
        assert(g@.take(i as int) =~= g@);
        let n: u64 = 1000 * g.len() as u64;
        assert(sum / n <= 1_000_000) by (nonlinear_arith)
            requires
                sum <= 1_000_000 * n,
                n > 0,
        ;
        (sum / n) as u32
    }

    /// How many of the chords a game at sixty frames a second would have split.
    pub fn simulated_split_count(&self) -> (r: usize)
        ensures
            r == split_chords(self@.samples),
    {
        let mut n: usize = 0;
        let mut i: usize = 0;
        assert(split_chords(self@.samples.take(0)) == 0);
        while i < self.samples.len()
            invariant
                i <= self.samples@.len(),
                n <= i,
                n == split_chords(self@.samples.take(i as int)),
            decreases self.samples@.len() - i,
        {
            if !self.samples[i].is_solo && game_frame_split(
                self.samples[i].t0_ns,
                self.samples[i].gap_ns,
            ) {
                n += 1;
            }
            i += 1;
            assert(self@.samples.take(i as int).drop_last() =~= self@.samples.take(i - 1));
        }
        assert(self@.samples.take(i as int) =~= self@.samples);
        n
    }

    /// The share of the chords that it would have split.
    pub fn simulated_split_rate(&self) -> (r: u32)
        requires
            self.wf(),
        ensures
            r == ppm(split_chords(self@.samples), chords(self@.samples)),
    {
        proof {
            lemma_counts(self@.samples);
        }
        let n: usize = self.count();
        if n == 0 {
            return 0;
        }
        share(self.simulated_split_count(), n)
    }

    /// How many of the chords fall into one report.
    fn same_frame_count(&self) -> (r: usize)
        requires
            self.wf(),
        ensures
            r == same_report(gaps_of(self@.samples), self@.frame_ns),
    {
        let g: Vec<u64> = self.gaps();
        let mut n: usize = 0;
        let mut i: usize = 0;
        assert(same_report(g@.take(0), self@.frame_ns) == 0);
        while i < g.len()
            invariant
                i <= g@.len(),
                n <= i,
                MIN_FRAME_NS <= self@.frame_ns <= MAX_FRAME_NS,
                n == same_report(g@.take(i as int), self@.frame_ns),
            decreases g@.len() - i,
        {
            if g[i] < MAX_FRAME_NS && 2 * g[i] < self.frame_ns {
                n += 1;
            }
            i += 1;
            assert(g@.take(i as int).drop_last() =~= g@.take(i - 1));
        }
        assert(g@.take(i as int) =~= g@);
        n
    }

    /// The share of the chords that fall into one report. No fingers do that, so a
    /// high share means that something groups presses upstream.
    pub fn same_frame_pct(&self) -> (r: u32)
        requires
            self.wf(),
        ensures
            r == ppm(
                same_report(gaps_of(self@.samples), self@.frame_ns),
                chords(self@.samples),
            ),
    {
        proof {
            lemma_counts(self@.samples);
            lemma_same_report_bound(gaps_of(self@.samples), self@.frame_ns);
        }
        let n: usize = self.count();
        if n == 0 {
            return 0;
        }
        share(self.same_frame_count(), n)
    }

    /// How many chords fall into each report, from the first up to the highest.
    pub fn frame_histogram(&self) -> (r: Vec<(u32, usize)>)
        requires
            self.wf(),
        ensures
            r@ == histogram(gaps_of(self@.samples), self@.frame_ns),
    {
        let g: Vec<u64> = self.gaps();
        let mut r: Vec<(u32, usize)> = Vec::new();
        if g.len() == 0 {
            assert(r@ =~= histogram(g@, self@.frame_ns));
            return r;
        }
        let f: u64 = self.frame_ns;
        let mut top: u32 = 0;
        let mut i: usize = 0;
        assert(top_bucket(g@.take(0), f) == 0);
        while i < g.len()
            invariant
                i <= g@.len(),
                f > 0,
                top == top_bucket(g@.take(i as int), f),
            decreases g@.len() - i,
        {
            let k: u32 = bucket_of(g[i], f);
            if k > top {
                top = k;
            }
            i += 1;
            assert(g@.take(i as int).drop_last() =~= g@.take(i - 1));
        }
        assert(g@.take(i as int) =~= g@);
        let mut k: u32 = 0;
        loop
            invariant_except_break
                k <= top,
                r@.len() == k,
            invariant
                f > 0,
                forall|j: int|
                    0 <= j < r@.len() ==> #[trigger] r@[j] == (
                        j as u32,
                        in_bucket(g@, f, j) as usize,
                    ),
            ensures
                r@.len() == top + 1,
            decreases top - k,
        {
            let mut n: usize = 0;
            let mut j: usize = 0;
            assert(in_bucket(g@.take(0), f, k as int) == 0);
            while j < g.len()
                invariant
                    j <= g@.len(),
                    n <= j,
                    f > 0,
                    n == in_bucket(g@.take(j as int), f, k as int),
                decreases g@.len() - j,
            {
                if bucket_of(g[j], f) == k {
                    n += 1;
                }
                j += 1;
                assert(g@.take(j as int).drop_last() =~= g@.take(j - 1));
            }
            assert(g@.take(j as int) =~= g@);
            r.push((k, n));
            if k == top {
                break;
            }
            k += 1;
        }
        assert(r@ =~= histogram(g@, f));
        r
    }

    /// The lowest report above the first that a chord falls into: the shortest gap
    /// that was not grouped.
    fn first_real_frame(&self) -> (r: Option<u32>)
        requires
            self.wf(),
        ensures
            r is None <==> first_real(gaps_of(self@.samples), self@.frame_ns) == 0,
            r matches Some(k) ==> k == first_real(gaps_of(self@.samples), self@.frame_ns),
    {
        let g: Vec<u64> = self.gaps();
        let f: u64 = self.frame_ns;
        let mut first: u32 = 0;
        let mut i: usize = 0;
        assert(first_real(g@.take(0), f) == 0);
        while i < g.len()
            invariant
                i <= g@.len(),
                f > 0,
                first == first_real(g@.take(i as int), f),
            decreases g@.len() - i,
        {
            let k: u32 = bucket_of(g[i], f);
            if k >= 1 && (first == 0 || k < first) {
                first = k;
            }
            i += 1;
            assert(g@.take(i as int).drop_last() =~= g@.take(i - 1));
        }
        assert(g@.take(i as int) =~= g@);
        if first == 0 {
            None
        } else {
            Some(first)
        }
    }

    /// How many reports stay empty between the first and the next that a chord falls
    /// into. Fingers fill them; a sync window leaves them empty.
    pub fn dead_zone_frames(&self) -> (r: u32)
        requires
            self.wf(),
        ensures
            r == dead_zone(gaps_of(self@.samples), self@.frame_ns),
    {
        proof {
            lemma_first_real(gaps_of(self@.samples), self@.frame_ns);
        }
        match self.first_real_frame() {
            Some(k) => k - 1,
            None => 0,
        }
    }

    /// The width of the sync window as the shortest ungrouped gap shows it, once
    /// there is one.
    pub fn estimated_window_ns(&self) -> (r: Option<u64>)
        requires
            self.wf(),
        ensures
            r is None <==> first_real(gaps_of(self@.samples), self@.frame_ns) == 0,
            r matches Some(w) ==> w == first_real(gaps_of(self@.samples), self@.frame_ns)
                * self@.frame_ns,
    {
        match self.first_real_frame() {
            Some(k) => {
                assert(k * self.frame_ns <= 0xFFFF_FFFF * 8_000_000) by (nonlinear_arith)
                    requires
                        k <= 0xFFFF_FFFF,
                        self.frame_ns <= 8_000_000,
                ;
                assert(k as u64 * self.frame_ns >= 0) by (nonlinear_arith)
                    requires
                        k >= 0,
                        self.frame_ns >= 0,
                ;
                Some(k as u64 * self.frame_ns)
            },
            None => None,
        }
    }

    /// How many chords a verdict wants.
    fn required(&self) -> (r: usize)
        ensures
            r == needed(self@),
    {
        if self.window < MIN_SAMPLES {
            self.window
        } else {
            MIN_SAMPLES
        }
    }

    /// What seems to happen to the presses on their way; `None` until there are
    /// chords enough.
    pub fn grouping(&self) -> (r: Option<Grouping>)
        requires
            self.wf(),
        ensures
            r == verdict(self@),
    {
        let n: usize = self.count();
        if n < self.required() {
            return None;
        }
        proof {
            lemma_counts(self@.samples);
            lemma_same_report_bound(gaps_of(self@.samples), self@.frame_ns);
            lemma_first_real(gaps_of(self@.samples), self@.frame_ns);
        }
        let same: usize = self.same_frame_count();
        if 100 * same < 15 * n {
            return Some(Grouping::Natural);
        }
        if 100 * same >= 85 * n && self.solo_count() == 0 && self.distinct_chords() <= 1 {
            return Some(Grouping::AlwaysOn);
        }
        if self.dead_zone_frames() >= 1 || self.solo_count() > 0 || 100 * same >= 30 * n {
            return Some(Grouping::Window);
        }
        Some(Grouping::Hint)
    }

    /// Whether something seems to group presses.
    pub fn grouping_active(&self) -> (r: bool)
        requires
            self.wf(),
        ensures
            r == groups(verdict(self@)),
    {
        match self.grouping() {
            Some(Grouping::Window) | Some(Grouping::AlwaysOn) => true,
            _ => false,
        }
    }

    /// How many more chords until there is a verdict.
    pub fn samples_until_verdict(&self) -> (r: usize)
        ensures
            r == missing(self@),
    {
        let n: usize = self.count();
        let want: usize = self.required();
        if n >= want {
            0
        } else {
            want - n
        }
    }

    /// Forget the inputs.
    pub fn clear(&mut self)
        requires
            old(self).wf(),
        ensures
            final(self).wf(),
            final(self)@ == (StatsView { samples: Seq::empty(), ..old(self)@ }),
    {
        self.samples = Vec::new();
        assert(self@ =~= (StatsView { samples: Seq::empty(), ..old(self)@ }));
    }
}

fn share(part: usize, n: usize) -> (r: u32)
    requires
        part <= n <= MAX_WINDOW,
        n > 0,
    ensures
        r == ppm(part as nat, n as nat),
{
    let p: u64 = part as u64 * 1_000_000;
    let d: u64 = n as u64;
    assert(p / d <= 1_000_000) by (nonlinear_arith)
        requires
            p <= 1_000_000 * d,
            d > 0,
    ;
    (p / d) as u32
}

fn same_places(a: &[bool; 20], b: &[bool; 20]) -> (r: bool)
    ensures
        r == (a@ == b@),
{
    let mut i: usize = 0;
    while i < BUTTONS
        invariant
            i <= BUTTONS,
            forall|j: int| 0 <= j < i ==> a@[j] == b@[j],
        decreases BUTTONS - i,
    {
        if a[i] != b[i] {
            return false;
        }
        i += 1;
    }
    assert(a@ =~= b@);
    true
}

/// The advised window stays within the bounds of the setting.
pub proof fn law_advice_is_within_bounds(g: Seq<u64>)
    requires
        g.len() > 0,
    ensures
        3 <= advised(g) <= 16,
{
}

/// A verdict stands exactly where no more chords are wanted.
pub proof fn law_verdict_when_enough(v: StatsView)
    ensures
        verdict(v) is Some <==> chords(v.samples) >= needed(v),
{
}

/// The advised window covers all but a twentieth of the chords, and no more than it takes.
/// Below its cap, at most a twentieth of the chords, rounded up, have a gap longer than the
/// advised window less the millisecond to spare. Above its floor, a window two milliseconds
/// shorter would miss more than a twentieth.
pub proof fn law_advice_covers_all_but_a_twentieth(g: Seq<u64>)
    requires
        g.len() > 0,
    ensures
        advised(g) < 16 ==> 20 * above(g, (advised(g) - 1) * 1_000_000) <= g.len() + 19,
        advised(g) < 16 ==> above(g, (advised(g) - 1) * 1_000_000) <= g.len() - 1 - (95 * (g.len()
            - 1) + 50) / 100,
        advised(g) > 3 ==> 20 * above(g, (advised(g) - 2) * 1_000_000) > g.len(),
        advised(g) > 3 ==> above(g, (advised(g) - 2) * 1_000_000) >= g.len() - (95 * (g.len() - 1)
            + 50) / 100,
        advised(g) < 16 ==> above(g, advised(g) * 1_000_000) <= above(
            g,
            (advised(g) - 1) * 1_000_000,
        ),
{
    let n = g.len();
    let k = ((n - 1) * 95 + 50) / 100;
    let x = gap_at(g, 95);
    crate::ranks::law_rank_counts(g, k);
    assert(x == ascending(g)[k]);
    let ms = (x + 999_999) / 1_000_000 + 1;
    if advised(g) < 16 {
        crate::ranks::lemma_above_falls(g, x as int, (advised(g) - 1) * 1_000_000);
        crate::ranks::lemma_above_falls(g, (advised(g) - 1) * 1_000_000, advised(g) * 1_000_000);
    }
    if advised(g) > 3 {
        crate::ranks::lemma_above_falls(g, (advised(g) - 2) * 1_000_000, x - 1);
    }
}

/// The gap at a percentage is one of the gaps, at the rank nearest to that share of the way
/// from the shortest to the longest: from that rank on none is shorter, and no more than
/// those behind it are longer.
pub proof fn law_percentile_is_the_nearest_rank(g: Seq<u64>, percent: int)
    requires
        g.len() > 0,
        0 <= percent <= 100,
    ensures
        g.contains(gap_at(g, percent)),
        exists|k: int|
            0 <= k < g.len() && -50 <= percent * (g.len() - 1) - #[trigger] (100 * k) <= 50
                && above(g, gap_at(g, percent) as int) <= g.len() - 1 - k && above(
                g,
                gap_at(g, percent) - 1,
            ) >= g.len() - k,
{
    let m = g.len() - 1;
    let k = (m * percent + 50) / 100;
    assert(0 <= m * percent <= m * 100) by (nonlinear_arith)
        requires
            0 <= percent <= 100,
            m >= 0,
    ;
    assert(percent * m == m * percent) by (nonlinear_arith);
    crate::ranks::law_rank_counts(g, k);
    assert(-50 <= percent * (g.len() - 1) - 100 * k <= 50);
}

/// A higher percentage never gives a shorter gap; that of 0 is the shortest and that of 100
/// the longest.
pub proof fn law_percentiles_rise(g: Seq<u64>, lower: int, higher: int)
    requires
        g.len() > 0,
        0 <= lower <= higher <= 100,
    ensures
        gap_at(g, lower) <= gap_at(g, higher),
        above(g, gap_at(g, 100) as int) == 0,
        above(g, gap_at(g, 0) - 1) == g.len(),
{
    let m = g.len() - 1;
    assert(0 <= m * lower <= m * higher <= m * 100) by (nonlinear_arith)
        requires
            0 <= lower <= higher <= 100,
            m >= 0,
    ;
    crate::ranks::law_ascending_is_a_sorted_rearrangement(g);
    assert(ascending(g)[(m * lower + 50) / 100] <= ascending(g)[(m * higher + 50) / 100]);
    assert((m * 100 + 50) / 100 == m);
    assert(m * 0 == 0) by (nonlinear_arith);
    crate::ranks::law_rank_counts(g, m);
    crate::ranks::law_rank_counts(g, 0);
    crate::ranks::lemma_above_split(g, gap_at(g, 0) - 1, 0);
    lemma_above_bound(g, gap_at(g, 0) - 1);
}

proof fn lemma_above_bound(g: Seq<u64>, limit: int)
    ensures
        above(g, limit) <= g.len(),
    decreases g.len(),
{
    if g.len() > 0 {
        lemma_above_bound(g.drop_last(), limit);
    }
}

/// The mean lies between the shortest and the longest gap; as many times the mean as there
/// are chords is the sum of the gaps, less what rounding takes.
pub proof fn law_mean_lies_among_the_gaps(g: Seq<u64>, low: u64, high: u64)
    requires
        g.len() > 0,
        forall|i: int| 0 <= i < g.len() ==> low <= #[trigger] g[i] <= high,
    ensures
        low <= mean(g) <= high,
        mean(g) * g.len() <= total(g) < (mean(g) + 1) * g.len(),
{
    crate::ranks::lemma_total_bound(g, high as nat);
    crate::ranks::lemma_total_at_least(g, low as nat);
    let (t, n, q) = (total(g) as int, g.len() as int, mean(g) as int);
    assert(q * n <= t < (q + 1) * n) by (nonlinear_arith)
        requires
            q == t / n,
            n > 0,
            t >= 0,
    ;
    assert(low <= q <= high) by (nonlinear_arith)
        requires
            q * n <= t < (q + 1) * n,
            low * n <= t <= high * n,
            n > 0,
    ;
}

/// A gap is split exactly where a frame of the game begins after the first press and no later
/// than the second, frames being a sixtieth of a second and counted from the start of the
/// clock. A gap of a frame or more is always split, and one of nothing never.
pub proof fn law_a_split_gap_spans_a_frame_boundary(t0_ns: u64, gap_ns: u64)
    ensures
        splits(t0_ns, gap_ns) <==> exists|k: int|
            t0_ns * 60 < #[trigger] (k * 1_000_000_000) <= (t0_ns + gap_ns) * 60,
        gap_ns * 60 >= 1_000_000_000 ==> splits(t0_ns, gap_ns),
        gap_ns == 0 ==> !splits(t0_ns, gap_ns),
{
    let a = t0_ns * 60;
    let b = (t0_ns + gap_ns) * 60;
    if splits(t0_ns, gap_ns) {
        let k = b / 1_000_000_000;
        assert(a < k * 1_000_000_000 <= b);
    }
}

/// What the gaps of one chord more risk on top is its own share of a frame: its part of a
/// sixtieth of a second, and never more than the whole.
pub proof fn law_risks_add_up(g: Seq<u64>, h: Seq<u64>)
    ensures
        risk_of(g + h) == risk_of(g) + risk_of(h),
        forall|x: u64| risk_of(seq![x]) == if 60 * x < 1_000_000_000 {
            60 * x as int
        } else {
            1_000_000_000
        },
    decreases h.len(),
{
    assert forall|x: u64| risk_of(seq![x]) == if 60 * x < 1_000_000_000 {
        60 * x as int
    } else {
        1_000_000_000
    } by {
        assert(seq![x].drop_last() =~= Seq::<u64>::empty());
        assert(risk_of(seq![x].drop_last()) == 0);
    }
    if h.len() == 0 {
        assert(g + h =~= g);
    } else {
        law_risks_add_up(g, h.drop_last());
        assert((g + h).drop_last() =~= g + h.drop_last());
    }
}

/// The expected share is a share: it lies between those of the shortest and of the longest
/// gap, and is all of the chords where every gap takes a whole frame.
pub proof fn law_expected_share_lies_among_the_gaps(g: Seq<u64>, low: u64, high: u64)
    requires
        g.len() > 0,
        forall|i: int| 0 <= i < g.len() ==> low <= #[trigger] g[i] <= high,
    ensures
        risk_share(g) <= 1_000_000,
        60 * low >= 1_000_000_000 ==> risk_share(g) == 1_000_000,
        60 * low < 1_000_000_000 ==> risk_share(g) >= 60 * low / 1000,
        60 * high < 1_000_000_000 ==> risk_share(g) <= 60 * high / 1000,
{
    let lo: int = if 60 * low < 1_000_000_000 {
        60 * low as int
    } else {
        1_000_000_000
    };
    let hi: int = if 60 * high < 1_000_000_000 {
        60 * high as int
    } else {
        1_000_000_000
    };
    lemma_risk_bounds(g, low, high, lo, hi);
    let (t, n) = (risk_of(g) as int, g.len() as int);
    let q = t / (1000 * n);
    assert(q * (1000 * n) <= t < (q + 1) * (1000 * n)) by (nonlinear_arith)
        requires
            q == t / (1000 * n),
            n > 0,
            t >= 0,
    ;
    assert(lo - 1000 < q * 1000 <= hi) by (nonlinear_arith)
        requires
            q * (1000 * n) <= t < (q + 1) * (1000 * n),
            lo * n <= t <= hi * n,
            n > 0,
    ;
}

proof fn lemma_risk_bounds(g: Seq<u64>, low: u64, high: u64, lo: int, hi: int)
    requires
        forall|i: int| 0 <= i < g.len() ==> low <= #[trigger] g[i] <= high,
        lo <= 60 * low && lo <= 1_000_000_000,
        hi == 60 * high || hi == 1_000_000_000,
    ensures
        lo * g.len() <= risk_of(g) <= hi * g.len(),
    decreases g.len(),
{
    let n = g.len() as int;
    if n > 0 {
        let h = g.drop_last();
        assert forall|i: int| 0 <= i < h.len() implies low <= #[trigger] h[i] <= high by {
            assert(h[i] == g[i]);
        }
        lemma_risk_bounds(h, low, high, lo, hi);
        assert(g.last() == g[n - 1]);
        assert(lo * n == lo * (n - 1) + lo) by (nonlinear_arith);
        assert(hi * n == hi * (n - 1) + hi) by (nonlinear_arith);
    } else {
        assert(lo * n == 0 && hi * n == 0) by (nonlinear_arith)
            requires
                n == 0,
        ;
    }
}

/// The report of a gap is the nearest multiple of the interval: the gap is no more than half
/// an interval away from it, and of two that are as near it is the later.
pub proof fn law_the_report_is_the_nearest(gap_ns: u64, frame_ns: u64)
    requires
        MIN_FRAME_NS <= frame_ns,
    ensures
        ({
            let k = bucket(gap_ns, frame_ns);
            &&& 0 <= k <= u32::MAX
            &&& k < u32::MAX ==> -(frame_ns as int) <= 2 * (gap_ns - k * frame_ns) < frame_ns
            &&& k == u32::MAX ==> 2 * (gap_ns - k * frame_ns) >= -(frame_ns as int)
        }),
{
    let f = frame_ns as int;
    let x = 2 * gap_ns + f;
    let k = x / (2 * f);
    assert(k * (2 * f) <= x < (k + 1) * (2 * f) && k >= 0) by (nonlinear_arith)
        requires
            k == x / (2 * f),
            f > 0,
            x >= 0,
    ;
    let b = bucket(gap_ns, frame_ns);
    assert(b * (2 * f) <= k * (2 * f)) by (nonlinear_arith)
        requires
            b <= k,
            f > 0,
    ;
    assert(2 * (b * f) == b * (2 * f)) by (nonlinear_arith);
    assert((k + 1) * (2 * f) == k * (2 * f) + 2 * f) by (nonlinear_arith);
}

/// The chords that fall into one report are those of the first bar of the histogram.
pub proof fn law_one_report_is_the_first_bar(g: Seq<u64>, frame_ns: u64)
    requires
        MIN_FRAME_NS <= frame_ns,
    ensures
        same_report(g, frame_ns) == in_bucket(g, frame_ns, 0),
    decreases g.len(),
{
    if g.len() > 0 {
        law_one_report_is_the_first_bar(g.drop_last(), frame_ns);
        law_the_report_is_the_nearest(g.last(), frame_ns);
        let k = bucket(g.last(), frame_ns);
        let f = frame_ns as int;
        assert(k >= 1 ==> k * f >= f) by (nonlinear_arith)
            requires
                f > 0,
        ;
        assert(k == 0 ==> k * f == 0) by (nonlinear_arith);
    }
}

/// How many gaps the reports from the first up to `k` hold.
pub open spec fn up_to_bucket(g: Seq<u64>, frame_ns: u64, k: int) -> nat
    decreases k + 1,
{
    if k < 0 {
        0
    } else {
        up_to_bucket(g, frame_ns, k - 1) + in_bucket(g, frame_ns, k)
    }
}

proof fn lemma_up_to_bucket(g: Seq<u64>, x: u64, frame_ns: u64, k: int)
    ensures
        up_to_bucket(g.push(x), frame_ns, k) == up_to_bucket(g, frame_ns, k) + if 0 <= bucket(
            x,
            frame_ns,
        ) <= k {
            1nat
        } else {
            0
        },
    decreases k + 1,
{
    if k >= 0 {
        lemma_up_to_bucket(g, x, frame_ns, k - 1);
        assert(g.push(x).drop_last() =~= g);
    }
}

proof fn lemma_no_gaps(frame_ns: u64, k: int)
    ensures
        up_to_bucket(Seq::empty(), frame_ns, k) == 0,
    decreases k + 1,
{
    if k >= 0 {
        lemma_no_gaps(frame_ns, k - 1);
    }
}

/// Every chord falls into exactly one bar of the histogram: the bars up to the highest hold
/// all of them, and no bar behind the highest holds any.
pub proof fn law_the_histogram_holds_every_chord(g: Seq<u64>, frame_ns: u64, k: int)
    requires
        MIN_FRAME_NS <= frame_ns,
        k >= top_bucket(g, frame_ns),
    ensures
        up_to_bucket(g, frame_ns, k) == g.len(),
    decreases g.len(),
{
    if g.len() == 0 {
        assert(g =~= Seq::empty());
        lemma_no_gaps(frame_ns, k);
    } else {
        law_the_histogram_holds_every_chord(g.drop_last(), frame_ns, k);
        law_the_report_is_the_nearest(g.last(), frame_ns);
        lemma_up_to_bucket(g.drop_last(), g.last(), frame_ns, k);
        assert(g.drop_last().push(g.last()) =~= g);
    }
}

/// The highest bar holds a chord.
pub proof fn law_the_highest_bar_is_not_empty(g: Seq<u64>, frame_ns: u64)
    requires
        MIN_FRAME_NS <= frame_ns,
        g.len() > 0,
    ensures
        exists|i: int|
            0 <= i < g.len() && bucket(#[trigger] g[i], frame_ns) == top_bucket(g, frame_ns),
        forall|i: int|
            0 <= i < g.len() ==> bucket(#[trigger] g[i], frame_ns) <= top_bucket(g, frame_ns),
    decreases g.len(),
{
    let h = g.drop_last();
    let n = g.len() - 1;
    law_the_report_is_the_nearest(g.last(), frame_ns);
    assert(g[n] == g.last());
    if h.len() > 0 {
        law_the_highest_bar_is_not_empty(h, frame_ns);
        assert forall|i: int| 0 <= i < g.len() implies bucket(#[trigger] g[i], frame_ns)
            <= top_bucket(g, frame_ns) by {
            if i < n {
                assert(bucket(h[i], frame_ns) <= top_bucket(h, frame_ns));
            }
        }
        if bucket(g.last(), frame_ns) <= top_bucket(h, frame_ns) {
            let i = choose|i: int|
                0 <= i < h.len() && bucket(#[trigger] h[i], frame_ns) == top_bucket(h, frame_ns);
            assert(bucket(g[i], frame_ns) == top_bucket(g, frame_ns));
        }
    }
}

/// The lowest report above the first is one that a gap falls into, and no gap falls between
/// it and the first; there is none exactly where all gaps fall into the first.
pub proof fn law_the_next_report_is_the_lowest(g: Seq<u64>, frame_ns: u64)
    requires
        MIN_FRAME_NS <= frame_ns,
    ensures
        ({
            let k = first_real(g, frame_ns);
            &&& k == 0 <==> forall|i: int| 0 <= i < g.len() ==> bucket(#[trigger] g[i], frame_ns) == 0
            &&& k != 0 ==> exists|i: int| 0 <= i < g.len() && bucket(#[trigger] g[i], frame_ns) == k
            &&& forall|i: int|
                0 <= i < g.len() ==> bucket(#[trigger] g[i], frame_ns) == 0 || bucket(
                    g[i],
                    frame_ns,
                ) >= k
            &&& k >= 0
            &&& dead_zone(g, frame_ns) == if k > 0 {
                k - 1
            } else {
                0
            }
        }),
    decreases g.len(),
{
    if g.len() > 0 {
        let h = g.drop_last();
        let n = g.len() - 1;
        law_the_next_report_is_the_lowest(h, frame_ns);
        law_the_report_is_the_nearest(g.last(), frame_ns);
        assert(g[n] == g.last());
        let k = first_real(g, frame_ns);
        let j = first_real(h, frame_ns);
        assert forall|i: int| 0 <= i < g.len() implies bucket(#[trigger] g[i], frame_ns) == 0
            || bucket(g[i], frame_ns) >= k by {
            if i < n {
                assert(bucket(h[i], frame_ns) == 0 || bucket(h[i], frame_ns) >= j);
                if j == 0 {
                    assert(bucket(h[i], frame_ns) == 0);
                }
            }
        }
        if k != 0 && k == j && k != bucket(g.last(), frame_ns) {
            let i = choose|i: int| 0 <= i < h.len() && bucket(#[trigger] h[i], frame_ns) == j;
            assert(bucket(g[i], frame_ns) == k);
        }
        if k == 0 {
            assert forall|i: int| 0 <= i < g.len() implies bucket(#[trigger] g[i], frame_ns)
                == 0 by {
                if i < n {
                    assert(bucket(h[i], frame_ns) == 0);
                }
            }
        }
    }
}

/// What each verdict says of the shares: fewer than 15 in 100 in one report are fingers; 85 or
/// more of always the same buttons, with no solo, are a macro; otherwise a gap in the reports,
/// a solo or 30 in 100 are a window, and the rest is a hint.
pub proof fn law_verdicts_by_share(v: StatsView)
    requires
        chords(v.samples) >= needed(v),
    ensures
        ({
            let n = chords(v.samples);
            let same = same_report(gaps_of(v.samples), v.frame_ns);
            let macro_like = solos(v.samples) == 0 && different(v.samples) <= 1 && 20 * same >= 17
                * n;
            let window_like = solos(v.samples) > 0 || dead_zone(gaps_of(v.samples), v.frame_ns) >= 1
                || 10 * same >= 3 * n;
            &&& verdict(v) is Some
            &&& verdict(v) == Some(Grouping::Natural) <==> 20 * same < 3 * n
            &&& verdict(v) == Some(Grouping::AlwaysOn) <==> 20 * same >= 3 * n && macro_like
            &&& verdict(v) == Some(Grouping::Window) <==> 20 * same >= 3 * n && !macro_like
                && window_like
            &&& verdict(v) == Some(Grouping::Hint) <==> 20 * same >= 3 * n && !macro_like
                && !window_like
            &&& groups(verdict(v)) <==> 20 * same >= 3 * n && (macro_like || window_like)
        }),
{
    lemma_first_real(gaps_of(v.samples), v.frame_ns);
}

/// A verdict wants eight chords, or as many as are looked at where those are fewer; what is
/// still missing goes down by one with each chord and is nothing once there is a verdict.
pub proof fn law_a_verdict_wants_eight_chords(v: StatsView)
    ensures
        needed(v) <= 8,
        needed(v) <= v.window,
        needed(v) == 8 || needed(v) == v.window,
        missing(v) == 0 <==> verdict(v) is Some,
        missing(v) > 0 ==> chords(v.samples) + missing(v) == needed(v),
        missing(v) >= 0,
{
}

/// A share times the whole is the part, in millionths, less what rounding takes; all of it is
/// a million and nothing is none.
pub proof fn law_a_share_is_part_of_the_whole(part: nat, n: nat)
    requires
        n > 0,
    ensures
        ppm(part, n) * n <= part * 1_000_000 < (ppm(part, n) + 1) * n,
        part <= n ==> ppm(part, n) <= 1_000_000,
        part == n ==> ppm(part, n) == 1_000_000,
{
    let (x, m, q) = ((part * 1_000_000) as int, n as int, ppm(part, n) as int);
    assert(q * m <= x < (q + 1) * m) by (nonlinear_arith)
        requires
            q == x / m,
            m > 0,
            x >= 0,
    ;
    if part <= n {
        assert(q <= 1_000_000) by (nonlinear_arith)
            requires
                q * m <= x,
                x <= 1_000_000 * m,
                m > 0,
        ;
    }
    if part == n {
        assert(q >= 1_000_000) by (nonlinear_arith)
            requires
                x < (q + 1) * m,
                x == 1_000_000 * m,
                m > 0,
        ;
    }
}

/// A new input is the last of those looked at, the ones before it keep their order, and only
/// the oldest leaves, where there would be too many.
pub proof fn law_only_the_oldest_leaves(
    v: StatsView,
    gap_ns: u64,
    buttons: Seq<Button>,
    t0_ns: u64,
)
    requires
        v.window >= 1,
        v.samples.len() <= v.window,
    ensures
        ({
            let c = with_chord(v, gap_ns, buttons, t0_ns);
            let o = with_solo(v);
            let dropped: int = if v.samples.len() < v.window {
                0
            } else {
                1
            };
            let x = c.samples[c.samples.len() - 1];
            &&& c.samples.len() == v.samples.len() + 1 - dropped
            &&& o.samples.len() == v.samples.len() + 1 - dropped
            &&& forall|i: int|
                0 <= i < c.samples.len() - 1 ==> #[trigger] c.samples[i] == v.samples[i + dropped]
            &&& forall|i: int|
                0 <= i < o.samples.len() - 1 ==> #[trigger] o.samples[i] == v.samples[i + dropped]
            &&& !x.is_solo && x.gap_ns == gap_ns && x.t0_ns == t0_ns
            &&& x.sig == signature(buttons)
            &&& o.samples[o.samples.len() - 1].is_solo
            &&& c.window == v.window && c.frame_ns == v.frame_ns
            &&& o.window == v.window && o.frame_ns == v.frame_ns
        }),
{
}

/// The settings stay within their bounds: six to forty inputs, and a fifth of a millisecond to
/// eight milliseconds; a value within them is taken as it is, and an interval of nothing
/// changes nothing. A smaller number of inputs keeps the latest.
pub proof fn law_settings_stay_within_bounds(v: StatsView, n: usize, ns: u64)
    ensures
        6 <= with_window(v, n).window <= 40,
        6 <= n <= 40 ==> with_window(v, n).window == n,
        n <= 6 ==> with_window(v, n).window == 6,
        n >= 40 ==> with_window(v, n).window == 40,
        with_window(v, n).samples.len() <= with_window(v, n).window,
        with_window(v, n).samples.len() <= v.samples.len(),
        with_window(v, n).samples.len() == v.samples.len() || with_window(v, n).samples.len()
            == with_window(v, n).window,
        forall|i: int|
            0 <= i < with_window(v, n).samples.len() ==> #[trigger] with_window(v, n).samples[i]
                == v.samples[i + v.samples.len() - with_window(v, n).samples.len()],
        ns == 0 ==> with_frame(v, ns) == v,
        200_000 <= ns <= 8_000_000 ==> with_frame(v, ns).frame_ns == ns,
        0 < ns <= 200_000 ==> with_frame(v, ns).frame_ns == 200_000,
        ns >= 8_000_000 ==> with_frame(v, ns).frame_ns == 8_000_000,
        with_frame(v, ns).samples == v.samples,
        with_frame(v, ns).window == v.window,
        with_window(v, n).frame_ns == v.frame_ns,
{
}

/// The different chords are the signatures that occur: counting them counts each once.
pub proof fn law_different_counts_signatures(s: Seq<SampleView>)
    ensures
        signatures(s).finite(),
        signatures(s).len() == different(s),
        forall|sig: Seq<bool>| #[trigger] signatures(s).contains(sig) <==> seen(s, sig),
    decreases s.len(),
{
    if s.len() > 0 {
        law_different_counts_signatures(s.drop_last());
        assert forall|sig: Seq<bool>| #[trigger] signatures(s).contains(sig) <==> seen(s, sig) by {
            let h = s.drop_last();
            if seen(s, sig) {
                let i = choose|i: int|
                    0 <= i < s.len() && !(#[trigger] s[i]).is_solo && s[i].sig == sig;
                if i < h.len() {
                    assert(h[i] == s[i]);
                    assert(seen(h, sig));
                }
            }
            if seen(h, sig) {
                let i = choose|i: int|
                    0 <= i < h.len() && !(#[trigger] h[i]).is_solo && h[i].sig == sig;
                assert(s[i] == h[i]);
            }
            if !s.last().is_solo && sig == s.last().sig {
                assert(s[s.len() - 1].sig == sig);
            }
        }
    }
}

/// The signatures of the chords.
pub open spec fn signatures(s: Seq<SampleView>) -> Set<Seq<bool>>
    decreases s.len(),
{
    if s.len() == 0 {
        Set::empty()
    } else if s.last().is_solo {
        signatures(s.drop_last())
    } else {
        signatures(s.drop_last()).insert(s.last().sig)
    }
}

} // verus!
