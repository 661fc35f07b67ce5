//! The finger gap tester: what the chords, strays and bounces of each controller
//! add up to, and a log of the latest.

use crate::button::{format_button, label, Button};
use crate::input::{
    padded, BounceEvent, ButtonPair, Found, PairView, PollResult, StrayPress, StrayReason,
};
use crate::stats::{
    no_inputs, with_chord, with_frame, with_solo, with_window, GapStats, StatsView, DEFAULT_WINDOW,
};
use crate::text::{chars_of, decimal, put, put_number, string_of};
use vstd::prelude::*;
use vstd::string::StringExecFns;

verus! {

/// The log keeps this many entries.
pub const LOG_MAX: usize = 500;

/// An entry of the log. Times are nanoseconds.
#[derive(Clone, Copy, Debug, PartialEq, Eq, Structural)]
pub enum GapLogEntry {
    Pair {
        controller: usize,
        /// The number of the chord on its controller.
        attempt: usize,
        button_a: Button,
        button_b: Button,
        count: usize,
        gap_ns: u64,
    },
    Stray { controller: usize, button: Button, solo_ns: u64, reason: StrayReason },
    Bounce { controller: usize, button: Button, off_ns: u64 },
}

/// The controller of an entry.
pub open spec fn slot_of(e: GapLogEntry) -> usize {
    match e {
        GapLogEntry::Pair { controller, .. } => controller,
        GapLogEntry::Stray { controller, .. } => controller,
        GapLogEntry::Bounce { controller, .. } => controller,
    }
}

/// The controller of an entry.
pub fn log_entry_slot(e: &GapLogEntry) -> (r: usize)
    ensures
        r == slot_of(*e),
{
    match e {
        GapLogEntry::Pair { controller, .. } => *controller,
        GapLogEntry::Stray { controller, .. } => *controller,
        GapLogEntry::Bounce { controller, .. } => *controller,
    }
}

/// The log with an entry more, without its first where it has become too long.
pub open spec fn logged(log: Seq<GapLogEntry>, e: GapLogEntry) -> Seq<GapLogEntry> {
    if log.len() >= LOG_MAX {
        log.push(e).skip(1)
    } else {
        log.push(e)
    }
}

/// The tester.
pub struct GapTester {
    stats: Vec<GapStats>,
    strays: Vec<usize>,
    bounces: Vec<usize>,
    pairs: Vec<usize>,
    log: Vec<GapLogEntry>,
}

/// The tester as mathematics, all but the log by controller.
#[verifier::ext_equal]
pub struct TesterView {
    pub stats: Seq<StatsView>,
    pub strays: Seq<usize>,
    pub bounces: Seq<usize>,
    /// Every chord so far, not only those that the statistics look at.
    pub pairs: Seq<usize>,
    pub log: Seq<GapLogEntry>,
}

/// The views of some statistics.
pub open spec fn stats_of(s: Seq<GapStats>) -> Seq<StatsView> {
    Seq::new(s.len(), |i: int| s[i]@)
}

impl View for GapTester {
    type V = TesterView;

    closed spec fn view(&self) -> TesterView {
        TesterView {
            stats: stats_of(self.stats@),
            strays: self.strays@,
            bounces: self.bounces@,
            pairs: self.pairs@,
            log: self.log@,
        }
    }
}

/// Nothing yet.
pub open spec fn fresh() -> TesterView {
    TesterView {
        stats: Seq::empty(),
        strays: Seq::empty(),
        bounces: Seq::empty(),
        pairs: Seq::empty(),
        log: Seq::empty(),
    }
}

/// With room for controller `c`.
pub open spec fn with_pad(v: TesterView, c: usize) -> TesterView {
    TesterView {
        stats: padded(v.stats, c + 1, no_inputs()),
        strays: padded(v.strays, c + 1, 0),
        bounces: padded(v.bounces, c + 1, 0),
        pairs: padded(v.pairs, c + 1, 0),
        ..v
    }
}

/// The tester after a chord. `frame_ns` is the interval between two reports; 0 where
/// it is not known.
pub open spec fn took_pair(v: TesterView, p: PairView, frame_ns: u64) -> TesterView {
    let c = p.controller as int;
    let w = with_pad(v, p.controller);
    let s = with_frame(with_window(w.stats[c], DEFAULT_WINDOW), frame_ns);
    let n = w.pairs[c].wrapping_add(1);
    TesterView {
        stats: w.stats.update(c, with_chord(s, p.gap_ns, p.buttons, p.t0_ns)),
        pairs: w.pairs.update(c, n),
        log: logged(
            w.log,
            GapLogEntry::Pair {
                controller: p.controller,
                attempt: n,
                button_a: p.button_a,
                button_b: p.button_b,
                count: p.count as usize,
                gap_ns: p.gap_ns,
            },
        ),
        ..w
    }
}

/// The tester after a stray.
pub open spec fn took_stray(v: TesterView, p: StrayPress) -> TesterView {
    let c = p.controller as int;
    let w = with_pad(v, p.controller);
    TesterView {
        stats: w.stats.update(c, with_solo(with_window(w.stats[c], DEFAULT_WINDOW))),
        strays: w.strays.update(c, w.strays[c].wrapping_add(1)),
        log: logged(
            w.log,
            GapLogEntry::Stray {
                controller: p.controller,
                button: p.button,
                solo_ns: p.solo_ns,
                reason: p.reason,
            },
        ),
        ..w
    }
}

/// The tester after a bounce.
pub open spec fn took_bounce(v: TesterView, p: BounceEvent) -> TesterView {
    let c = p.controller as int;
    let w = with_pad(v, p.controller);
    TesterView {
        bounces: w.bounces.update(c, w.bounces[c].wrapping_add(1)),
        log: logged(
            w.log,
            GapLogEntry::Bounce { controller: p.controller, button: p.button, off_ns: p.off_ns },
        ),
        ..w
    }
}

/// The tester after some chords.
pub open spec fn took_pairs(v: TesterView, s: Seq<PairView>, frame_ns: u64) -> TesterView
    decreases s.len(),
{
    if s.len() == 0 {
        v
    } else {
        took_pair(took_pairs(v, s.drop_last(), frame_ns), s.last(), frame_ns)
    }
}

/// The tester after some strays.
pub open spec fn took_strays(v: TesterView, s: Seq<StrayPress>) -> TesterView
    decreases s.len(),
{
    if s.len() == 0 {
        v
    } else {
        took_stray(took_strays(v, s.drop_last()), s.last())
    }
}

/// The tester after some bounces.
pub open spec fn took_bounces(v: TesterView, s: Seq<BounceEvent>) -> TesterView
    decreases s.len(),
{
    if s.len() == 0 {
        v
    } else {
        took_bounce(took_bounces(v, s.drop_last()), s.last())
    }
}

/// The tester after a poll: chords, then strays, then bounces.
pub open spec fn took(v: TesterView, r: Found, frame_ns: u64) -> TesterView {
    took_bounces(took_strays(took_pairs(v, r.pairs, frame_ns), r.strays), r.bounces)
}

/// Every controller of a poll can have its place.
pub open spec fn controllers_fit(r: Found) -> bool {
    &&& forall|i: int| 0 <= i < r.pairs.len() ==> (#[trigger] r.pairs[i]).controller < usize::MAX
    &&& forall|i: int| 0 <= i < r.strays.len() ==> (#[trigger] r.strays[i]).controller < usize::MAX
    &&& forall|i: int|
        0 <= i < r.bounces.len() ==> (#[trigger] r.bounces[i]).controller < usize::MAX
}

impl GapTester {
    /// The four counts are of the same controllers, and the log is not too long.
    pub closed spec fn wf(&self) -> bool {
        &&& self@.strays.len() == self@.stats.len()
        &&& self@.bounces.len() == self@.stats.len()
        &&& self@.pairs.len() == self@.stats.len()
        &&& self@.log.len() <= LOG_MAX
        &&& forall|i: int| 0 <= i < self.stats@.len() ==> (#[trigger] self.stats@[i]).wf()
    }

    /// Nothing yet.
    pub fn new() -> (r: Self)
        ensures
            r.wf(),
            r@ == fresh(),
    {
        let r = GapTester {
            stats: Vec::new(),
            strays: Vec::new(),
            bounces: Vec::new(),
            pairs: Vec::new(),
            log: Vec::new(),
        };
        assert(r@ =~= fresh());
        r
    }

    /// Forget everything.
    pub fn reset_local_stats(&mut self)
        ensures
            final(self).wf(),
            final(self)@ == fresh(),
    {
        *self = Self::new();
    }

    /// Make room for controller `c`.
    fn ensure_pad(&mut self, c: usize)
        requires
            old(self).wf(),
            c < usize::MAX,
        ensures
            final(self).wf(),
            final(self)@ == with_pad(old(self)@, c),
            final(self)@.stats.len() > c,
    {
        let ghost v = self@;
        while self.stats.len() <= c
            invariant
                c < usize::MAX,
                self.wf(),
                self@.log == v.log,
                v.strays.len() == v.stats.len(),
                v.bounces.len() == v.stats.len(),
                v.pairs.len() == v.stats.len(),
                self@.stats.len() >= v.stats.len(),
                self@.stats.len() > v.stats.len() ==> self@.stats.len() <= c + 1,
                self@.stats == padded(v.stats, self@.stats.len() as int, no_inputs()),
                self@.strays == padded(v.strays, self@.stats.len() as int, 0),
                self@.bounces == padded(v.bounces, self@.stats.len() as int, 0),
                self@.pairs == padded(v.pairs, self@.stats.len() as int, 0),
            decreases c + 1 - self.stats@.len(),
        {
            let ghost w = self@;
            self.stats.push(GapStats::new());
            self.strays.push(0);
            self.bounces.push(0);
            self.pairs.push(0);
            proof {
                let n = self@.stats.len() as int;
                assert(self@.stats =~= w.stats.push(no_inputs()));
                assert(self@.stats =~= padded(v.stats, n, no_inputs()));
                assert(self@.strays =~= padded(v.strays, n, 0));
                assert(self@.bounces =~= padded(v.bounces, n, 0));
                assert(self@.pairs =~= padded(v.pairs, n, 0));
            }
        }
        assert(self@ =~= with_pad(v, c));
    }

    /// Put an entry into the log.
    fn push_log(&mut self, e: GapLogEntry)
        requires
            old(self).wf(),
        ensures
            final(self).wf(),
            final(self)@ == (TesterView { log: logged(old(self)@.log, e), ..old(self)@ }),
    {
        let ghost v = self@;
        self.log.push(e);
        if self.log.len() > LOG_MAX {
            self.log.remove(0);
            assert(self.log@ =~= v.log.push(e).skip(1));
        }
        assert(self@ =~= (TesterView { log: logged(v.log, e), ..v }));
    }

    fn take_pair(&mut self, p: &ButtonPair, frame_ns: u64)
        requires
            old(self).wf(),
            p.controller < usize::MAX,
        ensures
            final(self).wf(),
            final(self)@ == took_pair(old(self)@, p@, frame_ns),
    {
        let c: usize = p.controller;
        self.ensure_pad(c);
        let ghost w = self@;
        self.stats[c].set_window(DEFAULT_WINDOW);
        self.stats[c].set_frame_ns(frame_ns);
        self.stats[c].record_chord(p.gap_ns, &p.buttons, p.t0_ns);
        let n: usize = self.pairs[c].wrapping_add(1);
        self.pairs[c] = n;
        assert(self@.stats =~= w.stats.update(c as int, self@.stats[c as int]));
        self.push_log(
            GapLogEntry::Pair {
                controller: c,
                attempt: n,
                button_a: p.button_a,
                button_b: p.button_b,
                count: p.count,
                gap_ns: p.gap_ns,
            },
        );
        assert(self@ =~= took_pair(old(self)@, p@, frame_ns));
    }

    fn take_stray(&mut self, p: StrayPress)
        requires
            old(self).wf(),
            p.controller < usize::MAX,
        ensures
            final(self).wf(),
            final(self)@ == took_stray(old(self)@, p),
    {
        let c: usize = p.controller;
        self.ensure_pad(c);
        let ghost w = self@;
        self.stats[c].set_window(DEFAULT_WINDOW);
        self.stats[c].record_solo();
        self.strays[c] = self.strays[c].wrapping_add(1);
        assert(self@.stats =~= w.stats.update(c as int, self@.stats[c as int]));
        self.push_log(
            GapLogEntry::Stray {
                controller: c,
                button: p.button,
                solo_ns: p.solo_ns,
                reason: p.reason,
            },
        );
        assert(self@ =~= took_stray(old(self)@, p));
    }

    fn take_bounce(&mut self, p: BounceEvent)
        requires
            old(self).wf(),
            p.controller < usize::MAX,
        ensures
            final(self).wf(),
            final(self)@ == took_bounce(old(self)@, p),
    {
        let c: usize = p.controller;
        self.ensure_pad(c);
        let ghost w = self@;
        self.bounces[c] = self.bounces[c].wrapping_add(1);
        assert(self@.stats =~= w.stats);
        self.push_log(GapLogEntry::Bounce { controller: c, button: p.button, off_ns: p.off_ns });
        assert(self@ =~= took_bounce(old(self)@, p));
    }

    /// Take the findings of a poll. `frame_ns` is the interval between two reports; 0
    /// where it is not known.
    pub fn take(&mut self, found: &PollResult, frame_ns: u64)
        requires
            old(self).wf(),
            controllers_fit(found@),
        ensures
            final(self).wf(),
            final(self)@ == took(old(self)@, found@, frame_ns),
    {
        let ghost v = self@;
        let ghost r = found@;
        let mut i: usize = 0;
        assert(r.pairs.take(0) =~= Seq::empty());
        while i < found.pairs.len()
            invariant
                self.wf(),
                r == found@,
                controllers_fit(r),
                i <= found.pairs@.len(),
                self@ == took_pairs(v, r.pairs.take(i as int), frame_ns),
            decreases found.pairs@.len() - i,
        {
            assert(r.pairs[i as int] == found.pairs@[i as int]@);
            self.take_pair(&found.pairs[i], frame_ns);
            i += 1;
            assert(r.pairs.take(i as int).drop_last() =~= r.pairs.take(i - 1));
        }
        assert(r.pairs.take(i as int) =~= r.pairs);
        let ghost v = self@;
        let mut i: usize = 0;
        assert(r.strays.take(0) =~= Seq::empty());
        while i < found.strays.len()
            invariant
                self.wf(),
                r == found@,
                controllers_fit(r),
                i <= found.strays@.len(),
                self@ == took_strays(v, r.strays.take(i as int)),
            decreases found.strays@.len() - i,
        {
            assert(r.strays[i as int] == found.strays@[i as int]);
            self.take_stray(found.strays[i]);
            i += 1;
            assert(r.strays.take(i as int).drop_last() =~= r.strays.take(i - 1));
        }
        assert(r.strays.take(i as int) =~= r.strays);
        let ghost v = self@;
        let mut i: usize = 0;
        assert(r.bounces.take(0) =~= Seq::empty());
        while i < found.bounces.len()
            invariant
                self.wf(),
                r == found@,
                controllers_fit(r),
                i <= found.bounces@.len(),
                self@ == took_bounces(v, r.bounces.take(i as int)),
            decreases found.bounces@.len() - i,
        {
            assert(r.bounces[i as int] == found.bounces@[i as int]);
            self.take_bounce(found.bounces[i]);
            i += 1;
            assert(r.bounces.take(i as int).drop_last() =~= r.bounces.take(i - 1));
        }
        assert(r.bounces.take(i as int) =~= r.bounces);
    }

    /// The statistics of controller `c`, where it has any.
    pub fn stats(&self, c: usize) -> (r: Option<&GapStats>)
        requires
            self.wf(),
        ensures
            r is Some <==> c < self@.stats.len(),
            r matches Some(s) ==> s.wf() && s@ == self@.stats[c as int],
    {
        if c < self.stats.len() {
            Some(&self.stats[c])
        } else {
            None
        }
    }

    /// Strays, bounces and chords of controller `c` so far.
    pub fn counts(&self, c: usize) -> (r: (usize, usize, usize))
        requires
            self.wf(),
        ensures
            r == (if c < self@.stats.len() {
                (self@.strays[c as int], self@.bounces[c as int], self@.pairs[c as int])
            } else {
                (0, 0, 0)
            }),
    {
        if c < self.stats.len() {
            (self.strays[c], self.bounces[c], self.pairs[c])
        } else {
            (0, 0, 0)
        }
    }

    /// The log, oldest first.
    pub fn log(&self) -> (r: &Vec<GapLogEntry>)
        ensures
            r@ == self@.log,
    {
        &self.log
    }
}

/// A game reads the two presses of this gap on different frames once in about `n`
/// times: `None` where it never does, `Some(1)` where it always does.
pub open spec fn odds(gap_ns: u64) -> Option<int> {
    let x = gap_ns * 60;
    if x == 0 {
        None
    } else if x >= 1_000_000_000 {
        Some(1)
    } else {
        let n = (2_000_000_000 + x) / (2 * x);
        Some(if n < 2 {
            2
        } else {
            n
        })
    }
}

/// The odds of a gap in words.
pub open spec fn odds_words(gap_ns: u64) -> Seq<char> {
    match odds(gap_ns) {
        None => "always safe"@,
        Some(n) => if n == 1 {
            "drops every time"@
        } else {
            "about 1 in "@ + decimal(n as nat)
        },
    }
}

/// The chance that a game splits a gap, in words that a player can picture.
pub fn odds_phrase(gap_ns: u64) -> (r: String)
    ensures
        r@ == odds_words(gap_ns),
{
    if gap_ns == 0 {
        return String::from_str("always safe");
    }
    if gap_ns > 16_666_666 {
        return String::from_str("drops every time");
    }
    let x: u64 = gap_ns * 60;
    let k: u64 = (2_000_000_000 + x) / (2 * x);
    let n: u64 = if k < 2 {
        2
    } else {
        k
    };
    let mut out: Vec<char> = chars_of("about 1 in ");
    put_number(&mut out, n);
    string_of(&out)
}

/// The window holds the chord together.
pub open spec fn held_together(sync_on: bool, gap_ns: u64, window_ms: u32) -> bool {
    sync_on && gap_ns <= window_ms * 1_000_000
}

/// What the game got of a chord.
pub open spec fn landing_words(sync_on: bool, gap_ns: u64, window_ms: u32) -> Seq<char> {
    if held_together(sync_on, gap_ns, window_ms) {
        "landed together"@
    } else if sync_on {
        "too far apart \u{2014} "@ + odds_words(gap_ns)
    } else {
        "NOBD off \u{2014} "@ + odds_words(gap_ns)
    }
}

/// Whether a chord reaches the game in one report: it does where the window is on and
/// its gap is no wider than the window.
pub fn lands_together(sync_on: bool, gap_ns: u64, window_ms: u32) -> (r: bool)
    ensures
        r == held_together(sync_on, gap_ns, window_ms),
{
    sync_on && gap_ns <= window_ms as u64 * 1_000_000
}

/// What the game got of a chord, in words.
pub fn landing_text(sync_on: bool, gap_ns: u64, window_ms: u32) -> (r: String)
    ensures
        r@ == landing_words(sync_on, gap_ns, window_ms),
{
    if lands_together(sync_on, gap_ns, window_ms) {
        return String::from_str("landed together");
    }
    let mut out: Vec<char> = if sync_on {
        chars_of("too far apart \u{2014} ")
    } else {
        chars_of("NOBD off \u{2014} ")
    };
    put(&mut out, odds_phrase(gap_ns).as_str());
    string_of(&out)
}

/// The buttons of a chord in words: the first and the last, and how many where there
/// are more than two.
pub fn chord_text(a: Button, b: Button, count: usize) -> (r: String)
    ensures
        r@ == label(a) + "+"@ + label(b) + (if count > 2 {
            " ("@ + decimal(count as nat) + " btn)"@
        } else {
            ""@
        }),
{
    let mut out: Vec<char> = chars_of(format_button(a).as_str());
    put(&mut out, "+");
    put(&mut out, format_button(b).as_str());
    let ghost head = out@;
    if count > 2 {
        put(&mut out, " (");
        put_number(&mut out, count as u64);
        put(&mut out, " btn)");
        assert(out@ =~= head + (" ("@ + decimal(count as nat) + " btn)"@));
    } else {
        put(&mut out, "");
    }
    string_of(&out)
}

/// The log never holds more than it keeps, and its last entry is the latest.
pub proof fn law_log_keeps_the_latest(log: Seq<GapLogEntry>, e: GapLogEntry)
    requires
        log.len() <= LOG_MAX,
    ensures
        logged(log, e).len() <= LOG_MAX,
        logged(log, e).last() == e,
        forall|i: int|
            0 <= i < logged(log, e).len() - 1 ==> #[trigger] logged(log, e)[i] == log[log.len() - (
            logged(log, e).len() - 1) + i],
{
}

/// The odds are one in the whole number nearest to a frame over the gap, and no better than
/// certain: a gap of nothing is never split, one of a frame or more always.
pub proof fn law_odds_are_a_frame_over_the_gap(gap_ns: u64)
    ensures
        odds(gap_ns) is None <==> gap_ns == 0,
        odds(gap_ns) == Some(1int) <==> 60 * gap_ns >= 1_000_000_000,
        odds(gap_ns) matches Some(n) ==> n == 1 || n == 2 || -60 * gap_ns <= 2 * (60 * gap_ns * n
            - 1_000_000_000) <= 60 * gap_ns,
        odds(gap_ns) == Some(2int) ==> 150 * gap_ns >= 1_000_000_000,
{
    let x = gap_ns * 60;
    if 0 < x < 1_000_000_000 {
        let n = (2_000_000_000 + x) / (2 * x);
        assert(n * (2 * x) <= 2_000_000_000 + x < (n + 1) * (2 * x)) by (nonlinear_arith)
            requires
                n == (2_000_000_000 + x) / (2 * x),
                x > 0,
        ;
        assert((n + 1) * (2 * x) == 2 * (x * n) + 2 * x) by (nonlinear_arith);
        assert(n * (2 * x) == 2 * (x * n)) by (nonlinear_arith);
        assert(60 * gap_ns * n == x * n) by (nonlinear_arith)
            requires
                x == gap_ns * 60,
        ;
        if n <= 2 {
            assert(2 * x * 3 >= 2_000_000_000 + x) by (nonlinear_arith)
                requires
                    2_000_000_000 + x < (n + 1) * (2 * x),
                    n <= 2,
                    x > 0,
            ;
        }
    }
}

/// A longer gap is never split more rarely.
pub proof fn law_longer_gaps_split_more_often(shorter: u64, longer: u64)
    requires
        0 < shorter <= longer,
    ensures
        odds(shorter)->0 >= odds(longer)->0,
{
    let x = shorter * 60;
    let y = longer * 60;
    if y < 1_000_000_000 {
        let n = (2_000_000_000 + x) / (2 * x);
        let m = (2_000_000_000 + y) / (2 * y);
        assert(m <= n) by (nonlinear_arith)
            requires
                n == (2_000_000_000 + x) / (2 * x),
                m == (2_000_000_000 + y) / (2 * y),
                0 < x <= y,
        ;
    }
}

/// A chord lands together exactly where the window is on and at least as wide as the gap; a
/// wider window never takes a chord apart.
pub proof fn law_the_window_holds_what_fits(gap_ns: u64, window_ms: u32, wider: u32)
    requires
        window_ms <= wider,
    ensures
        !held_together(false, gap_ns, window_ms),
        held_together(true, gap_ns, window_ms) ==> held_together(true, gap_ns, wider),
        held_together(true, (window_ms as u64 * 1_000_000) as u64, window_ms),
        !held_together(true, (window_ms as u64 * 1_000_000 + 1) as u64, window_ms),
{
}

/// A chord counts for its own controller: its count goes up by one, the chord is the latest
/// that the statistics look at, and it is the last of the log. Other controllers keep what
/// they have.
pub proof fn law_a_chord_counts_for_its_controller(
    v: TesterView,
    p: PairView,
    frame_ns: u64,
    other: int,
)
    requires
        p.controller < v.stats.len(),
        v.stats.len() == v.pairs.len() && v.stats.len() == v.strays.len() && v.stats.len()
            == v.bounces.len(),
        0 <= other < v.stats.len(),
        v.pairs[p.controller as int] < usize::MAX,
    ensures
        ({
            let w = took_pair(v, p, frame_ns);
            let c = p.controller as int;
            let s = w.stats[c].samples;
            &&& w.pairs[c] == v.pairs[c] + 1
            &&& w.strays == v.strays && w.bounces == v.bounces
            &&& s.len() > 0 && s.last().gap_ns == p.gap_ns && !s.last().is_solo && s.last().t0_ns
                == p.t0_ns
            &&& other != c ==> w.stats[other] == v.stats[other] && w.pairs[other] == v.pairs[other]
            &&& w.log.len() > 0
            &&& w.log.last() matches GapLogEntry::Pair { controller, attempt, gap_ns, .. }
                && controller == p.controller && attempt == w.pairs[c] && gap_ns == p.gap_ns
        }),
{
    assert(with_pad(v, p.controller).stats =~= v.stats);
    assert(with_pad(v, p.controller).strays =~= v.strays);
    assert(with_pad(v, p.controller).bounces =~= v.bounces);
}

/// A stray counts as a stray and as an input without a chord, a bounce as a bounce alone, each
/// for its own controller.
pub proof fn law_strays_and_bounces_count_apart(v: TesterView, s: StrayPress, b: BounceEvent)
    requires
        s.controller < v.stats.len(),
        b.controller < v.stats.len(),
        v.stats.len() == v.pairs.len() && v.stats.len() == v.strays.len() && v.stats.len()
            == v.bounces.len(),
        v.strays[s.controller as int] < usize::MAX,
        v.bounces[b.controller as int] < usize::MAX,
    ensures
        ({
            let w = took_stray(v, s);
            let c = s.controller as int;
            let x = w.stats[c].samples;
            &&& w.strays[c] == v.strays[c] + 1 && w.pairs == v.pairs && w.bounces == v.bounces
            &&& x.len() > 0 && x.last().is_solo
        }),
        ({
            let w = took_bounce(v, b);
            let c = b.controller as int;
            w.bounces[c] == v.bounces[c] + 1 && w.pairs == v.pairs && w.strays == v.strays
                && w.stats == v.stats
        }),
{
    assert(with_pad(v, s.controller).pairs =~= v.pairs);
    assert(with_pad(v, s.controller).bounces =~= v.bounces);
    assert(with_pad(v, b.controller).stats =~= v.stats);
    assert(with_pad(v, b.controller).pairs =~= v.pairs);
    assert(with_pad(v, b.controller).strays =~= v.strays);
}

} // verus!
