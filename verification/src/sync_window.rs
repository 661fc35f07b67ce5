//! The sync window: a delay line for button edges.
//!
//! It changes *when* an edge reports, never *which* buttons report and never
//! *how long* they were held:
//!
//!  * Only rising edges of synced bits are delayed. Bits outside the synced
//!    mask (directions) pass through untouched.
//!  * A press is held for at most the window, and is delivered early the moment
//!    two attacks are held: there is nothing left to wait for.
//!  * A press is not deleted. A tap shorter than the window is delivered later.
//!  * Pulse width is preserved. A release is delayed by exactly what its own
//!    press was.
//!
//! The caller hands in the clock, so the line runs on any clock in microseconds.
//! An event-driven caller must come back on [`SyncWindow::next_deadline_us`],
//! which covers the window's expiry and every outstanding release.

use crate::bits::{bit, test_bit, with_bit};
use vstd::prelude::*;

verus! {

/// The latest instant the line accepts. Sums of two instants still fit.
pub const MAX_TIME_US: u64 = 0x7FFF_FFFF_FFFF_FFFF;

/// Where one button stands in the line.
#[derive(Clone, Copy, Debug, PartialEq, Eq)]
pub enum Phase {
    /// Not reported, and nothing is known of it.
    Up,
    /// Pressed, waiting in the open window. `lifted_us` is when it was let go
    /// again while still waiting.
    Waiting { press_us: u64, lifted_us: Option<u64> },
    /// Reported as held. Its release owes `owes_us`, the delay of its press.
    /// `resumed` marks a bit that was pressed again out of that debt.
    Down { owes_us: u32, resumed: bool },
    /// Let go, and still reported until `until_us`.
    Leaving { owes_us: u32, until_us: u64 },
}

/// The line as mathematics: the phase of each button, the instant at which the
/// open window opened, and the largest delay of the last commit.
pub struct Line {
    pub phases: Seq<Phase>,
    pub opened: Option<u64>,
    pub last_delay: u32,
}

/// One call's inputs while the line is enabled.
pub struct Tick {
    pub raw: u16,
    pub attack: u16,
    pub synced: u16,
    pub now_us: u64,
    pub window_us: u32,
}

/// Bit `b` is physically down and subject to the window.
pub open spec fn held(t: Tick, b: int) -> bool {
    bit(t.raw, b) && bit(t.synced, b)
}

/// What one physical reading makes of a button.
pub open spec fn edge(p: Phase, held: bool, now_us: u64) -> Phase {
    match p {
        Phase::Up => if held {
            Phase::Waiting { press_us: now_us, lifted_us: None }
        } else {
            Phase::Up
        },
        Phase::Waiting { press_us, lifted_us } => if held {
            Phase::Waiting { press_us, lifted_us: None }
        } else if lifted_us is None {
            Phase::Waiting { press_us, lifted_us: Some(now_us) }
        } else {
            p
        },
        Phase::Down { owes_us, resumed } => if held {
            p
        } else {
            Phase::Leaving { owes_us, until_us: (now_us + owes_us) as u64 }
        },
        Phase::Leaving { owes_us, until_us } => if held {
            Phase::Down { owes_us, resumed: true }
        } else {
            p
        },
    }
}

/// The phase of bit `b` once the reading of `t` is taken in.
pub open spec fn read(l: Line, t: Tick, b: int) -> Phase {
    edge(l.phases[b], held(t, b), t.now_us)
}

/// Some bit starts to wait at `t`.
pub open spec fn presses(l: Line, t: Tick) -> bool {
    exists|b: int| 0 <= b < 16 && #[trigger] l.phases[b] is Up && held(t, b)
}

/// When the window that is open during `t` opened.
pub open spec fn open_during(l: Line, t: Tick) -> Option<u64> {
    if l.opened is Some {
        l.opened
    } else if presses(l, t) {
        Some(t.now_us)
    } else {
        None
    }
}

/// Bit `b` is a held attack that has just been pressed: waiting, or resumed out
/// of its release.
pub open spec fn chord_bit(l: Line, t: Tick, b: int) -> bool {
    &&& held(t, b)
    &&& bit(t.attack, b)
    &&& match read(l, t, b) {
        Phase::Waiting { .. } => true,
        Phase::Down { resumed, .. } => resumed,
        _ => false,
    }
}

/// Two attacks of one chord are held.
pub open spec fn grouped(l: Line, t: Tick) -> bool {
    exists|a: int, b: int|
        0 <= a < b < 16 && #[trigger] chord_bit(l, t, a) && #[trigger] chord_bit(l, t, b)
}

/// The time from `from` to `now`; none where the clock stepped back.
pub open spec fn elapsed(from: u64, now: u64) -> u64 {
    if now >= from {
        (now - from) as u64
    } else {
        0
    }
}

/// The window closes at `t`: its time is up, or the chord is complete.
pub open spec fn closes(l: Line, t: Tick) -> bool {
    match open_during(l, t) {
        Some(start) => grouped(l, t) || elapsed(start, t.now_us) >= t.window_us,
        None => false,
    }
}

/// How long a press of `press_us` was held back when it is committed: never
/// longer than the window.
pub open spec fn delay(press_us: u64, now_us: u64, window_us: u32) -> u32 {
    if elapsed(press_us, now_us) < window_us {
        elapsed(press_us, now_us) as u32
    } else {
        window_us
    }
}

/// What closing the window makes of a button.
pub open spec fn commit(p: Phase, now_us: u64, window_us: u32) -> Phase {
    match p {
        Phase::Waiting { press_us, lifted_us: None } => Phase::Down {
            owes_us: delay(press_us, now_us, window_us),
            resumed: false,
        },
        Phase::Waiting { press_us, lifted_us: Some(lift) } => Phase::Leaving {
            owes_us: delay(press_us, now_us, window_us),
            until_us: (now_us + elapsed(press_us, lift)) as u64,
        },
        Phase::Down { owes_us, .. } => Phase::Down { owes_us, resumed: false },
        _ => p,
    }
}

/// A button whose release is due goes up.
pub open spec fn settle(p: Phase, now_us: u64) -> Phase {
    match p {
        Phase::Leaving { until_us, .. } => if now_us >= until_us {
            Phase::Up
        } else {
            p
        },
        _ => p,
    }
}

/// The phase of bit `b` after `t`.
pub open spec fn advance(l: Line, t: Tick, b: int) -> Phase {
    settle(
        if closes(l, t) {
            commit(read(l, t, b), t.now_us, t.window_us)
        } else {
            read(l, t, b)
        },
        t.now_us,
    )
}

/// The largest delay among the waiting ones of the lowest `n` bits.
pub open spec fn largest_delay(l: Line, t: Tick, n: int) -> u32
    decreases n,
{
    if n <= 0 {
        0
    } else {
        let rest = largest_delay(l, t, n - 1);
        match read(l, t, n - 1) {
            Phase::Waiting { press_us, .. } => if delay(press_us, t.now_us, t.window_us) > rest {
                delay(press_us, t.now_us, t.window_us)
            } else {
                rest
            },
            _ => rest,
        }
    }
}

/// The line after one enabled call.
pub open spec fn tick(l: Line, t: Tick) -> Line {
    Line {
        phases: Seq::new(16, |b: int| advance(l, t, b)),
        opened: if closes(l, t) {
            None
        } else {
            open_during(l, t)
        },
        last_delay: if closes(l, t) {
            largest_delay(l, t, 16)
        } else {
            l.last_delay
        },
    }
}

/// The line after a call with the window switched off: it holds what is down,
/// and owes nothing.
pub open spec fn passed(raw: u16) -> Line {
    Line {
        phases: Seq::new(
            16,
            |b: int|
                if bit(raw, b) {
                    Phase::Down { owes_us: 0, resumed: false }
                } else {
                    Phase::Up
                },
        ),
        opened: None,
        last_delay: 0,
    }
}

/// A new line: nothing is down, nothing waits, nothing is owed.
pub open spec fn new_line() -> Line {
    passed(0)
}

/// A line once it is reset, whatever it held.
pub open spec fn reset_line(l: Line) -> Line {
    new_line()
}

/// The consumer sees the button.
pub open spec fn visible(p: Phase) -> bool {
    p is Down || p is Leaving
}

/// `out` shows exactly the visible bits of `l`, and the raw bits that are not
/// synced.
pub open spec fn shows(l: Line, raw: u16, synced: u16, out: u16) -> bool {
    forall|b: int|
        0 <= b < 16 ==> #[trigger] bit(out, b) == ((bit(raw, b) && !bit(synced, b)) || visible(
            l.phases[b],
        ))
}

/// The word that shows the line.
pub open spec fn word(l: Line, raw: u16, synced: u16) -> u16 {
    choose|out: u16| shows(l, raw, synced, out)
}

/// The line after one call.
pub open spec fn step(l: Line, t: Tick, enabled: bool) -> Line {
    if enabled {
        tick(l, t)
    } else {
        passed(t.raw)
    }
}

/// The word that one call reports.
pub open spec fn reported(l: Line, t: Tick, enabled: bool) -> u16 {
    if enabled {
        word(tick(l, t), t.raw, t.synced)
    } else {
        t.raw
    }
}

/// Only one word shows a line.
pub proof fn lemma_word(l: Line, raw: u16, synced: u16, out: u16)
    requires
        shows(l, raw, synced, out),
    ensures
        out == word(l, raw, synced),
{
    let w = word(l, raw, synced);
    assert(shows(l, raw, synced, w));
    assert forall|b: int| 0 <= b < 16 implies bit(out, b) == bit(w, b) by {}
    crate::bits::lemma_same_bits(out, w);
}

/// The word of a line shows it.
pub proof fn lemma_word_shows(l: Line, raw: u16, synced: u16)
    ensures
        shows(l, raw, synced, word(l, raw, synced)),
{
    let f = |b: int| (bit(raw, b) && !bit(synced, b)) || visible(l.phases[b]);
    crate::bits::lemma_word_of(f, 16);
    assert(shows(l, raw, synced, crate::bits::word_of(f, 16)));
}

/// The instants held in a phase are in range.
pub open spec fn phase_wf(p: Phase) -> bool {
    match p {
        Phase::Waiting { press_us, lifted_us } => press_us <= MAX_TIME_US && match lifted_us {
            Some(lift) => lift <= MAX_TIME_US,
            None => true,
        },
        _ => true,
    }
}

/// What every line keeps: sixteen bits, instants in range, and an open window
/// exactly while a bit waits in it.
pub open spec fn line_wf(l: Line) -> bool {
    &&& l.phases.len() == 16
    &&& forall|b: int| 0 <= b < 16 ==> phase_wf(#[trigger] l.phases[b])
    &&& l.opened is Some <==> exists|b: int| 0 <= b < 16 && #[trigger] l.phases[b] is Waiting
    &&& match l.opened {
        Some(start) => start <= MAX_TIME_US,
        None => true,
    }
}

/// When the open window expires.
pub open spec fn expiry(l: Line, window_us: u32) -> Option<u64> {
    match l.opened {
        Some(start) => Some((start + window_us) as u64),
        None => None,
    }
}

/// The earlier of two deadlines.
pub open spec fn earlier(a: Option<u64>, b: u64) -> Option<u64> {
    match a {
        Some(n) => if n <= b {
            Some(n)
        } else {
            Some(b)
        },
        None => Some(b),
    }
}

/// The earliest of the expiry and the releases due among the lowest `n` bits.
pub open spec fn deadline_below(l: Line, window_us: u32, n: int) -> Option<u64>
    decreases n,
{
    if n <= 0 {
        expiry(l, window_us)
    } else {
        let rest = deadline_below(l, window_us, n - 1);
        match l.phases[n - 1] {
            Phase::Leaving { until_us, .. } => earlier(rest, until_us),
            _ => rest,
        }
    }
}

/// The next instant at which the line must be called again.
pub open spec fn deadline(l: Line, window_us: u32) -> Option<u64> {
    deadline_below(l, window_us, 16)
}

/// The number of chord bits among the lowest `n`.
spec fn chord_count(l: Line, t: Tick, n: int) -> nat
    decreases n,
{
    if n <= 0 {
        0
    } else {
        chord_count(l, t, n - 1) + if chord_bit(l, t, n - 1) {
            1nat
        } else {
            0nat
        }
    }
}

proof fn lemma_chord_one(l: Line, t: Tick, n: int)
    requires
        0 <= n <= 16,
    ensures
        chord_count(l, t, n) >= 1 <==> exists|a: int| 0 <= a < n && chord_bit(l, t, a),
    decreases n,
{
    if n > 0 {
        lemma_chord_one(l, t, n - 1);
        if chord_count(l, t, n) >= 1 && !chord_bit(l, t, n - 1) {
            let a = choose|a: int| 0 <= a < n - 1 && chord_bit(l, t, a);
            assert(0 <= a < n && chord_bit(l, t, a));
        }
        if exists|a: int| 0 <= a < n && chord_bit(l, t, a) {
            let a = choose|a: int| 0 <= a < n && chord_bit(l, t, a);
            if a < n - 1 {
                assert(0 <= a < n - 1 && chord_bit(l, t, a));
            }
        }
    }
}

proof fn lemma_chord_pair(l: Line, t: Tick, n: int)
    requires
        0 <= n <= 16,
    ensures
        chord_count(l, t, n) >= 2 <==> exists|a: int, b: int|
            0 <= a < b < n && #[trigger] chord_bit(l, t, a) && #[trigger] chord_bit(l, t, b),
    decreases n,
{
    if n > 0 {
        lemma_chord_pair(l, t, n - 1);
        lemma_chord_one(l, t, n - 1);
        if chord_count(l, t, n) >= 2 {
            if chord_bit(l, t, n - 1) {
                let a = choose|a: int| 0 <= a < n - 1 && chord_bit(l, t, a);
                assert(0 <= a < n - 1 < n && chord_bit(l, t, a) && chord_bit(l, t, n - 1));
            } else {
                let (a, b) = choose|a: int, b: int|
                    0 <= a < b < n - 1 && #[trigger] chord_bit(l, t, a) && #[trigger] chord_bit(
                        l,
                        t,
                        b,
                    );
                assert(0 <= a < b < n && chord_bit(l, t, a) && chord_bit(l, t, b));
            }
        }
        if exists|a: int, b: int|
            0 <= a < b < n && #[trigger] chord_bit(l, t, a) && #[trigger] chord_bit(l, t, b) {
            let (a, b) = choose|a: int, b: int|
                0 <= a < b < n && #[trigger] chord_bit(l, t, a) && #[trigger] chord_bit(l, t, b);
            if b < n - 1 {
                assert(0 <= a < b < n - 1 && chord_bit(l, t, a) && chord_bit(l, t, b));
            } else {
                assert(0 <= a < n - 1 && chord_bit(l, t, a));
            }
        }
    }
}

/// A delay line for one controller.
pub struct SyncWindow {
    phases: [Phase; 16],
    opened: Option<u64>,
    last_commit_delay_us: u32,
}

impl View for SyncWindow {
    type V = Line;

    closed spec fn view(&self) -> Line {
        Line {
            phases: self.phases@,
            opened: self.opened,
            last_delay: self.last_commit_delay_us,
        }
    }
}

/// What closing the window makes of a button.
fn commit_phase(p: Phase, now_us: u64, window_us: u32) -> (r: Phase)
    requires
        phase_wf(p),
        now_us <= MAX_TIME_US,
    ensures
        r == commit(p, now_us, window_us),
{
    match p {
        Phase::Waiting { press_us, lifted_us } => {
            let waited: u64 = now_us.saturating_sub(press_us);
            let owes_us: u32 = if waited < window_us as u64 {
                waited as u32
            } else {
                window_us
            };
            match lifted_us {
                None => Phase::Down { owes_us, resumed: false },
                Some(lift) => Phase::Leaving {
                    owes_us,
                    until_us: now_us + lift.saturating_sub(press_us),
                },
            }
        },
        Phase::Down { owes_us, .. } => Phase::Down { owes_us, resumed: false },
        Phase::Up => p,
        Phase::Leaving { .. } => p,
    }
}

/// What one physical reading makes of a button.
fn edge_phase(p: Phase, is_held: bool, now_us: u64) -> (r: Phase)
    requires
        phase_wf(p),
        now_us <= MAX_TIME_US,
    ensures
        r == edge(p, is_held, now_us),
        phase_wf(r),
{
    match p {
        Phase::Up => if is_held {
            Phase::Waiting { press_us: now_us, lifted_us: None }
        } else {
            Phase::Up
        },
        Phase::Waiting { press_us, lifted_us } => if is_held {
            Phase::Waiting { press_us, lifted_us: None }
        } else {
            match lifted_us {
                None => Phase::Waiting { press_us, lifted_us: Some(now_us) },
                Some(_) => p,
            }
        },
        Phase::Down { owes_us, .. } => if is_held {
            p
        } else {
            Phase::Leaving { owes_us, until_us: now_us + owes_us as u64 }
        },
        Phase::Leaving { owes_us, .. } => if is_held {
            Phase::Down { owes_us, resumed: true }
        } else {
            p
        },
    }
}

/// A button whose release is due goes up.
fn settle_phase(p: Phase, now_us: u64) -> (r: Phase)
    ensures
        r == settle(p, now_us),
{
    match p {
        Phase::Leaving { until_us, .. } => if now_us >= until_us {
            Phase::Up
        } else {
            p
        },
        _ => p,
    }
}

/// How a button read as `p` counts: it waits, it belongs to the chord.
fn chord_phase(p: Phase) -> (r: bool)
    ensures
        r == (match p {
            Phase::Waiting { .. } => true,
            Phase::Down { resumed, .. } => resumed,
            _ => false,
        }),
{
    match p {
        Phase::Waiting { .. } => true,
        Phase::Down { resumed, .. } => resumed,
        _ => false,
    }
}

impl Default for SyncWindow {
    fn default() -> (r: Self)
        ensures
            r.wf(),
            r@ == new_line(),
    {
        Self::new()
    }
}

impl SyncWindow {
    /// The line keeps its invariant.
    pub open spec fn wf(&self) -> bool {
        line_wf(self@)
    }

    /// An idle line: nothing is down, nothing waits, nothing is owed.
    pub fn new() -> (r: Self)
        ensures
            r.wf(),
            r@ == new_line(),
    {
        let r = SyncWindow { phases: [Phase::Up; 16], opened: None, last_commit_delay_us: 0 };
        proof {
            broadcast use crate::bits::group_bit;

            assert(r@.phases =~= passed(0).phases);
        }
        r
    }

    /// The delay the most recent commit applied, the largest across the bits it
    /// committed.
    pub fn last_commit_delay_us(&self) -> (r: u32)
        ensures
            r == self@.last_delay,
    {
        self.last_commit_delay_us
    }

    /// Forget everything.
    pub fn reset(&mut self)
        ensures
            final(self).wf(),
            final(self)@ == reset_line(old(self)@),
    {
        *self = Self::new();
    }

    /// When the open window expires, or `None` when nothing waits. This covers
    /// presses only: an event-driven caller wakes on
    /// [`SyncWindow::next_deadline_us`].
    pub fn pending_until(&self, window_us: u32) -> (r: Option<u64>)
        requires
            self.wf(),
        ensures
            r == expiry(self@, window_us),
    {
        match self.opened {
            Some(start) => Some(start + window_us as u64),
            None => None,
        }
    }

    /// The next instant at which `process` must be called again: the earlier of
    /// the open window's expiry and any outstanding release. `None` when the
    /// line is idle and nothing is owed.
    pub fn next_deadline_us(&self, window_us: u32) -> (r: Option<u64>)
        requires
            self.wf(),
        ensures
            r == deadline(self@, window_us),
    {
        let mut next: Option<u64> = self.pending_until(window_us);
        let mut b: usize = 0;
        while b < 16
            invariant
                b <= 16,
                next == deadline_below(self@, window_us, b as int),
            decreases 16 - b,
        {
            if let Phase::Leaving { until_us, .. } = self.phases[b] {
                next = match next {
                    Some(n) => if n <= until_us {
                        Some(n)
                    } else {
                        Some(until_us)
                    },
                    None => Some(until_us),
                };
            }
            b = b + 1;
        }
        next
    }

    /// When the open window opened, if one is open.
    pub fn pending_since(&self) -> (r: Option<u64>)
        ensures
            r == self@.opened,
    {
        self.opened
    }

    /// Take in one reading and say what the consumer sees.
    ///
    /// `attack_mask` says which bits count as attacks, `synced_mask` which are
    /// subject to the window. With `enabled` false the raw word passes through
    /// and every debt is dropped, so that switching back on starts clean.
    pub fn process(
        &mut self,
        raw: u16,
        attack_mask: u16,
        synced_mask: u16,
        now_us: u64,
        window_us: u32,
        enabled: bool,
    ) -> (out: u16)
        requires
            old(self).wf(),
            now_us <= MAX_TIME_US,
        ensures
            final(self).wf(),
            final(self)@ == step(
                old(self)@,
                (Tick { raw, attack: attack_mask, synced: synced_mask, now_us, window_us }),
                enabled,
            ),
            out == reported(
                old(self)@,
                (Tick { raw, attack: attack_mask, synced: synced_mask, now_us, window_us }),
                enabled,
            ),
            enabled ==> shows(final(self)@, raw, synced_mask, out),
    {
        if !enabled {
            self.pass(raw);
            return raw;
        }
        let ghost l = self@;
        let ghost t = Tick { raw, attack: attack_mask, synced: synced_mask, now_us, window_us };

        // The physical edges.
        let mut phases: [Phase; 16] = self.phases;
        let mut fresh: bool = false;
        let mut chord: usize = 0;
        let mut b: usize = 0;
        while b < 16
            invariant
                b <= 16,
                line_wf(l),
                l.phases == self.phases@,
                now_us <= MAX_TIME_US,
                t == (Tick { raw, attack: attack_mask, synced: synced_mask, now_us, window_us }),
                phases@.len() == 16,
                forall|j: int| 0 <= j < b ==> #[trigger] phases@[j] == read(l, t, j),
                forall|j: int| 0 <= j < b ==> phase_wf(#[trigger] phases@[j]),
                forall|j: int| b <= j < 16 ==> #[trigger] phases@[j] == l.phases[j],
                fresh <==> exists|j: int|
                    0 <= j < b && #[trigger] l.phases[j] is Up && held(t, j),
                chord == chord_count(l, t, b as int),
                chord <= b,
            decreases 16 - b,
        {
            let is_held: bool = test_bit(raw, b) && test_bit(synced_mask, b);
            let before: Phase = phases[b];
            assert(before == l.phases[b as int]);
            let after: Phase = edge_phase(before, is_held, now_us);
            if is_held {
                if let Phase::Up = before {
                    fresh = true;
                    assert(l.phases[b as int] is Up && held(t, b as int));
                }
                if test_bit(attack_mask, b) && chord_phase(after) {
                    chord = chord + 1;
                }
            }
            phases[b] = after;
            b = b + 1;
        }
        let opened: Option<u64> = match self.opened {
            Some(start) => Some(start),
            None => if fresh {
                Some(now_us)
            } else {
                None
            },
        };
        assert(fresh == presses(l, t));
        assert(opened == open_during(l, t));
        proof {
            lemma_chord_pair(l, t, 16);
        }
        let close: bool = match opened {
            Some(start) => chord >= 2 || now_us.saturating_sub(start) >= window_us as u64,
            None => false,
        };
        assert(close == closes(l, t));

        // The commit, and the releases whose debt has run out.
        let mut last: u32 = if close {
            0
        } else {
            self.last_commit_delay_us
        };
        let mut out: u16 = raw & !synced_mask;
        let mut c: usize = 0;
        proof {
            broadcast use crate::bits::group_bit;

        }
        while c < 16
            invariant
                c <= 16,
                line_wf(l),
                now_us <= MAX_TIME_US,
                t == (Tick { raw, attack: attack_mask, synced: synced_mask, now_us, window_us }),
                phases@.len() == 16,
                close == closes(l, t),
                forall|j: int| 0 <= j < c ==> #[trigger] phases@[j] == advance(l, t, j),
                forall|j: int| c <= j < 16 ==> #[trigger] phases@[j] == read(l, t, j),
                forall|j: int| c <= j < 16 ==> phase_wf(#[trigger] phases@[j]),
                close ==> last == largest_delay(l, t, c as int),
                !close ==> last == l.last_delay,
                forall|j: int| #[trigger] bit(out, j) == ((bit(raw, j) && 0 <= j < 16 && !bit(
                    synced_mask,
                    j,
                )) || (0 <= j < c && visible(phases@[j]))),
            decreases 16 - c,
        {
            let mut p: Phase = phases[c];
            if close {
                if let Phase::Waiting { press_us, .. } = p {
                    let waited: u64 = now_us.saturating_sub(press_us);
                    let owes_us: u32 = if waited < window_us as u64 {
                        waited as u32
                    } else {
                        window_us
                    };
                    if owes_us > last {
                        last = owes_us;
                    }
                }
                p = commit_phase(p, now_us, window_us);
            }
            let p: Phase = settle_phase(p, now_us);
            phases[c] = p;
            match p {
                Phase::Down { .. } => {
                    out = with_bit(out, c);
                },
                Phase::Leaving { .. } => {
                    out = with_bit(out, c);
                },
                _ => {},
            }
            c = c + 1;
        }
        let opened: Option<u64> = if close {
            None
        } else {
            opened
        };
        *self = SyncWindow { phases, opened, last_commit_delay_us: last };
        proof {
            assert(self@.phases =~= tick(l, t).phases);
            lemma_tick_wf(l, t);
            lemma_word(self@, raw, synced_mask, out);
        }
        out
    }

    /// Switch to what is down, owing nothing.
    fn pass(&mut self, raw: u16)
        ensures
            final(self).wf(),
            final(self)@ == passed(raw),
    {
        let mut phases: [Phase; 16] = [Phase::Up; 16];
        let mut b: usize = 0;
        while b < 16
            invariant
                b <= 16,
                phases@.len() == 16,
                forall|j: int| 0 <= j < b ==> #[trigger] phases@[j] == passed(raw).phases[j],
                forall|j: int| b <= j < 16 ==> #[trigger] phases@[j] == Phase::Up,
            decreases 16 - b,
        {
            if test_bit(raw, b) {
                phases[b] = Phase::Down { owes_us: 0, resumed: false };
            }
            b = b + 1;
        }
        *self = SyncWindow { phases, opened: None, last_commit_delay_us: 0 };
        assert(self@.phases =~= passed(raw).phases);
    }
}

/// Every call keeps the line's invariant.
pub proof fn lemma_tick_wf(l: Line, t: Tick)
    requires
        line_wf(l),
        t.now_us <= MAX_TIME_US,
    ensures
        line_wf(tick(l, t)),
{
    let n = tick(l, t);
    if closes(l, t) {
        assert forall|b: int| 0 <= b < 16 implies !(#[trigger] n.phases[b] is Waiting) by {}
    } else {
        assert forall|b: int| 0 <= b < 16 implies (#[trigger] n.phases[b] is Waiting) == (
        l.phases[b] is Waiting || (l.phases[b] is Up && held(t, b))) by {}
        if l.opened is Some {
            let b = choose|b: int| 0 <= b < 16 && #[trigger] l.phases[b] is Waiting;
            assert(n.phases[b] is Waiting);
        } else if presses(l, t) {
            let b = choose|b: int| 0 <= b < 16 && #[trigger] l.phases[b] is Up && held(t, b);
            assert(n.phases[b] is Waiting);
        } else {
            assert forall|b: int| 0 <= b < 16 implies !(#[trigger] n.phases[b] is Waiting) by {
                assert(!(l.phases[b] is Waiting));
            }
        }
    }
}

} // verus!
