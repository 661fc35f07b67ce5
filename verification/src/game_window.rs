//! The latch for a consumer that reads once per frame.
//!
//! It is called from the game's own reads, so a press waits from one read to the
//! next. Releases are immediate, and a press that is let go before the window
//! closes is dropped. Only rising edges wait: what is already held passes.

use crate::bits::{count_ones, ones};
use crate::state::{
    after_delivery, after_gap, after_latency, directions_windowed, enabled, player, player_becomes,
    record_delivery, record_gap, record_latency, record_save, slot, window_ms, PlayerStats,
    SharedState,
};
use crate::sync_window::elapsed;
use vstd::prelude::*;

verus! {

/// The attack buttons of a DirectInput pad: buttons 0 to 7.
pub const ATTACK_MASK: u16 = 0x00FF;

/// The default window, in milliseconds.
pub const SYNC_WINDOW_MS: u128 = 5;

/// What the latch holds: the bits the consumer sees, and the open window with
/// the bits that wait in it.
pub struct Latch {
    pub committed: u16,
    pub pending: Option<(u64, u16)>,
}

/// One read of the pad.
pub struct Reading {
    pub raw: u16,
    pub attack: u16,
    pub synced: u16,
    pub now_us: u64,
    pub window_ms: u128,
}

/// The bits that wait before the read.
pub open spec fn waiting(l: Latch) -> u16 {
    match l.pending {
        Some((_, m)) => m,
        None => 0,
    }
}

/// The bits that are newly down.
pub open spec fn fresh(l: Latch, r: Reading) -> u16 {
    (r.raw & r.synced) & !l.committed & !waiting(l)
}

/// The bits that wait once the read is taken in: those still down, and the new.
pub open spec fn joined(l: Latch, r: Reading) -> u16 {
    (waiting(l) & (r.raw & r.synced)) | fresh(l, r)
}

/// When the window that is open during the read opened.
pub open spec fn open_since(l: Latch, r: Reading) -> Option<u64> {
    match l.pending {
        Some((t, _)) => Some(t),
        None => if fresh(l, r) != 0 {
            Some(r.now_us)
        } else {
            None
        },
    }
}

/// Two attacks wait together.
pub open spec fn chord(l: Latch, r: Reading) -> bool {
    ones(joined(l, r) & r.attack) >= 2
}

/// The window closes at the read: the chord is complete, or its time is up in
/// whole milliseconds.
pub open spec fn latch_closes(l: Latch, r: Reading) -> bool {
    match open_since(l, r) {
        Some(t) => chord(l, r) || elapsed(t, r.now_us) / 1000 >= r.window_ms,
        None => false,
    }
}

/// The latch after the read.
pub open spec fn after_read(l: Latch, r: Reading) -> Latch {
    Latch {
        committed: if latch_closes(l, r) {
            (l.committed & (r.raw & r.synced)) | joined(l, r)
        } else {
            l.committed & (r.raw & r.synced)
        },
        pending: if latch_closes(l, r) {
            None
        } else {
            match open_since(l, r) {
                Some(t) => Some((t, joined(l, r))),
                None => None,
            }
        },
    }
}

/// The word that the game sees at the read: what is not synced as it is, what is synced as
/// it is committed.
pub open spec fn let_through(l: Latch, r: Reading) -> u16 {
    (r.raw & !r.synced) | after_read(l, r).committed
}

/// The player's counters after the read: the finger gap of a partner that joins
/// an open window, the delivery and its hold, and a chord completed across two
/// reads where `saves` says that such chords count.
pub open spec fn counted(s: PlayerStats, l: Latch, r: Reading, saves: bool) -> PlayerStats {
    let s1 = match l.pending {
        Some((t, _)) => if fresh(l, r) != 0 {
            after_gap(s, elapsed(t, r.now_us))
        } else {
            s
        },
        None => s,
    };
    if latch_closes(l, r) {
        let s2 = after_latency(
            after_delivery(s1, ones(joined(l, r))),
            elapsed(open_since(l, r)->0, r.now_us),
        );
        if chord(l, r) && l.pending is Some && saves {
            PlayerStats { saves: s2.saves.wrapping_add(1), ..s2 }
        } else {
            s2
        }
    } else {
        s1
    }
}

/// The bits subject to the window: the attacks, or everything.
pub open spec fn synced_bits(s: SharedState, attack: u16) -> u16 {
    if s.directions_windowed != 0 {
        0xFFFF
    } else {
        attack
    }
}

/// The latch of one pad.
pub struct SyncWindow {
    /// The synced bits the game is allowed to see.
    pub committed: u16,
    /// When the open window opened, and the bits that wait in it.
    pub pending: Option<(u64, u16)>,
    /// Count chords that complete across two reads. On for a latch that runs at
    /// the game's frame rate, off for one that runs faster: there two reads are
    /// not two frames.
    pub record_saves: bool,
    /// The player whose counters this latch feeds.
    pub player: usize,
}

impl View for SyncWindow {
    type V = Latch;

    open spec fn view(&self) -> Latch {
        Latch { committed: self.committed, pending: self.pending }
    }
}

/// A latch with nothing in it.
pub open spec fn empty_latch() -> Latch {
    Latch { committed: 0, pending: None }
}

impl Default for SyncWindow {
    fn default() -> (r: Self)
        ensures
            r@ == empty_latch(),
            r.record_saves,
            r.player == 0,
    {
        SyncWindow { committed: 0, pending: None, record_saves: true, player: 0 }
    }
}

impl SyncWindow {
    /// A latch that feeds the counters of the given player.
    pub fn with_player(player: usize) -> (r: Self)
        ensures
            r@ == empty_latch(),
            r.record_saves,
            r.player == player,
    {
        SyncWindow { committed: 0, pending: None, record_saves: true, player }
    }

    /// Take in one read and say what the game sees. `attack_mask` says which
    /// bits are attacks in this pad's layout.
    pub fn process(
        &mut self,
        s: &mut SharedState,
        raw: u16,
        attack_mask: u16,
        now_us: u64,
    ) -> (out: u16)
        ensures
            final(self).record_saves == old(self).record_saves,
            final(self).player == old(self).player,
            old(s).enabled == 0 ==> {
                &&& out == raw
                &&& final(self)@ == (Latch { committed: raw, pending: None })
                &&& *final(s) == *old(s)
            },
            old(s).enabled != 0 ==> {
                let r = Reading {
                    raw,
                    attack: attack_mask,
                    synced: synced_bits(*old(s), attack_mask),
                    now_us,
                    window_ms: old(s).window_ms@[slot(old(self).player)] as u128,
                };
                &&& final(self)@ == after_read(old(self)@, r)
                &&& out == let_through(old(self)@, r)
                &&& player_becomes(
                    *old(s),
                    *final(s),
                    old(self).player,
                    counted(
                        player(*old(s), old(self).player),
                        old(self)@,
                        r,
                        old(self).record_saves,
                    ),
                )
            },
    {
        if !enabled(s) {
            self.committed = raw;
            self.pending = None;
            return raw;
        }
        let ghost l = self@;
        let ghost s0 = *s;
        let p: usize = self.player;
        let window: u128 = window_ms(s, p);
        let synced: u16 = if directions_windowed(s) {
            0xFFFF
        } else {
            attack_mask
        };
        let ghost r = Reading { raw, attack: attack_mask, synced, now_us, window_ms: window };
        let raw_s: u16 = raw & synced;
        let prev: u16 = self.committed;
        let (start, wait): (Option<u64>, u16) = match self.pending {
            Some((t, m)) => (Some(t), m),
            None => (None, 0),
        };
        let just_pressed: u16 = raw_s & !prev & !wait;
        let kept: u16 = prev & !(prev & !raw_s);
        assert(kept == prev & raw_s) by (bit_vector)
            requires
                kept == prev & !(prev & !raw_s),
        ;
        let sync_new: u16 = (wait & raw_s) | just_pressed;
        assert(sync_new == joined(l, r));
        let mut opened: Option<u64> = start;
        if just_pressed != 0 {
            match start {
                None => {
                    opened = Some(now_us);
                },
                Some(t) => {
                    record_gap(s, p, now_us.saturating_sub(t));
                },
            }
        }
        assert(opened == open_since(l, r));
        proof {
            assert(s0.players@.update(slot(p), player(s0, p)) =~= s0.players@);
        }
        self.committed = kept;
        self.pending = None;
        if let Some(t) = opened {
            let held: u64 = now_us.saturating_sub(t);
            let is_chord: bool = count_ones(sync_new & attack_mask) >= 2;
            if is_chord || (held / 1000) as u128 >= window {
                assert(latch_closes(l, r));
                self.committed = kept | sync_new;
                record_delivery(s, p, sync_new);
                record_latency(s, p, held);
                if is_chord && start.is_some() && self.record_saves {
                    record_save(s, p);
                }
            } else {
                self.pending = Some((t, sync_new));
            }
        }
        proof {
            assert(s.players@ =~= s0.players@.update(
                slot(p),
                counted(player(s0, p), l, r, old(self).record_saves),
            ));
        }
        (raw & !synced) | self.committed
    }
}

/// The game never sees a synced bit that is not down: releases are immediate.
pub proof fn law_releases_are_immediate(l: Latch, r: Reading)
    ensures
        after_read(l, r).committed & !(r.raw & r.synced) == 0,
{
    let c = l.committed;
    let m = r.raw & r.synced;
    let w = waiting(l);
    let n = after_read(l, r).committed;
    assert((c & m) & !m == 0u16 && ((c & m) | ((w & m) | (m & !c & !w))) & !m == 0u16)
        by (bit_vector);
}

/// A press that is let go before the window closes is dropped: it neither waits
/// nor is seen.
pub proof fn law_early_release_is_dropped(l: Latch, r: Reading)
    ensures
        waiting(after_read(l, r)) & !(r.raw & r.synced) == 0,
{
    let c = l.committed;
    let m = r.raw & r.synced;
    let w = waiting(l);
    assert(((w & m) | (m & !c & !w)) & !m == 0u16 && 0u16 & !m == 0u16) by (bit_vector);
}

/// What is already seen and still down stays seen, without a delay.
pub proof fn law_held_bits_pass(l: Latch, r: Reading)
    ensures
        after_read(l, r).committed & (l.committed & (r.raw & r.synced)) == l.committed & (r.raw
            & r.synced),
{
    let c = l.committed;
    let m = r.raw & r.synced;
    let j = joined(l, r);
    assert((c & m) & (c & m) == c & m && ((c & m) | j) & (c & m) == c & m) by (bit_vector);
}

/// A chord that arrives in one read is delivered in that read.
pub proof fn law_simultaneous_chord_is_immediate(r: Reading)
    requires
        ones((r.raw & r.synced) & r.attack) >= 2,
    ensures
        after_read(empty_latch(), r).committed == r.raw & r.synced,
        after_read(empty_latch(), r).pending is None,
{
    let m = r.raw & r.synced;
    let j = joined(empty_latch(), r);
    assert((0u16 & m) | (m & !0u16 & !0u16) == m && (0u16 & m) | m == m && m & !0u16 & !0u16
        == m) by (bit_vector);
    assert(j == m);
    if m == 0 {
        let a = r.attack;
        assert(0u16 & a == 0) by (bit_vector);
        crate::bits::lemma_two_or_more(0, 16);
        crate::bits::lemma_zero_word(0);
    }
}

/// The game sees a bit that is not synced exactly while it is down, and a synced one exactly
/// while it is committed.
pub proof fn law_only_synced_bits_wait(l: Latch, r: Reading, i: int)
    requires
        0 <= i < 16,
    ensures
        !crate::bits::bit(r.synced, i) ==> crate::bits::bit(let_through(l, r), i)
            == crate::bits::bit(r.raw, i),
        crate::bits::bit(r.synced, i) ==> crate::bits::bit(let_through(l, r), i)
            == crate::bits::bit(after_read(l, r).committed, i),
        crate::bits::bit(let_through(l, r), i) ==> crate::bits::bit(r.raw, i),
{
    broadcast use crate::bits::group_bit;

}

/// A lone attack waits for its window, counted in whole milliseconds from the read that first
/// showed it: until then the game does not see it, and at the first read from then on it
/// does.
pub proof fn law_a_lone_press_waits_its_window(r: Reading, later: Reading, i: int)
    requires
        0 <= i < 16,
        crate::bits::bit(r.raw, i) && crate::bits::bit(r.synced, i),
        forall|k: int| 0 <= k < 16 && k != i ==> !#[trigger] crate::bits::bit(r.raw, k),
        later.raw == r.raw && later.synced == r.synced && later.attack == r.attack,
        later.window_ms == r.window_ms,
        r.window_ms > 0,
        r.now_us <= later.now_us,
    ensures
        ({
            let first = after_read(empty_latch(), r);
            let second = after_read(first, later);
            let over = later.now_us - r.now_us >= 1000 * r.window_ms;
            &&& !crate::bits::bit(let_through(empty_latch(), r), i)
            &&& first.pending is Some && (first.pending->0).0 == r.now_us
            &&& crate::bits::bit(let_through(first, later), i) <==> over
            &&& second.pending is Some <==> !over
            &&& !over ==> (second.pending->0).0 == r.now_us
        }),
{
    broadcast use crate::bits::group_bit;

    let l = empty_latch();
    let first = after_read(l, r);
    let f = fresh(l, r);
    let j = joined(l, r);
    assert(crate::bits::bit(f, i));
    crate::bits::lemma_zero_word(f);
    lemma_lone(j & r.attack, i);
    assert(first.pending == Some((r.now_us, j)));
    let j2 = joined(first, later);
    lemma_lone(j2 & r.attack, i);
    assert(crate::bits::bit(j2, i));
    assert(elapsed(r.now_us, r.now_us) / 1000 == 0);
    let d = elapsed(r.now_us, later.now_us);
    assert(d / 1000 >= r.window_ms <==> d >= 1000 * r.window_ms);
}

proof fn lemma_lone(w: u16, i: int)
    requires
        forall|k: int| 0 <= k < 16 && k != i ==> !#[trigger] crate::bits::bit(w, k),
    ensures
        ones(w) < 2,
{
    crate::bits::lemma_two_or_more(w, 16);
}

/// A partner that comes while an attack waits completes the chord: the game sees both at that
/// read, however little time has passed. The gap, the hold, the group and, where such chords
/// count, the save are counted, each once.
pub proof fn law_a_partner_completes_the_chord(
    l: Latch,
    r: Reading,
    t0: u64,
    i: int,
    j: int,
    s: PlayerStats,
    saves: bool,
)
    requires
        0 <= i < 16 && 0 <= j < 16 && i != j,
        l.pending is Some && (l.pending->0).0 == t0,
        crate::bits::bit(waiting(l), i) && !crate::bits::bit(waiting(l), j),
        !crate::bits::bit(l.committed, j),
        crate::bits::bit(r.raw, i) && crate::bits::bit(r.synced, i) && crate::bits::bit(
            r.attack,
            i,
        ),
        crate::bits::bit(r.raw, j) && crate::bits::bit(r.synced, j) && crate::bits::bit(
            r.attack,
            j,
        ),
        t0 <= r.now_us,
        s.gap_count < u64::MAX && s.groups < u64::MAX && s.lat_count < u64::MAX && s.saves
            < u64::MAX && s.gap_sum_us + r.now_us <= u64::MAX,
    ensures
        crate::bits::bit(let_through(l, r), i) && crate::bits::bit(let_through(l, r), j),
        after_read(l, r).pending is None,
        ({
            let n = counted(s, l, r, saves);
            &&& n.gap_count == s.gap_count + 1
            &&& n.gap_sum_us == s.gap_sum_us + (r.now_us - t0)
            &&& n.groups == s.groups + 1 && n.singles == s.singles
            &&& n.lat_last_us == r.now_us - t0 && n.lat_count == s.lat_count + 1
            &&& n.saves - s.saves == if saves {
                1int
            } else {
                0
            }
        }),
{
    broadcast use crate::bits::group_bit;

    let w = joined(l, r);
    let a = w & r.attack;
    assert(crate::bits::bit(fresh(l, r), j));
    crate::bits::lemma_zero_word(fresh(l, r));
    assert(crate::bits::bit(w, i) && crate::bits::bit(w, j));
    assert(crate::bits::bit(a, i) && crate::bits::bit(a, j));
    crate::bits::lemma_two_or_more(a, 16);
    crate::bits::lemma_two_or_more(w, 16);
    if i < j {
        assert(crate::bits::bit(a, i) && crate::bits::bit(a, j));
        assert(crate::bits::bit(w, i) && crate::bits::bit(w, j));
    } else {
        assert(crate::bits::bit(a, j) && crate::bits::bit(a, i));
        assert(crate::bits::bit(w, j) && crate::bits::bit(w, i));
    }
}

} // verus!
