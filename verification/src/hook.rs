//! The logic behind a game's reads of its controller.
//!
//! The game's `XInputGetState` runs through [`on_game_read`]: it never waits, it
//! samples what a poll thread has already committed. That thread runs
//! [`poll_pad`] for each pad about a thousand times a second. [`BlockLatch`] is
//! the older latch that waits inside the game's read; [`crate::latched`] chooses
//! among the latches.

use crate::bits::{bit, count_ones, ones, test_bit};
use crate::game_window::synced_bits;
use crate::state::{
    after_delivery, after_gap, after_gp_latency, after_latency, after_raw_gap, directions_windowed,
    enabled, heartbeat, player, player_becomes, record_attempt, record_delivery, record_frame_us,
    record_frame_wait, record_gap, record_gp_latency, record_latency, record_miss, record_raw_gap,
    record_save, settle_ms, slot, smoothed_frame, window_ms_u32, PlayerStats, SharedState,
    MAX_FRAME_US, NUM_PLAYERS,
};
use crate::sync_window::{elapsed, passed, reported, step, SyncWindow, Tick, MAX_TIME_US};
use crate::telemetry::{
    closed_group, finished_chord, pressed_group, Group, XINPUT_ATTACK_MASK,
};
use vstd::prelude::*;

verus! {

/// The longest press-to-read time that counts. What is longer is a pause or a
/// load screen.
pub const GP_LAT_SANE_MAX_US: u64 = 100_000;

/// The longest that a blocking latch may stall the game's read.
pub const MAX_BLOCK_MS: u64 = 8;

/// XInput user indices that can claim a player slot.
pub const USER_INDICES: usize = 8;

// ---- player slots ---------------------------------------------------------

/// Which user index has which player slot. The game takes the first index that
/// answers, so the index is not the player: slots go in order of the first
/// successful read. An entry is the slot plus one, and 0 where there is none.
#[derive(Clone, Copy, Debug, PartialEq, Eq)]
pub struct Slots {
    pub of_idx: [u32; 8],
}

/// No user index holds slot `s`.
pub open spec fn slot_free(t: Seq<u32>, s: int) -> bool {
    forall|j: int| 0 <= j < 8 ==> #[trigger] t[j] != s + 1
}

/// The slot that user index `idx` has or gets: its own, else the lowest free one.
pub open spec fn slot_granted(t: Seq<u32>, idx: u32) -> Option<usize> {
    if idx >= 8 {
        None
    } else if t[idx as int] != 0 {
        Some((t[idx as int] - 1) as usize)
    } else if slot_free(t, 0) {
        Some(0)
    } else if slot_free(t, 1) {
        Some(1)
    } else {
        None
    }
}

/// The table once `idx` has asked.
pub open spec fn slots_after(t: Seq<u32>, idx: u32) -> Seq<u32> {
    match slot_granted(t, idx) {
        Some(s) => t.update(idx as int, (s + 1) as u32),
        None => t,
    }
}

impl Slots {
    /// Every claim names a slot, and no two user indices share one.
    pub open spec fn wf(&self) -> bool {
        &&& forall|j: int| 0 <= j < 8 ==> #[trigger] self.of_idx@[j] <= 2
        &&& forall|i: int, j: int|
            0 <= i < j < 8 && self.of_idx@[i] != 0 ==> #[trigger] self.of_idx@[i]
                != #[trigger] self.of_idx@[j]
    }

    /// No slot is claimed.
    pub fn new() -> (r: Self)
        ensures
            r.wf(),
            forall|j: int| 0 <= j < 8 ==> #[trigger] r.of_idx@[j] == 0,
    {
        Slots { of_idx: [0; 8] }
    }

    /// Whether no user index holds slot `s`.
    fn is_free(&self, s: usize) -> (r: bool)
        requires
            s < 2,
        ensures
            r == slot_free(self.of_idx@, s as int),
    {
        let mut j: usize = 0;
        while j < 8
            invariant
                j <= 8,
                s < 2,
                forall|k: int| 0 <= k < j ==> #[trigger] self.of_idx@[k] != s + 1,
            decreases 8 - j,
        {
            if self.of_idx[j] == s as u32 + 1 {
                assert(self.of_idx@[j as int] == s + 1);
                return false;
            }
            j = j + 1;
        }
        true
    }

    /// The XInput user index that holds slot `p`, if one does: the pad to poll for the
    /// player.
    pub fn index_of(&self, p: usize) -> (r: Option<usize>)
        ensures
            r matches Some(i) ==> i < 8 && self.of_idx@[i as int] == p + 1,
            r is None <==> forall|j: int| 0 <= j < 8 ==> #[trigger] self.of_idx@[j] != p + 1,
    {
        let mut j: usize = 0;
        while j < 8
            invariant
                j <= 8,
                forall|k: int| 0 <= k < j ==> #[trigger] self.of_idx@[k] != p + 1,
            decreases 8 - j,
        {
            if self.of_idx[j] != 0 && self.of_idx[j] as usize - 1 == p {
                assert(self.of_idx@[j as int] == p + 1);
                return Some(j);
            }
            j = j + 1;
        }
        None
    }

    /// The player slot of an XInput user index, first come first served. More
    /// pads than slots pass through untouched: they get none.
    pub fn slot_for_idx(&mut self, idx: u32) -> (r: Option<usize>)
        requires
            old(self).wf(),
        ensures
            final(self).wf(),
            r == slot_granted(old(self).of_idx@, idx),
            final(self).of_idx@ == slots_after(old(self).of_idx@, idx),
            r matches Some(s) ==> s < 2,
    {
        if idx >= 8 {
            return None;
        }
        let i: usize = idx as usize;
        let claimed: u32 = self.of_idx[i];
        if claimed != 0 {
            proof {
                assert(self.of_idx@.update(i as int, claimed) =~= self.of_idx@);
            }
            return Some((claimed - 1) as usize);
        }
        let mut s: usize = 0;
        while s < NUM_PLAYERS
            invariant
                s <= 2,
                i == idx < 8,
                self.wf(),
                self.of_idx@ == old(self).of_idx@,
                self.of_idx@[i as int] == 0,
                forall|k: int| 0 <= k < s ==> !(#[trigger] slot_free(self.of_idx@, k)),
            decreases 2 - s,
        {
            if self.is_free(s) {
                self.of_idx[i] = s as u32 + 1;
                proof {
                    assert(s > 0 ==> !slot_free(old(self).of_idx@, 0));
                    assert forall|a: int, b: int|
                        0 <= a < b < 8 && self.of_idx@[a] != 0 implies #[trigger] self.of_idx@[a]
                        != #[trigger] self.of_idx@[b] by {
                        assert(old(self).of_idx@[a] != s + 1 && old(self).of_idx@[b] != s + 1);
                    }
                }
                return Some(s);
            }
            s = s + 1;
        }
        proof {
            assert(!slot_free(self.of_idx@, 0) && !slot_free(self.of_idx@, 1));
        }
        None
    }
}

/// A user index keeps the slot it was given.
pub proof fn law_slot_is_kept(t: Seq<u32>, idx: u32)
    requires
        t.len() == 8,
        forall|j: int| 0 <= j < 8 ==> #[trigger] t[j] <= 2,
        slot_granted(t, idx) is Some,
    ensures
        slot_granted(slots_after(t, idx), idx) == slot_granted(t, idx),
        slots_after(slots_after(t, idx), idx) == slots_after(t, idx),
{
    let u = slots_after(t, idx);
    assert(u.update(idx as int, u[idx as int]) =~= u);
}

/// Two user indices never share a player slot.
pub proof fn law_slots_are_not_shared(t: Slots, a: u32, b: u32)
    requires
        t.wf(),
        a < 8,
        b < 8,
        a != b,
        t.of_idx@[a as int] != 0,
        t.of_idx@[b as int] != 0,
    ensures
        slot_granted(t.of_idx@, a) != slot_granted(t.of_idx@, b),
{
    if a < b {
        assert(t.of_idx@[a as int] != t.of_idx@[b as int]);
    } else {
        assert(t.of_idx@[b as int] != t.of_idx@[a as int]);
    }
}

/// The pad that is polled for a player is the pad whose reads the player is given: the
/// user index that holds slot `p` is granted `p`, and no other index that has a slot is.
pub proof fn law_the_polled_pad_is_the_players(t: Slots, p: usize, i: usize, other: u32)
    requires
        t.wf(),
        i < 8,
        t.of_idx@[i as int] == p + 1,
        other < 8,
        t.of_idx@[other as int] != 0,
    ensures
        slot_granted(t.of_idx@, i as u32) == Some(p),
        slot_granted(t.of_idx@, other) == Some(p) <==> other == i,
{
    if other < i {
        assert(t.of_idx@[other as int] != t.of_idx@[i as int]);
    } else if i < other {
        assert(t.of_idx@[i as int] != t.of_idx@[other as int]);
    }
}

// ---- the game's reads -----------------------------------------------------

/// What the poll thread publishes of one pad.
#[derive(Clone, Copy, Debug, PartialEq, Eq)]
pub struct Published {
    /// The synced bits that may be seen.
    pub committed: u16,
    pub synced_mask: u16,
    /// When each attack last went down; 0 before it has.
    pub press_ts: [u64; 16],
}

impl Published {
    /// Nothing has been polled.
    pub fn new() -> (r: Self)
        ensures
            r.committed == 0,
            r.synced_mask == XINPUT_ATTACK_MASK,
            forall|b: int| 0 <= b < 16 ==> #[trigger] r.press_ts@[b] == 0,
    {
        Published { committed: 0, synced_mask: XINPUT_ATTACK_MASK, press_ts: [0; 16] }
    }
}

/// What the game's side remembers of one pad between reads.
#[derive(Clone, Copy, Debug, PartialEq, Eq)]
pub struct Reader {
    /// The attacks the game last saw.
    pub delivered: u16,
    /// Attacks that were down across a read while still withheld.
    pub withheld: u16,
}

impl Reader {
    /// The game has not read yet.
    pub fn new() -> (r: Self)
        ensures
            r == (Reader { delivered: 0, withheld: 0 }),
    {
        Reader { delivered: 0, withheld: 0 }
    }
}

/// The word the game is given: fresh for what is not synced, committed for what is.
pub open spec fn sampled(b: Published, raw: u16) -> u16 {
    (raw & !b.synced_mask) | (b.committed & b.synced_mask)
}

/// The attacks that have been withheld across a read, with this one.
pub open spec fn withheld_with(b: Published, r: Reader, raw: u16) -> u16 {
    r.withheld | ((raw & XINPUT_ATTACK_MASK) & !(b.committed & XINPUT_ATTACK_MASK))
}

/// The attacks the game sees for the first time.
pub open spec fn newly_seen(b: Published, r: Reader) -> u16 {
    (b.committed & XINPUT_ATTACK_MASK) & !r.delivered
}

/// The counters after the lowest `n` of the attacks in `newly` reached the game.
pub open spec fn arrivals(
    s: PlayerStats,
    newly: u16,
    seen: u16,
    press_ts: Seq<u64>,
    now_us: u64,
    n: int,
) -> PlayerStats
    decreases n,
{
    if n <= 0 {
        s
    } else {
        let r = arrivals(s, newly, seen, press_ts, now_us, n - 1);
        let ts = press_ts[n - 1];
        if !bit(newly, n - 1) {
            r
        } else {
            let timed = if ts != 0 && now_us >= ts && now_us - ts <= GP_LAT_SANE_MAX_US {
                after_gp_latency(r, (now_us - ts) as u64)
            } else {
                r
            };
            if bit(seen, n - 1) {
                PlayerStats { frame_waits: timed.frame_waits.wrapping_add(1), ..timed }
            } else {
                timed
            }
        }
    }
}

/// The counters after a read: each arrival, and a chord saved where part of it
/// had been withheld across a read.
pub open spec fn read_counted(
    s: PlayerStats,
    b: Published,
    r: Reader,
    raw: u16,
    now_us: u64,
) -> PlayerStats {
    let newly = newly_seen(b, r);
    let seen = withheld_with(b, r, raw);
    let a = arrivals(s, newly, seen, b.press_ts@, now_us, 16);
    if ones(newly) >= 2 && newly & seen != 0 {
        PlayerStats { saves: a.saves.wrapping_add(1), ..a }
    } else {
        a
    }
}

/// What the game's side remembers after a read.
pub open spec fn reader_after(b: Published, r: Reader, raw: u16) -> Reader {
    Reader {
        delivered: b.committed & XINPUT_ATTACK_MASK,
        withheld: (withheld_with(b, r, raw) & !newly_seen(b, r)) & (raw & XINPUT_ATTACK_MASK),
    }
}

/// Sample what is committed of player `p` for one read of the game. With the
/// window off the raw word passes.
pub fn continuous_apply(
    s: &mut SharedState,
    p: usize,
    b: &Published,
    r: &mut Reader,
    raw: u16,
    now_us: u64,
) -> (out: u16)
    ensures
        old(s).enabled == 0 ==> out == raw && *final(s) == *old(s) && *final(r) == *old(r),
        old(s).enabled != 0 ==> {
            &&& out == sampled(*b, raw)
            &&& *final(r) == reader_after(*b, *old(r), raw)
            &&& player_becomes(
                *old(s),
                *final(s),
                p,
                read_counted(player(*old(s), p), *b, *old(r), raw, now_us),
            )
        },
{
    if !enabled(s) {
        return raw;
    }
    let ghost s0 = *s;
    let ghost r0 = *r;
    let delivered: u16 = (raw & !b.synced_mask) | (b.committed & b.synced_mask);
    let committed_atks: u16 = b.committed & XINPUT_ATTACK_MASK;
    let raw_atks: u16 = raw & XINPUT_ATTACK_MASK;
    let seen: u16 = r.withheld | (raw_atks & !committed_atks);
    let newly: u16 = committed_atks & !r.delivered;
    let mut i: usize = 0;
    proof {
        assert(s0.players@.update(slot(p), player(s0, p)) =~= s0.players@);
    }
    while i < 16
        invariant
            i <= 16,
            newly == newly_seen(*b, r0),
            seen == withheld_with(*b, r0, raw),
            player_becomes(
                s0,
                *s,
                p,
                arrivals(player(s0, p), newly, seen, b.press_ts@, now_us, i as int),
            ),
        decreases 16 - i,
    {
        if test_bit(newly, i) {
            let ts: u64 = b.press_ts[i];
            if ts != 0 && now_us >= ts {
                let d: u64 = now_us - ts;
                if d <= GP_LAT_SANE_MAX_US {
                    record_gp_latency(s, p, d);
                }
            }
            if test_bit(seen, i) {
                record_frame_wait(s, p);
            }
        }
        i = i + 1;
        proof {
            let a = arrivals(player(s0, p), newly, seen, b.press_ts@, now_us, i as int);
            assert(s.players@ =~= s0.players@.update(slot(p), a));
        }
    }
    if count_ones(newly) >= 2 && newly & seen != 0 {
        record_save(s, p);
    }
    proof {
        let a = read_counted(player(s0, p), *b, r0, raw, now_us);
        assert(s.players@ =~= s0.players@.update(slot(p), a));
    }
    r.withheld = (seen & !newly) & raw_atks;
    r.delivered = committed_atks;
    delivered
}

/// The game's side of the hook.
#[derive(Clone, Copy, Debug, PartialEq, Eq)]
pub struct GameSide {
    pub slots: Slots,
    /// When each player's pad was last read; 0 before the first read.
    pub last_poll_us: [u64; 2],
    pub readers: [Reader; 2],
}

/// What one read of the game comes to.
#[derive(Clone, Copy, Debug, PartialEq, Eq)]
pub struct ReadOutcome {
    /// The word to hand to the game.
    pub word: u16,
    /// The player whose pad it is.
    pub slot: Option<usize>,
    /// The time since that player's previous read, for the cadence probe.
    pub interval_us: Option<u64>,
}

impl GameSide {
    /// The game has read nothing.
    pub fn new() -> (r: Self)
        ensures
            r.wf(),
            forall|j: int| 0 <= j < 8 ==> #[trigger] r.slots.of_idx@[j] == 0,
            forall|p: int| 0 <= p < 2 ==> #[trigger] r.last_poll_us@[p] == 0,
            forall|p: int|
                0 <= p < 2 ==> #[trigger] r.readers@[p] == (Reader { delivered: 0, withheld: 0 }),
    {
        GameSide {
            slots: Slots::new(),
            last_poll_us: [0, 0],
            readers: [Reader::new(), Reader::new()],
        }
    }

    pub open spec fn wf(&self) -> bool {
        self.slots.wf()
    }
}

/// The state with the frame time of player `p` smoothed by an interval.
pub open spec fn frame_counted(s: PlayerStats, interval: Option<u64>) -> PlayerStats {
    match interval {
        Some(d) => PlayerStats { frame_us: smoothed_frame(s.frame_us, d), ..s },
        None => s,
    }
}

/// One read of the game: `ret` is what the real read returned (0 is success),
/// `raw` the word it filled in, or `None` where the game gave no place for it.
///
/// Every read beats the heart. A successful one claims or finds the player's
/// slot, measures the frame, and replaces the word by what is committed.
pub fn on_game_read(
    s: &mut SharedState,
    g: &mut GameSide,
    published: &[Published; 2],
    ret: u32,
    idx: u32,
    raw: Option<u16>,
    now_us: u64,
) -> (r: Option<ReadOutcome>)
    requires
        old(g).wf(),
        forall|p: int| 0 <= p < 2 ==> #[trigger] old(g).last_poll_us@[p] <= now_us,
        forall|p: int| 0 <= p < 2 ==> (#[trigger] old(s).players@[p]).frame_us <= MAX_FRAME_US,
    ensures
        final(g).wf(),
        forall|p: int| 0 <= p < 2 ==> (#[trigger] final(s).players@[p]).frame_us <= MAX_FRAME_US,
        forall|p: int| 0 <= p < 2 ==> #[trigger] final(g).last_poll_us@[p] <= now_us,
        final(g).slots.of_idx@ == if ret == 0 {
            slots_after(old(g).slots.of_idx@, idx)
        } else {
            old(g).slots.of_idx@
        },
        r is Some <==> ret == 0 && raw is Some && slot_granted(old(g).slots.of_idx@, idx) is Some,
        r is None ==> {
            &&& *final(s) == (SharedState {
                dll_heartbeat: old(s).dll_heartbeat.wrapping_add(1),
                ..*old(s)
            })
            &&& final(g).last_poll_us == old(g).last_poll_us
            &&& final(g).readers == old(g).readers
        },
        r matches Some(o) ==> {
            let p = slot_granted(old(g).slots.of_idx@, idx)->0;
            let last = old(g).last_poll_us@[p as int];
            let b = published@[p as int];
            let rd = old(g).readers@[p as int];
            let beat = SharedState {
                dll_heartbeat: old(s).dll_heartbeat.wrapping_add(1),
                ..*old(s)
            };
            let framed = frame_counted(player(*old(s), p), o.interval_us);
            &&& p < 2
            &&& o.slot == Some(p)
            &&& o.interval_us == if last != 0 {
                Some((now_us - last) as u64)
            } else {
                None
            }
            &&& final(g).last_poll_us@ == old(g).last_poll_us@.update(p as int, now_us)
            &&& old(s).enabled == 0 ==> {
                &&& o.word == raw->0
                &&& final(g).readers@ == old(g).readers@
                &&& player_becomes(beat, *final(s), p, framed)
            }
            &&& old(s).enabled != 0 ==> {
                &&& o.word == sampled(b, raw->0)
                &&& final(g).readers@ == old(g).readers@.update(
                    p as int,
                    reader_after(b, rd, raw->0),
                )
                &&& player_becomes(
                    beat,
                    *final(s),
                    p,
                    read_counted(framed, b, rd, raw->0, now_us),
                )
            }
        },
{
    heartbeat(s);
    let ghost beat = *s;
    if ret != 0 {
        return None;
    }
    let p: usize = match g.slots.slot_for_idx(idx) {
        Some(p) => p,
        None => {
            return None;
        },
    };
    let word: u16 = match raw {
        Some(w) => w,
        None => {
            return None;
        },
    };
    let last: u64 = g.last_poll_us[p];
    g.last_poll_us[p] = now_us;
    let mut interval: Option<u64> = None;
    proof {
        assert(beat.players@.update(slot(p), player(beat, p)) =~= beat.players@);
    }
    if last != 0 {
        let d: u64 = now_us - last;
        record_frame_us(s, p, d);
        interval = Some(d);
    }
    let ghost framed = *s;
    let mut reader: Reader = g.readers[p];
    let ghost rd = reader;
    let out: u16 = continuous_apply(s, p, &published[p], &mut reader, word, now_us);
    g.readers[p] = reader;
    proof {
        if beat.enabled == 0 {
            assert(g.readers@ =~= old(g).readers@);
        } else {
            let q = read_counted(player(framed, p), published@[p as int], rd, word, now_us);
            assert(s.players@ =~= beat.players@.update(slot(p), q));
            lemma_reads_keep_frames(player(framed, p), published@[p as int], rd, word, now_us);
        }
    }
    Some(ReadOutcome { word: out, slot: Some(p), interval_us: interval })
}

/// Counting arrivals leaves the frame time alone.
pub(crate) proof fn lemma_reads_keep_frames(
    s: PlayerStats,
    b: Published,
    r: Reader,
    raw: u16,
    now_us: u64,
)
    ensures
        read_counted(s, b, r, raw, now_us).frame_us == s.frame_us,
{
    lemma_arrivals_keep_frames(
        s,
        newly_seen(b, r),
        withheld_with(b, r, raw),
        b.press_ts@,
        now_us,
        16,
    );
}

proof fn lemma_arrivals_keep_frames(
    s: PlayerStats,
    newly: u16,
    seen: u16,
    press_ts: Seq<u64>,
    now_us: u64,
    n: int,
)
    ensures
        arrivals(s, newly, seen, press_ts, now_us, n).frame_us == s.frame_us,
    decreases n,
{
    if n > 0 {
        lemma_arrivals_keep_frames(s, newly, seen, press_ts, now_us, n - 1);
    }
}

// ---- the poll thread ------------------------------------------------------

/// What the poll thread remembers of one pad.
pub struct PollSide {
    pub window: SyncWindow,
    pub last_raw_atks: u16,
    pub group: Group,
    /// With the window off: the lead press of what may become a pair.
    pub shadow_lead: Option<u64>,
}

/// The lead that is still young enough to find a partner.
pub open spec fn live_lead(lead: Option<u64>, now_us: u64, window_us: u64) -> Option<u64> {
    match lead {
        Some(l) => if elapsed(l, now_us) > window_us {
            None
        } else {
            Some(l)
        },
        None => None,
    }
}

/// The lead after a reading: a press starts one, a partner or an empty pad ends it.
pub open spec fn lead_after(
    lead: Option<u64>,
    rising: u16,
    attacks: u16,
    now_us: u64,
    window_us: u64,
) -> Option<u64> {
    if attacks == 0 {
        None
    } else if rising == 0 {
        live_lead(lead, now_us, window_us)
    } else if live_lead(lead, now_us, window_us) is Some {
        None
    } else {
        Some(now_us)
    }
}

/// The counters of the passive monitor after a reading: a pair is an attempt with
/// a gap, and a miss where the game read between its two presses.
pub open spec fn shadow_counted(
    s: PlayerStats,
    lead: Option<u64>,
    rising: u16,
    now_us: u64,
    window_us: u64,
    last_read_us: u64,
) -> PlayerStats {
    match live_lead(lead, now_us, window_us) {
        Some(l) => if rising != 0 {
            let g = after_gap(
                PlayerStats { attempts: s.attempts.wrapping_add(1), ..s },
                elapsed(l, now_us),
            );
            if last_read_us > l {
                PlayerStats { misses: g.misses.wrapping_add(1), ..g }
            } else {
                g
            }
        } else {
            s
        },
        None => s,
    }
}

/// A window setting in milliseconds, kept within 1 to 16 and given in microseconds.
pub open spec fn poll_window_us(ms: u32) -> u32 {
    if ms < 1 {
        1_000
    } else if ms > 16 {
        16_000
    } else {
        (ms * 1_000) as u32
    }
}

/// The attacks that have gone down since the last poll.
pub open spec fn poll_rising(ps: PollSide, raw: u16) -> u16 {
    (raw & XINPUT_ATTACK_MASK) & !ps.last_raw_atks
}

/// The window's inputs at one poll.
pub open spec fn poll_tick(s: SharedState, p: usize, raw: u16, now_us: u64) -> Tick {
    Tick {
        raw,
        attack: XINPUT_ATTACK_MASK,
        synced: synced_bits(s, XINPUT_ATTACK_MASK),
        now_us,
        window_us: poll_window_us(s.window_ms@[slot(p)]),
    }
}

/// The attacks that the window lets through for the first time.
pub open spec fn poll_newly(s: SharedState, p: usize, ps: PollSide, b: Published, raw: u16, now_us: u64) -> u16 {
    reported(ps.window@, poll_tick(s, p, raw, now_us), s.enabled != 0) & !b.committed
        & XINPUT_ATTACK_MASK
}

/// The player's counters after one poll.
pub open spec fn poll_counted(
    s: SharedState,
    p: usize,
    ps: PollSide,
    b: Published,
    raw: u16,
    now_us: u64,
    last_read_us: u64,
) -> PlayerStats {
    let s0 = player(s, p);
    let s1 = match finished_chord(ps.group, raw & XINPUT_ATTACK_MASK, now_us) {
        Some(g) => after_raw_gap(s0, g),
        None => s0,
    };
    let s2 = if s.enabled == 0 {
        shadow_counted(
            s1,
            ps.shadow_lead,
            poll_rising(ps, raw),
            now_us,
            (s.window_ms@[slot(p)] * 1000) as u64,
            last_read_us,
        )
    } else {
        s1
    };
    let newly = poll_newly(s, p, ps, b, raw, now_us);
    if newly != 0 {
        after_latency(
            after_delivery(s2, ones(newly)),
            step(ps.window@, poll_tick(s, p, raw, now_us), s.enabled != 0).last_delay as u64,
        )
    } else {
        s2
    }
}

impl PollSide {
    pub open spec fn wf(&self) -> bool {
        self.window.wf()
    }

    /// Nothing has been polled.
    pub fn new() -> (r: Self)
        ensures
            r.wf(),
            r.window@ == passed(0),
            r.last_raw_atks == 0,
            r.group == (Group { open: false, first_us: 0, last_us: 0, mask: 0 }),
            r.shadow_lead is None,
    {
        PollSide {
            window: SyncWindow::new(),
            last_raw_atks: 0,
            group: Group::new(),
            shadow_lead: None,
        }
    }
}

/// The press times with `now_us` for each bit of `rising`.
pub(crate) fn stamp(ts: &mut [u64; 16], rising: u16, now_us: u64)
    ensures
        final(ts)@.len() == 16,
        forall|i: int|
            0 <= i < 16 ==> #[trigger] final(ts)@[i] == if bit(rising, i) {
                now_us
            } else {
                old(ts)@[i]
            },
{
    let mut i: usize = 0;
    while i < 16
        invariant
            i <= 16,
            ts@.len() == 16,
            forall|k: int|
                0 <= k < 16 ==> #[trigger] ts@[k] == if k < i && bit(rising, k) {
                    now_us
                } else {
                    old(ts)@[k]
                },
        decreases 16 - i,
    {
        if test_bit(rising, i) {
            ts[i] = now_us;
        }
        i = i + 1;
    }
}

/// The passive monitor of player `p`: with the window off, a second press within the
/// window would have been a pair. Returns the lead press that waits for a partner.
pub(crate) fn watch(
    s: &mut SharedState,
    p: usize,
    shadow_lead: Option<u64>,
    rising: u16,
    attacks: u16,
    now_us: u64,
    last_read_us: u64,
) -> (r: Option<u64>)
    ensures
        r == if old(s).enabled == 0 {
            lead_after(
                shadow_lead,
                rising,
                attacks,
                now_us,
                (old(s).window_ms@[slot(p)] * 1000) as u64,
            )
        } else {
            None
        },
        player_becomes(
            *old(s),
            *final(s),
            p,
            if old(s).enabled == 0 {
                shadow_counted(
                    player(*old(s), p),
                    shadow_lead,
                    rising,
                    now_us,
                    (old(s).window_ms@[slot(p)] * 1000) as u64,
                    last_read_us,
                )
            } else {
                player(*old(s), p)
            },
        ),
{
    let ghost s0 = *s;
    proof {
        assert(s0.players@.update(slot(p), player(s0, p)) =~= s0.players@);
    }
    if enabled(s) {
        return None;
    }
    let window_us: u64 = window_ms_u32(s, p) as u64 * 1000;
    let lead: Option<u64> = match shadow_lead {
        Some(l) => if now_us.saturating_sub(l) > window_us {
            None
        } else {
            Some(l)
        },
        None => None,
    };
    let mut next: Option<u64> = lead;
    if rising != 0 {
        match lead {
            None => {
                next = Some(now_us);
            },
            Some(l) => {
                record_attempt(s, p);
                record_gap(s, p, now_us.saturating_sub(l));
                if last_read_us > l {
                    record_miss(s, p);
                }
                next = None;
            },
        }
    }
    if attacks == 0 {
        next = None;
    }
    assert(s.players@ =~= s0.players@.update(slot(p), player(*s, p)));
    next
}

/// One poll of player `p`'s pad: stamp the presses, follow the raw chord, watch
/// for pairs while the window is off, run the window and publish what it lets
/// through. `last_read_us` is when the game last read this pad. Returns the gap
/// of a raw chord that ended, for the caller to weigh against a frame and charge
/// with [`crate::state::record_risk`].
pub fn poll_pad(
    s: &mut SharedState,
    p: usize,
    ps: &mut PollSide,
    b: &mut Published,
    raw: u16,
    now_us: u64,
    last_read_us: u64,
) -> (r: Option<u64>)
    requires
        old(ps).wf(),
        now_us <= MAX_TIME_US,
    ensures
        final(ps).wf(),
        r == finished_chord(old(ps).group, raw & XINPUT_ATTACK_MASK, now_us),
        player_becomes(
            *old(s),
            *final(s),
            p,
            poll_counted(*old(s), p, *old(ps), *old(b), raw, now_us, last_read_us),
        ),
        final(ps).last_raw_atks == raw & XINPUT_ATTACK_MASK,
        final(ps).group == pressed_group(
            closed_group(old(ps).group, raw & XINPUT_ATTACK_MASK, now_us),
            poll_rising(*old(ps), raw),
            now_us,
        ),
        final(ps).shadow_lead == if old(s).enabled == 0 {
            lead_after(
                old(ps).shadow_lead,
                poll_rising(*old(ps), raw),
                raw & XINPUT_ATTACK_MASK,
                now_us,
                (old(s).window_ms@[slot(p)] * 1000) as u64,
            )
        } else {
            None
        },
        final(ps).window@ == step(
            old(ps).window@,
            poll_tick(*old(s), p, raw, now_us),
            old(s).enabled != 0,
        ),
        final(b).committed == reported(
            old(ps).window@,
            poll_tick(*old(s), p, raw, now_us),
            old(s).enabled != 0,
        ) & synced_bits(*old(s), XINPUT_ATTACK_MASK),
        final(b).synced_mask == synced_bits(*old(s), XINPUT_ATTACK_MASK),
        forall|i: int|
            0 <= i < 16 ==> #[trigger] final(b).press_ts@[i] == if bit(
                poll_rising(*old(ps), raw),
                i,
            ) {
                now_us
            } else {
                old(b).press_ts@[i]
            },
{
    let ghost s0 = *s;
    let raw_atks: u16 = raw & XINPUT_ATTACK_MASK;
    let rising: u16 = raw_atks & !ps.last_raw_atks;
    let on: bool = enabled(s);
    let window_ms: u32 = window_ms_u32(s, p);
    let synced: u16 = if directions_windowed(s) {
        0xFFFF
    } else {
        XINPUT_ATTACK_MASK
    };
    proof {
        assert(s0.players@.update(slot(p), player(s0, p)) =~= s0.players@);
    }
    let mut ts: [u64; 16] = b.press_ts;
    stamp(&mut ts, rising, now_us);
    b.press_ts = ts;

    let chord: Option<u64> = ps.group.step(raw_atks, rising, now_us);
    if let Some(gap) = chord {
        record_raw_gap(s, p, gap);
    }
    ps.last_raw_atks = raw_atks;
    let ghost s1 = *s;

    ps.shadow_lead = watch(s, p, ps.shadow_lead, rising, raw_atks, now_us, last_read_us);
    let ghost s2 = *s;
    proof {
        assert(s2.players@ =~= s0.players@.update(slot(p), player(s2, p)));
    }

    let window_us: u32 = if window_ms < 1 {
        1_000
    } else if window_ms > 16 {
        16_000
    } else {
        window_ms * 1_000
    };
    let filtered: u16 = ps.window.process(raw, XINPUT_ATTACK_MASK, synced, now_us, window_us, on);
    let newly: u16 = filtered & !b.committed & XINPUT_ATTACK_MASK;
    if newly != 0 {
        record_delivery(s, p, newly);
        let d: u32 = ps.window.last_commit_delay_us();
        record_latency(s, p, d as u64);
    }
    proof {
        assert(s.players@ =~= s0.players@.update(slot(p), player(*s, p)));
    }
    b.committed = filtered & synced;
    b.synced_mask = synced;
    chord
}

// ---- the blocking latch ---------------------------------------------------

/// Which latch the mode setting asks for.
#[derive(Clone, Copy, Debug, PartialEq, Eq)]
pub enum LatchMode {
    Defer,
    Block,
    Continuous,
}

/// The latch that a mode setting asks for.
pub open spec fn mode_asked(mode: u32) -> LatchMode {
    if mode == 1 {
        LatchMode::Block
    } else if mode == 2 {
        LatchMode::Continuous
    } else {
        LatchMode::Defer
    }
}

/// Which latch the mode setting asks for; an unknown one defers.
pub fn latch_mode(mode: u32) -> (r: LatchMode)
    ensures
        r == mode_asked(mode),
{
    if mode == 1 {
        LatchMode::Block
    } else if mode == 2 {
        LatchMode::Continuous
    } else {
        LatchMode::Defer
    }
}

/// What a blocking latch does with a read.
#[derive(Clone, Copy, Debug, PartialEq, Eq)]
pub enum BlockPlan {
    /// Hand the word on.
    Pass,
    /// A lone attack: read again and again, for at most this long.
    Wait { window_ms: u64 },
    /// The chord is already complete.
    Complete,
}

/// What a blocking latch makes of one more read.
#[derive(Clone, Copy, Debug, PartialEq, Eq)]
pub enum BlockStep {
    /// Read again.
    Again,
    /// The partner is down.
    Partner,
    /// The press was let go: stop waiting.
    Released,
}

/// The latch that waits inside the game's read until a partner arrives.
#[derive(Clone, Copy, Debug, PartialEq, Eq)]
pub struct BlockLatch {
    /// The synced bits last handed to the game.
    pub delivered: u16,
}

/// What the latch does with the word `raw`.
pub open spec fn block_plan(s: SharedState, p: usize, delivered: u16, raw: u16) -> BlockPlan {
    let now = raw & synced_bits(s, XINPUT_ATTACK_MASK);
    if s.enabled == 0 || now & !delivered == 0 {
        BlockPlan::Pass
    } else if ones(now) >= 2 {
        BlockPlan::Complete
    } else {
        BlockPlan::Wait {
            window_ms: if s.window_ms@[slot(p)] < MAX_BLOCK_MS {
                s.window_ms@[slot(p)] as u64
            } else {
                MAX_BLOCK_MS
            },
        }
    }
}

/// The counters after a blocked read that handed over `attacks`.
pub open spec fn block_counted(
    s: PlayerStats,
    attacks: u16,
    stalled_us: u64,
    gap_us: Option<u64>,
) -> PlayerStats {
    let d = after_delivery(after_latency(s, stalled_us), ones(attacks));
    match gap_us {
        Some(g) => {
            let a = after_gap(d, g);
            PlayerStats { saves: a.saves.wrapping_add(1), ..a }
        },
        None => d,
    }
}

impl BlockLatch {
    /// Decide what to do with a read. Without a fresh press the word passes.
    pub fn begin(&mut self, s: &SharedState, p: usize, raw: u16) -> (r: BlockPlan)
        ensures
            r == block_plan(*s, p, old(self).delivered, raw),
            final(self).delivered == if s.enabled != 0 && r is Pass {
                raw & synced_bits(*s, XINPUT_ATTACK_MASK)
            } else {
                old(self).delivered
            },
            r matches BlockPlan::Wait { window_ms } ==> window_ms <= MAX_BLOCK_MS,
    {
        if !enabled(s) {
            return BlockPlan::Pass;
        }
        let synced: u16 = if directions_windowed(s) {
            0xFFFF
        } else {
            XINPUT_ATTACK_MASK
        };
        let now: u16 = raw & synced;
        if now & !self.delivered == 0 {
            self.delivered = now;
            return BlockPlan::Pass;
        }
        if count_ones(now) >= 2 {
            return BlockPlan::Complete;
        }
        let w: u64 = window_ms_u32(s, p) as u64;
        BlockPlan::Wait {
            window_ms: if w < MAX_BLOCK_MS {
                w
            } else {
                MAX_BLOCK_MS
            },
        }
    }

    /// Whether the wait is over, `elapsed_us` after it began.
    pub fn expired(window_ms: u64, elapsed_us: u64) -> (r: bool)
        ensures
            r == (elapsed_us / 1000 >= window_ms),
    {
        elapsed_us / 1000 >= window_ms
    }

    /// Judge one more read of the pad during the wait.
    pub fn poll(s: &SharedState, raw: u16) -> (r: BlockStep)
        ensures
            r == (if ones(raw & synced_bits(*s, XINPUT_ATTACK_MASK)) >= 2 {
                BlockStep::Partner
            } else if raw & synced_bits(*s, XINPUT_ATTACK_MASK) == 0 {
                BlockStep::Released
            } else {
                BlockStep::Again
            }),
    {
        let synced: u16 = if directions_windowed(s) {
            0xFFFF
        } else {
            XINPUT_ATTACK_MASK
        };
        let now: u16 = raw & synced;
        if count_ones(now) >= 2 {
            BlockStep::Partner
        } else if now == 0 {
            BlockStep::Released
        } else {
            BlockStep::Again
        }
    }

    /// How long a complete chord is left to settle, in milliseconds.
    pub fn settle_for(s: &SharedState, raw: u16) -> (r: u64)
        ensures
            r == (if ones(raw & synced_bits(*s, XINPUT_ATTACK_MASK)) >= 2 {
                s.settle_ms as u64
            } else {
                0
            }),
    {
        match Self::poll(s, raw) {
            BlockStep::Partner => settle_ms(s),
            _ => 0,
        }
    }

    /// Hand the word on: count the stall, the delivery and, where a partner
    /// arrived `gap_us` into the wait, the chord that was saved.
    pub fn finish(
        &mut self,
        s: &mut SharedState,
        p: usize,
        raw: u16,
        stalled_us: u64,
        gap_us: Option<u64>,
    )
        ensures
            final(self).delivered == raw & synced_bits(*old(s), XINPUT_ATTACK_MASK),
            player_becomes(
                *old(s),
                *final(s),
                p,
                block_counted(
                    player(*old(s), p),
                    raw & synced_bits(*old(s), XINPUT_ATTACK_MASK) & XINPUT_ATTACK_MASK,
                    stalled_us,
                    gap_us,
                ),
            ),
    {
        let ghost s0 = *s;
        let synced: u16 = if directions_windowed(s) {
            0xFFFF
        } else {
            XINPUT_ATTACK_MASK
        };
        let delivered: u16 = raw & synced;
        record_latency(s, p, stalled_us);
        record_delivery(s, p, delivered & XINPUT_ATTACK_MASK);
        if let Some(g) = gap_us {
            record_gap(s, p, g);
            record_save(s, p);
        }
        proof {
            assert(s.players@ =~= s0.players@.update(slot(p), player(*s, p)));
        }
        self.delivered = delivered;
    }
}

/// Mode 1 blocks, mode 2 is continuous, every other one defers.
pub proof fn law_three_modes(mode: u32)
    ensures
        mode_asked(mode) is Block <==> mode == 1,
        mode_asked(mode) is Continuous <==> mode == 2,
        mode_asked(mode) is Defer <==> mode == 0 || mode >= 3,
{
}

/// The game sees a synced bit exactly where it is committed, and any other as it is.
pub proof fn law_the_game_sees_what_is_committed(b: Published, raw: u16, i: int)
    requires
        0 <= i < 16,
    ensures
        bit(sampled(b, raw), i) == if bit(b.synced_mask, i) {
            bit(b.committed, i)
        } else {
            bit(raw, i)
        },
{
    broadcast use crate::bits::group_bit;

}

/// The number of an attack: the faces, 12 to 15, and the shoulders, 8 and 9.
pub open spec fn is_attack_number(i: int) -> bool {
    12 <= i < 16 || i == 8 || i == 9
}

proof fn lemma_attack_mask()
    ensures
        forall|i: int| #[trigger] bit(XINPUT_ATTACK_MASK, i) == is_attack_number(i),
{
    assert forall|i: int| #[trigger] bit(XINPUT_ATTACK_MASK, i) == is_attack_number(i) by {
        if 0 <= i < 16 {
            let k = i as u16;
            assert(((0xF300u16 >> k) & 1 == 1) == (k >= 12 || k == 8 || k == 9)) by (bit_vector)
                requires
                    k < 16,
            ;
        }
    }
}

/// An attack is seen for the first time at the read that finds it committed where the read
/// before did not; the reads after that do not see it for the first time again while it stays.
pub proof fn law_an_attack_is_newly_seen_once(b: Published, r: Reader, raw: u16, i: int)
    requires
        0 <= i < 16,
    ensures
        bit(newly_seen(b, r), i) <==> is_attack_number(i) && bit(b.committed, i) && !bit(
            r.delivered,
            i,
        ),
        !bit(newly_seen(b, reader_after(b, r, raw)), i),
        bit(reader_after(b, r, raw).delivered, i) <==> is_attack_number(i) && bit(b.committed, i),
{
    broadcast use crate::bits::group_bit;

    lemma_attack_mask();
}

/// An attack that is down at a read but not committed is withheld across it, and stays so
/// until the game sees it or it is let go.
pub proof fn law_a_press_is_withheld_across_a_read(b: Published, r: Reader, raw: u16, i: int)
    requires
        0 <= i < 16,
        is_attack_number(i),
    ensures
        bit(raw, i) && !bit(b.committed, i) ==> bit(reader_after(b, r, raw).withheld, i),
        !bit(raw, i) ==> !bit(reader_after(b, r, raw).withheld, i),
        bit(newly_seen(b, r), i) ==> !bit(reader_after(b, r, raw).withheld, i),
        bit(withheld_with(b, r, raw), i) <==> bit(r.withheld, i) || (bit(raw, i) && !bit(
            b.committed,
            i,
        )),
{
    broadcast use crate::bits::group_bit;

    lemma_attack_mask();
}

/// Every attack that reaches the game after it was withheld counts as one that waited a frame,
/// and no other does; arrivals are timed at most once each.
pub proof fn law_arrivals_that_waited_are_counted(
    s: PlayerStats,
    newly: u16,
    seen: u16,
    press_ts: Seq<u64>,
    now_us: u64,
    n: int,
)
    requires
        0 <= n <= 16,
        s.frame_waits <= u64::MAX - 16,
        s.gp_lat_count <= u64::MAX - 16,
    ensures
        ({
            let r = arrivals(s, newly, seen, press_ts, now_us, n);
            &&& r.frame_waits == s.frame_waits + crate::bits::ones_below(newly & seen, n)
            &&& s.gp_lat_count <= r.gp_lat_count <= s.gp_lat_count + crate::bits::ones_below(
                newly,
                n,
            )
            &&& r.saves == s.saves && r.groups == s.groups && r.singles == s.singles
        }),
    decreases n,
{
    broadcast use crate::bits::group_bit;

    if n > 0 {
        law_arrivals_that_waited_are_counted(s, newly, seen, press_ts, now_us, n - 1);
        crate::bits::lemma_ones_bound(newly & seen, n - 1);
        crate::bits::lemma_ones_bound(newly, n - 1);
    }
}

/// One attack that reaches the game is timed from its press to the read, where its press is
/// known and lies no more than a tenth of a second back.
pub proof fn law_an_arrival_is_timed_from_its_press(
    s: PlayerStats,
    newly: u16,
    seen: u16,
    press_ts: Seq<u64>,
    now_us: u64,
    i: int,
)
    requires
        0 <= i < 16,
        bit(newly, i),
        s.gp_lat_count < u64::MAX,
        s.gp_lat_sum_us <= u64::MAX - 100_000,
    ensures
        ({
            let before = arrivals(s, newly, seen, press_ts, now_us, i);
            let after = arrivals(s, newly, seen, press_ts, now_us, i + 1);
            let ts = press_ts[i];
            let timed = 0 < ts <= now_us && now_us <= ts + 100_000;
            &&& timed && before.gp_lat_count < u64::MAX && before.gp_lat_sum_us <= u64::MAX - 100_000
                ==> after.gp_lat_count == before.gp_lat_count + 1 && after.gp_lat_sum_us
                == before.gp_lat_sum_us + (now_us - ts) && after.gp_lat_max_us >= now_us - ts
            &&& !timed ==> after.gp_lat_count == before.gp_lat_count && after.gp_lat_sum_us
                == before.gp_lat_sum_us
        }),
{
}

/// A chord is saved at a read exactly where two attacks or more are seen for the first time
/// and one of them had been withheld across a read.
pub proof fn law_a_save_is_a_chord_held_across_a_read(
    s: PlayerStats,
    b: Published,
    r: Reader,
    raw: u16,
    now_us: u64,
)
    requires
        s.saves < u64::MAX,
        s.frame_waits <= u64::MAX - 16,
        s.gp_lat_count <= u64::MAX - 16,
    ensures
        read_counted(s, b, r, raw, now_us).saves == s.saves + if ones(newly_seen(b, r)) >= 2 && (
        exists|i: int|
            0 <= i < 16 && #[trigger] bit(newly_seen(b, r), i) && bit(
                withheld_with(b, r, raw),
                i,
            )) {
            1int
        } else {
            0
        },
{
    broadcast use crate::bits::group_bit;

    let (n, w) = (newly_seen(b, r), withheld_with(b, r, raw));
    law_arrivals_that_waited_are_counted(s, n, w, b.press_ts@, now_us, 16);
    crate::bits::lemma_zero_word(n & w);
    if n & w != 0 {
        let i = choose|i: int| 0 <= i < 16 && bit(n & w, i);
        assert(bit(n, i) && bit(w, i));
    }
    if exists|i: int| 0 <= i < 16 && #[trigger] bit(n, i) && bit(w, i) {
        let i = choose|i: int| 0 <= i < 16 && #[trigger] bit(n, i) && bit(w, i);
        assert(bit(n & w, i));
    }
}

/// With the window off, two presses within the window's length are an attempted chord, whose
/// gap is measured, and a miss where the game read between them; two further apart are none,
/// and the second leads anew.
pub proof fn law_the_monitor_watches_for_pairs(
    s: PlayerStats,
    first: u16,
    second: u16,
    attacks: u16,
    t1: u64,
    t2: u64,
    window_us: u64,
    last_read_us: u64,
)
    requires
        first != 0 && second != 0 && attacks != 0,
        t1 <= t2,
        s.attempts < u64::MAX && s.misses < u64::MAX && s.gap_count < u64::MAX,
        s.gap_sum_us + t2 <= u64::MAX,
    ensures
        ({
            let lead = lead_after(None, first, attacks, t1, window_us);
            let n = shadow_counted(s, lead, second, t2, window_us, last_read_us);
            let next = lead_after(lead, second, attacks, t2, window_us);
            let pair = t2 - t1 <= window_us;
            &&& shadow_counted(s, None, first, t1, window_us, last_read_us) == s
            &&& shadow_counted(s, lead, 0, t2, window_us, last_read_us) == s
            &&& pair ==> n.attempts == s.attempts + 1 && n.gap_count == s.gap_count + 1
                && n.gap_sum_us == s.gap_sum_us + (t2 - t1)
            &&& pair ==> n.misses - s.misses == if last_read_us > t1 {
                1int
            } else {
                0
            }
            &&& pair ==> next is None
            &&& !pair ==> n == s && next == Some(t2)
            &&& lead_after(lead, 0, 0, t2, window_us) is None
        }),
{
}

/// The window of the poll thread is the setting in microseconds, kept within 1 and 16
/// milliseconds.
pub proof fn law_the_poll_window_stays_in_bounds(ms: u32)
    ensures
        1_000 <= poll_window_us(ms) <= 16_000,
        1 <= ms <= 16 ==> poll_window_us(ms) == 1_000 * ms,
        ms == 0 ==> poll_window_us(ms) == 1_000,
        ms >= 16 ==> poll_window_us(ms) == 16_000,
{
}

/// A read waits exactly where the window is on and it shows one synced press alone that the
/// game has not seen: for the window, and never longer than eight milliseconds. Two synced
/// presses go at once, and so does everything where nothing is new.
pub proof fn law_a_lone_new_press_blocks(s: SharedState, p: usize, delivered: u16, raw: u16)
    ensures
        ({
            let now = raw & synced_bits(s, XINPUT_ATTACK_MASK);
            let new = exists|i: int| 0 <= i < 16 && #[trigger] bit(now, i) && !bit(delivered, i);
            let plan = block_plan(s, p, delivered, raw);
            &&& plan is Pass <==> s.enabled == 0 || !new
            &&& plan is Complete <==> s.enabled != 0 && new && ones(now) >= 2
            &&& plan is Wait <==> s.enabled != 0 && new && ones(now) == 1
            &&& plan matches BlockPlan::Wait { window_ms } ==> window_ms <= 8 && window_ms
                <= s.window_ms@[slot(p)] && (window_ms == 8 || window_ms == s.window_ms@[slot(p)])
        }),
{
    broadcast use crate::bits::group_bit;

    let now = raw & synced_bits(s, XINPUT_ATTACK_MASK);
    let w = now & !delivered;
    crate::bits::lemma_zero_word(w);
    crate::bits::lemma_one_or_more(now, 16);
    if w != 0 {
        let i = choose|i: int| 0 <= i < 16 && bit(w, i);
        assert(bit(now, i) && !bit(delivered, i));
    }
    if exists|i: int| 0 <= i < 16 && #[trigger] bit(now, i) && !bit(delivered, i) {
        let i = choose|i: int| 0 <= i < 16 && #[trigger] bit(now, i) && !bit(delivered, i);
        assert(bit(w, i));
    }
}

/// A read that waited counts its stall once, what it handed over once, and a chord that it
/// waited for as a gap and a save.
pub proof fn law_what_a_blocked_read_counts(
    s: PlayerStats,
    attacks: u16,
    stalled_us: u64,
    gap_us: Option<u64>,
)
    requires
        s.saves < u64::MAX && s.gap_count < u64::MAX && s.lat_count < u64::MAX,
        s.groups < u64::MAX && s.singles < u64::MAX,
    ensures
        ({
            let n = block_counted(s, attacks, stalled_us, gap_us);
            let chord: int = if gap_us is Some {
                1
            } else {
                0
            };
            &&& n.lat_last_us == stalled_us && n.lat_count == s.lat_count + 1
            &&& n.saves == s.saves + chord && n.gap_count == s.gap_count + chord
            &&& n.groups + n.singles == s.groups + s.singles + if ones(attacks) > 0 {
                1int
            } else {
                0
            }
            &&& gap_us is Some ==> n.gap_max_us >= gap_us->0
        }),
{
}

} // verus!
