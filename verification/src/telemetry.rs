//! What the fingers did, and what the window made of it.
//!
//! A raw press group opens on the first attack press and closes when every
//! attack is up, or when a frame has passed. The frame cap matters: without it,
//! holding one attack and pressing another a second later would read as a finger
//! gap of a second.

use crate::bits::{count_ones, ones};
use crate::state::{
    after_delivery, after_gap, after_latency, after_raw_gap, no_stats, player, player_becomes,
    record_attempt, record_delivery, record_gap, record_latency, record_raw_gap, same_settings,
    PlayerStats, SharedState, FRAME_US,
};
use crate::sync_window::elapsed;
use vstd::prelude::*;

verus! {

/// The attacks of an XInput pad: A, B, X, Y, LB, RB.
pub const XINPUT_ATTACK_MASK: u16 = 0xF300;

/// No XInput slot.
pub const NO_SLOT: u32 = u32::MAX;

/// All is well.
pub const ERR_NONE: u8 = 0;

/// There is no XInput on this machine.
pub const ERR_NO_XINPUT: u8 = 1;

/// The virtual pad could not be opened.
pub const ERR_NO_NOBD: u8 = 3;

/// A raw press group.
#[derive(Clone, Copy, Debug, PartialEq, Eq)]
pub struct Group {
    pub open: bool,
    /// When its first attack was pressed.
    pub first_us: u64,
    /// When its latest attack was pressed.
    pub last_us: u64,
    /// The attacks pressed in it.
    pub mask: u16,
}

/// The group is over: every attack is up, or a frame has passed.
pub open spec fn group_over(g: Group, attacks: u16, now_us: u64) -> bool {
    g.open && (attacks == 0 || elapsed(g.first_us, now_us) >= FRAME_US)
}

/// The finger gap of a group: from its first press to its latest.
pub open spec fn group_gap(g: Group) -> u64 {
    elapsed(g.first_us, g.last_us)
}

/// The group is closed if it is over.
pub open spec fn closed_group(g: Group, attacks: u16, now_us: u64) -> Group {
    if group_over(g, attacks, now_us) {
        Group { open: false, mask: 0, ..g }
    } else {
        g
    }
}

/// The group with the attacks `rising` pressed at `now_us`.
pub open spec fn pressed_group(g: Group, rising: u16, now_us: u64) -> Group {
    if rising == 0 {
        g
    } else if g.open {
        Group { last_us: now_us, mask: g.mask | rising, ..g }
    } else {
        Group { open: true, first_us: now_us, last_us: now_us, mask: 0 | rising }
    }
}

/// The gap of the chord that ends with this reading: a group that is over and
/// held two attacks.
pub open spec fn finished_chord(g: Group, attacks: u16, now_us: u64) -> Option<u64> {
    if group_over(g, attacks, now_us) && ones(g.mask) >= 2 {
        Some(group_gap(g))
    } else {
        None
    }
}

impl Group {
    /// No group is open.
    pub fn new() -> (r: Self)
        ensures
            r == (Group { open: false, first_us: 0, last_us: 0, mask: 0 }),
    {
        Group { open: false, first_us: 0, last_us: 0, mask: 0 }
    }

    /// Take in a reading: close a group that is over, then add the attacks that
    /// have just gone down. Returns the gap of a chord that ended.
    pub fn step(&mut self, attacks: u16, rising: u16, now_us: u64) -> (r: Option<u64>)
        ensures
            r == finished_chord(*old(self), attacks, now_us),
            *final(self) == pressed_group(
                closed_group(*old(self), attacks, now_us),
                rising,
                now_us,
            ),
    {
        let mut done: Option<u64> = None;
        if self.open && (attacks == 0 || now_us.saturating_sub(self.first_us) >= FRAME_US) {
            if count_ones(self.mask) >= 2 {
                done = Some(self.last_us.saturating_sub(self.first_us));
            }
            self.open = false;
            self.mask = 0;
        }
        if rising != 0 {
            if !self.open {
                self.first_us = now_us;
                self.mask = 0;
                self.open = true;
            }
            self.last_us = now_us;
            self.mask = self.mask | rising;
        }
        done
    }
}

/// The delays of a status, where they were measured.
pub open spec fn measured(s: SyncStatus) -> Option<(u32, u32, u32)> {
    if s.lat_avg == 0 {
        None
    } else {
        Some((s.lat_min, s.lat_avg, s.lat_max))
    }
}

/// A slot, once it is found.
pub open spec fn slot_found(slot: u32) -> Option<u32> {
    if slot == NO_SLOT {
        None
    } else {
        Some(slot)
    }
}

/// What a running sync loop tells its user interface.
#[derive(Clone, Copy, Debug, PartialEq, Eq)]
pub struct SyncStatus {
    /// The virtual pad is live and the loop runs.
    pub active: bool,
    /// The real pad reports.
    pub real_present: bool,
    /// The XInput slot of the real pad, or [`NO_SLOT`].
    pub real_slot: u32,
    /// The XInput slot of the virtual pad, or [`NO_SLOT`].
    pub virtual_slot: u32,
    /// One of the `ERR_` codes.
    pub error: u8,
    /// The delay from a submit to a read of it, in microseconds; 0 where it was
    /// not measured.
    pub lat_min: u32,
    pub lat_avg: u32,
    pub lat_max: u32,
    /// The rate of the bulk stream; 0 where it is not in use.
    pub bulk_rate_hz: u32,
    /// A press is being held back.
    pub window_open: bool,
}

impl SyncStatus {
    /// A loop that has not started.
    pub fn new() -> (r: Self)
        ensures
            r == (SyncStatus {
                active: false,
                real_present: false,
                real_slot: NO_SLOT,
                virtual_slot: NO_SLOT,
                error: ERR_NONE,
                lat_min: 0,
                lat_avg: 0,
                lat_max: 0,
                bulk_rate_hz: 0,
                window_open: false,
            }),
    {
        SyncStatus {
            active: false,
            real_present: false,
            real_slot: NO_SLOT,
            virtual_slot: NO_SLOT,
            error: ERR_NONE,
            lat_min: 0,
            lat_avg: 0,
            lat_max: 0,
            bulk_rate_hz: 0,
            window_open: false,
        }
    }

    /// A loop that does not run because the virtual pad is gone.
    pub fn stopped() -> (r: Self)
        ensures
            r.error == ERR_NO_NOBD,
            !r.active && !r.real_present && !r.window_open,
            r.real_slot == NO_SLOT && r.virtual_slot == NO_SLOT,
            r.lat_min == 0 && r.lat_avg == 0 && r.lat_max == 0 && r.bulk_rate_hz == 0,
    {
        let mut r: SyncStatus = SyncStatus::new();
        r.error = ERR_NO_NOBD;
        r
    }

    /// The least, mean and greatest submit-to-read delay, where it was measured.
    pub fn latency(&self) -> (r: Option<(u32, u32, u32)>)
        ensures
            r == measured(*self),
    {
        if self.lat_avg == 0 {
            None
        } else {
            Some((self.lat_min, self.lat_avg, self.lat_max))
        }
    }

    /// The XInput slot of the real pad, once found.
    pub fn found_real_slot(&self) -> (r: Option<u32>)
        ensures
            r == slot_found(self.real_slot),
    {
        if self.real_slot == NO_SLOT {
            None
        } else {
            Some(self.real_slot)
        }
    }

    /// The XInput slot of the virtual pad, once found.
    pub fn found_virtual_slot(&self) -> (r: Option<u32>)
        ensures
            r == slot_found(self.virtual_slot),
    {
        if self.virtual_slot == NO_SLOT {
            None
        } else {
            Some(self.virtual_slot)
        }
    }
}

/// Measures a sync loop from inside: raw words in, grouped words out.
#[derive(Clone, Copy, Debug, PartialEq, Eq)]
pub struct SyncTelemetry {
    pub prev_raw: u16,
    pub prev_out: u16,
    pub group: Group,
}

/// The attacks that go down with this reading.
pub open spec fn rising_attacks(before: u16, now: u16) -> u16 {
    now & !before & XINPUT_ATTACK_MASK
}

/// The counters once the reading's raw side is taken in: a chord that ended was
/// attempted, and its gap is measured.
pub open spec fn raw_counted(s: PlayerStats, gap: Option<u64>) -> PlayerStats {
    match gap {
        Some(g) => after_raw_gap(PlayerStats { attempts: s.attempts.wrapping_add(1), ..s }, g),
        None => s,
    }
}

/// The counters once the commit of `committed` is taken in.
pub open spec fn commit_counted(
    s: PlayerStats,
    committed: u16,
    gap: u64,
    delay_us: u32,
) -> PlayerStats {
    if committed == 0 {
        s
    } else {
        let d = after_delivery(s, ones(committed));
        after_latency(
            if ones(committed) >= 2 {
                after_gap(d, gap)
            } else {
                d
            },
            delay_us as u64,
        )
    }
}

impl SyncTelemetry {
    /// Start a session: the counters go to zero.
    pub fn new(s: &mut SharedState) -> (r: Self)
        ensures
            r.prev_raw == 0 && r.prev_out == 0,
            r.group == (Group { open: false, first_us: 0, last_us: 0, mask: 0 }),
            same_settings(*old(s), *final(s)),
            final(s).players@ == seq![no_stats(), no_stats()],
    {
        s.reset_stats();
        SyncTelemetry { prev_raw: 0, prev_out: 0, group: Group::new() }
    }

    /// Take in one tick of the loop, after the window has processed it: the raw
    /// word in, the grouped word out, whether a window is open, and the delay it
    /// applied. Returns the spread of a chord that was just committed, for the
    /// caller to weigh against a frame and charge with
    /// [`crate::state::record_risk`].
    pub fn observe(
        &mut self,
        s: &mut SharedState,
        raw: u16,
        out: u16,
        now_us: u64,
        window_open: bool,
        delay_us: u32,
        status: &mut SyncStatus,
    ) -> (r: Option<u64>)
        ensures
            final(self).prev_raw == raw,
            final(self).prev_out == out,
            final(self).group == pressed_group(
                closed_group(old(self).group, raw & XINPUT_ATTACK_MASK, now_us),
                rising_attacks(old(self).prev_raw, raw),
                now_us,
            ),
            *final(status) == (SyncStatus { window_open, ..*old(status) }),
            r == (if ones(rising_attacks(old(self).prev_out, out)) >= 2 {
                Some(group_gap(final(self).group))
            } else {
                None
            }),
            player_becomes(
                *old(s),
                *final(s),
                0,
                commit_counted(
                    raw_counted(
                        player(*old(s), 0),
                        finished_chord(old(self).group, raw & XINPUT_ATTACK_MASK, now_us),
                    ),
                    rising_attacks(old(self).prev_out, out),
                    group_gap(final(self).group),
                    delay_us,
                ),
            ),
    {
        let ghost s0 = *s;
        proof {
            assert(s0.players@ =~= s0.players@.update(0, player(s0, 0)));
        }
        let pressed: u16 = raw & !self.prev_raw & XINPUT_ATTACK_MASK;
        if let Some(g) = self.group.step(raw & XINPUT_ATTACK_MASK, pressed, now_us) {
            record_attempt(s, 0);
            record_raw_gap(s, 0, g);
        }
        let committed: u16 = out & !self.prev_out & XINPUT_ATTACK_MASK;
        let mut chord: Option<u64> = None;
        let n: u32 = count_ones(committed);
        if committed != 0 {
            record_delivery(s, 0, committed);
            if n >= 2 {
                let gap: u64 = self.group.last_us.saturating_sub(self.group.first_us);
                record_gap(s, 0, gap);
                chord = Some(gap);
            }
            record_latency(s, 0, delay_us as u64);
        } else {
            proof {
                crate::bits::lemma_zero_word(committed);
                crate::bits::lemma_two_or_more(committed, 16);
            }
        }
        status.window_open = window_open;
        self.prev_raw = raw;
        self.prev_out = out;
        proof {
            let q = player(*s, 0);
            assert(s.players@ =~= s0.players@.update(0, q));
        }
        chord
    }
}

/// A chord that is measured took less than a frame from its first press to its
/// latest, on a clock that moves forward: a press that comes later opens a group
/// of its own.
pub proof fn law_gap_stays_within_a_frame(g: Group, attacks: u16, rising: u16, now_us: u64)
    requires
        g.open ==> g.first_us <= g.last_us <= now_us && group_gap(g) < FRAME_US,
    ensures
        pressed_group(closed_group(g, attacks, now_us), rising, now_us).open ==> group_gap(
            pressed_group(closed_group(g, attacks, now_us), rising, now_us),
        ) < FRAME_US,
        finished_chord(g, attacks, now_us) matches Some(gap) ==> gap < FRAME_US,
{
}

/// The attacks that go down are those of the six that are down now and were not before: the
/// faces, which are bits 12 to 15, and the shoulders, 8 and 9.
pub proof fn law_rising_attacks_are_new(before: u16, now: u16)
    ensures
        forall|i: int|
            0 <= i < 16 ==> #[trigger] crate::bits::bit(rising_attacks(before, now), i) == (
            crate::bits::bit(now, i) && !crate::bits::bit(before, i) && (i >= 12 || i == 8 || i
                == 9)),
{
    broadcast use crate::bits::group_bit;

    let m: u16 = 0xF300;
    assert forall|i: int| 0 <= i < 16 implies #[trigger] crate::bits::bit(m, i) == (i >= 12 || i
        == 8 || i == 9) by {
        let k = i as u16;
        assert(((0xF300u16 >> k) & 1 == 1) == (k >= 12 || k == 8 || k == 9)) by (bit_vector)
            requires
                k < 16,
        ;
    }
}

/// Two attacks that go down one after the other within a frame and come up are a chord, and
/// its gap is the time between the two presses. A second press a frame or more after the
/// first is no chord with it, and opens a group of its own.
pub proof fn law_two_presses_within_a_frame_are_a_chord(
    g: Group,
    a: u16,
    b: u16,
    i: int,
    j: int,
    t1: u64,
    t2: u64,
    t3: u64,
)
    requires
        !g.open,
        0 <= i < 16 && 0 <= j < 16 && i != j,
        crate::bits::bit(a, i),
        crate::bits::bit(b, j),
        forall|k: int| 0 <= k < 16 && k != i ==> !#[trigger] crate::bits::bit(a, k),
        t1 <= t2,
    ensures
        ({
            let g1 = pressed_group(closed_group(g, a, t1), a, t1);
            let g2 = pressed_group(closed_group(g1, a | b, t2), b, t2);
            &&& finished_chord(g, a, t1) is None
            &&& finished_chord(g1, a | b, t2) is None
            &&& t2 - t1 < 16_667 ==> finished_chord(g2, 0, t3) == Some((t2 - t1) as u64)
            &&& t2 - t1 < 16_667 ==> !closed_group(g2, 0, t3).open
            &&& t2 - t1 >= 16_667 ==> g2.open && g2.first_us == t2 && g2.mask == b
            &&& finished_chord(g1, 0, t3) is None
        }),
{
    broadcast use crate::bits::group_bit;

    crate::bits::lemma_zero_word(a);
    crate::bits::lemma_zero_word(b);
    crate::bits::lemma_zero_word(a | b);
    assert(crate::bits::bit(a | b, i));
    assert(0u16 | a == a) by (bit_vector);
    assert(0u16 | b == b) by (bit_vector);
    crate::bits::lemma_two_or_more(a | b, 16);
    crate::bits::lemma_two_or_more(a, 16);
    if i < j {
        assert(crate::bits::bit(a | b, i) && crate::bits::bit(a | b, j));
    } else {
        assert(crate::bits::bit(a | b, j) && crate::bits::bit(a | b, i));
    }
}

/// A group that is neither let go nor a frame old goes on, and a reading without presses
/// changes nothing of it.
pub proof fn law_a_group_goes_on(g: Group, attacks: u16, now_us: u64)
    requires
        g.open,
        attacks != 0,
        now_us < g.first_us + 16_667,
    ensures
        finished_chord(g, attacks, now_us) is None,
        pressed_group(closed_group(g, attacks, now_us), 0, now_us) == g,
{
}

/// One where it holds, and nothing where it does not.
pub open spec fn once(b: bool) -> int {
    if b {
        1
    } else {
        0
    }
}

/// A reading counts an attempt exactly where a chord ended with it, and a commit counts its
/// delay once, its gap only where it was of two attacks or more.
pub proof fn law_what_a_reading_counts(
    s: PlayerStats,
    gap: Option<u64>,
    committed: u16,
    spread: u64,
    delay_us: u32,
)
    requires
        s.attempts < u64::MAX && s.lat_count < u64::MAX && s.gap_count < u64::MAX,
        s.raw_gap_count < u64::MAX && s.singles < u64::MAX && s.groups < u64::MAX,
    ensures
        ({
            let r = raw_counted(s, gap);
            let c = commit_counted(s, committed, spread, delay_us);
            &&& r.attempts - s.attempts == once(gap is Some)
            &&& r.raw_gap_count - s.raw_gap_count == once(gap is Some)
            &&& c.lat_count - s.lat_count == once(committed != 0)
            &&& committed != 0 ==> c.lat_last_us == delay_us
            &&& c.gap_count - s.gap_count == once(ones(committed) >= 2)
            &&& c.groups - s.groups == once(ones(committed) >= 2)
            &&& c.singles - s.singles == once(ones(committed) == 1)
        }),
{
    if committed == 0 {
        crate::bits::lemma_zero_word(committed);
        crate::bits::lemma_one_or_more(committed, 16);
        assert forall|i: int| 0 <= i < 16 implies !crate::bits::bit(committed, i) by {}
    } else {
        crate::bits::lemma_zero_word(committed);
        crate::bits::lemma_one_or_more(committed, 16);
    }
}

/// A status that has measured no delay tells none; a slot that is not found tells none.
pub proof fn law_nothing_measured_is_told_as_nothing(s: SyncStatus, slot: u32)
    ensures
        measured(s) is None <==> s.lat_avg == 0,
        measured(s) matches Some(m) ==> m.0 == s.lat_min && m.1 == s.lat_avg && m.2 == s.lat_max,
        slot_found(slot) is None <==> slot == 0xFFFF_FFFF,
        slot_found(slot) matches Some(k) ==> k == slot,
{
}

} // verus!
