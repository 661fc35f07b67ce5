//! The state that the parts of the bridge share: settings, and the counters of
//! each player. It is a plain value; whoever owns it decides how it is shared.

use crate::bits::{count_ones, ones};
use vstd::prelude::*;

verus! {

/// Marks an initialised state of this layout.
pub const MAGIC: u32 = 0x4E42_4434;

/// Number of player slots with their own sync window and counters.
pub const NUM_PLAYERS: usize = 2;

/// One frame at 60 Hz. A raw press group that has been open longer is a held
/// button, not a chord attempt.
pub const FRAME_US: u64 = 16_667;

/// The largest raw gap a recommendation is made from.
pub const MAX_RAW_GAP_US: u64 = 4_294_967_294_000;

/// The largest frame time that can be smoothed.
pub const MAX_FRAME_US: u64 = 2_635_249_153_387_073_087;

/// The live counters of one player. They wrap.
#[derive(Clone, Copy, Debug, PartialEq, Eq)]
pub struct PlayerStats {
    /// Commits of two or more attacks.
    pub groups: u64,
    /// Commits of one attack.
    pub singles: u64,
    /// The hold of the latest commit.
    pub lat_last_us: u64,
    pub lat_max_us: u64,
    pub lat_sum_us: u64,
    pub lat_count: u64,
    pub gap_sum_us: u64,
    pub gap_max_us: u64,
    pub gap_count: u64,
    /// The chords a 60 Hz reader would be expected to split, in millionths of a
    /// chord. A sum of probabilities, not of events.
    pub risk_sum_ppm: u64,
    /// Chords seen to be saved from a split: part of the chord was withheld across
    /// one of the game's own reads.
    pub saves: u64,
    /// The game's frame time, smoothed, from its read cadence.
    pub frame_us: u64,
    /// Physical press to the first game read that shows it.
    pub gp_lat_sum_us: u64,
    pub gp_lat_count: u64,
    pub gp_lat_max_us: u64,
    /// Deliveries that waited a frame.
    pub frame_waits: u64,
    /// The finger gap off the raw input, before the window touches it.
    pub raw_gap_sum_us: u64,
    pub raw_gap_count: u64,
    pub raw_gap_max_us: u64,
    /// Chords attempted, grouped or not.
    pub attempts: u64,
    /// Attempted chords that straddled a read.
    pub misses: u64,
}

/// Counters of a player that has done nothing.
pub open spec fn no_stats() -> PlayerStats {
    PlayerStats {
        groups: 0,
        singles: 0,
        lat_last_us: 0,
        lat_max_us: 0,
        lat_sum_us: 0,
        lat_count: 0,
        gap_sum_us: 0,
        gap_max_us: 0,
        gap_count: 0,
        risk_sum_ppm: 0,
        saves: 0,
        frame_us: 0,
        gp_lat_sum_us: 0,
        gp_lat_count: 0,
        gp_lat_max_us: 0,
        frame_waits: 0,
        raw_gap_sum_us: 0,
        raw_gap_count: 0,
        raw_gap_max_us: 0,
        attempts: 0,
        misses: 0,
    }
}

/// The larger of two.
pub open spec fn larger(a: u64, b: u64) -> u64 {
    if b > a {
        b
    } else {
        a
    }
}

/// A commit of `ones` attacks.
pub open spec fn after_delivery(s: PlayerStats, attacks: nat) -> PlayerStats {
    if attacks == 0 {
        s
    } else if attacks == 1 {
        PlayerStats { singles: s.singles.wrapping_add(1), ..s }
    } else {
        PlayerStats { groups: s.groups.wrapping_add(1), ..s }
    }
}

/// A commit that held its lead press for `us`.
pub open spec fn after_latency(s: PlayerStats, us: u64) -> PlayerStats {
    PlayerStats {
        lat_last_us: us,
        lat_max_us: larger(s.lat_max_us, us),
        lat_sum_us: s.lat_sum_us.wrapping_add(us),
        lat_count: s.lat_count.wrapping_add(1),
        ..s
    }
}

/// A grouped chord whose fingers were `us` apart.
pub open spec fn after_gap(s: PlayerStats, us: u64) -> PlayerStats {
    PlayerStats {
        gap_sum_us: s.gap_sum_us.wrapping_add(us),
        gap_max_us: larger(s.gap_max_us, us),
        gap_count: s.gap_count.wrapping_add(1),
        ..s
    }
}

/// A raw chord whose fingers were `us` apart.
pub open spec fn after_raw_gap(s: PlayerStats, us: u64) -> PlayerStats {
    PlayerStats {
        raw_gap_sum_us: s.raw_gap_sum_us.wrapping_add(us),
        raw_gap_max_us: larger(s.raw_gap_max_us, us),
        raw_gap_count: s.raw_gap_count.wrapping_add(1),
        ..s
    }
}

/// A press that the game saw `us` after it happened.
pub open spec fn after_gp_latency(s: PlayerStats, us: u64) -> PlayerStats {
    PlayerStats {
        gp_lat_sum_us: s.gp_lat_sum_us.wrapping_add(us),
        gp_lat_max_us: larger(s.gp_lat_max_us, us),
        gp_lat_count: s.gp_lat_count.wrapping_add(1),
        ..s
    }
}

/// A chord that a 60 Hz reader would split with the chance `ppm`, in millionths.
pub open spec fn after_risk(s: PlayerStats, ppm: u64) -> PlayerStats {
    PlayerStats { risk_sum_ppm: s.risk_sum_ppm.wrapping_add(ppm), ..s }
}

/// A delivery that waited a frame.
pub open spec fn after_frame_wait(s: PlayerStats) -> PlayerStats {
    PlayerStats { frame_waits: s.frame_waits.wrapping_add(1), ..s }
}

/// A chord saved from a split.
pub open spec fn after_save(s: PlayerStats) -> PlayerStats {
    PlayerStats { saves: s.saves.wrapping_add(1), ..s }
}

/// An attempted chord.
pub open spec fn after_attempt(s: PlayerStats) -> PlayerStats {
    PlayerStats { attempts: s.attempts.wrapping_add(1), ..s }
}

/// An attempted chord that straddled a read.
pub open spec fn after_miss(s: PlayerStats) -> PlayerStats {
    PlayerStats { misses: s.misses.wrapping_add(1), ..s }
}

/// The smoothed frame time after a read `delta` after the one before it.
/// Intervals that no game's frame can have are ignored.
pub open spec fn smoothed_frame(prev: u64, delta: u64) -> u64 {
    if delta < 4_000 || delta > 40_000 {
        prev
    } else if prev == 0 {
        delta
    } else {
        ((prev * 7 + delta) / 8) as u64
    }
}

/// The window that still catches a worst gap of `max_us`: one more than its
/// millisecond, within 3 to 16.
pub open spec fn window_for_gap(max_us: u64) -> int {
    let ms = (max_us + 999) / 1000 + 1;
    if ms < 3 {
        3
    } else if ms > 16 {
        16
    } else {
        ms
    }
}

/// The window to recommend to a player; 0 while no chord with a gap has been measured.
pub open spec fn advised_window(s: PlayerStats) -> int {
    if s.raw_gap_count == 0 || s.raw_gap_max_us == 0 {
        0
    } else {
        window_for_gap(s.raw_gap_max_us)
    }
}

/// The player has done something.
pub open spec fn has_played(s: PlayerStats) -> bool {
    s.groups != 0 || s.singles != 0 || s.gp_lat_count != 0 || s.attempts != 0
}

impl PlayerStats {
    /// Counters at zero.
    pub fn new() -> (r: Self)
        ensures
            r == no_stats(),
    {
        PlayerStats {
            groups: 0,
            singles: 0,
            lat_last_us: 0,
            lat_max_us: 0,
            lat_sum_us: 0,
            lat_count: 0,
            gap_sum_us: 0,
            gap_max_us: 0,
            gap_count: 0,
            risk_sum_ppm: 0,
            saves: 0,
            frame_us: 0,
            gp_lat_sum_us: 0,
            gp_lat_count: 0,
            gp_lat_max_us: 0,
            frame_waits: 0,
            raw_gap_sum_us: 0,
            raw_gap_count: 0,
            raw_gap_max_us: 0,
            attempts: 0,
            misses: 0,
        }
    }

    /// Set every counter to zero.
    pub fn reset(&mut self)
        ensures
            *final(self) == no_stats(),
    {
        *self = Self::new();
    }

    /// The smallest window that still catches the player's chords, or 0 while no
    /// chord with a gap has been measured. It goes by the raw gap, so it can
    /// recommend a wider window than the one that is set.
    pub fn recommended_window_ms(&self) -> (r: u32)
        requires
            self.raw_gap_max_us <= MAX_RAW_GAP_US,
        ensures
            r == advised_window(*self),
    {
        if self.raw_gap_count == 0 || self.raw_gap_max_us == 0 {
            return 0;
        }
        let ms: u64 = (self.raw_gap_max_us + 999) / 1000 + 1;
        if ms < 3 {
            3
        } else if ms > 16 {
            16
        } else {
            ms as u32
        }
    }

    /// Whether this slot has seen any activity.
    pub fn active(&self) -> (r: bool)
        ensures
            r == has_played(*self),
    {
        self.groups != 0 || self.singles != 0 || self.gp_lat_count != 0 || self.attempts != 0
    }
}

/// Settings and counters.
#[derive(Clone, Copy, Debug, PartialEq, Eq)]
pub struct SharedState {
    pub magic: u32,
    /// Zero switches the window off.
    pub enabled: u32,
    /// The sync window of each player, in milliseconds.
    pub window_ms: [u32; 2],
    pub block_in_frame: u32,
    /// Non-zero makes directions subject to the window too.
    pub directions_windowed: u32,
    pub settle_ms: u32,
    /// 0 defers, 1 blocks in the frame, 2 runs continuously.
    pub mode: u32,
    /// The rate of the poll thread.
    pub poll_hz: u32,
    /// Grows with every read of the game.
    pub dll_heartbeat: u64,
    pub players: [PlayerStats; 2],
}

/// The slot that a player number stands for: the last one takes what is beyond.
pub open spec fn slot(p: usize) -> int {
    if p < 2 {
        p as int
    } else {
        1
    }
}

/// The counters that a player number stands for.
pub open spec fn player(s: SharedState, p: usize) -> PlayerStats {
    s.players@[slot(p)]
}

/// Nothing but the counters may differ.
pub open spec fn same_settings(a: SharedState, b: SharedState) -> bool {
    &&& a.magic == b.magic
    &&& a.enabled == b.enabled
    &&& a.window_ms == b.window_ms
    &&& a.block_in_frame == b.block_in_frame
    &&& a.directions_windowed == b.directions_windowed
    &&& a.settle_ms == b.settle_ms
    &&& a.mode == b.mode
    &&& a.poll_hz == b.poll_hz
    &&& a.dll_heartbeat == b.dll_heartbeat
}

/// `b` is `a` with the counters of player `p` set to `q`.
pub open spec fn player_becomes(a: SharedState, b: SharedState, p: usize, q: PlayerStats) -> bool {
    same_settings(a, b) && b.players@ == a.players@.update(slot(p), q)
}

/// The state that a fresh mapping starts from.
pub open spec fn is_default(s: SharedState) -> bool {
    &&& s.magic == MAGIC
    &&& s.enabled == 1
    &&& s.window_ms@ == seq![5u32, 5u32]
    &&& s.block_in_frame == 0
    &&& s.directions_windowed == 0
    &&& s.settle_ms == 1
    &&& s.mode == 2
    &&& s.poll_hz == 0
    &&& s.dll_heartbeat == 0
    &&& s.players@ == seq![no_stats(), no_stats()]
}

impl SharedState {
    /// A state with the default settings.
    pub fn new() -> (r: Self)
        ensures
            is_default(r),
    {
        let r = SharedState {
            magic: MAGIC,
            enabled: 1,
            window_ms: [5, 5],
            block_in_frame: 0,
            directions_windowed: 0,
            settle_ms: 1,
            mode: 2,
            poll_hz: 0,
            dll_heartbeat: 0,
            players: [PlayerStats::new(), PlayerStats::new()],
        };
        assert(r.window_ms@ =~= seq![5u32, 5u32]);
        assert(r.players@ =~= seq![no_stats(), no_stats()]);
        r
    }

    /// Go back to the default settings and zero counters.
    pub fn init_defaults(&mut self)
        ensures
            is_default(*final(self)),
    {
        *self = Self::new();
    }

    /// Zero the counters of every player.
    pub fn reset_stats(&mut self)
        ensures
            same_settings(*old(self), *final(self)),
            final(self).players@ == seq![no_stats(), no_stats()],
    {
        self.players = [PlayerStats::new(), PlayerStats::new()];
        assert(self.players@ =~= seq![no_stats(), no_stats()]);
    }
}

/// A state that a reader may use: its creator has finished with it.
pub fn is_ready(s: &SharedState) -> (r: bool)
    ensures
        r == (s.magic == MAGIC),
{
    s.magic == MAGIC
}

/// The index of a player number's slot.
fn slot_of(p: usize) -> (r: usize)
    ensures
        r == slot(p),
        r < 2,
{
    if p < 2 {
        p
    } else {
        1
    }
}

/// The counters of player `p`.
pub fn pstat(s: &SharedState, p: usize) -> (r: PlayerStats)
    ensures
        r == player(*s, p),
{
    s.players[slot_of(p)]
}

/// Set the counters of player `p`.
fn set_pstat(s: &mut SharedState, p: usize, q: PlayerStats)
    ensures
        player_becomes(*old(s), *final(s), p, q),
{
    let i: usize = slot_of(p);
    s.players[i] = q;
}

/// Whether the window is on.
pub fn enabled(s: &SharedState) -> (r: bool)
    ensures
        r == (s.enabled != 0),
{
    s.enabled != 0
}

/// The window of player `p` in milliseconds, widened for durations.
pub fn window_ms(s: &SharedState, p: usize) -> (r: u128)
    ensures
        r == s.window_ms@[slot(p)],
{
    s.window_ms[slot_of(p)] as u128
}

/// The window of player `p` in milliseconds.
pub fn window_ms_u32(s: &SharedState, p: usize) -> (r: u32)
    ensures
        r == s.window_ms@[slot(p)],
{
    s.window_ms[slot_of(p)]
}

/// The latch mode.
pub fn mode(s: &SharedState) -> (r: u32)
    ensures
        r == s.mode,
{
    s.mode
}

/// Whether directions are subject to the window.
pub fn directions_windowed(s: &SharedState) -> (r: bool)
    ensures
        r == (s.directions_windowed != 0),
{
    s.directions_windowed != 0
}

/// How long a blocking latch lets a chord settle.
pub fn settle_ms(s: &SharedState) -> (r: u64)
    ensures
        r == s.settle_ms,
{
    s.settle_ms as u64
}

/// Publish the rate of the poll thread.
pub fn set_poll_hz(s: &mut SharedState, hz: u32)
    ensures
        *final(s) == (SharedState { poll_hz: hz, ..*old(s) }),
{
    s.poll_hz = hz;
}

/// Say that the game has read its input once more.
pub fn heartbeat(s: &mut SharedState)
    ensures
        *final(s) == (SharedState {
            dll_heartbeat: old(s).dll_heartbeat.wrapping_add(1),
            ..*old(s)
        }),
{
    s.dll_heartbeat = s.dll_heartbeat.wrapping_add(1);
}

/// The larger of two.
fn max_of(a: u64, b: u64) -> (r: u64)
    ensures
        r == larger(a, b),
{
    if b > a {
        b
    } else {
        a
    }
}

/// Count a commit by how many attacks it held.
pub fn record_delivery(s: &mut SharedState, p: usize, committed_bits: u16)
    ensures
        player_becomes(
            *old(s),
            *final(s),
            p,
            after_delivery(player(*old(s), p), ones(committed_bits)),
        ),
{
    let mut q: PlayerStats = pstat(s, p);
    let n: u32 = count_ones(committed_bits);
    if n == 1 {
        q.singles = q.singles.wrapping_add(1);
    } else if n >= 2 {
        q.groups = q.groups.wrapping_add(1);
    }
    set_pstat(s, p, q);
}

/// Count the hold of a commit.
pub fn record_latency(s: &mut SharedState, p: usize, us: u64)
    ensures
        player_becomes(*old(s), *final(s), p, after_latency(player(*old(s), p), us)),
{
    let mut q: PlayerStats = pstat(s, p);
    q.lat_last_us = us;
    q.lat_max_us = max_of(q.lat_max_us, us);
    q.lat_sum_us = q.lat_sum_us.wrapping_add(us);
    q.lat_count = q.lat_count.wrapping_add(1);
    set_pstat(s, p, q);
}

/// Count the finger gap of a grouped chord.
pub fn record_gap(s: &mut SharedState, p: usize, us: u64)
    ensures
        player_becomes(*old(s), *final(s), p, after_gap(player(*old(s), p), us)),
{
    let mut q: PlayerStats = pstat(s, p);
    q.gap_sum_us = q.gap_sum_us.wrapping_add(us);
    q.gap_max_us = max_of(q.gap_max_us, us);
    q.gap_count = q.gap_count.wrapping_add(1);
    set_pstat(s, p, q);
}

/// Count the finger gap of a raw chord.
pub fn record_raw_gap(s: &mut SharedState, p: usize, us: u64)
    ensures
        player_becomes(*old(s), *final(s), p, after_raw_gap(player(*old(s), p), us)),
{
    let mut q: PlayerStats = pstat(s, p);
    q.raw_gap_sum_us = q.raw_gap_sum_us.wrapping_add(us);
    q.raw_gap_max_us = max_of(q.raw_gap_max_us, us);
    q.raw_gap_count = q.raw_gap_count.wrapping_add(1);
    set_pstat(s, p, q);
}

/// Charge a chord to the expected splits, by the chance of its split in
/// millionths.
pub fn record_risk(s: &mut SharedState, p: usize, ppm: u64)
    ensures
        player_becomes(*old(s), *final(s), p, after_risk(player(*old(s), p), ppm)),
{
    let mut q: PlayerStats = pstat(s, p);
    q.risk_sum_ppm = q.risk_sum_ppm.wrapping_add(ppm);
    set_pstat(s, p, q);
}

/// Count the time from a physical press to the first game read that shows it.
pub fn record_gp_latency(s: &mut SharedState, p: usize, us: u64)
    ensures
        player_becomes(*old(s), *final(s), p, after_gp_latency(player(*old(s), p), us)),
{
    let mut q: PlayerStats = pstat(s, p);
    q.gp_lat_sum_us = q.gp_lat_sum_us.wrapping_add(us);
    q.gp_lat_max_us = max_of(q.gp_lat_max_us, us);
    q.gp_lat_count = q.gp_lat_count.wrapping_add(1);
    set_pstat(s, p, q);
}

/// Count a delivery that waited a frame.
pub fn record_frame_wait(s: &mut SharedState, p: usize)
    ensures
        player_becomes(
            *old(s),
            *final(s),
            p,
            after_frame_wait(player(*old(s), p)),
        ),
{
    let mut q: PlayerStats = pstat(s, p);
    q.frame_waits = q.frame_waits.wrapping_add(1);
    set_pstat(s, p, q);
}

/// Count a chord saved from a split.
pub fn record_save(s: &mut SharedState, p: usize)
    ensures
        player_becomes(
            *old(s),
            *final(s),
            p,
            after_save(player(*old(s), p)),
        ),
{
    let mut q: PlayerStats = pstat(s, p);
    q.saves = q.saves.wrapping_add(1);
    set_pstat(s, p, q);
}

/// Count an attempted chord.
pub fn record_attempt(s: &mut SharedState, p: usize)
    ensures
        player_becomes(
            *old(s),
            *final(s),
            p,
            after_attempt(player(*old(s), p)),
        ),
{
    let mut q: PlayerStats = pstat(s, p);
    q.attempts = q.attempts.wrapping_add(1);
    set_pstat(s, p, q);
}

/// Count an attempted chord that straddled a read.
pub fn record_miss(s: &mut SharedState, p: usize)
    ensures
        player_becomes(
            *old(s),
            *final(s),
            p,
            after_miss(player(*old(s), p)),
        ),
{
    let mut q: PlayerStats = pstat(s, p);
    q.misses = q.misses.wrapping_add(1);
    set_pstat(s, p, q);
}

/// How many deliveries to player `p` waited a frame.
pub fn frame_waits(s: &SharedState, p: usize) -> (r: u64)
    ensures
        r == player(*s, p).frame_waits,
{
    pstat(s, p).frame_waits
}

/// How many presses of player `p` the game has been seen to read.
pub fn gp_count(s: &SharedState, p: usize) -> (r: u64)
    ensures
        r == player(*s, p).gp_lat_count,
{
    pstat(s, p).gp_lat_count
}

/// Smooth the game's frame time with the interval between two of its reads.
/// Only intervals of 4 to 40 ms count: the others are pauses.
pub fn record_frame_us(s: &mut SharedState, p: usize, delta_us: u64)
    requires
        player(*old(s), p).frame_us <= MAX_FRAME_US,
    ensures
        player_becomes(
            *old(s),
            *final(s),
            p,
            (PlayerStats {
                frame_us: smoothed_frame(player(*old(s), p).frame_us, delta_us),
                ..player(*old(s), p)
            }),
        ),
        player(*final(s), p).frame_us <= MAX_FRAME_US,
{
    let mut q: PlayerStats = pstat(s, p);
    if delta_us >= 4_000 && delta_us <= 40_000 {
        q.frame_us = if q.frame_us == 0 {
            delta_us
        } else {
            (q.frame_us * 7 + delta_us) / 8
        };
    }
    set_pstat(s, p, q);
}

/// The window recommended for a worst gap holds it with a millisecond to spare, and no window
/// two milliseconds shorter would hold it, within the bounds of 3 and 16 milliseconds.
pub proof fn law_the_window_holds_the_worst_gap(max_us: u64)
    ensures
        ({
            let w = window_for_gap(max_us);
            &&& 3 <= w <= 16
            &&& w < 16 ==> max_us <= 1000 * (w - 1)
            &&& w > 3 ==> max_us > 1000 * (w - 2)
        }),
{
}

/// A recommendation is made exactly where a gap has been measured; a longer worst gap never
/// lowers it.
pub proof fn law_a_longer_gap_never_narrows_the_window(s: PlayerStats, us: u64)
    requires
        s.raw_gap_count < u64::MAX,
        s.raw_gap_count == 0 ==> s.raw_gap_max_us == 0,
    ensures
        advised_window(s) == 0 <==> s.raw_gap_max_us == 0,
        advised_window(after_raw_gap(s, us)) >= advised_window(s),
        us > 0 ==> advised_window(after_raw_gap(s, us)) >= window_for_gap(us),
{
}

/// Smoothing takes an eighth of the new interval and leaves seven eighths of the old, so that
/// the result lies between the two and a steady interval stays. An interval below 4 or above
/// 40 milliseconds is no frame and changes nothing; the first that is one is taken as it is.
pub proof fn law_smoothing_moves_by_an_eighth(prev: u64, delta: u64)
    requires
        prev <= 1_000_000,
    ensures
        ({
            let r = smoothed_frame(prev, delta);
            let counts = 4_000 <= delta <= 40_000;
            &&& !counts ==> r == prev
            &&& counts && prev == 0 ==> r == delta
            &&& counts && prev > 0 ==> 8 * r <= 7 * prev + delta < 8 * r + 8
            &&& counts && 0 < prev <= delta ==> prev <= r <= delta
            &&& counts && prev >= delta ==> delta <= r <= prev
        }),
{
}

/// A commit counts once, as a single where it held one attack and as a group where it held
/// more; one without attacks does not count.
pub proof fn law_a_commit_counts_once(s: PlayerStats, attacks: nat)
    requires
        s.singles < u64::MAX && s.groups < u64::MAX,
    ensures
        ({
            let n = after_delivery(s, attacks);
            &&& n.singles - s.singles == if attacks == 1 {
                1int
            } else {
                0
            }
            &&& n.groups - s.groups == if attacks > 1 {
                1int
            } else {
                0
            }
            &&& n == (PlayerStats { singles: n.singles, groups: n.groups, ..s })
        }),
{
}

/// A sum of measures is at most the greatest of them for each.
pub open spec fn in_proportion(sum: u64, greatest: u64, count: u64) -> bool {
    sum <= greatest * count
}

proof fn lemma_in_proportion(sum: u64, greatest: u64, count: u64, us: u64)
    requires
        in_proportion(sum, greatest, count),
        sum + us <= u64::MAX,
        count < u64::MAX,
    ensures
        in_proportion((sum + us) as u64, larger(greatest, us), (count + 1) as u64),
{
    let g = larger(greatest, us) as int;
    assert(sum + us <= g * (count + 1)) by (nonlinear_arith)
        requires
            sum <= greatest * count,
            g >= greatest,
            g >= us,
            count >= 0,
            greatest >= 0,
    ;
}

/// Each measure counts once: it adds to its sum, raises its greatest where it is greater, and
/// no mean ever lies above its greatest.
pub proof fn law_each_measure_counts_once(s: PlayerStats, us: u64)
    requires
        s.lat_sum_us + us <= u64::MAX && s.lat_count < u64::MAX,
        s.gap_sum_us + us <= u64::MAX && s.gap_count < u64::MAX,
        s.raw_gap_sum_us + us <= u64::MAX && s.raw_gap_count < u64::MAX,
        s.gp_lat_sum_us + us <= u64::MAX && s.gp_lat_count < u64::MAX,
        s.risk_sum_ppm + us <= u64::MAX,
        in_proportion(s.lat_sum_us, s.lat_max_us, s.lat_count),
        in_proportion(s.gap_sum_us, s.gap_max_us, s.gap_count),
        in_proportion(s.raw_gap_sum_us, s.raw_gap_max_us, s.raw_gap_count),
        in_proportion(s.gp_lat_sum_us, s.gp_lat_max_us, s.gp_lat_count),
    ensures
        ({
            let n = after_latency(s, us);
            &&& n.lat_last_us == us && n.lat_count == s.lat_count + 1
            &&& n.lat_sum_us == s.lat_sum_us + us
            &&& n.lat_max_us >= us && n.lat_max_us >= s.lat_max_us
            &&& n.lat_max_us == us || n.lat_max_us == s.lat_max_us
            &&& in_proportion(n.lat_sum_us, n.lat_max_us, n.lat_count)
            &&& n.gap_sum_us == s.gap_sum_us && n.raw_gap_sum_us == s.raw_gap_sum_us
            &&& n.gp_lat_sum_us == s.gp_lat_sum_us
        }),
        ({
            let n = after_gap(s, us);
            &&& n.gap_sum_us == s.gap_sum_us + us && n.gap_count == s.gap_count + 1
            &&& n.gap_max_us >= us && n.gap_max_us >= s.gap_max_us
            &&& n.gap_max_us == us || n.gap_max_us == s.gap_max_us
            &&& in_proportion(n.gap_sum_us, n.gap_max_us, n.gap_count)
            &&& n.lat_sum_us == s.lat_sum_us && n.raw_gap_sum_us == s.raw_gap_sum_us
        }),
        ({
            let n = after_raw_gap(s, us);
            &&& n.raw_gap_sum_us == s.raw_gap_sum_us + us && n.raw_gap_count == s.raw_gap_count + 1
            &&& n.raw_gap_max_us >= us && n.raw_gap_max_us >= s.raw_gap_max_us
            &&& n.raw_gap_max_us == us || n.raw_gap_max_us == s.raw_gap_max_us
            &&& in_proportion(n.raw_gap_sum_us, n.raw_gap_max_us, n.raw_gap_count)
            &&& n.lat_sum_us == s.lat_sum_us && n.gap_sum_us == s.gap_sum_us
        }),
        ({
            let n = after_gp_latency(s, us);
            &&& n.gp_lat_sum_us == s.gp_lat_sum_us + us && n.gp_lat_count == s.gp_lat_count + 1
            &&& n.gp_lat_max_us >= us && n.gp_lat_max_us >= s.gp_lat_max_us
            &&& n.gp_lat_max_us == us || n.gp_lat_max_us == s.gp_lat_max_us
            &&& in_proportion(n.gp_lat_sum_us, n.gp_lat_max_us, n.gp_lat_count)
            &&& n.lat_sum_us == s.lat_sum_us && n.lat_count == s.lat_count
        }),
        after_risk(s, us).risk_sum_ppm == s.risk_sum_ppm + us,
{
    lemma_in_proportion(s.lat_sum_us, s.lat_max_us, s.lat_count, us);
    lemma_in_proportion(s.gap_sum_us, s.gap_max_us, s.gap_count, us);
    lemma_in_proportion(s.raw_gap_sum_us, s.raw_gap_max_us, s.raw_gap_count, us);
    lemma_in_proportion(s.gp_lat_sum_us, s.gp_lat_max_us, s.gp_lat_count, us);
}

/// Each event raises its own counter by one and no other.
pub proof fn law_each_event_has_its_counter(s: PlayerStats)
    requires
        s.frame_waits < u64::MAX && s.saves < u64::MAX && s.attempts < u64::MAX && s.misses
            < u64::MAX,
    ensures
        after_frame_wait(s) == (PlayerStats { frame_waits: (s.frame_waits + 1) as u64, ..s }),
        after_save(s) == (PlayerStats { saves: (s.saves + 1) as u64, ..s }),
        after_attempt(s) == (PlayerStats { attempts: (s.attempts + 1) as u64, ..s }),
        after_miss(s) == (PlayerStats { misses: (s.misses + 1) as u64, ..s }),
        has_played(after_attempt(s)),
        !has_played(no_stats()),
{
}

/// What is counted for one player leaves the other's counters, and the settings, alone. A
/// number beyond the second player's is the second player's.
pub proof fn law_players_are_counted_apart(
    a: SharedState,
    b: SharedState,
    p: usize,
    other: usize,
    q: PlayerStats,
)
    requires
        player_becomes(a, b, p, q),
    ensures
        player(b, p) == q,
        (p == 0) != (other == 0) ==> player(b, other) == player(a, other),
        p >= 1 && other >= 1 ==> player(b, other) == q,
        b.enabled == a.enabled && b.window_ms == a.window_ms && b.mode == a.mode,
{
}

/// A fresh state is switched on, with a window of 5 milliseconds for both players, the latch
/// that samples, and counters at zero; its settings are within their bounds, and nothing has
/// read or polled yet.
pub proof fn law_a_fresh_state_is_ready(s: SharedState)
    requires
        is_default(s),
    ensures
        s.magic == 0x4E42_4434,
        s.enabled != 0,
        s.window_ms@[0] == 5 && s.window_ms@[1] == 5,
        crate::hook::mode_asked(s.mode) is Continuous,
        crate::persist::valid(crate::persist::settings_of(s)),
        s.settle_ms == 1,
        s.directions_windowed == 0 && s.block_in_frame == 0,
        s.poll_hz == 0 && s.dll_heartbeat == 0,
        !has_played(player(s, 0)) && !has_played(player(s, 1)),
        advised_window(player(s, 0)) == 0,
{
}

} // verus!
