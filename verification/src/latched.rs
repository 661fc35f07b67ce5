//! The older hook, which has a choice of latches.
//!
//! The mode setting picks among the latch that defers from one read of the game to the
//! next, the one that waits inside a read, and the one that samples what a poll thread
//! has committed. A pad's user index is its player here.

use crate::bits::bit;
use crate::game_window::{
    after_read, counted, empty_latch, synced_bits, Latch, Reading, SyncWindow,
};
use crate::hook::{
    block_plan, continuous_apply, frame_counted, latch_mode, lead_after, lemma_reads_keep_frames,
    read_counted, reader_after, sampled, shadow_counted, stamp, watch, BlockLatch, BlockPlan, LatchMode,
    Published, Reader,
};
use crate::state::{
    directions_windowed, heartbeat, mode, player, player_becomes, record_frame_us, slot,
    PlayerStats, SharedState, MAX_FRAME_US,
};
use crate::telemetry::XINPUT_ATTACK_MASK;
use vstd::prelude::*;

verus! {

/// The read of a pad that a latch of player `p` is given.
pub open spec fn latch_reading(s: SharedState, p: usize, raw: u16, now_us: u64) -> Reading {
    Reading {
        raw,
        attack: XINPUT_ATTACK_MASK,
        synced: synced_bits(s, XINPUT_ATTACK_MASK),
        now_us,
        window_ms: s.window_ms@[slot(p)] as u128,
    }
}

/// A latch after a read: with the window off it is what is down.
pub open spec fn latch_after(s: SharedState, p: usize, l: Latch, raw: u16, now_us: u64) -> Latch {
    if s.enabled == 0 {
        Latch { committed: raw, pending: None }
    } else {
        after_read(l, latch_reading(s, p, raw, now_us))
    }
}

/// The word that a latch lets through: with the window off, all of it.
pub open spec fn latch_word(s: SharedState, p: usize, l: Latch, raw: u16, now_us: u64) -> u16 {
    if s.enabled == 0 {
        raw
    } else {
        (raw & !synced_bits(s, XINPUT_ATTACK_MASK)) | latch_after(s, p, l, raw, now_us).committed
    }
}

/// The counters of player `p` after a read through a latch.
pub open spec fn latch_counted(
    s: SharedState,
    p: usize,
    q: PlayerStats,
    l: Latch,
    raw: u16,
    now_us: u64,
    saves: bool,
) -> PlayerStats {
    if s.enabled == 0 {
        q
    } else {
        counted(q, l, latch_reading(s, p, raw, now_us), saves)
    }
}

// ---- the poll thread ------------------------------------------------------

/// What the poll thread remembers of one pad.
pub struct LatchPoll {
    pub window: SyncWindow,
    pub last_raw_atks: u16,
    /// With the window off: the lead press of what may become a pair.
    pub shadow_lead: Option<u64>,
}

impl LatchPoll {
    /// Nothing has been polled. Chords across two polls are no saves: the poll thread
    /// is faster than the game.
    pub fn new(player: usize) -> (r: Self)
        ensures
            r.window@ == empty_latch(),
            r.window.player == player,
            !r.window.record_saves,
            r.last_raw_atks == 0,
            r.shadow_lead is None,
    {
        let mut window = SyncWindow::with_player(player);
        window.record_saves = false;
        LatchPoll { window, last_raw_atks: 0, shadow_lead: None }
    }

    /// The poll thread rests while another latch is chosen: what is down when it goes on
    /// counts as pressed then.
    pub fn rest(&mut self)
        ensures
            *final(self) == (LatchPoll { last_raw_atks: 0, ..*old(self) }),
    {
        self.last_raw_atks = 0;
    }

    /// The attacks that have gone down since the last poll.
    pub open spec fn rising(&self, raw: u16) -> u16 {
        (raw & XINPUT_ATTACK_MASK) & !self.last_raw_atks
    }

    /// One poll of the pad: stamp the presses, watch for pairs while the window is off,
    /// run the latch and publish what it lets through. `last_read_us` is when the game
    /// last read this pad.
    pub fn poll(
        &mut self,
        s: &mut SharedState,
        b: &mut Published,
        raw: u16,
        now_us: u64,
        last_read_us: u64,
    )
        ensures
            final(self).window@ == latch_after(
                *old(s),
                old(self).window.player,
                old(self).window@,
                raw,
                now_us,
            ),
            final(self).window.player == old(self).window.player,
            final(self).window.record_saves == old(self).window.record_saves,
            final(self).last_raw_atks == raw & XINPUT_ATTACK_MASK,
            final(self).shadow_lead == if old(s).enabled == 0 {
                lead_after(
                    old(self).shadow_lead,
                    old(self).rising(raw),
                    raw & XINPUT_ATTACK_MASK,
                    now_us,
                    (old(s).window_ms@[slot(old(self).window.player)] * 1000) as u64,
                )
            } else {
                None
            },
            player_becomes(
                *old(s),
                *final(s),
                old(self).window.player,
                if old(s).enabled == 0 {
                    shadow_counted(
                        player(*old(s), old(self).window.player),
                        old(self).shadow_lead,
                        old(self).rising(raw),
                        now_us,
                        (old(s).window_ms@[slot(old(self).window.player)] * 1000) as u64,
                        last_read_us,
                    )
                } else {
                    latch_counted(
                        *old(s),
                        old(self).window.player,
                        player(*old(s), old(self).window.player),
                        old(self).window@,
                        raw,
                        now_us,
                        old(self).window.record_saves,
                    )
                },
            ),
            final(b).committed == latch_word(
                *old(s),
                old(self).window.player,
                old(self).window@,
                raw,
                now_us,
            ) & synced_bits(*old(s), XINPUT_ATTACK_MASK),
            final(b).synced_mask == synced_bits(*old(s), XINPUT_ATTACK_MASK),
            forall|i: int|
                0 <= i < 16 ==> #[trigger] final(b).press_ts@[i] == if bit(
                    old(self).rising(raw),
                    i,
                ) {
                    now_us
                } else {
                    old(b).press_ts@[i]
                },
    {
        let ghost s0 = *s;
        let p: usize = self.window.player;
        let raw_atks: u16 = raw & XINPUT_ATTACK_MASK;
        let rising: u16 = raw_atks & !self.last_raw_atks;
        let synced: u16 = if directions_windowed(s) {
            0xFFFF
        } else {
            XINPUT_ATTACK_MASK
        };
        let mut ts: [u64; 16] = b.press_ts;
        stamp(&mut ts, rising, now_us);
        b.press_ts = ts;
        self.last_raw_atks = raw_atks;
        self.shadow_lead = watch(s, p, self.shadow_lead, rising, raw_atks, now_us, last_read_us);
        proof {
            assert(s0.players@.update(slot(p), player(s0, p)) =~= s0.players@);
        }
        let filtered: u16 = self.window.process(s, raw, XINPUT_ATTACK_MASK, now_us);
        b.committed = filtered & synced;
        b.synced_mask = synced;
    }
}

// ---- the game's reads -----------------------------------------------------

/// The game's side of the hook.
pub struct LatchSide {
    /// When each player's pad was last read; 0 before the first read.
    pub last_poll_us: [u64; 2],
    pub readers: [Reader; 2],
    pub windows: [SyncWindow; 2],
    pub blocks: [BlockLatch; 2],
}

/// What a read of the game comes to.
#[derive(Clone, Copy, Debug, PartialEq, Eq)]
pub enum Latched {
    /// Hand this word to the game.
    Word(u16),
    /// Go on as the latch that waits has planned.
    Block(BlockPlan),
}

/// The time since the last read, where there was one.
pub open spec fn interval_of(last: u64, now_us: u64) -> Option<u64> {
    if last != 0 {
        Some((now_us - last) as u64)
    } else {
        None
    }
}

impl LatchSide {
    /// Each player's latch feeds that player's counters.
    pub open spec fn wf(&self) -> bool {
        self.windows@[0].player == 0 && self.windows@[1].player == 1
    }

    /// The game has read nothing.
    pub fn new() -> (r: Self)
        ensures
            r.wf(),
            forall|p: int| 0 <= p < 2 ==> #[trigger] r.last_poll_us@[p] == 0,
            forall|p: int|
                0 <= p < 2 ==> #[trigger] r.readers@[p] == (Reader { delivered: 0, withheld: 0 }),
            forall|p: int|
                0 <= p < 2 ==> (#[trigger] r.windows@[p])@ == empty_latch()
                    && r.windows@[p].record_saves,
            forall|p: int| 0 <= p < 2 ==> (#[trigger] r.blocks@[p]).delivered == 0,
    {
        LatchSide {
            last_poll_us: [0, 0],
            readers: [Reader::new(), Reader::new()],
            windows: [SyncWindow::with_player(0), SyncWindow::with_player(1)],
            blocks: [BlockLatch { delivered: 0 }, BlockLatch { delivered: 0 }],
        }
    }

    /// One read of the game: `ret` is what the real read returned (0 is success), `raw`
    /// the word it filled in, or `None` where the game gave no place for it. Every read
    /// beats the heart; a successful one of the first two pads measures the frame and
    /// goes through the latch that the mode asks for. Other pads pass untouched.
    pub fn read(
        &mut self,
        s: &mut SharedState,
        published: &[Published; 2],
        ret: u32,
        idx: u32,
        raw: Option<u16>,
        now_us: u64,
    ) -> (r: Option<Latched>)
        requires
            old(self).wf(),
            forall|p: int| 0 <= p < 2 ==> #[trigger] old(self).last_poll_us@[p] <= now_us,
            forall|p: int| 0 <= p < 2 ==> (#[trigger] old(s).players@[p]).frame_us <= MAX_FRAME_US,
        ensures
            final(self).wf(),
            forall|p: int| 0 <= p < 2 ==> #[trigger] final(self).last_poll_us@[p] <= now_us,
            forall|p: int| 0 <= p < 2 ==> (#[trigger] final(s).players@[p]).frame_us <= MAX_FRAME_US,
            r is Some <==> ret == 0 && idx < 2 && raw is Some,
            r is None ==> *final(self) == *old(self) && *final(s) == (SharedState {
                dll_heartbeat: old(s).dll_heartbeat.wrapping_add(1),
                ..*old(s)
            }),
            r matches Some(out) ==> {
                let p = idx as usize;
                let i = idx as int;
                let beat = SharedState {
                    dll_heartbeat: old(s).dll_heartbeat.wrapping_add(1),
                    ..*old(s)
                };
                let q = frame_counted(
                    player(*old(s), p),
                    interval_of(old(self).last_poll_us@[i], now_us),
                );
                &&& final(self).last_poll_us@ == old(self).last_poll_us@.update(i, now_us)
                &&& old(s).mode == 1 ==> {
                    &&& out == Latched::Block(
                        block_plan(*old(s), p, old(self).blocks@[i].delivered, raw->0),
                    )
                    &&& final(self).blocks@ == old(self).blocks@.update(
                        i,
                        BlockLatch {
                            delivered: if old(s).enabled != 0 && block_plan(
                                *old(s),
                                p,
                                old(self).blocks@[i].delivered,
                                raw->0,
                            ) is Pass {
                                raw->0 & synced_bits(*old(s), XINPUT_ATTACK_MASK)
                            } else {
                                old(self).blocks@[i].delivered
                            },
                        },
                    )
                    &&& final(self).windows == old(self).windows
                    &&& final(self).readers == old(self).readers
                    &&& player_becomes(beat, *final(s), p, q)
                }
                &&& old(s).mode == 2 ==> {
                    &&& out == Latched::Word(
                        if old(s).enabled == 0 {
                            raw->0
                        } else {
                            sampled(published@[i], raw->0)
                        },
                    )
                    &&& final(self).readers@ == old(self).readers@.update(
                        i,
                        if old(s).enabled == 0 {
                            old(self).readers@[i]
                        } else {
                            reader_after(published@[i], old(self).readers@[i], raw->0)
                        },
                    )
                    &&& final(self).windows == old(self).windows
                    &&& final(self).blocks == old(self).blocks
                    &&& player_becomes(
                        beat,
                        *final(s),
                        p,
                        if old(s).enabled == 0 {
                            q
                        } else {
                            read_counted(q, published@[i], old(self).readers@[i], raw->0, now_us)
                        },
                    )
                }
                &&& old(s).mode != 1 && old(s).mode != 2 ==> {
                    &&& out == Latched::Word(
                        latch_word(*old(s), p, old(self).windows@[i]@, raw->0, now_us),
                    )
                    &&& final(self).windows@[i]@ == latch_after(
                        *old(s),
                        p,
                        old(self).windows@[i]@,
                        raw->0,
                        now_us,
                    )
                    &&& final(self).windows@[i].record_saves == old(
                        self,
                    ).windows@[i].record_saves
                    &&& final(self).windows@[1 - i] == old(self).windows@[1 - i]
                    &&& final(self).readers == old(self).readers
                    &&& final(self).blocks == old(self).blocks
                    &&& player_becomes(
                        beat,
                        *final(s),
                        p,
                        latch_counted(
                            *old(s),
                            p,
                            q,
                            old(self).windows@[i]@,
                            raw->0,
                            now_us,
                            old(self).windows@[i].record_saves,
                        ),
                    )
                }
            },
    {
        heartbeat(s);
        let ghost beat = *s;
        let word: u16 = match raw {
            Some(w) => w,
            None => {
                return None;
            },
        };
        if ret != 0 || idx >= 2 {
            return None;
        }
        let p: usize = idx as usize;
        let last: u64 = self.last_poll_us[p];
        self.last_poll_us[p] = now_us;
        proof {
            assert(beat.players@.update(slot(p), player(beat, p)) =~= beat.players@);
            assert(player(beat, p) == beat.players@[p as int]);
        }
        if last != 0 {
            record_frame_us(s, p, now_us - last);
        }
        let ghost framed = *s;
        proof {
            assert(framed.players@ =~= beat.players@.update(slot(p), player(framed, p)));
        }
        match latch_mode(mode(s)) {
            LatchMode::Block => {
                let mut latch: BlockLatch = self.blocks[p];
                let plan = latch.begin(s, p, word);
                self.blocks[p] = latch;
                Some(Latched::Block(plan))
            },
            LatchMode::Continuous => {
                let mut reader: Reader = self.readers[p];
                let out: u16 = continuous_apply(s, p, &published[p], &mut reader, word, now_us);
                self.readers[p] = reader;
                proof {
                    if beat.enabled != 0 {
                        lemma_reads_keep_frames(
                            player(framed, p),
                            published@[p as int],
                            old(self).readers@[p as int],
                            word,
                            now_us,
                        );
                    }
                    assert(s.players@ =~= beat.players@.update(slot(p), player(*s, p)));
                }
                Some(Latched::Word(out))
            },
            LatchMode::Defer => {
                let out: u16 = if p == 0 {
                    self.windows[0].process(s, word, XINPUT_ATTACK_MASK, now_us)
                } else {
                    self.windows[1].process(s, word, XINPUT_ATTACK_MASK, now_us)
                };
                proof {
                    assert(s.players@ =~= beat.players@.update(slot(p), player(*s, p)));
                }
                Some(Latched::Word(out))
            },
        }
    }
}

/// With the window off the game sees the pad as it is. With it on, a bit that is not synced
/// passes as it is, and a synced one is seen only while it is down and committed.
pub proof fn law_the_latch_lets_through_what_is_committed(
    s: SharedState,
    p: usize,
    l: Latch,
    raw: u16,
    now_us: u64,
    i: int,
)
    requires
        0 <= i < 16,
    ensures
        s.enabled == 0 ==> latch_word(s, p, l, raw, now_us) == raw,
        s.enabled != 0 ==> {
            let synced = bit(synced_bits(s, XINPUT_ATTACK_MASK), i);
            let seen = bit(latch_word(s, p, l, raw, now_us), i);
            &&& !synced ==> seen == bit(raw, i)
            &&& synced ==> seen == bit(latch_after(s, p, l, raw, now_us).committed, i)
            &&& seen ==> bit(raw, i)
        },
{
    broadcast use crate::bits::group_bit;

    if s.enabled != 0 {
        crate::game_window::law_only_synced_bits_wait(l, latch_reading(s, p, raw, now_us), i);
    }
}

/// With directions windowed every button is synced; without, only the six attacks are.
pub proof fn law_what_is_synced(s: SharedState, i: int)
    requires
        0 <= i < 16,
    ensures
        s.directions_windowed != 0 ==> bit(synced_bits(s, XINPUT_ATTACK_MASK), i),
        s.directions_windowed == 0 ==> bit(synced_bits(s, XINPUT_ATTACK_MASK), i) == (i >= 12 || i
            == 8 || i == 9),
{
    let k = i as u16;
    assert(((0xF300u16 >> k) & 1 == 1) == (k >= 12 || k == 8 || k == 9) && (0xFFFFu16 >> k) & 1
        == 1) by (bit_vector)
        requires
            k < 16,
    ;
}

/// The frame is measured from the second read on, as the time since the one before.
pub proof fn law_the_interval_is_since_the_last_read(last: u64, now_us: u64)
    requires
        last <= now_us,
    ensures
        interval_of(last, now_us) is None <==> last == 0,
        interval_of(last, now_us) matches Some(d) ==> last + d == now_us,
{
}

} // verus!
