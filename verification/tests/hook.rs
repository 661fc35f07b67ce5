//! The hook in the game: slots, reads, polls, latches and counters.

use nobd::game_window::SyncWindow;
use nobd::hook::{
    continuous_apply, latch_mode, on_game_read, poll_pad, BlockLatch, BlockPlan, BlockStep,
    GameSide, LatchMode, PollSide, Published, Reader, Slots,
};
use nobd::latched::{LatchPoll, LatchSide, Latched};
use nobd::pollprobe::{ready, report, sample, Probe, Verdict};
use nobd::state::{
    directions_windowed, enabled, frame_waits, gp_count, heartbeat, is_ready, mode, pstat,
    record_attempt, record_delivery, record_frame_us, record_frame_wait, record_gap,
    record_gp_latency, record_latency, record_miss, record_raw_gap, record_risk, record_save,
    set_poll_hz, settle_ms, window_ms, window_ms_u32, PlayerStats, SharedState,
};

const A: u16 = 0x1000;
const B: u16 = 0x2000;
const UP: u16 = 0x0001;

#[test]
fn slots_go_in_the_order_of_the_first_read() {
    let mut s = Slots::new();
    assert_eq!(s.slot_for_idx(3), Some(0));
    assert_eq!(s.slot_for_idx(1), Some(1));
    assert_eq!(s.slot_for_idx(3), Some(0));
    assert_eq!(s.slot_for_idx(0), None);
    assert_eq!(s.slot_for_idx(8), None);
    // The pad to poll for a player is the one that holds the slot.
    assert_eq!((s.index_of(0), s.index_of(1), s.index_of(2)), (Some(3), Some(1), None));
    assert_eq!((Slots::new().index_of(0), s.index_of(usize::MAX)), (None, None));
}

#[test]
fn the_game_sees_what_is_committed() {
    let mut st = SharedState::new();
    let mut r = Reader::new();
    let mut b = Published::new();
    // A is down and withheld; the direction passes.
    assert_eq!(continuous_apply(&mut st, 0, &b, &mut r, A | UP, 1_000), UP);
    assert_eq!(r.withheld, A);
    // Both are committed: the chord was saved, A waited a frame.
    b.committed = A | B;
    b.press_ts[12] = 500;
    b.press_ts[13] = 900;
    assert_eq!(continuous_apply(&mut st, 0, &b, &mut r, A | B, 2_000), A | B);
    let p = pstat(&st, 0);
    assert_eq!((p.saves, p.frame_waits, p.gp_lat_count, p.gp_lat_sum_us), (1, 1, 2, 2_600));
    assert_eq!((frame_waits(&st, 0), gp_count(&st, 0)), (1, 2));
    // Off: the raw word passes and nothing is counted.
    st.enabled = 0;
    b.committed = 0;
    assert_eq!(continuous_apply(&mut st, 0, &b, &mut r, A, 3_000), A);
}

#[test]
fn a_read_beats_the_heart_and_measures_the_frame() {
    let mut st = SharedState::new();
    let mut g = GameSide::new();
    let pubs = [Published::new(), Published::new()];
    assert_eq!(on_game_read(&mut st, &mut g, &pubs, 1, 0, Some(A), 100), None);
    assert_eq!(st.dll_heartbeat, 1);
    let o = on_game_read(&mut st, &mut g, &pubs, 0, 0, Some(UP), 1_000).expect("a read");
    assert_eq!((o.word, o.slot, o.interval_us), (UP, Some(0), None));
    let o = on_game_read(&mut st, &mut g, &pubs, 0, 0, Some(UP | A), 17_000).expect("a read");
    assert_eq!((o.word, o.interval_us), (UP, Some(16_000)));
    assert_eq!(st.players[0].frame_us, 16_000);
    assert_eq!(on_game_read(&mut st, &mut g, &pubs, 0, 0, None, 18_000), None);
    assert_eq!(st.dll_heartbeat, 4);
}

#[test]
fn a_poll_publishes_what_the_window_lets_through() {
    let mut st = SharedState::new();
    let mut ps = PollSide::new();
    let mut b = Published::new();
    poll_pad(&mut st, 0, &mut ps, &mut b, A | UP, 1_000, 0);
    assert_eq!((b.committed, b.press_ts[12]), (0, 1_000));
    poll_pad(&mut st, 0, &mut ps, &mut b, A | B | UP, 4_000, 0);
    assert_eq!((b.committed, b.press_ts[13]), (A | B, 4_000));
    assert_eq!((st.players[0].groups, st.players[0].lat_last_us), (1, 3_000));
    // The raw chord ends with the last release, and its gap is told.
    assert_eq!(poll_pad(&mut st, 0, &mut ps, &mut b, 0, 9_000, 0), Some(3_000));
    assert_eq!(st.players[0].raw_gap_max_us, 3_000);
}

#[test]
fn with_the_window_off_pairs_are_watched() {
    let mut st = SharedState::new();
    st.enabled = 0;
    let mut ps = PollSide::new();
    let mut b = Published::new();
    poll_pad(&mut st, 0, &mut ps, &mut b, A, 1_000, 0);
    assert_eq!(b.committed, A);
    // The game read between the two presses: a miss.
    poll_pad(&mut st, 0, &mut ps, &mut b, A | B, 4_000, 2_000);
    let p = st.players[0];
    assert_eq!((p.attempts, p.misses, p.gap_sum_us), (1, 1, 3_000));
}

#[test]
fn the_blocking_latch_waits_for_a_partner() {
    let mut st = SharedState::new();
    let mut l = BlockLatch { delivered: 0 };
    assert_eq!(l.begin(&st, 0, UP), BlockPlan::Pass);
    assert_eq!(l.begin(&st, 0, A), BlockPlan::Wait { window_ms: 5 });
    assert_eq!(l.begin(&st, 0, A | B), BlockPlan::Complete);
    st.window_ms = [16, 16];
    assert_eq!(l.begin(&st, 0, A), BlockPlan::Wait { window_ms: 8 });
    assert_eq!(BlockLatch::poll(&st, A), BlockStep::Again);
    assert_eq!(BlockLatch::poll(&st, 0), BlockStep::Released);
    assert_eq!(BlockLatch::poll(&st, A | B), BlockStep::Partner);
    assert!(!BlockLatch::expired(5, 4_999) && BlockLatch::expired(5, 5_000));
    assert_eq!((BlockLatch::settle_for(&st, A | B), BlockLatch::settle_for(&st, A)), (1, 0));
    l.finish(&mut st, 0, A | B | UP, 2_500, Some(2_000));
    assert_eq!(l.delivered, A | B);
    let p = st.players[0];
    assert_eq!((p.groups, p.saves, p.gap_max_us, p.lat_last_us), (1, 1, 2_000, 2_500));
    assert_eq!(l.begin(&st, 0, A | B), BlockPlan::Pass);
    st.enabled = 0;
    assert_eq!(l.begin(&st, 0, A), BlockPlan::Pass);
}

#[test]
fn an_unknown_mode_defers() {
    assert_eq!(latch_mode(1), LatchMode::Block);
    assert_eq!(latch_mode(2), LatchMode::Continuous);
    assert_eq!(latch_mode(0), LatchMode::Defer);
    assert_eq!(latch_mode(9), LatchMode::Defer);
}

#[test]
fn the_second_player_has_a_window_of_his_own() {
    let mut st = SharedState::new();
    st.window_ms = [5, 1];
    let mut w = SyncWindow::with_player(1);
    assert_eq!(w.process(&mut st, A, 0xF300, 1_000), 0);
    assert_eq!(w.process(&mut st, A, 0xF300, 2_000), A);
    assert_eq!(st.players[1].singles, 1);
    assert_eq!(st.players[0].singles, 0);
}

#[test]
fn the_state_starts_with_its_defaults() {
    let mut st = SharedState::new();
    assert!(is_ready(&st) && enabled(&st) && !directions_windowed(&st));
    assert_eq!((window_ms(&st, 0), window_ms_u32(&st, 9), settle_ms(&st), mode(&st)), (5, 5, 1, 2));
    st.magic = 0;
    assert!(!is_ready(&st));
    st.window_ms = [1, 2];
    st.init_defaults();
    assert!(is_ready(&st));
    assert_eq!(st.window_ms, [5, 5]);
    set_poll_hz(&mut st, 900);
    heartbeat(&mut st);
    assert_eq!((st.poll_hz, st.dll_heartbeat), (900, 1));
}

#[test]
fn counters_count() {
    let mut st = SharedState::new();
    assert!(!pstat(&st, 0).active());
    record_delivery(&mut st, 0, 0);
    assert!(!pstat(&st, 0).active());
    record_delivery(&mut st, 0, A);
    record_delivery(&mut st, 0, A | B);
    record_latency(&mut st, 0, 4);
    record_latency(&mut st, 0, 2);
    record_gap(&mut st, 0, 3);
    record_raw_gap(&mut st, 0, 5);
    record_risk(&mut st, 0, 7);
    record_gp_latency(&mut st, 0, 8);
    record_frame_wait(&mut st, 0);
    record_save(&mut st, 0);
    record_attempt(&mut st, 0);
    record_miss(&mut st, 0);
    let p = pstat(&st, 0);
    assert!(p.active());
    assert_eq!((p.singles, p.groups), (1, 1));
    assert_eq!((p.lat_last_us, p.lat_max_us, p.lat_sum_us, p.lat_count), (2, 4, 6, 2));
    assert_eq!((p.gap_sum_us, p.gap_max_us, p.gap_count), (3, 3, 1));
    assert_eq!((p.raw_gap_sum_us, p.raw_gap_max_us, p.raw_gap_count), (5, 5, 1));
    assert_eq!((p.risk_sum_ppm, p.gp_lat_max_us, p.frame_waits), (7, 8, 1));
    assert_eq!((p.saves, p.attempts, p.misses), (1, 1, 1));
    st.reset_stats();
    assert_eq!(pstat(&st, 0), PlayerStats::new());
}

#[test]
fn the_frame_time_is_smoothed_and_kept_sane() {
    let mut st = SharedState::new();
    record_frame_us(&mut st, 0, 3_999);
    record_frame_us(&mut st, 0, 40_001);
    assert_eq!(st.players[0].frame_us, 0);
    record_frame_us(&mut st, 0, 16_000);
    record_frame_us(&mut st, 0, 24_000);
    assert_eq!(st.players[0].frame_us, 17_000);
}

#[test]
fn the_recommended_window_covers_the_worst_gap() {
    let mut p = PlayerStats::new();
    assert_eq!(p.recommended_window_ms(), 0);
    p.raw_gap_count = 1;
    for (us, ms) in [(1, 3), (2_000, 3), (2_001, 4), (6_000, 7), (15_000, 16), (99_000, 16)] {
        p.raw_gap_max_us = us;
        assert_eq!(p.recommended_window_ms(), ms, "{us} us");
    }
    p.reset();
    assert_eq!(p.recommended_window_ms(), 0);
}

#[test]
fn the_probe_reports_once() {
    let mut p = Probe::new();
    assert!(!ready(&p));
    for _ in 0..1024 {
        sample(&mut p, 16_667);
    }
    sample(&mut p, 1); // full: nothing more is kept
    assert!(ready(&p));
    let a = report(&mut p).expect("full");
    assert_eq!((a.n, a.p01_us, a.p50_us, a.p99_us), (1024, 16_667, 16_667, 16_667));
    assert_eq!((a.mean_us, a.jitter_us), (16_667, 0));
    assert_eq!(a.verdict, Verdict::OncePerFrame);
    assert_eq!(a.bars.len(), 1);
    assert_eq!((a.bars[0].ms, a.bars[0].count), (16, 1024));
    assert!(report(&mut p).is_none() && !ready(&p));
    let mut early = Probe::new();
    sample(&mut early, u64::MAX);
    assert_eq!(early.buf, vec![u32::MAX]);
    assert_eq!(report(&mut early).expect("once").p50_us, 0);
}

#[test]
fn the_mode_chooses_the_latch() {
    let mut st = SharedState::new();
    let published = [Published { committed: A, ..Published::new() }, Published::new()];
    let mut side = LatchSide::new();
    st.mode = 0;
    // Deferred: a press waits from read to read, a partner completes the chord.
    assert_eq!(side.read(&mut st, &published, 0, 0, Some(A | UP), 1_000), Some(Latched::Word(UP)));
    assert_eq!(
        side.read(&mut st, &published, 0, 0, Some(A | B), 5_000),
        Some(Latched::Word(A | B))
    );
    assert_eq!((st.players[0].groups, st.players[0].saves, st.players[0].frame_us), (1, 1, 4_000));
    // Blocking: the plan is handed on.
    st.mode = 1;
    assert_eq!(
        side.read(&mut st, &published, 0, 1, Some(A), 6_000),
        Some(Latched::Block(BlockPlan::Wait { window_ms: 5 }))
    );
    // Continuous: what the poll thread has committed.
    st.mode = 2;
    assert_eq!(side.read(&mut st, &published, 0, 0, Some(B), 9_000), Some(Latched::Word(A)));
    // A third pad, a failed read and a read to nowhere only beat the heart.
    let before = st.players;
    assert_eq!(side.read(&mut st, &published, 0, 2, Some(A), 9_500), None);
    assert_eq!(side.read(&mut st, &published, 1167, 0, Some(A), 9_500), None);
    assert_eq!(side.read(&mut st, &published, 0, 0, None, 9_500), None);
    assert_eq!((st.players, st.dll_heartbeat), (before, 7));
}

#[test]
fn the_latched_poll_publishes_what_it_lets_through() {
    let mut st = SharedState::new();
    let mut b = Published::new();
    let mut ps = LatchPoll::new(1);
    ps.poll(&mut st, &mut b, A | UP, 1_000, 0);
    assert_eq!((b.committed, b.synced_mask, b.press_ts[12]), (0, 0xF300, 1_000));
    ps.poll(&mut st, &mut b, A | B, 3_000, 0);
    assert_eq!((b.committed, b.press_ts[13]), (A | B, 3_000));
    // Chords across two polls are no saves.
    assert_eq!((st.players[1].groups, st.players[1].saves), (1, 0));
    // With the window off, pairs are watched; the game read in between.
    st.enabled = 0;
    ps.poll(&mut st, &mut b, 0, 10_000, 0);
    ps.rest();
    ps.poll(&mut st, &mut b, A, 11_000, 0);
    ps.poll(&mut st, &mut b, A | B, 13_000, 12_000);
    let p = st.players[1];
    assert_eq!((p.attempts, p.misses, p.gap_max_us), (1, 1, 2_000));
    assert_eq!(b.committed, A | B);
}
