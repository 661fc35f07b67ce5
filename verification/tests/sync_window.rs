//! The button-grouping window, driven tick by tick.

use nobd::sync_window::SyncWindow;

const LP: u16 = 1 << 2;
const HP: u16 = 1 << 0;
const AM: u16 = 0x00FF;
const W: u32 = 5000;

/// Drive a 1 kHz poll loop over a script of `(ms, raw)` change points and
/// return, per bit, the ms range it was visible on the output.
fn visible(
    script: &[(u64, u16)],
    window_ms: u32,
    until_ms: u64,
    bit: u16,
) -> Option<(u64, u64)> {
    let mut w = SyncWindow::new();
    let mut on: Option<u64> = None;
    let mut off: Option<u64> = None;
    let mut raw: u16 = 0;
    for ms in 0..=until_ms {
        if let Some((_, r)) = script.iter().rev().find(|(t, _)| *t <= ms) {
            raw = *r;
        }
        let out = w.process(raw, AM, AM, ms * 1000, window_ms * 1000, true);
        if out & bit != 0 && on.is_none() {
            on = Some(ms);
        }
        if on.is_some() && out & bit == 0 && off.is_none() {
            off = Some(ms);
        }
    }
    on.map(|o| (o, off.unwrap_or(until_ms)))
}

#[test]
fn solo_delayed_then_committed() {
    let mut w = SyncWindow::new();
    assert_eq!(w.process(LP, AM, AM, 0, W, true), 0);
    assert_eq!(w.process(LP, AM, AM, (W + 1000) as u64, W, true), LP);
}

#[test]
fn pair_grouped_immediately() {
    let mut w = SyncWindow::new();
    assert_eq!(w.process(LP, AM, AM, 0, W, true), 0);
    assert_eq!(w.process(LP | HP, AM, AM, 1000, W, true), LP | HP);
}

#[test]
fn simultaneous_immediate() {
    let mut w = SyncWindow::new();
    assert_eq!(w.process(LP | HP, AM, AM, 0, W, true), LP | HP);
}

#[test]
fn disabled_passthrough() {
    let mut w = SyncWindow::new();
    assert_eq!(w.process(LP, AM, AM, 0, W, false), LP);
}

#[test]
fn directions_are_never_delayed() {
    let mut w = SyncWindow::new();
    let dirs: u16 = 0x0F00; // outside AM
    assert_eq!(w.process(LP | dirs, AM, AM, 0, W, true), dirs);
}

// ---- presses are neither eaten nor shortened ----------------------------

#[test]
fn short_tap_is_delivered_not_swallowed() {
    // A 2 ms tap under a 5 ms window is delivered 5 ms late, 2 ms wide.
    let v = visible(&[(0, LP), (2, 0)], 5, 40, LP);
    assert_eq!(v, Some((5, 7)), "2 ms tap must still reach the game");
}

#[test]
fn short_tap_is_delivered_at_the_widest_window() {
    // A 10 ms tap, an ordinary jab, at the widest window.
    let v = visible(&[(0, LP), (10, 0)], 16, 60, LP);
    assert_eq!(v, Some((16, 26)), "10 ms tap must survive a 16 ms window");
}

#[test]
fn pulse_width_is_preserved() {
    // 40 ms hold, 16 ms window: the game must see 40 ms, not 40 - 16.
    let (on, off): (u64, u64) = visible(&[(0, LP), (40, 0)], 16, 90, LP).expect("delivered");
    assert_eq!(off - on, 40, "the window must not shorten the press");
    assert_eq!(on, 16, "press delayed by exactly the window");
}

#[test]
fn grouped_press_adds_no_delay_to_the_late_button() {
    // LP at 0, HP at 3, both released at 40. Deliver-on-grouped fires at 3.
    let script = [(0u64, LP), (3, LP | HP), (40, 0)];
    let lp: (u64, u64) = visible(&script, 5, 90, LP).expect("LP delivered");
    let hp: (u64, u64) = visible(&script, 5, 90, HP).expect("HP delivered");
    assert_eq!(lp.0, hp.0, "the chord must land on the same tick");
    assert_eq!(lp.0, 3, "HP closing the group commits immediately");
    assert_eq!(lp.1 - lp.0, 40, "LP width preserved");
    assert_eq!(hp.1 - hp.0, 37, "HP width preserved");
}

#[test]
fn bounce_inside_the_window_reads_as_one_press() {
    // Press, 1 ms bounce, press again — one continuous 30 ms pulse.
    let (on, off): (u64, u64) = visible(&[(0, LP), (1, 0), (2, LP), (30, 0)], 5, 70, LP)
        .expect("delivered");
    assert_eq!((on, off - on), (5, 30), "bounce must not split the press");
}

#[test]
fn bounce_on_the_lead_button_still_groups_the_chord() {
    // LP presses at 0, bounces up for 1 ms, and HP joins at 3. The bounce
    // must not flush LP's window early and split what is really a chord.
    let script = [(0u64, LP), (1, 0), (2, LP), (3, LP | HP), (40, 0)];
    let lp: (u64, u64) = visible(&script, 5, 90, LP).expect("LP delivered");
    let hp: (u64, u64) = visible(&script, 5, 90, HP).expect("HP delivered");
    assert_eq!(lp.0, hp.0, "a bounced lead button must still group");
    assert_eq!(lp.0, 3, "deliver-on-grouped still fires at the partner");
}

#[test]
fn window_size_changes_grouping() {
    // A 3 ms finger gap splits at 1 ms and groups at 5 ms — the slider works.
    let script = [(0u64, LP), (3, LP | HP), (40, 0)];
    let tight = (
        visible(&script, 1, 90, LP).unwrap().0,
        visible(&script, 1, 90, HP).unwrap().0,
    );
    let loose = (
        visible(&script, 5, 90, LP).unwrap().0,
        visible(&script, 5, 90, HP).unwrap().0,
    );
    assert_ne!(tight.0, tight.1, "1 ms window must let the chord split");
    assert_eq!(loose.0, loose.1, "5 ms window must group the chord");
}

#[test]
fn a_repress_during_the_release_debt_still_groups() {
    // Tap an attack, then within the window press it again TOGETHER with a
    // partner: ordinary mashing. The button that never left the output counts
    // as the partner's group.
    const WW: u32 = 16_000;
    let mut w = SyncWindow::new();
    assert_eq!(w.process(LP, AM, AM, 0, WW, true), 0);
    assert_eq!(w.process(LP, AM, AM, 16_000, WW, true), LP); // commits, owes 16 ms
    assert_eq!(w.process(0, AM, AM, 20_000, WW, true), LP); // released, debt running
    assert_eq!(
        w.process(LP | HP, AM, AM, 25_000, WW, true),
        LP | HP,
        "HP waited a full window for a partner that was already down"
    );
}

#[test]
fn a_tap_survives_a_commit_that_lands_late() {
    // Sparse ticks: the caller does not poll between the press and long
    // after the window expired. The tap must still be delivered with its own
    // width, not released on the very tick it commits.
    let mut w = SyncWindow::new();
    assert_eq!(w.process(LP, AM, AM, 0, W, true), 0);
    assert_eq!(w.process(0, AM, AM, 1_000, W, true), 0); // 1 ms tap
    assert_eq!(w.process(0, AM, AM, 7_000, W, true), LP, "the tap was deleted");
    assert_eq!(w.process(0, AM, AM, 7_999, W, true), LP, "width cut short");
    assert_eq!(w.process(0, AM, AM, 8_000, W, true), 0);
}

#[test]
fn a_long_gap_cannot_create_a_giant_release_debt() {
    // The Windows loops skip process() entirely while the source is absent,
    // so a window can be open across a multi-second USB outage. The delay a
    // press "owes" its release is by contract at most the window.
    let mut w = SyncWindow::new();
    w.process(LP, AM, AM, 0, W, true);
    assert_eq!(w.process(LP, AM, AM, 5_000_000, W, true), LP);
    w.process(0, AM, AM, 5_001_000, W, true);
    assert_eq!(
        w.process(0, AM, AM, 5_011_000, W, true),
        0,
        "the button hung far past its release"
    );
}

#[test]
fn toggling_sync_off_clears_the_release_debt() {
    const WW: u32 = 16_000;
    let mut w = SyncWindow::new();
    w.process(LP, AM, AM, 0, WW, true);
    assert_eq!(w.process(LP, AM, AM, 16_000, WW, true), LP); // 16 ms delay recorded
    assert_eq!(w.process(LP, AM, AM, 17_000, WW, false), LP); // off: passthrough
    assert_eq!(w.process(LP, AM, AM, 30_000, WW, true), LP); // on again, no delay earned
    assert_eq!(
        w.process(0, AM, AM, 40_000, WW, true),
        0,
        "an unearned debt from before the toggle held the button down"
    );
}

#[test]
fn a_clock_that_steps_backwards_does_not_strand_a_bit() {
    // The Linux bulk path translates a firmware timestamp and can hand us a
    // `now_us` slightly EARLIER than the previous call.
    let mut w = SyncWindow::new();
    w.process(LP, AM, AM, 1_000_500, W, true);
    w.process(LP, AM, AM, 1_000_300, W, true); // 200 us backwards
    w.process(LP, AM, AM, 1_010_000, W, true); // commit
    w.process(0, AM, AM, 1_011_000, W, true); // release
    assert_eq!(
        w.process(0, AM, AM, 1_021_000, W, true),
        0,
        "a backwards clock step wrapped the debt into a huge hold"
    );
}

#[test]
fn next_deadline_covers_an_outstanding_release() {
    // After a delayed release is scheduled, an event-driven caller must have
    // something to wake on even though no window is open.
    let mut w = SyncWindow::new();
    w.process(LP, AM, AM, 0, W, true);
    w.process(LP, AM, AM, 5_000, W, true); // commit, delay = 5 ms
    assert!(w.pending_until(W).is_none(), "window closed");
    w.process(0, AM, AM, 20_000, W, true); // release -> owes 5 ms
    assert_eq!(
        w.next_deadline_us(W),
        Some(25_000),
        "the delayed release must be wakeable"
    );
}

// ---- what the window promises -------------------------------------------------

/// A pseudo-random run of the window: every tick's raw and reported words.
fn trace(seed: u64, ticks: u64, window_us: u32, enabled: bool) -> Vec<(u64, u16, u16)> {
    let mut w = SyncWindow::new();
    let mut x: u64 = seed;
    let mut raw: u16 = 0;
    let mut out = Vec::new();
    for t in 0..ticks {
        x = x.wrapping_mul(6364136223846793005).wrapping_add(1442695040888963407);
        if (x >> 40) % 4 == 0 {
            raw ^= 1 << ((x >> 50) % 12);
        }
        let now: u64 = t * 700;
        out.push((now, raw, w.process(raw, AM, AM, now, window_us, enabled)));
    }
    out
}

#[test]
fn what_is_not_synced_passes_and_nothing_is_invented() {
    for seed in 0..20 {
        let mut down: u16 = 0;
        for (_, raw, out) in trace(seed, 400, W, true) {
            assert_eq!(out & !AM, raw & !AM);
            down |= raw;
            assert_eq!(out & !down, 0, "a button that was never pressed");
        }
    }
}

#[test]
fn off_passes_everything() {
    for (_, raw, out) in trace(3, 200, W, false) {
        assert_eq!(raw, out);
    }
}

#[test]
fn every_press_reaches_the_output() {
    for seed in 0..20 {
        let tr = trace(seed, 600, W, true);
        for b in 0..8u16 {
            let bit: u16 = 1 << b;
            for i in 1..tr.len() {
                let rising = tr[i].1 & bit != 0 && tr[i - 1].1 & bit == 0;
                if rising && i + 20 < tr.len() {
                    let seen = tr[i..i + 20].iter().any(|s| s.2 & bit != 0);
                    assert!(seen, "press of bit {b} at tick {i} was deleted");
                }
            }
        }
    }
}

#[test]
fn a_press_is_late_by_at_most_the_window() {
    let mut w = SyncWindow::new();
    w.process(LP, AM, AM, 1_000, W, true);
    assert_eq!(w.pending_since(), Some(1_000));
    assert_eq!(w.pending_until(W), Some(6_000));
    assert_eq!(w.next_deadline_us(W), Some(6_000));
    assert_eq!(w.process(LP, AM, AM, 5_999, W, true), 0);
    assert_eq!(w.process(LP, AM, AM, 6_000, W, true), LP);
    assert_eq!(w.last_commit_delay_us(), W);
    // Nothing happens between here and the release.
    assert_eq!(w.next_deadline_us(W), None);
}

#[test]
fn a_release_lands_on_its_deadline() {
    let mut w = SyncWindow::new();
    w.process(LP, AM, AM, 0, W, true);
    w.process(LP | HP, AM, AM, 2_000, W, true);
    assert_eq!(w.last_commit_delay_us(), 2_000);
    // LP was 2 ms late, HP was not.
    assert_eq!(w.process(0, AM, AM, 10_000, W, true), LP);
    assert_eq!(w.next_deadline_us(W), Some(12_000));
    assert_eq!(w.process(0, AM, AM, 11_999, W, true), LP);
    assert_eq!(w.process(0, AM, AM, 12_000, W, true), 0);
}

#[test]
fn a_reset_window_owes_nothing() {
    let mut w = SyncWindow::new();
    w.process(LP, AM, AM, 0, W, true);
    w.reset();
    assert_eq!(w.next_deadline_us(W), None);
    assert_eq!(w.process(0, AM, AM, 10, W, true), 0);
    assert_eq!(SyncWindow::default().pending_since(), None);
}

#[test]
fn a_reset_window_answers_as_a_new_one() {
    let mut w = SyncWindow::new();
    w.process(0xFFFF, 0xF300, 0xF300, 7, 5_000, true);
    w.process(0x1000, 0xF300, 0xF300, 2_000, 5_000, true);
    w.reset();
    let mut n = SyncWindow::new();
    for (i, raw) in [0x1000u16, 0, 0x3000, 0x2000, 0].into_iter().enumerate() {
        let t = 1_000 * (i as u64 + 3);
        assert_eq!(
            w.process(raw, 0xF300, 0xF300, t, 5_000, true),
            n.process(raw, 0xF300, 0xF300, t, 5_000, true)
        );
        assert_eq!(w.pending_since(), n.pending_since());
        assert_eq!(w.pending_until(5_000), n.pending_until(5_000));
        assert_eq!(w.next_deadline_us(5_000), n.next_deadline_us(5_000));
        assert_eq!(w.last_commit_delay_us(), n.last_commit_delay_us());
    }
}

#[test]
fn a_pulse_keeps_its_width_from_the_press_on() {
    // Down from 2 ms to 11 ms: shown at 7 ms, and for nine milliseconds.
    let mut w = SyncWindow::new();
    let shown: Vec<u64> = (0..30u64)
        .filter(|&ms| {
            let raw = if (2..11).contains(&ms) { 0x1000 } else { 0 };
            w.process(raw, 0xF300, 0xF300, ms * 1_000, 5_000, true) & 0x1000 != 0
        })
        .collect();
    assert_eq!(shown, (7..16).collect::<Vec<u64>>());
}
