//! The in-game latch: a press waits for a partner, a release does not.

use nobd::game_window::{SyncWindow, ATTACK_MASK, SYNC_WINDOW_MS};
use nobd::state::SharedState;

const LP: u16 = 1 << 2; // button 2 = A = LP
const HP: u16 = 1 << 0; // button 0 = Y = HP
const AM: u16 = ATTACK_MASK;

/// A latch with the published settings and a clock of its own.
struct Bench {
    state: SharedState,
    window: SyncWindow,
    now_us: u64,
}

impl Bench {
    fn new() -> Bench {
        Bench { state: SharedState::new(), window: SyncWindow::default(), now_us: 1_000 }
    }

    fn process(&mut self, raw: u16) -> u16 {
        self.now_us += 10;
        self.window.process(&mut self.state, raw, AM, self.now_us)
    }

    fn settle(&mut self) {
        self.now_us += (SYNC_WINDOW_MS as u64 + 2) * 1000;
    }
}

#[test]
fn solo_attack_delayed_then_committed() {
    let mut w = Bench::new();
    assert_eq!(w.process(LP), 0); // rising edge held
    w.settle();
    assert_eq!(w.process(LP), LP); // window expired, committed
}

#[test]
fn two_attacks_grouped() {
    let mut w = Bench::new();
    assert_eq!(w.process(LP), 0); // lone LP held, waiting for a partner
    assert_eq!(w.process(LP | HP), LP | HP); // the partner commits both at once
}

#[test]
fn simultaneous_pair_immediate() {
    let mut w = Bench::new();
    assert_eq!(w.process(LP | HP), LP | HP); // both in one read: already grouped
}

#[test]
fn early_released_press_is_dropped() {
    let mut w = Bench::new();
    assert_eq!(w.process(LP), 0); // LP edge held
    assert_eq!(w.process(HP), 0); // LP released, HP edge held
    w.settle();
    assert_eq!(w.process(HP), HP); // LP dropped, HP committed
}

#[test]
fn held_button_passes_through_after_commit() {
    let mut w = Bench::new();
    assert_eq!(w.process(LP), 0);
    w.settle();
    assert_eq!(w.process(LP), LP); // committed
    assert_eq!(w.process(LP), LP); // still held
    assert_eq!(w.process(0), 0); // released at once
}

#[test]
fn directions_bypass_by_default() {
    let dirs: u16 = (1 << 8) | (1 << 9);
    let mut w = Bench::new();
    assert_eq!(w.process(LP | dirs), dirs); // directions at once, LP held
    assert_eq!(w.process(LP | dirs), dirs); // still within the window
    w.settle();
    assert_eq!(w.process(LP | dirs), LP | dirs); // LP now committed
}
