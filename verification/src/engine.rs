//! The decisions of the daemon's event loop.
//!
//! The loop itself waits on the kernel; what it does is decided here. Before each
//! wait it asks [`Engine::plan_wait`]; each report of the stick goes through
//! [`Engine::on_event`], and the deadline through [`Engine::on_deadline`]. Every
//! press is timed by the kernel's stamp, so that a late wakeup never widens or
//! narrows the window.

use crate::bits::{count_ones, ones};
use crate::pad::{PadState, ATTACK_MASK};
use crate::sync_window::{deadline, elapsed, passed, reported, step, SyncWindow, Tick, MAX_TIME_US};
use vstd::prelude::*;

verus! {

/// What can be set while the loop runs.
#[derive(Clone, Copy, Debug, PartialEq, Eq, Structural)]
pub struct Settings {
    pub attack_mask: u16,
    pub synced_mask: u16,
    /// How long before a deadline the loop stops blocking and spins; 0 never spins.
    pub spin_us: u64,
}

impl Default for Settings {
    fn default() -> (r: Self)
        ensures
            r == (Settings { attack_mask: ATTACK_MASK, synced_mask: ATTACK_MASK, spin_us: 200 }),
    {
        Settings { attack_mask: ATTACK_MASK, synced_mask: ATTACK_MASK, spin_us: 200 }
    }
}

/// Live counters. They wrap.
#[derive(Clone, Copy, Debug, PartialEq, Eq, Structural)]
pub struct Stats {
    pub commits: u64,
    pub groups: u64,
    pub singles: u64,
    /// How long a lead press waited for its partner.
    pub hold_sum_us: u64,
    pub hold_max_us: u64,
    pub hold_count: u64,
    /// The finger gap between the first and the last press of a group.
    pub gap_sum_us: u64,
    pub gap_max_us: u64,
    pub gap_count: u64,
    /// From the kernel's stamp to the submit's return: all that the daemon adds.
    pub pipeline_sum_us: u64,
    pub pipeline_max_us: u64,
    pub pipeline_count: u64,
    pub source_events: u64,
}

/// Counters at zero.
pub open spec fn zero_stats() -> Stats {
    Stats {
        commits: 0,
        groups: 0,
        singles: 0,
        hold_sum_us: 0,
        hold_max_us: 0,
        hold_count: 0,
        gap_sum_us: 0,
        gap_max_us: 0,
        gap_count: 0,
        pipeline_sum_us: 0,
        pipeline_max_us: 0,
        pipeline_count: 0,
        source_events: 0,
    }
}

impl Default for Stats {
    fn default() -> (r: Self)
        ensures
            r == zero_stats(),
    {
        Stats {
            commits: 0,
            groups: 0,
            singles: 0,
            hold_sum_us: 0,
            hold_max_us: 0,
            hold_count: 0,
            gap_sum_us: 0,
            gap_max_us: 0,
            gap_count: 0,
            pipeline_sum_us: 0,
            pipeline_max_us: 0,
            pipeline_count: 0,
            source_events: 0,
        }
    }
}

/// Follows press edges on the raw stream.
///
/// It runs before the window does: the press that completes a chord makes the
/// window commit and close in the same call, so that a gap measured off the
/// window afterwards would end at the press before.
#[derive(Clone, Copy, Debug, PartialEq, Eq, Structural)]
pub struct EdgeTracker {
    pub prev_raw: u16,
    /// When the press that opened the current group happened.
    pub open_us: u64,
    /// When the latest press of the current group happened.
    pub last_press_us: u64,
}

/// The tracker after one raw sample.
pub open spec fn observed(
    e: EdgeTracker,
    raw: u16,
    synced_mask: u16,
    t: u64,
    window_was_open: bool,
) -> EdgeTracker {
    if raw & !e.prev_raw & synced_mask == 0 {
        EdgeTracker { prev_raw: raw, ..e }
    } else {
        EdgeTracker {
            prev_raw: raw,
            open_us: if window_was_open {
                e.open_us
            } else {
                t
            },
            last_press_us: t,
        }
    }
}

impl Default for EdgeTracker {
    fn default() -> (r: Self)
        ensures
            r == (EdgeTracker { prev_raw: 0, open_us: 0, last_press_us: 0 }),
    {
        EdgeTracker { prev_raw: 0, open_us: 0, last_press_us: 0 }
    }
}

impl EdgeTracker {
    /// Take in one raw sample. `window_was_open` is whether a window was open
    /// before it.
    pub fn observe(&mut self, raw: u16, synced_mask: u16, t: u64, window_was_open: bool)
        ensures
            *final(self) == observed(*old(self), raw, synced_mask, t, window_was_open),
    {
        let pressed: u16 = raw & !self.prev_raw & synced_mask;
        self.prev_raw = raw;
        if pressed == 0 {
            return;
        }
        if !window_was_open {
            self.open_us = t;
        }
        self.last_press_us = t;
    }

    /// The time from the first to the latest press of the current group.
    pub fn gap_us(&self) -> (r: u64)
        ensures
            r == elapsed(self.open_us, self.last_press_us),
    {
        self.last_press_us.saturating_sub(self.open_us)
    }
}

/// The seconds and nanoseconds of a deadline; all zero without one.
pub open spec fn timer_of(deadline_us: Option<u64>) -> (u64, u64) {
    match deadline_us {
        None => (0, 0),
        Some(us) => {
            let at = if us < 1 {
                1
            } else {
                us
            };
            (at / 1_000_000, ((at % 1_000_000) * 1_000) as u64)
        },
    }
}

/// A timer's setting: whole seconds and nanoseconds. All zero disarms it, so a
/// deadline is never zero.
pub fn timer_spec(deadline_us: Option<u64>) -> (r: (u64, u64))
    ensures
        r == timer_of(deadline_us),
        deadline_us is None ==> r == (0u64, 0u64),
        deadline_us matches Some(us) ==> {
            let at = if us < 1 {
                1
            } else {
                us
            };
            &&& r.0 == at / 1_000_000
            &&& r.1 == (at % 1_000_000) * 1_000
            &&& r.1 < 1_000_000_000
            &&& r.0 * 1_000_000 + r.1 / 1_000 == at
            &&& r != (0u64, 0u64)
        },
{
    match deadline_us {
        None => (0, 0),
        Some(us) => {
            let at: u64 = if us < 1 {
                1
            } else {
                us
            };
            (at / 1_000_000, (at % 1_000_000) * 1_000)
        },
    }
}

/// Why the loop returned.
#[derive(Debug, PartialEq, Eq)]
pub enum Exit {
    /// It was asked to stop.
    Signal,
    /// The stick went away, and why.
    SourceLost(String),
}

/// How to wait for the next event.
#[derive(Clone, Copy, Debug, PartialEq, Eq, Structural)]
pub enum Wait {
    /// Do not block: the deadline is close.
    Spin,
    /// Block; the timer is right as it is.
    Block,
    /// Set the timer to this, then block.
    Arm(Option<u64>),
}

/// A change that was delivered, to be counted.
#[derive(Clone, Copy, Debug, PartialEq, Eq, Structural)]
pub struct Commit {
    pub grouped: u16,
    pub prev: u16,
    /// The stamp that caused it.
    pub event_us: u64,
    pub window_open_us: u64,
    pub gap_us: u64,
    pub window_closed: bool,
}

/// What to submit, and what to count if the submit succeeds.
#[derive(Clone, Copy, Debug, PartialEq, Eq, Structural)]
pub struct Delivery {
    pub out: PadState,
    pub commit: Option<Commit>,
}

/// The window setting in microseconds, at most 16 milliseconds.
pub open spec fn engine_window_us(window_ms: u32) -> u32 {
    if window_ms > 16 {
        16_000
    } else {
        (window_ms * 1_000) as u32
    }
}

/// The loop's state for one stick.
pub struct Engine {
    pub settings: Settings,
    pub stats: Stats,
    pub sync: SyncWindow,
    /// What the timer is set to.
    pub armed: Option<u64>,
    pub edges: EdgeTracker,
    pub window_open_us: u64,
    /// The word that was last submitted.
    pub prev_committed: u16,
}

/// The window's inputs for a reading of the stick.
pub open spec fn engine_tick(s: Settings, window_ms: u32, raw: u16, at_us: u64) -> Tick {
    Tick {
        raw,
        attack: s.attack_mask,
        synced: s.synced_mask,
        now_us: at_us,
        window_us: engine_window_us(window_ms),
    }
}

/// When the timer has to fire for a deadline: early enough to spin up to it.
pub open spec fn wake_at(d: Option<u64>, spin_us: u64) -> Option<u64> {
    match d {
        Some(d) => Some(
            if d <= spin_us + 1 {
                1
            } else {
                (d - spin_us) as u64
            },
        ),
        None => None,
    }
}

/// How to wait, given the deadline and what the timer is set to.
pub open spec fn wait_plan(d: Option<u64>, armed: Option<u64>, spin_us: u64, now_us: u64) -> Wait {
    if spin_us > 0 && (d matches Some(at) && elapsed(now_us, at) <= spin_us) {
        Wait::Spin
    } else if wake_at(d, spin_us) == armed {
        Wait::Block
    } else {
        Wait::Arm(wake_at(d, spin_us))
    }
}

/// The counters after a delivered change, `now_us` being when its submit
/// returned. Only new attacks count: a release is not a commit.
pub open spec fn counted_commit(s: Stats, attack_mask: u16, c: Commit, now_us: u64) -> Stats {
    let newly = c.grouped & !c.prev & attack_mask;
    if newly == 0 {
        s
    } else {
        let s1 = Stats { commits: s.commits.wrapping_add(1), ..s };
        let s2 = if ones(newly) >= 2 {
            Stats {
                groups: s1.groups.wrapping_add(1),
                gap_sum_us: s1.gap_sum_us.wrapping_add(c.gap_us),
                gap_max_us: if c.gap_us > s1.gap_max_us {
                    c.gap_us
                } else {
                    s1.gap_max_us
                },
                gap_count: s1.gap_count.wrapping_add(1),
                ..s1
            }
        } else {
            Stats { singles: s1.singles.wrapping_add(1), ..s1 }
        };
        let hold = elapsed(c.window_open_us, c.event_us);
        let s3 = if c.window_closed {
            Stats {
                hold_sum_us: s2.hold_sum_us.wrapping_add(hold),
                hold_max_us: if hold > s2.hold_max_us {
                    hold
                } else {
                    s2.hold_max_us
                },
                hold_count: s2.hold_count.wrapping_add(1),
                ..s2
            }
        } else {
            s2
        };
        let pipeline = elapsed(c.event_us, now_us);
        if pipeline < 1_000_000 {
            Stats {
                pipeline_sum_us: s3.pipeline_sum_us.wrapping_add(pipeline),
                pipeline_max_us: if pipeline > s3.pipeline_max_us {
                    pipeline
                } else {
                    s3.pipeline_max_us
                },
                pipeline_count: s3.pipeline_count.wrapping_add(1),
                ..s3
            }
        } else {
            s3
        }
    }
}

impl Engine {
    pub open spec fn wf(&self) -> bool {
        self.sync.wf()
    }

    /// A loop that has seen nothing.
    pub fn new(settings: Settings) -> (r: Self)
        ensures
            r.wf(),
            r.settings == settings,
            r.stats == zero_stats(),
            r.sync@ == passed(0),
            r.armed is None,
            r.edges == (EdgeTracker { prev_raw: 0, open_us: 0, last_press_us: 0 }),
            r.window_open_us == 0,
            r.prev_committed == 0,
    {
        Engine {
            settings,
            stats: Stats::default(),
            sync: SyncWindow::new(),
            armed: None,
            edges: EdgeTracker::default(),
            window_open_us: 0,
            prev_committed: 0,
        }
    }

    /// Start over with a stick. Settings and counters are kept.
    pub fn restart(&mut self)
        ensures
            final(self).wf(),
            final(self).settings == old(self).settings,
            final(self).stats == old(self).stats,
            final(self).sync@ == passed(0),
            final(self).armed is None,
            final(self).edges == (EdgeTracker { prev_raw: 0, open_us: 0, last_press_us: 0 }),
            final(self).window_open_us == 0,
            final(self).prev_committed == 0,
    {
        self.sync.reset();
        self.armed = None;
        self.edges = EdgeTracker::default();
        self.window_open_us = 0;
        self.prev_committed = 0;
    }

    /// The window in microseconds.
    fn window_us(window_ms: u32) -> (r: u32)
        ensures
            r == engine_window_us(window_ms),
    {
        if window_ms > 16 {
            16_000
        } else {
            window_ms * 1_000
        }
    }

    /// How to wait now.
    pub fn plan_wait(&self, window_ms: u32, now_us: u64) -> (r: Wait)
        requires
            self.wf(),
        ensures
            r == wait_plan(
                deadline(self.sync@, engine_window_us(window_ms)),
                self.armed,
                self.settings.spin_us,
                now_us,
            ),
    {
        let due: Option<u64> = self.sync.next_deadline_us(Self::window_us(window_ms));
        let spin: u64 = self.settings.spin_us;
        let want: Option<u64> = match due {
            Some(d) => {
                if spin > 0 && d.saturating_sub(now_us) <= spin {
                    return Wait::Spin;
                }
                let at: u64 = d.saturating_sub(spin);
                Some(
                    if at < 1 {
                        1
                    } else {
                        at
                    },
                )
            },
            None => None,
        };
        let same: bool = match (want, self.armed) {
            (None, None) => true,
            (Some(a), Some(b)) => a == b,
            _ => false,
        };
        if same {
            Wait::Block
        } else {
            Wait::Arm(want)
        }
    }

    /// The timer has been set.
    pub fn timer_set(&mut self, at: Option<u64>)
        requires
            old(self).wf(),
        ensures
            *final(self) == (Engine { armed: at, ..*old(self) }),
    {
        self.armed = at;
    }

    /// Whether to read the stick after a wait: it reported, or the loop spins.
    pub fn reads_source(spinning: bool, source_event: bool) -> (r: bool)
        ensures
            r == (spinning || source_event),
    {
        spinning || source_event
    }

    /// Whether to look at the deadline after a wait.
    pub fn visits_deadline(timer_fired: bool, spinning: bool, events: usize) -> (r: bool)
        ensures
            r == (timer_fired || spinning || events > 0),
    {
        timer_fired || spinning || events > 0
    }

    /// Take in one report of the stick. Everything but the buttons goes through
    /// as it is. A changed word is to be counted once it is submitted.
    pub fn on_event(
        &mut self,
        enabled: bool,
        window_ms: u32,
        st: PadState,
        event_us: u64,
    ) -> (r: Delivery)
        requires
            old(self).wf(),
            event_us <= MAX_TIME_US,
        ensures
            final(self).wf(),
            ({
                let t = engine_tick(old(self).settings, window_ms, st.buttons, event_us);
                let line = old(self).sync@;
                let grouped = reported(line, t, enabled);
                let edges = observed(
                    old(self).edges,
                    st.buttons,
                    old(self).settings.synced_mask,
                    event_us,
                    line.opened is Some,
                );
                &&& final(self).sync@ == step(line, t, enabled)
                &&& final(self).edges == edges
                &&& final(self).window_open_us == edges.open_us
                &&& final(self).prev_committed == grouped
                &&& final(self).armed == old(self).armed
                &&& final(self).settings == old(self).settings
                &&& final(self).stats == (Stats {
                    source_events: old(self).stats.source_events.wrapping_add(1),
                    ..old(self).stats
                })
                &&& r.out == (PadState { buttons: grouped, ..st })
                &&& r.commit == if grouped == old(self).prev_committed {
                    None
                } else {
                    Some(
                        Commit {
                            grouped,
                            prev: old(self).prev_committed,
                            event_us,
                            window_open_us: edges.open_us,
                            gap_us: elapsed(edges.open_us, edges.last_press_us),
                            window_closed: step(line, t, enabled).opened is None,
                        },
                    )
                }
            }),
    {
        self.stats.source_events = self.stats.source_events.wrapping_add(1);
        let was_open: bool = self.sync.pending_since().is_some();
        self.edges.observe(st.buttons, self.settings.synced_mask, event_us, was_open);
        self.window_open_us = self.edges.open_us;
        let grouped: u16 = self.sync.process(
            st.buttons,
            self.settings.attack_mask,
            self.settings.synced_mask,
            event_us,
            Self::window_us(window_ms),
            enabled,
        );
        let prev: u16 = self.prev_committed;
        let commit: Option<Commit> = if grouped != prev {
            Some(
                Commit {
                    grouped,
                    prev,
                    event_us,
                    window_open_us: self.window_open_us,
                    gap_us: self.edges.gap_us(),
                    window_closed: self.sync.pending_since().is_none(),
                },
            )
        } else {
            None
        };
        self.prev_committed = grouped;
        Delivery { out: st.with_buttons(grouped), commit }
    }

    /// Look at the deadline: where it has passed, run the window on the stick's
    /// current state. A change is credited to the deadline, not to the wakeup.
    pub fn on_deadline(
        &mut self,
        enabled: bool,
        window_ms: u32,
        st: PadState,
        now_us: u64,
    ) -> (r: Option<Delivery>)
        requires
            old(self).wf(),
            now_us <= MAX_TIME_US,
        ensures
            final(self).wf(),
            ({
                let line = old(self).sync@;
                let due = deadline(line, engine_window_us(window_ms));
                let t = engine_tick(old(self).settings, window_ms, st.buttons, now_us);
                let grouped = reported(line, t, enabled);
                &&& final(self).settings == old(self).settings
                &&& final(self).stats == old(self).stats
                &&& final(self).edges == old(self).edges
                &&& final(self).window_open_us == old(self).window_open_us
                &&& (due matches Some(d) && now_us >= d) ==> {
                    &&& final(self).sync@ == step(line, t, enabled)
                    &&& final(self).armed is None
                    &&& final(self).prev_committed == grouped
                    &&& r == if grouped == old(self).prev_committed {
                        None
                    } else {
                        Some(
                            Delivery {
                                out: PadState { buttons: grouped, ..st },
                                commit: Some(
                                    Commit {
                                        grouped,
                                        prev: old(self).prev_committed,
                                        event_us: due->0,
                                        window_open_us: old(self).window_open_us,
                                        gap_us: elapsed(
                                            old(self).edges.open_us,
                                            old(self).edges.last_press_us,
                                        ),
                                        window_closed: true,
                                    },
                                ),
                            },
                        )
                    }
                }
                &&& !(due matches Some(d) && now_us >= d) ==> {
                    &&& r is None
                    &&& *final(self) == *old(self)
                }
            }),
    {
        let window_us: u32 = Self::window_us(window_ms);
        let d: u64 = match self.sync.next_deadline_us(window_us) {
            Some(d) => d,
            None => {
                return None;
            },
        };
        if now_us < d {
            return None;
        }
        let grouped: u16 = self.sync.process(
            st.buttons,
            self.settings.attack_mask,
            self.settings.synced_mask,
            now_us,
            window_us,
            enabled,
        );
        let prev: u16 = self.prev_committed;
        self.armed = None;
        self.prev_committed = grouped;
        if grouped == prev {
            return None;
        }
        Some(
            Delivery {
                out: st.with_buttons(grouped),
                commit: Some(
                    Commit {
                        grouped,
                        prev,
                        event_us: d,
                        window_open_us: self.window_open_us,
                        gap_us: self.edges.gap_us(),
                        window_closed: true,
                    },
                ),
            },
        )
    }

    /// Count a delivered change.
    pub fn record_commit(&mut self, c: Commit, now_us: u64)
        requires
            old(self).wf(),
        ensures
            *final(self) == (Engine {
                stats: counted_commit(
                    old(self).stats,
                    old(self).settings.attack_mask,
                    c,
                    now_us,
                ),
                ..*old(self)
            }),
    {
        let newly: u16 = c.grouped & !c.prev & self.settings.attack_mask;
        if newly == 0 {
            return;
        }
        let mut s: Stats = self.stats;
        s.commits = s.commits.wrapping_add(1);
        if count_ones(newly) >= 2 {
            s.groups = s.groups.wrapping_add(1);
            s.gap_sum_us = s.gap_sum_us.wrapping_add(c.gap_us);
            if c.gap_us > s.gap_max_us {
                s.gap_max_us = c.gap_us;
            }
            s.gap_count = s.gap_count.wrapping_add(1);
        } else {
            s.singles = s.singles.wrapping_add(1);
        }
        if c.window_closed {
            let hold: u64 = c.event_us.saturating_sub(c.window_open_us);
            s.hold_sum_us = s.hold_sum_us.wrapping_add(hold);
            if hold > s.hold_max_us {
                s.hold_max_us = hold;
            }
            s.hold_count = s.hold_count.wrapping_add(1);
        }
        let pipeline: u64 = now_us.saturating_sub(c.event_us);
        if pipeline < 1_000_000 {
            s.pipeline_sum_us = s.pipeline_sum_us.wrapping_add(pipeline);
            if pipeline > s.pipeline_max_us {
                s.pipeline_max_us = pipeline;
            }
            s.pipeline_count = s.pipeline_count.wrapping_add(1);
        }
        self.stats = s;
    }
}

/// A chord's gap reaches to the press that completes it: the press that joins an
/// open window extends the group, and one that finds no window starts a new one.
pub proof fn law_gap_includes_the_closing_press(
    e: EdgeTracker,
    raw: u16,
    synced_mask: u16,
    t: u64,
    window_was_open: bool,
)
    requires
        raw & !e.prev_raw & synced_mask != 0,
        window_was_open ==> e.open_us <= t,
    ensures
        ({
            let n = observed(e, raw, synced_mask, t, window_was_open);
            window_was_open ==> elapsed(n.open_us, n.last_press_us) == t - e.open_us
        }),
        !window_was_open ==> elapsed(
            observed(e, raw, synced_mask, t, window_was_open).open_us,
            observed(e, raw, synced_mask, t, window_was_open).last_press_us,
        ) == 0,
{
}

/// The loop never sleeps through a deadline: unless it spins, the timer it leaves
/// set fires no later than the deadline, and only an idle window leaves it unset.
pub proof fn law_timer_covers_the_deadline(
    d: Option<u64>,
    armed: Option<u64>,
    spin_us: u64,
    now_us: u64,
)
    requires
        d matches Some(at) ==> at >= 1,
        !(wait_plan(d, armed, spin_us, now_us) is Spin),
    ensures
        ({
            let timer = match wait_plan(d, armed, spin_us, now_us) {
                Wait::Arm(t) => t,
                _ => armed,
            };
            &&& timer is None <==> d is None
            &&& timer matches Some(t) ==> 1 <= t <= d->0
        }),
{
}

/// A timer's seconds and nanoseconds are its deadline, to the microsecond; only a timer
/// without a deadline is disarmed.
pub proof fn law_a_timer_is_its_deadline(us: u64)
    ensures
        ({
            let (sec, nsec) = timer_of(Some(us));
            &&& us >= 1 ==> sec * 1_000_000_000 + nsec == us * 1_000
            &&& us == 0 ==> sec * 1_000_000_000 + nsec == 1_000
            &&& 0 <= nsec < 1_000_000_000
        }),
        timer_of(None) == (0u64, 0u64),
{
}

/// The window of the loop is the setting in microseconds, and at most 16 milliseconds; a
/// setting of 0 groups nothing.
pub proof fn law_the_loop_window_is_at_most_sixteen(window_ms: u32)
    ensures
        window_ms <= 16 ==> engine_window_us(window_ms) == 1_000 * window_ms,
        window_ms >= 16 ==> engine_window_us(window_ms) == 16_000,
{
}

/// The loop spins exactly within the spin time before a deadline, and from the deadline on; it
/// never spins without a deadline or with a spin time of nothing. Otherwise its timer fires
/// just that spin time before the deadline.
pub proof fn law_the_loop_spins_close_to_the_deadline(
    at: u64,
    armed: Option<u64>,
    spin_us: u64,
    now_us: u64,
)
    ensures
        wait_plan(Some(at), armed, spin_us, now_us) is Spin <==> spin_us > 0 && at <= now_us
            + spin_us,
        !(wait_plan(None, armed, spin_us, now_us) is Spin),
        wait_plan(None, None, spin_us, now_us) is Block,
        at > spin_us ==> wake_at(Some(at), spin_us)->0 + spin_us == at || (at == spin_us + 1
            && wake_at(Some(at), spin_us) == Some(1u64)),
        at <= spin_us ==> wake_at(Some(at), spin_us) == Some(1u64),
        wake_at(None, spin_us) is None,
{
}

/// A commit with new attacks counts once, as a group where there are two or more and as a
/// single otherwise; a group counts its gap and a window that closed its hold, from the press
/// that opened it. The time from the stamp to the submit counts unless it is a second or more.
/// A commit without new attacks, such as a release, counts nothing.
pub proof fn law_what_a_commit_counts(s: Stats, attack_mask: u16, c: Commit, now_us: u64)
    requires
        s.commits < u64::MAX && s.groups < u64::MAX && s.singles < u64::MAX,
        s.gap_count < u64::MAX && s.hold_count < u64::MAX && s.pipeline_count < u64::MAX,
        c.window_open_us <= c.event_us <= now_us,
        s.gap_sum_us + c.gap_us <= u64::MAX,
        s.hold_sum_us + c.event_us <= u64::MAX,
        s.pipeline_sum_us + now_us <= u64::MAX,
    ensures
        ({
            let n = counted_commit(s, attack_mask, c, now_us);
            let newly = c.grouped & !c.prev & attack_mask;
            let some = exists|i: int| 0 <= i < 16 && #[trigger] crate::bits::bit(newly, i);
            let group = ones(newly) >= 2;
            let quick = now_us - c.event_us < 1_000_000;
            &&& !some ==> n == s
            &&& n.source_events == s.source_events
            &&& some ==> {
                &&& n.commits == s.commits + 1
                &&& group ==> n.groups == s.groups + 1 && n.singles == s.singles
                &&& !group ==> n.singles == s.singles + 1 && n.groups == s.groups
                &&& group ==> n.gap_count == s.gap_count + 1 && n.gap_sum_us == s.gap_sum_us
                    + c.gap_us && n.gap_max_us >= c.gap_us
                &&& !group ==> n.gap_count == s.gap_count && n.gap_sum_us == s.gap_sum_us
                &&& c.window_closed ==> n.hold_count == s.hold_count + 1 && n.hold_sum_us
                    == s.hold_sum_us + (c.event_us - c.window_open_us) && n.hold_max_us >= c.event_us
                    - c.window_open_us
                &&& !c.window_closed ==> n.hold_count == s.hold_count && n.hold_sum_us
                    == s.hold_sum_us
                &&& quick ==> n.pipeline_count == s.pipeline_count + 1 && n.pipeline_sum_us
                    == s.pipeline_sum_us + (now_us - c.event_us) && n.pipeline_max_us >= now_us
                    - c.event_us
                &&& !quick ==> n.pipeline_count == s.pipeline_count && n.pipeline_sum_us
                    == s.pipeline_sum_us
            }
        }),
{
    let newly = c.grouped & !c.prev & attack_mask;
    crate::bits::lemma_zero_word(newly);
}

/// The gap of a group is the time from the press that opened the window to the latest: a
/// press with no window open starts it anew, one with a window open moves its end, and a
/// sample without a synced press moves nothing.
pub proof fn law_the_gap_runs_from_first_to_latest(
    e: EdgeTracker,
    first: u16,
    second: u16,
    third: u16,
    synced_mask: u16,
    t1: u64,
    t2: u64,
    t3: u64,
)
    requires
        first & !e.prev_raw & synced_mask != 0,
        second & !first & synced_mask != 0,
        third & !second & synced_mask == 0,
        t1 <= t2,
    ensures
        ({
            let e1 = observed(e, first, synced_mask, t1, false);
            let e2 = observed(e1, second, synced_mask, t2, true);
            let e3 = observed(e2, third, synced_mask, t3, true);
            &&& elapsed(e1.open_us, e1.last_press_us) == 0
            &&& elapsed(e2.open_us, e2.last_press_us) == t2 - t1
            &&& elapsed(e3.open_us, e3.last_press_us) == t2 - t1
            &&& e3.prev_raw == third
        }),
{
}

} // verus!
