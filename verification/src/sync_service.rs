//! The sync service: which pad it presents, which slot is its own, which is the
//! player's, and what one round of it does.

use crate::controller::PadMode;
use crate::hid::HidDeviceId;
use crate::pad::{neutral, PadState};
use crate::ranks::{ascending, sort_ascending, sum_of, total};
use crate::state::{same_settings, SharedState};
use crate::sync_window::{passed, reported, step, SyncWindow, Tick, MAX_TIME_US};
use crate::telemetry::{
    closed_group, commit_counted, finished_chord, group_gap, pressed_group, raw_counted,
    rising_attacks, SyncStatus, SyncTelemetry, NO_SLOT, XINPUT_ATTACK_MASK,
};
use vstd::prelude::*;

verus! {

/// The pad that the service presents.
#[derive(Clone, Copy, Debug, PartialEq, Eq, Structural)]
pub enum PadType {
    /// A plain gamepad under its own name.
    Hid,
    /// An XInput pad.
    Xinput,
}

impl PadType {
    /// The pad of a stored number: 1 is the plain gamepad, every other is the XInput
    /// pad, which works in the most games.
    pub fn from_u32(n: u32) -> (r: Self)
        ensures
            r == pad_of(n),
    {
        if n == 1 {
            PadType::Hid
        } else {
            PadType::Xinput
        }
    }

    /// The number to store.
    pub fn as_u32(self) -> (r: u32)
        ensures
            r == number_of(self),
    {
        match self {
            PadType::Hid => 1,
            PadType::Xinput => 0,
        }
    }

    /// The mode of the virtual controller.
    pub fn mode(self) -> (r: PadMode)
        ensures
            r == mode_of(self),
    {
        match self {
            PadType::Hid => PadMode::Hid,
            PadType::Xinput => PadMode::Xinput,
        }
    }
}

/// The pad of a stored number.
pub open spec fn pad_of(n: u32) -> PadType {
    if n == 1 {
        PadType::Hid
    } else {
        PadType::Xinput
    }
}

/// The number of a pad.
pub open spec fn number_of(p: PadType) -> u32 {
    match p {
        PadType::Hid => 1,
        PadType::Xinput => 0,
    }
}

/// The mode of a pad.
pub open spec fn mode_of(p: PadType) -> PadMode {
    match p {
        PadType::Hid => PadMode::Hid,
        PadType::Xinput => PadMode::Xinput,
    }
}

/// A stored pad is read back as it was.
pub proof fn law_pad_is_kept(p: PadType)
    ensures
        pad_of(number_of(p)) == p,
{
}

/// Where the service reads the player's controller.
pub enum SyncSource {
    /// XInput, slots 0 to 3.
    XInput,
    /// A HID stick.
    Hid(HidDeviceId),
    /// The stick's bulk stream.
    Bulk,
}

/// No service has run yet.
pub const NO_PAD: u32 = u32::MAX;

/// The mode of the pad that last ran, if one did.
pub open spec fn to_release(last: u32) -> Option<PadMode> {
    if last == NO_PAD {
        None
    } else {
        Some(mode_of(pad_of(last)))
    }
}

/// The controller to bring to neutral when the program ends, given the number of the
/// pad that last ran: none where none ever did. The device outlives the program and
/// would go on holding what it held.
pub fn release_pad(last: u32) -> (r: Option<PadMode>)
    ensures
        r == to_release(last),
{
    if last == NO_PAD {
        None
    } else {
        Some(PadType::from_u32(last).mode())
    }
}

// ---- which slot is ours ---------------------------------------------------------
/// Buttons that nobody holds by chance: both shoulders, Back and Start.
pub const MARKER: u16 = 0x0330;

/// The marker is shown this many times, ten milliseconds each.
pub const MARKER_TRIES: u32 = 200;

/// The first of the four slots that shows the marker, by the words they report.
pub open spec fn marked(words: Seq<Option<u16>>) -> Option<u32> {
    if words[0] == Some(MARKER) {
        Some(0)
    } else if words[1] == Some(MARKER) {
        Some(1)
    } else if words[2] == Some(MARKER) {
        Some(2)
    } else if words[3] == Some(MARKER) {
        Some(3)
    } else {
        None
    }
}

/// The search for the slot of our own output. XInput names no devices, so the service
/// holds a marker on its pad and looks which slot shows it.
#[derive(Clone, Copy, Debug, PartialEq, Eq, Structural)]
pub struct Fingerprint {
    pub prev: Option<u32>,
    pub tries: u32,
}

/// What the search has come to.
#[derive(Clone, Copy, Debug, PartialEq, Eq, Structural)]
pub enum Search {
    /// This slot is ours.
    Found(u32),
    /// Show the marker once more.
    Again,
    /// It shows nowhere.
    GivenUp,
}

/// The search after one look, and what it has come to.
pub open spec fn looked(f: Fingerprint, words: Seq<Option<u16>>) -> (Fingerprint, Search) {
    (
        Fingerprint { prev: marked(words), tries: (f.tries + 1) as u32 },
        if marked(words) is Some && marked(words) == f.prev {
            Search::Found(marked(words)->0)
        } else if f.tries + 1 < MARKER_TRIES {
            Search::Again
        } else {
            Search::GivenUp
        },
    )
}

fn is_marker(word: Option<u16>) -> (r: bool)
    ensures
        r == (word == Some(MARKER)),
{
    match word {
        Some(w) => w == MARKER,
        None => false,
    }
}

impl Fingerprint {
    pub fn new() -> (r: Self)
        ensures
            r == (Fingerprint { prev: None, tries: 0 }),
    {
        Fingerprint { prev: None, tries: 0 }
    }

    /// Take the words that the four slots report while the marker is held, `None` for
    /// an empty one. The same slot must show it twice in a row: a pad that happens to
    /// hold those buttons for a moment is not ours.
    pub fn look(&mut self, words: [Option<u16>; 4]) -> (r: Search)
        requires
            old(self).tries < MARKER_TRIES,
        ensures
            (*final(self), r) == looked(*old(self), words@),
    {
        let hit: Option<u32> = if is_marker(words[0]) {
            Some(0)
        } else if is_marker(words[1]) {
            Some(1)
        } else if is_marker(words[2]) {
            Some(2)
        } else if is_marker(words[3]) {
            Some(3)
        } else {
            None
        };
        let same = match (hit, self.prev) {
            (Some(a), Some(b)) => a == b,
            _ => false,
        };
        self.prev = hit;
        self.tries = self.tries + 1;
        match hit {
            Some(slot) => if same {
                return Search::Found(slot);
            },
            None => {},
        }
        if self.tries < MARKER_TRIES {
            Search::Again
        } else {
            Search::GivenUp
        }
    }
}

/// The slot that is found showed the marker in two looks in a row.
pub proof fn law_found_twice(f: Fingerprint, first: Seq<Option<u16>>, second: Seq<Option<u16>>)
    requires
        first.len() == 4,
        second.len() == 4,
        f.tries + 1 < MARKER_TRIES,
    ensures
        looked(looked(f, first).0, second).1 matches Search::Found(slot) ==> slot < 4
            && first[slot as int] == Some(MARKER) && second[slot as int] == Some(MARKER),
{
}

/// The first present slot that is not our own.
pub open spec fn players_slot(companion: Option<u32>, present: Seq<bool>) -> Option<u32> {
    if present[0] && companion != Some(0u32) {
        Some(0)
    } else if present[1] && companion != Some(1u32) {
        Some(1)
    } else if present[2] && companion != Some(2u32) {
        Some(2)
    } else if present[3] && companion != Some(3u32) {
        Some(3)
    } else {
        None
    }
}

fn is_ours(companion: Option<u32>, slot: u32) -> (r: bool)
    ensures
        r == (companion == Some(slot)),
{
    match companion {
        Some(c) => c == slot,
        None => false,
    }
}

/// The player's slot: the first present one that is not our own. The status is told.
pub fn find_real_slot(companion: Option<u32>, present: [bool; 4], status: &mut SyncStatus) -> (r:
    Option<u32>)
    ensures
        r == players_slot(companion, present@),
        *final(status) == (SyncStatus {
            real_slot: match r {
                Some(s) => s,
                None => NO_SLOT,
            },
            real_present: r is Some,
            ..*old(status)
        }),
{
    let r: Option<u32> = if present[0] && !is_ours(companion, 0) {
        Some(0)
    } else if present[1] && !is_ours(companion, 1) {
        Some(1)
    } else if present[2] && !is_ours(companion, 2) {
        Some(2)
    } else if present[3] && !is_ours(companion, 3) {
        Some(3)
    } else {
        None
    };
    match r {
        Some(s) => {
            status.real_slot = s;
            status.real_present = true;
        },
        None => {
            status.real_slot = NO_SLOT;
            status.real_present = false;
        },
    }
    r
}

/// The service never reads its own output.
pub proof fn law_own_slot_is_never_read(companion: Option<u32>, present: Seq<bool>)
    ensures
        players_slot(companion, present) matches Some(s) ==> companion != Some(s),
{
}

/// A status with what the latency samples come to.
pub open spec fn with_latency(s: SyncStatus, samples: Seq<u64>) -> SyncStatus {
    if samples.len() == 0 {
        s
    } else {
        SyncStatus {
            lat_min: ascending(samples)[0] as u32,
            lat_avg: (total(samples) / samples.len()) as u64 as u32,
            lat_max: ascending(samples).last() as u32,
            ..s
        }
    }
}

/// What the latency samples come to: the least, the mean and the most.
pub fn latency_summary(samples: &Vec<u64>, status: &mut SyncStatus)
    requires
        total(samples@) <= u64::MAX,
    ensures
        *final(status) == with_latency(*old(status), samples@),
{
    let n: usize = samples.len();
    if n == 0 {
        return ;
    }
    let sorted: Vec<u64> = sort_ascending(samples);
    let sum: u64 = sum_of(samples);
    status.lat_min = sorted[0] as u32;
    status.lat_avg = (sum / n as u64) as u32;
    status.lat_max = sorted[n - 1] as u32;
}

// ---- one round ------------------------------------------------------------------
/// The window and the measurements of a running service.
pub struct SyncLoop {
    pub sync: SyncWindow,
    pub telemetry: SyncTelemetry,
}

/// The window of the first player in microseconds, between 1 and 16 ms.
pub open spec fn window_us_of(s: SharedState) -> u32 {
    let ms = s.window_ms@[0];
    if ms < 1 {
        1000
    } else if ms > 16 {
        16_000
    } else {
        (ms * 1000) as u32
    }
}

/// What the window is told in one round.
pub open spec fn round(s: SharedState, pad: PadState, now_us: u64) -> Tick {
    Tick {
        raw: pad.buttons,
        attack: XINPUT_ATTACK_MASK,
        synced: XINPUT_ATTACK_MASK,
        now_us,
        window_us: window_us_of(s),
    }
}

impl SyncLoop {
    pub open spec fn wf(&self) -> bool {
        self.sync.wf()
    }

    /// Start: the counters go to zero, and the status says that the service runs.
    pub fn start(s: &mut SharedState, status: &mut SyncStatus) -> (r: Self)
        ensures
            r.wf(),
            r.sync@ == passed(0),
            r.telemetry.prev_raw == 0 && r.telemetry.prev_out == 0 && !r.telemetry.group.open,
            same_settings(*old(s), *final(s)),
            final(s).players@ == seq![crate::state::no_stats(), crate::state::no_stats()],
            *final(status) == (SyncStatus { active: true, error: 0, ..*old(status) }),
    {
        status.active = true;
        status.error = 0;
        SyncLoop { sync: SyncWindow::new(), telemetry: SyncTelemetry::new(s) }
    }

    /// One round with a reading of the player's pad: the state to submit, and the
    /// spread of a chord that was just committed, for the caller to weigh against a
    /// frame. Only the buttons go through the window.
    pub fn tick(
        &mut self,
        s: &mut SharedState,
        status: &mut SyncStatus,
        pad: PadState,
        present: bool,
        now_us: u64,
    ) -> (r: (PadState, Option<u64>))
        requires
            old(self).wf(),
            now_us <= MAX_TIME_US,
        ensures
            final(self).wf(),
            final(self).sync@ == step(
                old(self).sync@,
                round(*old(s), pad, now_us),
                old(s).enabled != 0,
            ),
            r.0 == (PadState {
                buttons: reported(
                    old(self).sync@,
                    round(*old(s), pad, now_us),
                    old(s).enabled != 0,
                ),
                ..pad
            }),
            final(self).telemetry.prev_raw == pad.buttons,
            final(self).telemetry.prev_out == r.0.buttons,
            final(self).telemetry.group == pressed_group(
                closed_group(
                    old(self).telemetry.group,
                    pad.buttons & XINPUT_ATTACK_MASK,
                    now_us,
                ),
                rising_attacks(old(self).telemetry.prev_raw, pad.buttons),
                now_us,
            ),
            *final(status) == (SyncStatus {
                real_present: present,
                window_open: final(self).sync@.opened is Some,
                ..*old(status)
            }),
            r.1 == (if crate::bits::ones(
                rising_attacks(old(self).telemetry.prev_out, r.0.buttons),
            ) >= 2 {
                Some(group_gap(final(self).telemetry.group))
            } else {
                None
            }),
            crate::state::player_becomes(
                *old(s),
                *final(s),
                0,
                commit_counted(
                    raw_counted(
                        crate::state::player(*old(s), 0),
                        finished_chord(
                            old(self).telemetry.group,
                            pad.buttons & XINPUT_ATTACK_MASK,
                            now_us,
                        ),
                    ),
                    rising_attacks(old(self).telemetry.prev_out, r.0.buttons),
                    group_gap(final(self).telemetry.group),
                    final(self).sync@.last_delay,
                ),
            ),
    {
        let ms: u32 = s.window_ms[0];
        let window_us: u32 = if ms < 1 {
            1000
        } else if ms > 16 {
            16_000
        } else {
            ms * 1000
        };
        let enabled = s.enabled != 0;
        status.real_present = present;
        let out: u16 = self.sync.process(
            pad.buttons,
            XINPUT_ATTACK_MASK,
            XINPUT_ATTACK_MASK,
            now_us,
            window_us,
            enabled,
        );
        let gap: Option<u64> = self.telemetry.observe(
            s,
            pad.buttons,
            out,
            now_us,
            self.sync.pending_since().is_some(),
            self.sync.last_commit_delay_us(),
            status,
        );
        (pad.with_buttons(out), gap)
    }

    /// One round in which the player's pad is away: nothing is submitted.
    pub fn away(status: &mut SyncStatus)
        ensures
            *final(status) == (SyncStatus { real_present: false, ..*old(status) }),
    {
        status.real_present = false;
    }

    /// End: the state to submit last, which holds nothing.
    pub fn finish(status: &mut SyncStatus) -> (r: PadState)
        ensures
            r == neutral(),
            *final(status) == (SyncStatus { active: false, bulk_rate_hz: 0, ..*old(status) }),
    {
        status.active = false;
        status.bulk_rate_hz = 0;
        PadState::default()
    }
}

/// The pad to bring to neutral is the one that last ran, and there is none where none did.
pub proof fn law_the_last_pad_is_released(p: PadType)
    ensures
        to_release(number_of(p)) == Some(mode_of(p)),
        to_release(0xFFFF_FFFF) is None,
        mode_of(p) == (match p {
            PadType::Hid => PadMode::Hid,
            PadType::Xinput => PadMode::Xinput,
        }),
{
}

/// The latency told is that of the samples: the least and the most of them, and a mean that
/// lies between.
pub proof fn law_the_latency_describes_its_samples(s: SyncStatus, samples: Seq<u64>)
    requires
        samples.len() > 0,
        forall|i: int| 0 <= i < samples.len() ==> #[trigger] samples[i] <= u32::MAX,
    ensures
        ({
            let n = with_latency(s, samples);
            &&& n.lat_min <= n.lat_avg <= n.lat_max
            &&& samples.contains(n.lat_min as u64) && samples.contains(n.lat_max as u64)
            &&& forall|i: int|
                0 <= i < samples.len() ==> n.lat_min <= #[trigger] samples[i] <= n.lat_max
            &&& n.lat_avg * samples.len() <= total(samples) < (n.lat_avg + 1) * samples.len()
            &&& n.active == s.active && n.error == s.error && n.real_slot == s.real_slot
        }),
{
    let n = samples.len() as int;
    let r = ascending(samples);
    crate::ranks::law_ascending_is_a_sorted_rearrangement(samples);
    crate::ranks::law_rank_counts(samples, 0);
    crate::ranks::law_rank_counts(samples, n - 1);
    let (lo, hi) = (r[0], r[n - 1]);
    assert(r.last() == hi);
    let i = choose|i: int| 0 <= i < samples.len() && samples[i] == lo;
    let j = choose|j: int| 0 <= j < samples.len() && samples[j] == hi;
    assert(samples[i] <= u32::MAX && samples[j] <= u32::MAX);
    assert forall|k: int| 0 <= k < samples.len() implies lo <= #[trigger] samples[k] <= hi by {
        crate::probe::lemma_above_each(samples, hi as int, k);
        crate::probe::lemma_above_at_most_all(samples, lo - 1);
        crate::probe::lemma_above_all(samples, lo - 1, k);
    }
    crate::stats::law_mean_lies_among_the_gaps(samples, lo, hi);
}

/// The player's slot is the first that is there and not our own; there is none exactly where
/// no other is there.
pub proof fn law_the_players_slot_is_the_first(companion: Option<u32>, present: Seq<bool>, k: u32)
    requires
        present.len() == 4,
        k < 4,
        present[k as int],
        companion != Some(k),
    ensures
        players_slot(companion, present) is Some,
        players_slot(companion, present)->0 <= k,
        present[players_slot(companion, present)->0 as int],
{
}

/// A slot that shows the marker in two looks in a row, with no slot before it showing it, is
/// found; one that shows it once is looked at again.
pub proof fn law_a_slot_that_shows_the_marker_is_found(
    f: Fingerprint,
    first: Seq<Option<u16>>,
    second: Seq<Option<u16>>,
    k: u32,
)
    requires
        first.len() == 4 && second.len() == 4,
        k < 4,
        first[k as int] == Some(0x0330u16) && second[k as int] == Some(0x0330u16),
        forall|j: int|
            0 <= j < k ==> #[trigger] first[j] != Some(0x0330u16) && second[j] != Some(0x0330u16),
        f.prev is None,
        f.tries + 1 < 200,
    ensures
        looked(f, first).1 is Again,
        looked(looked(f, first).0, second).1 == Search::Found(k),
{
}

/// The window of a round is the first player's setting, kept within 1 and 16 milliseconds.
pub proof fn law_the_round_window_stays_in_bounds(s: SharedState)
    ensures
        1_000 <= window_us_of(s) <= 16_000,
        1 <= s.window_ms@[0] <= 16 ==> window_us_of(s) == 1_000 * s.window_ms@[0],
        s.window_ms@[0] == 0 ==> window_us_of(s) == 1_000,
        s.window_ms@[0] >= 16 ==> window_us_of(s) == 16_000,
{
}

} // verus!
