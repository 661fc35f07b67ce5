//! What the main window is about: which stick feeds it, what state it shows, and
//! what its buttons do.
//!
//! Times are milliseconds of one clock.

use crate::hid::{HidDeviceId, HidDeviceInfo};
use crate::state::{no_stats, PlayerStats, SharedState};
use crate::sync_service::SyncSource;
use crate::sync_window::elapsed;
use crate::text::{chars_of, decimal, put, put_number, same_text, string_of};
use vstd::prelude::*;
use vstd::string::StringExecFns;

verus! {

/// The vendor of our own virtual pad.
pub const OUR_VID: u16 = 0x1209;

/// The vendor of Xbox pads, which XInput reads.
pub const XBOX_VID: u16 = 0x045E;

/// Which reader feeds the tester.
#[derive(Clone, Copy, Debug, PartialEq, Eq, Structural)]
pub enum SourceKind {
    XInput,
    Hid,
}

/// The first device with a path.
pub open spec fn is_device_at(devices: Seq<HidDeviceInfo>, path: Seq<char>, r: Option<usize>) -> bool {
    match r {
        Some(k) => k < devices.len() && devices[k as int].id.path@ == path && forall|i: int|
            0 <= i < k ==> (#[trigger] devices[i]).id.path@ != path,
        None => forall|i: int| 0 <= i < devices.len() ==> (#[trigger] devices[i]).id.path@ != path,
    }
}

/// The device that was saved as the source, if HID was and the device is there.
pub fn restored_device(input_source: u32, path: &str, devices: &Vec<HidDeviceInfo>) -> (r: Option<
    usize,
>)
    ensures
        input_source != 1 ==> r is None,
        input_source == 1 ==> is_device_at(devices@, path@, r),
{
    if input_source != 1 {
        return None;
    }
    let want: Vec<char> = chars_of(path);
    let mut i: usize = 0;
    while i < devices.len()
        invariant
            i <= devices@.len(),
            input_source == 1,
            want@ == path@,
            forall|j: int| 0 <= j < i ==> (#[trigger] devices@[j]).id.path@ != path@,
        decreases devices@.len() - i,
    {
        if same_text(&chars_of(devices[i].id.path.as_str()), &want) {
            return Some(i);
        }
        i += 1;
    }
    None
}

/// A stick to read as HID: not our own pad, and where `any_vendor` is false not an
/// Xbox pad either.
pub open spec fn is_stick(d: HidDeviceInfo, any_vendor: bool) -> bool {
    d.id.vid != OUR_VID && (any_vendor || d.id.vid != XBOX_VID)
}

/// The first stick among some devices.
pub open spec fn is_first_stick(
    devices: Seq<HidDeviceInfo>,
    any_vendor: bool,
    r: Option<usize>,
) -> bool {
    match r {
        Some(k) => k < devices.len() && is_stick(devices[k as int], any_vendor) && forall|i: int|
            0 <= i < k ==> !is_stick(#[trigger] devices[i], any_vendor),
        None => forall|i: int|
            0 <= i < devices.len() ==> !is_stick(#[trigger] devices[i], any_vendor),
    }
}

fn first_stick(devices: &Vec<HidDeviceInfo>, any_vendor: bool) -> (r: Option<usize>)
    ensures
        is_first_stick(devices@, any_vendor, r),
{
    let mut i: usize = 0;
    while i < devices.len()
        invariant
            i <= devices@.len(),
            forall|j: int| 0 <= j < i ==> !is_stick(#[trigger] devices@[j], any_vendor),
        decreases devices@.len() - i,
    {
        let vid: u16 = devices[i].id.vid;
        if vid != OUR_VID && (any_vendor || vid != XBOX_VID) {
            return Some(i);
        }
        i += 1;
    }
    None
}

/// The stick to use where the user has not chosen: the first that is neither ours nor
/// an Xbox pad. Where there is none, XInput is read.
pub fn autodetect_input(devices: &Vec<HidDeviceInfo>) -> (r: Option<usize>)
    ensures
        is_first_stick(devices@, false, r),
{
    first_stick(devices, false)
}

/// The stick to offer once the user asks for HID: the first that is not ours.
pub fn first_choice(devices: &Vec<HidDeviceInfo>) -> (r: Option<usize>)
    ensures
        is_first_stick(devices@, true, r),
{
    first_stick(devices, true)
}

/// A copy of a device's identity, if there is one.
pub open spec fn same_device(a: HidDeviceId, b: HidDeviceId) -> bool {
    a.path@ == b.path@ && a.vid == b.vid && a.pid == b.pid
}

/// Where the sync service reads: the bulk stream wherever the stick offers it, else
/// the chosen HID stick, else XInput.
pub fn sync_source(bulk: bool, kind: SourceKind, selected: Option<&HidDeviceInfo>) -> (r:
    SyncSource)
    ensures
        bulk <==> r is Bulk,
        r is Hid <==> !bulk && kind is Hid && selected is Some,
        r matches SyncSource::Hid(id) ==> (selected matches Some(d) && same_device(id, d.id)),
{
    if bulk {
        return SyncSource::Bulk;
    }
    match (kind, selected) {
        (SourceKind::Hid, Some(d)) => SyncSource::Hid(d.id()),
        _ => SyncSource::XInput,
    }
}

/// The name of the stick that feeds the service: its label, where it has one.
pub open spec fn input_name(kind: SourceKind, label: Seq<char>) -> Seq<char> {
    match kind {
        SourceKind::XInput => "Xbox controller"@,
        SourceKind::Hid => if label.len() > 0 {
            label
        } else {
            "controller"@
        },
    }
}

/// The name of the stick that feeds the service.
pub fn active_input_name(kind: SourceKind, label: &str) -> (r: String)
    ensures
        r@ == input_name(kind, label@),
{
    match kind {
        SourceKind::XInput => String::from_str("Xbox controller"),
        SourceKind::Hid => if label.unicode_len() > 0 {
            String::from_str(label)
        } else {
            String::from_str("controller")
        },
    }
}

/// A window within its bounds.
pub open spec fn clamped(ms: u32) -> u32 {
    if ms < 1 {
        1
    } else if ms > 16 {
        16
    } else {
        ms
    }
}

/// Set the window of every player, and start counting afresh: misses under the old
/// window say nothing of the new one.
pub fn set_window_ms(s: &mut SharedState, ms: u32)
    ensures
        final(s).window_ms@ == seq![clamped(ms), clamped(ms)],
        final(s).players@ == seq![no_stats(), no_stats()],
        *final(s) == (SharedState {
            window_ms: final(s).window_ms,
            players: final(s).players,
            ..*old(s)
        }),
{
    let w: u32 = if ms < 1 {
        1
    } else if ms > 16 {
        16
    } else {
        ms
    };
    s.window_ms = [w, w];
    s.players = [PlayerStats::new(), PlayerStats::new()];
    assert(s.window_ms@ =~= seq![clamped(ms), clamped(ms)]);
    assert(s.players@ =~= seq![no_stats(), no_stats()]);
}

/// The name of a window's width.
pub open spec fn slack_of(ms: u32) -> Seq<char> {
    if ms <= 3 {
        "Tight"@
    } else if ms <= 6 {
        "Normal"@
    } else {
        "Loose"@
    }
}

/// The name of a window's width.
pub fn slack_name(ms: u32) -> (r: &'static str)
    ensures
        r@ == slack_of(ms),
{
    if ms <= 3 {
        "Tight"
    } else if ms <= 6 {
        "Normal"
    } else {
        "Loose"
    }
}

/// What the window is about.
#[derive(Clone, Copy, Debug, PartialEq, Eq, Structural)]
pub enum Phase {
    /// The driver was never installed.
    NotInstalled,
    /// The driver is there, the virtual pad is not.
    NeedsDevice,
    /// It runs, and no stick reports.
    NoStick,
    /// It runs, and the window is switched off.
    SyncOff,
    /// It runs, and no chord was tried yet.
    Waiting,
    /// Chords are tried, and the window is narrower than the fingers.
    TooTight,
    /// It works.
    Working,
}

/// The phase of what is seen.
pub open spec fn phase_of(present: bool, installed: bool, s: SharedState, stick: bool) -> Phase {
    if !present {
        if installed {
            Phase::NeedsDevice
        } else {
            Phase::NotInstalled
        }
    } else if s.enabled == 0 {
        Phase::SyncOff
    } else if !stick {
        Phase::NoStick
    } else if s.players@[0].groups > 0 {
        Phase::Working
    } else if s.players@[0].attempts > 0 {
        Phase::TooTight
    } else {
        Phase::Waiting
    }
}

/// What the window is about: whether the virtual pad is there, whether its driver is,
/// what the service counts, and whether a stick reports.
pub fn phase(present: bool, installed: bool, s: &SharedState, stick: bool) -> (r: Phase)
    ensures
        r == phase_of(present, installed, *s, stick),
{
    if !present {
        return if installed {
            Phase::NeedsDevice
        } else {
            Phase::NotInstalled
        };
    }
    if s.enabled == 0 {
        return Phase::SyncOff;
    }
    if !stick {
        return Phase::NoStick;
    }
    let p: PlayerStats = s.players[0];
    if p.groups > 0 {
        Phase::Working
    } else if p.attempts > 0 {
        Phase::TooTight
    } else {
        Phase::Waiting
    }
}

/// The headline of a phase.
pub open spec fn headline_of(p: Phase) -> Seq<char> {
    match p {
        Phase::NotInstalled => "SET UP NOBD"@,
        Phase::NeedsDevice => "NOBD IS OFF"@,
        Phase::NoStick => "NO CONTROLLER FOUND"@,
        Phase::SyncOff => "NOBD IS OFF"@,
        Phase::Waiting => "TRY A DASH"@,
        Phase::TooTight => "YOUR DASHES ARE STILL DROPPING"@,
        Phase::Working => "YOUR DASHES ARE COMING OUT"@,
    }
}

/// The headline.
pub fn headline(p: Phase) -> (r: &'static str)
    ensures
        r@ == headline_of(p),
{
    match p {
        Phase::NotInstalled => "SET UP NOBD",
        Phase::NeedsDevice => "NOBD IS OFF",
        Phase::NoStick => "NO CONTROLLER FOUND",
        Phase::SyncOff => "NOBD IS OFF",
        Phase::Waiting => "TRY A DASH",
        Phase::TooTight => "YOUR DASHES ARE STILL DROPPING",
        Phase::Working => "YOUR DASHES ARE COMING OUT",
    }
}

/// The line below the headline. A try that landed counts as a try.
pub open spec fn subline_of(p: Phase, groups: u64, attempts: u64) -> Seq<char> {
    let tries = if attempts < groups {
        groups
    } else {
        attempts
    };
    match p {
        Phase::NotInstalled =>
            "One click. NOBD adds a controller to Windows, and your game reads that instead of your stick."@,
        Phase::NeedsDevice => "Put it back — one click, nothing to reinstall."@,
        Phase::NoStick => "Plug your stick in and press any button."@,
        Phase::SyncOff => "Your dashes will drop the same as they always did."@,
        Phase::Waiting => "Press two punches together, the way you would in a match."@,
        Phase::TooTight => "None of your last "@ + decimal(tries as nat)
            + " landed. Your hands need a little more slack."@,
        Phase::Working => if groups == tries {
            decimal(groups as nat) + " in a row, none dropped."@
        } else {
            decimal(groups as nat) + " of your last "@ + decimal(tries as nat) + " landed."@
        },
    }
}

/// The line below the headline.
pub fn subline(p: Phase, groups: u64, attempts: u64) -> (r: String)
    ensures
        r@ == subline_of(p, groups, attempts),
{
    let tries: u64 = if attempts < groups {
        groups
    } else {
        attempts
    };
    let mut out: Vec<char> = Vec::new();
    match p {
        Phase::NotInstalled => {
            put(
                &mut out,
                "One click. NOBD adds a controller to Windows, and your game reads that instead of your stick.",
            );
        },
        Phase::NeedsDevice => {
            put(&mut out, "Put it back — one click, nothing to reinstall.");
        },
        Phase::NoStick => {
            put(&mut out, "Plug your stick in and press any button.");
        },
        Phase::SyncOff => {
            put(&mut out, "Your dashes will drop the same as they always did.");
        },
        Phase::Waiting => {
            put(&mut out, "Press two punches together, the way you would in a match.");
        },
        Phase::TooTight => {
            put(&mut out, "None of your last ");
            put_number(&mut out, tries);
            put(&mut out, " landed. Your hands need a little more slack.");
        },
        Phase::Working => {
            put_number(&mut out, groups);
            if groups == tries {
                put(&mut out, " in a row, none dropped.");
            } else {
                put(&mut out, " of your last ");
                put_number(&mut out, tries);
                put(&mut out, " landed.");
            }
        },
    }
    assert(out@ =~= subline_of(p, groups, attempts));
    string_of(&out)
}

/// Something counts up while it lives: when the count last moved.
#[derive(Clone, Copy, Debug, PartialEq, Eq, Structural)]
pub struct Pulse {
    pub last: u64,
    pub seen_at: Option<u64>,
}

/// The hook is taken to live for this long after its count last moved.
pub const HOOK_LIVE_MS: u64 = 1500;

/// A commit lights its dot for this long.
pub const COMMIT_LIT_MS: u64 = 250;

/// The pulse after a look at the count.
pub open spec fn beaten(p: Pulse, count: u64, now_ms: u64) -> Pulse {
    if count != p.last {
        Pulse { last: count, seen_at: Some(now_ms) }
    } else {
        p
    }
}

/// The count moved less than `span` ago.
pub open spec fn is_live(p: Pulse, now_ms: u64, span: u64) -> bool {
    p.seen_at matches Some(t) && elapsed(t, now_ms) < span
}

impl Pulse {
    pub fn new() -> (r: Self)
        ensures
            r == (Pulse { last: 0, seen_at: None }),
    {
        Pulse { last: 0, seen_at: None }
    }

    /// Look at the count. A count that is merely not zero proves nothing: it outlives
    /// what counted it.
    pub fn beat(&mut self, count: u64, now_ms: u64)
        ensures
            *final(self) == beaten(*old(self), count, now_ms),
    {
        if count != self.last {
            self.last = count;
            self.seen_at = Some(now_ms);
        }
    }

    /// Whether the count moved less than `span` ago.
    pub fn live(&self, now_ms: u64, span: u64) -> (r: bool)
        ensures
            r == is_live(*self, now_ms, span),
    {
        match self.seen_at {
            Some(t) => now_ms.saturating_sub(t) < span,
            None => false,
        }
    }
}

/// What the hook's card says.
#[derive(Clone, Copy, Debug, PartialEq, Eq, Structural)]
pub enum HookStatus {
    /// There is no game.
    NoGame,
    /// It runs in the game, and a newer one waits.
    LiveOutdated,
    /// The game runs without it and must be closed first.
    CloseGame,
    /// It is being put in place.
    Installing,
    /// It is in place.
    Ready,
    /// It runs in the game.
    Live,
}

/// The status of what is seen of the hook.
pub open spec fn status_of(game: bool, installed: bool, live: bool, running: bool) -> HookStatus {
    if !game {
        HookStatus::NoGame
    } else if installed {
        if live {
            HookStatus::Live
        } else {
            HookStatus::Ready
        }
    } else if live {
        HookStatus::LiveOutdated
    } else if running {
        HookStatus::CloseGame
    } else {
        HookStatus::Installing
    }
}

/// What the hook's card says, given whether the game was found, whether the right hook
/// is in its folder, whether a hook is alive, and whether the game runs.
pub fn hook_status(game: bool, installed: bool, live: bool, running: bool) -> (r: HookStatus)
    ensures
        r == status_of(game, installed, live, running),
{
    if !game {
        HookStatus::NoGame
    } else if installed {
        if live {
            HookStatus::Live
        } else {
            HookStatus::Ready
        }
    } else if live {
        HookStatus::LiveOutdated
    } else if running {
        HookStatus::CloseGame
    } else {
        HookStatus::Installing
    }
}

/// What the hook's card says in words: its title, and what there is to do.
pub fn hook_card(s: HookStatus) -> (r: (&'static str, &'static str))
    ensures
        r.0@ == (match s {
            HookStatus::NoGame => "MARVEL NOT FOUND"@,
            HookStatus::LiveOutdated => "NOBD IS LIVE IN MARVEL"@,
            HookStatus::CloseGame => "CLOSE MARVEL TO FINISH"@,
            HookStatus::Installing => "INSTALLING\u{2026}"@,
            HookStatus::Ready => "READY \u{2014} LAUNCH MARVEL"@,
            HookStatus::Live => "NOBD IS LIVE IN MARVEL"@,
        }),
        r.1@ == (match s {
            HookStatus::NoGame => "NOBD couldn't find Marvel vs Capcom in your Steam library."@,
            HookStatus::LiveOutdated =>
                "An update is ready. It will be applied next time you close the game."@,
            HookStatus::CloseGame =>
                "NOBD has an update for your game folder, and Windows won't let it replace a file the game is using."@,
            HookStatus::Installing => "Putting NOBD into your Marvel folder."@,
            HookStatus::Ready =>
                "NOBD is installed. It starts with the game; there is nothing to turn on."@,
            HookStatus::Live => "Running inside the game. Your dashes are being grouped as you play."@,
        }),
{
    match s {
        HookStatus::NoGame => (
            "MARVEL NOT FOUND",
            "NOBD couldn't find Marvel vs Capcom in your Steam library.",
        ),
        HookStatus::LiveOutdated => (
            "NOBD IS LIVE IN MARVEL",
            "An update is ready. It will be applied next time you close the game.",
        ),
        HookStatus::CloseGame => (
            "CLOSE MARVEL TO FINISH",
            "NOBD has an update for your game folder, and Windows won't let it replace a file the game is using.",
        ),
        HookStatus::Installing => (
            "INSTALLING\u{2026}",
            "Putting NOBD into your Marvel folder.",
        ),
        HookStatus::Ready => (
            "READY \u{2014} LAUNCH MARVEL",
            "NOBD is installed. It starts with the game; there is nothing to turn on.",
        ),
        HookStatus::Live => (
            "NOBD IS LIVE IN MARVEL",
            "Running inside the game. Your dashes are being grouped as you play.",
        ),
    }
}

/// The hook is to be put in place.
pub open spec fn installs(current: bool, live: bool, running: bool) -> bool {
    !current && !live && !running
}

/// The hook is put in place unasked, but not while it or the game runs.
pub fn wants_install(current: bool, live: bool, running: bool) -> (r: bool)
    ensures
        r == installs(current, live, running),
{
    !current && !live && !running
}

/// What switching on asks for.
#[derive(Clone, Copy, Debug, PartialEq, Eq, Structural)]
pub enum TurnOn {
    /// The pad is there.
    Nothing,
    /// Set it up.
    Setup,
    /// Start anew, elevated, to set it up.
    Relaunch,
}

/// What switching on asks for, by what is there.
pub open spec fn turning_on(present: bool, elevated: bool) -> TurnOn {
    if present {
        TurnOn::Nothing
    } else if elevated {
        TurnOn::Setup
    } else {
        TurnOn::Relaunch
    }
}

/// Switch on: the window is enabled, counting starts afresh, and the pad is set up
/// where it is not there.
pub fn turn_on(s: &mut SharedState, present: bool, elevated: bool) -> (r: TurnOn)
    ensures
        *final(s) == (SharedState { enabled: 1, players: final(s).players, ..*old(s) }),
        final(s).players@ == seq![no_stats(), no_stats()],
        r == turning_on(present, elevated),
{
    s.enabled = 1;
    s.reset_stats();
    if present {
        TurnOn::Nothing
    } else if elevated {
        TurnOn::Setup
    } else {
        TurnOn::Relaunch
    }
}

/// Switch off: the window is disabled, counting starts afresh, and the pad is to be
/// removed, which wants elevation. Returns whether it can be done here.
pub fn turn_off(s: &mut SharedState, elevated: bool) -> (here: bool)
    ensures
        *final(s) == (SharedState { enabled: 0, players: final(s).players, ..*old(s) }),
        final(s).players@ == seq![no_stats(), no_stats()],
        here == elevated,
{
    s.enabled = 0;
    s.reset_stats();
    elevated
}

/// What is to be done about the player's stick.
#[derive(Clone, Copy, Debug, PartialEq, Eq, Structural)]
pub enum Hiding {
    /// There is nothing to hide it with.
    Nothing,
    /// Let us see it, hide it, put the cloak on.
    Hide,
    /// Take the cloak off, and show it.
    Show,
}

/// What is to be done about the stick, by what is there.
pub open spec fn hiding_of(
    tool: bool,
    wanted: bool,
    present: bool,
    kind: SourceKind,
    selected: bool,
) -> Hiding {
    if !tool {
        Hiding::Nothing
    } else if wanted && present && kind is Hid && selected {
        Hiding::Hide
    } else {
        Hiding::Show
    }
}

/// What is to be done about the player's stick: it is hidden exactly while the user
/// wants it, the virtual pad is there and the stick is read as HID.
pub fn apply_stick_hiding(
    tool: bool,
    wanted: bool,
    present: bool,
    kind: SourceKind,
    selected: bool,
) -> (r: Hiding)
    ensures
        r == hiding_of(tool, wanted, present, kind, selected),
{
    if !tool {
        return Hiding::Nothing;
    }
    let hid = match kind {
        SourceKind::Hid => true,
        SourceKind::XInput => false,
    };
    if wanted && present && hid && selected {
        Hiding::Hide
    } else {
        Hiding::Show
    }
}

/// The watch for the bulk stick, which is looked for once a second.
#[derive(Clone, Copy, Debug, PartialEq, Eq, Structural)]
pub struct Hotplug {
    pub looked_at: u64,
    pub was_present: bool,
}

impl Hotplug {
    /// Whether it is time to look.
    pub fn due(&self, now_ms: u64) -> (r: bool)
        ensures
            r == (now_ms >= self.looked_at + 1000),
    {
        now_ms >= self.looked_at && now_ms - self.looked_at >= 1000
    }

    /// Look. The service starts anew exactly when the stick has just come.
    pub fn look(&mut self, present: bool, now_ms: u64) -> (restart: bool)
        ensures
            restart == (present && !old(self).was_present),
            *final(self) == (Hotplug { looked_at: now_ms, was_present: present }),
    {
        let restart = present && !self.was_present;
        self.looked_at = now_ms;
        self.was_present = present;
        restart
    }
}

/// What the window keeps from one frame to the next.
#[derive(Clone, Copy, Debug, PartialEq, Eq, Structural)]
pub struct Desk {
    /// The virtual pad is there.
    pub present: bool,
    /// Its driver is.
    pub installed: bool,
    /// Its driver is an older one than ships.
    pub stale: bool,
    pub hotplug: Hotplug,
    /// The stick's hiding has been brought in line since the start.
    pub hiding_checked: bool,
    /// What the service has committed.
    pub commits: Pulse,
    /// What the hook has read.
    pub hook: Pulse,
    pub hook_looked_at: u64,
    /// The hook in the game's folder is the one that ships.
    pub hook_current: bool,
    pub game_running: bool,
}

/// The hook is looked at this often.
pub const HOOK_LOOK_MS: u64 = 250;

/// What is to be looked at in a frame. To look costs time.
#[derive(Clone, Copy, Debug, PartialEq, Eq, Structural)]
pub struct Wants {
    pub bulk: bool,
    pub hook: bool,
}

/// What was seen of the hook.
#[derive(Clone, Copy, Debug, PartialEq, Eq, Structural)]
pub struct HookSeen {
    /// What the hook has read so far.
    pub reads: u64,
    pub game_running: bool,
    /// Whether the hook in the game's folder is the one that ships; `None` where there is
    /// no game.
    pub current: Option<bool>,
}

/// What was seen in a frame.
#[derive(Clone, Copy, Debug, PartialEq, Eq, Structural)]
pub struct Seen {
    pub now_ms: u64,
    /// Whether the bulk stick is there, where it was looked for.
    pub bulk: Option<bool>,
    /// Chords and singles that the service has committed so far.
    pub commits: u64,
    pub hook: Option<HookSeen>,
}

/// What is to be done after a frame.
#[derive(Clone, Copy, Debug, PartialEq, Eq, Structural)]
pub struct Acts {
    /// Start the sync service anew, on the source of now.
    pub restart_sync: bool,
    /// Bring the stick's hiding in line.
    pub check_hiding: bool,
    /// Put the hook into the game's folder.
    pub install_hook: bool,
}

/// The desk once a setup has ended.
pub open spec fn set_up(d: Desk, ok: bool) -> Desk {
    if ok {
        Desk { present: true, installed: true, stale: false, ..d }
    } else {
        d
    }
}

/// What a desk wants to be looked at.
pub open spec fn wanted(d: Desk, now_ms: u64) -> Wants {
    Wants {
        bulk: d.present && now_ms >= d.hotplug.looked_at + 1000,
        hook: now_ms >= d.hook_looked_at + HOOK_LOOK_MS,
    }
}

/// The desk after a frame.
pub open spec fn after_frame(d: Desk, s: Seen) -> Desk {
    Desk {
        hotplug: match s.bulk {
            Some(b) => Hotplug { looked_at: s.now_ms, was_present: b },
            None => d.hotplug,
        },
        hiding_checked: true,
        commits: beaten(d.commits, s.commits, s.now_ms),
        hook: match s.hook {
            Some(h) => beaten(d.hook, h.reads, s.now_ms),
            None => d.hook,
        },
        hook_looked_at: if s.hook is Some {
            s.now_ms
        } else {
            d.hook_looked_at
        },
        hook_current: match s.hook {
            Some(h) => match h.current {
                Some(c) => c,
                None => d.hook_current,
            },
            None => d.hook_current,
        },
        game_running: match s.hook {
            Some(h) => h.game_running,
            None => d.game_running,
        },
        ..d
    }
}

/// What is to be done after a frame.
pub open spec fn acts_of(d: Desk, s: Seen) -> Acts {
    let replugged = d.present && s.bulk == Some(true) && !d.hotplug.was_present;
    Acts {
        restart_sync: replugged,
        check_hiding: replugged || !d.hiding_checked,
        install_hook: match s.hook {
            Some(h) => h.current == Some(false) && !is_live(
                after_frame(d, s).hook,
                s.now_ms,
                HOOK_LIVE_MS,
            ) && !h.game_running,
            None => false,
        },
    }
}

impl Desk {
    /// The desk at the start: what is known of the pad, its driver and the bulk stick.
    pub fn new(present: bool, installed: bool, stale: bool, bulk: bool, now_ms: u64) -> (r: Self)
        ensures
            r == (Desk {
                present,
                installed,
                stale,
                hotplug: Hotplug { looked_at: now_ms, was_present: bulk },
                hiding_checked: false,
                commits: Pulse { last: 0, seen_at: None },
                hook: Pulse { last: 0, seen_at: None },
                hook_looked_at: now_ms,
                hook_current: false,
                game_running: false,
            }),
    {
        Desk {
            present,
            installed,
            stale,
            hotplug: Hotplug { looked_at: now_ms, was_present: bulk },
            hiding_checked: false,
            commits: Pulse::new(),
            hook: Pulse::new(),
            hook_looked_at: now_ms,
            hook_current: false,
            game_running: false,
        }
    }

    /// A setup has ended. Where it went well the service starts, and the stick's hiding is
    /// brought in line.
    pub fn setup_ended(&mut self, ok: bool) -> (r: Acts)
        ensures
            *final(self) == set_up(*old(self), ok),
            r == (Acts { restart_sync: ok, check_hiding: ok, install_hook: false }),
    {
        if ok {
            self.present = true;
            self.installed = true;
            self.stale = false;
        }
        Acts { restart_sync: ok, check_hiding: ok, install_hook: false }
    }

    /// The pad has been removed.
    pub fn removed(&mut self)
        ensures
            *final(self) == (Desk { present: false, ..*old(self) }),
    {
        self.present = false;
    }

    /// What to look at in this frame.
    pub fn wants(&self, now_ms: u64) -> (r: Wants)
        ensures
            r == wanted(*self, now_ms),
    {
        Wants {
            bulk: self.present && self.hotplug.due(now_ms),
            hook: now_ms >= self.hook_looked_at && now_ms - self.hook_looked_at >= HOOK_LOOK_MS,
        }
    }

    /// Take what was seen in a frame.
    pub fn frame(&mut self, s: Seen) -> (r: Acts)
        ensures
            *final(self) == after_frame(*old(self), s),
            r == acts_of(*old(self), s),
    {
        let mut restart = false;
        match s.bulk {
            Some(b) => {
                restart = self.hotplug.look(b, s.now_ms) && self.present;
            },
            None => {},
        }
        let check = restart || !self.hiding_checked;
        self.hiding_checked = true;
        self.commits.beat(s.commits, s.now_ms);
        let mut install = false;
        match s.hook {
            Some(h) => {
                self.hook_looked_at = s.now_ms;
                self.hook.beat(h.reads, s.now_ms);
                self.game_running = h.game_running;
                match h.current {
                    Some(c) => {
                        self.hook_current = c;
                        install = wants_install(
                            c,
                            self.hook.live(s.now_ms, HOOK_LIVE_MS),
                            h.game_running,
                        );
                    },
                    None => {},
                }
            },
            None => {},
        }
        Acts { restart_sync: restart, check_hiding: check, install_hook: install }
    }
}

/// A stick that stays where it is restarts the service once, when it comes.
pub proof fn law_one_restart_per_plug(d: Desk, a: Seen, b: Seen)
    requires
        a.bulk == Some(true),
        b.bulk == Some(true),
    ensures
        !acts_of(after_frame(d, a), b).restart_sync,
{
}

/// A hook is never put into a folder while the game runs.
pub proof fn law_a_running_game_is_left_alone(d: Desk, s: Seen)
    ensures
        acts_of(d, s).install_hook ==> (s.hook matches Some(h) && !h.game_running),
{
}

/// Nothing is shown as working unless the pad is there, the window is on, a stick
/// reports and a chord has landed.
pub proof fn law_working_is_earned(present: bool, installed: bool, s: SharedState, stick: bool)
    ensures
        phase_of(present, installed, s, stick) is Working <==> present && s.enabled != 0 && stick
            && s.players@[0].groups > 0,
{
}

/// A hook whose count has stopped is no longer shown as alive.
pub proof fn law_a_stopped_hook_dies(p: Pulse, count: u64, t0: u64, t1: u64)
    requires
        t1 >= t0 + HOOK_LIVE_MS,
        p.last != count,
    ensures
        is_live(beaten(p, count, t0), t0, HOOK_LIVE_MS),
        !is_live(beaten(beaten(p, count, t0), count, t1), t1, HOOK_LIVE_MS),
{
}

/// A window is tight up to 3 milliseconds, normal up to 6 and loose above; the three names
/// differ.
pub proof fn law_slack_has_three_names(ms: u32)
    ensures
        slack_of(ms) == "Tight"@ <==> ms < 4,
        slack_of(ms) == "Normal"@ <==> 4 <= ms < 7,
        slack_of(ms) == "Loose"@ <==> ms >= 7,
{
    reveal_strlit("Tight");
    reveal_strlit("Normal");
    reveal_strlit("Loose");
    assert("Tight"@[0] == 'T' && "Loose"@[0] == 'L');
}

/// A window that is set is kept within 1 and 16 milliseconds, and taken as it is within them.
pub proof fn law_a_set_window_stays_in_bounds(ms: u32)
    ensures
        1 <= clamped(ms) <= 16,
        1 <= ms <= 16 ==> clamped(ms) == ms,
        ms == 0 ==> clamped(ms) == 1,
        ms >= 16 ==> clamped(ms) == 16,
{
}

/// The hook is being put in place exactly while the screen says so: the game is there, the
/// right hook is not in its folder, and neither a hook nor the game runs. It is live exactly
/// where one runs.
pub proof fn law_the_card_says_what_is_done(game: bool, installed: bool, live: bool, running: bool)
    ensures
        status_of(game, installed, live, running) is Installing <==> game && installs(
            installed,
            live,
            running,
        ),
        installs(installed, live, running) <==> !(installed || live || running),
        status_of(game, installed, live, running) is NoGame <==> !game,
        (status_of(game, installed, live, running) is Live || status_of(
            game,
            installed,
            live,
            running,
        ) is LiveOutdated) <==> game && live,
        status_of(game, installed, live, running) is LiveOutdated ==> !installed,
        status_of(game, installed, live, running) is CloseGame ==> running && !installed && !live,
        status_of(game, installed, live, running) is Ready <==> game && installed && !live,
{
}

/// Switching on sets the pad up exactly where it is not there, and starts anew to do so where
/// the program may not.
pub proof fn law_turning_on_sets_up_what_is_missing(present: bool, elevated: bool)
    ensures
        turning_on(present, elevated) is Nothing <==> present,
        turning_on(present, elevated) is Setup <==> !present && elevated,
        turning_on(present, elevated) is Relaunch <==> !(present || elevated),
{
}

/// The stick is hidden only while there is a pad to play on, and it is shown again as soon as
/// any of the reasons to hide it is gone.
pub proof fn law_a_hidden_stick_has_a_pad_in_its_place(
    tool: bool,
    wanted: bool,
    present: bool,
    kind: SourceKind,
    selected: bool,
)
    ensures
        hiding_of(tool, wanted, present, kind, selected) is Hide <==> tool && wanted && present
            && selected && kind is Hid,
        hiding_of(tool, wanted, present, kind, selected) is Nothing <==> !tool,
        tool && !present ==> hiding_of(tool, wanted, present, kind, selected) is Show,
        tool && !wanted ==> hiding_of(tool, wanted, present, kind, selected) is Show,
{
}

/// The screen says that it works exactly where the pad is there, the window is on, a stick
/// reports and a chord has landed; that the window is too tight where chords were tried and
/// none has landed; and it waits where none was tried.
pub proof fn law_the_phase_tells_what_is_missing(
    present: bool,
    installed: bool,
    s: SharedState,
    stick: bool,
)
    ensures
        ({
            let p = phase_of(present, installed, s, stick);
            let ready = present && stick && s.enabled != 0;
            &&& p is NotInstalled <==> !present && !installed
            &&& p is NeedsDevice <==> !present && installed
            &&& p is SyncOff <==> present && s.enabled == 0
            &&& p is NoStick <==> present && s.enabled != 0 && !stick
            &&& p is Working <==> ready && s.players@[0].groups >= 1
            &&& p is TooTight <==> ready && s.players@[0].groups == 0 && s.players@[0].attempts >= 1
            &&& p is Waiting <==> ready && s.players@[0].groups == 0 && s.players@[0].attempts == 0
        }),
{
}

/// A count that moves is live for its span from then on, and a count that stands still goes
/// out, however high it is.
pub proof fn law_a_pulse_goes_out(p: Pulse, count: u64, t: u64, now_ms: u64, span: u64)
    requires
        t <= now_ms,
        count != p.last,
    ensures
        ({
            let q = beaten(p, count, t);
            &&& is_live(q, now_ms, span) <==> now_ms - t < span
            &&& beaten(q, count, now_ms) == q
            &&& is_live(beaten(q, count, now_ms), now_ms, span) <==> now_ms < t + span
        }),
        !is_live(Pulse { last: p.last, seen_at: None }, now_ms, span),
{
}

/// A desk looks for the bulk stick once a second, and for the hook every quarter of one.
pub proof fn law_a_desk_looks_every_so_often(d: Desk, s: Seen)
    requires
        s.bulk is Some && s.hook is Some,
        d.present,
        s.now_ms <= 0xFFFF_FFFF_0000_0000,
    ensures
        ({
            let n = after_frame(d, s);
            &&& !wanted(n, (s.now_ms + 999) as u64).bulk
            &&& wanted(n, (s.now_ms + 1000) as u64).bulk
            &&& !wanted(n, (s.now_ms + 249) as u64).hook
            &&& wanted(n, (s.now_ms + 250) as u64).hook
        }),
{
}

/// The service starts anew once for each time that the bulk stick comes: not while it stays,
/// and not while there is no pad.
pub proof fn law_the_service_starts_anew_once(d: Desk, first: Seen, second: Seen)
    requires
        first.bulk == Some(true) && second.bulk == Some(true),
    ensures
        acts_of(d, first).restart_sync <==> d.present && !d.hotplug.was_present,
        !acts_of(after_frame(d, first), second).restart_sync,
        acts_of(d, Seen { bulk: Some(false), ..first }).restart_sync == false,
        d.present ==> acts_of(
            after_frame(d, Seen { bulk: Some(false), ..first }),
            second,
        ).restart_sync,
        acts_of(d, first).restart_sync ==> acts_of(d, first).check_hiding,
        !d.hiding_checked ==> acts_of(d, first).check_hiding,
{
}

} // verus!
