//! What the window says, by what it is about.

use crate::screen::{active_input_name, input_name, Phase, SourceKind};
use crate::stats::Grouping;
use crate::sync_service::PadType;
use crate::telemetry::{ERR_NO_NOBD, ERR_NO_XINPUT};
use crate::text::{chars_of, decimal, put, put_number, string_of};
use vstd::prelude::*;

verus! {

/// The name under which games see a pad.
pub fn pad_name(pad: PadType) -> (r: &'static str)
    ensures
        r@ == (match pad {
            PadType::Hid => "NOBD Controller"@,
            PadType::Xinput => "NOBD Controller (Xbox 360)"@,
        }),
{
    match pad {
        PadType::Hid => "NOBD Controller",
        PadType::Xinput => "NOBD Controller (Xbox 360)",
    }
}

/// What the choice of a pad says.
pub fn pad_choice(pad: PadType) -> (r: &'static str)
    ensures
        r@ == (match pad {
            PadType::Xinput => "XInput / Xbox pad (works in the most games)"@,
            PadType::Hid =>
                "Branded \u{201C}NOBD Controller\u{201D} (Steam / DirectInput games)"@,
        }),
{
    match pad {
        PadType::Xinput => "XInput / Xbox pad (works in the most games)",
        PadType::Hid => "Branded \u{201C}NOBD Controller\u{201D} (Steam / DirectInput games)",
    }
}

/// What the choice of a source says.
pub fn source_choice(kind: SourceKind) -> (r: &'static str)
    ensures
        r@ == (match kind {
            SourceKind::XInput => "Xbox / XInput sticks"@,
            SourceKind::Hid => "DirectInput fightstick"@,
        }),
{
    match kind {
        SourceKind::XInput => "Xbox / XInput sticks",
        SourceKind::Hid => "DirectInput fightstick",
    }
}

/// The note that an older driver runs than the one that ships, where the pad is there.
pub fn stale_note(present: bool, stale: bool) -> (r: Option<&'static str>)
    ensures
        r is Some <==> present && stale,
        r matches Some(t) ==> t@
            == "This version of NOBD ships a newer controller driver than the one installed."@,
{
    if present && stale {
        Some("This version of NOBD ships a newer controller driver than the one installed.")
    } else {
        None
    }
}

/// What the service's error code means to the player; while there is none, that it is
/// still starting, until it runs.
pub open spec fn note_of(error: u8, active: bool) -> Option<Seq<char>> {
    if error == ERR_NO_XINPUT {
        Some("XInput is unavailable on this system."@)
    } else if error == ERR_NO_NOBD {
        Some(
            "Couldn't open the NOBD Controller \u{2014} try removing and re-adding it under Details."@,
        )
    } else if !active {
        Some("Starting the sync loop\u{2026}"@)
    } else {
        None
    }
}

/// What to say of the service, if anything.
pub fn service_note(error: u8, active: bool) -> (r: Option<&'static str>)
    ensures
        r is Some <==> note_of(error, active) is Some,
        r matches Some(t) ==> note_of(error, active) == Some(t@),
{
    if error == ERR_NO_XINPUT {
        Some("XInput is unavailable on this system.")
    } else if error == ERR_NO_NOBD {
        Some("Couldn't open the NOBD Controller \u{2014} try removing and re-adding it under Details.")
    } else if !active {
        Some("Starting the sync loop\u{2026}")
    } else {
        None
    }
}

/// What the button says that leads out of a phase; empty where there is none.
pub fn phase_button(p: Phase) -> (r: &'static str)
    ensures
        r@ == (match p {
            Phase::NotInstalled => "Install NOBD Controller"@,
            Phase::NeedsDevice => "Turn NOBD on"@,
            Phase::SyncOff => "Resume syncing"@,
            Phase::TooTight => "Give me more slack"@,
            _ => ""@,
        }),
{
    match p {
        Phase::NotInstalled => "Install NOBD Controller",
        Phase::NeedsDevice => "Turn NOBD on",
        Phase::SyncOff => "Resume syncing",
        Phase::TooTight => "Give me more slack",
        _ => "",
    }
}

/// What a phase hints at; empty where it needs no hint.
pub fn phase_hint(p: Phase) -> (r: &'static str)
    ensures
        r@ == (match p {
            Phase::TooTight => "NOBD is waiting a shorter time than your hands actually take."@,
            Phase::NoStick | Phase::Waiting =>
                "Nothing has reached NOBD yet. Wrong stick? Choose it under Details."@,
            _ => ""@,
        }),
{
    match p {
        Phase::TooTight => "NOBD is waiting a shorter time than your hands actually take.",
        Phase::NoStick | Phase::Waiting =>
            "Nothing has reached NOBD yet. Wrong stick? Choose it under Details.",
        _ => "",
    }
}

/// What the header says of the player's stick: its name once it reports to a pad that is
/// there.
pub fn stick_text(present: bool, reports: bool, kind: SourceKind, label: &str) -> (r: String)
    ensures
        present && reports ==> r@ == input_name(kind, label@),
        present && !reports ==> r@ == "no stick detected"@,
        !present ==> r@ == "your stick"@,
{
    if present && reports {
        active_input_name(kind, label)
    } else if present {
        string_of(&chars_of("no stick detected"))
    } else {
        string_of(&chars_of("your stick"))
    }
}

/// What the switch of the pad says.
pub fn turn_text(present: bool) -> (r: &'static str)
    ensures
        r@ == (if present {
            "Turn NOBD off"@
        } else {
            "Turn NOBD on"@
        }),
{
    if present {
        "Turn NOBD off"
    } else {
        "Turn NOBD on"
    }
}

/// Which player the pad in an XInput slot is to a game.
pub fn player_note(slot: u32) -> (r: String)
    ensures
        r@ == "If your game lists two Xbox controllers, NOBD is player "@ + decimal((slot + 1) as nat) + "."@,
{
    let mut out: Vec<char> = chars_of("If your game lists two Xbox controllers, NOBD is player ");
    put_number(&mut out, slot as u64 + 1);
    put(&mut out, ".");
    string_of(&out)
}

/// How many chords are still wanted for a verdict.
pub fn collecting_note(left: usize) -> (r: String)
    ensures
        r@ == "Press two buttons together "@ + decimal(left as nat) + " more time(s) for a verdict."@,
{
    let mut out: Vec<char> = chars_of("Press two buttons together ");
    put_number(&mut out, left as u64);
    put(&mut out, " more time(s) for a verdict.");
    string_of(&out)
}

/// What a wider window would be, in milliseconds.
pub fn widen_note(ms: u32) -> (r: String)
    ensures
        r@ == "Widens the wait to "@ + decimal(ms as nat) + " ms, measured from your own hands."@,
{
    let mut out: Vec<char> = chars_of("Widens the wait to ");
    put_number(&mut out, ms as u64);
    put(&mut out, " ms, measured from your own hands.");
    string_of(&out)
}

/// What the control bar says of the switch.
pub fn switch_text(present: bool, enabled: bool) -> (r: &'static str)
    ensures
        r@ == (if !present {
            "NOBD off"@
        } else if enabled {
            "NOBD on"@
        } else {
            "bypassed"@
        }),
{
    if !present {
        "NOBD off"
    } else if enabled {
        "NOBD on"
    } else {
        "bypassed"
    }
}

/// The warning that a game sees two Xbox pads: the player's own and the virtual one.
pub fn two_pads_warning(present: bool, kind: SourceKind, pad: PadType) -> (r: Option<&'static str>)
    ensures
        r is Some <==> present && kind is XInput && pad is Xinput,
        r matches Some(t) ==> t@
            == "Your game will see two Xbox controllers \u{2014} yours and NOBD's. If it picks yours, none of this reaches the game."@,
{
    match (kind, pad) {
        (SourceKind::XInput, PadType::Xinput) => if present {
            Some("Your game will see two Xbox controllers \u{2014} yours and NOBD's. If it picks yours, none of this reaches the game.")
        } else {
            None
        },
        _ => None,
    }
}

/// What an installation of the pad puts on the machine: the driver, its certificate, the
/// device, and what a removal leaves.
pub fn install_notes() -> (r: [&'static str; 4])
    ensures
        r@[0]@
            == "A controller driver \u{2014} a small driver package, added to Windows' driver store."@,
        r@[1]@
            == "Its signing certificate \u{2014} Windows won't load a driver it can't verify, so NOBD's signing certificate goes on this PC's trusted list. This is the same step HidHide and ViGEmBus take."@,
        r@[2]@
            == "The NOBD Controller \u{2014} appears in Windows and Steam next to your stick, and stays there after a restart."@,
        r@[3]@
            == "Remove NOBD Controller, under Details, takes the controller back off. The driver and certificate stay installed \u{2014} there is no full uninstall yet."@,
{
    [
        "A controller driver \u{2014} a small driver package, added to Windows' driver store.",
        "Its signing certificate \u{2014} Windows won't load a driver it can't verify, so NOBD's signing certificate goes on this PC's trusted list. This is the same step HidHide and ViGEmBus take.",
        "The NOBD Controller \u{2014} appears in Windows and Steam next to your stick, and stays there after a restart.",
        "Remove NOBD Controller, under Details, takes the controller back off. The driver and certificate stay installed \u{2014} there is no full uninstall yet.",
    ]
}

/// A verdict on the grouping in words: its title, and what follows the share of chords
/// that arrive in one report.
pub fn verdict_words(g: Grouping) -> (r: (&'static str, &'static str))
    ensures
        r.0@ == (match g {
            Grouping::Natural => "GROUPING OFF"@,
            Grouping::Window | Grouping::AlwaysOn => "GROUPING DETECTED"@,
            Grouping::Hint => "INCONCLUSIVE"@,
        }),
        r.1@ == (match g {
            Grouping::Natural => "natural finger timing"@,
            Grouping::Window => "presses grouped"@,
            Grouping::AlwaysOn => "consistent grouping"@,
            Grouping::Hint => "keep going"@,
        }),
{
    match g {
        Grouping::Natural => ("GROUPING OFF", "natural finger timing"),
        Grouping::Window => ("GROUPING DETECTED", "presses grouped"),
        Grouping::AlwaysOn => ("GROUPING DETECTED", "consistent grouping"),
        Grouping::Hint => ("INCONCLUSIVE", "keep going"),
    }
}

} // verus!
