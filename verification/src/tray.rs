//! The tray menu, and how the program starts and ends.

use crate::state::SharedState;
use crate::sync_service::PadType;
use crate::text::{chars_of, is_text, starts, starts_with};
use vstd::prelude::*;

verus! {

/// The check marks of the menu.
#[derive(Clone, Copy, Debug, PartialEq, Eq, Structural)]
pub struct Checks {
    pub enabled: bool,
    pub w3: bool,
    pub w5: bool,
    pub w8: bool,
}

/// The window that all players share, if they do.
pub open spec fn shared_window(s: SharedState) -> Option<u32> {
    if s.window_ms@[0] == s.window_ms@[1] {
        Some(s.window_ms@[0])
    } else {
        None
    }
}

/// The check marks of a state.
pub open spec fn checks_of(s: SharedState) -> Checks {
    Checks {
        enabled: s.enabled != 0,
        w3: shared_window(s) == Some(3u32),
        w5: shared_window(s) == Some(5u32),
        w8: shared_window(s) == Some(8u32),
    }
}

/// The check marks of a state: a window is checked only where all players have it.
pub fn refresh_checks(s: &SharedState) -> (r: Checks)
    ensures
        r == checks_of(*s),
{
    let w: u32 = s.window_ms[0];
    let all = w == s.window_ms[1];
    Checks { enabled: s.enabled != 0, w3: all && w == 3, w5: all && w == 5, w8: all && w == 8 }
}

/// What the menu can change.
#[derive(Clone, Copy, Debug, PartialEq, Eq, Structural)]
pub enum MenuChoice {
    /// Switch the window off, or on again. The controller stays, so that a game does not
    /// lose it.
    Bypass,
    Window3,
    Window5,
    Window8,
}

/// The switch after a use of the bypass.
pub open spec fn bypassed(enabled: u32) -> u32 {
    if enabled == 0 {
        1
    } else {
        0
    }
}

/// The window of a choice.
pub open spec fn window_of(c: MenuChoice) -> u32 {
    match c {
        MenuChoice::Window3 => 3,
        MenuChoice::Window5 => 5,
        _ => 8,
    }
}

/// `b` is `a` with a choice carried out.
pub open spec fn is_chosen(a: SharedState, b: SharedState, c: MenuChoice) -> bool {
    if c is Bypass {
        b == (SharedState { enabled: bypassed(a.enabled), ..a })
    } else {
        b.window_ms@ == seq![window_of(c), window_of(c)] && b == (SharedState {
            window_ms: b.window_ms,
            ..a
        })
    }
}

/// Carry out a choice.
pub fn choose_item(s: &mut SharedState, c: MenuChoice)
    ensures
        is_chosen(*old(s), *final(s), c),
{
    match c {
        MenuChoice::Bypass => {
            s.enabled = if s.enabled == 0 {
                1
            } else {
                0
            };
        },
        MenuChoice::Window3 => {
            s.window_ms = [3, 3];
        },
        MenuChoice::Window5 => {
            s.window_ms = [5, 5];
        },
        MenuChoice::Window8 => {
            s.window_ms = [8, 8];
        },
    }
    assert(!(c is Bypass) ==> s.window_ms@ =~= seq![window_of(c), window_of(c)]);
}

/// A step on the way out.
#[derive(Clone, Copy, Debug, PartialEq, Eq, Structural)]
pub enum QuitStep {
    /// Show the player's stick.
    CloakOff,
    /// Bring the virtual pad to neutral.
    ReleasePad,
    /// Take the virtual pad out of the system.
    Eject,
}

/// The steps on the way out.
pub open spec fn way_out(keep: bool) -> Seq<QuitStep> {
    if keep {
        seq![QuitStep::CloakOff, QuitStep::ReleasePad]
    } else {
        seq![QuitStep::CloakOff, QuitStep::ReleasePad, QuitStep::Eject]
    }
}

/// The steps on the way out. A pad that is not to stay would be one more in every game,
/// with nothing to explain it.
pub fn quit_steps(keep: bool) -> (r: Vec<QuitStep>)
    ensures
        r@ == way_out(keep),
{
    let mut r: Vec<QuitStep> = Vec::new();
    r.push(QuitStep::CloakOff);
    r.push(QuitStep::ReleasePad);
    if !keep {
        r.push(QuitStep::Eject);
    }
    assert(r@ =~= (if keep {
        seq![QuitStep::CloakOff, QuitStep::ReleasePad]
    } else {
        seq![QuitStep::CloakOff, QuitStep::ReleasePad, QuitStep::Eject]
    }));
    r
}

/// The style bit of a window without a place in the taskbar, and of one with it.
pub const TOOL_WINDOW: u32 = 0x0000_0080;

pub const APP_WINDOW: u32 = 0x0004_0000;

/// A window's style with or without its place in the taskbar. Exactly one of the two bits
/// is set, and no other changes.
pub fn set_taskbar_button(style: u32, show: bool) -> (r: u32)
    ensures
        show ==> r & TOOL_WINDOW == 0 && r & APP_WINDOW == APP_WINDOW,
        !show ==> r & TOOL_WINDOW == TOOL_WINDOW && r & APP_WINDOW == 0,
        r & !(TOOL_WINDOW | APP_WINDOW) == style & !(TOOL_WINDOW | APP_WINDOW),
{
    assert(((style & !0x80u32) | 0x4_0000u32) & 0x80u32 == 0 && ((style & !0x80u32) | 0x4_0000u32)
        & 0x4_0000u32 == 0x4_0000u32 && ((style & !0x80u32) | 0x4_0000u32) & !(0x80u32
        | 0x4_0000u32) == style & !(0x80u32 | 0x4_0000u32)) by (bit_vector);
    assert(((style | 0x80u32) & !0x4_0000u32) & 0x80u32 == 0x80u32 && ((style | 0x80u32)
        & !0x4_0000u32) & 0x4_0000u32 == 0 && ((style | 0x80u32) & !0x4_0000u32) & !(0x80u32
        | 0x4_0000u32) == style & !(0x80u32 | 0x4_0000u32)) by (bit_vector);
    if show {
        (style & !TOOL_WINDOW) | APP_WINDOW
    } else {
        (style | TOOL_WINDOW) & !APP_WINDOW
    }
}

/// Some argument is `word`.
pub open spec fn has_arg(args: Seq<String>, word: Seq<char>) -> bool {
    exists|i: int| 0 <= i < args.len() && (#[trigger] args[i])@ == word
}

/// Some argument begins with `word`.
pub open spec fn has_prefix(args: Seq<String>, word: Seq<char>) -> bool {
    exists|i: int| 0 <= i < args.len() && starts((#[trigger] args[i])@, word)
}

fn any_is(args: &Vec<String>, word: &str) -> (r: bool)
    ensures
        r == has_arg(args@, word@),
{
    let mut i: usize = 0;
    while i < args.len()
        invariant
            i <= args@.len(),
            forall|j: int| 0 <= j < i ==> (#[trigger] args@[j])@ != word@,
        decreases args@.len() - i,
    {
        if is_text(&chars_of(args[i].as_str()), word) {
            return true;
        }
        i += 1;
    }
    false
}

fn any_starts(args: &Vec<String>, word: &str) -> (r: bool)
    ensures
        r == has_prefix(args@, word@),
{
    let mut i: usize = 0;
    while i < args.len()
        invariant
            i <= args@.len(),
            forall|j: int| 0 <= j < i ==> !starts((#[trigger] args@[j])@, word@),
        decreases args@.len() - i,
    {
        if starts_with(&chars_of(args[i].as_str()), word) {
            return true;
        }
        i += 1;
    }
    false
}

/// What a start of the program is for.
#[derive(Clone, Copy, Debug, PartialEq, Eq, Structural)]
pub enum Launch {
    /// Write down the report layouts of all gamepads.
    HidProbe,
    /// Remove the virtual pad.
    Eject,
    /// Remove everything.
    Uninstall,
    /// Open the window, after setting up a pad if one is named.
    Window { setup: Option<PadType> },
}

/// The program may run beside another of its kind: a start that sets up or removes
/// something is short, and must not be turned away.
pub open spec fn exempt(args: Seq<String>) -> bool {
    ||| has_prefix(args, "--setup-"@)
    ||| has_arg(args, "--uninstall"@)
    ||| has_arg(args, "--eject"@)
    ||| has_arg(args, "--hid-probe"@)
}

/// Whether a start needs no claim to be the only one.
pub fn is_setup_run(args: &Vec<String>) -> (r: bool)
    ensures
        r == exempt(args@),
{
    any_starts(args, "--setup-") || any_is(args, "--uninstall") || any_is(args, "--eject")
        || any_is(args, "--hid-probe")
}

/// What a start with these arguments is for.
pub open spec fn launch_of(args: Seq<String>) -> Launch {
    if has_arg(args, "--hid-probe"@) {
        Launch::HidProbe
    } else if has_arg(args, "--eject"@) {
        Launch::Eject
    } else if has_arg(args, "--uninstall"@) {
        Launch::Uninstall
    } else {
        Launch::Window {
            setup: if has_arg(args, "--setup-xinput"@) {
                Some(PadType::Xinput)
            } else if has_arg(args, "--setup-hid"@) {
                Some(PadType::Hid)
            } else {
                None
            },
        }
    }
}

/// What a start of the program is for.
pub fn launch(args: &Vec<String>) -> (r: Launch)
    ensures
        r == launch_of(args@),
{
    if any_is(args, "--hid-probe") {
        return Launch::HidProbe;
    }
    if any_is(args, "--eject") {
        return Launch::Eject;
    }
    if any_is(args, "--uninstall") {
        return Launch::Uninstall;
    }
    let setup: Option<PadType> = if any_is(args, "--setup-xinput") {
        Some(PadType::Xinput)
    } else if any_is(args, "--setup-hid") {
        Some(PadType::Hid)
    } else {
        None
    };
    Launch::Window { setup }
}

/// Whether the window shows at once: it does unless the tray was asked for.
pub fn starts_visible(args: &Vec<String>) -> (r: bool)
    ensures
        r == !has_arg(args@, "--tray"@),
{
    !any_is(args, "--tray")
}

/// A program whose claim came out so may go on.
pub open spec fn may_run(made: bool, denied: bool, existed: bool) -> bool {
    if made {
        !existed
    } else {
        !denied
    }
}

/// Whether this program may go on, given what came of its claim to be the only one:
/// whether the mutex was made, whether access to it was denied, and whether it was there
/// before. Denied means that one runs at a higher level.
pub fn claim_single_instance(made: bool, denied: bool, existed: bool) -> (r: bool)
    ensures
        r == may_run(made, denied, existed),
{
    if made {
        !existed
    } else {
        !denied
    }
}

/// Two uses of the bypass leave the switch as it was.
pub proof fn law_bypass_twice_is_nothing(enabled: u32)
    requires
        enabled <= 1,
    ensures
        bypassed(bypassed(enabled)) == enabled,
{
}

/// What is chosen is what is then checked: a window's own mark and no other's, for every
/// player; the bypass turns the mark of the switch round and leaves the windows.
pub proof fn law_a_choice_is_checked(a: SharedState, b: SharedState, c: MenuChoice)
    requires
        is_chosen(a, b, c),
    ensures
        ({
            let (before, m) = (checks_of(a), checks_of(b));
            &&& c is Window3 ==> m.w3 && !m.w5 && !m.w8 && b.window_ms@[0] == 3 && b.window_ms@[1]
                == 3
            &&& c is Window5 ==> !m.w3 && m.w5 && !m.w8 && b.window_ms@[0] == 5 && b.window_ms@[1]
                == 5
            &&& c is Window8 ==> !m.w3 && !m.w5 && m.w8 && b.window_ms@[0] == 8 && b.window_ms@[1]
                == 8
            &&& c is Bypass ==> m.enabled == !before.enabled && m.w3 == before.w3 && m.w5
                == before.w5 && m.w8 == before.w8
            &&& !(c is Bypass) ==> m.enabled == before.enabled
        }),
{
}

/// A window is checked only where both players have it.
pub proof fn law_a_check_is_for_both_players(s: SharedState)
    ensures
        checks_of(s).w3 ==> s.window_ms@[0] == 3 && s.window_ms@[1] == 3,
        checks_of(s).w5 ==> s.window_ms@[0] == 5 && s.window_ms@[1] == 5,
        checks_of(s).w8 ==> s.window_ms@[0] == 8 && s.window_ms@[1] == 8,
        checks_of(s).enabled <==> s.enabled != 0,
{
}

/// On the way out the stick is shown first and the pad is let go before it is taken away,
/// which it is unless it is to stay.
pub proof fn law_the_way_out(keep: bool)
    ensures
        way_out(keep)[0] is CloakOff,
        way_out(keep)[1] is ReleasePad,
        way_out(keep).contains(QuitStep::Eject) <==> !keep,
        way_out(keep).contains(QuitStep::Eject) ==> way_out(keep)[2] is Eject,
        way_out(keep).len() <= 3,
{
    let w = way_out(keep);
    if !keep {
        assert(w[2] is Eject);
    }
}

/// A start that does anything but open the window needs no claim to be the only one.
pub proof fn law_work_runs_are_exempt(args: Seq<String>)
    ensures
        launch_of(args) != (Launch::Window { setup: None }) ==> exempt(args),
        !exempt(args) ==> launch_of(args) == (Launch::Window { setup: None }),
{
    reveal_strlit("--setup-");
    reveal_strlit("--setup-xinput");
    reveal_strlit("--setup-hid");
    assert("--setup-xinput"@.subrange(0, 8) =~= "--setup-"@);
    assert("--setup-hid"@.subrange(0, 8) =~= "--setup-"@);
    if has_arg(args, "--setup-xinput"@) {
        let i = choose|i: int| 0 <= i < args.len() && (#[trigger] args[i])@ == "--setup-xinput"@;
        assert(starts(args[i]@, "--setup-"@));
    }
    if has_arg(args, "--setup-hid"@) {
        let i = choose|i: int| 0 <= i < args.len() && (#[trigger] args[i])@ == "--setup-hid"@;
        assert(starts(args[i]@, "--setup-"@));
    }
}

/// A second program does not run: neither beside one that holds the claim, nor beside one
/// whose claim it may not even see. Where there is no claim to be had, the program runs.
pub proof fn law_one_program_runs(denied: bool)
    ensures
        !may_run(true, denied, true),
        may_run(true, denied, false),
        !may_run(false, true, false) && !may_run(false, true, true),
        may_run(false, false, false),
{
}

} // verus!
