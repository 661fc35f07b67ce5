//! The buttons of a gamepad, by position.

use vstd::prelude::*;
use vstd::string::StringExecFns;

verus! {

/// A button, named by where it sits rather than by what is printed on it.
#[derive(Clone, Copy, Debug, PartialEq, Eq, Structural)]
pub enum Button {
    South,
    East,
    North,
    West,
    C,
    Z,
    LeftTrigger,
    LeftTrigger2,
    RightTrigger,
    RightTrigger2,
    Select,
    Start,
    Mode,
    LeftThumb,
    RightThumb,
    DPadUp,
    DPadDown,
    DPadLeft,
    DPadRight,
    Unknown,
}

/// How many buttons there are.
pub const BUTTONS: usize = 20;

/// The place of a button among all of them, in the order of their names.
pub open spec fn rank(b: Button) -> int {
    match b {
        Button::C => 0,
        Button::DPadDown => 1,
        Button::DPadLeft => 2,
        Button::DPadRight => 3,
        Button::DPadUp => 4,
        Button::East => 5,
        Button::LeftThumb => 6,
        Button::LeftTrigger => 7,
        Button::LeftTrigger2 => 8,
        Button::Mode => 9,
        Button::North => 10,
        Button::RightThumb => 11,
        Button::RightTrigger => 12,
        Button::RightTrigger2 => 13,
        Button::Select => 14,
        Button::South => 15,
        Button::Start => 16,
        Button::Unknown => 17,
        Button::West => 18,
        Button::Z => 19,
    }
}

/// The button at a place.
pub open spec fn ranked(i: int) -> Button {
    if i == 0 {
        Button::C
    } else if i == 1 {
        Button::DPadDown
    } else if i == 2 {
        Button::DPadLeft
    } else if i == 3 {
        Button::DPadRight
    } else if i == 4 {
        Button::DPadUp
    } else if i == 5 {
        Button::East
    } else if i == 6 {
        Button::LeftThumb
    } else if i == 7 {
        Button::LeftTrigger
    } else if i == 8 {
        Button::LeftTrigger2
    } else if i == 9 {
        Button::Mode
    } else if i == 10 {
        Button::North
    } else if i == 11 {
        Button::RightThumb
    } else if i == 12 {
        Button::RightTrigger
    } else if i == 13 {
        Button::RightTrigger2
    } else if i == 14 {
        Button::Select
    } else if i == 15 {
        Button::South
    } else if i == 16 {
        Button::Start
    } else if i == 17 {
        Button::Unknown
    } else if i == 18 {
        Button::West
    } else {
        Button::Z
    }
}

/// No two buttons share a place, and every place has its button.
pub proof fn law_ranks_are_places(b: Button, i: int)
    requires
        0 <= i < BUTTONS,
    ensures
        0 <= rank(b) < BUTTONS,
        ranked(rank(b)) == b,
        rank(ranked(i)) == i,
{
}

/// The place of `b` in the order of names.
pub fn place(b: Button) -> (r: usize)
    ensures
        r == rank(b),
        r < BUTTONS,
{
    match b {
        Button::C => 0,
        Button::DPadDown => 1,
        Button::DPadLeft => 2,
        Button::DPadRight => 3,
        Button::DPadUp => 4,
        Button::East => 5,
        Button::LeftThumb => 6,
        Button::LeftTrigger => 7,
        Button::LeftTrigger2 => 8,
        Button::Mode => 9,
        Button::North => 10,
        Button::RightThumb => 11,
        Button::RightTrigger => 12,
        Button::RightTrigger2 => 13,
        Button::Select => 14,
        Button::South => 15,
        Button::Start => 16,
        Button::Unknown => 17,
        Button::West => 18,
        Button::Z => 19,
    }
}

/// The button at place `i`.
pub fn at_place(i: usize) -> (r: Button)
    requires
        i < BUTTONS,
    ensures
        r == ranked(i as int),
        rank(r) == i,
{
    match i {
        0 => Button::C,
        1 => Button::DPadDown,
        2 => Button::DPadLeft,
        3 => Button::DPadRight,
        4 => Button::DPadUp,
        5 => Button::East,
        6 => Button::LeftThumb,
        7 => Button::LeftTrigger,
        8 => Button::LeftTrigger2,
        9 => Button::Mode,
        10 => Button::North,
        11 => Button::RightThumb,
        12 => Button::RightTrigger,
        13 => Button::RightTrigger2,
        14 => Button::Select,
        15 => Button::South,
        16 => Button::Start,
        17 => Button::Unknown,
        18 => Button::West,
        _ => Button::Z,
    }
}

/// The label of a button on the usual pads; the button's own name for the rest.
pub open spec fn label(b: Button) -> Seq<char> {
    match b {
        Button::South => "A/Cross"@,
        Button::East => "B/Circle"@,
        Button::West => "X/Square"@,
        Button::North => "Y/Triangle"@,
        Button::LeftTrigger => "LB/L1"@,
        Button::RightTrigger => "RB/R1"@,
        Button::LeftTrigger2 => "LT/L2"@,
        Button::RightTrigger2 => "RT/R2"@,
        Button::LeftThumb => "LS"@,
        Button::RightThumb => "RS"@,
        Button::Select => "Back/Select"@,
        Button::Start => "Start"@,
        Button::DPadUp => "DPad Up"@,
        Button::DPadDown => "DPad Down"@,
        Button::DPadLeft => "DPad Left"@,
        Button::DPadRight => "DPad Right"@,
        Button::Mode => "Mode"@,
        Button::C => "C"@,
        Button::Z => "Z"@,
        Button::Unknown => "Unknown"@,
    }
}

/// How a button is shown.
pub fn format_button(button: Button) -> (r: String)
    ensures
        r@ == label(button),
{
    String::from_str(label_of(button))
}

fn label_of(button: Button) -> (r: &'static str)
    ensures
        r@ == label(button),
{
    match button {
        Button::South => "A/Cross",
        Button::East => "B/Circle",
        Button::West => "X/Square",
        Button::North => "Y/Triangle",
        Button::LeftTrigger => "LB/L1",
        Button::RightTrigger => "RB/R1",
        Button::LeftTrigger2 => "LT/L2",
        Button::RightTrigger2 => "RT/R2",
        Button::LeftThumb => "LS",
        Button::RightThumb => "RS",
        Button::Select => "Back/Select",
        Button::Start => "Start",
        Button::DPadUp => "DPad Up",
        Button::DPadDown => "DPad Down",
        Button::DPadLeft => "DPad Left",
        Button::DPadRight => "DPad Right",
        Button::Mode => "Mode",
        Button::C => "C",
        Button::Z => "Z",
        Button::Unknown => "Unknown",
    }
}

/// The eight attack buttons: the face buttons, the shoulders and the triggers.
pub open spec fn attack(b: Button) -> bool {
    ||| b is South
    ||| b is East
    ||| b is West
    ||| b is North
    ||| b is LeftTrigger
    ||| b is RightTrigger
    ||| b is LeftTrigger2
    ||| b is RightTrigger2
}

/// Whether `b` takes part in gap pairing. Directions, Start, Select and the stick
/// clicks do not: they would make false pairs.
pub fn is_attack(b: Button) -> (r: bool)
    ensures
        r == attack(b),
{
    match b {
        Button::South | Button::East | Button::West | Button::North => true,
        Button::LeftTrigger | Button::RightTrigger => true,
        Button::LeftTrigger2 | Button::RightTrigger2 => true,
        _ => false,
    }
}

/// The button of a HID button index, where there is one. The first eight are the
/// attacks.
pub open spec fn hid_button(idx: int) -> Option<Button> {
    if idx == 0 {
        Some(Button::South)
    } else if idx == 1 {
        Some(Button::East)
    } else if idx == 2 {
        Some(Button::West)
    } else if idx == 3 {
        Some(Button::North)
    } else if idx == 4 {
        Some(Button::LeftTrigger)
    } else if idx == 5 {
        Some(Button::RightTrigger)
    } else if idx == 6 {
        Some(Button::LeftTrigger2)
    } else if idx == 7 {
        Some(Button::RightTrigger2)
    } else if idx == 8 {
        Some(Button::Select)
    } else if idx == 9 {
        Some(Button::Start)
    } else if idx == 10 {
        Some(Button::LeftThumb)
    } else if idx == 11 {
        Some(Button::RightThumb)
    } else if idx == 12 {
        Some(Button::Mode)
    } else if idx == 13 {
        Some(Button::C)
    } else if idx == 14 {
        Some(Button::Z)
    } else if idx == 15 {
        Some(Button::Unknown)
    } else {
        None
    }
}

/// The button of a HID button index; an index out of range is no button.
pub fn map_button(idx: usize) -> (r: Option<Button>)
    ensures
        r == hid_button(idx as int),
{
    match idx {
        0 => Some(Button::South),
        1 => Some(Button::East),
        2 => Some(Button::West),
        3 => Some(Button::North),
        4 => Some(Button::LeftTrigger),
        5 => Some(Button::RightTrigger),
        6 => Some(Button::LeftTrigger2),
        7 => Some(Button::RightTrigger2),
        8 => Some(Button::Select),
        9 => Some(Button::Start),
        10 => Some(Button::LeftThumb),
        11 => Some(Button::RightThumb),
        12 => Some(Button::Mode),
        13 => Some(Button::C),
        14 => Some(Button::Z),
        15 => Some(Button::Unknown),
        _ => None,
    }
}

/// The HID indices of the attacks are the first eight.
pub proof fn law_first_eight_are_the_attacks(idx: int)
    requires
        0 <= idx,
    ensures
        idx < 8 <==> (hid_button(idx) matches Some(b) && attack(b)),
{
}

/// Every HID index up to 15 has a button of its own, and none from 16 on has one.
pub proof fn law_each_index_has_its_own_button(i: int, j: int)
    requires
        0 <= i,
        0 <= j,
    ensures
        hid_button(i) is Some <==> i < 16,
        i < 16 && hid_button(i) == hid_button(j) ==> i == j,
{
}

/// Directions, the two small buttons, the stick clicks and the unnamed ones take no part in
/// pairing; the four faces, the shoulders and the triggers do: eight in all.
pub proof fn law_the_rest_are_no_attacks(b: Button)
    ensures
        attack(b) <==> !(b is DPadUp || b is DPadDown || b is DPadLeft || b is DPadRight
            || b is Start || b is Select || b is Mode || b is LeftThumb || b is RightThumb || b is C
            || b is Z || b is Unknown),
{
}

} // verus!
