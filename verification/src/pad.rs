//! The state of a pad, shared by every source and sink.
//!
//! Buttons are in the XInput layout, so that the window, the masks and the
//! counters mean the same for every source.

use crate::text::{
    chars_of, is_text, lower, lowered, split, split_char, texts, trim, trimmed,
};
use vstd::prelude::*;

pub mod bit;

verus! {

/// The six attack buttons of a fighting-game layout: A, B, X, Y, LB, RB.
pub const ATTACK_MASK: u16 = 0xF300;

/// Everything a source produces and a sink consumes.
#[derive(Clone, Copy, PartialEq, Eq, Debug, Structural)]
pub struct PadState {
    pub buttons: u16,
    pub lt: u8,
    pub rt: u8,
    pub lx: i16,
    pub ly: i16,
    pub rx: i16,
    pub ry: i16,
}

/// Nothing is pressed and the sticks are centred.
pub open spec fn neutral() -> PadState {
    PadState { buttons: 0, lt: 0, rt: 0, lx: 0, ly: 0, rx: 0, ry: 0 }
}

impl Default for PadState {
    fn default() -> (r: Self)
        ensures
            r == neutral(),
    {
        PadState { buttons: 0, lt: 0, rt: 0, lx: 0, ly: 0, rx: 0, ry: 0 }
    }
}

impl PadState {
    /// The state with another button word. Sticks and triggers are kept, so
    /// motion inputs are never delayed.
    pub fn with_buttons(self, buttons: u16) -> (r: Self)
        ensures
            r == (PadState { buttons, ..self }),
    {
        PadState { buttons, ..self }
    }
}

/// The name of a button bit.
pub open spec fn name_of(b: u16) -> Seq<char> {
    if b == bit::DPAD_UP {
        "Up"@
    } else if b == bit::DPAD_DOWN {
        "Down"@
    } else if b == bit::DPAD_LEFT {
        "Left"@
    } else if b == bit::DPAD_RIGHT {
        "Right"@
    } else if b == bit::START {
        "Start"@
    } else if b == bit::BACK {
        "Back"@
    } else if b == bit::LEFT_THUMB {
        "LS"@
    } else if b == bit::RIGHT_THUMB {
        "RS"@
    } else if b == bit::LEFT_SHOULDER {
        "LB"@
    } else if b == bit::RIGHT_SHOULDER {
        "RB"@
    } else if b == bit::GUIDE {
        "Guide"@
    } else if b == bit::A {
        "A"@
    } else if b == bit::B {
        "B"@
    } else if b == bit::X {
        "X"@
    } else if b == bit::Y {
        "Y"@
    } else {
        "?"@
    }
}

/// The name of a button bit, for people.
pub fn button_name(b: u16) -> (r: &'static str)
    ensures
        r@ == name_of(b),
{
    if b == bit::DPAD_UP {
        "Up"
    } else if b == bit::DPAD_DOWN {
        "Down"
    } else if b == bit::DPAD_LEFT {
        "Left"
    } else if b == bit::DPAD_RIGHT {
        "Right"
    } else if b == bit::START {
        "Start"
    } else if b == bit::BACK {
        "Back"
    } else if b == bit::LEFT_THUMB {
        "LS"
    } else if b == bit::RIGHT_THUMB {
        "RS"
    } else if b == bit::LEFT_SHOULDER {
        "LB"
    } else if b == bit::RIGHT_SHOULDER {
        "RB"
    } else if b == bit::GUIDE {
        "Guide"
    } else if b == bit::A {
        "A"
    } else if b == bit::B {
        "B"
    } else if b == bit::X {
        "X"
    } else if b == bit::Y {
        "Y"
    } else {
        "?"
    }
}

/// The bit that a token names.
pub open spec fn token_bit(t: Seq<char>) -> Option<u16> {
    if t == "a"@ {
        Some(bit::A)
    } else if t == "b"@ {
        Some(bit::B)
    } else if t == "x"@ {
        Some(bit::X)
    } else if t == "y"@ {
        Some(bit::Y)
    } else if t == "lb"@ || t == "l1"@ {
        Some(bit::LEFT_SHOULDER)
    } else if t == "rb"@ || t == "r1"@ {
        Some(bit::RIGHT_SHOULDER)
    } else if t == "ls"@ || t == "l3"@ {
        Some(bit::LEFT_THUMB)
    } else if t == "rs"@ || t == "r3"@ {
        Some(bit::RIGHT_THUMB)
    } else if t == "start"@ {
        Some(bit::START)
    } else if t == "back"@ || t == "select"@ {
        Some(bit::BACK)
    } else if t == "up"@ {
        Some(bit::DPAD_UP)
    } else if t == "down"@ {
        Some(bit::DPAD_DOWN)
    } else if t == "left"@ {
        Some(bit::DPAD_LEFT)
    } else if t == "right"@ {
        Some(bit::DPAD_RIGHT)
    } else {
        None
    }
}

/// The mask that the first `n` parts of a list name. An empty part names nothing.
pub open spec fn parts_mask(parts: Seq<Seq<char>>, n: int) -> Option<u16>
    decreases n,
{
    if n <= 0 {
        Some(0)
    } else {
        match parts_mask(parts, n - 1) {
            None => None,
            Some(m) => {
                let t = trim(parts[n - 1]);
                if t.len() == 0 {
                    Some(m)
                } else {
                    match token_bit(lower(t)) {
                        Some(b) => Some(m | b),
                        None => None,
                    }
                }
            },
        }
    }
}

/// The mask that a comma-separated list of buttons names, in either case.
pub open spec fn mask_of(s: Seq<char>) -> Option<u16> {
    parts_mask(split(s, ','), split(s, ',').len() as int)
}

/// A part that names nothing spoils the whole list.
proof fn lemma_bad_part(parts: Seq<Seq<char>>, n: int, m: int)
    requires
        n <= m,
        parts_mask(parts, n) is None,
    ensures
        parts_mask(parts, m) is None,
    decreases m,
{
    if n < m && m > 0 {
        lemma_bad_part(parts, n, m - 1);
    }
}

/// The bit that a token names.
fn bit_of(t: &Vec<char>) -> (r: Option<u16>)
    ensures
        r == token_bit(t@),
{
    if is_text(t, "a") {
        Some(bit::A)
    } else if is_text(t, "b") {
        Some(bit::B)
    } else if is_text(t, "x") {
        Some(bit::X)
    } else if is_text(t, "y") {
        Some(bit::Y)
    } else if is_text(t, "lb") || is_text(t, "l1") {
        Some(bit::LEFT_SHOULDER)
    } else if is_text(t, "rb") || is_text(t, "r1") {
        Some(bit::RIGHT_SHOULDER)
    } else if is_text(t, "ls") || is_text(t, "l3") {
        Some(bit::LEFT_THUMB)
    } else if is_text(t, "rs") || is_text(t, "r3") {
        Some(bit::RIGHT_THUMB)
    } else if is_text(t, "start") {
        Some(bit::START)
    } else if is_text(t, "back") || is_text(t, "select") {
        Some(bit::BACK)
    } else if is_text(t, "up") {
        Some(bit::DPAD_UP)
    } else if is_text(t, "down") {
        Some(bit::DPAD_DOWN)
    } else if is_text(t, "left") {
        Some(bit::DPAD_LEFT)
    } else if is_text(t, "right") {
        Some(bit::DPAD_RIGHT)
    } else {
        None
    }
}

/// Read a comma-separated list of buttons ("a,b,x,y,lb,rb") as a mask, so that a
/// player can scope the window to exactly the buttons they chord. `None` where a
/// name is not known.
pub fn parse_mask(s: &str) -> (r: Option<u16>)
    ensures
        r == mask_of(s@),
{
    let v: Vec<char> = chars_of(s);
    let parts: Vec<Vec<char>> = split_char(&v, ',');
    let ghost ps = texts(parts@);
    let mut m: u16 = 0;
    let mut i: usize = 0;
    while i < parts.len()
        invariant
            i <= parts@.len(),
            ps == texts(parts@),
            ps == split(s@, ','),
            parts_mask(ps, i as int) == Some(m),
        decreases parts@.len() - i,
    {
        assert(ps[i as int] == parts@[i as int]@);
        let t: Vec<char> = trimmed(&parts[i]);
        if t.len() != 0 {
            match bit_of(&lowered(&t)) {
                Some(b) => {
                    m = m | b;
                },
                None => {
                    proof {
                        lemma_bad_part(ps, i + 1, ps.len() as int);
                    }
                    return None;
                },
            }
        }
        i = i + 1;
    }
    Some(m)
}

/// The bit of a token in place `k` of a list; none where it is empty.
pub open spec fn part_bit(parts: Seq<Seq<char>>, k: int) -> Option<u16> {
    if trim(parts[k]).len() == 0 {
        None
    } else {
        token_bit(lower(trim(parts[k])))
    }
}

/// A list names a mask exactly where every part of it is empty or names a button, and the
/// mask then holds the buttons that are named and no other, in whatever order and however
/// often they stand in it.
pub proof fn law_a_mask_holds_what_is_named(parts: Seq<Seq<char>>, n: int)
    requires
        0 <= n <= parts.len(),
    ensures
        parts_mask(parts, n) is Some <==> forall|k: int|
            0 <= k < n ==> trim(#[trigger] parts[k]).len() == 0 || part_bit(parts, k) is Some,
        parts_mask(parts, n) matches Some(m) ==> forall|i: int|
            0 <= i < 16 ==> (#[trigger] crate::bits::bit(m, i) <==> exists|k: int|
                0 <= k < n && (#[trigger] part_bit(parts, k)) is Some && crate::bits::bit(
                    part_bit(parts, k)->0,
                    i,
                )),
    decreases n,
{
    broadcast use crate::bits::group_bit;

    if n > 0 {
        law_a_mask_holds_what_is_named(parts, n - 1);
        let b = part_bit(parts, n - 1);
        assert(trim(parts[n - 1]).len() == 0 || b == token_bit(lower(trim(parts[n - 1]))));
        if parts_mask(parts, n) is Some {
            let m = parts_mask(parts, n)->0;
            let h = parts_mask(parts, n - 1)->0;
            assert forall|i: int| 0 <= i < 16 implies (#[trigger] crate::bits::bit(m, i)
                <==> exists|k: int|
                0 <= k < n && (#[trigger] part_bit(parts, k)) is Some && crate::bits::bit(
                    part_bit(parts, k)->0,
                    i,
                )) by {
                if crate::bits::bit(h, i) {
                    let k = choose|k: int|
                        0 <= k < n - 1 && (#[trigger] part_bit(parts, k)) is Some
                            && crate::bits::bit(part_bit(parts, k)->0, i);
                    assert(0 <= k < n && part_bit(parts, k) is Some);
                }
                if exists|k: int|
                    0 <= k < n && (#[trigger] part_bit(parts, k)) is Some && crate::bits::bit(
                        part_bit(parts, k)->0,
                        i,
                    ) {
                    let k = choose|k: int|
                        0 <= k < n && (#[trigger] part_bit(parts, k)) is Some && crate::bits::bit(
                            part_bit(parts, k)->0,
                            i,
                        );
                    if k < n - 1 {
                        assert(0 <= k < n - 1 && part_bit(parts, k) is Some);
                    }
                }
            }
        }
    }
}

/// A token names one button alone.
pub proof fn law_a_token_names_one_button(t: Seq<char>)
    ensures
        token_bit(t) matches Some(b) ==> crate::bits::ones(b) == 1,
{
    if let Some(b) = token_bit(t) {
        crate::bits::lemma_flags();
        crate::bits::lemma_one_or_more(b, 16);
        crate::bits::lemma_two_or_more(b, 16);
        lemma_some_bit(b);
    }
}

proof fn lemma_some_bit(b: u16)
    requires
        b == 0x0001 || b == 0x0002 || b == 0x0004 || b == 0x0008 || b == 0x0010 || b == 0x0020 || b
            == 0x0040 || b == 0x0080 || b == 0x0100 || b == 0x0200 || b == 0x1000 || b == 0x2000
            || b == 0x4000 || b == 0x8000,
    ensures
        exists|i: int| 0 <= i < 16 && crate::bits::bit(b, i),
{
    crate::bits::lemma_zero_word(b);
}

/// The name that a button is shown by, in small letters, names it in a list: what is read
/// gives back what is shown, for every button that a list can name.
pub proof fn law_a_shown_name_is_read_back(b: u16)
    requires
        name_of(b) != "?"@,
        b != 0x0400,
    ensures
        token_bit(lower(name_of(b))) == Some(b),
{
    reveal_strlit("Up");
    reveal_strlit("Down");
    reveal_strlit("Left");
    reveal_strlit("Right");
    reveal_strlit("Start");
    reveal_strlit("Back");
    reveal_strlit("LS");
    reveal_strlit("RS");
    reveal_strlit("LB");
    reveal_strlit("RB");
    reveal_strlit("A");
    reveal_strlit("B");
    reveal_strlit("X");
    reveal_strlit("Y");
    reveal_strlit("?");
    reveal_strlit("a");
    reveal_strlit("b");
    reveal_strlit("x");
    reveal_strlit("y");
    reveal_strlit("lb");
    reveal_strlit("l1");
    reveal_strlit("rb");
    reveal_strlit("r1");
    reveal_strlit("ls");
    reveal_strlit("l3");
    reveal_strlit("rs");
    reveal_strlit("r3");
    reveal_strlit("start");
    reveal_strlit("back");
    reveal_strlit("select");
    reveal_strlit("up");
    reveal_strlit("down");
    reveal_strlit("left");
    reveal_strlit("right");
    assert("a"@[0] == 'a');
    assert("b"@[0] == 'b');
    assert("x"@[0] == 'x');
    assert("y"@[0] == 'y');
    assert("lb"@[0] == 'l' && "lb"@[1] == 'b');
    assert("l1"@[0] == 'l' && "l1"@[1] == '1');
    assert("rb"@[0] == 'r' && "rb"@[1] == 'b');
    assert("r1"@[0] == 'r' && "r1"@[1] == '1');
    assert("ls"@[0] == 'l' && "ls"@[1] == 's');
    assert("l3"@[0] == 'l' && "l3"@[1] == '3');
    assert("rs"@[0] == 'r' && "rs"@[1] == 's');
    assert("r3"@[0] == 'r' && "r3"@[1] == '3');
    assert("start"@[0] == 's' && "start"@[1] == 't');
    assert("back"@[0] == 'b' && "back"@[1] == 'a');
    assert("select"@[0] == 's' && "select"@[1] == 'e');
    assert("up"@[0] == 'u' && "up"@[1] == 'p');
    assert("down"@[0] == 'd' && "down"@[1] == 'o');
    assert("left"@[0] == 'l' && "left"@[1] == 'e');
    assert("right"@[0] == 'r' && "right"@[1] == 'i');
    let l = lower(name_of(b));
    if b == 0x0001 {
        assert(l =~= "up"@);
    } else if b == 0x0002 {
        assert(l =~= "down"@);
    } else if b == 0x0004 {
        assert(l =~= "left"@);
    } else if b == 0x0008 {
        assert(l =~= "right"@);
    } else if b == 0x0010 {
        assert(l =~= "start"@);
    } else if b == 0x0020 {
        assert(l =~= "back"@);
    } else if b == 0x0040 {
        assert(l =~= "ls"@);
    } else if b == 0x0080 {
        assert(l =~= "rs"@);
    } else if b == 0x0100 {
        assert(l =~= "lb"@);
    } else if b == 0x0200 {
        assert(l =~= "rb"@);
    } else if b == 0x1000 {
        assert(l =~= "a"@);
    } else if b == 0x2000 {
        assert(l =~= "b"@);
    } else if b == 0x4000 {
        assert(l =~= "x"@);
    } else if b == 0x8000 {
        assert(l =~= "y"@);
    }
}

} // verus!
