//! The report of the XInput companion: fourteen bytes.
//!
//! Sticks are unsigned 16-bit with the low byte first, the vertical ones counted
//! downward; triggers have ten bits; then two bytes of buttons, the second with
//! the hat in its bits 2 to 5.

use crate::pad::{bit, PadState};
use vstd::prelude::*;

verus! {

pub const GIP_LEN: usize = 14;

/// A button is down.
pub open spec fn down(buttons: u16, mask: u16) -> bool {
    buttons & mask != 0
}

/// 1 for a button that is down, else 0.
pub open spec fn one(b: bool) -> int {
    if b {
        1
    } else {
        0
    }
}

/// The hat of four directions, clockwise from 1 for up; 0 where they name none.
pub open spec fn hat_of(up: bool, right: bool, down: bool, left: bool) -> int {
    if up && !right && !down && !left {
        1
    } else if up && right && !down && !left {
        2
    } else if !up && right && !down && !left {
        3
    } else if !up && right && down && !left {
        4
    } else if !up && !right && down && !left {
        5
    } else if !up && !right && down && left {
        6
    } else if !up && !right && !down && left {
        7
    } else if up && !right && !down && left {
        8
    } else {
        0
    }
}

/// The hat of a button word.
pub open spec fn word_hat(buttons: u16) -> int {
    hat_of(
        down(buttons, bit::DPAD_UP),
        down(buttons, bit::DPAD_RIGHT),
        down(buttons, bit::DPAD_DOWN),
        down(buttons, bit::DPAD_LEFT),
    )
}

/// The hat of a button word: 1 for up, clockwise to 8, 0 for neutral.
pub fn hat(buttons: u16) -> (r: u8)
    ensures
        r == word_hat(buttons),
        r <= 8,
{
    let up: bool = buttons & bit::DPAD_UP != 0;
    let down: bool = buttons & bit::DPAD_DOWN != 0;
    let left: bool = buttons & bit::DPAD_LEFT != 0;
    let right: bool = buttons & bit::DPAD_RIGHT != 0;
    match (up, right, down, left) {
        (true, false, false, false) => 1,
        (true, true, false, false) => 2,
        (false, true, false, false) => 3,
        (false, true, true, false) => 4,
        (false, false, true, false) => 5,
        (false, false, true, true) => 6,
        (false, false, false, true) => 7,
        (true, false, false, true) => 8,
        _ => 0,
    }
}

/// The first byte of buttons.
pub open spec fn low_byte(w: u16) -> int {
    one(down(w, bit::A)) + 2 * one(down(w, bit::B)) + 4 * one(down(w, bit::X)) + 8 * one(
        down(w, bit::Y),
    ) + 16 * one(down(w, bit::LEFT_SHOULDER)) + 32 * one(down(w, bit::RIGHT_SHOULDER)) + 64 * one(
        down(w, bit::LEFT_THUMB),
    ) + 128 * one(down(w, bit::RIGHT_THUMB))
}

/// The second byte of buttons, with the hat.
pub open spec fn high_byte(w: u16) -> int {
    one(down(w, bit::BACK)) + 2 * one(down(w, bit::START)) + 4 * word_hat(w) + 64 * one(
        down(w, bit::GUIDE),
    )
}

/// A trigger in ten bits.
pub open spec fn trigger10(t: u8) -> int {
    t * 1023 / 255
}

/// A number of two bytes, the low one first.
pub open spec fn pair(g: Seq<u8>, i: int) -> int {
    g[i] + 256 * g[i + 1]
}

fn flag(buttons: u16, mask: u16) -> (r: u8)
    ensures
        r == one(down(buttons, mask)),
{
    if buttons & mask != 0 {
        1
    } else {
        0
    }
}

fn put_pair(g: &mut [u8; 14], i: usize, v: u16)
    requires
        i < 13,
    ensures
        pair(final(g)@, i as int) == v,
        forall|k: int|
            0 <= k < 14 && k != i && k != i + 1 ==> #[trigger] final(g)@[k] == old(g)@[k],
{
    g[i] = (v % 256) as u8;
    g[i + 1] = (v / 256) as u8;
}

/// The fourteen bytes of a pad state.
pub open spec fn is_packed(g: Seq<u8>, s: PadState) -> bool {
    &&& g.len() == 14
    &&& pair(g, 0) == s.lx + 32768
    &&& pair(g, 2) == 32767 - s.ly
    &&& pair(g, 4) == s.rx + 32768
    &&& pair(g, 6) == 32767 - s.ry
    &&& pair(g, 8) == trigger10(s.lt)
    &&& pair(g, 10) == trigger10(s.rt)
    &&& g[12] == low_byte(s.buttons)
    &&& g[13] == high_byte(s.buttons)
}

/// Pack a pad state into the fourteen bytes.
pub fn pack(buttons: u16, lt: u8, rt: u8, lx: i16, ly: i16, rx: i16, ry: i16) -> (g: [u8; 14])
    ensures
        pair(g@, 0) == lx + 32768,
        pair(g@, 2) == 32767 - ly,
        pair(g@, 4) == rx + 32768,
        pair(g@, 6) == 32767 - ry,
        pair(g@, 8) == trigger10(lt),
        pair(g@, 10) == trigger10(rt),
        g@[12] == low_byte(buttons),
        g@[13] == high_byte(buttons),
        is_packed(g@, (PadState { buttons, lt, rt, lx, ly, rx, ry })),
{
    let mut g: [u8; 14] = [0; 14];
    put_pair(&mut g, 0, (lx as i32 + 32768) as u16);
    put_pair(&mut g, 2, (32767 - ly as i32) as u16);
    put_pair(&mut g, 4, (rx as i32 + 32768) as u16);
    put_pair(&mut g, 6, (32767 - ry as i32) as u16);
    put_pair(&mut g, 8, (lt as u32 * 1023 / 255) as u16);
    put_pair(&mut g, 10, (rt as u32 * 1023 / 255) as u16);
    let low: u8 = flag(buttons, bit::A) + 2 * flag(buttons, bit::B) + 4 * flag(buttons, bit::X) + 8
        * flag(buttons, bit::Y) + 16 * flag(buttons, bit::LEFT_SHOULDER) + 32 * flag(
        buttons,
        bit::RIGHT_SHOULDER,
    ) + 64 * flag(buttons, bit::LEFT_THUMB) + 128 * flag(buttons, bit::RIGHT_THUMB);
    let high: u8 = flag(buttons, bit::BACK) + 2 * flag(buttons, bit::START) + 4 * hat(buttons) + 64
        * flag(buttons, bit::GUIDE);
    g[12] = low;
    g[13] = high;
    g
}

/// Opposite directions cancel: a hat that cannot show them shows neutral.
pub proof fn law_opposite_directions_are_neutral(w: u16)
    requires
        (down(w, bit::DPAD_UP) && down(w, bit::DPAD_DOWN)) || (down(w, bit::DPAD_LEFT) && down(
            w,
            bit::DPAD_RIGHT,
        )),
    ensures
        word_hat(w) == 0,
{
}

/// The hat runs clockwise from up and can be read back: it shows up at north-west, north and
/// north-east, right at the three eastern points, down at the three southern and left at the
/// three western ones; and for a word without opposite directions these are the word's own.
pub proof fn law_the_hat_reads_back(w: u16)
    ensures
        ({
            let h = word_hat(w);
            let (up, down, left, right) = (
                crate::bits::bit(w, 0),
                crate::bits::bit(w, 1),
                crate::bits::bit(w, 2),
                crate::bits::bit(w, 3),
            );
            &&& 0 <= h <= 8
            &&& !(up && down) && !(left && right) ==> {
                &&& up <==> (h == 8 || h == 1 || h == 2)
                &&& right <==> 2 <= h <= 4
                &&& down <==> 4 <= h <= 6
                &&& left <==> 6 <= h <= 8
            }
            &&& (up && down) || (left && right) ==> h == 0
        }),
{
    crate::bits::lemma_masks(w);
}

/// Every button has its own place in the report, and can be read back from it: A, B, X and Y
/// in the lowest bits of the first byte, then the shoulders and the sticks; back, start and
/// guide in bits 0, 1 and 6 of the second, around the hat. Buttons are named by their
/// numbers in the word.
pub proof fn law_buttons_read_back(g: Seq<u8>, s: PadState)
    requires
        is_packed(g, s),
    ensures
        ({
            let (low, high, w) = (g[12] as int, g[13] as int, s.buttons);
            &&& low % 2 == 1 <==> crate::bits::bit(w, 12)
            &&& low / 2 % 2 == 1 <==> crate::bits::bit(w, 13)
            &&& low / 4 % 2 == 1 <==> crate::bits::bit(w, 14)
            &&& low / 8 % 2 == 1 <==> crate::bits::bit(w, 15)
            &&& low / 16 % 2 == 1 <==> crate::bits::bit(w, 8)
            &&& low / 32 % 2 == 1 <==> crate::bits::bit(w, 9)
            &&& low / 64 % 2 == 1 <==> crate::bits::bit(w, 6)
            &&& low / 128 % 2 == 1 <==> crate::bits::bit(w, 7)
            &&& high % 2 == 1 <==> crate::bits::bit(w, 5)
            &&& high / 2 % 2 == 1 <==> crate::bits::bit(w, 4)
            &&& high / 4 % 16 == word_hat(w)
            &&& high / 64 % 2 == 1 <==> crate::bits::bit(w, 10)
            &&& high / 128 == 0
        }),
{
    crate::bits::lemma_masks(s.buttons);
    law_the_hat_reads_back(s.buttons);
}

/// Sticks and triggers can be read back: a stick's word less half its range is the stick's
/// position, turned round for the vertical ones; a trigger's is its travel on a scale of
/// 1023 instead of 255, rounded down.
pub proof fn law_sticks_read_back(g: Seq<u8>, s: PadState)
    requires
        is_packed(g, s),
    ensures
        g[0] + 256 * g[1] - 32768 == s.lx,
        g[4] + 256 * g[5] - 32768 == s.rx,
        32767 - (g[2] + 256 * g[3]) == s.ly,
        32767 - (g[6] + 256 * g[7]) == s.ry,
        255 * (g[8] + 256 * g[9]) <= 1023 * s.lt < 255 * (g[8] + 256 * g[9] + 1),
        255 * (g[10] + 256 * g[11]) <= 1023 * s.rt < 255 * (g[10] + 256 * g[11] + 1),
{
}

/// A full trigger uses all ten bits, and more travel never reads as less.
pub proof fn law_triggers_keep_their_order(a: u8, b: u8)
    requires
        a <= b,
    ensures
        trigger10(a) <= trigger10(b) <= 1023,
        trigger10(255) == 1023,
        trigger10(0) == 0,
{
}

} // verus!
