//! The plain HID gamepad: its descriptor, and the report that fits it.
//!
//! A report is five bytes: two axes, the hat in the low half of a byte, and
//! fourteen buttons of which thirteen are used.

use crate::gip::{down, one};
use crate::pad::bit;
use vstd::prelude::*;

verus! {

/// The bytes of a report.
pub const REPORT_LEN: usize = 5;

/// A trigger counts as a button beyond this.
pub const TRIGGER_THRESHOLD: u8 = 30;

/// The HID descriptor: a gamepad with two axes of eight bits, a hat of eight
/// ways, and fourteen buttons.
pub open spec fn descriptor() -> Seq<u8> {
    seq![
        0x05u8, 0x01u8, 0x09u8, 0x05u8, 0xA1u8, 0x01u8, 0x09u8, 0x01u8, 0xA1u8, 0x00u8, 0x09u8,
        0x30u8, 0x09u8, 0x31u8, 0x15u8, 0x00u8, 0x26u8, 0xFFu8, 0x00u8, 0x75u8, 0x08u8, 0x95u8,
        0x02u8, 0x81u8, 0x02u8, 0xC0u8, 0x09u8, 0x39u8, 0x15u8, 0x00u8, 0x25u8, 0x07u8, 0x35u8,
        0x00u8, 0x46u8, 0x3Bu8, 0x01u8, 0x65u8, 0x14u8, 0x75u8, 0x04u8, 0x95u8, 0x01u8, 0x81u8,
        0x42u8, 0x75u8, 0x04u8, 0x95u8, 0x01u8, 0x81u8, 0x03u8, 0x05u8, 0x09u8, 0x19u8, 0x01u8,
        0x29u8, 0x0Eu8, 0x15u8, 0x00u8, 0x25u8, 0x01u8, 0x75u8, 0x01u8, 0x95u8, 0x0Eu8, 0x81u8,
        0x02u8, 0x75u8, 0x01u8, 0x95u8, 0x02u8, 0x81u8, 0x03u8, 0xC0u8,
    ]
}

/// The HID descriptor.
pub fn report_descriptor() -> (r: [u8; 74])
    ensures
        r@ == descriptor(),
{
    let r: [u8; 74] = [
        0x05, 0x01, 0x09, 0x05, 0xA1, 0x01, 0x09, 0x01, 0xA1, 0x00, 0x09, 0x30, 0x09, 0x31, 0x15,
        0x00, 0x26, 0xFF, 0x00, 0x75, 0x08, 0x95, 0x02, 0x81, 0x02, 0xC0, 0x09, 0x39, 0x15, 0x00,
        0x25, 0x07, 0x35, 0x00, 0x46, 0x3B, 0x01, 0x65, 0x14, 0x75, 0x04, 0x95, 0x01, 0x81, 0x42,
        0x75, 0x04, 0x95, 0x01, 0x81, 0x03, 0x05, 0x09, 0x19, 0x01, 0x29, 0x0E, 0x15, 0x00, 0x25,
        0x01, 0x75, 0x01, 0x95, 0x0E, 0x81, 0x02, 0x75, 0x01, 0x95, 0x02, 0x81, 0x03, 0xC0,
    ];
    assert(r@ =~= descriptor());
    r
}

/// An axis in eight bits.
pub open spec fn axis8(v: i16) -> int {
    (v + 32768) / 256
}

/// An axis in eight bits.
pub fn axis_u8(v: i16) -> (r: u8)
    ensures
        r == axis8(v),
{
    ((v as i32 + 32768) / 256) as u8
}

/// The hat of four directions, clockwise from 0 for up; 8 where they name none.
pub open spec fn hat_value(up: bool, right: bool, down: bool, left: bool) -> int {
    if up && !right && !down && !left {
        0
    } else if up && right && !down && !left {
        1
    } else if !up && right && !down && !left {
        2
    } else if !up && right && down && !left {
        3
    } else if !up && !right && down && !left {
        4
    } else if !up && !right && down && left {
        5
    } else if !up && !right && !down && left {
        6
    } else if up && !right && !down && left {
        7
    } else {
        8
    }
}

/// The hat of a button word.
pub open spec fn report_hat(buttons: u16) -> int {
    hat_value(
        down(buttons, bit::DPAD_UP),
        down(buttons, bit::DPAD_RIGHT),
        down(buttons, bit::DPAD_DOWN),
        down(buttons, bit::DPAD_LEFT),
    )
}

/// The hat of a button word: 0 for up, clockwise to 7, 8 for neutral.
pub fn hat(buttons: u16) -> (r: u8)
    ensures
        r == report_hat(buttons),
        r <= 8,
{
    let up: bool = buttons & bit::DPAD_UP != 0;
    let down: bool = buttons & bit::DPAD_DOWN != 0;
    let left: bool = buttons & bit::DPAD_LEFT != 0;
    let right: bool = buttons & bit::DPAD_RIGHT != 0;
    match (up, right, down, left) {
        (true, false, false, false) => 0,
        (true, true, false, false) => 1,
        (false, true, false, false) => 2,
        (false, true, true, false) => 3,
        (false, false, true, false) => 4,
        (false, false, true, true) => 5,
        (false, false, false, true) => 6,
        (true, false, false, true) => 7,
        _ => 8,
    }
}

/// Buttons 1 to 8: A, B, X, Y, LB, RB and the two triggers.
pub open spec fn first_buttons(w: u16, lt: u8, rt: u8) -> int {
    one(down(w, bit::A)) + 2 * one(down(w, bit::B)) + 4 * one(down(w, bit::X)) + 8 * one(
        down(w, bit::Y),
    ) + 16 * one(down(w, bit::LEFT_SHOULDER)) + 32 * one(down(w, bit::RIGHT_SHOULDER)) + 64 * one(
        lt > TRIGGER_THRESHOLD,
    ) + 128 * one(rt > TRIGGER_THRESHOLD)
}

/// Buttons 9 to 13: back, start, the two sticks and guide.
pub open spec fn last_buttons(w: u16) -> int {
    one(down(w, bit::BACK)) + 2 * one(down(w, bit::START)) + 4 * one(down(w, bit::LEFT_THUMB)) + 8
        * one(down(w, bit::RIGHT_THUMB)) + 16 * one(down(w, bit::GUIDE))
}

fn flag(b: bool) -> (r: u8)
    ensures
        r == one(b),
        r <= 1,
{
    if b {
        1
    } else {
        0
    }
}

fn first_of(w: u16, lt: u8, rt: u8) -> (r: u8)
    ensures
        r == first_buttons(w, lt, rt),
{
    let a: u8 = flag(w & bit::A != 0);
    let b: u8 = flag(w & bit::B != 0);
    let x: u8 = flag(w & bit::X != 0);
    let y: u8 = flag(w & bit::Y != 0);
    let lb: u8 = flag(w & bit::LEFT_SHOULDER != 0);
    let rb: u8 = flag(w & bit::RIGHT_SHOULDER != 0);
    let l: u8 = flag(lt > TRIGGER_THRESHOLD);
    let r: u8 = flag(rt > TRIGGER_THRESHOLD);
    a + 2 * b + 4 * x + 8 * y + 16 * lb + 32 * rb + 64 * l + 128 * r
}

fn last_of(w: u16) -> (r: u8)
    ensures
        r == last_buttons(w),
{
    let back: u8 = flag(w & bit::BACK != 0);
    let start: u8 = flag(w & bit::START != 0);
    let l: u8 = flag(w & bit::LEFT_THUMB != 0);
    let r: u8 = flag(w & bit::RIGHT_THUMB != 0);
    let guide: u8 = flag(w & bit::GUIDE != 0);
    back + 2 * start + 4 * l + 8 * r + 16 * guide
}

/// The five bytes of a pad state.
pub open spec fn is_packed(r: Seq<u8>, w: u16, lt: u8, rt: u8, lx: i16, ly: i16) -> bool {
    &&& r.len() == 5
    &&& r[0] == axis8(lx)
    &&& r[1] == axis8(ly)
    &&& r[2] == report_hat(w)
    &&& r[3] == first_buttons(w, lt, rt)
    &&& r[4] == last_buttons(w)
}

/// Pack a pad state into the five bytes.
pub fn pack(buttons: u16, lt: u8, rt: u8, lx: i16, ly: i16) -> (r: [u8; 5])
    ensures
        r@[0] == axis8(lx),
        r@[1] == axis8(ly),
        r@[2] == report_hat(buttons),
        r@[3] == first_buttons(buttons, lt, rt),
        r@[4] == last_buttons(buttons),
        is_packed(r@, buttons, lt, rt, lx, ly),
{
    [axis_u8(lx), axis_u8(ly), hat(buttons), first_of(buttons, lt, rt), last_of(buttons)]
}

/// The hat runs clockwise from up and can be read back: it shows up at 7, 0 and 1, right at
/// 1 to 3, down at 3 to 5 and left at 5 to 7; for a word without opposite directions these
/// are the word's own, and a word with opposite ones shows none.
pub proof fn law_the_hat_reads_back(w: u16)
    ensures
        ({
            let h = report_hat(w);
            let (up, down, left, right) = (
                crate::bits::bit(w, 0),
                crate::bits::bit(w, 1),
                crate::bits::bit(w, 2),
                crate::bits::bit(w, 3),
            );
            &&& 0 <= h <= 8
            &&& !(up && down) && !(left && right) ==> {
                &&& up <==> (h == 7 || h == 0 || h == 1)
                &&& right <==> 1 <= h <= 3
                &&& down <==> 3 <= h <= 5
                &&& left <==> 5 <= h <= 7
            }
            &&& (up && down) || (left && right) ==> h == 8
        }),
{
    crate::bits::lemma_masks(w);
}

/// Every button has its own place in the report and can be read back from it: A, B, X, Y, the
/// shoulders and the triggers as buttons 1 to 8, then back, start, the sticks and guide. A
/// trigger is down beyond 30.
pub proof fn law_buttons_read_back(r: Seq<u8>, w: u16, lt: u8, rt: u8, lx: i16, ly: i16)
    requires
        is_packed(r, w, lt, rt, lx, ly),
    ensures
        ({
            let (first, last) = (r[3] as int, r[4] as int);
            &&& first % 2 == 1 <==> crate::bits::bit(w, 12)
            &&& first / 2 % 2 == 1 <==> crate::bits::bit(w, 13)
            &&& first / 4 % 2 == 1 <==> crate::bits::bit(w, 14)
            &&& first / 8 % 2 == 1 <==> crate::bits::bit(w, 15)
            &&& first / 16 % 2 == 1 <==> crate::bits::bit(w, 8)
            &&& first / 32 % 2 == 1 <==> crate::bits::bit(w, 9)
            &&& first / 64 % 2 == 1 <==> lt > 30
            &&& first / 128 % 2 == 1 <==> rt > 30
            &&& last % 2 == 1 <==> crate::bits::bit(w, 5)
            &&& last / 2 % 2 == 1 <==> crate::bits::bit(w, 4)
            &&& last / 4 % 2 == 1 <==> crate::bits::bit(w, 6)
            &&& last / 8 % 2 == 1 <==> crate::bits::bit(w, 7)
            &&& last / 16 % 2 == 1 <==> crate::bits::bit(w, 10)
            &&& last / 32 == 0
        }),
{
    crate::bits::lemma_masks(w);
}

/// An axis keeps its order and its ends, and is never off by more than one step of its
/// eight bits: a byte stands for the 256 positions from its own on.
pub proof fn law_axes_read_back(r: Seq<u8>, w: u16, lt: u8, rt: u8, lx: i16, ly: i16)
    requires
        is_packed(r, w, lt, rt, lx, ly),
    ensures
        256 * r[0] - 32768 <= lx < 256 * (r[0] + 1) - 32768,
        256 * r[1] - 32768 <= ly < 256 * (r[1] + 1) - 32768,
{
}

/// The bits of input that the descriptor's items from `i` on declare, with the
/// report size and count in force there.
pub open spec fn input_bits(d: Seq<u8>, i: int, size: int, count: int) -> int
    decreases d.len() - i + 3,
{
    if i < 0 || i >= d.len() {
        0
    } else if d[i] == 0x75 {
        input_bits(d, i + 2, d[i + 1] as int, count)
    } else if d[i] == 0x95 {
        input_bits(d, i + 2, size, d[i + 1] as int)
    } else if d[i] == 0x81 {
        size * count + input_bits(d, i + 2, size, count)
    } else if d[i] == 0x26 || d[i] == 0x46 {
        input_bits(d, i + 3, size, count)
    } else if d[i] == 0xC0 {
        input_bits(d, i + 1, size, count)
    } else {
        input_bits(d, i + 2, size, count)
    }
}

/// The descriptor declares exactly the bits of the report.
pub proof fn law_descriptor_fits_the_report()
    ensures
        input_bits(descriptor(), 0, 0, 0) == 8 * REPORT_LEN,
{
    reveal_with_fuel(input_bits, 40);
}

/// The descriptor describes a gamepad, closes what it opens, and names what the report holds:
/// two axes of a whole byte, a hat of eight ways over a full turn that may point nowhere, and
/// as many buttons as it has bits for.
pub proof fn law_the_descriptor_names_the_report()
    ensures
        ({
            let d = descriptor();
            &&& d.len() == 74
            &&& d[0] == 0x05 && d[1] == 1 && d[2] == 0x09 && d[3] == 5
            &&& d[4] == 0xA1 && d[5] == 1 && d[6] == 0x09 && d[7] == 1 && d[8] == 0xA1 && d[9] == 0
            &&& d[10] == 0x09 && d[12] == 0x09 && d[13] == d[11] + 1 && d[11] == 0x30
            &&& d[17] + 256 * d[18] - d[15] == 255 && d[20] == 8 && d[22] == 2
            &&& d[27] == 0x39 && d[31] - d[29] + 1 == 8 && d[35] + 256 * d[36] - d[33] == 315
            &&& d[40] == 4 && d[44] == 0x42
            &&& d[52] == 9 && d[56] - d[54] + 1 == d[64] && d[64] == 14 && d[62] == 1
            &&& d[25] == 0xC0 && d[73] == 0xC0
        }),
{
}

} // verus!
