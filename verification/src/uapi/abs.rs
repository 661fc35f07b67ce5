//! Axis codes. `Z` and `RZ` are the triggers.

use vstd::prelude::*;

verus! {

pub const X: u16 = 0x00;
pub const Y: u16 = 0x01;
pub const Z: u16 = 0x02;
pub const RX: u16 = 0x03;
pub const RY: u16 = 0x04;
pub const RZ: u16 = 0x05;
pub const HAT0X: u16 = 0x10;
pub const HAT0Y: u16 = 0x11;
pub const CNT: u16 = 0x40;

} // verus!
