//! Event types.

use vstd::prelude::*;

verus! {

pub const SYN: u16 = 0x00;
pub const KEY: u16 = 0x01;
pub const REL: u16 = 0x02;
pub const ABS: u16 = 0x03;
pub const MSC: u16 = 0x04;
pub const FF: u16 = 0x15;
pub const CNT: u16 = 0x20;

} // verus!
