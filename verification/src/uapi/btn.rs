//! Button codes. `SOUTH` is A, `EAST` is B, `NORTH` is X and `WEST` is Y, as the
//! kernel's pad driver reports them.

use vstd::prelude::*;

verus! {

pub const SOUTH: u16 = 0x130;
pub const EAST: u16 = 0x131;
pub const C: u16 = 0x132;
pub const NORTH: u16 = 0x133;
pub const WEST: u16 = 0x134;
pub const Z: u16 = 0x135;
pub const TL: u16 = 0x136;
pub const TR: u16 = 0x137;
pub const TL2: u16 = 0x138;
pub const TR2: u16 = 0x139;
pub const SELECT: u16 = 0x13a;
pub const START: u16 = 0x13b;
pub const MODE: u16 = 0x13c;
pub const THUMBL: u16 = 0x13d;
pub const THUMBR: u16 = 0x13e;
pub const DPAD_UP: u16 = 0x220;
pub const DPAD_DOWN: u16 = 0x221;
pub const DPAD_LEFT: u16 = 0x222;
pub const DPAD_RIGHT: u16 = 0x223;
pub const JOYSTICK: u16 = 0x120;
pub const TRIGGER: u16 = 0x120;
pub const GAMEPAD: u16 = 0x130;

} // verus!
