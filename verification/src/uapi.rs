//! The Linux kernel's input interface: request numbers, event codes and the
//! records that cross the system call boundary, in the 64-bit layout.

use vstd::prelude::*;

pub mod abs;
pub mod btn;
pub mod ev;

verus! {

pub const IOC_NONE: u32 = 0;
pub const IOC_WRITE: u32 = 1;
pub const IOC_READ: u32 = 2;

/// The letter of the event device's requests.
pub const E: u32 = 0x45;

/// The letter of the virtual device's requests, and of usbfs's.
pub const U: u32 = 0x55;

/// A request number: direction, size, letter and number, from the top.
pub open spec fn ioc_word(dir: u32, ty: u32, nr: u32, size: u32) -> u32 {
    (dir << 30) | (ty << 8) | (nr << 0) | (size << 16)
}

/// A request number.
pub fn ioc(dir: u32, ty: u32, nr: u32, size: u32) -> (r: u64)
    ensures
        r == ioc_word(dir, ty, nr, size),
        dir < 4 && ty < 0x100 && nr < 0x100 && size < 0x4000 ==> r == dir * 0x4000_0000 + size
            * 0x1_0000 + ty * 0x100 + nr,
{
    proof {
        assert(dir < 4 && ty < 0x100 && nr < 0x100 && size < 0x4000 ==> ((dir << 30) | (ty << 8) | (
        nr << 0) | (size << 16)) == dir * 0x4000_0000 + size * 0x1_0000 + ty * 0x100 + nr)
            by (bit_vector);
    }
    ((dir << 30) | (ty << 8) | (nr << 0) | (size << 16)) as u64
}

/// A request without an argument.
pub fn io(ty: u32, nr: u32) -> (r: u64)
    ensures
        r == ioc_word(IOC_NONE, ty, nr, 0),
{
    ioc(IOC_NONE, ty, nr, 0)
}

/// A request that reads `size` bytes.
pub fn ior(ty: u32, nr: u32, size: u32) -> (r: u64)
    ensures
        r == ioc_word(IOC_READ, ty, nr, size),
{
    ioc(IOC_READ, ty, nr, size)
}

/// A request that writes `size` bytes.
pub fn iow(ty: u32, nr: u32, size: u32) -> (r: u64)
    ensures
        r == ioc_word(IOC_WRITE, ty, nr, size),
{
    ioc(IOC_WRITE, ty, nr, size)
}

/// Take an event device for oneself.
pub const EVIOCGRAB: u64 = 0x4004_4590;

/// Choose the clock of the event stamps.
pub const EVIOCSCLOCKID: u64 = 0x4004_45a0;

/// Read a device's identity.
pub const EVIOCGID: u64 = 0x8008_4502;

pub const UI_DEV_CREATE: u64 = 0x0000_5501;
pub const UI_DEV_DESTROY: u64 = 0x0000_5502;
pub const UI_DEV_SETUP: u64 = 0x405c_5503;
pub const UI_ABS_SETUP: u64 = 0x401c_5504;
pub const UI_SET_EVBIT: u64 = 0x4004_5564;
pub const UI_SET_KEYBIT: u64 = 0x4004_5565;
pub const UI_SET_RELBIT: u64 = 0x4004_5566;
pub const UI_SET_ABSBIT: u64 = 0x4004_5567;
pub const UI_SET_FFBIT: u64 = 0x4004_556b;
pub const UI_SET_PHYS: u64 = 0x4008_556c;

pub const USBDEVFS_URB_TYPE_ISO: u8 = 0;
pub const USBDEVFS_URB_TYPE_INTERRUPT: u8 = 1;
pub const USBDEVFS_URB_TYPE_CONTROL: u8 = 2;
pub const USBDEVFS_URB_TYPE_BULK: u8 = 3;
pub const USBDEVFS_SUBMITURB: u64 = 0x8038_550a;
pub const USBDEVFS_DISCARDURB: u64 = 0x0000_550b;
pub const USBDEVFS_REAPURB: u64 = 0x4008_550c;
pub const USBDEVFS_REAPURBNDELAY: u64 = 0x4008_550d;
pub const USBDEVFS_CLAIMINTERFACE: u64 = 0x8004_550f;
pub const USBDEVFS_RELEASEINTERFACE: u64 = 0x8004_5510;
pub const USBDEVFS_CLEAR_HALT: u64 = 0x8004_5515;
pub const USBDEVFS_DISCONNECT_CLAIM: u64 = 0x8108_551b;
pub const USBDEVFS_DISCONNECT_CLAIM_IF_DRIVER: u32 = 0x02;

/// Ends one report.
pub const SYN_REPORT: u16 = 0;

pub const BUS_USB: u16 = 0x03;
pub const BUS_VIRTUAL: u16 = 0x06;

/// The sizes that the request numbers carry.
pub const INPUT_ID_SIZE: u32 = 8;
pub const INPUT_ABSINFO_SIZE: u32 = 24;
pub const UINPUT_SETUP_SIZE: u32 = 92;
pub const UINPUT_ABS_SETUP_SIZE: u32 = 28;
pub const URB_SIZE: u32 = 56;
pub const DISCONNECT_CLAIM_SIZE: u32 = 264;
pub const POINTER_SIZE: u32 = 8;

/// The size of an [`InputEvent`] as the kernel lays it out.
pub const INPUT_EVENT_SIZE: usize = 24;

/// Each request constant is the number that its direction, letter, number and
/// record size make up.
pub proof fn law_request_numbers()
    ensures
        EVIOCGRAB == ioc_word(IOC_WRITE, E, 0x90, 4),
        EVIOCSCLOCKID == ioc_word(IOC_WRITE, E, 0xa0, 4),
        EVIOCGID == ioc_word(IOC_READ, E, 0x02, INPUT_ID_SIZE),
        UI_DEV_CREATE == ioc_word(IOC_NONE, U, 1, 0),
        UI_DEV_DESTROY == ioc_word(IOC_NONE, U, 2, 0),
        UI_DEV_SETUP == ioc_word(IOC_WRITE, U, 3, UINPUT_SETUP_SIZE),
        UI_ABS_SETUP == ioc_word(IOC_WRITE, U, 4, UINPUT_ABS_SETUP_SIZE),
        UI_SET_EVBIT == ioc_word(IOC_WRITE, U, 100, 4),
        UI_SET_KEYBIT == ioc_word(IOC_WRITE, U, 101, 4),
        UI_SET_RELBIT == ioc_word(IOC_WRITE, U, 102, 4),
        UI_SET_ABSBIT == ioc_word(IOC_WRITE, U, 103, 4),
        UI_SET_FFBIT == ioc_word(IOC_WRITE, U, 107, 4),
        UI_SET_PHYS == ioc_word(IOC_WRITE, U, 108, POINTER_SIZE),
        USBDEVFS_SUBMITURB == ioc_word(IOC_READ, U, 10, URB_SIZE),
        USBDEVFS_DISCARDURB == ioc_word(IOC_NONE, U, 11, 0),
        USBDEVFS_REAPURB == ioc_word(IOC_WRITE, U, 12, POINTER_SIZE),
        USBDEVFS_REAPURBNDELAY == ioc_word(IOC_WRITE, U, 13, POINTER_SIZE),
        USBDEVFS_CLAIMINTERFACE == ioc_word(IOC_READ, U, 15, 4),
        USBDEVFS_RELEASEINTERFACE == ioc_word(IOC_READ, U, 16, 4),
        USBDEVFS_CLEAR_HALT == ioc_word(IOC_READ, U, 21, 4),
        USBDEVFS_DISCONNECT_CLAIM == ioc_word(IOC_READ, U, 27, DISCONNECT_CLAIM_SIZE),
{
    assert(0x4004_4590 == ioc_word(1, 0x45, 0x90, 4) && 0x4004_45a0 == ioc_word(1, 0x45, 0xa0, 4)
        && 0x8008_4502 == ioc_word(2, 0x45, 2, 8) && 0x5501 == ioc_word(0, 0x55, 1, 0) && 0x5502
        == ioc_word(0, 0x55, 2, 0) && 0x405c_5503 == ioc_word(1, 0x55, 3, 92) && 0x401c_5504
        == ioc_word(1, 0x55, 4, 28) && 0x4004_5564 == ioc_word(1, 0x55, 100, 4) && 0x4004_5565
        == ioc_word(1, 0x55, 101, 4) && 0x4004_5566 == ioc_word(1, 0x55, 102, 4) && 0x4004_5567
        == ioc_word(1, 0x55, 103, 4) && 0x4004_556b == ioc_word(1, 0x55, 107, 4) && 0x4008_556c
        == ioc_word(1, 0x55, 108, 8) && 0x8038_550a == ioc_word(2, 0x55, 10, 56) && 0x550b
        == ioc_word(0, 0x55, 11, 0) && 0x4008_550c == ioc_word(1, 0x55, 12, 8) && 0x4008_550d
        == ioc_word(1, 0x55, 13, 8) && 0x8004_550f == ioc_word(2, 0x55, 15, 4) && 0x8004_5510
        == ioc_word(2, 0x55, 16, 4) && 0x8004_5515 == ioc_word(2, 0x55, 21, 4) && 0x8108_551b
        == ioc_word(2, 0x55, 27, 264)) by (bit_vector);
}

/// Read a device's name of at most `len` bytes.
pub fn eviocgname(len: u32) -> (r: u64)
    ensures
        r == ioc_word(IOC_READ, E, 0x06, len),
{
    ioc(IOC_READ, E, 0x06, len)
}

/// Read a device's place of at most `len` bytes.
pub fn eviocgphys(len: u32) -> (r: u64)
    ensures
        r == ioc_word(IOC_READ, E, 0x07, len),
{
    ioc(IOC_READ, E, 0x07, len)
}

/// Read a device's serial of at most `len` bytes.
pub fn eviocguniq(len: u32) -> (r: u64)
    ensures
        r == ioc_word(IOC_READ, E, 0x08, len),
{
    ioc(IOC_READ, E, 0x08, len)
}

/// Read the capability bits of event type `ev`; type 0 is the map of types.
pub fn eviocgbit(ev: u32, len: u32) -> (r: u64)
    requires
        ev <= u32::MAX - 0x20,
    ensures
        r == ioc_word(IOC_READ, E, (0x20 + ev) as u32, len),
{
    ioc(IOC_READ, E, 0x20 + ev, len)
}

/// Read the range of axis `abs`.
pub fn eviocgabs(abs: u32) -> (r: u64)
    requires
        abs <= u32::MAX - 0x40,
    ensures
        r == ioc_word(IOC_READ, E, (0x40 + abs) as u32, INPUT_ABSINFO_SIZE),
{
    ior(E, 0x40 + abs, INPUT_ABSINFO_SIZE)
}

/// Read the name that the kernel gave a virtual device.
pub fn ui_get_sysname(len: u32) -> (r: u64)
    ensures
        r == ioc_word(IOC_READ, U, 44, len),
{
    ioc(IOC_READ, U, 44, len)
}

/// Who a device is.
#[derive(Clone, Copy, Debug, PartialEq, Eq, Structural)]
pub struct InputId {
    pub bustype: u16,
    pub vendor: u16,
    pub product: u16,
    pub version: u16,
}

/// What a virtual device presents.
#[derive(Clone, Copy, Debug)]
pub struct UinputSetup {
    pub id: InputId,
    /// The name, ended by a zero.
    pub name: [u8; 80],
    pub ff_effects_max: u32,
}

/// The range of an axis.
#[derive(Clone, Copy, Debug, PartialEq, Eq, Structural)]
pub struct InputAbsinfo {
    pub value: i32,
    pub minimum: i32,
    pub maximum: i32,
    pub fuzz: i32,
    pub flat: i32,
    pub resolution: i32,
}

/// One axis of a virtual device.
#[derive(Clone, Copy, Debug, PartialEq, Eq, Structural)]
pub struct UinputAbsSetup {
    pub code: u16,
    pub absinfo: InputAbsinfo,
}

/// A claim of a USB interface.
#[derive(Clone, Copy, Debug)]
pub struct UsbdevfsDisconnectClaim {
    pub interface: u32,
    pub flags: u32,
    pub driver: [u8; 256],
}

/// One input event.
#[derive(Clone, Copy, Debug, PartialEq, Eq, Structural)]
pub struct InputEvent {
    pub tv_sec: i64,
    pub tv_usec: i64,
    pub ty: u16,
    pub code: u16,
    pub value: i32,
}

/// An event without a stamp.
pub open spec fn event(ty: u16, code: u16, value: i32) -> InputEvent {
    InputEvent { tv_sec: 0, tv_usec: 0, ty, code, value }
}

impl InputEvent {
    /// An event without a stamp.
    pub fn new(ty: u16, code: u16, value: i32) -> (r: Self)
        ensures
            r == event(ty, code, value),
    {
        InputEvent { tv_sec: 0, tv_usec: 0, ty, code, value }
    }

    /// The stamp in microseconds. It wraps.
    pub fn time_us(&self) -> (r: u64)
        ensures
            r == (self.tv_sec as u64).wrapping_mul(1_000_000).wrapping_add(self.tv_usec as u64),
            0 <= self.tv_sec && 0 <= self.tv_usec && self.tv_sec * 1_000_000 + self.tv_usec
                <= u64::MAX ==> r == self.tv_sec * 1_000_000 + self.tv_usec,
    {
        (self.tv_sec as u64).wrapping_mul(1_000_000).wrapping_add(self.tv_usec as u64)
    }
}

} // verus!
