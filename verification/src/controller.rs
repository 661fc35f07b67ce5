//! The virtual controller on Windows: its two modes, how it is set up, and what
//! each state of the pad writes.

use crate::channel::{gip_stores, hid_stores, stores_of, InputChannel, Store};
use crate::gip;
use crate::install::{has_package, package_installed};
use crate::pad::PadState;
use crate::report;
use vstd::prelude::*;

verus! {

/// The plain device.
pub const NOBD_VID: u16 = 0x1209;
pub const NOBD_PID: u16 = 0x4E43;

/// The plain device of earlier releases, which is removed.
pub const LEGACY_PID: u16 = 0x4E42;

/// The controller's index, which names its section and its devices.
pub const NOBD_INDEX: u32 = 0;

/// The XInput device: a wired Xbox 360 pad.
pub const XUSB_VID: u16 = 0x045E;
pub const XUSB_PID: u16 = 0x028E;

/// The bytes of a plain report.
pub const INPUT_REPORT_LEN: u32 = 5;

/// The name that the controller shows.
pub fn nobd_label() -> (r: &'static str)
    ensures
        r@ == "NOBD Controller"@,
{
    "NOBD Controller"
}

/// Part of the hardware identifier of every companion device.
pub fn xusb_hwid_needle() -> (r: &'static str)
    ensures
        r@ == "root\\hidmaestroxusb"@,
{
    "root\\hidmaestroxusb"
}

/// What the controller presents itself as.
#[derive(Clone, Copy, PartialEq, Eq, Debug, Structural)]
pub enum PadMode {
    /// A plain gamepad under its own name.
    Hid,
    /// An XInput pad, for games that read nothing else.
    Xinput,
}

/// The driver package of a mode.
pub open spec fn package_of(mode: PadMode) -> Seq<char> {
    match mode {
        PadMode::Hid => "hidmaestro.inf"@,
        PadMode::Xinput => "hidmaestro_xusb.inf"@,
    }
}

/// Whether the driver package of a mode is among the directories of the driver store.
pub fn is_installed(mode: PadMode, entries: &Vec<String>) -> (r: bool)
    ensures
        r == has_package(entries@, package_of(mode)),
{
    match mode {
        PadMode::Hid => package_installed(entries, "hidmaestro.inf"),
        PadMode::Xinput => package_installed(entries, "hidmaestro_xusb.inf"),
    }
}

/// One step of a setup.
#[derive(Clone, Copy, PartialEq, Eq, Debug, Structural)]
pub enum SetupStep {
    InstallDriver,
    RemoveDevices { vid: u16, pid: u16 },
    ClearOemName { vid: u16, pid: u16 },
    WriteConfig { index: u32, vid: u16, pid: u16, report_len: u32 },
    CreateDevice { index: u32, vid: u16, pid: u16 },
    SetOemName { vid: u16, pid: u16 },
    RemoveCompanions,
    CreateCompanion { index: u32, vid: u16, pid: u16 },
    SetFriendlyName,
}

/// A step whose failure ends the setup. The others are done as well as they can.
pub open spec fn is_required(s: SetupStep) -> bool {
    match s {
        SetupStep::InstallDriver => true,
        SetupStep::WriteConfig { .. } => true,
        SetupStep::CreateDevice { .. } => true,
        SetupStep::SetOemName { .. } => true,
        SetupStep::CreateCompanion { .. } => true,
        _ => false,
    }
}

impl SetupStep {
    /// Whether the setup ends where this step fails.
    pub fn required(&self) -> (r: bool)
        ensures
            r == is_required(*self),
    {
        match self {
            SetupStep::InstallDriver => true,
            SetupStep::WriteConfig { .. } => true,
            SetupStep::CreateDevice { .. } => true,
            SetupStep::SetOemName { .. } => true,
            SetupStep::CreateCompanion { .. } => true,
            _ => false,
        }
    }
}

/// The steps that set up the plain device.
pub open spec fn hid_steps() -> Seq<SetupStep> {
    seq![
        SetupStep::InstallDriver,
        SetupStep::RemoveDevices { vid: NOBD_VID, pid: LEGACY_PID },
        SetupStep::ClearOemName { vid: NOBD_VID, pid: LEGACY_PID },
        SetupStep::WriteConfig {
            index: NOBD_INDEX,
            vid: NOBD_VID,
            pid: NOBD_PID,
            report_len: INPUT_REPORT_LEN,
        },
        SetupStep::CreateDevice { index: NOBD_INDEX, vid: NOBD_VID, pid: NOBD_PID },
        SetupStep::SetOemName { vid: NOBD_VID, pid: NOBD_PID },
        SetupStep::SetFriendlyName,
    ]
}

/// The steps that set up the XInput device. Companions of earlier runs go first,
/// so that they never add up.
pub open spec fn xinput_steps() -> Seq<SetupStep> {
    seq![
        SetupStep::InstallDriver,
        SetupStep::WriteConfig {
            index: NOBD_INDEX,
            vid: XUSB_VID,
            pid: XUSB_PID,
            report_len: 0,
        },
        SetupStep::RemoveCompanions,
        SetupStep::CreateCompanion { index: NOBD_INDEX, vid: XUSB_VID, pid: XUSB_PID },
        SetupStep::SetFriendlyName,
    ]
}

/// The steps that set up the plain device, in order.
pub fn setup_hid() -> (r: Vec<SetupStep>)
    ensures
        r@ == hid_steps(),
{
    let mut r: Vec<SetupStep> = Vec::new();
    r.push(SetupStep::InstallDriver);
    r.push(SetupStep::RemoveDevices { vid: NOBD_VID, pid: LEGACY_PID });
    r.push(SetupStep::ClearOemName { vid: NOBD_VID, pid: LEGACY_PID });
    r.push(
        SetupStep::WriteConfig {
            index: NOBD_INDEX,
            vid: NOBD_VID,
            pid: NOBD_PID,
            report_len: INPUT_REPORT_LEN,
        },
    );
    r.push(SetupStep::CreateDevice { index: NOBD_INDEX, vid: NOBD_VID, pid: NOBD_PID });
    r.push(SetupStep::SetOemName { vid: NOBD_VID, pid: NOBD_PID });
    r.push(SetupStep::SetFriendlyName);
    assert(r@ =~= hid_steps());
    r
}

/// The steps that set up the XInput device, in order.
pub fn setup_xinput() -> (r: Vec<SetupStep>)
    ensures
        r@ == xinput_steps(),
{
    let mut r: Vec<SetupStep> = Vec::new();
    r.push(SetupStep::InstallDriver);
    r.push(
        SetupStep::WriteConfig { index: NOBD_INDEX, vid: XUSB_VID, pid: XUSB_PID, report_len: 0 },
    );
    r.push(SetupStep::RemoveCompanions);
    r.push(SetupStep::CreateCompanion { index: NOBD_INDEX, vid: XUSB_VID, pid: XUSB_PID });
    r.push(SetupStep::SetFriendlyName);
    assert(r@ =~= xinput_steps());
    r
}

/// The step that takes the controller's name away again.
pub fn clear_branding() -> (r: SetupStep)
    ensures
        r == (SetupStep::ClearOemName { vid: NOBD_VID, pid: NOBD_PID }),
{
    SetupStep::ClearOemName { vid: NOBD_VID, pid: NOBD_PID }
}

/// The controller while it runs.
#[derive(Clone, Copy, Debug, PartialEq, Eq, Structural)]
pub struct NobdController {
    pub channel: InputChannel,
    pub mode: PadMode,
}

/// `r` are the bytes of a plain report of `s`.
pub open spec fn is_report(r: Seq<u8>, s: PadState) -> bool {
    &&& r.len() == 5
    &&& r[0] == report::axis8(s.lx)
    &&& r[1] == report::axis8(s.ly)
    &&& r[2] == report::report_hat(s.buttons)
    &&& r[3] == report::first_buttons(s.buttons, s.lt, s.rt)
    &&& r[4] == report::last_buttons(s.buttons)
}

/// `g` are the bytes of a companion report of `s`.
pub open spec fn is_gip(g: Seq<u8>, s: PadState) -> bool {
    &&& g.len() == 14
    &&& gip::pair(g, 0) == s.lx + 32768
    &&& gip::pair(g, 2) == 32767 - s.ly
    &&& gip::pair(g, 4) == s.rx + 32768
    &&& gip::pair(g, 6) == 32767 - s.ry
    &&& gip::pair(g, 8) == gip::trigger10(s.lt)
    &&& gip::pair(g, 10) == gip::trigger10(s.rt)
    &&& g[12] == gip::low_byte(s.buttons)
    &&& g[13] == gip::high_byte(s.buttons)
}

impl NobdController {
    /// A controller on a fresh section.
    pub fn open(mode: PadMode) -> (r: Self)
        ensures
            r.mode == mode,
            r.channel.seq == 0,
    {
        NobdController { channel: InputChannel::create(), mode }
    }

    /// The stores that bring the controller to a state. The plain device has the
    /// left stick only, the XInput device has both.
    pub fn submit(&mut self, s: PadState) -> (r: Vec<Store>)
        ensures
            final(self).mode == old(self).mode,
            final(self).channel.seq == old(self).channel.seq.wrapping_add(1).wrapping_add(1),
            old(self).mode is Hid ==> exists|b: Seq<u8>| #[trigger]
                is_report(b, s) && stores_of(r@) == hid_stores(old(self).channel.seq, b),
            old(self).mode is Xinput ==> exists|g: Seq<u8>| #[trigger]
                is_gip(g, s) && stores_of(r@) == gip_stores(old(self).channel.seq, g),
    {
        match self.mode {
            PadMode::Hid => {
                let b: [u8; 5] = report::pack(s.buttons, s.lt, s.rt, s.lx, s.ly);
                assert(is_report(b@, s));
                self.channel.submit(b.as_slice())
            },
            PadMode::Xinput => {
                let g: [u8; 14] = gip::pack(s.buttons, s.lt, s.rt, s.lx, s.ly, s.rx, s.ry);
                assert(is_gip(g@, s));
                self.channel.submit_gip(&g)
            },
        }
    }
}

/// What the driver reads after a submit is the pad: in the plain report the left stick, the
/// hat and the buttons, from byte 8 of the section on; in the companion report both sticks,
/// the triggers and the buttons, from byte 264 on.
pub proof fn law_the_driver_reads_the_pad(
    img: Seq<u8>,
    seq: u32,
    b: Seq<u8>,
    g: Seq<u8>,
    s: PadState,
)
    requires
        img.len() == 362,
        seq % 2 == 0,
        is_report(b, s),
        is_gip(g, s),
    ensures
        ({
            let plain = crate::channel::after_stores(img, hid_stores(seq, b), 5);
            let companion = crate::channel::after_stores(img, gip_stores(seq, g), 4);
            &&& 256 * plain[8] - 32768 <= s.lx < 256 * (plain[8] + 1) - 32768
            &&& 256 * plain[9] - 32768 <= s.ly < 256 * (plain[9] + 1) - 32768
            &&& plain[10] == report::report_hat(s.buttons)
            &&& plain[11] as int % 2 == 1 <==> crate::bits::bit(s.buttons, 12)
            &&& plain[11] as int / 64 % 2 == 1 <==> s.lt > 30
            &&& plain[11] as int / 128 % 2 == 1 <==> s.rt > 30
            &&& plain[12] as int % 2 == 1 <==> crate::bits::bit(s.buttons, 5)
            &&& companion[264] + 256 * companion[265] - 32768 == s.lx
            &&& 32767 - (companion[266] + 256 * companion[267]) == s.ly
            &&& companion[268] + 256 * companion[269] - 32768 == s.rx
            &&& 32767 - (companion[270] + 256 * companion[271]) == s.ry
            &&& 255 * (companion[272] + 256 * companion[273]) <= 1023 * s.lt < 255 * (companion[272]
                + 256 * companion[273] + 1)
            &&& 255 * (companion[274] + 256 * companion[275]) <= 1023 * s.rt < 255 * (companion[274]
                + 256 * companion[275] + 1)
            &&& companion[276] as int % 2 == 1 <==> crate::bits::bit(s.buttons, 12)
            &&& companion[277] as int % 2 == 1 <==> crate::bits::bit(s.buttons, 5)
            &&& companion[277] as int / 4 % 16 == gip::word_hat(s.buttons)
        }),
{
    report::law_buttons_read_back(b, s.buttons, s.lt, s.rt, s.lx, s.ly);
    report::law_axes_read_back(b, s.buttons, s.lt, s.rt, s.lx, s.ly);
    gip::law_buttons_read_back(g, s);
    gip::law_sticks_read_back(g, s);
    crate::channel::law_the_driver_finds_the_report(img, seq, b, g, 0);
    crate::channel::law_the_driver_finds_the_report(img, seq, b, g, 1);
    crate::channel::law_the_driver_finds_the_report(img, seq, b, g, 2);
    crate::channel::law_the_driver_finds_the_report(img, seq, b, g, 3);
    crate::channel::law_the_driver_finds_the_report(img, seq, b, g, 4);
    let c = crate::channel::after_stores(img, gip_stores(seq, g), 4);
    assert(c[264] == g[0] && c[265] == g[1] && c[266] == g[2] && c[267] == g[3]);
    assert(c[268] == g[4] && c[269] == g[5] && c[270] == g[6] && c[271] == g[7]);
    assert(c[272] == g[8] && c[273] == g[9] && c[274] == g[10] && c[275]
        == g[11]);
    assert(c[276] == g[12] && c[277] == g[13]);
}

/// Both setups begin with the driver and end with the name, and write the configuration before
/// they make the device that reads it. What is made is what is configured, and nothing that
/// was just made is removed. The plain device's reports are as long as they are packed.
pub proof fn law_a_device_is_made_after_its_configuration()
    ensures
        ({
            let (h, x) = (hid_steps(), xinput_steps());
            &&& h[0] == SetupStep::InstallDriver && x[0] == SetupStep::InstallDriver
            &&& h.last() == SetupStep::SetFriendlyName && x.last() == SetupStep::SetFriendlyName
            &&& exists|i: int, j: int|
                0 < i < j < h.len() && (#[trigger] h[i]) == (SetupStep::WriteConfig {
                    index: 0,
                    vid: 0x1209,
                    pid: 0x4E43,
                    report_len: 5,
                }) && (#[trigger] h[j]) == (SetupStep::CreateDevice {
                    index: 0,
                    vid: 0x1209,
                    pid: 0x4E43,
                })
            &&& exists|i: int, k: int, j: int|
                0 < i < k < j < x.len() && (#[trigger] x[i]) == (SetupStep::WriteConfig {
                    index: 0,
                    vid: 0x045E,
                    pid: 0x028E,
                    report_len: 0,
                }) && (#[trigger] x[k]) == SetupStep::RemoveCompanions && (#[trigger] x[j]) == (
                SetupStep::CreateCompanion { index: 0, vid: 0x045E, pid: 0x028E })
            &&& forall|i: int|
                0 <= i < h.len() ==> ((#[trigger] h[i]) matches SetupStep::RemoveDevices { vid, pid }
                    ==> pid != 0x4E43)
        }),
{
    let (h, x) = (hid_steps(), xinput_steps());
    assert(h[3] is WriteConfig && h[4] is CreateDevice);
    assert(x[1] is WriteConfig && x[2] is RemoveCompanions && x[3] is CreateCompanion);
}

} // verus!
