//! Decoding a Linux event device into pad states.
//!
//! Events come one by one and a report ends with a marker; a state goes out once
//! per report that changed something, with the kernel's own stamp.

use crate::pad::{bit, neutral, PadState};
use crate::text::{
    at, chars_of, cut, is_text, parse_u32, parse_unsigned, stands_at, starts, starts_with,
};
use crate::uapi::{abs, btn, ev, InputEvent, SYN_REPORT};
use crate::uinput::phys_prefix;
use vstd::prelude::*;

verus! {

/// Where a stick reads as centred.
pub const STICK_DEADZONE: i32 = 7849;

/// Who a pad is.
#[derive(Clone, Copy, Debug, PartialEq, Eq, Structural)]
pub struct PadId {
    pub bustype: u16,
    pub vendor: u16,
    pub product: u16,
    pub version: u16,
}

/// A pad found by scanning.
#[derive(Debug)]
pub struct DeviceInfo {
    pub path: String,
    pub name: String,
    pub id: PadId,
}

/// Key code `code` is set in a capability map.
pub open spec fn key_set(bits: Seq<u8>, code: u16) -> bool {
    let idx = (code / 8) as int;
    idx < bits.len() && (bits[idx] >> ((code % 8) as u8)) & 1 == 1
}

/// The capabilities are those of a pad.
pub open spec fn pad_keys(bits: Seq<u8>) -> bool {
    key_set(bits, btn::GAMEPAD)
}

/// Whether a device with these key capabilities is a pad.
pub fn is_gamepad(bits: &[u8]) -> (r: bool)
    ensures
        r == pad_keys(bits@),
{
    let code: u16 = btn::GAMEPAD;
    let idx: usize = (code / 8) as usize;
    idx < bits.len() && (bits[idx] >> ((code % 8) as u8)) & 1 == 1
}

/// Whether a device that says it is at `phys` is one of our own virtual pads. The
/// test goes by the place and not by the maker: a virtual pad presents itself as
/// an ordinary one.
pub fn is_own(phys: &str) -> (r: bool)
    ensures
        r == starts(phys@, phys_prefix()),
{
    starts_with(&chars_of(phys), "nobd/")
}

/// The place of the last "event" in `s`, if it is in it.
pub open spec fn last_event(s: Seq<char>, n: int) -> Option<int>
    decreases n,
{
    if at(s, "event"@, n) {
        Some(n)
    } else if n <= 0 {
        None
    } else {
        last_event(s, n - 1)
    }
}

/// What stands behind the last "event", or all of it.
pub open spec fn event_tail(s: Seq<char>) -> Seq<char> {
    match last_event(s, s.len() as int) {
        Some(k) => s.subrange(k + "event"@.len(), s.len() as int),
        None => s,
    }
}

/// The number of an event device, by which devices are ordered; the largest
/// where its path has none.
pub fn event_number(path: &str) -> (r: u32)
    ensures
        r == (match parse_unsigned(event_tail(path@), u32::MAX as nat) {
            Some(n) => n as u32,
            None => u32::MAX,
        }),
{
    let v: Vec<char> = chars_of(path);
    let word: Vec<char> = chars_of("event");
    let n: usize = v.len();
    let mut k: usize = n;
    let mut found: bool = stands_at(&v, &word, k);
    while !found && k > 0
        invariant
            k <= n == v@.len(),
            word@ == "event"@,
            found == at(v@, word@, k as int),
            last_event(v@, n as int) == last_event(v@, k as int),
        decreases k,
    {
        k = k - 1;
        found = stands_at(&v, &word, k);
    }
    let tail: Vec<char> = if found {
        cut(&v, k + word.len(), n)
    } else {
        cut(&v, 0, n)
    };
    assert(v@.subrange(0, n as int) =~= v@);
    assert(tail@ == event_tail(v@));
    match parse_u32(&tail) {
        Some(m) => m,
        None => u32::MAX,
    }
}

/// `r` lists the places of `keys` in ascending order, earlier ones first among
/// equals.
pub open spec fn is_order(keys: Seq<u32>, r: Seq<usize>) -> bool {
    &&& r.len() == keys.len()
    &&& forall|i: int| 0 <= i < r.len() ==> (#[trigger] r[i]) < keys.len()
    &&& forall|i: int, j: int|
        0 <= i < j < r.len() ==> keys[#[trigger] r[i] as int] < keys[#[trigger] r[j] as int] || (
        keys[r[i] as int] == keys[r[j] as int] && r[i] < r[j])
}

/// The places of `keys` in ascending order, earlier ones first among equals.
pub fn order(keys: &Vec<u32>) -> (r: Vec<usize>)
    ensures
        is_order(keys@, r@),
{
    let mut r: Vec<usize> = Vec::new();
    let mut i: usize = 0;
    while i < keys.len()
        invariant
            i <= keys@.len(),
            r@.len() == i,
            forall|a: int| 0 <= a < r@.len() ==> (#[trigger] r@[a]) < i,
            forall|a: int, b: int|
                0 <= a < b < r@.len() ==> keys@[#[trigger] r@[a] as int]
                    < keys@[#[trigger] r@[b] as int] || (keys@[r@[a] as int] == keys@[r@[b] as int]
                    && r@[a] < r@[b]),
        decreases keys@.len() - i,
    {
        let x: u32 = keys[i];
        let mut k: usize = r.len();
        while k > 0 && keys[r[k - 1]] > x
            invariant
                i < keys@.len(),
                x == keys@[i as int],
                k <= r@.len() == i,
                forall|a: int| 0 <= a < r@.len() ==> (#[trigger] r@[a]) < i,
                forall|a: int| k <= a < r@.len() ==> keys@[#[trigger] r@[a] as int] > x,
            decreases k,
        {
            k = k - 1;
        }
        let ghost r0 = r@;
        r.insert(k, i);
        proof {
            assert(r@ == r0.insert(k as int, i));
            assert forall|a: int, b: int| 0 <= a < b < r@.len() implies keys@[#[trigger] r@[
                a] as int] < keys@[#[trigger] r@[b] as int] || (keys@[r@[a] as int] == keys@[r@[
                b] as int] && r@[a] < r@[b]) by {
                if b == k {
                    assert(r@[a] == r0[a]);
                    if a < k - 1 {
                        assert(r0[a] < i && r0[k - 1] < i);
                    }
                } else if a == k {
                    assert(r@[b] == r0[b - 1]);
                } else {
                    let a0 = if a < k {
                        a
                    } else {
                        a - 1
                    };
                    let b0 = if b < k {
                        b
                    } else {
                        b - 1
                    };
                    assert(r@[a] == r0[a0] && r@[b] == r0[b0]);
                }
            }
            assert forall|a: int| 0 <= a < r@.len() implies (#[trigger] r@[a]) < i + 1 by {
                if a < k {
                    assert(r@[a] == r0[a]);
                } else if a > k {
                    assert(r@[a] == r0[a - 1]);
                }
            }
        }
        i = i + 1;
    }
    r
}

/// The device of the wanted path or name.
pub open spec fn matches(d: DeviceInfo, want: Seq<char>) -> bool {
    d.path@ == want || d.name@ == want
}

/// `k` is the place of the first device of the wanted path or name, if it is in
/// the list.
pub open spec fn is_first_match(devs: Seq<DeviceInfo>, want: Seq<char>, k: Option<usize>) -> bool {
    match k {
        Some(k) => {
            &&& k < devs.len()
            &&& matches(devs[k as int], want)
            &&& forall|i: int| 0 <= i < k ==> !(#[trigger] matches(devs[i], want))
        },
        None => forall|i: int| 0 <= i < devs.len() ==> !(#[trigger] matches(devs[i], want)),
    }
}

/// The first device of the wanted path or name.
fn find_match(devs: &Vec<DeviceInfo>, want: &str) -> (r: Option<usize>)
    ensures
        is_first_match(devs@, want@, r),
{
    let w: Vec<char> = chars_of(want);
    let mut i: usize = 0;
    while i < devs.len()
        invariant
            i <= devs@.len(),
            w@ == want@,
            forall|k: int| 0 <= k < i ==> !(#[trigger] matches(devs@[k], want@)),
        decreases devs@.len() - i,
    {
        if is_text(&w, devs[i].path.as_str()) || is_text(&w, devs[i].name.as_str()) {
            return Some(i);
        }
        i = i + 1;
    }
    None
}

/// The device to open: the first of the wanted path or name, or the first of all
/// where none is wanted.
pub fn choose_device(devs: &Vec<DeviceInfo>, want: Option<&str>) -> (r: Option<usize>)
    ensures
        want is None ==> r == (if devs@.len() == 0 {
            None
        } else {
            Some(0usize)
        }),
        want matches Some(w) ==> is_first_match(devs@, w@, r),
{
    match want {
        None => if devs.len() == 0 {
            None
        } else {
            Some(0)
        },
        Some(w) => find_match(devs, w),
    }
}

/// How a stick reports its directions.
#[derive(Clone, Copy, PartialEq, Eq, Debug, Structural)]
pub enum DpadKind {
    Hat,
    Buttons,
}

/// The bit of a key code.
pub open spec fn key_bit(code: u16) -> Option<u16> {
    if code == btn::SOUTH {
        Some(bit::A)
    } else if code == btn::EAST {
        Some(bit::B)
    } else if code == btn::NORTH {
        Some(bit::X)
    } else if code == btn::WEST {
        Some(bit::Y)
    } else if code == btn::TL {
        Some(bit::LEFT_SHOULDER)
    } else if code == btn::TR {
        Some(bit::RIGHT_SHOULDER)
    } else if code == btn::SELECT {
        Some(bit::BACK)
    } else if code == btn::START {
        Some(bit::START)
    } else if code == btn::MODE {
        Some(bit::GUIDE)
    } else if code == btn::THUMBL {
        Some(bit::LEFT_THUMB)
    } else if code == btn::THUMBR {
        Some(bit::RIGHT_THUMB)
    } else if code == btn::DPAD_UP {
        Some(bit::DPAD_UP)
    } else if code == btn::DPAD_DOWN {
        Some(bit::DPAD_DOWN)
    } else if code == btn::DPAD_LEFT {
        Some(bit::DPAD_LEFT)
    } else if code == btn::DPAD_RIGHT {
        Some(bit::DPAD_RIGHT)
    } else {
        None
    }
}

fn bit_of_key(code: u16) -> (r: Option<u16>)
    ensures
        r == key_bit(code),
{
    if code == btn::SOUTH {
        Some(bit::A)
    } else if code == btn::EAST {
        Some(bit::B)
    } else if code == btn::NORTH {
        Some(bit::X)
    } else if code == btn::WEST {
        Some(bit::Y)
    } else if code == btn::TL {
        Some(bit::LEFT_SHOULDER)
    } else if code == btn::TR {
        Some(bit::RIGHT_SHOULDER)
    } else if code == btn::SELECT {
        Some(bit::BACK)
    } else if code == btn::START {
        Some(bit::START)
    } else if code == btn::MODE {
        Some(bit::GUIDE)
    } else if code == btn::THUMBL {
        Some(bit::LEFT_THUMB)
    } else if code == btn::THUMBR {
        Some(bit::RIGHT_THUMB)
    } else if code == btn::DPAD_UP {
        Some(bit::DPAD_UP)
    } else if code == btn::DPAD_DOWN {
        Some(bit::DPAD_DOWN)
    } else if code == btn::DPAD_LEFT {
        Some(bit::DPAD_LEFT)
    } else if code == btn::DPAD_RIGHT {
        Some(bit::DPAD_RIGHT)
    } else {
        None
    }
}

/// The bounds are those of an axis that is there.
pub open spec fn axis_there(minimum: i32, maximum: i32) -> bool {
    minimum != 0 || maximum != 0
}

/// Whether a device has an axis, by the bounds that the kernel gives of it: it gives
/// zeros of one that is not there.
pub fn has_axis(minimum: i32, maximum: i32) -> (r: bool)
    ensures
        r == axis_there(minimum, maximum),
{
    minimum != 0 || maximum != 0
}

/// The axis points the other way on the wire.
pub open spec fn turned_round(code: u16) -> bool {
    code == abs::Y || code == abs::RY
}

/// Whether an axis is turned round: up is negative on the wire and positive on the pad.
pub fn inverts(code: u16) -> (r: bool)
    ensures
        r == turned_round(code),
{
    code == abs::Y || code == abs::RY
}

/// A stick position with the dead zone taken out.
pub open spec fn without_deadzone(v: int) -> int {
    if -STICK_DEADZONE <= v <= STICK_DEADZONE {
        0
    } else {
        v
    }
}

/// A stick position with the dead zone taken out.
pub fn out_of_deadzone(v: i32) -> (r: i16)
    requires
        -32768 <= v <= 32767,
    ensures
        r == without_deadzone(v as int),
{
    if v >= -STICK_DEADZONE && v <= STICK_DEADZONE {
        0
    } else {
        v as i16
    }
}

/// An axis event's value on the scale of the pad: as a stick position and as a
/// trigger position. The scaling is the caller's, who knows the axis's range.
#[derive(Clone, Copy, PartialEq, Eq, Debug, Structural)]
pub struct Scaled {
    pub stick: i16,
    pub trigger: u8,
}

/// The state after a key event.
pub open spec fn key_applied(
    s: PadState,
    axis_triggers: bool,
    code: u16,
    down: bool,
) -> PadState {
    match key_bit(code) {
        Some(b) => PadState {
            buttons: if down {
                s.buttons | b
            } else {
                s.buttons & !b
            },
            ..s
        },
        None => if code == btn::TL2 && !axis_triggers {
            PadState {
                lt: if down {
                    255
                } else {
                    0
                },
                ..s
            }
        } else if code == btn::TR2 && !axis_triggers {
            PadState {
                rt: if down {
                    255
                } else {
                    0
                },
                ..s
            }
        } else {
            s
        },
    }
}

/// A button word with one pair of directions set by a hat axis.
pub open spec fn hat_applied(w: u16, negative: u16, positive: u16, value: i32) -> u16 {
    let cleared = w & !(negative | positive);
    if value < 0 {
        cleared | negative
    } else if value > 0 {
        cleared | positive
    } else {
        cleared
    }
}

/// The state after an axis event.
pub open spec fn axis_applied(
    s: PadState,
    axis_triggers: bool,
    code: u16,
    value: i32,
    a: Scaled,
) -> PadState {
    if code == abs::X {
        PadState { lx: a.stick, ..s }
    } else if code == abs::Y {
        PadState { ly: a.stick, ..s }
    } else if code == abs::RX {
        PadState { rx: a.stick, ..s }
    } else if code == abs::RY {
        PadState { ry: a.stick, ..s }
    } else if code == abs::Z && axis_triggers {
        PadState { lt: a.trigger, ..s }
    } else if code == abs::RZ && axis_triggers {
        PadState { rt: a.trigger, ..s }
    } else if code == abs::HAT0X {
        PadState {
            buttons: hat_applied(s.buttons, bit::DPAD_LEFT, bit::DPAD_RIGHT, value),
            ..s
        }
    } else if code == abs::HAT0Y {
        PadState { buttons: hat_applied(s.buttons, bit::DPAD_UP, bit::DPAD_DOWN, value), ..s }
    } else {
        s
    }
}

/// The state after an event.
pub open spec fn applied(s: PadState, axis_triggers: bool, e: InputEvent, a: Scaled) -> PadState {
    if e.ty == ev::KEY {
        key_applied(s, axis_triggers, e.code, e.value != 0)
    } else if e.ty == ev::ABS {
        axis_applied(s, axis_triggers, e.code, e.value, a)
    } else {
        s
    }
}

/// The stamp of an event.
pub open spec fn stamp_of(e: InputEvent) -> u64 {
    (e.tv_sec as u64).wrapping_mul(1_000_000).wrapping_add(e.tv_usec as u64)
}

/// The end of a report.
pub open spec fn ends_report(e: InputEvent) -> bool {
    e.ty == ev::SYN && e.code == SYN_REPORT
}

/// Decodes the events of one device.
#[derive(Clone, Copy, PartialEq, Eq, Debug, Structural)]
pub struct Decoder {
    pub state: PadState,
    pub dpad: DpadKind,
    /// The triggers are axes.
    pub has_axis_triggers: bool,
    /// The stamp of the latest event of the report that is being put together.
    pub pending_time_us: u64,
    /// That report has changed something.
    pub pending_dirty: bool,
}

/// The decoder after an event.
pub open spec fn decoder_after(d: Decoder, e: InputEvent, a: Scaled) -> Decoder {
    if ends_report(e) {
        Decoder { pending_dirty: false, ..d }
    } else {
        let n = applied(d.state, d.has_axis_triggers, e, a);
        Decoder {
            state: n,
            pending_time_us: stamp_of(e),
            pending_dirty: d.pending_dirty || n != d.state,
            ..d
        }
    }
}

/// What goes out on an event.
pub open spec fn goes_out(d: Decoder, e: InputEvent) -> Option<(PadState, u64)> {
    if ends_report(e) && d.pending_dirty {
        Some((d.state, d.pending_time_us))
    } else {
        None
    }
}

impl Decoder {
    /// A decoder for a device, by which of its axes report a range.
    pub fn new(has_z: bool, has_rz: bool, has_hat_x: bool, has_hat_y: bool) -> (r: Self)
        ensures
            r.state == neutral(),
            r.has_axis_triggers == (has_z && has_rz),
            r.dpad == (if has_hat_x || has_hat_y {
                DpadKind::Hat
            } else {
                DpadKind::Buttons
            }),
            r.pending_time_us == 0,
            !r.pending_dirty,
    {
        Decoder {
            state: PadState::default(),
            dpad: if has_hat_x || has_hat_y {
                DpadKind::Hat
            } else {
                DpadKind::Buttons
            },
            has_axis_triggers: has_z && has_rz,
            pending_time_us: 0,
            pending_dirty: false,
        }
    }

    /// Apply one event. Returns whether it changed the state.
    pub fn apply(&mut self, e: &InputEvent, a: Scaled) -> (r: bool)
        ensures
            *final(self) == (Decoder {
                state: applied(old(self).state, old(self).has_axis_triggers, *e, a),
                ..*old(self)
            }),
            r == (final(self).state != old(self).state),
    {
        let before: PadState = self.state;
        let mut s: PadState = before;
        if e.ty == ev::KEY {
            let down: bool = e.value != 0;
            match bit_of_key(e.code) {
                Some(b) => {
                    s.buttons = if down {
                        s.buttons | b
                    } else {
                        s.buttons & !b
                    };
                },
                None => {
                    let v: u8 = if down {
                        255
                    } else {
                        0
                    };
                    if e.code == btn::TL2 && !self.has_axis_triggers {
                        s.lt = v;
                    } else if e.code == btn::TR2 && !self.has_axis_triggers {
                        s.rt = v;
                    }
                },
            }
        } else if e.ty == ev::ABS {
            if e.code == abs::X {
                s.lx = a.stick;
            } else if e.code == abs::Y {
                s.ly = a.stick;
            } else if e.code == abs::RX {
                s.rx = a.stick;
            } else if e.code == abs::RY {
                s.ry = a.stick;
            } else if e.code == abs::Z && self.has_axis_triggers {
                s.lt = a.trigger;
            } else if e.code == abs::RZ && self.has_axis_triggers {
                s.rt = a.trigger;
            } else if e.code == abs::HAT0X {
                s.buttons = Self::hat(s.buttons, bit::DPAD_LEFT, bit::DPAD_RIGHT, e.value);
            } else if e.code == abs::HAT0Y {
                s.buttons = Self::hat(s.buttons, bit::DPAD_UP, bit::DPAD_DOWN, e.value);
            }
        }
        self.state = s;
        s != before
    }

    fn hat(w: u16, negative: u16, positive: u16, value: i32) -> (r: u16)
        ensures
            r == hat_applied(w, negative, positive, value),
    {
        let cleared: u16 = w & !(negative | positive);
        if value < 0 {
            cleared | negative
        } else if value > 0 {
            cleared | positive
        } else {
            cleared
        }
    }

    /// Take in one event. At the end of a report that changed something, the
    /// state goes out with the stamp of the report's latest event.
    pub fn feed(&mut self, e: &InputEvent, a: Scaled) -> (r: Option<(PadState, u64)>)
        ensures
            *final(self) == decoder_after(*old(self), *e, a),
            r == goes_out(*old(self), *e),
    {
        if e.ty == ev::SYN && e.code == SYN_REPORT {
            if self.pending_dirty {
                self.pending_dirty = false;
                return Some((self.state, self.pending_time_us));
            }
            return None;
        }
        self.pending_time_us = e.time_us();
        if self.apply(e, a) {
            self.pending_dirty = true;
        }
        None
    }
}

/// One more read fits into the budget.
pub open spec fn read_fits(emitted: int, capacity: int, budget: int) -> bool {
    emitted + capacity / 2 <= budget
}

/// Whether one more read may be made: a read of `capacity` events ends at most
/// half as many reports, and those must fit into the budget.
pub fn has_room(emitted: usize, capacity: usize, budget: usize) -> (r: bool)
    requires
        emitted + capacity / 2 <= usize::MAX,
    ensures
        r == read_fits(emitted as int, capacity as int, budget as int),
{
    emitted + capacity / 2 <= budget
}

/// A key event that goes down and up again leaves the state as it was where the
/// button was up before.
pub proof fn law_press_and_release_cancel(s: PadState, axis_triggers: bool, code: u16, b: u16)
    requires
        key_bit(code) == Some(b),
        s.buttons & b == 0,
    ensures
        key_applied(key_applied(s, axis_triggers, code, true), axis_triggers, code, false) == s,
{
    let w = s.buttons;
    assert((w | b) & !b == w) by (bit_vector)
        requires
            w & b == 0,
    ;
}

// ---- laws -------------------------------------------------------------------

/// The number in the button word of the button that a key code stands for; -1 where it
/// stands for none.
pub open spec fn button_number(code: u16) -> int {
    if code == 0x130 {
        12
    } else if code == 0x131 {
        13
    } else if code == 0x133 {
        14
    } else if code == 0x134 {
        15
    } else if code == 0x136 {
        8
    } else if code == 0x137 {
        9
    } else if code == 0x13a {
        5
    } else if code == 0x13b {
        4
    } else if code == 0x13c {
        10
    } else if code == 0x13d {
        6
    } else if code == 0x13e {
        7
    } else if code == 0x220 {
        0
    } else if code == 0x221 {
        1
    } else if code == 0x222 {
        2
    } else if code == 0x223 {
        3
    } else {
        -1
    }
}

/// A key event sets its button where its value is not zero, and lets it go where it is: that
/// button alone, every other one and all axes being as before. A key that stands for no
/// button changes no button.
pub proof fn law_a_key_moves_its_own_button(
    s: PadState,
    axis_triggers: bool,
    e: InputEvent,
    a: Scaled,
)
    requires
        e.ty == 1,
    ensures
        ({
            let n = applied(s, axis_triggers, e, a);
            let k = button_number(e.code);
            &&& forall|i: int|
                0 <= i < 16 ==> #[trigger] crate::bits::bit(n.buttons, i) == if i == k {
                    e.value != 0
                } else {
                    crate::bits::bit(s.buttons, i)
                }
            &&& n.lx == s.lx && n.ly == s.ly && n.rx == s.rx && n.ry == s.ry
            &&& k >= 0 ==> n.lt == s.lt && n.rt == s.rt
        }),
{
    broadcast use crate::bits::group_bit;

    crate::bits::lemma_flags();
}

/// The two trigger keys press their triggers fully or let them go, where the triggers are no
/// axes; where they are, and on every other key, the triggers stay.
pub proof fn law_trigger_keys_are_all_or_nothing(
    s: PadState,
    axis_triggers: bool,
    e: InputEvent,
    a: Scaled,
)
    requires
        e.ty == 1,
    ensures
        ({
            let n = applied(s, axis_triggers, e, a);
            let full: int = if e.value != 0 {
                255
            } else {
                0
            };
            &&& n.lt == if e.code == 0x138 && !axis_triggers {
                full
            } else {
                s.lt as int
            }
            &&& n.rt == if e.code == 0x139 && !axis_triggers {
                full
            } else {
                s.rt as int
            }
        }),
{
}

/// After an event of the vertical hat axis, up is set exactly where the value is negative and
/// down exactly where it is positive; after one of the horizontal axis, left and right are.
/// All other buttons, the sticks and the triggers are as before.
pub proof fn law_a_hat_sets_its_two_directions(
    s: PadState,
    axis_triggers: bool,
    e: InputEvent,
    a: Scaled,
)
    requires
        e.ty == 3,
        e.code == 0x10 || e.code == 0x11,
    ensures
        ({
            let n = applied(s, axis_triggers, e, a);
            let (negative, positive): (int, int) = if e.code == 0x11 {
                (0, 1)
            } else {
                (2, 3)
            };
            &&& crate::bits::bit(n.buttons, negative) == (e.value < 0)
            &&& crate::bits::bit(n.buttons, positive) == (e.value > 0)
            &&& forall|i: int|
                0 <= i < 16 && i != negative && i != positive ==> #[trigger] crate::bits::bit(
                    n.buttons,
                    i,
                ) == crate::bits::bit(s.buttons, i)
            &&& n == (PadState { buttons: n.buttons, ..s })
        }),
{
    broadcast use crate::bits::group_bit;

    crate::bits::lemma_flags();
}

/// The hat and the direction keys agree: a hat pushed one way leaves the pad as the key of
/// that direction does, where the opposite direction was up.
pub proof fn law_hat_and_direction_keys_agree(
    s: PadState,
    axis_triggers: bool,
    axis: InputEvent,
    key: InputEvent,
    a: Scaled,
)
    requires
        axis.ty == 3 && axis.value != 0,
        key.ty == 1 && key.value != 0,
        axis.code == 0x11 && axis.value < 0 && key.code == 0x220 && !crate::bits::bit(s.buttons, 1)
            || axis.code == 0x11 && axis.value > 0 && key.code == 0x221 && !crate::bits::bit(
            s.buttons,
            0,
        ) || axis.code == 0x10 && axis.value < 0 && key.code == 0x222 && !crate::bits::bit(
            s.buttons,
            3,
        ) || axis.code == 0x10 && axis.value > 0 && key.code == 0x223 && !crate::bits::bit(
            s.buttons,
            2,
        ),
    ensures
        applied(s, axis_triggers, axis, a) == applied(s, axis_triggers, key, a),
{
    law_a_hat_sets_its_two_directions(s, axis_triggers, axis, a);
    law_a_key_moves_its_own_button(s, axis_triggers, key, a);
    let x = applied(s, axis_triggers, axis, a).buttons;
    let y = applied(s, axis_triggers, key, a).buttons;
    assert forall|i: int| 0 <= i < 16 implies crate::bits::bit(x, i) == crate::bits::bit(y, i) by {}
    crate::bits::lemma_same_bits(x, y);
}

/// Each stick and trigger axis moves its own field, by its number, and nothing else; the
/// triggers only where they are axes. No other axis moves anything but the hat.
pub proof fn law_an_axis_moves_its_own_field(
    s: PadState,
    axis_triggers: bool,
    e: InputEvent,
    a: Scaled,
)
    requires
        e.ty == 3,
        e.code != 0x10 && e.code != 0x11,
    ensures
        ({
            let n = applied(s, axis_triggers, e, a);
            &&& n.buttons == s.buttons
            &&& n.lx == if e.code == 0 {
                a.stick
            } else {
                s.lx
            }
            &&& n.ly == if e.code == 1 {
                a.stick
            } else {
                s.ly
            }
            &&& n.rx == if e.code == 3 {
                a.stick
            } else {
                s.rx
            }
            &&& n.ry == if e.code == 4 {
                a.stick
            } else {
                s.ry
            }
            &&& n.lt == if e.code == 2 && axis_triggers {
                a.trigger
            } else {
                s.lt
            }
            &&& n.rt == if e.code == 5 && axis_triggers {
                a.trigger
            } else {
                s.rt
            }
        }),
{
}

/// An event that is neither of a key nor of an axis changes nothing.
pub proof fn law_other_events_change_nothing(
    s: PadState,
    axis_triggers: bool,
    e: InputEvent,
    a: Scaled,
)
    requires
        e.ty != 1 && e.ty != 3,
    ensures
        applied(s, axis_triggers, e, a) == s,
{
}

/// A change goes out with the report that holds it, not before and not twice: an event hands
/// nothing out, the end of the report hands out the new state with the event's stamp exactly
/// where something changed, and a second end hands out nothing.
pub proof fn law_a_change_goes_out_once(
    d: Decoder,
    e: InputEvent,
    end: InputEvent,
    a: Scaled,
)
    requires
        !d.pending_dirty,
        e.ty == 1 || e.ty == 3,
        end.ty == 0 && end.code == 0,
    ensures
        ({
            let d1 = decoder_after(d, e, a);
            let d2 = decoder_after(d1, end, a);
            &&& goes_out(d, e) is None
            &&& goes_out(d1, end) is Some <==> d1.state != d.state
            &&& goes_out(d1, end) matches Some(g) ==> g.0 == applied(
                d.state,
                d.has_axis_triggers,
                e,
                a,
            ) && g.1 == stamp_of(e)
            &&& goes_out(d2, end) is None
            &&& d2.state == d1.state
        }),
{
}

/// A report of two events goes out whole: both changes, with the later stamp.
pub proof fn law_a_report_goes_out_whole(
    d: Decoder,
    first: InputEvent,
    second: InputEvent,
    end: InputEvent,
    a: Scaled,
    b: Scaled,
)
    requires
        first.ty == 1 || first.ty == 3,
        second.ty == 1 || second.ty == 3,
        end.ty == 0 && end.code == 0,
        applied(d.state, d.has_axis_triggers, first, a) != d.state,
    ensures
        ({
            let d1 = decoder_after(d, first, a);
            let d2 = decoder_after(d1, second, b);
            &&& goes_out(d1, second) is None
            &&& goes_out(d2, end) == Some(
                (
                    applied(
                        applied(d.state, d.has_axis_triggers, first, a),
                        d.has_axis_triggers,
                        second,
                        b,
                    ),
                    stamp_of(second),
                ),
            )
        }),
{
}

/// A stamp is the kernel's seconds and microseconds as microseconds.
pub proof fn law_a_stamp_is_in_microseconds(e: InputEvent)
    requires
        0 <= e.tv_sec < 0x1000_0000_0000,
        0 <= e.tv_usec < 1_000_000,
    ensures
        stamp_of(e) / 1_000_000 == e.tv_sec,
        stamp_of(e) % 1_000_000 == e.tv_usec,
{
}

/// A device is a pad exactly where the lowest bit of byte 38 of its keys is set, which is that
/// of the first pad button.
pub proof fn law_a_pad_has_the_first_pad_button(bits: Seq<u8>)
    ensures
        pad_keys(bits) <==> bits.len() > 38 && bits[38] % 2 == 1,
{
    if bits.len() > 38 {
        let x = bits[38];
        assert((x >> 0u8) & 1 == 1 <==> x % 2 == 1) by (bit_vector);
    }
}

/// The dead zone is symmetric, reaches up to 7849 on both sides, and leaves a position
/// outside it as it is.
pub proof fn law_the_deadzone_is_symmetric(v: int)
    ensures
        without_deadzone(-v) == -without_deadzone(v),
        without_deadzone(v) == 0 || without_deadzone(v) == v,
        v * v <= 7849 * 7849 <==> without_deadzone(v) == 0,
{
    assert(v * v <= 7849 * 7849 <==> -7849 <= v <= 7849) by (nonlinear_arith);
}

/// Of the pad's axes only the two vertical stick axes are turned round.
pub proof fn law_only_vertical_sticks_turn(code: u16)
    ensures
        turned_round(code) <==> code == 1 || code == 4,
{
}

/// An axis is missing exactly where both bounds are zero.
pub proof fn law_an_axis_without_bounds_is_missing(minimum: i32, maximum: i32)
    ensures
        !axis_there(minimum, maximum) <==> minimum == maximum && maximum == 0,
{
}

/// There is room for a read exactly where every number of reports that it can end would fit:
/// a report takes two events at least.
pub proof fn law_room_is_for_every_outcome(emitted: int, capacity: int, budget: int)
    requires
        0 <= capacity,
    ensures
        read_fits(emitted, capacity, budget) <==> forall|n: int|
            0 <= n && #[trigger] (2 * n) <= capacity ==> emitted + n <= budget,
{
    let n = capacity / 2;
    assert(2 * n <= capacity);
}

/// The order of the devices is a rearrangement: every place is in it.
pub proof fn law_the_order_misses_no_device(keys: Seq<u32>, r: Seq<usize>)
    requires
        is_order(keys, r),
    ensures
        r.no_duplicates(),
        forall|i: int, j: int|
            0 <= i < j < r.len() ==> keys[#[trigger] r[i] as int] <= keys[#[trigger] r[j] as int],
{
}

/// The number behind the last "event" of a path is read back.
pub proof fn law_the_last_event_counts(s: Seq<char>, n: int, k: int)
    requires
        0 <= k <= n,
        at(s, "event"@, k),
        forall|j: int| k < j <= n ==> !at(s, "event"@, j),
    ensures
        last_event(s, n) == Some(k),
    decreases n,
{
    if n > k {
        law_the_last_event_counts(s, n - 1, k);
    }
}

} // verus!
