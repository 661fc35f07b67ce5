//! Reading a HID gamepad: which devices are gamepads, what they are called, the
//! edges between two reports, and the whole state of one report.
//!
//! Times are nanoseconds of one clock.

use crate::button::{hid_button, map_button};
use crate::input::{since, InputMsg};
use crate::text::{
    chars_of, hex, put, put_hex, string_of, text_of_units, trim, trimmed, utf16, utf16_text, wide,
};
use vstd::prelude::*;
use vstd::string::StringExecFns;

verus! {

/// Which HID gamepad: the path of its interface, and its vendor and product.
#[derive(Debug)]
pub struct HidDeviceId {
    pub path: String,
    pub vid: u16,
    pub pid: u16,
}

impl HidDeviceId {
    /// What is kept of the device between sessions: its path.
    pub fn to_persist(&self) -> (r: String)
        ensures
            r@ == self.path@,
    {
        String::from_str(self.path.as_str())
    }
}

/// A HID gamepad that was found.
#[derive(Debug)]
pub struct HidDeviceInfo {
    pub id: HidDeviceId,
    pub product: String,
    pub usage_page: u16,
    pub usage: u16,
    pub button_count: u16,
}

impl HidDeviceInfo {
    /// Which device it is.
    pub fn id(&self) -> (r: HidDeviceId)
        ensures
            r.path@ == self.id.path@,
            r.vid == self.id.vid,
            r.pid == self.id.pid,
    {
        HidDeviceId {
            path: String::from_str(self.id.path.as_str()),
            vid: self.id.vid,
            pid: self.id.pid,
        }
    }
}

/// The generic desktop page.
pub const DESKTOP_PAGE: u16 = 0x01;

/// A joystick, and a gamepad, on that page.
pub const USAGE_JOYSTICK: u16 = 0x04;

pub const USAGE_GAMEPAD: u16 = 0x05;

/// The usage is that of a gamepad or a joystick.
pub open spec fn gamepad_usage(usage_page: u16, usage: u16) -> bool {
    usage_page == DESKTOP_PAGE && (usage == USAGE_JOYSTICK || usage == USAGE_GAMEPAD)
}

/// Whether a device's usage makes it a gamepad.
pub fn is_gamepad(usage_page: u16, usage: u16) -> (r: bool)
    ensures
        r == gamepad_usage(usage_page, usage),
{
    usage_page == DESKTOP_PAGE && (usage == USAGE_JOYSTICK || usage == USAGE_GAMEPAD)
}

/// A text as the wide string that Windows takes.
pub fn to_wide(s: &str) -> (r: Vec<u16>)
    ensures
        r@ == utf16(s@).push(0),
{
    wide(s)
}

/// The code units in some bytes, low byte first, up to the first zero.
pub open spec fn units_in(b: Seq<u8>) -> Seq<u16>
    decreases b.len(),
{
    if b.len() < 2 || (b[0] == 0 && b[1] == 0) {
        Seq::empty()
    } else {
        seq![(b[0] + 256 * b[1]) as u16] + units_in(b.skip(2))
    }
}

/// The text in some bytes: UTF-16, low byte first, up to the first zero.
pub fn wide_from_bytes(bytes: &[u8]) -> (r: String)
    ensures
        r@ == utf16_text(units_in(bytes@)),
{
    let n: usize = bytes.len();
    assert(n == bytes@.len());
    let mut units: Vec<u16> = Vec::new();
    let mut i: usize = 0;
    assert(units@ + units_in(bytes@.skip(0)) =~= units_in(bytes@)) by {
        assert(bytes@.skip(0) =~= bytes@);
    }
    while n - i >= 2
        invariant_except_break
            units@ + units_in(bytes@.skip(i as int)) == units_in(bytes@),
        invariant
            i <= n == bytes@.len(),
        ensures
            units@ == units_in(bytes@),
        decreases n - i,
    {
        let u: u16 = bytes[i] as u16 + 256 * bytes[i + 1] as u16;
        let ghost rest = bytes@.skip(i as int);
        assert(rest[0] == bytes@[i as int] && rest[1] == bytes@[i + 1]);
        if u == 0 {
            assert(units@ + units_in(rest) =~= units@);
            break;
        }
        let ghost before = units@;
        units.push(u);
        i += 2;
        proof {
            assert(rest.skip(2) =~= bytes@.skip(i as int));
            assert(units@ + units_in(bytes@.skip(i as int)) =~= before + units_in(rest));
        }
        if n - i < 2 {
            assert(units@ + units_in(bytes@.skip(i as int)) =~= units@);
        }
    }
    text_of_units(units.as_slice())
}

/// The code units before the first zero.
pub open spec fn before_zero(u: Seq<u16>) -> Seq<u16>
    decreases u.len(),
{
    if u.len() == 0 || u[0] == 0 {
        Seq::empty()
    } else {
        seq![u[0]] + before_zero(u.skip(1))
    }
}

/// A device by vendor and product: four hexadecimal digits each.
pub open spec fn numbers_name(vid: u16, pid: u16) -> Seq<char> {
    hex(vid as nat, 4, true) + ":"@ + hex(pid as nat, 4, true)
}

/// What a device calls itself; its numbers where it says nothing.
pub open spec fn name_of(product: Option<Seq<u16>>, vid: u16, pid: u16) -> Seq<char> {
    match product {
        Some(u) => {
            let p = utf16_text(before_zero(u));
            if trim(p).len() == 0 {
                numbers_name(vid, pid)
            } else {
                p
            }
        },
        None => numbers_name(vid, pid),
    }
}

fn numbers(vid: u16, pid: u16) -> (r: String)
    ensures
        r@ == numbers_name(vid, pid),
{
    let mut out: Vec<char> = Vec::new();
    put_hex(&mut out, vid as u32, 4, true);
    put(&mut out, ":");
    put_hex(&mut out, pid as u32, 4, true);
    assert(out@ =~= numbers_name(vid, pid));
    string_of(&out)
}

/// The product string as the device gave it, if it did.
pub open spec fn given(product: Option<Vec<u16>>) -> Option<Seq<u16>> {
    match product {
        Some(u) => Some(u@),
        None => None,
    }
}

/// The name to show for a device: the product string in the buffer it filled, or
/// its numbers.
pub fn product_name(product: Option<Vec<u16>>, vid: u16, pid: u16) -> (r: String)
    ensures
        r@ == name_of(given(product), vid, pid),
{
    match product {
        Some(u) => {
            let n: usize = u.len();
            let mut kept: Vec<u16> = Vec::new();
            let mut i: usize = 0;
            assert(u@.skip(0) =~= u@);
            assert(kept@ + before_zero(u@) =~= before_zero(u@));
            while i < n && u[i] != 0
                invariant
                    i <= n == u@.len(),
                    kept@ + before_zero(u@.skip(i as int)) == before_zero(u@),
                decreases n - i,
            {
                let ghost before = kept@;
                let ghost rest = u@.skip(i as int);
                kept.push(u[i]);
                i += 1;
                proof {
                    assert(rest.skip(1) =~= u@.skip(i as int));
                    assert(kept@ + before_zero(u@.skip(i as int)) =~= before + before_zero(rest));
                }
            }
            assert(kept@ + before_zero(u@.skip(i as int)) =~= kept@);
            let p: String = text_of_units(kept.as_slice());
            if trimmed(&chars_of(p.as_str())).len() == 0 {
                numbers(vid, pid)
            } else {
                p
            }
        },
        None => numbers(vid, pid),
    }
}

// ---- edges between two reports ------------------------------------------------
/// The button indices of some usages, counted from `usage_min`.
pub open spec fn indices(usages: Seq<u16>, usage_min: u16) -> Seq<u16> {
    Seq::new(usages.len(), |i: int| usages[i].wrapping_sub(usage_min))
}

/// The presses told of the first `n` indices of a report: those that were not down
/// before and are buttons.
pub open spec fn presses(prev: Seq<u16>, cur: Seq<u16>, now: u64, n: nat) -> Seq<InputMsg>
    decreases n,
{
    if n == 0 {
        Seq::empty()
    } else {
        let rest = presses(prev, cur, now, (n - 1) as nat);
        match hid_button(cur[n - 1] as int) {
            Some(b) => if prev.contains(cur[n - 1]) {
                rest
            } else {
                rest.push(InputMsg::Pressed(0, b, now))
            },
            None => rest,
        }
    }
}

/// The releases told of the first `n` indices of the report before: those that are
/// no longer down and are buttons.
pub open spec fn releases(prev: Seq<u16>, cur: Seq<u16>, now: u64, n: nat) -> Seq<InputMsg>
    decreases n,
{
    if n == 0 {
        Seq::empty()
    } else {
        let rest = releases(prev, cur, now, (n - 1) as nat);
        match hid_button(prev[n - 1] as int) {
            Some(b) => if cur.contains(prev[n - 1]) {
                rest
            } else {
                rest.push(InputMsg::Released(0, b, now))
            },
            None => rest,
        }
    }
}

fn is_in(v: &Vec<u16>, x: u16) -> (r: bool)
    ensures
        r == v@.contains(x),
{
    let mut i: usize = 0;
    while i < v.len()
        invariant
            i <= v@.len(),
            forall|j: int| 0 <= j < i ==> v@[j] != x,
        decreases v@.len() - i,
    {
        if v[i] == x {
            return true;
        }
        i += 1;
    }
    false
}

/// The reader of one gamepad's button edges.
pub struct HidButtons {
    /// The indices that were down in the last report.
    pub prev: Vec<u16>,
    pub last_change: Option<u64>,
    /// The shortest interval between two reports so far.
    pub min_interval: Option<u64>,
    pub last_publish: u64,
}

impl HidButtons {
    /// A reader that starts at `now`.
    pub fn new(now: u64) -> (r: Self)
        ensures
            r.prev@.len() == 0,
            r.last_change is None,
            r.min_interval is None,
            r.last_publish == now,
    {
        HidButtons { prev: Vec::new(), last_change: None, min_interval: None, last_publish: now }
    }

    /// Take a report at `now`: the usages that are down, or `None` where the report
    /// could not be decoded, which changes nothing. Presses come before releases.
    pub fn report(&mut self, usages: Option<Vec<u16>>, usage_min: u16, now: u64) -> (r: Vec<
        InputMsg,
    >)
        ensures
            final(self).prev@ == (match usages {
                Some(u) => indices(u@, usage_min),
                None => old(self).prev@,
            }),
            r@ == presses(
                old(self).prev@,
                final(self).prev@,
                now,
                final(self).prev@.len(),
            ) + releases(old(self).prev@, final(self).prev@, now, old(self).prev@.len()),
            final(self).last_change == Some(now),
            final(self).min_interval == crate::scan::shortest(
                old(self).min_interval,
                old(self).last_change,
                now,
            ),
            final(self).last_publish == old(self).last_publish,
    {
        match self.last_change {
            Some(t) => {
                let d: u64 = if now >= t {
                    now - t
                } else {
                    0
                };
                let shorter = match self.min_interval {
                    Some(m) => d < m,
                    None => true,
                };
                if d > crate::scan::SHORTEST_NS && d < crate::scan::LONGEST_NS && shorter {
                    self.min_interval = Some(d);
                }
            },
            None => {},
        }
        self.last_change = Some(now);
        let u: Vec<u16> = match usages {
            None => {
                proof {
                    lemma_nothing_changed(self.prev@, now, self.prev@.len());
                }
                let r: Vec<InputMsg> = Vec::new();
                assert(r@ =~= presses(self.prev@, self.prev@, now, self.prev@.len()) + releases(
                    self.prev@,
                    self.prev@,
                    now,
                    self.prev@.len(),
                ));
                return r;
            },
            Some(u) => u,
        };
        let mut cur: Vec<u16> = Vec::new();
        let mut i: usize = 0;
        while i < u.len()
            invariant
                i <= u@.len(),
                cur@ == indices(u@.take(i as int), usage_min),
            decreases u@.len() - i,
        {
            cur.push(u[i].wrapping_sub(usage_min));
            i += 1;
            assert(cur@ =~= indices(u@.take(i as int), usage_min));
        }
        assert(u@.take(i as int) =~= u@);
        let mut r: Vec<InputMsg> = Vec::new();
        let mut k: usize = 0;
        assert(r@ =~= presses(self.prev@, cur@, now, 0));
        while k < cur.len()
            invariant
                k <= cur@.len(),
                r@ == presses(self.prev@, cur@, now, k as nat),
            decreases cur@.len() - k,
        {
            if !is_in(&self.prev, cur[k]) {
                match map_button(cur[k] as usize) {
                    Some(b) => {
                        r.push(InputMsg::Pressed(0, b, now));
                    },
                    None => {},
                }
            }
            k += 1;
        }
        let ghost p = r@;
        let mut m: usize = 0;
        assert(p + releases(self.prev@, cur@, now, 0) =~= p);
        while m < self.prev.len()
            invariant
                m <= self.prev@.len(),
                r@ == p + releases(self.prev@, cur@, now, m as nat),
            decreases self.prev@.len() - m,
        {
            let ghost before = r@;
            let ghost q = releases(self.prev@, cur@, now, m as nat);
            if !is_in(&cur, self.prev[m]) {
                match map_button(self.prev[m] as usize) {
                    Some(b) => {
                        r.push(InputMsg::Released(0, b, now));
                        assert(r@ =~= p + q.push(InputMsg::Released(0, b, now)));
                    },
                    None => {},
                }
            }
            m += 1;
        }
        self.prev = cur;
        r
    }

    /// Whether the device is to be announced again, which is once a second.
    pub fn publish_due(&mut self, now: u64) -> (r: bool)
        ensures
            r == (since(now, old(self).last_publish) >= crate::scan::PUBLISH_NS),
            *final(self) == (HidButtons {
                last_publish: if r {
                    now
                } else {
                    old(self).last_publish
                },
                ..*old(self)
            }),
    {
        if now >= self.last_publish && now - self.last_publish >= crate::scan::PUBLISH_NS {
            self.last_publish = now;
            true
        } else {
            false
        }
    }
}

proof fn lemma_nothing_changed(prev: Seq<u16>, now: u64, n: nat)
    requires
        n <= prev.len(),
    ensures
        presses(prev, prev, now, n) =~= Seq::empty(),
        releases(prev, prev, now, n) =~= Seq::empty(),
    decreases n,
{
    if n > 0 {
        lemma_nothing_changed(prev, now, (n - 1) as nat);
        assert(prev.contains(prev[n - 1]));
    }
}

/// A report with the same buttons down as the one before tells no edge.
pub proof fn law_same_report_tells_nothing(prev: Seq<u16>, now: u64)
    ensures
        presses(prev, prev, now, prev.len()) + releases(prev, prev, now, prev.len())
            == Seq::<InputMsg>::empty(),
{
    lemma_nothing_changed(prev, now, prev.len());
    assert(presses(prev, prev, now, prev.len()) + releases(prev, prev, now, prev.len())
        =~= Seq::<InputMsg>::empty());
}

// ---- the whole state of one report ------------------------------------------
/// A gamepad's state in the layout of an XInput pad. There is no right stick.
#[derive(Clone, Copy, Debug, PartialEq, Eq, Structural)]
pub struct HidState {
    pub buttons: u16,
    pub lt: u8,
    pub rt: u8,
    pub lx: i16,
    pub ly: i16,
}

/// Nothing held.
pub open spec fn at_rest() -> HidState {
    HidState { buttons: 0, lt: 0, rt: 0, lx: 0, ly: 0 }
}

/// The bit of a button index, 0 for one that has none.
pub open spec fn xinput_bit(idx: int) -> u16 {
    if idx == 0 {
        0x1000
    } else if idx == 1 {
        0x2000
    } else if idx == 2 {
        0x4000
    } else if idx == 3 {
        0x8000
    } else if idx == 4 {
        0x0100
    } else if idx == 5 {
        0x0200
    } else if idx == 8 {
        0x0020
    } else if idx == 9 {
        0x0010
    } else if idx == 10 {
        0x0040
    } else if idx == 11 {
        0x0080
    } else if idx == 12 {
        0x0400
    } else {
        0
    }
}

/// The state with one more button held. The two lower triggers pull all the way.
pub open spec fn with_button(s: HidState, idx: int) -> HidState {
    if idx == 6 {
        HidState { lt: 255, ..s }
    } else if idx == 7 {
        HidState { rt: 255, ..s }
    } else {
        HidState { buttons: s.buttons | xinput_bit(idx), ..s }
    }
}

/// Hold the button of an index.
pub fn apply_hid_button(s: &mut HidState, idx: usize)
    ensures
        *final(s) == with_button(*old(s), idx as int),
{
    if idx == 6 {
        s.lt = 255;
    } else if idx == 7 {
        s.rt = 255;
    } else {
        let bit: u16 = match idx {
            0 => 0x1000,
            1 => 0x2000,
            2 => 0x4000,
            3 => 0x8000,
            4 => 0x0100,
            5 => 0x0200,
            8 => 0x0020,
            9 => 0x0010,
            10 => 0x0040,
            11 => 0x0080,
            12 => 0x0400,
            _ => 0,
        };
        s.buttons = s.buttons | bit;
    }
}

/// The hat points up, in any of three ways.
pub open spec fn hat_up(dir: u32) -> bool {
    dir == 7 || dir == 0 || dir == 1
}

pub open spec fn hat_right(dir: u32) -> bool {
    1 <= dir <= 3
}

pub open spec fn hat_down(dir: u32) -> bool {
    3 <= dir <= 5
}

pub open spec fn hat_left(dir: u32) -> bool {
    5 <= dir <= 7
}

/// The state with the hat at `dir`, clockwise from 0 at the top; 8 and above is
/// neutral. The direction shows on the directional pad and on the left stick.
pub open spec fn with_hat(s: HidState, dir: u32) -> HidState {
    HidState {
        buttons: s.buttons | (if hat_up(dir) {
            0x0001u16
        } else {
            0
        }) | (if hat_down(dir) {
            0x0002u16
        } else {
            0
        }) | (if hat_left(dir) {
            0x0004u16
        } else {
            0
        }) | (if hat_right(dir) {
            0x0008u16
        } else {
            0
        }),
        lx: if hat_right(dir) {
            32767
        } else if hat_left(dir) {
            i16::MIN
        } else {
            s.lx
        },
        ly: if hat_up(dir) {
            32767
        } else if hat_down(dir) {
            i16::MIN
        } else {
            s.ly
        },
        ..s
    }
}

/// Point the hat.
pub fn apply_hat(s: &mut HidState, dir: u32)
    ensures
        *final(s) == with_hat(*old(s), dir),
{
    let up = dir == 7 || dir == 0 || dir == 1;
    let right = 1 <= dir && dir <= 3;
    let down = 3 <= dir && dir <= 5;
    let left = 5 <= dir && dir <= 7;
    let u: u16 = if up {
        0x0001
    } else {
        0
    };
    let d: u16 = if down {
        0x0002
    } else {
        0
    };
    let l: u16 = if left {
        0x0004
    } else {
        0
    };
    let r: u16 = if right {
        0x0008
    } else {
        0
    };
    s.buttons = s.buttons | u | d | l | r;
    if up {
        s.ly = 32767;
    } else if down {
        s.ly = -32768;
    }
    if right {
        s.lx = 32767;
    } else if left {
        s.lx = -32768;
    }
}

/// The state with the first `n` of some usages held.
pub open spec fn with_usages(usages: Seq<u16>, usage_min: u16, n: nat) -> HidState
    decreases n,
{
    if n == 0 {
        at_rest()
    } else {
        with_button(
            with_usages(usages, usage_min, (n - 1) as nat),
            usages[n - 1].wrapping_sub(usage_min) as int,
        )
    }
}

/// The state of one report: the usages that are down, and where the hat points.
pub open spec fn state_of(usages: Option<Seq<u16>>, usage_min: u16, hat: Option<u32>) -> HidState {
    let s = match usages {
        Some(u) => with_usages(u, usage_min, u.len()),
        None => at_rest(),
    };
    match hat {
        Some(dir) => with_hat(s, dir),
        None => s,
    }
}

/// Decode one report: the usages that are down and where the hat points, `None` for
/// what the report did not say.
pub fn decode_state(usages: Option<Vec<u16>>, usage_min: u16, hat: Option<u32>) -> (r: HidState)
    ensures
        r == state_of(given(usages), usage_min, hat),
{
    let mut s = HidState { buttons: 0, lt: 0, rt: 0, lx: 0, ly: 0 };
    match usages {
        Some(u) => {
            let mut i: usize = 0;
            while i < u.len()
                invariant
                    i <= u@.len(),
                    s == with_usages(u@, usage_min, i as nat),
                decreases u@.len() - i,
            {
                apply_hid_button(&mut s, u[i].wrapping_sub(usage_min) as usize);
                i += 1;
            }
        },
        None => {},
    }
    match hat {
        Some(dir) => {
            apply_hat(&mut s, dir);
        },
        None => {},
    }
    s
}

/// The latest state of a gamepad, between its reader and the sync loop.
#[derive(Clone, Copy, Debug, PartialEq, Eq, Structural)]
pub struct HidSnapshot {
    pub state: HidState,
    /// The device is open and reporting.
    pub present: bool,
    /// The reader is asked to end.
    pub stopping: bool,
}

impl HidSnapshot {
    /// Nothing held, nothing there.
    pub fn new() -> (r: Self)
        ensures
            r == (HidSnapshot { state: at_rest(), present: false, stopping: false }),
    {
        HidSnapshot {
            state: HidState { buttons: 0, lt: 0, rt: 0, lx: 0, ly: 0 },
            present: false,
            stopping: false,
        }
    }

    /// Ask the reader to end.
    pub fn stop(&mut self)
        ensures
            *final(self) == (HidSnapshot { stopping: true, ..*old(self) }),
    {
        self.stopping = true;
    }

    /// Whether the device is open and reporting.
    pub fn is_present(&self) -> (r: bool)
        ensures
            r == self.present,
    {
        self.present
    }

    /// The latest state: buttons, triggers and left stick.
    pub fn read(&self) -> (r: (u16, u8, u8, i16, i16))
        ensures
            r == (
                self.state.buttons,
                self.state.lt,
                self.state.rt,
                self.state.lx,
                self.state.ly,
            ),
    {
        (self.state.buttons, self.state.lt, self.state.rt, self.state.lx, self.state.ly)
    }

    /// Put a new state in.
    pub fn write(&mut self, buttons: u16, lt: u8, rt: u8, lx: i16, ly: i16)
        ensures
            *final(self) == (HidSnapshot {
                state: HidState { buttons, lt, rt, lx, ly },
                ..*old(self)
            }),
    {
        self.state = HidState { buttons, lt, rt, lx, ly };
    }
}

/// A hat never points two opposite ways.
pub proof fn law_hat_has_one_direction(dir: u32)
    ensures
        !(hat_up(dir) && hat_down(dir)),
        !(hat_left(dir) && hat_right(dir)),
        dir >= 8 ==> with_hat(at_rest(), dir) == at_rest(),
{
    if dir >= 8 {
        assert(0u16 | 0u16 | 0u16 | 0u16 | 0u16 == 0u16) by (bit_vector);
    }
}

/// Gamepads are usages 4 and 5 of page 1.
pub proof fn law_gamepads_are_two_usages(usage_page: u16, usage: u16)
    ensures
        gamepad_usage(usage_page, usage) <==> usage_page == 1 && 4 <= usage <= 5,
{
}

/// The number in the button word of the button of an index: the four faces, the shoulders,
/// then the two small ones, the sticks and the guide; -1 where it has none.
pub open spec fn number_of_index(idx: int) -> int {
    if 0 <= idx <= 3 {
        12 + idx
    } else if 4 <= idx <= 5 {
        4 + idx
    } else if idx == 8 {
        5
    } else if idx == 9 {
        4
    } else if 10 <= idx <= 11 {
        idx - 4
    } else if idx == 12 {
        10
    } else {
        -1
    }
}

/// Holding a button sets its own bit and no other; the two lower triggers pull their trigger
/// all the way and leave the word; sticks stay.
pub proof fn law_a_button_sets_its_own_bit(s: HidState, idx: int)
    ensures
        ({
            let n = with_button(s, idx);
            &&& forall|i: int|
                0 <= i < 16 ==> #[trigger] crate::bits::bit(n.buttons, i) == (crate::bits::bit(
                    s.buttons,
                    i,
                ) || i == number_of_index(idx))
            &&& n.lt == if idx == 6 {
                255
            } else {
                s.lt as int
            }
            &&& n.rt == if idx == 7 {
                255
            } else {
                s.rt as int
            }
            &&& n.lx == s.lx && n.ly == s.ly
        }),
{
    broadcast use crate::bits::group_bit;

    crate::bits::lemma_flags();
}

/// The two ways of reading a pad agree on which bit is which button: a button that both know
/// has the same bit in both.
pub proof fn law_both_readers_agree_on_the_bits(idx: int, k: int)
    requires
        0 <= k < 14,
        hid_button(idx) == Some(crate::scan::watched(k).1),
    ensures
        xinput_bit(idx) == crate::scan::watched(k).0,
{
}

/// The hat runs clockwise from the top: the direction shown on the directional pad is that
/// which a report for a pad would show one step on, and neutral shows as neutral.
pub proof fn law_the_hat_runs_clockwise(dir: u32)
    ensures
        dir < 8 ==> crate::gip::word_hat(with_hat(at_rest(), dir).buttons) == dir + 1,
        dir >= 8 ==> crate::gip::word_hat(with_hat(at_rest(), dir).buttons) == 0,
{
    broadcast use crate::bits::group_bit;

    crate::bits::lemma_flags();
    let w = with_hat(at_rest(), dir).buttons;
    crate::bits::lemma_masks(w);
    crate::gip::law_the_hat_reads_back(w);
    assert(crate::bits::bit(w, 0) == hat_up(dir));
    assert(crate::bits::bit(w, 1) == hat_down(dir));
    assert(crate::bits::bit(w, 2) == hat_left(dir));
    assert(crate::bits::bit(w, 3) == hat_right(dir));
}

/// The hat moves the left stick where it moves the directional pad: all the way right or up,
/// all the way left or down, and a direction that it does not point leaves the stick. It lets
/// no button go.
pub proof fn law_the_hat_moves_the_stick_too(s: HidState, dir: u32)
    ensures
        ({
            let n = with_hat(s, dir);
            let w = with_hat(at_rest(), dir).buttons;
            &&& forall|i: int|
                0 <= i < 16 ==> #[trigger] crate::bits::bit(n.buttons, i) == (crate::bits::bit(
                    s.buttons,
                    i,
                ) || crate::bits::bit(w, i))
            &&& crate::bits::bit(w, 3) ==> n.lx == 32767
            &&& crate::bits::bit(w, 2) ==> n.lx == -32768
            &&& crate::bits::bit(w, 0) ==> n.ly == 32767
            &&& crate::bits::bit(w, 1) ==> n.ly == -32768
            &&& !crate::bits::bit(w, 2) && !crate::bits::bit(w, 3) ==> n.lx == s.lx
            &&& !crate::bits::bit(w, 0) && !crate::bits::bit(w, 1) ==> n.ly == s.ly
            &&& forall|i: int| 4 <= i < 16 ==> !#[trigger] crate::bits::bit(w, i)
            &&& n.lt == s.lt && n.rt == s.rt
        }),
{
    broadcast use crate::bits::group_bit;

    crate::bits::lemma_flags();
}

/// A report holds exactly the buttons of its usages, in whatever order they come.
pub proof fn law_a_report_holds_its_usages(usages: Seq<u16>, usage_min: u16, n: nat)
    requires
        n <= usages.len(),
    ensures
        ({
            let s = with_usages(usages, usage_min, n);
            &&& forall|i: int|
                0 <= i < 16 ==> (#[trigger] crate::bits::bit(s.buttons, i) <==> exists|k: int|
                    0 <= k < n && number_of_index(#[trigger] indices(usages, usage_min)[k] as int)
                        == i)
            &&& s.lt == 255 <==> exists|k: int|
                0 <= k < n && #[trigger] indices(usages, usage_min)[k] == 6
            &&& s.rt == 255 <==> exists|k: int|
                0 <= k < n && #[trigger] indices(usages, usage_min)[k] == 7
            &&& s.lt == 0 || s.lt == 255
            &&& s.rt == 0 || s.rt == 255
            &&& s.lx == 0 && s.ly == 0
        }),
    decreases n,
{
    let s = with_usages(usages, usage_min, n);
    if n == 0 {
        broadcast use crate::bits::group_bit;

    } else {
        let m = (n - 1) as nat;
        law_a_report_holds_its_usages(usages, usage_min, m);
        let h = with_usages(usages, usage_min, m);
        let f = indices(usages, usage_min);
        let idx = f[m as int] as int;
        law_a_button_sets_its_own_bit(h, idx);
        assert forall|i: int| 0 <= i < 16 implies (#[trigger] crate::bits::bit(s.buttons, i)
            <==> exists|k: int| 0 <= k < n && number_of_index(#[trigger] f[k] as int) == i) by {
            if crate::bits::bit(h.buttons, i) {
                let k = choose|k: int| 0 <= k < m && number_of_index(#[trigger] f[k] as int) == i;
                assert(0 <= k < n && number_of_index(f[k] as int) == i);
            }
            if exists|k: int| 0 <= k < n && number_of_index(#[trigger] f[k] as int) == i {
                let k = choose|k: int| 0 <= k < n && number_of_index(#[trigger] f[k] as int) == i;
                if k < m {
                    assert(0 <= k < m && number_of_index(f[k] as int) == i);
                }
            }
        }
        assert(f[m as int] == f[m as int]);
        if h.lt == 255 {
            let k = choose|k: int| 0 <= k < m && #[trigger] f[k] == 6;
            assert(0 <= k < n && f[k] == 6);
        }
        if h.rt == 255 {
            let k = choose|k: int| 0 <= k < m && #[trigger] f[k] == 7;
            assert(0 <= k < n && f[k] == 7);
        }
        if exists|k: int| 0 <= k < n && #[trigger] f[k] == 6 {
            let k = choose|k: int| 0 <= k < n && #[trigger] f[k] == 6;
            if k < m {
                assert(0 <= k < m && f[k] == 6);
            }
        }
        if exists|k: int| 0 <= k < n && #[trigger] f[k] == 7 {
            let k = choose|k: int| 0 <= k < n && #[trigger] f[k] == 7;
            if k < m {
                assert(0 <= k < m && f[k] == 7);
            }
        }
    }
}

/// Usages count on from the smallest: the first is index 0, the next index 1.
pub proof fn law_usages_count_from_the_smallest(usages: Seq<u16>, usage_min: u16, k: int)
    requires
        0 <= k < usages.len(),
        usages[k] >= usage_min,
    ensures
        usage_min + indices(usages, usage_min)[k] == usages[k],
        indices(usages, usage_min).len() == usages.len(),
{
}

/// A press is told of a button exactly where its index is down now and was not before.
pub proof fn law_presses_are_the_new_ones(
    prev: Seq<u16>,
    cur: Seq<u16>,
    now: u64,
    n: nat,
    b: crate::button::Button,
)
    requires
        n <= cur.len(),
    ensures
        presses(prev, cur, now, n).contains(InputMsg::Pressed(0, b, now)) <==> exists|k: int|
            0 <= k < n && !prev.contains(#[trigger] cur[k]) && hid_button(cur[k] as int) == Some(b),
    decreases n,
{
    let e = InputMsg::Pressed(0, b, now);
    let t = presses(prev, cur, now, n);
    if n > 0 {
        let m = (n - 1) as nat;
        law_presses_are_the_new_ones(prev, cur, now, m, b);
        let h = presses(prev, cur, now, m);
        if h.contains(e) {
            let i = choose|i: int| 0 <= i < h.len() && h[i] == e;
            assert(t[i] == e);
            let k = choose|k: int|
                0 <= k < m && !prev.contains(#[trigger] cur[k]) && hid_button(cur[k] as int)
                    == Some(b);
            assert(0 <= k < n && !prev.contains(cur[k]));
        }
        if t.contains(e) && !h.contains(e) {
            let i = choose|i: int| 0 <= i < t.len() && t[i] == e;
            if i < h.len() {
                assert(h[i] == e);
            }
            assert(!prev.contains(cur[m as int]));
        }
        if exists|k: int|
            0 <= k < n && !prev.contains(#[trigger] cur[k]) && hid_button(cur[k] as int)
                == Some(b) {
            let k = choose|k: int|
                0 <= k < n && !prev.contains(#[trigger] cur[k]) && hid_button(cur[k] as int)
                    == Some(b);
            if k < m {
                assert(0 <= k < m && !prev.contains(cur[k]));
            } else {
                assert(t.last() == e);
            }
        }
    }
}

/// Releases mirror presses: what is told as released between two reports is what would be
/// told as pressed between them the other way round.
pub proof fn law_releases_mirror_presses(prev: Seq<u16>, cur: Seq<u16>, now: u64, n: nat)
    requires
        n <= prev.len(),
    ensures
        ({
            let p = presses(cur, prev, now, n);
            let r = releases(prev, cur, now, n);
            &&& p.len() == r.len()
            &&& forall|i: int|
                0 <= i < p.len() ==> (#[trigger] p[i] matches InputMsg::Pressed(s, b, t) && r[i]
                    == InputMsg::Released(s, b, t))
        }),
    decreases n,
{
    if n > 0 {
        law_releases_mirror_presses(prev, cur, now, (n - 1) as nat);
    }
}

/// Code units that stand in bytes, the low byte first, are read back up to the zero that ends
/// them.
pub proof fn law_units_in_bytes_read_back(u: Seq<u16>, b: Seq<u8>)
    requires
        forall|i: int| 0 <= i < u.len() ==> #[trigger] u[i] != 0,
        b.len() >= 2 * u.len(),
        forall|i: int|
            0 <= i < u.len() ==> b[2 * i] as int == #[trigger] u[i] % 256 && b[2 * i + 1] as int
                == u[i] / 256,
        b.len() < 2 * u.len() + 2 || (b[2 * u.len() as int] == 0 && b[2 * u.len() as int + 1] == 0),
    ensures
        units_in(b) == u,
    decreases u.len(),
{
    if u.len() == 0 {
        assert(units_in(b) =~= u);
    } else {
        let v = u.skip(1);
        let c = b.skip(2);
        assert forall|i: int| 0 <= i < v.len() implies #[trigger] v[i] != 0 by {
            assert(v[i] == u[i + 1]);
        }
        assert forall|i: int| 0 <= i < v.len() implies c[2 * i] as int == #[trigger] v[i] % 256
            && c[2 * i + 1] as int == v[i] / 256 by {
            assert(v[i] == u[i + 1]);
        }
        law_units_in_bytes_read_back(v, c);
        assert(u[0] != 0);
        let z: int = 0;
        assert(b[2 * z] as int == u[z] % 256);
        assert(u =~= seq![u[0]] + v);
    }
}

/// What stands before the first zero of a buffer is read, and nothing behind it.
pub proof fn law_a_zero_ends_the_text(u: Seq<u16>, rest: Seq<u16>)
    requires
        forall|i: int| 0 <= i < u.len() ==> #[trigger] u[i] != 0,
    ensures
        before_zero(u + seq![0u16] + rest) == u,
        before_zero(u) == u,
    decreases u.len(),
{
    if u.len() == 0 {
        assert(before_zero(u) =~= u);
        assert(before_zero(u + seq![0u16] + rest) =~= u);
    } else {
        let v = u.skip(1);
        assert forall|i: int| 0 <= i < v.len() implies #[trigger] v[i] != 0 by {
            assert(v[i] == u[i + 1]);
        }
        law_a_zero_ends_the_text(v, rest);
        assert((u + seq![0u16] + rest).skip(1) =~= v + seq![0u16] + rest);
        assert(u[0] != 0);
        assert(u =~= seq![u[0]] + v);
    }
}

} // verus!
