//! The virtual pad on Linux: what it presents, and the events that bring it from
//! one state to the next.
//!
//! A submit is one batch of the events that changed, ended by a report. A state
//! that changes nothing is not submitted at all.

use crate::pad::{bit, neutral, PadState, ATTACK_MASK};
use crate::uapi::{abs, btn, ev, event, InputAbsinfo, InputEvent, InputId, UinputAbsSetup};
use crate::uapi::{BUS_USB, SYN_REPORT};
use vstd::prelude::*;

verus! {

pub const X360_VENDOR: u16 = 0x045e;
pub const X360_PRODUCT: u16 = 0x028e;
pub const X360_VERSION: u16 = 0x0114;

/// The range of a trigger.
pub const TRIGGER_MAX: i32 = 255;

/// The range of a stick.
pub const STICK_MIN: i32 = -32768;
pub const STICK_MAX: i32 = 32767;
pub const STICK_FUZZ: i32 = 16;
pub const STICK_FLAT: i32 = 128;

/// The place that the virtual pad reports, by which enumeration knows it.
pub fn nobd_phys() -> (r: &'static str)
    ensures
        r@ == "nobd/virtual0"@,
{
    "nobd/virtual0"
}

/// What the places of all virtual pads start with.
pub open spec fn phys_prefix() -> Seq<char> {
    "nobd/"@
}

/// How the virtual pad identifies itself.
#[derive(Clone, Copy, PartialEq, Eq, Debug, Structural)]
pub enum Identity {
    /// As the kernel's driver presents a wired Xbox 360 pad, so that mappings
    /// apply without configuration.
    Xbox360,
    /// As a controller of its own, which needs a mapping.
    Nobd,
}

/// The identity's numbers.
pub open spec fn id_of(i: Identity) -> InputId {
    match i {
        Identity::Xbox360 => InputId {
            bustype: BUS_USB,
            vendor: X360_VENDOR,
            product: X360_PRODUCT,
            version: X360_VERSION,
        },
        Identity::Nobd => InputId {
            bustype: BUS_USB,
            vendor: 0x1d50,
            product: 0x6080,
            version: 0x0100,
        },
    }
}

impl Identity {
    /// The numbers that the device presents.
    pub fn input_id(self) -> (r: InputId)
        ensures
            r == id_of(self),
    {
        match self {
            Identity::Xbox360 => InputId {
                bustype: BUS_USB,
                vendor: X360_VENDOR,
                product: X360_PRODUCT,
                version: X360_VERSION,
            },
            Identity::Nobd => InputId {
                bustype: BUS_USB,
                vendor: 0x1d50,
                product: 0x6080,
                version: 0x0100,
            },
        }
    }

    /// The name that the device presents.
    pub fn name(self) -> (r: &'static str)
        ensures
            r@ == (match self {
                Identity::Xbox360 => "Microsoft X-Box 360 pad"@,
                Identity::Nobd => "NOBD Controller"@,
            }),
    {
        match self {
            Identity::Xbox360 => "Microsoft X-Box 360 pad",
            Identity::Nobd => "NOBD Controller",
        }
    }
}

/// `r` is the name as the kernel takes it.
pub open spec fn is_setup_name(r: Seq<u8>, name: Seq<u8>) -> bool {
    &&& r.len() == 80
    &&& forall|i: int|
        0 <= i < 80 ==> #[trigger] r[i] == if i < name.len() && i < 79 {
            name[i]
        } else {
            0
        }
}

/// A name as the kernel takes it: at most 79 bytes, then zeros.
pub fn setup_name(name: &[u8]) -> (r: [u8; 80])
    ensures
        is_setup_name(r@, name@),
{
    let mut r: [u8; 80] = [0; 80];
    let n: usize = if name.len() < 79 {
        name.len()
    } else {
        79
    };
    let mut i: usize = 0;
    while i < n
        invariant
            i <= n <= 79,
            n <= name@.len(),
            r@.len() == 80,
            forall|k: int|
                0 <= k < 80 ==> #[trigger] r@[k] == if k < i {
                    name@[k]
                } else {
                    0
                },
        decreases n - i,
    {
        r[i] = name[i];
        i = i + 1;
    }
    r
}

/// One stick axis.
pub open spec fn stick_axis(code: u16) -> UinputAbsSetup {
    UinputAbsSetup {
        code,
        absinfo: InputAbsinfo {
            value: 0,
            minimum: STICK_MIN,
            maximum: STICK_MAX,
            fuzz: STICK_FUZZ,
            flat: STICK_FLAT,
            resolution: 0,
        },
    }
}

/// One trigger axis.
pub open spec fn trigger_axis(code: u16) -> UinputAbsSetup {
    UinputAbsSetup {
        code,
        absinfo: InputAbsinfo {
            value: 0,
            minimum: 0,
            maximum: TRIGGER_MAX,
            fuzz: 0,
            flat: 0,
            resolution: 0,
        },
    }
}

/// The axes that the device presents.
pub fn axes() -> (r: [UinputAbsSetup; 6])
    ensures
        r@ == seq![
            stick_axis(abs::X),
            stick_axis(abs::Y),
            stick_axis(abs::RX),
            stick_axis(abs::RY),
            trigger_axis(abs::Z),
            trigger_axis(abs::RZ),
        ],
{
    let stick = InputAbsinfo {
        value: 0,
        minimum: STICK_MIN,
        maximum: STICK_MAX,
        fuzz: STICK_FUZZ,
        flat: STICK_FLAT,
        resolution: 0,
    };
    let trigger = InputAbsinfo {
        value: 0,
        minimum: 0,
        maximum: TRIGGER_MAX,
        fuzz: 0,
        flat: 0,
        resolution: 0,
    };
    let r = [
        UinputAbsSetup { code: abs::X, absinfo: stick },
        UinputAbsSetup { code: abs::Y, absinfo: stick },
        UinputAbsSetup { code: abs::RX, absinfo: stick },
        UinputAbsSetup { code: abs::RY, absinfo: stick },
        UinputAbsSetup { code: abs::Z, absinfo: trigger },
        UinputAbsSetup { code: abs::RZ, absinfo: trigger },
    ];
    assert(r@ =~= seq![
        stick_axis(abs::X),
        stick_axis(abs::Y),
        stick_axis(abs::RX),
        stick_axis(abs::RY),
        trigger_axis(abs::Z),
        trigger_axis(abs::RZ),
    ]);
    r
}

/// Every button bit with its event code, in the order of emission. The four
/// directions go out as buttons, which keeps them independent.
pub open spec fn buttons() -> Seq<(u16, u16)> {
    seq![
        (bit::A, btn::SOUTH),
        (bit::B, btn::EAST),
        (bit::X, btn::NORTH),
        (bit::Y, btn::WEST),
        (bit::LEFT_SHOULDER, btn::TL),
        (bit::RIGHT_SHOULDER, btn::TR),
        (bit::BACK, btn::SELECT),
        (bit::START, btn::START),
        (bit::GUIDE, btn::MODE),
        (bit::LEFT_THUMB, btn::THUMBL),
        (bit::RIGHT_THUMB, btn::THUMBR),
        (bit::DPAD_UP, btn::DPAD_UP),
        (bit::DPAD_DOWN, btn::DPAD_DOWN),
        (bit::DPAD_LEFT, btn::DPAD_LEFT),
        (bit::DPAD_RIGHT, btn::DPAD_RIGHT),
    ]
}

/// Every button bit with its event code, in the order of emission.
pub fn button_map() -> (r: [(u16, u16); 15])
    ensures
        r@ == buttons(),
{
    let r = [
        (bit::A, btn::SOUTH),
        (bit::B, btn::EAST),
        (bit::X, btn::NORTH),
        (bit::Y, btn::WEST),
        (bit::LEFT_SHOULDER, btn::TL),
        (bit::RIGHT_SHOULDER, btn::TR),
        (bit::BACK, btn::SELECT),
        (bit::START, btn::START),
        (bit::GUIDE, btn::MODE),
        (bit::LEFT_THUMB, btn::THUMBL),
        (bit::RIGHT_THUMB, btn::THUMBR),
        (bit::DPAD_UP, btn::DPAD_UP),
        (bit::DPAD_DOWN, btn::DPAD_DOWN),
        (bit::DPAD_LEFT, btn::DPAD_LEFT),
        (bit::DPAD_RIGHT, btn::DPAD_RIGHT),
    ];
    assert(r@ =~= buttons());
    r
}

/// The bits among the first `n` of the map.
pub open spec fn mapped_bits(n: int) -> u16
    decreases n,
{
    if n <= 0 {
        0
    } else {
        mapped_bits(n - 1) | buttons()[n - 1].0
    }
}

/// Every attack has an event code, so that no grouped press is lost on its way out.
pub proof fn law_every_attack_is_mapped()
    ensures
        mapped_bits(15) & ATTACK_MASK == ATTACK_MASK,
{
    reveal_with_fuel(mapped_bits, 16);
    assert((0u16 | 0x1000 | 0x2000 | 0x4000 | 0x8000 | 0x0100 | 0x0200 | 0x0020 | 0x0010 | 0x0400
        | 0x0040 | 0x0080 | 0x0001 | 0x0002 | 0x0004 | 0x0008) & 0xF300 == 0xF300) by (bit_vector);
}

/// The event of one button, if it is due.
pub open spec fn button_event(first: bool, prev: u16, now: u16, k: int) -> Seq<InputEvent> {
    let (mask, code) = buttons()[k];
    if first || (now ^ prev) & mask != 0 {
        seq![
            event(
                ev::KEY,
                code,
                if now & mask != 0 {
                    1
                } else {
                    0
                },
            ),
        ]
    } else {
        Seq::empty()
    }
}

/// The events of the first `n` buttons of the map.
pub open spec fn button_events(first: bool, prev: u16, now: u16, n: int) -> Seq<InputEvent>
    decreases n,
{
    if n <= 0 {
        Seq::empty()
    } else {
        button_events(first, prev, now, n - 1) + button_event(first, prev, now, n - 1)
    }
}

/// An upward axis as the kernel takes it: downward, and never out of range.
pub open spec fn flipped(y: i16) -> i32 {
    if y == -32768 {
        32767
    } else {
        (-y) as i32
    }
}

/// The event of one axis, if it is due.
pub open spec fn axis_event(due: bool, code: u16, value: i32) -> Seq<InputEvent> {
    if due {
        seq![event(ev::ABS, code, value)]
    } else {
        Seq::empty()
    }
}

/// The changes from `prev` to `s`; all of it where nothing has been sent yet.
pub open spec fn changes(first: bool, prev: PadState, s: PadState) -> Seq<InputEvent> {
    button_events(first, prev.buttons, s.buttons, 15) + axis_event(
        first || s.lx != prev.lx,
        abs::X,
        s.lx as i32,
    ) + axis_event(first || s.ly != prev.ly, abs::Y, flipped(s.ly)) + axis_event(
        first || s.rx != prev.rx,
        abs::RX,
        s.rx as i32,
    ) + axis_event(first || s.ry != prev.ry, abs::RY, flipped(s.ry)) + axis_event(
        first || s.lt != prev.lt,
        abs::Z,
        s.lt as i32,
    ) + axis_event(first || s.rt != prev.rt, abs::RZ, s.rt as i32)
}

/// The batch to write: the changes and a report, or nothing.
pub open spec fn batch(first: bool, prev: PadState, s: PadState) -> Seq<InputEvent> {
    if changes(first, prev, s).len() == 0 {
        Seq::empty()
    } else {
        changes(first, prev, s).push(event(ev::SYN, SYN_REPORT, 0))
    }
}

fn flip(y: i16) -> (r: i32)
    ensures
        r == flipped(y),
{
    if y == -32768 {
        32767
    } else {
        -(y as i32)
    }
}

fn push_axis(out: &mut Vec<InputEvent>, due: bool, code: u16, value: i32)
    ensures
        final(out)@ == old(out)@ + axis_event(due, code, value),
{
    if due {
        out.push(InputEvent::new(ev::ABS, code, value));
    }
    assert(out@ =~= old(out)@ + axis_event(due, code, value));
}

/// The writing side of the virtual pad.
#[derive(Clone, Copy, PartialEq, Eq, Debug)]
pub struct PadSink {
    /// The state that was last written.
    pub last: PadState,
    /// Something has been written: the first state always is, even if it is neutral.
    pub primed: bool,
}

impl PadSink {
    /// Nothing has been written.
    pub fn new() -> (r: Self)
        ensures
            r.last == neutral(),
            !r.primed,
    {
        PadSink { last: PadState::default(), primed: false }
    }

    /// The batch that brings the pad to `s`. Empty means that there is nothing
    /// to write.
    pub fn submit(&self, s: PadState) -> (r: Vec<InputEvent>)
        ensures
            r@ == batch(!self.primed, self.last, s),
    {
        let first: bool = !self.primed;
        let prev: PadState = self.last;
        let map: [(u16, u16); 15] = button_map();
        let mut out: Vec<InputEvent> = Vec::new();
        let mut k: usize = 0;
        while k < 15
            invariant
                k <= 15,
                map@ == buttons(),
                out@ == button_events(first, prev.buttons, s.buttons, k as int),
            decreases 15 - k,
        {
            let (mask, code): (u16, u16) = map[k];
            if first || (s.buttons ^ prev.buttons) & mask != 0 {
                let down: i32 = if s.buttons & mask != 0 {
                    1
                } else {
                    0
                };
                out.push(InputEvent::new(ev::KEY, code, down));
            }
            k = k + 1;
            proof {
                assert(buttons()[k - 1] == map@[k - 1]);
                assert(out@ =~= button_events(first, prev.buttons, s.buttons, k - 1)
                    + button_event(first, prev.buttons, s.buttons, k - 1));
            }
        }
        push_axis(&mut out, first || s.lx != prev.lx, abs::X, s.lx as i32);
        push_axis(&mut out, first || s.ly != prev.ly, abs::Y, flip(s.ly));
        push_axis(&mut out, first || s.rx != prev.rx, abs::RX, s.rx as i32);
        push_axis(&mut out, first || s.ry != prev.ry, abs::RY, flip(s.ry));
        push_axis(&mut out, first || s.lt != prev.lt, abs::Z, s.lt as i32);
        push_axis(&mut out, first || s.rt != prev.rt, abs::RZ, s.rt as i32);
        if out.len() != 0 {
            out.push(InputEvent::new(ev::SYN, SYN_REPORT, 0));
        }
        out
    }

    /// The batch for `s` has been written, or there was none.
    pub fn accept(&mut self, s: PadState)
        ensures
            final(self).last == s,
            final(self).primed,
    {
        self.last = s;
        self.primed = true;
    }
}

proof fn lemma_same_buttons_no_events(w: u16, n: int)
    requires
        n <= 15,
    ensures
        button_events(false, w, w, n) == Seq::<InputEvent>::empty(),
    decreases n,
{
    if n > 0 {
        lemma_same_buttons_no_events(w, n - 1);
        let mask = buttons()[n - 1].0;
        assert((w ^ w) & mask == 0) by (bit_vector);
        assert(button_events(false, w, w, n) =~= Seq::<InputEvent>::empty());
    }
}

/// A state that changes nothing is not written.
pub proof fn law_unchanged_state_is_not_written(s: PadState)
    ensures
        batch(false, s, s) == Seq::<InputEvent>::empty(),
{
    lemma_same_buttons_no_events(s.buttons, 15);
    assert(changes(false, s, s) =~= Seq::<InputEvent>::empty());
}

/// The first state is written in full, even if it is neutral: every button, every
/// axis and the report.
pub proof fn law_first_state_is_written_in_full(s: PadState)
    ensures
        batch(true, neutral(), s).len() == 22,
{
    reveal_with_fuel(button_events, 16);
}

/// What a reader of the virtual pad makes of an event: it takes keys and axes as they come,
/// and turns the vertical sticks round again.
pub open spec fn read_event(p: PadState, e: InputEvent) -> PadState {
    crate::evdev::applied(
        p,
        true,
        e,
        crate::evdev::Scaled {
            stick: if crate::evdev::turned_round(e.code) {
                (-e.value) as i16
            } else {
                e.value as i16
            },
            trigger: e.value as u8,
        },
    )
}

/// What a reader makes of a batch.
pub open spec fn read_batch(p: PadState, es: Seq<InputEvent>) -> PadState
    decreases es.len(),
{
    if es.len() == 0 {
        p
    } else {
        read_event(read_batch(p, es.drop_last()), es.last())
    }
}

proof fn lemma_read_joined(p: PadState, a: Seq<InputEvent>, b: Seq<InputEvent>)
    ensures
        read_batch(p, a + b) == read_batch(read_batch(p, a), b),
    decreases b.len(),
{
    if b.len() == 0 {
        assert(a + b =~= a);
    } else {
        lemma_read_joined(p, a, b.drop_last());
        assert((a + b).drop_last() =~= a + b.drop_last());
    }
}

/// The number of the button in place `k` of the map.
pub open spec fn number_at(k: int) -> int {
    crate::evdev::button_number(buttons()[k].1)
}

proof fn lemma_numbers(k: int)
    requires
        0 <= k < 15,
    ensures
        0 <= number_at(k) < 16,
        number_at(k) != 11,
        forall|w: u16| (w & buttons()[k].0 != 0) == #[trigger] crate::bits::bit(w, number_at(k)),
        forall|j: int| 0 <= j < k ==> #[trigger] number_at(j) != number_at(k),
{
    assert forall|w: u16| (w & buttons()[k].0 != 0) == #[trigger] crate::bits::bit(
        w,
        number_at(k),
    ) by {
        crate::bits::lemma_masks(w);
    }
}

proof fn lemma_xor(a: u16, b: u16, k: int)
    requires
        0 <= k < 15,
    ensures
        ((a ^ b) & buttons()[k].0 != 0) == (crate::bits::bit(a, number_at(k)) != crate::bits::bit(
            b,
            number_at(k),
        )),
{
    lemma_numbers(k);
    assert(((a ^ b) & buttons()[k].0 != 0) == crate::bits::bit(a ^ b, number_at(k)));
    let j = number_at(k) as u16;
    assert((((a ^ b) >> j) & 1 == 1) == (((a >> j) & 1 == 1) != ((b >> j) & 1 == 1)))
        by (bit_vector);
}

proof fn lemma_read_buttons(first: bool, prev: u16, now: u16, p: PadState, n: int)
    requires
        0 <= n <= 15,
        first || p.buttons == prev,
    ensures
        ({
            let r = read_batch(p, button_events(first, prev, now, n));
            &&& forall|k: int|
                0 <= k < n ==> crate::bits::bit(r.buttons, #[trigger] number_at(k))
                    == crate::bits::bit(now, number_at(k))
            &&& forall|i: int|
                0 <= i < 16 && (forall|k: int| 0 <= k < n ==> #[trigger] number_at(k) != i)
                    ==> #[trigger] crate::bits::bit(r.buttons, i) == crate::bits::bit(p.buttons, i)
            &&& r == (PadState { buttons: r.buttons, ..p })
        }),
    decreases n,
{
    if n > 0 {
        lemma_read_buttons(first, prev, now, p, n - 1);
        lemma_numbers(n - 1);
        lemma_xor(now, prev, n - 1);
        let es = button_events(first, prev, now, n - 1);
        let step = button_event(first, prev, now, n - 1);
        let q = read_batch(p, es);
        lemma_read_joined(p, es, step);
        let r = read_batch(p, button_events(first, prev, now, n));
        let c = number_at(n - 1);
        if step.len() == 1 {
            let e = step[0];
            assert(step.drop_last() =~= Seq::<InputEvent>::empty());
            assert(read_batch(q, step.drop_last()) == q);
            assert(r == read_event(q, e));
            let a = crate::evdev::Scaled {
                stick: if crate::evdev::turned_round(e.code) {
                    (-e.value) as i16
                } else {
                    e.value as i16
                },
                trigger: e.value as u8,
            };
            crate::evdev::law_a_key_moves_its_own_button(q, true, e, a);
            assert(crate::bits::bit(r.buttons, c) == crate::bits::bit(now, c));
        } else {
            assert(r == q);
            assert(crate::bits::bit(q.buttons, c) == crate::bits::bit(p.buttons, c)) by {
                assert forall|k: int| 0 <= k < n - 1 implies #[trigger] number_at(k) != c by {}
            }
        }
        assert forall|k: int| 0 <= k < n implies crate::bits::bit(r.buttons, #[trigger] number_at(k))
            == crate::bits::bit(now, number_at(k)) by {
            if k < n - 1 {
                assert(number_at(k) != c);
                lemma_numbers(k);
                assert(crate::bits::bit(q.buttons, number_at(k)) == crate::bits::bit(
                    now,
                    number_at(k),
                ));
            }
        }
        assert forall|i: int|
            0 <= i < 16 && (forall|k: int| 0 <= k < n ==> #[trigger] number_at(k) != i) implies
            #[trigger] crate::bits::bit(r.buttons, i) == crate::bits::bit(p.buttons, i) by {
            assert(number_at(n - 1) != i);
            assert(crate::bits::bit(q.buttons, i) == crate::bits::bit(p.buttons, i));
        }
    }
}

proof fn lemma_read_axis(p: PadState, due: bool, code: u16, value: i32)
    requires
        code <= 5,
        code == 2 || code == 5 ==> 0 <= value <= 255,
        -32767 <= value <= 32767 || (value == -32768 && code != 1 && code != 4),
    ensures
        read_batch(p, axis_event(due, code, value)) == if !due {
            p
        } else if code == 0 {
            PadState { lx: value as i16, ..p }
        } else if code == 1 {
            PadState { ly: (-value) as i16, ..p }
        } else if code == 2 {
            PadState { lt: value as u8, ..p }
        } else if code == 3 {
            PadState { rx: value as i16, ..p }
        } else if code == 4 {
            PadState { ry: (-value) as i16, ..p }
        } else {
            PadState { rt: value as u8, ..p }
        },
{
    if due {
        let s = axis_event(due, code, value);
        assert(s.drop_last() =~= Seq::<InputEvent>::empty());
        assert(read_batch(p, s.drop_last()) == p);
        assert(read_batch(p, s) == read_event(p, event(ev::ABS, code, value)));
    }
}

/// What the axes of a batch leave of a reader's state: the buttons.
proof fn lemma_read_changes(first: bool, prev: PadState, s: PadState, p: PadState)
    requires
        first || p == prev,
        first || prev.ly != -32768 && prev.ry != -32768,
    ensures
        ({
            let p0 = read_batch(p, button_events(first, prev.buttons, s.buttons, 15));
            let r = read_batch(p, changes(first, prev, s));
            &&& r.buttons == p0.buttons
            &&& r.lx == s.lx && r.rx == s.rx && r.lt == s.lt && r.rt == s.rt
            &&& r.ly == -flipped(s.ly)
            &&& r.ry == -flipped(s.ry)
        }),
{
    let b = button_events(first, prev.buttons, s.buttons, 15);
    let a1 = axis_event(first || s.lx != prev.lx, abs::X, s.lx as i32);
    let a2 = axis_event(first || s.ly != prev.ly, abs::Y, flipped(s.ly));
    let a3 = axis_event(first || s.rx != prev.rx, abs::RX, s.rx as i32);
    let a4 = axis_event(first || s.ry != prev.ry, abs::RY, flipped(s.ry));
    let a5 = axis_event(first || s.lt != prev.lt, abs::Z, s.lt as i32);
    let a6 = axis_event(first || s.rt != prev.rt, abs::RZ, s.rt as i32);
    lemma_read_buttons(first, prev.buttons, s.buttons, p, 15);
    lemma_read_joined(p, b, a1);
    lemma_read_joined(p, b + a1, a2);
    lemma_read_joined(p, b + a1 + a2, a3);
    lemma_read_joined(p, b + a1 + a2 + a3, a4);
    lemma_read_joined(p, b + a1 + a2 + a3 + a4, a5);
    lemma_read_joined(p, b + a1 + a2 + a3 + a4 + a5, a6);
    let p0 = read_batch(p, b);
    let p1 = read_batch(p0, a1);
    let p2 = read_batch(p1, a2);
    let p3 = read_batch(p2, a3);
    let p4 = read_batch(p3, a4);
    let p5 = read_batch(p4, a5);
    let p6 = read_batch(p5, a6);
    lemma_read_axis(p0, first || s.lx != prev.lx, abs::X, s.lx as i32);
    lemma_read_axis(p1, first || s.ly != prev.ly, abs::Y, flipped(s.ly));
    lemma_read_axis(p2, first || s.rx != prev.rx, abs::RX, s.rx as i32);
    lemma_read_axis(p3, first || s.ry != prev.ry, abs::RY, flipped(s.ry));
    lemma_read_axis(p4, first || s.lt != prev.lt, abs::Z, s.lt as i32);
    lemma_read_axis(p5, first || s.rt != prev.rt, abs::RZ, s.rt as i32);
    assert(changes(first, prev, s) == b + a1 + a2 + a3 + a4 + a5 + a6);
}

/// A batch says what the pad is: a reader that stood where the pad stood, or one that starts
/// anywhere and reads the first batch, stands where the pad stands after it. Every button
/// that a pad has, both triggers and both sticks come out as they went in; only a stick all
/// the way down, which has no opposite, comes out one step short.
pub proof fn law_a_reader_sees_the_pad(first: bool, prev: PadState, s: PadState, p: PadState)
    requires
        first || p == prev,
        first || prev.ly != -32768 && prev.ry != -32768,
    ensures
        ({
            let r = read_batch(p, batch(first, prev, s));
            &&& forall|i: int|
                0 <= i < 16 && i != 11 ==> #[trigger] crate::bits::bit(r.buttons, i)
                    == crate::bits::bit(s.buttons, i)
            &&& r.lx == s.lx && r.rx == s.rx && r.lt == s.lt && r.rt == s.rt
            &&& s.ly != -32768 ==> r.ly == s.ly
            &&& s.ry != -32768 ==> r.ry == s.ry
            &&& s.ly == -32768 ==> r.ly == -32767
            &&& s.ry == -32768 ==> r.ry == -32767
        }),
{
    lemma_read_changes(first, prev, s, p);
    lemma_read_buttons(first, prev.buttons, s.buttons, p, 15);
    let p0 = read_batch(p, button_events(first, prev.buttons, s.buttons, 15));
    let c = changes(first, prev, s);
    let p6 = read_batch(p, c);
    let w = batch(first, prev, s);
    if c.len() > 0 {
        assert(w.drop_last() =~= c);
        assert(read_batch(p, w) == read_event(p6, event(ev::SYN, SYN_REPORT, 0)));
    } else {
        assert(w =~= c);
    }
    lemma_places();
    assert forall|i: int| 0 <= i < 16 && i != 11 implies #[trigger] crate::bits::bit(
        p0.buttons,
        i,
    ) == crate::bits::bit(s.buttons, i) by {}
}

proof fn lemma_places()
    ensures
        number_at(0) == 12 && number_at(1) == 13 && number_at(2) == 14 && number_at(3) == 15,
        number_at(4) == 8 && number_at(5) == 9 && number_at(6) == 5 && number_at(7) == 4,
        number_at(8) == 10 && number_at(9) == 6 && number_at(10) == 7 && number_at(11) == 0,
        number_at(12) == 1 && number_at(13) == 2 && number_at(14) == 3,
{
}

/// A batch is closed by one report, which is its last event.
pub proof fn law_a_batch_ends_with_its_report(first: bool, prev: PadState, s: PadState)
    requires
        first || prev != s,
        !first ==> (s.buttons ^ prev.buttons) & 0x0800 == 0,
    ensures
        ({
            let b = batch(first, prev, s);
            &&& b.len() >= 2
            &&& b.last().ty == 0 && b.last().code == 0 && b.last().value == 0
            &&& forall|i: int| 0 <= i < b.len() - 1 ==> (#[trigger] b[i]).ty == 1 || b[i].ty == 3
        }),
{
    let c = changes(first, prev, s);
    lemma_changes_are_changes(first, prev, s);
    if c.len() == 0 {
        lemma_no_changes(first, prev, s);
    }
}

proof fn lemma_button_events_are_keys(first: bool, prev: u16, now: u16, n: int)
    requires
        n <= 15,
    ensures
        forall|i: int|
            0 <= i < button_events(first, prev, now, n).len() ==> (#[trigger] button_events(
                first,
                prev,
                now,
                n,
            )[i]).ty == 1,
    decreases n,
{
    if n > 0 {
        lemma_button_events_are_keys(first, prev, now, n - 1);
        let h = button_events(first, prev, now, n - 1);
        let t = button_events(first, prev, now, n);
        assert forall|i: int| 0 <= i < t.len() implies (#[trigger] t[i]).ty == 1 by {
            if i < h.len() {
                assert(t[i] == h[i]);
            } else {
                assert(t[i] == button_event(first, prev, now, n - 1)[i - h.len()]);
            }
        }
    }
}

proof fn lemma_changes_are_changes(first: bool, prev: PadState, s: PadState)
    ensures
        forall|i: int|
            0 <= i < changes(first, prev, s).len() ==> (#[trigger] changes(first, prev, s)[i]).ty
                == 1 || changes(first, prev, s)[i].ty == 3,
{
    lemma_button_events_are_keys(first, prev.buttons, s.buttons, 15);
}

proof fn lemma_no_changes(first: bool, prev: PadState, s: PadState)
    requires
        changes(first, prev, s).len() == 0,
    ensures
        !first,
        (s.buttons ^ prev.buttons) & 0x0800 == 0 ==> prev == s,
{
    lemma_no_button_events(first, prev.buttons, s.buttons, 15);
    if (s.buttons ^ prev.buttons) & 0x0800 == 0 {
        let (a, b) = (s.buttons, prev.buttons);
        assert(button_event(first, prev.buttons, s.buttons, 0).len() == 0);
        assert forall|i: int| 0 <= i < 16 implies crate::bits::bit(a, i) == crate::bits::bit(
            b,
            i,
        ) by {
            lemma_places();
            crate::bits::lemma_masks(a ^ b);
            if i == 11 {
                assert((((a ^ b) >> 11u16) & 1 == 1) == (((a >> 11u16) & 1 == 1) != ((b >> 11u16)
                    & 1 == 1))) by (bit_vector);
            } else {
                let k = choose|k: int| 0 <= k < 15 && #[trigger] number_at(k) == i;
                lemma_xor(a, b, k);
                assert(button_event(first, prev.buttons, s.buttons, k).len() == 0);
            }
        }
        crate::bits::lemma_same_bits(a, b);
    }
}

proof fn lemma_no_button_events(first: bool, prev: u16, now: u16, n: int)
    requires
        button_events(first, prev, now, n).len() == 0,
        0 <= n <= 15,
    ensures
        forall|k: int| 0 <= k < n ==> (#[trigger] button_event(first, prev, now, k)).len() == 0,
    decreases n,
{
    if n > 0 {
        lemma_no_button_events(first, prev, now, n - 1);
    }
}

/// The virtual pad's axes cover what the events carry: a stick's position, turned round or
/// not, and a trigger's travel lie within the bounds that its axis presents.
pub proof fn law_values_lie_within_the_axes(v: i16, t: u8, code: u16)
    ensures
        stick_axis(code).absinfo.minimum <= v <= stick_axis(code).absinfo.maximum,
        stick_axis(code).absinfo.minimum <= flipped(v) <= stick_axis(code).absinfo.maximum,
        trigger_axis(code).absinfo.minimum <= t <= trigger_axis(code).absinfo.maximum,
        stick_axis(code).absinfo.minimum == -32768 && stick_axis(code).absinfo.maximum == 32767,
        trigger_axis(code).absinfo.minimum == 0 && trigger_axis(code).absinfo.maximum == 255,
        v != -32768 ==> flipped(v) == -v,
        v == -32768 ==> flipped(v) == 32767,
{
}

/// A name stands whole in front of zeros where it fits, which it does up to 79 bytes; a longer
/// one is cut off there, and a zero always ends it.
pub proof fn law_a_name_is_ended_by_a_zero(r: Seq<u8>, name: Seq<u8>)
    requires
        is_setup_name(r, name),
    ensures
        r[79] == 0,
        name.len() <= 79 ==> r.subrange(0, name.len() as int) == name,
        name.len() >= 79 ==> r.subrange(0, 79) == name.subrange(0, 79),
        name.len() < 80 ==> r[name.len() as int] == 0,
{
    if name.len() <= 79 {
        assert(r.subrange(0, name.len() as int) =~= name);
    }
    if name.len() >= 79 {
        assert(r.subrange(0, 79) =~= name.subrange(0, 79));
    }
}

} // verus!
