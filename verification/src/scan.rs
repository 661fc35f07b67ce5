//! Polling the four XInput slots for edges.
//!
//! Times are nanoseconds of one clock.

use crate::button::Button;
use crate::input::{listed, since, InputMsg};
use crate::text::{chars_of, decimal, put_number, string_of};
use vstd::prelude::*;

verus! {

/// XInput has four slots.
pub const MAX_SLOTS: usize = 4;

/// A trigger pulled further than this counts as pressed.
pub const TRIGGER_THRESHOLD: u8 = 30;

/// An empty slot is asked this often: asking it is slow.
pub const RESCAN_NS: u64 = 2_000_000_000;

/// The connected slots are told this often.
pub const PUBLISH_NS: u64 = 1_000_000_000;

/// Intervals between reports outside these two say nothing of the pad.
pub const SHORTEST_NS: u64 = 50_000;

pub const LONGEST_NS: u64 = 100_000_000;

/// What a slot reports.
#[derive(Clone, Copy, Debug, PartialEq, Eq, Structural)]
pub struct Reading {
    pub packet: u32,
    pub buttons: u16,
    pub left_trigger: u8,
    pub right_trigger: u8,
}

/// The poller.
#[derive(Clone, Copy, Debug)]
pub struct XinputScan {
    pub last_mask: [u32; 4],
    pub last_packet: [u32; 4],
    pub connected: [bool; 4],
    pub last_rescan: Option<u64>,
    pub last_publish: Option<u64>,
    pub last_change: Option<u64>,
    /// The shortest interval between two reports so far.
    pub min_interval: Option<u64>,
}

/// The bit of the `k`-th button that is watched, with the button. The two triggers
/// have bits of their own above the button word.
pub open spec fn watched(k: int) -> (u32, Button) {
    if k == 0 {
        (0x1000, Button::South)
    } else if k == 1 {
        (0x2000, Button::East)
    } else if k == 2 {
        (0x4000, Button::West)
    } else if k == 3 {
        (0x8000, Button::North)
    } else if k == 4 {
        (0x0100, Button::LeftTrigger)
    } else if k == 5 {
        (0x0200, Button::RightTrigger)
    } else if k == 6 {
        (0x0040, Button::LeftThumb)
    } else if k == 7 {
        (0x0080, Button::RightThumb)
    } else if k == 8 {
        (0x0020, Button::Select)
    } else if k == 9 {
        (0x0010, Button::Start)
    } else if k == 10 {
        (0x0001, Button::DPadUp)
    } else if k == 11 {
        (0x0002, Button::DPadDown)
    } else if k == 12 {
        (0x0004, Button::DPadLeft)
    } else if k == 13 {
        (0x0008, Button::DPadRight)
    } else if k == 14 {
        (0x1_0000, Button::LeftTrigger2)
    } else {
        (0x2_0000, Button::RightTrigger2)
    }
}

/// How many buttons are watched.
pub const WATCHED: usize = 16;

fn watched_at(k: usize) -> (r: (u32, Button))
    requires
        k < WATCHED,
    ensures
        r == watched(k as int),
{
    match k {
        0 => (0x1000, Button::South),
        1 => (0x2000, Button::East),
        2 => (0x4000, Button::West),
        3 => (0x8000, Button::North),
        4 => (0x0100, Button::LeftTrigger),
        5 => (0x0200, Button::RightTrigger),
        6 => (0x0040, Button::LeftThumb),
        7 => (0x0080, Button::RightThumb),
        8 => (0x0020, Button::Select),
        9 => (0x0010, Button::Start),
        10 => (0x0001, Button::DPadUp),
        11 => (0x0002, Button::DPadDown),
        12 => (0x0004, Button::DPadLeft),
        13 => (0x0008, Button::DPadRight),
        14 => (0x1_0000, Button::LeftTrigger2),
        _ => (0x2_0000, Button::RightTrigger2),
    }
}

/// The buttons of a reading, the triggers among them.
pub open spec fn mask_of(g: Reading) -> u32 {
    let m = g.buttons as u32;
    let l = if g.left_trigger > TRIGGER_THRESHOLD {
        m | 0x1_0000
    } else {
        m
    };
    if g.right_trigger > TRIGGER_THRESHOLD {
        l | 0x2_0000
    } else {
        l
    }
}

/// The edges from `last` to `mask` among the first `n` watched buttons.
pub open spec fn edges(last: u32, mask: u32, slot: usize, now: u64, n: nat) -> Seq<InputMsg>
    decreases n,
{
    if n == 0 {
        Seq::empty()
    } else {
        let (bit, button) = watched(n - 1);
        let rest = edges(last, mask, slot, now, (n - 1) as nat);
        if (mask & bit != 0) == (last & bit != 0) {
            rest
        } else if mask & bit != 0 {
            rest.push(InputMsg::Pressed(slot, button, now))
        } else {
            rest.push(InputMsg::Released(slot, button, now))
        }
    }
}

/// The poller as mathematics.
#[verifier::ext_equal]
pub struct ScanView {
    pub last_mask: Seq<u32>,
    pub last_packet: Seq<u32>,
    pub connected: Seq<bool>,
    pub last_rescan: Option<u64>,
    pub last_publish: Option<u64>,
    pub last_change: Option<u64>,
    pub min_interval: Option<u64>,
}

impl View for XinputScan {
    type V = ScanView;

    open spec fn view(&self) -> ScanView {
        ScanView {
            last_mask: self.last_mask@,
            last_packet: self.last_packet@,
            connected: self.connected@,
            last_rescan: self.last_rescan,
            last_publish: self.last_publish,
            last_change: self.last_change,
            min_interval: self.min_interval,
        }
    }
}

/// `period` has passed since `last`, or there was none.
pub open spec fn is_due(last: Option<u64>, now: u64, period: u64) -> bool {
    match last {
        Some(t) => since(now, t) >= period,
        None => true,
    }
}

fn due(last: Option<u64>, now: u64, period: u64) -> (r: bool)
    ensures
        r == is_due(last, now, period),
{
    match last {
        Some(t) => now >= t && now - t >= period || period == 0,
        None => true,
    }
}

/// A slot as it stands before its first report.
pub open spec fn cleared(v: ScanView, slot: int, connected: bool) -> ScanView {
    ScanView {
        last_mask: v.last_mask.update(slot, 0),
        last_packet: v.last_packet.update(slot, u32::MAX),
        connected: v.connected.update(slot, connected),
        ..v
    }
}

/// The shortest interval once a report at `now` has followed one at `last`.
pub open spec fn shortest(min: Option<u64>, last: Option<u64>, now: u64) -> Option<u64> {
    match last {
        Some(t) => {
            let d = since(now, t);
            if SHORTEST_NS < d < LONGEST_NS && (min matches Some(m) ==> d < m) {
                Some(d)
            } else {
                min
            }
        },
        None => min,
    }
}

/// The poller and the edges after the answer of a slot.
pub open spec fn answered(v: ScanView, slot: int, answer: Option<Reading>, now: u64) -> (
    ScanView,
    Seq<InputMsg>,
) {
    match answer {
        None => (
            if v.connected[slot] {
                cleared(v, slot, false)
            } else {
                v
            },
            Seq::empty(),
        ),
        Some(g) => {
            let w = if v.connected[slot] {
                v
            } else {
                cleared(v, slot, true)
            };
            if g.packet == w.last_packet[slot] {
                (w, Seq::empty())
            } else {
                (
                    ScanView {
                        last_mask: w.last_mask.update(slot, mask_of(g)),
                        last_packet: w.last_packet.update(slot, g.packet),
                        last_change: Some(now),
                        min_interval: shortest(w.min_interval, w.last_change, now),
                        ..w
                    },
                    edges(w.last_mask[slot], mask_of(g), slot as usize, now, WATCHED as nat),
                )
            }
        },
    }
}

/// The connected ones of the first `n` slots, by number.
pub open spec fn slots_to(connected: Seq<bool>, n: nat) -> Seq<(usize, Seq<char>)>
    decreases n,
{
    if n == 0 {
        Seq::empty()
    } else if connected[n - 1] {
        slots_to(connected, (n - 1) as nat).push(
            ((n - 1) as usize, "Controller "@ + decimal(n)),
        )
    } else {
        slots_to(connected, (n - 1) as nat)
    }
}

impl XinputScan {
    /// Nothing connected, everything due.
    pub fn new() -> (r: Self)
        ensures
            r@ == (ScanView {
                last_mask: Seq::new(MAX_SLOTS as nat, |i: int| 0),
                last_packet: Seq::new(MAX_SLOTS as nat, |i: int| u32::MAX),
                connected: Seq::new(MAX_SLOTS as nat, |i: int| false),
                last_rescan: None,
                last_publish: None,
                last_change: None,
                min_interval: None,
            }),
    {
        let r = XinputScan {
            last_mask: [0;4],
            last_packet: [u32::MAX;4],
            connected: [false;4],
            last_rescan: None,
            last_publish: None,
            last_change: None,
            min_interval: None,
        };
        assert(r@ =~= (ScanView {
            last_mask: Seq::new(MAX_SLOTS as nat, |i: int| 0),
            last_packet: Seq::new(MAX_SLOTS as nat, |i: int| u32::MAX),
            connected: Seq::new(MAX_SLOTS as nat, |i: int| false),
            last_rescan: None,
            last_publish: None,
            last_change: None,
            min_interval: None,
        }));
        r
    }

    /// Begin a round: whether the empty slots are asked too this time.
    pub fn begin(&mut self, now: u64) -> (rescan: bool)
        ensures
            rescan == is_due(old(self)@.last_rescan, now, RESCAN_NS),
            final(self)@ == (ScanView {
                last_rescan: if rescan {
                    Some(now)
                } else {
                    old(self)@.last_rescan
                },
                ..old(self)@
            }),
    {
        let rescan = due(self.last_rescan, now, RESCAN_NS);
        if rescan {
            self.last_rescan = Some(now);
        }
        rescan
    }

    /// Whether `slot` is asked in this round.
    pub fn asks(&self, slot: usize, rescan: bool) -> (r: bool)
        requires
            slot < MAX_SLOTS,
        ensures
            r == (self@.connected[slot as int] || rescan),
    {
        self.connected[slot] || rescan
    }

    fn clear(&mut self, slot: usize, connected: bool)
        requires
            slot < MAX_SLOTS,
        ensures
            final(self)@ == cleared(old(self)@, slot as int, connected),
    {
        self.connected[slot] = connected;
        self.last_mask[slot] = 0;
        self.last_packet[slot] = u32::MAX;
        assert(self@ =~= cleared(old(self)@, slot as int, connected));
    }

    /// Take the answer of `slot`, `None` where nothing is connected there, and tell
    /// the edges. All edges of one report bear the same time.
    pub fn answer(&mut self, slot: usize, answer: Option<Reading>, now: u64) -> (r: Vec<InputMsg>)
        requires
            slot < MAX_SLOTS,
        ensures
            (final(self)@, r@) == answered(old(self)@, slot as int, answer, now),
    {
        let mut r: Vec<InputMsg> = Vec::new();
        let ghost v = self@;
        match answer {
            None => {
                if self.connected[slot] {
                    self.clear(slot, false);
                }
                assert(r@ =~= Seq::empty());
            },
            Some(g) => {
                if !self.connected[slot] {
                    self.clear(slot, true);
                }
                let ghost w = self@;
                if g.packet != self.last_packet[slot] {
                    self.last_packet[slot] = g.packet;
                    match self.last_change {
                        Some(t) => {
                            let d: u64 = if now >= t {
                                now - t
                            } else {
                                0
                            };
                            let shorter = match self.min_interval {
                                Some(m) => d < m,
                                None => true,
                            };
                            if d > SHORTEST_NS && d < LONGEST_NS && shorter {
                                self.min_interval = Some(d);
                            }
                        },
                        None => {},
                    }
                    self.last_change = Some(now);
                    let mut mask: u32 = g.buttons as u32;
                    if g.left_trigger > TRIGGER_THRESHOLD {
                        mask = mask | 0x1_0000;
                    }
                    if g.right_trigger > TRIGGER_THRESHOLD {
                        mask = mask | 0x2_0000;
                    }
                    let last: u32 = self.last_mask[slot];
                    let mut k: usize = 0;
                    assert(r@ =~= edges(last, mask, slot, now, 0));
                    while k < WATCHED
                        invariant
                            k <= WATCHED,
                            r@ == edges(last, mask, slot, now, k as nat),
                        decreases WATCHED - k,
                    {
                        let (bit, button) = watched_at(k);
                        let down = mask & bit != 0;
                        if down != (last & bit != 0) {
                            if down {
                                r.push(InputMsg::Pressed(slot, button, now));
                            } else {
                                r.push(InputMsg::Released(slot, button, now));
                            }
                        }
                        k += 1;
                    }
                    self.last_mask[slot] = mask;
                    assert(self@ =~= answered(v, slot as int, answer, now).0);
                } else {
                    assert(r@ =~= Seq::empty());
                }
            },
        }
        r
    }

    /// End a round: the connected slots, where it is time to tell them.
    pub fn publish(&mut self, now: u64) -> (r: Option<InputMsg>)
        ensures
            r is Some <==> is_due(old(self)@.last_publish, now, PUBLISH_NS),
            r matches Some(m) ==> m matches InputMsg::Connected(list, interval) && listed(list@)
                == slots_to(old(self)@.connected, MAX_SLOTS as nat) && interval == (
            match old(self)@.min_interval {
                Some(d) => d,
                None => 0,
            }),
            final(self)@ == (ScanView {
                last_publish: if r is Some {
                    Some(now)
                } else {
                    old(self)@.last_publish
                },
                ..old(self)@
            }),
    {
        if !due(self.last_publish, now, PUBLISH_NS) {
            return None;
        }
        let mut list: Vec<(usize, String)> = Vec::new();
        let mut i: usize = 0;
        assert(listed(list@) =~= slots_to(self@.connected, 0));
        while i < MAX_SLOTS
            invariant
                i <= MAX_SLOTS,
                self@ == old(self)@,
                listed(list@) == slots_to(self@.connected, i as nat),
            decreases MAX_SLOTS - i,
        {
            if self.connected[i] {
                let mut t: Vec<char> = chars_of("Controller ");
                put_number(&mut t, i as u64 + 1);
                let ghost before = list@;
                list.push((i, string_of(&t)));
                assert(listed(list@) =~= listed(before).push(
                    (i, "Controller "@ + decimal((i + 1) as nat)),
                ));
            }
            i += 1;
        }
        self.last_publish = Some(now);
        let interval: u64 = match self.min_interval {
            Some(d) => d,
            None => 0,
        };
        Some(InputMsg::Connected(list, interval))
    }
}

/// A button is told as pressed exactly where it was up and is down, and as released
/// exactly where it was down and is up.
pub proof fn law_edges_are_the_changes(last: u32, mask: u32, slot: usize, now: u64, k: int, n: nat)
    requires
        0 <= k < n <= WATCHED,
    ensures
        edges(last, mask, slot, now, n).contains(InputMsg::Pressed(slot, watched(k).1, now)) <==> (
        last & watched(k).0 == 0 && mask & watched(k).0 != 0),
        edges(last, mask, slot, now, n).contains(InputMsg::Released(slot, watched(k).1, now)) <==> (
        last & watched(k).0 != 0 && mask & watched(k).0 == 0),
    decreases n,
{
    let p = InputMsg::Pressed(slot, watched(k).1, now);
    let q = InputMsg::Released(slot, watched(k).1, now);
    let e = edges(last, mask, slot, now, n);
    let rest = edges(last, mask, slot, now, (n - 1) as nat);
    if k < n - 1 {
        law_edges_are_the_changes(last, mask, slot, now, k, (n - 1) as nat);
        if e.len() > rest.len() {
            let m = e.last();
            assert(e =~= rest.push(m));
            assert(m != p && m != q);
            assert(e.contains(p) <==> rest.contains(p)) by {
                lemma_push_other(rest, m, p);
            }
            assert(e.contains(q) <==> rest.contains(q)) by {
                lemma_push_other(rest, m, q);
            }
        } else {
            assert(e == rest);
        }
    } else {
        lemma_edges_are_earlier(last, mask, slot, now, k, (n - 1) as nat);
        if e.len() > rest.len() {
            assert(e[rest.len() as int] == e.last());
            lemma_push_other_if(rest, e.last(), p);
            lemma_push_other_if(rest, e.last(), q);
        }
    }
}

proof fn lemma_push_other(s: Seq<InputMsg>, m: InputMsg, x: InputMsg)
    requires
        m != x,
    ensures
        s.push(m).contains(x) <==> s.contains(x),
{
    if s.contains(x) {
        let i = choose|i: int| 0 <= i < s.len() && s[i] == x;
        assert(s.push(m)[i] == x);
    }
}

proof fn lemma_push_other_if(s: Seq<InputMsg>, m: InputMsg, x: InputMsg)
    requires
        !s.contains(x),
    ensures
        s.push(m).contains(x) <==> m == x,
{
    if m == x {
        assert(s.push(m)[s.len() as int] == x);
    }
    if s.push(m).contains(x) && m != x {
        lemma_push_other(s, m, x);
    }
}

proof fn lemma_edges_are_earlier(last: u32, mask: u32, slot: usize, now: u64, k: int, n: nat)
    requires
        n <= k < WATCHED,
    ensures
        !edges(last, mask, slot, now, n).contains(InputMsg::Pressed(slot, watched(k).1, now)),
        !edges(last, mask, slot, now, n).contains(InputMsg::Released(slot, watched(k).1, now)),
    decreases n,
{
    if n > 0 {
        lemma_edges_are_earlier(last, mask, slot, now, k, (n - 1) as nat);
        let e = edges(last, mask, slot, now, n);
        let rest = edges(last, mask, slot, now, (n - 1) as nat);
        if e.len() > rest.len() {
            lemma_push_other_if(rest, e.last(), InputMsg::Pressed(slot, watched(k).1, now));
            lemma_push_other_if(rest, e.last(), InputMsg::Released(slot, watched(k).1, now));
        }
    }
}

/// A reading's word is its buttons, and above them a bit for each trigger that is pulled by
/// 31 or more.
pub proof fn law_triggers_count_from_31(g: Reading)
    ensures
        mask_of(g) == g.buttons + (if g.left_trigger >= 31 {
            65_536int
        } else {
            0
        }) + (if g.right_trigger >= 31 {
            131_072int
        } else {
            0
        }),
{
    let m = g.buttons as u32;
    assert(m <= 0xFFFF ==> m | 0x1_0000 == m + 0x1_0000) by (bit_vector);
    assert(m <= 0x1_FFFF ==> m | 0x2_0000 == m + 0x2_0000) by (bit_vector);
    let l = (m | 0x1_0000) as u32;
    assert(l <= 0x1_FFFF ==> l | 0x2_0000 == l + 0x2_0000) by (bit_vector);
}

/// Each watched button has a bit of its own, and a direction's bit is that which a pad shows
/// as that direction: up, right, down and left, clockwise. The triggers are those of the two
/// bits above the word.
pub proof fn law_each_watched_button_has_its_bit(j: int, k: int)
    requires
        0 <= j < 16,
        0 <= k < 16,
    ensures
        watched(j).0 == watched(k).0 || watched(j).1 == watched(k).1 ==> j == k,
        watched(k).1 is DPadUp ==> crate::gip::word_hat(watched(k).0 as u16) == 1,
        watched(k).1 is DPadRight ==> crate::gip::word_hat(watched(k).0 as u16) == 3,
        watched(k).1 is DPadDown ==> crate::gip::word_hat(watched(k).0 as u16) == 5,
        watched(k).1 is DPadLeft ==> crate::gip::word_hat(watched(k).0 as u16) == 7,
        watched(k).1 is LeftTrigger2 <==> watched(k).0 == 65_536,
        watched(k).1 is RightTrigger2 <==> watched(k).0 == 131_072,
{
    let w = watched(k).0 as u16;
    crate::bits::lemma_masks(w);
    crate::bits::lemma_flags();
    crate::gip::law_the_hat_reads_back(w);
}

/// The shortest interval is one that was seen, of more than a twentieth of a millisecond and
/// less than a tenth of a second, and it never grows.
pub proof fn law_the_shortest_interval_only_shrinks(min: Option<u64>, last: Option<u64>, now: u64)
    ensures
        ({
            let s = shortest(min, last, now);
            &&& min is Some ==> s is Some && s->0 <= min->0
            &&& s == min || (last is Some && s is Some && now == last->0 + s->0)
            &&& s != min ==> 50_000 < s->0 < 100_000_000
            &&& last is Some && 50_000 < now - last->0 < 100_000_000 ==> s is Some && s->0 <= now
                - last->0
        }),
{
}

/// What is due every so often is due at once the first time, and then not before the period
/// has passed.
pub proof fn law_due_after_its_period(t: u64, now: u64, period: u64)
    requires
        period > 0,
    ensures
        is_due(None, now, period),
        is_due(Some(t), now, period) <==> now >= t + period,
{
}

/// A pad that is gone and comes back starts afresh: everything that it then holds is told as
/// pressed, and nothing as released.
pub proof fn law_a_pad_that_comes_back_starts_afresh(
    v: ScanView,
    slot: int,
    g: Reading,
    gone: u64,
    now: u64,
    k: int,
)
    requires
        0 <= slot < 4,
        v.connected.len() == 4 && v.last_mask.len() == 4 && v.last_packet.len() == 4,
        v.connected[slot],
        g.packet != u32::MAX,
        0 <= k < 16,
    ensures
        ({
            let (w, none) = answered(v, slot, None, gone);
            let (u, told) = answered(w, slot, Some(g), now);
            let p = InputMsg::Pressed(slot as usize, watched(k).1, now);
            let r = InputMsg::Released(slot as usize, watched(k).1, now);
            &&& none.len() == 0
            &&& !w.connected[slot] && u.connected[slot]
            &&& told.contains(p) <==> mask_of(g) & watched(k).0 != 0
            &&& !told.contains(r)
        }),
{
    let (w, none) = answered(v, slot, None, gone);
    law_edges_are_the_changes(0, mask_of(g), slot as usize, now, k, 16);
    let m = watched(k).0;
    assert(0u32 & m == 0) by (bit_vector);
}

/// A report that is not new tells nothing and changes nothing.
pub proof fn law_an_old_report_tells_nothing(v: ScanView, slot: int, g: Reading, now: u64, later: u64)
    requires
        0 <= slot < 4,
        v.connected.len() == 4 && v.last_mask.len() == 4 && v.last_packet.len() == 4,
        g.packet != u32::MAX,
    ensures
        ({
            let (w, first) = answered(v, slot, Some(g), now);
            answered(w, slot, Some(g), later) == (w, Seq::<InputMsg>::empty())
        }),
{
}

/// One slot's answer leaves the other slots alone.
pub proof fn law_slots_are_apart(v: ScanView, slot: int, other: int, answer: Option<Reading>, now: u64)
    requires
        0 <= slot < 4,
        0 <= other < 4,
        slot != other,
        v.connected.len() == 4 && v.last_mask.len() == 4 && v.last_packet.len() == 4,
    ensures
        ({
            let (w, told) = answered(v, slot, answer, now);
            &&& w.connected[other] == v.connected[other]
            &&& w.last_mask[other] == v.last_mask[other]
            &&& w.last_packet[other] == v.last_packet[other]
            &&& answer is None ==> told.len() == 0
            &&& w.connected[slot] <==> answer is Some
        }),
{
}

/// The slots told are the connected ones, in order.
pub proof fn law_the_connected_slots_are_told(connected: Seq<bool>, n: nat)
    requires
        n <= connected.len() <= 4,
    ensures
        ({
            let l = slots_to(connected, n);
            &&& forall|i: int|
                0 <= i < n ==> (#[trigger] connected[i] <==> exists|k: int|
                    0 <= k < l.len() && (#[trigger] l[k]).0 == i)
            &&& forall|a: int, b: int|
                0 <= a < b < l.len() ==> (#[trigger] l[a]).0 < (#[trigger] l[b]).0
            &&& forall|a: int|
                0 <= a < l.len() ==> (#[trigger] l[a]).0 < n && l[a].1 == "Controller "@ + decimal(
                    (l[a].0 + 1) as nat,
                )
        }),
    decreases n,
{
    if n > 0 {
        let m = (n - 1) as nat;
        law_the_connected_slots_are_told(connected, m);
        let h = slots_to(connected, m);
        let l = slots_to(connected, n);
        assert forall|i: int| 0 <= i < n implies (#[trigger] connected[i] <==> exists|k: int|
            0 <= k < l.len() && (#[trigger] l[k]).0 == i) by {
            if i < m {
                if connected[i] {
                    let k = choose|k: int| 0 <= k < h.len() && (#[trigger] h[k]).0 == i;
                    assert(l[k].0 == i);
                }
                if exists|k: int| 0 <= k < l.len() && (#[trigger] l[k]).0 == i {
                    let k = choose|k: int| 0 <= k < l.len() && (#[trigger] l[k]).0 == i;
                    assert(k < h.len());
                    assert(h[k].0 == i);
                }
            } else {
                if connected[i] {
                    assert(l[l.len() - 1].0 == i);
                } else {
                    assert(forall|k: int| 0 <= k < h.len() ==> (#[trigger] h[k]).0 < m);
                }
            }
        }
    }
}

} // verus!
