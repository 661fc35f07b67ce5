//! Chords, strays and bounces out of timestamped presses and releases.
//!
//! Times are nanoseconds of one clock, whose zero is the start of the session.

use crate::button::{attack, is_attack, place, rank, Button, BUTTONS};
use crate::hid::HidDeviceId;
use crate::text::{chars_of, decimal, put_number, string_of};
use vstd::prelude::*;
use vstd::string::StringExecFns;

verus! {

/// How long after a press another may still join its chord.
pub const PAIR_WINDOW_NS: u64 = 50_000_000;

/// A button that comes back sooner than this after its release has bounced.
pub const BOUNCE_THRESHOLD_NS: u64 = 5_000_000;

/// Where the presses come from.
pub enum InputSourceKind {
    /// XInput pads, in up to four slots.
    XInput,
    /// One HID gamepad, on slot 0.
    Hid(HidDeviceId),
}

/// Why a press stayed alone.
#[derive(Clone, Copy, Debug, PartialEq, Eq, Structural)]
pub enum StrayReason {
    NoPairArrived,
    ReleasedBeforePair,
}

impl StrayReason {
    /// The reason in words.
    pub fn label(&self) -> (r: &'static str)
        ensures
            r@ == (match *self {
                StrayReason::NoPairArrived => "no pair arrived"@,
                StrayReason::ReleasedBeforePair => "released before pair"@,
            }),
    {
        match self {
            StrayReason::NoPairArrived => "no pair arrived",
            StrayReason::ReleasedBeforePair => "released before pair",
        }
    }
}

/// A chord of two or more buttons.
#[derive(Debug)]
pub struct ButtonPair {
    pub button_a: Button,
    pub button_b: Button,
    /// The number of buttons.
    pub count: usize,
    /// From the first press to the last.
    pub gap_ns: u64,
    /// Every button, in the order of the presses.
    pub buttons: Vec<Button>,
    /// The first press.
    pub t0_ns: u64,
    pub controller: usize,
}

/// A chord as mathematics.
#[verifier::ext_equal]
pub struct PairView {
    pub button_a: Button,
    pub button_b: Button,
    pub count: nat,
    pub gap_ns: u64,
    pub buttons: Seq<Button>,
    pub t0_ns: u64,
    pub controller: usize,
}

impl View for ButtonPair {
    type V = PairView;

    open spec fn view(&self) -> PairView {
        PairView {
            button_a: self.button_a,
            button_b: self.button_b,
            count: self.count as nat,
            gap_ns: self.gap_ns,
            buttons: self.buttons@,
            t0_ns: self.t0_ns,
            controller: self.controller,
        }
    }
}

/// A press that found no partner.
#[derive(Clone, Copy, Debug, PartialEq, Eq, Structural)]
pub struct StrayPress {
    pub button: Button,
    pub solo_ns: u64,
    pub reason: StrayReason,
    /// From the button's last release to its last press, where it has both.
    pub off_time_ns: Option<u64>,
    pub controller: usize,
}

/// A press too soon after the release of the same button.
#[derive(Clone, Copy, Debug, PartialEq, Eq, Structural)]
pub struct BounceEvent {
    pub button: Button,
    pub off_ns: u64,
    pub controller: usize,
}

/// A raw edge.
#[derive(Clone, Copy, Debug, PartialEq, Eq, Structural)]
pub enum InputEvent {
    Pressed(Button),
    Released(Button),
}

/// What a reader reports.
pub enum InputMsg {
    Pressed(usize, Button, u64),
    Released(usize, Button, u64),
    /// The connected slots with their names, and the shortest interval between two
    /// reports (0 where it is not known yet).
    Connected(Vec<(usize, String)>, u64),
}

/// What one poll found.
pub struct PollResult {
    pub pairs: Vec<ButtonPair>,
    pub strays: Vec<StrayPress>,
    pub bounces: Vec<BounceEvent>,
    /// Every edge, with its controller.
    pub events: Vec<(usize, InputEvent)>,
}

/// The findings as mathematics.
#[verifier::ext_equal]
pub struct Found {
    pub pairs: Seq<PairView>,
    pub strays: Seq<StrayPress>,
    pub bounces: Seq<BounceEvent>,
    pub events: Seq<(usize, InputEvent)>,
}

/// The chords of a sequence.
pub open spec fn pairs_of(s: Seq<ButtonPair>) -> Seq<PairView> {
    Seq::new(s.len(), |i: int| s[i]@)
}

impl View for PollResult {
    type V = Found;

    open spec fn view(&self) -> Found {
        Found {
            pairs: pairs_of(self.pairs@),
            strays: self.strays@,
            bounces: self.bounces@,
            events: self.events@,
        }
    }
}

/// Nothing found.
pub open spec fn nothing() -> Found {
    Found {
        pairs: Seq::empty(),
        strays: Seq::empty(),
        bounces: Seq::empty(),
        events: Seq::empty(),
    }
}

/// One controller's pairing state.
pub struct PadState {
    /// The presses of the open chord, first to last; empty where none is open.
    cluster: Vec<(Button, u64)>,
    last_release: [Option<u64>; 20],
    last_press: [Option<u64>; 20],
}

/// One controller's pairing state as mathematics. The last two are by the place of
/// the button.
#[verifier::ext_equal]
pub struct PadView {
    pub cluster: Seq<(Button, u64)>,
    pub last_release: Seq<Option<u64>>,
    pub last_press: Seq<Option<u64>>,
}

impl View for PadState {
    type V = PadView;

    closed spec fn view(&self) -> PadView {
        PadView {
            cluster: self.cluster@,
            last_release: self.last_release@,
            last_press: self.last_press@,
        }
    }
}

/// No press yet.
pub open spec fn idle() -> PadView {
    PadView {
        cluster: Seq::empty(),
        last_release: Seq::new(BUTTONS as nat, |i: int| None),
        last_press: Seq::new(BUTTONS as nat, |i: int| None),
    }
}

/// `b - a`, or 0 where `b` is earlier.
pub open spec fn since(b: u64, a: u64) -> u64 {
    if b >= a {
        (b - a) as u64
    } else {
        0
    }
}

/// The place of `b` in the chord, if it is in it.
pub open spec fn is_member(cl: Seq<(Button, u64)>, b: Button) -> bool {
    exists|i: int| 0 <= i < cl.len() && (#[trigger] cl[i]).0 == b
}

/// The buttons of a chord.
pub open spec fn members(cl: Seq<(Button, u64)>) -> Seq<Button> {
    Seq::new(cl.len(), |i: int| cl[i].0)
}

/// From the last release of `b` to its last press, where it has both.
pub open spec fn off_time(p: PadView, b: Button) -> Option<u64> {
    match (p.last_release[rank(b)], p.last_press[rank(b)]) {
        (Some(release), Some(press)) => Some(since(press, release)),
        _ => None,
    }
}

/// The findings once the chord of `p` is closed: a pair of two or more buttons, a
/// stray of one.
pub open spec fn finalized(p: PadView, c: usize, reason: StrayReason, now: u64, r: Found) -> Found {
    let cl = p.cluster;
    if cl.len() >= 2 {
        Found {
            pairs: r.pairs.push(
                PairView {
                    button_a: cl[0].0,
                    button_b: cl.last().0,
                    count: cl.len(),
                    gap_ns: since(cl.last().1, cl[0].1),
                    buttons: members(cl),
                    t0_ns: cl[0].1,
                    controller: c,
                },
            ),
            ..r
        }
    } else {
        Found {
            strays: r.strays.push(
                StrayPress {
                    button: cl[0].0,
                    solo_ns: since(now, cl[0].1),
                    reason,
                    off_time_ns: off_time(p, cl[0].0),
                    controller: c,
                },
            ),
            ..r
        }
    }
}

/// The findings of an attack press, before the chord is looked at.
pub open spec fn bounced(p: PadView, c: usize, b: Button, t: u64, r: Found) -> Found {
    match p.last_release[rank(b)] {
        Some(release) => if since(t, release) < BOUNCE_THRESHOLD_NS {
            Found {
                bounces: r.bounces.push(
                    BounceEvent { button: b, off_ns: since(t, release), controller: c },
                ),
                ..r
            }
        } else {
            r
        },
        None => r,
    }
}

/// A press of `b` at `t` joins the open chord.
pub open spec fn joins(cl: Seq<(Button, u64)>, b: Button, t: u64) -> bool {
    !is_member(cl, b) && since(t, cl.last().1) <= PAIR_WINDOW_NS
}

/// A pad after an attack press of `b` at `t`, handled at `now`. The press opens a
/// chord where none is open, joins the open one, or closes it and opens another.
pub open spec fn attack_pressed(
    p: PadView,
    c: usize,
    b: Button,
    t: u64,
    now: u64,
    r: Found,
) -> (PadView, Found) {
    let q = PadView { last_press: p.last_press.update(rank(b), Some(t)), ..p };
    let s = bounced(p, c, b, t, r);
    if p.cluster.len() == 0 {
        (PadView { cluster: seq![(b, t)], ..q }, s)
    } else if joins(p.cluster, b, t) {
        (PadView { cluster: p.cluster.push((b, t)), ..q }, s)
    } else {
        (
            PadView { cluster: seq![(b, t)], ..q },
            finalized(q, c, StrayReason::NoPairArrived, now, s),
        )
    }
}

/// A pad after an attack release of `b` at `t`, handled at `now`. The release of a
/// member closes the chord.
pub open spec fn attack_released(
    p: PadView,
    c: usize,
    b: Button,
    t: u64,
    now: u64,
    r: Found,
) -> (PadView, Found) {
    let q = PadView { last_release: p.last_release.update(rank(b), Some(t)), ..p };
    if is_member(p.cluster, b) {
        (
            PadView { cluster: Seq::empty(), ..q },
            finalized(q, c, StrayReason::ReleasedBeforePair, now, r),
        )
    } else {
        (q, r)
    }
}

/// The chord of `p` has been open too long.
pub open spec fn is_expired(p: PadView, now: u64) -> bool {
    p.cluster.len() > 0 && since(now, p.cluster.last().1) > PAIR_WINDOW_NS
}

/// A pad at the end of a poll: a held chord is closed once its window has passed.
pub open spec fn settled(p: PadView, c: usize, now: u64, r: Found) -> (PadView, Found) {
    if is_expired(p, now) {
        (
            PadView { cluster: Seq::empty(), ..p },
            finalized(p, c, StrayReason::NoPairArrived, now, r),
        )
    } else {
        (p, r)
    }
}

fn since_ns(b: u64, a: u64) -> (r: u64)
    ensures
        r == since(b, a),
{
    if b >= a {
        b - a
    } else {
        0
    }
}

impl PollResult {
    /// Nothing found.
    pub fn new() -> (r: Self)
        ensures
            r@ == nothing(),
    {
        let r = PollResult {
            pairs: Vec::new(),
            strays: Vec::new(),
            bounces: Vec::new(),
            events: Vec::new(),
        };
        assert(r@ =~= nothing());
        r
    }
}

impl PadState {
    /// The arrays have a place for every button.
    pub open spec fn wf(&self) -> bool {
        &&& self@.last_release.len() == BUTTONS
        &&& self@.last_press.len() == BUTTONS
    }

    pub fn new() -> (r: Self)
        ensures
            r.wf(),
            r@ == idle(),
    {
        let r = PadState {
            cluster: Vec::new(),
            last_release: [None; 20],
            last_press: [None; 20],
        };
        assert(r@ =~= idle());
        r
    }

    /// Whether `b` is in the open chord.
    fn contains(&self, b: Button) -> (r: bool)
        ensures
            r == is_member(self@.cluster, b),
    {
        let mut i: usize = 0;
        while i < self.cluster.len()
            invariant
                i <= self.cluster@.len(),
                forall|j: int| 0 <= j < i ==> (#[trigger] self.cluster@[j]).0 != b,
            decreases self.cluster@.len() - i,
        {
            if self.cluster[i].0 == b {
                assert(self@.cluster[i as int].0 == b);
                return true;
            }
            i += 1;
        }
        false
    }

    /// From the last release of `button` to its last press, where it has both.
    pub fn off_time_ns(&self, button: Button) -> (r: Option<u64>)
        requires
            self.wf(),
        ensures
            r == off_time(self@, button),
    {
        let k: usize = place(button);
        match (self.last_release[k], self.last_press[k]) {
            (Some(release), Some(press)) => Some(since_ns(press, release)),
            _ => None,
        }
    }

    /// Close the open chord: a pair of two or more buttons, a stray of one.
    fn finalize_cluster(&mut self, c: usize, reason: StrayReason, now: u64, r: &mut PollResult)
        requires
            old(self).wf(),
            old(self)@.cluster.len() > 0,
        ensures
            final(self).wf(),
            final(self)@ == (PadView { cluster: Seq::empty(), ..old(self)@ }),
            final(r)@ == finalized(old(self)@, c, reason, now, old(r)@),
    {
        let ghost r0 = r@;
        let n: usize = self.cluster.len();
        let (first, t0) = self.cluster[0];
        let (last, t1) = self.cluster[n - 1];
        if n >= 2 {
            let mut buttons: Vec<Button> = Vec::new();
            let mut i: usize = 0;
            while i < n
                invariant
                    n == self.cluster@.len(),
                    i <= n,
                    buttons@ == members(self.cluster@.take(i as int)),
                decreases n - i,
            {
                buttons.push(self.cluster[i].0);
                i += 1;
                assert(buttons@ =~= members(self.cluster@.take(i as int)));
            }
            assert(self.cluster@.take(n as int) =~= self.cluster@);
            r.pairs.push(
                ButtonPair {
                    button_a: first,
                    button_b: last,
                    count: n,
                    gap_ns: since_ns(t1, t0),
                    buttons,
                    t0_ns: t0,
                    controller: c,
                },
            );
        } else {
            r.strays.push(
                StrayPress {
                    button: first,
                    solo_ns: since_ns(now, t0),
                    reason,
                    off_time_ns: self.off_time_ns(first),
                    controller: c,
                },
            );
        }
        assert(r@ =~= finalized(self@, c, reason, now, r0));
        self.cluster = Vec::new();
        assert(self@ =~= (PadView { cluster: Seq::empty(), ..old(self)@ }));
    }

    /// Take an attack press.
    fn press(&mut self, c: usize, b: Button, t: u64, now: u64, r: &mut PollResult)
        requires
            old(self).wf(),
        ensures
            final(self).wf(),
            (final(self)@, final(r)@) == attack_pressed(old(self)@, c, b, t, now, old(r)@),
    {
        let ghost p0 = self@;
        let ghost r0 = r@;
        let k: usize = place(b);
        match self.last_release[k] {
            Some(release) => {
                let off: u64 = since_ns(t, release);
                if off < BOUNCE_THRESHOLD_NS {
                    r.bounces.push(BounceEvent { button: b, off_ns: off, controller: c });
                }
            },
            None => {},
        }
        assert(r@ =~= bounced(p0, c, b, t, r0));
        self.last_press[k] = Some(t);
        let ghost q = self@;
        assert(q =~= (PadView { last_press: p0.last_press.update(rank(b), Some(t)), ..p0 }));
        let n: usize = self.cluster.len();
        if n > 0 {
            let fits = !self.contains(b) && since_ns(t, self.cluster[n - 1].1) <= PAIR_WINDOW_NS;
            if !fits {
                self.finalize_cluster(c, StrayReason::NoPairArrived, now, r);
            }
        }
        self.cluster.push((b, t));
        assert(self@ =~= attack_pressed(p0, c, b, t, now, r0).0);
    }

    /// Take an attack release.
    fn release(&mut self, c: usize, b: Button, t: u64, now: u64, r: &mut PollResult)
        requires
            old(self).wf(),
        ensures
            final(self).wf(),
            (final(self)@, final(r)@) == attack_released(old(self)@, c, b, t, now, old(r)@),
    {
        let ghost p0 = self@;
        let k: usize = place(b);
        self.last_release[k] = Some(t);
        assert(self@ =~= (PadView { last_release: p0.last_release.update(rank(b), Some(t)), ..p0 }));
        if self.contains(b) {
            self.finalize_cluster(c, StrayReason::ReleasedBeforePair, now, r);
        }
    }

    /// Close the open chord once its window has passed.
    fn settle(&mut self, c: usize, now: u64, r: &mut PollResult)
        requires
            old(self).wf(),
        ensures
            final(self).wf(),
            (final(self)@, final(r)@) == settled(old(self)@, c, now, old(r)@),
    {
        let n: usize = self.cluster.len();
        if n > 0 && since_ns(now, self.cluster[n - 1].1) > PAIR_WINDOW_NS {
            self.finalize_cluster(c, StrayReason::NoPairArrived, now, r);
        }
    }
}

/// The pairing of every controller.
pub struct GamepadInput {
    pads: Vec<PadState>,
    names: Vec<String>,
    connected: Vec<bool>,
    report_interval_ns: u64,
}

/// The pairing of every controller as mathematics.
#[verifier::ext_equal]
pub struct InputView {
    pub pads: Seq<PadView>,
    pub names: Seq<Seq<char>>,
    pub connected: Seq<bool>,
    /// The shortest interval between two reports; 0 where it is not known.
    pub report_interval_ns: u64,
}

/// The views of some pads.
pub open spec fn pads_of(s: Seq<PadState>) -> Seq<PadView> {
    Seq::new(s.len(), |i: int| s[i]@)
}

/// The texts of some strings.
pub open spec fn names_of(s: Seq<String>) -> Seq<Seq<char>> {
    Seq::new(s.len(), |i: int| s[i]@)
}

impl View for GamepadInput {
    type V = InputView;

    closed spec fn view(&self) -> InputView {
        InputView {
            pads: pads_of(self.pads@),
            names: names_of(self.names@),
            connected: self.connected@,
            report_interval_ns: self.report_interval_ns,
        }
    }
}

/// `s` with `fill` behind it, up to a length of at least `n`.
pub open spec fn padded<A>(s: Seq<A>, n: int, fill: A) -> Seq<A> {
    if s.len() >= n {
        s
    } else {
        Seq::new(n as nat, |i: int|
            if i < s.len() {
                s[i]
            } else {
                fill
            })
    }
}

/// With room for `slot`.
pub open spec fn with_slot(g: InputView, slot: usize) -> InputView {
    InputView {
        pads: padded(g.pads, slot + 1, idle()),
        names: padded(g.names, slot + 1, Seq::empty()),
        connected: padded(g.connected, slot + 1, false),
        ..g
    }
}

/// The connected slots after the first `n` of a list.
pub open spec fn plugged(g: InputView, list: Seq<(usize, String)>, n: nat) -> InputView
    decreases n,
{
    if n == 0 {
        g
    } else {
        let h = with_slot(plugged(g, list, (n - 1) as nat), list[n - 1].0);
        InputView {
            names: h.names.update(list[n - 1].0 as int, list[n - 1].1@),
            connected: h.connected.update(list[n - 1].0 as int, true),
            ..h
        }
    }
}

/// With no slot connected.
pub open spec fn unplugged(g: InputView) -> InputView {
    InputView { connected: Seq::new(g.connected.len(), |i: int| false), ..g }
}

/// The state and the findings after one message.
pub open spec fn step(g: InputView, r: Found, m: InputMsg, now: u64) -> (InputView, Found) {
    match m {
        InputMsg::Connected(list, interval) => {
            let h = if interval > 0 {
                InputView { report_interval_ns: interval, ..g }
            } else {
                g
            };
            (plugged(unplugged(h), list@, list@.len()), r)
        },
        InputMsg::Pressed(c, b, t) => {
            let h = with_slot(g, c);
            let s = Found { events: r.events.push((c, InputEvent::Pressed(b))), ..r };
            if attack(b) {
                let (p, q) = attack_pressed(h.pads[c as int], c, b, t, now, s);
                (InputView { pads: h.pads.update(c as int, p), ..h }, q)
            } else {
                (h, s)
            }
        },
        InputMsg::Released(c, b, t) => {
            let h = with_slot(g, c);
            let s = Found { events: r.events.push((c, InputEvent::Released(b))), ..r };
            if attack(b) {
                let (p, q) = attack_released(h.pads[c as int], c, b, t, now, s);
                (InputView { pads: h.pads.update(c as int, p), ..h }, q)
            } else {
                (h, s)
            }
        },
    }
}

/// The state and the findings after some messages.
pub open spec fn run(g: InputView, msgs: Seq<InputMsg>, now: u64) -> (InputView, Found)
    decreases msgs.len(),
{
    if msgs.len() == 0 {
        (g, nothing())
    } else {
        let (h, r) = run(g, msgs.drop_last(), now);
        step(h, r, msgs.last(), now)
    }
}

/// The state and the findings once the first `n` pads have been settled.
pub open spec fn settled_pads(g: InputView, r: Found, now: u64, n: nat) -> (InputView, Found)
    decreases n,
{
    if n == 0 {
        (g, r)
    } else {
        let (h, s) = settled_pads(g, r, now, (n - 1) as nat);
        let (p, q) = settled(h.pads[n - 1], (n - 1) as usize, now, s);
        (InputView { pads: h.pads.update(n - 1, p), ..h }, q)
    }
}

/// One poll: the messages in their order, then the chords held too long.
pub open spec fn polled(g: InputView, msgs: Seq<InputMsg>, now: u64) -> (InputView, Found) {
    let (h, r) = run(g, msgs, now);
    settled_pads(h, r, now, h.pads.len())
}

/// The name of the controller in slot `i`: its own, or one by number.
pub open spec fn controller_name(g: InputView, i: int) -> Seq<char> {
    if i < g.names.len() && g.names[i].len() > 0 {
        g.names[i]
    } else {
        "Controller "@ + decimal((i + 1) as nat)
    }
}

/// The connected ones of the first `n` slots, with their names.
pub open spec fn connected_to(g: InputView, n: nat) -> Seq<(usize, Seq<char>)>
    decreases n,
{
    if n == 0 {
        Seq::empty()
    } else if g.connected[n - 1] {
        connected_to(g, (n - 1) as nat).push(((n - 1) as usize, controller_name(g, n - 1)))
    } else {
        connected_to(g, (n - 1) as nat)
    }
}

/// Slots and names as mathematics.
pub open spec fn listed(s: Seq<(usize, String)>) -> Seq<(usize, Seq<char>)> {
    Seq::new(s.len(), |i: int| (s[i].0, s[i].1@))
}

/// The slot of a message can be had.
pub open spec fn slot_fits(m: InputMsg) -> bool {
    match m {
        InputMsg::Connected(list, _) => forall|i: int|
            0 <= i < list@.len() ==> (#[trigger] list@[i]).0 < usize::MAX,
        InputMsg::Pressed(c, _, _) => c < usize::MAX,
        InputMsg::Released(c, _, _) => c < usize::MAX,
    }
}

impl GamepadInput {
    /// Every pad is well formed.
    pub closed spec fn wf(&self) -> bool {
        forall|i: int| 0 <= i < self.pads@.len() ==> (#[trigger] self.pads@[i]).wf()
    }

    /// No controller yet.
    pub fn new() -> (r: Self)
        ensures
            r.wf(),
            r@ == (InputView {
                pads: Seq::empty(),
                names: Seq::empty(),
                connected: Seq::empty(),
                report_interval_ns: 0,
            }),
    {
        let r = GamepadInput {
            pads: Vec::new(),
            names: Vec::new(),
            connected: Vec::new(),
            report_interval_ns: 0,
        };
        assert(r@ =~= (InputView {
            pads: Seq::empty(),
            names: Seq::empty(),
            connected: Seq::empty(),
            report_interval_ns: 0,
        }));
        r
    }

    /// Make room for `slot`.
    fn ensure_slot(&mut self, slot: usize)
        requires
            old(self).wf(),
            slot < usize::MAX,
        ensures
            final(self).wf(),
            final(self)@ == with_slot(old(self)@, slot),
            final(self)@.pads.len() > slot,
            final(self)@.names.len() > slot,
            final(self)@.connected.len() > slot,
    {
        let ghost g = self@;
        while self.pads.len() <= slot
            invariant
                slot < usize::MAX,
                self.wf(),
                self@.names == g.names,
                self@.connected == g.connected,
                self@.report_interval_ns == g.report_interval_ns,
                self@.pads.len() >= g.pads.len(),
                self@.pads.len() > g.pads.len() ==> self@.pads.len() <= slot + 1,
                forall|i: int|
                    0 <= i < self@.pads.len() ==> #[trigger] self@.pads[i] == (if i
                        < g.pads.len() {
                        g.pads[i]
                    } else {
                        idle()
                    }),
            decreases slot + 1 - self.pads@.len(),
        {
            let ghost before = self@;
            self.pads.push(PadState::new());
            assert(self@.pads =~= before.pads.push(idle()));
            assert(self@.names =~= before.names);
        }
        assert(self@.pads =~= padded(g.pads, slot + 1, idle()));
        while self.names.len() <= slot
            invariant
                slot < usize::MAX,
                self.wf(),
                self@.pads == padded(g.pads, slot + 1, idle()),
                self@.connected == g.connected,
                self@.report_interval_ns == g.report_interval_ns,
                self@.names.len() >= g.names.len(),
                self@.names.len() > g.names.len() ==> self@.names.len() <= slot + 1,
                forall|i: int|
                    0 <= i < self@.names.len() ==> #[trigger] self@.names[i] == (if i
                        < g.names.len() {
                        g.names[i]
                    } else {
                        Seq::empty()
                    }),
            decreases slot + 1 - self.names@.len(),
        {
            let ghost before = self@;
            self.names.push(String::new());
            assert(self@.names =~= before.names.push(Seq::empty()));
            assert(self@.pads =~= before.pads);
        }
        assert(self@.names =~= padded(g.names, slot + 1, Seq::empty()));
        while self.connected.len() <= slot
            invariant
                slot < usize::MAX,
                self.wf(),
                self@.pads == padded(g.pads, slot + 1, idle()),
                self@.names == padded(g.names, slot + 1, Seq::empty()),
                self@.report_interval_ns == g.report_interval_ns,
                self@.connected.len() >= g.connected.len(),
                self@.connected.len() > g.connected.len() ==> self@.connected.len() <= slot + 1,
                forall|i: int|
                    0 <= i < self@.connected.len() ==> #[trigger] self@.connected[i] == (if i
                        < g.connected.len() {
                        g.connected[i]
                    } else {
                        false
                    }),
            decreases slot + 1 - self.connected@.len(),
        {
            let ghost before = self@;
            self.connected.push(false);
            assert(self@.connected =~= before.connected.push(false));
            assert(self@.pads =~= before.pads);
            assert(self@.names =~= before.names);
        }
        assert(self@.connected =~= padded(g.connected, slot + 1, false));
        assert(self@ =~= with_slot(g, slot));
    }

    /// Take the list of connected slots.
    fn plug(&mut self, list: &Vec<(usize, String)>, interval: u64)
        requires
            old(self).wf(),
            forall|i: int| 0 <= i < list@.len() ==> (#[trigger] list@[i]).0 < usize::MAX,
        ensures
            final(self).wf(),
            final(self)@ == step(
                old(self)@,
                nothing(),
                InputMsg::Connected(*list, interval),
                0,
            ).0,
    {
        let ghost g = self@;
        if interval > 0 {
            self.report_interval_ns = interval;
        }
        let n: usize = self.connected.len();
        let mut i: usize = 0;
        let ghost h = self@;
        while i < n
            invariant
                self.wf(),
                n == self.connected@.len(),
                n == h.connected.len(),
                i <= n,
                self@.pads == h.pads,
                self@.names == h.names,
                self@.report_interval_ns == h.report_interval_ns,
                forall|j: int| 0 <= j < i ==> !#[trigger] self.connected@[j],
            decreases n - i,
        {
            self.connected[i] = false;
            i += 1;
        }
        assert(self@ =~= unplugged(h));
        let ghost u = self@;
        let mut k: usize = 0;
        while k < list.len()
            invariant
                self.wf(),
                k <= list@.len(),
                forall|i: int| 0 <= i < list@.len() ==> (#[trigger] list@[i]).0 < usize::MAX,
                self@ == plugged(u, list@, k as nat),
            decreases list@.len() - k,
        {
            let slot: usize = list[k].0;
            assert(slot == list@[k as int].0);
            self.ensure_slot(slot);
            let ghost w = self@;
            self.names[slot] = String::from_str(list[k].1.as_str());
            self.connected[slot] = true;
            k += 1;
            assert(self@.names =~= w.names.update(slot as int, list@[k - 1].1@));
            assert(self@.pads =~= w.pads);
            assert(self@ =~= plugged(u, list@, k as nat));
        }
    }

    /// Take one message.
    fn take(&mut self, r: &mut PollResult, m: &InputMsg, now: u64)
        requires
            old(self).wf(),
            slot_fits(*m),
        ensures
            final(self).wf(),
            (final(self)@, final(r)@) == step(old(self)@, old(r)@, *m, now),
    {
        let ghost r0 = r@;
        match m {
            InputMsg::Connected(list, interval) => {
                self.plug(list, *interval);
            },
            InputMsg::Pressed(c, b, t) => {
                self.ensure_slot(*c);
                r.events.push((*c, InputEvent::Pressed(*b)));
                assert(r@ =~= (Found {
                    events: r0.events.push((*c, InputEvent::Pressed(*b))),
                    ..r0
                }));
                if is_attack(*b) {
                    let ghost h = self@;
                    self.pads[*c].press(*c, *b, *t, now, r);
                    assert(self@.pads =~= h.pads.update(*c as int, self@.pads[*c as int]));
                }
            },
            InputMsg::Released(c, b, t) => {
                self.ensure_slot(*c);
                r.events.push((*c, InputEvent::Released(*b)));
                assert(r@ =~= (Found {
                    events: r0.events.push((*c, InputEvent::Released(*b))),
                    ..r0
                }));
                if is_attack(*b) {
                    let ghost h = self@;
                    self.pads[*c].release(*c, *b, *t, now, r);
                    assert(self@.pads =~= h.pads.update(*c as int, self@.pads[*c as int]));
                }
            },
        }
    }

    /// Take the messages that have come in, at `now`, and find the chords, strays and
    /// bounces of each controller.
    pub fn poll(&mut self, msgs: &Vec<InputMsg>, now: u64) -> (r: PollResult)
        requires
            old(self).wf(),
            forall|i: int| 0 <= i < msgs@.len() ==> slot_fits(#[trigger] msgs@[i]),
        ensures
            final(self).wf(),
            (final(self)@, r@) == polled(old(self)@, msgs@, now),
    {
        let ghost g = self@;
        let mut r = PollResult::new();
        let mut i: usize = 0;
        while i < msgs.len()
            invariant
                self.wf(),
                i <= msgs@.len(),
                forall|i: int| 0 <= i < msgs@.len() ==> slot_fits(#[trigger] msgs@[i]),
                (self@, r@) == run(g, msgs@.take(i as int), now),
            decreases msgs@.len() - i,
        {
            self.take(&mut r, &msgs[i], now);
            i += 1;
            assert(msgs@.take(i as int).drop_last() =~= msgs@.take(i - 1));
        }
        assert(msgs@.take(i as int) =~= msgs@);
        let ghost h = self@;
        let ghost s = r@;
        let n: usize = self.pads.len();
        let mut c: usize = 0;
        while c < n
            invariant
                self.wf(),
                n == self.pads@.len(),
                c <= n,
                (self@, r@) == settled_pads(h, s, now, c as nat),
            decreases n - c,
        {
            let ghost w = self@;
            self.pads[c].settle(c, now, &mut r);
            assert(self@.pads =~= w.pads.update(c as int, self@.pads[c as int]));
            c += 1;
        }
        r
    }

    /// The connected controllers: slot and name.
    pub fn controllers(&self) -> (r: Vec<(usize, String)>)
        ensures
            listed(r@) == connected_to(self@, self@.connected.len()),
    {
        let n: usize = self.connected.len();
        let mut r: Vec<(usize, String)> = Vec::new();
        let mut i: usize = 0;
        assert(listed(r@) =~= connected_to(self@, 0));
        while i < n
            invariant
                n == self.connected@.len(),
                i <= n,
                listed(r@) == connected_to(self@, i as nat),
            decreases n - i,
        {
            if self.connected[i] {
                let name: String = if i < self.names.len() && self.names[i].as_str().unicode_len()
                    > 0 {
                    String::from_str(self.names[i].as_str())
                } else {
                    let mut t: Vec<char> = chars_of("Controller ");
                    put_number(&mut t, i as u64 + 1);
                    string_of(&t)
                };
                let ghost before = r@;
                r.push((i, name));
                assert(listed(r@) =~= listed(before).push((i, controller_name(self@, i as int))));
            }
            i += 1;
        }
        r
    }

    /// The shortest interval between two reports, where it is known.
    pub fn report_interval_ns(&self) -> (r: Option<u64>)
        ensures
            r == if self@.report_interval_ns > 0 {
                Some(self@.report_interval_ns)
            } else {
                None
            },
    {
        if self.report_interval_ns > 0 {
            Some(self.report_interval_ns)
        } else {
            None
        }
    }
}

// ---- what holds of every poll -----------------------------------------------
/// How many presses the open chords of the first `n` pads hold.
pub open spec fn held_in(pads: Seq<PadView>, n: nat) -> nat
    decreases n,
{
    if n == 0 {
        0
    } else {
        held_in(pads, (n - 1) as nat) + pads[n - 1].cluster.len()
    }
}

/// How many presses the open chords hold.
pub open spec fn held(g: InputView) -> nat {
    held_in(g.pads, g.pads.len())
}

/// How many presses some chords hold.
pub open spec fn chorded(pairs: Seq<PairView>) -> nat
    decreases pairs.len(),
{
    if pairs.len() == 0 {
        0
    } else {
        chorded(pairs.drop_last()) + pairs.last().count
    }
}

/// How many presses have been told, in chords or as strays.
pub open spec fn told(r: Found) -> nat {
    chorded(r.pairs) + r.strays.len()
}

/// How many of some messages are attack presses.
pub open spec fn attacks_in(msgs: Seq<InputMsg>) -> nat
    decreases msgs.len(),
{
    if msgs.len() == 0 {
        0
    } else {
        attacks_in(msgs.drop_last()) + (match msgs.last() {
            InputMsg::Pressed(_, b, _) => if attack(b) {
                1nat
            } else {
                0
            },
            _ => 0,
        })
    }
}

proof fn lemma_held_update(pads: Seq<PadView>, c: int, p: PadView, n: nat)
    requires
        0 <= c < pads.len(),
        n <= pads.len(),
    ensures
        held_in(pads.update(c, p), n) == held_in(pads, n) + (if c < n {
            p.cluster.len() - pads[c].cluster.len()
        } else {
            0
        }),
    decreases n,
{
    if n > 0 {
        lemma_held_update(pads, c, p, (n - 1) as nat);
    }
}

proof fn lemma_held_padded(pads: Seq<PadView>, m: int, n: nat)
    requires
        n <= padded(pads, m, idle()).len(),
    ensures
        held_in(padded(pads, m, idle()), n) == held_in(
            pads,
            if n <= pads.len() {
                n
            } else {
                pads.len()
            },
        ),
    decreases n,
{
    if n > 0 {
        lemma_held_padded(pads, m, (n - 1) as nat);
    }
}

proof fn lemma_finalized_told(p: PadView, c: usize, reason: StrayReason, now: u64, r: Found)
    requires
        p.cluster.len() > 0,
    ensures
        told(finalized(p, c, reason, now, r)) == told(r) + p.cluster.len(),
{
    let s = finalized(p, c, reason, now, r);
    if p.cluster.len() >= 2 {
        assert(s.pairs.drop_last() =~= r.pairs);
    }
}

proof fn lemma_plugged_holds(g: InputView, list: Seq<(usize, String)>, n: nat)
    requires
        n <= list.len(),
    ensures
        held(plugged(g, list, n)) == held(g),
    decreases n,
{
    if n > 0 {
        lemma_plugged_holds(g, list, (n - 1) as nat);
        let h = plugged(g, list, (n - 1) as nat);
        lemma_held_padded(h.pads, list[n - 1].0 + 1, with_slot(h, list[n - 1].0).pads.len());
    }
}

proof fn lemma_step_tells(g: InputView, r: Found, m: InputMsg, now: u64)
    requires
        slot_fits(m),
    ensures
        held(step(g, r, m, now).0) + told(step(g, r, m, now).1) == held(g) + told(r) + attacks_in(
            seq![m],
        ),
{
    assert(seq![m].drop_last() =~= Seq::empty());
    assert(attacks_in(Seq::empty()) == 0);
    match m {
        InputMsg::Connected(list, interval) => {
            let h = if interval > 0 {
                InputView { report_interval_ns: interval, ..g }
            } else {
                g
            };
            lemma_plugged_holds(unplugged(h), list@, list@.len());
        },
        InputMsg::Pressed(c, b, t) => {
            let h = with_slot(g, c);
            lemma_held_padded(g.pads, c + 1, h.pads.len());
            let s = Found { events: r.events.push((c, InputEvent::Pressed(b))), ..r };
            if attack(b) {
                let p = h.pads[c as int];
                let q = PadView { last_press: p.last_press.update(rank(b), Some(t)), ..p };
                let (p2, r2) = attack_pressed(p, c, b, t, now, s);
                lemma_held_update(h.pads, c as int, p2, h.pads.len());
                if p.cluster.len() > 0 && !joins(p.cluster, b, t) {
                    lemma_finalized_told(
                        q,
                        c,
                        StrayReason::NoPairArrived,
                        now,
                        bounced(p, c, b, t, s),
                    );
                }
            }
        },
        InputMsg::Released(c, b, t) => {
            let h = with_slot(g, c);
            lemma_held_padded(g.pads, c + 1, h.pads.len());
            let s = Found { events: r.events.push((c, InputEvent::Released(b))), ..r };
            if attack(b) {
                let p = h.pads[c as int];
                let q = PadView { last_release: p.last_release.update(rank(b), Some(t)), ..p };
                let (p2, r2) = attack_released(p, c, b, t, now, s);
                lemma_held_update(h.pads, c as int, p2, h.pads.len());
                if is_member(p.cluster, b) {
                    lemma_finalized_told(q, c, StrayReason::ReleasedBeforePair, now, s);
                }
            }
        },
    }
}

proof fn lemma_run_tells(g: InputView, msgs: Seq<InputMsg>, now: u64)
    requires
        forall|i: int| 0 <= i < msgs.len() ==> slot_fits(#[trigger] msgs[i]),
    ensures
        held(run(g, msgs, now).0) + told(run(g, msgs, now).1) == held(g) + attacks_in(msgs),
    decreases msgs.len(),
{
    if msgs.len() > 0 {
        assert forall|i: int| 0 <= i < msgs.drop_last().len() implies slot_fits(
            #[trigger] msgs.drop_last()[i],
        ) by {
            assert(msgs.drop_last()[i] == msgs[i]);
        }
        lemma_run_tells(g, msgs.drop_last(), now);
        let (h, r) = run(g, msgs.drop_last(), now);
        lemma_step_tells(h, r, msgs.last(), now);
        assert(seq![msgs.last()].drop_last() =~= Seq::empty());
        assert(attacks_in(Seq::empty()) == 0);
    }
}

proof fn lemma_settled_tells(g: InputView, r: Found, now: u64, n: nat)
    requires
        n <= g.pads.len(),
    ensures
        settled_pads(g, r, now, n).0.pads.len() == g.pads.len(),
        held(settled_pads(g, r, now, n).0) + told(settled_pads(g, r, now, n).1) == held(g) + told(r),
    decreases n,
{
    if n > 0 {
        lemma_settled_tells(g, r, now, (n - 1) as nat);
        let (h, s) = settled_pads(g, r, now, (n - 1) as nat);
        let (p, q) = settled(h.pads[n - 1], (n - 1) as usize, now, s);
        lemma_held_update(h.pads, n - 1, p, h.pads.len());
        if is_expired(h.pads[n - 1], now) {
            lemma_finalized_told(
                h.pads[n - 1],
                (n - 1) as usize,
                StrayReason::NoPairArrived,
                now,
                s,
            );
        }
    }
}

/// Every attack press is told exactly once: in one chord, as one stray, or later,
/// while it waits in an open chord.
pub proof fn law_every_press_is_told_once(g: InputView, msgs: Seq<InputMsg>, now: u64)
    requires
        forall|i: int| 0 <= i < msgs.len() ==> slot_fits(#[trigger] msgs[i]),
    ensures
        held(polled(g, msgs, now).0) + told(polled(g, msgs, now).1) == held(g) + attacks_in(msgs),
{
    lemma_run_tells(g, msgs, now);
    let (h, r) = run(g, msgs, now);
    lemma_settled_tells(h, r, now, h.pads.len());
}

/// No button stands twice in the chord.
pub open spec fn all_different(cl: Seq<(Button, u64)>) -> bool {
    forall|i: int, j: int| 0 <= i < j < cl.len() ==> (#[trigger] cl[i]).0 != (#[trigger] cl[j]).0
}

/// Every open chord holds a button once.
pub open spec fn sound(g: InputView) -> bool {
    forall|i: int| 0 <= i < g.pads.len() ==> all_different((#[trigger] g.pads[i]).cluster)
}

/// A chord as it is told: two buttons or more, each once, the first and the last by
/// name.
pub open spec fn is_chord(p: PairView) -> bool {
    &&& p.count == p.buttons.len()
    &&& p.count >= 2
    &&& p.buttons.no_duplicates()
    &&& p.button_a == p.buttons[0]
    &&& p.button_b == p.buttons.last()
}

/// Everything told as a chord is one.
pub open spec fn all_chords(r: Found) -> bool {
    forall|i: int| 0 <= i < r.pairs.len() ==> is_chord(#[trigger] r.pairs[i])
}

proof fn lemma_plugged_sound(g: InputView, list: Seq<(usize, String)>, n: nat)
    requires
        n <= list.len(),
        sound(g),
    ensures
        sound(plugged(g, list, n)),
    decreases n,
{
    if n > 0 {
        lemma_plugged_sound(g, list, (n - 1) as nat);
    }
}

proof fn lemma_step_sound(g: InputView, r: Found, m: InputMsg, now: u64)
    requires
        slot_fits(m),
        sound(g),
        all_chords(r),
    ensures
        sound(step(g, r, m, now).0),
        all_chords(step(g, r, m, now).1),
{
    match m {
        InputMsg::Connected(list, interval) => {
            let h = if interval > 0 {
                InputView { report_interval_ns: interval, ..g }
            } else {
                g
            };
            lemma_plugged_sound(unplugged(h), list@, list@.len());
        },
        InputMsg::Pressed(c, b, t) => {
            let h = with_slot(g, c);
            assert(all_different(h.pads[c as int].cluster));
            let s = Found { events: r.events.push((c, InputEvent::Pressed(b))), ..r };
            if attack(b) {
                let (p2, r2) = attack_pressed(h.pads[c as int], c, b, t, now, s);
                assert(all_different(p2.cluster));
            }
        },
        InputMsg::Released(c, b, t) => {
            let h = with_slot(g, c);
            assert(all_different(h.pads[c as int].cluster));
        },
    }
}

proof fn lemma_run_sound(g: InputView, msgs: Seq<InputMsg>, now: u64)
    requires
        sound(g),
        forall|i: int| 0 <= i < msgs.len() ==> slot_fits(#[trigger] msgs[i]),
    ensures
        sound(run(g, msgs, now).0),
        all_chords(run(g, msgs, now).1),
    decreases msgs.len(),
{
    if msgs.len() > 0 {
        assert forall|i: int| 0 <= i < msgs.drop_last().len() implies slot_fits(
            #[trigger] msgs.drop_last()[i],
        ) by {
            assert(msgs.drop_last()[i] == msgs[i]);
        }
        lemma_run_sound(g, msgs.drop_last(), now);
        let (h, r) = run(g, msgs.drop_last(), now);
        lemma_step_sound(h, r, msgs.last(), now);
    }
}

proof fn lemma_settled_sound(g: InputView, r: Found, now: u64, n: nat)
    requires
        n <= g.pads.len(),
        sound(g),
        all_chords(r),
    ensures
        settled_pads(g, r, now, n).0.pads.len() == g.pads.len(),
        sound(settled_pads(g, r, now, n).0),
        all_chords(settled_pads(g, r, now, n).1),
    decreases n,
{
    if n > 0 {
        lemma_settled_sound(g, r, now, (n - 1) as nat);
        let (h, s) = settled_pads(g, r, now, (n - 1) as nat);
        assert(all_different(h.pads[n - 1].cluster));
    }
}

/// Whatever comes in, an open chord holds a button at most once, and so does every
/// chord that is told.
pub proof fn law_chords_are_of_different_buttons(g: InputView, msgs: Seq<InputMsg>, now: u64)
    requires
        sound(g),
        forall|i: int| 0 <= i < msgs.len() ==> slot_fits(#[trigger] msgs[i]),
    ensures
        sound(polled(g, msgs, now).0),
        all_chords(polled(g, msgs, now).1),
{
    lemma_run_sound(g, msgs, now);
    let (h, r) = run(g, msgs, now);
    lemma_settled_sound(h, r, now, h.pads.len());
}

/// Two different attacks pressed within fifty milliseconds of each other are one chord: once
/// one of them is let go, or the time is over, it is told with both buttons, in the order of
/// the presses, and the time between them. Nothing is told of either alone.
pub proof fn law_two_close_presses_are_a_chord(
    p: PadView,
    c: usize,
    a: Button,
    b: Button,
    t1: u64,
    t2: u64,
    lifted: Button,
    t3: u64,
    now: u64,
    r: Found,
)
    requires
        p.cluster.len() == 0,
        p.last_press.len() == 20 && p.last_release.len() == 20,
        a != b,
        t1 <= t2,
        lifted == a || lifted == b,
    ensures
        ({
            let (p1, r1) = attack_pressed(p, c, a, t1, now, r);
            let (p2, r2) = attack_pressed(p1, c, b, t2, now, r1);
            let (p3, r3) = attack_released(p2, c, lifted, t3, now, r2);
            let (p4, r4) = settled(p2, c, now, r2);
            let close = t2 - t1 <= 50_000_000;
            let pair = PairView {
                button_a: a,
                button_b: b,
                count: 2,
                gap_ns: (t2 - t1) as u64,
                buttons: seq![a, b],
                t0_ns: t1,
                controller: c,
            };
            &&& close ==> r2.pairs == r.pairs && r2.strays == r.strays
            &&& close ==> r3.pairs == r.pairs.push(pair) && r3.strays == r.strays
            &&& close ==> p3.cluster.len() == 0
            &&& close && now <= t2 + 50_000_000 ==> (p4, r4) == (p2, r2)
            &&& close && now > t2 + 50_000_000 ==> r4.pairs == r.pairs.push(pair) && r4.strays
                == r.strays && p4.cluster.len() == 0
            &&& !close ==> r2.pairs == r.pairs && r2.strays.len() == r.strays.len() + 1
            &&& !close ==> r2.strays.last().button == a && r2.strays.last().reason
                == StrayReason::NoPairArrived && r2.strays.last().controller == c
            &&& !close ==> p2.cluster == seq![(b, t2)]
        }),
{
    let (p1, r1) = attack_pressed(p, c, a, t1, now, r);
    let (p2, r2) = attack_pressed(p1, c, b, t2, now, r1);
    assert(p1.cluster =~= seq![(a, t1)]);
    assert(p1.cluster[0].0 == a);
    assert(!is_member(p1.cluster, b));
    if t2 - t1 <= 50_000_000 {
        assert(p2.cluster =~= seq![(a, t1), (b, t2)]);
        assert(p2.cluster[0].0 == a && p2.cluster[1].0 == b);
        assert(is_member(p2.cluster, lifted));
        assert(members(p2.cluster) =~= seq![a, b]);
    }
}

/// A press that is let go alone is told as a stray, with how long it was alone and that it
/// was let go before a partner came; one that is held alone is told once its time is over.
pub proof fn law_a_lone_press_is_a_stray(
    p: PadView,
    c: usize,
    b: Button,
    t: u64,
    t2: u64,
    now: u64,
    r: Found,
)
    requires
        p.cluster.len() == 0,
        p.last_press.len() == 20 && p.last_release.len() == 20,
        t <= now,
    ensures
        ({
            let (p1, r1) = attack_pressed(p, c, b, t, now, r);
            let (p2, r2) = attack_released(p1, c, b, t2, now, r1);
            let (p3, r3) = settled(p1, c, now, r1);
            let s = r2.strays.last();
            &&& r1.strays == r.strays && r1.pairs == r.pairs
            &&& r2.pairs == r.pairs && r3.pairs == r.pairs
            &&& r2.strays.len() == r.strays.len() + 1
            &&& s.button == b && s.solo_ns == now - t && s.controller == c
            &&& s.reason == StrayReason::ReleasedBeforePair
            &&& p2.cluster.len() == 0
            &&& now <= t + 50_000_000 ==> r3.strays == r.strays && p3.cluster == seq![(b, t)]
            &&& now > t + 50_000_000 ==> r3.strays.len() == r.strays.len() + 1
                && r3.strays.last().reason == StrayReason::NoPairArrived
                && r3.strays.last().solo_ns == now - t && p3.cluster.len() == 0
        }),
{
    let (p1, r1) = attack_pressed(p, c, b, t, now, r);
    assert(p1.cluster[0].0 == b);
    assert(is_member(p1.cluster, b));
}

/// A button that comes back less than five milliseconds after its release has bounced, and the
/// time between is told; from five milliseconds on, and on a first press, it has not. The
/// button's own release counts, not another's.
pub proof fn law_a_bounce_comes_back_too_soon(
    p: PadView,
    c: usize,
    b: Button,
    other: Button,
    t0: u64,
    t1: u64,
    t: u64,
    now: u64,
    r: Found,
)
    requires
        p.last_press.len() == 20 && p.last_release.len() == 20,
        t0 <= t,
        other != b,
    ensures
        ({
            let (p1, r1) = attack_released(p, c, b, t0, now, r);
            let (p2, r2) = attack_released(p1, c, other, t1, now, r1);
            let (p3, r3) = attack_pressed(p2, c, b, t, now, r2);
            &&& r2.bounces == r.bounces
            &&& t - t0 >= 5_000_000 ==> r3.bounces == r.bounces
            &&& t - t0 < 5_000_000 ==> r3.bounces == r.bounces.push(
                BounceEvent { button: b, off_ns: (t - t0) as u64, controller: c },
            )
            &&& p.last_release[rank(b)] is None ==> attack_pressed(p, c, b, t, now, r).1.bounces
                == r.bounces
        }),
{
    crate::button::law_ranks_are_places(b, 0);
    crate::button::law_ranks_are_places(other, 0);
    assert(rank(b) != rank(other));
}

/// A third attack joins a chord by its distance from the press before it, not from the first:
/// a roll of any length is one chord as long as no step takes more than fifty milliseconds.
pub proof fn law_a_roll_is_one_chord(
    p: PadView,
    c: usize,
    b: Button,
    t: u64,
    now: u64,
    r: Found,
)
    requires
        p.cluster.len() > 0,
        p.last_press.len() == 20 && p.last_release.len() == 20,
        p.cluster.last().1 <= t,
        forall|i: int| 0 <= i < p.cluster.len() ==> (#[trigger] p.cluster[i]).0 != b,
    ensures
        ({
            let (q, s) = attack_pressed(p, c, b, t, now, r);
            &&& t - p.cluster.last().1 <= 50_000_000 ==> q.cluster == p.cluster.push((b, t))
                && s.pairs == r.pairs && s.strays == r.strays
            &&& t - p.cluster.last().1 > 50_000_000 ==> q.cluster == seq![(b, t)] && s.pairs.len()
                + s.strays.len() == r.pairs.len() + r.strays.len() + 1
        }),
{
}

/// The time that a button was up before a press is told with a stray: from its release to the
/// press.
pub proof fn law_off_time_is_from_release_to_press(
    p: PadView,
    c: usize,
    b: Button,
    t0: u64,
    t: u64,
    now: u64,
    r: Found,
)
    requires
        p.cluster.len() == 0,
        p.last_press.len() == 20 && p.last_release.len() == 20,
        t0 <= t,
        now > t + 50_000_000,
    ensures
        ({
            let (p1, r1) = attack_released(p, c, b, t0, now, r);
            let (p2, r2) = attack_pressed(p1, c, b, t, now, r1);
            let (p3, r3) = settled(p2, c, now, r2);
            r3.strays.len() == r.strays.len() + 1 && r3.strays.last().off_time_ns == Some(
                (t - t0) as u64,
            )
        }),
{
    crate::button::law_ranks_are_places(b, 0);
    let (p1, r1) = attack_released(p, c, b, t0, now, r);
    assert(!is_member(p.cluster, b));
    let (p2, r2) = attack_pressed(p1, c, b, t, now, r1);
    assert(p2.cluster =~= seq![(b, t)]);
    assert(p2.last_release[rank(b)] == Some(t0));
    assert(p2.last_press[rank(b)] == Some(t));
}

/// A button that is no attack is told as an edge and takes no part in any chord; every edge
/// is told, in its order, with its controller.
pub proof fn law_every_edge_is_told(g: InputView, r: Found, c: usize, b: Button, t: u64, now: u64)
    requires
        c < usize::MAX,
    ensures
        ({
            let (h, s) = step(g, r, InputMsg::Pressed(c, b, t), now);
            let (k, u) = step(g, r, InputMsg::Released(c, b, t), now);
            &&& s.events == r.events.push((c, InputEvent::Pressed(b)))
            &&& u.events == r.events.push((c, InputEvent::Released(b)))
            &&& !attack(b) ==> s.pairs == r.pairs && s.strays == r.strays && s.bounces == r.bounces
            &&& !attack(b) ==> u.pairs == r.pairs && u.strays == r.strays && u.bounces == r.bounces
            &&& forall|i: int|
                0 <= i < g.pads.len() && i != c ==> #[trigger] h.pads[i] == g.pads[i] && k.pads[i]
                    == g.pads[i]
        }),
{
}

/// The controllers told are the connected ones, in the order of their slots, each by its own
/// name, or by its number where it has none.
pub proof fn law_the_connected_controllers_are_told(g: InputView, n: nat)
    requires
        n <= g.connected.len() <= usize::MAX,
    ensures
        ({
            let l = connected_to(g, n);
            &&& forall|i: int|
                0 <= i < n ==> (#[trigger] g.connected[i] <==> exists|k: int|
                    0 <= k < l.len() && (#[trigger] l[k]).0 == i)
            &&& forall|a: int, b: int|
                0 <= a < b < l.len() ==> (#[trigger] l[a]).0 < (#[trigger] l[b]).0
            &&& forall|a: int|
                0 <= a < l.len() ==> {
                    let c = #[trigger] l[a];
                    let own = if c.0 < g.names.len() {
                        g.names[c.0 as int]
                    } else {
                        Seq::empty()
                    };
                    &&& c.0 < n
                    &&& own.len() > 0 ==> c.1 == own
                    &&& own.len() == 0 ==> c.1 == "Controller "@ + decimal((c.0 + 1) as nat)
                }
        }),
    decreases n,
{
    if n > 0 {
        let m = (n - 1) as nat;
        law_the_connected_controllers_are_told(g, m);
        let h = connected_to(g, m);
        let l = connected_to(g, n);
        assert forall|i: int| 0 <= i < n implies (#[trigger] g.connected[i] <==> exists|k: int|
            0 <= k < l.len() && (#[trigger] l[k]).0 == i) by {
            if i < m {
                if g.connected[i] {
                    let k = choose|k: int| 0 <= k < h.len() && (#[trigger] h[k]).0 == i;
                    assert(l[k].0 == i);
                }
                if exists|k: int| 0 <= k < l.len() && (#[trigger] l[k]).0 == i {
                    let k = choose|k: int| 0 <= k < l.len() && (#[trigger] l[k]).0 == i;
                    assert(k < h.len());
                    assert(h[k].0 == i);
                }
            } else {
                if g.connected[i] {
                    assert(l[l.len() - 1].0 == i);
                } else {
                    assert(forall|k: int| 0 <= k < h.len() ==> (#[trigger] h[k]).0 < m);
                }
            }
        }
    }
}

} // verus!
