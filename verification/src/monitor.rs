//! The button monitor: how long each button is held, how soon it is pressed again,
//! and a log of the latest edges.
//!
//! Times are nanoseconds of one clock.

use crate::button::{at_place, format_button, label, place, rank, ranked, Button, BUTTONS};
use crate::input::since;
use crate::ranks::total;
use crate::text::{chars_of, decimal, put, put_number, string_of};
use vstd::prelude::*;
use vstd::string::StringExecFns;

verus! {

/// The log keeps this many entries.
pub const LOG_LEN: usize = 500;

/// What is known of one button.
struct ButtonState {
    held: bool,
    press_time: Option<u64>,
    release_time: Option<u64>,
    press_count: u32,
    /// How long each press was held.
    hold_durations: Vec<u64>,
    /// From each release to the next press.
    repress_gaps: Vec<u64>,
}

/// What is known of one button, as mathematics.
#[verifier::ext_equal]
pub struct ButtonView {
    pub held: bool,
    pub press_time: Option<u64>,
    pub release_time: Option<u64>,
    pub press_count: u32,
    pub hold_durations: Seq<u64>,
    pub repress_gaps: Seq<u64>,
}

/// An entry of the log.
#[derive(Debug)]
pub struct MonitorLogEntry {
    pub button_name: String,
    pub event_type: String,
    pub detail: String,
}

/// An entry of the log as mathematics.
#[verifier::ext_equal]
pub struct EntryView {
    pub button_name: Seq<char>,
    pub event_type: Seq<char>,
    pub detail: Seq<char>,
}

impl View for MonitorLogEntry {
    type V = EntryView;

    open spec fn view(&self) -> EntryView {
        EntryView {
            button_name: self.button_name@,
            event_type: self.event_type@,
            detail: self.detail@,
        }
    }
}

/// The summary of one button. A mean is the sum over the count.
#[derive(Debug)]
pub struct ButtonInfo {
    pub name: String,
    pub held: bool,
    pub press_count: u32,
    pub hold_count: usize,
    pub hold_sum_ns: u128,
    /// 0 where the button was not held yet.
    pub last_hold_ns: u64,
    pub repress_count: usize,
    pub repress_sum_ns: u128,
    /// 0 where the button was not pressed again yet.
    pub last_repress_ns: u64,
}

/// The monitor.
pub struct ButtonMonitor {
    buttons: Vec<Option<ButtonState>>,
    log: Vec<MonitorLogEntry>,
}

/// The monitor as mathematics. The buttons are by their places, `None` where a
/// button was not touched yet.
#[verifier::ext_equal]
pub struct MonitorView {
    pub buttons: Seq<Option<ButtonView>>,
    pub log: Seq<EntryView>,
}

impl ButtonState {
    spec fn seen_as(self) -> ButtonView {
        ButtonView {
            held: self.held,
            press_time: self.press_time,
            release_time: self.release_time,
            press_count: self.press_count,
            hold_durations: self.hold_durations@,
            repress_gaps: self.repress_gaps@,
        }
    }

    fn new() -> (r: Self)
        ensures
            r.seen_as() == untouched(),
    {
        let r = ButtonState {
            held: false,
            press_time: None,
            release_time: None,
            press_count: 0,
            hold_durations: Vec::new(),
            repress_gaps: Vec::new(),
        };
        assert(r.seen_as() =~= untouched());
        r
    }
}

/// A button before its first edge.
pub open spec fn untouched() -> ButtonView {
    ButtonView {
        held: false,
        press_time: None,
        release_time: None,
        press_count: 0,
        hold_durations: Seq::empty(),
        repress_gaps: Seq::empty(),
    }
}

/// The views of some entries.
pub open spec fn entries_of(s: Seq<MonitorLogEntry>) -> Seq<EntryView> {
    Seq::new(s.len(), |i: int| s[i]@)
}

impl View for ButtonMonitor {
    type V = MonitorView;

    closed spec fn view(&self) -> MonitorView {
        MonitorView {
            buttons: Seq::new(
                self.buttons@.len(),
                |i: int|
                    match self.buttons@[i] {
                        Some(s) => Some(s.seen_as()),
                        None => None,
                    },
            ),
            log: entries_of(self.log@),
        }
    }
}

/// What the monitor knows of a button.
pub open spec fn known(v: MonitorView, b: Button) -> ButtonView {
    match v.buttons[rank(b)] {
        Some(s) => s,
        None => untouched(),
    }
}

/// From the last release to a press at `now`.
pub open spec fn repress(s: ButtonView, now: u64) -> Option<u64> {
    match s.release_time {
        Some(t) => Some(since(now, t)),
        None => None,
    }
}

/// From the last press to a release at `now`.
pub open spec fn hold(s: ButtonView, now: u64) -> Option<u64> {
    match s.press_time {
        Some(t) => Some(since(now, t)),
        None => None,
    }
}

/// `s` with what was measured behind it.
pub open spec fn with_measure(s: Seq<u64>, x: Option<u64>) -> Seq<u64> {
    match x {
        Some(d) => s.push(d),
        None => s,
    }
}

/// A button after a press.
pub open spec fn pressed(s: ButtonView, now: u64) -> ButtonView {
    ButtonView {
        held: true,
        press_time: Some(now),
        press_count: (s.press_count + 1) as u32,
        repress_gaps: with_measure(s.repress_gaps, repress(s, now)),
        ..s
    }
}

/// A button after a release.
pub open spec fn released(s: ButtonView, now: u64) -> ButtonView {
    ButtonView {
        held: false,
        release_time: Some(now),
        hold_durations: with_measure(s.hold_durations, hold(s, now)),
        ..s
    }
}

/// The log with an entry more, without its first where it has become too long.
pub open spec fn logged(log: Seq<EntryView>, e: EntryView) -> Seq<EntryView> {
    if log.len() >= LOG_LEN {
        log.push(e).skip(1)
    } else {
        log.push(e)
    }
}

/// The words of a press: its number and, where the button had been released before,
/// the text of the time since.
pub open spec fn press_words(count: u32, span: Option<Seq<char>>) -> Seq<char> {
    match span {
        Some(t) => "press #"@ + decimal(count as nat) + "  repress: "@ + t + "ms"@,
        None => "press #"@ + decimal(count as nat),
    }
}

/// The words of a release: the text of the time that the button was held, if it was.
pub open spec fn release_words(span: Option<Seq<char>>) -> Seq<char> {
    match span {
        Some(t) => "held: "@ + t + "ms"@,
        None => Seq::empty(),
    }
}

/// A text, if there is one.
pub open spec fn text_of(t: Option<&str>) -> Option<Seq<char>> {
    match t {
        Some(s) => Some(s@),
        None => None,
    }
}

/// The words of the log for press number `count`. `span` is the time since the last
/// release, in milliseconds.
pub fn press_detail(count: u32, span: Option<&str>) -> (r: String)
    ensures
        r@ == press_words(count, text_of(span)),
{
    let mut out: Vec<char> = chars_of("press #");
    put_number(&mut out, count as u64);
    match span {
        Some(t) => {
            put(&mut out, "  repress: ");
            put(&mut out, t);
            put(&mut out, "ms");
        },
        None => {},
    }
    string_of(&out)
}

/// The words of the log for a release. `span` is the time that the button was held,
/// in milliseconds.
pub fn release_detail(span: Option<&str>) -> (r: String)
    ensures
        r@ == release_words(text_of(span)),
{
    match span {
        Some(t) => {
            let mut out: Vec<char> = chars_of("held: ");
            put(&mut out, t);
            put(&mut out, "ms");
            string_of(&out)
        },
        None => String::new(),
    }
}

/// The last of some measures; 0 where there is none.
pub open spec fn last_of(s: Seq<u64>) -> u64 {
    if s.len() == 0 {
        0
    } else {
        s.last()
    }
}

/// The summary of a button as it must be.
pub open spec fn sums_up(i: ButtonInfo, b: Button, s: ButtonView) -> bool {
    &&& i.name@ == label(b)
    &&& i.held == s.held
    &&& i.press_count == s.press_count
    &&& i.hold_count == s.hold_durations.len()
    &&& i.hold_sum_ns == total(s.hold_durations)
    &&& i.last_hold_ns == last_of(s.hold_durations)
    &&& i.repress_count == s.repress_gaps.len()
    &&& i.repress_sum_ns == total(s.repress_gaps)
    &&& i.last_repress_ns == last_of(s.repress_gaps)
}

/// Those of the first `n` buttons that have been pressed at least once, in the order of
/// their names.
pub open spec fn pressed_ones(v: MonitorView, n: nat) -> Seq<Button>
    decreases n,
{
    if n == 0 {
        Seq::empty()
    } else if v.buttons[n - 1] matches Some(b) && b.press_count > 0 {
        pressed_ones(v, (n - 1) as nat).push(ranked(n - 1))
    } else {
        pressed_ones(v, (n - 1) as nat)
    }
}

fn sum(v: &Vec<u64>) -> (r: u128)
    ensures
        r == total(v@),
{
    let n: usize = v.len();
    let mut s: u128 = 0;
    let mut i: usize = 0;
    assert(total(v@.take(0)) == 0);
    while i < n
        invariant
            i <= n == v@.len(),
            s == total(v@.take(i as int)),
            s <= 0xFFFF_FFFF_FFFF_FFFF * i,
        decreases v@.len() - i,
    {
        s = s + v[i] as u128;
        i += 1;
        assert(v@.take(i as int).drop_last() =~= v@.take(i - 1));
    }
    assert(v@.take(i as int) =~= v@);
    s
}

fn last(v: &Vec<u64>) -> (r: u64)
    ensures
        r == last_of(v@),
{
    let n: usize = v.len();
    if n == 0 {
        0
    } else {
        v[n - 1]
    }
}

impl ButtonMonitor {
    /// There is a place for every button, and the log is not too long.
    pub open spec fn wf(&self) -> bool {
        &&& self@.buttons.len() == BUTTONS
        &&& self@.log.len() <= LOG_LEN
    }

    /// Nothing touched.
    pub fn new() -> (r: Self)
        ensures
            r.wf(),
            r@ == (MonitorView {
                buttons: Seq::new(BUTTONS as nat, |i: int| None),
                log: Seq::empty(),
            }),
    {
        let mut buttons: Vec<Option<ButtonState>> = Vec::new();
        while buttons.len() < BUTTONS
            invariant
                buttons@.len() <= BUTTONS,
                forall|i: int| 0 <= i < buttons@.len() ==> (#[trigger] buttons@[i]) is None,
            decreases BUTTONS - buttons@.len(),
        {
            buttons.push(None);
        }
        let r = ButtonMonitor { buttons, log: Vec::new() };
        assert(r@ =~= (MonitorView {
            buttons: Seq::new(BUTTONS as nat, |i: int| None),
            log: Seq::empty(),
        }));
        r
    }

    /// Take out what is known of a button.
    fn take(&mut self, b: Button) -> (r: ButtonState)
        requires
            old(self).wf(),
        ensures
            final(self).wf(),
            r.seen_as() == known(old(self)@, b),
            final(self)@.log == old(self)@.log,
            final(self)@.buttons == old(self)@.buttons.update(rank(b), None),
    {
        let ghost v = self@;
        let k: usize = place(b);
        self.buttons.push(None);
        let s = self.buttons.swap_remove(k);
        assert(self@.buttons =~= v.buttons.update(rank(b), None));
        match s {
            Some(s) => s,
            None => ButtonState::new(),
        }
    }

    fn put_back(&mut self, b: Button, s: ButtonState)
        requires
            old(self).wf(),
        ensures
            final(self).wf(),
            final(self)@.log == old(self)@.log,
            final(self)@.buttons == old(self)@.buttons.update(rank(b), Some(s.seen_as())),
    {
        let ghost v = self@;
        let k: usize = place(b);
        self.buttons[k] = Some(s);
        assert(self@.buttons =~= v.buttons.update(rank(b), Some(s.seen_as())));
    }

    /// Take a press at `now`: its number, and the time since the last release.
    pub fn on_press(&mut self, button: Button, now: u64) -> (r: (u32, Option<u64>))
        requires
            old(self).wf(),
            known(old(self)@, button).press_count < u32::MAX,
        ensures
            final(self).wf(),
            final(self)@ == (MonitorView {
                buttons: old(self)@.buttons.update(
                    rank(button),
                    Some(pressed(known(old(self)@, button), now)),
                ),
                ..old(self)@
            }),
            r == (
                (known(old(self)@, button).press_count + 1) as u32,
                repress(known(old(self)@, button), now),
            ),
    {
        let mut s = self.take(button);
        let gap: Option<u64> = match s.release_time {
            Some(t) => Some(if now >= t {
                now - t
            } else {
                0
            }),
            None => None,
        };
        match gap {
            Some(d) => {
                s.repress_gaps.push(d);
            },
            None => {},
        }
        s.held = true;
        s.press_time = Some(now);
        s.press_count = s.press_count + 1;
        let n: u32 = s.press_count;
        assert(s.seen_as() =~= pressed(known(old(self)@, button), now));
        self.put_back(button, s);
        assert(self@ =~= (MonitorView {
            buttons: old(self)@.buttons.update(
                rank(button),
                Some(pressed(known(old(self)@, button), now)),
            ),
            ..old(self)@
        }));
        (n, gap)
    }

    /// Take a release at `now`: the time that the button was held.
    pub fn on_release(&mut self, button: Button, now: u64) -> (r: Option<u64>)
        requires
            old(self).wf(),
        ensures
            final(self).wf(),
            final(self)@ == (MonitorView {
                buttons: old(self)@.buttons.update(
                    rank(button),
                    Some(released(known(old(self)@, button), now)),
                ),
                ..old(self)@
            }),
            r == hold(known(old(self)@, button), now),
    {
        let mut s = self.take(button);
        let dur: Option<u64> = match s.press_time {
            Some(t) => Some(if now >= t {
                now - t
            } else {
                0
            }),
            None => None,
        };
        match dur {
            Some(d) => {
                s.hold_durations.push(d);
            },
            None => {},
        }
        s.held = false;
        s.release_time = Some(now);
        assert(s.seen_as() =~= released(known(old(self)@, button), now));
        self.put_back(button, s);
        assert(self@ =~= (MonitorView {
            buttons: old(self)@.buttons.update(
                rank(button),
                Some(released(known(old(self)@, button), now)),
            ),
            ..old(self)@
        }));
        dur
    }

    fn push_entry(&mut self, e: MonitorLogEntry)
        requires
            old(self).wf(),
        ensures
            final(self).wf(),
            final(self)@ == (MonitorView { log: logged(old(self)@.log, e@), ..old(self)@ }),
    {
        let ghost v = self@;
        self.log.push(e);
        assert(entries_of(self.log@) =~= v.log.push(e@));
        if self.log.len() > LOG_LEN {
            let ghost before = entries_of(self.log@);
            self.log.remove(0);
            assert(entries_of(self.log@) =~= before.skip(1));
        }
        assert(self@ =~= (MonitorView { log: logged(v.log, e@), ..v }));
    }

    /// Log press number `count`. `span` is the time since the last release, in
    /// milliseconds.
    pub fn log_press(&mut self, button: Button, count: u32, span: Option<&str>)
        requires
            old(self).wf(),
        ensures
            final(self).wf(),
            final(self)@ == (MonitorView {
                log: logged(
                    old(self)@.log,
                    EntryView {
                        button_name: label(button),
                        event_type: "PRESS"@,
                        detail: press_words(count, text_of(span)),
                    },
                ),
                ..old(self)@
            }),
    {
        let e = MonitorLogEntry {
            button_name: format_button(button),
            event_type: String::from_str("PRESS"),
            detail: press_detail(count, span),
        };
        self.push_entry(e);
    }

    /// Log a release. `span` is the time that the button was held, in milliseconds.
    pub fn log_release(&mut self, button: Button, span: Option<&str>)
        requires
            old(self).wf(),
        ensures
            final(self).wf(),
            final(self)@ == (MonitorView {
                log: logged(
                    old(self)@.log,
                    EntryView {
                        button_name: label(button),
                        event_type: "RELEASE"@,
                        detail: release_words(text_of(span)),
                    },
                ),
                ..old(self)@
            }),
    {
        let e = MonitorLogEntry {
            button_name: format_button(button),
            event_type: String::from_str("RELEASE"),
            detail: release_detail(span),
        };
        self.push_entry(e);
    }

    /// The summaries of the buttons that have been pressed at least once, in the order of
    /// their names. A button of which only a release was seen is not among them.
    pub fn button_infos(&self) -> (r: Vec<ButtonInfo>)
        requires
            self.wf(),
        ensures
            r@.len() == pressed_ones(self@, BUTTONS as nat).len(),
            forall|i: int|
                0 <= i < r@.len() ==> sums_up(
                    #[trigger] r@[i],
                    pressed_ones(self@, BUTTONS as nat)[i],
                    known(self@, pressed_ones(self@, BUTTONS as nat)[i]),
                ),
    {
        let mut r: Vec<ButtonInfo> = Vec::new();
        let mut k: usize = 0;
        while k < BUTTONS
            invariant
                self.wf(),
                k <= BUTTONS,
                r@.len() == pressed_ones(self@, k as nat).len(),
                forall|i: int|
                    0 <= i < r@.len() ==> sums_up(
                        #[trigger] r@[i],
                        pressed_ones(self@, k as nat)[i],
                        known(self@, pressed_ones(self@, k as nat)[i]),
                    ),
            decreases BUTTONS - k,
        {
            let ghost before = pressed_ones(self@, k as nat);
            match &self.buttons[k] {
                Some(s) => if s.press_count > 0 {
                    let b: Button = at_place(k);
                    let i = ButtonInfo {
                        name: format_button(b),
                        held: s.held,
                        press_count: s.press_count,
                        hold_count: s.hold_durations.len(),
                        hold_sum_ns: sum(&s.hold_durations),
                        last_hold_ns: last(&s.hold_durations),
                        repress_count: s.repress_gaps.len(),
                        repress_sum_ns: sum(&s.repress_gaps),
                        last_repress_ns: last(&s.repress_gaps),
                    };
                    assert(self@.buttons[k as int] == Some(s.seen_as()));
                    assert(sums_up(i, b, known(self@, b)));
                    r.push(i);
                } else {
                    assert(self@.buttons[k as int] == Some(s.seen_as()));
                },
                None => {},
            }
            k += 1;
        }
        r
    }

    /// The log, oldest first.
    pub fn event_log(&self) -> (r: &Vec<MonitorLogEntry>)
        ensures
            entries_of(r@) == self@.log,
    {
        &self.log
    }

    /// Forget everything.
    pub fn clear(&mut self)
        ensures
            final(self).wf(),
            final(self)@ == (MonitorView {
                buttons: Seq::new(BUTTONS as nat, |i: int| None),
                log: Seq::empty(),
            }),
    {
        *self = Self::new();
    }
}

/// A press and the release that follows it measure one hold, as long as the time
/// between them.
pub proof fn law_a_hold_is_measured(s: ButtonView, t0: u64, t1: u64)
    requires
        t0 <= t1,
        s.press_count < u32::MAX,
    ensures
        released(pressed(s, t0), t1).hold_durations == s.hold_durations.push((t1 - t0) as u64),
        !released(pressed(s, t0), t1).held,
{
}

/// A release and the press that follows it measure one pause, as long as the time between
/// them; a first press measures none. Every press counts once, and a release not at all.
pub proof fn law_a_pause_is_measured(s: ButtonView, t0: u64, t1: u64)
    requires
        t0 <= t1,
        s.press_count < u32::MAX,
    ensures
        pressed(released(s, t0), t1).repress_gaps == s.repress_gaps.push((t1 - t0) as u64),
        pressed(untouched(), t1).repress_gaps.len() == 0,
        pressed(s, t1).press_count == s.press_count + 1,
        released(s, t1).press_count == s.press_count,
        pressed(s, t1).held && !released(s, t1).held,
        pressed(s, t1).hold_durations == s.hold_durations,
        released(s, t1).repress_gaps == s.repress_gaps,
{
}

/// The log never holds more than it keeps, its last entry is the latest, and only the oldest
/// leaves.
pub proof fn law_the_log_keeps_the_latest(log: Seq<EntryView>, e: EntryView)
    requires
        log.len() <= LOG_LEN,
    ensures
        logged(log, e).len() <= LOG_LEN,
        logged(log, e).len() == log.len() + 1 || log.len() == LOG_LEN,
        logged(log, e).last() == e,
        forall|i: int|
            0 <= i < logged(log, e).len() - 1 ==> #[trigger] logged(log, e)[i] == log[log.len() - (
            logged(log, e).len() - 1) + i],
{
}

/// The buttons that are summed up are those that have been pressed, each once, in the order of
/// their places.
pub proof fn law_pressed_buttons_are_summed_up(v: MonitorView, n: nat)
    requires
        n <= v.buttons.len(),
        v.buttons.len() == 20,
    ensures
        ({
            let l = pressed_ones(v, n);
            &&& forall|b: Button|
                rank(b) < n ==> (#[trigger] l.contains(b) <==> (v.buttons[rank(b)] is Some
                    && v.buttons[rank(b)]->0.press_count > 0))
            &&& forall|i: int, j: int|
                0 <= i < j < l.len() ==> rank(#[trigger] l[i]) < rank(#[trigger] l[j])
            &&& forall|i: int| 0 <= i < l.len() ==> rank(#[trigger] l[i]) < n
        }),
    decreases n,
{
    if n > 0 {
        let m = (n - 1) as nat;
        law_pressed_buttons_are_summed_up(v, m);
        let h = pressed_ones(v, m);
        let l = pressed_ones(v, n);
        crate::button::law_ranks_are_places(ranked(m as int), m as int);
        assert forall|b: Button| rank(b) < n implies (#[trigger] l.contains(b) <==> (
        v.buttons[rank(b)] is Some && v.buttons[rank(b)]->0.press_count > 0)) by {
            crate::button::law_ranks_are_places(b, m as int);
            if rank(b) < m {
                assert(h.contains(b) <==> (v.buttons[rank(b)] is Some
                    && v.buttons[rank(b)]->0.press_count > 0));
                if h.contains(b) {
                    let i = choose|i: int| 0 <= i < h.len() && h[i] == b;
                    assert(l[i] == b);
                }
                if l.contains(b) {
                    let i = choose|i: int| 0 <= i < l.len() && l[i] == b;
                    assert(i < h.len());
                    assert(h[i] == b);
                }
            } else {
                assert(b == ranked(m as int));
                if v.buttons[m as int] is Some && v.buttons[m as int]->0.press_count > 0 {
                    assert(l[l.len() - 1] == b);
                } else if l.contains(b) {
                    let i = choose|i: int| 0 <= i < l.len() && l[i] == b;
                    assert(rank(h[i]) < m);
                }
            }
        }
    }
}

} // verus!
