//! What the sync window promises over whole sequences of calls.

use crate::bits::bit;
use crate::sync_window::{
    advance, chord_bit, closes, deadline, deadline_below, delay, edge, grouped, held, lemma_tick_wf,
    line_wf, open_during, passed, presses, read, shows, tick, visible, Line, Phase, Tick,
    MAX_TIME_US,
};
use vstd::prelude::*;

verus! {

/// The line after the calls `ts`, in order.
pub open spec fn run(l: Line, ts: Seq<Tick>) -> Line
    decreases ts.len(),
{
    if ts.len() == 0 {
        l
    } else {
        tick(run(l, ts.drop_last()), ts.last())
    }
}

/// Every instant of `ts` is one the line accepts.
pub open spec fn in_range(ts: Seq<Tick>) -> bool {
    forall|i: int| 0 <= i < ts.len() ==> (#[trigger] ts[i]).now_us <= MAX_TIME_US
}

/// The instants of `ts` come after `from`, each after the one before it.
pub open spec fn increasing(from: u64, ts: Seq<Tick>) -> bool {
    forall|i: int|
        0 <= i < ts.len() ==> (#[trigger] ts[i]).now_us > if i == 0 {
            from
        } else {
            ts[i - 1].now_us
        }
}

/// The instant of the last call, or `from` before the first.
pub open spec fn last_instant(from: u64, ts: Seq<Tick>) -> u64 {
    if ts.len() == 0 {
        from
    } else {
        ts.last().now_us
    }
}

/// What the line holds of the past agrees with a clock that stands at `now`:
/// a waiting press is no older than its window, and a lift comes after its press.
pub open spec fn ordered(l: Line, now: u64) -> bool {
    forall|b: int|
        0 <= b < 16 ==> match #[trigger] l.phases[b] {
            Phase::Waiting { press_us, lifted_us } => {
                &&& l.opened is Some
                &&& l.opened->0 <= press_us <= now
                &&& lifted_us matches Some(lift) ==> press_us < lift <= now
            },
            _ => true,
        }
}

/// Every reachable line keeps the invariant.
pub proof fn law_run_keeps_invariant(l: Line, ts: Seq<Tick>)
    requires
        line_wf(l),
        in_range(ts),
    ensures
        line_wf(run(l, ts)),
    decreases ts.len(),
{
    if ts.len() > 0 {
        assert(in_range(ts.drop_last()));
        law_run_keeps_invariant(l, ts.drop_last());
        lemma_tick_wf(run(l, ts.drop_last()), ts.last());
    }
}

/// A button outside the synced mask is never delayed: it stays out of the line,
/// and the consumer sees the raw bit, call after call.
pub proof fn law_unsynced_passes_through(l: Line, ts: Seq<Tick>, b: int, out: u16)
    requires
        line_wf(l),
        in_range(ts),
        0 <= b < 16,
        l.phases[b] is Up,
        forall|i: int| 0 <= i < ts.len() ==> !bit((#[trigger] ts[i]).synced, b),
        ts.len() > 0,
        shows(run(l, ts), ts.last().raw, ts.last().synced, out),
    ensures
        run(l, ts).phases[b] is Up,
        bit(out, b) == bit(ts.last().raw, b),
{
    lemma_unsynced_stays_up(l, ts, b);
}

proof fn lemma_unsynced_stays_up(l: Line, ts: Seq<Tick>, b: int)
    requires
        0 <= b < 16,
        l.phases[b] is Up,
        forall|i: int| 0 <= i < ts.len() ==> !bit((#[trigger] ts[i]).synced, b),
    ensures
        run(l, ts).phases[b] is Up,
    decreases ts.len(),
{
    if ts.len() > 0 {
        lemma_unsynced_stays_up(l, ts.drop_last(), b);
        assert(ts.last() == ts[ts.len() - 1]);
    }
}

/// No button is invented: one that is up and not pressed is not reported.
pub proof fn law_nothing_is_invented(l: Line, t: Tick, b: int, out: u16)
    requires
        line_wf(l),
        0 <= b < 16,
        l.phases[b] is Up,
        !bit(t.raw, b),
        shows(tick(l, t), t.raw, t.synced, out),
    ensures
        tick(l, t).phases[b] is Up,
        !bit(out, b),
{
}

/// A clock that moves forward keeps the line's record of the past in order.
pub proof fn law_clock_keeps_order(l: Line, from: u64, ts: Seq<Tick>)
    requires
        line_wf(l),
        in_range(ts),
        ordered(l, from),
        increasing(from, ts),
        l.opened matches Some(s) ==> s <= from,
    ensures
        ordered(run(l, ts), last_instant(from, ts)),
        run(l, ts).opened matches Some(s) ==> s <= last_instant(from, ts),
    decreases ts.len(),
{
    if ts.len() > 0 {
        let ps = ts.drop_last();
        let t = ts.last();
        assert(t == ts[ts.len() - 1]);
        assert forall|i: int| 0 <= i < ps.len() implies (#[trigger] ps[i]).now_us > if i == 0 {
            from
        } else {
            ps[i - 1].now_us
        } by {
            assert(ps[i] == ts[i]);
            if i > 0 {
                assert(ps[i - 1] == ts[i - 1]);
            }
        }
        assert(in_range(ps));
        law_clock_keeps_order(l, from, ps);
        law_run_keeps_invariant(l, ps);
        let p = run(l, ps);
        let before = last_instant(from, ps);
        assert(before < t.now_us) by {
            if ps.len() > 0 {
                assert(ps.last() == ts[ts.len() - 2]);
            }
        }
        assert forall|b: int| 0 <= b < 16 implies match #[trigger] tick(p, t).phases[b] {
            Phase::Waiting { press_us, lifted_us } => {
                &&& tick(p, t).opened is Some
                &&& tick(p, t).opened->0 <= press_us <= t.now_us
                &&& lifted_us matches Some(lift) ==> press_us < lift <= t.now_us
            },
            _ => true,
        } by {
            let was = p.phases[b];
            if tick(p, t).phases[b] is Waiting {
                assert(!closes(p, t));
                if was is Up {
                    assert(held(t, b));
                    assert(presses(p, t));
                } else {
                    assert(was is Waiting);
                }
            }
        }
    }
}

/// A press is held for at most the window: at any instant a full window after
/// the press, the button no longer waits.
pub proof fn law_press_waits_at_most_the_window(l: Line, t: Tick, b: int)
    requires
        line_wf(l),
        0 <= b < 16,
        ordered(l, t.now_us),
        l.phases[b] matches Phase::Waiting { press_us, .. } && t.now_us >= press_us + t.window_us,
    ensures
        !(tick(l, t).phases[b] is Waiting),
{
}

/// The delay that a commit charges is at most the window, whatever the clock did.
pub proof fn law_debt_is_at_most_the_window(l: Line, t: Tick, b: int)
    requires
        line_wf(l),
        t.now_us <= MAX_TIME_US,
        0 <= b < 16,
        read(l, t, b) is Waiting,
        closes(l, t),
    ensures
        match tick(l, t).phases[b] {
            Phase::Down { owes_us, .. } => owes_us <= t.window_us,
            Phase::Leaving { owes_us, .. } => owes_us <= t.window_us,
            Phase::Waiting { .. } => false,
            Phase::Up => true,
        },
        tick(l, t).last_delay <= t.window_us,
{
    lemma_largest_delay_bound(l, t, 16);
}

proof fn lemma_largest_delay_bound(l: Line, t: Tick, n: int)
    ensures
        crate::sync_window::largest_delay(l, t, n) <= t.window_us,
    decreases n,
{
    if n > 0 {
        lemma_largest_delay_bound(l, t, n - 1);
    }
}

/// Two attacks held together are delivered at once: nothing waits any more.
pub proof fn law_a_chord_is_delivered_at_once(l: Line, t: Tick, a: int, b: int)
    requires
        line_wf(l),
        t.now_us <= MAX_TIME_US,
        0 <= a < b < 16,
        chord_bit(l, t, a),
        chord_bit(l, t, b),
    ensures
        visible(tick(l, t).phases[a]),
        visible(tick(l, t).phases[b]),
        forall|c: int| 0 <= c < 16 ==> !(#[trigger] tick(l, t).phases[c] is Waiting),
{
    assert(grouped(l, t));
    if open_during(l, t) is None {
        assert forall|c: int| 0 <= c < 16 implies !(#[trigger] tick(l, t).phases[c] is Waiting) by {
            assert(!(l.phases[c] is Waiting));
            assert(!(l.phases[c] is Up && held(t, c)));
        }
        assert(!(l.phases[a] is Waiting) && !(l.phases[a] is Up && held(t, a)));
        assert(!(l.phases[b] is Waiting) && !(l.phases[b] is Up && held(t, b)));
    }
}

/// Every button of one window lands in the same output word.
pub proof fn law_a_window_lands_in_one_word(l: Line, t: Tick, b: int, out: u16)
    requires
        line_wf(l),
        t.now_us <= MAX_TIME_US,
        closes(l, t),
        0 <= b < 16,
        read(l, t, b) matches Phase::Waiting { press_us, lifted_us } && (lifted_us matches Some(
            lift,
        ) ==> press_us < lift),
        shows(tick(l, t), t.raw, t.synced, out),
    ensures
        bit(out, b),
{
}

/// A press is never deleted: on a clock that moves forward, a waiting button
/// waits until the call at which the consumer sees it.
pub proof fn law_a_press_is_not_deleted(l: Line, from: u64, ts: Seq<Tick>, b: int)
    requires
        line_wf(l),
        in_range(ts),
        ordered(l, from),
        l.opened matches Some(s) ==> s <= from,
        increasing(from, ts),
        0 <= b < 16,
        l.phases[b] is Waiting,
    ensures
        run(l, ts).phases[b] is Waiting || exists|k: int|
            1 <= k <= ts.len() && visible((#[trigger] run(l, ts.take(k))).phases[b]),
    decreases ts.len(),
{
    if ts.len() > 0 {
        let ps = ts.drop_last();
        let t = ts.last();
        assert(t == ts[ts.len() - 1]);
        assert forall|i: int| 0 <= i < ps.len() implies (#[trigger] ps[i]).now_us > if i == 0 {
            from
        } else {
            ps[i - 1].now_us
        } by {
            assert(ps[i] == ts[i]);
            if i > 0 {
                assert(ps[i - 1] == ts[i - 1]);
            }
        }
        assert(in_range(ps));
        law_a_press_is_not_deleted(l, from, ps, b);
        law_clock_keeps_order(l, from, ps);
        law_run_keeps_invariant(l, ps);
        let p = run(l, ps);
        if p.phases[b] is Waiting {
            let before = last_instant(from, ps);
            assert(before < t.now_us) by {
                if ps.len() > 0 {
                    assert(ps.last() == ts[ts.len() - 2]);
                }
            }
            assert(tick(p, t).phases[b] is Waiting || visible(tick(p, t).phases[b]));
            assert(ts.take(ts.len() as int) =~= ts);
            assert(run(l, ts.take(ts.len() as int)) == tick(p, t));
        } else {
            let k = choose|k: int|
                1 <= k <= ps.len() && visible((#[trigger] run(l, ps.take(k))).phases[b]);
            assert(ps.take(k) =~= ts.take(k));
            assert(visible(run(l, ts.take(k)).phases[b]));
        }
    }
}

/// A reported button that stays down keeps its debt.
pub proof fn law_held_button_keeps_its_debt(l: Line, ts: Seq<Tick>, b: int, owes: u32)
    requires
        0 <= b < 16,
        l.phases[b] matches Phase::Down { owes_us, .. } && owes_us == owes,
        forall|i: int| 0 <= i < ts.len() ==> held(#[trigger] ts[i], b),
    ensures
        run(l, ts).phases[b] matches Phase::Down { owes_us, .. } && owes_us == owes,
    decreases ts.len(),
{
    if ts.len() > 0 {
        law_held_button_keeps_its_debt(l, ts.drop_last(), b, owes);
        assert(ts.last() == ts[ts.len() - 1]);
    }
}

/// A button that is let go stays reported up to its deadline, and no longer.
pub proof fn law_release_lands_on_its_deadline(l: Line, ts: Seq<Tick>, e: Tick, b: int, until: u64)
    requires
        0 <= b < 16,
        l.phases[b] matches Phase::Leaving { until_us, .. } && until_us == until,
        forall|i: int|
            0 <= i < ts.len() ==> !held(#[trigger] ts[i], b) && ts[i].now_us < until,
        !held(e, b),
        e.now_us >= until,
    ensures
        visible(run(l, ts).phases[b]),
        tick(run(l, ts), e).phases[b] is Up,
{
    lemma_leaving_stays(l, ts, b);
}

proof fn lemma_leaving_stays(l: Line, ts: Seq<Tick>, b: int)
    requires
        0 <= b < 16,
        l.phases[b] is Leaving,
        forall|i: int|
            0 <= i < ts.len() ==> !held(#[trigger] ts[i], b) && ts[i].now_us
                < l.phases[b]->Leaving_until_us,
    ensures
        run(l, ts).phases[b] == l.phases[b],
    decreases ts.len(),
{
    if ts.len() > 0 {
        lemma_leaving_stays(l, ts.drop_last(), b);
        assert(ts.last() == ts[ts.len() - 1]);
    }
}

/// Pulse width is preserved. A button pressed at `press`, first reported at the
/// call `c` within its window, held over the calls `mid` and let go at `r`, is
/// reported from `c` until its release has been held back as long as its press
/// was: `r.now_us - press` after `c`.
pub proof fn law_pulse_width_is_preserved(
    l: Line,
    c: Tick,
    mid: Seq<Tick>,
    r: Tick,
    tail: Seq<Tick>,
    e: Tick,
    b: int,
    press: u64,
)
    requires
        line_wf(l),
        0 <= b < 16,
        read(l, c, b) == (Phase::Waiting { press_us: press, lifted_us: None }),
        closes(l, c),
        press <= c.now_us <= press + c.window_us,
        c.now_us <= r.now_us <= MAX_TIME_US,
        forall|i: int| 0 <= i < mid.len() ==> held(#[trigger] mid[i], b),
        !held(r, b),
        forall|i: int|
            0 <= i < tail.len() ==> !held(#[trigger] tail[i], b) && tail[i].now_us < c.now_us + (
            r.now_us - press),
        tail.len() > 0 ==> c.now_us > press,
        !held(e, b),
        e.now_us >= c.now_us + (r.now_us - press),
    ensures
        visible(tick(l, c).phases[b]),
        visible(run(tick(l, c), mid).phases[b]),
        c.now_us > press ==> visible(tick(run(tick(l, c), mid), r).phases[b]),
        c.now_us > press ==> visible(run(tick(run(tick(l, c), mid), r), tail).phases[b]),
        tick(run(tick(run(tick(l, c), mid), r), tail), e).phases[b] is Up,
{
    let first = tick(l, c);
    let owes = delay(press, c.now_us, c.window_us);
    assert(first.phases[b] == Phase::Down { owes_us: owes, resumed: false });
    assert(owes == c.now_us - press);
    law_held_button_keeps_its_debt(first, mid, b, owes);
    let down = run(first, mid);
    let gone = tick(down, r);
    let until = (r.now_us + owes) as u64;
    if owes > 0 {
        assert(gone.phases[b] == Phase::Leaving { owes_us: owes, until_us: until });
        law_release_lands_on_its_deadline(gone, tail, e, b, until);
    } else {
        assert(gone.phases[b] is Up);
        assert(tail =~= Seq::empty());
    }
}

/// A tap shorter than the window keeps its width: let go while it waited, it is
/// reported from the call `c` that commits it for as long as it was down.
pub proof fn law_tap_width_is_preserved(
    l: Line,
    c: Tick,
    tail: Seq<Tick>,
    e: Tick,
    b: int,
    press: u64,
    lift: u64,
)
    requires
        line_wf(l),
        0 <= b < 16,
        c.now_us <= MAX_TIME_US,
        press < lift <= MAX_TIME_US,
        read(l, c, b) == (Phase::Waiting { press_us: press, lifted_us: Some(lift) }),
        closes(l, c),
        forall|i: int|
            0 <= i < tail.len() ==> !held(#[trigger] tail[i], b) && tail[i].now_us < c.now_us + (
            lift - press),
        !held(e, b),
        e.now_us >= c.now_us + (lift - press),
    ensures
        visible(tick(l, c).phases[b]),
        visible(run(tick(l, c), tail).phases[b]),
        tick(run(tick(l, c), tail), e).phases[b] is Up,
{
    let first = tick(l, c);
    let until = (c.now_us + (lift - press)) as u64;
    assert(first.phases[b] matches Phase::Leaving { until_us, .. } && until_us == until);
    law_release_lands_on_its_deadline(first, tail, e, b, until);
}

/// A bounce inside the window reads as one press: let go and pressed again
/// before the commit, the button waits as if it had been held throughout.
pub proof fn law_a_bounce_is_one_press(p: Phase, up_us: u64, down_us: u64)
    requires
        p matches Phase::Waiting { lifted_us: None, .. },
    ensures
        edge(edge(p, false, up_us), true, down_us) == edge(p, true, down_us),
        edge(p, true, down_us) == p,
{
}

/// Switching the window off drops every debt: nothing is pending or owed, and a
/// button that is let go after switching on again goes up at once.
pub proof fn law_switching_off_clears_every_debt(raw: u16, t: Tick, b: int)
    requires
        t.now_us <= MAX_TIME_US,
        0 <= b < 16,
        !held(t, b),
    ensures
        line_wf(passed(raw)),
        deadline(passed(raw), t.window_us) is None,
        tick(passed(raw), t).phases[b] is Up,
{
    lemma_no_leaving_no_deadline(passed(raw), t.window_us, 16);
}

proof fn lemma_no_leaving_no_deadline(l: Line, window_us: u32, n: int)
    requires
        0 <= n <= 16,
        l.opened is None,
        forall|b: int| 0 <= b < 16 ==> !(#[trigger] l.phases[b] is Leaving),
    ensures
        deadline_below(l, window_us, n) is None,
    decreases n,
{
    if n > 0 {
        lemma_no_leaving_no_deadline(l, window_us, n - 1);
        assert(!(l.phases[n - 1] is Leaving));
    }
}

proof fn lemma_deadline_below(l: Line, window_us: u32, n: int)
    requires
        line_wf(l),
        0 <= n <= 16,
    ensures
        deadline_below(l, window_us, n) is None <==> (l.opened is None && forall|b: int|
            0 <= b < n ==> !(#[trigger] l.phases[b] is Leaving)),
        deadline_below(l, window_us, n) matches Some(d) ==> {
            &&& l.opened matches Some(s) ==> d <= s + window_us
            &&& forall|b: int|
                0 <= b < n && l.phases[b] is Leaving ==> d <= (
                #[trigger] l.phases[b])->Leaving_until_us
            &&& (l.opened matches Some(s) && d == s + window_us) || exists|b: int|
                0 <= b < n && (#[trigger] l.phases[b]) is Leaving
                    && l.phases[b]->Leaving_until_us == d
        },
    decreases n,
{
    if n > 0 {
        lemma_deadline_below(l, window_us, n - 1);
        let rest = deadline_below(l, window_us, n - 1);
        let p = l.phases[n - 1];
        if p is Leaving {
            assert(0 <= n - 1 < n && l.phases[n - 1] is Leaving);
            if let Some(d) = rest {
                if d <= p->Leaving_until_us {
                    if !(l.opened matches Some(s) && d == s + window_us) {
                        let b = choose|b: int|
                            0 <= b < n - 1 && (#[trigger] l.phases[b]) is Leaving
                                && l.phases[b]->Leaving_until_us == d;
                        assert(0 <= b < n && l.phases[b] is Leaving);
                    }
                }
            }
        } else if let Some(d) = rest {
            if !(l.opened matches Some(s) && d == s + window_us) {
                let b = choose|b: int|
                    0 <= b < n - 1 && (#[trigger] l.phases[b]) is Leaving
                        && l.phases[b]->Leaving_until_us == d;
                assert(0 <= b < n && l.phases[b] is Leaving);
            }
        }
    }
}

/// The deadline is the earliest of what is outstanding: the open window's expiry
/// and every release. There is none exactly when nothing waits and nothing is owed.
pub proof fn law_deadline_covers_everything_outstanding(l: Line, window_us: u32)
    requires
        line_wf(l),
    ensures
        deadline(l, window_us) is None <==> forall|b: int|
            0 <= b < 16 ==> !(#[trigger] l.phases[b] is Leaving || l.phases[b] is Waiting),
        deadline(l, window_us) matches Some(d) ==> {
            &&& l.opened matches Some(s) ==> d <= s + window_us
            &&& forall|b: int|
                0 <= b < 16 && l.phases[b] is Leaving ==> d <= (
                #[trigger] l.phases[b])->Leaving_until_us
            &&& (l.opened matches Some(s) && d == s + window_us) || exists|b: int|
                0 <= b < 16 && (#[trigger] l.phases[b]) is Leaving
                    && l.phases[b]->Leaving_until_us == d
        },
{
    lemma_deadline_below(l, window_us, 16);
    if deadline(l, window_us) is None {
        assert forall|b: int| 0 <= b < 16 implies !(#[trigger] l.phases[b] is Leaving
            || l.phases[b] is Waiting) by {}
    } else if forall|b: int|
        0 <= b < 16 ==> !(#[trigger] l.phases[b] is Leaving || l.phases[b] is Waiting) {
        assert(l.opened is None);
        assert forall|b: int| 0 <= b < 16 implies !(#[trigger] l.phases[b] is Leaving) by {}
    }
}

/// After any call the next deadline lies ahead, so that an event-driven caller
/// never spins on one that has passed.
pub proof fn law_deadline_lies_ahead(l: Line, t: Tick)
    requires
        line_wf(l),
        t.now_us <= MAX_TIME_US,
    ensures
        deadline(tick(l, t), t.window_us) matches Some(d) ==> d > t.now_us,
{
    lemma_tick_wf(l, t);
    let n = tick(l, t);
    lemma_deadline_below(n, t.window_us, 16);
    if let Some(d) = deadline(n, t.window_us) {
        if n.opened matches Some(s) && d == s + t.window_us {
            assert(!closes(l, t));
        } else {
            let b = choose|b: int|
                0 <= b < 16 && (#[trigger] n.phases[b]) is Leaving && n.phases[b]->Leaving_until_us
                    == d;
            assert(n.phases[b] == advance(l, t, b));
        }
    }
}

/// Between deadlines nothing happens by itself: a call with an unchanged reading
/// before the deadline changes nothing, so that a caller that wakes on edges and
/// deadlines sees what a polling one does.
pub proof fn law_nothing_happens_before_the_deadline(l: Line, t: Tick, later: u64)
    requires
        line_wf(l),
        t.now_us <= MAX_TIME_US,
        later <= MAX_TIME_US,
        deadline(tick(l, t), t.window_us) matches Some(d) ==> later < d,
    ensures
        tick(tick(l, t), Tick { now_us: later, ..t }) == tick(l, t),
{
    let n = tick(l, t);
    let u = Tick { now_us: later, ..t };
    lemma_tick_wf(l, t);
    lemma_deadline_below(n, t.window_us, 16);
    assert forall|b: int| 0 <= b < 16 implies read(n, u, b) == #[trigger] n.phases[b] by {
        assert(n.phases[b] == advance(l, t, b));
        assert(held(u, b) == held(t, b));
    }
    assert(!presses(n, u)) by {
        if presses(n, u) {
            let b = choose|b: int| 0 <= b < 16 && #[trigger] n.phases[b] is Up && held(u, b);
            assert(read(n, u, b) == n.phases[b]);
        }
    }
    assert(open_during(n, u) == n.opened);
    assert(!closes(n, u)) by {
        if n.opened is Some {
            assert(!closes(l, t));
            if grouped(n, u) {
                let (a, b) = choose|a: int, b: int|
                    0 <= a < b < 16 && #[trigger] chord_bit(n, u, a) && #[trigger] chord_bit(
                        n,
                        u,
                        b,
                    );
                assert(read(n, u, a) == n.phases[a] && read(n, u, b) == n.phases[b]);
                assert(n.phases[a] == advance(l, t, a) && n.phases[b] == advance(l, t, b));
                assert(chord_bit(l, t, a) && chord_bit(l, t, b));
                assert(grouped(l, t));
            }
        }
    }
    assert(tick(n, u).phases =~= n.phases) by {
        assert forall|b: int| 0 <= b < 16 implies tick(n, u).phases[b] == #[trigger] n.phases[b] by {
            assert(read(n, u, b) == n.phases[b]);
            if n.phases[b] is Leaving {
                assert(deadline(n, t.window_us) is Some);
            }
        }
    }
}

/// An attack that has been held since before is no partner: another one pressed now, with
/// nothing else held, opens a window and waits, while the held one stays reported.
pub proof fn law_an_old_hold_is_no_partner(l: Line, t: Tick, a: int, b: int, out: u16)
    requires
        line_wf(l),
        t.now_us <= MAX_TIME_US,
        0 <= a < 16 && 0 <= b < 16 && a != b,
        l.opened is None,
        l.phases[a] matches Phase::Down { resumed, .. } && !resumed,
        forall|c: int| 0 <= c < 16 && c != a ==> #[trigger] l.phases[c] is Up,
        held(t, a) && held(t, b),
        forall|c: int| 0 <= c < 16 && c != a && c != b ==> !#[trigger] held(t, c),
        t.window_us > 0,
        shows(tick(l, t), t.raw, t.synced, out),
    ensures
        bit(out, a),
        !bit(out, b),
        tick(l, t).opened == Some(t.now_us),
{
    assert(l.phases[b] is Up && held(t, b));
    assert forall|c: int| 0 <= c < 16 && c != b implies !#[trigger] chord_bit(l, t, c) by {
        if c != a {
            assert(!held(t, c));
        }
    }
    assert(!grouped(l, t));
}

/// A press out of a release is a partner: an attack that is let go and, before its release has
/// come out, pressed again makes a chord with one that is pressed then, which the game sees at
/// once.
pub proof fn law_a_press_out_of_a_release_is_a_partner(
    l: Line,
    t: Tick,
    u: Tick,
    a: int,
    b: int,
    out: u16,
)
    requires
        line_wf(l),
        t.now_us <= MAX_TIME_US && u.now_us <= MAX_TIME_US,
        0 <= a < 16 && 0 <= b < 16 && a != b,
        l.opened is None,
        l.phases[a] is Leaving,
        forall|c: int| 0 <= c < 16 && c != a ==> #[trigger] l.phases[c] is Up,
        held(t, a),
        forall|c: int| 0 <= c < 16 && c != a ==> !#[trigger] held(t, c),
        held(u, a) && held(u, b),
        bit(u.attack, a) && bit(u.attack, b),
        shows(tick(tick(l, t), u), u.raw, u.synced, out),
    ensures
        visible(tick(l, t).phases[a]),
        bit(out, a) && bit(out, b),
        tick(tick(l, t), u).opened is None,
{
    assert(!presses(l, t)) by {
        if presses(l, t) {
            let c = choose|c: int| 0 <= c < 16 && #[trigger] l.phases[c] is Up && held(t, c);
            assert(c != a);
        }
    }
    assert(!closes(l, t));
    let m = tick(l, t);
    lemma_tick_wf(l, t);
    assert(m.phases[a] matches Phase::Down { resumed, .. } && resumed);
    assert(!held(t, b));
    assert(m.phases[b] is Up);
    assert(chord_bit(m, u, a) && chord_bit(m, u, b));
    if a < b {
        assert(chord_bit(m, u, a) && chord_bit(m, u, b));
        law_a_chord_is_delivered_at_once(m, u, a, b);
    } else {
        law_a_chord_is_delivered_at_once(m, u, b, a);
    }
    assert(grouped(m, u));
    assert(m.phases[b] is Up && held(u, b));
    assert(presses(m, u));
}

} // verus!
