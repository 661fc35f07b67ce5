//! What the sync window promises of whole histories: from the call at which a button is
//! pressed to the call at which it leaves, and from a reset on.

use crate::bits::bit;
use crate::sync_laws::{law_switching_off_clears_every_debt, ordered, run};
use crate::sync_window::{
    chord_bit, closes, deadline, expiry, grouped, held, largest_delay, lemma_tick_wf, lemma_word_shows, line_wf,
    new_line, passed, presses, read, reported, reset_line, step, tick, visible, Line, Phase, Tick,
    MAX_TIME_US,
};
use vstd::prelude::*;

verus! {

// ---- from a press to its release -------------------------------------------------

/// Calls with the window on, under fixed masks and a fixed window, on a clock that moves
/// forward.
pub open spec fn steady(ts: Seq<Tick>, attack: u16, synced: u16, window_us: u32) -> bool {
    &&& forall|i: int|
        0 <= i < ts.len() ==> (#[trigger] ts[i]).attack == attack && ts[i].synced == synced
            && ts[i].window_us == window_us && ts[i].now_us <= MAX_TIME_US
    &&& forall|i: int, j: int|
        0 <= i < j < ts.len() ==> (#[trigger] ts[i]).now_us < (#[trigger] ts[j]).now_us
}

/// The line before call `i`, for a line that began with the buttons of `held0` down: a new
/// line where that is none of them, else one that was just switched on.
pub open spec fn before(held0: u16, ts: Seq<Tick>, i: int) -> Line {
    run(passed(held0), ts.take(i))
}

/// The word that call `i` reports.
pub open spec fn output(held0: u16, ts: Seq<Tick>, i: int) -> u16 {
    reported(before(held0, ts, i), ts[i], true)
}

/// The button is neither in the output nor held back before call `i`.
pub open spec fn idle_before(held0: u16, ts: Seq<Tick>, i: int, b: int) -> bool {
    before(held0, ts, i).phases[b] is Up
}

/// The button is held back during call `i`.
pub open spec fn held_back(held0: u16, ts: Seq<Tick>, i: int, b: int) -> bool {
    read(before(held0, ts, i), ts[i], b) is Waiting
}

proof fn lemma_next(held0: u16, ts: Seq<Tick>, i: int)
    requires
        0 <= i < ts.len(),
    ensures
        before(held0, ts, i + 1) == tick(before(held0, ts, i), ts[i]),
{
    assert(ts.take(i + 1).drop_last() =~= ts.take(i));
    assert(ts.take(i + 1).last() == ts[i]);
}

/// A call shows a synced button exactly where the line does.
proof fn lemma_shown(held0: u16, ts: Seq<Tick>, i: int, b: int)
    requires
        0 <= i < ts.len(),
        0 <= b < 16,
        bit(ts[i].synced, b),
    ensures
        bit(output(held0, ts, i), b) == visible(before(held0, ts, i + 1).phases[b]),
{
    lemma_next(held0, ts, i);
    lemma_word_shows(before(held0, ts, i + 1), ts[i].raw, ts[i].synced);
}

/// The line before a call is in order, and holds no instant of a later call.
proof fn lemma_steady(held0: u16, ts: Seq<Tick>, attack: u16, synced: u16, window_us: u32, i: int)
    requires
        steady(ts, attack, synced, window_us),
        0 <= i <= ts.len(),
    ensures
        line_wf(before(held0, ts, i)),
        i == 0 ==> before(held0, ts, i).opened is None,
        i > 0 ==> ordered(before(held0, ts, i), ts[i - 1].now_us),
        i > 0 ==> (before(held0, ts, i).opened matches Some(s) ==> s <= ts[i - 1].now_us),
    decreases i,
{
    if i == 0 {
        assert(ts.take(0) =~= Seq::empty());
        assert(before(held0, ts, 0) == passed(held0));
        assert forall|b: int| 0 <= b < 16 implies !(#[trigger] passed(held0).phases[b] is Waiting) by {}
    } else {
        lemma_steady(held0, ts, attack, synced, window_us, i - 1);
        lemma_next(held0, ts, i - 1);
        let p = before(held0, ts, i - 1);
        let t = ts[i - 1];
        lemma_tick_wf(p, t);
        if i - 1 > 0 {
            assert(ts[i - 2].now_us < ts[i - 1].now_us);
        }
        assert forall|b: int| 0 <= b < 16 implies match #[trigger] tick(p, t).phases[b] {
            Phase::Waiting { press_us, lifted_us } => {
                &&& tick(p, t).opened is Some
                &&& tick(p, t).opened->0 <= press_us <= t.now_us
                &&& lifted_us matches Some(lift) ==> press_us < lift <= t.now_us
            },
            _ => true,
        } by {
            if tick(p, t).phases[b] is Waiting {
                assert(!closes(p, t));
                if p.phases[b] is Up {
                    assert(held(t, b));
                    assert(presses(p, t));
                } else {
                    assert(p.phases[b] is Waiting);
                    assert(p.opened is Some);
                }
            }
        }
    }
}

/// A button that has been pressed at call `p` and is shown by none of the calls up to `i`
/// still waits: it was pressed then, and let go at `lift` if at all.
proof fn lemma_waits(
    held0: u16,
    ts: Seq<Tick>,
    attack: u16,
    synced: u16,
    window_us: u32,
    b: int,
    p: int,
    i: int,
)
    requires
        steady(ts, attack, synced, window_us),
        0 <= b < 16,
        bit(synced, b),
        0 <= p <= i < ts.len(),
        idle_before(held0, ts, p, b),
        bit(ts[p].raw, b),
        forall|k: int| p <= k <= i ==> !bit(#[trigger] output(held0, ts, k), b),
    ensures
        before(held0, ts, i + 1).phases[b] matches Phase::Waiting { press_us, .. } && press_us
            == ts[p].now_us,
    decreases i,
{
    lemma_steady(held0, ts, attack, synced, window_us, i);
    lemma_next(held0, ts, i);
    lemma_shown(held0, ts, i, b);
    assert(!bit(output(held0, ts, i), b));
    if i > p {
        lemma_waits(held0, ts, attack, synced, window_us, b, p, i - 1);
        assert(ts[i - 1].now_us < ts[i].now_us);
    }
}

/// A press waits at most the window, and is never deleted. A button that is pressed at call
/// `p`, and was neither in the output nor held back before it, is in the output of some
/// call no later than `n`, for every call `n` that comes a window or more after `p`,
/// whatever the readings are in between.
pub proof fn law_a_press_is_seen_within_the_window(
    held0: u16,
    ts: Seq<Tick>,
    attack: u16,
    synced: u16,
    window_us: u32,
    b: int,
    p: int,
    n: int,
)
    requires
        steady(ts, attack, synced, window_us),
        0 <= b < 16,
        bit(synced, b),
        0 <= p <= n < ts.len(),
        idle_before(held0, ts, p, b),
        bit(ts[p].raw, b),
        ts[n].now_us >= ts[p].now_us + window_us,
    ensures
        exists|c: int| p <= c <= n && bit(#[trigger] output(held0, ts, c), b),
{
    if forall|c: int| p <= c <= n ==> !bit(#[trigger] output(held0, ts, c), b) {
        lemma_waits(held0, ts, attack, synced, window_us, b, p, n);
        lemma_steady(held0, ts, attack, synced, window_us, n);
        lemma_next(held0, ts, n);
        let l = before(held0, ts, n);
        assert(tick(l, ts[n]).phases[b] is Waiting);
        assert(!closes(l, ts[n]));
        if n > p {
            lemma_waits(held0, ts, attack, synced, window_us, b, p, n - 1);
            assert(l.phases[b] is Waiting);
            assert(l.opened is Some && l.opened->0 <= ts[p].now_us);
        } else {
            assert(presses(l, ts[n]));
            if l.opened is None {
                assert(window_us == 0);
            }
        }
    }
}

/// A chord is delivered at once: at a call during which two attacks are held back and
/// down, both are in the output.
pub proof fn law_held_back_chords_are_seen_at_once(
    held0: u16,
    ts: Seq<Tick>,
    attack: u16,
    synced: u16,
    window_us: u32,
    a: int,
    b: int,
    i: int,
)
    requires
        steady(ts, attack, synced, window_us),
        0 <= i < ts.len(),
        0 <= a < 16,
        0 <= b < 16,
        a != b,
        bit(attack, a) && bit(synced, a) && bit(ts[i].raw, a),
        bit(attack, b) && bit(synced, b) && bit(ts[i].raw, b),
        held_back(held0, ts, i, a),
        held_back(held0, ts, i, b),
    ensures
        bit(output(held0, ts, i), a),
        bit(output(held0, ts, i), b),
{
    let l = before(held0, ts, i);
    let t = ts[i];
    lemma_steady(held0, ts, attack, synced, window_us, i);
    lemma_next(held0, ts, i);
    lemma_shown(held0, ts, i, a);
    lemma_shown(held0, ts, i, b);
    assert(chord_bit(l, t, a) && chord_bit(l, t, b));
    if a < b {
        assert(grouped(l, t));
    } else {
        assert(grouped(l, t));
    }
    if l.opened is None {
        assert(!(l.phases[a] is Waiting));
        assert(presses(l, t));
    }
    assert(closes(l, t));
}

/// When a button leaves the output that was pressed at call `p`, let go at call `r` and
/// first shown by call `c`: a tap that was let go before it was shown keeps its length from
/// there; one that was still down owes its release what its press waited, a window at most.
pub open spec fn leaves_at(ts: Seq<Tick>, window_us: u32, p: int, r: int, c: int) -> int {
    let press = ts[p].now_us as int;
    let lift = ts[r].now_us as int;
    let shown = ts[c].now_us as int;
    if r <= c {
        shown + (lift - press)
    } else if shown - press <= window_us {
        lift + (shown - press)
    } else {
        lift + window_us
    }
}

/// Where the button stands after call `i`, once it was pressed at call `p`, let go at call
/// `r` and first shown by call `c`.
spec fn pulse(ts: Seq<Tick>, window_us: u32, p: int, r: int, c: int, i: int, ph: Phase) -> bool {
    let press = ts[p].now_us;
    let lift = ts[r].now_us;
    let end = leaves_at(ts, window_us, p, r, c);
    if i < c {
        ph == (Phase::Waiting {
            press_us: press,
            lifted_us: if i < r {
                None
            } else {
                Some(lift)
            },
        })
    } else if i < r {
        ph matches Phase::Down { owes_us, .. } && owes_us == end - lift
    } else if ts[i].now_us < end {
        ph matches Phase::Leaving { until_us, .. } && until_us == end
    } else {
        ph is Up
    }
}

proof fn lemma_pulse(
    held0: u16,
    ts: Seq<Tick>,
    attack: u16,
    synced: u16,
    window_us: u32,
    b: int,
    p: int,
    r: int,
    c: int,
    i: int,
)
    requires
        steady(ts, attack, synced, window_us),
        0 <= b < 16,
        bit(synced, b),
        0 <= p < r < ts.len(),
        p <= c < ts.len(),
        p <= i < ts.len(),
        idle_before(held0, ts, p, b),
        forall|k: int| p <= k < r ==> bit((#[trigger] ts[k]).raw, b),
        forall|k: int| r <= k < ts.len() ==> !bit((#[trigger] ts[k]).raw, b),
        forall|k: int| p <= k < c ==> !bit(#[trigger] output(held0, ts, k), b),
        bit(output(held0, ts, c), b),
    ensures
        pulse(ts, window_us, p, r, c, i, before(held0, ts, i + 1).phases[b]),
    decreases i,
{
    lemma_steady(held0, ts, attack, synced, window_us, i);
    lemma_next(held0, ts, i);
    lemma_shown(held0, ts, i, b);
    let l = before(held0, ts, i);
    assert(ts[p].now_us < ts[r].now_us);
    if p < c {
        assert(ts[p].now_us < ts[c].now_us);
    }
    if i < r {
        assert(bit(ts[i].raw, b));
        assert(ts[i].now_us < ts[r].now_us);
    } else {
        assert(!bit(ts[i].raw, b));
        if r < i {
            assert(ts[r].now_us < ts[i].now_us);
        }
    }
    if i < c {
        assert(!bit(output(held0, ts, i), b));
        assert(ts[i].now_us < ts[c].now_us);
    } else if c < i {
        assert(ts[c].now_us < ts[i].now_us);
    }
    if r < c {
        assert(ts[r].now_us < ts[c].now_us);
    }
    if i > p {
        lemma_pulse(held0, ts, attack, synced, window_us, b, p, r, c, i - 1);
        assert(ts[i - 1].now_us < ts[i].now_us);
    }
}

/// A release is held back exactly as long as its press was, and never longer than a
/// window: a button that call `c` shows first and that is let go only later, at call `r`,
/// is in the output of every call before `r` plus the smaller of the window and the time
/// from the press to `c`, and of none from there on. It makes no difference whether `c`
/// falls within the window or after its end.
pub proof fn law_a_release_is_held_back_like_its_press(
    held0: u16,
    ts: Seq<Tick>,
    attack: u16,
    synced: u16,
    window_us: u32,
    b: int,
    p: int,
    r: int,
    c: int,
    i: int,
)
    requires
        steady(ts, attack, synced, window_us),
        0 <= b < 16,
        bit(synced, b),
        0 <= p <= c < r < ts.len(),
        c <= i < ts.len(),
        idle_before(held0, ts, p, b),
        forall|k: int| p <= k < r ==> bit((#[trigger] ts[k]).raw, b),
        forall|k: int| r <= k < ts.len() ==> !bit((#[trigger] ts[k]).raw, b),
        forall|k: int| p <= k < c ==> !bit(#[trigger] output(held0, ts, k), b),
        bit(output(held0, ts, c), b),
    ensures
        ts[c].now_us - ts[p].now_us <= window_us ==> (bit(output(held0, ts, i), b)
            <==> ts[i].now_us - ts[r].now_us < ts[c].now_us - ts[p].now_us),
        ts[c].now_us - ts[p].now_us > window_us ==> (bit(output(held0, ts, i), b)
            <==> ts[i].now_us - ts[r].now_us < window_us),
{
    lemma_pulse(held0, ts, attack, synced, window_us, b, p, r, c, i);
    lemma_shown(held0, ts, i, b);
    if i < r {
        assert(ts[i].now_us < ts[r].now_us);
    }
    if p < c {
        assert(ts[p].now_us < ts[c].now_us);
    }
}

/// Pulse width is preserved, from the press on. A button that was neither in the output nor
/// held back is down exactly at the calls from `p` up to and without `r`, and call `c` is
/// the first that shows it, no later than a window after `p` or only after it was let go.
/// Then it is in the output of every call from `c` on for as long as it was held, and of
/// none after that.
pub proof fn law_a_pulse_keeps_its_width(
    held0: u16,
    ts: Seq<Tick>,
    attack: u16,
    synced: u16,
    window_us: u32,
    b: int,
    p: int,
    r: int,
    c: int,
    i: int,
)
    requires
        steady(ts, attack, synced, window_us),
        0 <= b < 16,
        bit(synced, b),
        0 <= p < r < ts.len(),
        p <= c < ts.len(),
        c <= i < ts.len(),
        idle_before(held0, ts, p, b),
        forall|k: int| p <= k < r ==> bit((#[trigger] ts[k]).raw, b),
        forall|k: int| r <= k < ts.len() ==> !bit((#[trigger] ts[k]).raw, b),
        forall|k: int| p <= k < c ==> !bit(#[trigger] output(held0, ts, k), b),
        bit(output(held0, ts, c), b),
        ts[c].now_us <= ts[p].now_us + window_us || r <= c,
    ensures
        bit(output(held0, ts, i), b) <==> ts[i].now_us < ts[c].now_us + (ts[r].now_us
            - ts[p].now_us),
{
    lemma_pulse(held0, ts, attack, synced, window_us, b, p, r, c, i);
    lemma_shown(held0, ts, i, b);
    assert(ts[p].now_us < ts[r].now_us);
    if i < r {
        assert(ts[i].now_us < ts[r].now_us);
    }
    if p < c {
        assert(ts[p].now_us < ts[c].now_us);
    }
}

// ---- what is held back, and for how long -----------------------------------------

/// No two attacks are down and synced at once.
pub open spec fn lone(t: Tick) -> bool {
    forall|x: int, y: int|
        0 <= x < y < 16 ==> !(#[trigger] bit(t.raw & t.attack & t.synced, x) && #[trigger] bit(
            t.raw & t.attack & t.synced,
            y,
        ))
}

/// Nothing is down, held back or owed before call `i`.
pub open spec fn quiet_before(held0: u16, ts: Seq<Tick>, i: int) -> bool {
    forall|b: int| 0 <= b < 16 ==> #[trigger] before(held0, ts, i).phases[b] is Up
}

/// While no chord forms, the line keeps back all that is pressed from a quiet start on,
/// until a window has passed.
proof fn lemma_kept_back(
    held0: u16,
    ts: Seq<Tick>,
    attack: u16,
    synced: u16,
    window_us: u32,
    p: int,
    i: int,
)
    requires
        steady(ts, attack, synced, window_us),
        0 <= p <= i <= ts.len(),
        quiet_before(held0, ts, p),
        forall|k: int| p <= k < i ==> lone(#[trigger] ts[k]),
        i > p ==> ts[i - 1].now_us < ts[p].now_us + window_us,
    ensures
        forall|b: int|
            0 <= b < 16 ==> (#[trigger] before(held0, ts, i).phases[b] is Up) || before(
                held0,
                ts,
                i,
            ).phases[b] is Waiting,
        before(held0, ts, i).opened matches Some(s) ==> ts[p].now_us <= s,
    decreases i,
{
    lemma_steady(held0, ts, attack, synced, window_us, i);
    if i == p {
        assert(before(held0, ts, i).opened is None) by {
            if before(held0, ts, i).opened is Some {
                let b = choose|b: int|
                    0 <= b < 16 && #[trigger] before(held0, ts, i).phases[b] is Waiting;
                assert(before(held0, ts, i).phases[b] is Up);
            }
        }
    } else {
        if i - 1 > p {
            assert(ts[i - 2].now_us < ts[i - 1].now_us);
        }
        lemma_kept_back(held0, ts, attack, synced, window_us, p, i - 1);
        lemma_steady(held0, ts, attack, synced, window_us, i - 1);
        lemma_next(held0, ts, i - 1);
        let l = before(held0, ts, i - 1);
        let t = ts[i - 1];
        if i - 1 > p {
            assert(ts[p].now_us < ts[i - 1].now_us);
        }
        assert(!grouped(l, t)) by {
            if grouped(l, t) {
                broadcast use crate::bits::group_bit;

                let (x, y) = choose|x: int, y: int|
                    0 <= x < y < 16 && #[trigger] chord_bit(l, t, x) && #[trigger] chord_bit(
                        l,
                        t,
                        y,
                    );
                assert(lone(t));
                assert(bit(t.raw & t.attack & t.synced, x));
                assert(bit(t.raw & t.attack & t.synced, y));
            }
        }
        assert(!closes(l, t));
        assert forall|b: int| 0 <= b < 16 implies (#[trigger] before(held0, ts, i).phases[b] is Up)
            || before(held0, ts, i).phases[b] is Waiting by {
            assert(l.phases[b] is Up || l.phases[b] is Waiting);
        }
    }
}

/// A lone attack is held back for the whole window: from a quiet line on, while no two
/// attacks are down at once, no synced button is in the output of a call that comes less
/// than a window after the first.
pub proof fn law_a_lone_press_waits_out_the_window(
    held0: u16,
    ts: Seq<Tick>,
    attack: u16,
    synced: u16,
    window_us: u32,
    b: int,
    p: int,
    i: int,
)
    requires
        steady(ts, attack, synced, window_us),
        0 <= b < 16,
        bit(synced, b),
        0 <= p <= i < ts.len(),
        quiet_before(held0, ts, p),
        forall|k: int| p <= k <= i ==> lone(#[trigger] ts[k]),
        ts[i].now_us < ts[p].now_us + window_us,
    ensures
        !bit(output(held0, ts, i), b),
{
    lemma_kept_back(held0, ts, attack, synced, window_us, p, i + 1);
    lemma_shown(held0, ts, i, b);
    assert(before(held0, ts, i + 1).phases[b] is Up || before(held0, ts, i + 1).phases[b] is Waiting);
}

/// Two attacks pressed within the window reach the game together: the first, pressed at call
/// `p` on a quiet line and still down at call `q`, less than a window later, at which the
/// second goes down, is in no output before `q`, and both are in that of `q`.
pub proof fn law_two_presses_land_together(
    held0: u16,
    ts: Seq<Tick>,
    attack: u16,
    synced: u16,
    window_us: u32,
    a: int,
    b: int,
    p: int,
    q: int,
)
    requires
        steady(ts, attack, synced, window_us),
        0 <= a < 16,
        0 <= b < 16,
        a != b,
        bit(attack, a) && bit(synced, a),
        bit(attack, b) && bit(synced, b),
        0 <= p <= q < ts.len(),
        quiet_before(held0, ts, p),
        forall|k: int| p <= k < q ==> lone(#[trigger] ts[k]),
        forall|k: int| p <= k <= q ==> bit((#[trigger] ts[k]).raw, a),
        bit(ts[q].raw, b),
        ts[q].now_us < ts[p].now_us + window_us,
    ensures
        forall|k: int| p <= k < q ==> !bit(#[trigger] output(held0, ts, k), a),
        bit(output(held0, ts, q), a),
        bit(output(held0, ts, q), b),
{
    assert forall|k: int| p <= k < q implies !bit(#[trigger] output(held0, ts, k), a) by {
        assert(ts[k].now_us < ts[q].now_us);
        law_a_lone_press_waits_out_the_window(held0, ts, attack, synced, window_us, a, p, k);
    }
    if q > p {
        assert(ts[q - 1].now_us < ts[q].now_us);
    }
    lemma_kept_back(held0, ts, attack, synced, window_us, p, q);
    let l = before(held0, ts, q);
    assert(l.phases[a] is Up || l.phases[a] is Waiting);
    assert(l.phases[b] is Up || l.phases[b] is Waiting);
    law_held_back_chords_are_seen_at_once(held0, ts, attack, synced, window_us, a, b, q);
}

/// What is shown and still down stays: a synced button that a call shows and that is down at
/// the next call is shown by it too, whatever else happens and whatever it owes.
pub proof fn law_what_is_held_stays_shown(
    held0: u16,
    ts: Seq<Tick>,
    attack: u16,
    synced: u16,
    window_us: u32,
    b: int,
    i: int,
)
    requires
        steady(ts, attack, synced, window_us),
        0 <= b < 16,
        bit(synced, b),
        0 < i < ts.len(),
        bit(output(held0, ts, i - 1), b),
        bit(ts[i].raw, b),
    ensures
        bit(output(held0, ts, i), b),
{
    lemma_next(held0, ts, i);
    lemma_shown(held0, ts, i, b);
    lemma_shown(held0, ts, i - 1, b);
}

/// The delay that is told of a commit is the longest that any of its presses waited, a
/// window at most: none of them waited longer, and one waited just that long.
pub proof fn law_the_delay_told_is_the_longest(l: Line, t: Tick)
    requires
        line_wf(l),
        closes(l, t),
        ordered(l, t.now_us),
    ensures
        forall|b: int|
            0 <= b < 16 ==> (#[trigger] read(l, t, b) matches Phase::Waiting { press_us, .. }
                ==> t.now_us - press_us <= tick(l, t).last_delay || tick(l, t).last_delay
                == t.window_us),
        tick(l, t).last_delay <= t.window_us,
        tick(l, t).last_delay > 0 ==> exists|b: int|
            0 <= b < 16 && (#[trigger] read(l, t, b) matches Phase::Waiting { press_us, .. }
                && t.now_us - press_us >= tick(l, t).last_delay),
{
    lemma_longest(l, t, 16);
}

proof fn lemma_longest(l: Line, t: Tick, n: int)
    requires
        0 <= n <= 16,
        line_wf(l),
        ordered(l, t.now_us),
    ensures
        forall|b: int|
            0 <= b < n ==> (#[trigger] read(l, t, b) matches Phase::Waiting { press_us, .. }
                ==> t.now_us - press_us <= largest_delay(l, t, n) || largest_delay(l, t, n)
                == t.window_us),
        largest_delay(l, t, n) <= t.window_us,
        largest_delay(l, t, n) > 0 ==> exists|b: int|
            0 <= b < n && (#[trigger] read(l, t, b) matches Phase::Waiting { press_us, .. }
                && t.now_us - press_us >= largest_delay(l, t, n)),
    decreases n,
{
    if n > 0 {
        lemma_longest(l, t, n - 1);
        let rest = largest_delay(l, t, n - 1);
        assert(l.phases[n - 1] is Waiting ==> l.phases[n - 1]->Waiting_press_us <= t.now_us);
        if largest_delay(l, t, n) > 0 {
            if largest_delay(l, t, n) == rest {
                let b = choose|b: int|
                    0 <= b < n - 1 && (#[trigger] read(l, t, b) matches Phase::Waiting {
                        press_us,
                        ..
                    } && t.now_us - press_us >= rest);
                assert(0 <= b < n);
                assert(read(l, t, b) is Waiting);
            } else {
                assert(read(l, t, n - 1) is Waiting);
            }
        }
    }
}

/// The window that is open ends one window after it opened; with the line switched off the
/// raw word passes as it is, whatever was held back.
pub proof fn law_the_window_ends_when_its_time_is_up(l: Line, t: Tick)
    requires
        line_wf(l),
    ensures
        expiry(l, t.window_us) is Some <==> l.opened is Some,
        l.opened matches Some(s) ==> expiry(l, t.window_us) == Some((s + t.window_us) as u64) && s
            + t.window_us <= u64::MAX,
        reported(l, t, false) == t.raw,
        step(l, t, false).opened is None,
        deadline(step(l, t, false), t.window_us) is None,
{
    broadcast use crate::bits::group_bit;

    let none = Tick { raw: 0, now_us: 0, ..t };
    law_switching_off_clears_every_debt(t.raw, none, 0);
}

// ---- from a reset on -------------------------------------------------------------

/// A call of any method of a line.
pub enum Call {
    Process(Tick, bool),
    PendingSince,
    PendingUntil(u32),
    NextDeadline(u32),
    LastCommitDelay,
    Reset,
}

/// What a call returns.
pub enum Reply {
    Word(u16),
    Instant(Option<u64>),
    Delay(u32),
    Nothing,
}

/// The line after a call.
pub open spec fn called(l: Line, c: Call) -> Line {
    match c {
        Call::Process(t, enabled) => step(l, t, enabled),
        Call::Reset => reset_line(l),
        _ => l,
    }
}

/// What a call returns.
pub open spec fn reply(l: Line, c: Call) -> Reply {
    match c {
        Call::Process(t, enabled) => Reply::Word(reported(l, t, enabled)),
        Call::PendingSince => Reply::Instant(l.opened),
        Call::PendingUntil(window_us) => Reply::Instant(expiry(l, window_us)),
        Call::NextDeadline(window_us) => Reply::Instant(deadline(l, window_us)),
        Call::LastCommitDelay => Reply::Delay(l.last_delay),
        Call::Reset => Reply::Nothing,
    }
}

/// The line after some calls.
pub open spec fn called_all(l: Line, cs: Seq<Call>) -> Line
    decreases cs.len(),
{
    if cs.len() == 0 {
        l
    } else {
        called(called_all(l, cs.drop_last()), cs.last())
    }
}

/// What call `i` of some calls returns.
pub open spec fn reply_of(l: Line, cs: Seq<Call>, i: int) -> Reply {
    reply(called_all(l, cs.take(i)), cs[i])
}

proof fn lemma_calls_join(l: Line, first: Seq<Call>, more: Seq<Call>)
    ensures
        called_all(l, first + more) == called_all(called_all(l, first), more),
    decreases more.len(),
{
    if more.len() == 0 {
        assert(first + more =~= first);
    } else {
        lemma_calls_join(l, first, more.drop_last());
        assert((first + more).drop_last() =~= first + more.drop_last());
    }
}

/// After a reset a line answers as a new one does: whatever was called on it before, every
/// later call returns what it returns in the same calls on a new line.
pub proof fn law_a_reset_line_answers_as_a_new_one(
    l: Line,
    history: Seq<Call>,
    later: Seq<Call>,
    i: int,
)
    requires
        0 <= i < later.len(),
    ensures
        reply_of(l, history.push(Call::Reset) + later, history.len() + 1 + i) == reply_of(
            new_line(),
            later,
            i,
        ),
        called_all(l, history.push(Call::Reset) + later) == called_all(new_line(), later),
{
    let head = history.push(Call::Reset);
    assert(head.drop_last() =~= history);
    assert(called_all(l, head) == new_line());
    lemma_calls_join(l, head, later);
    lemma_calls_join(l, head, later.take(i));
    assert((head + later).take(head.len() + i) =~= head + later.take(i));
    assert((head + later)[head.len() + i] == later[i]);
}

} // verus!
