//! The control socket's commands: one line in, one line out.

use crate::config::{
    bool_of, is_published, parse_bool, parse_window, window_of, with_setting, BadWindow, ConfigView,
};
use crate::engine::Stats;
use crate::state::SharedState;
use crate::text::{
    chars_of, decimal, extend, is_text, put, put_number, starts, starts_with, string_of, texts,
    words, words_of,
};
use vstd::prelude::*;

verus! {

/// The means of the counters, rounded for people by whoever holds the counters.
#[derive(Clone, Copy, Debug, PartialEq, Eq, Structural)]
pub struct Averages {
    pub gap_us: u64,
    pub hold_us: u64,
    pub pipeline_us: u64,
}

/// The reply to `get`.
pub open spec fn get_reply(s: SharedState) -> Seq<char> {
    "enabled="@ + decimal(s.enabled as nat) + " window_ms="@ + decimal(s.window_ms@[0] as nat)
}

/// The reply to `stats`.
pub open spec fn stats_reply(st: Stats, a: Averages) -> Seq<char> {
    "commits="@ + decimal(st.commits as nat) + " groups="@ + decimal(st.groups as nat)
        + " singles="@ + decimal(st.singles as nat) + " gap_avg_us="@ + decimal(a.gap_us as nat)
        + " gap_max_us="@ + decimal(st.gap_max_us as nat) + " hold_avg_us="@ + decimal(
        a.hold_us as nat,
    ) + " hold_max_us="@ + decimal(st.hold_max_us as nat) + " pipeline_avg_us="@ + decimal(
        a.pipeline_us as nat,
    ) + " pipeline_max_us="@ + decimal(st.pipeline_max_us as nat) + " events="@ + decimal(
        st.source_events as nat,
    )
}

/// What `set` makes of the window.
pub open spec fn set_window_reply(val: Seq<char>) -> Seq<char> {
    match window_of(val) {
        Ok(_) => "ok"@,
        Err(BadWindow::TooWide) => "error: window_ms must be 0..=16"@,
        Err(BadWindow::NotANumber) => "error: `"@ + val + "` is not a number"@,
    }
}

/// The reply to `set`.
pub open spec fn set_reply(key: Seq<char>, val: Seq<char>) -> Seq<char> {
    if key == "window_ms"@ || key == "window"@ {
        set_window_reply(val)
    } else if key == "enabled"@ {
        if bool_of(val) is Some {
            "ok"@
        } else {
            "error: `"@ + val + "` is not a boolean"@
        }
    } else {
        "error: unknown key `"@ + key + "` (live keys: window_ms, enabled)"@
    }
}

/// The reply to a command.
pub open spec fn reply_to(line: Seq<char>, s: SharedState, st: Stats, a: Averages) -> Seq<char> {
    let w = words_of(line);
    if w.len() == 0 {
        Seq::empty()
    } else if w[0] == "ping"@ {
        "pong"@
    } else if w[0] == "get"@ {
        get_reply(s)
    } else if w[0] == "set"@ {
        if w.len() < 3 {
            "error: usage: set <key> <value>"@
        } else {
            set_reply(w[1], w[2])
        }
    } else if w[0] == "stats"@ {
        stats_reply(st, a)
    } else {
        "error: unknown command `"@ + w[0] + "`"@
    }
}

/// `b` is `a` with the window of every player at `n` milliseconds.
pub open spec fn window_set(a: SharedState, b: SharedState, n: u32) -> bool {
    &&& b.window_ms@ == seq![n, n]
    &&& b == (SharedState { window_ms: b.window_ms, ..a })
}

/// What a command does to the state: only a good `set` changes it.
pub open spec fn commanded(line: Seq<char>, a: SharedState, b: SharedState) -> bool {
    let w = words_of(line);
    if w.len() >= 3 && w[0] == "set"@ {
        if w[1] == "window_ms"@ || w[1] == "window"@ {
            match window_of(w[2]) {
                Ok(n) => window_set(a, b, n),
                Err(_) => b == a,
            }
        } else if w[1] == "enabled"@ {
            match bool_of(w[2]) {
                Some(on) => b == (SharedState {
                    enabled: if on {
                        1
                    } else {
                        0
                    },
                    ..a
                }),
                None => b == a,
            }
        } else {
            b == a
        }
    } else {
        b == a
    }
}

fn told(text: &str) -> (r: String)
    ensures
        r@ == text@,
{
    string_of(&chars_of(text))
}

fn told_of(before: &str, w: &Vec<char>, after: &str) -> (r: String)
    ensures
        r@ == before@ + w@ + after@,
{
    let mut out: Vec<char> = chars_of(before);
    extend(&mut out, w);
    put(&mut out, after);
    string_of(&out)
}

/// The `stats` line.
pub fn stats_line(st: &Stats, a: Averages) -> (r: String)
    ensures
        r@ == stats_reply(*st, a),
{
    let mut out: Vec<char> = chars_of("commits=");
    put_number(&mut out, st.commits);
    put(&mut out, " groups=");
    put_number(&mut out, st.groups);
    put(&mut out, " singles=");
    put_number(&mut out, st.singles);
    put(&mut out, " gap_avg_us=");
    put_number(&mut out, a.gap_us);
    put(&mut out, " gap_max_us=");
    put_number(&mut out, st.gap_max_us);
    put(&mut out, " hold_avg_us=");
    put_number(&mut out, a.hold_us);
    put(&mut out, " hold_max_us=");
    put_number(&mut out, st.hold_max_us);
    put(&mut out, " pipeline_avg_us=");
    put_number(&mut out, a.pipeline_us);
    put(&mut out, " pipeline_max_us=");
    put_number(&mut out, st.pipeline_max_us);
    put(&mut out, " events=");
    put_number(&mut out, st.source_events);
    string_of(&out)
}

/// Set a live key.
fn set_key(s: &mut SharedState, key: &Vec<char>, val: &Vec<char>) -> (r: String)
    ensures
        r@ == set_reply(key@, val@),
        key@ == "window_ms"@ || key@ == "window"@ ==> match window_of(val@) {
            Ok(n) => window_set(*old(s), *final(s), n),
            Err(_) => *final(s) == *old(s),
        },
        !(key@ == "window_ms"@ || key@ == "window"@) && key@ == "enabled"@ ==> match bool_of(
            val@,
        ) {
            Some(on) => *final(s) == (SharedState {
                enabled: if on {
                    1
                } else {
                    0
                },
                ..*old(s)
            }),
            None => *final(s) == *old(s),
        },
        !(key@ == "window_ms"@ || key@ == "window"@) && key@ != "enabled"@ ==> *final(s) == *old(
            s,
        ),
{
    if is_text(key, "window_ms") || is_text(key, "window") {
        return match parse_window(string_of(val).as_str()) {
            Ok(n) => {
                s.window_ms = [n, n];
                assert(s.window_ms@ =~= seq![n, n]);
                told("ok")
            },
            Err(BadWindow::TooWide) => told("error: window_ms must be 0..=16"),
            Err(BadWindow::NotANumber) => told_of("error: `", val, "` is not a number"),
        };
    }
    if is_text(key, "enabled") {
        return match parse_bool(string_of(val).as_str()) {
            Some(on) => {
                s.enabled = if on {
                    1
                } else {
                    0
                };
                told("ok")
            },
            None => told_of("error: `", val, "` is not a boolean"),
        };
    }
    told_of("error: unknown key `", key, "` (live keys: window_ms, enabled)")
}

/// Carry out one command and reply to it.
pub fn dispatch(line: &str, s: &mut SharedState, st: &Stats, a: Averages) -> (r: String)
    ensures
        r@ == reply_to(line@, *old(s), *st, a),
        commanded(line@, *old(s), *final(s)),
{
    let w: Vec<Vec<char>> = words(&chars_of(line));
    let ghost ws = texts(w@);
    assert(ws == words_of(line@));
    if w.len() == 0 {
        return String::new();
    }
    assert(ws[0] == w@[0]@);
    if is_text(&w[0], "ping") {
        proof {
            reveal_strlit("ping");
            reveal_strlit("set");
        }
        return told("pong");
    }
    if is_text(&w[0], "get") {
        proof {
            reveal_strlit("get");
            reveal_strlit("set");
            assert("get"@[0] != "set"@[0]);
        }
        let mut out: Vec<char> = chars_of("enabled=");
        put_number(&mut out, s.enabled as u64);
        put(&mut out, " window_ms=");
        put_number(&mut out, s.window_ms[0] as u64);
        return string_of(&out);
    }
    if is_text(&w[0], "set") {
        if w.len() < 3 {
            return told("error: usage: set <key> <value>");
        }
        assert(ws[1] == w@[1]@ && ws[2] == w@[2]@);
        return set_key(s, &w[1], &w[2]);
    }
    if is_text(&w[0], "stats") {
        return stats_line(st, a);
    }
    told_of("error: unknown command `", &w[0], "`")
}

/// The words of a command line, joined by single spaces.
pub open spec fn joined_words(cmd: Seq<char>, args: Seq<String>, n: int) -> Seq<char>
    decreases n,
{
    if n <= 0 {
        cmd
    } else {
        joined_words(cmd, args, n - 1) + " "@ + args[n - 1]@
    }
}

/// The line to send for a command of the client.
pub fn request_line(cmd: &str, args: &Vec<String>) -> (r: String)
    ensures
        r@ == joined_words(cmd@, args@, args@.len() as int),
{
    let mut out: Vec<char> = chars_of(cmd);
    let mut i: usize = 0;
    while i < args.len()
        invariant
            i <= args@.len(),
            out@ == joined_words(cmd@, args@, i as int),
        decreases args@.len() - i,
    {
        put(&mut out, " ");
        put(&mut out, args[i].as_str());
        i = i + 1;
    }
    string_of(&out)
}

/// The exit code of a reply.
pub open spec fn code_of(reply: Seq<char>) -> int {
    if starts(reply, "error:"@) {
        1
    } else {
        0
    }
}

/// The client's exit code for a reply: 1 for an error.
pub fn reply_code(reply: &str) -> (r: i32)
    ensures
        r == code_of(reply@),
{
    if starts_with(&chars_of(reply), "error:") {
        1
    } else {
        0
    }
}

/// A live key.
pub open spec fn is_live_key(key: Seq<char>) -> bool {
    key == "window_ms"@ || key == "window"@ || key == "enabled"@
}

/// The socket and the settings file read a live key alike. The reply to `set` is `ok`
/// exactly where the settings take the value, and the state, which held what the settings
/// `c` say, then holds what they say with the value taken.
pub proof fn law_a_setting_means_one_thing(
    line: Seq<char>,
    c: ConfigView,
    a: SharedState,
    b: SharedState,
    st: Stats,
    avg: Averages,
)
    requires
        words_of(line).len() >= 3,
        words_of(line)[0] == "set"@,
        is_live_key(words_of(line)[1]),
        is_published(c, a),
        commanded(line, a, b),
    ensures
        reply_to(line, a, st, avg) == "ok"@ <==> with_setting(
            c,
            words_of(line)[1],
            words_of(line)[2],
        ) is Ok,
        with_setting(c, words_of(line)[1], words_of(line)[2]) matches Ok(n) ==> is_published(n, b),
        with_setting(c, words_of(line)[1], words_of(line)[2]) is Err ==> b == a,
{
    let val = words_of(line)[2];
    reveal_strlit("ok");
    reveal_strlit("set");
    reveal_strlit("ping");
    reveal_strlit("get");
    reveal_strlit("error: window_ms must be 0..=16");
    reveal_strlit("error: `");
    assert("set"@[0] != "ping"@[0]);
    assert("set"@[0] != "get"@[0]);
    assert("ok"@[0] == 'o');
    assert("error: window_ms must be 0..=16"@[0] == 'e');
    assert(("error: `"@ + val + "` is not a number"@)[0] == 'e');
    assert(("error: `"@ + val + "` is not a boolean"@)[0] == 'e');
}

/// The window never goes above 16 ms by a command.
pub proof fn law_commands_keep_the_window(line: Seq<char>, a: SharedState, b: SharedState)
    requires
        commanded(line, a, b),
        a.window_ms@[0] <= 16,
        a.window_ms@[1] <= 16,
    ensures
        b.window_ms@[0] <= 16,
        b.window_ms@[1] <= 16,
{
}

/// The words that the daemon knows are those that it does not call unknown.
pub(crate) proof fn lemma_known_words(line: Seq<char>, s: SharedState, st: Stats, a: Averages)
    requires
        words_of(line).len() > 0,
    ensures
        ({
            let w = words_of(line)[0];
            let known = w == "ping"@ || w == "get"@ || w == "set"@ || w == "stats"@;
            reply_to(line, s, st, a) == "error: unknown command `"@ + w + "`"@ <==> !known
        }),
{
    let w = words_of(line)[0];
    let r = reply_to(line, s, st, a);
    let u = "error: unknown command `"@ + w + "`"@;
    reveal_strlit("error: unknown command `");
    assert(u[7] == 'u' && u[8] == 'n' && u[0] == 'e' && u[15] == 'c');
    reveal_strlit("ping");
    reveal_strlit("get");
    reveal_strlit("set");
    reveal_strlit("stats");
    if w == "ping"@ {
        reveal_strlit("pong");
        assert(r[0] == 'p');
    } else if w == "get"@ {
        reveal_strlit("enabled=");
        assert(r[0] == 'e' && r[1] == 'n');
        assert(u[1] == 'r');
    } else if w == "set"@ {
        reveal_strlit("error: usage: set <key> <value>");
        reveal_strlit("ok");
        reveal_strlit("error: window_ms must be 0..=16");
        reveal_strlit("error: `");
        reveal_strlit("error: unknown key `");
        if words_of(line).len() < 3 {
            assert(r[8] == 's');
        } else {
            let (k, v) = (words_of(line)[1], words_of(line)[2]);
            if k == "window_ms"@ || k == "window"@ {
                if r.len() > 2 {
                    assert(r[7] == 'w' || r[7] == '`');
                }
            } else if k == "enabled"@ {
                if r.len() > 2 {
                    assert(r[7] == '`');
                }
            } else {
                assert(r[15] == 'k');
            }
        }
    } else if w == "stats"@ {
        lemma_stats_start(st, a);
        assert(r[0] == 'c');
    }
}

proof fn lemma_stats_start(st: Stats, a: Averages)
    ensures
        stats_reply(st, a).len() > 0,
        stats_reply(st, a)[0] == 'c',
{
    reveal_strlit("commits=");
}

/// The exit code of a reply to `set` is 1 exactly where the setting was refused.
pub proof fn law_the_exit_code_tells_a_refusal(key: Seq<char>, val: Seq<char>)
    ensures
        code_of(set_reply(key, val)) == 0 <==> set_reply(key, val) == "ok"@,
        code_of(set_reply(key, val)) == 1 <==> set_reply(key, val) != "ok"@,
{
    let r = set_reply(key, val);
    reveal_strlit("ok");
    reveal_strlit("error:");
    reveal_strlit("error: window_ms must be 0..=16");
    reveal_strlit("error: `");
    reveal_strlit("error: unknown key `");
    if r != "ok"@ {
        assert(r.subrange(0, 6) =~= "error:"@);
    } else {
        assert(!starts(r, "error:"@));
    }
}

/// What the client sends for `set`, the daemon takes apart into the same three words.
pub proof fn law_a_request_arrives_in_its_words(cmd: Seq<char>, args: Seq<String>)
    requires
        args.len() == 2,
        cmd.len() > 0 && args[0]@.len() > 0 && args[1]@.len() > 0,
        forall|i: int| 0 <= i < cmd.len() ==> !crate::text::is_space(#[trigger] cmd[i]),
        forall|i: int| 0 <= i < args[0]@.len() ==> !crate::text::is_space(#[trigger] args[0]@[i]),
        forall|i: int| 0 <= i < args[1]@.len() ==> !crate::text::is_space(#[trigger] args[1]@[i]),
    ensures
        words_of(joined_words(cmd, args, 2)) == seq![cmd, args[0]@, args[1]@],
{
    reveal_strlit(" ");
    reveal_with_fuel(joined_words, 3);
    let (a, b) = (args[0]@, args[1]@);
    let rest = a + seq![' '] + b;
    assert(joined_words(cmd, args, 2) =~= cmd + seq![' '] + rest);
    crate::text::law_words_come_one_by_one(cmd, ' ', rest);
    crate::text::law_words_come_one_by_one(a, ' ', b);
    crate::text::law_words_come_one_by_one(b, ' ', Seq::empty());
    assert(seq![cmd] + (seq![a] + seq![b]) =~= seq![cmd, a, b]);
}

} // verus!
