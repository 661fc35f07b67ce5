//! The daemon's command line.

use crate::config::{quoting, with_line, with_setting, Config, ConfigView};
use crate::text::{
    after, before, chars_of, cut, extend, index_of, is_text, lines, lines_of, parse_max,
    parse_unsigned, put, split_once, starts, starts_with, string_of, texts,
};
use vstd::prelude::*;

verus! {

/// What the daemon is asked to do.
#[derive(Clone, Copy, Debug, PartialEq, Eq, Structural)]
pub enum Command {
    Run,
    List,
    Probe,
    Tune,
    /// Ask a running daemon.
    Client,
    Help,
    Version,
    Unknown,
}

/// What the daemon can be asked, by its version.
pub fn usage(version: &str) -> (r: String)
    ensures
        r@ == "nobdd "@ + version@ + " \u{2014} NOBD sync window for Linux\n\n\
        COMMANDS\n\
        \x20 run [--key=value ...]   start the daemon (default)\n\
        \x20 list                    list candidate sticks\n\
        \x20 probe [iters]           measure uinput -> readable latency\n\
        \x20 tune                    report available RT tunings\n\
        \x20 get | stats | ping      query a running daemon\n\
        \x20 set <key> <value>       steer a running daemon (window_ms, enabled)\n\n\
        CONFIG\n\
        \x20 /etc/nobd/nobdd.conf  then  ~/.config/nobd/nobdd.conf  then  --key=value\n"@,
{
    let mut out: Vec<char> = chars_of("nobdd ");
    put(&mut out, version);
    put(
        &mut out,
        " \u{2014} NOBD sync window for Linux\n\n\
        COMMANDS\n\
        \x20 run [--key=value ...]   start the daemon (default)\n\
        \x20 list                    list candidate sticks\n\
        \x20 probe [iters]           measure uinput -> readable latency\n\
        \x20 tune                    report available RT tunings\n\
        \x20 get | stats | ping      query a running daemon\n\
        \x20 set <key> <value>       steer a running daemon (window_ms, enabled)\n\n\
        CONFIG\n\
        \x20 /etc/nobd/nobdd.conf  then  ~/.config/nobd/nobdd.conf  then  --key=value\n",
    );
    string_of(&out)
}

/// What `list` says where there is no pad.
pub fn no_pads_note() -> (r: &'static str)
    ensures
        r@ == "No gamepads found.\n\
        If your stick is plugged in, you likely lack read access to /dev/input/event*.\n\
        Install packaging/83-nobd.rules, or run as root to check."@,
{
    "No gamepads found.\n\
        If your stick is plugged in, you likely lack read access to /dev/input/event*.\n\
        Install packaging/83-nobd.rules, or run as root to check."
}

/// What `probe` says of its figures.
pub fn probe_note() -> (r: &'static str)
    ensures
        r@ == "\nThis is the sink hop only \u{2014} what a game's evdev/SDL read sees after we\n\
        write. Add the source hop (kernel report -> our read) for end-to-end;\n\
        `nobdd stats` reports that live as pipeline_avg_us."@,
{
    "\nThis is the sink hop only \u{2014} what a game's evdev/SDL read sees after we\n\
        write. Add the source hop (kernel report -> our read) for end-to-end;\n\
        `nobdd stats` reports that live as pipeline_avg_us."
}

/// What `tune` says of what was refused.
pub fn tune_note() -> (r: &'static str)
    ensures
        r@ == "\nAnything marked `\u{00B7}` needs privilege the daemon does not have here.\n\
        The systemd unit in packaging/ grants exactly these and no more."@,
{
    "\nAnything marked `\u{00B7}` needs privilege the daemon does not have here.\n\
        The systemd unit in packaging/ grants exactly these and no more."
}

/// The command that a word names.
pub open spec fn command_of(w: Seq<char>) -> Command {
    if w == "run"@ {
        Command::Run
    } else if w == "list"@ {
        Command::List
    } else if w == "probe"@ {
        Command::Probe
    } else if w == "tune"@ {
        Command::Tune
    } else if w == "get"@ || w == "stats"@ || w == "ping"@ || w == "set"@ {
        Command::Client
    } else if w == "-h"@ || w == "--help"@ || w == "help"@ {
        Command::Help
    } else if w == "--version"@ || w == "-V"@ {
        Command::Version
    } else {
        Command::Unknown
    }
}

/// The first argument, if there is one.
pub open spec fn first_word(first: Option<&str>) -> Option<Seq<char>> {
    match first {
        Some(w) => Some(w@),
        None => None,
    }
}

/// The command that the first argument names; without one the daemon runs.
pub open spec fn asked(first: Option<Seq<char>>) -> Command {
    match first {
        Some(w) => command_of(w),
        None => Command::Run,
    }
}

/// The command that the first argument names; without one the daemon runs.
pub fn parse_command(first: Option<&str>) -> (r: Command)
    ensures
        r == asked(first_word(first)),
{
    match first {
        None => Command::Run,
        Some(w) => {
            let v: Vec<char> = chars_of(w);
            if is_text(&v, "run") {
                Command::Run
            } else if is_text(&v, "list") {
                Command::List
            } else if is_text(&v, "probe") {
                Command::Probe
            } else if is_text(&v, "tune") {
                Command::Tune
            } else if is_text(&v, "get") || is_text(&v, "stats") || is_text(&v, "ping") || is_text(
                &v,
                "set",
            ) {
                Command::Client
            } else if is_text(&v, "-h") || is_text(&v, "--help") || is_text(&v, "help") {
                Command::Help
            } else if is_text(&v, "--version") || is_text(&v, "-V") {
                Command::Version
            } else {
                Command::Unknown
            }
        },
    }
}

/// The rounds that an argument asks for.
pub open spec fn rounds(arg: Option<Seq<char>>) -> u64 {
    match arg {
        Some(a) => match parse_unsigned(a, u64::MAX as nat) {
            Some(n) => n as u64,
            None => 500,
        },
        None => 500,
    }
}

/// How many rounds a probe makes: what the argument says, or 500.
pub fn probe_rounds(arg: Option<&str>) -> (r: u64)
    ensures
        r == rounds(first_word(arg)),
{
    match arg {
        Some(a) => match parse_max(&chars_of(a), u64::MAX) {
            Some(n) => n,
            None => 500,
        },
        None => 500,
    }
}

/// An argument without its leading dashes.
pub open spec fn undashed(a: Seq<char>) -> Seq<char> {
    if starts(a, "--"@) {
        a.subrange("--"@.len() as int, a.len() as int)
    } else {
        a
    }
}

/// The settings once one `--key=value` is applied, or what is wrong with it.
pub open spec fn with_arg(c: ConfigView, a: Seq<char>) -> Result<ConfigView, Seq<char>> {
    let u = undashed(a);
    if index_of(u, '=') >= u.len() {
        Err(quoting("expected --key=value, got `"@, u, "`"@))
    } else {
        with_setting(c, before(u, '='), after(u, '='))
    }
}

/// The settings after the first `n` arguments, up to the first that is wrong, and
/// what is wrong with that.
pub open spec fn with_args(c: ConfigView, args: Seq<String>, n: int) -> (
    ConfigView,
    Option<Seq<char>>,
)
    decreases n,
{
    if n <= 0 {
        (c, None)
    } else {
        let (c1, e1) = with_args(c, args, n - 1);
        if e1 is Some {
            (c1, e1)
        } else {
            match with_arg(c1, args[n - 1]@) {
                Ok(c2) => (c2, None),
                Err(e) => (c1, Some(e)),
            }
        }
    }
}

proof fn lemma_args_stop(c: ConfigView, args: Seq<String>, n: int, m: int)
    requires
        0 <= n <= m,
        with_args(c, args, n).1 is Some,
    ensures
        with_args(c, args, m) == with_args(c, args, n),
    decreases m,
{
    if n < m {
        lemma_args_stop(c, args, n, m - 1);
    }
}

/// Apply `--key=value` arguments on top of the settings, up to the first that is
/// wrong.
pub fn apply_cli(cfg: &mut Config, args: &Vec<String>) -> (r: Result<(), String>)
    ensures
        final(cfg)@ == with_args(old(cfg)@, args@, args@.len() as int).0,
        match r {
            Ok(_) => with_args(old(cfg)@, args@, args@.len() as int).1 is None,
            Err(e) => with_args(old(cfg)@, args@, args@.len() as int).1 == Some(e@),
        },
{
    let ghost c0 = cfg@;
    let mut i: usize = 0;
    while i < args.len()
        invariant
            i <= args@.len(),
            c0 == old(cfg)@,
            with_args(c0, args@, i as int) == (cfg@, None::<Seq<char>>),
        decreases args@.len() - i,
    {
        let a: Vec<char> = chars_of(args[i].as_str());
        let u: Vec<char> = if starts_with(&a, "--") {
            let dashes: Vec<char> = chars_of("--");
            cut(&a, dashes.len(), a.len())
        } else {
            cut(&a, 0, a.len())
        };
        assert(a@.subrange(0, a@.len() as int) =~= a@);
        assert(u@ == undashed(args@[i as int]@));
        match split_once(&u, '=') {
            None => {
                let mut m: Vec<char> = chars_of("expected --key=value, got `");
                extend(&mut m, &u);
                put(&mut m, "`");
                proof {
                    lemma_args_stop(c0, args@, i + 1, args@.len() as int);
                }
                return Err(string_of(&m));
            },
            Some((k, v)) => {
                let key: String = string_of(&k);
                let value: String = string_of(&v);
                match cfg.set(key.as_str(), value.as_str()) {
                    Ok(_) => {},
                    Err(e) => {
                        proof {
                            lemma_args_stop(c0, args@, i + 1, args@.len() as int);
                        }
                        return Err(e);
                    },
                }
            },
        }
        i = i + 1;
    }
    Ok(())
}

/// The settings after the first `n` lines of a file: a wrong line is passed over.
pub open spec fn with_lines(c: ConfigView, ls: Seq<Seq<char>>, n: int) -> ConfigView
    decreases n,
{
    if n <= 0 {
        c
    } else {
        let p = with_lines(c, ls, n - 1);
        match with_line(p, ls[n - 1]) {
            Ok(q) => q,
            Err(_) => p,
        }
    }
}

/// The wrong ones of the first `n` lines, by number from 1, with what is wrong.
pub open spec fn line_errors(c: ConfigView, ls: Seq<Seq<char>>, n: int) -> Seq<(int, Seq<char>)>
    decreases n,
{
    if n <= 0 {
        Seq::empty()
    } else {
        match with_line(with_lines(c, ls, n - 1), ls[n - 1]) {
            Ok(_) => line_errors(c, ls, n - 1),
            Err(e) => line_errors(c, ls, n - 1).push((n, e)),
        }
    }
}

/// The numbered messages of some errors.
pub open spec fn numbered(v: Seq<(usize, String)>) -> Seq<(int, Seq<char>)> {
    Seq::new(v.len(), |i: int| (v[i].0 as int, v[i].1@))
}

/// Apply a settings file. Every good line takes effect; the others are returned
/// with their numbers.
pub fn apply_text(cfg: &mut Config, text: &str) -> (r: Vec<(usize, String)>)
    ensures
        final(cfg)@ == with_lines(old(cfg)@, lines_of(text@), lines_of(text@).len() as int),
        numbered(r@) == line_errors(old(cfg)@, lines_of(text@), lines_of(text@).len() as int),
{
    let ghost c0 = cfg@;
    let ls: Vec<Vec<char>> = lines(&chars_of(text));
    let ghost t = texts(ls@);
    let mut r: Vec<(usize, String)> = Vec::new();
    let mut i: usize = 0;
    assert(numbered(r@) =~= Seq::empty());
    while i < ls.len()
        invariant
            i <= ls@.len(),
            t == texts(ls@),
            t == lines_of(text@),
            cfg@ == with_lines(c0, t, i as int),
            numbered(r@) == line_errors(c0, t, i as int),
        decreases ls@.len() - i,
    {
        assert(t[i as int] == ls@[i as int]@);
        let line: String = string_of(&ls[i]);
        if let Err(e) = cfg.apply_line(line.as_str()) {
            let ghost r0 = r@;
            let ghost m = e@;
            r.push((i + 1, e));
            assert(numbered(r@) =~= numbered(r0).push((i + 1, m)));
        }
        i = i + 1;
    }
    r
}

/// A number of rounds that is asked for is made; without one, or with what is no number, it is
/// five hundred.
pub proof fn law_rounds_are_as_asked(n: u64, word: Seq<char>)
    ensures
        rounds(Some(crate::text::decimal(n as nat))) == n,
        rounds(None) == 500,
        parse_unsigned(word, u64::MAX as nat) is None ==> rounds(Some(word)) == 500,
{
    crate::text::law_unsigned_numbers_have_a_limit(n as nat, u64::MAX as nat);
}

/// Without an argument the daemon runs. A word that goes to a running daemon is one that the
/// daemon answers, and a word that it answers goes to it.
pub proof fn law_client_words_are_answered(
    w: Seq<char>,
    line: Seq<char>,
    s: crate::state::SharedState,
    st: crate::engine::Stats,
    a: crate::ctl::Averages,
)
    requires
        crate::text::words_of(line).len() > 0,
        crate::text::words_of(line)[0] == w,
    ensures
        asked(None) == Command::Run,
        asked(Some(w)) == command_of(w),
        command_of(w) == Command::Client ==> crate::ctl::reply_to(line, s, st, a)
            != "error: unknown command `"@ + w + "`"@,
        command_of(w) != Command::Client ==> crate::ctl::reply_to(line, s, st, a)
            == "error: unknown command `"@ + w + "`"@,
{
    reveal_strlit("run");
    reveal_strlit("list");
    reveal_strlit("probe");
    reveal_strlit("tune");
    reveal_strlit("get");
    reveal_strlit("stats");
    reveal_strlit("ping");
    reveal_strlit("set");
    reveal_strlit("-h");
    reveal_strlit("--help");
    reveal_strlit("help");
    reveal_strlit("--version");
    reveal_strlit("-V");
    assert("run"@[0] == 'r' && "run"@[1] == 'u');
    assert("get"@[0] == 'g' && "get"@[1] == 'e');
    assert("set"@[0] == 's' && "set"@[1] == 'e');
    assert("list"@[0] == 'l' && "list"@[1] == 'i');
    assert("tune"@[0] == 't' && "tune"@[1] == 'u');
    assert("ping"@[0] == 'p' && "ping"@[1] == 'i');
    assert("help"@[0] == 'h' && "help"@[1] == 'e');
    assert("probe"@[0] == 'p' && "probe"@[1] == 'r');
    assert("stats"@[0] == 's' && "stats"@[1] == 't');
    assert("-h"@[0] == '-' && "-h"@[1] == 'h');
    assert("-V"@[0] == '-' && "-V"@[1] == 'V');
    crate::ctl::lemma_known_words(line, s, st, a);
}

/// An argument with dashes, a key and a value sets the key to the value, as a line of the file
/// would.
pub proof fn law_an_argument_sets_its_key(c: ConfigView, key: Seq<char>, value: Seq<char>)
    requires
        !key.contains('='),
    ensures
        with_arg(c, "--"@ + key + seq!['='] + value) == with_setting(c, key, value),
        !starts(key + seq!['='] + value, "--"@) ==> with_arg(c, key + seq!['='] + value)
            == with_setting(c, key, value),
{
    let u = key + seq!['='] + value;
    let a = "--"@ + key + seq!['='] + value;
    reveal_strlit("--");
    assert(a.subrange(0, 2) =~= "--"@);
    assert(undashed(a) =~= u);
    crate::text::lemma_key_and_value(key, value, '=');
}

/// Arguments take effect in their order; the first that is wrong ends them, with what came
/// before it in effect.
pub proof fn law_arguments_stop_at_the_first_wrong_one(c: ConfigView, args: Seq<String>, n: int)
    requires
        0 <= n < args.len(),
        with_args(c, args, n).1 is None,
    ensures
        with_arg(with_args(c, args, n).0, args[n]@) matches Err(e) ==> with_args(
            c,
            args,
            args.len() as int,
        ) == (with_args(c, args, n).0, Some(e)),
        with_arg(with_args(c, args, n).0, args[n]@) matches Ok(d) ==> with_args(c, args, n + 1) == (
            d,
            None::<Seq<char>>,
        ),
{
    if with_arg(with_args(c, args, n).0, args[n]@) is Err {
        lemma_args_stop(c, args, n + 1, args.len() as int);
    }
}

/// A wrong line of a file is told with its number and changes nothing; the lines around it
/// take effect.
pub proof fn law_a_wrong_line_is_passed_over(c: ConfigView, ls: Seq<Seq<char>>, n: int)
    requires
        0 <= n < ls.len(),
    ensures
        with_line(with_lines(c, ls, n), ls[n]) matches Err(e) ==> with_lines(c, ls, n + 1)
            == with_lines(c, ls, n) && line_errors(c, ls, n + 1) == line_errors(c, ls, n).push(
            (n + 1, e),
        ),
        with_line(with_lines(c, ls, n), ls[n]) matches Ok(d) ==> with_lines(c, ls, n + 1) == d
            && line_errors(c, ls, n + 1) == line_errors(c, ls, n),
{
}

} // verus!
