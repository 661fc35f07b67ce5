//! The daemon's settings: a flat `key = value` file.
//!
//! The file, the command line and the control socket share one reader, so that a
//! setting never means two things.

use crate::engine::Settings;
use crate::pad::{mask_of, parse_mask, ATTACK_MASK};
use crate::rt::{default_tuning, TuningRequest};
use crate::state::SharedState;
use crate::text::{
    after, before, chars_of, index_of, is_text, lower, lowered, parse_i32, parse_signed, parse_u32,
    parse_u64, parse_unsigned, split_once, string_of, trim, trimmed, up_to,
};
use crate::uinput::Identity;
use vstd::prelude::*;

verus! {

/// The daemon's settings.
pub struct Config {
    /// The sync window in milliseconds. 0 groups nothing and keeps the pad.
    pub window_ms: u32,
    pub enabled: bool,
    pub attack_mask: u16,
    /// Which bits the window applies to: the attacks, unless directions are asked
    /// for too.
    pub synced_mask: u16,
    pub spin_us: u64,
    pub identity: Identity,
    /// The device to use; else the first pad that is not our own.
    pub device: Option<String>,
    /// Prefer the bulk stream where there is one.
    pub prefer_bulk: bool,
    /// Take the physical device for oneself.
    pub grab: bool,
    pub tuning: TuningRequest,
    /// The joystick poll interval to force, in milliseconds; 0 leaves it alone.
    pub jspoll_ms: u32,
    pub control_socket: String,
}

/// The settings as mathematics.
#[verifier::ext_equal]
pub struct ConfigView {
    pub window_ms: u32,
    pub enabled: bool,
    pub attack_mask: u16,
    pub synced_mask: u16,
    pub spin_us: u64,
    pub identity: Identity,
    pub device: Option<Seq<char>>,
    pub prefer_bulk: bool,
    pub grab: bool,
    pub tuning: TuningRequest,
    pub jspoll_ms: u32,
    pub control_socket: Seq<char>,
}

impl View for Config {
    type V = ConfigView;

    open spec fn view(&self) -> ConfigView {
        ConfigView {
            window_ms: self.window_ms,
            enabled: self.enabled,
            attack_mask: self.attack_mask,
            synced_mask: self.synced_mask,
            spin_us: self.spin_us,
            identity: self.identity,
            device: match self.device {
                Some(d) => Some(d@),
                None => None,
            },
            prefer_bulk: self.prefer_bulk,
            grab: self.grab,
            tuning: self.tuning,
            jspoll_ms: self.jspoll_ms,
            control_socket: self.control_socket@,
        }
    }
}

/// The settings without a file.
pub open spec fn default_config() -> ConfigView {
    ConfigView {
        window_ms: 5,
        enabled: true,
        attack_mask: ATTACK_MASK,
        synced_mask: ATTACK_MASK,
        spin_us: 200,
        identity: Identity::Xbox360,
        device: None,
        prefer_bulk: true,
        grab: true,
        tuning: default_tuning(),
        jspoll_ms: 0,
        control_socket: "/run/nobd/nobdd.sock"@,
    }
}

/// A truth value in words, in either case.
pub open spec fn bool_of(v: Seq<char>) -> Option<bool> {
    let l = lower(v);
    if l == "1"@ || l == "true"@ || l == "yes"@ || l == "on"@ {
        Some(true)
    } else if l == "0"@ || l == "false"@ || l == "no"@ || l == "off"@ {
        Some(false)
    } else {
        None
    }
}

/// What is wrong with a window.
#[derive(Clone, Copy, Debug, PartialEq, Eq, Structural)]
pub enum BadWindow {
    /// It is no number.
    NotANumber,
    /// It is longer than a frame.
    TooWide,
}

/// The window in milliseconds that a text stands for.
pub open spec fn window_of(v: Seq<char>) -> Result<u32, BadWindow> {
    match parse_unsigned(v, u32::MAX as nat) {
        None => Err(BadWindow::NotANumber),
        Some(n) => if n > 16 {
            Err(BadWindow::TooWide)
        } else {
            Ok(n as u32)
        },
    }
}

/// `before`, the value in backquotes, `after`.
pub open spec fn quoting(before: Seq<char>, v: Seq<char>, after: Seq<char>) -> Seq<char> {
    before + v + after
}

/// The message about a value that is no number.
pub open spec fn not_a_number(v: Seq<char>) -> Seq<char> {
    quoting("`"@, v, "` is not a number"@)
}

/// The message about a value that is no truth value.
pub open spec fn not_a_boolean(v: Seq<char>) -> Seq<char> {
    quoting("`"@, v, "` is not a boolean"@)
}

/// What a truth value makes of the settings.
pub open spec fn with_bool(
    v: Seq<char>,
    f: spec_fn(bool) -> ConfigView,
) -> Result<ConfigView, Seq<char>> {
    match bool_of(v) {
        Some(b) => Ok(f(b)),
        None => Err(not_a_boolean(v)),
    }
}

/// The settings once `key` is set to `v`, or what is wrong with it.
pub open spec fn with_setting(c: ConfigView, key: Seq<char>, v: Seq<char>) -> Result<
    ConfigView,
    Seq<char>,
> {
    if key == "window_ms"@ || key == "window"@ {
        match window_of(v) {
            Ok(n) => Ok(ConfigView { window_ms: n, ..c }),
            Err(BadWindow::TooWide) => Err("window_ms must be 0..=16 (16 ms is one 60 Hz frame)"@),
            Err(BadWindow::NotANumber) => Err(not_a_number(v)),
        }
    } else if key == "enabled"@ {
        with_bool(v, |b: bool| ConfigView { enabled: b, ..c })
    } else if key == "attack_buttons"@ {
        match mask_of(v) {
            Some(m) => Ok(ConfigView { attack_mask: m, ..c }),
            None => Err(quoting("unknown button in `"@, v, "`"@)),
        }
    } else if key == "window_directions"@ {
        with_bool(
            v,
            |b: bool|
                ConfigView {
                    synced_mask: if b {
                        0xFFFF
                    } else {
                        c.attack_mask
                    },
                    ..c
                },
        )
    } else if key == "spin_us"@ {
        match parse_unsigned(v, u64::MAX as nat) {
            Some(n) => if n > 5_000 {
                Err("spin_us above 5000 burns a core for no benefit"@)
            } else {
                Ok(ConfigView { spin_us: n as u64, ..c })
            },
            None => Err(not_a_number(v)),
        }
    } else if key == "identity"@ {
        let l = lower(v);
        if l == "xbox360"@ || l == "xbox"@ || l == "x360"@ {
            Ok(ConfigView { identity: Identity::Xbox360, ..c })
        } else if l == "nobd"@ || l == "branded"@ {
            Ok(ConfigView { identity: Identity::Nobd, ..c })
        } else {
            Err(quoting("identity must be xbox360 or nobd, got `"@, v, "`"@))
        }
    } else if key == "device"@ {
        Ok(
            ConfigView {
                device: if v.len() == 0 {
                    None
                } else {
                    Some(v)
                },
                ..c
            },
        )
    } else if key == "prefer_bulk"@ {
        with_bool(v, |b: bool| ConfigView { prefer_bulk: b, ..c })
    } else if key == "grab"@ {
        with_bool(v, |b: bool| ConfigView { grab: b, ..c })
    } else if key == "jspoll_ms"@ {
        match parse_unsigned(v, u32::MAX as nat) {
            Some(n) => Ok(ConfigView { jspoll_ms: n as u32, ..c }),
            None => Err(not_a_number(v)),
        }
    } else if key == "control_socket"@ {
        Ok(ConfigView { control_socket: v, ..c })
    } else {
        with_tuning(c, key, v)
    }
}

/// The settings once a real-time `key` is set to `v`, or what is wrong with it.
pub open spec fn with_tuning(c: ConfigView, key: Seq<char>, v: Seq<char>) -> Result<
    ConfigView,
    Seq<char>,
> {
    if key == "rt_timer_slack"@ {
        with_bool(
            v,
            |b: bool| ConfigView { tuning: TuningRequest { timer_slack: b, ..c.tuning }, ..c },
        )
    } else if key == "rt_cpu_dma_latency"@ {
        with_bool(
            v,
            |b: bool| ConfigView { tuning: TuningRequest { cpu_dma_latency: b, ..c.tuning }, ..c },
        )
    } else if key == "rt_sched_fifo"@ {
        Ok(
            ConfigView {
                tuning: TuningRequest {
                    sched_fifo: if bool_of(v) == Some(false) {
                        None
                    } else {
                        match parse_signed(v) {
                            Some(n) => Some(n as i32),
                            None => Some(20),
                        }
                    },
                    ..c.tuning
                },
                ..c
            },
        )
    } else if key == "rt_mlock"@ {
        with_bool(v, |b: bool| ConfigView { tuning: TuningRequest { mlock: b, ..c.tuning }, ..c })
    } else if key == "rt_cpu"@ {
        if v.len() == 0 {
            Ok(ConfigView { tuning: TuningRequest { cpu_affinity: None, ..c.tuning }, ..c })
        } else {
            match parse_unsigned(v, u32::MAX as nat) {
                Some(n) => Ok(
                    ConfigView {
                        tuning: TuningRequest { cpu_affinity: Some(n as usize), ..c.tuning },
                        ..c
                    },
                ),
                None => Err(not_a_number(v)),
            }
        }
    } else {
        Err(quoting("unknown key `"@, key, "`"@))
    }
}

/// A line without its comment and the white space around it.
pub open spec fn bare_line(line: Seq<char>) -> Seq<char> {
    trim(before(line, '#'))
}

/// The settings once a line of the file is applied, or what is wrong with it.
pub open spec fn with_line(c: ConfigView, line: Seq<char>) -> Result<ConfigView, Seq<char>> {
    let l = bare_line(line);
    if l.len() == 0 {
        Ok(c)
    } else if index_of(l, '=') >= l.len() {
        Err(quoting("expected `key = value`, got `"@, l, "`"@))
    } else {
        with_setting(c, trim(before(l, '=')), trim(after(l, '=')))
    }
}

/// `before`, the value, `after`.
fn message(before: &str, v: &str, after: &str) -> (r: String)
    ensures
        r@ == quoting(before@, v@, after@),
{
    let mut s: String = String::new();
    s.append(before);
    s.append(v);
    s.append(after);
    assert(s@ =~= quoting(before@, v@, after@));
    s
}

/// A message.
fn plain(text: &str) -> (r: String)
    ensures
        r@ == text@,
{
    let mut s: String = String::new();
    s.append(text);
    assert(s@ =~= text@);
    s
}

/// A number of 32 bits, or the message that it is none.
fn number_u32(v: &str) -> (r: Result<u32, String>)
    ensures
        r matches Ok(n) ==> parse_unsigned(v@, u32::MAX as nat) == Some(n as nat),
        r matches Err(e) ==> parse_unsigned(v@, u32::MAX as nat) is None && e@ == not_a_number(v@),
{
    match parse_u32(&chars_of(v)) {
        Some(n) => Ok(n),
        None => Err(message("`", v, "` is not a number")),
    }
}

/// A number of 64 bits, or the message that it is none.
fn number_u64(v: &str) -> (r: Result<u64, String>)
    ensures
        r matches Ok(n) ==> parse_unsigned(v@, u64::MAX as nat) == Some(n as nat),
        r matches Err(e) ==> parse_unsigned(v@, u64::MAX as nat) is None && e@ == not_a_number(v@),
{
    match parse_u64(&chars_of(v)) {
        Some(n) => Ok(n),
        None => Err(message("`", v, "` is not a number")),
    }
}

/// The window in milliseconds that a text stands for.
pub fn parse_window(v: &str) -> (r: Result<u32, BadWindow>)
    ensures
        r == window_of(v@),
{
    match parse_u32(&chars_of(v)) {
        None => Err(BadWindow::NotANumber),
        Some(n) => if n > 16 {
            Err(BadWindow::TooWide)
        } else {
            Ok(n)
        },
    }
}

/// A truth value in words, in either case.
pub fn parse_bool(v: &str) -> (r: Option<bool>)
    ensures
        r == bool_of(v@),
{
    let l: Vec<char> = lowered(&chars_of(v));
    if is_text(&l, "1") || is_text(&l, "true") || is_text(&l, "yes") || is_text(&l, "on") {
        Some(true)
    } else if is_text(&l, "0") || is_text(&l, "false") || is_text(&l, "no") || is_text(&l, "off") {
        Some(false)
    } else {
        None
    }
}

/// A truth value, or the message that it is none.
fn truth(v: &str) -> (r: Result<bool, String>)
    ensures
        r matches Ok(b) ==> bool_of(v@) == Some(b),
        r matches Err(e) ==> bool_of(v@) is None && e@ == not_a_boolean(v@),
{
    match parse_bool(v) {
        Some(b) => Ok(b),
        None => Err(message("`", v, "` is not a boolean")),
    }
}

/// The state holds what settings say of what can change while the loop runs.
pub open spec fn is_published(c: ConfigView, s: SharedState) -> bool {
    &&& s.enabled == if c.enabled {
        1u32
    } else {
        0u32
    }
    &&& s.window_ms@ == seq![c.window_ms, c.window_ms]
}

/// `r` is what `want` says, with the settings going from `old_c` to `new_c`.
pub open spec fn set_to(
    old_c: ConfigView,
    new_c: ConfigView,
    r: Result<(), String>,
    want: Result<ConfigView, Seq<char>>,
) -> bool {
    match r {
        Ok(_) => want == Ok::<ConfigView, Seq<char>>(new_c),
        Err(e) => new_c == old_c && want == Err::<ConfigView, Seq<char>>(e@),
    }
}

impl Default for Config {
    fn default() -> (r: Self)
        ensures
            r@ == default_config(),
    {
        Config {
            window_ms: 5,
            enabled: true,
            attack_mask: ATTACK_MASK,
            synced_mask: ATTACK_MASK,
            spin_us: 200,
            identity: Identity::Xbox360,
            device: None,
            prefer_bulk: true,
            grab: true,
            tuning: TuningRequest::default(),
            jspoll_ms: 0,
            control_socket: plain("/run/nobd/nobdd.sock"),
        }
    }
}

impl Config {
    /// Apply one `key = value` line. Comments and blank lines change nothing.
    pub fn apply_line(&mut self, line: &str) -> (r: Result<(), String>)
        ensures
            set_to(old(self)@, final(self)@, r, with_line(old(self)@, line@)),
    {
        let l: Vec<char> = trimmed(&up_to(&chars_of(line), '#'));
        if l.len() == 0 {
            return Ok(());
        }
        match split_once(&l, '=') {
            None => {
                let text: String = string_of(&l);
                Err(message("expected `key = value`, got `", text.as_str(), "`"))
            },
            Some((k, v)) => {
                let key: String = string_of(&trimmed(&k));
                let value: String = string_of(&trimmed(&v));
                self.set(key.as_str(), value.as_str())
            },
        }
    }

    /// Set `key` to `value`. An error leaves the settings as they were.
    pub fn set(&mut self, key: &str, value: &str) -> (r: Result<(), String>)
        ensures
            set_to(old(self)@, final(self)@, r, with_setting(old(self)@, key@, value@)),
    {
        let k: Vec<char> = chars_of(key);
        if is_text(&k, "window_ms") || is_text(&k, "window") {
            match parse_window(value) {
                Ok(n) => {
                    self.window_ms = n;
                },
                Err(BadWindow::TooWide) => {
                    return Err(plain("window_ms must be 0..=16 (16 ms is one 60 Hz frame)"));
                },
                Err(BadWindow::NotANumber) => {
                    return Err(message("`", value, "` is not a number"));
                },
            }
        } else if is_text(&k, "enabled") {
            match truth(value) {
                Ok(b) => {
                    self.enabled = b;
                },
                Err(e) => {
                    return Err(e);
                },
            }
        } else if is_text(&k, "attack_buttons") {
            match parse_mask(value) {
                Some(m) => {
                    self.attack_mask = m;
                },
                None => {
                    return Err(message("unknown button in `", value, "`"));
                },
            }
        } else if is_text(&k, "window_directions") {
            match truth(value) {
                Ok(b) => {
                    self.synced_mask = if b {
                        0xFFFF
                    } else {
                        self.attack_mask
                    };
                },
                Err(e) => {
                    return Err(e);
                },
            }
        } else if is_text(&k, "spin_us") {
            match number_u64(value) {
                Ok(n) => {
                    if n > 5_000 {
                        return Err(plain("spin_us above 5000 burns a core for no benefit"));
                    }
                    self.spin_us = n;
                },
                Err(e) => {
                    return Err(e);
                },
            }
        } else if is_text(&k, "identity") {
            let l: Vec<char> = lowered(&chars_of(value));
            if is_text(&l, "xbox360") || is_text(&l, "xbox") || is_text(&l, "x360") {
                self.identity = Identity::Xbox360;
            } else if is_text(&l, "nobd") || is_text(&l, "branded") {
                self.identity = Identity::Nobd;
            } else {
                return Err(message("identity must be xbox360 or nobd, got `", value, "`"));
            }
        } else if is_text(&k, "device") {
            let v: Vec<char> = chars_of(value);
            self.device = if v.len() == 0 {
                None
            } else {
                Some(string_of(&v))
            };
        } else if is_text(&k, "prefer_bulk") {
            match truth(value) {
                Ok(b) => {
                    self.prefer_bulk = b;
                },
                Err(e) => {
                    return Err(e);
                },
            }
        } else if is_text(&k, "grab") {
            match truth(value) {
                Ok(b) => {
                    self.grab = b;
                },
                Err(e) => {
                    return Err(e);
                },
            }
        } else if is_text(&k, "jspoll_ms") {
            match number_u32(value) {
                Ok(n) => {
                    self.jspoll_ms = n;
                },
                Err(e) => {
                    return Err(e);
                },
            }
        } else if is_text(&k, "control_socket") {
            self.control_socket = plain(value);
        } else {
            return self.set_tuning(key, value);
        }
        Ok(())
    }

    /// Set a real-time key.
    fn set_tuning(&mut self, key: &str, value: &str) -> (r: Result<(), String>)
        ensures
            set_to(old(self)@, final(self)@, r, with_tuning(old(self)@, key@, value@)),
    {
        let k: Vec<char> = chars_of(key);
        if is_text(&k, "rt_timer_slack") {
            match truth(value) {
                Ok(b) => {
                    self.tuning.timer_slack = b;
                },
                Err(e) => {
                    return Err(e);
                },
            }
        } else if is_text(&k, "rt_cpu_dma_latency") {
            match truth(value) {
                Ok(b) => {
                    self.tuning.cpu_dma_latency = b;
                },
                Err(e) => {
                    return Err(e);
                },
            }
        } else if is_text(&k, "rt_sched_fifo") {
            let off: bool = match parse_bool(value) {
                Some(b) => !b,
                None => false,
            };
            self.tuning.sched_fifo = if off {
                None
            } else {
                match parse_i32(&chars_of(value)) {
                    Some(n) => Some(n),
                    None => Some(20),
                }
            };
        } else if is_text(&k, "rt_mlock") {
            match truth(value) {
                Ok(b) => {
                    self.tuning.mlock = b;
                },
                Err(e) => {
                    return Err(e);
                },
            }
        } else if is_text(&k, "rt_cpu") {
            if chars_of(value).len() == 0 {
                self.tuning.cpu_affinity = None;
            } else {
                match number_u32(value) {
                    Ok(n) => {
                        self.tuning.cpu_affinity = Some(n as usize);
                    },
                    Err(e) => {
                        return Err(e);
                    },
                }
            }
        } else {
            return Err(message("unknown key `", key, "`"));
        }
        Ok(())
    }

    /// Push what can change while the loop runs into the shared state.
    pub fn publish(&self, s: &mut SharedState)
        ensures
            is_published(self@, *final(s)),
            *final(s) == (SharedState {
                enabled: final(s).enabled,
                window_ms: final(s).window_ms,
                ..*old(s)
            }),
    {
        s.enabled = if self.enabled {
            1
        } else {
            0
        };
        s.window_ms = [self.window_ms, self.window_ms];
        assert(s.window_ms@ =~= seq![self.window_ms, self.window_ms]);
    }

    /// The settings of the event loop.
    pub fn settings(&self) -> (r: Settings)
        ensures
            r == (Settings {
                attack_mask: self.attack_mask,
                synced_mask: self.synced_mask,
                spin_us: self.spin_us,
            }),
    {
        Settings {
            attack_mask: self.attack_mask,
            synced_mask: self.synced_mask,
            spin_us: self.spin_us,
        }
    }
}

/// The window that settings hold is never above 16 ms, and the spin never above
/// 5 ms, whatever lines were applied.
pub proof fn law_limits_are_kept(c: ConfigView, line: Seq<char>)
    requires
        c.window_ms <= 16,
        c.spin_us <= 5_000,
    ensures
        default_config().window_ms <= 16 && default_config().spin_us <= 5_000,
        with_line(c, line) matches Ok(n) ==> n.window_ms <= 16 && n.spin_us <= 5_000,
{
}

/// A window of up to 16 milliseconds is taken as it is written, and a longer one is refused
/// as too wide.
pub proof fn law_windows_up_to_sixteen_are_taken(c: ConfigView, n: u32)
    ensures
        n <= 16 ==> window_of(crate::text::decimal(n as nat)) == Ok::<u32, BadWindow>(n),
        n > 16 ==> window_of(crate::text::decimal(n as nat)) == Err::<u32, BadWindow>(
            BadWindow::TooWide,
        ),
        with_setting(c, "window_ms"@, crate::text::decimal(n as nat)) is Ok <==> n <= 16,
        with_setting(c, "window_ms"@, crate::text::decimal(n as nat)) matches Ok(d) ==> d == (
        ConfigView { window_ms: n, ..c }),
        with_setting(c, "window"@, crate::text::decimal(n as nat)) == with_setting(
            c,
            "window_ms"@,
            crate::text::decimal(n as nat),
        ),
{
    crate::text::law_unsigned_numbers_have_a_limit(n as nat, u32::MAX as nat);
}

/// A spin of up to 5000 microseconds is taken as it is written, and a longer one is refused.
pub proof fn law_spins_up_to_five_thousand_are_taken(c: ConfigView, n: u64)
    ensures
        with_setting(c, "spin_us"@, crate::text::decimal(n as nat)) is Ok <==> n <= 5_000,
        with_setting(c, "spin_us"@, crate::text::decimal(n as nat)) matches Ok(d) ==> d == (
        ConfigView { spin_us: n, ..c }),
{
    crate::text::law_unsigned_numbers_have_a_limit(n as nat, u64::MAX as nat);
    lemma_keys();
}

proof fn lemma_keys()
    ensures
        "spin_us"@ != "window_ms"@ && "spin_us"@ != "window"@ && "spin_us"@ != "enabled"@,
        "spin_us"@ != "attack_buttons"@ && "spin_us"@ != "window_directions"@,
{
    reveal_strlit("spin_us");
    reveal_strlit("window_ms");
    reveal_strlit("window");
    reveal_strlit("enabled");
    reveal_strlit("attack_buttons");
    reveal_strlit("window_directions");
    assert("spin_us"@[0] == 's');
    assert("window_ms"@[0] == 'w' && "window"@[0] == 'w' && "enabled"@[0] == 'e');
    assert("attack_buttons"@[0] == 'a' && "window_directions"@[0] == 'w');
}

/// Truth values are read in either case of letters.
pub proof fn law_truth_in_either_case(v: Seq<char>, w: Seq<char>)
    requires
        lower(v) == lower(w),
    ensures
        bool_of(v) == bool_of(w),
        bool_of("on"@) == Some(true) && bool_of("off"@) == Some(false),
        bool_of("1"@) == Some(true) && bool_of("0"@) == Some(false),
        bool_of("yes"@) == Some(true) && bool_of("no"@) == Some(false),
        bool_of("true"@) == Some(true) && bool_of("false"@) == Some(false),
{
    reveal_strlit("on");
    reveal_strlit("off");
    reveal_strlit("1");
    reveal_strlit("0");
    reveal_strlit("yes");
    reveal_strlit("no");
    reveal_strlit("true");
    reveal_strlit("false");
    assert("on"@[0] == 'o');
    assert("no"@[0] == 'n');
    assert("1"@[0] == '1');
    assert("0"@[0] == '0');
    assert("yes"@[0] == 'y');
    assert("off"@[0] == 'o');
    assert(lower("on"@) =~= "on"@);
    assert(lower("off"@) =~= "off"@);
    assert(lower("1"@) =~= "1"@);
    assert(lower("0"@) =~= "0"@);
    assert(lower("yes"@) =~= "yes"@);
    assert(lower("no"@) =~= "no"@);
    assert(lower("true"@) =~= "true"@);
    assert(lower("false"@) =~= "false"@);
}

/// A comment says nothing: a line with one means what the line before the comment means, and
/// a line of nothing else changes nothing.
pub proof fn law_comments_say_nothing(c: ConfigView, line: Seq<char>, comment: Seq<char>)
    requires
        !line.contains('#'),
    ensures
        with_line(c, line + seq!['#'] + comment) == with_line(c, line),
        with_line(c, seq!['#'] + comment) == Ok::<ConfigView, Seq<char>>(c),
        with_line(c, Seq::empty()) == Ok::<ConfigView, Seq<char>>(c),
{
    crate::text::lemma_key_and_value(line, comment, '#');
    assert forall|i: int| 0 <= i < line.len() implies line[i] != '#' by {
        assert(line.contains(line[i]));
    }
    crate::text::lemma_is_index_of(line, '#', line.len() as int);
    assert(before(line, '#') =~= line);
    let e = Seq::<char>::empty();
    assert(!e.contains('#'));
    crate::text::lemma_key_and_value(e, comment, '#');
    assert(e + seq!['#'] + comment =~= seq!['#'] + comment);
    crate::text::lemma_is_index_of(e, '#', 0);
    assert(before(e, '#') =~= e);
    crate::text::lemma_trimmed_already(e);
}

/// A line sets its key to its value, with white space around the equals sign or without.
pub proof fn law_a_line_sets_its_key(c: ConfigView, key: Seq<char>, value: Seq<char>)
    requires
        key.len() > 0,
        value.len() > 0,
        !key.contains('=') && !key.contains('#') && !value.contains('#'),
        !crate::text::is_space(key[0]) && !crate::text::is_space(key.last()),
        !crate::text::is_space(value[0]) && !crate::text::is_space(value.last()),
    ensures
        with_line(c, key + seq!['='] + value) == with_setting(c, key, value),
        with_line(c, (key + seq![' ']) + seq!['='] + (seq![' '] + value)) == with_setting(
            c,
            key,
            value,
        ),
{
    lemma_line_as_it_is(c, key, value);
    let (k, v) = (key + seq![' '], seq![' '] + value);
    assert(!k.contains('=') && !k.contains('#')) by {
        if k.contains('=') {
            let i = choose|i: int| 0 <= i < k.len() && k[i] == '=';
            assert(key[i] == '=');
        }
        if k.contains('#') {
            let i = choose|i: int| 0 <= i < k.len() && k[i] == '#';
            assert(key[i] == '#');
        }
    }
    assert(!v.contains('#')) by {
        if v.contains('#') {
            let i = choose|i: int| 0 <= i < v.len() && v[i] == '#';
            assert(value[i - 1] == '#');
        }
    }
    lemma_line_as_it_is(c, k, v);
    assert(crate::text::trim_start(k) == k);
    assert(k.drop_last() =~= key);
    assert(crate::text::trim_end(k) == crate::text::trim_end(key));
    assert(crate::text::trim_end(key) == key);
    assert(v.subrange(1, v.len() as int) =~= value);
    assert(crate::text::trim_start(v) == crate::text::trim_start(value));
    assert(crate::text::trim_start(value) == value);
    crate::text::lemma_trimmed_already(key);
    crate::text::lemma_trimmed_already(value);
}

proof fn lemma_line_as_it_is(c: ConfigView, key: Seq<char>, value: Seq<char>)
    requires
        key.len() > 0,
        value.len() > 0,
        !key.contains('=') && !key.contains('#') && !value.contains('#'),
        !crate::text::is_space(key[0]),
        !crate::text::is_space(value.last()),
    ensures
        with_line(c, key + seq!['='] + value) == with_setting(c, trim(key), trim(value)),
{
    let line = key + seq!['='] + value;
    assert forall|i: int| 0 <= i < line.len() implies line[i] != '#' by {
        if i < key.len() {
            assert(key.contains(key[i]));
        } else if i > key.len() {
            assert(value.contains(value[i - key.len() - 1]));
        }
    }
    crate::text::lemma_is_index_of(line, '#', line.len() as int);
    assert(before(line, '#') =~= line);
    crate::text::lemma_trimmed_already(line);
    crate::text::lemma_key_and_value(key, value, '=');
}

} // verus!
