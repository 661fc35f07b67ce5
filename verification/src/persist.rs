//! The settings file and the interface's own file: lines of `key=value`.

use crate::state::SharedState;
use crate::text::{
    after, before, chars_of, cut, decimal, index_of, is_text, lemma_first_line,
    lemma_key_and_value, lemma_no_lines, lemma_trimmed_already, law_decimal_reads_back, lines,
    lines_of, parse_max, parse_u32, parse_unsigned, put, put_number, split_once, starts,
    starts_with, string_of, texts, trim, trimmed,
};
use vstd::prelude::*;

verus! {

/// What the user can set.
#[derive(Clone, Copy, Debug)]
pub struct Cfg {
    pub enabled: u32,
    /// The sync window of each player, in milliseconds.
    pub window: [u32; 2],
    pub directions: u32,
    pub mode: u32,
    pub settle: u32,
}

/// What the user can set, as mathematics.
#[verifier::ext_equal]
pub struct CfgView {
    pub enabled: u32,
    pub window: Seq<u32>,
    pub directions: u32,
    pub mode: u32,
    pub settle: u32,
}

impl View for Cfg {
    type V = CfgView;

    open spec fn view(&self) -> CfgView {
        CfgView {
            enabled: self.enabled,
            window: self.window@,
            directions: self.directions,
            mode: self.mode,
            settle: self.settle,
        }
    }
}

/// The settings that the shared state holds.
pub open spec fn settings_of(s: SharedState) -> CfgView {
    CfgView {
        enabled: s.enabled,
        window: s.window_ms@,
        directions: s.directions_windowed,
        mode: s.mode,
        settle: s.settle_ms,
    }
}

/// The smaller of a value and a limit.
pub open spec fn at_most(n: nat, max: u32) -> u32 {
    if n < max {
        n as u32
    } else {
        max
    }
}

/// A window within its bounds.
pub open spec fn window_of(n: nat) -> u32 {
    if n < 1 {
        1
    } else {
        at_most(n, 16)
    }
}

/// The settings with the value of one key.
pub open spec fn with_value(c: CfgView, key: Seq<char>, n: nat) -> CfgView {
    if key == "enabled"@ {
        CfgView { enabled: at_most(n, 1), ..c }
    } else if key == "directions"@ {
        CfgView { directions: at_most(n, 1), ..c }
    } else if key == "mode"@ {
        CfgView { mode: at_most(n, 2), ..c }
    } else if key == "settle"@ {
        CfgView { settle: at_most(n, 3), ..c }
    } else if starts(key, "window"@) {
        match parse_unsigned(key.subrange(6, key.len() as int), 1) {
            Some(i) => CfgView { window: c.window.update(i as int, window_of(n)), ..c },
            None => c,
        }
    } else {
        c
    }
}

/// The settings after one line. A line without a sign of equality, without a number
/// or with an unknown key changes nothing.
pub open spec fn with_line(c: CfgView, line: Seq<char>) -> CfgView {
    if index_of(line, '=') < line.len() {
        match parse_unsigned(trim(after(line, '=')), u32::MAX as nat) {
            Some(n) => with_value(c, trim(before(line, '=')), n),
            None => c,
        }
    } else {
        c
    }
}

/// The settings after some lines.
pub open spec fn with_lines(c: CfgView, lines: Seq<Seq<char>>) -> CfgView
    decreases lines.len(),
{
    if lines.len() == 0 {
        c
    } else {
        with_line(with_lines(c, lines.drop_last()), lines.last())
    }
}

/// The line of one setting.
pub open spec fn setting_line(key: Seq<char>, n: u32) -> Seq<char> {
    key + seq!['='] + decimal(n as nat)
}

/// The settings file.
pub open spec fn saved(c: CfgView) -> Seq<char> {
    setting_line("enabled"@, c.enabled) + seq!['\n'] + (setting_line("directions"@, c.directions)
        + seq!['\n'] + (setting_line("mode"@, c.mode) + seq!['\n'] + (setting_line(
        "settle"@,
        c.settle,
    ) + seq!['\n'] + (setting_line("window0"@, c.window[0]) + seq!['\n'] + (setting_line(
        "window1"@,
        c.window[1],
    ) + seq!['\n'] + Seq::<char>::empty())))))
}

/// Settings within their bounds.
pub open spec fn valid(c: CfgView) -> bool {
    &&& c.enabled <= 1
    &&& c.directions <= 1
    &&& c.mode <= 2
    &&& c.settle <= 3
    &&& c.window.len() == 2
    &&& 1 <= c.window[0] <= 16
    &&& 1 <= c.window[1] <= 16
}

fn min(n: u32, max: u32) -> (r: u32)
    ensures
        r == at_most(n as nat, max),
{
    if n < max {
        n
    } else {
        max
    }
}

fn put_setting(out: &mut Vec<char>, key: &str, n: u32)
    ensures
        final(out)@ == old(out)@ + (setting_line(key@, n) + seq!['\n']),
{
    put(out, key);
    out.push('=');
    put_number(out, n as u64);
    out.push('\n');
    assert(out@ =~= old(out)@ + (setting_line(key@, n) + seq!['\n']));
}

/// The settings that the shared state holds.
pub fn current(s: &SharedState) -> (r: Cfg)
    ensures
        r@ == settings_of(*s),
{
    Cfg {
        enabled: s.enabled,
        window: s.window_ms,
        directions: s.directions_windowed,
        mode: s.mode,
        settle: s.settle_ms,
    }
}

fn load_line(line: &Vec<char>, s: &mut SharedState)
    ensures
        settings_of(*final(s)) == with_line(settings_of(*old(s)), line@),
        *final(s) == (SharedState {
            enabled: final(s).enabled,
            window_ms: final(s).window_ms,
            directions_windowed: final(s).directions_windowed,
            mode: final(s).mode,
            settle_ms: final(s).settle_ms,
            ..*old(s)
        }),
{
    let ghost c = settings_of(*s);
    if let Some((a, b)) = split_once(line, '=') {
        let k: Vec<char> = trimmed(&a);
        if let Some(n) = parse_u32(&trimmed(&b)) {
            if is_text(&k, "enabled") {
                s.enabled = min(n, 1);
            } else if is_text(&k, "directions") {
                s.directions_windowed = min(n, 1);
            } else if is_text(&k, "mode") {
                s.mode = min(n, 2);
            } else if is_text(&k, "settle") {
                s.settle_ms = min(n, 3);
            } else if starts_with(&k, "window") {
                proof {
                    reveal_strlit("window");
                }
                let m: usize = k.len();
                if let Some(i) = parse_max(&cut(&k, 6, m), 1) {
                    let w: u32 = if n < 1 {
                        1
                    } else {
                        min(n, 16)
                    };
                    s.window_ms[i as usize] = w;
                }
            }
            assert(settings_of(*s) =~= with_line(c, line@));
        }
    }
}

/// Take the settings of a file into the shared state, each within its bounds, and
/// return what the state then holds. There is no file at the first start.
pub fn load(text: Option<&str>, s: &mut SharedState) -> (r: Cfg)
    ensures
        text is None ==> *final(s) == *old(s),
        text matches Some(t) ==> settings_of(*final(s)) == with_lines(
            settings_of(*old(s)),
            lines_of(t@),
        ),
        *final(s) == (SharedState {
            enabled: final(s).enabled,
            window_ms: final(s).window_ms,
            directions_windowed: final(s).directions_windowed,
            mode: final(s).mode,
            settle_ms: final(s).settle_ms,
            ..*old(s)
        }),
        r@ == settings_of(*final(s)),
{
    let ghost s0 = *s;
    if let Some(t) = text {
        let ls: Vec<Vec<char>> = lines(&chars_of(t));
        let mut i: usize = 0;
        let ghost all = texts(ls@);
        assert(all.take(0) =~= Seq::empty());
        while i < ls.len()
            invariant
                i <= ls@.len(),
                all == texts(ls@),
                settings_of(*s) == with_lines(settings_of(s0), all.take(i as int)),
                *s == (SharedState {
                    enabled: s.enabled,
                    window_ms: s.window_ms,
                    directions_windowed: s.directions_windowed,
                    mode: s.mode,
                    settle_ms: s.settle_ms,
                    ..s0
                }),
            decreases ls@.len() - i,
        {
            load_line(&ls[i], s);
            i += 1;
            assert(all.take(i as int).drop_last() =~= all.take(i - 1));
            assert(all.take(i as int).last() == ls@[i - 1]@);
        }
        assert(all.take(i as int) =~= all);
    }
    current(s)
}

/// The settings file to write.
pub fn save(cfg: &Cfg) -> (r: String)
    ensures
        r@ == saved(cfg@),
{
    let mut out: Vec<char> = Vec::new();
    put_setting(&mut out, "enabled", cfg.enabled);
    put_setting(&mut out, "directions", cfg.directions);
    put_setting(&mut out, "mode", cfg.mode);
    put_setting(&mut out, "settle", cfg.settle);
    put_setting(&mut out, "window0", cfg.window[0]);
    put_setting(&mut out, "window1", cfg.window[1]);
    assert(out@ =~= saved(cfg@));
    string_of(&out)
}

/// The interface's own settings.
#[derive(Debug)]
pub struct UiCfg {
    /// 0 for XInput, 1 for a HID device.
    pub input_source: u32,
    /// The path of the HID device; empty where there is none.
    pub hid_device: String,
    /// The number of the virtual pad's type.
    pub pad_type: u32,
    /// 1 to hide the player's stick from games.
    pub hide_stick: u32,
    /// 1 to leave the virtual pad in the system when the program ends.
    pub keep_controller: u32,
}

/// The interface's own settings as mathematics.
#[verifier::ext_equal]
pub struct UiView {
    pub input_source: u32,
    pub hid_device: Seq<char>,
    pub pad_type: u32,
    pub hide_stick: u32,
    pub keep_controller: u32,
}

impl View for UiCfg {
    type V = UiView;

    open spec fn view(&self) -> UiView {
        UiView {
            input_source: self.input_source,
            hid_device: self.hid_device@,
            pad_type: self.pad_type,
            hide_stick: self.hide_stick,
            keep_controller: self.keep_controller,
        }
    }
}

impl Default for UiCfg {
    fn default() -> (r: Self)
        ensures
            r@ == ui_default(),
    {
        let r = UiCfg {
            input_source: 0,
            hid_device: String::new(),
            pad_type: 0,
            hide_stick: 0,
            keep_controller: 0,
        };
        assert(r@ =~= ui_default());
        r
    }
}

/// XInput, and nothing chosen.
pub open spec fn ui_default() -> UiView {
    UiView {
        input_source: 0,
        hid_device: Seq::empty(),
        pad_type: 0,
        hide_stick: 0,
        keep_controller: 0,
    }
}

/// The value of a setting that is 0 or 1: 0 where it is no number.
pub open spec fn choice_of(v: Seq<char>) -> u32 {
    match parse_unsigned(v, u32::MAX as nat) {
        Some(n) => at_most(n, 1),
        None => 0,
    }
}

/// The interface's settings after one line.
pub open spec fn ui_with_line(u: UiView, line: Seq<char>) -> UiView {
    let k = trim(before(line, '='));
    let v = trim(after(line, '='));
    if index_of(line, '=') >= line.len() {
        u
    } else if k == "input_source"@ {
        UiView { input_source: choice_of(v), ..u }
    } else if k == "hid_device"@ {
        UiView { hid_device: v, ..u }
    } else if k == "pad_type"@ {
        UiView { pad_type: choice_of(v), ..u }
    } else if k == "hide_stick"@ {
        UiView { hide_stick: choice_of(v), ..u }
    } else if k == "keep_controller"@ {
        UiView { keep_controller: choice_of(v), ..u }
    } else {
        u
    }
}

/// The interface's settings after some lines.
pub open spec fn ui_with_lines(u: UiView, lines: Seq<Seq<char>>) -> UiView
    decreases lines.len(),
{
    if lines.len() == 0 {
        u
    } else {
        ui_with_line(ui_with_lines(u, lines.drop_last()), lines.last())
    }
}

/// The line of a setting that has a value other than its default of 0.
pub open spec fn choice_line(key: Seq<char>, n: u32) -> Seq<char> {
    if n == 0 {
        Seq::empty()
    } else {
        setting_line(key, n) + seq!['\n']
    }
}

/// What the interface's file says of the virtual pad.
pub open spec fn ui_choices(u: UiView) -> Seq<char> {
    choice_line("pad_type"@, u.pad_type) + (choice_line("hide_stick"@, u.hide_stick) + (
    choice_line("keep_controller"@, u.keep_controller) + Seq::<char>::empty()))
}

/// The interface's file: the source and the device, and of the virtual pad what is not as
/// it is by default.
pub open spec fn ui_saved(u: UiView) -> Seq<char> {
    setting_line("input_source"@, u.input_source) + seq!['\n'] + ("hid_device"@ + seq!['=']
        + u.hid_device + seq!['\n'] + ui_choices(u))
}

/// The value of a setting that is 0 or 1.
fn parse_choice(v: &Vec<char>) -> (r: u32)
    ensures
        r == choice_of(v@),
{
    match parse_u32(v) {
        Some(n) => min(n, 1),
        None => 0,
    }
}

/// Append the line of a setting that has a value other than its default of 0.
fn put_choice(out: &mut Vec<char>, key: &str, n: u32)
    ensures
        final(out)@ == old(out)@ + choice_line(key@, n),
{
    if n != 0 {
        put_setting(out, key, n);
    }
    assert(out@ =~= old(out)@ + choice_line(key@, n));
}

/// The interface's settings in a file. There is no file at the first start.
pub fn load_ui(text: Option<&str>) -> (r: UiCfg)
    ensures
        text is None ==> r@ == ui_default(),
        text matches Some(t) ==> r@ == ui_with_lines(ui_default(), lines_of(t@)),
{
    let mut ui = UiCfg::default();
    if let Some(t) = text {
        let ls: Vec<Vec<char>> = lines(&chars_of(t));
        let mut i: usize = 0;
        let ghost all = texts(ls@);
        assert(all.take(0) =~= Seq::empty());
        while i < ls.len()
            invariant
                i <= ls@.len(),
                all == texts(ls@),
                ui@ == ui_with_lines(ui_default(), all.take(i as int)),
            decreases ls@.len() - i,
        {
            let ghost before_line = ui@;
            if let Some((a, b)) = split_once(&ls[i], '=') {
                let k: Vec<char> = trimmed(&a);
                let v: Vec<char> = trimmed(&b);
                if is_text(&k, "input_source") {
                    ui.input_source = parse_choice(&v);
                } else if is_text(&k, "hid_device") {
                    ui.hid_device = string_of(&v);
                } else if is_text(&k, "pad_type") {
                    ui.pad_type = parse_choice(&v);
                } else if is_text(&k, "hide_stick") {
                    ui.hide_stick = parse_choice(&v);
                } else if is_text(&k, "keep_controller") {
                    ui.keep_controller = parse_choice(&v);
                }
            }
            i += 1;
            assert(all.take(i as int).drop_last() =~= all.take(i - 1));
            assert(all.take(i as int).last() == ls@[i - 1]@);
            assert(ui@ =~= ui_with_line(before_line, ls@[i - 1]@));
        }
        assert(all.take(i as int) =~= all);
    }
    ui
}

/// The interface's file to write.
pub fn save_ui(ui: &UiCfg) -> (r: String)
    ensures
        r@ == ui_saved(ui@),
{
    let mut out: Vec<char> = Vec::new();
    put_setting(&mut out, "input_source", ui.input_source);
    put(&mut out, "hid_device");
    out.push('=');
    put(&mut out, ui.hid_device.as_str());
    out.push('\n');
    put_choice(&mut out, "pad_type", ui.pad_type);
    put_choice(&mut out, "hide_stick", ui.hide_stick);
    put_choice(&mut out, "keep_controller", ui.keep_controller);
    assert(out@ =~= ui_saved(ui@));
    string_of(&out)
}

// ---- what is saved is what is loaded ------------------------------------------
proof fn lemma_decimal_text(n: nat)
    ensures
        decimal(n).len() > 0,
        trim(decimal(n)) == decimal(n),
        !decimal(n).contains('\n'),
        decimal(n).last() != '\r',
        n <= u32::MAX ==> parse_unsigned(trim(decimal(n)), u32::MAX as nat) == Some(n),
{
    law_decimal_reads_back(n);
    let d = decimal(n);
    assert forall|i: int| 0 <= i < d.len() implies d[i] != '\n' by {
        assert(crate::text::is_digit(d[i]));
    }
    assert(crate::text::is_digit(d[0]) && crate::text::is_digit(d.last()));
    lemma_trimmed_already(d);
}

/// The line of a setting, with its line feed, is a line and sets its key.
proof fn lemma_setting(key: Seq<char>, n: u32, rest: Seq<char>)
    requires
        !key.contains('\n'),
        !key.contains('='),
        trim(key) == key,
    ensures
        lines_of(setting_line(key, n) + seq!['\n'] + rest) == seq![setting_line(key, n)] + lines_of(
            rest,
        ),
        forall|c: CfgView| #[trigger]
            with_line(c, setting_line(key, n)) == with_value(c, key, n as nat),
        index_of(setting_line(key, n), '=') < setting_line(key, n).len(),
        trim(before(setting_line(key, n), '=')) == key,
        trim(after(setting_line(key, n), '=')) == decimal(n as nat),
{
    let l = setting_line(key, n);
    lemma_decimal_text(n as nat);
    assert(!l.contains('\n')) by {
        if l.contains('\n') {
            let i = choose|i: int| 0 <= i < l.len() && l[i] == '\n';
            if i < key.len() {
                assert(key[i] == '\n');
            } else if i > key.len() {
                assert(decimal(n as nat)[i - key.len() - 1] == '\n');
            }
        }
    }
    lemma_first_line(l, rest);
    assert(l.last() == decimal(n as nat).last());
    lemma_key_and_value(key, decimal(n as nat), '=');
}

proof fn lemma_keys()
    ensures
        plain("enabled"@),
        plain("directions"@),
        plain("mode"@),
        plain("settle"@),
        plain("window0"@),
        plain("window1"@),
        plain("input_source"@),
        plain("hid_device"@),
        plain("keep_controller"@),
        plain("hide_stick"@),
        plain("pad_type"@),
{
    reveal_strlit("enabled");
    reveal_strlit("directions");
    reveal_strlit("mode");
    reveal_strlit("settle");
    reveal_strlit("window0");
    reveal_strlit("window1");
    reveal_strlit("input_source");
    reveal_strlit("hid_device");
    reveal_strlit("pad_type");
    lemma_trimmed_already("pad_type"@);
    reveal_strlit("hide_stick");
    lemma_trimmed_already("hide_stick"@);
    reveal_strlit("keep_controller");
    lemma_trimmed_already("keep_controller"@);
    lemma_trimmed_already("enabled"@);
    lemma_trimmed_already("directions"@);
    lemma_trimmed_already("mode"@);
    lemma_trimmed_already("settle"@);
    lemma_trimmed_already("window0"@);
    lemma_trimmed_already("window1"@);
    lemma_trimmed_already("input_source"@);
    lemma_trimmed_already("hid_device"@);
}

/// A key that a line can hold.
spec fn plain(key: Seq<char>) -> bool {
    &&& !key.contains('\n')
    &&& !key.contains('=')
    &&& trim(key) == key
}

/// Settings within their bounds are loaded as they were saved, whatever the state
/// held before.
pub proof fn law_settings_are_kept(c: CfgView, before: CfgView)
    requires
        valid(c),
        before.window.len() == 2,
    ensures
        with_lines(before, lines_of(saved(c))) == c,
{
    lemma_keys();
    let e = Seq::<char>::empty();
    let l1 = setting_line("enabled"@, c.enabled);
    let l2 = setting_line("directions"@, c.directions);
    let l3 = setting_line("mode"@, c.mode);
    let l4 = setting_line("settle"@, c.settle);
    let l5 = setting_line("window0"@, c.window[0]);
    let l6 = setting_line("window1"@, c.window[1]);
    let t6 = l6 + seq!['\n'] + e;
    let t5 = l5 + seq!['\n'] + t6;
    let t4 = l4 + seq!['\n'] + t5;
    let t3 = l3 + seq!['\n'] + t4;
    let t2 = l2 + seq!['\n'] + t3;
    lemma_setting("enabled"@, c.enabled, t2);
    lemma_setting("directions"@, c.directions, t3);
    lemma_setting("mode"@, c.mode, t4);
    lemma_setting("settle"@, c.settle, t5);
    lemma_setting("window0"@, c.window[0], t6);
    lemma_setting("window1"@, c.window[1], e);
    lemma_no_lines();
    let ls = lines_of(saved(c));
    assert(ls =~= seq![l1, l2, l3, l4, l5, l6]);
    let b0 = before;
    let b1 = with_value(b0, "enabled"@, c.enabled as nat);
    let b2 = with_value(b1, "directions"@, c.directions as nat);
    let b3 = with_value(b2, "mode"@, c.mode as nat);
    let b4 = with_value(b3, "settle"@, c.settle as nat);
    let b5 = with_value(b4, "window0"@, c.window[0] as nat);
    let b6 = with_value(b5, "window1"@, c.window[1] as nat);
    lemma_six(before, ls);
    assert(with_lines(before, ls) == b6);
    lemma_distinct_keys();
    assert(b6 =~= c);
}

proof fn lemma_six(b: CfgView, ls: Seq<Seq<char>>)
    requires
        ls.len() == 6,
    ensures
        with_lines(b, ls) == with_line(
            with_line(
                with_line(with_line(with_line(with_line(b, ls[0]), ls[1]), ls[2]), ls[3]),
                ls[4],
            ),
            ls[5],
        ),
{
    let l5 = ls.drop_last();
    let l4 = l5.drop_last();
    let l3 = l4.drop_last();
    let l2 = l3.drop_last();
    let l1 = l2.drop_last();
    assert(l1.drop_last() =~= Seq::empty());
    assert(with_lines(b, l1.drop_last()) == b);
    assert(with_lines(b, l1) == with_line(b, ls[0]));
    assert(with_lines(b, l2) == with_line(with_lines(b, l1), ls[1]));
    assert(with_lines(b, l3) == with_line(with_lines(b, l2), ls[2]));
    assert(with_lines(b, l4) == with_line(with_lines(b, l3), ls[3]));
    assert(with_lines(b, l5) == with_line(with_lines(b, l4), ls[4]));
}

proof fn lemma_distinct_keys()
    ensures
        "directions"@ != "enabled"@,
        "mode"@ != "enabled"@ && "mode"@ != "directions"@,
        "settle"@ != "enabled"@ && "settle"@ != "directions"@ && "settle"@ != "mode"@,
        forall|k: Seq<char>|
            #![trigger starts(k, "window"@)]
            starts(k, "window"@) ==> k != "enabled"@ && k != "directions"@ && k != "mode"@ && k
                != "settle"@,
        starts("window0"@, "window"@) && starts("window1"@, "window"@),
        parse_unsigned("window0"@.subrange(6, "window0"@.len() as int), 1) == Some(0nat),
        parse_unsigned("window1"@.subrange(6, "window1"@.len() as int), 1) == Some(1nat),
{
    reveal_strlit("enabled");
    reveal_strlit("directions");
    reveal_strlit("mode");
    reveal_strlit("settle");
    reveal_strlit("window");
    reveal_strlit("window0");
    reveal_strlit("window1");
    assert("directions"@[0] == 'd' && "enabled"@[0] == 'e' && "mode"@[0] == 'm' && "settle"@[0]
        == 's');
    assert forall|k: Seq<char>| #[trigger] starts(k, "window"@) implies k != "enabled"@ && k
        != "directions"@ && k != "mode"@ && k != "settle"@ by {
        assert(k.subrange(0, 6)[0] == 'w');
        assert(k[0] == 'w');
    }
    assert("window0"@.subrange(0, 6) =~= "window"@);
    assert("window1"@.subrange(0, 6) =~= "window"@);
    assert(decimal(0) =~= "window0"@.subrange(6, 7));
    assert(decimal(1) =~= "window1"@.subrange(6, 7));
    law_decimal_reads_back(0);
    law_decimal_reads_back(1);
}

/// Lines that are applied one after another.
proof fn lemma_ui_lines_join(u: UiView, a: Seq<Seq<char>>, b: Seq<Seq<char>>)
    ensures
        ui_with_lines(u, a + b) == ui_with_lines(ui_with_lines(u, a), b),
    decreases b.len(),
{
    if b.len() == 0 {
        assert(a + b =~= a);
    } else {
        lemma_ui_lines_join(u, a, b.drop_last());
        assert((a + b).drop_last() =~= a + b.drop_last());
    }
}

/// One line before others is applied first.
proof fn lemma_ui_first(u: UiView, l: Seq<char>, rest: Seq<Seq<char>>)
    ensures
        ui_with_lines(u, seq![l] + rest) == ui_with_lines(ui_with_line(u, l), rest),
{
    lemma_ui_lines_join(u, seq![l], rest);
    assert(seq![l].drop_last() =~= Seq::empty());
    assert(ui_with_lines(u, seq![l].drop_last()) == u);
}

/// The line of a setting, where it is there, is applied before what follows it.
proof fn lemma_choice(u: UiView, key: Seq<char>, n: u32, rest: Seq<char>)
    requires
        plain(key),
        n <= 1,
    ensures
        n == 0 ==> ui_with_lines(u, lines_of(choice_line(key, n) + rest)) == ui_with_lines(
            u,
            lines_of(rest),
        ),
        n != 0 ==> ui_with_lines(u, lines_of(choice_line(key, n) + rest)) == ui_with_lines(
            ui_with_line(u, setting_line(key, n)),
            lines_of(rest),
        ),
        index_of(setting_line(key, n), '=') < setting_line(key, n).len(),
        trim(before(setting_line(key, n), '=')) == key,
        choice_of(trim(after(setting_line(key, n), '='))) == n,
{
    lemma_setting(key, n, rest);
    lemma_decimal_text(n as nat);
    if n == 0 {
        assert(choice_line(key, n) + rest =~= rest);
    } else {
        lemma_ui_first(u, setting_line(key, n), lines_of(rest));
    }
}

proof fn lemma_ui_keys_differ()
    ensures
        "hid_device"@ != "input_source"@,
        "pad_type"@ != "input_source"@ && "pad_type"@ != "hid_device"@,
        "hide_stick"@ != "input_source"@ && "hide_stick"@ != "hid_device"@ && "hide_stick"@
            != "pad_type"@,
        "keep_controller"@ != "input_source"@ && "keep_controller"@ != "hid_device"@
            && "keep_controller"@ != "pad_type"@ && "keep_controller"@ != "hide_stick"@,
{
    reveal_strlit("input_source");
    reveal_strlit("hid_device");
    reveal_strlit("pad_type");
    reveal_strlit("hide_stick");
    reveal_strlit("keep_controller");
    assert("input_source"@[0] == 'i' && "hid_device"@[0] == 'h' && "pad_type"@[0] == 'p'
        && "hide_stick"@[0] == 'h' && "keep_controller"@[0] == 'k');
    assert("hid_device"@[3] == '_' && "hide_stick"@[3] == 'e');
}

/// The interface's settings are loaded as they were saved. A path with a line feed in
/// it, or with white space at an end, would not be.
pub proof fn law_interface_settings_are_kept(u: UiView)
    requires
        u.input_source <= 1,
        u.pad_type <= 1,
        u.hide_stick <= 1,
        u.keep_controller <= 1,
        !u.hid_device.contains('\n'),
        trim(u.hid_device) == u.hid_device,
    ensures
        ui_with_lines(ui_default(), lines_of(ui_saved(u))) == u,
{
    lemma_keys();
    lemma_ui_keys_differ();
    let e = Seq::<char>::empty();
    let l1 = setting_line("input_source"@, u.input_source);
    let l2 = "hid_device"@ + seq!['='] + u.hid_device;
    let t5 = choice_line("keep_controller"@, u.keep_controller) + e;
    let t4 = choice_line("hide_stick"@, u.hide_stick) + t5;
    let t3 = choice_line("pad_type"@, u.pad_type) + t4;
    let t2 = l2 + seq!['\n'] + t3;
    lemma_setting("input_source"@, u.input_source, t2);
    lemma_decimal_text(u.input_source as nat);
    assert(!l2.contains('\n')) by {
        if l2.contains('\n') {
            let i = choose|i: int| 0 <= i < l2.len() && l2[i] == '\n';
            if i < "hid_device"@.len() {
                assert("hid_device"@[i] == '\n');
            } else if i > "hid_device"@.len() {
                assert(u.hid_device[i - "hid_device"@.len() - 1] == '\n');
            }
        }
    }
    lemma_first_line(l2, t3);
    lemma_no_lines();
    assert(crate::text::chomp(l2) == l2) by {
        if u.hid_device.len() > 0 {
            lemma_trim_ends(u.hid_device);
            assert(l2.last() == u.hid_device.last());
        } else {
            reveal_strlit("hid_device");
        }
    }
    lemma_key_and_value("hid_device"@, u.hid_device, '=');
    let u1 = ui_with_line(ui_default(), l1);
    let u2 = ui_with_line(u1, l2);
    let u3 = UiView { pad_type: u.pad_type, ..u2 };
    let u4 = UiView { hide_stick: u.hide_stick, ..u3 };
    let u5 = UiView { keep_controller: u.keep_controller, ..u4 };
    lemma_ui_first(ui_default(), l1, lines_of(t2));
    lemma_ui_first(u1, l2, lines_of(t3));
    lemma_choice(u2, "pad_type"@, u.pad_type, t4);
    lemma_choice(u3, "hide_stick"@, u.hide_stick, t5);
    lemma_choice(u4, "keep_controller"@, u.keep_controller, e);
    assert(ui_with_lines(ui_default(), lines_of(ui_saved(u))) == ui_with_lines(u1, lines_of(t2)));
    assert(ui_with_lines(u1, lines_of(t2)) == ui_with_lines(u2, lines_of(t3)));
    assert(u.pad_type == 0 ==> u3 =~= u2);
    assert(u.hide_stick == 0 ==> u4 =~= u3);
    assert(u.keep_controller == 0 ==> u5 =~= u4);
    assert(ui_with_lines(u2, lines_of(t3)) == ui_with_lines(u3, lines_of(t4)));
    assert(ui_with_lines(u3, lines_of(t4)) == ui_with_lines(u4, lines_of(t5)));
    assert(ui_with_lines(u4, lines_of(t5)) == ui_with_lines(u5, lines_of(e)));
    assert(u5 =~= u);
}

proof fn lemma_trim_ends(s: Seq<char>)
    requires
        s.len() > 0,
        trim(s) == s,
    ensures
        !crate::text::is_space(s.last()),
{
    let t = crate::text::trim_start(s);
    lemma_trim_start_len(s);
    lemma_trim_end_len(t);
    if crate::text::is_space(t.last()) {
        lemma_trim_end_len(t.drop_last());
    }
    if crate::text::is_space(s[0]) {
        lemma_trim_start_len(s.subrange(1, s.len() as int));
    }
}

proof fn lemma_trim_start_len(s: Seq<char>)
    ensures
        crate::text::trim_start(s).len() <= s.len(),
    decreases s.len(),
{
    if s.len() > 0 && crate::text::is_space(s[0]) {
        lemma_trim_start_len(s.subrange(1, s.len() as int));
    }
}

proof fn lemma_trim_end_len(s: Seq<char>)
    ensures
        crate::text::trim_end(s).len() <= s.len(),
    decreases s.len(),
{
    if s.len() > 0 && crate::text::is_space(s.last()) {
        lemma_trim_end_len(s.drop_last());
    }
}

/// Whatever a file says, the settings stay within their bounds.
pub proof fn law_no_line_breaks_the_bounds(c: CfgView, line: Seq<char>)
    requires
        valid(c),
    ensures
        valid(with_line(c, line)),
{
    let k = trim(before(line, '='));
    if starts(k, "window"@) {
        let rest = k.subrange(6, k.len() as int);
        if parse_unsigned(rest, 1) is Some {
            let i = parse_unsigned(rest, 1)->0;
            assert(i <= 1);
        }
    }
}

/// A value above its bound is taken as the bound, and one within it as it is: 1 for the
/// switches, 2 for the mode, 3 for the settling time, and 1 to 16 for a window, each of which
/// is named by its player.
pub proof fn law_values_are_cut_to_their_bounds(c: CfgView, n: nat)
    requires
        valid(c),
    ensures
        with_value(c, "enabled"@, n) == (CfgView {
            enabled: if n == 0 {
                0
            } else {
                1
            },
            ..c
        }),
        with_value(c, "directions"@, n) == (CfgView {
            directions: if n == 0 {
                0
            } else {
                1
            },
            ..c
        }),
        with_value(c, "mode"@, n) == (CfgView {
            mode: if n <= 2 {
                n as u32
            } else {
                2
            },
            ..c
        }),
        with_value(c, "settle"@, n) == (CfgView {
            settle: if n <= 3 {
                n as u32
            } else {
                3
            },
            ..c
        }),
        1 <= n <= 16 ==> window_of(n) == n,
        n == 0 ==> window_of(n) == 1,
        n >= 16 ==> window_of(n) == 16,
        with_value(c, "window0"@, n) == (CfgView { window: seq![window_of(n), c.window[1]], ..c }),
        with_value(c, "window1"@, n) == (CfgView { window: seq![c.window[0], window_of(n)], ..c }),
{
    lemma_keys();
    reveal_strlit("enabled");
    reveal_strlit("directions");
    reveal_strlit("mode");
    reveal_strlit("settle");
    reveal_strlit("window");
    reveal_strlit("window0");
    reveal_strlit("window1");
    let (a, b) = ("window0"@, "window1"@);
    assert(a[0] == 'w' && b[0] == 'w' && "enabled"@[0] == 'e');
    assert(a.subrange(0, 6) =~= "window"@);
    assert(b.subrange(0, 6) =~= "window"@);
    assert(a.subrange(6, 7) =~= decimal(0));
    assert(b.subrange(6, 7) =~= decimal(1));
    crate::text::law_unsigned_numbers_have_a_limit(0, 1);
    crate::text::law_unsigned_numbers_have_a_limit(1, 1);
    assert(c.window.update(0, window_of(n)) =~= seq![window_of(n), c.window[1]]);
    assert(c.window.update(1, window_of(n)) =~= seq![c.window[0], window_of(n)]);
}

} // verus!
