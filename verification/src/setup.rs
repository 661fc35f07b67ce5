//! Setting up the virtual controller, and taking everything off the machine again.

use crate::controller::{hid_steps, package_of, setup_hid, setup_xinput, xinput_steps, SetupStep};
use crate::gameinstall::strings;
use crate::sync_service::{mode_of, PadType};
use crate::text::{
    chars_of, decimal, is_hex, lines, lines_of, put, put_number, string_of, texts,
};
use vstd::prelude::*;
use vstd::string::StringExecFns;

verus! {

/// The driver package of a pad.
pub fn inf_name(mode: PadType) -> (r: &'static str)
    ensures
        r@ == package_of(mode_of(mode)),
{
    match mode {
        PadType::Hid => "hidmaestro.inf",
        PadType::Xinput => "hidmaestro_xusb.inf",
    }
}

/// The steps that set up a pad.
pub open spec fn steps_of(mode: PadType) -> Seq<SetupStep> {
    match mode {
        PadType::Hid => hid_steps(),
        PadType::Xinput => xinput_steps(),
    }
}

/// The steps that set up a pad, where the driver bundle in `dir` has its package and
/// its certificate. No task is registered: that is the user's to ask for.
pub fn run_setup(mode: PadType, inf: bool, cer: bool, dir: &str) -> (r: Result<
    Vec<SetupStep>,
    String,
>)
    ensures
        r is Ok <==> inf && cer,
        r matches Ok(steps) ==> steps@ == steps_of(mode),
        r matches Err(e) ==> e@ == "driver bundle missing in "@ + dir@,
{
    if !inf || !cer {
        let mut out: Vec<char> = chars_of("driver bundle missing in ");
        put(&mut out, dir);
        return Err(string_of(&out));
    }
    match mode {
        PadType::Hid => Ok(setup_hid()),
        PadType::Xinput => Ok(setup_xinput()),
    }
}

/// The text of an outcome.
pub open spec fn outcome_words(error: Option<Seq<char>>) -> Seq<char> {
    match error {
        Some(e) => "FAILED: "@ + e,
        None => "OK"@,
    }
}

/// A text, if there is one.
pub open spec fn text_in(t: Option<&str>) -> Option<Seq<char>> {
    match t {
        Some(s) => Some(s@),
        None => None,
    }
}

/// The line that the setup leaves in its log.
pub fn setup_line(mode: PadType, error: Option<&str>) -> (r: String)
    ensures
        r@ == "run_setup ("@ + package_of(mode_of(mode)) + "): "@ + outcome_words(text_in(error))
            + "\n"@,
{
    let mut out: Vec<char> = chars_of("run_setup (");
    put(&mut out, inf_name(mode));
    put(&mut out, "): ");
    match error {
        Some(e) => {
            put(&mut out, "FAILED: ");
            put(&mut out, e);
        },
        None => {
            put(&mut out, "OK");
        },
    }
    put(&mut out, "\n");
    assert(out@ =~= "run_setup ("@ + package_of(mode_of(mode)) + "): "@ + outcome_words(
        text_in(error),
    ) + "\n"@);
    string_of(&out)
}

/// Whether the pads may be removed, which wants elevation.
pub fn eject(elevated: bool) -> (r: Result<(), &'static str>)
    ensures
        r is Ok <==> elevated,
        r matches Err(e) ==> e@ == "eject requires elevation"@,
{
    if elevated {
        Ok(())
    } else {
        Err("eject requires elevation")
    }
}

/// `s` without its blanks.
pub open spec fn without_blanks(s: Seq<char>) -> Seq<char>
    decreases s.len(),
{
    if s.len() == 0 {
        s
    } else if s.last() == ' ' {
        without_blanks(s.drop_last())
    } else {
        without_blanks(s.drop_last()).push(s.last())
    }
}

/// Forty hexadecimal digits.
pub open spec fn is_thumbprint(s: Seq<char>) -> bool {
    s.len() == 40 && forall|i: int| 0 <= i < s.len() ==> is_hex(#[trigger] s[i])
}

fn hex_digit(c: char) -> (r: bool)
    ensures
        r == is_hex(c),
{
    (c >= '0' && c <= '9') || (c >= 'a' && c <= 'f') || (c >= 'A' && c <= 'F')
}

fn unblanked(v: &Vec<char>) -> (r: Vec<char>)
    ensures
        r@ == without_blanks(v@),
{
    let mut r: Vec<char> = Vec::new();
    let mut i: usize = 0;
    assert(v@.take(0) =~= Seq::empty());
    assert(r@ =~= without_blanks(v@.take(0)));
    while i < v.len()
        invariant
            i <= v@.len(),
            r@ == without_blanks(v@.take(i as int)),
        decreases v@.len() - i,
    {
        if v[i] != ' ' {
            r.push(v[i]);
        }
        i += 1;
        assert(v@.take(i as int).drop_last() =~= v@.take(i - 1));
        assert(v@.take(i as int).last() == v@[i - 1]);
    }
    assert(v@.take(i as int) =~= v@);
    r
}

fn thumbprint(v: &Vec<char>) -> (r: bool)
    ensures
        r == is_thumbprint(v@),
{
    if v.len() != 40 {
        return false;
    }
    let mut i: usize = 0;
    while i < v.len()
        invariant
            i <= v@.len(),
            forall|j: int| 0 <= j < i ==> is_hex(#[trigger] v@[j]),
        decreases v@.len() - i,
    {
        if !hex_digit(v[i]) {
            return false;
        }
        i += 1;
    }
    true
}

/// A line of the hash tool's output that is a thumbprint, blanks aside.
pub open spec fn is_hash_line(line: Seq<char>) -> bool {
    is_thumbprint(without_blanks(line))
}

/// The thumbprint of a certificate in the hash tool's output: the first line of forty
/// hexadecimal digits. The other lines are in the machine's language.
pub fn cert_thumbprint(output: &str) -> (r: Option<String>)
    ensures
        r is None <==> forall|i: int|
            0 <= i < lines_of(output@).len() ==> !is_hash_line(#[trigger] lines_of(output@)[i]),
        r matches Some(t) ==> exists|k: int|
            {
                &&& 0 <= k < lines_of(output@).len()
                &&& is_hash_line(#[trigger] lines_of(output@)[k])
                &&& t@ == without_blanks(lines_of(output@)[k])
                &&& forall|i: int| 0 <= i < k ==> !is_hash_line(#[trigger] lines_of(output@)[i])
            },
{
    let ls: Vec<Vec<char>> = lines(&chars_of(output));
    let ghost all = lines_of(output@);
    assert(texts(ls@) == all);
    let mut i: usize = 0;
    while i < ls.len()
        invariant
            i <= ls@.len(),
            all == lines_of(output@),
            texts(ls@) == all,
            all.len() == ls@.len(),
            forall|j: int| 0 <= j < i ==> !is_hash_line(#[trigger] all[j]),
        decreases ls@.len() - i,
    {
        let l: Vec<char> = unblanked(&ls[i]);
        assert(texts(ls@)[i as int] == ls@[i as int]@);
        if thumbprint(&l) {
            assert(is_hash_line(all[i as int]));
            return Some(string_of(&l));
        }
        i += 1;
    }
    None
}

/// Something of the virtual controller is left.
pub open spec fn is_left(device: bool, hid: bool, xusb: bool, task: bool) -> bool {
    device || hid || xusb || task
}

/// Whether anything of the virtual controller is still on the machine: a device, one
/// of its two driver packages, or the task at logon.
pub fn legacy_stack_present(device: bool, hid: bool, xusb: bool, task: bool) -> (r: bool)
    ensures
        r == is_left(device, hid, xusb, task),
{
    device || hid || xusb || task
}

/// A step of the removal.
#[derive(Clone, Copy, Debug, PartialEq, Eq, Structural)]
pub enum RemovalStep {
    /// Take the cloak off the player's stick.
    CloakOff,
    /// Show the stick that was hidden.
    Unhide,
    /// Bring the virtual pad to neutral.
    ReleasePad,
    /// Remove the devices.
    RemoveDevices,
    /// Remove the task at logon.
    RemoveTask,
    /// Remove the driver packages.
    RemovePackages,
    /// Remove the certificate from both of its stores.
    RemoveCertificate,
    /// Remove the settings.
    RemoveSettings,
}

/// The steps of the removal. The stick is shown first: with the program gone, nothing
/// would explain why games cannot see it. Every step is tried whatever became of the
/// others.
pub open spec fn removal_steps(hidden: bool, elevated: bool, settings: bool) -> Seq<RemovalStep> {
    let a = seq![RemovalStep::CloakOff];
    let b = if hidden {
        a.push(RemovalStep::Unhide)
    } else {
        a
    };
    let c = b.push(RemovalStep::ReleasePad);
    let d = if elevated {
        c.push(RemovalStep::RemoveDevices)
    } else {
        c
    };
    let e = d.push(RemovalStep::RemoveTask).push(RemovalStep::RemovePackages).push(
        RemovalStep::RemoveCertificate,
    );
    if settings {
        e.push(RemovalStep::RemoveSettings)
    } else {
        e
    }
}

/// The steps of the removal, given whether a stick was hidden, whether the program is
/// elevated, and whether there is a place for settings.
pub fn uninstall_everything(hidden: bool, elevated: bool, settings: bool) -> (r: Vec<RemovalStep>)
    ensures
        r@ == removal_steps(hidden, elevated, settings),
{
    let mut r: Vec<RemovalStep> = Vec::new();
    r.push(RemovalStep::CloakOff);
    if hidden {
        r.push(RemovalStep::Unhide);
    }
    r.push(RemovalStep::ReleasePad);
    if elevated {
        r.push(RemovalStep::RemoveDevices);
    }
    r.push(RemovalStep::RemoveTask);
    r.push(RemovalStep::RemovePackages);
    r.push(RemovalStep::RemoveCertificate);
    if settings {
        r.push(RemovalStep::RemoveSettings);
    }
    assert(r@ =~= removal_steps(hidden, elevated, settings));
    r
}

/// What became of the removal.
#[derive(Debug)]
pub struct Removal {
    pub devices: u32,
    /// What went wrong with the task, if something did.
    pub task_error: Option<String>,
    pub packages: u32,
    /// Whether the certificate was in each of its two stores; `None` where it could
    /// not be told which one it is.
    pub certificate: Option<(bool, bool)>,
    /// Whether there were settings; `None` where there is no place for them.
    pub settings: Option<bool>,
}

/// The words for a certificate store.
pub open spec fn store_words(store: Seq<char>, there: bool) -> Seq<char> {
    "cert "@ + store + ": "@ + (if there {
        "removed"@
    } else {
        "not found"@
    }) + "\n"@
}

/// The words for the task.
pub open spec fn task_words(error: Option<String>) -> Seq<char> {
    match error {
        Some(e) => "logon task: "@ + e@ + "\n"@,
        None => "logon task: removed\n"@,
    }
}

/// The words for the certificate.
pub open spec fn certificate_words(c: Option<(bool, bool)>) -> Seq<char> {
    match c {
        Some((root, publisher)) => store_words("Root"@, root) + store_words(
            "TrustedPublisher"@,
            publisher,
        ),
        None => "cert: thumbprint unreadable, NOT removed\n"@,
    }
}

/// The words for the settings.
pub open spec fn settings_words(s: Option<bool>) -> Seq<char> {
    match s {
        Some(true) => "settings: removed\n"@,
        Some(false) => "settings: none\n"@,
        None => Seq::empty(),
    }
}

/// A count in words.
pub open spec fn count_words(what: Seq<char>, n: u32) -> Seq<char> {
    what + ": "@ + decimal(n as nat) + "\n"@
}

/// The log of a removal.
pub open spec fn removal_log(r: Removal) -> Seq<char> {
    "hidhide: cloak cleared\n"@ + count_words("devnodes removed"@, r.devices) + task_words(
        r.task_error,
    ) + count_words("driver packages removed"@, r.packages) + certificate_words(r.certificate)
        + settings_words(r.settings)
}

fn put_store(out: &mut Vec<char>, store: &str, there: bool)
    ensures
        final(out)@ == old(out)@ + store_words(store@, there),
{
    put(out, "cert ");
    put(out, store);
    put(out, ": ");
    if there {
        put(out, "removed");
    } else {
        put(out, "not found");
    }
    put(out, "\n");
    assert(out@ =~= old(out)@ + store_words(store@, there));
}

fn put_count(out: &mut Vec<char>, what: &str, n: u32)
    ensures
        final(out)@ == old(out)@ + count_words(what@, n),
{
    put(out, what);
    put(out, ": ");
    put_number(out, n as u64);
    put(out, "\n");
    assert(out@ =~= old(out)@ + count_words(what@, n));
}

fn put_task(out: &mut Vec<char>, error: &Option<String>)
    ensures
        final(out)@ == old(out)@ + task_words(*error),
{
    match error {
        Some(e) => {
            put(out, "logon task: ");
            put(out, e.as_str());
            put(out, "\n");
        },
        None => {
            put(out, "logon task: removed\n");
        },
    }
    assert(out@ =~= old(out)@ + task_words(*error));
}

fn put_certificate(out: &mut Vec<char>, c: Option<(bool, bool)>)
    ensures
        final(out)@ == old(out)@ + certificate_words(c),
{
    match c {
        Some((root, publisher)) => {
            put_store(out, "Root", root);
            put_store(out, "TrustedPublisher", publisher);
        },
        None => {
            put(out, "cert: thumbprint unreadable, NOT removed\n");
        },
    }
    assert(out@ =~= old(out)@ + certificate_words(c));
}

fn put_settings(out: &mut Vec<char>, s: Option<bool>)
    ensures
        final(out)@ == old(out)@ + settings_words(s),
{
    match s {
        Some(true) => {
            put(out, "settings: removed\n");
        },
        Some(false) => {
            put(out, "settings: none\n");
        },
        None => {},
    }
    assert(out@ =~= old(out)@ + settings_words(s));
}

/// The log that a removal leaves.
pub fn uninstall_log(r: &Removal) -> (log: String)
    ensures
        log@ == removal_log(*r),
{
    let mut out: Vec<char> = chars_of("hidhide: cloak cleared\n");
    put_count(&mut out, "devnodes removed", r.devices);
    put_task(&mut out, &r.task_error);
    put_count(&mut out, "driver packages removed", r.packages);
    put_certificate(&mut out, r.certificate);
    put_settings(&mut out, r.settings);
    string_of(&out)
}

/// Whatever else is removed, the player's stick is shown first.
pub proof fn law_the_stick_is_shown_first(hidden: bool, elevated: bool, settings: bool)
    ensures
        removal_steps(hidden, elevated, settings)[0] == RemovalStep::CloakOff,
        hidden ==> removal_steps(hidden, elevated, settings)[1] == RemovalStep::Unhide,
        removal_steps(hidden, elevated, settings).contains(RemovalStep::Unhide) ==> hidden,
        removal_steps(hidden, elevated, settings).contains(RemovalStep::RemoveDevices)
            ==> elevated,
{
}

/// The argument with which the program starts itself anew, elevated, to set up a pad.
pub fn relaunch_elevated_for_setup(mode: PadType) -> (r: &'static str)
    ensures
        r@ == (match mode {
            PadType::Hid => "--setup-hid"@,
            PadType::Xinput => "--setup-xinput"@,
        }),
{
    match mode {
        PadType::Hid => "--setup-hid",
        PadType::Xinput => "--setup-xinput",
    }
}

/// The argument with which the program starts itself anew, elevated, to remove the pad.
pub fn relaunch_elevated_for_eject() -> (r: &'static str)
    ensures
        r@ == "--eject"@,
{
    "--eject"
}

/// The argument with which the program starts itself anew, elevated, to take down what
/// an installation of the virtual pad has left.
pub fn relaunch_elevated_for_legacy_removal() -> (r: &'static str)
    ensures
        r@ == "--remove-legacy"@,
{
    "--remove-legacy"
}

/// Whether the shell has started the elevated program: its answer is above 32. At or
/// below, the prompt failed or was declined.
pub fn relaunched(answer: isize) -> (r: bool)
    ensures
        r == (answer > 32),
{
    answer > 32
}

/// The name of the task at logon.
pub fn task_name() -> (r: &'static str)
    ensures
        r@ == "NOBD Controller (elevated)"@,
{
    "NOBD Controller (elevated)"
}

/// The command line that registers the task: at logon, elevated, hidden in the tray.
pub open spec fn task_command(exe: Seq<char>) -> Seq<Seq<char>> {
    seq![
        "/Create"@,
        "/TN"@,
        "NOBD Controller (elevated)"@,
        "/SC"@,
        "ONLOGON"@,
        "/RL"@,
        "HIGHEST"@,
        "/TR"@,
        "\""@ + exe + "\" --tray"@,
        "/F"@,
    ]
}

/// The arguments that register the task for `exe`. To register it again points it at
/// the program of today.
pub fn register_login_task(exe: &str) -> (r: Vec<String>)
    ensures
        strings(r@) == task_command(exe@),
{
    let mut r: Vec<String> = Vec::new();
    r.push(String::from_str("/Create"));
    r.push(String::from_str("/TN"));
    r.push(String::from_str(task_name()));
    r.push(String::from_str("/SC"));
    r.push(String::from_str("ONLOGON"));
    r.push(String::from_str("/RL"));
    r.push(String::from_str("HIGHEST"));
    r.push(String::from_str("/TR"));
    let mut cmd: Vec<char> = chars_of("\"");
    put(&mut cmd, exe);
    put(&mut cmd, "\" --tray");
    r.push(string_of(&cmd));
    r.push(String::from_str("/F"));
    assert(strings(r@) =~= task_command(exe@));
    r
}

/// The arguments that ask for the task.
pub fn login_task_present() -> (r: Vec<String>)
    ensures
        strings(r@) == seq!["/Query"@, "/TN"@, "NOBD Controller (elevated)"@],
{
    let mut r: Vec<String> = Vec::new();
    r.push(String::from_str("/Query"));
    r.push(String::from_str("/TN"));
    r.push(String::from_str(task_name()));
    assert(strings(r@) =~= seq!["/Query"@, "/TN"@, "NOBD Controller (elevated)"@]);
    r
}

/// The arguments that remove the task.
pub fn unregister_login_task() -> (r: Vec<String>)
    ensures
        strings(r@) == seq!["/Delete"@, "/TN"@, "NOBD Controller (elevated)"@, "/F"@],
{
    let mut r: Vec<String> = Vec::new();
    r.push(String::from_str("/Delete"));
    r.push(String::from_str("/TN"));
    r.push(String::from_str(task_name()));
    r.push(String::from_str("/F"));
    assert(strings(r@) =~= seq!["/Delete"@, "/TN"@, "NOBD Controller (elevated)"@, "/F"@]);
    r
}

/// Taking out the blanks keeps everything else, in its order; a thumbprint reads the same
/// however it is spaced.
pub proof fn law_blanks_say_nothing(s: Seq<char>, a: Seq<char>, b: Seq<char>)
    ensures
        without_blanks(s) == s.filter(|c: char| c != ' '),
        !without_blanks(s).contains(' '),
        without_blanks(a + b) == without_blanks(a) + without_blanks(b),
        is_hash_line(a + seq![' '] + b) == is_hash_line(a + b),
{
    lemma_blanks(s);
    lemma_blanks_join(a, b);
    lemma_blanks_join(a, seq![' ']);
    lemma_blanks_join(a + seq![' '], b);
    assert(seq![' '].drop_last() =~= Seq::<char>::empty());
    assert(seq![' '].last() == ' ');
    assert(without_blanks(Seq::<char>::empty()) == Seq::<char>::empty());
    assert(without_blanks(seq![' ']) == Seq::<char>::empty());
    assert(without_blanks(a) + Seq::<char>::empty() =~= without_blanks(a));
}

proof fn lemma_blanks(s: Seq<char>)
    ensures
        without_blanks(s) == s.filter(|c: char| c != ' '),
        !without_blanks(s).contains(' '),
    decreases s.len(),
{
    reveal(Seq::filter);
    if s.len() > 0 {
        lemma_blanks(s.drop_last());
        let h = without_blanks(s.drop_last());
        let r = without_blanks(s);
        if r.contains(' ') {
            let i = choose|i: int| 0 <= i < r.len() && r[i] == ' ';
            assert(h[i] == ' ');
        }
    } else {
        assert(s.filter(|c: char| c != ' ') =~= s);
    }
}

proof fn lemma_blanks_join(a: Seq<char>, b: Seq<char>)
    ensures
        without_blanks(a + b) == without_blanks(a) + without_blanks(b),
    decreases b.len(),
{
    if b.len() == 0 {
        assert(a + b =~= a);
        assert(without_blanks(a) + without_blanks(b) =~= without_blanks(a));
    } else {
        lemma_blanks_join(a, b.drop_last());
        assert((a + b).drop_last() =~= a + b.drop_last());
        assert(without_blanks(a + b) =~= without_blanks(a) + without_blanks(b));
    }
}

/// The removal shows the stick before anything else, and lets the pad go before it removes the
/// devices, and those before the packages that drive them. Devices are removed where the
/// program may, a hidden stick is shown, settings go where there is a place for them, and the
/// rest is always done.
pub proof fn law_the_order_of_the_removal(hidden: bool, elevated: bool, settings: bool)
    ensures
        ({
            let r = removal_steps(hidden, elevated, settings);
            &&& r[0] is CloakOff
            &&& hidden <==> r[1] is Unhide
            &&& r.contains(RemovalStep::RemoveDevices) <==> elevated
            &&& r.contains(RemovalStep::RemoveSettings) <==> settings
            &&& exists|i: int, j: int, k: int|
                0 < i < j < k < r.len() && (#[trigger] r[i]) is ReleasePad && (#[trigger] r[j]) is RemoveTask
                    && (#[trigger] r[k]) is RemovePackages
            &&& forall|i: int, j: int|
                0 <= i < r.len() && 0 <= j < r.len() && (#[trigger] r[i]) is RemoveDevices && (
                #[trigger] r[j]) is RemovePackages ==> i < j
            &&& forall|i: int, j: int|
                0 <= i < r.len() && 0 <= j < r.len() && (#[trigger] r[i]) is ReleasePad && (
                #[trigger] r[j]) is RemoveDevices ==> i < j
            &&& r.contains(RemovalStep::RemoveCertificate)
        }),
{
    let r = removal_steps(hidden, elevated, settings);
    let i: int = if hidden {
        2
    } else {
        1
    };
    let j: int = if elevated {
        i + 2
    } else {
        i + 1
    };
    assert(r[i] is ReleasePad && r[j] is RemoveTask && r[j + 1] is RemovePackages && r[j + 2] is RemoveCertificate);
    assert(r[j + 2] == RemovalStep::RemoveCertificate);
    if elevated {
        assert(r[i + 1] == RemovalStep::RemoveDevices);
    }
    if settings {
        assert(r[j + 3] == RemovalStep::RemoveSettings);
    }
}

/// The machine is clean exactly where nothing is left of any kind.
pub proof fn law_clean_means_nothing_left(device: bool, hid: bool, xusb: bool, task: bool)
    ensures
        !is_left(device, hid, xusb, task) <==> !device && !hid && !xusb && !task,
{
}

} // verus!
