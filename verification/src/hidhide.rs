//! Hiding the player's stick from games while its virtual twin is in use, through
//! the command line of the HidHide filter driver.

use crate::gameinstall::strings;
use crate::text::{chars_of, cut, find_from, find_text, put, starts, starts_with, string_of};
use vstd::prelude::*;
use vstd::string::StringExecFns;

verus! {

/// The places of the command line tool under the folder of programs. The maker's
/// folder has had several names.
pub open spec fn cli_places(pf: Seq<char>) -> Seq<Seq<char>> {
    seq![
        pf + "\\Nefarius Software Solutions\\HidHide\\x64\\HidHideCLI.exe"@,
        pf + "\\Nefarius Software Solutions e.U\\HidHide\\x64\\HidHideCLI.exe"@,
        pf + "\\Nefarius Software Solutions e.U.\\HidHide\\x64\\HidHideCLI.exe"@,
    ]
}

/// The places to look for the command line tool, in order.
pub fn cli_path(pf: &str) -> (r: Vec<String>)
    ensures
        strings(r@) == cli_places(pf@),
{
    let mut r: Vec<String> = Vec::new();
    let mut a: Vec<char> = chars_of(pf);
    put(&mut a, "\\Nefarius Software Solutions\\HidHide\\x64\\HidHideCLI.exe");
    r.push(string_of(&a));
    let mut b: Vec<char> = chars_of(pf);
    put(&mut b, "\\Nefarius Software Solutions e.U\\HidHide\\x64\\HidHideCLI.exe");
    r.push(string_of(&b));
    let mut c: Vec<char> = chars_of(pf);
    put(&mut c, "\\Nefarius Software Solutions e.U.\\HidHide\\x64\\HidHideCLI.exe");
    r.push(string_of(&c));
    assert(strings(r@) =~= cli_places(pf@));
    r
}

/// `s` without any `p` at its start, however often it stands there.
pub open spec fn without_start(s: Seq<char>, p: Seq<char>) -> Seq<char>
    decreases s.len(),
{
    if p.len() > 0 && starts(s, p) {
        without_start(s.skip(p.len() as int), p)
    } else {
        s
    }
}

/// `s` with a backslash for every hash.
pub open spec fn with_backslashes(s: Seq<char>) -> Seq<char> {
    Seq::new(
        s.len(),
        |i: int|
            if s[i] == '#' {
                '\\'
            } else {
                s[i]
            },
    )
}

/// The part of an interface path that names the device: without the prefix, and up to
/// the class.
pub open spec fn device_part(path: Seq<char>) -> Seq<char> {
    let s = without_start(without_start(path, "\\\\?\\"@), "\\\\.\\"@);
    let k = find_from(s, "#{"@, 0);
    if k == -1 {
        s
    } else {
        s.subrange(0, k)
    }
}

/// The instance of an interface path, if it names a device.
pub open spec fn instance_of(path: Seq<char>) -> Option<Seq<char>> {
    if device_part(path).len() == 0 {
        None
    } else {
        Some(with_backslashes(device_part(path)))
    }
}

fn unprefixed(v: &Vec<char>, p: &str) -> (r: Vec<char>)
    requires
        p@.len() == 4,
    ensures
        r@ == without_start(v@, p@),
{
    let mut s: Vec<char> = cut(v, 0, v.len());
    assert(s@ =~= v@);
    while starts_with(&s, p)
        invariant
            p@.len() == 4,
            without_start(s@, p@) == without_start(v@, p@),
        decreases s@.len(),
    {
        let n: usize = s.len();
        let ghost before = s@;
        s = cut(&s, 4, n);
        assert(s@ =~= before.skip(4));
    }
    s
}

/// The device instance of an interface path:
/// `\\?\HID#VID_x&PID_y#7&ab&0&0000#{class}` is `HID\VID_x&PID_y\7&ab&0&0000`.
pub fn interface_to_instance(path: &str) -> (r: Option<String>)
    ensures
        r is Some <==> instance_of(path@) is Some,
        r matches Some(i) ==> Some(i@) == instance_of(path@),
{
    proof {
        reveal_strlit("\\\\?\\");
        reveal_strlit("\\\\.\\");
    }
    let s: Vec<char> = unprefixed(&unprefixed(&chars_of(path), "\\\\?\\"), "\\\\.\\");
    let core: Vec<char> = match find_text(&s, &chars_of("#{"), 0) {
        Some(k) => cut(&s, 0, k),
        None => s,
    };
    if core.len() == 0 {
        return None;
    }
    let mut out: Vec<char> = Vec::new();
    let mut i: usize = 0;
    while i < core.len()
        invariant
            i <= core@.len(),
            out@ == with_backslashes(core@.take(i as int)),
        decreases core@.len() - i,
    {
        if core[i] == '#' {
            out.push('\\');
        } else {
            out.push(core[i]);
        }
        i += 1;
        assert(out@ =~= with_backslashes(core@.take(i as int)));
    }
    assert(core@.take(i as int) =~= core@);
    Some(string_of(&out))
}

fn two(a: &str, b: &str) -> (r: Vec<String>)
    ensures
        strings(r@) == seq![a@, b@],
{
    let mut r: Vec<String> = Vec::new();
    r.push(String::from_str(a));
    r.push(String::from_str(b));
    assert(strings(r@) =~= seq![a@, b@]);
    r
}

/// The command that lets this program see hidden devices.
pub fn whitelist_self(exe: &str) -> (r: Vec<String>)
    ensures
        strings(r@) == seq!["--app-reg"@, exe@],
{
    two("--app-reg", exe)
}

/// The command that hides a device, by its interface path.
pub fn hide_device(interface_path: &str) -> (r: Result<Vec<String>, &'static str>)
    ensures
        r is Ok <==> instance_of(interface_path@) is Some,
        r matches Ok(args) ==> strings(args@) == seq![
            "--dev-hide"@,
            instance_of(interface_path@)->0,
        ],
        r matches Err(e) ==> e@ == "bad device path"@,
{
    match interface_to_instance(interface_path) {
        Some(i) => Ok(two("--dev-hide", i.as_str())),
        None => Err("bad device path"),
    }
}

/// The command that shows a device again.
pub fn unhide_device(interface_path: &str) -> (r: Result<Vec<String>, &'static str>)
    ensures
        r is Ok <==> instance_of(interface_path@) is Some,
        r matches Ok(args) ==> strings(args@) == seq![
            "--dev-unhide"@,
            instance_of(interface_path@)->0,
        ],
        r matches Err(e) ==> e@ == "bad device path"@,
{
    match interface_to_instance(interface_path) {
        Some(i) => Ok(two("--dev-unhide", i.as_str())),
        None => Err("bad device path"),
    }
}

/// The command that puts the cloak on or off: while it is on, hidden devices are
/// hidden.
pub fn cloak(on: bool) -> (r: &'static str)
    ensures
        r@ == if on {
            "--cloak-on"@
        } else {
            "--cloak-off"@
        },
{
    if on {
        "--cloak-on"
    } else {
        "--cloak-off"
    }
}

/// The commands that give a stick back, each to be tried whatever became of the one
/// before: the cloak off, then the device shown.
pub fn release(interface_path: &str) -> (r: Vec<Vec<String>>)
    ensures
        r@.len() == if instance_of(interface_path@) is Some {
            2nat
        } else {
            1nat
        },
        strings(r@[0]@) == seq!["--cloak-off"@],
        instance_of(interface_path@) matches Some(i) ==> strings(r@[1]@) == seq![
            "--dev-unhide"@,
            i,
        ],
{
    let mut first: Vec<String> = Vec::new();
    first.push(String::from_str(cloak(false)));
    assert(strings(first@) =~= seq!["--cloak-off"@]);
    let mut r: Vec<Vec<String>> = Vec::new();
    r.push(first);
    match unhide_device(interface_path) {
        Ok(args) => {
            r.push(args);
        },
        Err(_) => {},
    }
    r
}

/// A device instance is never empty, and has no hash left in it.
pub proof fn law_instances_have_no_hash(path: Seq<char>)
    ensures
        instance_of(path) matches Some(i) ==> i.len() > 0 && !i.contains('#'),
{
}

/// The interface path of a device reads as the device: the path of `d` has a hash for every
/// backslash, a prefix before it and a class behind it.
pub proof fn law_an_interface_path_reads_as_its_device(d: Seq<char>, class: Seq<char>)
    requires
        d.len() > 0,
        d[0] != '\\',
        !d.contains('#') && !d.contains('{'),
    ensures
        instance_of("\\\\?\\"@ + hashed(d) + "#{"@ + class) == Some(d),
{
    reveal_strlit("\\\\?\\");
    reveal_strlit("\\\\.\\");
    reveal_strlit("#{");
    let h = hashed(d);
    let (p, q) = ("\\\\?\\"@, "\\\\.\\"@);
    let s = h + "#{"@ + class;
    let path = p + h + "#{"@ + class;
    assert(path.subrange(0, 4) =~= p);
    assert(path.skip(4) =~= s);
    assert(h[0] == d[0]);
    assert(s[0] == d[0]);
    assert(p[0] == '\\' && q[0] == '\\');
    assert(!starts(s, p)) by {
        if starts(s, p) {
            assert(s.subrange(0, 4)[0] == p[0]);
        }
    }
    assert(!starts(s, q)) by {
        if starts(s, q) {
            assert(s.subrange(0, 4)[0] == q[0]);
        }
    }
    assert(without_start(path, p) == without_start(s, p));
    let k = d.len() as int;
    assert(s.subrange(k, k + 2) =~= "#{"@);
    assert(crate::text::at(s, "#{"@, k));
    crate::text::law_the_first_is_found(s, "#{"@, 0, k);
    let f = find_from(s, "#{"@, 0);
    if f < k {
        assert(s.subrange(f, f + 2)[1] == '{');
        assert(s[f + 1] == '{');
        if f + 1 < k {
            assert(h[f + 1] == '{');
            assert(d[f + 1] == '{');
            assert(d.contains('{'));
        } else {
            assert(s[k] == '#');
        }
    }
    assert(device_part(path) =~= h);
    assert forall|i: int| 0 <= i < d.len() implies with_backslashes(h)[i] == d[i] by {
        assert(d.contains(d[i]));
    }
    assert(with_backslashes(h) =~= d);
}

/// `d` with a hash for every backslash.
pub open spec fn hashed(d: Seq<char>) -> Seq<char> {
    Seq::new(
        d.len(),
        |i: int|
            if d[i] == '\\' {
                '#'
            } else {
                d[i]
            },
    )
}

} // verus!
