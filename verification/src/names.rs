//! The identifiers by which Windows knows the virtual devices.

use crate::gameinstall::strings;
use crate::text::{
    chars_of, contains, decimal, decimal_of, extend, has_text, hex, law_hex_reads_back, lower,
    lowered, put, put_hex, string_of,
};
use vstd::prelude::*;

verus! {

/// A maker and product as the registry's tables name them.
pub open spec fn vid_pid_name(vid: u16, pid: u16) -> Seq<char> {
    "VID_"@ + hex(vid as nat, 4, true) + "&PID_"@ + hex(pid as nat, 4, true)
}

fn put_vid_pid(out: &mut Vec<char>, vid: u16, pid: u16)
    ensures
        final(out)@ == old(out)@ + vid_pid_name(vid, pid),
{
    let ghost o = out@;
    put(out, "VID_");
    put_hex(out, vid as u32, 4, true);
    put(out, "&PID_");
    put_hex(out, pid as u32, 4, true);
    assert(out@ =~= o + vid_pid_name(vid, pid));
}

/// A maker and product as the registry's tables name them.
pub fn vid_pid(vid: u16, pid: u16) -> (r: String)
    ensures
        r@ == vid_pid_name(vid, pid),
{
    let mut out: Vec<char> = Vec::new();
    put_vid_pid(&mut out, vid, pid);
    assert(out@ =~= vid_pid_name(vid, pid));
    string_of(&out)
}

/// The hardware identifier of the plain device.
pub fn hardware_id(vid: u16, pid: u16) -> (r: String)
    ensures
        r@ == "root\\"@ + vid_pid_name(vid, pid),
{
    let mut out: Vec<char> = chars_of("root\\");
    put_vid_pid(&mut out, vid, pid);
    string_of(&out)
}

/// The hardware identifier of the companion device.
pub fn companion_hardware_id(vid: u16, pid: u16) -> (r: String)
    ensures
        r@ == "root\\"@ + vid_pid_name(vid, pid) + "&XI_00"@,
{
    let mut out: Vec<char> = chars_of("root\\");
    put_vid_pid(&mut out, vid, pid);
    put(&mut out, "&XI_00");
    string_of(&out)
}

/// The hardware identifiers of the plain device, closest first.
pub fn device_ids(vid: u16, pid: u16) -> (r: Vec<String>)
    ensures
        strings(r@) == seq!["root\\"@ + vid_pid_name(vid, pid), "root\\HIDMaestro"@],
{
    let mut r: Vec<String> = Vec::new();
    r.push(hardware_id(vid, pid));
    r.push(string_of(&chars_of("root\\HIDMaestro")));
    assert(strings(r@) =~= seq!["root\\"@ + vid_pid_name(vid, pid), "root\\HIDMaestro"@]);
    r
}

/// The hardware identifiers of the companion device, closest first.
pub fn companion_ids(vid: u16, pid: u16) -> (r: Vec<String>)
    ensures
        strings(r@) == seq![
            "root\\"@ + vid_pid_name(vid, pid) + "&XI_00"@,
            "root\\HIDMaestroXUSB"@,
        ],
{
    let mut r: Vec<String> = Vec::new();
    r.push(companion_hardware_id(vid, pid));
    r.push(string_of(&chars_of("root\\HIDMaestroXUSB")));
    assert(strings(r@) =~= seq![
        "root\\"@ + vid_pid_name(vid, pid) + "&XI_00"@,
        "root\\HIDMaestroXUSB"@,
    ]);
    r
}

/// The identifiers of what the companion device is compatible with, closest first.
pub fn companion_compatible_ids() -> (r: Vec<String>)
    ensures
        strings(r@) == seq![
            "USB\\MS_COMP_XUSB10"@,
            "USB\\Class_FF&SubClass_5D&Prot_01"@,
            "USB\\Class_FF&SubClass_5D"@,
            "USB\\Class_FF"@,
        ],
{
    let mut r: Vec<String> = Vec::new();
    r.push(string_of(&chars_of("USB\\MS_COMP_XUSB10")));
    r.push(string_of(&chars_of("USB\\Class_FF&SubClass_5D&Prot_01")));
    r.push(string_of(&chars_of("USB\\Class_FF&SubClass_5D")));
    r.push(string_of(&chars_of("USB\\Class_FF")));
    assert(strings(r@) =~= seq![
        "USB\\MS_COMP_XUSB10"@,
        "USB\\Class_FF&SubClass_5D&Prot_01"@,
        "USB\\Class_FF&SubClass_5D"@,
        "USB\\Class_FF"@,
    ]);
    r
}

/// Whether a device's list of hardware identifiers holds `needle`, in either case.
pub fn ids_hold(ids: &str, needle: &str) -> (r: bool)
    ensures
        r == contains(lower(ids@), lower(needle@)),
{
    has_text(&lowered(&chars_of(ids)), &lowered(&chars_of(needle)))
}

/// The identity of the container that all parts of a controller share: a fixed
/// name with the controller's index in it.
#[derive(Clone, Copy, Debug, PartialEq, Eq)]
pub struct ContainerId {
    pub data1: u32,
    pub data2: u16,
    pub data3: u16,
    pub data4: [u8; 8],
}

/// The container of a controller.
pub fn container_id(index: u32) -> (r: ContainerId)
    ensures
        r.data1 == 0x4849_4430,
        r.data2 == 0x4D41,
        r.data3 == 0x4553,
        r.data4@ == seq![
            0x54u8,
            0x52u8,
            0x4Fu8,
            0x00u8,
            0x00u8,
            (index / 256 % 256) as u8,
            (index % 256) as u8,
            0x00u8,
        ],
{
    let data4: [u8; 8] = [
        0x54,
        0x52,
        0x4F,
        0x00,
        0x00,
        (index / 256 % 256) as u8,
        (index % 256) as u8,
        0x00,
    ];
    assert(data4@ =~= seq![
        0x54u8,
        0x52u8,
        0x4Fu8,
        0x00u8,
        0x00u8,
        (index / 256 % 256) as u8,
        (index % 256) as u8,
        0x00u8,
    ]);
    ContainerId { data1: 0x4849_4430, data2: 0x4D41, data3: 0x4553, data4 }
}

/// A number in decimal, filled up with zeros to four digits.
pub open spec fn decimal4(n: nat) -> Seq<char> {
    let d = decimal(n);
    if d.len() >= 4 {
        d
    } else {
        Seq::new((4 - d.len()) as nat, |i: int| '0') + d
    }
}

/// The name of one creation of a device: a session, a count and the index.
pub open spec fn suffix_of(session: u64, count: u32, index: u32) -> Seq<char> {
    hex((session % 0x1_0000_0000) as nat, 8, true) + hex((count % 0x1_0000) as nat, 4, true) + "_"@
        + decimal4(index as nat)
}

/// The name of one creation of a device. It must differ from one creation to the
/// next: `session` differs between processes and `count` within one.
pub fn suffix(session: u64, count: u32, index: u32) -> (r: String)
    ensures
        r@ == suffix_of(session, count, index),
{
    let mut out: Vec<char> = Vec::new();
    put_hex(&mut out, (session % 0x1_0000_0000) as u32, 8, true);
    put_hex(&mut out, count % 0x1_0000, 4, true);
    put(&mut out, "_");
    let d: Vec<char> = decimal_of(index as u64);
    let ghost o = out@;
    let mut k: usize = d.len();
    while k < 4
        invariant
            d@.len() <= k,
            k <= 4 || k == d@.len(),
            out@ == o + Seq::new((k - d@.len()) as nat, |i: int| '0'),
        decreases 4 - k,
    {
        out.push('0');
        k = k + 1;
        assert(out@ =~= o + Seq::new((k - d@.len()) as nat, |i: int| '0'));
    }
    extend(&mut out, &d);
    assert(out@ =~= suffix_of(session, count, index));
    string_of(&out)
}

/// Two creations in one session have different names, up to the point at which
/// their count comes round.
pub proof fn law_suffixes_differ(session: u64, a: u32, b: u32, index: u32)
    requires
        a % 0x1_0000 != b % 0x1_0000,
    ensures
        suffix_of(session, a, index) != suffix_of(session, b, index),
{
    let s = hex((session % 0x1_0000_0000) as nat, 8, true);
    let x = hex((a % 0x1_0000) as nat, 4, true);
    let y = hex((b % 0x1_0000) as nat, 4, true);
    reveal_with_fuel(crate::text::pow16, 9);
    law_hex_reads_back((session % 0x1_0000_0000) as nat, 8, true);
    law_hex_reads_back((a % 0x1_0000) as nat, 4, true);
    law_hex_reads_back((b % 0x1_0000) as nat, 4, true);
    if suffix_of(session, a, index) == suffix_of(session, b, index) {
        assert(suffix_of(session, a, index).subrange(8, 12) =~= x);
        assert(suffix_of(session, b, index).subrange(8, 12) =~= y);
    }
}

/// Two devices have the same name only where maker and product are the same.
pub proof fn law_names_tell_devices_apart(v1: u16, p1: u16, v2: u16, p2: u16)
    requires
        vid_pid_name(v1, p1) == vid_pid_name(v2, p2),
    ensures
        v1 == v2 && p1 == p2,
{
    let (a, b) = (vid_pid_name(v1, p1), vid_pid_name(v2, p2));
    reveal_with_fuel(crate::text::pow16, 5);
    assert(crate::text::pow16(4) == 65536);
    reveal_strlit("VID_");
    reveal_strlit("&PID_");
    law_hex_reads_back(v1 as nat, 4, true);
    law_hex_reads_back(v2 as nat, 4, true);
    law_hex_reads_back(p1 as nat, 4, true);
    law_hex_reads_back(p2 as nat, 4, true);
    assert(a.subrange(4, 8) =~= hex(v1 as nat, 4, true));
    assert(b.subrange(4, 8) =~= hex(v2 as nat, 4, true));
    assert(a.subrange(13, 17) =~= hex(p1 as nat, 4, true));
    assert(b.subrange(13, 17) =~= hex(p2 as nat, 4, true));
}

/// A number that is filled up to four digits reads back, and has four digits at least.
pub proof fn law_filled_numbers_read_back(n: nat)
    ensures
        decimal4(n).len() >= 4,
        crate::text::number(decimal4(n)) == n,
        n <= 9_999 ==> decimal4(n).len() == 4,
{
    let d = decimal(n);
    crate::text::law_decimal_reads_back(n);
    lemma_leading_zeros(d, if d.len() >= 4 {
        0
    } else {
        (4 - d.len()) as nat
    });
    if n <= 9_999 {
        reveal_with_fuel(decimal, 5);
    }
    if d.len() >= 4 {
        assert(Seq::new(0, |i: int| '0') + d =~= d);
    }
}

pub(crate) proof fn lemma_leading_zeros(d: Seq<char>, k: nat)
    ensures
        crate::text::number(Seq::new(k, |i: int| '0') + d) == crate::text::number(d),
    decreases k,
{
    if k == 0 {
        assert(Seq::new(k, |i: int| '0') + d =~= d);
    } else {
        let r = Seq::new((k - 1) as nat, |i: int| '0') + d;
        lemma_leading_zeros(d, (k - 1) as nat);
        crate::text::law_digits_count_by_place(r, '0');
        assert(Seq::new(k, |i: int| '0') + d =~= seq!['0'] + r);
    }
}

} // verus!
