//! What the setup writes into the Windows registry.

use crate::names::{vid_pid, vid_pid_name};
use crate::report::report_descriptor;
use crate::text::{chars_of, decimal, put, put_number, string_of};
use vstd::prelude::*;
use vstd::string::StringExecFns;

verus! {

/// The two trees that are written to.
#[derive(Clone, Copy, Debug, PartialEq, Eq, Structural)]
pub enum Hive {
    Machine,
    User,
}

/// A value.
#[derive(Debug)]
pub enum Value {
    Bytes(Vec<u8>),
    Number(u32),
    Text(String),
}

/// A value as mathematics.
#[verifier::ext_equal]
pub enum ValueView {
    Bytes(Seq<u8>),
    Number(u32),
    Text(Seq<char>),
}

impl View for Value {
    type V = ValueView;

    open spec fn view(&self) -> ValueView {
        match self {
            Value::Bytes(b) => ValueView::Bytes(b@),
            Value::Number(n) => ValueView::Number(*n),
            Value::Text(t) => ValueView::Text(t@),
        }
    }
}

/// A value under its name.
#[derive(Debug)]
pub struct Entry {
    pub name: &'static str,
    pub value: Value,
}

/// The names and values of some entries.
pub open spec fn entries(s: Seq<Entry>) -> Seq<(Seq<char>, ValueView)> {
    Seq::new(s.len(), |i: int| (s[i].name@, s[i].value@))
}

/// The key of a controller's configuration.
pub fn config_key(index: u32) -> (r: String)
    ensures
        r@ == "SOFTWARE\\HIDMaestro\\Controller"@ + decimal(index as nat),
{
    let mut out: Vec<char> = chars_of("SOFTWARE\\HIDMaestro\\Controller");
    put_number(&mut out, index as u64);
    string_of(&out)
}

/// The configuration that the driver reads when it binds.
pub open spec fn config_of(
    descriptor: Seq<u8>,
    vid: u16,
    pid: u16,
    product: Seq<char>,
    report_len: u32,
) -> Seq<(Seq<char>, ValueView)> {
    seq![
        ("ReportDescriptor"@, ValueView::Bytes(descriptor)),
        ("VendorId"@, ValueView::Number(vid as u32)),
        ("ProductId"@, ValueView::Number(pid as u32)),
        ("VersionNumber"@, ValueView::Number(0x0100)),
        ("ProductString"@, ValueView::Text(product)),
        ("InputReportByteLength"@, ValueView::Number(report_len)),
        ("FunctionMode"@, ValueView::Number(0)),
    ]
}

/// The values of a controller's configuration.
pub fn write_instance_config(vid: u16, pid: u16, product: &str, report_len: u32) -> (r: Vec<Entry>)
    ensures
        entries(r@) == config_of(
            crate::report::descriptor(),
            vid,
            pid,
            product@,
            report_len,
        ),
{
    let d: [u8; 74] = report_descriptor();
    let mut bytes: Vec<u8> = Vec::new();
    let mut i: usize = 0;
    while i < 74
        invariant
            i <= 74,
            bytes@ == d@.take(i as int),
        decreases 74 - i,
    {
        bytes.push(d[i]);
        i += 1;
        assert(bytes@ =~= d@.take(i as int));
    }
    assert(d@.take(74) =~= d@);
    let mut r: Vec<Entry> = Vec::new();
    r.push(Entry { name: "ReportDescriptor", value: Value::Bytes(bytes) });
    r.push(Entry { name: "VendorId", value: Value::Number(vid as u32) });
    r.push(Entry { name: "ProductId", value: Value::Number(pid as u32) });
    r.push(Entry { name: "VersionNumber", value: Value::Number(0x0100) });
    r.push(Entry { name: "ProductString", value: Value::Text(String::from_str(product)) });
    r.push(Entry { name: "InputReportByteLength", value: Value::Number(report_len) });
    r.push(Entry { name: "FunctionMode", value: Value::Number(0) });
    assert(entries(r@) =~= config_of(d@, vid, pid, product@, report_len));
    r
}

/// The key that ties a device to its controller.
pub fn params_key(instance_id: &str) -> (r: String)
    ensures
        r@ == "SYSTEM\\CurrentControlSet\\Enum\\"@ + instance_id@ + "\\Device Parameters"@,
{
    let mut out: Vec<char> = chars_of("SYSTEM\\CurrentControlSet\\Enum\\");
    put(&mut out, instance_id);
    put(&mut out, "\\Device Parameters");
    string_of(&out)
}

/// A key that holds a name, and under what.
#[derive(Debug)]
pub struct NameKey {
    pub hive: Hive,
    pub key: String,
    pub value: &'static str,
}

/// The keys that hold the name of a device, of which the last wins where the system
/// shows it.
pub open spec fn name_keys(vid: u16, pid: u16) -> Seq<(Hive, Seq<char>, Seq<char>)> {
    let vp = vid_pid_name(vid, pid);
    let root = "SYSTEM\\CurrentControlSet\\Control\\MediaProperties\\PrivateProperties\\"@;
    seq![
        (Hive::Machine, root + "DirectInput\\"@ + vp + "\\OEM"@, "OEM Name"@),
        (Hive::Machine, root + "Joystick\\OEM\\"@ + vp, "OEMName"@),
        (Hive::User, root + "Joystick\\OEM\\"@ + vp, "OEMName"@),
    ]
}

/// The places of some names.
pub open spec fn places(s: Seq<NameKey>) -> Seq<(Hive, Seq<char>, Seq<char>)> {
    Seq::new(s.len(), |i: int| (s[i].hive, s[i].key@, s[i].value@))
}

fn joystick_key(vp: &str) -> (r: String)
    ensures
        r@ == "SYSTEM\\CurrentControlSet\\Control\\MediaProperties\\PrivateProperties\\"@
            + "Joystick\\OEM\\"@ + vp@,
{
    let mut out: Vec<char> = chars_of(
        "SYSTEM\\CurrentControlSet\\Control\\MediaProperties\\PrivateProperties\\",
    );
    put(&mut out, "Joystick\\OEM\\");
    put(&mut out, vp);
    string_of(&out)
}

/// The places to write the name of a device to.
pub fn set_oem_name(vid: u16, pid: u16) -> (r: Vec<NameKey>)
    ensures
        places(r@) == name_keys(vid, pid),
{
    let vp: String = vid_pid(vid, pid);
    let mut first: Vec<char> = chars_of(
        "SYSTEM\\CurrentControlSet\\Control\\MediaProperties\\PrivateProperties\\",
    );
    put(&mut first, "DirectInput\\");
    put(&mut first, vp.as_str());
    put(&mut first, "\\OEM");
    let mut r: Vec<NameKey> = Vec::new();
    r.push(NameKey { hive: Hive::Machine, key: string_of(&first), value: "OEM Name" });
    r.push(NameKey { hive: Hive::Machine, key: joystick_key(vp.as_str()), value: "OEMName" });
    r.push(NameKey { hive: Hive::User, key: joystick_key(vp.as_str()), value: "OEMName" });
    assert(places(r@) =~= name_keys(vid, pid));
    r
}

/// The places to take the name of a device away from: those that it is written to.
pub fn clear_oem_name(vid: u16, pid: u16) -> (r: Vec<NameKey>)
    ensures
        places(r@) == name_keys(vid, pid),
{
    set_oem_name(vid, pid)
}

} // verus!
