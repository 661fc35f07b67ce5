//! Where the daemon reads the player's stick, and how it says so.

use crate::evdev::DeviceInfo;
use crate::text::{chars_of, decimal, hex, put, put_hex, put_number, string_of};
use vstd::prelude::*;

verus! {

/// An open source.
#[derive(Debug)]
pub enum Source {
    /// An event device, and whether it is ours alone.
    Evdev(DeviceInfo, bool),
    /// The bulk stream, with its payloads per second.
    Bulk(u32),
}

/// A source in words.
pub open spec fn description(s: Source) -> Seq<char> {
    match s {
        Source::Evdev(d, grabbed) => "evdev "@ + d.path@ + " — "@ + d.name@ + " ("@ + hex(
            d.id.vendor as nat,
            4,
            false,
        ) + ":"@ + hex(d.id.product as nat, 4, false) + ")"@ + (if grabbed {
            ", grabbed"@
        } else {
            ", NOT grabbed"@
        }),
        Source::Bulk(rate) => "NOBD Bulk (usbfs, "@ + decimal(rate as nat) + " payloads/s)"@,
    }
}

impl Source {
    /// The source in words.
    pub fn describe(&self) -> (r: String)
        ensures
            r@ == description(*self),
    {
        match self {
            Source::Evdev(d, grabbed) => {
                let mut out: Vec<char> = chars_of("evdev ");
                put(&mut out, d.path.as_str());
                put(&mut out, " — ");
                put(&mut out, d.name.as_str());
                put(&mut out, " (");
                put_hex(&mut out, d.id.vendor as u32, 4, false);
                put(&mut out, ":");
                put_hex(&mut out, d.id.product as u32, 4, false);
                put(&mut out, ")");
                if *grabbed {
                    put(&mut out, ", grabbed");
                } else {
                    put(&mut out, ", NOT grabbed");
                }
                string_of(&out)
            },
            Source::Bulk(rate) => {
                let mut out: Vec<char> = chars_of("NOBD Bulk (usbfs, ");
                put_number(&mut out, *rate as u64);
                put(&mut out, " payloads/s)");
                string_of(&out)
            },
        }
    }
}

/// What came of the try to open the bulk device.
#[derive(Clone, Copy, Debug, PartialEq, Eq, Structural)]
pub enum BulkProbe {
    Usable,
    Absent,
    /// It is there and cannot be used, which is said.
    Broken,
}

/// The bulk stream is the source.
pub open spec fn uses_bulk(prefer_bulk: bool, probe: BulkProbe) -> bool {
    prefer_bulk && probe is Usable
}

/// Whether the bulk stream is the source: where it is preferred and usable. Else an
/// event device is.
pub fn takes_bulk(prefer_bulk: bool, probe: BulkProbe) -> (r: bool)
    ensures
        r == uses_bulk(prefer_bulk, probe),
{
    match probe {
        BulkProbe::Usable => prefer_bulk,
        _ => false,
    }
}

/// The wait for a stick, which is announced once.
#[derive(Clone, Copy, Debug, PartialEq, Eq, Structural)]
pub struct Waiting {
    pub announced: bool,
}

impl Waiting {
    pub fn new() -> (r: Self)
        ensures
            !r.announced,
    {
        Waiting { announced: false }
    }

    /// There is a stick.
    pub fn found(&mut self)
        ensures
            !final(self).announced,
    {
        self.announced = false;
    }

    /// There is none: whether to say so.
    pub fn missing(&mut self) -> (say: bool)
        ensures
            say == !old(self).announced,
            final(self).announced,
    {
        let say = !self.announced;
        self.announced = true;
        say
    }
}

/// The bulk stream is never read where it is not wanted, not there or broken, and always where
/// it is wanted and works.
pub proof fn law_bulk_where_it_is_wanted_and_works(prefer_bulk: bool)
    ensures
        uses_bulk(prefer_bulk, BulkProbe::Usable) == prefer_bulk,
        !uses_bulk(prefer_bulk, BulkProbe::Absent),
        !uses_bulk(prefer_bulk, BulkProbe::Broken),
{
}

} // verus!
