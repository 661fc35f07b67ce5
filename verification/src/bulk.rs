//! The bulk stream of the stick's firmware.
//!
//! The firmware streams fixed payloads, each with the microsecond of its own
//! clock at which the edge happened. [`ClockBridge`] brings that instant into the
//! host's clock, so that the window is timed from the edge itself.

use crate::pad::{neutral, PadState};
use crate::text::{
    chars_of, decimal, decimal_of, find_char, index_of, parse_hex, parse_hex_u16, parse_u32,
    parse_unsigned, string_of, trim, trimmed,
};
use vstd::prelude::*;

verus! {

pub const NOBD_BULK_VID: u16 = 0xCAFE;
pub const NOBD_BULK_PID: u16 = 0x4030;

/// The bytes of one payload.
pub const PAYLOAD: usize = 20;

/// The bytes of one transfer.
pub const BUF_LEN: usize = 512;

/// The latest arrival that the bridge accepts. An edge added to it still fits.
pub const MAX_ARRIVAL_US: u64 = 0x7FFF_FFFF_0000_0000;

/// How long an offset is trusted.
pub const REANCHOR_US: u64 = 2_000_000;

// ---- the clock ------------------------------------------------------------

/// Brings the firmware's clock into the host's.
///
/// A delivery is never early, so the smallest offset seen is the best estimate of
/// the true one. It is let go after a while, so that the drift between the two
/// clocks is followed.
#[derive(Clone, Copy, Debug, PartialEq, Eq, Structural)]
pub struct ClockBridge {
    pub min_offset: i64,
    pub have: bool,
    /// When the current minimum was taken.
    pub anchored_us: u64,
    pub reanchor_us: u64,
    /// The smallest offset since the last change of anchor.
    pub pending_min: i64,
    pub pending_have: bool,
}

/// The offset that one delivery shows.
pub open spec fn offset(edge_us: u32, arrival_us: u64) -> int {
    arrival_us - edge_us
}

/// The bridge with a delivery's offset taken in.
pub open spec fn seen(b: ClockBridge, edge_us: u32, arrival_us: u64) -> ClockBridge {
    let obs = offset(edge_us, arrival_us) as i64;
    let b1 = if !b.have || obs < b.min_offset {
        ClockBridge { min_offset: obs, have: true, anchored_us: arrival_us, ..b }
    } else {
        b
    };
    if !b1.pending_have || obs < b1.pending_min {
        ClockBridge { pending_min: obs, pending_have: true, ..b1 }
    } else {
        b1
    }
}

/// The anchor is too old.
pub open spec fn stale(b: ClockBridge, arrival_us: u64) -> bool {
    arrival_us >= b.anchored_us && arrival_us - b.anchored_us > b.reanchor_us && b.pending_have
}

/// The bridge after a delivery: a stale anchor is replaced by the smallest offset
/// since the last change.
pub open spec fn bridge_after(b: ClockBridge, edge_us: u32, arrival_us: u64) -> ClockBridge {
    let n = seen(b, edge_us, arrival_us);
    if stale(n, arrival_us) {
        ClockBridge {
            min_offset: n.pending_min,
            anchored_us: arrival_us,
            pending_have: false,
            ..n
        }
    } else {
        n
    }
}

/// The edge in the host's clock: never before its start, never after the arrival.
pub open spec fn translated(edge_us: u32, arrival_us: u64, min_offset: i64) -> int {
    let t = edge_us + min_offset;
    if t < 0 {
        0
    } else if t > arrival_us {
        arrival_us as int
    } else {
        t
    }
}

impl ClockBridge {
    /// The offsets are those of deliveries in range, and the smallest since the
    /// last change of anchor is no smaller than the anchor's.
    pub open spec fn wf(&self) -> bool {
        &&& self.pending_have ==> self.have && self.pending_min >= self.min_offset
        &&& self.have ==> -0xFFFF_FFFF <= self.min_offset <= MAX_ARRIVAL_US
        &&& self.pending_have ==> -0xFFFF_FFFF <= self.pending_min <= MAX_ARRIVAL_US
    }

    /// A bridge that has seen nothing.
    pub fn new() -> (r: Self)
        ensures
            r.wf(),
            r == (ClockBridge {
                min_offset: 0,
                have: false,
                anchored_us: 0,
                reanchor_us: REANCHOR_US,
                pending_min: 0,
                pending_have: false,
            }),
    {
        ClockBridge {
            min_offset: 0,
            have: false,
            anchored_us: 0,
            reanchor_us: REANCHOR_US,
            pending_min: 0,
            pending_have: false,
        }
    }

    /// Take in one delivery and bring its edge into the host's clock. A bad
    /// translation degrades to the arrival.
    pub fn translate(&mut self, edge_us: u32, arrival_us: u64) -> (r: u64)
        requires
            old(self).wf(),
            arrival_us <= MAX_ARRIVAL_US,
        ensures
            final(self).wf(),
            *final(self) == bridge_after(*old(self), edge_us, arrival_us),
            r == translated(edge_us, arrival_us, final(self).min_offset),
            r <= arrival_us,
    {
        let obs: i64 = arrival_us as i64 - edge_us as i64;
        if !self.have {
            self.min_offset = obs;
            self.have = true;
            self.anchored_us = arrival_us;
        } else if obs < self.min_offset {
            self.min_offset = obs;
            self.anchored_us = arrival_us;
        }
        if !self.pending_have || obs < self.pending_min {
            self.pending_min = obs;
            self.pending_have = true;
        }
        if arrival_us.saturating_sub(self.anchored_us) > self.reanchor_us && self.pending_have {
            self.min_offset = self.pending_min;
            self.anchored_us = arrival_us;
            self.pending_have = false;
        }
        let t: i64 = edge_us as i64 + self.min_offset;
        if t < 0 {
            0
        } else if t as u64 > arrival_us {
            arrival_us
        } else {
            t as u64
        }
    }

    /// The estimated delay of a delivery, in microseconds.
    pub fn delivery_delay_us(&self, edge_us: u32, arrival_us: u64) -> (r: i64)
        requires
            self.wf(),
            self.have ==> arrival_us <= MAX_ARRIVAL_US,
        ensures
            r == (if self.have {
                offset(edge_us, arrival_us) - self.min_offset
            } else {
                0
            }),
    {
        if !self.have {
            return 0;
        }
        (arrival_us as i64 - edge_us as i64) - self.min_offset
    }
}

/// Between changes of anchor the bridge holds the smallest offset it has seen: a
/// late delivery never pulls the estimate up.
pub proof fn law_late_delivery_keeps_the_offset(b: ClockBridge, edge_us: u32, arrival_us: u64)
    requires
        b.wf(),
        b.have,
        arrival_us <= MAX_ARRIVAL_US,
        !stale(seen(b, edge_us, arrival_us), arrival_us),
    ensures
        bridge_after(b, edge_us, arrival_us).min_offset == if offset(edge_us, arrival_us)
            < b.min_offset {
            offset(edge_us, arrival_us)
        } else {
            b.min_offset as int
        },
{
}

/// The delay that the bridge tells of a delivery is what its translation takes off the
/// arrival: it is never negative, and the edge is the arrival less the delay, or the start
/// of the clock where that lies before it.
pub proof fn law_delay_is_what_translation_takes_off(b: ClockBridge, edge_us: u32, arrival_us: u64)
    requires
        b.wf(),
        arrival_us <= MAX_ARRIVAL_US,
    ensures
        ({
            let n = bridge_after(b, edge_us, arrival_us);
            let delay = offset(edge_us, arrival_us) - n.min_offset;
            let t = translated(edge_us, arrival_us, n.min_offset);
            &&& n.have
            &&& delay >= 0
            &&& t <= arrival_us
            &&& t == if arrival_us - delay > 0 {
                arrival_us - delay
            } else {
                0
            }
        }),
{
}

/// A delivery on time translates to its own arrival.
pub proof fn law_prompt_delivery_is_its_arrival(b: ClockBridge, edge_us: u32, arrival_us: u64)
    requires
        b.wf(),
        arrival_us <= MAX_ARRIVAL_US,
        !b.have || offset(edge_us, arrival_us) <= b.min_offset,
    ensures
        translated(
            edge_us,
            arrival_us,
            bridge_after(b, edge_us, arrival_us).min_offset,
        ) == arrival_us,
{
}

// ---- payloads -------------------------------------------------------------

/// Two bytes, the low one first.
pub open spec fn le16(b: Seq<u8>, i: int) -> int {
    b[i] + 256 * b[i + 1]
}

/// Four bytes, the low one first.
pub open spec fn le32(b: Seq<u8>, i: int) -> int {
    le16(b, i) + 65536 * le16(b, i + 2)
}

/// Two bytes as a signed number.
pub open spec fn le16_signed(b: Seq<u8>, i: int) -> int {
    if le16(b, i) < 32768 {
        le16(b, i)
    } else {
        le16(b, i) - 65536
    }
}

/// What a payload carries.
#[derive(Clone, Copy, Debug, PartialEq, Eq, Structural)]
pub struct Payload {
    pub seq: u32,
    /// The firmware's microsecond at the edge.
    pub edge_us: u32,
    pub state: PadState,
}

/// The payload at `off`: sequence number, edge, buttons, triggers and sticks.
pub open spec fn payload_at(b: Seq<u8>, off: int) -> Payload {
    Payload {
        seq: le32(b, off) as u32,
        edge_us: le32(b, off + 4) as u32,
        state: PadState {
            buttons: le16(b, off + 8) as u16,
            lt: b[off + 10],
            rt: b[off + 11],
            lx: le16_signed(b, off + 12) as i16,
            ly: le16_signed(b, off + 14) as i16,
            rx: le16_signed(b, off + 16) as i16,
            ry: le16_signed(b, off + 18) as i16,
        },
    }
}

fn u16_at(b: &[u8], i: usize) -> (r: u16)
    requires
        i + 1 < b@.len(),
    ensures
        r == le16(b@, i as int),
{
    let n: usize = b.len();
    assert(n == b@.len());
    b[i] as u16 + 256 * b[i + 1] as u16
}

fn u32_at(b: &[u8], i: usize) -> (r: u32)
    requires
        i + 3 < b@.len(),
    ensures
        r == le32(b@, i as int),
{
    let n: usize = b.len();
    assert(n == b@.len());
    u16_at(b, i) as u32 + 65536 * u16_at(b, i + 2) as u32
}

fn i16_at(b: &[u8], i: usize) -> (r: i16)
    requires
        i + 1 < b@.len(),
    ensures
        r == le16_signed(b@, i as int),
{
    let v: u16 = u16_at(b, i);
    if v < 32768 {
        v as i16
    } else {
        (v as i32 - 65536) as i16
    }
}

/// Decode the payload at `off`.
pub fn decode_payload(b: &[u8], off: usize) -> (r: Payload)
    requires
        off + 20 <= b@.len(),
    ensures
        r == payload_at(b@, off as int),
{
    let n: usize = b.len();
    assert(n == b@.len());
    Payload {
        seq: u32_at(b, off),
        edge_us: u32_at(b, off + 4),
        state: PadState {
            buttons: u16_at(b, off + 8),
            lt: b[off + 10],
            rt: b[off + 11],
            lx: i16_at(b, off + 12),
            ly: i16_at(b, off + 14),
            rx: i16_at(b, off + 16),
            ry: i16_at(b, off + 18),
        },
    }
}

/// The reading side of the bulk stream.
#[derive(Clone, Copy, Debug, PartialEq, Eq, Structural)]
pub struct BulkStream {
    pub state: PadState,
    pub clock: ClockBridge,
    pub last_seq: u32,
    pub have_seq: bool,
    /// Payloads that the sequence numbers show to be lost.
    pub drops: u64,
    pub payloads: u64,
    /// Payloads per second.
    pub rate_hz: u32,
    pub rate_count: u32,
    pub rate_t0: u64,
    /// The delay of the latest delivery.
    pub last_delay_us: i64,
}

/// How many payloads were lost before the one numbered `seq`.
pub open spec fn lost_before(s: BulkStream, seq: u32) -> u32 {
    if s.have_seq && seq > s.last_seq.wrapping_add(1) {
        seq.wrapping_sub(s.last_seq).wrapping_sub(1)
    } else {
        0
    }
}

/// The stream after one payload.
pub open spec fn after_payload(s: BulkStream, p: Payload, arrival_us: u64) -> BulkStream {
    BulkStream {
        state: p.state,
        clock: bridge_after(s.clock, p.edge_us, arrival_us),
        last_seq: p.seq,
        have_seq: true,
        drops: s.drops.wrapping_add(lost_before(s, p.seq) as u64),
        payloads: s.payloads.wrapping_add(1),
        rate_count: s.rate_count.wrapping_add(1),
        last_delay_us: if s.clock.have {
            (offset(p.edge_us, arrival_us) - s.clock.min_offset) as i64
        } else {
            0
        },
        ..s
    }
}

/// The stream after the first `n` payloads of a transfer.
pub open spec fn after_payloads(s: BulkStream, data: Seq<u8>, arrival_us: u64, n: int) -> BulkStream
    decreases n,
{
    if n <= 0 {
        s
    } else {
        after_payload(
            after_payloads(s, data, arrival_us, n - 1),
            payload_at(data, 20 * (n - 1)),
            arrival_us,
        )
    }
}

/// What payload `k` of a transfer hands on: its state, and its edge in the host's
/// clock.
pub open spec fn handed_on(s: BulkStream, data: Seq<u8>, arrival_us: u64, k: int) -> (
    PadState,
    u64,
) {
    let p = payload_at(data, 20 * k);
    (
        p.state,
        translated(
            p.edge_us,
            arrival_us,
            after_payloads(s, data, arrival_us, k + 1).clock.min_offset,
        ) as u64,
    )
}

/// The stream with its rate brought up to date, at least every fifth of a second.
pub open spec fn rated(s: BulkStream, arrival_us: u64) -> BulkStream {
    if arrival_us >= s.rate_t0 + 200_000 {
        BulkStream {
            rate_hz: (s.rate_count as u64 * 1_000_000 / (arrival_us - s.rate_t0)) as u64 as u32,
            rate_count: 0,
            rate_t0: arrival_us,
            ..s
        }
    } else {
        s
    }
}

impl BulkStream {
    pub open spec fn wf(&self) -> bool {
        self.clock.wf()
    }

    /// A stream that starts at `now_us`.
    pub fn new(now_us: u64) -> (r: Self)
        ensures
            r.wf(),
            r.state == neutral(),
            !r.clock.have && !r.have_seq,
            r.drops == 0 && r.payloads == 0,
            r.rate_hz == 0 && r.rate_count == 0 && r.rate_t0 == now_us,
            r.last_delay_us == 0,
    {
        BulkStream {
            state: PadState::default(),
            clock: ClockBridge::new(),
            last_seq: 0,
            have_seq: false,
            drops: 0,
            payloads: 0,
            rate_hz: 0,
            rate_count: 0,
            rate_t0: now_us,
            last_delay_us: 0,
        }
    }

    /// Take in a transfer that arrived at `arrival_us`: every whole payload in
    /// it, in order. `data` is empty where the transfer failed.
    pub fn on_transfer(&mut self, data: &[u8], arrival_us: u64) -> (r: Vec<(PadState, u64)>)
        requires
            old(self).wf(),
            arrival_us <= MAX_ARRIVAL_US,
        ensures
            final(self).wf(),
            *final(self) == rated(
                after_payloads(*old(self), data@, arrival_us, data@.len() as int / 20),
                arrival_us,
            ),
            r@.len() == data@.len() / 20,
            forall|k: int|
                0 <= k < r@.len() ==> #[trigger] r@[k] == handed_on(
                    *old(self),
                    data@,
                    arrival_us,
                    k,
                ),
    {
        let n: usize = data.len();
        let mut out: Vec<(PadState, u64)> = Vec::new();
        let mut off: usize = 0;
        while n - off >= 20
            invariant
                off <= n == data@.len(),
                off == 20 * out@.len(),
                self.wf(),
                arrival_us <= MAX_ARRIVAL_US,
                *self == after_payloads(*old(self), data@, arrival_us, out@.len() as int),
                forall|k: int|
                    0 <= k < out@.len() ==> #[trigger] out@[k] == handed_on(
                        *old(self),
                        data@,
                        arrival_us,
                        k,
                    ),
            decreases n - off,
        {
            let p: Payload = decode_payload(data, off);
            if self.have_seq && p.seq > self.last_seq.wrapping_add(1) {
                let lost: u32 = p.seq.wrapping_sub(self.last_seq).wrapping_sub(1);
                self.drops = self.drops.wrapping_add(lost as u64);
            } else {
                assert(self.drops.wrapping_add(0) == self.drops);
            }
            self.last_seq = p.seq;
            self.have_seq = true;
            self.payloads = self.payloads.wrapping_add(1);
            self.rate_count = self.rate_count.wrapping_add(1);
            self.last_delay_us = self.clock.delivery_delay_us(p.edge_us, arrival_us);
            let t: u64 = self.clock.translate(p.edge_us, arrival_us);
            self.state = p.state;
            out.push((p.state, t));
            off = off + 20;
        }
        if arrival_us.saturating_sub(self.rate_t0) >= 200_000 {
            let dt: u64 = arrival_us - self.rate_t0;
            self.rate_hz = (self.rate_count as u64 * 1_000_000 / dt) as u32;
            self.rate_count = 0;
            self.rate_t0 = arrival_us;
        }
        out
    }
}

/// One more transfer fits into the budget.
pub open spec fn transfer_fits(emitted: int, budget: int) -> bool {
    emitted + BUF_LEN as int / PAYLOAD as int <= budget
}

/// Whether one more transfer may be taken in: its payloads must fit into the
/// budget.
pub fn has_room(emitted: usize, budget: usize) -> (r: bool)
    requires
        emitted + 25 <= usize::MAX,
    ensures
        r == transfer_fits(emitted as int, budget as int),
{
    emitted + BUF_LEN / PAYLOAD <= budget
}

// ---- finding the device ---------------------------------------------------

/// The first bulk endpoint towards the host among the descriptors from `i` on,
/// `iface` being the interface that they belong to.
pub open spec fn bulk_in_from(b: Seq<u8>, i: int, iface: Option<u32>) -> Option<(u32, u8)>
    decreases b.len() - i,
{
    if i < 0 || i + 2 > b.len() || b[i] < 2 || i + b[i] > b.len() {
        None
    } else if b[i + 1] == 0x04 && b[i] >= 9 {
        bulk_in_from(b, i + b[i], Some(b[i + 2] as u32))
    } else if b[i + 1] == 0x05 && b[i] >= 7 && b[i + 2] & 0x80 != 0 && b[i + 3] & 0x03 == 0x02
        && iface is Some {
        Some((iface->0, b[i + 2]))
    } else {
        bulk_in_from(b, i + b[i], iface)
    }
}

/// The first bulk endpoint towards the host, with its interface, in a device's
/// descriptors. A descriptor that is cut short ends the search.
pub fn find_bulk_in(b: &[u8]) -> (r: Option<(u32, u8)>)
    ensures
        r == bulk_in_from(b@, 0, None),
{
    let n: usize = b.len();
    let mut i: usize = 0;
    let mut iface: Option<u32> = None;
    while n - i >= 2
        invariant
            i <= n == b@.len(),
            bulk_in_from(b@, 0, None) == bulk_in_from(b@, i as int, iface),
        decreases n - i,
    {
        let len: usize = b[i] as usize;
        let ty: u8 = b[i + 1];
        if len < 2 || len > n - i {
            return None;
        }
        if ty == 0x04 && len >= 9 {
            iface = Some(b[i + 2] as u32);
        } else if ty == 0x05 && len >= 7 {
            let addr: u8 = b[i + 2];
            let attrs: u8 = b[i + 3];
            if addr & 0x80 != 0 && attrs & 0x03 == 0x02 {
                if let Some(f) = iface {
                    return Some((f, addr));
                }
            }
        }
        i = i + len;
    }
    None
}

/// Whether a directory entry is a device; an interface's name holds a colon.
pub fn is_device_entry(name: &str) -> (r: bool)
    ensures
        r == (index_of(name@, ':') >= name@.len()),
{
    let v: Vec<char> = chars_of(name);
    let k: usize = find_char(&v, ':', 0);
    assert(v@.subrange(0, v@.len() as int) =~= v@);
    k == v.len()
}

/// Whether the maker and product files of a device name the bulk stick.
pub fn is_bulk_device(vendor: &str, product: &str) -> (r: bool)
    ensures
        r == (parse_hex(trim(vendor@), u16::MAX as nat) == Some(NOBD_BULK_VID as nat) && parse_hex(
            trim(product@),
            u16::MAX as nat,
        ) == Some(NOBD_BULK_PID as nat)),
{
    let v: Option<u16> = parse_hex_u16(&trimmed(&chars_of(vendor)));
    let p: Option<u16> = parse_hex_u16(&trimmed(&chars_of(product)));
    match (v, p) {
        (Some(v), Some(p)) => v == NOBD_BULK_VID && p == NOBD_BULK_PID,
        _ => false,
    }
}

/// A number in decimal, filled up with zeros to three digits.
pub open spec fn decimal3(n: nat) -> Seq<char> {
    let d = decimal(n);
    if d.len() >= 3 {
        d
    } else {
        Seq::new((3 - d.len()) as nat, |i: int| '0') + d
    }
}

fn push_decimal3(out: &mut Vec<char>, n: u32)
    ensures
        final(out)@ == old(out)@ + decimal3(n as nat),
{
    let d: Vec<char> = decimal_of(n as u64);
    let ghost o = out@;
    let mut k: usize = d.len();
    let ghost zeros = Seq::<char>::empty();
    while k < 3
        invariant
            d@.len() <= k,
            d@ == decimal(n as nat),
            k <= 3 || k == d@.len(),
            out@ == o + Seq::new((k - d@.len()) as nat, |i: int| '0'),
        decreases 3 - k,
    {
        out.push('0');
        k = k + 1;
        assert(out@ =~= o + Seq::new((k - d@.len()) as nat, |i: int| '0'));
    }
    crate::text::extend(out, &d);
    assert(out@ =~= o + decimal3(n as nat));
}

/// The device file of a bus and device number, read from their files.
pub fn usb_node(bus: &str, dev: &str) -> (r: Option<String>)
    ensures
        ({
            let b = parse_unsigned(trim(bus@), u32::MAX as nat);
            let d = parse_unsigned(trim(dev@), u32::MAX as nat);
            &&& r is Some <==> b is Some && d is Some
            &&& r matches Some(s) ==> s@ == "/dev/bus/usb/"@ + decimal3(b->0) + "/"@ + decimal3(
                d->0,
            )
        }),
{
    let b: Option<u32> = parse_u32(&trimmed(&chars_of(bus)));
    let d: Option<u32> = parse_u32(&trimmed(&chars_of(dev)));
    match (b, d) {
        (Some(b), Some(d)) => {
            let mut out: Vec<char> = chars_of("/dev/bus/usb/");
            push_decimal3(&mut out, b);
            crate::text::extend(&mut out, &chars_of("/"));
            push_decimal3(&mut out, d);
            Some(string_of(&out))
        },
        _ => None,
    }
}

// ---- laws of the payload ----------------------------------------------------

/// The number `x` stands in two bytes at `i`, the low one first; a negative one as its
/// two's complement.
pub open spec fn stands16(b: Seq<u8>, i: int, x: int) -> bool {
    &&& b[i] as int == x % 256
    &&& b[i + 1] as int == x / 256 % 256
}

/// The number `x` stands in four bytes at `i`, the low one first.
pub open spec fn stands32(b: Seq<u8>, i: int, x: int) -> bool {
    &&& b[i] as int == x % 256
    &&& b[i + 1] as int == x / 256 % 256
    &&& b[i + 2] as int == x / 65_536 % 256
    &&& b[i + 3] as int == x / 16_777_216 % 256
}

/// Reading four bytes gives back the number that was written in them, and so no two
/// different runs of four bytes read as the same number.
pub proof fn law_a_long_number_reads_back(b: Seq<u8>, i: int, v: u32)
    ensures
        stands32(b, i, v as int) <==> le32(b, i) == v,
{
}

/// Two different runs of four bytes never read as the same number.
pub proof fn law_long_numbers_differ(b: Seq<u8>, i: int, c: Seq<u8>, k: int)
    ensures
        le32(b, i) == le32(c, k) <==> b[i] == c[k] && b[i + 1] == c[k + 1] && b[i + 2] == c[k + 2]
            && b[i + 3] == c[k + 3],
        0 <= le32(b, i) <= u32::MAX,
{
}

/// Reading two bytes gives back the number that was written in them.
pub proof fn law_a_short_number_reads_back(b: Seq<u8>, i: int, v: u16)
    ensures
        stands16(b, i, v as int) <==> le16(b, i) == v,
{
}

/// Reading two bytes as a signed number gives back the one that was written in them.
pub proof fn law_a_signed_number_reads_back(b: Seq<u8>, i: int, v: i16)
    ensures
        stands16(b, i, v as int) <==> le16_signed(b, i) == v,
{
}

/// A payload reads back as it was written: the sequence number in bytes 0 to 3, the edge in
/// 4 to 7, the buttons in 8 and 9, the triggers in 10 and 11, then the sticks in two bytes
/// each, left before right and across before up.
pub proof fn law_a_payload_reads_back(b: Seq<u8>, off: int, p: Payload)
    requires
        0 <= off,
        off + 20 <= b.len(),
    ensures
        payload_at(b, off) == p <==> {
            &&& stands32(b, off, p.seq as int)
            &&& stands32(b, off + 4, p.edge_us as int)
            &&& stands16(b, off + 8, p.state.buttons as int)
            &&& b[off + 10] == p.state.lt
            &&& b[off + 11] == p.state.rt
            &&& stands16(b, off + 12, p.state.lx as int)
            &&& stands16(b, off + 14, p.state.ly as int)
            &&& stands16(b, off + 16, p.state.rx as int)
            &&& stands16(b, off + 18, p.state.ry as int)
        },
{
    law_a_long_number_reads_back(b, off, p.seq);
    law_a_long_number_reads_back(b, off + 4, p.edge_us);
    law_a_short_number_reads_back(b, off + 8, p.state.buttons);
    law_a_signed_number_reads_back(b, off + 12, p.state.lx);
    law_a_signed_number_reads_back(b, off + 14, p.state.ly);
    law_a_signed_number_reads_back(b, off + 16, p.state.rx);
    law_a_signed_number_reads_back(b, off + 18, p.state.ry);
}

// ---- laws of the clock --------------------------------------------------------

/// The bridge's offset is never above the one that the latest delivery shows: no edge comes
/// out after its own arrival. Within the time that an offset is trusted it is the smaller of
/// the one before and the new one; once that time is over it is the smallest that has been
/// seen since the last change.
pub proof fn law_the_offset_follows_the_smallest(b: ClockBridge, edge_us: u32, arrival_us: u64)
    requires
        b.wf(),
        arrival_us <= MAX_ARRIVAL_US,
    ensures
        ({
            let n = bridge_after(b, edge_us, arrival_us);
            let obs = arrival_us - edge_us;
            let old_anchor = arrival_us - b.anchored_us > b.reanchor_us;
            &&& n.have
            &&& n.min_offset <= obs
            &&& !b.have ==> n.min_offset == obs && n.anchored_us == arrival_us
            &&& b.have && obs < b.min_offset ==> n.min_offset == obs && n.anchored_us == arrival_us
            &&& b.have && obs >= b.min_offset && !old_anchor ==> n.min_offset == b.min_offset
                && n.anchored_us == b.anchored_us
            &&& b.have && obs >= b.min_offset && old_anchor ==> n.anchored_us == arrival_us
                && n.min_offset == if b.pending_have && b.pending_min <= obs {
                b.pending_min as int
            } else {
                obs
            }
            &&& n.reanchor_us == b.reanchor_us
        }),
{
}

/// What the bridge keeps for the next change of anchor is the smallest offset since the last
/// one; a change starts it afresh, so that a drift of the clocks is followed.
pub proof fn law_the_next_anchor_starts_afresh(b: ClockBridge, edge_us: u32, arrival_us: u64)
    requires
        b.wf(),
        arrival_us <= MAX_ARRIVAL_US,
    ensures
        ({
            let n = bridge_after(b, edge_us, arrival_us);
            let obs = arrival_us - edge_us;
            let replaced = b.have && obs >= b.min_offset && arrival_us - b.anchored_us
                > b.reanchor_us;
            &&& n.pending_have <==> !replaced
            &&& n.pending_have ==> n.pending_min <= obs
            &&& n.pending_have && b.pending_have ==> n.pending_min <= b.pending_min
            &&& n.pending_have ==> n.pending_min == obs || (b.pending_have && n.pending_min
                == b.pending_min)
        }),
{
}

/// Two edges that one offset brings over keep their distance, as long as neither is cut off
/// at the start of the clock or at its arrival.
pub proof fn law_translation_keeps_distances(
    e1: u32,
    a1: u64,
    e2: u32,
    a2: u64,
    min_offset: i64,
)
    requires
        0 <= e1 + min_offset <= a1,
        0 <= e2 + min_offset <= a2,
    ensures
        translated(e2, a2, min_offset) - translated(e1, a1, min_offset) == e2 - e1,
        translated(e1, a1, min_offset) - e1 == min_offset,
{
}

// ---- laws of the stream -------------------------------------------------------

/// The lost payloads are those between two numbers: counted on from the last number, past
/// the lost ones, comes the new number. A number that does not go forward loses nothing;
/// after the highest number the count goes on at 0.
pub proof fn law_lost_payloads_fill_the_gap(s: BulkStream, seq: u32)
    ensures
        !s.have_seq ==> lost_before(s, seq) == 0,
        s.have_seq && seq > s.last_seq ==> s.last_seq + lost_before(s, seq) + 1 == seq,
        s.have_seq && seq <= s.last_seq && s.last_seq < u32::MAX ==> lost_before(s, seq) == 0,
        s.have_seq && s.last_seq == u32::MAX ==> lost_before(s, seq) == seq,
{
}

/// A payload that follows its forerunner adds nothing to the losses; one that comes after a
/// gap adds the length of the gap. Each payload counts once, and the pad is then in the state
/// that the payload carries.
pub proof fn law_each_payload_counts_once(s: BulkStream, p: Payload, arrival_us: u64)
    requires
        s.drops < u64::MAX - u32::MAX,
        s.payloads < u64::MAX,
        s.rate_count < u32::MAX,
    ensures
        ({
            let n = after_payload(s, p, arrival_us);
            &&& n.state == p.state
            &&& n.payloads == s.payloads + 1
            &&& n.rate_count == s.rate_count + 1
            &&& n.have_seq && n.last_seq == p.seq
            &&& s.have_seq && p.seq > s.last_seq ==> n.drops - s.drops == p.seq - s.last_seq - 1
            &&& !s.have_seq || p.seq == s.last_seq + 1 ==> n.drops == s.drops
            &&& n.rate_hz == s.rate_hz && n.rate_t0 == s.rate_t0
        }),
{
}

/// It makes no difference whether payloads come in one transfer or in two that arrive at once.
pub proof fn law_transfers_join(
    s: BulkStream,
    first: Seq<u8>,
    second: Seq<u8>,
    arrival_us: u64,
    n: int,
)
    requires
        first.len() % 20 == 0,
        0 <= 20 * n <= second.len(),
    ensures
        after_payloads(s, first + second, arrival_us, first.len() / 20 + n) == after_payloads(
            after_payloads(s, first, arrival_us, first.len() as int / 20),
            second,
            arrival_us,
            n,
        ),
    decreases n,
{
    let m = first.len() as int / 20;
    if n <= 0 {
        lemma_transfer_prefix(s, first, second, arrival_us, m);
    } else {
        law_transfers_join(s, first, second, arrival_us, n - 1);
        let at = 20 * (m + n - 1);
        assert(forall|i: int|
            0 <= i < 20 ==> (first + second)[at + i] == #[trigger] second[20 * (n - 1) + i]);
        let d = 20 * (n - 1);
        assert(d + 0 == d);
        assert(second[d + 0] == (first + second)[at]);
        assert(payload_at(first + second, at) == payload_at(second, d));
    }
}

proof fn lemma_transfer_prefix(
    s: BulkStream,
    first: Seq<u8>,
    second: Seq<u8>,
    arrival_us: u64,
    n: int,
)
    requires
        20 * n <= first.len(),
    ensures
        after_payloads(s, first + second, arrival_us, n) == after_payloads(s, first, arrival_us, n),
    decreases n,
{
    if n > 0 {
        lemma_transfer_prefix(s, first, second, arrival_us, n - 1);
        assert(payload_at(first + second, 20 * (n - 1)) == payload_at(first, 20 * (n - 1)));
    }
}

/// The rate is that of the payloads since it was last told: as many as came, over the time
/// that they took, rounded down. It is told anew as soon as a fifth of a second has gone by
/// and not before.
pub proof fn law_the_rate_is_payloads_over_time(s: BulkStream, arrival_us: u64)
    ensures
        ({
            let n = rated(s, arrival_us);
            let dt = arrival_us - s.rate_t0;
            &&& dt < 200_000 ==> n == s
            &&& dt >= 200_000 && s.rate_count <= 800_000_000 ==> n.rate_hz * dt <= s.rate_count
                * 1_000_000 < (n.rate_hz + 1) * dt
            &&& dt >= 200_000 ==> n.rate_count == 0 && n.rate_t0 == arrival_us
            &&& n.drops == s.drops && n.payloads == s.payloads && n.state == s.state
            &&& n.clock == s.clock && n.last_seq == s.last_seq && n.have_seq == s.have_seq
        }),
{
    let dt = arrival_us - s.rate_t0;
    if dt >= 200_000 && s.rate_count <= 800_000_000 {
        let x = s.rate_count * 1_000_000;
        let q = x / dt;
        assert(q * dt <= x < (q + 1) * dt) by (nonlinear_arith)
            requires
                q == x / dt,
                dt > 0,
                x >= 0,
        ;
        assert(q <= 4_000_000_000) by (nonlinear_arith)
            requires
                q * dt <= x,
                dt >= 200_000,
                x <= 800_000_000_000_000,
        ;
        assert(q >= 0) by (nonlinear_arith)
            requires
                x < (q + 1) * dt,
                x >= 0,
                dt > 0,
        ;
        assert(x < 0x1_0000_0000_0000_0000);
        assert((s.rate_count as u64 * 1_000_000) as int == x);
    }
}

/// What the search for the bulk endpoint finds is in the descriptors: an endpoint of the
/// kind bulk, towards the host, with the number of the interface descriptor last met before
/// it.
pub proof fn law_the_endpoint_found_is_there(b: Seq<u8>, i: int, iface: Option<u32>)
    ensures
        bulk_in_from(b, i, iface) matches Some((f, addr)) ==> {
            &&& addr >= 128
            &&& exists|k: int|
                i <= k < b.len() - 6 && #[trigger] b[k] >= 7 && b[k + 1] == 5 && b[k + 2] == addr
                    && b[k + 3] % 4 == 2
            &&& iface == Some(f) || exists|k: int|
                i <= k < b.len() - 8 && #[trigger] b[k] >= 9 && b[k + 1] == 4 && b[k + 2] == f
        },
    decreases b.len() - i,
{
    if i < 0 || i + 2 > b.len() || b[i] < 2 || i + b[i] > b.len() {
    } else if b[i + 1] == 0x04 && b[i] >= 9 {
        law_the_endpoint_found_is_there(b, i + b[i], Some(b[i + 2] as u32));
    } else if b[i + 1] == 0x05 && b[i] >= 7 && b[i + 2] & 0x80 != 0 && b[i + 3] & 0x03 == 0x02
        && iface is Some {
        let a = b[i + 2];
        let t = b[i + 3];
        assert(a >= 128) by (bit_vector)
            requires
                a & 0x80 != 0,
        ;
        assert(t % 4 == 2) by (bit_vector)
            requires
                t & 0x03 == 0x02,
        ;
    } else {
        law_the_endpoint_found_is_there(b, i + b[i], iface);
    }
}

/// A bus or device number is filled up to three digits and reads back.
pub proof fn law_bus_numbers_read_back(n: nat)
    ensures
        decimal3(n).len() >= 3,
        crate::text::number(decimal3(n)) == n,
        n <= 999 ==> decimal3(n).len() == 3,
{
    let d = decimal(n);
    crate::text::law_decimal_reads_back(n);
    let k: nat = if d.len() >= 3 {
        0
    } else {
        (3 - d.len()) as nat
    };
    crate::names::lemma_leading_zeros(d, k);
    if n <= 999 {
        reveal_with_fuel(decimal, 4);
    }
    if d.len() >= 3 {
        assert(Seq::new(0, |i: int| '0') + d =~= d);
    }
}

/// One more transfer may be taken in exactly where twenty-five payloads more fit, which is what
/// a full transfer holds.
pub proof fn law_room_for_a_full_transfer(emitted: int, budget: int)
    ensures
        transfer_fits(emitted, budget) <==> emitted + 25 <= budget,
{
}

} // verus!
