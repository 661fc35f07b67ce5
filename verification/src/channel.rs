//! The shared section through which reports reach the driver.
//!
//! The section starts with a sequence number that is odd while a frame is being
//! written and even when it is whole. A frame is therefore an ordered list of
//! stores: odd number, payload, even number. The driver takes a changed even
//! number as a new frame.

use vstd::prelude::*;

verus! {

/// The size of the section.
pub const SHARED_INPUT_SIZE: usize = 362;

pub const OFF_SEQ: usize = 0;
pub const OFF_DATA_SIZE: usize = 4;
pub const OFF_DATA: usize = 8;
pub const OFF_GIP: usize = 264;
pub const OFF_EXT_SIZE: usize = 278;

/// The largest plain report.
pub const DATA_MAX: usize = 256;

/// Bytes to be stored at an offset.
#[derive(Debug)]
pub struct Store {
    pub offset: usize,
    pub bytes: Vec<u8>,
}

/// The offset and the bytes.
pub open spec fn at_offset(s: Store) -> (int, Seq<u8>) {
    (s.offset as int, s.bytes@)
}

/// The offsets and bytes of some stores.
pub open spec fn stores_of(v: Seq<Store>) -> Seq<(int, Seq<u8>)> {
    Seq::new(v.len(), |i: int| at_offset(v[i]))
}

/// A section with some bytes stored.
pub open spec fn stored(img: Seq<u8>, off: int, bytes: Seq<u8>) -> Seq<u8> {
    Seq::new(
        img.len(),
        |i: int|
            if off <= i < off + bytes.len() {
                bytes[i - off]
            } else {
                img[i]
            },
    )
}

/// A section after the first `n` stores.
pub open spec fn after_stores(img: Seq<u8>, w: Seq<(int, Seq<u8>)>, n: int) -> Seq<u8>
    decreases n,
{
    if n <= 0 {
        img
    } else {
        stored(after_stores(img, w, n - 1), w[n - 1].0, w[n - 1].1)
    }
}

/// A number of four bytes, the low one first.
pub open spec fn le_bytes(v: u32) -> Seq<u8> {
    seq![
        (v % 256) as u8,
        (v / 256 % 256) as u8,
        (v / 65536 % 256) as u8,
        (v / 16777216) as u8,
    ]
}

/// The number in four bytes.
pub open spec fn le_value(b: Seq<u8>, i: int) -> int {
    b[i] + 256 * b[i + 1] + 65536 * b[i + 2] + 16777216 * b[i + 3]
}

/// The bytes of a number give the number.
pub proof fn lemma_le_bytes(v: u32)
    ensures
        le_value(le_bytes(v), 0) == v,
        le_bytes(v).len() == 4,
{
}

/// Four zeros.
pub open spec fn zeros4() -> Seq<u8> {
    seq![0u8, 0u8, 0u8, 0u8]
}

fn le_vec(v: u32) -> (r: Vec<u8>)
    ensures
        r@ == le_bytes(v),
{
    let mut r: Vec<u8> = Vec::new();
    r.push((v % 256) as u8);
    r.push((v / 256 % 256) as u8);
    r.push((v / 65536 % 256) as u8);
    r.push((v / 16777216) as u8);
    assert(r@ =~= le_bytes(v));
    r
}

fn zero_vec() -> (r: Vec<u8>)
    ensures
        r@ == zeros4(),
{
    let mut r: Vec<u8> = Vec::new();
    r.push(0);
    r.push(0);
    r.push(0);
    r.push(0);
    assert(r@ =~= zeros4());
    r
}

fn copy_of(b: &[u8], n: usize) -> (r: Vec<u8>)
    requires
        n <= b@.len(),
    ensures
        r@ == b@.take(n as int),
{
    let mut r: Vec<u8> = Vec::new();
    let mut i: usize = 0;
    while i < n
        invariant
            i <= n <= b@.len(),
            r@ == b@.take(i as int),
        decreases n - i,
    {
        r.push(b[i]);
        i = i + 1;
        assert(b@.take(i as int) =~= b@.take(i - 1).push(b@[i - 1]));
    }
    r
}

/// A report, cut off at the largest.
pub open spec fn cut_report(report: Seq<u8>) -> Seq<u8> {
    if report.len() <= DATA_MAX {
        report
    } else {
        report.take(DATA_MAX as int)
    }
}

/// The stores of a frame with a plain report.
pub open spec fn hid_stores(seq: u32, report: Seq<u8>) -> Seq<(int, Seq<u8>)> {
    seq![
        (OFF_SEQ as int, le_bytes(seq.wrapping_add(1))),
        (OFF_DATA_SIZE as int, le_bytes(cut_report(report).len() as u32)),
        (OFF_DATA as int, cut_report(report)),
        (OFF_EXT_SIZE as int, zeros4()),
        (OFF_SEQ as int, le_bytes(seq.wrapping_add(1).wrapping_add(1))),
    ]
}

/// The stores of a frame with a companion report.
pub open spec fn gip_stores(seq: u32, gip: Seq<u8>) -> Seq<(int, Seq<u8>)> {
    seq![
        (OFF_SEQ as int, le_bytes(seq.wrapping_add(1))),
        (OFF_GIP as int, gip),
        (OFF_EXT_SIZE as int, zeros4()),
        (OFF_SEQ as int, le_bytes(seq.wrapping_add(1).wrapping_add(1))),
    ]
}

/// The writing side of the section. Its sequence number is the section's.
#[derive(Clone, Copy, Debug, PartialEq, Eq, Structural)]
pub struct InputChannel {
    pub seq: u32,
}

impl InputChannel {
    /// A section of zeros.
    pub fn create() -> (r: Self)
        ensures
            r.seq == 0,
    {
        InputChannel { seq: 0 }
    }

    /// The stores of a frame with a plain report, in order. The extended size is
    /// cleared each time, which keeps the driver on the plain path.
    pub fn submit(&mut self, report: &[u8]) -> (r: Vec<Store>)
        ensures
            final(self).seq == old(self).seq.wrapping_add(1).wrapping_add(1),
            stores_of(r@) == hid_stores(old(self).seq, report@),
    {
        let n: usize = if report.len() <= DATA_MAX {
            report.len()
        } else {
            DATA_MAX
        };
        let pending: u32 = self.seq.wrapping_add(1);
        let done: u32 = pending.wrapping_add(1);
        let mut r: Vec<Store> = Vec::new();
        r.push(Store { offset: OFF_SEQ, bytes: le_vec(pending) });
        r.push(Store { offset: OFF_DATA_SIZE, bytes: le_vec(n as u32) });
        r.push(Store { offset: OFF_DATA, bytes: copy_of(report, n) });
        r.push(Store { offset: OFF_EXT_SIZE, bytes: zero_vec() });
        r.push(Store { offset: OFF_SEQ, bytes: le_vec(done) });
        self.seq = done;
        proof {
            if report@.len() <= DATA_MAX {
                assert(report@.take(n as int) =~= report@);
            }
            assert(stores_of(r@) =~= hid_stores(old(self).seq, report@));
        }
        r
    }

    /// The stores of a frame with a companion report, in order.
    pub fn submit_gip(&mut self, gip: &[u8; 14]) -> (r: Vec<Store>)
        ensures
            final(self).seq == old(self).seq.wrapping_add(1).wrapping_add(1),
            stores_of(r@) == gip_stores(old(self).seq, gip@),
    {
        let pending: u32 = self.seq.wrapping_add(1);
        let done: u32 = pending.wrapping_add(1);
        let mut bytes: Vec<u8> = Vec::new();
        let mut i: usize = 0;
        while i < 14
            invariant
                i <= 14,
                bytes@ == gip@.take(i as int),
            decreases 14 - i,
        {
            bytes.push(gip[i]);
            i = i + 1;
            assert(gip@.take(i as int) =~= gip@.take(i - 1).push(gip@[i - 1]));
        }
        assert(gip@.take(14) =~= gip@);
        let mut r: Vec<Store> = Vec::new();
        r.push(Store { offset: OFF_SEQ, bytes: le_vec(pending) });
        r.push(Store { offset: OFF_GIP, bytes });
        r.push(Store { offset: OFF_EXT_SIZE, bytes: zero_vec() });
        r.push(Store { offset: OFF_SEQ, bytes: le_vec(done) });
        self.seq = done;
        assert(stores_of(r@) =~= gip_stores(old(self).seq, gip@));
        r
    }
}

/// A reader never takes a half-written frame for a whole one: from the first
/// store of a plain frame up to the last, the sequence number is odd.
pub proof fn law_half_written_frame_is_odd(img: Seq<u8>, seq: u32, report: Seq<u8>, k: int)
    requires
        img.len() == SHARED_INPUT_SIZE,
        seq % 2 == 0,
        1 <= k <= 4,
    ensures
        le_value(after_stores(img, hid_stores(seq, report), k), 0) % 2 == 1,
{
    reveal_with_fuel(after_stores, 5);
    lemma_le_bytes(seq.wrapping_add(1));
}

/// A whole plain frame: the sequence number is the next even one, the payload is
/// the report, and no other byte has changed.
pub proof fn law_whole_frame_is_published(img: Seq<u8>, seq: u32, report: Seq<u8>)
    requires
        img.len() == SHARED_INPUT_SIZE,
        seq % 2 == 0,
    ensures
        ({
            let after = after_stores(img, hid_stores(seq, report), 5);
            let r = cut_report(report);
            &&& le_value(after, 0) == seq.wrapping_add(1).wrapping_add(1)
            &&& le_value(after, 0) % 2 == 0
            &&& le_value(after, OFF_DATA_SIZE as int) == r.len()
            &&& after.subrange(OFF_DATA as int, OFF_DATA + r.len()) == r
            &&& le_value(after, OFF_EXT_SIZE as int) == 0
            &&& forall|i: int|
                OFF_DATA + r.len() <= i < 362 && !(OFF_EXT_SIZE <= i < OFF_EXT_SIZE + 4)
                    ==> #[trigger] after[i] == img[i]
        }),
{
    reveal_with_fuel(after_stores, 6);
    let after = after_stores(img, hid_stores(seq, report), 5);
    let r = cut_report(report);
    lemma_le_bytes(seq.wrapping_add(1).wrapping_add(1));
    lemma_le_bytes(r.len() as u32);
    assert(after.subrange(OFF_DATA as int, OFF_DATA + r.len()) =~= r);
}

/// The same holds of a companion frame: odd from its first store up to its last,
/// then even, with the report in place.
pub proof fn law_companion_frame(img: Seq<u8>, seq: u32, gip: Seq<u8>, k: int)
    requires
        img.len() == SHARED_INPUT_SIZE,
        gip.len() == 14,
        seq % 2 == 0,
        1 <= k <= 3,
    ensures
        le_value(after_stores(img, gip_stores(seq, gip), k), 0) % 2 == 1,
        ({
            let after = after_stores(img, gip_stores(seq, gip), 4);
            &&& le_value(after, 0) == seq.wrapping_add(1).wrapping_add(1)
            &&& le_value(after, 0) % 2 == 0
            &&& after.subrange(OFF_GIP as int, OFF_GIP + 14) == gip
            &&& le_value(after, OFF_EXT_SIZE as int) == 0
        }),
{
    reveal_with_fuel(after_stores, 5);
    lemma_le_bytes(seq.wrapping_add(1));
    lemma_le_bytes(seq.wrapping_add(1).wrapping_add(1));
    let after = after_stores(img, gip_stores(seq, gip), 4);
    assert(after.subrange(OFF_GIP as int, OFF_GIP + 14) =~= gip);
}

/// The places of the section, as the driver knows them: the sequence number first, the size
/// of the report at byte 4 and the report at byte 8, up to 256 bytes of it, the companion at
/// byte 264, and the extended size at byte 278, which is always cleared. A report is written
/// from its first byte.
pub proof fn law_the_driver_finds_the_report(
    img: Seq<u8>,
    seq: u32,
    report: Seq<u8>,
    gip: Seq<u8>,
    i: int,
)
    requires
        img.len() == 362,
        seq % 2 == 0,
        gip.len() == 14,
        0 <= i < report.len(),
        i < 256,
    ensures
        ({
            let plain = after_stores(img, hid_stores(seq, report), 5);
            let companion = after_stores(img, gip_stores(seq, gip), 4);
            let n = if report.len() <= 256 {
                report.len() as int
            } else {
                256
            };
            &&& plain[8 + i] == report[i]
            &&& plain[4] + 256 * plain[5] == n && plain[6] == 0 && plain[7] == 0
            &&& plain[278] == 0 && plain[279] == 0 && plain[280] == 0 && plain[281] == 0
            &&& forall|k: int| 0 <= k < 14 ==> companion[264 + k] == #[trigger] gip[k]
            &&& forall|k: int| 4 <= k < 264 ==> #[trigger] companion[k] == img[k]
            &&& plain[0] as int == (seq + 2) % 256 && companion[0] as int == (seq + 2) % 256
        }),
{
    reveal_with_fuel(after_stores, 6);
}

/// Frames follow each other by two, so that a reader that has seen one knows the next for a
/// new one.
pub proof fn law_each_frame_has_a_new_number(img: Seq<u8>, seq: u32, report: Seq<u8>)
    requires
        img.len() == 362,
        seq % 2 == 0,
    ensures
        le_value(after_stores(img, hid_stores(seq, report), 5), 0) == (seq + 2) % 0x1_0000_0000,
{
    law_whole_frame_is_published(img, seq, report);
}

} // verus!
