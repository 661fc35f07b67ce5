//! The bulk stream as Windows reads it: the latest frame, the frames lost, the
//! rate, and which device and pipe it comes from.

use crate::bulk::{decode_payload, payload_at, Payload};
use crate::pad::{neutral, PadState};
use crate::text::{
    chars_of, contains, has_text, hex, lower, lowered, put, put_hex, text_of_units, utf16_text,
};
use vstd::prelude::*;

verus! {

/// The vendor and product of the stick in its bulk mode.
pub const NOBD_BULK_VID: u16 = 0xCAFE;

pub const NOBD_BULK_PID: u16 = 0x4030;

/// A frame is this long.
pub const FRAME_LEN: usize = 20;

/// The rate is measured over at least this long.
pub const RATE_US: u64 = 200_000;

/// Between two tries to open the device the reader looks this often whether it is
/// to end, ten times.
pub const BACKOFF_MS: u64 = 25;

pub const BACKOFF_STEPS: u32 = 10;

/// The latest frame of the stream, and how the stream fares.
#[derive(Clone, Copy, Debug, PartialEq, Eq, Structural)]
pub struct BulkSnapshot {
    pub pad: PadState,
    /// The firmware's microsecond of the latest frame.
    pub edge: u32,
    /// Frames that the sequence numbers show to be lost.
    pub lost: u32,
    /// Frames per second.
    pub rate: u32,
    /// The stream is open.
    pub open: bool,
    /// The reader is asked to end.
    pub stopping: bool,
    pub last_seq: u32,
    pub have_seq: bool,
    pub rate_frames: u32,
    pub rate_t0: u64,
}

/// Nothing yet.
pub open spec fn no_frames() -> BulkSnapshot {
    BulkSnapshot {
        pad: neutral(),
        edge: 0,
        lost: 0,
        rate: 0,
        open: false,
        stopping: false,
        last_seq: 0,
        have_seq: false,
        rate_frames: 0,
        rate_t0: 0,
    }
}

/// The frames lost before the one numbered `seq`.
pub open spec fn skipped(s: BulkSnapshot, seq: u32) -> u32 {
    if s.have_seq && seq > s.last_seq.wrapping_add(1) {
        seq.wrapping_sub(s.last_seq).wrapping_sub(1)
    } else {
        0
    }
}

/// The snapshot after one frame.
pub open spec fn after_frame(s: BulkSnapshot, p: Payload) -> BulkSnapshot {
    BulkSnapshot {
        pad: p.state,
        edge: p.edge_us,
        lost: s.lost.wrapping_add(skipped(s, p.seq)),
        last_seq: p.seq,
        have_seq: true,
        rate_frames: s.rate_frames.wrapping_add(1),
        ..s
    }
}

/// The snapshot after the first `n` frames of a transfer.
pub open spec fn after_frames(s: BulkSnapshot, data: Seq<u8>, n: nat) -> BulkSnapshot
    decreases n,
{
    if n == 0 {
        s
    } else {
        after_frame(
            after_frames(s, data, (n - 1) as nat),
            payload_at(data, FRAME_LEN * (n - 1)),
        )
    }
}

/// The snapshot with its rate brought up to date.
pub open spec fn with_rate(s: BulkSnapshot, now_us: u64) -> BulkSnapshot {
    if now_us >= s.rate_t0 + RATE_US {
        BulkSnapshot {
            rate: (s.rate_frames as u64 * 1_000_000 / (now_us - s.rate_t0)) as u64 as u32,
            rate_frames: 0,
            rate_t0: now_us,
            ..s
        }
    } else {
        s
    }
}

impl BulkSnapshot {
    /// Nothing yet.
    pub fn new() -> (r: Self)
        ensures
            r == no_frames(),
    {
        BulkSnapshot {
            pad: PadState::default(),
            edge: 0,
            lost: 0,
            rate: 0,
            open: false,
            stopping: false,
            last_seq: 0,
            have_seq: false,
            rate_frames: 0,
            rate_t0: 0,
        }
    }

    /// Ask the reader to end.
    pub fn stop(&mut self)
        ensures
            *final(self) == (BulkSnapshot { stopping: true, ..*old(self) }),
    {
        self.stopping = true;
    }

    /// Whether the stream is open.
    pub fn present(&self) -> (r: bool)
        ensures
            r == self.open,
    {
        self.open
    }

    /// The frames lost so far.
    pub fn drops(&self) -> (r: u32)
        ensures
            r == self.lost,
    {
        self.lost
    }

    /// Frames per second.
    pub fn rate_hz(&self) -> (r: u32)
        ensures
            r == self.rate,
    {
        self.rate
    }

    /// The firmware's microsecond of the latest frame.
    pub fn edge_us(&self) -> (r: u32)
        ensures
            r == self.edge,
    {
        self.edge
    }

    /// The latest frame: buttons, triggers and sticks.
    pub fn get(&self) -> (r: (u16, u8, u8, i16, i16, i16, i16))
        ensures
            r == (
                self.pad.buttons,
                self.pad.lt,
                self.pad.rt,
                self.pad.lx,
                self.pad.ly,
                self.pad.rx,
                self.pad.ry,
            ),
    {
        (
            self.pad.buttons,
            self.pad.lt,
            self.pad.rt,
            self.pad.lx,
            self.pad.ly,
            self.pad.rx,
            self.pad.ry,
        )
    }

    /// The stream has been opened at `now_us`: sequence numbers and the rate start
    /// afresh.
    pub fn attach(&mut self, now_us: u64)
        ensures
            *final(self) == (BulkSnapshot {
                open: true,
                last_seq: 0,
                have_seq: false,
                rate_frames: 0,
                rate_t0: now_us,
                ..*old(self)
            }),
    {
        self.open = true;
        self.last_seq = 0;
        self.have_seq = false;
        self.rate_frames = 0;
        self.rate_t0 = now_us;
    }

    /// The stream is gone.
    pub fn detach(&mut self)
        ensures
            *final(self) == (BulkSnapshot { open: false, rate: 0, ..*old(self) }),
    {
        self.open = false;
        self.rate = 0;
    }

    /// Take in a transfer: every whole frame in it, in order.
    pub fn on_transfer(&mut self, data: &[u8], now_us: u64)
        ensures
            *final(self) == with_rate(
                after_frames(*old(self), data@, (data@.len() / FRAME_LEN as nat) as nat),
                now_us,
            ),
    {
        let n: usize = data.len();
        assert(n == data@.len());
        let mut off: usize = 0;
        let mut k: usize = 0;
        while n - off >= FRAME_LEN
            invariant
                off <= n == data@.len(),
                off == FRAME_LEN * k,
                *self == after_frames(*old(self), data@, k as nat),
            decreases n - off,
        {
            let p: Payload = decode_payload(data, off);
            if self.have_seq && p.seq > self.last_seq.wrapping_add(1) {
                let gap: u32 = p.seq.wrapping_sub(self.last_seq).wrapping_sub(1);
                self.lost = self.lost.wrapping_add(gap);
            } else {
                assert(self.lost.wrapping_add(0) == self.lost);
            }
            self.last_seq = p.seq;
            self.have_seq = true;
            self.pad = p.state;
            self.edge = p.edge_us;
            self.rate_frames = self.rate_frames.wrapping_add(1);
            off += FRAME_LEN;
            k += 1;
        }
        assert(k == n / FRAME_LEN) by (nonlinear_arith)
            requires
                FRAME_LEN == 20,
                off == FRAME_LEN * k,
                n - off < FRAME_LEN,
                off <= n,
        ;
        if now_us >= self.rate_t0 && now_us - self.rate_t0 >= RATE_US {
            let dt: u64 = now_us - self.rate_t0;
            self.rate = (self.rate_frames as u64 * 1_000_000 / dt) as u32;
            self.rate_frames = 0;
            self.rate_t0 = now_us;
        }
    }
}

/// The piece of a device path that tells vendor and product.
pub open spec fn path_needle(vid: u16, pid: u16) -> Seq<char> {
    "vid_"@ + hex(vid as nat, 4, false) + "&pid_"@ + hex(pid as nat, 4, false)
}

/// The first of some device paths that names the vendor and product, in any case of
/// letters.
pub fn find_device_path(paths: &Vec<Vec<u16>>, vid: u16, pid: u16) -> (r: Option<usize>)
    ensures
        r matches Some(i) ==> {
            &&& i < paths@.len()
            &&& names_device(paths@[i as int]@, vid, pid)
            &&& forall|j: int| 0 <= j < i ==> !names_device((#[trigger] paths@[j])@, vid, pid)
        },
        r is None ==> forall|j: int|
            0 <= j < paths@.len() ==> !names_device((#[trigger] paths@[j])@, vid, pid),
{
    let mut needle: Vec<char> = chars_of("vid_");
    put_hex(&mut needle, vid as u32, 4, false);
    put(&mut needle, "&pid_");
    put_hex(&mut needle, pid as u32, 4, false);
    assert(needle@ =~= path_needle(vid, pid));
    let mut i: usize = 0;
    while i < paths.len()
        invariant
            i <= paths@.len(),
            needle@ == path_needle(vid, pid),
            forall|j: int| 0 <= j < i ==> !names_device((#[trigger] paths@[j])@, vid, pid),
        decreases paths@.len() - i,
    {
        let s: String = text_of_units(paths[i].as_slice());
        if has_text(&lowered(&chars_of(s.as_str())), &needle) {
            return Some(i);
        }
        assert(!names_device(paths@[i as int]@, vid, pid));
        i += 1;
    }
    None
}

/// A device path names the vendor and product.
pub open spec fn names_device(path: Seq<u16>, vid: u16, pid: u16) -> bool {
    contains(lower(utf16_text(path)), path_needle(vid, pid))
}

/// A bulk pipe that comes in.
pub open spec fn is_bulk_in(pipe: (u8, bool)) -> bool {
    pipe.0 & 0x80 != 0 && pipe.1
}

/// The pipe to read: of the device's pipes, each with its address and whether it is
/// a bulk pipe, the last bulk pipe that comes in.
pub fn choose_pipe(pipes: &Vec<(u8, bool)>) -> (r: Option<u8>)
    ensures
        r is None <==> forall|i: int| 0 <= i < pipes@.len() ==> !is_bulk_in(#[trigger] pipes@[i]),
        r matches Some(id) ==> exists|i: int|
            {
                &&& 0 <= i < pipes@.len()
                &&& id == (#[trigger] pipes@[i]).0
                &&& is_bulk_in(pipes@[i])
                &&& forall|j: int| i < j < pipes@.len() ==> !is_bulk_in(#[trigger] pipes@[j])
            },
{
    let mut i: usize = pipes.len();
    while i > 0
        invariant
            i <= pipes@.len(),
            forall|j: int| i <= j < pipes@.len() ==> !is_bulk_in(#[trigger] pipes@[j]),
        decreases i,
    {
        i -= 1;
        let (id, bulk) = pipes[i];
        if id & 0x80 != 0 && bulk {
            assert(is_bulk_in(pipes@[i as int]));
            return Some(id);
        }
    }
    None
}

/// The lost frames are those between two numbers: counted on from the last number, past the
/// lost ones, comes the new number. A number that does not go forward loses nothing; after
/// the highest number the count goes on at 0.
pub proof fn law_lost_frames_fill_the_gap(s: BulkSnapshot, seq: u32)
    ensures
        !s.have_seq ==> skipped(s, seq) == 0,
        s.have_seq && seq > s.last_seq ==> s.last_seq + skipped(s, seq) + 1 == seq,
        s.have_seq && seq <= s.last_seq && s.last_seq < u32::MAX ==> skipped(s, seq) == 0,
        s.have_seq && s.last_seq == u32::MAX ==> skipped(s, seq) == seq,
{
}

/// Each frame counts once, brings the pad to its own state, and adds to the losses what lies
/// between it and its forerunner.
pub proof fn law_each_frame_counts_once(s: BulkSnapshot, p: Payload)
    requires
        s.rate_frames < u32::MAX,
    ensures
        ({
            let n = after_frame(s, p);
            &&& n.pad == p.state && n.edge == p.edge_us
            &&& n.rate_frames == s.rate_frames + 1
            &&& n.have_seq && n.last_seq == p.seq
            &&& s.have_seq && p.seq == s.last_seq + 1 ==> n.lost == s.lost
            &&& s.have_seq && p.seq > s.last_seq && s.lost + (p.seq - s.last_seq - 1) <= u32::MAX
                ==> n.lost == s.lost + (p.seq - s.last_seq - 1)
            &&& n.open == s.open && n.stopping == s.stopping
        }),
{
}

/// Both readers of the stream see the same pad and lose the same frames.
pub proof fn law_both_readers_see_one_stream(
    s: BulkSnapshot,
    t: crate::bulk::BulkStream,
    p: Payload,
    arrival_us: u64,
)
    requires
        s.have_seq == t.have_seq,
        s.last_seq == t.last_seq,
    ensures
        after_frame(s, p).pad == crate::bulk::after_payload(t, p, arrival_us).state,
        skipped(s, p.seq) == crate::bulk::lost_before(t, p.seq),
{
}

/// The rate is that of the frames since it was last told, rounded down; it is told anew as
/// soon as a fifth of a second has gone by and not before.
pub proof fn law_the_rate_is_frames_over_time(s: BulkSnapshot, now_us: u64)
    ensures
        ({
            let n = with_rate(s, now_us);
            let dt = now_us - s.rate_t0;
            &&& dt < 200_000 ==> n == s
            &&& dt >= 200_000 && s.rate_frames <= 800_000_000 ==> n.rate * dt <= s.rate_frames
                * 1_000_000 < (n.rate + 1) * dt
            &&& dt >= 200_000 ==> n.rate_frames == 0 && n.rate_t0 == now_us
            &&& n.lost == s.lost && n.pad == s.pad && n.edge == s.edge && n.open == s.open
        }),
{
    let dt = now_us - s.rate_t0;
    if dt >= 200_000 && s.rate_frames <= 800_000_000 {
        let x = s.rate_frames * 1_000_000;
        let q = x / dt;
        assert(q * dt <= x < (q + 1) * dt) by (nonlinear_arith)
            requires
                q == x / dt,
                dt > 0,
                x >= 0,
        ;
        assert(0 <= q <= 4_000_000_000) by (nonlinear_arith)
            requires
                q * dt <= x < (q + 1) * dt,
                dt >= 200_000,
                0 <= x <= 800_000_000_000_000,
        ;
        assert((s.rate_frames as u64 * 1_000_000) as int == x);
    }
}

/// A pipe comes in exactly where its address has the highest bit, and is read only if it is a
/// bulk pipe.
pub proof fn law_pipes_that_come_in(pipe: (u8, bool))
    ensures
        is_bulk_in(pipe) <==> pipe.0 >= 128 && pipe.1,
{
    let a = pipe.0;
    assert(a & 0x80 != 0 <==> a >= 128) by (bit_vector);
}

/// Once a path names a device it names no other: the piece tells vendor and product apart.
pub proof fn law_needles_differ(v1: u16, p1: u16, v2: u16, p2: u16)
    requires
        path_needle(v1, p1) == path_needle(v2, p2),
    ensures
        v1 == v2 && p1 == p2,
{
    let (a, b) = (path_needle(v1, p1), path_needle(v2, p2));
    reveal_with_fuel(crate::text::pow16, 5);
    assert(crate::text::pow16(4) == 65536);
    reveal_strlit("vid_");
    reveal_strlit("&pid_");
    lemma_hex_len(v1 as nat, 4);
    lemma_hex_len(v2 as nat, 4);
    lemma_hex_len(p1 as nat, 4);
    lemma_hex_len(p2 as nat, 4);
    assert(a.subrange(4, 8) =~= hex(v1 as nat, 4, false));
    assert(b.subrange(4, 8) =~= hex(v2 as nat, 4, false));
    assert(a.subrange(13, 17) =~= hex(p1 as nat, 4, false));
    assert(b.subrange(13, 17) =~= hex(p2 as nat, 4, false));
    crate::text::law_hex_reads_back(v1 as nat, 4, false);
    crate::text::law_hex_reads_back(v2 as nat, 4, false);
    crate::text::law_hex_reads_back(p1 as nat, 4, false);
    crate::text::law_hex_reads_back(p2 as nat, 4, false);
}

proof fn lemma_hex_len(n: nat, width: nat)
    ensures
        hex(n, width, false).len() == width,
    decreases width,
{
    if width > 0 {
        lemma_hex_len(n / 16, (width - 1) as nat);
    }
}

} // verus!
