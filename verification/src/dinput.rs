//! The DirectInput side of the hook: which device is which player, what a joystick
//! state holds, and how much of it is logged.

use crate::bits::{bit, test_bit, with_bit};
use vstd::prelude::*;

verus! {

/// Where the buttons stand in a joystick state, of either length.
pub const BUTTONS_OFFSET: usize = 48;

/// The attacks are the first buttons.
pub const ATTACK_BTN_COUNT: usize = 8;

/// A state of one of these lengths is a joystick's. Keyboards and mice have others.
pub fn is_joystick(len: u32) -> (r: bool)
    ensures
        r == (len == 80 || len == 272),
{
    len == 80 || len == 272
}

/// The devices of the two players, by address, 0 where there is none yet.
#[derive(Clone, Copy, Debug, PartialEq, Eq)]
pub struct DeviceSlots {
    pub device: [usize; 2],
}

/// The slot of a device that is known, or the first free one; the first player's where
/// both are taken.
pub open spec fn slot_granted(d: Seq<usize>, device: usize) -> int {
    if d[0] == device {
        0
    } else if d[1] == device {
        1
    } else if d[0] == 0 {
        0
    } else if d[1] == 0 {
        1
    } else {
        0
    }
}

/// The devices once one has asked for its slot.
pub open spec fn granted(d: Seq<usize>, device: usize) -> Seq<usize> {
    let s = slot_granted(d, device);
    if d[s] == 0 {
        d.update(s, device)
    } else {
        d
    }
}

/// The slot of a known device; the first player's for an unknown one.
pub open spec fn slot_known(d: Seq<usize>, device: usize) -> int {
    if d[0] != device && d[1] == device {
        1
    } else {
        0
    }
}

impl DeviceSlots {
    /// No device yet.
    pub fn new() -> (r: Self)
        ensures
            r.device@ == seq![0usize, 0usize],
    {
        let r = DeviceSlots { device: [0, 0] };
        assert(r.device@ =~= seq![0usize, 0usize]);
        r
    }

    /// Give a device its slot.
    pub fn assign_slot(&mut self, device: usize) -> (r: usize)
        ensures
            r == slot_granted(old(self).device@, device),
            final(self).device@ == granted(old(self).device@, device),
    {
        let ghost d = self.device@;
        if self.device[0] == device {
            return 0;
        }
        if self.device[1] == device {
            return 1;
        }
        if self.device[0] == 0 {
            self.device[0] = device;
            return 0;
        }
        if self.device[1] == 0 {
            self.device[1] = device;
            return 1;
        }
        0
    }

    /// The slot of a device.
    pub fn slot_for(&self, device: usize) -> (r: usize)
        ensures
            r == slot_known(self.device@, device),
    {
        if self.device[0] != device && self.device[1] == device {
            1
        } else {
            0
        }
    }
}

/// A device that was given a slot keeps it, whichever device asks next.
pub proof fn law_a_device_keeps_its_slot(d: Seq<usize>, device: usize, other: usize)
    requires
        d.len() == 2,
        device != 0,
        other != 0,
        granted(d, device).contains(device),
    ensures
        slot_known(granted(d, device), device) == slot_granted(d, device),
        slot_known(granted(granted(d, device), other), device) == slot_granted(d, device),
{
    let g = granted(d, device);
    assert(g[0] == device || g[1] == device);
}

/// A button byte says that the button is down.
pub open spec fn is_down(b: u8) -> bool {
    b & 0x80 != 0
}

/// A word holds the first eight of some button bytes.
pub open spec fn holds_attacks(w: u16, buttons: Seq<u8>) -> bool {
    forall|i: int| 0 <= i < 16 ==> #[trigger] bit(w, i) == (i < 8 && is_down(buttons[i]))
}

/// The attacks of a joystick state, given its button bytes.
pub fn attack_word(buttons: &[u8]) -> (r: u16)
    requires
        buttons@.len() >= 8,
    ensures
        holds_attacks(r, buttons@),
{
    let n: usize = buttons.len();
    assert(n == buttons@.len());
    let mut w: u16 = 0;
    let mut i: usize = 0;
    proof {
        assert forall|j: int| 0 <= j < 16 implies !bit(0, j) by {
            crate::bits::lemma_zero_word(0);
        }
    }
    while i < ATTACK_BTN_COUNT
        invariant
            i <= 8,
            n == buttons@.len(),
            n >= 8,
            forall|j: int| 0 <= j < 16 ==> #[trigger] bit(w, j) == (j < i && is_down(buttons@[j])),
        decreases 8 - i,
    {
        if buttons[i] & 0x80 != 0 {
            w = with_bit(w, i);
        }
        i += 1;
    }
    w
}

/// The button bytes of a word.
pub open spec fn is_bytes_of(b: Seq<u8>, w: u16) -> bool {
    &&& b.len() == 8
    &&& forall|i: int|
        0 <= i < 8 ==> #[trigger] b[i] == (if bit(w, i) {
            0x80u8
        } else {
            0
        })
}

/// The button bytes that show the game a word.
pub fn attack_bytes(w: u16) -> (r: [u8; 8])
    ensures
        is_bytes_of(r@, w),
{
    let mut r: [u8; 8] = [0; 8];
    let mut i: usize = 0;
    while i < ATTACK_BTN_COUNT
        invariant
            i <= 8,
            r@.len() == 8,
            forall|j: int|
                0 <= j < i ==> #[trigger] r@[j] == (if bit(w, j) {
                    0x80u8
                } else {
                    0
                }),
        decreases 8 - i,
    {
        r[i] = if test_bit(w, i) {
            0x80
        } else {
            0
        };
        i += 1;
    }
    r
}

/// The bytes that the game is shown read as the word that they were made of.
pub proof fn law_shown_bytes_read_back(b: Seq<u8>, w: u16, again: u16)
    requires
        is_bytes_of(b, w),
        holds_attacks(again, b),
    ensures
        forall|i: int| 0 <= i < 8 ==> #[trigger] bit(again, i) == bit(w, i),
{
    assert(0x80u8 & 0x80 != 0) by (bit_vector);
    assert(0u8 & 0x80 == 0) by (bit_vector);
    assert forall|i: int| 0 <= i < 8 implies #[trigger] bit(again, i) == bit(w, i) by {
        assert(b[i] == (if bit(w, i) {
            0x80u8
        } else {
            0
        }));
    }
}

/// The log of one launch holds this many bytes and no more.
pub const MAX_LOG_BYTES: usize = 1_048_576;

/// The bytes of the notice that ends a log, with its line feed.
pub const NOTICE_BYTES: usize = 55;

/// The notice that ends a log.
pub fn ceiling_notice() -> (r: &'static str)
    ensures
        r@ == "-- log ceiling reached, further messages suppressed --"@,
        r@.len() + 1 == NOTICE_BYTES,
        forall|i: int| 0 <= i < r@.len() ==> (#[trigger] r@[i]) as u32 <= 127,
{
    proof {
        reveal_strlit("-- log ceiling reached, further messages suppressed --");
    }
    "-- log ceiling reached, further messages suppressed --"
}

/// How much has been written to the log, and whether the notice was.
#[derive(Clone, Copy, Debug, PartialEq, Eq, Structural)]
pub struct LogBudget {
    pub used: usize,
    pub closed: bool,
}

/// What becomes of a message.
#[derive(Clone, Copy, Debug, PartialEq, Eq, Structural)]
pub enum Admit {
    /// It is dropped.
    Drop,
    /// It is written, with a line feed.
    Write,
    /// It is dropped, and the notice is written in its place.
    Notice,
}

/// A message of `len` bytes and its line feed fit, and the notice after them.
pub open spec fn fits(b: LogBudget, len: usize) -> bool {
    !b.closed && b.used + len + 1 + NOTICE_BYTES <= MAX_LOG_BYTES
}

/// What becomes of a message of `len` bytes.
pub open spec fn admitted(b: LogBudget, len: usize) -> Admit {
    if fits(b, len) {
        Admit::Write
    } else if b.closed {
        Admit::Drop
    } else {
        Admit::Notice
    }
}

/// The bytes that are written for a message of `len` bytes.
pub open spec fn cost(b: LogBudget, len: usize) -> nat {
    match admitted(b, len) {
        Admit::Write => (len + 1) as nat,
        Admit::Notice => NOTICE_BYTES as nat,
        Admit::Drop => 0,
    }
}

/// The budget after a message.
pub open spec fn charged(b: LogBudget, len: usize) -> LogBudget {
    match admitted(b, len) {
        Admit::Write => LogBudget { used: (b.used + len + 1) as usize, closed: false },
        Admit::Notice => LogBudget {
            used: if b.used + NOTICE_BYTES <= usize::MAX {
                (b.used + NOTICE_BYTES) as usize
            } else {
                usize::MAX
            },
            closed: true,
        },
        Admit::Drop => b,
    }
}

/// An empty log.
pub open spec fn empty_log() -> LogBudget {
    LogBudget { used: 0, closed: false }
}

impl LogBudget {
    pub fn new() -> (r: Self)
        ensures
            r == empty_log(),
    {
        LogBudget { used: 0, closed: false }
    }

    /// Ask for room for a message of `len` bytes. It is written only where it and its line
    /// feed leave room for the notice; the first that does not fit ends the log.
    pub fn log(&mut self, len: usize) -> (r: Admit)
        ensures
            *final(self) == charged(*old(self), len),
            r == admitted(*old(self), len),
    {
        if self.closed {
            return Admit::Drop;
        }
        let room: usize = MAX_LOG_BYTES - NOTICE_BYTES;
        if self.used < room && len < room - self.used {
            self.used = self.used + len + 1;
            Admit::Write
        } else {
            self.used = self.used.saturating_add(NOTICE_BYTES);
            self.closed = true;
            Admit::Notice
        }
    }
}

/// The log after messages of these lengths.
pub open spec fn logged(lens: Seq<usize>) -> LogBudget
    decreases lens.len(),
{
    if lens.len() == 0 {
        empty_log()
    } else {
        charged(logged(lens.drop_last()), lens.last())
    }
}

/// The bytes that messages of these lengths have had written.
pub open spec fn written(lens: Seq<usize>) -> nat
    decreases lens.len(),
{
    if lens.len() == 0 {
        0
    } else {
        written(lens.drop_last()) + cost(logged(lens.drop_last()), lens.last())
    }
}

/// Whatever is logged in one launch, the bytes written, the notice with them, never
/// exceed the ceiling.
pub proof fn law_the_ceiling_is_hard(lens: Seq<usize>)
    ensures
        written(lens) <= MAX_LOG_BYTES,
        written(lens) == logged(lens).used,
        !logged(lens).closed ==> written(lens) + NOTICE_BYTES <= MAX_LOG_BYTES,
    decreases lens.len(),
{
    if lens.len() > 0 {
        law_the_ceiling_is_hard(lens.drop_last());
    }
}

/// Once the notice is written, nothing more is, the notice neither.
pub proof fn law_nothing_follows_the_notice(b: LogBudget, first: usize, later: usize)
    requires
        b.closed || admitted(b, first) == Admit::Notice,
    ensures
        admitted(charged(b, first), later) == Admit::Drop,
        charged(charged(b, first), later) == charged(b, first),
{
}

} // verus!
