//! Button words: a `u16` seen as sixteen bits.

use vstd::prelude::*;

verus! {

/// Number of button bits in a word.
pub const NBITS: usize = 16;

/// Bit `i` of the word `m` is set.
pub open spec fn bit(m: u16, i: int) -> bool {
    0 <= i < 16 && (m >> (i as u16)) & 1 == 1
}

/// How many of the lowest `n` bits of `m` are set.
pub open spec fn ones_below(m: u16, n: int) -> nat
    decreases n,
{
    if n <= 0 {
        0
    } else {
        ones_below(m, n - 1) + if bit(m, n - 1) { 1nat } else { 0nat }
    }
}

/// How many bits of `m` are set.
pub open spec fn ones(m: u16) -> nat {
    ones_below(m, 16)
}

pub broadcast proof fn lemma_bit_and(a: u16, b: u16, i: int)
    ensures
        #[trigger] bit(a & b, i) == (bit(a, i) && bit(b, i)),
{
    let k = i as u16;
    assert(((a & b) >> k) & 1 == 1 <==> (a >> k) & 1 == 1 && (b >> k) & 1 == 1) by (bit_vector);
}

pub broadcast proof fn lemma_bit_or(a: u16, b: u16, i: int)
    ensures
        #[trigger] bit(a | b, i) == (bit(a, i) || bit(b, i)),
{
    let k = i as u16;
    assert(((a | b) >> k) & 1 == 1 <==> (a >> k) & 1 == 1 || (b >> k) & 1 == 1) by (bit_vector);
}

pub broadcast proof fn lemma_bit_not(a: u16, i: int)
    ensures
        #[trigger] bit(!a, i) == (0 <= i < 16 && !bit(a, i)),
{
    let k = i as u16;
    if 0 <= i < 16 {
        assert(((!a) >> k) & 1 == 1 <==> !((a >> k) & 1 == 1)) by (bit_vector)
            requires
                k < 16,
        ;
    }
}

pub broadcast proof fn lemma_bit_zero(i: int)
    ensures
        !#[trigger] bit(0, i),
{
    let k = i as u16;
    assert((0u16 >> k) & 1 == 0) by (bit_vector);
}

pub broadcast group group_bit {
    lemma_bit_and,
    lemma_bit_or,
    lemma_bit_not,
    lemma_bit_zero,
}

/// Two words with the same bits are the same word.
pub proof fn lemma_same_bits(a: u16, b: u16)
    requires
        forall|i: int| 0 <= i < 16 ==> bit(a, i) == bit(b, i),
    ensures
        a == b,
{
    assert(bit(a, 0) == bit(b, 0) && bit(a, 1) == bit(b, 1) && bit(a, 2) == bit(b, 2) && bit(a, 3)
        == bit(b, 3) && bit(a, 4) == bit(b, 4) && bit(a, 5) == bit(b, 5) && bit(a, 6) == bit(b, 6)
        && bit(a, 7) == bit(b, 7) && bit(a, 8) == bit(b, 8) && bit(a, 9) == bit(b, 9) && bit(a, 10)
        == bit(b, 10) && bit(a, 11) == bit(b, 11) && bit(a, 12) == bit(b, 12) && bit(a, 13) == bit(
        b,
        13,
    ) && bit(a, 14) == bit(b, 14) && bit(a, 15) == bit(b, 15));
    assert(a == b) by (bit_vector)
        requires
            ((a >> 0u16) & 1 == 1) == ((b >> 0u16) & 1 == 1),
            ((a >> 1u16) & 1 == 1) == ((b >> 1u16) & 1 == 1),
            ((a >> 2u16) & 1 == 1) == ((b >> 2u16) & 1 == 1),
            ((a >> 3u16) & 1 == 1) == ((b >> 3u16) & 1 == 1),
            ((a >> 4u16) & 1 == 1) == ((b >> 4u16) & 1 == 1),
            ((a >> 5u16) & 1 == 1) == ((b >> 5u16) & 1 == 1),
            ((a >> 6u16) & 1 == 1) == ((b >> 6u16) & 1 == 1),
            ((a >> 7u16) & 1 == 1) == ((b >> 7u16) & 1 == 1),
            ((a >> 8u16) & 1 == 1) == ((b >> 8u16) & 1 == 1),
            ((a >> 9u16) & 1 == 1) == ((b >> 9u16) & 1 == 1),
            ((a >> 10u16) & 1 == 1) == ((b >> 10u16) & 1 == 1),
            ((a >> 11u16) & 1 == 1) == ((b >> 11u16) & 1 == 1),
            ((a >> 12u16) & 1 == 1) == ((b >> 12u16) & 1 == 1),
            ((a >> 13u16) & 1 == 1) == ((b >> 13u16) & 1 == 1),
            ((a >> 14u16) & 1 == 1) == ((b >> 14u16) & 1 == 1),
            ((a >> 15u16) & 1 == 1) == ((b >> 15u16) & 1 == 1),
    ;
}

/// A bit is set exactly where the word and the bit's value have something in common.
pub proof fn lemma_mask(w: u16, k: u16, mask: u16)
    requires
        k < 16,
        mask == 1u16 << k,
    ensures
        (w & mask != 0) == bit(w, k as int),
{
    assert((w & (1u16 << k) != 0) == ((w >> k) & 1 == 1)) by (bit_vector)
        requires
            k < 16,
    ;
}

/// The bits of a word by their values.
pub proof fn lemma_masks(w: u16)
    ensures
        (w & 0x0001 != 0) == bit(w, 0),
        (w & 0x0002 != 0) == bit(w, 1),
        (w & 0x0004 != 0) == bit(w, 2),
        (w & 0x0008 != 0) == bit(w, 3),
        (w & 0x0010 != 0) == bit(w, 4),
        (w & 0x0020 != 0) == bit(w, 5),
        (w & 0x0040 != 0) == bit(w, 6),
        (w & 0x0080 != 0) == bit(w, 7),
        (w & 0x0100 != 0) == bit(w, 8),
        (w & 0x0200 != 0) == bit(w, 9),
        (w & 0x0400 != 0) == bit(w, 10),
        (w & 0x0800 != 0) == bit(w, 11),
        (w & 0x1000 != 0) == bit(w, 12),
        (w & 0x2000 != 0) == bit(w, 13),
        (w & 0x4000 != 0) == bit(w, 14),
        (w & 0x8000 != 0) == bit(w, 15),
{
    assert(1u16 << 0 == 0x0001 && 1u16 << 1 == 0x0002 && 1u16 << 2 == 0x0004 && 1u16 << 3 == 0x0008
        && 1u16 << 4 == 0x0010 && 1u16 << 5 == 0x0020 && 1u16 << 6 == 0x0040 && 1u16 << 7 == 0x0080
        && 1u16 << 8 == 0x0100 && 1u16 << 9 == 0x0200 && 1u16 << 10 == 0x0400 && 1u16 << 11
        == 0x0800 && 1u16 << 12 == 0x1000 && 1u16 << 13 == 0x2000 && 1u16 << 14 == 0x4000 && 1u16
        << 15 == 0x8000) by (bit_vector);
    lemma_mask(w, 0, 0x0001);
    lemma_mask(w, 1, 0x0002);
    lemma_mask(w, 2, 0x0004);
    lemma_mask(w, 3, 0x0008);
    lemma_mask(w, 4, 0x0010);
    lemma_mask(w, 5, 0x0020);
    lemma_mask(w, 6, 0x0040);
    lemma_mask(w, 7, 0x0080);
    lemma_mask(w, 8, 0x0100);
    lemma_mask(w, 9, 0x0200);
    lemma_mask(w, 10, 0x0400);
    lemma_mask(w, 11, 0x0800);
    lemma_mask(w, 12, 0x1000);
    lemma_mask(w, 13, 0x2000);
    lemma_mask(w, 14, 0x4000);
    lemma_mask(w, 15, 0x8000);
}

/// A word of one bit.
pub proof fn lemma_one_bit(k: u16, mask: u16)
    requires
        k < 16,
        mask == 1u16 << k,
    ensures
        forall|i: int| #[trigger] bit(mask, i) == (i == k),
{
    assert forall|i: int| #[trigger] bit(mask, i) == (i == k) by {
        if 0 <= i < 16 {
            let j = i as u16;
            assert((1u16 << k) >> j & 1 == 1 <==> j == k) by (bit_vector)
                requires
                    j < 16,
                    k < 16,
            ;
        }
    }
}

/// The words of one bit by their values.
pub proof fn lemma_flags()
    ensures
        forall|i: int| #[trigger] bit(0x0001, i) == (i == 0),
        forall|i: int| #[trigger] bit(0x0002, i) == (i == 1),
        forall|i: int| #[trigger] bit(0x0004, i) == (i == 2),
        forall|i: int| #[trigger] bit(0x0008, i) == (i == 3),
        forall|i: int| #[trigger] bit(0x0010, i) == (i == 4),
        forall|i: int| #[trigger] bit(0x0020, i) == (i == 5),
        forall|i: int| #[trigger] bit(0x0040, i) == (i == 6),
        forall|i: int| #[trigger] bit(0x0080, i) == (i == 7),
        forall|i: int| #[trigger] bit(0x0100, i) == (i == 8),
        forall|i: int| #[trigger] bit(0x0200, i) == (i == 9),
        forall|i: int| #[trigger] bit(0x0400, i) == (i == 10),
        forall|i: int| #[trigger] bit(0x0800, i) == (i == 11),
        forall|i: int| #[trigger] bit(0x1000, i) == (i == 12),
        forall|i: int| #[trigger] bit(0x2000, i) == (i == 13),
        forall|i: int| #[trigger] bit(0x4000, i) == (i == 14),
        forall|i: int| #[trigger] bit(0x8000, i) == (i == 15),
{
    assert(1u16 << 0 == 0x0001 && 1u16 << 1 == 0x0002 && 1u16 << 2 == 0x0004 && 1u16 << 3 == 0x0008 && 1u16 << 4 == 0x0010 && 1u16 << 5 == 0x0020 && 1u16 << 6 == 0x0040 && 1u16 << 7 == 0x0080 && 1u16 << 8 == 0x0100 && 1u16 << 9 == 0x0200 && 1u16 << 10 == 0x0400 && 1u16 << 11 == 0x0800 && 1u16 << 12 == 0x1000 && 1u16 << 13 == 0x2000 && 1u16 << 14 == 0x4000 && 1u16 << 15 == 0x8000) by (bit_vector);
    lemma_one_bit(0, 0x0001);
    lemma_one_bit(1, 0x0002);
    lemma_one_bit(2, 0x0004);
    lemma_one_bit(3, 0x0008);
    lemma_one_bit(4, 0x0010);
    lemma_one_bit(5, 0x0020);
    lemma_one_bit(6, 0x0040);
    lemma_one_bit(7, 0x0080);
    lemma_one_bit(8, 0x0100);
    lemma_one_bit(9, 0x0200);
    lemma_one_bit(10, 0x0400);
    lemma_one_bit(11, 0x0800);
    lemma_one_bit(12, 0x1000);
    lemma_one_bit(13, 0x2000);
    lemma_one_bit(14, 0x4000);
    lemma_one_bit(15, 0x8000);
}

/// The word whose lowest `n` bits are those that `f` says, and no other.
pub open spec fn word_of(f: spec_fn(int) -> bool, n: int) -> u16
    decreases n,
{
    if n <= 0 {
        0
    } else if f(n - 1) {
        word_of(f, n - 1) | (1u16 << ((n - 1) as u16))
    } else {
        word_of(f, n - 1)
    }
}

/// Every choice of bits is that of some word.
pub proof fn lemma_word_of(f: spec_fn(int) -> bool, n: int)
    requires
        0 <= n <= 16,
    ensures
        forall|i: int| #[trigger] bit(word_of(f, n), i) == (0 <= i < n && f(i)),
    decreases n,
{
    broadcast use group_bit;

    if n > 0 {
        lemma_word_of(f, n - 1);
        let m = word_of(f, n - 1);
        let k = (n - 1) as u16;
        assert forall|i: int| #[trigger] bit(word_of(f, n), i) == (0 <= i < n && f(i)) by {
            if 0 <= i < 16 {
                let j = i as u16;
                assert((1u16 << k) >> j & 1 == 1 <==> j == k) by (bit_vector)
                    requires
                        j < 16,
                        k < 16,
                ;
                assert(bit(1u16 << k, i) == (i == n - 1));
                assert(bit(m, i) == (i < n - 1 && f(i)));
            }
        }
    }
}

/// A word is zero exactly when none of its bits is set.
pub proof fn lemma_zero_word(m: u16)
    ensures
        m == 0 <==> forall|i: int| 0 <= i < 16 ==> !bit(m, i),
{
    broadcast use group_bit;

    if forall|i: int| 0 <= i < 16 ==> !bit(m, i) {
        assert forall|i: int| 0 <= i < 16 implies bit(m, i) == bit(0, i) by {}
        lemma_same_bits(m, 0);
    }
}

/// The count over the lowest bits never exceeds how many there are.
pub proof fn lemma_ones_bound(m: u16, n: int)
    requires
        0 <= n <= 16,
    ensures
        ones_below(m, n) <= n,
    decreases n,
{
    if n > 0 {
        lemma_ones_bound(m, n - 1);
    }
}

/// The words with the same lowest bits have the same count.
pub proof fn lemma_ones_same(a: u16, b: u16, n: int)
    requires
        0 <= n <= 16,
        forall|i: int| 0 <= i < n ==> bit(a, i) == bit(b, i),
    ensures
        ones_below(a, n) == ones_below(b, n),
    decreases n,
{
    if n > 0 {
        lemma_ones_same(a, b, n - 1);
    }
}

/// At least one bit is set exactly when the count is positive.
pub proof fn lemma_one_or_more(m: u16, n: int)
    requires
        0 <= n <= 16,
    ensures
        ones_below(m, n) >= 1 <==> exists|i: int| 0 <= i < n && bit(m, i),
    decreases n,
{
    if n > 0 {
        lemma_one_or_more(m, n - 1);
        if ones_below(m, n) >= 1 {
            if bit(m, n - 1) {
            } else {
                let i = choose|i: int| 0 <= i < n - 1 && bit(m, i);
                assert(0 <= i < n && bit(m, i));
            }
        }
        if exists|i: int| 0 <= i < n && bit(m, i) {
            let i = choose|i: int| 0 <= i < n && bit(m, i);
            if i < n - 1 {
                assert(0 <= i < n - 1 && bit(m, i));
            }
        }
    }
}

/// Two distinct bits are set exactly when the count is at least two.
pub proof fn lemma_two_or_more(m: u16, n: int)
    requires
        0 <= n <= 16,
    ensures
        ones_below(m, n) >= 2 <==> exists|i: int, j: int|
            0 <= i < j < n && #[trigger] bit(m, i) && #[trigger] bit(m, j),
    decreases n,
{
    if n > 0 {
        lemma_two_or_more(m, n - 1);
        lemma_one_or_more(m, n - 1);
        if ones_below(m, n) >= 2 {
            if bit(m, n - 1) {
                let i = choose|i: int| 0 <= i < n - 1 && bit(m, i);
                assert(0 <= i < n - 1 < n && bit(m, i) && bit(m, n - 1));
            } else {
                let (i, j) = choose|i: int, j: int|
                    0 <= i < j < n - 1 && #[trigger] bit(m, i) && #[trigger] bit(m, j);
                assert(0 <= i < j < n && bit(m, i) && bit(m, j));
            }
        }
        if exists|i: int, j: int|
            0 <= i < j < n && #[trigger] bit(m, i) && #[trigger] bit(m, j) {
            let (i, j) = choose|i: int, j: int|
                0 <= i < j < n && #[trigger] bit(m, i) && #[trigger] bit(m, j);
            if j < n - 1 {
                assert(0 <= i < j < n - 1 && bit(m, i) && bit(m, j));
            } else {
                assert(0 <= i < n - 1 && bit(m, i));
            }
        }
    }
}

/// Whether bit `b` of `m` is set.
pub fn test_bit(m: u16, b: usize) -> (r: bool)
    requires
        b < 16,
    ensures
        r == bit(m, b as int),
{
    (m >> (b as u16)) & 1 == 1
}

/// `m` with bit `b` set.
pub fn with_bit(m: u16, b: usize) -> (r: u16)
    requires
        b < 16,
    ensures
        forall|i: int| #[trigger] bit(r, i) == (bit(m, i) || i == b),
{
    let k: u16 = b as u16;
    let r: u16 = m | (1u16 << k);
    proof {
        assert forall|i: int| #[trigger] bit(r, i) == (bit(m, i) || i == b) by {
            if 0 <= i < 16 {
                let j = i as u16;
                assert(((m | (1u16 << k)) >> j) & 1 == 1 <==> (m >> j) & 1 == 1 || j == k)
                    by (bit_vector)
                    requires
                        j < 16,
                        k < 16,
                ;
            }
        }
    }
    r
}

/// The set bit numbers of `m`, lowest first.
pub open spec fn indices_below(m: u16, n: int) -> Seq<usize>
    decreases n,
{
    if n <= 0 {
        Seq::empty()
    } else if bit(m, n - 1) {
        indices_below(m, n - 1).push((n - 1) as usize)
    } else {
        indices_below(m, n - 1)
    }
}

/// The set bit indices of a mask, low to high.
pub fn bits(m: u16) -> (r: Vec<usize>)
    ensures
        r@ == indices_below(m, 16),
{
    let mut r: Vec<usize> = Vec::new();
    let mut b: usize = 0;
    while b < 16
        invariant
            b <= 16,
            r@ == indices_below(m, b as int),
        decreases 16 - b,
    {
        if test_bit(m, b) {
            r.push(b);
        }
        b = b + 1;
    }
    r
}

/// The indices of a mask name its set bits, each once, from low to high; there are as many
/// of them as bits are set.
pub proof fn law_indices_are_the_set_bits(m: u16, n: int)
    requires
        0 <= n <= 16,
    ensures
        forall|i: usize| #[trigger] indices_below(m, n).contains(i) <==> i < n && bit(m, i as int),
        forall|a: int, b: int|
            0 <= a < b < indices_below(m, n).len() ==> #[trigger] indices_below(m, n)[a]
                < #[trigger] indices_below(m, n)[b],
        indices_below(m, n).len() == ones_below(m, n),
    decreases n,
{
    if n > 0 {
        law_indices_are_the_set_bits(m, n - 1);
        let r = indices_below(m, n - 1);
        assert forall|a: int| 0 <= a < r.len() implies #[trigger] r[a] < n - 1 by {
            assert(r.contains(r[a]));
        }
        assert forall|i: usize| #[trigger] indices_below(m, n).contains(i) <==> i < n && bit(
            m,
            i as int,
        ) by {
            let t = indices_below(m, n);
            assert(r.contains(i) <==> i < n - 1 && bit(m, i as int));
            if bit(m, n - 1) {
                if r.contains(i) {
                    let k = choose|k: int| 0 <= k < r.len() && r[k] == i;
                    assert(t[k] == i);
                }
                if i == n - 1 {
                    assert(t[r.len() as int] == i);
                }
                if t.contains(i) {
                    let k = choose|k: int| 0 <= k < t.len() && t[k] == i;
                    if k < r.len() {
                        assert(r[k] == i);
                    }
                }
            }
        }
    }
}

/// The count of a word falls by one when a set bit is taken out, and a word without bits
/// counts nothing.
pub proof fn law_the_count_goes_by_ones(m: u16, k: int, n: u16)
    requires
        0 <= k < 16,
        bit(m, k),
        forall|i: int| #[trigger] bit(n, i) == (bit(m, i) && i != k),
    ensures
        ones(m) == ones(n) + 1,
        ones(0) == 0,
{
    broadcast use group_bit;

    lemma_ones_less(m, n, k, 16);
    assert forall|i: int| 0 <= i < 16 implies !bit(0, i) by {}
    lemma_one_or_more(0, 16);
}

proof fn lemma_ones_less(m: u16, n: u16, k: int, upto: int)
    requires
        0 <= k,
        0 <= upto <= 16,
        bit(m, k),
        forall|i: int| #[trigger] bit(n, i) == (bit(m, i) && i != k),
    ensures
        ones_below(m, upto) == ones_below(n, upto) + if k < upto {
            1nat
        } else {
            0nat
        },
    decreases upto,
{
    if upto > 0 {
        lemma_ones_less(m, n, k, upto - 1);
        assert(bit(n, upto - 1) == (bit(m, upto - 1) && upto - 1 != k));
    }
}

/// How many bits of `m` are set.
pub fn count_ones(m: u16) -> (r: u32)
    ensures
        r == ones(m),
        r <= 16,
{
    let mut n: u32 = 0;
    let mut b: usize = 0;
    while b < 16
        invariant
            b <= 16,
            n == ones_below(m, b as int),
            n <= b,
        decreases 16 - b,
    {
        if test_bit(m, b) {
            n = n + 1;
        }
        b = b + 1;
    }
    n
}

} // verus!
