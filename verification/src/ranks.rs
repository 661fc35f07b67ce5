//! Order statistics of measured samples.

use vstd::prelude::*;
use vstd::relations::{sorted_by, total_ordering};

verus! {

/// The samples in ascending order.
pub open spec fn ascending(s: Seq<u64>) -> Seq<u64> {
    s.sort_by(|a: u64, b: u64| a <= b)
}

/// The sum of the samples.
pub open spec fn total(s: Seq<u64>) -> nat
    decreases s.len(),
{
    if s.len() == 0 {
        0
    } else {
        total(s.drop_last()) + s.last() as nat
    }
}

/// A sorted rearrangement of `s` is its ascending order.
proof fn lemma_is_ascending(s: Seq<u64>, r: Seq<u64>)
    requires
        r.to_multiset() == s.to_multiset(),
        forall|i: int, j: int| 0 <= i < j < r.len() ==> r[i] <= r[j],
    ensures
        r == ascending(s),
{
    let leq = |a: u64, b: u64| a <= b;
    assert(total_ordering(leq));
    s.lemma_sort_by_ensures(leq);
    assert(sorted_by(r, leq));
    vstd::seq_lib::lemma_sorted_unique(r, ascending(s), leq);
}

/// The samples in ascending order.
pub fn sort_ascending(v: &Vec<u64>) -> (r: Vec<u64>)
    ensures
        r@ == ascending(v@),
        r@.len() == v@.len(),
{
    let mut r: Vec<u64> = Vec::new();
    let mut i: usize = 0;
    proof {
        assert(v@.take(0) =~= r@);
    }
    while i < v.len()
        invariant
            i <= v.len(),
            r@.len() == i,
            r@.to_multiset() == v@.take(i as int).to_multiset(),
            forall|a: int, b: int| 0 <= a < b < r@.len() ==> r@[a] <= r@[b],
        decreases v.len() - i,
    {
        let x: u64 = v[i];
        let mut at: usize = r.len();
        while at > 0 && r[at - 1] > x
            invariant
                at <= r@.len(),
                forall|a: int, b: int| 0 <= a < b < r@.len() ==> r@[a] <= r@[b],
                forall|a: int| at <= a < r@.len() ==> #[trigger] r@[a] > x,
            decreases at,
        {
            at = at - 1;
        }
        let ghost before = r@;
        r.insert(at, x);
        proof {
            broadcast use vstd::seq_lib::group_to_multiset_ensures;

            assert(r@ == before.insert(at as int, x));
            assert(v@.take(i + 1) =~= v@.take(i as int).push(x));
            assert forall|a: int, b: int| 0 <= a < b < r@.len() implies r@[a] <= r@[b] by {
                if a < at && b == at {
                    assert(before[a] <= before[at - 1]);
                } else if a == at {
                    assert(before[b - 1] > x);
                } else if a < at && b < at {
                    assert(before[a] <= before[b]);
                } else if a < at {
                    assert(before[a] <= before[b - 1]);
                } else {
                    assert(before[a - 1] <= before[b - 1]);
                }
            }
        }
        i = i + 1;
    }
    proof {
        assert(v@.take(i as int) =~= v@);
        lemma_is_ascending(v@, r@);
    }
    r
}

/// The sum of the samples, where it fits.
pub fn sum_of(v: &Vec<u64>) -> (r: u64)
    requires
        total(v@) <= u64::MAX,
    ensures
        r == total(v@),
{
    let mut sum: u64 = 0;
    let mut i: usize = 0;
    while i < v.len()
        invariant
            i <= v.len(),
            sum == total(v@.take(i as int)),
            total(v@) <= u64::MAX,
        decreases v.len() - i,
    {
        proof {
            assert(v@.take(i + 1).drop_last() =~= v@.take(i as int));
            lemma_total_prefix(v@, i + 1);
        }
        sum = sum + v[i];
        i = i + 1;
    }
    assert(v@.take(i as int) =~= v@);
    sum
}

/// A prefix sums to no more than the whole.
pub proof fn lemma_total_prefix(s: Seq<u64>, n: int)
    requires
        0 <= n <= s.len(),
    ensures
        total(s.take(n)) <= total(s),
    decreases s.len(),
{
    if n == s.len() {
        assert(s.take(n) =~= s);
    } else {
        lemma_total_prefix(s.drop_last(), n);
        assert(s.drop_last().take(n) =~= s.take(n));
    }
}

/// Samples of at most `bound` sum to at most `bound` each.
pub proof fn lemma_total_bound(s: Seq<u64>, bound: nat)
    requires
        forall|i: int| 0 <= i < s.len() ==> #[trigger] s[i] <= bound,
    ensures
        total(s) <= bound * s.len(),
    decreases s.len(),
{
    if s.len() > 0 {
        assert(s.last() == s[s.len() - 1]);
        assert forall|i: int| 0 <= i < s.drop_last().len() implies #[trigger] s.drop_last()[i]
            <= bound by {
            assert(s.drop_last()[i] == s[i]);
        }
        lemma_total_bound(s.drop_last(), bound);
        assert(bound * s.len() == bound * (s.len() - 1) + bound) by (nonlinear_arith)
            requires
                s.len() >= 1,
        ;
    }
}

// ---- counting ---------------------------------------------------------------

/// How many of the samples are greater than `limit`.
pub open spec fn above(s: Seq<u64>, limit: int) -> nat
    decreases s.len(),
{
    if s.len() == 0 {
        0
    } else {
        above(s.drop_last(), limit) + if s.last() > limit {
            1nat
        } else {
            0nat
        }
    }
}

proof fn lemma_above_by_multiset(s: Seq<u64>, limit: int)
    ensures
        above(s, limit) == s.to_multiset().filter(|v: u64| v > limit).len(),
    decreases s.len(),
{
    broadcast use vstd::multiset::group_multiset_axioms;
    broadcast use vstd::seq_lib::group_to_multiset_ensures;

    let f = |v: u64| v > limit;
    if s.len() == 0 {
        assert(s.to_multiset().filter(f) =~= vstd::multiset::Multiset::empty());
    } else {
        let h = s.drop_last();
        let x = s.last();
        lemma_above_by_multiset(h, limit);
        assert(s =~= h.push(x));
        assert(s.to_multiset() =~= h.to_multiset().insert(x));
        if x > limit {
            assert(s.to_multiset().filter(f) =~= h.to_multiset().filter(f).insert(x));
        } else {
            assert(s.to_multiset().filter(f) =~= h.to_multiset().filter(f));
        }
    }
}

/// At most as many samples are above `limit` as stand behind the first `k`, where those are
/// not above it; at least as many, where all those behind are.
pub proof fn lemma_above_split(s: Seq<u64>, limit: int, k: int)
    requires
        0 <= k <= s.len(),
    ensures
        (forall|i: int| 0 <= i < k ==> #[trigger] s[i] <= limit) ==> above(s, limit) <= s.len() - k,
        (forall|i: int| k <= i < s.len() ==> #[trigger] s[i] > limit) ==> above(s, limit) >= s.len()
            - k,
    decreases s.len(),
{
    if s.len() > 0 {
        let h = s.drop_last();
        let n = s.len() - 1;
        if k <= n {
            lemma_above_split(h, limit, k);
            if forall|i: int| 0 <= i < k ==> #[trigger] s[i] <= limit {
                assert forall|i: int| 0 <= i < k implies #[trigger] h[i] <= limit by {
                    assert(s[i] <= limit);
                }
            }
            if forall|i: int| k <= i < s.len() ==> #[trigger] s[i] > limit {
                assert forall|i: int| k <= i < h.len() implies #[trigger] h[i] > limit by {
                    assert(s[i] > limit);
                }
                assert(s[n] > limit);
            }
        } else {
            if forall|i: int| 0 <= i < k ==> #[trigger] s[i] <= limit {
                lemma_above_split(h, limit, n);
                assert forall|i: int| 0 <= i < n implies #[trigger] h[i] <= limit by {
                    assert(s[i] <= limit);
                }
                assert(s[n] <= limit);
            }
        }
    }
}

/// The ascending order is a rearrangement of the samples, each of them as often as before, and
/// no sample is followed by a smaller one.
pub proof fn law_ascending_is_a_sorted_rearrangement(s: Seq<u64>)
    ensures
        ascending(s).to_multiset() == s.to_multiset(),
        ascending(s).len() == s.len(),
        forall|i: int, j: int|
            0 <= i <= j < s.len() ==> #[trigger] ascending(s)[i] <= #[trigger] ascending(s)[j],
{
    let leq = |a: u64, b: u64| a <= b;
    assert(total_ordering(leq));
    s.lemma_sort_by_ensures(leq);
    broadcast use vstd::seq_lib::group_to_multiset_ensures;

    let r = ascending(s);
    assert(r.len() == s.len()) by {
        assert(r.to_multiset().len() == r.len());
        assert(s.to_multiset().len() == s.len());
    }
    assert forall|i: int, j: int| 0 <= i <= j < s.len() implies #[trigger] r[i] <= #[trigger] r[
        j] by {
        assert(sorted_by(r, leq));
        if i < j {
            assert(leq(r[i], r[j]));
        }
    }
}

/// The sample at a rank is one of the samples; no more than the ones behind that rank are
/// greater, and of the ones from it on none is smaller.
pub proof fn law_rank_counts(s: Seq<u64>, k: int)
    requires
        0 <= k < s.len(),
    ensures
        s.contains(ascending(s)[k]),
        above(s, ascending(s)[k] as int) <= s.len() - 1 - k,
        above(s, ascending(s)[k] - 1) >= s.len() - k,
{
    let r = ascending(s);
    law_ascending_is_a_sorted_rearrangement(s);
    let x = r[k] as int;
    lemma_above_by_multiset(s, x);
    lemma_above_by_multiset(r, x);
    lemma_above_by_multiset(s, x - 1);
    lemma_above_by_multiset(r, x - 1);
    lemma_above_split(r, x, k + 1);
    lemma_above_split(r, x - 1, k);
    broadcast use vstd::seq_lib::group_to_multiset_ensures;

    assert(r.to_multiset().count(r[k]) > 0) by {
        assert(r.contains(r[k]));
    }
    assert(s.to_multiset().count(r[k]) > 0);
    assert forall|i: int| 0 <= i < k + 1 implies #[trigger] r[i] <= x by {
        assert(r[i] <= r[k]);
    }
    assert forall|i: int| k <= i < r.len() implies #[trigger] r[i] > x - 1 by {
        assert(r[k] <= r[i]);
    }
}

/// A higher limit leaves no more samples above it.
pub proof fn lemma_above_falls(s: Seq<u64>, lower: int, higher: int)
    requires
        lower <= higher,
    ensures
        above(s, higher) <= above(s, lower),
    decreases s.len(),
{
    if s.len() > 0 {
        lemma_above_falls(s.drop_last(), lower, higher);
    }
}

/// Every sample counts once in the sum: it grows with a sample by that sample, and what is
/// summed in two parts is summed as a whole.
pub proof fn law_sums_join(a: Seq<u64>, b: Seq<u64>)
    ensures
        total(a + b) == total(a) + total(b),
        forall|x: u64| total(seq![x]) == x,
    decreases b.len(),
{
    assert forall|x: u64| total(seq![x]) == x by {
        assert(seq![x].drop_last() =~= Seq::<u64>::empty());
        assert(total(seq![x].drop_last()) == 0);
    }
    if b.len() == 0 {
        assert(a + b =~= a);
    } else {
        law_sums_join(a, b.drop_last());
        assert((a + b).drop_last() =~= a + b.drop_last());
    }
}

/// Samples of at least `bound` sum to at least `bound` each.
pub proof fn lemma_total_at_least(s: Seq<u64>, bound: nat)
    requires
        forall|i: int| 0 <= i < s.len() ==> #[trigger] s[i] >= bound,
    ensures
        total(s) >= bound * s.len(),
    decreases s.len(),
{
    if s.len() > 0 {
        assert(s.last() == s[s.len() - 1]);
        assert forall|i: int| 0 <= i < s.drop_last().len() implies #[trigger] s.drop_last()[i]
            >= bound by {
            assert(s.drop_last()[i] == s[i]);
        }
        lemma_total_at_least(s.drop_last(), bound);
        assert(bound * s.len() == bound * (s.len() - 1) + bound) by (nonlinear_arith)
            requires
                s.len() >= 1,
        ;
    } else {
        assert(bound * s.len() == 0) by (nonlinear_arith)
            requires
                s.len() == 0,
        ;
    }
}

} // verus!
