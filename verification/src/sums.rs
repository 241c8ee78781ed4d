//! Sums of an integer-valued function over a sequence, with the lemmas the
//! fitness proofs need: stepping a prefix, removing an element, invariance
//! under reordering, bounds, and the all-zero / all-nonnegative cases.

use vstd::prelude::*;

verus! {

/// The sum of `f` over the elements of `s`.
pub open spec fn sum_over<A>(s: Seq<A>, f: spec_fn(A) -> int) -> int
    decreases s.len(),
{
    if s.len() == 0 {
        0
    } else {
        sum_over(s.drop_last(), f) + f(s.last())
    }
}

/// Extending a prefix by one element adds that element's term.
pub proof fn lemma_sum_over_take_step<A>(s: Seq<A>, f: spec_fn(A) -> int, k: int)
    requires
        0 <= k < s.len(),
    ensures
        sum_over(s.take(k + 1), f) == sum_over(s.take(k), f) + f(s[k]),
{
    assert(s.take(k + 1).drop_last() =~= s.take(k));
    assert(s.take(k + 1).last() == s[k]);
}

/// Removing an element subtracts its term.
pub proof fn lemma_sum_over_remove<A>(s: Seq<A>, f: spec_fn(A) -> int, k: int)
    requires
        0 <= k < s.len(),
    ensures
        sum_over(s.remove(k), f) == sum_over(s, f) - f(s[k]),
    decreases s.len(),
{
    if k == s.len() - 1 {
        assert(s.remove(k) =~= s.drop_last());
    } else {
        assert(s.remove(k).drop_last() =~= s.drop_last().remove(k));
        assert(s.remove(k).last() == s.last());
        lemma_sum_over_remove(s.drop_last(), f, k);
        assert(s.drop_last()[k] == s[k]);
    }
}

/// The sum depends only on which elements occur, not on their order.
pub proof fn lemma_sum_over_permutation<A>(s1: Seq<A>, s2: Seq<A>, f: spec_fn(A) -> int)
    requires
        s1.to_multiset() == s2.to_multiset(),
    ensures
        sum_over(s1, f) == sum_over(s2, f),
    decreases s1.len(),
{
    broadcast use vstd::seq_lib::group_to_multiset_ensures;

    if s1.len() == 0 {
        s1.to_multiset_ensures();
        s2.to_multiset_ensures();
        assert(s1.to_multiset().len() == s2.to_multiset().len());
        assert(s2.len() == 0);
    } else {
        let x = s1.last();
        let i1 = s1.len() - 1;
        assert(s1[i1] == x);
        assert(s1.contains(x));
        assert(s2.to_multiset().count(x) > 0);
        assert(s2.contains(x));
        let i2 = choose|i: int| 0 <= i < s2.len() && s2[i] == x;
        assert(s1.remove(i1) =~= s1.drop_last());
        assert(s1.drop_last().to_multiset() == s1.to_multiset().remove(x));
        assert(s2.remove(i2).to_multiset() == s2.to_multiset().remove(x));
        lemma_sum_over_permutation(s1.drop_last(), s2.remove(i2), f);
        lemma_sum_over_remove(s2, f, i2);
    }
}

/// A pointwise bound on the terms bounds the sum.
pub proof fn lemma_sum_over_bounds<A>(s: Seq<A>, f: spec_fn(A) -> int, lo: int, hi: int)
    requires
        forall|k: int| 0 <= k < s.len() ==> lo <= #[trigger] f(s[k]) <= hi,
    ensures
        s.len() * lo <= sum_over(s, f) <= s.len() * hi,
    decreases s.len(),
{
    if s.len() == 0 {
    } else {
        let d = s.drop_last();
        assert forall|k: int| 0 <= k < d.len() implies lo <= #[trigger] f(d[k]) <= hi by {
            assert(d[k] == s[k]);
        }
        lemma_sum_over_bounds(d, f, lo, hi);
        assert(f(s.last()) >= lo && f(s.last()) <= hi);
        assert((s.len() - 1) * lo + lo == s.len() * lo) by (nonlinear_arith);
        assert((s.len() - 1) * hi + hi == s.len() * hi) by (nonlinear_arith);
    }
}

/// A sum of nonnegative terms is nonnegative and at least each term.
pub proof fn lemma_sum_over_nonneg<A>(s: Seq<A>, f: spec_fn(A) -> int)
    requires
        forall|k: int| 0 <= k < s.len() ==> #[trigger] f(s[k]) >= 0,
    ensures
        sum_over(s, f) >= 0,
        forall|k: int| 0 <= k < s.len() ==> sum_over(s, f) >= #[trigger] f(s[k]),
    decreases s.len(),
{
    if s.len() == 0 {
    } else {
        let d = s.drop_last();
        assert forall|k: int| 0 <= k < d.len() implies #[trigger] f(d[k]) >= 0 by {
            assert(d[k] == s[k]);
        }
        lemma_sum_over_nonneg(d, f);
        assert(f(s.last()) >= 0);
        assert forall|k: int| 0 <= k < s.len() implies sum_over(s, f) >= #[trigger] f(s[k]) by {
            if k < s.len() - 1 {
                assert(d[k] == s[k]);
            }
        }
    }
}

/// A sum of all-zero terms is zero.
pub proof fn lemma_sum_over_zero<A>(s: Seq<A>, f: spec_fn(A) -> int)
    requires
        forall|k: int| 0 <= k < s.len() ==> #[trigger] f(s[k]) == 0,
    ensures
        sum_over(s, f) == 0,
    decreases s.len(),
{
    if s.len() == 0 {
    } else {
        let d = s.drop_last();
        assert forall|k: int| 0 <= k < d.len() implies #[trigger] f(d[k]) == 0 by {
            assert(d[k] == s[k]);
        }
        lemma_sum_over_zero(d, f);
        assert(f(s.last()) == 0);
    }
}

/// Mapping two sequences with equal contents gives equal contents.
pub proof fn lemma_map_values_multiset<A, B>(s1: Seq<A>, s2: Seq<A>, f: spec_fn(A) -> B)
    requires
        s1.to_multiset() == s2.to_multiset(),
    ensures
        s1.map_values(f).to_multiset() == s2.map_values(f).to_multiset(),
    decreases s1.len(),
{
    broadcast use vstd::seq_lib::group_to_multiset_ensures;

    if s1.len() == 0 {
        s1.to_multiset_ensures();
        s2.to_multiset_ensures();
        assert(s1.to_multiset().len() == s2.to_multiset().len());
        assert(s2.len() == 0);
        assert(s1.map_values(f) =~= s2.map_values(f));
    } else {
        let x = s1.last();
        let i1 = s1.len() - 1;
        assert(s1[i1] == x);
        assert(s1.contains(x));
        assert(s2.to_multiset().count(x) > 0);
        assert(s2.contains(x));
        let i2 = choose|i: int| 0 <= i < s2.len() && s2[i] == x;
        assert(s1.remove(i1) =~= s1.drop_last());
        assert(s1.drop_last().to_multiset() == s1.to_multiset().remove(x));
        assert(s2.remove(i2).to_multiset() == s2.to_multiset().remove(x));
        lemma_map_values_multiset(s1.drop_last(), s2.remove(i2), f);
        let m1 = s1.map_values(f);
        let m2 = s2.map_values(f);
        assert(m1 =~= s1.drop_last().map_values(f).push(f(x)));
        assert(m1.to_multiset() == s1.drop_last().map_values(f).to_multiset().insert(f(x)));
        assert(s2.remove(i2).map_values(f) =~= m2.remove(i2));
        assert(m2.remove(i2).to_multiset() == m2.to_multiset().remove(m2[i2]));
        assert(m2[i2] == f(x));
        assert(m2.contains(f(x)));
        assert(m2.to_multiset().count(f(x)) > 0);
        assert(m2.to_multiset().remove(f(x)).insert(f(x)) =~= m2.to_multiset());
        assert(m1.to_multiset() =~= m2.to_multiset());
    }
}

} // verus!
