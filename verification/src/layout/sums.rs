//! Sums of integer sequences, and the facts about them that the layout
//! proofs rest on.

use vstd::prelude::*;

verus! {

/// The larger of two integers.
pub open spec fn larger(x: int, y: int) -> int {
    if x >= y {
        x
    } else {
        y
    }
}

/// The smaller of two integers.
pub open spec fn smaller(x: int, y: int) -> int {
    if x <= y {
        x
    } else {
        y
    }
}

/// The largest element of `s`, and zero where `s` has none or only negative
/// ones.
pub open spec fn max_of(s: Seq<int>) -> int
    decreases s.len(),
{
    if s.len() == 0 {
        0
    } else {
        larger(max_of(s.drop_last()), s.last())
    }
}

/// The sum of all elements of `s`.
pub open spec fn sum(s: Seq<int>) -> int
    decreases s.len(),
{
    if s.len() == 0 {
        0
    } else {
        sum(s.drop_last()) + s.last()
    }
}

/// A sequence of machine integers read as mathematical integers.
pub open spec fn ints(s: Seq<u32>) -> Seq<int> {
    s.map_values(|x: u32| x as int)
}

/// Extending a prefix by one element adds that element to its sum.
pub proof fn lemma_sum_take_next(s: Seq<int>, n: int)
    requires
        0 <= n < s.len(),
    ensures
        sum(s.take(n + 1)) == sum(s.take(n)) + s[n],
{
    assert(s.take(n + 1).drop_last() =~= s.take(n));
}

/// The prefix of full length is the sequence itself.
pub proof fn lemma_sum_take_all(s: Seq<int>)
    ensures
        sum(s.take(s.len() as int)) == sum(s),
{
    assert(s.take(s.len() as int) =~= s);
}

/// Replacing one element changes the sum by the difference.
pub proof fn lemma_sum_update(s: Seq<int>, i: int, v: int)
    requires
        0 <= i < s.len(),
    ensures
        sum(s.update(i, v)) == sum(s) - s[i] + v,
    decreases s.len(),
{
    let t = s.update(i, v);
    if i == s.len() - 1 {
        assert(t.drop_last() =~= s.drop_last());
    } else {
        lemma_sum_update(s.drop_last(), i, v);
        assert(t.drop_last() =~= s.drop_last().update(i, v));
    }
}

/// The sum is additive: where `c` is `a + b` element by element, so are the sums.
pub proof fn lemma_sum_add(a: Seq<int>, b: Seq<int>, c: Seq<int>)
    requires
        a.len() == c.len(),
        b.len() == c.len(),
        forall|i: int| 0 <= i < c.len() ==> c[i] == a[i] + b[i],
    ensures
        sum(c) == sum(a) + sum(b),
    decreases c.len(),
{
    if c.len() > 0 {
        lemma_sum_add(a.drop_last(), b.drop_last(), c.drop_last());
    }
}

/// The sum is homogeneous: where `b` is `k * a` element by element, so are the sums.
pub proof fn lemma_sum_scale(a: Seq<int>, b: Seq<int>, k: int)
    requires
        a.len() == b.len(),
        forall|i: int| 0 <= i < a.len() ==> b[i] == k * a[i],
    ensures
        sum(b) == k * sum(a),
    decreases a.len(),
{
    if a.len() > 0 {
        lemma_sum_scale(a.drop_last(), b.drop_last(), k);
        assert(k * (sum(a.drop_last()) + a.last()) == k * sum(a.drop_last()) + k * a.last())
            by (nonlinear_arith);
    }
}

/// The sum is monotone: where `a` is below `b` element by element, so are the sums.
pub proof fn lemma_sum_le(a: Seq<int>, b: Seq<int>)
    requires
        a.len() == b.len(),
        forall|i: int| 0 <= i < a.len() ==> a[i] <= b[i],
    ensures
        sum(a) <= sum(b),
    decreases a.len(),
{
    if a.len() > 0 {
        lemma_sum_le(a.drop_last(), b.drop_last());
    }
}

/// A sequence without negative elements has no negative sum.
pub proof fn lemma_sum_nonneg(s: Seq<int>)
    requires
        forall|i: int| 0 <= i < s.len() ==> s[i] >= 0,
    ensures
        sum(s) >= 0,
    decreases s.len(),
{
    if s.len() > 0 {
        lemma_sum_nonneg(s.drop_last());
    }
}

/// In a sequence without negative elements no prefix sums to more than the whole.
pub proof fn lemma_sum_prefix_le(s: Seq<int>, n: int)
    requires
        0 <= n <= s.len(),
        forall|i: int| 0 <= i < s.len() ==> s[i] >= 0,
    ensures
        0 <= sum(s.take(n)) <= sum(s),
    decreases s.len() - n,
{
    if n == s.len() {
        lemma_sum_take_all(s);
        lemma_sum_nonneg(s);
    } else {
        lemma_sum_prefix_le(s, n + 1);
        lemma_sum_take_next(s, n);
        lemma_sum_nonneg(s.take(n));
    }
}

/// In a sequence without negative elements no element exceeds the sum.
pub proof fn lemma_sum_bounds_element(s: Seq<int>, i: int)
    requires
        0 <= i < s.len(),
        forall|j: int| 0 <= j < s.len() ==> s[j] >= 0,
    ensures
        s[i] <= sum(s),
{
    lemma_sum_prefix_le(s, i);
    lemma_sum_prefix_le(s, i + 1);
    lemma_sum_take_next(s, i);
}

/// A sequence that repeats `c` sums to its length times `c`.
pub proof fn lemma_sum_constant(s: Seq<int>, c: int)
    requires
        forall|i: int| 0 <= i < s.len() ==> s[i] == c,
    ensures
        sum(s) == s.len() * c,
    decreases s.len(),
{
    if s.len() > 0 {
        lemma_sum_constant(s.drop_last(), c);
        assert((s.len() - 1) * c + c == s.len() * c) by (nonlinear_arith);
    }
}

/// In a sequence without negative elements a shorter prefix sums to no more
/// than a longer one.
pub proof fn lemma_sum_prefixes_ordered(s: Seq<int>, shorter: int, longer: int)
    requires
        0 <= shorter <= longer <= s.len(),
        forall|i: int| 0 <= i < s.len() ==> s[i] >= 0,
    ensures
        0 <= sum(s.take(shorter)) <= sum(s.take(longer)),
{
    assert(s.take(longer).take(shorter) =~= s.take(shorter));
    lemma_sum_prefix_le(s.take(longer), shorter);
}

/// No element exceeds the largest, and the largest is no less than zero.
pub proof fn lemma_max_of_bounds(s: Seq<int>, i: int)
    requires
        0 <= i < s.len(),
    ensures
        0 <= max_of(s),
        s[i] <= max_of(s),
    decreases s.len(),
{
    lemma_max_of_nonneg(s.drop_last());
    if i < s.len() - 1 {
        lemma_max_of_bounds(s.drop_last(), i);
    }
}

/// The largest is no less than zero.
pub proof fn lemma_max_of_nonneg(s: Seq<int>)
    ensures
        0 <= max_of(s),
    decreases s.len(),
{
    if s.len() > 0 {
        lemma_max_of_nonneg(s.drop_last());
    }
}

/// The largest is zero or one of the elements.
pub proof fn lemma_max_of_is_reached(s: Seq<int>)
    ensures
        max_of(s) == 0 || exists|i: int| 0 <= i < s.len() && s[i] == max_of(s),
    decreases s.len(),
{
    if s.len() > 0 {
        lemma_max_of_is_reached(s.drop_last());
        if max_of(s) != 0 && max_of(s) != s.last() {
            let i = choose|i: int| 0 <= i < s.drop_last().len() && s.drop_last()[i] == max_of(s.drop_last());
            assert(s[i] == max_of(s));
        }
    }
}

/// A stretch of a sequence without negative elements sums to no more than
/// the whole.
pub proof fn lemma_part_le(s: Seq<int>, from: int, to: int)
    requires
        0 <= from <= to <= s.len(),
        forall|i: int| 0 <= i < s.len() ==> s[i] >= 0,
    ensures
        0 <= sum(s.subrange(from, to)) <= sum(s),
{
    let head = s.take(to);
    lemma_sum_prefix_le(s, to);
    lemma_sum_prefix_le(head, from);
    let a = head.take(from);
    let b = s.subrange(from, to);
    assert(head =~= a + b);
    lemma_sum_concat(a, b);
    lemma_sum_nonneg(b);
}

/// The sum of two sequences laid end to end is the sum of their sums.
pub proof fn lemma_sum_concat(a: Seq<int>, b: Seq<int>)
    ensures
        sum(a + b) == sum(a) + sum(b),
    decreases b.len(),
{
    if b.len() == 0 {
        assert(a + b =~= a);
    } else {
        lemma_sum_concat(a, b.drop_last());
        assert((a + b).drop_last() =~= a + b.drop_last());
    }
}

} // verus!
