//! Sharing a target size out among the children of a row or column.
//!
//! The children's rules come as a sequence that ends in their total. Given at
//! least the total minimum, every child gets its minimum and a share of what
//! is spare, in proportion to how far its preferred size lies above its
//! minimum. Given less, the largest children are cut down first, level with
//! each other, until the sizes fit.

use super::size_rules::SizeRules;
use super::sums::{
    ints, lemma_sum_add, lemma_sum_bounds_element, lemma_sum_constant, lemma_sum_le,
    lemma_sum_nonneg, lemma_sum_prefix_le, lemma_sum_prefixes_ordered, lemma_sum_scale,
    lemma_sum_take_all, lemma_sum_take_next, lemma_sum_update, smaller, sum,
};
use vstd::arithmetic::div_mod::{
    lemma_div_pos_is_pos, lemma_fundamental_div_mod, lemma_mod_pos_bound,
};
use vstd::prelude::*;

verus! {

/// The minimum sizes of `rules`, in order.
pub open spec fn mins(rules: Seq<SizeRules>) -> Seq<int> {
    rules.map_values(|r: SizeRules| r.min() as int)
}

/// The preferred sizes of `rules`, in order.
pub open spec fn prefs(rules: Seq<SizeRules>) -> Seq<int> {
    rules.map_values(|r: SizeRules| r.pref() as int)
}

/// Every rule of the sequence keeps its preferred size at or above its
/// minimum.
pub open spec fn all_valid(rules: Seq<SizeRules>) -> bool {
    forall|i: int| 0 <= i < rules.len() ==> (#[trigger] rules[i]).valid()
}

/// The sequence is made of children's rules followed by their total: the last
/// rule's sizes are the sums of the sizes before it.
pub open spec fn ends_in_total(rules: Seq<SizeRules>) -> bool {
    &&& rules.len() > 0
    &&& rules.last().min() == sum(mins(rules.drop_last()))
    &&& rules.last().pref() == sum(prefs(rules.drop_last()))
}

/// What child `n` gets from a target at or above the total minimum, before
/// the units lost to rounding are handed out: its minimum and, rounded down,
/// its part of the spare space. The part is in proportion to the child's
/// room to stretch; where no child has any, all parts are equal.
pub open spec fn floor_share(rules: Seq<SizeRules>, target: int, n: int) -> int {
    let total = rules.last();
    let spare = target - total.min();
    let room = total.pref() - total.min();
    if room > 0 {
        rules[n].min() + (spare * (rules[n].pref() - rules[n].min())) / room
    } else {
        rules[n].min() + spare / (rules.len() - 1)
    }
}

/// The floor shares of all children.
pub open spec fn floor_shares(rules: Seq<SizeRules>, target: int) -> Seq<int> {
    Seq::new((rules.len() - 1) as nat, |n: int| floor_share(rules, target, n))
}

/// The sizes for a target at or above the total minimum: the floor shares,
/// and one unit more for each of the first children until the target is
/// used up.
pub open spec fn surplus_sizes(rules: Seq<SizeRules>, target: int) -> Seq<int> {
    let shares = floor_shares(rules, target);
    let rem = target - sum(shares);
    Seq::new(
        shares.len(),
        |n: int|
            if n < rem {
                shares[n] + 1
            } else {
                shares[n]
            },
    )
}

/// The floor shares keep every child at or above its minimum, and together
/// fall short of the target by less than one unit per child.
pub proof fn lemma_floor_shares(rules: Seq<SizeRules>, target: int)
    requires
        rules.len() > 1,
        all_valid(rules),
        ends_in_total(rules),
        target >= rules.last().min(),
    ensures
        forall|n: int|
            0 <= n < rules.len() - 1 ==> #[trigger] floor_shares(rules, target)[n]
                >= rules[n].min(),
        target - (rules.len() - 1) < sum(floor_shares(rules, target)) <= target,
{
    let kids = rules.drop_last();
    let count = kids.len();
    let total = rules.last();
    let spare = target - total.min();
    let room = total.pref() - total.min();
    let m = mins(kids);
    let p = prefs(kids);
    let shares = floor_shares(rules, target);
    assert forall|i: int| 0 <= i < count implies kids[i] == rules[i] && m[i] <= p[i] by {
        assert(rules[i].valid());
    }
    if room > 0 {
        let s = Seq::new(count, |i: int| p[i] - m[i]);
        let prod = Seq::new(count, |i: int| spare * s[i]);
        let q = Seq::new(count, |i: int| (spare * s[i]) / room);
        let r = Seq::new(count, |i: int| (spare * s[i]) % room);
        let rq = Seq::new(count, |i: int| room * q[i]);
        let top = Seq::new(count, |i: int| room - 1);
        lemma_sum_add(m, s, p);
        lemma_sum_scale(s, prod, spare);
        lemma_sum_scale(q, rq, room);
        assert forall|i: int| 0 <= i < count implies prod[i] == rq[i] + r[i] && 0 <= r[i] <= top[i]
            && q[i] >= 0 by {
            assert(spare * s[i] >= 0) by (nonlinear_arith)
                requires
                    spare >= 0,
                    s[i] >= 0,
            ;
            lemma_fundamental_div_mod(spare * s[i], room);
            lemma_mod_pos_bound(spare * s[i], room);
            lemma_div_pos_is_pos(spare * s[i], room);
        }
        lemma_sum_add(rq, r, prod);
        lemma_sum_nonneg(r);
        lemma_sum_le(r, top);
        lemma_sum_constant(top, room - 1);
        lemma_sum_add(m, q, shares);
        let sq = sum(q);
        let sr = sum(r);
        assert(spare * room == room * sq + sr);
        assert(0 <= spare - sq < count) by (nonlinear_arith)
            requires
                spare * room == room * sq + sr,
                0 <= sr <= count * (room - 1),
                room > 0,
                count > 0,
        ;
    } else {
        let part = spare / (count as int);
        let c = Seq::new(count, |i: int| part);
        lemma_sum_constant(c, part);
        lemma_sum_add(m, c, shares);
        lemma_fundamental_div_mod(spare, count as int);
        lemma_mod_pos_bound(spare, count as int);
        lemma_div_pos_is_pos(spare, count as int);
        assert((count as int) * part == count * part);
    }
}

/// The sum of `sizes` once every size above `level` is cut down to `level`.
pub open spec fn capped_sum(sizes: Seq<int>, level: int) -> int {
    sum(sizes.map_values(|m: int| smaller(m, level)))
}

/// For each of `sizes`, 1 where it is at or above `level` and 0 where it is
/// below.
pub open spec fn reaching(sizes: Seq<int>, level: int) -> Seq<int> {
    sizes.map_values(
        |m: int|
            if m >= level {
                1int
            } else {
                0int
            },
    )
}

/// How many of `sizes` are at or above `level`.
pub open spec fn count_reaching(sizes: Seq<int>, level: int) -> int {
    sum(reaching(sizes, level))
}

/// How many of the first `n` of `sizes` are at or above `level`.
pub open spec fn count_reaching_before(sizes: Seq<int>, level: int, n: int) -> int {
    sum(reaching(sizes, level).take(n))
}

/// `level` is the level down to which the largest of `sizes` are cut so that
/// they fit in `target`: cut to `level` they fill the target, cut one unit
/// lower they would not.
pub open spec fn is_fill_level(sizes: Seq<int>, target: int, level: int) -> bool {
    &&& level >= 0
    &&& capped_sum(sizes, level) >= target
    &&& level > 0 ==> capped_sum(sizes, level - 1) < target
}

/// The level that `is_fill_level` describes.
pub open spec fn fill_level(sizes: Seq<int>, target: int) -> int {
    choose|level: int| is_fill_level(sizes, target, level)
}

/// The sizes for a target below the total minimum. A child below the fill
/// level keeps its minimum. The others are cut to the fill level, and the
/// first of them by one unit more, as many as it takes to meet the target
/// exactly.
pub open spec fn deficit_sizes(sizes: Seq<int>, target: int) -> Seq<int> {
    let level = fill_level(sizes, target);
    let excess = capped_sum(sizes, level) - target;
    Seq::new(
        sizes.len(),
        |n: int|
            if sizes[n] < level {
                sizes[n]
            } else if count_reaching_before(sizes, level, n) < excess {
                level - 1
            } else {
                level
            },
    )
}

/// The sizes that `solve_seq` gives the children of `rules` for `target`.
pub open spec fn solved_sizes(rules: Seq<SizeRules>, target: int) -> Seq<int> {
    if target >= rules.last().min() {
        surplus_sizes(rules, target)
    } else {
        deficit_sizes(mins(rules.drop_last()), target)
    }
}

/// Raising the cap by one unit adds one unit for each size that reaches the
/// new cap.
pub proof fn lemma_capped_step(sizes: Seq<int>, level: int)
    ensures
        capped_sum(sizes, level) == capped_sum(sizes, level - 1) + count_reaching(sizes, level),
{
    lemma_sum_add(
        sizes.map_values(|m: int| smaller(m, level - 1)),
        reaching(sizes, level),
        sizes.map_values(|m: int| smaller(m, level)),
    );
}

/// A higher cap leaves no smaller sum.
pub proof fn lemma_capped_monotone(sizes: Seq<int>, lower: int, higher: int)
    requires
        lower <= higher,
    ensures
        capped_sum(sizes, lower) <= capped_sum(sizes, higher),
{
    lemma_sum_le(
        sizes.map_values(|m: int| smaller(m, lower)),
        sizes.map_values(|m: int| smaller(m, higher)),
    );
}

/// There is at most one fill level, so a level that qualifies is the fill
/// level.
pub proof fn lemma_fill_level_unique(sizes: Seq<int>, target: int, level: int)
    requires
        is_fill_level(sizes, target, level),
    ensures
        fill_level(sizes, target) == level,
{
    let other = fill_level(sizes, target);
    assert(is_fill_level(sizes, target, other));
    if other < level {
        lemma_capped_monotone(sizes, other, level - 1);
    } else if level < other {
        lemma_capped_monotone(sizes, level, other - 1);
    }
}

/// Lowering the cap by `step`, where no size lies strictly between the old
/// cap and the new one, takes `step` units from each size that reached the
/// old cap.
proof fn lemma_capped_drop(sizes: Seq<int>, level: int, step: int)
    requires
        step >= 0,
        forall|i: int| 0 <= i < sizes.len() ==> sizes[i] >= level || sizes[i] <= level - step,
    ensures
        capped_sum(sizes, level) == capped_sum(sizes, level - step) + step * count_reaching(
            sizes,
            level,
        ),
{
    let hit = reaching(sizes, level);
    let cut = Seq::new(sizes.len(), |i: int| step * hit[i]);
    lemma_sum_scale(hit, cut, step);
    lemma_sum_add(
        sizes.map_values(|m: int| smaller(m, level - step)),
        cut,
        sizes.map_values(|m: int| smaller(m, level)),
    );
}

/// Sizes that are all at or below the cap sum to the same with it.
proof fn lemma_capped_above_all(sizes: Seq<int>, level: int)
    requires
        forall|i: int| 0 <= i < sizes.len() ==> sizes[i] <= level,
    ensures
        capped_sum(sizes, level) == sum(sizes),
{
    assert(sizes.map_values(|m: int| smaller(m, level)) =~= sizes);
}

/// Cut down to nothing, sizes sum to nothing.
proof fn lemma_capped_at_zero(sizes: Seq<int>)
    requires
        forall|i: int| 0 <= i < sizes.len() ==> sizes[i] >= 0,
    ensures
        capped_sum(sizes, 0) == 0,
{
    lemma_sum_constant(sizes.map_values(|m: int| smaller(m, 0)), 0);
}

/// Shares a target at or above the total minimum out among the children.
fn share_surplus(out: &mut [u32], rules: &[SizeRules], target: u32)
    requires
        old(out)@.len() > 0,
        rules@.len() == old(out)@.len() + 1,
        all_valid(rules@),
        ends_in_total(rules@),
        target >= rules@.last().min(),
    ensures
        final(out)@.len() == old(out)@.len(),
        ints(final(out)@) =~= surplus_sizes(rules@, target as int),
        sum(ints(final(out)@)) == target,
        forall|n: int| 0 <= n < final(out)@.len() ==> final(out)@[n] >= rules@[n].min(),
{
    let count: usize = out.len();
    let total = rules[count];
    let spare: u32 = target - total.min_size();
    let room: u32 = total.pref_size() - total.min_size();
    let ghost shares = floor_shares(rules@, target as int);
    proof {
        lemma_floor_shares(rules@, target as int);
    }
    let mut given: u32 = 0;
    if room > 0 {
        for n in 0..count
            invariant
                out@.len() == count,
                rules@.len() == count + 1,
                all_valid(rules@),
                shares == floor_shares(rules@, target as int),
                forall|i: int| 0 <= i < count ==> #[trigger] shares[i] >= rules@[i].min(),
                sum(shares) <= target,
                spare == target - rules@.last().min(),
                room == rules@.last().pref() - rules@.last().min(),
                room > 0,
                given == sum(shares.take(n as int)),
                forall|i: int| 0 <= i < n ==> out@[i] == shares[i],
        {
            let r = rules[n];
            assert(r.valid());
            let stretch: u32 = r.pref_size() - r.min_size();
            assert(spare * stretch <= 0xFFFF_FFFF * 0xFFFF_FFFF) by (nonlinear_arith)
                requires
                    0 <= spare <= 0xFFFF_FFFF,
                    0 <= stretch <= 0xFFFF_FFFF,
            ;
            let part: u64 = (spare as u64 * stretch as u64) / (room as u64);
            proof {
                lemma_sum_take_next(shares, n as int);
                lemma_sum_prefix_le(shares, n as int + 1);
                lemma_sum_prefix_le(shares, n as int);
                assert(shares[n as int] == r.min() + part);
            }
            let size: u32 = r.min_size() + part as u32;
            out[n] = size;
            given = given + size;
        }
    } else {
        let part: u32 = (spare as usize / count) as u32;
        for n in 0..count
            invariant
                out@.len() == count,
                rules@.len() == count + 1,
                shares == floor_shares(rules@, target as int),
                forall|i: int| 0 <= i < count ==> #[trigger] shares[i] >= rules@[i].min(),
                sum(shares) <= target,
                spare == target - rules@.last().min(),
                rules@.last().pref() - rules@.last().min() <= 0,
                part == spare as int / count as int,
                given == sum(shares.take(n as int)),
                forall|i: int| 0 <= i < n ==> out@[i] == shares[i],
        {
            let r = rules[n];
            proof {
                lemma_sum_take_next(shares, n as int);
                lemma_sum_prefix_le(shares, n as int + 1);
                lemma_sum_prefix_le(shares, n as int);
                assert(shares[n as int] == r.min() + part);
            }
            let size: u32 = r.min_size() + part;
            out[n] = size;
            given = given + size;
        }
    }
    proof {
        lemma_sum_take_all(shares);
        assert(ints(out@) =~= shares);
    }
    let rem: usize = (target - given) as usize;
    for n in 0..rem
        invariant
            out@.len() == count,
            rem < count,
            rem == target - sum(shares),
            shares.len() == count,
            rules@.len() == count + 1,
            forall|i: int| 0 <= i < count ==> #[trigger] shares[i] >= rules@[i].min(),
            sum(ints(out@)) == sum(shares) + n,
            forall|i: int| 0 <= i < n ==> out@[i] == shares[i] + 1,
            forall|i: int| n <= i < count ==> out@[i] == shares[i],
    {
        let ghost before = ints(out@);
        proof {
            lemma_sum_bounds_element(shares, n as int);
            lemma_sum_update(before, n as int, shares[n as int] + 1);
        }
        out[n] = out[n] + 1;
        assert(ints(out@) =~= before.update(n as int, shares[n as int] + 1));
    }
    assert forall|n: int| 0 <= n < count implies out@[n] >= rules@[n].min() by {
        assert(shares[n] >= rules@[n].min());
    }
}

/// A sequence of ones followed by zeros sums to the number of ones.
proof fn lemma_sum_leading_ones(len: nat, ones: int)
    requires
        0 <= ones <= len,
    ensures
        sum(
            Seq::new(
                len,
                |n: int|
                    if n < ones {
                        1int
                    } else {
                        0int
                    },
            ),
        ) == ones,
    decreases len,
{
    let s = Seq::new(
        len,
        |n: int|
            if n < ones {
                1int
            } else {
                0int
            },
    );
    if len > 0 {
        let shorter = if ones < len {
            ones
        } else {
            ones - 1
        };
        lemma_sum_leading_ones((len - 1) as nat, shorter);
        assert(s.drop_last() =~= Seq::new(
            (len - 1) as nat,
            |n: int|
                if n < shorter {
                    1int
                } else {
                    0int
                },
        ));
    }
}

/// Given at least the total minimum, the children get sizes that add up to
/// the target, each at least its minimum.
pub proof fn lemma_surplus_meets_target(rules: Seq<SizeRules>, target: int)
    requires
        rules.len() > 1,
        all_valid(rules),
        ends_in_total(rules),
        target >= rules.last().min(),
    ensures
        sum(surplus_sizes(rules, target)) == target,
        forall|n: int|
            0 <= n < rules.len() - 1 ==> #[trigger] surplus_sizes(rules, target)[n]
                >= rules[n].min(),
{
    let shares = floor_shares(rules, target);
    let rem = target - sum(shares);
    lemma_floor_shares(rules, target);
    let extra = Seq::new(
        shares.len(),
        |n: int|
            if n < rem {
                1int
            } else {
                0int
            },
    );
    lemma_sum_leading_ones(shares.len(), rem);
    lemma_sum_add(shares, extra, surplus_sizes(rules, target));
    assert forall|n: int| 0 <= n < rules.len() - 1 implies #[trigger] surplus_sizes(
        rules,
        target,
    )[n] >= rules[n].min() by {
        assert(shares[n] >= rules[n].min());
    }
}

/// There is a fill level for every target that the sizes can reach.
pub proof fn lemma_fill_level_exists(sizes: Seq<int>, target: int)
    requires
        forall|i: int| 0 <= i < sizes.len() ==> sizes[i] >= 0,
        0 <= target <= sum(sizes),
    ensures
        is_fill_level(sizes, target, fill_level(sizes, target)),
{
    lemma_sum_nonneg(sizes);
    let top = sum(sizes);
    assert forall|i: int| 0 <= i < sizes.len() implies sizes[i] <= top by {
        lemma_sum_bounds_element(sizes, i);
    }
    lemma_capped_above_all(sizes, top);
    lemma_fill_level_below(sizes, target, top);
}

/// There is a fill level at or below every level at which the sizes reach
/// the target.
proof fn lemma_fill_level_below(sizes: Seq<int>, target: int, level: int)
    requires
        0 <= level,
        0 <= target <= capped_sum(sizes, level),
        forall|i: int| 0 <= i < sizes.len() ==> sizes[i] >= 0,
    ensures
        exists|l: int| is_fill_level(sizes, target, l),
    decreases level,
{
    if level > 0 && capped_sum(sizes, level - 1) >= target {
        lemma_fill_level_below(sizes, target, level - 1);
    } else {
        assert(is_fill_level(sizes, target, level));
    }
}

/// Of the sizes that reach a level, the first `count` are counted among the
/// first `n` sizes as far as they lie there.
proof fn lemma_first_reaching(hit: Seq<int>, count: int, n: int)
    requires
        0 <= count,
        0 <= n <= hit.len(),
        forall|i: int| 0 <= i < hit.len() ==> 0 <= #[trigger] hit[i] <= 1,
    ensures
        sum(
            Seq::new(
                hit.len(),
                |i: int|
                    if hit[i] == 1 && sum(hit.take(i)) < count {
                        1int
                    } else {
                        0int
                    },
            ).take(n),
        ) == smaller(sum(hit.take(n)), count),
    decreases n,
{
    let cut = Seq::new(
        hit.len(),
        |i: int|
            if hit[i] == 1 && sum(hit.take(i)) < count {
                1int
            } else {
                0int
            },
    );
    if n == 0 {
        assert(cut.take(0) =~= Seq::<int>::empty());
        assert(hit.take(0) =~= Seq::<int>::empty());
    } else {
        lemma_first_reaching(hit, count, n - 1);
        lemma_sum_take_next(cut, n - 1);
        lemma_sum_take_next(hit, n - 1);
        lemma_sum_prefix_le(hit, n - 1);
    }
}

/// Given less than the total minimum, the children get sizes that add up to
/// the target, none above its minimum and none below zero.
pub proof fn lemma_deficit_meets_target(sizes: Seq<int>, target: int)
    requires
        forall|i: int| 0 <= i < sizes.len() ==> sizes[i] >= 0,
        0 <= target <= sum(sizes),
    ensures
        sum(deficit_sizes(sizes, target)) == target,
        forall|n: int|
            0 <= n < sizes.len() ==> 0 <= #[trigger] deficit_sizes(sizes, target)[n] <= sizes[n],
{
    let level = fill_level(sizes, target);
    let excess = capped_sum(sizes, level) - target;
    let hit = reaching(sizes, level);
    let result = deficit_sizes(sizes, target);
    lemma_fill_level_exists(sizes, target);
    lemma_capped_step(sizes, level);
    if level == 0 {
        lemma_capped_at_zero(sizes);
    }
    lemma_sum_nonneg(hit);
    assert(0 <= excess <= count_reaching(sizes, level));
    let cut = Seq::new(
        hit.len(),
        |i: int|
            if hit[i] == 1 && sum(hit.take(i)) < excess {
                1int
            } else {
                0int
            },
    );
    lemma_first_reaching(hit, excess, hit.len() as int);
    lemma_sum_take_all(cut);
    lemma_sum_take_all(hit);
    lemma_sum_add(result, cut, sizes.map_values(|m: int| smaller(m, level)));
    assert forall|n: int| 0 <= n < sizes.len() implies 0 <= #[trigger] result[n] <= sizes[n] by {
        if sizes[n] >= level && level == 0 {
            lemma_sum_prefix_le(hit, n);
        }
    }
}

/// The units lost to rounding go to the first children: each child gets its
/// floor share or one unit more, and no child gets the unit while a child
/// before it goes without.
pub proof fn lemma_remainder_goes_first(rules: Seq<SizeRules>, target: int, i: int, j: int)
    requires
        0 <= i <= j < rules.len() - 1,
    ensures
        0 <= surplus_sizes(rules, target)[j] - floor_shares(rules, target)[j]
            <= surplus_sizes(rules, target)[i] - floor_shares(rules, target)[i] <= 1,
{
}

/// The same rules and the same target always give the same sizes: two
/// results that `solve_seq` may return for them are equal.
pub proof fn lemma_solved_sizes_determined(
    first: Seq<u32>,
    second: Seq<u32>,
    rules: Seq<SizeRules>,
    target: int,
)
    requires
        ints(first) == solved_sizes(rules, target),
        ints(second) == solved_sizes(rules, target),
    ensures
        first == second,
{
    assert(first.len() == ints(first).len());
    assert(second.len() == ints(second).len());
    assert forall|i: int| 0 <= i < first.len() implies first[i] == second[i] by {
        assert(ints(first)[i] == first[i]);
        assert(ints(second)[i] == second[i]);
    }
    assert(first =~= second);
}

/// Shrinking below the minimum is fair. A child ends more than one unit
/// below another only where it has kept its own minimum, and children with
/// equal minimums end within one unit of each other.
pub proof fn lemma_deficit_is_fair(sizes: Seq<int>, target: int, i: int, j: int)
    requires
        0 <= i < sizes.len(),
        0 <= j < sizes.len(),
    ensures
        deficit_sizes(sizes, target)[i] > deficit_sizes(sizes, target)[j] + 1
            ==> deficit_sizes(sizes, target)[j] == sizes[j],
        sizes[i] == sizes[j] ==> -1 <= deficit_sizes(sizes, target)[i] - deficit_sizes(
            sizes,
            target,
        )[j] <= 1,
{
}

/// For each of `sizes`, 1 where it equals `level` and 0 elsewhere.
spec fn resting(sizes: Seq<int>, level: int) -> Seq<int> {
    sizes.map_values(
        |m: int|
            if m == level {
                1int
            } else {
                0int
            },
    )
}

/// Cuts the largest children down until the sizes fit a target below the
/// total minimum.
fn shrink_to_deficit(out: &mut [u32], rules: &[SizeRules], target: u32)
    requires
        old(out)@.len() > 0,
        rules@.len() == old(out)@.len() + 1,
        ends_in_total(rules@),
        target < rules@.last().min(),
    ensures
        final(out)@.len() == old(out)@.len(),
        ints(final(out)@) =~= deficit_sizes(mins(rules@.drop_last()), target as int),
        sum(ints(final(out)@)) == target,
        forall|n: int| 0 <= n < final(out)@.len() ==> final(out)@[n] <= rules@[n].min(),
{
    let count: usize = out.len();
    let ghost m = mins(rules@.drop_last());
    assert forall|i: int| 0 <= i < count implies #[trigger] m[i] == rules@[i].min() by {
        assert(rules@.drop_last()[i] == rules@[i]);
    }
    let mut excess: u32 = rules[count].min_size() - target;

    // Start every child at its minimum; find the largest minimum, how many
    // children have it, and the largest minimum below it.
    let mut largest: u32 = 0;
    let mut num_equal: usize = 0;
    let mut next_largest: u32 = 0;
    for n in 0..count
        invariant
            out@.len() == count,
            rules@.len() == count + 1,
            m.len() == count,
            forall|i: int| 0 <= i < count ==> #[trigger] m[i] == rules@[i].min(),
            forall|i: int| 0 <= i < n ==> out@[i] == m[i],
            forall|i: int| 0 <= i < n ==> m[i] <= largest,
            forall|i: int| 0 <= i < n && m[i] < largest ==> m[i] <= next_largest,
            next_largest < largest || (largest == 0 && next_largest == 0),
            num_equal == count_reaching_before(m, largest as int, n as int),
            num_equal <= n,
            num_equal >= 1 || (n == 0 && largest == 0),
    {
        let a: u32 = rules[n].min_size();
        out[n] = a;
        proof {
            lemma_sum_take_next(reaching(m, largest as int), n as int);
        }
        if a == largest {
            num_equal = num_equal + 1;
        } else if a > largest {
            proof {
                lemma_sum_take_next(reaching(m, a as int), n as int);
                lemma_sum_constant(reaching(m, a as int).take(n as int), 0);
            }
            next_largest = largest;
            largest = a;
            num_equal = 1;
        } else if a > next_largest {
            next_largest = a;
        }
    }

    proof {
        lemma_sum_take_all(reaching(m, largest as int));
        lemma_capped_above_all(m, largest as int);
    }

    // Lower the children at the top, level with each other, as far as the
    // next tier or as far as the excess allows in whole steps.
    loop
        invariant
            out@.len() == count,
            count > 0,
            m.len() == count,
            forall|i: int| 0 <= i < count ==> #[trigger] m[i] >= 0,
            forall|i: int| 0 <= i < count ==> out@[i] == smaller(#[trigger] m[i], largest as int),
            excess + target == capped_sum(m, largest as int),
            1 <= count_reaching(m, largest as int) <= num_equal <= count,
            excess < count_reaching(m, largest as int) || {
                &&& num_equal == count_reaching(m, largest as int)
                &&& forall|i: int| 0 <= i < count && #[trigger] m[i] < largest ==> m[i] <= next_largest
                &&& (next_largest < largest || largest == 0)
            },
        ensures
            excess < count_reaching(m, largest as int),
        decreases excess,
    {
        let ghost k = count_reaching(m, largest as int);
        let whole: u32 = (excess as usize / num_equal) as u32;
        let gap: u32 = if next_largest < largest {
            largest - next_largest
        } else {
            0
        };
        let step: u32 = if whole < gap {
            whole
        } else {
            gap
        };
        proof {
            lemma_fundamental_div_mod(excess as int, num_equal as int);
            lemma_mod_pos_bound(excess as int, num_equal as int);
            if excess >= k {
                assert(whole == 0 ==> excess < num_equal) by (nonlinear_arith)
                    requires
                        excess == num_equal * whole + (excess as int % num_equal as int),
                        (excess as int % num_equal as int) < num_equal,
                ;
                if gap == 0 {
                    lemma_capped_at_zero(m);
                }
            }
        }
        if step == 0 {
            break ;
        }
        proof {
            assert(whole >= 1);
            assert(excess >= num_equal) by (nonlinear_arith)
                requires
                    excess == num_equal * whole + (excess as int % num_equal as int),
                    (excess as int % num_equal as int) >= 0,
                    whole >= 1,
                    num_equal >= 1,
            ;
            assert(1 <= step * num_equal <= excess) by (nonlinear_arith)
                requires
                    excess == num_equal * whole + (excess as int % num_equal as int),
                    (excess as int % num_equal as int) >= 0,
                    1 <= step <= whole,
                    num_equal >= 1,
            ;
        }

        let thresh: u32 = next_largest;
        let mut num_add: usize = 0;
        next_largest = 0;
        for n in 0..count
            invariant
                out@.len() == count,
                m.len() == count,
                1 <= step <= largest - thresh,
                forall|i: int| 0 <= i < count && #[trigger] m[i] < largest ==> m[i] <= thresh,
                forall|i: int| 0 <= i < n ==> out@[i] == smaller(#[trigger] m[i], largest - step),
                forall|i: int| n <= i < count ==> out@[i] == smaller(#[trigger] m[i], largest as int),
                forall|i: int| 0 <= i < n && #[trigger] m[i] < thresh ==> m[i] <= next_largest,
                next_largest < thresh || next_largest == 0,
                num_add == sum(resting(m, thresh as int).take(n as int)),
                num_add <= n,
                count_reaching_before(m, largest as int, n as int) + num_add <= n,
        {
            proof {
                lemma_sum_take_next(resting(m, thresh as int), n as int);
                lemma_sum_take_next(reaching(m, largest as int), n as int);
            }
            let a: u32 = out[n];
            assert(a == smaller(m[n as int], largest as int));
            if a == largest {
                out[n] = a - step;
            } else if a == thresh {
                num_add = num_add + 1;
            } else if a > next_largest {
                next_largest = a;
            }
        }

        proof {
            let lower = largest - step;
            lemma_sum_take_all(resting(m, thresh as int));
            lemma_sum_take_all(reaching(m, largest as int));
            lemma_capped_drop(m, largest as int, step as int);
            if lower == thresh {
                lemma_sum_add(
                    reaching(m, largest as int),
                    resting(m, thresh as int),
                    reaching(m, thresh as int),
                );
            } else {
                assert(reaching(m, lower) =~= reaching(m, largest as int));
                assert(step == whole);
                assert(num_equal == k);
                assert(excess - step * num_equal == excess as int % num_equal as int) by (nonlinear_arith)
                    requires
                        excess == num_equal * whole + (excess as int % num_equal as int),
                        step == whole,
                ;
            }
        }
        excess = excess - (step as usize * num_equal) as u32;
        largest = largest - step;
        num_equal = num_equal + num_add;
    }

    // What is left is less than one unit for each child at the top: take one
    // unit from the first of them, one child at a time.
    let ghost level = largest as int;
    let ghost left = excess as int;
    let ghost hit = reaching(m, level);
    assert forall|i: int| 0 <= i < count implies 0 <= #[trigger] hit[i] <= 1 by {}
    proof {
        assert(ints(out@) =~= m.map_values(|v: int| smaller(v, level)));
        if level == 0 {
            lemma_capped_at_zero(m);
        }
    }
    let mut n: usize = 0;
    while n < count && excess > 0
        invariant
            out@.len() == count,
            m.len() == count,
            n <= count,
            level == largest,
            level > 0 || excess == 0,
            hit == reaching(m, level),
            forall|i: int| 0 <= i < count ==> 0 <= #[trigger] hit[i] <= 1,
            0 <= left,
            excess == if sum(hit.take(n as int)) >= left {
                0
            } else {
                left - sum(hit.take(n as int))
            },
            sum(ints(out@)) == target + excess,
            forall|i: int| n <= i < count ==> out@[i] == smaller(#[trigger] m[i], level),
            forall|i: int|
                0 <= i < n ==> out@[i] == if #[trigger] m[i] < level {
                    m[i]
                } else if sum(hit.take(i)) < left {
                    level - 1
                } else {
                    level
                },
        decreases count - n,
    {
        proof {
            lemma_sum_take_next(hit, n as int);
        }
        if out[n] == largest {
            let ghost before = ints(out@);
            proof {
                lemma_sum_update(before, n as int, level - 1);
            }
            out[n] = out[n] - 1;
            excess = excess - 1;
            assert(ints(out@) =~= before.update(n as int, level - 1));
        }
        n = n + 1;
    }

    proof {
        let total_hit = count_reaching(m, level);
        lemma_sum_take_all(hit);
        assert(excess == 0);
        assert forall|i: int| 0 <= i < count implies out@[i] == if m[i] < level {
            m[i]
        } else if sum(hit.take(i)) < left {
            level - 1
        } else {
            level
        } by {
            if i >= n {
                lemma_sum_prefixes_ordered(hit, n as int, i);
            }
        }
        lemma_capped_step(m, level);
        assert(is_fill_level(m, target as int, level));
        lemma_fill_level_unique(m, target as int, level);
        assert(ints(out@) =~= deficit_sizes(m, target as int));
    }
}

/// Whether `rules` is what `solve_seq` works on: rules that are all valid,
/// the last of them the total of those before it.
pub fn is_valid_with_total(rules: &[SizeRules]) -> (b: bool)
    ensures
        b == (all_valid(rules@) && ends_in_total(rules@)),
{
    let len: usize = rules.len();
    if len == 0 {
        return false;
    }
    let count: usize = len - 1;
    let total = rules[count];
    if total.min_size() > total.pref_size() {
        assert(!rules@[count as int].valid());
        return false;
    }
    let ghost kids = rules@.drop_last();
    let ghost m = mins(kids);
    let ghost p = prefs(kids);
    let mut min_sum: u32 = 0;
    let mut pref_sum: u32 = 0;
    for n in 0..count
        invariant
            rules@.len() == count + 1,
            kids == rules@.drop_last(),
            m == mins(kids),
            p == prefs(kids),
            total == rules@.last(),
            total.valid(),
            min_sum == sum(m.take(n as int)),
            pref_sum == sum(p.take(n as int)),
            min_sum <= total.min(),
            pref_sum <= total.pref(),
            forall|i: int| 0 <= i < n ==> (#[trigger] rules@[i]).valid(),
    {
        let r = rules[n];
        proof {
            assert(kids[n as int] == rules@[n as int]);
            lemma_sum_take_next(m, n as int);
            lemma_sum_take_next(p, n as int);
            lemma_sum_prefix_le(m, n as int + 1);
            lemma_sum_prefix_le(p, n as int + 1);
        }
        if r.min_size() > r.pref_size() {
            assert(!rules@[n as int].valid());
            return false;
        }
        if r.min_size() > total.min_size() - min_sum || r.pref_size() > total.pref_size()
            - pref_sum {
            return false;
        }
        min_sum = min_sum + r.min_size();
        pref_sum = pref_sum + r.pref_size();
    }
    proof {
        lemma_sum_take_all(m);
        lemma_sum_take_all(p);
    }
    min_sum == total.min_size() && pref_sum == total.pref_size()
}

impl SizeRules {
    /// Solves a sequence of rules: given the rules of the children along one
    /// axis, followed by their total, and a target size, finds a size for
    /// each child.
    ///
    /// The sizes add up to the target. A target at or above the total minimum
    /// leaves every child at or above its minimum; a target below it leaves
    /// every child at or below its minimum. Without children nothing is
    /// written.
    pub fn solve_seq(out: &mut [u32], rules: &[SizeRules], target: u32)
        requires
            rules@.len() == old(out)@.len() + 1,
            all_valid(rules@),
            old(out)@.len() > 0 ==> ends_in_total(rules@),
        ensures
            final(out)@.len() == old(out)@.len(),
            ints(final(out)@) == solved_sizes(rules@, target as int),
            old(out)@.len() > 0 ==> sum(ints(final(out)@)) == target,
            target >= rules@.last().min() ==> forall|n: int|
                0 <= n < final(out)@.len() ==> final(out)@[n] >= rules@[n].min(),
            target < rules@.last().min() ==> forall|n: int|
                0 <= n < final(out)@.len() ==> final(out)@[n] <= rules@[n].min(),
    {
        let count: usize = out.len();
        if count == 0 {
            assert(ints(out@) =~= solved_sizes(rules@, target as int));
            return ;
        }
        if target >= rules[count].min_size() {
            share_surplus(out, rules, target);
        } else {
            shrink_to_deficit(out, rules, target);
        }
    }
}

} // verus!
