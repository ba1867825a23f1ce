//! Size rules: what a widget asks for along one axis, and how margins add
//! to it.

use super::sums::{larger, smaller};
use super::AxisInfo;
use crate::geom::Size;
use core::ops::{Add, AddAssign};
use vstd::prelude::*;
use vstd::std_specs::ops::AddSpecImpl;

verus! {

/// The number of gaps between `count` children laid out in a line.
pub open spec fn gaps(count: int) -> int {
    if count <= 0 {
        0
    } else {
        count - 1
    }
}

/// Margin sizes: the space before the first child, after the last child and
/// between neighbours, each as a width and a height.
#[derive(Copy, Clone, Debug, PartialEq, Eq, Structural)]
pub struct Margins {
    /// Size of top/left margin
    pub first: Size,
    /// Size of bottom/right margin
    pub last: Size,
    /// Size of inter-widget horizontal/vertical margins
    pub inter: Size,
}

impl Margins {
    /// The space the margins take along one axis around `count` children:
    /// both outer margins and one inner margin per gap.
    pub open spec fn extent(self, vertical: bool, count: int) -> int {
        if vertical {
            self.first.1 + self.last.1 + self.inter.1 * gaps(count)
        } else {
            self.first.0 + self.last.0 + self.inter.0 * gaps(count)
        }
    }

    /// The space the margins take along the axis of `axis_info`, with
    /// `columns` children side by side and `rows` children above each other.
    pub open spec fn extent_along(self, axis_info: AxisInfo, columns: u32, rows: u32) -> int {
        if axis_info.is_vertical() {
            self.extent(true, rows as int)
        } else {
            self.extent(false, columns as int)
        }
    }

    /// Around no children the margins take what they take around one child:
    /// the two outer margins, and nothing is subtracted for a gap that is
    /// not there.
    pub proof fn lemma_extent_without_children(self, vertical: bool)
        ensures
            self.extent(vertical, 0) == self.extent(vertical, 1),
            self.extent(true, 0) == self.first.1 + self.last.1,
            self.extent(false, 0) == self.first.0 + self.last.0,
    {
    }

    /// The rules of the margins depend on the axis being measured alone, not
    /// on what else the query holds: two queries along the same axis give the
    /// same space.
    pub proof fn lemma_extent_same_axis(self, a: AxisInfo, b: AxisInfo, columns: u32, rows: u32)
        requires
            a.is_vertical() == b.is_vertical(),
        ensures
            self.extent_along(a, columns, rows) == self.extent_along(b, columns, rows),
    {
    }

    /// The space taken grows with the number of children, and is never
    /// negative.
    pub proof fn lemma_extent_monotone(self, vertical: bool, fewer: int, more: int)
        requires
            fewer <= more,
        ensures
            0 <= self.extent(vertical, fewer) <= self.extent(vertical, more),
    {
        let inter: int = if vertical { self.inter.1 as int } else { self.inter.0 as int };
        assert(0 <= inter * gaps(fewer) <= inter * gaps(more)) by (nonlinear_arith)
            requires
                0 <= inter,
                0 <= gaps(fewer) <= gaps(more),
        ;
    }

    /// Zero-sized margins.
    pub fn zero() -> (r: Self)
        ensures
            r == Margins::uniform_spec(0, 0),
    {
        Margins::uniform(0, 0)
    }

    /// The margins that `uniform` builds.
    pub open spec fn uniform_spec(edge: u32, inter: u32) -> Margins {
        Margins { first: Size(edge, edge), last: Size(edge, edge), inter: Size(inter, inter) }
    }

    /// Margins with equal size on each edge, and on each axis.
    pub fn uniform(edge: u32, inter: u32) -> (r: Self)
        ensures
            r == Margins::uniform_spec(edge, inter),
    {
        Margins {
            first: Size::uniform(edge),
            last: Size::uniform(edge),
            inter: Size::uniform(inter),
        }
    }

    /// The rules of the margins alone, the content taken as zero-sized:
    /// a fixed size, the space they take along the axis of `axis_info`
    /// given the number of child columns and rows.
    pub fn size_rules(&self, axis_info: AxisInfo, columns: u32, rows: u32) -> (r: SizeRules)
        requires
            self.extent_along(axis_info, columns, rows) <= u32::MAX,
        ensures
            r.min() == self.extent_along(axis_info, columns, rows),
            r.pref() == self.extent_along(axis_info, columns, rows),
            r.valid(),
    {
        if !axis_info.vertical() {
            let between: u32 = columns.saturating_sub(1);
            assert(between == gaps(columns as int));
            assert(0 <= self.inter.0 * between) by (nonlinear_arith)
                requires
                    0 <= self.inter.0,
                    0 <= between,
            ;
            SizeRules::fixed(self.first.0 + self.last.0 + self.inter.0 * between)
        } else {
            let between: u32 = rows.saturating_sub(1);
            assert(between == gaps(rows as int));
            assert(0 <= self.inter.1 * between) by (nonlinear_arith)
                requires
                    0 <= self.inter.1,
                    0 <= between,
            ;
            SizeRules::fixed(self.first.1 + self.last.1 + self.inter.1 * between)
        }
    }
}

impl Default for Margins {
    fn default() -> (r: Self)
        ensures
            r == Margins::uniform_spec(0, 0),
    {
        Margins::uniform(0, 0)
    }
}

/// What a widget asks for along one axis: a minimum size and a preferred
/// size, the preferred one at least the minimum.
#[derive(Copy, Clone, Debug, PartialEq, Eq, Structural)]
pub struct SizeRules {
    // minimum size
    a: u32,
    // preferred size; b >= a
    b: u32,
}

impl SizeRules {
    /// The minimum size.
    pub closed spec fn min(self) -> u32 {
        self.a
    }

    /// The preferred size.
    pub closed spec fn pref(self) -> u32 {
        self.b
    }

    /// The invariant of the type: the preferred size is at least the minimum.
    pub open spec fn valid(self) -> bool {
        self.min() <= self.pref()
    }

    /// The rules with the given sizes.
    pub closed spec fn of(min: u32, pref: u32) -> SizeRules {
        SizeRules { a: min, b: pref }
    }

    /// The rules with given sizes have those sizes.
    pub broadcast proof fn lemma_of(min: u32, pref: u32)
        ensures
            (#[trigger] SizeRules::of(min, pref)).min() == min,
            SizeRules::of(min, pref).pref() == pref,
    {
    }

    /// Whether `self` asks for at least what `other` asks for, size by size.
    pub open spec fn covers(self, other: SizeRules) -> bool {
        self.min() >= other.min() && self.pref() >= other.pref()
    }

    /// What `set_at_least_op_sub` makes of `self`, given rules `x` and the
    /// sizes to take off them: `self` raised to at least the differences,
    /// with the preferred size at least the minimum. A difference below zero
    /// raises nothing.
    pub open spec fn raised_by(self, x: SizeRules, less_min: int, less_pref: int) -> SizeRules {
        let min = larger(self.min() as int, x.min() - less_min);
        let pref = larger(min, larger(self.pref() as int, x.pref() - less_pref));
        SizeRules::of(min as u32, pref as u32)
    }

    /// Rules are determined by their two sizes.
    pub proof fn lemma_determined(self, other: Self)
        requires
            self.min() == other.min(),
            self.pref() == other.pref(),
        ensures
            self == other,
    {
    }

    /// The empty rules: zero size.
    pub open spec fn empty_spec() -> SizeRules {
        SizeRules::of(0, 0)
    }

    /// Empty (zero size).
    pub fn empty() -> (r: Self)
        ensures
            r == SizeRules::empty_spec(),
            r.min() == 0,
            r.pref() == 0,
            r.valid(),
    {
        SizeRules { a: 0, b: 0 }
    }

    /// A fixed size.
    pub fn fixed(size: u32) -> (r: Self)
        ensures
            r.min() == size,
            r.pref() == size,
            r.valid(),
    {
        SizeRules { a: size, b: size }
    }

    /// A variable size with the given minimum and preferred values.
    pub fn variable(min: u32, pref: u32) -> (r: Self)
        requires
            min <= pref,
        ensures
            r.min() == min,
            r.pref() == pref,
            r.valid(),
    {
        SizeRules { a: min, b: pref }
    }

    /// The larger of `self` and `rhs`, size by size.
    pub open spec fn max_spec(self, rhs: SizeRules) -> SizeRules {
        SizeRules::of(
            larger(self.min() as int, rhs.min() as int) as u32,
            larger(self.pref() as int, rhs.pref() as int) as u32,
        )
    }

    /// The larger of `self` and `rhs`, size by size.
    pub fn max(self, rhs: Self) -> (r: Self)
        ensures
            r == self.max_spec(rhs),
            r.min() == larger(self.min() as int, rhs.min() as int),
            r.pref() == larger(self.pref() as int, rhs.pref() as int),
            self.valid() && rhs.valid() ==> r.valid(),
    {
        SizeRules {
            a: if self.a >= rhs.a { self.a } else { rhs.a },
            b: if self.b >= rhs.b { self.b } else { rhs.b },
        }
    }

    /// The minimum size.
    pub fn min_size(self) -> (m: u32)
        ensures
            m == self.min(),
    {
        self.a
    }

    /// The preferred size.
    pub fn pref_size(self) -> (p: u32)
        ensures
            p == self.pref(),
    {
        self.b
    }

    /// Raises `self` to at least `x - y`, size by size. A difference below
    /// zero raises nothing; the preferred size ends at least the minimum.
    pub fn set_at_least_op_sub(&mut self, x: Self, y: Self)
        ensures
            *final(self) == old(self).raised_by(x, y.min() as int, y.pref() as int),
            final(self).min() == larger(old(self).min() as int, x.min() - y.min()),
            final(self).pref() == larger(
                final(self).min() as int,
                larger(old(self).pref() as int, x.pref() - y.pref()),
            ),
            final(self).valid(),
    {
        if x.a > y.a {
            let d: u32 = x.a - y.a;
            if d > self.a {
                self.a = d;
            }
        }
        if x.b > y.b {
            let d: u32 = x.b - y.b;
            if d > self.b {
                self.b = d;
            }
        }
        if self.a > self.b {
            self.b = self.a;
        }
    }

    /// Lowers the minimum size to `min`; a `min` above the current minimum
    /// changes nothing.
    pub fn reduce_min_to(&mut self, min: u32)
        ensures
            final(self).min() == smaller(old(self).min() as int, min as int),
            final(self).pref() == old(self).pref(),
            old(self).valid() ==> final(self).valid(),
    {
        if min < self.a {
            self.a = min;
        }
    }
}

impl Default for SizeRules {
    fn default() -> (r: Self)
        ensures
            r == SizeRules::empty_spec(),
            r.min() == 0,
            r.pref() == 0,
    {
        SizeRules { a: 0, b: 0 }
    }
}

impl AddSpecImpl<SizeRules> for SizeRules {
    open spec fn obeys_add_spec() -> bool {
        true
    }

    open spec fn add_req(self, rhs: SizeRules) -> bool {
        self.min() + rhs.min() <= u32::MAX && self.pref() + rhs.pref() <= u32::MAX
    }

    open spec fn add_spec(self, rhs: SizeRules) -> SizeRules {
        SizeRules::of((self.min() + rhs.min()) as u32, (self.pref() + rhs.pref()) as u32)
    }
}

impl Add<SizeRules> for SizeRules {
    type Output = SizeRules;

    /// Rules for two things laid end to end: the sizes add.
    fn add(self, rhs: SizeRules) -> (r: SizeRules)
        ensures
            r.min() == self.min() + rhs.min(),
            r.pref() == self.pref() + rhs.pref(),
            self.valid() && rhs.valid() ==> r.valid(),
    {
        SizeRules { a: self.a + rhs.a, b: self.b + rhs.b }
    }
}

impl AddSpecImpl<u32> for SizeRules {
    open spec fn obeys_add_spec() -> bool {
        true
    }

    open spec fn add_req(self, rhs: u32) -> bool {
        self.min() + rhs <= u32::MAX && self.pref() + rhs <= u32::MAX
    }

    open spec fn add_spec(self, rhs: u32) -> SizeRules {
        SizeRules::of((self.min() + rhs) as u32, (self.pref() + rhs) as u32)
    }
}

impl Add<u32> for SizeRules {
    type Output = SizeRules;

    /// Rules for a thing with a fixed size added: both sizes grow by it.
    fn add(self, rhs: u32) -> (r: SizeRules)
        ensures
            r.min() == self.min() + rhs,
            r.pref() == self.pref() + rhs,
            self.valid() ==> r.valid(),
    {
        SizeRules { a: self.a + rhs, b: self.b + rhs }
    }
}

impl AddAssign for SizeRules {
    /// Adds the sizes of `rhs` to those of `self`.
    fn add_assign(&mut self, rhs: SizeRules)
        requires
            old(self).min() + rhs.min() <= u32::MAX,
            old(self).pref() + rhs.pref() <= u32::MAX,
        ensures
            final(self).min() == old(self).min() + rhs.min(),
            final(self).pref() == old(self).pref() + rhs.pref(),
            old(self).valid() && rhs.valid() ==> final(self).valid(),
    {
        self.a = self.a + rhs.a;
        self.b = self.b + rhs.b;
    }
}

} // verus!
