//! Solving the layout of a row or column.
//!
//! A pass over the children first asks each for its rules along one axis and
//! combines them into the rules of the container: `RowSolver`. Once the
//! container has its rectangle, a second pass gives each child its own:
//! `RowSetter`.

use super::size_rules::{gaps, Margins, SizeRules};
use super::solve_seq::{all_valid, ends_in_total, mins, prefs, solved_sizes};
use super::storage::{resized, RowStorage};
use super::sums::{
    ints, lemma_max_of_bounds, lemma_max_of_is_reached, lemma_sum_bounds_element,
    lemma_sum_prefix_le, lemma_sum_take_all, lemma_sum_take_next, max_of, sum,
};
use super::{AxisInfo, Direction};
use crate::geom::{Coord, Rect, Size};
use vstd::prelude::*;

verus! {

/// A vector of `len` zeros.
pub(crate) fn zeros(len: usize) -> (v: Vec<u32>)
    ensures
        v@.len() == len,
        forall|i: int| 0 <= i < len ==> v@[i] == 0,
{
    let mut v: Vec<u32> = Vec::new();
    while v.len() < len
        invariant
            v@.len() <= len,
            forall|i: int| 0 <= i < v@.len() ==> v@[i] == 0,
        decreases len - v@.len(),
    {
        v.push(0);
    }
    v
}

/// The rules of a container whose children have the rules `children`: laid
/// end to end along the axis measured their sizes add, side by side across
/// it the largest counts.
pub open spec fn combined_min(children: Seq<SizeRules>, across: bool) -> int {
    if across {
        max_of(mins(children))
    } else {
        sum(mins(children))
    }
}

/// As `combined_min`, for the preferred size.
pub open spec fn combined_pref(children: Seq<SizeRules>, across: bool) -> int {
    if across {
        max_of(prefs(children))
    } else {
        sum(prefs(children))
    }
}

/// Collects the rules of the children of a row or column along one axis.
///
/// The children are handed in by `for_child`, in order; `finish` gives the
/// rules of the container. Measured along its direction the container asks
/// for the sum of what the children ask for, and the storage keeps the rules
/// of each child and their total. Measured across, it asks for the largest.
pub struct RowSolver {
    axis: AxisInfo,
    across: bool,
    rules: SizeRules,
    widths: Vec<u32>,
    seen: Ghost<Seq<SizeRules>>,
}

impl RowSolver {
    /// The axis being measured.
    pub closed spec fn axis(&self) -> AxisInfo {
        self.axis
    }

    /// Whether the axis being measured runs across the direction of the row.
    pub closed spec fn across(&self) -> bool {
        self.across
    }

    /// The number of children.
    pub closed spec fn len(&self) -> nat {
        self.widths@.len()
    }

    /// The size of each child along the direction of the row, where the axis
    /// measured runs across it and the size along it is fixed; else zeros.
    pub closed spec fn widths(&self) -> Seq<u32> {
        self.widths@
    }

    /// The rules of the children handed in so far.
    pub closed spec fn seen(&self) -> Seq<SizeRules> {
        self.seen@
    }

    /// The rules of the children handed in so far, combined.
    pub closed spec fn total(&self) -> SizeRules {
        self.rules
    }

    /// Whether a solver for `axis` and a row that runs vertically or not has
    /// to know the size of each child along the row: it has where it
    /// measures across the row and the size along the row is fixed.
    pub open spec fn solves_widths(axis: AxisInfo, vertical_row: bool) -> bool {
        axis.other_size() is Some && axis.is_vertical() != vertical_row
    }

    /// The invariant that ties the solver to the storage it works on.
    pub open spec fn wf<S: RowStorage>(&self, storage: &S) -> bool {
        &&& storage.rules().len() == self.len() + 1
        &&& self.seen().len() <= self.len()
        &&& all_valid(self.seen())
        &&& self.total().min() == combined_min(self.seen(), self.across())
        &&& self.total().pref() == combined_pref(self.seen(), self.across())
        &&& !self.across() ==> storage.rules().take(self.seen().len() as int) == self.seen()
    }

    /// Starts a pass along `axis` over the `len` children of a row that runs
    /// in direction `dir`, and makes `storage` hold `len` rules and a total.
    ///
    /// Where the pass measures across the row and the size along the row is
    /// fixed, that size is shared out among the children by the rules that
    /// the storage holds from an earlier pass.
    pub fn new<D: Direction, S: RowStorage>(axis: AxisInfo, dir: D, len: usize, storage: &mut S) -> (solver: Self)
        requires
            len < usize::MAX,
            old(storage).fits(len + 1),
            Self::solves_widths(axis, dir.runs_vertical()) ==> {
                let rules = resized(old(storage).rules(), len + 1);
                all_valid(rules) && (len > 0 ==> ends_in_total(rules))
            },
        ensures
            final(storage).rules() == resized(old(storage).rules(), len + 1),
            forall|l: int| final(storage).fits(l) == old(storage).fits(l),
            solver.axis() == axis,
            solver.across() == (axis.is_vertical() != dir.runs_vertical()),
            solver.len() == len,
            solver.seen() == Seq::<SizeRules>::empty(),
            solver.wf(final(storage)),
            Self::solves_widths(axis, dir.runs_vertical()) ==> ints(solver.widths())
                == solved_sizes(final(storage).rules(), axis.other_size().unwrap() as int),
            !Self::solves_widths(axis, dir.runs_vertical()) ==> forall|i: int|
                0 <= i < len ==> solver.widths()[i] == 0,
    {
        let mut widths = zeros(len);
        storage.set_len(len + 1);
        let across = axis.vertical() != dir.is_vertical();
        if across {
            match axis.fixed(axis.vertical()) {
                Some(size) => {
                    SizeRules::solve_seq(widths.as_mut_slice(), storage.as_ref(), size);
                },
                None => {},
            }
        }
        let solver = RowSolver {
            axis,
            across,
            rules: SizeRules::empty(),
            widths,
            seen: Ghost(Seq::empty()),
        };
        proof {
            assert(mins(solver.seen()) =~= Seq::<int>::empty());
            assert(prefs(solver.seen()) =~= Seq::<int>::empty());
            assert(storage.rules().take(0) =~= solver.seen());
        }
        solver
    }

    /// The axis to ask child `index` for its rules with: the axis being
    /// measured, with the size of that child along the row as the fixed size
    /// of the other axis where the solver knows it.
    pub fn child_axis(&self, index: usize) -> (axis: AxisInfo)
        requires
            index < self.len(),
        ensures
            axis.is_vertical() == self.axis().is_vertical(),
            axis.other_size() == if self.across() && self.axis().other_size() is Some {
                Some(self.widths()[index as int])
            } else {
                self.axis().other_size()
            },
    {
        let vertical = self.axis.vertical();
        match self.axis.fixed(vertical) {
            Some(size) => if self.across {
                AxisInfo::new(vertical, Some(self.widths[index]))
            } else {
                AxisInfo::new(vertical, Some(size))
            },
            None => AxisInfo::new(vertical, None),
        }
    }

    /// Whether `for_child` can take in `child_rules` next: along the row,
    /// whether they add to the rules taken in so far without passing the
    /// largest size.
    pub fn accepts(&self, child_rules: SizeRules) -> (b: bool)
        ensures
            b == (self.across() || self.total().pref() + child_rules.pref() <= u32::MAX),
    {
        self.across || child_rules.pref_size() <= u32::MAX - self.rules.pref_size()
    }

    /// Takes in the rules of child `index`, the next child in order.
    pub fn for_child<S: RowStorage>(&mut self, storage: &mut S, index: usize, child_rules: SizeRules)
        requires
            old(self).wf(old(storage)),
            index == old(self).seen().len(),
            index < old(self).len(),
            child_rules.valid(),
            !old(self).across() ==> old(self).total().pref() + child_rules.pref() <= u32::MAX,
        ensures
            final(self).wf(final(storage)),
            final(self).seen() == old(self).seen().push(child_rules),
            final(self).axis() == old(self).axis(),
            final(self).across() == old(self).across(),
            final(self).len() == old(self).len(),
            final(self).widths() == old(self).widths(),
            final(storage).rules() == if old(self).across() {
                old(storage).rules()
            } else {
                old(storage).rules().update(index as int, child_rules)
            },
            forall|l: int| final(storage).fits(l) == old(storage).fits(l),
    {
        let ghost before = self.seen@;
        let ghost after = before.push(child_rules);
        proof {
            assert(after.drop_last() =~= before);
            assert(mins(after).drop_last() =~= mins(before));
            assert(prefs(after).drop_last() =~= prefs(before));
            lemma_combined_valid(before, self.across);
        }
        if !self.across {
            storage.set(index, child_rules);
            self.rules = self.rules + child_rules;
            proof {
                assert(storage.rules().take(index + 1) =~= after);
            }
        } else {
            self.rules = self.rules.max(child_rules);
        }
        self.seen = Ghost(after);
    }

    /// Ends the pass, all children handed in: gives the rules of the
    /// container, and where the pass ran along the row, makes them the total
    /// in the storage.
    pub fn finish<S: RowStorage>(self, storage: &mut S) -> (rules: SizeRules)
        requires
            self.wf(old(storage)),
            self.seen().len() == self.len(),
        ensures
            rules.min() == combined_min(self.seen(), self.across()),
            rules.pref() == combined_pref(self.seen(), self.across()),
            rules.valid(),
            final(storage).rules() == if self.across() {
                old(storage).rules()
            } else {
                self.seen().push(rules)
            },
            !self.across() ==> all_valid(final(storage).rules()) && ends_in_total(
                final(storage).rules(),
            ),
            forall|l: int| final(storage).fits(l) == old(storage).fits(l),
    {
        let cols: usize = self.widths.len();
        let rules = self.rules;
        proof {
            lemma_combined_valid(self.seen@, self.across);
        }
        if !self.across {
            storage.set(cols, rules);
            proof {
                let stored = storage.rules();
                assert(stored =~= self.seen@.push(rules));
                assert(stored.drop_last() =~= self.seen@);
            }
        }
        rules
    }
}

/// Combined rules of valid rules are valid: the preferred size is at least
/// the minimum.
pub proof fn lemma_combined_valid(children: Seq<SizeRules>, across: bool)
    requires
        all_valid(children),
    ensures
        combined_min(children, across) <= combined_pref(children, across),
    decreases children.len(),
{
    if children.len() > 0 {
        let rest = children.drop_last();
        lemma_combined_valid(rest, across);
        assert(children.last().valid());
        assert(mins(children).drop_last() =~= mins(rest));
        assert(prefs(children).drop_last() =~= prefs(rest));
    }
}

/// A container asks for at least what each of its children asks for.
pub proof fn lemma_combined_covers(children: Seq<SizeRules>, across: bool, index: int)
    requires
        0 <= index < children.len(),
    ensures
        combined_min(children, across) >= children[index].min(),
        combined_pref(children, across) >= children[index].pref(),
{
    if across {
        lemma_max_of_bounds(mins(children), index);
        lemma_max_of_bounds(prefs(children), index);
    } else {
        lemma_sum_bounds_element(mins(children), index);
        lemma_sum_bounds_element(prefs(children), index);
    }
}

/// Measured across the row, a container with children asks for no more than
/// the child that asks for most.
pub proof fn lemma_combined_is_reached(children: Seq<SizeRules>)
    requires
        children.len() > 0,
    ensures
        exists|i: int| 0 <= i < children.len() && children[i].min() == combined_min(children, true),
        exists|i: int|
            0 <= i < children.len() && children[i].pref() == combined_pref(children, true),
{
    lemma_max_of_is_reached(mins(children));
    lemma_max_of_is_reached(prefs(children));
    lemma_max_of_bounds(mins(children), 0);
    lemma_max_of_bounds(prefs(children), 0);
    if max_of(mins(children)) == 0 {
        assert(children[0].min() == 0);
    } else {
        let i = choose|i: int| 0 <= i < children.len() && mins(children)[i] == max_of(mins(children));
        assert(children[i].min() == combined_min(children, true));
    }
    if max_of(prefs(children)) == 0 {
        assert(children[0].pref() == 0);
    } else {
        let i = choose|i: int|
            0 <= i < children.len() && prefs(children)[i] == max_of(prefs(children));
        assert(children[i].pref() == combined_pref(children, true));
    }
}

/// A pass gives the same again: two passes along the same axis over children
/// that hand in the same rules return the same rules for the container and,
/// where they write to the storage, leave the same rules there, whatever it
/// held before.
pub proof fn lemma_pass_repeats(
    children: Seq<SizeRules>,
    across: bool,
    first: SizeRules,
    second: SizeRules,
)
    requires
        first.min() == combined_min(children, across),
        first.pref() == combined_pref(children, across),
        second.min() == combined_min(children, across),
        second.pref() == combined_pref(children, across),
    ensures
        first == second,
        children.push(first) == children.push(second),
{
    first.lemma_determined(second);
}

/// Whether `margins` leave room in `rect`: on each axis the two outer margins
/// fit in the size, and the far edges of `rect` can be written as positions.
pub open spec fn margins_fit(rect: Rect, margins: Margins) -> bool {
    &&& margins.first.0 + margins.last.0 <= rect.size.0
    &&& margins.first.1 + margins.last.1 <= rect.size.1
    &&& rect.pos.0 + rect.size.0 <= i32::MAX
    &&& rect.pos.1 + rect.size.1 <= i32::MAX
}

/// What is left of `rect` inside the outer margins.
pub open spec fn inner_rect(rect: Rect, margins: Margins) -> Rect {
    Rect {
        pos: Coord((rect.pos.0 + margins.first.0) as i32, (rect.pos.1 + margins.first.1) as i32),
        size: Size(
            (rect.size.0 - margins.first.0 - margins.last.0) as u32,
            (rect.size.1 - margins.first.1 - margins.last.1) as u32,
        ),
    }
}

/// Computes what is left of `rect` inside the outer margins.
pub(crate) fn shrink_by_margins(rect: Rect, margins: Margins) -> (inner: Rect)
    requires
        margins_fit(rect, margins),
    ensures
        inner == inner_rect(rect, margins),
{
    let x: i64 = rect.pos.0 as i64 + margins.first.0 as i64;
    let y: i64 = rect.pos.1 as i64 + margins.first.1 as i64;
    Rect {
        pos: Coord(x as i32, y as i32),
        size: Size(
            rect.size.0 - margins.first.0 - margins.last.0,
            rect.size.1 - margins.first.1 - margins.last.1,
        ),
    }
}

/// The component of `size` along a row that runs vertically or not.
pub open spec fn size_along(size: Size, vertical: bool) -> u32 {
    if vertical {
        size.1
    } else {
        size.0
    }
}

/// How far child `index` of a row starts from the start of the row: behind
/// the children before it, whose sizes along the row are `widths`, and one
/// margin `inter` for each of them.
pub open spec fn start_of(widths: Seq<int>, inter: int, index: int) -> int {
    sum(widths.take(index)) + index * inter
}

/// Each child starts one margin behind the end of the child before it.
pub proof fn lemma_start_of_next(widths: Seq<int>, inter: int, index: int)
    requires
        0 <= index < widths.len(),
    ensures
        start_of(widths, inter, index + 1) == start_of(widths, inter, index) + widths[index]
            + inter,
        start_of(widths, inter, 0) == 0,
{
    lemma_sum_take_next(widths, index);
    assert((index + 1) * inter == index * inter + inter) by (nonlinear_arith);
    assert(widths.take(0) =~= Seq::<int>::empty());
}

/// In a row that with its margins is `room` long, every child ends inside
/// the row, and the last child ends where the row ends.
pub proof fn lemma_children_end_inside(widths: Seq<int>, inter: int, room: int, index: int)
    requires
        0 <= index < widths.len(),
        forall|i: int| 0 <= i < widths.len() ==> widths[i] >= 0,
        inter >= 0,
        sum(widths) + inter * (widths.len() - 1) == room,
    ensures
        0 <= start_of(widths, inter, index),
        start_of(widths, inter, index) + widths[index] <= room,
        index == widths.len() - 1 ==> start_of(widths, inter, index) + widths[index] == room,
{
    lemma_sum_take_next(widths, index);
    lemma_sum_prefix_le(widths, index + 1);
    lemma_sum_prefix_le(widths, index);
    lemma_sum_take_all(widths);
    let last = widths.len() - 1;
    assert(0 <= index * inter <= last * inter) by (nonlinear_arith)
        requires
            0 <= index <= last,
            inter >= 0,
    ;
    assert(inter * last == last * inter) by (nonlinear_arith);
}

/// The space that the margins between `len` children take.
pub(crate) fn gap_space(inter: u32, len: usize) -> (space: u32)
    requires
        inter * gaps(len as int) <= u32::MAX,
    ensures
        space == inter * gaps(len as int),
{
    if len == 0 || inter == 0 {
        assert(inter * gaps(len as int) == 0) by (nonlinear_arith)
            requires
                inter == 0 || gaps(len as int) == 0,
        ;
        0
    } else {
        let between: usize = len - 1;
        assert(between <= u32::MAX) by (nonlinear_arith)
            requires
                inter * between <= u32::MAX,
                inter >= 1,
                between >= 0,
        ;
        assert((inter as u64) * (between as u64) == inter * between);
        ((inter as u64) * (between as u64)) as u32
    }
}

/// Where each child starts, given the sizes of the children along the row,
/// the margin between them and the length of the row that they fill.
pub(crate) fn child_starts(widths: &Vec<u32>, inter: u32, room: u32) -> (starts: Vec<u32>)
    requires
        widths@.len() > 0 ==> sum(ints(widths@)) + inter * (widths@.len() - 1) == room,
    ensures
        starts@.len() == widths@.len(),
        forall|i: int|
            0 <= i < starts@.len() ==> starts@[i] == #[trigger] start_of(
                ints(widths@),
                inter as int,
                i,
            ),
{
    let len: usize = widths.len();
    let ghost w = ints(widths@);
    let mut starts: Vec<u32> = Vec::new();
    let mut start: u32 = 0;
    for n in 0..len
        invariant
            widths@.len() == len,
            w == ints(widths@),
            len > 0 ==> sum(w) + inter * (len - 1) == room,
            starts@.len() == n,
            n < len ==> start == start_of(w, inter as int, n as int),
            forall|i: int| 0 <= i < n ==> starts@[i] == #[trigger] start_of(w, inter as int, i),
    {
        proof {
            lemma_start_of_next(w, inter as int, n as int);
            lemma_children_end_inside(w, inter as int, room as int, n as int);
            if n + 1 < len {
                lemma_children_end_inside(w, inter as int, room as int, n as int + 1);
            }
        }
        starts.push(start);
        if n + 1 < len {
            start = start + widths[n] + inter;
        }
    }
    starts
}

/// Gives each child of a row or column its rectangle, once the container has
/// its own.
///
/// Inside the outer margins the children follow each other along the row,
/// the inner margin between neighbours, each as long as `solve_seq` makes it
/// and as wide as the row.
pub struct RowSetter<D: Direction> {
    crect: Rect,
    inter: u32,
    direction: D,
    widths: Vec<u32>,
    offsets: Vec<u32>,
}

impl<D: Direction> RowSetter<D> {
    /// The number of children.
    pub closed spec fn len(&self) -> nat {
        self.widths@.len()
    }

    /// The rectangle of the container inside its outer margins.
    pub closed spec fn inner(&self) -> Rect {
        self.crect
    }

    /// The margin between neighbours.
    pub closed spec fn inter(&self) -> u32 {
        self.inter
    }

    /// Whether the row runs vertically.
    pub closed spec fn vertical(&self) -> bool {
        self.direction.runs_vertical()
    }

    /// The size of each child along the row.
    pub closed spec fn widths(&self) -> Seq<u32> {
        self.widths@
    }

    /// How far child `index` starts from the start of the inner rectangle.
    pub open spec fn offset(&self, index: int) -> int {
        start_of(ints(self.widths()), self.inter() as int, index)
    }

    /// The rectangle of child `index`.
    pub open spec fn rect_of(&self, index: int) -> Rect {
        let inner = self.inner();
        if self.vertical() {
            Rect {
                pos: Coord(inner.pos.0, (inner.pos.1 + self.offset(index)) as i32),
                size: Size(inner.size.0, self.widths()[index]),
            }
        } else {
            Rect {
                pos: Coord((inner.pos.0 + self.offset(index)) as i32, inner.pos.1),
                size: Size(self.widths()[index], inner.size.1),
            }
        }
    }

    /// The invariant of the type: the children and the margins between them
    /// fill the inner rectangle along the row, and the far edges of the inner
    /// rectangle can be written as positions.
    pub closed spec fn wf(&self) -> bool {
        &&& self.offsets@.len() == self.widths@.len()
        &&& forall|i: int|
            0 <= i < self.offsets@.len() ==> self.offsets@[i] == #[trigger] start_of(
                ints(self.widths@),
                self.inter as int,
                i,
            )
        &&& self.widths@.len() > 0 ==> sum(ints(self.widths@)) + self.inter * (self.widths@.len()
            - 1) == size_along(self.crect.size, self.direction.runs_vertical())
        &&& self.crect.pos.0 + self.crect.size.0 <= i32::MAX
        &&& self.crect.pos.1 + self.crect.size.1 <= i32::MAX
    }

    /// Shares `rect`, the rectangle of the container, out among the `len`
    /// children of a row in direction `dir`, by the rules that `storage`
    /// holds. The children share what the margins leave along the row.
    pub fn new<S: RowStorage>(rect: Rect, margins: Margins, dir: D, len: usize, storage: &S) -> (setter: Self)
        requires
            storage.rules().len() == len + 1,
            all_valid(storage.rules()),
            len > 0 ==> ends_in_total(storage.rules()),
            margins_fit(rect, margins),
            margins.extent(dir.runs_vertical(), len as int) <= size_along(
                rect.size,
                dir.runs_vertical(),
            ),
        ensures
            setter.wf(),
            setter.len() == len,
            setter.vertical() == dir.runs_vertical(),
            setter.inner() == inner_rect(rect, margins),
            setter.inter() == size_along(margins.inter, dir.runs_vertical()),
            ints(setter.widths()) == solved_sizes(
                storage.rules(),
                size_along(rect.size, dir.runs_vertical()) - margins.extent(
                    dir.runs_vertical(),
                    len as int,
                ),
            ),
            len > 0 ==> sum(ints(setter.widths())) == size_along(rect.size, dir.runs_vertical())
                - margins.extent(dir.runs_vertical(), len as int),
    {
        let vertical = dir.is_vertical();
        let crect = shrink_by_margins(rect, margins);
        let (room, inter) = if vertical {
            (crect.size.1, margins.inter.1)
        } else {
            (crect.size.0, margins.inter.0)
        };
        let between: u32 = gap_space(inter, len);
        let target: u32 = room - between;
        let mut widths = zeros(len);
        SizeRules::solve_seq(widths.as_mut_slice(), storage.as_ref(), target);
        let offsets = child_starts(&widths, inter, room);
        RowSetter { crect, inter, direction: dir, widths, offsets }
    }

    /// The rectangle of child `index`.
    pub fn child_rect(&self, index: usize) -> (rect: Rect)
        requires
            self.wf(),
            index < self.len(),
        ensures
            rect == self.rect_of(index as int),
    {
        proof {
            lemma_children_end_inside(
                ints(self.widths@),
                self.inter as int,
                size_along(self.crect.size, self.direction.runs_vertical()) as int,
                index as int,
            );
        }
        let offset: i64 = self.offsets[index] as i64;
        if self.direction.is_vertical() {
            Rect {
                pos: Coord(self.crect.pos.0, (self.crect.pos.1 as i64 + offset) as i32),
                size: Size(self.crect.size.0, self.widths[index]),
            }
        } else {
            Rect {
                pos: Coord((self.crect.pos.0 as i64 + offset) as i32, self.crect.pos.1),
                size: Size(self.widths[index], self.crect.size.1),
            }
        }
    }
}

/// Gives the only child of a container its rectangle: that of the container
/// inside the margins.
pub struct SingleSetter {
    crect: Rect,
}

impl SingleSetter {
    /// The rectangle of the child.
    pub closed spec fn rect(&self) -> Rect {
        self.crect
    }

    /// Places the child in `rect`, the rectangle of the container.
    pub fn new(rect: Rect, margins: Margins) -> (setter: Self)
        requires
            margins_fit(rect, margins),
        ensures
            setter.rect() == inner_rect(rect, margins),
    {
        SingleSetter { crect: shrink_by_margins(rect, margins) }
    }

    /// The rectangle of the child.
    pub fn child_rect(&self) -> (rect: Rect)
        ensures
            rect == self.rect(),
    {
        self.crect
    }
}

} // verus!
