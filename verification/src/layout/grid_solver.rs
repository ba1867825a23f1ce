//! Solving the layout of a grid.
//!
//! The children of a grid lie in columns and rows, and a child may span
//! several of each. Along one axis the lines are the columns or the rows.
//! Each line asks for what the largest child lying in it alone asks for. A
//! child that spans several lines then raises the first of them until the
//! lines it spans hold it. That takes the children as they come: the lines
//! hold every child in the end, but need not be the smallest that do.

use super::size_rules::{Margins, SizeRules};
use super::solve_seq::{all_valid, ends_in_total, mins, prefs, solved_sizes};
use super::storage::{cleared, resized, RowStorage};
use super::sums::{
    ints, lemma_part_le, lemma_sum_concat, lemma_sum_constant, lemma_sum_le, lemma_sum_nonneg, lemma_sum_prefix_le,
    lemma_sum_take_all, lemma_sum_take_next, sum,
};
use super::row_solver::{
    child_starts, gap_space, inner_rect, lemma_children_end_inside, margins_fit,
    shrink_by_margins, start_of, zeros,
};
use super::AxisInfo;
use crate::args::GridPos;
use crate::geom::{Coord, Rect, Size};
use vstd::std_specs::convert::FromSpecImpl;
use vstd::prelude::*;

verus! {

broadcast use SizeRules::lemma_of;

/// Where a child lies in a grid: its first column and row, and how many
/// columns and rows it spans.
#[derive(Clone, Copy, Debug, PartialEq, Eq, Structural)]
pub struct GridChildInfo {
    /// The first column.
    pub col: u32,
    /// The first row.
    pub row: u32,
    /// The number of columns spanned.
    pub col_span: u32,
    /// The number of rows spanned.
    pub row_span: u32,
}

impl GridChildInfo {
    /// The first line of the child along an axis: its row along the vertical
    /// axis, its column along the horizontal one.
    pub open spec fn first(self, vertical: bool) -> int {
        if vertical {
            self.row as int
        } else {
            self.col as int
        }
    }

    /// The number of lines that the child spans along an axis.
    pub open spec fn span(self, vertical: bool) -> int {
        if vertical {
            self.row_span as int
        } else {
            self.col_span as int
        }
    }

    /// Whether the child lies inside a grid of `cols` columns and `rows`
    /// rows, and spans at least one of each.
    pub open spec fn inside(self, cols: int, rows: int) -> bool {
        &&& self.col_span >= 1
        &&& self.row_span >= 1
        &&& self.col + self.col_span <= cols
        &&& self.row + self.row_span <= rows
    }
}

impl FromSpecImpl<GridPos> for GridChildInfo {
    open spec fn obeys_from_spec() -> bool {
        true
    }

    open spec fn from_spec(pos: GridPos) -> GridChildInfo {
        GridChildInfo { col: pos.0, row: pos.1, col_span: pos.2, row_span: pos.3 }
    }
}

impl From<GridPos> for GridChildInfo {
    /// The place that `pos` gives: its column, row, columns spanned and rows
    /// spanned.
    fn from(pos: GridPos) -> (info: GridChildInfo) {
        GridChildInfo { col: pos.0, row: pos.1, col_span: pos.2, row_span: pos.3 }
    }
}

/// The rules of a child that spans several lines along the axis measured.
#[derive(Clone, Copy, Debug)]
pub struct SpanRules {
    /// The first line spanned.
    pub first: usize,
    /// The number of lines spanned.
    pub len: usize,
    /// The rules of the child.
    pub rules: SizeRules,
}

/// The sum of the minimum sizes of the lines from `from` up to `to`.
pub open spec fn min_over(lines: Seq<SizeRules>, from: int, to: int) -> int {
    sum(mins(lines.subrange(from, to)))
}

/// The sum of the preferred sizes of the lines from `from` up to `to`.
pub open spec fn pref_over(lines: Seq<SizeRules>, from: int, to: int) -> int {
    sum(prefs(lines.subrange(from, to)))
}

/// Whether the `len` lines from `first` on hold a child with rules `rules`:
/// together they ask for at least what the child asks for.
pub open spec fn holds(lines: Seq<SizeRules>, first: int, len: int, rules: SizeRules) -> bool {
    &&& min_over(lines, first, first + len) >= rules.min()
    &&& pref_over(lines, first, first + len) >= rules.pref()
}

/// Whether a span lies inside `lines`.
pub open spec fn span_inside(span: SpanRules, lines: int) -> bool {
    span.len >= 1 && span.first + span.len <= lines
}

/// The lines after a spanning child has raised the first line it spans, by
/// what the child asks for beyond the other lines it spans.
pub open spec fn raise_line(lines: Seq<SizeRules>, span: SpanRules) -> Seq<SizeRules> {
    let first = span.first as int;
    let end = first + span.len;
    lines.update(
        first,
        lines[first].raised_by(
            span.rules,
            min_over(lines, first + 1, end),
            pref_over(lines, first + 1, end),
        ),
    )
}

/// The lines after each of the spanning children, in order, has raised the
/// first line it spans.
pub open spec fn apply_spans(lines: Seq<SizeRules>, spans: Seq<SpanRules>) -> Seq<SizeRules>
    decreases spans.len(),
{
    if spans.len() == 0 {
        lines
    } else {
        raise_line(apply_spans(lines, spans.drop_last()), spans.last())
    }
}

/// Whether each of `after` asks for at least what the line of `before` in
/// its place asks for.
pub open spec fn all_cover(after: Seq<SizeRules>, before: Seq<SizeRules>) -> bool {
    &&& after.len() == before.len()
    &&& forall|i: int| 0 <= i < before.len() ==> (#[trigger] after[i]).covers(before[i])
}

/// Lines that were raised ask for no less over any stretch of them.
pub proof fn lemma_cover_over(after: Seq<SizeRules>, before: Seq<SizeRules>, from: int, to: int)
    requires
        all_cover(after, before),
        0 <= from <= to <= before.len(),
    ensures
        min_over(after, from, to) >= min_over(before, from, to),
        pref_over(after, from, to) >= pref_over(before, from, to),
{
    let a = after.subrange(from, to);
    let b = before.subrange(from, to);
    assert forall|i: int| 0 <= i < b.len() implies mins(b)[i] <= mins(a)[i] && prefs(b)[i]
        <= prefs(a)[i] by {
        assert(after[from + i].covers(before[from + i]));
    }
    lemma_sum_le(mins(b), mins(a));
    lemma_sum_le(prefs(b), prefs(a));
}

/// Lines that hold a child hold it still after they were raised.
pub proof fn lemma_cover_holds(
    after: Seq<SizeRules>,
    before: Seq<SizeRules>,
    first: int,
    len: int,
    rules: SizeRules,
)
    requires
        all_cover(after, before),
        0 <= first,
        0 <= len,
        first + len <= before.len(),
        holds(before, first, len, rules),
    ensures
        holds(after, first, len, rules),
{
    lemma_cover_over(after, before, first, first + len);
}

/// A stretch of lines asks for what its first line asks for and what the
/// rest of it asks for.
pub proof fn lemma_over_split(lines: Seq<SizeRules>, from: int, to: int)
    requires
        0 <= from < to <= lines.len(),
    ensures
        min_over(lines, from, to) == lines[from].min() + min_over(lines, from + 1, to),
        pref_over(lines, from, to) == lines[from].pref() + pref_over(lines, from + 1, to),
    decreases to - from,
{
    let whole = lines.subrange(from, to);
    let rest = lines.subrange(from + 1, to);
    if to == from + 1 {
        assert(mins(whole).drop_last() =~= Seq::<int>::empty());
        assert(prefs(whole).drop_last() =~= Seq::<int>::empty());
        assert(mins(rest) =~= Seq::<int>::empty());
        assert(prefs(rest) =~= Seq::<int>::empty());
    } else {
        lemma_over_split(lines, from, to - 1);
        assert(mins(whole).drop_last() =~= mins(lines.subrange(from, to - 1)));
        assert(prefs(whole).drop_last() =~= prefs(lines.subrange(from, to - 1)));
        assert(mins(rest).drop_last() =~= mins(lines.subrange(from + 1, to - 1)));
        assert(prefs(rest).drop_last() =~= prefs(lines.subrange(from + 1, to - 1)));
    }
}

/// A spanning child raises no line but the first it spans, lowers none, and
/// leaves valid lines valid; afterwards the lines it spans hold it.
pub proof fn lemma_raise_line(lines: Seq<SizeRules>, span: SpanRules)
    requires
        span_inside(span, lines.len() as int),
        all_valid(lines),
        span.rules.valid(),
    ensures
        all_cover(raise_line(lines, span), lines),
        all_valid(raise_line(lines, span)),
        holds(raise_line(lines, span), span.first as int, span.len as int, span.rules),
        forall|i: int|
            0 <= i < lines.len() && i != span.first ==> raise_line(lines, span)[i] == lines[i],
{
    let first = span.first as int;
    let end = first + span.len;
    let after = raise_line(lines, span);
    let less_min = min_over(lines, first + 1, end);
    let less_pref = pref_over(lines, first + 1, end);
    assert(lines[first].valid());
    lemma_sum_nonneg(mins(lines.subrange(first + 1, end)));
    lemma_sum_nonneg(prefs(lines.subrange(first + 1, end)));
    let min = super::sums::larger(lines[first].min() as int, span.rules.min() - less_min);
    let pref = super::sums::larger(
        min,
        super::sums::larger(lines[first].pref() as int, span.rules.pref() - less_pref),
    );
    assert(0 <= min <= pref <= u32::MAX);
    assert(after[first].min() == min && after[first].pref() == pref);
    assert(all_cover(after, lines));
    assert forall|i: int| 0 <= i < after.len() implies (#[trigger] after[i]).valid() by {
        if i != first {
            assert(lines[i].valid());
        }
    }
    lemma_over_split(after, first, end);
    assert(after.subrange(first + 1, end) =~= lines.subrange(first + 1, end));
}

/// Whether every span lies inside `lines` and has valid rules.
pub open spec fn spans_inside(spans: Seq<SpanRules>, lines: int) -> bool {
    forall|j: int|
        0 <= j < spans.len() ==> span_inside(#[trigger] spans[j], lines) && spans[j].rules.valid()
}

/// Spanning children lower no line and leave valid lines valid, and in the
/// end the lines hold every one of them.
pub proof fn lemma_apply_spans(lines: Seq<SizeRules>, spans: Seq<SpanRules>)
    requires
        all_valid(lines),
        spans_inside(spans, lines.len() as int),
    ensures
        all_cover(apply_spans(lines, spans), lines),
        all_valid(apply_spans(lines, spans)),
        forall|j: int|
            0 <= j < spans.len() ==> holds(
                apply_spans(lines, spans),
                (#[trigger] spans[j]).first as int,
                spans[j].len as int,
                spans[j].rules,
            ),
    decreases spans.len(),
{
    if spans.len() > 0 {
        let earlier = spans.drop_last();
        let before = apply_spans(lines, earlier);
        let after = apply_spans(lines, spans);
        assert forall|j: int| 0 <= j < earlier.len() implies span_inside(
            #[trigger] earlier[j],
            lines.len() as int,
        ) && earlier[j].rules.valid() by {
            assert(earlier[j] == spans[j]);
        }
        lemma_apply_spans(lines, earlier);
        lemma_raise_line(before, spans.last());
        assert forall|i: int| 0 <= i < lines.len() implies (#[trigger] after[i]).covers(
            lines[i],
        ) by {
            assert(after[i].covers(before[i]));
            assert(before[i].covers(lines[i]));
        }
        assert forall|j: int| 0 <= j < spans.len() implies holds(
            after,
            (#[trigger] spans[j]).first as int,
            spans[j].len as int,
            spans[j].rules,
        ) by {
            if j < earlier.len() {
                assert(earlier[j] == spans[j]);
                lemma_cover_holds(
                    after,
                    before,
                    spans[j].first as int,
                    spans[j].len as int,
                    spans[j].rules,
                );
            }
        }
    }
}

/// One more than the largest size: sums are counted up to here, and a sum
/// that reaches it does not fit a size.
pub const CAP: u64 = 0x1_0000_0000;

/// A sum as far as it is counted.
pub open spec fn capped(total: int) -> int {
    if total <= CAP {
        total
    } else {
        CAP as int
    }
}

/// Adds up what the lines from `from` up to `to` ask for, counting each sum
/// no further than `CAP`.
fn sum_over(lines: &[SizeRules], from: usize, to: usize) -> (r: (u64, u64))
    requires
        from <= to <= lines@.len(),
    ensures
        r.0 == capped(min_over(lines@, from as int, to as int)),
        r.1 == capped(pref_over(lines@, from as int, to as int)),
{
    let mut min_sum: u64 = 0;
    let mut pref_sum: u64 = 0;
    let mut n: usize = from;
    assert(mins(lines@.subrange(from as int, from as int)) =~= Seq::<int>::empty());
    assert(prefs(lines@.subrange(from as int, from as int)) =~= Seq::<int>::empty());
    while n < to
        invariant
            from <= n <= to <= lines@.len(),
            min_sum == capped(min_over(lines@, from as int, n as int)),
            pref_sum == capped(pref_over(lines@, from as int, n as int)),
        decreases to - n,
    {
        let r = lines[n];
        proof {
            let longer = lines@.subrange(from as int, n as int + 1);
            let shorter = lines@.subrange(from as int, n as int);
            assert(mins(longer).drop_last() =~= mins(shorter));
            assert(prefs(longer).drop_last() =~= prefs(shorter));
            lemma_sum_nonneg(mins(shorter));
            lemma_sum_nonneg(prefs(shorter));
        }
        min_sum = min_sum + r.min_size() as u64;
        if min_sum > CAP {
            min_sum = CAP;
        }
        pref_sum = pref_sum + r.pref_size() as u64;
        if pref_sum > CAP {
            pref_sum = CAP;
        }
        n = n + 1;
    }
    (min_sum, pref_sum)
}

/// A sum that was counted up to `CAP`, as a size: the largest size stands
/// for every sum that is larger.
fn as_size(counted: u64) -> (size: u32)
    requires
        counted <= CAP,
    ensures
        size == if counted <= u32::MAX {
            counted
        } else {
            u32::MAX as u64
        },
{
    if counted > 0xFFFF_FFFF {
        0xFFFF_FFFF
    } else {
        counted as u32
    }
}

/// Lets each spanning child, in order, raise the first line it spans.
fn raised_lines(lines: &[SizeRules], count: usize, spans: &Vec<SpanRules>) -> (out: Vec<SizeRules>)
    requires
        count <= lines@.len(),
        all_valid(lines@.take(count as int)),
        spans_inside(spans@, count as int),
    ensures
        out@ == apply_spans(lines@.take(count as int), spans@),
        out@.len() == count,
{
    let ghost start = lines@.take(count as int);
    let mut out: Vec<SizeRules> = Vec::new();
    for n in 0..count
        invariant
            count <= lines@.len(),
            start == lines@.take(count as int),
            out@.len() == n,
            forall|i: int| 0 <= i < n ==> out@[i] == start[i],
    {
        out.push(lines[n]);
    }
    assert(out@ =~= start);
    assert(spans@.take(0) =~= Seq::<SpanRules>::empty());
    for j in 0..spans.len()
        invariant
            start.len() == count,
            all_valid(start),
            spans_inside(spans@, count as int),
            out@ == apply_spans(start, spans@.take(j as int)),
    {
        let span = spans[j];
        proof {
            let done = spans@.take(j as int);
            assert forall|i: int| 0 <= i < done.len() implies span_inside(
                #[trigger] done[i],
                count as int,
            ) && done[i].rules.valid() by {
                assert(done[i] == spans@[i]);
            }
            lemma_apply_spans(start, done);
            assert(spans@.take(j as int + 1).drop_last() =~= done);
        }
        let ghost before = out@;
        let (less_min, less_pref) = sum_over(out.as_slice(), span.first + 1, span.first + span.len);
        proof {
            let rest = before.subrange(span.first as int + 1, span.first + span.len);
            lemma_sum_nonneg(mins(rest));
            lemma_sum_nonneg(prefs(rest));
            assert forall|i: int| 0 <= i < rest.len() implies mins(rest)[i] <= prefs(rest)[i] by {
                assert(before[span.first as int + 1 + i].valid());
            }
            lemma_sum_le(mins(rest), prefs(rest));
        }
        let less = SizeRules::variable(as_size(less_min), as_size(less_pref));
        let mut line = out[span.first];
        line.set_at_least_op_sub(span.rules, less);
        proof {
            let exact = before[span.first as int].raised_by(
                span.rules,
                min_over(before, span.first as int + 1, span.first + span.len),
                pref_over(before, span.first as int + 1, span.first + span.len),
            );
            exact.lemma_determined(line);
        }
        out[span.first] = line;
    }
    proof {
        assert(spans@.take(spans@.len() as int) =~= spans@);
        lemma_apply_spans(start, spans@);
    }
    out
}

/// Of what belongs to the columns and what belongs to the rows, that which
/// lies along an axis: the rows' along the vertical axis, the columns' along
/// the horizontal one.
pub open spec fn along<T>(vertical: bool, of_columns: T, of_rows: T) -> T {
    if vertical {
        of_rows
    } else {
        of_columns
    }
}

/// Empties the first `count` rules of the storage.
fn clear_lines<S: RowStorage>(storage: &mut S, count: usize)
    requires
        count <= old(storage).rules().len(),
    ensures
        final(storage).rules() == cleared(old(storage).rules(), count as int),
        forall|l: int| final(storage).fits(l) == old(storage).fits(l),
{
    let ghost before = storage.rules();
    for n in 0..count
        invariant
            count <= before.len(),
            storage.rules().len() == before.len(),
            forall|i: int| 0 <= i < n ==> storage.rules()[i] == SizeRules::empty_spec(),
            forall|i: int| n <= i < before.len() ==> storage.rules()[i] == before[i],
            forall|l: int| storage.fits(l) == old(storage).fits(l),
    {
        storage.set(n, SizeRules::empty());
    }
    assert(storage.rules() =~= cleared(before, count as int));
}

/// Makes the storage hold `lines` and, behind them, `total`.
fn write_lines<S: RowStorage>(storage: &mut S, lines: &Vec<SizeRules>, total: SizeRules)
    requires
        old(storage).rules().len() == lines@.len() + 1,
    ensures
        final(storage).rules() == lines@.push(total),
        forall|l: int| final(storage).fits(l) == old(storage).fits(l),
{
    let count: usize = lines.len();
    for n in 0..count
        invariant
            count == lines@.len(),
            storage.rules().len() == count + 1,
            forall|i: int| 0 <= i < n ==> storage.rules()[i] == lines@[i],
            forall|l: int| storage.fits(l) == old(storage).fits(l),
    {
        storage.set(n, lines[n]);
    }
    storage.set(count, total);
    assert(storage.rules() =~= lines@.push(total));
}

/// Collects the rules of the children of a grid along one axis.
///
/// The children are handed in by `for_child`, in any order; `finish` gives
/// the rules of the grid. A child that lies in one line raises that line at
/// once. A child that spans several is kept until `finish`, where the
/// spanning children, in the order in which they came, each raise the first
/// line they span.
pub struct GridSolver {
    axis: AxisInfo,
    cols: usize,
    rows: usize,
    sizes: Vec<u32>,
    spans: Vec<SpanRules>,
    seen: Ghost<Seq<(GridChildInfo, SizeRules)>>,
}

impl GridSolver {
    /// The axis being measured.
    pub closed spec fn axis(&self) -> AxisInfo {
        self.axis
    }

    /// The number of columns.
    pub closed spec fn cols(&self) -> nat {
        self.cols as nat
    }

    /// The number of rows.
    pub closed spec fn rows(&self) -> nat {
        self.rows as nat
    }

    /// The number of lines along the axis being measured.
    pub open spec fn lines(&self) -> nat {
        along(self.axis().is_vertical(), self.cols(), self.rows())
    }

    /// The sizes of the lines of the other axis, where that axis is fixed:
    /// the widths of the columns for a solver that measures heights. Zeros
    /// where it is not fixed.
    pub closed spec fn sizes(&self) -> Seq<u32> {
        self.sizes@
    }

    /// The spanning children kept so far, in the order in which they came.
    pub closed spec fn spans(&self) -> Seq<SpanRules> {
        self.spans@
    }

    /// The children handed in so far, each with its rules.
    pub closed spec fn seen(&self) -> Seq<(GridChildInfo, SizeRules)> {
        self.seen@
    }

    /// What the solver knows of the other axis: a size for each of its
    /// lines, which add up to no more than the largest size.
    pub open spec fn sizes_wf(&self) -> bool {
        &&& self.sizes().len() == along(!self.axis().is_vertical(), self.cols(), self.rows())
        &&& sum(ints(self.sizes())) <= u32::MAX
    }

    /// The invariant that ties the solver to the storage it works on: the
    /// lines are valid, every child seen lies inside the grid, a child in
    /// one line is held by that line, and a child that spans several lines
    /// is kept.
    pub open spec fn wf<W: RowStorage, H: RowStorage>(&self, widths: &W, heights: &H) -> bool {
        let vertical = self.axis().is_vertical();
        let rules = along(vertical, widths.rules(), heights.rules());
        let lines = rules.take(self.lines() as int);
        &&& widths.rules().len() == self.cols() + 1
        &&& heights.rules().len() == self.rows() + 1
        &&& self.sizes_wf()
        &&& all_valid(lines)
        &&& spans_inside(self.spans(), self.lines() as int)
        &&& children_kept(self.seen(), lines, self.spans(), vertical)
        &&& forall|i: int|
            0 <= i < self.seen().len() ==> {
                &&& (#[trigger] self.seen()[i]).0.inside(self.cols() as int, self.rows() as int)
                &&& self.seen()[i].1.valid()
            }
    }

    /// Starts a pass along `axis` over a grid of `cols` columns and `rows`
    /// rows. The storage is made to hold a rule for each column and each
    /// row, and a total for each; the rules of the lines along `axis` are
    /// emptied.
    ///
    /// Where the size of the other axis is fixed, it is shared out among the
    /// lines of that axis by the rules that the storage holds for them from
    /// an earlier pass.
    pub fn new<W: RowStorage, H: RowStorage>(
        axis: AxisInfo,
        cols: usize,
        rows: usize,
        widths: &mut W,
        heights: &mut H,
    ) -> (solver: Self)
        requires
            cols < usize::MAX,
            rows < usize::MAX,
            old(widths).fits(cols + 1),
            old(heights).fits(rows + 1),
            axis.other_size() is Some ==> {
                let other = along(
                    !axis.is_vertical(),
                    resized(old(widths).rules(), cols + 1),
                    resized(old(heights).rules(), rows + 1),
                );
                all_valid(other) && (other.len() > 1 ==> ends_in_total(other))
            },
        ensures
            solver.wf(final(widths), final(heights)),
            solver.axis() == axis,
            solver.cols() == cols,
            solver.rows() == rows,
            solver.seen() == Seq::<(GridChildInfo, SizeRules)>::empty(),
            solver.spans() == Seq::<SpanRules>::empty(),
            final(widths).rules() == if axis.is_vertical() {
                resized(old(widths).rules(), cols + 1)
            } else {
                cleared(resized(old(widths).rules(), cols + 1), cols as int)
            },
            final(heights).rules() == if axis.is_vertical() {
                cleared(resized(old(heights).rules(), rows + 1), rows as int)
            } else {
                resized(old(heights).rules(), rows + 1)
            },
            forall|l: int| final(widths).fits(l) == old(widths).fits(l),
            forall|l: int| final(heights).fits(l) == old(heights).fits(l),
            axis.other_size() is Some ==> ints(solver.sizes()) == solved_sizes(
                along(!axis.is_vertical(), final(widths).rules(), final(heights).rules()),
                axis.other_size().unwrap() as int,
            ),
            axis.other_size() is None ==> forall|i: int|
                0 <= i < solver.sizes().len() ==> solver.sizes()[i] == 0,
    {
        widths.set_len(cols + 1);
        heights.set_len(rows + 1);
        let vertical = axis.vertical();
        let mut sizes = if vertical {
            zeros(cols)
        } else {
            zeros(rows)
        };
        proof {
            lemma_sum_constant(ints(sizes@), 0);
        }
        match axis.fixed(vertical) {
            Some(size) => {
                if vertical {
                    SizeRules::solve_seq(sizes.as_mut_slice(), widths.as_ref(), size);
                } else {
                    SizeRules::solve_seq(sizes.as_mut_slice(), heights.as_ref(), size);
                }
                proof {
                    if sizes@.len() == 0 {
                        assert(ints(sizes@) =~= Seq::<int>::empty());
                    }
                }
            },
            None => {},
        }
        if vertical {
            clear_lines(heights, rows);
        } else {
            clear_lines(widths, cols);
        }
        GridSolver { axis, cols, rows, sizes, spans: Vec::new(), seen: Ghost(Seq::empty()) }
    }

    /// The axis to ask the child at `info` for its rules with: the axis
    /// being measured, and as the fixed size of the other axis, where the
    /// solver knows one, what the lines that the child spans there come to.
    pub fn child_axis(&self, info: GridChildInfo) -> (axis: AxisInfo)
        requires
            self.sizes_wf(),
            info.inside(self.cols() as int, self.rows() as int),
        ensures
            axis.is_vertical() == self.axis().is_vertical(),
            axis.other_size() == if self.axis().other_size() is Some {
                Some(
                    sum(
                        ints(self.sizes()).subrange(
                            info.first(!self.axis().is_vertical()),
                            info.first(!self.axis().is_vertical()) + info.span(
                                !self.axis().is_vertical(),
                            ),
                        ),
                    ) as u32,
                )
            } else {
                None
            },
            self.axis().other_size() is Some ==> sum(
                ints(self.sizes()).subrange(
                    info.first(!self.axis().is_vertical()),
                    info.first(!self.axis().is_vertical()) + info.span(!self.axis().is_vertical()),
                ),
            ) <= u32::MAX,
    {
        let vertical = self.axis.vertical();
        let (first, span) = if vertical {
            (info.col as usize, info.col_span as usize)
        } else {
            (info.row as usize, info.row_span as usize)
        };
        let ghost all = ints(self.sizes@);
        let ghost part = all.subrange(first as int, first + span);
        proof {
            assert(all.take(first + span).skip(first as int) =~= part);
        }
        match self.axis.fixed(vertical) {
            Some(_) => {
                let mut size: u32 = 0;
                for n in 0..span
                    invariant
                        first + span <= self.sizes@.len() <= usize::MAX,
                        all == ints(self.sizes@),
                        part == all.subrange(first as int, first + span),
                        sum(all) <= u32::MAX,
                        size == sum(part.take(n as int)),
                {
                    proof {
                        lemma_sum_take_next(part, n as int);
                        lemma_sum_prefix_le(part, n as int + 1);
                        lemma_part_le(all, first as int, first + span);
                    }
                    size = size + self.sizes[first + n];
                }
                proof {
                    lemma_sum_take_all(part);
                }
                AxisInfo::new(vertical, Some(size))
            },
            None => AxisInfo::new(vertical, None),
        }
    }

    /// Takes in the rules of the child at `info`.
    pub fn for_child<W: RowStorage, H: RowStorage>(
        &mut self,
        widths: &mut W,
        heights: &mut H,
        info: GridChildInfo,
        child_rules: SizeRules,
    )
        requires
            old(self).wf(old(widths), old(heights)),
            info.inside(old(self).cols() as int, old(self).rows() as int),
            child_rules.valid(),
        ensures
            final(self).wf(final(widths), final(heights)),
            final(self).seen() == old(self).seen().push((info, child_rules)),
            final(self).axis() == old(self).axis(),
            final(self).cols() == old(self).cols(),
            final(self).rows() == old(self).rows(),
            final(self).sizes() == old(self).sizes(),
            ({
                let vertical = old(self).axis().is_vertical();
                let first = info.first(vertical);
                let before = along(vertical, old(widths).rules(), old(heights).rules());
                let after = along(vertical, final(widths).rules(), final(heights).rules());
                if info.span(vertical) == 1 {
                    &&& after == before.update(first, before[first].max_spec(child_rules))
                    &&& final(self).spans() == old(self).spans()
                } else {
                    &&& after == before
                    &&& final(self).spans() == old(self).spans().push(
                        SpanRules {
                            first: first as usize,
                            len: info.span(vertical) as usize,
                            rules: child_rules,
                        },
                    )
                }
            }),
            along(!old(self).axis().is_vertical(), final(widths).rules(), final(heights).rules())
                == along(
                !old(self).axis().is_vertical(),
                old(widths).rules(),
                old(heights).rules(),
            ),
            forall|l: int| final(widths).fits(l) == old(widths).fits(l),
            forall|l: int| final(heights).fits(l) == old(heights).fits(l),
    {
        let vertical = self.axis.vertical();
        let (first, span) = if vertical {
            (info.row as usize, info.row_span as usize)
        } else {
            (info.col as usize, info.col_span as usize)
        };
        let ghost count = self.lines() as int;
        let ghost before = along(vertical, widths.rules(), heights.rules()).take(count);
        let ghost old_spans = self.spans@;
        let ghost old_seen = self.seen@;
        proof {
            assert(old_seen == old(self).seen());
            assert(old_spans == old(self).spans());
            assert(count == along(vertical, self.cols as int, self.rows as int));
            assert(before[first as int].valid());
        }
        if span == 1 {
            if vertical {
                let line = heights.as_ref()[first];
                heights.set(first, line.max(child_rules));
            } else {
                let line = widths.as_ref()[first];
                widths.set(first, line.max(child_rules));
            }
        } else {
            self.spans.push(SpanRules { first, len: span, rules: child_rules });
        }
        self.seen = Ghost(old_seen.push((info, child_rules)));
        proof {
            let after = along(vertical, widths.rules(), heights.rules()).take(count);
            if span == 1 {
                assert(after =~= before.update(
                    first as int,
                    before[first as int].max_spec(child_rules),
                ));
            } else {
                assert(after =~= before);
            }
            lemma_child_kept(
                old_seen,
                before,
                old_spans,
                vertical,
                info,
                child_rules,
                after,
                self.spans@,
            );
            assert forall|i: int| 0 <= i < self.seen@.len() implies (#[trigger] self.seen@[i]).0.inside(
                self.cols as int,
                self.rows as int,
            ) && self.seen@[i].1.valid() by {
                if i < old_seen.len() {
                    assert(self.seen@[i] == old(self).seen()[i]);
                }
            }
        }
    }
}

/// What `for_child` does keeps the children kept: a child in one line has
/// raised its line to hold it, a child that spans several has joined the
/// spans, and no line was lowered.
proof fn lemma_child_kept(
    seen: Seq<(GridChildInfo, SizeRules)>,
    lines: Seq<SizeRules>,
    spans: Seq<SpanRules>,
    vertical: bool,
    info: GridChildInfo,
    child: SizeRules,
    new_lines: Seq<SizeRules>,
    new_spans: Seq<SpanRules>,
)
    requires
        all_valid(lines),
        spans_inside(spans, lines.len() as int),
        children_kept(seen, lines, spans, vertical),
        info.span(vertical) >= 1,
        info.first(vertical) + info.span(vertical) <= lines.len(),
        child.valid(),
        if info.span(vertical) == 1 {
            &&& new_lines == lines.update(
                info.first(vertical),
                lines[info.first(vertical)].max_spec(child),
            )
            &&& new_spans == spans
        } else {
            &&& new_lines == lines
            &&& new_spans == spans.push(
                SpanRules {
                    first: info.first(vertical) as usize,
                    len: info.span(vertical) as usize,
                    rules: child,
                },
            )
        },
    ensures
        all_valid(new_lines),
        spans_inside(new_spans, lines.len() as int),
        children_kept(seen.push((info, child)), new_lines, new_spans, vertical),
{
    let first = info.first(vertical);
    let all = seen.push((info, child));
    assert(lines[first].valid());
    assert forall|i: int| 0 <= i < lines.len() implies (#[trigger] new_lines[i]).covers(lines[i])
        && new_lines[i].valid() by {
        assert(lines[i].valid());
    }
    assert forall|j: int| 0 <= j < new_spans.len() implies span_inside(
        #[trigger] new_spans[j],
        lines.len() as int,
    ) && new_spans[j].rules.valid() by {
        if j < spans.len() {
            assert(new_spans[j] == spans[j]);
        }
    }
    assert forall|i: int| 0 <= i < all.len() implies {
        let (at, rules) = #[trigger] all[i];
        &&& at.span(vertical) >= 1
        &&& 0 <= at.first(vertical)
        &&& at.first(vertical) + at.span(vertical) <= new_lines.len()
        &&& at.span(vertical) == 1 ==> new_lines[at.first(vertical)].covers(rules)
        &&& at.span(vertical) > 1 ==> exists|j: int|
            0 <= j < new_spans.len() && (#[trigger] new_spans[j]) == (SpanRules {
                first: at.first(vertical) as usize,
                len: at.span(vertical) as usize,
                rules,
            })
    } by {
        let (at, rules) = all[i];
        if i < seen.len() {
            assert(all[i] == seen[i]);
            if at.span(vertical) == 1 {
                assert(new_lines[at.first(vertical)].covers(lines[at.first(vertical)]));
            } else {
                let j = choose|j: int|
                    0 <= j < spans.len() && (#[trigger] spans[j]) == (SpanRules {
                        first: at.first(vertical) as usize,
                        len: at.span(vertical) as usize,
                        rules,
                    });
                assert(new_spans[j] == spans[j]);
            }
        } else if at.span(vertical) > 1 {
            assert(new_spans[spans.len() as int] == (SpanRules {
                first: at.first(vertical) as usize,
                len: at.span(vertical) as usize,
                rules,
            }));
        }
    }
}

impl GridSolver {
    /// The rules of the lines as `finish` leaves them: those that the storage
    /// holds, raised by the spanning children.
    pub open spec fn final_lines<W: RowStorage, H: RowStorage>(
        &self,
        widths: &W,
        heights: &H,
    ) -> Seq<SizeRules> {
        apply_spans(
            along(self.axis().is_vertical(), widths.rules(), heights.rules()).take(
                self.lines() as int,
            ),
            self.spans(),
        )
    }

    /// Whether what the lines ask for in the end adds up to a size.
    pub open spec fn total_fits_spec<W: RowStorage, H: RowStorage>(
        &self,
        widths: &W,
        heights: &H,
    ) -> bool {
        pref_over(self.final_lines(widths, heights), 0, self.lines() as int) <= u32::MAX
    }

    /// Whether the pass can be finished: what the lines ask for in the end
    /// adds up to a size.
    pub fn total_fits<W: RowStorage, H: RowStorage>(&self, widths: &W, heights: &H) -> (fits: bool)
        requires
            self.wf(widths, heights),
        ensures
            fits == self.total_fits_spec(widths, heights),
    {
        let vertical = self.axis.vertical();
        let (_, pref_sum) = if vertical {
            let lines = raised_lines(heights.as_ref(), self.rows, &self.spans);
            sum_over(lines.as_slice(), 0, self.rows)
        } else {
            let lines = raised_lines(widths.as_ref(), self.cols, &self.spans);
            sum_over(lines.as_slice(), 0, self.cols)
        };
        pref_sum <= 0xFFFF_FFFF
    }

    /// Ends the pass, all children handed in: lets the spanning children
    /// raise the lines, makes the storage hold the lines and their total,
    /// and gives the total, which is what the grid asks for.
    ///
    /// In the end the lines hold every child: the lines that a child spans
    /// ask together for at least what the child asks for.
    pub fn finish<W: RowStorage, H: RowStorage>(self, widths: &mut W, heights: &mut H) -> (rules:
        SizeRules)
        requires
            self.wf(old(widths), old(heights)),
            self.total_fits_spec(old(widths), old(heights)),
        ensures
            along(self.axis().is_vertical(), final(widths).rules(), final(heights).rules())
                == self.final_lines(old(widths), old(heights)).push(rules),
            along(!self.axis().is_vertical(), final(widths).rules(), final(heights).rules())
                == along(!self.axis().is_vertical(), old(widths).rules(), old(heights).rules()),
            rules.min() == min_over(
                self.final_lines(old(widths), old(heights)),
                0,
                self.lines() as int,
            ),
            rules.pref() == pref_over(
                self.final_lines(old(widths), old(heights)),
                0,
                self.lines() as int,
            ),
            rules.valid(),
            all_valid(
                along(self.axis().is_vertical(), final(widths).rules(), final(heights).rules()),
            ),
            ends_in_total(
                along(self.axis().is_vertical(), final(widths).rules(), final(heights).rules()),
            ),
            forall|i: int|
                0 <= i < self.seen().len() ==> holds(
                    self.final_lines(old(widths), old(heights)),
                    (#[trigger] self.seen()[i]).0.first(self.axis().is_vertical()),
                    self.seen()[i].0.span(self.axis().is_vertical()),
                    self.seen()[i].1,
                ),
            forall|l: int| final(widths).fits(l) == old(widths).fits(l),
            forall|l: int| final(heights).fits(l) == old(heights).fits(l),
    {
        let vertical = self.axis.vertical();
        let ghost count = self.lines() as int;
        let ghost start = along(vertical, widths.rules(), heights.rules()).take(count);
        let ghost lines = apply_spans(start, self.spans@);
        proof {
            assert(count == along(vertical, self.cols as int, self.rows as int));
            lemma_apply_spans(start, self.spans@);
            lemma_sum_le(mins(lines.subrange(0, count)), prefs(lines.subrange(0, count)));
            lemma_sum_nonneg(mins(lines.subrange(0, count)));
            lemma_held_in_the_end(self.seen@, start, self.spans@, vertical);
        }
        let rules = if vertical {
            let out = raised_lines(heights.as_ref(), self.rows, &self.spans);
            let (min_sum, pref_sum) = sum_over(out.as_slice(), 0, self.rows);
            let rules = SizeRules::variable(min_sum as u32, pref_sum as u32);
            write_lines(heights, &out, rules);
            rules
        } else {
            let out = raised_lines(widths.as_ref(), self.cols, &self.spans);
            let (min_sum, pref_sum) = sum_over(out.as_slice(), 0, self.cols);
            let rules = SizeRules::variable(min_sum as u32, pref_sum as u32);
            write_lines(widths, &out, rules);
            rules
        };
        proof {
            let stored = lines.push(rules);
            assert(stored.drop_last() =~= lines);
            assert(lines.subrange(0, count) =~= lines);
            assert forall|i: int| 0 <= i < stored.len() implies (#[trigger] stored[i]).valid() by {
                if i < count {
                    assert(lines[i].valid());
                }
            }
        }
        rules
    }
}

/// Whether the lines held each child of `seen` that lies in one line, and
/// `spans` keeps each that spans several.
pub open spec fn children_kept(
    seen: Seq<(GridChildInfo, SizeRules)>,
    lines: Seq<SizeRules>,
    spans: Seq<SpanRules>,
    vertical: bool,
) -> bool {
    forall|i: int|
        0 <= i < seen.len() ==> {
            let (info, child) = #[trigger] seen[i];
            &&& info.span(vertical) >= 1
            &&& 0 <= info.first(vertical)
            &&& info.first(vertical) + info.span(vertical) <= lines.len()
            &&& info.span(vertical) == 1 ==> lines[info.first(vertical)].covers(child)
            &&& info.span(vertical) > 1 ==> exists|j: int|
                0 <= j < spans.len() && (#[trigger] spans[j]) == (SpanRules {
                    first: info.first(vertical) as usize,
                    len: info.span(vertical) as usize,
                    rules: child,
                })
        }
}

/// Once the spanning children have raised the lines, the lines hold every
/// child: those that lie in one line as before, and those that span
/// several.
pub proof fn lemma_held_in_the_end(
    seen: Seq<(GridChildInfo, SizeRules)>,
    lines: Seq<SizeRules>,
    spans: Seq<SpanRules>,
    vertical: bool,
)
    requires
        all_valid(lines),
        spans_inside(spans, lines.len() as int),
        children_kept(seen, lines, spans, vertical),
    ensures
        forall|i: int|
            0 <= i < seen.len() ==> holds(
                apply_spans(lines, spans),
                (#[trigger] seen[i]).0.first(vertical),
                seen[i].0.span(vertical),
                seen[i].1,
            ),
{
    let raised = apply_spans(lines, spans);
    lemma_apply_spans(lines, spans);
    assert forall|i: int| 0 <= i < seen.len() implies holds(
        raised,
        (#[trigger] seen[i]).0.first(vertical),
        seen[i].0.span(vertical),
        seen[i].1,
    ) by {
        let (info, child) = seen[i];
        let first = info.first(vertical);
        if info.span(vertical) == 1 {
            assert(raised[first].covers(lines[first]));
            lemma_over_split(raised, first, first + 1);
            assert(mins(raised.subrange(first + 1, first + 1)) =~= Seq::<int>::empty());
            assert(prefs(raised.subrange(first + 1, first + 1)) =~= Seq::<int>::empty());
        } else {
            let j = choose|j: int|
                0 <= j < spans.len() && (#[trigger] spans[j]) == (SpanRules {
                    first: info.first(vertical) as usize,
                    len: info.span(vertical) as usize,
                    rules: child,
                });
            assert(holds(raised, spans[j].first as int, spans[j].len as int, spans[j].rules));
        }
    }
}

/// How long a child is that spans the `span` lines from `first` on: as long
/// as these lines together, whose sizes are among `sizes`, and the margins
/// `inter` between them.
pub open spec fn span_extent(sizes: Seq<int>, inter: int, first: int, span: int) -> int {
    sum(sizes.subrange(first, first + span)) + (span - 1) * inter
}

/// A child that spans lines reaches from the start of the first of them to
/// the end of the last.
pub proof fn lemma_span_extent(sizes: Seq<int>, inter: int, first: int, span: int)
    requires
        0 <= first,
        1 <= span,
        first + span <= sizes.len(),
    ensures
        start_of(sizes, inter, first) + span_extent(sizes, inter, first, span) == start_of(
            sizes,
            inter,
            first + span - 1,
        ) + sizes[first + span - 1],
{
    let last = first + span - 1;
    let head = sizes.take(first);
    let part = sizes.subrange(first, first + span);
    assert(sizes.take(first + span) =~= head + part);
    lemma_sum_concat(head, part);
    lemma_sum_take_next(sizes, last);
    assert(last * inter == first * inter + (span - 1) * inter) by (nonlinear_arith)
        requires
            last == first + span - 1,
    ;
}

/// Gives each child of a grid its rectangle, once the grid has its own.
///
/// Inside the outer margins the columns follow each other from left to
/// right and the rows from top to bottom, the inner margins between them,
/// each as large as `solve_seq` makes it. A child reaches over the columns
/// and rows that it spans, and over the margins between them.
pub struct GridSetter {
    crect: Rect,
    inter: Size,
    widths: Vec<u32>,
    heights: Vec<u32>,
    col_starts: Vec<u32>,
    row_starts: Vec<u32>,
}

impl GridSetter {
    /// The rectangle of the grid inside its outer margins.
    pub closed spec fn inner(&self) -> Rect {
        self.crect
    }

    /// The margins between columns and between rows.
    pub closed spec fn inter(&self) -> Size {
        self.inter
    }

    /// The width of each column.
    pub closed spec fn widths(&self) -> Seq<u32> {
        self.widths@
    }

    /// The height of each row.
    pub closed spec fn heights(&self) -> Seq<u32> {
        self.heights@
    }

    /// The rectangle of the child at `info`.
    pub open spec fn rect_of(&self, info: GridChildInfo) -> Rect {
        let inner = self.inner();
        let w = ints(self.widths());
        let h = ints(self.heights());
        Rect {
            pos: Coord(
                (inner.pos.0 + start_of(w, self.inter().0 as int, info.col as int)) as i32,
                (inner.pos.1 + start_of(h, self.inter().1 as int, info.row as int)) as i32,
            ),
            size: Size(
                span_extent(w, self.inter().0 as int, info.col as int, info.col_span as int) as u32,
                span_extent(h, self.inter().1 as int, info.row as int, info.row_span as int) as u32,
            ),
        }
    }

    /// The invariant of the type: the columns and the margins between them
    /// fill the width of the inner rectangle, the rows and the margins
    /// between them its height, and the far edges of the inner rectangle can
    /// be written as positions.
    pub closed spec fn wf(&self) -> bool {
        &&& self.col_starts@.len() == self.widths@.len()
        &&& self.row_starts@.len() == self.heights@.len()
        &&& forall|i: int|
            0 <= i < self.col_starts@.len() ==> self.col_starts@[i] == #[trigger] start_of(
                ints(self.widths@),
                self.inter.0 as int,
                i,
            )
        &&& forall|i: int|
            0 <= i < self.row_starts@.len() ==> self.row_starts@[i] == #[trigger] start_of(
                ints(self.heights@),
                self.inter.1 as int,
                i,
            )
        &&& self.widths@.len() > 0 ==> sum(ints(self.widths@)) + self.inter.0 * (
        self.widths@.len() - 1) == self.crect.size.0
        &&& self.heights@.len() > 0 ==> sum(ints(self.heights@)) + self.inter.1 * (
        self.heights@.len() - 1) == self.crect.size.1
        &&& self.crect.pos.0 + self.crect.size.0 <= i32::MAX
        &&& self.crect.pos.1 + self.crect.size.1 <= i32::MAX
    }

    /// Shares `rect`, the rectangle of the grid, out among `cols` columns
    /// and `rows` rows, by the rules that `widths` holds for the columns and
    /// `heights` for the rows. The columns share what the margins leave of
    /// the width, the rows what they leave of the height.
    pub fn new<W: RowStorage, H: RowStorage>(
        rect: Rect,
        margins: Margins,
        cols: usize,
        rows: usize,
        widths: &W,
        heights: &H,
    ) -> (setter: Self)
        requires
            widths.rules().len() == cols + 1,
            heights.rules().len() == rows + 1,
            all_valid(widths.rules()),
            all_valid(heights.rules()),
            cols > 0 ==> ends_in_total(widths.rules()),
            rows > 0 ==> ends_in_total(heights.rules()),
            margins_fit(rect, margins),
            margins.extent(false, cols as int) <= rect.size.0,
            margins.extent(true, rows as int) <= rect.size.1,
        ensures
            setter.wf(),
            setter.inner() == inner_rect(rect, margins),
            setter.inter() == margins.inter,
            setter.widths().len() == cols,
            setter.heights().len() == rows,
            ints(setter.widths()) == solved_sizes(
                widths.rules(),
                rect.size.0 - margins.extent(false, cols as int),
            ),
            ints(setter.heights()) == solved_sizes(
                heights.rules(),
                rect.size.1 - margins.extent(true, rows as int),
            ),
    {
        let crect = shrink_by_margins(rect, margins);
        let across: u32 = gap_space(margins.inter.0, cols);
        let down: u32 = gap_space(margins.inter.1, rows);
        let mut col_sizes = zeros(cols);
        SizeRules::solve_seq(col_sizes.as_mut_slice(), widths.as_ref(), crect.size.0 - across);
        let mut row_sizes = zeros(rows);
        SizeRules::solve_seq(row_sizes.as_mut_slice(), heights.as_ref(), crect.size.1 - down);
        let col_starts = child_starts(&col_sizes, margins.inter.0, crect.size.0);
        let row_starts = child_starts(&row_sizes, margins.inter.1, crect.size.1);
        GridSetter {
            crect,
            inter: margins.inter,
            widths: col_sizes,
            heights: row_sizes,
            col_starts,
            row_starts,
        }
    }

    /// The rectangle of the child at `info`.
    pub fn child_rect(&self, info: GridChildInfo) -> (rect: Rect)
        requires
            self.wf(),
            info.inside(self.widths().len() as int, self.heights().len() as int),
        ensures
            rect == self.rect_of(info),
    {
        let col: usize = info.col as usize;
        let row: usize = info.row as usize;
        assert(self.widths.len() <= usize::MAX && self.heights.len() <= usize::MAX);
        let last_col: usize = col + (info.col_span as usize - 1);
        let last_row: usize = row + (info.row_span as usize - 1);
        proof {
            let w = ints(self.widths@);
            let h = ints(self.heights@);
            lemma_span_extent(w, self.inter.0 as int, col as int, info.col_span as int);
            lemma_span_extent(h, self.inter.1 as int, row as int, info.row_span as int);
            lemma_children_end_inside(w, self.inter.0 as int, self.crect.size.0 as int, col as int);
            lemma_children_end_inside(
                w,
                self.inter.0 as int,
                self.crect.size.0 as int,
                last_col as int,
            );
            lemma_children_end_inside(h, self.inter.1 as int, self.crect.size.1 as int, row as int);
            lemma_children_end_inside(
                h,
                self.inter.1 as int,
                self.crect.size.1 as int,
                last_row as int,
            );
            lemma_part_le(w, col as int, col + info.col_span);
            lemma_part_le(h, row as int, row + info.row_span);
            assert((info.col_span - 1) * self.inter.0 >= 0) by (nonlinear_arith)
                requires
                    info.col_span >= 1,
                    self.inter.0 >= 0,
            ;
            assert((info.row_span - 1) * self.inter.1 >= 0) by (nonlinear_arith)
                requires
                    info.row_span >= 1,
                    self.inter.1 >= 0,
            ;
        }
        let x: i64 = self.crect.pos.0 as i64 + self.col_starts[col] as i64;
        let y: i64 = self.crect.pos.1 as i64 + self.row_starts[row] as i64;
        let width: u32 = self.col_starts[last_col] + self.widths[last_col] - self.col_starts[col];
        let height: u32 = self.row_starts[last_row] + self.heights[last_row]
            - self.row_starts[row];
        Rect { pos: Coord(x as i32, y as i32), size: Size(width, height) }
    }
}

} // verus!
