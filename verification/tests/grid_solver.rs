use kas::args::GridPos;
use kas::geom::{Coord, Rect, Size};
use kas::layout::grid_solver::{GridChildInfo, GridSetter, GridSolver};
use kas::layout::size_rules::{Margins, SizeRules};
use kas::layout::solve_seq::is_valid_with_total;
use kas::layout::storage::{DynGridStorage, FixedGridStorage, RowStorage};
use kas::layout::AxisInfo;

fn at(col: u32, row: u32, col_span: u32, row_span: u32) -> GridChildInfo {
    GridChildInfo { col, row, col_span, row_span }
}

fn query(
    storage: &mut DynGridStorage,
    axis: AxisInfo,
    cols: usize,
    rows: usize,
    children: &[(GridChildInfo, SizeRules)],
) -> SizeRules {
    let mut solver = GridSolver::new(axis, cols, rows, &mut storage.widths, &mut storage.heights);
    for (info, rules) in children {
        solver.for_child(&mut storage.widths, &mut storage.heights, *info, *rules);
    }
    assert!(solver.total_fits(&storage.widths, &storage.heights));
    solver.finish(&mut storage.widths, &mut storage.heights)
}

fn horiz() -> AxisInfo {
    AxisInfo::new(false, None)
}

fn vert() -> AxisInfo {
    AxisInfo::new(true, None)
}

#[test]
fn grid_child_info_from_pos() {
    assert_eq!(GridChildInfo::from(GridPos(3, 4, 5, 6)), at(3, 4, 5, 6));
}

#[test]
fn columns_take_the_largest_child_and_add_up() {
    let mut storage = DynGridStorage::new();
    let children = [
        (at(0, 0, 1, 1), SizeRules::variable(10, 20)),
        (at(0, 1, 1, 1), SizeRules::variable(5, 30)),
        (at(1, 0, 1, 1), SizeRules::fixed(7)),
        (at(1, 1, 1, 1), SizeRules::variable(2, 3)),
    ];
    let rules = query(&mut storage, horiz(), 2, 2, &children);
    assert_eq!(rules, SizeRules::variable(17, 37));
    assert_eq!(
        storage.widths.as_ref(),
        &[SizeRules::variable(10, 30), SizeRules::fixed(7), SizeRules::variable(17, 37)]
    );
    assert!(is_valid_with_total(storage.widths.as_ref()));
    // the rows are left as they were
    assert_eq!(storage.heights.as_ref(), &[SizeRules::empty(); 3]);
}

#[test]
fn rows_take_the_largest_child_and_add_up() {
    let mut storage = DynGridStorage::new();
    let children = [
        (at(0, 0, 1, 1), SizeRules::variable(10, 20)),
        (at(0, 1, 1, 1), SizeRules::variable(5, 30)),
        (at(1, 0, 1, 1), SizeRules::fixed(7)),
        (at(1, 1, 1, 1), SizeRules::variable(2, 3)),
    ];
    let rules = query(&mut storage, vert(), 2, 2, &children);
    assert_eq!(rules, SizeRules::variable(15, 50));
    assert_eq!(
        storage.heights.as_ref(),
        &[SizeRules::variable(10, 20), SizeRules::variable(5, 30), SizeRules::variable(15, 50)]
    );
}

#[test]
fn spanning_child_raises_the_first_column_it_spans() {
    let mut storage = DynGridStorage::new();
    let children = [
        (at(0, 0, 2, 1), SizeRules::variable(30, 50)),
        (at(0, 1, 1, 1), SizeRules::variable(10, 10)),
        (at(1, 1, 1, 1), SizeRules::variable(5, 25)),
    ];
    let rules = query(&mut storage, horiz(), 2, 2, &children);
    // the second column gives 5 and 25: the first has to give 25 and 25
    assert_eq!(
        storage.widths.as_ref(),
        &[SizeRules::fixed(25), SizeRules::variable(5, 25), SizeRules::variable(30, 50)]
    );
    assert_eq!(rules, SizeRules::variable(30, 50));
}

#[test]
fn spanning_child_that_fits_raises_nothing() {
    let mut storage = DynGridStorage::new();
    let children = [
        (at(0, 0, 1, 1), SizeRules::variable(10, 20)),
        (at(1, 0, 1, 1), SizeRules::variable(10, 20)),
        (at(0, 1, 2, 1), SizeRules::variable(15, 40)),
    ];
    let rules = query(&mut storage, horiz(), 2, 2, &children);
    assert_eq!(rules, SizeRules::variable(20, 40));
}

#[test]
fn spanning_children_are_taken_in_the_order_they_came() {
    // a known approximation: each span raises the first line it spans, so
    // the lines hold every child but may ask for more than they need
    let mut storage = DynGridStorage::new();
    let children = [
        (at(0, 0, 2, 1), SizeRules::fixed(10)),
        (at(1, 1, 2, 1), SizeRules::fixed(10)),
        (at(0, 2, 3, 1), SizeRules::fixed(12)),
    ];
    let rules = query(&mut storage, horiz(), 3, 3, &children);
    assert_eq!(
        storage.widths.as_ref(),
        &[SizeRules::fixed(10), SizeRules::fixed(10), SizeRules::fixed(0), SizeRules::fixed(20)]
    );
    assert_eq!(rules, SizeRules::fixed(20));
    // every child is held by the columns it spans
    let w = storage.widths.as_ref();
    assert!(w[0].min_size() + w[1].min_size() >= 10);
    assert!(w[1].min_size() + w[2].min_size() >= 10);
    assert!(w[0].min_size() + w[1].min_size() + w[2].min_size() >= 12);
}

#[test]
fn a_new_pass_forgets_the_lines_of_the_last() {
    let mut storage = DynGridStorage::new();
    query(&mut storage, horiz(), 1, 1, &[(at(0, 0, 1, 1), SizeRules::fixed(50))]);
    let rules = query(&mut storage, horiz(), 1, 1, &[(at(0, 0, 1, 1), SizeRules::fixed(5))]);
    assert_eq!(rules, SizeRules::fixed(5));
}

#[test]
fn asking_the_grid_twice_gives_the_same() {
    let mut storage = DynGridStorage::new();
    let children = [
        (at(0, 0, 2, 1), SizeRules::variable(30, 50)),
        (at(0, 1, 1, 1), SizeRules::variable(10, 10)),
        (at(1, 1, 1, 1), SizeRules::variable(5, 25)),
    ];
    let first = query(&mut storage, horiz(), 2, 2, &children);
    let kept = storage.widths.as_ref().to_vec();
    let second = query(&mut storage, horiz(), 2, 2, &children);
    assert_eq!(first, second);
    assert_eq!(storage.widths.as_ref(), kept.as_slice());
}

#[test]
fn empty_grid_asks_for_nothing() {
    let mut storage = DynGridStorage::new();
    assert_eq!(query(&mut storage, horiz(), 0, 0, &[]), SizeRules::empty());
    assert_eq!(query(&mut storage, vert(), 0, 0, &[]), SizeRules::empty());
}

#[test]
fn total_that_does_not_fit_is_told() {
    let mut storage = DynGridStorage::new();
    let mut solver =
        GridSolver::new(horiz(), 2, 1, &mut storage.widths, &mut storage.heights);
    let big = SizeRules::fixed(u32::MAX);
    solver.for_child(&mut storage.widths, &mut storage.heights, at(0, 0, 1, 1), big);
    assert!(solver.total_fits(&storage.widths, &storage.heights));
    solver.for_child(&mut storage.widths, &mut storage.heights, at(1, 0, 1, 1), SizeRules::fixed(1));
    assert!(!solver.total_fits(&storage.widths, &storage.heights));
}

#[test]
fn children_are_asked_with_the_width_they_span() {
    let mut storage = DynGridStorage::new();
    let children = [
        (at(0, 0, 1, 1), SizeRules::variable(10, 20)),
        (at(1, 0, 1, 1), SizeRules::variable(10, 30)),
    ];
    query(&mut storage, horiz(), 2, 1, &children);
    let axis = AxisInfo::new(true, Some(40));
    let solver = GridSolver::new(axis, 2, 1, &mut storage.widths, &mut storage.heights);
    assert_eq!(solver.child_axis(at(0, 0, 1, 1)).fixed(true), Some(17));
    assert_eq!(solver.child_axis(at(1, 0, 1, 1)).fixed(true), Some(23));
    assert_eq!(solver.child_axis(at(0, 0, 2, 1)).fixed(true), Some(40));
    assert!(solver.child_axis(at(0, 0, 2, 1)).vertical());
    let solver = GridSolver::new(vert(), 2, 1, &mut storage.widths, &mut storage.heights);
    assert_eq!(solver.child_axis(at(0, 0, 2, 1)).fixed(true), None);
}

#[test]
fn fixed_storage_works_as_well() {
    let mut storage = FixedGridStorage::<3, 2>::new();
    let mut solver =
        GridSolver::new(horiz(), 2, 1, &mut storage.widths, &mut storage.heights);
    solver.for_child(&mut storage.widths, &mut storage.heights, at(0, 0, 1, 1), SizeRules::fixed(4));
    solver.for_child(&mut storage.widths, &mut storage.heights, at(1, 0, 1, 1), SizeRules::fixed(6));
    assert_eq!(solver.finish(&mut storage.widths, &mut storage.heights), SizeRules::fixed(10));
    assert_eq!(FixedGridStorage::<3, 2>::default().widths.as_ref().len(), 3);
}

#[test]
fn setter_places_children_in_their_cells() {
    let mut storage = DynGridStorage::new();
    let children = [
        (at(0, 0, 1, 1), SizeRules::variable(10, 20)),
        (at(1, 0, 1, 1), SizeRules::variable(10, 30)),
        (at(0, 1, 2, 1), SizeRules::fixed(5)),
    ];
    query(&mut storage, horiz(), 2, 2, &children);
    query(&mut storage, vert(), 2, 2, &children);
    assert_eq!(
        storage.heights.as_ref(),
        &[SizeRules::variable(10, 30), SizeRules::fixed(5), SizeRules::variable(15, 35)]
    );
    let margins = Margins { first: Size(1, 2), last: Size(3, 4), inter: Size(5, 6) };
    // width: 49 = 1 + 3 + 5 + 40; height: 27 = 2 + 4 + 6 + 15
    let rect = Rect { pos: Coord(100, 200), size: Size(49, 27) };
    let setter = GridSetter::new(rect, margins, 2, 2, &storage.widths, &storage.heights);
    assert_eq!(setter.child_rect(at(0, 0, 1, 1)), Rect { pos: Coord(101, 202), size: Size(17, 10) });
    assert_eq!(setter.child_rect(at(1, 0, 1, 1)), Rect { pos: Coord(123, 202), size: Size(23, 10) });
    // the spanning child reaches over both columns and the margin between
    assert_eq!(setter.child_rect(at(0, 1, 2, 1)), Rect { pos: Coord(101, 218), size: Size(45, 5) });
    assert_eq!(setter.child_rect(at(0, 0, 2, 2)), Rect { pos: Coord(101, 202), size: Size(45, 21) });
}
