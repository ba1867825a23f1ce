use kas::geom::{Coord, Rect, Size};
use kas::layout::row_solver::{RowSetter, RowSolver, SingleSetter};
use kas::layout::size_rules::{Margins, SizeRules};
use kas::layout::solve_seq::is_valid_with_total;
use kas::layout::storage::{DynRowStorage, FixedRowStorage, RowStorage};
use kas::layout::{AxisInfo, Horizontal, Vertical};

fn query<S: RowStorage>(
    storage: &mut S,
    axis: AxisInfo,
    vertical_row: bool,
    children: &[SizeRules],
) -> SizeRules {
    let mut solver = if vertical_row {
        RowSolver::new(axis, Vertical, children.len(), storage)
    } else {
        RowSolver::new(axis, Horizontal, children.len(), storage)
    };
    for (n, r) in children.iter().enumerate() {
        solver.for_child(storage, n, *r);
    }
    solver.finish(storage)
}

fn children() -> Vec<SizeRules> {
    vec![SizeRules::variable(10, 20), SizeRules::variable(10, 30), SizeRules::fixed(5)]
}

#[test]
fn dyn_storage_grows_with_empty_rules() {
    let mut storage = DynRowStorage::new();
    assert_eq!(storage.as_ref().len(), 0);
    storage.set_len(3);
    assert_eq!(storage.as_ref(), &[SizeRules::empty(); 3]);
    storage.set(1, SizeRules::fixed(4));
    storage.set_len(4);
    assert_eq!(
        storage.as_ref(),
        &[SizeRules::empty(), SizeRules::fixed(4), SizeRules::empty(), SizeRules::empty()]
    );
    storage.set_len(2);
    assert_eq!(storage.as_ref(), &[SizeRules::empty(), SizeRules::fixed(4)]);
    assert_eq!(DynRowStorage::default().as_ref().len(), 0);
}

#[test]
fn fixed_storage_has_its_length_from_the_start() {
    let mut storage = FixedRowStorage::<3>::new();
    assert_eq!(storage.as_ref(), &[SizeRules::empty(); 3]);
    storage.set(2, SizeRules::fixed(4));
    storage.set_len(3);
    assert_eq!(storage.as_ref(), &[SizeRules::empty(), SizeRules::empty(), SizeRules::fixed(4)]);
    assert_eq!(FixedRowStorage::<2>::default().as_ref().len(), 2);
}

#[test]
fn along_the_row_rules_add_up() {
    let mut storage = DynRowStorage::new();
    let rules = query(&mut storage, AxisInfo::new(false, None), false, &children());
    assert_eq!(rules, SizeRules::variable(25, 55));
    let mut expected = children();
    expected.push(rules);
    assert_eq!(storage.as_ref(), expected.as_slice());
    assert!(is_valid_with_total(storage.as_ref()));
}

#[test]
fn across_the_row_the_largest_counts() {
    let mut storage = DynRowStorage::new();
    let rules = query(&mut storage, AxisInfo::new(true, None), false, &children());
    assert_eq!(rules, SizeRules::variable(10, 30));
    // nothing is kept of a pass across the row
    assert_eq!(storage.as_ref(), &[SizeRules::empty(); 4]);
}

#[test]
fn column_adds_up_along_the_vertical_axis() {
    let mut storage = FixedRowStorage::<4>::new();
    let rules = query(&mut storage, AxisInfo::new(true, None), true, &children());
    assert_eq!(rules, SizeRules::variable(25, 55));
    let rules = query(&mut storage, AxisInfo::new(false, None), true, &children());
    assert_eq!(rules, SizeRules::variable(10, 30));
}

#[test]
fn rules_that_would_pass_the_largest_size_are_told() {
    let mut storage = DynRowStorage::new();
    let mut solver = RowSolver::new(AxisInfo::new(false, None), Horizontal, 2, &mut storage);
    assert!(solver.accepts(SizeRules::fixed(u32::MAX)));
    solver.for_child(&mut storage, 0, SizeRules::fixed(u32::MAX));
    assert!(solver.accepts(SizeRules::fixed(0)));
    assert!(!solver.accepts(SizeRules::fixed(1)));
    let solver = RowSolver::new(AxisInfo::new(true, None), Horizontal, 2, &mut storage);
    assert!(solver.accepts(SizeRules::fixed(u32::MAX)));
}

#[test]
fn row_without_children_asks_for_nothing() {
    let mut storage = DynRowStorage::new();
    assert_eq!(query(&mut storage, AxisInfo::new(false, None), false, &[]), SizeRules::empty());
    assert_eq!(storage.as_ref(), &[SizeRules::empty()]);
    assert_eq!(query(&mut storage, AxisInfo::new(true, None), false, &[]), SizeRules::empty());
}

#[test]
fn asking_twice_gives_the_same() {
    let mut storage = DynRowStorage::new();
    let axis = AxisInfo::new(false, None);
    let first = query(&mut storage, axis, false, &children());
    let kept = storage.as_ref().to_vec();
    let second = query(&mut storage, axis, false, &children());
    assert_eq!(first, second);
    assert_eq!(storage.as_ref(), kept.as_slice());
}

#[test]
fn children_are_asked_with_their_own_fixed_size() {
    let mut storage = DynRowStorage::new();
    query(&mut storage, AxisInfo::new(false, None), false, &children());
    // the row is 45 wide: spare 20 over a stretch of 30
    let solver = RowSolver::new(AxisInfo::new(true, Some(45)), Horizontal, 3, &mut storage);
    assert_eq!(solver.child_axis(0).fixed(true), Some(17));
    assert_eq!(solver.child_axis(1).fixed(true), Some(23));
    assert_eq!(solver.child_axis(2).fixed(true), Some(5));
    assert!(solver.child_axis(0).vertical());
    assert_eq!(solver.child_axis(0).fixed(false), None);
}

#[test]
fn children_are_asked_with_the_axis_of_the_pass() {
    let mut storage = DynRowStorage::new();
    let solver = RowSolver::new(AxisInfo::new(false, None), Horizontal, 2, &mut storage);
    assert!(!solver.child_axis(0).vertical());
    assert_eq!(solver.child_axis(1).fixed(false), None);
    // along the row the fixed size of the other axis is handed on as it is
    let solver = RowSolver::new(AxisInfo::new(false, Some(8)), Horizontal, 2, &mut storage);
    assert_eq!(solver.child_axis(1).fixed(false), Some(8));
}

#[test]
fn setter_places_children_side_by_side() {
    let mut storage = DynRowStorage::new();
    query(&mut storage, AxisInfo::new(false, None), false, &children());
    let margins = Margins { first: Size(1, 2), last: Size(3, 4), inter: Size(5, 6) };
    // 60 wide: 1 + 3 for the outer margins, 2 * 5 between, 46 for the children
    let rect = Rect { pos: Coord(100, 200), size: Size(60, 30) };
    let setter = RowSetter::new(rect, margins, Horizontal, 3, &storage);
    // spare 21 over a stretch of 30: floors 7 and 14, no unit left over
    assert_eq!(setter.child_rect(0), Rect { pos: Coord(101, 202), size: Size(17, 24) });
    assert_eq!(setter.child_rect(1), Rect { pos: Coord(123, 202), size: Size(24, 24) });
    assert_eq!(setter.child_rect(2), Rect { pos: Coord(152, 202), size: Size(5, 24) });
    // the last child ends where the last margin begins
    assert_eq!(152 + 5 + 3, 100 + 60);
}

#[test]
fn setter_places_children_below_each_other() {
    let mut storage = DynRowStorage::new();
    query(&mut storage, AxisInfo::new(true, None), true, &children());
    let margins = Margins::uniform(2, 1);
    // 31 high: 4 for the outer margins, 2 between, 25 for the children
    let rect = Rect { pos: Coord(-10, -20), size: Size(50, 31) };
    let setter = RowSetter::new(rect, margins, Vertical, 3, &storage);
    assert_eq!(setter.child_rect(0), Rect { pos: Coord(-8, -18), size: Size(46, 10) });
    assert_eq!(setter.child_rect(1), Rect { pos: Coord(-8, -7), size: Size(46, 10) });
    assert_eq!(setter.child_rect(2), Rect { pos: Coord(-8, 4), size: Size(46, 5) });
}

#[test]
fn setter_shrinks_children_that_do_not_fit() {
    let mut storage = DynRowStorage::new();
    query(&mut storage, AxisInfo::new(false, None), false, &children());
    let rect = Rect { pos: Coord(0, 0), size: Size(16, 10) };
    let setter = RowSetter::new(rect, Margins::zero(), Horizontal, 3, &storage);
    // 9 too many: both children of 10 are cut to 5, one unit short
    assert_eq!(setter.child_rect(0), Rect { pos: Coord(0, 0), size: Size(5, 10) });
    assert_eq!(setter.child_rect(1), Rect { pos: Coord(5, 0), size: Size(6, 10) });
    assert_eq!(setter.child_rect(2), Rect { pos: Coord(11, 0), size: Size(5, 10) });
}

#[test]
fn setter_without_children() {
    let mut storage = DynRowStorage::new();
    query(&mut storage, AxisInfo::new(false, None), false, &[]);
    let rect = Rect { pos: Coord(0, 0), size: Size(16, 10) };
    let _setter = RowSetter::new(rect, Margins::uniform(1, 100), Horizontal, 0, &storage);
}

#[test]
fn single_setter_takes_the_margins_off() {
    let margins = Margins { first: Size(1, 2), last: Size(3, 4), inter: Size(5, 6) };
    let rect = Rect { pos: Coord(100, 200), size: Size(60, 30) };
    let setter = SingleSetter::new(rect, margins);
    assert_eq!(setter.child_rect(), Rect { pos: Coord(101, 202), size: Size(56, 24) });
    let setter = SingleSetter::new(rect, Margins::zero());
    assert_eq!(setter.child_rect(), rect);
}
