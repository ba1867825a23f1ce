use kas::data::{CoreData, WidgetId};
use kas::geom::{Coord, Rect, Size};

#[test]
fn first_identifier_is_one() {
    assert_eq!(WidgetId::first().get(), 1);
}

#[test]
fn default_identifier_is_the_last() {
    assert_eq!(WidgetId::default(), WidgetId::last());
    assert_eq!(WidgetId::last().get(), u32::MAX);
}

#[test]
fn next_identifier_counts_up() {
    let a = WidgetId::first();
    let b = a.next();
    let c = b.next();
    assert_eq!(b.get(), 2);
    assert_eq!(c.get(), 3);
    assert!(a < b && b < c && a < c);
    assert!(c > a);
    assert_ne!(a, b);
}

#[test]
fn identifiers_are_ordered_by_number() {
    let a = WidgetId::first().next().next();
    let b = WidgetId::first().next().next();
    assert_eq!(a, b);
    assert!(a <= b && a >= b);
    assert_eq!(a.partial_cmp(&b), Some(std::cmp::Ordering::Equal));
    assert_eq!(a.cmp(&b), std::cmp::Ordering::Equal);
    assert_eq!(a.cmp(&a.next()), std::cmp::Ordering::Less);
    assert_eq!(a.partial_cmp(&a.next()), Some(std::cmp::Ordering::Less));
    assert_eq!(a.next().partial_cmp(&a), Some(std::cmp::Ordering::Greater));
    assert!(a < WidgetId::last());
}

#[test]
fn default_core_data_has_no_identifier_and_no_size() {
    let core = CoreData::default();
    assert_eq!(core.id, WidgetId::last());
    assert_eq!(core.rect, Rect { pos: Coord(0, 0), size: Size(0, 0) });
}
