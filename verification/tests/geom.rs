use kas::geom::{Coord, Rect, Size};

#[test]
fn uniform_size() {
    assert_eq!(Size::uniform(4), Size(4, 4));
}

#[test]
fn defaults_are_zero() {
    assert_eq!(Size::default(), Size(0, 0));
    assert_eq!(Coord::default(), Coord(0, 0));
    assert_eq!(Rect::default(), Rect { pos: Coord(0, 0), size: Size(0, 0) });
}

#[test]
fn sizes_add_and_subtract_axis_by_axis() {
    assert_eq!(Size(1, 2) + Size(10, 20), Size(11, 22));
    assert_eq!(Size(10, 20) - Size(1, 2), Size(9, 18));
}

#[test]
fn position_moves_by_size() {
    assert_eq!(Coord(-5, 7) + Size(10, 20), Coord(5, 27));
}
