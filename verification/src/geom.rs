//! Geometry types.

use core::ops::{Add, Sub};
use vstd::prelude::*;
use vstd::std_specs::ops::{AddSpecImpl, SubSpecImpl};

verus! {

/// A width and height pair.
#[derive(Clone, Copy, Debug, PartialEq, Eq, Structural)]
pub struct Size(pub u32, pub u32);

impl Size {
    /// A size with the same value on both axes.
    pub fn uniform(v: u32) -> (r: Size)
        ensures
            r == Size(v, v),
    {
        Size(v, v)
    }
}

impl Default for Size {
    fn default() -> (r: Self)
        ensures
            r == Size(0, 0),
    {
        Size(0, 0)
    }
}

/// A position: horizontal and vertical offset.
#[derive(Clone, Copy, Debug, PartialEq, Eq, Structural)]
pub struct Coord(pub i32, pub i32);

impl Default for Coord {
    fn default() -> (r: Self)
        ensures
            r == Coord(0, 0),
    {
        Coord(0, 0)
    }
}

/// A rectangle: the position of its top-left corner, and its size.
#[derive(Clone, Copy, Debug, PartialEq, Eq, Structural)]
pub struct Rect {
    pub pos: Coord,
    pub size: Size,
}

impl Rect {
    /// The rectangle that `default` builds: empty, at the origin.
    pub open spec fn default_spec() -> Rect {
        Rect { pos: Coord(0, 0), size: Size(0, 0) }
    }
}

impl Default for Rect {
    fn default() -> (r: Self)
        ensures
            r == Rect::default_spec(),
    {
        Rect { pos: Coord(0, 0), size: Size(0, 0) }
    }
}

impl AddSpecImpl<Size> for Size {
    open spec fn obeys_add_spec() -> bool {
        true
    }

    open spec fn add_req(self, rhs: Size) -> bool {
        self.0 + rhs.0 <= u32::MAX && self.1 + rhs.1 <= u32::MAX
    }

    open spec fn add_spec(self, rhs: Size) -> Size {
        Size((self.0 + rhs.0) as u32, (self.1 + rhs.1) as u32)
    }
}

impl Add<Size> for Size {
    type Output = Size;

    /// The sum of two sizes, axis by axis.
    fn add(self, rhs: Size) -> (r: Size) {
        Size(self.0 + rhs.0, self.1 + rhs.1)
    }
}

impl SubSpecImpl<Size> for Size {
    open spec fn obeys_sub_spec() -> bool {
        true
    }

    open spec fn sub_req(self, rhs: Size) -> bool {
        self.0 >= rhs.0 && self.1 >= rhs.1
    }

    open spec fn sub_spec(self, rhs: Size) -> Size {
        Size((self.0 - rhs.0) as u32, (self.1 - rhs.1) as u32)
    }
}

impl Sub<Size> for Size {
    type Output = Size;

    /// The difference of two sizes, axis by axis.
    fn sub(self, rhs: Size) -> (r: Size) {
        Size(self.0 - rhs.0, self.1 - rhs.1)
    }
}

impl AddSpecImpl<Size> for Coord {
    open spec fn obeys_add_spec() -> bool {
        true
    }

    open spec fn add_req(self, rhs: Size) -> bool {
        self.0 + rhs.0 <= i32::MAX && self.1 + rhs.1 <= i32::MAX
    }

    open spec fn add_spec(self, rhs: Size) -> Coord {
        Coord((self.0 + rhs.0) as i32, (self.1 + rhs.1) as i32)
    }
}

impl Add<Size> for Coord {
    type Output = Coord;

    /// The position that lies `rhs` to the right of and below `self`.
    fn add(self, rhs: Size) -> (r: Coord) {
        let right: i64 = self.0 as i64 + rhs.0 as i64;
        let down: i64 = self.1 as i64 + rhs.1 as i64;
        Coord(right as i32, down as i32)
    }
}

} // verus!
