//! The order of a layout pass.

use super::AxisInfo;
use crate::geom::{Coord, Rect, Size};
use vstd::prelude::*;

verus! {

/// The steps of a layout pass over a tree of widgets, in order: ask for the
/// rules along the first axis, ask for the rules along the second, then hand
/// out the rectangle.
#[derive(Clone, Copy, Debug)]
pub struct Pass {
    /// The first query.
    pub first: AxisInfo,
    /// The second query.
    pub second: AxisInfo,
    /// The rectangle of the root.
    pub rect: Rect,
}

/// The layout pass for a window of `size`.
///
/// The horizontal axis is asked first, with nothing fixed. The vertical axis
/// follows, with the width fixed to that of the window: the height of a
/// widget may depend on its width, as that of wrapped text does. The root
/// then gets the whole window.
pub fn solve(size: Size) -> (pass: Pass)
    ensures
        !pass.first.is_vertical(),
        pass.first.other_size() is None,
        pass.second.is_vertical(),
        pass.second.other_size() == Some(size.0),
        pass.rect == (Rect { pos: Coord(0, 0), size }),
{
    Pass {
        first: AxisInfo::new(false, None),
        second: AxisInfo::new(true, Some(size.0)),
        rect: Rect { pos: Coord(0, 0), size },
    }
}

} // verus!
