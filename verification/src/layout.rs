//! Layout solving: size rules, the axis being measured, and how a target
//! size is shared out among the children of a container.

pub mod grid_solver;
pub mod row_solver;
pub mod size_rules;
pub mod sizer;
pub mod solve_seq;
pub mod storage;
pub mod sums;

pub use grid_solver::{GridChildInfo, GridSetter, GridSolver};
pub use row_solver::{RowSetter, RowSolver, SingleSetter};
pub use size_rules::{Margins, SizeRules};
pub use sizer::solve;
pub use storage::{DynGridStorage, DynRowStorage, FixedGridStorage, FixedRowStorage, RowStorage};

use crate::geom::Size;
use vstd::prelude::*;

verus! {

/// Which axis is being measured, and the size the other axis was committed
/// to, where that has happened already.
#[derive(Copy, Clone, Debug)]
pub struct AxisInfo {
    vertical: bool,
    has_fixed: bool,
    other_axis: u32,
}

impl AxisInfo {
    /// Whether the axis being measured is the vertical one.
    pub closed spec fn is_vertical(self) -> bool {
        self.vertical
    }

    /// The committed size of the other axis, where there is one.
    pub closed spec fn other_size(self) -> Option<u32> {
        if self.has_fixed {
            Some(self.other_axis)
        } else {
            None
        }
    }

    /// The component of `size` along the axis being measured.
    pub open spec fn along(self, size: Size) -> u32 {
        if self.is_vertical() {
            size.1
        } else {
            size.0
        }
    }

    /// An axis query: `vertical` tells the axis, `fixed` the committed size of
    /// the other axis.
    pub fn new(vertical: bool, fixed: Option<u32>) -> (r: Self)
        ensures
            r.is_vertical() == vertical,
            r.other_size() == fixed,
    {
        match fixed {
            Some(size) => AxisInfo { vertical, has_fixed: true, other_axis: size },
            None => AxisInfo { vertical, has_fixed: false, other_axis: 0 },
        }
    }

    /// True if the axis being measured is vertical, false if horizontal.
    pub fn vertical(&self) -> (v: bool)
        ensures
            v == self.is_vertical(),
    {
        self.vertical
    }

    /// The size of the other axis, if it is fixed and `vertical` names the
    /// axis being measured.
    pub fn fixed(&self, vertical: bool) -> (r: Option<u32>)
        ensures
            r == if vertical == self.is_vertical() {
                self.other_size()
            } else {
                None
            },
    {
        if vertical == self.vertical && self.has_fixed {
            Some(self.other_axis)
        } else {
            None
        }
    }

    /// The component of `size` along the axis being measured.
    pub fn extract_size(&self, size: Size) -> (r: u32)
        ensures
            r == self.along(size),
    {
        if !self.vertical {
            size.0
        } else {
            size.1
        }
    }
}

/// A direction of layout, known at compile time or at run time.
pub trait Direction: Copy + Sized + core::fmt::Debug {
    /// Whether this direction is the vertical one.
    spec fn runs_vertical(self) -> bool;

    fn is_vertical(self) -> (v: bool)
        ensures
            v == self.runs_vertical(),
    ;

    fn is_horizontal(self) -> (h: bool)
        ensures
            h == !self.runs_vertical(),
    {
        !self.is_vertical()
    }
}

/// The horizontal direction.
#[derive(Copy, Clone, Default, Debug)]
pub struct Horizontal;

impl Direction for Horizontal {
    open spec fn runs_vertical(self) -> bool {
        false
    }

    fn is_vertical(self) -> (v: bool) {
        false
    }
}

/// The vertical direction.
#[derive(Copy, Clone, Default, Debug)]
pub struct Vertical;

impl Direction for Vertical {
    open spec fn runs_vertical(self) -> bool {
        true
    }

    fn is_vertical(self) -> (v: bool) {
        true
    }
}

/// A direction chosen at run time.
#[derive(Copy, Clone, Debug)]
pub struct DynDirection(bool);

impl Direction for DynDirection {
    closed spec fn runs_vertical(self) -> bool {
        self.0
    }

    fn is_vertical(self) -> (v: bool) {
        self.0
    }
}

impl DynDirection {
    /// The horizontal direction.
    pub fn horizontal() -> (d: Self)
        ensures
            !d.runs_vertical(),
    {
        DynDirection(false)
    }

    /// The vertical direction.
    pub fn vertical() -> (d: Self)
        ensures
            d.runs_vertical(),
    {
        DynDirection(true)
    }
}

} // verus!
