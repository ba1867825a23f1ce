//! Data types: widget identity and the data every widget holds.

use crate::geom::Rect;
use core::cmp::Ordering;
use vstd::prelude::*;
use vstd::std_specs::cmp::PartialOrdSpec;

verus! {

/// Widget identifier.
///
/// All widgets within a window are assigned a unique numeric identifier,
/// counted up from the first as the window is set up. Identifiers may be
/// tested for equality and order; the last identifier there is stands for
/// "not assigned".
#[derive(Debug, Clone, Copy, Hash, Ord, PartialEq, Eq, Structural)]
pub struct WidgetId(u32);

impl WidgetId {
    /// The number of the identifier; never zero for an identifier that is
    /// well formed.
    pub closed spec fn number(self) -> u32 {
        self.0
    }

    /// The invariant of the type: the number is not zero.
    pub open spec fn wf(self) -> bool {
        self.number() != 0
    }

    /// Whether this is the last identifier, the one that stands for "not
    /// assigned".
    pub open spec fn is_last(self) -> bool {
        self.number() == u32::MAX
    }

    /// Identifiers are determined by their number.
    pub proof fn lemma_determined(self, other: Self)
        requires
            self.number() == other.number(),
        ensures
            self == other,
    {
    }

    /// The last identifier there is.
    pub closed spec fn last_spec() -> WidgetId {
        WidgetId(u32::MAX)
    }

    /// The last identifier is the one that `is_last` tells.
    pub proof fn lemma_last(self)
        ensures
            WidgetId::last_spec().is_last(),
            WidgetId::last_spec().wf(),
            self.is_last() <==> self == WidgetId::last_spec(),
    {
    }

    /// The first identifier.
    pub fn first() -> (id: Self)
        ensures
            id.number() == 1,
            id.wf(),
    {
        WidgetId(1)
    }

    /// The last identifier.
    pub fn last() -> (id: Self)
        ensures
            id == WidgetId::last_spec(),
            id.is_last(),
            id.wf(),
    {
        WidgetId(u32::MAX)
    }

    /// The identifier after this one. There is none after the last.
    pub fn next(self) -> (id: Self)
        requires
            !self.is_last(),
        ensures
            id.number() == self.number() + 1,
            id.wf(),
            self.partial_cmp_spec(&id) == Some(Ordering::Less),
    {
        WidgetId(self.0 + 1)
    }

    /// The number of the identifier.
    pub fn get(self) -> (n: u32)
        ensures
            n == self.number(),
    {
        self.0
    }
}

impl Default for WidgetId {
    fn default() -> (id: Self)
        ensures
            id == WidgetId::last_spec(),
            id.is_last(),
            id.wf(),
    {
        WidgetId(u32::MAX)
    }
}

impl vstd::std_specs::cmp::PartialOrdSpecImpl for WidgetId {
    open spec fn obeys_partial_cmp_spec() -> bool {
        true
    }

    open spec fn partial_cmp_spec(&self, other: &WidgetId) -> Option<Ordering> {
        if self.number() < other.number() {
            Some(Ordering::Less)
        } else if self.number() == other.number() {
            Some(Ordering::Equal)
        } else {
            Some(Ordering::Greater)
        }
    }
}

impl PartialOrd for WidgetId {
    /// Identifiers are ordered by their numbers.
    fn partial_cmp(&self, other: &WidgetId) -> (r: Option<Ordering>) {
        if self.0 < other.0 {
            Some(Ordering::Less)
        } else if self.0 == other.0 {
            Some(Ordering::Equal)
        } else {
            Some(Ordering::Greater)
        }
    }
}

/// Common widget data: the identifier of the widget and the rectangle it was
/// given.
#[derive(Clone, Copy, Debug)]
pub struct CoreData {
    pub id: WidgetId,
    pub rect: Rect,
}

impl CoreData {
    /// The data that `default` builds: no identifier assigned, and an empty
    /// rectangle at the origin.
    pub open spec fn default_spec() -> CoreData {
        CoreData { id: WidgetId::last_spec(), rect: Rect::default_spec() }
    }
}

impl Default for CoreData {
    fn default() -> (r: Self)
        ensures
            r == CoreData::default_spec(),
    {
        CoreData { id: WidgetId::default(), rect: Rect::default() }
    }
}

/// What holds the common widget data: every widget does.
pub trait Core {
    /// The common widget data held.
    spec fn core_spec(&self) -> CoreData;

    /// The common widget data.
    fn core_data(&self) -> (data: &CoreData)
        ensures
            *data == self.core_spec(),
    ;

    /// The common widget data, to be changed.
    fn core_data_mut(&mut self) -> (data: &mut CoreData)
        ensures
            *data == old(self).core_spec(),
            final(self).core_spec() == *final(data),
    ;
}

impl Core for CoreData {
    open spec fn core_spec(&self) -> CoreData {
        *self
    }

    fn core_data(&self) -> (data: &CoreData) {
        self
    }

    fn core_data_mut(&mut self) -> (data: &mut CoreData) {
        self
    }
}

} // verus!
