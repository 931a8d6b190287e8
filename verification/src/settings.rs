use vstd::prelude::*;

verus! {

/// Immutable configuration shared by every node of a tree.
///
/// `max_depth` bounds how deep the tree may grow, `min_leave_size` stops a
/// side of a split from being split further when it holds fewer rows, and
/// `max_cardinality` caps how many distinct values a categorical column may
/// keep during pruning.
#[derive(Clone, Copy, Debug, PartialEq, Eq, Structural)]
pub struct Settings {
    pub max_depth: u8,
    pub min_leave_size: u128,
    pub max_cardinality: u8,
}

impl Settings {
    pub fn new(max_depth: u8, min_leave_size: u128, max_cardinality: u8) -> (s: Self)
        ensures
            s == (Settings { max_depth, min_leave_size, max_cardinality }),
    {
        Self { max_depth, min_leave_size, max_cardinality }
    }

    /// The documented defaults: depth 4, leaves of at least 32 rows, at
    /// most 6 categories per categorical column.
    pub fn default() -> (s: Self)
        ensures
            s == (Settings { max_depth: 4, min_leave_size: 32, max_cardinality: 6 }),
    {
        Self::new(4, 32, 6)
    }

    pub fn set_max_depth(&mut self, max_depth: u8)
        ensures
            *final(self) == (Settings { max_depth, ..*old(self) }),
    {
        self.max_depth = max_depth;
    }

    pub fn get_max_depth(&self) -> (d: u8)
        ensures
            d == self.max_depth,
    {
        self.max_depth
    }

    pub fn get_min_leave_size(&self) -> (m: u128)
        ensures
            m == self.min_leave_size,
    {
        self.min_leave_size
    }

    pub fn get_max_cardinality(&self) -> (c: u8)
        ensures
            c == self.max_cardinality,
    {
        self.max_cardinality
    }
}

} // verus!
