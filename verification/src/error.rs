use vstd::prelude::*;

verus! {

/// Errors surfaced by the tree's fallible entry points.
///
/// Search exhaustion (no column yields a split candidate) is not an error:
/// the affected node simply becomes a leaf.
#[derive(Clone, Copy, Debug, PartialEq, Eq, Structural)]
pub enum TreeError {
    /// `fit` was called on a tree that has already been fitted.
    AlreadyFitted,
    /// `predict` was called on a tree that has not been fitted.
    NotFitted,
    /// A stored split descriptor names a feature column that the table
    /// being predicted on does not have, or has with the wrong kind.
    MissingFeature,
    /// A stored sort-type descriptor is not one of the known encodings;
    /// this indicates structural corruption of a stored tree.
    CorruptSortType,
    /// A column of the wrong length (or one too many rows) was handed to a
    /// table constructor.
    MalformedTable,
}

} // verus!
