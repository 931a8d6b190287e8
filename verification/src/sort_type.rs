use crate::error::TreeError;
use vstd::prelude::*;

verus! {

/// How a feature column can be split into a left and a right side.
///
/// An ordinal column is split by a greater-or-equal comparison against a
/// threshold; a categorical column by equality against one category.
#[derive(Clone, Copy, Debug, PartialEq, Eq, Structural)]
pub enum SortType {
    Ordinal,
    Categorical,
}

impl SortType {
    /// Parses the stored textual encoding of a sort type.
    ///
    /// Any string other than the two known encodings indicates a corrupt
    /// stored descriptor and is reported as an error rather than accepted.
    pub fn from_str(string: &str) -> (r: Result<Self, TreeError>)
        ensures
            string@ == "ordinal"@ ==> r == Ok::<Self, TreeError>(SortType::Ordinal),
            string@ == "categorical"@ ==> r == Ok::<Self, TreeError>(SortType::Categorical),
            string@ != "ordinal"@ && string@ != "categorical"@ ==> r == Err::<
                Self,
                TreeError,
            >(TreeError::CorruptSortType),
    {
        proof {
            reveal_strlit("ordinal");
            reveal_strlit("categorical");
            assert("ordinal"@.len() == 7);
            assert("categorical"@.len() == 11);
        }
        let owned = string.to_owned();
        if owned == String::from_str("ordinal") {
            Ok(SortType::Ordinal)
        } else if owned == String::from_str("categorical") {
            Ok(SortType::Categorical)
        } else {
            Err(TreeError::CorruptSortType)
        }
    }

    /// The textual encoding used when a sort type is stored.
    pub fn as_str(&self) -> (r: &'static str)
        ensures
            *self == SortType::Ordinal ==> r@ == "ordinal"@,
            *self == SortType::Categorical ==> r@ == "categorical"@,
    {
        match self {
            SortType::Ordinal => "ordinal",
            SortType::Categorical => "categorical",
        }
    }
}

} // verus!
