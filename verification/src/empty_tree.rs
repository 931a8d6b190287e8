use crate::display_tree::BinaryTree;
use vstd::prelude::*;

verus! {

/// A minimal tree of bare strings, handy for exercising tree utilities
/// without fitting anything.
pub struct EmptyTree {
    pub left_node: Option<Box<EmptyTree>>,
    pub right_node: Option<Box<EmptyTree>>,
    pub string: String,
}

impl BinaryTree for EmptyTree {
    open spec fn spec_left(&self) -> Option<Self> {
        match self.left_node {
            Some(l) => Some(*l),
            None => None,
        }
    }

    open spec fn spec_right(&self) -> Option<Self> {
        match self.right_node {
            Some(r) => Some(*r),
            None => None,
        }
    }

    open spec fn spec_description(&self) -> Seq<char> {
        self.string@
    }

    fn get_left(&self) -> (r: Option<&Self>) {
        match &self.left_node {
            Some(l) => Some(&**l),
            None => None,
        }
    }

    fn get_right(&self) -> (r: Option<&Self>) {
        match &self.right_node {
            Some(r) => Some(&**r),
            None => None,
        }
    }

    fn display_string(&self) -> (s: String) {
        self.string.clone()
    }
}

impl EmptyTree {
    /// A childless node displaying the given string.
    pub fn new(string: String) -> (t: Self)
        ensures
            t.left_node is None,
            t.right_node is None,
            t.string == string,
    {
        Self { left_node: None, right_node: None, string }
    }
}

} // verus!
