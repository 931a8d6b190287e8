use crate::candidates::{Selector, SplitCandidate};
use crate::classification_tree::ClassificationTree;
use vstd::prelude::*;

verus! {

/// The capabilities a binary tree offers an external rendering utility:
/// reach the children, and describe one node on one line.
pub trait BinaryTree: Sized {
    /// The left child, if any.
    spec fn spec_left(&self) -> Option<Self>;

    /// The right child, if any.
    spec fn spec_right(&self) -> Option<Self>;

    /// The one-line description of this node.
    spec fn spec_description(&self) -> Seq<char>;

    fn get_left(&self) -> (r: Option<&Self>)
        ensures
            match r {
                Some(l) => self.spec_left() == Some(*l),
                None => self.spec_left() is None,
            },
    ;

    fn get_right(&self) -> (r: Option<&Self>)
        ensures
            match r {
                Some(c) => self.spec_right() == Some(*c),
                None => self.spec_right() is None,
            },
    ;

    fn display_string(&self) -> (s: String)
        ensures
            s@ == self.spec_description(),
    ;
}

/// The character of one decimal digit.
pub open spec fn digit_char(d: int) -> char {
    if d == 0 {
        '0'
    } else if d == 1 {
        '1'
    } else if d == 2 {
        '2'
    } else if d == 3 {
        '3'
    } else if d == 4 {
        '4'
    } else if d == 5 {
        '5'
    } else if d == 6 {
        '6'
    } else if d == 7 {
        '7'
    } else if d == 8 {
        '8'
    } else {
        '9'
    }
}

/// The decimal digits of a natural number, most significant first.
pub open spec fn digits_of(n: int) -> Seq<char>
    decreases n,
{
    if n < 10 {
        seq![digit_char(n)]
    } else {
        digits_of(n / 10) + seq![digit_char(n % 10)]
    }
}

/// The decimal rendering of a signed number: a minus sign before the
/// digits of its magnitude when negative.
pub open spec fn signed_digits_of(n: int) -> Seq<char> {
    if n < 0 {
        seq!['-'] + digits_of(-n)
    } else {
        digits_of(n)
    }
}

/// One decimal digit as a string slice.
fn digit_str(d: u64) -> (s: &'static str)
    requires
        d < 10,
    ensures
        s@ == seq![digit_char(d as int)],
{
    proof {
        reveal_strlit("0");
        reveal_strlit("1");
        reveal_strlit("2");
        reveal_strlit("3");
        reveal_strlit("4");
        reveal_strlit("5");
        reveal_strlit("6");
        reveal_strlit("7");
        reveal_strlit("8");
        reveal_strlit("9");
    }
    let s: &'static str = if d == 0 {
        "0"
    } else if d == 1 {
        "1"
    } else if d == 2 {
        "2"
    } else if d == 3 {
        "3"
    } else if d == 4 {
        "4"
    } else if d == 5 {
        "5"
    } else if d == 6 {
        "6"
    } else if d == 7 {
        "7"
    } else if d == 8 {
        "8"
    } else {
        "9"
    };
    proof {
        assert(s@ =~= seq![digit_char(d as int)]);
    }
    s
}

/// Renders a natural number in decimal.
fn u64_to_string(n: u64) -> (s: String)
    ensures
        s@ == digits_of(n as int),
    decreases n,
{
    if n < 10 {
        digit_str(n).to_owned()
    } else {
        let mut s = u64_to_string(n / 10);
        s.append(digit_str(n % 10));
        s
    }
}

/// Renders a signed number in decimal.
fn i64_to_string(n: i64) -> (s: String)
    ensures
        s@ == signed_digits_of(n as int),
{
    if n >= 0 {
        u64_to_string(n as u64)
    } else {
        proof {
            reveal_strlit("-");
        }
        let magnitude = (-(n as i128)) as u64;
        let mut s = String::from_str("-");
        let tail = u64_to_string(magnitude);
        s.append(tail.as_str());
        proof {
            assert(s@ =~= signed_digits_of(n as int));
        }
        s
    }
}

/// The one-line description of a split candidate: the feature name, the
/// comparison it applies, and the threshold or category it tests.
pub open spec fn candidate_description(cand: SplitCandidate) -> Seq<char> {
    match cand.selector {
        Selector::Threshold(t) => cand.feature@ + " >= "@ + signed_digits_of(t as int),
        Selector::Category(c) => cand.feature@ + " == "@ + c@,
    }
}

/// The one-line description of a fitted node: a leaf shows its label, an
/// internal node its predicate, and an unfitted node is empty.
pub open spec fn node_description(node: ClassificationTree) -> Seq<char> {
    match node.label {
        Some(l) => if l {
            "true"@
        } else {
            "false"@
        },
        None => match node.split_candidate {
            Some(sc) => candidate_description(sc),
            None => Seq::empty(),
        },
    }
}

impl ClassificationTree {
    /// Describes this node on one line: the leaf label, the stored split
    /// predicate, or nothing when the node is not fitted yet.
    pub fn display(&self) -> (s: String)
        ensures
            s@ == node_description(*self),
    {
        proof {
            reveal_strlit("true");
            reveal_strlit("false");
            reveal_strlit(" >= ");
            reveal_strlit(" == ");
        }
        match &self.label {
            Some(l) => {
                if *l {
                    String::from_str("true")
                } else {
                    String::from_str("false")
                }
            },
            None => match &self.split_candidate {
                Some(sc) => {
                    let mut s = sc.feature.clone();
                    match &sc.selector {
                        Selector::Threshold(t) => {
                            s.append(" >= ");
                            let num = i64_to_string(*t);
                            s.append(num.as_str());
                        },
                        Selector::Category(c) => {
                            s.append(" == ");
                            s.append(c.as_str());
                        },
                    }
                    s
                },
                None => String::new(),
            },
        }
    }
}

impl BinaryTree for ClassificationTree {
    open spec fn spec_left(&self) -> Option<Self> {
        match self.left_node {
            Some(l) => Some(*l),
            None => None,
        }
    }

    open spec fn spec_right(&self) -> Option<Self> {
        match self.right_node {
            Some(r) => Some(*r),
            None => None,
        }
    }

    open spec fn spec_description(&self) -> Seq<char> {
        node_description(*self)
    }

    fn get_left(&self) -> (r: Option<&Self>) {
        match &self.left_node {
            Some(l) => Some(&**l),
            None => None,
        }
    }

    fn get_right(&self) -> (r: Option<&Self>) {
        match &self.right_node {
            Some(r) => Some(&**r),
            None => None,
        }
    }

    fn display_string(&self) -> (s: String) {
        self.display()
    }
}

} // verus!
