//! The tags under which arities and expected types are written in a stored
//! grammar.

use crate::structures::{ArgumentCount, ExpectedType, Text};
use vstd::prelude::*;

verus! {

/// The arity that a tag stands for, if the tag is known.
pub open spec fn arity_of_tag(tag: Text) -> Option<ArgumentCount> {
    if tag == "ARGS_SOME"@ {
        Some(ArgumentCount::Any())
    } else if tag == "ARGS_ATLEASTONE"@ {
        Some(ArgumentCount::AtLeastOne())
    } else if tag == "ARGS_ATMOSTONE"@ {
        Some(ArgumentCount::AtMostOne())
    } else {
        None
    }
}

/// The expected type that a tag stands for, if the tag is known.
pub open spec fn type_of_tag(tag: Text) -> Option<ExpectedType> {
    if tag == "DEFINED_PROFILE"@ {
        Some(ExpectedType::Profile())
    } else {
        None
    }
}

/// Whether two strings hold the same text.
fn same(a: &str, b: &str) -> (r: bool)
    ensures
        r == (a@ == b@),
{
    a.to_owned() == b.to_owned()
}

impl ArgumentCount {
    /// The arity written as a tag; `None` for a tag that is not known.
    pub fn from_tag(tag: &str) -> (r: Option<ArgumentCount>)
        ensures
            r == arity_of_tag(tag@),
    {
        if same(tag, "ARGS_SOME") {
            Some(ArgumentCount::Any())
        } else if same(tag, "ARGS_ATLEASTONE") {
            Some(ArgumentCount::AtLeastOne())
        } else if same(tag, "ARGS_ATMOSTONE") {
            Some(ArgumentCount::AtMostOne())
        } else {
            None
        }
    }
}

impl ExpectedType {
    /// The expected type written as a tag; `None` for a tag that is not known.
    pub fn from_tag(tag: &str) -> (r: Option<ExpectedType>)
        ensures
            r == type_of_tag(tag@),
    {
        if same(tag, "DEFINED_PROFILE") {
            Some(ExpectedType::Profile())
        } else {
            None
        }
    }
}

} // verus!
