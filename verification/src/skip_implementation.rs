//! The two conversion families that a union may ask the generator to leave out.

use vstd::prelude::*;
use vstd::string::*;

verus! {

/// A request to leave one family of conversion implementations out.
#[derive(Debug, PartialEq, Eq, Structural, Clone, Copy)]
pub enum SkipImplementation {
    /// Leave out the conversions from a wrapped value into the union.
    SkipFromImplementation,
    /// Leave out the conversions from the union back into a wrapped value.
    SkipTryIntoImplementation,
}

impl SkipImplementation {
    /// What a keyword asks for: `skip_from` and `skip_try_into` are the only keywords.
    pub open spec fn of_keyword(keyword: Seq<char>) -> Option<SkipImplementation> {
        if keyword == "skip_from"@ {
            Some(SkipImplementation::SkipFromImplementation)
        } else if keyword == "skip_try_into"@ {
            Some(SkipImplementation::SkipTryIntoImplementation)
        } else {
            None
        }
    }

    /// Reads a keyword of the annotation: `Some` for the two known keywords, `None` for
    /// every other text.
    pub fn from_str(string: &str) -> (r: Option<Self>)
        ensures
            r == Self::of_keyword(string@),
    {
        let given = String::from_str(string);
        if given == String::from_str("skip_from") {
            Some(SkipImplementation::SkipFromImplementation)
        } else if given == String::from_str("skip_try_into") {
            Some(SkipImplementation::SkipTryIntoImplementation)
        } else {
            None
        }
    }
}

} // verus!
