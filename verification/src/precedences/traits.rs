//! The interface of a character matcher.

use vstd::prelude::*;

verus! {

/// A set of characters, given by a test.
pub trait MatchOperator {
    /// The characters of the set.
    spec fn matches(&self, c: char) -> bool;

    /// Whether `c` belongs to the set.
    fn match_operator(&self, c: char) -> (r: bool)
        ensures
            r == self.matches(c),
    ;
}

} // verus!
