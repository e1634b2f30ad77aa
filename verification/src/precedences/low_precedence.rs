//! Matches the operators that bind last.

use vstd::prelude::*;
use crate::precedences::is_low;
use crate::precedences::traits::MatchOperator;

verus! {

/// Matches `+` and `-`.
#[derive(Debug, Clone, Copy)]
pub struct LowPrecedenceMatcher {}

impl MatchOperator for LowPrecedenceMatcher {
    open spec fn matches(&self, c: char) -> bool {
        is_low(c)
    }

    fn match_operator(&self, c: char) -> (r: bool) {
        match c {
            '+' | '-' => true,
            _ => false,
        }
    }
}

} // verus!
