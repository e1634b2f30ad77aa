//! Matches the operator that binds first.

use vstd::prelude::*;
use crate::precedences::is_high;
use crate::precedences::traits::MatchOperator;

verus! {

/// Matches `^`.
#[derive(Debug, Clone, Copy)]
pub struct HighPrecedenceMatcher;

impl MatchOperator for HighPrecedenceMatcher {
    open spec fn matches(&self, c: char) -> bool {
        is_high(c)
    }

    fn match_operator(&self, c: char) -> (r: bool) {
        match c {
            '^' => true,
            _ => false,
        }
    }
}

} // verus!
