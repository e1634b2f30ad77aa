//! Matches the multiplicative operators.

use vstd::prelude::*;
use crate::precedences::is_medium;
use crate::precedences::traits::MatchOperator;

verus! {

/// Matches `*` and `/`.
#[derive(Debug, Clone, Copy)]
pub struct MediumPrecendenceMatcher {}

impl MatchOperator for MediumPrecendenceMatcher {
    open spec fn matches(&self, c: char) -> bool {
        is_medium(c)
    }

    fn match_operator(&self, c: char) -> (r: bool) {
        match c {
            '*' | '/' => true,
            _ => false,
        }
    }
}

} // verus!
