//! Matches every operator character.

use vstd::prelude::*;
use crate::precedences::is_op;
use crate::precedences::traits::MatchOperator;

verus! {

/// Matches `+`, `-`, `*`, `/` and `^`.
#[derive(Debug, Clone, Copy)]
pub struct AllMatcher;

impl MatchOperator for AllMatcher {
    open spec fn matches(&self, c: char) -> bool {
        is_op(c)
    }

    fn match_operator(&self, c: char) -> (r: bool) {
        match c {
            '+' | '-' | '*' | '/' | '^' => true,
            _ => false,
        }
    }
}

} // verus!
