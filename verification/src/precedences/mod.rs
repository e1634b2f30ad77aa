//! Operator characters and their precedence tiers.

use vstd::prelude::*;

pub mod all_matcher;
pub mod high_precedence;
pub mod low_precedence;
pub mod medium_precedence;
pub mod traits;

use crate::precedences::traits::MatchOperator;

verus! {

/// How tightly an operator binds. `Low` binds last and so sits highest in a
/// tree.
#[derive(Debug, Clone, Copy, PartialEq, Eq, Structural, PartialOrd, Ord)]
pub enum PrecedenceTier {
    /// `+` and `-`.
    Low,
    /// `*` and `/`.
    Medium,
    /// `^`.
    High,
}

/// `c` is `+` or `-`.
pub open spec fn is_low(c: char) -> bool {
    c == '+' || c == '-'
}

/// `c` is `*` or `/`.
pub open spec fn is_medium(c: char) -> bool {
    c == '*' || c == '/'
}

/// `c` is `^`.
pub open spec fn is_high(c: char) -> bool {
    c == '^'
}

/// `c` is one of the five operator characters.
pub open spec fn is_op(c: char) -> bool {
    is_low(c) || is_medium(c) || is_high(c)
}

/// The tier of `c`, if it is an operator character.
pub open spec fn tier_of(c: char) -> Option<PrecedenceTier> {
    if is_low(c) {
        Some(PrecedenceTier::Low)
    } else if is_medium(c) {
        Some(PrecedenceTier::Medium)
    } else if is_high(c) {
        Some(PrecedenceTier::High)
    } else {
        None
    }
}

/// The tier of `c`, or `None` if `c` is no operator.
pub fn classify(c: char) -> (tier: Option<PrecedenceTier>)
    ensures
        tier == tier_of(c),
{
    match c {
        '+' | '-' => Some(PrecedenceTier::Low),
        '*' | '/' => Some(PrecedenceTier::Medium),
        '^' => Some(PrecedenceTier::High),
        _ => None,
    }
}

/// Whether `c` is an operator character.
pub fn is_operator(c: char) -> (b: bool)
    ensures
        b == is_op(c),
        b == tier_of(c).is_some(),
{
    classify(c).is_some()
}

impl MatchOperator for PrecedenceTier {
    open spec fn matches(&self, c: char) -> bool {
        tier_of(c) == Some(*self)
    }

    fn match_operator(&self, c: char) -> (r: bool) {
        match classify(c) {
            Some(t) => t == *self,
            None => false,
        }
    }
}

/// The three tiers, from the one that binds last to the one that binds first.
pub open spec fn tiers_in_order() -> Seq<PrecedenceTier> {
    seq![PrecedenceTier::Low, PrecedenceTier::Medium, PrecedenceTier::High]
}

/// One matcher for each tier, from lowest to highest precedence.
pub fn get_all_precedence_matchers() -> (matchers: Vec<PrecedenceTier>)
    ensures
        matchers@ == tiers_in_order(),
{
    let mut matchers: Vec<PrecedenceTier> = Vec::new();
    matchers.push(PrecedenceTier::Low);
    matchers.push(PrecedenceTier::Medium);
    matchers.push(PrecedenceTier::High);
    matchers
}

/// The same list as [`get_all_precedence_matchers`], built in one step.
pub fn get_all_precedence_matchers2() -> (matchers: Vec<PrecedenceTier>)
    ensures
        matchers@ == tiers_in_order(),
{
    let matchers: Vec<PrecedenceTier> = vec![
        PrecedenceTier::Low,
        PrecedenceTier::Medium,
        PrecedenceTier::High,
    ];
    matchers
}

} // verus!
