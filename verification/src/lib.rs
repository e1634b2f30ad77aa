//! Arithmetic expressions as text: implicit products are made explicit, the
//! text is split at its weakest operator, and the pieces are assembled into a
//! binary operation tree.
//!
//! Every function states its result over `Seq<char>` views, so that the whole
//! path from raw text to tree is described by spec functions. The tree keeps
//! its operands as they are written; what they are worth, and what the tree
//! is worth, is floating-point arithmetic and left to the caller.

use vstd::prelude::*;

pub mod brackets;
pub mod eq_sanitize;
pub mod errors;
pub mod input_laws;
pub mod laws;
pub mod math_characters;
pub mod number;
pub mod operation_tree;
pub mod operators;
pub mod parentheses;
pub mod precedences;
pub mod search;
pub mod text;

use crate::brackets::{
    closes_all_at, first_span, lemma_balanced_cut, lemma_first_span_is, opens_at,
};
use crate::errors::SyntaxError;
use crate::operators::{
    lemma_precedence_split_shrinks, op_of, precedence_split, uncut, Operators, SplitOperator,
};
use crate::parentheses::{
    first_span_of, lemma_regroup_partition, split_by_parentheses_spec, SplitParentheses,
};
use crate::search::lemma_first_index;
use crate::text::slice_to_vec;

verus! {

/// The characters of an expression, in order.
pub type EquationString = Vec<char>;

/// The text `-1`, which stands for a minus in front of a bracket.
pub open spec fn minus_one() -> Seq<char> {
    seq!['-', '1']
}

/// One step of splitting: the two operands of the weakest operator of `s`,
/// and the operation; or `s` itself with `Operators::Leaf`, if `s` is an
/// operand.
///
/// - Brackets that do not match are an error.
/// - A text without brackets is split by precedence alone.
/// - Brackets around the whole text are dropped.
/// - A `-` in front of brackets that run to the end multiplies them by `-1`;
///   any other single character there is an error.
/// - Any other text is divided behind its first bracket pair, and the boundary
///   moved to an operator; if there is none, the text is an operand.
pub open spec fn split_spec(s: Seq<char>) -> Result<(Seq<char>, Seq<char>, Operators), SyntaxError>
    decreases s.len(),
{
    match first_span(s) {
        Err(e) => Err(e.as_syntax()),
        Ok(None) => Ok(precedence_split(s)),
        Ok(Some((open, close))) => {
            if open == 0 && close == s.len() - 1 {
                proof {
                    lemma_first_index(0, s.len() as int, opens_at(s));
                    lemma_first_index(0, s.len() as int, closes_all_at(s));
                }
                split_spec(s.subrange(1, s.len() - 1))
            } else if open == 1 && close == s.len() - 1 {
                if s[0] == '-' {
                    Ok((minus_one(), s.subrange(1, s.len() as int), Operators::Mult))
                } else {
                    Err(SyntaxError::InvalidOperatorBeforeBracket)
                }
            } else {
                let parts = split_by_parentheses_spec(s, close);
                if parts.1.len() == 0 {
                    Ok(uncut(parts.0))
                } else {
                    Ok((parts.0, parts.1.subrange(1, parts.1.len() as int), op_of(parts.1[0])))
                }
            }
        },
    }
}

/// Splitting an expression at its weakest operator.
pub trait FullSplit: Sized + View<V = Seq<char>> {
    /// The two operands of the weakest operator of the text, and the
    /// operation. An operand comes back whole, with `Operators::Leaf`.
    fn split(&self) -> (r: Result<(Self, Self, Operators), SyntaxError>)
        ensures
            match r {
                Ok((left, right, op)) => split_spec(self@) == Ok::<
                    (Seq<char>, Seq<char>, Operators),
                    SyntaxError,
                >((left@, right@, op)),
                Err(e) => split_spec(self@) == Err::<
                    (Seq<char>, Seq<char>, Operators),
                    SyntaxError,
                >(e),
            },
    ;
}

impl FullSplit for EquationString {
    fn split(&self) -> (r: Result<(Self, Self, Operators), SyntaxError>)
        decreases self@.len(),
    {
        let n: usize = self.len();
        let (open, close) = match first_span_of(self) {
            Err(e) => {
                return Err(e.to_syntax_error());
            },
            Ok(None) => {
                return Ok(self.split_by_precedence());
            },
            Ok(Some(span)) => span,
        };
        if open == 0 && close == n - 1 {
            // Brackets round the whole text.
            let inner: Vec<char> = slice_to_vec(self, 1, n - 1);
            return inner.split();
        }
        if open == 1 && close == n - 1 {
            // A sign in front of brackets that hold the rest.
            if self[0] == '-' {
                let left: Vec<char> = vec!['-', '1'];
                let right: Vec<char> = slice_to_vec(self, 1, n);
                assert(left@ == minus_one());
                return Ok((left, right, Operators::Mult));
            } else {
                return Err(SyntaxError::InvalidOperatorBeforeBracket);
            }
        }
        proof {
            lemma_balanced_cut(self@, close + 1);
        }
        let (left, right) = self.split_by_parentheses(open, close);
        if right.len() == 0 {
            assert(right@ =~= Seq::<char>::empty());
            return Ok((left, right, Operators::Leaf));
        }
        let operators = Operators::to_enum(right[0]);
        let right: Vec<char> = slice_to_vec(&right, 1, right.len());
        Ok((left, right, operators))
    }
}

/// Each operand that a split yields is shorter than the text that was split,
/// and a text that comes back as an operand has nothing on its right.
pub proof fn lemma_split_shrinks(s: Seq<char>)
    ensures
        match split_spec(s) {
            Ok((left, right, op)) => if op == Operators::Leaf {
                right.len() == 0 && left.len() <= s.len()
            } else {
                left.len() < s.len() && right.len() < s.len()
            },
            Err(_) => true,
        },
    decreases s.len(),
{
    let n = s.len() as int;
    match first_span(s) {
        Err(_) => {},
        Ok(None) => {
            lemma_precedence_split_shrinks(s);
        },
        Ok(Some((open, close))) => {
            lemma_first_span_is(s);
            if open == 0 && close == n - 1 {
                lemma_split_shrinks(s.subrange(1, n - 1));
            } else if open == 1 && close == n - 1 {
            } else {
                lemma_regroup_partition(s.subrange(0, close + 1), s.subrange(close + 1, n));
                assert(s.subrange(0, close + 1) + s.subrange(close + 1, n) =~= s);
                let parts = split_by_parentheses_spec(s, close);
                assert((parts.0 + parts.1).len() == parts.0.len() + parts.1.len());
            }
        },
    }
}

} // verus!
