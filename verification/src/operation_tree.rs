//! The operation tree of an expression: the weakest operator at the root,
//! operands at the leaves.

use vstd::prelude::*;
use crate::eq_sanitize::{sanitized, EqSanitize};
use crate::errors::SyntaxError;
use crate::math_characters::{
    constant_of, constant_position, match_math_constant, math_character_position, MathConstant,
};
use crate::number::{check_number, float_literal, number_error};
use crate::operators::Operators;
use crate::text::slice_to_vec;
use crate::{lemma_split_shrinks, split_spec, EquationString, FullSplit};

verus! {

/// An operand as it is written. Its number is kept as text, and a constant by
/// its name; neither is computed here.
#[derive(Debug, PartialEq, Eq)]
pub enum Operand {
    /// A decimal literal.
    Number(Vec<char>),
    /// A named constant.
    Constant(MathConstant),
    /// A decimal literal times the named constant written behind it.
    Scaled(Vec<char>, MathConstant),
}

/// What an [`Operand`] holds.
pub enum OperandView {
    /// A decimal literal.
    Number(Seq<char>),
    /// A named constant.
    Constant(MathConstant),
    /// A decimal literal times a named constant.
    Scaled(Seq<char>, MathConstant),
}

impl View for Operand {
    type V = OperandView;

    open spec fn view(&self) -> OperandView {
        match self {
            Operand::Number(digits) => OperandView::Number(digits@),
            Operand::Constant(constant) => OperandView::Constant(*constant),
            Operand::Scaled(digits, constant) => OperandView::Scaled(digits@, *constant),
        }
    }
}

impl OperandView {
    /// The number of the operand is a decimal literal.
    pub open spec fn valid(self) -> bool {
        match self {
            OperandView::Number(digits) => float_literal(digits),
            OperandView::Constant(_) => true,
            OperandView::Scaled(digits, _) => float_literal(digits),
        }
    }

    /// The operand `0`.
    pub open spec fn zero() -> OperandView {
        OperandView::Number(seq!['0'])
    }
}

/// An expression: an operand, or an operation on two expressions.
pub enum Expr {
    /// An operand.
    Unit(OperandView),
    /// An operation, with its left and its right operand.
    Operation(Operators, Box<Expr>, Box<Expr>),
}

/// A child of an operation node.
#[derive(Debug)]
pub enum NodeValue {
    /// An operand.
    UnitValue(Operand),
    /// A subtree.
    OperationValue(OperationNode),
}

/// A node of the operation tree. With `Operators::Leaf` it stands for the
/// operand in `left_node`; with any other operation, for that operation on
/// its two children.
#[derive(Debug)]
pub struct OperationNode {
    pub operation: Operators,
    pub left_node: Box<NodeValue>,
    pub right_node: Box<NodeValue>,
}

impl NodeValue {
    /// The expression that the child stands for.
    pub open spec fn expr(&self) -> Expr
        decreases self,
    {
        match self {
            NodeValue::UnitValue(unit) => Expr::Unit(unit@),
            NodeValue::OperationValue(node) => node.expr(),
        }
    }

    /// The child is built as [`OperationNode::create`] builds it.
    pub open spec fn well_formed(&self) -> bool
        decreases self,
    {
        match self {
            NodeValue::UnitValue(unit) => unit@.valid(),
            NodeValue::OperationValue(node) => node.well_formed(),
        }
    }
}

impl OperationNode {
    /// The expression that the node stands for. A node with
    /// `Operators::Leaf` whose left child is no operand stands for `0`.
    pub open spec fn expr(&self) -> Expr
        decreases self,
    {
        if self.operation == Operators::Leaf {
            match *self.left_node {
                NodeValue::UnitValue(unit) => Expr::Unit(unit@),
                NodeValue::OperationValue(_) => Expr::Unit(OperandView::zero()),
            }
        } else {
            Expr::Operation(
                self.operation,
                Box::new(self.left_node.expr()),
                Box::new(self.right_node.expr()),
            )
        }
    }

    /// The node is built as [`OperationNode::create`] builds it: an operand
    /// is a valid operand beside the operand `0`, and an operation has two
    /// subtrees of the same kind.
    pub open spec fn well_formed(&self) -> bool
        decreases self,
    {
        if self.operation == Operators::Leaf {
            &&& *self.left_node matches NodeValue::UnitValue(unit)
            &&& unit@.valid()
            &&& *self.right_node matches NodeValue::UnitValue(other)
            &&& other@ == OperandView::zero()
        } else {
            &&& *self.left_node matches NodeValue::OperationValue(left)
            &&& left.well_formed()
            &&& *self.right_node matches NodeValue::OperationValue(right)
            &&& right.well_formed()
        }
    }
}

impl View for OperationNode {
    type V = Expr;

    open spec fn view(&self) -> Expr {
        self.expr()
    }
}

/// The operand that `s` is written as.
///
/// - A text that names a constant at its start is that constant, and must
///   hold nothing else.
/// - A text that names a constant further on is the number in front of the
///   name, times the constant; nothing may follow the name.
/// - Any other text is a number.
pub open spec fn operand_spec(s: Seq<char>) -> Result<OperandView, SyntaxError> {
    match constant_position(s) {
        Some((index, name)) => {
            if index == 0 {
                if s.len() == name.len() {
                    Ok(OperandView::Constant(constant_of(name).unwrap()))
                } else {
                    Err(SyntaxError::InvalidSyntax)
                }
            } else {
                match number_error(s.subrange(0, index)) {
                    Some(e) => Err(e),
                    None => if index + name.len() == s.len() {
                        Ok(OperandView::Scaled(s.subrange(0, index), constant_of(name).unwrap()))
                    } else {
                        Err(SyntaxError::InvalidSyntax)
                    },
                }
            }
        },
        None => match number_error(s) {
            Some(e) => Err(e),
            None => Ok(OperandView::Number(s)),
        },
    }
}

/// The expression that `s` is written as: `s` is split at its weakest
/// operator, and each side is built in the same way, the left one first; a
/// text that is not split is an operand. The first error ends the build.
pub open spec fn build_spec(s: Seq<char>) -> Result<Expr, SyntaxError>
    decreases s.len(),
{
    match split_spec(s) {
        Err(e) => Err(e),
        Ok((left, right, op)) => {
            if op == Operators::Leaf {
                match operand_spec(left) {
                    Err(e) => Err(e),
                    Ok(unit) => Ok(Expr::Unit(unit)),
                }
            } else {
                proof {
                    lemma_split_shrinks(s);
                }
                match build_spec(left) {
                    Err(e) => Err(e),
                    Ok(left_expr) => match build_spec(right) {
                        Err(e) => Err(e),
                        Ok(right_expr) => Ok(
                            Expr::Operation(op, Box::new(left_expr), Box::new(right_expr)),
                        ),
                    },
                }
            }
        },
    }
}

/// The operand that `text` is written as.
pub fn resolve_operand(text: &Vec<char>) -> (r: Result<Operand, SyntaxError>)
    ensures
        match r {
            Ok(unit) => operand_spec(text@) == Ok::<OperandView, SyntaxError>(unit@)
                && unit@.valid(),
            Err(e) => operand_spec(text@) == Err::<OperandView, SyntaxError>(e),
        },
{
    let n: usize = text.len();
    match math_character_position(slice_to_vec(text, 0, n)) {
        Some((index, name)) => {
            assert(text@.subrange(0, n as int) == text@);
            let constant: MathConstant = match match_math_constant(&name) {
                Some(c) => c,
                None => {
                    return Err(SyntaxError::InvalidSyntax);
                },
            };
            if index == 0 {
                if n == name.len() {
                    Ok(Operand::Constant(constant))
                } else {
                    Err(SyntaxError::InvalidSyntax)
                }
            } else {
                let digits: Vec<char> = slice_to_vec(text, 0, index);
                match check_number(&digits) {
                    Err(e) => Err(e),
                    Ok(_) => {
                        if index + name.len() == n {
                            Ok(Operand::Scaled(digits, constant))
                        } else {
                            Err(SyntaxError::InvalidSyntax)
                        }
                    },
                }
            }
        },
        None => {
            assert(text@.subrange(0, n as int) == text@);
            match check_number(text) {
                Err(e) => Err(e),
                Ok(_) => Ok(Operand::Number(slice_to_vec(text, 0, n))),
            }
        },
    }
}

impl OperationNode {
    /// The operation tree of the text `eq`: white space is removed and
    /// implicit products are written out, then the tree is built.
    pub fn new(eq: &str) -> (r: Result<Self, SyntaxError>)
        ensures
            match r {
                Ok(node) => build_spec(sanitized(eq@)) == Ok::<Expr, SyntaxError>(node@)
                    && node.well_formed(),
                Err(e) => build_spec(sanitized(eq@)) == Err::<Expr, SyntaxError>(e),
            },
    {
        let eq: Vec<char> = EquationString::remove_whitespaces(eq);
        let eq: Vec<char> = match eq.handle_special_character_multiplication() {
            Err(t) => {
                return Err(t);
            },
            Ok(eq) => eq,
        };
        let eq: Vec<char> = match eq.handle_direct_multiplication() {
            Err(t) => {
                return Err(t);
            },
            Ok(eq) => eq,
        };
        Self::create(eq)
    }

    /// The operation tree of `eq`, which is taken as it stands.
    pub fn create(eq: EquationString) -> (r: Result<Self, SyntaxError>)
        ensures
            match r {
                Ok(node) => build_spec(eq@) == Ok::<Expr, SyntaxError>(node@)
                    && node.well_formed(),
                Err(e) => build_spec(eq@) == Err::<Expr, SyntaxError>(e),
            },
        decreases eq@.len(),
    {
        let (left, right, operator) = match eq.split() {
            Err(t) => {
                return Err(t);
            },
            Ok(parts) => parts,
        };
        if operator == Operators::Leaf {
            let unit: Operand = match resolve_operand(&left) {
                Err(t) => {
                    return Err(t);
                },
                Ok(unit) => unit,
            };
            let zero: Vec<char> = vec!['0'];
            assert(zero@ == seq!['0']);
            return Ok(
                OperationNode {
                    operation: Operators::Leaf,
                    left_node: Box::new(NodeValue::UnitValue(unit)),
                    right_node: Box::new(NodeValue::UnitValue(Operand::Number(zero))),
                },
            );
        }
        proof {
            lemma_split_shrinks(eq@);
        }
        let left_node: OperationNode = match Self::create(left) {
            Err(t) => {
                return Err(t);
            },
            Ok(node) => node,
        };
        let right_node: OperationNode = match Self::create(right) {
            Err(t) => {
                return Err(t);
            },
            Ok(node) => node,
        };
        Ok(
            OperationNode {
                operation: operator,
                left_node: Box::new(NodeValue::OperationValue(left_node)),
                right_node: Box::new(NodeValue::OperationValue(right_node)),
            },
        )
    }
}

} // verus!
