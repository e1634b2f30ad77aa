//! What holds of the operation tree of every text.

use vstd::prelude::*;
use crate::brackets::{
    balanced, bracket_free, closes_all_at, closes_early, depth, first_span, lemma_balanced_concat,
    lemma_balanced_cut, lemma_balanced_interior, lemma_bracket_free_balanced,
    lemma_bracket_free_span, lemma_depth_concat, lemma_first_span_is, lemma_first_span_none,
    opens_at, paren_delta,
};
use crate::eq_sanitize::is_digit;
use crate::errors::{ParenError, SyntaxError};
use crate::math_characters::{
    constant_position, first_of, first_pi_word, holds_at, holds_pi_at,
};
use crate::number::{
    either_at, first_either, float_literal, is_letter, is_number, spells, unsigned_from, word_inf,
    word_infinity, word_nan,
};
use crate::operation_tree::{build_spec, operand_spec, Expr};
use crate::operators::{
    binary_low_at, cut, first_binary_low, last_high, last_medium, lemma_precedence_split_shrinks,
    matched_at, op_of, precedence_split, uncut, Operators,
};
use crate::parentheses::{
    first_outer_low, lemma_regroup_partition, outer_at, outer_low_at, regroup_spec,
    whole_split_point,
};
use crate::precedences::high_precedence::HighPrecedenceMatcher;
use crate::precedences::medium_precedence::MediumPrecendenceMatcher;
use crate::precedences::{is_high, is_medium, is_op};
use crate::search::{
    last_index, lemma_first_index, lemma_first_index_is, lemma_last_index, lemma_last_index_is,
};
use crate::{lemma_split_shrinks, minus_one, split_spec};

verus! {

/// `s` between a pair of brackets.
pub open spec fn bracketed(s: Seq<char>) -> Seq<char> {
    seq!['('] + s + seq![')']
}

/// Brackets round a whole balanced text change nothing: the text splits, and
/// builds, as it does without them.
pub proof fn law_outer_brackets(s: Seq<char>)
    requires
        balanced(s),
    ensures
        split_spec(bracketed(s)) == split_spec(s),
        build_spec(bracketed(s)) == build_spec(s),
{
    let b = bracketed(s);
    let n = b.len() as int;
    assert(n == s.len() + 2);
    let head = seq!['('] + s;
    assert forall|i: int| 1 <= i < n implies #[trigger] depth(b, i) == 1 + depth(s, i - 1) by {
        lemma_depth_concat(head, seq![')'], i);
        lemma_depth_concat(seq!['('], s, i);
        assert(depth(seq!['('], 1) == 1) by {
            assert(depth(seq!['('], 0) == 0);
        }
    }
    assert(depth(b, 0) == 0);
    assert(depth(b, n) == depth(b, n - 1) + paren_delta(b[n - 1]));
    assert(depth(s, s.len() as int) == 0);
    assert(depth(b, n) == 0);
    assert forall|i: int| 0 <= i <= n implies depth(b, i) >= 0 by {
        if 1 <= i < n {
            assert(depth(s, i - 1) >= 0);
        }
    }
    lemma_first_index_is(0, n, opens_at(b), 0);
    assert forall|j: int| 0 <= j < n - 1 implies !#[trigger] closes_all_at(b)(j) by {
        assert(depth(s, j) >= 0);
        assert(depth(b, j + 1) == 1 + depth(s, j));
    }
    lemma_first_index_is(0, n, closes_all_at(b), n - 1);
    assert(first_span(b) == Ok::<Option<(int, int)>, ParenError>(Some((0int, n - 1))));
    assert(b.subrange(1, n - 1) == s);
}

/// A decimal literal holds no bracket.
pub proof fn lemma_literal_bracket_free(s: Seq<char>)
    requires
        float_literal(s),
    ensures
        bracket_free(s),
{
    let n = s.len() as int;
    let from = unsigned_from(s, 0, n);
    assert forall|i: int| 0 <= i < n implies s[i] != '(' && s[i] != ')' by {
        if i >= from {
            if spells(s, from, n, word_inf()) {
                assert(is_letter(s[from + (i - from)], word_inf()[i - from]));
            } else if spells(s, from, n, word_infinity()) {
                assert(is_letter(s[from + (i - from)], word_infinity()[i - from]));
            } else if spells(s, from, n, word_nan()) {
                assert(is_letter(s[from + (i - from)], word_nan()[i - from]));
            } else {
                lemma_number_bracket_free(s, from, n, i);
            }
        }
    }
}

/// A number holds no bracket.
proof fn lemma_number_bracket_free(s: Seq<char>, from: int, to: int, i: int)
    requires
        is_number(s, from, to),
        0 <= from <= i < to <= s.len(),
    ensures
        s[i] != '(' && s[i] != ')',
{
    let mark = first_either(s, from, to, 'e', 'E');
    lemma_first_index(from, to, either_at(s, 'e', 'E'));
    let end = mark;
    let dot = first_either(s, from, end, '.', '.');
    lemma_first_index(from, end, either_at(s, '.', '.'));
    if i < end {
        if i != dot {
            assert(is_digit(s[i]));
        } else {
            assert(either_at(s, '.', '.')(dot));
        }
    } else if i == mark {
        assert(either_at(s, 'e', 'E')(mark));
    } else {
        let start = unsigned_from(s, mark + 1, to);
        if i >= start {
            assert(is_digit(s[i]));
        }
    }
}

/// A decimal literal between brackets builds as the literal alone does.
pub proof fn law_bracketed_literal(n: Seq<char>)
    requires
        float_literal(n),
    ensures
        build_spec(bracketed(n)) == build_spec(n),
{
    lemma_literal_bracket_free(n);
    lemma_bracket_free_balanced(n);
    law_outer_brackets(n);
}

/// Index of the last `+` or `-` of `s` that follows an operand character, or
/// `0`.
pub open spec fn last_binary_low(s: Seq<char>) -> int {
    if s.len() == 0 {
        0
    } else {
        last_index(1, s.len() as int, binary_low_at(s))
    }
}

/// A text without brackets, split as the usual grammar of expressions has
/// it, with every operator associating to the left: at the last `+` or `-`
/// between operands; else at the last `*` or `/`; else at the last `^`.
pub open spec fn standard_split(s: Seq<char>) -> (Seq<char>, Seq<char>, Operators) {
    if last_binary_low(s) > 0 {
        cut(s, last_binary_low(s))
    } else if last_medium(s) >= 0 {
        cut(s, last_medium(s))
    } else if last_high(s) >= 0 {
        cut(s, last_high(s))
    } else {
        uncut(s)
    }
}

/// The expression that a text without brackets is written as in the usual
/// grammar, with every operator associating to the left.
pub open spec fn standard_spec(s: Seq<char>) -> Result<Expr, SyntaxError>
    decreases s.len(),
{
    let parts = standard_split(s);
    if parts.2 == Operators::Leaf {
        match operand_spec(parts.0) {
            Err(e) => Err(e),
            Ok(unit) => Ok(Expr::Unit(unit)),
        }
    } else {
        proof {
            lemma_standard_split_shrinks(s);
        }
        match standard_spec(parts.0) {
            Err(e) => Err(e),
            Ok(left_expr) => match standard_spec(parts.1) {
                Err(e) => Err(e),
                Ok(right_expr) => Ok(
                    Expr::Operation(parts.2, Box::new(left_expr), Box::new(right_expr)),
                ),
            },
        }
    }
}

/// The operands of a standard split are shorter than the text.
pub proof fn lemma_standard_split_shrinks(s: Seq<char>)
    ensures
        standard_split(s).2 != Operators::Leaf ==> standard_split(s).0.len() < s.len()
            && standard_split(s).1.len() < s.len(),
{
    let n = s.len() as int;
    if n > 0 {
        lemma_last_index(1, n, binary_low_at(s));
    }
    lemma_last_index(0, n, matched_at(s, MediumPrecendenceMatcher {  }));
    lemma_last_index(0, n, matched_at(s, HighPrecedenceMatcher));
}

/// `s` has at most one `+` or `-` that stands between two operands.
pub open spec fn at_most_one_binary_low(s: Seq<char>) -> bool {
    forall|i: int, j: int|
        1 <= i < j < s.len() ==> !(#[trigger] binary_low_at(s)(i) && #[trigger] binary_low_at(
            s,
        )(j))
}

/// `s` has no `+` or `-` that stands between two operands.
pub open spec fn no_binary_low(s: Seq<char>) -> bool {
    forall|i: int| 1 <= i < s.len() ==> !#[trigger] binary_low_at(s)(i)
}

/// A text that starts with `*`, `/` or `^` is no decimal literal.
proof fn lemma_leading_operator_is_no_literal(s: Seq<char>)
    requires
        s.len() > 0,
        is_medium(s[0]) || is_high(s[0]),
    ensures
        !float_literal(s),
{
    let n = s.len() as int;
    assert(unsigned_from(s, 0, n) == 0);
    assert(!spells(s, 0, n, word_inf())) by {
        if spells(s, 0, n, word_inf()) {
            assert(is_letter(s[0int + 0], word_inf()[0]));
        }
    }
    assert(!spells(s, 0, n, word_infinity())) by {
        if spells(s, 0, n, word_infinity()) {
            assert(is_letter(s[0int + 0], word_infinity()[0]));
        }
    }
    assert(!spells(s, 0, n, word_nan())) by {
        if spells(s, 0, n, word_nan()) {
            assert(is_letter(s[0int + 0], word_nan()[0]));
        }
    }
    let mark = first_either(s, 0, n, 'e', 'E');
    lemma_first_index(0, n, either_at(s, 'e', 'E'));
    if mark < n {
        assert(either_at(s, 'e', 'E')(mark));
    }
    let dot = first_either(s, 0, mark, '.', '.');
    lemma_first_index(0, mark, either_at(s, '.', '.'));
    if dot < mark {
        assert(either_at(s, '.', '.')(dot));
    }
    if is_number(s, 0, n) {
        if dot > 0 {
            assert(is_digit(s[0]));
        }
    }
}

/// A text that starts with `*`, `/` or `^` is no operand.
proof fn lemma_leading_operator_is_no_operand(s: Seq<char>)
    requires
        s.len() > 0,
        is_medium(s[0]) || is_high(s[0]),
    ensures
        operand_spec(s) is Err,
{
    let n = s.len() as int;
    lemma_first_index(0, n, holds_at(s, 'π'));
    lemma_first_index(0, n, holds_at(s, 'e'));
    lemma_first_index(0, n, holds_pi_at(s));
    match constant_position(s) {
        Some((index, name)) => {
            assert(index < n);
            assert(index > 0) by {
                if first_of(s, 'π') < n {
                    assert(holds_at(s, 'π')(first_of(s, 'π')));
                } else if first_of(s, 'e') < n {
                    assert(holds_at(s, 'e')(first_of(s, 'e')));
                } else {
                    assert(holds_pi_at(s)(first_pi_word(s)));
                }
            }
            let head = s.subrange(0, index);
            assert(head[0] == s[0]);
            lemma_leading_operator_is_no_literal(head);
        },
        None => {
            lemma_leading_operator_is_no_literal(s);
        },
    }
}

/// The parts of a text cut at an operator hold no bracket and no `+` or `-`
/// between operands, if the text holds none.
proof fn lemma_cut_keeps_plain(s: Seq<char>, k: int)
    requires
        bracket_free(s),
        0 <= k < s.len(),
        forall|i: int| 1 <= i < s.len() && i != k ==> !#[trigger] binary_low_at(s)(i),
    ensures
        bracket_free(cut(s, k).0),
        bracket_free(cut(s, k).1),
        no_binary_low(cut(s, k).0),
        no_binary_low(cut(s, k).1),
{
    let left = cut(s, k).0;
    let right = cut(s, k).1;
    assert forall|i: int| 1 <= i < left.len() implies !#[trigger] binary_low_at(left)(i) by {
        assert(!binary_low_at(s)(i));
        assert(left[i] == s[i] && left[i - 1] == s[i - 1]);
    }
    assert forall|i: int| 1 <= i < right.len() implies !#[trigger] binary_low_at(right)(i) by {
        assert(!binary_low_at(s)(k + 1 + i));
        assert(right[i] == s[k + 1 + i] && right[i - 1] == s[k + 1 + i - 1]);
    }
}

/// A text without brackets and without a `+` or `-` between operands, if it
/// has a tree at all, has the tree of the usual grammar.
proof fn lemma_products_are_standard(s: Seq<char>)
    requires
        bracket_free(s),
        no_binary_low(s),
        build_spec(s) is Ok,
    ensures
        build_spec(s) == standard_spec(s),
    decreases s.len(),
{
    let n = s.len() as int;
    lemma_bracket_free_span(s);
    assert(split_spec(s) == Ok::<(Seq<char>, Seq<char>, Operators), SyntaxError>(
        precedence_split(s),
    ));
    if n > 0 {
        lemma_first_index_is(1, n, binary_low_at(s), n);
        lemma_last_index_is(1, n, binary_low_at(s), 0);
    }
    let medium = matched_at(s, MediumPrecendenceMatcher {  });
    let high = matched_at(s, HighPrecedenceMatcher);
    lemma_last_index(0, n, medium);
    lemma_last_index(0, n, high);
    let k = if last_medium(s) >= 0 {
        last_medium(s)
    } else {
        last_high(s)
    };
    if k == 0 {
        assert(medium(0) || high(0));
        assert(precedence_split(s) == uncut(s));
        lemma_leading_operator_is_no_operand(s);
    } else if k > 0 {
        assert(medium(k) || high(k));
        assert(precedence_split(s) == cut(s, k));
        assert(standard_split(s) == cut(s, k));
        assert(op_of(s[k]) != Operators::Leaf);
        lemma_cut_keeps_plain(s, k);
        lemma_products_are_standard(cut(s, k).0);
        lemma_products_are_standard(cut(s, k).1);
    } else {
        assert(precedence_split(s) == uncut(s));
        assert(standard_split(s) == uncut(s));
    }
}

/// A text without brackets that has a tree, and at most one `+` or `-`
/// between operands, has the tree that the usual grammar of expressions
/// gives it, in which `^` binds before `*` and `/`, these before `+` and
/// `-`, and each associates to the left. A sign belongs to the operand
/// behind it.
pub proof fn law_standard_precedence(s: Seq<char>)
    requires
        bracket_free(s),
        at_most_one_binary_low(s),
        build_spec(s) is Ok,
    ensures
        build_spec(s) == standard_spec(s),
{
    let n = s.len() as int;
    if n > 0 {
        lemma_first_index(1, n, binary_low_at(s));
        lemma_last_index(1, n, binary_low_at(s));
    }
    let k = first_binary_low(s);
    if k < n {
        lemma_bracket_free_span(s);
        assert(binary_low_at(s)(k));
        assert(last_binary_low(s) == k) by {
            if last_binary_low(s) != k {
                assert(binary_low_at(s)(last_binary_low(s)));
            }
        }
        assert(precedence_split(s) == cut(s, k));
        assert(standard_split(s) == cut(s, k));
        assert(op_of(s[k]) != Operators::Leaf);
        assert forall|i: int| 1 <= i < n && i != k implies !#[trigger] binary_low_at(s)(i) by {
            if binary_low_at(s)(i) {
                if i < k {
                    assert(!(binary_low_at(s)(i) && binary_low_at(s)(k)));
                } else {
                    assert(!(binary_low_at(s)(k) && binary_low_at(s)(i)));
                }
            }
        }
        lemma_cut_keeps_plain(s, k);
        lemma_products_are_standard(cut(s, k).0);
        lemma_products_are_standard(cut(s, k).1);
    } else {
        assert(no_binary_low(s));
        lemma_products_are_standard(s);
    }
}

/// Every piece of a text without brackets is without brackets.
proof fn lemma_bracket_free_subrange(s: Seq<char>, a: int, b: int)
    requires
        bracket_free(s),
        0 <= a <= b <= s.len(),
    ensures
        bracket_free(s.subrange(a, b)),
        balanced(s.subrange(a, b)),
{
    lemma_bracket_free_balanced(s.subrange(a, b));
}

/// Cut at an operator outside all brackets, a balanced text leaves balanced
/// texts on both sides of the operator.
proof fn lemma_balanced_around_operator(s: Seq<char>, k: int)
    requires
        balanced(s),
        0 <= k < s.len(),
        depth(s, k) == 0,
        is_op(s[k]),
    ensures
        balanced(s.subrange(0, k)),
        balanced(s.subrange(k, s.len() as int)),
        balanced(s.subrange(k + 1, s.len() as int)),
{
    assert(depth(s, k + 1) == depth(s, k) + paren_delta(s[k]));
    lemma_balanced_cut(s, k);
    lemma_balanced_cut(s, k + 1);
}

/// Regrouping the two balanced parts of a text leaves balanced texts on both
/// sides of the operator at which it divides them.
proof fn lemma_regroup_balanced(left: Seq<char>, right: Seq<char>)
    requires
        balanced(left),
        balanced(right),
    ensures
        balanced(regroup_spec(left, right).0),
        regroup_spec(left, right).1.len() > 0 ==> balanced(
            regroup_spec(left, right).1.subrange(1, regroup_spec(left, right).1.len() as int),
        ),
{
    let k = first_outer_low(right, 0);
    let m = right.len() as int;
    if 0 < m {
        lemma_first_index(0, m, outer_low_at(right, 0));
    }
    if k < m {
        assert(outer_low_at(right, 0)(k));
        lemma_balanced_around_operator(right, k);
        lemma_balanced_concat(left, right.subrange(0, k));
        assert(right.subrange(k, m).subrange(1, m - k) == right.subrange(k + 1, m));
    } else {
        assert(right.subrange(0, k) == right);
        let s = left + right;
        lemma_balanced_concat(left, right);
        let n = s.len() as int;
        if 1 < n {
            lemma_first_index(1, n, outer_low_at(s, 1));
        }
        let medium = outer_at(s, MediumPrecendenceMatcher {  });
        let high = outer_at(s, HighPrecedenceMatcher);
        lemma_last_index(0, n, medium);
        lemma_last_index(0, n, high);
        let p = whole_split_point(s);
        if p < n {
            assert(outer_low_at(s, 1)(p) || medium(p) || high(p));
            lemma_balanced_around_operator(s, p);
            assert(s.subrange(p, n).subrange(1, n - p) == s.subrange(p + 1, n));
        } else {
            assert(s.subrange(0, n) == s);
        }
    }
}

/// The operands into which a balanced text splits are balanced, and the
/// split can fail in one way only.
pub proof fn lemma_split_keeps_balance(s: Seq<char>)
    requires
        balanced(s),
    ensures
        match split_spec(s) {
            Ok((left, right, _)) => balanced(left) && balanced(right),
            Err(e) => e == SyntaxError::InvalidOperatorBeforeBracket,
        },
    decreases s.len(),
{
    let n = s.len() as int;
    match first_span(s) {
        Err(_) => {},
        Ok(None) => {
            lemma_first_span_none(s);
            lemma_precedence_split_shrinks(s);
            lemma_bracket_free_subrange(s, 0, 0);
            assert(s.subrange(0, 0) == Seq::<char>::empty());
            if precedence_split(s) != uncut(s) {
                let k = choose|k: int|
                    0 < k < s.len() && is_op(s[k]) && #[trigger] cut(s, k) == precedence_split(s);
                lemma_bracket_free_subrange(s, 0, k);
                lemma_bracket_free_subrange(s, k + 1, n);
            }
        },
        Ok(Some((open, close))) => {
            lemma_first_span_is(s);
            if open == 0 && close == n - 1 {
                lemma_balanced_interior(s);
                lemma_split_keeps_balance(s.subrange(1, n - 1));
            } else if open == 1 && close == n - 1 {
                if s[0] == '-' {
                    assert(depth(s, 1) == depth(s, 0) + paren_delta(s[0]));
                    lemma_balanced_cut(s, 1);
                    lemma_bracket_free_balanced(minus_one());
                }
            } else {
                lemma_balanced_cut(s, close + 1);
                lemma_regroup_balanced(s.subrange(0, close + 1), s.subrange(close + 1, n));
                lemma_bracket_free_balanced(Seq::<char>::empty());
            }
        },
    }
}

/// A balanced text fails to build for its operands or operators only, never
/// for its brackets.
pub proof fn lemma_balanced_builds_without_bracket_error(s: Seq<char>)
    requires
        balanced(s),
    ensures
        build_spec(s) != Err::<Expr, SyntaxError>(SyntaxError::UnmatchedOpen),
        build_spec(s) != Err::<Expr, SyntaxError>(SyntaxError::UnmatchedClose),
    decreases s.len(),
{
    lemma_split_keeps_balance(s);
    lemma_split_shrinks(s);
    match split_spec(s) {
        Err(_) => {},
        Ok((left, right, op)) => {
            if op != Operators::Leaf {
                lemma_balanced_builds_without_bracket_error(left);
                lemma_balanced_builds_without_bracket_error(right);
            }
        },
    }
}

/// A text fails to build for its brackets just when they do not match, and
/// the error says how: `UnmatchedClose` where a bracket is closed that was
/// not opened, else `UnmatchedOpen` where one stays open.
pub proof fn law_unmatched_brackets(s: Seq<char>)
    ensures
        closes_early(s) <==> build_spec(s) == Err::<Expr, SyntaxError>(
            SyntaxError::UnmatchedClose,
        ),
        !closes_early(s) && depth(s, s.len() as int) > 0 <==> build_spec(s) == Err::<
            Expr,
            SyntaxError,
        >(SyntaxError::UnmatchedOpen),
{
    if balanced(s) {
        lemma_balanced_builds_without_bracket_error(s);
    } else if !closes_early(s) {
        assert(depth(s, s.len() as int) >= 0);
    }
}

/// `s` without the bracket pairs that enclose all of it.
pub open spec fn unwrapped(s: Seq<char>) -> Seq<char>
    decreases s.len(),
{
    if first_span(s) == Ok::<Option<(int, int)>, ParenError>(Some((0int, s.len() - 1))) {
        proof {
            lemma_first_span_is(s);
        }
        unwrapped(s.subrange(1, s.len() - 1))
    } else {
        s
    }
}

/// The parts `(left, right, op)` are a division of `s` that loses nothing:
/// the two operands with the operator between them are `s` again, and an
/// operand is `s` itself. The one rewriting is that of a `-` in front of
/// brackets that hold the rest: the `-` becomes `-1`, multiplied with the
/// rest.
pub open spec fn divides(s: Seq<char>, parts: (Seq<char>, Seq<char>, Operators)) -> bool {
    if parts.2 == Operators::Leaf {
        parts.0 == s && parts.1.len() == 0
    } else {
        ||| exists|c: char|
            is_op(c) && parts.2 == op_of(c) && #[trigger] (parts.0 + seq![c] + parts.1) == s
        ||| {
            &&& s.len() > 0
            &&& s[0] == '-'
            &&& parts.0 == minus_one()
            &&& parts.2 == Operators::Mult
            &&& parts.1 == s.subrange(1, s.len() as int)
        }
    }
}

/// Two operands with an operator between them divide the text that they
/// make up.
proof fn lemma_divides(s: Seq<char>, left: Seq<char>, c: char, right: Seq<char>)
    requires
        is_op(c),
        left + seq![c] + right == s,
    ensures
        divides(s, (left, right, op_of(c))),
{
    let parts = (left, right, op_of(c));
    assert(is_op(c) && parts.2 == op_of(c) && (parts.0 + seq![c] + parts.1) == s);
}

/// A split loses nothing: apart from brackets round the whole text, which
/// are dropped, its parts divide the text.
pub proof fn law_split_loses_nothing(s: Seq<char>)
    ensures
        split_spec(s) matches Ok(parts) ==> divides(unwrapped(s), parts),
    decreases s.len(),
{
    let n = s.len() as int;
    match first_span(s) {
        Err(_) => {},
        Ok(None) => {
            assert(unwrapped(s) == s);
            lemma_precedence_split_shrinks(s);
            if precedence_split(s) != uncut(s) {
                let k = choose|k: int|
                    0 < k < s.len() && is_op(s[k]) && #[trigger] cut(s, k) == precedence_split(s);
                assert(s.subrange(0, k) + seq![s[k]] + s.subrange(k + 1, n) =~= s);
                assert(divides(s, cut(s, k)));
            } else {
                assert(divides(s, uncut(s)));
            }
        },
        Ok(Some((open, close))) => {
            lemma_first_span_is(s);
            if open == 0 && close == n - 1 {
                law_split_loses_nothing(s.subrange(1, n - 1));
                assert(unwrapped(s) == unwrapped(s.subrange(1, n - 1)));
            } else if open == 1 && close == n - 1 {
                assert(unwrapped(s) == s);
                if s[0] == '-' {
                    assert(divides(
                        s,
                        (minus_one(), s.subrange(1, s.len() as int), Operators::Mult),
                    ));
                }
            } else {
                assert(unwrapped(s) == s);
                let a = s.subrange(0, close + 1);
                let b = s.subrange(close + 1, n);
                lemma_regroup_partition(a, b);
                assert(a + b =~= s);
                let parts = regroup_spec(a, b);
                if parts.1.len() > 0 {
                    let rest = parts.1.subrange(1, parts.1.len() as int);
                    let c = parts.1[0];
                    assert(parts.0 + parts.1 == s);
                    assert(parts.0 + seq![c] + rest =~= parts.0 + parts.1);
                    assert(is_op(c) && op_of(c) != Operators::Leaf);
                    assert(parts.0 + seq![c] + rest == s);
                    lemma_divides(s, parts.0, c, rest);
                } else {
                    assert(parts.0 + parts.1 =~= parts.0);
                    assert(divides(s, uncut(parts.0)));
                }
            }
        },
    }
}

} // verus!
