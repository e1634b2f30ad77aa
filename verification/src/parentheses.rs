//! Locating bracket pairs, and splitting a text that holds brackets.

use vstd::prelude::*;
use crate::brackets::{
    balanced, bracket_free, closes_all_at, closes_at, depth, depth_from_end, first_span,
    is_first_span, is_last_span, last_span, lemma_balanced_concat, lemma_balanced_from_end,
    opens_all_at, opens_at, paren_delta,
};
use crate::errors::ParenError;
use crate::precedences::high_precedence::HighPrecedenceMatcher;
use crate::precedences::medium_precedence::MediumPrecendenceMatcher;
use crate::precedences::traits::MatchOperator;
use crate::precedences::{is_low, is_op, is_operator};
use crate::search::{
    first_index, last_index, lemma_first_index, lemma_first_index_is, lemma_last_index,
    lemma_last_index_is,
};
use crate::text::{concat, slice_to_vec};
use crate::EquationString;

verus! {

/// Finds bracket pairs at the outermost level of a text.
#[derive(Debug, Clone, Copy)]
pub struct ParenthesesFinder {}

/// Searches for the outermost bracket pairs of a text.
pub trait FindParentheses {
    /// The first `(` of `eq` and the `)` that matches it; `None` if `eq` has
    /// no bracket. Fails with `UnmatchedClose` if a `)` stands where nothing
    /// is open, else with `UnmatchedOpen` if a bracket stays open at the end.
    fn find_first(eq: EquationString) -> (r: Result<Option<(usize, usize)>, ParenError>)
        ensures
            match r {
                Ok(Some((open, close))) => {
                    &&& first_span(eq@) == Ok::<Option<(int, int)>, ParenError>(
                        Some((open as int, close as int)),
                    )
                    &&& balanced(eq@)
                    &&& is_first_span(eq@, open as int, close as int)
                },
                Ok(None) => first_span(eq@) == Ok::<Option<(int, int)>, ParenError>(None)
                    && bracket_free(eq@),
                Err(e) => first_span(eq@) == Err::<Option<(int, int)>, ParenError>(e),
            },
    ;

    /// The last `)` of `eq` and the `(` that matches it; `None` if `eq` has
    /// no bracket. The scan runs from the end and names its errors in that
    /// direction: `UnmatchedClose` if a `(` stands where no `)` is pending,
    /// else `UnmatchedOpen` if a `)` stays pending at the start.
    fn find_last(eq: EquationString) -> (r: Result<Option<(usize, usize)>, ParenError>)
        ensures
            match r {
                Ok(Some((open, close))) => {
                    &&& last_span(eq@) == Ok::<Option<(int, int)>, ParenError>(
                        Some((open as int, close as int)),
                    )
                    &&& balanced(eq@)
                    &&& is_last_span(eq@, open as int, close as int)
                },
                Ok(None) => last_span(eq@) == Ok::<Option<(int, int)>, ParenError>(None)
                    && bracket_free(eq@),
                Err(e) => last_span(eq@) == Err::<Option<(int, int)>, ParenError>(e),
            },
    ;
}

impl FindParentheses for ParenthesesFinder {
    fn find_first(eq: EquationString) -> (r: Result<Option<(usize, usize)>, ParenError>) {
        first_span_of(&eq)
    }

    fn find_last(eq: EquationString) -> (r: Result<Option<(usize, usize)>, ParenError>) {
        last_span_of(&eq)
    }
}

/// [`FindParentheses::find_first`] on a borrowed text.
pub fn first_span_of(eq: &Vec<char>) -> (r: Result<Option<(usize, usize)>, ParenError>)
    ensures
        match r {
            Ok(Some((open, close))) => {
                &&& first_span(eq@) == Ok::<Option<(int, int)>, ParenError>(
                    Some((open as int, close as int)),
                )
                &&& balanced(eq@)
                &&& is_first_span(eq@, open as int, close as int)
            },
            Ok(None) => first_span(eq@) == Ok::<Option<(int, int)>, ParenError>(None)
                && bracket_free(eq@),
            Err(e) => first_span(eq@) == Err::<Option<(int, int)>, ParenError>(e),
        },
{
    let n: usize = eq.len();
    let mut opened: usize = 0;
    let mut left: Option<usize> = None;
    let mut right: Option<usize> = None;
    let mut i: usize = 0;
    while i < n
        invariant
            n == eq@.len(),
            i <= n,
            opened == depth(eq@, i as int),
            opened <= i,
            forall|j: int| 0 <= j <= i ==> #[trigger] depth(eq@, j) >= 0,
            left is None ==> right is None && opened == 0,
            left is None ==> forall|j: int|
                0 <= j < i ==> eq@[j] != '(' && eq@[j] != ')',
            left matches Some(l) ==> {
                &&& l < i
                &&& eq@[l as int] == '('
                &&& forall|j: int| 0 <= j < l ==> eq@[j] != '('
            },
            left is Some && right is None ==> opened > 0,
            left matches Some(l) ==> (right is None ==> forall|j: int|
                l < j <= i ==> #[trigger] depth(eq@, j) > 0),
            right is None ==> forall|j: int| 0 <= j < i ==> !#[trigger] closes_all_at(eq@)(j),
            right matches Some(c) ==> {
                &&& c < i
                &&& closes_all_at(eq@)(c as int)
                &&& forall|j: int| 0 <= j < c ==> !#[trigger] closes_all_at(eq@)(j)
                &&& left matches Some(l) && l < c && forall|j: int|
                    l < j <= c ==> #[trigger] depth(eq@, j) > 0
            },
        decreases n - i,
    {
        let c: char = eq[i];
        assert(depth(eq@, i + 1) == depth(eq@, i as int) + paren_delta(eq@[i as int]));
        if c == '(' {
            opened = opened + 1;
            if left.is_none() {
                left = Some(i);
            }
        } else if c == ')' {
            if opened == 0 {
                assert(depth(eq@, i + 1) < 0);
                return Err(ParenError::UnmatchedClose);
            }
            opened = opened - 1;
            if right.is_none() && opened == 0 {
                right = Some(i);
            }
        }
        i = i + 1;
    }
    if opened > 0 {
        return Err(ParenError::UnmatchedOpen);
    }
    match (left, right) {
        (Some(l), Some(c)) => {
            proof {
                lemma_first_index_is(0, n as int, opens_at(eq@), l as int);
                lemma_first_index_is(0, n as int, closes_all_at(eq@), c as int);
            }
            Ok(Some((l, c)))
        },
        _ => {
            proof {
                lemma_first_index_is(0, n as int, opens_at(eq@), n as int);
            }
            Ok(None)
        },
    }
}

/// [`FindParentheses::find_last`] on a borrowed text.
pub fn last_span_of(eq: &Vec<char>) -> (r: Result<Option<(usize, usize)>, ParenError>)
    ensures
        match r {
            Ok(Some((open, close))) => {
                &&& last_span(eq@) == Ok::<Option<(int, int)>, ParenError>(
                    Some((open as int, close as int)),
                )
                &&& balanced(eq@)
                &&& is_last_span(eq@, open as int, close as int)
            },
            Ok(None) => last_span(eq@) == Ok::<Option<(int, int)>, ParenError>(None)
                && bracket_free(eq@),
            Err(e) => last_span(eq@) == Err::<Option<(int, int)>, ParenError>(e),
        },
{
    let n: usize = eq.len();
    let mut closed: usize = 0;
    let mut left: Option<usize> = None;
    let mut right: Option<usize> = None;
    let mut i: usize = n;
    while i > 0
        invariant
            n == eq@.len(),
            i <= n,
            closed == depth_from_end(eq@, i as int),
            closed <= n - i,
            forall|j: int| i <= j <= n ==> #[trigger] depth_from_end(eq@, j) >= 0,
            right is None ==> left is None && closed == 0,
            right is None ==> forall|j: int|
                i <= j < n ==> eq@[j] != '(' && eq@[j] != ')',
            right matches Some(c) ==> {
                &&& i <= c < n
                &&& eq@[c as int] == ')'
                &&& forall|j: int| c < j < n ==> eq@[j] != ')'
            },
            right is Some && left is None ==> closed > 0,
            right matches Some(c) ==> (left is None ==> forall|j: int|
                i <= j <= c ==> #[trigger] depth_from_end(eq@, j) > 0),
            left is None ==> forall|j: int| i <= j < n ==> !#[trigger] opens_all_at(eq@)(j),
            left matches Some(l) ==> {
                &&& i <= l < n
                &&& opens_all_at(eq@)(l as int)
                &&& forall|j: int| l < j < n ==> !#[trigger] opens_all_at(eq@)(j)
                &&& right matches Some(c) && l < c && forall|j: int|
                    l < j <= c ==> #[trigger] depth_from_end(eq@, j) > 0
            },
        decreases i,
    {
        i = i - 1;
        let c: char = eq[i];
        assert(depth(eq@, i + 1) == depth(eq@, i as int) + paren_delta(eq@[i as int]));
        if c == ')' {
            closed = closed + 1;
            if right.is_none() {
                right = Some(i);
            }
        } else if c == '(' {
            if closed == 0 {
                assert(depth_from_end(eq@, i as int) < 0);
                return Err(ParenError::UnmatchedClose);
            }
            closed = closed - 1;
            if left.is_none() && closed == 0 {
                left = Some(i);
            }
        }
    }
    if closed > 0 {
        return Err(ParenError::UnmatchedOpen);
    }
    proof {
        lemma_balanced_from_end(eq@);
    }
    match (left, right) {
        (Some(l), Some(c)) => {
            proof {
                lemma_last_index_is(0, n as int, closes_at(eq@), c as int);
                lemma_last_index_is(0, n as int, opens_all_at(eq@), l as int);
            }
            Ok(Some((l, c)))
        },
        _ => {
            proof {
                lemma_last_index_is(0, n as int, closes_at(eq@), -1);
            }
            Ok(None)
        },
    }
}

/// The indices of `s` from `from` on at which a `+` or `-` stands outside all
/// brackets and is no sign: it follows an operand character, or the scan
/// starts at it.
pub open spec fn outer_low_at(s: Seq<char>, from: int) -> spec_fn(int) -> bool {
    |i: int| depth(s, i) == 0 && is_low(s[i]) && (i == from || !is_op(s[i - 1]))
}

/// The indices at which `s` holds a character of `m` outside all brackets.
pub open spec fn outer_at<M: MatchOperator>(s: Seq<char>, m: M) -> spec_fn(int) -> bool {
    |i: int| depth(s, i) == 0 && m.matches(s[i])
}

/// Index of the first `+` or `-` of `s` from `from` on that stands outside all
/// brackets and is no sign, or `s.len()`.
pub open spec fn first_outer_low(s: Seq<char>, from: int) -> int {
    if from >= s.len() {
        s.len() as int
    } else {
        first_index(from, s.len() as int, outer_low_at(s, from))
    }
}

/// Index of the last character of `m` that stands outside all brackets of
/// `s`, or `-1`.
pub open spec fn last_outer<M: MatchOperator>(s: Seq<char>, m: M) -> int {
    last_index(0, s.len() as int, outer_at(s, m))
}

/// `s` in two parts, the second from index `k` on.
pub open spec fn halves(s: Seq<char>, k: int) -> (Seq<char>, Seq<char>) {
    (s.subrange(0, k), s.subrange(k, s.len() as int))
}

/// `left` takes from `right` all that stands before the first `+` or `-` of
/// `right` that is outside all brackets and no sign; all of `right` if there
/// is none. What remains of `right` starts with that operator.
pub open spec fn regroup_to_left_spec(left: Seq<char>, right: Seq<char>) -> (
    Seq<char>,
    Seq<char>,
) {
    let k = first_outer_low(right, 0);
    (left + right.subrange(0, k), right.subrange(k, right.len() as int))
}

/// Where a text that holds brackets is split when it is taken as a whole: at
/// the first `+` or `-` behind its first character that is outside all
/// brackets and no sign; else at the last `*` or `/` outside all brackets;
/// else at the last such `^`; else nowhere, which is `s.len()`.
pub open spec fn whole_split_point(s: Seq<char>) -> int {
    if first_outer_low(s, 1) < s.len() {
        first_outer_low(s, 1)
    } else if last_outer(s, MediumPrecendenceMatcher {  }) >= 0 {
        last_outer(s, MediumPrecendenceMatcher {  })
    } else if last_outer(s, HighPrecedenceMatcher) >= 0 {
        last_outer(s, HighPrecedenceMatcher)
    } else {
        s.len() as int
    }
}

/// `left` in two parts, the second starting with the operator at
/// [`whole_split_point`]; the second part is empty if there is no such
/// operator.
pub open spec fn regroup_to_right_spec(left: Seq<char>) -> (Seq<char>, Seq<char>) {
    halves(left, whole_split_point(left))
}

/// The boundary between `left` and `right` moved to an operator: first by
/// [`regroup_to_left_spec`]; if that leaves nothing on the right, by
/// [`regroup_to_right_spec`].
pub open spec fn regroup_spec(left: Seq<char>, right: Seq<char>) -> (Seq<char>, Seq<char>) {
    let moved = regroup_to_left_spec(left, right);
    if moved.1.len() == 0 {
        regroup_to_right_spec(moved.0)
    } else {
        moved
    }
}

/// `s` divided behind the bracket at `close`, and the boundary then moved to
/// an operator.
pub open spec fn split_by_parentheses_spec(s: Seq<char>, close: int) -> (Seq<char>, Seq<char>) {
    regroup_spec(s.subrange(0, close + 1), s.subrange(close + 1, s.len() as int))
}

/// Index of the first `+` or `-` of `eq` from `from` on that stands outside
/// all brackets and is no sign; `eq.len()` if there is none.
pub fn find_outer_low(eq: &Vec<char>, from: usize) -> (k: usize)
    requires
        balanced(eq@),
    ensures
        k == first_outer_low(eq@, from as int),
        from <= k <= eq@.len() || (from > eq@.len() && k == eq@.len()),
        k < eq@.len() ==> outer_low_at(eq@, from as int)(k as int),
{
    let n: usize = eq.len();
    if from >= n {
        return n;
    }
    let mut opened: usize = 0;
    let mut i: usize = 0;
    while i < n
        invariant
            n == eq@.len(),
            from < n,
            i <= n,
            balanced(eq@),
            opened == depth(eq@, i as int),
            opened <= i,
            forall|j: int| from <= j < i ==> !#[trigger] outer_low_at(eq@, from as int)(j),
        decreases n - i,
    {
        let c: char = eq[i];
        assert(depth(eq@, i + 1) == depth(eq@, i as int) + paren_delta(eq@[i as int]));
        assert(depth(eq@, i + 1) >= 0);
        if c == '(' {
            opened = opened + 1;
        } else if c == ')' {
            opened = opened - 1;
        } else if i >= from && opened == 0 && (c == '+' || c == '-') && (i == from
            || !is_operator(eq[i - 1])) {
            proof {
                lemma_first_index_is(
                    from as int,
                    n as int,
                    outer_low_at(eq@, from as int),
                    i as int,
                );
            }
            return i;
        }
        i = i + 1;
    }
    proof {
        lemma_first_index_is(from as int, n as int, outer_low_at(eq@, from as int), n as int);
    }
    n
}

/// Index of the last character of `matcher` that stands outside all brackets
/// of `eq`.
pub fn find_outer_last<M: MatchOperator>(eq: &Vec<char>, matcher: &M) -> (r: Option<usize>)
    requires
        balanced(eq@),
    ensures
        match r {
            Some(k) => k < eq@.len() && k == last_outer(eq@, *matcher) && outer_at(
                eq@,
                *matcher,
            )(k as int),
            None => last_outer(eq@, *matcher) == -1,
        },
{
    let n: usize = eq.len();
    let mut closed: usize = 0;
    let mut i: usize = n;
    while i > 0
        invariant
            n == eq@.len(),
            i <= n,
            balanced(eq@),
            closed == depth(eq@, i as int),
            closed <= n - i,
            forall|j: int| i <= j < n ==> !#[trigger] outer_at(eq@, *matcher)(j),
        decreases i,
    {
        i = i - 1;
        let c: char = eq[i];
        assert(depth(eq@, i + 1) == depth(eq@, i as int) + paren_delta(eq@[i as int]));
        assert(depth(eq@, i as int) >= 0);
        if c == ')' {
            closed = closed + 1;
        } else if c == '(' {
            closed = closed - 1;
        }
        if closed == 0 && matcher.match_operator(c) {
            proof {
                lemma_last_index_is(0, n as int, outer_at(eq@, *matcher), i as int);
            }
            return Some(i);
        }
    }
    proof {
        lemma_last_index_is(0, n as int, outer_at(eq@, *matcher), -1);
    }
    None
}

/// Moves the boundary between `left` and `right` to the right, up to the
/// first `+` or `-` of `right` that is outside all brackets and no sign. With
/// no such operator, all of `right` goes to `left`.
pub fn regroup_to_left(left: EquationString, right: EquationString) -> (r: (
    EquationString,
    EquationString,
))
    requires
        balanced(right@),
    ensures
        (r.0@, r.1@) == regroup_to_left_spec(left@, right@),
{
    let k: usize = find_outer_low(&right, 0);
    let head: Vec<char> = slice_to_vec(&right, 0, k);
    (concat(&left, &head), slice_to_vec(&right, k, right.len()))
}

/// Splits `left` in front of its weakest operator outside all brackets; the
/// second part is empty if there is none.
pub fn regroup_to_right(left: EquationString) -> (r: (EquationString, EquationString))
    requires
        balanced(left@),
    ensures
        (r.0@, r.1@) == regroup_to_right_spec(left@),
{
    let n: usize = left.len();
    let low: usize = find_outer_low(&left, 1);
    let k: usize = if low < n {
        low
    } else {
        match find_outer_last(&left, &MediumPrecendenceMatcher {  }) {
            Some(medium) => medium,
            None => match find_outer_last(&left, &HighPrecedenceMatcher) {
                Some(high) => high,
                None => n,
            },
        }
    };
    (slice_to_vec(&left, 0, k), slice_to_vec(&left, k, n))
}

/// Moves the boundary between `left` and `right` to an operator outside all
/// brackets: to the right if `right` holds a `+` or `-` to stop at, else to
/// the weakest operator of the two parts taken together.
pub fn regroup_according_to_precedence(left: EquationString, right: EquationString) -> (r: (
    EquationString,
    EquationString,
))
    requires
        balanced(left@),
        balanced(right@),
    ensures
        (r.0@, r.1@) == regroup_spec(left@, right@),
{
    let ghost left0 = left@;
    let ghost right0 = right@;
    let mut left = left;
    let mut right = right;
    if !(right.len() == 0) {
        let moved = regroup_to_left(left, right);
        left = moved.0;
        right = moved.1;
    } else {
        assert(left@ == left0 + right0.subrange(0, 0));
        assert(right@ == right0.subrange(0, 0));
    }
    if right.len() == 0 {
        proof {
            lemma_first_index(0, right0.len() as int, outer_low_at(right0, 0));
            assert(right0.subrange(0, right0.len() as int) == right0);
            lemma_balanced_concat(left0, right0);
        }
        return regroup_to_right(left);
    }
    (left, right)
}

/// Dividing a text at a bracket pair.
pub trait SplitParentheses: Sized + View<V = Seq<char>> {
    /// Divides the text behind the bracket at `right_parentheses_index`, then
    /// moves the boundary to an operator outside all brackets.
    fn split_by_parentheses(
        &self,
        left_parentheses_index: usize,
        right_parentheses_index: usize,
    ) -> (r: (Self, Self))
        requires
            right_parentheses_index < self@.len(),
            balanced(self@.subrange(0, right_parentheses_index + 1)),
            balanced(self@.subrange(right_parentheses_index + 1, self@.len() as int)),
        ensures
            (r.0@, r.1@) == split_by_parentheses_spec(self@, right_parentheses_index as int),
    ;
}

impl SplitParentheses for EquationString {
    fn split_by_parentheses(
        &self,
        left_parentheses_index: usize,
        right_parentheses_index: usize,
    ) -> (r: (Self, Self)) {
        let n: usize = self.len();
        let left: Vec<char> = slice_to_vec(self, 0, right_parentheses_index + 1);
        let right: Vec<char> = slice_to_vec(self, right_parentheses_index + 1, n);
        regroup_according_to_precedence(left, right)
    }
}

/// Regrouping moves a boundary and loses nothing: the two parts still make
/// up the same text, and a second part that is not empty starts with the
/// operator at which the text was divided.
pub proof fn lemma_regroup_partition(left: Seq<char>, right: Seq<char>)
    ensures
        regroup_spec(left, right).0 + regroup_spec(left, right).1 == left + right,
        regroup_spec(left, right).1.len() > 0 ==> is_op(regroup_spec(left, right).1[0]),
{
    let k = first_outer_low(right, 0);
    if 0 < right.len() {
        lemma_first_index(0, right.len() as int, outer_low_at(right, 0));
    }
    let moved = regroup_to_left_spec(left, right);
    assert(moved.0 + moved.1 =~= left + right);
    if moved.1.len() == 0 {
        let s = moved.0;
        assert(s =~= left + right);
        let n = s.len() as int;
        if 1 < n {
            lemma_first_index(1, n, outer_low_at(s, 1));
        }
        lemma_last_index(0, n, outer_at(s, MediumPrecendenceMatcher {  }));
        lemma_last_index(0, n, outer_at(s, HighPrecedenceMatcher));
        let p = whole_split_point(s);
        assert(0 <= p <= n);
        assert(s.subrange(0, p) + s.subrange(p, n) =~= s);
    }
}

} // verus!
