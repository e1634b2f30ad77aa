//! Operators, searching a text for them, and splitting a text without
//! brackets at its weakest operator.

use vstd::prelude::*;
use crate::precedences::all_matcher::AllMatcher;
use crate::precedences::high_precedence::HighPrecedenceMatcher;
use crate::precedences::low_precedence::LowPrecedenceMatcher;
use crate::precedences::medium_precedence::MediumPrecendenceMatcher;
use crate::precedences::traits::MatchOperator;
use crate::precedences::{is_low, is_op};
use crate::search::{
    first_index, last_index, lemma_first_index, lemma_first_index_is, lemma_last_index,
    lemma_last_index_is,
};
use crate::text::slice_to_vec;
use crate::EquationString;

verus! {

/// Searches a text for the characters of a matcher.
#[derive(Debug, Clone, Copy)]
pub struct OperatorFinder {}

/// Where a search starts: at the index given, or at the first character.
pub open spec fn start_of(start_from: Option<usize>) -> int {
    match start_from {
        Some(i) => i as int,
        None => 0,
    }
}

/// The indices at which `s` holds a character of `m`.
pub open spec fn matched_at<M: MatchOperator>(s: Seq<char>, m: M) -> spec_fn(int) -> bool {
    |i: int| m.matches(s[i])
}

/// First and last occurrence of a matcher's characters in a text.
pub trait FindOperator {
    /// The first index from `start_from` on at which `eq` holds a character
    /// of `match_operator`, with that character.
    fn find_first<M: MatchOperator>(
        eq: EquationString,
        match_operator: M,
        start_from: Option<usize>,
    ) -> (r: Option<(usize, char)>)
        requires
            start_of(start_from) <= eq@.len(),
        ensures
            match r {
                Some((i, c)) => {
                    &&& start_of(start_from) <= i < eq@.len()
                    &&& i == first_index(
                        start_of(start_from),
                        eq@.len() as int,
                        matched_at(eq@, match_operator),
                    )
                    &&& c == eq@[i as int]
                },
                None => first_index(
                    start_of(start_from),
                    eq@.len() as int,
                    matched_at(eq@, match_operator),
                ) == eq@.len(),
            },
    ;

    /// The last index from `start_from` on at which `eq` holds a character of
    /// `match_operator`, with that character.
    fn find_last<M: MatchOperator>(
        eq: EquationString,
        match_operator: M,
        start_from: Option<usize>,
    ) -> (r: Option<(usize, char)>)
        requires
            start_of(start_from) <= eq@.len(),
        ensures
            match r {
                Some((i, c)) => {
                    &&& start_of(start_from) <= i < eq@.len()
                    &&& i == last_index(
                        start_of(start_from),
                        eq@.len() as int,
                        matched_at(eq@, match_operator),
                    )
                    &&& c == eq@[i as int]
                },
                None => last_index(
                    start_of(start_from),
                    eq@.len() as int,
                    matched_at(eq@, match_operator),
                ) == start_of(start_from) - 1,
            },
    ;
}

impl FindOperator for OperatorFinder {
    fn find_first<M: MatchOperator>(
        eq: EquationString,
        match_operator: M,
        start_from: Option<usize>,
    ) -> (r: Option<(usize, char)>) {
        let start_index: usize = match start_from {
            Some(i) => i,
            None => 0,
        };
        first_match(&eq, &match_operator, start_index)
    }

    fn find_last<M: MatchOperator>(
        eq: EquationString,
        match_operator: M,
        start_from: Option<usize>,
    ) -> (r: Option<(usize, char)>) {
        let start_index: usize = match start_from {
            Some(i) => i,
            None => 0,
        };
        last_match(&eq, &match_operator, start_index)
    }
}

/// [`FindOperator::find_first`] on a borrowed text.
pub fn first_match<M: MatchOperator>(eq: &Vec<char>, matcher: &M, start: usize) -> (r: Option<
    (usize, char),
>)
    requires
        start <= eq@.len(),
    ensures
        match r {
            Some((i, c)) => {
                &&& start <= i < eq@.len()
                &&& i == first_index(start as int, eq@.len() as int, matched_at(eq@, *matcher))
                &&& c == eq@[i as int]
            },
            None => first_index(start as int, eq@.len() as int, matched_at(eq@, *matcher))
                == eq@.len(),
        },
{
    let n: usize = eq.len();
    let mut i: usize = start;
    while i < n
        invariant
            n == eq@.len(),
            start <= i <= n,
            forall|j: int| start <= j < i ==> !#[trigger] matched_at(eq@, *matcher)(j),
        decreases n - i,
    {
        let c: char = eq[i];
        if matcher.match_operator(c) {
            proof {
                lemma_first_index_is(start as int, n as int, matched_at(eq@, *matcher), i as int);
            }
            return Some((i, c));
        }
        i = i + 1;
    }
    proof {
        lemma_first_index_is(start as int, n as int, matched_at(eq@, *matcher), n as int);
    }
    None
}

/// [`FindOperator::find_last`] on a borrowed text.
pub fn last_match<M: MatchOperator>(eq: &Vec<char>, matcher: &M, start: usize) -> (r: Option<
    (usize, char),
>)
    requires
        start <= eq@.len(),
    ensures
        match r {
            Some((i, c)) => {
                &&& start <= i < eq@.len()
                &&& i == last_index(start as int, eq@.len() as int, matched_at(eq@, *matcher))
                &&& c == eq@[i as int]
            },
            None => last_index(start as int, eq@.len() as int, matched_at(eq@, *matcher))
                == start - 1,
        },
{
    let n: usize = eq.len();
    let mut i: usize = n;
    while i > start
        invariant
            n == eq@.len(),
            start <= i <= n,
            forall|j: int| i <= j < n ==> !#[trigger] matched_at(eq@, *matcher)(j),
        decreases i,
    {
        i = i - 1;
        let c: char = eq[i];
        if matcher.match_operator(c) {
            proof {
                lemma_last_index_is(start as int, n as int, matched_at(eq@, *matcher), i as int);
            }
            return Some((i, c));
        }
    }
    proof {
        lemma_last_index_is(start as int, n as int, matched_at(eq@, *matcher), start - 1);
    }
    None
}

/// The operation at the root of a split; `Leaf` marks a text that is not
/// split any further.
#[derive(Debug, Clone, Copy, PartialEq, Eq, Structural)]
pub enum Operators {
    /// `+`
    Plus,
    /// `-`
    Minus,
    /// `*`
    Mult,
    /// `/`
    Div,
    /// `^`
    Exp,
    /// No operation: the text is an operand.
    Leaf,
}

/// The operation that a character denotes.
pub open spec fn op_of(c: char) -> Operators {
    if c == '+' {
        Operators::Plus
    } else if c == '-' {
        Operators::Minus
    } else if c == '*' {
        Operators::Mult
    } else if c == '/' {
        Operators::Div
    } else if c == '^' {
        Operators::Exp
    } else {
        Operators::Leaf
    }
}

impl Operators {
    /// The operation that `c` denotes; `Leaf` for any other character.
    pub fn to_enum(c: char) -> (op: Self)
        ensures
            op == op_of(c),
            op != Operators::Leaf <==> is_op(c),
    {
        match c {
            '+' => Self::Plus,
            '-' => Self::Minus,
            '*' => Self::Mult,
            '/' => Self::Div,
            '^' => Self::Exp,
            _ => Self::Leaf,
        }
    }
}

/// `s` cut at the operator at `k`: what stands before it, what stands behind
/// it, and the operation.
pub open spec fn cut(s: Seq<char>, k: int) -> (Seq<char>, Seq<char>, Operators) {
    (s.subrange(0, k), s.subrange(k + 1, s.len() as int), op_of(s[k]))
}

/// `s` as an operand: not split.
pub open spec fn uncut(s: Seq<char>) -> (Seq<char>, Seq<char>, Operators) {
    (s, Seq::<char>::empty(), Operators::Leaf)
}

/// The indices at which `s` holds a `+` or `-` that follows an operand
/// character, and so stands between two operands.
pub open spec fn binary_low_at(s: Seq<char>) -> spec_fn(int) -> bool {
    |i: int| is_low(s[i]) && !is_op(s[i - 1])
}

/// Index of the first `+` or `-` of `s` that follows an operand character, or
/// `s.len()`.
pub open spec fn first_binary_low(s: Seq<char>) -> int {
    if s.len() == 0 {
        0
    } else {
        first_index(1, s.len() as int, binary_low_at(s))
    }
}

/// Index of the last `*` or `/` of `s`, or `-1`.
pub open spec fn last_medium(s: Seq<char>) -> int {
    last_index(0, s.len() as int, matched_at(s, MediumPrecendenceMatcher {  }))
}

/// Index of the last `^` of `s`, or `-1`.
pub open spec fn last_high(s: Seq<char>) -> int {
    last_index(0, s.len() as int, matched_at(s, HighPrecedenceMatcher))
}

/// A text without brackets, split at its weakest operator: at the first `+`
/// or `-` between operands; else at the last `*` or `/`; else at the last
/// `^`. A `*`, `/` or `^` found at the very start would leave nothing on its
/// left, and the text then stays whole, as does a text without operators.
pub open spec fn precedence_split(s: Seq<char>) -> (Seq<char>, Seq<char>, Operators) {
    if first_binary_low(s) < s.len() {
        cut(s, first_binary_low(s))
    } else if last_medium(s) >= 0 {
        if last_medium(s) == 0 {
            uncut(s)
        } else {
            cut(s, last_medium(s))
        }
    } else if last_high(s) >= 0 {
        if last_high(s) == 0 {
            uncut(s)
        } else {
            cut(s, last_high(s))
        }
    } else {
        uncut(s)
    }
}

/// Splitting by operator precedence alone.
pub trait SplitOperator: Sized + View<V = Seq<char>> {
    /// Splits a text without brackets at its weakest operator.
    fn split_by_precedence(&self) -> (r: (Self, Self, Operators))
        ensures
            (r.0@, r.1@, r.2) == precedence_split(self@),
    ;
}

/// `eq` cut at the operator at `k`.
pub fn cut_at(eq: &Vec<char>, k: usize) -> (r: (Vec<char>, Vec<char>, Operators))
    requires
        k < eq@.len(),
    ensures
        (r.0@, r.1@, r.2) == cut(eq@, k as int),
{
    let n: usize = eq.len();
    (slice_to_vec(eq, 0, k), slice_to_vec(eq, k + 1, n), Operators::to_enum(eq[k]))
}

/// `eq` as an operand.
pub fn whole(eq: &Vec<char>) -> (r: (Vec<char>, Vec<char>, Operators))
    ensures
        (r.0@, r.1@, r.2) == uncut(eq@),
{
    (slice_to_vec(eq, 0, eq.len()), Vec::new(), Operators::Leaf)
}

impl SplitOperator for EquationString {
    fn split_by_precedence(&self) -> (r: (Self, Self, Operators)) {
        let n: usize = self.len();
        let all_matcher = AllMatcher {  };
        let low = LowPrecedenceMatcher {  };
        // A sign stands at the start or behind another operator; the first
        // `+` or `-` that is no sign is where the text splits.
        let mut start: usize = if n == 0 { 0 } else { 1 };
        loop
            invariant
                n == self@.len(),
                n == 0 ==> start == 0,
                n > 0 ==> 1 <= start <= n,
                forall|j: int| 1 <= j < start ==> !#[trigger] binary_low_at(self@)(j),
            ensures
                first_binary_low(self@) == n,
            decreases n - start,
        {
            match first_match(self, &low, start) {
                Some((index, _)) => {
                    proof {
                        lemma_first_index(start as int, n as int, matched_at(self@, low));
                        assert forall|j: int| start <= j < index implies !#[trigger] binary_low_at(
                            self@,
                        )(j) by {
                            assert(!matched_at(self@, low)(j));
                        }
                    }
                    if !all_matcher.match_operator(self[index - 1]) {
                        proof {
                            lemma_first_index_is(
                                1,
                                n as int,
                                binary_low_at(self@),
                                index as int,
                            );
                        }
                        return cut_at(self, index);
                    }
                    start = index + 1;
                },
                None => {
                    proof {
                        lemma_first_index(start as int, n as int, matched_at(self@, low));
                        assert forall|j: int| start <= j < n implies !#[trigger] binary_low_at(
                            self@,
                        )(j) by {
                            assert(!matched_at(self@, low)(j));
                        }
                        if n > 0 {
                            lemma_first_index_is(1, n as int, binary_low_at(self@), n as int);
                        }
                    }
                    break ;
                },
            }
        }
        match last_match(self, &MediumPrecendenceMatcher {  }, 0) {
            Some((index, _)) => {
                if index == 0 {
                    return whole(self);
                }
                return cut_at(self, index);
            },
            None => {},
        }
        match last_match(self, &HighPrecedenceMatcher, 0) {
            Some((index, _)) => {
                if index == 0 {
                    return whole(self);
                }
                return cut_at(self, index);
            },
            None => {},
        }
        whole(self)
    }
}

/// A split by precedence yields two operands shorter than the text, with
/// the operation of the character between them, or the text itself.
pub proof fn lemma_precedence_split_shrinks(s: Seq<char>)
    ensures
        precedence_split(s) == uncut(s) || (exists|k: int|
            0 < k < s.len() && is_op(s[k]) && #[trigger] cut(s, k) == precedence_split(s)),
        precedence_split(s).2 == Operators::Leaf ==> precedence_split(s) == uncut(s),
        precedence_split(s).2 != Operators::Leaf ==> precedence_split(s).0.len() < s.len()
            && precedence_split(s).1.len() < s.len(),
{
    let n = s.len() as int;
    if n > 0 {
        lemma_first_index(1, n, binary_low_at(s));
    }
    lemma_last_index(0, n, matched_at(s, MediumPrecendenceMatcher {  }));
    lemma_last_index(0, n, matched_at(s, HighPrecedenceMatcher));
    if first_binary_low(s) < n {
        let k = first_binary_low(s);
        assert(binary_low_at(s)(k));
        assert(cut(s, k) == precedence_split(s));
    } else if last_medium(s) > 0 {
        let k = last_medium(s);
        assert(matched_at(s, MediumPrecendenceMatcher {  })(k));
        assert(cut(s, k) == precedence_split(s));
    } else if last_medium(s) < 0 && last_high(s) > 0 {
        let k = last_high(s);
        assert(matched_at(s, HighPrecedenceMatcher)(k));
        assert(cut(s, k) == precedence_split(s));
    }
}

} // verus!
