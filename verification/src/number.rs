//! The decimal literals that an operand may be written as.
//!
//! ```text
//! Float  ::= Sign? ( 'inf' | 'infinity' | 'nan' | Number )
//! Number ::= ( Digit+ | Digit+ '.' Digit* | Digit* '.' Digit+ ) Exp?
//! Exp    ::= 'e' Sign? Digit+
//! Sign   ::= [+-]
//! Digit  ::= [0-9]
//! ```
//!
//! Letters count in either case.

use vstd::prelude::*;
use crate::eq_sanitize::{is_decimal_digit, is_digit};
use crate::errors::SyntaxError;
use crate::precedences::{is_low, is_op, is_operator};
use crate::search::{first_index, lemma_first_index_is};

verus! {

/// `c` is the lower-case letter `letter`, or its upper-case form.
pub open spec fn is_letter(c: char, letter: char) -> bool {
    c == letter || c as u32 + 32 == letter as u32
}

/// The characters of `s` in `from..to` spell `word`, in either case. `word`
/// is in lower case.
pub open spec fn spells(s: Seq<char>, from: int, to: int, word: Seq<char>) -> bool {
    &&& to - from == word.len()
    &&& forall|i: int| 0 <= i < word.len() ==> is_letter(#[trigger] s[from + i], word[i])
}

/// `inf`
pub open spec fn word_inf() -> Seq<char> {
    seq!['i', 'n', 'f']
}

/// `infinity`
pub open spec fn word_infinity() -> Seq<char> {
    seq!['i', 'n', 'f', 'i', 'n', 'i', 't', 'y']
}

/// `nan`
pub open spec fn word_nan() -> Seq<char> {
    seq!['n', 'a', 'n']
}

/// The characters of `s` in `from..to` are `inf`, `infinity` or `nan`.
pub open spec fn is_special(s: Seq<char>, from: int, to: int) -> bool {
    spells(s, from, to, word_inf()) || spells(s, from, to, word_infinity()) || spells(
        s,
        from,
        to,
        word_nan(),
    )
}

/// The characters of `s` in `from..to` are all digits.
pub open spec fn all_digits(s: Seq<char>, from: int, to: int) -> bool {
    forall|i: int| from <= i < to ==> is_digit(#[trigger] s[i])
}

/// The indices at which `s` holds `a` or `b`.
pub open spec fn either_at(s: Seq<char>, a: char, b: char) -> spec_fn(int) -> bool {
    |i: int| s[i] == a || s[i] == b
}

/// Index of the first `a` or `b` of `s` in `from..to`, or `to`.
pub open spec fn first_either(s: Seq<char>, from: int, to: int, a: char, b: char) -> int {
    first_index(from, to, either_at(s, a, b))
}

/// The characters of `s` in `from..to` are digits with at most one `.` among
/// them, and at least one digit.
pub open spec fn is_mantissa(s: Seq<char>, from: int, to: int) -> bool {
    let dot = first_either(s, from, to, '.', '.');
    if dot == to {
        from < to && all_digits(s, from, to)
    } else {
        all_digits(s, from, dot) && all_digits(s, dot + 1, to) && to - from >= 2
    }
}

/// Where the digits of an exponent start that stands in `from..to`: behind
/// its sign, if it has one.
pub open spec fn unsigned_from(s: Seq<char>, from: int, to: int) -> int {
    if from < to && is_low(s[from]) {
        from + 1
    } else {
        from
    }
}

/// The characters of `s` in `from..to` are an optional sign and then digits,
/// at least one.
pub open spec fn is_exponent(s: Seq<char>, from: int, to: int) -> bool {
    unsigned_from(s, from, to) < to && all_digits(s, unsigned_from(s, from, to), to)
}

/// The characters of `s` in `from..to` are a mantissa, and behind it an `e`
/// or `E` with an exponent, or nothing.
pub open spec fn is_number(s: Seq<char>, from: int, to: int) -> bool {
    let mark = first_either(s, from, to, 'e', 'E');
    if mark == to {
        is_mantissa(s, from, to)
    } else {
        is_mantissa(s, from, mark) && is_exponent(s, mark + 1, to)
    }
}

/// `s` is a decimal literal: an optional sign, and then a number or one of
/// the words `inf`, `infinity` and `nan`.
pub open spec fn float_literal(s: Seq<char>) -> bool {
    let from = unsigned_from(s, 0, s.len() as int);
    is_special(s, from, s.len() as int) || is_number(s, from, s.len() as int)
}

/// `s` holds an operator anywhere but as a sign in front.
pub open spec fn has_stray_operator(s: Seq<char>) -> bool {
    exists|i: int| 0 <= i < s.len() && is_op(#[trigger] s[i]) && !(i == 0 && is_low(s[0]))
}

/// What is wrong with `s` as a number: nothing, if it is a decimal literal;
/// its syntax, if it holds an operator that is no sign in front; else its
/// digits.
pub open spec fn number_error(s: Seq<char>) -> Option<SyntaxError> {
    if float_literal(s) {
        None
    } else if has_stray_operator(s) {
        Some(SyntaxError::InvalidSyntax)
    } else {
        Some(SyntaxError::InvalidNumber)
    }
}

/// Whether `c` is the lower-case letter `letter`, or its upper-case form.
fn same_letter(c: char, letter: char) -> (b: bool)
    ensures
        b == is_letter(c, letter),
{
    let code: u32 = c as u32;
    let lower: u32 = letter as u32;
    c == letter || code + 32 == lower
}

/// Whether the characters of `text` in `from..to` spell `word`, in either
/// case.
fn spells_word(text: &Vec<char>, from: usize, to: usize, word: &Vec<char>) -> (b: bool)
    requires
        from <= to <= text@.len(),
    ensures
        b == spells(text@, from as int, to as int, word@),
{
    if to - from != word.len() {
        return false;
    }
    let mut i: usize = 0;
    while i < word.len()
        invariant
            from <= to <= text@.len(),
            to - from == word@.len(),
            i <= word@.len(),
            forall|j: int| 0 <= j < i ==> is_letter(#[trigger] text@[from + j], word@[j]),
        decreases word@.len() - i,
    {
        let c: char = text[from + i];
        let letter: char = word[i];
        if !same_letter(c, letter) {
            assert(!is_letter(text@[from + i], word@[i as int]));
            return false;
        }
        i = i + 1;
    }
    true
}

/// Whether the characters of `text` in `from..to` are all digits.
fn digits_only(text: &Vec<char>, from: usize, to: usize) -> (b: bool)
    requires
        from <= to <= text@.len(),
    ensures
        b == all_digits(text@, from as int, to as int),
{
    let mut i: usize = from;
    while i < to
        invariant
            from <= i <= to <= text@.len(),
            all_digits(text@, from as int, i as int),
        decreases to - i,
    {
        if !is_decimal_digit(text[i]) {
            return false;
        }
        i = i + 1;
    }
    true
}

/// Index of the first `a` or `b` of `text` in `from..to`; `to` if there is
/// none.
fn find_either(text: &Vec<char>, from: usize, to: usize, a: char, b: char) -> (k: usize)
    requires
        from <= to <= text@.len(),
    ensures
        from <= k <= to,
        k == first_either(text@, from as int, to as int, a, b),
{
    let mut i: usize = from;
    while i < to
        invariant
            from <= i <= to <= text@.len(),
            forall|j: int| from <= j < i ==> !#[trigger] either_at(text@, a, b)(j),
        decreases to - i,
    {
        if text[i] == a || text[i] == b {
            proof {
                lemma_first_index_is(from as int, to as int, either_at(text@, a, b), i as int);
            }
            return i;
        }
        i = i + 1;
    }
    proof {
        lemma_first_index_is(from as int, to as int, either_at(text@, a, b), to as int);
    }
    to
}

/// Whether the characters of `text` in `from..to` are a mantissa.
fn mantissa_in(text: &Vec<char>, from: usize, to: usize) -> (b: bool)
    requires
        from <= to <= text@.len(),
    ensures
        b == is_mantissa(text@, from as int, to as int),
{
    let dot: usize = find_either(text, from, to, '.', '.');
    if dot == to {
        from < to && digits_only(text, from, to)
    } else {
        digits_only(text, from, dot) && digits_only(text, dot + 1, to) && to - from >= 2
    }
}

/// Whether the characters of `text` in `from..to` are an exponent.
fn exponent_in(text: &Vec<char>, from: usize, to: usize) -> (b: bool)
    requires
        from <= to <= text@.len(),
    ensures
        b == is_exponent(text@, from as int, to as int),
{
    let start: usize = if from < to && (text[from] == '+' || text[from] == '-') {
        from + 1
    } else {
        from
    };
    start < to && digits_only(text, start, to)
}

/// Whether `text` is a decimal literal.
pub fn is_float_literal(text: &Vec<char>) -> (b: bool)
    ensures
        b == float_literal(text@),
{
    let n: usize = text.len();
    let from: usize = if 0 < n && (text[0] == '+' || text[0] == '-') {
        1
    } else {
        0
    };
    let inf: Vec<char> = vec!['i', 'n', 'f'];
    let infinity: Vec<char> = vec!['i', 'n', 'f', 'i', 'n', 'i', 't', 'y'];
    let nan: Vec<char> = vec!['n', 'a', 'n'];
    assert(inf@ == word_inf());
    assert(infinity@ == word_infinity());
    assert(nan@ == word_nan());
    if spells_word(text, from, n, &inf) || spells_word(text, from, n, &infinity) || spells_word(
        text,
        from,
        n,
        &nan,
    ) {
        return true;
    }
    let mark: usize = find_either(text, from, n, 'e', 'E');
    if mark == n {
        mantissa_in(text, from, n)
    } else {
        mantissa_in(text, from, mark) && exponent_in(text, mark + 1, n)
    }
}

/// Whether `text` holds an operator anywhere but as a sign in front.
pub fn holds_stray_operator(text: &Vec<char>) -> (b: bool)
    ensures
        b == has_stray_operator(text@),
{
    let n: usize = text.len();
    let mut i: usize = 0;
    while i < n
        invariant
            n == text@.len(),
            i <= n,
            forall|j: int|
                0 <= j < i ==> !(is_op(#[trigger] text@[j]) && !(j == 0 && is_low(text@[0]))),
        decreases n - i,
    {
        let c: char = text[i];
        if is_operator(c) && !(i == 0 && (c == '+' || c == '-')) {
            return true;
        }
        i = i + 1;
    }
    false
}

/// Accepts `text` as a number, or says what is wrong with it.
pub fn check_number(text: &Vec<char>) -> (r: Result<(), SyntaxError>)
    ensures
        match r {
            Ok(_) => number_error(text@) is None,
            Err(e) => number_error(text@) == Some(e),
        },
{
    if is_float_literal(text) {
        Ok(())
    } else if holds_stray_operator(text) {
        Err(SyntaxError::InvalidSyntax)
    } else {
        Err(SyntaxError::InvalidNumber)
    }
}

} // verus!
