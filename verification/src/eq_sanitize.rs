//! Making the products of an expression explicit.

use vstd::prelude::*;
use crate::errors::SyntaxError;
use crate::math_characters::{is_constant_char, is_math_character};
use crate::precedences::{is_op, is_operator};
use crate::EquationString;

verus! {

/// `c` is white space: a character with the Unicode property `White_Space`.
pub open spec fn is_space(c: char) -> bool {
    let u = c as u32;
    ||| 0x09 <= u <= 0x0d
    ||| u == 0x20
    ||| u == 0x85
    ||| u == 0xa0
    ||| u == 0x1680
    ||| 0x2000 <= u <= 0x200a
    ||| u == 0x2028
    ||| u == 0x2029
    ||| u == 0x202f
    ||| u == 0x205f
    ||| u == 0x3000
}

/// The characters that stay when white space is removed.
pub open spec fn visible() -> spec_fn(char) -> bool {
    |c: char| !is_space(c)
}

/// `s` without its white space.
pub open spec fn without_whitespace(s: Seq<char>) -> Seq<char> {
    s.filter(visible())
}

/// Whether `c` is white space.
pub fn is_whitespace(c: char) -> (b: bool)
    ensures
        b == is_space(c),
{
    let u: u32 = c as u32;
    (0x09 <= u && u <= 0x0d) || u == 0x20 || u == 0x85 || u == 0xa0 || u == 0x1680 || (0x2000 <= u
        && u <= 0x200a) || u == 0x2028 || u == 0x2029 || u == 0x202f || u == 0x205f || u == 0x3000
}

/// `c` is one of the digits `0` to `9`.
pub open spec fn is_digit(c: char) -> bool {
    '0' <= c <= '9'
}

/// Whether `c` is one of the digits `0` to `9`.
pub fn is_decimal_digit(c: char) -> (b: bool)
    ensures
        b == is_digit(c),
{
    '0' <= c && c <= '9'
}

/// A rule that says between which two neighbours a `*` is missing.
pub trait ProductRule {
    /// A `*` is missing between `before` and `after`.
    spec fn applies(&self, before: char, after: char) -> bool;

    /// Whether a `*` is missing between `before` and `after`.
    fn asks_for(&self, before: char, after: char) -> (b: bool)
        ensures
            b == self.applies(before, after),
    ;
}

/// A digit directly in front of a constant's name multiplies it: `5π`.
#[derive(Debug, Clone, Copy)]
pub struct DigitBeforeConstant;

/// A value directly beside a bracket multiplies it: `5(`, `)(`, `)5`.
#[derive(Debug, Clone, Copy)]
pub struct ValueBesideBracket;

impl ProductRule for DigitBeforeConstant {
    open spec fn applies(&self, before: char, after: char) -> bool {
        is_digit(before) && is_constant_char(after)
    }

    fn asks_for(&self, before: char, after: char) -> (b: bool) {
        is_math_character(after) && is_decimal_digit(before)
    }
}

impl ProductRule for ValueBesideBracket {
    open spec fn applies(&self, before: char, after: char) -> bool {
        ||| after == '(' && !is_op(before) && before != '('
        ||| before == ')' && !is_op(after)
    }

    fn asks_for(&self, before: char, after: char) -> (b: bool) {
        (after == '(' && !is_operator(before) && before != '(') || (before == ')' && !is_operator(
            after,
        ))
    }
}

/// `s` with a `*` put between every two neighbours to which `rule` applies.
pub open spec fn with_products<R: ProductRule>(s: Seq<char>, rule: R) -> Seq<char>
    decreases s.len(),
{
    if s.len() <= 1 {
        s
    } else {
        let head = with_products(s.drop_last(), rule);
        if rule.applies(s[s.len() - 2], s.last()) {
            head.push('*').push(s.last())
        } else {
            head.push(s.last())
        }
    }
}

/// `s` made ready for splitting: white space removed, then a `*` put behind
/// every digit that a constant follows, then a `*` put between every bracket
/// and a value beside it.
pub open spec fn sanitized(s: Seq<char>) -> Seq<char> {
    with_products(
        with_products(without_whitespace(s), DigitBeforeConstant),
        ValueBesideBracket,
    )
}

/// `eq` with a `*` put between every two neighbours to which `rule` applies.
pub fn insert_products<R: ProductRule>(eq: &Vec<char>, rule: &R) -> (out: Vec<char>)
    ensures
        out@ == with_products(eq@, *rule),
{
    let n: usize = eq.len();
    let mut out: Vec<char> = Vec::new();
    let mut i: usize = 0;
    while i < n
        invariant
            n == eq@.len(),
            i <= n,
            out@ == with_products(eq@.take(i as int), *rule),
        decreases n - i,
    {
        let current_char: char = eq[i];
        proof {
            let next = eq@.take(i + 1);
            assert(next.drop_last() == eq@.take(i as int));
            assert(next.last() == current_char);
            if i > 0 {
                assert(next[next.len() - 2] == eq@[i - 1]);
            } else {
                assert(next == seq![current_char]);
                assert(eq@.take(0) == Seq::<char>::empty());
                assert(out@.push(current_char) == next);
            }
        }
        if i > 0 && rule.asks_for(eq[i - 1], current_char) {
            out.push('*');
        }
        out.push(current_char);
        i = i + 1;
    }
    proof {
        assert(eq@.take(n as int) == eq@);
    }
    out
}

/// The steps that make an expression ready for splitting.
pub trait EqSanitize: Sized + View<V = Seq<char>> {
    /// The characters of `eq` that are not white space.
    fn remove_whitespaces(eq: &str) -> (r: Self)
        ensures
            r@ == without_whitespace(eq@),
    ;

    /// Puts a `*` between a digit and the constant that follows it:
    /// `5π` becomes `5*π`.
    fn handle_special_character_multiplication(&self) -> (r: Result<Self, SyntaxError>)
        ensures
            r matches Ok(out) && out@ == with_products(self@, DigitBeforeConstant),
    ;

    /// Puts a `*` between a bracket and the value beside it: `5(2)` becomes
    /// `5*(2)`, and `(2)(3)` becomes `(2)*(3)`.
    fn handle_direct_multiplication(&self) -> (r: Result<Self, SyntaxError>)
        ensures
            r matches Ok(out) && out@ == with_products(self@, ValueBesideBracket),
    ;

    /// The text as a `String`.
    fn to_string(self) -> (r: String)
        ensures
            r@ == self@,
    ;
}

/// `String::push` appends `ch` to the string, and changes nothing else of it.
pub assume_specification[ String::push ](s: &mut String, ch: char)
    ensures
        final(s)@ == old(s)@.push(ch),
;

impl EqSanitize for EquationString {
    fn remove_whitespaces(eq: &str) -> (r: Self) {
        let mut out: Vec<char> = Vec::new();
        for c in it: eq.chars()
            invariant
                it.seq() == eq@,
                out@ == without_whitespace(eq@.take(it.index() as int)),
        {
            proof {
                reveal(Seq::filter);
                assert(c == eq@[it.index() as int]);
                assert(eq@.take(it.index() + 1).drop_last() == eq@.take(it.index() as int));
            }
            if !is_whitespace(c) {
                out.push(c);
            }
        }
        proof {
            assert(eq@.take(eq@.len() as int) == eq@);
        }
        out
    }

    fn handle_special_character_multiplication(&self) -> (r: Result<Self, SyntaxError>) {
        Ok(insert_products(self, &DigitBeforeConstant))
    }

    fn handle_direct_multiplication(&self) -> (r: Result<Self, SyntaxError>) {
        Ok(insert_products(self, &ValueBesideBracket))
    }

    fn to_string(self) -> (r: String) {
        let mut out = String::new();
        let mut i: usize = 0;
        while i < self.len()
            invariant
                i <= self@.len(),
                out@ == self@.take(i as int),
            decreases self@.len() - i,
        {
            out.push(self[i]);
            proof {
                assert(self@.take(i + 1) == self@.take(i as int).push(self@[i as int]));
            }
            i = i + 1;
        }
        proof {
            assert(self@.take(self@.len() as int) == self@);
        }
        out
    }
}

/// No `*` is missing in `s` by `rule`.
pub open spec fn explicit<R: ProductRule>(s: Seq<char>, rule: R) -> bool {
    forall|i: int| 0 < i < s.len() ==> !rule.applies(#[trigger] s[i - 1], s[i])
}

/// `rule` asks for no `*` beside a `*`.
pub open spec fn leaves_products_alone<R: ProductRule>(rule: R) -> bool {
    forall|a: char, b: char|
        !(#[trigger] rule.applies(a, b) && (a == '*' || b == '*'))
}

/// `rule` asks for no `*` beside an operator.
pub open spec fn leaves_operators_alone<R: ProductRule>(rule: R) -> bool {
    forall|a: char, b: char| #[trigger] rule.applies(a, b) ==> !is_op(a) && !is_op(b)
}

/// `s` holds no white space.
pub open spec fn dense(s: Seq<char>) -> bool {
    forall|i: int| 0 <= i < s.len() ==> !is_space(#[trigger] s[i])
}

/// Putting in products keeps the first and the last character, and adds
/// nothing but `*`.
pub proof fn lemma_with_products_ends<R: ProductRule>(s: Seq<char>, rule: R)
    ensures
        with_products(s, rule).len() >= s.len(),
        s.len() > 0 ==> with_products(s, rule)[0] == s[0] && with_products(s, rule).last()
            == s.last(),
        dense(s) ==> dense(with_products(s, rule)),
    decreases s.len(),
{
    if s.len() > 1 {
        lemma_with_products_ends(s.drop_last(), rule);
    }
}

/// A text in which no `*` is missing stays as it is.
pub proof fn lemma_explicit_unchanged<R: ProductRule>(s: Seq<char>, rule: R)
    requires
        explicit(s, rule),
    ensures
        with_products(s, rule) == s,
    decreases s.len(),
{
    if s.len() > 1 {
        let head = s.drop_last();
        assert forall|i: int| 0 < i < head.len() implies !rule.applies(
            #[trigger] head[i - 1],
            head[i],
        ) by {
            assert(head[i - 1] == s[i - 1]);
        }
        lemma_explicit_unchanged(head, rule);
        assert(!rule.applies(s[s.len() - 1 - 1], s[s.len() - 1]));
        assert(head.push(s.last()) == s);
    }
}

/// Once the products of `first` are put in, no product of `second` is
/// missing, provided that `second` asks for no `*` beside a `*` and for none
/// where `first` does not ask for one too.
pub proof fn lemma_products_made_explicit<R1: ProductRule, R2: ProductRule>(
    s: Seq<char>,
    first: R1,
    second: R2,
)
    requires
        leaves_products_alone(second),
        forall|i: int|
            0 < i < s.len() && second.applies(#[trigger] s[i - 1], s[i]) ==> first.applies(
                s[i - 1],
                s[i],
            ),
    ensures
        explicit(with_products(s, first), second),
    decreases s.len(),
{
    if s.len() > 1 {
        let head = s.drop_last();
        assert forall|i: int|
            0 < i < head.len() && second.applies(
                #[trigger] head[i - 1],
                head[i],
            ) implies first.applies(head[i - 1], head[i]) by {
            assert(head[i - 1] == s[i - 1]);
        }
        lemma_products_made_explicit(head, first, second);
        lemma_with_products_ends(head, first);
        let done = with_products(head, first);
        let out = with_products(s, first);
        let n = s.len() as int;
        assert(done.last() == s[n - 1 - 1]);
        assert forall|i: int| 0 < i < out.len() implies !second.applies(
            #[trigger] out[i - 1],
            out[i],
        ) by {
            if i < done.len() {
                assert(out[i - 1] == done[i - 1] && out[i] == done[i]);
            } else if first.applies(s[n - 2], s.last()) {
                assert(out[i - 1] == '*' || out[i] == '*');
            } else {
                assert(out[i - 1] == s[n - 1 - 1] && out[i] == s[n - 1]);
            }
        }
    }
}

/// Neither rule of the sanitizer asks for a `*` beside an operator, and so
/// none beside a `*`.
pub proof fn law_no_product_beside_operator()
    ensures
        leaves_operators_alone(DigitBeforeConstant),
        leaves_operators_alone(ValueBesideBracket),
        leaves_products_alone(DigitBeforeConstant),
        leaves_products_alone(ValueBesideBracket),
{
}

/// Removing white space leaves none, and changes nothing where there is
/// none.
pub proof fn lemma_without_whitespace(s: Seq<char>)
    ensures
        dense(without_whitespace(s)),
        dense(s) ==> without_whitespace(s) == s,
    decreases s.len(),
{
    reveal(Seq::filter);
    if s.len() > 0 {
        lemma_without_whitespace(s.drop_last());
        if dense(s) {
            assert forall|i: int| 0 <= i < s.drop_last().len() implies !is_space(
                #[trigger] s.drop_last()[i],
            ) by {
                assert(s.drop_last()[i] == s[i]);
            }
            assert(!is_space(s[s.len() - 1]));
            assert(s.drop_last().push(s.last()) == s);
        }
    }
}

/// A sanitized text holds no white space, and no product is missing in it
/// by either rule.
pub proof fn law_sanitized_is_explicit(s: Seq<char>)
    ensures
        dense(sanitized(s)),
        explicit(sanitized(s), DigitBeforeConstant),
        explicit(sanitized(s), ValueBesideBracket),
{
    let bare = without_whitespace(s);
    let marked = with_products(bare, DigitBeforeConstant);
    lemma_without_whitespace(s);
    lemma_with_products_ends(bare, DigitBeforeConstant);
    lemma_with_products_ends(marked, ValueBesideBracket);
    law_no_product_beside_operator();
    lemma_products_made_explicit(bare, DigitBeforeConstant, DigitBeforeConstant);
    lemma_products_made_explicit(marked, ValueBesideBracket, DigitBeforeConstant);
    lemma_products_made_explicit(marked, ValueBesideBracket, ValueBesideBracket);
}

/// Sanitizing is idempotent: a sanitized text is its own sanitized form.
pub proof fn law_sanitize_idempotent(s: Seq<char>)
    ensures
        sanitized(sanitized(s)) == sanitized(s),
{
    let out = sanitized(s);
    law_sanitized_is_explicit(s);
    lemma_without_whitespace(out);
    lemma_explicit_unchanged(out, DigitBeforeConstant);
    lemma_explicit_unchanged(out, ValueBesideBracket);
}

} // verus!
