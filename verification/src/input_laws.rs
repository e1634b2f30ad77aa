//! What holds of the operation tree of a text as it is typed in, before
//! white space is removed and products are written out.

use vstd::prelude::*;
use crate::brackets::{
    balanced, bracket_free, closes_early, depth, lemma_bracket_free_balanced, paren_delta,
};
use crate::eq_sanitize::{
    explicit, is_space, lemma_explicit_unchanged, sanitized, visible, with_products,
    without_whitespace, DigitBeforeConstant, ProductRule, ValueBesideBracket,
};
use crate::errors::SyntaxError;
use crate::laws::{
    at_most_one_binary_low, bracketed, law_outer_brackets, law_standard_precedence,
    law_unmatched_brackets, lemma_literal_bracket_free, standard_spec,
};
use crate::number::float_literal;
use crate::operation_tree::{build_spec, Expr};

verus! {

/// The least depth that `s` has reached after any of its first `i`
/// characters, or before the first.
pub open spec fn least_depth(s: Seq<char>, i: int) -> int
    decreases i,
{
    if i <= 0 {
        0
    } else if depth(s, i) < least_depth(s, i - 1) {
        depth(s, i)
    } else {
        least_depth(s, i - 1)
    }
}

/// The least depth is the depth after some prefix, and no prefix goes below
/// it.
proof fn lemma_least_depth(s: Seq<char>, i: int)
    requires
        0 <= i <= s.len(),
    ensures
        least_depth(s, i) <= 0,
        forall|j: int| 0 <= j <= i ==> least_depth(s, i) <= #[trigger] depth(s, j),
        exists|j: int| 0 <= j <= i && least_depth(s, i) == #[trigger] depth(s, j),
    decreases i,
{
    if i > 0 {
        lemma_least_depth(s, i - 1);
        let before = choose|j: int|
            0 <= j <= i - 1 && least_depth(s, i - 1) == #[trigger] depth(s, j);
        if depth(s, i) < least_depth(s, i - 1) {
            assert(least_depth(s, i) == depth(s, i));
        } else {
            assert(least_depth(s, i) == depth(s, before));
        }
    } else {
        assert(least_depth(s, 0) == depth(s, 0));
    }
}

/// `s` and `t` end at the same depth and reach the same least depth, as two
/// texts do that differ only in characters that are no brackets.
pub open spec fn same_brackets(s: Seq<char>, t: Seq<char>) -> bool {
    &&& depth(s, s.len() as int) == depth(t, t.len() as int)
    &&& least_depth(s, s.len() as int) == least_depth(t, t.len() as int)
}

/// Texts with the same brackets fail on their brackets in the same way, or
/// not at all.
proof fn lemma_same_brackets(s: Seq<char>, t: Seq<char>)
    requires
        same_brackets(s, t),
    ensures
        closes_early(s) == closes_early(t),
        balanced(s) == balanced(t),
{
    lemma_least_depth(s, s.len() as int);
    lemma_least_depth(t, t.len() as int);
}

/// Depth and least depth at the end of a text with one more character.
proof fn lemma_depth_push(s: Seq<char>, c: char)
    ensures
        depth(s.push(c), s.len() as int + 1) == depth(s, s.len() as int) + paren_delta(c),
        least_depth(s.push(c), s.len() as int) == least_depth(s, s.len() as int),
{
    let t = s.push(c);
    assert forall|i: int| 0 <= i <= s.len() implies depth(t, i) == depth(s, i) && least_depth(t, i)
        == least_depth(s, i) by {
        lemma_prefix_depth(s, t, i);
    }
    assert(depth(t, s.len() as int + 1) == depth(t, s.len() as int) + paren_delta(
        t[s.len() as int],
    ));
}

/// Depth and least depth at `i` depend on the first `i` characters only.
proof fn lemma_prefix_depth(s: Seq<char>, t: Seq<char>, i: int)
    requires
        0 <= i <= s.len(),
        i <= t.len(),
        forall|j: int| 0 <= j < i ==> s[j] == t[j],
    ensures
        depth(s, i) == depth(t, i),
        least_depth(s, i) == least_depth(t, i),
    decreases i,
{
    if i > 0 {
        lemma_prefix_depth(s, t, i - 1);
    }
}

/// A character that is no bracket, put behind a text, leaves its brackets
/// as they are.
proof fn lemma_push_plain(s: Seq<char>, c: char)
    requires
        c != '(' && c != ')',
    ensures
        same_brackets(s, s.push(c)),
{
    lemma_depth_push(s, c);
    let t = s.push(c);
    let n = s.len() as int;
    lemma_least_depth(s, n);
    assert(least_depth(t, n + 1) == least_depth(t, n));
}

/// The same character put behind two texts with the same brackets leaves
/// them with the same brackets.
proof fn lemma_push_both(s: Seq<char>, t: Seq<char>, c: char)
    requires
        same_brackets(s, t),
    ensures
        same_brackets(s.push(c), t.push(c)),
{
    lemma_depth_push(s, c);
    lemma_depth_push(t, c);
}

/// Removing white space leaves the brackets of a text as they are.
proof fn lemma_without_whitespace_same_brackets(s: Seq<char>)
    ensures
        same_brackets(s, without_whitespace(s)),
    decreases s.len(),
{
    reveal(Seq::filter);
    if s.len() > 0 {
        let head = s.drop_last();
        lemma_without_whitespace_same_brackets(head);
        assert(head.push(s.last()) == s);
        if is_space(s.last()) {
            lemma_push_plain(head, s.last());
        } else {
            lemma_push_both(head, without_whitespace(head), s.last());
        }
    }
}

/// Writing out products leaves the brackets of a text as they are.
proof fn lemma_with_products_same_brackets<R: ProductRule>(s: Seq<char>, rule: R)
    ensures
        same_brackets(s, with_products(s, rule)),
    decreases s.len(),
{
    if s.len() > 1 {
        let head = s.drop_last();
        let done = with_products(head, rule);
        lemma_with_products_same_brackets(head, rule);
        assert(head.push(s.last()) == s);
        if rule.applies(s[s.len() - 2], s.last()) {
            lemma_push_plain(done, '*');
            lemma_push_both(head, done.push('*'), s.last());
        } else {
            lemma_push_both(head, done, s.last());
        }
    }
}

/// Sanitizing leaves the brackets of a text as they are.
pub proof fn lemma_sanitized_same_brackets(text: Seq<char>)
    ensures
        same_brackets(text, sanitized(text)),
        closes_early(sanitized(text)) == closes_early(text),
        balanced(sanitized(text)) == balanced(text),
        depth(sanitized(text), sanitized(text).len() as int) == depth(text, text.len() as int),
{
    let bare = without_whitespace(text);
    let marked = with_products(bare, DigitBeforeConstant);
    lemma_without_whitespace_same_brackets(text);
    lemma_with_products_same_brackets(bare, DigitBeforeConstant);
    lemma_with_products_same_brackets(marked, ValueBesideBracket);
    lemma_same_brackets(text, sanitized(text));
}

/// A text as typed in fails for its brackets just when they do not match,
/// and the error says how: `UnmatchedClose` where a bracket is closed that
/// was not opened, else `UnmatchedOpen` where one stays open.
pub proof fn law_unmatched_brackets_of_input(text: Seq<char>)
    ensures
        closes_early(text) <==> build_spec(sanitized(text)) == Err::<Expr, SyntaxError>(
            SyntaxError::UnmatchedClose,
        ),
        !closes_early(text) && depth(text, text.len() as int) > 0 <==> build_spec(
            sanitized(text),
        ) == Err::<Expr, SyntaxError>(SyntaxError::UnmatchedOpen),
{
    lemma_sanitized_same_brackets(text);
    law_unmatched_brackets(sanitized(text));
}

/// Removing white space brings no bracket into a text.
proof fn lemma_without_whitespace_bracket_free(s: Seq<char>)
    requires
        bracket_free(s),
    ensures
        bracket_free(without_whitespace(s)),
    decreases s.len(),
{
    reveal(Seq::filter);
    if s.len() > 0 {
        lemma_without_whitespace_bracket_free(s.drop_last());
    }
}

/// Writing out products brings no bracket into a text.
proof fn lemma_with_products_bracket_free<R: ProductRule>(s: Seq<char>, rule: R)
    requires
        bracket_free(s),
    ensures
        bracket_free(with_products(s, rule)),
    decreases s.len(),
{
    if s.len() > 1 {
        lemma_with_products_bracket_free(s.drop_last(), rule);
    }
}

/// The same as [`law_standard_precedence`], of a text as it is typed in: if
/// it holds no bracket and no digit directly in front of a constant's
/// letter, then sanitizing only removes its white space, and its tree is
/// that of the usual grammar.
pub proof fn law_standard_precedence_of_input(text: Seq<char>)
    requires
        bracket_free(text),
        explicit(without_whitespace(text), DigitBeforeConstant),
        at_most_one_binary_low(without_whitespace(text)),
        build_spec(sanitized(text)) is Ok,
    ensures
        sanitized(text) == without_whitespace(text),
        build_spec(sanitized(text)) == standard_spec(without_whitespace(text)),
{
    let bare = without_whitespace(text);
    lemma_without_whitespace_bracket_free(text);
    lemma_explicit_unchanged(bare, DigitBeforeConstant);
    assert(explicit(bare, ValueBesideBracket));
    lemma_explicit_unchanged(bare, ValueBesideBracket);
    law_standard_precedence(bare);
}

/// Products are written out in a text with one more character as in the
/// text, and then between its last character and the new one.
proof fn lemma_with_products_push<R: ProductRule>(s: Seq<char>, c: char, rule: R)
    requires
        s.len() > 0,
    ensures
        with_products(s.push(c), rule) == if rule.applies(s.last(), c) {
            with_products(s, rule).push('*').push(c)
        } else {
            with_products(s, rule).push(c)
        },
{
    let t = s.push(c);
    assert(t.drop_last() == s);
    assert(t[t.len() - 2] == s.last());
}

/// A character in front of a text, with no product due between the two,
/// stays in front when products are written out.
proof fn lemma_with_products_behind<R: ProductRule>(c: char, s: Seq<char>, rule: R)
    requires
        s.len() > 0 ==> !rule.applies(c, s[0]),
    ensures
        with_products(seq![c] + s, rule) == seq![c] + with_products(s, rule),
    decreases s.len(),
{
    if s.len() == 0 {
        assert(seq![c] + s == seq![c]);
        assert(seq![c] + with_products(s, rule) == seq![c]);
    } else {
        let head = s.drop_last();
        let d = s.last();
        assert(head.push(d) == s);
        assert((seq![c] + head).push(d) == seq![c] + s);
        lemma_with_products_push(seq![c] + head, d, rule);
        if head.len() == 0 {
            assert(seq![c] + head == seq![c]);
            assert(s == seq![d]);
            assert(seq![c].push(d) == seq![c] + seq![d]);
        } else {
            assert(head[0] == s[0]);
            lemma_with_products_behind(c, head, rule);
            lemma_with_products_push(head, d, rule);
            assert((seq![c] + head).last() == head.last());
            let done = with_products(head, rule);
            assert((seq![c] + done).push(d) == seq![c] + done.push(d));
            assert((seq![c] + done).push('*').push(d) == seq![c] + done.push('*').push(d));
        }
    }
}

/// A text between brackets, with no product due beside either bracket, stays
/// between them when products are written out.
proof fn lemma_with_products_bracketed<R: ProductRule>(s: Seq<char>, rule: R)
    requires
        s.len() > 0 ==> !rule.applies('(', s[0]) && !rule.applies(s.last(), ')'),
        !rule.applies('(', ')'),
    ensures
        with_products(bracketed(s), rule) == bracketed(with_products(s, rule)),
{
    let front = seq!['('] + s;
    assert(bracketed(s) == front.push(')'));
    lemma_with_products_push(front, ')', rule);
    lemma_with_products_behind('(', s, rule);
    if s.len() > 0 {
        assert(front.last() == s.last());
    } else {
        assert(front.last() == '(');
    }
    let done = with_products(s, rule);
    assert((seq!['('] + done).push(')') == bracketed(done));
}

/// A text without brackets, typed in between a pair of brackets, has the
/// tree that it has without them.
pub proof fn law_bracketed_input(text: Seq<char>)
    requires
        bracket_free(text),
    ensures
        sanitized(bracketed(text)) == bracketed(sanitized(text)),
        build_spec(sanitized(bracketed(text))) == build_spec(sanitized(text)),
{
    let bare = without_whitespace(text);
    let marked = with_products(bare, DigitBeforeConstant);
    let clean = with_products(marked, ValueBesideBracket);
    assert(without_whitespace(bracketed(text)) == bracketed(bare)) by {
        reveal_with_fuel(Seq::filter, 2);
        Seq::filter_distributes_over_add(seq!['('] + text, seq![')'], visible());
        Seq::filter_distributes_over_add(seq!['('], text, visible());
        assert(seq!['('].drop_last() == Seq::<char>::empty());
        assert(seq![')'].drop_last() == Seq::<char>::empty());
        assert(seq!['('].filter(visible()) == seq!['(']);
        assert(seq![')'].filter(visible()) == seq![')']);
    }
    lemma_without_whitespace_bracket_free(text);
    lemma_with_products_bracket_free(bare, DigitBeforeConstant);
    lemma_with_products_bracket_free(marked, ValueBesideBracket);
    lemma_with_products_bracketed(bare, DigitBeforeConstant);
    lemma_with_products_bracketed(marked, ValueBesideBracket);
    lemma_bracket_free_balanced(clean);
    law_outer_brackets(clean);
}

/// A decimal literal typed in between a pair of brackets has the tree that
/// it has without them.
pub proof fn law_bracketed_literal_of_input(n: Seq<char>)
    requires
        float_literal(n),
    ensures
        build_spec(sanitized(bracketed(n))) == build_spec(sanitized(n)),
{
    lemma_literal_bracket_free(n);
    law_bracketed_input(n);
}

} // verus!
