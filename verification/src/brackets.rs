//! Bracket depth of a text, and what it means for a text to be balanced.

use vstd::prelude::*;
use crate::errors::ParenError;
use crate::search::{first_index, last_index, lemma_first_index, lemma_first_index_is};

verus! {

/// What a character adds to the number of open brackets.
pub open spec fn paren_delta(c: char) -> int {
    if c == '(' {
        1
    } else if c == ')' {
        -1
    } else {
        0
    }
}

/// Opening minus closing brackets among the first `i` characters of `s`.
pub open spec fn depth(s: Seq<char>, i: int) -> int
    decreases i,
{
    if i <= 0 {
        0
    } else {
        depth(s, i - 1) + paren_delta(s[i - 1])
    }
}

/// Some prefix of `s` closes more brackets than it opens.
pub open spec fn closes_early(s: Seq<char>) -> bool {
    exists|i: int| 0 <= i <= s.len() && #[trigger] depth(s, i) < 0
}

/// Every bracket of `s` has its partner, in the right order.
pub open spec fn balanced(s: Seq<char>) -> bool {
    !closes_early(s) && depth(s, s.len() as int) == 0
}

/// `s` holds no bracket.
pub open spec fn bracket_free(s: Seq<char>) -> bool {
    forall|i: int| 0 <= i < s.len() ==> s[i] != '(' && s[i] != ')'
}

/// The indices at which `s` holds `(`.
pub open spec fn opens_at(s: Seq<char>) -> spec_fn(int) -> bool {
    |i: int| s[i] == '('
}

/// The indices at which `s` holds a `)` that leaves no bracket open.
pub open spec fn closes_all_at(s: Seq<char>) -> spec_fn(int) -> bool {
    |i: int| s[i] == ')' && depth(s, i + 1) == 0
}

/// Index of the first `(` of `s`, or `s.len()`.
pub open spec fn first_open(s: Seq<char>) -> int {
    first_index(0, s.len() as int, opens_at(s))
}

/// Index of the first `)` of `s` that leaves no bracket open, or `s.len()`.
pub open spec fn first_close(s: Seq<char>) -> int {
    first_index(0, s.len() as int, closes_all_at(s))
}

/// The first bracket pair of `s` at the outermost level, or how the brackets
/// of `s` fail to match.
pub open spec fn first_span(s: Seq<char>) -> Result<Option<(int, int)>, ParenError> {
    if closes_early(s) {
        Err(ParenError::UnmatchedClose)
    } else if depth(s, s.len() as int) > 0 {
        Err(ParenError::UnmatchedOpen)
    } else if first_open(s) == s.len() {
        Ok(None)
    } else {
        Ok(Some((first_open(s), first_close(s))))
    }
}

/// `open` and `close` are the first `(` of `s` and the `)` that matches it.
pub open spec fn is_first_span(s: Seq<char>, open: int, close: int) -> bool {
    &&& 0 <= open < close < s.len()
    &&& s[open] == '('
    &&& forall|j: int| 0 <= j < open ==> s[j] != '('
    &&& s[close] == ')'
    &&& depth(s, close + 1) == 0
    &&& forall|j: int| open < j <= close ==> #[trigger] depth(s, j) > 0
}

/// Closing minus opening brackets among the characters of `s` from `i` on.
pub open spec fn depth_from_end(s: Seq<char>, i: int) -> int {
    depth(s, i) - depth(s, s.len() as int)
}

/// Some suffix of `s` opens more brackets than it closes.
pub open spec fn opens_late(s: Seq<char>) -> bool {
    exists|i: int| 0 <= i <= s.len() && #[trigger] depth_from_end(s, i) < 0
}

/// The indices at which `s` holds `)`.
pub open spec fn closes_at(s: Seq<char>) -> spec_fn(int) -> bool {
    |i: int| s[i] == ')'
}

/// The indices at which `s` holds a `(` with every bracket from there on
/// matched.
pub open spec fn opens_all_at(s: Seq<char>) -> spec_fn(int) -> bool {
    |i: int| s[i] == '(' && depth_from_end(s, i) == 0
}

/// Index of the last `)` of `s`, or `-1`.
pub open spec fn last_close(s: Seq<char>) -> int {
    last_index(0, s.len() as int, closes_at(s))
}

/// Index of the last `(` of `s` from which on every bracket is matched, or
/// `-1`.
pub open spec fn last_open(s: Seq<char>) -> int {
    last_index(0, s.len() as int, opens_all_at(s))
}

/// The last bracket pair of `s` at the outermost level, or how the brackets
/// of `s` fail to match. The text is read from its end, so that `)` opens a
/// pair and `(` closes it, and the errors are named in that reading: a `(`
/// with nothing open behind it is an unmatched close.
pub open spec fn last_span(s: Seq<char>) -> Result<Option<(int, int)>, ParenError> {
    if opens_late(s) {
        Err(ParenError::UnmatchedClose)
    } else if depth_from_end(s, 0) > 0 {
        Err(ParenError::UnmatchedOpen)
    } else if last_close(s) < 0 {
        Ok(None)
    } else {
        Ok(Some((last_open(s), last_close(s))))
    }
}

/// `open` and `close` are the last `)` of `s` and the `(` that matches it.
pub open spec fn is_last_span(s: Seq<char>, open: int, close: int) -> bool {
    &&& 0 <= open < close < s.len()
    &&& s[close] == ')'
    &&& forall|j: int| close < j < s.len() ==> s[j] != ')'
    &&& s[open] == '('
    &&& depth_from_end(s, open) == 0
    &&& forall|j: int| open < j <= close ==> #[trigger] depth_from_end(s, j) > 0
}

/// Depth inside a piece of `s` is depth in `s`, counted from where the piece
/// starts.
pub proof fn lemma_depth_subrange(s: Seq<char>, a: int, b: int, i: int)
    requires
        0 <= a <= b <= s.len(),
        0 <= i <= b - a,
    ensures
        depth(s.subrange(a, b), i) == depth(s, a + i) - depth(s, a),
    decreases i,
{
    if i > 0 {
        lemma_depth_subrange(s, a, b, i - 1);
    }
}

/// Depth in a concatenation: that of the first part, then that of the second
/// on top of it.
pub proof fn lemma_depth_concat(a: Seq<char>, b: Seq<char>, i: int)
    requires
        0 <= i <= a.len() + b.len(),
    ensures
        i <= a.len() ==> depth(a + b, i) == depth(a, i),
        i >= a.len() ==> depth(a + b, i) == depth(a, a.len() as int) + depth(b, i - a.len()),
    decreases i,
{
    if i > 0 {
        lemma_depth_concat(a, b, i - 1);
    }
}

/// A text without brackets has depth zero everywhere.
pub proof fn lemma_bracket_free_depth(s: Seq<char>, i: int)
    requires
        bracket_free(s),
        0 <= i <= s.len(),
    ensures
        depth(s, i) == 0,
    decreases i,
{
    if i > 0 {
        lemma_bracket_free_depth(s, i - 1);
    }
}

/// A text without brackets is balanced.
pub proof fn lemma_bracket_free_balanced(s: Seq<char>)
    requires
        bracket_free(s),
    ensures
        balanced(s),
{
    assert forall|i: int| 0 <= i <= s.len() implies depth(s, i) == 0 by {
        lemma_bracket_free_depth(s, i);
    }
}

/// Cutting a balanced text where no bracket is open leaves two balanced
/// texts.
pub proof fn lemma_balanced_cut(s: Seq<char>, k: int)
    requires
        balanced(s),
        0 <= k <= s.len(),
        depth(s, k) == 0,
    ensures
        balanced(s.subrange(0, k)),
        balanced(s.subrange(k, s.len() as int)),
{
    let n = s.len() as int;
    let a = s.subrange(0, k);
    let b = s.subrange(k, n);
    assert forall|i: int| 0 <= i <= a.len() implies depth(a, i) >= 0 by {
        lemma_depth_subrange(s, 0, k, i);
        assert(depth(s, i) >= 0);
    }
    lemma_depth_subrange(s, 0, k, k);
    assert forall|i: int| 0 <= i <= b.len() implies depth(b, i) >= 0 by {
        lemma_depth_subrange(s, k, n, i);
        assert(depth(s, k + i) >= 0);
    }
    lemma_depth_subrange(s, k, n, n - k);
}

/// Two balanced texts, one after the other, are balanced.
pub proof fn lemma_balanced_concat(a: Seq<char>, b: Seq<char>)
    requires
        balanced(a),
        balanced(b),
    ensures
        balanced(a + b),
{
    assert forall|i: int| 0 <= i <= (a + b).len() implies depth(a + b, i) >= 0 by {
        lemma_depth_concat(a, b, i);
        if i <= a.len() {
            assert(depth(a, i) >= 0);
        } else {
            assert(depth(b, i - a.len()) >= 0);
        }
    }
    lemma_depth_concat(a, b, (a + b).len() as int);
}

/// What stands between a bracket pair is balanced when nothing inside the
/// pair brings the depth back to that before it.
pub proof fn lemma_balanced_interior(s: Seq<char>)
    requires
        balanced(s),
        s.len() >= 2,
        s[0] == '(',
        forall|j: int| 0 < j < s.len() ==> #[trigger] depth(s, j) > 0,
    ensures
        balanced(s.subrange(1, s.len() - 1)),
        s[s.len() - 1] == ')',
{
    let n = s.len() as int;
    let t = s.subrange(1, n - 1);
    assert(depth(s, 1) == 1) by {
        assert(depth(s, 0) == 0);
    }
    assert(depth(s, n) == depth(s, n - 1) + paren_delta(s[n - 1]));
    assert(depth(s, n - 1) > 0);
    assert forall|i: int| 0 <= i <= t.len() implies depth(t, i) >= 0 by {
        lemma_depth_subrange(s, 1, n - 1, i);
        assert(depth(s, 1 + i) > 0);
    }
    lemma_depth_subrange(s, 1, n - 1, n - 2);
}

/// A text in which no suffix opens more than it closes, and which closes as
/// much as it opens, is balanced.
pub proof fn lemma_balanced_from_end(s: Seq<char>)
    requires
        !opens_late(s),
        depth_from_end(s, 0) == 0,
    ensures
        balanced(s),
{
    assert(depth(s, 0) == 0);
    assert forall|i: int| 0 <= i <= s.len() implies depth(s, i) >= 0 by {
        assert(depth_from_end(s, i) >= 0);
    }
}

/// Before the first `(` of a text that closes no bracket early, the depth is
/// zero.
pub proof fn lemma_depth_before_first_open(s: Seq<char>, i: int)
    requires
        !closes_early(s),
        0 <= i <= first_open(s),
    ensures
        depth(s, i) == 0,
    decreases i,
{
    lemma_first_index(0, s.len() as int, opens_at(s));
    if i > 0 {
        lemma_depth_before_first_open(s, i - 1);
        assert(!opens_at(s)(i - 1));
        assert(depth(s, i) >= 0);
    }
}

/// The indices at which the depth of `s` is zero.
pub open spec fn level_at(s: Seq<char>) -> spec_fn(int) -> bool {
    |i: int| depth(s, i) == 0
}

/// Where [`first_span`] names a pair, the pair is the first `(` and its
/// partner, and the text is balanced.
pub proof fn lemma_first_span_is(s: Seq<char>)
    requires
        first_span(s) is Ok,
        first_span(s)->Ok_0 is Some,
    ensures
        balanced(s),
        is_first_span(s, first_open(s), first_close(s)),
        first_span(s) == Ok::<Option<(int, int)>, ParenError>(
            Some((first_open(s), first_close(s))),
        ),
{
    let n = s.len() as int;
    let open = first_open(s);
    lemma_first_index(0, n, opens_at(s));
    assert(opens_at(s)(open));
    lemma_depth_before_first_open(s, open);
    assert(depth(s, open + 1) == depth(s, open) + paren_delta(s[open]));
    // The depth is positive behind the first `(` and zero at the end: it
    // comes back to zero somewhere.
    let back = first_index(open + 1, n + 1, level_at(s));
    lemma_first_index(open + 1, n + 1, level_at(s));
    assert(level_at(s)(n));
    assert(back <= n) by {
        if back == n + 1 {
            assert(!level_at(s)(n));
        }
    }
    assert(level_at(s)(back));
    assert(back > open + 1);
    let close = back - 1;
    assert(!level_at(s)(close));
    assert(depth(s, close) >= 0);
    assert(depth(s, close + 1) == depth(s, close) + paren_delta(s[close]));
    assert(closes_all_at(s)(close));
    assert forall|j: int| 0 <= j < close implies !#[trigger] closes_all_at(s)(j) by {
        assert(depth(s, j + 1) == depth(s, j) + paren_delta(s[j]));
        if j < open {
            lemma_depth_before_first_open(s, j);
            lemma_depth_before_first_open(s, j + 1);
        } else if j > open {
            assert(!level_at(s)(j + 1));
        }
    }
    lemma_first_index_is(0, n, closes_all_at(s), close);
    assert forall|j: int| open < j <= close implies #[trigger] depth(s, j) > 0 by {
        assert(!level_at(s)(j));
        assert(depth(s, j) >= 0);
    }
    assert forall|j: int| 0 <= j < open implies s[j] != '(' by {
        assert(!opens_at(s)(j));
    }
}

/// Where [`first_span`] names no pair, the text has no bracket.
pub proof fn lemma_first_span_none(s: Seq<char>)
    requires
        first_span(s) == Ok::<Option<(int, int)>, ParenError>(None),
    ensures
        bracket_free(s),
        balanced(s),
{
    lemma_first_index(0, s.len() as int, opens_at(s));
    assert forall|i: int| 0 <= i < s.len() implies s[i] != '(' && s[i] != ')' by {
        assert(!opens_at(s)(i));
        lemma_depth_before_first_open(s, i);
        lemma_depth_before_first_open(s, i + 1);
        assert(depth(s, i + 1) == depth(s, i) + paren_delta(s[i]));
    }
}

/// A text without brackets has no bracket pair to name.
pub proof fn lemma_bracket_free_span(s: Seq<char>)
    requires
        bracket_free(s),
    ensures
        first_span(s) == Ok::<Option<(int, int)>, ParenError>(None),
{
    lemma_bracket_free_balanced(s);
    lemma_first_index_is(0, s.len() as int, opens_at(s), s.len() as int);
}

} // verus!
