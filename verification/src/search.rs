//! First and last index in a range at which a predicate holds.

use vstd::prelude::*;

verus! {

/// The least index in `lo..hi` at which `p` holds, or `hi` if there is none.
pub open spec fn first_index(lo: int, hi: int, p: spec_fn(int) -> bool) -> int
    decreases hi - lo,
{
    if lo >= hi {
        hi
    } else if p(lo) {
        lo
    } else {
        first_index(lo + 1, hi, p)
    }
}

/// The greatest index in `lo..hi` at which `p` holds, or `lo - 1` if there is
/// none.
pub open spec fn last_index(lo: int, hi: int, p: spec_fn(int) -> bool) -> int
    decreases hi - lo,
{
    if lo >= hi {
        lo - 1
    } else if p(hi - 1) {
        hi - 1
    } else {
        last_index(lo, hi - 1, p)
    }
}

/// `first_index` lies in `lo..=hi`, satisfies `p` when below `hi`, and nothing
/// before it does.
pub proof fn lemma_first_index(lo: int, hi: int, p: spec_fn(int) -> bool)
    requires
        lo <= hi,
    ensures
        lo <= first_index(lo, hi, p) <= hi,
        first_index(lo, hi, p) < hi ==> p(first_index(lo, hi, p)),
        forall|j: int| lo <= j < first_index(lo, hi, p) ==> !#[trigger] p(j),
    decreases hi - lo,
{
    if lo < hi && !p(lo) {
        lemma_first_index(lo + 1, hi, p);
    }
}

/// An index that satisfies `p`, with none before it that does, is
/// `first_index`.
pub proof fn lemma_first_index_is(lo: int, hi: int, p: spec_fn(int) -> bool, k: int)
    requires
        lo <= k <= hi,
        k < hi ==> p(k),
        forall|j: int| lo <= j < k ==> !#[trigger] p(j),
    ensures
        first_index(lo, hi, p) == k,
    decreases hi - lo,
{
    if lo < hi && lo < k {
        lemma_first_index_is(lo + 1, hi, p, k);
    }
}

/// `last_index` lies in `lo - 1..hi`, satisfies `p` when at least `lo`, and
/// nothing after it does.
pub proof fn lemma_last_index(lo: int, hi: int, p: spec_fn(int) -> bool)
    requires
        lo <= hi,
    ensures
        lo - 1 <= last_index(lo, hi, p) < hi,
        last_index(lo, hi, p) >= lo ==> p(last_index(lo, hi, p)),
        forall|j: int| last_index(lo, hi, p) < j < hi ==> !#[trigger] p(j),
    decreases hi - lo,
{
    if lo < hi && !p(hi - 1) {
        lemma_last_index(lo, hi - 1, p);
    }
}

/// An index that satisfies `p`, with none after it that does, is `last_index`.
pub proof fn lemma_last_index_is(lo: int, hi: int, p: spec_fn(int) -> bool, k: int)
    requires
        lo - 1 <= k < hi,
        k >= lo ==> p(k),
        forall|j: int| k < j < hi ==> !#[trigger] p(j),
    ensures
        last_index(lo, hi, p) == k,
    decreases hi - lo,
{
    if lo < hi && k < hi - 1 {
        lemma_last_index_is(lo, hi - 1, p, k);
    }
}

} // verus!
