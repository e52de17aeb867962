//! Searching a range of positions for the first or the last one that
//! satisfies a predicate.
use vstd::prelude::*;

verus! {

/// The smallest position in `[i, n)` at which `pred` holds, if any.
pub open spec fn first_where(i: int, n: int, pred: spec_fn(int) -> bool) -> Option<int>
    decreases n - i,
{
    if i >= n {
        None
    } else if pred(i) {
        Some(i)
    } else {
        first_where(i + 1, n, pred)
    }
}

/// The largest position in `[0, n)` at which `pred` holds, if any.
pub open spec fn last_where(n: int, pred: spec_fn(int) -> bool) -> Option<int>
    decreases n,
{
    if n <= 0 {
        None
    } else if pred(n - 1) {
        Some(n - 1)
    } else {
        last_where(n - 1, pred)
    }
}

/// Positions that fail `pred` can be skipped at the front of a forward search.
pub proof fn lemma_first_where_skip(i: int, j: int, n: int, pred: spec_fn(int) -> bool)
    requires
        i <= j,
        forall|k: int| i <= k < j ==> !#[trigger] pred(k),
    ensures
        first_where(i, n, pred) == first_where(j, n, pred),
    decreases j - i,
{
    if i < j {
        lemma_first_where_skip(i + 1, j, n, pred);
    }
}

/// Positions that fail `pred` can be skipped at the back of a backward search.
pub proof fn lemma_last_where_skip(m: int, n: int, pred: spec_fn(int) -> bool)
    requires
        m <= n,
        forall|k: int| m <= k < n ==> !#[trigger] pred(k),
    ensures
        last_where(n, pred) == last_where(m, pred),
    decreases n - m,
{
    if m < n {
        lemma_last_where_skip(m, n - 1, pred);
    }
}

/// What a forward search finds satisfies `pred`, and nothing before it does.
pub proof fn lemma_first_where_found(i: int, n: int, pred: spec_fn(int) -> bool)
    ensures
        first_where(i, n, pred) matches Some(p) ==> i <= p < n && pred(p) && forall|k: int|
            i <= k < p ==> !#[trigger] pred(k),
        first_where(i, n, pred) is None ==> forall|k: int| i <= k < n ==> !#[trigger] pred(k),
    decreases n - i,
{
    if i < n && !pred(i) {
        lemma_first_where_found(i + 1, n, pred);
    }
}

/// What a backward search finds satisfies `pred`, and nothing after it does.
pub proof fn lemma_last_where_found(n: int, pred: spec_fn(int) -> bool)
    ensures
        last_where(n, pred) matches Some(p) ==> 0 <= p < n && pred(p) && forall|k: int|
            p < k < n ==> !#[trigger] pred(k),
        last_where(n, pred) is None ==> forall|k: int| 0 <= k < n ==> !#[trigger] pred(k),
    decreases n,
{
    if n > 0 && !pred(n - 1) {
        lemma_last_where_found(n - 1, pred);
    }
}

} // verus!
