//! Index searches over a half-open interval of integers, used to describe
//! scans over the nodes of a syntax tree.

use vstd::prelude::*;

verus! {

/// The first index in `lo..hi` at which `f` holds, or `hi` if there is none.
pub open spec fn first_from(lo: int, hi: int, f: spec_fn(int) -> bool) -> int
    decreases hi - lo,
{
    if lo >= hi {
        hi
    } else if f(lo) {
        lo
    } else {
        first_from(lo + 1, hi, f)
    }
}

/// The last index in `lo..hi` at which `f` holds, or `lo - 1` if there is
/// none.
pub open spec fn last_before(lo: int, hi: int, f: spec_fn(int) -> bool) -> int
    decreases hi - lo,
{
    if hi <= lo {
        lo - 1
    } else if f(hi - 1) {
        hi - 1
    } else {
        last_before(lo, hi - 1, f)
    }
}

/// Every index in `lo..hi` at which `f` holds, in increasing order.
pub open spec fn select(lo: int, hi: int, f: spec_fn(int) -> bool) -> Seq<int>
    decreases hi - lo,
{
    if hi <= lo {
        Seq::empty()
    } else if f(hi - 1) {
        select(lo, hi - 1, f).push(hi - 1)
    } else {
        select(lo, hi - 1, f)
    }
}

pub proof fn lemma_first_from(lo: int, hi: int, f: spec_fn(int) -> bool)
    requires
        lo <= hi,
    ensures
        lo <= first_from(lo, hi, f) <= hi,
        first_from(lo, hi, f) < hi ==> f(first_from(lo, hi, f)),
        forall|k: int| lo <= k < first_from(lo, hi, f) ==> !#[trigger] f(k),
    decreases hi - lo,
{
    if lo < hi && !f(lo) {
        lemma_first_from(lo + 1, hi, f);
    }
}

pub proof fn lemma_last_before(lo: int, hi: int, f: spec_fn(int) -> bool)
    requires
        lo <= hi,
    ensures
        lo - 1 <= last_before(lo, hi, f) < hi,
        last_before(lo, hi, f) >= lo ==> f(last_before(lo, hi, f)),
        forall|k: int| last_before(lo, hi, f) < k < hi ==> !#[trigger] f(k),
    decreases hi - lo,
{
    if lo < hi && !f(hi - 1) {
        lemma_last_before(lo, hi - 1, f);
    }
}

/// Starting the search at an index where `f` fails changes nothing.
pub proof fn lemma_first_from_skip(lo: int, mid: int, hi: int, f: spec_fn(int) -> bool)
    requires
        lo <= mid <= hi,
        forall|k: int| lo <= k < mid ==> !#[trigger] f(k),
    ensures
        first_from(lo, hi, f) == first_from(mid, hi, f),
    decreases mid - lo,
{
    if lo < mid {
        lemma_first_from_skip(lo + 1, mid, hi, f);
    }
}

/// Ending the backward search above indices where `f` fails changes
/// nothing.
pub proof fn lemma_last_before_skip(lo: int, mid: int, hi: int, f: spec_fn(int) -> bool)
    requires
        lo <= mid <= hi,
        forall|k: int| mid <= k < hi ==> !#[trigger] f(k),
    ensures
        last_before(lo, hi, f) == last_before(lo, mid, f),
    decreases hi - mid,
{
    if mid < hi {
        lemma_last_before_skip(lo, mid, hi - 1, f);
    }
}

} // verus!
