//! Limit and offset applied to an ordered listing, and what paging through
//! a listing guarantees.

use vstd::prelude::*;
use vstd::math::min;

verus! {

/// The slice of `s` that a listing returns: skip `offset` rows (all of
/// them, if fewer are left), then keep at most `limit` rows.
pub open spec fn page<T>(s: Seq<T>, limit: Option<u32>, offset: Option<u32>) -> Seq<T> {
    let off = match offset {
        Option::Some(m) => min(m as int, s.len() as int),
        Option::None => 0,
    };
    let end = match limit {
        Option::Some(n) => min(off + n as int, s.len() as int),
        Option::None => s.len() as int,
    };
    s.subrange(off, end)
}

/// Without a limit and an offset, a page is the whole listing.
pub proof fn lemma_page_all<T>(s: Seq<T>)
    ensures
        page(s, None, None) == s,
{
    assert(page(s, None, None) =~= s);
}

/// A page holds at most `limit` rows.
pub proof fn lemma_page_limit<T>(s: Seq<T>, limit: u32, offset: Option<u32>)
    ensures
        page(s, Some(limit), offset).len() <= limit,
{
}

/// A page is the slice of the listing that starts right after the
/// `offset` skipped rows: row `t` of the page is row `offset + t` of the
/// full listing.
pub proof fn lemma_page_slice<T>(s: Seq<T>, limit: Option<u32>, offset: u32, t: int)
    requires
        0 <= t < page(s, limit, Some(offset)).len(),
    ensures
        offset + t < s.len(),
        page(s, limit, Some(offset))[t] == s[offset + t],
{
}

/// Paging partitions the listing without gaps or overlaps: the page of
/// `n` rows at `offset` followed by the page of `k` rows at `offset + n`
/// is exactly the page of `n + k` rows at `offset`.
pub proof fn lemma_page_partition<T>(s: Seq<T>, n: u32, k: u32, offset: u32)
    requires
        offset + n <= u32::MAX,
        n + k <= u32::MAX,
    ensures
        page(s, Some(n), Some(offset)) + page(s, Some(k), Some((offset + n) as u32)) == page(
            s,
            Some((n + k) as u32),
            Some(offset),
        ),
{
    assert(page(s, Some(n), Some(offset)) + page(s, Some(k), Some((offset + n) as u32)) =~= page(
        s,
        Some((n + k) as u32),
        Some(offset),
    ));
}

/// A filter that accepts every row keeps the listing whole.
pub proof fn lemma_filter_all<A>(s: Seq<A>, pred: spec_fn(A) -> bool)
    requires
        forall|i: int| 0 <= i < s.len() ==> pred(#[trigger] s[i]),
    ensures
        s.filter(pred) == s,
    decreases s.len(),
{
    reveal(Seq::filter);
    if s.len() > 0 {
        lemma_filter_all(s.drop_last(), pred);
        assert(s.drop_last().push(s.last()) =~= s);
    }
}

/// A filter that no row passes empties the listing.
pub proof fn lemma_filter_none<A>(s: Seq<A>, pred: spec_fn(A) -> bool)
    requires
        forall|i: int| 0 <= i < s.len() ==> !pred(#[trigger] s[i]),
    ensures
        s.filter(pred) == Seq::<A>::empty(),
    decreases s.len(),
{
    reveal(Seq::filter);
    if s.len() > 0 {
        lemma_filter_none(s.drop_last(), pred);
    } else {
        assert(s.filter(pred) =~= Seq::<A>::empty());
    }
}

} // verus!
