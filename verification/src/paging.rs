//! Paging arithmetic shared by the listing and search read paths.

use vstd::prelude::*;

verus! {

/// The page a listing shows: rows `(page - 1) * size ..` up to `size` of
/// them, empty when the page or size is not positive or lies beyond the
/// end.
pub open spec fn page_slice<A>(s: Seq<A>, page: int, size: int) -> Seq<A> {
    if page < 1 || size < 1 {
        Seq::empty()
    } else {
        let lo = (page - 1) * size;
        if lo >= s.len() {
            Seq::empty()
        } else if lo + size <= s.len() {
            s.subrange(lo, lo + size)
        } else {
            s.subrange(lo, s.len() as int)
        }
    }
}

/// How many pages a listing of `total` rows fills: the rounded-up
/// quotient, zero when the size is not positive.
pub open spec fn spec_total_pages(total: int, size: int) -> int {
    if size < 1 {
        0
    } else if total == 0 {
        0
    } else {
        (total - 1) / size + 1
    }
}

/// The page count of a listing.
pub fn total_pages_for(total: i64, page_size: i64) -> (r: i64)
    requires
        0 <= total,
    ensures
        r == spec_total_pages(total as int, page_size as int),
{
    if page_size < 1 {
        0
    } else if total == 0 {
        0
    } else {
        (total - 1) / page_size + 1
    }
}

} // verus!
