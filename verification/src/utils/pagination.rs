//! Pagination: the request parameters with their defaults, and the shaped
//! page of results.

use vstd::prelude::*;

verus! {

/// `page` and `limit` of a listing request; `page` is 1-based.
#[derive(Debug, Clone)]
pub struct PaginationParams {
    pub page: u32,
    pub limit: u32,
}

impl Default for PaginationParams {
    /// The first page of ten entries.
    fn default() -> (r: Self)
        ensures
            r.page == 1,
            r.limit == 10,
    {
        Self { page: 1, limit: 10 }
    }
}

/// The number of pages needed for `total` entries at `limit` per page.
pub open spec fn spec_pages(total: int, limit: int) -> int {
    (total + limit - 1) / limit
}

/// One page of results with the counts a client needs to page further.
#[derive(Debug, Clone)]
pub struct PaginatedResponse<T> {
    pub items: Vec<T>,
    pub total: u32,
    pub page: u32,
    pub limit: u32,
    pub pages: u32,
}

impl<T> PaginatedResponse<T> {
    /// Shape one page: the items, the total, the echoed parameters, and
    /// `pages`, the total rounded up to whole pages.
    pub fn new(items: Vec<T>, total: u32, params: &PaginationParams) -> (r: Self)
        requires
            params.limit >= 1,
        ensures
            r.items == items,
            r.total == total,
            r.page == params.page,
            r.limit == params.limit,
            r.pages as int == spec_pages(total as int, params.limit as int),
    {
        proof {
            assert((total as int + params.limit as int - 1) / (params.limit as int)
                <= total as int) by (nonlinear_arith)
                requires
                    params.limit >= 1,
                    total >= 0;
        }
        let pages = ((total as u64 + params.limit as u64 - 1) / (params.limit as u64)) as u32;
        Self { items, total, page: params.page, limit: params.limit, pages }
    }
}

} // verus!
