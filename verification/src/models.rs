//! Domain records and the query/pagination rules of the request list.

use vstd::prelude::*;
use crate::diff::DiffResult;

verus! {

/// A logged HTTP request.
#[derive(Debug)]
pub struct RequestLog {
    pub id: i64,
    pub method: String,
    pub path: String,
    pub headers: Option<String>,
    pub body: Option<String>,
    pub created_at: String,
}

/// A logged HTTP response, linked to a request via `request_id`.
#[derive(Debug)]
pub struct ResponseLog {
    pub id: i64,
    pub request_id: i64,
    pub status: i64,
    pub body: Option<String>,
    pub created_at: String,
}

/// A request together with its associated response, as returned by the
/// detail endpoint `GET /requests/{id}`.
#[derive(Debug)]
pub struct RequestDetail {
    pub request: RequestLog,
    pub response: Option<ResponseLog>,
}

/// The outcome of replaying a stored request.
#[derive(Debug)]
pub struct ReplayResponse {
    pub original_response: Option<ResponseLog>,
    pub replayed_response: ResponseLog,
    /// The diff of the original and the replayed bodies, when both are JSON.
    pub diff: Option<DiffResult>,
}

/// Query-string parameters for `GET /requests`.
///
/// Examples:
///   /requests?page=2&per_page=20
///   /requests?method=POST
///   /requests?path=/api/users
///   /requests?method=GET&path=/health&page=1&per_page=5
#[derive(Debug)]
pub struct RequestQuery {
    /// Filter by HTTP method (exact, case-insensitive).
    pub method: Option<String>,
    /// Filter by request path (substring match).
    pub path: Option<String>,
    /// Page number (1-indexed, default = 1).
    pub page: Option<i64>,
    /// Items per page (default = 20, max = 100).
    pub per_page: Option<i64>,
}

/// The page number a query asks for: 1 by default, and at least 1.
pub open spec fn page_number(page: Option<i64>) -> int {
    match page {
        Some(p) => if p < 1 { 1 } else { p as int },
        None => 1,
    }
}

/// The page size a query asks for: 20 by default, clamped to 1..=100.
pub open spec fn page_size(per_page: Option<i64>) -> int {
    match per_page {
        Some(n) => if n < 1 { 1 } else if n > 100 { 100 } else { n as int },
        None => 20,
    }
}

impl RequestQuery {
    /// Clamped, 1-indexed page number.
    pub fn page(&self) -> (page: i64)
        ensures
            page == page_number(self.page),
            page >= 1,
    {
        match self.page {
            Some(p) => if p < 1 { 1 } else { p },
            None => 1,
        }
    }

    /// Clamped per-page size.
    pub fn per_page(&self) -> (per_page: i64)
        ensures
            per_page == page_size(self.per_page),
            1 <= per_page <= 100,
    {
        match self.per_page {
            Some(n) => if n < 1 { 1 } else if n > 100 { 100 } else { n },
            None => 20,
        }
    }

    /// SQL `OFFSET` derived from page and per_page: the number of rows on
    /// the pages before this one.
    pub fn offset(&self) -> (offset: i64)
        requires
            (page_number(self.page) - 1) * page_size(self.per_page) <= i64::MAX,
        ensures
            offset == (page_number(self.page) - 1) * page_size(self.per_page),
            offset >= 0,
    {
        let page = self.page();
        let per_page = self.per_page();
        assert((page - 1) * per_page >= 0) by (nonlinear_arith)
            requires
                page >= 1,
                per_page >= 1,
        ;
        (page - 1) * per_page
    }
}

/// Wrapper for paginated list responses.
#[derive(Debug)]
pub struct PaginatedResponse<T> {
    pub data: Vec<T>,
    pub pagination: PaginationMeta,
}

/// Pagination metadata included alongside every list response.
#[derive(Debug)]
pub struct PaginationMeta {
    pub page: i64,
    pub per_page: i64,
    pub total: i64,
    pub total_pages: i64,
}

/// Integer division rounding toward zero, as Rust's `/` does.
pub open spec fn div_toward_zero(n: int, d: int) -> int {
    if n >= 0 {
        n / d
    } else {
        -((-n) / d)
    }
}

/// The number of pages that `total` rows fill at `per_page` rows a page:
/// `(total + per_page - 1) / per_page` in Rust's division.
pub open spec fn page_count(total: int, per_page: int) -> int {
    div_toward_zero(total + per_page - 1, per_page)
}

/// The metadata of one page of a list of `total` rows.
pub fn pagination_meta(query: &RequestQuery, total: i64) -> (meta: PaginationMeta)
    requires
        total + page_size(query.per_page) - 1 <= i64::MAX,
    ensures
        meta.page == page_number(query.page),
        meta.per_page == page_size(query.per_page),
        meta.total == total,
        meta.total_pages == page_count(total as int, meta.per_page as int),
        total >= 0 ==> meta.total_pages * meta.per_page >= total,
        total > 0 ==> (meta.total_pages - 1) * meta.per_page < total,
        total >= 0 ==> (meta.total_pages == 0 <==> total == 0),
{
    let per_page = query.per_page();
    let n: i64 = total + (per_page - 1);
    let total_pages: i64 = if n >= 0 {
        n / per_page
    } else if n > i64::MIN {
        let q: i64 = (-n) / per_page;
        assert(0 <= q <= -n) by (nonlinear_arith)
            requires
                q == (-n) / (per_page as int),
                -n > 0,
                per_page >= 1,
        ;
        -q
    } else {
        assert(per_page == 1);
        n
    };
    proof {
        if total >= 0 {
            lemma_page_count(total as int, per_page as int);
        }
        if n < 0 && n == i64::MIN {
            assert((-(n as int)) / 1 == -(n as int));
        }
    }
    PaginationMeta { page: query.page(), per_page, total, total_pages }
}

/// The page count is the least number of pages that hold every row.
pub proof fn lemma_page_count(total: int, per_page: int)
    requires
        total >= 0,
        per_page >= 1,
    ensures
        page_count(total, per_page) * per_page >= total,
        total == 0 || (page_count(total, per_page) - 1) * per_page < total,
        page_count(total, per_page) == 0 <==> total == 0,
        page_count(total, per_page) >= 0,
{
    let q = (total + per_page - 1) / per_page;
    let r = (total + per_page - 1) % per_page;
    assert(total + per_page - 1 == q * per_page + r && 0 <= r < per_page) by (nonlinear_arith)
        requires
            per_page >= 1,
            q == (total + per_page - 1) / per_page,
            r == (total + per_page - 1) % per_page,
    ;
    assert(q * per_page >= total);
    assert(q >= 0) by (nonlinear_arith)
        requires
            q * per_page >= total,
            total >= 0,
            per_page >= 1,
            total + per_page - 1 == q * per_page + r,
            0 <= r < per_page,
    ;
    assert((q - 1) * per_page == q * per_page - per_page) by (nonlinear_arith);
    if q == 0 {
        assert(q * per_page == 0) by (nonlinear_arith)
            requires
                q == 0,
        ;
        assert(total == 0);
    }
    if total == 0 {
        assert(q == 0) by (nonlinear_arith)
            requires
                per_page - 1 == q * per_page + r,
                0 <= r < per_page,
                per_page >= 1,
        ;
    }
}

/// Consecutive pages follow one another: page `p + 1` starts where page
/// `p` ends.
pub proof fn law_pages_are_consecutive(page: i64, per_page: Option<i64>)
    requires
        page >= 1,
        page < i64::MAX,
    ensures
        (page_number(Some((page + 1) as i64)) - 1) * page_size(per_page) == (page_number(Some(page)) - 1)
            * page_size(per_page) + page_size(per_page),
{
    let s = page_size(per_page);
    assert((page as int) * s == (page as int - 1) * s + s) by (nonlinear_arith);
}

/// A query gets the page size it asks for when that lies in 1..=100, the
/// nearer bound when it lies outside, and 20 rows when it asks for none; it
/// gets the page it asks for when that is at least 1, else the first page.
pub proof fn law_requested_paging_is_kept(n: i64)
    ensures
        1 <= n <= 100 ==> page_size(Some(n)) == n,
        n < 1 ==> page_size(Some(n)) == 1,
        n > 100 ==> page_size(Some(n)) == 100,
        page_size(None) == 20,
        n >= 1 ==> page_number(Some(n)) == n,
        n < 1 ==> page_number(Some(n)) == 1,
        page_number(None) == 1,
{
}

/// The page count divides as Rust does, rounding toward zero: what is
/// left over has the sign of the dividend and is smaller than a page.
pub proof fn law_division_rounds_toward_zero(n: int, d: int)
    requires
        d >= 1,
    ensures
        n >= 0 ==> 0 <= n - div_toward_zero(n, d) * d < d,
        n < 0 ==> -d < n - div_toward_zero(n, d) * d <= 0,
{
    if n >= 0 {
        let q = n / d;
        assert(0 <= n - q * d < d) by (nonlinear_arith)
            requires
                n >= 0,
                d >= 1,
                q == n / d,
        ;
    } else {
        let m = -n;
        let q = m / d;
        assert(0 <= m - q * d < d) by (nonlinear_arith)
            requires
                m > 0,
                d >= 1,
                q == m / d,
        ;
        assert(n - (-q) * d == -(m - q * d)) by (nonlinear_arith)
            requires
                m == -n,
        ;
    }
}

} // verus!
