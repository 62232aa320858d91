//! Response envelopes, HTTP errors and pagination of the API layer.
use vstd::prelude::*;

use crate::text::owned;

verus! {

#[verifier::external_type_specification]
#[verifier::external_body]
pub struct ExJsonValue(serde_json::Value);

/// A successful API response.
#[derive(Debug, Clone)]
pub struct ApiResponse<T> {
    pub code: i32,
    pub message: String,
    pub data: T,
    pub total: Option<i64>,
}

impl<T> ApiResponse<T> {
    /// Code 0, message `Success`.
    pub fn new(data: T, total: Option<i64>) -> (r: Self)
        ensures
            r.code == 0,
            r.message@ == "Success"@,
            r.data == data,
            r.total == total,
    {
        ApiResponse { code: 0, message: owned("Success"), data, total }
    }

    /// Code 0 with the given message.
    pub fn with_message(data: T, message: &str, total: Option<i64>) -> (r: Self)
        ensures
            r.code == 0,
            r.message@ == message@,
            r.data == data,
            r.total == total,
    {
        ApiResponse { code: 0, message: owned(message), data, total }
    }

    /// Code 0, message `Success`, no total.
    pub fn success(data: T) -> (r: Self)
        ensures
            r.code == 0,
            r.message@ == "Success"@,
            r.data == data,
            r.total == None::<i64>,
    {
        Self::new(data, None)
    }
}

impl<T> ApiResponse<Vec<T>> {
    /// One page of a listing, with the total count of the listing.
    pub fn page(data: Vec<T>, total: i64) -> (r: Self)
        ensures
            r.code == 0,
            r.message@ == "Success"@,
            r.data@ == data@,
            r.total == Some(total),
    {
        Self::new(data, Some(total))
    }
}

/// The body of an error response.
#[derive(Debug, Clone)]
pub struct ErrorEnvelope {
    pub code: i32,
    pub message: String,
    pub data: Option<serde_json::Value>,
}

impl ErrorEnvelope {
    pub fn new(code: i32, message: &str) -> (r: Self)
        ensures
            r.code == code,
            r.message@ == message@,
            r.data is None,
    {
        ErrorEnvelope { code, message: owned(message), data: None }
    }
}

/// An error with the HTTP status it is answered with.
#[derive(Debug, Clone)]
pub struct HttpError {
    pub status: u16,
    pub code: i32,
    pub message: String,
}

impl HttpError {
    pub fn new(status: u16, code: i32, message: &str) -> (r: Self)
        ensures
            r.status == status,
            r.code == code,
            r.message@ == message@,
    {
        HttpError { status, code, message: owned(message) }
    }

    pub fn bad_request(code: i32, message: &str) -> (r: Self)
        ensures
            r.status == 400,
            r.code == code,
            r.message@ == message@,
    {
        Self::new(400, code, message)
    }

    pub fn unauthorized(code: i32, message: &str) -> (r: Self)
        ensures
            r.status == 401,
            r.code == code,
            r.message@ == message@,
    {
        Self::new(401, code, message)
    }

    pub fn forbidden(code: i32, message: &str) -> (r: Self)
        ensures
            r.status == 403,
            r.code == code,
            r.message@ == message@,
    {
        Self::new(403, code, message)
    }

    pub fn not_found(code: i32, message: &str) -> (r: Self)
        ensures
            r.status == 404,
            r.code == code,
            r.message@ == message@,
    {
        Self::new(404, code, message)
    }

    pub fn conflict(code: i32, message: &str) -> (r: Self)
        ensures
            r.status == 409,
            r.code == code,
            r.message@ == message@,
    {
        Self::new(409, code, message)
    }

    pub fn internal(code: i32, message: &str) -> (r: Self)
        ensures
            r.status == 500,
            r.code == code,
            r.message@ == message@,
    {
        Self::new(500, code, message)
    }

    /// The error body: this error's code and message, no data.
    pub fn envelope(&self) -> (r: ErrorEnvelope)
        ensures
            r.code == self.code,
            r.message@ == self.message@,
            r.data is None,
    {
        ErrorEnvelope::new(self.code, self.message.as_str())
    }
}

/// Page, page size, and the limit and offset of the matching query.
#[derive(Debug, Clone, Copy, PartialEq, Eq, Structural)]
pub struct Pagination {
    pub page: i64,
    pub page_size: i64,
    pub limit: i64,
    pub offset: i64,
}

/// `x.clamp(lo, hi)` for `lo <= hi`.
pub open spec fn clamp(x: int, lo: int, hi: int) -> int {
    if x < lo {
        lo
    } else if x > hi {
        hi
    } else {
        x
    }
}

/// The largest page size allowed for a requested maximum: at least 1.
pub open spec fn effective_max(max_size: int) -> int {
    if max_size < 1 { 1 } else { max_size }
}

/// The page that `normalize` settles on: at least 1, 1 when absent.
pub open spec fn normal_page(page: Option<i64>) -> int {
    match page {
        Some(p) => if p < 1 { 1 } else { p as int },
        None => 1,
    }
}

/// The page size that `normalize` settles on: the request, else the
/// default, clamped into `1..=effective_max(max_size)`.
pub open spec fn normal_page_size(page_size: Option<i64>, default_size: int, max_size: int) -> int {
    let m = effective_max(max_size);
    match page_size {
        Some(s) => clamp(s as int, 1, m),
        None => clamp(default_size, 1, m),
    }
}

/// What `Pagination::normalize` returns, on inputs where the offset fits.
pub open spec fn normalized(
    page: Option<i64>,
    page_size: Option<i64>,
    default_size: int,
    max_size: int,
) -> Pagination {
    let p = normal_page(page);
    let s = normal_page_size(page_size, default_size, max_size);
    Pagination { page: p as i64, page_size: s as i64, limit: s as i64, offset: ((p - 1) * s) as i64 }
}

/// The offset of the normalized page fits in an `i64`.
pub open spec fn offset_fits(
    page: Option<i64>,
    page_size: Option<i64>,
    default_size: int,
    max_size: int,
) -> bool {
    (normal_page(page) - 1) * normal_page_size(page_size, default_size, max_size) <= i64::MAX
}

impl Pagination {
    /// Clamps a requested page and page size: the page is at least 1, the
    /// page size lies in `1..=max(max_size, 1)` and defaults to
    /// `default_size` (clamped the same way); the offset skips the pages
    /// before the requested one.
    pub fn normalize(page: Option<i64>, page_size: Option<i64>, default_size: i64, max_size: i64) -> (r: Self)
        requires
            offset_fits(page, page_size, default_size as int, max_size as int),
        ensures
            r == normalized(page, page_size, default_size as int, max_size as int),
            r.page >= 1,
            1 <= r.page_size <= effective_max(max_size as int),
            r.limit == r.page_size,
            r.offset == (r.page - 1) * r.page_size,
            r.offset >= 0,
    {
        let max_size: i64 = if max_size < 1 { 1 } else { max_size };
        let page: i64 = match page {
            Some(p) => if p < 1 { 1 } else { p },
            None => 1,
        };
        let default_size: i64 = if default_size < 1 {
            1
        } else if default_size > max_size {
            max_size
        } else {
            default_size
        };
        let requested: i64 = match page_size {
            Some(s) => s,
            None => default_size,
        };
        let page_size: i64 = if requested < 1 {
            1
        } else if requested > max_size {
            max_size
        } else {
            requested
        };
        assert(0 <= (page - 1) * page_size) by (nonlinear_arith)
            requires page >= 1, page_size >= 1;
        let offset: i64 = (page - 1) * page_size;
        Pagination { page, page_size, limit: page_size, offset }
    }
}

/// A normalized pagination normalizes to itself: feeding its page and page
/// size back in, with the same bounds, changes nothing.
pub proof fn law_normalize_idempotent(
    page: Option<i64>,
    page_size: Option<i64>,
    default_size: i64,
    max_size: i64,
)
    requires
        offset_fits(page, page_size, default_size as int, max_size as int),
    ensures
        ({
            let p = normalized(page, page_size, default_size as int, max_size as int);
            &&& offset_fits(Some(p.page), Some(p.page_size), default_size as int, max_size as int)
            &&& normalized(Some(p.page), Some(p.page_size), default_size as int, max_size as int)
                == p
        }),
{
    let pg = normal_page(page);
    let s = normal_page_size(page_size, default_size as int, max_size as int);
    assert(0 <= (pg - 1) * s) by (nonlinear_arith)
        requires pg >= 1, s >= 1;
}

} // verus!
