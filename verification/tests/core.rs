use rustzen_core::api::{ApiResponse, ErrorEnvelope, HttpError, Pagination};
use rustzen_core::error::CoreError;
use rustzen_core::hash::fnv1a64;

#[test]
fn fnv1a64_is_stable() {
    assert_eq!(fnv1a64("rustzen".as_bytes()), 0xdb1f_ae62_bd67_d738);
}

#[test]
fn fnv1a64_of_empty_is_offset_basis() {
    assert_eq!(fnv1a64(b""), 0xcbf29ce484222325);
    assert_eq!(fnv1a64(b"a"), 0xaf63dc4c8601ec8c);
}

#[test]
fn api_page_sets_total() {
    let response = ApiResponse::page(vec![1, 2], 2);
    assert_eq!(response.code, 0);
    assert_eq!(response.total, Some(2));
}

#[test]
fn api_response_constructors() {
    let ok = ApiResponse::success(7);
    assert_eq!(ok.code, 0);
    assert_eq!(ok.message, "Success");
    assert_eq!(ok.data, 7);
    assert_eq!(ok.total, None);
    let custom = ApiResponse::with_message("x", "Created", Some(3));
    assert_eq!(custom.message, "Created");
    assert_eq!(custom.total, Some(3));
    assert_eq!(custom.data, "x");
}

#[test]
fn pagination_normalizes_bounds() {
    let page = Pagination::normalize(Some(0), Some(500), 10, 100);
    assert_eq!(page.page, 1);
    assert_eq!(page.page_size, 100);
    assert_eq!(page.offset, 0);
}

#[test]
fn pagination_defaults_and_offsets() {
    let page = Pagination::normalize(None, None, 20, 100);
    assert_eq!(page, Pagination { page: 1, page_size: 20, limit: 20, offset: 0 });
    let third = Pagination::normalize(Some(3), Some(25), 10, 100);
    assert_eq!(third, Pagination { page: 3, page_size: 25, limit: 25, offset: 50 });
    let tiny = Pagination::normalize(Some(2), Some(-4), 500, 0);
    assert_eq!(tiny, Pagination { page: 2, page_size: 1, limit: 1, offset: 1 });
    let default_clamped = Pagination::normalize(Some(1), None, 500, 50);
    assert_eq!(default_clamped.page_size, 50);
}

#[test]
fn pagination_is_idempotent() {
    let p = Pagination::normalize(Some(-3), Some(1000), 10, 200);
    let q = Pagination::normalize(Some(p.page), Some(p.page_size), 10, 200);
    assert_eq!(p, q);
}

#[test]
fn http_errors_carry_status() {
    assert_eq!(HttpError::bad_request(1, "bad").status, 400);
    assert_eq!(HttpError::unauthorized(2, "who").status, 401);
    assert_eq!(HttpError::forbidden(3, "no").status, 403);
    assert_eq!(HttpError::not_found(4, "gone").status, 404);
    assert_eq!(HttpError::conflict(5, "dup").status, 409);
    let e = HttpError::internal(6, "boom");
    assert_eq!(e.status, 500);
    assert_eq!(e.code, 6);
    let env = e.envelope();
    assert_eq!(env.code, 6);
    assert_eq!(env.message, "boom");
    assert!(env.data.is_none());
    let direct = ErrorEnvelope::new(9, "m");
    assert_eq!(direct.code, 9);
    assert_eq!(direct.message, "m");
}

#[test]
fn core_error_display() {
    assert_eq!(
        CoreError::InvalidInput("x".to_string()).to_display_string(),
        "invalid input: x"
    );
    assert_eq!(CoreError::NotFound("y".to_string()).to_display_string(), "not found: y");
    assert_eq!(CoreError::Conflict("z".to_string()).to_display_string(), "conflict: z");
    let io = CoreError::Io(std::io::Error::other("disk"));
    assert_eq!(io.to_display_string(), "io error: disk");
}
