use parser_api::errors::{ApiError, DbFailure, UPSTREAM_ERR_MARKER};

#[test]
fn upstream_marker_maps_to_503() {
    assert!(matches!(
        ApiError::from_string(format!(
            "{UPSTREAM_ERR_MARKER}returned 503 Service Unavailable: <html>"
        )),
        ApiError::Upstream(_)
    ));
    assert!(matches!(
        ApiError::from_string(format!(
            "Failed to fetch posts: {UPSTREAM_ERR_MARKER}returned 502 Bad Gateway"
        )),
        ApiError::Upstream(_)
    ));
    assert!(matches!(
        ApiError::from_string("database error".to_string()),
        ApiError::Internal(_)
    ));
}

#[test]
fn upstream_error_keeps_the_trimmed_rest() {
    let e = ApiError::from_string(format!("fetch: {UPSTREAM_ERR_MARKER}  returned 502 \n"));
    assert_eq!(e.message(), "returned 502");
    assert_eq!(e.status(), 503);
    assert_eq!(ApiError::from("plain").status(), 500);
}

#[test]
fn from_string_is_always_internal() {
    assert!(matches!(
        ApiError::from("no account found for id 5".to_string()),
        ApiError::Internal(_)
    ));
    assert!(matches!(
        ApiError::from("disk on fire".to_string()),
        ApiError::Internal(_)
    ));
}

#[test]
fn from_str_matches_from_string() {
    assert!(matches!(
        ApiError::from("no account found"),
        ApiError::Internal(_)
    ));
    assert!(matches!(ApiError::from("boom"), ApiError::Internal(_)));
}

#[test]
fn status_codes_map_to_http() {
    assert_eq!(ApiError::BadRequest(String::new()).status(), 400);
    assert_eq!(ApiError::Unauthorized(String::new()).status(), 401);
    assert_eq!(ApiError::Forbidden(String::new()).status(), 403);
    assert_eq!(ApiError::NotFound(String::new()).status(), 404);
    assert_eq!(ApiError::TooManyRequests(String::new()).status(), 429);
    assert_eq!(ApiError::Internal(String::new()).status(), 500);
}

#[test]
fn message_returns_inner_text() {
    assert_eq!(ApiError::BadRequest("nope".to_string()).message(), "nope");
    assert_eq!(ApiError::Internal("kaboom".to_string()).message(), "kaboom");
}

#[test]
fn from_rusqlite_maps_query_returned_no_rows_to_not_found() {
    let e = ApiError::from(rusqlite::Error::QueryReturnedNoRows);
    assert!(matches!(e, ApiError::NotFound(_)));
    assert_eq!(e.message(), "No matching row found");
}

#[test]
fn from_rusqlite_maps_other_to_internal() {
    let invalid = rusqlite::Error::SqliteSingleThreadedMode;
    let text = format!("Database error: {invalid}");
    let e = ApiError::from(invalid);
    assert!(matches!(e, ApiError::Internal(_)));
    assert_eq!(e.message(), text);
}

#[test]
fn database_failures_map_like_their_errors() {
    assert_eq!(ApiError::from_db(DbFailure::NoRows).status(), 404);
    let e = ApiError::from_db(DbFailure::Other("locked".to_string()));
    assert_eq!(e.message(), "Database error: locked");
    let body = e.body();
    assert_eq!(body.error, "Database error: locked");
    assert_eq!(body.code, 500);
}
