use parser_api::auth::{
    build_owner_cookie, build_owner_cookie_clear, guard_request, is_revoked,
    reload_revocation_set, revoke, OwnerToken, RevokedSet, SameSite, OWNER_TOKEN_COOKIE,
    OWNER_TOKEN_MAX_AGE_DAYS, REVOKED_TOKEN_RETENTION_SECS,
};
use parser_api::errors::ApiError;

#[test]
fn build_owner_cookie_properties() {
    let token = "test-token-abc123";
    let cookie = build_owner_cookie(token.to_string(), true);
    assert_eq!(cookie.name, OWNER_TOKEN_COOKIE);
    assert_eq!(cookie.value, token);
    assert!(cookie.http_only);
    assert_eq!(cookie.same_site, SameSite::Lax);
    assert_eq!(cookie.path, "/api");
    assert_eq!(cookie.max_age_secs, OWNER_TOKEN_MAX_AGE_DAYS * 86_400);
}

#[test]
fn build_owner_cookie_clear_has_zero_max_age() {
    let cookie = build_owner_cookie_clear(true);
    assert_eq!(cookie.name, OWNER_TOKEN_COOKIE);
    assert!(cookie.value.is_empty());
    assert_eq!(cookie.max_age_secs, 0);
}

#[test]
fn build_owner_cookie_in_debug_secure_false() {
    let cookie = build_owner_cookie("x".into(), true);
    assert!(!cookie.secure, "Secure must be false in debug/test profile");
    assert!(build_owner_cookie("x".into(), false).secure);
}

#[test]
fn is_revoked_known_and_unknown() {
    let mut set = RevokedSet::new();
    assert!(revoke(&mut set, "known_revoked", Ok(())).is_ok());
    assert!(is_revoked(Some(&set), "known_revoked"));
    assert!(!is_revoked(Some(&set), "unknown_token"));
}

#[test]
fn is_revoked_empty_set() {
    let set = RevokedSet::new();
    assert!(!is_revoked(Some(&set), "any_token"));
    assert!(!is_revoked(Some(&set), ""));
}

#[test]
fn revocation_sticks_until_reload() {
    let mut set = RevokedSet::new();
    assert!(revoke(&mut set, "a", Ok(())).is_ok());
    assert!(revoke(&mut set, "a", Ok(())).is_ok());
    assert!(is_revoked(Some(&set), "a"));
    assert_eq!(revoke(&mut set, "b", Err("db".to_string())), Err("db".to_string()));
    assert!(!is_revoked(Some(&set), "b"));
    assert_eq!(
        reload_revocation_set(&mut set, Err("db".to_string())),
        Err("db".to_string())
    );
    assert!(is_revoked(Some(&set), "a"));
    assert!(reload_revocation_set(&mut set, Ok(vec!["c".to_string()])).is_ok());
    assert!(!is_revoked(Some(&set), "a"));
    assert!(is_revoked(Some(&set), "c"));
}

#[test]
fn guard_lets_good_tokens_through_and_renews_them() {
    let mut set = RevokedSet::new();
    let ok = guard_request(Some("tok".to_string()), None, Some(&set), false);
    assert_eq!(ok.cookie.map(|c| (c.value, c.secure)), Some(("tok".to_string(), true)));
    assert_eq!(ok.result.map(|t| t.as_str().to_string()).ok(), Some("tok".to_string()));

    let none = guard_request(None, None, Some(&set), false);
    assert!(none.cookie.is_none());
    match none.result {
        Err((401, e)) => assert_eq!(e.message(), "missing owner token"),
        _ => panic!("a request without a token passed"),
    }

    let bad = guard_request(
        Some("?".to_string()),
        Some(ApiError::BadRequest("bad token".to_string())),
        Some(&set),
        false,
    );
    assert_eq!(bad.cookie.map(|c| c.max_age_secs), Some(0));
    match bad.result {
        Err((400, e)) => assert_eq!(e.message(), "bad token"),
        _ => panic!("a broken token passed"),
    }

    assert!(revoke(&mut set, "tok", Ok(())).is_ok());
    let gone = guard_request(Some("tok".to_string()), None, Some(&set), false);
    assert_eq!(gone.cookie.map(|c| c.value), Some(String::new()));
    match gone.result {
        Err((401, e)) => assert_eq!(e.message(), "session revoked; please log in again"),
        _ => panic!("a revoked token passed"),
    }
}

#[test]
fn without_the_set_no_token_passes() {
    assert!(is_revoked(None, "any_token"));
    let shut = guard_request(Some("tok".to_string()), None, None, false);
    assert_eq!(shut.cookie.map(|c| c.max_age_secs), Some(0));
    assert!(matches!(shut.result, Err((401, ApiError::Unauthorized(_)))));
}

#[test]
fn retention_outlives_cookies() {
    assert_eq!(REVOKED_TOKEN_RETENTION_SECS, 410 * 86_400);
    assert!(REVOKED_TOKEN_RETENTION_SECS > OWNER_TOKEN_MAX_AGE_DAYS * 86_400);
    assert_eq!(OwnerToken("t".to_string()).as_str(), "t");
}
