use parser_api::audit::event;
use parser_api::errors::ApiError;
use parser_api::server::{
    base64_url_encode, bootstrap_limit, bootstrap_line, catch_404, catch_422, catch_500,
    content_security_policy, csp_for_host, health_limit, healthcheck, logout_lines,
    mint_owner_token, owner_token_of, process_limits, session_bootstrap, session_clear, BootstrapPlan,
    HealthResponse,
};

#[test]
fn url_safe_base64() {
    assert_eq!(base64_url_encode(&Vec::new()), "");
    assert_eq!(base64_url_encode(&vec![0]), "AA");
    assert_eq!(base64_url_encode(&b"f".to_vec()), "Zg");
    assert_eq!(base64_url_encode(&b"fo".to_vec()), "Zm8");
    assert_eq!(base64_url_encode(&b"foobar".to_vec()), "Zm9vYmFy");
    assert_eq!(base64_url_encode(&vec![0xfb, 0xff, 0xfe]), "-__-");
}

#[test]
fn tokens_are_fresh_and_url_safe() {
    let a = mint_owner_token().unwrap();
    let b = mint_owner_token().unwrap();
    assert_eq!(a.len(), 43);
    assert_ne!(a, b);
    assert!(a.chars().all(|c| c.is_ascii_alphanumeric() || c == '-' || c == '_'));
}

#[test]
fn a_token_is_the_text_of_the_random_bytes() {
    assert_eq!(owner_token_of(None), None);
    assert_eq!(owner_token_of(Some(b"foobar".to_vec())).as_deref(), Some("Zm9vYmFy"));
    assert_eq!(owner_token_of(Some(vec![0; 32])), Some("A".repeat(43)));
}

#[test]
fn session_requests() {
    assert_eq!(session_bootstrap(None), BootstrapPlan::Mint);
    assert_eq!(session_bootstrap(Some(true)), BootstrapPlan::Renew);
    assert_eq!(session_bootstrap(Some(false)), BootstrapPlan::Replace);
    assert_eq!(bootstrap_line(), "[AUDIT] session.bootstrap|minted=true");
    assert!(session_clear(Some(true)));
    assert!(!session_clear(Some(false)));
    assert!(!session_clear(None));
    assert_eq!(
        logout_lines(Some(Ok(()))).unwrap(),
        vec![
            "[AUDIT] token.revoked|reason=logout".to_string(),
            "[AUDIT] session.cleared".to_string()
        ]
    );
    assert_eq!(logout_lines(None).unwrap(), vec!["[AUDIT] session.cleared".to_string()]);
    match logout_lines(Some(Err("db".to_string()))) {
        Err(ApiError::Internal(m)) => assert_eq!(m, "Failed to revoke session"),
        _ => panic!("a failed revocation passed"),
    }
}

#[test]
fn limits_and_health() {
    let h = health_limit("1.2.3.4");
    assert_eq!((h.key.as_str(), h.capacity, h.refill), ("health:1.2.3.4", 12, 60));
    let b = bootstrap_limit("ip");
    assert_eq!((b.key.as_str(), b.capacity, b.refill), ("bootstrap:ip:ip", 5, 5));
    let (o, i) = process_limits("tok", "ip");
    assert_eq!((o.key.as_str(), o.capacity, o.refill), ("process:owner:tok", 3, 3));
    assert_eq!((i.key.as_str(), i.capacity, i.refill), ("process:ip:ip", 5, 5));
    assert_eq!(
        healthcheck(true, true, true),
        (429, HealthResponse { database: false, caches: false, e621: false })
    );
    assert_eq!(
        healthcheck(false, true, true),
        (200, HealthResponse { database: true, caches: true, e621: true })
    );
    assert_eq!(
        healthcheck(false, true, false),
        (503, HealthResponse { database: true, caches: true, e621: false })
    );
}

#[test]
fn catchers() {
    assert_eq!((catch_404().status(), catch_404().message()), (404, "Resource not found"));
    assert_eq!((catch_422().status(), catch_422().message()), (400, "Unprocessable request body"));
    assert_eq!((catch_500().status(), catch_500().message()), (500, "Internal server error"));
}

#[test]
fn media_hosts_are_allowed() {
    assert_eq!(csp_for_host(""), None);
    assert_eq!(content_security_policy("not a url"), None);
    assert_eq!(content_security_policy("data:text/plain,x"), None);
    let p = content_security_policy("https://E621.net/posts?x=1").unwrap();
    assert_eq!(Some(p.clone()), csp_for_host("e621.net"));
    assert!(p.starts_with("default-src 'self'; script-src 'self' 'wasm-unsafe-eval'"));
    assert!(p.contains("img-src 'self' data: https://*.e621.net; media-src https://*.e621.net; "));
    assert!(p.ends_with("frame-ancestors 'none'; base-uri 'self'; form-action 'self'"));
}

#[test]
fn audit_values_cannot_break_the_line() {
    let line = event("x").field("a", "b|c\nd").field_opt("e", None).field_opt("f", Some("\r")).emit();
    assert_eq!(line, "[AUDIT] x|a=b c d|f= ");
}
