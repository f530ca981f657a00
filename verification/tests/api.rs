use parser_api::api::{
    api_cache_get, api_cache_put, body_preview, body_read_failed, build_url, cached_answer, clear_api_cache,
    combined_query, diag_headers, effective_ttl, err_kind, evict_api_cache_if_idle,
    exclusion_query, fetch_authed_text, fetch_tag_relations, get_account, get_favorites,
    get_posts, get_posts_by_ids, get_posts_by_tags, get_user_by_name, malformed_favorites,
    normalise_blacklist, parse_error, posts_cache_ttl, prune_api_cache, remove_api_cache_entry,
    relations_parse_error, relations_request_error, request_error, request_failed, search_users,
    ApiCache, AttemptOutcome, ErrorFlags, FavoritesPageError, Getter, RateGate, RetryState, RetryStep, UrlParam,
};

#[test]
fn normalise_blacklist_sorts_and_drops_blanks() {
    assert_eq!(normalise_blacklist(""), "");
    assert_eq!(normalise_blacklist("   \n\n  "), "");
    assert_eq!(normalise_blacklist("solo"), "solo");
    assert_eq!(normalise_blacklist("  b \n a \n c "), "a -b -c");
    assert_eq!(normalise_blacklist("c\nb\na"), "a -b -c");
    assert_eq!(normalise_blacklist("z\n\n\ny"), "y -z");
}

#[test]
fn line_order_does_not_change_the_address() {
    let a = get_posts("https://e621.net", 75, "b\na", None, 900);
    let b = get_posts("https://e621.net", 75, " a \n\nb\n", Some(1), 900);
    assert_eq!(a.url, b.url);
    assert_eq!(
        a.url,
        "https://e621.net/posts.json?limit=75&page=1&tags=-a%20-b&v2=true&mode=extended"
    );
    assert_eq!(a.own_ttl_secs, 120);
    assert!(!a.bypass_cache);
    assert_eq!(get_posts("d", 75, "", Some(2), 900).own_ttl_secs, 900);
}

#[test]
fn queries_exclude_the_blacklist() {
    assert_eq!(exclusion_query(" \n "), "");
    assert_eq!(exclusion_query("gore"), "-gore");
    assert_eq!(combined_query("wolf", ""), "wolf");
    assert_eq!(combined_query("  ", "gore"), "-gore");
    assert_eq!(combined_query("wolf solo", "b\na"), "wolf solo -a -b");
}

#[test]
fn urls_are_percent_encoded() {
    let params = vec![UrlParam { key: "q", value: "a b/ü~".to_string() }];
    assert_eq!(build_url("https://x", "p.json", &params), "https://x/p.json?q=a%20b%2F%C3%BC~");
    assert_eq!(build_url("https://x", "p.json", &Vec::new()), "https://x/p.json");
    assert_eq!(get_user_by_name("https://x", "a b").url, "https://x/users/a%20b.json");
}

#[test]
fn requests_have_their_addresses() {
    assert_eq!(
        get_favorites("https://x", 5, 320, 2).url,
        "https://x/favorites.json?user_id=5&limit=320&page=2&v2=true&mode=extended"
    );
    assert_eq!(get_account("https://x", 7).url, "https://x/users/7.json");
    assert_eq!(
        search_users("https://x", "post_upload_count", 3).url,
        "https://x/users.json?search[order]=post_upload_count&limit=320&page=3"
    );
    let tags = get_posts_by_tags("https://x", 10, "gore", "wolf", Some(4));
    assert_eq!(
        tags.url,
        "https://x/posts.json?limit=10&page=4&tags=wolf%20-gore&v2=true&mode=extended"
    );
    assert!(tags.bypass_cache);
    let ids = get_posts_by_ids("https://x", 10, &vec![1, 22]).unwrap();
    assert_eq!(
        ids.url,
        "https://x/posts.json?limit=10&tags=id%3A1%2C22&page=1&v2=true&mode=extended"
    );
    assert!(!ids.bypass_cache);
    assert!(get_posts_by_ids("https://x", 10, &Vec::new()).is_none());
    let rel = fetch_tag_relations("https://x", "tag_aliases.json", 100, 1);
    assert_eq!(rel.url, "https://x/tag_aliases.json?limit=100&page=1");
    assert_eq!(rel.own_ttl_secs, 86400);
}

#[test]
fn cached_bodies_read_back_while_fresh() {
    let mut c = ApiCache::new(0);
    api_cache_put(&mut c, "u".to_string(), "body".to_string(), 10, 5, 1_000);
    assert_eq!(api_cache_get(&mut c, "u", 10, 10_999), Some("body".to_string()));
    assert_eq!(c.last_access, 10_999);
    assert_eq!(api_cache_get(&mut c, "u", 10, 11_000), None);
    assert_eq!(api_cache_get(&mut c, "u", 0, 1_001), None);
    assert_eq!(api_cache_get(&mut c, "other", 10, 1_001), None);
    assert_eq!(c.last_access, 10_999);
    assert_eq!(cached_answer(&mut c, "u", true, 10, 1_001), None);
    assert_eq!(cached_answer(&mut c, "u", false, 10, 1_001), Some("body".to_string()));
}

#[test]
fn nothing_is_cached_without_time_or_room() {
    let mut c = ApiCache::new(0);
    api_cache_put(&mut c, "u".to_string(), "b".to_string(), 0, 5, 1);
    api_cache_put(&mut c, "u".to_string(), "b".to_string(), 5, 0, 1);
    assert_eq!(prune_api_cache(&mut c, 5, 1), (0, 0));
}

#[test]
fn full_cache_gives_up_its_oldest() {
    let mut c = ApiCache::new(0);
    for i in 0..3u64 {
        api_cache_put(&mut c, format!("u{i}"), "b".to_string(), 1000, 3, i);
    }
    api_cache_put(&mut c, "new".to_string(), "b".to_string(), 1000, 3, 10);
    assert_eq!(api_cache_get(&mut c, "u0", 1000, 11), None);
    assert_eq!(api_cache_get(&mut c, "u1", 1000, 11), Some("b".to_string()));
    assert_eq!(api_cache_get(&mut c, "new", 1000, 11), Some("b".to_string()));
}

#[test]
fn pruning_drops_stale_bodies_only() {
    let mut c = ApiCache::new(0);
    api_cache_put(&mut c, "old".to_string(), "b".to_string(), 1, 10, 0);
    api_cache_put(&mut c, "new".to_string(), "b".to_string(), 1, 10, 900);
    assert_eq!(prune_api_cache(&mut c, 0, 1000), (0, 0));
    assert_eq!(prune_api_cache(&mut c, 1, 1000), (2, 1));
    assert_eq!(api_cache_get(&mut c, "new", 1, 1000), Some("b".to_string()));
    remove_api_cache_entry(&mut c, "new");
    assert_eq!(api_cache_get(&mut c, "new", 1, 1000), None);
}

#[test]
fn idle_cache_is_emptied() {
    let mut c = ApiCache::new(0);
    assert_eq!(evict_api_cache_if_idle(&mut c, 1, 99_999), (0, 0));
    api_cache_put(&mut c, "u".to_string(), "b".to_string(), 100, 10, 1_000);
    assert_eq!(evict_api_cache_if_idle(&mut c, 0, 99_999), (0, 0));
    assert_eq!(evict_api_cache_if_idle(&mut c, 10, 10_999), (0, 0));
    assert_eq!(evict_api_cache_if_idle(&mut c, 10, 11_000), (1, 0));
    assert_eq!(c.last_access, 11_000);
    api_cache_put(&mut c, "u".to_string(), "b".to_string(), 100, 10, 12_000);
    clear_api_cache(&mut c);
    assert_eq!(prune_api_cache(&mut c, 100, 12_000), (0, 0));
}

#[test]
fn only_successes_are_cached() {
    let mut c = ApiCache::new(0);
    let bad = fetch_authed_text(
        &mut c,
        "u".to_string(),
        false,
        10,
        10,
        false,
        "503 Service Unavailable",
        " \n  <html> \nx".to_string(),
        5,
    );
    assert_eq!(bad, Err("returned 503 Service Unavailable: <html>".to_string()));
    assert_eq!(api_cache_get(&mut c, "u", 10, 5), None);
    let by = fetch_authed_text(
        &mut c, "u".to_string(), true, 10, 10, true, "200 OK", "b".to_string(), 5,
    );
    assert_eq!(by, Ok("b".to_string()));
    assert_eq!(api_cache_get(&mut c, "u", 10, 5), None);
    let ok = fetch_authed_text(
        &mut c, "u".to_string(), false, 10, 10, true, "200 OK", "b".to_string(), 5,
    );
    assert_eq!(ok, Ok("b".to_string()));
    assert_eq!(api_cache_get(&mut c, "u", 10, 5), Some("b".to_string()));
}

#[test]
fn previews_are_one_short_line() {
    assert_eq!(body_preview(""), "");
    assert_eq!(body_preview("\n \n  hi there \nrest"), "hi there");
    assert_eq!(body_preview(&"x".repeat(300)).len(), 160);
}

#[test]
fn times_to_live() {
    assert_eq!(posts_cache_ttl(None, 900), 120);
    assert_eq!(posts_cache_ttl(Some(1), 900), 120);
    assert_eq!(posts_cache_ttl(Some(3), 900), 900);
    assert_eq!(effective_ttl(0, 900), 900);
    assert_eq!(effective_ttl(120, 900), 120);
}

fn flags() -> ErrorFlags {
    ErrorFlags {
        connect: false,
        body: false,
        timeout: false,
        decode: false,
        request: false,
        redirect: false,
        status: false,
    }
}

#[test]
fn error_kinds_in_order() {
    assert_eq!(err_kind(flags()), "other");
    assert_eq!(err_kind(ErrorFlags { status: true, ..flags() }), "status");
    assert_eq!(err_kind(ErrorFlags { redirect: true, status: true, ..flags() }), "redirect");
    assert_eq!(err_kind(ErrorFlags { request: true, ..flags() }), "request");
    assert_eq!(err_kind(ErrorFlags { decode: true, request: true, ..flags() }), "decode");
    assert_eq!(err_kind(ErrorFlags { timeout: true, request: true, ..flags() }), "timeout");
    assert_eq!(err_kind(ErrorFlags { body: true, timeout: true, ..flags() }), "body");
    assert_eq!(err_kind(ErrorFlags { connect: true, timeout: true, ..flags() }), "connect");
}

#[test]
fn retries_double_their_delay_and_end() {
    let mut s = RetryState::new(2, 3);
    assert_eq!(s.budget_secs, 5);
    assert!(matches!(s.send_with_retry(AttemptOutcome::TimedOut), RetryStep::Retry(300)));
    assert!(matches!(s.send_with_retry(AttemptOutcome::Response(503)), RetryStep::Retry(600)));
    assert_eq!(s.attempt, 2);
    match s.send_with_retry(AttemptOutcome::TimedOut) {
        RetryStep::Fail(e) => {
            assert_eq!(e, "request failed after retries [hard-timeout]: 5.00s budget exceeded")
        }
        _ => panic!("a spent request went on"),
    }
    let mut s = RetryState::new(0, 30);
    match s.send_with_retry(AttemptOutcome::Failed(
        ErrorFlags { connect: true, ..flags() },
        "refused".to_string(),
    )) {
        RetryStep::Fail(e) => assert_eq!(e, "request failed after retries [connect]: refused"),
        _ => panic!("a spent request went on"),
    }
    assert!(matches!(s.send_with_retry(AttemptOutcome::Response(500)), RetryStep::Accept));
}

#[test]
fn final_statuses_are_not_retried() {
    let mut s = RetryState::new(5, 30);
    assert!(matches!(s.send_with_retry(AttemptOutcome::Response(404)), RetryStep::Accept));
    assert!(matches!(s.send_with_retry(AttemptOutcome::Response(200)), RetryStep::Accept));
    assert!(matches!(s.send_with_retry(AttemptOutcome::Response(429)), RetryStep::Retry(300)));
    assert!(matches!(s.send_with_retry(AttemptOutcome::Response(599)), RetryStep::Retry(600)));
}

#[test]
fn diagnostics_name_present_headers() {
    let mut v: Vec<Option<String>> = (0..10).map(|_| None).collect();
    v[0] = Some("abc".to_string());
    v[1] = Some(String::new());
    v[9] = Some("r1".to_string());
    assert_eq!(diag_headers(&v), " cf-ray=abc x-request-id=r1");
}

#[test]
fn rate_gate_spaces_requests() {
    let mut g = RateGate { next: 0 };
    assert_eq!(g.rate_gate_wait(10), 0);
    g.pass(10, 250);
    assert_eq!(g.rate_gate_wait(100), 160);
}

#[test]
fn malformed_pages_are_forgotten() {
    let mut c = ApiCache::new(0);
    let q = get_favorites("https://x", 5, 320, 2);
    api_cache_put(&mut c, q.url.clone(), "<html>".to_string(), 100, 10, 1);
    let e = malformed_favorites(&mut c, &q, 2, "expected value", "<html>\n");
    assert!(e.is_malformed());
    assert_eq!(
        e.message(),
        "favorites page 2: malformed 200 response: expected value; first bytes: <html>"
    );
    assert_eq!(api_cache_get(&mut c, &q.url, 100, 1), None);
    let r = FavoritesPageError::request(3, "down");
    assert!(!r.is_malformed());
    assert_eq!(r.message(), "favorites page 3: down");
}

#[test]
fn getter_errors() {
    assert_eq!(request_error(Getter::Account, "x"), "account request x");
    assert_eq!(request_error(Getter::UserSearch, "x"), "users search x");
    assert_eq!(request_error(Getter::UserById, "x"), "user-by-id x");
    assert_eq!(request_error(Getter::UserByName, "x"), "user-by-name x");
    assert_eq!(request_error(Getter::Posts, "x"), "posts request x");
    assert_eq!(request_error(Getter::PostsByIds, "x"), "posts by ids request: x");
    assert_eq!(parse_error(Getter::Account, "x"), "account parse failed: x");
    assert_eq!(parse_error(Getter::PostsByIds, "x"), "posts parse failed: x");
}

#[test]
fn failures_are_worded() {
    assert_eq!(request_failed("x"), "request failed: x");
    assert_eq!(body_read_failed("x"), "body read failed: x");
    assert_eq!(
        relations_request_error("tag_aliases", 3, "x"),
        "tag_aliases request page 3: x"
    );
    assert_eq!(
        relations_parse_error("tag_aliases", 3, "x"),
        "tag_aliases parse failed page 3: x"
    );
}
