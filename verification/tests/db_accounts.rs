use parser_api::crypto::encryption_key;
use parser_api::db::accounts::{
    advance_visits, backfill_threshold, cleanup_orphan_accounts, count_accounts_by_bucket,
    days_since_rfc3339, default_blacklist_text, delete_device_link, find_device_token_by_id,
    get_account_by_id, get_account_by_name, get_account_e621_key, get_account_experiment_bucket,
    get_account_feed_settings, get_account_key_meta, get_direct_sync_state, get_visit_stats, hex,
    key_to_store, list_device_sessions, removal_batch_size, removal_sql, require_device_link, resolve_blacklist,
    set_account_e621_key, update_device_blacklist, update_visit_tracker, KeyRow, LinkRow,
    TruncatedAccount, VisitRecord, VisitUpdate,
};
use parser_api::errors::DbFailure;
use parser_api::models::Stamp;

const NOW: Stamp = Stamp { secs: 1_700_000_000, nanos: 0 };

fn row(token: &str, account_id: i32, linked: &str, seen: &str) -> LinkRow {
    LinkRow {
        token: token.to_string(),
        account_id,
        name: format!("n{account_id}"),
        linked_at: linked.to_string(),
        last_seen_at: seen.to_string(),
    }
}

#[test]
fn bytes_are_written_in_hex() {
    assert_eq!(hex(&vec![0x00, 0xab, 0x9f]), "00ab9f");
    assert_eq!(hex(&Vec::new()), "");
}

#[test]
fn devices_are_gathered_by_token() {
    let rows = vec![
        row("t2", 1, "2023-05-01T00:00:00+00:00", "2023-11-14T22:13:20+00:00"),
        row("t1", 1, "2023-01-01T00:00:00+00:00", "2023-01-02T00:00:00+00:00"),
        row("t2", 2, "2023-04-01T00:00:00+00:00", "2023-11-01T00:00:00+00:00"),
    ];
    let d = list_device_sessions(&rows, "t1", NOW);
    assert_eq!(d.len(), 2);
    assert!(!d[0].is_current);
    assert!(d[0].active);
    assert_eq!(d[0].first_seen_at, "2023-04-01T00:00:00+00:00");
    assert_eq!(d[0].last_seen_at, "2023-11-14T22:13:20+00:00");
    assert_eq!(d[0].accounts.len(), 2);
    assert_eq!(d[0].accounts[1].account_id, 2);
    assert_eq!(d[0].accounts[1].name, "n2");
    assert!(d[1].is_current);
    assert!(!d[1].active);
    assert_eq!(d[1].id, hex(&encryption_key("t1", false).unwrap()));
}

#[test]
fn listed_devices_are_found_by_their_id() {
    let rows = vec![row("t2", 1, "a", "b"), row("t1", 1, "a", "b")];
    let tokens = vec!["t1".to_string(), "t2".to_string()];
    let d = list_device_sessions(&rows, "t1", NOW);
    assert_eq!(
        find_device_token_by_id(&tokens, "t1", &d[0].id),
        Some("t2".to_string())
    );
    assert_eq!(find_device_token_by_id(&tokens, "t1", &d[1].id), None);
    assert_eq!(find_device_token_by_id(&tokens, "t1", "t2"), None);
}

#[test]
fn days_since_an_access() {
    assert_eq!(days_since_rfc3339("2023-11-14T22:13:20+00:00", NOW), 0);
    assert_eq!(days_since_rfc3339("2023-11-13T22:13:20Z", NOW), 1);
    assert_eq!(days_since_rfc3339("2023-11-13T22:13:21Z", NOW), 0);
    assert_eq!(days_since_rfc3339("2023-11-16T22:13:20Z", NOW), -2);
    assert_eq!(days_since_rfc3339("nonsense", NOW), i64::MAX);
}

fn record(day: &str, streak: i32, total: i32) -> VisitRecord {
    VisitRecord {
        last_visit_date: day.to_string(),
        visit_streak: streak,
        total_visits_30d: total,
    }
}

#[test]
fn visits_are_tracked() {
    assert_eq!(
        update_visit_tracker(None, "2024-01-02"),
        Ok(VisitUpdate::First { visit_streak: 1, total_visits_30d: 1 })
    );
    let r = record("2024-02-28", 3, 9);
    assert_eq!(
        update_visit_tracker(Some(&r), "2024-02-28"),
        Ok(VisitUpdate::SameDay { visit_streak: 3, total_visits_30d: 9 })
    );
    assert_eq!(
        update_visit_tracker(Some(&r), "2024-02-29"),
        Ok(VisitUpdate::Advance { visit_streak: 4, total_visits_30d: 10, gap_days: 1 })
    );
    assert_eq!(
        update_visit_tracker(Some(&r), "2024-03-01"),
        Ok(VisitUpdate::Advance { visit_streak: 0, total_visits_30d: 10, gap_days: 2 })
    );
    assert!(update_visit_tracker(Some(&record("x", 1, 1)), "2024-03-01")
        .unwrap_err()
        .starts_with("Failed to parse last_visit_date: "));
    assert!(update_visit_tracker(Some(&r), "y")
        .unwrap_err()
        .starts_with("Failed to parse today: "));
    assert_eq!(
        advance_visits(0, 0, 10, 9),
        VisitUpdate::Advance { visit_streak: 0, total_visits_30d: 1, gap_days: -1 }
    );
}

#[test]
fn visit_stats_need_a_row() {
    assert!(get_visit_stats(DbFailure::NoRows).starts_with("Visit tracker row not found"));
    assert_eq!(
        get_visit_stats(DbFailure::Other("x".to_string())),
        "get_visit_stats: x"
    );
}

#[test]
fn blacklists_fall_back_to_the_defaults() {
    let d = vec!["gore".to_string(), "scat".to_string()];
    assert_eq!(default_blacklist_text(&d), "gore\nscat");
    assert_eq!(resolve_blacklist("", &d), "gore\nscat");
    assert_eq!(resolve_blacklist("x", &d), "x");
    assert_eq!(update_device_blacklist(Some("x"), "x", &d), Ok(None));
    assert_eq!(
        update_device_blacklist(Some("x"), "", &d),
        Ok(Some("gore\nscat".to_string()))
    );
    assert_eq!(
        update_device_blacklist(None, "x", &d),
        Err("No account found for this device token".to_string())
    );
}

#[test]
fn accounts_are_looked_up() {
    let a = |id| TruncatedAccount { id, name: "n".to_string(), blacklist: String::new() };
    assert_eq!(get_account_by_name(vec![a(1), a(2)]).unwrap().id, 1);
    assert_eq!(get_account_by_id(Vec::new()).unwrap_err(), "No account found");
    assert_eq!(require_device_link(Ok(true)), Ok(()));
    assert_eq!(
        require_device_link(Ok(false)),
        Err("Account is not linked to this device token".to_string())
    );
    assert_eq!(
        require_device_link(Err("x".to_string())),
        Err("Failed to verify account ownership: x".to_string())
    );
}

#[test]
fn the_last_link_takes_the_account_along() {
    assert!(delete_device_link(1, 0));
    assert!(!delete_device_link(0, 0));
    assert!(!delete_device_link(1, 2));
    assert_eq!(removal_batch_size(5), 1000);
    assert_eq!(removal_batch_size(5000), 5000);
    let sql = removal_sql();
    assert_eq!(sql.len(), 7);
    assert_eq!(sql[6], "DELETE FROM accounts WHERE id = ?1");
    assert_eq!(cleanup_orphan_accounts(Ok(4)), Ok(4));
    assert_eq!(
        cleanup_orphan_accounts(Err("x".to_string())),
        Err("delete orphan accounts: x".to_string())
    );
}

#[test]
fn feed_settings() {
    let s = get_account_feed_settings(
        Ok(()),
        Ok(String::new()),
        Ok(Vec::new()),
        Some("b".to_string()),
    )
    .unwrap();
    assert_eq!(s.blacklist, None);
    assert_eq!(s.experiment_bucket, Some("b".to_string()));
    assert_eq!(
        get_account_feed_settings(Ok(()), Ok("g".to_string()), Ok(Vec::new()), None)
            .unwrap()
            .blacklist,
        Some("g".to_string())
    );
    let fail = |l, b, p| get_account_feed_settings(l, b, p, None).unwrap_err();
    assert_eq!(
        fail(Err(DbFailure::NoRows), Ok(String::new()), Ok(Vec::new())),
        "No account found for this device token"
    );
    assert_eq!(
        fail(Err(DbFailure::Other("x".to_string())), Ok(String::new()), Ok(Vec::new())),
        "Failed to verify account access: x"
    );
    assert_eq!(
        fail(Ok(()), Err("x".to_string()), Ok(Vec::new())),
        "Failed to read blacklist: x"
    );
    assert_eq!(fail(Ok(()), Ok(String::new()), Err("x".to_string())), "x");
}

#[test]
fn experiment_buckets() {
    assert_eq!(get_account_experiment_bucket(Err(DbFailure::NoRows)), Ok(None));
    assert_eq!(
        get_account_experiment_bucket(Ok(Some("a".to_string()))),
        Ok(Some("a".to_string()))
    );
    assert_eq!(
        get_account_experiment_bucket(Err(DbFailure::Other("x".to_string()))),
        Err("get_account_experiment_bucket: x".to_string())
    );
    let counts = count_accounts_by_bucket(&vec![
        Some("a".to_string()),
        None,
        Some("b".to_string()),
        Some("a".to_string()),
    ]);
    let mut got: Vec<(String, i64)> = counts.into_iter().map(|c| (c.label, c.count)).collect();
    got.sort();
    assert_eq!(
        got,
        vec![("a".to_string(), 2), ("b".to_string(), 1), ("none".to_string(), 1)]
    );
    assert_eq!(backfill_threshold(100, 30), 70);
}

#[test]
fn stored_keys_read_back() {
    let stored = set_account_e621_key("käy", "secret", false).unwrap();
    assert_ne!(stored, "käy");
    assert_eq!(
        get_account_e621_key(Some(stored.clone()), "secret", false),
        Ok(Some("käy".to_string()))
    );
    assert_eq!(get_account_e621_key(None, "secret", false), Ok(None));
    assert_eq!(
        get_account_e621_key(Some(stored), "other", false),
        Err("Failed to decrypt e621 key".to_string())
    );
    assert_eq!(
        set_account_e621_key("k", "", false),
        Err("Failed to encrypt e621 key".to_string())
    );
}

#[test]
fn a_key_is_stored_under_its_nonce() {
    let stored = key_to_store("abc", Some(vec![1; 12]), "s", false).unwrap();
    assert_eq!(get_account_e621_key(Some(stored), "s", false), Ok(Some("abc".to_string())));
    assert_eq!(
        key_to_store("abc", None, "s", false),
        Err("Failed to encrypt e621 key".to_string())
    );
}

#[test]
fn keys_that_are_no_text_are_refused() {
    let stored = parser_api::crypto::encrypt(&[0xff, 0xfe], "s", false).unwrap();
    assert!(get_account_e621_key(Some(stored), "s", false)
        .unwrap_err()
        .starts_with("e621 key is not valid UTF-8: invalid utf-8 sequence"));
}

#[test]
fn key_meta() {
    let k = |has_key| KeyRow {
        has_key,
        added_at: Some("a".to_string()),
        verified_at: Some("v".to_string()),
    };
    let m = get_account_key_meta(Some(k(true)));
    assert_eq!((m.has_key, m.added_at, m.verified_at), (true, Some("a".to_string()), Some("v".to_string())));
    let m = get_account_key_meta(Some(k(false)));
    assert_eq!((m.has_key, m.added_at, m.verified_at), (false, None, None));
    assert!(!get_account_key_meta(None).has_key);
    let s = get_direct_sync_state(Some((Some("t".to_string()), true)));
    assert_eq!((s.last_synced_at, s.has_key), (Some("t".to_string()), true));
    assert!(!get_direct_sync_state(None).has_key);
}
