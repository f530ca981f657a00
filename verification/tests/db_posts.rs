use parser_api::clock::{after, epoch_of, parse_db_datetime};
use parser_api::db::posts::{
    delete_by_account_in_batches, drop_account_cooccurrence_batched,
    drop_account_feed_interactions_batched, get_post_by_id, hydrate_posts_by_ids,
    post_row_queries, post_tag_queries, post_upsert_params, prune_orphan_candidates,
    prune_orphan_posts_batched, prune_stale_catalog_posts, pruned_counts, save_posts,
    similar_offset, upsert_catalog_posts, PostRow, TagRow, HYDRATE_CHUNK, ORPHAN_PRUNE_BATCH,
    ORPHAN_PRUNE_SQL, POST_ROWS_SQL, POST_TAGS_SQL,
};
use parser_api::db::profiles::{
    get_account_preference_profile, get_account_quality_profile, get_account_recency_profile,
    time_or_now, AccountQualityProfile, AccountRecencyProfile,
};
use parser_api::db::sql::{chunks_of, placeholders, tag_error};
use parser_api::errors::DbFailure;
use parser_api::jobs::{
    any_running, finish, get_state, prune_finished_jobs, record_page_done, record_phase,
    set_pages_total, try_begin, BeginResult, JobRegistry, ProcessJobPhase,
};
use parser_api::models::{Rating, SqlValue, Stamp};

fn at(secs: i64) -> Stamp {
    Stamp { secs, nanos: 0 }
}

#[test]
fn stored_times_are_read() {
    assert_eq!(parse_db_datetime("1970-01-01T00:00:10+00:00"), Ok(at(10)));
    assert_eq!(
        parse_db_datetime("1970-01-01T01:00:10.5+01:00"),
        Ok(Stamp { secs: 10, nanos: 500_000_000 })
    );
    assert!(parse_db_datetime("1970-01-01 00:00:10 UTC")
        .unwrap_err()
        .starts_with("Failed to parse datetime '1970-01-01 00:00:10 UTC': "));
    assert_eq!(epoch_of("1970-01-02T00:00:00Z"), 86_400);
    assert_eq!(epoch_of("x"), 0);
    assert!(after(Stamp { secs: 1, nanos: 1 }, at(1)));
    assert!(!after(at(1), at(1)));
}

fn row(id: i64, created: &str, rating: &str) -> PostRow {
    PostRow {
        id,
        created_at_raw: created.to_string(),
        updated_at_raw: "bad".to_string(),
        score_total: 3,
        score_up: 5,
        score_down: -2,
        fav_count: 7,
        rating_raw: rating.to_string(),
        file_ext: Some("webm".to_string()),
        file_width: Some(640),
        file_height: None,
        file_size: Some(9),
        file_url: None,
        preview_url: None,
        preview_width: Some(1),
        preview_height: Some(2),
        sample_url: Some("s".to_string()),
        sample_width: None,
        sample_height: Some(4),
        is_animated: 1,
        duration_bits: Some(1.5f64.to_bits()),
        comment_count: 1,
        has_notes: 0,
        is_deleted: 1,
        has_children: 2,
    }
}

fn tag(post_id: i64, name: &str, group: &str) -> TagRow {
    TagRow { post_id, name: name.to_string(), group: group.to_string() }
}

#[test]
fn posts_are_assembled_from_rows_and_tags() {
    let rows = vec![row(1, "1970-01-01T00:00:01Z", "s"), row(2, "1970-01-01T00:00:02Z", "e")];
    let tags = vec![
        tag(1, "wolf", "species"),
        tag(2, "x", "artist"),
        tag(1, "solo", "general"),
        tag(1, "fox", "species"),
        tag(9, "lost", "general"),
        tag(2, "y", "unknown"),
    ];
    let mut posts = hydrate_posts_by_ids(rows, tags).unwrap();
    posts.sort_by_key(|p| p.id);
    assert_eq!(posts.len(), 2);
    let p = &posts[0];
    assert_eq!((p.created_at, p.updated_at), (at(1), at(1)));
    assert_eq!((p.score.total, p.score.up, p.score.down), (3, 5, -2));
    assert_eq!(p.rating, Rating::S);
    let f = p.file.as_ref().unwrap();
    assert_eq!((f.width, f.height, f.size), (640, 0, 9));
    assert_eq!(f.ext.as_deref(), Some("webm"));
    assert!(p.preview.is_none());
    let s = p.sample.as_ref().unwrap();
    assert_eq!((s.has, s.width, s.height), (Some(true), None, Some(4)));
    assert!(p.deleted && p.has_children && !p.has_notes);
    assert_eq!(p.tags.species, vec!["wolf".to_string(), "fox".to_string()]);
    assert_eq!(p.tags.general, vec!["solo".to_string()]);
    assert_eq!(posts[1].tags.artist, vec!["x".to_string()]);
    assert_eq!(posts[1].rating, Rating::E);
}

#[test]
fn broken_rows_are_named() {
    let e = hydrate_posts_by_ids(vec![row(4, "x", "s")], Vec::new()).unwrap_err();
    assert!(e.starts_with("hydrate post 4 created_at: Failed to parse datetime 'x': "));
    let e = hydrate_posts_by_ids(
        vec![row(1, "1970-01-01T00:00:01Z", "s"), row(5, "1970-01-01T00:00:01Z", "z")],
        Vec::new(),
    )
    .unwrap_err();
    assert_eq!(e, "hydrate post 5: bad rating z");
}

#[test]
fn one_post_is_found_or_absent() {
    assert!(get_post_by_id(Vec::new(), Vec::new()).unwrap().is_none());
    let p = get_post_by_id(vec![row(3, "1970-01-01T00:00:01Z", "q")], Vec::new()).unwrap();
    assert_eq!(p.unwrap().id, 3);
}

#[test]
fn upserts_bind_every_column() {
    let p = get_post_by_id(vec![row(3, "1970-01-01T00:00:01Z", "q")], Vec::new())
        .unwrap()
        .unwrap();
    let v = post_upsert_params(&p, true, at(60)).unwrap();
    assert_eq!(v.len(), 27);
    assert!(matches!(&v[0], SqlValue::Integer(3)));
    assert!(matches!(&v[1], SqlValue::Text(t) if t == "1970-01-01T00:00:01+00:00"));
    assert!(matches!(&v[5], SqlValue::Text(t) if t == "q"));
    assert!(matches!(&v[6], SqlValue::Text(t) if t == "1970-01-01T00:01:00+00:00"));
    assert!(matches!(&v[7], SqlValue::Text(t) if t == "webm"));
    assert!(matches!(&v[11], SqlValue::Integer(1)));
    assert!(matches!(&v[12], SqlValue::Real(b) if f64::from_bits(*b) == 1.5));
    assert!(matches!(&v[17], SqlValue::Null));
    assert!(matches!(&v[20], SqlValue::Integer(5)));
    assert!(post_upsert_params(&p, true, at(i64::MAX)).is_none());
}

#[test]
fn tables_are_emptied_in_batches() {
    let mut b = delete_by_account_in_batches("account_tag_cooccurrence", 0).unwrap();
    assert_eq!(b.limit, 1);
    assert_eq!(b.record(5), Some((5, 5)));
    assert_eq!(b.record(2), Some((2, 7)));
    assert_eq!(b.record(0), None);
    assert!(b.done);
    assert!(drop_account_feed_interactions_batched(50)
        .is_ok_and(|b| b.limit == 50 && b.sql.starts_with("DELETE FROM feed_interactions ")));
    match delete_by_account_in_batches("posts", 1) {
        Err(e) => assert_eq!(e, "delete_by_account_in_batches: unknown table posts"),
        Ok(_) => panic!("an unknown table passed"),
    }
    assert_eq!(pruned_counts(10, 4), (10, 6));
    assert_eq!(pruned_counts(3, 4), (3, 0));
    assert_eq!(similar_offset(0, 20), 0);
    assert_eq!(similar_offset(3, 20), 40);
}

#[test]
fn statements_are_filled_in() {
    assert_eq!(placeholders(0), "");
    assert_eq!(placeholders(3), "?,?,?");
    assert_eq!(tag_error("stage", "cause"), "stage: cause");
    let c = chunks_of(&vec![1, 2, 3, 4, 5], 2);
    assert_eq!(c, vec![vec![1, 2], vec![3, 4], vec![5]]);
}

#[test]
fn jobs_run_once_per_account() {
    let mut r = JobRegistry::new();
    assert!(!any_running(&r));
    assert!(matches!(try_begin(&mut r, 1, at(100)), BeginResult::Started(_)));
    assert!(matches!(
        try_begin(&mut r, 1, at(101)),
        BeginResult::AlreadyRunning(j) if j.started_at == at(100)
    ));
    assert!(matches!(try_begin(&mut r, 2, at(100)), BeginResult::Started(_)));
    set_pages_total(&mut r, 1, 9);
    record_page_done(&mut r, 1);
    record_page_done(&mut r, 1);
    record_page_done(&mut r, 3);
    record_phase(&mut r, 1, "fetch".to_string(), 2.5f64.to_bits(), Stamp { secs: 101, nanos: 250_000_000 });
    {
        let s = get_state(&r, 1).unwrap();
        assert_eq!((s.pages_total, s.pages_done, s.elapsed_ms), (9, 2, 1250));
        assert_eq!(s.phases.len(), 1);
        assert_eq!(s.phases[0].name, "fetch");
    }
    finish(&mut r, 1, Err("down".to_string()), at(200));
    let s = get_state(&r, 1).unwrap();
    assert_eq!(s.phase, ProcessJobPhase::Failed);
    assert_eq!(s.error.as_deref(), Some("down"));
    assert_eq!(s.finished_at, Some(at(200)));
    assert!(any_running(&r));
    assert!(matches!(try_begin(&mut r, 1, at(300)), BeginResult::Started(_)));
    assert_eq!(get_state(&r, 1).unwrap().pages_done, 0);
    finish(&mut r, 2, Ok(()), at(300));
    assert_eq!(get_state(&r, 2).unwrap().phase, ProcessJobPhase::Done);
    assert!(get_state(&r, 3).is_none());
}

#[test]
fn old_jobs_are_pruned() {
    let mut r = JobRegistry::new();
    for id in 1..=3 {
        assert!(matches!(try_begin(&mut r, id, at(1000)), BeginResult::Started(_)));
    }
    finish(&mut r, 1, Ok(()), at(1010));
    finish(&mut r, 2, Ok(()), at(1011));
    assert_eq!(prune_finished_jobs(&mut r, at(1050), 40, 0), (3, 2));
    assert!(get_state(&r, 1).is_none());
    assert!(get_state(&r, 2).is_some());
    assert!(get_state(&r, 3).is_some());
    assert_eq!(prune_finished_jobs(&mut r, at(1060), -5, 10), (2, 0));
}

#[test]
fn posts_are_fetched_in_chunks() {
    assert!(post_row_queries(&Vec::new()).is_empty());
    let ids: Vec<i64> = (0..801).collect();
    let rows = post_row_queries(&ids);
    assert_eq!(rows.len(), 2);
    assert_eq!(rows[0].ids.len(), HYDRATE_CHUNK);
    assert_eq!(rows[1].ids, vec![800]);
    assert_eq!(rows[1].sql, format!("{POST_ROWS_SQL}?)"));
    let tags = post_tag_queries(&vec![4, 5]);
    assert_eq!(tags.len(), 1);
    assert_eq!(tags[0].sql, format!("{POST_TAGS_SQL}?,?)"));
}

#[test]
fn saves_bind_every_post() {
    let p = get_post_by_id(vec![row(3, "1970-01-01T00:00:01Z", "q")], Vec::new())
        .unwrap()
        .unwrap();
    let posts = vec![p];
    let v = upsert_catalog_posts(&posts, &vec![true], at(60)).unwrap();
    assert_eq!((v.len(), v[0].len()), (1, 27));
    assert!(matches!(&v[0][11], SqlValue::Integer(1)));
    let s = save_posts(&posts, &vec![false], 7, at(60)).unwrap();
    assert_eq!((s.len(), s[0].account_id, s[0].post_id), (1, 7, 3));
    assert!(matches!(&s[0].values[11], SqlValue::Integer(0)));
    assert!(upsert_catalog_posts(&posts, &vec![true], at(i64::MAX)).is_none());
    assert!(save_posts(&posts, &vec![true], 7, at(i64::MAX)).is_none());
}

#[test]
fn orphans_are_pruned_in_batches() {
    let mut b = prune_orphan_posts_batched(2);
    assert_eq!((b.sql, b.limit), (ORPHAN_PRUNE_SQL, 2));
    assert!(!b.outdates_graphs());
    assert_eq!(b.record(2), Some((2, 2)));
    assert_eq!(b.record(0), None);
    assert!(b.outdates_graphs());
    assert!(prune_orphan_candidates(0).is_none());
    assert_eq!(prune_orphan_candidates(9).map(|b| b.limit), Some(ORPHAN_PRUNE_BATCH));
    assert_eq!(prune_stale_catalog_posts().limit, ORPHAN_PRUNE_BATCH);
    assert_eq!(drop_account_cooccurrence_batched(0), None);
    assert_eq!(drop_account_cooccurrence_batched(4), Some((4, 4)));
}

#[test]
fn profiles_fall_back() {
    assert_eq!(get_account_preference_profile(None, at(5)), None);
    assert_eq!(
        get_account_preference_profile(Some("1970-01-01T00:00:10+00:00"), at(5)),
        Some(at(10))
    );
    assert_eq!(
        get_account_preference_profile(Some("1970-01-01 00:00:10 +00:00"), at(5)),
        Some(at(10))
    );
    assert_eq!(get_account_preference_profile(Some("x"), at(5)), Some(at(5)));
    assert_eq!(time_or_now(Err("x".to_string()), at(5)), at(5));
    let q = AccountQualityProfile {
        avg_score_total: 1,
        avg_fav_count: 2,
        avg_comment_count: 3,
        avg_duration: 4,
    };
    assert_eq!(get_account_quality_profile(Ok(q)), Ok(q));
    assert_eq!(
        get_account_quality_profile(Err(DbFailure::NoRows)).map(|p| p.avg_fav_count),
        Ok(0)
    );
    assert_eq!(
        get_account_quality_profile(Err(DbFailure::Other("x".to_string()))),
        Err("Failed to fetch quality profile: x".to_string())
    );
    let r = AccountRecencyProfile { avg_age_days: 1, avg_abs_dev_days: 2 };
    assert_eq!(get_account_recency_profile(Ok(r)), Ok(r));
    assert_eq!(
        get_account_recency_profile(Err(DbFailure::NoRows)).map(|p| p.avg_age_days),
        Ok(0)
    );
    assert_eq!(
        get_account_recency_profile(Err(DbFailure::Other("x".to_string()))),
        Err("Failed to fetch recency profile: x".to_string())
    );
}
