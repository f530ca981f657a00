use std::collections::{HashMap, HashSet};

use parser_api::db::catalog::{catalog_search_post_ids, catalog_tag_suggest};
use parser_api::db::cooccurrence::{
    account_pair_params, account_statement_sql, edge_limit, load_account_tag_relation, pair_min,
    pair_statement_sql, relation_edges, stage_global_pairs, tag_pairs, CatalogPair, CoocRow,
    RelationRow, TagMeta, TagRelationNode,
};
use parser_api::db::cooccurrence_backfill::{
    backfill_global_tag_cooccurrence, backfill_tag_cooccurrence_if_needed, needs_global_backfill,
    BackfillStep,
};
use parser_api::db::digest::{get_random_posts_by_group, ids_to_scored};
use parser_api::db::feed::{
    candidates_per_stream, collect_local_candidate_ids, feedback_update,
    load_blacklisted_post_ids, lookback_days, record_feed_interaction, FeedInteractionType,
    FeedbackDelta,
};
use parser_api::db::hydrate_cache::{
    candidates, clear_owned_and_candidates, clear_seen, long_term_seen, owned, recent_seen,
    store_candidates, store_long_term_seen, store_owned, store_recent_seen, HydrateCache,
};
use parser_api::db::profiles::{
    decay_account_tag_feedback, refresh_account_profiles, refresh_account_profiles_skip_cooc,
    settle_decay, DecayAction, ProfileStep,
};
use parser_api::db::schema::ensure_embedded_migrations_cover_db;
use parser_api::db::sessions::{
    judge_session, prune_revoked_tokens, revoked_cutoff, session_cutoff, touch_or_create_feed_session,
    FeedSessionState,
};
use parser_api::db::tags::{
    clear_all_tag_counts_caches, clear_tag_counts_cache, get_tag_counts, metas_for, plan_links,
    settle_post_ids, store_tag_counts, DfDeltas, TagCountsCache, TagIdCache, TagKey,
};
use parser_api::models::{SqlValue, Stamp, TagCount, TagGroup, Tags};

fn texts(v: &[&str]) -> Vec<String> {
    v.iter().map(|s| s.to_string()).collect()
}

#[test]
fn guard_is_ok_when_no_history_or_history_covered() {
    assert!(ensure_embedded_migrations_cover_db(&vec![1, 25], &Vec::new()).is_ok());
    assert!(ensure_embedded_migrations_cover_db(&vec![1, 25], &vec![25]).is_ok());
}

#[test]
fn guard_rejects_db_ahead_of_this_binary() {
    let err = ensure_embedded_migrations_cover_db(&vec![1, 25], &vec![99]).unwrap_err();
    assert!(err.contains("V99"), "names the offending version: {err}");
    assert!(
        err.contains("database schema is newer"),
        "clear message: {err}"
    );
}

#[test]
fn guard_names_every_version_ahead() {
    let err = ensure_embedded_migrations_cover_db(&vec![3, 1, 2], &vec![1, 7, 2, 9]).unwrap_err();
    assert!(err.contains("migration(s) V7, V9 that this build"));
    assert!(err.contains("embeds V1..V3; the database is at V9)"));
}

#[test]
fn blacklist_filter_empty() {
    assert!(load_blacklisted_post_ids(&Vec::new(), &Vec::new()).is_none());
    assert!(load_blacklisted_post_ids(&vec![1, 2, 3], &Vec::new()).is_none());
    assert!(load_blacklisted_post_ids(&Vec::new(), &texts(&["gore"])).is_none());
}

#[test]
fn blacklisted_posts_are_asked_for() {
    let q = load_blacklisted_post_ids(&vec![5, 6], &texts(&["gore"])).unwrap();
    assert!(q.sql.ends_with("WHERE t.name IN (?) AND tp.post_id IN (?,?)"));
    assert!(matches!(&q.values[0], SqlValue::Text(t) if t == "gore"));
    assert!(matches!(&q.values[1], SqlValue::Integer(5)));
    assert!(matches!(&q.values[2], SqlValue::Integer(6)));
    assert_eq!(q.values.len(), 3);
}

fn cooc(tag1: String, tag2: String, count: i64) -> CoocRow {
    CoocRow {
        tag1,
        group1: "artist".to_string(),
        tag2,
        group2: "artist".to_string(),
        count,
    }
}

#[test]
fn relation_edge_limit_caps_loaded_pairs_and_keeps_strongest() {
    let rows: Vec<CoocRow> = (0..20)
        .map(|i| cooc(format!("a{i}"), format!("b{i}"), 100 + 10 * i))
        .collect();
    let rel = load_account_tag_relation(500, &Vec::new(), &rows, 5);
    assert_eq!(rel.pairs.len(), 5);
    assert!(rel
        .pairs
        .iter()
        .any(|p| p.name1 == "a19" && p.name2 == "b19" && p.count > 0));
    assert!(!rel.pairs.iter().any(|p| p.name1 == "a0"));
}

#[test]
fn relation_with_small_account_loads_all_pairs() {
    let rows: Vec<CoocRow> = (0..3)
        .map(|i| cooc(format!("x{i}"), format!("y{i}"), 5))
        .collect();
    let rel = load_account_tag_relation(10, &Vec::new(), &rows, 100);
    assert_eq!(rel.pairs.len(), 3);
}

#[test]
fn relation_names_are_lowered_and_groups_known() {
    let counts = vec![
        TagCount { name: "ÄRGER".to_string(), group_type: "meta".to_string(), count: 3 },
        TagCount { name: "x".to_string(), group_type: "nope".to_string(), count: 3 },
    ];
    let mut bad = cooc("c".to_string(), "d".to_string(), 900);
    bad.group2 = "nope".to_string();
    let rows = vec![bad, cooc("A".to_string(), "B".to_string(), 5)];
    let rel = load_account_tag_relation(10, &counts, &rows, 2);
    assert_eq!(rel.total_posts, 10);
    assert_eq!(rel.marginals.len(), 1);
    assert_eq!(rel.marginals[0].name, "ärger");
    assert_eq!(rel.marginals[0].group, TagGroup::Meta);
    assert_eq!(rel.pairs.len(), 1);
    assert_eq!((rel.pairs[0].name1.as_str(), rel.pairs[0].name2.as_str()), ("a", "b"));
    assert!(load_account_tag_relation(10, &counts, &rows, 0).pairs.is_empty());
}

#[test]
fn pairs_of_tags() {
    assert_eq!(tag_pairs(&vec![1, 5, 3]), vec![(1, 5), (1, 3), (3, 5)]);
    assert!(tag_pairs(&vec![1]).is_empty());
    assert!(pair_statement_sql(2).contains("VALUES (?,?,1),(?,?,1) ON CONFLICT"));
    assert!(account_statement_sql(2)
        .contains("VALUES (?1, ?2, ?3, ?4, ?5, 1),(?1, ?6, ?7, ?8, ?9, 1) ON CONFLICT"));
}

fn meta(id: i64, name: &str, group: &str) -> TagMeta {
    TagMeta { id, name: name.to_string(), group: group.to_string() }
}

#[test]
fn account_pairs_are_ordered_by_name() {
    let metas = vec![meta(1, "wolf", "species"), meta(2, "bob", "artist")];
    let v = account_pair_params(7, &vec![(1, 2)], &metas).unwrap();
    assert_eq!(v.len(), 5);
    assert!(matches!(&v[0], SqlValue::Integer(7)));
    assert!(matches!(&v[1], SqlValue::Text(t) if t == "bob"));
    assert!(matches!(&v[2], SqlValue::Text(t) if t == "artist"));
    assert!(matches!(&v[3], SqlValue::Text(t) if t == "wolf"));
    assert!(matches!(&v[4], SqlValue::Text(t) if t == "species"));
    match account_pair_params(7, &vec![(1, 2), (1, 3)], &metas) {
        Err(e) => assert_eq!(e, "missing tag_id 3 in account cooc meta map"),
        Ok(_) => panic!("an unknown tag passed"),
    }
}

fn node(name: &str) -> TagRelationNode {
    TagRelationNode { name: name.to_string(), group_type: "g".to_string(), count: 1 }
}

fn relation(tag1: &str, tag2: &str, user_cooc: i64) -> RelationRow {
    RelationRow {
        tag1: tag1.to_string(),
        group1: "g".to_string(),
        tag2: tag2.to_string(),
        group2: "g".to_string(),
        user_cooc,
        global_cooc: 10,
        df1: 3,
        df2: 4,
    }
}

#[test]
fn edges_point_forward_and_come_strongest_first() {
    let nodes = vec![node("a"), node("b"), node("c")];
    let rows = vec![
        relation("b", "a", 2),
        relation("a", "a", 9),
        relation("c", "b", 5),
        relation("a", "zz", 8),
        relation("c", "a", 2),
    ];
    let e = relation_edges(&nodes, &rows);
    let got: Vec<(usize, usize, i64)> = e.iter().map(|e| (e.source, e.target, e.user_cooc)).collect();
    assert_eq!(got, vec![(1, 2, 5), (0, 1, 2), (0, 2, 2)]);
    assert_eq!((e[0].global_cooc, e[0].df1, e[0].df2), (10, 3, 4));
    assert_eq!(pair_min(0), 1);
    assert_eq!(pair_min(4), 4);
    assert_eq!(edge_limit(1), 5000);
    assert_eq!(edge_limit(20), 10_000);
    assert_eq!(edge_limit(1000), 250_000);
}

#[test]
fn catalog_pairs_are_staged() {
    let mut local = HashMap::new();
    local.insert(10, 0u32);
    local.insert(20, 1u32);
    let rows = vec![
        CatalogPair { tag1: 10, tag2: 20, count: 7 },
        CatalogPair { tag1: 10, tag2: 30, count: 7 },
        CatalogPair { tag1: 10, tag2: 10, count: 7 },
        CatalogPair { tag1: 20, tag2: 10, count: -1 },
        CatalogPair { tag1: 20, tag2: 10, count: i64::MAX },
    ];
    let (staged, skipped) = stage_global_pairs(&local, &rows);
    assert_eq!(skipped, 2);
    let got: Vec<(u32, u32, u32)> = staged.iter().map(|p| (p.a, p.b, p.count)).collect();
    assert_eq!(got, vec![(0, 1, 7), (1, 0, 0), (1, 0, u32::MAX)]);
}

#[test]
fn tags_are_linked_in_lower_case() {
    let mut tags = Tags::blank();
    tags.artist = texts(&["Bob", ""]);
    tags.general = texts(&["GORE", "Solo"]);
    tags.invalid = texts(&["bad"]);
    let links = plan_links(&tags, &texts(&["gore"]));
    let got: Vec<(TagGroup, &str)> = links.iter().map(|k| (k.group, k.name.as_str())).collect();
    assert_eq!(got, vec![(TagGroup::Artist, "bob"), (TagGroup::General, "solo")]);
}

fn key(group: TagGroup, name: &str) -> TagKey {
    TagKey { group, name: name.to_string() }
}

#[test]
fn tag_ids_are_remembered() {
    let mut c = TagIdCache::new();
    assert_eq!(c.lookup(&key(TagGroup::Artist, "bob")), None);
    c.remember(key(TagGroup::Artist, "bob"), 4);
    c.remember(key(TagGroup::Meta, "bob"), 5);
    assert_eq!(c.lookup(&key(TagGroup::Artist, "bob")), Some(4));
    assert_eq!(c.lookup(&key(TagGroup::Meta, "bob")), Some(5));
    assert_eq!(c.key_of_id(5), Some(1));
    assert_eq!(c.key_of_id(6), None);
    let m = metas_for(&c, &vec![5, 9]);
    assert_eq!(m.len(), 1);
    assert_eq!((m[0].id, m[0].name.as_str(), m[0].group.as_str()), (5, "bob", "meta"));
}

#[test]
fn post_ids_settle() {
    assert_eq!(settle_post_ids(vec![3, 1, 3, 2]), (vec![1, 2, 3], true));
    assert_eq!(settle_post_ids(vec![3]), (vec![3], false));
    let mut d = DfDeltas::new();
    d.bump(4, 1);
    d.bump(5, 0);
    d.bump(4, 2);
    assert_eq!((d.ids, d.deltas), (vec![4], vec![3]));
}

#[test]
fn tag_counts_expire() {
    let mut c = TagCountsCache::new();
    store_tag_counts(&mut c, 1, Vec::new(), 1000);
    assert!(get_tag_counts(&c, 1, 30_999).is_some());
    assert!(get_tag_counts(&c, 1, 31_000).is_none());
    assert!(get_tag_counts(&c, 2, 1000).is_none());
    clear_tag_counts_cache(&mut c, 1);
    assert!(get_tag_counts(&c, 1, 1000).is_none());
    store_tag_counts(&mut c, 3, Vec::new(), 1000);
    clear_all_tag_counts_caches(&mut c);
    assert!(get_tag_counts(&c, 3, 1000).is_none());
}

#[test]
fn feed_caches_read_back_until_cleared() {
    let mut c = HydrateCache::new();
    let set: HashSet<i64> = [1, 2].into_iter().collect();
    assert_eq!(*store_recent_seen(&mut c, 7, set.clone(), 100), set);
    assert_eq!(*store_long_term_seen(&mut c, 7, set.clone(), 100), set);
    assert_eq!(*store_owned(&mut c, 7, set.clone(), 100), set);
    assert_eq!(*store_candidates(&mut c, 7, vec![3, 4], 100), vec![3, 4]);
    assert_eq!(recent_seen(&c, 7, 20_099).as_deref(), Some(&set));
    assert_eq!(recent_seen(&c, 7, 20_100), None);
    assert_eq!(long_term_seen(&c, 7, 30_099).as_deref(), Some(&set));
    assert_eq!(long_term_seen(&c, 7, 30_100), None);
    assert_eq!(owned(&c, 7, 60_099).as_deref(), Some(&set));
    assert_eq!(owned(&c, 7, 60_100), None);
    assert_eq!(candidates(&c, 7, 20_099).as_deref(), Some(&vec![3, 4]));
    assert_eq!(candidates(&c, 7, 20_100), None);
    assert_eq!(owned(&c, 8, 100), None);
    clear_seen(&mut c, 7);
    assert_eq!(recent_seen(&c, 7, 100), None);
    assert_eq!(long_term_seen(&c, 7, 100), None);
    assert_eq!(owned(&c, 7, 100).as_deref(), Some(&set));
    clear_owned_and_candidates(&mut c, 7);
    assert_eq!(owned(&c, 7, 100), None);
    assert_eq!(candidates(&c, 7, 100), None);
}

#[test]
fn a_full_cache_gives_up_its_oldest_entries() {
    let mut c = HydrateCache::new();
    for id in 0..1024 {
        store_candidates(&mut c, id, vec![id, id], 100);
    }
    assert_eq!(candidates(&c, 0, 100).as_deref(), Some(&vec![0, 0]));
    store_candidates(&mut c, 5000, vec![1], 50);
    assert_eq!(candidates(&c, 5000, 100).as_deref(), Some(&vec![1]));
    assert_eq!(candidates(&c, 0, 100), None);
    assert_eq!(candidates(&c, 1, 100).as_deref(), Some(&vec![1, 1]));
    store_candidates(&mut c, 1, vec![2], 101);
    assert_eq!(candidates(&c, 1, 101).as_deref(), Some(&vec![2]));
    assert_eq!(candidates(&c, 2, 101).as_deref(), Some(&vec![2, 2]));
}

#[test]
fn sessions_expire_after_half_an_hour() {
    let now = Stamp { secs: 1_700_000_000, nanos: 0 };
    let state = |last| touch_or_create_feed_session(Some(last), now);
    assert_eq!(touch_or_create_feed_session(None, now), Ok(FeedSessionState::Fresh));
    assert_eq!(state("2023-11-14T22:13:20+00:00"), Ok(FeedSessionState::Active));
    assert_eq!(state("2023-11-14T21:43:20+00:00"), Ok(FeedSessionState::Active));
    assert_eq!(state("2023-11-14T21:43:19.999999999+00:00"), Ok(FeedSessionState::Expired));
    assert_eq!(state("2023-11-14T21:42:21+00:00"), Ok(FeedSessionState::Expired));
    assert_eq!(state("2023-11-14T23:00:00+00:00"), Ok(FeedSessionState::Active));
    assert!(state("x")
        .unwrap_err()
        .starts_with("Failed to parse session timestamp: Failed to parse datetime 'x': "));
    assert_eq!(judge_session((1800, 0)), FeedSessionState::Active);
    assert_eq!(judge_session((1800, 1)), FeedSessionState::Expired);
    assert_eq!(judge_session((-5, -1)), FeedSessionState::Active);
    let cutoff = session_cutoff(Stamp { secs: 1_700_000_000, nanos: 7 });
    assert_eq!((cutoff.secs, cutoff.nanos), (1_699_998_200, 7));
    assert_eq!(prune_revoked_tokens(5, 2), (5, 3));
    assert_eq!(revoked_cutoff(100, 30), 70);
}

#[test]
fn interactions_count_once() {
    assert_eq!(record_feed_interaction(Ok(true)), Ok(()));
    assert_eq!(
        record_feed_interaction(Ok(false)),
        Err("Account is not linked to this device token".to_string())
    );
    assert_eq!(
        record_feed_interaction(Err("x".to_string())),
        Err("Failed to validate feed interaction owner link: x".to_string())
    );
    assert_eq!(feedback_update(0, FeedInteractionType::Open), None);
    let d = |impressions, positive, negative| Some(FeedbackDelta { impressions, positive, negative });
    assert_eq!(feedback_update(1, FeedInteractionType::QualifiedImpression), d(1, 0, 0));
    assert_eq!(feedback_update(1, FeedInteractionType::Open), d(0, 1, 0));
    assert_eq!(feedback_update(1, FeedInteractionType::Hide), d(0, 0, 1));
    assert_eq!(feedback_update(1, FeedInteractionType::Unknown), d(0, 0, 0));
}

#[test]
fn candidates_are_gathered_from_three_streams() {
    assert_eq!(
        collect_local_candidate_ids(&vec![1, 2, 1], &vec![2, 3], &vec![4, 5], 10),
        vec![1, 2, 3, 4, 5]
    );
    assert_eq!(
        collect_local_candidate_ids(&vec![1, 2, 3], &vec![4, 5], &vec![6, 7], 4),
        vec![1, 2, 3, 4]
    );
    assert!(collect_local_candidate_ids(&vec![1], &vec![2], &vec![3], 0).is_empty());
    assert_eq!(candidates_per_stream(90), 50);
    assert_eq!(candidates_per_stream(300), 100);
    assert_eq!(lookback_days(0), 1);
    assert_eq!(lookback_days(9), 9);
}

#[test]
fn searches_bind_their_terms() {
    let q = catalog_search_post_ids(7, &Vec::new(), 10, 20);
    assert_eq!(
        q.sql,
        "SELECT ap.post_id FROM accounts_post ap WHERE ap.account_id = ?1 ORDER BY ap.post_id DESC LIMIT ? OFFSET ?"
    );
    assert_eq!(q.values.len(), 3);
    let q = catalog_search_post_ids(7, &texts(&["a", "b"]), 10, 20);
    assert_eq!(q.sql.matches("EXISTS (").count(), 2);
    assert!(q.sql.contains("COLLATE NOCASE)\n  AND EXISTS"));
    assert!(matches!(&q.values[2], SqlValue::Text(t) if t == "b"));
    assert!(matches!(&q.values[3], SqlValue::Integer(10)));
    assert!(matches!(&q.values[4], SqlValue::Integer(20)));
}

#[test]
fn typed_prefixes_stand_for_themselves() {
    assert_eq!(catalog_tag_suggest("  "), None);
    assert_eq!(catalog_tag_suggest("a_b%c\\"), Some("a\\_b\\%c\\\\%".to_string()));
}

#[test]
fn digests_draw_from_the_known_tags() {
    assert!(get_random_posts_by_group(None, &vec![1], 5).is_none());
    assert!(get_random_posts_by_group(Some("artist"), &Vec::new(), 5).is_none());
    let q = get_random_posts_by_group(Some("artist"), &vec![8, 9], 5).unwrap();
    assert!(q.sql.ends_with("IN (?2,?3) ORDER BY RANDOM() LIMIT ?1"));
    assert_eq!(q.ids, vec![5, 8, 9]);
    assert!(ids_to_scored(Vec::new()).is_empty());
}

#[test]
fn refreshes_differ_in_one_step() {
    let mut all = refresh_account_profiles();
    let some = refresh_account_profiles_skip_cooc();
    assert_eq!(all.len(), 10);
    assert_eq!(all.remove(6), ProfileStep::Cooccurrence);
    assert_eq!(all, some);
    assert_eq!(some.last(), Some(&ProfileStep::ForgetCachedTagCounts));
}

#[test]
fn feedback_decays_daily() {
    let now = Stamp { secs: 1_700_000_000, nanos: 0 };
    assert_eq!(decay_account_tag_feedback("", now), None);
    assert_eq!(decay_account_tag_feedback("x", now), None);
    assert_eq!(decay_account_tag_feedback("2023-11-13T22:13:21Z", now), None);
    assert_eq!(decay_account_tag_feedback("2023-11-13T22:13:20Z", now), Some(86_400));
    assert_eq!(settle_decay(0, 0, 0), DecayAction::Delete);
    assert_eq!(
        settle_decay(1, 0, 0),
        DecayAction::Update { impressions: 1, positive: 0, negative: 0 }
    );
}

#[test]
fn backfills_go_batch_by_batch() {
    assert!(needs_global_backfill(0, true));
    assert!(!needs_global_backfill(0, false));
    assert!(!needs_global_backfill(3, true));
    assert_eq!(
        backfill_tag_cooccurrence_if_needed(true, &vec![4]),
        vec![BackfillStep::Global, BackfillStep::Account(4)]
    );
    assert!(backfill_tag_cooccurrence_if_needed(false, &Vec::new()).is_empty());
    assert!(backfill_global_tag_cooccurrence(0).is_none());
    let mut b = backfill_global_tag_cooccurrence(3).unwrap();
    assert_eq!(b.last_id, -1);
    assert_eq!(b.book(&vec![4, 9]), (true, None));
    assert_eq!(b.last_id, 9);
    assert_eq!(
        b.book(&vec![12]),
        (true, Some("[cooc-backfill] global progress: 3/3 posts".to_string()))
    );
    assert_eq!(b.book(&Vec::new()), (false, None));
}
