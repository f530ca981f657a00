use parser_api::db::media::{
    count_media_bytes, delete_media_entries, queue_stats, stored_url_map, MediaEntry,
};
use parser_api::media_fetch_worker::{
    err_chain, fetch_original, judge_body, judge_status, kick_worker, pass_step, read_error,
    remove_deleted_post, send_error, set_worker_paused, take_kick, wait_before_pass,
    worker_paused, DownloadResult, FetchAction, PassStep, StatusVerdict, WorkerFlags,
};
use parser_api::media_hydrator::{hydrate_catalog_once, repair_line};
use parser_api::media_store::{
    cache_dir, clear_cache, delete_and_unindex, evict_to_budget, indexed_bytes, rel_path_for,
    rewrite_local_media_urls, stored_path, temporary_path, unindexed,
};
use parser_api::models::{FileInfo, Post, Preview, Rating, Sample, Score, Stamp, Tags};

#[test]
fn rel_path_shards_by_mod_100() {
    assert_eq!(rel_path_for(7, "jpg"), "07/7.jpg");
    assert_eq!(rel_path_for(123_456, "png"), "56/123456.png");
    assert_eq!(rel_path_for(1_000_000, "webm"), "00/1000000.webm");
}

#[test]
fn rel_path_neutralizes_traversal_ext() {
    assert_eq!(rel_path_for(1, "../../etc/passwd"), "01/1.etcpasswd");
    assert_eq!(rel_path_for(1, "..\\..\\win"), "01/1.win");
    assert_eq!(rel_path_for(1, "png"), "01/1.png");
    assert_eq!(rel_path_for(1, "..."), "01/1.bin");
    assert_eq!(rel_path_for(1, ""), "01/1.bin");
    let long = rel_path_for(1, &"a".repeat(80));
    assert!(long.len() <= "01/1.".len() + 12);
    assert!(long.ends_with(&"a".repeat(12)));
}

#[test]
fn stored_path_rejects_traversal_components() {
    assert!(stored_path("../outside.png", false).is_none());
    assert!(stored_path("/etc/passwd", false).is_none());
    assert!(stored_path("07/1.png", false).is_some() || stored_path("07/1.png", false).is_none());
    assert!(stored_path("C:\\evil", false).is_none());
}

#[test]
fn stored_paths_lie_in_the_media_folder() {
    assert_eq!(cache_dir(), "media");
    assert_eq!(stored_path("07/1.png", false), Some("media/07/1.png".to_string()));
    assert_eq!(stored_path("a/../b", false), None);
    assert_eq!(stored_path("a/..", false), None);
    assert_eq!(stored_path("a\\..\\b", true), None);
    assert_eq!(stored_path("a\\..\\b", false), Some("media/a\\..\\b".to_string()));
    assert_eq!(stored_path("\\a", true), None);
    assert_eq!(stored_path("\\a", false), Some("media/\\a".to_string()));
    assert_eq!(stored_path("a/../b", true), None);
    assert_eq!(stored_path("c:x", false), None);
    assert_eq!(stored_path("1:x", false), Some("media/1:x".to_string()));
    assert_eq!(stored_path("a/..b", false), Some("media/a/..b".to_string()));
    for (id, ext) in [(-7, "png"), (i64::MIN, ".."), (i64::MAX, "/"), (0, "a b")] {
        assert!(stored_path(&rel_path_for(id, ext), false).is_some()
            && stored_path(&rel_path_for(id, ext), true).is_some());
    }
    assert_eq!(rel_path_for(-7, "png"), "-7/-7.png");
    assert_eq!(temporary_path(7, "jpg"), "media/07/7.jpg.tmp");
}

fn entry(post_id: i64, rel: &str) -> MediaEntry {
    MediaEntry { post_id, rel_path: rel.to_string(), bytes: 10, mtime: 0 }
}

#[test]
fn eviction_runs_until_the_budget_holds() {
    assert!(evict_to_budget(0).is_none());
    let mut e = evict_to_budget(100).unwrap();
    assert!(e.over_budget(101));
    assert!(!e.over_budget(100));
    assert!(!e.over_budget(-1));
    let wide = evict_to_budget(u64::MAX).unwrap();
    assert!(!wide.over_budget(0));
    assert!(!wide.over_budget(i64::MAX));
    let round = e.round(Ok(vec![entry(1, "01/1.png"), entry(2, "../x")]), false).unwrap();
    assert_eq!(round.paths, vec!["media/01/1.png".to_string()]);
    assert_eq!(round.ids, vec![1, 2]);
    assert!(e.booked(2, true));
    assert_eq!(e.evicted, 2);
    assert!(!e.booked(2, false));
    assert_eq!(e.evicted, 2);
    assert!(e.round(Ok(Vec::new()), false).is_none());
    assert!(e.round(Err("db".to_string()), false).is_none());
}

#[test]
fn removal_of_entries() {
    assert_eq!(indexed_bytes(Ok(5)), 5);
    assert_eq!(indexed_bytes(Err("x".to_string())), 0);
    assert_eq!(delete_and_unindex(Ok(None), false), Ok(None));
    assert_eq!(
        delete_and_unindex(Ok(Some("a/b".to_string())), false),
        Ok(Some(Some("media/a/b".to_string())))
    );
    assert_eq!(delete_and_unindex(Ok(Some("/b".to_string())), false), Ok(Some(None)));
    assert_eq!(delete_and_unindex(Err("e".to_string()), false), Err("e".to_string()));
    assert_eq!(unindexed(Ok(1)), Ok(true));
    assert_eq!(unindexed(Err("e".to_string())), Err("delete_and_unindex: e".to_string()));
    assert_eq!(clear_cache(Ok(vec![entry(3, "03/3.gif")]), false).unwrap().ids, vec![3]);
    assert_eq!(
        clear_cache(Err("e".to_string()), false).unwrap_err(),
        "clear_cache list: e".to_string()
    );
}

#[test]
fn index_reads_name_their_stage() {
    assert_eq!(count_media_bytes(Ok(()), Ok(7)), Ok(7));
    assert_eq!(
        count_media_bytes(Err("x".to_string()), Ok(7)),
        Err("count_media_bytes open: x".to_string())
    );
    assert_eq!(
        count_media_bytes(Ok(()), Err("x".to_string())),
        Err("count_media_bytes: x".to_string())
    );
    assert_eq!(queue_stats(Ok(()), Ok(1), Ok(2), Ok(3)), Ok((1, 2, 3)));
    assert_eq!(
        queue_stats(Ok(()), Ok(1), Err("s".to_string()), Err("b".to_string())),
        Err("queue_stats stored: s".to_string())
    );
    assert_eq!(
        queue_stats(Err("o".to_string()), Ok(1), Ok(2), Ok(3)),
        Err("queue_stats open: o".to_string())
    );
    assert_eq!(
        queue_stats(Ok(()), Err("p".to_string()), Ok(2), Ok(3)),
        Err("queue_stats pending: p".to_string())
    );
    assert_eq!(
        queue_stats(Ok(()), Ok(1), Ok(2), Err("b".to_string())),
        Err("queue_stats bytes: b".to_string())
    );
}

#[test]
fn stored_posts_are_asked_for_in_chunks() {
    assert!(stored_url_map(&Vec::new()).is_empty());
    let ids: Vec<i64> = (0..513).collect();
    let q = stored_url_map(&ids);
    assert_eq!(q.len(), 2);
    assert_eq!(q[0].ids.len(), 512);
    assert_eq!(q[1].ids, vec![512]);
    assert_eq!(q[1].sql, "SELECT post_id FROM media_entries WHERE post_id IN (?)");
    assert_eq!(delete_media_entries(&Vec::new()), None);
    assert_eq!(
        delete_media_entries(&vec![1, 2]),
        Some("DELETE FROM media_entries WHERE post_id IN (?,?)".to_string())
    );
}

fn post(id: i64) -> Post {
    let t = Stamp { secs: 0, nanos: 0 };
    Post {
        id,
        created_at: t,
        updated_at: t,
        file: Some(FileInfo {
            width: 1,
            height: 2,
            ext: Some("png".to_string()),
            size: 3,
            md5: None,
            url: Some("https://o".to_string()),
        }),
        preview: Some(Preview { width: 4, height: 5, url: None }),
        sample: Some(Sample {
            has: Some(true),
            width: None,
            height: None,
            url: Some("https://s".to_string()),
        }),
        score: Score { up: 1, down: 0, total: 1 },
        tags: Tags::blank(),
        rating: Rating::S,
        fav_count: 0,
        deleted: false,
        has_children: false,
        has_notes: false,
        comment_count: 0,
        uploader_id: 0,
        duration_bits: None,
    }
}

#[test]
fn stored_posts_point_at_the_local_originals() {
    let mut posts = vec![post(1), post(2)];
    rewrite_local_media_urls(&mut posts, Ok(vec![2]));
    assert_eq!(posts[0].file.as_ref().unwrap().url.as_deref(), Some("https://o"));
    let local = Some("/api/media/2?size=original");
    assert_eq!(posts[1].file.as_ref().unwrap().url.as_deref(), local);
    assert_eq!(posts[1].sample.as_ref().unwrap().url.as_deref(), local);
    assert_eq!(posts[1].preview.as_ref().unwrap().url, None);
    assert_eq!(posts[1].file.as_ref().unwrap().width, 1);
    rewrite_local_media_urls(&mut posts, Err("db".to_string()));
    assert_eq!(posts[0].file.as_ref().unwrap().url.as_deref(), Some("https://o"));
}

#[test]
fn worker_flags() {
    let mut f = WorkerFlags { paused: false, kick: false };
    set_worker_paused(&mut f, true);
    assert!(worker_paused(&f));
    assert_eq!(pass_step(&f, "u", "png"), PassStep::Stop);
    set_worker_paused(&mut f, false);
    assert_eq!(pass_step(&f, "", "png"), PassStep::Skip);
    assert_eq!(pass_step(&f, "u", ""), PassStep::Skip);
    assert_eq!(pass_step(&f, "u", "png"), PassStep::Fetch);
    kick_worker(&mut f);
    assert!(take_kick(&mut f));
    assert!(!take_kick(&mut f));
    assert_eq!(wait_before_pass(&mut f), 30_000);
    kick_worker(&mut f);
    assert_eq!(wait_before_pass(&mut f), 50);
    assert!(!f.kick);
}

#[test]
fn downloads_are_tried_three_times() {
    assert!(fetch_original(true).is_none());
    let mut run = fetch_original(false).unwrap();
    for k in 0..3u64 {
        match run.action() {
            FetchAction::Attempt(ms) => assert_eq!(ms, 400 * k),
            FetchAction::Fail(_) => panic!("gave up early"),
        }
        assert_eq!(run.report(Err(format!("e{k}"))), None);
    }
    match run.action() {
        FetchAction::Fail(e) => assert_eq!(e, "e2"),
        FetchAction::Attempt(_) => panic!("tried a fourth time"),
    }
    let mut run = fetch_original(false).unwrap();
    assert_eq!(run.report(Ok(DownloadResult::Stored)), Some(true));
    let mut run = fetch_original(false).unwrap();
    assert_eq!(run.report(Ok(DownloadResult::Deleted)), Some(false));
}

#[test]
fn responses_are_judged() {
    assert!(matches!(judge_status(1, "u", 404, ""), StatusVerdict::Deleted));
    assert!(matches!(judge_status(1, "u", 410, ""), StatusVerdict::Deleted));
    assert!(matches!(judge_status(1, "u", 206, ""), StatusVerdict::Read));
    match judge_status(1, "u", 403, "403 Forbidden") {
        StatusVerdict::Failed(e) => assert_eq!(e, "get 1 u: HTTP 403 Forbidden"),
        _ => panic!("a refused download passed"),
    }
    assert_eq!(judge_body(1, "u", 5, "200 OK", None), Ok(()));
    assert_eq!(
        judge_body(1, "u", 0, "200 OK", Some(9)),
        Err("get 1 u: empty body (status=200 OK, content-length=9)".to_string())
    );
    let chain = vec!["a".to_string(), "b".to_string()];
    assert_eq!(err_chain(&chain), "a <- b");
    assert_eq!(send_error(1, "u", &chain), "get 1 u: a <- b");
    assert_eq!(
        read_error(1, "u", &chain, "200 OK", None, "image/png"),
        "read 1 u: a <- b (status=200 OK, content-length=?, content-type=image/png)"
    );
    assert_eq!(remove_deleted_post(5, 0), None);
    assert_eq!(
        remove_deleted_post(5, 1),
        Some("[AUDIT] catalog.media.post_deleted|post_id=5".to_string())
    );
}

#[test]
fn absent_posts_are_purged_and_returned_ones_stay() {
    assert_eq!(hydrate_catalog_once(&vec![1, 2, 3, 2], &vec![3, 1]), vec![2, 2]);
    assert_eq!(hydrate_catalog_once(&vec![1], &vec![1, 1]), Vec::<i64>::new());
    assert_eq!(
        repair_line(3, 2, 1),
        "[media-hydrator] scanned 3 incomplete posts; e621 repaired 2, purged 1 absent posts"
    );
}
