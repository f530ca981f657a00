use std::io::Write;

use parser_api::catalog_seed::{
    category_to_group, col_ix, dt_opt, ensure_download, ingest_tag_relations, ingest_tags, opt,
    batch_relations, batch_tags, ExportSource, Opts, Table, RELATION_BATCH, TAG_BATCH,
};
use parser_api::models::{Post, Rating, Score, Stamp, Tags};
use parser_api::seed::{
    favorite_pages, lowered_blacklist, pool_size, seed_target, select_users, selection_range,
    strip_blacklisted_tags, Discovery, FoundUser, ImportRun, PageOutcome, Probed,
};

fn texts(v: &[&str]) -> Vec<String> {
    v.iter().map(|s| s.to_string()).collect()
}

fn gz(text: &str) -> Vec<u8> {
    let mut e = flate2::write::GzEncoder::new(Vec::new(), flate2::Compression::default());
    e.write_all(text.as_bytes()).unwrap();
    e.finish().unwrap()
}

#[test]
fn options_are_read() {
    let o = Opts::parse(&texts(&["--dir", "a", "x", "--skip-download", "--dir", "b"])).unwrap();
    assert_eq!(o.dir, "b");
    assert!(o.skip_download);
    assert_eq!(o.unknown, texts(&["x"]));
    let o = Opts::parse(&Vec::new()).unwrap();
    assert_eq!((o.dir.as_str(), o.skip_download), ("db_exports", false));
    assert!(Opts::parse(&texts(&["--dir"])).is_none());
}

#[test]
fn exports_are_found_or_fetched() {
    assert!(matches!(ensure_download(true, true, "p", "n"), ExportSource::File));
    match ensure_download(true, false, "d/tags.csv.gz", "tags.csv.gz") {
        ExportSource::Missing(m) => {
            assert_eq!(m, "d/tags.csv.gz missing and --skip-download was set")
        }
        _ => panic!("a missing export passed"),
    }
    match ensure_download(false, false, "p", "tags.csv.gz") {
        ExportSource::Download(u) => assert_eq!(u, "https://e621.net/db_exports/tags.csv.gz"),
        _ => panic!("an absent export passed"),
    }
}

#[test]
fn columns_and_fields() {
    let h = texts(&["id", "name", "name"]);
    assert_eq!(col_ix(&h, "name"), Some(1));
    assert_eq!(col_ix(&h, "x"), None);
    let row = texts(&["1", " n "]);
    assert_eq!(opt(&row, Some(1)), " n ");
    assert_eq!(opt(&row, Some(2)), "");
    assert_eq!(opt(&row, None), "");
    assert_eq!(dt_opt(&row, Some(1)), Some("n".to_string()));
    assert_eq!(dt_opt(&texts(&["  "]), Some(0)), None);
}

#[test]
fn categories_name_their_groups() {
    for (c, g) in [
        ("0", "general"),
        (" 1 ", "artist"),
        ("2", "general"),
        ("3", "copyright"),
        ("4", "character"),
        ("5", "species"),
        ("7", "meta"),
        ("8", "lore"),
        ("", "general"),
    ] {
        assert_eq!(category_to_group(c), g);
    }
}

#[test]
fn tag_exports_are_ingested() {
    let t = ingest_tags(&gz("id,name,category\n1,wolf,5\n2,,1\n3,\"a,b\",1\n")).unwrap();
    assert!(t.error.is_none());
    assert_eq!(t.batches.len(), 1);
    let got: Vec<(&str, &str)> = t.batches[0]
        .iter()
        .map(|t| (t.name.as_str(), t.group_type.as_str()))
        .collect();
    assert_eq!(got, vec![("wolf", "species"), ("a,b", "artist")]);
    assert!(ingest_tags(&gz("category\n1\n")).unwrap().batches.is_empty());
    let broken = ingest_tags(&gz("id,name,category\n1,wolf,5\n2\n")).unwrap();
    assert!(broken.error.is_some());
    assert!(broken.batches.is_empty());
    assert!(ingest_tags(b"no gzip").is_err());
}

#[test]
fn full_batches_are_stored_before_an_error() {
    let mut rows: Vec<Result<Vec<String>, String>> = (0..TAG_BATCH + 1)
        .map(|i| Ok(vec![format!("t{i}"), "1".to_string()]))
        .collect();
    let headers = texts(&["name", "category"]);
    let whole = batch_tags(&Table { headers: headers.clone(), rows: rows.clone() });
    assert_eq!(whole.batches.len(), 2);
    assert_eq!(whole.batches[0].len(), TAG_BATCH);
    assert_eq!(whole.batches[1][0].name, format!("t{TAG_BATCH}"));
    rows.push(Err("bad row".to_string()));
    let cut = batch_tags(&Table { headers, rows });
    assert_eq!(cut.batches.len(), 1);
    assert_eq!(cut.error, Some("bad row".to_string()));
}

#[test]
fn relation_exports_are_ingested() {
    let text = "id,antecedent_name,consequent_name,status,created_at,updated_at\n\
                12,a,b,active,2020-01-01, \nx,c,d,pending,,\n";
    let r = ingest_tag_relations(&gz(text)).unwrap();
    let b = &r.batches[0];
    assert_eq!((b[0].id, b[0].antecedent_name.as_str(), b[0].consequent_name.as_str()), (12, "a", "b"));
    assert_eq!(b[0].status, "active");
    assert_eq!(b[0].created_at, Some("2020-01-01".to_string()));
    assert_eq!(b[0].updated_at, None);
    assert_eq!(b[1].id, 0);
    let rows = (0..RELATION_BATCH * 2).map(|_| Ok(texts(&["1"]))).collect();
    let two = batch_relations(&Table { headers: texts(&["id"]), rows });
    assert_eq!(two.batches.len(), 2);
    assert_eq!(two.batches[1].len(), RELATION_BATCH);
}

#[test]
fn targets_and_pools() {
    assert_eq!(seed_target(None), 500);
    assert_eq!(seed_target(Some("x")), 500);
    assert_eq!(seed_target(Some("-1")), 500);
    assert_eq!(seed_target(Some("+7")), 7);
    assert_eq!(pool_size(10), 60);
    assert_eq!(pool_size(100), 300);
}

fn user(id: i64, is_banned: bool, level: i32) -> FoundUser {
    FoundUser { id, is_banned, level }
}

#[test]
fn candidates_are_importable_and_distinct() {
    let mut d = Discovery::new(3);
    assert!(d.discover_candidates(&vec![
        user(1, false, 20),
        user(2, true, 20),
        user(3, false, 9),
        user(1, false, 20),
        user(4, false, 10),
    ]));
    assert_eq!(d.out, vec![1, 4]);
    assert!(d.wants_more());
    assert!(!d.discover_candidates(&Vec::new()));
    assert!(d.discover_candidates(&vec![user(5, false, 20), user(6, false, 20)]));
    assert_eq!(d.out, vec![1, 4, 5]);
    assert!(!d.wants_more());
}

fn probed(id: i32, favorites: i32) -> Probed {
    Probed { id, name: format!("u{id}"), favorites }
}

#[test]
fn the_richest_users_are_chosen() {
    let users = vec![probed(1, 5), probed(2, 9), probed(3, 5), probed(4, 7)];
    let chosen = select_users(&users, &vec![2], 2);
    assert_eq!(chosen, vec![3, 0]);
    assert_eq!(selection_range(&users, &chosen), Ok((5, 5, 7)));
    assert_eq!(select_users(&users, &vec![1, 2, 3, 4], 2), Vec::<usize>::new());
    assert_eq!(
        selection_range(&users, &Vec::new()),
        Err("no users to import".to_string())
    );
}

#[test]
fn pages_cover_the_favorites() {
    assert_eq!(favorite_pages(320, 320, 10), Ok(1));
    assert_eq!(favorite_pages(321, 320, 10), Ok(2));
    assert_eq!(favorite_pages(10_000, 320, 3), Ok(3));
    assert_eq!(favorite_pages(10_000, 320, 0), Ok(1));
    assert_eq!(favorite_pages(7, -2, 10), Ok(-2));
    assert_eq!(favorite_pages(6, -2, 10), Ok(-3));
    assert_eq!(favorite_pages(1, -2, 10), Ok(1));
    assert_eq!(
        favorite_pages(0, 320, 10),
        Err("user has 0 favorites (private?)".to_string())
    );
}

#[test]
fn blacklisted_tags_are_stripped() {
    let t = Stamp { secs: 0, nanos: 0 };
    let mut tags = Tags::blank();
    tags.artist = texts(&["Gore", "wolf"]);
    tags.meta = texts(&[" HI_RES ", "ÄRGER"]);
    tags.invalid = texts(&["gore"]);
    let mut p = Post {
        id: 1,
        created_at: t,
        updated_at: t,
        file: None,
        preview: None,
        sample: None,
        score: Score { up: 0, down: 0, total: 0 },
        tags,
        rating: Rating::Q,
        fav_count: 0,
        deleted: false,
        has_children: false,
        has_notes: false,
        comment_count: 0,
        uploader_id: 0,
        duration_bits: None,
    };
    let blacklist = lowered_blacklist(&texts(&["GORE", "hi_res", "Ärger"]));
    assert_eq!(blacklist, texts(&["gore", "hi_res", "ärger"]));
    strip_blacklisted_tags(&mut p, &blacklist);
    assert_eq!(p.tags.artist, texts(&["wolf"]));
    assert!(p.tags.meta.is_empty());
    assert_eq!(p.tags.invalid, texts(&["gore"]));
}

#[test]
fn imports_go_page_by_page() {
    let mut run = ImportRun::import_user(3);
    assert_eq!(run.next_page(), Some(1));
    assert!(run.report(PageOutcome::Saved(300)).is_ok());
    assert_eq!(run.next_page(), Some(2));
    assert!(run.report(PageOutcome::Saved(300)).is_ok());
    assert!(run.report(PageOutcome::Saved(7)).is_ok());
    assert_eq!((run.next_page(), run.total), (None, 607));

    let mut run = ImportRun::import_user(9);
    assert!(run.report(PageOutcome::Saved(5)).is_ok());
    assert!(run.report(PageOutcome::Saved(0)).is_ok());
    assert_eq!((run.next_page(), run.total), (None, 5));
    let mut run = ImportRun::import_user(9);
    assert!(run.report(PageOutcome::Malformed).is_ok());
    assert_eq!((run.next_page(), run.total), (None, 0));
    assert_eq!(ImportRun::import_user(0).next_page(), None);

    let failed = |o: PageOutcome| ImportRun::import_user(9).report(o);
    let e = || "down".to_string();
    assert_eq!(
        failed(PageOutcome::NotFetched(e())),
        Err("get_favorites page 1: down".to_string())
    );
    assert_eq!(failed(PageOutcome::PostsNotSaved(e())), Err("save_posts page 1: down".to_string()));
    assert_eq!(failed(PageOutcome::TagsNotSaved(e())), Err("save_tags page 1: down".to_string()));
}
