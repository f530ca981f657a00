use parser_api::db::cooccurrence::{
    get_account_tag_relation_graph, load_global_tag_relation, upsert_account_cooccurrence_pairs,
    upsert_cooccurrence_pairs, RelationRow, TagDfRow, TagMeta, TagRelationNode,
};
use parser_api::db::tag_batch::{
    link_error, save_posts_tags_batch, upsert_error, LinkStep, TagBatch, DF_SQL,
};
use parser_api::models::{SqlValue, TagGroup, Tags};

fn texts(v: &[&str]) -> Vec<String> {
    v.iter().map(|s| s.to_string()).collect()
}

/// Saves the links of the current post; a tag gets the first free id, and every
/// link is new.
fn save_links(b: &mut TagBatch, next_id: &mut i64) -> Vec<i64> {
    let mut linked = Vec::new();
    loop {
        match b.step() {
            LinkStep::Settled => return linked,
            LinkStep::Upsert { .. } => {
                b.resolve(*next_id);
                *next_id += 1;
            }
            LinkStep::Link { tag_id, post_id } => {
                assert_eq!(post_id, b.post_id);
                linked.push(tag_id);
                b.linked(1);
            }
        }
    }
}

#[test]
fn tags_of_a_batch_are_saved_post_by_post() {
    assert!(save_posts_tags_batch(0, true, None).is_none());
    let mut b = save_posts_tags_batch(2, true, Some(7)).unwrap();
    assert!(b.asks_had_tags());
    let mut first = Tags::blank();
    first.artist = texts(&["Bob"]);
    first.species = texts(&["wolf", "gore"]);
    let mut next_id = 10;

    b.begin_post(1, &first, &texts(&["gore"]), false);
    assert!(matches!(
        b.step(),
        LinkStep::Upsert { group: TagGroup::Artist, name } if name == "bob"
    ));
    assert_eq!(save_links(&mut b, &mut next_id), vec![10, 11]);
    let updates = b.end_post();
    assert_eq!(updates.catalog, Some(vec![10, 11]));
    let account = updates.account.unwrap();
    assert_eq!((account.account_id, account.ids), (7, vec![10, 11]));
    assert!(b.cooc_dirty);

    let mut second = Tags::blank();
    second.artist = texts(&["bob"]);
    second.meta = texts(&["hires"]);
    b.begin_post(2, &second, &Vec::new(), true);
    assert_eq!(save_links(&mut b, &mut next_id), vec![10, 12]);
    let updates = b.end_post();
    assert!(updates.catalog.is_none());
    let account = updates.account.unwrap();
    assert_eq!(account.ids, vec![10, 12]);
    assert_eq!(
        upsert_account_cooccurrence_pairs(account.account_id, &account.ids, &account.metas)
            .unwrap()
            .len(),
        1
    );

    assert_eq!(b.new_links, 4);
    let df = b.recompute_df_for_tags();
    assert_eq!(df.len(), 1);
    assert_eq!(df[0].sql, format!("{DF_SQL}?,?,?)"));
    assert_eq!(df[0].ids, vec![10, 11, 12]);
    let mut deltas: Vec<(String, i64)> =
        b.name_deltas().into_iter().map(|d| (d.name, d.delta)).collect();
    deltas.sort();
    assert_eq!(
        deltas,
        vec![("bob".to_string(), 2), ("hires".to_string(), 1), ("wolf".to_string(), 1)]
    );
}

#[test]
fn untracked_batches_count_no_pairs() {
    let mut b = save_posts_tags_batch(1, false, Some(7)).unwrap();
    assert!(!b.asks_had_tags());
    let mut tags = Tags::blank();
    tags.general = texts(&["a", "b"]);
    let mut next_id = 1;
    b.begin_post(1, &tags, &Vec::new(), false);
    assert_eq!(save_links(&mut b, &mut next_id), vec![1, 2]);
    let updates = b.end_post();
    assert!(updates.catalog.is_none() && updates.account.is_none());
    assert!(!b.cooc_dirty);
}

#[test]
fn single_tags_make_no_pairs_and_known_links_no_deltas() {
    let mut b = save_posts_tags_batch(1, true, None).unwrap();
    let mut tags = Tags::blank();
    tags.lore = texts(&["a"]);
    b.begin_post(1, &tags, &Vec::new(), false);
    b.resolve(5);
    b.linked(0);
    assert!(matches!(b.step(), LinkStep::Settled));
    let updates = b.end_post();
    assert!(updates.catalog.is_none() && updates.account.is_none());
    assert!(b.name_deltas().is_empty());
    assert_eq!(b.touched, vec![5]);
}

#[test]
fn tag_failures_name_the_tag() {
    assert_eq!(
        upsert_error(TagGroup::Artist, "bob", "locked"),
        "upsert tag bob:artist: locked"
    );
    assert_eq!(link_error(4, 9, "locked"), "link tag_id=4 post_id=9: locked");
}

#[test]
fn catalog_pairs_are_counted_in_statements() {
    assert!(upsert_cooccurrence_pairs(&vec![4]).is_empty());
    let s = upsert_cooccurrence_pairs(&vec![1, 2, 3]);
    assert_eq!(s.len(), 1);
    assert_eq!(s[0].pairs, vec![(1, 2), (1, 3), (2, 3)]);
    assert!(s[0].sql.contains("VALUES (?,?,1),(?,?,1),(?,?,1) ON CONFLICT"));
    let ids: Vec<i64> = (0..21).collect();
    let s = upsert_cooccurrence_pairs(&ids);
    assert_eq!(s.iter().map(|s| s.pairs.len()).collect::<Vec<usize>>(), vec![200, 10]);
}

#[test]
fn account_pairs_need_every_tag() {
    let metas = vec![
        TagMeta { id: 1, name: "wolf".to_string(), group: "species".to_string() },
        TagMeta { id: 2, name: "bob".to_string(), group: "artist".to_string() },
    ];
    let s = upsert_account_cooccurrence_pairs(7, &vec![1, 2], &metas).unwrap();
    assert_eq!(s.len(), 1);
    assert_eq!(s[0].values.len(), 5);
    assert!(matches!(&s[0].values[1], SqlValue::Text(t) if t == "bob"));
    match upsert_account_cooccurrence_pairs(7, &vec![1, 3], &metas) {
        Err(e) => assert_eq!(e, "missing tag_id 3 in account cooc meta map"),
        Ok(_) => panic!("an unknown tag passed"),
    }
}

fn relation(tag1: &str, tag2: &str, global_cooc: i64) -> RelationRow {
    RelationRow {
        tag1: tag1.to_string(),
        group1: "g".to_string(),
        tag2: tag2.to_string(),
        group2: "g".to_string(),
        user_cooc: 3,
        global_cooc,
        df1: 3,
        df2: 4,
    }
}

#[test]
fn graphs_carry_nodes_edges_and_sizes() {
    let node = |name: &str| TagRelationNode {
        name: name.to_string(),
        group_type: "g".to_string(),
        count: 1,
    };
    let rows = vec![relation("b", "a", 9), relation("a", "c", 0)];
    let g = get_account_tag_relation_graph(vec![node("a"), node("b"), node("c")], &rows, 100, 20);
    assert_eq!(g.nodes.len(), 3);
    assert_eq!((g.catalog_post_count, g.account_post_count), (100, 20));
    assert_eq!(g.edges.len(), 2);
    assert_eq!((g.edges[0].source, g.edges[0].target), (0, 1));
    assert!(g.edges[0].has_lift());
    assert!(!g.edges[1].has_lift());
}

#[test]
fn the_catalog_graph_keeps_known_groups() {
    let row = |id: i64, name: &str, group: &str| TagDfRow {
        id,
        name: name.to_string(),
        group: group.to_string(),
        df: id * 10,
    };
    let rows = vec![row(1, "WOLF", "species"), row(2, "x", "nope"), row(3, "bob", "artist")];
    let m = load_global_tag_relation(&rows);
    assert_eq!(m.len(), 2);
    assert_eq!((m[0].id, m[0].name.as_str(), m[0].df), (1, "wolf", 10));
    assert_eq!((m[1].id, m[1].group), (3, TagGroup::Artist));
}
