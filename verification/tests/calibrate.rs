use std::collections::HashSet;

use parser_api::calibrate::cache::{
    carry_channels, diversify_head_limit, effective_mask, rank_by_score, rank_entries,
    recompute_one_post, ChannelScores, RankedPost, M_ALL, M_INTERACTION, M_NONE, M_SIM,
};
use parser_api::calibrate::dataset::{
    account_favorite_ids_with_ts, build_profile, build_tag_counts, draw_negatives, enough_posts,
    finish_negatives, load_catalog_index, prep_line, query_set, split_account, target_negatives,
    uniform_catalog, CatalogRow, FavoriteRow, NegativeDraw, NegativePlan,
};
use parser_api::calibrate::grid::{
    active_knobs, combo_signs, knob_by_name, GridAction, GridPlan, GridSearch, KnobInfo,
    ProbeOutcome,
};
use parser_api::calibrate::metrics::{
    first_hit, hits_at_k, pool_threads, progress_due, report_every, resample_positions,
    RESAMPLE_SEED,
};
use parser_api::calibrate::options::{
    needs_dataset, parse_command_line, parse_grid_flags, write_options_line,
    write_saturation_lines, GridOptions, Mode, NegMode, SplitStrategy,
};
use parser_api::calibrate::sampling::{
    next_random, sample_hard_pool, sample_negatives_mixed, sample_negatives_uniform,
    split_train_test, split_train_test_time,
};
use parser_api::models::{Post, Rating, Score, Stamp, Tags};

fn texts(v: &[&str]) -> Vec<String> {
    v.iter().map(|s| s.to_string()).collect()
}

#[test]
fn grid_flags_are_read() {
    let (o, unknown) = parse_grid_flags(&texts(&[
        "no-pairs",
        "split=random",
        "huh",
        "neg=mixed",
        "split=time",
        "--verbose",
    ]));
    assert_eq!(
        o,
        GridOptions {
            pairs_only: false,
            run_paired: false,
            diversify: false,
            split: SplitStrategy::TimeCausal,
            neg_mode: NegMode::Mixed,
            verbose: true,
        }
    );
    assert_eq!(unknown, texts(&["huh"]));
    assert_eq!(parse_grid_flags(&Vec::new()).0, GridOptions::default());
}

#[test]
fn command_lines_are_read() {
    let p = parse_command_line(&Vec::new()).unwrap();
    assert_eq!(p.modes, vec![Mode::Eval]);
    assert!(parse_command_line(&texts(&["verbose"])).is_none());
    let p = parse_command_line(&texts(&["eval", "grid", "mix-only", "verbose", "grid"])).unwrap();
    assert_eq!(p.modes, vec![Mode::Eval, Mode::Grid]);
    assert!(p.mix_only && p.options.verbose);
    assert_eq!(p.ignored, texts(&["grid"]));
    let p = parse_command_line(&texts(&["probe", "mix-only"])).unwrap();
    assert!(!p.mix_only);
    assert_eq!(p.ignored, texts(&["mix-only"]));
    assert!(!needs_dataset(&p.modes));
    assert!(needs_dataset(&vec![Mode::Probe, Mode::Grid]));
}

#[test]
fn log_lines() {
    let o = GridOptions::default();
    assert_eq!(
        write_options_line(&o),
        "# split=post_id neg=hybrid-hard diversify=false pairs_only=false run_paired=true\n"
    );
    assert_eq!(write_saturation_lines(&Vec::new()), "");
    assert_eq!(
        write_saturation_lines(&texts(&["a", "b"])),
        "# WARN clamp-saturated:\n#   a\n#   b\n"
    );
    assert_eq!(
        prep_line(&o, 40, 30, 5),
        "[prep] split=post_id, neg=hybrid-hard, diversify=false, max_accounts=40, min_favs=30, neg_ratio=5"
    );
}

fn scores(x: u32, veto: bool) -> ChannelScores {
    ChannelScores {
        sim: x,
        quality: x,
        recency: x,
        rating: x,
        media: x,
        popularity: x,
        interaction: x,
        tag_relation: x,
        veto,
    }
}

#[test]
fn masks_choose_the_channels() {
    let (a, b) = (scores(1, false), scores(2, true));
    assert_eq!(recompute_one_post(a, b, M_ALL), b);
    assert_eq!(recompute_one_post(a, b, M_NONE), a);
    let m = recompute_one_post(a, b, M_SIM);
    assert_eq!((m.sim, m.quality, m.veto), (2, 1, false));
    let twice = recompute_one_post(m, b, M_INTERACTION);
    assert_eq!(twice, recompute_one_post(a, b, M_SIM | M_INTERACTION));
    assert!(twice.veto);
    assert_eq!(effective_mask(false, M_SIM), M_ALL);
    assert_eq!(effective_mask(true, M_SIM), M_SIM);
    assert_eq!(diversify_head_limit(10, 20), 50);
    assert_eq!(diversify_head_limit(40, 20), 80);
}

#[test]
fn hits_are_counted() {
    let r = rank_entries(&vec![10, 20, 30], &vec![2, 0, 1], 2);
    assert_eq!(r[0], RankedPost { id: 30, is_positive: false });
    assert_eq!(r[1], RankedPost { id: 10, is_positive: true });
    assert_eq!(hits_at_k(&r, 0), 0);
    assert_eq!(hits_at_k(&r, 2), 1);
    assert_eq!(hits_at_k(&r, 9), 2);
    assert_eq!(first_hit(&r), Some(1));
    assert_eq!(first_hit(&r[..1].to_vec()), None);
}

#[test]
fn pools_and_progress() {
    assert_eq!(pool_threads(8, 0), 4);
    assert_eq!(pool_threads(1, 0), 1);
    assert_eq!(pool_threads(8, 3), 3);
    assert_eq!(pool_threads(8, 30), 8);
    assert_eq!(pool_threads(0, 3), 1);
    assert_eq!(report_every(100, 10, 5), 10);
    assert_eq!(report_every(10, 10, 5), 5);
    assert!(progress_due(10, 30, 5));
    assert!(progress_due(30, 30, 7));
    assert!(!progress_due(3, 30, 7));
}

#[test]
fn resampling_is_repeatable() {
    let (v, s) = resample_positions(RESAMPLE_SEED, 5);
    assert_eq!(v, vec![4, 3, 4, 3, 1]);
    assert_eq!(s, 0x377b_2fd5_6a5b_15b4);
}

#[test]
fn draws_are_repeatable() {
    assert_eq!(next_random(1), 1_082_269_761);
    let mut scratch = HashSet::new();
    assert_eq!(
        sample_negatives_uniform(&vec![10, 20, 30, 40, 50], &vec![20], 3, &mut scratch),
        vec![40, 10, 30]
    );
    assert_eq!(scratch.len(), 4);
    let mut taken: HashSet<i64> = [100].into_iter().collect();
    let catalog: Vec<i64> = (100..120).collect();
    assert_eq!(
        sample_hard_pool(&catalog, 4, 7, &mut taken),
        vec![116, 117, 107, 109]
    );
    assert!(sample_negatives_uniform(&Vec::new(), &vec![20], 3, &mut scratch).is_empty());
}

fn catalog_rows() -> Vec<CatalogRow> {
    (1..=8)
        .map(|i| CatalogRow {
            id: i,
            fav_count: 10 * i,
            created_at: if i <= 4 {
                "1970-01-01T00:00:00Z".to_string()
            } else {
                "1970-04-26T17:46:40Z".to_string()
            },
        })
        .collect()
}

#[test]
fn matched_negatives_are_repeatable() {
    let c = load_catalog_index(&catalog_rows());
    assert_eq!(c.created_at_epoch[7], 10_000_000);
    let mut scratch = HashSet::new();
    let out = sample_negatives_mixed(
        &c,
        &vec![3],
        &vec![(25, 45)],
        &vec![10_000_000],
        4,
        1,
        1,
        7,
        &mut scratch,
    );
    assert_eq!(out, vec![1, 4, 7, 6]);
    assert!(uniform_catalog(vec![1, 2]).by_fav.is_empty());
}

#[test]
fn splits_hold_out_posts() {
    let ids: Vec<i64> = (0..10).rev().map(|i| i * 10).collect();
    let (train, test) = split_train_test(7, &ids, 3, SplitStrategy::PostId);
    assert_eq!(train, vec![0, 10, 20, 30, 40, 50, 60]);
    assert_eq!(test, vec![70, 80, 90]);
    let (train, test) = split_train_test(7, &ids, 3, SplitStrategy::Random);
    assert_eq!(test, vec![30, 40, 70]);
    assert_eq!(train, vec![0, 10, 20, 50, 60, 80, 90]);
    let (train, test) = split_train_test_time(&vec![(1, 300), (2, 100), (3, 200)], 1);
    assert_eq!((train, test), (vec![2, 3], vec![1]));
    let (train, test) = split_train_test(7, &vec![5], 9, SplitStrategy::PostId);
    assert_eq!((train, test), (vec![5], Vec::new()));
}

#[test]
fn accounts_are_split_or_skipped() {
    let favs = vec![(3, 30), (1, 10), (2, 20)];
    assert!(split_account(1, &favs, 4, 1, SplitStrategy::PostId).is_none());
    assert!(split_account(1, &vec![(3, 30)], 1, 1, SplitStrategy::PostId).is_none());
    let s = split_account(1, &favs, 3, 1, SplitStrategy::TimeCausal).unwrap();
    assert_eq!((s.train, s.test, s.excluded), (vec![1, 2], vec![3], vec![1, 2, 3]));
    assert!(enough_posts(15, 1, 30));
    assert!(!enough_posts(14, 1, 30));
    assert!(!enough_posts(15, 0, 30));
    assert_eq!(target_negatives(4, 5), 20);
}

#[test]
fn negatives_are_clean() {
    let c = load_catalog_index(&catalog_rows());
    let plan = NegativePlan {
        mode: NegMode::Hybrid,
        target: 4,
        n_mixed: 2,
        n_uniform: 1,
        n_popular: 1,
    };
    let d = draw_negatives(&c, &vec![3], &vec![(25, 45)], &vec![10_000_000], plan, 7);
    assert_eq!(d.n_hard, 2);
    assert_eq!(d.ids, vec![1, 4]);
    assert!(d.pool.iter().all(|id| ![1, 3, 4].contains(id)));
    let uniform = NegativePlan { mode: NegMode::Uniform, ..plan };
    let u = draw_negatives(&c, &vec![3], &Vec::new(), &Vec::new(), uniform, 7);
    assert_eq!((u.n_hard, u.pool.len(), u.ids.len()), (0, 0, 4));
    let draw = NegativeDraw { ids: vec![1, 2], pool: vec![5, 6, 7], n_hard: 2 };
    assert_eq!(finish_negatives(&draw, &vec![7, 5, 6], &vec![2, 5]), vec![1, 7]);
}

fn training_post(artist: &[&str], rating: Rating) -> Post {
    let t = Stamp { secs: 0, nanos: 0 };
    let mut tags = Tags::blank();
    tags.artist = texts(artist);
    tags.meta = texts(&["bob"]);
    Post {
        id: 1,
        created_at: t,
        updated_at: t,
        file: None,
        preview: None,
        sample: None,
        score: Score { up: 0, down: 0, total: 0 },
        tags,
        rating,
        fav_count: 0,
        deleted: false,
        has_children: false,
        has_notes: false,
        comment_count: 0,
        uploader_id: 0,
        duration_bits: None,
    }
}

#[test]
fn training_ratings_and_media_are_counted() {
    let posts = vec![
        training_post(&[], Rating::S),
        training_post(&[], Rating::E),
        training_post(&[], Rating::S),
    ];
    let p = build_profile(&posts, &texts(&["image", "video", "image"]));
    let mut rating: Vec<(String, i64)> = p.rating.into_iter().map(|c| (c.label, c.count)).collect();
    let mut media: Vec<(String, i64)> = p.media.into_iter().map(|c| (c.label, c.count)).collect();
    rating.sort();
    media.sort();
    assert_eq!(rating, vec![("e".to_string(), 1), ("s".to_string(), 2)]);
    assert_eq!(media, vec![("image".to_string(), 2), ("video".to_string(), 1)]);
}

#[test]
fn favourites_and_query_tags_are_read() {
    let row = |id: i64, created_at: &str| FavoriteRow { id, created_at: created_at.to_string() };
    assert_eq!(
        account_favorite_ids_with_ts(&vec![row(4, "1970-01-01T00:01:00Z"), row(2, "x")]),
        vec![(4, 60), (2, 0)]
    );
    let set = query_set(&vec![Some(3), None, Some(3), Some(1)]);
    assert_eq!(set, HashSet::from([1, 3]));
}

#[test]
fn cached_channels_are_carried_over() {
    let (a, b) = (scores(1, false), scores(2, true));
    let m = carry_channels(Some(&vec![a, a]), &vec![b, b], M_SIM);
    assert_eq!(m, vec![recompute_one_post(a, b, M_SIM); 2]);
    assert_eq!(carry_channels(None, &vec![b], M_NONE), vec![b]);
    let mut right = b;
    right.sim = 9;
    assert_eq!(carry_channels(Some(&vec![right]), &vec![b], M_SIM), vec![b]);
}

#[test]
fn the_highest_score_ranks_first() {
    let bits: Vec<u32> = [0.5f32, -1.0, 2.0, 0.5, -0.0, 0.0, -2.5]
        .iter()
        .map(|x| x.to_bits())
        .collect();
    let r = rank_by_score(&vec![10, 11, 12, 13, 14, 15, 16], &bits, 2);
    let ids: Vec<i64> = r.iter().map(|p| p.id).collect();
    assert_eq!(ids, vec![12, 10, 13, 14, 15, 11, 16]);
    let hits: Vec<bool> = r.iter().map(|p| p.is_positive).collect();
    assert_eq!(hits, vec![false, true, false, false, false, true, false]);
}

#[test]
fn training_tags_are_counted() {
    let counts = build_tag_counts(&vec![
        training_post(&["Bob"], Rating::S),
        training_post(&["bob", "ann"], Rating::S),
    ]);
    let mut got: Vec<(String, String, i64)> = counts
        .into_iter()
        .map(|c| (c.group_type, c.name, c.count))
        .collect();
    got.sort();
    assert_eq!(
        got,
        vec![
            ("artist".to_string(), "ann".to_string(), 1),
            ("artist".to_string(), "bob".to_string(), 2),
            ("meta".to_string(), "bob".to_string(), 2),
        ]
    );
}

#[test]
fn knobs_are_found() {
    let k = |name: &str, diversify_only| KnobInfo {
        name: name.to_string(),
        probes: 3,
        diversify_only,
    };
    let knobs = vec![k("a", false), k("b", true), k("c", false)];
    assert_eq!(active_knobs(&knobs, false), vec![0, 2]);
    assert_eq!(active_knobs(&knobs, true), vec![0, 1, 2]);
    assert_eq!(knob_by_name(&knobs, &vec![0, 2], "c"), Some(1));
    assert_eq!(knob_by_name(&knobs, &vec![0, 2], "b"), None);
    assert_eq!(combo_signs(0), (true, true));
    assert_eq!(combo_signs(1), (true, false));
    assert_eq!(combo_signs(2), (false, true));
    assert_eq!(combo_signs(3), (false, false));
}

fn deltas(values: &[f32]) -> Vec<u32> {
    values.iter().map(|v| v.to_bits()).collect()
}

#[test]
fn skipped_probes_count_from_the_first_equal_delta() {
    let skipped = |values: &[f32]| {
        let mut g = GridSearch::new(GridPlan {
            probes: vec![deltas(values)],
            passes: 1,
            pairs: 0,
            candidates: 0,
            pairs_only: false,
            run_paired: false,
        });
        g.report(ProbeOutcome::Rejected);
        g.report(ProbeOutcome::Rejected);
        assert_eq!(g.action(), GridAction::Finish);
        (g.cursor.evals_done, g.cursor.skipped_early)
    };
    assert_eq!(skipped(&[1.0, 2.0, 3.0, 4.0]), (2, 2));
    assert_eq!(skipped(&[1.0, 2.0, 2.0, 4.0]), (2, 3));
    assert_eq!(skipped(&[0.0, 2.0, -0.0, 4.0]), (2, 4));
    assert_eq!(skipped(&[1.0, 2.0, f32::NAN, 4.0]), (2, 4));
}

#[test]
fn grid_gives_up_a_knob_after_two_misses() {
    let mut g = GridSearch::new(GridPlan {
        probes: vec![deltas(&[-0.2, -0.1, 0.1, 0.2]), deltas(&[-1.0, 1.0])],
        passes: 3,
        pairs: 1,
        candidates: 1,
        pairs_only: false,
        run_paired: true,
    });
    let single = |pass, knob, probe| GridAction::Single { pass, knob, probe };
    assert_eq!(g.action(), single(0, 0, 0));
    g.report(ProbeOutcome::Rejected);
    g.report(ProbeOutcome::NotFinite);
    assert_eq!(g.action(), single(0, 1, 0));
    assert_eq!(g.cursor.skipped_early, 2);
    g.report(ProbeOutcome::Accepted);
    g.report(ProbeOutcome::Rejected);
    assert_eq!(g.action(), single(1, 0, 0));
    for _ in 0..4 {
        g.report(ProbeOutcome::Rejected);
    }
    assert_eq!(g.action(), GridAction::Pair { pair: 0, combo: 0 });
    assert_eq!(g.cursor.planned, 12);
    assert_eq!(g.cursor.evals_done + g.cursor.skipped_early, 12);
    for _ in 0..4 {
        g.report(ProbeOutcome::Rejected);
    }
    assert_eq!(g.action(), GridAction::Category { candidate: 0 });
    g.report(ProbeOutcome::NotFinite);
    assert_eq!(g.action(), GridAction::Finish);
    assert_eq!((g.cursor.evals_done, g.cursor.skipped_nan), (8, 2));
}

#[test]
fn grid_can_sweep_pairs_only() {
    let g = GridSearch::new(GridPlan {
        probes: vec![deltas(&[-0.2, -0.1, 0.1, 0.2])],
        passes: 3,
        pairs: 2,
        candidates: 0,
        pairs_only: true,
        run_paired: false,
    });
    assert_eq!(g.action(), GridAction::Pair { pair: 0, combo: 0 });
    let g = GridSearch::new(GridPlan {
        probes: Vec::new(),
        passes: 3,
        pairs: 2,
        candidates: 0,
        pairs_only: false,
        run_paired: false,
    });
    assert_eq!(g.action(), GridAction::Finish);
}
