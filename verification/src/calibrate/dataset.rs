//! The evaluation dataset: which accounts take part, what they are trained and
//! tested on, and the negatives they are tested against.

use std::collections::HashSet;

use vstd::prelude::*;

use crate::calibrate::options::{GridOptions, NegMode, SplitStrategy};
use crate::calibrate::sampling;
use crate::calibrate::sampling::{
    sample_hard_pool, sample_negatives_mixed, sample_negatives_uniform, split_train_test,
    split_train_test_time, CatalogIndex,
};
use crate::clock;
use crate::clock::epoch_of;
use crate::models;
use crate::models::{Post, TagCount, TagGroup};
use crate::order;
use crate::order::sort_ints;
use crate::tally;
use crate::tally::{count_labels, LabelCount, Tally};
use crate::text;
use crate::text::{ascii_lowercase, dec_usize, text_eq};
use crate::timed::CacheKey;

verus! {

// ---------------------------------------------------------------------------
// The catalog
// ---------------------------------------------------------------------------

/// A catalog row: id, favourite count and creation time.
#[derive(Debug)]
pub struct CatalogRow {
    pub id: i64,
    pub fav_count: i64,
    pub created_at: String,
}

pub open spec fn row_ids(rows: Seq<CatalogRow>) -> Seq<i64> {
    rows.map_values(|r: CatalogRow| r.id)
}

/// The favourite counts, as far as 32 bits reach.
pub open spec fn row_favs(rows: Seq<CatalogRow>) -> Seq<i64> {
    rows.map_values(|r: CatalogRow| (r.fav_count as i32) as i64)
}

/// The creation times in seconds; zero for one that is no RFC 3339 text.
pub open spec fn row_epochs(rows: Seq<CatalogRow>) -> Seq<i64> {
    rows.map_values(|r: CatalogRow| clock::epoch_or_zero(clock::rfc3339_instant(r.created_at@)))
}

/// `order` lists each of `n` positions once.
pub open spec fn lists_all(order: Seq<u32>, n: int) -> bool {
    &&& order.len() == n
    &&& order.no_duplicates()
    &&& forall|i: int| 0 <= i < order.len() ==> (#[trigger] order[i]) < n
}

/// The positions of `keys` in ascending key order.
fn ascending_positions(keys: &Vec<i64>) -> (r: Vec<u32>)
    requires
        keys.len() <= u32::MAX,
    ensures
        sampling::index_sorted(keys@, r@),
        lists_all(r@, keys@.len() as int),
{
    let mut triples: Vec<(i64, i64, i64)> = Vec::new();
    let mut i: usize = 0;
    while i < keys.len()
        invariant
            i <= keys.len(),
            triples@.len() == i,
            forall|k: int| 0 <= k < i ==> #[trigger] triples@[k] == (keys@[k], 0i64, 0i64),
        decreases keys.len() - i,
    {
        triples.push((keys[i], 0, 0));
        i += 1;
    }
    let ghost all = triples@;
    let order = sort_ints(triples);
    let mut out: Vec<u32> = Vec::new();
    let mut j: usize = 0;
    while j < order.len()
        invariant
            j <= order.len(),
            keys.len() <= u32::MAX,
            order.len() == keys.len(),
            all.len() == keys.len(),
            order::int_sort_order(all, order@),
            out@.len() == j,
            forall|k: int| 0 <= k < j ==> #[trigger] out@[k] == order@[k],
        decreases order.len() - j,
    {
        proof {
            assert(order@[j as int] < keys.len());
        }
        out.push(order[j] as u32);
        j += 1;
    }
    proof {
        assert forall|a: int, b: int| 0 <= a <= b < out@.len() implies keys@[#[trigger] out@[a] as int]
            <= keys@[#[trigger] out@[b] as int] by {
            if a < b {
                assert(order::int_before(all, order@[a] as int, order@[b] as int));
            }
        }
        assert forall|a: int, b: int| 0 <= a < out@.len() && 0 <= b < out@.len() && a
            != b implies out@[a] != out@[b] by {
            assert(order@[a] != order@[b]);
        }
    }
    out
}

/// The catalog with its positions ordered by favourites and by age.
pub fn load_catalog_index(rows: &Vec<CatalogRow>) -> (r: CatalogIndex)
    requires
        rows.len() <= u32::MAX,
    ensures
        r.wf(),
        r.ids@ == row_ids(rows@),
        r.fav_counts@ == row_favs(rows@),
        r.created_at_epoch@ == row_epochs(rows@),
        lists_all(r.by_fav@, rows@.len() as int),
        lists_all(r.by_age@, rows@.len() as int),
{
    let mut ids: Vec<i64> = Vec::new();
    let mut favs: Vec<i64> = Vec::new();
    let mut epochs: Vec<i64> = Vec::new();
    let mut i: usize = 0;
    while i < rows.len()
        invariant
            i <= rows.len(),
            ids@ == row_ids(rows@.take(i as int)),
            favs@ == row_favs(rows@.take(i as int)),
            epochs@ == row_epochs(rows@.take(i as int)),
        decreases rows.len() - i,
    {
        let row = &rows[i];
        ids.push(row.id);
        #[verifier::truncate]
        let fav: i32 = row.fav_count as i32;
        favs.push(fav as i64);
        epochs.push(epoch_of(row.created_at.as_str()));
        proof {
            let t = rows@.take(i as int);
            assert(rows@.take(i + 1) =~= t.push(rows@[i as int]));
            assert(row_ids(t.push(rows@[i as int])) =~= row_ids(t).push(rows@[i as int].id));
            assert(row_favs(t.push(rows@[i as int])) =~= row_favs(t).push(fav as i64));
            assert(row_epochs(t.push(rows@[i as int])) =~= row_epochs(t).push(
                clock::epoch_or_zero(clock::rfc3339_instant(rows@[i as int].created_at@)),
            ));
        }
        i += 1;
    }
    proof {
        assert(rows@.take(rows@.len() as int) =~= rows@);
    }
    let by_fav = ascending_positions(&favs);
    let by_age = ascending_positions(&epochs);
    CatalogIndex { ids, fav_counts: favs, created_at_epoch: epochs, by_fav, by_age }
}

/// The catalog for uniform negatives, which need no order.
pub fn uniform_catalog(ids: Vec<i64>) -> (r: CatalogIndex)
    ensures
        r.wf(),
        r.ids@ == ids@,
        r.fav_counts@ == Seq::new(ids@.len(), |i: int| 0i64),
        r.created_at_epoch@ == Seq::new(ids@.len(), |i: int| 0i64),
        r.by_fav@.len() == 0,
        r.by_age@.len() == 0,
{
    let mut favs: Vec<i64> = Vec::new();
    let mut epochs: Vec<i64> = Vec::new();
    let n: usize = ids.len();
    let mut i: usize = 0;
    while i < n
        invariant
            i <= n,
            favs@ == Seq::new(i as nat, |i: int| 0i64),
            epochs@ == Seq::new(i as nat, |i: int| 0i64),
        decreases n - i,
    {
        favs.push(0);
        epochs.push(0);
        i += 1;
    }
    CatalogIndex {
        ids,
        fav_counts: favs,
        created_at_epoch: epochs,
        by_fav: Vec::new(),
        by_age: Vec::new(),
    }
}

// ---------------------------------------------------------------------------
// Accounts
// ---------------------------------------------------------------------------

/// A favourite of an account and when it was posted.
#[derive(Debug)]
pub struct FavoriteRow {
    pub id: i64,
    pub created_at: String,
}

/// The favourites of an account with their times; a time that cannot be read
/// counts as zero.
pub open spec fn timed_favorites(rows: Seq<FavoriteRow>) -> Seq<(i64, i64)> {
    rows.map_values(
        |r: FavoriteRow| (r.id, clock::epoch_or_zero(clock::rfc3339_instant(r.created_at@))),
    )
}

/// The favourites of an account with their times.
pub fn account_favorite_ids_with_ts(rows: &Vec<FavoriteRow>) -> (r: Vec<(i64, i64)>)
    ensures
        r@ == timed_favorites(rows@),
{
    let mut out: Vec<(i64, i64)> = Vec::new();
    let mut i: usize = 0;
    while i < rows.len()
        invariant
            i <= rows.len(),
            out@ == timed_favorites(rows@.take(i as int)),
        decreases rows.len() - i,
    {
        let at: i64 = epoch_of(rows[i].created_at.as_str());
        out.push((rows[i].id, at));
        proof {
            assert(rows@.take(i + 1) =~= rows@.take(i as int).push(rows@[i as int]));
            assert(timed_favorites(rows@.take(i + 1)) =~= timed_favorites(
                rows@.take(i as int),
            ).push((rows@[i as int].id, at)));
        }
        i += 1;
    }
    proof {
        assert(rows@.take(rows@.len() as int) =~= rows@);
    }
    out
}

/// What an account is trained and tested on.
pub struct AccountSplit {
    pub train: Vec<i64>,
    pub test: Vec<i64>,
    /// Both, in that order: none of them may serve as a negative.
    pub excluded: Vec<i64>,
}

/// What an account's `(post id, time)` favourites are split into.
pub open spec fn halves(
    account_id: i32,
    favs: Seq<(i64, i64)>,
    rounded_test: int,
    split: SplitStrategy,
) -> (Seq<i64>, Seq<i64>) {
    match split {
        SplitStrategy::TimeCausal => sampling::time_halves(favs, rounded_test),
        _ => sampling::split_halves(
            order::sorted_copy(sampling::fav_ids(favs)),
            account_id,
            rounded_test,
            split,
        ),
    }
}

/// How many favourites of several are held out: the rounded share, but at least
/// one and not all.
pub open spec fn share_of(n: int, rounded: int) -> int {
    if rounded >= n {
        n - 1
    } else if rounded >= 1 {
        rounded
    } else {
        1
    }
}

/// Each strategy holds out what it is named for. At random: the ids at the first
/// positions of the account's shuffle of the sorted ids. By post id: the highest
/// ids. By time: the newest favourites.
pub open spec fn splits_as_asked(
    train: Seq<i64>,
    test: Seq<i64>,
    account_id: i32,
    favs: Seq<(i64, i64)>,
    rounded: int,
    split: SplitStrategy,
) -> bool {
    let n = favs.len() as int;
    let sorted = order::sorted_copy(sampling::fav_ids(favs));
    &&& n > 1 ==> test.len() == share_of(n, rounded)
    &&& split == SplitStrategy::Random ==> {
        let held = sampling::random_test_positions(account_id, n, n).take(test.len() as int);
        test == sampling::values_in(sorted, held) && train == sampling::values_outside(
            sorted,
            held,
        )
    }
    &&& split == SplitStrategy::PostId ==> train + test == sorted && forall|i: int, j: int|
        0 <= i < train.len() && 0 <= j < test.len() ==> #[trigger] train[i] <= #[trigger] test[j]
    &&& split == SplitStrategy::TimeCausal ==> exists|by_time: Seq<(i64, i64)>| #[trigger]
        sampling::is_by_time(by_time, favs) && train + test == sampling::fav_ids(by_time)
}

/// Whatever the favourites, each strategy holds out what it is named for.
pub proof fn law_splits_as_asked(
    account_id: i32,
    favs: Seq<(i64, i64)>,
    rounded: int,
    split: SplitStrategy,
)
    requires
        0 < favs.len() <= usize::MAX,
        0 <= rounded,
    ensures
        splits_as_asked(
            halves(account_id, favs, rounded, split).0,
            halves(account_id, favs, rounded, split).1,
            account_id,
            favs,
            rounded,
            split,
        ),
        favs.len() == 1 && split != SplitStrategy::Random ==> halves(
            account_id,
            favs,
            rounded,
            split,
        ).1.len() == 0,
        favs.len() == 1 && split == SplitStrategy::Random ==> halves(
            account_id,
            favs,
            rounded,
            split,
        ).1 == sampling::fav_ids(favs),
{
    let ids = sampling::fav_ids(favs);
    order::law_every_list_has_a_sorted_copy(ids);
    let sorted = order::sorted_copy(ids);
    let n = favs.len() as int;
    assert(sorted.len() == n) by {
        broadcast use vstd::seq_lib::group_to_multiset_ensures;

        assert(sorted.to_multiset().len() == ids.to_multiset().len());
    }
    match split {
        SplitStrategy::Random => {
            sampling::law_random_split(sorted, account_id, rounded);
            sampling::law_random_split_size(sorted, account_id, rounded);
            let (train, test) = halves(account_id, favs, rounded, split);
            if n == 1 {
                broadcast use vstd::seq_lib::group_to_multiset_ensures;

                let held = sampling::random_test_positions(account_id, n, n);
                sampling::law_shuffle_is_fisher_yates(account_id, 1);
                sampling::law_one_position(sorted, account_id, rounded);
                assert(ids[0] == favs[0].0);
                assert(sorted.to_multiset().count(sorted[0]) > 0);
                assert(ids.contains(sorted[0]));
                assert(sorted =~= ids);
            }
        },
        SplitStrategy::PostId => {
            sampling::law_post_id_split(sorted, account_id, rounded);
            let (train, test) = halves(account_id, favs, rounded, split);
            assert((train + test).len() == train.len() + test.len());
        },
        SplitStrategy::TimeCausal => {
            sampling::law_time_split(favs, rounded);
            let (train, test) = halves(account_id, favs, rounded, split);
            let by_time = choose|by_time: Seq<(i64, i64)>| #[trigger]
                sampling::is_by_time(by_time, favs) && train + test == sampling::fav_ids(by_time)
                    && train.len() > 0;
            assert(by_time.len() == n) by {
                broadcast use vstd::seq_lib::group_to_multiset_ensures;

                assert(by_time.to_multiset().len() == favs.to_multiset().len());
            }
            assert((train + test).len() == train.len() + test.len());
        },
    }
}

/// Splits an account's favourites. An account with fewer than `min_favs`, or
/// with nothing to test, takes no part. `rounded_test` is the rounded share of
/// the favourites that is to be held out.
pub fn split_account(
    account_id: i32,
    favs: &Vec<(i64, i64)>,
    min_favs: usize,
    rounded_test: usize,
    split: SplitStrategy,
) -> (r: Option<AccountSplit>)
    requires
        favs.len() == 0 && min_favs == 0 ==> split == SplitStrategy::Random,
    ensures
        match r {
            Some(s) => {
                &&& favs@.len() >= min_favs
                &&& s.test@.len() > 0
                &&& (s.train@, s.test@) == halves(account_id, favs@, rounded_test as int, split)
                &&& splits_as_asked(
                    s.train@,
                    s.test@,
                    account_id,
                    favs@,
                    rounded_test as int,
                    split,
                )
                &&& s.excluded@ == s.train@ + s.test@
                &&& s.excluded@.to_multiset() == sampling::fav_ids(favs@).to_multiset()
            },
            None => favs@.len() < min_favs || halves(
                account_id,
                favs@,
                rounded_test as int,
                split,
            ).1.len() == 0,
        },
        favs@.len() >= min_favs && favs@.len() > 1 ==> r is Some,
        favs@.len() < min_favs ==> r is None,
        favs@.len() == 1 && split != SplitStrategy::Random ==> r is None,
{
    if favs.len() < min_favs {
        return None;
    }
    let (train, test) = if split == SplitStrategy::TimeCausal {
        split_train_test_time(favs, rounded_test)
    } else {
        let mut ids: Vec<i64> = Vec::new();
        let mut i: usize = 0;
        while i < favs.len()
            invariant
                i <= favs.len(),
                ids@ == sampling::fav_ids(favs@.take(i as int)),
            decreases favs.len() - i,
        {
            ids.push(favs[i].0);
            proof {
                let t = favs@.take(i as int);
                assert(favs@.take(i + 1) =~= t.push(favs@[i as int]));
                assert(sampling::fav_ids(t.push(favs@[i as int])) =~= sampling::fav_ids(t).push(
                    favs@[i as int].0,
                ));
            }
            i += 1;
        }
        proof {
            assert(favs@.take(favs@.len() as int) =~= favs@);
        }
        split_train_test(account_id, &ids, rounded_test, split)
    };
    proof {
        if favs@.len() > 0 {
            law_splits_as_asked(account_id, favs@, rounded_test as int, split);
        } else {
            broadcast use vstd::seq_lib::group_to_multiset_ensures;

            assert(train@.to_multiset().add(test@.to_multiset()).len() == 0);
        }
    }
    if test.len() == 0 {
        return None;
    }
    let excluded = concat(&train, &test);
    proof {
        vstd::seq_lib::lemma_multiset_commutative(train@, test@);
        assert(excluded@.to_multiset() =~= sampling::fav_ids(favs@).to_multiset());
    }
    Some(AccountSplit { train, test, excluded })
}

fn concat(a: &Vec<i64>, b: &Vec<i64>) -> (r: Vec<i64>)
    ensures
        r@ == a@ + b@,
{
    let mut r: Vec<i64> = Vec::new();
    let mut i: usize = 0;
    while i < a.len()
        invariant
            i <= a.len(),
            r@ == a@.take(i as int),
        decreases a.len() - i,
    {
        r.push(a[i]);
        proof {
            assert(a@.take(i + 1) =~= a@.take(i as int).push(a@[i as int]));
        }
        i += 1;
    }
    proof {
        assert(a@.take(a@.len() as int) =~= a@);
        assert(a@ + b@.take(0) =~= a@);
    }
    let mut j: usize = 0;
    while j < b.len()
        invariant
            j <= b.len(),
            r@ == a@ + b@.take(j as int),
        decreases b.len() - j,
    {
        r.push(b[j]);
        proof {
            assert(a@ + b@.take(j + 1) =~= (a@ + b@.take(j as int)).push(b@[j as int]));
        }
        j += 1;
    }
    proof {
        assert(b@.take(b@.len() as int) =~= b@);
    }
    r
}

/// Whether enough of an account's posts are known: half of `min_favs` to train
/// on, and one to test.
pub fn enough_posts(train_posts: usize, test_posts: usize, min_favs: usize) -> (r: bool)
    ensures
        r == (train_posts >= min_favs / 2 && test_posts > 0),
{
    !(train_posts < min_favs / 2 || test_posts == 0)
}

/// How many negatives an account is tested against.
pub fn target_negatives(test_posts: usize, negative_ratio: usize) -> (r: usize)
    requires
        test_posts * negative_ratio <= usize::MAX,
    ensures
        r == test_posts * negative_ratio,
{
    test_posts * negative_ratio
}

// ---------------------------------------------------------------------------
// Negatives
// ---------------------------------------------------------------------------

/// How the negatives of an account are drawn. The shares are rounded by the
/// caller: `n_mixed` of `target` for hybrid negatives, and `n_uniform` and
/// `n_popular` of the mixed ones.
#[derive(Clone, Copy, Debug, PartialEq, Eq, Structural)]
pub struct NegativePlan {
    pub mode: NegMode,
    pub target: usize,
    pub n_mixed: usize,
    pub n_uniform: usize,
    pub n_popular: usize,
}

/// Negatives drawn, and for hybrid ones a pool from which the `n_hard` most
/// similar posts are to be added.
pub struct NegativeDraw {
    pub ids: Vec<i64>,
    pub pool: Vec<i64>,
    pub n_hard: usize,
}

/// How many hard negatives a plan asks for.
pub open spec fn hard_share(p: NegativePlan) -> int {
    if p.mode != NegMode::Hybrid || p.target <= p.n_mixed {
        0
    } else {
        p.target - p.n_mixed
    }
}

/// How many of the mixed negatives a plan asks for.
pub open spec fn mixed_share(p: NegativePlan) -> int {
    if p.mode == NegMode::Hybrid {
        p.n_mixed as int
    } else {
        p.target as int
    }
}

/// What is drawn before hard negatives are mined.
pub open spec fn first_draw(
    c: CatalogIndex,
    excluded: Seq<i64>,
    fav_windows: Seq<(i64, i64)>,
    epochs: Seq<i64>,
    p: NegativePlan,
    account_id: i32,
) -> sampling::Draw {
    if p.mode == NegMode::Uniform {
        sampling::uniform_sample(c.ids@, excluded, p.target as int)
    } else if p.mode == NegMode::Hybrid && p.n_mixed == 0 {
        sampling::Draw { taken: Set::empty(), out: Seq::empty(), rng: 0 }
    } else {
        sampling::mixed_sample(
            c,
            excluded,
            fav_windows,
            epochs,
            mixed_share(p),
            p.n_uniform as int,
            p.n_popular as int,
            account_id,
        )
    }
}

/// Each mode draws what it is named for: uniform negatives the whole target from
/// the catalog, mixed ones the whole target in shares, and hybrid ones their mixed
/// share in the same way, nothing where that is empty.
pub open spec fn draws_as_asked(
    d: sampling::Draw,
    c: CatalogIndex,
    excluded: Seq<i64>,
    fav_windows: Seq<(i64, i64)>,
    epochs: Seq<i64>,
    p: NegativePlan,
    account_id: i32,
) -> bool {
    let uniform = p.n_uniform as int;
    let popular = p.n_popular as int;
    &&& p.mode == NegMode::Uniform ==> d == sampling::uniform_sample(
        c.ids@,
        excluded,
        p.target as int,
    )
    &&& p.mode == NegMode::Mixed ==> d == sampling::mixed_sample(
        c,
        excluded,
        fav_windows,
        epochs,
        p.target as int,
        uniform,
        popular,
        account_id,
    )
    &&& p.mode == NegMode::Hybrid && p.n_mixed > 0 ==> d == sampling::mixed_sample(
        c,
        excluded,
        fav_windows,
        epochs,
        p.n_mixed as int,
        uniform,
        popular,
        account_id,
    )
    &&& p.mode == NegMode::Hybrid && p.n_mixed == 0 ==> d.out.len() == 0
}

/// Whatever the plan, each mode draws what it is named for.
pub proof fn law_draws_as_asked(
    c: CatalogIndex,
    excluded: Seq<i64>,
    fav_windows: Seq<(i64, i64)>,
    epochs: Seq<i64>,
    p: NegativePlan,
    account_id: i32,
)
    ensures
        draws_as_asked(
            first_draw(c, excluded, fav_windows, epochs, p, account_id),
            c,
            excluded,
            fav_windows,
            epochs,
            p,
            account_id,
        ),
{
}

/// Only hybrid negatives are mined: then the mixed and the hard ones together make
/// up the target, and the pool is five times as large as what is mined from it.
pub proof fn law_hard_share(p: NegativePlan)
    ensures
        p.mode != NegMode::Hybrid ==> hard_share(p) == 0,
        p.mode == NegMode::Hybrid && p.n_mixed <= p.target ==> hard_share(p) + p.n_mixed
            == p.target,
        p.mode == NegMode::Hybrid && p.n_mixed > p.target ==> hard_share(p) == 0,
        hard_share(p) * 5 <= usize::MAX ==> pool_size(hard_share(p)) == hard_share(p) + 4
            * hard_share(p),
{
}

/// The pool size for `n_hard` hard negatives: five times as many.
pub open spec fn pool_size(n_hard: int) -> int {
    if n_hard * 5 > usize::MAX {
        usize::MAX as int
    } else {
        n_hard * 5
    }
}

/// Draws the negatives of an account, as far as they need no scores.
pub fn draw_negatives(
    catalog: &CatalogIndex,
    excluded: &Vec<i64>,
    fav_windows: &Vec<(i64, i64)>,
    epochs: &Vec<i64>,
    plan: NegativePlan,
    account_id: i32,
) -> (r: NegativeDraw)
    requires
        catalog.wf(),
        fav_windows.len() == epochs.len(),
        forall|i: int|
            0 <= i < epochs.len() ==> i64::MIN + sampling::WINDOW_SECS <= #[trigger] epochs@[i]
                <= i64::MAX - sampling::WINDOW_SECS,
        plan.n_uniform + plan.n_popular <= usize::MAX,
    ensures
        r.n_hard == hard_share(plan),
        ({
            let d = first_draw(
                *catalog,
                excluded@,
                fav_windows@,
                epochs@,
                plan,
                account_id,
            );
            &&& draws_as_asked(
                d,
                *catalog,
                excluded@,
                fav_windows@,
                epochs@,
                plan,
                account_id,
            )
            &&& r.ids@ == d.out
            &&& r.pool@ == (if r.n_hard > 0 {
                sampling::hard_pool(
                    catalog.ids@,
                    pool_size(r.n_hard as int),
                    account_id,
                    d.taken,
                ).out
            } else {
                Seq::empty()
            })
        }),
{
    let mut scratch: HashSet<i64> = HashSet::new();
    let n_hard: usize = if plan.mode != NegMode::Hybrid || plan.target <= plan.n_mixed {
        0
    } else {
        plan.target - plan.n_mixed
    };
    let ids: Vec<i64> = if plan.mode == NegMode::Uniform {
        sample_negatives_uniform(&catalog.ids, excluded, plan.target, &mut scratch)
    } else if plan.mode == NegMode::Hybrid && plan.n_mixed == 0 {
        proof {
            assert(scratch@ =~= Set::<i64>::empty());
        }
        Vec::new()
    } else {
        let share: usize = if plan.mode == NegMode::Hybrid {
            plan.n_mixed
        } else {
            plan.target
        };
        sample_negatives_mixed(
            catalog,
            excluded,
            fav_windows,
            epochs,
            share,
            plan.n_uniform,
            plan.n_popular,
            account_id,
            &mut scratch,
        )
    };
    let ghost taken = scratch@;
    let pool: Vec<i64> = if n_hard > 0 {
        let size: usize = match n_hard.checked_mul(5) {
            Some(x) => x,
            None => usize::MAX,
        };
        sample_hard_pool(&catalog.ids, size, account_id, &mut scratch)
    } else {
        Vec::new()
    };
    NegativeDraw { ids, pool, n_hard }
}

/// The first `n` of a list, or all of it.
pub open spec fn head<A>(s: Seq<A>, n: int) -> Seq<A> {
    if n < s.len() {
        s.take(n)
    } else {
        s
    }
}

/// The negatives of an account: those drawn and the first `n_hard` of the ranked
/// pool, without the account's own favourites.
pub open spec fn final_negatives(
    drawn: Seq<i64>,
    n_hard: int,
    ranked: Seq<i64>,
    excluded: Seq<i64>,
) -> Seq<i64> {
    (drawn + head(ranked, n_hard)).filter(|id: i64| !excluded.contains(id))
}

/// Completes a draw, given the pool's posts ranked by similarity.
pub fn finish_negatives(draw: &NegativeDraw, ranked: &Vec<i64>, excluded: &Vec<i64>) -> (r: Vec<
    i64,
>)
    ensures
        r@ == final_negatives(draw.ids@, draw.n_hard as int, ranked@, excluded@),
{
    broadcast use vstd::std_specs::hash::group_hash_axioms;

    let n: usize = if draw.n_hard < ranked.len() {
        draw.n_hard
    } else {
        ranked.len()
    };
    let mut hard: Vec<i64> = Vec::new();
    let mut i: usize = 0;
    while i < n
        invariant
            i <= n <= ranked.len(),
            hard@ == ranked@.take(i as int),
        decreases n - i,
    {
        hard.push(ranked[i]);
        proof {
            assert(ranked@.take(i + 1) =~= ranked@.take(i as int).push(ranked@[i as int]));
        }
        i += 1;
    }
    proof {
        assert(ranked@.take(ranked@.len() as int) =~= ranked@);
    }
    let all = concat(&draw.ids, &hard);
    without(&all, excluded)
}

/// The negatives of an account are what was drawn and the best of the ranked pool,
/// in this order, but for the account's own favourites: each other post stays as
/// often as it was drawn or mined.
pub proof fn law_negatives_are_the_drawn_and_the_mined(
    drawn: Seq<i64>,
    n_hard: int,
    ranked: Seq<i64>,
    excluded: Seq<i64>,
    id: i64,
)
    requires
        0 <= n_hard <= ranked.len(),
    ensures
        tally::times(final_negatives(drawn, n_hard, ranked, excluded), id) == (if excluded.contains(
            id,
        ) {
            0
        } else {
            tally::times(drawn, id) + tally::times(ranked.take(n_hard), id)
        }),
        final_negatives(drawn, ranked.len() as int, ranked, excluded) == final_negatives(
            drawn + ranked,
            0,
            ranked,
            excluded,
        ),
{
    let keep = |x: i64| !excluded.contains(x);
    let mined = head(ranked, n_hard);
    assert(mined =~= ranked.take(n_hard));
    tally::lemma_times_filter(drawn + mined, keep, id);
    tally::lemma_times_concat(drawn, mined, id);
    assert(head(ranked, ranked.len() as int) =~= ranked);
    assert(drawn + ranked + head(ranked, 0) =~= drawn + ranked) by {
        if ranked.len() == 0 {
            assert(head(ranked, 0) =~= Seq::<i64>::empty());
        }
    }
}

/// `s` without the ids of `gone`.
fn without(s: &Vec<i64>, gone: &Vec<i64>) -> (r: Vec<i64>)
    ensures
        r@ == s@.filter(|id: i64| !gone@.contains(id)),
{
    broadcast use vstd::std_specs::hash::group_hash_axioms;

    let mut set: HashSet<i64> = HashSet::new();
    let mut i: usize = 0;
    proof {
        assert(gone@.take(0).to_set() =~= Set::<i64>::empty());
    }
    while i < gone.len()
        invariant
            i <= gone.len(),
            set@ == gone@.take(i as int).to_set(),
        decreases gone.len() - i,
    {
        broadcast use vstd::std_specs::hash::group_hash_axioms;

        set.insert(gone[i]);
        proof {
            let a = gone@.take(i as int);
            let b = gone@.take(i + 1);
            assert(b =~= a.push(gone@[i as int]));
            assert forall|x: i64| b.to_set().contains(x) <==> a.to_set().insert(
                gone@[i as int],
            ).contains(x) by {
                if a.contains(x) {
                    let k = choose|k: int| 0 <= k < a.len() && a[k] == x;
                    assert(b[k] == x);
                }
                if b.contains(x) {
                    let k = choose|k: int| 0 <= k < b.len() && b[k] == x;
                    if k < a.len() {
                        assert(a[k] == x);
                    }
                }
                assert(b[i as int] == gone@[i as int]);
            }
            assert(b.to_set() =~= a.to_set().insert(gone@[i as int]));
        }
        i += 1;
    }
    proof {
        assert(gone@.take(gone@.len() as int) =~= gone@);
        reveal(Seq::filter);
        assert(s@.take(0) =~= Seq::<i64>::empty());
    }
    let ghost keep = |id: i64| !gone@.contains(id);
    let mut out: Vec<i64> = Vec::new();
    let mut j: usize = 0;
    while j < s.len()
        invariant
            j <= s.len(),
            set@ == gone@.to_set(),
            keep == (|id: i64| !gone@.contains(id)),
            out@ == s@.take(j as int).filter(keep),
        decreases s.len() - j,
    {
        broadcast use vstd::std_specs::hash::group_hash_axioms;

        proof {
            reveal(Seq::filter);
            assert(s@.take(j + 1).drop_last() =~= s@.take(j as int));
            assert(s@.take(j + 1).last() == s@[j as int]);
        }
        if !set.contains(&s[j]) {
            out.push(s[j]);
        }
        j += 1;
    }
    proof {
        assert(s@.take(s@.len() as int) =~= s@);
    }
    out
}

/// No favourite of an account, trained on or held out, is one of its negatives;
/// and what is drawn once is a negative once.
pub proof fn law_negatives_are_clean(
    drawn: Seq<i64>,
    pool: Seq<i64>,
    n_hard: int,
    ranked: Seq<i64>,
    excluded: Seq<i64>,
)
    requires
        n_hard >= 0,
        drawn.no_duplicates(),
        ranked.no_duplicates(),
        forall|i: int| 0 <= i < ranked.len() ==> pool.contains(#[trigger] ranked[i]),
        forall|i: int| 0 <= i < drawn.len() ==> !pool.contains(#[trigger] drawn[i]),
    ensures
        final_negatives(drawn, n_hard, ranked, excluded).no_duplicates(),
        forall|i: int|
            0 <= i < final_negatives(drawn, n_hard, ranked, excluded).len() ==> !excluded.contains(
                #[trigger] final_negatives(drawn, n_hard, ranked, excluded)[i],
            ),
        final_negatives(drawn, n_hard, ranked, excluded).len() <= drawn.len() + n_hard,
{
    let all = drawn + head(ranked, n_hard);
    let keep = |id: i64| !excluded.contains(id);
    assert forall|i: int, j: int| 0 <= i < all.len() && 0 <= j < all.len() && i
        != j implies all[i] != all[j] by {
        if i < drawn.len() && j >= drawn.len() {
            assert(all[j] == ranked[j - drawn.len()]);
            assert(!pool.contains(drawn[i]));
        }
        if j < drawn.len() && i >= drawn.len() {
            assert(all[i] == ranked[i - drawn.len()]);
            assert(!pool.contains(drawn[j]));
        }
        if i >= drawn.len() && j >= drawn.len() {
            assert(all[i] == ranked[i - drawn.len()]);
            assert(all[j] == ranked[j - drawn.len()]);
        }
    }
    lemma_filter_distinct(all, keep);
    all.lemma_filter_len(keep);
    assert forall|i: int| 0 <= i < all.filter(keep).len() implies !excluded.contains(
        #[trigger] all.filter(keep)[i],
    ) by {
        all.lemma_filter_pred(keep, i);
    }
}

proof fn lemma_filter_distinct(s: Seq<i64>, keep: spec_fn(i64) -> bool)
    requires
        s.no_duplicates(),
    ensures
        s.filter(keep).no_duplicates(),
        forall|i: int| 0 <= i < s.filter(keep).len() ==> s.contains(#[trigger] s.filter(keep)[i]),
    decreases s.len(),
{
    reveal(Seq::filter);
    if s.len() > 0 {
        let d = s.drop_last();
        lemma_filter_distinct(d, keep);
        assert forall|i: int| 0 <= i < s.filter(keep).len() implies s.contains(
            #[trigger] s.filter(keep)[i],
        ) by {
            if i < d.filter(keep).len() {
                assert(d.contains(d.filter(keep)[i]));
                let k = choose|k: int| 0 <= k < d.len() && d[k] == d.filter(keep)[i];
                assert(s[k] == s.filter(keep)[i]);
            } else {
                assert(s[s.len() - 1] == s.filter(keep)[i]);
            }
        }
        assert forall|i: int| 0 <= i < d.filter(keep).len() implies d.filter(keep)[i]
            != s.last() by {
            assert(d.contains(d.filter(keep)[i]));
            let k = choose|k: int| 0 <= k < d.len() && d[k] == d.filter(keep)[i];
            assert(s[k] != s[s.len() - 1]);
        }
    }
}

// ---------------------------------------------------------------------------
// What an account is trained on
// ---------------------------------------------------------------------------

/// A tag name, in lower case, within its group.
pub struct TagKey {
    pub name: String,
    pub group: TagGroup,
}

impl CacheKey for TagKey {
    type Id = (Seq<char>, TagGroup);

    open spec fn id(&self) -> (Seq<char>, TagGroup) {
        (self.name@, self.group)
    }

    fn same(&self, other: &Self) -> (b: bool) {
        self.group == other.group && text_eq(self.name.as_str(), other.name.as_str())
    }
}

/// The tags of one group, as they are counted.
pub open spec fn group_keys(names: Seq<String>, g: TagGroup) -> Seq<(Seq<char>, TagGroup)> {
    names.map_values(|s: String| (text::ascii_lowered(s@), g))
}

/// The tags of a post, as they are counted.
pub open spec fn post_keys(p: Post) -> Seq<(Seq<char>, TagGroup)> {
    group_keys(p.tags.artist@, TagGroup::Artist) + group_keys(
        p.tags.character@,
        TagGroup::Character,
    ) + group_keys(p.tags.copyright@, TagGroup::Copyright) + group_keys(
        p.tags.general@,
        TagGroup::General,
    ) + group_keys(p.tags.lore@, TagGroup::Lore) + group_keys(p.tags.species@, TagGroup::Species)
        + group_keys(p.tags.meta@, TagGroup::Meta)
}

/// The tags of some posts, as they are counted.
pub open spec fn all_keys(posts: Seq<Post>) -> Seq<(Seq<char>, TagGroup)>
    decreases posts.len(),
{
    if posts.len() == 0 {
        Seq::empty()
    } else {
        all_keys(posts.drop_last()) + post_keys(posts.last())
    }
}

/// The names of some tags, in lower case.
pub open spec fn lowered_names(names: Seq<String>) -> Seq<Seq<char>> {
    names.map_values(|s: String| text::ascii_lowered(s@))
}

proof fn lemma_group_times(names: Seq<String>, g: TagGroup, name: Seq<char>, h: TagGroup)
    ensures
        tally::times(group_keys(names, g), (name, h)) == (if g == h {
            tally::times(lowered_names(names), name)
        } else {
            0
        }),
    decreases names.len(),
{
    if names.len() > 0 {
        lemma_group_times(names.drop_last(), g, name, h);
        assert(group_keys(names, g).drop_last() =~= group_keys(names.drop_last(), g));
        assert(lowered_names(names).drop_last() =~= lowered_names(names.drop_last()));
    }
}

/// A post counts for a tag as often as its tags of that very group have the name,
/// in lower case.
pub proof fn law_post_counts_by_group(p: Post, name: Seq<char>, g: TagGroup)
    ensures
        tally::times(post_keys(p), (name, g)) == tally::times(
            lowered_names(p.tags.group(g)),
            name,
        ),
{
    let key = (name, g);
    let a = group_keys(p.tags.artist@, TagGroup::Artist);
    let b = group_keys(p.tags.character@, TagGroup::Character);
    let c = group_keys(p.tags.copyright@, TagGroup::Copyright);
    let d = group_keys(p.tags.general@, TagGroup::General);
    let e = group_keys(p.tags.lore@, TagGroup::Lore);
    let f = group_keys(p.tags.species@, TagGroup::Species);
    let m = group_keys(p.tags.meta@, TagGroup::Meta);
    tally::lemma_times_concat(a, b, key);
    tally::lemma_times_concat(a + b, c, key);
    tally::lemma_times_concat(a + b + c, d, key);
    tally::lemma_times_concat(a + b + c + d, e, key);
    tally::lemma_times_concat(a + b + c + d + e, f, key);
    tally::lemma_times_concat(a + b + c + d + e + f, m, key);
    lemma_group_times(p.tags.artist@, TagGroup::Artist, name, g);
    lemma_group_times(p.tags.character@, TagGroup::Character, name, g);
    lemma_group_times(p.tags.copyright@, TagGroup::Copyright, name, g);
    lemma_group_times(p.tags.general@, TagGroup::General, name, g);
    lemma_group_times(p.tags.lore@, TagGroup::Lore, name, g);
    lemma_group_times(p.tags.species@, TagGroup::Species, name, g);
    lemma_group_times(p.tags.meta@, TagGroup::Meta, name, g);
}

/// One post more counts for each tag as often as the post carries it.
pub proof fn law_counts_add_up(posts: Seq<Post>, p: Post, name: Seq<char>, g: TagGroup)
    ensures
        tally::times(all_keys(posts.push(p)), (name, g)) == tally::times(all_keys(posts), (name, g))
            + tally::times(lowered_names(p.tags.group(g)), name),
        all_keys(Seq::<Post>::empty()).len() == 0,
{
    assert(posts.push(p).drop_last() =~= posts);
    tally::lemma_times_concat(all_keys(posts), post_keys(p), (name, g));
    law_post_counts_by_group(p, name, g);
}

/// A counted tag.
pub open spec fn is_counted(t: TagCount, keys: Seq<(Seq<char>, TagGroup)>) -> bool {
    &&& models::group_named(t.group_type@) is Some
    &&& t.count > 0
    &&& t.count == tally::times(keys, (t.name@, models::group_named(t.group_type@)->0))
}

pub open spec fn has_tag(r: Seq<TagCount>, key: (Seq<char>, TagGroup)) -> bool {
    exists|i: int|
        0 <= i < r.len() && (#[trigger] r[i]).name@ == key.0 && r[i].group_type@ == key.1.name()
}

/// `r` counts each tag once, as often as it occurs.
pub open spec fn are_tag_counts(r: Seq<TagCount>, keys: Seq<(Seq<char>, TagGroup)>) -> bool {
    &&& forall|i: int| 0 <= i < r.len() ==> is_counted(#[trigger] r[i], keys)
    &&& forall|i: int, j: int|
        0 <= i < j < r.len() ==> (#[trigger] r[i]).name@ != (#[trigger] r[j]).name@
            || r[i].group_type@ != r[j].group_type@
    &&& forall|key: (Seq<char>, TagGroup)| #[trigger] keys.contains(key) ==> has_tag(r, key)
}

fn count_group(t: &mut Tally<TagKey>, names: &Vec<String>, g: TagGroup, Ghost(done): Ghost<
    Seq<(Seq<char>, TagGroup)>,
>)
    requires
        old(t).counts(done),
        done.len() + names@.len() <= i64::MAX,
    ensures
        final(t).counts(done + group_keys(names@, g)),
{
    let mut i: usize = 0;
    proof {
        assert(done + group_keys(names@.take(0), g) =~= done);
    }
    while i < names.len()
        invariant
            i <= names.len(),
            done.len() + names@.len() <= i64::MAX,
            t.counts(done + group_keys(names@.take(i as int), g)),
        decreases names.len() - i,
    {
        let key = TagKey { name: ascii_lowercase(names[i].as_str()), group: g };
        let ghost id = key.id();
        let ghost a = done + group_keys(names@.take(i as int), g);
        let ghost b = done + group_keys(names@.take(i + 1), g);
        let ghost before = *t;
        proof {
            assert(b =~= a.push(id));
            assert(b.drop_last() =~= a);
            tally::lemma_times_bounds(a, id);
            assert(t.count(id) == tally::times(a, id));
        }
        t.bump(key);
        proof {
            assert forall|x: (Seq<char>, TagGroup)| #[trigger] t.count(x) == tally::times(b, x) by {
                assert(before.count(x) == tally::times(a, x));
            }
        }
        i += 1;
    }
    proof {
        assert(names@.take(names@.len() as int) =~= names@);
    }
}

fn count_post(t: &mut Tally<TagKey>, p: &Post, Ghost(done): Ghost<Seq<(Seq<char>, TagGroup)>>)
    requires
        old(t).counts(done),
        done.len() + post_keys(*p).len() <= i64::MAX,
    ensures
        final(t).counts(done + post_keys(*p)),
{
    let ghost k1 = done + group_keys(p.tags.artist@, TagGroup::Artist);
    let ghost k2 = k1 + group_keys(p.tags.character@, TagGroup::Character);
    let ghost k3 = k2 + group_keys(p.tags.copyright@, TagGroup::Copyright);
    let ghost k4 = k3 + group_keys(p.tags.general@, TagGroup::General);
    let ghost k5 = k4 + group_keys(p.tags.lore@, TagGroup::Lore);
    let ghost k6 = k5 + group_keys(p.tags.species@, TagGroup::Species);
    let ghost k7 = k6 + group_keys(p.tags.meta@, TagGroup::Meta);
    proof {
        assert(k7 =~= done + post_keys(*p));
    }
    count_group(t, &p.tags.artist, TagGroup::Artist, Ghost(done));
    count_group(t, &p.tags.character, TagGroup::Character, Ghost(k1));
    count_group(t, &p.tags.copyright, TagGroup::Copyright, Ghost(k2));
    count_group(t, &p.tags.general, TagGroup::General, Ghost(k3));
    count_group(t, &p.tags.lore, TagGroup::Lore, Ghost(k4));
    count_group(t, &p.tags.species, TagGroup::Species, Ghost(k5));
    count_group(t, &p.tags.meta, TagGroup::Meta, Ghost(k6));
}

/// How often each tag occurs in some posts, by group and in lower case.
pub fn build_tag_counts(posts: &Vec<Post>) -> (r: Vec<TagCount>)
    requires
        all_keys(posts@).len() <= i64::MAX,
    ensures
        are_tag_counts(r@, all_keys(posts@)),
{
    let mut t: Tally<TagKey> = Tally::new();
    let mut i: usize = 0;
    proof {
        assert(posts@.take(0) =~= Seq::<Post>::empty());
    }
    while i < posts.len()
        invariant
            i <= posts.len(),
            all_keys(posts@).len() <= i64::MAX,
            t.counts(all_keys(posts@.take(i as int))),
        decreases posts.len() - i,
    {
        proof {
            assert(posts@.take(i + 1).drop_last() =~= posts@.take(i as int));
            lemma_keys_grow(posts@, i + 1);
        }
        count_post(&mut t, &posts[i], Ghost(all_keys(posts@.take(i as int))));
        i += 1;
    }
    proof {
        assert(posts@.take(posts@.len() as int) =~= posts@);
        tally::lemma_entries(t, all_keys(posts@));
    }
    let ghost keys = all_keys(posts@);
    let entries = t.entries;
    let mut out: Vec<TagCount> = Vec::new();
    let mut j: usize = 0;
    while j < entries.len()
        invariant
            j <= entries.len(),
            tally::distinct_entries(entries@),
            forall|k: int|
                0 <= k < entries@.len() ==> (#[trigger] entries@[k]).count == tally::times(
                    keys,
                    entries@[k].key.id(),
                ),
            out@.len() == j,
            forall|k: int|
                0 <= k < j ==> (#[trigger] out@[k]).name@ == entries@[k].key.name@
                    && out@[k].group_type@ == entries@[k].key.group.name() && out@[k].count
                    == entries@[k].count && is_counted(out@[k], keys),
        decreases entries.len() - j,
    {
        let e = &entries[j];
        let one = TagCount {
            name: e.key.name.clone(),
            group_type: String::from_str(e.key.group.label()),
            count: e.count,
        };
        proof {
            models::law_group_round_trip(e.key.group);
        }
        out.push(one);
        j += 1;
    }
    proof {
        assert forall|a: int, b: int| 0 <= a < b < out@.len() implies (#[trigger] out@[a]).name@
            != (#[trigger] out@[b]).name@ || out@[a].group_type@ != out@[b].group_type@ by {
            assert(entries@[a].key.id() != entries@[b].key.id());
            models::law_group_round_trip(entries@[a].key.group);
            models::law_group_round_trip(entries@[b].key.group);
        }
        assert forall|key: (Seq<char>, TagGroup)| #[trigger] keys.contains(key) implies has_tag(
            out@,
            key,
        ) by {
            tally::lemma_times_bounds(keys, key);
            assert(tally::times(keys, key) > 0);
            let k = choose|k: int|
                0 <= k < entries@.len() && (#[trigger] entries@[k]).key.id() == key;
            assert(out@[k].name@ == key.0);
        }
    }
    out
}

proof fn lemma_keys_grow(posts: Seq<Post>, n: int)
    requires
        0 <= n <= posts.len(),
    ensures
        all_keys(posts.take(n)).len() <= all_keys(posts).len(),
    decreases posts.len() - n,
{
    if n < posts.len() {
        lemma_keys_grow(posts, n + 1);
        assert(posts.take(n + 1).drop_last() =~= posts.take(n));
    } else {
        assert(posts.take(n) =~= posts);
    }
}

/// How often the ratings and the media types of some posts occur.
pub struct ProfileCounts {
    pub rating: Vec<LabelCount>,
    pub media: Vec<LabelCount>,
}

/// The ratings of some posts.
pub open spec fn rating_labels(posts: Seq<Post>) -> Seq<Seq<char>> {
    posts.map_values(|p: Post| p.rating.name())
}

/// The counted side of a synthetic profile: how often each rating and each media
/// type occurs among the posts that an account is trained on.
pub fn build_profile(posts: &Vec<Post>, media_types: &Vec<String>) -> (r: ProfileCounts)
    requires
        posts.len() <= i64::MAX,
        media_types.len() <= i64::MAX,
    ensures
        tally::are_label_counts(r.rating@, rating_labels(posts@)),
        tally::are_label_counts(r.media@, text::views(media_types@)),
{
    let mut labels: Vec<String> = Vec::new();
    let mut i: usize = 0;
    proof {
        assert(text::views(labels@) =~= rating_labels(posts@.take(0)));
    }
    while i < posts.len()
        invariant
            i <= posts.len(),
            labels@.len() == i,
            text::views(labels@) == rating_labels(posts@.take(i as int)),
        decreases posts.len() - i,
    {
        let ghost before = labels@;
        labels.push(String::from_str(posts[i].rating.label()));
        proof {
            let p = posts@[i as int];
            assert(posts@.take(i + 1) =~= posts@.take(i as int).push(p));
            assert(rating_labels(posts@.take(i + 1)) =~= rating_labels(posts@.take(i as int)).push(
                p.rating.name(),
            ));
            assert(text::views(labels@) =~= text::views(before).push(p.rating.name()));
        }
        i += 1;
    }
    proof {
        assert(posts@.take(posts@.len() as int) =~= posts@);
    }
    ProfileCounts { rating: count_labels(&labels), media: count_labels(media_types) }
}

/// The tags that a relation graph is asked for: those among `tids` that it knows.
pub fn query_set(tids: &Vec<Option<u32>>) -> (r: HashSet<u32>)
    ensures
        forall|x: u32| #[trigger] r@.contains(x) <==> tids@.contains(Some(x)),
{
    broadcast use vstd::std_specs::hash::group_hash_axioms;

    let mut out: HashSet<u32> = HashSet::new();
    let mut i: usize = 0;
    proof {
        assert(tids@.take(0) =~= Seq::<Option<u32>>::empty());
    }
    while i < tids.len()
        invariant
            i <= tids.len(),
            forall|x: u32| #[trigger] out@.contains(x) <==> tids@.take(i as int).contains(Some(x)),
        decreases tids.len() - i,
    {
        broadcast use vstd::std_specs::hash::group_hash_axioms;

        let ghost before = out@;
        let ghost cur = tids@.take(i as int);
        let ghost nxt = tids@.take(i + 1);
        match tids[i] {
            Some(t) => {
                out.insert(t);
            },
            None => {},
        }
        proof {
            assert(nxt =~= cur.push(tids@[i as int]));
            assert forall|x: u32| #[trigger] out@.contains(x) <==> nxt.contains(Some(x)) by {
                assert(before.contains(x) <==> cur.contains(Some(x)));
                if cur.contains(Some(x)) {
                    let k = choose|k: int| 0 <= k < cur.len() && cur[k] == Some(x);
                    assert(nxt[k] == Some(x));
                }
                if nxt.contains(Some(x)) {
                    let k = choose|k: int| 0 <= k < nxt.len() && nxt[k] == Some(x);
                    if k < i {
                        assert(cur[k] == Some(x));
                    }
                }
                assert(nxt[i as int] == tids@[i as int]);
            }
        }
        i += 1;
    }
    proof {
        assert(tids@.take(tids@.len() as int) =~= tids@);
    }
    out
}

// ---------------------------------------------------------------------------
// Reports
// ---------------------------------------------------------------------------

/// The line that opens the preparation.
pub open spec fn prep_text(o: GridOptions, max_accounts: int, min_favs: int, ratio: int) -> Seq<
    char,
> {
    "[prep] split="@ + o.split.name() + ", neg="@ + o.neg_mode.name() + ", diversify="@ + (
    if o.diversify {
        "true"@
    } else {
        "false"@
    }) + ", max_accounts="@ + text::dec(max_accounts) + ", min_favs="@ + text::dec(min_favs)
        + ", neg_ratio="@ + text::dec(ratio)
}

pub fn prep_line(o: &GridOptions, max_accounts: usize, min_favs: usize, negative_ratio: usize) -> (r:
    String)
    ensures
        r@ == prep_text(*o, max_accounts as int, min_favs as int, negative_ratio as int),
{
    let mut s = String::from_str("[prep] split=");
    s.append(o.split.label());
    s.append(", neg=");
    s.append(o.neg_mode.label());
    s.append(", diversify=");
    if o.diversify {
        s.append("true");
    } else {
        s.append("false");
    }
    s.append(", max_accounts=");
    s.append(dec_usize(max_accounts).as_str());
    s.append(", min_favs=");
    s.append(dec_usize(min_favs).as_str());
    s.append(", neg_ratio=");
    s.append(dec_usize(negative_ratio).as_str());
    s
}

/// A row of the catalog keeps its id, its favourite count where that is a count of
/// thirty-two bits, and the second of its creation; a time that cannot be read
/// counts as zero.
pub proof fn law_catalog_rows(rows: Seq<CatalogRow>, i: int)
    requires
        0 <= i < rows.len(),
    ensures
        row_ids(rows).len() == rows.len() && row_ids(rows)[i] == rows[i].id,
        i32::MIN <= rows[i].fav_count <= i32::MAX ==> row_favs(rows)[i] == rows[i].fav_count,
        clock::rfc3339_instant(rows[i].created_at@) is Ok ==> row_epochs(rows)[i]
            == clock::rfc3339_instant(rows[i].created_at@)->Ok_0.0,
        clock::rfc3339_instant(rows[i].created_at@) is Err ==> row_epochs(rows)[i] == 0,
{
}

/// A favourite keeps its id and the second it was posted; a time that cannot be
/// read counts as zero.
pub proof fn law_timed_favorites(rows: Seq<FavoriteRow>, i: int)
    requires
        0 <= i < rows.len(),
    ensures
        timed_favorites(rows).len() == rows.len(),
        timed_favorites(rows)[i].0 == rows[i].id,
        clock::rfc3339_instant(rows[i].created_at@) is Ok ==> timed_favorites(rows)[i].1
            == clock::rfc3339_instant(rows[i].created_at@)->Ok_0.0,
        clock::rfc3339_instant(rows[i].created_at@) is Err ==> timed_favorites(rows)[i].1 == 0,
{
}

/// The line names the settings of the preparation, in this order: the split, the
/// negatives, whether it diversifies, the accounts, the favourites and the ratio.
pub proof fn law_prep_line(o: GridOptions, max_accounts: int, min_favs: int, ratio: int)
    ensures
        prep_text(o, max_accounts, min_favs, ratio) == "[prep] "@ + text::joined(
            seq![
                "split="@ + o.split.name(),
                "neg="@ + o.neg_mode.name(),
                "diversify="@ + (if o.diversify {
                    "true"@
                } else {
                    "false"@
                }),
                "max_accounts="@ + text::dec(max_accounts),
                "min_favs="@ + text::dec(min_favs),
                "neg_ratio="@ + text::dec(ratio),
            ],
            ", "@,
        ),
{
    let flag = if o.diversify {
        "true"@
    } else {
        "false"@
    };
    let p = seq![
        "split="@ + o.split.name(),
        "neg="@ + o.neg_mode.name(),
        "diversify="@ + flag,
        "max_accounts="@ + text::dec(max_accounts),
        "min_favs="@ + text::dec(min_favs),
        "neg_ratio="@ + text::dec(ratio),
    ];
    assert(p.take(1) =~= seq![p[0]]);
    assert(p.take(6) =~= p);
    assert("[prep] split="@ == "[prep] "@ + "split="@) by {
        reveal_strlit("[prep] ");
        reveal_strlit("split=");
        reveal_strlit("[prep] split=");
    }
    assert(", neg="@ == ", "@ + "neg="@) by {
        reveal_strlit(", ");
        reveal_strlit("neg=");
        reveal_strlit(", neg=");
    }
    assert(", diversify="@ == ", "@ + "diversify="@) by {
        reveal_strlit(", ");
        reveal_strlit("diversify=");
        reveal_strlit(", diversify=");
    }
    assert(", max_accounts="@ == ", "@ + "max_accounts="@) by {
        reveal_strlit(", ");
        reveal_strlit("max_accounts=");
        reveal_strlit(", max_accounts=");
    }
    assert(", min_favs="@ == ", "@ + "min_favs="@) by {
        reveal_strlit(", ");
        reveal_strlit("min_favs=");
        reveal_strlit(", min_favs=");
    }
    assert(", neg_ratio="@ == ", "@ + "neg_ratio="@) by {
        reveal_strlit(", ");
        reveal_strlit("neg_ratio=");
        reveal_strlit(", neg_ratio=");
    }
    let head = "[prep] "@;
    assert("[prep] split="@ + o.split.name() =~= head + p[0]);
    text::lemma_joined_take(p, ", "@, 1);
    text::lemma_joined_part(head, text::joined(p.take(1), ", "@), ", "@, "neg="@, ", neg="@, o.neg_mode.name());
    text::lemma_joined_take(p, ", "@, 2);
    text::lemma_joined_part(head, text::joined(p.take(2), ", "@), ", "@, "diversify="@, ", diversify="@, flag);
    text::lemma_joined_take(p, ", "@, 3);
    text::lemma_joined_part(head, text::joined(p.take(3), ", "@), ", "@, "max_accounts="@, ", max_accounts="@, text::dec(max_accounts));
    text::lemma_joined_take(p, ", "@, 4);
    text::lemma_joined_part(head, text::joined(p.take(4), ", "@), ", "@, "min_favs="@, ", min_favs="@, text::dec(min_favs));
    text::lemma_joined_take(p, ", "@, 5);
    text::lemma_joined_part(head, text::joined(p.take(5), ", "@), ", "@, "neg_ratio="@, ", neg_ratio="@, text::dec(ratio));
}

/// The counted ratings of some posts are those of the posts, in order.
pub proof fn law_rating_labels(posts: Seq<Post>, i: int)
    requires
        0 <= i < posts.len(),
    ensures
        rating_labels(posts).len() == posts.len(),
        models::rating_named(rating_labels(posts)[i]) == Some(posts[i].rating),
{
    models::law_rating_round_trip(posts[i].rating);
}

} // verus!
