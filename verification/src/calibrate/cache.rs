//! Which scoring channels a probe invalidates, and how cached channel scores
//! are carried over.

use vstd::prelude::*;

use crate::order;
use crate::order::sort_ints;

verus! {

pub const M_SIM: u16 = 1;

pub const M_QUALITY: u16 = 2;

pub const M_RECENCY: u16 = 4;

pub const M_RATING: u16 = 8;

pub const M_MEDIA: u16 = 16;

pub const M_POPULARITY: u16 = 32;

pub const M_INTERACTION: u16 = 64;

pub const M_TAG_RELATION: u16 = 128;

/// The probe touched only the final blend.
pub const M_NONE: u16 = 0;

/// Every channel is rebuilt.
pub const M_ALL: u16 = 255;

/// Channels that read the personal confidence.
pub const M_CONFIDENCE_DERIVED: u16 = 156;

/// Channels that read the discrete smoothing.
pub const M_DISCRETE: u16 = 24;

/// Channels that read the one-sided ratio exponent.
pub const M_RATIO_EXP: u16 = 34;

/// Channels that read the per-group weights.
pub const M_GROUP_W: u16 = 193;

/// The score of one post on every channel, and the interaction veto.
#[derive(Clone, Copy, Debug, PartialEq, Eq, Structural)]
pub struct ChannelScores {
    pub sim: u32,
    pub quality: u32,
    pub recency: u32,
    pub rating: u32,
    pub media: u32,
    pub popularity: u32,
    pub interaction: u32,
    pub tag_relation: u32,
    pub veto: bool,
}

/// `mask` names the channel `bit`.
pub open spec fn invalidates(mask: u16, bit: u16) -> bool {
    mask & bit != 0
}

/// Each channel that `mask` names from `fresh`, the others from `prev`. The veto
/// belongs to the interaction channel.
pub open spec fn merged_channels(
    prev: ChannelScores,
    fresh: ChannelScores,
    mask: u16,
) -> ChannelScores {
    ChannelScores {
        sim: if invalidates(mask, M_SIM) { fresh.sim } else { prev.sim },
        quality: if invalidates(mask, M_QUALITY) { fresh.quality } else { prev.quality },
        recency: if invalidates(mask, M_RECENCY) { fresh.recency } else { prev.recency },
        rating: if invalidates(mask, M_RATING) { fresh.rating } else { prev.rating },
        media: if invalidates(mask, M_MEDIA) { fresh.media } else { prev.media },
        popularity: if invalidates(mask, M_POPULARITY) {
            fresh.popularity
        } else {
            prev.popularity
        },
        interaction: if invalidates(mask, M_INTERACTION) {
            fresh.interaction
        } else {
            prev.interaction
        },
        tag_relation: if invalidates(mask, M_TAG_RELATION) {
            fresh.tag_relation
        } else {
            prev.tag_relation
        },
        veto: if invalidates(mask, M_INTERACTION) { fresh.veto } else { prev.veto },
    }
}

/// Carries cached channel scores over to the next probe. Scores travel as the
/// bit patterns of their floating-point values; `fresh` is read only on the
/// channels that `mask` names.
pub fn recompute_one_post(prev: ChannelScores, fresh: ChannelScores, mask: u16) -> (r: ChannelScores)
    ensures
        r == merged_channels(prev, fresh, mask),
{
    let mut next = prev;
    if mask & M_SIM != 0 {
        next.sim = fresh.sim;
    }
    if mask & M_QUALITY != 0 {
        next.quality = fresh.quality;
    }
    if mask & M_POPULARITY != 0 {
        next.popularity = fresh.popularity;
    }
    if mask & M_RATING != 0 {
        next.rating = fresh.rating;
    }
    if mask & M_MEDIA != 0 {
        next.media = fresh.media;
    }
    if mask & M_INTERACTION != 0 {
        next.interaction = fresh.interaction;
        next.veto = fresh.veto;
    }
    if mask & M_TAG_RELATION != 0 {
        next.tag_relation = fresh.tag_relation;
    }
    if mask & M_RECENCY != 0 {
        next.recency = fresh.recency;
    }
    next
}

/// A full mask takes every channel anew.
pub proof fn law_full_mask(prev: ChannelScores, fresh: ChannelScores)
    ensures
        merged_channels(prev, fresh, M_ALL) == fresh,
{
    assert(255u16 & 1 != 0 && 255u16 & 2 != 0 && 255u16 & 4 != 0 && 255u16 & 8 != 0 && 255u16 & 16
        != 0 && 255u16 & 32 != 0 && 255u16 & 64 != 0 && 255u16 & 128 != 0) by (bit_vector);
}

/// An empty mask keeps every cached channel.
pub proof fn law_empty_mask(prev: ChannelScores, fresh: ChannelScores)
    ensures
        merged_channels(prev, fresh, M_NONE) == prev,
{
    assert(forall|b: u16| 0u16 & b == 0) by (bit_vector);
}

/// Two probes in turn are one probe with the union of their masks.
pub proof fn law_mask_union(prev: ChannelScores, fresh: ChannelScores, a: u16, b: u16)
    ensures
        merged_channels(merged_channels(prev, fresh, a), fresh, b) == merged_channels(
            prev,
            fresh,
            a | b,
        ),
{
    assert(forall|bit: u16| ((a | b) & bit != 0) == (a & bit != 0 || b & bit != 0)) by (bit_vector);
}

/// A cache that is right on every channel outside the mask carries over to the
/// scores that a full rebuild would give.
pub proof fn law_cache_is_exact(prev: ChannelScores, fresh: ChannelScores, mask: u16)
    requires
        merged_channels(fresh, prev, mask) == prev,
    ensures
        merged_channels(prev, fresh, mask) == fresh,
{
}

/// The mask that a scoring run uses: everything is rebuilt without a cache.
pub fn effective_mask(has_cache: bool, mask: u16) -> (r: u16)
    ensures
        r == if has_cache {
            mask
        } else {
            M_ALL
        },
{
    if has_cache {
        mask
    } else {
        M_ALL
    }
}

/// No score on any channel.
pub open spec fn no_scores() -> ChannelScores {
    ChannelScores {
        sim: 0,
        quality: 0,
        recency: 0,
        rating: 0,
        media: 0,
        popularity: 0,
        interaction: 0,
        tag_relation: 0,
        veto: false,
    }
}

/// The channel scores of one account after a probe. Without a cache every
/// channel is taken anew.
pub open spec fn carried(
    prev: Option<Seq<ChannelScores>>,
    fresh: Seq<ChannelScores>,
    mask: u16,
) -> Seq<ChannelScores> {
    match prev {
        Some(p) => Seq::new(fresh.len(), |i: int| merged_channels(p[i], fresh[i], mask)),
        None => fresh,
    }
}

/// Carries the cache of one account over to the next probe: its posts are the
/// test posts, then the negatives, in both lists.
pub fn carry_channels(
    prev: Option<&Vec<ChannelScores>>,
    fresh: &Vec<ChannelScores>,
    mask: u16,
) -> (r: Vec<ChannelScores>)
    requires
        prev matches Some(p) ==> p.len() == fresh.len(),
    ensures
        r@ == carried(
            match prev {
                Some(p) => Some(p@),
                None => None,
            },
            fresh@,
            mask,
        ),
{
    let effective: u16 = effective_mask(prev.is_some(), mask);
    let mut out: Vec<ChannelScores> = Vec::new();
    let mut i: usize = 0;
    while i < fresh.len()
        invariant
            i <= fresh.len(),
            out@.len() == i,
            prev matches Some(p) ==> p.len() == fresh.len(),
            effective == (if prev is Some {
                mask
            } else {
                M_ALL
            }),
            forall|k: int|
                0 <= k < i ==> #[trigger] out@[k] == merged_channels(
                    match prev {
                        Some(p) => p@[k],
                        None => no_scores(),
                    },
                    fresh@[k],
                    effective,
                ),
        decreases fresh.len() - i,
    {
        let before: ChannelScores = match prev {
            Some(p) => p[i],
            None => ChannelScores {
                sim: 0,
                quality: 0,
                recency: 0,
                rating: 0,
                media: 0,
                popularity: 0,
                interaction: 0,
                tag_relation: 0,
                veto: false,
            },
        };
        out.push(recompute_one_post(before, fresh[i], effective));
        i += 1;
    }
    proof {
        assert forall|k: int| 0 <= k < out@.len() implies #[trigger] out@[k] == carried(
            match prev {
                Some(p) => Some(p@),
                None => None,
            },
            fresh@,
            mask,
        )[k] by {
            if prev is None {
                law_full_mask(no_scores(), fresh@[k]);
            }
        }
    }
    out
}

/// How many top posts the diversifier reorders: twice the larger cutoff, at
/// least fifty.
pub open spec fn head_limit(top_k_ndcg: int, top_k_recall: int) -> int {
    let k = if top_k_ndcg > top_k_recall {
        top_k_ndcg
    } else {
        top_k_recall
    };
    let doubled = if 2 * k > usize::MAX {
        usize::MAX as int
    } else {
        2 * k
    };
    if doubled > 50 {
        doubled
    } else {
        50
    }
}

pub fn diversify_head_limit(top_k_ndcg: usize, top_k_recall: usize) -> (r: usize)
    ensures
        r == head_limit(top_k_ndcg as int, top_k_recall as int),
{
    let k: usize = if top_k_ndcg > top_k_recall {
        top_k_ndcg
    } else {
        top_k_recall
    };
    let doubled: usize = match k.checked_mul(2) {
        Some(x) => x,
        None => usize::MAX,
    };
    if doubled > 50 {
        doubled
    } else {
        50
    }
}

/// A post taken from the concatenated test and negative lists.
#[derive(Clone, Copy, Debug, PartialEq, Eq, Structural)]
pub struct RankedPost {
    pub id: i64,
    pub is_positive: bool,
}

/// The ranked posts in the given order of entries; the first `n_test` entries
/// are the positives.
pub fn rank_entries(ids: &Vec<i64>, order: &Vec<usize>, n_test: usize) -> (r: Vec<RankedPost>)
    requires
        forall|i: int| 0 <= i < order.len() ==> (#[trigger] order@[i]) < ids.len(),
    ensures
        r@.len() == order@.len(),
        forall|i: int|
            0 <= i < r@.len() ==> #[trigger] r@[i] == (RankedPost {
                id: ids@[order@[i] as int],
                is_positive: order@[i] < n_test,
            }),
{
    let mut r: Vec<RankedPost> = Vec::new();
    let mut i: usize = 0;
    while i < order.len()
        invariant
            i <= order.len(),
            r@.len() == i,
            forall|k: int| 0 <= k < order.len() ==> (#[trigger] order@[k]) < ids.len(),
            forall|k: int|
                0 <= k < i ==> #[trigger] r@[k] == (RankedPost {
                    id: ids@[order@[k] as int],
                    is_positive: order@[k] < n_test,
                }),
        decreases order.len() - i,
    {
        r.push(RankedPost { id: ids[order[i]], is_positive: order[i] < n_test });
        i += 1;
    }
    r
}

/// The bit pattern is that of a number.
pub open spec fn is_number(bits: u32) -> bool {
    bits % 0x8000_0000 <= 0x7f80_0000
}

/// An integer that grows with the single-precision number of a bit pattern; the
/// two zeros share it.
pub open spec fn score_rank(bits: u32) -> int {
    if bits < 0x8000_0000 {
        bits as int
    } else {
        0x8000_0000 - bits
    }
}

/// The keys that put the highest score first.
pub open spec fn score_keys(scores: Seq<u32>) -> Seq<(i64, i64, i64)> {
    scores.map_values(|b: u32| (-score_rank(b) as i64, 0i64, 0i64))
}

/// The ranked posts of one account, the highest score first and equal scores in
/// the order of the entries. Scores are bit patterns of numbers.
pub fn rank_by_score(ids: &Vec<i64>, scores: &Vec<u32>, n_test: usize) -> (r: Vec<RankedPost>)
    requires
        ids.len() == scores.len(),
        forall|i: int| 0 <= i < scores.len() ==> is_number(#[trigger] scores@[i]),
    ensures
        r@ == order::int_order(score_keys(scores@)).map_values(
            |p: usize| RankedPost { id: ids@[p as int], is_positive: p < n_test },
        ),
{
    let mut keys: Vec<(i64, i64, i64)> = Vec::new();
    let mut i: usize = 0;
    while i < scores.len()
        invariant
            i <= scores.len(),
            keys@.len() == i,
            forall|k: int| 0 <= k < i ==> #[trigger] keys@[k] == score_keys(scores@)[k],
        decreases scores.len() - i,
    {
        let b: u32 = scores[i];
        let rank: i64 = if b < 0x8000_0000 {
            b as i64
        } else {
            0x8000_0000 - b as i64
        };
        keys.push((-rank, 0, 0));
        i += 1;
    }
    proof {
        assert(keys@ =~= score_keys(scores@));
    }
    let sorted = sort_ints(keys);
    rank_entries(ids, &sorted, n_test)
}

/// In the ranking no score follows a lower one, and of two equal scores the
/// earlier entry comes first.
pub proof fn law_ranking_descends(scores: Seq<u32>, a: int, b: int)
    requires
        0 <= a < b < scores.len() <= usize::MAX,
    ensures
        ({
            let ranked = order::int_order(score_keys(scores));
            let x = ranked[a] as int;
            let y = ranked[b] as int;
            &&& ranked.len() == scores.len()
            &&& score_rank(scores[x]) >= score_rank(scores[y])
            &&& score_rank(scores[x]) == score_rank(scores[y]) ==> x < y
        }),
{
    let keys = score_keys(scores);
    order::law_every_list_has_an_order(keys);
    let ranked = order::int_order(keys);
    let x = ranked[a] as int;
    let y = ranked[b] as int;
    assert(order::int_before(keys, x, y));
    assert(ranked[a] < keys.len() && ranked[b] < keys.len());
}

/// A mask holds the bit of weight `w`.
pub open spec fn has_weight(mask: u16, w: int) -> bool {
    (mask as int / w) % 2 == 1
}

proof fn lemma_bits(mask: u16)
    ensures
        invalidates(mask, 1) <==> has_weight(mask, 1),
        invalidates(mask, 2) <==> has_weight(mask, 2),
        invalidates(mask, 4) <==> has_weight(mask, 4),
        invalidates(mask, 8) <==> has_weight(mask, 8),
        invalidates(mask, 16) <==> has_weight(mask, 16),
        invalidates(mask, 32) <==> has_weight(mask, 32),
        invalidates(mask, 64) <==> has_weight(mask, 64),
        invalidates(mask, 128) <==> has_weight(mask, 128),
{
    assert((mask & 1 != 0) == ((mask / 1) % 2 == 1) && (mask & 2 != 0) == ((mask / 2) % 2 == 1) && (
    mask & 4 != 0) == ((mask / 4) % 2 == 1) && (mask & 8 != 0) == ((mask / 8) % 2 == 1) && (mask
        & 16 != 0) == ((mask / 16) % 2 == 1) && (mask & 32 != 0) == ((mask / 32) % 2 == 1) && (mask
        & 64 != 0) == ((mask / 64) % 2 == 1) && (mask & 128 != 0) == ((mask / 128) % 2 == 1))
        by (bit_vector);
}

/// Every channel goes by its own bit: from the lowest on, similarity, quality,
/// recency, rating, media, popularity, interaction with its veto, and tag relation.
pub proof fn law_each_channel_has_its_bit(prev: ChannelScores, fresh: ChannelScores, mask: u16)
    ensures
        ({
            let r = merged_channels(prev, fresh, mask);
            &&& r.sim == (if has_weight(mask, 1) { fresh.sim } else { prev.sim })
            &&& r.quality == (if has_weight(mask, 2) { fresh.quality } else { prev.quality })
            &&& r.recency == (if has_weight(mask, 4) { fresh.recency } else { prev.recency })
            &&& r.rating == (if has_weight(mask, 8) { fresh.rating } else { prev.rating })
            &&& r.media == (if has_weight(mask, 16) { fresh.media } else { prev.media })
            &&& r.popularity == (if has_weight(mask, 32) {
                fresh.popularity
            } else {
                prev.popularity
            })
            &&& r.interaction == (if has_weight(mask, 64) {
                fresh.interaction
            } else {
                prev.interaction
            })
            &&& r.veto == (if has_weight(mask, 64) { fresh.veto } else { prev.veto })
            &&& r.tag_relation == (if has_weight(mask, 128) {
                fresh.tag_relation
            } else {
                prev.tag_relation
            })
        }),
{
    lemma_bits(mask);
}

/// A carried cache holds one set of scores for each post, its own: taken anew
/// without a cache, and merged with the cached set of the same post with one.
pub proof fn law_carried_post_by_post(
    prev: Seq<ChannelScores>,
    fresh: Seq<ChannelScores>,
    mask: u16,
    i: int,
)
    requires
        prev.len() == fresh.len(),
        0 <= i < fresh.len(),
    ensures
        carried(None, fresh, mask) == fresh,
        carried(Some(prev), fresh, mask).len() == fresh.len(),
        has_weight(mask, 1) ==> carried(Some(prev), fresh, mask)[i].sim == fresh[i].sim,
        !has_weight(mask, 1) ==> carried(Some(prev), fresh, mask)[i].sim == prev[i].sim,
        carried(Some(prev), fresh, M_ALL) == fresh,
        carried(Some(prev), fresh, M_NONE) == prev,
        carried(Some(prev), fresh, mask)[i] == merged_channels(prev[i], fresh[i], mask),
{
    lemma_bits(mask);
    assert forall|k: int| 0 <= k < fresh.len() implies #[trigger] carried(
        Some(prev),
        fresh,
        M_ALL,
    )[k] == fresh[k] && carried(Some(prev), fresh, M_NONE)[k] == prev[k] by {
        law_full_mask(prev[k], fresh[k]);
        law_empty_mask(prev[k], fresh[k]);
    }
    assert(carried(Some(prev), fresh, M_ALL) =~= fresh);
    assert forall|k: int| 0 <= k < fresh.len() implies #[trigger] carried(
        Some(prev),
        fresh,
        M_NONE,
    )[k] == prev[k] by {
        law_empty_mask(prev[k], fresh[k]);
    }
    assert(carried(Some(prev), fresh, M_NONE) =~= prev);
}

/// The diversifier reorders at least fifty posts, and twice either cutoff where
/// that is a size; it reorders no more than the larger of these asks for.
pub proof fn law_head_limit(a: int, b: int)
    requires
        0 <= a,
        0 <= b,
        2 * a <= usize::MAX,
        2 * b <= usize::MAX,
    ensures
        head_limit(a, b) >= 50,
        head_limit(a, b) >= 2 * a,
        head_limit(a, b) >= 2 * b,
        head_limit(a, b) == 50 || head_limit(a, b) == 2 * a || head_limit(a, b) == 2 * b,
        head_limit(a, b) == head_limit(b, a),
{
}

/// Ranks order the numbers: a negative number has the negative rank of its
/// positive twin, and of two that are not negative the one with the larger bit
/// pattern ranks higher.
pub proof fn law_score_rank(a: u32, b: u32)
    requires
        a < 0x8000_0000,
        b < 0x8000_0000,
    ensures
        score_rank((a + 0x8000_0000) as u32) == -score_rank(a),
        a < b <==> score_rank(a) < score_rank(b),
        score_rank(a) >= 0,
        score_rank(a) == 0 <==> a == 0,
{
}

} // verus!
