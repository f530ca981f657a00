//! Feed interactions and the local candidates of a feed.

use std::collections::HashSet;

use vstd::prelude::*;

use crate::db::effects;
use crate::db::sql;
use crate::db::sql::{placeholders, tag_error, BoundStatement};
use crate::models;
use crate::models::SqlValue;
use crate::tally;
use crate::text;

verus! {

// ---------------------------------------------------------------------------
// Interactions
// ---------------------------------------------------------------------------

#[derive(Clone, Copy, Debug, PartialEq, Eq, Structural)]
pub enum FeedInteractionType {
    QualifiedImpression,
    Open,
    Hide,
    Unknown,
}

/// What an interaction adds to the feedback on each tag of its post:
/// impressions, positive and negative counts.
#[derive(Clone, Copy, Debug, PartialEq, Eq, Structural)]
pub struct FeedbackDelta {
    pub impressions: i64,
    pub positive: i64,
    pub negative: i64,
}

pub open spec fn delta_of(event: FeedInteractionType) -> FeedbackDelta {
    match event {
        FeedInteractionType::QualifiedImpression => FeedbackDelta {
            impressions: 1,
            positive: 0,
            negative: 0,
        },
        FeedInteractionType::Open => FeedbackDelta { impressions: 0, positive: 1, negative: 0 },
        FeedInteractionType::Hide => FeedbackDelta { impressions: 0, positive: 0, negative: 1 },
        FeedInteractionType::Unknown => FeedbackDelta { impressions: 0, positive: 0, negative: 0 },
    }
}

/// Whether an interaction may be recorded, given whether the device is linked to
/// the account.
pub fn record_feed_interaction(linked: Result<bool, String>) -> (r: Result<(), String>)
    ensures
        match linked {
            Err(e) => r matches Err(m) && m@ == sql::tagged(
                "Failed to validate feed interaction owner link"@,
                e@,
            ),
            Ok(b) => if b {
                r is Ok
            } else {
                r matches Err(m) && m@ == "Account is not linked to this device token"@
            },
        },
{
    match linked {
        Err(e) => Err(tag_error("Failed to validate feed interaction owner link", e.as_str())),
        Ok(true) => Ok(()),
        Ok(false) => Err(String::from_str("Account is not linked to this device token")),
    }
}

/// What a recorded interaction adds to the tag feedback. One that was recorded
/// before adds nothing.
pub fn feedback_update(inserted: usize, event: FeedInteractionType) -> (r: Option<FeedbackDelta>)
    ensures
        r == (if inserted > 0 {
            Some(delta_of(event))
        } else {
            None
        }),
{
    if inserted == 0 {
        return None;
    }
    Some(
        match event {
            FeedInteractionType::QualifiedImpression => FeedbackDelta {
                impressions: 1,
                positive: 0,
                negative: 0,
            },
            FeedInteractionType::Open => FeedbackDelta { impressions: 0, positive: 1, negative: 0 },
            FeedInteractionType::Hide => FeedbackDelta { impressions: 0, positive: 0, negative: 1 },
            FeedInteractionType::Unknown => FeedbackDelta {
                impressions: 0,
                positive: 0,
                negative: 0,
            },
        },
    )
}

/// An interaction counts once, and as one thing.
pub proof fn law_one_interaction_one_count(event: FeedInteractionType)
    ensures
        ({
            let d = delta_of(event);
            &&& d.impressions >= 0 && d.positive >= 0 && d.negative >= 0
            &&& d.impressions + d.positive + d.negative == (if event
                == FeedInteractionType::Unknown {
                0int
            } else {
                1int
            })
        }),
{
}

/// How many days back a query looks: at least one.
pub fn lookback_days(days: i64) -> (r: i64)
    ensures
        r == (if days > 1 {
            days
        } else {
            1
        }),
{
    if days > 1 {
        days
    } else {
        1
    }
}

// ---------------------------------------------------------------------------
// Candidates
// ---------------------------------------------------------------------------

/// How many candidates each stream is asked for: a third of the limit, at least
/// fifty.
pub fn candidates_per_stream(limit: i64) -> (r: i64)
    requires
        limit >= 0,
    ensures
        r == (if limit / 3 > 50 {
            limit / 3
        } else {
            50
        }),
{
    let third: i64 = limit / 3;
    if third > 50 {
        third
    } else {
        50
    }
}

/// `out` with the ids of a stream that it does not hold yet, up to the limit.
pub open spec fn with_stream(out: Seq<i64>, ids: Seq<i64>, limit: int) -> Seq<i64>
    decreases ids.len(),
{
    if ids.len() == 0 || out.len() >= limit {
        out
    } else if out.contains(ids[0]) {
        with_stream(out, ids.drop_first(), limit)
    } else {
        with_stream(out.push(ids[0]), ids.drop_first(), limit)
    }
}

/// The candidates of three streams.
pub open spec fn candidates(a: Seq<i64>, b: Seq<i64>, c: Seq<i64>, limit: int) -> Seq<i64> {
    with_stream(with_stream(with_stream(Seq::empty(), a, limit), b, limit), c, limit)
}

fn append_stream(out: &mut Vec<i64>, held: &mut HashSet<i64>, ids: &Vec<i64>, limit: i64)
    requires
        limit >= 0,
        old(held)@ == old(out)@.to_set(),
    ensures
        final(out)@ == with_stream(old(out)@, ids@, limit as int),
        final(held)@ == final(out)@.to_set(),
{
    broadcast use vstd::std_specs::hash::group_hash_axioms;

    let ghost goal = with_stream(out@, ids@, limit as int);
    let mut i: usize = 0;
    proof {
        assert(ids@.skip(0) =~= ids@);
    }
    while i < ids.len()
        invariant
            i <= ids.len(),
            limit >= 0,
            held@ == out@.to_set(),
            goal == with_stream(old(out)@, ids@, limit as int),
            with_stream(out@, ids@.skip(i as int), limit as int) == goal,
        decreases ids.len() - i,
    {
        broadcast use vstd::std_specs::hash::group_hash_axioms;

        let len: usize = out.len();
        if len as u64 >= limit as u64 {
            return;
        }
        let id: i64 = ids[i];
        let ghost before = out@;
        let ghost tail = ids@.skip(i as int);
        proof {
            assert(tail.drop_first() =~= ids@.skip(i + 1));
            assert(tail[0] == id);
            assert(before.to_set().contains(id) <==> before.contains(id));
        }
        if !held.contains(&id) {
            held.insert(id);
            out.push(id);
            proof {
                lemma_push_set(before, id);
            }
        }
        i += 1;
    }
    proof {
        assert(ids@.skip(ids@.len() as int).len() == 0);
    }
}

proof fn lemma_push_set(s: Seq<i64>, x: i64)
    ensures
        s.push(x).to_set() == s.to_set().insert(x),
{
    let t = s.push(x);
    assert forall|y: i64| t.to_set().contains(y) <==> s.to_set().insert(x).contains(y) by {
        if s.contains(y) {
            let k = choose|k: int| 0 <= k < s.len() && s[k] == y;
            assert(t[k] == y);
        }
        if t.contains(y) {
            let k = choose|k: int| 0 <= k < t.len() && t[k] == y;
            if k < s.len() {
                assert(s[k] == y);
            }
        }
        assert(t[s.len() as int] == x);
    }
    assert(t.to_set() =~= s.to_set().insert(x));
}

/// The local candidates of a feed: by top artists, by top characters and by
/// recent popularity, each post once, up to the limit.
pub fn collect_local_candidate_ids(
    by_artist: &Vec<i64>,
    by_character: &Vec<i64>,
    popular: &Vec<i64>,
    limit: i64,
) -> (r: Vec<i64>)
    requires
        limit >= 0,
    ensures
        r@ == candidates(by_artist@, by_character@, popular@, limit as int),
        r@.no_duplicates(),
{
    let mut out: Vec<i64> = Vec::new();
    let mut held: HashSet<i64> = HashSet::new();
    proof {
        assert(held@ =~= out@.to_set());
        let a = with_stream(Seq::empty(), by_artist@, limit as int);
        let b = with_stream(a, by_character@, limit as int);
        lemma_stream_distinct(Seq::empty(), by_artist@, limit as int);
        lemma_stream_distinct(a, by_character@, limit as int);
        lemma_stream_distinct(b, popular@, limit as int);
    }
    append_stream(&mut out, &mut held, by_artist, limit);
    append_stream(&mut out, &mut held, by_character, limit);
    append_stream(&mut out, &mut held, popular, limit);
    out
}

proof fn lemma_stream_distinct(out: Seq<i64>, ids: Seq<i64>, limit: int)
    requires
        out.no_duplicates(),
        out.len() <= limit,
    ensures
        with_stream(out, ids, limit).no_duplicates(),
        with_stream(out, ids, limit).len() <= limit,
        forall|x: i64| #[trigger]
            with_stream(out, ids, limit).contains(x) ==> out.contains(x) || ids.contains(x),
        with_stream(out, ids, limit).len() < limit ==> forall|x: i64|
            out.contains(x) || ids.contains(x) ==> #[trigger] with_stream(
                out,
                ids,
                limit,
            ).contains(x),
    decreases ids.len(),
{
    if ids.len() > 0 && out.len() < limit {
        let next = if out.contains(ids[0]) {
            out
        } else {
            out.push(ids[0])
        };
        assert(next.no_duplicates());
        lemma_stream_distinct(next, ids.drop_first(), limit);
        assert forall|x: i64| next.contains(x) implies out.contains(x) || ids.contains(x) by {
            let k = choose|k: int| 0 <= k < next.len() && next[k] == x;
            if k < out.len() {
                assert(out[k] == x);
            } else {
                assert(ids[0] == x);
            }
        }
        assert forall|x: i64| #[trigger]
            with_stream(out, ids, limit).contains(x) implies out.contains(x) || ids.contains(
            x,
        ) by {
            assert(next.contains(x) || ids.drop_first().contains(x));
            if ids.drop_first().contains(x) {
                let k = choose|k: int| 0 <= k < ids.drop_first().len() && ids.drop_first()[k] == x;
                assert(ids[k + 1] == x);
            }
        }
        if with_stream(out, ids, limit).len() < limit {
            assert forall|x: i64| out.contains(x) || ids.contains(x) implies #[trigger] with_stream(
                out,
                ids,
                limit,
            ).contains(x) by {
                if out.contains(x) {
                    let k = choose|k: int| 0 <= k < out.len() && out[k] == x;
                    assert(next[k] == x);
                } else {
                    let k = choose|k: int| 0 <= k < ids.len() && ids[k] == x;
                    if k == 0 {
                        assert(next[next.len() - 1] == x);
                    } else {
                        assert(ids.drop_first()[k - 1] == x);
                    }
                }
                assert(next.contains(x) || ids.drop_first().contains(x));
            }
        }
    }
}

/// Candidates come from the streams, each once, and are no more than the limit.
/// Below the limit no post of any stream is missing.
pub proof fn law_candidates(a: Seq<i64>, b: Seq<i64>, c: Seq<i64>, limit: int)
    requires
        limit >= 0,
    ensures
        candidates(a, b, c, limit).no_duplicates(),
        candidates(a, b, c, limit).len() <= limit,
        forall|x: i64| #[trigger]
            candidates(a, b, c, limit).contains(x) ==> a.contains(x) || b.contains(x) || c.contains(
                x,
            ),
        candidates(a, b, c, limit).len() < limit ==> forall|x: i64|
            a.contains(x) || b.contains(x) || c.contains(x) ==> #[trigger] candidates(
                a,
                b,
                c,
                limit,
            ).contains(x),
{
    let x = with_stream(Seq::empty(), a, limit);
    let y = with_stream(x, b, limit);
    lemma_stream_distinct(Seq::empty(), a, limit);
    lemma_stream_distinct(x, b, limit);
    lemma_stream_distinct(y, c, limit);
    lemma_stream_grows(x, b, limit);
    lemma_stream_grows(y, c, limit);
    assert forall|v: i64| #[trigger] candidates(a, b, c, limit).contains(v) implies a.contains(v)
        || b.contains(v) || c.contains(v) by {
        assert(with_stream(y, c, limit).contains(v));
        if !c.contains(v) {
            assert(with_stream(x, b, limit).contains(v));
            if !b.contains(v) {
                assert(with_stream(Seq::empty(), a, limit).contains(v));
            }
        }
    }
    if candidates(a, b, c, limit).len() < limit {
        assert forall|v: i64|
            a.contains(v) || b.contains(v) || c.contains(v) implies #[trigger] candidates(
            a,
            b,
            c,
            limit,
        ).contains(v) by {
            if a.contains(v) {
                assert(x.contains(v));
            }
            if x.contains(v) || b.contains(v) {
                assert(y.contains(v));
            }
        }
    }
}

proof fn lemma_stream_grows(out: Seq<i64>, ids: Seq<i64>, limit: int)
    ensures
        with_stream(out, ids, limit).len() >= out.len(),
    decreases ids.len(),
{
    if ids.len() > 0 && out.len() < limit {
        lemma_stream_grows(out, ids.drop_first(), limit);
        lemma_stream_grows(out.push(ids[0]), ids.drop_first(), limit);
    }
}

// ---------------------------------------------------------------------------
// Blacklists
// ---------------------------------------------------------------------------

pub open spec fn blacklist_sql(tags: nat, posts: nat) -> Seq<char> {
    "SELECT DISTINCT tp.post_id FROM tags_posts tp INNER JOIN tags t ON t.id = tp.tag_id WHERE t.name IN ("@
        + sql::marks(tags) + ") AND tp.post_id IN ("@ + sql::marks(posts) + ")"@
}

/// The values of a blacklist query: the tags, then the posts.
pub open spec fn blacklist_cells(tags: Seq<String>, posts: Seq<i64>) -> Seq<models::SqlCell> {
    tags.map_values(|t: String| models::SqlCell::Text(t@)) + posts.map_values(
        |p: i64| models::SqlCell::Integer(p),
    )
}

/// The query that finds which of some posts carry a blacklisted tag. Without
/// posts or without tags there is none to find.
pub fn load_blacklisted_post_ids(post_ids: &Vec<i64>, blacklisted_tags: &Vec<String>) -> (r: Option<
    BoundStatement,
>)
    ensures
        match r {
            Some(s) => {
                &&& post_ids@.len() > 0 && blacklisted_tags@.len() > 0
                &&& s.sql@ == blacklist_sql(blacklisted_tags@.len(), post_ids@.len())
                &&& models::cells(s.values@) == blacklist_cells(blacklisted_tags@, post_ids@)
                &&& asks_for_blacklisted(
                    s.sql@,
                    models::cells(s.values@),
                    text::views(blacklisted_tags@),
                    post_ids@,
                )
            },
            None => post_ids@.len() == 0 || blacklisted_tags@.len() == 0,
        },
{
    if post_ids.len() == 0 || blacklisted_tags.len() == 0 {
        return None;
    }
    let mut text = String::from_str(
        "SELECT DISTINCT tp.post_id FROM tags_posts tp INNER JOIN tags t ON t.id = tp.tag_id WHERE t.name IN (",
    );
    text.append(placeholders(blacklisted_tags.len()).as_str());
    text.append(") AND tp.post_id IN (");
    text.append(placeholders(post_ids.len()).as_str());
    text.append(")");
    let mut values: Vec<SqlValue> = Vec::new();
    let mut i: usize = 0;
    proof {
        assert(models::cells(values@) =~= blacklist_cells(
            blacklisted_tags@.take(0),
            post_ids@.take(0),
        ));
    }
    while i < blacklisted_tags.len()
        invariant
            i <= blacklisted_tags.len(),
            models::cells(values@) == blacklist_cells(
                blacklisted_tags@.take(i as int),
                post_ids@.take(0),
            ),
        decreases blacklisted_tags.len() - i,
    {
        let ghost before = values@;
        values.push(SqlValue::Text(blacklisted_tags[i].clone()));
        proof {
            let c = models::SqlCell::Text(blacklisted_tags@[i as int]@);
            assert(models::cells(values@) =~= models::cells(before).push(c));
            assert(blacklist_cells(blacklisted_tags@.take(i + 1), post_ids@.take(0))
                =~= blacklist_cells(blacklisted_tags@.take(i as int), post_ids@.take(0)).push(c));
        }
        i += 1;
    }
    let mut j: usize = 0;
    proof {
        assert(blacklisted_tags@.take(blacklisted_tags@.len() as int) =~= blacklisted_tags@);
    }
    while j < post_ids.len()
        invariant
            j <= post_ids.len(),
            models::cells(values@) == blacklist_cells(blacklisted_tags@, post_ids@.take(j as int)),
        decreases post_ids.len() - j,
    {
        let ghost before = values@;
        values.push(SqlValue::Integer(post_ids[j]));
        proof {
            let c = models::SqlCell::Integer(post_ids@[j as int]);
            assert(models::cells(values@) =~= models::cells(before).push(c));
            assert(blacklist_cells(blacklisted_tags@, post_ids@.take(j + 1)) =~= blacklist_cells(
                blacklisted_tags@,
                post_ids@.take(j as int),
            ).push(c));
        }
        j += 1;
    }
    proof {
        assert(post_ids@.take(post_ids@.len() as int) =~= post_ids@);
    }
    proof {
        law_blacklist_query(blacklisted_tags@, post_ids@);
    }
    Some(BoundStatement { sql: text, values })
}

/// The query for the posts whose linked tag has a listed name, among listed posts.
pub open spec fn blacklist_query() -> effects::LinkQuery {
    effects::LinkQuery {
        selected: seq![effects::Field::LinkPost],
        joins: (effects::Field::TagId, effects::Field::LinkTag),
        listed: seq![effects::Field::TagName, effects::Field::LinkPost],
    }
}

/// Some names as bound values.
pub open spec fn name_cells(names: Seq<Seq<char>>) -> Seq<models::SqlCell> {
    names.map_values(|n: Seq<char>| models::SqlCell::Text(n))
}

/// Some ids as bound values.
pub open spec fn id_cells(ids: Seq<i64>) -> Seq<models::SqlCell> {
    ids.map_values(|p: i64| models::SqlCell::Integer(p))
}

/// A post carries a tag with one of the given names.
pub open spec fn carries_any(
    links: Set<effects::LinkRecord>,
    tags: Set<effects::TagRecord>,
    names: Seq<Seq<char>>,
    post: i64,
) -> bool {
    exists|link: effects::LinkRecord, tag: effects::TagRecord|
        #[trigger] links.contains(link) && #[trigger] tags.contains(tag) && link.post_id == post
            && link.tag_id == tag.id && names.contains(tag.name)
}

/// The lists that a blacklist query looks names and posts up in.
pub open spec fn asked_lists(names: Seq<Seq<char>>, posts: Seq<i64>) -> Seq<Seq<models::SqlCell>> {
    seq![name_cells(names), id_cells(posts)]
}

/// Over any links and tags, the answers of `q` are exactly the given posts that
/// carry a tag with one of the given names.
pub open spec fn finds_blacklisted(
    q: effects::LinkQuery,
    names: Seq<Seq<char>>,
    posts: Seq<i64>,
) -> bool {
    forall|
        links: Set<effects::LinkRecord>,
        tags: Set<effects::TagRecord>,
        row: Seq<models::SqlCell>,
    |
        #[trigger] q.answers(links, tags, asked_lists(names, posts), row) <==> row.len() == 1
            && exists|p: i64|
            #[trigger] posts.contains(p) && row[0] == models::SqlCell::Integer(p) && carries_any(
                links,
                tags,
                names,
                p,
            )
}

/// The statement is a query for exactly the given posts that carry a tag with one
/// of the given names, bound to the names and then to the posts.
pub open spec fn asks_for_blacklisted(
    sql: Seq<char>,
    bound: Seq<models::SqlCell>,
    names: Seq<Seq<char>>,
    posts: Seq<i64>,
) -> bool {
    &&& bound == name_cells(names) + id_cells(posts)
    &&& exists|q: effects::LinkQuery| #[trigger]
        finds_blacklisted(q, names, posts) && q.listed.len() == 2 && sql == q.head(true)
            + effects::in_list(q.listed[0], sql::marks(names.len())) + " AND "@ + effects::in_list(
            q.listed[1],
            sql::marks(posts.len()),
        )
}

proof fn lemma_blacklist_answers(
    links: Set<effects::LinkRecord>,
    tags: Set<effects::TagRecord>,
    names: Seq<Seq<char>>,
    posts: Seq<i64>,
    row: Seq<models::SqlCell>,
)
    ensures
        blacklist_query().answers(links, tags, asked_lists(names, posts), row)
            <==> row.len() == 1 && exists|p: i64|
            #[trigger] posts.contains(p) && row[0] == models::SqlCell::Integer(p) && carries_any(
                links,
                tags,
                names,
                p,
            ),
{
    let q = blacklist_query();
    let lists = asked_lists(names, posts);
    assert(lists.len() == 2);
    if q.answers(links, tags, lists, row) {
        let (link, tag) = choose|link: effects::LinkRecord, tag: effects::TagRecord|
            links.contains(link) && tags.contains(tag) && #[trigger] q.admits(link, tag, lists)
                && row == effects::field_values(q.selected, link, tag);
        assert(lists[0].contains(q.listed[0].value(link, tag)));
        assert(lists[1].contains(q.listed[1].value(link, tag)));
        let i = choose|i: int|
            0 <= i < lists[0].len() && lists[0][i] == models::SqlCell::Text(tag.name);
        let j = choose|j: int|
            0 <= j < lists[1].len() && lists[1][j] == models::SqlCell::Integer(link.post_id);
        assert(names[i] == tag.name);
        assert(posts[j] == link.post_id);
        assert(posts.contains(link.post_id));
        assert(carries_any(links, tags, names, link.post_id));
        assert(row[0] == models::SqlCell::Integer(link.post_id));
    }
    if row.len() == 1 && exists|p: i64|
        #[trigger] posts.contains(p) && row[0] == models::SqlCell::Integer(p) && carries_any(
            links,
            tags,
            names,
            p,
        ) {
        let p = choose|p: i64|
            #[trigger] posts.contains(p) && row[0] == models::SqlCell::Integer(p) && carries_any(
                links,
                tags,
                names,
                p,
            );
        let (link, tag) = choose|link: effects::LinkRecord, tag: effects::TagRecord|
            #[trigger] links.contains(link) && #[trigger] tags.contains(tag) && link.post_id == p
                && link.tag_id == tag.id && names.contains(tag.name);
        let i = choose|i: int| 0 <= i < names.len() && names[i] == tag.name;
        let j = choose|j: int| 0 <= j < posts.len() && posts[j] == p;
        assert(lists[0][i] == models::SqlCell::Text(tag.name));
        assert(lists[1][j] == models::SqlCell::Integer(p));
        assert(q.admits(link, tag, lists));
        assert(row =~= effects::field_values(q.selected, link, tag));
    }
}

/// The blacklist query asks for exactly the given posts that carry a blacklisted
/// tag: whatever the links and tags, its answers are those posts and nothing else.
pub proof fn law_blacklist_query(tags: Seq<String>, posts: Seq<i64>)
    ensures
        asks_for_blacklisted(
            blacklist_sql(tags.len(), posts.len()),
            blacklist_cells(tags, posts),
            text::views(tags),
            posts,
        ),
{
    let q = blacklist_query();
    let names = text::views(tags);
    let a = sql::marks(tags.len());
    let b = sql::marks(posts.len());
    assert(blacklist_cells(tags, posts) =~= name_cells(names) + id_cells(posts));
    assert(blacklist_sql(tags.len(), posts.len()) == q.head(true) + effects::in_list(q.listed[0], a)
        + " AND "@ + effects::in_list(q.listed[1], b)) by {
        assert(effects::field_texts(q.selected) =~= seq!["tp.post_id"@]);
        reveal_strlit("SELECT DISTINCT ");
        reveal_strlit("tp.post_id");
        reveal_strlit(" FROM tags_posts tp INNER JOIN tags t ON ");
        reveal_strlit("t.id");
        reveal_strlit(" = ");
        reveal_strlit("tp.tag_id");
        reveal_strlit(" WHERE ");
        reveal_strlit("t.name");
        reveal_strlit(" IN (");
        reveal_strlit(")");
        reveal_strlit(" AND ");
        reveal_strlit(") AND tp.post_id IN (");
        reveal_strlit(
            "SELECT DISTINCT tp.post_id FROM tags_posts tp INNER JOIN tags t ON t.id = tp.tag_id WHERE t.name IN (",
        );
        assert("SELECT DISTINCT tp.post_id FROM tags_posts tp INNER JOIN tags t ON t.id = tp.tag_id WHERE t.name IN ("@
            =~= q.head(true) + "t.name"@ + " IN ("@);
        assert(") AND tp.post_id IN ("@ =~= ")"@ + " AND "@ + "tp.post_id"@ + " IN ("@);
        assert(blacklist_sql(tags.len(), posts.len()) =~= q.head(true) + effects::in_list(
            q.listed[0],
            a,
        ) + " AND "@ + effects::in_list(q.listed[1], b));
    }
    assert forall|
        links: Set<effects::LinkRecord>,
        tags: Set<effects::TagRecord>,
        row: Seq<models::SqlCell>,
    |
        #[trigger] q.answers(links, tags, asked_lists(names, posts), row)
            <==> row.len() == 1 && exists|p: i64|
            #[trigger] posts.contains(p) && row[0] == models::SqlCell::Integer(p) && carries_any(
                links,
                tags,
                names,
                p,
            ) by {
        lemma_blacklist_answers(links, tags, names, posts, row);
    }
    assert(finds_blacklisted(q, names, posts));
    assert(asks_for_blacklisted(
        blacklist_sql(tags.len(), posts.len()),
        blacklist_cells(tags, posts),
        names,
        posts,
    ));
}

/// Each kind of interaction counts as what it is: an impression that qualifies as
/// an impression, an opened post for its tags and a hidden one against them.
pub proof fn law_interactions_count_as_what_they_are(event: FeedInteractionType)
    ensures
        ({
            let d = delta_of(event);
            &&& d.impressions != 0 <==> event == FeedInteractionType::QualifiedImpression
            &&& d.positive != 0 <==> event == FeedInteractionType::Open
            &&& d.negative != 0 <==> event == FeedInteractionType::Hide
            &&& d.impressions + d.positive + d.negative <= 1
        }),
{
}

proof fn lemma_stream_is_firsts(done: Seq<i64>, ids: Seq<i64>, limit: int)
    requires
        limit >= 0,
    ensures
        with_stream(up_to(tally::firsts(done), limit), ids, limit) == up_to(
            tally::firsts(done + ids),
            limit,
        ),
    decreases ids.len(),
{
    let cur = tally::firsts(done);
    if ids.len() == 0 {
        assert(done + ids =~= done);
    } else {
        let x = ids[0];
        let next = done.push(x);
        assert(next + ids.drop_first() =~= done + ids);
        tally::lemma_firsts(done);
        tally::lemma_firsts_push(done, x);
        lemma_stream_is_firsts(next, ids.drop_first(), limit);
        if cur.len() >= limit {
            lemma_firsts_prefix(done, ids);
            let all = tally::firsts(done + ids);
            assert(up_to(all, limit) =~= up_to(cur, limit)) by {
                assert(all.take(cur.len() as int) == cur);
                assert(all.take(limit) =~= all.take(cur.len() as int).take(limit));
            }
        } else if done.contains(x) {
            assert(cur.contains(x));
        } else {
            assert(!cur.contains(x));
            assert(up_to(cur.push(x), limit) =~= cur.push(x));
        }
    }
}

proof fn lemma_firsts_prefix(done: Seq<i64>, ids: Seq<i64>)
    ensures
        tally::firsts(done + ids).len() >= tally::firsts(done).len(),
        tally::firsts(done + ids).take(tally::firsts(done).len() as int) == tally::firsts(done),
    decreases ids.len(),
{
    let cur = tally::firsts(done);
    if ids.len() == 0 {
        assert(done + ids =~= done);
        assert(cur.take(cur.len() as int) =~= cur);
    } else {
        lemma_firsts_prefix(done, ids.drop_last());
        assert((done + ids).drop_last() =~= done + ids.drop_last());
        let mid = tally::firsts(done + ids.drop_last());
        assert(mid.push(ids.last()).take(cur.len() as int) =~= mid.take(cur.len() as int));
    }
}

/// The first `limit` values of a list, or all of it.
pub open spec fn up_to(s: Seq<i64>, limit: int) -> Seq<i64> {
    if limit < s.len() {
        s.take(limit)
    } else {
        s
    }
}

/// The candidates are the posts of the three streams in a row, each where it comes
/// first, cut off at the limit.
pub proof fn law_candidates_keep_the_order(a: Seq<i64>, b: Seq<i64>, c: Seq<i64>, limit: int)
    requires
        limit >= 0,
    ensures
        candidates(a, b, c, limit) == up_to(tally::firsts(a + b + c), limit),
{
    let none = Seq::<i64>::empty();
    assert(up_to(tally::firsts(none), limit) =~= none);
    assert(none + a =~= a);
    lemma_stream_is_firsts(none, a, limit);
    lemma_stream_is_firsts(a, b, limit);
    lemma_stream_is_firsts(a + b, c, limit);
}

} // verus!
