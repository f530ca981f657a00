//! The posts of a digest.

use vstd::prelude::*;

use crate::db::effects;
use crate::db::sql::IdStatement;
use crate::models;
use crate::models::Post;
use crate::text;
use crate::text::dec_u64;

verus! {

/// A post and its score, which travels as the bit pattern of its floating-point
/// value.
#[derive(Debug)]
pub struct ScoredPost {
    pub post: Post,
    pub score_bits: u32,
}

/// Posts of a digest carry no score: each has that of zero.
pub fn ids_to_scored(posts: Vec<Post>) -> (r: Vec<ScoredPost>)
    ensures
        r@.len() == posts@.len(),
        forall|i: int|
            0 <= i < posts@.len() ==> (#[trigger] r@[i]).post == posts@[i] && r@[i].score_bits == 0,
{
    let ghost all = posts@;
    let mut posts = posts;
    let mut reversed: Vec<Post> = Vec::new();
    while posts.len() > 0
        invariant
            posts@.len() + reversed@.len() == all.len(),
            posts@ == all.take(posts@.len() as int),
            forall|i: int|
                0 <= i < reversed@.len() ==> #[trigger] reversed@[i] == all[all.len() - 1 - i],
        decreases posts.len(),
    {
        let ghost n = posts@.len();
        match posts.pop() {
            Some(p) => {
                reversed.push(p);
            },
            None => {},
        }
        proof {
            assert(posts@ =~= all.take(n - 1));
        }
    }
    let mut out: Vec<ScoredPost> = Vec::new();
    while reversed.len() > 0
        invariant
            reversed@.len() + out@.len() == all.len(),
            forall|i: int|
                0 <= i < reversed@.len() ==> #[trigger] reversed@[i] == all[all.len() - 1 - i],
            forall|i: int|
                0 <= i < out@.len() ==> (#[trigger] out@[i]).post == all[i] && out@[i].score_bits
                    == 0,
        decreases reversed.len(),
    {
        match reversed.pop() {
            Some(p) => {
                out.push(ScoredPost { post: p, score_bits: 0 });
            },
            None => {},
        }
    }
    out
}

/// `n` numbered placeholders, from `?2` on, with commas between them.
pub open spec fn numbered(n: nat) -> Seq<char>
    decreases n,
{
    if n == 0 {
        Seq::empty()
    } else if n == 1 {
        "?"@ + text::dec(2)
    } else {
        numbered((n - 1) as nat) + ","@ + "?"@ + text::dec(n as int + 1)
    }
}

fn numbered_placeholders(n: usize) -> (r: String)
    requires
        n < usize::MAX,
    ensures
        r@ == numbered(n as nat),
{
    let mut s = String::new();
    let mut i: usize = 0;
    while i < n
        invariant
            i <= n < usize::MAX,
            s@ == numbered(i as nat),
        decreases n - i,
    {
        let ghost before = s@;
        if i > 0 {
            s.append(",");
        }
        s.append("?");
        s.append(dec_u64(i as u64 + 2).as_str());
        proof {
            if i == 0 {
                assert(s@ =~= numbered(1));
            } else {
                assert(s@ =~= before + ","@ + "?"@ + text::dec(i + 2));
            }
        }
        i += 1;
    }
    s
}

/// The statement that draws posts with some tags.
pub open spec fn group_sql(n: nat) -> Seq<char> {
    "SELECT DISTINCT tp.post_id FROM tags_posts tp INNER JOIN posts p ON p.id = tp.post_id WHERE tp.tag_id IN ("@
        + numbered(n) + ") ORDER BY RANDOM() LIMIT ?1"@
}

/// The query for random posts of a tag group that the account knows, bound to
/// the limit and the tags. Without a group, or without tags in it, posts are
/// drawn from the whole catalog.
pub fn get_random_posts_by_group(group: Option<&str>, tag_ids: &Vec<i64>, limit: i64) -> (r: Option<
    IdStatement,
>)
    requires
        tag_ids.len() < usize::MAX,
    ensures
        match r {
            Some(q) => {
                &&& group is Some && tag_ids@.len() > 0
                &&& q.sql@ == group_sql(tag_ids@.len())
                &&& q.ids@ == seq![limit] + tag_ids@
            },
            None => group is None || tag_ids@.len() == 0,
        },
{
    if group.is_none() || tag_ids.len() == 0 {
        return None;
    }
    let mut s = String::from_str(
        "SELECT DISTINCT tp.post_id FROM tags_posts tp INNER JOIN posts p ON p.id = tp.post_id WHERE tp.tag_id IN (",
    );
    s.append(numbered_placeholders(tag_ids.len()).as_str());
    s.append(") ORDER BY RANDOM() LIMIT ?1");
    let mut ids: Vec<i64> = Vec::new();
    ids.push(limit);
    let mut i: usize = 0;
    proof {
        assert(ids@ =~= seq![limit] + tag_ids@.take(0));
    }
    while i < tag_ids.len()
        invariant
            i <= tag_ids.len(),
            ids@ == seq![limit] + tag_ids@.take(i as int),
        decreases tag_ids.len() - i,
    {
        ids.push(tag_ids[i]);
        proof {
            assert(seq![limit] + tag_ids@.take(i + 1) =~= (seq![limit] + tag_ids@.take(
                i as int,
            )).push(tag_ids@[i as int]));
        }
        i += 1;
    }
    proof {
        assert(tag_ids@.take(tag_ids@.len() as int) =~= tag_ids@);
    }
    Some(IdStatement { sql: s, ids })
}

/// A draw of posts: the column it selects, the column by which a link is joined to
/// its post, and the column that has to be in the list.
pub struct PostDraw {
    pub selected: effects::Field,
    pub posted: effects::Field,
    pub listed: effects::Field,
}

impl PostDraw {
    /// The query, its list being written as `marks`.
    pub open spec fn text(self, marks: Seq<char>) -> Seq<char> {
        "SELECT DISTINCT "@ + self.selected.text()
            + " FROM tags_posts tp INNER JOIN posts p ON p.id = "@ + self.posted.text() + " WHERE "@
            + effects::in_list(self.listed, marks) + " ORDER BY RANDOM() LIMIT ?1"@
    }

    /// `value` may be drawn.
    pub open spec fn may_draw(
        self,
        links: Set<effects::LinkRecord>,
        posts: Set<i64>,
        list: Seq<i64>,
        value: models::SqlCell,
    ) -> bool {
        exists|link: effects::LinkRecord, tag: effects::TagRecord, post: i64, id: i64|
            #[trigger] links.contains(link) && #[trigger] posts.contains(post)
                && #[trigger] self.posted.value(link, tag) == models::SqlCell::Integer(post)
                && #[trigger] list.contains(id) && self.listed.value(link, tag)
                == models::SqlCell::Integer(id) && self.selected.value(link, tag) == value
    }
}

/// The draw of posts that carry one of some tags.
pub open spec fn group_draw() -> PostDraw {
    PostDraw {
        selected: effects::Field::LinkPost,
        posted: effects::Field::LinkPost,
        listed: effects::Field::LinkTag,
    }
}

proof fn lemma_numbered_joined(n: nat)
    ensures
        numbered(n) == text::joined(Seq::new(n, |k: int| "?"@ + text::dec(k + 2)), ","@),
    decreases n,
{
    let parts = Seq::new(n, |k: int| "?"@ + text::dec(k + 2));
    if n > 1 {
        lemma_numbered_joined((n - 1) as nat);
        assert(parts.drop_last() =~= Seq::new((n - 1) as nat, |k: int| "?"@ + text::dec(k + 2)));
        let head = numbered((n - 1) as nat);
        assert(head + ","@ + "?"@ + text::dec(n as int + 1) =~= head + ","@ + ("?"@ + text::dec(
            n as int + 1,
        )));
    }
}

/// Posts are drawn from exactly the stored ones that carry one of the tags. The
/// limit is bound first, and each tag to the placeholder of its own number.
pub proof fn law_draw_is_from_the_group(
    links: Set<effects::LinkRecord>,
    posts: Set<i64>,
    limit: i64,
    tag_ids: Seq<i64>,
    post: i64,
)
    ensures
        group_sql(tag_ids.len()) == group_draw().text(
            text::joined(Seq::new(tag_ids.len(), |k: int| "?"@ + text::dec(k + 2)), ","@),
        ),
        forall|k: int|
            0 <= k < tag_ids.len() ==> (seq![limit] + tag_ids)[k + 2 - 1] == #[trigger] tag_ids[k],
        group_draw().may_draw(links, posts, tag_ids, models::SqlCell::Integer(post))
            <==> posts.contains(post) && exists|tag: i64|
            #[trigger] tag_ids.contains(tag) && links.contains(
                (effects::LinkRecord { tag_id: tag, post_id: post }),
            ),
{
    let q = group_draw();
    let marks = numbered(tag_ids.len());
    lemma_numbered_joined(tag_ids.len());
    reveal_strlit(
        "SELECT DISTINCT tp.post_id FROM tags_posts tp INNER JOIN posts p ON p.id = tp.post_id WHERE tp.tag_id IN (",
    );
    reveal_strlit(") ORDER BY RANDOM() LIMIT ?1");
    reveal_strlit("SELECT DISTINCT ");
    reveal_strlit("tp.post_id");
    reveal_strlit(" FROM tags_posts tp INNER JOIN posts p ON p.id = ");
    reveal_strlit(" WHERE ");
    reveal_strlit("tp.tag_id");
    reveal_strlit(" IN (");
    reveal_strlit(")");
    reveal_strlit(" ORDER BY RANDOM() LIMIT ?1");
    assert(group_sql(tag_ids.len()) =~= q.text(marks));
    let cell = models::SqlCell::Integer(post);
    if q.may_draw(links, posts, tag_ids, cell) {
        let (link, tag, p, id) = choose|
            link: effects::LinkRecord,
            tag: effects::TagRecord,
            p: i64,
            id: i64,
        |
            #[trigger] links.contains(link) && #[trigger] posts.contains(p)
                && #[trigger] q.posted.value(link, tag) == models::SqlCell::Integer(p)
                && #[trigger] tag_ids.contains(id) && q.listed.value(link, tag)
                == models::SqlCell::Integer(id) && q.selected.value(link, tag) == cell;
        assert(link == effects::LinkRecord { tag_id: id, post_id: post });
        assert(tag_ids.contains(id));
    }
    if posts.contains(post) && exists|tag: i64|
        #[trigger] tag_ids.contains(tag) && links.contains(
            (effects::LinkRecord { tag_id: tag, post_id: post }),
        ) {
        let id = choose|id: i64|
            #[trigger] tag_ids.contains(id) && links.contains(
                (effects::LinkRecord { tag_id: id, post_id: post }),
            );
        let link = effects::LinkRecord { tag_id: id, post_id: post };
        let tag = effects::TagRecord { id, name: Seq::empty(), group: Seq::empty() };
        assert(links.contains(link) && posts.contains(post));
        assert(q.posted.value(link, tag) == cell);
        assert(tag_ids.contains(id));
    }
}

} // verus!
