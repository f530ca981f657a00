//! Posts as they are stored: assembling them from rows, and the values of an upsert.

use std::collections::HashMap;

use vstd::prelude::*;

use crate::clock;
use crate::clock::{parse_db_datetime, write_rfc3339};
use crate::db::effects;
use crate::db::sql;
use crate::db::sql::{id_statements, IdStatement};
use crate::models;
use crate::models::{
    FileInfo, Post, Preview, Rating, Sample, Score, SqlValue, Stamp, TagGroup, Tags,
};
use crate::text;
use crate::text::{dec_i64, text_eq};

verus! {

/// One row of the `posts` table, as the hydrator reads it. Whether it is animated is
/// read with the rest, so a row that does not say is refused; a post does not hold it.
pub struct PostRow {
    pub id: i64,
    pub created_at_raw: String,
    pub updated_at_raw: String,
    pub score_total: i64,
    pub score_up: i64,
    pub score_down: i64,
    pub fav_count: i64,
    pub rating_raw: String,
    pub file_ext: Option<String>,
    pub file_width: Option<i64>,
    pub file_height: Option<i64>,
    pub file_size: Option<i64>,
    pub file_url: Option<String>,
    pub preview_url: Option<String>,
    pub preview_width: Option<i64>,
    pub preview_height: Option<i64>,
    pub sample_url: Option<String>,
    pub sample_width: Option<i64>,
    pub sample_height: Option<i64>,
    pub is_animated: i64,
    pub duration_bits: Option<u64>,
    pub comment_count: i64,
    pub has_notes: i64,
    pub is_deleted: i64,
    pub has_children: i64,
}

/// One tag of one post.
pub struct TagRow {
    pub post_id: i64,
    pub name: String,
    pub group: String,
}

pub open spec fn or_zero(v: Option<i64>) -> i64 {
    match v {
        Some(x) => x,
        None => 0,
    }
}

fn value_or_zero(v: Option<i64>) -> (r: i64)
    ensures
        r == or_zero(v),
{
    match v {
        Some(x) => x,
        None => 0,
    }
}

/// `p` is the post of `row`, apart from its tags.
pub open spec fn is_post_of(
    p: Post,
    row: PostRow,
    created: (i64, u32),
    updated: (i64, u32),
    rating: Rating,
) -> bool {
    &&& p.id == row.id
    &&& p.created_at == (Stamp { secs: created.0, nanos: created.1 })
    &&& p.updated_at == (Stamp { secs: updated.0, nanos: updated.1 })
    &&& p.rating == rating
    &&& p.score == (Score { up: row.score_up, down: row.score_down, total: row.score_total })
    &&& p.fav_count == row.fav_count
    &&& p.comment_count == row.comment_count
    &&& p.uploader_id == 0
    &&& p.deleted == (row.is_deleted != 0)
    &&& p.has_children == (row.has_children != 0)
    &&& p.has_notes == (row.has_notes != 0)
    &&& p.duration_bits == row.duration_bits
    &&& match p.file {
        Some(f) => {
            &&& row.file_url is Some || row.file_ext is Some
            &&& f.width == or_zero(row.file_width)
            &&& f.height == or_zero(row.file_height)
            &&& f.size == or_zero(row.file_size)
            &&& f.ext == row.file_ext
            &&& f.url == row.file_url
            &&& f.md5 is None
        },
        None => row.file_url is None && row.file_ext is None,
    }
    &&& match p.preview {
        Some(v) => {
            &&& row.preview_url is Some
            &&& v.width == or_zero(row.preview_width)
            &&& v.height == or_zero(row.preview_height)
            &&& v.url == row.preview_url
        },
        None => row.preview_url is None,
    }
    &&& match p.sample {
        Some(s) => {
            &&& row.sample_url is Some
            &&& s.has == Some(true)
            &&& s.width == row.sample_width
            &&& s.height == row.sample_height
            &&& s.url == row.sample_url
        },
        None => row.sample_url is None,
    }
}

/// The error of a row that cannot be assembled, given what its timestamps parse
/// to; `None` for a row that can.
pub open spec fn row_error(row: PostRow, created: Result<(i64, u32), Seq<char>>) -> Option<
    Seq<char>,
> {
    match created {
        Err(e) => Some("hydrate post "@ + text::dec(row.id as int) + " created_at: "@ + e),
        Ok(_) => if models::rating_named(row.rating_raw@) is None {
            Some("hydrate post "@ + text::dec(row.id as int) + ": bad rating "@ + row.rating_raw@)
        } else {
            None
        },
    }
}

/// The time of the last update: the creation time where it cannot be read.
pub open spec fn updated_or(
    updated: Result<(i64, u32), Seq<char>>,
    created: (i64, u32),
) -> (i64, u32) {
    match updated {
        Ok(x) => x,
        Err(_) => created,
    }
}

/// Assembles a post from its row, given what its two timestamps parse to.
pub fn assemble_post(
    row: PostRow,
    created: Result<Stamp, String>,
    updated: Result<Stamp, String>,
) -> (r: Result<Post, String>)
    ensures
        match r {
            Ok(p) => {
                &&& row_error(row, clock::parse_view(created)) is None
                &&& is_post_of(
                    p,
                    row,
                    clock::parse_view(created)->Ok_0,
                    updated_or(clock::parse_view(updated), clock::parse_view(created)->Ok_0),
                    models::rating_named(row.rating_raw@)->0,
                )
                &&& p.tags.is_blank()
            },
            Err(e) => row_error(row, clock::parse_view(created)) == Some(e@),
        },
{
    let created_at = match created {
        Ok(s) => s,
        Err(e) => {
            let mut m = String::from_str("hydrate post ");
            m.append(dec_i64(row.id).as_str());
            m.append(" created_at: ");
            m.append(e.as_str());
            return Err(m);
        },
    };
    let updated_at = match updated {
        Ok(s) => s,
        Err(_) => created_at,
    };
    let rating = match Rating::from_label(row.rating_raw.as_str()) {
        Some(x) => x,
        None => {
            let mut m = String::from_str("hydrate post ");
            m.append(dec_i64(row.id).as_str());
            m.append(": bad rating ");
            m.append(row.rating_raw.as_str());
            return Err(m);
        },
    };
    let file = if row.file_url.is_some() || row.file_ext.is_some() {
        Some(
            FileInfo {
                width: value_or_zero(row.file_width),
                height: value_or_zero(row.file_height),
                ext: row.file_ext,
                size: value_or_zero(row.file_size),
                md5: None,
                url: row.file_url,
            },
        )
    } else {
        None
    };
    let preview = if row.preview_url.is_some() {
        Some(
            Preview {
                width: value_or_zero(row.preview_width),
                height: value_or_zero(row.preview_height),
                url: row.preview_url,
            },
        )
    } else {
        None
    };
    let sample = if row.sample_url.is_some() {
        Some(
            Sample {
                has: Some(true),
                width: row.sample_width,
                height: row.sample_height,
                url: row.sample_url,
            },
        )
    } else {
        None
    };
    Ok(
        Post {
            id: row.id,
            created_at,
            updated_at,
            file,
            preview,
            sample,
            score: Score { up: row.score_up, down: row.score_down, total: row.score_total },
            tags: Tags::blank(),
            rating,
            fav_count: row.fav_count,
            deleted: row.is_deleted != 0,
            has_children: row.has_children != 0,
            has_notes: row.has_notes != 0,
            comment_count: row.comment_count,
            uploader_id: 0,
            duration_bits: row.duration_bits,
        },
    )
}

/// The names among `tags` that belong to a post and a group, in row order.
pub open spec fn tag_names(tags: Seq<TagRow>, post_id: i64, g: TagGroup) -> Seq<String>
    decreases tags.len(),
{
    if tags.len() == 0 {
        Seq::empty()
    } else {
        let rest = tag_names(tags.drop_last(), post_id, g);
        let t = tags.last();
        if t.post_id == post_id && models::group_named(t.group@) == Some(g) {
            rest.push(t.name)
        } else {
            rest
        }
    }
}

/// `p` is the post of `row` with the tags that `tags` gives it.
pub open spec fn is_hydrated(p: Post, row: PostRow, tags: Seq<TagRow>) -> bool {
    let created = clock::db_datetime(row.created_at_raw@);
    let updated = clock::db_datetime(row.updated_at_raw@);
    &&& row_error(row, created) is None
    &&& is_post_of(
        p,
        row,
        created->Ok_0,
        updated_or(updated, created->Ok_0),
        models::rating_named(row.rating_raw@)->0,
    )
    &&& forall|g: TagGroup| (#[trigger] p.tags.group(g)) == tag_names(tags, row.id, g)
    &&& p.tags.invalid@.len() == 0
    &&& p.tags.contributor@.len() == 0
}

/// Row `j` is the last one of its id.
pub open spec fn is_last_row(rows: Seq<PostRow>, j: int) -> bool {
    0 <= j < rows.len() && forall|k: int| j < k < rows.len() ==> (#[trigger] rows[k]).id != rows[j].id
}

/// `p` is assembled from the last row of its id and its tags.
pub open spec fn from_rows(p: Post, rows: Seq<PostRow>, tags: Seq<TagRow>) -> bool {
    exists|j: int| #[trigger] is_last_row(rows, j) && is_hydrated(p, rows[j], tags)
}

/// Some post has the given id.
pub open spec fn has_post(posts: Seq<Post>, id: i64) -> bool {
    exists|i: int| 0 <= i < posts.len() && (#[trigger] posts[i]).id == id
}

/// `posts` holds one post for each id among `rows`, assembled from the last row
/// of that id and the tags listed for it. The order of posts is left open.
pub open spec fn hydrates(posts: Seq<Post>, rows: Seq<PostRow>, tags: Seq<TagRow>) -> bool {
    &&& forall|i: int| 0 <= i < posts.len() ==> from_rows(#[trigger] posts[i], rows, tags)
    &&& forall|i: int, j: int|
        0 <= i < j < posts.len() ==> (#[trigger] posts[i]).id != (#[trigger] posts[j]).id
    &&& forall|j: int| 0 <= j < rows.len() ==> has_post(posts, (#[trigger] rows[j]).id)
}

/// The first row of `rows` that cannot be assembled fails with `e`.
pub open spec fn first_row_error(rows: Seq<PostRow>, e: Seq<char>) -> bool {
    exists|j: int|
        0 <= j < rows.len() && #[trigger] row_error(rows[j], clock::db_datetime(rows[j].created_at_raw@))
            == Some(e) && forall|k: int|
            0 <= k < j ==> #[trigger] row_error(rows[k], clock::db_datetime(rows[k].created_at_raw@)) is None
}

/// The positions of `posts` by id.
spec fn indexes(index: Map<i64, usize>, posts: Seq<Post>) -> bool {
    &&& forall|id: i64| #[trigger]
        index.dom().contains(id) ==> index[id] < posts.len() && posts[index[id] as int].id == id
    &&& forall|i: int|
        0 <= i < posts.len() ==> index.dom().contains((#[trigger] posts[i]).id)
            && index[posts[i].id] == i
}

proof fn lemma_last_row_push(rows: Seq<PostRow>, n: int, j: int)
    requires
        0 <= n < rows.len(),
        is_last_row(rows.take(n), j),
        rows[j].id != rows[n].id,
    ensures
        is_last_row(rows.take(n + 1), j),
{
    assert(rows.take(n)[j] == rows[j]);
    assert forall|k: int| j < k < n + 1 implies (#[trigger] rows.take(n + 1)[k]).id != rows.take(
        n + 1,
    )[j].id by {
        if k < n {
            assert(rows.take(n)[k] == rows[k]);
        }
    }
}

/// Assembles the fetched posts and hands each its tags.
pub fn hydrate_posts_by_ids(rows: Vec<PostRow>, tags: Vec<TagRow>) -> (r: Result<
    Vec<Post>,
    String,
>)
    ensures
        match r {
            Ok(posts) => {
                &&& hydrates(posts@, rows@, tags@)
                &&& forall|j: int|
                    0 <= j < rows@.len() ==> #[trigger] row_error(
                        rows@[j],
                        clock::db_datetime(rows@[j].created_at_raw@),
                    ) is None
            },
            Err(e) => first_row_error(rows@, e@),
        },
{
    broadcast use vstd::std_specs::hash::group_hash_axioms;

    let ghost all_rows = rows@;
    let ghost all_tags = tags@;
    let ghost no_tags = Seq::<TagRow>::empty();
    let mut posts: Vec<Post> = Vec::new();
    let mut index: HashMap<i64, usize> = HashMap::new();
    let total: usize = rows.len();
    let mut pending = rows;
    // Rows are taken from the end, so the list is turned round first.
    let mut queue: Vec<PostRow> = Vec::new();
    while pending.len() > 0
        invariant
            pending@.len() + queue@.len() == total,
            all_rows.len() == total,
            forall|k: int| 0 <= k < pending@.len() ==> pending@[k] == all_rows[k],
            forall|k: int|
                0 <= k < queue@.len() ==> #[trigger] queue@[k] == all_rows[total - 1 - k],
        decreases pending.len(),
    {
        let row = pending.pop().unwrap();
        queue.push(row);
    }
    let mut done: usize = 0;
    proof {
        assert(all_rows.take(0) =~= Seq::<PostRow>::empty());
    }
    while queue.len() > 0
        invariant
            all_rows == rows@,
            all_rows.len() == total,
            done + queue@.len() == total,
            forall|k: int|
                0 <= k < queue@.len() ==> #[trigger] queue@[k] == all_rows[total - 1 - k],
            indexes(index@, posts@),
            hydrates(posts@, all_rows.take(done as int), no_tags),
            no_tags == Seq::<TagRow>::empty(),
            forall|k: int|
                0 <= k < done ==> #[trigger] row_error(
                    all_rows[k],
                    clock::db_datetime(all_rows[k].created_at_raw@),
                ) is None,
        decreases queue.len(),
    {
        broadcast use vstd::std_specs::hash::group_hash_axioms;

        let row = queue.pop().unwrap();
        let ghost this = row;
        assert(this == all_rows[done as int]);
        let created = parse_db_datetime(row.created_at_raw.as_str());
        let updated = parse_db_datetime(row.updated_at_raw.as_str());
        let ghost before = posts@;
        let ghost seen = all_rows.take(done as int);
        let ghost now = all_rows.take(done + 1);
        match assemble_post(row, created, updated) {
            Err(e) => {
                proof {
                    assert(row_error(
                        all_rows[done as int],
                        clock::db_datetime(all_rows[done as int].created_at_raw@),
                    ) == Some(e@));
                }
                return Err(e);
            },
            Ok(post) => {
                let id: i64 = post.id;
                proof {
                    assert(now =~= seen.push(this));
                    assert(is_hydrated(post, this, no_tags));
                    assert(is_last_row(now, done as int));
                }
                let slot: Option<usize> = match index.get(&id) {
                    Some(i) => Some(*i),
                    None => None,
                };
                match slot {
                    Some(i) => {
                        posts.set(i, post);
                    },
                    None => {
                        let i: usize = posts.len();
                        posts.push(post);
                        index.insert(id, i);
                    },
                }
                proof {
                    assert(indexes(index@, posts@));
                    assert forall|i: int| 0 <= i < posts@.len() implies from_rows(
                        #[trigger] posts@[i],
                        now,
                        no_tags,
                    ) by {
                        if posts@[i].id == this.id {
                            assert(posts@[i] == post);
                            assert(is_last_row(now, done as int) && now[done as int] == this);
                        } else {
                            assert(posts@[i] == before[i]);
                            let j = choose|j: int| #[trigger]
                                is_last_row(seen, j) && is_hydrated(before[i], seen[j], no_tags);
                            assert(seen[j] == all_rows[j]);
                            lemma_last_row_push(all_rows, done as int, j);
                            assert(now[j] == seen[j]);
                        }
                    }
                    assert forall|j: int| 0 <= j < now.len() implies has_post(
                        posts@,
                        (#[trigger] now[j]).id,
                    ) by {
                        if j == done {
                            assert(posts@[index@[this.id] as int].id == this.id);
                        } else {
                            assert(now[j] == seen[j]);
                            let i = choose|i: int|
                                0 <= i < before.len() && (#[trigger] before[i]).id == seen[j].id;
                            assert(posts@[i].id == before[i].id);
                        }
                    }
                    assert(hydrates(posts@, now, no_tags));
                }
            },
        }
        done += 1;
    }
    proof {
        assert(all_rows.take(total as int) =~= all_rows);
        assert(all_tags.take(0) =~= no_tags);
    }
    if posts.len() == 0 {
        proof {
            if all_rows.len() > 0 {
                assert(has_post(posts@, all_rows[0].id));
            }
            assert(hydrates(posts@, all_rows, all_tags));
        }
        return Ok(posts);
    }
    let ghost bare = posts@;
    let mut t: usize = 0;
    while t < tags.len()
        invariant
            t <= tags.len(),
            all_tags == tags@,
            indexes(index@, bare),
            posts@.len() == bare.len(),
            forall|i: int|
                0 <= i < bare.len() ==> same_but_tags(#[trigger] posts@[i], bare[i]) && tags_are(
                    posts@[i],
                    all_tags.take(t as int),
                ),
        decreases tags.len() - t,
    {
        broadcast use vstd::std_specs::hash::group_hash_axioms;

        let ghost cur = all_tags.take(t as int);
        let ghost nxt = all_tags.take(t + 1);
        let pid: i64 = tags[t].post_id;
        let slot: Option<usize> = match index.get(&pid) {
            Some(i) => Some(*i),
            None => None,
        };
        let group = TagGroup::from_label(tags[t].group.as_str());
        let ghost before = posts@;
        proof {
            assert(nxt.drop_last() =~= cur);
            assert(nxt.last() == tags@[t as int]);
        }
        match slot {
            Some(i) => {
                match group {
                    Some(g) => {
                        let name = tags[t].name.clone();
                        posts[i].tags.push_tag(g, name);
                    },
                    None => {},
                }
                proof {
                    assert(bare[i as int].id == pid);
                    assert forall|k: int| 0 <= k < bare.len() implies same_but_tags(
                        #[trigger] posts@[k],
                        bare[k],
                    ) && tags_are(posts@[k], nxt) by {
                        if k != i {
                            assert(posts@[k] == before[k]);
                            assert(index@[bare[k].id] == k);
                            assert(bare[k].id != pid);
                        }
                    }
                }
            },
            None => {
                proof {
                    assert forall|k: int| 0 <= k < bare.len() implies same_but_tags(
                        #[trigger] posts@[k],
                        bare[k],
                    ) && tags_are(posts@[k], nxt) by {
                        assert(index@.dom().contains(bare[k].id));
                        assert(bare[k].id != pid);
                    }
                }
            },
        }
        t += 1;
    }
    proof {
        assert(all_tags.take(all_tags.len() as int) =~= all_tags);
        assert forall|i: int| 0 <= i < posts@.len() implies from_rows(
            #[trigger] posts@[i],
            all_rows,
            all_tags,
        ) by {
            assert(from_rows(bare[i], all_rows, no_tags));
            let j = choose|j: int| #[trigger]
                is_last_row(all_rows, j) && is_hydrated(bare[i], all_rows[j], no_tags);
            assert(same_but_tags(posts@[i], bare[i]));
            assert(is_hydrated(posts@[i], all_rows[j], all_tags));
        }
        assert forall|j: int| 0 <= j < all_rows.len() implies has_post(
            posts@,
            (#[trigger] all_rows[j]).id,
        ) by {
            assert(has_post(bare, all_rows[j].id));
            let i = choose|i: int| 0 <= i < bare.len() && (#[trigger] bare[i]).id == all_rows[j].id;
            assert(same_but_tags(posts@[i], bare[i]));
        }
        assert forall|i: int, j: int| 0 <= i < j < posts@.len() implies (#[trigger] posts@[i]).id
            != (#[trigger] posts@[j]).id by {
            assert(same_but_tags(posts@[i], bare[i]));
            assert(same_but_tags(posts@[j], bare[j]));
        }
    }
    Ok(posts)
}

/// `a` and `b` agree in everything but their tags.
spec fn same_but_tags(a: Post, b: Post) -> bool {
    &&& a.id == b.id
    &&& a.created_at == b.created_at
    &&& a.updated_at == b.updated_at
    &&& a.file == b.file
    &&& a.preview == b.preview
    &&& a.sample == b.sample
    &&& a.score == b.score
    &&& a.rating == b.rating
    &&& a.fav_count == b.fav_count
    &&& a.deleted == b.deleted
    &&& a.has_children == b.has_children
    &&& a.has_notes == b.has_notes
    &&& a.comment_count == b.comment_count
    &&& a.uploader_id == b.uploader_id
    &&& a.duration_bits == b.duration_bits
}

spec fn tags_are(p: Post, tags: Seq<TagRow>) -> bool {
    &&& forall|g: TagGroup| (#[trigger] p.tags.group(g)) == tag_names(tags, p.id, g)
    &&& p.tags.invalid@.len() == 0
    &&& p.tags.contributor@.len() == 0
}

/// How many posts one query asks for.
pub const HYDRATE_CHUNK: usize = 800;

/// The query for the rows of some posts, up to its placeholders.
pub const POST_ROWS_SQL: &'static str = "SELECT id, created_at, updated_at, score_total, score_up, score_down, fav_count, rating, file_ext, file_width, file_height, file_size, file_url, preview_url, preview_width, preview_height, sample_url, sample_width, sample_height, is_animated, duration, comment_count, has_notes, is_deleted, has_children FROM posts WHERE id IN (";

/// The query for the tags of some posts, up to its placeholders.
pub const POST_TAGS_SQL: &'static str = "SELECT tp.post_id, t.name, t.group_type FROM tags_posts tp INNER JOIN tags t ON t.id = tp.tag_id WHERE tp.post_id IN (";

/// The queries for the rows of some posts.
pub fn post_row_queries(ids: &Vec<i64>) -> (r: Vec<IdStatement>)
    ensures
        sql::are_id_statements(r@, ids@, HYDRATE_CHUNK as int, POST_ROWS_SQL@, ")"@),
{
    id_statements(ids, HYDRATE_CHUNK, POST_ROWS_SQL, ")")
}

/// The queries for the tags of some posts.
pub fn post_tag_queries(ids: &Vec<i64>) -> (r: Vec<IdStatement>)
    ensures
        sql::are_id_statements(r@, ids@, HYDRATE_CHUNK as int, POST_TAGS_SQL@, ")"@),
{
    id_statements(ids, HYDRATE_CHUNK, POST_TAGS_SQL, ")")
}

/// The post of one id, if it is stored: the rows and tags are those fetched for it.
pub fn get_post_by_id(rows: Vec<PostRow>, tags: Vec<TagRow>) -> (r: Result<Option<Post>, String>)
    ensures
        match r {
            Ok(Some(p)) => from_rows(p, rows@, tags@),
            Ok(None) => rows@.len() == 0,
            Err(e) => first_row_error(rows@, e@),
        },
{
    match hydrate_posts_by_ids(rows, tags) {
        Ok(mut posts) => {
            proof {
                if rows@.len() > 0 {
                    assert(has_post(posts@, rows@[0].id));
                }
                if posts@.len() > 0 {
                    assert(from_rows(posts@[posts@.len() - 1], rows@, tags@));
                    let j = choose|j: int| #[trigger]
                        is_last_row(rows@, j) && is_hydrated(
                            posts@[posts@.len() - 1],
                            rows@[j],
                            tags@,
                        );
                    assert(is_last_row(rows@, j));
                }
            }
            Ok(posts.pop())
        },
        Err(e) => Err(e),
    }
}

// ---------------------------------------------------------------------------
// Upsert
// ---------------------------------------------------------------------------

pub open spec fn int_cell(v: Option<i64>) -> models::SqlCell {
    match v {
        Some(n) => models::SqlCell::Integer(n),
        None => models::SqlCell::Null,
    }
}

pub open spec fn text_cell(v: Option<String>) -> models::SqlCell {
    match v {
        Some(s) => models::SqlCell::Text(s@),
        None => models::SqlCell::Null,
    }
}

pub open spec fn flag_cell(b: bool) -> models::SqlCell {
    models::SqlCell::Integer(if b {
        1
    } else {
        0
    })
}

fn int_value(v: Option<i64>) -> (r: SqlValue)
    ensures
        r.cell() == int_cell(v),
{
    match v {
        Some(n) => SqlValue::Integer(n),
        None => SqlValue::Null,
    }
}

fn text_value(v: &Option<String>) -> (r: SqlValue)
    ensures
        r.cell() == text_cell(*v),
{
    match v {
        Some(s) => SqlValue::Text(s.clone()),
        None => SqlValue::Null,
    }
}

fn flag_value(b: bool) -> (r: SqlValue)
    ensures
        r.cell() == flag_cell(b),
{
    if b {
        SqlValue::Integer(1)
    } else {
        SqlValue::Integer(0)
    }
}

pub open spec fn file_ext(p: Post) -> Option<String> {
    match p.file {
        Some(f) => f.ext,
        None => None,
    }
}

pub open spec fn file_url(p: Post) -> Option<String> {
    match p.file {
        Some(f) => f.url,
        None => None,
    }
}

pub open spec fn preview_url(p: Post) -> Option<String> {
    match p.preview {
        Some(f) => f.url,
        None => None,
    }
}

pub open spec fn sample_url(p: Post) -> Option<String> {
    match p.sample {
        Some(f) => f.url,
        None => None,
    }
}

/// The values of an upsert, in the order of its placeholders.
pub open spec fn upsert_cells(
    p: Post,
    animated: bool,
    created: Seq<char>,
    updated: Seq<char>,
    now: Seq<char>,
) -> Seq<models::SqlCell> {
    seq![
        models::SqlCell::Integer(p.id),
        models::SqlCell::Text(created),
        models::SqlCell::Text(updated),
        models::SqlCell::Integer(p.score.total),
        models::SqlCell::Integer(p.fav_count),
        models::SqlCell::Text(p.rating.name()),
        models::SqlCell::Text(now),
        text_cell(file_ext(p)),
        int_cell(match p.file { Some(f) => Some(f.width), None => None }),
        int_cell(match p.file { Some(f) => Some(f.height), None => None }),
        int_cell(match p.file { Some(f) => Some(f.size), None => None }),
        flag_cell(animated),
        match p.duration_bits {
            Some(b) => models::SqlCell::Real(b),
            None => models::SqlCell::Null,
        },
        models::SqlCell::Integer(p.comment_count),
        flag_cell(p.has_notes),
        flag_cell(p.deleted),
        flag_cell(p.has_children),
        text_cell(preview_url(p)),
        text_cell(sample_url(p)),
        text_cell(file_url(p)),
        models::SqlCell::Integer(p.score.up),
        models::SqlCell::Integer(p.score.down),
        int_cell(match p.sample { Some(s) => s.width, None => None }),
        int_cell(match p.sample { Some(s) => s.height, None => None }),
        int_cell(match p.preview { Some(s) => Some(s.width), None => None }),
        int_cell(match p.preview { Some(s) => Some(s.height), None => None }),
        models::SqlCell::Integer(p.uploader_id),
    ]
}

/// The values of an upsert, given the texts of its three timestamps.
pub fn upsert_values(
    post: &Post,
    animated: bool,
    created: String,
    updated: String,
    now: String,
) -> (r: Vec<SqlValue>)
    ensures
        models::cells(r@) == upsert_cells(*post, animated, created@, updated@, now@),
{
    let no_text: Option<String> = None;
    let (ext, url, w, h, size) = match &post.file {
        Some(f) => (&f.ext, &f.url, Some(f.width), Some(f.height), Some(f.size)),
        None => (&no_text, &no_text, None, None, None),
    };
    let (prev_url, prev_w, prev_h) = match &post.preview {
        Some(f) => (&f.url, Some(f.width), Some(f.height)),
        None => (&no_text, None, None),
    };
    let (samp_url, samp_w, samp_h) = match &post.sample {
        Some(f) => (&f.url, f.width, f.height),
        None => (&no_text, None, None),
    };
    let mut v: Vec<SqlValue> = Vec::new();
    v.push(SqlValue::Integer(post.id));
    v.push(SqlValue::Text(created));
    v.push(SqlValue::Text(updated));
    v.push(SqlValue::Integer(post.score.total));
    v.push(SqlValue::Integer(post.fav_count));
    v.push(SqlValue::Text(String::from_str(post.rating.label())));
    v.push(SqlValue::Text(now));
    v.push(text_value(ext));
    v.push(int_value(w));
    v.push(int_value(h));
    v.push(int_value(size));
    v.push(flag_value(animated));
    v.push(
        match post.duration_bits {
            Some(b) => SqlValue::Real(b),
            None => SqlValue::Null,
        },
    );
    v.push(SqlValue::Integer(post.comment_count));
    v.push(flag_value(post.has_notes));
    v.push(flag_value(post.deleted));
    v.push(flag_value(post.has_children));
    v.push(text_value(prev_url));
    v.push(text_value(samp_url));
    v.push(text_value(url));
    v.push(SqlValue::Integer(post.score.up));
    v.push(SqlValue::Integer(post.score.down));
    v.push(int_value(samp_w));
    v.push(int_value(samp_h));
    v.push(int_value(prev_w));
    v.push(int_value(prev_h));
    v.push(SqlValue::Integer(post.uploader_id));
    proof {
        assert(models::cells(v@) =~= upsert_cells(*post, animated, created@, updated@, now@));
    }
    v
}

/// The values of an upsert made at `now`; `None` where one of the timestamps is
/// no date.
pub fn post_upsert_params(post: &Post, animated: bool, now: Stamp) -> (r: Option<Vec<SqlValue>>)
    ensures
        ({
            let a = clock::rfc3339_text(post.created_at.secs, post.created_at.nanos);
            let b = clock::rfc3339_text(post.updated_at.secs, post.updated_at.nanos);
            let c = clock::rfc3339_text(now.secs, now.nanos);
            match r {
                Some(v) => {
                    &&& a is Some && b is Some && c is Some
                    &&& models::cells(v@) == upsert_cells(*post, animated, a->0, b->0, c->0)
                },
                None => a is None || b is None || c is None,
            }
        }),
{
    let created = write_rfc3339(post.created_at);
    let updated = write_rfc3339(post.updated_at);
    let seen = write_rfc3339(now);
    match (created, updated, seen) {
        (Some(a), Some(b), Some(c)) => Some(upsert_values(post, animated, a, b, c)),
        _ => None,
    }
}

/// The statement that saves a post, new or known. A known post keeps its media
/// addresses and sizes where the new values have none.
pub const POST_UPSERT_SQL: &'static str = "INSERT INTO posts (id, created_at, updated_at, score_total, fav_count, rating, last_seen_at, file_ext, file_width, file_height, file_size, is_animated, duration, comment_count, has_notes, is_deleted, has_children, preview_url, sample_url, file_url, score_up, score_down, sample_width, sample_height, preview_width, preview_height, uploader_id) VALUES (?1, ?2, ?3, ?4, ?5, ?6, ?7, ?8, ?9, ?10, ?11, ?12, ?13, ?14, ?15, ?16, ?17, ?18, ?19, ?20, ?21, ?22, ?23, ?24, ?25, ?26, ?27) ON CONFLICT(id) DO UPDATE SET updated_at = excluded.updated_at, score_total = excluded.score_total, fav_count = excluded.fav_count, rating = excluded.rating, last_seen_at = excluded.last_seen_at, file_ext = excluded.file_ext, file_width = excluded.file_width, file_height = excluded.file_height, file_size = excluded.file_size, is_animated = excluded.is_animated, duration = excluded.duration, comment_count = excluded.comment_count, has_notes = excluded.has_notes, is_deleted = excluded.is_deleted, has_children = excluded.has_children, preview_url = COALESCE(excluded.preview_url, posts.preview_url), sample_url = COALESCE(excluded.sample_url, posts.sample_url), file_url = COALESCE(excluded.file_url, posts.file_url), score_up = excluded.score_up, score_down = excluded.score_down, sample_width = COALESCE(excluded.sample_width, posts.sample_width), sample_height = COALESCE(excluded.sample_height, posts.sample_height), preview_width = COALESCE(excluded.preview_width, posts.preview_width), preview_height = COALESCE(excluded.preview_height, posts.preview_height), uploader_id = excluded.uploader_id";

/// All timestamps of an upsert are dates.
pub open spec fn is_dated(p: Post, now: Stamp) -> bool {
    &&& clock::rfc3339_text(p.created_at.secs, p.created_at.nanos) is Some
    &&& clock::rfc3339_text(p.updated_at.secs, p.updated_at.nanos) is Some
    &&& clock::rfc3339_text(now.secs, now.nanos) is Some
}

/// `v` are the values of the upsert of `p` at `now`.
pub open spec fn is_upsert(v: Seq<SqlValue>, p: Post, animated: bool, now: Stamp) -> bool {
    &&& is_dated(p, now)
    &&& models::cells(v) == upsert_cells(
        p,
        animated,
        clock::rfc3339_text(p.created_at.secs, p.created_at.nanos)->0,
        clock::rfc3339_text(p.updated_at.secs, p.updated_at.nanos)->0,
        clock::rfc3339_text(now.secs, now.nanos)->0,
    )
}

/// The values of the upserts of some posts, in order; `None` where one of their
/// timestamps is no date.
pub fn upsert_catalog_posts(posts: &Vec<Post>, animated: &Vec<bool>, now: Stamp) -> (r: Option<
    Vec<Vec<SqlValue>>,
>)
    requires
        animated.len() == posts.len(),
    ensures
        match r {
            Some(rows) => {
                &&& rows@.len() == posts@.len()
                &&& forall|i: int|
                    0 <= i < posts@.len() ==> is_upsert(
                        (#[trigger] rows@[i])@,
                        posts@[i],
                        animated@[i],
                        now,
                    )
            },
            None => exists|i: int| 0 <= i < posts@.len() && !is_dated(#[trigger] posts@[i], now),
        },
{
    let mut rows: Vec<Vec<SqlValue>> = Vec::new();
    let mut i: usize = 0;
    while i < posts.len()
        invariant
            i <= posts.len(),
            animated.len() == posts.len(),
            rows@.len() == i,
            forall|k: int|
                0 <= k < i ==> is_upsert((#[trigger] rows@[k])@, posts@[k], animated@[k], now),
        decreases posts.len() - i,
    {
        match post_upsert_params(&posts[i], animated[i], now) {
            Some(v) => {
                rows.push(v);
            },
            None => {
                proof {
                    assert(!is_dated(posts@[i as int], now));
                }
                return None;
            },
        }
        i += 1;
    }
    Some(rows)
}

/// A post to be saved for an account: the values of its upsert, and the link
/// between the account and the post.
pub struct SavedPost {
    pub values: Vec<SqlValue>,
    pub account_id: i32,
    pub post_id: i64,
}

/// The posts of an account to be saved, in order; `None` where one of their
/// timestamps is no date.
pub fn save_posts(posts: &Vec<Post>, animated: &Vec<bool>, account_id: i32, now: Stamp) -> (r: Option<
    Vec<SavedPost>,
>)
    requires
        animated.len() == posts.len(),
    ensures
        match r {
            Some(rows) => {
                &&& rows@.len() == posts@.len()
                &&& forall|i: int|
                    0 <= i < posts@.len() ==> {
                        &&& is_upsert((#[trigger] rows@[i]).values@, posts@[i], animated@[i], now)
                        &&& rows@[i].account_id == account_id
                        &&& rows@[i].post_id == posts@[i].id
                    }
            },
            None => exists|i: int| 0 <= i < posts@.len() && !is_dated(#[trigger] posts@[i], now),
        },
{
    let mut rows: Vec<SavedPost> = Vec::new();
    let mut i: usize = 0;
    while i < posts.len()
        invariant
            i <= posts.len(),
            animated.len() == posts.len(),
            rows@.len() == i,
            forall|k: int|
                0 <= k < i ==> {
                    &&& is_upsert((#[trigger] rows@[k]).values@, posts@[k], animated@[k], now)
                    &&& rows@[k].account_id == account_id
                    &&& rows@[k].post_id == posts@[k].id
                },
        decreases posts.len() - i,
    {
        match post_upsert_params(&posts[i], animated[i], now) {
            Some(values) => {
                rows.push(SavedPost { values, account_id, post_id: posts[i].id });
            },
            None => {
                proof {
                    assert(!is_dated(posts@[i as int], now));
                }
                return None;
            },
        }
        i += 1;
    }
    Some(rows)
}

// ---------------------------------------------------------------------------
// Batched deletes and pruning
// ---------------------------------------------------------------------------

/// The statement that deletes one batch of an account's rows, for the tables
/// that are emptied in batches.
pub open spec fn batch_delete_sql(table: Seq<char>) -> Option<Seq<char>> {
    if table == "account_tag_cooccurrence"@ {
        Some(
            "DELETE FROM account_tag_cooccurrence WHERE rowid IN (SELECT rowid FROM account_tag_cooccurrence WHERE account_id = ?1 LIMIT ?2)"@,
        )
    } else if table == "feed_interactions"@ {
        Some(
            "DELETE FROM feed_interactions WHERE rowid IN (SELECT rowid FROM feed_interactions WHERE account_id = ?1 LIMIT ?2)"@,
        )
    } else {
        None
    }
}

/// A table being emptied batch by batch.
pub struct BatchedDrop {
    pub sql: &'static str,
    pub limit: i64,
    pub total: usize,
    pub done: bool,
}

/// Starts emptying a table in batches of at least one row.
pub fn delete_by_account_in_batches(table: &str, batch_size: usize) -> (r: Result<
    BatchedDrop,
    String,
>)
    ensures
        match r {
            Ok(b) => {
                &&& batch_delete_sql(table@) == Some(b.sql@)
                &&& b.limit == (if batch_size > 1 {
                    batch_size as i64
                } else {
                    1
                })
                &&& b.total == 0
                &&& !b.done
            },
            Err(e) => batch_delete_sql(table@) is None && e@
                == "delete_by_account_in_batches: unknown table "@ + table@,
        },
{
    let size: usize = if batch_size > 1 {
        batch_size
    } else {
        1
    };
    #[verifier::truncate]
    let limit: i64 = size as i64;
    if text_eq(table, "account_tag_cooccurrence") {
        Ok(
            BatchedDrop {
                sql: "DELETE FROM account_tag_cooccurrence WHERE rowid IN (SELECT rowid FROM account_tag_cooccurrence WHERE account_id = ?1 LIMIT ?2)",
                limit,
                total: 0,
                done: false,
            },
        )
    } else if text_eq(table, "feed_interactions") {
        Ok(
            BatchedDrop {
                sql: "DELETE FROM feed_interactions WHERE rowid IN (SELECT rowid FROM feed_interactions WHERE account_id = ?1 LIMIT ?2)",
                limit,
                total: 0,
                done: false,
            },
        )
    } else {
        let mut m = String::from_str("delete_by_account_in_batches: unknown table ");
        m.append(table);
        Err(m)
    }
}

/// Starts emptying an account's feed interactions in batches.
pub fn drop_account_feed_interactions_batched(batch_size: usize) -> (r: Result<
    BatchedDrop,
    String,
>)
    ensures
        r is Ok,
        r->Ok_0.sql@ == batch_delete_sql("feed_interactions"@)->0,
        r->Ok_0.limit == (if batch_size > 1 {
            batch_size as i64
        } else {
            1
        }),
        r->Ok_0.total == 0,
        !r->Ok_0.done,
{
    delete_by_account_in_batches("feed_interactions", batch_size)
}

impl BatchedDrop {
    /// Books one batch. An empty batch ends the run; any other is reported as
    /// the rows of the batch and the rows so far.
    pub fn record(&mut self, deleted: usize) -> (r: Option<(usize, usize)>)
        requires
            old(self).total + deleted <= usize::MAX,
        ensures
            final(self).sql == old(self).sql,
            final(self).limit == old(self).limit,
            final(self).total == old(self).total + deleted,
            final(self).done == (old(self).done || deleted == 0),
            r == (if deleted == 0 {
                None
            } else {
                Some((deleted, final(self).total))
            }),
    {
        if deleted == 0 {
            self.done = true;
            return None;
        }
        self.total = self.total + deleted;
        Some((deleted, self.total))
    }

    /// Whether graphs built from the deleted rows are out of date.
    pub fn outdates_graphs(&self) -> (r: bool)
        ensures
            r == (self.total > 0),
    {
        self.total > 0
    }
}

/// What dropping an account's co-occurrences reports: the rows of the one batch
/// and the rows so far, if there were any.
pub fn drop_account_cooccurrence_batched(deleted: usize) -> (r: Option<(usize, usize)>)
    ensures
        r == (if deleted > 0 {
            Some((deleted, deleted))
        } else {
            None
        }),
{
    if deleted > 0 {
        Some((deleted, deleted))
    } else {
        None
    }
}

/// How many posts one batch of a prune takes.
pub const ORPHAN_PRUNE_BATCH: i64 = 5_000;

/// The statement that deletes one batch of the posts that nobody saved and that
/// were last seen before a time.
pub const ORPHAN_PRUNE_SQL: &'static str = "DELETE FROM posts WHERE id IN ( SELECT p.id FROM posts p WHERE p.last_seen_at < ?1 AND NOT EXISTS ( SELECT 1 FROM accounts_post ap WHERE ap.post_id = p.id ) LIMIT ?2 )";

/// Starts deleting posts that nobody saved, batch by batch.
pub fn prune_orphan_posts_batched(batch_size: i64) -> (r: BatchedDrop)
    ensures
        r.sql@ == ORPHAN_PRUNE_SQL@,
        r.limit == batch_size,
        r.total == 0,
        !r.done,
{
    BatchedDrop { sql: ORPHAN_PRUNE_SQL, limit: batch_size, total: 0, done: false }
}

/// Starts the prune of the posts that nobody saved, given how many there are;
/// without any there is nothing to run.
pub fn prune_orphan_candidates(before: i64) -> (r: Option<BatchedDrop>)
    ensures
        match r {
            Some(b) => {
                &&& before != 0
                &&& b.sql@ == ORPHAN_PRUNE_SQL@
                &&& b.limit == ORPHAN_PRUNE_BATCH
                &&& b.total == 0
                &&& !b.done
            },
            None => before == 0,
        },
{
    if before == 0 {
        None
    } else {
        Some(prune_orphan_posts_batched(ORPHAN_PRUNE_BATCH))
    }
}

/// Starts the prune of the whole catalog.
pub fn prune_stale_catalog_posts() -> (r: BatchedDrop)
    ensures
        r.sql@ == ORPHAN_PRUNE_SQL@,
        r.limit == ORPHAN_PRUNE_BATCH,
        r.total == 0,
        !r.done,
{
    prune_orphan_posts_batched(ORPHAN_PRUNE_BATCH)
}

/// The rows before a prune and those left after it.
pub fn pruned_counts(before: i64, deleted: usize) -> (r: (usize, usize))
    requires
        0 <= before <= usize::MAX,
    ensures
        r.0 == before,
        r.1 == (if deleted <= before {
            before - deleted
        } else {
            0
        }),
{
    let b: usize = before as usize;
    if deleted <= b {
        (b, b - deleted)
    } else {
        (b, 0)
    }
}

/// How many similar posts a page skips: pages count from one, and earlier ones
/// than the first skip nothing.
pub fn similar_offset(page: i64, limit: i64) -> (r: i64)
    requires
        page > 1 ==> i64::MIN <= (page - 1) * limit <= i64::MAX,
    ensures
        r == (if page > 1 {
            (page - 1) * limit
        } else {
            0
        }),
{
    if page > 1 {
        (page - 1) * limit
    } else {
        0
    }
}

// ---------------------------------------------------------------------------
// What the statements do
// ---------------------------------------------------------------------------

/// The names that a post gets in a group are those of the rows of that very post
/// whose group is that very group, in row order.
pub proof fn law_tags_go_to_their_post_and_group(tags: Seq<TagRow>, post_id: i64, g: TagGroup)
    ensures
        tag_names(tags, post_id, g) == tags.filter(
            |t: TagRow| t.post_id == post_id && t.group@ == g.name(),
        ).map_values(|t: TagRow| t.name),
    decreases tags.len(),
{
    reveal(Seq::filter);
    let mine = |t: TagRow| t.post_id == post_id && t.group@ == g.name();
    let name = |t: TagRow| t.name;
    if tags.len() == 0 {
        assert(tags.filter(mine).map_values(name) =~= Seq::<String>::empty());
    } else {
        let init = tags.drop_last();
        law_tags_go_to_their_post_and_group(init, post_id, g);
        models::law_only_its_name_gives_a_group(tags.last().group@, g);
        if mine(tags.last()) {
            assert(init.filter(mine).push(tags.last()).map_values(name) =~= init.filter(
                mine,
            ).map_values(name).push(tags.last().name));
        }
    }
}

/// The query for the tags of posts: the post, name and group of every tag that is
/// linked to one of the posts.
pub open spec fn tags_query() -> effects::LinkQuery {
    effects::LinkQuery {
        selected: seq![
            effects::Field::LinkPost,
            effects::Field::TagName,
            effects::Field::TagKind,
        ],
        joins: (effects::Field::TagId, effects::Field::LinkTag),
        listed: seq![effects::Field::LinkPost],
    }
}

/// The answers of the tag query are the tags of the listed posts, each with its
/// post, its name and its group.
pub proof fn law_tags_query(
    links: Set<effects::LinkRecord>,
    tags: Set<effects::TagRecord>,
    ids: Seq<i64>,
    post: i64,
    name: Seq<char>,
    group: Seq<char>,
)
    ensures
        POST_TAGS_SQL@ == tags_query().head(false) + effects::Field::LinkPost.text() + " IN ("@,
        tags_query().answers(
            links,
            tags,
            seq![ids.map_values(|p: i64| models::SqlCell::Integer(p))],
            seq![
                models::SqlCell::Integer(post),
                models::SqlCell::Text(name),
                models::SqlCell::Text(group),
            ],
        ) <==> ids.contains(post) && exists|id: i64|
            links.contains((effects::LinkRecord { tag_id: id, post_id: post }))
                && #[trigger] tags.contains((effects::TagRecord { id, name, group })),
{
    let q = tags_query();
    let cells = ids.map_values(|p: i64| models::SqlCell::Integer(p));
    let lists = seq![cells];
    let row = seq![
        models::SqlCell::Integer(post),
        models::SqlCell::Text(name),
        models::SqlCell::Text(group),
    ];
    assert(POST_TAGS_SQL@ == q.head(false) + "tp.post_id"@ + " IN ("@) by {
        let a = seq!["tp.post_id"@];
        let b = a.push("t.name"@);
        let c = b.push("t.group_type"@);
        assert(effects::field_texts(q.selected) =~= c);
        text::lemma_joined_take(c, ", "@, 1);
        text::lemma_joined_take(c, ", "@, 2);
        assert(c.take(1) =~= a && c.take(2) =~= b && c.take(3) =~= c);
        reveal_strlit(
            "SELECT tp.post_id, t.name, t.group_type FROM tags_posts tp INNER JOIN tags t ON t.id = tp.tag_id WHERE tp.post_id IN (",
        );
        reveal_strlit("SELECT ");
        reveal_strlit("tp.post_id");
        reveal_strlit("t.name");
        reveal_strlit("t.group_type");
        reveal_strlit(", ");
        reveal_strlit(" FROM tags_posts tp INNER JOIN tags t ON ");
        reveal_strlit("t.id");
        reveal_strlit(" = ");
        reveal_strlit("tp.tag_id");
        reveal_strlit(" WHERE ");
        reveal_strlit(" IN (");
        assert(POST_TAGS_SQL@ =~= q.head(false) + "tp.post_id"@ + " IN ("@);
    }
    assert(lists[0] == cells);
    if q.answers(links, tags, lists, row) {
        let (link, tag) = choose|link: effects::LinkRecord, tag: effects::TagRecord|
            links.contains(link) && tags.contains(tag) && #[trigger] q.admits(link, tag, lists)
                && row == effects::field_values(q.selected, link, tag);
        assert(lists[0].contains(q.listed[0].value(link, tag)));
        let values = effects::field_values(q.selected, link, tag);
        assert(values[0] == row[0] && values[1] == row[1] && values[2] == row[2]);
        let k = choose|k: int| 0 <= k < cells.len() && cells[k] == q.listed[0].value(link, tag);
        assert(ids[k] == post);
        assert(link == effects::LinkRecord { tag_id: tag.id, post_id: post });
        assert(tag == effects::TagRecord { id: tag.id, name, group });
        assert(tags.contains(effects::TagRecord { id: tag.id, name, group }));
    }
    if ids.contains(post) && exists|id: i64|
        links.contains((effects::LinkRecord { tag_id: id, post_id: post }))
            && #[trigger] tags.contains((effects::TagRecord { id, name, group })) {
        let id = choose|id: i64|
            links.contains((effects::LinkRecord { tag_id: id, post_id: post }))
                && #[trigger] tags.contains((effects::TagRecord { id, name, group }));
        let link = effects::LinkRecord { tag_id: id, post_id: post };
        let tag = effects::TagRecord { id, name, group };
        let k = choose|k: int| 0 <= k < ids.len() && ids[k] == post;
        assert(cells[k] == models::SqlCell::Integer(post));
        assert(q.admits(link, tag, lists));
        assert(row =~= effects::field_values(q.selected, link, tag));
    }
}

/// A batch takes rows of the one account from the table that was named and from no
/// other, and only two tables are emptied in batches.
pub proof fn law_batches_stay_in_their_table(table: Seq<char>)
    ensures
        batch_delete_sql(table) is Some <==> table == "account_tag_cooccurrence"@ || table
            == "feed_interactions"@,
        batch_delete_sql(table) is Some ==> batch_delete_sql(table)->0 == "DELETE FROM "@ + table
            + " WHERE rowid IN (SELECT rowid FROM "@ + table
            + " WHERE account_id = ?1 LIMIT ?2)"@,
{
    reveal_strlit("DELETE FROM ");
    reveal_strlit(" WHERE rowid IN (SELECT rowid FROM ");
    reveal_strlit(" WHERE account_id = ?1 LIMIT ?2)");
    if table == "account_tag_cooccurrence"@ {
        reveal_strlit("account_tag_cooccurrence");
        reveal_strlit(
            "DELETE FROM account_tag_cooccurrence WHERE rowid IN (SELECT rowid FROM account_tag_cooccurrence WHERE account_id = ?1 LIMIT ?2)",
        );
        assert(batch_delete_sql(table)->0 =~= "DELETE FROM "@ + table
            + " WHERE rowid IN (SELECT rowid FROM "@ + table + " WHERE account_id = ?1 LIMIT ?2)"@);
    } else if table == "feed_interactions"@ {
        reveal_strlit("feed_interactions");
        reveal_strlit(
            "DELETE FROM feed_interactions WHERE rowid IN (SELECT rowid FROM feed_interactions WHERE account_id = ?1 LIMIT ?2)",
        );
        assert(batch_delete_sql(table)->0 =~= "DELETE FROM "@ + table
            + " WHERE rowid IN (SELECT rowid FROM "@ + table + " WHERE account_id = ?1 LIMIT ?2)"@);
    }
}

/// A row is refused exactly where its time of creation cannot be read or its rating
/// is not one of the three letters.
pub proof fn law_refused_rows(row: PostRow, created: Result<(i64, u32), Seq<char>>)
    ensures
        row_error(row, created) is None <==> created is Ok && (row.rating_raw@ == "s"@
            || row.rating_raw@ == "q"@ || row.rating_raw@ == "e"@),
{
}

/// An update time that cannot be read counts as the time of creation, and a size
/// that is not stored as zero.
pub proof fn law_fallbacks(
    updated: Result<(i64, u32), Seq<char>>,
    created: (i64, u32),
    size: Option<i64>,
)
    ensures
        updated is Ok ==> updated_or(updated, created) == updated->Ok_0,
        updated is Err ==> updated_or(updated, created) == created,
        size is Some ==> or_zero(size) == size->0,
        size is None ==> or_zero(size) == 0,
{
}

/// The prune deletes posts that were last seen before the bound time and that no
/// account has saved, as many as the bound limit allows.
pub proof fn law_prune_spares_saved_posts()
    ensures
        ORPHAN_PRUNE_SQL@ == "DELETE FROM posts WHERE id IN ( SELECT p.id FROM posts p WHERE "@
            + "p.last_seen_at"@ + " < ?1 AND NOT EXISTS ( SELECT 1 FROM accounts_post ap WHERE "@
            + effects::SavedField::Post.text() + " = "@ + "p.id"@ + " ) LIMIT ?2 )"@,
{
    reveal_strlit(
        "DELETE FROM posts WHERE id IN ( SELECT p.id FROM posts p WHERE p.last_seen_at < ?1 AND NOT EXISTS ( SELECT 1 FROM accounts_post ap WHERE ap.post_id = p.id ) LIMIT ?2 )",
    );
    reveal_strlit("DELETE FROM posts WHERE id IN ( SELECT p.id FROM posts p WHERE ");
    reveal_strlit("p.last_seen_at");
    reveal_strlit(" < ?1 AND NOT EXISTS ( SELECT 1 FROM accounts_post ap WHERE ");
    reveal_strlit("ap.post_id");
    reveal_strlit(" = ");
    reveal_strlit("p.id");
    reveal_strlit(" ) LIMIT ?2 )");
    assert(ORPHAN_PRUNE_SQL@
        =~= "DELETE FROM posts WHERE id IN ( SELECT p.id FROM posts p WHERE "@ + "p.last_seen_at"@
        + " < ?1 AND NOT EXISTS ( SELECT 1 FROM accounts_post ap WHERE "@ + "ap.post_id"@ + " = "@
        + "p.id"@ + " ) LIMIT ?2 )"@);
}

} // verus!
