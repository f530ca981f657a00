//! The statement that saves a post: its columns, what is bound to each of them,
//! and that a saved post reads back.

use vstd::prelude::*;

use crate::clock;
use crate::db::posts;
use crate::db::posts::{PostRow, POST_ROWS_SQL, POST_UPSERT_SQL};
use crate::models;
use crate::models::{Post, Rating};
use crate::text;

verus! {

/// The columns of the statement, in order.
pub open spec fn saved_columns() -> Seq<Seq<char>> {
    seq![
        "id"@,
        "created_at"@,
        "updated_at"@,
        "score_total"@,
        "fav_count"@,
        "rating"@,
        "last_seen_at"@,
        "file_ext"@,
        "file_width"@,
        "file_height"@,
        "file_size"@,
        "is_animated"@,
        "duration"@,
        "comment_count"@,
        "has_notes"@,
        "is_deleted"@,
        "has_children"@,
        "preview_url"@,
        "sample_url"@,
        "file_url"@,
        "score_up"@,
        "score_down"@,
        "sample_width"@,
        "sample_height"@,
        "preview_width"@,
        "preview_height"@,
        "uploader_id"@,
    ]
}

/// What becomes of a column of a post that is stored already.
pub enum Rule {
    /// It stays as it is.
    Stays,
    /// It takes the new value.
    Follows,
    /// It takes the new value, unless there is none.
    Fills,
}

/// The rules of the columns, in order. The id and the time of creation stay; the
/// media addresses and sizes are not lost to a post without them.
pub open spec fn saved_rules() -> Seq<Rule> {
    seq![
        Rule::Stays,
        Rule::Stays,
        Rule::Follows,
        Rule::Follows,
        Rule::Follows,
        Rule::Follows,
        Rule::Follows,
        Rule::Follows,
        Rule::Follows,
        Rule::Follows,
        Rule::Follows,
        Rule::Follows,
        Rule::Follows,
        Rule::Follows,
        Rule::Follows,
        Rule::Follows,
        Rule::Follows,
        Rule::Fills,
        Rule::Fills,
        Rule::Fills,
        Rule::Follows,
        Rule::Follows,
        Rule::Fills,
        Rule::Fills,
        Rule::Fills,
        Rule::Fills,
        Rule::Follows,
    ]
}

/// The assignment of a column that does not stay.
pub open spec fn assignment(column: Seq<char>, rule: Rule) -> Seq<char> {
    if rule is Fills {
        column + " = COALESCE(excluded."@ + column + ", posts."@ + column + ")"@
    } else {
        column + " = excluded."@ + column
    }
}

/// The assignments from column `lo` on.
pub open spec fn assignments(columns: Seq<Seq<char>>, rules: Seq<Rule>, lo: int) -> Seq<Seq<char>> {
    Seq::new((columns.len() - lo) as nat, |k: int| assignment(columns[lo + k], rules[lo + k]))
}

/// The numbered placeholders of `n` values.
pub open spec fn numbered(n: nat) -> Seq<Seq<char>> {
    Seq::new(n, |k: int| "?"@ + text::dec(k + 1))
}

/// The value of a column after a save: the bound one for a post that is new.
pub open spec fn after_save(
    stored: Option<models::SqlCell>,
    bound: models::SqlCell,
    rule: Rule,
) -> models::SqlCell {
    match stored {
        None => bound,
        Some(old_value) => match rule {
            Rule::Stays => old_value,
            Rule::Follows => bound,
            Rule::Fills => if bound is Null {
                old_value
            } else {
                bound
            },
        },
    }
}

proof fn lemma_columns_text()
    ensures
        POST_UPSERT_SQL@.subrange(19, 342) == text::joined(saved_columns(), ", "@),
{
    let t = POST_UPSERT_SQL@;
    let parts = saved_columns();
    reveal_strlit(
        "INSERT INTO posts (id, created_at, updated_at, score_total, fav_count, rating, last_seen_at, file_ext, file_width, file_height, file_size, is_animated, duration, comment_count, has_notes, is_deleted, has_children, preview_url, sample_url, file_url, score_up, score_down, sample_width, sample_height, preview_width, preview_height, uploader_id) VALUES (?1, ?2, ?3, ?4, ?5, ?6, ?7, ?8, ?9, ?10, ?11, ?12, ?13, ?14, ?15, ?16, ?17, ?18, ?19, ?20, ?21, ?22, ?23, ?24, ?25, ?26, ?27) ON CONFLICT(id) DO UPDATE SET updated_at = excluded.updated_at, score_total = excluded.score_total, fav_count = excluded.fav_count, rating = excluded.rating, last_seen_at = excluded.last_seen_at, file_ext = excluded.file_ext, file_width = excluded.file_width, file_height = excluded.file_height, file_size = excluded.file_size, is_animated = excluded.is_animated, duration = excluded.duration, comment_count = excluded.comment_count, has_notes = excluded.has_notes, is_deleted = excluded.is_deleted, has_children = excluded.has_children, preview_url = COALESCE(excluded.preview_url, posts.preview_url), sample_url = COALESCE(excluded.sample_url, posts.sample_url), file_url = COALESCE(excluded.file_url, posts.file_url), score_up = excluded.score_up, score_down = excluded.score_down, sample_width = COALESCE(excluded.sample_width, posts.sample_width), sample_height = COALESCE(excluded.sample_height, posts.sample_height), preview_width = COALESCE(excluded.preview_width, posts.preview_width), preview_height = COALESCE(excluded.preview_height, posts.preview_height), uploader_id = excluded.uploader_id",
    );
    reveal_strlit(", ");
    reveal_strlit("id");
    assert(parts.take(1) =~= seq![parts[0]]);
    assert(t.subrange(19, 21) =~= parts[0]);
    reveal_strlit("created_at");
    text::lemma_joined_take(parts, ", "@, 1);
    assert(t.subrange(19, 33) =~= t.subrange(19, 21) + ", "@ + parts[1]);
    reveal_strlit("updated_at");
    text::lemma_joined_take(parts, ", "@, 2);
    assert(t.subrange(19, 45) =~= t.subrange(19, 33) + ", "@ + parts[2]);
    reveal_strlit("score_total");
    text::lemma_joined_take(parts, ", "@, 3);
    assert(t.subrange(19, 58) =~= t.subrange(19, 45) + ", "@ + parts[3]);
    reveal_strlit("fav_count");
    text::lemma_joined_take(parts, ", "@, 4);
    assert(t.subrange(19, 69) =~= t.subrange(19, 58) + ", "@ + parts[4]);
    reveal_strlit("rating");
    text::lemma_joined_take(parts, ", "@, 5);
    assert(t.subrange(19, 77) =~= t.subrange(19, 69) + ", "@ + parts[5]);
    reveal_strlit("last_seen_at");
    text::lemma_joined_take(parts, ", "@, 6);
    assert(t.subrange(19, 91) =~= t.subrange(19, 77) + ", "@ + parts[6]);
    reveal_strlit("file_ext");
    text::lemma_joined_take(parts, ", "@, 7);
    assert(t.subrange(19, 101) =~= t.subrange(19, 91) + ", "@ + parts[7]);
    reveal_strlit("file_width");
    text::lemma_joined_take(parts, ", "@, 8);
    assert(t.subrange(19, 113) =~= t.subrange(19, 101) + ", "@ + parts[8]);
    reveal_strlit("file_height");
    text::lemma_joined_take(parts, ", "@, 9);
    assert(t.subrange(19, 126) =~= t.subrange(19, 113) + ", "@ + parts[9]);
    reveal_strlit("file_size");
    text::lemma_joined_take(parts, ", "@, 10);
    assert(t.subrange(19, 137) =~= t.subrange(19, 126) + ", "@ + parts[10]);
    reveal_strlit("is_animated");
    text::lemma_joined_take(parts, ", "@, 11);
    assert(t.subrange(19, 150) =~= t.subrange(19, 137) + ", "@ + parts[11]);
    reveal_strlit("duration");
    text::lemma_joined_take(parts, ", "@, 12);
    assert(t.subrange(19, 160) =~= t.subrange(19, 150) + ", "@ + parts[12]);
    reveal_strlit("comment_count");
    text::lemma_joined_take(parts, ", "@, 13);
    assert(t.subrange(19, 175) =~= t.subrange(19, 160) + ", "@ + parts[13]);
    reveal_strlit("has_notes");
    text::lemma_joined_take(parts, ", "@, 14);
    assert(t.subrange(19, 186) =~= t.subrange(19, 175) + ", "@ + parts[14]);
    reveal_strlit("is_deleted");
    text::lemma_joined_take(parts, ", "@, 15);
    assert(t.subrange(19, 198) =~= t.subrange(19, 186) + ", "@ + parts[15]);
    reveal_strlit("has_children");
    text::lemma_joined_take(parts, ", "@, 16);
    assert(t.subrange(19, 212) =~= t.subrange(19, 198) + ", "@ + parts[16]);
    reveal_strlit("preview_url");
    text::lemma_joined_take(parts, ", "@, 17);
    assert(t.subrange(19, 225) =~= t.subrange(19, 212) + ", "@ + parts[17]);
    reveal_strlit("sample_url");
    text::lemma_joined_take(parts, ", "@, 18);
    assert(t.subrange(19, 237) =~= t.subrange(19, 225) + ", "@ + parts[18]);
    reveal_strlit("file_url");
    text::lemma_joined_take(parts, ", "@, 19);
    assert(t.subrange(19, 247) =~= t.subrange(19, 237) + ", "@ + parts[19]);
    reveal_strlit("score_up");
    text::lemma_joined_take(parts, ", "@, 20);
    assert(t.subrange(19, 257) =~= t.subrange(19, 247) + ", "@ + parts[20]);
    reveal_strlit("score_down");
    text::lemma_joined_take(parts, ", "@, 21);
    assert(t.subrange(19, 269) =~= t.subrange(19, 257) + ", "@ + parts[21]);
    reveal_strlit("sample_width");
    text::lemma_joined_take(parts, ", "@, 22);
    assert(t.subrange(19, 283) =~= t.subrange(19, 269) + ", "@ + parts[22]);
    reveal_strlit("sample_height");
    text::lemma_joined_take(parts, ", "@, 23);
    assert(t.subrange(19, 298) =~= t.subrange(19, 283) + ", "@ + parts[23]);
    reveal_strlit("preview_width");
    text::lemma_joined_take(parts, ", "@, 24);
    assert(t.subrange(19, 313) =~= t.subrange(19, 298) + ", "@ + parts[24]);
    reveal_strlit("preview_height");
    text::lemma_joined_take(parts, ", "@, 25);
    assert(t.subrange(19, 329) =~= t.subrange(19, 313) + ", "@ + parts[25]);
    reveal_strlit("uploader_id");
    text::lemma_joined_take(parts, ", "@, 26);
    assert(t.subrange(19, 342) =~= t.subrange(19, 329) + ", "@ + parts[26]);
    assert(parts.take(27) =~= parts);
}

proof fn lemma_mark_text(k: int)
    requires
        0 < k < 100,
    ensures
        k < 10 ==> "?"@ + text::dec(k) == seq!['?', text::digit(k)],
        k >= 10 ==> "?"@ + text::dec(k) == seq!['?', text::digit(k / 10), text::digit(k % 10)],
{
    reveal_strlit("?");
    reveal_with_fuel(text::dec_nat, 3);
    if k < 10 {
        assert("?"@ + text::dec(k) =~= seq!['?', text::digit(k)]);
    } else {
        assert("?"@ + text::dec(k) =~= seq!['?', text::digit(k / 10), text::digit(k % 10)]);
    }
}

proof fn lemma_marks_text()
    ensures
        POST_UPSERT_SQL@.subrange(352, 476) == text::joined(numbered(27), ", "@),
{
    let t = POST_UPSERT_SQL@;
    let parts = numbered(27);
    reveal_strlit(
        "INSERT INTO posts (id, created_at, updated_at, score_total, fav_count, rating, last_seen_at, file_ext, file_width, file_height, file_size, is_animated, duration, comment_count, has_notes, is_deleted, has_children, preview_url, sample_url, file_url, score_up, score_down, sample_width, sample_height, preview_width, preview_height, uploader_id) VALUES (?1, ?2, ?3, ?4, ?5, ?6, ?7, ?8, ?9, ?10, ?11, ?12, ?13, ?14, ?15, ?16, ?17, ?18, ?19, ?20, ?21, ?22, ?23, ?24, ?25, ?26, ?27) ON CONFLICT(id) DO UPDATE SET updated_at = excluded.updated_at, score_total = excluded.score_total, fav_count = excluded.fav_count, rating = excluded.rating, last_seen_at = excluded.last_seen_at, file_ext = excluded.file_ext, file_width = excluded.file_width, file_height = excluded.file_height, file_size = excluded.file_size, is_animated = excluded.is_animated, duration = excluded.duration, comment_count = excluded.comment_count, has_notes = excluded.has_notes, is_deleted = excluded.is_deleted, has_children = excluded.has_children, preview_url = COALESCE(excluded.preview_url, posts.preview_url), sample_url = COALESCE(excluded.sample_url, posts.sample_url), file_url = COALESCE(excluded.file_url, posts.file_url), score_up = excluded.score_up, score_down = excluded.score_down, sample_width = COALESCE(excluded.sample_width, posts.sample_width), sample_height = COALESCE(excluded.sample_height, posts.sample_height), preview_width = COALESCE(excluded.preview_width, posts.preview_width), preview_height = COALESCE(excluded.preview_height, posts.preview_height), uploader_id = excluded.uploader_id",
    );
    reveal_strlit(", ");
    lemma_mark_text(1);
    assert(parts.take(1) =~= seq![parts[0]]);
    assert(t.subrange(352, 354) =~= parts[0]);
    lemma_mark_text(2);
    text::lemma_joined_take(parts, ", "@, 1);
    assert(t.subrange(352, 358) =~= t.subrange(352, 354) + ", "@ + parts[1]);
    lemma_mark_text(3);
    text::lemma_joined_take(parts, ", "@, 2);
    assert(t.subrange(352, 362) =~= t.subrange(352, 358) + ", "@ + parts[2]);
    lemma_mark_text(4);
    text::lemma_joined_take(parts, ", "@, 3);
    assert(t.subrange(352, 366) =~= t.subrange(352, 362) + ", "@ + parts[3]);
    lemma_mark_text(5);
    text::lemma_joined_take(parts, ", "@, 4);
    assert(t.subrange(352, 370) =~= t.subrange(352, 366) + ", "@ + parts[4]);
    lemma_mark_text(6);
    text::lemma_joined_take(parts, ", "@, 5);
    assert(t.subrange(352, 374) =~= t.subrange(352, 370) + ", "@ + parts[5]);
    lemma_mark_text(7);
    text::lemma_joined_take(parts, ", "@, 6);
    assert(t.subrange(352, 378) =~= t.subrange(352, 374) + ", "@ + parts[6]);
    lemma_mark_text(8);
    text::lemma_joined_take(parts, ", "@, 7);
    assert(t.subrange(352, 382) =~= t.subrange(352, 378) + ", "@ + parts[7]);
    lemma_mark_text(9);
    text::lemma_joined_take(parts, ", "@, 8);
    assert(t.subrange(352, 386) =~= t.subrange(352, 382) + ", "@ + parts[8]);
    lemma_mark_text(10);
    text::lemma_joined_take(parts, ", "@, 9);
    assert(t.subrange(352, 391) =~= t.subrange(352, 386) + ", "@ + parts[9]);
    lemma_mark_text(11);
    text::lemma_joined_take(parts, ", "@, 10);
    assert(t.subrange(352, 396) =~= t.subrange(352, 391) + ", "@ + parts[10]);
    lemma_mark_text(12);
    text::lemma_joined_take(parts, ", "@, 11);
    assert(t.subrange(352, 401) =~= t.subrange(352, 396) + ", "@ + parts[11]);
    lemma_mark_text(13);
    text::lemma_joined_take(parts, ", "@, 12);
    assert(t.subrange(352, 406) =~= t.subrange(352, 401) + ", "@ + parts[12]);
    lemma_mark_text(14);
    text::lemma_joined_take(parts, ", "@, 13);
    assert(t.subrange(352, 411) =~= t.subrange(352, 406) + ", "@ + parts[13]);
    lemma_mark_text(15);
    text::lemma_joined_take(parts, ", "@, 14);
    assert(t.subrange(352, 416) =~= t.subrange(352, 411) + ", "@ + parts[14]);
    lemma_mark_text(16);
    text::lemma_joined_take(parts, ", "@, 15);
    assert(t.subrange(352, 421) =~= t.subrange(352, 416) + ", "@ + parts[15]);
    lemma_mark_text(17);
    text::lemma_joined_take(parts, ", "@, 16);
    assert(t.subrange(352, 426) =~= t.subrange(352, 421) + ", "@ + parts[16]);
    lemma_mark_text(18);
    text::lemma_joined_take(parts, ", "@, 17);
    assert(t.subrange(352, 431) =~= t.subrange(352, 426) + ", "@ + parts[17]);
    lemma_mark_text(19);
    text::lemma_joined_take(parts, ", "@, 18);
    assert(t.subrange(352, 436) =~= t.subrange(352, 431) + ", "@ + parts[18]);
    lemma_mark_text(20);
    text::lemma_joined_take(parts, ", "@, 19);
    assert(t.subrange(352, 441) =~= t.subrange(352, 436) + ", "@ + parts[19]);
    lemma_mark_text(21);
    text::lemma_joined_take(parts, ", "@, 20);
    assert(t.subrange(352, 446) =~= t.subrange(352, 441) + ", "@ + parts[20]);
    lemma_mark_text(22);
    text::lemma_joined_take(parts, ", "@, 21);
    assert(t.subrange(352, 451) =~= t.subrange(352, 446) + ", "@ + parts[21]);
    lemma_mark_text(23);
    text::lemma_joined_take(parts, ", "@, 22);
    assert(t.subrange(352, 456) =~= t.subrange(352, 451) + ", "@ + parts[22]);
    lemma_mark_text(24);
    text::lemma_joined_take(parts, ", "@, 23);
    assert(t.subrange(352, 461) =~= t.subrange(352, 456) + ", "@ + parts[23]);
    lemma_mark_text(25);
    text::lemma_joined_take(parts, ", "@, 24);
    assert(t.subrange(352, 466) =~= t.subrange(352, 461) + ", "@ + parts[24]);
    lemma_mark_text(26);
    text::lemma_joined_take(parts, ", "@, 25);
    assert(t.subrange(352, 471) =~= t.subrange(352, 466) + ", "@ + parts[25]);
    lemma_mark_text(27);
    text::lemma_joined_take(parts, ", "@, 26);
    assert(t.subrange(352, 476) =~= t.subrange(352, 471) + ", "@ + parts[26]);
    assert(parts.take(27) =~= parts);
}

proof fn lemma_assignments_text()
    ensures
        POST_UPSERT_SQL@.subrange(508, 1581) == text::joined(assignments(saved_columns(), saved_rules(), 2), ", "@),
{
    let t = POST_UPSERT_SQL@;
    let parts = assignments(saved_columns(), saved_rules(), 2);
    reveal_strlit(
        "INSERT INTO posts (id, created_at, updated_at, score_total, fav_count, rating, last_seen_at, file_ext, file_width, file_height, file_size, is_animated, duration, comment_count, has_notes, is_deleted, has_children, preview_url, sample_url, file_url, score_up, score_down, sample_width, sample_height, preview_width, preview_height, uploader_id) VALUES (?1, ?2, ?3, ?4, ?5, ?6, ?7, ?8, ?9, ?10, ?11, ?12, ?13, ?14, ?15, ?16, ?17, ?18, ?19, ?20, ?21, ?22, ?23, ?24, ?25, ?26, ?27) ON CONFLICT(id) DO UPDATE SET updated_at = excluded.updated_at, score_total = excluded.score_total, fav_count = excluded.fav_count, rating = excluded.rating, last_seen_at = excluded.last_seen_at, file_ext = excluded.file_ext, file_width = excluded.file_width, file_height = excluded.file_height, file_size = excluded.file_size, is_animated = excluded.is_animated, duration = excluded.duration, comment_count = excluded.comment_count, has_notes = excluded.has_notes, is_deleted = excluded.is_deleted, has_children = excluded.has_children, preview_url = COALESCE(excluded.preview_url, posts.preview_url), sample_url = COALESCE(excluded.sample_url, posts.sample_url), file_url = COALESCE(excluded.file_url, posts.file_url), score_up = excluded.score_up, score_down = excluded.score_down, sample_width = COALESCE(excluded.sample_width, posts.sample_width), sample_height = COALESCE(excluded.sample_height, posts.sample_height), preview_width = COALESCE(excluded.preview_width, posts.preview_width), preview_height = COALESCE(excluded.preview_height, posts.preview_height), uploader_id = excluded.uploader_id",
    );
    reveal_strlit(", ");
    reveal_strlit(" = COALESCE(excluded.");
    reveal_strlit(", posts.");
    reveal_strlit(")");
    reveal_strlit(" = excluded.");
    reveal_strlit("updated_at");
    assert(parts.take(1) =~= seq![parts[0]]);
    assert(t.subrange(508, 540) =~= parts[0]);
    reveal_strlit("score_total");
    text::lemma_joined_take(parts, ", "@, 1);
    assert(t.subrange(508, 576) =~= t.subrange(508, 540) + ", "@ + parts[1]);
    reveal_strlit("fav_count");
    text::lemma_joined_take(parts, ", "@, 2);
    assert(t.subrange(508, 608) =~= t.subrange(508, 576) + ", "@ + parts[2]);
    reveal_strlit("rating");
    text::lemma_joined_take(parts, ", "@, 3);
    assert(t.subrange(508, 634) =~= t.subrange(508, 608) + ", "@ + parts[3]);
    reveal_strlit("last_seen_at");
    text::lemma_joined_take(parts, ", "@, 4);
    assert(t.subrange(508, 672) =~= t.subrange(508, 634) + ", "@ + parts[4]);
    reveal_strlit("file_ext");
    text::lemma_joined_take(parts, ", "@, 5);
    assert(t.subrange(508, 702) =~= t.subrange(508, 672) + ", "@ + parts[5]);
    reveal_strlit("file_width");
    text::lemma_joined_take(parts, ", "@, 6);
    assert(t.subrange(508, 736) =~= t.subrange(508, 702) + ", "@ + parts[6]);
    reveal_strlit("file_height");
    text::lemma_joined_take(parts, ", "@, 7);
    assert(t.subrange(508, 772) =~= t.subrange(508, 736) + ", "@ + parts[7]);
    reveal_strlit("file_size");
    text::lemma_joined_take(parts, ", "@, 8);
    assert(t.subrange(508, 804) =~= t.subrange(508, 772) + ", "@ + parts[8]);
    reveal_strlit("is_animated");
    text::lemma_joined_take(parts, ", "@, 9);
    assert(t.subrange(508, 840) =~= t.subrange(508, 804) + ", "@ + parts[9]);
    reveal_strlit("duration");
    text::lemma_joined_take(parts, ", "@, 10);
    assert(t.subrange(508, 870) =~= t.subrange(508, 840) + ", "@ + parts[10]);
    reveal_strlit("comment_count");
    text::lemma_joined_take(parts, ", "@, 11);
    assert(t.subrange(508, 910) =~= t.subrange(508, 870) + ", "@ + parts[11]);
    reveal_strlit("has_notes");
    text::lemma_joined_take(parts, ", "@, 12);
    assert(t.subrange(508, 942) =~= t.subrange(508, 910) + ", "@ + parts[12]);
    reveal_strlit("is_deleted");
    text::lemma_joined_take(parts, ", "@, 13);
    assert(t.subrange(508, 976) =~= t.subrange(508, 942) + ", "@ + parts[13]);
    reveal_strlit("has_children");
    text::lemma_joined_take(parts, ", "@, 14);
    assert(t.subrange(508, 1014) =~= t.subrange(508, 976) + ", "@ + parts[14]);
    reveal_strlit("preview_url");
    text::lemma_joined_take(parts, ", "@, 15);
    assert(t.subrange(508, 1079) =~= t.subrange(508, 1014) + ", "@ + parts[15]);
    reveal_strlit("sample_url");
    text::lemma_joined_take(parts, ", "@, 16);
    assert(t.subrange(508, 1141) =~= t.subrange(508, 1079) + ", "@ + parts[16]);
    reveal_strlit("file_url");
    text::lemma_joined_take(parts, ", "@, 17);
    assert(t.subrange(508, 1197) =~= t.subrange(508, 1141) + ", "@ + parts[17]);
    reveal_strlit("score_up");
    text::lemma_joined_take(parts, ", "@, 18);
    assert(t.subrange(508, 1227) =~= t.subrange(508, 1197) + ", "@ + parts[18]);
    reveal_strlit("score_down");
    text::lemma_joined_take(parts, ", "@, 19);
    assert(t.subrange(508, 1261) =~= t.subrange(508, 1227) + ", "@ + parts[19]);
    reveal_strlit("sample_width");
    text::lemma_joined_take(parts, ", "@, 20);
    assert(t.subrange(508, 1329) =~= t.subrange(508, 1261) + ", "@ + parts[20]);
    reveal_strlit("sample_height");
    text::lemma_joined_take(parts, ", "@, 21);
    assert(t.subrange(508, 1400) =~= t.subrange(508, 1329) + ", "@ + parts[21]);
    reveal_strlit("preview_width");
    text::lemma_joined_take(parts, ", "@, 22);
    assert(t.subrange(508, 1471) =~= t.subrange(508, 1400) + ", "@ + parts[22]);
    reveal_strlit("preview_height");
    text::lemma_joined_take(parts, ", "@, 23);
    assert(t.subrange(508, 1545) =~= t.subrange(508, 1471) + ", "@ + parts[23]);
    reveal_strlit("uploader_id");
    text::lemma_joined_take(parts, ", "@, 24);
    assert(t.subrange(508, 1581) =~= t.subrange(508, 1545) + ", "@ + parts[24]);
    assert(parts.take(25) =~= parts);
}

/// The statement inserts the saved columns, each bound to the value of its own
/// number, and for a post that is stored already assigns every column but the
/// first two by its rule.
pub proof fn law_save_statement()
    ensures
        saved_columns().len() == 27,
        saved_rules().len() == 27,
        POST_UPSERT_SQL@ == "INSERT INTO posts ("@ + text::joined(saved_columns(), ", "@)
            + ") VALUES ("@ + text::joined(numbered(saved_columns().len()), ", "@)
            + ") ON CONFLICT(id) DO UPDATE SET "@ + text::joined(
            assignments(saved_columns(), saved_rules(), 2),
            ", "@,
        ),
        saved_rules()[0] is Stays && saved_rules()[1] is Stays,
        forall|k: int| 2 <= k < 27 ==> !((#[trigger] saved_rules()[k]) is Stays),
{
    lemma_columns_text();
    lemma_marks_text();
    lemma_assignments_text();
    let t = POST_UPSERT_SQL@;
    reveal_strlit(
        "INSERT INTO posts (id, created_at, updated_at, score_total, fav_count, rating, last_seen_at, file_ext, file_width, file_height, file_size, is_animated, duration, comment_count, has_notes, is_deleted, has_children, preview_url, sample_url, file_url, score_up, score_down, sample_width, sample_height, preview_width, preview_height, uploader_id) VALUES (?1, ?2, ?3, ?4, ?5, ?6, ?7, ?8, ?9, ?10, ?11, ?12, ?13, ?14, ?15, ?16, ?17, ?18, ?19, ?20, ?21, ?22, ?23, ?24, ?25, ?26, ?27) ON CONFLICT(id) DO UPDATE SET updated_at = excluded.updated_at, score_total = excluded.score_total, fav_count = excluded.fav_count, rating = excluded.rating, last_seen_at = excluded.last_seen_at, file_ext = excluded.file_ext, file_width = excluded.file_width, file_height = excluded.file_height, file_size = excluded.file_size, is_animated = excluded.is_animated, duration = excluded.duration, comment_count = excluded.comment_count, has_notes = excluded.has_notes, is_deleted = excluded.is_deleted, has_children = excluded.has_children, preview_url = COALESCE(excluded.preview_url, posts.preview_url), sample_url = COALESCE(excluded.sample_url, posts.sample_url), file_url = COALESCE(excluded.file_url, posts.file_url), score_up = excluded.score_up, score_down = excluded.score_down, sample_width = COALESCE(excluded.sample_width, posts.sample_width), sample_height = COALESCE(excluded.sample_height, posts.sample_height), preview_width = COALESCE(excluded.preview_width, posts.preview_width), preview_height = COALESCE(excluded.preview_height, posts.preview_height), uploader_id = excluded.uploader_id",
    );
    reveal_strlit("INSERT INTO posts (");
    reveal_strlit(") VALUES (");
    reveal_strlit(") ON CONFLICT(id) DO UPDATE SET ");
    assert(t.subrange(0, 19) =~= "INSERT INTO posts ("@);
    assert(t.subrange(342, 352) =~= ") VALUES ("@);
    assert(t.subrange(476, 508) =~= ") ON CONFLICT(id) DO UPDATE SET "@);
    assert(t =~= t.subrange(0, 19) + t.subrange(19, 342) + t.subrange(342, 352) + t.subrange(352, 476)
        + t.subrange(476, 508) + t.subrange(508, 1581));
}

/// The columns that a stored post is read from, in order.
pub open spec fn read_columns() -> Seq<Seq<char>> {
    seq![
        "id"@,
        "created_at"@,
        "updated_at"@,
        "score_total"@,
        "score_up"@,
        "score_down"@,
        "fav_count"@,
        "rating"@,
        "file_ext"@,
        "file_width"@,
        "file_height"@,
        "file_size"@,
        "file_url"@,
        "preview_url"@,
        "preview_width"@,
        "preview_height"@,
        "sample_url"@,
        "sample_width"@,
        "sample_height"@,
        "is_animated"@,
        "duration"@,
        "comment_count"@,
        "has_notes"@,
        "is_deleted"@,
        "has_children"@,
    ]
}

proof fn lemma_read_columns_text()
    ensures
        POST_ROWS_SQL@.subrange(7, 303) == text::joined(read_columns(), ", "@),
{
    let t = POST_ROWS_SQL@;
    let parts = read_columns();
    reveal_strlit(
        "SELECT id, created_at, updated_at, score_total, score_up, score_down, fav_count, rating, file_ext, file_width, file_height, file_size, file_url, preview_url, preview_width, preview_height, sample_url, sample_width, sample_height, is_animated, duration, comment_count, has_notes, is_deleted, has_children FROM posts WHERE id IN (",
    );
    reveal_strlit(", ");
    reveal_strlit("id");
    assert(parts.take(1) =~= seq![parts[0]]);
    assert(t.subrange(7, 9) =~= parts[0]);
    reveal_strlit("created_at");
    text::lemma_joined_take(parts, ", "@, 1);
    assert(t.subrange(7, 21) =~= t.subrange(7, 9) + ", "@ + parts[1]);
    reveal_strlit("updated_at");
    text::lemma_joined_take(parts, ", "@, 2);
    assert(t.subrange(7, 33) =~= t.subrange(7, 21) + ", "@ + parts[2]);
    reveal_strlit("score_total");
    text::lemma_joined_take(parts, ", "@, 3);
    assert(t.subrange(7, 46) =~= t.subrange(7, 33) + ", "@ + parts[3]);
    reveal_strlit("score_up");
    text::lemma_joined_take(parts, ", "@, 4);
    assert(t.subrange(7, 56) =~= t.subrange(7, 46) + ", "@ + parts[4]);
    reveal_strlit("score_down");
    text::lemma_joined_take(parts, ", "@, 5);
    assert(t.subrange(7, 68) =~= t.subrange(7, 56) + ", "@ + parts[5]);
    reveal_strlit("fav_count");
    text::lemma_joined_take(parts, ", "@, 6);
    assert(t.subrange(7, 79) =~= t.subrange(7, 68) + ", "@ + parts[6]);
    reveal_strlit("rating");
    text::lemma_joined_take(parts, ", "@, 7);
    assert(t.subrange(7, 87) =~= t.subrange(7, 79) + ", "@ + parts[7]);
    reveal_strlit("file_ext");
    text::lemma_joined_take(parts, ", "@, 8);
    assert(t.subrange(7, 97) =~= t.subrange(7, 87) + ", "@ + parts[8]);
    reveal_strlit("file_width");
    text::lemma_joined_take(parts, ", "@, 9);
    assert(t.subrange(7, 109) =~= t.subrange(7, 97) + ", "@ + parts[9]);
    reveal_strlit("file_height");
    text::lemma_joined_take(parts, ", "@, 10);
    assert(t.subrange(7, 122) =~= t.subrange(7, 109) + ", "@ + parts[10]);
    reveal_strlit("file_size");
    text::lemma_joined_take(parts, ", "@, 11);
    assert(t.subrange(7, 133) =~= t.subrange(7, 122) + ", "@ + parts[11]);
    reveal_strlit("file_url");
    text::lemma_joined_take(parts, ", "@, 12);
    assert(t.subrange(7, 143) =~= t.subrange(7, 133) + ", "@ + parts[12]);
    reveal_strlit("preview_url");
    text::lemma_joined_take(parts, ", "@, 13);
    assert(t.subrange(7, 156) =~= t.subrange(7, 143) + ", "@ + parts[13]);
    reveal_strlit("preview_width");
    text::lemma_joined_take(parts, ", "@, 14);
    assert(t.subrange(7, 171) =~= t.subrange(7, 156) + ", "@ + parts[14]);
    reveal_strlit("preview_height");
    text::lemma_joined_take(parts, ", "@, 15);
    assert(t.subrange(7, 187) =~= t.subrange(7, 171) + ", "@ + parts[15]);
    reveal_strlit("sample_url");
    text::lemma_joined_take(parts, ", "@, 16);
    assert(t.subrange(7, 199) =~= t.subrange(7, 187) + ", "@ + parts[16]);
    reveal_strlit("sample_width");
    text::lemma_joined_take(parts, ", "@, 17);
    assert(t.subrange(7, 213) =~= t.subrange(7, 199) + ", "@ + parts[17]);
    reveal_strlit("sample_height");
    text::lemma_joined_take(parts, ", "@, 18);
    assert(t.subrange(7, 228) =~= t.subrange(7, 213) + ", "@ + parts[18]);
    reveal_strlit("is_animated");
    text::lemma_joined_take(parts, ", "@, 19);
    assert(t.subrange(7, 241) =~= t.subrange(7, 228) + ", "@ + parts[19]);
    reveal_strlit("duration");
    text::lemma_joined_take(parts, ", "@, 20);
    assert(t.subrange(7, 251) =~= t.subrange(7, 241) + ", "@ + parts[20]);
    reveal_strlit("comment_count");
    text::lemma_joined_take(parts, ", "@, 21);
    assert(t.subrange(7, 266) =~= t.subrange(7, 251) + ", "@ + parts[21]);
    reveal_strlit("has_notes");
    text::lemma_joined_take(parts, ", "@, 22);
    assert(t.subrange(7, 277) =~= t.subrange(7, 266) + ", "@ + parts[22]);
    reveal_strlit("is_deleted");
    text::lemma_joined_take(parts, ", "@, 23);
    assert(t.subrange(7, 289) =~= t.subrange(7, 277) + ", "@ + parts[23]);
    reveal_strlit("has_children");
    text::lemma_joined_take(parts, ", "@, 24);
    assert(t.subrange(7, 303) =~= t.subrange(7, 289) + ", "@ + parts[24]);
    assert(parts.take(25) =~= parts);
}

/// The query for stored posts reads the columns of a row from the posts with the
/// given ids.
pub proof fn law_read_statement()
    ensures
        POST_ROWS_SQL@ == "SELECT "@ + text::joined(read_columns(), ", "@)
            + " FROM posts WHERE id IN ("@,
{
    lemma_read_columns_text();
    let t = POST_ROWS_SQL@;
    reveal_strlit(
        "SELECT id, created_at, updated_at, score_total, score_up, score_down, fav_count, rating, file_ext, file_width, file_height, file_size, file_url, preview_url, preview_width, preview_height, sample_url, sample_width, sample_height, is_animated, duration, comment_count, has_notes, is_deleted, has_children FROM posts WHERE id IN (",
    );
    reveal_strlit("SELECT ");
    reveal_strlit(" FROM posts WHERE id IN (");
    assert(t.subrange(0, 7) =~= "SELECT "@);
    assert(t.subrange(303, 328) =~= " FROM posts WHERE id IN ("@);
    assert(t =~= t.subrange(0, 7) + t.subrange(7, 303) + t.subrange(303, 328));
}

/// Column `k` of a saved post has the given name and holds the given number.
pub open spec fn holds_number(cells: Seq<models::SqlCell>, k: int, name: Seq<char>, n: i64) -> bool {
    saved_columns()[k] == name && cells[k] == models::SqlCell::Integer(n)
}

/// Column `k` of a saved post has the given name and holds the given text.
pub open spec fn holds_text(
    cells: Seq<models::SqlCell>,
    k: int,
    name: Seq<char>,
    t: Seq<char>,
) -> bool {
    saved_columns()[k] == name && cells[k] == models::SqlCell::Text(t)
}

/// Column `k` of a saved post has the given name and reads as the given number, or
/// as none where it is null.
pub open spec fn reads_number(
    cells: Seq<models::SqlCell>,
    k: int,
    name: Seq<char>,
    n: Option<i64>,
) -> bool {
    saved_columns()[k] == name && match n {
        Some(v) => cells[k] == models::SqlCell::Integer(v),
        None => cells[k] is Null,
    }
}

/// Column `k` of a saved post has the given name and reads as the given text, or
/// as none where it is null.
pub open spec fn reads_text(
    cells: Seq<models::SqlCell>,
    k: int,
    name: Seq<char>,
    t: Option<String>,
) -> bool {
    saved_columns()[k] == name && match t {
        Some(v) => cells[k] == models::SqlCell::Text(v@),
        None => cells[k] is Null,
    }
}

/// Column `k` of a saved post has the given name and reads as the given duration,
/// or as none where it is null.
pub open spec fn reads_duration(
    cells: Seq<models::SqlCell>,
    k: int,
    name: Seq<char>,
    bits: Option<u64>,
) -> bool {
    saved_columns()[k] == name && match bits {
        Some(v) => cells[k] == models::SqlCell::Real(v),
        None => cells[k] is Null,
    }
}

/// `row` is read, column by column, from a post whose columns hold `cells`.
pub open spec fn is_read_from(row: PostRow, cells: Seq<models::SqlCell>) -> bool {
    &&& holds_number(cells, 0, "id"@, row.id)
    &&& holds_text(cells, 1, "created_at"@, row.created_at_raw@)
    &&& holds_text(cells, 2, "updated_at"@, row.updated_at_raw@)
    &&& holds_number(cells, 3, "score_total"@, row.score_total)
    &&& holds_number(cells, 4, "fav_count"@, row.fav_count)
    &&& holds_text(cells, 5, "rating"@, row.rating_raw@)
    &&& reads_text(cells, 7, "file_ext"@, row.file_ext)
    &&& reads_number(cells, 8, "file_width"@, row.file_width)
    &&& reads_number(cells, 9, "file_height"@, row.file_height)
    &&& reads_number(cells, 10, "file_size"@, row.file_size)
    &&& holds_number(cells, 11, "is_animated"@, row.is_animated)
    &&& reads_duration(cells, 12, "duration"@, row.duration_bits)
    &&& holds_number(cells, 13, "comment_count"@, row.comment_count)
    &&& holds_number(cells, 14, "has_notes"@, row.has_notes)
    &&& holds_number(cells, 15, "is_deleted"@, row.is_deleted)
    &&& holds_number(cells, 16, "has_children"@, row.has_children)
    &&& reads_text(cells, 17, "preview_url"@, row.preview_url)
    &&& reads_text(cells, 18, "sample_url"@, row.sample_url)
    &&& reads_text(cells, 19, "file_url"@, row.file_url)
    &&& holds_number(cells, 20, "score_up"@, row.score_up)
    &&& holds_number(cells, 21, "score_down"@, row.score_down)
    &&& reads_number(cells, 22, "sample_width"@, row.sample_width)
    &&& reads_number(cells, 23, "sample_height"@, row.sample_height)
    &&& reads_number(cells, 24, "preview_width"@, row.preview_width)
    &&& reads_number(cells, 25, "preview_height"@, row.preview_height)
}

/// The text of an optional string.
pub open spec fn text_in(t: Option<String>) -> Option<Seq<char>> {
    match t {
        Some(s) => Some(s@),
        None => None,
    }
}

/// `q` is what is kept of the saved post `p`. The tags, the checksum of the file,
/// the uploader, a file with neither an address nor an extension, and a preview or
/// a sample without an address are not read back.
pub open spec fn is_kept_of(q: Post, p: Post) -> bool {
    &&& q.id == p.id
    &&& q.score.total == p.score.total
    &&& q.score.up == p.score.up
    &&& q.score.down == p.score.down
    &&& q.fav_count == p.fav_count
    &&& q.comment_count == p.comment_count
    &&& q.rating == p.rating
    &&& q.deleted == p.deleted
    &&& q.has_children == p.has_children
    &&& q.has_notes == p.has_notes
    &&& q.duration_bits == p.duration_bits
    &&& match p.file {
        Some(f) => if f.url is Some || f.ext is Some {
            &&& q.file is Some
            &&& q.file->0.width == f.width
            &&& q.file->0.height == f.height
            &&& q.file->0.size == f.size
            &&& text_in(q.file->0.ext) == text_in(f.ext)
            &&& text_in(q.file->0.url) == text_in(f.url)
        } else {
            q.file is None
        },
        None => q.file is None,
    }
    &&& match p.preview {
        Some(v) => if v.url is Some {
            &&& q.preview is Some
            &&& q.preview->0.width == v.width
            &&& q.preview->0.height == v.height
            &&& text_in(q.preview->0.url) == text_in(v.url)
        } else {
            q.preview is None
        },
        None => q.preview is None,
    }
    &&& match p.sample {
        Some(v) => if v.url is Some {
            &&& q.sample is Some
            &&& q.sample->0.has == Some(true)
            &&& q.sample->0.width == v.width
            &&& q.sample->0.height == v.height
            &&& text_in(q.sample->0.url) == text_in(v.url)
        } else {
            q.sample is None
        },
        None => q.sample is None,
    }
}

/// A saved post reads back: from the values bound to the columns of the statement
/// a row is read that is not refused for its rating, and whatever post is
/// assembled from that row is the saved one. It also has the times of the saved
/// one where the texts of these read as what they were written for.
pub proof fn law_saved_post_reads_back(
    p: Post,
    animated: bool,
    created: Seq<char>,
    updated: Seq<char>,
    now: Seq<char>,
    row: PostRow,
    q: Post,
    at: (i64, u32),
    changed: (i64, u32),
    rating: Rating,
)
    requires
        is_read_from(row, posts::upsert_cells(p, animated, created, updated, now)),
        models::rating_named(row.rating_raw@) == Some(rating),
        posts::is_post_of(q, row, at, changed, rating),
    ensures
        is_kept_of(q, p),
        row.is_animated == (if animated {
            1i64
        } else {
            0i64
        }),
        row.created_at_raw@ == created,
        row.updated_at_raw@ == updated,
        at == (p.created_at.secs, p.created_at.nanos) ==> q.created_at == p.created_at,
        changed == (p.updated_at.secs, p.updated_at.nanos) ==> q.updated_at == p.updated_at,
{
    models::law_rating_round_trip(p.rating);
}

/// A row read from a saved post is never refused for its rating, and only for its
/// time of creation where the text of that does not read as a time.
pub proof fn law_saved_post_is_not_refused(
    p: Post,
    animated: bool,
    created: Seq<char>,
    updated: Seq<char>,
    now: Seq<char>,
    row: PostRow,
)
    requires
        is_read_from(row, posts::upsert_cells(p, animated, created, updated, now)),
    ensures
        models::rating_named(row.rating_raw@) == Some(p.rating),
        posts::row_error(row, clock::db_datetime(row.created_at_raw@)) is None
            <==> clock::db_datetime(created) is Ok,
{
    models::law_rating_round_trip(p.rating);
}

/// Every saved column has its value: also those that are saved but not read.
pub proof fn law_columns_not_read(
    p: Post,
    animated: bool,
    created: Seq<char>,
    updated: Seq<char>,
    now: Seq<char>,
)
    ensures
        ({
            let cells = posts::upsert_cells(p, animated, created, updated, now);
            &&& cells.len() == saved_columns().len()
            &&& holds_text(cells, 6, "last_seen_at"@, now)
            &&& holds_number(cells, 26, "uploader_id"@, p.uploader_id)
        }),
{
}

/// Every post can be read back: some row is read from the values it is saved with.
pub proof fn law_saved_post_has_a_row(
    p: Post,
    animated: bool,
    created: String,
    updated: String,
    rating: String,
    now: Seq<char>,
) -> (row: PostRow)
    requires
        rating@ == p.rating.name(),
    ensures
        is_read_from(row, posts::upsert_cells(p, animated, created@, updated@, now)),
{
    let flag = |b: bool| if b {
        1i64
    } else {
        0i64
    };
    PostRow {
        id: p.id,
        created_at_raw: created,
        updated_at_raw: updated,
        score_total: p.score.total,
        score_up: p.score.up,
        score_down: p.score.down,
        fav_count: p.fav_count,
        rating_raw: rating,
        file_ext: posts::file_ext(p),
        file_width: match p.file { Some(f) => Some(f.width), None => None },
        file_height: match p.file { Some(f) => Some(f.height), None => None },
        file_size: match p.file { Some(f) => Some(f.size), None => None },
        file_url: posts::file_url(p),
        preview_url: posts::preview_url(p),
        preview_width: match p.preview { Some(v) => Some(v.width), None => None },
        preview_height: match p.preview { Some(v) => Some(v.height), None => None },
        sample_url: posts::sample_url(p),
        sample_width: match p.sample { Some(v) => v.width, None => None },
        sample_height: match p.sample { Some(v) => v.height, None => None },
        is_animated: flag(animated),
        duration_bits: p.duration_bits,
        comment_count: p.comment_count,
        has_notes: flag(p.has_notes),
        is_deleted: flag(p.deleted),
        has_children: flag(p.has_children),
    }
}

/// Saving a stored post again keeps its id and time of creation, keeps a media
/// address or size that the new values do not have, and replaces the rest.
pub proof fn law_saving_again(
    stored: Seq<models::SqlCell>,
    p: Post,
    animated: bool,
    created: Seq<char>,
    updated: Seq<char>,
    now: Seq<char>,
    k: int,
)
    requires
        stored.len() == 27,
        0 <= k < 27,
    ensures
        ({
            let bound = posts::upsert_cells(p, animated, created, updated, now);
            let after = after_save(Some(stored[k]), bound[k], saved_rules()[k]);
            let media = k == 17 || k == 18 || k == 19 || 22 <= k <= 25;
            &&& k < 2 ==> after == stored[k]
            &&& k >= 2 && !media ==> after == bound[k]
            &&& media && bound[k] is Null ==> after == stored[k]
            &&& media && !(bound[k] is Null) ==> after == bound[k]
        }),
        saved_columns()[17] == "preview_url"@ && saved_columns()[18] == "sample_url"@
            && saved_columns()[19] == "file_url"@ && saved_columns()[22] == "sample_width"@
            && saved_columns()[23] == "sample_height"@ && saved_columns()[24] == "preview_width"@
            && saved_columns()[25] == "preview_height"@ && saved_columns()[0] == "id"@
            && saved_columns()[1] == "created_at"@,
{
}

} // verus!
