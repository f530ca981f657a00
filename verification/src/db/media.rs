//! The index of stored originals.

use vstd::prelude::*;

use crate::db::sql;
use crate::db::sql::{id_statements, placeholders, tag_error, IdStatement};

verus! {

#[derive(Debug)]
pub struct MediaEntry {
    pub post_id: i64,
    pub rel_path: String,
    pub bytes: i64,
    pub mtime: i64,
}

/// The outcome of a read that opens the database and then runs one query.
pub open spec fn is_read<T>(
    r: Result<T, String>,
    name: Seq<char>,
    opened: Result<(), String>,
    value: Result<T, String>,
) -> bool {
    match (opened, value) {
        (Err(e), _) => r matches Err(m) && m@ == sql::tagged(name + " open"@, e@),
        (Ok(_), Err(e)) => r matches Err(m) && m@ == sql::tagged(name, e@),
        (Ok(_), Ok(v)) => r == Ok::<T, String>(v),
    }
}

/// The bytes of all stored originals, given what the database answered.
pub fn count_media_bytes(opened: Result<(), String>, sum: Result<i64, String>) -> (r: Result<
    i64,
    String,
>)
    ensures
        is_read(r, "count_media_bytes"@, opened, sum),
{
    proof {
        reveal_strlit("count_media_bytes");
        reveal_strlit(" open");
        reveal_strlit("count_media_bytes open");
        assert("count_media_bytes open"@ =~= "count_media_bytes"@ + " open"@);
    }
    match opened {
        Err(e) => Err(tag_error("count_media_bytes open", e.as_str())),
        Ok(_) => match sum {
            Err(e) => Err(tag_error("count_media_bytes", e.as_str())),
            Ok(n) => Ok(n),
        },
    }
}

/// What the queue statistics say: the originals still wanted, those stored, and
/// the bytes stored. The first failure decides.
pub open spec fn is_queue_stats(
    r: Result<(i64, i64, i64), String>,
    opened: Result<(), String>,
    pending: Result<i64, String>,
    stored: Result<i64, String>,
    bytes: Result<i64, String>,
) -> bool {
    match (opened, pending, stored, bytes) {
        (Err(e), _, _, _) => r matches Err(m) && m@ == sql::tagged("queue_stats open"@, e@),
        (Ok(_), Err(e), _, _) => r matches Err(m) && m@ == sql::tagged("queue_stats pending"@, e@),
        (Ok(_), Ok(_), Err(e), _) => r matches Err(m) && m@ == sql::tagged(
            "queue_stats stored"@,
            e@,
        ),
        (Ok(_), Ok(_), Ok(_), Err(e)) => r matches Err(m) && m@ == sql::tagged(
            "queue_stats bytes"@,
            e@,
        ),
        (Ok(_), Ok(p), Ok(s), Ok(b)) => r matches Ok(t) && t == (p, s, b),
    }
}

pub fn queue_stats(
    opened: Result<(), String>,
    pending: Result<i64, String>,
    stored: Result<i64, String>,
    bytes: Result<i64, String>,
) -> (r: Result<(i64, i64, i64), String>)
    ensures
        is_queue_stats(r, opened, pending, stored, bytes),
{
    let p: i64 = match opened {
        Err(e) => {
            return Err(tag_error("queue_stats open", e.as_str()));
        },
        Ok(_) => match pending {
            Err(e) => {
                return Err(tag_error("queue_stats pending", e.as_str()));
            },
            Ok(p) => p,
        },
    };
    let s: i64 = match stored {
        Err(e) => {
            return Err(tag_error("queue_stats stored", e.as_str()));
        },
        Ok(s) => s,
    };
    match bytes {
        Err(e) => Err(tag_error("queue_stats bytes", e.as_str())),
        Ok(b) => Ok((p, s, b)),
    }
}

/// The queries that find which of `ids` are stored: one for each 512 ids. None
/// is asked for an empty list.
pub fn stored_url_map(ids: &Vec<i64>) -> (r: Vec<IdStatement>)
    ensures
        sql::are_id_statements(
            r@,
            ids@,
            512,
            "SELECT post_id FROM media_entries WHERE post_id IN ("@,
            ")"@,
        ),
{
    id_statements(ids, 512, "SELECT post_id FROM media_entries WHERE post_id IN (", ")")
}

/// The statement that forgets some posts, bound to their ids in order; for none
/// there is nothing to run and nothing is deleted.
pub fn delete_media_entries(post_ids: &Vec<i64>) -> (r: Option<String>)
    ensures
        match r {
            Some(s) => post_ids@.len() > 0 && s@
                == "DELETE FROM media_entries WHERE post_id IN ("@ + sql::marks(post_ids@.len())
                + ")"@,
            None => post_ids@.len() == 0,
        },
{
    if post_ids.len() == 0 {
        return None;
    }
    let mut text = String::from_str("DELETE FROM media_entries WHERE post_id IN (");
    text.append(placeholders(post_ids.len()).as_str());
    text.append(")");
    Some(text)
}

/// The statistics are the wanted originals, the stored ones and their bytes, in
/// this order, and there are none where any of the reads failed.
pub proof fn law_queue_stats(
    r: Result<(i64, i64, i64), String>,
    opened: Result<(), String>,
    pending: Result<i64, String>,
    stored: Result<i64, String>,
    bytes: Result<i64, String>,
)
    requires
        is_queue_stats(r, opened, pending, stored, bytes),
    ensures
        r is Ok <==> opened is Ok && pending is Ok && stored is Ok && bytes is Ok,
        r is Ok ==> r->Ok_0.0 == pending->Ok_0 && r->Ok_0.1 == stored->Ok_0 && r->Ok_0.2
            == bytes->Ok_0,
{
}

/// A read gives what the query gave, and fails where the database or the query did.
pub proof fn law_read<T>(
    r: Result<T, String>,
    name: Seq<char>,
    opened: Result<(), String>,
    value: Result<T, String>,
)
    requires
        is_read(r, name, opened, value),
    ensures
        r is Ok <==> opened is Ok && value is Ok,
        r is Ok ==> r->Ok_0 == value->Ok_0,
        opened is Err ==> r->Err_0@ == name + " open"@ + ": "@ + opened->Err_0@,
        opened is Ok && value is Err ==> r->Err_0@ == name + ": "@ + value->Err_0@,
{
}

} // verus!
