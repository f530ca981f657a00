//! Where stored originals live, and which of them go when room is short.

use vstd::prelude::*;

use crate::db::media::MediaEntry;
use crate::db::sql;
use crate::db::sql::tag_error;
use crate::models::Post;
use crate::tally;
use crate::text;
use crate::text::{chars_of, dec_i64};

verus! {

// ---------------------------------------------------------------------------
// Paths
// ---------------------------------------------------------------------------

/// The folder of the media cache.
pub fn cache_dir() -> (r: &'static str)
    ensures
        r@ == "media"@,
{
    "media"
}

/// A character that may stand in a stored extension.
pub open spec fn is_ext_char(c: char) -> bool {
    ||| '0' <= c <= '9'
    ||| 'A' <= c <= 'Z'
    ||| 'a' <= c <= 'z'
    ||| c == '_'
}

/// An extension reduced to letters, digits and `_`.
pub open spec fn bare_ext(ext: Seq<char>) -> Seq<char> {
    ext.filter(|c: char| is_ext_char(c))
}

/// The extension a file is stored under: at most twelve bare characters, and
/// `bin` where none is left.
pub open spec fn stored_ext(ext: Seq<char>) -> Seq<char> {
    let bare = bare_ext(ext);
    if bare.len() == 0 {
        "bin"@
    } else if bare.len() > 12 {
        bare.take(12)
    } else {
        bare
    }
}

pub fn rel_ext(ext: &str) -> (r: String)
    ensures
        r@ == stored_ext(ext@),
{
    let v = chars_of(ext);
    let mut s = String::new();
    let mut n: usize = 0;
    let mut i: usize = 0;
    let ghost bare = bare_ext(ext@);
    proof {
        reveal(Seq::filter);
        assert(v@.take(0) =~= Seq::<char>::empty());
        assert(bare.take(0) =~= Seq::<char>::empty());
    }
    while i < v.len() && n < 12
        invariant
            i <= v.len(),
            v@ == ext@,
            n <= 12,
            s@.len() == n,
            s@ == bare_ext(v@.take(i as int)),
        decreases v.len() - i,
    {
        let c = v[i];
        proof {
            reveal(Seq::filter);
            assert(v@.take(i + 1).drop_last() =~= v@.take(i as int));
            assert(v@.take(i + 1).last() == c);
        }
        if (c >= '0' && c <= '9') || (c >= 'A' && c <= 'Z') || (c >= 'a' && c <= 'z') || c == '_' {
            s.push(c);
            n += 1;
        }
        i += 1;
    }
    proof {
        lemma_filter_prefix(v@, i as int);
        if i == v.len() {
            assert(v@.take(i as int) =~= v@);
        } else {
            assert(bare.take(12) =~= s@);
            assert(bare.len() == 12 ==> bare =~= s@);
        }
    }
    if n == 0 {
        return String::from_str("bin");
    }
    s
}

/// What a prefix keeps stands in front of what the whole keeps.
proof fn lemma_filter_prefix(s: Seq<char>, i: int)
    requires
        0 <= i <= s.len(),
    ensures
        bare_ext(s.take(i)).len() <= bare_ext(s).len(),
        bare_ext(s).take(bare_ext(s.take(i)).len() as int) == bare_ext(s.take(i)),
    decreases s.len(),
{
    reveal(Seq::filter);
    if i < s.len() {
        lemma_filter_prefix(s.drop_last(), i);
        assert(s.drop_last().take(i) =~= s.take(i));
        let a = bare_ext(s.drop_last());
        let n = bare_ext(s.take(i)).len() as int;
        assert(bare_ext(s).take(n) =~= a.take(n));
    } else {
        assert(s.take(i) =~= s);
        let b = bare_ext(s);
        assert(b.take(b.len() as int) =~= b);
    }
}

proof fn lemma_bare(s: Seq<char>)
    ensures
        forall|k: int| 0 <= k < bare_ext(s).len() ==> is_ext_char(#[trigger] bare_ext(s)[k]),
    decreases s.len(),
{
    reveal(Seq::filter);
    if s.len() > 0 {
        lemma_bare(s.drop_last());
    }
}

/// The remainder by 100, with the sign of the number.
pub open spec fn shard(post_id: int) -> int {
    if post_id >= 0 {
        post_id % 100
    } else {
        -((-post_id) % 100)
    }
}

/// The folder of a shard: at least two characters.
pub open spec fn shard_text(n: int) -> Seq<char> {
    if 0 <= n < 10 {
        "0"@ + text::dec(n)
    } else {
        text::dec(n)
    }
}

/// The place of a post's original under the media folder.
pub open spec fn rel_path(post_id: int, ext: Seq<char>) -> Seq<char> {
    shard_text(shard(post_id)) + "/"@ + text::dec(post_id) + "."@ + stored_ext(ext)
}

pub fn rel_path_for(post_id: i64, ext: &str) -> (r: String)
    ensures
        r@ == rel_path(post_id as int, ext@),
{
    let n: i64 = if post_id >= 0 {
        post_id % 100
    } else if post_id == i64::MIN {
        -8
    } else {
        -((-post_id) % 100)
    };
    let mut s = String::new();
    if n >= 0 && n < 10 {
        s.append("0");
    }
    s.append(dec_i64(n).as_str());
    proof {
        assert(s@ =~= shard_text(shard(post_id as int)));
    }
    s.append("/");
    s.append(dec_i64(post_id).as_str());
    s.append(".");
    s.append(rel_ext(ext).as_str());
    s
}

/// A character that parts the components of a path: the slash, and on Windows the
/// backslash too.
pub open spec fn is_separator(c: char, windows: bool) -> bool {
    c == '/' || (windows && c == '\\')
}

/// An ASCII letter, which names a drive.
pub open spec fn is_drive_letter(c: char) -> bool {
    'a' <= c <= 'z' || 'A' <= c <= 'Z'
}

/// A `..` stands between separators or ends.
pub open spec fn climbs_at(s: Seq<char>, i: int, windows: bool) -> bool {
    &&& 0 <= i
    &&& i + 2 <= s.len()
    &&& s[i] == '.'
    &&& s[i + 1] == '.'
    &&& i == 0 || is_separator(s[i - 1], windows)
    &&& i + 2 == s.len() || is_separator(s[i + 2], windows)
}

/// The path has a component that leads out of its folder.
pub open spec fn climbs(s: Seq<char>, windows: bool) -> bool {
    exists|i: int| #[trigger] climbs_at(s, i, windows)
}

/// The path starts at a root or, on whatever platform, at a drive.
pub open spec fn is_rooted(s: Seq<char>, windows: bool) -> bool {
    ||| s.len() > 0 && is_separator(s[0], windows)
    ||| s.len() > 1 && is_drive_letter(s[0]) && s[1] == ':'
}

/// Whether a stored path stays inside the media folder.
pub open spec fn stays_inside(s: Seq<char>, windows: bool) -> bool {
    !is_rooted(s, windows) && !climbs(s, windows)
}

fn separates(c: char, windows: bool) -> (r: bool)
    ensures
        r == is_separator(c, windows),
{
    c == '/' || (windows && c == '\\')
}

fn names_drive(c: char) -> (r: bool)
    ensures
        r == is_drive_letter(c),
{
    (c >= 'a' && c <= 'z') || (c >= 'A' && c <= 'Z')
}

fn path_stays_inside(rel: &str, windows: bool) -> (r: bool)
    ensures
        r == stays_inside(rel@, windows),
{
    let v = chars_of(rel);
    if v.len() > 0 && separates(v[0], windows) {
        return false;
    }
    if v.len() > 1 && names_drive(v[0]) && v[1] == ':' {
        return false;
    }
    let mut i: usize = 0;
    while i < v.len()
        invariant
            i <= v.len(),
            v@ == rel@,
            forall|k: int| 0 <= k < i ==> !(#[trigger] climbs_at(rel@, k, windows)),
        decreases v.len() - i,
    {
        if v.len() - i >= 2 && v[i] == '.' && v[i + 1] == '.' && (i == 0 || separates(v[i - 1], windows))
            && (v.len() - i == 2 || separates(v[i + 2], windows)) {
            proof {
                assert(climbs_at(rel@, i as int, windows));
            }
            return false;
        }
        i += 1;
    }
    true
}

/// The path of a stored original from the working folder: none where the stored
/// path would lead out of the media folder. Whether the file exists is for the
/// caller to see.
pub fn stored_path(rel: &str, windows: bool) -> (r: Option<String>)
    ensures
        match r {
            Some(p) => stays_inside(rel@, windows) && p@ == "media"@ + "/"@ + rel@,
            None => !stays_inside(rel@, windows),
        },
{
    if !path_stays_inside(rel, windows) {
        return None;
    }
    let mut p = String::from_str(cache_dir());
    p.append("/");
    p.append(rel);
    Some(p)
}

/// The path a file is written to before it takes its place.
pub fn temporary_path(post_id: i64, ext: &str) -> (r: String)
    ensures
        r@ == "media"@ + "/"@ + rel_path(post_id as int, ext@) + ".tmp"@,
{
    let mut p = String::from_str(cache_dir());
    p.append("/");
    p.append(rel_path_for(post_id, ext).as_str());
    p.append(".tmp");
    p
}

proof fn lemma_dec_nat_digits(n: nat)
    ensures
        text::dec_nat(n).len() > 0,
        forall|k: int| 0 <= k < text::dec_nat(n).len() ==> '0' <= #[trigger] text::dec_nat(n)[k] <= '9',
    decreases n,
{
    if n >= 10 {
        lemma_dec_nat_digits(n / 10);
    }
}

/// Every path that originals are stored under stays inside the media folder,
/// whatever the extension and the platform.
pub proof fn law_stored_paths_stay_inside(post_id: int, ext: Seq<char>, windows: bool)
    ensures
        stays_inside(rel_path(post_id, ext), windows),
{
    reveal_strlit("0");
    reveal_strlit("/");
    reveal_strlit(".");
    reveal_strlit("bin");
    let n = shard(post_id);
    lemma_dec_nat_digits(n as nat);
    lemma_dec_nat_digits((-n) as nat);
    lemma_dec_nat_digits(post_id as nat);
    lemma_dec_nat_digits((-post_id) as nat);
    lemma_bare(ext);
    let folder = shard_text(n);
    let name = text::dec(post_id);
    let tail = stored_ext(ext);
    assert(forall|k: int| 0 <= k < tail.len() ==> is_ext_char(#[trigger] tail[k]));
    let p = rel_path(post_id, ext);
    let dot = folder.len() + 1 + name.len();
    assert(folder.len() >= 1);
    assert(forall|k: int|
        0 <= k < folder.len() ==> (#[trigger] folder[k]) != '.' && folder[k] != '/' && folder[k]
            != ':' && folder[k] != '\\');
    assert(forall|k: int| 0 <= k < name.len() ==> (#[trigger] name[k]) != '.');
    assert(p[0] == folder[0]);
    assert(p[1] != ':') by {
        if folder.len() >= 2 {
            assert(p[1] == folder[1]);
        } else {
            assert(p[1] == '/');
        }
    }
    assert forall|k: int| 0 <= k < p.len() && k != dot implies (#[trigger] p[k]) != '.' by {
        if k < folder.len() {
            assert(p[k] == folder[k]);
        } else if k == folder.len() {
            assert(p[k] == '/');
        } else if k < dot {
            assert(p[k] == name[k - folder.len() - 1]);
        } else {
            assert(p[k] == tail[k - dot - 1]);
        }
    }
    if climbs(p, windows) {
        let i = choose|i: int| #[trigger] climbs_at(p, i, windows);
        assert(p[i] == '.' && p[i + 1] == '.');
    }
}

// ---------------------------------------------------------------------------
// The budget
// ---------------------------------------------------------------------------

/// The bytes of all stored originals; none where the index cannot be read.
pub fn indexed_bytes(counted: Result<i64, String>) -> (r: i64)
    ensures
        r == (match counted {
            Ok(n) => n,
            Err(_) => 0,
        }),
{
    match counted {
        Ok(n) => n,
        Err(_) => 0,
    }
}

/// How many entries one round of an eviction takes.
pub const EVICTION_BATCH: i64 = 16;

/// An eviction: the budget and what went so far.
#[derive(Debug)]
pub struct Eviction {
    pub max_bytes: u64,
    pub evicted: usize,
}

/// One round: the files to remove and the entries to forget.
#[derive(Debug)]
pub struct EvictionRound {
    pub paths: Vec<String>,
    pub ids: Vec<i64>,
}

/// The paths of those entries whose path stays inside the media folder.
pub open spec fn removable(entries: Seq<MediaEntry>, windows: bool) -> Seq<Seq<char>>
    decreases entries.len(),
{
    if entries.len() == 0 {
        Seq::empty()
    } else {
        let rest = removable(entries.drop_last(), windows);
        if stays_inside(entries.last().rel_path@, windows) {
            rest.push("media"@ + "/"@ + entries.last().rel_path@)
        } else {
            rest
        }
    }
}

pub open spec fn entry_ids(entries: Seq<MediaEntry>) -> Seq<i64> {
    entries.map_values(|e: MediaEntry| e.post_id)
}

/// The files to remove for some entries, and the ids of all of them.
pub fn removal_of(entries: &Vec<MediaEntry>, windows: bool) -> (r: EvictionRound)
    ensures
        text::views(r.paths@) == removable(entries@, windows),
        r.ids@ == entry_ids(entries@),
{
    let mut paths: Vec<String> = Vec::new();
    let mut ids: Vec<i64> = Vec::new();
    let mut i: usize = 0;
    proof {
        assert(text::views(paths@) =~= removable(entries@.take(0), windows));
    }
    while i < entries.len()
        invariant
            i <= entries.len(),
            text::views(paths@) == removable(entries@.take(i as int), windows),
            ids@ == entry_ids(entries@.take(i as int)),
        decreases entries.len() - i,
    {
        let ghost before = paths@;
        proof {
            assert(entries@.take(i + 1).drop_last() =~= entries@.take(i as int));
        }
        match stored_path(entries[i].rel_path.as_str(), windows) {
            Some(p) => {
                paths.push(p);
                proof {
                    assert(text::views(paths@) =~= text::views(before).push(p@));
                }
            },
            None => {},
        }
        ids.push(entries[i].post_id);
        proof {
            assert(entry_ids(entries@.take(i + 1)) =~= entry_ids(entries@.take(i as int)).push(
                entries@[i as int].post_id,
            ));
        }
        i += 1;
    }
    proof {
        assert(entries@.take(entries@.len() as int) =~= entries@);
    }
    EvictionRound { paths, ids }
}

/// Starts an eviction. A budget of zero means no limit: nothing is evicted.
pub fn evict_to_budget(max_bytes: u64) -> (r: Option<Eviction>)
    ensures
        match r {
            Some(e) => max_bytes > 0 && e.max_bytes == max_bytes && e.evicted == 0,
            None => max_bytes == 0,
        },
{
    if max_bytes == 0 {
        None
    } else {
        Some(Eviction { max_bytes, evicted: 0 })
    }
}

impl Eviction {
    /// Whether another round is due, given the bytes on disk.
    pub fn over_budget(&self, total: i64) -> (r: bool)
        ensures
            r == (total > self.max_bytes),
    {
        total > 0 && total as u64 > self.max_bytes
    }

    /// The next round, from the oldest entries; none ends the eviction.
    pub fn round(&self, candidates: Result<Vec<MediaEntry>, String>, windows: bool) -> (r: Option<
        EvictionRound,
    >)
        ensures
            match candidates {
                Ok(c) => match r {
                    Some(x) => c@.len() > 0 && text::views(x.paths@) == removable(c@, windows) && x.ids@
                        == entry_ids(c@),
                    None => c@.len() == 0,
                },
                Err(_) => r is None,
            },
    {
        match candidates {
            Ok(c) => if c.len() == 0 {
                None
            } else {
                Some(removal_of(&c, windows))
            },
            Err(_) => None,
        }
    }

    /// Books a round whose entries were forgotten. A failed one ends the
    /// eviction: the result says whether to go on.
    pub fn booked(&mut self, round_len: usize, forgotten: bool) -> (r: bool)
        requires
            old(self).evicted + round_len <= usize::MAX,
        ensures
            final(self).max_bytes == old(self).max_bytes,
            r == forgotten,
            final(self).evicted == (if forgotten {
                old(self).evicted + round_len
            } else {
                old(self).evicted as int
            }),
    {
        if forgotten {
            self.evicted = self.evicted + round_len;
        }
        forgotten
    }
}

/// What to do about a post whose original is gone, given its index entry: where
/// it has none, nothing; else the file at the path, if any, goes and the entry
/// is forgotten.
pub fn delete_and_unindex(entry: Result<Option<String>, String>, windows: bool) -> (r: Result<
    Option<Option<String>>,
    String,
>)
    ensures
        match entry {
            Err(e) => r == Err::<Option<Option<String>>, String>(e),
            Ok(None) => r matches Ok(None),
            Ok(Some(rel)) => match r {
                Ok(Some(Some(p))) => stays_inside(rel@, windows) && p@ == "media"@ + "/"@ + rel@,
                Ok(Some(None)) => !stays_inside(rel@, windows),
                _ => false,
            },
        },
{
    match entry {
        Err(e) => Err(e),
        Ok(None) => Ok(None),
        Ok(Some(rel)) => Ok(Some(stored_path(rel.as_str(), windows))),
    }
}

/// Whether the entry of a gone original was forgotten.
pub fn unindexed(forgotten: Result<usize, String>) -> (r: Result<bool, String>)
    ensures
        match forgotten {
            Ok(_) => r == Ok::<bool, String>(true),
            Err(e) => r matches Err(m) && m@ == sql::tagged("delete_and_unindex"@, e@),
        },
{
    match forgotten {
        Ok(_) => Ok(true),
        Err(e) => Err(tag_error("delete_and_unindex", e.as_str())),
    }
}

/// What to remove to clear the cache: every file inside the media folder.
pub fn clear_cache(entries: Result<Vec<MediaEntry>, String>, windows: bool) -> (r: Result<
    EvictionRound,
    String,
>)
    ensures
        match entries {
            Ok(v) => match r {
                Ok(x) => text::views(x.paths@) == removable(v@, windows) && x.ids@ == entry_ids(v@),
                Err(_) => false,
            },
            Err(e) => r matches Err(m) && m@ == sql::tagged("clear_cache list"@, e@),
        },
{
    match entries {
        Ok(v) => Ok(removal_of(&v, windows)),
        Err(e) => Err(tag_error("clear_cache list", e.as_str())),
    }
}

// ---------------------------------------------------------------------------
// Local URLs
// ---------------------------------------------------------------------------

/// The address of a stored original.
pub open spec fn local_url(post_id: int) -> Seq<char> {
    "/api/media/"@ + text::dec(post_id) + "?size=original"@
}

/// A URL that was present is replaced; an absent one stays absent.
pub open spec fn url_replaced(a: Option<String>, b: Option<String>, url: Seq<char>) -> bool {
    match a {
        Some(_) => b matches Some(u) && u@ == url,
        None => b is None,
    }
}

/// `b` is `a` with each of its media URLs replaced.
pub open spec fn is_localised(a: Post, b: Post) -> bool {
    let url = local_url(a.id as int);
    &&& match (a.file, b.file) {
        (Some(x), Some(y)) => url_replaced(x.url, y.url, url) && y == (crate::models::FileInfo {
            url: y.url,
            ..x
        }),
        (x, y) => x is None && y is None,
    }
    &&& match (a.preview, b.preview) {
        (Some(x), Some(y)) => url_replaced(x.url, y.url, url) && y == (crate::models::Preview {
            url: y.url,
            ..x
        }),
        (x, y) => x is None && y is None,
    }
    &&& match (a.sample, b.sample) {
        (Some(x), Some(y)) => url_replaced(x.url, y.url, url) && y == (crate::models::Sample {
            url: y.url,
            ..x
        }),
        (x, y) => x is None && y is None,
    }
    &&& b == (Post { file: b.file, preview: b.preview, sample: b.sample, ..a })
}

fn replace_url(url: &mut Option<String>, local: &str)
    ensures
        url_replaced(*old(url), *final(url), local@),
{
    if url.is_some() {
        *url = Some(String::from_str(local));
    }
}

fn localise(p: &mut Post)
    ensures
        is_localised(*old(p), *final(p)),
{
    let mut local = String::from_str("/api/media/");
    local.append(dec_i64(p.id).as_str());
    local.append("?size=original");
    match &mut p.file {
        Some(f) => replace_url(&mut f.url, local.as_str()),
        None => {},
    }
    match &mut p.preview {
        Some(f) => replace_url(&mut f.url, local.as_str()),
        None => {},
    }
    match &mut p.sample {
        Some(f) => replace_url(&mut f.url, local.as_str()),
        None => {},
    }
}

fn holds_id(ids: &Vec<i64>, id: i64) -> (r: bool)
    ensures
        r == ids@.contains(id),
{
    let mut i: usize = 0;
    while i < ids.len()
        invariant
            i <= ids.len(),
            forall|k: int| 0 <= k < i ==> ids@[k] != id,
        decreases ids.len() - i,
    {
        if ids[i] == id {
            return true;
        }
        i += 1;
    }
    false
}

/// Points the media URLs of stored posts at the local originals. Where the index
/// cannot be read, every post stays as it is.
pub fn rewrite_local_media_urls(posts: &mut Vec<Post>, stored: Result<Vec<i64>, String>)
    ensures
        final(posts)@.len() == old(posts)@.len(),
        forall|k: int|
            #![trigger final(posts)@[k]]
            0 <= k < old(posts)@.len() ==> if stored is Ok && stored->Ok_0@.contains(
                old(posts)@[k].id,
            ) {
                is_localised(old(posts)@[k], final(posts)@[k])
            } else {
                final(posts)@[k] == old(posts)@[k]
            },
{
    let ids = match stored {
        Ok(ids) => ids,
        Err(_) => {
            return;
        },
    };
    let ghost before = posts@;
    let mut i: usize = 0;
    while i < posts.len()
        invariant
            i <= posts.len(),
            posts@.len() == before.len(),
            forall|k: int| i <= k < before.len() ==> #[trigger] posts@[k] == before[k],
            forall|k: int|
                #![trigger posts@[k]]
                0 <= k < i ==> if ids@.contains(before[k].id) {
                    is_localised(before[k], posts@[k])
                } else {
                    posts@[k] == before[k]
                },
        decreases posts.len() - i,
    {
        if holds_id(&ids, posts[i].id) {
            localise(&mut posts[i]);
        }
        i += 1;
    }
}

/// Pointing URLs at the local originals changes no post but in its URLs, and
/// doing it twice changes nothing more.
pub proof fn law_localised_once(a: Post, b: Post, c: Post)
    requires
        is_localised(a, b),
        is_localised(b, c),
    ensures
        b.id == a.id,
        is_localised(a, c),
        b.tags == a.tags && b.score == a.score && b.rating == a.rating,
{
}

// ---------------------------------------------------------------------------
// What paths and URLs say
// ---------------------------------------------------------------------------

proof fn lemma_all_bare(s: Seq<char>)
    requires
        forall|k: int| 0 <= k < s.len() ==> is_ext_char(#[trigger] s[k]),
    ensures
        bare_ext(s) == s,
    decreases s.len(),
{
    reveal(Seq::filter);
    if s.len() > 0 {
        assert forall|k: int| 0 <= k < s.drop_last().len() implies is_ext_char(
            #[trigger] s.drop_last()[k],
        ) by {
            assert(s.drop_last()[k] == s[k]);
        }
        lemma_all_bare(s.drop_last());
        assert(s[s.len() - 1] == s.last());
        assert(s.drop_last().push(s.last()) =~= s);
    } else {
        assert(bare_ext(s) =~= s);
    }
}

/// A stored extension has one to twelve letters, digits or underscores and nothing
/// else; one that is already so stays as it is.
pub proof fn law_stored_extension(ext: Seq<char>)
    ensures
        1 <= stored_ext(ext).len() <= 12,
        forall|k: int| 0 <= k < stored_ext(ext).len() ==> is_ext_char(#[trigger] stored_ext(ext)[k]),
        1 <= ext.len() <= 12 && (forall|k: int|
            0 <= k < ext.len() ==> is_ext_char(#[trigger] ext[k])) ==> stored_ext(ext) == ext,
        stored_ext(stored_ext(ext)) == stored_ext(ext),
{
    reveal_strlit("bin");
    lemma_bare(ext);
    let out = stored_ext(ext);
    assert forall|k: int| 0 <= k < out.len() implies is_ext_char(#[trigger] out[k]) by {
        if bare_ext(ext).len() > 0 {
            assert(out[k] == bare_ext(ext)[k]);
        }
    }
    lemma_all_bare(out);
    if 1 <= ext.len() <= 12 && (forall|k: int|
        0 <= k < ext.len() ==> is_ext_char(#[trigger] ext[k])) {
        lemma_all_bare(ext);
    }
}

/// A character of an extension is kept exactly where it is a letter, a digit or an
/// underscore, as often as it is there.
pub proof fn law_bare_extension(ext: Seq<char>, c: char)
    ensures
        tally::times(bare_ext(ext), c) == (if '0' <= c <= '9' || 'A' <= c <= 'Z' || 'a' <= c <= 'z'
            || c == '_' {
            tally::times(ext, c)
        } else {
            0
        }),
{
    tally::lemma_times_filter(ext, |x: char| is_ext_char(x), c);
}

/// The folder of a post is named by the last two digits of its id.
pub proof fn law_folder_of_a_post(post_id: int)
    requires
        0 <= post_id,
    ensures
        shard_text(shard(post_id)) == seq![
            text::digit(post_id / 10 % 10),
            text::digit(post_id % 10),
        ],
{
    let n = post_id % 100;
    assert(n / 10 == post_id / 10 % 10 && n % 10 == post_id % 10);
    reveal_with_fuel(text::dec_nat, 3);
    reveal_strlit("0");
    if n < 10 {
        assert(shard_text(n) =~= seq!['0', text::digit(n)]);
        assert(text::digit(0) == '0');
        assert(shard_text(n) =~= seq![text::digit(n / 10), text::digit(n % 10)]);
    } else {
        assert(shard_text(n) =~= seq![text::digit(n / 10), text::digit(n % 10)]);
    }
}

/// A file stands in its folder under the id of its post and its stored extension.
pub proof fn law_place_of_a_file(post_id: int, ext: Seq<char>)
    requires
        0 <= post_id,
    ensures
        rel_path(post_id, ext) == seq![text::digit(post_id / 10 % 10), text::digit(post_id % 10)]
            + "/"@ + text::dec(post_id) + "."@ + stored_ext(ext),
{
    law_folder_of_a_post(post_id);
}

/// A path that climbs out of its folder, at its beginning or behind a slash, or
/// that starts at the root, is refused on every platform; on Windows a backslash
/// parts as a slash does.
pub proof fn law_escapes_are_refused(a: Seq<char>, b: Seq<char>, windows: bool)
    ensures
        !stays_inside(a + seq!['/', '.', '.', '/'] + b, windows),
        !stays_inside(a + seq!['/', '.', '.'], windows),
        !stays_inside(seq!['.', '.', '/'] + b, windows),
        !stays_inside(seq!['.', '.'], windows),
        !stays_inside(seq!['/'] + b, windows),
        !stays_inside(seq!['c', ':'] + b, windows),
        !stays_inside(a + seq!['\\', '.', '.', '\\'] + b, true),
        !stays_inside(seq!['\\'] + b, true),
{
    let n = a.len() as int;
    assert(climbs_at(a + seq!['/', '.', '.', '/'] + b, n + 1, windows));
    assert(climbs_at(a + seq!['/', '.', '.'], n + 1, windows));
    assert(climbs_at(seq!['.', '.', '/'] + b, 0, windows));
    assert(climbs_at(seq!['.', '.'], 0, windows));
    assert((seq!['/'] + b)[0] == '/');
    assert((seq!['c', ':'] + b)[0] == 'c' && (seq!['c', ':'] + b)[1] == ':');
    assert(climbs_at(a + seq!['\\', '.', '.', '\\'] + b, n + 1, true));
    assert((seq!['\\'] + b)[0] == '\\');
}

/// A path without dots, colons, slashes in front and backslashes stays inside.
pub proof fn law_plain_paths_stay_inside(s: Seq<char>, windows: bool)
    requires
        forall|k: int|
            0 <= k < s.len() ==> #[trigger] s[k] != '.' && s[k] != ':' && s[k] != '\\',
        s.len() > 0 ==> s[0] != '/',
    ensures
        stays_inside(s, windows),
{
    if climbs(s, windows) {
        let i = choose|i: int| #[trigger] climbs_at(s, i, windows);
        assert(s[i] == '.');
    }
}

/// The files to remove are those of the entries whose path stays inside, in order.
pub proof fn law_removable_files(entries: Seq<MediaEntry>, windows: bool)
    ensures
        removable(entries, windows) == entries.filter(
            |e: MediaEntry| stays_inside(e.rel_path@, windows),
        ).map_values(|e: MediaEntry| "media"@ + "/"@ + e.rel_path@),
    decreases entries.len(),
{
    reveal(Seq::filter);
    let inside = |e: MediaEntry| stays_inside(e.rel_path@, windows);
    let path = |e: MediaEntry| "media"@ + "/"@ + e.rel_path@;
    if entries.len() == 0 {
        assert(entries.filter(inside).map_values(path) =~= Seq::<Seq<char>>::empty());
    } else {
        let init = entries.drop_last();
        law_removable_files(init, windows);
        if inside(entries.last()) {
            assert(init.filter(inside).push(entries.last()).map_values(path) =~= init.filter(
                inside,
            ).map_values(path).push(path(entries.last())));
        }
    }
}

/// A post that points at its stored original has that address wherever it had one,
/// and its sizes and everything else as before.
pub proof fn law_localised_urls(a: Post, b: Post)
    requires
        is_localised(a, b),
    ensures
        ({
            let url = "/api/media/"@ + text::dec(a.id as int) + "?size=original"@;
            &&& a.file is Some ==> b.file is Some && b.file->0.width == a.file->0.width
                && b.file->0.size == a.file->0.size && b.file->0.ext == a.file->0.ext
            &&& a.file is Some && a.file->0.url is Some ==> b.file->0.url is Some
                && b.file->0.url->0@ == url
            &&& a.file is Some && a.file->0.url is None ==> b.file->0.url is None
            &&& a.preview is Some && a.preview->0.url is Some ==> b.preview is Some
                && b.preview->0.url is Some && b.preview->0.url->0@ == url
            &&& a.sample is Some && a.sample->0.url is Some ==> b.sample is Some
                && b.sample->0.url is Some && b.sample->0.url->0@ == url
            &&& a.file is None ==> b.file is None
            &&& a.preview is None ==> b.preview is None
            &&& a.sample is None ==> b.sample is None
        }),
{
}

} // verus!
