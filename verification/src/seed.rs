//! The selection of accounts to import for calibration.

use std::collections::HashSet;

use vstd::prelude::*;

use crate::db::cooccurrence;
use crate::db::cooccurrence::to_lowercase;
use crate::db::feed;
use crate::models;
use crate::models::{Post, Tags};
use crate::order;
use crate::order::sort_ints;
use crate::tally;
use crate::text;
use crate::text::{contains_text, dec_i64, parse_u64, trim};

verus! {

// ---------------------------------------------------------------------------
// Targets
// ---------------------------------------------------------------------------

/// How many accounts to import: the argument where it is a number, else 500.
pub open spec fn target_of(arg: Option<Seq<char>>) -> int {
    match arg {
        Some(s) => match text::unsigned_number(s) {
            Some(n) => if n <= usize::MAX {
                n as int
            } else {
                500
            },
            None => 500,
        },
        None => 500,
    }
}

pub fn seed_target(arg: Option<&str>) -> (r: usize)
    ensures
        r == target_of(
            match arg {
                Some(s) => Some(s@),
                None => None,
            },
        ),
{
    match arg {
        Some(s) => match parse_u64(s) {
            Some(n) => if n <= usize::MAX as u64 {
                n as usize
            } else {
                500
            },
            None => 500,
        },
        None => 500,
    }
}

/// How many candidates to look at: three times the target, and at least fifty
/// more than it.
pub fn pool_size(target: usize) -> (r: usize)
    requires
        target * 3 <= usize::MAX,
        target + 50 <= usize::MAX,
    ensures
        r == (if target * 3 > target + 50 {
            target * 3
        } else {
            target + 50
        }),
{
    let triple: usize = target * 3;
    let more: usize = target + 50;
    if triple > more {
        triple
    } else {
        more
    }
}

// ---------------------------------------------------------------------------
// Candidates
// ---------------------------------------------------------------------------

/// A user as a search lists them.
#[derive(Clone, Copy, Debug, PartialEq, Eq, Structural)]
pub struct FoundUser {
    pub id: i64,
    pub is_banned: bool,
    pub level: i32,
}

/// The ids of the users that may be imported: not banned, and of level ten or
/// more.
pub open spec fn importable(users: Seq<FoundUser>) -> Seq<i64>
    decreases users.len(),
{
    if users.len() == 0 {
        Seq::empty()
    } else {
        let rest = importable(users.drop_first());
        if users[0].is_banned || users[0].level < 10 {
            rest
        } else {
            seq![users[0].id] + rest
        }
    }
}

/// The candidates found so far.
pub struct Discovery {
    pub out: Vec<i64>,
    pub seen: HashSet<i64>,
    pub want: usize,
}

impl Discovery {
    pub open spec fn wf(&self) -> bool {
        self.seen@ == self.out@.to_set() && self.out@.no_duplicates()
    }

    pub fn new(want: usize) -> (r: Discovery)
        ensures
            r.wf(),
            r.out@.len() == 0,
            r.want == want,
    {
        let d = Discovery { out: Vec::new(), seen: HashSet::new(), want };
        proof {
            assert(d.seen@ =~= d.out@.to_set());
        }
        d
    }

    /// Whether another page is worth asking for.
    pub fn wants_more(&self) -> (r: bool)
        ensures
            r == (self.out@.len() < self.want),
    {
        self.out.len() < self.want
    }

    /// Books a page of users: each importable one once, until there are enough.
    /// An empty page ends the search: the result says whether to go on.
    pub fn discover_candidates(&mut self, users: &Vec<FoundUser>) -> (r: bool)
        requires
            old(self).wf(),
            old(self).out@.len() < old(self).want,
        ensures
            final(self).wf(),
            final(self).want == old(self).want,
            final(self).out@ == feed::with_stream(
                old(self).out@,
                importable(users@),
                old(self).want as int,
            ),
            r == (users@.len() > 0),
    {
        broadcast use vstd::std_specs::hash::group_hash_axioms;

        let ghost goal = feed::with_stream(self.out@, importable(users@), self.want as int);
        let ghost want = self.want;
        let mut i: usize = 0;
        proof {
            assert(users@.skip(0) =~= users@);
        }
        while i < users.len()
            invariant
                i <= users.len(),
                self.wf(),
                self.want == want,
                want == old(self).want,
                self.out@.len() < want,
                goal == feed::with_stream(
                    old(self).out@,
                    importable(users@),
                    old(self).want as int,
                ),
                feed::with_stream(self.out@, importable(users@.skip(i as int)), want as int)
                    == goal,
            decreases users.len() - i,
        {
            broadcast use vstd::std_specs::hash::group_hash_axioms;

            let u: FoundUser = users[i];
            let ghost tail = users@.skip(i as int);
            let ghost before = self.out@;
            proof {
                assert(tail[0] == u);
                assert(tail.drop_first() =~= users@.skip(i + 1));
                let ids = importable(tail);
                if !(u.is_banned || u.level < 10) {
                    assert(ids[0] == u.id);
                    assert(ids.drop_first() =~= importable(users@.skip(i + 1)));
                }
            }
            if !(u.is_banned || u.level < 10) {
                proof {
                    assert(before.to_set().contains(u.id) <==> before.contains(u.id));
                }
                if !self.seen.contains(&u.id) {
                    self.seen.insert(u.id);
                    self.out.push(u.id);
                    proof {
                        lemma_push(before, u.id);
                    }
                    if self.out.len() >= self.want {
                        proof {
                            assert(feed::with_stream(
                                self.out@,
                                importable(users@.skip(i + 1)),
                                want as int,
                            ) == self.out@);
                        }
                        return true;
                    }
                }
            }
            i += 1;
        }
        proof {
            assert(users@.skip(users@.len() as int).len() == 0);
        }
        users.len() > 0
    }
}

proof fn lemma_push(s: Seq<i64>, x: i64)
    requires
        s.no_duplicates(),
        !s.contains(x),
    ensures
        s.push(x).to_set() == s.to_set().insert(x),
        s.push(x).no_duplicates(),
{
    let t = s.push(x);
    assert forall|y: i64| t.to_set().contains(y) <==> s.to_set().insert(x).contains(y) by {
        if s.contains(y) {
            let k = choose|k: int| 0 <= k < s.len() && s[k] == y;
            assert(t[k] == y);
        }
        if t.contains(y) {
            let k = choose|k: int| 0 <= k < t.len() && t[k] == y;
            if k < s.len() {
                assert(s[k] == y);
            }
        }
        assert(t[s.len() as int] == x);
    }
    assert(t.to_set() =~= s.to_set().insert(x));
    assert forall|i: int, j: int| 0 <= i < t.len() && 0 <= j < t.len() && i != j implies t[i]
        != t[j] by {
        if i < s.len() && j < s.len() {
            assert(s[i] != s[j]);
        }
    }
}

// ---------------------------------------------------------------------------
// Selection
// ---------------------------------------------------------------------------

/// A user and how many favourites they have.
#[derive(Debug)]
pub struct Probed {
    pub id: i32,
    pub name: String,
    pub favorites: i32,
}

/// Users sort by falling favourite count.
pub open spec fn favorite_keys(users: Seq<Probed>) -> Seq<(i64, i64, i64)> {
    users.map_values(|u: Probed| ((-u.favorites) as i64, 0i64, 0i64))
}

/// The positions of `order` whose users are not imported yet.
pub open spec fn fresh_positions(users: Seq<Probed>, order: Seq<usize>, imported: Seq<i32>) -> Seq<
    usize,
>
    decreases order.len(),
{
    if order.len() == 0 {
        Seq::empty()
    } else {
        let rest = fresh_positions(users, order.drop_last(), imported);
        if imported.contains(users[order.last() as int].id) {
            rest
        } else {
            rest.push(order.last())
        }
    }
}

/// The first `target` of a list, or all of it.
pub open spec fn first_of(s: Seq<usize>, target: int) -> Seq<usize> {
    if s.len() > target {
        s.take(target)
    } else {
        s
    }
}

fn is_imported(imported: &Vec<i32>, id: i32) -> (r: bool)
    ensures
        r == imported@.contains(id),
{
    let mut i: usize = 0;
    while i < imported.len()
        invariant
            i <= imported.len(),
            forall|k: int| 0 <= k < i ==> imported@[k] != id,
        decreases imported.len() - i,
    {
        if imported[i] == id {
            return true;
        }
        i += 1;
    }
    false
}

/// The users to import: those with the most favourites that are not imported
/// yet, at most `target`, as positions in `users`. Users with as many stand in
/// the order they were probed.
pub fn select_users(users: &Vec<Probed>, imported: &Vec<i32>, target: usize) -> (r: Vec<usize>)
    ensures
        r@ == first_of(
            fresh_positions(users@, order::int_order(favorite_keys(users@)), imported@),
            target as int,
        ),
        r@.len() <= target,
        forall|i: int| 0 <= i < r@.len() ==> (#[trigger] r@[i]) < users@.len(),
        forall|i: int|
            0 <= i < r@.len() ==> !imported@.contains(users@[(#[trigger] r@[i]) as int].id),
{
    let mut keys: Vec<(i64, i64, i64)> = Vec::new();
    let mut i: usize = 0;
    while i < users.len()
        invariant
            i <= users.len(),
            keys@ == favorite_keys(users@.take(i as int)),
        decreases users.len() - i,
    {
        keys.push((-(users[i].favorites as i64), 0, 0));
        proof {
            let t = users@.take(i as int);
            assert(users@.take(i + 1) =~= t.push(users@[i as int]));
            assert(favorite_keys(t.push(users@[i as int])) =~= favorite_keys(t).push(
                ((-users@[i as int].favorites) as i64, 0i64, 0i64),
            ));
        }
        i += 1;
    }
    proof {
        assert(users@.take(users@.len() as int) =~= users@);
    }
    let ghost all = keys@;
    let order = sort_ints(keys);
    let mut out: Vec<usize> = Vec::new();
    let mut j: usize = 0;
    proof {
        assert(order@.take(0) =~= Seq::<usize>::empty());
    }
    while j < order.len() && out.len() < target
        invariant
            j <= order.len(),
            order.len() == users.len(),
            order::int_sort_order(all, order@),
            all.len() == users@.len(),
            out@ == fresh_positions(users@, order@.take(j as int), imported@),
            out@.len() <= target,
            forall|k: int| 0 <= k < out@.len() ==> (#[trigger] out@[k]) < users@.len(),
            forall|k: int|
                0 <= k < out@.len() ==> !imported@.contains(users@[(#[trigger] out@[k]) as int].id),
        decreases order.len() - j,
    {
        proof {
            let t = order@.take(j + 1);
            assert(t.drop_last() =~= order@.take(j as int));
            assert(t.last() == order@[j as int]);
            assert(order@[j as int] < users@.len());
        }
        if !is_imported(imported, users[order[j]].id) {
            out.push(order[j]);
        }
        j += 1;
    }
    proof {
        lemma_fresh_prefix(users@, order@, imported@, j as int);
        let full = fresh_positions(users@, order@, imported@);
        if j == order.len() {
            assert(order@.take(j as int) =~= order@);
        } else {
            assert(out@.len() == target);
            assert(full.take(target as int) =~= out@);
            if full.len() == target {
                assert(full =~= out@);
            }
        }
    }
    out
}

proof fn lemma_fresh_prefix(users: Seq<Probed>, order: Seq<usize>, imported: Seq<i32>, n: int)
    requires
        0 <= n <= order.len(),
    ensures
        fresh_positions(users, order.take(n), imported).len() <= fresh_positions(
            users,
            order,
            imported,
        ).len(),
        fresh_positions(users, order, imported).take(
            fresh_positions(users, order.take(n), imported).len() as int,
        ) == fresh_positions(users, order.take(n), imported),
    decreases order.len(),
{
    let part = fresh_positions(users, order.take(n), imported);
    if n < order.len() {
        lemma_fresh_prefix(users, order.drop_last(), imported, n);
        assert(order.drop_last().take(n) =~= order.take(n));
        let a = fresh_positions(users, order.drop_last(), imported);
        assert(fresh_positions(users, order, imported).take(part.len() as int) =~= a.take(
            part.len() as int,
        ));
    } else {
        assert(order.take(n) =~= order);
        assert(part.take(part.len() as int) =~= part);
    }
}

/// The least, the middle and the greatest favourite count of the chosen users,
/// who stand by falling count. Without users there is nothing to import.
pub fn selection_range(users: &Vec<Probed>, chosen: &Vec<usize>) -> (r: Result<
    (i32, i32, i32),
    String,
>)
    requires
        forall|i: int| 0 <= i < chosen@.len() ==> (#[trigger] chosen@[i]) < users@.len(),
    ensures
        if chosen@.len() == 0 {
            r matches Err(m) && m@ == "no users to import"@
        } else {
            r matches Ok(t) && t == (
                users@[chosen@.last() as int].favorites,
                users@[chosen@[chosen@.len() as int / 2] as int].favorites,
                users@[chosen@[0] as int].favorites,
            )
        },
{
    if chosen.len() == 0 {
        return Err(String::from_str("no users to import"));
    }
    let n: usize = chosen.len();
    proof {
        assert(chosen@[n - 1] < users@.len());
        assert(chosen@[n as int / 2] < users@.len());
        assert(chosen@[0] < users@.len());
    }
    Ok(
        (
            users[chosen[n - 1]].favorites,
            users[chosen[n / 2]].favorites,
            users[chosen[0]].favorites,
        ),
    )
}

// ---------------------------------------------------------------------------
// Import
// ---------------------------------------------------------------------------

/// How many pages some favourites fill. Division cuts off toward zero: a negative
/// size gives a number below one, and so no page.
pub open spec fn filled_pages(favorites: int, page_size: int) -> int {
    if page_size > 0 {
        favorites / page_size + if favorites % page_size > 0 {
            1int
        } else {
            0int
        }
    } else {
        -(favorites / -page_size) + if favorites % -page_size > 0 {
            1int
        } else {
            0int
        }
    }
}

/// How many pages of favourites to fetch: as many as they fill, up to the
/// configured number, which counts as at least one. A user without favourites is
/// refused.
pub fn favorite_pages(favorites: i32, page_size: i32, max_pages: i32) -> (r: Result<i32, String>)
    requires
        favorites > 0 ==> page_size != 0,
    ensures
        if favorites <= 0 {
            r matches Err(m) && m@ == "user has 0 favorites (private?)"@
        } else {
            let filled = filled_pages(favorites as int, page_size as int);
            let cap = if max_pages > 1 {
                max_pages as int
            } else {
                1
            };
            r matches Ok(n) && n == (if filled < cap {
                filled
            } else {
                cap
            })
        },
{
    if favorites <= 0 {
        return Err(String::from_str("user has 0 favorites (private?)"));
    }
    let f: i64 = favorites as i64;
    let size: i64 = if page_size > 0 {
        page_size as i64
    } else {
        -(page_size as i64)
    };
    let whole: i64 = f / size;
    let rest: i64 = if f % size > 0 {
        1
    } else {
        0
    };
    proof {
        assert(0 <= whole <= f) by (nonlinear_arith)
            requires
                f > 0,
                size > 0,
                whole == f as int / size as int,
        ;
    }
    let filled: i64 = if page_size > 0 {
        whole + rest
    } else {
        rest - whole
    };
    let cap: i64 = if max_pages > 1 {
        max_pages as i64
    } else {
        1
    };
    Ok(
        if filled < cap {
            filled as i32
        } else {
            cap as i32
        },
    )
}

/// What became of one page of favourites.
#[derive(Debug)]
pub enum PageOutcome {
    /// So many posts, fetched and saved.
    Saved(usize),
    /// An answer that could not be read.
    Malformed,
    /// No answer.
    NotFetched(String),
    /// The posts could not be saved.
    PostsNotSaved(String),
    /// The tags of the posts could not be saved.
    TagsNotSaved(String),
}

/// The import of a user, page by page.
#[derive(Clone, Copy, Debug, PartialEq, Eq, Structural)]
pub struct ImportRun {
    pub page: i32,
    pub pages: i32,
    pub total: usize,
    pub done: bool,
}

/// The stage at which a page failed, and why.
pub open spec fn page_failure(o: PageOutcome) -> Option<(Seq<char>, Seq<char>)> {
    match o {
        PageOutcome::NotFetched(e) => Some(("get_favorites page "@, e@)),
        PageOutcome::PostsNotSaved(e) => Some(("save_posts page "@, e@)),
        PageOutcome::TagsNotSaved(e) => Some(("save_tags page "@, e@)),
        _ => None,
    }
}

/// How many posts a page brought.
pub open spec fn page_posts(o: PageOutcome) -> int {
    match o {
        PageOutcome::Saved(n) => n as int,
        _ => 0,
    }
}

fn page_error(stage: &str, page: i32, cause: &str) -> (r: String)
    ensures
        r@ == stage@ + text::dec(page as int) + ": "@ + cause@,
{
    let mut s = String::from_str(stage);
    s.append(dec_i64(page as i64).as_str());
    s.append(": ");
    s.append(cause);
    s
}

impl ImportRun {
    /// Starts at the first page.
    pub fn import_user(pages: i32) -> (r: ImportRun)
        ensures
            r.page == 1,
            r.pages == pages,
            r.total == 0,
            r.done == (pages < 1),
    {
        ImportRun { page: 1, pages, total: 0, done: pages < 1 }
    }

    /// The page to fetch next.
    pub fn next_page(&self) -> (r: Option<i32>)
        ensures
            r == (if self.done {
                None
            } else {
                Some(self.page)
            }),
    {
        if self.done {
            None
        } else {
            Some(self.page)
        }
    }

    /// Books one page. An empty or malformed page ends the import early, the
    /// last page ends it, and a failed one fails it.
    pub fn report(&mut self, outcome: PageOutcome) -> (r: Result<(), String>)
        requires
            !old(self).done,
            old(self).page <= old(self).pages,
            old(self).total + page_posts(outcome) <= usize::MAX,
        ensures
            final(self).pages == old(self).pages,
            final(self).page <= final(self).pages,
            final(self).total == old(self).total + page_posts(outcome),
            match page_failure(outcome) {
                Some(f) => r matches Err(e) && e@ == f.0 + text::dec(old(self).page as int) + ": "@
                    + f.1,
                None => r is Ok,
            },
            final(self).done == (page_posts(outcome) == 0 || old(self).page == old(self).pages),
            final(self).page == (if final(self).done {
                old(self).page as int
            } else {
                old(self).page + 1
            }),
    {
        match outcome {
            PageOutcome::Saved(n) => {
                if n == 0 || self.page == self.pages {
                    self.total = self.total + n;
                    self.done = true;
                } else {
                    self.total = self.total + n;
                    self.page = self.page + 1;
                }
                Ok(())
            },
            PageOutcome::Malformed => {
                self.done = true;
                Ok(())
            },
            PageOutcome::NotFetched(e) => {
                self.done = true;
                Err(page_error("get_favorites page ", self.page, e.as_str()))
            },
            PageOutcome::PostsNotSaved(e) => {
                self.done = true;
                Err(page_error("save_posts page ", self.page, e.as_str()))
            },
            PageOutcome::TagsNotSaved(e) => {
                self.done = true;
                Err(page_error("save_tags page ", self.page, e.as_str()))
            },
        }
    }
}

/// Pages cover the favourites: unless the configured number cuts them off, the
/// last page is needed and no further one is.
pub proof fn law_pages_cover_favorites(favorites: int, page_size: int)
    requires
        favorites > 0,
        page_size > 0,
    ensures
        ({
            let n = filled_pages(favorites, page_size);
            (n - 1) * page_size < favorites <= n * page_size
        }),
{
    let q = favorites / page_size;
    let m = favorites % page_size;
    vstd::arithmetic::div_mod::lemma_fundamental_div_mod(favorites, page_size);
    assert(page_size * q == q * page_size) by (nonlinear_arith);
    assert((q - 1) * page_size == q * page_size - page_size) by (nonlinear_arith);
    assert((q + 1) * page_size == q * page_size + page_size) by (nonlinear_arith);
    assert(0 <= m < page_size) by (nonlinear_arith)
        requires
            m == favorites % page_size,
            page_size > 0,
    ;
}

/// A tag as it is looked up in a blacklist: in lower case, without space around.
pub open spec fn blacklist_form(tag: Seq<char>) -> Seq<char> {
    text::trimmed(cooccurrence::lowercase(tag))
}

/// The tags that a blacklist leaves.
pub open spec fn kept_tags(names: Seq<String>, blacklist: Seq<String>) -> Seq<String> {
    names.filter(|t: String| !text::holds_text(blacklist, blacklist_form(t@)))
}

fn retain_tags(names: &mut Vec<String>, blacklist: &Vec<String>)
    ensures
        final(names)@ == kept_tags(old(names)@, blacklist@),
{
    let ghost all = names@;
    let ghost keep = |t: String| !text::holds_text(blacklist@, blacklist_form(t@));
    let mut out: Vec<String> = Vec::new();
    let mut i: usize = 0;
    proof {
        reveal(Seq::filter);
        assert(all.take(0) =~= Seq::<String>::empty());
    }
    while i < names.len()
        invariant
            i <= names.len(),
            names@ == all,
            all == old(names)@,
            keep == (|t: String| !text::holds_text(blacklist@, blacklist_form(t@))),
            out@ == all.take(i as int).filter(keep),
        decreases names.len() - i,
    {
        proof {
            reveal(Seq::filter);
            assert(all.take(i + 1).drop_last() =~= all.take(i as int));
            assert(all.take(i + 1).last() == all[i as int]);
        }
        let form = trim(to_lowercase(names[i].as_str()).as_str());
        if !contains_text(blacklist, form.as_str()) {
            out.push(names[i].clone());
        }
        i += 1;
    }
    proof {
        assert(all.take(all.len() as int) =~= all);
    }
    *names = out;
}

/// `b` is `a` without blacklisted tags.
pub open spec fn are_stripped(a: Tags, b: Tags, blacklist: Seq<String>) -> bool {
    &&& forall|g: models::TagGroup| (#[trigger] b.group(g)) == kept_tags(a.group(g), blacklist)
    &&& b.invalid == a.invalid
    &&& b.contributor == a.contributor
}

/// A post without its blacklisted tags. The blacklist is in lower case.
pub fn strip_blacklisted_tags(post: &mut Post, blacklist: &Vec<String>)
    ensures
        are_stripped(old(post).tags, final(post).tags, blacklist@),
        *final(post) == (Post { tags: final(post).tags, ..*old(post) }),
{
    retain_tags(&mut post.tags.artist, blacklist);
    retain_tags(&mut post.tags.character, blacklist);
    retain_tags(&mut post.tags.copyright, blacklist);
    retain_tags(&mut post.tags.general, blacklist);
    retain_tags(&mut post.tags.lore, blacklist);
    retain_tags(&mut post.tags.meta, blacklist);
    retain_tags(&mut post.tags.species, blacklist);
}

/// A blacklist in lower case.
pub fn lowered_blacklist(tags: &Vec<String>) -> (r: Vec<String>)
    ensures
        r@.len() == tags@.len(),
        forall|i: int|
            0 <= i < tags@.len() ==> (#[trigger] r@[i])@ == cooccurrence::lowercase(tags@[i]@),
{
    let mut out: Vec<String> = Vec::new();
    let mut i: usize = 0;
    while i < tags.len()
        invariant
            i <= tags.len(),
            out@.len() == i,
            forall|k: int|
                0 <= k < i ==> (#[trigger] out@[k])@ == cooccurrence::lowercase(tags@[k]@),
        decreases tags.len() - i,
    {
        out.push(to_lowercase(tags[i].as_str()));
        i += 1;
    }
    out
}

/// No tag that a blacklist names is left.
pub proof fn law_no_blacklisted_tag_is_left(names: Seq<String>, blacklist: Seq<String>, i: int)
    requires
        0 <= i < kept_tags(names, blacklist).len(),
    ensures
        !text::holds_text(blacklist, blacklist_form(kept_tags(names, blacklist)[i]@)),
{
    let keep = |t: String| !text::holds_text(blacklist, blacklist_form(t@));
    names.lemma_filter_pred(keep, i);
    assert(kept_tags(names, blacklist) =~= names.filter(keep));
}

/// The users that may be imported are those that are not banned and have a level
/// of ten or more, in the order in which they were found.
pub proof fn law_importable_users(users: Seq<FoundUser>)
    ensures
        importable(users) == users.filter(
            |u: FoundUser| !u.is_banned && u.level >= 10,
        ).map_values(|u: FoundUser| u.id),
    decreases users.len(),
{
    reveal(Seq::filter);
    let keep = |u: FoundUser| !u.is_banned && u.level >= 10;
    let id = |u: FoundUser| u.id;
    if users.len() == 0 {
        assert(users.filter(keep).map_values(id) =~= Seq::<i64>::empty());
    } else {
        let rest = users.drop_first();
        law_importable_users(rest);
        assert(seq![users[0]] + rest =~= users);
        Seq::filter_distributes_over_add(seq![users[0]], rest, keep);
        let one = seq![users[0]];
        assert(one.drop_last() =~= Seq::<FoundUser>::empty());
        assert(one.drop_last().filter(keep) =~= Seq::<FoundUser>::empty());
        assert(one.filter(keep) =~= if keep(users[0]) {
            one
        } else {
            Seq::empty()
        });
        assert(users.filter(keep).map_values(id) =~= one.filter(keep).map_values(id)
            + rest.filter(keep).map_values(id));
        assert(importable(users) =~= users.filter(keep).map_values(id));
    }
}

proof fn lemma_fresh_is_filter(users: Seq<Probed>, order: Seq<usize>, imported: Seq<i32>)
    ensures
        fresh_positions(users, order, imported) == order.filter(
            |p: usize| !imported.contains(users[p as int].id),
        ),
    decreases order.len(),
{
    reveal(Seq::filter);
    if order.len() > 0 {
        lemma_fresh_is_filter(users, order.drop_last(), imported);
    }
}

proof fn lemma_fresh_descends(
    users: Seq<Probed>,
    order: Seq<usize>,
    imported: Seq<i32>,
    i: int,
    j: int,
)
    requires
        forall|a: int, b: int|
            0 <= a < b < order.len() ==> users[#[trigger] order[a] as int].favorites
                >= users[#[trigger] order[b] as int].favorites,
        0 <= i < j < fresh_positions(users, order, imported).len(),
    ensures
        users[fresh_positions(users, order, imported)[i] as int].favorites
            >= users[fresh_positions(users, order, imported)[j] as int].favorites,
    decreases order.len(),
{
    let init = order.drop_last();
    let rest = fresh_positions(users, init, imported);
    assert forall|a: int, b: int| 0 <= a < b < init.len() implies users[#[trigger] init[a] as int].favorites
        >= users[#[trigger] init[b] as int].favorites by {
        assert(init[a] == order[a] && init[b] == order[b]);
    }
    if j < rest.len() {
        lemma_fresh_descends(users, init, imported, i, j);
    } else {
        lemma_fresh_from(users, init, imported, i);
        let a = choose|a: int| 0 <= a < init.len() && init[a] == rest[i];
        assert(order[a] == init[a]);
        assert(order[order.len() - 1] == order.last());
    }
}

proof fn lemma_fresh_from(users: Seq<Probed>, order: Seq<usize>, imported: Seq<i32>, i: int)
    requires
        0 <= i < fresh_positions(users, order, imported).len(),
    ensures
        order.contains(fresh_positions(users, order, imported)[i]),
    decreases order.len(),
{
    let init = order.drop_last();
    let rest = fresh_positions(users, init, imported);
    if i < rest.len() {
        lemma_fresh_from(users, init, imported, i);
        let a = choose|a: int| 0 <= a < init.len() && init[a] == rest[i];
        assert(order[a] == rest[i]);
    } else {
        assert(order[order.len() - 1] == order.last());
    }
}

/// The chosen users lead: they come with falling favourite counts, and a user who
/// is neither chosen nor imported has no more favourites than any chosen one, and
/// is left out only because there are enough.
pub proof fn law_chosen_users_lead(users: Seq<Probed>, imported: Seq<i32>, target: int, p: usize)
    requires
        users.len() <= usize::MAX,
        0 <= target,
        p < users.len(),
    ensures
        ({
            let chosen = first_of(
                fresh_positions(users, order::int_order(favorite_keys(users)), imported),
                target,
            );
            &&& forall|i: int, j: int|
                0 <= i < j < chosen.len() ==> users[#[trigger] chosen[i] as int].favorites
                    >= users[#[trigger] chosen[j] as int].favorites
            &&& chosen.contains(p) ==> !imported.contains(users[p as int].id)
            &&& !imported.contains(users[p as int].id) && !chosen.contains(p) ==> chosen.len()
                == target && forall|i: int|
                0 <= i < chosen.len() ==> users[#[trigger] chosen[i] as int].favorites
                    >= users[p as int].favorites
        }),
{
    let keys = favorite_keys(users);
    order::law_every_list_has_an_order(keys);
    let o = order::int_order(keys);
    let fresh = fresh_positions(users, o, imported);
    let chosen = first_of(fresh, target);
    assert forall|a: int, b: int| 0 <= a < b < o.len() implies users[#[trigger] o[a] as int].favorites
        >= users[#[trigger] o[b] as int].favorites by {
        assert(order::int_before(keys, o[a] as int, o[b] as int));
        let x = users[o[a] as int].favorites;
        let y = users[o[b] as int].favorites;
        assert(-x == (-x) as i64 && -y == (-y) as i64);
    }
    assert forall|i: int, j: int| 0 <= i < j < fresh.len() implies users[#[trigger] fresh[i] as int].favorites
        >= users[#[trigger] fresh[j] as int].favorites by {
        lemma_fresh_descends(users, o, imported, i, j);
    }
    lemma_fresh_is_filter(users, o, imported);
    let keep = |q: usize| !imported.contains(users[q as int].id);
    tally::lemma_times_filter(o, keep, p);
    tally::lemma_times_bounds(o, p);
    tally::lemma_times_bounds(o.filter(keep), p);
    assert(o.contains(p)) by {
        broadcast use vstd::seq_lib::group_to_multiset_ensures;

        let all = order::positions(0, users.len() as int);
        assert(all[p as int] == p);
        assert(all.contains(p));
        assert(o.to_multiset().count(p) > 0);
    }
    assert(fresh.contains(p) <==> !imported.contains(users[p as int].id));
    if chosen.contains(p) {
        let k = choose|k: int| 0 <= k < chosen.len() && chosen[k] == p;
        assert(fresh[k] == p);
    }
    if fresh.contains(p) && !chosen.contains(p) {
        let k = choose|k: int| 0 <= k < fresh.len() && fresh[k] == p;
        if k < chosen.len() {
            assert(chosen[k] == p);
        }
        assert forall|i: int| 0 <= i < chosen.len() implies users[#[trigger] chosen[i] as int].favorites
            >= users[p as int].favorites by {
            assert(chosen[i] == fresh[i]);
            assert(fresh[k] == p);
        }
    }
    assert forall|i: int, j: int| 0 <= i < j < chosen.len() implies users[#[trigger] chosen[i] as int].favorites
        >= users[#[trigger] chosen[j] as int].favorites by {
        assert(chosen[i] == fresh[i] && chosen[j] == fresh[j]);
    }
}

/// A tag stays exactly where the blacklist does not name it, as often as it was
/// there.
pub proof fn law_other_tags_stay(names: Seq<String>, blacklist: Seq<String>, tag: String)
    ensures
        tally::times(kept_tags(names, blacklist), tag) == (if text::holds_text(
            blacklist,
            blacklist_form(tag@),
        ) {
            0
        } else {
            tally::times(names, tag)
        }),
{
    tally::lemma_times_filter(
        names,
        |t: String| !text::holds_text(blacklist, blacklist_form(t@)),
        tag,
    );
}

/// A number is taken as the target, and anything else asks for five hundred.
pub proof fn law_target(arg: Seq<char>, n: u64)
    requires
        n <= usize::MAX,
    ensures
        text::unsigned_number(arg) == Some(n) ==> target_of(Some(arg)) == n,
        text::unsigned_number(arg) is None ==> target_of(Some(arg)) == 500,
        target_of(None) == 500,
{
}

/// A page counts its posts where they were saved. It fails where it was not fetched
/// or its posts or tags were not saved, and the failure keeps the cause.
pub proof fn law_page_outcomes(o: PageOutcome)
    ensures
        page_failure(o) is None <==> o is Saved || o is Malformed,
        o matches PageOutcome::Saved(n) ==> page_posts(o) == n,
        o !is Saved ==> page_posts(o) == 0,
        o matches PageOutcome::NotFetched(e) ==> page_failure(o) == Some(
            ("get_favorites page "@, e@),
        ),
        o matches PageOutcome::PostsNotSaved(e) ==> page_failure(o) == Some(
            ("save_posts page "@, e@),
        ),
        o matches PageOutcome::TagsNotSaved(e) ==> page_failure(o) == Some(
            ("save_tags page "@, e@),
        ),
{
}

} // verus!
