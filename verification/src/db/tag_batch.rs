//! Saving the tags of a batch of posts: which statement comes next, and what
//! the batch changed once it is done.

use vstd::prelude::*;

use crate::db::cooccurrence;
use crate::db::cooccurrence::TagMeta;
use crate::db::sql;
use crate::db::sql::{id_statements, IdStatement};
use crate::db::tags;
use crate::db::tags::{metas_for, plan_links, settle_post_ids, DfDeltas, TagIdCache, TagKey};
use crate::models::{TagGroup, Tags};
use crate::text;
use crate::text::{dec_i64, text_eq};

verus! {

/// What the current post asks for.
#[derive(Debug)]
pub enum LinkStep {
    /// The id of a tag that the batch has not met yet.
    Upsert { group: TagGroup, name: String },
    /// A link between a tag and a post.
    Link { tag_id: i64, post_id: i64 },
    /// Nothing more: all links of the post are saved.
    Settled,
}

/// A batch of posts whose tags are being saved. Pairs are counted where `track`
/// is set, for the catalog and for the account of the batch.
pub struct TagBatch {
    pub track: bool,
    pub account_id: Option<i32>,
    /// The current post, its planned links, and the tag ids linked so far.
    pub post_id: i64,
    pub had_tags: bool,
    pub links: Vec<TagKey>,
    pub post_ids: Vec<i64>,
    /// What the batch knows: tag ids, new links of each, tags it touched.
    pub cache: TagIdCache,
    pub deltas: DfDeltas,
    pub touched: Vec<i64>,
    pub new_links: i64,
    pub cooc_dirty: bool,
}

/// The pairs of a post to be counted for an account.
#[derive(Debug)]
pub struct AccountPairs {
    pub account_id: i32,
    pub ids: Vec<i64>,
    pub metas: Vec<TagMeta>,
}

/// The pairs of a post to be counted once its links are saved.
#[derive(Debug)]
pub struct PairUpdates {
    pub catalog: Option<Vec<i64>>,
    pub account: Option<AccountPairs>,
}

/// How many new links a tag name got.
#[derive(Debug)]
pub struct NameDelta {
    pub name: String,
    pub delta: i64,
}

impl TagBatch {
    pub open spec fn wf(&self) -> bool {
        &&& self.cache.wf()
        &&& self.deltas.wf()
        &&& self.touched@.no_duplicates()
        &&& self.post_ids@.len() <= self.links@.len()
        &&& forall|k: int|
            0 <= k < self.post_ids@.len() ==> self.cache.id_of(self.links@[k].key()) == Some(
                #[trigger] self.post_ids@[k],
            )
        &&& forall|k: int|
            0 <= k < self.post_ids@.len() ==> self.touched@.contains(#[trigger] self.post_ids@[k])
        &&& forall|k: int|
            0 <= k < self.touched@.len() ==> self.cache.ids@.contains(#[trigger] self.touched@[k])
        &&& forall|k: int|
            0 <= k < self.deltas.ids@.len() ==> self.touched@.contains(
                #[trigger] self.deltas.ids@[k],
            )
        &&& forall|id: i64| 0 <= #[trigger] self.deltas.delta(id) <= self.new_links
    }

    /// All links of the current post are saved.
    pub open spec fn is_settled(&self) -> bool {
        self.post_ids@.len() == self.links@.len()
    }

    /// The key of the link that comes next.
    pub open spec fn next_key(&self) -> (TagGroup, Seq<char>) {
        self.links@[self.post_ids@.len() as int].key()
    }

    /// Everything but the current post is as in `other`.
    pub open spec fn same_batch(&self, other: &TagBatch) -> bool {
        &&& self.track == other.track
        &&& self.account_id == other.account_id
        &&& self.cache == other.cache
        &&& self.deltas == other.deltas
        &&& self.touched == other.touched
        &&& self.new_links == other.new_links
    }

    /// The current post is that of `other`.
    pub open spec fn same_post(&self, other: &TagBatch) -> bool {
        &&& self.post_id == other.post_id
        &&& self.had_tags == other.had_tags
        &&& self.links == other.links
    }

    /// An empty batch.
    pub fn new(track: bool, account_id: Option<i32>) -> (r: TagBatch)
        ensures
            r.wf(),
            r.track == track,
            r.account_id == account_id,
            r.is_settled(),
            forall|k: (TagGroup, Seq<char>)| (#[trigger] r.cache.id_of(k)) is None,
            forall|id: i64| #[trigger] r.deltas.delta(id) == 0,
            r.touched@.len() == 0,
            r.new_links == 0,
            !r.cooc_dirty,
    {
        TagBatch {
            track,
            account_id,
            post_id: 0,
            had_tags: true,
            links: Vec::new(),
            post_ids: Vec::new(),
            cache: TagIdCache::new(),
            deltas: DfDeltas::new(),
            touched: Vec::new(),
            new_links: 0,
            cooc_dirty: false,
        }
    }

    /// Whether a post is to be looked up before its links are saved: its pairs
    /// count for the catalog only where it had no tags.
    pub fn asks_had_tags(&self) -> (r: bool)
        ensures
            r == self.track,
    {
        self.track
    }

    /// Turns to the next post. `had_tags` is read where the batch asks for it.
    pub fn begin_post(&mut self, post_id: i64, tags: &Tags, blacklist: &Vec<String>, had_tags: bool)
        requires
            old(self).wf(),
            old(self).is_settled(),
        ensures
            final(self).wf(),
            final(self).same_batch(old(self)),
            final(self).cooc_dirty == old(self).cooc_dirty,
            final(self).post_id == post_id,
            final(self).had_tags == (!old(self).track || had_tags),
            tags::keys_of(final(self).links@) == tags::post_links(*tags, text::views(blacklist@)),
            final(self).post_ids@.len() == 0,
    {
        self.post_id = post_id;
        self.had_tags = !self.track || had_tags;
        self.links = plan_links(tags, blacklist);
        self.post_ids = Vec::new();
    }

    /// What the current post asks for next.
    pub fn step(&self) -> (r: LinkStep)
        requires
            self.wf(),
        ensures
            match r {
                LinkStep::Settled => self.is_settled(),
                LinkStep::Link { tag_id, post_id } => {
                    &&& !self.is_settled()
                    &&& self.cache.id_of(self.next_key()) == Some(tag_id)
                    &&& post_id == self.post_id
                },
                LinkStep::Upsert { group, name } => {
                    &&& !self.is_settled()
                    &&& self.cache.id_of(self.next_key()) is None
                    &&& (group, name@) == self.next_key()
                },
            },
    {
        let i: usize = self.post_ids.len();
        if i == self.links.len() {
            return LinkStep::Settled;
        }
        match self.cache.lookup(&self.links[i]) {
            Some(tag_id) => LinkStep::Link { tag_id, post_id: self.post_id },
            None => LinkStep::Upsert {
                group: self.links[i].group,
                name: self.links[i].name.clone(),
            },
        }
    }

    /// Notes the id of the tag that the current post asked for.
    pub fn resolve(&mut self, id: i64)
        requires
            old(self).wf(),
            !old(self).is_settled(),
            old(self).cache.id_of(old(self).next_key()) is None,
        ensures
            final(self).wf(),
            final(self).same_post(old(self)),
            final(self).post_ids == old(self).post_ids,
            final(self).track == old(self).track,
            final(self).account_id == old(self).account_id,
            final(self).deltas == old(self).deltas,
            final(self).touched == old(self).touched,
            final(self).new_links == old(self).new_links,
            final(self).cooc_dirty == old(self).cooc_dirty,
            final(self).cache.id_of(old(self).next_key()) == Some(id),
            forall|k: (TagGroup, Seq<char>)|
                k != old(self).next_key() ==> (#[trigger] final(self).cache.id_of(k)) == old(
                    self,
                ).cache.id_of(k),
    {
        let ghost before = *self;
        let i: usize = self.post_ids.len();
        let key = TagKey { group: self.links[i].group, name: self.links[i].name.clone() };
        self.cache.remember(key, id);
        proof {
            assert forall|k: int| 0 <= k < self.post_ids@.len() implies self.cache.id_of(
                self.links@[k].key(),
            ) == Some(#[trigger] self.post_ids@[k]) by {
                assert(before.cache.id_of(before.links@[k].key()) == Some(before.post_ids@[k]));
            }
            assert forall|k: int| 0 <= k < self.touched@.len() implies self.cache.ids@.contains(
                #[trigger] self.touched@[k],
            ) by {
                assert(before.cache.ids@.contains(before.touched@[k]));
                let p = choose|p: int|
                    0 <= p < before.cache.ids@.len() && before.cache.ids@[p] == before.touched@[k];
                assert(self.cache.ids@[p] == before.cache.ids@[p]);
            }
        }
    }

    /// Notes a saved link of the current post and whether it was new.
    pub fn linked(&mut self, inserted: usize)
        requires
            old(self).wf(),
            !old(self).is_settled(),
            old(self).cache.id_of(old(self).next_key()) is Some,
            old(self).new_links + inserted <= i64::MAX,
        ensures
            final(self).wf(),
            final(self).same_post(old(self)),
            final(self).cache == old(self).cache,
            final(self).track == old(self).track,
            final(self).account_id == old(self).account_id,
            final(self).cooc_dirty == old(self).cooc_dirty,
            final(self).new_links == old(self).new_links + inserted,
            inserted == 0 ==> final(self).deltas == old(self).deltas,
            ({
                let id = old(self).cache.id_of(old(self).next_key())->0;
                &&& final(self).post_ids@ == old(self).post_ids@.push(id)
                &&& final(self).touched@ == with_id(old(self).touched@, id)
                &&& final(self).deltas.delta(id) == old(self).deltas.delta(id) + inserted
                &&& forall|other: i64|
                    other != id ==> #[trigger] final(self).deltas.delta(other) == old(
                        self,
                    ).deltas.delta(other)
            }),
    {
        let ghost before = *self;
        let i: usize = self.post_ids.len();
        let id: i64 = match self.cache.lookup(&self.links[i]) {
            Some(id) => id,
            None => {
                return;
            },
        };
        proof {
            lemma_known_id(self.cache, self.links@[i as int].key());
        }
        self.deltas.bump(id, inserted as i64);
        if !holds(&self.touched, id) {
            self.touched.push(id);
        }
        self.post_ids.push(id);
        self.new_links = self.new_links + inserted as i64;
        proof {
            lemma_with_id(before.touched@, id);
            assert(self.touched@ == with_id(before.touched@, id));
            assert forall|k: int| 0 <= k < self.post_ids@.len() implies self.cache.id_of(
                self.links@[k].key(),
            ) == Some(#[trigger] self.post_ids@[k]) by {
                if k < i {
                    assert(self.post_ids@[k] == before.post_ids@[k]);
                }
            }
            assert forall|k: int| 0 <= k < self.post_ids@.len() implies self.touched@.contains(
                #[trigger] self.post_ids@[k],
            ) by {
                if k < i {
                    assert(before.touched@.contains(before.post_ids@[k]));
                }
            }
            assert forall|k: int| 0 <= k < self.touched@.len() implies self.cache.ids@.contains(
                #[trigger] self.touched@[k],
            ) by {
                if k < before.touched@.len() {
                    assert(self.touched@[k] == before.touched@[k]);
                }
            }
            assert forall|k: int| 0 <= k < self.deltas.ids@.len() implies self.touched@.contains(
                #[trigger] self.deltas.ids@[k],
            ) by {
                let d = self.deltas.ids@[k];
                if d != id {
                    assert(before.deltas.ids@.contains(d));
                    let p = choose|p: int|
                        0 <= p < before.deltas.ids@.len() && before.deltas.ids@[p] == d;
                    assert(before.touched@.contains(before.deltas.ids@[p]));
                }
            }
        }
    }

    /// Ends the current post: which of its pairs are to be counted. Pairs take at
    /// least two links.
    pub fn end_post(&mut self) -> (r: PairUpdates)
        requires
            old(self).wf(),
            old(self).is_settled(),
        ensures
            final(self).wf(),
            final(self).is_settled(),
            final(self).same_batch(old(self)),
            final(self).cooc_dirty == (old(self).cooc_dirty || r.catalog is Some),
            ({
                let ids = old(self).post_ids@;
                &&& match r.catalog {
                    Some(v) => old(self).track && !old(self).had_tags && ids.len() >= 2
                        && tags::is_distinct_sorted(v@, ids),
                    None => !(old(self).track && !old(self).had_tags && ids.len() >= 2),
                }
                &&& match r.account {
                    Some(a) => {
                        &&& old(self).track && ids.len() >= 2
                        &&& old(self).account_id == Some(a.account_id)
                        &&& tags::is_distinct_sorted(a.ids@, ids)
                        &&& forall|k: int|
                            0 <= k < a.metas@.len() ==> ids.contains((#[trigger] a.metas@[k]).id)
                                && tags::is_meta_in(a.metas@[k], old(self).cache)
                        &&& cooccurrence::missing_tag(
                            a.metas@,
                            cooccurrence::all_pairs(a.ids@),
                        ) is None
                    },
                    None => !(old(self).track && ids.len() >= 2 && old(self).account_id is Some),
                }
            }),
    {
        let ghost before = *self;
        let mut ids: Vec<i64> = Vec::new();
        std::mem::swap(&mut ids, &mut self.post_ids);
        self.links = Vec::new();
        let ghost all = ids@;
        let (settled, multi) = settle_post_ids(ids);
        if !self.track || !multi {
            return PairUpdates { catalog: None, account: None };
        }
        let account = match self.account_id {
            Some(account_id) => {
                let metas = metas_for(&self.cache, &settled);
                let own = copy_ids(&settled);
                proof {
                    lemma_metas_cover(before, all, settled@, metas@);
                    assert forall|k: int| 0 <= k < metas@.len() implies all.contains(
                        (#[trigger] metas@[k]).id,
                    ) by {
                        assert(settled@.contains(metas@[k].id));
                    }
                }
                Some(AccountPairs { account_id, ids: own, metas })
            },
            None => None,
        };
        let catalog = if !self.had_tags {
            self.cooc_dirty = true;
            Some(settled)
        } else {
            None
        };
        PairUpdates { catalog, account }
    }

    /// The statements that count anew how many posts carry the tags that the
    /// batch touched.
    pub fn recompute_df_for_tags(&self) -> (r: Vec<IdStatement>)
        ensures
            sql::are_id_statements(r@, self.touched@, 500, DF_SQL@, ")"@),
    {
        id_statements(&self.touched, 500, DF_SQL, ")")
    }

    /// How many new links each tag name got in the batch, for the names that got
    /// any. Where tags of two groups share a name, one of them is reported.
    pub fn name_deltas(&self) -> (r: Vec<NameDelta>)
        requires
            self.wf(),
        ensures
            forall|k: int| 0 <= k < r@.len() ==> is_name_delta(#[trigger] r@[k], *self),
            forall|i: int, j: int|
                0 <= i < j < r@.len() ==> (#[trigger] r@[i]).name@ != (#[trigger] r@[j]).name@,
            forall|i: int|
                0 <= i < self.deltas.ids@.len() ==> has_name(
                    r@,
                    name_of(self.cache, #[trigger] self.deltas.ids@[i]),
                ),
    {
        let mut out: Vec<NameDelta> = Vec::new();
        let mut i: usize = 0;
        while i < self.deltas.ids.len()
            invariant
                self.wf(),
                i <= self.deltas.ids.len(),
                forall|k: int| 0 <= k < out@.len() ==> is_name_delta(#[trigger] out@[k], *self),
                forall|a: int, b: int|
                    0 <= a < b < out@.len() ==> (#[trigger] out@[a]).name@ != (
                    #[trigger] out@[b]).name@,
                forall|m: int|
                    0 <= m < i ==> has_name(
                        out@,
                        name_of(self.cache, #[trigger] self.deltas.ids@[m]),
                    ),
            decreases self.deltas.ids.len() - i,
        {
            let id: i64 = self.deltas.ids[i];
            let ghost before = out@;
            match self.cache.key_of_id(id) {
                Some(p) => {
                    proof {
                        lemma_name_at(self.cache, id, p as int);
                    }
                    let d = NameDelta {
                        name: self.cache.keys[p].name.clone(),
                        delta: self.deltas.deltas[i],
                    };
                    proof {
                        assert(names_delta(*self, i as int, d));
                        assert(is_name_delta(d, *self));
                    }
                    let ghost name = d.name@;
                    note_delta(&mut out, d);
                    proof {
                        assert forall|m: int| 0 <= m < i + 1 implies has_name(
                            out@,
                            name_of(self.cache, #[trigger] self.deltas.ids@[m]),
                        ) by {
                            if m < i {
                                let n = name_of(self.cache, self.deltas.ids@[m]);
                                assert(has_name(before, n));
                                let k = choose|k: int|
                                    0 <= k < before.len() && (#[trigger] before[k]).name@ == n;
                                assert(out@[k].name@ == n);
                            }
                        }
                    }
                },
                None => {
                    proof {
                        assert(self.touched@.contains(self.deltas.ids@[i as int]));
                        let q = choose|q: int|
                            0 <= q < self.touched@.len() && self.touched@[q] == id;
                        assert(self.cache.ids@.contains(self.touched@[q]));
                    }
                },
            }
            i += 1;
        }
        out
    }
}

/// Starts saving the tags of some posts; for none there is nothing to do.
pub fn save_posts_tags_batch(posts: usize, track: bool, account_id: Option<i32>) -> (r: Option<
    TagBatch,
>)
    ensures
        match r {
            Some(b) => {
                &&& posts > 0
                &&& b.wf()
                &&& b.is_settled()
                &&& b.track == track
                &&& b.account_id == account_id
                &&& b.touched@.len() == 0
                &&& b.new_links == 0
                &&& !b.cooc_dirty
                &&& forall|k: (TagGroup, Seq<char>)| (#[trigger] b.cache.id_of(k)) is None
                &&& forall|id: i64| #[trigger] b.deltas.delta(id) == 0
            },
            None => posts == 0,
        },
{
    if posts == 0 {
        None
    } else {
        Some(TagBatch::new(track, account_id))
    }
}

/// The statement that counts anew how many posts carry some tags, up to its
/// placeholders.
pub const DF_SQL: &'static str = "UPDATE tags SET df = (SELECT COUNT(*) FROM tags_posts WHERE tag_id = tags.id) WHERE id IN (";

/// `s` with `id`, unless it holds it.
pub open spec fn with_id(s: Seq<i64>, id: i64) -> Seq<i64> {
    if s.contains(id) {
        s
    } else {
        s.push(id)
    }
}

proof fn lemma_with_id(s: Seq<i64>, id: i64)
    requires
        s.no_duplicates(),
    ensures
        with_id(s, id).no_duplicates(),
        with_id(s, id).contains(id),
        forall|x: i64| s.contains(x) ==> #[trigger] with_id(s, id).contains(x),
{
    let w = with_id(s, id);
    if !s.contains(id) {
        assert(w[s.len() as int] == id);
        assert forall|x: i64| s.contains(x) implies #[trigger] w.contains(x) by {
            let k = choose|k: int| 0 <= k < s.len() && s[k] == x;
            assert(w[k] == x);
        }
    }
}

proof fn lemma_known_id(cache: TagIdCache, k: (TagGroup, Seq<char>))
    requires
        cache.wf(),
        cache.id_of(k) is Some,
    ensures
        cache.ids@.contains(cache.id_of(k)->0),
{
    let i = choose|i: int| 0 <= i < cache.keys@.len() && (#[trigger] cache.keys@[i]).key() == k;
    assert(cache.ids@[i] == cache.id_of(k)->0);
}

/// The name of the first tag that carries an id.
pub open spec fn name_of(cache: TagIdCache, id: i64) -> Seq<char> {
    cache.keys@[cache.ids@.index_of_first(id)->0].name@
}

proof fn lemma_name_at(cache: TagIdCache, id: i64, p: int)
    requires
        cache.wf(),
        0 <= p < cache.keys@.len(),
        cache.ids@[p] == id,
        forall|k: int| 0 <= k < p ==> (#[trigger] cache.ids@[k]) != id,
    ensures
        name_of(cache, id) == cache.keys@[p].name@,
{
    cache.ids@.index_of_first_ensures(id);
    assert(cache.ids@.contains(id));
    let q = cache.ids@.index_of_first(id)->0;
    if q < p {
        assert(cache.ids@[q] == id);
    }
    if p < q {
        assert(cache.ids@[p] == id);
    }
}

/// `d` reports the new links of the tag at position `i` of the deltas.
pub open spec fn names_delta(b: TagBatch, i: int, d: NameDelta) -> bool {
    &&& 0 <= i < b.deltas.ids@.len()
    &&& d.name@ == name_of(b.cache, b.deltas.ids@[i])
    &&& d.delta == b.deltas.deltas@[i]
}

/// `d` reports the new links of a tag.
pub open spec fn is_name_delta(d: NameDelta, b: TagBatch) -> bool {
    exists|i: int| #[trigger] names_delta(b, i, d)
}

/// Some entry has the given name.
pub open spec fn has_name(r: Seq<NameDelta>, name: Seq<char>) -> bool {
    exists|k: int| 0 <= k < r.len() && (#[trigger] r[k]).name@ == name
}

fn note_delta(out: &mut Vec<NameDelta>, d: NameDelta)
    requires
        forall|a: int, b: int|
            0 <= a < b < old(out)@.len() ==> (#[trigger] old(out)@[a]).name@ != (#[trigger] old(
                out,
            )@[b]).name@,
    ensures
        forall|a: int, b: int|
            0 <= a < b < final(out)@.len() ==> (#[trigger] final(out)@[a]).name@ != (
            #[trigger] final(out)@[b]).name@,
        old(out)@.len() <= final(out)@.len(),
        forall|k: int|
            0 <= k < old(out)@.len() ==> (#[trigger] final(out)@[k]).name@ == old(out)@[k].name@,
        forall|k: int|
            0 <= k < final(out)@.len() ==> (#[trigger] final(out)@[k]) == d || (k < old(
                out,
            )@.len() && final(out)@[k] == old(out)@[k]),
        has_name(final(out)@, d.name@),
{
    let mut i: usize = 0;
    while i < out.len()
        invariant
            i <= out.len(),
            out@ == old(out)@,
            forall|a: int, b: int|
                0 <= a < b < out@.len() ==> (#[trigger] out@[a]).name@ != (
                #[trigger] out@[b]).name@,
            forall|k: int| 0 <= k < i ==> (#[trigger] out@[k]).name@ != d.name@,
        decreases out.len() - i,
    {
        if text_eq(out[i].name.as_str(), d.name.as_str()) {
            let ghost name = d.name@;
            out.set(i, d);
            proof {
                assert(out@[i as int].name@ == name);
                assert forall|a: int, b: int| 0 <= a < b < out@.len() implies (
                #[trigger] out@[a]).name@ != (#[trigger] out@[b]).name@ by {
                    assert(old(out)@[a].name@ != old(out)@[b].name@);
                }
            }
            return;
        }
        i += 1;
    }
    let ghost n = out@.len() as int;
    out.push(d);
    proof {
        assert(out@[n] == d);
    }
}

fn holds(v: &Vec<i64>, x: i64) -> (r: bool)
    ensures
        r == v@.contains(x),
{
    let mut i: usize = 0;
    while i < v.len()
        invariant
            i <= v.len(),
            forall|k: int| 0 <= k < i ==> v@[k] != x,
        decreases v.len() - i,
    {
        if v[i] == x {
            return true;
        }
        i += 1;
    }
    false
}

fn copy_ids(v: &Vec<i64>) -> (r: Vec<i64>)
    ensures
        r@ == v@,
{
    let mut r: Vec<i64> = Vec::new();
    let mut i: usize = 0;
    while i < v.len()
        invariant
            i <= v.len(),
            r@ == v@.take(i as int),
        decreases v.len() - i,
    {
        r.push(v[i]);
        proof {
            assert(v@.take(i + 1) =~= v@.take(i as int).push(v@[i as int]));
        }
        i += 1;
    }
    proof {
        assert(v@.take(v@.len() as int) =~= v@);
    }
    r
}

/// The tags of a settled post are all known, so its pairs can be counted.
proof fn lemma_metas_cover(b: TagBatch, all: Seq<i64>, settled: Seq<i64>, metas: Seq<TagMeta>)
    requires
        b.wf(),
        all == b.post_ids@,
        tags::is_distinct_sorted(settled, all),
        forall|i: int|
            0 <= i < settled.len() && b.cache.ids@.contains(#[trigger] settled[i])
                ==> exists|k: int| 0 <= k < metas.len() && (#[trigger] metas[k]).id == settled[i],
    ensures
        cooccurrence::missing_tag(metas, cooccurrence::all_pairs(settled)) is None,
{
    assert forall|i: int| 0 <= i < settled.len() implies cooccurrence::meta_of(
        metas,
        #[trigger] settled[i],
    ) is Some by {
        assert(settled.contains(settled[i]));
        let p = choose|p: int| 0 <= p < all.len() && all[p] == settled[i];
        assert(b.touched@.contains(b.post_ids@[p]));
        let q = choose|q: int| 0 <= q < b.touched@.len() && b.touched@[q] == settled[i];
        assert(b.cache.ids@.contains(b.touched@[q]));
        let k = choose|k: int| 0 <= k < metas.len() && (#[trigger] metas[k]).id == settled[i];
        cooccurrence::lemma_meta_known(metas, k);
    }
    cooccurrence::lemma_pairs_known(metas, settled);
}

/// The error of a tag that could not be saved.
pub fn upsert_error(group: TagGroup, name: &str, cause: &str) -> (r: String)
    ensures
        r@ == "upsert tag "@ + name@ + ":"@ + group.name() + ": "@ + cause@,
{
    let mut s = String::from_str("upsert tag ");
    s.append(name);
    s.append(":");
    s.append(group.label());
    s.append(": ");
    s.append(cause);
    s
}

/// The error of a link that could not be saved.
pub fn link_error(tag_id: i64, post_id: i64, cause: &str) -> (r: String)
    ensures
        r@ == "link tag_id="@ + text::dec(tag_id as int) + " post_id="@ + text::dec(post_id as int)
            + ": "@ + cause@,
{
    let mut s = String::from_str("link tag_id=");
    s.append(dec_i64(tag_id).as_str());
    s.append(" post_id=");
    s.append(dec_i64(post_id).as_str());
    s.append(": ");
    s.append(cause);
    s
}

/// The recount sets the count of each listed tag to the number of its own links.
pub proof fn law_recount_counts_links()
    ensures
        DF_SQL@ == "UPDATE tags SET "@ + "df"@ + " = (SELECT COUNT(*) FROM "@ + "tags_posts"@
            + " WHERE "@ + "tag_id"@ + " = "@ + "tags.id"@ + ") WHERE "@ + "id"@ + " IN ("@,
{
    reveal_strlit(
        "UPDATE tags SET df = (SELECT COUNT(*) FROM tags_posts WHERE tag_id = tags.id) WHERE id IN (",
    );
    reveal_strlit("UPDATE tags SET ");
    reveal_strlit("df");
    reveal_strlit(" = (SELECT COUNT(*) FROM ");
    reveal_strlit("tags_posts");
    reveal_strlit(" WHERE ");
    reveal_strlit("tag_id");
    reveal_strlit(" = ");
    reveal_strlit("tags.id");
    reveal_strlit(") WHERE ");
    reveal_strlit("id");
    reveal_strlit(" IN (");
    assert(DF_SQL@ =~= "UPDATE tags SET "@ + "df"@ + " = (SELECT COUNT(*) FROM "@ + "tags_posts"@
        + " WHERE "@ + "tag_id"@ + " = "@ + "tags.id"@ + ") WHERE "@ + "id"@ + " IN ("@);
}

/// A touched tag stays touched once, whether it was touched before or not, and
/// nothing else becomes touched.
pub proof fn law_touching_a_tag(touched: Seq<i64>, id: i64, other: i64)
    requires
        touched.no_duplicates(),
    ensures
        with_id(touched, id).no_duplicates(),
        with_id(touched, id).contains(other) <==> touched.contains(other) || other == id,
{
    lemma_with_id(touched, id);
    let t = with_id(touched, id);
    if t.contains(other) && other != id {
        let k = choose|k: int| 0 <= k < t.len() && t[k] == other;
        assert(touched[k] == other);
    }
}

} // verus!
