//! Saving the tags of posts: which tags are linked, under which ids, and what
//! the saved links change.

use vstd::prelude::*;

use crate::db::cooccurrence::TagMeta;
use crate::models::{TagCount, TagGroup, Tags};
use crate::order;
use crate::order::sorted_ids;
use crate::text;
use crate::text::{ascii_lowercase, contains_text, text_eq};
use crate::timed::{TimedEntry, TimedMap};

verus! {

/// A tag to be linked: its group and its lower-case name.
pub struct TagKey {
    pub group: TagGroup,
    pub name: String,
}

impl TagKey {
    pub open spec fn key(&self) -> (TagGroup, Seq<char>) {
        (self.group, self.name@)
    }
}

/// What a list of keys stands for.
pub open spec fn keys_of(v: Seq<TagKey>) -> Seq<(TagGroup, Seq<char>)> {
    v.map_values(|k: TagKey| k.key())
}

/// A tag is linked unless it is empty or its lower-case form is blacklisted.
pub open spec fn is_linked(tag: Seq<char>, blacklist: Seq<Seq<char>>) -> bool {
    tag.len() > 0 && !blacklist.contains(text::ascii_lowered(tag))
}

/// The links of one group, in order.
pub open spec fn group_links(
    g: TagGroup,
    tags: Seq<String>,
    blacklist: Seq<Seq<char>>,
) -> Seq<(TagGroup, Seq<char>)>
    decreases tags.len(),
{
    if tags.len() == 0 {
        Seq::empty()
    } else {
        let rest = group_links(g, tags.drop_last(), blacklist);
        if is_linked(tags.last()@, blacklist) {
            rest.push((g, text::ascii_lowered(tags.last()@)))
        } else {
            rest
        }
    }
}

/// The links of a post: group by group, in a fixed order of groups.
pub open spec fn post_links(tags: Tags, blacklist: Seq<Seq<char>>) -> Seq<(TagGroup, Seq<char>)> {
    group_links(TagGroup::Artist, tags.artist@, blacklist) + group_links(
        TagGroup::Character,
        tags.character@,
        blacklist,
    ) + group_links(TagGroup::Copyright, tags.copyright@, blacklist) + group_links(
        TagGroup::General,
        tags.general@,
        blacklist,
    ) + group_links(TagGroup::Lore, tags.lore@, blacklist) + group_links(
        TagGroup::Species,
        tags.species@,
        blacklist,
    ) + group_links(TagGroup::Meta, tags.meta@, blacklist)
}

fn append_group(out: &mut Vec<TagKey>, g: TagGroup, tags: &Vec<String>, blacklist: &Vec<String>)
    ensures
        keys_of(final(out)@) == keys_of(old(out)@) + group_links(
            g,
            tags@,
            text::views(blacklist@),
        ),
{
    let ghost head = keys_of(out@);
    let ghost bl = text::views(blacklist@);
    let mut i: usize = 0;
    proof {
        assert(tags@.take(0) =~= Seq::<String>::empty());
        assert(head + group_links(g, tags@.take(0), bl) =~= head);
    }
    while i < tags.len()
        invariant
            i <= tags.len(),
            bl == text::views(blacklist@),
            keys_of(out@) == head + group_links(g, tags@.take(i as int), bl),
        decreases tags.len() - i,
    {
        let ghost before = out@;
        let tag = tags[i].as_str();
        proof {
            assert(tags@.take(i + 1).drop_last() =~= tags@.take(i as int));
            assert(tags@.take(i + 1).last() == tags@[i as int]);
        }
        if !tag.is_empty() {
            let name = ascii_lowercase(tag);
            if !contains_text(blacklist, name.as_str()) {
                out.push(TagKey { group: g, name });
                proof {
                    assert(keys_of(out@) =~= keys_of(before).push(
                        (g, text::ascii_lowered(tag@)),
                    ));
                }
            }
        }
        proof {
            assert(keys_of(out@) =~= head + group_links(g, tags@.take(i + 1), bl));
        }
        i += 1;
    }
    proof {
        assert(tags@.take(tags@.len() as int) =~= tags@);
    }
}

/// The links of a post.
pub fn plan_links(tags: &Tags, blacklist: &Vec<String>) -> (r: Vec<TagKey>)
    ensures
        keys_of(r@) == post_links(*tags, text::views(blacklist@)),
        forall|g: TagGroup, name: Seq<char>| #[trigger]
            keys_of(r@).contains((g, name)) <==> names_tag(tags.group(g), name)
                && !text::views(blacklist@).contains(name),
{
    let mut out: Vec<TagKey> = Vec::new();
    proof {
        assert(keys_of(out@) =~= Seq::<(TagGroup, Seq<char>)>::empty());
        let bl = text::views(blacklist@);
        let a = group_links(TagGroup::Artist, tags.artist@, bl);
        assert(Seq::<(TagGroup, Seq<char>)>::empty() + a =~= a);
    }
    append_group(&mut out, TagGroup::Artist, &tags.artist, blacklist);
    append_group(&mut out, TagGroup::Character, &tags.character, blacklist);
    append_group(&mut out, TagGroup::Copyright, &tags.copyright, blacklist);
    append_group(&mut out, TagGroup::General, &tags.general, blacklist);
    append_group(&mut out, TagGroup::Lore, &tags.lore, blacklist);
    append_group(&mut out, TagGroup::Species, &tags.species, blacklist);
    append_group(&mut out, TagGroup::Meta, &tags.meta, blacklist);
    proof {
        let bl = text::views(blacklist@);
        assert forall|g: TagGroup, name: Seq<char>| #[trigger]
            keys_of(out@).contains((g, name)) <==> names_tag(tags.group(g), name) && !bl.contains(
            name,
        ) by {
            law_links_name_their_group(*tags, bl, g, name);
        }
    }
    out
}

/// Some tag that is not empty has the given lower-case name.
pub open spec fn names_tag(tags: Seq<String>, name: Seq<char>) -> bool {
    exists|i: int|
        0 <= i < tags.len() && (#[trigger] tags[i])@.len() > 0 && text::ascii_lowered(tags[i]@)
            == name
}

/// The tags among `tags` that are not empty and have the given lower-case name.
pub open spec fn spellings(tags: Seq<String>, name: Seq<char>) -> Seq<String> {
    tags.filter(|t: String| t@.len() > 0 && text::ascii_lowered(t@) == name)
}

/// How often a key stands among some links.
pub open spec fn times_linked(
    links: Seq<(TagGroup, Seq<char>)>,
    key: (TagGroup, Seq<char>),
) -> nat {
    links.filter(|l: (TagGroup, Seq<char>)| l == key).len()
}

proof fn lemma_group_link_times(
    g: TagGroup,
    tags: Seq<String>,
    blacklist: Seq<Seq<char>>,
    h: TagGroup,
    name: Seq<char>,
)
    ensures
        times_linked(group_links(g, tags, blacklist), (h, name)) == (if g == h
            && !blacklist.contains(name) {
            spellings(tags, name).len()
        } else {
            0
        }),
        group_links(g, tags, blacklist).contains((h, name)) <==> g == h && names_tag(tags, name)
            && !blacklist.contains(name),
    decreases tags.len(),
{
    let key = (h, name);
    let is_key = |l: (TagGroup, Seq<char>)| l == key;
    let is_name = |t: String| t@.len() > 0 && text::ascii_lowered(t@) == name;
    let all = group_links(g, tags, blacklist);
    reveal(Seq::filter);
    if tags.len() > 0 {
        let init = tags.drop_last();
        let last = tags.last();
        let rest = group_links(g, init, blacklist);
        lemma_group_link_times(g, init, blacklist, h, name);
        assert(tags.filter(is_name) == if is_name(last) {
            init.filter(is_name).push(last)
        } else {
            init.filter(is_name)
        });
        if is_linked(last@, blacklist) {
            assert(all.drop_last() =~= rest);
            assert(all.last() == (g, text::ascii_lowered(last@)));
            assert(all.filter(is_key) == if is_key(all.last()) {
                rest.filter(is_key).push(all.last())
            } else {
                rest.filter(is_key)
            });
        }
        if names_tag(init, name) {
            let i = choose|i: int|
                0 <= i < init.len() && (#[trigger] init[i])@.len() > 0 && text::ascii_lowered(
                    init[i]@,
                ) == name;
            assert(tags[i] == init[i]);
        }
        if names_tag(tags, name) {
            let i = choose|i: int|
                0 <= i < tags.len() && (#[trigger] tags[i])@.len() > 0 && text::ascii_lowered(
                    tags[i]@,
                ) == name;
            if i < init.len() {
                assert(init[i] == tags[i]);
            }
        }
        if is_name(last) {
            assert(tags[tags.len() - 1] == last);
            assert(names_tag(tags, name));
        }
        if rest.contains(key) {
            let k = choose|k: int| 0 <= k < rest.len() && rest[k] == key;
            assert(all[k] == key);
        }
        if all.contains(key) {
            let k = choose|k: int| 0 <= k < all.len() && all[k] == key;
            if k < rest.len() {
                assert(rest[k] == key);
            }
        }
        if is_linked(last@, blacklist) && g == h && is_name(last) {
            assert(all[all.len() - 1] == key);
        }
    }
}

proof fn lemma_times_concat(
    a: Seq<(TagGroup, Seq<char>)>,
    b: Seq<(TagGroup, Seq<char>)>,
    key: (TagGroup, Seq<char>),
)
    ensures
        times_linked(a + b, key) == times_linked(a, key) + times_linked(b, key),
        (a + b).contains(key) <==> a.contains(key) || b.contains(key),
{
    Seq::filter_distributes_over_add(a, b, |l: (TagGroup, Seq<char>)| l == key);
    let c = a + b;
    if a.contains(key) {
        let k = choose|k: int| 0 <= k < a.len() && a[k] == key;
        assert(c[k] == key);
    }
    if b.contains(key) {
        let k = choose|k: int| 0 <= k < b.len() && b[k] == key;
        assert(c[a.len() + k] == key);
    }
    if c.contains(key) {
        let k = choose|k: int| 0 <= k < c.len() && c[k] == key;
        if k < a.len() {
            assert(a[k] == key);
        } else {
            assert(b[k - a.len()] == key);
        }
    }
}

/// A name is linked under a group exactly where a tag of that very group that is
/// not empty has it in lower case and it is not blacklisted, and then once for
/// each such tag.
pub proof fn law_links_name_their_group(
    tags: Tags,
    blacklist: Seq<Seq<char>>,
    g: TagGroup,
    name: Seq<char>,
)
    ensures
        post_links(tags, blacklist).contains((g, name)) <==> names_tag(tags.group(g), name)
            && !blacklist.contains(name),
        times_linked(post_links(tags, blacklist), (g, name)) == (if blacklist.contains(name) {
            0
        } else {
            spellings(tags.group(g), name).len()
        }),
{
    let key = (g, name);
    let a = group_links(TagGroup::Artist, tags.artist@, blacklist);
    let b = group_links(TagGroup::Character, tags.character@, blacklist);
    let c = group_links(TagGroup::Copyright, tags.copyright@, blacklist);
    let d = group_links(TagGroup::General, tags.general@, blacklist);
    let e = group_links(TagGroup::Lore, tags.lore@, blacklist);
    let f = group_links(TagGroup::Species, tags.species@, blacklist);
    let m = group_links(TagGroup::Meta, tags.meta@, blacklist);
    lemma_times_concat(a, b, key);
    lemma_times_concat(a + b, c, key);
    lemma_times_concat(a + b + c, d, key);
    lemma_times_concat(a + b + c + d, e, key);
    lemma_times_concat(a + b + c + d + e, f, key);
    lemma_times_concat(a + b + c + d + e + f, m, key);
    lemma_group_link_times(TagGroup::Artist, tags.artist@, blacklist, g, name);
    lemma_group_link_times(TagGroup::Character, tags.character@, blacklist, g, name);
    lemma_group_link_times(TagGroup::Copyright, tags.copyright@, blacklist, g, name);
    lemma_group_link_times(TagGroup::General, tags.general@, blacklist, g, name);
    lemma_group_link_times(TagGroup::Lore, tags.lore@, blacklist, g, name);
    lemma_group_link_times(TagGroup::Species, tags.species@, blacklist, g, name);
    lemma_group_link_times(TagGroup::Meta, tags.meta@, blacklist, g, name);
}

/// The groups of a post in the order in which they are linked.
pub open spec fn group_rank(g: TagGroup) -> int {
    match g {
        TagGroup::Artist => 0,
        TagGroup::Character => 1,
        TagGroup::Copyright => 2,
        TagGroup::General => 3,
        TagGroup::Lore => 4,
        TagGroup::Species => 5,
        TagGroup::Meta => 6,
    }
}

/// The links of a post come group by group.
pub proof fn law_links_come_by_group(tags: Tags, blacklist: Seq<Seq<char>>, i: int, j: int)
    requires
        0 <= i <= j < post_links(tags, blacklist).len(),
    ensures
        group_rank(post_links(tags, blacklist)[i].0) <= group_rank(
            post_links(tags, blacklist)[j].0,
        ),
{
    let a = group_links(TagGroup::Artist, tags.artist@, blacklist);
    let b = group_links(TagGroup::Character, tags.character@, blacklist);
    let c = group_links(TagGroup::Copyright, tags.copyright@, blacklist);
    let d = group_links(TagGroup::General, tags.general@, blacklist);
    let e = group_links(TagGroup::Lore, tags.lore@, blacklist);
    let f = group_links(TagGroup::Species, tags.species@, blacklist);
    let m = group_links(TagGroup::Meta, tags.meta@, blacklist);
    lemma_one_group(TagGroup::Artist, tags.artist@, blacklist);
    lemma_one_group(TagGroup::Character, tags.character@, blacklist);
    lemma_one_group(TagGroup::Copyright, tags.copyright@, blacklist);
    lemma_one_group(TagGroup::General, tags.general@, blacklist);
    lemma_one_group(TagGroup::Lore, tags.lore@, blacklist);
    lemma_one_group(TagGroup::Species, tags.species@, blacklist);
    lemma_one_group(TagGroup::Meta, tags.meta@, blacklist);
    lemma_ranks_concat(a, b, 0);
    lemma_ranks_concat(a + b, c, 1);
    lemma_ranks_concat(a + b + c, d, 2);
    lemma_ranks_concat(a + b + c + d, e, 3);
    lemma_ranks_concat(a + b + c + d + e, f, 4);
    lemma_ranks_concat(a + b + c + d + e + f, m, 5);
}

spec fn ranks_rise(links: Seq<(TagGroup, Seq<char>)>, top: int) -> bool {
    &&& forall|i: int, j: int|
        0 <= i <= j < links.len() ==> group_rank((#[trigger] links[i]).0) <= group_rank(
            (#[trigger] links[j]).0,
        )
    &&& forall|i: int| 0 <= i < links.len() ==> group_rank((#[trigger] links[i]).0) <= top
}

proof fn lemma_one_group(g: TagGroup, tags: Seq<String>, blacklist: Seq<Seq<char>>)
    ensures
        forall|i: int|
            0 <= i < group_links(g, tags, blacklist).len() ==> (#[trigger] group_links(
                g,
                tags,
                blacklist,
            )[i]).0 == g,
        ranks_rise(group_links(g, tags, blacklist), group_rank(g)),
{
    assert forall|i: int| 0 <= i < group_links(g, tags, blacklist).len() implies (
    #[trigger] group_links(g, tags, blacklist)[i]).0 == g by {
        law_links_are_clean(g, tags, blacklist, i);
    }
}

proof fn lemma_ranks_concat(a: Seq<(TagGroup, Seq<char>)>, b: Seq<(TagGroup, Seq<char>)>, top: int)
    requires
        ranks_rise(a, top),
        forall|i: int| 0 <= i < b.len() ==> group_rank((#[trigger] b[i]).0) == top + 1,
    ensures
        ranks_rise(a + b, top + 1),
{
    let c = a + b;
    assert forall|i: int, j: int| 0 <= i <= j < c.len() implies group_rank((#[trigger] c[i]).0)
        <= group_rank((#[trigger] c[j]).0) by {
        if j < a.len() {
            assert(c[i] == a[i] && c[j] == a[j]);
        } else {
            assert(c[j] == b[j - a.len()]);
            if i < a.len() {
                assert(c[i] == a[i]);
            } else {
                assert(c[i] == b[i - a.len()]);
            }
        }
    }
}

/// No linked tag is blacklisted, empty, or spelled with an upper-case letter.
pub proof fn law_links_are_clean(
    g: TagGroup,
    tags: Seq<String>,
    blacklist: Seq<Seq<char>>,
    i: int,
)
    requires
        0 <= i < group_links(g, tags, blacklist).len(),
    ensures
        group_links(g, tags, blacklist)[i].0 == g,
        group_links(g, tags, blacklist)[i].1.len() > 0,
        !blacklist.contains(group_links(g, tags, blacklist)[i].1),
        text::ascii_lowered(group_links(g, tags, blacklist)[i].1) == group_links(
            g,
            tags,
            blacklist,
        )[i].1,
    decreases tags.len(),
{
    let rest = group_links(g, tags.drop_last(), blacklist);
    if i < rest.len() {
        law_links_are_clean(g, tags.drop_last(), blacklist, i);
    } else {
        let low = text::ascii_lowered(tags.last()@);
        assert(text::ascii_lowered(low) =~= low) by {
            assert forall|k: int| 0 <= k < low.len() implies text::ascii_lower(#[trigger] low[k])
                == low[k] by {
                let c = tags.last()@[k];
                if 'A' <= c <= 'Z' {
                    assert(low[k] as u32 == c as u32 + 32);
                }
            }
        }
    }
}

// ---------------------------------------------------------------------------
// Tag ids
// ---------------------------------------------------------------------------

/// The tag ids known so far in a batch.
pub struct TagIdCache {
    pub keys: Vec<TagKey>,
    pub ids: Vec<i64>,
}

impl TagIdCache {
    pub open spec fn wf(&self) -> bool {
        &&& self.keys@.len() == self.ids@.len()
        &&& forall|i: int, j: int|
            0 <= i < j < self.keys@.len() ==> (#[trigger] self.keys@[i]).key() != (
            #[trigger] self.keys@[j]).key()
    }

    /// The id of a key, if it is known.
    pub open spec fn id_of(&self, k: (TagGroup, Seq<char>)) -> Option<i64> {
        if exists|i: int| 0 <= i < self.keys@.len() && (#[trigger] self.keys@[i]).key() == k {
            Some(
                self.ids@[choose|i: int|
                    0 <= i < self.keys@.len() && (#[trigger] self.keys@[i]).key() == k],
            )
        } else {
            None
        }
    }

    pub fn new() -> (r: TagIdCache)
        ensures
            r.wf(),
            forall|k: (TagGroup, Seq<char>)| (#[trigger] r.id_of(k)) is None,
    {
        TagIdCache { keys: Vec::new(), ids: Vec::new() }
    }

    pub fn lookup(&self, key: &TagKey) -> (r: Option<i64>)
        requires
            self.wf(),
        ensures
            r == self.id_of(key.key()),
    {
        let mut i: usize = 0;
        while i < self.keys.len()
            invariant
                self.wf(),
                i <= self.keys.len(),
                forall|k: int| 0 <= k < i ==> (#[trigger] self.keys@[k]).key() != key.key(),
            decreases self.keys.len() - i,
        {
            if self.keys[i].group == key.group && text_eq(
                self.keys[i].name.as_str(),
                key.name.as_str(),
            ) {
                proof {
                    assert(self.keys@[i as int].key() == key.key());
                }
                return Some(self.ids[i]);
            }
            i += 1;
        }
        None
    }

    /// Notes the id of a key that was not known yet.
    pub fn remember(&mut self, key: TagKey, id: i64)
        requires
            old(self).wf(),
            old(self).id_of(key.key()) is None,
        ensures
            final(self).wf(),
            final(self).keys@ == old(self).keys@.push(key),
            final(self).ids@ == old(self).ids@.push(id),
            final(self).id_of(key.key()) == Some(id),
            forall|k: (TagGroup, Seq<char>)|
                k != key.key() ==> (#[trigger] final(self).id_of(k)) == old(self).id_of(k),
    {
        let ghost before = *self;
        self.keys.push(key);
        self.ids.push(id);
        proof {
            let n = before.keys@.len() as int;
            assert(self.keys@[n] == key);
            assert forall|i: int, j: int| 0 <= i < j < self.keys@.len() implies (
            #[trigger] self.keys@[i]).key() != (#[trigger] self.keys@[j]).key() by {
                assert(self.keys@[i] == before.keys@[i]);
                if j < n {
                    assert(self.keys@[j] == before.keys@[j]);
                }
            }
            assert forall|k: (TagGroup, Seq<char>)| k != key.key() implies (
            #[trigger] self.id_of(k)) == before.id_of(k) by {
                if exists|i: int| 0 <= i < n && (#[trigger] before.keys@[i]).key() == k {
                    let i = choose|i: int| 0 <= i < n && (#[trigger] before.keys@[i]).key() == k;
                    assert(self.keys@[i].key() == k);
                } else {
                    if exists|i: int|
                        0 <= i < self.keys@.len() && (#[trigger] self.keys@[i]).key() == k {
                        let i = choose|i: int|
                            0 <= i < self.keys@.len() && (#[trigger] self.keys@[i]).key() == k;
                        assert(before.keys@[i].key() == k);
                    }
                }
            }
        }
    }

    /// The first key that carries the given id.
    pub fn key_of_id(&self, id: i64) -> (r: Option<usize>)
        requires
            self.wf(),
        ensures
            match r {
                Some(i) => {
                    &&& i < self.keys@.len()
                    &&& self.ids@[i as int] == id
                    &&& forall|k: int| 0 <= k < i ==> (#[trigger] self.ids@[k]) != id
                },
                None => !self.ids@.contains(id),
            },
    {
        let mut i: usize = 0;
        while i < self.ids.len()
            invariant
                self.wf(),
                i <= self.ids.len(),
                forall|k: int| 0 <= k < i ==> (#[trigger] self.ids@[k]) != id,
            decreases self.ids.len() - i,
        {
            if self.ids[i] == id {
                return Some(i);
            }
            i += 1;
        }
        None
    }
}

// ---------------------------------------------------------------------------
// After the links of a post are saved
// ---------------------------------------------------------------------------

/// `r` holds the values of `s` once each, in ascending order.
pub open spec fn is_distinct_sorted(r: Seq<i64>, s: Seq<i64>) -> bool {
    &&& forall|i: int, j: int| 0 <= i < j < r.len() ==> r[i] < r[j]
    &&& forall|x: i64| r.contains(x) <==> s.contains(x)
}

/// The distinct values of an ascending list.
fn dedup_sorted(v: &Vec<i64>) -> (r: Vec<i64>)
    requires
        order::ascending(v@),
    ensures
        is_distinct_sorted(r@, v@),
{
    let mut r: Vec<i64> = Vec::new();
    let mut i: usize = 0;
    proof {
        assert(v@.take(0) =~= Seq::<i64>::empty());
    }
    while i < v.len()
        invariant
            i <= v.len(),
            order::ascending(v@),
            forall|a: int, b: int| 0 <= a < b < r@.len() ==> r@[a] < r@[b],
            forall|x: i64| r@.contains(x) <==> v@.take(i as int).contains(x),
            i > 0 ==> r@.len() > 0 && r@.last() == v@[i - 1],
            i == 0 ==> r@.len() == 0,
        decreases v.len() - i,
    {
        let x: i64 = v[i];
        let ghost before = r@;
        let ghost cur = v@.take(i as int);
        let ghost nxt = v@.take(i + 1);
        if r.len() == 0 || r[r.len() - 1] != x {
            r.push(x);
        }
        proof {
            assert(nxt =~= cur.push(x));
            assert(nxt[i as int] == x);
            assert forall|y: i64| r@.contains(y) <==> nxt.contains(y) by {
                if nxt.contains(y) {
                    let k = choose|k: int| 0 <= k < nxt.len() && nxt[k] == y;
                    if k < i {
                        assert(cur[k] == y);
                        assert(cur.contains(y));
                        assert(before.contains(y));
                        let m = choose|m: int| 0 <= m < before.len() && before[m] == y;
                        assert(r@[m] == y);
                    } else {
                        assert(r@[r@.len() - 1] == x);
                    }
                }
                if r@.contains(y) {
                    let k = choose|k: int| 0 <= k < r@.len() && r@[k] == y;
                    if k < before.len() {
                        assert(before[k] == y);
                        assert(before.contains(y));
                        assert(cur.contains(y));
                        let m = choose|m: int| 0 <= m < cur.len() && cur[m] == y;
                        assert(nxt[m] == y);
                    }
                }
            }
            assert forall|a: int, b: int| 0 <= a < b < r@.len() implies r@[a] < r@[b] by {
                if b == before.len() {
                    if a == before.len() - 1 {
                        assert(v@[i - 1] <= v@[i as int]);
                    } else {
                        assert(before[a] < before[before.len() - 1]);
                        assert(v@[i - 1] <= v@[i as int]);
                    }
                }
            }
        }
        i += 1;
    }
    proof {
        assert(v@.take(v@.len() as int) =~= v@);
    }
    r
}

/// The tag ids of a post once its links are saved, and whether there were at
/// least two links. Two links or more are put in order without repeats.
pub fn settle_post_ids(ids: Vec<i64>) -> (r: (Vec<i64>, bool))
    ensures
        r.1 == (ids@.len() >= 2),
        !r.1 ==> r.0@ == ids@,
        r.1 ==> is_distinct_sorted(r.0@, ids@),
{
    if ids.len() < 2 {
        return (ids, false);
    }
    let sorted = sorted_ids(&ids);
    let out = dedup_sorted(&sorted);
    proof {
        broadcast use vstd::seq_lib::group_to_multiset_ensures;

        assert forall|x: i64| out@.contains(x) <==> ids@.contains(x) by {
            assert(sorted@.contains(x) <==> sorted@.to_multiset().count(x) > 0);
            assert(ids@.contains(x) <==> ids@.to_multiset().count(x) > 0);
        }
    }
    (out, true)
}

/// How many new links each tag id got in a batch.
pub struct DfDeltas {
    pub ids: Vec<i64>,
    pub deltas: Vec<i64>,
}

impl DfDeltas {
    pub open spec fn wf(&self) -> bool {
        &&& self.ids@.len() == self.deltas@.len()
        &&& self.ids@.no_duplicates()
        &&& forall|k: int| 0 <= k < self.deltas@.len() ==> (#[trigger] self.deltas@[k]) > 0
    }

    /// The new links of an id.
    pub open spec fn delta(&self, id: i64) -> int {
        if self.ids@.contains(id) {
            self.deltas@[self.ids@.index_of(id)] as int
        } else {
            0
        }
    }

    pub fn new() -> (r: DfDeltas)
        ensures
            r.wf(),
            r.ids@.len() == 0,
            forall|id: i64| #[trigger] r.delta(id) == 0,
    {
        DfDeltas { ids: Vec::new(), deltas: Vec::new() }
    }

    /// Adds new links to an id. Nothing is noted for none.
    pub fn bump(&mut self, id: i64, inserted: i64)
        requires
            old(self).wf(),
            inserted > 0 ==> old(self).delta(id) + inserted <= i64::MAX,
        ensures
            final(self).wf(),
            final(self).ids@ == old(self).ids@ || final(self).ids@ == old(self).ids@.push(id),
            inserted <= 0 ==> *final(self) == *old(self),
            inserted > 0 ==> final(self).delta(id) == old(self).delta(id) + inserted,
            forall|other: i64|
                other != id ==> #[trigger] final(self).delta(other) == old(self).delta(other),
    {
        if inserted <= 0 {
            return;
        }
        let ghost before = *self;
        let mut i: usize = 0;
        while i < self.ids.len()
            invariant
                *self == before,
                before == *old(self),
                before.wf(),
                inserted > 0,
                before.delta(id) + inserted <= i64::MAX,
                i <= self.ids.len(),
                forall|k: int| 0 <= k < i ==> self.ids@[k] != id,
            decreases self.ids.len() - i,
        {
            if self.ids[i] == id {
                proof {
                    assert(before.ids@.contains(id));
                    assert(before.ids@.index_of(id) == i);
                }
                let d: i64 = self.deltas[i];
                self.deltas.set(i, d + inserted);
                proof {
                    assert forall|other: i64| other != id implies #[trigger] self.delta(other)
                        == before.delta(other) by {
                        if before.ids@.contains(other) {
                            assert(before.ids@.index_of(other) != i);
                        }
                    }
                }
                return;
            }
            i += 1;
        }
        self.ids.push(id);
        self.deltas.push(inserted);
        proof {
            let n = before.ids@.len() as int;
            assert(!before.ids@.contains(id));
            assert(self.ids@[n] == id);
            assert(self.ids@.contains(id));
            assert(self.ids@.index_of(id) == n) by {
                let p = self.ids@.index_of(id);
                assert(self.ids@[p] == id);
                if p < n {
                    assert(before.ids@[p] == id);
                }
            }
            assert forall|other: i64| other != id implies #[trigger] self.delta(other)
                == before.delta(other) by {
                if before.ids@.contains(other) {
                    let p = before.ids@.index_of(other);
                    assert(before.ids@[p] == other);
                    assert(self.ids@[p] == other);
                    assert(self.ids@.contains(other));
                    let q = self.ids@.index_of(other);
                    assert(self.ids@[q] == other);
                    assert(q == p);
                } else if self.ids@.contains(other) {
                    let q = self.ids@.index_of(other);
                    assert(self.ids@[q] == other);
                    assert(before.ids@[q] == other);
                }
            }
        }
    }
}

/// What is known of the given tag ids, for those that the batch has seen.
pub fn metas_for(cache: &TagIdCache, ids: &Vec<i64>) -> (r: Vec<TagMeta>)
    requires
        cache.wf(),
    ensures
        forall|k: int|
            0 <= k < r@.len() ==> ids@.contains((#[trigger] r@[k]).id) && is_meta_in(
                r@[k],
                *cache,
            ),
        forall|i: int|
            0 <= i < ids@.len() && cache.ids@.contains(#[trigger] ids@[i]) ==> exists|k: int|
                0 <= k < r@.len() && (#[trigger] r@[k]).id == ids@[i],
{
    let mut out: Vec<TagMeta> = Vec::new();
    let mut i: usize = 0;
    while i < ids.len()
        invariant
            cache.wf(),
            i <= ids.len(),
            forall|k: int|
                0 <= k < out@.len() ==> ids@.contains((#[trigger] out@[k]).id) && is_meta_in(
                    out@[k],
                    *cache,
                ),
            forall|m: int|
                0 <= m < i && cache.ids@.contains(#[trigger] ids@[m]) ==> exists|k: int|
                    0 <= k < out@.len() && (#[trigger] out@[k]).id == ids@[m],
        decreases ids.len() - i,
    {
        let ghost before = out@;
        match cache.key_of_id(ids[i]) {
            Some(p) => {
                let group = String::from_str(cache.keys[p].group.label());
                let meta = TagMeta { id: ids[i], name: cache.keys[p].name.clone(), group };
                out.push(meta);
                proof {
                    assert(ids@.contains(ids@[i as int]));
                    assert(cache.ids@[p as int] == meta.id && meta.name@ == cache.keys@[p as int].name@
                        && meta.group@ == cache.keys@[p as int].group.name());
                    assert(out@[before.len() as int] == meta);
                    assert forall|m: int| 0 <= m < i + 1 && cache.ids@.contains(
                        #[trigger] ids@[m],
                    ) implies exists|k: int|
                        0 <= k < out@.len() && (#[trigger] out@[k]).id == ids@[m] by {
                        if m < i {
                            let k = choose|k: int|
                                0 <= k < before.len() && (#[trigger] before[k]).id == ids@[m];
                            assert(out@[k].id == ids@[m]);
                        }
                    }
                }
            },
            None => {},
        }
        i += 1;
    }
    out
}

/// `m` repeats a key of the batch and its id.
pub open spec fn is_meta_in(m: TagMeta, cache: TagIdCache) -> bool {
    exists|p: int|
        0 <= p < cache.keys@.len() && #[trigger] cache.ids@[p] == m.id && m.name@
            == cache.keys@[p].name@ && m.group@ == cache.keys@[p].group.name()
}

// ---------------------------------------------------------------------------
// Cached tag counts
// ---------------------------------------------------------------------------

/// How long cached counts stay good, in milliseconds.
pub const TAG_COUNTS_CACHE_TTL_MS: u64 = 30_000;

/// Tag counts that were read lately, by account.
pub struct TagCountsCache {
    pub map: TimedMap<i64, Vec<TagCount>>,
}

impl TagCountsCache {
    pub open spec fn wf(&self) -> bool {
        self.map.wf()
    }

    pub fn new() -> (r: TagCountsCache)
        ensures
            r.wf(),
            forall|k: i64| (#[trigger] r.map.find(k)) is None,
    {
        TagCountsCache { map: TimedMap::new() }
    }
}

/// The cached counts of an account, while they are good. Without them the
/// caller reads the table and hands the rows to `store_tag_counts`.
pub fn get_tag_counts(cache: &TagCountsCache, account_id: i32, now_ms: u64) -> (r: Option<
    &Vec<TagCount>,
>)
    requires
        cache.wf(),
    ensures
        match r {
            Some(v) => cache.map.live(account_id as i64, now_ms, TAG_COUNTS_CACHE_TTL_MS)
                == Some(*v),
            None => cache.map.live(account_id as i64, now_ms, TAG_COUNTS_CACHE_TTL_MS) is None,
        },
{
    cache.map.get(&(account_id as i64), now_ms, TAG_COUNTS_CACHE_TTL_MS)
}

/// Caches the counts of an account.
pub fn store_tag_counts(
    cache: &mut TagCountsCache,
    account_id: i32,
    counts: Vec<TagCount>,
    now_ms: u64,
)
    requires
        old(cache).wf(),
    ensures
        final(cache).wf(),
        final(cache).map.find(account_id as i64) == Some(
            TimedEntry { key: account_id as i64, value: counts, at: now_ms },
        ),
        forall|k: i64|
            k != account_id ==> (#[trigger] final(cache).map.find(k)) == old(cache).map.find(k),
{
    cache.map.put(account_id as i64, counts, now_ms);
}

/// Forgets the counts of an account.
pub fn clear_tag_counts_cache(cache: &mut TagCountsCache, account_id: i32)
    requires
        old(cache).wf(),
    ensures
        final(cache).wf(),
        final(cache).map.find(account_id as i64) is None,
        forall|k: i64|
            k != account_id ==> (#[trigger] final(cache).map.find(k)) == old(cache).map.find(k),
{
    cache.map.remove(&(account_id as i64));
}

/// Forgets the counts of every account.
pub fn clear_all_tag_counts_caches(cache: &mut TagCountsCache)
    ensures
        final(cache).wf(),
        final(cache).map.count() == 0,
        forall|k: i64| (#[trigger] final(cache).map.find(k)) is None,
{
    cache.map.clear();
}

/// What was stored is read back for thirty seconds, and not after.
pub proof fn law_tag_counts_expire(
    stored: TagCountsCache,
    account_id: i32,
    counts: Vec<TagCount>,
    at: u64,
    now: u64,
)
    requires
        stored.map.find(account_id as i64) == Some(
            TimedEntry { key: account_id as i64, value: counts, at },
        ),
        at <= now,
    ensures
        stored.map.live(account_id as i64, now, TAG_COUNTS_CACHE_TTL_MS) == (if now - at < 30_000 {
            Some(counts)
        } else {
            None
        }),
{
}

/// The id of a tag is the one listed beside its key.
pub proof fn law_ids_belong_to_their_keys(c: TagIdCache, i: int)
    requires
        c.wf(),
        0 <= i < c.keys@.len(),
    ensures
        c.id_of(c.keys@[i].key()) == Some(c.ids@[i]),
{
}

} // verus!
