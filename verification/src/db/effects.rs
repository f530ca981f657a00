//! What statements do to the tables they name: counting upserts and queries over
//! linked tags, each as a value with its text and its meaning.

use vstd::prelude::*;

use crate::models;
use crate::tally;
use crate::text;

verus! {

// ---------------------------------------------------------------------------
// Counting upserts
// ---------------------------------------------------------------------------

/// A number in a statement: written out, read from a column of the stored row, or
/// the sum of two.
pub enum Term {
    Number(nat),
    Column(Seq<char>),
    Sum(Box<Term>, Box<Term>),
}

impl Term {
    pub open spec fn text(self) -> Seq<char>
        decreases self,
    {
        match self {
            Term::Number(n) => text::dec(n as int),
            Term::Column(c) => c,
            Term::Sum(a, b) => a.text() + " + "@ + b.text(),
        }
    }

    /// What the term comes to where every column it names holds `stored`.
    pub open spec fn value(self, stored: int) -> int
        decreases self,
    {
        match self {
            Term::Number(n) => n as int,
            Term::Column(_) => stored,
            Term::Sum(a, b) => a.value(stored) + b.value(stored),
        }
    }

    /// The term names no column but `c`.
    pub open spec fn reads_only(self, c: Seq<char>) -> bool
        decreases self,
    {
        match self {
            Term::Number(_) => true,
            Term::Column(d) => d == c,
            Term::Sum(a, b) => a.reads_only(c) && b.reads_only(c),
        }
    }
}

/// A statement that counts rows: a row whose key is new is inserted with the
/// count `first`, and one whose key is stored has its count set to `next`.
pub struct Counting {
    pub table: Seq<char>,
    pub key: Seq<Seq<char>>,
    pub counter: Seq<char>,
    pub first: Term,
    pub next: Term,
}

impl Counting {
    /// The statement over the rows whose values are written as `rows`.
    pub open spec fn text(self, rows: Seq<char>) -> Seq<char> {
        "INSERT INTO "@ + self.table + " ("@ + text::joined(self.key.push(self.counter), ", "@)
            + ") VALUES "@ + rows + " ON CONFLICT("@ + text::joined(self.key, ", "@)
            + ") DO UPDATE SET "@ + self.counter + " = "@ + self.next.text()
    }

    /// What the counts are after one row.
    pub open spec fn counted<K>(self, store: Map<K, int>, key: K) -> Map<K, int> {
        if store.dom().contains(key) {
            store.insert(key, self.next.value(store[key]))
        } else {
            store.insert(key, self.first.value(0))
        }
    }

    /// What the counts are after some rows, in order.
    pub open spec fn run<K>(self, store: Map<K, int>, keys: Seq<K>) -> Map<K, int>
        decreases keys.len(),
    {
        if keys.len() == 0 {
            store
        } else {
            self.counted(self.run(store, keys.drop_last()), keys.last())
        }
    }
}

/// The count of a key: zero for one that is not stored.
pub open spec fn count_of<K>(store: Map<K, int>, key: K) -> int {
    if store.dom().contains(key) {
        store[key]
    } else {
        0
    }
}

/// A statement that starts at one and adds one raises the count of every key by
/// as often as it is among the rows, stored before or not.
pub proof fn lemma_counting<K>(c: Counting, store: Map<K, int>, keys: Seq<K>, key: K)
    requires
        c.first.value(0) == 1,
        forall|n: int| #[trigger] c.next.value(n) == n + 1,
    ensures
        count_of(c.run(store, keys), key) == count_of(store, key) + tally::times(keys, key),
    decreases keys.len(),
{
    if keys.len() > 0 {
        lemma_counting(c, store, keys.drop_last(), key);
        let mid = c.run(store, keys.drop_last());
        assert(c.next.value(mid[keys.last()]) == mid[keys.last()] + 1);
    }
}

/// Running the rows of two statements one after the other is running all of them.
pub proof fn lemma_run_concat<K>(c: Counting, store: Map<K, int>, a: Seq<K>, b: Seq<K>)
    ensures
        c.run(c.run(store, a), b) == c.run(store, a + b),
    decreases b.len(),
{
    if b.len() == 0 {
        assert(a + b =~= a);
    } else {
        lemma_run_concat(c, store, a, b.drop_last());
        assert((a + b).drop_last() =~= a + b.drop_last());
    }
}

// ---------------------------------------------------------------------------
// Queries over linked tags
// ---------------------------------------------------------------------------

/// A row of `tags`.
pub struct TagRecord {
    pub id: i64,
    pub name: Seq<char>,
    pub group: Seq<char>,
}

/// A row of `tags_posts`: a tag that a post carries.
pub struct LinkRecord {
    pub tag_id: i64,
    pub post_id: i64,
}

/// A column of a link or of its tag.
pub enum Field {
    LinkPost,
    LinkTag,
    TagId,
    TagName,
    TagKind,
}

impl Field {
    pub open spec fn text(self) -> Seq<char> {
        match self {
            Field::LinkPost => "tp.post_id"@,
            Field::LinkTag => "tp.tag_id"@,
            Field::TagId => "t.id"@,
            Field::TagName => "t.name"@,
            Field::TagKind => "t.group_type"@,
        }
    }

    pub open spec fn value(self, link: LinkRecord, tag: TagRecord) -> models::SqlCell {
        match self {
            Field::LinkPost => models::SqlCell::Integer(link.post_id),
            Field::LinkTag => models::SqlCell::Integer(link.tag_id),
            Field::TagId => models::SqlCell::Integer(tag.id),
            Field::TagName => models::SqlCell::Text(tag.name),
            Field::TagKind => models::SqlCell::Text(tag.group),
        }
    }
}

/// A query over the links and their tags: the columns it selects, the two columns
/// that join a link to a tag, and the columns that have to be in a list.
pub struct LinkQuery {
    pub selected: Seq<Field>,
    pub joins: (Field, Field),
    pub listed: Seq<Field>,
}

/// The texts of some columns.
pub open spec fn field_texts(fields: Seq<Field>) -> Seq<Seq<char>> {
    fields.map_values(|f: Field| f.text())
}

/// The values of some columns.
pub open spec fn field_values(
    fields: Seq<Field>,
    link: LinkRecord,
    tag: TagRecord,
) -> Seq<models::SqlCell> {
    fields.map_values(|f: Field| f.value(link, tag))
}

impl LinkQuery {
    /// The query up to its conditions.
    pub open spec fn head(self, distinct: bool) -> Seq<char> {
        (if distinct {
            "SELECT DISTINCT "@
        } else {
            "SELECT "@
        }) + text::joined(field_texts(self.selected), ", "@)
            + " FROM tags_posts tp INNER JOIN tags t ON "@ + self.joins.0.text() + " = "@
            + self.joins.1.text() + " WHERE "@
    }

    /// A link and a tag give a row of the answer.
    pub open spec fn admits(
        self,
        link: LinkRecord,
        tag: TagRecord,
        lists: Seq<Seq<models::SqlCell>>,
    ) -> bool {
        &&& self.joins.0.value(link, tag) == self.joins.1.value(link, tag)
        &&& forall|i: int|
            0 <= i < self.listed.len() ==> (#[trigger] lists[i]).contains(
                self.listed[i].value(link, tag),
            )
    }

    /// `row` is among the answers over the given links and tags.
    pub open spec fn answers(
        self,
        links: Set<LinkRecord>,
        tags: Set<TagRecord>,
        lists: Seq<Seq<models::SqlCell>>,
        row: Seq<models::SqlCell>,
    ) -> bool {
        exists|link: LinkRecord, tag: TagRecord|
            links.contains(link) && tags.contains(tag) && #[trigger] self.admits(link, tag, lists)
                && row == field_values(self.selected, link, tag)
    }
}

/// The condition that a column is in a list, the list being written as `marks`.
pub open spec fn in_list(f: Field, marks: Seq<char>) -> Seq<char> {
    f.text() + " IN ("@ + marks + ")"@
}

// ---------------------------------------------------------------------------
// Searches in saved posts
// ---------------------------------------------------------------------------

/// A row of `accounts_post`: a post that an account has saved.
pub struct SavedRecord {
    pub account_id: i64,
    pub post_id: i64,
}

/// A column of a saved post.
pub enum SavedField {
    Account,
    Post,
}

impl SavedField {
    pub open spec fn text(self) -> Seq<char> {
        match self {
            SavedField::Account => "ap.account_id"@,
            SavedField::Post => "ap.post_id"@,
        }
    }

    pub open spec fn value(self, row: SavedRecord) -> models::SqlCell {
        match self {
            SavedField::Account => models::SqlCell::Integer(row.account_id),
            SavedField::Post => models::SqlCell::Integer(row.post_id),
        }
    }
}

/// A search in saved posts: the column it selects and sorts by, the column that
/// has to equal the first bound value, and, for each term, the columns by which a
/// link is joined to a tag and to the saved post and the column that has to equal
/// the term.
pub struct SavedSearch {
    pub selected: SavedField,
    pub owner: SavedField,
    pub joins: (Field, Field),
    pub linked: (Field, SavedField),
    pub named: Field,
}

impl SavedSearch {
    /// The condition of one term.
    pub open spec fn term(self) -> Seq<char> {
        "EXISTS (SELECT 1 FROM tags_posts tp JOIN tags t ON "@ + self.joins.0.text() + " = "@
            + self.joins.1.text() + " WHERE "@ + self.linked.0.text() + " = "@
            + self.linked.1.text() + " AND "@ + self.named.text() + " = ? COLLATE NOCASE)"@
    }

    /// The search up to its terms.
    pub open spec fn head(self) -> Seq<char> {
        "SELECT "@ + self.selected.text() + " FROM accounts_post ap WHERE "@ + self.owner.text()
            + " = ?1"@
    }

    /// What follows the terms: the highest first, and a page of them.
    pub open spec fn page(self) -> Seq<char> {
        " ORDER BY "@ + self.selected.text() + " DESC LIMIT ? OFFSET ?"@
    }

    /// A saved post meets a term: it has a link to a tag of that name, in whatever
    /// case.
    pub open spec fn meets(
        self,
        row: SavedRecord,
        links: Set<LinkRecord>,
        tags: Set<TagRecord>,
        term: Seq<char>,
    ) -> bool {
        exists|link: LinkRecord, tag: TagRecord|
            #[trigger] links.contains(link) && #[trigger] tags.contains(tag)
                && self.joins.0.value(link, tag) == self.joins.1.value(link, tag)
                && self.linked.0.value(link, tag) == self.linked.1.value(row) && same_but_case(
                self.named.value(link, tag),
                models::SqlCell::Text(term),
            )
    }

    /// `value` is among the answers, whichever page is asked for.
    pub open spec fn answers(
        self,
        saved: Set<SavedRecord>,
        links: Set<LinkRecord>,
        tags: Set<TagRecord>,
        account: i64,
        terms: Seq<Seq<char>>,
        value: models::SqlCell,
    ) -> bool {
        exists|row: SavedRecord|
            #[trigger] saved.contains(row) && self.owner.value(row) == models::SqlCell::Integer(
                account,
            ) && self.selected.value(row) == value && forall|i: int|
                0 <= i < terms.len() ==> self.meets(row, links, tags, #[trigger] terms[i])
    }
}

/// Two texts are equal but for the case of their ASCII letters.
pub open spec fn same_but_case(a: models::SqlCell, b: models::SqlCell) -> bool {
    match (a, b) {
        (models::SqlCell::Text(x), models::SqlCell::Text(y)) => text::ascii_lowered(x)
            == text::ascii_lowered(y),
        _ => false,
    }
}

} // verus!
