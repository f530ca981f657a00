//! Searches in the saved posts of an account.

use vstd::prelude::*;

use crate::db::effects;
use crate::db::sql::BoundStatement;
use crate::models;
use crate::models::SqlValue;
use crate::text;
use crate::text::{chars_of, trim};

verus! {

/// The condition that a post carries one tag.
pub open spec fn term_sql() -> Seq<char> {
    "EXISTS (SELECT 1 FROM tags_posts tp JOIN tags t ON t.id = tp.tag_id "@
        + "WHERE tp.post_id = ap.post_id AND t.name = ? COLLATE NOCASE)"@
}

/// The conditions of `n` tags.
pub open spec fn terms_sql(n: nat) -> Seq<char>
    decreases n,
{
    if n == 0 {
        Seq::empty()
    } else if n == 1 {
        term_sql()
    } else {
        terms_sql((n - 1) as nat) + "\n  AND "@ + term_sql()
    }
}

/// The statement of a search for `n` tags.
pub open spec fn search_sql(n: nat) -> Seq<char> {
    "SELECT ap.post_id FROM accounts_post ap WHERE ap.account_id = ?1"@ + (if n > 0 {
        " AND "@ + terms_sql(n)
    } else {
        Seq::empty()
    }) + " ORDER BY ap.post_id DESC LIMIT ? OFFSET ?"@
}

/// The values of a search: the account, the tags, the limit and the offset.
pub open spec fn search_cells(account_id: i32, terms: Seq<String>, limit: i64, offset: i64) -> Seq<
    models::SqlCell,
> {
    seq![models::SqlCell::Integer(account_id as i64)] + terms.map_values(
        |t: String| models::SqlCell::Text(t@),
    ) + seq![models::SqlCell::Integer(limit), models::SqlCell::Integer(offset)]
}

fn append_term(s: &mut String)
    ensures
        final(s)@ == old(s)@ + term_sql(),
{
    s.append("EXISTS (SELECT 1 FROM tags_posts tp JOIN tags t ON t.id = tp.tag_id ");
    s.append("WHERE tp.post_id = ap.post_id AND t.name = ? COLLATE NOCASE)");
    proof {
        assert(s@ =~= old(s)@ + term_sql());
    }
}

/// The search for an account's saved posts that carry all of some tags, newest
/// first.
pub fn catalog_search_post_ids(
    account_id: i32,
    terms: &Vec<String>,
    limit: i64,
    offset: i64,
) -> (r: BoundStatement)
    ensures
        r.sql@ == search_sql(terms@.len()),
        models::cells(r.values@) == search_cells(account_id, terms@, limit, offset),
{
    let mut s = String::from_str(
        "SELECT ap.post_id FROM accounts_post ap WHERE ap.account_id = ?1",
    );
    let mut values: Vec<SqlValue> = Vec::new();
    values.push(SqlValue::Integer(account_id as i64));
    let ghost head = s@;
    let ghost first = seq![models::SqlCell::Integer(account_id as i64)];
    let mut i: usize = 0;
    proof {
        assert(models::cells(values@) =~= first);
        assert(first + terms@.take(0).map_values(|t: String| models::SqlCell::Text(t@)) =~= first);
    }
    while i < terms.len()
        invariant
            i <= terms.len(),
            s@ == (if i == 0 {
                head
            } else {
                head + (" AND "@ + terms_sql(i as nat))
            }),
            models::cells(values@) == first + terms@.take(i as int).map_values(
                |t: String| models::SqlCell::Text(t@),
            ),
        decreases terms.len() - i,
    {
        let ghost before = values@;
        let ghost before_s = s@;
        if i == 0 {
            s.append(" AND ");
        } else {
            s.append("\n  AND ");
        }
        append_term(&mut s);
        values.push(SqlValue::Text(terms[i].clone()));
        proof {
            if i == 0 {
                assert(s@ =~= head + (" AND "@ + terms_sql(1)));
            } else {
                assert(s@ =~= head + (" AND "@ + terms_sql((i + 1) as nat)));
            }
            let c = models::SqlCell::Text(terms@[i as int]@);
            assert(models::cells(values@) =~= models::cells(before).push(c));
            assert(terms@.take(i + 1).map_values(|t: String| models::SqlCell::Text(t@))
                =~= terms@.take(i as int).map_values(
                |t: String| models::SqlCell::Text(t@),
            ).push(c));
        }
        i += 1;
    }
    s.append(" ORDER BY ap.post_id DESC LIMIT ? OFFSET ?");
    let ghost before = values@;
    values.push(SqlValue::Integer(limit));
    values.push(SqlValue::Integer(offset));
    proof {
        assert(terms@.take(terms@.len() as int) =~= terms@);
        assert(models::cells(values@) =~= models::cells(before).push(
            models::SqlCell::Integer(limit),
        ).push(models::SqlCell::Integer(offset)));
        assert(models::cells(values@) =~= search_cells(account_id, terms@, limit, offset));
        if terms@.len() == 0 {
            assert(head + Seq::<char>::empty() =~= head);
        }
        assert(s@ =~= search_sql(terms@.len()));
    }
    BoundStatement { sql: s, values }
}

/// The characters that `LIKE` gives a meaning of their own, and the escape.
pub open spec fn is_wild(c: char) -> bool {
    c == '\\' || c == '%' || c == '_'
}

/// A text for `LIKE` that stands for itself.
pub open spec fn like_escaped(s: Seq<char>) -> Seq<char>
    decreases s.len(),
{
    if s.len() == 0 {
        Seq::empty()
    } else if is_wild(s.last()) {
        like_escaped(s.drop_last()).push('\\').push(s.last())
    } else {
        like_escaped(s.drop_last()).push(s.last())
    }
}

/// The pattern of the suggestions for a prefix; none for a blank one.
pub fn catalog_tag_suggest(prefix: &str) -> (r: Option<String>)
    ensures
        match r {
            Some(p) => text::trimmed(prefix@).len() > 0 && p@ == like_escaped(prefix@).push('%'),
            None => text::trimmed(prefix@).len() == 0,
        },
{
    if trim(prefix).as_str().is_empty() {
        return None;
    }
    let v = chars_of(prefix);
    let mut s = String::new();
    let mut i: usize = 0;
    while i < v.len()
        invariant
            i <= v.len(),
            s@ == like_escaped(v@.take(i as int)),
        decreases v.len() - i,
    {
        let c = v[i];
        proof {
            assert(v@.take(i + 1).drop_last() =~= v@.take(i as int));
            assert(v@.take(i + 1).last() == c);
        }
        if c == '\\' || c == '%' || c == '_' {
            s.push('\\');
        }
        s.push(c);
        i += 1;
    }
    proof {
        assert(v@.take(v@.len() as int) =~= prefix@);
    }
    s.push('%');
    Some(s)
}

/// What a pattern with escapes stands for, as far as it has no wildcards.
pub open spec fn like_meaning(p: Seq<char>) -> Option<Seq<char>>
    decreases p.len(),
{
    if p.len() == 0 {
        Some(Seq::empty())
    } else if p[0] == '\\' {
        if p.len() < 2 {
            None
        } else {
            match like_meaning(p.skip(2)) {
                Some(t) => Some(seq![p[1]] + t),
                None => None,
            }
        }
    } else if p[0] == '%' || p[0] == '_' {
        None
    } else {
        match like_meaning(p.skip(1)) {
            Some(t) => Some(seq![p[0]] + t),
            None => None,
        }
    }
}

proof fn lemma_escape_front(c: char, s: Seq<char>)
    ensures
        like_escaped(seq![c] + s) == (if is_wild(c) {
            seq!['\\', c]
        } else {
            seq![c]
        }) + like_escaped(s),
    decreases s.len(),
{
    let whole = seq![c] + s;
    let front = if is_wild(c) {
        seq!['\\', c]
    } else {
        seq![c]
    };
    if s.len() == 0 {
        assert(whole =~= seq![c]);
        assert(whole.drop_last() =~= Seq::<char>::empty());
        assert(like_escaped(whole.drop_last()) =~= Seq::<char>::empty());
        assert(like_escaped(whole) =~= front + like_escaped(s));
    } else {
        assert(whole.drop_last() =~= seq![c] + s.drop_last());
        assert(whole.last() == s.last());
        lemma_escape_front(c, s.drop_last());
        assert(like_escaped(whole) =~= front + like_escaped(s));
    }
}

/// An escaped prefix stands for itself: what the user typed has no wildcards.
pub proof fn law_prefix_stands_for_itself(s: Seq<char>)
    ensures
        like_meaning(like_escaped(s)) == Some(s),
    decreases s.len(),
{
    if s.len() > 0 {
        let rest = s.drop_first();
        law_prefix_stands_for_itself(rest);
        assert(s =~= seq![s[0]] + rest);
        lemma_escape_front(s[0], rest);
        let p = like_escaped(s);
        if is_wild(s[0]) {
            assert(p.skip(2) =~= like_escaped(rest));
        } else {
            assert(p.skip(1) =~= like_escaped(rest));
        }
    }
}

/// The search for the saved posts of an account that carry all of some tags.
pub open spec fn saved_search() -> effects::SavedSearch {
    effects::SavedSearch {
        selected: effects::SavedField::Post,
        owner: effects::SavedField::Account,
        joins: (effects::Field::TagId, effects::Field::LinkTag),
        linked: (effects::Field::LinkPost, effects::SavedField::Post),
        named: effects::Field::TagName,
    }
}

/// A post carries a tag of the given name, in whatever case.
pub open spec fn carries(
    links: Set<effects::LinkRecord>,
    tags: Set<effects::TagRecord>,
    post: i64,
    name: Seq<char>,
) -> bool {
    exists|link: effects::LinkRecord, tag: effects::TagRecord|
        #[trigger] links.contains(link) && #[trigger] tags.contains(tag) && link.post_id == post
            && link.tag_id == tag.id && text::ascii_lowered(tag.name) == text::ascii_lowered(name)
}

/// `n` times the same part.
pub open spec fn repeated(part: Seq<char>, n: nat) -> Seq<Seq<char>> {
    Seq::new(n, |k: int| part)
}

proof fn lemma_terms_joined(n: nat)
    ensures
        terms_sql(n) == text::joined(repeated(term_sql(), n), "\n  AND "@),
    decreases n,
{
    let parts = repeated(term_sql(), n);
    if n > 1 {
        lemma_terms_joined((n - 1) as nat);
        assert(parts.drop_last() =~= repeated(term_sql(), (n - 1) as nat));
    }
}

proof fn lemma_search_texts()
    ensures
        term_sql() == saved_search().term(),
        "SELECT ap.post_id FROM accounts_post ap WHERE ap.account_id = ?1"@ == saved_search().head(),
        " ORDER BY ap.post_id DESC LIMIT ? OFFSET ?"@ == saved_search().page(),
{
    let q = saved_search();
    reveal_strlit("EXISTS (SELECT 1 FROM tags_posts tp JOIN tags t ON t.id = tp.tag_id ");
    reveal_strlit("WHERE tp.post_id = ap.post_id AND t.name = ? COLLATE NOCASE)");
    reveal_strlit("EXISTS (SELECT 1 FROM tags_posts tp JOIN tags t ON ");
    reveal_strlit("t.id");
    reveal_strlit(" = ");
    reveal_strlit("tp.tag_id");
    reveal_strlit(" WHERE ");
    reveal_strlit("tp.post_id");
    reveal_strlit("ap.post_id");
    reveal_strlit(" AND ");
    reveal_strlit("t.name");
    reveal_strlit(" = ? COLLATE NOCASE)");
    reveal_strlit("SELECT ap.post_id FROM accounts_post ap WHERE ap.account_id = ?1");
    reveal_strlit("SELECT ");
    reveal_strlit(" FROM accounts_post ap WHERE ");
    reveal_strlit("ap.account_id");
    reveal_strlit(" = ?1");
    reveal_strlit(" ORDER BY ap.post_id DESC LIMIT ? OFFSET ?");
    reveal_strlit(" ORDER BY ");
    reveal_strlit(" DESC LIMIT ? OFFSET ?");
    assert(term_sql() =~= q.term());
    assert("SELECT ap.post_id FROM accounts_post ap WHERE ap.account_id = ?1"@ =~= q.head());
    assert(" ORDER BY ap.post_id DESC LIMIT ? OFFSET ?"@ =~= q.page());
}

/// The search asks for exactly the account's saved posts that carry every one of
/// the tags, whatever is saved and linked; newest first and one page of them.
pub proof fn law_search_finds_what_carries_all(
    saved: Set<effects::SavedRecord>,
    links: Set<effects::LinkRecord>,
    tags: Set<effects::TagRecord>,
    account: i64,
    terms: Seq<Seq<char>>,
    post: i64,
)
    ensures
        search_sql(terms.len()) == saved_search().head() + (if terms.len() > 0 {
            " AND "@ + text::joined(
                repeated(saved_search().term(), terms.len()),
                "\n  AND "@,
            )
        } else {
            Seq::empty()
        }) + saved_search().page(),
        saved_search().answers(saved, links, tags, account, terms, models::SqlCell::Integer(post))
            <==> saved.contains(effects::SavedRecord { account_id: account, post_id: post })
            && forall|i: int|
            0 <= i < terms.len() ==> carries(links, tags, post, #[trigger] terms[i]),
{
    let q = saved_search();
    lemma_search_texts();
    lemma_terms_joined(terms.len());
    let cell = models::SqlCell::Integer(post);
    let own = effects::SavedRecord { account_id: account, post_id: post };
    assert forall|row: effects::SavedRecord, i: int|
        0 <= i < terms.len() && row.post_id == post implies #[trigger] q.meets(
        row,
        links,
        tags,
        terms[i],
    ) == carries(links, tags, post, terms[i]) by {
        lemma_meets(row, links, tags, terms[i]);
    }
    if q.answers(saved, links, tags, account, terms, cell) {
        let row = choose|row: effects::SavedRecord|
            #[trigger] saved.contains(row) && q.owner.value(row) == models::SqlCell::Integer(
                account,
            ) && q.selected.value(row) == cell && forall|i: int|
                0 <= i < terms.len() ==> q.meets(row, links, tags, #[trigger] terms[i]);
        assert(row == own);
        assert forall|i: int| 0 <= i < terms.len() implies carries(
            links,
            tags,
            post,
            #[trigger] terms[i],
        ) by {
            assert(q.meets(row, links, tags, terms[i]));
        }
    }
    if saved.contains(own) && forall|i: int|
        0 <= i < terms.len() ==> carries(links, tags, post, #[trigger] terms[i]) {
        assert forall|i: int| 0 <= i < terms.len() implies q.meets(
            own,
            links,
            tags,
            #[trigger] terms[i],
        ) by {
            assert(carries(links, tags, post, terms[i]));
        }
    }
}

proof fn lemma_meets(
    row: effects::SavedRecord,
    links: Set<effects::LinkRecord>,
    tags: Set<effects::TagRecord>,
    term: Seq<char>,
)
    ensures
        saved_search().meets(row, links, tags, term) == carries(links, tags, row.post_id, term),
{
    let q = saved_search();
    if q.meets(row, links, tags, term) {
        let (link, tag) = choose|link: effects::LinkRecord, tag: effects::TagRecord|
            #[trigger] links.contains(link) && #[trigger] tags.contains(tag) && q.joins.0.value(
                link,
                tag,
            ) == q.joins.1.value(link, tag) && q.linked.0.value(link, tag) == q.linked.1.value(row)
                && effects::same_but_case(q.named.value(link, tag), models::SqlCell::Text(term));
        assert(links.contains(link) && tags.contains(tag));
    }
    if carries(links, tags, row.post_id, term) {
        let (link, tag) = choose|link: effects::LinkRecord, tag: effects::TagRecord|
            #[trigger] links.contains(link) && #[trigger] tags.contains(tag) && link.post_id
                == row.post_id && link.tag_id == tag.id && text::ascii_lowered(tag.name)
                == text::ascii_lowered(term);
        assert(links.contains(link) && tags.contains(tag));
    }
}

/// The account is bound first, every term to its own condition, and the limit and
/// the offset last.
pub proof fn law_search_binds(account_id: i32, terms: Seq<String>, limit: i64, offset: i64, i: int)
    requires
        0 <= i < terms.len(),
    ensures
        ({
            let cells = search_cells(account_id, terms, limit, offset);
            let n = terms.len() as int;
            &&& cells.len() == n + 3
            &&& cells[0] == models::SqlCell::Integer(account_id as i64)
            &&& cells[1 + i] == models::SqlCell::Text(terms[i]@)
            &&& cells[n + 1] == models::SqlCell::Integer(limit)
            &&& cells[n + 2] == models::SqlCell::Integer(offset)
        }),
{
}

} // verus!
