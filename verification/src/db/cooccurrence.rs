//! Tag co-occurrence: pairs of a post's tags, the statements that count them,
//! and the relation graph of an account.

use std::collections::HashMap;

use vstd::prelude::*;

use crate::db::effects;
use crate::db::sql;
use crate::db::sql::{chunks_of, BoundStatement};
use crate::models;
use crate::models::{SqlValue, TagCount, TagGroup};
use crate::order;
use crate::order::sort_ints;
use crate::tally;
use crate::text;
use crate::text::{dec_i64, dec_usize, text_at_most, text_eq};

verus! {

pub const COOC_PAIRS_PER_STATEMENT: usize = 200;

pub const COOC_ACCOUNT_PAIRS_PER_STMT: usize = 100;

// ---------------------------------------------------------------------------
// Pairs
// ---------------------------------------------------------------------------

/// The two ids with the smaller one first.
pub open spec fn ordered_pair(a: i64, b: i64) -> (i64, i64) {
    if a < b {
        (a, b)
    } else {
        (b, a)
    }
}

/// The pairs of position `i` with each of the positions after it, up to `n`.
pub open spec fn row_pairs(ids: Seq<i64>, i: int, n: int) -> Seq<(i64, i64)>
    decreases n - i,
{
    if n <= i + 1 {
        Seq::empty()
    } else {
        row_pairs(ids, i, n - 1).push(ordered_pair(ids[i], ids[n - 1]))
    }
}

/// The pairs that start at one of the first `m` positions.
pub open spec fn pairs_upto(ids: Seq<i64>, m: int) -> Seq<(i64, i64)>
    decreases m,
{
    if m <= 0 {
        Seq::empty()
    } else {
        pairs_upto(ids, m - 1) + row_pairs(ids, m - 1, ids.len() as int)
    }
}

/// Every pair of positions once.
pub open spec fn all_pairs(ids: Seq<i64>) -> Seq<(i64, i64)> {
    pairs_upto(ids, ids.len() as int)
}

/// The pairs of a post's tag ids, each with the smaller id first.
pub fn tag_pairs(tag_ids: &Vec<i64>) -> (r: Vec<(i64, i64)>)
    ensures
        r@ == all_pairs(tag_ids@),
{
    let n: usize = tag_ids.len();
    let mut pairs: Vec<(i64, i64)> = Vec::new();
    let mut i: usize = 0;
    while i < n
        invariant
            n == tag_ids.len(),
            i <= n,
            pairs@ == pairs_upto(tag_ids@, i as int),
        decreases n - i,
    {
        let a: i64 = tag_ids[i];
        let mut j: usize = i + 1;
        let ghost before = pairs@;
        proof {
            assert(before + row_pairs(tag_ids@, i as int, i + 1) =~= before);
        }
        while j < n
            invariant
                n == tag_ids.len(),
                i < j <= n,
                a == tag_ids@[i as int],
                pairs@ == before + row_pairs(tag_ids@, i as int, j as int),
            decreases n - j,
        {
            let b: i64 = tag_ids[j];
            let ghost mid = pairs@;
            if a < b {
                pairs.push((a, b));
            } else {
                pairs.push((b, a));
            }
            proof {
                assert(pairs@ =~= mid.push(ordered_pair(a, b)));
                assert(pairs@ =~= before + row_pairs(tag_ids@, i as int, j + 1));
            }
            j += 1;
        }
        i += 1;
    }
    pairs
}

proof fn lemma_row_pairs(ids: Seq<i64>, i: int, n: int, k: int)
    requires
        0 <= i < n <= ids.len(),
        0 <= k < n - i - 1,
    ensures
        row_pairs(ids, i, n).len() == n - i - 1,
        row_pairs(ids, i, n)[k] == ordered_pair(ids[i], ids[i + 1 + k]),
    decreases n,
{
    lemma_row_pairs_len(ids, i, n);
    lemma_row_pairs_len(ids, i, n - 1);
    if k < n - i - 2 {
        lemma_row_pairs(ids, i, n - 1, k);
    }
}

proof fn lemma_row_pairs_len(ids: Seq<i64>, i: int, n: int)
    requires
        0 <= i,
    ensures
        row_pairs(ids, i, n).len() == (if n <= i + 1 {
            0
        } else {
            n - i - 1
        }),
    decreases n,
{
    if n > i + 1 {
        lemma_row_pairs_len(ids, i, n - 1);
    }
}

proof fn lemma_pairs_prefix(ids: Seq<i64>, m: int, k: int)
    requires
        0 <= m <= k,
    ensures
        pairs_upto(ids, m).is_prefix_of(pairs_upto(ids, k)),
    decreases k,
{
    if m < k {
        lemma_pairs_prefix(ids, m, k - 1);
        let a = pairs_upto(ids, m);
        let b = pairs_upto(ids, k - 1);
        let c = pairs_upto(ids, k);
        assert(c.subrange(0, a.len() as int) =~= b.subrange(0, a.len() as int));
    } else {
        let a = pairs_upto(ids, m);
        assert(a.subrange(0, a.len() as int) =~= a);
    }
}

/// Every two positions of the list give a pair.
pub proof fn law_pairs_complete(ids: Seq<i64>, i: int, j: int)
    requires
        0 <= i < j < ids.len(),
    ensures
        all_pairs(ids).contains(ordered_pair(ids[i], ids[j])),
{
    let n = ids.len() as int;
    lemma_row_pairs(ids, i, n, j - i - 1);
    let head = pairs_upto(ids, i);
    let upto = pairs_upto(ids, i + 1);
    lemma_pairs_prefix(ids, i + 1, n);
    let at = head.len() + (j - i - 1);
    assert(upto[at] == ordered_pair(ids[i], ids[j]));
    assert(all_pairs(ids).subrange(0, upto.len() as int)[at] == upto[at]);
    assert(all_pairs(ids)[at] == ordered_pair(ids[i], ids[j]));
}

/// The pairs of distinct ascending ids all have the smaller id first, strictly.
pub proof fn law_pairs_canonical(ids: Seq<i64>, k: int)
    requires
        forall|i: int, j: int| 0 <= i < j < ids.len() ==> ids[i] < ids[j],
        0 <= k < all_pairs(ids).len(),
    ensures
        all_pairs(ids)[k].0 < all_pairs(ids)[k].1,
{
    lemma_canonical_upto(ids, ids.len() as int, k);
}

proof fn lemma_canonical_upto(ids: Seq<i64>, m: int, k: int)
    requires
        forall|i: int, j: int| 0 <= i < j < ids.len() ==> ids[i] < ids[j],
        0 <= m <= ids.len(),
        0 <= k < pairs_upto(ids, m).len(),
    ensures
        pairs_upto(ids, m)[k].0 < pairs_upto(ids, m)[k].1,
    decreases m,
{
    let head = pairs_upto(ids, m - 1);
    if k < head.len() {
        lemma_canonical_upto(ids, m - 1, k);
    } else {
        lemma_row_pairs_len(ids, m - 1, ids.len() as int);
        lemma_row_pairs(ids, m - 1, ids.len() as int, k - head.len());
    }
}

proof fn lemma_row_times(ids: Seq<i64>, i: int, n: int, x: i64, y: i64)
    requires
        ids.no_duplicates(),
        0 <= i < ids.len(),
        n <= ids.len(),
    ensures
        tally::times(row_pairs(ids, i, n), (x, y)) == (if x < y && exists|j: int|
            i < j < n && ((ids[i] == x && #[trigger] ids[j] == y) || (ids[i] == y && ids[j]
                == x)) {
            1int
        } else {
            0int
        }),
    decreases n,
{
    if n > i + 1 {
        lemma_row_times(ids, i, n - 1, x, y);
        let rest = row_pairs(ids, i, n - 1);
        let all = row_pairs(ids, i, n);
        assert(all.drop_last() =~= rest);
        assert(ids[i] != ids[n - 1]);
        if x < y && ((ids[i] == x && ids[n - 1] == y) || (ids[i] == y && ids[n - 1] == x)) {
            assert(all.last() == (x, y));
        }
        if exists|j: int|
            i < j < n - 1 && ((ids[i] == x && #[trigger] ids[j] == y) || (ids[i] == y && ids[j]
                == x)) {
            let j = choose|j: int|
                i < j < n - 1 && ((ids[i] == x && #[trigger] ids[j] == y) || (ids[i] == y && ids[j]
                    == x));
            assert(ids[j] != ids[n - 1]);
        }
    }
}

proof fn lemma_upto_times(ids: Seq<i64>, m: int, x: i64, y: i64, a: int, b: int)
    requires
        ids.no_duplicates(),
        0 <= m <= ids.len(),
        0 <= a < ids.len(),
        0 <= b < ids.len(),
        ids[a] == x,
        ids[b] == y,
        x < y,
    ensures
        tally::times(pairs_upto(ids, m), (x, y)) == (if a < m || b < m {
            1int
        } else {
            0int
        }),
    decreases m,
{
    if m > 0 {
        let n = ids.len() as int;
        lemma_upto_times(ids, m - 1, x, y, a, b);
        lemma_row_times(ids, m - 1, n, x, y);
        tally::lemma_times_concat(pairs_upto(ids, m - 1), row_pairs(ids, m - 1, n), (x, y));
        if a == m - 1 {
            if b > a {
                assert(ids[b] == y);
            }
        }
        if b == m - 1 {
            if a > b {
                assert(ids[a] == x);
            }
        }
    }
}

proof fn lemma_pairs_from(ids: Seq<i64>, m: int, k: int)
    requires
        0 <= m <= ids.len(),
        0 <= k < pairs_upto(ids, m).len(),
    ensures
        exists|i: int, j: int|
            0 <= i < j < ids.len() && pairs_upto(ids, m)[k] == ordered_pair(
                #[trigger] ids[i],
                #[trigger] ids[j],
            ),
    decreases m,
{
    let head = pairs_upto(ids, m - 1);
    if k < head.len() {
        lemma_pairs_from(ids, m - 1, k);
    } else {
        let n = ids.len() as int;
        lemma_row_pairs_len(ids, m - 1, n);
        lemma_row_pairs(ids, m - 1, n, k - head.len());
        let j = m + (k - head.len());
        assert(pairs_upto(ids, m)[k] == ordered_pair(ids[m - 1], ids[j]));
    }
}

/// Distinct tags give each pair of two of them once, with the smaller id first,
/// and no other pair.
pub proof fn law_each_pair_once(ids: Seq<i64>, x: i64, y: i64)
    requires
        ids.no_duplicates(),
    ensures
        tally::times(all_pairs(ids), (x, y)) == (if x < y && ids.contains(x) && ids.contains(y) {
            1int
        } else {
            0int
        }),
{
    let all = all_pairs(ids);
    if x < y && ids.contains(x) && ids.contains(y) {
        let a = choose|a: int| 0 <= a < ids.len() && ids[a] == x;
        let b = choose|b: int| 0 <= b < ids.len() && ids[b] == y;
        lemma_upto_times(ids, ids.len() as int, x, y, a, b);
    } else {
        tally::lemma_times_bounds(all, (x, y));
        if all.contains((x, y)) {
            let k = choose|k: int| 0 <= k < all.len() && all[k] == (x, y);
            lemma_pairs_from(ids, ids.len() as int, k);
            let (i, j) = choose|i: int, j: int|
                0 <= i < j < ids.len() && all[k] == ordered_pair(
                    #[trigger] ids[i],
                    #[trigger] ids[j],
                );
            assert(ids[i] != ids[j]);
        }
    }
}

/// There are as many pairs as two different positions can be chosen.
pub proof fn law_number_of_pairs(ids: Seq<i64>)
    ensures
        2 * all_pairs(ids).len() == ids.len() * (ids.len() - 1),
{
    lemma_upto_len(ids, ids.len() as int);
    let n = ids.len() as int;
    assert(2 * n * n - n * (n + 1) == n * (n - 1)) by (nonlinear_arith);
}

proof fn lemma_upto_len(ids: Seq<i64>, m: int)
    requires
        0 <= m <= ids.len(),
    ensures
        2 * pairs_upto(ids, m).len() == 2 * m * ids.len() - m * (m + 1),
    decreases m,
{
    let n = ids.len() as int;
    if m == 0 {
        assert(2 * 0 * n - 0 * (0 + 1) == 0) by (nonlinear_arith);
    } else {
        lemma_upto_len(ids, m - 1);
        lemma_row_pairs_len(ids, m - 1, n);
        assert(2 * m * n - m * (m + 1) == 2 * (m - 1) * n - (m - 1) * (m - 1 + 1) + 2 * (n - m))
            by (nonlinear_arith);
    }
}

// ---------------------------------------------------------------------------
// Statements
// ---------------------------------------------------------------------------

/// `n` value groups of the catalog-wide statement.
pub open spec fn pair_groups(n: nat) -> Seq<char>
    decreases n,
{
    if n == 0 {
        Seq::empty()
    } else if n == 1 {
        "(?,?,1)"@
    } else {
        pair_groups((n - 1) as nat) + ","@ + "(?,?,1)"@
    }
}

/// The statement that counts `n` pairs of the catalog.
pub open spec fn pair_statement(n: nat) -> Seq<char> {
    "INSERT INTO tag_cooccurrence (tag1_id, tag2_id, cooc_count) VALUES "@ + pair_groups(n)
        + " ON CONFLICT(tag1_id, tag2_id) DO UPDATE SET cooc_count = cooc_count + 1"@
}

pub fn pair_statement_sql(n: usize) -> (r: String)
    ensures
        r@ == pair_statement(n as nat),
{
    let mut sql = String::from_str(
        "INSERT INTO tag_cooccurrence (tag1_id, tag2_id, cooc_count) VALUES ",
    );
    let ghost head = sql@;
    let mut i: usize = 0;
    proof {
        assert(head + pair_groups(0) =~= head);
    }
    while i < n
        invariant
            i <= n,
            sql@ == head + pair_groups(i as nat),
        decreases n - i,
    {
        if i > 0 {
            sql.append(",");
        }
        sql.append("(?,?,1)");
        proof {
            assert(sql@ =~= head + pair_groups((i + 1) as nat));
        }
        i += 1;
    }
    sql.append(" ON CONFLICT(tag1_id, tag2_id) DO UPDATE SET cooc_count = cooc_count + 1");
    sql
}

/// One value group of the per-account statement, from placeholder `p` on.
pub open spec fn account_group(p: int) -> Seq<char> {
    "(?1, ?"@ + text::dec(p) + ", ?"@ + text::dec(p + 1) + ", ?"@ + text::dec(p + 2) + ", ?"@
        + text::dec(p + 3) + ", 1)"@
}

/// `n` value groups of the per-account statement. Placeholder 1 is the account;
/// each pair takes the next four.
pub open spec fn account_groups(n: nat) -> Seq<char>
    decreases n,
{
    if n == 0 {
        Seq::empty()
    } else if n == 1 {
        account_group(2)
    } else {
        account_groups((n - 1) as nat) + ","@ + account_group(2 + 4 * (n - 1))
    }
}

/// The statement that counts `n` pairs of one account.
pub open spec fn account_statement(n: nat) -> Seq<char> {
    "INSERT INTO account_tag_cooccurrence (account_id, tag1_name, tag1_group, tag2_name, tag2_group, cooc_count) VALUES "@
        + account_groups(n)
        + " ON CONFLICT(account_id, tag1_name, tag1_group, tag2_name, tag2_group) DO UPDATE SET cooc_count = cooc_count + 1"@
}

pub fn account_statement_sql(n: usize) -> (r: String)
    requires
        6 + 4 * n <= usize::MAX,
    ensures
        r@ == account_statement(n as nat),
{
    let mut sql = String::from_str(
        "INSERT INTO account_tag_cooccurrence (account_id, tag1_name, tag1_group, tag2_name, tag2_group, cooc_count) VALUES ",
    );
    let ghost head = sql@;
    let mut i: usize = 0;
    let mut p: usize = 2;
    proof {
        assert(head + account_groups(0) =~= head);
    }
    while i < n
        invariant
            i <= n,
            6 + 4 * n <= usize::MAX,
            p == 2 + 4 * i,
            sql@ == head + account_groups(i as nat),
        decreases n - i,
    {
        let ghost start = sql@;
        if i > 0 {
            sql.append(",");
        }
        let ghost mid = sql@;
        sql.append("(?1, ?");
        sql.append(dec_usize(p).as_str());
        sql.append(", ?");
        sql.append(dec_usize(p + 1).as_str());
        sql.append(", ?");
        sql.append(dec_usize(p + 2).as_str());
        sql.append(", ?");
        sql.append(dec_usize(p + 3).as_str());
        sql.append(", 1)");
        proof {
            assert(sql@ =~= mid + account_group(p as int));
            assert(sql@ =~= head + account_groups((i + 1) as nat));
        }
        p += 4;
        i += 1;
    }
    sql.append(
        " ON CONFLICT(account_id, tag1_name, tag1_group, tag2_name, tag2_group) DO UPDATE SET cooc_count = cooc_count + 1",
    );
    sql
}

/// One more than what the column of counts holds.
pub open spec fn one_more() -> effects::Term {
    effects::Term::Sum(
        Box::new(effects::Term::Column("cooc_count"@)),
        Box::new(effects::Term::Number(1)),
    )
}

/// Counting the pairs of the catalog, by the ids of the two tags.
pub open spec fn catalog_counting() -> effects::Counting {
    effects::Counting {
        table: "tag_cooccurrence"@,
        key: seq!["tag1_id"@, "tag2_id"@],
        counter: "cooc_count"@,
        first: effects::Term::Number(1),
        next: one_more(),
    }
}

/// Counting the pairs of an account, by the names and groups of the two tags.
pub open spec fn account_counting() -> effects::Counting {
    effects::Counting {
        table: "account_tag_cooccurrence"@,
        key: seq!["account_id"@, "tag1_name"@, "tag1_group"@, "tag2_name"@, "tag2_group"@],
        counter: "cooc_count"@,
        first: effects::Term::Number(1),
        next: one_more(),
    }
}

/// A row of the catalog-wide statement: two bound ids and the first count.
pub open spec fn pair_row(c: effects::Counting) -> Seq<char> {
    "("@ + text::joined(seq!["?"@, "?"@, c.first.text()], ","@) + ")"@
}

/// Row `k` of the per-account statement: the account, which is bound first, the
/// four values bound for pair `k`, and the first count.
pub open spec fn account_row(c: effects::Counting, k: int) -> Seq<char> {
    "("@ + text::joined(
        seq![
            "?"@ + text::dec(1),
            "?"@ + text::dec(4 * k + 2),
            "?"@ + text::dec(4 * k + 3),
            "?"@ + text::dec(4 * k + 4),
            "?"@ + text::dec(4 * k + 5),
            c.first.text(),
        ],
        ", "@,
    ) + ")"@
}

proof fn lemma_one_text()
    ensures
        text::dec(1) == "1"@,
{
    reveal_strlit("1");
    reveal_with_fuel(text::dec_nat, 2);
    assert(text::dec(1) =~= "1"@);
}

proof fn lemma_joined_step(parts: Seq<Seq<char>>, sep: Seq<char>, part: Seq<char>)
    requires
        parts.len() > 0,
    ensures
        text::joined(parts.push(part), sep) == text::joined(parts, sep) + sep + part,
{
    assert(parts.push(part).drop_last() =~= parts);
}

proof fn lemma_next_text()
    ensures
        one_more().text() == "cooc_count + 1"@,
{
    lemma_one_text();
    reveal_with_fuel(effects::Term::text, 3);
    reveal_strlit("cooc_count");
    reveal_strlit(" + ");
    reveal_strlit("1");
    reveal_strlit("cooc_count + 1");
    assert(one_more().text() =~= "cooc_count"@ + " + "@ + "1"@);
    assert(one_more().text() =~= "cooc_count + 1"@);
}

proof fn lemma_pair_groups_joined(n: nat)
    ensures
        pair_groups(n) == text::joined(Seq::new(n, |k: int| pair_row(catalog_counting())), ","@),
    decreases n,
{
    let row = pair_row(catalog_counting());
    let rows = Seq::new(n, |k: int| row);
    assert(row == "(?,?,1)"@) by {
        lemma_one_text();
        let a = seq!["?"@];
        lemma_joined_step(a, ","@, "?"@);
        lemma_joined_step(a.push("?"@), ","@, "1"@);
        assert(seq!["?"@, "?"@, catalog_counting().first.text()] =~= a.push("?"@).push("1"@));
        reveal_strlit("?");
        reveal_strlit(",");
        reveal_strlit("1");
        reveal_strlit("(");
        reveal_strlit(")");
        reveal_strlit("(?,?,1)");
        assert(row =~= "(?,?,1)"@);
    }
    if n > 1 {
        lemma_pair_groups_joined((n - 1) as nat);
        assert(rows.drop_last() =~= Seq::new((n - 1) as nat, |k: int| row));
        assert(rows.last() == row);
    }
    assert(Seq::new(n, |k: int| pair_row(catalog_counting())) =~= rows);
}

/// The catalog-wide statement inserts the pairs bound to it into
/// `tag_cooccurrence`, and running it raises the count of every pair by as often
/// as the pair is bound: a new pair starts at one, a stored one gains one.
pub proof fn law_pair_statement_counts(
    pairs: Seq<(i64, i64)>,
    store: Map<(i64, i64), int>,
    pair: (i64, i64),
)
    ensures
        pair_statement(pairs.len()) == catalog_counting().text(
            text::joined(Seq::new(pairs.len(), |k: int| pair_row(catalog_counting())), ","@),
        ),
        effects::count_of(catalog_counting().run(store, pairs), pair) == effects::count_of(
            store,
            pair,
        ) + tally::times(pairs, pair),
{
    let c = catalog_counting();
    let rows = pair_groups(pairs.len());
    lemma_pair_groups_joined(pairs.len());
    lemma_next_text();
    lemma_counts_up();
    effects::lemma_counting(c, store, pairs, pair);
    assert("INSERT INTO tag_cooccurrence (tag1_id, tag2_id, cooc_count) VALUES "@
        == "INSERT INTO "@ + c.table + " ("@ + text::joined(c.key.push(c.counter), ", "@)
        + ") VALUES "@ && " ON CONFLICT(tag1_id, tag2_id) DO UPDATE SET cooc_count = cooc_count + 1"@
        == " ON CONFLICT("@ + text::joined(c.key, ", "@) + ") DO UPDATE SET "@ + c.counter + " = "@
        + c.next.text()) by {
        let a = seq!["tag1_id"@];
        lemma_joined_step(a, ", "@, "tag2_id"@);
        lemma_joined_step(a.push("tag2_id"@), ", "@, "cooc_count"@);
        assert(c.key =~= a.push("tag2_id"@));
        reveal_strlit("INSERT INTO tag_cooccurrence (tag1_id, tag2_id, cooc_count) VALUES ");
        reveal_strlit(
            " ON CONFLICT(tag1_id, tag2_id) DO UPDATE SET cooc_count = cooc_count + 1",
        );
        reveal_strlit("INSERT INTO ");
        reveal_strlit("tag_cooccurrence");
        reveal_strlit(" (");
        reveal_strlit("tag1_id");
        reveal_strlit("tag2_id");
        reveal_strlit("cooc_count");
        reveal_strlit("cooc_count + 1");
        reveal_strlit(", ");
        reveal_strlit(") VALUES ");
        reveal_strlit(" ON CONFLICT(");
        reveal_strlit(") DO UPDATE SET ");
        reveal_strlit(" = ");
        assert("INSERT INTO tag_cooccurrence (tag1_id, tag2_id, cooc_count) VALUES "@
            =~= "INSERT INTO "@ + c.table + " ("@ + text::joined(c.key.push(c.counter), ", "@)
            + ") VALUES "@);
        assert(" ON CONFLICT(tag1_id, tag2_id) DO UPDATE SET cooc_count = cooc_count + 1"@
            =~= " ON CONFLICT("@ + text::joined(c.key, ", "@) + ") DO UPDATE SET "@ + c.counter
            + " = "@ + c.next.text());
    }
    assert(pair_statement(pairs.len()) =~= c.text(rows));
}

proof fn lemma_counts_up()
    ensures
        catalog_counting().first.value(0) == 1,
        account_counting().first.value(0) == 1,
        forall|n: int| #[trigger] one_more().value(n) == n + 1,
        one_more().reads_only("cooc_count"@),
{
    reveal_with_fuel(effects::Term::value, 3);
    reveal_with_fuel(effects::Term::reads_only, 3);
}

proof fn lemma_account_groups_joined(n: nat)
    ensures
        account_groups(n) == text::joined(
            Seq::new(n, |k: int| account_row(account_counting(), k)),
            ","@,
        ),
    decreases n,
{
    let rows = Seq::new(n, |k: int| account_row(account_counting(), k));
    if n > 0 {
        let k = n - 1;
        lemma_account_row(k);
        if n > 1 {
            lemma_account_groups_joined((n - 1) as nat);
            assert(rows.drop_last() =~= Seq::new(
                (n - 1) as nat,
                |k: int| account_row(account_counting(), k),
            ));
        }
    }
}

proof fn lemma_account_row(k: int)
    requires
        k >= 0,
    ensures
        account_row(account_counting(), k) == account_group(2 + 4 * k),
{
    lemma_one_text();
    let p = 4 * k + 2;
    let one = account_counting().first.text();
    let q = "?"@;
    let s1 = seq![q + text::dec(1)];
    let s2 = s1.push(q + text::dec(p));
    let s3 = s2.push(q + text::dec(p + 1));
    let s4 = s3.push(q + text::dec(p + 2));
    let s5 = s4.push(q + text::dec(p + 3));
    lemma_joined_step(s1, ", "@, q + text::dec(p));
    lemma_joined_step(s2, ", "@, q + text::dec(p + 1));
    lemma_joined_step(s3, ", "@, q + text::dec(p + 2));
    lemma_joined_step(s4, ", "@, q + text::dec(p + 3));
    lemma_joined_step(s5, ", "@, one);
    assert(seq![
        "?"@ + text::dec(1),
        "?"@ + text::dec(4 * k + 2),
        "?"@ + text::dec(4 * k + 3),
        "?"@ + text::dec(4 * k + 4),
        "?"@ + text::dec(4 * k + 5),
        one,
    ] =~= s5.push(one));
    reveal_strlit("?");
    reveal_strlit("1");
    reveal_strlit(", ");
    reveal_strlit("(");
    reveal_strlit(")");
    reveal_strlit("(?1, ?");
    reveal_strlit(", ?");
    reveal_strlit(", 1)");
    assert(account_row(account_counting(), k) =~= account_group(p));
}

/// The per-account statement inserts the rows bound to it into
/// `account_tag_cooccurrence`, and running it raises the count of every row by as
/// often as the row is bound.
pub proof fn law_account_statement_counts<K>(rows: Seq<K>, store: Map<K, int>, row: K)
    ensures
        account_statement(rows.len()) == account_counting().text(
            text::joined(
                Seq::new(rows.len(), |k: int| account_row(account_counting(), k)),
                ","@,
            ),
        ),
        effects::count_of(account_counting().run(store, rows), row) == effects::count_of(
            store,
            row,
        ) + tally::times(rows, row),
{
    let c = account_counting();
    lemma_account_groups_joined(rows.len());
    lemma_next_text();
    lemma_counts_up();
    effects::lemma_counting(c, store, rows, row);
    let key = "account_id"@ + ", "@ + "tag1_name"@ + ", "@ + "tag1_group"@ + ", "@ + "tag2_name"@
        + ", "@ + "tag2_group"@;
    assert(text::joined(c.key, ", "@) == key && text::joined(c.key.push(c.counter), ", "@) == key
        + ", "@ + "cooc_count"@) by {
        let a = seq!["account_id"@];
        let b = a.push("tag1_name"@);
        let d = b.push("tag1_group"@);
        let e = d.push("tag2_name"@);
        let f = e.push("tag2_group"@);
        lemma_joined_step(a, ", "@, "tag1_name"@);
        lemma_joined_step(b, ", "@, "tag1_group"@);
        lemma_joined_step(d, ", "@, "tag2_name"@);
        lemma_joined_step(e, ", "@, "tag2_group"@);
        lemma_joined_step(f, ", "@, "cooc_count"@);
        assert(c.key =~= f);
    }
    reveal_strlit("account_id");
    reveal_strlit("tag1_name");
    reveal_strlit("tag1_group");
    reveal_strlit("tag2_name");
    reveal_strlit("tag2_group");
    reveal_strlit("cooc_count");
    reveal_strlit("cooc_count + 1");
    reveal_strlit(", ");
    reveal_strlit("INSERT INTO ");
    reveal_strlit("account_tag_cooccurrence");
    reveal_strlit(" (");
    reveal_strlit(") VALUES ");
    reveal_strlit(" ON CONFLICT(");
    reveal_strlit(") DO UPDATE SET ");
    reveal_strlit(" = ");
    reveal_strlit(
        "INSERT INTO account_tag_cooccurrence (account_id, tag1_name, tag1_group, tag2_name, tag2_group, cooc_count) VALUES ",
    );
    reveal_strlit(
        " ON CONFLICT(account_id, tag1_name, tag1_group, tag2_name, tag2_group) DO UPDATE SET cooc_count = cooc_count + 1",
    );
    assert("INSERT INTO account_tag_cooccurrence (account_id, tag1_name, tag1_group, tag2_name, tag2_group, cooc_count) VALUES "@
        =~= "INSERT INTO "@ + c.table + " ("@ + (key + ", "@ + "cooc_count"@) + ") VALUES "@);
    assert(" ON CONFLICT(account_id, tag1_name, tag1_group, tag2_name, tag2_group) DO UPDATE SET cooc_count = cooc_count + 1"@
        =~= " ON CONFLICT("@ + key + ") DO UPDATE SET "@ + c.counter + " = "@ + c.next.text());
    assert(account_statement(rows.len()) =~= c.text(account_groups(rows.len())));
}

/// What is known of a tag id.
#[derive(Debug)]
pub struct TagMeta {
    pub id: i64,
    pub name: String,
    pub group: String,
}

/// The entry of a tag id, the first where several have it.
pub open spec fn meta_of(metas: Seq<TagMeta>, id: i64) -> Option<TagMeta>
    decreases metas.len(),
{
    if metas.len() == 0 {
        None
    } else if metas[0].id == id {
        Some(metas[0])
    } else {
        meta_of(metas.drop_first(), id)
    }
}

fn find_meta(metas: &Vec<TagMeta>, id: i64) -> (r: Option<usize>)
    ensures
        match r {
            Some(i) => i < metas.len() && meta_of(metas@, id) == Some(metas@[i as int]),
            None => meta_of(metas@, id) is None,
        },
{
    let mut i: usize = 0;
    proof {
        assert(metas@.skip(0) =~= metas@);
    }
    while i < metas.len()
        invariant
            i <= metas.len(),
            meta_of(metas@, id) == meta_of(metas@.skip(i as int), id),
        decreases metas.len() - i,
    {
        proof {
            assert(metas@.skip(i as int)[0] == metas@[i as int]);
            assert(metas@.skip(i as int).drop_first() =~= metas@.skip(i + 1));
        }
        if metas[i].id == id {
            return Some(i);
        }
        i += 1;
    }
    None
}

/// The pair `(name, group)` of `a` stands at or before that of `b`.
pub open spec fn meta_le(a: TagMeta, b: TagMeta) -> bool {
    if a.name@ == b.name@ {
        text::text_le(a.group@, b.group@)
    } else {
        text::text_le(a.name@, b.name@)
    }
}

/// The four values of a pair: the tag that comes first by name and group first.
pub open spec fn pair_cells(a: TagMeta, b: TagMeta) -> Seq<models::SqlCell> {
    let (x, y) = if meta_le(a, b) {
        (a, b)
    } else {
        (b, a)
    };
    seq![
        models::SqlCell::Text(x.name@),
        models::SqlCell::Text(x.group@),
        models::SqlCell::Text(y.name@),
        models::SqlCell::Text(y.group@),
    ]
}

/// The first id of `pairs` that has no entry.
pub open spec fn missing_tag(metas: Seq<TagMeta>, pairs: Seq<(i64, i64)>) -> Option<i64>
    decreases pairs.len(),
{
    if pairs.len() == 0 {
        None
    } else {
        match missing_tag(metas, pairs.drop_last()) {
            Some(id) => Some(id),
            None => if meta_of(metas, pairs.last().0) is None {
                Some(pairs.last().0)
            } else if meta_of(metas, pairs.last().1) is None {
                Some(pairs.last().1)
            } else {
                None
            },
        }
    }
}

/// The values of a per-account statement: the account, and four for each pair.
pub open spec fn account_cells(
    account_id: i32,
    metas: Seq<TagMeta>,
    pairs: Seq<(i64, i64)>,
) -> Seq<models::SqlCell>
    decreases pairs.len(),
{
    if pairs.len() == 0 {
        seq![models::SqlCell::Integer(account_id as i64)]
    } else {
        account_cells(account_id, metas, pairs.drop_last()) + pair_cells(
            meta_of(metas, pairs.last().0)->0,
            meta_of(metas, pairs.last().1)->0,
        )
    }
}

/// The values of a per-account statement over a chunk of pairs.
pub fn account_pair_params(
    account_id: i32,
    pairs: &Vec<(i64, i64)>,
    metas: &Vec<TagMeta>,
) -> (r: Result<Vec<SqlValue>, String>)
    ensures
        match r {
            Ok(v) => missing_tag(metas@, pairs@) is None && models::cells(v@) == account_cells(
                account_id,
                metas@,
                pairs@,
            ),
            Err(e) => match missing_tag(metas@, pairs@) {
                Some(id) => e@ == missing_text(id),
                None => false,
            },
        },
{
    let mut v: Vec<SqlValue> = Vec::new();
    v.push(SqlValue::Integer(account_id as i64));
    let mut i: usize = 0;
    proof {
        assert(pairs@.take(0) =~= Seq::<(i64, i64)>::empty());
        assert(models::cells(v@) =~= seq![models::SqlCell::Integer(account_id as i64)]);
    }
    while i < pairs.len()
        invariant
            i <= pairs.len(),
            missing_tag(metas@, pairs@.take(i as int)) is None,
            models::cells(v@) == account_cells(account_id, metas@, pairs@.take(i as int)),
        decreases pairs.len() - i,
    {
        let (a, b) = pairs[i];
        let ghost nxt = pairs@.take(i + 1);
        proof {
            assert(nxt.drop_last() =~= pairs@.take(i as int));
            assert(nxt.last() == (a, b));
        }
        let ia: usize = match find_meta(metas, a) {
            Some(x) => x,
            None => {
                proof {
                    lemma_missing_prefix(metas@, pairs@, i + 1);
                }
                return Err(missing_message(a));
            },
        };
        let ib: usize = match find_meta(metas, b) {
            Some(x) => x,
            None => {
                proof {
                    lemma_missing_prefix(metas@, pairs@, i + 1);
                }
                return Err(missing_message(b));
            },
        };
        let ghost before = v@;
        let first: bool = if text_eq(metas[ia].name.as_str(), metas[ib].name.as_str()) {
            text_at_most(metas[ia].group.as_str(), metas[ib].group.as_str())
        } else {
            text_at_most(metas[ia].name.as_str(), metas[ib].name.as_str())
        };
        let (x, y): (usize, usize) = if first {
            (ia, ib)
        } else {
            (ib, ia)
        };
        v.push(SqlValue::Text(metas[x].name.clone()));
        v.push(SqlValue::Text(metas[x].group.clone()));
        v.push(SqlValue::Text(metas[y].name.clone()));
        v.push(SqlValue::Text(metas[y].group.clone()));
        proof {
            assert(models::cells(v@) =~= models::cells(before) + pair_cells(
                metas@[ia as int],
                metas@[ib as int],
            ));
        }
        i += 1;
    }
    proof {
        assert(pairs@.take(pairs@.len() as int) =~= pairs@);
    }
    Ok(v)
}

proof fn lemma_missing_prefix(metas: Seq<TagMeta>, pairs: Seq<(i64, i64)>, n: int)
    requires
        0 <= n <= pairs.len(),
        missing_tag(metas, pairs.take(n)) is Some,
    ensures
        missing_tag(metas, pairs) == missing_tag(metas, pairs.take(n)),
    decreases pairs.len(),
{
    if n < pairs.len() {
        assert(pairs.drop_last().take(n) =~= pairs.take(n));
        lemma_missing_prefix(metas, pairs.drop_last(), n);
    } else {
        assert(pairs.take(n) =~= pairs);
    }
}

fn missing_message(id: i64) -> (r: String)
    ensures
        r@ == missing_text(id),
{
    let mut m = String::from_str("missing tag_id ");
    m.append(dec_i64(id).as_str());
    m.append(" in account cooc meta map");
    m
}

/// A statement that counts some pairs, bound to their ids in order.
#[derive(Debug)]
pub struct PairStatement {
    pub sql: String,
    pub pairs: Vec<(i64, i64)>,
}

/// `q` counts chunk `k` of some pairs.
pub open spec fn is_pair_statement(q: PairStatement, pairs: Seq<(i64, i64)>, k: int) -> bool {
    &&& k * COOC_PAIRS_PER_STATEMENT < pairs.len()
    &&& q.pairs@ == sql::chunk_at(pairs, COOC_PAIRS_PER_STATEMENT as int, k)
    &&& q.sql@ == pair_statement(q.pairs@.len())
}

/// The statements that count the pairs of a post's tags. A post with fewer than
/// two tags has none.
pub fn upsert_cooccurrence_pairs(tag_ids: &Vec<i64>) -> (r: Vec<PairStatement>)
    ensures
        r@.len() * COOC_PAIRS_PER_STATEMENT >= all_pairs(tag_ids@).len(),
        forall|k: int|
            0 <= k < r@.len() ==> is_pair_statement(#[trigger] r@[k], all_pairs(tag_ids@), k),
{
    let pairs = tag_pairs(tag_ids);
    let chunks = chunks_of(&pairs, COOC_PAIRS_PER_STATEMENT);
    let ghost all = chunks@;
    let mut out: Vec<PairStatement> = Vec::new();
    let mut i: usize = 0;
    while i < chunks.len()
        invariant
            i <= chunks.len(),
            chunks@ == all,
            sql::is_chunking(all, all_pairs(tag_ids@), COOC_PAIRS_PER_STATEMENT as int),
            out@.len() == i,
            forall|k: int|
                0 <= k < i ==> is_pair_statement(#[trigger] out@[k], all_pairs(tag_ids@), k),
        decreases chunks.len() - i,
    {
        let part = copy_pairs(&chunks[i]);
        proof {
            assert(all[i as int]@ == sql::chunk_at(
                all_pairs(tag_ids@),
                COOC_PAIRS_PER_STATEMENT as int,
                i as int,
            ));
        }
        out.push(PairStatement { sql: pair_statement_sql(part.len()), pairs: part });
        i += 1;
    }
    out
}

fn copy_pairs(v: &Vec<(i64, i64)>) -> (r: Vec<(i64, i64)>)
    ensures
        r@ == v@,
{
    let mut r: Vec<(i64, i64)> = Vec::new();
    let mut i: usize = 0;
    while i < v.len()
        invariant
            i <= v.len(),
            r@ == v@.take(i as int),
        decreases v.len() - i,
    {
        r.push(v[i]);
        proof {
            assert(v@.take(i + 1) =~= v@.take(i as int).push(v@[i as int]));
        }
        i += 1;
    }
    proof {
        assert(v@.take(v@.len() as int) =~= v@);
    }
    r
}

/// The refusal of pairs with a tag that is not known.
pub open spec fn missing_text(id: i64) -> Seq<char> {
    "missing tag_id "@ + text::dec(id as int) + " in account cooc meta map"@
}

/// `q` counts chunk `k` of some pairs for an account.
pub open spec fn is_account_statement(
    q: BoundStatement,
    account_id: i32,
    metas: Seq<TagMeta>,
    pairs: Seq<(i64, i64)>,
    k: int,
) -> bool {
    let part = sql::chunk_at(pairs, COOC_ACCOUNT_PAIRS_PER_STMT as int, k);
    &&& k * COOC_ACCOUNT_PAIRS_PER_STMT < pairs.len()
    &&& q.sql@ == account_statement(part.len())
    &&& models::cells(q.values@) == account_cells(account_id, metas, part)
}

/// The statements that count the pairs of a post's tags for an account. The
/// first tag of a pair that `metas` does not know is reported.
pub fn upsert_account_cooccurrence_pairs(
    account_id: i32,
    tag_ids: &Vec<i64>,
    metas: &Vec<TagMeta>,
) -> (r: Result<Vec<BoundStatement>, String>)
    ensures
        match r {
            Ok(v) => {
                &&& missing_tag(metas@, all_pairs(tag_ids@)) is None
                &&& v@.len() * COOC_ACCOUNT_PAIRS_PER_STMT >= all_pairs(tag_ids@).len()
                &&& forall|k: int|
                    0 <= k < v@.len() ==> is_account_statement(
                        #[trigger] v@[k],
                        account_id,
                        metas@,
                        all_pairs(tag_ids@),
                        k,
                    )
            },
            Err(e) => match missing_tag(metas@, all_pairs(tag_ids@)) {
                Some(id) => e@ == missing_text(id),
                None => false,
            },
        },
{
    let pairs = tag_pairs(tag_ids);
    let ghost goal = all_pairs(tag_ids@);
    let ghost size = COOC_ACCOUNT_PAIRS_PER_STMT as int;
    let chunks = chunks_of(&pairs, COOC_ACCOUNT_PAIRS_PER_STMT);
    let ghost all = chunks@;
    let mut out: Vec<BoundStatement> = Vec::new();
    let mut i: usize = 0;
    proof {
        assert(sql::first_chunks(goal, size, 0) =~= Seq::<(i64, i64)>::empty());
    }
    while i < chunks.len()
        invariant
            i <= chunks.len(),
            chunks@ == all,
            size == COOC_ACCOUNT_PAIRS_PER_STMT,
            goal == all_pairs(tag_ids@),
            sql::is_chunking(all, goal, size),
            missing_tag(metas@, sql::first_chunks(goal, size, i as int)) is None,
            out@.len() == i,
            forall|k: int|
                0 <= k < i ==> is_account_statement(
                    #[trigger] out@[k],
                    account_id,
                    metas@,
                    goal,
                    k,
                ),
        decreases chunks.len() - i,
    {
        let ghost part = sql::chunk_at(goal, size, i as int);
        proof {
            assert(all[i as int]@ == part);
            sql::lemma_chunk_step(goal, size, i as int);
            lemma_missing_concat(metas@, sql::first_chunks(goal, size, i as int), part);
            assert(part.len() <= size) by {
                assert((i + 1) * size == i * size + size) by (nonlinear_arith);
            }
        }
        match account_pair_params(account_id, &chunks[i], metas) {
            Ok(values) => {
                out.push(BoundStatement { sql: account_statement_sql(chunks[i].len()), values });
            },
            Err(e) => {
                proof {
                    let done = sql::first_chunks(goal, size, i + 1);
                    assert(goal.take(done.len() as int) =~= done);
                    lemma_missing_prefix(metas@, goal, done.len() as int);
                }
                return Err(e);
            },
        }
        i += 1;
    }
    proof {
        assert(sql::first_chunks(goal, size, all.len() as int) =~= goal);
    }
    Ok(out)
}

/// The pairs that some statements are bound to, in order.
pub open spec fn bound_pairs(r: Seq<PairStatement>) -> Seq<(i64, i64)>
    decreases r.len(),
{
    if r.len() == 0 {
        Seq::empty()
    } else {
        bound_pairs(r.drop_last()) + r.last().pairs@
    }
}

proof fn lemma_bound_pairs(r: Seq<PairStatement>, pairs: Seq<(i64, i64)>, m: int)
    requires
        0 <= m <= r.len(),
        forall|k: int| 0 <= k < r.len() ==> is_pair_statement(#[trigger] r[k], pairs, k),
    ensures
        bound_pairs(r.take(m)) == sql::first_chunks(pairs, COOC_PAIRS_PER_STATEMENT as int, m),
    decreases m,
{
    let size = COOC_PAIRS_PER_STATEMENT as int;
    if m > 0 {
        lemma_bound_pairs(r, pairs, m - 1);
        assert(r.take(m).drop_last() =~= r.take(m - 1));
        assert(is_pair_statement(r[m - 1], pairs, m - 1));
        sql::lemma_chunk_step(pairs, size, m - 1);
    } else {
        assert(sql::first_chunks(pairs, size, 0) =~= Seq::<(i64, i64)>::empty());
        assert(r.take(0) =~= Seq::<PairStatement>::empty());
    }
}

/// Saving the pairs of a post's distinct tags raises the count of each two of
/// its tags by one, and no other count.
pub proof fn law_saving_counts_each_pair(
    tag_ids: Seq<i64>,
    r: Seq<PairStatement>,
    store: Map<(i64, i64), int>,
    x: i64,
    y: i64,
)
    requires
        tag_ids.no_duplicates(),
        r.len() * COOC_PAIRS_PER_STATEMENT >= all_pairs(tag_ids).len(),
        forall|k: int|
            0 <= k < r.len() ==> is_pair_statement(#[trigger] r[k], all_pairs(tag_ids), k),
    ensures
        bound_pairs(r) == all_pairs(tag_ids),
        effects::count_of(catalog_counting().run(store, bound_pairs(r)), (x, y))
            == effects::count_of(store, (x, y)) + (if x < y && tag_ids.contains(x)
            && tag_ids.contains(y) {
            1int
        } else {
            0int
        }),
{
    let all = all_pairs(tag_ids);
    let size = COOC_PAIRS_PER_STATEMENT as int;
    lemma_bound_pairs(r, all, r.len() as int);
    assert(r.take(r.len() as int) =~= r);
    assert(sql::first_chunks(all, size, r.len() as int) =~= all);
    law_pair_statement_counts(all, store, (x, y));
    law_each_pair_once(tag_ids, x, y);
}

/// The four values bound for pair `k` of an account's statement, by the numbers of
/// their placeholders, and the account at the first placeholder.
pub proof fn law_account_rows_bind(
    account_id: i32,
    metas: Seq<TagMeta>,
    pairs: Seq<(i64, i64)>,
    k: int,
)
    requires
        0 <= k < pairs.len(),
    ensures
        ({
            let cells = account_cells(account_id, metas, pairs);
            let a = meta_of(metas, pairs[k].0)->0;
            let b = meta_of(metas, pairs[k].1)->0;
            let p = 4 * k + 2;
            let (x, y) = if meta_le(a, b) {
                (a, b)
            } else {
                (b, a)
            };
            &&& cells.len() == 4 * pairs.len() + 1
            &&& cells[1 - 1] == models::SqlCell::Integer(account_id as i64)
            &&& cells[p - 1] == models::SqlCell::Text(x.name@)
            &&& cells[p + 1 - 1] == models::SqlCell::Text(x.group@)
            &&& cells[p + 2 - 1] == models::SqlCell::Text(y.name@)
            &&& cells[p + 3 - 1] == models::SqlCell::Text(y.group@)
        }),
    decreases pairs.len(),
{
    lemma_account_cells_len(account_id, metas, pairs);
    lemma_account_cells_len(account_id, metas, pairs.drop_last());
    if k < pairs.len() - 1 {
        law_account_rows_bind(account_id, metas, pairs.drop_last(), k);
    }
}

proof fn lemma_account_cells_len(account_id: i32, metas: Seq<TagMeta>, pairs: Seq<(i64, i64)>)
    ensures
        account_cells(account_id, metas, pairs).len() == 4 * pairs.len() + 1,
        account_cells(account_id, metas, pairs)[0] == models::SqlCell::Integer(account_id as i64),
    decreases pairs.len(),
{
    if pairs.len() > 0 {
        lemma_account_cells_len(account_id, metas, pairs.drop_last());
    }
}

/// A pair is bound the same way whichever tag is named first, so it has one row.
pub proof fn law_pair_has_one_row(a: TagMeta, b: TagMeta)
    ensures
        pair_cells(a, b) == pair_cells(b, a),
{
    text::lemma_text_le_total(a.name@, b.name@);
    text::lemma_text_le_total(a.group@, b.group@);
    if meta_le(a, b) && meta_le(b, a) {
        if a.name@ != b.name@ {
            text::lemma_text_le_antisymmetric(a.name@, b.name@);
        } else {
            text::lemma_text_le_antisymmetric(a.group@, b.group@);
        }
    }
    assert(pair_cells(a, b) =~= pair_cells(b, a));
}

/// What is known of a tag is its first entry.
pub proof fn law_meta_is_the_first(metas: Seq<TagMeta>, id: i64)
    ensures
        match meta_of(metas, id) {
            Some(m) => exists|k: int|
                0 <= k < metas.len() && #[trigger] metas[k] == m && m.id == id && forall|j: int|
                    0 <= j < k ==> (#[trigger] metas[j]).id != id,
            None => forall|k: int| 0 <= k < metas.len() ==> (#[trigger] metas[k]).id != id,
        },
    decreases metas.len(),
{
    if metas.len() > 0 && metas[0].id != id {
        let rest = metas.drop_first();
        law_meta_is_the_first(rest, id);
        match meta_of(rest, id) {
            Some(m) => {
                let k = choose|k: int|
                    0 <= k < rest.len() && #[trigger] rest[k] == m && m.id == id && forall|j: int|
                        0 <= j < k ==> (#[trigger] rest[j]).id != id;
                assert(metas[k + 1] == m);
                assert forall|j: int| 0 <= j < k + 1 implies (#[trigger] metas[j]).id != id by {
                    if j > 0 {
                        assert(rest[j - 1] == metas[j]);
                    }
                }
            },
            None => {
                assert forall|k: int| 0 <= k < metas.len() implies (#[trigger] metas[k]).id
                    != id by {
                    if k > 0 {
                        assert(rest[k - 1] == metas[k]);
                    }
                }
            },
        }
    } else if metas.len() > 0 {
        assert(metas[0].id == id);
    }
}

/// The tag reported as missing is an unknown one of the first pair that has one.
pub proof fn law_missing_tag_is_the_first(metas: Seq<TagMeta>, pairs: Seq<(i64, i64)>)
    ensures
        match missing_tag(metas, pairs) {
            Some(id) => meta_of(metas, id) is None && exists|k: int|
                0 <= k < pairs.len() && id == (if meta_of(metas, (#[trigger] pairs[k]).0) is None {
                    pairs[k].0
                } else {
                    pairs[k].1
                }) && forall|j: int|
                    0 <= j < k ==> meta_of(metas, (#[trigger] pairs[j]).0) is Some && meta_of(
                        metas,
                        pairs[j].1,
                    ) is Some,
            None => forall|k: int|
                0 <= k < pairs.len() ==> meta_of(metas, (#[trigger] pairs[k]).0) is Some && meta_of(
                    metas,
                    pairs[k].1,
                ) is Some,
        },
    decreases pairs.len(),
{
    if pairs.len() > 0 {
        let init = pairs.drop_last();
        law_missing_tag_is_the_first(metas, init);
        assert forall|j: int| 0 <= j < init.len() implies #[trigger] pairs[j] == init[j] by {}
        match missing_tag(metas, init) {
            Some(id) => {
                let k = choose|k: int|
                    0 <= k < init.len() && id == (if meta_of(
                        metas,
                        (#[trigger] init[k]).0,
                    ) is None {
                        init[k].0
                    } else {
                        init[k].1
                    }) && forall|j: int|
                        0 <= j < k ==> meta_of(metas, (#[trigger] init[j]).0) is Some && meta_of(
                            metas,
                            init[j].1,
                        ) is Some;
                assert(pairs[k] == init[k]);
            },
            None => {
                assert(pairs[pairs.len() - 1] == pairs.last());
            },
        }
    }
}

/// A listed tag is known.
pub proof fn lemma_meta_known(metas: Seq<TagMeta>, k: int)
    requires
        0 <= k < metas.len(),
    ensures
        meta_of(metas, metas[k].id) is Some,
    decreases metas.len(),
{
    if k > 0 && metas[0].id != metas[k].id {
        lemma_meta_known(metas.drop_first(), k - 1);
    }
}

/// Where all tags are known, no pair misses one.
pub proof fn lemma_pairs_known(metas: Seq<TagMeta>, ids: Seq<i64>)
    requires
        forall|i: int| 0 <= i < ids.len() ==> meta_of(metas, #[trigger] ids[i]) is Some,
    ensures
        missing_tag(metas, all_pairs(ids)) is None,
{
    lemma_known_upto(metas, ids, ids.len() as int);
}

proof fn lemma_known_upto(metas: Seq<TagMeta>, ids: Seq<i64>, m: int)
    requires
        0 <= m <= ids.len(),
        forall|i: int| 0 <= i < ids.len() ==> meta_of(metas, #[trigger] ids[i]) is Some,
    ensures
        missing_tag(metas, pairs_upto(ids, m)) is None,
    decreases m,
{
    if m > 0 {
        lemma_known_upto(metas, ids, m - 1);
        lemma_known_row(metas, ids, m - 1, ids.len() as int);
        lemma_missing_concat(
            metas,
            pairs_upto(ids, m - 1),
            row_pairs(ids, m - 1, ids.len() as int),
        );
    }
}

proof fn lemma_known_row(metas: Seq<TagMeta>, ids: Seq<i64>, i: int, n: int)
    requires
        0 <= i < ids.len(),
        n <= ids.len(),
        forall|k: int| 0 <= k < ids.len() ==> meta_of(metas, #[trigger] ids[k]) is Some,
    ensures
        missing_tag(metas, row_pairs(ids, i, n)) is None,
    decreases n - i,
{
    if n > i + 1 {
        lemma_known_row(metas, ids, i, n - 1);
        let rest = row_pairs(ids, i, n - 1);
        let p = ordered_pair(ids[i], ids[n - 1]);
        assert(rest.push(p).drop_last() =~= rest);
        assert(rest.push(p).last() == p);
    }
}

proof fn lemma_missing_concat(metas: Seq<TagMeta>, a: Seq<(i64, i64)>, b: Seq<(i64, i64)>)
    requires
        missing_tag(metas, a) is None,
    ensures
        missing_tag(metas, a + b) == missing_tag(metas, b),
    decreases b.len(),
{
    if b.len() == 0 {
        assert(a + b =~= a);
    } else {
        lemma_missing_concat(metas, a, b.drop_last());
        assert((a + b).drop_last() =~= a + b.drop_last());
        assert((a + b).last() == b.last());
    }
}

// ---------------------------------------------------------------------------
// The relation graph of an account
// ---------------------------------------------------------------------------

pub struct TagRelationNode {
    pub name: String,
    pub group_type: String,
    pub count: i64,
}

/// One co-occurrence of an account, with the catalog's numbers on both tags.
pub struct RelationRow {
    pub tag1: String,
    pub group1: String,
    pub tag2: String,
    pub group2: String,
    pub user_cooc: i64,
    pub global_cooc: i64,
    pub df1: i64,
    pub df2: i64,
}

/// An edge between two nodes, the smaller position first. The lift is computed
/// from the counts by the caller.
#[derive(Clone, Copy, Debug, PartialEq, Eq, Structural)]
pub struct TagRelationEdge {
    pub source: usize,
    pub target: usize,
    pub user_cooc: i64,
    pub global_cooc: i64,
    pub df1: i64,
    pub df2: i64,
}

/// The last node of the given name and group.
pub open spec fn node_at(nodes: Seq<TagRelationNode>, name: Seq<char>, group: Seq<char>) -> Option<
    int,
>
    decreases nodes.len(),
{
    if nodes.len() == 0 {
        None
    } else if nodes.last().name@ == name && nodes.last().group_type@ == group {
        Some(nodes.len() - 1)
    } else {
        node_at(nodes.drop_last(), name, group)
    }
}

fn find_node(nodes: &Vec<TagRelationNode>, name: &str, group: &str) -> (r: Option<usize>)
    ensures
        match r {
            Some(i) => i < nodes.len() && node_at(nodes@, name@, group@) == Some(i as int),
            None => node_at(nodes@, name@, group@) is None,
        },
{
    let mut i: usize = nodes.len();
    proof {
        assert(nodes@.take(nodes@.len() as int) =~= nodes@);
    }
    while i > 0
        invariant
            i <= nodes.len(),
            node_at(nodes@, name@, group@) == node_at(nodes@.take(i as int), name@, group@),
        decreases i,
    {
        proof {
            assert(nodes@.take(i as int).last() == nodes@[i - 1]);
            assert(nodes@.take(i as int).drop_last() =~= nodes@.take(i - 1));
        }
        i -= 1;
        if text_eq(nodes[i].name.as_str(), name) && text_eq(nodes[i].group_type.as_str(), group) {
            return Some(i);
        }
    }
    None
}

/// The edge of a row: none where an end is no node or both ends are the same.
pub open spec fn row_edge(nodes: Seq<TagRelationNode>, row: RelationRow) -> Option<
    TagRelationEdge,
> {
    match (node_at(nodes, row.tag1@, row.group1@), node_at(nodes, row.tag2@, row.group2@)) {
        (Some(i), Some(j)) => if i == j {
            None
        } else {
            Some(
                TagRelationEdge {
                    source: (if i < j { i } else { j }) as usize,
                    target: (if i < j { j } else { i }) as usize,
                    user_cooc: row.user_cooc,
                    global_cooc: row.global_cooc,
                    df1: row.df1,
                    df2: row.df2,
                },
            )
        },
        _ => None,
    }
}

/// The edges of all rows, in row order.
pub open spec fn row_edges(nodes: Seq<TagRelationNode>, rows: Seq<RelationRow>) -> Seq<
    TagRelationEdge,
>
    decreases rows.len(),
{
    if rows.len() == 0 {
        Seq::empty()
    } else {
        let rest = row_edges(nodes, rows.drop_last());
        match row_edge(nodes, rows.last()) {
            Some(e) => rest.push(e),
            None => rest,
        }
    }
}

/// Edges sort by falling account count, then by rising source and target.
pub open spec fn edge_keys(edges: Seq<TagRelationEdge>) -> Seq<(i64, i64, i64)> {
    edges.map_values(
        |e: TagRelationEdge| ((-1 - e.user_cooc) as i64, e.source as i64, e.target as i64),
    )
}

/// The edges of the graph, strongest first, equally strong ones by their ends.
pub open spec fn sorted_edges(nodes: Seq<TagRelationNode>, rows: Seq<RelationRow>) -> Seq<
    TagRelationEdge,
> {
    let edges = row_edges(nodes, rows);
    order::arranged(edges, order::int_order(edge_keys(edges)))
}

/// The edges of an account's relation graph: one for each row that joins two
/// different nodes, strongest first.
pub fn relation_edges(nodes: &Vec<TagRelationNode>, rows: &Vec<RelationRow>) -> (r: Vec<
    TagRelationEdge,
>)
    requires
        nodes.len() <= i64::MAX,
    ensures
        r@ == sorted_edges(nodes@, rows@),
        r@.to_multiset() == row_edges(nodes@, rows@).to_multiset(),
        forall|k: int|
            0 <= k < r@.len() ==> (#[trigger] r@[k]).source < r@[k].target < nodes@.len(),
        forall|a: int, b: int|
            0 <= a < b < r@.len() ==> (#[trigger] r@[a]).user_cooc >= (#[trigger] r@[b]).user_cooc,
{
    let mut edges: Vec<TagRelationEdge> = Vec::new();
    let mut i: usize = 0;
    proof {
        assert(rows@.take(0) =~= Seq::<RelationRow>::empty());
    }
    while i < rows.len()
        invariant
            i <= rows.len(),
            edges@ == row_edges(nodes@, rows@.take(i as int)),
            forall|k: int|
                0 <= k < edges@.len() ==> (#[trigger] edges@[k]).source < edges@[k].target
                    < nodes@.len(),
        decreases rows.len() - i,
    {
        proof {
            assert(rows@.take(i + 1).drop_last() =~= rows@.take(i as int));
            assert(rows@.take(i + 1).last() == rows@[i as int]);
        }
        let row = &rows[i];
        let a = find_node(nodes, row.tag1.as_str(), row.group1.as_str());
        let b = find_node(nodes, row.tag2.as_str(), row.group2.as_str());
        match (a, b) {
            (Some(x), Some(y)) => {
                if x != y {
                    let (source, target): (usize, usize) = if x < y {
                        (x, y)
                    } else {
                        (y, x)
                    };
                    edges.push(
                        TagRelationEdge {
                            source,
                            target,
                            user_cooc: row.user_cooc,
                            global_cooc: row.global_cooc,
                            df1: row.df1,
                            df2: row.df2,
                        },
                    );
                }
            },
            _ => {},
        }
        i += 1;
    }
    proof {
        assert(rows@.take(rows@.len() as int) =~= rows@);
    }
    let mut keys: Vec<(i64, i64, i64)> = Vec::new();
    let mut k: usize = 0;
    while k < edges.len()
        invariant
            k <= edges.len(),
            nodes.len() <= i64::MAX,
            forall|m: int|
                0 <= m < edges@.len() ==> (#[trigger] edges@[m]).source < edges@[m].target
                    < nodes@.len(),
            keys@ == edge_keys(edges@.take(k as int)),
        decreases edges.len() - k,
    {
        let e = edges[k];
        keys.push((-1 - e.user_cooc, e.source as i64, e.target as i64));
        proof {
            assert(edge_keys(edges@.take(k + 1)) =~= edge_keys(edges@.take(k as int)).push(
                ((-1 - e.user_cooc) as i64, e.source as i64, e.target as i64),
            ));
        }
        k += 1;
    }
    proof {
        assert(edges@.take(edges@.len() as int) =~= edges@);
    }
    let ghost key_seq = keys@;
    let positions = sort_ints(keys);
    let mut out: Vec<TagRelationEdge> = Vec::new();
    let mut j: usize = 0;
    while j < positions.len()
        invariant
            j <= positions.len(),
            positions.len() == edges.len(),
            forall|m: int| 0 <= m < positions.len() ==> (#[trigger] positions@[m]) < edges.len(),
            out@ == order::arranged(edges@, positions@.take(j as int)),
        decreases positions.len() - j,
    {
        out.push(edges[positions[j]]);
        proof {
            assert(order::arranged(edges@, positions@.take(j + 1)) =~= order::arranged(
                edges@,
                positions@.take(j as int),
            ).push(edges@[positions@[j as int] as int]));
        }
        j += 1;
    }
    proof {
        assert(positions@.take(positions@.len() as int) =~= positions@);
        order::lemma_arranged_multiset(edges@, positions@);
        assert forall|m: int| 0 <= m < out@.len() implies (#[trigger] out@[m]).source
            < out@[m].target < nodes@.len() by {
            assert(out@[m] == edges@[positions@[m] as int]);
        }
        assert forall|a: int, b: int| 0 <= a < b < out@.len() implies (#[trigger] out@[a]).user_cooc
            >= (#[trigger] out@[b]).user_cooc by {
            assert(order::int_before(
                key_seq,
                positions@[a] as int,
                positions@[b] as int,
            ));
            assert(out@[a] == edges@[positions@[a] as int]);
            assert(out@[b] == edges@[positions@[b] as int]);
        }
    }
    out
}

/// Position `i` is the last node of the given name and group.
pub open spec fn is_node_at(
    nodes: Seq<TagRelationNode>,
    i: int,
    name: Seq<char>,
    group: Seq<char>,
) -> bool {
    &&& 0 <= i < nodes.len()
    &&& nodes[i].name@ == name && nodes[i].group_type@ == group
    &&& forall|j: int|
        i < j < nodes.len() ==> (#[trigger] nodes[j]).name@ != name || nodes[j].group_type@ != group
}

/// Some node has the given name and group.
pub open spec fn has_node(nodes: Seq<TagRelationNode>, name: Seq<char>, group: Seq<char>) -> bool {
    exists|i: int|
        0 <= i < nodes.len() && (#[trigger] nodes[i]).name@ == name && nodes[i].group_type@ == group
}

/// A tag stands for the last node of its name and group, where there is one.
pub proof fn law_node_at(nodes: Seq<TagRelationNode>, name: Seq<char>, group: Seq<char>)
    ensures
        node_at(nodes, name, group) is Some <==> has_node(nodes, name, group),
        node_at(nodes, name, group) is Some ==> is_node_at(
            nodes,
            node_at(nodes, name, group)->0,
            name,
            group,
        ),
    decreases nodes.len(),
{
    if nodes.len() > 0 {
        let init = nodes.drop_last();
        law_node_at(init, name, group);
        if has_node(init, name, group) {
            let i = choose|i: int|
                0 <= i < init.len() && (#[trigger] init[i]).name@ == name && init[i].group_type@
                    == group;
            assert(nodes[i] == init[i]);
        }
        if nodes.last().name@ == name && nodes.last().group_type@ == group {
            assert(nodes[nodes.len() - 1] == nodes.last());
        } else {
            if has_node(nodes, name, group) {
                let i = choose|i: int|
                    0 <= i < nodes.len() && (#[trigger] nodes[i]).name@ == name
                        && nodes[i].group_type@ == group;
                assert(init[i] == nodes[i]);
            }
            if node_at(init, name, group) is Some {
                let i = node_at(init, name, group)->0;
                assert forall|j: int| i < j < nodes.len() implies (#[trigger] nodes[j]).name@
                    != name || nodes[j].group_type@ != group by {
                    if j < init.len() {
                        assert(init[j] == nodes[j]);
                    }
                }
            }
        }
    }
}

/// `e` is an edge between the nodes of the two tags of `row`, with its counts.
pub open spec fn is_edge_of(
    e: TagRelationEdge,
    nodes: Seq<TagRelationNode>,
    row: RelationRow,
) -> bool {
    &&& e.source < e.target
    &&& {
        ||| is_node_at(nodes, e.source as int, row.tag1@, row.group1@) && is_node_at(
            nodes,
            e.target as int,
            row.tag2@,
            row.group2@,
        )
        ||| is_node_at(nodes, e.target as int, row.tag1@, row.group1@) && is_node_at(
            nodes,
            e.source as int,
            row.tag2@,
            row.group2@,
        )
    }
    &&& e.user_cooc == row.user_cooc
    &&& e.global_cooc == row.global_cooc
    &&& e.df1 == row.df1
    &&& e.df2 == row.df2
}

/// A row joins two different nodes.
pub open spec fn joins_nodes(nodes: Seq<TagRelationNode>, row: RelationRow) -> bool {
    &&& has_node(nodes, row.tag1@, row.group1@)
    &&& has_node(nodes, row.tag2@, row.group2@)
    &&& row.tag1@ != row.tag2@ || row.group1@ != row.group2@
}

proof fn lemma_row_edge(nodes: Seq<TagRelationNode>, row: RelationRow)
    requires
        nodes.len() <= usize::MAX,
    ensures
        row_edge(nodes, row) is Some <==> joins_nodes(nodes, row),
        row_edge(nodes, row) is Some ==> is_edge_of(row_edge(nodes, row)->0, nodes, row),
{
    law_node_at(nodes, row.tag1@, row.group1@);
    law_node_at(nodes, row.tag2@, row.group2@);
}

proof fn lemma_row_edges(nodes: Seq<TagRelationNode>, rows: Seq<RelationRow>)
    requires
        nodes.len() <= usize::MAX,
    ensures
        row_edges(nodes, rows).len() == rows.filter(
            |r: RelationRow| joins_nodes(nodes, r),
        ).len(),
        forall|k: int|
            0 <= k < row_edges(nodes, rows).len() ==> is_edge_of(
                #[trigger] row_edges(nodes, rows)[k],
                nodes,
                rows.filter(|r: RelationRow| joins_nodes(nodes, r))[k],
            ),
    decreases rows.len(),
{
    reveal(Seq::filter);
    if rows.len() > 0 {
        lemma_row_edges(nodes, rows.drop_last());
        lemma_row_edge(nodes, rows.last());
    }
}

/// The edges of a graph are those of the rows that join two different nodes, one
/// for each such row, between the nodes of its tags and with its counts. They come
/// with falling account counts, equal counts with rising ends.
pub proof fn law_edges_are_the_joining_rows(
    nodes: Seq<TagRelationNode>,
    rows: Seq<RelationRow>,
)
    requires
        nodes.len() <= i64::MAX,
        nodes.len() <= usize::MAX,
        rows.len() <= usize::MAX,
    ensures
        exists|o: Seq<usize>|
            {
                let joining = rows.filter(|r: RelationRow| joins_nodes(nodes, r));
                let edges = sorted_edges(nodes, rows);
                &&& #[trigger] o.to_multiset() == order::positions(
                    0,
                    joining.len() as int,
                ).to_multiset()
                &&& edges.len() == joining.len()
                &&& forall|k: int|
                    0 <= k < edges.len() ==> is_edge_of(
                        #[trigger] edges[k],
                        nodes,
                        joining[o[k] as int],
                    )
            },
        forall|a: int, b: int|
            0 <= a < b < sorted_edges(nodes, rows).len() ==> {
                let x = #[trigger] sorted_edges(nodes, rows)[a];
                let y = #[trigger] sorted_edges(nodes, rows)[b];
                x.user_cooc > y.user_cooc || (x.user_cooc == y.user_cooc && (x.source < y.source
                    || (x.source == y.source && x.target <= y.target)))
            },
{
    let joining = rows.filter(|r: RelationRow| joins_nodes(nodes, r));
    let plain = row_edges(nodes, rows);
    lemma_row_edges(nodes, rows);
    rows.lemma_filter_len(|r: RelationRow| joins_nodes(nodes, r));
    let keys = edge_keys(plain);
    order::law_every_list_has_an_order(keys);
    let o = order::int_order(keys);
    let edges = sorted_edges(nodes, rows);
    assert(edges.len() == o.len());
    assert forall|k: int| 0 <= k < edges.len() implies is_edge_of(
        #[trigger] edges[k],
        nodes,
        joining[o[k] as int],
    ) by {
        assert(o[k] < keys.len());
        assert(edges[k] == plain[o[k] as int]);
    }
    assert(o.to_multiset() == order::positions(0, joining.len() as int).to_multiset());
    assert forall|a: int, b: int| 0 <= a < b < edges.len() implies {
        let x = #[trigger] edges[a];
        let y = #[trigger] edges[b];
        x.user_cooc > y.user_cooc || (x.user_cooc == y.user_cooc && (x.source < y.source || (
        x.source == y.source && x.target <= y.target)))
    } by {
        assert(o[a] < keys.len() && o[b] < keys.len());
        assert(order::int_before(keys, o[a] as int, o[b] as int));
        assert(edges[a] == plain[o[a] as int] && edges[b] == plain[o[b] as int]);
        assert(is_edge_of(edges[a], nodes, joining[o[a] as int]));
        assert(is_edge_of(edges[b], nodes, joining[o[b] as int]));
        let x = edges[a];
        let y = edges[b];
        assert(-1 - x.user_cooc == (-1 - x.user_cooc) as i64);
        assert(-1 - y.user_cooc == (-1 - y.user_cooc) as i64);
        assert(x.source as i64 == x.source && x.target as i64 == x.target);
        assert(y.source as i64 == y.source && y.target as i64 == y.target);
    }
}

impl TagRelationEdge {
    /// Whether the catalog tells how much more often than by chance the two
    /// tags meet.
    pub fn has_lift(&self) -> (r: bool)
        ensures
            r == (self.global_cooc > 0 && self.df1 > 0 && self.df2 > 0),
    {
        self.global_cooc > 0 && self.df1 > 0 && self.df2 > 0
    }
}

/// The relation graph of an account.
pub struct TagRelationGraphPayload {
    pub nodes: Vec<TagRelationNode>,
    pub edges: Vec<TagRelationEdge>,
    pub catalog_post_count: i64,
    pub account_post_count: i64,
}

/// The relation graph of an account: its top tags, and an edge for each row
/// between two of them.
pub fn get_account_tag_relation_graph(
    nodes: Vec<TagRelationNode>,
    rows: &Vec<RelationRow>,
    catalog_post_count: i64,
    account_post_count: i64,
) -> (r: TagRelationGraphPayload)
    requires
        nodes.len() <= i64::MAX,
    ensures
        r.nodes == nodes,
        r.edges@ == sorted_edges(nodes@, rows@),
        r.catalog_post_count == catalog_post_count,
        r.account_post_count == account_post_count,
        nodes@.len() == 0 ==> r.edges@.len() == 0,
        forall|k: int|
            0 <= k < r.edges@.len() ==> (#[trigger] r.edges@[k]).source < r.edges@[k].target
                < nodes@.len(),
{
    let edges = relation_edges(&nodes, rows);
    proof {
        if nodes@.len() == 0 && edges@.len() > 0 {
            assert(edges@[0].target < nodes@.len());
        }
    }
    TagRelationGraphPayload { nodes, edges, catalog_post_count, account_post_count }
}

/// The weakest account count that the graph asks for.
pub fn pair_min(min_user_cooc: i64) -> (r: i64)
    ensures
        r == (if min_user_cooc > 1 {
            min_user_cooc
        } else {
            1
        }),
{
    if min_user_cooc > 1 {
        min_user_cooc
    } else {
        1
    }
}

/// How many rows the graph asks for: five hundred per node, within bounds.
pub open spec fn edge_rows(top: int) -> int {
    if 500 * top < 5000 {
        5000
    } else if 500 * top > 250000 {
        250000
    } else {
        500 * top
    }
}

pub fn edge_limit(top: usize) -> (r: i64)
    requires
        top <= i64::MAX,
    ensures
        r == edge_rows(top as int),
{
    if top < 10 {
        5000
    } else if top > 500 {
        250000
    } else {
        500 * top as i64
    }
}

/// The graph asks for five thousand to a quarter of a million rows: five hundred
/// for each node where that lies between, and never fewer for more nodes.
pub proof fn law_edge_rows(a: int, b: int)
    requires
        0 <= a <= b,
    ensures
        5_000 <= edge_rows(a) <= edge_rows(b) <= 250_000,
        10 <= a <= 500 ==> edge_rows(a) == a * 500,
{
}

// ---------------------------------------------------------------------------
// Loading relations
// ---------------------------------------------------------------------------

/// One stored co-occurrence of an account.
pub struct CoocRow {
    pub tag1: String,
    pub group1: String,
    pub tag2: String,
    pub group2: String,
    pub count: i64,
}

/// The Unicode lower-case form of a text, as `str::to_lowercase` gives it.
pub uninterp spec fn lowercase(s: Seq<char>) -> Seq<char>;

/// Calls `str::to_lowercase`. The result is the Unicode lower-case form of `s`.
#[verifier::external_body]
pub(crate) fn to_lowercase(s: &str) -> (r: String)
    ensures
        r@ == lowercase(s@),
{
    s.to_lowercase()
}

/// A tag's own count in a relation graph.
pub struct Marginal {
    pub group: TagGroup,
    pub name: String,
    pub count: i64,
}

/// A pair of tags in a relation graph.
pub struct RelationPair {
    pub group1: TagGroup,
    pub name1: String,
    pub group2: TagGroup,
    pub name2: String,
    pub count: i64,
}

/// What goes into an account's relation graph, in the order of insertion.
pub struct RelationLoad {
    pub total_posts: i64,
    pub marginals: Vec<Marginal>,
    pub pairs: Vec<RelationPair>,
}

/// `m` is the marginal of a counted tag of a known group.
pub open spec fn is_marginal_of(m: Marginal, t: TagCount) -> bool {
    &&& models::group_named(t.group_type@) == Some(m.group)
    &&& m.name@ == lowercase(t.name@)
    &&& m.count == t.count
}

/// The counted tags of known groups, in order.
pub open spec fn known_counts(counts: Seq<TagCount>) -> Seq<TagCount> {
    counts.filter(|t: TagCount| models::group_named(t.group_type@) is Some)
}

/// `p` is the pair of a stored row between known groups.
pub open spec fn is_pair_of(p: RelationPair, row: CoocRow) -> bool {
    &&& models::group_named(row.group1@) == Some(p.group1)
    &&& models::group_named(row.group2@) == Some(p.group2)
    &&& p.name1@ == lowercase(row.tag1@)
    &&& p.name2@ == lowercase(row.tag2@)
    &&& p.count == row.count
}

/// The rows between known groups, in order.
pub open spec fn known_rows(rows: Seq<CoocRow>) -> Seq<CoocRow> {
    rows.filter(
        |r: CoocRow|
            models::group_named(r.group1@) is Some && models::group_named(r.group2@) is Some,
    )
}

/// Rows sort by falling count.
pub open spec fn cooc_keys(rows: Seq<CoocRow>) -> Seq<(i64, i64, i64)> {
    rows.map_values(|r: CoocRow| ((-1 - r.count) as i64, 0i64, 0i64))
}

/// How many rows are loaded: the limit, at least one, and no more than there are.
pub open spec fn loaded_rows(n: int, limit: int) -> int {
    let l = if limit > 1 {
        limit
    } else {
        1
    };
    if l < n {
        l
    } else {
        n
    }
}

/// `load` holds the marginals of the counted tags and the strongest rows, as
/// the sort order `o` of the rows gives them.
pub open spec fn is_relation_load(
    load: RelationLoad,
    counts: Seq<TagCount>,
    rows: Seq<CoocRow>,
    limit: int,
    o: Seq<usize>,
) -> bool {
    let kc = known_counts(counts);
    let strongest = order::arranged(rows, o).take(loaded_rows(rows.len() as int, limit));
    let kr = known_rows(strongest);
    &&& load.marginals@.len() == kc.len()
    &&& forall|i: int| 0 <= i < kc.len() ==> is_marginal_of(#[trigger] load.marginals@[i], kc[i])
    &&& load.pairs@.len() == kr.len()
    &&& forall|i: int| 0 <= i < kr.len() ==> is_pair_of(#[trigger] load.pairs@[i], kr[i])
}

/// Loads an account's relation graph: its tag counts, and its strongest
/// co-occurrences up to `edge_limit`.
pub fn load_account_tag_relation(
    total_posts: i64,
    counts: &Vec<TagCount>,
    rows: &Vec<CoocRow>,
    edge_limit: i64,
) -> (r: RelationLoad)
    ensures
        r.total_posts == total_posts,
        is_relation_load(
            r,
            counts@,
            rows@,
            edge_limit as int,
            order::int_order(cooc_keys(rows@)),
        ),
{
    let mut marginals: Vec<Marginal> = Vec::new();
    let mut i: usize = 0;
    proof {
        reveal(Seq::filter);
        assert(counts@.take(0) =~= Seq::<TagCount>::empty());
    }
    while i < counts.len()
        invariant
            i <= counts.len(),
            marginals@.len() == known_counts(counts@.take(i as int)).len(),
            forall|k: int|
                0 <= k < marginals@.len() ==> is_marginal_of(
                    #[trigger] marginals@[k],
                    known_counts(counts@.take(i as int))[k],
                ),
        decreases counts.len() - i,
    {
        proof {
            reveal(Seq::filter);
            assert(counts@.take(i + 1).drop_last() =~= counts@.take(i as int));
            assert(counts@.take(i + 1).last() == counts@[i as int]);
        }
        match TagGroup::from_label(counts[i].group_type.as_str()) {
            Some(g) => {
                let name = to_lowercase(counts[i].name.as_str());
                marginals.push(Marginal { group: g, name, count: counts[i].count });
            },
            None => {},
        }
        i += 1;
    }
    proof {
        assert(counts@.take(counts@.len() as int) =~= counts@);
    }
    let mut keys: Vec<(i64, i64, i64)> = Vec::new();
    let mut k: usize = 0;
    while k < rows.len()
        invariant
            k <= rows.len(),
            keys@ == cooc_keys(rows@.take(k as int)),
        decreases rows.len() - k,
    {
        keys.push((-1 - rows[k].count, 0, 0));
        proof {
            assert(cooc_keys(rows@.take(k + 1)) =~= cooc_keys(rows@.take(k as int)).push(
                ((-1 - rows@[k as int].count) as i64, 0i64, 0i64),
            ));
        }
        k += 1;
    }
    proof {
        assert(rows@.take(rows@.len() as int) =~= rows@);
    }
    let positions = sort_ints(keys);
    let limit: i64 = if edge_limit > 1 {
        edge_limit
    } else {
        1
    };
    let n: usize = if (limit as u64) < (rows.len() as u64) {
        limit as usize
    } else {
        rows.len()
    };
    let ghost sorted = order::arranged(rows@, positions@);
    let mut pairs: Vec<RelationPair> = Vec::new();
    let mut j: usize = 0;
    proof {
        reveal(Seq::filter);
        assert(sorted.take(0) =~= Seq::<CoocRow>::empty());
    }
    while j < n
        invariant
            j <= n <= rows.len(),
            positions.len() == rows.len(),
            sorted == order::arranged(rows@, positions@),
            forall|m: int| 0 <= m < positions.len() ==> (#[trigger] positions@[m]) < rows.len(),
            pairs@.len() == known_rows(sorted.take(j as int)).len(),
            forall|m: int|
                0 <= m < pairs@.len() ==> is_pair_of(
                    #[trigger] pairs@[m],
                    known_rows(sorted.take(j as int))[m],
                ),
        decreases n - j,
    {
        proof {
            reveal(Seq::filter);
            assert(sorted.take(j + 1).drop_last() =~= sorted.take(j as int));
            assert(sorted.take(j + 1).last() == rows@[positions@[j as int] as int]);
        }
        let row = &rows[positions[j]];
        let g1 = TagGroup::from_label(row.group1.as_str());
        let g2 = TagGroup::from_label(row.group2.as_str());
        match (g1, g2) {
            (Some(a), Some(b)) => {
                let name1 = to_lowercase(row.tag1.as_str());
                let name2 = to_lowercase(row.tag2.as_str());
                pairs.push(
                    RelationPair { group1: a, name1, group2: b, name2, count: row.count },
                );
            },
            _ => {},
        }
        j += 1;
    }
    RelationLoad { total_posts, marginals, pairs }
}

/// An account's graph is loaded from its strongest rows: they come with falling
/// counts, and no row that is left out has a higher count than one that is taken.
/// As many are taken as the limit says, but at least one where there is one.
pub proof fn law_strongest_rows_are_loaded(rows: Seq<CoocRow>, limit: int)
    requires
        rows.len() <= usize::MAX,
    ensures
        ({
            let o = order::int_order(cooc_keys(rows));
            let n = loaded_rows(rows.len() as int, limit);
            &&& o.to_multiset() == order::positions(0, rows.len() as int).to_multiset()
            &&& o.len() == rows.len()
            &&& forall|i: int, j: int|
                0 <= i < j < rows.len() ==> rows[#[trigger] o[i] as int].count
                    >= rows[#[trigger] o[j] as int].count
            &&& 1 <= limit <= rows.len() ==> n == limit
            &&& limit > rows.len() ==> n == rows.len()
            &&& limit < 1 && rows.len() > 0 ==> n == 1
        }),
{
    let keys = cooc_keys(rows);
    order::law_every_list_has_an_order(keys);
    let o = order::int_order(keys);
    assert forall|i: int, j: int| 0 <= i < j < rows.len() implies rows[#[trigger] o[i] as int].count
        >= rows[#[trigger] o[j] as int].count by {
        assert(order::int_before(keys, o[i] as int, o[j] as int));
        let a = rows[o[i] as int].count;
        let b = rows[o[j] as int].count;
        assert(-1 - a == (-1 - a) as i64 && -1 - b == (-1 - b) as i64);
    }
}

/// A text is the name of a group.
pub open spec fn names_a_group(s: Seq<char>) -> bool {
    exists|g: TagGroup| s == #[trigger] g.name()
}

proof fn lemma_names_a_group(s: Seq<char>)
    ensures
        models::group_named(s) is Some <==> names_a_group(s),
{
    if models::group_named(s) is Some {
        let g = models::group_named(s)->0;
        models::law_only_its_name_gives_a_group(s, g);
        assert(s == g.name());
    }
    if names_a_group(s) {
        let g = choose|g: TagGroup| s == #[trigger] g.name();
        models::law_only_its_name_gives_a_group(s, g);
    }
}

/// A counted tag goes into the graph exactly where its group is known, and a row
/// exactly where both its groups are; as often as they are given.
pub proof fn law_only_known_groups_are_loaded(
    counts: Seq<TagCount>,
    t: TagCount,
    rows: Seq<CoocRow>,
    row: CoocRow,
)
    ensures
        tally::times(known_counts(counts), t) == (if names_a_group(t.group_type@) {
            tally::times(counts, t)
        } else {
            0
        }),
        tally::times(known_rows(rows), row) == (if names_a_group(row.group1@) && names_a_group(
            row.group2@,
        ) {
            tally::times(rows, row)
        } else {
            0
        }),
{
    lemma_names_a_group(t.group_type@);
    lemma_names_a_group(row.group1@);
    lemma_names_a_group(row.group2@);
    tally::lemma_times_filter(
        counts,
        |t: TagCount| models::group_named(t.group_type@) is Some,
        t,
    );
    tally::lemma_times_filter(
        rows,
        |r: CoocRow|
            models::group_named(r.group1@) is Some && models::group_named(r.group2@) is Some,
        row,
    );
}

/// A row of the catalog's tags.
#[derive(Debug)]
pub struct TagDfRow {
    pub id: i64,
    pub name: String,
    pub group: String,
    pub df: i64,
}

/// A tag of the catalog graph: its row id, group, lowered name and how many
/// posts carry it.
#[derive(Debug)]
pub struct GlobalMarginal {
    pub id: i64,
    pub group: TagGroup,
    pub name: String,
    pub df: i64,
}

pub open spec fn is_global_marginal(m: GlobalMarginal, row: TagDfRow) -> bool {
    &&& m.id == row.id
    &&& models::group_named(row.group@) == Some(m.group)
    &&& m.name@ == lowercase(row.name@)
    &&& m.df == row.df
}

/// The rows of a known group.
pub open spec fn known_tags(rows: Seq<TagDfRow>) -> Seq<TagDfRow> {
    rows.filter(|r: TagDfRow| models::group_named(r.group@) is Some)
}

/// The tags of the catalog graph: those of a known group, in order.
pub fn load_global_tag_relation(rows: &Vec<TagDfRow>) -> (r: Vec<GlobalMarginal>)
    ensures
        r@.len() == known_tags(rows@).len(),
        forall|i: int|
            0 <= i < r@.len() ==> is_global_marginal(#[trigger] r@[i], known_tags(rows@)[i]),
{
    let mut out: Vec<GlobalMarginal> = Vec::new();
    let mut i: usize = 0;
    proof {
        reveal(Seq::filter);
        assert(rows@.take(0) =~= Seq::<TagDfRow>::empty());
    }
    while i < rows.len()
        invariant
            i <= rows.len(),
            out@.len() == known_tags(rows@.take(i as int)).len(),
            forall|k: int|
                0 <= k < out@.len() ==> is_global_marginal(
                    #[trigger] out@[k],
                    known_tags(rows@.take(i as int))[k],
                ),
        decreases rows.len() - i,
    {
        proof {
            reveal(Seq::filter);
            assert(rows@.take(i + 1).drop_last() =~= rows@.take(i as int));
            assert(rows@.take(i + 1).last() == rows@[i as int]);
        }
        match TagGroup::from_label(rows[i].group.as_str()) {
            Some(group) => {
                let name = to_lowercase(rows[i].name.as_str());
                out.push(GlobalMarginal { id: rows[i].id, group, name, df: rows[i].df });
            },
            None => {},
        }
        i += 1;
    }
    proof {
        assert(rows@.take(rows@.len() as int) =~= rows@);
    }
    out
}

/// A tag goes into the catalog graph exactly where its group is known.
pub proof fn law_only_known_tags_are_loaded(rows: Seq<TagDfRow>, row: TagDfRow)
    ensures
        tally::times(known_tags(rows), row) == (if names_a_group(row.group@) {
            tally::times(rows, row)
        } else {
            0
        }),
{
    lemma_names_a_group(row.group@);
    tally::lemma_times_filter(
        rows,
        |r: TagDfRow| models::group_named(r.group@) is Some,
        row,
    );
}

/// One stored pair of the catalog.
#[derive(Clone, Copy, Debug, PartialEq, Eq, Structural)]
pub struct CatalogPair {
    pub tag1: i64,
    pub tag2: i64,
    pub count: i64,
}

/// A pair of the frozen catalog graph.
#[derive(Clone, Copy, Debug, PartialEq, Eq, Structural)]
pub struct StagedPair {
    pub a: u32,
    pub b: u32,
    pub count: u32,
}

/// The staged form of a stored pair: none for a dangling or a self pair. The
/// count is cut to what a `u32` holds.
pub open spec fn staged_pair(local: Map<i64, u32>, p: CatalogPair) -> Option<StagedPair> {
    if local.dom().contains(p.tag1) && local.dom().contains(p.tag2) && local[p.tag1]
        != local[p.tag2] {
        Some(
            StagedPair {
                a: local[p.tag1],
                b: local[p.tag2],
                count: (if p.count < 0 {
                    0
                } else if p.count > u32::MAX {
                    u32::MAX as i64
                } else {
                    p.count
                }) as u32,
            },
        )
    } else {
        None
    }
}

/// The staged pairs of the first rows, in row order.
pub open spec fn staged_pairs(local: Map<i64, u32>, rows: Seq<CatalogPair>) -> Seq<StagedPair>
    decreases rows.len(),
{
    if rows.len() == 0 {
        Seq::empty()
    } else {
        let rest = staged_pairs(local, rows.drop_last());
        match staged_pair(local, rows.last()) {
            Some(s) => rest.push(s),
            None => rest,
        }
    }
}

/// A pair is staged for exactly the rows between two different tags of the graph,
/// in row order, under the numbers of these and with their count as far as it fits.
pub proof fn law_staged_pairs(local: Map<i64, u32>, rows: Seq<CatalogPair>)
    ensures
        ({
            let joining = rows.filter(|p: CatalogPair| joins_tags(local, p));
            let staged = staged_pairs(local, rows);
            &&& staged.len() == joining.len()
            &&& forall|k: int|
                0 <= k < staged.len() ==> {
                    &&& (#[trigger] staged[k]).a == local[joining[k].tag1]
                    &&& staged[k].b == local[joining[k].tag2]
                    &&& staged[k].a != staged[k].b
                    &&& 0 <= joining[k].count <= u32::MAX ==> staged[k].count == joining[k].count
                    &&& joining[k].count < 0 ==> staged[k].count == 0
                    &&& joining[k].count > u32::MAX ==> staged[k].count == u32::MAX
                }
        }),
    decreases rows.len(),
{
    reveal(Seq::filter);
    if rows.len() > 0 {
        law_staged_pairs(local, rows.drop_last());
    }
}

/// A row is between two different tags of the graph.
pub open spec fn joins_tags(local: Map<i64, u32>, p: CatalogPair) -> bool {
    &&& local.dom().contains(p.tag1)
    &&& local.dom().contains(p.tag2)
    &&& local[p.tag1] != local[p.tag2]
}

/// Stages the catalog pairs for the global relation graph. The second result
/// counts the rows that were skipped.
pub fn stage_global_pairs(local: &HashMap<i64, u32>, rows: &Vec<CatalogPair>) -> (r: (
    Vec<StagedPair>,
    u64,
))
    ensures
        r.0@ == staged_pairs(local@, rows@),
        r.0@.len() + r.1 == rows@.len(),
{
    let mut staged: Vec<StagedPair> = Vec::new();
    let mut skipped: u64 = 0;
    let mut i: usize = 0;
    proof {
        assert(rows@.take(0) =~= Seq::<CatalogPair>::empty());
    }
    while i < rows.len()
        invariant
            i <= rows.len(),
            staged@ == staged_pairs(local@, rows@.take(i as int)),
            staged@.len() + skipped == i,
        decreases rows.len() - i,
    {
        broadcast use vstd::std_specs::hash::group_hash_axioms;

        proof {
            assert(rows@.take(i + 1).drop_last() =~= rows@.take(i as int));
            assert(rows@.take(i + 1).last() == rows@[i as int]);
        }
        let row = rows[i];
        let a = local.get(&row.tag1);
        let b = local.get(&row.tag2);
        let mut kept: bool = false;
        match (a, b) {
            (Some(x), Some(y)) => {
                if *x != *y {
                    let count: u32 = if row.count < 0 {
                        0
                    } else if row.count > 4294967295i64 {
                        u32::MAX
                    } else {
                        row.count as u32
                    };
                    staged.push(StagedPair { a: *x, b: *y, count });
                    kept = true;
                }
            },
            _ => {},
        }
        if !kept {
            skipped = skipped + 1;
        }
        i += 1;
    }
    proof {
        assert(rows@.take(rows@.len() as int) =~= rows@);
    }
    (staged, skipped)
}

} // verus!
