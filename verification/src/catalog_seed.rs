//! The import of the tag exports: options, columns and batches.

use vstd::prelude::*;

use crate::models;
use crate::text;
use crate::text::{parse_i64, text_eq, trim};

verus! {

pub const EXPORTS_BASE: &'static str = "https://e621.net/db_exports";

pub const DEFAULT_DIR: &'static str = "db_exports";

pub const TAGS_CSV: &'static str = "tags.csv.gz";

pub const ALIASES_CSV: &'static str = "tag_aliases.csv.gz";

pub const IMPLICATIONS_CSV: &'static str = "tag_implications.csv.gz";

/// How many relations are stored at once.
pub const RELATION_BATCH: usize = 5000;

/// How many tags are stored at once.
pub const TAG_BATCH: usize = 50_000;

// ---------------------------------------------------------------------------
// Options
// ---------------------------------------------------------------------------

#[derive(Debug)]
pub struct Opts {
    pub dir: String,
    pub skip_download: bool,
    /// The arguments that were not understood.
    pub unknown: Vec<String>,
}

/// What the arguments say: the folder, whether to skip the download, and the
/// arguments not understood. None where `--dir` has no value.
pub open spec fn opts_of(
    args: Seq<Seq<char>>,
    dir: Seq<char>,
    skip: bool,
    unknown: Seq<Seq<char>>,
) -> Option<(Seq<char>, bool, Seq<Seq<char>>)>
    decreases args.len(),
{
    if args.len() == 0 {
        Some((dir, skip, unknown))
    } else if args[0] == "--dir"@ {
        if args.len() < 2 {
            None
        } else {
            opts_of(args.skip(2), args[1], skip, unknown)
        }
    } else if args[0] == "--skip-download"@ {
        opts_of(args.skip(1), dir, true, unknown)
    } else {
        opts_of(args.skip(1), dir, skip, unknown.push(args[0]))
    }
}

impl Opts {
    /// Reads the command line. The last `--dir` counts. None where it has no
    /// value.
    pub fn parse(args: &Vec<String>) -> (r: Option<Opts>)
        ensures
            (match r {
                Some(o) => Some((o.dir@, o.skip_download, text::views(o.unknown@))),
                None => None,
            }) == opts_of(text::views(args@), DEFAULT_DIR@, false, Seq::empty()),
    {
        let mut dir = String::from_str(DEFAULT_DIR);
        let mut skip_download: bool = false;
        let mut unknown: Vec<String> = Vec::new();
        let ghost goal = opts_of(text::views(args@), DEFAULT_DIR@, false, Seq::empty());
        let mut i: usize = 0;
        proof {
            assert(text::views(args@).skip(0) =~= text::views(args@));
            assert(text::views(unknown@) =~= Seq::<Seq<char>>::empty());
        }
        while i < args.len()
            invariant
                i <= args.len(),
                goal == opts_of(text::views(args@), DEFAULT_DIR@, false, Seq::empty()),
                opts_of(
                    text::views(args@).skip(i as int),
                    dir@,
                    skip_download,
                    text::views(unknown@),
                ) == goal,
            decreases args.len() - i,
        {
            let ghost rest = text::views(args@).skip(i as int);
            let ghost before = unknown@;
            proof {
                assert(rest[0] == args@[i as int]@);
                assert(rest.skip(1) =~= text::views(args@).skip(i + 1));
            }
            if text_eq(args[i].as_str(), "--dir") {
                if args.len() - i < 2 {
                    return None;
                }
                proof {
                    assert(rest[1] == args@[i + 1]@);
                    assert(rest.skip(2) =~= text::views(args@).skip(i + 2));
                }
                dir = args[i + 1].clone();
                i += 2;
            } else if text_eq(args[i].as_str(), "--skip-download") {
                skip_download = true;
                i += 1;
            } else {
                unknown.push(args[i].clone());
                proof {
                    assert(text::views(unknown@) =~= text::views(before).push(args@[i as int]@));
                }
                i += 1;
            }
        }
        proof {
            assert(text::views(args@).skip(args@.len() as int).len() == 0);
        }
        Some(Opts { dir, skip_download, unknown })
    }
}

/// Where an export comes from.
#[derive(Debug)]
pub enum ExportSource {
    /// The file is there.
    File,
    /// The file has to be there and is not.
    Missing(String),
    /// The file is to be downloaded from this address.
    Download(String),
}

/// Where an export comes from, given whether its file exists.
pub fn ensure_download(skip_download: bool, present: bool, path: &str, name: &str) -> (r: ExportSource)
    ensures
        if present {
            r is File
        } else if skip_download {
            r matches ExportSource::Missing(m) && m@ == path@
                + " missing and --skip-download was set"@
        } else {
            r matches ExportSource::Download(u) && u@ == EXPORTS_BASE@ + "/"@ + name@
        },
{
    if present {
        return ExportSource::File;
    }
    if skip_download {
        let mut m = String::from_str(path);
        m.append(" missing and --skip-download was set");
        return ExportSource::Missing(m);
    }
    let mut u = String::from_str(EXPORTS_BASE);
    u.append("/");
    u.append(name);
    ExportSource::Download(u)
}

// ---------------------------------------------------------------------------
// Tables
// ---------------------------------------------------------------------------

/// A table: its header, and for each row its fields or the text of the error at
/// which it could not be read.
#[derive(Debug)]
pub struct Table {
    pub headers: Vec<String>,
    pub rows: Vec<Result<Vec<String>, String>>,
}

/// What a table stands for.
pub struct TableView {
    pub headers: Seq<Seq<char>>,
    pub rows: Seq<Result<Seq<Seq<char>>, Seq<char>>>,
}

pub open spec fn row_view(r: Result<Vec<String>, String>) -> Result<Seq<Seq<char>>, Seq<char>> {
    match r {
        Ok(v) => Ok(text::views(v@)),
        Err(e) => Err(e@),
    }
}

pub open spec fn rows_view(rows: Seq<Result<Vec<String>, String>>) -> Seq<
    Result<Seq<Seq<char>>, Seq<char>>,
> {
    rows.map_values(|r: Result<Vec<String>, String>| row_view(r))
}

pub open spec fn table_view(r: Result<Table, String>) -> Result<TableView, Seq<char>> {
    match r {
        Ok(t) => Ok(TableView { headers: text::views(t.headers@), rows: rows_view(t.rows@) }),
        Err(e) => Err(e@),
    }
}

/// The table in a compressed export, as a `csv::Reader` with headers reads it
/// through `flate2`'s `GzDecoder`: the text of the error where its header cannot
/// be read.
pub uninterp spec fn csv_table(gz: Seq<u8>) -> Result<TableView, Seq<char>>;

/// Reads a compressed export with a `csv::Reader` (`ReaderBuilder::from_reader`
/// with headers, `headers` and `records`) over `flate2::read::GzDecoder`. The
/// result has the fields of the header and of every record as the reader gives
/// them, and the text of the error for each record that it could not read.
#[verifier::external_body]
fn read_table(gz: &[u8]) -> (r: Result<Table, String>)
    ensures
        table_view(r) == csv_table(gz@),
{
    let mut rdr = csv::ReaderBuilder::new()
        .has_headers(true)
        .from_reader(flate2::read::GzDecoder::new(gz));
    let headers = rdr.headers().map_err(|e| format!("{e}"))?.iter().map(String::from).collect();
    let rows = rdr
        .records()
        .map(|r| match r {
            Ok(rec) => Ok(rec.iter().map(String::from).collect()),
            Err(e) => Err(format!("{e}")),
        })
        .collect();
    Ok(Table { headers, rows })
}

/// `i` is the first column of the given name.
pub open spec fn is_column(headers: Seq<Seq<char>>, name: Seq<char>, i: int) -> bool {
    &&& 0 <= i < headers.len()
    &&& headers[i] == name
    &&& forall|j: int| 0 <= j < i ==> headers[j] != name
}

/// The column of the given name.
pub open spec fn column(headers: Seq<Seq<char>>, name: Seq<char>) -> Option<int> {
    if headers.contains(name) {
        Some(choose|i: int| is_column(headers, name, i))
    } else {
        None
    }
}

pub fn col_ix(headers: &Vec<String>, name: &str) -> (r: Option<usize>)
    ensures
        match r {
            Some(i) => is_column(text::views(headers@), name@, i as int) && column(
                text::views(headers@),
                name@,
            ) == Some(i as int),
            None => column(text::views(headers@), name@) is None,
        },
{
    let ghost h = text::views(headers@);
    let mut i: usize = 0;
    while i < headers.len()
        invariant
            i <= headers.len(),
            h == text::views(headers@),
            forall|j: int| 0 <= j < i ==> h[j] != name@,
        decreases headers.len() - i,
    {
        if text_eq(headers[i].as_str(), name) {
            proof {
                assert(h[i as int] == name@);
                assert(is_column(h, name@, i as int));
                let k = choose|k: int| is_column(h, name@, k);
                assert(is_column(h, name@, k));
                if k < i {
                    assert(h[k] != name@);
                }
                if i < k {
                    assert(h[i as int] != name@);
                }
            }
            return Some(i);
        }
        i += 1;
    }
    None
}

/// The field of a row in a column; empty where it has none.
pub open spec fn field(row: Seq<Seq<char>>, ix: Option<int>) -> Seq<char> {
    match ix {
        Some(i) => if 0 <= i < row.len() {
            row[i]
        } else {
            Seq::empty()
        },
        None => Seq::empty(),
    }
}

/// A column index as a number.
pub open spec fn ix_view(ix: Option<usize>) -> Option<int> {
    match ix {
        Some(i) => Some(i as int),
        None => None,
    }
}

pub fn opt(row: &Vec<String>, ix: Option<usize>) -> (r: String)
    ensures
        r@ == field(text::views(row@), ix_view(ix)),
{
    match ix {
        Some(i) => if i < row.len() {
            row[i].clone()
        } else {
            String::new()
        },
        None => String::new(),
    }
}

/// A time in a field: none where the field is blank.
pub open spec fn time_field(row: Seq<Seq<char>>, ix: Option<int>) -> Option<Seq<char>> {
    let t = text::trimmed(field(row, ix));
    if t.len() == 0 {
        None
    } else {
        Some(t)
    }
}

pub open spec fn opt_view(s: Option<String>) -> Option<Seq<char>> {
    match s {
        Some(t) => Some(t@),
        None => None,
    }
}

pub fn dt_opt(row: &Vec<String>, ix: Option<usize>) -> (r: Option<String>)
    ensures
        opt_view(r) == time_field(text::views(row@), ix_view(ix)),
{
    let s = trim(opt(row, ix).as_str());
    if s.as_str().is_empty() {
        None
    } else {
        Some(s)
    }
}

/// The tag group of a category number; `general` for any other.
pub open spec fn group_of_category(cat: Seq<char>) -> Seq<char> {
    let c = text::trimmed(cat);
    if c == "1"@ {
        "artist"@
    } else if c == "3"@ {
        "copyright"@
    } else if c == "4"@ {
        "character"@
    } else if c == "5"@ {
        "species"@
    } else if c == "7"@ {
        "meta"@
    } else if c == "8"@ {
        "lore"@
    } else {
        "general"@
    }
}

pub fn category_to_group(cat: &str) -> (r: &'static str)
    ensures
        r@ == group_of_category(cat@),
{
    let c = trim(cat);
    if text_eq(c.as_str(), "1") {
        "artist"
    } else if text_eq(c.as_str(), "3") {
        "copyright"
    } else if text_eq(c.as_str(), "4") {
        "character"
    } else if text_eq(c.as_str(), "5") {
        "species"
    } else if text_eq(c.as_str(), "7") {
        "meta"
    } else if text_eq(c.as_str(), "8") {
        "lore"
    } else {
        "general"
    }
}

// ---------------------------------------------------------------------------
// Batches
// ---------------------------------------------------------------------------

/// The rows before the first that could not be read.
pub open spec fn readable(rows: Seq<Result<Seq<Seq<char>>, Seq<char>>>) -> Seq<Seq<Seq<char>>>
    decreases rows.len(),
{
    if rows.len() == 0 {
        Seq::empty()
    } else {
        match rows[0] {
            Ok(r) => seq![r] + readable(rows.drop_first()),
            Err(_) => Seq::empty(),
        }
    }
}

/// The error of the first row that could not be read.
pub open spec fn first_error(rows: Seq<Result<Seq<Seq<char>>, Seq<char>>>) -> Option<Seq<char>>
    decreases rows.len(),
{
    if rows.len() == 0 {
        None
    } else {
        match rows[0] {
            Ok(_) => first_error(rows.drop_first()),
            Err(e) => Some(e),
        }
    }
}

/// Consecutive batches of `size`; the last may be shorter.
pub open spec fn batches_of<A>(s: Seq<A>, size: int) -> Seq<Seq<A>>
    decreases s.len(),
{
    if s.len() == 0 || size <= 0 {
        Seq::empty()
    } else if s.len() <= size {
        seq![s]
    } else {
        seq![s.take(size)] + batches_of(s.skip(size), size)
    }
}

/// The batches that are stored of some items: all of them, or the full ones only
/// where reading broke off.
pub open spec fn stored_batches<A>(s: Seq<A>, size: int, broken: bool) -> Seq<Seq<A>> {
    if broken && size > 0 {
        batches_of(s.take((s.len() as int / size) * size), size)
    } else {
        batches_of(s, size)
    }
}

/// A tag and its group.
#[derive(Debug)]
pub struct CatalogTag {
    pub name: String,
    pub group_type: String,
}

/// What is stored of an export: the batches in order, and the error at which
/// reading broke off.
#[derive(Debug)]
pub struct TagIngest {
    pub batches: Vec<Vec<CatalogTag>>,
    pub error: Option<String>,
}

/// The tags of some rows: name and group, without the nameless.
pub open spec fn tags_of(
    rows: Seq<Seq<Seq<char>>>,
    name_ix: Option<int>,
    cat_ix: Option<int>,
) -> Seq<(Seq<char>, Seq<char>)>
    decreases rows.len(),
{
    if rows.len() == 0 {
        Seq::empty()
    } else {
        let rest = tags_of(rows.drop_last(), name_ix, cat_ix);
        let name = field(rows.last(), name_ix);
        if name.len() == 0 {
            rest
        } else {
            rest.push((name, group_of_category(field(rows.last(), cat_ix))))
        }
    }
}

pub open spec fn tag_view(t: CatalogTag) -> (Seq<char>, Seq<char>) {
    (t.name@, t.group_type@)
}

pub open spec fn tag_views(v: Seq<CatalogTag>) -> Seq<(Seq<char>, Seq<char>)> {
    v.map_values(|t: CatalogTag| tag_view(t))
}

pub open spec fn tag_batches(b: Seq<Vec<CatalogTag>>) -> Seq<Seq<(Seq<char>, Seq<char>)>> {
    b.map_values(|v: Vec<CatalogTag>| tag_views(v@))
}

/// Full batches and what is left after them make up the whole.
proof fn lemma_next_full<A>(s: Seq<A>, size: int, x: A)
    requires
        size > 0,
    ensures
        ({
            let full = (s.len() as int / size) * size;
            let t = s.push(x);
            let rest = s.skip(full).push(x);
            if rest.len() == size {
                &&& (t.len() as int / size) * size == t.len()
                &&& batches_of(t, size) == batches_of(s.take(full), size).push(rest)
            } else {
                &&& rest.len() < size
                &&& (t.len() as int / size) * size == full
                &&& t.take(full) == s.take(full)
                &&& t.skip(full) == rest
            }
        }),
{
    let n = s.len() as int;
    let q = n / size;
    let full = q * size;
    let t = s.push(x);
    vstd::arithmetic::div_mod::lemma_fundamental_div_mod(n, size);
    assert(full == size * q) by (nonlinear_arith)
        requires
            full == q * size,
    ;
    assert(0 <= n - full < size);
    assert(s.skip(full).push(x) =~= t.skip(full));
    if n + 1 - full == size {
        assert(n + 1 == (q + 1) * size + 0 && n + 1 == size * (q + 1) + 0) by (nonlinear_arith)
            requires
                n + 1 - q * size == size,
        ;
        assert((n + 1) / size == q + 1) by {
            vstd::arithmetic::div_mod::lemma_fundamental_div_mod_converse(
                n + 1,
                size,
                q + 1,
                0,
            );
        }
        lemma_batches_append(s.take(full), t.skip(full), size, q);
        assert(s.take(full) + t.skip(full) =~= t);
    } else {
        assert((n + 1) / size == q) by {
            vstd::arithmetic::div_mod::lemma_fundamental_div_mod_converse(
                n + 1,
                size,
                q,
                n + 1 - full,
            );
        }
        assert(t.take(full) =~= s.take(full));
    }
}

/// A last batch goes behind full ones.
proof fn lemma_batches_append<A>(a: Seq<A>, b: Seq<A>, size: int, q: int)
    requires
        size > 0,
        q >= 0,
        a.len() == q * size,
        0 < b.len() <= size,
    ensures
        batches_of(a + b, size) == batches_of(a, size).push(b),
    decreases q,
{
    if q == 0 {
        assert(a.len() == 0) by (nonlinear_arith)
            requires
                a.len() == q * size,
                q == 0,
        ;
        assert(a + b =~= b);
        assert(batches_of(a, size).push(b) =~= seq![b]);
    } else {
        assert(a.len() >= size && a.len() - size == (q - 1) * size) by (nonlinear_arith)
            requires
                a.len() == q * size,
                q >= 1,
                size > 0,
        ;
        lemma_batches_append(a.skip(size), b, size, q - 1);
        assert((a + b).take(size) =~= a.take(size));
        assert((a + b).skip(size) =~= a.skip(size) + b);
        if a.len() == size {
            assert(a.skip(size).len() == 0);
            assert(a.take(size) =~= a);
            assert(batches_of(a, size) =~= seq![a]);
            assert(batches_of(a.skip(size), size) =~= Seq::<Seq<A>>::empty());
        }
        assert(batches_of(a + b, size) =~= batches_of(a, size).push(b));
    }
}

/// All items are stored where nothing is left over; else what is left over is
/// the last batch.
proof fn lemma_finish<A>(s: Seq<A>, size: int)
    requires
        size > 0,
    ensures
        ({
            let full = (s.len() as int / size) * size;
            batches_of(s, size) == (if full == s.len() {
                batches_of(s.take(full), size)
            } else {
                batches_of(s.take(full), size).push(s.skip(full))
            })
        }),
{
    let n = s.len() as int;
    let q = n / size;
    let full = q * size;
    vstd::arithmetic::div_mod::lemma_fundamental_div_mod(n, size);
    assert(full == size * q) by (nonlinear_arith)
        requires
            full == q * size,
    ;
    assert(q >= 0) by {
        vstd::arithmetic::div_mod::lemma_div_pos_is_pos(n, size);
    }
    if full == n {
        assert(s.take(full) =~= s);
    } else {
        lemma_batches_append(s.take(full), s.skip(full), size, q);
        assert(s.take(full) + s.skip(full) =~= s);
    }
}

/// Some items under way: the full batches, and what is left over after them.
spec fn is_batched<A>(batches: Seq<Seq<A>>, left: Seq<A>, s: Seq<A>, size: int) -> bool {
    let full = (s.len() as int / size) * size;
    &&& 0 <= full <= s.len()
    &&& batches == batches_of(s.take(full), size)
    &&& left == s.skip(full)
    &&& left.len() < size
}

/// Nothing is batched at first.
proof fn lemma_batched_none<A>(size: int)
    requires
        size > 0,
    ensures
        is_batched(Seq::<Seq<A>>::empty(), Seq::<A>::empty(), Seq::<A>::empty(), size),
{
    let none = Seq::<A>::empty();
    assert(0int / size == 0) by (nonlinear_arith)
        requires
            size > 0,
    ;
    assert(none.take(0) =~= none);
    assert(none.skip(0) =~= none);
    assert(batches_of(none, size) =~= Seq::<Seq<A>>::empty());
}

/// One item more fills up a batch or is left over too.
proof fn lemma_batched_next<A>(batches: Seq<Seq<A>>, left: Seq<A>, s: Seq<A>, size: int, x: A)
    requires
        size > 0,
        is_batched(batches, left, s, size),
    ensures
        if left.len() + 1 == size {
            is_batched(batches.push(left.push(x)), Seq::<A>::empty(), s.push(x), size)
        } else {
            is_batched(batches, left.push(x), s.push(x), size)
        },
{
    let t = s.push(x);
    lemma_next_full(s, size, x);
    if left.len() + 1 == size {
        assert(t.take(t.len() as int) =~= t);
        assert(t.skip(t.len() as int) =~= Seq::<A>::empty());
    }
}

/// What is left over at the end is the last batch.
proof fn lemma_batched_all<A>(batches: Seq<Seq<A>>, left: Seq<A>, s: Seq<A>, size: int)
    requires
        size > 0,
        is_batched(batches, left, s, size),
    ensures
        batches_of(s, size) == (if left.len() == 0 {
            batches
        } else {
            batches.push(left)
        }),
{
    lemma_finish(s, size);
}

/// Reading under way: the rows read before row `i`, and the error it broke off at.
spec fn is_read(
    rows: Seq<Result<Seq<Seq<char>>, Seq<char>>>,
    i: int,
    done: Seq<Seq<Seq<char>>>,
    error: Option<Seq<char>>,
) -> bool {
    match error {
        None => done + readable(rows.skip(i)) == readable(rows) && first_error(rows.skip(i))
            == first_error(rows),
        Some(e) => done == readable(rows) && first_error(rows) == Some(e),
    }
}

/// Nothing is read at first.
proof fn lemma_read_none(rows: Seq<Result<Seq<Seq<char>>, Seq<char>>>)
    ensures
        is_read(rows, 0, Seq::empty(), None),
{
    assert(rows.skip(0) =~= rows);
    assert(Seq::<Seq<Seq<char>>>::empty() + readable(rows) =~= readable(rows));
}

/// A row that can be read goes behind those before it; at any other, reading breaks
/// off.
proof fn lemma_read_next(
    rows: Seq<Result<Seq<Seq<char>>, Seq<char>>>,
    i: int,
    done: Seq<Seq<Seq<char>>>,
)
    requires
        0 <= i < rows.len(),
        is_read(rows, i, done, None),
    ensures
        match rows[i] {
            Ok(row) => is_read(rows, i + 1, done.push(row), None),
            Err(e) => is_read(rows, i + 1, done, Some(e)),
        },
{
    let tail = rows.skip(i);
    assert(tail[0] == rows[i]);
    assert(tail.drop_first() =~= rows.skip(i + 1));
    match rows[i] {
        Ok(row) => {
            assert(done.push(row) + readable(rows.skip(i + 1)) =~= done + readable(tail));
        },
        Err(_) => {
            assert(done + readable(tail) =~= done);
        },
    }
}

/// All rows are read at the end.
proof fn lemma_read_all(
    rows: Seq<Result<Seq<Seq<char>>, Seq<char>>>,
    done: Seq<Seq<Seq<char>>>,
)
    requires
        is_read(rows, rows.len() as int, done, None),
    ensures
        done == readable(rows),
        first_error(rows) is None,
{
    assert(rows.skip(rows.len() as int).len() == 0);
    assert(done + readable(rows.skip(rows.len() as int)) =~= done);
}

/// The tags of a table, in batches.
pub fn batch_tags(table: &Table) -> (r: TagIngest)
    ensures
        ({
            let h = text::views(table.headers@);
            let rows = rows_view(table.rows@);
            let tags = tags_of(readable(rows), column(h, "name"@), column(h, "category"@));
            &&& opt_view(r.error) == first_error(rows)
            &&& tag_batches(r.batches@) == stored_batches(
                tags,
                TAG_BATCH as int,
                first_error(rows) is Some,
            )
        }),
{
    let name_ix = col_ix(&table.headers, "name");
    let cat_ix = col_ix(&table.headers, "category");
    let ghost h = text::views(table.headers@);
    let ghost n_ix = column(h, "name"@);
    let ghost c_ix = column(h, "category"@);
    let ghost rows = rows_view(table.rows@);
    let ghost size = TAG_BATCH as int;
    let mut batches: Vec<Vec<CatalogTag>> = Vec::new();
    let mut buf: Vec<CatalogTag> = Vec::new();
    let mut error: Option<String> = None;
    let mut i: usize = 0;
    let ghost mut done: Seq<Seq<Seq<char>>> = Seq::empty();
    let ghost mut tags: Seq<(Seq<char>, Seq<char>)> = Seq::empty();
    proof {
        lemma_read_none(rows);
        lemma_batched_none::<(Seq<char>, Seq<char>)>(size);
        assert(tag_batches(batches@) =~= Seq::<Seq<(Seq<char>, Seq<char>)>>::empty());
        assert(tag_views(buf@) =~= tags);
    }
    while i < table.rows.len() && error.is_none()
        invariant
            i <= table.rows.len(),
            size == TAG_BATCH,
            rows == rows_view(table.rows@),
            ix_view(name_ix) == n_ix,
            ix_view(cat_ix) == c_ix,
            tags == tags_of(done, n_ix, c_ix),
            is_batched(tag_batches(batches@), tag_views(buf@), tags, size),
            is_read(rows, i as int, done, opt_view(error)),
        decreases table.rows.len() - i,
    {
        let ghost before_done = done;
        let ghost before_batches = batches@;
        let ghost before_buf = buf@;
        proof {
            lemma_read_next(rows, i as int, done);
            assert(rows[i as int] == row_view(table.rows@[i as int]));
        }
        match &table.rows[i] {
            Err(e) => {
                error = Some(e.clone());
            },
            Ok(row) => {
                proof {
                    done = before_done.push(text::views(row@));
                    assert(done.drop_last() =~= before_done);
                }
                let name = opt(row, name_ix);
                if !name.as_str().is_empty() {
                    let category = opt(row, cat_ix);
                    let group_type = String::from_str(category_to_group(category.as_str()));
                    let one = CatalogTag { name, group_type };
                    let ghost x = tag_view(one);
                    proof {
                        lemma_batched_next(
                            tag_batches(batches@),
                            tag_views(buf@),
                            tags,
                            size,
                            x,
                        );
                        tags = tags.push(x);
                    }
                    buf.push(one);
                    proof {
                        assert(tag_views(buf@) =~= tag_views(before_buf).push(x));
                    }
                    if buf.len() >= TAG_BATCH {
                        let mut full: Vec<CatalogTag> = Vec::new();
                        std::mem::swap(&mut full, &mut buf);
                        batches.push(full);
                        proof {
                            assert(tag_batches(batches@) =~= tag_batches(before_batches).push(
                                tag_views(full@),
                            ));
                            assert(tag_views(buf@) =~= Seq::<(Seq<char>, Seq<char>)>::empty());
                        }
                    }
                }
            },
        }
        i += 1;
    }
    proof {
        if error is None {
            lemma_read_all(rows, done);
        }
        lemma_batched_all(tag_batches(batches@), tag_views(buf@), tags, size);
    }
    let ghost before_batches = batches@;
    if error.is_none() && buf.len() > 0 {
        batches.push(buf);
        proof {
            assert(tag_batches(batches@) =~= tag_batches(before_batches).push(tag_views(buf@)));
        }
    }
    TagIngest { batches, error }
}

/// What is stored of a compressed export of tags. The error is that of the
/// header where it cannot be read.
pub fn ingest_tags(gz: &[u8]) -> (r: Result<TagIngest, String>)
    ensures
        match csv_table(gz@) {
            Err(e) => r matches Err(m) && m@ == e,
            Ok(t) => match r {
                Ok(x) => {
                    &&& opt_view(x.error) == first_error(t.rows)
                    &&& tag_batches(x.batches@) == stored_batches(
                        tags_of(
                            readable(t.rows),
                            column(t.headers, "name"@),
                            column(t.headers, "category"@),
                        ),
                        TAG_BATCH as int,
                        first_error(t.rows) is Some,
                    )
                },
                Err(_) => false,
            },
        },
{
    match read_table(gz) {
        Ok(t) => Ok(batch_tags(&t)),
        Err(e) => Err(e),
    }
}

/// Nothing is lost or added by batching: the batches in a row are the items.
pub proof fn law_batches_make_up_the_items<A>(s: Seq<A>, size: int)
    requires
        size > 0,
    ensures
        batches_of(s, size).flatten() == s,
        forall|i: int|
            0 <= i < batches_of(s, size).len() ==> 0 < (#[trigger] batches_of(s, size)[i]).len()
                <= size,
    decreases s.len(),
{
    if s.len() == 0 {
        assert(batches_of(s, size).flatten() =~= s);
    } else if s.len() <= size {
        let b = batches_of(s, size);
        assert(b =~= seq![s]);
        assert(b.drop_first() =~= Seq::<Seq<A>>::empty());
        assert(b.drop_first().flatten() =~= Seq::<A>::empty());
        assert(b.flatten() =~= b.first() + b.drop_first().flatten());
    } else {
        law_batches_make_up_the_items(s.skip(size), size);
        let b = batches_of(s, size);
        let rest = batches_of(s.skip(size), size);
        assert(b.drop_first() =~= rest);
        assert(b.flatten() =~= s.take(size) + rest.flatten());
        assert(b.flatten() =~= s);
        assert forall|i: int| 0 <= i < b.len() implies 0 < (#[trigger] b[i]).len() <= size by {
            if i > 0 {
                assert(b[i] == rest[i - 1]);
            }
        }
    }
}

// ---------------------------------------------------------------------------
// Relations
// ---------------------------------------------------------------------------

/// An alias or an implication between two tags.
#[derive(Debug)]
pub struct TagRelation {
    pub id: i64,
    pub antecedent_name: String,
    pub consequent_name: String,
    pub status: String,
    pub created_at: Option<String>,
    pub updated_at: Option<String>,
}

/// What a relation says.
pub struct RelationView {
    pub id: i64,
    pub antecedent_name: Seq<char>,
    pub consequent_name: Seq<char>,
    pub status: Seq<char>,
    pub created_at: Option<Seq<char>>,
    pub updated_at: Option<Seq<char>>,
}

pub open spec fn relation_view(t: TagRelation) -> RelationView {
    RelationView {
        id: t.id,
        antecedent_name: t.antecedent_name@,
        consequent_name: t.consequent_name@,
        status: t.status@,
        created_at: opt_view(t.created_at),
        updated_at: opt_view(t.updated_at),
    }
}

/// The relation of a row. An id that is no number counts as zero.
pub open spec fn relation_of(headers: Seq<Seq<char>>, row: Seq<Seq<char>>) -> RelationView {
    RelationView {
        id: match text::signed_number(text::trimmed(field(row, column(headers, "id"@)))) {
            Some(n) => n,
            None => 0,
        },
        antecedent_name: field(row, column(headers, "antecedent_name"@)),
        consequent_name: field(row, column(headers, "consequent_name"@)),
        status: field(row, column(headers, "status"@)),
        created_at: time_field(row, column(headers, "created_at"@)),
        updated_at: time_field(row, column(headers, "updated_at"@)),
    }
}

fn read_relation(headers: &Vec<String>, row: &Vec<String>) -> (r: TagRelation)
    ensures
        relation_view(r) == relation_of(text::views(headers@), text::views(row@)),
{
    let raw = trim(opt(row, col_ix(headers, "id")).as_str());
    let id: i64 = match parse_i64(raw.as_str()) {
        Some(n) => n,
        None => 0,
    };
    TagRelation {
        id,
        antecedent_name: opt(row, col_ix(headers, "antecedent_name")),
        consequent_name: opt(row, col_ix(headers, "consequent_name")),
        status: opt(row, col_ix(headers, "status")),
        created_at: dt_opt(row, col_ix(headers, "created_at")),
        updated_at: dt_opt(row, col_ix(headers, "updated_at")),
    }
}

#[derive(Debug)]
pub struct RelationIngest {
    pub batches: Vec<Vec<TagRelation>>,
    pub error: Option<String>,
}

/// The relations of some rows.
pub open spec fn relations_of(headers: Seq<Seq<char>>, rows: Seq<Seq<Seq<char>>>) -> Seq<
    RelationView,
> {
    rows.map_values(|r: Seq<Seq<char>>| relation_of(headers, r))
}

pub open spec fn relation_views(v: Seq<TagRelation>) -> Seq<RelationView> {
    v.map_values(|t: TagRelation| relation_view(t))
}

pub open spec fn relation_batches(b: Seq<Vec<TagRelation>>) -> Seq<Seq<RelationView>> {
    b.map_values(|v: Vec<TagRelation>| relation_views(v@))
}

/// The relations of a table, in batches.
pub fn batch_relations(table: &Table) -> (r: RelationIngest)
    ensures
        ({
            let h = text::views(table.headers@);
            let rows = rows_view(table.rows@);
            &&& opt_view(r.error) == first_error(rows)
            &&& relation_batches(r.batches@) == stored_batches(
                relations_of(h, readable(rows)),
                RELATION_BATCH as int,
                first_error(rows) is Some,
            )
        }),
{
    let ghost h = text::views(table.headers@);
    let ghost rows = rows_view(table.rows@);
    let ghost size = RELATION_BATCH as int;
    let mut batches: Vec<Vec<TagRelation>> = Vec::new();
    let mut buf: Vec<TagRelation> = Vec::new();
    let mut error: Option<String> = None;
    let mut i: usize = 0;
    let ghost mut done: Seq<Seq<Seq<char>>> = Seq::empty();
    let ghost mut items: Seq<RelationView> = Seq::empty();
    proof {
        lemma_read_none(rows);
        lemma_batched_none::<RelationView>(size);
        assert(items =~= relations_of(h, done));
        assert(relation_batches(batches@) =~= Seq::<Seq<RelationView>>::empty());
        assert(relation_views(buf@) =~= items);
    }
    while i < table.rows.len() && error.is_none()
        invariant
            i <= table.rows.len(),
            size == RELATION_BATCH,
            h == text::views(table.headers@),
            rows == rows_view(table.rows@),
            items == relations_of(h, done),
            is_batched(relation_batches(batches@), relation_views(buf@), items, size),
            is_read(rows, i as int, done, opt_view(error)),
        decreases table.rows.len() - i,
    {
        let ghost before_done = done;
        let ghost before_batches = batches@;
        let ghost before_buf = buf@;
        proof {
            lemma_read_next(rows, i as int, done);
            assert(rows[i as int] == row_view(table.rows@[i as int]));
        }
        match &table.rows[i] {
            Err(e) => {
                error = Some(e.clone());
            },
            Ok(row) => {
                let one = read_relation(&table.headers, row);
                let ghost x = relation_view(one);
                proof {
                    lemma_batched_next(
                        relation_batches(batches@),
                        relation_views(buf@),
                        items,
                        size,
                        x,
                    );
                    done = before_done.push(text::views(row@));
                    items = items.push(x);
                    assert(relations_of(h, done) =~= relations_of(h, before_done).push(x));
                }
                buf.push(one);
                proof {
                    assert(relation_views(buf@) =~= relation_views(before_buf).push(x));
                }
                if buf.len() >= RELATION_BATCH {
                    let mut full: Vec<TagRelation> = Vec::new();
                    std::mem::swap(&mut full, &mut buf);
                    batches.push(full);
                    proof {
                        assert(relation_batches(batches@) =~= relation_batches(
                            before_batches,
                        ).push(relation_views(full@)));
                        assert(relation_views(buf@) =~= Seq::<RelationView>::empty());
                    }
                }
            },
        }
        i += 1;
    }
    proof {
        if error is None {
            lemma_read_all(rows, done);
        }
        lemma_batched_all(relation_batches(batches@), relation_views(buf@), items, size);
    }
    let ghost before_batches = batches@;
    if error.is_none() && buf.len() > 0 {
        batches.push(buf);
        proof {
            assert(relation_batches(batches@) =~= relation_batches(before_batches).push(
                relation_views(buf@),
            ));
        }
    }
    RelationIngest { batches, error }
}

/// What is stored of a compressed export of aliases or implications.
pub fn ingest_tag_relations(gz: &[u8]) -> (r: Result<RelationIngest, String>)
    ensures
        match csv_table(gz@) {
            Err(e) => r matches Err(m) && m@ == e,
            Ok(t) => match r {
                Ok(x) => {
                    &&& opt_view(x.error) == first_error(t.rows)
                    &&& relation_batches(x.batches@) == stored_batches(
                        relations_of(t.headers, readable(t.rows)),
                        RELATION_BATCH as int,
                        first_error(t.rows) is Some,
                    )
                },
                Err(_) => false,
            },
        },
{
    match read_table(gz) {
        Ok(t) => Ok(batch_relations(&t)),
        Err(e) => Err(e),
    }
}

// ---------------------------------------------------------------------------
// What is read
// ---------------------------------------------------------------------------

/// Arguments are read from the first to the last: what the first ones say holds for
/// those behind them.
pub proof fn law_options_are_read_in_order(
    a: Seq<Seq<char>>,
    b: Seq<Seq<char>>,
    dir: Seq<char>,
    skip: bool,
    unknown: Seq<Seq<char>>,
)
    requires
        opts_of(a, dir, skip, unknown) is Some,
    ensures
        ({
            let o = opts_of(a, dir, skip, unknown)->0;
            opts_of(a + b, dir, skip, unknown) == opts_of(b, o.0, o.1, o.2)
        }),
    decreases a.len(),
{
    if a.len() == 0 {
        assert(a + b =~= b);
    } else if a[0] == "--dir"@ {
        assert((a + b).skip(2) =~= a.skip(2) + b);
        law_options_are_read_in_order(a.skip(2), b, a[1], skip, unknown);
    } else if a[0] == "--skip-download"@ {
        assert((a + b).skip(1) =~= a.skip(1) + b);
        law_options_are_read_in_order(a.skip(1), b, dir, true, unknown);
    } else {
        assert((a + b).skip(1) =~= a.skip(1) + b);
        law_options_are_read_in_order(a.skip(1), b, dir, skip, unknown.push(a[0]));
    }
}

/// `--dir` names the folder, `--skip-download` skips the download, and any other
/// argument is noted and changes nothing; `--dir` at the end is refused.
pub proof fn law_what_options_say(
    word: Seq<char>,
    folder: Seq<char>,
    dir: Seq<char>,
    skip: bool,
    unknown: Seq<Seq<char>>,
)
    ensures
        opts_of(seq!["--dir"@, folder], dir, skip, unknown) == Some((folder, skip, unknown)),
        opts_of(seq!["--dir"@], dir, skip, unknown) is None,
        opts_of(seq!["--skip-download"@], dir, skip, unknown) == Some((dir, true, unknown)),
        word != "--dir"@ && word != "--skip-download"@ ==> opts_of(seq![word], dir, skip, unknown)
            == Some((dir, skip, unknown.push(word))),
        opts_of(Seq::empty(), dir, skip, unknown) == Some((dir, skip, unknown)),
{
    reveal_strlit("--dir");
    reveal_strlit("--skip-download");
    assert("--dir"@.len() == 5 && "--skip-download"@.len() == 15);
    reveal_with_fuel(opts_of, 2);
    let none = Seq::<Seq<char>>::empty();
    assert(seq!["--dir"@, folder].skip(2) =~= none);
    assert(seq!["--skip-download"@].skip(1) =~= none);
    assert(seq![word].skip(1) =~= none);
}

/// Every category number has its group, whatever space stands around it, and any
/// other text is general.
pub proof fn law_categories(cat: Seq<char>)
    ensures
        text::trimmed(cat) == "1"@ <==> group_of_category(cat) == "artist"@,
        text::trimmed(cat) == "3"@ <==> group_of_category(cat) == "copyright"@,
        text::trimmed(cat) == "4"@ <==> group_of_category(cat) == "character"@,
        text::trimmed(cat) == "5"@ <==> group_of_category(cat) == "species"@,
        text::trimmed(cat) == "7"@ <==> group_of_category(cat) == "meta"@,
        text::trimmed(cat) == "8"@ <==> group_of_category(cat) == "lore"@,
        models::group_named(group_of_category(cat)) is Some,
{
    reveal_strlit("artist");
    reveal_strlit("character");
    reveal_strlit("copyright");
    reveal_strlit("general");
    reveal_strlit("lore");
    reveal_strlit("species");
    reveal_strlit("meta");
    assert("artist"@.len() == 6 && "character"@.len() == 9 && "copyright"@.len() == 9
        && "general"@.len() == 7 && "lore"@.len() == 4 && "species"@.len() == 7 && "meta"@.len()
        == 4);
    assert("character"@[1] == 'h' && "copyright"@[1] == 'o');
    assert("general"@[0] == 'g' && "species"@[0] == 's');
    assert("lore"@[0] == 'l' && "meta"@[0] == 'm');
    reveal_strlit("1");
    reveal_strlit("3");
    reveal_strlit("4");
    reveal_strlit("5");
    reveal_strlit("7");
    reveal_strlit("8");
    assert("1"@[0] == '1' && "3"@[0] == '3' && "4"@[0] == '4' && "5"@[0] == '5' && "7"@[0] == '7'
        && "8"@[0] == '8');
}

/// Rows are read up to the first that cannot be, and its error is told.
pub proof fn law_reading_stops_at_the_first_error(
    rows: Seq<Result<Seq<Seq<char>>, Seq<char>>>,
) -> (k: int)
    ensures
        0 <= k <= rows.len(),
        readable(rows).len() == k,
        forall|i: int|
            0 <= i < k ==> #[trigger] rows[i] == Ok::<Seq<Seq<char>>, Seq<char>>(readable(rows)[i]),
        k < rows.len() ==> rows[k] is Err && first_error(rows) == Some(rows[k]->Err_0),
        k == rows.len() ==> first_error(rows) is None,
    decreases rows.len(),
{
    if rows.len() == 0 {
        0
    } else {
        match rows[0] {
            Ok(r) => {
                let rest = rows.drop_first();
                let j = law_reading_stops_at_the_first_error(rest);
                assert forall|i: int| 0 <= i < j + 1 implies #[trigger] rows[i] == Ok::<
                    Seq<Seq<char>>,
                    Seq<char>,
                >(readable(rows)[i]) by {
                    if i > 0 {
                        assert(rest[i - 1] == rows[i]);
                    }
                }
                if j < rest.len() {
                    assert(rest[j] == rows[j + 1]);
                }
                j + 1
            },
            Err(_) => 0,
        }
    }
}

/// Where reading broke off only full batches are stored, as many as there are; else
/// everything is.
pub proof fn law_stored_batches<A>(s: Seq<A>, size: int)
    requires
        size > 0,
    ensures
        stored_batches(s, size, false).flatten() == s,
        stored_batches(s, size, true).flatten() == s.take((s.len() as int / size) * size),
        forall|i: int|
            0 <= i < stored_batches(s, size, true).len() ==> (#[trigger] stored_batches(
                s,
                size,
                true,
            )[i]).len() == size,
{
    let q = s.len() as int / size;
    assert(0 <= q * size <= s.len() && 0 <= q) by (nonlinear_arith)
        requires
            size > 0,
            q == s.len() as int / size,
            s.len() >= 0,
    ;
    let full = s.take(q * size);
    law_batches_make_up_the_items(s, size);
    law_batches_make_up_the_items(full, size);
    lemma_full_batches(full, size, q);
}

proof fn lemma_full_batches<A>(s: Seq<A>, size: int, q: int)
    requires
        size > 0,
        q >= 0,
        s.len() == q * size,
    ensures
        forall|i: int|
            0 <= i < batches_of(s, size).len() ==> (#[trigger] batches_of(s, size)[i]).len()
                == size,
    decreases q,
{
    if q > 0 {
        assert((q - 1) * size == q * size - size) by (nonlinear_arith);
        if q == 1 {
            assert(1 * size == size) by (nonlinear_arith);
        } else {
            assert((q - 1) * size > 0) by (nonlinear_arith)
                requires
                    q > 1,
                    size > 0,
            ;
            lemma_full_batches(s.skip(size), size, q - 1);
            let rest = batches_of(s.skip(size), size);
            let all = batches_of(s, size);
            assert(all == seq![s.take(size)] + rest);
            assert forall|i: int| 0 <= i < all.len() implies (#[trigger] all[i]).len() == size by {
                if i > 0 {
                    assert(all[i] == rest[i - 1]);
                }
            }
        }
    } else {
        assert(0 * size == 0) by (nonlinear_arith);
    }
}

/// The tags of some rows are those of the rows with a name, in order, each with its
/// name as it stands and the group of its category.
pub proof fn law_tags_of_named_rows(
    rows: Seq<Seq<Seq<char>>>,
    name_ix: Option<int>,
    cat_ix: Option<int>,
)
    ensures
        tags_of(rows, name_ix, cat_ix) == rows.filter(
            |r: Seq<Seq<char>>| field(r, name_ix).len() > 0,
        ).map_values(
            |r: Seq<Seq<char>>| (field(r, name_ix), group_of_category(field(r, cat_ix))),
        ),
    decreases rows.len(),
{
    reveal(Seq::filter);
    let named = |r: Seq<Seq<char>>| field(r, name_ix).len() > 0;
    let tag = |r: Seq<Seq<char>>| (field(r, name_ix), group_of_category(field(r, cat_ix)));
    if rows.len() == 0 {
        assert(rows.filter(named).map_values(tag) =~= Seq::<(Seq<char>, Seq<char>)>::empty());
    } else {
        let init = rows.drop_last();
        law_tags_of_named_rows(init, name_ix, cat_ix);
        if named(rows.last()) {
            assert(init.filter(named).push(rows.last()).map_values(tag) =~= init.filter(
                named,
            ).map_values(tag).push(tag(rows.last())));
        }
    }
}

proof fn lemma_column(headers: Seq<Seq<char>>, name: Seq<char>, i: int)
    requires
        is_column(headers, name, i),
    ensures
        column(headers, name) == Some(i),
{
    assert(headers[i] == name);
    let j = choose|j: int| is_column(headers, name, j);
    assert(is_column(headers, name, j));
    if j < i {
        assert(headers[j] != name);
    }
    if i < j {
        assert(headers[i] != name);
    }
}

/// A relation has in every field what stands in the column of that name.
pub proof fn law_relation_reads_its_columns(
    headers: Seq<Seq<char>>,
    row: Seq<Seq<char>>,
    i: int,
)
    requires
        0 <= i < row.len(),
    ensures
        is_column(headers, "antecedent_name"@, i) ==> relation_of(headers, row).antecedent_name
            == row[i],
        is_column(headers, "consequent_name"@, i) ==> relation_of(headers, row).consequent_name
            == row[i],
        is_column(headers, "status"@, i) ==> relation_of(headers, row).status == row[i],
        is_column(headers, "created_at"@, i) && text::trimmed(row[i]).len() > 0 ==> relation_of(
            headers,
            row,
        ).created_at == Some(text::trimmed(row[i])),
        is_column(headers, "created_at"@, i) && text::trimmed(row[i]).len() == 0 ==> relation_of(
            headers,
            row,
        ).created_at is None,
        is_column(headers, "updated_at"@, i) && text::trimmed(row[i]).len() > 0 ==> relation_of(
            headers,
            row,
        ).updated_at == Some(text::trimmed(row[i])),
        is_column(headers, "updated_at"@, i) && text::trimmed(row[i]).len() == 0 ==> relation_of(
            headers,
            row,
        ).updated_at is None,
        is_column(headers, "id"@, i) && text::signed_number(text::trimmed(row[i])) is Some
            ==> Some(relation_of(headers, row).id) == text::signed_number(text::trimmed(row[i])),
        is_column(headers, "id"@, i) && text::signed_number(text::trimmed(row[i])) is None
            ==> relation_of(headers, row).id == 0,
{
    if is_column(headers, "antecedent_name"@, i) {
        lemma_column(headers, "antecedent_name"@, i);
    }
    if is_column(headers, "consequent_name"@, i) {
        lemma_column(headers, "consequent_name"@, i);
    }
    if is_column(headers, "status"@, i) {
        lemma_column(headers, "status"@, i);
    }
    if is_column(headers, "created_at"@, i) {
        lemma_column(headers, "created_at"@, i);
    }
    if is_column(headers, "updated_at"@, i) {
        lemma_column(headers, "updated_at"@, i);
    }
    if is_column(headers, "id"@, i) {
        lemma_column(headers, "id"@, i);
    }
}

} // verus!
