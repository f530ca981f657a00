//! Statement texts and batching.

use vstd::prelude::*;

use crate::models::SqlValue;
use crate::text;

verus! {

/// `n` question marks with commas between them.
pub open spec fn marks(n: nat) -> Seq<char>
    decreases n,
{
    if n == 0 {
        Seq::empty()
    } else if n == 1 {
        seq!['?']
    } else {
        marks((n - 1) as nat) + seq![',', '?']
    }
}

/// The placeholder list of a statement with `n` bound values.
pub fn placeholders(n: usize) -> (r: String)
    ensures
        r@ == marks(n as nat),
{
    let mut s = String::new();
    let mut i: usize = 0;
    while i < n
        invariant
            i <= n,
            s@ == marks(i as nat),
        decreases n - i,
    {
        let ghost before = s@;
        if i > 0 {
            s.push(',');
        }
        s.push('?');
        proof {
            if i == 0 {
                assert(s@ =~= marks(1));
            } else {
                assert(s@ =~= before + seq![',', '?']);
            }
        }
        i += 1;
    }
    s
}

/// Chunk `k` of `s` in chunks of `size`: the last one may be shorter.
pub open spec fn chunk_at<A>(s: Seq<A>, size: int, k: int) -> Seq<A> {
    s.subrange(k * size, if (k + 1) * size < s.len() {
        (k + 1) * size
    } else {
        s.len() as int
    })
}

/// `r` parts `s` into consecutive chunks of `size`.
pub open spec fn is_chunking<A>(r: Seq<Vec<A>>, s: Seq<A>, size: int) -> bool {
    &&& forall|k: int|
        0 <= k < r.len() ==> (#[trigger] r[k])@ == chunk_at(s, size, k) && k * size < s.len()
    &&& r.len() * size >= s.len()
}

/// Parts a list into consecutive chunks of `size`.
pub fn chunks_of<A: Copy>(v: &Vec<A>, size: usize) -> (r: Vec<Vec<A>>)
    requires
        size > 0,
    ensures
        is_chunking(r@, v@, size as int),
{
    let mut out: Vec<Vec<A>> = Vec::new();
    let mut start: usize = 0;
    proof {
        assert(0 * (size as int) == 0) by (nonlinear_arith);
    }
    while start < v.len()
        invariant
            size > 0,
            start <= v.len(),
            start < v.len() ==> start == out@.len() * size,
            out@.len() * size >= start,
            forall|k: int|
                0 <= k < out@.len() ==> (#[trigger] out@[k])@ == chunk_at(v@, size as int, k) && k
                    * size < v@.len(),
        decreases v.len() - start,
    {
        let end: usize = if v.len() - start > size {
            start + size
        } else {
            v.len()
        };
        let mut part: Vec<A> = Vec::new();
        let mut i: usize = start;
        while i < end
            invariant
                start <= i <= end <= v.len(),
                part@ == v@.subrange(start as int, i as int),
            decreases end - i,
        {
            part.push(v[i]);
            proof {
                assert(v@.subrange(start as int, i + 1) =~= v@.subrange(
                    start as int,
                    i as int,
                ).push(v@[i as int]));
            }
            i += 1;
        }
        proof {
            let k = out@.len() as int;
            assert((k + 1) * size == k * size + size) by (nonlinear_arith);
        }
        out.push(part);
        start = end;
    }
    proof {
        assert forall|k: int| 0 <= k < out@.len() implies (#[trigger] out@[k])@ == chunk_at(
            v@,
            size as int,
            k,
        ) && k * (size as int) < v@.len() by {}
        assert(is_chunking(out@, v@, size as int));
    }
    out
}

/// The first `k + 1` chunks are the first `k` and one more.
pub proof fn lemma_chunk_step<A>(s: Seq<A>, size: int, k: int)
    requires
        size > 0,
        0 <= k,
        k * size < s.len(),
    ensures
        first_chunks(s, size, k + 1) == first_chunks(s, size, k) + chunk_at(s, size, k),
        0 <= k * size,
{
    assert((k + 1) * size == k * size + size && 0 <= k * size) by (nonlinear_arith)
        requires
            size > 0,
            0 <= k,
    ;
    assert(first_chunks(s, size, k + 1) =~= first_chunks(s, size, k) + chunk_at(s, size, k));
}

/// What the first `k` chunks hold.
pub open spec fn first_chunks<A>(s: Seq<A>, size: int, k: int) -> Seq<A> {
    s.take(if k * size < s.len() {
        k * size
    } else {
        s.len() as int
    })
}

/// Chunking keeps every value in place: the chunks in a row are the list.
pub proof fn law_chunks_cover<A>(r: Seq<Vec<A>>, s: Seq<A>, size: int, i: int)
    requires
        size > 0,
        is_chunking(r, s, size),
        0 <= i < s.len(),
    ensures
        0 <= i / size < r.len(),
        0 <= i % size < r[i / size]@.len() <= size,
        r[i / size]@[i % size] == s[i],
{
    let k = i / size;
    assert(i == k * size + i % size && 0 <= i % size < size && 0 <= k) by (nonlinear_arith)
        requires
            size > 0,
            k == i / size,
            0 <= i,
    ;
    assert((k + 1) * size == k * size + size) by (nonlinear_arith);
    if k >= r.len() {
        assert(k * size >= r.len() * size) by (nonlinear_arith)
            requires
                k >= r.len(),
                size > 0,
        ;
    }
}

/// A statement with its bound values.
#[derive(Debug)]
pub struct BoundStatement {
    pub sql: String,
    pub values: Vec<SqlValue>,
}

/// A statement bound to some ids.
#[derive(Debug)]
pub struct IdStatement {
    pub sql: String,
    pub ids: Vec<i64>,
}

/// A statement with `n` placeholders between its head and its tail.
pub open spec fn around(head: Seq<char>, n: nat, tail: Seq<char>) -> Seq<char> {
    head + marks(n) + tail
}

/// `q` is bound to chunk `k` of `ids`.
pub open spec fn is_id_statement(
    q: IdStatement,
    ids: Seq<i64>,
    size: int,
    k: int,
    head: Seq<char>,
    tail: Seq<char>,
) -> bool {
    &&& k * size < ids.len()
    &&& q.ids@ == chunk_at(ids, size, k)
    &&& q.sql@ == around(head, q.ids@.len(), tail)
}

/// `r` is bound to all of `ids`, one statement for each `size` of them.
pub open spec fn are_id_statements(
    r: Seq<IdStatement>,
    ids: Seq<i64>,
    size: int,
    head: Seq<char>,
    tail: Seq<char>,
) -> bool {
    &&& r.len() * size >= ids.len()
    &&& forall|k: int|
        0 <= k < r.len() ==> is_id_statement(#[trigger] r[k], ids, size, k, head, tail)
}

/// The statements for a list of ids, one for each `size` of them. There is none
/// for an empty list.
pub fn id_statements(ids: &Vec<i64>, size: usize, head: &str, tail: &str) -> (r: Vec<IdStatement>)
    requires
        size > 0,
    ensures
        are_id_statements(r@, ids@, size as int, head@, tail@),
{
    let mut chunks = chunks_of(ids, size);
    let ghost all = chunks@;
    let mut reversed: Vec<IdStatement> = Vec::new();
    while chunks.len() > 0
        invariant
            is_chunking(all, ids@, size as int),
            chunks@.len() + reversed@.len() == all.len(),
            chunks@ == all.take(chunks@.len() as int),
            forall|j: int|
                0 <= j < reversed@.len() ==> is_id_statement(
                    #[trigger] reversed@[j],
                    ids@,
                    size as int,
                    all.len() - 1 - j,
                    head@,
                    tail@,
                ),
        decreases chunks.len(),
    {
        let ghost n = chunks@.len() as int;
        match chunks.pop() {
            Some(part) => {
                let mut text = String::from_str(head);
                text.append(placeholders(part.len()).as_str());
                text.append(tail);
                proof {
                    assert(part@ == all[n - 1]@);
                    assert(chunks@ =~= all.take(n - 1));
                }
                reversed.push(IdStatement { sql: text, ids: part });
            },
            None => {},
        }
    }
    let mut out: Vec<IdStatement> = Vec::new();
    let ghost back = reversed@;
    while reversed.len() > 0
        invariant
            back.len() == all.len(),
            reversed@.len() + out@.len() == all.len(),
            reversed@ == back.take(reversed@.len() as int),
            forall|j: int|
                0 <= j < back.len() ==> is_id_statement(
                    #[trigger] back[j],
                    ids@,
                    size as int,
                    all.len() - 1 - j,
                    head@,
                    tail@,
                ),
            forall|k: int|
                0 <= k < out@.len() ==> is_id_statement(
                    #[trigger] out@[k],
                    ids@,
                    size as int,
                    k,
                    head@,
                    tail@,
                ),
        decreases reversed.len(),
    {
        let ghost n = reversed@.len() as int;
        match reversed.pop() {
            Some(q) => {
                proof {
                    assert(q == back[n - 1]);
                    assert(reversed@ =~= back.take(n - 1));
                }
                out.push(q);
            },
            None => {},
        }
    }
    out
}

/// An error with the stage at which it came.
pub open spec fn tagged(stage: Seq<char>, cause: Seq<char>) -> Seq<char> {
    stage + ": "@ + cause
}

pub fn tag_error(stage: &str, cause: &str) -> (r: String)
    ensures
        r@ == tagged(stage@, cause@),
{
    let mut s = String::from_str(stage);
    s.append(": ");
    s.append(cause);
    s
}

/// A statement has one question mark for each bound value, with commas between them.
pub proof fn law_marks(n: nat)
    ensures
        marks(n) == text::joined(Seq::new(n, |k: int| seq!['?']), seq![',']),
        marks(n).len() == (if n == 0 {
            0
        } else {
            2 * n - 1
        }),
    decreases n,
{
    let parts = Seq::new(n, |k: int| seq!['?']);
    if n > 1 {
        law_marks((n - 1) as nat);
        assert(parts.drop_last() =~= Seq::new((n - 1) as nat, |k: int| seq!['?']));
        let head = marks((n - 1) as nat);
        assert(head + seq![',', '?'] =~= head + seq![','] + seq!['?']);
    } else if n == 0 {
        assert(parts =~= Seq::<Seq<char>>::empty());
    }
}

/// An error names its stage, and its cause behind a colon.
pub proof fn law_tagged(stage: Seq<char>, cause: Seq<char>)
    ensures
        tagged(stage, cause).len() == stage.len() + cause.len() + 2,
        tagged(stage, cause).take(stage.len() as int) == stage,
        tagged(stage, cause).skip(stage.len() as int + 2) == cause,
        tagged(stage, cause)[stage.len() as int] == ':',
        tagged(stage, cause)[stage.len() as int + 1] == ' ',
{
    reveal_strlit(": ");
    assert(tagged(stage, cause).take(stage.len() as int) =~= stage);
    assert(tagged(stage, cause).skip(stage.len() as int + 2) =~= cause);
}

} // verus!
