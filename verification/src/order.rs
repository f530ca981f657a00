//! Sorting by keys that stay outside the sorted values: a table of keys is
//! ordered once, and the order is returned as a list of positions.

use vstd::prelude::*;
use vstd::seq_lib::*;

use crate::text::text_at_most;

verus! {

/// A table of keys under a strict total order of its positions. Equal keys are
/// ordered by position, so sorting a table is stable.
pub trait KeyTable {
    spec fn size(&self) -> nat;

    spec fn before(&self, i: int, j: int) -> bool;

    proof fn before_transitive(&self, i: int, j: int, k: int)
        requires
            self.before(i, j),
            self.before(j, k),
        ensures
            self.before(i, k),
    ;

    proof fn before_total(&self, i: int, j: int)
        requires
            i != j,
        ensures
            self.before(i, j) != self.before(j, i),
    ;

    fn table_len(&self) -> (n: usize)
        ensures
            n == self.size(),
    ;

    fn is_before(&self, i: usize, j: usize) -> (b: bool)
        requires
            i < self.size(),
            j < self.size(),
        ensures
            b == self.before(i as int, j as int),
    ;
}

/// `s` runs in strictly increasing table order.
pub open spec fn runs_in_order<T: KeyTable>(t: &T, s: Seq<usize>) -> bool {
    forall|a: int, b: int| 0 <= a < b < s.len() ==> t.before(#[trigger] s[a] as int, #[trigger] s[b] as int)
}

/// `s` lists every position of the table once, in table order.
pub open spec fn is_sort_order<T: KeyTable>(t: &T, s: Seq<usize>) -> bool {
    &&& s.len() == t.size()
    &&& runs_in_order(t, s)
    &&& forall|a: int| 0 <= a < s.len() ==> (#[trigger] s[a]) < t.size()
    &&& forall|k: usize| k < t.size() ==> #[trigger] s.contains(k)
}

/// The positions `lo..hi`.
pub open spec fn positions(lo: int, hi: int) -> Seq<usize> {
    Seq::new((hi - lo) as nat, |i: int| (lo + i) as usize)
}

fn merge<T: KeyTable>(t: &T, a: &Vec<usize>, b: &Vec<usize>) -> (out: Vec<usize>)
    requires
        runs_in_order(t, a@),
        runs_in_order(t, b@),
        forall|i: int| 0 <= i < a.len() ==> (#[trigger] a@[i]) < t.size(),
        forall|i: int| 0 <= i < b.len() ==> (#[trigger] b@[i]) < t.size(),
        forall|i: int, j: int| 0 <= i < a.len() && 0 <= j < b.len() ==> a@[i] != b@[j],
        a.len() + b.len() <= usize::MAX,
    ensures
        runs_in_order(t, out@),
        out@.to_multiset() == a@.to_multiset().add(b@.to_multiset()),
{
    broadcast use group_to_multiset_ensures;

    let mut out: Vec<usize> = Vec::new();
    let mut i: usize = 0;
    let mut j: usize = 0;
    proof {
        assert(a@.take(0) =~= Seq::<usize>::empty());
        assert(b@.take(0) =~= Seq::<usize>::empty());
        assert(out@.to_multiset() =~= a@.take(0).to_multiset().add(b@.take(0).to_multiset()));
    }
    while i < a.len() || j < b.len()
        invariant
            i <= a.len(),
            j <= b.len(),
            a.len() + b.len() <= usize::MAX,
            runs_in_order(t, a@),
            runs_in_order(t, b@),
            forall|m: int| 0 <= m < a.len() ==> (#[trigger] a@[m]) < t.size(),
            forall|m: int| 0 <= m < b.len() ==> (#[trigger] b@[m]) < t.size(),
            forall|m: int, n: int| 0 <= m < a.len() && 0 <= n < b.len() ==> a@[m] != b@[n],
            runs_in_order(t, out@),
            forall|m: int, n: int|
                0 <= m < out.len() && i <= n < a.len() ==> t.before(
                    #[trigger] out@[m] as int,
                    #[trigger] a@[n] as int,
                ),
            forall|m: int, n: int|
                0 <= m < out.len() && j <= n < b.len() ==> t.before(
                    #[trigger] out@[m] as int,
                    #[trigger] b@[n] as int,
                ),
            out@.to_multiset() == a@.take(i as int).to_multiset().add(
                b@.take(j as int).to_multiset(),
            ),
        decreases a.len() - i + b.len() - j,
    {
        let take_a: bool = if i >= a.len() {
            false
        } else if j >= b.len() {
            true
        } else {
            t.is_before(a[i], b[j])
        };
        let ghost before = out@;
        if take_a {
            let x: usize = a[i];
            proof {
                if j < b.len() {
                    assert forall|n: int| j <= n < b.len() implies t.before(
                        x as int,
                        #[trigger] b@[n] as int,
                    ) by {
                        if n > j {
                            t.before_transitive(x as int, b@[j as int] as int, b@[n] as int);
                        }
                    }
                }
                assert(a@.take(i + 1) =~= a@.take(i as int).push(x));
            }
            out.push(x);
            proof {
                broadcast use {group_to_multiset_ensures, vstd::multiset::group_multiset_axioms};

                assert(out@.to_multiset() =~= a@.take(i + 1).to_multiset().add(
                    b@.take(j as int).to_multiset(),
                ));
            }
            i += 1;
        } else {
            let x: usize = b[j];
            proof {
                if i < a.len() {
                    assert(a@[i as int] != b@[j as int]);
                    t.before_total(a@[i as int] as int, b@[j as int] as int);
                    assert forall|n: int| i <= n < a.len() implies t.before(
                        x as int,
                        #[trigger] a@[n] as int,
                    ) by {
                        if n > i {
                            t.before_transitive(x as int, a@[i as int] as int, a@[n] as int);
                        }
                    }
                }
                assert(b@.take(j + 1) =~= b@.take(j as int).push(x));
            }
            out.push(x);
            proof {
                broadcast use {group_to_multiset_ensures, vstd::multiset::group_multiset_axioms};

                assert(out@.to_multiset() =~= a@.take(i as int).to_multiset().add(
                    b@.take(j + 1).to_multiset(),
                ));
            }
            j += 1;
        }
    }
    proof {
        assert(a@.take(a@.len() as int) =~= a@);
        assert(b@.take(b@.len() as int) =~= b@);
    }
    out
}

proof fn lemma_positions_split(lo: int, mid: int, hi: int)
    requires
        0 <= lo <= mid <= hi <= usize::MAX,
    ensures
        positions(lo, hi).to_multiset() == positions(lo, mid).to_multiset().add(
            positions(mid, hi).to_multiset(),
        ),
{
    assert(positions(lo, hi) =~= positions(lo, mid) + positions(mid, hi));
    lemma_multiset_commutative(positions(lo, mid), positions(mid, hi));
}

proof fn lemma_members(s: Seq<usize>, lo: int, hi: int)
    requires
        0 <= lo <= hi <= usize::MAX,
        s.to_multiset() == positions(lo, hi).to_multiset(),
    ensures
        s.len() == hi - lo,
        forall|i: int| 0 <= i < s.len() ==> lo <= (#[trigger] s[i]) < hi,
        forall|k: usize| lo <= k < hi ==> #[trigger] s.contains(k),
{
    broadcast use group_to_multiset_ensures;

    let p = positions(lo, hi);
    assert(s.len() == s.to_multiset().len());
    assert(p.len() == p.to_multiset().len());
    assert forall|i: int| 0 <= i < s.len() implies lo <= (#[trigger] s[i]) < hi by {
        assert(s.contains(s[i]));
        assert(p.to_multiset().count(s[i]) > 0);
        assert(p.contains(s[i]));
    }
    assert forall|k: usize| lo <= k < hi implies #[trigger] s.contains(k) by {
        assert(p[k - lo] == k);
        assert(p.contains(k));
        assert(p.to_multiset().count(k) > 0);
        assert(s.to_multiset().count(k) > 0);
    }
}

fn sort_range<T: KeyTable>(t: &T, lo: usize, hi: usize) -> (out: Vec<usize>)
    requires
        lo <= hi <= t.size(),
        t.size() <= usize::MAX,
    ensures
        runs_in_order(t, out@),
        out@.to_multiset() == positions(lo as int, hi as int).to_multiset(),
    decreases hi - lo,
{
    let n: usize = hi - lo;
    if n <= 1 {
        let mut out: Vec<usize> = Vec::new();
        if n == 1 {
            out.push(lo);
        }
        proof {
            assert(out@ =~= positions(lo as int, hi as int));
        }
        return out;
    }
    let mid: usize = lo + n / 2;
    let a = sort_range(t, lo, mid);
    let b = sort_range(t, mid, hi);
    proof {
        lemma_members(a@, lo as int, mid as int);
        lemma_members(b@, mid as int, hi as int);
        lemma_positions_split(lo as int, mid as int, hi as int);
    }
    merge(t, &a, &b)
}

/// The positions of the table in table order (a merge sort).
pub fn sort_order<T: KeyTable>(t: &T) -> (out: Vec<usize>)
    ensures
        is_sort_order(t, out@),
        out@.to_multiset() == positions(0, t.size() as int).to_multiset(),
{
    let n: usize = t.table_len();
    let out = sort_range(t, 0, n);
    proof {
        lemma_members(out@, 0, n as int);
    }
    out
}

/// `order` lists the positions of `keys` by key, and equal keys by position.
pub open spec fn int_sort_order(keys: Seq<(i64, i64, i64)>, order: Seq<usize>) -> bool {
    &&& order.len() == keys.len()
    &&& forall|a: int, b: int|
        0 <= a < b < order.len() ==> int_before(
            keys,
            #[trigger] order[a] as int,
            #[trigger] order[b] as int,
        )
    &&& forall|a: int| 0 <= a < order.len() ==> (#[trigger] order[a]) < keys.len()
    &&& order.to_multiset() == positions(0, keys.len() as int).to_multiset()
}

/// The positions of `keys` by key, and equal keys by position.
pub open spec fn int_order(keys: Seq<(i64, i64, i64)>) -> Seq<usize> {
    choose|order: Seq<usize>| int_sort_order(keys, order)
}

/// The positions of `keys` by key, and equal keys by position.
pub fn sort_ints(keys: Vec<(i64, i64, i64)>) -> (order: Vec<usize>)
    ensures
        order@ == int_order(keys@),
        int_sort_order(keys@, order@),
{
    let table = IntKeys { keys };
    let n: usize = table.keys.len();
    let order = sort_order(&table);
    proof {
        assert(n == keys@.len());
        assert forall|a: int, b: int| 0 <= a < b < order@.len() implies int_before(
            keys@,
            #[trigger] order@[a] as int,
            #[trigger] order@[b] as int,
        ) by {
            assert(table.before(order@[a] as int, order@[b] as int));
        }
        assert(int_sort_order(keys@, order@));
        lemma_int_sort_order_unique(keys@, order@, int_order(keys@));
    }
    order
}

/// How many positions of `order` precede position `n` of `keys`.
spec fn rank_in(keys: Seq<(i64, i64, i64)>, order: Seq<usize>, n: int) -> int
    decreases order.len(),
{
    if order.len() == 0 {
        0
    } else if int_before(keys, order.last() as int, n) {
        order.len() as int
    } else {
        rank_in(keys, order.drop_last(), n)
    }
}

proof fn lemma_rank_in(keys: Seq<(i64, i64, i64)>, order: Seq<usize>, n: int)
    requires
        forall|a: int, b: int|
            0 <= a < b < order.len() ==> int_before(
                keys,
                #[trigger] order[a] as int,
                #[trigger] order[b] as int,
            ),
        forall|a: int| 0 <= a < order.len() ==> (#[trigger] order[a]) < n,
    ensures
        0 <= rank_in(keys, order, n) <= order.len(),
        forall|a: int|
            0 <= a < rank_in(keys, order, n) ==> int_before(keys, #[trigger] order[a] as int, n),
        forall|a: int|
            rank_in(keys, order, n) <= a < order.len() ==> int_before(
                keys,
                n,
                #[trigger] order[a] as int,
            ),
    decreases order.len(),
{
    if order.len() > 0 {
        let last = order.last() as int;
        if int_before(keys, last, n) {
            assert forall|a: int| 0 <= a < order.len() implies int_before(
                keys,
                #[trigger] order[a] as int,
                n,
            ) by {
                if a < order.len() - 1 {
                    assert(int_before(keys, order[a] as int, order[order.len() - 1] as int));
                }
            }
        } else {
            lemma_rank_in(keys, order.drop_last(), n);
            assert forall|a: int|
                rank_in(keys, order, n) <= a < order.len() implies int_before(
                keys,
                n,
                #[trigger] order[a] as int,
            ) by {
                if a < order.len() - 1 {
                    assert(order.drop_last()[a] == order[a]);
                }
            }
            assert forall|a: int| 0 <= a < rank_in(keys, order, n) implies int_before(
                keys,
                #[trigger] order[a] as int,
                n,
            ) by {
                assert(order.drop_last()[a] == order[a]);
            }
        }
    }
}

/// Every list of keys has an order.
pub proof fn law_every_list_has_an_order(keys: Seq<(i64, i64, i64)>)
    requires
        keys.len() <= usize::MAX,
    ensures
        int_sort_order(keys, int_order(keys)),
    decreases keys.len(),
{
    broadcast use group_to_multiset_ensures;

    if keys.len() == 0 {
        let none = Seq::<usize>::empty();
        assert(positions(0, 0) =~= none);
        assert(int_sort_order(keys, none));
    } else {
        let n = keys.len() - 1;
        let rest = keys.drop_last();
        law_every_list_has_an_order(rest);
        let o = int_order(rest);
        assert forall|a: int, b: int| 0 <= a < b < o.len() implies int_before(
            keys,
            #[trigger] o[a] as int,
            #[trigger] o[b] as int,
        ) by {
            assert(int_before(rest, o[a] as int, o[b] as int));
        }
        lemma_rank_in(keys, o, n);
        let p = rank_in(keys, o, n);
        let w = o.insert(p, n as usize);
        assert forall|a: int, b: int| 0 <= a < b < w.len() implies int_before(
            keys,
            #[trigger] w[a] as int,
            #[trigger] w[b] as int,
        ) by {
            let fa = if a < p {
                a
            } else {
                a - 1
            };
            let fb = if b < p {
                b
            } else {
                b - 1
            };
            if a == p {
                assert(w[b] == o[fb]);
            } else if b == p {
                assert(w[a] == o[fa]);
            } else {
                assert(w[a] == o[fa] && w[b] == o[fb]);
            }
        }
        assert forall|a: int| 0 <= a < w.len() implies (#[trigger] w[a]) < keys.len() by {
            if a < p {
                assert(w[a] == o[a]);
            } else if a > p {
                assert(w[a] == o[a - 1]);
            }
        }
        assert(w.to_multiset() == positions(0, keys.len() as int).to_multiset()) by {
            to_multiset_insert(o, p, n as usize);
            assert(positions(0, keys.len() as int) =~= positions(0, n).push(n as usize));
        }
        assert(int_sort_order(keys, w));
    }
}

/// The order of a list of keys is unique.
pub proof fn lemma_int_sort_order_unique(
    keys: Seq<(i64, i64, i64)>,
    a: Seq<usize>,
    b: Seq<usize>,
)
    requires
        keys.len() <= usize::MAX,
        int_sort_order(keys, a),
        int_sort_order(keys, b),
    ensures
        a == b,
{
    lemma_members(a, 0, keys.len() as int);
    lemma_members(b, 0, keys.len() as int);
    assert forall|k: int| 0 <= k <= a.len() implies a.take(k) == b.take(k) by {
        lemma_int_prefix(keys, a, b, k);
    }
    assert(a.take(a.len() as int) =~= a);
    assert(b.take(b.len() as int) =~= b);
}

proof fn lemma_int_prefix(
    keys: Seq<(i64, i64, i64)>,
    a: Seq<usize>,
    b: Seq<usize>,
    k: int,
)
    requires
        int_sort_order(keys, a),
        int_sort_order(keys, b),
        forall|x: usize| x < keys.len() ==> #[trigger] a.contains(x),
        forall|x: usize| x < keys.len() ==> #[trigger] b.contains(x),
        0 <= k <= a.len(),
    ensures
        a.take(k) == b.take(k),
    decreases k,
{
    if k > 0 {
        lemma_int_prefix(keys, a, b, k - 1);
        let x = a[k - 1];
        let y = b[k - 1];
        if x != y {
            assert(b.contains(x));
            assert(a.contains(y));
            let p = choose|p: int| 0 <= p < b.len() && b[p] == x;
            let q = choose|q: int| 0 <= q < a.len() && a[q] == y;
            if p < k - 1 {
                assert(b.take(k - 1)[p] == a.take(k - 1)[p]);
            }
            if q < k - 1 {
                assert(b.take(k - 1)[q] == a.take(k - 1)[q]);
            }
        }
        assert(a.take(k) =~= a.take(k - 1).push(x));
        assert(b.take(k) =~= b.take(k - 1).push(y));
    } else {
        assert(a.take(0) =~= b.take(0));
    }
}

/// The values of `s` taken in the order of the listed positions.
pub open spec fn arranged<A>(s: Seq<A>, order: Seq<usize>) -> Seq<A> {
    order.map_values(|i: usize| s[i as int])
}

proof fn lemma_map_multiset<A>(p: Seq<usize>, q: Seq<usize>, s: Seq<A>)
    requires
        p.to_multiset() == q.to_multiset(),
    ensures
        arranged(s, p).to_multiset() == arranged(s, q).to_multiset(),
    decreases p.len(),
{
    broadcast use group_to_multiset_ensures;

    assert(p.len() == p.to_multiset().len());
    assert(q.len() == q.to_multiset().len());
    if p.len() > 0 {
        let x = p.last();
        assert(p.contains(x));
        assert(q.to_multiset().count(x) > 0);
        assert(q.contains(x));
        let i = choose|i: int| 0 <= i < q.len() && q[i] == x;
        let p1 = p.drop_last();
        let q1 = q.remove(i);
        assert(p1 =~= p.remove(p.len() - 1));
        assert(p1.to_multiset() =~= q1.to_multiset());
        lemma_map_multiset(p1, q1, s);
        assert(arranged(s, p1) =~= arranged(s, p).remove(p.len() - 1));
        assert(arranged(s, q1) =~= arranged(s, q).remove(i));
        let y = s[x as int];
        let mp = arranged(s, p);
        let mq = arranged(s, q);
        assert(mp[p.len() - 1] == y && mq[i] == y);
        assert(mp.to_multiset().count(y) > 0) by {
            assert(mp.contains(y));
        }
        assert(mq.to_multiset().count(y) > 0) by {
            assert(mq.contains(y));
        }
        assert(mp.to_multiset() =~= mp.remove(p.len() - 1).to_multiset().insert(y));
        assert(mq.to_multiset() =~= mq.remove(i).to_multiset().insert(y));
    } else {
        assert(arranged(s, p) =~= arranged(s, q));
    }
}

/// Rearranging a sequence keeps its values.
pub proof fn lemma_arranged_multiset<A>(s: Seq<A>, order: Seq<usize>)
    requires
        s.len() <= usize::MAX,
        order.to_multiset() == positions(0, s.len() as int).to_multiset(),
    ensures
        arranged(s, order).to_multiset() == s.to_multiset(),
{
    lemma_map_multiset(order, positions(0, s.len() as int), s);
    assert(arranged(s, positions(0, s.len() as int)) =~= s);
}

/// `s` runs upward, with repeats.
pub open spec fn ascending(s: Seq<i64>) -> bool {
    forall|i: int, j: int| 0 <= i <= j < s.len() ==> s[i] <= s[j]
}

/// `r` holds the values of `s` in ascending order.
pub open spec fn is_sorted_copy(r: Seq<i64>, s: Seq<i64>) -> bool {
    ascending(r) && r.to_multiset() == s.to_multiset()
}

/// The values of `s` in ascending order.
pub open spec fn sorted_copy(s: Seq<i64>) -> Seq<i64> {
    choose|r: Seq<i64>| is_sorted_copy(r, s)
}

/// The integers of `v` in ascending order.
pub fn sorted_ids(v: &Vec<i64>) -> (r: Vec<i64>)
    ensures
        r@ == sorted_copy(v@),
        is_sorted_copy(r@, v@),
        r@.len() == v@.len(),
{
    let mut keys: Vec<(i64, i64, i64)> = Vec::new();
    let mut i: usize = 0;
    while i < v.len()
        invariant
            i <= v.len(),
            keys.len() == i,
            forall|k: int| 0 <= k < i ==> keys@[k] == (v@[k], 0i64, 0i64),
        decreases v.len() - i,
    {
        keys.push((v[i], 0, 0));
        i += 1;
    }
    let table = IntKeys { keys };
    let order = sort_order(&table);
    let mut r: Vec<i64> = Vec::new();
    let mut j: usize = 0;
    while j < order.len()
        invariant
            j <= order.len(),
            order.len() == v.len(),
            forall|a: int| 0 <= a < order.len() ==> (#[trigger] order@[a]) < v.len(),
            r@ == arranged(v@, order@.take(j as int)),
        decreases order.len() - j,
    {
        r.push(v[order[j]]);
        proof {
            assert(arranged(v@, order@.take(j + 1)) =~= arranged(v@, order@.take(j as int)).push(
                v@[order@[j as int] as int],
            ));
        }
        j += 1;
    }
    proof {
        assert(order@.take(order@.len() as int) =~= order@);
        lemma_arranged_multiset(v@, order@);
        assert forall|a: int, b: int| 0 <= a <= b < r@.len() implies r@[a] <= r@[b] by {
            if a < b {
                assert(table.before(order@[a] as int, order@[b] as int));
            }
        }
        assert(is_sorted_copy(r@, v@));
        lemma_sorted_copy_unique(r@, sorted_copy(v@), v@);
    }
    r
}

/// Every list has a sorted copy.
pub proof fn law_every_list_has_a_sorted_copy(s: Seq<i64>)
    requires
        s.len() <= usize::MAX,
    ensures
        is_sorted_copy(sorted_copy(s), s),
{
    let keys = s.map_values(|x: i64| (x, 0i64, 0i64));
    law_every_list_has_an_order(keys);
    let o = int_order(keys);
    let r = arranged(s, o);
    lemma_arranged_multiset(s, o);
    assert forall|i: int, j: int| 0 <= i <= j < r.len() implies r[i] <= r[j] by {
        if i < j {
            assert(int_before(keys, o[i] as int, o[j] as int));
        }
    }
    assert(is_sorted_copy(r, s));
}

/// Two sorted copies of the same values are equal.
pub proof fn lemma_sorted_copy_unique(a: Seq<i64>, b: Seq<i64>, s: Seq<i64>)
    requires
        is_sorted_copy(a, s),
        is_sorted_copy(b, s),
    ensures
        a == b,
{
    let leq = |x: i64, y: i64| x <= y;
    assert(vstd::relations::sorted_by(a, leq));
    assert(vstd::relations::sorted_by(b, leq));
    vstd::seq_lib::lemma_sorted_unique(a, b, leq);
}

/// `s` runs upward in code-point order, with repeats.
pub open spec fn text_ascending(s: Seq<Seq<char>>) -> bool {
    forall|i: int, j: int| 0 <= i < j < s.len() ==> crate::text::text_le(s[i], s[j])
}

/// `r` holds the texts of `s` in code-point order.
pub open spec fn is_text_sorted_copy(r: Seq<Seq<char>>, s: Seq<Seq<char>>) -> bool {
    text_ascending(r) && r.to_multiset() == s.to_multiset()
}

/// `s` with `x` behind the texts that do not exceed it.
pub open spec fn text_insert(s: Seq<Seq<char>>, x: Seq<char>) -> Seq<Seq<char>>
    decreases s.len(),
{
    if s.len() == 0 || crate::text::text_le(s.last(), x) {
        s.push(x)
    } else {
        text_insert(s.drop_last(), x).push(s.last())
    }
}

/// The texts of `s` in code-point order.
pub open spec fn text_sorted(s: Seq<Seq<char>>) -> Seq<Seq<char>>
    decreases s.len(),
{
    if s.len() == 0 {
        s
    } else {
        text_insert(text_sorted(s.drop_last()), s.last())
    }
}

proof fn lemma_text_insert(s: Seq<Seq<char>>, x: Seq<char>)
    requires
        text_ascending(s),
    ensures
        text_ascending(text_insert(s, x)),
        text_insert(s, x).to_multiset() == s.to_multiset().insert(x),
        forall|y: Seq<char>|
            (forall|i: int| 0 <= i < s.len() ==> crate::text::text_le(#[trigger] s[i], y))
                && crate::text::text_le(x, y) ==> forall|i: int|
                0 <= i < text_insert(s, x).len() ==> crate::text::text_le(
                    #[trigger] text_insert(s, x)[i],
                    y,
                ),
    decreases s.len(),
{
    broadcast use group_to_multiset_ensures;

    let w = text_insert(s, x);
    if s.len() == 0 || crate::text::text_le(s.last(), x) {
        assert forall|i: int, j: int| 0 <= i < j < w.len() implies crate::text::text_le(
            w[i],
            w[j],
        ) by {
            if j == s.len() && i < s.len() - 1 {
                crate::text::lemma_text_le_transitive(s[i], s.last(), x);
            }
        }
    } else {
        let rest = s.drop_last();
        let inner = text_insert(rest, x);
        lemma_text_insert(rest, x);
        crate::text::lemma_text_le_total(s.last(), x);
        assert forall|i: int| 0 <= i < rest.len() implies crate::text::text_le(
            #[trigger] rest[i],
            s.last(),
        ) by {
            assert(crate::text::text_le(s[i], s[s.len() - 1]));
        }
        assert forall|i: int, j: int| 0 <= i < j < w.len() implies crate::text::text_le(
            w[i],
            w[j],
        ) by {
            if j == w.len() - 1 {
                assert(w[i] == inner[i]);
            } else {
                assert(w[i] == inner[i] && w[j] == inner[j]);
            }
        }
        assert(s =~= rest.push(s.last()));
        assert(w.to_multiset() =~= s.to_multiset().insert(x));
        assert forall|y: Seq<char>|
            (forall|i: int| 0 <= i < s.len() ==> crate::text::text_le(#[trigger] s[i], y))
                && crate::text::text_le(x, y) implies forall|i: int|
            0 <= i < w.len() ==> crate::text::text_le(#[trigger] w[i], y) by {
            assert forall|i: int| 0 <= i < rest.len() implies crate::text::text_le(
                #[trigger] rest[i],
                y,
            ) by {
                assert(rest[i] == s[i]);
            }
            assert(crate::text::text_le(s[s.len() - 1], y));
            assert forall|i: int| 0 <= i < w.len() implies crate::text::text_le(
                #[trigger] w[i],
                y,
            ) by {
                if i < inner.len() {
                    assert(w[i] == inner[i]);
                }
            }
        }
    }
}

/// The sorted texts are the texts, in order.
pub proof fn law_text_sorted(s: Seq<Seq<char>>)
    ensures
        is_text_sorted_copy(text_sorted(s), s),
    decreases s.len(),
{
    broadcast use group_to_multiset_ensures;

    if s.len() > 0 {
        law_text_sorted(s.drop_last());
        lemma_text_insert(text_sorted(s.drop_last()), s.last());
        assert(s =~= s.drop_last().push(s.last()));
    }
}

/// The texts of `v` in code-point order.
pub fn sorted_texts(v: Vec<String>) -> (r: Vec<String>)
    ensures
        crate::text::views(r@) == text_sorted(crate::text::views(v@)),
{
    let ghost all = crate::text::views(v@);
    let table = TextKeys { keys: v };
    let order = sort_order(&table);
    let mut r: Vec<String> = Vec::new();
    let mut j: usize = 0;
    while j < order.len()
        invariant
            j <= order.len(),
            all == crate::text::views(table.keys@),
            order.len() == table.keys.len(),
            forall|a: int| 0 <= a < order.len() ==> (#[trigger] order@[a]) < table.keys.len(),
            crate::text::views(r@) == arranged(all, order@.take(j as int)),
        decreases order.len() - j,
    {
        let ghost before = crate::text::views(r@);
        r.push(table.keys[order[j]].clone());
        proof {
            assert(crate::text::views(r@) =~= before.push(all[order@[j as int] as int]));
            assert(arranged(all, order@.take(j + 1)) =~= arranged(all, order@.take(j as int)).push(
                all[order@[j as int] as int],
            ));
        }
        j += 1;
    }
    proof {
        assert(order@.take(order@.len() as int) =~= order@);
        lemma_arranged_multiset(all, order@);
        let out = crate::text::views(r@);
        assert forall|a: int, b: int| 0 <= a < b < out.len() implies crate::text::text_le(
            out[a],
            out[b],
        ) by {
            assert(table.before(order@[a] as int, order@[b] as int));
            if out[a] == out[b] {
                crate::text::lemma_text_le_reflexive(out[a]);
            }
        }
        law_text_sorted(all);
        lemma_text_sorted_unique(out, text_sorted(all));
    }
    r
}

/// Two sorted copies of the same texts are equal.
pub proof fn lemma_text_sorted_unique(a: Seq<Seq<char>>, b: Seq<Seq<char>>)
    requires
        text_ascending(a),
        text_ascending(b),
        a.to_multiset() == b.to_multiset(),
    ensures
        a == b,
{
    let leq = |x: Seq<char>, y: Seq<char>| crate::text::text_le(x, y);
    assert forall|x: Seq<char>| #[trigger] leq(x, x) by {
        crate::text::lemma_text_le_reflexive(x);
    }
    assert forall|x: Seq<char>, y: Seq<char>| #[trigger] leq(x, y) && #[trigger] leq(
        y,
        x,
    ) implies x == y by {
        crate::text::lemma_text_le_antisymmetric(x, y);
    }
    assert forall|x: Seq<char>, y: Seq<char>, z: Seq<char>| #[trigger] leq(x, y) && #[trigger] leq(
        y,
        z,
    ) implies leq(x, z) by {
        crate::text::lemma_text_le_transitive(x, y, z);
    }
    assert forall|x: Seq<char>, y: Seq<char>| #[trigger] leq(x, y) || #[trigger] leq(y, x) by {
        crate::text::lemma_text_le_total(x, y);
    }
    assert(vstd::relations::total_ordering(leq));
    assert(vstd::relations::sorted_by(a, leq));
    assert(vstd::relations::sorted_by(b, leq));
    vstd::seq_lib::lemma_sorted_unique(a, b, leq);
}

/// Keys of three integers, compared from the first to the last.
pub struct IntKeys {
    pub keys: Vec<(i64, i64, i64)>,
}

/// Lexicographic order of integer triples.
pub open spec fn key_less(a: (i64, i64, i64), b: (i64, i64, i64)) -> bool {
    a.0 < b.0 || (a.0 == b.0 && (a.1 < b.1 || (a.1 == b.1 && a.2 < b.2)))
}

/// Position `i` precedes position `j`: by key, then by position.
pub open spec fn int_before(keys: Seq<(i64, i64, i64)>, i: int, j: int) -> bool {
    key_less(keys[i], keys[j]) || (keys[i] == keys[j] && i < j)
}

impl KeyTable for IntKeys {
    open spec fn size(&self) -> nat {
        self.keys@.len()
    }

    open spec fn before(&self, i: int, j: int) -> bool {
        int_before(self.keys@, i, j)
    }

    proof fn before_transitive(&self, i: int, j: int, k: int) {
    }

    proof fn before_total(&self, i: int, j: int) {
        let a = self.keys@[i];
        let b = self.keys@[j];
        if !key_less(a, b) && !key_less(b, a) {
            assert(a.0 == b.0 && a.1 == b.1 && a.2 == b.2);
            assert(a == b);
        }
    }

    fn table_len(&self) -> (n: usize) {
        self.keys.len()
    }

    fn is_before(&self, i: usize, j: usize) -> (b: bool) {
        let a = self.keys[i];
        let b = self.keys[j];
        if a.0 != b.0 {
            a.0 < b.0
        } else if a.1 != b.1 {
            a.1 < b.1
        } else if a.2 != b.2 {
            a.2 < b.2
        } else {
            i < j
        }
    }
}

/// Keys of text, compared by code point.
pub struct TextKeys {
    pub keys: Vec<String>,
}

/// Position `i` precedes position `j`: by text, then by position.
pub open spec fn text_before(keys: Seq<String>, i: int, j: int) -> bool {
    if keys[i]@ == keys[j]@ {
        i < j
    } else {
        crate::text::text_le(keys[i]@, keys[j]@)
    }
}

impl KeyTable for TextKeys {
    open spec fn size(&self) -> nat {
        self.keys@.len()
    }

    open spec fn before(&self, i: int, j: int) -> bool {
        text_before(self.keys@, i, j)
    }

    proof fn before_transitive(&self, i: int, j: int, k: int) {
        let a = self.keys@[i]@;
        let b = self.keys@[j]@;
        let c = self.keys@[k]@;
        if a != b && b != c {
            crate::text::lemma_text_le_transitive(a, b, c);
            if a == c {
                crate::text::lemma_text_le_antisymmetric(a, b);
            }
        }
    }

    proof fn before_total(&self, i: int, j: int) {
        let a = self.keys@[i]@;
        let b = self.keys@[j]@;
        crate::text::lemma_text_le_total(a, b);
        if a != b && crate::text::text_le(a, b) && crate::text::text_le(b, a) {
            crate::text::lemma_text_le_antisymmetric(a, b);
        }
    }

    fn table_len(&self) -> (n: usize) {
        self.keys.len()
    }

    fn is_before(&self, i: usize, j: usize) -> (b: bool) {
        if crate::text::text_eq(self.keys[i].as_str(), self.keys[j].as_str()) {
            i < j
        } else {
            text_at_most(self.keys[i].as_str(), self.keys[j].as_str())
        }
    }
}

/// Of two positions exactly one comes first: the one with the lesser key or, under
/// equal keys, the earlier one.
pub proof fn law_one_of_two_comes_first(keys: Seq<(i64, i64, i64)>, i: int, j: int)
    ensures
        i != j ==> (int_before(keys, i, j) <==> !int_before(keys, j, i)),
        !int_before(keys, i, i),
        keys[i].0 < keys[j].0 ==> int_before(keys, i, j),
        keys[i].0 == keys[j].0 && keys[i].1 < keys[j].1 ==> int_before(keys, i, j),
        keys[i].0 == keys[j].0 && keys[i].1 == keys[j].1 && keys[i].2 < keys[j].2 ==> int_before(
            keys,
            i,
            j,
        ),
        keys[i] == keys[j] ==> (int_before(keys, i, j) <==> i < j),
{
    if keys[i].0 == keys[j].0 && keys[i].1 == keys[j].1 && keys[i].2 == keys[j].2 {
        assert(keys[i] == keys[j]);
    }
}

} // verus!
