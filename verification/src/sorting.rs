//! Stable ranking: the order in which the places of a list are to be read so
//! that the keys come out sorted, and the list read in such an order.

use crate::text::{
    lemma_lex_asymmetric, lemma_lex_irreflexive, lemma_lex_total, lemma_lex_transitive, lex_lt,
    text_lt,
};
use crate::sets::{add_texts, lemma_joined, texts};
use vstd::prelude::*;

verus! {

/// Whether `p` names each of the places `0..n` exactly once.
pub open spec fn is_arrangement(p: Seq<usize>, n: nat) -> bool {
    &&& p.len() == n
    &&& forall|i: int| 0 <= i < n ==> (#[trigger] p[i]) < n
    &&& forall|i: int, j: int| 0 <= i < j < n ==> p[i] != p[j]
    &&& forall|j: usize| j < n ==> #[trigger] p.contains(j)
}

/// Whether `p` ranks the places of `counts` from the greatest count to the
/// least, places of equal count in their own order.
pub open spec fn ranks_counts(p: Seq<usize>, counts: Seq<usize>) -> bool {
    &&& is_arrangement(p, counts.len())
    &&& forall|a: int, b: int|
        0 <= a < b < p.len() ==> counts[#[trigger] p[a] as int] >= counts[#[trigger] p[b] as int]
    &&& forall|a: int, b: int|
        0 <= a < b < p.len() && counts[#[trigger] p[a] as int] == counts[#[trigger] p[b] as int]
            ==> p[a] < p[b]
}

/// Whether `a` is to come before `b` or may stand beside it, reading texts
/// upwards or, with `descending`, downwards.
pub open spec fn in_order(a: Seq<char>, b: Seq<char>, descending: bool) -> bool {
    if descending {
        !lex_lt(a, b)
    } else {
        !lex_lt(b, a)
    }
}

/// Whether `p` ranks the places of `keys` in the order of their texts,
/// places of equal text in their own order.
pub open spec fn ranks_texts(p: Seq<usize>, keys: Seq<Seq<char>>, descending: bool) -> bool {
    &&& is_arrangement(p, keys.len())
    &&& forall|a: int, b: int|
        0 <= a < b < p.len() ==> in_order(
            keys[#[trigger] p[a] as int],
            keys[#[trigger] p[b] as int],
            descending,
        )
    &&& forall|a: int, b: int|
        0 <= a < b < p.len() && keys[#[trigger] p[a] as int] == keys[#[trigger] p[b] as int]
            ==> p[a] < p[b]
}

/// Putting the next place into an arrangement of the places before it gives
/// an arrangement again.
proof fn lemma_insert(p: Seq<usize>, pos: int, i: usize)
    requires
        is_arrangement(p, i as nat),
        0 <= pos <= p.len(),
    ensures
        is_arrangement(p.insert(pos, i), (i + 1) as nat),
        forall|k: int| 0 <= k < pos ==> p.insert(pos, i)[k] == p[k],
        p.insert(pos, i)[pos] == i,
        forall|k: int| pos < k <= p.len() ==> p.insert(pos, i)[k] == p[k - 1],
{
    let q = p.insert(pos, i);
    assert forall|j: usize| j < i + 1 implies #[trigger] q.contains(j) by {
        if j == i {
            assert(q[pos] == j);
        } else {
            assert(p.contains(j));
            let k = choose|k: int| 0 <= k < p.len() && p[k] == j;
            if k < pos {
                assert(q[k] == j);
            } else {
                assert(q[k + 1] == j);
            }
        }
    }
}

/// The order in which to read `counts` from the greatest to the least.
pub fn by_count_desc(counts: &Vec<usize>) -> (p: Vec<usize>)
    ensures
        ranks_counts(p@, counts@),
{
    let n = counts.len();
    let mut p: Vec<usize> = Vec::new();
    let mut i: usize = 0;
    while i < n
        invariant
            i <= n,
            n == counts.len(),
            ranks_counts(p@, counts@.take(i as int)),
        decreases n - i,
    {
        let mut pos: usize = 0;
        while pos < p.len() && counts[p[pos]] >= counts[i]
            invariant
                pos <= p.len(),
                p.len() == i,
                i < n,
                n == counts.len(),
                is_arrangement(p@, i as nat),
                forall|a: int| 0 <= a < pos ==> counts@[#[trigger] p@[a] as int] >= counts@[i as int],
            decreases p.len() - pos,
        {
            pos += 1;
        }
        proof {
            lemma_insert(p@, pos as int, i);
        }
        let ghost before = p@;
        p.insert(pos, i);
        proof {
            let q = p@;
            let c = counts@.take(i + 1);
            assert forall|a: int, b: int| 0 <= a < b < q.len() implies c[#[trigger] q[a] as int]
                >= c[#[trigger] q[b] as int] by {
                if b < pos {
                } else if b == pos {
                } else if a < pos {
                    assert(q[b] == before[b - 1]);
                } else if a == pos {
                    assert(q[b] == before[b - 1]);
                    assert(counts@[before[pos as int] as int] < counts@[i as int]);
                } else {
                    assert(q[a] == before[a - 1] && q[b] == before[b - 1]);
                }
            }
            assert forall|a: int, b: int|
                0 <= a < b < q.len() && c[#[trigger] q[a] as int] == c[#[trigger] q[b] as int]
                implies q[a] < q[b] by {
                if b < pos {
                } else if b == pos {
                } else if a < pos {
                    assert(q[b] == before[b - 1]);
                } else if a == pos {
                    assert(q[b] == before[b - 1]);
                    assert(counts@[before[pos as int] as int] < counts@[i as int]);
                } else {
                    assert(q[a] == before[a - 1] && q[b] == before[b - 1]);
                }
            }
        }
        i += 1;
    }
    assert(counts@.take(n as int) == counts@);
    p
}

/// The order in which to read `keys` so that their texts come out sorted,
/// upwards or, with `descending`, downwards.
pub fn by_text(keys: &Vec<String>, descending: bool) -> (p: Vec<usize>)
    ensures
        ranks_texts(p@, crate::sets::texts(keys@), descending),
{
    let n = keys.len();
    let ghost ks = crate::sets::texts(keys@);
    let mut p: Vec<usize> = Vec::new();
    let mut i: usize = 0;
    while i < n
        invariant
            i <= n,
            n == keys.len(),
            ks == crate::sets::texts(keys@),
            ranks_texts(p@, ks.take(i as int), descending),
        decreases n - i,
    {
        let mut pos: usize = 0;
        loop
            invariant
                pos <= p.len(),
                p.len() == i,
                i < n,
                n == keys.len(),
                ks == crate::sets::texts(keys@),
                is_arrangement(p@, i as nat),
                forall|a: int|
                    0 <= a < pos ==> in_order(ks[#[trigger] p@[a] as int], ks[i as int], descending),
            ensures
                pos <= p.len(),
                forall|a: int|
                    0 <= a < pos ==> in_order(ks[#[trigger] p@[a] as int], ks[i as int], descending),
                pos < p.len() ==> !in_order(ks[p@[pos as int] as int], ks[i as int], descending),
            decreases p.len() - pos,
        {
            if pos >= p.len() {
                break ;
            }
            let there = keys[p[pos]].as_str();
            let here = keys[i].as_str();
            let fits = if descending {
                !text_lt(there, here)
            } else {
                !text_lt(here, there)
            };
            if !fits {
                break ;
            }
            pos += 1;
        }
        proof {
            lemma_insert(p@, pos as int, i);
        }
        let ghost before = p@;
        p.insert(pos, i);
        proof {
            let q = p@;
            let c = ks.take(i + 1);
            let x = ks[i as int];
            assert forall|a: int, b: int| 0 <= a < b < q.len() implies in_order(
                c[#[trigger] q[a] as int],
                c[#[trigger] q[b] as int],
                descending,
            ) by {
                if b < pos {
                } else if b == pos {
                } else if a < pos {
                    assert(q[b] == before[b - 1]);
                } else if a == pos {
                    assert(q[b] == before[b - 1]);
                    let y = ks[before[pos as int] as int];
                    let z = ks[before[b - 1] as int];
                    assert(!in_order(y, x, descending));
                    lemma_lex_irreflexive(y);
                    assert(in_order(y, z, descending));
                    lemma_lex_total(x, z);
                    lemma_lex_total(y, z);
                    lemma_lex_asymmetric(x, y);
                    if descending {
                        if lex_lt(x, z) {
                            if y != z {
                                lemma_lex_transitive(x, z, y);
                            }
                        }
                    } else {
                        if lex_lt(z, x) {
                            if y != z {
                                lemma_lex_transitive(y, z, x);
                            }
                        }
                    }
                } else {
                    assert(q[a] == before[a - 1] && q[b] == before[b - 1]);
                }
            }
            assert forall|a: int, b: int|
                0 <= a < b < q.len() && c[#[trigger] q[a] as int] == c[#[trigger] q[b] as int]
                implies q[a] < q[b] by {
                if b < pos {
                } else if b == pos {
                } else if a < pos {
                    assert(q[b] == before[b - 1]);
                } else if a == pos {
                    assert(q[b] == before[b - 1]);
                    let y = ks[before[pos as int] as int];
                    let z = ks[before[b - 1] as int];
                    assert(!in_order(y, x, descending));
                    lemma_lex_irreflexive(y);
                    assert(in_order(y, z, descending));
                } else {
                    assert(q[a] == before[a - 1] && q[b] == before[b - 1]);
                }
            }
        }
        i += 1;
    }
    assert(ks.take(n as int) == ks);
    p
}

/// `items` read in the order `p`.
pub fn arrange<T>(items: Vec<T>, p: &Vec<usize>) -> (out: Vec<T>)
    requires
        is_arrangement(p@, items@.len()),
    ensures
        out@.len() == items@.len(),
        forall|i: int| 0 <= i < out@.len() ==> #[trigger] out@[i] == items@[p@[i] as int],
{
    let n = items.len();
    let ghost orig = items@;
    let mut items = items;
    let mut slots: Vec<Option<T>> = Vec::new();
    while items.len() > 0
        invariant
            items@.len() + slots@.len() == n,
            n == orig.len(),
            items@ == orig.take(items@.len() as int),
            forall|k: int| 0 <= k < slots@.len() ==> #[trigger] slots@[k] == Some(orig[n - 1 - k]),
        decreases items.len(),
    {
        let x = items.pop().unwrap();
        slots.push(Some(x));
    }
    let mut out: Vec<T> = Vec::new();
    let mut i: usize = 0;
    while i < n
        invariant
            i <= n,
            n == orig.len(),
            slots@.len() == n,
            is_arrangement(p@, n as nat),
            out@.len() == i,
            forall|a: int| 0 <= a < i ==> #[trigger] out@[a] == orig[p@[a] as int],
            forall|j: int|
                0 <= j < n ==> #[trigger] slots@[n - 1 - j] == (if exists|a: int|
                    0 <= a < i && p@[a] == j {
                    None
                } else {
                    Some(orig[j])
                }),
        decreases n - i,
    {
        let j = p[i];
        let at = n - 1 - j;
        assert(slots@[n - 1 - j] == Some(orig[j as int]));
        let ghost before = slots@;
        let x = slots[at].take().unwrap();
        out.push(x);
        proof {
            assert forall|k: int| 0 <= k < n implies #[trigger] slots@[n - 1 - k] == (if exists|
                a: int,
            |
                0 <= a < i + 1 && p@[a] == k {
                None
            } else {
                Some(orig[k])
            }) by {
                if k == j {
                    assert(p@[i as int] == k);
                } else {
                    assert(slots@[n - 1 - k] == before[n - 1 - k]);
                    if exists|a: int| 0 <= a < i + 1 && p@[a] == k {
                        let a = choose|a: int| 0 <= a < i + 1 && p@[a] == k;
                        assert(a < i);
                    }
                }
            }
        }
        i += 1;
    }
    out
}

/// Whether the texts of `s` rise strictly from one place to the next.
pub open spec fn strictly_ascending(s: Seq<Seq<char>>) -> bool {
    forall|a: int, b: int| 0 <= a < b < s.len() ==> lex_lt(#[trigger] s[a], #[trigger] s[b])
}

/// The strings of `items`, each once, in ascending order.
pub fn sorted_set(items: &Vec<String>) -> (r: Vec<String>)
    ensures
        strictly_ascending(texts(r@)),
        forall|v: Seq<char>| #[trigger] texts(r@).contains(v) <==> texts(items@).contains(v),
        texts(items@).no_duplicates() ==> r@.len() == items@.len(),
{
    let mut distinct: Vec<String> = Vec::new();
    assert(texts(distinct@) =~= Seq::<Seq<char>>::empty());
    add_texts(&mut distinct, items);
    proof {
        lemma_joined(Seq::<Seq<char>>::empty(), texts(items@));
        if texts(items@).no_duplicates() {
            crate::sets::lemma_joined_of_distinct(texts(items@));
        }
    }
    let order = by_text(&distinct, false);
    let ghost given = texts(distinct@);
    let ghost raw = distinct@;
    assert(given.len() == distinct.len());
    let out = arrange(distinct, &order);
    proof {
        let sorted = texts(out@);
        assert forall|i: int| 0 <= i < sorted.len() implies #[trigger] sorted[i] == given[order@[i] as int] by {
            assert(out@[i] == raw[order@[i] as int]);
        }
        assert forall|a: int, b: int| 0 <= a < b < sorted.len() implies lex_lt(
            #[trigger] sorted[a],
            #[trigger] sorted[b],
        ) by {
            assert(order@[a] != order@[b]);
            assert(given[order@[a] as int] != given[order@[b] as int]);
            lemma_lex_total(sorted[a], sorted[b]);
        }
        assert forall|v: Seq<char>| #[trigger] sorted.contains(v) <==> given.contains(v) by {
            if sorted.contains(v) {
                let i = choose|i: int| 0 <= i < sorted.len() && sorted[i] == v;
                assert(given[order@[i] as int] == v);
            }
            if given.contains(v) {
                let k = choose|k: int| 0 <= k < given.len() && given[k] == v;
                assert(order@.contains(k as usize));
                let i = choose|i: int| 0 <= i < order@.len() && order@[i] == k as usize;
                assert(sorted[i] == v);
            }
        }
    }
    out
}

/// Two strictly ascending lists with the same members are the same list.
pub proof fn lemma_ascending_unique(a: Seq<Seq<char>>, b: Seq<Seq<char>>)
    requires
        strictly_ascending(a),
        strictly_ascending(b),
        forall|v: Seq<char>| #[trigger] a.contains(v) <==> b.contains(v),
    ensures
        a == b,
    decreases a.len(),
{
    if a.len() == 0 {
        if b.len() > 0 {
            assert(b[0] == b[0] && b.contains(b[0]));
            assert(a.contains(b[0]));
        }
        assert(a =~= b);
    } else {
        assert(a[0] == a[0] && a.contains(a[0]));
        assert(b.contains(a[0]));
        let j = choose|j: int| 0 <= j < b.len() && b[j] == a[0];
        assert(b[0] == b[0] && b.contains(b[0]));
        assert(a.contains(b[0]));
        let i = choose|i: int| 0 <= i < a.len() && a[i] == b[0];
        if j > 0 {
            assert(lex_lt(b[0], b[j]));
            if i > 0 {
                assert(lex_lt(a[0], a[i]));
                lemma_lex_asymmetric(a[0], b[0]);
            } else {
                lemma_lex_irreflexive(a[0]);
            }
        }
        assert(a[0] == b[0]);
        let at = a.drop_first();
        let bt = b.drop_first();
        assert forall|v: Seq<char>| #[trigger] at.contains(v) <==> bt.contains(v) by {
            if at.contains(v) {
                let k = choose|k: int| 0 <= k < at.len() && at[k] == v;
                assert(a[k + 1] == v);
                assert(lex_lt(a[0], a[k + 1]));
                assert(a.contains(v));
                assert(b.contains(v));
                let m = choose|m: int| 0 <= m < b.len() && b[m] == v;
                if m == 0 {
                    lemma_lex_irreflexive(v);
                }
                assert(bt[m - 1] == v);
            }
            if bt.contains(v) {
                let k = choose|k: int| 0 <= k < bt.len() && bt[k] == v;
                assert(b[k + 1] == v);
                assert(lex_lt(b[0], b[k + 1]));
                assert(b.contains(v));
                assert(a.contains(v));
                let m = choose|m: int| 0 <= m < a.len() && a[m] == v;
                if m == 0 {
                    lemma_lex_irreflexive(v);
                }
                assert(at[m - 1] == v);
            }
        }
        assert(strictly_ascending(at)) by {
            assert forall|x: int, y: int| 0 <= x < y < at.len() implies lex_lt(
                #[trigger] at[x],
                #[trigger] at[y],
            ) by {
                assert(lex_lt(a[x + 1], a[y + 1]));
            }
        }
        assert(strictly_ascending(bt)) by {
            assert forall|x: int, y: int| 0 <= x < y < bt.len() implies lex_lt(
                #[trigger] bt[x],
                #[trigger] bt[y],
            ) by {
                assert(lex_lt(b[x + 1], b[y + 1]));
            }
        }
        lemma_ascending_unique(at, bt);
        assert(a =~= seq![a[0]] + at);
        assert(b =~= seq![b[0]] + bt);
    }
}

} // verus!
