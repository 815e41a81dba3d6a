//! Sets of strings kept as vectors without duplicates, in order of first
//! appearance.

use vstd::prelude::*;

verus! {

/// The character sequences of a sequence of strings.
pub open spec fn texts(v: Seq<String>) -> Seq<Seq<char>> {
    v.map_values(|s: String| s@)
}

/// `a` followed by each element of `b` that is not yet present, in order.
pub open spec fn joined<T>(a: Seq<T>, b: Seq<T>) -> Seq<T>
    decreases b.len(),
{
    if b.len() == 0 {
        a
    } else {
        let u = joined(a, b.drop_last());
        if u.contains(b.last()) {
            u
        } else {
            u.push(b.last())
        }
    }
}

/// `a` with `x` appended unless it is present.
pub open spec fn with_member<T>(a: Seq<T>, x: T) -> Seq<T> {
    if a.contains(x) {
        a
    } else {
        a.push(x)
    }
}

/// Adding one element is a union with a one-element sequence.
pub proof fn lemma_with_member_is_joined<T>(a: Seq<T>, x: T)
    ensures
        with_member(a, x) == joined(a, seq![x]),
{
    let b = seq![x];
    assert(b.drop_last() =~= Seq::<T>::empty());
    assert(joined(a, b.drop_last()) == a);
    assert(b.last() == x);
}

/// A union starts with its left operand, holds exactly the members of both
/// operands, and has no duplicates if the left operand has none.
pub proof fn lemma_joined<T>(a: Seq<T>, b: Seq<T>)
    ensures
        a.len() <= joined(a, b).len() <= a.len() + b.len(),
        joined(a, b).take(a.len() as int) == a,
        forall|x: T| joined(a, b).contains(x) <==> a.contains(x) || b.contains(x),
        a.no_duplicates() ==> joined(a, b).no_duplicates(),
    decreases b.len(),
{
    if b.len() == 0 {
        assert(a.take(a.len() as int) == a);
        assert forall|x: T| !b.contains(x) by {}
    } else {
        let u = joined(a, b.drop_last());
        lemma_joined(a, b.drop_last());
        let r = joined(a, b);
        assert(r.take(a.len() as int) =~= u.take(a.len() as int));
        assert forall|x: T| r.contains(x) <==> a.contains(x) || b.contains(x) by {
            if b.contains(x) {
                let i = choose|i: int| 0 <= i < b.len() && b[i] == x;
                if i < b.len() - 1 {
                    assert(b.drop_last()[i] == x);
                    assert(b.drop_last().contains(x));
                    assert(u.contains(x));
                } else {
                    assert(x == b.last());
                }
                if u.contains(x) {
                    let j = choose|j: int| 0 <= j < u.len() && u[j] == x;
                    assert(r[j] == x);
                } else {
                    assert(r[r.len() - 1] == x);
                }
            }
            if a.contains(x) {
                let j = choose|j: int| 0 <= j < u.len() && u[j] == x;
                assert(r[j] == x);
            }
            if r.contains(x) {
                let j = choose|j: int| 0 <= j < r.len() && r[j] == x;
                if j < u.len() {
                    assert(u[j] == x);
                    assert(u.contains(x));
                    if b.drop_last().contains(x) {
                        let i = choose|i: int| 0 <= i < b.drop_last().len() && b.drop_last()[i] == x;
                        assert(b[i] == x);
                    }
                } else {
                    assert(b[b.len() - 1] == x);
                }
            }
        }
    }
}

/// A union with a sequence whose members are all present changes nothing.
pub proof fn lemma_joined_absorbs<T>(a: Seq<T>, b: Seq<T>)
    requires
        forall|x: T| b.contains(x) ==> a.contains(x),
    ensures
        joined(a, b) == a,
    decreases b.len(),
{
    if b.len() > 0 {
        assert forall|x: T| b.drop_last().contains(x) implies a.contains(x) by {
            let i = choose|i: int| 0 <= i < b.drop_last().len() && b.drop_last()[i] == x;
            assert(b[i] == x);
        }
        lemma_joined_absorbs(a, b.drop_last());
        assert(b[b.len() - 1] == b.last());
        assert(b.contains(b.last()));
    }
}

/// Uniting the empty sequence with a sequence without duplicates gives that
/// sequence.
pub proof fn lemma_joined_of_distinct(b: Seq<Seq<char>>)
    requires
        b.no_duplicates(),
    ensures
        joined(Seq::<Seq<char>>::empty(), b) == b,
    decreases b.len(),
{
    if b.len() > 0 {
        lemma_joined_of_distinct(b.drop_last());
        let u = joined(Seq::<Seq<char>>::empty(), b.drop_last());
        if u.contains(b.last()) {
            let i = choose|i: int| 0 <= i < u.len() && u[i] == b.last();
            assert(b[i] == b[b.len() - 1]);
        }
        assert(b.drop_last().push(b.last()) == b);
    }
}

/// Whether `s` is among the strings of `v`.
pub fn has_text(v: &Vec<String>, s: &String) -> (r: bool)
    ensures
        r == texts(v@).contains(s@),
{
    let mut i: usize = 0;
    while i < v.len()
        invariant
            i <= v.len(),
            forall|j: int| 0 <= j < i ==> texts(v@)[j] != s@,
        decreases v.len() - i,
    {
        if v[i] == *s {
            assert(texts(v@)[i as int] == s@);
            return true;
        }
        i += 1;
    }
    false
}

/// Appends `s` to `v` unless it is present; tells whether it was appended.
pub fn add_text(v: &mut Vec<String>, s: String) -> (added: bool)
    ensures
        texts(final(v)@) == with_member(texts(old(v)@), s@),
        added == !texts(old(v)@).contains(s@),
{
    if has_text(v, &s) {
        false
    } else {
        v.push(s);
        assert(texts(v@) =~= texts(old(v)@).push(s@));
        true
    }
}

/// Appends to `dst` each string of `src` that is not yet present.
pub fn add_texts(dst: &mut Vec<String>, src: &Vec<String>)
    ensures
        texts(final(dst)@) == joined(texts(old(dst)@), texts(src@)),
{
    let mut i: usize = 0;
    assert(texts(src@).take(0) =~= Seq::<Seq<char>>::empty());
    while i < src.len()
        invariant
            i <= src.len(),
            texts(dst@) == joined(texts(old(dst)@), texts(src@).take(i as int)),
        decreases src.len() - i,
    {
        let s = src[i].clone();
        proof {
            let next = texts(src@).take(i + 1);
            assert(next.drop_last() == texts(src@).take(i as int));
            assert(next.last() == s@);
        }
        let _ = add_text(dst, s);
        i += 1;
    }
    assert(texts(src@).take(src@.len() as int) == texts(src@));
}

/// A copy of a vector of strings.
pub fn copy_texts(v: &Vec<String>) -> (r: Vec<String>)
    ensures
        texts(r@) == texts(v@),
{
    let mut out: Vec<String> = Vec::new();
    let mut i: usize = 0;
    while i < v.len()
        invariant
            i <= v.len(),
            out@.len() == i,
            forall|j: int| 0 <= j < i ==> out@[j]@ == v@[j]@,
        decreases v.len() - i,
    {
        out.push(v[i].clone());
        i += 1;
    }
    assert(texts(out@) =~= texts(v@));
    out
}

/// Whether no string occurs twice in `v`.
pub fn all_distinct(v: &Vec<String>) -> (r: bool)
    ensures
        r == texts(v@).no_duplicates(),
{
    let mut i: usize = 0;
    while i < v.len()
        invariant
            i <= v.len(),
            forall|a: int, b: int| 0 <= a < b < i ==> texts(v@)[a] != texts(v@)[b],
        decreases v.len() - i,
    {
        let mut j: usize = 0;
        while j < i
            invariant
                j <= i < v.len(),
                forall|a: int| 0 <= a < j ==> texts(v@)[a] != texts(v@)[i as int],
            decreases i - j,
        {
            if v[j] == v[i] {
                assert(texts(v@)[j as int] == texts(v@)[i as int]);
                return false;
            }
            j += 1;
        }
        i += 1;
    }
    true
}

} // verus!
