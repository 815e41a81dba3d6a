//! Text handling on which keys, normal forms and orderings rest.
//!
//! Strings are modelled by their sequence of characters. What std knows about
//! Unicode (letter case, white space) enters through three small trusted
//! functions; everything else in this module is proved against the spec
//! functions beside it.

use vstd::prelude::*;
use vstd::string::*;

verus! {

/// The lowercase form of a string: what `str::to_lowercase` returns for it.
pub uninterp spec fn lowercase_of(s: Seq<char>) -> Seq<char>;

/// Whether a character is Unicode white space: what `char::is_whitespace` returns for it.
pub uninterp spec fn is_space(c: char) -> bool;

/// Trusted: calls `str::to_lowercase`. The result is a function of the
/// characters of `s` alone, named `lowercase_of`.
#[verifier::external_body]
pub(crate) fn to_lowercase(s: &str) -> (r: String)
    ensures
        r@ == lowercase_of(s@),
{
    s.to_lowercase()
}

/// Trusted: calls `char::is_whitespace`. The result is a function of `c`
/// alone, named `is_space`.
#[verifier::external_body]
pub(crate) fn is_whitespace(c: char) -> (r: bool)
    ensures
        r == is_space(c),
{
    c.is_whitespace()
}

/// Trusted: calls `String::push`, which appends `c` to the end of `s`.
#[verifier::external_body]
pub(crate) fn push_char(s: &mut String, c: char)
    ensures
        final(s)@ == old(s)@.push(c),
{
    s.push(c)
}

/// `s` without its leading white space.
pub open spec fn trim_start_of(s: Seq<char>) -> Seq<char>
    decreases s.len(),
{
    if s.len() > 0 && is_space(s[0]) {
        trim_start_of(s.drop_first())
    } else {
        s
    }
}

/// `s` without its trailing white space.
pub open spec fn trim_end_of(s: Seq<char>) -> Seq<char>
    decreases s.len(),
{
    if s.len() > 0 && is_space(s.last()) {
        trim_end_of(s.drop_last())
    } else {
        s
    }
}

/// `s` without leading and trailing white space.
pub open spec fn trimmed(s: Seq<char>) -> Seq<char> {
    trim_end_of(trim_start_of(s))
}

/// The test that a character is not `c`.
pub open spec fn other_than(c: char) -> spec_fn(char) -> bool {
    |x: char| x != c
}

/// `s` without any occurrence of `c`.
pub open spec fn without(s: Seq<char>, c: char) -> Seq<char> {
    s.filter(other_than(c))
}

/// `s` with every `from` turned into `to`.
pub open spec fn replaced(s: Seq<char>, from: char, to: char) -> Seq<char> {
    s.map_values(
        |x: char|
            if x == from {
                to
            } else {
                x
            },
    )
}

/// The words of `s` (maximal runs without white space) joined by single
/// spaces: a character is kept unless it is white space, and a kept character
/// that follows white space is preceded by one space unless it is the first
/// one kept.
pub open spec fn squeezed(s: Seq<char>) -> Seq<char>
    decreases s.len(),
{
    if s.len() == 0 {
        s
    } else {
        let head = squeezed(s.drop_last());
        let c = s.last();
        if is_space(c) {
            head
        } else if head.len() > 0 && is_space(s[s.len() - 2]) {
            head.push(' ').push(c)
        } else {
            head.push(c)
        }
    }
}

/// `s` with the prefix `p` removed as often as it occurs at the front.
pub open spec fn strip_prefixes(s: Seq<char>, p: Seq<char>) -> Seq<char>
    decreases s.len(),
{
    if p.len() > 0 && p.is_prefix_of(s) {
        strip_prefixes(s.skip(p.len() as int), p)
    } else {
        s
    }
}

/// `s` with the suffix `p` removed as often as it occurs at the end.
pub open spec fn strip_suffixes(s: Seq<char>, p: Seq<char>) -> Seq<char>
    decreases s.len(),
{
    if p.len() > 0 && p.is_suffix_of(s) {
        strip_suffixes(s.take(s.len() - p.len()), p)
    } else {
        s
    }
}

/// Whether `needle` occurs in `hay` as a contiguous run of characters.
pub open spec fn occurs_in(needle: Seq<char>, hay: Seq<char>) -> bool {
    exists|i: int| 0 <= i <= hay.len() && #[trigger] needle.is_prefix_of(hay.skip(i))
}

/// Strict lexicographic order by code point, the order of `str`.
pub open spec fn lex_lt(a: Seq<char>, b: Seq<char>) -> bool
    decreases a.len(),
{
    if b.len() == 0 {
        false
    } else if a.len() == 0 {
        true
    } else if a[0] != b[0] {
        (a[0] as int) < (b[0] as int)
    } else {
        lex_lt(a.drop_first(), b.drop_first())
    }
}

/// No string comes before itself.
pub proof fn lemma_lex_irreflexive(a: Seq<char>)
    ensures
        !lex_lt(a, a),
    decreases a.len(),
{
    if a.len() > 0 {
        lemma_lex_irreflexive(a.drop_first());
    }
}

/// Two strings of which neither comes before the other are equal.
pub proof fn lemma_lex_total(a: Seq<char>, b: Seq<char>)
    ensures
        lex_lt(a, b) || lex_lt(b, a) || a == b,
    decreases a.len(),
{
    if a.len() == 0 || b.len() == 0 {
        if a.len() == 0 && b.len() == 0 {
            assert(a =~= b);
        }
    } else if a[0] == b[0] {
        lemma_lex_total(a.drop_first(), b.drop_first());
        if a.drop_first() == b.drop_first() {
            assert(a =~= seq![a[0]] + a.drop_first());
            assert(b =~= seq![b[0]] + b.drop_first());
        }
    }
}

/// No two strings come before each other.
pub proof fn lemma_lex_asymmetric(a: Seq<char>, b: Seq<char>)
    ensures
        !(lex_lt(a, b) && lex_lt(b, a)),
    decreases a.len(),
{
    if a.len() > 0 && b.len() > 0 && a[0] == b[0] {
        lemma_lex_asymmetric(a.drop_first(), b.drop_first());
    }
}

/// The order is transitive.
pub proof fn lemma_lex_transitive(a: Seq<char>, b: Seq<char>, c: Seq<char>)
    requires
        lex_lt(a, b),
        lex_lt(b, c),
    ensures
        lex_lt(a, c),
    decreases a.len(),
{
    if a.len() > 0 && a[0] == b[0] && b[0] == c[0] {
        lemma_lex_transitive(a.drop_first(), b.drop_first(), c.drop_first());
    }
}

/// The characters of an optional string.
pub open spec fn opt_text(o: Option<String>) -> Option<Seq<char>> {
    match o {
        Some(s) => Some(s@),
        None => None,
    }
}

/// A copy of an optional string.
pub fn copy_opt(o: &Option<String>) -> (r: Option<String>)
    ensures
        opt_text(r) == opt_text(*o),
{
    match o {
        Some(s) => Some(s.clone()),
        None => None,
    }
}

/// The characters of a string, in order.
pub fn chars_of(s: &str) -> (v: Vec<char>)
    ensures
        v@ == s@,
{
    let mut v: Vec<char> = Vec::new();
    for c in it: s.chars()
        invariant
            it.seq() == s@,
            v@ == s@.take(it.index()),
    {
        v.push(c);
    }
    assert(s@.take(s@.len() as int) == s@);
    v
}

/// Whether two strings hold the same characters.
pub fn same_text(a: &str, b: &str) -> (r: bool)
    ensures
        r == (a@ == b@),
{
    let x = a.to_owned();
    let y = b.to_owned();
    x == y
}

/// Whether `a` comes strictly before `b` in the order of `str`.
pub fn text_lt(a: &str, b: &str) -> (r: bool)
    ensures
        r == lex_lt(a@, b@),
{
    let ca = chars_of(a);
    let cb = chars_of(b);
    let mut i: usize = 0;
    assert(a@.skip(0) == a@ && b@.skip(0) == b@);
    loop
        invariant
            ca@ == a@,
            cb@ == b@,
            i <= ca.len(),
            i <= cb.len(),
            lex_lt(a@, b@) == lex_lt(a@.skip(i as int), b@.skip(i as int)),
        decreases ca.len() - i,
    {
        if i == cb.len() {
            return false;
        }
        if i == ca.len() {
            return true;
        }
        assert(a@.skip(i as int)[0] == ca@[i as int]);
        assert(b@.skip(i as int)[0] == cb@[i as int]);
        if ca[i] != cb[i] {
            return ca[i] < cb[i];
        }
        assert(a@.skip(i as int).drop_first() == a@.skip(i + 1));
        assert(b@.skip(i as int).drop_first() == b@.skip(i + 1));
        i += 1;
    }
}

/// The bounds of `cs[lo..hi]` without its leading and trailing white space.
pub(crate) fn trim_window(cs: &Vec<char>, lo: usize, hi: usize) -> (r: (usize, usize))
    requires
        lo <= hi <= cs.len(),
    ensures
        lo <= r.0 <= r.1 <= hi,
        cs@.subrange(r.0 as int, r.1 as int) == trimmed(cs@.subrange(lo as int, hi as int)),
{
    let ghost w = cs@.subrange(lo as int, hi as int);
    let mut a: usize = lo;
    assert(cs@.subrange(a as int, hi as int) == w);
    while a < hi && is_whitespace(cs[a])
        invariant
            lo <= a <= hi <= cs.len(),
            trim_start_of(w) == trim_start_of(cs@.subrange(a as int, hi as int)),
        decreases hi - a,
    {
        assert(cs@.subrange(a as int, hi as int).drop_first() == cs@.subrange(a + 1, hi as int));
        a += 1;
    }
    let ghost t = cs@.subrange(a as int, hi as int);
    assert(trim_start_of(w) == t);
    let mut b: usize = hi;
    while b > a && is_whitespace(cs[b - 1])
        invariant
            a <= b <= hi <= cs.len(),
            trim_end_of(t) == trim_end_of(cs@.subrange(a as int, b as int)),
        decreases b - a,
    {
        assert(cs@.subrange(a as int, b as int).drop_last() == cs@.subrange(a as int, b - 1));
        b -= 1;
    }
    (a, b)
}

/// Whether `pat` stands at the front of `cs[at..hi]`.
pub(crate) fn matches_at(cs: &Vec<char>, at: usize, hi: usize, pat: &Vec<char>) -> (r: bool)
    requires
        at <= hi <= cs.len(),
    ensures
        r == pat@.is_prefix_of(cs@.subrange(at as int, hi as int)),
{
    let ghost w = cs@.subrange(at as int, hi as int);
    if pat.len() > hi - at {
        return false;
    }
    let mut i: usize = 0;
    while i < pat.len()
        invariant
            at <= hi <= cs.len(),
            pat.len() <= hi - at,
            i <= pat.len(),
            w == cs@.subrange(at as int, hi as int),
            forall|j: int| 0 <= j < i ==> pat@[j] == w[j],
        decreases pat.len() - i,
    {
        if pat[i] != cs[at + i] {
            assert(w.subrange(0, pat@.len() as int)[i as int] != pat@[i as int]);
            return false;
        }
        i += 1;
    }
    assert(pat@ =~= w.subrange(0, pat@.len() as int));
    true
}

/// The start of `cs[lo..hi]` once every leading `pat` is skipped.
pub(crate) fn skip_prefixes(cs: &Vec<char>, lo: usize, hi: usize, pat: &Vec<char>) -> (r: usize)
    requires
        lo <= hi <= cs.len(),
        pat.len() > 0,
    ensures
        lo <= r <= hi,
        cs@.subrange(r as int, hi as int) == strip_prefixes(
            cs@.subrange(lo as int, hi as int),
            pat@,
        ),
{
    let ghost w = cs@.subrange(lo as int, hi as int);
    let mut a: usize = lo;
    while matches_at(cs, a, hi, pat)
        invariant
            lo <= a <= hi <= cs.len(),
            pat.len() > 0,
            strip_prefixes(w, pat@) == strip_prefixes(cs@.subrange(a as int, hi as int), pat@),
        decreases hi - a,
    {
        assert(cs@.subrange(a as int, hi as int).skip(pat@.len() as int) == cs@.subrange(
            a + pat@.len(),
            hi as int,
        ));
        a += pat.len();
    }
    a
}

/// The end of `cs[lo..hi]` once every trailing `pat` is dropped.
pub(crate) fn drop_suffixes(cs: &Vec<char>, lo: usize, hi: usize, pat: &Vec<char>) -> (r: usize)
    requires
        lo <= hi <= cs.len(),
        pat.len() > 0,
    ensures
        lo <= r <= hi,
        cs@.subrange(lo as int, r as int) == strip_suffixes(
            cs@.subrange(lo as int, hi as int),
            pat@,
        ),
{
    let ghost w = cs@.subrange(lo as int, hi as int);
    let mut b: usize = hi;
    loop
        invariant
            lo <= b <= hi <= cs.len(),
            pat.len() > 0,
            w == cs@.subrange(lo as int, hi as int),
            strip_suffixes(w, pat@) == strip_suffixes(cs@.subrange(lo as int, b as int), pat@),
        decreases b - lo,
    {
        let ghost cur = cs@.subrange(lo as int, b as int);
        if pat.len() > b - lo {
            assert(!pat@.is_suffix_of(cur));
            assert(strip_suffixes(cur, pat@) == cur);
            return b;
        }
        let at = b - pat.len();
        let hit = matches_at(cs, at, b, pat);
        proof {
            let tail = cs@.subrange(at as int, b as int);
            assert(tail =~= cur.subrange(cur.len() - pat@.len(), cur.len() as int));
            assert(tail.subrange(0, pat@.len() as int) =~= tail);
            assert(hit == pat@.is_suffix_of(cur));
        }
        if !hit {
            assert(strip_suffixes(cur, pat@) == cur);
            return b;
        }
        assert(cur.take(cur.len() - pat@.len()) == cs@.subrange(lo as int, at as int));
        b = at;
    }
}

/// `s` without leading and trailing white space.
pub fn trim(s: &str) -> (r: &str)
    ensures
        r@ == trimmed(s@),
{
    let cs = chars_of(s);
    assert(cs@.subrange(0, cs@.len() as int) == cs@);
    let (a, b) = trim_window(&cs, 0, cs.len());
    s.substring_char(a, b)
}

/// `s` without any occurrence of `c`.
pub fn remove_char(s: &str, c: char) -> (r: String)
    ensures
        r@ == without(s@, c),
{
    let cs = chars_of(s);
    let mut out = String::new();
    let mut i: usize = 0;
    while i < cs.len()
        invariant
            cs@ == s@,
            i <= cs.len(),
            out@ == without(cs@.take(i as int), c),
        decreases cs.len() - i,
    {
        let x = cs[i];
        proof {
            assert(cs@.take(i + 1) == cs@.take(i as int).push(x));
            cs@.take(i as int).lemma_filter_push(x, other_than(c));
        }
        if x != c {
            push_char(&mut out, x);
        }
        i += 1;
    }
    assert(cs@.take(cs@.len() as int) == cs@);
    out
}

/// `s` with every `from` turned into `to`.
pub fn replace_char(s: &str, from: char, to: char) -> (r: String)
    ensures
        r@ == replaced(s@, from, to),
{
    let cs = chars_of(s);
    let mut out = String::new();
    let mut i: usize = 0;
    while i < cs.len()
        invariant
            cs@ == s@,
            i <= cs.len(),
            out@ == replaced(cs@.take(i as int), from, to),
        decreases cs.len() - i,
    {
        let x = cs[i];
        if x == from {
            push_char(&mut out, to);
        } else {
            push_char(&mut out, x);
        }
        i += 1;
        assert(out@ =~= replaced(cs@.take(i as int), from, to));
    }
    assert(cs@.take(cs@.len() as int) == cs@);
    out
}

/// The words of `s` joined by single spaces.
pub fn squeeze(s: &str) -> (r: String)
    ensures
        r@ == squeezed(s@),
{
    let cs = chars_of(s);
    let mut out = String::new();
    let mut started = false;
    let mut gap = false;
    let mut i: usize = 0;
    while i < cs.len()
        invariant
            cs@ == s@,
            i <= cs.len(),
            out@ == squeezed(cs@.take(i as int)),
            started == (out@.len() > 0),
            gap == (i > 0 && is_space(cs@[i - 1])),
        decreases cs.len() - i,
    {
        let x = cs[i];
        proof {
            let next = cs@.take(i + 1);
            assert(next.drop_last() == cs@.take(i as int));
            assert(next.last() == x);
            if i > 0 {
                assert(next[next.len() - 2] == cs@[i - 1]);
            }
        }
        if is_whitespace(x) {
            gap = true;
        } else {
            if started && gap {
                push_char(&mut out, ' ');
            }
            push_char(&mut out, x);
            started = true;
            gap = false;
        }
        i += 1;
    }
    assert(cs@.take(cs@.len() as int) == cs@);
    out
}

/// Whether `needle` occurs in `hay`.
pub fn contains_text(hay: &str, needle: &str) -> (r: bool)
    ensures
        r == occurs_in(needle@, hay@),
{
    let cs = chars_of(hay);
    let pat = chars_of(needle);
    let n = cs.len();
    let mut i: usize = 0;
    while i <= n
        invariant
            cs@ == hay@,
            pat@ == needle@,
            n == cs.len(),
            i <= n + 1,
            forall|j: int| 0 <= j < i ==> !#[trigger] needle@.is_prefix_of(hay@.skip(j)),
        decreases n + 1 - i,
    {
        assert(cs@.subrange(i as int, n as int) == hay@.skip(i as int));
        if matches_at(&cs, i, n, &pat) {
            return true;
        }
        if i == n {
            return false;
        }
        i += 1;
    }
    false
}

/// The code of a character with the ASCII capitals folded onto the small letters.
pub open spec fn ascii_fold(c: char) -> int {
    if 65 <= c as int <= 90 {
        c as int + 32
    } else {
        c as int
    }
}

/// Whether two strings are equal but for the case of ASCII letters.
pub open spec fn same_but_ascii_case(a: Seq<char>, b: Seq<char>) -> bool {
    a.len() == b.len() && forall|i: int| 0 <= i < a.len() ==> ascii_fold(#[trigger] a[i]) == ascii_fold(b[i])
}

/// The place of the first line feed of `s`, or its length.
pub open spec fn line_end(s: Seq<char>) -> int
    decreases s.len(),
{
    if s.len() == 0 || s[0] == '\n' {
        0
    } else {
        1 + line_end(s.drop_first())
    }
}

/// The first line of `s`, without its line ending: the characters before
/// the first line feed, less one carriage return that stands directly
/// before it. The empty string has no line.
pub open spec fn first_line_of(s: Seq<char>) -> Option<Seq<char>> {
    if s.len() == 0 {
        None
    } else {
        let e = line_end(s);
        if 0 < e < s.len() && s[e - 1] == '\r' {
            Some(s.take(e - 1))
        } else {
            Some(s.take(e))
        }
    }
}

/// The first `n` characters of `s`, or all of `s` if it has fewer.
pub open spec fn prefix_of(s: Seq<char>, n: nat) -> Seq<char> {
    if s.len() <= n {
        s
    } else {
        s.take(n as int)
    }
}

/// The folded code of a character.
fn fold_code(c: char) -> (r: u32)
    ensures
        r == ascii_fold(c),
{
    let x = c as u32;
    if 65 <= x && x <= 90 {
        x + 32
    } else {
        x
    }
}

/// Whether two strings are equal but for the case of ASCII letters.
pub fn same_text_ignoring_ascii_case(a: &str, b: &str) -> (r: bool)
    ensures
        r == same_but_ascii_case(a@, b@),
{
    let ca = chars_of(a);
    let cb = chars_of(b);
    if ca.len() != cb.len() {
        return false;
    }
    let mut i: usize = 0;
    while i < ca.len()
        invariant
            ca@ == a@,
            cb@ == b@,
            ca.len() == cb.len(),
            i <= ca.len(),
            forall|j: int| 0 <= j < i ==> ascii_fold(#[trigger] a@[j]) == ascii_fold(b@[j]),
        decreases ca.len() - i,
    {
        if fold_code(ca[i]) != fold_code(cb[i]) {
            return false;
        }
        i += 1;
    }
    true
}

/// The first line of `s`, if it has one.
pub fn first_line(s: &str) -> (r: Option<&str>)
    ensures
        r is Some <==> first_line_of(s@) is Some,
        r matches Some(l) ==> first_line_of(s@) == Some(l@),
{
    let cs = chars_of(s);
    if cs.len() == 0 {
        return None;
    }
    let mut e: usize = 0;
    proof {
        assert(s@.skip(0) == s@);
    }
    while e < cs.len() && cs[e] != '\n'
        invariant
            cs@ == s@,
            e <= cs.len(),
            line_end(s@) == e + line_end(s@.skip(e as int)),
        decreases cs.len() - e,
    {
        assert(s@.skip(e as int).drop_first() == s@.skip(e + 1));
        e += 1;
    }
    assert(line_end(s@.skip(e as int)) == 0);
    if 0 < e && e < cs.len() && cs[e - 1] == '\r' {
        Some(s.substring_char(0, e - 1))
    } else {
        Some(s.substring_char(0, e))
    }
}

/// The first `n` characters of `s`, or all of `s` if it has fewer.
pub fn prefix(s: &str, n: usize) -> (r: &str)
    ensures
        r@ == prefix_of(s@, n as nat),
{
    let len = s.unicode_len();
    if len <= n {
        s
    } else {
        s.substring_char(0, n)
    }
}

} // verus!
