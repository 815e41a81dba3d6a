//! The open key/value metadata that records carry: a `serde_json::Map` from
//! strings to JSON values, kept as it is and reached through a few trusted
//! functions.
//!
//! To the verifier such a map is the finite map `entries` from keys to
//! `JsonView`s, and a JSON value is its `value_view`.

use vstd::prelude::*;

verus! {

/// Trusted: declares `serde_json::Map`. Nothing of what is inside such a
/// map is visible to the verifier but through `entries`.
#[verifier::external_type_specification]
#[verifier::external_body]
#[verifier::reject_recursive_types(K)]
#[verifier::reject_recursive_types(V)]
pub struct ExJsonMap<K, V>(serde_json::Map<K, V>);

/// Trusted: declares `serde_json::Value`. Nothing of what is inside such a
/// value is visible to the verifier but through `value_view`.
#[verifier::external_type_specification]
#[verifier::external_body]
pub struct ExJsonValue(serde_json::Value);

/// What a JSON value holds, as far as this library tells values apart.
pub enum JsonView {
    /// A JSON string with these characters.
    Text(Seq<char>),
    /// A JSON boolean.
    Flag(bool),
    /// Any other value, stood for by its compact JSON text.
    Other(Seq<char>),
}

/// What a `serde_json::Value` holds.
pub uninterp spec fn value_view(v: serde_json::Value) -> JsonView;

/// What a `serde_json::Map` holds: its keys, each with the view of its value.
pub uninterp spec fn entries(m: serde_json::Map<String, serde_json::Value>) -> Map<
    Seq<char>,
    JsonView,
>;

/// The map without entries.
pub open spec fn no_entries() -> Map<Seq<char>, JsonView> {
    Map::empty()
}

/// `e` with `k` bound to `v` unless `k` is bound already.
pub open spec fn or_inserted(e: Map<Seq<char>, JsonView>, k: Seq<char>, v: JsonView) -> Map<
    Seq<char>,
    JsonView,
> {
    if e.contains_key(k) {
        e
    } else {
        e.insert(k, v)
    }
}

/// `old` together with the entries of `new` whose keys `old` lacks: on a key
/// of both, the earlier entry stays.
pub open spec fn first_wins(old: Map<Seq<char>, JsonView>, new: Map<Seq<char>, JsonView>) -> Map<
    Seq<char>,
    JsonView,
> {
    new.union_prefer_right(old)
}

/// Whether `r` lists the entries of `e`, each key once.
pub open spec fn lists(r: Seq<(String, serde_json::Value)>, e: Map<Seq<char>, JsonView>) -> bool {
    &&& forall|i: int, j: int| 0 <= i < j < r.len() ==> r[i].0@ != r[j].0@
    &&& forall|i: int|
        0 <= i < r.len() ==> e.contains_key(#[trigger] r[i].0@) && e[r[i].0@] == value_view(r[i].1)
    &&& forall|k: Seq<char>|
        e.contains_key(k) ==> exists|i: int| 0 <= i < r.len() && #[trigger] r[i].0@ == k
}

/// Trusted: calls `serde_json::Map::new`, which makes a map without entries.
#[verifier::external_body]
pub(crate) fn new_map() -> (r: serde_json::Map<String, serde_json::Value>)
    ensures
        entries(r) == no_entries(),
{
    serde_json::Map::new()
}

/// Trusted: calls `serde_json::Map::insert`, which binds `key` to `value`
/// whether or not `key` was bound before.
#[verifier::external_body]
pub(crate) fn insert(
    m: &mut serde_json::Map<String, serde_json::Value>,
    key: String,
    value: serde_json::Value,
)
    ensures
        entries(*final(m)) == entries(*old(m)).insert(key@, value_view(value)),
{
    m.insert(key, value);
}

/// Trusted: calls `serde_json::Map::entry` and `Entry::or_insert`, which
/// binds `key` to `value` only where `key` was not bound.
#[verifier::external_body]
pub(crate) fn insert_if_absent(
    m: &mut serde_json::Map<String, serde_json::Value>,
    key: String,
    value: serde_json::Value,
)
    ensures
        entries(*final(m)) == or_inserted(entries(*old(m)), key@, value_view(value)),
{
    m.entry(key).or_insert(value);
}

/// Trusted: copies the map with `Clone::clone` and takes the copy apart with
/// `IntoIterator::into_iter`. The result lists every entry once; nothing is
/// said of the order.
#[verifier::external_body]
pub(crate) fn pairs(m: &serde_json::Map<String, serde_json::Value>) -> (r: Vec<
    (String, serde_json::Value),
>)
    ensures
        lists(r@, entries(*m)),
{
    m.clone().into_iter().collect()
}

/// Trusted: calls `serde_json::Map::get`, which finds the value bound to `key`.
#[verifier::external_body]
pub(crate) fn get<'a>(m: &'a serde_json::Map<String, serde_json::Value>, key: &str) -> (r: Option<
    &'a serde_json::Value,
>)
    ensures
        r is Some <==> entries(*m).contains_key(key@),
        r matches Some(v) ==> value_view(*v) == entries(*m)[key@],
{
    m.get(key)
}

/// Trusted: calls `serde_json::Value::as_str`, which gives the characters of
/// a JSON string and nothing for any other value.
#[verifier::external_body]
pub(crate) fn text_of(v: &serde_json::Value) -> (r: Option<String>)
    ensures
        r is Some <==> value_view(*v) is Text,
        r matches Some(s) ==> value_view(*v) == JsonView::Text(s@),
{
    v.as_str().map(str::to_string)
}

/// Trusted: builds `serde_json::Value::String`, the JSON string with the
/// characters of `s`.
#[verifier::external_body]
pub(crate) fn json_string(s: &str) -> (r: serde_json::Value)
    ensures
        value_view(r) == JsonView::Text(s@),
{
    serde_json::Value::String(s.to_string())
}

/// Trusted: builds `serde_json::Value::Bool`, the JSON boolean `b`.
#[verifier::external_body]
pub(crate) fn json_flag(b: bool) -> (r: serde_json::Value)
    ensures
        value_view(r) == JsonView::Flag(b),
{
    serde_json::Value::Bool(b)
}

/// Trusted: calls `Clone::clone` of `serde_json::Map`, which copies every entry.
#[verifier::external_body]
pub(crate) fn clone_map(m: &serde_json::Map<String, serde_json::Value>) -> (r: serde_json::Map<
    String,
    serde_json::Value,
>)
    ensures
        entries(r) == entries(*m),
{
    m.clone()
}

/// Metadata without entries.
pub fn empty() -> (r: serde_json::Map<String, serde_json::Value>)
    ensures
        entries(r) == no_entries(),
{
    new_map()
}

/// Binds `key` to the JSON string `value`, replacing an earlier binding.
pub fn set_text(m: &mut serde_json::Map<String, serde_json::Value>, key: &str, value: &str)
    ensures
        entries(*final(m)) == entries(*old(m)).insert(key@, JsonView::Text(value@)),
{
    insert(m, key.to_owned(), json_string(value));
}

/// Binds `key` to the JSON boolean `value`, replacing an earlier binding.
pub fn set_flag(m: &mut serde_json::Map<String, serde_json::Value>, key: &str, value: bool)
    ensures
        entries(*final(m)) == entries(*old(m)).insert(key@, JsonView::Flag(value)),
{
    insert(m, key.to_owned(), json_flag(value));
}

/// The characters of the JSON string bound to `key`, if `key` is bound to one.
pub fn text_at(m: &serde_json::Map<String, serde_json::Value>, key: &str) -> (r: Option<String>)
    ensures
        r is Some <==> entries(*m).contains_key(key@) && entries(*m)[key@] is Text,
        r matches Some(s) ==> entries(*m)[key@] == JsonView::Text(s@),
{
    match get(m, key) {
        Some(v) => text_of(v),
        None => None,
    }
}

/// Adds to `dst` every entry of `src` whose key `dst` lacks: first write wins.
pub fn merge_missing(
    dst: &mut serde_json::Map<String, serde_json::Value>,
    src: &serde_json::Map<String, serde_json::Value>,
)
    ensures
        entries(*final(dst)) == first_wins(entries(*old(dst)), entries(*src)),
{
    let mut items = pairs(src);
    let ghost all = items@;
    let ghost before = entries(*dst);
    let ghost incoming = entries(*src);
    while items.len() > 0
        invariant
            lists(all, incoming),
            items@.len() <= all.len(),
            items@ == all.take(items@.len() as int),
            before == entries(*old(dst)),
            forall|k: Seq<char>| #[trigger]
                entries(*dst).contains_key(k) <==> before.contains_key(k) || exists|i: int|
                    items@.len() <= i < all.len() && #[trigger] all[i].0@ == k,
            forall|k: Seq<char>| #[trigger]
                entries(*dst).contains_key(k) ==> entries(*dst)[k] == if before.contains_key(k) {
                    before[k]
                } else {
                    incoming[k]
                },
        decreases items.len(),
    {
        let ghost n = items@.len() - 1;
        let ghost mid = entries(*dst);
        let (k, v) = items.pop().unwrap();
        assert(all[n].0@ == k@ && all[n].1 == v);
        insert_if_absent(dst, k, v);
        assert forall|x: Seq<char>| #[trigger]
            entries(*dst).contains_key(x) <==> before.contains_key(x) || exists|i: int|
                n <= i < all.len() && #[trigger] all[i].0@ == x by {
            if mid.contains_key(x) && !before.contains_key(x) {
                let i = choose|i: int| n + 1 <= i < all.len() && #[trigger] all[i].0@ == x;
                assert(n <= i < all.len() && all[i].0@ == x);
            }
            if exists|i: int| n <= i < all.len() && #[trigger] all[i].0@ == x {
                let i = choose|i: int| n <= i < all.len() && #[trigger] all[i].0@ == x;
                if i > n {
                    assert(n + 1 <= i < all.len() && all[i].0@ == x);
                    assert(mid.contains_key(x));
                }
            }
        }
    }
    assert(entries(*dst) =~= first_wins(before, incoming));
}

} // verus!
