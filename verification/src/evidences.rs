//! The roll-up of the evidence of every document into the global store.

use crate::evidence::{
    all_wf, distinct_keys, has_key, lemma_merged_keeps_wf, merged_into, position,
    EvidenceStore, EvidenceView,
};
use crate::sets::{lemma_joined, lemma_joined_absorbs};
use crate::text::same_text;
use vstd::prelude::*;

verus! {

/// The step that folds the evidence of all documents into the global store.
pub struct EvidencesPipeline;

/// `global` after every record of `records` is merged in, in order.
pub open spec fn folded(global: Seq<EvidenceView>, records: Seq<EvidenceView>) -> Seq<
    EvidenceView,
>
    decreases records.len(),
{
    if records.len() == 0 {
        global
    } else {
        merged_into(folded(global, records.drop_last()), records.last())
    }
}

/// The records of the stores of all documents, store after store. A store
/// that is kept at `global`, the place of the global store, is not the store
/// of a document and is left out.
pub open spec fn corpus(stores: Seq<EvidenceStore>, global: Seq<char>) -> Seq<EvidenceView>
    decreases stores.len(),
{
    if stores.len() == 0 {
        Seq::empty()
    } else if stores.last().location() == global {
        corpus(stores.drop_last(), global)
    } else {
        corpus(stores.drop_last(), global) + stores.last()@
    }
}

/// The number of scores that the records of `records` with the key `key` hold.
pub open spec fn scores_for(records: Seq<EvidenceView>, key: Seq<char>) -> nat
    decreases records.len(),
{
    if records.len() == 0 {
        0
    } else if records.last().key == key {
        scores_for(records.drop_last(), key) + records.last().confidences.len()
    } else {
        scores_for(records.drop_last(), key)
    }
}

/// Whether every document of `r` is listed by the record of `s` with the key of `r`.
pub open spec fn covers(s: Seq<EvidenceView>, r: EvidenceView) -> bool {
    has_key(s, r.key) && forall|d: Seq<char>|
        r.documents.contains(d) ==> s[position(s, r.key)].documents.contains(d)
}

/// Whether `t` has the records of `s` at their places, with all their documents.
pub open spec fn extends(t: Seq<EvidenceView>, s: Seq<EvidenceView>) -> bool {
    &&& t.len() >= s.len()
    &&& forall|i: int|
        0 <= i < s.len() ==> (#[trigger] t[i]).key == s[i].key && forall|d: Seq<char>|
            s[i].documents.contains(d) ==> t[i].documents.contains(d)
}

/// Whether `t` has the records of `s` with the same keys, documents and counts.
pub open spec fn same_documents(t: Seq<EvidenceView>, s: Seq<EvidenceView>) -> bool {
    &&& t.len() == s.len()
    &&& forall|i: int|
        0 <= i < s.len() ==> (#[trigger] t[i]).key == s[i].key && t[i].documents == s[i].documents
            && t[i].occurrences == s[i].occurrences
}

/// In a store with distinct keys a record stands at the place of its key.
proof fn lemma_position(s: Seq<EvidenceView>, i: int)
    requires
        distinct_keys(s),
        0 <= i < s.len(),
    ensures
        has_key(s, s[i].key),
        position(s, s[i].key) == i,
{
    assert(s[i].key == s[i].key);
    let p = position(s, s[i].key);
    assert(s[p].key == s[i].key);
}

/// Merging one record keeps the keys distinct and the store invariant, keeps
/// every record at its place with all its documents, and covers the record.
pub proof fn lemma_merged_into(s: Seq<EvidenceView>, r: EvidenceView)
    requires
        distinct_keys(s),
    ensures
        distinct_keys(merged_into(s, r)),
        all_wf(s) && r.wf() ==> all_wf(merged_into(s, r)),
        extends(merged_into(s, r), s),
        covers(merged_into(s, r), r),
{
    let t = merged_into(s, r);
    if has_key(s, r.key) {
        let p = position(s, r.key);
        assert(s[p].key == r.key);
        lemma_joined(s[p].documents, r.documents);
        if all_wf(s) && r.wf() {
            lemma_merged_keeps_wf(s[p], r);
            assert forall|i: int| 0 <= i < t.len() implies (#[trigger] t[i]).wf() by {
                if i != p {
                    assert(s[i].wf());
                }
            }
        }
        assert forall|i: int| 0 <= i < s.len() implies (#[trigger] t[i]).key == s[i].key
            && forall|d: Seq<char>| s[i].documents.contains(d) ==> t[i].documents.contains(d) by {
        }
        assert(distinct_keys(t)) by {
            assert forall|i: int, j: int| 0 <= i < j < t.len() implies (#[trigger] t[i]).key != (
            #[trigger] t[j]).key by {
                assert(s[i].key != s[j].key);
            }
        }
        assert(t[p].key == r.key);
        lemma_position(t, p);
    } else {
        let n = s.len() as int;
        assert(t[n] == r);
        assert(distinct_keys(t)) by {
            assert forall|i: int, j: int| 0 <= i < j < t.len() implies (#[trigger] t[i]).key != (
            #[trigger] t[j]).key by {
                if j < n {
                    assert(s[i].key != s[j].key);
                } else {
                    assert(s[i].key != r.key);
                }
            }
        }
        if all_wf(s) && r.wf() {
            assert forall|i: int| 0 <= i < t.len() implies (#[trigger] t[i]).wf() by {
                if i < n {
                    assert(s[i].wf());
                }
            }
        }
        lemma_position(t, n);
    }
}

/// Extension is transitive, and what a store covers, its extensions cover.
proof fn lemma_extends(u: Seq<EvidenceView>, t: Seq<EvidenceView>, s: Seq<EvidenceView>)
    requires
        distinct_keys(u),
        distinct_keys(t),
        extends(u, t),
        extends(t, s),
    ensures
        extends(u, s),
        forall|r: EvidenceView| covers(t, r) ==> covers(u, r),
{
    assert forall|i: int| 0 <= i < s.len() implies (#[trigger] u[i]).key == s[i].key && forall|
        d: Seq<char>,
    |
        s[i].documents.contains(d) ==> u[i].documents.contains(d) by {
        assert(t[i].key == s[i].key);
    }
    assert forall|r: EvidenceView| covers(t, r) implies covers(u, r) by {
        let p = position(t, r.key);
        assert(t[p].key == r.key);
        assert(u[p].key == t[p].key);
        lemma_position(u, p);
    }
}

/// A roll-up keeps the keys distinct and the store invariant, keeps every
/// record of the store at its place with all its documents, and covers every
/// record that was folded in.
pub proof fn lemma_folded(global: Seq<EvidenceView>, records: Seq<EvidenceView>)
    requires
        distinct_keys(global),
    ensures
        distinct_keys(folded(global, records)),
        all_wf(global) && all_wf(records) ==> all_wf(folded(global, records)),
        extends(folded(global, records), global),
        forall|j: int| 0 <= j < records.len() ==> covers(folded(global, records), #[trigger] records[j]),
    decreases records.len(),
{
    if records.len() > 0 {
        let before = folded(global, records.drop_last());
        let after = folded(global, records);
        lemma_folded(global, records.drop_last());
        lemma_merged_into(before, records.last());
        lemma_extends(after, before, global);
        if all_wf(global) && all_wf(records) {
            assert forall|i: int| 0 <= i < records.drop_last().len() implies (
            #[trigger] records.drop_last()[i]).wf() by {
                assert(records[i].wf());
            }
            assert(records[records.len() - 1].wf());
        }
        assert forall|j: int| 0 <= j < records.len() implies covers(after, #[trigger] records[j]) by {
            if j < records.len() - 1 {
                assert(records.drop_last()[j] == records[j]);
                assert(covers(before, records.drop_last()[j]));
            }
        }
    }
}

/// Folding into a store records that it covers leaves keys, documents and
/// counts as they are and appends the scores of each record once more.
pub proof fn lemma_folded_again(store: Seq<EvidenceView>, records: Seq<EvidenceView>)
    requires
        distinct_keys(store),
        forall|j: int| 0 <= j < records.len() ==> covers(store, #[trigger] records[j]),
    ensures
        same_documents(folded(store, records), store),
        forall|i: int|
            0 <= i < store.len() ==> (#[trigger] folded(store, records)[i]).confidences.len()
                == store[i].confidences.len() + scores_for(records, store[i].key),
    decreases records.len(),
{
    if records.len() > 0 {
        let rest = records.drop_last();
        let r = records.last();
        let before = folded(store, rest);
        let after = folded(store, records);
        assert forall|j: int| 0 <= j < rest.len() implies covers(store, #[trigger] rest[j]) by {
            assert(rest[j] == records[j]);
        }
        lemma_folded_again(store, rest);
        assert(covers(store, records[records.len() - 1]));
        let p = position(store, r.key);
        assert(store[p].key == r.key);
        assert(distinct_keys(before)) by {
            assert forall|i: int, j: int| 0 <= i < j < before.len() implies (
            #[trigger] before[i]).key != (#[trigger] before[j]).key by {
                assert(store[i].key != store[j].key);
            }
        }
        assert(before[p].key == r.key);
        lemma_position(before, p);
        lemma_joined_absorbs(before[p].documents, r.documents);
        assert(after == before.update(p, before[p].merged(r)));
        assert forall|i: int| 0 <= i < store.len() implies (#[trigger] after[i]).confidences.len()
            == store[i].confidences.len() + scores_for(records, store[i].key) by {
            assert(before[i].confidences.len() == store[i].confidences.len() + scores_for(
                rest,
                store[i].key,
            ));
            if i != p {
                assert(store[i].key != store[p].key);
            }
        }
    }
}

/// Running the roll-up a second time over an unchanged corpus leaves the
/// keys, the documents and the counts of every record as the first run left
/// them, and appends to each record the scores of its key in the corpus once
/// more: the sample of scores grows though nothing new was seen.
pub proof fn lemma_second_run(global: Seq<EvidenceView>, records: Seq<EvidenceView>)
    requires
        distinct_keys(global),
    ensures
        same_documents(folded(folded(global, records), records), folded(global, records)),
        forall|i: int|
            0 <= i < folded(global, records).len() ==> (#[trigger] folded(
                folded(global, records),
                records,
            )[i]).confidences.len() == folded(global, records)[i].confidences.len() + scores_for(
                records,
                folded(global, records)[i].key,
            ),
{
    lemma_folded(global, records);
    lemma_folded_again(folded(global, records), records);
}

/// Folding in two runs of records is folding in the first and then the second.
pub proof fn lemma_folded_concat(global: Seq<EvidenceView>, a: Seq<EvidenceView>, b: Seq<EvidenceView>)
    ensures
        folded(global, a + b) == folded(folded(global, a), b),
    decreases b.len(),
{
    if b.len() == 0 {
        assert(a + b == a);
    } else {
        lemma_folded_concat(global, a, b.drop_last());
        assert((a + b).drop_last() == a + b.drop_last());
        assert((a + b).last() == b.last());
    }
}

impl EvidencesPipeline {
    /// The name of the step in run records.
    pub fn name() -> (r: &'static str)
        ensures
            r@ == "evidences"@,
    {
        "evidences"
    }

    /// Merges every record of the store of one document into `global`.
    pub fn absorb(global: &mut EvidenceStore, local: &EvidenceStore)
        requires
            old(global).wf(),
            local.wf(),
        ensures
            final(global)@ == folded(old(global)@, local@),
            final(global).wf(),
            final(global).location() == old(global).location(),
    {
        let records = local.all();
        let mut i: usize = 0;
        assert(local@.take(0) =~= Seq::<EvidenceView>::empty());
        while i < records.len()
            invariant
                i <= records.len(),
                records@.len() == local@.len(),
                forall|j: int| 0 <= j < records@.len() ==> (#[trigger] records@[j])@ == local@[j],
                local.wf(),
                global.wf(),
                global@ == folded(old(global)@, local@.take(i as int)),
                global.location() == old(global).location(),
            decreases records.len() - i,
        {
            proof {
                let next = local@.take(i + 1);
                assert(next.drop_last() == local@.take(i as int));
                assert(next.last() == records@[i as int]@);
                assert(local@[i as int].wf());
            }
            global.merge_record(records[i]);
            i += 1;
        }
        assert(local@.take(local@.len() as int) == local@);
    }

    /// Merges every record of the stores of all documents into `global`,
    /// store after store. A store among `stores` that is kept where
    /// `global` is kept is skipped: the global store is not folded into
    /// itself.
    pub fn aggregate(global: &mut EvidenceStore, stores: &Vec<EvidenceStore>)
        requires
            old(global).wf(),
            forall|i: int| 0 <= i < stores@.len() ==> (#[trigger] stores@[i]).wf(),
        ensures
            final(global)@ == folded(old(global)@, corpus(stores@, old(global).location())),
            final(global).wf(),
            final(global).location() == old(global).location(),
    {
        let mut i: usize = 0;
        let ghost at = global.location();
        assert(stores@.take(0) =~= Seq::<EvidenceStore>::empty());
        while i < stores.len()
            invariant
                i <= stores.len(),
                at == old(global).location(),
                forall|j: int| 0 <= j < stores@.len() ==> (#[trigger] stores@[j]).wf(),
                global.wf(),
                global@ == folded(old(global)@, corpus(stores@.take(i as int), at)),
                global.location() == at,
            decreases stores.len() - i,
        {
            proof {
                let next = stores@.take(i + 1);
                assert(next.drop_last() == stores@.take(i as int));
                assert(next.last() == stores@[i as int]);
                lemma_folded_concat(
                    old(global)@,
                    corpus(stores@.take(i as int), at),
                    stores@[i as int]@,
                );
            }
            if !same_text(stores[i].path().as_str(), global.path().as_str()) {
                Self::absorb(global, &stores[i]);
            }
            i += 1;
        }
        assert(stores@.take(stores@.len() as int) == stores@);
    }
}

} // verus!
