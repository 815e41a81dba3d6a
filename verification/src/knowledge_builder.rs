//! The derivation of knowledge from the global evidence store.

use crate::clock::now_rfc3339;
use crate::evidence::{EvidenceRecord, EvidenceStore, EvidenceView};
use crate::knowledge::{
    distinct_ids, has_id, lemma_updated_with, place_of, updated_with, KnowledgeRecord,
    KnowledgeStore, KnowledgeView, Status,
};
use crate::metadata::first_wins;
use crate::sets::{copy_texts, lemma_joined, lemma_joined_absorbs};
use crate::text::{lowercase_of, to_lowercase};
use vstd::prelude::*;
use vstd::string::*;

verus! {

/// The step that derives candidate knowledge from evidence and merges it
/// into the knowledge store.
pub struct KnowledgeBuilder;

/// How many records one run of the builder created and how many it merged
/// into records that were there.
#[derive(Debug)]
pub struct BuildReport {
    pub created: usize,
    pub updated: usize,
}

/// The id of the knowledge that an evidence record backs: subject type,
/// subject, predicate and object, each in lowercase.
pub open spec fn id_of(ev: EvidenceView) -> Seq<char> {
    lowercase_of(ev.subject_type) + ":"@ + lowercase_of(ev.subject_value) + "|"@ + lowercase_of(
        ev.predicate,
    ) + "|"@ + lowercase_of(ev.object_value)
}

/// The candidate that an evidence record gives rise to at `now`: its triple,
/// its documents, and the mean of its scores as the confidence.
pub open spec fn derived(ev: EvidenceView, now: Seq<char>) -> KnowledgeView {
    KnowledgeView::candidate(
        id_of(ev),
        ev.subject_type,
        ev.subject_value,
        ev.predicate,
        ev.object_value,
        ev.avg_confidence() as u32,
        "KNOWLEDGE_BUILDER"@,
        ev.documents,
        now,
    )
}

/// The knowledge after the candidate of every evidence record is appended or
/// merged at `now`, in order.
pub open spec fn built(knowledge: Seq<KnowledgeView>, evidence: Seq<EvidenceView>, now: Seq<char>) -> Seq<
    KnowledgeView,
>
    decreases evidence.len(),
{
    if evidence.len() == 0 {
        knowledge
    } else {
        updated_with(built(knowledge, evidence.drop_last(), now), derived(evidence.last(), now), now)
    }
}

/// A run of the builder keeps every record at its place under its id, keeps
/// an approved record approved, and lowers no confidence.
pub proof fn lemma_built(knowledge: Seq<KnowledgeView>, evidence: Seq<EvidenceView>, now: Seq<char>)
    requires
        distinct_ids(knowledge),
    ensures
        distinct_ids(built(knowledge, evidence, now)),
        knowledge.len() <= built(knowledge, evidence, now).len() <= knowledge.len() + evidence.len(),
        forall|i: int|
            0 <= i < knowledge.len() ==> (#[trigger] built(knowledge, evidence, now)[i]).id
                == knowledge[i].id && built(knowledge, evidence, now)[i].confidence
                >= knowledge[i].confidence && (knowledge[i].status == Status::Approved ==> built(
                knowledge,
                evidence,
                now,
            )[i].status == Status::Approved),
    decreases evidence.len(),
{
    if evidence.len() > 0 {
        let before = built(knowledge, evidence.drop_last(), now);
        lemma_built(knowledge, evidence.drop_last(), now);
        lemma_updated_with(before, derived(evidence.last(), now), now);
        let after = built(knowledge, evidence, now);
        assert forall|i: int| 0 <= i < knowledge.len() implies (#[trigger] after[i]).id
            == knowledge[i].id && after[i].confidence >= knowledge[i].confidence && (
        knowledge[i].status == Status::Approved ==> after[i].status == Status::Approved) by {
            assert(before[i].id == knowledge[i].id);
        }
    }
}

/// Whether the knowledge `k` already holds what the evidence record `e`
/// gives rise to: a record under its id, approved or a candidate, with at
/// least its confidence and with all its documents.
pub open spec fn backs(k: Seq<KnowledgeView>, e: EvidenceView) -> bool {
    &&& has_id(k, id_of(e))
    &&& k[place_of(k, id_of(e))].confidence >= e.avg_confidence() as u32
    &&& k[place_of(k, id_of(e))].status != Status::Deprecated
    &&& forall|d: Seq<char>|
        e.documents.contains(d) ==> k[place_of(k, id_of(e))].source_documents.contains(d)
}

/// Whether two records state the same, but for the time of the last update.
pub open spec fn same_facts(a: KnowledgeView, b: KnowledgeView) -> bool {
    a == (KnowledgeView { updated_at: a.updated_at, ..b })
}

/// With distinct ids a record stands at the place of its id.
proof fn lemma_place(s: Seq<KnowledgeView>, i: int)
    requires
        distinct_ids(s),
        0 <= i < s.len(),
    ensures
        has_id(s, s[i].id),
        place_of(s, s[i].id) == i,
{
    assert(s[i].id == s[i].id);
    let p = place_of(s, s[i].id);
    assert(s[p].id == s[i].id);
}

/// Appending or merging the candidate of `e` makes the knowledge back `e`,
/// and it goes on backing whatever it backed.
proof fn lemma_update_backs(s: Seq<KnowledgeView>, e: EvidenceView, now: Seq<char>)
    requires
        distinct_ids(s),
    ensures
        backs(updated_with(s, derived(e, now), now), e),
        forall|x: EvidenceView| backs(s, x) ==> backs(updated_with(s, derived(e, now), now), x),
{
    let inc = derived(e, now);
    let t = updated_with(s, inc, now);
    lemma_updated_with(s, inc, now);
    if has_id(s, inc.id) {
        let p = place_of(s, inc.id);
        assert(s[p].id == inc.id);
        lemma_joined(s[p].source_documents, inc.source_documents);
        assert(t[p].id == inc.id);
        lemma_place(t, p);
    } else {
        assert(t[s.len() as int] == inc);
        lemma_place(t, s.len() as int);
    }
    assert forall|x: EvidenceView| backs(s, x) implies backs(t, x) by {
        let q = place_of(s, id_of(x));
        assert(s[q].id == id_of(x));
        assert(t[q].id == s[q].id);
        lemma_place(t, q);
        if has_id(s, inc.id) && q == place_of(s, inc.id) {
            lemma_joined(s[q].source_documents, inc.source_documents);
        }
    }
}

/// A run of the builder makes the knowledge back every evidence record.
pub proof fn lemma_built_backs(knowledge: Seq<KnowledgeView>, evidence: Seq<EvidenceView>, now: Seq<char>)
    requires
        distinct_ids(knowledge),
    ensures
        forall|j: int| 0 <= j < evidence.len() ==> backs(built(knowledge, evidence, now), #[trigger] evidence[j]),
    decreases evidence.len(),
{
    if evidence.len() > 0 {
        let before = built(knowledge, evidence.drop_last(), now);
        lemma_built(knowledge, evidence.drop_last(), now);
        lemma_built_backs(knowledge, evidence.drop_last(), now);
        lemma_update_backs(before, evidence.last(), now);
        let after = built(knowledge, evidence, now);
        assert forall|j: int| 0 <= j < evidence.len() implies backs(after, #[trigger] evidence[j]) by {
            if j < evidence.len() - 1 {
                assert(evidence.drop_last()[j] == evidence[j]);
                assert(backs(before, evidence.drop_last()[j]));
            }
        }
    }
}

/// A run of the builder over evidence that the knowledge backs changes
/// nothing but the times of the last update.
pub proof fn lemma_built_again(knowledge: Seq<KnowledgeView>, evidence: Seq<EvidenceView>, now: Seq<char>)
    requires
        distinct_ids(knowledge),
        forall|j: int| 0 <= j < evidence.len() ==> backs(knowledge, #[trigger] evidence[j]),
    ensures
        built(knowledge, evidence, now).len() == knowledge.len(),
        forall|i: int|
            0 <= i < knowledge.len() ==> same_facts(#[trigger] built(knowledge, evidence, now)[i], knowledge[i]),
    decreases evidence.len(),
{
    if evidence.len() > 0 {
        let rest = evidence.drop_last();
        let e = evidence.last();
        let before = built(knowledge, rest, now);
        let after = built(knowledge, evidence, now);
        assert forall|j: int| 0 <= j < rest.len() implies backs(knowledge, #[trigger] rest[j]) by {
            assert(rest[j] == evidence[j]);
        }
        lemma_built_again(knowledge, rest, now);
        lemma_built(knowledge, rest, now);
        assert(backs(knowledge, evidence[evidence.len() - 1]));
        let p = place_of(knowledge, id_of(e));
        assert(knowledge[p].id == id_of(e));
        assert(same_facts(before[p], knowledge[p]));
        assert(before[p].id == id_of(e));
        lemma_place(before, p);
        let inc = derived(e, now);
        lemma_joined_absorbs(before[p].source_documents, inc.source_documents);
        assert(first_wins(before[p].extra, inc.extra) =~= before[p].extra);
        assert(after == before.update(p, before[p].merged(inc, now)));
        assert forall|i: int| 0 <= i < knowledge.len() implies same_facts(
            #[trigger] after[i],
            knowledge[i],
        ) by {
            assert(same_facts(before[i], knowledge[i]));
        }
    }
}

/// Running the builder a second time over unchanged evidence leaves every
/// record as the first run left it, but for the time of the last update:
/// ids, confidences, documents and statuses are stable.
pub proof fn lemma_rebuild_is_stable(
    knowledge: Seq<KnowledgeView>,
    evidence: Seq<EvidenceView>,
    first: Seq<char>,
    second: Seq<char>,
)
    requires
        distinct_ids(knowledge),
    ensures
        built(built(knowledge, evidence, first), evidence, second).len() == built(
            knowledge,
            evidence,
            first,
        ).len(),
        forall|i: int|
            0 <= i < built(knowledge, evidence, first).len() ==> same_facts(
                #[trigger] built(built(knowledge, evidence, first), evidence, second)[i],
                built(knowledge, evidence, first)[i],
            ),
{
    lemma_built(knowledge, evidence, first);
    lemma_built_backs(knowledge, evidence, first);
    lemma_built_again(built(knowledge, evidence, first), evidence, second);
}

impl KnowledgeBuilder {
    /// The name of the step in run records.
    pub fn name() -> (r: &'static str)
        ensures
            r@ == "knowledge-builder"@,
    {
        "knowledge-builder"
    }

    /// The id of the knowledge that `ev` backs.
    pub fn knowledge_id(ev: &EvidenceRecord) -> (r: String)
        ensures
            r@ == id_of(ev@),
    {
        let mut id = to_lowercase(ev.subject_type.as_str());
        id.append(":");
        id.append(to_lowercase(ev.subject_value.as_str()).as_str());
        id.append("|");
        id.append(to_lowercase(ev.predicate.as_str()).as_str());
        id.append("|");
        id.append(to_lowercase(ev.object_value.as_str()).as_str());
        id
    }

    /// The candidate that `ev` gives rise to at `now`.
    pub fn derive_at(ev: &EvidenceRecord, now: &str) -> (r: KnowledgeRecord)
        ensures
            r@ == derived(ev@, now@),
    {
        KnowledgeRecord::new_at(
            Self::knowledge_id(ev),
            ev.subject_type.clone(),
            ev.subject_value.clone(),
            ev.predicate.clone(),
            ev.object_value.clone(),
            ev.avg_confidence(),
            "KNOWLEDGE_BUILDER",
            copy_texts(&ev.documents),
            now,
        )
    }

    /// Derives a candidate from every record of `evidence` and appends or
    /// merges it into `knowledge`, all at `now`.
    pub fn build_at(evidence: &EvidenceStore, knowledge: &mut KnowledgeStore, now: &str) -> (r:
        BuildReport)
        requires
            old(knowledge).wf(),
        ensures
            final(knowledge)@ == built(old(knowledge)@, evidence@, now@),
            final(knowledge).wf(),
            final(knowledge).cluster_view() == old(knowledge).cluster_view(),
            final(knowledge).location() == old(knowledge).location(),
            r.created == final(knowledge)@.len() - old(knowledge)@.len(),
            r.created + r.updated == evidence@.len(),
            forall|i: int|
                0 <= i < old(knowledge)@.len() ==> (#[trigger] final(knowledge)@[i]).id == old(
                    knowledge,
                )@[i].id && final(knowledge)@[i].confidence >= old(knowledge)@[i].confidence && (
                old(knowledge)@[i].status == Status::Approved ==> final(knowledge)@[i].status
                    == Status::Approved),
    {
        let records = evidence.all();
        let mut created: usize = 0;
        let mut updated: usize = 0;
        let mut i: usize = 0;
        assert(evidence@.take(0) =~= Seq::<EvidenceView>::empty());
        while i < records.len()
            invariant
                i <= records.len(),
                records@.len() == evidence@.len(),
                forall|j: int| 0 <= j < records@.len() ==> (#[trigger] records@[j])@ == evidence@[j],
                knowledge.wf(),
                knowledge@ == built(old(knowledge)@, evidence@.take(i as int), now@),
                knowledge.cluster_view() == old(knowledge).cluster_view(),
                knowledge.location() == old(knowledge).location(),
                created == knowledge@.len() - old(knowledge)@.len(),
                created + updated == i,
            decreases records.len() - i,
        {
            proof {
                let next = evidence@.take(i + 1);
                assert(next.drop_last() == evidence@.take(i as int));
                assert(next.last() == records@[i as int]@);
            }
            let candidate = Self::derive_at(records[i], now);
            let known = knowledge.get_by_id(candidate.id.as_str()).is_some();
            knowledge.append_or_update_at(candidate, now);
            if known {
                updated += 1;
            } else {
                created += 1;
            }
            i += 1;
        }
        proof {
            assert(evidence@.take(evidence@.len() as int) == evidence@);
            lemma_built(old(knowledge)@, evidence@, now@);
        }
        BuildReport { created, updated }
    }

    /// Derives a candidate from every record of `evidence` and appends or
    /// merges it into `knowledge`, all at the time of the call.
    pub fn build(evidence: &EvidenceStore, knowledge: &mut KnowledgeStore) -> (r: BuildReport)
        requires
            old(knowledge).wf(),
        ensures
            exists|now: Seq<char>|
                final(knowledge)@ == #[trigger] built(old(knowledge)@, evidence@, now),
            final(knowledge).wf(),
            final(knowledge).cluster_view() == old(knowledge).cluster_view(),
            final(knowledge).location() == old(knowledge).location(),
            r.created == final(knowledge)@.len() - old(knowledge)@.len(),
            r.created + r.updated == evidence@.len(),
            forall|i: int|
                0 <= i < old(knowledge)@.len() ==> (#[trigger] final(knowledge)@[i]).id == old(
                    knowledge,
                )@[i].id && final(knowledge)@[i].confidence >= old(knowledge)@[i].confidence && (
                old(knowledge)@[i].status == Status::Approved ==> final(knowledge)@[i].status
                    == Status::Approved),
    {
        let now = now_rfc3339();
        Self::build_at(evidence, knowledge, now.as_str())
    }
}

} // verus!
