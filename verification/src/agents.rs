//! What the extraction agents contribute to the evidence of a document: the
//! keys under which their findings are filed, and the filing itself. The
//! agents' questions to a language model are asked elsewhere; this module
//! takes the answers.

use crate::clock::now_rfc3339;
use crate::evidence::{reported_into, EvidenceRecord, EvidenceStore, EvidenceView};
use crate::metadata::{no_entries, set_flag, JsonView};
use crate::signals::{entity_views, Entity, EntityView};
use crate::sets::texts;
use crate::text::{
    chars_of, drop_suffixes, lowercase_of, matches_at, same_but_ascii_case,
    same_text_ignoring_ascii_case, skip_prefixes, strip_prefixes, strip_suffixes, to_lowercase,
    trim_window, trimmed,
};
use vstd::prelude::*;
use vstd::string::*;

verus! {

/// The agent that looks for relations between any two entities of a document.
pub struct ContextRelationAgent {
    pub openai_api_key: String,
}

/// The agent that looks for relations between persons and organizations.
pub struct PersonRelationAgent {
    pub openai_api_key: String,
}

/// A relation between two entities, as the context agent proposes it.
#[derive(Debug)]
pub struct RelationCandidate {
    pub from_type: String,
    pub from: String,
    pub to_type: String,
    pub to: String,
    pub confidence: u32,
}

/// The mathematical content of a `RelationCandidate`.
pub struct RelationCandidateView {
    pub from_type: Seq<char>,
    pub from: Seq<char>,
    pub to_type: Seq<char>,
    pub to: Seq<char>,
    pub confidence: u32,
}

impl View for RelationCandidate {
    type V = RelationCandidateView;

    open spec fn view(&self) -> RelationCandidateView {
        RelationCandidateView {
            from_type: self.from_type@,
            from: self.from@,
            to_type: self.to_type@,
            to: self.to@,
            confidence: self.confidence,
        }
    }
}

/// A relation between a person and an organization, as the person agent
/// proposes it.
#[derive(Debug)]
pub struct PersonCandidate {
    pub person: String,
    pub organization: String,
    pub confidence: u32,
}

/// The mathematical content of a `PersonCandidate`.
pub struct PersonCandidateView {
    pub person: Seq<char>,
    pub organization: Seq<char>,
    pub confidence: u32,
}

impl View for PersonCandidate {
    type V = PersonCandidateView;

    open spec fn view(&self) -> PersonCandidateView {
        PersonCandidateView {
            person: self.person@,
            organization: self.organization@,
            confidence: self.confidence,
        }
    }
}

/// The views of a sequence of relation candidates.
pub open spec fn relation_views(cs: Seq<RelationCandidate>) -> Seq<RelationCandidateView> {
    cs.map_values(|c: RelationCandidate| c@)
}

/// The views of a sequence of person candidates.
pub open spec fn person_views(cs: Seq<PersonCandidate>) -> Seq<PersonCandidateView> {
    cs.map_values(|c: PersonCandidate| c@)
}

/// An answer without the code fence that a model may have put around it:
/// the answer is trimmed; if it then starts with a fence, every leading
/// `` ```json `` and `` ``` `` and every trailing `` ``` `` is removed and
/// the rest is trimmed again.
pub open spec fn unfenced(s: Seq<char>) -> Seq<char> {
    let t = trimmed(s);
    if "```"@.is_prefix_of(t) {
        trimmed(strip_suffixes(strip_prefixes(strip_prefixes(t, "```json"@), "```"@), "```"@))
    } else {
        t
    }
}

/// The key of the evidence for a relation that the context agent proposes.
pub open spec fn context_key(c: RelationCandidateView) -> Seq<char> {
    lowercase_of(c.from_type) + ":"@ + lowercase_of(c.from) + "|associated_with|"@ + lowercase_of(
        c.to_type,
    ) + ":"@ + lowercase_of(c.to)
}

/// The evidence record, new at `now`, for a relation that the context agent
/// proposes.
pub open spec fn context_record(c: RelationCandidateView, now: Seq<char>) -> EvidenceView {
    EvidenceView::fresh(context_key(c), c.from_type, c.from, "associated_with"@, c.to, now)
}

/// `store` after the context agent filed `cs` for the document `document`
/// at `now`: each candidate with a confidence above zero is a report of its
/// relation; the others are left out.
pub open spec fn context_filed(
    store: Seq<EvidenceView>,
    cs: Seq<RelationCandidateView>,
    document: Seq<char>,
    now: Seq<char>,
) -> Seq<EvidenceView>
    decreases cs.len(),
{
    if cs.len() == 0 {
        store
    } else {
        let before = context_filed(store, cs.drop_last(), document, now);
        let c = cs.last();
        if c.confidence == 0 {
            before
        } else {
            reported_into(
                before,
                context_record(c, now),
                document,
                c.confidence,
                "CONTEXT_RELATION_AGENT"@,
                now,
            )
        }
    }
}

/// The key of the evidence for a relation that the person agent proposes.
pub open spec fn person_key(c: PersonCandidateView) -> Seq<char> {
    "person:"@ + lowercase_of(c.person) + "|associated_with|"@ + lowercase_of(c.organization)
}

/// The evidence record, new at `now`, for a relation that the person agent
/// proposes. Its metadata says that no role was proposed.
pub open spec fn person_record(c: PersonCandidateView, now: Seq<char>) -> EvidenceView {
    EvidenceView {
        extra: no_entries().insert("role_candidate"@, JsonView::Flag(false)),
        ..EvidenceView::fresh(
            person_key(c),
            "person"@,
            c.person,
            "associated_with"@,
            c.organization,
            now,
        )
    }
}

/// `store` after the person agent filed `cs` for the document `document`
/// at `now`: each candidate with a confidence above zero is a report of its
/// relation; the others are left out.
pub open spec fn person_filed(
    store: Seq<EvidenceView>,
    cs: Seq<PersonCandidateView>,
    document: Seq<char>,
    now: Seq<char>,
) -> Seq<EvidenceView>
    decreases cs.len(),
{
    if cs.len() == 0 {
        store
    } else {
        let before = person_filed(store, cs.drop_last(), document, now);
        let c = cs.last();
        if c.confidence == 0 {
            before
        } else {
            reported_into(
                before,
                person_record(c, now),
                document,
                c.confidence,
                "PERSON_RELATION_AGENT"@,
                now,
            )
        }
    }
}

/// The texts of the entities whose type is `kind` but for the case of ASCII
/// letters, in order.
pub open spec fn of_kind(es: Seq<EntityView>, kind: Seq<char>) -> Seq<Seq<char>>
    decreases es.len(),
{
    if es.len() == 0 {
        Seq::empty()
    } else if same_but_ascii_case(es.last().entity_type, kind) {
        of_kind(es.drop_last(), kind).push(es.last().text)
    } else {
        of_kind(es.drop_last(), kind)
    }
}

/// An answer without the code fence that a model may have put around it.
pub fn strip_json_fences(s: &str) -> (r: &str)
    ensures
        r@ == unfenced(s@),
{
    let cs = chars_of(s);
    let fence = chars_of("```");
    let json_fence = chars_of("```json");
    proof {
        reveal_strlit("```");
        reveal_strlit("```json");
        assert(cs@.subrange(0, cs@.len() as int) == cs@);
    }
    let (a, b) = trim_window(&cs, 0, cs.len());
    if !matches_at(&cs, a, b, &fence) {
        return s.substring_char(a, b);
    }
    let a1 = skip_prefixes(&cs, a, b, &json_fence);
    let a2 = skip_prefixes(&cs, a1, b, &fence);
    let b1 = drop_suffixes(&cs, a2, b, &fence);
    let (a3, b3) = trim_window(&cs, a2, b1);
    s.substring_char(a3, b3)
}

/// The texts of the entities of the type `kind`, whatever the case of its
/// ASCII letters.
pub fn entities_of_kind(entities: &Vec<Entity>, kind: &str) -> (r: Vec<String>)
    ensures
        texts(r@) == of_kind(entity_views(entities@), kind@),
{
    let mut out: Vec<String> = Vec::new();
    let ghost all = entity_views(entities@);
    let mut i: usize = 0;
    assert(all.take(0) =~= Seq::<EntityView>::empty());
    assert(texts(out@) =~= Seq::<Seq<char>>::empty());
    while i < entities.len()
        invariant
            i <= entities.len(),
            all == entity_views(entities@),
            texts(out@) == of_kind(all.take(i as int), kind@),
        decreases entities.len() - i,
    {
        let e = &entities[i];
        proof {
            let next = all.take(i + 1);
            assert(next.drop_last() == all.take(i as int));
            assert(next.last() == e@);
        }
        if same_text_ignoring_ascii_case(e.entity_type.as_str(), kind) {
            let ghost before = texts(out@);
            out.push(e.text.clone());
            assert(texts(out@) =~= before.push(e@.text));
        }
        i += 1;
    }
    assert(all.take(entities@.len() as int) == all);
    out
}

impl ContextRelationAgent {
    /// The name under which the agent files evidence.
    pub fn name() -> (r: &'static str)
        ensures
            r@ == "CONTEXT_RELATION_AGENT"@,
    {
        "CONTEXT_RELATION_AGENT"
    }

    /// Whether a document has enough entities for the agent to ask about:
    /// at least two.
    pub fn applies(entities: &Vec<Entity>) -> (r: bool)
        ensures
            r == (entities@.len() >= 2),
    {
        entities.len() >= 2
    }

    /// The key of the evidence for `c`.
    pub fn evidence_key(c: &RelationCandidate) -> (r: String)
        ensures
            r@ == context_key(c@),
    {
        let mut key = to_lowercase(c.from_type.as_str());
        key.append(":");
        key.append(to_lowercase(c.from.as_str()).as_str());
        key.append("|associated_with|");
        key.append(to_lowercase(c.to_type.as_str()).as_str());
        key.append(":");
        key.append(to_lowercase(c.to.as_str()).as_str());
        key
    }

    /// Files `candidates` for the document `document_id` at `now`.
    pub fn file_at(
        store: &mut EvidenceStore,
        candidates: &Vec<RelationCandidate>,
        document_id: &str,
        now: &str,
    )
        requires
            old(store).wf(),
        ensures
            final(store)@ == context_filed(
                old(store)@,
                relation_views(candidates@),
                document_id@,
                now@,
            ),
            final(store).wf(),
            final(store).location() == old(store).location(),
    {
        let ghost all = relation_views(candidates@);
        let mut i: usize = 0;
        assert(all.take(0) =~= Seq::<RelationCandidateView>::empty());
        while i < candidates.len()
            invariant
                i <= candidates.len(),
                all == relation_views(candidates@),
                store.wf(),
                store@ == context_filed(old(store)@, all.take(i as int), document_id@, now@),
                store.location() == old(store).location(),
            decreases candidates.len() - i,
        {
            let c = &candidates[i];
            proof {
                let next = all.take(i + 1);
                assert(next.drop_last() == all.take(i as int));
                assert(next.last() == c@);
            }
            if c.confidence != 0 {
                let record = EvidenceRecord::new_at(
                    Self::evidence_key(c),
                    c.from_type.clone(),
                    c.from.clone(),
                    "associated_with".to_owned(),
                    c.to.clone(),
                    now,
                );
                store.add_or_update_at(record, document_id, c.confidence, Self::name(), now);
            }
            i += 1;
        }
        assert(all.take(candidates@.len() as int) == all);
    }

    /// Files `candidates` for the document `document_id` now.
    pub fn file(store: &mut EvidenceStore, candidates: &Vec<RelationCandidate>, document_id: &str)
        requires
            old(store).wf(),
        ensures
            exists|now: Seq<char>|
                final(store)@ == #[trigger] context_filed(
                    old(store)@,
                    relation_views(candidates@),
                    document_id@,
                    now,
                ),
            final(store).wf(),
            final(store).location() == old(store).location(),
    {
        let now = now_rfc3339();
        Self::file_at(store, candidates, document_id, now.as_str());
    }
}

impl PersonRelationAgent {
    /// The name under which the agent files evidence.
    pub fn name() -> (r: &'static str)
        ensures
            r@ == "PERSON_RELATION_AGENT"@,
    {
        "PERSON_RELATION_AGENT"
    }

    /// Whether a document gives the agent something to ask about: at least
    /// one person and at least one organization.
    pub fn applies(persons: &Vec<String>, organizations: &Vec<String>) -> (r: bool)
        ensures
            r == (persons@.len() > 0 && organizations@.len() > 0),
    {
        persons.len() > 0 && organizations.len() > 0
    }

    /// The key of the evidence for `c`.
    pub fn evidence_key(c: &PersonCandidate) -> (r: String)
        ensures
            r@ == person_key(c@),
    {
        let mut key = "person:".to_owned();
        key.append(to_lowercase(c.person.as_str()).as_str());
        key.append("|associated_with|");
        key.append(to_lowercase(c.organization.as_str()).as_str());
        key
    }

    /// Files `candidates` for the document `document_id` at `now`.
    pub fn file_at(
        store: &mut EvidenceStore,
        candidates: &Vec<PersonCandidate>,
        document_id: &str,
        now: &str,
    )
        requires
            old(store).wf(),
        ensures
            final(store)@ == person_filed(old(store)@, person_views(candidates@), document_id@, now@),
            final(store).wf(),
            final(store).location() == old(store).location(),
    {
        let ghost all = person_views(candidates@);
        let mut i: usize = 0;
        assert(all.take(0) =~= Seq::<PersonCandidateView>::empty());
        while i < candidates.len()
            invariant
                i <= candidates.len(),
                all == person_views(candidates@),
                store.wf(),
                store@ == person_filed(old(store)@, all.take(i as int), document_id@, now@),
                store.location() == old(store).location(),
            decreases candidates.len() - i,
        {
            let c = &candidates[i];
            proof {
                let next = all.take(i + 1);
                assert(next.drop_last() == all.take(i as int));
                assert(next.last() == c@);
            }
            if c.confidence != 0 {
                let mut record = EvidenceRecord::new_at(
                    Self::evidence_key(c),
                    "person".to_owned(),
                    c.person.clone(),
                    "associated_with".to_owned(),
                    c.organization.clone(),
                    now,
                );
                set_flag(&mut record.extra, "role_candidate", false);
                assert(record@ == person_record(c@, now@));
                store.add_or_update_at(record, document_id, c.confidence, Self::name(), now);
            }
            i += 1;
        }
        assert(all.take(candidates@.len() as int) == all);
    }

    /// Files `candidates` for the document `document_id` now.
    pub fn file(store: &mut EvidenceStore, candidates: &Vec<PersonCandidate>, document_id: &str)
        requires
            old(store).wf(),
        ensures
            exists|now: Seq<char>|
                final(store)@ == #[trigger] person_filed(
                    old(store)@,
                    person_views(candidates@),
                    document_id@,
                    now,
                ),
            final(store).wf(),
            final(store).location() == old(store).location(),
    {
        let now = now_rfc3339();
        Self::file_at(store, candidates, document_id, now.as_str());
    }
}

} // verus!
