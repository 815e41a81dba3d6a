//! The overview of settled knowledge: who and what is known, and how they
//! are related. Only approved records of full confidence are shown.

use crate::evidence::CONFIDENCE_ONE;
use crate::knowledge::{KnowledgeStore, KnowledgeView, Status};
use crate::sets::texts;
use crate::sorting::{sorted_set, strictly_ascending};
use crate::text::same_text;
use vstd::prelude::*;

verus! {

/// One relation of the overview.
#[derive(Debug)]
pub struct KnowledgeRelation {
    pub subject: String,
    pub predicate: String,
    pub object: String,
    pub confidence: u32,
}

/// The mathematical content of a `KnowledgeRelation`.
pub struct RelationView {
    pub subject: Seq<char>,
    pub predicate: Seq<char>,
    pub object: Seq<char>,
    pub confidence: u32,
}

impl View for KnowledgeRelation {
    type V = RelationView;

    open spec fn view(&self) -> RelationView {
        RelationView {
            subject: self.subject@,
            predicate: self.predicate@,
            object: self.object@,
            confidence: self.confidence,
        }
    }
}

/// The settled knowledge at a glance.
#[derive(Debug)]
pub struct KnowledgeOverview {
    pub persons: Vec<String>,
    pub organizations: Vec<String>,
    pub events: Vec<String>,
    pub relations: Vec<KnowledgeRelation>,
}

/// The views of a sequence of relations.
pub open spec fn relation_views(rs: Seq<KnowledgeRelation>) -> Seq<RelationView> {
    rs.map_values(|r: KnowledgeRelation| r@)
}

/// Whether a record is settled: approved, with full confidence.
pub open spec fn is_settled(r: KnowledgeView) -> bool {
    r.status == Status::Approved && r.confidence >= CONFIDENCE_ONE
}

/// The relation that a record states.
pub open spec fn relation_of(r: KnowledgeView) -> RelationView {
    RelationView {
        subject: r.subject_value,
        predicate: r.predicate,
        object: r.object_value,
        confidence: r.confidence,
    }
}

/// The subjects of the settled records whose subject is of the type `kind`.
pub open spec fn subjects_of(records: Seq<KnowledgeView>, kind: Seq<char>) -> Seq<Seq<char>>
    decreases records.len(),
{
    if records.len() == 0 {
        Seq::empty()
    } else if is_settled(records.last()) && records.last().subject_type == kind {
        subjects_of(records.drop_last(), kind).push(records.last().subject_value)
    } else {
        subjects_of(records.drop_last(), kind)
    }
}

/// The objects of the settled records that say that something is
/// associated with their object.
pub open spec fn associates_of(records: Seq<KnowledgeView>) -> Seq<Seq<char>>
    decreases records.len(),
{
    if records.len() == 0 {
        Seq::empty()
    } else if is_settled(records.last()) && records.last().predicate == "associated_with"@ {
        associates_of(records.drop_last()).push(records.last().object_value)
    } else {
        associates_of(records.drop_last())
    }
}

/// The relations of the settled records, in the order of the records.
pub open spec fn relations_of(records: Seq<KnowledgeView>) -> Seq<RelationView>
    decreases records.len(),
{
    if records.len() == 0 {
        Seq::empty()
    } else if is_settled(records.last()) {
        relations_of(records.drop_last()).push(relation_of(records.last()))
    } else {
        relations_of(records.drop_last())
    }
}

/// Whether `names` lists in ascending order, each once, exactly the strings of `given`.
pub open spec fn lists_sorted(names: Seq<Seq<char>>, given: Seq<Seq<char>>) -> bool {
    strictly_ascending(names) && forall|v: Seq<char>| #[trigger] names.contains(v) <==> given.contains(v)
}

/// The overview of the settled records of `knowledge`: the persons, the
/// organizations and the events among their subjects, with the objects of
/// associations counted as organizations, each list sorted and without
/// repetition; and their relations in the order of the records.
pub fn get_knowledge_overview(knowledge: &KnowledgeStore) -> (r: KnowledgeOverview)
    ensures
        lists_sorted(texts(r.persons@), subjects_of(knowledge@, "person"@)),
        lists_sorted(
            texts(r.organizations@),
            subjects_of(knowledge@, "organization"@) + associates_of(knowledge@),
        ),
        lists_sorted(texts(r.events@), subjects_of(knowledge@, "event"@)),
        relation_views(r.relations@) == relations_of(knowledge@),
{
    let records = knowledge.all();
    let mut persons: Vec<String> = Vec::new();
    let mut subjects: Vec<String> = Vec::new();
    let mut associates: Vec<String> = Vec::new();
    let mut events: Vec<String> = Vec::new();
    let mut relations: Vec<KnowledgeRelation> = Vec::new();
    let mut i: usize = 0;
    assert(knowledge@.take(0) =~= Seq::<KnowledgeView>::empty());
    assert(texts(persons@) =~= Seq::<Seq<char>>::empty());
    assert(texts(subjects@) =~= Seq::<Seq<char>>::empty());
    assert(texts(associates@) =~= Seq::<Seq<char>>::empty());
    assert(texts(events@) =~= Seq::<Seq<char>>::empty());
    assert(relation_views(relations@) =~= Seq::<RelationView>::empty());
    while i < records.len()
        invariant
            i <= records.len(),
            records@.len() == knowledge@.len(),
            forall|j: int| 0 <= j < records@.len() ==> (#[trigger] records@[j])@ == knowledge@[j],
            texts(persons@) == subjects_of(knowledge@.take(i as int), "person"@),
            texts(subjects@) == subjects_of(knowledge@.take(i as int), "organization"@),
            texts(associates@) == associates_of(knowledge@.take(i as int)),
            texts(events@) == subjects_of(knowledge@.take(i as int), "event"@),
            relation_views(relations@) == relations_of(knowledge@.take(i as int)),
        decreases records.len() - i,
    {
        let record = records[i];
        proof {
            let next = knowledge@.take(i + 1);
            assert(next.drop_last() == knowledge@.take(i as int));
            assert(next.last() == record@);
        }
        if record.status == Status::Approved && record.confidence >= CONFIDENCE_ONE {
            let kind = record.subject_type.as_str();
            if same_text(kind, "person") {
                let ghost before = texts(persons@);
                persons.push(record.subject_value.clone());
                assert(texts(persons@) =~= before.push(record@.subject_value));
            }
            if same_text(kind, "organization") {
                let ghost before = texts(subjects@);
                subjects.push(record.subject_value.clone());
                assert(texts(subjects@) =~= before.push(record@.subject_value));
            }
            if same_text(kind, "event") {
                let ghost before = texts(events@);
                events.push(record.subject_value.clone());
                assert(texts(events@) =~= before.push(record@.subject_value));
            }
            if same_text(record.predicate.as_str(), "associated_with") {
                let ghost before = texts(associates@);
                associates.push(record.object_value.clone());
                assert(texts(associates@) =~= before.push(record@.object_value));
            }
            let ghost before = relation_views(relations@);
            relations.push(
                KnowledgeRelation {
                    subject: record.subject_value.clone(),
                    predicate: record.predicate.clone(),
                    object: record.object_value.clone(),
                    confidence: record.confidence,
                },
            );
            assert(relation_views(relations@) =~= before.push(relation_of(record@)));
        }
        i += 1;
    }
    assert(knowledge@.take(knowledge@.len() as int) == knowledge@);
    let ghost subject_names = texts(subjects@);
    let ghost associate_names = texts(associates@);
    let mut organizations = subjects;
    let mut k: usize = 0;
    while k < associates.len()
        invariant
            k <= associates.len(),
            associate_names == texts(associates@),
            texts(organizations@) == subject_names + associate_names.take(k as int),
        decreases associates.len() - k,
    {
        let ghost before = texts(organizations@);
        organizations.push(associates[k].clone());
        assert(texts(organizations@) =~= before.push(associate_names[k as int]));
        assert(associate_names.take(k + 1) =~= associate_names.take(k as int).push(
            associate_names[k as int],
        ));
        k += 1;
        assert(texts(organizations@) =~= subject_names + associate_names.take(k as int));
    }
    assert(associate_names.take(associate_names.len() as int) == associate_names);
    KnowledgeOverview {
        persons: sorted_set(&persons),
        organizations: sorted_set(&organizations),
        events: sorted_set(&events),
        relations,
    }
}

} // verus!
