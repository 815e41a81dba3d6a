//! What the user decides about candidate knowledge: the list of open
//! decisions, and the two decisions themselves, confirming and ignoring.

use crate::clock::now_rfc3339;
use crate::evidence::{merged_into, EvidenceRecord, EvidenceStore, EvidenceView};
use crate::knowledge::{has_id, place_of, ApprovedBy, KnowledgeStore, KnowledgeView, Status};
use crate::knowledge_builder::{built, lemma_built, KnowledgeBuilder};
use crate::sets::texts;
use crate::sorting::{arrange, by_text, ranks_texts};
use crate::text::opt_text;
use vstd::prelude::*;
use vstd::string::*;

verus! {

/// Why a decision could not be carried out.
#[derive(Clone, Copy, PartialEq, Eq, Debug, Structural)]
pub enum CommandError {
    /// The knowledge store has no record with the given id.
    NotFound,
}

impl CommandError {
    /// The error as the user sees it.
    pub fn message(&self) -> (r: &'static str)
        ensures
            r@ == "knowledge record not found"@,
    {
        "knowledge record not found"
    }
}

/// One open decision: a candidate record that waits for the user.
#[derive(Debug)]
pub struct TodoItem {
    pub id: String,
    pub kind: String,
    pub status: String,
    pub date: String,
    pub title: String,
    pub target_type: String,
    pub target_id: String,
    pub confidence: u32,
    pub source_document: Option<String>,
}

/// The mathematical content of a `TodoItem`.
pub struct TodoView {
    pub id: Seq<char>,
    pub kind: Seq<char>,
    pub status: Seq<char>,
    pub date: Seq<char>,
    pub title: Seq<char>,
    pub target_type: Seq<char>,
    pub target_id: Seq<char>,
    pub confidence: u32,
    pub source_document: Option<Seq<char>>,
}

impl View for TodoItem {
    type V = TodoView;

    open spec fn view(&self) -> TodoView {
        TodoView {
            id: self.id@,
            kind: self.kind@,
            status: self.status@,
            date: self.date@,
            title: self.title@,
            target_type: self.target_type@,
            target_id: self.target_id@,
            confidence: self.confidence,
            source_document: opt_text(self.source_document),
        }
    }
}

/// The views of a sequence of items.
pub open spec fn todo_views(ts: Seq<TodoItem>) -> Seq<TodoView> {
    ts.map_values(|t: TodoItem| t@)
}

/// Whether a record waits for the user: a candidate that nobody approved.
pub open spec fn is_open(r: KnowledgeView) -> bool {
    r.status == Status::Candidate && r.approved_by == ApprovedBy::Nobody
}

/// The decision that an open record asks for. Its date is the time of the
/// last update, or of the creation where there was none; its title names
/// the triple; its source is the first source document.
pub open spec fn todo_of(r: KnowledgeView) -> TodoView {
    TodoView {
        id: r.id,
        kind: "confirm_relation"@,
        status: "open"@,
        date: match r.updated_at {
            Some(t) => t,
            None => r.created_at,
        },
        title: r.subject_value + " "@ + r.predicate + " "@ + r.object_value,
        target_type: "knowledge_record"@,
        target_id: r.id,
        confidence: r.confidence,
        source_document: if r.source_documents.len() > 0 {
            Some(r.source_documents[0])
        } else {
            None
        },
    }
}

/// The decisions that the open records among `records` ask for, in the
/// order of the records.
pub open spec fn open_todos(records: Seq<KnowledgeView>) -> Seq<TodoView>
    decreases records.len(),
{
    if records.len() == 0 {
        Seq::empty()
    } else if is_open(records.last()) {
        open_todos(records.drop_last()).push(todo_of(records.last()))
    } else {
        open_todos(records.drop_last())
    }
}

/// The dates of a sequence of decisions.
pub open spec fn todo_dates(ts: Seq<TodoView>) -> Seq<Seq<char>> {
    Seq::new(ts.len(), |i: int| ts[i].date)
}

/// Whether `out` holds the decisions of `given` from the latest date to
/// the earliest, decisions of one date in the order they had.
pub open spec fn newest_first(out: Seq<TodoView>, given: Seq<TodoView>) -> bool {
    exists|p: Seq<usize>|
        #![trigger ranks_texts(p, todo_dates(given), true)]
        ranks_texts(p, todo_dates(given), true) && out.len() == given.len() && forall|i: int|
            0 <= i < out.len() ==> #[trigger] out[i] == given[p[i] as int]
}

/// The evidence after the user confirmed at `now` the record with the id
/// `id`: the synthetic record of the confirmation is merged in.
pub open spec fn confirmed_evidence(
    knowledge: Seq<KnowledgeView>,
    evidence: Seq<EvidenceView>,
    id: Seq<char>,
    now: Seq<char>,
) -> Seq<EvidenceView> {
    merged_into(evidence, EvidenceView::confirmation(knowledge[place_of(knowledge, id)], now))
}

/// The knowledge after the user confirmed at `now` the record with the id
/// `id`: the record is approved, and knowledge is then derived anew from
/// the evidence with the confirmation.
pub open spec fn confirmed_knowledge(
    knowledge: Seq<KnowledgeView>,
    evidence: Seq<EvidenceView>,
    id: Seq<char>,
    now: Seq<char>,
) -> Seq<KnowledgeView> {
    let p = place_of(knowledge, id);
    built(
        knowledge.update(p, knowledge[p].approved(now)),
        confirmed_evidence(knowledge, evidence, id, now),
        now,
    )
}

/// Confirms at `now` the record with the id `id`: a synthetic evidence
/// record of full confidence, attributed to the user, is merged into
/// `evidence`; the record is approved; and knowledge is derived anew, which
/// leaves the record approved.
pub fn confirm_todo_at(
    knowledge: &mut KnowledgeStore,
    evidence: &mut EvidenceStore,
    knowledge_id: &str,
    now: &str,
) -> (r: Result<(), CommandError>)
    requires
        old(knowledge).wf(),
        old(evidence).wf(),
    ensures
        r is Ok <==> has_id(old(knowledge)@, knowledge_id@),
        r is Err ==> final(knowledge)@ == old(knowledge)@ && final(evidence)@ == old(evidence)@,
        r is Ok ==> final(evidence)@ == confirmed_evidence(
            old(knowledge)@,
            old(evidence)@,
            knowledge_id@,
            now@,
        ),
        r is Ok ==> final(knowledge)@ == confirmed_knowledge(
            old(knowledge)@,
            old(evidence)@,
            knowledge_id@,
            now@,
        ),
        r is Ok ==> ({
            let p = place_of(old(knowledge)@, knowledge_id@);
            &&& p < final(knowledge)@.len()
            &&& final(knowledge)@[p].id == knowledge_id@
            &&& final(knowledge)@[p].status == Status::Approved
            &&& final(knowledge)@[p].confidence >= old(knowledge)@[p].confidence
        }),
        final(knowledge).wf(),
        final(evidence).wf(),
        final(knowledge).cluster_view() == old(knowledge).cluster_view(),
        final(knowledge).location() == old(knowledge).location(),
        final(evidence).location() == old(evidence).location(),
{
    let record = match knowledge.get_by_id(knowledge_id) {
        Some(r) => r.clone(),
        None => {
            return Err(CommandError::NotFound);
        },
    };
    let ghost p = place_of(old(knowledge)@, knowledge_id@);
    assert(old(knowledge)@[p].id == knowledge_id@);
    let confirmation = EvidenceRecord::from_user_confirmation_at(&record, now);
    evidence.insert_or_merge(confirmation);
    match knowledge.get_mut(knowledge_id) {
        Some(r) => {
            r.approve_at(now);
        },
        None => {},
    }
    let ghost approved = old(knowledge)@.update(p, old(knowledge)@[p].approved(now@));
    assert(knowledge@ == approved);
    assert(knowledge.wf()) by {
        assert forall|i: int, j: int| 0 <= i < j < approved.len() implies (#[trigger] approved[i]).id != (
        #[trigger] approved[j]).id by {
            assert(old(knowledge)@[i].id != old(knowledge)@[j].id);
        }
    }
    proof {
        lemma_built(approved, evidence@, now@);
    }
    let _ = KnowledgeBuilder::build_at(evidence, knowledge, now);
    Ok(())
}

/// Confirms now the record with the id `id`.
pub fn confirm_todo(
    knowledge: &mut KnowledgeStore,
    evidence: &mut EvidenceStore,
    knowledge_id: &str,
) -> (r: Result<(), CommandError>)
    requires
        old(knowledge).wf(),
        old(evidence).wf(),
    ensures
        r is Ok <==> has_id(old(knowledge)@, knowledge_id@),
        r is Err ==> final(knowledge)@ == old(knowledge)@ && final(evidence)@ == old(evidence)@,
        r is Ok ==> (exists|now: Seq<char>|
            final(evidence)@ == #[trigger] confirmed_evidence(
                old(knowledge)@,
                old(evidence)@,
                knowledge_id@,
                now,
            ) && final(knowledge)@ == confirmed_knowledge(
                old(knowledge)@,
                old(evidence)@,
                knowledge_id@,
                now,
            )),
        r is Ok ==> ({
            let p = place_of(old(knowledge)@, knowledge_id@);
            &&& p < final(knowledge)@.len()
            &&& final(knowledge)@[p].id == knowledge_id@
            &&& final(knowledge)@[p].status == Status::Approved
            &&& final(knowledge)@[p].confidence >= old(knowledge)@[p].confidence
        }),
        final(knowledge).wf(),
        final(evidence).wf(),
        final(knowledge).cluster_view() == old(knowledge).cluster_view(),
        final(knowledge).location() == old(knowledge).location(),
        final(evidence).location() == old(evidence).location(),
{
    let now = now_rfc3339();
    confirm_todo_at(knowledge, evidence, knowledge_id, now.as_str())
}

/// Ignores at `now` the record with the id `id`: it is deprecated by the
/// user, and its metadata says why.
pub fn ignore_todo_at(knowledge: &mut KnowledgeStore, knowledge_id: &str, now: &str) -> (r: Result<
    (),
    CommandError,
>)
    requires
        old(knowledge).wf(),
    ensures
        r is Ok <==> has_id(old(knowledge)@, knowledge_id@),
        r is Err ==> final(knowledge)@ == old(knowledge)@,
        r is Ok ==> final(knowledge)@ == old(knowledge)@.update(
            place_of(old(knowledge)@, knowledge_id@),
            old(knowledge)@[place_of(old(knowledge)@, knowledge_id@)].ignored(now@),
        ),
        final(knowledge).wf(),
        final(knowledge).cluster_view() == old(knowledge).cluster_view(),
        final(knowledge).location() == old(knowledge).location(),
{
    let ghost p = place_of(old(knowledge)@, knowledge_id@);
    let found = match knowledge.get_mut(knowledge_id) {
        Some(r) => {
            r.ignore_at(now);
            true
        },
        None => false,
    };
    if found {
        let ghost ignored = old(knowledge)@.update(p, old(knowledge)@[p].ignored(now@));
        assert(knowledge@ == ignored);
        assert(knowledge.wf()) by {
            assert forall|i: int, j: int| 0 <= i < j < ignored.len() implies (#[trigger] ignored[i]).id != (
            #[trigger] ignored[j]).id by {
                assert(old(knowledge)@[i].id != old(knowledge)@[j].id);
            }
        }
        Ok(())
    } else {
        Err(CommandError::NotFound)
    }
}

/// Ignores now the record with the id `id`.
pub fn ignore_todo(knowledge: &mut KnowledgeStore, knowledge_id: &str) -> (r: Result<
    (),
    CommandError,
>)
    requires
        old(knowledge).wf(),
    ensures
        r is Ok <==> has_id(old(knowledge)@, knowledge_id@),
        r is Err ==> final(knowledge)@ == old(knowledge)@,
        r is Ok ==> (exists|now: Seq<char>|
            final(knowledge)@ == old(knowledge)@.update(
                place_of(old(knowledge)@, knowledge_id@),
                #[trigger] old(knowledge)@[place_of(old(knowledge)@, knowledge_id@)].ignored(now),
            )),
        final(knowledge).wf(),
        final(knowledge).cluster_view() == old(knowledge).cluster_view(),
        final(knowledge).location() == old(knowledge).location(),
{
    let now = now_rfc3339();
    ignore_todo_at(knowledge, knowledge_id, now.as_str())
}

/// The open decisions of `knowledge`, the latest first.
pub fn list_todos(knowledge: &KnowledgeStore) -> (r: Vec<TodoItem>)
    ensures
        newest_first(todo_views(r@), open_todos(knowledge@)),
{
    let records = knowledge.all();
    let mut todos: Vec<TodoItem> = Vec::new();
    let mut dates: Vec<String> = Vec::new();
    let mut i: usize = 0;
    assert(knowledge@.take(0) =~= Seq::<KnowledgeView>::empty());
    assert(todo_views(todos@) =~= Seq::<TodoView>::empty());
    while i < records.len()
        invariant
            i <= records.len(),
            records@.len() == knowledge@.len(),
            forall|j: int| 0 <= j < records@.len() ==> (#[trigger] records@[j])@ == knowledge@[j],
            todo_views(todos@) == open_todos(knowledge@.take(i as int)),
            texts(dates@) == todo_dates(todo_views(todos@)),
        decreases records.len() - i,
    {
        let record = records[i];
        proof {
            let next = knowledge@.take(i + 1);
            assert(next.drop_last() == knowledge@.take(i as int));
            assert(next.last() == record@);
        }
        if record.status == Status::Candidate && record.approved_by == ApprovedBy::Nobody {
            let date = match &record.updated_at {
                Some(t) => t.clone(),
                None => record.created_at.clone(),
            };
            let mut title = record.subject_value.clone();
            title.append(" ");
            title.append(record.predicate.as_str());
            title.append(" ");
            title.append(record.object_value.as_str());
            let source_document = if record.source_documents.len() > 0 {
                Some(record.source_documents[0].clone())
            } else {
                None
            };
            let ghost before = todo_views(todos@);
            let ghost dates_before = texts(dates@);
            dates.push(date.clone());
            assert(date@ == todo_of(record@).date);
            assert(texts(dates@) =~= dates_before.push(date@));
            let item = TodoItem {
                id: record.id.clone(),
                kind: "confirm_relation".to_owned(),
                status: "open".to_owned(),
                date,
                title,
                target_type: "knowledge_record".to_owned(),
                target_id: record.id.clone(),
                confidence: record.confidence,
                source_document,
            };
            assert(item@ == todo_of(record@));
            todos.push(item);
            assert(todo_views(todos@) =~= before.push(todo_of(record@)));
            assert(todo_dates(before.push(todo_of(record@))) =~= todo_dates(before).push(
                todo_of(record@).date,
            ));
        }
        i += 1;
    }
    assert(knowledge@.take(knowledge@.len() as int) == knowledge@);
    let order = by_text(&dates, true);
    let ghost given = todos@;
    let out = arrange(todos, &order);
    proof {
        assert forall|k: int| 0 <= k < out@.len() implies #[trigger] todo_views(out@)[k] == todo_views(
            given,
        )[order@[k] as int] by {
            assert(out@[k] == given[order@[k] as int]);
        }
        assert(ranks_texts(order@, todo_dates(todo_views(given)), true));
    }
    out
}

} // verus!
