//! Evidence: observed subject–predicate–object triples with their provenance
//! and every confidence score that was reported for them.
//!
//! Confidence scores are fixed-point numbers in millionths: `1_000_000` is
//! full confidence.

use crate::clock::now_rfc3339;
use crate::metadata::{clone_map, empty, entries, first_wins, merge_missing, no_entries, JsonView};
use crate::sets::{
    add_text, add_texts, all_distinct, copy_texts, joined, lemma_joined, lemma_joined_of_distinct,
    texts, with_member,
};
use crate::knowledge::{KnowledgeRecord, KnowledgeView};
use crate::metadata::set_text;
use crate::text::{lex_lt, lowercase_of, text_lt, to_lowercase};
use vstd::string::*;
use vstd::prelude::*;

verus! {

/// Full confidence, in millionths.
pub const CONFIDENCE_ONE: u32 = 1_000_000;

/// One observed triple, confirmed by one or more documents.
#[derive(Debug)]
pub struct EvidenceRecord {
    pub key: String,
    pub subject_type: String,
    pub subject_value: String,
    pub predicate: String,
    pub object_value: String,
    pub occurrences: usize,
    pub documents: Vec<String>,
    pub confidences: Vec<u32>,
    pub source_agents: Vec<String>,
    pub extra: serde_json::Map<String, serde_json::Value>,
    pub first_seen: String,
    pub last_seen: String,
}

/// The mathematical content of an `EvidenceRecord`.
pub struct EvidenceView {
    pub key: Seq<char>,
    pub subject_type: Seq<char>,
    pub subject_value: Seq<char>,
    pub predicate: Seq<char>,
    pub object_value: Seq<char>,
    pub occurrences: nat,
    pub documents: Seq<Seq<char>>,
    pub confidences: Seq<u32>,
    pub source_agents: Seq<Seq<char>>,
    pub extra: Map<Seq<char>, JsonView>,
    pub first_seen: Seq<char>,
    pub last_seen: Seq<char>,
}

impl View for EvidenceRecord {
    type V = EvidenceView;

    open spec fn view(&self) -> EvidenceView {
        EvidenceView {
            key: self.key@,
            subject_type: self.subject_type@,
            subject_value: self.subject_value@,
            predicate: self.predicate@,
            object_value: self.object_value@,
            occurrences: self.occurrences as nat,
            documents: texts(self.documents@),
            confidences: self.confidences@,
            source_agents: texts(self.source_agents@),
            extra: entries(self.extra),
            first_seen: self.first_seen@,
            last_seen: self.last_seen@,
        }
    }
}

/// The earlier of two timestamps; the first where neither is earlier.
pub open spec fn earlier_text(a: Seq<char>, b: Seq<char>) -> Seq<char> {
    if lex_lt(b, a) {
        b
    } else {
        a
    }
}

/// The later of two timestamps; the first where neither is later.
pub open spec fn later_text(a: Seq<char>, b: Seq<char>) -> Seq<char> {
    if lex_lt(a, b) {
        b
    } else {
        a
    }
}

/// The sum of a list of scores.
pub open spec fn total(s: Seq<u32>) -> nat
    decreases s.len(),
{
    if s.len() == 0 {
        0
    } else {
        total(s.drop_last()) + s.last() as nat
    }
}

/// The arithmetic mean of a list of scores, rounded down to a whole
/// millionth; 0 for the empty list.
pub open spec fn mean(s: Seq<u32>) -> nat {
    if s.len() == 0 {
        0
    } else {
        total(s) / s.len()
    }
}

/// A sum of scores is at most their number times the greatest score.
pub proof fn lemma_total_bound(s: Seq<u32>)
    ensures
        total(s) <= s.len() * 0xffff_ffff,
    decreases s.len(),
{
    if s.len() > 0 {
        lemma_total_bound(s.drop_last());
        assert((s.len() - 1) * 0xffff_ffff + 0xffff_ffff == s.len() * 0xffff_ffff)
            by (nonlinear_arith);
    }
}

/// One report of a triple by an extraction pass.
pub struct Occurrence {
    pub document: Seq<char>,
    pub confidence: u32,
    pub agent: Seq<char>,
    pub at: Seq<char>,
}

impl EvidenceView {
    /// The invariant of a record: `occurrences` counts the documents, and no
    /// document and no agent is listed twice.
    pub open spec fn wf(self) -> bool {
        &&& self.occurrences == self.documents.len()
        &&& self.documents.no_duplicates()
        &&& self.source_agents.no_duplicates()
    }

    /// Whether there is at least one score for each counted document.
    pub open spec fn sampled(self) -> bool {
        self.confidences.len() >= self.occurrences
    }

    /// A record without any observation, created at `now`.
    pub open spec fn fresh(
        key: Seq<char>,
        subject_type: Seq<char>,
        subject_value: Seq<char>,
        predicate: Seq<char>,
        object_value: Seq<char>,
        now: Seq<char>,
    ) -> EvidenceView {
        EvidenceView {
            key,
            subject_type,
            subject_value,
            predicate,
            object_value,
            occurrences: 0,
            documents: Seq::empty(),
            confidences: Seq::empty(),
            source_agents: Seq::empty(),
            extra: no_entries(),
            first_seen: now,
            last_seen: now,
        }
    }

    /// The record after one more report: the document and the agent join
    /// their sets, the count grows only with a new document, the score is
    /// always appended, and `last_seen` is stamped.
    pub open spec fn with_occurrence(
        self,
        document: Seq<char>,
        confidence: u32,
        agent: Seq<char>,
        now: Seq<char>,
    ) -> EvidenceView {
        EvidenceView {
            occurrences: if self.documents.contains(document) {
                self.occurrences
            } else {
                self.occurrences + 1
            },
            documents: with_member(self.documents, document),
            confidences: self.confidences.push(confidence),
            source_agents: with_member(self.source_agents, agent),
            last_seen: now,
            ..self
        }
    }

    /// The record after a sequence of reports.
    pub open spec fn with_occurrences(self, reports: Seq<Occurrence>) -> EvidenceView
        decreases reports.len(),
    {
        if reports.len() == 0 {
            self
        } else {
            let o = reports.last();
            self.with_occurrences(reports.drop_last()).with_occurrence(
                o.document,
                o.confidence,
                o.agent,
                o.at,
            )
        }
    }

    /// The union of this record with `incoming`: documents and agents are
    /// united, the count grows by the number of new documents, the scores of
    /// `incoming` are appended, metadata is merged with the earlier entry
    /// winning, and the time span is widened.
    pub open spec fn merged(self, incoming: EvidenceView) -> EvidenceView {
        EvidenceView {
            occurrences: (self.occurrences + joined(self.documents, incoming.documents).len()
                - self.documents.len()) as nat,
            documents: joined(self.documents, incoming.documents),
            confidences: self.confidences + incoming.confidences,
            source_agents: joined(self.source_agents, incoming.source_agents),
            extra: first_wins(self.extra, incoming.extra),
            first_seen: earlier_text(self.first_seen, incoming.first_seen),
            last_seen: later_text(self.last_seen, incoming.last_seen),
            ..self
        }
    }

    /// The mean of all scores of the record.
    pub open spec fn avg_confidence(self) -> nat {
        mean(self.confidences)
    }

    /// The key of the synthetic record that stands for the user's
    /// confirmation of `k`.
    pub open spec fn confirmation_key(k: KnowledgeView) -> Seq<char> {
        "confirm:"@ + lowercase_of(k.subject_type) + ":"@ + lowercase_of(k.subject_value) + "|"@
            + k.predicate + "|"@ + lowercase_of(k.object_value)
    }

    /// The synthetic record that stands for the user's confirmation of `k` at
    /// `now`: the triple and the documents of `k`, each document once, one
    /// score of full confidence, and the user as the only source.
    pub open spec fn confirmation(k: KnowledgeView, now: Seq<char>) -> EvidenceView {
        EvidenceView {
            key: Self::confirmation_key(k),
            subject_type: k.subject_type,
            subject_value: k.subject_value,
            predicate: k.predicate,
            object_value: k.object_value,
            occurrences: joined(Seq::empty(), k.source_documents).len(),
            documents: joined(Seq::empty(), k.source_documents),
            confidences: seq![CONFIDENCE_ONE],
            source_agents: seq!["USER_CONFIRMATION"@],
            extra: no_entries().insert("confirmed_knowledge_id"@, JsonView::Text(k.id)).insert(
                "action"@,
                JsonView::Text("confirm_relation"@),
            ),
            first_seen: now,
            last_seen: now,
        }
    }
}

/// A confirmation meets the record invariant, and lists the documents of the
/// confirmed record as they are where none of them occurs twice.
pub proof fn lemma_confirmation(k: KnowledgeView, now: Seq<char>)
    ensures
        EvidenceView::confirmation(k, now).wf(),
        k.source_documents.no_duplicates() ==> EvidenceView::confirmation(k, now).documents
            == k.source_documents,
    decreases k.source_documents.len(),
{
    lemma_joined(Seq::<Seq<char>>::empty(), k.source_documents);
    if k.source_documents.no_duplicates() {
        lemma_joined_of_distinct(k.source_documents);
    }
}

/// One report keeps the invariant, and keeps a score for each counted document.
pub proof fn lemma_occurrence_keeps_wf(
    r: EvidenceView,
    document: Seq<char>,
    confidence: u32,
    agent: Seq<char>,
    now: Seq<char>,
)
    requires
        r.wf(),
    ensures
        r.with_occurrence(document, confidence, agent, now).wf(),
        r.sampled() ==> r.with_occurrence(document, confidence, agent, now).sampled(),
{
    let n = r.with_occurrence(document, confidence, agent, now);
    assert(n.documents.no_duplicates());
    assert(n.source_agents.no_duplicates());
}

/// After any sequence of reports the count of occurrences equals the number
/// of distinct documents.
pub proof fn lemma_occurrences_count_documents(r: EvidenceView, reports: Seq<Occurrence>)
    requires
        r.wf(),
    ensures
        r.with_occurrences(reports).wf(),
        r.with_occurrences(reports).occurrences == r.with_occurrences(reports).documents.len(),
        r.with_occurrences(reports).documents.no_duplicates(),
    decreases reports.len(),
{
    if reports.len() > 0 {
        lemma_occurrences_count_documents(r, reports.drop_last());
        let o = reports.last();
        lemma_occurrence_keeps_wf(
            r.with_occurrences(reports.drop_last()),
            o.document,
            o.confidence,
            o.agent,
            o.at,
        );
    }
}

/// A union keeps the invariant, and keeps a score for each counted document
/// where both records have one.
pub proof fn lemma_merged_keeps_wf(r: EvidenceView, incoming: EvidenceView)
    requires
        r.wf(),
    ensures
        r.merged(incoming).wf(),
        r.sampled() && incoming.wf() && incoming.sampled() ==> r.merged(incoming).sampled(),
{
    lemma_joined(r.documents, incoming.documents);
    lemma_joined(r.source_agents, incoming.source_agents);
}

/// Appends the scores of `src` to `dst`.
fn append_scores(dst: &mut Vec<u32>, src: &Vec<u32>)
    ensures
        final(dst)@ == old(dst)@ + src@,
{
    let mut i: usize = 0;
    while i < src.len()
        invariant
            i <= src.len(),
            dst@ == old(dst)@ + src@.take(i as int),
        decreases src.len() - i,
    {
        dst.push(src[i]);
        i += 1;
        assert(dst@ =~= old(dst)@ + src@.take(i as int));
    }
    assert(src@.take(src@.len() as int) == src@);
}

impl Clone for EvidenceRecord {
    fn clone(&self) -> (r: Self)
        ensures
            r@ == self@,
    {
        EvidenceRecord {
            key: self.key.clone(),
            subject_type: self.subject_type.clone(),
            subject_value: self.subject_value.clone(),
            predicate: self.predicate.clone(),
            object_value: self.object_value.clone(),
            occurrences: self.occurrences,
            documents: copy_texts(&self.documents),
            confidences: self.confidences.clone(),
            source_agents: copy_texts(&self.source_agents),
            extra: clone_map(&self.extra),
            first_seen: self.first_seen.clone(),
            last_seen: self.last_seen.clone(),
        }
    }
}

impl EvidenceRecord {
    /// A record without any observation, created at `now`.
    pub fn new_at(
        key: String,
        subject_type: String,
        subject_value: String,
        predicate: String,
        object_value: String,
        now: &str,
    ) -> (r: Self)
        ensures
            r@ == EvidenceView::fresh(
                key@,
                subject_type@,
                subject_value@,
                predicate@,
                object_value@,
                now@,
            ),
            r@.wf(),
    {
        let r = EvidenceRecord {
            key,
            subject_type,
            subject_value,
            predicate,
            object_value,
            occurrences: 0,
            documents: Vec::new(),
            confidences: Vec::new(),
            source_agents: Vec::new(),
            extra: empty(),
            first_seen: now.to_owned(),
            last_seen: now.to_owned(),
        };
        assert(r@.documents =~= Seq::empty());
        assert(r@.source_agents =~= Seq::empty());
        r
    }

    /// A record without any observation, created now.
    pub fn new(
        key: String,
        subject_type: String,
        subject_value: String,
        predicate: String,
        object_value: String,
    ) -> (r: Self)
        ensures
            r@.wf(),
            r@ == EvidenceView::fresh(
                key@,
                subject_type@,
                subject_value@,
                predicate@,
                object_value@,
                r@.first_seen,
            ),
    {
        let now = now_rfc3339();
        Self::new_at(key, subject_type, subject_value, predicate, object_value, now.as_str())
    }

    /// The synthetic record that stands for the user's confirmation of `k`
    /// at `now`.
    pub fn from_user_confirmation_at(k: &KnowledgeRecord, now: &str) -> (r: Self)
        ensures
            r@ == EvidenceView::confirmation(k@, now@),
            r@.wf(),
    {
        proof {
            lemma_confirmation(k@, now@);
        }
        let mut key = "confirm:".to_owned();
        key.append(to_lowercase(k.subject_type.as_str()).as_str());
        key.append(":");
        key.append(to_lowercase(k.subject_value.as_str()).as_str());
        key.append("|");
        key.append(k.predicate.as_str());
        key.append("|");
        key.append(to_lowercase(k.object_value.as_str()).as_str());
        let mut documents: Vec<String> = Vec::new();
        assert(texts(documents@) =~= Seq::empty());
        add_texts(&mut documents, &k.source_documents);
        let mut extra = empty();
        set_text(&mut extra, "confirmed_knowledge_id", k.id.as_str());
        set_text(&mut extra, "action", "confirm_relation");
        let mut confidences: Vec<u32> = Vec::new();
        confidences.push(CONFIDENCE_ONE);
        let mut source_agents: Vec<String> = Vec::new();
        source_agents.push("USER_CONFIRMATION".to_owned());
        let r = EvidenceRecord {
            key,
            subject_type: k.subject_type.clone(),
            subject_value: k.subject_value.clone(),
            predicate: k.predicate.clone(),
            object_value: k.object_value.clone(),
            occurrences: documents.len(),
            documents,
            confidences,
            source_agents,
            extra,
            first_seen: now.to_owned(),
            last_seen: now.to_owned(),
        };
        assert(r@.source_agents =~= seq!["USER_CONFIRMATION"@]);
        assert(r@.confidences =~= seq![CONFIDENCE_ONE]);
        r
    }

    /// The synthetic record that stands for the user's confirmation of `k` now.
    pub fn from_user_confirmation(k: &KnowledgeRecord) -> (r: Self)
        ensures
            r@ == EvidenceView::confirmation(k@, r@.first_seen),
            r@.wf(),
    {
        let now = now_rfc3339();
        Self::from_user_confirmation_at(k, now.as_str())
    }

    /// Whether the record meets its invariant.
    pub fn is_wf(&self) -> (r: bool)
        ensures
            r == self@.wf(),
    {
        self.occurrences == self.documents.len() && all_distinct(&self.documents) && all_distinct(
            &self.source_agents,
        )
    }

    /// Records one more report of the triple, seen at `now`.
    pub fn add_occurrence_at(&mut self, document_id: &str, confidence: u32, agent: &str, now: &str)
        requires
            old(self)@.wf(),
        ensures
            final(self)@ == old(self)@.with_occurrence(document_id@, confidence, agent@, now@),
            final(self)@.wf(),
    {
        proof {
            lemma_occurrence_keeps_wf(old(self)@, document_id@, confidence, agent@, now@);
        }
        let added = add_text(&mut self.documents, document_id.to_owned());
        if added {
            self.occurrences = self.documents.len();
        }
        self.confidences.push(confidence);
        let _ = add_text(&mut self.source_agents, agent.to_owned());
        self.last_seen = now.to_owned();
    }

    /// Records one more report of the triple, seen now.
    pub fn add_occurrence(&mut self, document_id: &str, confidence: u32, agent: &str)
        requires
            old(self)@.wf(),
        ensures
            final(self)@ == old(self)@.with_occurrence(
                document_id@,
                confidence,
                agent@,
                final(self)@.last_seen,
            ),
            final(self)@.wf(),
    {
        let now = now_rfc3339();
        self.add_occurrence_at(document_id, confidence, agent, now.as_str());
    }

    /// Unites this record with `incoming`.
    pub fn merge_from(&mut self, incoming: &EvidenceRecord)
        requires
            old(self)@.wf(),
        ensures
            final(self)@ == old(self)@.merged(incoming@),
            final(self)@.wf(),
    {
        proof {
            lemma_merged_keeps_wf(old(self)@, incoming@);
            lemma_joined(old(self)@.documents, incoming@.documents);
        }
        add_texts(&mut self.documents, &incoming.documents);
        self.occurrences = self.documents.len();
        append_scores(&mut self.confidences, &incoming.confidences);
        add_texts(&mut self.source_agents, &incoming.source_agents);
        merge_missing(&mut self.extra, &incoming.extra);
        if text_lt(incoming.first_seen.as_str(), self.first_seen.as_str()) {
            self.first_seen = incoming.first_seen.clone();
        }
        if text_lt(self.last_seen.as_str(), incoming.last_seen.as_str()) {
            self.last_seen = incoming.last_seen.clone();
        }
    }

    /// Unites this record with `incoming`, which is consumed.
    pub fn merge_full(&mut self, incoming: EvidenceRecord)
        requires
            old(self)@.wf(),
        ensures
            final(self)@ == old(self)@.merged(incoming@),
            final(self)@.wf(),
    {
        self.merge_from(&incoming);
    }

    /// The mean of all scores of the record, rounded down; 0 without scores.
    pub fn avg_confidence(&self) -> (r: u32)
        ensures
            r == self@.avg_confidence(),
    {
        let n = self.confidences.len();
        if n == 0 {
            return 0;
        }
        let mut sum: u128 = 0;
        let mut i: usize = 0;
        assert(self.confidences@.take(0) =~= Seq::<u32>::empty());
        while i < n
            invariant
                n == self.confidences.len(),
                i <= n,
                sum == total(self.confidences@.take(i as int)),
                sum <= i * 0xffff_ffff,
            decreases n - i,
        {
            proof {
                let next = self.confidences@.take(i + 1);
                assert(next.drop_last() == self.confidences@.take(i as int));
                assert(next.last() == self.confidences@[i as int]);
                lemma_total_bound(next);
                assert(i * 0xffff_ffff <= 0xffff_ffff_ffff_ffff * 0xffff_ffff) by (nonlinear_arith)
                    requires
                        i <= 0xffff_ffff_ffff_ffff,
                ;
            }
            sum = sum + self.confidences[i] as u128;
            i += 1;
        }
        assert(self.confidences@.take(n as int) == self.confidences@);
        let avg = sum / (n as u128);
        assert(avg <= 0xffff_ffff) by (nonlinear_arith)
            requires
                avg == sum / (n as u128),
                sum <= n * 0xffff_ffff,
                n > 0,
        ;
        avg as u32
    }
}

/// The views of a sequence of records.
pub open spec fn views(rs: Seq<EvidenceRecord>) -> Seq<EvidenceView> {
    rs.map_values(|r: EvidenceRecord| r@)
}

/// Whether some record of `s` has the key `key`.
pub open spec fn has_key(s: Seq<EvidenceView>, key: Seq<char>) -> bool {
    exists|i: int| 0 <= i < s.len() && (#[trigger] s[i]).key == key
}

/// The place of a record with the key `key` in `s`, where there is one.
pub open spec fn position(s: Seq<EvidenceView>, key: Seq<char>) -> int {
    choose|i: int| 0 <= i < s.len() && (#[trigger] s[i]).key == key
}

/// Whether no two records of `s` share a key.
pub open spec fn distinct_keys(s: Seq<EvidenceView>) -> bool {
    forall|i: int, j: int| 0 <= i < j < s.len() ==> (#[trigger] s[i]).key != (#[trigger] s[j]).key
}

/// Whether every record of `s` meets the record invariant.
pub open spec fn all_wf(s: Seq<EvidenceView>) -> bool {
    forall|i: int| 0 <= i < s.len() ==> (#[trigger] s[i]).wf()
}

/// `s` with `r` in the place of the record of the same key, or at the end
/// where there is none.
pub open spec fn replaced_or_pushed(s: Seq<EvidenceView>, r: EvidenceView) -> Seq<EvidenceView> {
    if has_key(s, r.key) {
        s.update(position(s, r.key), r)
    } else {
        s.push(r)
    }
}

/// The records of a persisted list, keyed: of two records with one key the
/// later one stays, in the place of the earlier.
pub open spec fn indexed(list: Seq<EvidenceView>) -> Seq<EvidenceView>
    decreases list.len(),
{
    if list.len() == 0 {
        list
    } else {
        replaced_or_pushed(indexed(list.drop_last()), list.last())
    }
}

/// `s` after `incoming` is merged in: united with the record of the same
/// key, or appended unchanged where there is none.
pub open spec fn merged_into(s: Seq<EvidenceView>, incoming: EvidenceView) -> Seq<EvidenceView> {
    if has_key(s, incoming.key) {
        let i = position(s, incoming.key);
        s.update(i, s[i].merged(incoming))
    } else {
        s.push(incoming)
    }
}

/// `s` after a report of the triple of `record`: the report is added to the
/// record of the same key, or to `record` itself, appended, where there is none.
pub open spec fn reported_into(
    s: Seq<EvidenceView>,
    record: EvidenceView,
    document: Seq<char>,
    confidence: u32,
    agent: Seq<char>,
    now: Seq<char>,
) -> Seq<EvidenceView> {
    if has_key(s, record.key) {
        let i = position(s, record.key);
        s.update(i, s[i].with_occurrence(document, confidence, agent, now))
    } else {
        s.push(record.with_occurrence(document, confidence, agent, now))
    }
}

/// Keying a list gives distinct keys, and keeps the record invariant.
pub proof fn lemma_indexed(list: Seq<EvidenceView>)
    ensures
        distinct_keys(indexed(list)),
        all_wf(list) ==> all_wf(indexed(list)),
        indexed(list).len() <= list.len(),
    decreases list.len(),
{
    if list.len() > 0 {
        lemma_indexed(list.drop_last());
        if all_wf(list) {
            assert forall|i: int| 0 <= i < list.drop_last().len() implies (#[trigger] list.drop_last()[i]).wf() by {
                assert(list[i].wf());
            }
            assert(list[list.len() - 1].wf());
        }
    }
}

/// A record that a persisted list holds against the record invariant.
#[derive(Debug)]
pub struct InvalidRecord {
    pub key: String,
}

/// A set of evidence records, one for each key, that knows where it is kept.
#[derive(Debug)]
pub struct EvidenceStore {
    records: Vec<EvidenceRecord>,
    path: String,
}

impl View for EvidenceStore {
    type V = Seq<EvidenceView>;

    closed spec fn view(&self) -> Seq<EvidenceView> {
        views(self.records@)
    }
}

impl EvidenceStore {
    /// Where the store is kept.
    pub closed spec fn location(&self) -> Seq<char> {
        self.path@
    }

    /// The invariant of a store: one record for each key, each meeting the
    /// record invariant.
    pub open spec fn wf(&self) -> bool {
        distinct_keys(self@) && all_wf(self@)
    }

    /// A store without records, kept at `path`.
    pub fn new(path: String) -> (r: Self)
        ensures
            r@.len() == 0,
            r.wf(),
            r.location() == path@,
    {
        EvidenceStore { records: Vec::new(), path }
    }

    /// The place of the record with the key `key`.
    fn find(&self, key: &String) -> (r: Option<usize>)
        requires
            distinct_keys(self@),
        ensures
            r is Some <==> has_key(self@, key@),
            r matches Some(i) ==> i < self.records.len() && i == position(self@, key@),
    {
        let mut i: usize = 0;
        while i < self.records.len()
            invariant
                i <= self.records.len(),
                distinct_keys(self@),
                forall|j: int| 0 <= j < i ==> (#[trigger] self@[j]).key != key@,
            decreases self.records.len() - i,
        {
            if self.records[i].key == *key {
                assert(self@[i as int].key == key@);
                assert(self@[position(self@, key@)].key == key@);
                return Some(i);
            }
            i += 1;
        }
        None
    }

    /// The store that a persisted list of records stands for, kept at
    /// `path`. Of two records with one key the later one stays. A record
    /// against the record invariant is refused, the first such by its key.
    pub fn from_records(list: Vec<EvidenceRecord>, path: String) -> (r: Result<Self, InvalidRecord>)
        ensures
            r is Ok <==> all_wf(views(list@)),
            r matches Ok(s) ==> s@ == indexed(views(list@)) && s.wf() && s.location() == path@,
            r matches Err(e) ==> exists|i: int|
                0 <= i < list@.len() && !(#[trigger] views(list@)[i]).wf() && e.key@ == views(
                    list@,
                )[i].key && all_wf(views(list@).take(i)),
    {
        let mut store = EvidenceStore { records: Vec::new(), path };
        let mut i: usize = 0;
        let ghost all = views(list@);
        assert(all.take(0) =~= Seq::<EvidenceView>::empty());
        while i < list.len()
            invariant
                i <= list.len(),
                all == views(list@),
                store@ == indexed(all.take(i as int)),
                all_wf(all.take(i as int)),
                store.path@ == path@,
            decreases list.len() - i,
        {
            let rec = list[i].clone();
            proof {
                let next = all.take(i + 1);
                assert(next.drop_last() == all.take(i as int));
                assert(next.last() == rec@);
                lemma_indexed(all.take(i as int));
            }
            if !rec.is_wf() {
                assert(!all[i as int].wf());
                let e = InvalidRecord { key: rec.key };
                assert(!all_wf(all));
                return Err(e);
            }
            assert(all_wf(all.take(i + 1))) by {
                assert forall|j: int| 0 <= j < i + 1 implies (#[trigger] all.take(i + 1)[j]).wf() by {
                    if j < i {
                        assert(all.take(i as int)[j].wf());
                    }
                }
            }
            match store.find(&rec.key) {
                Some(at) => {
                    store.records[at] = rec;
                    assert(store@ =~= indexed(all.take(i + 1)));
                },
                None => {
                    store.records.push(rec);
                    assert(store@ =~= indexed(all.take(i + 1)));
                },
            }
            i += 1;
        }
        proof {
            assert(all.take(list@.len() as int) == all);
            lemma_indexed(all);
        }
        Ok(store)
    }

    /// The store kept at `path`: without records where nothing is persisted
    /// there, which is no error, and else the store that the persisted list
    /// stands for.
    pub fn load_or_create(path: String, persisted: Option<Vec<EvidenceRecord>>) -> (r: Result<
        Self,
        InvalidRecord,
    >)
        ensures
            persisted is None ==> (r matches Ok(s) && s@.len() == 0 && s.wf() && s.location() == path@),
            persisted matches Some(list) ==> (r is Ok <==> all_wf(views(list@))),
            persisted matches Some(list) ==> (r matches Ok(s) ==> s@ == indexed(views(list@)) && s.wf()
                && s.location() == path@),
            persisted matches Some(list) ==> (r matches Err(e) ==> exists|i: int|
                0 <= i < list@.len() && !(#[trigger] views(list@)[i]).wf() && e.key@ == views(
                    list@,
                )[i].key && all_wf(views(list@).take(i))),
    {
        match persisted {
            None => Ok(Self::new(path)),
            Some(list) => Self::from_records(list, path),
        }
    }

    /// The number of records.
    pub fn len(&self) -> (r: usize)
        ensures
            r == self@.len(),
    {
        self.records.len()
    }

    /// Where the store is kept.
    pub fn path(&self) -> (r: &String)
        ensures
            r@ == self.location(),
    {
        &self.path
    }

    /// The record with the key `key`, if the store has one.
    pub fn get(&self, key: &str) -> (r: Option<&EvidenceRecord>)
        requires
            self.wf(),
        ensures
            r is Some <==> has_key(self@, key@),
            r matches Some(e) ==> e@ == self@[position(self@, key@)],
    {
        let k = key.to_owned();
        match self.find(&k) {
            Some(i) => Some(&self.records[i]),
            None => None,
        }
    }

    /// Every record of the store, in the order in which the keys first came.
    pub fn all(&self) -> (r: Vec<&EvidenceRecord>)
        ensures
            r@.len() == self@.len(),
            forall|i: int| 0 <= i < r@.len() ==> (#[trigger] r@[i])@ == self@[i],
    {
        let mut out: Vec<&EvidenceRecord> = Vec::new();
        let mut i: usize = 0;
        while i < self.records.len()
            invariant
                i <= self.records.len(),
                out@.len() == i,
                forall|j: int| 0 <= j < i ==> (#[trigger] out@[j])@ == self@[j],
            decreases self.records.len() - i,
        {
            out.push(&self.records[i]);
            i += 1;
        }
        out
    }

    /// Merges `incoming` into the store: it is united with the record of the
    /// same key, and where the store has none, a copy is inserted unchanged.
    pub fn merge_record(&mut self, incoming: &EvidenceRecord)
        requires
            old(self).wf(),
            incoming@.wf(),
        ensures
            final(self)@ == merged_into(old(self)@, incoming@),
            !has_key(old(self)@, incoming@.key) ==> final(self)@ == old(self)@.push(incoming@),
            final(self).wf(),
            final(self).location() == old(self).location(),
    {
        match self.find(&incoming.key) {
            Some(i) => {
                proof {
                    lemma_merged_keeps_wf(self@[i as int], incoming@);
                }
                self.records[i].merge_from(incoming);
                assert(self@ =~= merged_into(old(self)@, incoming@));
            },
            None => {
                self.records.push(incoming.clone());
                assert(self@ =~= old(self)@.push(incoming@));
            },
        }
    }

    /// Merges `record` into the store, as `merge_record` does.
    pub fn insert_or_merge(&mut self, record: EvidenceRecord)
        requires
            old(self).wf(),
            record@.wf(),
        ensures
            final(self)@ == merged_into(old(self)@, record@),
            !has_key(old(self)@, record@.key) ==> final(self)@ == old(self)@.push(record@),
            final(self).wf(),
            final(self).location() == old(self).location(),
    {
        match self.find(&record.key) {
            Some(i) => {
                proof {
                    lemma_merged_keeps_wf(self@[i as int], record@);
                }
                self.records[i].merge_full(record);
                assert(self@ =~= merged_into(old(self)@, record@));
            },
            None => {
                self.records.push(record);
                assert(self@ =~= old(self)@.push(record@));
            },
        }
    }

    /// Records a report of the triple of `record`, seen at `now`: by the
    /// record of the same key, or by `record` itself, which is then inserted.
    pub fn add_or_update_at(
        &mut self,
        record: EvidenceRecord,
        document_id: &str,
        confidence: u32,
        agent: &str,
        now: &str,
    )
        requires
            old(self).wf(),
            record@.wf(),
        ensures
            final(self)@ == reported_into(
                old(self)@,
                record@,
                document_id@,
                confidence,
                agent@,
                now@,
            ),
            final(self).wf(),
            final(self).location() == old(self).location(),
    {
        match self.find(&record.key) {
            Some(i) => {
                self.records[i].add_occurrence_at(document_id, confidence, agent, now);
                assert(self@ =~= reported_into(
                    old(self)@,
                    record@,
                    document_id@,
                    confidence,
                    agent@,
                    now@,
                ));
            },
            None => {
                let ghost given = record@;
                let mut record = record;
                record.add_occurrence_at(document_id, confidence, agent, now);
                self.records.push(record);
                assert(self@ =~= reported_into(
                    old(self)@,
                    given,
                    document_id@,
                    confidence,
                    agent@,
                    now@,
                ));
            },
        }
    }

    /// Records a report of the triple of `record`, seen now.
    pub fn add_or_update(
        &mut self,
        record: EvidenceRecord,
        document_id: &str,
        confidence: u32,
        agent: &str,
    )
        requires
            old(self).wf(),
            record@.wf(),
        ensures
            exists|now: Seq<char>|
                final(self)@ == #[trigger] reported_into(
                    old(self)@,
                    record@,
                    document_id@,
                    confidence,
                    agent@,
                    now,
                ),
            final(self).wf(),
            final(self).location() == old(self).location(),
    {
        let now = now_rfc3339();
        self.add_or_update_at(record, document_id, confidence, agent, now.as_str());
    }
}

} // verus!
