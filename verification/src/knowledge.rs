//! Knowledge: the curated facts derived from evidence, with their approval
//! lifecycle, and the clusters of spellings that resolvers compute.

use crate::clock::now_rfc3339;
use crate::metadata::{clone_map, empty, entries, first_wins, merge_missing, no_entries, JsonView};
use crate::sets::{add_texts, copy_texts, joined, texts};
use crate::text::{copy_opt, opt_text, same_text};
use vstd::prelude::*;

verus! {

/// Where a record or a cluster stands in its lifecycle.
#[derive(Clone, Copy, PartialEq, Eq, Debug, Structural)]
pub enum Status {
    Candidate,
    Approved,
    Deprecated,
}

/// Who approved a record.
#[derive(Clone, Copy, PartialEq, Eq, Debug, Structural)]
pub enum ApprovedBy {
    Nobody,
    User,
    Agent,
}

impl Status {
    /// The word for the status in persisted records.
    pub open spec fn word(self) -> Seq<char> {
        match self {
            Status::Candidate => "candidate"@,
            Status::Approved => "approved"@,
            Status::Deprecated => "deprecated"@,
        }
    }

    /// The word for the status in persisted records.
    pub fn as_str(&self) -> (r: &'static str)
        ensures
            r@ == self.word(),
    {
        match self {
            Status::Candidate => "candidate",
            Status::Approved => "approved",
            Status::Deprecated => "deprecated",
        }
    }

    /// The status that a word of the vocabulary stands for.
    pub fn parse(word: &str) -> (r: Option<Status>)
        ensures
            r matches Some(s) ==> s.word() == word@,
            r is None ==> forall|s: Status| s.word() != word@,
    {
        if same_text(word, "candidate") {
            Some(Status::Candidate)
        } else if same_text(word, "approved") {
            Some(Status::Approved)
        } else if same_text(word, "deprecated") {
            Some(Status::Deprecated)
        } else {
            None
        }
    }
}

impl ApprovedBy {
    /// The word for the approver in persisted records.
    pub open spec fn word(self) -> Seq<char> {
        match self {
            ApprovedBy::Nobody => "none"@,
            ApprovedBy::User => "user"@,
            ApprovedBy::Agent => "agent"@,
        }
    }

    /// The word for the approver in persisted records.
    pub fn as_str(&self) -> (r: &'static str)
        ensures
            r@ == self.word(),
    {
        match self {
            ApprovedBy::Nobody => "none",
            ApprovedBy::User => "user",
            ApprovedBy::Agent => "agent",
        }
    }

    /// The approver that a word of the vocabulary stands for.
    pub fn parse(word: &str) -> (r: Option<ApprovedBy>)
        ensures
            r matches Some(s) ==> s.word() == word@,
            r is None ==> forall|s: ApprovedBy| s.word() != word@,
    {
        if same_text(word, "none") {
            Some(ApprovedBy::Nobody)
        } else if same_text(word, "user") {
            Some(ApprovedBy::User)
        } else if same_text(word, "agent") {
            Some(ApprovedBy::Agent)
        } else {
            None
        }
    }
}

/// A group of spellings believed to name one organization.
#[derive(Debug)]
pub struct OrganizationCluster {
    pub cluster_id: String,
    pub normalized: String,
    pub variants: Vec<String>,
    pub confidence: u32,
    pub status: Status,
    pub source_agent: String,
    pub created_at: String,
    pub updated_at: Option<String>,
}

/// The mathematical content of an `OrganizationCluster`.
pub struct ClusterView {
    pub cluster_id: Seq<char>,
    pub normalized: Seq<char>,
    pub variants: Seq<Seq<char>>,
    pub confidence: u32,
    pub status: Status,
    pub source_agent: Seq<char>,
    pub created_at: Seq<char>,
    pub updated_at: Option<Seq<char>>,
}

impl View for OrganizationCluster {
    type V = ClusterView;

    open spec fn view(&self) -> ClusterView {
        ClusterView {
            cluster_id: self.cluster_id@,
            normalized: self.normalized@,
            variants: texts(self.variants@),
            confidence: self.confidence,
            status: self.status,
            source_agent: self.source_agent@,
            created_at: self.created_at@,
            updated_at: opt_text(self.updated_at),
        }
    }
}

impl Clone for OrganizationCluster {
    fn clone(&self) -> (r: Self)
        ensures
            r@ == self@,
    {
        OrganizationCluster {
            cluster_id: self.cluster_id.clone(),
            normalized: self.normalized.clone(),
            variants: copy_texts(&self.variants),
            confidence: self.confidence,
            status: self.status,
            source_agent: self.source_agent.clone(),
            created_at: self.created_at.clone(),
            updated_at: copy_opt(&self.updated_at),
        }
    }
}

/// The clusters of a knowledge store, by kind of entity.
#[derive(Debug)]
pub struct KnowledgeClusters {
    pub organizations: Vec<OrganizationCluster>,
}

/// The views of a sequence of clusters.
pub open spec fn cluster_views(cs: Seq<OrganizationCluster>) -> Seq<ClusterView> {
    cs.map_values(|c: OrganizationCluster| c@)
}

impl View for KnowledgeClusters {
    type V = Seq<ClusterView>;

    open spec fn view(&self) -> Seq<ClusterView> {
        cluster_views(self.organizations@)
    }
}

impl Default for KnowledgeClusters {
    fn default() -> (r: Self)
        ensures
            r@.len() == 0,
    {
        KnowledgeClusters { organizations: Vec::new() }
    }
}

/// One curated fact.
#[derive(Debug)]
pub struct KnowledgeRecord {
    pub id: String,
    pub subject_type: String,
    pub subject_value: String,
    pub predicate: String,
    pub object_value: String,
    pub status: Status,
    pub confidence: u32,
    pub approved_by: ApprovedBy,
    pub source_documents: Vec<String>,
    pub source_agent: String,
    pub subject_identity_id: Option<String>,
    pub object_identity_id: Option<String>,
    pub created_at: String,
    pub updated_at: Option<String>,
    pub extra: serde_json::Map<String, serde_json::Value>,
}

/// The mathematical content of a `KnowledgeRecord`.
pub struct KnowledgeView {
    pub id: Seq<char>,
    pub subject_type: Seq<char>,
    pub subject_value: Seq<char>,
    pub predicate: Seq<char>,
    pub object_value: Seq<char>,
    pub status: Status,
    pub confidence: u32,
    pub approved_by: ApprovedBy,
    pub source_documents: Seq<Seq<char>>,
    pub source_agent: Seq<char>,
    pub subject_identity_id: Option<Seq<char>>,
    pub object_identity_id: Option<Seq<char>>,
    pub created_at: Seq<char>,
    pub updated_at: Option<Seq<char>>,
    pub extra: Map<Seq<char>, JsonView>,
}

impl View for KnowledgeRecord {
    type V = KnowledgeView;

    open spec fn view(&self) -> KnowledgeView {
        KnowledgeView {
            id: self.id@,
            subject_type: self.subject_type@,
            subject_value: self.subject_value@,
            predicate: self.predicate@,
            object_value: self.object_value@,
            status: self.status,
            confidence: self.confidence,
            approved_by: self.approved_by,
            source_documents: texts(self.source_documents@),
            source_agent: self.source_agent@,
            subject_identity_id: opt_text(self.subject_identity_id),
            object_identity_id: opt_text(self.object_identity_id),
            created_at: self.created_at@,
            updated_at: opt_text(self.updated_at),
            extra: entries(self.extra),
        }
    }
}

/// One merge into a record: what comes in, and when.
pub struct Merge {
    pub incoming: KnowledgeView,
    pub at: Seq<char>,
}

impl KnowledgeView {
    /// A candidate that nobody has approved, created at `now`.
    pub open spec fn candidate(
        id: Seq<char>,
        subject_type: Seq<char>,
        subject_value: Seq<char>,
        predicate: Seq<char>,
        object_value: Seq<char>,
        confidence: u32,
        source_agent: Seq<char>,
        source_documents: Seq<Seq<char>>,
        now: Seq<char>,
    ) -> KnowledgeView {
        KnowledgeView {
            id,
            subject_type,
            subject_value,
            predicate,
            object_value,
            status: Status::Candidate,
            confidence,
            approved_by: ApprovedBy::Nobody,
            source_documents,
            source_agent,
            subject_identity_id: None,
            object_identity_id: None,
            created_at: now,
            updated_at: None,
            extra: no_entries(),
        }
    }

    /// The record after `incoming` is merged in at `now`: the confidence is
    /// the greater of the two, the documents are united, an approved record
    /// stays approved and any other takes the incoming status, metadata is
    /// merged with the earlier entry winning, and `updated_at` is stamped.
    pub open spec fn merged(self, incoming: KnowledgeView, now: Seq<char>) -> KnowledgeView {
        KnowledgeView {
            confidence: if self.confidence >= incoming.confidence {
                self.confidence
            } else {
                incoming.confidence
            },
            source_documents: joined(self.source_documents, incoming.source_documents),
            status: if self.status == Status::Approved {
                Status::Approved
            } else {
                incoming.status
            },
            updated_at: Some(now),
            extra: first_wins(self.extra, incoming.extra),
            ..self
        }
    }

    /// The record after a sequence of merges.
    pub open spec fn merged_all(self, merges: Seq<Merge>) -> KnowledgeView
        decreases merges.len(),
    {
        if merges.len() == 0 {
            self
        } else {
            self.merged_all(merges.drop_last()).merged(merges.last().incoming, merges.last().at)
        }
    }

    /// The record once the user has confirmed it at `now`.
    pub open spec fn approved(self, now: Seq<char>) -> KnowledgeView {
        KnowledgeView {
            status: Status::Approved,
            approved_by: ApprovedBy::User,
            updated_at: Some(now),
            ..self
        }
    }

    /// The record once the user has ignored it at `now`.
    pub open spec fn ignored(self, now: Seq<char>) -> KnowledgeView {
        KnowledgeView {
            status: Status::Deprecated,
            approved_by: ApprovedBy::User,
            updated_at: Some(now),
            extra: self.extra.insert("deprecated_reason"@, JsonView::Text("user_ignored"@)),
            ..self
        }
    }
}

/// Across any sequence of merges an approved record stays approved and the
/// confidence of a record never decreases.
pub proof fn lemma_merges_escalate(r: KnowledgeView, merges: Seq<Merge>)
    ensures
        r.merged_all(merges).confidence >= r.confidence,
        r.status == Status::Approved ==> r.merged_all(merges).status == Status::Approved,
        r.merged_all(merges).id == r.id,
    decreases merges.len(),
{
    if merges.len() > 0 {
        lemma_merges_escalate(r, merges.drop_last());
    }
}

/// The confidence of a record is non-decreasing along a sequence of merges:
/// after more merges it is at least what it was after fewer.
pub proof fn lemma_confidence_monotone(r: KnowledgeView, merges: Seq<Merge>, n: int)
    requires
        0 <= n <= merges.len(),
    ensures
        r.merged_all(merges).confidence >= r.merged_all(merges.take(n)).confidence,
    decreases merges.len(),
{
    if n == merges.len() {
        assert(merges.take(n) == merges);
    } else {
        lemma_confidence_monotone(r, merges.drop_last(), n);
        assert(merges.drop_last().take(n) == merges.take(n));
    }
}

impl Clone for KnowledgeRecord {
    fn clone(&self) -> (r: Self)
        ensures
            r@ == self@,
    {
        KnowledgeRecord {
            id: self.id.clone(),
            subject_type: self.subject_type.clone(),
            subject_value: self.subject_value.clone(),
            predicate: self.predicate.clone(),
            object_value: self.object_value.clone(),
            status: self.status,
            confidence: self.confidence,
            approved_by: self.approved_by,
            source_documents: copy_texts(&self.source_documents),
            source_agent: self.source_agent.clone(),
            subject_identity_id: copy_opt(&self.subject_identity_id),
            object_identity_id: copy_opt(&self.object_identity_id),
            created_at: self.created_at.clone(),
            updated_at: copy_opt(&self.updated_at),
            extra: clone_map(&self.extra),
        }
    }
}

impl KnowledgeRecord {
    /// A candidate that nobody has approved, created at `now`.
    pub fn new_at(
        id: String,
        subject_type: String,
        subject_value: String,
        predicate: String,
        object_value: String,
        confidence: u32,
        source_agent: &str,
        source_documents: Vec<String>,
        now: &str,
    ) -> (r: Self)
        ensures
            r@ == KnowledgeView::candidate(
                id@,
                subject_type@,
                subject_value@,
                predicate@,
                object_value@,
                confidence,
                source_agent@,
                texts(source_documents@),
                now@,
            ),
    {
        KnowledgeRecord {
            id,
            subject_type,
            subject_value,
            predicate,
            object_value,
            status: Status::Candidate,
            confidence,
            approved_by: ApprovedBy::Nobody,
            source_documents,
            source_agent: source_agent.to_owned(),
            subject_identity_id: None,
            object_identity_id: None,
            created_at: now.to_owned(),
            updated_at: None,
            extra: empty(),
        }
    }

    /// A candidate that nobody has approved, created now.
    pub fn new(
        id: String,
        subject_type: String,
        subject_value: String,
        predicate: String,
        object_value: String,
        confidence: u32,
        source_agent: &str,
        source_documents: Vec<String>,
    ) -> (r: Self)
        ensures
            r@ == KnowledgeView::candidate(
                id@,
                subject_type@,
                subject_value@,
                predicate@,
                object_value@,
                confidence,
                source_agent@,
                texts(source_documents@),
                r@.created_at,
            ),
    {
        let now = now_rfc3339();
        Self::new_at(
            id,
            subject_type,
            subject_value,
            predicate,
            object_value,
            confidence,
            source_agent,
            source_documents,
            now.as_str(),
        )
    }

    /// Merges `incoming` into this record at `now`.
    pub fn merge_at(&mut self, incoming: &KnowledgeRecord, now: &str)
        ensures
            final(self)@ == old(self)@.merged(incoming@, now@),
    {
        if incoming.confidence > self.confidence {
            self.confidence = incoming.confidence;
        }
        add_texts(&mut self.source_documents, &incoming.source_documents);
        if self.status != Status::Approved {
            self.status = incoming.status;
        }
        self.updated_at = Some(now.to_owned());
        merge_missing(&mut self.extra, &incoming.extra);
    }

    /// Marks the record as confirmed by the user at `now`.
    pub fn approve_at(&mut self, now: &str)
        ensures
            final(self)@ == old(self)@.approved(now@),
    {
        self.status = Status::Approved;
        self.approved_by = ApprovedBy::User;
        self.updated_at = Some(now.to_owned());
    }

    /// Marks the record as ignored by the user at `now`.
    pub fn ignore_at(&mut self, now: &str)
        ensures
            final(self)@ == old(self)@.ignored(now@),
    {
        self.status = Status::Deprecated;
        self.approved_by = ApprovedBy::User;
        self.updated_at = Some(now.to_owned());
        crate::metadata::set_text(&mut self.extra, "deprecated_reason", "user_ignored");
    }
}

/// The views of a sequence of records.
pub open spec fn views(rs: Seq<KnowledgeRecord>) -> Seq<KnowledgeView> {
    rs.map_values(|r: KnowledgeRecord| r@)
}

/// Whether some record of `s` has the id `id`.
pub open spec fn has_id(s: Seq<KnowledgeView>, id: Seq<char>) -> bool {
    exists|i: int| 0 <= i < s.len() && (#[trigger] s[i]).id == id
}

/// The place of a record with the id `id` in `s`, where there is one.
pub open spec fn place_of(s: Seq<KnowledgeView>, id: Seq<char>) -> int {
    choose|i: int| 0 <= i < s.len() && (#[trigger] s[i]).id == id
}

/// Whether no two records of `s` share an id.
pub open spec fn distinct_ids(s: Seq<KnowledgeView>) -> bool {
    forall|i: int, j: int| 0 <= i < j < s.len() ==> (#[trigger] s[i]).id != (#[trigger] s[j]).id
}

/// `s` with `r` in the place of the record of the same id, or at the end
/// where there is none.
pub open spec fn replaced_or_pushed(s: Seq<KnowledgeView>, r: KnowledgeView) -> Seq<
    KnowledgeView,
> {
    if has_id(s, r.id) {
        s.update(place_of(s, r.id), r)
    } else {
        s.push(r)
    }
}

/// The records of a persisted list, keyed by id: of two records with one id
/// the later one stays, in the place of the earlier.
pub open spec fn indexed(list: Seq<KnowledgeView>) -> Seq<KnowledgeView>
    decreases list.len(),
{
    if list.len() == 0 {
        list
    } else {
        replaced_or_pushed(indexed(list.drop_last()), list.last())
    }
}

/// `s` after `incoming` is appended or merged at `now`: merged into the
/// record of the same id, or appended unchanged where there is none.
pub open spec fn updated_with(s: Seq<KnowledgeView>, incoming: KnowledgeView, now: Seq<char>) -> Seq<
    KnowledgeView,
> {
    if has_id(s, incoming.id) {
        let i = place_of(s, incoming.id);
        s.update(i, s[i].merged(incoming, now))
    } else {
        s.push(incoming)
    }
}

/// Keying a list by id gives distinct ids.
pub proof fn lemma_indexed(list: Seq<KnowledgeView>)
    ensures
        distinct_ids(indexed(list)),
    decreases list.len(),
{
    if list.len() > 0 {
        lemma_indexed(list.drop_last());
    }
}

/// Appending or merging a record keeps the ids distinct, keeps every other
/// record, keeps an approved record approved and lowers no confidence.
pub proof fn lemma_updated_with(s: Seq<KnowledgeView>, incoming: KnowledgeView, now: Seq<char>)
    requires
        distinct_ids(s),
    ensures
        distinct_ids(updated_with(s, incoming, now)),
        updated_with(s, incoming, now).len() >= s.len(),
        forall|i: int|
            0 <= i < s.len() ==> (#[trigger] updated_with(s, incoming, now)[i]).id == s[i].id
                && updated_with(s, incoming, now)[i].confidence >= s[i].confidence && (s[i].status
                == Status::Approved ==> updated_with(s, incoming, now)[i].status
                == Status::Approved),
{
}

/// What is persisted of a knowledge store. Either part may be missing.
#[derive(Debug)]
pub struct PersistedKnowledge {
    pub records: Option<Vec<KnowledgeRecord>>,
    pub clusters: Option<KnowledgeClusters>,
}

/// The records that are persisted, none where the part is missing.
pub open spec fn persisted_records(p: PersistedKnowledge) -> Seq<KnowledgeView> {
    match p.records {
        Some(list) => views(list@),
        None => Seq::empty(),
    }
}

/// The clusters that are persisted, none where the part is missing.
pub open spec fn persisted_clusters(p: PersistedKnowledge) -> Seq<ClusterView> {
    match p.clusters {
        Some(c) => c@,
        None => Seq::empty(),
    }
}

/// The curated facts, one for each id, with the clusters computed over them.
#[derive(Debug)]
pub struct KnowledgeStore {
    records: Vec<KnowledgeRecord>,
    clusters: KnowledgeClusters,
    path: String,
}

impl View for KnowledgeStore {
    type V = Seq<KnowledgeView>;

    closed spec fn view(&self) -> Seq<KnowledgeView> {
        views(self.records@)
    }
}

impl KnowledgeStore {
    /// Where the store is kept.
    pub closed spec fn location(&self) -> Seq<char> {
        self.path@
    }

    /// The clusters of the store.
    pub closed spec fn cluster_view(&self) -> Seq<ClusterView> {
        self.clusters@
    }

    /// The invariant of a store: one record for each id.
    pub open spec fn wf(&self) -> bool {
        distinct_ids(self@)
    }

    /// A store without records and clusters, kept at `path`.
    pub fn new(path: String) -> (r: Self)
        ensures
            r@.len() == 0,
            r.cluster_view().len() == 0,
            r.wf(),
            r.location() == path@,
    {
        KnowledgeStore {
            records: Vec::new(),
            clusters: KnowledgeClusters { organizations: Vec::new() },
            path,
        }
    }

    /// The place of the record with the id `id`.
    fn find(&self, id: &String) -> (r: Option<usize>)
        requires
            distinct_ids(self@),
        ensures
            r is Some <==> has_id(self@, id@),
            r matches Some(i) ==> i < self.records.len() && i == place_of(self@, id@),
    {
        let mut i: usize = 0;
        while i < self.records.len()
            invariant
                i <= self.records.len(),
                distinct_ids(self@),
                forall|j: int| 0 <= j < i ==> (#[trigger] self@[j]).id != id@,
            decreases self.records.len() - i,
        {
            if self.records[i].id == *id {
                assert(self@[i as int].id == id@);
                assert(self@[place_of(self@, id@)].id == id@);
                return Some(i);
            }
            i += 1;
        }
        None
    }

    /// The store that persisted records and clusters stand for, kept at
    /// `path`. Of two records with one id the later one stays.
    pub fn from_parts(list: Vec<KnowledgeRecord>, clusters: KnowledgeClusters, path: String) -> (r:
        Self)
        ensures
            r@ == indexed(views(list@)),
            r.cluster_view() == clusters@,
            r.wf(),
            r.location() == path@,
    {
        let mut store = KnowledgeStore { records: Vec::new(), clusters, path };
        let mut i: usize = 0;
        let ghost all = views(list@);
        assert(all.take(0) =~= Seq::<KnowledgeView>::empty());
        while i < list.len()
            invariant
                i <= list.len(),
                all == views(list@),
                store@ == indexed(all.take(i as int)),
                store.path@ == path@,
                store.clusters@ == clusters@,
            decreases list.len() - i,
        {
            let rec = list[i].clone();
            proof {
                let next = all.take(i + 1);
                assert(next.drop_last() == all.take(i as int));
                assert(next.last() == rec@);
                lemma_indexed(all.take(i as int));
            }
            match store.find(&rec.id) {
                Some(at) => {
                    store.records[at] = rec;
                    assert(store@ =~= indexed(all.take(i + 1)));
                },
                None => {
                    store.records.push(rec);
                    assert(store@ =~= indexed(all.take(i + 1)));
                },
            }
            i += 1;
        }
        proof {
            assert(all.take(list@.len() as int) == all);
            lemma_indexed(all);
        }
        store
    }

    /// The store kept at `path`: without records and clusters where nothing
    /// is persisted there, which is no error, and else the store that the
    /// persisted parts stand for.
    pub fn load_or_create(path: String, persisted: Option<PersistedKnowledge>) -> (r: Self)
        ensures
            persisted is None ==> r@.len() == 0 && r.cluster_view().len() == 0,
            persisted matches Some(p) ==> r@ == indexed(persisted_records(p)) && r.cluster_view()
                == persisted_clusters(p),
            r.wf(),
            r.location() == path@,
    {
        match persisted {
            None => Self::new(path),
            Some(p) => {
                let records = match p.records {
                    Some(list) => list,
                    None => Vec::new(),
                };
                let clusters = match p.clusters {
                    Some(c) => c,
                    None => KnowledgeClusters { organizations: Vec::new() },
                };
                assert(views(records@) =~= persisted_records(p));
                assert(clusters@ =~= persisted_clusters(p));
                Self::from_parts(records, clusters, path)
            },
        }
    }

    /// The number of records.
    pub fn len(&self) -> (r: usize)
        ensures
            r == self@.len(),
    {
        self.records.len()
    }

    /// Where the store is kept.
    pub fn path(&self) -> (r: &String)
        ensures
            r@ == self.location(),
    {
        &self.path
    }

    /// The clusters of the store.
    pub fn clusters(&self) -> (r: &KnowledgeClusters)
        ensures
            r@ == self.cluster_view(),
    {
        &self.clusters
    }

    /// The clusters of the store, to be changed in place.
    pub fn clusters_mut(&mut self) -> (r: &mut KnowledgeClusters)
        ensures
            r@ == old(self).cluster_view(),
            final(self).cluster_view() == final(r)@,
            final(self)@ == old(self)@,
            final(self).location() == old(self).location(),
    {
        &mut self.clusters
    }

    /// Puts `clusters` in the place of the clusters of the store.
    pub fn replace_clusters(&mut self, clusters: KnowledgeClusters)
        ensures
            final(self).cluster_view() == clusters@,
            final(self)@ == old(self)@,
            final(self).location() == old(self).location(),
    {
        self.clusters = clusters;
    }

    /// The record with the id `id`, if the store has one.
    pub fn get_by_id(&self, id: &str) -> (r: Option<&KnowledgeRecord>)
        requires
            self.wf(),
        ensures
            r is Some <==> has_id(self@, id@),
            r matches Some(k) ==> k@ == self@[place_of(self@, id@)],
    {
        let k = id.to_owned();
        match self.find(&k) {
            Some(i) => Some(&self.records[i]),
            None => None,
        }
    }

    /// Every record of the store, in the order in which the ids first came.
    pub fn all(&self) -> (r: Vec<&KnowledgeRecord>)
        ensures
            r@.len() == self@.len(),
            forall|i: int| 0 <= i < r@.len() ==> (#[trigger] r@[i])@ == self@[i],
    {
        let mut out: Vec<&KnowledgeRecord> = Vec::new();
        let mut i: usize = 0;
        while i < self.records.len()
            invariant
                i <= self.records.len(),
                out@.len() == i,
                forall|j: int| 0 <= j < i ==> (#[trigger] out@[j])@ == self@[j],
            decreases self.records.len() - i,
        {
            out.push(&self.records[i]);
            i += 1;
        }
        out
    }

    /// The record with the id `id`, to be changed in place. The store keeps
    /// its invariant as long as the id of the record is left as it is.
    pub fn get_mut(&mut self, id: &str) -> (r: Option<&mut KnowledgeRecord>)
        requires
            old(self).wf(),
        ensures
            r is Some <==> has_id(old(self)@, id@),
            r is None ==> final(self)@ == old(self)@,
            r matches Some(k) ==> k@ == old(self)@[place_of(old(self)@, id@)] && final(self)@
                == old(self)@.update(place_of(old(self)@, id@), final(k)@),
            final(self).cluster_view() == old(self).cluster_view(),
            final(self).location() == old(self).location(),
    {
        let k = id.to_owned();
        match self.find(&k) {
            Some(i) => {
                let r = &mut self.records[i];
                Some(r)
            },
            None => None,
        }
    }

    /// Appends `record`, or merges it at `now` into the record of the same id.
    pub fn append_or_update_at(&mut self, record: KnowledgeRecord, now: &str)
        requires
            old(self).wf(),
        ensures
            final(self)@ == updated_with(old(self)@, record@, now@),
            final(self).wf(),
            final(self).cluster_view() == old(self).cluster_view(),
            final(self).location() == old(self).location(),
    {
        proof {
            lemma_updated_with(self@, record@, now@);
        }
        match self.find(&record.id) {
            Some(i) => {
                self.records[i].merge_at(&record, now);
                assert(self@ =~= updated_with(old(self)@, record@, now@));
            },
            None => {
                self.records.push(record);
                assert(self@ =~= updated_with(old(self)@, record@, now@));
            },
        }
    }

    /// Appends `record`, or merges it now into the record of the same id.
    pub fn append_or_update(&mut self, record: KnowledgeRecord)
        requires
            old(self).wf(),
        ensures
            exists|now: Seq<char>| final(self)@ == #[trigger] updated_with(old(self)@, record@, now),
            final(self).wf(),
            final(self).cluster_view() == old(self).cluster_view(),
            final(self).location() == old(self).location(),
    {
        let now = now_rfc3339();
        self.append_or_update_at(record, now.as_str());
    }
}

} // verus!
