use via_core::evidence::{EvidenceRecord, EvidenceStore, CONFIDENCE_ONE};
use via_core::knowledge::{
    ApprovedBy, KnowledgeClusters, KnowledgeRecord, KnowledgeStore, OrganizationCluster,
    PersistedKnowledge, Status,
};
use via_core::knowledge_builder::KnowledgeBuilder;
use via_core::metadata::{set_text, text_at};
use via_core::todos::{
    confirm_todo, confirm_todo_at, ignore_todo, ignore_todo_at, list_todos, CommandError,
};

const T0: &str = "2024-01-01T00:00:00+00:00";
const T1: &str = "2024-01-02T00:00:00+00:00";
const T2: &str = "2024-01-03T00:00:00+00:00";
const JANE: &str = "person:jane doe|associated_with|acme";

fn fact(id: &str, subject: &str, object: &str, confidence: u32, docs: &[&str], now: &str) -> KnowledgeRecord {
    KnowledgeRecord::new_at(
        id.to_string(),
        "person".to_string(),
        subject.to_string(),
        "associated_with".to_string(),
        object.to_string(),
        confidence,
        "KNOWLEDGE_BUILDER",
        docs.iter().map(|d| d.to_string()).collect(),
        now,
    )
}

fn jane(confidence: u32) -> KnowledgeRecord {
    fact(JANE, "Jane Doe", "Acme", confidence, &["doc1"], T0)
}

fn evidence_of_jane(scores: &[u32]) -> EvidenceStore {
    let mut e = EvidenceStore::new("evidence.json".to_string());
    for s in scores {
        let r = EvidenceRecord::new_at(
            JANE.to_string(),
            "person".to_string(),
            "Jane Doe".to_string(),
            "associated_with".to_string(),
            "Acme".to_string(),
            T0,
        );
        e.add_or_update_at(r, "doc1", *s, "PERSON_RELATION_AGENT", T0);
    }
    e
}

#[test]
fn vocabulary_round_trips() {
    for s in [Status::Candidate, Status::Approved, Status::Deprecated] {
        assert_eq!(Status::parse(s.as_str()), Some(s));
    }
    assert_eq!(Status::Candidate.as_str(), "candidate");
    assert_eq!(Status::Approved.as_str(), "approved");
    assert_eq!(Status::Deprecated.as_str(), "deprecated");
    assert_eq!(Status::parse("Approved"), None);
    assert_eq!(Status::parse(""), None);
    for a in [ApprovedBy::Nobody, ApprovedBy::User, ApprovedBy::Agent] {
        assert_eq!(ApprovedBy::parse(a.as_str()), Some(a));
    }
    assert_eq!(ApprovedBy::Nobody.as_str(), "none");
    assert_eq!(ApprovedBy::User.as_str(), "user");
    assert_eq!(ApprovedBy::Agent.as_str(), "agent");
    assert_eq!(ApprovedBy::parse("nobody"), None);
}

#[test]
fn new_knowledge_is_a_candidate() {
    let k = jane(400_000);
    assert_eq!(k.id, JANE);
    assert_eq!(k.status, Status::Candidate);
    assert_eq!(k.approved_by, ApprovedBy::Nobody);
    assert_eq!(k.confidence, 400_000);
    assert_eq!(k.source_documents, vec!["doc1"]);
    assert_eq!(k.source_agent, "KNOWLEDGE_BUILDER");
    assert_eq!(k.subject_identity_id, None);
    assert_eq!(k.object_identity_id, None);
    assert_eq!(k.created_at, T0);
    assert_eq!(k.updated_at, None);
    assert!(k.extra.is_empty());
    let now = KnowledgeRecord::new(
        "i".to_string(),
        "a".to_string(),
        "b".to_string(),
        "c".to_string(),
        "d".to_string(),
        1,
        "X",
        vec![],
    );
    assert!(!now.created_at.is_empty());
    assert_eq!(now.status, Status::Candidate);
}

#[test]
fn merge_takes_the_greater_confidence_and_unites_documents() {
    let mut k = jane(400_000);
    set_text(&mut k.extra, "note", "old");
    let mut incoming = fact(JANE, "Jane Doe", "Acme", 700_000, &["doc2", "doc1"], T1);
    set_text(&mut incoming.extra, "note", "new");
    set_text(&mut incoming.extra, "more", "new");
    incoming.status = Status::Deprecated;
    k.merge_at(&incoming, T2);
    assert_eq!(k.confidence, 700_000);
    assert_eq!(k.source_documents, vec!["doc1", "doc2"]);
    assert_eq!(k.status, Status::Deprecated);
    assert_eq!(k.updated_at, Some(T2.to_string()));
    assert_eq!(k.created_at, T0);
    assert_eq!(text_at(&k.extra, "note"), Some("old".to_string()));
    assert_eq!(text_at(&k.extra, "more"), Some("new".to_string()));
}

#[test]
fn confidence_never_decreases_across_merges() {
    let mut k = jane(400_000);
    let mut last = k.confidence;
    for c in [300_000, 900_000, 100_000, 900_000, 950_000, 0] {
        k.merge_at(&jane(c), T1);
        assert!(k.confidence >= last);
        last = k.confidence;
    }
    assert_eq!(k.confidence, 950_000);
}

#[test]
fn approved_is_sticky_across_merges() {
    let mut k = jane(400_000);
    k.approve_at(T1);
    assert_eq!(k.status, Status::Approved);
    assert_eq!(k.approved_by, ApprovedBy::User);
    assert_eq!(k.updated_at, Some(T1.to_string()));
    let mut deprecated = jane(100_000);
    deprecated.status = Status::Deprecated;
    for incoming in [jane(900_000), deprecated, jane(1)] {
        k.merge_at(&incoming, T2);
        assert_eq!(k.status, Status::Approved);
    }
    assert_eq!(k.approved_by, ApprovedBy::User);
    assert_eq!(k.confidence, 900_000);
}

#[test]
fn store_without_artifact_has_no_knowledge() {
    let s = KnowledgeStore::new("knowledge.json".to_string());
    assert_eq!(s.len(), 0);
    assert!(s.all().is_empty());
    assert!(s.clusters().organizations.is_empty());
    assert_eq!(s.path(), "knowledge.json");
    assert!(s.get_by_id(JANE).is_none());
    assert!(KnowledgeClusters::default().organizations.is_empty());
}

#[test]
fn store_from_parts_keys_by_id() {
    let cluster = OrganizationCluster {
        cluster_id: "org:acme".to_string(),
        normalized: "acme".to_string(),
        variants: vec!["ACME".to_string(), "Acme".to_string()],
        confidence: 900_000,
        status: Status::Candidate,
        source_agent: "ORG_IDENTITY_RESOLVER".to_string(),
        created_at: T0.to_string(),
        updated_at: None,
    };
    let copy = cluster.clone();
    assert_eq!(copy.variants, cluster.variants);
    assert_eq!(copy.cluster_id, "org:acme");
    let list = vec![jane(1), fact("b", "Bob", "Acme", 2, &[], T0), jane(3)];
    let s = KnowledgeStore::from_parts(
        list,
        KnowledgeClusters { organizations: vec![cluster] },
        "p".to_string(),
    );
    assert_eq!(s.len(), 2);
    assert_eq!(s.get_by_id(JANE).unwrap().confidence, 3);
    assert_eq!(s.get_by_id("b").unwrap().subject_value, "Bob");
    assert_eq!(s.clusters().organizations.len(), 1);
    let ids: Vec<&str> = s.all().iter().map(|r| r.id.as_str()).collect();
    assert_eq!(ids, vec![JANE, "b"]);
}

#[test]
fn append_or_update_appends_then_merges() {
    let mut s = KnowledgeStore::new("p".to_string());
    s.append_or_update_at(jane(400_000), T1);
    assert_eq!(s.len(), 1);
    assert_eq!(s.get_by_id(JANE).unwrap().updated_at, None);
    s.append_or_update_at(fact(JANE, "Jane Doe", "Acme", 600_000, &["doc2"], T1), T2);
    assert_eq!(s.len(), 1);
    let k = s.get_by_id(JANE).unwrap();
    assert_eq!(k.confidence, 600_000);
    assert_eq!(k.source_documents, vec!["doc1", "doc2"]);
    assert_eq!(k.updated_at, Some(T2.to_string()));
    s.append_or_update(jane(1));
    assert_eq!(s.get_by_id(JANE).unwrap().confidence, 600_000);
    assert_ne!(s.get_by_id(JANE).unwrap().updated_at, Some(T2.to_string()));
}

#[test]
fn get_mut_changes_the_record_in_place() {
    let mut s = KnowledgeStore::new("p".to_string());
    s.append_or_update_at(jane(1), T0);
    s.append_or_update_at(fact("b", "Bob", "Acme", 2, &[], T0), T0);
    assert!(s.get_mut("missing").is_none());
    if let Some(r) = s.get_mut("b") {
        r.confidence = 9;
    }
    assert_eq!(s.get_by_id("b").unwrap().confidence, 9);
    assert_eq!(s.get_by_id(JANE).unwrap().confidence, 1);
    s.clusters_mut().organizations.clear();
    assert!(s.clusters().organizations.is_empty());
}

#[test]
fn knowledge_id_is_the_lowercase_triple() {
    let ev = EvidenceRecord::new_at(
        "any".to_string(),
        "Person".to_string(),
        "Jane Doe".to_string(),
        "Associated_With".to_string(),
        "ACME".to_string(),
        T0,
    );
    assert_eq!(KnowledgeBuilder::knowledge_id(&ev), "person:jane doe|associated_with|acme");
    assert_eq!(KnowledgeBuilder::name(), "knowledge-builder");
}

#[test]
fn builder_derives_candidates_from_evidence() {
    let evidence = evidence_of_jane(&[600_000, 900_000]);
    let mut knowledge = KnowledgeStore::new("knowledge.json".to_string());
    let report = KnowledgeBuilder::build_at(&evidence, &mut knowledge, T1);
    assert_eq!(report.created, 1);
    assert_eq!(report.updated, 0);
    let k = knowledge.get_by_id(JANE).unwrap();
    assert_eq!(k.status, Status::Candidate);
    assert_eq!(k.approved_by, ApprovedBy::Nobody);
    assert_eq!(k.confidence, 750_000);
    assert_eq!(k.source_documents, vec!["doc1"]);
    assert_eq!(k.source_agent, "KNOWLEDGE_BUILDER");
    assert_eq!(k.subject_value, "Jane Doe");
    assert_eq!(k.object_value, "Acme");
    assert_eq!(k.created_at, T1);
}

#[test]
fn builder_is_stable_on_unchanged_evidence() {
    let evidence = evidence_of_jane(&[600_000, 900_000]);
    let mut knowledge = KnowledgeStore::new("knowledge.json".to_string());
    KnowledgeBuilder::build_at(&evidence, &mut knowledge, T1);
    let report = KnowledgeBuilder::build_at(&evidence, &mut knowledge, T2);
    assert_eq!(report.created, 0);
    assert_eq!(report.updated, 1);
    let k = knowledge.get_by_id(JANE).unwrap();
    assert_eq!(k.confidence, 750_000);
    assert_eq!(k.source_documents, vec!["doc1"]);
    assert_eq!(k.updated_at, Some(T2.to_string()));
    assert_eq!(k.created_at, T1);
    let report = KnowledgeBuilder::build(&evidence, &mut knowledge);
    assert_eq!(report.updated, 1);
    assert_eq!(knowledge.get_by_id(JANE).unwrap().confidence, 750_000);
}

#[test]
fn builder_leaves_an_approved_record_approved() {
    let evidence = evidence_of_jane(&[200_000]);
    let mut knowledge = KnowledgeStore::new("knowledge.json".to_string());
    let mut approved = jane(800_000);
    approved.approve_at(T0);
    knowledge.append_or_update_at(approved, T0);
    KnowledgeBuilder::build_at(&evidence, &mut knowledge, T1);
    KnowledgeBuilder::build_at(&evidence, &mut knowledge, T2);
    let k = knowledge.get_by_id(JANE).unwrap();
    assert_eq!(k.status, Status::Approved);
    assert_eq!(k.approved_by, ApprovedBy::User);
    assert_eq!(k.confidence, 800_000);
}

#[test]
fn confirming_a_candidate_approves_it_and_records_the_confirmation() {
    let mut evidence = evidence_of_jane(&[800_000]);
    let mut knowledge = KnowledgeStore::new("knowledge.json".to_string());
    KnowledgeBuilder::build_at(&evidence, &mut knowledge, T0);
    assert_eq!(knowledge.get_by_id(JANE).unwrap().status, Status::Candidate);

    assert!(confirm_todo_at(&mut knowledge, &mut evidence, JANE, T1).is_ok());

    let confirmation = evidence.get("confirm:person:jane doe|associated_with|acme").unwrap();
    assert_eq!(confirmation.source_agents, vec!["USER_CONFIRMATION"]);
    assert_eq!(confirmation.confidences, vec![CONFIDENCE_ONE]);
    assert_eq!(confirmation.documents, vec!["doc1"]);
    assert_eq!(confirmation.occurrences, 1);
    assert_eq!(confirmation.subject_value, "Jane Doe");
    assert_eq!(confirmation.first_seen, T1);
    assert_eq!(text_at(&confirmation.extra, "confirmed_knowledge_id"), Some(JANE.to_string()));
    assert_eq!(text_at(&confirmation.extra, "action"), Some("confirm_relation".to_string()));
    assert_eq!(evidence.len(), 2);

    let k = knowledge.get_by_id(JANE).unwrap();
    assert_eq!(k.status, Status::Approved);
    assert_eq!(k.approved_by, ApprovedBy::User);
    assert_eq!(k.confidence, CONFIDENCE_ONE);
    assert_eq!(knowledge.len(), 1);

    KnowledgeBuilder::build_at(&evidence, &mut knowledge, T2);
    let k = knowledge.get_by_id(JANE).unwrap();
    assert_eq!(k.status, Status::Approved);
    assert_eq!(k.confidence, CONFIDENCE_ONE);
}

#[test]
fn confirming_twice_appends_another_full_score() {
    let mut evidence = evidence_of_jane(&[800_000]);
    let mut knowledge = KnowledgeStore::new("knowledge.json".to_string());
    KnowledgeBuilder::build_at(&evidence, &mut knowledge, T0);
    assert!(confirm_todo_at(&mut knowledge, &mut evidence, JANE, T1).is_ok());
    assert!(confirm_todo(&mut knowledge, &mut evidence, JANE).is_ok());
    let confirmation = evidence.get("confirm:person:jane doe|associated_with|acme").unwrap();
    assert_eq!(confirmation.confidences, vec![CONFIDENCE_ONE, CONFIDENCE_ONE]);
    assert_eq!(confirmation.occurrences, 1);
    assert_eq!(knowledge.get_by_id(JANE).unwrap().status, Status::Approved);
}

#[test]
fn confirming_keeps_each_document_once() {
    let mut k = jane(1);
    k.source_documents = vec!["d1".to_string(), "d2".to_string(), "d1".to_string()];
    let c = EvidenceRecord::from_user_confirmation_at(&k, T1);
    assert_eq!(c.documents, vec!["d1", "d2"]);
    assert_eq!(c.occurrences, 2);
    assert!(c.is_wf());
    let now = EvidenceRecord::from_user_confirmation(&k);
    assert_eq!(now.confidences, vec![CONFIDENCE_ONE]);
    assert!(!now.first_seen.is_empty());
}

#[test]
fn confirming_an_unknown_record_is_an_error() {
    let mut evidence = evidence_of_jane(&[800_000]);
    let mut knowledge = KnowledgeStore::new("knowledge.json".to_string());
    let r = confirm_todo_at(&mut knowledge, &mut evidence, JANE, T1);
    assert_eq!(r, Err(CommandError::NotFound));
    assert_eq!(CommandError::NotFound.message(), "knowledge record not found");
    assert_eq!(evidence.len(), 1);
    assert_eq!(knowledge.len(), 0);
}

#[test]
fn ignoring_a_candidate_deprecates_it() {
    let evidence = evidence_of_jane(&[800_000]);
    let mut knowledge = KnowledgeStore::new("knowledge.json".to_string());
    KnowledgeBuilder::build_at(&evidence, &mut knowledge, T0);
    assert_eq!(ignore_todo_at(&mut knowledge, JANE, T1), Ok(()));
    let k = knowledge.get_by_id(JANE).unwrap();
    assert_eq!(k.status, Status::Deprecated);
    assert_eq!(k.approved_by, ApprovedBy::User);
    assert_eq!(k.updated_at, Some(T1.to_string()));
    assert_eq!(text_at(&k.extra, "deprecated_reason"), Some("user_ignored".to_string()));
    assert_eq!(k.confidence, 800_000);
    assert_eq!(ignore_todo_at(&mut knowledge, "missing", T1), Err(CommandError::NotFound));
    assert_eq!(ignore_todo(&mut knowledge, JANE), Ok(()));
}

#[test]
fn a_deprecated_record_is_not_protected_from_a_new_derivation() {
    let evidence = evidence_of_jane(&[800_000]);
    let mut knowledge = KnowledgeStore::new("knowledge.json".to_string());
    KnowledgeBuilder::build_at(&evidence, &mut knowledge, T0);
    assert_eq!(ignore_todo_at(&mut knowledge, JANE, T1), Ok(()));
    KnowledgeBuilder::build_at(&evidence, &mut knowledge, T2);
    let k = knowledge.get_by_id(JANE).unwrap();
    assert_eq!(k.status, Status::Candidate);
    assert_eq!(k.approved_by, ApprovedBy::User);
    assert_eq!(text_at(&k.extra, "deprecated_reason"), Some("user_ignored".to_string()));
}

#[test]
fn todos_list_open_candidates_newest_first() {
    let mut knowledge = KnowledgeStore::new("knowledge.json".to_string());
    knowledge.append_or_update_at(fact("a", "Ann", "Acme", 1, &["d1", "d2"], T0), T0);
    knowledge.append_or_update_at(fact("b", "Bob", "Beta", 2, &[], T2), T2);
    knowledge.append_or_update_at(fact("c", "Cy", "Core", 3, &["d3"], T0), T0);
    knowledge.append_or_update_at(fact("c", "Cy", "Core", 3, &["d3"], T0), T1);
    let mut done = fact("d", "Di", "Delta", 4, &[], T2);
    done.approve_at(T2);
    knowledge.append_or_update_at(done, T2);
    let mut agent = fact("e", "Ed", "Echo", 5, &[], T2);
    agent.approved_by = ApprovedBy::Agent;
    knowledge.append_or_update_at(agent, T2);

    let todos = list_todos(&knowledge);
    let ids: Vec<&str> = todos.iter().map(|t| t.id.as_str()).collect();
    assert_eq!(ids, vec!["b", "c", "a"]);
    let b = &todos[0];
    assert_eq!(b.kind, "confirm_relation");
    assert_eq!(b.status, "open");
    assert_eq!(b.date, T2);
    assert_eq!(b.title, "Bob associated_with Beta");
    assert_eq!(b.target_type, "knowledge_record");
    assert_eq!(b.target_id, "b");
    assert_eq!(b.confidence, 2);
    assert_eq!(b.source_document, None);
    assert_eq!(todos[1].date, T1);
    assert_eq!(todos[2].date, T0);
    assert_eq!(todos[2].source_document, Some("d1".to_string()));
}

#[test]
fn todos_of_an_empty_store_are_none() {
    let knowledge = KnowledgeStore::new("knowledge.json".to_string());
    assert!(list_todos(&knowledge).is_empty());
}

#[test]
fn a_missing_artifact_is_an_empty_knowledge_store() {
    let s = KnowledgeStore::load_or_create("knowledge.json".to_string(), None);
    assert_eq!(s.len(), 0);
    assert!(s.clusters().organizations.is_empty());
    assert_eq!(s.path(), "knowledge.json");
    let parts = PersistedKnowledge { records: None, clusters: None };
    let s = KnowledgeStore::load_or_create("k".to_string(), Some(parts));
    assert_eq!(s.len(), 0);
    let parts = PersistedKnowledge { records: Some(vec![jane(1), jane(2)]), clusters: None };
    let s = KnowledgeStore::load_or_create("k".to_string(), Some(parts));
    assert_eq!(s.len(), 1);
    assert_eq!(s.get_by_id(JANE).unwrap().confidence, 2);
    assert!(s.clusters().organizations.is_empty());
}
