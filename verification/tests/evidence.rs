use via_core::evidence::{EvidenceRecord, EvidenceStore, CONFIDENCE_ONE};
use via_core::evidences::EvidencesPipeline;
use via_core::metadata::{empty, merge_missing, set_flag, set_text, text_at};

const T0: &str = "2024-01-01T00:00:00+00:00";
const T1: &str = "2024-01-02T00:00:00+00:00";
const T2: &str = "2024-01-03T00:00:00+00:00";

fn record(key: &str, now: &str) -> EvidenceRecord {
    EvidenceRecord::new_at(
        key.to_string(),
        "person".to_string(),
        "Jane Doe".to_string(),
        "associated_with".to_string(),
        "Acme".to_string(),
        now,
    )
}

fn observed(key: &str, docs: &[&str], scores: &[u32], agent: &str, now: &str) -> EvidenceRecord {
    let mut r = record(key, now);
    for (d, s) in docs.iter().zip(scores.iter()) {
        r.add_occurrence_at(d, *s, agent, now);
    }
    r
}

#[test]
fn new_record_has_no_observations() {
    let r = record("k", T0);
    assert_eq!(r.key, "k");
    assert_eq!(r.subject_type, "person");
    assert_eq!(r.subject_value, "Jane Doe");
    assert_eq!(r.predicate, "associated_with");
    assert_eq!(r.object_value, "Acme");
    assert_eq!(r.occurrences, 0);
    assert!(r.documents.is_empty());
    assert!(r.confidences.is_empty());
    assert!(r.source_agents.is_empty());
    assert!(r.extra.is_empty());
    assert_eq!(r.first_seen, T0);
    assert_eq!(r.last_seen, T0);
    assert!(r.is_wf());
}

#[test]
fn new_record_is_stamped_with_the_time() {
    let r = EvidenceRecord::new(
        "k".to_string(),
        "a".to_string(),
        "b".to_string(),
        "c".to_string(),
        "d".to_string(),
    );
    assert!(!r.first_seen.is_empty());
    assert_eq!(r.first_seen, r.last_seen);
    assert!(r.first_seen.contains('T'));
}

#[test]
fn occurrences_count_distinct_documents() {
    let mut r = record("k", T0);
    r.add_occurrence_at("doc1", 500_000, "A", T1);
    r.add_occurrence_at("doc1", 700_000, "A", T1);
    r.add_occurrence_at("doc2", 900_000, "B", T2);
    r.add_occurrence_at("doc1", 100_000, "B", T2);
    assert_eq!(r.occurrences, 2);
    assert_eq!(r.documents, vec!["doc1", "doc2"]);
    assert_eq!(r.occurrences, r.documents.len());
    assert_eq!(r.confidences, vec![500_000, 700_000, 900_000, 100_000]);
    assert_eq!(r.source_agents, vec!["A", "B"]);
    assert_eq!(r.first_seen, T0);
    assert_eq!(r.last_seen, T2);
    assert!(r.is_wf());
}

#[test]
fn add_occurrence_stamps_the_time() {
    let mut r = record("k", "");
    r.add_occurrence("doc1", 1, "A");
    assert_eq!(r.occurrences, 1);
    assert!(!r.last_seen.is_empty());
    assert_eq!(r.first_seen, "");
}

#[test]
fn avg_confidence_is_the_mean_rounded_down() {
    let mut r = record("k", T0);
    assert_eq!(r.avg_confidence(), 0);
    r.add_occurrence_at("d", 1_000_000, "A", T0);
    assert_eq!(r.avg_confidence(), 1_000_000);
    r.add_occurrence_at("d", 500_000, "A", T0);
    assert_eq!(r.avg_confidence(), 750_000);
    r.add_occurrence_at("d", 0, "A", T0);
    assert_eq!(r.avg_confidence(), 500_000);
    r.add_occurrence_at("d", 1, "A", T0);
    assert_eq!(r.avg_confidence(), 375_000);
}

#[test]
fn avg_confidence_does_not_overflow() {
    let mut r = record("k", T0);
    for _ in 0..5 {
        r.add_occurrence_at("d", u32::MAX, "A", T0);
    }
    assert_eq!(r.avg_confidence(), u32::MAX);
}

#[test]
fn merge_unites_two_records() {
    let mut a = observed("k", &["doc1", "doc2"], &[100, 200], "A", T1);
    set_text(&mut a.extra, "note", "first");
    let mut b = observed("k", &["doc2", "doc3"], &[300, 400], "B", T2);
    b.first_seen = T0.to_string();
    set_text(&mut b.extra, "note", "second");
    set_flag(&mut b.extra, "flag", true);
    a.merge_full(b);
    assert_eq!(a.documents, vec!["doc1", "doc2", "doc3"]);
    assert_eq!(a.occurrences, 3);
    assert_eq!(a.confidences, vec![100, 200, 300, 400]);
    assert_eq!(a.source_agents, vec!["A", "B"]);
    assert_eq!(text_at(&a.extra, "note"), Some("first".to_string()));
    assert_eq!(a.extra.get("flag"), Some(&serde_json::Value::Bool(true)));
    assert_eq!(a.first_seen, T0);
    assert_eq!(a.last_seen, T2);
    assert!(a.is_wf());
}

#[test]
fn merge_keeps_the_wider_time_span() {
    let mut a = observed("k", &["doc1"], &[1], "A", T1);
    let b = observed("k", &["doc1"], &[2], "A", T1);
    a.first_seen = T0.to_string();
    a.last_seen = T2.to_string();
    a.merge_from(&b);
    assert_eq!(a.first_seen, T0);
    assert_eq!(a.last_seen, T2);
    assert_eq!(a.occurrences, 1);
    assert_eq!(a.confidences, vec![1, 2]);
}

#[test]
fn clone_keeps_every_field() {
    let mut a = observed("k", &["doc1"], &[5], "A", T1);
    set_text(&mut a.extra, "note", "x");
    let b = a.clone();
    assert_eq!(b.key, a.key);
    assert_eq!(b.documents, a.documents);
    assert_eq!(b.confidences, a.confidences);
    assert_eq!(b.source_agents, a.source_agents);
    assert_eq!(b.extra, a.extra);
    assert_eq!(b.occurrences, 1);
    assert_eq!(b.first_seen, a.first_seen);
    assert_eq!(b.last_seen, a.last_seen);
}

#[test]
fn metadata_first_write_wins() {
    let mut old = empty();
    assert!(old.is_empty());
    set_text(&mut old, "a", "old");
    let mut new = empty();
    set_text(&mut new, "a", "new");
    set_text(&mut new, "b", "new");
    new.insert("n".to_string(), serde_json::Value::from(3));
    merge_missing(&mut old, &new);
    assert_eq!(text_at(&old, "a"), Some("old".to_string()));
    assert_eq!(text_at(&old, "b"), Some("new".to_string()));
    assert_eq!(old.get("n"), Some(&serde_json::Value::from(3)));
    assert_eq!(old.len(), 3);
}

#[test]
fn metadata_text_is_read_from_strings_only() {
    let mut m = empty();
    set_flag(&mut m, "flag", false);
    set_text(&mut m, "text", "t");
    assert_eq!(text_at(&m, "flag"), None);
    assert_eq!(text_at(&m, "missing"), None);
    assert_eq!(text_at(&m, "text"), Some("t".to_string()));
    assert_eq!(m.get("flag"), Some(&serde_json::Value::Bool(false)));
    set_text(&mut m, "text", "u");
    assert_eq!(text_at(&m, "text"), Some("u".to_string()));
}

#[test]
fn store_without_artifact_is_empty() {
    let s = EvidenceStore::new("data/evidence.json".to_string());
    assert_eq!(s.len(), 0);
    assert!(s.all().is_empty());
    assert_eq!(s.path(), "data/evidence.json");
    assert!(s.get("k").is_none());
}

#[test]
fn store_from_records_keys_by_key() {
    let list = vec![
        observed("a", &["d1"], &[1], "A", T0),
        observed("b", &["d1"], &[2], "A", T0),
        observed("a", &["d2"], &[3], "A", T0),
    ];
    let s = match EvidenceStore::from_records(list, "p".to_string()) {
        Ok(s) => s,
        Err(e) => panic!("refused {}", e.key),
    };
    assert_eq!(s.len(), 2);
    assert_eq!(s.get("a").unwrap().documents, vec!["d2"]);
    assert_eq!(s.get("b").unwrap().confidences, vec![2]);
    let keys: Vec<&str> = s.all().iter().map(|r| r.key.as_str()).collect();
    assert_eq!(keys, vec!["a", "b"]);
}

#[test]
fn store_refuses_a_record_against_the_invariant() {
    let mut bad = observed("bad", &["d1"], &[1], "A", T0);
    bad.occurrences = 5;
    let mut twice = observed("twice", &["d1"], &[1], "A", T0);
    twice.documents.push("d1".to_string());
    twice.occurrences = 2;
    let list = vec![observed("good", &["d1"], &[1], "A", T0), bad, twice];
    match EvidenceStore::from_records(list, "p".to_string()) {
        Ok(_) => panic!("accepted"),
        Err(e) => assert_eq!(e.key, "bad"),
    }
    let mut twice = observed("twice", &["d1"], &[1], "A", T0);
    twice.source_agents.push("A".to_string());
    assert!(!twice.is_wf());
    assert!(EvidenceStore::from_records(vec![twice], "p".to_string()).is_err());
}

#[test]
fn merging_into_a_store_without_the_key_inserts_unchanged() {
    let mut s = EvidenceStore::new("p".to_string());
    let mut r = observed("k", &["d1", "d2"], &[10, 20], "A", T1);
    set_text(&mut r.extra, "note", "x");
    s.merge_record(&r);
    assert_eq!(s.len(), 1);
    let got = s.get("k").unwrap();
    assert_eq!(got.key, r.key);
    assert_eq!(got.subject_type, r.subject_type);
    assert_eq!(got.subject_value, r.subject_value);
    assert_eq!(got.predicate, r.predicate);
    assert_eq!(got.object_value, r.object_value);
    assert_eq!(got.occurrences, 2);
    assert_eq!(got.documents, r.documents);
    assert_eq!(got.confidences, vec![10, 20]);
    assert_eq!(got.source_agents, r.source_agents);
    assert_eq!(got.extra, r.extra);
    assert_eq!(got.first_seen, r.first_seen);
    assert_eq!(got.last_seen, r.last_seen);

    let mut t = EvidenceStore::new("p".to_string());
    t.insert_or_merge(r.clone());
    assert_eq!(t.get("k").unwrap().confidences, vec![10, 20]);
    assert_eq!(t.get("k").unwrap().occurrences, 2);
}

#[test]
fn merging_into_a_store_with_the_key_unites() {
    let mut s = EvidenceStore::new("p".to_string());
    s.merge_record(&observed("k", &["d1"], &[10], "A", T1));
    s.merge_record(&observed("other", &["d9"], &[90], "A", T1));
    s.merge_record(&observed("k", &["d1", "d2"], &[20, 30], "B", T2));
    assert_eq!(s.len(), 2);
    let got = s.get("k").unwrap();
    assert_eq!(got.documents, vec!["d1", "d2"]);
    assert_eq!(got.occurrences, 2);
    assert_eq!(got.confidences, vec![10, 20, 30]);
    assert_eq!(got.source_agents, vec!["A", "B"]);
    assert_eq!(got.last_seen, T2);
    assert_eq!(s.get("other").unwrap().confidences, vec![90]);

    s.insert_or_merge(observed("k", &["d3"], &[40], "A", T0));
    let got = s.get("k").unwrap();
    assert_eq!(got.documents, vec!["d1", "d2", "d3"]);
    assert_eq!(got.occurrences, 3);
    assert_eq!(got.confidences, vec![10, 20, 30, 40]);
    assert_eq!(got.first_seen, T0);
}

#[test]
fn add_or_update_inserts_then_updates() {
    let mut s = EvidenceStore::new("p".to_string());
    s.add_or_update_at(record("k", T0), "d1", 600_000, "A", T1);
    s.add_or_update_at(record("k", T2), "d1", 800_000, "B", T2);
    s.add_or_update_at(record("k", T2), "d2", 100_000, "A", T2);
    assert_eq!(s.len(), 1);
    let got = s.get("k").unwrap();
    assert_eq!(got.occurrences, 2);
    assert_eq!(got.documents, vec!["d1", "d2"]);
    assert_eq!(got.confidences, vec![600_000, 800_000, 100_000]);
    assert_eq!(got.source_agents, vec!["A", "B"]);
    assert_eq!(got.first_seen, T0);
    assert_eq!(got.last_seen, T2);
    s.add_or_update(record("j", T0), "d1", 1, "A");
    assert_eq!(s.len(), 2);
    assert_eq!(s.get("j").unwrap().occurrences, 1);
}

fn corpus() -> Vec<EvidenceStore> {
    let mut one = EvidenceStore::new("r1/evidence.json".to_string());
    one.add_or_update_at(record("k", T0), "doc1", 500_000, "A", T0);
    one.add_or_update_at(record("k", T0), "doc1", 700_000, "A", T0);
    one.add_or_update_at(record("j", T0), "doc1", 900_000, "A", T0);
    let mut two = EvidenceStore::new("r2/evidence.json".to_string());
    two.add_or_update_at(record("k", T1), "doc2", 300_000, "B", T1);
    vec![one, two]
}

#[test]
fn roll_up_folds_every_store_into_the_global_one() {
    let mut global = EvidenceStore::new("evidence.json".to_string());
    EvidencesPipeline::aggregate(&mut global, &corpus());
    assert_eq!(global.len(), 2);
    let k = global.get("k").unwrap();
    assert_eq!(k.documents, vec!["doc1", "doc2"]);
    assert_eq!(k.occurrences, 2);
    assert_eq!(k.confidences, vec![500_000, 700_000, 300_000]);
    assert_eq!(k.source_agents, vec!["A", "B"]);
    assert_eq!(k.avg_confidence(), 500_000);
    assert_eq!(global.get("j").unwrap().documents, vec!["doc1"]);
    assert_eq!(global.path(), "evidence.json");
    assert_eq!(EvidencesPipeline::name(), "evidences");
}

#[test]
fn second_roll_up_keeps_documents_and_grows_the_scores() {
    let mut global = EvidenceStore::new("evidence.json".to_string());
    EvidencesPipeline::aggregate(&mut global, &corpus());
    let docs_k = global.get("k").unwrap().documents.clone();
    let docs_j = global.get("j").unwrap().documents.clone();
    assert_eq!(global.get("k").unwrap().confidences.len(), 3);
    assert_eq!(global.get("j").unwrap().confidences.len(), 1);

    EvidencesPipeline::aggregate(&mut global, &corpus());
    assert_eq!(global.len(), 2);
    let k = global.get("k").unwrap();
    assert_eq!(k.documents, docs_k);
    assert_eq!(k.occurrences, 2);
    assert_eq!(k.confidences.len(), 6);
    assert_eq!(k.confidences, vec![500_000, 700_000, 300_000, 500_000, 700_000, 300_000]);
    let j = global.get("j").unwrap();
    assert_eq!(j.documents, docs_j);
    assert_eq!(j.confidences.len(), 2);
}

#[test]
fn absorb_merges_one_store() {
    let mut global = EvidenceStore::new("evidence.json".to_string());
    let stores = corpus();
    EvidencesPipeline::absorb(&mut global, &stores[1]);
    assert_eq!(global.len(), 1);
    assert_eq!(global.get("k").unwrap().documents, vec!["doc2"]);
    EvidencesPipeline::absorb(&mut global, &stores[0]);
    assert_eq!(global.get("k").unwrap().documents, vec!["doc2", "doc1"]);
    assert_eq!(global.get("k").unwrap().confidences, vec![300_000, 500_000, 700_000]);
}

#[test]
fn full_confidence_is_a_million() {
    assert_eq!(CONFIDENCE_ONE, 1_000_000);
}

#[test]
fn roll_up_skips_the_global_store_itself() {
    let mut global = EvidenceStore::new("data/evidence.json".to_string());
    global.add_or_update_at(record("k", T0), "doc1", 500_000, "A", T0);
    let mut copy = EvidenceStore::new("data/evidence.json".to_string());
    copy.add_or_update_at(record("k", T0), "doc1", 500_000, "A", T0);
    let mut stores = corpus();
    stores.insert(1, copy);
    EvidencesPipeline::aggregate(&mut global, &stores);
    let k = global.get("k").unwrap();
    assert_eq!(k.confidences, vec![500_000, 500_000, 700_000, 300_000]);
    assert_eq!(k.documents, vec!["doc1", "doc2"]);
}

#[test]
fn a_missing_artifact_is_an_empty_store() {
    let s = EvidenceStore::load_or_create("r/evidence.json".to_string(), None);
    assert_eq!(s.as_ref().map(|s| s.len()).ok(), Some(0));
    assert_eq!(s.unwrap().path(), "r/evidence.json");
    let list = vec![observed("a", &["d1"], &[1], "A", T0), observed("a", &["d2"], &[2], "A", T0)];
    let s = EvidenceStore::load_or_create("p".to_string(), Some(list)).unwrap();
    assert_eq!(s.len(), 1);
    assert_eq!(s.get("a").unwrap().confidences, vec![2]);
    let mut bad = observed("bad", &["d1"], &[1], "A", T0);
    bad.occurrences = 0;
    assert_eq!(
        EvidenceStore::load_or_create("p".to_string(), Some(vec![bad])).map(|_| ()).map_err(|e| e.key),
        Err("bad".to_string())
    );
}
