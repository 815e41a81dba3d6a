use via_core::agents::{
    entities_of_kind, ContextRelationAgent, PersonCandidate, PersonRelationAgent, RelationCandidate,
};
use via_core::entities::{EntityExtractionStep, EntityGroup};
use via_core::evidence::EvidenceStore;
use via_core::knowledge::{KnowledgeRecord, KnowledgeStore, Status};
use via_core::knowledge_graph::{get_knowledge_graph, get_knowledge_graph_at, infer_object_type};
use via_core::knowledge_overview::get_knowledge_overview;
use via_core::pipeline::ProcessingFile;
use via_core::sessions::{list_sessions, session_title, summarize};
use via_core::signals::Entity;

const T0: &str = "2024-01-01T00:00:00+00:00";
const T1: &str = "2024-01-02T00:00:00+00:00";
const T2: &str = "2024-01-03T00:00:00+00:00";

fn fact(id: &str, kind: &str, subject: &str, predicate: &str, object: &str, confidence: u32, status: Status) -> KnowledgeRecord {
    let mut k = KnowledgeRecord::new_at(
        id.to_string(),
        kind.to_string(),
        subject.to_string(),
        predicate.to_string(),
        object.to_string(),
        confidence,
        "KNOWLEDGE_BUILDER",
        vec![],
        T0,
    );
    k.status = status;
    k
}

fn knowledge() -> KnowledgeStore {
    let mut s = KnowledgeStore::new("knowledge.json".to_string());
    let facts = vec![
        fact("1", "person", "Jane", "associated_with", "Acme GmbH", 1_000_000, Status::Approved),
        fact("2", "person", "Bob", "associated_with", "Beta", 999_999, Status::Approved),
        fact("3", "person", "Cy", "knows", "Jane", 1_000_000, Status::Candidate),
        fact("4", "organization", "Acme GmbH", "located_in", "Berlin", 1_000_000, Status::Approved),
        fact("5", "event", "Launch", "happens_on", "Monday", 1_000_000, Status::Approved),
        fact("6", "person", "Di", "associated_with", "Delta", 1_000_000, Status::Deprecated),
        fact("7", "person", "Ann", "associated_with", "Acme GmbH", 1_000_000, Status::Approved),
    ];
    for f in facts {
        s.append_or_update_at(f, T0);
    }
    s
}

#[test]
fn overview_shows_settled_knowledge_sorted() {
    let o = get_knowledge_overview(&knowledge());
    assert_eq!(o.persons, vec!["Ann", "Jane"]);
    assert_eq!(o.organizations, vec!["Acme GmbH"]);
    assert_eq!(o.events, vec!["Launch"]);
    let subjects: Vec<&str> = o.relations.iter().map(|r| r.subject.as_str()).collect();
    assert_eq!(subjects, vec!["Jane", "Acme GmbH", "Launch", "Ann"]);
    assert_eq!(o.relations[0].predicate, "associated_with");
    assert_eq!(o.relations[0].object, "Acme GmbH");
    assert_eq!(o.relations[0].confidence, 1_000_000);
    let empty = get_knowledge_overview(&KnowledgeStore::new("k".to_string()));
    assert!(empty.persons.is_empty() && empty.relations.is_empty());
}

#[test]
fn object_type_is_inferred_from_the_name() {
    let of = |kind: &str, object: &str| {
        infer_object_type(&fact("x", kind, "s", "p", object, 1, Status::Candidate))
    };
    assert_eq!(of("person", "Acme GmbH"), "organization");
    assert_eq!(of("event", "Siemens AG"), "organization");
    assert_eq!(of("person", "Logicworks"), "organization");
    assert_eq!(of("event", "Monday"), "event");
    assert_eq!(of("person", "Monday"), "entity");
    assert_eq!(of("person", "gmbh"), "entity");
}

#[test]
fn graph_has_a_node_for_every_subject_and_object() {
    let g = get_knowledge_graph_at(&knowledge(), T1);
    assert_eq!(g.meta.generated_at, T1);
    let ids: Vec<&str> = g.nodes.iter().map(|n| n.id.as_str()).collect();
    assert_eq!(
        ids,
        vec![
            "person:jane",
            "object:acme-gmbh",
            "person:cy",
            "object:jane",
            "organization:acme-gmbh",
            "object:berlin",
            "event:launch",
            "object:monday",
            "person:ann",
        ]
    );
    assert_eq!(g.nodes[0].label, "Jane");
    assert_eq!(g.nodes[0].node_type, "person");
    assert_eq!(g.nodes[1].label, "Acme GmbH");
    assert_eq!(g.nodes[1].node_type, "organization");
    assert_eq!(g.nodes[3].node_type, "entity");
    assert_eq!(g.nodes[7].node_type, "event");
    assert_eq!(g.edges.len(), 5);
    assert_eq!(g.edges[0].from, "person:jane");
    assert_eq!(g.edges[0].to, "object:acme-gmbh");
    assert_eq!(g.edges[0].predicate, "associated_with");
    assert_eq!(g.edges[0].confidence, 1_000_000);
    assert_eq!(g.edges[4].from, "person:ann");
    let now = get_knowledge_graph(&knowledge());
    assert_eq!(now.nodes.len(), 9);
    assert!(!now.meta.generated_at.is_empty());
}

fn entity(kind: &str, text: &str) -> Entity {
    Entity { entity_type: kind.to_string(), text: text.to_string() }
}

#[test]
fn session_title_is_the_start_of_the_first_line() {
    assert_eq!(session_title("Hello world\nmore"), "Hello world");
    assert_eq!(session_title(""), "Session");
    assert_eq!(session_title("\nsecond"), "");
    let long = "x".repeat(100);
    assert_eq!(session_title(&long), "x".repeat(80));
    assert_eq!(session_title("ä\r\nb"), "ä");
}

#[test]
fn session_summary_lists_each_entity_once() {
    let run = ProcessingFile::started("doc-7".to_string(), "a.wav", T1);
    let entities = vec![
        entity("person", "Jane"),
        entity("organization", "Jane"),
        entity("person", "Jane"),
        entity("person", "Bob"),
    ];
    let s = summarize(&run, "First line\nrest".to_string(), &entities);
    assert_eq!(s.id, "doc-7");
    assert_eq!(s.date, T1);
    assert_eq!(s.title, "First line");
    assert_eq!(s.raw, "First line\nrest");
    let pairs: Vec<(&str, &str)> =
        s.entities.iter().map(|e| (e.entity_type.as_str(), e.value.as_str())).collect();
    assert_eq!(pairs, vec![("person", "Jane"), ("organization", "Jane"), ("person", "Bob")]);
}

#[test]
fn sessions_are_listed_latest_first() {
    let make = |id: &str, at: &str| {
        summarize(&ProcessingFile::started(id.to_string(), "a.wav", at), String::new(), &vec![])
    };
    let listed = list_sessions(vec![make("a", T1), make("b", T0), make("c", T2), make("d", T1)]);
    let ids: Vec<&str> = listed.iter().map(|s| s.id.as_str()).collect();
    assert_eq!(ids, vec!["c", "a", "d", "b"]);
    assert!(list_sessions(vec![]).is_empty());
}

#[test]
fn entities_are_picked_by_kind_whatever_the_case() {
    let entities = vec![
        entity("Person", "Jane"),
        entity("organization", "Acme"),
        entity("PERSON", "Bob"),
        entity("persons", "Cy"),
    ];
    assert_eq!(entities_of_kind(&entities, "person"), vec!["Jane", "Bob"]);
    assert_eq!(entities_of_kind(&entities, "organization"), vec!["Acme"]);
    assert!(entities_of_kind(&entities, "event").is_empty());
    assert!(ContextRelationAgent::applies(&entities));
    assert!(!ContextRelationAgent::applies(&entities[..1].iter().map(|e| entity(&e.entity_type, &e.text)).collect()));
    assert!(PersonRelationAgent::applies(&vec!["Jane".to_string()], &vec!["Acme".to_string()]));
    assert!(!PersonRelationAgent::applies(&vec![], &vec!["Acme".to_string()]));
    assert!(!PersonRelationAgent::applies(&vec!["Jane".to_string()], &vec![]));
}

#[test]
fn person_agent_files_its_candidates() {
    let mut store = EvidenceStore::new("r/evidence.json".to_string());
    let c = |p: &str, o: &str, confidence: u32| PersonCandidate {
        person: p.to_string(),
        organization: o.to_string(),
        confidence,
    };
    let candidates = vec![c("Jane Doe", "Acme", 800_000), c("Bob", "Acme", 0), c("JANE DOE", "ACME", 600_000)];
    assert_eq!(PersonRelationAgent::evidence_key(&candidates[0]), "person:jane doe|associated_with|acme");
    PersonRelationAgent::file_at(&mut store, &candidates, "doc-1", T1);
    assert_eq!(store.len(), 1);
    let r = store.get("person:jane doe|associated_with|acme").unwrap();
    assert_eq!(r.subject_type, "person");
    assert_eq!(r.subject_value, "Jane Doe");
    assert_eq!(r.predicate, "associated_with");
    assert_eq!(r.object_value, "Acme");
    assert_eq!(r.documents, vec!["doc-1"]);
    assert_eq!(r.occurrences, 1);
    assert_eq!(r.confidences, vec![800_000, 600_000]);
    assert_eq!(r.source_agents, vec!["PERSON_RELATION_AGENT"]);
    assert_eq!(r.extra.get("role_candidate"), Some(&serde_json::Value::Bool(false)));
    assert_eq!(PersonRelationAgent::name(), "PERSON_RELATION_AGENT");
    PersonRelationAgent::file(&mut store, &candidates, "doc-2");
    assert_eq!(store.get("person:jane doe|associated_with|acme").unwrap().occurrences, 2);
}

#[test]
fn context_agent_files_its_candidates() {
    let mut store = EvidenceStore::new("r/evidence.json".to_string());
    let c = RelationCandidate {
        from_type: "Person".to_string(),
        from: "Jane".to_string(),
        to_type: "Event".to_string(),
        to: "Launch".to_string(),
        confidence: 500_000,
    };
    assert_eq!(ContextRelationAgent::evidence_key(&c), "person:jane|associated_with|event:launch");
    let skipped = RelationCandidate {
        from_type: "a".to_string(),
        from: "b".to_string(),
        to_type: "c".to_string(),
        to: "d".to_string(),
        confidence: 0,
    };
    ContextRelationAgent::file_at(&mut store, &vec![c, skipped], "doc-1", T0);
    assert_eq!(store.len(), 1);
    let r = store.get("person:jane|associated_with|event:launch").unwrap();
    assert_eq!(r.subject_type, "Person");
    assert_eq!(r.object_value, "Launch");
    assert_eq!(r.confidences, vec![500_000]);
    assert_eq!(r.source_agents, vec!["CONTEXT_RELATION_AGENT"]);
    assert!(r.extra.is_empty());
    assert_eq!(r.first_seen, T0);
    assert_eq!(ContextRelationAgent::name(), "CONTEXT_RELATION_AGENT");
    ContextRelationAgent::file(&mut store, &vec![], "doc-1");
    assert_eq!(store.len(), 1);
}

#[test]
fn grouped_answers_become_entities() {
    assert_eq!(EntityExtractionStep::kind("persons"), "person");
    assert_eq!(EntityExtractionStep::kind("boss"), "bo");
    assert_eq!(EntityExtractionStep::kind("event"), "event");
    assert_eq!(EntityExtractionStep::kind("s"), "");
    assert_eq!(EntityExtractionStep::name(), "entity-extraction");
    let groups = vec![
        EntityGroup { key: "persons".to_string(), texts: vec!["Jane".to_string(), "Bob".to_string()] },
        EntityGroup { key: "empty".to_string(), texts: vec![] },
        EntityGroup { key: "organizations".to_string(), texts: vec!["Acme".to_string()] },
    ];
    let entities = EntityExtractionStep::from_groups(&groups);
    let got: Vec<(&str, &str)> =
        entities.iter().map(|e| (e.entity_type.as_str(), e.text.as_str())).collect();
    assert_eq!(got, vec![("person", "Jane"), ("person", "Bob"), ("organization", "Acme")]);
    assert!(entities.iter().all(|e| e.source == "openai" && e.status == "suggested"));
}
