use std::sync::{Arc, Mutex};
use via_core::pipeline::{
    Next, Pipeline, ProcessingFile, ProcessingStep, ProgressEmitter, ProgressEvent, RecordContext,
    StepTable, UnitOutcome,
};
use via_core::resolver::{
    ResolverContext, ResolverFailure, ResolverRunner, ResolversPipeline, RunnerStep,
};

const T0: &str = "2024-01-01T00:00:00+00:00";
const T1: &str = "2024-01-02T00:00:00+00:00";
const T2: &str = "2024-01-03T00:00:00+00:00";

fn plan() -> Pipeline {
    Pipeline::new().add_step("signals").add_step("evidences").add_agent("PERSON_RELATION_AGENT")
}

fn outcome(result: Result<(), &str>, at: &str) -> UnitOutcome {
    UnitOutcome { result: result.map_err(|e| e.to_string()), finished_at: at.to_string() }
}

#[test]
fn plan_runs_steps_before_agents() {
    let p = Pipeline::new().add_agent("agent").add_step("one").add_step("two");
    assert_eq!(p.step_count(), 2);
    assert_eq!(p.agent_count(), 1);
    assert_eq!(p.first(), Next::Step(0));
    assert_eq!(p.after(Next::Step(0)), Next::Step(1));
    assert_eq!(p.after(Next::Step(1)), Next::Agent(0));
    assert_eq!(p.after(Next::Agent(0)), Next::Finish);
    assert_eq!(p.after(Next::Finish), Next::Finish);
    assert_eq!(p.unit_name(Next::Step(1)).map(|s| s.as_str()), Some("two"));
    assert_eq!(p.unit_name(Next::Agent(0)).map(|s| s.as_str()), Some("agent"));
    assert_eq!(p.unit_name(Next::Agent(1)), None);
    assert_eq!(p.unit_name(Next::Step(2)), None);
    assert_eq!(p.unit_name(Next::Finish), None);
}

#[test]
fn empty_plan_finishes_at_once() {
    let p = Pipeline::new();
    assert_eq!(p.step_count(), 0);
    assert_eq!(p.agent_count(), 0);
    assert_eq!(p.first(), Next::Finish);
    assert_eq!(Pipeline::new().add_agent("a").first(), Next::Agent(0));
    assert_eq!(p.after(Next::Step(usize::MAX)), Next::Finish);
}

#[test]
fn new_run_record_is_blank() {
    let r = ProcessingFile::started("id-1".to_string(), "record0001.wav", T0);
    assert_eq!(r.doc_id, "id-1");
    assert_eq!(r.audio_file, "record0001.wav");
    assert_eq!(r.started_at, T0);
    assert_eq!(r.finished_at, None);
    assert_eq!(r.steps.len(), 0);
    assert!(r.errors.is_empty());
}

#[test]
fn fresh_run_records_get_fresh_ids() {
    let a = ProcessingFile::start("a.wav");
    let b = ProcessingFile::start("a.wav");
    assert_eq!(a.audio_file, "a.wav");
    assert_eq!(a.doc_id.len(), 36);
    assert_ne!(a.doc_id, b.doc_id);
    assert!(!a.started_at.is_empty());
    assert_eq!(a.finished_at, None);
}

#[test]
fn a_failing_unit_is_recorded_and_the_run_goes_on() {
    let p = plan();
    let mut run = ProcessingFile::started("id".to_string(), "a.wav", T0);
    let next = p.record(&mut run, Next::Step(0), &Err("disk full".to_string()), T1);
    assert_eq!(next, Next::Step(1));
    assert_eq!(run.errors, vec!["signals: disk full"]);
    let entry = run.steps.get("signals").unwrap();
    assert_eq!(entry.status, "error");
    assert_eq!(entry.output, None);
    assert_eq!(entry.finished_at, Some(T1.to_string()));

    let next = p.record(&mut run, next, &Ok(()), T2);
    assert_eq!(next, Next::Agent(0));
    assert_eq!(run.steps.get("evidences").unwrap().status, "done");
    assert_eq!(run.errors.len(), 1);

    let next = p.record(&mut run, next, &Err("no key".to_string()), T2);
    assert_eq!(next, Next::Finish);
    assert_eq!(run.errors, vec!["signals: disk full", "PERSON_RELATION_AGENT: no key"]);
    assert_eq!(run.finished_at, None);
    run.finish(T2);
    assert_eq!(run.finished_at, Some(T2.to_string()));
    assert_eq!(run.steps.len(), 3);
}

#[test]
fn a_whole_run_records_every_unit() {
    let p = plan();
    let mut run = ProcessingFile::started("id".to_string(), "a.wav", T0);
    run.errors.push("earlier: failure".to_string());
    let outcomes =
        vec![outcome(Ok(()), T0), outcome(Err("boom"), T1), outcome(Ok(()), T1)];
    p.run(&mut run, &outcomes, T2);
    assert_eq!(run.steps.get("signals").unwrap().status, "done");
    assert_eq!(run.steps.get("evidences").unwrap().status, "error");
    assert_eq!(run.steps.get("evidences").unwrap().finished_at, Some(T1.to_string()));
    assert_eq!(run.steps.get("PERSON_RELATION_AGENT").unwrap().status, "done");
    assert_eq!(run.errors, vec!["earlier: failure", "evidences: boom"]);
    assert_eq!(run.finished_at, Some(T2.to_string()));
    assert_eq!(run.doc_id, "id");
    assert_eq!(run.started_at, T0);
}

#[test]
fn a_second_run_overwrites_the_entries_of_the_first() {
    let p = Pipeline::new().add_step("signals");
    let mut run = ProcessingFile::started("id".to_string(), "a.wav", T0);
    p.run(&mut run, &vec![outcome(Err("x"), T0)], T0);
    p.run(&mut run, &vec![outcome(Ok(()), T1)], T1);
    assert_eq!(run.steps.len(), 1);
    assert_eq!(run.steps.get("signals").unwrap().status, "done");
    assert_eq!(run.errors, vec!["signals: x"]);
    assert_eq!(run.finished_at, Some(T1.to_string()));
}

#[test]
fn step_table_keeps_one_entry_for_each_name() {
    let mut t = StepTable::new();
    assert_eq!(t.len(), 0);
    assert!(t.get("a").is_none());
    t.insert("a", ProcessingStep::ended(true, T0));
    t.insert("b", ProcessingStep::ended(false, T1));
    t.insert("a", ProcessingStep::ended(false, T2));
    assert_eq!(t.len(), 2);
    assert_eq!(t.get("a").unwrap().status, "error");
    assert_eq!(t.get("a").unwrap().finished_at, Some(T2.to_string()));
    assert_eq!(t.entry(0).name, "a");
    assert_eq!(t.entry(1).name, "b");
    assert_eq!(t.entry(1).step.status, "error");
    let copy = t.entry(0).step.clone();
    assert_eq!(copy.status, "error");
    assert_eq!(copy.finished_at, Some(T2.to_string()));
}

struct Collector {
    seen: Mutex<Vec<(String, String, u8)>>,
}

impl ProgressEmitter for Collector {
    fn emit(&self, stage: &str, message: &str, percent: u8) {
        self.seen.lock().unwrap().push((stage.to_string(), message.to_string(), percent));
    }
}

#[test]
fn progress_reaches_the_receiver() {
    let collector = Arc::new(Collector { seen: Mutex::new(Vec::new()) });
    let ctx = RecordContext {
        base_dir: "data/2024/01".to_string(),
        audio_file: "data/2024/01/record0001.wav".to_string(),
        progress: Some(collector.clone()),
    };
    ctx.emit("transcription", "started", 5);
    ctx.clone().emit("done", "finished", 100);
    let seen = collector.seen.lock().unwrap();
    assert_eq!(
        *seen,
        vec![
            ("transcription".to_string(), "started".to_string(), 5),
            ("done".to_string(), "finished".to_string(), 100)
        ]
    );
    let silent = RecordContext { base_dir: String::new(), audio_file: String::new(), progress: None };
    silent.emit("x", "y", 1);
    let e = ProgressEvent::new("stage", "message", 30);
    assert_eq!(e.stage, "stage");
    assert_eq!(e.message, "message");
    assert_eq!(e.percent, 30);
}

fn names() -> Vec<String> {
    vec!["ORG_IDENTITY_RESOLVER".to_string(), "PERSON".to_string(), "LAST".to_string()]
}

#[test]
fn resolvers_run_in_order() {
    assert!(matches!(ResolverRunner::first(0), RunnerStep::Done));
    assert!(matches!(ResolverRunner::first(3), RunnerStep::Run(0)));
    assert!(matches!(ResolverRunner::after(&names(), 0, Ok(())), RunnerStep::Run(1)));
    assert!(matches!(ResolverRunner::after(&names(), 1, Ok(())), RunnerStep::Run(2)));
    assert!(matches!(ResolverRunner::after(&names(), 2, Ok(())), RunnerStep::Done));
}

#[test]
fn the_first_failing_resolver_ends_the_run() {
    match ResolverRunner::after(&names(), 1, Err("broken".to_string())) {
        RunnerStep::Failed(f) => {
            assert_eq!(f.resolver, "PERSON");
            assert_eq!(f.cause, "broken");
            assert_eq!(f.message(), "resolver failed: PERSON");
        },
        _ => panic!("went on"),
    }
    let outcomes = vec![Ok(()), Err("first".to_string()), Err("second".to_string())];
    match ResolverRunner::run_all(&names(), &outcomes) {
        Err(ResolverFailure { resolver, cause }) => {
            assert_eq!(resolver, "PERSON");
            assert_eq!(cause, "first");
        },
        Ok(()) => panic!("succeeded"),
    }
    assert!(ResolverRunner::run_all(&names(), &vec![Ok(()), Ok(()), Ok(())]).is_ok());
    assert!(ResolverRunner::run_all(&vec![], &vec![]).is_ok());
}

#[test]
fn resolver_context_holds_the_data_root() {
    let ctx = ResolverContext::new("app/data".to_string());
    assert_eq!(ctx.data_root, "app/data");
    assert_eq!(ctx.clone().data_root, "app/data");
    assert_eq!(ResolversPipeline::name(), "resolvers");
    let step = ResolversPipeline { resolvers: names() };
    assert_eq!(step.resolvers.len(), 3);
}

#[test]
fn a_persisted_run_record_is_taken_up_again() {
    let mut earlier = ProcessingFile::started("id-1".to_string(), "a.wav", T0);
    earlier.errors.push("x: y".to_string());
    let again = ProcessingFile::load_or_create(Some(earlier), "b.wav");
    assert_eq!(again.doc_id, "id-1");
    assert_eq!(again.audio_file, "a.wav");
    assert_eq!(again.errors, vec!["x: y"]);
    let fresh = ProcessingFile::load_or_create(None, "b.wav");
    assert_eq!(fresh.audio_file, "b.wav");
    assert_eq!(fresh.steps.len(), 0);
    assert!(fresh.errors.is_empty());
    assert_eq!(fresh.finished_at, None);
}
