//! The orchestrator of one processing run: which unit runs next, and what
//! the run record says after each outcome.
//!
//! A run is a list of deterministic steps followed by a list of extraction
//! agents. The caller performs each unit and persists the run record; this
//! module decides. A failing unit is recorded and the run goes on.

use crate::clock::{new_document_id, now_rfc3339};
use crate::sets::texts;
use crate::text::{copy_opt, opt_text};
use std::sync::Arc;
use vstd::prelude::*;
use vstd::string::*;

verus! {

/// A receiver of progress reports.
pub trait ProgressEmitter: Send + Sync {
    fn emit(&self, stage: &str, message: &str, percent: u8);
}

/// One progress report.
#[derive(Debug)]
pub struct ProgressEvent {
    pub stage: String,
    pub message: String,
    pub percent: u8,
}

impl ProgressEvent {
    /// The report that a stage has come to `percent`.
    pub fn new(stage: &str, message: &str, percent: u8) -> (r: Self)
        ensures
            r.stage@ == stage@,
            r.message@ == message@,
            r.percent == percent,
    {
        ProgressEvent { stage: stage.to_owned(), message: message.to_owned(), percent }
    }
}

/// What a unit of a run works on: the directory of the month, the audio
/// file of the document, and whoever wants to hear of progress.
#[derive(Clone)]
pub struct RecordContext {
    pub base_dir: String,
    pub audio_file: String,
    pub progress: Option<Arc<dyn ProgressEmitter>>,
}

impl RecordContext {
    /// Hands a progress report to the receiver, if there is one.
    pub fn emit(&self, stage: &str, message: &str, percent: u8) {
        if let Some(p) = &self.progress {
            p.emit(stage, message, percent);
        }
    }
}

/// How one unit of a run ended.
#[derive(Debug)]
pub struct ProcessingStep {
    pub status: String,
    pub output: Option<String>,
    pub finished_at: Option<String>,
}

/// The mathematical content of a `ProcessingStep`.
pub struct StepView {
    pub status: Seq<char>,
    pub output: Option<Seq<char>>,
    pub finished_at: Option<Seq<char>>,
}

impl View for ProcessingStep {
    type V = StepView;

    open spec fn view(&self) -> StepView {
        StepView {
            status: self.status@,
            output: opt_text(self.output),
            finished_at: opt_text(self.finished_at),
        }
    }
}

impl StepView {
    /// The entry for a unit that ended at `now`: `done` if it succeeded,
    /// `error` if it failed.
    pub open spec fn ended(ok: bool, now: Seq<char>) -> StepView {
        StepView {
            status: if ok {
                "done"@
            } else {
                "error"@
            },
            output: None,
            finished_at: Some(now),
        }
    }
}

impl Clone for ProcessingStep {
    fn clone(&self) -> (r: Self)
        ensures
            r@ == self@,
    {
        ProcessingStep {
            status: self.status.clone(),
            output: copy_opt(&self.output),
            finished_at: copy_opt(&self.finished_at),
        }
    }
}

impl ProcessingStep {
    /// The entry for a unit that ended at `now`.
    pub fn ended(ok: bool, now: &str) -> (r: Self)
        ensures
            r@ == StepView::ended(ok, now@),
    {
        let status = if ok {
            "done"
        } else {
            "error"
        };
        ProcessingStep { status: status.to_owned(), output: None, finished_at: Some(now.to_owned()) }
    }
}

/// A step entry under the name of its unit.
#[derive(Debug)]
pub struct NamedStep {
    pub name: String,
    pub step: ProcessingStep,
}

/// The entries of a run record, one for each unit name.
#[derive(Debug)]
pub struct StepTable {
    entries: Vec<NamedStep>,
}

impl View for StepTable {
    type V = Map<Seq<char>, StepView>;

    closed spec fn view(&self) -> Map<Seq<char>, StepView> {
        Map::new(
            |k: Seq<char>| self.holds(k),
            |k: Seq<char>| self.entries@[self.place(k)].step@,
        )
    }
}

impl StepTable {
    spec fn holds(&self, name: Seq<char>) -> bool {
        exists|i: int| 0 <= i < self.entries@.len() && (#[trigger] self.entries@[i]).name@ == name
    }

    spec fn place(&self, name: Seq<char>) -> int {
        choose|i: int| 0 <= i < self.entries@.len() && (#[trigger] self.entries@[i]).name@ == name
    }

    /// The invariant of a table: one entry for each name.
    pub closed spec fn wf(&self) -> bool {
        forall|i: int, j: int|
            0 <= i < j < self.entries@.len() ==> (#[trigger] self.entries@[i]).name@ != (
            #[trigger] self.entries@[j]).name@
    }

    /// The names of the table in the order in which they were first entered.
    pub closed spec fn names(&self) -> Seq<Seq<char>> {
        Seq::new(self.entries@.len(), |i: int| self.entries@[i].name@)
    }

    /// A table without entries.
    pub fn new() -> (r: Self)
        ensures
            r@ == Map::<Seq<char>, StepView>::empty(),
            r.wf(),
            r.names().len() == 0,
    {
        let r = StepTable { entries: Vec::new() };
        assert(r@ =~= Map::<Seq<char>, StepView>::empty());
        r
    }

    fn find(&self, name: &str) -> (r: Option<usize>)
        requires
            self.wf(),
        ensures
            r is Some <==> self.holds(name@),
            r matches Some(i) ==> i < self.entries.len() && i == self.place(name@),
    {
        let key = name.to_owned();
        let mut i: usize = 0;
        while i < self.entries.len()
            invariant
                i <= self.entries.len(),
                self.wf(),
                key@ == name@,
                forall|j: int| 0 <= j < i ==> (#[trigger] self.entries@[j]).name@ != name@,
            decreases self.entries.len() - i,
        {
            if self.entries[i].name == key {
                assert(self.entries@[i as int].name@ == name@);
                assert(self.entries@[self.place(name@)].name@ == name@);
                return Some(i);
            }
            i += 1;
        }
        None
    }

    /// The number of entries.
    pub fn len(&self) -> (r: usize)
        ensures
            r == self.names().len(),
    {
        self.entries.len()
    }

    /// The name and the entry at place `i`.
    pub fn entry(&self, i: usize) -> (r: &NamedStep)
        requires
            self.wf(),
            i < self.names().len(),
        ensures
            r.name@ == self.names()[i as int],
            self@.contains_key(r.name@),
            r.step@ == self@[r.name@],
    {
        let r = &self.entries[i];
        assert(self.entries@[i as int].name@ == r.name@);
        assert(self.entries@[self.place(r.name@)].name@ == r.name@);
        r
    }

    /// The entry under `name`, if there is one.
    pub fn get(&self, name: &str) -> (r: Option<&ProcessingStep>)
        requires
            self.wf(),
        ensures
            r is Some <==> self@.contains_key(name@),
            r matches Some(s) ==> s@ == self@[name@],
    {
        match self.find(name) {
            Some(i) => Some(&self.entries[i].step),
            None => None,
        }
    }

    /// Enters `step` under `name`, in the place of an earlier entry of that
    /// name if there is one.
    pub fn insert(&mut self, name: &str, step: ProcessingStep)
        requires
            old(self).wf(),
        ensures
            final(self)@ == old(self)@.insert(name@, step@),
            final(self).wf(),
    {
        match self.find(name) {
            Some(i) => {
                self.entries[i].step = step;
                proof {
                    assert forall|k: Seq<char>| self.holds(k) <==> old(self).holds(k) by {
                        if old(self).holds(k) {
                            let j = old(self).place(k);
                            assert(self.entries@[j].name@ == k);
                        }
                        if self.holds(k) {
                            let j = self.place(k);
                            assert(old(self).entries@[j].name@ == k);
                        }
                    }
                    assert forall|k: Seq<char>| self.holds(k) implies #[trigger] self@[k] == old(
                        self,
                    )@.insert(name@, step@)[k] by {
                        let j = self.place(k);
                        let j0 = old(self).place(k);
                        assert(old(self).entries@[j].name@ == k);
                        assert(old(self).entries@[j0].name@ == k);
                        assert(j == j0);
                    }
                    assert(self@ =~= old(self)@.insert(name@, step@));
                }
            },
            None => {
                self.entries.push(NamedStep { name: name.to_owned(), step });
                proof {
                    let n = old(self).entries@.len() as int;
                    assert(self.entries@[n].name@ == name@);
                    assert forall|k: Seq<char>| self.holds(k) <==> old(self).holds(k) || k == name@ by {
                        if old(self).holds(k) {
                            let j = old(self).place(k);
                            assert(self.entries@[j].name@ == k);
                        }
                        if self.holds(k) {
                            let j = self.place(k);
                            if j < n {
                                assert(old(self).entries@[j].name@ == k);
                            }
                        }
                    }
                    assert forall|k: Seq<char>| self.holds(k) implies #[trigger] self@[k] == old(
                        self,
                    )@.insert(name@, step@)[k] by {
                        let j = self.place(k);
                        if k != name@ {
                            assert(old(self).entries@[j].name@ == k);
                            let j0 = old(self).place(k);
                            assert(old(self).entries@[j0].name@ == k);
                            assert(j == j0);
                        } else {
                            if j < n {
                                assert(old(self).entries@[j].name@ == k);
                            }
                        }
                    }
                    assert(self@ =~= old(self)@.insert(name@, step@));
                }
            },
        }
    }
}

/// The record of one processing run of one document.
#[derive(Debug)]
pub struct ProcessingFile {
    pub doc_id: String,
    pub audio_file: String,
    pub started_at: String,
    pub finished_at: Option<String>,
    pub steps: StepTable,
    pub errors: Vec<String>,
}

/// The mathematical content of a `ProcessingFile`.
pub struct RunView {
    pub doc_id: Seq<char>,
    pub audio_file: Seq<char>,
    pub started_at: Seq<char>,
    pub finished_at: Option<Seq<char>>,
    pub steps: Map<Seq<char>, StepView>,
    pub errors: Seq<Seq<char>>,
}

impl View for ProcessingFile {
    type V = RunView;

    open spec fn view(&self) -> RunView {
        RunView {
            doc_id: self.doc_id@,
            audio_file: self.audio_file@,
            started_at: self.started_at@,
            finished_at: opt_text(self.finished_at),
            steps: self.steps@,
            errors: texts(self.errors@),
        }
    }
}

/// How a unit ended, and when.
#[derive(Debug)]
pub struct UnitOutcome {
    pub result: Result<(), String>,
    pub finished_at: String,
}

/// The mathematical content of a `UnitOutcome`: the error text, if the unit
/// failed, and the time.
pub struct OutcomeView {
    pub error: Option<Seq<char>>,
    pub finished_at: Seq<char>,
}

/// The error text of a result, if it is a failure.
pub open spec fn error_of(result: Result<(), String>) -> Option<Seq<char>> {
    match result {
        Ok(_) => None,
        Err(e) => Some(e@),
    }
}

impl View for UnitOutcome {
    type V = OutcomeView;

    open spec fn view(&self) -> OutcomeView {
        OutcomeView { error: error_of(self.result), finished_at: self.finished_at@ }
    }
}

/// The views of a sequence of outcomes.
pub open spec fn outcome_views(os: Seq<UnitOutcome>) -> Seq<OutcomeView> {
    os.map_values(|o: UnitOutcome| o@)
}

impl RunView {
    /// A run record for a new run: no unit has run and nothing has failed.
    pub open spec fn started(doc_id: Seq<char>, audio_file: Seq<char>, now: Seq<char>) -> RunView {
        RunView {
            doc_id,
            audio_file,
            started_at: now,
            finished_at: None,
            steps: Map::empty(),
            errors: Seq::empty(),
        }
    }

    /// The record after the unit `name` ended at `now`: its entry says
    /// `done` or `error`, and a failure adds the line `name: error` to the
    /// list of errors.
    pub open spec fn recorded(self, name: Seq<char>, error: Option<Seq<char>>, now: Seq<char>) -> RunView {
        RunView {
            steps: self.steps.insert(name, StepView::ended(error is None, now)),
            errors: match error {
                None => self.errors,
                Some(e) => self.errors.push(name + ": "@ + e),
            },
            ..self
        }
    }

    /// The record after the units `names` ended with `outcomes`, in order.
    pub open spec fn ran(self, names: Seq<Seq<char>>, outcomes: Seq<OutcomeView>) -> RunView
        decreases names.len(),
    {
        if names.len() == 0 || outcomes.len() != names.len() {
            self
        } else {
            self.ran(names.drop_last(), outcomes.drop_last()).recorded(
                names.last(),
                outcomes.last().error,
                outcomes.last().finished_at,
            )
        }
    }

    /// The record once the run is complete at `now`.
    pub open spec fn finished(self, now: Seq<char>) -> RunView {
        RunView { finished_at: Some(now), ..self }
    }
}

/// Whatever the outcomes, a run leaves an entry for every unit and loses no
/// error line that was there: no failure halts the run.
pub proof fn lemma_every_unit_recorded(run: RunView, names: Seq<Seq<char>>, outcomes: Seq<OutcomeView>)
    requires
        names.len() == outcomes.len(),
    ensures
        forall|i: int| 0 <= i < names.len() ==> run.ran(names, outcomes).steps.contains_key(#[trigger] names[i]),
        run.ran(names, outcomes).errors.len() >= run.errors.len(),
        run.ran(names, outcomes).errors.take(run.errors.len() as int) == run.errors,
    decreases names.len(),
{
    if names.len() > 0 {
        lemma_every_unit_recorded(run, names.drop_last(), outcomes.drop_last());
        let before = run.ran(names.drop_last(), outcomes.drop_last());
        let after = run.ran(names, outcomes);
        assert forall|i: int| 0 <= i < names.len() implies after.steps.contains_key(#[trigger] names[i]) by {
            if i < names.len() - 1 {
                assert(names.drop_last()[i] == names[i]);
            }
        }
        assert(after.errors.take(run.errors.len() as int) =~= before.errors.take(run.errors.len() as int));
    } else {
        assert(run.errors.take(run.errors.len() as int) == run.errors);
    }
}

impl ProcessingFile {
    /// The record of a run of `audio_file` that starts at `now` under the id `doc_id`.
    pub fn started(doc_id: String, audio_file: &str, now: &str) -> (r: Self)
        ensures
            r@ == RunView::started(doc_id@, audio_file@, now@),
            r.steps.wf(),
    {
        let r = ProcessingFile {
            doc_id,
            audio_file: audio_file.to_owned(),
            started_at: now.to_owned(),
            finished_at: None,
            steps: StepTable::new(),
            errors: Vec::new(),
        };
        assert(r@.errors =~= Seq::empty());
        r
    }

    /// The record of a run of `audio_file` that starts now under a fresh id.
    pub fn start(audio_file: &str) -> (r: Self)
        ensures
            r@ == RunView::started(r@.doc_id, audio_file@, r@.started_at),
            r.steps.wf(),
    {
        let doc_id = new_document_id();
        let now = now_rfc3339();
        Self::started(doc_id, audio_file, now.as_str())
    }

    /// The run record to go on with: the persisted one where there is one,
    /// and else the record of a run of `audio_file` that starts now.
    pub fn load_or_create(persisted: Option<ProcessingFile>, audio_file: &str) -> (r: Self)
        ensures
            persisted matches Some(p) ==> r == p,
            persisted is None ==> r@ == RunView::started(r@.doc_id, audio_file@, r@.started_at)
                && r.steps.wf(),
    {
        match persisted {
            Some(p) => p,
            None => Self::start(audio_file),
        }
    }

    /// Records that the unit `name` ended with `result` at `now`.
    pub fn record(&mut self, name: &str, result: &Result<(), String>, now: &str)
        requires
            old(self).steps.wf(),
        ensures
            final(self)@ == old(self)@.recorded(name@, error_of(*result), now@),
            final(self).steps.wf(),
    {
        match result {
            Ok(_) => {
                self.steps.insert(name, ProcessingStep::ended(true, now));
            },
            Err(e) => {
                let mut line = name.to_owned();
                line.append(": ");
                line.append(e.as_str());
                self.errors.push(line);
                assert(texts(self.errors@) =~= texts(old(self).errors@).push(name@ + ": "@ + e@));
                self.steps.insert(name, ProcessingStep::ended(false, now));
            },
        }
    }

    /// Stamps the run as complete at `now`.
    pub fn finish(&mut self, now: &str)
        ensures
            final(self)@ == old(self)@.finished(now@),
            final(self).steps.wf() == old(self).steps.wf(),
    {
        self.finished_at = Some(now.to_owned());
    }
}

/// What a run is to do next.
#[derive(Clone, Copy, PartialEq, Eq, Debug, Structural)]
pub enum Next {
    /// Run the step at this place.
    Step(usize),
    /// Run the agent at this place.
    Agent(usize),
    /// Stamp the run as complete.
    Finish,
}

/// The plan of a run: the names of its steps and of its agents, in the
/// order in which they run.
#[derive(Debug)]
pub struct Pipeline {
    steps: Vec<String>,
    agents: Vec<String>,
}

impl Pipeline {
    /// The names of the steps.
    pub closed spec fn step_names(&self) -> Seq<Seq<char>> {
        texts(self.steps@)
    }

    /// The names of the agents.
    pub closed spec fn agent_names(&self) -> Seq<Seq<char>> {
        texts(self.agents@)
    }

    /// The names of all units in the order in which they run: the steps,
    /// then the agents.
    pub open spec fn units(&self) -> Seq<Seq<char>> {
        self.step_names() + self.agent_names()
    }

    /// Whether `unit` names a unit of the plan.
    pub open spec fn runs(&self, unit: Next) -> bool {
        match unit {
            Next::Step(i) => i < self.step_names().len(),
            Next::Agent(i) => i < self.agent_names().len(),
            Next::Finish => false,
        }
    }

    /// The name of a unit of the plan.
    pub open spec fn name_of(&self, unit: Next) -> Seq<char> {
        match unit {
            Next::Step(i) => self.step_names()[i as int],
            Next::Agent(i) => self.agent_names()[i as int],
            Next::Finish => Seq::empty(),
        }
    }

    /// What comes first: the first step, else the first agent, else the end.
    pub open spec fn first_unit(&self) -> Next {
        if self.step_names().len() > 0 {
            Next::Step(0)
        } else if self.agent_names().len() > 0 {
            Next::Agent(0)
        } else {
            Next::Finish
        }
    }

    /// What comes after `unit`, however `unit` ended.
    pub open spec fn follows(&self, unit: Next) -> Next {
        match unit {
            Next::Step(i) => if i + 1 < self.step_names().len() {
                Next::Step((i + 1) as usize)
            } else if self.agent_names().len() > 0 {
                Next::Agent(0)
            } else {
                Next::Finish
            },
            Next::Agent(i) => if i + 1 < self.agent_names().len() {
                Next::Agent((i + 1) as usize)
            } else {
                Next::Finish
            },
            Next::Finish => Next::Finish,
        }
    }

    /// A plan without units.
    pub fn new() -> (r: Self)
        ensures
            r.step_names().len() == 0,
            r.agent_names().len() == 0,
    {
        Pipeline { steps: Vec::new(), agents: Vec::new() }
    }

    /// The plan with one more step, to run after the steps that are there.
    pub fn add_step(self, name: &str) -> (r: Self)
        ensures
            r.step_names() == self.step_names().push(name@),
            r.agent_names() == self.agent_names(),
    {
        let mut plan = self;
        plan.steps.push(name.to_owned());
        assert(texts(plan.steps@) =~= texts(self.steps@).push(name@));
        plan
    }

    /// The plan with one more agent, to run after the agents that are there.
    pub fn add_agent(self, name: &str) -> (r: Self)
        ensures
            r.agent_names() == self.agent_names().push(name@),
            r.step_names() == self.step_names(),
    {
        let mut plan = self;
        plan.agents.push(name.to_owned());
        assert(texts(plan.agents@) =~= texts(self.agents@).push(name@));
        plan
    }

    /// The number of steps.
    pub fn step_count(&self) -> (r: usize)
        ensures
            r == self.step_names().len(),
    {
        self.steps.len()
    }

    /// The number of agents.
    pub fn agent_count(&self) -> (r: usize)
        ensures
            r == self.agent_names().len(),
    {
        self.agents.len()
    }

    /// The name of `unit`, if it is a unit of the plan.
    pub fn unit_name(&self, unit: Next) -> (r: Option<&String>)
        ensures
            r is Some <==> self.runs(unit),
            r matches Some(n) ==> n@ == self.name_of(unit),
    {
        match unit {
            Next::Step(i) => if i < self.steps.len() {
                Some(&self.steps[i])
            } else {
                None
            },
            Next::Agent(i) => if i < self.agents.len() {
                Some(&self.agents[i])
            } else {
                None
            },
            Next::Finish => None,
        }
    }

    /// What a run does first.
    pub fn first(&self) -> (r: Next)
        ensures
            r == self.first_unit(),
    {
        if self.steps.len() > 0 {
            Next::Step(0)
        } else if self.agents.len() > 0 {
            Next::Agent(0)
        } else {
            Next::Finish
        }
    }

    /// What a run does after `unit`, however `unit` ended.
    pub fn after(&self, unit: Next) -> (r: Next)
        ensures
            r == self.follows(unit),
    {
        assert(self.step_names().len() == self.steps.len());
        assert(self.agent_names().len() == self.agents.len());
        match unit {
            Next::Step(i) => if i < usize::MAX && i + 1 < self.steps.len() {
                Next::Step(i + 1)
            } else if self.agents.len() > 0 {
                Next::Agent(0)
            } else {
                Next::Finish
            },
            Next::Agent(i) => if i < usize::MAX && i + 1 < self.agents.len() {
                Next::Agent(i + 1)
            } else {
                Next::Finish
            },
            Next::Finish => Next::Finish,
        }
    }

    /// Records in `processing` that `unit` ended with `result` at `now`, and
    /// tells what comes next once the record is persisted. A failure is
    /// recorded like a success: the run goes on.
    pub fn record(
        &self,
        processing: &mut ProcessingFile,
        unit: Next,
        result: &Result<(), String>,
        now: &str,
    ) -> (r: Next)
        requires
            self.runs(unit),
            old(processing).steps.wf(),
        ensures
            final(processing)@ == old(processing)@.recorded(
                self.name_of(unit),
                error_of(*result),
                now@,
            ),
            final(processing).steps.wf(),
            r == self.follows(unit),
    {
        match self.unit_name(unit) {
            Some(name) => {
                processing.record(name.as_str(), result, now);
            },
            None => {},
        }
        self.after(unit)
    }

    /// The whole run on a run record, given how each unit ends: every unit
    /// is recorded in order, then the run is stamped as complete at
    /// `finished_at`.
    pub fn run(&self, processing: &mut ProcessingFile, outcomes: &Vec<UnitOutcome>, finished_at: &str)
        requires
            outcomes@.len() == self.units().len(),
            old(processing).steps.wf(),
        ensures
            final(processing)@ == old(processing)@.ran(self.units(), outcome_views(outcomes@)).finished(
                finished_at@,
            ),
            final(processing).steps.wf(),
    {
        let ghost names = self.units();
        let ghost os = outcome_views(outcomes@);
        let mut unit = self.first();
        let mut k: usize = 0;
        assert(names.take(0) =~= Seq::<Seq<char>>::empty());
        while unit != Next::Finish
            invariant
                names == self.units(),
                os == outcome_views(outcomes@),
                os.len() == names.len(),
                names.len() == outcomes.len(),
                k <= names.len(),
                processing.steps.wf(),
                unit == Next::Finish ==> k == names.len(),
                unit != Next::Finish ==> self.runs(unit) && k < names.len() && names[k as int]
                    == self.name_of(unit),
                unit matches Next::Step(i) ==> i == k,
                unit matches Next::Agent(i) ==> i + self.step_names().len() == k,
                processing@ == old(processing)@.ran(names.take(k as int), os.take(k as int)),
            decreases names.len() - k,
        {
            proof {
                assert(names.take(k + 1).drop_last() == names.take(k as int));
                assert(os.take(k + 1).drop_last() == os.take(k as int));
                assert(names.take(k + 1).last() == names[k as int]);
                assert(os.take(k + 1).last() == outcomes@[k as int]@);
            }
            let outcome = &outcomes[k];
            unit = self.record(processing, unit, &outcome.result, outcome.finished_at.as_str());
            k += 1;
        }
        proof {
            assert(names.take(names.len() as int) == names);
            assert(os.take(os.len() as int) == os);
        }
        processing.finish(finished_at);
    }
}

} // verus!
