//! The runner of identity resolvers: resolvers run strictly in order, and
//! the first failure ends the run. The caller performs each resolver; this
//! module decides what follows from its outcome.

use vstd::prelude::*;
use vstd::string::*;

verus! {

/// What a resolver works on: the root of the user's data.
#[derive(Clone, Debug)]
pub struct ResolverContext {
    pub data_root: String,
}

impl ResolverContext {
    /// The context for the data under `data_root`.
    pub fn new(data_root: String) -> (r: Self)
        ensures
            r.data_root == data_root,
    {
        ResolverContext { data_root }
    }
}

/// The failure of one resolver, which ended the run.
#[derive(Debug)]
pub struct ResolverFailure {
    pub resolver: String,
    pub cause: String,
}

impl ResolverFailure {
    /// The error as the caller of the run sees it.
    pub fn message(&self) -> (r: String)
        ensures
            r@ == "resolver failed: "@ + self.resolver@,
    {
        let mut m = "resolver failed: ".to_owned();
        m.append(self.resolver.as_str());
        m
    }
}

/// What the runner does next.
#[derive(Debug)]
pub enum RunnerStep {
    /// Run the resolver at this place.
    Run(usize),
    /// All resolvers have run.
    Done,
    /// A resolver failed; none of the others is run.
    Failed(ResolverFailure),
}

/// The step that runs the resolvers as part of a pipeline.
#[derive(Debug)]
pub struct ResolversPipeline {
    pub resolvers: Vec<String>,
}

/// Runs resolvers in order.
pub struct ResolverRunner;

/// Whether the resolver at `f` is the first to fail.
pub open spec fn first_failure(outcomes: Seq<Result<(), String>>, f: int) -> bool {
    &&& 0 <= f < outcomes.len()
    &&& outcomes[f] is Err
    &&& forall|i: int| 0 <= i < f ==> (#[trigger] outcomes[i]) is Ok
}

impl ResolversPipeline {
    /// The name of the step in run records.
    pub fn name() -> (r: &'static str)
        ensures
            r@ == "resolvers"@,
    {
        "resolvers"
    }
}

impl ResolverRunner {
    /// What the runner does first with `count` resolvers.
    pub fn first(count: usize) -> (r: RunnerStep)
        ensures
            count == 0 ==> r is Done,
            count > 0 ==> r == RunnerStep::Run(0),
    {
        if count == 0 {
            RunnerStep::Done
        } else {
            RunnerStep::Run(0)
        }
    }

    /// What the runner does after the resolver at `index` ended with
    /// `outcome`: after a success the next resolver runs, if there is one;
    /// a failure ends the run.
    pub fn after(names: &Vec<String>, index: usize, outcome: Result<(), String>) -> (r: RunnerStep)
        requires
            index < names@.len(),
        ensures
            outcome is Ok && index + 1 < names@.len() ==> r == RunnerStep::Run((index + 1) as usize),
            outcome is Ok && index + 1 == names@.len() ==> r is Done,
            outcome matches Err(e) ==> (r matches RunnerStep::Failed(f) && f.resolver@
                == names@[index as int]@ && f.cause@ == e@),
    {
        match outcome {
            Ok(_) => {
                let count = names.len();
                if index + 1 < count {
                    RunnerStep::Run(index + 1)
                } else {
                    RunnerStep::Done
                }
            },
            Err(e) => RunnerStep::Failed(
                ResolverFailure { resolver: names[index].clone(), cause: e },
            ),
        }
    }

    /// The result of a run of the resolvers `names`, where `outcomes` tells
    /// how each of them ends if it is run: the failure of the first that
    /// fails, and success if none does.
    pub fn run_all(names: &Vec<String>, outcomes: &Vec<Result<(), String>>) -> (r: Result<
        (),
        ResolverFailure,
    >)
        requires
            names@.len() == outcomes@.len(),
        ensures
            r is Ok <==> forall|i: int| 0 <= i < outcomes@.len() ==> (#[trigger] outcomes@[i]) is Ok,
            r matches Err(f) ==> (exists|k: int|
                first_failure(outcomes@, k) && f.resolver@ == (#[trigger] names@[k])@ && f.cause@
                    == outcomes@[k]->Err_0@),
    {
        let mut i: usize = 0;
        while i < names.len()
            invariant
                i <= names.len(),
                names@.len() == outcomes@.len(),
                forall|j: int| 0 <= j < i ==> (#[trigger] outcomes@[j]) is Ok,
            decreases names.len() - i,
        {
            match &outcomes[i] {
                Ok(_) => {},
                Err(e) => {
                    let f = ResolverFailure { resolver: names[i].clone(), cause: e.clone() };
                    assert(first_failure(outcomes@, i as int));
                    return Err(f);
                },
            }
            i += 1;
        }
        Ok(())
    }
}

} // verus!
