//! One task under way: where it starts or resumes, which step comes next, and what it leaves
//! behind.

use crate::assignment::JobAssignment;
use crate::catalog::Catalog;
#[allow(unused_imports)]
use crate::checkpoint::{is_readable, reads_checkpoint, writes_checkpoint, StoredCheckpoint};
use crate::error::GenericJobError;
use crate::estimate::ScalarEstimate;
#[allow(unused_imports)]
use crate::estimate::is_valid_scalar;
#[allow(unused_imports)]
use crate::faults::{first_fault, lemma_first_fault, lemma_no_fault};
use crate::model::{MonteCarlo, Task};
#[allow(unused_imports)]
use crate::model::{task_cloned, tasks_agree, TaskView};
#[allow(unused_imports)]
use crate::simulation::{
    lemma_faultless_observables, observables_consistent, AccumulatorView, ContextView,
};
use crate::results::{TaskResult, TaskResultView};
#[allow(unused_imports)]
use crate::results::is_valid_task_result;
use crate::simulation::{CompactAccumulator, Context};
use crate::state::{all_finite, sample_count, CheckpointState, RestoredState};
#[allow(unused_imports)]
use crate::state::{
    law_saved_state_reads_back, state_view, stored_fault, stored_view, types_checkpoint, Checkpoint,
    StateView,
};
use vstd::prelude::*;
#[allow(unused_imports)]
use vstd::std_specs::cmp::PartialEqSpec;

verus! {

/// The surroundings of a task in a run.
#[derive(Debug)]
pub struct TaskRuntime {
    pub job_name: String,
    pub task_index: usize,
    pub assignment: JobAssignment,
    /// Whether a checkpoint of another rank may be resumed.
    pub allow_different_rank: bool,
    /// How many sweeps the task may use.
    pub sweep_budget: usize,
}

/// A task under way.
pub struct TaskRun<M: MonteCarlo> {
    pub model: M,
    pub context: Context,
    pub thermalization_sweeps: usize,
    pub measurement_sweeps: usize,
    /// How many sweeps this run has used.
    pub used: usize,
}

/// What a task does next.
#[derive(Debug, Clone, Copy, PartialEq, Eq, Structural)]
pub enum Step {
    /// One sweep without a measurement.
    Thermalize,
    /// One sweep with a measurement.
    Measure,
    /// Nothing more in this run.
    Stop,
}

/// Why a restored state does not fit its task, if it does not: the first observable with a
/// fault decides.
pub open spec fn restored_observable_fault(
    name: Seq<char>,
    accumulator: AccumulatorView,
    measurement_sweeps: usize,
) -> Option<Seq<char>> {
    if name.len() == 0 {
        Some("checkpoint has an empty observable name"@)
    } else if accumulator.binsize == 0 || accumulator.pending_count >= accumulator.binsize
        || accumulator.total_count > measurement_sweeps {
        Some("checkpoint accumulator has invalid bin state"@)
    } else if accumulator.pending_count == 0 && !accumulator.pending_sum.zero() {
        Some("checkpoint accumulator has a residual completed-bin sum"@)
    } else if accumulator.samples() > usize::MAX {
        Some("checkpoint accumulator total overflow"@)
    } else if accumulator.total_count != accumulator.samples() {
        Some("checkpoint accumulator total is inconsistent"@)
    } else if !accumulator.pending_sum.finite() || !accumulator.bins_are_finite() {
        Some("checkpoint accumulator contains a non-finite value"@)
    } else {
        None
    }
}

/// The faults of restored observables, one by one.
pub open spec fn restored_observable_faults(
    observables: Seq<(Seq<char>, AccumulatorView)>,
    measurement_sweeps: usize,
) -> Seq<Option<Seq<char>>> {
    observables.map_values(
        |e: (Seq<char>, AccumulatorView)| restored_observable_fault(e.0, e.1, measurement_sweeps),
    )
}

/// The first fault among restored observables, if there is one.
pub open spec fn restored_observables_fault(
    observables: Seq<(Seq<char>, AccumulatorView)>,
    measurement_sweeps: usize,
) -> Option<Seq<char>> {
    first_fault(restored_observable_faults(observables, measurement_sweeps))
}

/// Why a restored state does not fit its task, if it does not.
pub open spec fn restored_fault<P>(task: TaskView<P>, state: StateView<P>) -> Option<Seq<char>> {
    if state.thermalization_sweeps > task.thermalization || state.measurement_sweeps
        > task.sweeps {
        Some("checkpoint sweep count exceeds task"@)
    } else if state.measurement_sweeps > 0 && state.thermalization_sweeps != task.thermalization {
        Some("checkpoint measured before thermalization completed"@)
    } else {
        restored_observables_fault(state.observables, state.measurement_sweeps)
    }
}

fn validate_restored_observable(
    name: &String,
    accumulator: &CompactAccumulator,
    measurement_sweeps: usize,
) -> (checked: Result<(), &'static str>)
    ensures
        match restored_observable_fault(name@, accumulator@, measurement_sweeps) {
            Some(fault) => checked matches Err(reason) && reason@ == fault,
            None => checked is Ok,
        },
{
    if name.as_str().is_empty() {
        return Err("checkpoint has an empty observable name");
    }
    if accumulator.binsize == 0 || accumulator.pending_count >= accumulator.binsize
        || accumulator.total_count > measurement_sweeps {
        return Err("checkpoint accumulator has invalid bin state");
    }
    if accumulator.pending_count == 0 && !accumulator.pending_sum.is_zero() {
        return Err("checkpoint accumulator has a residual completed-bin sum");
    }
    match sample_count(accumulator) {
        None => return Err("checkpoint accumulator total overflow"),
        Some(samples) => if accumulator.total_count != samples {
            return Err("checkpoint accumulator total is inconsistent");
        },
    }
    if !accumulator.pending_sum.is_finite() || !all_finite(&accumulator.internal_bins) {
        return Err("checkpoint accumulator contains a non-finite value");
    }
    Ok(())
}

/// Checks that a restored state fits its task.
pub fn validate_restored_state<M: MonteCarlo>(
    task: &Task<M::Parameters>,
    restored: &RestoredState<M>,
) -> (checked: Result<(), &'static str>)
    ensures
        match restored_fault(task@, restored.state()) {
            Some(fault) => checked matches Err(reason) && reason@ == fault,
            None => checked is Ok,
        },
{
    if restored.thermalization_sweeps > task.thermalization || restored.measurement_sweeps
        > task.sweeps {
        return Err("checkpoint sweep count exceeds task");
    }
    if restored.measurement_sweeps > 0 && restored.thermalization_sweeps != task.thermalization {
        return Err("checkpoint measured before thermalization completed");
    }
    let ghost observables = restored.observables@;
    let ghost faults = restored_observable_faults(observables, restored.measurement_sweeps);
    let count: usize = restored.observables.len();
    let mut index: usize = 0;
    while index < count
        invariant
            index <= count,
            count == observables.len(),
            observables == restored.observables@,
            faults == restored_observable_faults(observables, restored.measurement_sweeps),
            forall|i: int| 0 <= i < index ==> #[trigger] faults[i] is None,
            restored_fault(task@, restored.state()) == first_fault(faults),
        decreases count - index,
    {
        proof {
            assert(faults[index as int] == restored_observable_fault(
                observables[index as int].0,
                observables[index as int].1,
                restored.measurement_sweeps,
            ));
            if faults[index as int] is Some {
                lemma_first_fault(faults, index as int);
            }
        }
        validate_restored_observable(
            restored.observables.name_at(index),
            restored.observables.value_at(index),
            restored.measurement_sweeps,
        )?;
        index = index + 1;
    }
    proof {
        lemma_no_fault(faults);
    }
    Ok(())
}

/// Restored observables without a fault are exactly the consistent ones with names, none with
/// more samples than there were measurement sweeps.
pub proof fn law_faultless_restored_observables(
    observables: Seq<(Seq<char>, AccumulatorView)>,
    measurement_sweeps: usize,
)
    ensures
        restored_observables_fault(observables, measurement_sweeps) is None
            <==> observables_consistent(observables, measurement_sweeps as nat),
{
    lemma_faultless_observables(
        observables,
        restored_observable_faults(observables, measurement_sweeps),
        measurement_sweeps as nat,
    );
}

/// Whether a restored state belongs to this place in this run, whatever task it was saved for.
pub open spec fn place_matches<P>(
    task: TaskView<P>,
    runtime: TaskRuntime,
    state: StateView<P>,
) -> bool {
    &&& runtime.allow_different_rank || state.rank == runtime.assignment.rank
    &&& state.world_size == runtime.assignment.world_size
    &&& state.rank < state.world_size
    &&& state.job_name == runtime.job_name@
    &&& state.task_index == runtime.task_index
    &&& restored_fault(task, state) is None
}

/// The context that a saved state leads back to.
pub open spec fn restored_context<P>(task: TaskView<P>, state: StateView<P>) -> ContextView {
    ContextView {
        rng: crate::rng::DeterministicRng { seed: task.seed, draws: state.rng_position },
        thermalized: state.thermalization_sweeps >= task.thermalization,
        binsize: task.binsize,
        observables: state.observables,
    }
}

/// The context of a task before its first sweep.
pub open spec fn fresh_context<P>(task: TaskView<P>) -> ContextView {
    ContextView {
        rng: crate::rng::DeterministicRng { seed: task.seed, draws: 0 },
        thermalized: false,
        binsize: task.binsize,
        observables: Seq::empty(),
    }
}

/// What comes next for a task with these counts: thermalization first, then measurement, as long
/// as the budget and the time allow.
pub open spec fn step_after<P>(
    task: TaskView<P>,
    thermalization_sweeps: usize,
    measurement_sweeps: usize,
    used: usize,
    sweep_budget: usize,
    in_time: bool,
) -> Step {
    if used >= sweep_budget || !in_time {
        Step::Stop
    } else if thermalization_sweeps < task.thermalization {
        Step::Thermalize
    } else if measurement_sweeps < task.sweeps {
        Step::Measure
    } else {
        Step::Stop
    }
}

/// Whether every observable has a completed bin.
pub open spec fn have_full_bins(observables: Seq<(Seq<char>, AccumulatorView)>) -> bool {
    forall|i: int|
        0 <= i < observables.len() ==> (#[trigger] observables[i]).1.internal_bins.len() > 0
}

impl<M: MonteCarlo> TaskRun<M> {
    /// Starts a task: the model is built and initialized with a fresh context.
    pub fn start(task: &Task<M::Parameters>) -> (run: Result<Self, M::Error>)
        ensures
            match run {
                Ok(r) => {
                    &&& r.thermalization_sweeps == 0
                    &&& r.measurement_sweeps == 0
                    &&& r.used == 0
                    &&& exists|m: &mut M, c: &mut Context|
                        {
                            &&& call_ensures(M::new, (&task.parameters,), Ok(*m))
                            &&& c@ == fresh_context(task@)
                            &&& #[trigger] call_ensures(M::init, (m, c), Ok(()))
                            &&& *final(m) == r.model
                            &&& *final(c) == r.context
                        }
                },
                Err(e) => call_ensures(M::new, (&task.parameters,), Err(e)) || exists|
                    m: &mut M,
                    c: &mut Context,
                |
                    {
                        &&& call_ensures(M::new, (&task.parameters,), Ok(*m))
                        &&& c@ == fresh_context(task@)
                        &&& #[trigger] call_ensures(M::init, (m, c), Err(e))
                    },
            },
    {
        let mut model = M::new(&task.parameters)?;
        let mut context = Context::fresh(task.seed, task.binsize);
        model.init(&mut context)?;
        Ok(
            TaskRun {
                model,
                context,
                thermalization_sweeps: 0,
                measurement_sweeps: 0,
                used: 0,
            },
        )
    }

    /// Takes a task up where a checkpoint left it. A state that does not belong to it in
    /// this run is refused.
    pub fn resume(
        task: &Task<M::Parameters>,
        runtime: &TaskRuntime,
        path: &str,
        restored: RestoredState<M>,
    ) -> (run: Result<Self, GenericJobError>) where M::Parameters: PartialEq
        ensures
            M::Parameters::obeys_eq_spec() ==> (run is Ok <==> place_matches(
                task@,
                *runtime,
                restored.state(),
            ) && tasks_agree(restored.task@, task@)),
            match run {
                Ok(r) => {
                    &&& r.model == restored.model
                    &&& r.context@ == restored_context(task@, restored.state())
                    &&& r.thermalization_sweeps == restored.thermalization_sweeps
                    &&& r.measurement_sweeps == restored.measurement_sweeps
                    &&& r.used == 0
                    &&& place_matches(task@, *runtime, restored.state())
                    &&& restored.task.name@ == task.name@
                    &&& restored.task.sweeps == task.sweeps
                    &&& restored.task.thermalization == task.thermalization
                    &&& restored.task.binsize == task.binsize
                    &&& restored.task.seed == task.seed
                },
                Err(e) => e matches GenericJobError::CheckpointMismatch { path: p, task: t }
                    && p@ == path@ && t@ == task.name@,
            },
    {
        if (!runtime.allow_different_rank && restored.rank != runtime.assignment.rank)
            || restored.world_size != runtime.assignment.world_size || restored.world_size == 0
            || restored.rank >= restored.world_size || restored.job_name != runtime.job_name
            || !(restored.task == *task) || restored.task_index != runtime.task_index
            || validate_restored_state(task, &restored).is_err() {
            return Err(
                GenericJobError::CheckpointMismatch {
                    path: path.to_owned(),
                    task: task.name.clone(),
                },
            );
        }
        let thermalized = restored.thermalization_sweeps >= task.thermalization;
        Ok(
            TaskRun {
                model: restored.model,
                context: Context::restored(
                    task.seed,
                    restored.rng_position,
                    task.binsize,
                    restored.observables,
                    thermalized,
                ),
                thermalization_sweeps: restored.thermalization_sweeps,
                measurement_sweeps: restored.measurement_sweeps,
                used: 0,
            },
        )
    }

    /// Which step comes next. `in_time` says that there is no deadline or that it has not come.
    pub fn next_step(&self, task: &Task<M::Parameters>, sweep_budget: usize, in_time: bool) -> (step:
        Step)
        ensures
            step == step_after(
                task@,
                self.thermalization_sweeps,
                self.measurement_sweeps,
                self.used,
                sweep_budget,
                in_time,
            ),
    {
        if self.used >= sweep_budget || !in_time {
            Step::Stop
        } else if self.thermalization_sweeps < task.thermalization {
            Step::Thermalize
        } else if self.measurement_sweeps < task.sweeps {
            Step::Measure
        } else {
            Step::Stop
        }
    }

    /// Performs one sweep without a measurement and counts it. A model that fails leaves the
    /// counts as they were.
    pub fn thermalize(&mut self) -> (done: Result<(), M::Error>)
        requires
            old(self).thermalization_sweeps < usize::MAX,
            old(self).used < usize::MAX,
        ensures
            exists|m: &mut M, c: &mut Context|
                {
                    &&& *m == old(self).model
                    &&& *c == old(self).context
                    &&& #[trigger] call_ensures(M::sweep, (m, c), done)
                    &&& *final(m) == final(self).model
                    &&& *final(c) == final(self).context
                },
            forall|dynamics: Dynamics<M>|
                (forall|m: &mut M, c: &mut Context, r: Result<(), M::Error>| #[trigger]
                    call_ensures(M::sweep, (m, c), r) ==> r is Ok && (*final(m), final(c)@) == (
                    dynamics.sweep)(*m, c@)) ==> done is Ok && (
                    final(self).model,
                    final(self).context@,
                ) == #[trigger] (dynamics.sweep)(old(self).model, old(self).context@),
            final(self).measurement_sweeps == old(self).measurement_sweeps,
            match done {
                Ok(_) => final(self).thermalization_sweeps == old(self).thermalization_sweeps + 1
                    && final(self).used == old(self).used + 1,
                Err(_) => final(self).thermalization_sweeps == old(self).thermalization_sweeps
                    && final(self).used == old(self).used,
            },
    {
        self.model.sweep(&mut self.context)?;
        self.thermalization_sweeps = self.thermalization_sweeps + 1;
        self.used = self.used + 1;
        Ok(())
    }

    /// Performs one sweep with a measurement and counts it. A model that fails leaves the counts
    /// as they were.
    pub fn measure(&mut self) -> (done: Result<(), M::Error>)
        requires
            old(self).measurement_sweeps < usize::MAX,
            old(self).used < usize::MAX,
        ensures
            exists|m: &mut M, c: &mut Context, swept: Result<(), M::Error>|
                {
                    &&& *m == old(self).model
                    &&& c@ == (ContextView { thermalized: true, ..old(self).context@ })
                    &&& #[trigger] call_ensures(M::sweep, (m, c), swept)
                    &&& if swept is Ok {
                        exists|n: &mut M, d: &mut Context|
                            {
                                &&& *n == *final(m)
                                &&& *d == *final(c)
                                &&& #[trigger] call_ensures(M::measure, (n, d), done)
                                &&& *final(n) == final(self).model
                                &&& *final(d) == final(self).context
                            }
                    } else {
                        &&& done == swept
                        &&& *final(m) == final(self).model
                        &&& *final(c) == final(self).context
                    }
                },
            forall|dynamics: Dynamics<M>|
                (forall|m: &mut M, c: &mut Context, r: Result<(), M::Error>| #[trigger]
                    call_ensures(M::sweep, (m, c), r) ==> r is Ok && (*final(m), final(c)@) == (
                    dynamics.sweep)(*m, c@)) && (forall|
                    m: &mut M,
                    c: &mut Context,
                    r: Result<(), M::Error>,
                | #[trigger]
                    call_ensures(M::measure, (m, c), r) ==> r is Ok && (*final(m), final(c)@) == (
                    dynamics.measure)(*m, c@)) ==> done is Ok && (
                    final(self).model,
                    final(self).context@,
                ) == #[trigger] swept_and_measured(dynamics, old(self).model, old(self).context@),
            final(self).thermalization_sweeps == old(self).thermalization_sweeps,
            match done {
                Ok(_) => final(self).measurement_sweeps == old(self).measurement_sweeps + 1
                    && final(self).used == old(self).used + 1,
                Err(_) => final(self).measurement_sweeps == old(self).measurement_sweeps
                    && final(self).used == old(self).used,
            },
    {
        self.context.thermalized = true;
        self.model.sweep(&mut self.context)?;
        self.model.measure(&mut self.context)?;
        self.measurement_sweeps = self.measurement_sweeps + 1;
        self.used = self.used + 1;
        Ok(())
    }

    /// The state to save at this point.
    pub fn checkpoint_state(&self, task: &Task<M::Parameters>, runtime: &TaskRuntime) -> (state:
        CheckpointState<M::Parameters>) where M::Parameters: Clone
        ensures
            task_cloned(task@, state.task@),
            state@ == saved_state(
                state.task@,
                *runtime,
                self.context@,
                self.thermalization_sweeps,
                self.measurement_sweeps,
            ),
    {
        CheckpointState {
            rank: runtime.assignment.rank,
            world_size: runtime.assignment.world_size,
            job_name: runtime.job_name.clone(),
            task: task.clone(),
            task_index: runtime.task_index,
            rng_position: self.context.rng_position(),
            thermalization_sweeps: self.thermalization_sweeps,
            measurement_sweeps: self.measurement_sweeps,
            observables: self.context.observables().clone(),
        }
    }

    /// Whether the task has all its sweeps.
    pub fn is_completed(&self, task: &Task<M::Parameters>) -> (completed: bool)
        ensures
            completed == (self.thermalization_sweeps == task.thermalization
                && self.measurement_sweeps == task.sweeps),
    {
        self.thermalization_sweeps == task.thermalization && self.measurement_sweeps == task.sweeps
    }

    /// Checks that every observable has a completed bin, so that it can be estimated. The first
    /// one without is reported.
    pub fn check_samples(&self, task: &Task<M::Parameters>) -> (checked: Result<
        (),
        GenericJobError,
    >)
        ensures
            checked is Ok <==> have_full_bins(self.context@.observables),
            checked matches Err(e) ==> exists|i: int|
                {
                    &&& 0 <= i < self.context@.observables.len()
                    &&& (#[trigger] self.context@.observables[i]).1.internal_bins.len() == 0
                    &&& forall|k: int|
                        0 <= k < i ==> (
                        #[trigger] self.context@.observables[k]).1.internal_bins.len() > 0
                    &&& e matches GenericJobError::InsufficientSamples {
                        task: t,
                        observable,
                    } && t@ == task.name@ && observable@ == self.context@.observables[i].0
                },
    {
        let observables = self.context.observables();
        let count: usize = observables.len();
        let mut index: usize = 0;
        while index < count
            invariant
                index <= count,
                count == observables@.len(),
                observables@ == self.context@.observables,
                forall|i: int|
                    0 <= i < index ==> (#[trigger] observables@[i]).1.internal_bins.len() > 0,
            decreases count - index,
        {
            let accumulator = observables.value_at(index);
            assert(accumulator@ == self.context@.observables[index as int].1);
            if accumulator.internal_bins.len() == 0 {
                return Err(
                    GenericJobError::InsufficientSamples {
                        task: task.name.clone(),
                        observable: observables.name_at(index).clone(),
                    },
                );
            }
            index = index + 1;
        }
        Ok(())
    }

    /// The result of the task so far. The estimates count only where the task has all its sweeps.
    pub fn result(
        &self,
        task: &Task<M::Parameters>,
        task_index: usize,
        estimates: Catalog<ScalarEstimate>,
    ) -> (result: TaskResult<M::Parameters>) where M::Parameters: Clone
        ensures
            task_cloned(task@, result.task@),
            result@ == run_result(
                result.task@,
                task_index,
                self.thermalization_sweeps,
                self.measurement_sweeps,
                estimates@,
            ),
    {
        let completed = self.is_completed(task);
        TaskResult {
            task_index,
            task: task.clone(),
            observables: if completed {
                estimates
            } else {
                Catalog::new()
            },
            thermalization_sweeps: self.thermalization_sweeps,
            measurement_sweeps: self.measurement_sweeps,
            completed,
        }
    }
}

/// What the result of a task says.
pub open spec fn run_result<P>(
    task: TaskView<P>,
    task_index: usize,
    thermalization_sweeps: usize,
    measurement_sweeps: usize,
    estimates: Seq<(Seq<char>, ScalarEstimate)>,
) -> TaskResultView<P> {
    let completed = thermalization_sweeps == task.thermalization && measurement_sweeps
        == task.sweeps;
    TaskResultView {
        task_index,
        task,
        observables: if completed {
            estimates
        } else {
            Seq::empty()
        },
        thermalization_sweeps,
        measurement_sweeps,
        completed,
    }
}

/// The state that a run saves.
pub open spec fn saved_state<P>(
    task: TaskView<P>,
    runtime: TaskRuntime,
    context: ContextView,
    thermalization_sweeps: usize,
    measurement_sweeps: usize,
) -> StateView<P> {
    StateView {
        rank: runtime.assignment.rank,
        world_size: runtime.assignment.world_size,
        job_name: runtime.job_name@,
        task,
        task_index: runtime.task_index,
        rng_position: context.rng.draws,
        thermalization_sweeps,
        measurement_sweeps,
        observables: context.observables,
    }
}

/// A deterministic model: what a sweep and a measurement make of the model and the context.
#[verifier::reject_recursive_types(M)]
pub struct Dynamics<M> {
    pub sweep: spec_fn(M, ContextView) -> (M, ContextView),
    pub measure: spec_fn(M, ContextView) -> (M, ContextView),
}

/// A task under way, as far as its course depends on it.
pub struct RunView<M> {
    pub model: M,
    pub context: ContextView,
    pub thermalization_sweeps: usize,
    pub measurement_sweeps: usize,
}

/// What a sweep and a measurement after it make of the model and the context, which counts as
/// thermalized.
pub open spec fn swept_and_measured<M>(dynamics: Dynamics<M>, model: M, context: ContextView) -> (
    M,
    ContextView,
) {
    let (swept, between) = (dynamics.sweep)(model, ContextView { thermalized: true, ..context });
    (dynamics.measure)(swept, between)
}

/// A model may draw and record, but leaves the seed, the bin size of the task and the
/// thermalization flag alone.
pub open spec fn is_steady<M>(dynamics: Dynamics<M>) -> bool {
    forall|m: M, c: ContextView|
        #![trigger (dynamics.sweep)(m, c)]
        #![trigger (dynamics.measure)(m, c)]
        keeps_settings(c, (dynamics.sweep)(m, c).1) && keeps_settings(
            c,
            (dynamics.measure)(m, c).1,
        )
}

/// Whether two contexts agree on the seed, the bin size and the thermalization flag.
pub open spec fn keeps_settings(before: ContextView, after: ContextView) -> bool {
    &&& after.rng.seed == before.rng.seed
    &&& after.binsize == before.binsize
    &&& after.thermalized == before.thermalized
}

/// One step of a task: a sweep while it thermalizes, a sweep and a measurement after that,
/// nothing once it is complete.
pub open spec fn advanced<M, P>(
    dynamics: Dynamics<M>,
    task: TaskView<P>,
    run: RunView<M>,
) -> RunView<M> {
    if run.thermalization_sweeps < task.thermalization {
        let (model, context) = (dynamics.sweep)(run.model, run.context);
        RunView {
            model,
            context,
            thermalization_sweeps: (run.thermalization_sweeps + 1) as usize,
            ..run
        }
    } else if run.measurement_sweeps < task.sweeps {
        let (model, context) = swept_and_measured(dynamics, run.model, run.context);
        RunView { model, context, measurement_sweeps: (run.measurement_sweeps + 1) as usize, ..run }
    } else {
        run
    }
}

/// A task after a number of steps.
pub open spec fn after_steps<M, P>(
    dynamics: Dynamics<M>,
    task: TaskView<P>,
    run: RunView<M>,
    steps: nat,
) -> RunView<M>
    decreases steps,
{
    if steps == 0 {
        run
    } else {
        advanced(dynamics, task, after_steps(dynamics, task, run, (steps - 1) as nat))
    }
}

/// Whether the counts and the context of a task under way fit the task.
pub open spec fn on_course<M, P>(task: TaskView<P>, run: RunView<M>) -> bool {
    &&& run.context.rng.seed == task.seed
    &&& run.context.binsize == task.binsize
    &&& run.thermalization_sweeps <= task.thermalization
    &&& run.measurement_sweeps <= task.sweeps
    &&& run.measurement_sweeps > 0 ==> run.thermalization_sweeps == task.thermalization
    &&& run.context.thermalized ==> run.thermalization_sweeps == task.thermalization
}

/// The same task under way, with the flag that says whether thermalization is over brought up to
/// date. The flag is otherwise set when the first measurement begins.
pub open spec fn flagged<M, P>(task: TaskView<P>, run: RunView<M>) -> RunView<M> {
    RunView {
        context: ContextView {
            thermalized: run.thermalization_sweeps >= task.thermalization,
            ..run.context
        },
        ..run
    }
}

/// A task stays on course with every step.
pub proof fn law_stays_on_course<M, P>(
    dynamics: Dynamics<M>,
    task: TaskView<P>,
    run: RunView<M>,
    steps: nat,
)
    requires
        is_steady(dynamics),
        on_course(task, run),
    ensures
        on_course(task, after_steps(dynamics, task, run, steps)),
    decreases steps,
{
    if steps > 0 {
        law_stays_on_course(dynamics, task, run, (steps - 1) as nat);
        let before = after_steps(dynamics, task, run, (steps - 1) as nat);
        let marked = ContextView { thermalized: true, ..before.context };
        let (swept, between) = (dynamics.sweep)(before.model, before.context);
        let (other, late) = (dynamics.sweep)(before.model, marked);
        let (last, end) = (dynamics.measure)(other, late);
        assert(keeps_settings(before.context, between));
        assert(keeps_settings(marked, late));
        assert(keeps_settings(late, end));
    }
}

/// What [`TaskRun::next_step`] asks for is the step by which a task advances, and a task that is
/// asked to stop within its budget and in time is complete.
pub proof fn law_steps_follow_course<M, P>(
    dynamics: Dynamics<M>,
    task: TaskView<P>,
    run: RunView<M>,
    used: usize,
    sweep_budget: usize,
)
    requires
        used < sweep_budget,
        on_course(task, run),
    ensures
        ({
            let step = step_after(
                task,
                run.thermalization_sweeps,
                run.measurement_sweeps,
                used,
                sweep_budget,
                true,
            );
            let next = advanced(dynamics, task, run);
            match step {
                Step::Thermalize => (next.model, next.context) == (dynamics.sweep)(
                    run.model,
                    run.context,
                ) && next.thermalization_sweeps == run.thermalization_sweeps + 1
                    && next.measurement_sweeps == run.measurement_sweeps,
                Step::Measure => (next.model, next.context) == swept_and_measured(
                    dynamics,
                    run.model,
                    run.context,
                ) && next.thermalization_sweeps == run.thermalization_sweeps
                    && next.measurement_sweeps == run.measurement_sweeps + 1,
                Step::Stop => next == run && run.thermalization_sweeps == task.thermalization
                    && run.measurement_sweeps == task.sweeps,
            }
        }),
{
}

/// A task thermalizes first and measures then, one sweep with every step, until it has all its
/// sweeps.
pub proof fn law_course_counts<M, P>(
    dynamics: Dynamics<M>,
    task: TaskView<P>,
    begun: RunView<M>,
    steps: nat,
)
    requires
        begun.thermalization_sweeps == 0,
        begun.measurement_sweeps == 0,
    ensures
        ({
            let run = after_steps(dynamics, task, begun, steps);
            if steps <= task.thermalization {
                run.thermalization_sweeps == steps && run.measurement_sweeps == 0
            } else if steps <= task.thermalization + task.sweeps {
                run.thermalization_sweeps == task.thermalization && run.measurement_sweeps == steps
                    - task.thermalization
            } else {
                run.thermalization_sweeps == task.thermalization && run.measurement_sweeps
                    == task.sweeps
            }
        }),
    decreases steps,
{
    if steps > 0 {
        law_course_counts(dynamics, task, begun, (steps - 1) as nat);
    }
}

/// Steps taken in two portions are the steps taken at once.
pub proof fn law_portions<M, P>(
    dynamics: Dynamics<M>,
    task: TaskView<P>,
    run: RunView<M>,
    first: nat,
    second: nat,
)
    ensures
        after_steps(dynamics, task, after_steps(dynamics, task, run, first), second) == after_steps(
            dynamics,
            task,
            run,
            first + second,
        ),
    decreases second,
{
    if second > 0 {
        law_portions(dynamics, task, run, first, (second - 1) as nat);
    }
}

pub proof fn lemma_flag_does_not_matter<M, P>(
    dynamics: Dynamics<M>,
    task: TaskView<P>,
    run: RunView<M>,
    steps: nat,
)
    requires
        is_steady(dynamics),
        on_course(task, run),
    ensures
        flagged(task, after_steps(dynamics, task, flagged(task, run), steps)) == flagged(
            task,
            after_steps(dynamics, task, run, steps),
        ),
        after_steps(dynamics, task, run, steps) == after_steps(
            dynamics,
            task,
            flagged(task, run),
            steps,
        ) || after_steps(dynamics, task, flagged(task, run), steps) == flagged(
            task,
            after_steps(dynamics, task, run, steps),
        ),
    decreases steps,
{
    if steps > 0 {
        lemma_flag_does_not_matter(dynamics, task, run, (steps - 1) as nat);
        law_stays_on_course(dynamics, task, run, (steps - 1) as nat);
        let a = after_steps(dynamics, task, run, (steps - 1) as nat);
        let b = after_steps(dynamics, task, flagged(task, run), (steps - 1) as nat);
        if a != b {
            assert(b == flagged(task, a));
            if a.thermalization_sweeps < task.thermalization {
                assert(flagged(task, a).context =~= a.context);
                assert(flagged(task, a) == a);
            } else {
                assert(ContextView { thermalized: true, ..a.context } =~= ContextView {
                    thermalized: true,
                    ..b.context
                });
            }
        }
    }
}

/// A run that is interrupted after any number of steps, saved and resumed reaches what a run
/// without interruption reaches: the same model, stream, observables and counts.
///
/// `begun` is the task as it was started. `resumed` is the task taken up from the state that was
/// saved after `first` steps.
pub proof fn law_resumed_run<M, P>(
    dynamics: Dynamics<M>,
    task: TaskView<P>,
    runtime: TaskRuntime,
    begun: RunView<M>,
    resumed: RunView<M>,
    first: nat,
    second: nat,
)
    requires
        is_steady(dynamics),
        on_course(task, begun),
        ({
            let stopped = after_steps(dynamics, task, begun, first);
            let state = saved_state(
                task,
                runtime,
                stopped.context,
                stopped.thermalization_sweeps,
                stopped.measurement_sweeps,
            );
            resumed == RunView {
                model: stopped.model,
                context: restored_context(task, state),
                thermalization_sweeps: state.thermalization_sweeps,
                measurement_sweeps: state.measurement_sweeps,
            }
        }),
    ensures
        flagged(task, after_steps(dynamics, task, resumed, second)) == flagged(
            task,
            after_steps(dynamics, task, begun, first + second),
        ),
{
    let stopped = after_steps(dynamics, task, begun, first);
    law_stays_on_course(dynamics, task, begun, first);
    assert(resumed.context =~= flagged(task, stopped).context);
    assert(resumed == flagged(task, stopped));
    lemma_flag_does_not_matter(dynamics, task, stopped, second);
    law_portions(dynamics, task, begun, first, second);
}

/// What is saved of a task that is interrupted after some steps.
pub open spec fn state_after<M, P>(
    dynamics: Dynamics<M>,
    task: TaskView<P>,
    runtime: TaskRuntime,
    begun: RunView<M>,
    steps: nat,
) -> StateView<P> {
    let stopped = after_steps(dynamics, task, begun, steps);
    saved_state(
        task,
        runtime,
        stopped.context,
        stopped.thermalization_sweeps,
        stopped.measurement_sweeps,
    )
}

/// A run that is interrupted after any number of steps, saved to a checkpoint file and resumed
/// from it reaches what a run without interruption reaches.
///
/// `image` is the file that was written after `first` steps, with the JSON texts of the task, of
/// its parameters and of the model. `back` is what was read from it, and `typed` the same with the
/// task decoded: both succeed. `resumed` is the task taken up from it; the model that was saved is
/// what its JSON text is decoded to.
pub proof fn law_resumed_from_file<M, P>(
    dynamics: Dynamics<M>,
    task: TaskView<P>,
    runtime: TaskRuntime,
    begun: RunView<M>,
    path: Seq<char>,
    texts: (Seq<u8>, Seq<u8>, Seq<u8>),
    image: Vec<u8>,
    back: Result<StoredCheckpoint, GenericJobError>,
    typed: Result<Checkpoint<P>, GenericJobError>,
    resumed: RunView<M>,
    first: nat,
    second: nat,
)
    requires
        is_steady(dynamics),
        on_course(task, begun),
        ({
            let state = state_after(dynamics, task, runtime, begun, first);
            let stored = stored_view(state, texts.0, texts.1, texts.2);
            &&& is_readable(stored)
            &&& stored_fault(stored, task) is None
            &&& writes_checkpoint(path, stored, Ok(image))
        }),
        reads_checkpoint(path, image@, back),
        back matches Ok(stored) ==> types_checkpoint(path, stored@, task, typed),
        typed matches Ok(c) ==> resumed == (RunView {
            model: after_steps(dynamics, task, begun, first).model,
            context: restored_context(task, state_view(c)),
            thermalization_sweeps: c.thermalization_sweeps,
            measurement_sweeps: c.measurement_sweeps,
        }),
    ensures
        typed matches Ok(c) && c.model@ == texts.2,
        flagged(task, after_steps(dynamics, task, resumed, second)) == flagged(
            task,
            after_steps(dynamics, task, begun, first + second),
        ),
{
    let state = state_after(dynamics, task, runtime, begun, first);
    law_saved_state_reads_back(path, state, texts, image, back, typed);
    law_resumed_run(dynamics, task, runtime, begun, resumed, first, second);
}

/// A state that was saved on course, with observables that are consistent and have no more
/// samples than there were measurement sweeps, is accepted when the task is resumed.
pub proof fn law_saved_state_is_accepted<M, P>(
    task: TaskView<P>,
    runtime: TaskRuntime,
    run: RunView<M>,
)
    requires
        on_course(task, run),
        observables_consistent(run.context.observables, run.measurement_sweeps as nat),
        runtime.assignment.valid(),
    ensures
        place_matches(
            task,
            runtime,
            saved_state(
                task,
                runtime,
                run.context,
                run.thermalization_sweeps,
                run.measurement_sweeps,
            ),
        ),
{
    law_faultless_restored_observables(run.context.observables, run.measurement_sweeps);
}

/// The result of a task on course is a valid task result if its estimates are valid.
pub proof fn law_run_result_is_valid<M, P>(
    task: TaskView<P>,
    run: RunView<M>,
    task_index: usize,
    estimates: Seq<(Seq<char>, ScalarEstimate)>,
    result: TaskResult<P>,
)
    requires
        on_course(task, run),
        forall|i: int| 0 <= i < estimates.len() ==> is_valid_scalar((#[trigger] estimates[i]).1),
        result@ == run_result(
            task,
            task_index,
            run.thermalization_sweeps,
            run.measurement_sweeps,
            estimates,
        ),
    ensures
        is_valid_task_result(result),
{
    assert(result@.task == result.task@);
    assert(result@.observables == result.observables@);
}

/// A task takes no sweep once its time is up or its budget is used, whether it thermalizes or
/// measures.
pub proof fn law_no_step_out_of_time<M: MonteCarlo>(
    run: TaskRun<M>,
    task: Task<M::Parameters>,
    sweep_budget: usize,
    in_time: bool,
    step: Step,
)
    requires
        call_ensures(TaskRun::<M>::next_step, (&run, &task, sweep_budget, in_time), step),
    ensures
        !in_time ==> step is Stop,
        run.used >= sweep_budget ==> step is Stop,
{
}

/// In time and within its budget a task thermalizes until it has all thermalization sweeps, and
/// then measures until it has all measurement sweeps. It stops only when it has both.
pub proof fn law_steps_in_time<M: MonteCarlo>(
    run: TaskRun<M>,
    task: Task<M::Parameters>,
    sweep_budget: usize,
    step: Step,
)
    requires
        call_ensures(TaskRun::<M>::next_step, (&run, &task, sweep_budget, true), step),
        run.used < sweep_budget,
    ensures
        step is Thermalize <==> run.thermalization_sweeps < task.thermalization,
        step is Measure <==> run.thermalization_sweeps >= task.thermalization
            && run.measurement_sweeps < task.sweeps,
        step is Stop <==> run.thermalization_sweeps >= task.thermalization
            && run.measurement_sweeps >= task.sweeps,
{
}

/// A sweep without a measurement counts one thermalization sweep and one sweep used, and a sweep
/// with a measurement counts one measurement sweep and one sweep used. A model that fails leaves
/// the counts as they were.
pub proof fn law_sweeps_are_counted<M: MonteCarlo>(
    a: &mut TaskRun<M>,
    b: &mut TaskRun<M>,
    thermalized: Result<(), M::Error>,
    measured: Result<(), M::Error>,
)
    requires
        call_ensures(TaskRun::<M>::thermalize, (a,), thermalized),
        call_ensures(TaskRun::<M>::measure, (b,), measured),
    ensures
        thermalized is Ok ==> final(a).thermalization_sweeps == old(a).thermalization_sweeps + 1,
        thermalized is Ok ==> final(a).used == old(a).used + 1,
        thermalized is Err ==> final(a).thermalization_sweeps == old(a).thermalization_sweeps,
        thermalized is Err ==> final(a).used == old(a).used,
        final(a).measurement_sweeps == old(a).measurement_sweeps,
        measured is Ok ==> final(b).measurement_sweeps == old(b).measurement_sweeps + 1,
        measured is Ok ==> final(b).used == old(b).used + 1,
        measured is Err ==> final(b).measurement_sweeps == old(b).measurement_sweeps,
        measured is Err ==> final(b).used == old(b).used,
        final(b).thermalization_sweeps == old(b).thermalization_sweeps,
{
}

/// While it thermalizes a model sees the context as it is; it is told that thermalization is over
/// before the first sweep that is measured.
pub proof fn law_models_see_the_flag<M: MonteCarlo>(
    run: &mut TaskRun<M>,
    measured: Result<(), M::Error>,
)
    requires
        call_ensures(TaskRun::<M>::measure, (run,), measured),
    ensures
        exists|m: &mut M, c: &mut Context, swept: Result<(), M::Error>|
            {
                &&& #[trigger] call_ensures(M::sweep, (m, c), swept)
                &&& *m == old(run).model
                &&& c@.thermalized
                &&& c@.rng == old(run).context@.rng
                &&& c@.binsize == old(run).context@.binsize
                &&& c@.observables == old(run).context@.observables
                &&& swept is Err ==> measured == swept
            },
{
}

/// A task that starts has used and done no sweep.
pub proof fn law_tasks_start_afresh<M: MonteCarlo>(
    task: Task<M::Parameters>,
    run: TaskRun<M>,
)
    requires
        call_ensures(TaskRun::<M>::start, (&task,), Ok::<TaskRun<M>, M::Error>(run)),
    ensures
        run.thermalization_sweeps == 0,
        run.measurement_sweeps == 0,
        run.used == 0,
        exists|m: &mut M, c: &mut Context|
            {
                &&& #[trigger] call_ensures(M::init, (m, c), Ok::<(), M::Error>(()))
                &&& call_ensures(M::new, (&task.parameters,), Ok::<M, M::Error>(*m))
                &&& c@.rng.seed == task.seed
                &&& c@.rng.draws == 0
                &&& c@.binsize == task.binsize
                &&& !c@.thermalized
                &&& c@.observables.len() == 0
                &&& *final(m) == run.model
                &&& *final(c) == run.context
            },
{
    let (m, c) = choose|m: &mut M, c: &mut Context|
        {
            &&& call_ensures(M::new, (&task.parameters,), Ok::<M, M::Error>(*m))
            &&& c@ == fresh_context(task@)
            &&& #[trigger] call_ensures(M::init, (m, c), Ok::<(), M::Error>(()))
            &&& *final(m) == run.model
            &&& *final(c) == run.context
        };
    assert(call_ensures(M::init, (m, c), Ok::<(), M::Error>(())));
}

/// A task that is taken up goes on from what was saved: the model, the counts, the observables and
/// the place in the random stream, which is that of the task's own seed. Nothing of it counts as
/// used.
pub proof fn law_tasks_resume_what_was_saved<M: MonteCarlo>(
    task: Task<M::Parameters>,
    runtime: TaskRuntime,
    path: &str,
    restored: RestoredState<M>,
    run: TaskRun<M>,
) where M::Parameters: PartialEq
    requires
        call_ensures(
            TaskRun::<M>::resume,
            (&task, &runtime, path, restored),
            Ok::<TaskRun<M>, GenericJobError>(run),
        ),
    ensures
        run.model == restored.model,
        run.thermalization_sweeps == restored.thermalization_sweeps,
        run.measurement_sweeps == restored.measurement_sweeps,
        run.used == 0,
        run.context@.rng.seed == task.seed,
        run.context@.rng.draws == restored.rng_position,
        run.context@.binsize == task.binsize,
        run.context@.observables == restored.observables@,
        run.context@.thermalized <==> restored.thermalization_sweeps >= task.thermalization,
        restored.thermalization_sweeps <= task.thermalization,
        restored.measurement_sweeps <= task.sweeps,
        restored.measurement_sweeps > 0 ==> restored.thermalization_sweeps == task.thermalization,
        restored.job_name@ == runtime.job_name@,
        restored.task_index == runtime.task_index,
        restored.world_size == runtime.assignment.world_size,
        restored.rank < restored.world_size,
        !runtime.allow_different_rank ==> restored.rank == runtime.assignment.rank,
        restored.task.name@ == task.name@,
        restored.task.sweeps == task.sweeps,
        restored.task.thermalization == task.thermalization,
        restored.task.binsize == task.binsize,
        restored.task.seed == task.seed,
{
}

/// A saved state is taken up only for the task it was saved for, with all its settings.
pub proof fn law_tasks_resume_their_own_states<M: MonteCarlo>(
    task: Task<M::Parameters>,
    runtime: TaskRuntime,
    path: &str,
    restored: RestoredState<M>,
    run: Result<TaskRun<M>, GenericJobError>,
) where M::Parameters: PartialEq
    requires
        M::Parameters::obeys_eq_spec(),
        call_ensures(TaskRun::<M>::resume, (&task, &runtime, path, restored), run),
    ensures
        run is Ok ==> {
            &&& restored.task.name@ == task.name@
            &&& restored.task.parameters.eq_spec(&task.parameters)
            &&& restored.task.sweeps == task.sweeps
            &&& restored.task.thermalization == task.thermalization
            &&& restored.task.binsize == task.binsize
            &&& restored.task.seed == task.seed
        },
        run matches Err(e) ==> (e matches GenericJobError::CheckpointMismatch { path: p, task: t }
            && p@ == path@ && t@ == task.name@),
{
}

/// A state that is saved says where the task stands: its place in the run, its settings, its
/// counts, its observables and its place in the random stream.
pub proof fn law_saved_states_say_where_a_task_stands<M: MonteCarlo>(
    run: TaskRun<M>,
    task: Task<M::Parameters>,
    runtime: TaskRuntime,
    state: CheckpointState<M::Parameters>,
) where M::Parameters: Clone
    requires
        call_ensures(TaskRun::<M>::checkpoint_state, (&run, &task, &runtime), state),
    ensures
        state.rank == runtime.assignment.rank,
        state.world_size == runtime.assignment.world_size,
        state.job_name@ == runtime.job_name@,
        state.task_index == runtime.task_index,
        state.rng_position == run.context@.rng.draws,
        state.thermalization_sweeps == run.thermalization_sweeps,
        state.measurement_sweeps == run.measurement_sweeps,
        state.observables@ == run.context@.observables,
        state.task.name@ == task.name@,
        state.task.sweeps == task.sweeps,
        state.task.thermalization == task.thermalization,
        state.task.binsize == task.binsize,
        state.task.seed == task.seed,
{
    let v = state@;
    assert(v.job_name == state.job_name@);
    assert(v.observables == state.observables@);
}

/// The result of a task says its index, its settings and its counts. It is complete exactly if it
/// has all sweeps of both kinds, and only then are there estimates, those that were handed in.
pub proof fn law_results_say_what_was_done<M: MonteCarlo>(
    run: TaskRun<M>,
    task: Task<M::Parameters>,
    task_index: usize,
    estimates: Catalog<ScalarEstimate>,
    result: TaskResult<M::Parameters>,
    completed: bool,
) where M::Parameters: Clone
    requires
        call_ensures(TaskRun::<M>::result, (&run, &task, task_index, estimates), result),
        call_ensures(TaskRun::<M>::is_completed, (&run, &task), completed),
    ensures
        result.task_index == task_index,
        result.thermalization_sweeps == run.thermalization_sweeps,
        result.measurement_sweeps == run.measurement_sweeps,
        result.completed == completed,
        completed <==> run.thermalization_sweeps == task.thermalization && run.measurement_sweeps
            == task.sweeps,
        completed ==> result.observables@ == estimates@,
        !completed ==> result.observables@.len() == 0,
        result.task.name@ == task.name@,
        result.task.sweeps == task.sweeps,
        result.task.thermalization == task.thermalization,
        result.task.binsize == task.binsize,
        result.task.seed == task.seed,
{
    let v = result@;
    assert(v.observables == result.observables@);
    assert(v.task == result.task@);
}

/// The samples of a task are enough exactly if every observable has a completed bin. Otherwise the
/// first observable without one is named.
pub proof fn law_enough_samples<M: MonteCarlo>(
    run: TaskRun<M>,
    task: Task<M::Parameters>,
    checked: Result<(), GenericJobError>,
    index: int,
)
    requires
        call_ensures(TaskRun::<M>::check_samples, (&run, &task), checked),
    ensures
        checked is Ok && 0 <= index < run.context@.observables.len()
            ==> run.context@.observables[index].1.internal_bins.len() > 0,
        checked matches Err(e) ==> (e matches GenericJobError::InsufficientSamples {
            task: t,
            observable,
        } && t@ == task.name@ && exists|i: int|
            0 <= i < run.context@.observables.len() && (#[trigger] run.context@.observables[i]).0
                == observable@ && run.context@.observables[i].1.internal_bins.len() == 0
                && forall|k: int|
                0 <= k < i ==> (#[trigger] run.context@.observables[k]).1.internal_bins.len() > 0),
{
}

/// A restored state fits its task exactly if it has no more sweeps than the task asks for, measured
/// only after it thermalized, and has observables that are consistent and have names, none with more
/// samples than there were measurement sweeps.
pub proof fn law_restored_states_fit<M: MonteCarlo>(
    task: Task<M::Parameters>,
    restored: RestoredState<M>,
    checked: Result<(), &'static str>,
)
    requires
        call_ensures(validate_restored_state::<M>, (&task, &restored), checked),
    ensures
        checked is Ok <==> {
            &&& restored.thermalization_sweeps <= task.thermalization
            &&& restored.measurement_sweeps <= task.sweeps
            &&& restored.measurement_sweeps == 0 || restored.thermalization_sweeps
                == task.thermalization
            &&& forall|i: int|
                0 <= i < restored.observables@.len() ==> ({
                    let a = (#[trigger] restored.observables@[i]).1;
                    &&& restored.observables@[i].0.len() > 0
                    &&& a.binsize > 0
                    &&& a.pending_count < a.binsize
                    &&& a.total_count <= restored.measurement_sweeps
                    &&& a.total_count == a.internal_bins.len() * a.binsize + a.pending_count
                    &&& a.pending_count == 0 ==> a.pending_sum.zero()
                    &&& a.pending_sum.finite()
                    &&& forall|k: int|
                        0 <= k < a.internal_bins.len() ==> (
                        #[trigger] a.internal_bins[k]).finite()
                })
        },
{
    let observables = restored.observables@;
    law_faultless_restored_observables(observables, restored.measurement_sweeps);
    assert(restored.state().observables == observables);
    assert forall|i: int| 0 <= i < observables.len() implies ((#[trigger] observables[i]).0.len()
        > 0 && observables[i].1.consistent() && observables[i].1.total_count
        <= restored.measurement_sweeps) == ({
        let a = observables[i].1;
        &&& observables[i].0.len() > 0
        &&& a.binsize > 0
        &&& a.pending_count < a.binsize
        &&& a.total_count <= restored.measurement_sweeps
        &&& a.total_count == a.internal_bins.len() * a.binsize + a.pending_count
        &&& a.pending_count == 0 ==> a.pending_sum.zero()
        &&& a.pending_sum.finite()
        &&& forall|k: int|
            0 <= k < a.internal_bins.len() ==> (#[trigger] a.internal_bins[k]).finite()
    }) by {
        let a = observables[i].1;
        assert(a.internal_bins.len() * a.binsize >= 0) by (nonlinear_arith)
            requires
                a.internal_bins.len() >= 0,
                a.binsize >= 0,
        ;
    }
}

/// A saved state that belongs to the task and to its place in the run is taken up, however far it
/// has come: its counts stay in the bounds of the task, it measured only after it thermalized, and
/// its observables are consistent.
pub proof fn law_fitting_states_are_taken_up<M: MonteCarlo>(
    task: Task<M::Parameters>,
    runtime: TaskRuntime,
    path: &str,
    restored: RestoredState<M>,
    run: Result<TaskRun<M>, GenericJobError>,
) where M::Parameters: PartialEq
    requires
        M::Parameters::obeys_eq_spec(),
        call_ensures(TaskRun::<M>::resume, (&task, &runtime, path, restored), run),
        restored.task.name@ == task.name@,
        restored.task.parameters.eq_spec(&task.parameters),
        restored.task.sweeps == task.sweeps,
        restored.task.thermalization == task.thermalization,
        restored.task.binsize == task.binsize,
        restored.task.seed == task.seed,
        restored.job_name@ == runtime.job_name@,
        restored.task_index == runtime.task_index,
        restored.world_size == runtime.assignment.world_size,
        restored.rank < restored.world_size,
        runtime.allow_different_rank || restored.rank == runtime.assignment.rank,
        restored.thermalization_sweeps <= task.thermalization,
        restored.measurement_sweeps <= task.sweeps,
        restored.measurement_sweeps == 0 || restored.thermalization_sweeps == task.thermalization,
        forall|i: int|
            0 <= i < restored.observables@.len() ==> ({
                let a = (#[trigger] restored.observables@[i]).1;
                &&& restored.observables@[i].0.len() > 0
                &&& a.pending_count < a.binsize
                &&& a.total_count <= restored.measurement_sweeps
                &&& a.total_count == a.internal_bins.len() * a.binsize + a.pending_count
                &&& a.pending_count == 0 ==> a.pending_sum.zero()
                &&& a.pending_sum.finite()
                &&& forall|k: int|
                    0 <= k < a.internal_bins.len() ==> (#[trigger] a.internal_bins[k]).finite()
            }),
    ensures
        run is Ok,
{
    let observables = restored.observables@;
    assert(observables_consistent(observables, restored.measurement_sweeps as nat)) by {
        assert forall|i: int| 0 <= i < observables.len() implies (
        #[trigger] observables[i]).0.len() > 0 && observables[i].1.consistent()
            && observables[i].1.total_count <= restored.measurement_sweeps by {
            let a = observables[i].1;
            assert(a.bins_are_finite());
            assert(a.internal_bins.len() * a.binsize >= 0) by (nonlinear_arith)
                requires
                    a.internal_bins.len() >= 0,
                    a.binsize >= 0,
            ;
        }
    }
    law_faultless_restored_observables(observables, restored.measurement_sweeps);
}

/// A measurement is taken behind the sweep that it belongs to, of the model and the context that
/// the sweep leaves, and both see a context that counts as thermalized. A sweep without a
/// measurement sees the context as it is.
pub proof fn law_measurements_follow_sweeps<M: MonteCarlo>(
    run: &mut TaskRun<M>,
    done: Result<(), M::Error>,
    other: &mut TaskRun<M>,
    swept: Result<(), M::Error>,
    dynamics: Dynamics<M>,
)
    requires
        forall|m: &mut M, c: &mut Context, r: Result<(), M::Error>| #[trigger]
            call_ensures(M::sweep, (m, c), r) ==> r is Ok && (*final(m), final(c)@) == (
            dynamics.sweep)(*m, c@),
        forall|m: &mut M, c: &mut Context, r: Result<(), M::Error>| #[trigger]
            call_ensures(M::measure, (m, c), r) ==> r is Ok && (*final(m), final(c)@) == (
            dynamics.measure)(*m, c@),
        call_ensures(TaskRun::<M>::measure, (run,), done),
        call_ensures(TaskRun::<M>::thermalize, (other,), swept),
    ensures
        done is Ok,
        swept is Ok,
        ({
            let flagged = ContextView { thermalized: true, ..old(run).context@ };
            let after = (dynamics.sweep)(old(run).model, flagged);
            (final(run).model, final(run).context@) == (dynamics.measure)(after.0, after.1)
        }),
        (final(other).model, final(other).context@) == (dynamics.sweep)(
            old(other).model,
            old(other).context@,
        ),
{
    let taken = swept_and_measured(dynamics, old(run).model, old(run).context@);
    let moved = (dynamics.sweep)(old(other).model, old(other).context@);
}

} // verus!
