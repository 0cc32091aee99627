//! The course of one task from its beginning to its result: sweeps, the maintenance that follows
//! each of them, and the maintenance at the end.
//!
//! Whoever drives a task asks for the next action, performs it and asks again.

use crate::model::{MonteCarlo, Task};
#[allow(unused_imports)]
use crate::model::TaskView;
use crate::error::GenericJobError;
use crate::task_run::{Step, TaskRun};
#[allow(unused_imports)]
use crate::task_run::{step_after, swept_and_measured, Dynamics, RunView};
use vstd::prelude::*;

verus! {

/// What happens next with a task under way.
#[derive(Debug, Clone, Copy, PartialEq, Eq, Structural)]
pub enum TaskAction {
    /// One sweep without a measurement.
    Thermalize,
    /// One sweep with a measurement.
    Measure,
    /// Renew the claim on the task, and save a checkpoint if one is due. `last` says that no sweep
    /// follows.
    Maintain { last: bool },
    /// Check the samples and report the result.
    Finish,
}

/// Whether an action is a sweep.
pub open spec fn is_sweep(action: TaskAction) -> bool {
    action is Thermalize || action is Measure
}

/// Whether an action is maintenance.
pub open spec fn is_maintenance(action: TaskAction) -> bool {
    action is Maintain
}

/// Whether no sweep can follow an action.
pub open spec fn is_closing(action: TaskAction) -> bool {
    action == (TaskAction::Maintain { last: true }) || action is Finish
}

/// What follows the last action, if there was one, where `step` is the step that the task would
/// take: maintenance after every sweep, maintenance once more when there is nothing left to do, and
/// then the end.
pub open spec fn action_after(last: Option<TaskAction>, step: Step) -> TaskAction {
    match last {
        Some(TaskAction::Thermalize) => TaskAction::Maintain { last: false },
        Some(TaskAction::Measure) => TaskAction::Maintain { last: false },
        Some(TaskAction::Maintain { last: true }) => TaskAction::Finish,
        Some(TaskAction::Finish) => TaskAction::Finish,
        _ => match step {
            Step::Thermalize => TaskAction::Thermalize,
            Step::Measure => TaskAction::Measure,
            Step::Stop => TaskAction::Maintain { last: true },
        },
    }
}

impl<M: MonteCarlo> TaskRun<M> {
    /// What happens next. `last` is the action before, none at the beginning, and `in_time` says
    /// that there is no deadline or that it has not come.
    pub fn next_action(
        &self,
        last: Option<TaskAction>,
        task: &Task<M::Parameters>,
        sweep_budget: usize,
        in_time: bool,
    ) -> (action: TaskAction)
        ensures
            action == action_after(
                last,
                step_after(
                    task@,
                    self.thermalization_sweeps,
                    self.measurement_sweeps,
                    self.used,
                    sweep_budget,
                    in_time,
                ),
            ),
    {
        match last {
            Some(TaskAction::Thermalize) | Some(TaskAction::Measure) => TaskAction::Maintain {
                last: false,
            },
            Some(TaskAction::Maintain { last: true }) | Some(TaskAction::Finish) => {
                TaskAction::Finish
            },
            None | Some(TaskAction::Maintain { last: false }) => {
                match self.next_step(task, sweep_budget, in_time) {
                    Step::Thermalize => TaskAction::Thermalize,
                    Step::Measure => TaskAction::Measure,
                    Step::Stop => TaskAction::Maintain { last: true },
                }
            },
        }
    }

    /// Whether the observables are to be estimated for the result: they are if the task has all its
    /// sweeps, and then each of them must have a completed bin.
    pub fn wants_estimates(&self, task: &Task<M::Parameters>) -> (wanted: Result<
        bool,
        GenericJobError,
    >)
        ensures
            ({
                let completed = self.thermalization_sweeps == task.thermalization
                    && self.measurement_sweeps == task.sweeps;
                let observables = self.context@.observables;
                match wanted {
                    Ok(w) => w == completed && (completed ==> forall|i: int|
                        0 <= i < observables.len() ==> (
                        #[trigger] observables[i]).1.internal_bins.len() > 0),
                    Err(e) => completed && exists|i: int|
                        {
                            &&& 0 <= i < observables.len()
                            &&& (#[trigger] observables[i]).1.internal_bins.len() == 0
                            &&& forall|k: int|
                                0 <= k < i ==> (#[trigger] observables[k]).1.internal_bins.len() > 0
                            &&& e matches GenericJobError::InsufficientSamples {
                                task: t,
                                observable,
                            } && t@ == task.name@ && observable@ == observables[i].0
                        },
                }
            }),
    {
        let completed = self.is_completed(task);
        if completed {
            self.check_samples(task)?;
        }
        Ok(completed)
    }
}

/// What a task under way is, as far as its course depends on it.
pub open spec fn seen<M: MonteCarlo>(run: TaskRun<M>) -> RunView<M> {
    RunView {
        model: run.model,
        context: run.context@,
        thermalization_sweeps: run.thermalization_sweeps,
        measurement_sweeps: run.measurement_sweeps,
    }
}

/// The course of a task: its actions, the task before each of them and behind the last, and
/// whether there was time left at each of them.
#[verifier::reject_recursive_types(M)]
pub struct Course<M: MonteCarlo> {
    pub actions: Seq<TaskAction>,
    pub runs: Seq<TaskRun<M>>,
    pub in_time: Seq<bool>,
}

impl<M: MonteCarlo> Course<M> {
    /// The action before the one with a number, if there is one.
    pub open spec fn before(self, index: int) -> Option<TaskAction> {
        if index == 0 {
            None
        } else {
            Some(self.actions[index - 1])
        }
    }

    /// The task behind the last action.
    pub open spec fn end(self) -> TaskRun<M> {
        self.runs[self.actions.len() as int]
    }

    /// Whether the action with a number is what [`TaskRun::next_action`] asks for, and has counted
    /// what [`TaskRun::thermalize`] and [`TaskRun::measure`] count. Maintenance leaves the task
    /// alone.
    pub open spec fn is_taken<P>(
        self,
        task: TaskView<P>,
        sweep_budget: usize,
        index: int,
    ) -> bool {
        let run = self.runs[index];
        &&& self.actions[index] == action_after(
            self.before(index),
            step_after(
                task,
                run.thermalization_sweeps,
                run.measurement_sweeps,
                run.used,
                sweep_budget,
                self.in_time[index],
            ),
        )
        &&& counts(self.actions[index], run, self.runs[index + 1])
    }

    /// Whether a course begins with no sweep used and every action is taken as it should be.
    pub open spec fn valid<P>(self, task: TaskView<P>, sweep_budget: usize) -> bool {
        &&& self.runs.len() == self.actions.len() + 1
        &&& self.in_time.len() == self.actions.len()
        &&& self.runs[0].used == 0
        &&& forall|i: int|
            0 <= i < self.actions.len() ==> #[trigger] self.is_taken(task, sweep_budget, i)
    }

    /// Whether the model and the context went through an action as the dynamics say.
    pub open spec fn is_moved(self, dynamics: Dynamics<M>, index: int) -> bool {
        let run = self.runs[index];
        let next = self.runs[index + 1];
        match self.actions[index] {
            TaskAction::Thermalize => (next.model, next.context@) == (dynamics.sweep)(
                run.model,
                run.context@,
            ),
            TaskAction::Measure => (next.model, next.context@) == swept_and_measured(
                dynamics,
                run.model,
                run.context@,
            ),
            _ => true,
        }
    }

    /// Whether the model and the context went from action to action as the dynamics say.
    pub open spec fn obeys(self, dynamics: Dynamics<M>) -> bool {
        forall|i: int| 0 <= i < self.actions.len() ==> #[trigger] self.is_moved(dynamics, i)
    }

    /// Whether maintenance stands where it should around an action: the one without the last flag
    /// directly behind each sweep and nowhere else, the one with it directly before the end.
    pub open spec fn is_kept_up(self, index: int) -> bool {
        match self.actions[index] {
            TaskAction::Maintain { last: false } => index > 0 && is_sweep(self.actions[index - 1]),
            TaskAction::Maintain { last: true } => index + 1 < self.actions.len()
                && self.actions[index + 1] is Finish,
            TaskAction::Finish => true,
            _ => index + 1 < self.actions.len() && self.actions[index + 1] == (
            TaskAction::Maintain { last: false }),
        }
    }

    /// Whether there was time left at every action.
    pub open spec fn was_in_time(self) -> bool {
        forall|i: int| 0 <= i < self.in_time.len() ==> #[trigger] self.in_time[i]
    }

    /// Whether the course has come to its end.
    pub open spec fn is_finished(self) -> bool {
        self.actions.len() > 0 && self.actions.last() is Finish
    }
}

/// Whether a task has counted an action.
pub open spec fn counts<M: MonteCarlo>(
    action: TaskAction,
    run: TaskRun<M>,
    next: TaskRun<M>,
) -> bool {
    match action {
        TaskAction::Thermalize => {
            &&& next.thermalization_sweeps == run.thermalization_sweeps + 1
            &&& next.measurement_sweeps == run.measurement_sweeps
            &&& next.used == run.used + 1
        },
        TaskAction::Measure => {
            &&& next.thermalization_sweeps == run.thermalization_sweeps
            &&& next.measurement_sweeps == run.measurement_sweeps + 1
            &&& next.used == run.used + 1
        },
        _ => next == run,
    }
}

/// How many of some actions are of a kind.
pub open spec fn number_of(actions: Seq<TaskAction>, kind: spec_fn(TaskAction) -> bool) -> nat
    decreases actions.len(),
{
    if actions.len() == 0 {
        0
    } else if kind(actions.last()) {
        number_of(actions.drop_last(), kind) + 1
    } else {
        number_of(actions.drop_last(), kind)
    }
}

/// At every point of a course there was one maintenance after every sweep, the last one excepted
/// if its maintenance is still to come, and one more if the course is closed.
proof fn lemma_maintenance<M: MonteCarlo, P>(
    task: TaskView<P>,
    sweep_budget: usize,
    course: Course<M>,
    count: nat,
)
    requires
        course.valid(task, sweep_budget),
        count <= course.actions.len(),
    ensures
        ({
            let done = course.actions.take(count as int);
            let sweeps = number_of(done, |a: TaskAction| is_sweep(a));
            let maintenance = number_of(done, |a: TaskAction| is_maintenance(a));
            let last = number_of(done, |a: TaskAction| a == TaskAction::Maintain { last: true });
            &&& sweeps == course.runs[count as int].used
            &&& count == 0 ==> maintenance == 0 && last == 0
            &&& count > 0 ==> ({
                let action = course.actions[count - 1];
                &&& last == if is_closing(action) { 1nat } else { 0 }
                &&& maintenance == sweeps + last - if is_sweep(action) { 1int } else { 0 }
            })
        }),
    decreases count,
{
    if count > 0 {
        lemma_maintenance(task, sweep_budget, course, (count - 1) as nat);
        let done = course.actions.take(count as int);
        assert(done.drop_last() =~= course.actions.take(count - 1));
        assert(done.last() == course.actions[count - 1]);
        assert(course.is_taken(task, sweep_budget, count - 1));
    }
}

/// A task that used so many sweeps was maintained once after each of them and once more at the
/// end, with the flag that says so set then and only then. The samples are checked after that.
pub proof fn law_maintenance<M: MonteCarlo, P>(
    task: TaskView<P>,
    sweep_budget: usize,
    course: Course<M>,
)
    requires
        course.valid(task, sweep_budget),
        course.is_finished(),
    ensures
        number_of(course.actions, |a: TaskAction| is_sweep(a)) == course.end().used,
        number_of(course.actions, |a: TaskAction| is_maintenance(a)) == course.end().used + 1,
        number_of(course.actions, |a: TaskAction| a == TaskAction::Maintain { last: true }) == 1,
        forall|i: int| 0 <= i < course.actions.len() ==> #[trigger] course.is_kept_up(i),
{
    lemma_maintenance(task, sweep_budget, course, course.actions.len());
    assert(course.actions.take(course.actions.len() as int) =~= course.actions);
    assert forall|i: int| 0 <= i < course.actions.len() implies #[trigger] course.is_kept_up(i) by {
        assert(course.is_taken(task, sweep_budget, i));
        if i + 1 < course.actions.len() {
            assert(course.is_taken(task, sweep_budget, i + 1));
        }
    }
}

/// Behind every sweep comes maintenance, when there is nothing left to do maintenance once more
/// with the flag that says so, and behind that the end. A task out of time or without budget takes
/// no sweep whatever came before.
pub proof fn law_next_actions<M: MonteCarlo>(
    run: TaskRun<M>,
    last: Option<TaskAction>,
    task: Task<M::Parameters>,
    sweep_budget: usize,
    in_time: bool,
    action: TaskAction,
)
    requires
        call_ensures(TaskRun::<M>::next_action, (&run, last, &task, sweep_budget, in_time), action),
    ensures
        last matches Some(l) && (l is Thermalize || l is Measure) ==> action == (
        TaskAction::Maintain { last: false }),
        last == Some(TaskAction::Maintain { last: true }) ==> action is Finish,
        last == Some(TaskAction::Finish) ==> action is Finish,
        !in_time || run.used >= sweep_budget ==> action !is Thermalize && action !is Measure,
        last is None || last == Some(TaskAction::Maintain { last: false }) ==> {
            let free = in_time && run.used < sweep_budget;
            let thermalized = run.thermalization_sweeps >= task.thermalization;
            &&& action is Thermalize <==> free && !thermalized
            &&& action is Measure <==> free && thermalized && run.measurement_sweeps < task.sweeps
            &&& action == (TaskAction::Maintain { last: true }) <==> !free || thermalized
                && run.measurement_sweeps >= task.sweeps
        },
{
}

/// At every sweep of a course there was time left, and fewer sweeps were used than the budget
/// allows. A sweep without a measurement is one that thermalization still asks for, and a sweep with
/// a measurement comes after all of them and is one that is still asked for.
pub proof fn law_sweeps_are_in_time<M: MonteCarlo, P>(
    task: TaskView<P>,
    sweep_budget: usize,
    course: Course<M>,
    index: int,
)
    requires
        course.valid(task, sweep_budget),
        0 <= index < course.actions.len(),
    ensures
        ({
            let action = course.actions[index];
            let run = course.runs[index];
            &&& action is Thermalize || action is Measure ==> course.in_time[index] && run.used
                < sweep_budget
            &&& action is Thermalize ==> run.thermalization_sweeps < task.thermalization
            &&& action is Measure ==> run.thermalization_sweeps >= task.thermalization
                && run.measurement_sweeps < task.sweeps
        }),
{
    assert(course.is_taken(task, sweep_budget, index));
}

/// A course that comes to its end in time and within its budget has all sweeps of the task.
pub proof fn law_courses_complete_tasks<M: MonteCarlo, P>(
    task: TaskView<P>,
    sweep_budget: usize,
    course: Course<M>,
    index: int,
)
    requires
        course.valid(task, sweep_budget),
        0 <= index < course.actions.len(),
        course.actions[index] == (TaskAction::Maintain { last: true }),
        course.in_time[index],
        course.runs[index].used < sweep_budget,
    ensures
        course.runs[index].thermalization_sweeps >= task.thermalization,
        course.runs[index].measurement_sweeps >= task.sweeps,
{
    assert(course.is_taken(task, sweep_budget, index));
}

/// The number of sweeps that a course has used never goes above the budget, and every sweep that is
/// used adds to the counts of the task.
pub proof fn law_courses_keep_to_the_budget<M: MonteCarlo, P>(
    task: TaskView<P>,
    sweep_budget: usize,
    course: Course<M>,
    count: nat,
)
    requires
        course.valid(task, sweep_budget),
        count <= course.actions.len(),
    ensures
        ({
            let begun = course.runs[0];
            let run = course.runs[count as int];
            &&& run.used <= sweep_budget
            &&& run.thermalization_sweeps + run.measurement_sweeps == begun.thermalization_sweeps
                + begun.measurement_sweeps + run.used
            &&& run.thermalization_sweeps >= begun.thermalization_sweeps
            &&& run.measurement_sweeps >= begun.measurement_sweeps
        }),
    decreases count,
{
    if count > 0 {
        law_courses_keep_to_the_budget(task, sweep_budget, course, (count - 1) as nat);
        assert(course.is_taken(task, sweep_budget, count - 1));
    }
}

/// Estimates are wanted exactly of a task that has all its sweeps, and then every observable must
/// have a completed bin.
pub proof fn law_estimates_are_wanted<M: MonteCarlo>(
    run: TaskRun<M>,
    task: Task<M::Parameters>,
    wanted: Result<bool, GenericJobError>,
)
    requires
        call_ensures(TaskRun::<M>::wants_estimates, (&run, &task), wanted),
    ensures
        ({
            let completed = run.thermalization_sweeps == task.thermalization
                && run.measurement_sweeps == task.sweeps;
            &&& !completed ==> wanted == Ok::<bool, GenericJobError>(false)
            &&& completed && (forall|i: int|
                0 <= i < run.context@.observables.len() ==> (
                #[trigger] run.context@.observables[i]).1.internal_bins.len() > 0) ==> wanted == Ok::<
                bool,
                GenericJobError,
            >(true)
            &&& completed && (exists|i: int|
                0 <= i < run.context@.observables.len() && (
                #[trigger] run.context@.observables[i]).1.internal_bins.len() == 0) ==> wanted is Err
        }),
{
}

} // verus!
