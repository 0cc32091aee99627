//! Results of tasks and jobs, and their validity.

use crate::catalog::Catalog;
use crate::error::{schema, GenericJobError};
#[allow(unused_imports)]
use crate::error::is_schema_error;
use crate::estimate::{valid_estimate, ScalarEstimate};
#[allow(unused_imports)]
use crate::estimate::is_valid_scalar;
use crate::model::{Task, TaskView};
#[allow(unused_imports)]
use crate::model::task_cloned;
use vstd::prelude::*;

verus! {

/// The measured result of a single [`Task`].
#[derive(Debug, PartialEq)]
pub struct TaskResult<P> {
    pub task_index: usize,
    pub task: Task<P>,
    pub observables: Catalog<ScalarEstimate>,
    pub thermalization_sweeps: usize,
    pub measurement_sweeps: usize,
    /// Whether the task ran to completion (full thermalization and measurement).
    pub completed: bool,
}

/// One rank's contribution to a job.
#[derive(Debug, PartialEq)]
pub struct JobResult<P> {
    pub job_name: String,
    pub rank: usize,
    pub world_size: usize,
    pub tasks: Vec<TaskResult<P>>,
}

/// What the result of a task says.
#[verifier::ext_equal]
pub struct TaskResultView<P> {
    pub task_index: usize,
    pub task: TaskView<P>,
    pub observables: Seq<(Seq<char>, ScalarEstimate)>,
    pub thermalization_sweeps: usize,
    pub measurement_sweeps: usize,
    pub completed: bool,
}

impl<P> View for TaskResult<P> {
    type V = TaskResultView<P>;

    open spec fn view(&self) -> TaskResultView<P> {
        TaskResultView {
            task_index: self.task_index,
            task: self.task@,
            observables: self.observables@,
            thermalization_sweeps: self.thermalization_sweeps,
            measurement_sweeps: self.measurement_sweeps,
            completed: self.completed,
        }
    }
}

impl<P: Clone> Clone for TaskResult<P> {
    fn clone(&self) -> (copy: Self)
        ensures
            task_cloned(self@.task, copy@.task),
            copy@ == (TaskResultView { task: copy@.task, ..self@ }),
    {
        TaskResult {
            task_index: self.task_index,
            task: self.task.clone(),
            observables: self.observables.clone(),
            thermalization_sweeps: self.thermalization_sweeps,
            measurement_sweeps: self.measurement_sweeps,
            completed: self.completed,
        }
    }
}

impl<P: Clone> Clone for JobResult<P> {
    fn clone(&self) -> (copy: Self)
        ensures
            copy.job_name@ == self.job_name@,
            copy.rank == self.rank,
            copy.world_size == self.world_size,
            copy.tasks@.len() == self.tasks@.len(),
            forall|i: int|
                0 <= i < self.tasks@.len() ==> task_cloned(
                    self.tasks@[i]@.task,
                    (#[trigger] copy.tasks@[i])@.task,
                ) && copy.tasks@[i]@ == (TaskResultView {
                    task: copy.tasks@[i]@.task,
                    ..self.tasks@[i]@
                }),
    {
        let mut tasks: Vec<TaskResult<P>> = Vec::new();
        let mut index: usize = 0;
        while index < self.tasks.len()
            invariant
                index <= self.tasks.len(),
                tasks@.len() == index,
                forall|i: int|
                    0 <= i < index ==> task_cloned(
                        self.tasks@[i]@.task,
                        (#[trigger] tasks@[i])@.task,
                    ) && tasks@[i]@ == (TaskResultView {
                        task: tasks@[i]@.task,
                        ..self.tasks@[i]@
                    }),
            decreases self.tasks.len() - index,
        {
            tasks.push(self.tasks[index].clone());
            index = index + 1;
        }
        JobResult {
            job_name: self.job_name.clone(),
            rank: self.rank,
            world_size: self.world_size,
            tasks,
        }
    }
}

/// Whether the counts and the estimates of a task result fit its task.
pub open spec fn is_valid_task_result<P>(t: TaskResult<P>) -> bool {
    &&& t.completed == (t.thermalization_sweeps == t.task.thermalization && t.measurement_sweeps
        == t.task.sweeps)
    &&& t.thermalization_sweeps <= t.task.thermalization
    &&& t.measurement_sweeps <= t.task.sweeps
    &&& forall|i: int|
        0 <= i < t.observables@.len() ==> is_valid_scalar((#[trigger] t.observables@[i]).1)
}

/// Why a job result is not valid, if it is not.
pub open spec fn result_fault<P>(result: JobResult<P>) -> Option<Seq<char>> {
    if result.rank >= result.world_size {
        Some("invalid result assignment"@)
    } else if exists|i: int|
        0 <= i < result.tasks@.len() && !is_valid_task_result(#[trigger] result.tasks@[i]) {
        Some("invalid task result"@)
    } else {
        None
    }
}

/// Whether all estimates of a task are valid.
fn all_valid(observables: &Catalog<ScalarEstimate>) -> (valid: bool)
    ensures
        valid == forall|i: int|
            0 <= i < observables@.len() ==> is_valid_scalar((#[trigger] observables@[i]).1),
{
    let count: usize = observables.len();
    let mut index: usize = 0;
    while index < count
        invariant
            index <= count,
            count == observables@.len(),
            forall|i: int| 0 <= i < index ==> is_valid_scalar((#[trigger] observables@[i]).1),
        decreases count - index,
    {
        if !valid_estimate(observables.value_at(index)) {
            assert(!is_valid_scalar(observables@[index as int].1));
            return false;
        }
        index = index + 1;
    }
    true
}

/// Checks that the parts of a result fit together.
pub fn validate_result_schema<P>(path: &str, result: &JobResult<P>) -> (checked: Result<
    (),
    GenericJobError,
>)
    ensures
        match result_fault(*result) {
            Some(fault) => checked matches Err(e) && is_schema_error(e, path@, fault),
            None => checked is Ok,
        },
{
    if result.world_size == 0 || result.rank >= result.world_size {
        return Err(schema(path, "invalid result assignment"));
    }
    let mut index: usize = 0;
    while index < result.tasks.len()
        invariant
            index <= result.tasks.len(),
            result.rank < result.world_size,
            forall|i: int|
                0 <= i < index ==> is_valid_task_result(#[trigger] result.tasks@[i]),
        decreases result.tasks.len() - index,
    {
        let task = &result.tasks[index];
        if task.completed != (task.thermalization_sweeps == task.task.thermalization
            && task.measurement_sweeps == task.task.sweeps) || task.thermalization_sweeps
            > task.task.thermalization || task.measurement_sweeps > task.task.sweeps || !all_valid(
            &task.observables,
        ) {
            assert(!is_valid_task_result(result.tasks@[index as int]));
            return Err(schema(path, "invalid task result"));
        }
        index = index + 1;
    }
    Ok(())
}

/// A result is valid exactly if its rank is one of the world and each of its task results is: no
/// more sweeps than its task asks for, complete exactly if it has all of them, and valid estimates.
/// What is not valid is reported for the given path.
pub proof fn law_valid_results<P>(
    path: &str,
    result: JobResult<P>,
    checked: Result<(), GenericJobError>,
)
    requires
        call_ensures(validate_result_schema::<P>, (path, &result), checked),
    ensures
        checked is Ok <==> result.rank < result.world_size && forall|i: int|
            0 <= i < result.tasks@.len() ==> ({
                let t = #[trigger] result.tasks@[i];
                &&& t.thermalization_sweeps <= t.task.thermalization
                &&& t.measurement_sweeps <= t.task.sweeps
                &&& t.completed <==> t.thermalization_sweeps >= t.task.thermalization
                    && t.measurement_sweeps >= t.task.sweeps
                &&& forall|k: int|
                    0 <= k < t.observables@.len() ==> is_valid_scalar(
                        (#[trigger] t.observables@[k]).1,
                    )
            }),
        checked matches Err(e) ==> (e matches GenericJobError::Schema { path: p, reason } && p@
            == path@ && (result.rank >= result.world_size <==> reason@
            == "invalid result assignment"@) && (result.rank < result.world_size <==> reason@
            == "invalid task result"@)),
{
    reveal_strlit("invalid result assignment");
    reveal_strlit("invalid task result");
    assert("invalid result assignment"@.len() != "invalid task result"@.len());
    assert forall|i: int| 0 <= i < result.tasks@.len() implies is_valid_task_result(
        #[trigger] result.tasks@[i],
    ) == ({
        let t = result.tasks@[i];
        &&& t.thermalization_sweeps <= t.task.thermalization
        &&& t.measurement_sweeps <= t.task.sweeps
        &&& t.completed <==> t.thermalization_sweeps >= t.task.thermalization
            && t.measurement_sweeps >= t.task.sweeps
        &&& forall|k: int|
            0 <= k < t.observables@.len() ==> is_valid_scalar((#[trigger] t.observables@[k]).1)
    }) by {}
}

/// A copy of a result says what the result says, with copies of the tasks.
pub proof fn law_copied_results<P: Clone>(result: JobResult<P>, copy: JobResult<P>, i: int)
    requires
        call_ensures(<JobResult<P> as Clone>::clone, (&result,), copy),
        0 <= i < result.tasks@.len(),
    ensures
        copy.job_name@ == result.job_name@,
        copy.rank == result.rank,
        copy.world_size == result.world_size,
        copy.tasks@.len() == result.tasks@.len(),
        copy.tasks@[i].task_index == result.tasks@[i].task_index,
        copy.tasks@[i].completed == result.tasks@[i].completed,
        copy.tasks@[i].thermalization_sweeps == result.tasks@[i].thermalization_sweeps,
        copy.tasks@[i].measurement_sweeps == result.tasks@[i].measurement_sweeps,
        copy.tasks@[i].observables@ == result.tasks@[i].observables@,
        copy.tasks@[i].task.name@ == result.tasks@[i].task.name@,
        copy.tasks@[i].task.sweeps == result.tasks@[i].task.sweeps,
        copy.tasks@[i].task.thermalization == result.tasks@[i].task.thermalization,
        copy.tasks@[i].task.binsize == result.tasks@[i].task.binsize,
        copy.tasks@[i].task.seed == result.tasks@[i].task.seed,
{
    let a = result.tasks@[i]@;
    let b = copy.tasks@[i]@;
    assert(b == (TaskResultView { task: b.task, ..a }));
    assert(b.observables == a.observables);
    assert(task_cloned(a.task, b.task));
}

/// What is said of the result of a task is what stands in its fields.
pub proof fn law_results_show_their_fields<P>(t: TaskResult<P>)
    ensures
        t@.task_index == t.task_index,
        t@.task == t.task@,
        t@.observables == t.observables@,
        t@.thermalization_sweeps == t.thermalization_sweeps,
        t@.measurement_sweeps == t.measurement_sweeps,
        t@.completed == t.completed,
{
}

} // verus!
