//! Running a job: its options, its checks, and which task comes next.
//!
//! Whoever drives a run asks what to do, runs or claims a task, and reports what came of it.
//! Times are nanoseconds since the start of the run.

use crate::assignment::{JobAssignment, Scheduling};
use crate::error::GenericJobError;
use crate::model::{Job, MonteCarlo, Task};
#[allow(unused_imports)]
use crate::merge::{distinct_indices, has_index, is_accepted, law_static_parts_merge, merge_fault};
#[allow(unused_imports)]
use crate::model::{owns, tasks_agree};
use crate::paths::{validate_safe_component, validate_safe_path};
#[allow(unused_imports)]
use crate::paths::{is_safe_component, is_safe_path};
use crate::results::{JobResult, TaskResult};
#[allow(unused_imports)]
use crate::results::{is_valid_task_result, result_fault};
use core::marker::PhantomData;
use vstd::prelude::*;

verus! {

/// The options of one run. Durations are nanoseconds.
#[derive(Debug, Clone, PartialEq, Eq)]
pub struct RunOptions {
    pub assignment: Option<JobAssignment>,
    pub checkpoint_dir: Option<String>,
    pub resume: bool,
    pub checkpoint_interval: usize,
    pub output_path: Option<String>,
    pub sweep_limit: Option<usize>,
    /// Wall-clock limit for this run. `Some` overrides the `Runner` default.
    pub deadline: Option<u128>,
    /// Wall-clock checkpoint interval for this run. `Some` overrides the `Runner` default.
    pub checkpoint_interval_time: Option<u128>,
}

impl Default for RunOptions {
    fn default() -> (options: Self)
        ensures
            options == (RunOptions {
                assignment: None,
                checkpoint_dir: None,
                resume: false,
                checkpoint_interval: 0,
                output_path: None,
                sweep_limit: None,
                deadline: None,
                checkpoint_interval_time: None,
            }),
    {
        RunOptions {
            assignment: None,
            checkpoint_dir: None,
            resume: false,
            checkpoint_interval: 0,
            output_path: None,
            sweep_limit: None,
            deadline: None,
            checkpoint_interval_time: None,
        }
    }
}

/// What a run leaves behind.
#[derive(Debug, Clone, PartialEq)]
pub struct RunResult<P> {
    pub result: JobResult<P>,
    pub output_path: Option<String>,
    pub checkpoint_paths: Vec<String>,
    pub stopped_early: bool,
}

/// Default durations of a runner, in nanoseconds.
#[derive(Debug, Clone, Copy, PartialEq, Eq, Structural)]
pub struct RunnerDurationConfig {
    pub deadline: Option<u128>,
    pub checkpoint_interval: Option<u128>,
}

impl Default for RunnerDurationConfig {
    fn default() -> (config: Self)
        ensures
            config == (RunnerDurationConfig { deadline: None, checkpoint_interval: None }),
    {
        RunnerDurationConfig { deadline: None, checkpoint_interval: None }
    }
}

/// Runs the jobs of a model.
#[derive(Debug)]
pub struct Runner<M: MonteCarlo> {
    pub stale_claim_after: u128,
    pub scheduling: Scheduling,
    pub duration_config: RunnerDurationConfig,
    /// Ties the runner to its model.
    pub model: PhantomData<M>,
}

/// One hour in nanoseconds: the age at which a claim is stale by default.
pub const HOUR: u128 = 3_600_000_000_000;

impl<M: MonteCarlo> Default for Runner<M> {
    fn default() -> (runner: Self)
        ensures
            runner.stale_claim_after == HOUR,
            runner.scheduling == Scheduling::Static,
            runner.duration_config == (RunnerDurationConfig {
                deadline: None,
                checkpoint_interval: None,
            }),
    {
        Self::new()
    }
}

impl<M: MonteCarlo> Runner<M> {
    /// A runner with static scheduling, no deadline, and claims that are stale after one hour.
    pub fn new() -> (runner: Self)
        ensures
            runner.stale_claim_after == HOUR,
            runner.scheduling == Scheduling::Static,
            runner.duration_config == (RunnerDurationConfig {
                deadline: None,
                checkpoint_interval: None,
            }),
    {
        Runner {
            stale_claim_after: HOUR,
            scheduling: Scheduling::Static,
            duration_config: RunnerDurationConfig { deadline: None, checkpoint_interval: None },
            model: PhantomData,
        }
    }

    /// Sets the age at which a claim is stale, in nanoseconds.
    pub fn stale_claim_after(self, d: u128) -> (runner: Self)
        ensures
            runner == (Runner { stale_claim_after: d, ..self }),
    {
        Runner { stale_claim_after: d, ..self }
    }

    /// Sets the age at which a claim is stale, in nanoseconds.
    pub fn set_stale_claim_after(&mut self, d: u128) -> (runner: &mut Self)
        ensures
            *runner == (Runner { stale_claim_after: d, ..*old(self) }),
            *final(self) == *final(runner),
    {
        self.stale_claim_after = d;
        self
    }

    /// Switches to dynamic scheduling.
    pub fn dynamic(self) -> (runner: Self)
        ensures
            runner == (Runner { scheduling: Scheduling::Dynamic, ..self }),
    {
        Runner { scheduling: Scheduling::Dynamic, ..self }
    }

    /// Sets the scheduling.
    pub fn scheduling(self, s: Scheduling) -> (runner: Self)
        ensures
            runner == (Runner { scheduling: s, ..self }),
    {
        Runner { scheduling: s, ..self }
    }

    /// Sets the default durations.
    pub fn duration_config(self, config: RunnerDurationConfig) -> (runner: Self)
        ensures
            runner == (Runner { duration_config: config, ..self }),
    {
        Runner { duration_config: config, ..self }
    }

    /// Sets the default wall-clock limit, in nanoseconds.
    pub fn deadline(self, deadline: u128) -> (runner: Self)
        ensures
            runner == (Runner {
                duration_config: RunnerDurationConfig {
                    deadline: Some(deadline),
                    ..self.duration_config
                },
                ..self
            }),
    {
        let duration_config = RunnerDurationConfig {
            deadline: Some(deadline),
            checkpoint_interval: self.duration_config.checkpoint_interval,
        };
        Runner { duration_config, ..self }
    }

    /// Sets the default wall-clock checkpoint interval, in nanoseconds.
    pub fn checkpoint_every(self, interval: u128) -> (runner: Self)
        ensures
            runner == (Runner {
                duration_config: RunnerDurationConfig {
                    checkpoint_interval: Some(interval),
                    ..self.duration_config
                },
                ..self
            }),
    {
        let duration_config = RunnerDurationConfig {
            deadline: self.duration_config.deadline,
            checkpoint_interval: Some(interval),
        };
        Runner { duration_config, ..self }
    }

    /// The plan of a run: the options of the run where they say something, else the defaults of
    /// the runner.
    pub fn plan(&self, o: &RunOptions) -> (plan: RunPlan)
        ensures
            plan == run_plan(*self, *o),
    {
        RunPlan {
            scheduling: self.scheduling,
            assignment: match o.assignment {
                Some(assignment) => assignment,
                None => JobAssignment::single(),
            },
            sweep_limit: match o.sweep_limit {
                Some(limit) => limit,
                None => usize::MAX,
            },
            deadline: match o.deadline {
                Some(deadline) => Some(deadline),
                None => self.duration_config.deadline,
            },
            checkpoint_interval: o.checkpoint_interval,
            checkpoint_interval_time: match o.checkpoint_interval_time {
                Some(interval) => Some(interval),
                None => self.duration_config.checkpoint_interval,
            },
            restore_checkpoint: o.resume || self.scheduling == Scheduling::Dynamic,
            allow_different_rank: self.scheduling == Scheduling::Dynamic,
        }
    }
}

/// What a run goes by.
#[derive(Debug, Clone, Copy)]
pub struct RunPlan {
    pub scheduling: Scheduling,
    pub assignment: JobAssignment,
    /// How many sweeps the run may use in all.
    pub sweep_limit: usize,
    pub deadline: Option<u128>,
    /// After how many sweeps of a task a checkpoint is due, never where zero.
    pub checkpoint_interval: usize,
    /// After how many nanoseconds a checkpoint is due.
    pub checkpoint_interval_time: Option<u128>,
    /// Whether tasks resume from their checkpoints.
    pub restore_checkpoint: bool,
    /// Whether a checkpoint of another rank may be resumed.
    pub allow_different_rank: bool,
}

/// The plan of a run.
pub open spec fn run_plan<M: MonteCarlo>(runner: Runner<M>, o: RunOptions) -> RunPlan {
    RunPlan {
        scheduling: runner.scheduling,
        assignment: match o.assignment {
            Some(assignment) => assignment,
            None => JobAssignment { rank: 0, world_size: 1 },
        },
        sweep_limit: match o.sweep_limit {
            Some(limit) => limit,
            None => usize::MAX,
        },
        deadline: match o.deadline {
            Some(deadline) => Some(deadline),
            None => runner.duration_config.deadline,
        },
        checkpoint_interval: o.checkpoint_interval,
        checkpoint_interval_time: match o.checkpoint_interval_time {
            Some(interval) => Some(interval),
            None => runner.duration_config.checkpoint_interval,
        },
        restore_checkpoint: o.resume || runner.scheduling == Scheduling::Dynamic,
        allow_different_rank: runner.scheduling == Scheduling::Dynamic,
    }
}

impl RunPlan {
    /// Whether a run is within its deadline.
    pub open spec fn within(self, elapsed: u128) -> bool {
        self.deadline matches Some(deadline) ==> elapsed < deadline
    }

    /// Whether a run is within its deadline after `elapsed` nanoseconds.
    pub fn in_time(&self, elapsed: u128) -> (within: bool)
        ensures
            within == self.within(elapsed),
    {
        match self.deadline {
            Some(deadline) => elapsed < deadline,
            None => true,
        }
    }

    /// Whether a checkpoint is due: at the end of a task's run, after every so many sweeps, or
    /// when the last one is so many nanoseconds ago.
    pub open spec fn due(self, used: usize, last: bool, since_checkpoint: u128) -> bool {
        ||| last
        ||| self.checkpoint_interval > 0 && used > 0 && used % self.checkpoint_interval == 0
        ||| (self.checkpoint_interval_time matches Some(interval) && since_checkpoint >= interval)
    }

    /// Whether a checkpoint is due after `used` sweeps. `last` says that the task's run ends, and
    /// `since_checkpoint` is the time since the last checkpoint, in nanoseconds.
    pub fn checkpoint_due(&self, used: usize, last: bool, since_checkpoint: u128) -> (due: bool)
        ensures
            due == self.due(used, last, since_checkpoint),
    {
        let duration_due = match self.checkpoint_interval_time {
            Some(interval) => since_checkpoint >= interval,
            None => false,
        };
        let sweep_due = self.checkpoint_interval > 0 && used > 0 && used % self.checkpoint_interval
            == 0;
        last || sweep_due || duration_due
    }
}

/// Why a task cannot run, if it cannot. `earlier` holds the tasks in front of it.
pub open spec fn task_fault<P>(earlier: Seq<Task<P>>, task: Task<P>) -> Option<Seq<char>> {
    if !is_safe_component(task.name@) {
        Some("unsafe name"@)
    } else if exists|i: int| 0 <= i < earlier.len() && (#[trigger] earlier[i]).name@ == task.name@ {
        Some("duplicate name"@)
    } else if task.sweeps == 0 || task.binsize == 0 || task.sweeps < task.binsize {
        Some("invalid sweeps/bin size"@)
    } else {
        None
    }
}

/// Whether an error says why the first task that cannot run cannot.
pub open spec fn reports_task<P>(error: GenericJobError, tasks: Seq<Task<P>>) -> bool {
    exists|i: int|
        {
            &&& 0 <= i < tasks.len()
            &&& task_fault(tasks.take(i), #[trigger] tasks[i]) is Some
            &&& tasks_can_run(tasks.take(i))
            &&& error matches GenericJobError::InvalidTask { task, reason } && task@
                == tasks[i].name@ && reason@ == task_fault(tasks.take(i), tasks[i])->0
        }
}

/// Whether all tasks can run: safe and distinct names, and at least one full bin each.
pub open spec fn tasks_can_run<P>(tasks: Seq<Task<P>>) -> bool {
    forall|i: int|
        0 <= i < tasks.len() ==> task_fault(tasks.take(i), #[trigger] tasks[i]) is None
}

/// Whether some task has a name.
fn has_task_name<P>(tasks: &Vec<Task<P>>, end: usize, name: &String) -> (found: bool)
    requires
        end <= tasks@.len(),
    ensures
        found == exists|i: int| 0 <= i < end && (#[trigger] tasks@[i]).name@ == name@,
{
    let mut index: usize = 0;
    while index < end
        invariant
            index <= end <= tasks@.len(),
            forall|i: int| 0 <= i < index ==> (#[trigger] tasks@[i]).name@ != name@,
        decreases end - index,
    {
        if tasks[index].name == *name {
            return true;
        }
        index = index + 1;
    }
    false
}

/// Checks the tasks of a job one after the other.
fn validate_tasks<P>(tasks: &Vec<Task<P>>) -> (checked: Result<(), GenericJobError>)
    ensures
        match checked {
            Ok(_) => tasks_can_run(tasks@),
            Err(e) => reports_task(e, tasks@),
        },
{
    let mut index: usize = 0;
    while index < tasks.len()
        invariant
            index <= tasks.len(),
            forall|i: int|
                0 <= i < index ==> task_fault(tasks@.take(i), #[trigger] tasks@[i]) is None,
        decreases tasks.len() - index,
    {
        let task = &tasks[index];
        let ghost earlier = tasks@.take(index as int);
        let duplicate = has_task_name(tasks, index, &task.name);
        proof {
            if duplicate {
                let i = choose|i: int|
                    0 <= i < index && (#[trigger] tasks@[i]).name@ == task.name@;
                assert(earlier[i].name@ == task.name@);
            } else {
                assert forall|i: int| 0 <= i < earlier.len() implies (
                #[trigger] earlier[i]).name@ != task.name@ by {
                    assert(tasks@[i].name@ != task.name@);
                }
            }
            assert forall|i: int| 0 <= i < earlier.len() implies task_fault(
                earlier.take(i),
                #[trigger] earlier[i],
            ) is None by {
                assert(earlier.take(i) =~= tasks@.take(i));
                assert(task_fault(tasks@.take(i), tasks@[i]) is None);
            }
        }
        let reason: Option<&'static str> = if validate_safe_component(task.name.as_str()).is_err() {
            Some("unsafe name")
        } else if duplicate {
            Some("duplicate name")
        } else if task.sweeps == 0 || task.binsize == 0 || task.sweeps < task.binsize {
            Some("invalid sweeps/bin size")
        } else {
            None
        };
        if let Some(reason) = reason {
            return Err(GenericJobError::InvalidTask { task: task.name.clone(), reason });
        }
        index = index + 1;
    }
    Ok(())
}

/// Whether an optional path is safe.
pub open spec fn is_safe_option(path: Option<String>) -> bool {
    path matches Some(p) ==> is_safe_path(p@)
}

/// Whether a job can run with its options.
pub open spec fn can_run<M: MonteCarlo>(job: Job<M>, o: RunOptions) -> bool {
    &&& is_safe_option(o.checkpoint_dir)
    &&& is_safe_option(o.output_path)
    &&& o.assignment matches Some(a) ==> a.valid()
    &&& is_safe_component(job.name@)
    &&& tasks_can_run(job.tasks@)
}

/// Checks a job and its options before a run. Whether the paths are usable is for the caller to
/// find out.
pub fn validate<M: MonteCarlo>(j: &Job<M>, o: &RunOptions) -> (checked: Result<
    (),
    GenericJobError,
>)
    ensures
        checked is Ok <==> can_run(*j, *o),
        checked matches Err(e) ==> {
            if !is_safe_option(o.checkpoint_dir) {
                e matches GenericJobError::UnsafePath(p) && p@ == (o.checkpoint_dir->0)@
            } else if !is_safe_option(o.output_path) {
                e matches GenericJobError::UnsafePath(p) && p@ == (o.output_path->0)@
            } else if o.assignment is Some && !(o.assignment->0).valid() {
                e == (GenericJobError::InvalidAssignment {
                    rank: (o.assignment->0).rank,
                    world_size: (o.assignment->0).world_size,
                })
            } else if !is_safe_component(j.name@) {
                e matches GenericJobError::UnsafePath(p) && p@ == j.name@
            } else {
                reports_task(e, j.tasks@)
            }
        },
{
    let a = match o.assignment {
        Some(assignment) => assignment,
        None => JobAssignment::single(),
    };
    if let Some(directory) = &o.checkpoint_dir {
        validate_safe_path(directory.as_str())?;
    }
    if let Some(path) = &o.output_path {
        validate_safe_path(path.as_str())?;
    }
    if a.world_size == 0 || a.rank >= a.world_size {
        return Err(
            GenericJobError::InvalidAssignment { rank: a.rank, world_size: a.world_size },
        );
    }
    validate_safe_component(j.name.as_str())?;
    validate_tasks(&j.tasks)
}

/// Where a rank starts to look for work: the ranks spread evenly over the tasks.
pub open spec fn start_offset(task_count: int, assignment: JobAssignment) -> int {
    assignment.rank * task_count / assignment.world_size as int
}

/// The order in which a rank looks at the tasks: from its offset on, and from the first task on
/// after the last one.
pub open spec fn task_order(task_count: nat, assignment: JobAssignment) -> Seq<int> {
    Seq::new(
        task_count,
        |step: int| (start_offset(task_count as int, assignment) + step) % task_count as int,
    )
}

/// The directory in which ranks claim tasks under dynamic scheduling, which cannot do without one.
pub fn claim_directory(directory: &Option<String>) -> (found: Result<String, GenericJobError>)
    ensures
        match directory {
            Some(d) => found matches Ok(p) && p@ == d@,
            None => found matches Err(GenericJobError::Merge(m)) && m@
                == "dynamic scheduling requires checkpoint_dir"@,
        },
{
    match directory {
        Some(directory) => Ok(directory.clone()),
        None => Err(GenericJobError::Merge("dynamic scheduling requires checkpoint_dir")),
    }
}

/// The order in which a rank looks at the tasks under dynamic scheduling.
pub fn dynamic_task_order(task_count: usize, assignment: JobAssignment) -> (order: Vec<usize>)
    requires
        assignment.world_size > 0,
        assignment.rank * task_count <= usize::MAX,
        start_offset(task_count as int, assignment) + task_count <= usize::MAX,
    ensures
        order@.len() == task_count,
        forall|step: int|
            0 <= step < task_count ==> #[trigger] order@[step] == task_order(
                task_count as nat,
                assignment,
            )[step],
{
    let mut order: Vec<usize> = Vec::new();
    let offset: usize = assignment.rank * task_count / assignment.world_size;
    let mut step: usize = 0;
    while step < task_count
        invariant
            step <= task_count,
            offset == start_offset(task_count as int, assignment),
            offset + task_count <= usize::MAX,
            order@.len() == step,
            forall|k: int|
                0 <= k < step ==> #[trigger] order@[k] == task_order(
                    task_count as nat,
                    assignment,
                )[k],
        decreases task_count - step,
    {
        order.push((offset + step) % task_count);
        step = step + 1;
    }
    order
}

/// A rank looks at every task exactly once: the order lists each index, and none twice.
pub proof fn law_order_visits_every_task_once(task_count: nat, assignment: JobAssignment)
    requires
        assignment.world_size > 0,
    ensures
        ({
            let order = task_order(task_count, assignment);
            &&& order.len() == task_count
            &&& order.no_duplicates()
            &&& forall|k: int|
                0 <= k < task_count ==> 0 <= #[trigger] order[k] < task_count
            &&& forall|i: int| 0 <= i < task_count ==> #[trigger] order.contains(i)
        }),
{
    let n = task_count as int;
    let order = task_order(task_count, assignment);
    if n > 0 {
        let offset = start_offset(n, assignment);
        let shift = offset % n;
        assert forall|k: int| 0 <= k < n implies #[trigger] order[k] == (if shift + k < n {
            shift + k
        } else {
            shift + k - n
        }) by {
            lemma_wrapped(offset, k, n);
        }
        assert forall|i: int| 0 <= i < n implies #[trigger] order.contains(i) by {
            let k = if i >= shift {
                i - shift
            } else {
                i - shift + n
            };
            assert(order[k] == i);
        }
    }
}

proof fn lemma_wrapped(offset: int, step: int, n: int)
    requires
        n > 0,
        0 <= step < n,
    ensures
        0 <= offset % n < n,
        (offset + step) % n == if offset % n + step < n {
            offset % n + step
        } else {
            offset % n + step - n
        },
{
    let shift = offset % n;
    vstd::arithmetic::div_mod::lemma_add_mod_noop(offset, step, n);
    vstd::arithmetic::div_mod::lemma_small_mod(step as nat, n as nat);
    if shift + step < n {
        vstd::arithmetic::div_mod::lemma_small_mod((shift + step) as nat, n as nat);
    } else {
        vstd::arithmetic::div_mod::lemma_mod_sub_multiples_vanish(shift + step, n);
        vstd::arithmetic::div_mod::lemma_small_mod((shift + step - n) as nat, n as nat);
    }
}

/// The first rank starts with the first task, and no rank starts behind the last one.
pub proof fn law_ranks_start_inside(task_count: int, assignment: JobAssignment)
    requires
        task_count > 0,
        assignment.valid(),
    ensures
        0 <= start_offset(task_count, assignment) < task_count,
        assignment.rank == 0 ==> start_offset(task_count, assignment) == 0,
{
    let r = assignment.rank as int;
    let w = assignment.world_size as int;
    assert(r * task_count < w * task_count) by (nonlinear_arith)
        requires
            0 <= r < w,
            task_count > 0,
    ;
    assert(0 <= r * task_count) by (nonlinear_arith)
        requires
            0 <= r,
            task_count > 0,
    ;
    vstd::arithmetic::mul::lemma_mul_is_commutative(w, task_count);
    vstd::arithmetic::div_mod::lemma_div_pos_is_pos(r * task_count, w);
    vstd::arithmetic::div_mod::lemma_multiply_divide_lt(r * task_count, w, task_count);
    if r == 0 {
        assert(r * task_count == 0) by (nonlinear_arith)
            requires
                r == 0,
        ;
        vstd::arithmetic::div_mod::lemma_div_of0(w);
    }
}

/// A job under way.
#[derive(Debug)]
pub struct JobRun<P> {
    pub plan: RunPlan,
    pub task_count: usize,
    /// How many sweeps may still be used.
    pub budget: usize,
    /// The first task index that was not looked at yet under static scheduling.
    pub cursor: usize,
    pub stopped: bool,
    pub tasks: Vec<TaskResult<P>>,
    pub checkpoint_paths: Vec<String>,
}

/// What a run does next.
#[derive(Debug, Clone, Copy, PartialEq, Eq, Structural)]
pub enum RunAction {
    /// Run the task with this index.
    Run(usize),
    /// Claim a task and run it. Finish where there is none to claim.
    Claim,
    /// Finish.
    Finish,
}

/// Whether an index is the next one of a rank, from a cursor on.
pub open spec fn is_next_owned(
    assignment: JobAssignment,
    cursor: int,
    task_count: int,
    index: int,
) -> bool {
    &&& cursor <= index < task_count
    &&& owns(assignment, index)
    &&& forall|i: int| cursor <= i < index ==> !#[trigger] owns(assignment, i)
}

impl<P> JobRun<P> {
    /// Whether nothing was done yet.
    pub open spec fn is_begun(self, plan: RunPlan, task_count: usize) -> bool {
        &&& self.plan == plan
        &&& self.task_count == task_count
        &&& self.budget == plan.sweep_limit
        &&& self.cursor == 0
        &&& !self.stopped
        &&& self.tasks@.len() == 0
        &&& self.checkpoint_paths@.len() == 0
    }

    /// Whether `action` is what to do next after `elapsed` nanoseconds, and `after` is the run that
    /// knows it. A run without budget or time stops early; under static scheduling the tasks of the
    /// rank come in ascending order.
    pub open spec fn chooses(self, elapsed: u128, action: RunAction, after: JobRun<P>) -> bool {
        &&& after == (JobRun { cursor: after.cursor, stopped: after.stopped, ..self })
        &&& self.cursor <= after.cursor <= self.task_count
        &&& if self.budget == 0 || !self.plan.within(elapsed) {
            &&& action == RunAction::Finish
            &&& after.stopped
            &&& after.cursor == self.cursor
        } else {
            &&& after.stopped == self.stopped
            &&& match self.plan.scheduling {
                Scheduling::Dynamic => action == RunAction::Claim && after.cursor == self.cursor,
                Scheduling::Static => match action {
                    RunAction::Run(index) => is_next_owned(
                        self.plan.assignment,
                        self.cursor as int,
                        self.task_count as int,
                        index as int,
                    ) && after.cursor == index + 1,
                    RunAction::Finish => after.cursor == self.task_count && forall|i: int|
                        self.cursor <= i < self.task_count ==> !#[trigger] owns(
                            self.plan.assignment,
                            i,
                        ),
                    RunAction::Claim => false,
                },
            }
        }
    }

    /// Whether `after` is the run that has taken in the result of a task, together with the sweeps
    /// that it used and its checkpoint. A task that is not complete stops the run.
    pub open spec fn takes_in(
        self,
        result: TaskResult<P>,
        used: usize,
        checkpoint: Option<String>,
        after: JobRun<P>,
    ) -> bool {
        &&& after.plan == self.plan
        &&& after.task_count == self.task_count
        &&& after.cursor == self.cursor
        &&& after.budget == if used <= self.budget {
            self.budget - used
        } else {
            0
        }
        &&& after.stopped == (self.stopped || !result.completed)
        &&& after.tasks@ == self.tasks@.push(result)
        &&& after.checkpoint_paths@ == match checkpoint {
            Some(path) => self.checkpoint_paths@.push(path),
            None => self.checkpoint_paths@,
        }
    }

    /// Whether `result` is what a run leaves behind.
    pub open spec fn leaves(
        self,
        job_name: Seq<char>,
        output_path: Option<String>,
        result: RunResult<P>,
    ) -> bool {
        &&& result.result.job_name@ == job_name
        &&& result.result.rank == self.plan.assignment.rank
        &&& result.result.world_size == self.plan.assignment.world_size
        &&& result.result.tasks == self.tasks
        &&& result.output_path == output_path
        &&& result.checkpoint_paths == self.checkpoint_paths
        &&& result.stopped_early == self.stopped
    }

    /// A job before its first task.
    pub fn start(plan: RunPlan, task_count: usize) -> (run: Self)
        ensures
            run.is_begun(plan, task_count),
    {
        JobRun {
            plan,
            task_count,
            budget: plan.sweep_limit,
            cursor: 0,
            stopped: false,
            tasks: Vec::new(),
            checkpoint_paths: Vec::new(),
        }
    }

    /// What to do next after `elapsed` nanoseconds. A run without budget or time stops early;
    /// under static scheduling the tasks of the rank come in ascending order.
    pub fn next_action(&mut self, elapsed: u128) -> (action: RunAction)
        requires
            old(self).plan.assignment.world_size > 0,
            old(self).cursor <= old(self).task_count,
        ensures
            old(self).chooses(elapsed, action, *final(self)),
    {
        if self.budget == 0 || !self.plan.in_time(elapsed) {
            self.stopped = true;
            return RunAction::Finish;
        }
        match self.plan.scheduling {
            Scheduling::Dynamic => RunAction::Claim,
            Scheduling::Static => {
                let ghost begin = self.cursor as int;
                let mut index: usize = self.cursor;
                let assignment = self.plan.assignment;
                let count: usize = self.task_count;
                while index < count
                    invariant
                        begin <= index <= count,
                        assignment.world_size > 0,
                        begin == old(self).cursor,
                        self.cursor == begin,
                        count == old(self).task_count,
                        assignment == old(self).plan.assignment,
                        old(self).plan.scheduling == Scheduling::Static,
                        old(self).budget > 0,
                        old(self).plan.within(elapsed),
                        *self == *old(self),
                        forall|i: int| begin <= i < index ==> !#[trigger] owns(assignment, i),
                    decreases count - index,
                {
                    if index % assignment.world_size == assignment.rank {
                        assert(owns(assignment, index as int));
                        self.cursor = index + 1;
                        return RunAction::Run(index);
                    }
                    assert(!owns(assignment, index as int));
                    index = index + 1;
                }
                self.cursor = count;
                RunAction::Finish
            },
        }
    }

    /// Takes the result of a task in, together with the sweeps that it used and its checkpoint.
    /// A task that is not complete stops the run. Says whether the run goes on.
    pub fn record(&mut self, result: TaskResult<P>, used: usize, checkpoint: Option<String>) -> (
    goes_on: bool)
        ensures
            old(self).takes_in(result, used, checkpoint, *final(self)),
            goes_on == !final(self).stopped,
    {
        self.budget = self.budget.saturating_sub(used);
        self.stopped = self.stopped || !result.completed;
        if let Some(path) = checkpoint {
            self.checkpoint_paths.push(path);
        }
        self.tasks.push(result);
        !self.stopped
    }

    /// What the run leaves behind.
    pub fn finish(self, job_name: &String, output_path: Option<String>) -> (result: RunResult<P>)
        ensures
            self.leaves(job_name@, output_path, result),
    {
        RunResult {
            result: JobResult {
                job_name: job_name.clone(),
                rank: self.plan.assignment.rank,
                world_size: self.plan.assignment.world_size,
                tasks: self.tasks,
            },
            output_path,
            checkpoint_paths: self.checkpoint_paths,
            stopped_early: self.stopped,
        }
    }
}

/// Under static scheduling a run that asks for one index after the other gets the tasks of its
/// rank in ascending order, without a gap: what lies between two answers belongs to other ranks.
pub proof fn law_static_run_skips_nothing(
    assignment: JobAssignment,
    task_count: int,
    cursor: int,
    index: int,
    next: int,
    between: int,
)
    requires
        is_next_owned(assignment, cursor, task_count, index),
        is_next_owned(assignment, index + 1, task_count, next),
        cursor <= between < next,
        owns(assignment, between),
    ensures
        between == index,
        index < next,
{
    if between < index {
        assert(!owns(assignment, between));
    } else if between > index {
        assert(!owns(assignment, between));
    }
}

/// Whether task results are those of a rank in front of a cursor under static scheduling: one for
/// each of its tasks, in ascending order, and no other.
pub open spec fn are_rank_results<P>(
    assignment: JobAssignment,
    results: Seq<TaskResult<P>>,
    cursor: int,
) -> bool {
    &&& forall|k: int|
        0 <= k < results.len() ==> (#[trigger] results[k]).task_index < cursor && owns(
            assignment,
            results[k].task_index as int,
        )
    &&& forall|k: int, m: int|
        0 <= k < m < results.len() ==> (#[trigger] results[k]).task_index < (
        #[trigger] results[m]).task_index
    &&& forall|i: int| 0 <= i < cursor && #[trigger] owns(assignment, i) ==> has_index(results, i)
}

/// A static run that records the result of each task that it is told to run has, at every point,
/// one result for each task of its rank that it was told so far.
pub proof fn law_static_run_goes_on<P>(
    assignment: JobAssignment,
    results: Seq<TaskResult<P>>,
    cursor: int,
    task_count: int,
    index: int,
    result: TaskResult<P>,
)
    requires
        are_rank_results(assignment, results, cursor),
        is_next_owned(assignment, cursor, task_count, index),
        result.task_index == index,
    ensures
        are_rank_results(assignment, results.push(result), index + 1),
{
    let more = results.push(result);
    assert forall|i: int| 0 <= i < index + 1 && #[trigger] owns(assignment, i) implies has_index(
        more,
        i,
    ) by {
        if i < cursor {
            assert(has_index(results, i));
            let k = choose|k: int|
                0 <= k < results.len() && (#[trigger] results[k]).task_index == i;
            assert(more[k].task_index == i);
        } else {
            assert(i == index);
            assert(more[results.len() as int].task_index == i);
        }
    }
}

/// A static run that is told to finish with budget and time left has a result for each task of its
/// rank.
pub proof fn law_static_run_finishes<P>(
    assignment: JobAssignment,
    results: Seq<TaskResult<P>>,
    cursor: int,
    task_count: int,
)
    requires
        cursor <= task_count,
        are_rank_results(assignment, results, cursor),
        forall|i: int| cursor <= i < task_count ==> !#[trigger] owns(assignment, i),
    ensures
        are_rank_results(assignment, results, task_count),
{
}

/// The results of static runs that finished on all ranks merge: each run has a completed result
/// for each task of its rank.
pub proof fn law_finished_static_runs_merge<P: PartialEq>(
    job_name: Seq<char>,
    tasks: Seq<Task<P>>,
    parts: Seq<JobResult<P>>,
)
    requires
        0 < parts.len() <= usize::MAX,
        forall|r: int|
            0 <= r < parts.len() ==> ({
                let part = #[trigger] parts[r];
                &&& result_fault(part) is None
                &&& part.job_name@ == job_name
                &&& part.rank == r
                &&& part.world_size == parts.len()
                &&& are_rank_results(
                    JobAssignment { rank: part.rank, world_size: part.world_size },
                    part.tasks@,
                    tasks.len() as int,
                )
            }),
        forall|r: int, k: int|
            0 <= r < parts.len() && 0 <= k < parts[r].tasks@.len() ==> (
            #[trigger] parts[r].tasks@[k]).completed && tasks_agree(
                parts[r].tasks@[k].task@,
                tasks[parts[r].tasks@[k].task_index as int]@,
            ),
    ensures
        merge_fault(job_name, tasks, parts, Scheduling::Static) is None,
{
    assert forall|r: int, k: int|
        0 <= r < parts.len() && 0 <= k < parts[r].tasks@.len() implies is_accepted(
        #[trigger] parts[r].tasks@[k],
        tasks,
        JobAssignment { rank: parts[r].rank, world_size: parts[r].world_size },
        Scheduling::Static,
    ) by {
        let part = parts[r];
        assert(is_valid_task_result(part.tasks@[k]));
    }
    assert forall|r: int, i: int|
        0 <= r < parts.len() && 0 <= i < tasks.len() && i % parts.len() as int
            == r implies #[trigger] has_index(parts[r].tasks@, i) by {
        let part = parts[r];
        assert(owns(JobAssignment { rank: part.rank, world_size: part.world_size }, i));
    }
    assert forall|r: int| 0 <= r < parts.len() implies distinct_indices(
        (#[trigger] parts[r]).tasks@,
    ) by {
        let results = parts[r].tasks@;
        assert forall|i: int, j: int| 0 <= i < j < results.len() implies (
        #[trigger] results[i]).task_index != (#[trigger] results[j]).task_index by {
            assert(results[i].task_index < results[j].task_index);
        }
    }
    law_static_parts_merge(job_name, tasks, parts);
}

/// A run whose options say that it resumes takes tasks up from their checkpoints, under every
/// scheduling. Static runs do so only then; dynamic runs always do, and they alone take up what
/// another rank left.
pub proof fn law_resuming_runs_restore<M: MonteCarlo>(
    runner: Runner<M>,
    o: RunOptions,
    plan: RunPlan,
)
    requires
        call_ensures(Runner::<M>::plan, (&runner, &o), plan),
    ensures
        o.resume ==> plan.restore_checkpoint,
        runner.scheduling == Scheduling::Static ==> (plan.restore_checkpoint <==> o.resume),
        runner.scheduling == Scheduling::Dynamic ==> plan.restore_checkpoint,
        plan.allow_different_rank <==> runner.scheduling == Scheduling::Dynamic,
        plan.scheduling == runner.scheduling,
{
}

/// What the options of a run say goes before the defaults of the runner, and where they say nothing
/// the defaults hold: a process alone, as many sweeps as there are, and the runner's durations.
pub proof fn law_options_go_first<M: MonteCarlo>(runner: Runner<M>, o: RunOptions, plan: RunPlan)
    requires
        call_ensures(Runner::<M>::plan, (&runner, &o), plan),
    ensures
        o.assignment is Some ==> plan.assignment.rank == o.assignment->0.rank
            && plan.assignment.world_size == o.assignment->0.world_size,
        o.assignment is None ==> plan.assignment.rank == 0 && plan.assignment.world_size == 1,
        o.sweep_limit is Some ==> plan.sweep_limit == o.sweep_limit->0,
        o.sweep_limit is None ==> plan.sweep_limit == usize::MAX,
        o.deadline is Some ==> plan.deadline == o.deadline,
        o.deadline is None ==> plan.deadline == runner.duration_config.deadline,
        o.checkpoint_interval_time is Some ==> plan.checkpoint_interval_time
            == o.checkpoint_interval_time,
        o.checkpoint_interval_time is None ==> plan.checkpoint_interval_time
            == runner.duration_config.checkpoint_interval,
        plan.checkpoint_interval == o.checkpoint_interval,
{
}

/// Options say nothing until they are told: a single process from the beginning, without files or
/// limits. A runner is static, without durations, and takes a claim for stale after an hour.
pub proof fn law_defaults<M: MonteCarlo>(
    o: RunOptions,
    config: RunnerDurationConfig,
    new: Runner<M>,
    default: Runner<M>,
)
    requires
        call_ensures(<RunOptions as Default>::default, (), o),
        call_ensures(<RunnerDurationConfig as Default>::default, (), config),
        call_ensures(Runner::<M>::new, (), new),
        call_ensures(<Runner<M> as Default>::default, (), default),
    ensures
        !o.resume,
        o.assignment is None && o.checkpoint_dir is None && o.output_path is None,
        o.sweep_limit is None && o.deadline is None && o.checkpoint_interval_time is None,
        o.checkpoint_interval == 0,
        config.deadline is None && config.checkpoint_interval is None,
        new.scheduling == Scheduling::Static && default.scheduling == Scheduling::Static,
        new.duration_config == config && default.duration_config == config,
        new.stale_claim_after == 60 * 60 * 1_000_000_000,
        default.stale_claim_after == new.stale_claim_after,
{
}

/// Each setting of a runner is told on its own and leaves the others alone.
pub proof fn law_runner_settings<M: MonteCarlo>(
    runner: Runner<M>,
    told: (u128, Scheduling, RunnerDurationConfig, u128, u128),
    after: (Runner<M>, Runner<M>, Runner<M>, Runner<M>, Runner<M>, Runner<M>),
)
    requires
        call_ensures(Runner::<M>::stale_claim_after, (runner, told.0), after.0),
        call_ensures(Runner::<M>::scheduling, (runner, told.1), after.1),
        call_ensures(Runner::<M>::duration_config, (runner, told.2), after.2),
        call_ensures(Runner::<M>::deadline, (runner, told.3), after.3),
        call_ensures(Runner::<M>::checkpoint_every, (runner, told.4), after.4),
        call_ensures(Runner::<M>::dynamic, (runner,), after.5),
    ensures
        after.0.stale_claim_after == told.0 && after.0.scheduling == runner.scheduling,
        after.0.duration_config == runner.duration_config,
        after.1.scheduling == told.1 && after.1.stale_claim_after == runner.stale_claim_after,
        after.1.duration_config == runner.duration_config,
        after.2.duration_config == told.2 && after.2.scheduling == runner.scheduling,
        after.2.stale_claim_after == runner.stale_claim_after,
        after.3.duration_config.deadline == Some(told.3),
        after.3.duration_config.checkpoint_interval == runner.duration_config.checkpoint_interval,
        after.3.scheduling == runner.scheduling,
        after.3.stale_claim_after == runner.stale_claim_after,
        after.4.duration_config.checkpoint_interval == Some(told.4),
        after.4.duration_config.deadline == runner.duration_config.deadline,
        after.4.scheduling == runner.scheduling,
        after.4.stale_claim_after == runner.stale_claim_after,
        after.5.scheduling == Scheduling::Dynamic,
        after.5.stale_claim_after == runner.stale_claim_after,
        after.5.duration_config == runner.duration_config,
{
}

/// The age at which a claim is stale can be told in place as well.
pub proof fn law_stale_claims_in_place<M: MonteCarlo>(
    runner: &mut Runner<M>,
    age: u128,
    same: &mut Runner<M>,
)
    requires
        call_ensures(Runner::<M>::set_stale_claim_after, (runner, age), same),
    ensures
        old(same).stale_claim_after == age,
        old(same).scheduling == old(runner).scheduling,
        old(same).duration_config == old(runner).duration_config,
        *final(same) == *final(runner),
{
}

/// A run is in time as long as less time has passed than its deadline, at all times without one. A
/// run that is late stays late.
pub proof fn law_deadlines(plan: RunPlan, earlier: u128, later: u128, before: bool, after: bool)
    requires
        earlier <= later,
        call_ensures(RunPlan::in_time, (&plan, earlier), before),
        call_ensures(RunPlan::in_time, (&plan, later), after),
    ensures
        plan.deadline is None ==> before,
        plan.deadline is Some ==> (before <==> earlier < plan.deadline->0),
        after ==> before,
{
}

/// A checkpoint is due at the end of a task's run, whatever was saved before.
pub proof fn law_checkpoint_at_the_end(plan: RunPlan, used: usize, since: u128, due: bool)
    requires
        call_ensures(RunPlan::checkpoint_due, (&plan, used, true, since), due),
    ensures
        due,
{
}

/// With an interval of so many sweeps a checkpoint is due at every multiple of it.
pub proof fn law_checkpoint_at_every_multiple(
    plan: RunPlan,
    k: nat,
    used: usize,
    last: bool,
    since: u128,
    due: bool,
)
    requires
        plan.checkpoint_interval > 0,
        k >= 1,
        used == k * plan.checkpoint_interval,
        call_ensures(RunPlan::checkpoint_due, (&plan, used, last, since), due),
    ensures
        due,
{
    let n = plan.checkpoint_interval as int;
    vstd::arithmetic::div_mod::lemma_mod_multiples_basic(k as int, n);
    vstd::arithmetic::mul::lemma_mul_is_commutative(k as int, n);
    assert(k * n >= n) by (nonlinear_arith)
        requires
            k >= 1,
            n > 0,
    ;
}

/// Whether a checkpoint is due after so many sweeps, whatever else is the case.
pub open spec fn is_surely_due(plan: RunPlan, used: usize) -> bool {
    forall|last: bool, since: u128, due: bool| #[trigger]
        call_ensures(RunPlan::checkpoint_due, (&plan, used, last, since), due) ==> due
}

/// With an interval of so many sweeps no more of them are ever unsaved: among as many successive
/// numbers of sweeps there is one at which a checkpoint is due.
pub proof fn law_no_more_sweeps_are_unsaved(plan: RunPlan, used: nat)
    requires
        plan.checkpoint_interval > 0,
        used + plan.checkpoint_interval <= usize::MAX,
    ensures
        exists|at: usize|
            used < at <= used + plan.checkpoint_interval && #[trigger] is_surely_due(plan, at),
{
    let n = plan.checkpoint_interval as int;
    let k = used as int / n + 1;
    vstd::arithmetic::div_mod::lemma_fundamental_div_mod(used as int, n);
    vstd::arithmetic::mul::lemma_mul_is_commutative(n, used as int / n);
    vstd::arithmetic::mul::lemma_mul_is_distributive_add_other_way(n, used as int / n, 1);
    let at = (k * n) as usize;
    vstd::arithmetic::div_mod::lemma_div_pos_is_pos(used as int, n);
    assert(at == k * n);
    assert forall|last: bool, since: u128, due: bool| #[trigger]
        call_ensures(RunPlan::checkpoint_due, (&plan, at, last, since), due) implies due by {
        law_checkpoint_at_every_multiple(plan, k as nat, at, last, since, due);
    }
    assert(is_surely_due(plan, at));
}

/// With an interval of time a checkpoint is due when so much time has passed, whatever the number
/// of sweeps. In the middle of a task no checkpoint is due for any other reason than the time that
/// has passed or a multiple of the interval of sweeps.
pub proof fn law_checkpoint_by_time(
    plan: RunPlan,
    used: usize,
    last: bool,
    since: u128,
    due: bool,
)
    requires
        call_ensures(RunPlan::checkpoint_due, (&plan, used, last, since), due),
    ensures
        plan.checkpoint_interval_time is Some && since >= plan.checkpoint_interval_time->0 ==> due,
        due && !last && (plan.checkpoint_interval_time is None || since
            < plan.checkpoint_interval_time->0) ==> used > 0 && plan.checkpoint_interval > 0
            && exists|k: nat| k >= 1 && used == #[trigger] (k * plan.checkpoint_interval),
{
    let n = plan.checkpoint_interval as int;
    if due && !last && (plan.checkpoint_interval_time is None || since
        < plan.checkpoint_interval_time->0) {
        vstd::arithmetic::div_mod::lemma_fundamental_div_mod(used as int, n);
        vstd::arithmetic::mul::lemma_mul_is_commutative(n, used as int / n);
        vstd::arithmetic::div_mod::lemma_div_pos_is_pos(used as int, n);
        let k = (used as int / n) as nat;
        assert(used == k * plan.checkpoint_interval);
        if k == 0 {
            assert(k * n == 0) by (nonlinear_arith)
                requires
                    k == 0,
            ;
        }
    }
}

/// A job can run only if each of its tasks can fill a bin, no two tasks share a name, and names,
/// paths and ranks are in order. A job in order is not refused.
pub proof fn law_jobs_that_can_run<M: MonteCarlo>(
    job: Job<M>,
    o: RunOptions,
    checked: Result<(), GenericJobError>,
)
    requires
        call_ensures(validate::<M>, (&job, &o), checked),
    ensures
        checked is Ok <==> {
            &&& o.checkpoint_dir is Some ==> is_safe_path(o.checkpoint_dir->0@)
            &&& o.output_path is Some ==> is_safe_path(o.output_path->0@)
            &&& o.assignment is Some ==> o.assignment->0.rank < o.assignment->0.world_size
            &&& is_safe_component(job.name@)
            &&& forall|i: int|
                0 <= i < job.tasks@.len() ==> is_safe_component((#[trigger] job.tasks@[i]).name@)
                    && 1 <= job.tasks@[i].binsize <= job.tasks@[i].sweeps
            &&& forall|i: int, j: int|
                0 <= i < j < job.tasks@.len() ==> (#[trigger] job.tasks@[i]).name@ != (
                #[trigger] job.tasks@[j]).name@
        },
{
    let tasks = job.tasks@;
    if tasks_can_run(tasks) {
        assert forall|i: int, j: int| 0 <= i < j < tasks.len() implies (#[trigger] tasks[i]).name@
            != (#[trigger] tasks[j]).name@ by {
            assert(task_fault(tasks.take(j), tasks[j]) is None);
            assert(tasks.take(j)[i] == tasks[i]);
        }
        assert forall|i: int| 0 <= i < tasks.len() implies is_safe_component(
            (#[trigger] tasks[i]).name@,
        ) && 1 <= tasks[i].binsize <= tasks[i].sweeps by {
            assert(task_fault(tasks.take(i), tasks[i]) is None);
        }
    }
    if (forall|i: int|
        0 <= i < tasks.len() ==> is_safe_component((#[trigger] tasks[i]).name@) && 1
            <= tasks[i].binsize <= tasks[i].sweeps) && (forall|i: int, j: int|
        0 <= i < j < tasks.len() ==> (#[trigger] tasks[i]).name@ != (#[trigger] tasks[j]).name@) {
        assert forall|i: int| 0 <= i < tasks.len() implies task_fault(
            tasks.take(i),
            #[trigger] tasks[i],
        ) is None by {
            let earlier = tasks.take(i);
            assert forall|k: int| 0 <= k < earlier.len() implies (#[trigger] earlier[k]).name@
                != tasks[i].name@ by {
                assert(earlier[k] == tasks[k]);
            }
        }
    }
}

/// A job that cannot run because of a task is told which: the first one with an unsafe name, with
/// the name of an earlier task, or without a full bin, in this order.
pub proof fn law_refused_tasks_are_named<M: MonteCarlo>(
    job: Job<M>,
    o: RunOptions,
    error: GenericJobError,
)
    requires
        call_ensures(validate::<M>, (&job, &o), Err::<(), GenericJobError>(error)),
        error is InvalidTask,
    ensures
        exists|i: int|
            {
                let t = #[trigger] job.tasks@[i];
                &&& 0 <= i < job.tasks@.len()
                &&& error->InvalidTask_task@ == t.name@
                &&& forall|k: int|
                    0 <= k < i ==> is_safe_component((#[trigger] job.tasks@[k]).name@) && 1
                        <= job.tasks@[k].binsize <= job.tasks@[k].sweeps
                &&& error->InvalidTask_reason@ == "unsafe name"@ ==> !is_safe_component(t.name@)
                &&& error->InvalidTask_reason@ == "duplicate name"@ ==> exists|k: int|
                    0 <= k < i && (#[trigger] job.tasks@[k]).name@ == t.name@
                &&& error->InvalidTask_reason@ == "invalid sweeps/bin size"@ ==> t.binsize == 0
                    || t.sweeps < t.binsize
            },
{
    reveal_strlit("unsafe name");
    reveal_strlit("duplicate name");
    reveal_strlit("invalid sweeps/bin size");
    assert("unsafe name"@.len() == 11);
    assert("duplicate name"@.len() == 14);
    assert("invalid sweeps/bin size"@.len() == 23);
    let tasks = job.tasks@;
    assert(reports_task(error, tasks));
    let i = choose|i: int|
        {
            &&& 0 <= i < tasks.len()
            &&& task_fault(tasks.take(i), #[trigger] tasks[i]) is Some
            &&& tasks_can_run(tasks.take(i))
            &&& error matches GenericJobError::InvalidTask { task, reason } && task@
                == tasks[i].name@ && reason@ == task_fault(tasks.take(i), tasks[i])->0
        };
    let earlier = tasks.take(i);
    assert forall|k: int| 0 <= k < i implies is_safe_component((#[trigger] tasks[k]).name@) && 1
        <= tasks[k].binsize <= tasks[k].sweeps by {
        assert(earlier[k] == tasks[k]);
        assert(task_fault(earlier.take(k), earlier[k]) is None);
    }
    if error->InvalidTask_reason@ == "duplicate name"@ {
        let k = choose|k: int| 0 <= k < earlier.len() && (#[trigger] earlier[k]).name@
            == tasks[i].name@;
        assert(tasks[k].name@ == tasks[i].name@);
    }
    assert(job.tasks@[i].name@ == tasks[i].name@);
}

/// A rank looks at the tasks one after the other, from its share of the way through the list on and
/// from the first task on after the last.
pub proof fn law_order_goes_round(
    task_count: usize,
    assignment: JobAssignment,
    order: Vec<usize>,
)
    requires
        task_count > 0,
        assignment.rank < assignment.world_size,
        call_ensures(dynamic_task_order, (task_count, assignment), order),
    ensures
        order@.len() == task_count,
        order@[0] as int * assignment.world_size <= assignment.rank * task_count,
        assignment.rank * task_count < (order@[0] + 1) * assignment.world_size,
        forall|k: int|
            0 <= k < task_count - 1 ==> (#[trigger] order@[k] + 1 < task_count ==> order@[k + 1]
                == order@[k] + 1) && (order@[k] + 1 == task_count ==> order@[k + 1] == 0),
        forall|k: int| 0 <= k < task_count ==> #[trigger] order@[k] < task_count,
{
    let n = task_count as int;
    let w = assignment.world_size as int;
    let x = assignment.rank * n;
    let offset = start_offset(n, assignment);
    law_ranks_start_inside(n, assignment);
    let table = task_order(task_count as nat, assignment);
    assert forall|k: int| 0 <= k < n implies #[trigger] table[k] == (if offset + k < n {
        offset + k
    } else {
        offset + k - n
    }) by {
        lemma_wrapped(offset, k, n);
        vstd::arithmetic::div_mod::lemma_small_mod(offset as nat, n as nat);
    }
    assert(order@[0] == table[0]);
    vstd::arithmetic::div_mod::lemma_fundamental_div_mod(x, w);
    vstd::arithmetic::mul::lemma_mul_is_commutative(w, offset);
    vstd::arithmetic::mul::lemma_mul_is_distributive_add_other_way(w, offset, 1);
    assert forall|k: int| 0 <= k < n - 1 implies (#[trigger] order@[k] + 1 < n ==> order@[k + 1]
        == order@[k] + 1) && (order@[k] + 1 == n ==> order@[k + 1] == 0) by {
        assert(order@[k] == table[k]);
        assert(order@[k + 1] == table[k + 1]);
    }
    assert forall|k: int| 0 <= k < n implies #[trigger] order@[k] < n by {
        assert(order@[k] == table[k]);
    }
}

/// A run starts with the budget of its plan, with no task done and none left out.
pub proof fn law_runs_start<P>(plan: RunPlan, task_count: usize, run: JobRun<P>)
    requires
        call_ensures(JobRun::<P>::start, (plan, task_count), run),
    ensures
        run.plan == plan,
        run.task_count == task_count,
        run.budget == plan.sweep_limit,
        run.cursor == 0,
        !run.stopped,
        run.tasks@.len() == 0,
        run.checkpoint_paths@.len() == 0,
{
}

/// A run without sweeps or time left is told to finish and counts as stopped early. A run with both
/// is not stopped by asking what is next. Asking changes neither the budget nor the results.
pub proof fn law_runs_stop_early<P>(run: &mut JobRun<P>, elapsed: u128, action: RunAction)
    requires
        call_ensures(JobRun::<P>::next_action, (run, elapsed), action),
    ensures
        old(run).budget == 0 || (old(run).plan.deadline is Some && elapsed
            >= old(run).plan.deadline->0) ==> action is Finish && final(run).stopped,
        old(run).budget > 0 && (old(run).plan.deadline is None || elapsed
            < old(run).plan.deadline->0) ==> final(run).stopped == old(run).stopped,
        final(run).budget == old(run).budget,
        final(run).tasks@ == old(run).tasks@,
        final(run).checkpoint_paths@ == old(run).checkpoint_paths@,
        final(run).plan == old(run).plan,
        final(run).task_count == old(run).task_count,
{
}

/// A static run that goes on is told the next task of its rank, with none of the rank's tasks in
/// between left out, and is told to finish only when none is left. A dynamic run that goes on is
/// told to claim a task.
pub proof fn law_runs_go_on<P>(run: &mut JobRun<P>, elapsed: u128, action: RunAction)
    requires
        call_ensures(JobRun::<P>::next_action, (run, elapsed), action),
        old(run).budget > 0,
        old(run).plan.deadline is None || elapsed < old(run).plan.deadline->0,
    ensures
        old(run).plan.scheduling == Scheduling::Dynamic ==> action is Claim,
        old(run).plan.scheduling == Scheduling::Static ==> action !is Claim,
        action matches RunAction::Run(index) ==> {
            let w = old(run).plan.assignment.world_size as int;
            let r = old(run).plan.assignment.rank;
            &&& old(run).cursor <= index < old(run).task_count
            &&& index as int % w == r
            &&& forall|i: int| old(run).cursor <= i < index ==> #[trigger] (i % w) != r
            &&& final(run).cursor == index + 1
        },
        old(run).plan.scheduling == Scheduling::Static && action is Finish ==> {
            let w = old(run).plan.assignment.world_size as int;
            let r = old(run).plan.assignment.rank;
            forall|i: int| old(run).cursor <= i < old(run).task_count ==> #[trigger] (i % w) != r
        },
{
    let a = old(run).plan.assignment;
    let w = a.world_size as int;
    if let RunAction::Run(index) = action {
        assert forall|i: int| old(run).cursor <= i < index implies #[trigger] (i % w) != a.rank by {
            assert(!owns(a, i));
        }
    }
    if old(run).plan.scheduling == Scheduling::Static && action is Finish {
        assert forall|i: int| old(run).cursor <= i < old(run).task_count implies #[trigger] (i % w)
            != a.rank by {
            assert(!owns(a, i));
        }
    }
}

/// A run that takes a result in has it behind the earlier ones, has so many sweeps less, and goes
/// on exactly if the task is complete and nothing stopped the run before.
pub proof fn law_runs_take_results_in<P>(
    run: &mut JobRun<P>,
    result: TaskResult<P>,
    used: usize,
    checkpoint: Option<String>,
    goes_on: bool,
)
    requires
        call_ensures(JobRun::<P>::record, (run, result, used, checkpoint), goes_on),
    ensures
        final(run).tasks@ == old(run).tasks@.push(result),
        used <= old(run).budget ==> final(run).budget + used == old(run).budget,
        used > old(run).budget ==> final(run).budget == 0,
        goes_on <==> result.completed && !old(run).stopped,
        final(run).stopped <==> !goes_on,
        checkpoint is Some ==> final(run).checkpoint_paths@ == old(run).checkpoint_paths@.push(
            checkpoint->0,
        ),
        checkpoint is None ==> final(run).checkpoint_paths@ == old(run).checkpoint_paths@,
        final(run).cursor == old(run).cursor,
        final(run).plan == old(run).plan,
        final(run).task_count == old(run).task_count,
{
}

/// What a run leaves behind is what it took in, under the name of the job and the rank of the run,
/// and says whether the run was stopped early.
pub proof fn law_runs_leave_results<P>(
    run: JobRun<P>,
    job_name: String,
    output_path: Option<String>,
    result: RunResult<P>,
)
    requires
        call_ensures(JobRun::<P>::finish, (run, &job_name, output_path), result),
    ensures
        result.result.tasks@ == run.tasks@,
        result.result.job_name@ == job_name@,
        result.result.rank == run.plan.assignment.rank,
        result.result.world_size == run.plan.assignment.world_size,
        result.stopped_early == run.stopped,
        result.output_path == output_path,
        result.checkpoint_paths@ == run.checkpoint_paths@,
{
}

/// Dynamic scheduling goes by the directory that it is given and is refused without one.
pub proof fn law_claims_need_a_directory(
    directory: Option<String>,
    found: Result<String, GenericJobError>,
)
    requires
        call_ensures(claim_directory, (&directory,), found),
    ensures
        found is Ok <==> directory is Some,
        found is Ok ==> found->Ok_0@ == directory->0@,
        found is Err ==> found->Err_0 is Merge,
{
}

} // verus!
