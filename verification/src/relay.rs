//! A job that is run in several goes.
//!
//! Each go takes the tasks of its rank in ascending order under static scheduling, until its
//! budget of sweeps is used up. The next go takes every task up where it was left. What is proved
//! here is that the last go ends with the results of a single go without interruption, first of
//! goes as such, then of the runs of a job that [`JobRun`] and [`TaskRun`] go through.

#[allow(unused_imports)]
use crate::assignment::{JobAssignment, Scheduling};
#[allow(unused_imports)]
use crate::course::{is_closing, seen, Course};
#[allow(unused_imports)]
use crate::estimate::ScalarEstimate;
#[allow(unused_imports)]
use crate::model::{owns, MonteCarlo, TaskView};
#[allow(unused_imports)]
use crate::results::{TaskResult, TaskResultView};
#[allow(unused_imports)]
use crate::runner::{
    is_next_owned, law_checkpoint_at_the_end, law_resuming_runs_restore, JobRun, RunAction,
    RunOptions, RunPlan, RunResult, Runner,
};
#[allow(unused_imports)]
use crate::simulation::AccumulatorView;
#[allow(unused_imports)]
use crate::task_run::{
    after_steps, flagged, is_steady, law_portions, law_stays_on_course, lemma_flag_does_not_matter,
    on_course, restored_context, run_result, saved_state, step_after, Dynamics, RunView,
    TaskRuntime,
};
use vstd::prelude::*;

verus! {

/// How many sweeps a task still has to do.
pub open spec fn steps_left<M, P>(task: TaskView<P>, run: RunView<M>) -> nat {
    (task.thermalization - run.thermalization_sweeps + task.sweeps - run.measurement_sweeps) as nat
}

/// The smaller of two numbers.
pub open spec fn lesser(a: nat, b: nat) -> nat {
    if a <= b {
        a
    } else {
        b
    }
}

/// One go of a rank over the tasks of a job.
#[verifier::reject_recursive_types(M)]
#[verifier::reject_recursive_types(P)]
pub struct Go<M, P> {
    pub dynamics: Dynamics<M>,
    /// What the observables of a finished model are estimated to be.
    pub estimates: spec_fn(M, Seq<(Seq<char>, AccumulatorView)>) -> Seq<
        (Seq<char>, ScalarEstimate),
    >,
    pub tasks: Seq<TaskView<P>>,
    pub assignment: JobAssignment,
    /// Where each task is taken up.
    pub runs: Seq<RunView<M>>,
    /// How many sweeps the go may use.
    pub budget: nat,
}

impl<M, P> Go<M, P> {
    /// Whether the parts of a go fit together: a model that keeps the settings of its context, and
    /// tasks that are on course.
    pub open spec fn valid(self) -> bool {
        &&& is_steady(self.dynamics)
        &&& self.tasks.len() == self.runs.len()
        &&& self.tasks.len() <= usize::MAX
        &&& forall|i: int|
            0 <= i < self.tasks.len() ==> on_course(#[trigger] self.tasks[i], self.runs[i])
    }

    /// How many sweeps a task gets out of a budget.
    pub open spec fn share(self, index: nat, budget: nat) -> nat {
        if owns(self.assignment, index as int) {
            lesser(steps_left(self.tasks[index as int], self.runs[index as int]), budget)
        } else {
            0
        }
    }

    /// What is left of the budget before a task.
    pub open spec fn budget_before(self, index: nat) -> nat
        decreases index,
    {
        if index == 0 {
            self.budget
        } else {
            let before = self.budget_before((index - 1) as nat);
            (before - self.share((index - 1) as nat, before)) as nat
        }
    }

    /// How many sweeps a task does.
    pub open spec fn steps(self, index: nat) -> nat {
        self.share(index, self.budget_before(index))
    }

    /// Where a task is left.
    pub open spec fn left_off(self, index: nat) -> RunView<M> {
        after_steps(
            self.dynamics,
            self.tasks[index as int],
            self.runs[index as int],
            self.steps(index),
        )
    }

    /// The result of a task.
    pub open spec fn result(self, index: nat) -> TaskResultView<P> {
        let run = self.left_off(index);
        run_result(
            self.tasks[index as int],
            index as usize,
            run.thermalization_sweeps,
            run.measurement_sweeps,
            (self.estimates)(run.model, run.context.observables),
        )
    }

    /// The results of the tasks of the rank among the first `count` tasks.
    pub open spec fn results(self, count: nat) -> Seq<TaskResultView<P>>
        decreases count,
    {
        if count == 0 {
            Seq::empty()
        } else if owns(self.assignment, count - 1) {
            self.results((count - 1) as nat).push(self.result((count - 1) as nat))
        } else {
            self.results((count - 1) as nat)
        }
    }

    /// How many sweeps the tasks of the rank among the first `count` tasks still have to do.
    pub open spec fn needs(self, count: nat) -> nat
        decreases count,
    {
        if count == 0 {
            0
        } else if owns(self.assignment, count - 1) {
            self.needs((count - 1) as nat) + steps_left(
                self.tasks[count - 1],
                self.runs[count - 1],
            )
        } else {
            self.needs((count - 1) as nat)
        }
    }

    /// Whether the budget is enough for all tasks of the rank.
    pub open spec fn is_enough(self) -> bool {
        self.budget >= self.needs(self.tasks.len())
    }

    /// Whether two goes are goes over the same job.
    pub open spec fn same_job(self, other: Go<M, P>) -> bool {
        &&& self.dynamics == other.dynamics
        &&& self.estimates == other.estimates
        &&& self.tasks == other.tasks
        &&& self.assignment == other.assignment
    }
}

/// Whether a task under way is somewhere on the course of the task that was begun.
pub open spec fn is_on_the_way<M, P>(
    dynamics: Dynamics<M>,
    task: TaskView<P>,
    begun: RunView<M>,
    run: RunView<M>,
) -> bool {
    exists|steps: nat|
        flagged(task, run) == flagged(task, #[trigger] after_steps(dynamics, task, begun, steps))
}

/// A task that is taken up from the state that was saved of it.
pub open spec fn taken_up<M, P>(
    task: TaskView<P>,
    runtime: TaskRuntime,
    left: RunView<M>,
) -> RunView<M> {
    let state = saved_state(
        task,
        runtime,
        left.context,
        left.thermalization_sweeps,
        left.measurement_sweeps,
    );
    RunView {
        model: left.model,
        context: restored_context(task, state),
        thermalization_sweeps: state.thermalization_sweeps,
        measurement_sweeps: state.measurement_sweeps,
    }
}

/// Whether a task is taken up where it was left: from the state that was saved of it, or, where it
/// was not touched, as it stood before.
pub open spec fn is_taken_up<M, P>(
    task: TaskView<P>,
    runtime: TaskRuntime,
    before: RunView<M>,
    left: RunView<M>,
    resumed: RunView<M>,
) -> bool {
    ||| resumed == taken_up(task, runtime, left)
    ||| left == before && resumed == before
}

proof fn lemma_finished_stays<M, P>(
    dynamics: Dynamics<M>,
    task: TaskView<P>,
    run: RunView<M>,
    steps: nat,
)
    requires
        on_course(task, run),
        steps_left(task, run) == 0,
    ensures
        after_steps(dynamics, task, run, steps) == run,
    decreases steps,
{
    if steps > 0 {
        lemma_finished_stays(dynamics, task, run, (steps - 1) as nat);
    }
}

proof fn lemma_steps_left<M, P>(
    dynamics: Dynamics<M>,
    task: TaskView<P>,
    run: RunView<M>,
    steps: nat,
)
    requires
        is_steady(dynamics),
        on_course(task, run),
    ensures
        steps_left(task, after_steps(dynamics, task, run, steps)) == if steps <= steps_left(
            task,
            run,
        ) {
            steps_left(task, run) - steps
        } else {
            0
        },
    decreases steps,
{
    if steps > 0 {
        lemma_steps_left(dynamics, task, run, (steps - 1) as nat);
        law_stays_on_course(dynamics, task, run, (steps - 1) as nat);
    }
}

/// A task that is begun comes to its end after the sweeps that it has to do, and stays there.
proof fn lemma_ends<M, P>(dynamics: Dynamics<M>, task: TaskView<P>, run: RunView<M>, steps: nat)
    requires
        is_steady(dynamics),
        on_course(task, run),
        steps >= steps_left(task, run),
    ensures
        after_steps(dynamics, task, run, steps) == after_steps(
            dynamics,
            task,
            run,
            steps_left(task, run),
        ),
{
    let end = steps_left(task, run);
    lemma_steps_left(dynamics, task, run, end);
    law_stays_on_course(dynamics, task, run, end);
    lemma_finished_stays(
        dynamics,
        task,
        after_steps(dynamics, task, run, end),
        (steps - end) as nat,
    );
    law_portions(dynamics, task, run, end, (steps - end) as nat);
}

/// A task on its way that does more sweeps stays on its way, and one that does all that are left
/// ends where the task that was begun ends.
pub proof fn law_stays_on_the_way<M, P>(
    dynamics: Dynamics<M>,
    task: TaskView<P>,
    begun: RunView<M>,
    run: RunView<M>,
    steps: nat,
)
    requires
        is_steady(dynamics),
        on_course(task, begun),
        on_course(task, run),
        is_on_the_way(dynamics, task, begun, run),
    ensures
        is_on_the_way(dynamics, task, begun, after_steps(dynamics, task, run, steps)),
        steps == steps_left(task, run) ==> flagged(
            task,
            after_steps(dynamics, task, run, steps),
        ) == flagged(task, after_steps(dynamics, task, begun, steps_left(task, begun))),
{
    let done = choose|done: nat|
        flagged(task, run) == flagged(task, #[trigger] after_steps(dynamics, task, begun, done));
    let there = after_steps(dynamics, task, begun, done);
    law_stays_on_course(dynamics, task, begun, done);
    lemma_flag_does_not_matter(dynamics, task, run, steps);
    lemma_flag_does_not_matter(dynamics, task, there, steps);
    law_portions(dynamics, task, begun, done, steps);
    assert(flagged(task, after_steps(dynamics, task, run, steps)) == flagged(
        task,
        after_steps(dynamics, task, begun, done + steps),
    ));
    if steps == steps_left(task, run) {
        lemma_steps_left(dynamics, task, begun, done);
        assert(flagged(task, run).thermalization_sweeps == flagged(
            task,
            there,
        ).thermalization_sweeps);
        assert(steps_left(task, run) == steps_left(task, there));
        lemma_ends(dynamics, task, begun, done + steps);
    }
}

/// A task that is taken up where it was left is on its way, and on course.
pub proof fn law_taken_up_on_the_way<M, P>(
    dynamics: Dynamics<M>,
    task: TaskView<P>,
    runtime: TaskRuntime,
    begun: RunView<M>,
    before: RunView<M>,
    left: RunView<M>,
    resumed: RunView<M>,
)
    requires
        on_course(task, left),
        is_on_the_way(dynamics, task, begun, left),
        is_taken_up(task, runtime, before, left, resumed),
    ensures
        on_course(task, resumed),
        is_on_the_way(dynamics, task, begun, resumed),
{
    let done = choose|done: nat|
        flagged(task, left) == flagged(task, #[trigger] after_steps(dynamics, task, begun, done));
    assert(flagged(task, resumed).context =~= flagged(task, left).context);
    assert(flagged(task, resumed) == flagged(task, left));
    assert(flagged(task, resumed) == flagged(task, after_steps(dynamics, task, begun, done)));
}

proof fn lemma_enough<M, P>(go: Go<M, P>, count: nat)
    requires
        count <= go.tasks.len(),
        go.is_enough(),
    ensures
        go.needs(count) <= go.needs(go.tasks.len()),
        go.budget_before(count) == go.budget - go.needs(count),
    decreases count,
{
    lemma_needs_grow(go, count, go.tasks.len());
    if count > 0 {
        lemma_enough(go, (count - 1) as nat);
    }
}

proof fn lemma_needs_grow<M, P>(go: Go<M, P>, a: nat, b: nat)
    requires
        a <= b,
    ensures
        go.needs(a) <= go.needs(b),
    decreases b,
{
    if a < b {
        lemma_needs_grow(go, a, (b - 1) as nat);
    }
}

/// A go with enough budget does all sweeps of every task of its rank.
pub proof fn law_enough_finishes<M, P>(go: Go<M, P>, index: nat)
    requires
        go.valid(),
        go.is_enough(),
        index < go.tasks.len(),
        owns(go.assignment, index as int),
    ensures
        go.steps(index) == steps_left(go.tasks[index as int], go.runs[index as int]),
        steps_left(go.tasks[index as int], go.left_off(index)) == 0,
        go.result(index).completed,
{
    lemma_enough(go, index);
    lemma_enough(go, index + 1);
    lemma_needs_grow(go, index + 1, go.tasks.len());
    let task = go.tasks[index as int];
    let run = go.runs[index as int];
    assert(on_course(task, run));
    lemma_steps_left(go.dynamics, task, run, go.steps(index));
    law_stays_on_course(go.dynamics, task, run, go.steps(index));
}

/// A go with more budget than its tasks need never runs out of it, so that its run is not stopped
/// early.
pub proof fn law_budget_lasts<M, P>(go: Go<M, P>, index: nat)
    requires
        go.budget > go.needs(go.tasks.len()),
        index <= go.tasks.len(),
    ensures
        go.budget_before(index) > 0,
{
    lemma_enough(go, index);
}

/// The last go of a job, if its budget is enough, ends with the results of a single go from the
/// beginning: bit for bit the same estimates, counts and tasks, in the same order. Before it there
/// may have been any number of goes; every task only has to be on its way.
pub proof fn law_last_go<M, P>(full: Go<M, P>, last: Go<M, P>, count: nat)
    requires
        full.valid(),
        full.is_enough(),
        last.valid(),
        last.is_enough(),
        last.same_job(full),
        forall|i: int|
            0 <= i < full.tasks.len() ==> is_on_the_way(
                full.dynamics,
                #[trigger] full.tasks[i],
                full.runs[i],
                last.runs[i],
            ),
        count <= full.tasks.len(),
    ensures
        last.results(count) == full.results(count),
    decreases count,
{
    if count > 0 {
        let index = (count - 1) as nat;
        law_last_go(full, last, index);
        if owns(full.assignment, index as int) {
            law_enough_finishes(full, index);
            law_enough_finishes(last, index);
            let task = full.tasks[index as int];
            law_stays_on_the_way(
                full.dynamics,
                task,
                full.runs[index as int],
                last.runs[index as int],
                last.steps(index),
            );
            let a = last.left_off(index);
            let b = full.left_off(index);
            assert(flagged(task, a) == flagged(task, b));
            assert(flagged(task, a).model == flagged(task, b).model);
            assert(flagged(task, a).context.observables == flagged(task, b).context.observables);
            assert(flagged(task, a).thermalization_sweeps == flagged(
                task,
                b,
            ).thermalization_sweeps);
            assert(flagged(task, a).measurement_sweeps == flagged(task, b).measurement_sweeps);
        }
    }
}

/// After a go, whatever its budget, every task that is taken up where it was left is on its way.
pub proof fn law_go_stays_on_the_way<M, P>(
    begun: Seq<RunView<M>>,
    go: Go<M, P>,
    runtime: TaskRuntime,
    index: nat,
    resumed: RunView<M>,
)
    requires
        go.valid(),
        begun.len() == go.tasks.len(),
        index < go.tasks.len(),
        on_course(go.tasks[index as int], begun[index as int]),
        is_on_the_way(
            go.dynamics,
            go.tasks[index as int],
            begun[index as int],
            go.runs[index as int],
        ),
        is_taken_up(
            go.tasks[index as int],
            runtime,
            go.runs[index as int],
            go.left_off(index),
            resumed,
        ),
    ensures
        on_course(go.tasks[index as int], resumed),
        is_on_the_way(go.dynamics, go.tasks[index as int], begun[index as int], resumed),
{
    let task = go.tasks[index as int];
    let run = go.runs[index as int];
    assert(on_course(task, run));
    law_stays_on_the_way(go.dynamics, task, begun[index as int], run, go.steps(index));
    law_stays_on_course(go.dynamics, task, run, go.steps(index));
    law_taken_up_on_the_way(
        go.dynamics,
        task,
        runtime,
        begun[index as int],
        run,
        go.left_off(index),
        resumed,
    );
}

/// A job that is interrupted by a sweep limit and resumed ends with the results of a job without
/// interruption: `first` begins the tasks and stops when its budget is used up, `second` takes each
/// of them up where it was left, and `full` does all of them at once.
pub proof fn law_resumed_job<M, P>(
    full: Go<M, P>,
    first: Go<M, P>,
    second: Go<M, P>,
    runtimes: Seq<TaskRuntime>,
)
    requires
        full.valid(),
        full.is_enough(),
        first.same_job(full),
        first.runs == full.runs,
        second.same_job(full),
        second.runs.len() == full.tasks.len(),
        second.is_enough(),
        forall|i: int|
            0 <= i < full.tasks.len() ==> is_taken_up(
                full.tasks[i],
                runtimes[i],
                first.runs[i],
                first.left_off(i as nat),
                #[trigger] second.runs[i],
            ),
    ensures
        second.valid(),
        second.results(full.tasks.len()) == full.results(full.tasks.len()),
        forall|i: int|
            0 <= i < full.tasks.len() && #[trigger] owns(full.assignment, i) ==> second.result(
                i as nat,
            ).completed,
{
    let count = full.tasks.len();
    assert forall|i: int| 0 <= i < count implies on_course(
        #[trigger] full.tasks[i],
        second.runs[i],
    ) && is_on_the_way(full.dynamics, full.tasks[i], full.runs[i], second.runs[i]) by {
        let task = full.tasks[i];
        assert(on_course(first.tasks[i], first.runs[i]));
        assert(flagged(task, full.runs[i]) == flagged(
            task,
            after_steps(full.dynamics, task, full.runs[i], 0),
        ));
        assert forall|k: int| 0 <= k < first.tasks.len() implies on_course(
            #[trigger] first.tasks[k],
            first.runs[k],
        ) by {
            assert(on_course(full.tasks[k], full.runs[k]));
        }
        law_go_stays_on_the_way(full.runs, first, runtimes[i], i as nat, second.runs[i]);
    }
    law_last_go(full, second, count);
    assert forall|i: int| 0 <= i < count && #[trigger] owns(
        full.assignment,
        i,
    ) implies second.result(i as nat).completed by {
        law_enough_finishes(second, i as nat);
    }
}

/// A task that is asked for its next step again and again does exactly its share of the sweeps: it
/// is told to stop when it has done all that are left, or as many as the budget allows.
pub proof fn law_task_does_its_share<M, P>(
    dynamics: Dynamics<M>,
    task: TaskView<P>,
    run: RunView<M>,
    sweep_budget: usize,
    used: usize,
)
    requires
        is_steady(dynamics),
        on_course(task, run),
        used <= lesser(steps_left(task, run), sweep_budget as nat),
    ensures
        ({
            let now = after_steps(dynamics, task, run, used as nat);
            let step = step_after(
                task,
                now.thermalization_sweeps,
                now.measurement_sweeps,
                used,
                sweep_budget,
                true,
            );
            step is Stop <==> used == lesser(steps_left(task, run), sweep_budget as nat)
        }),
{
    lemma_steps_left(dynamics, task, run, used as nat);
    law_stays_on_course(dynamics, task, run, used as nat);
}

/// Whether a run of a job has done what a go does with the tasks in front of its cursor.
pub open spec fn follows<M, P>(run: JobRun<P>, go: Go<M, P>) -> bool {
    &&& run.plan.assignment == go.assignment
    &&& run.task_count == go.tasks.len()
    &&& run.cursor <= run.task_count
    &&& run.budget == go.budget_before(run.cursor as nat)
    &&& said(run.tasks@) == go.results(run.cursor as nat)
}

/// What task results say.
pub open spec fn said<P>(results: Seq<TaskResult<P>>) -> Seq<TaskResultView<P>> {
    results.map_values(|r: TaskResult<P>| r@)
}

proof fn lemma_passed_over<M, P>(go: Go<M, P>, a: nat, b: nat)
    requires
        a <= b,
        forall|i: int| a <= i < b ==> !#[trigger] owns(go.assignment, i),
    ensures
        go.results(b) == go.results(a),
        go.budget_before(b) == go.budget_before(a),
    decreases b,
{
    if a < b {
        lemma_passed_over(go, a, (b - 1) as nat);
        assert(!owns(go.assignment, b - 1));
    }
}

/// A run of a job that starts has done nothing yet.
pub proof fn law_run_begins<M, P>(go: Go<M, P>, run: JobRun<P>)
    requires
        run.plan.assignment == go.assignment,
        run.task_count == go.tasks.len(),
        run.budget == go.budget,
        run.cursor == 0,
        run.tasks@.len() == 0,
    ensures
        follows(run, go),
{
    assert(said(run.tasks@) =~= Seq::empty());
}

/// A static run of a job does what a go does: with every task that it is told to run and whose
/// result it records, it has done one more. `index` is what [`JobRun::next_action`] tells it, and
/// `before` and `after` are the run before that and after [`JobRun::record`] took in the result of
/// the task.
pub proof fn law_run_follows_go<M, P>(
    go: Go<M, P>,
    before: JobRun<P>,
    index: usize,
    result: TaskResult<P>,
    used: usize,
    after: JobRun<P>,
)
    requires
        follows(before, go),
        is_next_owned(
            go.assignment,
            before.cursor as int,
            before.task_count as int,
            index as int,
        ),
        result@ == go.result(index as nat),
        used == go.steps(index as nat),
        after.plan == before.plan,
        after.task_count == before.task_count,
        after.cursor == index + 1,
        after.budget == if used <= before.budget {
            before.budget - used
        } else {
            0
        },
        after.tasks@ == before.tasks@.push(result),
        after.stopped == !result.completed,
    ensures
        follows(after, go),
        after.stopped == !go.result(index as nat).completed,
{
    lemma_passed_over(go, before.cursor as nat, index as nat);
    assert(said(after.tasks@) =~= said(before.tasks@).push(result@));
}

/// A static run that is told to finish with budget left has the results of its go.
pub proof fn law_finished_run_has_results<M, P>(go: Go<M, P>, run: JobRun<P>)
    requires
        follows(run, go),
        forall|i: int| run.cursor <= i < run.task_count ==> !#[trigger] owns(go.assignment, i),
    ensures
        said(run.tasks@) == go.results(go.tasks.len()),
{
    lemma_passed_over(go, run.cursor as nat, go.tasks.len());
}

proof fn lemma_task_course<M: MonteCarlo, P>(
    dynamics: Dynamics<M>,
    task: TaskView<P>,
    sweep_budget: usize,
    course: Course<M>,
    count: nat,
)
    requires
        is_steady(dynamics),
        on_course(task, seen(course.runs[0])),
        course.valid(task, sweep_budget),
        course.obeys(dynamics),
        course.was_in_time(),
        count <= course.actions.len(),
    ensures
        ({
            let begun = seen(course.runs[0]);
            let run = course.runs[count as int];
            let share = lesser(steps_left(task, begun), sweep_budget as nat);
            &&& run.used <= share
            &&& seen(run) == after_steps(dynamics, task, begun, run.used as nat)
            &&& count > 0 && is_closing(course.actions[count - 1]) ==> run.used == share
        }),
    decreases count,
{
    if count > 0 {
        let index = count - 1;
        lemma_task_course(dynamics, task, sweep_budget, course, index as nat);
        let begun = seen(course.runs[0]);
        let run = course.runs[index];
        assert(course.is_taken(task, sweep_budget, index));
        assert(course.is_moved(dynamics, index));
        assert(course.in_time[index]);
        lemma_steps_left(dynamics, task, begun, run.used as nat);
        law_stays_on_course(dynamics, task, begun, run.used as nat);
    }
}

/// A task that goes through its course does its share of the sweeps: all that are left, or as many
/// as the budget allows. It ends where so many steps lead.
pub proof fn law_task_course<M: MonteCarlo, P>(
    dynamics: Dynamics<M>,
    task: TaskView<P>,
    sweep_budget: usize,
    course: Course<M>,
)
    requires
        is_steady(dynamics),
        on_course(task, seen(course.runs[0])),
        course.valid(task, sweep_budget),
        course.obeys(dynamics),
        course.was_in_time(),
        course.is_finished(),
    ensures
        course.end().used == lesser(
            steps_left(task, seen(course.runs[0])),
            sweep_budget as nat,
        ),
        seen(course.end()) == after_steps(
            dynamics,
            task,
            seen(course.runs[0]),
            course.end().used as nat,
        ),
{
    lemma_task_course(dynamics, task, sweep_budget, course, course.actions.len());
}

/// A static run of a job from its start to its end, one task after the other.
#[verifier::reject_recursive_types(M)]
pub struct JobCourse<M: MonteCarlo> {
    /// The run before each task and behind the last.
    pub states: Seq<JobRun<M::Parameters>>,
    /// The run when it knows which task comes next.
    pub chosen: Seq<JobRun<M::Parameters>>,
    /// Which tasks were run.
    pub indices: Seq<usize>,
    pub courses: Seq<Course<M>>,
    pub results: Seq<TaskResult<M::Parameters>>,
    pub checkpoints: Seq<Option<String>>,
    /// How much time had passed before each task and at the end.
    pub elapsed: Seq<u128>,
    /// The run at its end.
    pub end: JobRun<M::Parameters>,
}

impl<M: MonteCarlo> JobCourse<M> {
    /// Whether the run went through a task: it was told to run it by [`JobRun::next_action`], the
    /// task went through its course, and [`JobRun::record`] took its result in.
    pub open spec fn goes_through(self, go: Go<M, M::Parameters>, k: int) -> bool {
        let index = self.indices[k];
        let task = go.tasks[index as int];
        let course = self.courses[k];
        let end = course.end();
        &&& !self.states[k].stopped
        &&& self.states[k].chooses(self.elapsed[k], RunAction::Run(index), self.chosen[k])
        &&& seen(course.runs[0]) == go.runs[index as int]
        &&& course.valid(task, self.chosen[k].budget)
        &&& course.obeys(go.dynamics)
        &&& course.was_in_time()
        &&& course.is_finished()
        &&& self.results[k]@ == run_result(
            task,
            index,
            end.thermalization_sweeps,
            end.measurement_sweeps,
            (go.estimates)(end.model, end.context@.observables),
        )
        &&& self.chosen[k].takes_in(
            self.results[k],
            end.used,
            self.checkpoints[k],
            self.states[k + 1],
        )
    }

    /// Whether a static run without a deadline goes over the tasks that a go is about.
    pub open spec fn valid(self, go: Go<M, M::Parameters>, plan: RunPlan) -> bool {
        &&& plan.scheduling == Scheduling::Static
        &&& forall|elapsed: u128| #[trigger] plan.within(elapsed)
        &&& self.goes_by(go, plan)
    }

    /// Whether a run goes over the tasks that a go is about by its plan: it starts, goes through one
    /// task after the other, and ends with a task that is not complete or when it is told to finish.
    pub open spec fn goes_by(self, go: Go<M, M::Parameters>, plan: RunPlan) -> bool {
        let count = self.indices.len();
        &&& plan.assignment == go.assignment
        &&& plan.sweep_limit == go.budget
        &&& self.states.len() == count + 1
        &&& self.chosen.len() == count
        &&& self.courses.len() == count
        &&& self.results.len() == count
        &&& self.checkpoints.len() == count
        &&& self.elapsed.len() == count + 1
        &&& self.states[0].is_begun(plan, go.tasks.len() as usize)
        &&& forall|k: int| 0 <= k < count ==> #[trigger] self.goes_through(go, k)
        &&& if self.states[count as int].stopped {
            self.end == self.states[count as int]
        } else {
            self.states[count as int].chooses(
                self.elapsed[count as int],
                RunAction::Finish,
                self.end,
            )
        }
    }

    /// Whether a task that the run went through is left where a go leaves it.
    pub open spec fn leaves_off(self, go: Go<M, M::Parameters>, k: int) -> bool {
        &&& self.indices[k] < go.tasks.len()
        &&& seen(self.courses[k].end()) == go.left_off(self.indices[k] as nat)
    }

    /// Whether the run went through a task.
    pub open spec fn touched(self, index: int) -> bool {
        exists|k: int| 0 <= k < self.indices.len() && #[trigger] self.indices[k] == index
    }
}

/// What holds of a run behind some of its tasks.
spec fn keeps_pace<M: MonteCarlo>(
    go: Go<M, M::Parameters>,
    plan: RunPlan,
    run: JobCourse<M>,
    k: int,
) -> bool {
    let state = run.states[k];
    &&& follows(state, go)
    &&& state.plan == plan
    &&& state.stopped ==> {
        &&& state.budget == 0
        &&& k > 0
        &&& !go.result(run.indices[k - 1] as nat).completed
    }
}

proof fn lemma_goes_through<M: MonteCarlo>(
    go: Go<M, M::Parameters>,
    plan: RunPlan,
    run: JobCourse<M>,
    k: int,
)
    requires
        go.valid(),
        run.valid(go, plan),
        0 <= k < run.indices.len(),
        keeps_pace(go, plan, run, k),
    ensures
        keeps_pace(go, plan, run, k + 1),
        is_next_owned(
            go.assignment,
            run.states[k].cursor as int,
            go.tasks.len() as int,
            run.indices[k] as int,
        ),
        run.states[k + 1].cursor == run.indices[k] + 1,
        seen(run.courses[k].end()) == go.left_off(run.indices[k] as nat),
{
    assert(run.goes_through(go, k));
    assert(plan.within(run.elapsed[k]));
    let before = run.states[k];
    let index = run.indices[k];
    let task = go.tasks[index as int];
    let course = run.courses[k];
    let budget = run.chosen[k].budget;
    lemma_passed_over(go, before.cursor as nat, index as nat);
    assert(on_course(task, go.runs[index as int]));
    law_task_course(go.dynamics, task, budget, course);
    law_run_follows_go(
        go,
        before,
        index,
        run.results[k],
        course.end().used,
        run.states[k + 1],
    );
    lemma_steps_left(go.dynamics, task, go.runs[index as int], course.end().used as nat);
    law_stays_on_course(go.dynamics, task, go.runs[index as int], course.end().used as nat);
}

proof fn lemma_keeps_pace<M: MonteCarlo>(
    go: Go<M, M::Parameters>,
    plan: RunPlan,
    run: JobCourse<M>,
    k: int,
)
    requires
        go.valid(),
        run.valid(go, plan),
        0 <= k <= run.indices.len(),
    ensures
        keeps_pace(go, plan, run, k),
    decreases k,
{
    if k == 0 {
        law_run_begins(go, run.states[0]);
    } else {
        lemma_keeps_pace(go, plan, run, k - 1);
        lemma_goes_through(go, plan, run, k - 1);
    }
}

/// A run of a job with more budget than its tasks need is not stopped early and ends with the
/// results of its go.
pub proof fn law_run_of_job<M: MonteCarlo>(
    go: Go<M, M::Parameters>,
    plan: RunPlan,
    run: JobCourse<M>,
)
    requires
        go.valid(),
        run.valid(go, plan),
        go.budget > go.needs(go.tasks.len()),
    ensures
        !run.end.stopped,
        run.end.plan == plan,
        said(run.end.tasks@) == go.results(go.tasks.len()),
{
    let count = run.indices.len() as int;
    lemma_keeps_pace(go, plan, run, count);
    let state = run.states[count];
    law_budget_lasts(go, state.cursor as nat);
    assert(plan.within(run.elapsed[count]));
    law_finished_run_has_results(go, state);
}

proof fn lemma_touched<M: MonteCarlo>(
    go: Go<M, M::Parameters>,
    plan: RunPlan,
    run: JobCourse<M>,
    k: int,
    index: int,
)
    requires
        go.valid(),
        run.valid(go, plan),
        0 <= k <= run.indices.len(),
        0 <= index < run.states[k].cursor,
        owns(go.assignment, index),
    ensures
        run.touched(index),
    decreases k,
{
    if k > 0 {
        lemma_keeps_pace(go, plan, run, k - 1);
        lemma_goes_through(go, plan, run, k - 1);
        if index < run.states[k - 1].cursor {
            lemma_touched(go, plan, run, k - 1, index);
        } else {
            assert(run.indices[k - 1] == index);
        }
    }
}

proof fn lemma_budget_shrinks<M, P>(go: Go<M, P>, a: nat, b: nat)
    requires
        a <= b,
    ensures
        go.budget_before(b) <= go.budget_before(a),
    decreases b,
{
    if a < b {
        lemma_budget_shrinks(go, a, (b - 1) as nat);
    }
}

/// Whatever its budget, a run of a job leaves every task where its go leaves it: a task that it
/// went through at the end of its course, any other one as it stood.
pub proof fn law_run_leaves_tasks<M: MonteCarlo>(
    go: Go<M, M::Parameters>,
    plan: RunPlan,
    run: JobCourse<M>,
)
    requires
        go.valid(),
        run.valid(go, plan),
    ensures
        forall|k: int| 0 <= k < run.indices.len() ==> #[trigger] run.leaves_off(go, k),
        forall|i: int|
            0 <= i < go.tasks.len() && !run.touched(i) ==> go.left_off(i as nat)
                == #[trigger] go.runs[i],
{
    let count = run.indices.len() as int;
    assert forall|k: int| 0 <= k < count implies #[trigger] run.leaves_off(go, k) by {
        lemma_keeps_pace(go, plan, run, k);
        lemma_goes_through(go, plan, run, k);
    }
    lemma_keeps_pace(go, plan, run, count);
    assert(plan.within(run.elapsed[count]));
    let state = run.states[count];
    assert forall|i: int| 0 <= i < go.tasks.len() && !run.touched(i) implies go.left_off(i as nat)
        == #[trigger] go.runs[i] by {
        if owns(go.assignment, i) {
            if i < state.cursor {
                lemma_touched(go, plan, run, count, i);
            }
            lemma_budget_shrinks(go, state.cursor as nat, i as nat);
        }
        assert(go.steps(i as nat) == 0);
    }
}

/// A run of a job that is interrupted by a sweep limit, and a run after it that takes the tasks up
/// where the first one left them, end as a run without interruption: with the same results, bit for
/// bit, and not stopped early.
///
/// `full` goes over the tasks from the beginning without interruption. `first` does so too, until
/// its budget is used up. `second` takes each task that `first` went through up from the state that
/// was saved of it at the end of its course, and every other task from the beginning.
/// `uninterrupted` and `resumed` are what `full` and `second` leave behind.
pub proof fn law_resumed_run_of_job<M: MonteCarlo>(
    full_go: Go<M, M::Parameters>,
    first_go: Go<M, M::Parameters>,
    second_go: Go<M, M::Parameters>,
    plans: (RunPlan, RunPlan, RunPlan),
    full: JobCourse<M>,
    first: JobCourse<M>,
    second: JobCourse<M>,
    runtimes: Seq<TaskRuntime>,
    job_name: Seq<char>,
    uninterrupted: RunResult<M::Parameters>,
    resumed: RunResult<M::Parameters>,
)
    requires
        full.end.leaves(job_name, uninterrupted.output_path, uninterrupted),
        second.end.leaves(job_name, resumed.output_path, resumed),
        full_go.valid(),
        full_go.budget > full_go.needs(full_go.tasks.len()),
        full.valid(full_go, plans.0),
        first_go.same_job(full_go),
        first_go.runs == full_go.runs,
        first.valid(first_go, plans.1),
        second_go.same_job(full_go),
        second_go.runs.len() == full_go.tasks.len(),
        second_go.budget > second_go.needs(full_go.tasks.len()),
        second.valid(second_go, plans.2),
        forall|k: int|
            0 <= k < first.indices.len() ==> ({
                let index = (#[trigger] first.indices[k]) as int;
                second_go.runs[index] == taken_up(
                    full_go.tasks[index],
                    runtimes[index],
                    seen(first.courses[k].end()),
                )
            }),
        forall|i: int|
            0 <= i < full_go.tasks.len() && !first.touched(i) ==> #[trigger] second_go.runs[i]
                == full_go.runs[i],
    ensures
        !resumed.stopped_early,
        !uninterrupted.stopped_early,
        resumed.result.job_name@ == uninterrupted.result.job_name@,
        resumed.result.rank == uninterrupted.result.rank,
        resumed.result.world_size == uninterrupted.result.world_size,
        said(resumed.result.tasks@) == said(uninterrupted.result.tasks@),
{
    assert forall|i: int| 0 <= i < first_go.tasks.len() implies on_course(
        #[trigger] first_go.tasks[i],
        first_go.runs[i],
    ) by {
        assert(on_course(full_go.tasks[i], full_go.runs[i]));
    }
    law_run_leaves_tasks(first_go, plans.1, first);
    assert forall|i: int| 0 <= i < full_go.tasks.len() implies is_taken_up(
        full_go.tasks[i],
        runtimes[i],
        first_go.runs[i],
        first_go.left_off(i as nat),
        #[trigger] second_go.runs[i],
    ) by {
        if first.touched(i) {
            let k = choose|k: int|
                0 <= k < first.indices.len() && #[trigger] first.indices[k] == i;
            assert(first.leaves_off(first_go, k));
        } else {
            assert(first_go.left_off(i as nat) == first_go.runs[i]);
        }
    }
    law_resumed_job(full_go, first_go, second_go, runtimes);
    law_run_of_job(full_go, plans.0, full);
    law_run_of_job(second_go, plans.2, second);
}

/// A job that a static runner without a deadline runs with a sweep limit, and runs once more with
/// options that say that it resumes, ends as the job that it runs without interruption: with the
/// same results, bit for bit, and not stopped early.
///
/// The plans of the three runs come from their options. A task that the first run went through was
/// saved at its end if its plan says that a checkpoint is due there. The last run takes such a task
/// up from its checkpoint if its plan says that checkpoints are restored, and begins any other task.
pub proof fn law_resumed_options<M: MonteCarlo>(
    runner: Runner<M>,
    options: (RunOptions, RunOptions, RunOptions),
    plans: (RunPlan, RunPlan, RunPlan),
    full_go: Go<M, M::Parameters>,
    first_go: Go<M, M::Parameters>,
    second_go: Go<M, M::Parameters>,
    full: JobCourse<M>,
    first: JobCourse<M>,
    second: JobCourse<M>,
    runtimes: Seq<TaskRuntime>,
    saved: Seq<bool>,
    since: Seq<u128>,
    job_name: Seq<char>,
    uninterrupted: RunResult<M::Parameters>,
    resumed: RunResult<M::Parameters>,
)
    requires
        runner.scheduling == Scheduling::Static,
        runner.duration_config.deadline is None,
        options.0.deadline is None && options.1.deadline is None && options.2.deadline is None,
        options.0.assignment == options.1.assignment,
        options.0.assignment == options.2.assignment,
        options.0.sweep_limit is None,
        options.1.sweep_limit is Some,
        options.2.sweep_limit is None,
        options.2.resume,
        call_ensures(Runner::<M>::plan, (&runner, &options.0), plans.0),
        call_ensures(Runner::<M>::plan, (&runner, &options.1), plans.1),
        call_ensures(Runner::<M>::plan, (&runner, &options.2), plans.2),
        full_go.valid(),
        full_go.needs(full_go.tasks.len()) < usize::MAX,
        full.goes_by(full_go, plans.0),
        first_go.same_job(full_go),
        first_go.runs == full_go.runs,
        first.goes_by(first_go, plans.1),
        second_go.same_job(full_go),
        second_go.runs.len() == full_go.tasks.len(),
        second_go.needs(full_go.tasks.len()) < usize::MAX,
        second.goes_by(second_go, plans.2),
        saved.len() == first.indices.len(),
        forall|k: int|
            0 <= k < first.indices.len() ==> call_ensures(
                RunPlan::checkpoint_due,
                (&plans.1, first.courses[k].end().used, true, since[k]),
                #[trigger] saved[k],
            ),
        forall|k: int|
            0 <= k < first.indices.len() ==> ({
                let index = (#[trigger] first.indices[k]) as int;
                second_go.runs[index] == if plans.2.restore_checkpoint && saved[k] {
                    taken_up(
                        full_go.tasks[index],
                        runtimes[index],
                        seen(first.courses[k].end()),
                    )
                } else {
                    full_go.runs[index]
                }
            }),
        forall|i: int|
            0 <= i < full_go.tasks.len() && !first.touched(i) ==> #[trigger] second_go.runs[i]
                == full_go.runs[i],
        full.end.leaves(job_name, uninterrupted.output_path, uninterrupted),
        second.end.leaves(job_name, resumed.output_path, resumed),
    ensures
        !resumed.stopped_early,
        !uninterrupted.stopped_early,
        resumed.result.job_name@ == uninterrupted.result.job_name@,
        resumed.result.rank == uninterrupted.result.rank,
        resumed.result.world_size == uninterrupted.result.world_size,
        said(resumed.result.tasks@) == said(uninterrupted.result.tasks@),
{
    law_resuming_runs_restore(runner, options.2, plans.2);
    assert forall|k: int| 0 <= k < first.indices.len() implies ({
        let index = (#[trigger] first.indices[k]) as int;
        second_go.runs[index] == taken_up(
            full_go.tasks[index],
            runtimes[index],
            seen(first.courses[k].end()),
        )
    }) by {
        law_checkpoint_at_the_end(plans.1, first.courses[k].end().used, since[k], saved[k]);
    }
    law_resumed_run_of_job(
        full_go,
        first_go,
        second_go,
        plans,
        full,
        first,
        second,
        runtimes,
        job_name,
        uninterrupted,
        resumed,
    );
}

/// The results of a go are those of the tasks of its rank, each with the index and the settings of
/// its task, complete if the go had enough budget, and none else.
pub proof fn law_results_of_a_go<M, P>(go: Go<M, P>, count: nat, k: int)
    requires
        go.valid(),
        go.is_enough(),
        count <= go.tasks.len(),
        0 <= k < go.results(count).len(),
    ensures
        ({
            let t = go.results(count)[k];
            &&& t.task_index < count
            &&& t.task_index as int % go.assignment.world_size as int == go.assignment.rank
            &&& t.completed
            &&& t.task == go.tasks[t.task_index as int]
            &&& t.thermalization_sweeps == t.task.thermalization
            &&& t.measurement_sweeps == t.task.sweeps
        }),
    decreases count,
{
    if count > 0 {
        let index = (count - 1) as nat;
        if owns(go.assignment, index as int) {
            if k < go.results(index).len() {
                law_results_of_a_go(go, index, k);
            } else {
                law_enough_finishes(go, index);
            }
        } else {
            law_results_of_a_go(go, index, k);
        }
    }
}

} // verus!
