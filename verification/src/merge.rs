//! Merging: how the results of all ranks become the result of the job.

use crate::assignment::{JobAssignment, Scheduling};
use crate::error::GenericJobError;
#[allow(unused_imports)]
use crate::error::is_schema_error;
#[allow(unused_imports)]
use crate::faults::{first_fault, lemma_first_fault, lemma_no_fault};
use crate::model::{Job, MonteCarlo, Task};
#[allow(unused_imports)]
use crate::model::{owns, tasks_agree};
use crate::results::{validate_result_schema, JobResult, TaskResult};
#[allow(unused_imports)]
use crate::results::result_fault;
use vstd::prelude::*;
#[allow(unused_imports)]
use vstd::std_specs::cmp::PartialEqSpec;

verus! {

/// Whether a task result may join a merge: completed, with an index of the job, under the right
/// rank, and with the counts of its own task.
pub open spec fn is_placed<P>(
    t: TaskResult<P>,
    task_count: nat,
    assignment: JobAssignment,
    scheduling: Scheduling,
) -> bool {
    &&& t.completed
    &&& t.task_index < task_count
    &&& scheduling == Scheduling::Static ==> owns(assignment, t.task_index as int)
    &&& t.thermalization_sweeps == t.task.thermalization
    &&& t.measurement_sweeps == t.task.sweeps
}

/// Whether a task result may join a merge and is for the task of the job at its index.
pub open spec fn is_accepted<P: PartialEq>(
    t: TaskResult<P>,
    tasks: Seq<Task<P>>,
    assignment: JobAssignment,
    scheduling: Scheduling,
) -> bool {
    &&& is_placed(t, tasks.len(), assignment, scheduling)
    &&& tasks_agree(t.task@, tasks[t.task_index as int]@)
}

/// Whether the task of a task result has the settings of the job's task at its index.
pub open spec fn has_settings_of<P>(t: TaskResult<P>, tasks: Seq<Task<P>>) -> bool {
    let task = tasks[t.task_index as int];
    &&& t.task.name@ == task.name@
    &&& t.task.sweeps == task.sweeps
    &&& t.task.thermalization == task.thermalization
    &&& t.task.binsize == task.binsize
    &&& t.task.seed == task.seed
}

/// Whether all task results of a part have the settings of the job's tasks.
pub open spec fn all_have_settings_of<P>(results: Seq<TaskResult<P>>, tasks: Seq<Task<P>>) -> bool {
    forall|k: int| 0 <= k < results.len() ==> has_settings_of(#[trigger] results[k], tasks)
}

/// Whether some task result has an index.
pub open spec fn has_index<P>(results: Seq<TaskResult<P>>, index: int) -> bool {
    exists|k: int| 0 <= k < results.len() && (#[trigger] results[k]).task_index == index
}

/// Whether some part has a task result with an index.
pub open spec fn index_used<P>(parts: Seq<JobResult<P>>, index: int) -> bool {
    exists|p: int| 0 <= p < parts.len() && has_index((#[trigger] parts[p]).tasks@, index)
}

/// Whether some part has a rank.
pub open spec fn rank_used<P>(parts: Seq<JobResult<P>>, rank: int) -> bool {
    exists|p: int| 0 <= p < parts.len() && (#[trigger] parts[p]).rank == rank
}

/// Whether no index stands on two task results.
pub open spec fn distinct_indices<P>(results: Seq<TaskResult<P>>) -> bool {
    forall|i: int, j: int|
        0 <= i < j < results.len() ==> (#[trigger] results[i]).task_index != (
        #[trigger] results[j]).task_index
}

/// What is wrong with a merge.
pub enum MergeFault {
    NoParts,
    RanksMissing,
    Invalid(Seq<char>),
    Mismatch,
    Task,
    Incomplete,
}

/// Whether an error reports a fault of a merge.
pub open spec fn reports(error: GenericJobError, fault: MergeFault) -> bool {
    match fault {
        MergeFault::NoParts => error matches GenericJobError::Merge(r) && r@ == "no rank results"@,
        MergeFault::RanksMissing => error matches GenericJobError::Merge(r) && r@
            == "rank set incomplete"@,
        MergeFault::Invalid(reason) => is_schema_error(error, "<in-memory-result>"@, reason),
        MergeFault::Mismatch => error matches GenericJobError::Merge(r) && r@
            == "job/world/rank mismatch"@,
        MergeFault::Task => error matches GenericJobError::Merge(r) && r@
            == "task mismatch, wrong rank, wrong counts, duplicate, or incomplete"@,
        MergeFault::Incomplete => error matches GenericJobError::Merge(r) && r@
            == "rank or task set incomplete"@,
    }
}

/// Whether the task results of a part may join a merge behind the earlier parts.
pub open spec fn tasks_join<P: PartialEq>(
    earlier: Seq<JobResult<P>>,
    part: JobResult<P>,
    tasks: Seq<Task<P>>,
    scheduling: Scheduling,
) -> bool {
    &&& distinct_indices(part.tasks@)
    &&& forall|k: int|
        0 <= k < part.tasks@.len() ==> is_accepted(
            #[trigger] part.tasks@[k],
            tasks,
            JobAssignment { rank: part.rank, world_size: part.world_size },
            scheduling,
        ) && !index_used(earlier, part.tasks@[k].task_index as int)
}

/// The fault of a part that joins a merge behind the earlier parts, if it has one.
pub open spec fn part_fault<P: PartialEq>(
    job_name: Seq<char>,
    tasks: Seq<Task<P>>,
    world: usize,
    earlier: Seq<JobResult<P>>,
    part: JobResult<P>,
    scheduling: Scheduling,
) -> Option<MergeFault> {
    if result_fault(part) is Some {
        Some(MergeFault::Invalid(result_fault(part)->0))
    } else if part.job_name@ != job_name || part.world_size != world || rank_used(
        earlier,
        part.rank as int,
    ) {
        Some(MergeFault::Mismatch)
    } else if !tasks_join(earlier, part, tasks, scheduling) {
        Some(MergeFault::Task)
    } else {
        None
    }
}

/// The faults of the parts of a merge, each seen together with the parts before it.
pub open spec fn part_faults<P: PartialEq>(
    job_name: Seq<char>,
    tasks: Seq<Task<P>>,
    world: usize,
    parts: Seq<JobResult<P>>,
    scheduling: Scheduling,
) -> Seq<Option<MergeFault>> {
    Seq::new(
        parts.len(),
        |i: int| part_fault(job_name, tasks, world, parts.take(i), parts[i], scheduling),
    )
}

/// The first fault among the parts of a merge, if there is one.
pub open spec fn parts_fault<P: PartialEq>(
    job_name: Seq<char>,
    tasks: Seq<Task<P>>,
    world: usize,
    parts: Seq<JobResult<P>>,
    scheduling: Scheduling,
) -> Option<MergeFault> {
    first_fault(part_faults(job_name, tasks, world, parts, scheduling))
}

/// Whether the parts cover all ranks and all tasks.
pub open spec fn covers_all<P>(parts: Seq<JobResult<P>>, world: nat, task_count: nat) -> bool {
    &&& forall|r: int| 0 <= r < world ==> #[trigger] rank_used(parts, r)
    &&& forall|i: int| 0 <= i < task_count ==> #[trigger] index_used(parts, i)
}

/// What is wrong with a merge, if anything is.
pub open spec fn merge_fault<P: PartialEq>(
    job_name: Seq<char>,
    tasks: Seq<Task<P>>,
    parts: Seq<JobResult<P>>,
    scheduling: Scheduling,
) -> Option<MergeFault> {
    if parts.len() == 0 {
        Some(MergeFault::NoParts)
    } else if parts[0].world_size == 0 || parts.len() != parts[0].world_size {
        Some(MergeFault::RanksMissing)
    } else {
        match parts_fault(job_name, tasks, parts[0].world_size, parts, scheduling) {
            Some(fault) => Some(fault),
            None => if covers_all(parts, parts.len(), tasks.len()) {
                None
            } else {
                Some(MergeFault::Incomplete)
            },
        }
    }
}

/// Whether a result is the merge of parts: all task results, in the order of their indices.
pub open spec fn is_merge<P>(
    merged: JobResult<P>,
    job_name: Seq<char>,
    task_count: nat,
    parts: Seq<JobResult<P>>,
) -> bool {
    &&& merged.job_name@ == job_name
    &&& merged.rank == 0
    &&& merged.world_size == parts.len()
    &&& merged.tasks@.len() == task_count
    &&& forall|i: int|
        0 <= i < task_count ==> (#[trigger] merged.tasks@[i]).task_index == i && exists|p: int, k: int|
            0 <= p < parts.len() && 0 <= k < parts[p].tasks@.len() && merged.tasks@[i]
                == #[trigger] parts[p].tasks@[k]
}

/// Checks one task result and marks its index as seen.
fn join_task<P: PartialEq>(
    t: &TaskResult<P>,
    tasks: &Vec<Task<P>>,
    assignment: JobAssignment,
    scheduling: Scheduling,
    seen: &mut Vec<bool>,
) -> (joined: bool)
    requires
        old(seen)@.len() == tasks@.len(),
        assignment.world_size > 0,
    ensures
        final(seen)@.len() == tasks@.len(),
        joined ==> is_placed(*t, tasks@.len(), assignment, scheduling) && !old(
            seen,
        )@[t.task_index as int] && final(seen)@ == old(seen)@.update(t.task_index as int, true),
        joined ==> has_settings_of(*t, tasks@),
        P::obeys_eq_spec() ==> (joined <==> is_accepted(*t, tasks@, assignment, scheduling) && !old(
            seen,
        )@[t.task_index as int]),
{
    if !t.completed || t.task_index >= tasks.len() || (scheduling == Scheduling::Static
        && t.task_index % assignment.world_size != assignment.rank) || !(t.task
        == tasks[t.task_index]) || t.thermalization_sweeps != t.task.thermalization
        || t.measurement_sweeps != t.task.sweeps || seen[t.task_index] {
        return false;
    }
    seen.set(t.task_index, true);
    true
}

/// Checks the task results of a part and marks their indices as seen.
fn join_tasks<P: PartialEq>(
    part: &JobResult<P>,
    tasks: &Vec<Task<P>>,
    scheduling: Scheduling,
    seen: &mut Vec<bool>,
) -> (joined: bool)
    requires
        old(seen)@.len() == tasks@.len(),
        part.world_size > 0,
    ensures
        final(seen)@.len() == tasks@.len(),
        joined ==> all_have_settings_of(part.tasks@, tasks@),
        joined ==> {
            &&& distinct_indices(part.tasks@)
            &&& forall|k: int|
                0 <= k < part.tasks@.len() ==> is_placed(
                    #[trigger] part.tasks@[k],
                    tasks@.len(),
                    JobAssignment { rank: part.rank, world_size: part.world_size },
                    scheduling,
                ) && !old(seen)@[part.tasks@[k].task_index as int]
            &&& forall|i: int|
                0 <= i < tasks@.len() ==> #[trigger] final(seen)@[i] == (old(seen)@[i] || has_index(
                    part.tasks@,
                    i,
                ))
        },
        P::obeys_eq_spec() ==> (joined <==> distinct_indices(part.tasks@) && forall|k: int|
            0 <= k < part.tasks@.len() ==> is_accepted(
                #[trigger] part.tasks@[k],
                tasks@,
                JobAssignment { rank: part.rank, world_size: part.world_size },
                scheduling,
            ) && !old(seen)@[part.tasks@[k].task_index as int]),
{
    let assignment = JobAssignment { rank: part.rank, world_size: part.world_size };
    let ghost start = seen@;
    let ghost results = part.tasks@;
    let mut index: usize = 0;
    while index < part.tasks.len()
        invariant
            index <= part.tasks.len(),
            results == part.tasks@,
            start == old(seen)@,
            start.len() == tasks@.len(),
            seen@.len() == tasks@.len(),
            assignment == (JobAssignment { rank: part.rank, world_size: part.world_size }),
            part.world_size > 0,
            forall|i: int, j: int|
                0 <= i < j < index ==> (#[trigger] results[i]).task_index != (
                #[trigger] results[j]).task_index,
            forall|k: int|
                0 <= k < index ==> is_placed(
                    #[trigger] results[k],
                    tasks@.len(),
                    assignment,
                    scheduling,
                ) && !start[results[k].task_index as int],
            forall|k: int| 0 <= k < index ==> has_settings_of(#[trigger] results[k], tasks@),
            P::obeys_eq_spec() ==> forall|k: int|
                0 <= k < index ==> is_accepted(
                    #[trigger] results[k],
                    tasks@,
                    assignment,
                    scheduling,
                ),
            forall|i: int|
                0 <= i < tasks@.len() ==> #[trigger] seen@[i] == (start[i] || has_index(
                    results.take(index as int),
                    i,
                )),
        decreases part.tasks.len() - index,
    {
        let ghost before = seen@;
        let ghost taken = results.take(index as int);
        let ghost t = results[index as int];
        if !join_task(&part.tasks[index], tasks, assignment, scheduling, seen) {
            proof {
                if P::obeys_eq_spec() && is_accepted(t, tasks@, assignment, scheduling)
                    && !start[t.task_index as int] {
                    assert(before[t.task_index as int]);
                    assert(has_index(taken, t.task_index as int));
                    let k = choose|k: int|
                        0 <= k < taken.len() && (#[trigger] taken[k]).task_index == t.task_index;
                    assert(results[k].task_index == results[index as int].task_index);
                }
            }
            return false;
        }
        proof {
            let more = results.take(index + 1);
            assert forall|i: int, j: int| 0 <= i < j < index + 1 implies (
            #[trigger] results[i]).task_index != (#[trigger] results[j]).task_index by {
                if j == index {
                    assert(taken[i] == results[i]);
                    if results[i].task_index == results[j].task_index {
                        assert(has_index(taken, t.task_index as int));
                    }
                }
            }
            assert forall|k: int| 0 <= k < index + 1 implies is_placed(
                #[trigger] results[k],
                tasks@.len(),
                assignment,
                scheduling,
            ) && !start[results[k].task_index as int] by {
                if k == index {
                    assert(before[t.task_index as int] == (start[t.task_index as int] || has_index(
                        taken,
                        t.task_index as int,
                    )));
                }
            }
            assert forall|i: int| 0 <= i < tasks@.len() implies #[trigger] seen@[i] == (start[i]
                || has_index(more, i)) by {
                assert(before[i] == (start[i] || has_index(taken, i)));
                assert(more[index as int] == t);
                if has_index(more, i) {
                    let k = choose|k: int|
                        0 <= k < more.len() && (#[trigger] more[k]).task_index == i;
                    if k < index {
                        assert(taken[k].task_index == i);
                    }
                }
                if has_index(taken, i) {
                    let k = choose|k: int|
                        0 <= k < taken.len() && (#[trigger] taken[k]).task_index == i;
                    assert(more[k].task_index == i);
                }
            }
        }
        index = index + 1;
    }
    assert(results.take(index as int) =~= results);
    true
}

/// A list of flags that are all down.
fn all_down(count: usize) -> (flags: Vec<bool>)
    ensures
        flags@ == Seq::new(count as nat, |i: int| false),
{
    let mut flags: Vec<bool> = Vec::new();
    let mut index: usize = 0;
    while index < count
        invariant
            index <= count,
            flags@ == Seq::new(index as nat, |i: int| false),
        decreases count - index,
    {
        flags.push(false);
        index = index + 1;
        assert(flags@ =~= Seq::new(index as nat, |i: int| false));
    }
    flags
}

/// Whether all flags are up.
fn all_up(flags: &Vec<bool>) -> (up: bool)
    ensures
        up == forall|i: int| 0 <= i < flags@.len() ==> #[trigger] flags@[i],
{
    let mut index: usize = 0;
    while index < flags.len()
        invariant
            index <= flags.len(),
            forall|i: int| 0 <= i < index ==> #[trigger] flags@[i],
        decreases flags.len() - index,
    {
        if !flags[index] {
            return false;
        }
        index = index + 1;
    }
    true
}

/// Whether parts can be merged as far as their own contents tell, whatever the equality of
/// parameters says.
pub open spec fn parts_fit<P>(
    job_name: Seq<char>,
    task_count: nat,
    world: usize,
    parts: Seq<JobResult<P>>,
    scheduling: Scheduling,
) -> bool {
    &&& forall|p: int|
        0 <= p < parts.len() ==> ({
            let part = #[trigger] parts[p];
            &&& result_fault(part) is None
            &&& part.job_name@ == job_name
            &&& part.world_size == world
            &&& distinct_indices(part.tasks@)
            &&& forall|k: int|
                0 <= k < part.tasks@.len() ==> is_placed(
                    #[trigger] part.tasks@[k],
                    task_count,
                    JobAssignment { rank: part.rank, world_size: world },
                    scheduling,
                )
        })
    &&& forall|p: int, q: int|
        0 <= p < q < parts.len() ==> (#[trigger] parts[p]).rank != (#[trigger] parts[q]).rank
            && no_common_index(parts[p].tasks@, parts[q].tasks@)
}

/// Whether two lists of task results have no index in common.
pub open spec fn no_common_index<P>(a: Seq<TaskResult<P>>, b: Seq<TaskResult<P>>) -> bool {
    forall|i: int, j: int|
        0 <= i < a.len() && 0 <= j < b.len() ==> (#[trigger] a[i]).task_index != (
        #[trigger] b[j]).task_index
}

/// Checks the parts of a merge one after the other.
fn check_parts<P: PartialEq>(
    job_name: &String,
    tasks: &Vec<Task<P>>,
    parts: &Vec<JobResult<P>>,
    scheduling: Scheduling,
) -> (checked: Result<(), GenericJobError>)
    ensures
        checked is Ok ==> forall|p: int|
            0 <= p < parts@.len() ==> all_have_settings_of((#[trigger] parts@[p]).tasks@, tasks@),
        checked is Ok ==> parts@.len() > 0 && parts@[0].world_size == parts@.len() && parts_fit(
            job_name@,
            tasks@.len(),
            parts@[0].world_size,
            parts@,
            scheduling,
        ) && covers_all(parts@, parts@.len(), tasks@.len()),
        P::obeys_eq_spec() ==> match merge_fault(job_name@, tasks@, parts@, scheduling) {
            Some(fault) => checked matches Err(e) && reports(e, fault),
            None => checked is Ok,
        },
{
    if parts.len() == 0 {
        return Err(GenericJobError::Merge("no rank results"));
    }
    let world: usize = parts[0].world_size;
    if world == 0 || parts.len() != world {
        return Err(GenericJobError::Merge("rank set incomplete"));
    }
    let mut ranks = all_down(world);
    let mut seen = all_down(tasks.len());
    let ghost all = parts@;
    let ghost faults = part_faults(job_name@, tasks@, world, all, scheduling);
    let mut index: usize = 0;
    while index < parts.len()
        invariant
            index <= parts.len(),
            all == parts@,
            faults == part_faults(job_name@, tasks@, world, all, scheduling),
            all.len() == world,
            world > 0,
            world == all[0].world_size,
            ranks@.len() == world,
            seen@.len() == tasks@.len(),
            parts_fit(job_name@, tasks@.len(), world, all.take(index as int), scheduling),
            forall|p: int|
                0 <= p < index ==> all_have_settings_of((#[trigger] all[p]).tasks@, tasks@),
            P::obeys_eq_spec() ==> forall|i: int|
                0 <= i < index ==> #[trigger] faults[i] is None,
            forall|r: int|
                0 <= r < world ==> #[trigger] ranks@[r] == rank_used(all.take(index as int), r),
            forall|i: int|
                0 <= i < tasks@.len() ==> #[trigger] seen@[i] == index_used(
                    all.take(index as int),
                    i,
                ),
        decreases parts.len() - index,
    {
        let ghost taken = all.take(index as int);
        let ghost more = all.take(index + 1);
        let ghost part = all[index as int];
        let ghost flags = seen@;
        proof {
            assert(more.drop_last() =~= taken);
            assert(more.last() == part);
            assert(faults[index as int] == part_fault(
                job_name@,
                tasks@,
                world,
                taken,
                part,
                scheduling,
            ));
            if P::obeys_eq_spec() && faults[index as int] is Some {
                lemma_first_fault(faults, index as int);
            }
        }
        match validate_result_schema("<in-memory-result>", &parts[index]) {
            Ok(_) => {},
            Err(error) => {
                return Err(error);
            },
        }
        if parts[index].job_name != *job_name || parts[index].world_size != world
            || ranks[parts[index].rank] {
            return Err(GenericJobError::Merge("job/world/rank mismatch"));
        }
        ranks.set(parts[index].rank, true);
        if !join_tasks(&parts[index], tasks, scheduling, &mut seen) {
            return Err(
                GenericJobError::Merge(
                    "task mismatch, wrong rank, wrong counts, duplicate, or incomplete",
                ),
            );
        }
        proof {
            lemma_part_joins(taken, part);
            assert(more =~= taken.push(part));
            assert forall|r: int| 0 <= r < world implies #[trigger] ranks@[r] == rank_used(
                more,
                r,
            ) by {}
            assert forall|i: int| 0 <= i < tasks@.len() implies #[trigger] seen@[i] == index_used(
                more,
                i,
            ) by {
                assert(flags[i] == index_used(taken, i));
            }
            assert forall|p: int, q: int| 0 <= p < q < more.len() implies (
            #[trigger] more[p]).rank != (#[trigger] more[q]).rank && no_common_index(
                more[p].tasks@,
                more[q].tasks@,
            ) by {
                if q < index {
                    assert(taken[p].rank != taken[q].rank);
                } else {
                    assert(taken[p] == more[p]);
                    if more[p].rank == part.rank {
                        assert(rank_used(taken, part.rank as int));
                    }
                    assert forall|i: int, j: int|
                        0 <= i < more[p].tasks@.len() && 0 <= j < part.tasks@.len() implies (
                    #[trigger] more[p].tasks@[i]).task_index != (
                    #[trigger] part.tasks@[j]).task_index by {
                        let n = part.tasks@[j].task_index;
                        assert(!flags[n as int]);
                        if more[p].tasks@[i].task_index == n {
                            assert(has_index(taken[p].tasks@, n as int));
                            assert(index_used(taken, n as int));
                        }
                    }
                }
            }
            assert forall|p: int| 0 <= p < more.len() implies ({
                let part = #[trigger] more[p];
                &&& result_fault(part) is None
                &&& part.job_name@ == job_name@
                &&& part.world_size == world
                &&& distinct_indices(part.tasks@)
                &&& forall|k: int|
                    0 <= k < part.tasks@.len() ==> is_placed(
                        #[trigger] part.tasks@[k],
                        tasks@.len(),
                        JobAssignment { rank: part.rank, world_size: world },
                        scheduling,
                    )
            }) by {
                if p < index {
                    assert(taken[p] == more[p]);
                }
            }
        }
        index = index + 1;
    }
    assert(all.take(index as int) =~= all);
    proof {
        lemma_no_fault(faults);
    }
    if !all_up(&ranks) || !all_up(&seen) {
        proof {
            if covers_all(all, all.len(), tasks@.len()) {
                assert forall|r: int| 0 <= r < world implies #[trigger] ranks@[r] by {
                    assert(rank_used(all, r));
                }
                assert forall|i: int| 0 <= i < tasks@.len() implies #[trigger] seen@[i] by {
                    assert(index_used(all, i));
                }
            }
        }
        return Err(GenericJobError::Merge("rank or task set incomplete"));
    }
    proof {
        assert forall|r: int| 0 <= r < world implies #[trigger] rank_used(all, r) by {
            assert(ranks@[r]);
        }
        assert forall|i: int| 0 <= i < tasks@.len() implies #[trigger] index_used(all, i) by {
            assert(seen@[i]);
        }
    }
    Ok(())
}

/// Which ranks and indices are used once a part has joined.
proof fn lemma_part_joins<P>(earlier: Seq<JobResult<P>>, part: JobResult<P>)
    ensures
        forall|r: int| #[trigger]
            rank_used(earlier.push(part), r) == (rank_used(earlier, r) || part.rank == r),
        forall|i: int| #[trigger]
            index_used(earlier.push(part), i) == (index_used(earlier, i) || has_index(
                part.tasks@,
                i,
            )),
{
    let more = earlier.push(part);
    assert forall|r: int| #[trigger] rank_used(more, r) == (rank_used(earlier, r) || part.rank
        == r) by {
        if rank_used(earlier, r) {
            let p = choose|p: int| 0 <= p < earlier.len() && (#[trigger] earlier[p]).rank == r;
            assert(more[p].rank == r);
        }
        if part.rank == r {
            assert(more[earlier.len() as int].rank == r);
        }
        if rank_used(more, r) {
            let p = choose|p: int| 0 <= p < more.len() && (#[trigger] more[p]).rank == r;
            if p < earlier.len() {
                assert(earlier[p].rank == r);
            }
        }
    }
    assert forall|i: int| #[trigger] index_used(more, i) == (index_used(earlier, i) || has_index(
        part.tasks@,
        i,
    )) by {
        if index_used(earlier, i) {
            let p = choose|p: int|
                0 <= p < earlier.len() && has_index((#[trigger] earlier[p]).tasks@, i);
            assert(has_index(more[p].tasks@, i));
        }
        if has_index(part.tasks@, i) {
            assert(has_index(more[earlier.len() as int].tasks@, i));
        }
        if index_used(more, i) {
            let p = choose|p: int| 0 <= p < more.len() && has_index((#[trigger] more[p]).tasks@, i);
            if p < earlier.len() {
                assert(has_index(earlier[p].tasks@, i));
            }
        }
    }
}

/// Whether a task result comes from one of the parts.
pub open spec fn comes_from<P>(t: TaskResult<P>, parts: Seq<JobResult<P>>) -> bool {
    exists|p: int, k: int|
        0 <= p < parts.len() && 0 <= k < parts[p].tasks@.len() && t
            == #[trigger] parts[p].tasks@[k]
}

/// Whether every slot that is filled holds a task result of the parts at its index.
spec fn slots_fit<P>(slots: Seq<Option<TaskResult<P>>>, parts: Seq<JobResult<P>>) -> bool {
    forall|i: int|
        0 <= i < slots.len() && (#[trigger] slots[i]) is Some ==> slots[i]->0.task_index == i
            && comes_from(slots[i]->0, parts)
}

/// Sorts the task results of all parts by their indices.
fn collect_tasks<P>(parts: Vec<JobResult<P>>, task_count: usize) -> (tasks: Vec<TaskResult<P>>)
    requires
        forall|p: int, k: int|
            0 <= p < parts@.len() && 0 <= k < parts@[p].tasks@.len() ==> (
            #[trigger] parts@[p].tasks@[k]).task_index < task_count,
        forall|i: int| 0 <= i < task_count ==> #[trigger] index_used(parts@, i),
    ensures
        tasks@.len() == task_count,
        forall|i: int|
            0 <= i < task_count ==> (#[trigger] tasks@[i]).task_index == i && comes_from(
                tasks@[i],
                parts@,
            ),
{
    let ghost all = parts@;
    let mut parts = parts;
    let mut slots: Vec<Option<TaskResult<P>>> = Vec::new();
    let mut filled: usize = 0;
    while filled < task_count
        invariant
            filled <= task_count,
            slots@.len() == filled,
            forall|i: int| 0 <= i < filled ==> (#[trigger] slots@[i]) is None,
        decreases task_count - filled,
    {
        slots.push(None);
        filled = filled + 1;
    }
    while parts.len() > 0
        invariant
            parts@.len() <= all.len(),
            parts@ == all.take(parts@.len() as int),
            slots@.len() == task_count,
            slots_fit(slots@, all),
            forall|p: int, k: int|
                0 <= p < all.len() && 0 <= k < all[p].tasks@.len() ==> (
                #[trigger] all[p].tasks@[k]).task_index < task_count,
            forall|p: int, k: int|
                parts@.len() <= p < all.len() && 0 <= k < all[p].tasks@.len() ==> slots@[(
                #[trigger] all[p].tasks@[k]).task_index as int] is Some,
        decreases parts@.len(),
    {
        let ghost last = parts@.len() - 1;
        let part = parts.pop().unwrap();
        assert(part == all[last]);
        assert(parts@ =~= all.take(last));
        let ghost results = part.tasks@;
        let mut tasks = part.tasks;
        while tasks.len() > 0
            invariant
                0 <= last < all.len(),
                results == all[last].tasks@,
                tasks@.len() <= results.len(),
                tasks@ == results.take(tasks@.len() as int),
                slots@.len() == task_count,
                slots_fit(slots@, all),
                forall|p: int, k: int|
                    0 <= p < all.len() && 0 <= k < all[p].tasks@.len() ==> (
                    #[trigger] all[p].tasks@[k]).task_index < task_count,
                forall|p: int, k: int|
                    last < p < all.len() && 0 <= k < all[p].tasks@.len() ==> slots@[(
                    #[trigger] all[p].tasks@[k]).task_index as int] is Some,
                forall|k: int|
                    tasks@.len() <= k < results.len() ==> slots@[(
                    #[trigger] results[k]).task_index as int] is Some,
            decreases tasks@.len(),
        {
            let ghost place = tasks@.len() - 1;
            let t = tasks.pop().unwrap();
            assert(t == all[last].tasks@[place]);
            assert(tasks@ =~= results.take(place));
            let index: usize = t.task_index;
            slots.set(index, Some(t));
        }
    }
    let mut out: Vec<TaskResult<P>> = Vec::new();
    let mut index: usize = 0;
    proof {
        assert forall|i: int| 0 <= i < task_count implies (#[trigger] slots@[i]) is Some by {
            assert(index_used(all, i));
            let p = choose|p: int| 0 <= p < all.len() && has_index((#[trigger] all[p]).tasks@, i);
            let k = choose|k: int|
                0 <= k < all[p].tasks@.len() && (#[trigger] all[p].tasks@[k]).task_index == i;
            assert(slots@[all[p].tasks@[k].task_index as int] is Some);
        }
    }
    while index < task_count
        invariant
            index <= task_count,
            slots@.len() == task_count,
            out@.len() == index,
            slots_fit(slots@, all),
            forall|i: int| index <= i < task_count ==> (#[trigger] slots@[i]) is Some,
            forall|i: int|
                0 <= i < index ==> (#[trigger] out@[i]).task_index == i && comes_from(out@[i], all),
        decreases task_count - index,
    {
        let ghost before = slots@;
        assert(before[index as int] is Some);
        match slots[index].take() {
            Some(t) => out.push(t),
            None => {},
        }
        assert forall|i: int|
            0 <= i < slots@.len() && (#[trigger] slots@[i]) is Some implies slots@[i]->0.task_index
            == i && comes_from(slots@[i]->0, all) by {
            assert(slots@[i] == before[i]);
        }
        assert forall|i: int| index < i < task_count implies (#[trigger] slots@[i]) is Some by {
            assert(slots@[i] == before[i]);
        }
        index = index + 1;
    }
    out
}

/// Merges per-rank results under the given scheduling strategy.
///
/// Validates every part strictly: ranks must be unique and complete, and each task must be
/// completed, correctly owned, and consistent with the shared `job` definition.
pub fn merge_results_with_scheduling<M: MonteCarlo>(
    job: &Job<M>,
    parts: Vec<JobResult<M::Parameters>>,
    scheduling: Scheduling,
) -> (merged: Result<JobResult<M::Parameters>, GenericJobError>) where M::Parameters: PartialEq
    ensures
        M::Parameters::obeys_eq_spec() ==> match merge_fault(
            job.name@,
            job.tasks@,
            parts@,
            scheduling,
        ) {
            Some(fault) => merged matches Err(e) && reports(e, fault),
            None => merged is Ok,
        },
        merged matches Ok(m) ==> {
            &&& is_merge(m, job.name@, job.tasks@.len(), parts@)
            &&& all_have_settings_of(m.tasks@, job.tasks@)
            &&& parts@.len() > 0
            &&& parts@[0].world_size == parts@.len()
            &&& parts_fit(
                job.name@,
                job.tasks@.len(),
                parts@[0].world_size,
                parts@,
                scheduling,
            )
            &&& covers_all(parts@, parts@.len(), job.tasks@.len())
        },
{
    check_parts(&job.name, &job.tasks, &parts, scheduling)?;
    let world: usize = parts.len();
    let ghost all = parts@;
    proof {
        assert forall|p: int, k: int|
            0 <= p < all.len() && 0 <= k < all[p].tasks@.len() implies (
        #[trigger] all[p].tasks@[k]).task_index < job.tasks@.len() by {
            let part = all[p];
            assert(is_placed(
                part.tasks@[k],
                job.tasks@.len(),
                JobAssignment { rank: part.rank, world_size: part.world_size },
                scheduling,
            ));
        }
    }
    let tasks = collect_tasks(parts, job.tasks.len());
    assert forall|i: int| 0 <= i < job.tasks@.len() implies (#[trigger] tasks@[i]).task_index == i
        && exists|p: int, k: int|
        0 <= p < all.len() && 0 <= k < all[p].tasks@.len() && tasks@[i]
            == #[trigger] all[p].tasks@[k] by {
        assert(comes_from(tasks@[i], all));
    }
    assert forall|i: int| 0 <= i < tasks@.len() implies has_settings_of(
        #[trigger] tasks@[i],
        job.tasks@,
    ) by {
        assert(tasks@[i].task_index == i);
        let (p, k) = choose|p: int, k: int|
            0 <= p < all.len() && 0 <= k < all[p].tasks@.len() && tasks@[i]
                == #[trigger] all[p].tasks@[k];
        assert(all_have_settings_of(all[p].tasks@, job.tasks@));
    }
    Ok(JobResult { job_name: job.name.clone(), rank: 0, world_size: world, tasks })
}

/// Merges per-rank results from static scheduling into a single result.
pub fn merge_results<M: MonteCarlo>(
    job: &Job<M>,
    parts: Vec<JobResult<M::Parameters>>,
) -> (merged: Result<JobResult<M::Parameters>, GenericJobError>) where M::Parameters: PartialEq
    ensures
        M::Parameters::obeys_eq_spec() ==> match merge_fault(
            job.name@,
            job.tasks@,
            parts@,
            Scheduling::Static,
        ) {
            Some(fault) => merged matches Err(e) && reports(e, fault),
            None => merged is Ok,
        },
        merged matches Ok(m) ==> {
            &&& is_merge(m, job.name@, job.tasks@.len(), parts@)
            &&& all_have_settings_of(m.tasks@, job.tasks@)
            &&& parts@.len() > 0
            &&& parts@[0].world_size == parts@.len()
            &&& parts_fit(
                job.name@,
                job.tasks@.len(),
                parts@[0].world_size,
                parts@,
                Scheduling::Static,
            )
            &&& covers_all(parts@, parts@.len(), job.tasks@.len())
        },
{
    merge_results_with_scheduling(job, parts, Scheduling::Static)
}

/// Merges per-rank results from dynamic scheduling into a single result.
pub fn merge_dynamic_results<M: MonteCarlo>(
    job: &Job<M>,
    parts: Vec<JobResult<M::Parameters>>,
) -> (merged: Result<JobResult<M::Parameters>, GenericJobError>) where M::Parameters: PartialEq
    ensures
        M::Parameters::obeys_eq_spec() ==> match merge_fault(
            job.name@,
            job.tasks@,
            parts@,
            Scheduling::Dynamic,
        ) {
            Some(fault) => merged matches Err(e) && reports(e, fault),
            None => merged is Ok,
        },
        merged matches Ok(m) ==> {
            &&& is_merge(m, job.name@, job.tasks@.len(), parts@)
            &&& all_have_settings_of(m.tasks@, job.tasks@)
            &&& parts@.len() > 0
            &&& parts@[0].world_size == parts@.len()
            &&& parts_fit(
                job.name@,
                job.tasks@.len(),
                parts@[0].world_size,
                parts@,
                Scheduling::Dynamic,
            )
            &&& covers_all(parts@, parts@.len(), job.tasks@.len())
        },
{
    merge_results_with_scheduling(job, parts, Scheduling::Dynamic)
}

/// Whether all task results are for the tasks of the job at their indices.
pub open spec fn parts_agree<P: PartialEq>(
    tasks: Seq<Task<P>>,
    parts: Seq<JobResult<P>>,
) -> bool {
    forall|p: int, k: int|
        0 <= p < parts.len() && 0 <= k < parts[p].tasks@.len() ==> tasks_agree(
            (#[trigger] parts[p].tasks@[k]).task@,
            tasks[parts[p].tasks@[k].task_index as int]@,
        )
}

/// Whether one more part keeps what fits and agrees.
proof fn lemma_one_more_part<P: PartialEq>(
    job_name: Seq<char>,
    tasks: Seq<Task<P>>,
    world: usize,
    earlier: Seq<JobResult<P>>,
    part: JobResult<P>,
    scheduling: Scheduling,
)
    requires
        parts_fit(job_name, tasks.len(), world, earlier, scheduling),
        parts_agree(tasks, earlier),
    ensures
        part_fault(job_name, tasks, world, earlier, part, scheduling) is None <==> (parts_fit(
            job_name,
            tasks.len(),
            world,
            earlier.push(part),
            scheduling,
        ) && parts_agree(tasks, earlier.push(part))),
{
    let more = earlier.push(part);
    let last = earlier.len() as int;
    assert(more[last] == part);
    let assignment = JobAssignment { rank: part.rank, world_size: part.world_size };
    if part_fault(job_name, tasks, world, earlier, part, scheduling) is None {
        assert forall|p: int, q: int| 0 <= p < q < more.len() implies (#[trigger] more[p]).rank != (
        #[trigger] more[q]).rank && no_common_index(more[p].tasks@, more[q].tasks@) by {
            assert(more[p] == earlier[p]);
            if q < last {
                assert(more[q] == earlier[q]);
                assert(earlier[p].rank != earlier[q].rank);
            } else {
                if more[p].rank == part.rank {
                    assert(rank_used(earlier, part.rank as int));
                }
                assert forall|i: int, j: int|
                    0 <= i < more[p].tasks@.len() && 0 <= j < part.tasks@.len() implies (
                #[trigger] more[p].tasks@[i]).task_index != (
                #[trigger] part.tasks@[j]).task_index by {
                    let n = part.tasks@[j].task_index as int;
                    assert(!index_used(earlier, n));
                    if more[p].tasks@[i].task_index == n {
                        assert(has_index(earlier[p].tasks@, n));
                    }
                }
            }
        }
        assert forall|p: int| 0 <= p < more.len() implies ({
            let part = #[trigger] more[p];
            &&& result_fault(part) is None
            &&& part.job_name@ == job_name
            &&& part.world_size == world
            &&& distinct_indices(part.tasks@)
            &&& forall|k: int|
                0 <= k < part.tasks@.len() ==> is_placed(
                    #[trigger] part.tasks@[k],
                    tasks.len(),
                    JobAssignment { rank: part.rank, world_size: world },
                    scheduling,
                )
        }) by {
            if p < last {
                assert(more[p] == earlier[p]);
            }
        }
        assert forall|p: int, k: int|
            0 <= p < more.len() && 0 <= k < more[p].tasks@.len() implies tasks_agree(
            (#[trigger] more[p].tasks@[k]).task@,
            tasks[more[p].tasks@[k].task_index as int]@,
        ) by {
            if p < last {
                assert(more[p] == earlier[p]);
                assert(tasks_agree(
                    earlier[p].tasks@[k].task@,
                    tasks[earlier[p].tasks@[k].task_index as int]@,
                ));
            } else {
                assert(is_accepted(part.tasks@[k], tasks, assignment, scheduling));
            }
        }
    }
    if parts_fit(job_name, tasks.len(), world, more, scheduling) && parts_agree(tasks, more) {
        assert(!rank_used(earlier, part.rank as int)) by {
            if rank_used(earlier, part.rank as int) {
                let p = choose|p: int|
                    0 <= p < earlier.len() && (#[trigger] earlier[p]).rank == part.rank;
                assert(more[p].rank != more[last].rank);
            }
        }
        assert forall|k: int| 0 <= k < part.tasks@.len() implies is_accepted(
            #[trigger] part.tasks@[k],
            tasks,
            assignment,
            scheduling,
        ) && !index_used(earlier, part.tasks@[k].task_index as int) by {
            assert(more[last].tasks@[k] == part.tasks@[k]);
            let n = part.tasks@[k].task_index as int;
            if index_used(earlier, n) {
                let p = choose|p: int|
                    0 <= p < earlier.len() && has_index((#[trigger] earlier[p]).tasks@, n);
                let i = choose|i: int|
                    0 <= i < earlier[p].tasks@.len() && (
                    #[trigger] earlier[p].tasks@[i]).task_index == n;
                assert(more[p].rank != more[last].rank);
                assert(no_common_index(more[p].tasks@, more[last].tasks@));
                assert(more[p].tasks@[i].task_index != more[last].tasks@[k].task_index);
            }
        }
    }
}

/// Parts have no fault exactly if they fit and agree, in whatever order they come.
pub proof fn law_faultless_parts<P: PartialEq>(
    job_name: Seq<char>,
    tasks: Seq<Task<P>>,
    world: usize,
    parts: Seq<JobResult<P>>,
    scheduling: Scheduling,
)
    ensures
        parts_fault(job_name, tasks, world, parts, scheduling) is None <==> (parts_fit(
            job_name,
            tasks.len(),
            world,
            parts,
            scheduling,
        ) && parts_agree(tasks, parts)),
    decreases parts.len(),
{
    if parts.len() > 0 {
        let earlier = parts.drop_last();
        let part = parts.last();
        law_faultless_parts(job_name, tasks, world, earlier, scheduling);
        assert(parts =~= earlier.push(part));
        let faults = part_faults(job_name, tasks, world, parts, scheduling);
        assert forall|i: int| 0 <= i < earlier.len() implies #[trigger] faults[i] == part_faults(
            job_name,
            tasks,
            world,
            earlier,
            scheduling,
        )[i] by {
            assert(parts.take(i) =~= earlier.take(i));
        }
        assert(faults.drop_last() =~= part_faults(job_name, tasks, world, earlier, scheduling));
        assert(parts.take(earlier.len() as int) =~= earlier);
        if parts_fit(job_name, tasks.len(), world, earlier, scheduling) && parts_agree(
            tasks,
            earlier,
        ) {
            lemma_one_more_part(job_name, tasks, world, earlier, part, scheduling);
        } else if parts_fit(job_name, tasks.len(), world, parts, scheduling) && parts_agree(
            tasks,
            parts,
        ) {
            assert forall|p: int| 0 <= p < earlier.len() implies ({
                let part = #[trigger] earlier[p];
                &&& result_fault(part) is None
                &&& part.job_name@ == job_name
                &&& part.world_size == world
                &&& distinct_indices(part.tasks@)
                &&& forall|k: int|
                    0 <= k < part.tasks@.len() ==> is_placed(
                        #[trigger] part.tasks@[k],
                        tasks.len(),
                        JobAssignment { rank: part.rank, world_size: world },
                        scheduling,
                    )
            }) by {
                assert(earlier[p] == parts[p]);
            }
            assert forall|p: int, q: int| 0 <= p < q < earlier.len() implies (
            #[trigger] earlier[p]).rank != (#[trigger] earlier[q]).rank && no_common_index(
                earlier[p].tasks@,
                earlier[q].tasks@,
            ) by {
                assert(parts[p].rank != parts[q].rank);
            }
            assert forall|p: int, k: int|
                0 <= p < earlier.len() && 0 <= k < earlier[p].tasks@.len() implies tasks_agree(
                (#[trigger] earlier[p].tasks@[k]).task@,
                tasks[earlier[p].tasks@[k].task_index as int]@,
            ) by {
                assert(parts[p].tasks@[k] == earlier[p].tasks@[k]);
            }
        }
    }
}

/// Whether `b` lists what `a` lists in another order: entry `i` of `b` is entry `to[i]` of `a`,
/// and entry `i` of `a` is entry `from[i]` of `b`.
pub open spec fn is_reordering<T>(a: Seq<T>, b: Seq<T>, to: Seq<int>, from: Seq<int>) -> bool {
    &&& a.len() == b.len() == to.len() == from.len()
    &&& forall|i: int|
        0 <= i < b.len() ==> 0 <= #[trigger] to[i] < a.len() && b[i] == a[to[i]] && from[to[i]] == i
    &&& forall|i: int|
        0 <= i < a.len() ==> 0 <= #[trigger] from[i] < b.len() && a[i] == b[from[i]] && to[from[i]]
            == i
}

/// The order in which the parts of a merge come does not matter: parts that merge do so in every
/// order.
pub proof fn law_merge_in_any_order<P: PartialEq>(
    job_name: Seq<char>,
    tasks: Seq<Task<P>>,
    a: Seq<JobResult<P>>,
    b: Seq<JobResult<P>>,
    to: Seq<int>,
    from: Seq<int>,
    scheduling: Scheduling,
)
    requires
        is_reordering(a, b, to, from),
        merge_fault(job_name, tasks, a, scheduling) is None,
    ensures
        merge_fault(job_name, tasks, b, scheduling) is None,
{
    let world = a[0].world_size;
    law_faultless_parts(job_name, tasks, world, a, scheduling);
    assert(b[0] == a[to[0]]);
    assert(b[0].world_size == world);
    assert forall|p: int| 0 <= p < b.len() implies ({
        let part = #[trigger] b[p];
        &&& result_fault(part) is None
        &&& part.job_name@ == job_name
        &&& part.world_size == world
        &&& distinct_indices(part.tasks@)
        &&& forall|k: int|
            0 <= k < part.tasks@.len() ==> is_placed(
                #[trigger] part.tasks@[k],
                tasks.len(),
                JobAssignment { rank: part.rank, world_size: world },
                scheduling,
            )
    }) by {
        assert(b[p] == a[to[p]]);
    }
    assert forall|p: int, q: int| 0 <= p < q < b.len() implies (#[trigger] b[p]).rank != (
    #[trigger] b[q]).rank && no_common_index(b[p].tasks@, b[q].tasks@) by {
        let i = to[p];
        let j = to[q];
        assert(i != j);
        if i < j {
            assert(a[i].rank != a[j].rank);
        } else {
            assert(a[j].rank != a[i].rank);
            assert(no_common_index(a[j].tasks@, a[i].tasks@));
            assert forall|x: int, y: int|
                0 <= x < b[p].tasks@.len() && 0 <= y < b[q].tasks@.len() implies (
            #[trigger] b[p].tasks@[x]).task_index != (#[trigger] b[q].tasks@[y]).task_index by {
                assert(a[j].tasks@[y].task_index != a[i].tasks@[x].task_index);
            }
        }
    }
    assert forall|p: int, k: int|
        0 <= p < b.len() && 0 <= k < b[p].tasks@.len() implies tasks_agree(
        (#[trigger] b[p].tasks@[k]).task@,
        tasks[b[p].tasks@[k].task_index as int]@,
    ) by {
        assert(b[p] == a[to[p]]);
        assert(tasks_agree(
            a[to[p]].tasks@[k].task@,
            tasks[a[to[p]].tasks@[k].task_index as int]@,
        ));
    }
    law_faultless_parts(job_name, tasks, world, b, scheduling);
    assert forall|r: int| 0 <= r < b.len() implies #[trigger] rank_used(b, r) by {
        assert(rank_used(a, r));
        let p = choose|p: int| 0 <= p < a.len() && (#[trigger] a[p]).rank == r;
        assert(b[from[p]].rank == r);
    }
    assert forall|i: int| 0 <= i < tasks.len() implies #[trigger] index_used(b, i) by {
        assert(index_used(a, i));
        let p = choose|p: int| 0 <= p < a.len() && has_index((#[trigger] a[p]).tasks@, i);
        assert(has_index(b[from[p]].tasks@, i));
    }
}

/// Parts that fit have one merge, whatever their order: two merges hold the same task results.
pub proof fn law_merge_is_unique<P>(
    job_name: Seq<char>,
    task_count: nat,
    world: usize,
    a: Seq<JobResult<P>>,
    b: Seq<JobResult<P>>,
    to: Seq<int>,
    from: Seq<int>,
    scheduling: Scheduling,
    first: JobResult<P>,
    second: JobResult<P>,
)
    requires
        is_reordering(a, b, to, from),
        parts_fit(job_name, task_count, world, a, scheduling),
        is_merge(first, job_name, task_count, a),
        is_merge(second, job_name, task_count, b),
    ensures
        first.tasks@ == second.tasks@,
        first.job_name@ == second.job_name@,
        first.rank == second.rank,
        first.world_size == second.world_size,
{
    assert forall|i: int| 0 <= i < task_count implies first.tasks@[i] == second.tasks@[i] by {
        assert(first.tasks@[i].task_index == i);
        assert(second.tasks@[i].task_index == i);
        let (p, k) = choose|p: int, k: int|
            0 <= p < a.len() && 0 <= k < a[p].tasks@.len() && first.tasks@[i]
                == #[trigger] a[p].tasks@[k];
        let (q, m) = choose|q: int, m: int|
            0 <= q < b.len() && 0 <= m < b[q].tasks@.len() && second.tasks@[i]
                == #[trigger] b[q].tasks@[m];
        let r = to[q];
        assert(a[r] == b[q]);
        if p < r {
            assert(a[p].rank != a[r].rank);
            assert(no_common_index(a[p].tasks@, a[r].tasks@));
            assert(a[p].tasks@[k].task_index != a[r].tasks@[m].task_index);
        } else if r < p {
            assert(a[r].rank != a[p].rank);
            assert(no_common_index(a[r].tasks@, a[p].tasks@));
            assert(a[r].tasks@[m].task_index != a[p].tasks@[k].task_index);
        } else {
            assert(distinct_indices(a[p].tasks@));
            if k < m {
                assert(a[p].tasks@[k].task_index != a[p].tasks@[m].task_index);
            }
            if m < k {
                assert(a[p].tasks@[m].task_index != a[p].tasks@[k].task_index);
            }
        }
    }
    assert(first.tasks@ =~= second.tasks@);
}

/// Under static scheduling, the results of all ranks merge if every rank completed its own tasks:
/// part `r` is valid, has rank `r` and lists each task of that rank once.
pub proof fn law_static_parts_merge<P: PartialEq>(
    job_name: Seq<char>,
    tasks: Seq<Task<P>>,
    parts: Seq<JobResult<P>>,
)
    requires
        0 < parts.len() <= usize::MAX,
        forall|r: int|
            0 <= r < parts.len() ==> ({
                let part = #[trigger] parts[r];
                &&& result_fault(part) is None
                &&& part.job_name@ == job_name
                &&& part.rank == r
                &&& part.world_size == parts.len()
                &&& distinct_indices(part.tasks@)
            }),
        forall|r: int, k: int|
            0 <= r < parts.len() && 0 <= k < parts[r].tasks@.len() ==> is_accepted(
                #[trigger] parts[r].tasks@[k],
                tasks,
                JobAssignment { rank: parts[r].rank, world_size: parts[r].world_size },
                Scheduling::Static,
            ),
        forall|r: int, i: int|
            0 <= r < parts.len() && 0 <= i < tasks.len() && i % parts.len() as int == r
                ==> #[trigger] has_index(parts[r].tasks@, i),
    ensures
        merge_fault(job_name, tasks, parts, Scheduling::Static) is None,
{
    let world = parts[0].world_size;
    assert forall|p: int, q: int| 0 <= p < q < parts.len() implies (#[trigger] parts[p]).rank != (
    #[trigger] parts[q]).rank && no_common_index(parts[p].tasks@, parts[q].tasks@) by {
        assert forall|i: int, j: int|
            0 <= i < parts[p].tasks@.len() && 0 <= j < parts[q].tasks@.len() implies (
        #[trigger] parts[p].tasks@[i]).task_index != (
        #[trigger] parts[q].tasks@[j]).task_index by {
            assert(is_accepted(
                parts[p].tasks@[i],
                tasks,
                JobAssignment { rank: parts[p].rank, world_size: parts[p].world_size },
                Scheduling::Static,
            ));
            assert(is_accepted(
                parts[q].tasks@[j],
                tasks,
                JobAssignment { rank: parts[q].rank, world_size: parts[q].world_size },
                Scheduling::Static,
            ));
        }
    }
    assert forall|p: int| 0 <= p < parts.len() implies ({
        let part = #[trigger] parts[p];
        &&& result_fault(part) is None
        &&& part.job_name@ == job_name
        &&& part.world_size == world
        &&& distinct_indices(part.tasks@)
        &&& forall|k: int|
            0 <= k < part.tasks@.len() ==> is_placed(
                #[trigger] part.tasks@[k],
                tasks.len(),
                JobAssignment { rank: part.rank, world_size: world },
                Scheduling::Static,
            )
    }) by {
        let part = parts[p];
        assert forall|k: int| 0 <= k < part.tasks@.len() implies is_placed(
            #[trigger] part.tasks@[k],
            tasks.len(),
            JobAssignment { rank: part.rank, world_size: world },
            Scheduling::Static,
        ) by {
            assert(is_accepted(
                parts[p].tasks@[k],
                tasks,
                JobAssignment { rank: parts[p].rank, world_size: parts[p].world_size },
                Scheduling::Static,
            ));
        }
    }
    law_faultless_parts(job_name, tasks, world, parts, Scheduling::Static);
    assert forall|r: int| 0 <= r < parts.len() implies #[trigger] rank_used(parts, r) by {
        assert(parts[r].rank == r);
    }
    assert forall|i: int| 0 <= i < tasks.len() implies #[trigger] index_used(parts, i) by {
        let r = i % parts.len() as int;
        assert(has_index(parts[r].tasks@, i));
    }
}

/// A merge that succeeds has one result for each task of the job, in the order of the tasks. Each
/// of them is of the task at its index, with the same settings field by field, and complete: it has
/// all the sweeps that the job asks for.
pub proof fn law_merged_tasks_are_the_jobs<M: MonteCarlo>(
    job: Job<M>,
    parts: Vec<JobResult<M::Parameters>>,
    scheduling: Scheduling,
    merged: JobResult<M::Parameters>,
) where M::Parameters: PartialEq
    requires
        call_ensures(
            merge_results_with_scheduling::<M>,
            (&job, parts, scheduling),
            Ok::<JobResult<M::Parameters>, GenericJobError>(merged),
        ),
    ensures
        merged.job_name@ == job.name@,
        merged.rank == 0,
        merged.world_size == parts@.len(),
        merged.tasks@.len() == job.tasks@.len(),
        forall|i: int|
            0 <= i < job.tasks@.len() ==> ({
                let t = #[trigger] merged.tasks@[i];
                &&& t.task_index == i
                &&& t.completed
                &&& t.task.name@ == job.tasks@[i].name@
                &&& t.task.sweeps == job.tasks@[i].sweeps
                &&& t.task.thermalization == job.tasks@[i].thermalization
                &&& t.task.binsize == job.tasks@[i].binsize
                &&& t.task.seed == job.tasks@[i].seed
                &&& t.measurement_sweeps == job.tasks@[i].sweeps
                &&& t.thermalization_sweeps == job.tasks@[i].thermalization
            }),
{
    assert forall|i: int| 0 <= i < job.tasks@.len() implies ({
        let t = #[trigger] merged.tasks@[i];
        &&& t.task_index == i
        &&& t.completed
        &&& has_settings_of(t, job.tasks@)
        &&& t.measurement_sweeps == t.task.sweeps
        &&& t.thermalization_sweeps == t.task.thermalization
    }) by {
        let (p, k) = choose|p: int, k: int|
            0 <= p < parts@.len() && 0 <= k < parts@[p].tasks@.len() && merged.tasks@[i]
                == #[trigger] parts@[p].tasks@[k];
        assert(is_placed(
            parts@[p].tasks@[k],
            job.tasks@.len(),
            JobAssignment { rank: parts@[p].rank, world_size: parts@[0].world_size },
            scheduling,
        ));
    }
}

/// A merge that succeeds leaves nothing out and makes nothing up: every task result of every part
/// is the merged one at its index, so that each index comes from one part alone.
pub proof fn law_merge_takes_every_result<M: MonteCarlo>(
    job: Job<M>,
    parts: Vec<JobResult<M::Parameters>>,
    scheduling: Scheduling,
    merged: JobResult<M::Parameters>,
    p: int,
    k: int,
) where M::Parameters: PartialEq
    requires
        call_ensures(
            merge_results_with_scheduling::<M>,
            (&job, parts, scheduling),
            Ok::<JobResult<M::Parameters>, GenericJobError>(merged),
        ),
        0 <= p < parts@.len(),
        0 <= k < parts@[p].tasks@.len(),
    ensures
        parts@[p].tasks@[k].task_index < job.tasks@.len(),
        merged.tasks@[parts@[p].tasks@[k].task_index as int] == parts@[p].tasks@[k],
        parts@[p].job_name@ == job.name@,
        parts@[p].world_size == parts@.len(),
        parts@[p].rank < parts@.len(),
        scheduling == Scheduling::Static ==> parts@[p].tasks@[k].task_index as int
            % parts@.len() as int == parts@[p].rank,
{
    let part = parts@[p];
    let t = part.tasks@[k];
    assert(is_placed(
        t,
        job.tasks@.len(),
        JobAssignment { rank: part.rank, world_size: parts@[0].world_size },
        scheduling,
    ));
    assert(result_fault(part) is None);
    let i = t.task_index as int;
    assert(merged.tasks@[i].task_index == i);
    let (q, m) = choose|q: int, m: int|
        0 <= q < parts@.len() && 0 <= m < parts@[q].tasks@.len() && merged.tasks@[i]
            == #[trigger] parts@[q].tasks@[m];
    if p < q {
        assert(parts@[p].rank != parts@[q].rank);
        assert(no_common_index(parts@[p].tasks@, parts@[q].tasks@));
        assert(parts@[p].tasks@[k].task_index != parts@[q].tasks@[m].task_index);
    } else if q < p {
        assert(parts@[q].rank != parts@[p].rank);
        assert(no_common_index(parts@[q].tasks@, parts@[p].tasks@));
        assert(parts@[q].tasks@[m].task_index != parts@[p].tasks@[k].task_index);
    } else {
        assert(distinct_indices(parts@[p].tasks@));
        if k < m {
            assert(parts@[p].tasks@[k].task_index != parts@[p].tasks@[m].task_index);
        }
        if m < k {
            assert(parts@[p].tasks@[m].task_index != parts@[p].tasks@[k].task_index);
        }
    }
}

/// Whether the results of all ranks are complete: as many parts as ranks, each with its own rank,
/// valid and of this job; task results that are complete and of the job's task at their index, one
/// for each task of the job; and under static scheduling each of them from the rank that the task
/// belongs to.
pub open spec fn are_complete<P: PartialEq>(
    job_name: Seq<char>,
    tasks: Seq<Task<P>>,
    parts: Seq<JobResult<P>>,
    scheduling: Scheduling,
) -> bool {
    &&& parts.len() > 0
    &&& forall|p: int|
        0 <= p < parts.len() ==> ({
            let part = #[trigger] parts[p];
            &&& call_ensures(
                validate_result_schema::<P>,
                ("<in-memory-result>", &part),
                Ok::<(), GenericJobError>(()),
            )
            &&& part.job_name@ == job_name
            &&& part.world_size == parts.len()
        })
    &&& forall|p: int, q: int|
        0 <= p < q < parts.len() ==> (#[trigger] parts[p]).rank != (#[trigger] parts[q]).rank
    &&& forall|p: int, k: int|
        0 <= p < parts.len() && 0 <= k < parts[p].tasks@.len() ==> ({
            let t = #[trigger] parts[p].tasks@[k];
            let task = tasks[t.task_index as int];
            &&& t.completed
            &&& t.task_index < tasks.len()
            &&& scheduling == Scheduling::Static ==> t.task_index as int % parts.len() as int
                == parts[p].rank
            &&& t.task.name@ == task.name@
            &&& t.task.parameters.eq_spec(&task.parameters)
            &&& t.task.sweeps == task.sweeps
            &&& t.task.thermalization == task.thermalization
            &&& t.task.binsize == task.binsize
            &&& t.task.seed == task.seed
        })
    &&& forall|p: int, k: int, q: int, m: int|
        0 <= p < parts.len() && 0 <= k < parts[p].tasks@.len() && 0 <= q < parts.len() && 0 <= m
            < parts[q].tasks@.len() && (#[trigger] parts[p].tasks@[k]).task_index == (
        #[trigger] parts[q].tasks@[m]).task_index ==> p == q && k == m
    &&& forall|i: int|
        0 <= i < tasks.len() ==> #[trigger] index_used(parts, i)
}

/// Different ranks below their number are all ranks below it.
proof fn lemma_all_ranks<P>(parts: Seq<JobResult<P>>, r: int)
    requires
        forall|p: int| 0 <= p < parts.len() ==> (#[trigger] parts[p]).rank < parts.len(),
        forall|p: int, q: int|
            0 <= p < q < parts.len() ==> (#[trigger] parts[p]).rank != (#[trigger] parts[q]).rank,
        0 <= r < parts.len(),
    ensures
        rank_used(parts, r),
{
    let ranks = parts.map_values(|part: JobResult<P>| part.rank as int);
    assert forall|p: int, q: int|
        0 <= p < ranks.len() && 0 <= q < ranks.len() && p != q implies ranks[p] != ranks[q] by {
        if p < q {
            assert(parts[p].rank != parts[q].rank);
        } else {
            assert(parts[q].rank != parts[p].rank);
        }
    }
    ranks.unique_seq_to_set();
    let all = vstd::set_lib::set_int_range(0, parts.len() as int);
    vstd::set_lib::lemma_int_range(0, parts.len() as int);
    assert(ranks.to_set().subset_of(all)) by {
        assert forall|x: int| ranks.to_set().contains(x) implies all.contains(x) by {
            let p = choose|p: int| 0 <= p < ranks.len() && ranks[p] == x;
            assert(parts[p].rank < parts.len());
        }
    }
    vstd::set_lib::lemma_subset_equality(ranks.to_set(), all);
    assert(ranks.to_set().contains(r));
    let p = choose|p: int| 0 <= p < ranks.len() && ranks[p] == r;
    assert(parts[p].rank == r);
}

proof fn lemma_complete_parts<P: PartialEq>(
    job_name: Seq<char>,
    tasks: Seq<Task<P>>,
    parts: Seq<JobResult<P>>,
    scheduling: Scheduling,
)
    requires
        parts.len() <= usize::MAX,
        are_complete(job_name, tasks, parts, scheduling),
    ensures
        merge_fault(job_name, tasks, parts, scheduling) is None,
{
    let world = parts[0].world_size;
    assert forall|p: int| 0 <= p < parts.len() implies result_fault(#[trigger] parts[p]) is None by {
        let part = parts[p];
        assert(part.job_name@ == job_name);
    }
    assert forall|p: int, k: int| 0 <= p < parts.len() && 0 <= k < parts[p].tasks@.len() implies (
    is_placed(
        #[trigger] parts[p].tasks@[k],
        tasks.len(),
        JobAssignment { rank: parts[p].rank, world_size: world },
        scheduling,
    ) && tasks_agree(
        parts[p].tasks@[k].task@,
        tasks[parts[p].tasks@[k].task_index as int]@,
    )) by {
        let part = parts[p];
        assert(part.world_size == world);
        assert(result_fault(part) is None);
        assert(crate::results::is_valid_task_result(part.tasks@[k]));
    }
    assert forall|p: int, q: int| 0 <= p < q < parts.len() implies (#[trigger] parts[p]).rank != (
    #[trigger] parts[q]).rank && no_common_index(parts[p].tasks@, parts[q].tasks@) by {
        assert forall|i: int, j: int|
            0 <= i < parts[p].tasks@.len() && 0 <= j < parts[q].tasks@.len() implies (
        #[trigger] parts[p].tasks@[i]).task_index != (
        #[trigger] parts[q].tasks@[j]).task_index by {}
    }
    assert forall|p: int| 0 <= p < parts.len() implies ({
        let part = #[trigger] parts[p];
        &&& result_fault(part) is None
        &&& part.job_name@ == job_name
        &&& part.world_size == world
        &&& distinct_indices(part.tasks@)
        &&& forall|k: int|
            0 <= k < part.tasks@.len() ==> is_placed(
                #[trigger] part.tasks@[k],
                tasks.len(),
                JobAssignment { rank: part.rank, world_size: world },
                scheduling,
            )
    }) by {
        let part = parts[p];
        assert forall|k: int| 0 <= k < part.tasks@.len() implies is_placed(
            #[trigger] part.tasks@[k],
            tasks.len(),
            JobAssignment { rank: part.rank, world_size: world },
            scheduling,
        ) by {
            assert(parts[p].tasks@[k] == part.tasks@[k]);
        }
        assert forall|i: int, j: int| 0 <= i < j < part.tasks@.len() implies (
        #[trigger] part.tasks@[i]).task_index != (#[trigger] part.tasks@[j]).task_index by {
            assert(parts[p].tasks@[i] == part.tasks@[i]);
            assert(parts[p].tasks@[j] == part.tasks@[j]);
        }
    }
    law_faultless_parts(job_name, tasks, world, parts, scheduling);
    assert forall|r: int| 0 <= r < parts.len() implies #[trigger] rank_used(parts, r) by {
        assert forall|p: int| 0 <= p < parts.len() implies (#[trigger] parts[p]).rank
            < parts.len() by {
            assert(result_fault(parts[p]) is None);
        }
        lemma_all_ranks(parts, r);
    }
    assert forall|i: int| 0 <= i < tasks.len() implies #[trigger] index_used(parts, i) by {
        assert(index_used(parts, i));
    }
}

/// Results that are complete merge: none of them is refused.
pub proof fn law_complete_results_merge<M: MonteCarlo>(
    job: Job<M>,
    parts: Vec<JobResult<M::Parameters>>,
    scheduling: Scheduling,
    merged: Result<JobResult<M::Parameters>, GenericJobError>,
) where M::Parameters: PartialEq
    requires
        M::Parameters::obeys_eq_spec(),
        are_complete(job.name@, job.tasks@, parts@, scheduling),
        call_ensures(merge_results_with_scheduling::<M>, (&job, parts, scheduling), merged),
    ensures
        merged is Ok,
{
    assert(parts.len() == parts@.len());
    lemma_complete_parts(job.name@, job.tasks@, parts@, scheduling);
}

/// The two named merges are the merges under their scheduling: they accept complete results, and
/// what they give is of the job's tasks. Static results come from the ranks that the tasks belong
/// to.
pub proof fn law_named_merges<M: MonteCarlo>(
    job: Job<M>,
    parts: Vec<JobResult<M::Parameters>>,
    fixed: Result<JobResult<M::Parameters>, GenericJobError>,
    dynamic: Result<JobResult<M::Parameters>, GenericJobError>,
) where M::Parameters: PartialEq
    requires
        call_ensures(merge_results::<M>, (&job, parts), fixed),
        call_ensures(merge_dynamic_results::<M>, (&job, parts), dynamic),
    ensures
        M::Parameters::obeys_eq_spec() && are_complete(
            job.name@,
            job.tasks@,
            parts@,
            Scheduling::Static,
        ) ==> fixed is Ok,
        M::Parameters::obeys_eq_spec() && are_complete(
            job.name@,
            job.tasks@,
            parts@,
            Scheduling::Dynamic,
        ) ==> dynamic is Ok,
        fixed matches Ok(m) ==> forall|p: int, k: int|
            0 <= p < parts@.len() && 0 <= k < parts@[p].tasks@.len() ==> (
            #[trigger] parts@[p].tasks@[k]).task_index as int % parts@.len() as int
                == parts@[p].rank,
        fixed matches Ok(m) ==> m.tasks@.len() == job.tasks@.len() && forall|i: int|
            0 <= i < job.tasks@.len() ==> (#[trigger] m.tasks@[i]).completed && m.tasks@[i].task_index
                == i && m.tasks@[i].measurement_sweeps == job.tasks@[i].sweeps
                && m.tasks@[i].thermalization_sweeps == job.tasks@[i].thermalization,
        dynamic matches Ok(m) ==> m.tasks@.len() == job.tasks@.len() && forall|i: int|
            0 <= i < job.tasks@.len() ==> (#[trigger] m.tasks@[i]).completed && m.tasks@[i].task_index
                == i && m.tasks@[i].measurement_sweeps == job.tasks@[i].sweeps
                && m.tasks@[i].thermalization_sweeps == job.tasks@[i].thermalization,
{
    assert(parts.len() == parts@.len());
    if are_complete(job.name@, job.tasks@, parts@, Scheduling::Static) {
        lemma_complete_parts(job.name@, job.tasks@, parts@, Scheduling::Static);
    }
    if are_complete(job.name@, job.tasks@, parts@, Scheduling::Dynamic) {
        lemma_complete_parts(job.name@, job.tasks@, parts@, Scheduling::Dynamic);
    }
    if let Ok(m) = fixed {
        lemma_merged_tasks(job.tasks@, parts@, job.name@, Scheduling::Static, m);
        assert forall|p: int, k: int|
            0 <= p < parts@.len() && 0 <= k < parts@[p].tasks@.len() implies (
        #[trigger] parts@[p].tasks@[k]).task_index as int % parts@.len() as int
            == parts@[p].rank by {
            let part = parts@[p];
            assert(is_placed(
                part.tasks@[k],
                job.tasks@.len(),
                JobAssignment { rank: part.rank, world_size: parts@[0].world_size },
                Scheduling::Static,
            ));
        }
    }
    if let Ok(m) = dynamic {
        lemma_merged_tasks(job.tasks@, parts@, job.name@, Scheduling::Dynamic, m);
    }
}

proof fn lemma_merged_tasks<P>(
    tasks: Seq<Task<P>>,
    parts: Seq<JobResult<P>>,
    job_name: Seq<char>,
    scheduling: Scheduling,
    merged: JobResult<P>,
)
    requires
        is_merge(merged, job_name, tasks.len(), parts),
        all_have_settings_of(merged.tasks@, tasks),
        parts.len() > 0,
        parts_fit(job_name, tasks.len(), parts[0].world_size, parts, scheduling),
    ensures
        forall|i: int|
            0 <= i < tasks.len() ==> (#[trigger] merged.tasks@[i]).completed
                && merged.tasks@[i].task_index == i && merged.tasks@[i].measurement_sweeps
                == tasks[i].sweeps && merged.tasks@[i].thermalization_sweeps
                == tasks[i].thermalization,
{
    assert forall|i: int| 0 <= i < tasks.len() implies (#[trigger] merged.tasks@[i]).completed
        && merged.tasks@[i].task_index == i && merged.tasks@[i].measurement_sweeps
        == tasks[i].sweeps && merged.tasks@[i].thermalization_sweeps == tasks[i].thermalization by {
        let (p, k) = choose|p: int, k: int|
            0 <= p < parts.len() && 0 <= k < parts[p].tasks@.len() && merged.tasks@[i]
                == #[trigger] parts[p].tasks@[k];
        assert(is_placed(
            parts[p].tasks@[k],
            tasks.len(),
            JobAssignment { rank: parts[p].rank, world_size: parts[0].world_size },
            scheduling,
        ));
        assert(has_settings_of(merged.tasks@[i], tasks));
    }
}

/// The parts of a merge that succeeds are of the job and of one world, one for each rank, and each
/// of them is valid by itself.
pub proof fn law_merged_parts<M: MonteCarlo>(
    job: Job<M>,
    parts: Vec<JobResult<M::Parameters>>,
    scheduling: Scheduling,
    merged: JobResult<M::Parameters>,
    p: int,
    q: int,
    path: &str,
    checked: Result<(), GenericJobError>,
) where M::Parameters: PartialEq
    requires
        call_ensures(
            merge_results_with_scheduling::<M>,
            (&job, parts, scheduling),
            Ok::<JobResult<M::Parameters>, GenericJobError>(merged),
        ),
        0 <= p < parts@.len(),
        0 <= q < parts@.len(),
        call_ensures(
            validate_result_schema::<M::Parameters>,
            (path, &parts@[p]),
            checked,
        ),
    ensures
        p != q ==> parts@[p].rank != parts@[q].rank,
        parts@[p].rank < parts@.len(),
        parts@[p].world_size == parts@.len(),
        parts@[p].job_name@ == job.name@,
        checked is Ok,
{
    let a = parts@[p];
    let b = parts@[q];
    assert(result_fault(a) is None);
    assert(result_fault(b) is None);
    if p < q {
        assert(parts@[p].rank != parts@[q].rank);
    } else if q < p {
        assert(parts@[q].rank != parts@[p].rank);
    }
}

/// The tasks of a merge that succeeds have the parameters that the job's tasks have.
pub proof fn law_merged_parameters<M: MonteCarlo>(
    job: Job<M>,
    parts: Vec<JobResult<M::Parameters>>,
    scheduling: Scheduling,
    merged: JobResult<M::Parameters>,
    i: int,
) where M::Parameters: PartialEq
    requires
        M::Parameters::obeys_eq_spec(),
        call_ensures(
            merge_results_with_scheduling::<M>,
            (&job, parts, scheduling),
            Ok::<JobResult<M::Parameters>, GenericJobError>(merged),
        ),
        0 <= i < job.tasks@.len(),
    ensures
        merged.tasks@[i].task.parameters.eq_spec(&job.tasks@[i].parameters),
{
    assert(merge_fault(job.name@, job.tasks@, parts@, scheduling) is None);
    let world = parts@[0].world_size;
    let faults = part_faults(job.name@, job.tasks@, world, parts@, scheduling);
    lemma_no_fault(faults);
    assert(merged.tasks@[i].task_index == i);
    let (p, k) = choose|p: int, k: int|
        0 <= p < parts@.len() && 0 <= k < parts@[p].tasks@.len() && merged.tasks@[i]
            == #[trigger] parts@[p].tasks@[k];
    assert(faults[p] is None);
    assert(tasks_join(parts@.take(p), parts@[p], job.tasks@, scheduling));
    assert(is_accepted(
        parts@[p].tasks@[k],
        job.tasks@,
        JobAssignment { rank: parts@[p].rank, world_size: parts@[p].world_size },
        scheduling,
    ));
}

/// A refused merge says why: that there are no parts, that their number is not that of the ranks, or
/// of the first part with a fault that it is not valid, not of this merge, or has a task result that
/// does not belong in it. Parts without a fault are refused only because ranks or tasks are missing.
pub proof fn law_refused_merges<M: MonteCarlo>(
    job: Job<M>,
    parts: Vec<JobResult<M::Parameters>>,
    scheduling: Scheduling,
    e: GenericJobError,
) where M::Parameters: PartialEq
    requires
        M::Parameters::obeys_eq_spec(),
        call_ensures(
            merge_results_with_scheduling::<M>,
            (&job, parts, scheduling),
            Err::<JobResult<M::Parameters>, GenericJobError>(e),
        ),
    ensures
        parts@.len() == 0 ==> (e matches GenericJobError::Merge(r) && r@ == "no rank results"@),
        parts@.len() > 0 && parts@[0].world_size != parts@.len() ==> (
        e matches GenericJobError::Merge(r) && r@ == "rank set incomplete"@),
        parts@.len() > 0 && parts@[0].world_size == parts@.len() ==> match e {
            GenericJobError::Schema { path, reason: _ } => path@ == "<in-memory-result>"@,
            GenericJobError::Merge(r) => {
                ||| r@ == "job/world/rank mismatch"@
                ||| r@ == "task mismatch, wrong rank, wrong counts, duplicate, or incomplete"@
                ||| r@ == "rank or task set incomplete"@
            },
            _ => false,
        },
        parts@.len() > 0 && parts@[0].world_size == parts@.len() && parts@[0].rank
            >= parts@[0].world_size ==> e is Schema,
        parts@.len() > 0 && parts@[0].world_size == parts@.len() && result_fault(parts@[0]) is None
            && parts@[0].job_name@ != job.name@ ==> (e matches GenericJobError::Merge(r) && r@
            == "job/world/rank mismatch"@),
{
    assert(parts.len() == parts@.len());
    assert(merge_fault(job.name@, job.tasks@, parts@, scheduling) is Some);
    if parts@.len() > 0 && parts@[0].world_size == parts@.len() {
        let world = parts@[0].world_size;
        let faults = part_faults(job.name@, job.tasks@, world, parts@, scheduling);
        lemma_fault_kinds(faults);
        assert(parts@.take(0) =~= Seq::empty());
        if faults[0] is Some {
            lemma_first_fault(faults, 0);
        }
    }
}

/// The first fault among the parts is the fault of some part.
proof fn lemma_fault_kinds(faults: Seq<Option<MergeFault>>)
    ensures
        first_fault(faults) is Some ==> exists|i: int|
            0 <= i < faults.len() && #[trigger] faults[i] == first_fault(faults),
    decreases faults.len(),
{
    if faults.len() > 0 {
        let start = faults.drop_last();
        lemma_fault_kinds(start);
        if first_fault(start) is Some {
            let i = choose|i: int| 0 <= i < start.len() && #[trigger] start[i] == first_fault(start);
            assert(faults[i] == first_fault(faults));
        } else {
            assert(faults[faults.len() - 1] == first_fault(faults));
        }
    }
}

} // verus!
