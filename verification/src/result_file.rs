//! The result file: its layout, its writer and its reader.

#[allow(unused_imports)]
use crate::catalog::{
    ascending, distinct_names, has_name, lemma_ascending_distinct, lemma_ascending_unique,
    lemma_fresh_entry, lemma_same_names, same_entries,
};
use crate::catalog::Catalog;
use crate::error::{schema, GenericJobError};
#[allow(unused_imports)]
use crate::catalog::{lemma_value_of, value_of};
#[allow(unused_imports)]
use crate::error::is_schema_error;
use crate::estimate::ScalarEstimate;
#[allow(unused_imports)]
use crate::faults::{first_fault, lemma_first_fault, lemma_no_fault, or_fault};
#[allow(unused_imports)]
use crate::estimate::is_valid_scalar;
use crate::hdf5::{new_file, MAX_DEPTH};
#[allow(unused_imports)]
use crate::hdf5::{
    dataset_names, file_image, file_tree, finding_group, finishing, group_names, group_tree,
    groups_at, holds_file, holds_group, is_plain_name, is_writable, is_writable_file, joined,
    lemma_writable_branch, lemma_writable_leaf, listing_groups, AttributeView, FileTree, GroupTree,
};
#[allow(unused_imports)]
use crate::hdf5::reading_bytes;
#[allow(unused_imports)]
use crate::layout::{
    byte_stands_at, bytes_stand_at, law_exact_groups, law_lists_read_as_they_stand,
    law_numbered_groups, law_scalars_read_as_they_stand, members_stand_at, real_stands_at,
    text_stands_at, word_stands_at,
};
#[allow(unused_imports)]
use crate::layout::{
    byte_dataset, byte_fault, byte_in, bytes_dataset, checks, count_fault, count_in, failed, fails,
    fault_if, group_fault, groups_only_fault, json_fault, json_in, kind_fault,
    lemma_dataset_reads_back, lemma_leaf_reads_back, lemma_list_is_filled, lemma_numbered,
    lemma_root_attributes, lemma_scalar_is_filled, numbered, numbering_fault, real_dataset,
    real_fault, real_in, root_fault, slices, text_fault, text_in, word_dataset, word_fault, word_in,
    Fault,
};
use crate::layout::{
    add_bytes, add_f64, add_u64, add_u8, add_utf8, exact_group, exact_root_group, find_group,
    finish_hdf5, groups_only, member, numbered_groups, numbered_name, open_hdf5, read_f64_scalar,
    read_json, read_u64_scalar, read_u8_scalar, read_usize, read_utf8, set_root_attrs, subgroups,
    VERSION,
};
use crate::model::Task;
#[allow(unused_imports)]
use crate::number::Real;
#[allow(unused_imports)]
use crate::results::{is_valid_task_result, result_fault, TaskResultView};
use crate::results::{validate_result_schema, JobResult, TaskResult};
use crate::text::{letters, texts};
#[allow(unused_imports)]
use crate::text::{
    all_digits, digits_value, is_digit, lemma_four_digits, lemma_padded_value, padded, text_before,
};
use vstd::prelude::*;
#[allow(unused_imports)]
use vstd::utf8::{decode_utf8, encode_utf8, valid_utf8};

verus! {

/// The kind that the root of a result file names.
pub const KIND: &'static str = "carlo-mc-result";

/// The version of what a result file holds.
pub const RESULT_SCHEMA_VERSION: u64 = 1;

/// What a result file holds of one task. The task itself stands as a JSON text.
#[derive(Debug)]
pub struct StoredTask {
    pub task: Vec<u8>,
    pub task_index: usize,
    pub completed: bool,
    pub thermalization_sweeps: usize,
    pub measurement_sweeps: usize,
    pub observables: Catalog<ScalarEstimate>,
}

/// What a result file holds.
#[derive(Debug)]
pub struct StoredResult {
    pub job_name: String,
    pub rank: usize,
    pub world_size: usize,
    pub tasks: Vec<StoredTask>,
}

/// What a result file says of one task.
#[verifier::ext_equal]
pub struct StoredTaskView {
    pub task: Seq<u8>,
    pub task_index: usize,
    pub completed: bool,
    pub thermalization_sweeps: usize,
    pub measurement_sweeps: usize,
    pub observables: Seq<(Seq<char>, ScalarEstimate)>,
}

/// What a result file says.
#[verifier::ext_equal]
pub struct StoredResultView {
    pub job_name: Seq<char>,
    pub rank: usize,
    pub world_size: usize,
    pub tasks: Seq<StoredTaskView>,
}

impl View for StoredTask {
    type V = StoredTaskView;

    open spec fn view(&self) -> StoredTaskView {
        StoredTaskView {
            task: self.task@,
            task_index: self.task_index,
            completed: self.completed,
            thermalization_sweeps: self.thermalization_sweeps,
            measurement_sweeps: self.measurement_sweeps,
            observables: self.observables@,
        }
    }
}

impl View for StoredResult {
    type V = StoredResultView;

    open spec fn view(&self) -> StoredResultView {
        StoredResultView {
            job_name: self.job_name@,
            rank: self.rank,
            world_size: self.world_size,
            tasks: self.tasks@.map_values(|t: StoredTask| t@),
        }
    }
}

/// The group of one estimate.
pub open spec fn estimate_tree(index: nat, entry: (Seq<char>, ScalarEstimate)) -> GroupTree {
    GroupTree {
        name: numbered("observable"@, index),
        datasets: seq![
            bytes_dataset("name"@, encode_utf8(entry.0)),
            real_dataset("mean"@, entry.1.mean),
            real_dataset("stderr"@, entry.1.stderr),
            word_dataset("internal_bins"@, entry.1.internal_bins as u64),
            word_dataset("rebin_length"@, entry.1.rebin_length as u64),
            word_dataset("rebin_count"@, entry.1.rebin_count as u64),
            word_dataset("bin_length"@, entry.1.bin_length as u64),
        ],
        groups: Seq::empty(),
    }
}

/// The groups of the estimates of a task, numbered in order.
pub open spec fn estimate_trees(observables: Seq<(Seq<char>, ScalarEstimate)>) -> Seq<GroupTree> {
    Seq::new(observables.len(), |i: int| estimate_tree(i as nat, observables[i]))
}

/// The group that holds the estimates of a task.
pub open spec fn estimates_tree(observables: Seq<(Seq<char>, ScalarEstimate)>) -> GroupTree {
    GroupTree {
        name: "observables"@,
        datasets: Seq::empty(),
        groups: estimate_trees(observables),
    }
}

/// The group that holds the sweep counts of a task.
pub open spec fn counts_tree(t: StoredTaskView) -> GroupTree {
    GroupTree {
        name: "progress"@,
        datasets: seq![
            word_dataset("thermalization_sweeps"@, t.thermalization_sweeps as u64),
            word_dataset("measurement_sweeps"@, t.measurement_sweeps as u64),
        ],
        groups: Seq::empty(),
    }
}

/// The group of one task.
pub open spec fn task_tree(index: nat, t: StoredTaskView) -> GroupTree {
    GroupTree {
        name: numbered("task"@, index),
        datasets: seq![
            bytes_dataset("task"@, t.task),
            word_dataset("index"@, t.task_index as u64),
            byte_dataset("completed"@, flag_byte(t.completed)),
        ],
        groups: seq![counts_tree(t), estimates_tree(t.observables)],
    }
}

/// The byte of a flag.
pub open spec fn flag_byte(flag: bool) -> u8 {
    if flag {
        1
    } else {
        0
    }
}

/// The groups of the tasks, numbered in order.
pub open spec fn task_trees(tasks: Seq<StoredTaskView>) -> Seq<GroupTree> {
    Seq::new(tasks.len(), |i: int| task_tree(i as nat, tasks[i]))
}

/// The group of what identifies a result.
pub open spec fn result_metadata_tree(r: StoredResultView) -> GroupTree {
    GroupTree {
        name: "metadata"@,
        datasets: seq![
            word_dataset("schema"@, RESULT_SCHEMA_VERSION),
            bytes_dataset("job"@, encode_utf8(r.job_name)),
        ],
        groups: Seq::empty(),
    }
}

/// The group of the rank and the number of ranks.
pub open spec fn result_assignment_tree(r: StoredResultView) -> GroupTree {
    GroupTree {
        name: "assignment"@,
        datasets: seq![
            word_dataset("rank"@, r.rank as u64),
            word_dataset("world_size"@, r.world_size as u64),
        ],
        groups: Seq::empty(),
    }
}

/// The group of all tasks.
pub open spec fn tasks_tree(r: StoredResultView) -> GroupTree {
    GroupTree { name: "tasks"@, datasets: Seq::empty(), groups: task_trees(r.tasks) }
}

/// The layout of a result file.
pub open spec fn result_tree(r: StoredResultView) -> FileTree {
    FileTree {
        attributes: seq![
            ("carlo_kind"@, AttributeView::Text(KIND@)),
            ("schema_version"@, AttributeView::Word(VERSION)),
        ],
        groups: seq![result_metadata_tree(r), result_assignment_tree(r), tasks_tree(r)],
    }
}

proof fn lemma_result_names_are_plain()
    ensures
        is_plain_name("carlo_kind"@),
        is_plain_name("schema_version"@),
        is_plain_name("metadata"@),
        is_plain_name("assignment"@),
        is_plain_name("tasks"@),
        is_plain_name("progress"@),
        is_plain_name("observables"@),
        is_plain_name("observable"@),
        is_plain_name("task"@),
        is_plain_name("schema"@),
        is_plain_name("job"@),
        is_plain_name("rank"@),
        is_plain_name("world_size"@),
        is_plain_name("index"@),
        is_plain_name("completed"@),
        is_plain_name("thermalization_sweeps"@),
        is_plain_name("measurement_sweeps"@),
        is_plain_name("name"@),
        is_plain_name("mean"@),
        is_plain_name("stderr"@),
        is_plain_name("internal_bins"@),
        is_plain_name("rebin_length"@),
        is_plain_name("rebin_count"@),
        is_plain_name("bin_length"@),
{
    reveal_strlit("carlo_kind");
    reveal_strlit("schema_version");
    reveal_strlit("metadata");
    reveal_strlit("assignment");
    reveal_strlit("tasks");
    reveal_strlit("progress");
    reveal_strlit("observables");
    reveal_strlit("observable");
    reveal_strlit("task");
    reveal_strlit("schema");
    reveal_strlit("job");
    reveal_strlit("rank");
    reveal_strlit("world_size");
    reveal_strlit("index");
    reveal_strlit("completed");
    reveal_strlit("thermalization_sweeps");
    reveal_strlit("measurement_sweeps");
    reveal_strlit("name");
    reveal_strlit("mean");
    reveal_strlit("stderr");
    reveal_strlit("internal_bins");
    reveal_strlit("rebin_length");
    reveal_strlit("rebin_count");
    reveal_strlit("bin_length");
}

/// Whether the estimates of a task are small enough for the file: names that fit a word in
/// length, and no more than four digits can number.
pub open spec fn estimates_fit(observables: Seq<(Seq<char>, ScalarEstimate)>) -> bool {
    &&& observables.len() <= 10_000
    &&& forall|i: int|
        0 <= i < observables.len() ==> encode_utf8((#[trigger] observables[i]).0).len() <= u64::MAX
}

/// Whether a result is small enough for its file.
pub open spec fn result_fits_file(r: StoredResultView) -> bool {
    &&& encode_utf8(r.job_name).len() <= u64::MAX
    &&& r.tasks.len() <= 10_000
    &&& forall|i: int|
        0 <= i < r.tasks.len() ==> (#[trigger] r.tasks[i]).task.len() <= u64::MAX && estimates_fit(
            r.tasks[i].observables,
        )
}

proof fn lemma_estimate_is_writable(index: nat, entry: (Seq<char>, ScalarEstimate))
    requires
        encode_utf8(entry.0).len() <= u64::MAX,
    ensures
        is_writable(estimate_tree(index, entry), (MAX_DEPTH - 3) as nat),
{
    lemma_result_names_are_plain();
    lemma_numbered("observable"@, index, index);
    lemma_list_is_filled("name"@);
    lemma_scalar_is_filled("mean"@);
    lemma_scalar_is_filled("stderr"@);
    lemma_scalar_is_filled("internal_bins"@);
    lemma_scalar_is_filled("rebin_length"@);
    lemma_scalar_is_filled("rebin_count"@);
    lemma_scalar_is_filled("bin_length"@);
    reveal_strlit("name");
    reveal_strlit("mean");
    reveal_strlit("stderr");
    reveal_strlit("internal_bins");
    reveal_strlit("rebin_length");
    reveal_strlit("rebin_count");
    reveal_strlit("bin_length");
    assert("name"@[0] != "mean"@[0]);
    lemma_writable_leaf(estimate_tree(index, entry), (MAX_DEPTH - 3) as nat);
}

proof fn lemma_estimates_are_writable(observables: Seq<(Seq<char>, ScalarEstimate)>)
    requires
        estimates_fit(observables),
    ensures
        is_writable(estimates_tree(observables), (MAX_DEPTH - 2) as nat),
{
    lemma_result_names_are_plain();
    let tree = estimates_tree(observables);
    assert forall|i: int, j: int| 0 <= i < j < tree.groups.len() implies (
    #[trigger] tree.groups[i]).name != (#[trigger] tree.groups[j]).name by {
        lemma_numbered("observable"@, i as nat, j as nat);
    }
    assert forall|i: int| 0 <= i < tree.groups.len() implies is_writable(
        #[trigger] tree.groups[i],
        (MAX_DEPTH - 3) as nat,
    ) by {
        lemma_estimate_is_writable(i as nat, observables[i]);
    }
    lemma_writable_branch(tree, (MAX_DEPTH - 2) as nat);
}

proof fn lemma_task_is_writable(index: nat, t: StoredTaskView)
    requires
        t.task.len() <= u64::MAX,
        estimates_fit(t.observables),
    ensures
        is_writable(task_tree(index, t), (MAX_DEPTH - 1) as nat),
{
    lemma_result_names_are_plain();
    lemma_numbered("task"@, index, index);
    lemma_list_is_filled("task"@);
    lemma_scalar_is_filled("index"@);
    lemma_scalar_is_filled("completed"@);
    lemma_scalar_is_filled("thermalization_sweeps"@);
    lemma_scalar_is_filled("measurement_sweeps"@);
    reveal_strlit("thermalization_sweeps");
    reveal_strlit("measurement_sweeps");
    lemma_writable_leaf(counts_tree(t), (MAX_DEPTH - 2) as nat);
    lemma_estimates_are_writable(t.observables);
    reveal_strlit("task");
    reveal_strlit("index");
    reveal_strlit("completed");
    reveal_strlit("progress");
    reveal_strlit("observables");
    let tree = task_tree(index, t);
    let names = dataset_names(tree.datasets) + group_names(tree.groups);
    assert(names =~= seq!["task"@, "index"@, "completed"@, "progress"@, "observables"@]);
    assert(names.no_duplicates());
}

proof fn lemma_result_is_writable(r: StoredResultView)
    requires
        result_fits_file(r),
    ensures
        is_writable_file(result_tree(r)),
{
    lemma_result_names_are_plain();
    lemma_scalar_is_filled("schema"@);
    lemma_list_is_filled("job"@);
    lemma_scalar_is_filled("rank"@);
    lemma_scalar_is_filled("world_size"@);
    reveal_strlit("schema");
    reveal_strlit("job");
    lemma_writable_leaf(result_metadata_tree(r), MAX_DEPTH as nat);
    reveal_strlit("rank");
    reveal_strlit("world_size");
    lemma_writable_leaf(result_assignment_tree(r), MAX_DEPTH as nat);
    let tasks = tasks_tree(r);
    assert forall|i: int, j: int| 0 <= i < j < tasks.groups.len() implies (
    #[trigger] tasks.groups[i]).name != (#[trigger] tasks.groups[j]).name by {
        lemma_numbered("task"@, i as nat, j as nat);
    }
    assert forall|i: int| 0 <= i < tasks.groups.len() implies is_writable(
        #[trigger] tasks.groups[i],
        (MAX_DEPTH - 1) as nat,
    ) by {
        lemma_task_is_writable(i as nat, r.tasks[i]);
    }
    lemma_writable_branch(tasks, MAX_DEPTH as nat);
    let file = result_tree(r);
    reveal_strlit("metadata");
    reveal_strlit("assignment");
    reveal_strlit("tasks");
    reveal_strlit("carlo_kind");
    reveal_strlit("schema_version");
    reveal_strlit("carlo-mc-result");
    assert(!KIND@.contains('\0'));
    assert(group_names(file.groups) =~= seq!["metadata"@, "assignment"@, "tasks"@]);
}

/// Adds the estimates of a task to its group.
fn add_estimates(result_group: &mut hdf5_pure::GroupBuilder, observables: &Catalog<ScalarEstimate>)
    ensures
        group_tree(*final(result_group)) == crate::hdf5::with_group(
            group_tree(*old(result_group)),
            estimates_tree(observables@),
        ),
        forall|i: int|
            0 <= i < observables@.len() ==> encode_utf8((#[trigger] observables@[i]).0).len()
                <= u64::MAX,
{
    let mut group = result_group.create_group("observables");
    let count: usize = observables.len();
    let mut index: usize = 0;
    assert(estimate_trees(observables@).take(0) =~= Seq::empty());
    while index < count
        invariant
            index <= count,
            count == observables@.len(),
            group_tree(group) == (GroupTree {
                name: "observables"@,
                datasets: Seq::empty(),
                groups: estimate_trees(observables@).take(index as int),
            }),
            forall|i: int|
                0 <= i < index ==> encode_utf8((#[trigger] observables@[i]).0).len() <= u64::MAX,
        decreases count - index,
    {
        let ghost entry = observables@[index as int];
        let estimate = observables.value_at(index);
        let mut observable = group.create_group(numbered_name("observable", index).as_str());
        add_utf8(&mut observable, "name", observables.name_at(index).as_str());
        add_f64(&mut observable, "mean", estimate.mean);
        add_f64(&mut observable, "stderr", estimate.stderr);
        add_u64(&mut observable, "internal_bins", estimate.internal_bins as u64);
        add_u64(&mut observable, "rebin_length", estimate.rebin_length as u64);
        add_u64(&mut observable, "rebin_count", estimate.rebin_count as u64);
        add_u64(&mut observable, "bin_length", estimate.bin_length as u64);
        assert(group_tree(observable) =~= estimate_tree(index as nat, entry));
        group.add_group(observable.finish());
        index = index + 1;
        assert(estimate_trees(observables@).take(index as int) =~= estimate_trees(
            observables@,
        ).take(index - 1).push(estimate_tree((index - 1) as nat, entry)));
    }
    assert(estimate_trees(observables@).take(index as int) =~= estimate_trees(observables@));
    result_group.add_group(group.finish());
}

/// Why a result cannot be written: it has too many tasks or observables, or the HDF5 library gives
/// up on it.
pub open spec fn writing_fault(r: StoredResultView) -> Fault {
    or_fault(
        fault_if(r.tasks.len() > 10_000, "too many result tasks for four-digit names"@),
        or_fault(
            fault_if(
                exists|i: int|
                    0 <= i < r.tasks.len() && (#[trigger] r.tasks[i]).observables.len() > 10_000,
                "too many result observables for four-digit names"@,
            ),
            failed(finishing(result_tree(r))),
        ),
    )
}

/// Whether writing a result gave a file that holds it, or reported why it cannot be written.
pub open spec fn writes_result(
    path: Seq<char>,
    r: StoredResultView,
    image: Result<Vec<u8>, GenericJobError>,
) -> bool {
    match image {
        Ok(bytes) => {
            &&& writing_fault(r) is None
            &&& result_fits_file(r)
            &&& forall|i: int|
                0 <= i < r.tasks.len() ==> ascending((#[trigger] r.tasks[i]).observables)
            &&& holds_file(bytes@, result_tree(r))
        },
        Err(e) => fails(e, path, writing_fault(r)),
    }
}

/// Encodes a result.
pub fn write_result(path: &str, result: &StoredResult) -> (image: Result<Vec<u8>, GenericJobError>)
    ensures
        writes_result(path@, result@, image),
{
    let ghost r = result@;
    if result.tasks.len() > 10_000 {
        return Err(schema(path, "too many result tasks for four-digit names"));
    }
    let mut builder = new_file();
    set_root_attrs(&mut builder, KIND);

    let mut metadata = builder.create_group("metadata");
    add_u64(&mut metadata, "schema", RESULT_SCHEMA_VERSION);
    add_utf8(&mut metadata, "job", result.job_name.as_str());
    assert(group_tree(metadata) =~= result_metadata_tree(r));
    builder.add_group(metadata.finish());

    let mut assignment = builder.create_group("assignment");
    add_u64(&mut assignment, "rank", result.rank as u64);
    add_u64(&mut assignment, "world_size", result.world_size as u64);
    assert(group_tree(assignment) =~= result_assignment_tree(r));
    builder.add_group(assignment.finish());

    let mut tasks = builder.create_group("tasks");
    let mut index: usize = 0;
    assert(task_trees(r.tasks).take(0) =~= Seq::empty());
    while index < result.tasks.len()
        invariant
            index <= result.tasks.len(),
            r == result@,
            group_tree(tasks) == (GroupTree {
                name: "tasks"@,
                datasets: Seq::empty(),
                groups: task_trees(r.tasks).take(index as int),
            }),
            r.tasks.len() <= 10_000,
            forall|i: int|
                0 <= i < index ==> (#[trigger] r.tasks[i]).task.len() <= u64::MAX && estimates_fit(
                    r.tasks[i].observables,
                ) && ascending(r.tasks[i].observables),
        decreases result.tasks.len() - index,
    {
        let stored = &result.tasks[index];
        let ghost t = r.tasks[index as int];
        assert(t == stored@);
        if stored.observables.len() > 10_000 {
            return Err(schema(path, "too many result observables for four-digit names"));
        }
        let mut result_group = tasks.create_group(numbered_name("task", index).as_str());
        add_bytes(&mut result_group, "task", stored.task.as_slice());
        add_u64(&mut result_group, "index", stored.task_index as u64);
        let flag: u8 = if stored.completed {
            1
        } else {
            0
        };
        add_u8(&mut result_group, "completed", flag);

        let mut progress = result_group.create_group("progress");
        add_u64(&mut progress, "thermalization_sweeps", stored.thermalization_sweeps as u64);
        add_u64(&mut progress, "measurement_sweeps", stored.measurement_sweeps as u64);
        assert(group_tree(progress) =~= counts_tree(t));
        result_group.add_group(progress.finish());

        add_estimates(&mut result_group, &stored.observables);
        proof {
            let made = group_tree(result_group);
            let wanted = task_tree(index as nat, t);
            assert(made.name == wanted.name);
            assert(made.datasets =~= wanted.datasets);
            assert(made.groups =~= wanted.groups);
            assert(made == wanted);
        }
        tasks.add_group(result_group.finish());
        index = index + 1;
        assert(task_trees(r.tasks).take(index as int) =~= task_trees(r.tasks).take(index - 1).push(
            task_tree((index - 1) as nat, t),
        ));
    }
    assert(task_trees(r.tasks).take(index as int) =~= task_trees(r.tasks));
    builder.add_group(tasks.finish());
    assert(file_tree(builder) =~= result_tree(r));
    proof {
        lemma_result_is_writable(r);
    }
    finish_hdf5(path, builder)
}

/// The names of the datasets of an estimate.
pub open spec fn estimate_members() -> Seq<Seq<char>> {
    seq![
        "name"@,
        "mean"@,
        "stderr"@,
        "internal_bins"@,
        "rebin_length"@,
        "rebin_count"@,
        "bin_length"@,
    ]
}

/// Why a group of a file holds no estimate.
pub open spec fn estimate_fault(image: Seq<u8>, base: Seq<char>) -> Fault {
    or_fault(
        group_fault(image, base, estimate_members(), Seq::empty()),
        or_fault(
            text_fault(image, joined(base, "name"@)),
            or_fault(
                real_fault(image, joined(base, "mean"@)),
                or_fault(
                    real_fault(image, joined(base, "stderr"@)),
                    or_fault(
                        count_fault(image, joined(base, "internal_bins"@)),
                        or_fault(
                            count_fault(image, joined(base, "rebin_length"@)),
                            or_fault(
                                count_fault(image, joined(base, "rebin_count"@)),
                                count_fault(image, joined(base, "bin_length"@)),
                            ),
                        ),
                    ),
                ),
            ),
        ),
    )
}

/// The estimate that a group of a file holds.
pub open spec fn estimate_in(image: Seq<u8>, base: Seq<char>) -> Option<
    (Seq<char>, ScalarEstimate),
> {
    if estimate_fault(image, base) is None {
        Some(
            (
                text_in(image, joined(base, "name"@))->0,
                ScalarEstimate {
                    mean: real_in(image, joined(base, "mean"@))->0,
                    stderr: real_in(image, joined(base, "stderr"@))->0,
                    internal_bins: count_in(image, joined(base, "internal_bins"@))->0,
                    rebin_length: count_in(image, joined(base, "rebin_length"@))->0,
                    rebin_count: count_in(image, joined(base, "rebin_count"@))->0,
                    bin_length: count_in(image, joined(base, "bin_length"@))->0,
                },
            ),
        )
    } else {
        None
    }
}

/// The path of a numbered estimate.
pub open spec fn estimate_path(base: Seq<char>, index: nat) -> Seq<char> {
    joined(base, numbered("observable"@, index))
}

/// The estimates that a group holds, in the order of their numbers.
pub open spec fn estimates_in(image: Seq<u8>, base: Seq<char>) -> Seq<(Seq<char>, ScalarEstimate)> {
    Seq::new(
        groups_at(image, base).len(),
        |i: int| estimate_in(image, estimate_path(base, i as nat))->0,
    )
}

/// Why the estimate with a number cannot be read. Its name must differ from those of the
/// estimates before it.
pub open spec fn entry_fault(image: Seq<u8>, base: Seq<char>, index: int) -> Fault {
    or_fault(
        estimate_fault(image, estimate_path(base, index as nat)),
        fault_if(
            has_name(estimates_in(image, base).take(index), estimates_in(image, base)[index].0),
            "duplicate result observable name"@,
        ),
    )
}

/// Why the estimates with their numbers cannot be read, one by one.
pub open spec fn entry_faults(image: Seq<u8>, base: Seq<char>) -> Seq<Fault> {
    Seq::new(groups_at(image, base).len(), |i: int| entry_fault(image, base, i))
}

/// Why the estimates of a group cannot be read.
pub open spec fn estimates_fault(image: Seq<u8>, base: Seq<char>) -> Fault {
    or_fault(
        failed(finding_group(image, base)),
        or_fault(
            numbering_fault(image, base, "observable"@),
            or_fault(groups_only_fault(image, base), first_fault(entry_faults(image, base))),
        ),
    )
}

/// Why a group of a file is not the group of a task, up to the text of the task.
pub open spec fn task_head_fault(image: Seq<u8>, base: Seq<char>) -> Fault {
    or_fault(
        group_fault(
            image,
            base,
            seq!["task"@, "index"@, "completed"@],
            seq!["progress"@, "observables"@],
        ),
        or_fault(
            count_fault(image, joined(base, "index"@)),
            json_fault(image, joined(base, "task"@)),
        ),
    )
}

/// Why a group of a file is not the group of a task, behind the text of the task.
pub open spec fn task_rest_fault(image: Seq<u8>, base: Seq<char>) -> Fault {
    let progress = joined(base, "progress"@);
    or_fault(
        group_fault(
            image,
            progress,
            seq!["thermalization_sweeps"@, "measurement_sweeps"@],
            Seq::empty(),
        ),
        or_fault(
            estimates_fault(image, joined(base, "observables"@)),
            or_fault(
                byte_fault(image, joined(base, "completed"@)),
                or_fault(
                    fault_if(
                        byte_in(image, joined(base, "completed"@))->0 > 1,
                        "invalid result completion flag"@,
                    ),
                    or_fault(
                        count_fault(image, joined(progress, "thermalization_sweeps"@)),
                        count_fault(image, joined(progress, "measurement_sweeps"@)),
                    ),
                ),
            ),
        ),
    )
}

/// Why a group of a file is not the group of a task.
pub open spec fn task_fault(image: Seq<u8>, base: Seq<char>) -> Fault {
    or_fault(task_head_fault(image, base), task_rest_fault(image, base))
}

/// Whether a name is a prefix and four digits.
pub open spec fn is_indexed(name: Seq<char>, prefix: Seq<char>) -> bool {
    exists|n: nat| n < 10_000 && name == #[trigger] numbered(prefix, n)
}

/// Why the name of a task group is not the one that its place asks for.
pub open spec fn task_name_fault(name: Seq<char>, index: int) -> Fault {
    or_fault(
        fault_if(!is_indexed(name, "task"@), "invalid indexed result group name"@),
        fault_if(
            index >= 10_000 || name != numbered("task"@, index as nat),
            "invalid four-digit result task sequence"@,
        ),
    )
}

/// Why the task at a place cannot be read, up to its text.
pub open spec fn start_fault(image: Seq<u8>, index: int) -> Fault {
    or_fault(
        task_name_fault(groups_at(image, "tasks"@)[index], index),
        task_head_fault(image, task_group_path(index as nat)),
    )
}

/// Why the tasks of a file cannot be read, one by one.
pub open spec fn task_faults(image: Seq<u8>) -> Seq<Fault> {
    Seq::new(
        groups_at(image, "tasks"@).len(),
        |i: int|
            or_fault(start_fault(image, i), task_rest_fault(image, task_group_path(i as nat))),
    )
}

/// Why the tasks of a file cannot be listed.
pub open spec fn tasks_group_fault(image: Seq<u8>) -> Fault {
    or_fault(
        failed(finding_group(image, "tasks"@)),
        or_fault(failed(listing_groups(image, "tasks"@)), groups_only_fault(image, "tasks"@)),
    )
}

/// Why the groups of a file are not those of a result, its kind left aside.
pub open spec fn layout_fault(image: Seq<u8>) -> Fault {
    or_fault(
        root_fault(
            image,
            Seq::empty(),
            Seq::empty(),
            seq!["metadata"@, "assignment"@, "tasks"@],
        ),
        or_fault(
            group_fault(image, "metadata"@, seq!["schema"@, "job"@], Seq::empty()),
            group_fault(image, "assignment"@, seq!["rank"@, "world_size"@], Seq::empty()),
        ),
    )
}

/// Why a file is not a result file, as far as its tasks.
pub open spec fn head_fault(image: Seq<u8>) -> Fault {
    let version = joined("metadata"@, "schema"@);
    or_fault(
        kind_fault(image, KIND@),
        or_fault(
            layout_fault(image),
            or_fault(
                word_fault(image, version),
                fault_if(
                    word_in(image, version)->0 != RESULT_SCHEMA_VERSION,
                    "unsupported result schema"@,
                ),
            ),
        ),
    )
}

/// Why a file is not a result file.
pub open spec fn file_fault(image: Seq<u8>) -> Fault {
    or_fault(
        head_fault(image),
        or_fault(
            tasks_group_fault(image),
            or_fault(
                first_fault(task_faults(image)),
                or_fault(
                    text_fault(image, joined("metadata"@, "job"@)),
                    or_fault(
                        count_fault(image, joined("assignment"@, "rank"@)),
                        count_fault(image, joined("assignment"@, "world_size"@)),
                    ),
                ),
            ),
        ),
    )
}

/// Whether these are the texts of the tasks that a reader comes to in a file: those in front of the
/// first fault, in order.
pub open spec fn reached(image: Seq<u8>, listed: Seq<Vec<u8>>) -> bool {
    let count = groups_at(image, "tasks"@).len();
    if head_fault(image) is Some || tasks_group_fault(image) is Some {
        listed.len() == 0
    } else {
        &&& listed.len() <= count
        &&& forall|i: int| 0 <= i < listed.len() ==> reaches(image, i, #[trigger] listed[i])
        &&& listed.len() < count ==> stops_before(image, listed.len() as int)
    }
}

/// Whether a reader comes to the task at a place and finds this text.
pub open spec fn reaches(image: Seq<u8>, index: int, text: Vec<u8>) -> bool {
    &&& start_fault(image, index) is None
    &&& json_in(image, joined(task_group_path(index as nat), "task"@)) == Some(text@)
    &&& forall|k: int| 0 <= k < index ==> #[trigger] task_faults(image)[k] is None
}

/// Whether a reader that came to the task in front of a place does not come to the task there.
pub open spec fn stops_before(image: Seq<u8>, index: int) -> bool {
    index > 0 && task_faults(image)[index - 1] is Some || start_fault(image, index) is Some
}

/// Whether a group of a file is the group of a task that says `t`.
pub open spec fn task_in(image: Seq<u8>, base: Seq<char>, t: StoredTaskView) -> bool {
    &&& task_fault(image, base) is None
    &&& count_in(image, joined(base, "index"@)) == Some(t.task_index)
    &&& json_in(image, joined(base, "task"@)) == Some(t.task)
    &&& ascending(t.observables)
    &&& same_entries(t.observables, estimates_in(image, joined(base, "observables"@)))
    &&& byte_in(image, joined(base, "completed"@)) == Some(flag_byte(t.completed))
    &&& count_in(image, joined(joined(base, "progress"@), "thermalization_sweeps"@)) == Some(
        t.thermalization_sweeps,
    )
    &&& count_in(image, joined(joined(base, "progress"@), "measurement_sweeps"@)) == Some(
        t.measurement_sweeps,
    )
}

/// The path of a numbered task.
pub open spec fn task_group_path(index: nat) -> Seq<char> {
    joined("tasks"@, numbered("task"@, index))
}

/// Whether a file is a result file that says `r`.
pub open spec fn result_in(image: Seq<u8>, r: StoredResultView) -> bool {
    &&& file_fault(image) is None
    &&& r.tasks.len() == groups_at(image, "tasks"@).len()
    &&& forall|i: int|
        0 <= i < r.tasks.len() ==> task_in(image, task_group_path(i as nat), #[trigger] r.tasks[i])
    &&& text_in(image, joined("metadata"@, "job"@)) == Some(r.job_name)
    &&& count_in(image, joined("assignment"@, "rank"@)) == Some(r.rank)
    &&& count_in(image, joined("assignment"@, "world_size"@)) == Some(r.world_size)
}

/// Reads the number of a group that is named by a prefix and four digits.
pub(crate) fn parse_indexed_group(path: &str, name: &str, prefix: &str) -> (index: Result<
    usize,
    GenericJobError,
>)
    ensures
        match index {
            Ok(n) => n < 10_000 && name@ == numbered(prefix@, n as nat),
            Err(e) => is_schema_error(e, path@, "invalid indexed result group name"@)
                && !is_indexed(name@, prefix@),
        },
{
    let chars = letters(name);
    let start = letters(prefix);
    let ghost fits = chars@.len() == start@.len() + 4 && chars@.take(start@.len() as int)
        == start@ && all_digits(chars@.skip(start@.len() as int));
    proof {
        assert forall|n: nat| n < 10_000 && name@ == #[trigger] numbered(
            prefix@,
            n,
        ) implies fits by {
            lemma_padded_value(n);
            assert(chars@.take(start@.len() as int) =~= start@);
            assert(chars@.skip(start@.len() as int) =~= padded(n));
        }
    }
    if chars.len() < start.len() || chars.len() - start.len() != 4 {
        return Err(schema(path, "invalid indexed result group name"));
    }
    let mut index: usize = 0;
    while index < start.len()
        invariant
            index <= start.len(),
            chars@.len() == start@.len() + 4,
            chars@ == name@,
            start@ == prefix@,
            fits == (chars@.len() == start@.len() + 4 && chars@.take(start@.len() as int) == start@
                && all_digits(chars@.skip(start@.len() as int))),
            forall|n: nat| n < 10_000 && name@ == #[trigger] numbered(prefix@, n) ==> fits,
            forall|i: int| 0 <= i < index ==> #[trigger] chars@[i] == start@[i],
        decreases start.len() - index,
    {
        if chars[index] != start[index] {
            proof {
                if fits {
                    assert(chars@.take(start@.len() as int)[index as int] == start@[index as int]);
                }
            }
            return Err(schema(path, "invalid indexed result group name"));
        }
        index = index + 1;
    }
    assert(chars@.take(start@.len() as int) =~= start@);
    let ghost digits = chars@.skip(start@.len() as int);
    let mut value: usize = 0;
    let mut place: usize = 0;
    assert(digits.take(0) =~= Seq::empty());
    while place < 4
        invariant
            place <= 4,
            chars@.len() == start@.len() + 4,
            chars@ == name@,
            start@ == prefix@,
            digits == chars@.skip(start@.len() as int),
            fits == (chars@.len() == start@.len() + 4 && chars@.take(start@.len() as int) == start@
                && all_digits(chars@.skip(start@.len() as int))),
            forall|n: nat| n < 10_000 && name@ == #[trigger] numbered(prefix@, n) ==> fits,
            forall|i: int| 0 <= i < place ==> is_digit(#[trigger] digits[i]),
            value == digits_value(digits.take(place as int)),
            place == 0 ==> value == 0,
            place == 1 ==> value < 10,
            place == 2 ==> value < 100,
            place == 3 ==> value < 1000,
            place == 4 ==> value < 10_000,
        decreases 4 - place,
    {
        let c: char = chars[chars.len() - 4 + place];
        assert(digits[place as int] == c);
        if c < '0' || c > '9' {
            assert(!is_digit(digits[place as int]));
            return Err(schema(path, "invalid indexed result group name"));
        }
        assert(digits.take(place + 1).drop_last() =~= digits.take(place as int));
        value = value * 10 + (c as u32 - 48) as usize;
        place = place + 1;
    }
    proof {
        assert(digits.take(4) =~= digits);
        lemma_four_digits(digits);
        assert(name@ =~= prefix@ + digits);
    }
    Ok(value)
}

/// Checks the groups of a result file.
fn check_result_layout(path: &str, file: &hdf5_pure::File) -> (checked: Result<(), GenericJobError>)
    ensures
        checks(checked, path@, layout_fault(file_image(*file))),
{
    let none: [&str; 0] = [];
    let root: [&str; 3] = ["metadata", "assignment", "tasks"];
    let metadata: [&str; 2] = ["schema", "job"];
    let assignment: [&str; 2] = ["rank", "world_size"];
    assert(slices(none@) =~= Seq::empty());
    assert(slices(root@) =~= seq!["metadata"@, "assignment"@, "tasks"@]);
    assert(slices(metadata@) =~= seq!["schema"@, "job"@]);
    assert(slices(assignment@) =~= seq!["rank"@, "world_size"@]);
    exact_root_group(path, file.root(), &none, &root)?;
    exact_group(path, find_group(path, file, "metadata")?, &metadata, &none)?;
    exact_group(path, find_group(path, file, "assignment")?, &assignment, &none)
}

/// Reads one estimate.
fn read_estimate(path: &str, file: &hdf5_pure::File, base: &str) -> (entry: Result<
    (String, ScalarEstimate),
    GenericJobError,
>)
    ensures
        match entry {
            Ok((name, estimate)) => estimate_in(file_image(*file), base@) == Some(
                (name@, estimate),
            ),
            Err(e) => fails(e, path@, estimate_fault(file_image(*file), base@)),
        },
{
    let none: [&str; 0] = [];
    let members: [&str; 7] = [
        "name",
        "mean",
        "stderr",
        "internal_bins",
        "rebin_length",
        "rebin_count",
        "bin_length",
    ];
    assert(slices(none@) =~= Seq::empty());
    assert(slices(members@) =~= estimate_members());
    exact_group(path, find_group(path, file, base)?, &members, &none)?;
    let name = read_utf8(path, file, member(base, "name").as_str())?;
    let estimate = ScalarEstimate {
        mean: read_f64_scalar(path, file, member(base, "mean").as_str())?,
        stderr: read_f64_scalar(path, file, member(base, "stderr").as_str())?,
        internal_bins: read_usize(path, file, member(base, "internal_bins").as_str())?,
        rebin_length: read_usize(path, file, member(base, "rebin_length").as_str())?,
        rebin_count: read_usize(path, file, member(base, "rebin_count").as_str())?,
        bin_length: read_usize(path, file, member(base, "bin_length").as_str())?,
    };
    Ok((name, estimate))
}

/// Reads all estimates of a task.
fn read_estimates(path: &str, file: &hdf5_pure::File, base: &str) -> (observables: Result<
    Catalog<ScalarEstimate>,
    GenericJobError,
>)
    ensures
        match observables {
            Ok(catalog) => {
                &&& estimates_fault(file_image(*file), base@) is None
                &&& ascending(catalog@)
                &&& same_entries(catalog@, estimates_in(file_image(*file), base@))
            },
            Err(e) => fails(e, path@, estimates_fault(file_image(*file), base@)),
        },
{
    let ghost image = file_image(*file);
    let parent = find_group(path, file, base)?;
    let groups = numbered_groups(path, &parent, "observable")?;
    groups_only(path, &parent)?;
    let ghost held = estimates_in(image, base@);
    let ghost faults = entry_faults(image, base@);
    let mut observables: Catalog<ScalarEstimate> = Catalog::new();
    let mut index: usize = 0;
    while index < groups.len()
        invariant
            index <= groups.len(),
            image == file_image(*file),
            held == estimates_in(image, base@),
            texts(groups@) == groups_at(image, base@),
            faults == entry_faults(image, base@),
            failed(finding_group(image, base@)) is None,
            numbering_fault(image, base@, "observable"@) is None,
            groups_only_fault(image, base@) is None,
            forall|i: int| 0 <= i < index ==> #[trigger] faults[i] is None,
            forall|i: int|
                0 <= i < index ==> (#[trigger] estimate_in(
                    image,
                    estimate_path(base@, i as nat),
                )) is Some,
            distinct_names(held.take(index as int)),
            ascending(observables@),
            same_entries(observables@, held.take(index as int)),
        decreases groups.len() - index,
    {
        let ghost before = observables@;
        let ghost taken = held.take(index as int);
        let ghost more = held.take(index + 1);
        proof {
            assert(texts(groups@)[index as int] == groups@[index as int]@);
            assert(groups@[index as int]@ == numbered("observable"@, index as nat));
            assert(more =~= taken.push(held[index as int]));
        }
        let place = member(base, groups[index].as_str());
        assert(place@ == estimate_path(base@, index as nat));
        assert(faults[index as int] == entry_fault(image, base@, index as int));
        let (name, estimate) = match read_estimate(path, file, place.as_str()) {
            Ok(entry) => entry,
            Err(error) => {
                proof {
                    if faults[index as int] is Some {
                        lemma_first_fault(faults, index as int);
                    }
                }
                return Err(error);
            },
        };
        let ghost entry = (name@, estimate);
        assert(held[index as int] == entry);
        proof {
            lemma_same_names(before, taken, entry.0);
        }
        let previous = observables.insert(name, estimate);
        if previous.is_some() {
            proof {
                lemma_first_fault(faults, index as int);
            }
            return Err(schema(path, "duplicate result observable name"));
        }
        proof {
            lemma_fresh_entry(before, taken, entry);
            assert forall|e: (Seq<char>, ScalarEstimate)| #[trigger]
                observables@.contains(e) <==> more.contains(e) by {
                if more.contains(e) {
                    let k = choose|k: int| 0 <= k < more.len() && more[k] == e;
                    if k < index {
                        assert(taken[k] == e);
                        assert(taken.contains(e));
                        assert(before.contains(e));
                    }
                }
                if observables@.contains(e) {
                    if e == entry {
                        assert(more[index as int] == e);
                    } else {
                        assert(before.contains(e));
                        assert(taken.contains(e));
                        let k = choose|k: int| 0 <= k < taken.len() && taken[k] == e;
                        assert(more[k] == e);
                    }
                }
            }
        }
        index = index + 1;
    }
    assert(texts(groups@).len() == groups@.len());
    assert(held.take(index as int) =~= held);
    proof {
        lemma_no_fault(faults);
    }
    Ok(observables)
}

/// Reads the number and the text of one task.
fn read_task_head(path: &str, file: &hdf5_pure::File, base: &str) -> (head: Result<
    (usize, Vec<u8>),
    GenericJobError,
>)
    ensures
        match head {
            Ok((task_index, text)) => {
                &&& task_head_fault(file_image(*file), base@) is None
                &&& count_in(file_image(*file), joined(base@, "index"@)) == Some(task_index)
                &&& json_in(file_image(*file), joined(base@, "task"@)) == Some(text@)
            },
            Err(e) => fails(e, path@, task_head_fault(file_image(*file), base@)),
        },
{
    let datasets: [&str; 3] = ["task", "index", "completed"];
    let groups: [&str; 2] = ["progress", "observables"];
    assert(slices(datasets@) =~= seq!["task"@, "index"@, "completed"@]);
    assert(slices(groups@) =~= seq!["progress"@, "observables"@]);
    exact_group(path, find_group(path, file, base)?, &datasets, &groups)?;
    let task_index: usize = read_usize(path, file, member(base, "index").as_str())?;
    let text = read_json(path, file, member(base, "task").as_str())?;
    Ok((task_index, text))
}

/// Reads what stands behind the text of one task.
fn read_task_rest(
    path: &str,
    file: &hdf5_pure::File,
    base: &str,
    task_index: usize,
    task: Vec<u8>,
) -> (stored: Result<StoredTask, GenericJobError>)
    requires
        task_head_fault(file_image(*file), base@) is None,
        count_in(file_image(*file), joined(base@, "index"@)) == Some(task_index),
        json_in(file_image(*file), joined(base@, "task"@)) == Some(task@),
    ensures
        match stored {
            Ok(t) => task_in(file_image(*file), base@, t@),
            Err(e) => fails(e, path@, task_rest_fault(file_image(*file), base@)),
        },
{
    let none: [&str; 0] = [];
    let counts: [&str; 2] = ["thermalization_sweeps", "measurement_sweeps"];
    assert(slices(none@) =~= Seq::empty());
    assert(slices(counts@) =~= seq!["thermalization_sweeps"@, "measurement_sweeps"@]);
    let progress = member(base, "progress");
    exact_group(path, find_group(path, file, progress.as_str())?, &counts, &none)?;
    let observables = read_estimates(path, file, member(base, "observables").as_str())?;
    let flag: u8 = read_u8_scalar(path, file, member(base, "completed").as_str())?;
    if flag > 1 {
        return Err(schema(path, "invalid result completion flag"));
    }
    let thermalization_sweeps: usize = read_usize(
        path,
        file,
        member(progress.as_str(), "thermalization_sweeps").as_str(),
    )?;
    let measurement_sweeps: usize = read_usize(
        path,
        file,
        member(progress.as_str(), "measurement_sweeps").as_str(),
    )?;
    Ok(
        StoredTask {
            task,
            task_index,
            completed: flag == 1,
            thermalization_sweeps,
            measurement_sweeps,
            observables,
        },
    )
}

/// Reads all tasks of a result file and notes the texts that it comes to.
fn read_tasks(path: &str, file: &hdf5_pure::File, texts_reached: &mut Vec<Vec<u8>>) -> (tasks:
    Result<Vec<StoredTask>, GenericJobError>)
    requires
        head_fault(file_image(*file)) is None,
        old(texts_reached)@.len() == 0,
    ensures
        reached(file_image(*file), final(texts_reached)@),
        ({
            let image = file_image(*file);
            match tasks {
                Ok(list) => {
                    &&& tasks_group_fault(image) is None
                    &&& first_fault(task_faults(image)) is None
                    &&& list@.len() == groups_at(image, "tasks"@).len()
                    &&& forall|i: int|
                        0 <= i < list@.len() ==> task_in(
                            image,
                            task_group_path(i as nat),
                            (#[trigger] list@[i])@,
                        )
                },
                Err(e) => fails(
                    e,
                    path@,
                    or_fault(tasks_group_fault(image), first_fault(task_faults(image))),
                ),
            }
        }),
{
    let ghost image = file_image(*file);
    let ghost faults = task_faults(image);
    let parent = find_group(path, file, "tasks")?;
    let groups = subgroups(path, &parent)?;
    groups_only(path, &parent)?;
    let mut tasks: Vec<StoredTask> = Vec::new();
    let mut index: usize = 0;
    while index < groups.len()
        invariant
            index <= groups.len(),
            index <= 10_000,
            image == file_image(*file),
            faults == task_faults(image),
            head_fault(image) is None,
            tasks_group_fault(image) is None,
            tasks@.len() == index,
            texts_reached@.len() == index,
            texts(groups@) == groups_at(image, "tasks"@),
            forall|i: int| 0 <= i < index ==> #[trigger] faults[i] is None,
            forall|i: int| 0 <= i < index ==> reaches(image, i, #[trigger] texts_reached@[i]),
            forall|i: int|
                0 <= i < index ==> task_in(
                    image,
                    task_group_path(i as nat),
                    (#[trigger] tasks@[i])@,
                ),
        decreases groups.len() - index,
    {
        let ghost name = groups@[index as int]@;
        proof {
            assert(texts(groups@).len() == groups@.len());
            assert(texts(groups@)[index as int] == name);
            assert(faults[index as int] == or_fault(
                start_fault(image, index as int),
                task_rest_fault(image, task_group_path(index as nat)),
            ));
        }
        let number: usize = match parse_indexed_group(path, groups[index].as_str(), "task") {
            Ok(number) => number,
            Err(error) => {
                proof {
                    lemma_first_fault(faults, index as int);
                }
                return Err(error);
            },
        };
        assert(is_indexed(name, "task"@));
        if number != index {
            proof {
                lemma_result_names_are_plain();
                lemma_numbered("task"@, number as nat, index as nat);
                lemma_first_fault(faults, index as int);
            }
            return Err(schema(path, "invalid four-digit result task sequence"));
        }
        let base = member("tasks", groups[index].as_str());
        assert(base@ == task_group_path(index as nat));
        let (task_index, text) = match read_task_head(path, file, base.as_str()) {
            Ok(head) => head,
            Err(error) => {
                proof {
                    lemma_first_fault(faults, index as int);
                }
                return Err(error);
            },
        };
        texts_reached.push(text.clone());
        assert(texts_reached@[index as int]@ == text@);
        assert(reaches(image, index as int, texts_reached@[index as int]));
        let task = match read_task_rest(path, file, base.as_str(), task_index, text) {
            Ok(task) => task,
            Err(error) => {
                proof {
                    lemma_first_fault(faults, index as int);
                }
                return Err(error);
            },
        };
        tasks.push(task);
        index = index + 1;
    }
    assert(texts(groups@).len() == groups@.len());
    proof {
        lemma_no_fault(faults);
    }
    Ok(tasks)
}

/// Opens a result file and checks it as far as its tasks.
fn open_result(path: &str, bytes: Vec<u8>) -> (file: Result<hdf5_pure::File, GenericJobError>)
    ensures
        match file {
            Ok(f) => file_image(f) == bytes@ && head_fault(bytes@) is None,
            Err(e) => fails(e, path@, head_fault(bytes@)),
        },
{
    let file = open_hdf5(path, bytes, KIND)?;
    check_result_layout(path, &file)?;
    let version: u64 = read_u64_scalar(path, &file, member("metadata", "schema").as_str())?;
    if version != RESULT_SCHEMA_VERSION {
        return Err(schema(path, "unsupported result schema"));
    }
    Ok(file)
}

/// The texts of the tasks that a reader comes to in a result file. A task that cannot be decoded is
/// reported before anything that comes later in the file.
pub fn reached_task_texts(path: &str, bytes: Vec<u8>) -> (listed: Vec<Vec<u8>>)
    ensures
        reached(bytes@, listed@),
{
    let mut listed: Vec<Vec<u8>> = Vec::new();
    if let Ok(file) = open_result(path, bytes) {
        let _ = read_tasks(path, &file, &mut listed);
    }
    listed
}

/// Whether reading a result gave what the file says, or reported the first fault.
pub open spec fn reads_result(
    path: Seq<char>,
    image: Seq<u8>,
    result: Result<StoredResult, GenericJobError>,
) -> bool {
    match result {
        Ok(r) => result_in(image, r@),
        Err(e) => fails(e, path, file_fault(image)),
    }
}

/// Decodes a result.
pub fn read_result(path: &str, bytes: Vec<u8>) -> (result: Result<StoredResult, GenericJobError>)
    ensures
        reads_result(path@, bytes@, result),
{
    let ghost image = bytes@;
    let file = open_result(path, bytes)?;
    let mut listed: Vec<Vec<u8>> = Vec::new();
    let tasks = read_tasks(path, &file, &mut listed)?;
    let job_name = read_utf8(path, &file, member("metadata", "job").as_str())?;
    let rank: usize = read_usize(path, &file, member("assignment", "rank").as_str())?;
    let world_size: usize = read_usize(path, &file, member("assignment", "world_size").as_str())?;
    let result = StoredResult { job_name, rank, world_size, tasks };
    assert forall|i: int| 0 <= i < result@.tasks.len() implies task_in(
        image,
        task_group_path(i as nat),
        #[trigger] result@.tasks[i],
    ) by {
        assert(result@.tasks[i] == tasks@[i]@);
    }
    Ok(result)
}

/// Whether a result can be told from its file: the texts are UTF-8, as JSON texts are.
pub open spec fn is_readable_result(r: StoredResultView) -> bool {
    forall|i: int| 0 <= i < r.tasks.len() ==> valid_utf8((#[trigger] r.tasks[i]).task)
}

/// Whether an estimate that was stored can come back as another one: the same, but that a
/// signalling NaN may be another NaN.
pub open spec fn estimate_returns(written: ScalarEstimate, read: ScalarEstimate) -> bool {
    &&& written.mean.comes_back_as(read.mean)
    &&& written.stderr.comes_back_as(read.stderr)
    &&& read == (ScalarEstimate { mean: read.mean, stderr: read.stderr, ..written })
}

/// Whether estimates that were stored can come back as others: under the same names, in the same
/// order.
pub open spec fn estimates_return(
    written: Seq<(Seq<char>, ScalarEstimate)>,
    read: Seq<(Seq<char>, ScalarEstimate)>,
) -> bool {
    &&& read.len() == written.len()
    &&& forall|k: int|
        0 <= k < written.len() ==> (#[trigger] read[k]).0 == written[k].0 && estimate_returns(
            written[k].1,
            read[k].1,
        )
}

/// Whether a result that was stored can come back as another one: the same tasks in the same
/// order, and estimates that can come back as the others.
pub open spec fn result_returns(written: StoredResultView, read: StoredResultView) -> bool {
    &&& read == (StoredResultView { tasks: read.tasks, ..written })
    &&& read.tasks.len() == written.tasks.len()
    &&& forall|i: int|
        0 <= i < written.tasks.len() ==> (#[trigger] read.tasks[i]) == (StoredTaskView {
            observables: read.tasks[i].observables,
            ..written.tasks[i]
        }) && estimates_return(written.tasks[i].observables, read.tasks[i].observables)
}

/// Whether no number of a result is a signalling NaN.
pub open spec fn is_quiet_result(r: StoredResultView) -> bool {
    forall|i: int, k: int|
        0 <= i < r.tasks.len() && 0 <= k < r.tasks[i].observables.len() ==> !(
        #[trigger] r.tasks[i].observables[k]).1.mean.signalling()
            && !r.tasks[i].observables[k].1.stderr.signalling()
}

/// A result as it comes back from a file: with the estimates that the file says.
spec fn read_back(image: Seq<u8>, r: StoredResultView) -> StoredResultView {
    StoredResultView {
        tasks: Seq::new(
            r.tasks.len(),
            |i: int| task_read_back(image, task_group_path(i as nat), r.tasks[i]),
        ),
        ..r
    }
}

/// A task result as it comes back from a file.
spec fn task_read_back(image: Seq<u8>, base: Seq<char>, t: StoredTaskView) -> StoredTaskView {
    StoredTaskView { observables: estimates_in(image, joined(base, "observables"@)), ..t }
}

proof fn lemma_estimate_reads_back(
    image: Seq<u8>,
    base: Seq<char>,
    index: nat,
    entry: (Seq<char>, ScalarEstimate),
)
    requires
        holds_group(image, base, estimate_tree(index, entry)),
        encode_utf8(entry.0).len() <= u64::MAX,
    ensures
        estimate_in(image, base) matches Some(read) && read.0 == entry.0 && estimate_returns(
            entry.1,
            read.1,
        ),
{
    let tree = estimate_tree(index, entry);
    lemma_leaf_reads_back(image, base, tree);
    assert(dataset_names(tree.datasets) =~= estimate_members());
    assert(tree.datasets[0] == bytes_dataset("name"@, encode_utf8(entry.0)));
    assert(tree.datasets[1] == real_dataset("mean"@, entry.1.mean));
    assert(tree.datasets[2] == real_dataset("stderr"@, entry.1.stderr));
    assert(tree.datasets[3] == word_dataset("internal_bins"@, entry.1.internal_bins as u64));
    assert(tree.datasets[4] == word_dataset("rebin_length"@, entry.1.rebin_length as u64));
    assert(tree.datasets[5] == word_dataset("rebin_count"@, entry.1.rebin_count as u64));
    assert(tree.datasets[6] == word_dataset("bin_length"@, entry.1.bin_length as u64));
    lemma_dataset_reads_back(image, joined(base, "name"@), "name"@);
    lemma_dataset_reads_back(image, joined(base, "mean"@), "mean"@);
    lemma_dataset_reads_back(image, joined(base, "stderr"@), "stderr"@);
    lemma_dataset_reads_back(image, joined(base, "internal_bins"@), "internal_bins"@);
    lemma_dataset_reads_back(image, joined(base, "rebin_length"@), "rebin_length"@);
    lemma_dataset_reads_back(image, joined(base, "rebin_count"@), "rebin_count"@);
    lemma_dataset_reads_back(image, joined(base, "bin_length"@), "bin_length"@);
}

proof fn lemma_estimates_read_back(
    image: Seq<u8>,
    base: Seq<char>,
    observables: Seq<(Seq<char>, ScalarEstimate)>,
)
    requires
        holds_group(image, base, estimates_tree(observables)),
        estimates_fit(observables),
        ascending(observables),
    ensures
        estimates_fault(image, base) is None,
        estimates_return(observables, estimates_in(image, base)),
        ascending(estimates_in(image, base)),
{
    let tree = estimates_tree(observables);
    let names = groups_at(image, base);
    assert(names == group_names(tree.groups));
    assert(dataset_names(tree.datasets) =~= Seq::empty());
    assert forall|i: int| 0 <= i < names.len() implies #[trigger] names[i] == numbered(
        "observable"@,
        i as nat,
    ) by {
        assert(tree.groups[i] == estimate_tree(i as nat, observables[i]));
    }
    let held = estimates_in(image, base);
    assert forall|i: int| 0 <= i < observables.len() implies (#[trigger] held[i]).0
        == observables[i].0 && estimate_returns(observables[i].1, held[i].1) && estimate_in(
        image,
        estimate_path(base, i as nat),
    ) is Some by {
        let entry = tree.groups[i];
        assert(entry == estimate_tree(i as nat, observables[i]));
        assert(holds_group(image, joined(base, entry.name), entry));
        lemma_estimate_reads_back(image, estimate_path(base, i as nat), i as nat, observables[i]);
    }
    assert forall|i: int, j: int| 0 <= i < j < held.len() implies text_before(
        #[trigger] held[i].0,
        #[trigger] held[j].0,
    ) by {
        assert(text_before(observables[i].0, observables[j].0));
    }
    lemma_ascending_distinct(held);
    let faults = entry_faults(image, base);
    assert forall|i: int| 0 <= i < faults.len() implies #[trigger] faults[i] is None by {
        assert(held[i].0 == observables[i].0);
        if has_name(held.take(i), held[i].0) {
            let k = choose|k: int|
                0 <= k < held.take(i).len() && #[trigger] held.take(i)[k].0 == held[i].0;
            assert(held[k].0 == held[i].0);
        }
    }
    lemma_no_fault(faults);
}

proof fn lemma_task_reads_back(image: Seq<u8>, base: Seq<char>, index: nat, t: StoredTaskView)
    requires
        holds_group(image, base, task_tree(index, t)),
        t.task.len() <= u64::MAX,
        valid_utf8(t.task),
        estimates_fit(t.observables),
        ascending(t.observables),
    ensures
        task_in(image, base, task_read_back(image, base, t)),
        forall|u: StoredTaskView| #[trigger]
            task_in(image, base, u) ==> u == task_read_back(image, base, t),
        estimates_return(t.observables, task_read_back(image, base, t).observables),
{
    let tree = task_tree(index, t);
    assert(dataset_names(tree.datasets) =~= seq!["task"@, "index"@, "completed"@]);
    assert(group_names(tree.groups) =~= seq!["progress"@, "observables"@]);
    assert(tree.datasets[0] == bytes_dataset("task"@, t.task));
    assert(tree.datasets[1] == word_dataset("index"@, t.task_index as u64));
    assert(tree.datasets[2] == byte_dataset("completed"@, flag_byte(t.completed)));
    lemma_dataset_reads_back(image, joined(base, "task"@), "task"@);
    lemma_dataset_reads_back(image, joined(base, "index"@), "index"@);
    lemma_dataset_reads_back(image, joined(base, "completed"@), "completed"@);
    let counts = tree.groups[0];
    assert(counts == counts_tree(t));
    let place = joined(base, "progress"@);
    assert(holds_group(image, place, counts));
    lemma_leaf_reads_back(image, place, counts);
    assert(dataset_names(counts.datasets) =~= seq![
        "thermalization_sweeps"@,
        "measurement_sweeps"@,
    ]);
    assert(counts.datasets[0] == word_dataset(
        "thermalization_sweeps"@,
        t.thermalization_sweeps as u64,
    ));
    assert(counts.datasets[1] == word_dataset("measurement_sweeps"@, t.measurement_sweeps as u64));
    lemma_dataset_reads_back(
        image,
        joined(place, "thermalization_sweeps"@),
        "thermalization_sweeps"@,
    );
    lemma_dataset_reads_back(image, joined(place, "measurement_sweeps"@), "measurement_sweeps"@);
    let estimates = tree.groups[1];
    assert(estimates == estimates_tree(t.observables));
    assert(holds_group(image, joined(base, "observables"@), estimates));
    lemma_estimates_read_back(image, joined(base, "observables"@), t.observables);
    let back = task_read_back(image, base, t);
    assert forall|u: StoredTaskView| #[trigger] task_in(image, base, u) implies u == back by {
        lemma_ascending_unique(u.observables, back.observables);
        assert(u =~= back);
    }
}

/// A file that holds a result says what the result says and nothing else.
proof fn lemma_file_says_result(image: Seq<u8>, r: StoredResultView)
    requires
        holds_file(image, result_tree(r)),
        result_fits_file(r),
        is_readable_result(r),
        forall|i: int|
            0 <= i < r.tasks.len() ==> ascending((#[trigger] r.tasks[i]).observables),
    ensures
        result_in(image, read_back(image, r)),
        forall|s: StoredResultView| #[trigger] result_in(image, s) ==> s == read_back(image, r),
        result_returns(r, read_back(image, r)),
{
    let back = read_back(image, r);
    let file = result_tree(r);
    let metadata = file.groups[0];
    let assignment = file.groups[1];
    let tasks = file.groups[2];
    assert(metadata == result_metadata_tree(r));
    assert(assignment == result_assignment_tree(r));
    assert(tasks == tasks_tree(r));
    assert(group_names(file.groups) =~= seq!["metadata"@, "assignment"@, "tasks"@]);
    lemma_root_attributes(KIND@);
    lemma_leaf_reads_back(image, "metadata"@, metadata);
    assert(dataset_names(metadata.datasets) =~= seq!["schema"@, "job"@]);
    assert(metadata.datasets[0] == word_dataset("schema"@, RESULT_SCHEMA_VERSION));
    assert(metadata.datasets[1] == bytes_dataset("job"@, encode_utf8(r.job_name)));
    lemma_dataset_reads_back(image, joined("metadata"@, "schema"@), "schema"@);
    lemma_dataset_reads_back(image, joined("metadata"@, "job"@), "job"@);
    lemma_leaf_reads_back(image, "assignment"@, assignment);
    assert(dataset_names(assignment.datasets) =~= seq!["rank"@, "world_size"@]);
    assert(assignment.datasets[0] == word_dataset("rank"@, r.rank as u64));
    assert(assignment.datasets[1] == word_dataset("world_size"@, r.world_size as u64));
    lemma_dataset_reads_back(image, joined("assignment"@, "rank"@), "rank"@);
    lemma_dataset_reads_back(image, joined("assignment"@, "world_size"@), "world_size"@);
    assert(holds_group(image, "tasks"@, tasks));
    let names = groups_at(image, "tasks"@);
    assert(names == group_names(tasks.groups));
    assert(dataset_names(tasks.datasets) =~= Seq::empty());
    assert forall|i: int| 0 <= i < names.len() implies #[trigger] names[i] == numbered(
        "task"@,
        i as nat,
    ) by {
        assert(tasks.groups[i] == task_tree(i as nat, r.tasks[i]));
    }
    assert forall|i: int| 0 <= i < r.tasks.len() implies task_in(
        image,
        task_group_path(i as nat),
        #[trigger] back.tasks[i],
    ) && (forall|u: StoredTaskView| #[trigger]
        task_in(image, task_group_path(i as nat), u) ==> u == back.tasks[i]) && estimates_return(
        r.tasks[i].observables,
        back.tasks[i].observables,
    ) by {
        let entry = tasks.groups[i];
        let t = r.tasks[i];
        assert(entry == task_tree(i as nat, t));
        assert(holds_group(image, joined("tasks"@, entry.name), entry));
        lemma_task_reads_back(image, task_group_path(i as nat), i as nat, t);
    }
    let faults = task_faults(image);
    assert forall|i: int| 0 <= i < faults.len() implies #[trigger] faults[i] is None by {
        assert(names[i] == numbered("task"@, i as nat));
        assert(is_indexed(names[i], "task"@));
        assert(task_in(image, task_group_path(i as nat), back.tasks[i]));
    }
    lemma_no_fault(faults);
    assert forall|s: StoredResultView| #[trigger] result_in(image, s) implies s == back by {
        assert forall|i: int| 0 <= i < s.tasks.len() implies s.tasks[i] == back.tasks[i] by {
            assert(task_in(image, task_group_path(i as nat), s.tasks[i]));
            assert(task_in(image, task_group_path(i as nat), back.tasks[i]));
        }
        assert(s.tasks =~= back.tasks);
        assert(s =~= back);
    }
}

/// What the result file of a result says. `texts` holds the JSON texts of the tasks, in order.
pub open spec fn stored_result_view<P>(result: JobResult<P>, texts: Seq<Vec<u8>>) -> StoredResultView {
    StoredResultView {
        job_name: result.job_name@,
        rank: result.rank,
        world_size: result.world_size,
        tasks: Seq::new(
            result.tasks@.len(),
            |i: int| stored_task_view(result.tasks@[i], texts[i]@),
        ),
    }
}

/// What a result file says of the result of a task.
pub open spec fn stored_task_view<P>(t: TaskResult<P>, text: Seq<u8>) -> StoredTaskView {
    StoredTaskView {
        task: text,
        task_index: t.task_index,
        completed: t.completed,
        thermalization_sweeps: t.thermalization_sweeps,
        measurement_sweeps: t.measurement_sweeps,
        observables: t.observables@,
    }
}

impl<P> JobResult<P> {
    /// What the result file of this result holds. `texts` holds the JSON texts of the tasks, in
    /// order.
    pub fn stored(&self, texts: Vec<Vec<u8>>) -> (stored: StoredResult)
        requires
            texts@.len() == self.tasks@.len(),
        ensures
            stored@ == stored_result_view(*self, texts@),
    {
        let mut tasks: Vec<StoredTask> = Vec::new();
        let mut index: usize = 0;
        while index < self.tasks.len()
            invariant
                index <= self.tasks.len(),
                texts@.len() == self.tasks@.len(),
                tasks@.len() == index,
                forall|i: int|
                    0 <= i < index ==> (#[trigger] tasks@[i])@ == stored_task_view(
                        self.tasks@[i],
                        texts@[i]@,
                    ),
            decreases self.tasks.len() - index,
        {
            let t = &self.tasks[index];
            tasks.push(
                StoredTask {
                    task: texts[index].clone(),
                    task_index: t.task_index,
                    completed: t.completed,
                    thermalization_sweeps: t.thermalization_sweeps,
                    measurement_sweeps: t.measurement_sweeps,
                    observables: t.observables.clone(),
                },
            );
            index = index + 1;
        }
        let stored = StoredResult {
            job_name: self.job_name.clone(),
            rank: self.rank,
            world_size: self.world_size,
            tasks,
        };
        assert(stored@.tasks =~= stored_result_view(*self, texts@).tasks);
        stored
    }

    /// Encodes this result as HDF5. `texts` holds the JSON texts of the tasks, in order.
    pub fn write_hdf5(&self, path: &str, texts: Vec<Vec<u8>>) -> (image: Result<
        Vec<u8>,
        GenericJobError,
    >)
        requires
            texts@.len() == self.tasks@.len(),
        ensures
            match result_fault(*self) {
                Some(fault) => image matches Err(e) && is_schema_error(e, path@, fault),
                None => writes_result(path@, stored_result_view(*self, texts@), image),
            },
    {
        validate_result_schema(path, self)?;
        write_result(path, &self.stored(texts))
    }

    /// Decodes what a result file holds. The caller decodes the tasks from their JSON texts and
    /// hands them to [`StoredResult::with_tasks`].
    pub fn read_hdf5(path: &str, bytes: Vec<u8>) -> (result: Result<StoredResult, GenericJobError>)
        ensures
            reads_result(path@, bytes@, result),
    {
        read_result(path, bytes)
    }
}

/// Whether a result is the stored one with its tasks decoded.
pub open spec fn is_typed_result<P>(
    stored: StoredResultView,
    tasks: Seq<Task<P>>,
    result: JobResult<P>,
) -> bool {
    &&& result.job_name@ == stored.job_name
    &&& result.rank == stored.rank
    &&& result.world_size == stored.world_size
    &&& result.tasks@.len() == stored.tasks.len()
    &&& forall|i: int|
        0 <= i < stored.tasks.len() ==> (#[trigger] result.tasks@[i]).task == tasks[i]
            && stored_task_view(result.tasks@[i], stored.tasks[i].task) == stored.tasks[i]
}

/// Whether the counts and the estimates of a stored task fit the task that its JSON text stands
/// for.
pub open spec fn is_valid_stored_task<P>(t: StoredTaskView, task: Task<P>) -> bool {
    &&& t.completed == (t.thermalization_sweeps == task.thermalization && t.measurement_sweeps
        == task.sweeps)
    &&& t.thermalization_sweeps <= task.thermalization
    &&& t.measurement_sweeps <= task.sweeps
    &&& forall|i: int|
        0 <= i < t.observables.len() ==> is_valid_scalar((#[trigger] t.observables[i]).1)
}

/// Why a stored result is not valid for the tasks that its JSON texts stand for, if it is not.
pub open spec fn stored_result_fault<P>(stored: StoredResultView, tasks: Seq<Task<P>>) -> Option<
    Seq<char>,
> {
    if stored.rank >= stored.world_size {
        Some("invalid result assignment"@)
    } else if exists|i: int|
        0 <= i < stored.tasks.len() && !is_valid_stored_task(#[trigger] stored.tasks[i], tasks[i]) {
        Some("invalid task result"@)
    } else {
        None
    }
}

/// Whether a stored result and its tasks gave a result, or the reason why they do not fit.
pub open spec fn types_result<P>(
    path: Seq<char>,
    stored: StoredResultView,
    tasks: Seq<Task<P>>,
    result: Result<JobResult<P>, GenericJobError>,
) -> bool {
    match stored_result_fault(stored, tasks) {
        Some(fault) => result matches Err(e) && is_schema_error(e, path, fault),
        None => result matches Ok(r) && is_typed_result(stored, tasks, r),
    }
}

proof fn lemma_typed_result_fault<P>(
    stored: StoredResultView,
    tasks: Seq<Task<P>>,
    result: JobResult<P>,
)
    requires
        is_typed_result(stored, tasks, result),
    ensures
        result_fault(result) == stored_result_fault(stored, tasks),
{
    assert forall|i: int| 0 <= i < stored.tasks.len() implies is_valid_task_result(
        #[trigger] result.tasks@[i],
    ) == is_valid_stored_task(stored.tasks[i], tasks[i]) by {
        let t = stored.tasks[i];
        assert(stored_task_view(result.tasks@[i], t.task) == t);
        assert(t.observables == result.tasks@[i].observables@);
    }
    if exists|i: int|
        0 <= i < stored.tasks.len() && !is_valid_stored_task(#[trigger] stored.tasks[i], tasks[i]) {
        let i = choose|i: int|
            0 <= i < stored.tasks.len() && !is_valid_stored_task(
                #[trigger] stored.tasks[i],
                tasks[i],
            );
        assert(!is_valid_task_result(result.tasks@[i]));
    }
    if exists|i: int|
        0 <= i < result.tasks@.len() && !is_valid_task_result(#[trigger] result.tasks@[i]) {
        let i = choose|i: int|
            0 <= i < result.tasks@.len() && !is_valid_task_result(#[trigger] result.tasks@[i]);
        assert(!is_valid_stored_task(stored.tasks[i], tasks[i]));
    }
}

impl StoredResult {
    /// Takes the tasks that the caller decoded from the JSON texts, and checks that everything
    /// fits together.
    pub fn with_tasks<P>(self, path: &str, tasks: Vec<Task<P>>) -> (result: Result<
        JobResult<P>,
        GenericJobError,
    >)
        requires
            tasks@.len() == self.tasks@.len(),
        ensures
            types_result(path@, self@, tasks@, result),
    {
        let ghost stored = self@;
        let ghost given = tasks@;
        let mut left = self.tasks;
        let mut tasks = tasks;
        let ghost held = left@;
        let mut reversed: Vec<TaskResult<P>> = Vec::new();
        let count: usize = left.len();
        while left.len() > 0
            invariant
                count == held.len(),
                given.len() == count,
                left@.len() <= count,
                left@ == held.take(left@.len() as int),
                tasks@ == given.take(left@.len() as int),
                reversed@.len() == count - left@.len(),
                forall|k: int|
                    0 <= k < reversed@.len() ==> (#[trigger] reversed@[k]).task == given[count - 1
                        - k] && stored_task_view(reversed@[k], held[count - 1 - k].task@)
                        == held[count - 1 - k]@,
            decreases left@.len(),
        {
            let ghost last = left@.len() - 1;
            let stored_task = left.pop().unwrap();
            let task = tasks.pop().unwrap();
            assert(stored_task == held[last]);
            assert(task == given[last]);
            assert(left@ =~= held.take(last));
            assert(tasks@ =~= given.take(last));
            let result = TaskResult {
                task_index: stored_task.task_index,
                task,
                observables: stored_task.observables,
                thermalization_sweeps: stored_task.thermalization_sweeps,
                measurement_sweeps: stored_task.measurement_sweeps,
                completed: stored_task.completed,
            };
            assert(stored_task_view(result, held[last].task@) =~= held[last]@);
            reversed.push(result);
        }
        let mut results: Vec<TaskResult<P>> = Vec::new();
        let ghost whole = reversed@;
        while reversed.len() > 0
            invariant
                count == held.len(),
                given.len() == count,
                whole.len() == count,
                reversed@.len() <= count,
                reversed@ == whole.take(reversed@.len() as int),
                results@.len() == count - reversed@.len(),
                forall|i: int|
                    0 <= i < results@.len() ==> #[trigger] results@[i] == whole[count - 1 - i],
            decreases reversed@.len(),
        {
            let ghost last = reversed@.len() - 1;
            let result = reversed.pop().unwrap();
            assert(result == whole[last]);
            assert(reversed@ =~= whole.take(last));
            results.push(result);
        }
        let result = JobResult {
            job_name: self.job_name,
            rank: self.rank,
            world_size: self.world_size,
            tasks: results,
        };
        proof {
            assert forall|i: int| 0 <= i < stored.tasks.len() implies (
            #[trigger] result.tasks@[i]).task == given[i] && stored_task_view(
                result.tasks@[i],
                stored.tasks[i].task,
            ) == stored.tasks[i] by {
                assert(results@[i] == whole[count - 1 - i]);
                assert(stored.tasks[i] == held[i]@);
            }
            assert(is_typed_result(stored, given, result));
            lemma_typed_result_fault(stored, given, result);
        }
        validate_result_schema(path, &result)?;
        Ok(result)
    }
}

/// A result file that was written reads back: the read succeeds and gives what was written, bit
/// for bit but for signalling NaNs, and with one JSON text for each task.
///
/// `image` is the file that was written and `back` is what was read from it.
pub proof fn law_stored_result_round_trip(
    path: Seq<char>,
    r: StoredResultView,
    image: Vec<u8>,
    back: Result<StoredResult, GenericJobError>,
)
    requires
        is_readable_result(r),
        writes_result(path, r, Ok(image)),
        reads_result(path, image@, back),
    ensures
        back matches Ok(stored) && result_returns(r, stored@) && stored.tasks@.len()
            == r.tasks.len(),
        is_quiet_result(r) ==> back->Ok_0@ == r,
{
    lemma_file_says_result(image@, r);
    if is_quiet_result(r) {
        let s = back->Ok_0@;
        assert forall|i: int| 0 <= i < r.tasks.len() implies #[trigger] s.tasks[i]
            == r.tasks[i] by {
            assert(estimates_return(r.tasks[i].observables, s.tasks[i].observables));
            assert forall|k: int| 0 <= k < r.tasks[i].observables.len() implies
                #[trigger] s.tasks[i].observables[k] == r.tasks[i].observables[k] by {
                assert(estimate_returns(
                    r.tasks[i].observables[k].1,
                    s.tasks[i].observables[k].1,
                ));
            }
            assert(s.tasks[i].observables =~= r.tasks[i].observables);
        }
        assert(s.tasks =~= r.tasks);
        assert(s == r);
    }
}

/// Whether a result came back as it was, field by field: the job, the rank, the tasks in the same
/// order with their counts, and every observable with the same counts, the same mean and the same
/// standard error, bit for bit. A standard error that is a signalling NaN is NaN.
pub open spec fn same_result<P>(came_back: JobResult<P>, result: JobResult<P>) -> bool {
    &&& came_back.job_name@ == result.job_name@
    &&& came_back.rank == result.rank
    &&& came_back.world_size == result.world_size
    &&& came_back.tasks@.len() == result.tasks@.len()
    &&& forall|i: int|
        0 <= i < result.tasks@.len() ==> same_task_result(
            (#[trigger] came_back.tasks@[i])@,
            result.tasks@[i]@,
        )
}

/// Whether a task result came back as it was.
pub open spec fn same_task_result<P>(
    came_back: TaskResultView<P>,
    result: TaskResultView<P>,
) -> bool {
    &&& came_back == (TaskResultView { observables: came_back.observables, ..result })
    &&& came_back.observables.len() == result.observables.len()
    &&& forall|k: int|
        0 <= k < result.observables.len() ==> ({
            let (name, read) = #[trigger] came_back.observables[k];
            let (_, written) = result.observables[k];
            &&& name == result.observables[k].0
            &&& read == (ScalarEstimate { stderr: read.stderr, ..written })
            &&& written.stderr.comes_back_as(read.stderr)
        })
}

/// A result that was written reads back as it was.
///
/// `image` is the file that [`JobResult::write_hdf5`] gave for `result`, `back` is what
/// [`JobResult::read_hdf5`] gave for that file, and `typed` is what [`StoredResult::with_tasks`]
/// made of it with the tasks of `result`, which is what their texts are decoded to.
pub proof fn law_result_round_trip<P>(
    path: Seq<char>,
    result: JobResult<P>,
    texts: Seq<Vec<u8>>,
    image: Vec<u8>,
    back: Result<StoredResult, GenericJobError>,
    tasks: Seq<Task<P>>,
    typed: Result<JobResult<P>, GenericJobError>,
)
    requires
        texts.len() == result.tasks@.len(),
        is_readable_result(stored_result_view(result, texts)),
        result_fault(result) is None,
        writes_result(path, stored_result_view(result, texts), Ok(image)),
        reads_result(path, image@, back),
        tasks.len() == result.tasks@.len(),
        forall|i: int| 0 <= i < tasks.len() ==> #[trigger] tasks[i] == result.tasks@[i].task,
        back matches Ok(stored) ==> types_result(path, stored@, tasks, typed),
    ensures
        back matches Ok(stored) && result_returns(stored_result_view(result, texts), stored@),
        typed matches Ok(q) && same_result(q, result),
{
    let written = stored_result_view(result, texts);
    law_stored_result_round_trip(path, written, image, back);
    let stored = back->Ok_0@;
    assert(is_typed_result(written, tasks, result));
    lemma_typed_result_fault(written, tasks, result);
    assert forall|i: int| 0 <= i < stored.tasks.len() implies is_valid_stored_task(
        #[trigger] stored.tasks[i],
        tasks[i],
    ) by {
        assert(is_valid_stored_task(written.tasks[i], tasks[i]));
        assert forall|k: int| 0 <= k < stored.tasks[i].observables.len() implies is_valid_scalar(
            (#[trigger] stored.tasks[i].observables[k]).1,
        ) by {
            assert(is_valid_scalar(written.tasks[i].observables[k].1));
            assert(estimate_returns(
                written.tasks[i].observables[k].1,
                stored.tasks[i].observables[k].1,
            ));
        }
    }
    let q = typed->Ok_0;
    assert forall|i: int| 0 <= i < result.tasks@.len() implies same_task_result(
        (#[trigger] q.tasks@[i])@,
        result.tasks@[i]@,
    ) by {
        assert(stored_task_view(q.tasks@[i], stored.tasks[i].task) == stored.tasks[i]);
        assert(written.tasks[i] == stored_task_view(result.tasks@[i], texts[i]@));
        assert(is_valid_stored_task(written.tasks[i], tasks[i]));
        assert forall|k: int| 0 <= k < result.tasks@[i]@.observables.len() implies ({
            let (name, read) = #[trigger] q.tasks@[i]@.observables[k];
            let (_, written) = result.tasks@[i]@.observables[k];
            &&& name == result.tasks@[i]@.observables[k].0
            &&& read == (ScalarEstimate { stderr: read.stderr, ..written })
            &&& written.stderr.comes_back_as(read.stderr)
        }) by {
            assert(is_valid_scalar(written.tasks[i].observables[k].1));
            assert(stored.tasks[i].observables[k].0 == written.tasks[i].observables[k].0);
        }
    }
}

proof fn lemma_count_stands(image: Seq<u8>, path: Seq<char>, count: usize)
    requires
        count_in(image, path) == Some(count),
    ensures
        word_stands_at(image, path, count as u64),
{
    law_scalars_read_as_they_stand(image, path, 0, 0, Real { bits: 0 }, count);
}

proof fn lemma_real_stands(image: Seq<u8>, path: Seq<char>, number: Real)
    requires
        real_in(image, path) == Some(number),
    ensures
        real_stands_at(image, path, number),
{
    law_scalars_read_as_they_stand(image, path, 0, 0, number, 0);
}

proof fn lemma_text_stands(image: Seq<u8>, path: Seq<char>, text: Seq<char>)
    requires
        text_in(image, path) == Some(text),
    ensures
        text_stands_at(image, path, text),
{
    law_lists_read_as_they_stand(
        image,
        path,
        Seq::empty(),
        Seq::empty(),
        Seq::empty(),
        text,
        0,
    );
}

/// The paths of what identifies a result, written out.
proof fn lemma_result_paths()
    ensures
        joined("metadata"@, "schema"@) == "metadata/schema"@,
        joined("metadata"@, "job"@) == "metadata/job"@,
        joined("assignment"@, "rank"@) == "assignment/rank"@,
        joined("assignment"@, "world_size"@) == "assignment/world_size"@,
{
    reveal_strlit("metadata");
    reveal_strlit("assignment");
    reveal_strlit("schema");
    reveal_strlit("job");
    reveal_strlit("rank");
    reveal_strlit("world_size");
    reveal_strlit("metadata/schema");
    reveal_strlit("metadata/job");
    reveal_strlit("assignment/rank");
    reveal_strlit("assignment/world_size");
    assert(joined("metadata"@, "schema"@) =~= "metadata/schema"@);
    assert(joined("metadata"@, "job"@) =~= "metadata/job"@);
    assert(joined("assignment"@, "rank"@) =~= "assignment/rank"@);
    assert(joined("assignment"@, "world_size"@) =~= "assignment/world_size"@);
}

/// What is read from a result file stands in it, each part at its place, in a file that has no
/// other groups and datasets.
pub proof fn law_results_say_what_stands(path: &str, bytes: Vec<u8>, r: StoredResult)
    requires
        call_ensures(read_result, (path, bytes), Ok::<StoredResult, GenericJobError>(r)),
    ensures
        word_stands_at(bytes@, "metadata/schema"@, 1),
        text_stands_at(bytes@, "metadata/job"@, r.job_name@),
        word_stands_at(bytes@, "assignment/rank"@, r.rank as u64),
        word_stands_at(bytes@, "assignment/world_size"@, r.world_size as u64),
        kind_fault(bytes@, "carlo-mc-result"@) is None,
        members_stand_at(
            bytes@,
            Seq::empty(),
            Seq::empty(),
            seq!["metadata"@, "assignment"@, "tasks"@],
        ),
        members_stand_at(bytes@, "metadata"@, seq!["schema"@, "job"@], Seq::empty()),
        members_stand_at(bytes@, "assignment"@, seq!["rank"@, "world_size"@], Seq::empty()),
        listing_groups(bytes@, "tasks"@)->Ok_0.len() == r.tasks@.len(),
{
    let image = bytes@;
    lemma_result_paths();
    assert(result_in(image, r@));
    law_scalars_read_as_they_stand(image, "metadata/schema"@, 1, 0, Real { bits: 0 }, 0);
    lemma_text_stands(image, "metadata/job"@, r.job_name@);
    lemma_count_stands(image, "assignment/rank"@, r.rank);
    lemma_count_stands(image, "assignment/world_size"@, r.world_size);
    law_exact_groups(
        image,
        Seq::empty(),
        Seq::empty(),
        seq!["metadata"@, "assignment"@, "tasks"@],
    );
    law_exact_groups(image, "metadata"@, seq!["schema"@, "job"@], Seq::empty());
    law_exact_groups(image, "assignment"@, seq!["rank"@, "world_size"@], Seq::empty());
}

/// The tasks of a result are those that stand in its file, in the order of their numbers, which
/// count from zero. The flag is one byte, one for a task that is complete and zero for one that is
/// not.
pub proof fn law_result_tasks_say_what_stands(
    path: &str,
    bytes: Vec<u8>,
    r: StoredResult,
    i: int,
)
    requires
        call_ensures(read_result, (path, bytes), Ok::<StoredResult, GenericJobError>(r)),
        0 <= i < r.tasks@.len(),
    ensures
        ({
            let base = "tasks"@ + seq!['/'] + ("task"@ + padded(i as nat));
            let progress = base + seq!['/'] + "progress"@;
            let t = r.tasks@[i];
            &&& listing_groups(bytes@, "tasks"@)->Ok_0[i] == "task"@ + padded(i as nat)
            &&& bytes_stand_at(bytes@, base + seq!['/'] + "task"@, t.task@)
            &&& word_stands_at(bytes@, base + seq!['/'] + "index"@, t.task_index as u64)
            &&& byte_stands_at(
                bytes@,
                base + seq!['/'] + "completed"@,
                if t.completed {
                    1
                } else {
                    0
                },
            )
            &&& word_stands_at(
                bytes@,
                progress + seq!['/'] + "thermalization_sweeps"@,
                t.thermalization_sweeps as u64,
            )
            &&& word_stands_at(
                bytes@,
                progress + seq!['/'] + "measurement_sweeps"@,
                t.measurement_sweeps as u64,
            )
            &&& members_stand_at(
                bytes@,
                base,
                seq!["task"@, "index"@, "completed"@],
                seq!["progress"@, "observables"@],
            )
            &&& members_stand_at(
                bytes@,
                progress,
                seq!["thermalization_sweeps"@, "measurement_sweeps"@],
                Seq::empty(),
            )
        }),
{
    let image = bytes@;
    let base = task_group_path(i as nat);
    let progress = joined(base, "progress"@);
    let t = r@.tasks[i];
    assert(result_in(image, r@));
    assert(task_in(image, base, r@.tasks[i]));
    assert(r@.tasks[i] == r.tasks@[i]@);
    lemma_no_fault(task_faults(image));
    assert(task_faults(image)[i] is None);
    assert(task_name_fault(groups_at(image, "tasks"@)[i], i) is None);
    reveal_strlit("tasks");
    assert(base == "tasks"@ + seq!['/'] + ("task"@ + padded(i as nat)));
    assert(base.len() > 0 && progress.len() > 0);
    law_lists_read_as_they_stand(
        image,
        joined(base, "task"@),
        t.task,
        Seq::empty(),
        Seq::empty(),
        Seq::empty(),
        0,
    );
    lemma_count_stands(image, joined(base, "index"@), t.task_index);
    law_scalars_read_as_they_stand(
        image,
        joined(base, "completed"@),
        0,
        if t.completed {
            1
        } else {
            0
        },
        Real { bits: 0 },
        0,
    );
    lemma_count_stands(image, joined(progress, "thermalization_sweeps"@), t.thermalization_sweeps);
    lemma_count_stands(image, joined(progress, "measurement_sweeps"@), t.measurement_sweeps);
    law_exact_groups(
        image,
        base,
        seq!["task"@, "index"@, "completed"@],
        seq!["progress"@, "observables"@],
    );
    law_exact_groups(
        image,
        progress,
        seq!["thermalization_sweeps"@, "measurement_sweeps"@],
        Seq::empty(),
    );
}

/// An estimate that stands in a group has its parts at their places and nothing beside them.
proof fn lemma_estimate_stands(image: Seq<u8>, base: Seq<char>)
    requires
        base.len() > 0,
        estimate_fault(image, base) is None,
    ensures
        ({
            let entry = estimate_in(image, base)->0;
            &&& members_stand_at(
                image,
                base,
                seq![
                    "name"@,
                    "mean"@,
                    "stderr"@,
                    "internal_bins"@,
                    "rebin_length"@,
                    "rebin_count"@,
                    "bin_length"@,
                ],
                Seq::empty(),
            )
            &&& text_stands_at(image, base + seq!['/'] + "name"@, entry.0)
            &&& entry.0 == decode_utf8(reading_bytes(image, base + seq!['/'] + "name"@)->Ok_0)
            &&& real_stands_at(image, base + seq!['/'] + "mean"@, entry.1.mean)
            &&& real_stands_at(image, base + seq!['/'] + "stderr"@, entry.1.stderr)
            &&& word_stands_at(
                image,
                base + seq!['/'] + "internal_bins"@,
                entry.1.internal_bins as u64,
            )
            &&& word_stands_at(
                image,
                base + seq!['/'] + "rebin_length"@,
                entry.1.rebin_length as u64,
            )
            &&& word_stands_at(image, base + seq!['/'] + "rebin_count"@, entry.1.rebin_count as u64)
            &&& word_stands_at(image, base + seq!['/'] + "bin_length"@, entry.1.bin_length as u64)
        }),
{
    let entry = estimate_in(image, base)->0;
    law_exact_groups(image, base, estimate_members(), Seq::empty());
    lemma_text_stands(image, joined(base, "name"@), entry.0);
    lemma_real_stands(image, joined(base, "mean"@), entry.1.mean);
    lemma_real_stands(image, joined(base, "stderr"@), entry.1.stderr);
    lemma_count_stands(image, joined(base, "internal_bins"@), entry.1.internal_bins);
    lemma_count_stands(image, joined(base, "rebin_length"@), entry.1.rebin_length);
    lemma_count_stands(image, joined(base, "rebin_count"@), entry.1.rebin_count);
    lemma_count_stands(image, joined(base, "bin_length"@), entry.1.bin_length);
}

/// The estimates of a task are those that stand in its group: the subgroups are numbered from zero
/// on, each is one estimate, and no name stands in two of them.
pub proof fn law_result_estimates_say_what_stands(
    path: &str,
    bytes: Vec<u8>,
    r: StoredResult,
    i: int,
    k: int,
    m: int,
    parent: Seq<char>,
)
    requires
        call_ensures(read_result, (path, bytes), Ok::<StoredResult, GenericJobError>(r)),
        0 <= i < r.tasks@.len(),
        parent == "tasks"@ + seq!['/'] + ("task"@ + padded(i as nat)) + seq!['/']
            + "observables"@,
        0 <= k < listing_groups(bytes@, parent)->Ok_0.len(),
        0 <= m < listing_groups(bytes@, parent)->Ok_0.len(),
    ensures
        ({
            let base = parent + seq!['/'] + ("observable"@ + padded(k as nat));
            let text = decode_utf8(reading_bytes(bytes@, base + seq!['/'] + "name"@)->Ok_0);
            let other = decode_utf8(
                reading_bytes(
                    bytes@,
                    parent + seq!['/'] + ("observable"@ + padded(m as nat)) + seq!['/'] + "name"@,
                )->Ok_0,
            );
            let held = r.tasks@[i].observables@;
            let e = value_of(held, text);
            &&& listing_groups(bytes@, parent)->Ok_0[k] == "observable"@ + padded(k as nat)
            &&& text_stands_at(bytes@, base + seq!['/'] + "name"@, text)
            &&& has_name(held, text)
            &&& real_stands_at(bytes@, base + seq!['/'] + "mean"@, e.mean)
            &&& real_stands_at(bytes@, base + seq!['/'] + "stderr"@, e.stderr)
            &&& word_stands_at(bytes@, base + seq!['/'] + "internal_bins"@, e.internal_bins as u64)
            &&& word_stands_at(bytes@, base + seq!['/'] + "rebin_length"@, e.rebin_length as u64)
            &&& word_stands_at(bytes@, base + seq!['/'] + "rebin_count"@, e.rebin_count as u64)
            &&& word_stands_at(bytes@, base + seq!['/'] + "bin_length"@, e.bin_length as u64)
            &&& k != m ==> text != other
        }),
{
    let image = bytes@;
    reveal_strlit("tasks");
    assert(parent == joined(task_group_path(i as nat), "observables"@));
    assert(result_in(image, r@));
    assert(task_in(image, task_group_path(i as nat), r@.tasks[i]));
    assert(r@.tasks[i] == r.tasks@[i]@);
    let entries = r.tasks@[i].observables@;
    let held = estimates_in(image, parent);
    assert(estimates_fault(image, parent) is None);
    lemma_no_fault(entry_faults(image, parent));
    assert(entry_faults(image, parent)[k] is None);
    assert(entry_faults(image, parent)[m] is None);
    law_numbered_groups(image, parent, "observable"@);
    assert(parent.len() > 0);
    lemma_estimate_stands(image, estimate_path(parent, k as nat));
    lemma_estimate_stands(image, estimate_path(parent, m as nat));
    let e = held[k];
    assert(held.contains(e));
    assert(entries.contains(e));
    let place = choose|n: int| 0 <= n < entries.len() && entries[n] == e;
    lemma_ascending_distinct(entries);
    lemma_value_of(entries, place);
    if k != m && held[k].0 == held[m].0 {
        let low = if k < m {
            k
        } else {
            m
        };
        let high = if k < m {
            m
        } else {
            k
        };
        assert(entry_fault(image, parent, high) is None);
        assert(held.take(high)[low].0 == held[high].0);
        assert(has_name(held.take(high), held[high].0));
    }
}

/// An estimate of a task stands in its file: none is made up.
pub proof fn law_no_estimate_is_made_up(
    path: &str,
    bytes: Vec<u8>,
    r: StoredResult,
    i: int,
    k: int,
    parent: Seq<char>,
)
    requires
        call_ensures(read_result, (path, bytes), Ok::<StoredResult, GenericJobError>(r)),
        0 <= i < r.tasks@.len(),
        parent == "tasks"@ + seq!['/'] + ("task"@ + padded(i as nat)) + seq!['/']
            + "observables"@,
        0 <= k < r.tasks@[i].observables@.len(),
    ensures
        exists|n: int|
            0 <= n < listing_groups(bytes@, parent)->Ok_0.len() && text_stands_at(
                bytes@,
                parent + seq!['/'] + #[trigger] listing_groups(bytes@, parent)->Ok_0[n] + seq!['/']
                    + "name"@,
                r.tasks@[i].observables@[k].0,
            ),
{
    let image = bytes@;
    reveal_strlit("tasks");
    assert(parent == joined(task_group_path(i as nat), "observables"@));
    assert(result_in(image, r@));
    assert(task_in(image, task_group_path(i as nat), r@.tasks[i]));
    assert(r@.tasks[i] == r.tasks@[i]@);
    let entries = r.tasks@[i].observables@;
    let held = estimates_in(image, parent);
    assert(estimates_fault(image, parent) is None);
    assert(entries.contains(entries[k]));
    assert(held.contains(entries[k]));
    let n = choose|n: int| 0 <= n < held.len() && held[n] == entries[k];
    lemma_no_fault(entry_faults(image, parent));
    assert(entry_faults(image, parent)[n] is None);
    law_numbered_groups(image, parent, "observable"@);
    assert(parent.len() > 0);
    lemma_estimate_stands(image, estimate_path(parent, n as nat));
    assert(listing_groups(image, parent)->Ok_0[n] == "observable"@ + padded(n as nat));
}

/// A result that was written reads back as it was, whatever it holds, as long as its texts are
/// UTF-8 and no number is a signalling NaN.
pub proof fn law_written_results_read_back(
    path: &str,
    r: StoredResult,
    image: Vec<u8>,
    other: &str,
    back: Result<StoredResult, GenericJobError>,
    i: int,
)
    requires
        call_ensures(write_result, (path, &r), Ok::<Vec<u8>, GenericJobError>(image)),
        call_ensures(read_result, (other, image), back),
        forall|n: int| 0 <= n < r.tasks@.len() ==> valid_utf8((#[trigger] r.tasks@[n]).task@),
        forall|n: int, k: int|
            0 <= n < r.tasks@.len() && 0 <= k < r.tasks@[n].observables@.len() ==> !(
            #[trigger] r.tasks@[n].observables@[k]).1.mean.signalling()
                && !r.tasks@[n].observables@[k].1.stderr.signalling(),
        0 <= i < r.tasks@.len(),
    ensures
        back is Ok,
        ({
            let b = back->Ok_0;
            &&& b.job_name@ == r.job_name@
            &&& b.rank == r.rank
            &&& b.world_size == r.world_size
            &&& b.tasks@.len() == r.tasks@.len()
            &&& b.tasks@[i].task@ == r.tasks@[i].task@
            &&& b.tasks@[i].task_index == r.tasks@[i].task_index
            &&& b.tasks@[i].completed == r.tasks@[i].completed
            &&& b.tasks@[i].thermalization_sweeps == r.tasks@[i].thermalization_sweeps
            &&& b.tasks@[i].measurement_sweeps == r.tasks@[i].measurement_sweeps
            &&& b.tasks@[i].observables@ == r.tasks@[i].observables@
        }),
{
    let v = r@;
    assert(is_readable_result(v)) by {
        assert forall|n: int| 0 <= n < v.tasks.len() implies valid_utf8(
            (#[trigger] v.tasks[n]).task,
        ) by {
            assert(v.tasks[n] == r.tasks@[n]@);
        }
    }
    assert(is_quiet_result(v)) by {
        assert forall|n: int, k: int|
            0 <= n < v.tasks.len() && 0 <= k < v.tasks[n].observables.len() implies !(
        #[trigger] v.tasks[n].observables[k]).1.mean.signalling()
            && !v.tasks[n].observables[k].1.stderr.signalling() by {
            assert(v.tasks[n] == r.tasks@[n]@);
            assert(v.tasks[n].observables[k] == r.tasks@[n].observables@[k]);
        }
    }
    assert(writes_result(other@, v, Ok(image)));
    law_stored_result_round_trip(other@, v, image, back);
    let b = back->Ok_0;
    assert(b@ == v);
    assert(b@.tasks[i] == b.tasks@[i]@ && v.tasks[i] == r.tasks@[i]@);
    assert(b@.job_name == b.job_name@ && v.job_name == r.job_name@);
    assert(b@.tasks[i].task == b.tasks@[i].task@ && v.tasks[i].task == r.tasks@[i].task@);
    assert(b@.tasks[i].observables == b.tasks@[i].observables@ && v.tasks[i].observables
        == r.tasks@[i].observables@);
}

/// A result with more tasks than four digits can number is refused, and so is one with as many
/// observables of a task. Any other one is refused only where the HDF5 library gives up. What is
/// refused tells the path.
pub proof fn law_results_that_do_not_fit(
    path: &str,
    r: StoredResult,
    image: Result<Vec<u8>, GenericJobError>,
)
    requires
        call_ensures(write_result, (path, &r), image),
    ensures
        r.tasks@.len() > 10_000 ==> (image matches Err(GenericJobError::Schema { path: p, reason })
            && p@ == path@ && reason@ == "too many result tasks for four-digit names"@),
        r.tasks@.len() <= 10_000 && (exists|i: int|
            0 <= i < r.tasks@.len() && (#[trigger] r.tasks@[i]).observables@.len() > 10_000) ==> (
        image matches Err(GenericJobError::Schema { path: p, reason }) && p@ == path@ && reason@
            == "too many result observables for four-digit names"@),
        r.tasks@.len() <= 10_000 && (forall|i: int|
            0 <= i < r.tasks@.len() ==> (#[trigger] r.tasks@[i]).observables@.len() <= 10_000)
            ==> match image {
            Ok(_) => true,
            Err(e) => e matches GenericJobError::Hdf5 { path: p, reason: _ } && p@ == path@,
        },
{
    let v = r@;
    if exists|i: int|
        0 <= i < r.tasks@.len() && (#[trigger] r.tasks@[i]).observables@.len() > 10_000 {
        let i = choose|i: int|
            0 <= i < r.tasks@.len() && (#[trigger] r.tasks@[i]).observables@.len() > 10_000;
        assert(v.tasks[i] == r.tasks@[i]@);
        assert(v.tasks[i].observables.len() > 10_000);
    }
    if forall|i: int|
        0 <= i < r.tasks@.len() ==> (#[trigger] r.tasks@[i]).observables@.len() <= 10_000 {
        assert forall|i: int| 0 <= i < v.tasks.len() implies (
        #[trigger] v.tasks[i]).observables.len() <= 10_000 by {
            assert(v.tasks[i] == r.tasks@[i]@);
        }
    }
}

/// A result file that cannot be read is refused with its path, for the schema or by the HDF5
/// library.
pub proof fn law_refused_results_tell_the_path(path: &str, bytes: Vec<u8>, e: GenericJobError)
    requires
        call_ensures(read_result, (path, bytes), Err::<StoredResult, GenericJobError>(e)),
    ensures
        match e {
            GenericJobError::Schema { path: p, reason: _ } => p@ == path@,
            GenericJobError::Hdf5 { path: p, reason: _ } => p@ == path@,
            _ => false,
        },
{
}

/// Of a file that can be read, all texts of tasks are reached, in order.
pub proof fn law_all_task_texts_are_reached(
    path: &str,
    bytes: Vec<u8>,
    r: StoredResult,
    listed: Vec<Vec<u8>>,
    i: int,
)
    requires
        call_ensures(read_result, (path, bytes), Ok::<StoredResult, GenericJobError>(r)),
        call_ensures(reached_task_texts, (path, bytes), listed),
        0 <= i < r.tasks@.len(),
    ensures
        listed@.len() == r.tasks@.len(),
        listed@[i]@ == r.tasks@[i].task@,
{
    let image = bytes@;
    assert(result_in(image, r@));
    lemma_no_fault(task_faults(image));
    if listed@.len() < r.tasks@.len() {
        let n = listed@.len() as int;
        assert(task_faults(image)[n] is None);
        if n > 0 {
            assert(task_faults(image)[n - 1] is None);
        }
    }
    assert(reaches(image, i, listed@[i]));
    assert(task_in(image, task_group_path(i as nat), r@.tasks[i]));
    assert(r@.tasks[i] == r.tasks@[i]@);
}

/// A group name is read exactly if it is the prefix and four digits, and gives the number that the
/// digits stand for.
pub(crate) proof fn law_group_numbers(
    path: &str,
    name: &str,
    prefix: &str,
    index: Result<usize, GenericJobError>,
)
    requires
        call_ensures(parse_indexed_group, (path, name, prefix), index),
    ensures
        index is Ok ==> name@.len() == prefix@.len() + 4 && name@.take(prefix@.len() as int)
            == prefix@ && all_digits(name@.skip(prefix@.len() as int)) && index->Ok_0
            == digits_value(name@.skip(prefix@.len() as int)),
        name@.len() == prefix@.len() + 4 && name@.take(prefix@.len() as int) == prefix@
            && all_digits(name@.skip(prefix@.len() as int)) ==> index is Ok,
{
    let digits = name@.skip(prefix@.len() as int);
    if index is Ok {
        let n = index->Ok_0 as nat;
        lemma_padded_value(n);
        assert(name@.take(prefix@.len() as int) =~= prefix@);
        assert(digits =~= padded(n));
    }
    if name@.len() == prefix@.len() + 4 && name@.take(prefix@.len() as int) == prefix@
        && all_digits(digits) {
        lemma_four_digits(digits);
        assert(name@ =~= prefix@ + digits);
        assert(name@ == numbered(prefix@, digits_value(digits)));
    }
}

/// What is stored of a result says all of it, task by task, beside the texts that it is given.
pub proof fn law_stored_results<P>(
    result: JobResult<P>,
    texts: Vec<Vec<u8>>,
    stored: StoredResult,
    i: int,
)
    requires
        texts@.len() == result.tasks@.len(),
        call_ensures(JobResult::<P>::stored, (&result, texts), stored),
        0 <= i < result.tasks@.len(),
    ensures
        stored.job_name@ == result.job_name@,
        stored.rank == result.rank,
        stored.world_size == result.world_size,
        stored.tasks@.len() == result.tasks@.len(),
        stored.tasks@[i].task@ == texts@[i]@,
        stored.tasks@[i].task_index == result.tasks@[i].task_index,
        stored.tasks@[i].completed == result.tasks@[i].completed,
        stored.tasks@[i].thermalization_sweeps == result.tasks@[i].thermalization_sweeps,
        stored.tasks@[i].measurement_sweeps == result.tasks@[i].measurement_sweeps,
        stored.tasks@[i].observables@ == result.tasks@[i].observables@,
{
    let v = stored@;
    let w = stored_result_view(result, texts@);
    assert(v == w);
    assert(v.tasks.len() == w.tasks.len());
    assert(v.tasks[i] == stored.tasks@[i]@);
    assert(w.tasks[i] == stored_task_view(result.tasks@[i], texts@[i]@));
    assert(v.tasks[i].task == stored.tasks@[i].task@);
    assert(v.tasks[i].observables == stored.tasks@[i].observables@);
    assert(v.job_name == stored.job_name@);
}

/// A stored result with its tasks decoded says what the file says, task by task. It is accepted
/// only for a rank of its world, and for tasks whose counts stay in their bounds, are complete
/// exactly if they have reached them, and have valid estimates.
pub proof fn law_decoded_results<P>(
    stored: StoredResult,
    path: &str,
    tasks: Vec<Task<P>>,
    r: JobResult<P>,
    i: int,
)
    requires
        tasks@.len() == stored.tasks@.len(),
        call_ensures(
            StoredResult::with_tasks::<P>,
            (stored, path, tasks),
            Ok::<JobResult<P>, GenericJobError>(r),
        ),
        0 <= i < stored.tasks@.len(),
    ensures
        r.job_name@ == stored.job_name@,
        r.rank == stored.rank,
        r.world_size == stored.world_size,
        r.rank < r.world_size,
        r.tasks@.len() == stored.tasks@.len(),
        ({
            let t = r.tasks@[i];
            let s = stored.tasks@[i];
            &&& t.task == tasks@[i]
            &&& t.task_index == s.task_index
            &&& t.completed == s.completed
            &&& t.thermalization_sweeps == s.thermalization_sweeps
            &&& t.measurement_sweeps == s.measurement_sweeps
            &&& t.observables@ == s.observables@
            &&& t.thermalization_sweeps <= t.task.thermalization
            &&& t.measurement_sweeps <= t.task.sweeps
            &&& t.completed <==> t.thermalization_sweeps == t.task.thermalization
                && t.measurement_sweeps == t.task.sweeps
            &&& forall|k: int|
                0 <= k < t.observables@.len() ==> ({
                    let e = (#[trigger] t.observables@[k]).1;
                    &&& e.mean.finite()
                    &&& e.internal_bins > 0
                    &&& e.bin_length > 0
                    &&& e.rebin_count == 1 ==> e.stderr.nan()
                    &&& e.rebin_count != 1 ==> e.stderr.finite() && e.stderr.nonnegative()
                })
        }),
{
    let v = stored@;
    assert(types_result(path@, v, tasks@, Ok::<JobResult<P>, GenericJobError>(r)));
    assert(is_typed_result(v, tasks@, r));
    assert(v.tasks[i] == stored.tasks@[i]@);
    assert(is_valid_stored_task(v.tasks[i], tasks@[i]));
    assert(r.tasks@[i].task == tasks@[i]);
    let w = stored_task_view(r.tasks@[i], v.tasks[i].task);
    assert(w == v.tasks[i]);
    assert(w.observables == r.tasks@[i].observables@);
    assert(v.tasks[i].observables == stored.tasks@[i].observables@);
    assert forall|k: int| 0 <= k < r.tasks@[i].observables@.len() implies ({
        let e = (#[trigger] r.tasks@[i].observables@[k]).1;
        &&& e.mean.finite()
        &&& e.internal_bins > 0
        &&& e.bin_length > 0
        &&& e.rebin_count == 1 ==> e.stderr.nan()
        &&& e.rebin_count != 1 ==> e.stderr.finite() && e.stderr.nonnegative()
    }) by {
        assert(is_valid_scalar(v.tasks[i].observables[k].1));
    }
}

/// A result is written as its stored form is, where it is valid, and else refused for the schema.
pub proof fn law_results_are_written_as_stored<P>(
    result: JobResult<P>,
    path: &str,
    texts: Vec<Vec<u8>>,
    checked: Result<(), GenericJobError>,
    image: Result<Vec<u8>, GenericJobError>,
    back: Result<StoredResult, GenericJobError>,
    again: Result<StoredResult, GenericJobError>,
    bytes: Vec<u8>,
)
    requires
        texts@.len() == result.tasks@.len(),
        call_ensures(validate_result_schema::<P>, (path, &result), checked),
        call_ensures(JobResult::<P>::write_hdf5, (&result, path, texts), image),
        call_ensures(JobResult::<P>::read_hdf5, (path, bytes), back),
        call_ensures(read_result, (path, bytes), again),
    ensures
        checked is Err ==> image is Err,
        image is Ok ==> checked is Ok,
        back is Ok <==> again is Ok,
        back matches Ok(b) ==> b.rank == again->Ok_0.rank && b.world_size
            == again->Ok_0.world_size && b.job_name@ == again->Ok_0.job_name@,
        image matches Err(e) ==> match e {
            GenericJobError::Schema { path: p, reason: _ } => p@ == path@,
            GenericJobError::Hdf5 { path: p, reason: _ } => p@ == path@,
            _ => false,
        },
{
}

/// What is said of a stored result is what stands in its fields.
pub proof fn law_stored_results_show_their_fields(r: StoredResult, i: int)
    requires
        0 <= i < r.tasks@.len(),
    ensures
        r@.job_name == r.job_name@,
        r@.rank == r.rank,
        r@.world_size == r.world_size,
        r@.tasks.len() == r.tasks@.len(),
        r@.tasks[i].task == r.tasks@[i].task@,
        r@.tasks[i].task_index == r.tasks@[i].task_index,
        r@.tasks[i].completed == r.tasks@[i].completed,
        r@.tasks[i].thermalization_sweeps == r.tasks@[i].thermalization_sweeps,
        r@.tasks[i].measurement_sweeps == r.tasks@[i].measurement_sweeps,
        r@.tasks[i].observables == r.tasks@[i].observables@,
{
}

} // verus!
