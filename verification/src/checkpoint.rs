//! The checkpoint file: its layout, its writer, its reader and its validity.

#[allow(unused_imports)]
use crate::catalog::{
    ascending, distinct_names, has_name, lemma_ascending_distinct, lemma_ascending_unique,
    lemma_fresh_entry, lemma_same_names, same_entries,
};
use crate::catalog::Catalog;
use crate::error::{schema, GenericJobError};
#[allow(unused_imports)]
use crate::faults::{first_fault, lemma_first_fault, lemma_no_fault, or_fault};
#[allow(unused_imports)]
use crate::hdf5::{
    dataset_names, file_image, file_tree, finding_group, finishing, group_names, group_tree,
    groups_at, holds_file, holds_group, is_plain_name, is_writable, is_writable_file, joined,
    lemma_writable_branch, lemma_writable_leaf, AttributeView, FileTree, GroupTree,
};
use crate::hdf5::{new_file, MAX_DEPTH};
use crate::json::{member_equals, parse_json};
#[allow(unused_imports)]
use crate::json::{has_member, is_json, json_equal, json_member, json_value};
#[allow(unused_imports)]
use crate::layout::{
    bytes_dataset, checks, count_fault, count_in, failed, fails, fault_if, group_fault,
    groups_only_fault, json_fault, json_in, kind_fault, lemma_dataset_reads_back,
    lemma_leaf_reads_back, lemma_list_is_filled, lemma_numbered, lemma_root_attributes,
    lemma_scalar_is_filled, numbered, numbering_fault, real_dataset, real_fault, real_in,
    reals_dataset, reals_fault, reals_in, root_fault, slices, text_fault, text_in, word_dataset,
    word_fault, word_in, words_dataset, words_fault, words_in, Fault,
};
use crate::layout::{
    add_bytes, add_f64, add_reals, add_u64, add_utf8, add_words, exact_group, exact_root_group,
    find_group, finish_hdf5, groups_only, member, numbered_groups, numbered_name, open_hdf5,
    read_f64_array, read_f64_scalar, read_json, read_u64_array, read_u64_scalar, read_usize,
    read_utf8, set_root_attrs, VERSION,
};
#[allow(unused_imports)]
use crate::catalog::{lemma_value_of, value_of};
#[allow(unused_imports)]
use crate::hdf5::{listing_groups, reading_bytes};
#[allow(unused_imports)]
use crate::layout::{
    bytes_stand_at, law_exact_groups, law_lists_read_as_they_stand, law_numbered_groups,
    law_scalars_read_as_they_stand, members_stand_at, real_stands_at, reals_stand_at,
    text_stands_at, word_stands_at, words_stand_at,
};
#[allow(unused_imports)]
use crate::number::Real;
use crate::simulation::{AccumulatorView, CompactAccumulator};
#[allow(unused_imports)]
use crate::text::padded;
use crate::text::texts;
use vstd::prelude::*;
#[allow(unused_imports)]
use vstd::utf8::{decode_utf8, encode_utf8, valid_utf8};

verus! {

/// The kind that the root of a checkpoint file names.
pub const KIND: &'static str = "carlo-mc-checkpoint";

/// The version of what a checkpoint holds.
pub const CHECKPOINT_PAYLOAD_SCHEMA_VERSION: u32 = 1;

/// What a checkpoint file holds. The task, its parameters and the model stand as JSON texts.
#[derive(Debug)]
pub struct StoredCheckpoint {
    pub schema_version: u32,
    pub rank: usize,
    pub world_size: usize,
    pub job_name: String,
    pub task_index: usize,
    pub task: Vec<u8>,
    pub parameters: Vec<u8>,
    pub model: Vec<u8>,
    pub rng_position_words: [u64; 2],
    pub thermalization_sweeps: usize,
    pub measurement_sweeps: usize,
    pub observables: Catalog<CompactAccumulator>,
}

/// What a checkpoint file says.
#[verifier::ext_equal]
pub struct StoredCheckpointView {
    pub schema_version: u32,
    pub rank: usize,
    pub world_size: usize,
    pub job_name: Seq<char>,
    pub task_index: usize,
    pub task: Seq<u8>,
    pub parameters: Seq<u8>,
    pub model: Seq<u8>,
    pub rng_position_words: Seq<u64>,
    pub thermalization_sweeps: usize,
    pub measurement_sweeps: usize,
    pub observables: Seq<(Seq<char>, AccumulatorView)>,
}

impl View for StoredCheckpoint {
    type V = StoredCheckpointView;

    open spec fn view(&self) -> StoredCheckpointView {
        StoredCheckpointView {
            schema_version: self.schema_version,
            rank: self.rank,
            world_size: self.world_size,
            job_name: self.job_name@,
            task_index: self.task_index,
            task: self.task@,
            parameters: self.parameters@,
            model: self.model@,
            rng_position_words: self.rng_position_words@,
            thermalization_sweeps: self.thermalization_sweeps,
            measurement_sweeps: self.measurement_sweeps,
            observables: self.observables@,
        }
    }
}

/// The group of one observable.
pub open spec fn observable_tree(index: nat, entry: (Seq<char>, AccumulatorView)) -> GroupTree {
    GroupTree {
        name: numbered("observable"@, index),
        datasets: seq![
            bytes_dataset("name"@, encode_utf8(entry.0)),
            reals_dataset("internal_bins"@, entry.1.internal_bins),
            real_dataset("pending_sum"@, entry.1.pending_sum),
            word_dataset("pending_count"@, entry.1.pending_count as u64),
            word_dataset("total_count"@, entry.1.total_count as u64),
            word_dataset("bin_length"@, entry.1.binsize as u64),
        ],
        groups: Seq::empty(),
    }
}

/// The groups of the observables, numbered in order.
pub open spec fn observable_trees(observables: Seq<(Seq<char>, AccumulatorView)>) -> Seq<GroupTree> {
    Seq::new(observables.len(), |i: int| observable_tree(i as nat, observables[i]))
}

/// The group of what identifies a checkpoint.
pub open spec fn metadata_tree(c: StoredCheckpointView) -> GroupTree {
    GroupTree {
        name: "metadata"@,
        datasets: seq![
            word_dataset("schema"@, c.schema_version as u64),
            bytes_dataset("job"@, encode_utf8(c.job_name)),
            bytes_dataset("task"@, c.task),
            bytes_dataset("model"@, c.model),
            bytes_dataset("parameters"@, c.parameters),
        ],
        groups: Seq::empty(),
    }
}

/// The group of the rank and the number of ranks.
pub open spec fn assignment_tree(c: StoredCheckpointView) -> GroupTree {
    GroupTree {
        name: "assignment"@,
        datasets: seq![
            word_dataset("rank"@, c.rank as u64),
            word_dataset("world_size"@, c.world_size as u64),
        ],
        groups: Seq::empty(),
    }
}

/// The group of the sweep counts.
pub open spec fn progress_tree(c: StoredCheckpointView) -> GroupTree {
    GroupTree {
        name: "progress"@,
        datasets: seq![
            word_dataset("task_index"@, c.task_index as u64),
            word_dataset("thermalization_sweeps"@, c.thermalization_sweeps as u64),
            word_dataset("measurement_sweeps"@, c.measurement_sweeps as u64),
        ],
        groups: Seq::empty(),
    }
}

/// The group of the random stream.
pub open spec fn state_tree(c: StoredCheckpointView) -> GroupTree {
    GroupTree {
        name: "state"@,
        datasets: seq![words_dataset("rng_position"@, c.rng_position_words)],
        groups: Seq::empty(),
    }
}

/// The group of all observables.
pub open spec fn observables_tree(c: StoredCheckpointView) -> GroupTree {
    GroupTree {
        name: "observables"@,
        datasets: Seq::empty(),
        groups: observable_trees(c.observables),
    }
}

/// The layout of a checkpoint file.
pub open spec fn checkpoint_tree(c: StoredCheckpointView) -> FileTree {
    FileTree {
        attributes: seq![
            ("carlo_kind"@, AttributeView::Text(KIND@)),
            ("schema_version"@, AttributeView::Word(VERSION)),
        ],
        groups: seq![
            metadata_tree(c),
            assignment_tree(c),
            progress_tree(c),
            state_tree(c),
            observables_tree(c),
        ],
    }
}

proof fn lemma_names_are_plain()
    ensures
        is_plain_name("carlo_kind"@),
        is_plain_name("schema_version"@),
        is_plain_name("metadata"@),
        is_plain_name("assignment"@),
        is_plain_name("progress"@),
        is_plain_name("state"@),
        is_plain_name("observables"@),
        is_plain_name("observable"@),
        is_plain_name("schema"@),
        is_plain_name("job"@),
        is_plain_name("task"@),
        is_plain_name("model"@),
        is_plain_name("parameters"@),
        is_plain_name("rank"@),
        is_plain_name("world_size"@),
        is_plain_name("task_index"@),
        is_plain_name("thermalization_sweeps"@),
        is_plain_name("measurement_sweeps"@),
        is_plain_name("rng_position"@),
        is_plain_name("name"@),
        is_plain_name("internal_bins"@),
        is_plain_name("pending_sum"@),
        is_plain_name("pending_count"@),
        is_plain_name("total_count"@),
        is_plain_name("bin_length"@),
{
    reveal_strlit("carlo_kind");
    reveal_strlit("schema_version");
    reveal_strlit("metadata");
    reveal_strlit("assignment");
    reveal_strlit("progress");
    reveal_strlit("state");
    reveal_strlit("observables");
    reveal_strlit("observable");
    reveal_strlit("schema");
    reveal_strlit("job");
    reveal_strlit("task");
    reveal_strlit("model");
    reveal_strlit("parameters");
    reveal_strlit("rank");
    reveal_strlit("world_size");
    reveal_strlit("task_index");
    reveal_strlit("thermalization_sweeps");
    reveal_strlit("measurement_sweeps");
    reveal_strlit("rng_position");
    reveal_strlit("name");
    reveal_strlit("internal_bins");
    reveal_strlit("pending_sum");
    reveal_strlit("pending_count");
    reveal_strlit("total_count");
    reveal_strlit("bin_length");
}

/// Whether a checkpoint is small enough for its file: every length fits a word, and the
/// observables can be numbered with four digits.
pub open spec fn fits_file(c: StoredCheckpointView) -> bool {
    &&& encode_utf8(c.job_name).len() <= u64::MAX
    &&& c.task.len() <= u64::MAX
    &&& c.parameters.len() <= u64::MAX
    &&& c.model.len() <= u64::MAX
    &&& c.rng_position_words.len() == 2
    &&& c.observables.len() <= 10_000
    &&& forall|i: int|
        0 <= i < c.observables.len() ==> encode_utf8((#[trigger] c.observables[i]).0).len()
            <= u64::MAX && c.observables[i].1.internal_bins.len() <= u64::MAX
}

proof fn lemma_observable_is_writable(index: nat, entry: (Seq<char>, AccumulatorView))
    requires
        encode_utf8(entry.0).len() <= u64::MAX,
        entry.1.internal_bins.len() <= u64::MAX,
    ensures
        is_writable(observable_tree(index, entry), (MAX_DEPTH - 1) as nat),
{
    lemma_names_are_plain();
    lemma_numbered("observable"@, index, index);
    lemma_list_is_filled("name"@);
    lemma_list_is_filled("internal_bins"@);
    lemma_scalar_is_filled("pending_sum"@);
    lemma_scalar_is_filled("pending_count"@);
    lemma_scalar_is_filled("total_count"@);
    lemma_scalar_is_filled("bin_length"@);
    reveal_strlit("name");
    reveal_strlit("internal_bins");
    reveal_strlit("pending_sum");
    reveal_strlit("pending_count");
    reveal_strlit("total_count");
    reveal_strlit("bin_length");
    assert("internal_bins"@[0] != "pending_count"@[0]);
    assert("pending_sum"@[0] != "total_count"@[0]);
    lemma_writable_leaf(observable_tree(index, entry), (MAX_DEPTH - 1) as nat);
}

proof fn lemma_fixed_groups_are_writable(c: StoredCheckpointView)
    requires
        fits_file(c),
    ensures
        is_writable(metadata_tree(c), MAX_DEPTH as nat),
        is_writable(assignment_tree(c), MAX_DEPTH as nat),
        is_writable(progress_tree(c), MAX_DEPTH as nat),
        is_writable(state_tree(c), MAX_DEPTH as nat),
{
    lemma_names_are_plain();
    lemma_scalar_is_filled("schema"@);
    lemma_list_is_filled("job"@);
    lemma_list_is_filled("task"@);
    lemma_list_is_filled("model"@);
    lemma_list_is_filled("parameters"@);
    lemma_scalar_is_filled("rank"@);
    lemma_scalar_is_filled("world_size"@);
    lemma_scalar_is_filled("task_index"@);
    lemma_scalar_is_filled("thermalization_sweeps"@);
    lemma_scalar_is_filled("measurement_sweeps"@);
    lemma_list_is_filled("rng_position"@);
    reveal_strlit("schema");
    reveal_strlit("job");
    reveal_strlit("task");
    reveal_strlit("model");
    reveal_strlit("parameters");
    lemma_writable_leaf(metadata_tree(c), MAX_DEPTH as nat);
    reveal_strlit("rank");
    reveal_strlit("world_size");
    lemma_writable_leaf(assignment_tree(c), MAX_DEPTH as nat);
    reveal_strlit("task_index");
    reveal_strlit("thermalization_sweeps");
    reveal_strlit("measurement_sweeps");
    lemma_writable_leaf(progress_tree(c), MAX_DEPTH as nat);
    lemma_writable_leaf(state_tree(c), MAX_DEPTH as nat);
}

proof fn lemma_checkpoint_is_writable(c: StoredCheckpointView)
    requires
        fits_file(c),
    ensures
        is_writable_file(checkpoint_tree(c)),
{
    lemma_names_are_plain();
    lemma_fixed_groups_are_writable(c);
    let members = observables_tree(c);
    assert forall|i: int, j: int| 0 <= i < j < members.groups.len() implies (
    #[trigger] members.groups[i]).name != (#[trigger] members.groups[j]).name by {
        lemma_numbered("observable"@, i as nat, j as nat);
    }
    assert forall|i: int| 0 <= i < members.groups.len() implies is_writable(
        #[trigger] members.groups[i],
        (MAX_DEPTH - 1) as nat,
    ) by {
        lemma_observable_is_writable(i as nat, c.observables[i]);
    }
    lemma_writable_branch(members, MAX_DEPTH as nat);
    let file = checkpoint_tree(c);
    reveal_strlit("metadata");
    reveal_strlit("assignment");
    reveal_strlit("progress");
    reveal_strlit("state");
    reveal_strlit("observables");
    reveal_strlit("carlo_kind");
    reveal_strlit("schema_version");
    reveal_strlit("carlo-mc-checkpoint");
    assert(!KIND@.contains('\0'));
    assert("metadata"@[0] != "progress"@[0]);
    let names = group_names(file.groups);
    assert(names =~= seq![
        "metadata"@,
        "assignment"@,
        "progress"@,
        "state"@,
        "observables"@,
    ]);
}

/// Why a checkpoint cannot be written: it has too many observables, or the HDF5 library gives up
/// on it.
pub open spec fn writing_fault(c: StoredCheckpointView) -> Fault {
    or_fault(
        fault_if(
            c.observables.len() > 10_000,
            "too many checkpoint observables for four-digit names"@,
        ),
        failed(finishing(checkpoint_tree(c))),
    )
}

/// Whether writing a checkpoint gave a file that holds it, or reported why it cannot be written.
pub open spec fn writes_checkpoint(
    path: Seq<char>,
    c: StoredCheckpointView,
    image: Result<Vec<u8>, GenericJobError>,
) -> bool {
    match image {
        Ok(bytes) => {
            &&& writing_fault(c) is None
            &&& fits_file(c)
            &&& ascending(c.observables)
            &&& holds_file(bytes@, checkpoint_tree(c))
        },
        Err(e) => fails(e, path, writing_fault(c)),
    }
}

/// Encodes a checkpoint.
pub fn write_checkpoint(path: &str, checkpoint: &StoredCheckpoint) -> (image: Result<
    Vec<u8>,
    GenericJobError,
>)
    ensures
        writes_checkpoint(path@, checkpoint@, image),
{
    if checkpoint.observables.len() > 10_000 {
        return Err(schema(path, "too many checkpoint observables for four-digit names"));
    }
    let ghost c = checkpoint@;
    let mut builder = new_file();
    set_root_attrs(&mut builder, KIND);

    let mut metadata = builder.create_group("metadata");
    add_u64(&mut metadata, "schema", checkpoint.schema_version as u64);
    add_utf8(&mut metadata, "job", checkpoint.job_name.as_str());
    add_bytes(&mut metadata, "task", checkpoint.task.as_slice());
    add_bytes(&mut metadata, "model", checkpoint.model.as_slice());
    add_bytes(&mut metadata, "parameters", checkpoint.parameters.as_slice());
    assert(group_tree(metadata) =~= metadata_tree(c));
    builder.add_group(metadata.finish());

    let mut assignment = builder.create_group("assignment");
    add_u64(&mut assignment, "rank", checkpoint.rank as u64);
    add_u64(&mut assignment, "world_size", checkpoint.world_size as u64);
    assert(group_tree(assignment) =~= assignment_tree(c));
    builder.add_group(assignment.finish());

    let mut progress = builder.create_group("progress");
    add_u64(&mut progress, "task_index", checkpoint.task_index as u64);
    add_u64(&mut progress, "thermalization_sweeps", checkpoint.thermalization_sweeps as u64);
    add_u64(&mut progress, "measurement_sweeps", checkpoint.measurement_sweeps as u64);
    assert(group_tree(progress) =~= progress_tree(c));
    builder.add_group(progress.finish());

    let mut state = builder.create_group("state");
    add_words(&mut state, "rng_position", &checkpoint.rng_position_words);
    assert(group_tree(state) =~= state_tree(c));
    builder.add_group(state.finish());

    let mut observables = builder.create_group("observables");
    let mut index: usize = 0;
    let count: usize = checkpoint.observables.len();
    assert(observable_trees(c.observables).take(0) =~= Seq::empty());
    while index < count
        invariant
            index <= count,
            count == c.observables.len(),
            c.observables == checkpoint.observables@,
            group_tree(observables) == (GroupTree {
                name: "observables"@,
                datasets: Seq::empty(),
                groups: observable_trees(c.observables).take(index as int),
            }),
            forall|i: int|
                0 <= i < index ==> encode_utf8((#[trigger] c.observables[i]).0).len() <= u64::MAX
                    && c.observables[i].1.internal_bins.len() <= u64::MAX,
        decreases count - index,
    {
        let ghost entry = c.observables[index as int];
        let accumulator = checkpoint.observables.value_at(index);
        let mut observable = observables.create_group(
            numbered_name("observable", index).as_str(),
        );
        add_utf8(&mut observable, "name", checkpoint.observables.name_at(index).as_str());
        add_reals(&mut observable, "internal_bins", &accumulator.internal_bins);
        add_f64(&mut observable, "pending_sum", accumulator.pending_sum);
        add_u64(&mut observable, "pending_count", accumulator.pending_count as u64);
        add_u64(&mut observable, "total_count", accumulator.total_count as u64);
        add_u64(&mut observable, "bin_length", accumulator.binsize as u64);
        assert(group_tree(observable) =~= observable_tree(index as nat, entry));
        observables.add_group(observable.finish());
        index = index + 1;
        assert(observable_trees(c.observables).take(index as int) =~= observable_trees(
            c.observables,
        ).take(index - 1).push(observable_tree((index - 1) as nat, entry)));
    }
    assert(observable_trees(c.observables).take(index as int) =~= observable_trees(
        c.observables,
    ));
    builder.add_group(observables.finish());
    assert(file_tree(builder) =~= checkpoint_tree(c));
    proof {
        lemma_checkpoint_is_writable(c);
    }
    finish_hdf5(path, builder)
}

/// The names of the datasets of an observable.
pub open spec fn observable_members() -> Seq<Seq<char>> {
    seq![
        "name"@,
        "internal_bins"@,
        "pending_sum"@,
        "pending_count"@,
        "total_count"@,
        "bin_length"@,
    ]
}

/// Why a group of a file holds no observable.
pub open spec fn observable_fault(image: Seq<u8>, base: Seq<char>) -> Fault {
    or_fault(
        group_fault(image, base, observable_members(), Seq::empty()),
        or_fault(
            text_fault(image, joined(base, "name"@)),
            or_fault(
                reals_fault(image, joined(base, "internal_bins"@)),
                or_fault(
                    real_fault(image, joined(base, "pending_sum"@)),
                    or_fault(
                        count_fault(image, joined(base, "pending_count"@)),
                        or_fault(
                            count_fault(image, joined(base, "total_count"@)),
                            count_fault(image, joined(base, "bin_length"@)),
                        ),
                    ),
                ),
            ),
        ),
    )
}

/// The observable that a group of a file holds.
pub open spec fn observable_in(image: Seq<u8>, base: Seq<char>) -> Option<
    (Seq<char>, AccumulatorView),
> {
    if observable_fault(image, base) is None {
        Some(
            (
                text_in(image, joined(base, "name"@))->0,
                AccumulatorView {
                    internal_bins: reals_in(image, joined(base, "internal_bins"@))->0,
                    pending_sum: real_in(image, joined(base, "pending_sum"@))->0,
                    pending_count: count_in(image, joined(base, "pending_count"@))->0,
                    total_count: count_in(image, joined(base, "total_count"@))->0,
                    binsize: count_in(image, joined(base, "bin_length"@))->0,
                },
            ),
        )
    } else {
        None
    }
}

/// The path of a numbered observable.
pub open spec fn observable_path(index: nat) -> Seq<char> {
    joined("observables"@, numbered("observable"@, index))
}

/// The observables that a file holds, in the order of their numbers.
pub open spec fn observables_in(image: Seq<u8>) -> Seq<(Seq<char>, AccumulatorView)> {
    Seq::new(
        groups_at(image, "observables"@).len(),
        |i: int| observable_in(image, observable_path(i as nat))->0,
    )
}

/// Why the groups of a file are not those of a checkpoint, its kind left aside.
pub open spec fn layout_fault(image: Seq<u8>) -> Fault {
    or_fault(
        root_fault(
            image,
            Seq::empty(),
            Seq::empty(),
            seq!["metadata"@, "assignment"@, "progress"@, "state"@, "observables"@],
        ),
        or_fault(
            group_fault(
                image,
                "metadata"@,
                seq!["schema"@, "job"@, "task"@, "model"@, "parameters"@],
                Seq::empty(),
            ),
            or_fault(
                group_fault(image, "assignment"@, seq!["rank"@, "world_size"@], Seq::empty()),
                or_fault(
                    group_fault(
                        image,
                        "progress"@,
                        seq!["task_index"@, "thermalization_sweeps"@, "measurement_sweeps"@],
                        Seq::empty(),
                    ),
                    group_fault(image, "state"@, seq!["rng_position"@], Seq::empty()),
                ),
            ),
        ),
    )
}

/// Why the observable with a number cannot be read. Its name must differ from those of the
/// observables before it.
pub open spec fn entry_fault(image: Seq<u8>, index: int) -> Fault {
    or_fault(
        observable_fault(image, observable_path(index as nat)),
        fault_if(
            has_name(observables_in(image).take(index), observables_in(image)[index].0),
            "duplicate checkpoint observable name"@,
        ),
    )
}

/// Why the observables with their numbers cannot be read, one by one.
pub open spec fn entry_faults(image: Seq<u8>) -> Seq<Fault> {
    Seq::new(groups_at(image, "observables"@).len(), |i: int| entry_fault(image, i))
}

/// Why the observables of a file cannot be read.
pub open spec fn observables_fault(image: Seq<u8>) -> Fault {
    or_fault(
        failed(finding_group(image, "observables"@)),
        or_fault(
            numbering_fault(image, "observables"@, "observable"@),
            or_fault(groups_only_fault(image, "observables"@), first_fault(entry_faults(image))),
        ),
    )
}

/// Why a dataset is not a JSON text.
pub open spec fn document_fault(image: Seq<u8>, name: Seq<char>) -> Fault {
    or_fault(
        json_fault(image, name),
        fault_if(!is_json(json_in(image, name)->0), "invalid JSON dataset"@),
    )
}

/// Why the task of a checkpoint cannot be read: the JSON texts of the task and of its parameters,
/// which must be those in the task.
pub open spec fn task_texts_fault(image: Seq<u8>) -> Fault {
    let task = joined("metadata"@, "task"@);
    let parameters = joined("metadata"@, "parameters"@);
    or_fault(
        document_fault(image, task),
        or_fault(
            document_fault(image, parameters),
            fault_if(
                !has_member(json_in(image, task)->0, "parameters"@, json_in(image, parameters)->0),
                "checkpoint parameters do not match task"@,
            ),
        ),
    )
}

/// Why the identity of a checkpoint cannot be read.
pub open spec fn identity_fault(image: Seq<u8>) -> Fault {
    let version = joined("metadata"@, "schema"@);
    or_fault(
        word_fault(image, version),
        or_fault(
            fault_if(
                word_in(image, version)->0 > u32::MAX,
                "checkpoint schema version exceeds u32"@,
            ),
            or_fault(
                count_fault(image, joined("assignment"@, "rank"@)),
                or_fault(
                    count_fault(image, joined("assignment"@, "world_size"@)),
                    or_fault(
                        text_fault(image, joined("metadata"@, "job"@)),
                        count_fault(image, joined("progress"@, "task_index"@)),
                    ),
                ),
            ),
        ),
    )
}

/// Why the position of a run cannot be read from its checkpoint.
pub open spec fn position_fault(image: Seq<u8>) -> Fault {
    or_fault(
        words_fault(image, joined("state"@, "rng_position"@), 2),
        or_fault(
            count_fault(image, joined("progress"@, "thermalization_sweeps"@)),
            count_fault(image, joined("progress"@, "measurement_sweeps"@)),
        ),
    )
}

/// Why the head of a checkpoint file cannot be read: all that comes up to its task.
pub open spec fn head_fault(image: Seq<u8>) -> Fault {
    or_fault(
        kind_fault(image, KIND@),
        or_fault(
            layout_fault(image),
            or_fault(identity_fault(image), task_texts_fault(image)),
        ),
    )
}

/// Why a file is not a checkpoint file.
pub open spec fn checkpoint_fault(image: Seq<u8>) -> Fault {
    or_fault(
        head_fault(image),
        or_fault(
            document_fault(image, joined("metadata"@, "model"@)),
            or_fault(position_fault(image), observables_fault(image)),
        ),
    )
}

/// Whether a file is a checkpoint file that says `c`.
pub open spec fn checkpoint_in(image: Seq<u8>, c: StoredCheckpointView) -> bool {
    &&& checkpoint_fault(image) is None
    &&& word_in(image, joined("metadata"@, "schema"@)) == Some(c.schema_version as u64)
    &&& count_in(image, joined("assignment"@, "rank"@)) == Some(c.rank)
    &&& count_in(image, joined("assignment"@, "world_size"@)) == Some(c.world_size)
    &&& text_in(image, joined("metadata"@, "job"@)) == Some(c.job_name)
    &&& count_in(image, joined("progress"@, "task_index"@)) == Some(c.task_index)
    &&& json_in(image, joined("metadata"@, "task"@)) == Some(c.task)
    &&& json_in(image, joined("metadata"@, "parameters"@)) == Some(c.parameters)
    &&& json_in(image, joined("metadata"@, "model"@)) == Some(c.model)
    &&& words_in(image, joined("state"@, "rng_position"@), 2) == Some(c.rng_position_words)
    &&& count_in(image, joined("progress"@, "thermalization_sweeps"@)) == Some(
        c.thermalization_sweeps,
    )
    &&& count_in(image, joined("progress"@, "measurement_sweeps"@)) == Some(c.measurement_sweeps)
    &&& ascending(c.observables)
    &&& same_entries(c.observables, observables_in(image))
}

/// Checks the groups of a checkpoint file.
fn check_layout(path: &str, file: &hdf5_pure::File) -> (checked: Result<(), GenericJobError>)
    ensures
        checks(checked, path@, layout_fault(file_image(*file))),
{
    let none: [&str; 0] = [];
    let root: [&str; 5] = ["metadata", "assignment", "progress", "state", "observables"];
    let metadata: [&str; 5] = ["schema", "job", "task", "model", "parameters"];
    let assignment: [&str; 2] = ["rank", "world_size"];
    let progress: [&str; 3] = ["task_index", "thermalization_sweeps", "measurement_sweeps"];
    let state: [&str; 1] = ["rng_position"];
    assert(slices(none@) =~= Seq::empty());
    assert(slices(root@) =~= seq![
        "metadata"@,
        "assignment"@,
        "progress"@,
        "state"@,
        "observables"@,
    ]);
    assert(slices(metadata@) =~= seq!["schema"@, "job"@, "task"@, "model"@, "parameters"@]);
    assert(slices(assignment@) =~= seq!["rank"@, "world_size"@]);
    assert(slices(progress@) =~= seq![
        "task_index"@,
        "thermalization_sweeps"@,
        "measurement_sweeps"@,
    ]);
    assert(slices(state@) =~= seq!["rng_position"@]);
    exact_root_group(path, file.root(), &none, &root)?;
    exact_group(path, find_group(path, file, "metadata")?, &metadata, &none)?;
    exact_group(path, find_group(path, file, "assignment")?, &assignment, &none)?;
    exact_group(path, find_group(path, file, "progress")?, &progress, &none)?;
    exact_group(path, find_group(path, file, "state")?, &state, &none)
}

/// Reads one observable.
fn read_observable(path: &str, file: &hdf5_pure::File, base: &str) -> (entry: Result<
    (String, CompactAccumulator),
    GenericJobError,
>)
    ensures
        match entry {
            Ok((name, accumulator)) => observable_in(file_image(*file), base@) == Some(
                (name@, accumulator@),
            ),
            Err(e) => fails(e, path@, observable_fault(file_image(*file), base@)),
        },
{
    let none: [&str; 0] = [];
    let members: [&str; 6] = [
        "name",
        "internal_bins",
        "pending_sum",
        "pending_count",
        "total_count",
        "bin_length",
    ];
    assert(slices(none@) =~= Seq::empty());
    assert(slices(members@) =~= observable_members());
    exact_group(path, find_group(path, file, base)?, &members, &none)?;
    let name = read_utf8(path, file, member(base, "name").as_str())?;
    let accumulator = CompactAccumulator {
        internal_bins: read_f64_array(path, file, member(base, "internal_bins").as_str())?,
        pending_sum: read_f64_scalar(path, file, member(base, "pending_sum").as_str())?,
        pending_count: read_usize(path, file, member(base, "pending_count").as_str())?,
        total_count: read_usize(path, file, member(base, "total_count").as_str())?,
        binsize: read_usize(path, file, member(base, "bin_length").as_str())?,
    };
    Ok((name, accumulator))
}

/// Reads all observables.
fn read_observables(path: &str, file: &hdf5_pure::File) -> (observables: Result<
    Catalog<CompactAccumulator>,
    GenericJobError,
>)
    ensures
        match observables {
            Ok(catalog) => {
                &&& observables_fault(file_image(*file)) is None
                &&& ascending(catalog@)
                &&& same_entries(catalog@, observables_in(file_image(*file)))
            },
            Err(e) => fails(e, path@, observables_fault(file_image(*file))),
        },
{
    let ghost image = file_image(*file);
    let parent = find_group(path, file, "observables")?;
    let groups = numbered_groups(path, &parent, "observable")?;
    groups_only(path, &parent)?;
    let ghost held = observables_in(image);
    let ghost faults = entry_faults(image);
    let mut observables: Catalog<CompactAccumulator> = Catalog::new();
    let mut index: usize = 0;
    while index < groups.len()
        invariant
            index <= groups.len(),
            image == file_image(*file),
            held == observables_in(image),
            faults == entry_faults(image),
            texts(groups@) == groups_at(image, "observables"@),
            failed(finding_group(image, "observables"@)) is None,
            numbering_fault(image, "observables"@, "observable"@) is None,
            groups_only_fault(image, "observables"@) is None,
            forall|i: int| 0 <= i < index ==> #[trigger] faults[i] is None,
            forall|i: int|
                0 <= i < index ==> (#[trigger] observable_in(image, observable_path(i as nat))) is Some,
            distinct_names(held.take(index as int)),
            ascending(observables@),
            same_entries(observables@, held.take(index as int)),
        decreases groups.len() - index,
    {
        let ghost before = observables@;
        let ghost taken = held.take(index as int);
        let ghost more = held.take(index + 1);
        proof {
            assert(texts(groups@)[index as int] == groups@[index as int]@);
            assert(groups@[index as int]@ == numbered("observable"@, index as nat));
            assert(more =~= taken.push(held[index as int]));
        }
        let base = member("observables", groups[index].as_str());
        assert(base@ == observable_path(index as nat));
        assert(faults[index as int] == entry_fault(image, index as int));
        let (name, accumulator) = match read_observable(path, file, base.as_str()) {
            Ok(entry) => entry,
            Err(error) => {
                proof {
                    if faults[index as int] is Some {
                        lemma_first_fault(faults, index as int);
                    }
                }
                return Err(error);
            },
        };
        let ghost entry = (name@, accumulator@);
        assert(held[index as int] == entry);
        proof {
            lemma_same_names(before, taken, entry.0);
        }
        let previous = observables.insert(name, accumulator);
        if previous.is_some() {
            proof {
                lemma_first_fault(faults, index as int);
            }
            return Err(schema(path, "duplicate checkpoint observable name"));
        }
        proof {
            lemma_fresh_entry(before, taken, entry);
            assert forall|e: (Seq<char>, AccumulatorView)| #[trigger]
                observables@.contains(e) <==> more.contains(e) by {
                if more.contains(e) {
                    let k = choose|k: int| 0 <= k < more.len() && more[k] == e;
                    if k < index {
                        assert(taken[k] == e);
                        assert(taken.contains(e));
                        assert(before.contains(e));
                    }
                }
                if observables@.contains(e) {
                    if e == entry {
                        assert(more[index as int] == e);
                    } else {
                        assert(before.contains(e));
                        assert(taken.contains(e));
                        let k = choose|k: int| 0 <= k < taken.len() && taken[k] == e;
                        assert(more[k] == e);
                    }
                }
            }
        }
        index = index + 1;
    }
    assert(texts(groups@).len() == groups@.len());
    assert(held.take(index as int) =~= held);
    proof {
        lemma_no_fault(faults);
    }
    Ok(observables)
}

/// What comes first in a checkpoint file, up to the task.
struct Head {
    schema_version: u32,
    rank: usize,
    world_size: usize,
    job_name: String,
    task_index: usize,
    task: Vec<u8>,
    parameters: Vec<u8>,
}

impl Head {
    /// Whether this is what the head of a file says.
    spec fn said_by(self, image: Seq<u8>) -> bool {
        &&& head_fault(image) is None
        &&& word_in(image, joined("metadata"@, "schema"@)) == Some(self.schema_version as u64)
        &&& count_in(image, joined("assignment"@, "rank"@)) == Some(self.rank)
        &&& count_in(image, joined("assignment"@, "world_size"@)) == Some(self.world_size)
        &&& text_in(image, joined("metadata"@, "job"@)) == Some(self.job_name@)
        &&& count_in(image, joined("progress"@, "task_index"@)) == Some(self.task_index)
        &&& json_in(image, joined("metadata"@, "task"@)) == Some(self.task@)
        &&& json_in(image, joined("metadata"@, "parameters"@)) == Some(self.parameters@)
    }
}

/// Reads a JSON text.
fn read_document(path: &str, file: &hdf5_pure::File, name: &str) -> (document: Result<
    (Vec<u8>, serde_json::Value),
    GenericJobError,
>)
    ensures
        match document {
            Ok((text, value)) => {
                &&& document_fault(file_image(*file), name@) is None
                &&& json_in(file_image(*file), name@) == Some(text@)
                &&& json_value(text@) == Some(value)
            },
            Err(e) => fails(e, path@, document_fault(file_image(*file), name@)),
        },
{
    let text = read_json(path, file, name)?;
    match parse_json(text.as_slice()) {
        Some(value) => Ok((text, value)),
        None => Err(schema(path, "invalid JSON dataset")),
    }
}

/// Opens a checkpoint file and reads its head.
fn read_head(path: &str, bytes: Vec<u8>) -> (opened: Result<
    (hdf5_pure::File, Head),
    GenericJobError,
>)
    ensures
        match opened {
            Ok((file, head)) => file_image(file) == bytes@ && head.said_by(bytes@),
            Err(e) => fails(e, path@, head_fault(bytes@)),
        },
{
    let file = open_hdf5(path, bytes, KIND)?;
    check_layout(path, &file)?;
    let version: u64 = read_u64_scalar(path, &file, member("metadata", "schema").as_str())?;
    if version > u32::MAX as u64 {
        return Err(schema(path, "checkpoint schema version exceeds u32"));
    }
    let rank: usize = read_usize(path, &file, member("assignment", "rank").as_str())?;
    let world_size: usize = read_usize(path, &file, member("assignment", "world_size").as_str())?;
    let job_name = read_utf8(path, &file, member("metadata", "job").as_str())?;
    let task_index: usize = read_usize(path, &file, member("progress", "task_index").as_str())?;
    let (task, task_value) = read_document(path, &file, member("metadata", "task").as_str())?;
    let (parameters, parameters_value) = read_document(
        path,
        &file,
        member("metadata", "parameters").as_str(),
    )?;
    if !member_equals(&task_value, "parameters", &parameters_value) {
        return Err(schema(path, "checkpoint parameters do not match task"));
    }
    let schema_version: u32 = version as u32;
    Ok(
        (
            file,
            Head { schema_version, rank, world_size, job_name, task_index, task, parameters },
        ),
    )
}

/// Reads the JSON text of the task alone, as far as the file is sound up to there. A task that
/// cannot be decoded is reported before anything that comes later in the file.
pub fn read_task_text(path: &str, bytes: Vec<u8>) -> (text: Result<Vec<u8>, GenericJobError>)
    ensures
        match text {
            Ok(t) => head_fault(bytes@) is None && json_in(
                bytes@,
                joined("metadata"@, "task"@),
            ) == Some(t@),
            Err(e) => fails(e, path@, head_fault(bytes@)),
        },
{
    let (_, head) = read_head(path, bytes)?;
    Ok(head.task)
}

/// Whether reading a checkpoint gave what the file says, or reported the first fault.
pub open spec fn reads_checkpoint(
    path: Seq<char>,
    image: Seq<u8>,
    checkpoint: Result<StoredCheckpoint, GenericJobError>,
) -> bool {
    match checkpoint {
        Ok(c) => checkpoint_in(image, c@),
        Err(e) => fails(e, path, checkpoint_fault(image)),
    }
}

/// Decodes a checkpoint.
pub fn read_checkpoint(path: &str, bytes: Vec<u8>) -> (checkpoint: Result<
    StoredCheckpoint,
    GenericJobError,
>)
    ensures
        reads_checkpoint(path@, bytes@, checkpoint),
{
    let (file, head) = read_head(path, bytes)?;
    let (model, _) = read_document(path, &file, member("metadata", "model").as_str())?;
    let rng = read_u64_array(path, &file, member("state", "rng_position").as_str(), 2)?;
    let thermalization_sweeps: usize = read_usize(
        path,
        &file,
        member("progress", "thermalization_sweeps").as_str(),
    )?;
    let measurement_sweeps: usize = read_usize(
        path,
        &file,
        member("progress", "measurement_sweeps").as_str(),
    )?;
    let observables = read_observables(path, &file)?;
    let rng_position_words: [u64; 2] = [rng[0], rng[1]];
    assert(rng_position_words@ =~= rng@);
    Ok(
        StoredCheckpoint {
            schema_version: head.schema_version,
            rank: head.rank,
            world_size: head.world_size,
            job_name: head.job_name,
            task_index: head.task_index,
            task: head.task,
            parameters: head.parameters,
            model,
            rng_position_words,
            thermalization_sweeps,
            measurement_sweeps,
            observables,
        },
    )
}

/// Whether a checkpoint can be told from its file: the texts are JSON and agree with each other,
/// and no number is a signalling NaN.
pub open spec fn is_readable(c: StoredCheckpointView) -> bool {
    &&& valid_utf8(c.task)
    &&& valid_utf8(c.parameters)
    &&& valid_utf8(c.model)
    &&& has_member(c.task, "parameters"@, c.parameters)
    &&& is_json(c.model)
    &&& forall|i: int|
        0 <= i < c.observables.len() ==> !(#[trigger] c.observables[i]).1.pending_sum.signalling()
    &&& forall|i: int, k: int|
        0 <= i < c.observables.len() && 0 <= k < c.observables[i].1.internal_bins.len()
            ==> !(#[trigger] c.observables[i].1.internal_bins[k]).signalling()
}

proof fn lemma_observable_reads_back(
    image: Seq<u8>,
    base: Seq<char>,
    index: nat,
    entry: (Seq<char>, AccumulatorView),
)
    requires
        holds_group(image, base, observable_tree(index, entry)),
        encode_utf8(entry.0).len() <= u64::MAX,
        entry.1.internal_bins.len() <= u64::MAX,
        !entry.1.pending_sum.signalling(),
        forall|k: int|
            0 <= k < entry.1.internal_bins.len()
                ==> !(#[trigger] entry.1.internal_bins[k]).signalling(),
    ensures
        observable_in(image, base) == Some(entry),
{
    let tree = observable_tree(index, entry);
    lemma_leaf_reads_back(image, base, tree);
    assert(dataset_names(tree.datasets) =~= observable_members());
    assert(tree.datasets[0] == bytes_dataset("name"@, encode_utf8(entry.0)));
    assert(tree.datasets[1] == reals_dataset("internal_bins"@, entry.1.internal_bins));
    assert(tree.datasets[2] == real_dataset("pending_sum"@, entry.1.pending_sum));
    assert(tree.datasets[3] == word_dataset("pending_count"@, entry.1.pending_count as u64));
    assert(tree.datasets[4] == word_dataset("total_count"@, entry.1.total_count as u64));
    assert(tree.datasets[5] == word_dataset("bin_length"@, entry.1.binsize as u64));
    lemma_dataset_reads_back(image, joined(base, "name"@), "name"@);
    lemma_dataset_reads_back(image, joined(base, "internal_bins"@), "internal_bins"@);
    lemma_dataset_reads_back(image, joined(base, "pending_sum"@), "pending_sum"@);
    lemma_dataset_reads_back(image, joined(base, "pending_count"@), "pending_count"@);
    lemma_dataset_reads_back(image, joined(base, "total_count"@), "total_count"@);
    lemma_dataset_reads_back(image, joined(base, "bin_length"@), "bin_length"@);
}

proof fn lemma_metadata_reads_back(image: Seq<u8>, c: StoredCheckpointView)
    requires
        holds_group(image, "metadata"@, metadata_tree(c)),
        fits_file(c),
        is_readable(c),
    ensures
        group_fault(
            image,
            "metadata"@,
            seq!["schema"@, "job"@, "task"@, "model"@, "parameters"@],
            Seq::empty(),
        ) is None,
        word_in(image, joined("metadata"@, "schema"@)) == Some(c.schema_version as u64),
        text_in(image, joined("metadata"@, "job"@)) == Some(c.job_name),
        json_in(image, joined("metadata"@, "task"@)) == Some(c.task),
        json_in(image, joined("metadata"@, "parameters"@)) == Some(c.parameters),
        json_in(image, joined("metadata"@, "model"@)) == Some(c.model),
{
    let tree = metadata_tree(c);
    lemma_leaf_reads_back(image, "metadata"@, tree);
    assert(dataset_names(tree.datasets) =~= seq![
        "schema"@,
        "job"@,
        "task"@,
        "model"@,
        "parameters"@,
    ]);
    assert(tree.datasets[0] == word_dataset("schema"@, c.schema_version as u64));
    assert(tree.datasets[1] == bytes_dataset("job"@, encode_utf8(c.job_name)));
    assert(tree.datasets[2] == bytes_dataset("task"@, c.task));
    assert(tree.datasets[3] == bytes_dataset("model"@, c.model));
    assert(tree.datasets[4] == bytes_dataset("parameters"@, c.parameters));
    lemma_dataset_reads_back(image, joined("metadata"@, "schema"@), "schema"@);
    lemma_dataset_reads_back(image, joined("metadata"@, "job"@), "job"@);
    lemma_dataset_reads_back(image, joined("metadata"@, "task"@), "task"@);
    lemma_dataset_reads_back(image, joined("metadata"@, "model"@), "model"@);
    lemma_dataset_reads_back(image, joined("metadata"@, "parameters"@), "parameters"@);
}

proof fn lemma_counters_read_back(image: Seq<u8>, c: StoredCheckpointView)
    requires
        holds_group(image, "assignment"@, assignment_tree(c)),
        holds_group(image, "progress"@, progress_tree(c)),
        holds_group(image, "state"@, state_tree(c)),
        fits_file(c),
    ensures
        group_fault(image, "assignment"@, seq!["rank"@, "world_size"@], Seq::empty()) is None,
        group_fault(
            image,
            "progress"@,
            seq!["task_index"@, "thermalization_sweeps"@, "measurement_sweeps"@],
            Seq::empty(),
        ) is None,
        group_fault(image, "state"@, seq!["rng_position"@], Seq::empty()) is None,
        count_in(image, joined("assignment"@, "rank"@)) == Some(c.rank),
        count_in(image, joined("assignment"@, "world_size"@)) == Some(c.world_size),
        count_in(image, joined("progress"@, "task_index"@)) == Some(c.task_index),
        count_in(image, joined("progress"@, "thermalization_sweeps"@)) == Some(
            c.thermalization_sweeps,
        ),
        count_in(image, joined("progress"@, "measurement_sweeps"@)) == Some(c.measurement_sweeps),
        words_in(image, joined("state"@, "rng_position"@), 2) == Some(c.rng_position_words),
{
    let a = assignment_tree(c);
    lemma_leaf_reads_back(image, "assignment"@, a);
    assert(dataset_names(a.datasets) =~= seq!["rank"@, "world_size"@]);
    assert(a.datasets[0] == word_dataset("rank"@, c.rank as u64));
    assert(a.datasets[1] == word_dataset("world_size"@, c.world_size as u64));
    lemma_dataset_reads_back(image, joined("assignment"@, "rank"@), "rank"@);
    lemma_dataset_reads_back(image, joined("assignment"@, "world_size"@), "world_size"@);
    let p = progress_tree(c);
    lemma_leaf_reads_back(image, "progress"@, p);
    assert(dataset_names(p.datasets) =~= seq![
        "task_index"@,
        "thermalization_sweeps"@,
        "measurement_sweeps"@,
    ]);
    assert(p.datasets[0] == word_dataset("task_index"@, c.task_index as u64));
    assert(p.datasets[1] == word_dataset(
        "thermalization_sweeps"@,
        c.thermalization_sweeps as u64,
    ));
    assert(p.datasets[2] == word_dataset("measurement_sweeps"@, c.measurement_sweeps as u64));
    lemma_dataset_reads_back(image, joined("progress"@, "task_index"@), "task_index"@);
    lemma_dataset_reads_back(
        image,
        joined("progress"@, "thermalization_sweeps"@),
        "thermalization_sweeps"@,
    );
    lemma_dataset_reads_back(
        image,
        joined("progress"@, "measurement_sweeps"@),
        "measurement_sweeps"@,
    );
    let s = state_tree(c);
    lemma_leaf_reads_back(image, "state"@, s);
    assert(dataset_names(s.datasets) =~= seq!["rng_position"@]);
    assert(s.datasets[0] == words_dataset("rng_position"@, c.rng_position_words));
    lemma_dataset_reads_back(image, joined("state"@, "rng_position"@), "rng_position"@);
}

proof fn lemma_observables_read_back(image: Seq<u8>, c: StoredCheckpointView)
    requires
        holds_group(image, "observables"@, observables_tree(c)),
        fits_file(c),
        is_readable(c),
        ascending(c.observables),
    ensures
        observables_fault(image) is None,
        observables_in(image) == c.observables,
{
    let tree = observables_tree(c);
    let names = groups_at(image, "observables"@);
    assert(names == group_names(tree.groups));
    assert(dataset_names(tree.datasets) =~= Seq::empty());
    assert forall|i: int| 0 <= i < names.len() implies #[trigger] names[i] == numbered(
        "observable"@,
        i as nat,
    ) by {
        assert(tree.groups[i] == observable_tree(i as nat, c.observables[i]));
    }
    assert forall|i: int| 0 <= i < c.observables.len() implies #[trigger] observable_in(
        image,
        observable_path(i as nat),
    ) == Some(c.observables[i]) by {
        let member = tree.groups[i];
        assert(member == observable_tree(i as nat, c.observables[i]));
        assert(holds_group(image, joined("observables"@, member.name), member));
        let entry = c.observables[i];
        assert forall|k: int| 0 <= k < entry.1.internal_bins.len() implies !(
        #[trigger] entry.1.internal_bins[k]).signalling() by {
            assert(!c.observables[i].1.internal_bins[k].signalling());
        }
        lemma_observable_reads_back(image, observable_path(i as nat), i as nat, entry);
    }
    let held = observables_in(image);
    assert(held =~= c.observables);
    lemma_ascending_distinct(c.observables);
    let faults = entry_faults(image);
    assert forall|i: int| 0 <= i < faults.len() implies #[trigger] faults[i] is None by {
        assert(observable_in(image, observable_path(i as nat)) is Some);
        if has_name(held.take(i), held[i].0) {
            let k = choose|k: int|
                0 <= k < held.take(i).len() && #[trigger] held.take(i)[k].0 == held[i].0;
            assert(held[k].0 == held[i].0);
        }
    }
    lemma_no_fault(faults);
}

/// A file that holds a checkpoint says what the checkpoint says and nothing else.
proof fn lemma_file_says_checkpoint(image: Seq<u8>, c: StoredCheckpointView)
    requires
        holds_file(image, checkpoint_tree(c)),
        fits_file(c),
        is_readable(c),
        ascending(c.observables),
    ensures
        checkpoint_in(image, c),
        forall|d: StoredCheckpointView| #[trigger] checkpoint_in(image, d) ==> d == c,
{
    let file = checkpoint_tree(c);
    assert(file.groups[0] == metadata_tree(c));
    assert(file.groups[1] == assignment_tree(c));
    assert(file.groups[2] == progress_tree(c));
    assert(file.groups[3] == state_tree(c));
    assert(file.groups[4] == observables_tree(c));
    lemma_metadata_reads_back(image, c);
    lemma_counters_read_back(image, c);
    lemma_observables_read_back(image, c);
    assert(group_names(file.groups) =~= seq![
        "metadata"@,
        "assignment"@,
        "progress"@,
        "state"@,
        "observables"@,
    ]);
    lemma_root_attributes(KIND@);
    assert forall|d: StoredCheckpointView| #[trigger] checkpoint_in(image, d) implies d == c by {
        lemma_ascending_unique(d.observables, c.observables);
        assert(d =~= c);
    }
}

/// A checkpoint that was written reads back as it was: where writing gave the file `image`, reading
/// it succeeds and gives what was written.
pub proof fn law_checkpoint_round_trip(
    path: Seq<char>,
    c: StoredCheckpointView,
    image: Vec<u8>,
    back: Result<StoredCheckpoint, GenericJobError>,
)
    requires
        is_readable(c),
        writes_checkpoint(path, c, Ok(image)),
        reads_checkpoint(path, image@, back),
    ensures
        back matches Ok(d) && d@ == c,
{
    lemma_file_says_checkpoint(image@, c);
}

/// The paths inside a checkpoint file, written out.
proof fn lemma_paths()
    ensures
        joined("metadata"@, "schema"@) == "metadata/schema"@,
        joined("metadata"@, "job"@) == "metadata/job"@,
        joined("metadata"@, "task"@) == "metadata/task"@,
        joined("metadata"@, "model"@) == "metadata/model"@,
        joined("metadata"@, "parameters"@) == "metadata/parameters"@,
        joined("assignment"@, "rank"@) == "assignment/rank"@,
        joined("assignment"@, "world_size"@) == "assignment/world_size"@,
        joined("progress"@, "task_index"@) == "progress/task_index"@,
        joined("progress"@, "thermalization_sweeps"@) == "progress/thermalization_sweeps"@,
        joined("progress"@, "measurement_sweeps"@) == "progress/measurement_sweeps"@,
        joined("state"@, "rng_position"@) == "state/rng_position"@,
{
    reveal_strlit("metadata");
    reveal_strlit("assignment");
    reveal_strlit("progress");
    reveal_strlit("state");
    reveal_strlit("schema");
    reveal_strlit("job");
    reveal_strlit("task");
    reveal_strlit("model");
    reveal_strlit("parameters");
    reveal_strlit("rank");
    reveal_strlit("world_size");
    reveal_strlit("task_index");
    reveal_strlit("thermalization_sweeps");
    reveal_strlit("measurement_sweeps");
    reveal_strlit("rng_position");
    reveal_strlit("metadata/schema");
    reveal_strlit("metadata/job");
    reveal_strlit("metadata/task");
    reveal_strlit("metadata/model");
    reveal_strlit("metadata/parameters");
    reveal_strlit("assignment/rank");
    reveal_strlit("assignment/world_size");
    reveal_strlit("progress/task_index");
    reveal_strlit("progress/thermalization_sweeps");
    reveal_strlit("progress/measurement_sweeps");
    reveal_strlit("state/rng_position");
    assert(joined("metadata"@, "schema"@) =~= "metadata/schema"@);
    assert(joined("metadata"@, "job"@) =~= "metadata/job"@);
    assert(joined("metadata"@, "task"@) =~= "metadata/task"@);
    assert(joined("metadata"@, "model"@) =~= "metadata/model"@);
    assert(joined("metadata"@, "parameters"@) =~= "metadata/parameters"@);
    assert(joined("assignment"@, "rank"@) =~= "assignment/rank"@);
    assert(joined("assignment"@, "world_size"@) =~= "assignment/world_size"@);
    assert(joined("progress"@, "task_index"@) =~= "progress/task_index"@);
    assert(joined("progress"@, "thermalization_sweeps"@) =~= "progress/thermalization_sweeps"@);
    assert(joined("progress"@, "measurement_sweeps"@) =~= "progress/measurement_sweeps"@);
    assert(joined("state"@, "rng_position"@) =~= "state/rng_position"@);
}

/// What is read from a checkpoint file stands in it, each part at its place, in a file that has no
/// other groups and datasets. The texts are JSON, and the parameters are those of the task.
pub proof fn law_checkpoints_say_what_stands(path: &str, bytes: Vec<u8>, c: StoredCheckpoint)
    requires
        call_ensures(
            read_checkpoint,
            (path, bytes),
            Ok::<StoredCheckpoint, GenericJobError>(c),
        ),
    ensures
        word_stands_at(bytes@, "metadata/schema"@, c.schema_version as u64),
        text_stands_at(bytes@, "metadata/job"@, c.job_name@),
        bytes_stand_at(bytes@, "metadata/task"@, c.task@),
        bytes_stand_at(bytes@, "metadata/model"@, c.model@),
        bytes_stand_at(bytes@, "metadata/parameters"@, c.parameters@),
        word_stands_at(bytes@, "assignment/rank"@, c.rank as u64),
        word_stands_at(bytes@, "assignment/world_size"@, c.world_size as u64),
        word_stands_at(bytes@, "progress/task_index"@, c.task_index as u64),
        word_stands_at(
            bytes@,
            "progress/thermalization_sweeps"@,
            c.thermalization_sweeps as u64,
        ),
        word_stands_at(bytes@, "progress/measurement_sweeps"@, c.measurement_sweeps as u64),
        words_stand_at(bytes@, "state/rng_position"@, c.rng_position_words@),
        json_value(c.task@) is Some,
        json_value(c.parameters@) is Some,
        json_value(c.model@) is Some,
        json_member(json_value(c.task@)->0, "parameters"@) is Some,
        json_equal(
            json_member(json_value(c.task@)->0, "parameters"@)->0,
            json_value(c.parameters@)->0,
        ),
        kind_fault(bytes@, "carlo-mc-checkpoint"@) is None,
        members_stand_at(
            bytes@,
            Seq::empty(),
            Seq::empty(),
            seq!["metadata"@, "assignment"@, "progress"@, "state"@, "observables"@],
        ),
        members_stand_at(
            bytes@,
            "metadata"@,
            seq!["schema"@, "job"@, "task"@, "model"@, "parameters"@],
            Seq::empty(),
        ),
        members_stand_at(bytes@, "assignment"@, seq!["rank"@, "world_size"@], Seq::empty()),
        members_stand_at(
            bytes@,
            "progress"@,
            seq!["task_index"@, "thermalization_sweeps"@, "measurement_sweeps"@],
            Seq::empty(),
        ),
        members_stand_at(bytes@, "state"@, seq!["rng_position"@], Seq::empty()),
{
    let image = bytes@;
    lemma_paths();
    assert(checkpoint_in(image, c@));
    law_scalars_read_as_they_stand(
        image,
        "metadata/schema"@,
        c.schema_version as u64,
        0,
        Real { bits: 0 },
        0,
    );
    lemma_count_stands(image, "assignment/rank"@, c.rank);
    lemma_count_stands(image, "assignment/world_size"@, c.world_size);
    lemma_count_stands(image, "progress/task_index"@, c.task_index);
    lemma_count_stands(image, "progress/thermalization_sweeps"@, c.thermalization_sweeps);
    lemma_count_stands(image, "progress/measurement_sweeps"@, c.measurement_sweeps);
    lemma_json_stands(image, "metadata/task"@, c.task@);
    lemma_json_stands(image, "metadata/model"@, c.model@);
    lemma_json_stands(image, "metadata/parameters"@, c.parameters@);
    law_lists_read_as_they_stand(
        image,
        "metadata/job"@,
        Seq::empty(),
        Seq::empty(),
        Seq::empty(),
        c.job_name@,
        0,
    );
    law_lists_read_as_they_stand(
        image,
        "state/rng_position"@,
        Seq::empty(),
        c.rng_position_words@,
        Seq::empty(),
        Seq::empty(),
        2,
    );
    law_exact_groups(
        image,
        Seq::empty(),
        Seq::empty(),
        seq!["metadata"@, "assignment"@, "progress"@, "state"@, "observables"@],
    );
    law_exact_groups(
        image,
        "metadata"@,
        seq!["schema"@, "job"@, "task"@, "model"@, "parameters"@],
        Seq::empty(),
    );
    law_exact_groups(image, "assignment"@, seq!["rank"@, "world_size"@], Seq::empty());
    law_exact_groups(
        image,
        "progress"@,
        seq!["task_index"@, "thermalization_sweeps"@, "measurement_sweeps"@],
        Seq::empty(),
    );
    law_exact_groups(image, "state"@, seq!["rng_position"@], Seq::empty());
}

proof fn lemma_count_stands(image: Seq<u8>, path: Seq<char>, count: usize)
    requires
        count_in(image, path) == Some(count),
    ensures
        word_stands_at(image, path, count as u64),
{
    law_scalars_read_as_they_stand(image, path, 0, 0, Real { bits: 0 }, count);
}

proof fn lemma_json_stands(image: Seq<u8>, path: Seq<char>, bytes: Seq<u8>)
    requires
        json_in(image, path) == Some(bytes),
    ensures
        bytes_stand_at(image, path, bytes),
        valid_utf8(bytes),
{
    law_lists_read_as_they_stand(
        image,
        path,
        bytes,
        Seq::empty(),
        Seq::empty(),
        Seq::empty(),
        0,
    );
}

/// The observables of a checkpoint are those that stand in its file: the groups under
/// `observables` are numbered from zero on, each is one observable with its datasets and nothing
/// else, and no name stands in two of them.
pub proof fn law_observables_say_what_stands(
    path: &str,
    bytes: Vec<u8>,
    c: StoredCheckpoint,
    i: int,
    j: int,
)
    requires
        call_ensures(
            read_checkpoint,
            (path, bytes),
            Ok::<StoredCheckpoint, GenericJobError>(c),
        ),
        0 <= i < listing_groups(bytes@, "observables"@)->Ok_0.len(),
        0 <= j < listing_groups(bytes@, "observables"@)->Ok_0.len(),
    ensures
        ({
            let names = listing_groups(bytes@, "observables"@)->Ok_0;
            let base = "observables"@ + seq!['/'] + ("observable"@ + padded(i as nat));
            let text = decode_utf8(reading_bytes(bytes@, base + seq!['/'] + "name"@)->Ok_0);
            let other = decode_utf8(
                reading_bytes(
                    bytes@,
                    "observables"@ + seq!['/'] + ("observable"@ + padded(j as nat)) + seq!['/']
                        + "name"@,
                )->Ok_0,
            );
            let a = value_of(c.observables@, text);
            &&& names[i] == "observable"@ + padded(i as nat)
            &&& members_stand_at(
                bytes@,
                base,
                seq![
                    "name"@,
                    "internal_bins"@,
                    "pending_sum"@,
                    "pending_count"@,
                    "total_count"@,
                    "bin_length"@,
                ],
                Seq::empty(),
            )
            &&& text_stands_at(bytes@, base + seq!['/'] + "name"@, text)
            &&& has_name(c.observables@, text)
            &&& reals_stand_at(bytes@, base + seq!['/'] + "internal_bins"@, a.internal_bins)
            &&& real_stands_at(bytes@, base + seq!['/'] + "pending_sum"@, a.pending_sum)
            &&& word_stands_at(bytes@, base + seq!['/'] + "pending_count"@, a.pending_count as u64)
            &&& word_stands_at(bytes@, base + seq!['/'] + "total_count"@, a.total_count as u64)
            &&& word_stands_at(bytes@, base + seq!['/'] + "bin_length"@, a.binsize as u64)
            &&& i != j ==> text != other
        }),
{
    let image = bytes@;
    let entries = c.observables@;
    let held = observables_in(image);
    assert(checkpoint_in(image, c@));
    assert(observables_fault(image) is None);
    lemma_no_fault(entry_faults(image));
    assert(entry_faults(image)[i] is None);
    assert(entry_faults(image)[j] is None);
    law_numbered_groups(image, "observables"@, "observable"@);
    lemma_nonempty_paths(i as nat);
    lemma_nonempty_paths(j as nat);
    lemma_observable_stands(image, observable_path(i as nat));
    lemma_observable_stands(image, observable_path(j as nat));
    let e = held[i];
    assert(held.contains(e));
    assert(entries.contains(e));
    let m = choose|m: int| 0 <= m < entries.len() && entries[m] == e;
    lemma_ascending_distinct(entries);
    lemma_value_of(entries, m);
    if i != j && held[i].0 == held[j].0 {
        let low = if i < j {
            i
        } else {
            j
        };
        let high = if i < j {
            j
        } else {
            i
        };
        assert(entry_fault(image, high) is None);
        assert(held.take(high)[low].0 == held[high].0);
        assert(has_name(held.take(high), held[high].0));
    }
}

proof fn lemma_nonempty_paths(index: nat)
    ensures
        observable_path(index) == "observables"@ + seq!['/'] + ("observable"@ + padded(index)),
        observable_path(index).len() > 0,
{
    reveal_strlit("observables");
}

proof fn lemma_observable_stands(image: Seq<u8>, base: Seq<char>)
    requires
        base.len() > 0,
        observable_fault(image, base) is None,
    ensures
        ({
            let entry = observable_in(image, base)->0;
            &&& members_stand_at(
                image,
                base,
                seq![
                    "name"@,
                    "internal_bins"@,
                    "pending_sum"@,
                    "pending_count"@,
                    "total_count"@,
                    "bin_length"@,
                ],
                Seq::empty(),
            )
            &&& text_stands_at(image, base + seq!['/'] + "name"@, entry.0)
            &&& entry.0 == decode_utf8(reading_bytes(image, base + seq!['/'] + "name"@)->Ok_0)
            &&& reals_stand_at(image, base + seq!['/'] + "internal_bins"@, entry.1.internal_bins)
            &&& real_stands_at(image, base + seq!['/'] + "pending_sum"@, entry.1.pending_sum)
            &&& word_stands_at(
                image,
                base + seq!['/'] + "pending_count"@,
                entry.1.pending_count as u64,
            )
            &&& word_stands_at(image, base + seq!['/'] + "total_count"@, entry.1.total_count as u64)
            &&& word_stands_at(image, base + seq!['/'] + "bin_length"@, entry.1.binsize as u64)
        }),
{
    let entry = observable_in(image, base)->0;
    law_exact_groups(image, base, observable_members(), Seq::empty());
    law_lists_read_as_they_stand(
        image,
        joined(base, "name"@),
        Seq::empty(),
        Seq::empty(),
        Seq::empty(),
        entry.0,
        0,
    );
    law_lists_read_as_they_stand(
        image,
        joined(base, "internal_bins"@),
        Seq::empty(),
        Seq::empty(),
        entry.1.internal_bins,
        Seq::empty(),
        0,
    );
    law_scalars_read_as_they_stand(
        image,
        joined(base, "pending_sum"@),
        0,
        0,
        entry.1.pending_sum,
        0,
    );
    lemma_count_stands(image, joined(base, "pending_count"@), entry.1.pending_count);
    lemma_count_stands(image, joined(base, "total_count"@), entry.1.total_count);
    lemma_count_stands(image, joined(base, "bin_length"@), entry.1.binsize);
}

/// An observable of a checkpoint stands in its file: none is made up.
pub proof fn law_no_observable_is_made_up(
    path: &str,
    bytes: Vec<u8>,
    c: StoredCheckpoint,
    k: int,
)
    requires
        call_ensures(
            read_checkpoint,
            (path, bytes),
            Ok::<StoredCheckpoint, GenericJobError>(c),
        ),
        0 <= k < c.observables@.len(),
    ensures
        exists|i: int|
            0 <= i < listing_groups(bytes@, "observables"@)->Ok_0.len() && text_stands_at(
                bytes@,
                "observables"@ + seq!['/'] + #[trigger] listing_groups(
                    bytes@,
                    "observables"@,
                )->Ok_0[i] + seq!['/'] + "name"@,
                c.observables@[k].0,
            ),
{
    let image = bytes@;
    let entries = c.observables@;
    let held = observables_in(image);
    assert(checkpoint_in(image, c@));
    assert(observables_fault(image) is None);
    assert(entries.contains(entries[k]));
    assert(held.contains(entries[k]));
    let i = choose|i: int| 0 <= i < held.len() && held[i] == entries[k];
    lemma_no_fault(entry_faults(image));
    assert(entry_faults(image)[i] is None);
    law_numbered_groups(image, "observables"@, "observable"@);
    lemma_nonempty_paths(i as nat);
    lemma_observable_stands(image, observable_path(i as nat));
    assert(listing_groups(image, "observables"@)->Ok_0[i] == "observable"@ + padded(i as nat));
}

/// The text of a task is read as it is in the whole file.
pub proof fn law_task_texts_are_read_alike(
    path: &str,
    bytes: Vec<u8>,
    text: Result<Vec<u8>, GenericJobError>,
    c: StoredCheckpoint,
)
    requires
        call_ensures(read_task_text, (path, bytes), text),
        call_ensures(
            read_checkpoint,
            (path, bytes),
            Ok::<StoredCheckpoint, GenericJobError>(c),
        ),
    ensures
        text is Ok,
        text->Ok_0@ == c.task@,
{
    assert(checkpoint_in(bytes@, c@));
}

/// A checkpoint that was written reads back as it was, whatever it holds, as long as its texts are
/// JSON, its parameters are those of its task and no number is a signalling NaN.
pub proof fn law_written_checkpoints_read_back(
    path: &str,
    c: StoredCheckpoint,
    image: Vec<u8>,
    other: &str,
    back: Result<StoredCheckpoint, GenericJobError>,
)
    requires
        call_ensures(write_checkpoint, (path, &c), Ok::<Vec<u8>, GenericJobError>(image)),
        call_ensures(read_checkpoint, (other, image), back),
        valid_utf8(c.task@),
        valid_utf8(c.parameters@),
        valid_utf8(c.model@),
        json_value(c.model@) is Some,
        json_value(c.task@) is Some,
        json_value(c.parameters@) is Some,
        json_member(json_value(c.task@)->0, "parameters"@) is Some,
        json_equal(
            json_member(json_value(c.task@)->0, "parameters"@)->0,
            json_value(c.parameters@)->0,
        ),
        forall|i: int|
            0 <= i < c.observables@.len()
                ==> !(#[trigger] c.observables@[i]).1.pending_sum.signalling(),
        forall|i: int, k: int|
            0 <= i < c.observables@.len() && 0 <= k < c.observables@[i].1.internal_bins.len()
                ==> !(#[trigger] c.observables@[i].1.internal_bins[k]).signalling(),
    ensures
        back is Ok,
        ({
            let d = back->Ok_0;
            &&& d.schema_version == c.schema_version
            &&& d.rank == c.rank
            &&& d.world_size == c.world_size
            &&& d.job_name@ == c.job_name@
            &&& d.task_index == c.task_index
            &&& d.task@ == c.task@
            &&& d.parameters@ == c.parameters@
            &&& d.model@ == c.model@
            &&& d.rng_position_words@ == c.rng_position_words@
            &&& d.thermalization_sweeps == c.thermalization_sweeps
            &&& d.measurement_sweeps == c.measurement_sweeps
            &&& d.observables@ == c.observables@
        }),
{
    assert(is_readable(c@));
    assert(writes_checkpoint(other@, c@, Ok(image)));
    law_checkpoint_round_trip(other@, c@, image, back);
    let d = back->Ok_0;
    assert(d@ == c@);
    assert(d@.job_name == d.job_name@ && c@.job_name == c.job_name@);
    assert(d@.task == d.task@ && c@.task == c.task@);
    assert(d@.parameters == d.parameters@ && c@.parameters == c.parameters@);
    assert(d@.model == d.model@ && c@.model == c.model@);
    assert(d@.rng_position_words == d.rng_position_words@ && c@.rng_position_words
        == c.rng_position_words@);
    assert(d@.observables == d.observables@ && c@.observables == c.observables@);
}

/// A checkpoint with more observables than four digits can number is refused. One with fewer is
/// refused only where the HDF5 library gives up. What is refused tells the path.
pub proof fn law_checkpoints_that_do_not_fit(
    path: &str,
    c: StoredCheckpoint,
    image: Result<Vec<u8>, GenericJobError>,
)
    requires
        call_ensures(write_checkpoint, (path, &c), image),
    ensures
        c.observables@.len() > 10_000 ==> (image matches Err(
            GenericJobError::Schema { path: p, reason },
        ) && p@ == path@ && reason@ == "too many checkpoint observables for four-digit names"@),
        c.observables@.len() <= 10_000 ==> match image {
            Ok(_) => true,
            Err(e) => e matches GenericJobError::Hdf5 { path: p, reason: _ } && p@ == path@,
        },
{
}

/// A checkpoint file that cannot be read is refused with its path, for the schema or by the HDF5
/// library.
pub proof fn law_refused_checkpoints_tell_the_path(
    path: &str,
    bytes: Vec<u8>,
    e: GenericJobError,
)
    requires
        call_ensures(
            read_checkpoint,
            (path, bytes),
            Err::<StoredCheckpoint, GenericJobError>(e),
        ),
    ensures
        match e {
            GenericJobError::Schema { path: p, reason: _ } => p@ == path@,
            GenericJobError::Hdf5 { path: p, reason: _ } => p@ == path@,
            _ => false,
        },
{
}

/// What is said of a stored checkpoint is what stands in its fields.
pub proof fn law_stored_checkpoints_show_their_fields(c: StoredCheckpoint)
    ensures
        c@.schema_version == c.schema_version,
        c@.rank == c.rank,
        c@.world_size == c.world_size,
        c@.job_name == c.job_name@,
        c@.task_index == c.task_index,
        c@.task == c.task@,
        c@.parameters == c.parameters@,
        c@.model == c.model@,
        c@.rng_position_words == c.rng_position_words@,
        c@.thermalization_sweeps == c.thermalization_sweeps,
        c@.measurement_sweeps == c.measurement_sweeps,
        c@.observables == c.observables@,
{
}

} // verus!
