//! The typed side of a checkpoint: what a run saves, what it gets back, and when that is valid.

use crate::catalog::Catalog;
use crate::checkpoint::{StoredCheckpoint, StoredCheckpointView, CHECKPOINT_PAYLOAD_SCHEMA_VERSION};
#[allow(unused_imports)]
use crate::checkpoint::{
    is_readable, law_checkpoint_round_trip, reads_checkpoint, writes_checkpoint,
};
use crate::error::{schema, GenericJobError};
#[allow(unused_imports)]
use crate::error::is_schema_error;
#[allow(unused_imports)]
use crate::faults::{first_fault, lemma_first_fault, lemma_no_fault};
use crate::json::{parse_json, same_value};
#[allow(unused_imports)]
use crate::json::{json_equal, json_value};
use crate::model::{MonteCarlo, Task, TaskView};
use crate::number::Real;
use crate::rng::{decode_rng_position, encode_rng_position};
#[allow(unused_imports)]
use crate::rng::{law_position_round_trip, position_of, position_words};
use crate::simulation::{AccumulatorView, CompactAccumulator};
#[allow(unused_imports)]
use crate::simulation::{lemma_faultless_observables, observables_consistent};
use vstd::prelude::*;

verus! {

/// What a run saves of a task, apart from the model.
#[derive(Debug)]
pub struct CheckpointState<P> {
    pub rank: usize,
    pub world_size: usize,
    pub job_name: String,
    pub task: Task<P>,
    pub task_index: usize,
    pub rng_position: u128,
    pub thermalization_sweeps: usize,
    pub measurement_sweeps: usize,
    pub observables: Catalog<CompactAccumulator>,
}

/// What a saved state says.
#[verifier::ext_equal]
pub struct StateView<P> {
    pub rank: usize,
    pub world_size: usize,
    pub job_name: Seq<char>,
    pub task: TaskView<P>,
    pub task_index: usize,
    pub rng_position: u128,
    pub thermalization_sweeps: usize,
    pub measurement_sweeps: usize,
    pub observables: Seq<(Seq<char>, AccumulatorView)>,
}

impl<P> View for CheckpointState<P> {
    type V = StateView<P>;

    open spec fn view(&self) -> StateView<P> {
        StateView {
            rank: self.rank,
            world_size: self.world_size,
            job_name: self.job_name@,
            task: self.task@,
            task_index: self.task_index,
            rng_position: self.rng_position,
            thermalization_sweeps: self.thermalization_sweeps,
            measurement_sweeps: self.measurement_sweeps,
            observables: self.observables@,
        }
    }
}

/// The content of a checkpoint file with its task decoded. The model stands as a JSON text.
#[derive(Debug)]
pub struct Checkpoint<P> {
    pub schema_version: u32,
    pub rank: usize,
    pub world_size: usize,
    pub job_name: String,
    pub task: Task<P>,
    pub task_index: usize,
    pub model: Vec<u8>,
    pub rng_position_words: [u64; 2],
    pub thermalization_sweeps: usize,
    pub measurement_sweeps: usize,
    pub observables: Catalog<CompactAccumulator>,
}

/// What a run gets back of a task, together with the model.
pub struct RestoredState<M: MonteCarlo> {
    pub model: M,
    pub task: Task<M::Parameters>,
    pub rank: usize,
    pub world_size: usize,
    pub job_name: String,
    pub task_index: usize,
    pub rng_position: u128,
    pub thermalization_sweeps: usize,
    pub measurement_sweeps: usize,
    pub observables: Catalog<CompactAccumulator>,
}

impl<M: MonteCarlo> RestoredState<M> {
    /// The saved state, apart from the model.
    pub open spec fn state(self) -> StateView<M::Parameters> {
        StateView {
            rank: self.rank,
            world_size: self.world_size,
            job_name: self.job_name@,
            task: self.task@,
            task_index: self.task_index,
            rng_position: self.rng_position,
            thermalization_sweeps: self.thermalization_sweeps,
            measurement_sweeps: self.measurement_sweeps,
            observables: self.observables@,
        }
    }
}

/// Why an accumulator cannot stand in a checkpoint, if it cannot.
pub open spec fn accumulator_fault(
    name: Seq<char>,
    accumulator: AccumulatorView,
    measurement_sweeps: usize,
) -> Option<Seq<char>> {
    if name.len() == 0 || accumulator.binsize == 0 || accumulator.pending_count
        >= accumulator.binsize || accumulator.total_count > measurement_sweeps || (
    accumulator.pending_count == 0 && !accumulator.pending_sum.zero())
        || !accumulator.pending_sum.finite() || !accumulator.bins_are_finite() {
        Some("invalid checkpoint accumulator"@)
    } else if accumulator.samples() > usize::MAX {
        Some("checkpoint accumulator total overflow"@)
    } else if accumulator.samples() != accumulator.total_count {
        Some("inconsistent checkpoint accumulator total"@)
    } else {
        None
    }
}

/// The faults of the observables of a checkpoint, one by one.
pub open spec fn accumulator_faults(
    observables: Seq<(Seq<char>, AccumulatorView)>,
    measurement_sweeps: usize,
) -> Seq<Option<Seq<char>>> {
    observables.map_values(
        |e: (Seq<char>, AccumulatorView)| accumulator_fault(e.0, e.1, measurement_sweeps),
    )
}

/// The first fault among the observables of a checkpoint, if there is one.
pub open spec fn observables_fault(
    observables: Seq<(Seq<char>, AccumulatorView)>,
    measurement_sweeps: usize,
) -> Option<Seq<char>> {
    first_fault(accumulator_faults(observables, measurement_sweeps))
}

/// Whether the assignment and the sweep counts of a checkpoint fit its task.
pub open spec fn sweeps_fit<P>(
    schema_version: u32,
    rank: usize,
    world_size: usize,
    task: TaskView<P>,
    thermalization_sweeps: usize,
    measurement_sweeps: usize,
) -> bool {
    &&& schema_version == CHECKPOINT_PAYLOAD_SCHEMA_VERSION
    &&& rank < world_size
    &&& task.name.len() > 0
    &&& task.sweeps > 0
    &&& 0 < task.binsize <= task.sweeps
    &&& thermalization_sweeps <= task.thermalization
    &&& measurement_sweeps <= task.sweeps
    &&& measurement_sweeps > 0 ==> thermalization_sweeps == task.thermalization
}

/// Why a checkpoint is not valid, if it is not.
pub open spec fn checkpoint_fault<P>(checkpoint: Checkpoint<P>) -> Option<Seq<char>> {
    if !sweeps_fit(
        checkpoint.schema_version,
        checkpoint.rank,
        checkpoint.world_size,
        checkpoint.task@,
        checkpoint.thermalization_sweeps,
        checkpoint.measurement_sweeps,
    ) {
        Some("invalid checkpoint assignment or sweep state"@)
    } else {
        observables_fault(checkpoint.observables@, checkpoint.measurement_sweeps)
    }
}

/// Whether all numbers in a list are finite.
pub(crate) fn all_finite(numbers: &Vec<Real>) -> (finite: bool)
    ensures
        finite == forall|i: int| 0 <= i < numbers@.len() ==> (#[trigger] numbers@[i]).finite(),
{
    let mut index: usize = 0;
    while index < numbers.len()
        invariant
            index <= numbers.len(),
            forall|i: int| 0 <= i < index ==> (#[trigger] numbers@[i]).finite(),
        decreases numbers.len() - index,
    {
        if !numbers[index].is_finite() {
            return false;
        }
        index = index + 1;
    }
    true
}

/// How many samples an accumulator stands for, if a machine can count them.
pub(crate) fn sample_count(accumulator: &CompactAccumulator) -> (count: Option<usize>)
    ensures
        match count {
            Some(n) => n == accumulator@.samples(),
            None => accumulator@.samples() > usize::MAX,
        },
{
    match accumulator.internal_bins.len().checked_mul(accumulator.binsize) {
        Some(complete) => complete.checked_add(accumulator.pending_count),
        None => None,
    }
}

/// Checks one accumulator of a checkpoint.
fn validate_accumulator(
    path: &str,
    name: &String,
    accumulator: &CompactAccumulator,
    measurement_sweeps: usize,
) -> (checked: Result<(), GenericJobError>)
    ensures
        match accumulator_fault(name@, accumulator@, measurement_sweeps) {
            Some(fault) => checked matches Err(e) && is_schema_error(e, path@, fault),
            None => checked is Ok,
        },
{
    if name.as_str().is_empty() || accumulator.binsize == 0 || accumulator.pending_count
        >= accumulator.binsize || accumulator.total_count > measurement_sweeps || (
    accumulator.pending_count == 0 && !accumulator.pending_sum.is_zero())
        || !accumulator.pending_sum.is_finite() || !all_finite(&accumulator.internal_bins) {
        return Err(schema(path, "invalid checkpoint accumulator"));
    }
    match sample_count(accumulator) {
        None => Err(schema(path, "checkpoint accumulator total overflow")),
        Some(samples) => if samples != accumulator.total_count {
            Err(schema(path, "inconsistent checkpoint accumulator total"))
        } else {
            Ok(())
        },
    }
}

/// Checks that the parts of a checkpoint fit together.
pub fn validate_checkpoint<P>(path: &str, checkpoint: &Checkpoint<P>) -> (checked: Result<
    (),
    GenericJobError,
>)
    ensures
        match checkpoint_fault(*checkpoint) {
            Some(fault) => checked matches Err(e) && is_schema_error(e, path@, fault),
            None => checked is Ok,
        },
{
    if checkpoint.schema_version != CHECKPOINT_PAYLOAD_SCHEMA_VERSION || checkpoint.world_size == 0
        || checkpoint.rank >= checkpoint.world_size || checkpoint.task.name.as_str().is_empty()
        || checkpoint.task.sweeps == 0 || checkpoint.task.binsize == 0 || checkpoint.task.sweeps
        < checkpoint.task.binsize || checkpoint.thermalization_sweeps
        > checkpoint.task.thermalization || checkpoint.measurement_sweeps > checkpoint.task.sweeps
        || (checkpoint.measurement_sweeps > 0 && checkpoint.thermalization_sweeps
        != checkpoint.task.thermalization) {
        return Err(schema(path, "invalid checkpoint assignment or sweep state"));
    }
    let ghost observables = checkpoint.observables@;
    let ghost faults = accumulator_faults(observables, checkpoint.measurement_sweeps);
    let count: usize = checkpoint.observables.len();
    let mut index: usize = 0;
    while index < count
        invariant
            index <= count,
            count == observables.len(),
            observables == checkpoint.observables@,
            faults == accumulator_faults(observables, checkpoint.measurement_sweeps),
            forall|i: int| 0 <= i < index ==> #[trigger] faults[i] is None,
            checkpoint_fault(*checkpoint) == first_fault(faults),
        decreases count - index,
    {
        proof {
            assert(faults[index as int] == accumulator_fault(
                observables[index as int].0,
                observables[index as int].1,
                checkpoint.measurement_sweeps,
            ));
            if faults[index as int] is Some {
                lemma_first_fault(faults, index as int);
            }
        }
        validate_accumulator(
            path,
            checkpoint.observables.name_at(index),
            checkpoint.observables.value_at(index),
            checkpoint.measurement_sweeps,
        )?;
        index = index + 1;
    }
    proof {
        lemma_no_fault(faults);
    }
    Ok(())
}

/// Observables without a fault are exactly the consistent ones with names, none with more
/// samples than there were measurement sweeps.
pub proof fn law_faultless_observables(
    observables: Seq<(Seq<char>, AccumulatorView)>,
    measurement_sweeps: usize,
)
    ensures
        observables_fault(observables, measurement_sweeps) is None <==> observables_consistent(
            observables,
            measurement_sweeps as nat,
        ),
{
    lemma_faultless_observables(
        observables,
        accumulator_faults(observables, measurement_sweeps),
        measurement_sweeps as nat,
    );
}

/// What the checkpoint file of a saved state says.
pub open spec fn stored_view<P>(
    state: StateView<P>,
    task: Seq<u8>,
    parameters: Seq<u8>,
    model: Seq<u8>,
) -> StoredCheckpointView {
    StoredCheckpointView {
        schema_version: CHECKPOINT_PAYLOAD_SCHEMA_VERSION,
        rank: state.rank,
        world_size: state.world_size,
        job_name: state.job_name,
        task_index: state.task_index,
        task,
        parameters,
        model,
        rng_position_words: position_words(state.rng_position),
        thermalization_sweeps: state.thermalization_sweeps,
        measurement_sweeps: state.measurement_sweeps,
        observables: state.observables,
    }
}

impl<P> CheckpointState<P> {
    /// The checkpoint file content for this state. The JSON texts of the task, of its parameters
    /// and of the model come from the caller.
    pub fn stored(&self, task: Vec<u8>, parameters: Vec<u8>, model: Vec<u8>) -> (stored:
        StoredCheckpoint)
        ensures
            stored@ == stored_view(self@, task@, parameters@, model@),
    {
        StoredCheckpoint {
            schema_version: CHECKPOINT_PAYLOAD_SCHEMA_VERSION,
            rank: self.rank,
            world_size: self.world_size,
            job_name: self.job_name.clone(),
            task_index: self.task_index,
            task,
            parameters,
            model,
            rng_position_words: encode_rng_position(self.rng_position),
            thermalization_sweeps: self.thermalization_sweeps,
            measurement_sweeps: self.measurement_sweeps,
            observables: self.observables.clone(),
        }
    }
}

/// Whether a checkpoint is the stored one with its task decoded.
pub open spec fn is_typed<P>(
    stored: StoredCheckpointView,
    task: TaskView<P>,
    checkpoint: Checkpoint<P>,
) -> bool {
    &&& checkpoint.schema_version == stored.schema_version
    &&& checkpoint.rank == stored.rank
    &&& checkpoint.world_size == stored.world_size
    &&& checkpoint.job_name@ == stored.job_name
    &&& checkpoint.task@ == task
    &&& checkpoint.task_index == stored.task_index
    &&& checkpoint.model@ == stored.model
    &&& checkpoint.rng_position_words@ == stored.rng_position_words
    &&& checkpoint.thermalization_sweeps == stored.thermalization_sweeps
    &&& checkpoint.measurement_sweeps == stored.measurement_sweeps
    &&& checkpoint.observables@ == stored.observables
}

/// Whether a stored checkpoint and its task gave a checkpoint, or the reason why they do not fit.
pub open spec fn types_checkpoint<P>(
    path: Seq<char>,
    stored: StoredCheckpointView,
    task: TaskView<P>,
    checkpoint: Result<Checkpoint<P>, GenericJobError>,
) -> bool {
    match stored_fault(stored, task) {
        Some(fault) => checkpoint matches Err(e) && is_schema_error(e, path, fault),
        None => checkpoint matches Ok(c) && is_typed(stored, task, c),
    }
}

/// Why a stored checkpoint is not valid for the task that its JSON text stands for, if it is not.
pub open spec fn stored_fault<P>(stored: StoredCheckpointView, task: TaskView<P>) -> Option<
    Seq<char>,
> {
    if !sweeps_fit(
        stored.schema_version,
        stored.rank,
        stored.world_size,
        task,
        stored.thermalization_sweeps,
        stored.measurement_sweeps,
    ) {
        Some("invalid checkpoint assignment or sweep state"@)
    } else {
        observables_fault(stored.observables, stored.measurement_sweeps)
    }
}

impl StoredCheckpoint {
    /// Takes the task that the caller decoded from the JSON text, and checks that everything
    /// fits together.
    pub fn with_task<P>(self, path: &str, task: Task<P>) -> (checkpoint: Result<
        Checkpoint<P>,
        GenericJobError,
    >)
        ensures
            types_checkpoint(path@, self@, task@, checkpoint),
    {
        let checkpoint = Checkpoint {
            schema_version: self.schema_version,
            rank: self.rank,
            world_size: self.world_size,
            job_name: self.job_name,
            task,
            task_index: self.task_index,
            model: self.model,
            rng_position_words: self.rng_position_words,
            thermalization_sweeps: self.thermalization_sweeps,
            measurement_sweeps: self.measurement_sweeps,
            observables: self.observables,
        };
        validate_checkpoint(path, &checkpoint)?;
        Ok(checkpoint)
    }
}

/// The saved state that a checkpoint stands for.
pub open spec fn state_view<P>(checkpoint: Checkpoint<P>) -> StateView<P> {
    StateView {
        rank: checkpoint.rank,
        world_size: checkpoint.world_size,
        job_name: checkpoint.job_name@,
        task: checkpoint.task@,
        task_index: checkpoint.task_index,
        rng_position: position_of(checkpoint.rng_position_words@) as u128,
        thermalization_sweeps: checkpoint.thermalization_sweeps,
        measurement_sweeps: checkpoint.measurement_sweeps,
        observables: checkpoint.observables@,
    }
}

/// Whether a value equals the one that a JSON text stands for.
pub open spec fn is_value_of(value: serde_json::Value, text: Seq<u8>) -> bool {
    json_value(text) matches Some(stored) && json_equal(value, stored)
}

/// Puts a decoded model and a checkpoint together. `reencoded` is the JSON value of the decoded
/// model: where it is not the one that the text in the checkpoint stands for, the model lost
/// something on the way and the checkpoint does not match.
pub fn restore<M: MonteCarlo>(
    path: &str,
    checkpoint: Checkpoint<M::Parameters>,
    model: M,
    reencoded: &serde_json::Value,
) -> (restored: Result<RestoredState<M>, GenericJobError>)
    ensures
        if is_value_of(*reencoded, checkpoint.model@) {
            restored matches Ok(r) && r.model == model && r.state() == state_view(checkpoint)
        } else {
            restored matches Err(
                GenericJobError::CheckpointMismatch { path: p, task },
            ) && p@ == path@ && task@ == checkpoint.task.name@
        },
        json_value(checkpoint.model@) == Some(*reencoded) ==> restored is Ok,
{
    let same = match parse_json(checkpoint.model.as_slice()) {
        Some(stored) => same_value(reencoded, &stored),
        None => false,
    };
    if !same {
        return Err(
            GenericJobError::CheckpointMismatch {
                path: path.to_owned(),
                task: checkpoint.task.name.clone(),
            },
        );
    }
    Ok(
        RestoredState {
            model,
            task: checkpoint.task,
            rank: checkpoint.rank,
            world_size: checkpoint.world_size,
            job_name: checkpoint.job_name,
            task_index: checkpoint.task_index,
            rng_position: decode_rng_position(checkpoint.rng_position_words),
            thermalization_sweeps: checkpoint.thermalization_sweeps,
            measurement_sweeps: checkpoint.measurement_sweeps,
            observables: checkpoint.observables,
        },
    )
}

/// A state that is stored and decoded with its own task comes back as it was.
pub proof fn law_state_survives<P>(
    state: StateView<P>,
    task: Seq<u8>,
    parameters: Seq<u8>,
    model: Seq<u8>,
    checkpoint: Checkpoint<P>,
)
    requires
        is_typed(stored_view(state, task, parameters, model), state.task, checkpoint),
    ensures
        state_view(checkpoint) == state,
        checkpoint.model@ == model,
{
    law_position_round_trip(state.rng_position);
    assert(state_view(checkpoint) =~= state);
}

/// A state that was saved to a checkpoint file comes back from it as it was.
///
/// `image` is the file that was written for the state with the JSON texts of the task, of its
/// parameters and of the model, `back` is what was read from it, and `typed` is what
/// [`StoredCheckpoint::with_task`] made of that with the task of the state, which is what its text
/// is decoded to. The state must be valid for its task, and its texts and numbers readable.
pub proof fn law_saved_state_reads_back<P>(
    path: Seq<char>,
    state: StateView<P>,
    texts: (Seq<u8>, Seq<u8>, Seq<u8>),
    image: Vec<u8>,
    back: Result<StoredCheckpoint, GenericJobError>,
    typed: Result<Checkpoint<P>, GenericJobError>,
)
    requires
        is_readable(stored_view(state, texts.0, texts.1, texts.2)),
        stored_fault(stored_view(state, texts.0, texts.1, texts.2), state.task) is None,
        writes_checkpoint(path, stored_view(state, texts.0, texts.1, texts.2), Ok(image)),
        reads_checkpoint(path, image@, back),
        back matches Ok(stored) ==> types_checkpoint(path, stored@, state.task, typed),
    ensures
        back is Ok,
        typed matches Ok(c) && state_view(c) == state && c.model@ == texts.2,
{
    let stored = stored_view(state, texts.0, texts.1, texts.2);
    law_checkpoint_round_trip(path, stored, image, back);
    law_state_survives(state, texts.0, texts.1, texts.2, typed->Ok_0);
}

/// A checkpoint is valid exactly if it has the version, a rank of its world, a task that can fill a
/// bin, no more sweeps than the task asks for, measured only after it thermalized, and observables
/// that are consistent and have names, none with more samples than there were measurement sweeps.
pub proof fn law_valid_checkpoints<P>(
    path: &str,
    c: Checkpoint<P>,
    checked: Result<(), GenericJobError>,
)
    requires
        call_ensures(validate_checkpoint::<P>, (path, &c), checked),
    ensures
        checked is Ok <==> {
            &&& c.schema_version == 1
            &&& c.rank < c.world_size
            &&& c.task.name@.len() > 0
            &&& 1 <= c.task.binsize <= c.task.sweeps
            &&& c.thermalization_sweeps <= c.task.thermalization
            &&& c.measurement_sweeps <= c.task.sweeps
            &&& c.measurement_sweeps == 0 || c.thermalization_sweeps == c.task.thermalization
            &&& forall|i: int|
                0 <= i < c.observables@.len() ==> ({
                    let a = (#[trigger] c.observables@[i]).1;
                    &&& c.observables@[i].0.len() > 0
                    &&& a.binsize > 0
                    &&& a.pending_count < a.binsize
                    &&& a.total_count <= c.measurement_sweeps
                    &&& a.total_count == a.internal_bins.len() * a.binsize + a.pending_count
                    &&& a.pending_count == 0 ==> a.pending_sum.zero()
                    &&& a.pending_sum.finite()
                    &&& forall|k: int|
                        0 <= k < a.internal_bins.len() ==> (
                        #[trigger] a.internal_bins[k]).finite()
                })
        },
        checked matches Err(e) ==> (e matches GenericJobError::Schema { path: p, reason } && p@
            == path@),
{
    let observables = c.observables@;
    law_faultless_observables(observables, c.measurement_sweeps);
    assert forall|i: int| 0 <= i < observables.len() implies ((#[trigger] observables[i]).0.len()
        > 0 && observables[i].1.consistent() && observables[i].1.total_count
        <= c.measurement_sweeps) == ({
        let a = observables[i].1;
        &&& observables[i].0.len() > 0
        &&& a.binsize > 0
        &&& a.pending_count < a.binsize
        &&& a.total_count <= c.measurement_sweeps
        &&& a.total_count == a.internal_bins.len() * a.binsize + a.pending_count
        &&& a.pending_count == 0 ==> a.pending_sum.zero()
        &&& a.pending_sum.finite()
        &&& forall|k: int|
            0 <= k < a.internal_bins.len() ==> (#[trigger] a.internal_bins[k]).finite()
    }) by {
        let a = observables[i].1;
        assert(a.internal_bins.len() * a.binsize >= 0) by (nonlinear_arith)
            requires
                a.internal_bins.len() >= 0,
                a.binsize >= 0,
        ;
    }
}

/// What is stored of a state says all of it: its place in the run, its counts, its observables and
/// its place in the random stream, lower word first, beside the texts that it is given.
pub proof fn law_stored_states<P>(
    state: CheckpointState<P>,
    task: Vec<u8>,
    parameters: Vec<u8>,
    model: Vec<u8>,
    stored: StoredCheckpoint,
)
    requires
        call_ensures(CheckpointState::<P>::stored, (&state, task, parameters, model), stored),
    ensures
        stored.schema_version == 1,
        stored.rank == state.rank,
        stored.world_size == state.world_size,
        stored.job_name@ == state.job_name@,
        stored.task_index == state.task_index,
        stored.task@ == task@,
        stored.parameters@ == parameters@,
        stored.model@ == model@,
        stored.rng_position_words@[0] + stored.rng_position_words@[1] * 0x1_0000_0000_0000_0000
            == state.rng_position,
        stored.thermalization_sweeps == state.thermalization_sweeps,
        stored.measurement_sweeps == state.measurement_sweeps,
        stored.observables@ == state.observables@,
{
    let v = stored@;
    assert(v.job_name == stored.job_name@);
    assert(v.task == stored.task@);
    assert(v.parameters == stored.parameters@);
    assert(v.model == stored.model@);
    assert(v.observables == stored.observables@);
    assert(v.rng_position_words == stored.rng_position_words@);
    law_position_round_trip(state.rng_position);
    assert(stored.rng_position_words@[0] == position_words(state.rng_position)[0]);
    assert(stored.rng_position_words@[1] == position_words(state.rng_position)[1]);
}

/// A stored checkpoint with its task decoded says what the file says, and is accepted exactly if it
/// is valid.
pub proof fn law_decoded_checkpoints<P>(
    stored: StoredCheckpoint,
    path: &str,
    task: Task<P>,
    c: Checkpoint<P>,
    checked: Result<(), GenericJobError>,
)
    requires
        call_ensures(
            StoredCheckpoint::with_task::<P>,
            (stored, path, task),
            Ok::<Checkpoint<P>, GenericJobError>(c),
        ),
        call_ensures(validate_checkpoint::<P>, (path, &c), checked),
    ensures
        checked is Ok,
        c.schema_version == stored.schema_version,
        c.rank == stored.rank,
        c.world_size == stored.world_size,
        c.job_name@ == stored.job_name@,
        c.task_index == stored.task_index,
        c.task@ == task@,
        c.model@ == stored.model@,
        c.rng_position_words@ == stored.rng_position_words@,
        c.thermalization_sweeps == stored.thermalization_sweeps,
        c.measurement_sweeps == stored.measurement_sweeps,
        c.observables@ == stored.observables@,
{
    let v = stored@;
    assert(v.job_name == stored.job_name@);
    assert(v.model == stored.model@);
    assert(v.observables == stored.observables@);
    assert(v.rng_position_words == stored.rng_position_words@);
}

/// A state that is restored says what the checkpoint says, with the model that it is given and the
/// position that the two words write.
pub proof fn law_restored_states<M: MonteCarlo>(
    path: &str,
    c: Checkpoint<M::Parameters>,
    model: M,
    reencoded: serde_json::Value,
    r: RestoredState<M>,
)
    requires
        call_ensures(
            restore::<M>,
            (path, c, model, &reencoded),
            Ok::<RestoredState<M>, GenericJobError>(r),
        ),
    ensures
        r.model == model,
        r.task@ == c.task@,
        r.rank == c.rank,
        r.world_size == c.world_size,
        r.job_name@ == c.job_name@,
        r.task_index == c.task_index,
        r.rng_position == c.rng_position_words@[0] + c.rng_position_words@[1]
            * 0x1_0000_0000_0000_0000,
        r.thermalization_sweeps == c.thermalization_sweeps,
        r.measurement_sweeps == c.measurement_sweeps,
        r.observables@ == c.observables@,
        json_value(c.model@) is Some,
        json_equal(reencoded, json_value(c.model@)->0),
{
    let v = r.state();
    let w = state_view(c);
    assert(v.task == w.task);
    assert(v.job_name == w.job_name);
    assert(v.observables == w.observables);
    assert(v.rng_position == w.rng_position);
    let low = c.rng_position_words@[0] as int;
    let high = c.rng_position_words@[1] as int;
    assert(0 <= low + high * 0x1_0000_0000_0000_0000 <= u128::MAX);
}

/// A model that is not what the checkpoint holds is refused, and one that is the very same is not.
pub proof fn law_models_must_match<M: MonteCarlo>(
    path: &str,
    c: Checkpoint<M::Parameters>,
    model: M,
    reencoded: serde_json::Value,
    restored: Result<RestoredState<M>, GenericJobError>,
)
    requires
        call_ensures(restore::<M>, (path, c, model, &reencoded), restored),
    ensures
        json_value(c.model@) == Some(reencoded) ==> restored is Ok,
        json_value(c.model@) is None ==> restored is Err,
        json_value(c.model@) matches Some(stored) && !json_equal(reencoded, stored)
            ==> restored is Err,
        restored matches Err(e) ==> (e matches GenericJobError::CheckpointMismatch { path: p, task }
            && p@ == path@ && task@ == c.task.name@),
{
}

/// What is said of a saved state, and of one that is restored, is what stands in its fields.
pub proof fn law_states_show_their_fields<M: MonteCarlo>(
    saved: CheckpointState<M::Parameters>,
    restored: RestoredState<M>,
)
    ensures
        saved@.rank == saved.rank,
        saved@.world_size == saved.world_size,
        saved@.job_name == saved.job_name@,
        saved@.task == saved.task@,
        saved@.task_index == saved.task_index,
        saved@.rng_position == saved.rng_position,
        saved@.thermalization_sweeps == saved.thermalization_sweeps,
        saved@.measurement_sweeps == saved.measurement_sweeps,
        saved@.observables == saved.observables@,
        restored.state().rank == restored.rank,
        restored.state().world_size == restored.world_size,
        restored.state().job_name == restored.job_name@,
        restored.state().task == restored.task@,
        restored.state().task_index == restored.task_index,
        restored.state().rng_position == restored.rng_position,
        restored.state().thermalization_sweeps == restored.thermalization_sweeps,
        restored.state().measurement_sweeps == restored.measurement_sweeps,
        restored.state().observables == restored.observables@,
{
}

/// A refused checkpoint says why: its place or its counts come first, and then the first observable
/// that is not as it should be, where one that cannot be at all comes before one whose counts do
/// not add up.
pub proof fn law_checkpoint_reasons<P>(
    path: &str,
    c: Checkpoint<P>,
    e: GenericJobError,
    i: int,
)
    requires
        call_ensures(
            validate_checkpoint::<P>,
            (path, &c),
            Err::<(), GenericJobError>(e),
        ),
    ensures
        c.schema_version != 1 || c.rank >= c.world_size || c.task.name@.len() == 0 || c.task.binsize
            == 0 || c.task.binsize > c.task.sweeps || c.thermalization_sweeps
            > c.task.thermalization || c.measurement_sweeps > c.task.sweeps || (c.measurement_sweeps
            > 0 && c.thermalization_sweeps != c.task.thermalization) ==> (
        e matches GenericJobError::Schema { path: p, reason } && p@ == path@ && reason@
            == "invalid checkpoint assignment or sweep state"@),
        c.schema_version == 1 && c.rank < c.world_size && c.task.name@.len() > 0 && 0
            < c.task.binsize <= c.task.sweeps && c.thermalization_sweeps <= c.task.thermalization
            && c.measurement_sweeps <= c.task.sweeps && (c.measurement_sweeps == 0
            || c.thermalization_sweeps == c.task.thermalization) && 0 <= i < c.observables@.len()
            && observables_consistent(c.observables@.take(i), c.measurement_sweeps as nat) ==> ({
            let a = c.observables@[i].1;
            let sound = c.observables@[i].0.len() > 0 && a.pending_count < a.binsize
                && a.total_count <= c.measurement_sweeps && (a.pending_count == 0
                ==> a.pending_sum.zero()) && a.pending_sum.finite() && forall|k: int|
                0 <= k < a.internal_bins.len() ==> (#[trigger] a.internal_bins[k]).finite();
            let samples = a.internal_bins.len() * a.binsize + a.pending_count;
            &&& !sound ==> (e matches GenericJobError::Schema { path: p, reason } && reason@
                == "invalid checkpoint accumulator"@)
            &&& sound && samples > usize::MAX ==> (e matches GenericJobError::Schema {
                path: p,
                reason,
            } && reason@ == "checkpoint accumulator total overflow"@)
            &&& sound && samples <= usize::MAX && samples != a.total_count ==> (
            e matches GenericJobError::Schema { path: p, reason } && reason@
                == "inconsistent checkpoint accumulator total"@)
        }),
{
    if 0 <= i < c.observables@.len() {
        let observables = c.observables@;
        let a = observables[i].1;
        assert(a.internal_bins.len() * a.binsize >= 0) by (nonlinear_arith)
            requires
                a.internal_bins.len() >= 0,
                a.binsize >= 0,
        ;
        let faults = accumulator_faults(observables, c.measurement_sweeps);
        assert(faults[i] == accumulator_fault(observables[i].0, a, c.measurement_sweeps));
        if observables_consistent(observables.take(i), c.measurement_sweeps as nat) {
            law_faultless_observables(observables.take(i), c.measurement_sweeps);
            let front = accumulator_faults(observables.take(i), c.measurement_sweeps);
            lemma_no_fault(front);
            assert forall|n: int| 0 <= n < i implies #[trigger] faults[n] is None by {
                assert(front[n] == faults[n]);
            }
            if faults[i] is Some {
                lemma_first_fault(faults, i);
            }
        }
    }
}

} // verus!
