use carlo_mc::checkpoint::{
    read_checkpoint, read_task_text, write_checkpoint, StoredCheckpoint,
    CHECKPOINT_PAYLOAD_SCHEMA_VERSION, KIND,
};
use carlo_mc::state::{restore, validate_checkpoint};
use carlo_mc::{Catalog, CompactAccumulator, Context, GenericJobError, MonteCarlo, Real, Task};
use hdf5_pure::{AttrValue, DType, File, FileBuilder};
use std::collections::{BTreeSet, HashMap};
use std::convert::Infallible;

const TASK: &[u8] = br#"{"name":"task","parameters":null,"sweeps":5,"thermalization":1,"binsize":2,"seed":0}"#;

struct M {
    value: f64,
}

impl MonteCarlo for M {
    type Parameters = ();
    type Error = Infallible;

    fn new(_: &()) -> Result<Self, Self::Error> {
        Ok(M { value: 0. })
    }

    fn init(&mut self, _: &mut Context) -> Result<(), Self::Error> {
        Ok(())
    }

    fn sweep(&mut self, _: &mut Context) -> Result<(), Self::Error> {
        Ok(())
    }

    fn measure(&mut self, _: &mut Context) -> Result<(), Self::Error> {
        Ok(())
    }
}

fn number(value: f64) -> Real {
    Real { bits: value.to_bits() }
}

fn task() -> Task<()> {
    Task::new("task", ()).thermalization(1).sweeps(5).binsize(2)
}

fn accumulator() -> CompactAccumulator {
    CompactAccumulator {
        internal_bins: vec![number(1.5)],
        pending_sum: number(2.5),
        pending_count: 1,
        total_count: 3,
        binsize: 2,
    }
}

fn checkpoint() -> StoredCheckpoint {
    let mut observables = Catalog::new();
    observables.insert("energy/value".into(), accumulator());
    StoredCheckpoint {
        schema_version: CHECKPOINT_PAYLOAD_SCHEMA_VERSION,
        rank: 0,
        world_size: 1,
        job_name: "job".into(),
        task_index: 3,
        task: TASK.to_vec(),
        parameters: b"null".to_vec(),
        model: br#"{"value":4.0}"#.to_vec(),
        rng_position_words: [7, 9],
        thermalization_sweeps: 1,
        measurement_sweeps: 3,
        observables,
    }
}

fn with_accumulator(change: impl Fn(&mut CompactAccumulator)) -> StoredCheckpoint {
    let mut changed = accumulator();
    change(&mut changed);
    let mut stored = checkpoint();
    stored.observables.insert("energy/value".into(), changed);
    stored
}

fn schema_reason<T>(result: Result<T, GenericJobError>) -> &'static str {
    match result {
        Err(GenericJobError::Schema { reason, .. }) => reason,
        Err(other) => panic!("{}", other.message()),
        Ok(_) => panic!("accepted"),
    }
}

fn assert_same(a: &StoredCheckpoint, b: &StoredCheckpoint) {
    assert_eq!(a.schema_version, b.schema_version);
    assert_eq!((a.rank, a.world_size), (b.rank, b.world_size));
    assert_eq!(a.job_name, b.job_name);
    assert_eq!(a.task_index, b.task_index);
    assert_eq!(a.task, b.task);
    assert_eq!(a.parameters, b.parameters);
    assert_eq!(a.model, b.model);
    assert_eq!(a.rng_position_words, b.rng_position_words);
    assert_eq!(a.thermalization_sweeps, b.thermalization_sweeps);
    assert_eq!(a.measurement_sweeps, b.measurement_sweeps);
    assert_eq!(a.observables.len(), b.observables.len());
    for i in 0..a.observables.len() {
        assert_eq!(a.observables.name_at(i), b.observables.name_at(i));
        let (x, y) = (a.observables.value_at(i), b.observables.value_at(i));
        assert_eq!(x.internal_bins, y.internal_bins);
        assert_eq!(x.pending_sum, y.pending_sum);
        assert_eq!(
            (x.pending_count, x.total_count, x.binsize),
            (y.pending_count, y.total_count, y.binsize)
        );
    }
}

#[test]
fn checkpoint_hdf5_has_strict_structure_and_roundtrips_partial_bin() {
    let expected = checkpoint();
    let bytes = write_checkpoint("checkpoint.h5", &expected).unwrap();

    let file = File::from_bytes(bytes.clone()).unwrap();
    assert_eq!(
        file.root().attrs().unwrap(),
        HashMap::from([
            ("carlo_kind".to_string(), AttrValue::String(KIND.into())),
            ("schema_version".to_string(), AttrValue::U64(1)),
        ])
    );
    assert_eq!(file.root().datasets().unwrap(), Vec::<String>::new());
    assert_eq!(
        file.root().groups().unwrap().into_iter().collect::<BTreeSet<_>>(),
        ["assignment", "metadata", "observables", "progress", "state"]
            .into_iter()
            .map(str::to_owned)
            .collect()
    );
    assert_eq!(
        file.group("metadata").unwrap().datasets().unwrap(),
        ["schema", "job", "task", "model", "parameters"]
    );
    assert_eq!(
        file.group("assignment").unwrap().datasets().unwrap(),
        ["rank", "world_size"]
    );
    assert_eq!(
        file.group("progress").unwrap().datasets().unwrap(),
        ["task_index", "thermalization_sweeps", "measurement_sweeps"]
    );
    assert_eq!(
        file.group("state").unwrap().datasets().unwrap(),
        ["rng_position"]
    );
    assert_eq!(
        file.group("observables/observable0000").unwrap().datasets().unwrap(),
        [
            "name",
            "internal_bins",
            "pending_sum",
            "pending_count",
            "total_count",
            "bin_length"
        ]
    );
    assert!(!file
        .as_bytes()
        .windows(b"payload_json".len())
        .any(|window| window == b"payload_json"));
    assert_eq!(
        file.dataset("assignment/rank").unwrap().dtype().unwrap(),
        DType::U64
    );
    assert!(file.dataset("assignment/rank").unwrap().shape().unwrap().is_empty());
    assert_eq!(
        file.dataset("metadata/task").unwrap().dtype().unwrap(),
        DType::U8
    );
    assert_eq!(
        file.dataset("state/rng_position").unwrap().shape().unwrap(),
        [2]
    );
    assert_eq!(
        file.dataset("observables/observable0000/internal_bins")
            .unwrap()
            .shape()
            .unwrap(),
        [1]
    );
    assert_eq!(
        file.dataset("observables/observable0000/internal_bins")
            .unwrap()
            .read_f64()
            .unwrap(),
        [1.5]
    );
    assert!(file
        .dataset("observables/observable0000/pending_sum")
        .unwrap()
        .shape()
        .unwrap()
        .is_empty());
    assert_eq!(
        file.dataset("observables/observable0000/bin_length")
            .unwrap()
            .dtype()
            .unwrap(),
        DType::U64
    );
    assert!(file.dataset("observables/observable0000/binsize").is_err());

    let restored = read_checkpoint("checkpoint.h5", bytes).unwrap();
    assert_same(&restored, &expected);
    assert_eq!(restored.observables.get("energy/value").unwrap().pending_count, 1);
    assert_eq!(restored.observables.get("energy/value").unwrap().pending_sum, number(2.5));
    let typed = restored.with_task("checkpoint.h5", task()).unwrap();
    assert!(typed.task == task());
    assert!(validate_checkpoint("checkpoint.h5", &typed).is_ok());
}

#[test]
fn checkpoint_rejects_observable_index_above_four_digits() {
    let mut checkpoint = checkpoint();
    checkpoint.measurement_sweeps = 0;
    checkpoint.observables = Catalog::new();
    for index in 0..10_001 {
        checkpoint.observables.insert(
            format!("observable-{index}"),
            CompactAccumulator {
                internal_bins: vec![],
                pending_sum: number(0.0),
                pending_count: 0,
                total_count: 0,
                binsize: 1,
            },
        );
    }
    assert_eq!(
        schema_reason(write_checkpoint("checkpoint.h5", &checkpoint)),
        "too many checkpoint observables for four-digit names"
    );
}

#[test]
fn checkpoints_roundtrip_with_many_and_with_empty_observables() {
    let mut stored = checkpoint();
    stored.rank = 4;
    stored.world_size = 9;
    stored.job_name = "größe".into();
    stored.rng_position_words = [u64::MAX, u64::MAX];
    for index in 0..40 {
        stored.observables.insert(
            format!("o{index}"),
            CompactAccumulator {
                internal_bins: (0..index).map(|k| number(k as f64 - 0.25)).collect(),
                pending_sum: number(-0.0),
                pending_count: 0,
                total_count: index,
                binsize: 1,
            },
        );
    }
    let bytes = write_checkpoint("c", &stored).unwrap();
    assert_same(&read_checkpoint("c", bytes).unwrap(), &stored);
    for index in 0..700 {
        stored.observables.insert(
            format!("n{index}"),
            CompactAccumulator { internal_bins: vec![], ..accumulator() },
        );
    }
    let bytes = write_checkpoint("c", &stored).unwrap();
    assert_same(&read_checkpoint("c", bytes).unwrap(), &stored);
    stored.observables = Catalog::new();
    let bytes = write_checkpoint("c", &stored).unwrap();
    assert_same(&read_checkpoint("c", bytes).unwrap(), &stored);
}

#[test]
fn parameters_must_be_those_of_the_task() {
    let mut stored = checkpoint();
    stored.parameters = b"1".to_vec();
    let bytes = write_checkpoint("c", &stored).unwrap();
    assert_eq!(
        schema_reason(read_checkpoint("c", bytes)),
        "checkpoint parameters do not match task"
    );
    let mut stored = checkpoint();
    stored.parameters = b" null ".to_vec();
    let bytes = write_checkpoint("c", &stored).unwrap();
    assert!(read_checkpoint("c", bytes).is_ok());
    let mut stored = checkpoint();
    stored.model = b"{".to_vec();
    let bytes = write_checkpoint("c", &stored).unwrap();
    assert_eq!(schema_reason(read_checkpoint("c", bytes)), "invalid JSON dataset");
    let mut stored = checkpoint();
    stored.task = vec![0xFF];
    let bytes = write_checkpoint("c", &stored).unwrap();
    assert_eq!(schema_reason(read_checkpoint("c", bytes)), "JSON dataset is not valid UTF-8");
}

#[test]
fn states_that_do_not_fit_are_refused() {
    let sweeps = "invalid checkpoint assignment or sweep state";
    let accumulator = "invalid checkpoint accumulator";
    let mut cases = Vec::new();
    let mut case = |change: fn(&mut StoredCheckpoint), reason: &'static str| {
        let mut stored = checkpoint();
        change(&mut stored);
        cases.push((stored, reason));
    };
    case(|c| c.schema_version += 1, sweeps);
    case(|c| c.world_size = 0, sweeps);
    case(|c| c.rank = 1, sweeps);
    case(|c| c.thermalization_sweeps = 2, sweeps);
    case(|c| c.thermalization_sweeps = 0, sweeps);
    case(|c| c.measurement_sweeps = 6, sweeps);
    case(|c| c.measurement_sweeps = 2, accumulator);
    for (stored, reason) in cases {
        let bytes = write_checkpoint("c", &stored).unwrap();
        let stored = read_checkpoint("c", bytes).unwrap();
        assert_eq!(schema_reason(stored.with_task("c", task())), reason);
    }
    let checks = |stored: StoredCheckpoint| schema_reason(stored.with_task("c", task()));
    assert_eq!(checks(with_accumulator(|a| a.binsize = 0)), accumulator);
    assert_eq!(checks(with_accumulator(|a| a.pending_count = 2)), accumulator);
    assert_eq!(checks(with_accumulator(|a| a.pending_count = 0)), accumulator);
    assert_eq!(checks(with_accumulator(|a| a.pending_sum = number(f64::NAN))), accumulator);
    assert_eq!(
        checks(with_accumulator(|a| a.internal_bins = vec![number(f64::INFINITY)])),
        accumulator
    );
    assert_eq!(
        checks(with_accumulator(|a| a.total_count = 2)),
        "inconsistent checkpoint accumulator total"
    );
    assert_eq!(
        checks(with_accumulator(|a| a.binsize = usize::MAX)),
        "checkpoint accumulator total overflow"
    );
}

#[test]
fn models_must_survive_their_encoding() {
    let typed = checkpoint().with_task("c", task()).unwrap();
    let value: serde_json::Value = serde_json::from_str(r#"{ "value": 4.0 }"#).unwrap();
    let restored = restore("c", typed, M { value: 4. }, &value).unwrap();
    assert_eq!(restored.model.value, 4.);
    assert_eq!(restored.rng_position, (9_u128 << 64) | 7);
    assert_eq!(restored.measurement_sweeps, 3);
    assert_eq!(restored.observables.get("energy/value").unwrap().total_count, 3);
    for text in ["{}", r#"{"value":4}"#, "null"] {
        let typed = checkpoint().with_task("c", task()).unwrap();
        let value: serde_json::Value = serde_json::from_str(text).unwrap();
        match restore("c", typed, M { value: 4. }, &value) {
            Err(GenericJobError::CheckpointMismatch { path, task }) => {
                assert_eq!((path.as_str(), task.as_str()), ("c", "task"));
            }
            _ => panic!("accepted {text}"),
        }
    }
}

fn root_builder() -> FileBuilder {
    let mut builder = FileBuilder::new();
    builder.set_attr("carlo_kind", AttrValue::String(KIND.into()));
    builder.set_attr("schema_version", AttrValue::U64(1));
    builder
}

#[test]
fn unexpected_contents_are_refused() {
    let read = |builder: FileBuilder| read_checkpoint("c", builder.finish().unwrap());
    assert_eq!(
        schema_reason(read(root_builder())),
        "unexpected HDF5 group contents"
    );
    let mut builder = root_builder();
    builder.set_attr("extra", AttrValue::U64(1));
    assert_eq!(schema_reason(read(builder)), "invalid root attributes");
    let mut builder = FileBuilder::new();
    builder.set_attr("carlo_kind", AttrValue::String(KIND.into()));
    builder.set_attr("schema_version", AttrValue::U64(2));
    assert_eq!(schema_reason(read(builder)), "invalid root attributes");
    let mut builder = root_builder();
    builder.commit_datatype("extra", hdf5_pure::make_f64_type());
    assert_eq!(schema_reason(read(builder)), "unexpected named datatype");
    assert!(matches!(
        read_checkpoint("c", Vec::new()),
        Err(GenericJobError::Hdf5 { .. })
    ));
}

#[test]
fn datasets_must_have_their_type_and_shape() {
    let build = |schema: fn(&mut hdf5_pure::GroupBuilder)| {
        let mut builder = root_builder();
        let mut metadata = builder.create_group("metadata");
        schema(&mut metadata);
        for name in ["job", "task", "model", "parameters"] {
            metadata.create_dataset(name).with_u8_data(b"null").with_shape(&[4]);
        }
        builder.add_group(metadata.finish());
        let mut assignment = builder.create_group("assignment");
        for name in ["rank", "world_size"] {
            assignment.create_dataset(name).with_u64_data(&[1]).with_shape(&[]);
        }
        builder.add_group(assignment.finish());
        let mut progress = builder.create_group("progress");
        for name in ["task_index", "thermalization_sweeps", "measurement_sweeps"] {
            progress.create_dataset(name).with_u64_data(&[1]).with_shape(&[]);
        }
        builder.add_group(progress.finish());
        let mut state = builder.create_group("state");
        state.create_dataset("rng_position").with_u64_data(&[1, 2]).with_shape(&[2]);
        builder.add_group(state.finish());
        let observables = builder.create_group("observables");
        builder.add_group(observables.finish());
        schema_reason(read_checkpoint("c", builder.finish().unwrap()))
    };
    let wrong = "invalid u64 scalar dataset type or shape";
    assert_eq!(
        build(|m| {
            m.create_dataset("schema").with_u8_data(&[1]).with_shape(&[]);
        }),
        wrong
    );
    assert_eq!(
        build(|m| {
            m.create_dataset("schema").with_u64_data(&[1]).with_shape(&[1]);
        }),
        wrong
    );
    assert_eq!(
        build(|m| {
            m.create_dataset("schema").with_u64_data(&[1 << 32]).with_shape(&[]);
        }),
        "checkpoint schema version exceeds u32"
    );
    assert_eq!(
        build(|m| {
            m.create_dataset("schema").with_u64_data(&[1]).with_shape(&[]);
        }),
        "checkpoint parameters do not match task"
    );
    assert_eq!(
        build(|m| {
            m.create_dataset("schema").with_u64_data(&[1]).with_shape(&[]);
            m.set_attr("extra", AttrValue::U64(1));
        }),
        "unexpected HDF5 group metadata"
    );
    assert_eq!(
        build(|m| {
            let schema = m.create_dataset("schema").with_u64_data(&[1]).with_shape(&[]);
            schema.set_attr("extra", AttrValue::U64(1));
        }),
        "unexpected HDF5 dataset attributes"
    );
}

#[test]
fn the_first_fault_of_the_observables_is_named() {
    let reason = |fill: fn(&mut hdf5_pure::GroupBuilder)| {
        let mut builder = root_builder();
        let mut metadata = builder.create_group("metadata");
        metadata.create_dataset("schema").with_u64_data(&[1]).with_shape(&[]);
        metadata.create_dataset("job").with_u8_data(b"job").with_shape(&[3]);
        metadata.create_dataset("task").with_u8_data(TASK).with_shape(&[TASK.len() as u64]);
        for name in ["model", "parameters"] {
            metadata.create_dataset(name).with_u8_data(b"null").with_shape(&[4]);
        }
        builder.add_group(metadata.finish());
        let mut assignment = builder.create_group("assignment");
        for name in ["rank", "world_size"] {
            assignment.create_dataset(name).with_u64_data(&[1]).with_shape(&[]);
        }
        builder.add_group(assignment.finish());
        let mut progress = builder.create_group("progress");
        for name in ["task_index", "thermalization_sweeps", "measurement_sweeps"] {
            progress.create_dataset(name).with_u64_data(&[1]).with_shape(&[]);
        }
        builder.add_group(progress.finish());
        let mut state = builder.create_group("state");
        state.create_dataset("rng_position").with_u64_data(&[1, 2]).with_shape(&[2]);
        builder.add_group(state.finish());
        let mut observables = builder.create_group("observables");
        fill(&mut observables);
        builder.add_group(observables.finish());
        match read_checkpoint("c", builder.finish().unwrap()) {
            Ok(_) => "none",
            Err(GenericJobError::Schema { reason, .. }) => reason,
            Err(_) => "other",
        }
    };
    assert_eq!(reason(|_| {}), "none");
    assert_eq!(
        reason(|group| add_observable(group, "observable0000", b"e")),
        "none"
    );
    assert_eq!(
        reason(|group| {
            group.create_dataset("extra").with_u64_data(&[1]).with_shape(&[]);
            add_observable(group, "observable0001", b"e");
        }),
        "invalid four-digit HDF5 group sequence"
    );
    assert_eq!(
        reason(|group| {
            group.create_dataset("extra").with_u64_data(&[1]).with_shape(&[]);
            add_observable(group, "observable0000", b"e");
        }),
        "unexpected HDF5 group contents"
    );
    assert_eq!(
        reason(|group| {
            group.set_attr("extra", AttrValue::U64(1));
        }),
        "unexpected HDF5 group metadata"
    );
    assert_eq!(
        reason(|group| add_observable(group, "observable0000", &[0xff])),
        "string dataset is not valid UTF-8"
    );
    assert_eq!(
        reason(|group| {
            add_observable(group, "observable0000", b"e");
            add_observable(group, "observable0001", b"e");
        }),
        "duplicate checkpoint observable name"
    );
}

fn add_observable(parent: &mut hdf5_pure::GroupBuilder, place: &str, name: &[u8]) {
    let mut group = parent.create_group(place);
    group.create_dataset("name").with_u8_data(name).with_shape(&[name.len() as u64]);
    group.create_dataset("internal_bins").with_f64_data(&[1.0]).with_shape(&[1]);
    group.create_dataset("pending_sum").with_f64_data(&[0.0]).with_shape(&[]);
    for count in ["pending_count", "total_count", "bin_length"] {
        group.create_dataset(count).with_u64_data(&[1]).with_shape(&[]);
    }
    parent.add_group(group.finish());
}

#[test]
fn restored_models_are_compared_as_values() {
    let mut stored = checkpoint();
    let number = 0.1_f64 + 0.2;
    let value = serde_json::to_value(number).unwrap();
    stored.model = serde_json::to_vec(&value).unwrap();
    let typed = stored.with_task("c", task()).unwrap();
    let decoded: serde_json::Value = serde_json::from_slice(&typed.model).unwrap();
    assert!(restore("c", typed, M { value: number }, &decoded).is_ok());
}

#[test]
fn the_text_of_the_task_comes_before_later_faults() {
    let mut stored = checkpoint();
    stored.model = b"{".to_vec();
    let bytes = write_checkpoint("c", &stored).unwrap();
    assert_eq!(read_task_text("c", bytes.clone()).unwrap(), TASK);
    assert_eq!(schema_reason(read_checkpoint("c", bytes)), "invalid JSON dataset");
    let mut stored = checkpoint();
    stored.parameters = b"1".to_vec();
    let bytes = write_checkpoint("c", &stored).unwrap();
    assert_eq!(
        schema_reason(read_task_text("c", bytes)),
        "checkpoint parameters do not match task"
    );
    assert!(matches!(
        read_task_text("c", b"no file".to_vec()),
        Err(GenericJobError::Hdf5 { .. })
    ));
}
