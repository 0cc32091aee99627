use carlo_mc::merge::merge_results_with_scheduling;
use carlo_mc::result_file::{reached_task_texts, KIND};
use carlo_mc::results::validate_result_schema;
use carlo_mc::{
    merge_dynamic_results, merge_results, Catalog, Context, GenericJobError, Job, JobResult,
    MonteCarlo, Real, ScalarEstimate, Scheduling, Task, TaskResult,
};
use std::collections::{BTreeSet, HashMap};
use std::convert::Infallible;

#[derive(Debug, Clone, PartialEq)]
struct P(u8);

struct M;

impl MonteCarlo for M {
    type Parameters = P;
    type Error = Infallible;

    fn new(_: &P) -> Result<Self, Self::Error> {
        Ok(Self)
    }

    fn init(&mut self, _: &mut Context) -> Result<(), Self::Error> {
        Ok(())
    }

    fn sweep(&mut self, _: &mut Context) -> Result<(), Self::Error> {
        Ok(())
    }

    fn measure(&mut self, _: &mut Context) -> Result<(), Self::Error> {
        Ok(())
    }
}

fn number(value: f64) -> Real {
    Real { bits: value.to_bits() }
}

fn task_result(index: usize, task: Task<P>) -> TaskResult<P> {
    let thermalization_sweeps = task.thermalization;
    let measurement_sweeps = task.sweeps;
    TaskResult {
        task_index: index,
        task,
        observables: Catalog::new(),
        thermalization_sweeps,
        measurement_sweeps,
        completed: true,
    }
}

fn estimate() -> ScalarEstimate {
    ScalarEstimate {
        mean: number(1.0),
        stderr: number(0.25),
        internal_bins: 2,
        rebin_length: 1,
        rebin_count: 2,
        bin_length: 1,
    }
}

fn static_parts(job: &Job<M>) -> (JobResult<P>, JobResult<P>) {
    (
        JobResult {
            job_name: job.name.clone(),
            rank: 0,
            world_size: 2,
            tasks: vec![task_result(0, job.tasks[0].clone())],
        },
        JobResult {
            job_name: job.name.clone(),
            rank: 1,
            world_size: 2,
            tasks: vec![task_result(1, job.tasks[1].clone())],
        },
    )
}

fn two_tasks() -> Job<M> {
    Job::new("j", vec![Task::new("a", P(1)), Task::new("b", P(2))])
}

fn task_text(task: &Task<P>) -> Vec<u8> {
    format!(
        "{{\"name\":\"{}\",\"parameters\":{},\"sweeps\":{},\"thermalization\":{},\"binsize\":{},\"seed\":{}}}",
        task.name, task.parameters.0, task.sweeps, task.thermalization, task.binsize, task.seed
    )
    .into_bytes()
}

fn read_task(text: &[u8]) -> Task<P> {
    let value: serde_json::Value = serde_json::from_slice(text).unwrap();
    let count = |name: &str| value[name].as_u64().unwrap() as usize;
    Task::new(value["name"].as_str().unwrap(), P(count("parameters") as u8))
        .sweeps(count("sweeps"))
        .thermalization(count("thermalization"))
        .binsize(count("binsize"))
        .seed(count("seed") as u64)
}

fn write(result: &JobResult<P>) -> Result<Vec<u8>, GenericJobError> {
    let texts = result.tasks.iter().map(|task| task_text(&task.task)).collect();
    result.write_hdf5("result.h5", texts)
}

fn read(bytes: Vec<u8>) -> Result<JobResult<P>, GenericJobError> {
    let stored = JobResult::<P>::read_hdf5("result.h5", bytes)?;
    let tasks = stored.tasks.iter().map(|task| read_task(&task.task)).collect();
    stored.with_tasks("result.h5", tasks)
}

fn merge_reason(result: Result<JobResult<P>, GenericJobError>) -> &'static str {
    match result {
        Err(GenericJobError::Merge(reason)) => reason,
        _ => panic!("no merge error"),
    }
}

fn schema_reason<T>(result: Result<T, GenericJobError>) -> &'static str {
    match result {
        Err(GenericJobError::Schema { reason, .. }) => reason,
        _ => panic!("no schema error"),
    }
}

fn assert_same(a: &JobResult<P>, b: &JobResult<P>) {
    assert_eq!(a.job_name, b.job_name);
    assert_eq!((a.rank, a.world_size), (b.rank, b.world_size));
    assert_eq!(a.tasks.len(), b.tasks.len());
    for (x, y) in a.tasks.iter().zip(&b.tasks) {
        assert_eq!(x.task_index, y.task_index);
        assert!(x.task == y.task);
        assert_eq!(x.completed, y.completed);
        assert_eq!(x.thermalization_sweeps, y.thermalization_sweeps);
        assert_eq!(x.measurement_sweeps, y.measurement_sweeps);
        assert_eq!(x.observables.len(), y.observables.len());
        for i in 0..x.observables.len() {
            assert_eq!(x.observables.name_at(i), y.observables.name_at(i));
            let (e, f) = (x.observables.value_at(i), y.observables.value_at(i));
            assert_eq!(e.mean.bits, f.mean.bits);
            assert_eq!(e.stderr.bits, f.stderr.bits);
            assert_eq!(
                (e.internal_bins, e.rebin_length, e.rebin_count, e.bin_length),
                (f.internal_bins, f.rebin_length, f.rebin_count, f.bin_length)
            );
        }
    }
}

fn sample_result() -> JobResult<P> {
    let mut observables = Catalog::new();
    observables.insert("energy/value".into(), estimate());
    JobResult {
        job_name: "job".into(),
        rank: 0,
        world_size: 1,
        tasks: vec![TaskResult {
            task_index: 7,
            task: Task::new("task", P(3)).thermalization(2).sweeps(4).binsize(2),
            observables,
            thermalization_sweeps: 2,
            measurement_sweeps: 4,
            completed: true,
        }],
    }
}

#[test]
fn result_hdf5_has_strict_structure_and_roundtrips() {
    let result = sample_result();
    let bytes = write(&result).unwrap();

    let file = hdf5_pure::File::from_bytes(bytes.clone()).unwrap();
    assert_eq!(
        file.root().attrs().unwrap(),
        HashMap::from([
            (
                "carlo_kind".to_string(),
                hdf5_pure::AttrValue::String(KIND.into()),
            ),
            ("schema_version".to_string(), hdf5_pure::AttrValue::U64(1)),
        ])
    );
    assert_eq!(
        file.root().groups().unwrap().into_iter().collect::<BTreeSet<_>>(),
        ["assignment", "metadata", "tasks"].into_iter().map(str::to_owned).collect()
    );
    assert_eq!(file.root().datasets().unwrap(), Vec::<String>::new());
    assert_eq!(
        file.group("metadata").unwrap().datasets().unwrap(),
        ["schema", "job"]
    );
    assert_eq!(
        file.group("assignment").unwrap().datasets().unwrap(),
        ["rank", "world_size"]
    );
    assert!(!file
        .as_bytes()
        .windows(b"payload_json".len())
        .any(|window| window == b"payload_json"));
    assert_eq!(
        file.dataset("assignment/rank").unwrap().dtype().unwrap(),
        hdf5_pure::DType::U64
    );
    assert!(file.dataset("assignment/rank").unwrap().shape().unwrap().is_empty());
    assert_eq!(
        file.group("tasks/task0000").unwrap().groups().unwrap(),
        ["progress", "observables"]
    );
    assert_eq!(
        file.group("tasks/task0000").unwrap().datasets().unwrap(),
        ["task", "index", "completed"]
    );
    assert_eq!(
        file.group("tasks/task0000/progress").unwrap().datasets().unwrap(),
        ["thermalization_sweeps", "measurement_sweeps"]
    );
    assert_eq!(
        file.group("tasks/task0000/observables/observable0000").unwrap().datasets().unwrap(),
        [
            "name",
            "mean",
            "stderr",
            "internal_bins",
            "rebin_length",
            "rebin_count",
            "bin_length"
        ]
    );
    assert_eq!(
        file.dataset("tasks/task0000/completed").unwrap().dtype().unwrap(),
        hdf5_pure::DType::U8
    );
    assert_eq!(
        file.dataset("tasks/task0000/task").unwrap().dtype().unwrap(),
        hdf5_pure::DType::U8
    );
    assert!(file
        .dataset("tasks/task0000/observables/observable0000/mean")
        .unwrap()
        .shape()
        .unwrap()
        .is_empty());
    assert_same(&read(bytes).unwrap(), &result);
}

#[test]
fn results_without_tasks_and_with_one_bin_roundtrip() {
    let empty = JobResult { job_name: "j".into(), rank: 2, world_size: 3, tasks: vec![] };
    assert_same(&read(write(&empty).unwrap()).unwrap(), &empty);

    let mut result = sample_result();
    for index in 0..12 {
        result.tasks.push(task_result(index, Task::new(&format!("t{index}"), P(index as u8))));
    }
    result.tasks[0].observables.insert(
        "a".into(),
        ScalarEstimate {
            mean: number(-0.0),
            stderr: number(f64::NAN),
            internal_bins: 1,
            rebin_length: 1,
            rebin_count: 1,
            bin_length: 5,
        },
    );
    assert_same(&read(write(&result).unwrap()).unwrap(), &result);
}

#[test]
fn damaged_and_foreign_files_are_refused() {
    assert!(matches!(
        read(b"invalid hdf5".to_vec()),
        Err(GenericJobError::Hdf5 { .. })
    ));
    let mut builder = hdf5_pure::FileBuilder::new();
    builder.set_attr("carlo_kind", hdf5_pure::AttrValue::String("other".into()));
    builder.set_attr("schema_version", hdf5_pure::AttrValue::U64(1));
    assert_eq!(
        schema_reason(read(builder.finish().unwrap())),
        "invalid root attributes"
    );
    let mut builder = hdf5_pure::FileBuilder::new();
    builder.set_attr("carlo_kind", hdf5_pure::AttrValue::String(KIND.into()));
    builder.set_attr("schema_version", hdf5_pure::AttrValue::U64(1));
    let group = builder.create_group("metadata");
    builder.add_group(group.finish());
    assert_eq!(
        schema_reason(read(builder.finish().unwrap())),
        "unexpected HDF5 group contents"
    );
}

#[test]
fn invalid_results_are_neither_written_nor_read() {
    let mut result = sample_result();
    result.rank = 1;
    assert_eq!(schema_reason(write(&result)), "invalid result assignment");
    let mut result = sample_result();
    result.tasks[0].completed = false;
    assert_eq!(schema_reason(write(&result)), "invalid task result");
    assert_eq!(schema_reason(validate_result_schema("p", &result)), "invalid task result");

    let stored = JobResult::<P>::read_hdf5("p", write(&sample_result()).unwrap()).unwrap();
    let other = Task::new("task", P(3)).thermalization(2).sweeps(5).binsize(2);
    assert_eq!(schema_reason(stored.with_tasks("p", vec![other])), "invalid task result");
}

#[test]
fn merge_is_strict_and_orders_tasks() {
    let job = two_tasks();
    let (rank_zero, rank_one) = static_parts(&job);
    let merged = merge_results(&job, vec![rank_one.clone(), rank_zero.clone()]).unwrap();
    assert_eq!(
        merged.tasks.iter().map(|task| task.task_index).collect::<Vec<_>>(),
        vec![0, 1]
    );

    let mut cases = Vec::new();
    let mut bad_name = rank_zero.clone();
    bad_name.job_name = "other".into();
    cases.push(vec![bad_name, rank_one.clone()]);
    cases.push(vec![rank_zero.clone(), rank_zero.clone()]);
    cases.push(vec![rank_zero.clone()]);
    let mut duplicate_task = rank_one.clone();
    duplicate_task.tasks[0] = task_result(0, job.tasks[0].clone());
    cases.push(vec![rank_zero.clone(), duplicate_task]);
    let mut wrong_definition = rank_one.clone();
    wrong_definition.tasks[0].task.parameters = P(9);
    cases.push(vec![rank_zero.clone(), wrong_definition]);
    let mut incomplete = rank_one.clone();
    incomplete.tasks[0].completed = false;
    cases.push(vec![rank_zero.clone(), incomplete]);
    let mut forged_counts = rank_one.clone();
    forged_counts.tasks[0].measurement_sweeps = 0;
    cases.push(vec![rank_zero.clone(), forged_counts]);
    let mut wrong_rank_task = rank_one;
    wrong_rank_task.tasks = vec![task_result(0, job.tasks[0].clone())];
    cases.push(vec![rank_zero, wrong_rank_task]);
    for parts in cases {
        assert!(merge_results(&job, parts).is_err());
    }
}

#[test]
fn merge_rejects_malicious_in_memory_result_schema() {
    let job = two_tasks();
    let (rank_zero, rank_one) = static_parts(&job);
    let mut cases = Vec::new();

    let mut invalid_assignment = rank_zero.clone();
    invalid_assignment.rank = invalid_assignment.world_size;
    cases.push(vec![invalid_assignment, rank_one.clone()]);

    let mut invalid_completion = rank_zero.clone();
    invalid_completion.tasks[0].completed = false;
    cases.push(vec![invalid_completion, rank_one.clone()]);

    let mut excessive_count = rank_zero.clone();
    excessive_count.tasks[0].measurement_sweeps += 1;
    cases.push(vec![excessive_count, rank_one.clone()]);

    for mutate in [
        |estimate: &mut ScalarEstimate| estimate.mean = number(f64::INFINITY),
        |estimate: &mut ScalarEstimate| estimate.stderr = number(f64::NAN),
        |estimate: &mut ScalarEstimate| estimate.stderr = number(-0.1),
        |estimate: &mut ScalarEstimate| estimate.internal_bins = 3,
        |estimate: &mut ScalarEstimate| estimate.rebin_length = 2,
        |estimate: &mut ScalarEstimate| estimate.rebin_count = 1,
        |estimate: &mut ScalarEstimate| estimate.bin_length = 0,
    ] {
        let mut malicious = rank_zero.clone();
        let mut value = estimate();
        mutate(&mut value);
        malicious.tasks[0].observables.insert("value".into(), value);
        cases.push(vec![malicious, rank_one.clone()]);
    }

    for parts in cases {
        assert!(matches!(
            merge_results(&job, parts),
            Err(GenericJobError::Schema { .. })
        ));
    }

    let mut one_bin = rank_zero;
    one_bin.tasks[0].observables.insert(
        "value".into(),
        ScalarEstimate {
            mean: number(1.0),
            stderr: number(f64::NAN),
            internal_bins: 1,
            rebin_length: 1,
            rebin_count: 1,
            bin_length: 1,
        },
    );
    assert!(merge_results(&job, vec![one_bin, rank_one]).is_ok());
}

#[test]
fn dynamic_merge_is_strict_without_modulo_ownership() {
    let job = two_tasks();
    let rank_zero = JobResult {
        job_name: "j".into(),
        rank: 0,
        world_size: 2,
        tasks: vec![task_result(1, job.tasks[1].clone())],
    };
    let rank_one = JobResult {
        job_name: "j".into(),
        rank: 1,
        world_size: 2,
        tasks: vec![task_result(0, job.tasks[0].clone())],
    };
    let merged = merge_dynamic_results(&job, vec![rank_zero.clone(), rank_one.clone()]).unwrap();
    assert_eq!(
        merged.tasks.iter().map(|task| task.task_index).collect::<Vec<_>>(),
        vec![0, 1]
    );
    assert!(merge_results(&job, vec![rank_zero.clone(), rank_one.clone()]).is_err());

    let mut duplicate = rank_one.clone();
    duplicate.tasks[0] = task_result(1, job.tasks[1].clone());
    assert!(merge_dynamic_results(&job, vec![rank_zero.clone(), duplicate]).is_err());

    let missing = JobResult {
        tasks: vec![],
        ..rank_one.clone()
    };
    assert!(merge_dynamic_results(&job, vec![rank_zero.clone(), missing]).is_err());

    let mut conflict = rank_one;
    conflict.tasks[0].task.parameters = P(9);
    assert!(merge_dynamic_results(&job, vec![rank_zero, conflict]).is_err());
}

#[test]
fn merges_do_not_depend_on_the_order_of_the_parts() {
    let job = two_tasks();
    let (rank_zero, rank_one) = static_parts(&job);
    let one = merge_results(&job, vec![rank_zero.clone(), rank_one.clone()]).unwrap();
    let other = merge_results(&job, vec![rank_one, rank_zero]).unwrap();
    assert_same(&one, &other);
    assert_eq!((one.rank, one.world_size), (0, 2));
    assert_eq!(one.job_name, "j");
}

#[test]
fn merge_errors_name_the_first_fault() {
    let job = two_tasks();
    let (rank_zero, rank_one) = static_parts(&job);
    assert_eq!(merge_reason(merge_results(&job, vec![])), "no rank results");
    assert_eq!(
        merge_reason(merge_results(&job, vec![rank_zero.clone()])),
        "rank set incomplete"
    );
    assert_eq!(
        merge_reason(merge_results(&job, vec![rank_zero.clone(), rank_zero.clone()])),
        "job/world/rank mismatch"
    );
    assert_eq!(
        merge_reason(merge_results_with_scheduling(
            &job,
            vec![
                JobResult { rank: 1, ..rank_zero.clone() },
                JobResult { rank: 0, ..rank_one.clone() },
            ],
            Scheduling::Static,
        )),
        "task mismatch, wrong rank, wrong counts, duplicate, or incomplete"
    );
    assert_eq!(
        merge_reason(merge_results(
            &job,
            vec![rank_zero, JobResult { tasks: vec![], ..rank_one }],
        )),
        "rank or task set incomplete"
    );
}

fn with_tasks_group(fill: impl Fn(&mut hdf5_pure::GroupBuilder)) -> Vec<u8> {
    let mut builder = hdf5_pure::FileBuilder::new();
    builder.set_attr("carlo_kind", hdf5_pure::AttrValue::String(KIND.into()));
    builder.set_attr("schema_version", hdf5_pure::AttrValue::U64(1));
    let mut metadata = builder.create_group("metadata");
    metadata.create_dataset("schema").with_u64_data(&[1]).with_shape(&[]);
    metadata.create_dataset("job").with_u8_data(b"job").with_shape(&[3]);
    builder.add_group(metadata.finish());
    let mut assignment = builder.create_group("assignment");
    assignment.create_dataset("rank").with_u64_data(&[0]).with_shape(&[]);
    assignment.create_dataset("world_size").with_u64_data(&[1]).with_shape(&[]);
    builder.add_group(assignment.finish());
    let mut tasks = builder.create_group("tasks");
    fill(&mut tasks);
    builder.add_group(tasks.finish());
    builder.finish().unwrap()
}

fn add_task(
    tasks: &mut hdf5_pure::GroupBuilder,
    name: &str,
    completed: u8,
    observables: &[(&str, &str)],
) {
    let mut group = tasks.create_group(name);
    let text = task_text(&Task::new("t", P(1)).sweeps(1));
    group.create_dataset("task").with_u8_data(&text).with_shape(&[text.len() as u64]);
    group.create_dataset("index").with_u64_data(&[0]).with_shape(&[]);
    group.create_dataset("completed").with_u8_data(&[completed]).with_shape(&[]);
    let mut progress = group.create_group("progress");
    for count in ["thermalization_sweeps", "measurement_sweeps"] {
        progress.create_dataset(count).with_u64_data(&[0]).with_shape(&[]);
    }
    group.add_group(progress.finish());
    let mut listed = group.create_group("observables");
    for (place, observable) in observables {
        let mut entry = listed.create_group(place);
        entry
            .create_dataset("name")
            .with_u8_data(observable.as_bytes())
            .with_shape(&[observable.len() as u64]);
        for number in ["mean", "stderr"] {
            entry.create_dataset(number).with_f64_data(&[0.0]).with_shape(&[]);
        }
        for count in ["internal_bins", "rebin_length", "rebin_count", "bin_length"] {
            entry.create_dataset(count).with_u64_data(&[1]).with_shape(&[]);
        }
        listed.add_group(entry.finish());
    }
    group.add_group(listed.finish());
    tasks.add_group(group.finish());
}

#[test]
fn the_first_fault_of_a_result_file_is_named() {
    let reason = |fill: fn(&mut hdf5_pure::GroupBuilder)| {
        schema_reason(JobResult::<P>::read_hdf5("r", with_tasks_group(fill)))
    };
    assert!(JobResult::<P>::read_hdf5("r", with_tasks_group(|_| {})).is_ok());
    assert!(JobResult::<P>::read_hdf5(
        "r",
        with_tasks_group(|tasks| add_task(tasks, "task0000", 0, &[("observable0000", "e")])),
    )
    .is_ok());
    assert_eq!(
        reason(|tasks| add_task(tasks, "taskzero", 0, &[])),
        "invalid indexed result group name"
    );
    assert_eq!(
        reason(|tasks| add_task(tasks, "task00000", 0, &[])),
        "invalid indexed result group name"
    );
    assert_eq!(
        reason(|tasks| add_task(tasks, "task0001", 0, &[])),
        "invalid four-digit result task sequence"
    );
    assert_eq!(
        reason(|tasks| add_task(tasks, "task0000", 2, &[])),
        "invalid result completion flag"
    );
    assert_eq!(
        reason(|tasks| add_task(tasks, "task0000", 2, &[("observable0001", "e")])),
        "invalid four-digit HDF5 group sequence"
    );
    assert_eq!(
        reason(|tasks| add_task(
            tasks,
            "task0000",
            0,
            &[("observable0000", "e"), ("observable0001", "e")]
        )),
        "duplicate result observable name"
    );
    assert_eq!(
        reason(|tasks| {
            tasks.create_dataset("extra").with_u64_data(&[0]).with_shape(&[]);
            add_task(tasks, "taskzero", 0, &[]);
        }),
        "unexpected HDF5 group contents"
    );
    assert_eq!(
        reason(|tasks| {
            add_task(tasks, "task0000", 2, &[]);
            add_task(tasks, "taskzero", 0, &[]);
        }),
        "invalid result completion flag"
    );
}

#[test]
fn texts_are_reached_in_front_of_the_first_fault() {
    let reached = |fill: fn(&mut hdf5_pure::GroupBuilder)| {
        reached_task_texts("r", with_tasks_group(fill)).len()
    };
    assert_eq!(reached(|_| {}), 0);
    assert_eq!(
        reached(|tasks| {
            add_task(tasks, "task0000", 0, &[]);
            add_task(tasks, "task0001", 0, &[]);
        }),
        2
    );
    assert_eq!(
        reached(|tasks| {
            add_task(tasks, "task0000", 2, &[]);
            add_task(tasks, "task0001", 0, &[]);
        }),
        1
    );
    assert_eq!(
        reached(|tasks| {
            add_task(tasks, "task0000", 0, &[]);
            add_task(tasks, "taskzero", 0, &[]);
        }),
        1
    );
    assert!(reached_task_texts("r", b"no file".to_vec()).is_empty());
    let result = sample_result();
    let texts: Vec<Vec<u8>> = result.tasks.iter().map(|task| task_text(&task.task)).collect();
    assert_eq!(reached_task_texts("r", write(&result).unwrap()), texts);
}

#[test]
fn signalling_numbers_stay_not_a_number() {
    let mut result = sample_result();
    let odd = ScalarEstimate {
        stderr: Real { bits: 0x7FF0_0000_0000_0001 },
        internal_bins: 1,
        rebin_count: 1,
        ..estimate()
    };
    result.tasks[0].observables.insert("odd".into(), odd);
    let back = read(write(&result).unwrap()).unwrap();
    let estimate = back.tasks[0].observables.get("odd").unwrap();
    assert!(f64::from_bits(estimate.stderr.bits).is_nan());
    assert_eq!(estimate.mean.bits, odd.mean.bits);
    assert_eq!(estimate.internal_bins, 1);
}

#[test]
fn results_compare_number_by_number() {
    let result = two_tasks();
    let (part, other) = static_parts(&result);
    assert_eq!(part, part.clone());
    assert_ne!(part, other);
    let mut zero = part.clone();
    let mut minus = part.clone();
    zero.tasks[0]
        .observables
        .insert("a".into(), ScalarEstimate { mean: number(0.0), ..estimate() });
    minus.tasks[0]
        .observables
        .insert("a".into(), ScalarEstimate { mean: number(-0.0), ..estimate() });
    assert_eq!(zero, minus);
    let mut nan = part.clone();
    nan.tasks[0]
        .observables
        .insert("a".into(), ScalarEstimate { stderr: number(f64::NAN), ..estimate() });
    assert_ne!(nan, nan.clone());
}
