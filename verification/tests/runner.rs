use carlo_mc::checkpoint::{read_checkpoint, write_checkpoint};
use carlo_mc::course::TaskAction;
use carlo_mc::estimate::{bin_grouping, Averages};
use carlo_mc::results::validate_result_schema;
use carlo_mc::runner::{claim_directory, dynamic_task_order, validate, JobRun, RunAction, HOUR};
use carlo_mc::state::restore;
use carlo_mc::task_run::{Step, TaskRun, TaskRuntime};
use carlo_mc::{
    merge_results, BinnedEstimate, Catalog, Context, GenericJobError, Job, JobAssignment, JobResult,
    MonteCarlo, Real, RestoredState, RunOptions, RunResult, Runner, RunnerDurationConfig, Sample,
    ScalarEstimate, Scheduling, Task, TaskResult,
};
use std::convert::Infallible;

const SECOND: u128 = 1_000_000_000;

#[derive(Debug, Clone, PartialEq)]
struct P;

struct M {
    v: f64,
}

fn number(value: f64) -> Real {
    Real { bits: value.to_bits() }
}

fn measure(context: &mut Context, name: &str, value: f64) -> Result<(), GenericJobError> {
    let sum = f64::from_bits(context.pending_sum(name).bits) + value;
    let average = sum / context.default_binsize() as f64;
    let sample = Sample { value: number(value), sum: number(sum), average: number(average) };
    context.measure(name, sample)
}

impl MonteCarlo for M {
    type Parameters = P;
    type Error = Infallible;

    fn new(_: &P) -> Result<Self, Self::Error> {
        Ok(Self { v: 0. })
    }

    fn init(&mut self, _: &mut Context) -> Result<(), Self::Error> {
        Ok(())
    }

    fn sweep(&mut self, context: &mut Context) -> Result<(), Self::Error> {
        let Ok(_) = context.rng.try_next_u64();
        self.v += 1.;
        Ok(())
    }

    fn measure(&mut self, context: &mut Context) -> Result<(), Self::Error> {
        measure(context, "v", self.v).unwrap();
        Ok(())
    }
}

fn mean(values: &[f64]) -> f64 {
    values.iter().sum::<f64>() / values.len() as f64
}

fn estimate(bins: &[Real], length: usize) -> ScalarEstimate {
    let grouping = bin_grouping(bins.len(), length).unwrap();
    let values: Vec<f64> = bins.iter().map(|value| f64::from_bits(value.bits)).collect();
    let groups: Vec<f64> = values.chunks_exact(grouping.length).map(mean).collect();
    let average = mean(&groups);
    let stderr = if groups.len() <= 1 {
        f64::NAN
    } else {
        let variance = groups.iter().map(|value| (value - average).powi(2)).sum::<f64>()
            / (groups.len() - 1) as f64;
        variance.sqrt() / (groups.len() as f64).sqrt()
    };
    let averages = Averages {
        mean: number(average),
        stderr: number(stderr),
        bins: groups.into_iter().map(number).collect(),
    };
    let binned = BinnedEstimate::from_internal_bins(bins.to_vec(), length, averages).unwrap();
    ScalarEstimate::from_binned(&binned, length)
}

fn runtime(assignment: JobAssignment, index: usize, budget: usize) -> TaskRuntime {
    TaskRuntime {
        job_name: "j".to_string(),
        task_index: index,
        assignment,
        allow_different_rank: false,
        sweep_budget: budget,
    }
}

fn drive(run: &mut TaskRun<M>, task: &Task<P>, budget: usize) {
    loop {
        match run.next_step(task, budget, true) {
            Step::Thermalize => run.thermalize().unwrap(),
            Step::Measure => run.measure().unwrap(),
            Step::Stop => break,
        }
    }
}

fn outcome(run: &TaskRun<M>, task: &Task<P>, index: usize) -> TaskResult<P> {
    let mut estimates = Catalog::new();
    if run.is_completed(task) {
        run.check_samples(task).unwrap();
        let observables = run.context.observables();
        for i in 0..observables.len() {
            let accumulator = observables.value_at(i);
            estimates.insert(
                observables.name_at(i).clone(),
                estimate(&accumulator.internal_bins, accumulator.binsize),
            );
        }
    }
    run.result(task, index, estimates)
}

fn run(runner: &Runner<M>, job: &Job<M>, o: &RunOptions) -> Result<RunResult<P>, GenericJobError> {
    validate(job, o)?;
    let plan = runner.plan(o);
    let mut under_way = JobRun::start(plan, job.tasks.len());
    loop {
        let index = match under_way.next_action(0) {
            RunAction::Run(index) => index,
            RunAction::Claim | RunAction::Finish => break,
        };
        let task = &job.tasks[index];
        let mut task_run = TaskRun::start(task).unwrap();
        drive(&mut task_run, task, under_way.budget);
        let result = outcome(&task_run, task, index);
        if !under_way.record(result, task_run.used, None) {
            break;
        }
    }
    Ok(under_way.finish(&job.name, o.output_path.clone()))
}

fn assert_same(a: &JobResult<P>, b: &JobResult<P>) {
    assert_eq!(a.job_name, b.job_name);
    assert_eq!((a.rank, a.world_size), (b.rank, b.world_size));
    assert_eq!(a.tasks.len(), b.tasks.len());
    for (x, y) in a.tasks.iter().zip(&b.tasks) {
        assert_same_task(x, y);
    }
}

fn assert_same_task(x: &TaskResult<P>, y: &TaskResult<P>) {
    assert_eq!(x.task_index, y.task_index);
    assert!(x.task == y.task);
    assert_eq!(x.completed, y.completed);
    assert_eq!(x.thermalization_sweeps, y.thermalization_sweeps);
    assert_eq!(x.measurement_sweeps, y.measurement_sweeps);
    assert_eq!(x.observables.len(), y.observables.len());
    for i in 0..x.observables.len() {
        assert_eq!(x.observables.name_at(i), y.observables.name_at(i));
        let (e, f) = (x.observables.value_at(i), y.observables.value_at(i));
        assert_eq!((e.mean.bits, e.stderr.bits), (f.mean.bits, f.stderr.bits));
        assert_eq!(
            (e.internal_bins, e.rebin_length, e.rebin_count, e.bin_length),
            (f.internal_bins, f.rebin_length, f.rebin_count, f.bin_length)
        );
    }
}

fn many_tasks(count: usize) -> Job<M> {
    Job::new(
        "j",
        (0..count).map(|index| Task::new(&format!("task-{index}"), P)).collect(),
    )
}

#[test]
fn run_options_keep_old_fields_and_add_duration_overrides() {
    let old_style = RunOptions {
        assignment: Some(JobAssignment::single()),
        checkpoint_dir: Some("checkpoints".to_string()),
        resume: true,
        checkpoint_interval: 7,
        output_path: Some("result.json".to_string()),
        sweep_limit: Some(11),
        ..RunOptions::default()
    };
    assert_eq!(old_style.checkpoint_interval, 7);
    assert_eq!(old_style.deadline, None);
    assert_eq!(old_style.checkpoint_interval_time, None);

    let RunOptions {
        assignment: _,
        checkpoint_dir: _,
        resume: _,
        checkpoint_interval: _,
        output_path: _,
        sweep_limit: _,
        deadline: _,
        checkpoint_interval_time: _,
    } = RunOptions::default();
}

#[test]
fn deterministic() {
    let j = Job::<M>::new("j", vec![Task::new("t", P).sweeps(4).binsize(2)]);
    let a = run(&Runner::new(), &j, &RunOptions::default()).unwrap();
    let b = run(&Runner::new(), &j, &RunOptions::default()).unwrap();
    assert_same(&a.result, &b.result);
    let v = a.result.tasks[0].observables.get("v").unwrap();
    assert_eq!(v.mean, number(2.5));
    assert_eq!(v.internal_bins, 2);
}

#[test]
fn static_runner_assigns_tasks_by_rank() {
    let job = many_tasks(7);
    let result = run(
        &Runner::new(),
        &job,
        &RunOptions {
            assignment: Some(JobAssignment::new(1, 3).unwrap()),
            ..RunOptions::default()
        },
    )
    .unwrap();
    assert_eq!(
        result.result.tasks.iter().map(|task| task.task_index).collect::<Vec<_>>(),
        vec![1, 4]
    );
}

#[test]
fn dynamic_task_order_starts_at_rank_offset_and_wraps() {
    let assignment = JobAssignment::new(2, 3).unwrap();
    assert_eq!(
        dynamic_task_order(8, assignment),
        vec![5, 6, 7, 0, 1, 2, 3, 4]
    );
}

#[test]
fn duration_builder_configures_defaults() {
    let r = Runner::<M>::new()
        .stale_claim_after(SECOND)
        .duration_config(RunnerDurationConfig {
            deadline: Some(2 * SECOND),
            checkpoint_interval: Some(3 * SECOND),
        });
    assert_eq!(r.stale_claim_after, SECOND);
    assert_eq!(r.duration_config.deadline, Some(2 * SECOND));
    assert_eq!(r.duration_config.checkpoint_interval, Some(3 * SECOND));
}

#[test]
fn duration_deadline_stops_run_stably() {
    let j = Job::<M>::new("j", vec![Task::new("t", P).sweeps(4).binsize(2)]);
    let result = run(
        &Runner::new().deadline(60 * SECOND),
        &j,
        &RunOptions {
            deadline: Some(0),
            ..RunOptions::default()
        },
    )
    .unwrap();
    assert!(result.stopped_early);
    assert!(result.result.tasks.is_empty());
}

#[test]
fn runner_settings_are_independent() {
    let mut runner = Runner::<M>::default();
    assert_eq!(runner.stale_claim_after, HOUR);
    assert_eq!(runner.stale_claim_after, 3_600 * SECOND);
    assert_eq!(runner.scheduling, Scheduling::Static);
    runner.set_stale_claim_after(5);
    let runner = runner.dynamic().checkpoint_every(7).deadline(9);
    assert_eq!(runner.stale_claim_after, 5);
    assert_eq!(runner.scheduling, Scheduling::Dynamic);
    assert_eq!(
        runner.duration_config,
        RunnerDurationConfig { deadline: Some(9), checkpoint_interval: Some(7) }
    );
    let plan = runner.plan(&RunOptions { sweep_limit: Some(3), ..RunOptions::default() });
    assert_eq!(plan.sweep_limit, 3);
    assert_eq!(plan.deadline, Some(9));
    assert!(plan.restore_checkpoint && plan.allow_different_rank);
    assert!(plan.in_time(8));
    assert!(!plan.in_time(9));
    let plan = runner.scheduling(Scheduling::Static).plan(&RunOptions::default());
    assert!(!plan.restore_checkpoint && !plan.allow_different_rank);
    assert_eq!(plan.sweep_limit, usize::MAX);
}

#[test]
fn checkpoints_are_due_by_sweeps_by_time_and_at_the_end() {
    let runner = Runner::<M>::new().checkpoint_every(60 * SECOND);
    let plan = runner.plan(&RunOptions { checkpoint_interval: 3, ..RunOptions::default() });
    assert!(!plan.checkpoint_due(0, false, 0));
    assert!(!plan.checkpoint_due(2, false, 0));
    assert!(plan.checkpoint_due(3, false, 0));
    assert!(plan.checkpoint_due(2, true, 0));
    assert!(plan.checkpoint_due(2, false, 60 * SECOND));
    let plan = Runner::<M>::new().plan(&RunOptions::default());
    assert!(!plan.checkpoint_due(4, false, u128::MAX));
    let plan = runner.plan(&RunOptions {
        checkpoint_interval: usize::MAX,
        checkpoint_interval_time: Some(0),
        ..RunOptions::default()
    });
    assert!(plan.checkpoint_due(1, false, 0));
}

#[test]
fn every_rank_looks_at_every_task_once() {
    for world_size in 1..5 {
        for rank in 0..world_size {
            for count in 0..9 {
                let assignment = JobAssignment::new(rank, world_size).unwrap();
                let mut order = dynamic_task_order(count, assignment);
                if rank == 0 && count > 0 {
                    assert_eq!(order[0], 0);
                }
                order.sort();
                assert_eq!(order, (0..count).collect::<Vec<_>>());
            }
        }
    }
}

#[test]
fn static_ranks_together_merge() {
    let job = many_tasks(5);
    let parts: Vec<_> = (0..2)
        .map(|rank| {
            let options = RunOptions {
                assignment: Some(JobAssignment::new(rank, 2).unwrap()),
                ..RunOptions::default()
            };
            run(&Runner::new(), &job, &options).unwrap().result
        })
        .collect();
    let merged = merge_results(&job, parts).unwrap();
    assert_eq!(
        merged.tasks.iter().map(|task| task.task_index).collect::<Vec<_>>(),
        vec![0, 1, 2, 3, 4]
    );
}

#[test]
fn sweep_limits_stop_a_run_in_the_middle() {
    let job = Job::<M>::new(
        "j",
        vec![Task::new("a", P).sweeps(4), Task::new("b", P).sweeps(4)],
    );
    let limited = |limit| {
        let options = RunOptions { sweep_limit: Some(limit), ..RunOptions::default() };
        run(&Runner::new(), &job, &options).unwrap()
    };
    let none = limited(0);
    assert!(none.stopped_early && none.result.tasks.is_empty());
    let part = limited(6);
    assert!(part.stopped_early);
    assert!(validate_result_schema("p", &part.result).is_ok());
    assert_eq!(part.result.tasks.len(), 2);
    assert!(part.result.tasks[0].completed);
    assert!(!part.result.tasks[1].completed);
    assert_eq!(part.result.tasks[1].measurement_sweeps, 2);
    assert_eq!(part.result.tasks[1].observables.len(), 0);
    let exact = limited(4);
    assert!(exact.stopped_early);
    assert_eq!(exact.result.tasks.len(), 1);
    assert!(!limited(9).stopped_early);
}

#[test]
fn jobs_are_validated_before_they_run() {
    let run = |job: &Job<M>, o: &RunOptions| validate(job, o).unwrap_err();
    let options = RunOptions::default();
    let reason = |job: &Job<M>| match run(job, &options) {
        GenericJobError::InvalidTask { task, reason } => (task, reason),
        other => panic!("{}", other.message()),
    };
    let task = |name: &str| Task::new(name, P);
    assert_eq!(
        reason(&Job::new("j", vec![task("a/b")])),
        ("a/b".to_string(), "unsafe name")
    );
    assert_eq!(
        reason(&Job::new("j", vec![task("a"), task("b"), task("a")])),
        ("a".to_string(), "duplicate name")
    );
    for bad in [task("a").sweeps(0), task("a").binsize(0), task("a").binsize(2)] {
        assert_eq!(
            reason(&Job::new("j", vec![bad])),
            ("a".to_string(), "invalid sweeps/bin size")
        );
    }
    let good = Job::<M>::new("j", vec![task("a")]);
    assert!(validate(&good, &options).is_ok());
    assert!(matches!(
        run(&Job::new("..", vec![]), &options),
        GenericJobError::UnsafePath(name) if name == ".."
    ));
    let unsafe_path = RunOptions {
        output_path: Some("../x".to_string()),
        ..RunOptions::default()
    };
    assert!(matches!(run(&good, &unsafe_path), GenericJobError::UnsafePath(_)));
    let unsafe_path = RunOptions {
        checkpoint_dir: Some(String::new()),
        ..RunOptions::default()
    };
    assert!(matches!(run(&good, &unsafe_path), GenericJobError::UnsafePath(_)));
    let outside = RunOptions {
        assignment: Some(JobAssignment { rank: 2, world_size: 2 }),
        ..RunOptions::default()
    };
    assert!(matches!(
        run(&good, &outside),
        GenericJobError::InvalidAssignment { rank: 2, world_size: 2 }
    ));
}

const TASK: &[u8] =
    br#"{"name":"t","parameters":null,"sweeps":4,"thermalization":2,"binsize":2,"seed":0}"#;

fn task() -> Task<P> {
    Task::new("t", P).thermalization(2).sweeps(4).binsize(2)
}

fn restored(stopped: &TaskRun<M>, runtime: &TaskRuntime) -> RestoredState<M> {
    let state = stopped.checkpoint_state(&task(), runtime);
    let model = stopped.model.v.to_string().into_bytes();
    let stored = state.stored(TASK.to_vec(), b"null".to_vec(), model.clone());
    let bytes = write_checkpoint("c", &stored).unwrap();
    let checkpoint = read_checkpoint("c", bytes).unwrap().with_task("c", task()).unwrap();
    let v: f64 = std::str::from_utf8(&checkpoint.model).unwrap().parse().unwrap();
    let value: serde_json::Value = serde_json::from_slice(&model).unwrap();
    restore("c", checkpoint, M { v }, &value).unwrap()
}

#[test]
fn checkpoint_resume_matches_uninterrupted_run() {
    let task = task();
    let runtime = runtime(JobAssignment::single(), 0, 3);
    let mut full = TaskRun::<M>::start(&task).unwrap();
    drive(&mut full, &task, usize::MAX);
    for first in 0..=6 {
        let mut stopped = TaskRun::<M>::start(&task).unwrap();
        drive(&mut stopped, &task, first);
        assert_eq!(stopped.used, first);
        let state = restored(&stopped, &runtime);
        if first == 3 {
            let pending = state.observables.get("v").unwrap();
            assert_eq!(state.thermalization_sweeps, 2);
            assert_eq!(state.measurement_sweeps, 1);
            assert_eq!(pending.pending_count, 1);
            assert_eq!(pending.pending_sum, number(3.0));
            assert_eq!(pending.total_count, 1);
            assert!(pending.internal_bins.is_empty());
        }
        let mut resumed = TaskRun::resume(&task, &runtime, "c", state).unwrap();
        assert_eq!(resumed.used, 0);
        drive(&mut resumed, &task, usize::MAX);
        assert_eq!(resumed.used, 6 - first);
        assert_eq!(resumed.context.rng_position(), full.context.rng_position());
        assert_eq!(resumed.model.v, full.model.v);
        assert_same_task(&outcome(&resumed, &task, 0), &outcome(&full, &task, 0));
    }
}

#[test]
fn checkpoint_resume_rejects_job_task_index_and_corrupt_state() {
    let task = task();
    let home = runtime(JobAssignment::single(), 0, 3);
    let state = || {
        let mut stopped = TaskRun::<M>::start(&task).unwrap();
        drive(&mut stopped, &task, 3);
        restored(&stopped, &home)
    };
    assert!(TaskRun::resume(&task, &home, "c", state()).is_ok());

    let mut cases: Vec<RestoredState<M>> = Vec::new();
    let mut case = |change: &dyn Fn(&mut RestoredState<M>)| {
        let mut changed = state();
        change(&mut changed);
        cases.push(changed);
    };
    case(&|s| {
        s.rank = 1;
        s.world_size = 2;
    });
    case(&|s| s.world_size = 2);
    case(&|s| s.job_name = "other".into());
    case(&|s| s.task.name = "other".into());
    case(&|s| s.task_index = 1);
    case(&|s| s.thermalization_sweeps = 3);
    case(&|s| s.measurement_sweeps = 5);
    case(&|s| s.thermalization_sweeps = 1);
    let accumulator = |change: &dyn Fn(&mut carlo_mc::CompactAccumulator)| {
        let mut changed = state();
        let mut v = changed.observables.remove("v").unwrap();
        change(&mut v);
        changed.observables.insert("v".into(), v);
        changed
    };
    cases.push(accumulator(&|v| v.binsize = 0));
    cases.push(accumulator(&|v| {
        v.pending_count = 2;
        v.total_count = 2;
    }));
    cases.push(accumulator(&|v| v.total_count = 2));
    cases.push(accumulator(&|v| {
        v.pending_count = 0;
        v.total_count = 0;
    }));
    cases.push(accumulator(&|v| v.pending_sum = number(f64::NAN)));
    cases.push(accumulator(&|v| {
        v.internal_bins = vec![number(f64::INFINITY)];
        v.total_count = 3;
    }));
    let mut empty_observable = state();
    let v = empty_observable.observables.remove("v").unwrap();
    empty_observable.observables.insert(String::new(), v);
    cases.push(empty_observable);

    for changed in cases {
        match TaskRun::resume(&task, &home, "c", changed) {
            Err(GenericJobError::CheckpointMismatch { path, task }) => {
                assert_eq!((path.as_str(), task.as_str()), ("c", "t"));
            }
            _ => panic!("accepted"),
        }
    }
}

#[test]
fn other_ranks_resume_where_that_is_allowed() {
    let task = task();
    let first = runtime(JobAssignment::new(0, 2).unwrap(), 0, 3);
    let mut second = runtime(JobAssignment::new(1, 2).unwrap(), 0, 3);
    let mut stopped = TaskRun::<M>::start(&task).unwrap();
    drive(&mut stopped, &task, 2);
    assert!(TaskRun::resume(&task, &second, "c", restored(&stopped, &first)).is_err());
    second.allow_different_rank = true;
    assert!(TaskRun::resume(&task, &second, "c", restored(&stopped, &first)).is_ok());
}

#[test]
fn tasks_thermalize_first_and_measure_then() {
    let task = task();
    let mut run = TaskRun::<M>::start(&task).unwrap();
    let mut steps = Vec::new();
    loop {
        let step = run.next_step(&task, usize::MAX, true);
        steps.push(step);
        match step {
            Step::Thermalize => run.thermalize().unwrap(),
            Step::Measure => {
                run.measure().unwrap();
                assert!(run.context.is_thermalized());
            }
            Step::Stop => break,
        }
        assert_eq!(run.used, steps.len());
    }
    assert_eq!(
        steps,
        [
            Step::Thermalize,
            Step::Thermalize,
            Step::Measure,
            Step::Measure,
            Step::Measure,
            Step::Measure,
            Step::Stop
        ]
    );
    assert_eq!(run.next_step(&task, usize::MAX, false), Step::Stop);
    let fresh = TaskRun::<M>::start(&task).unwrap();
    assert_eq!(fresh.next_step(&task, 0, true), Step::Stop);
    assert_eq!(fresh.next_step(&task, 1, false), Step::Stop);
}

fn actions(task: &Task<P>, sweep_budget: usize) -> (Vec<TaskAction>, usize) {
    let mut run = TaskRun::<M>::start(task).unwrap();
    let mut actions = Vec::new();
    loop {
        let last = actions.last().copied();
        let action = run.next_action(last, task, sweep_budget, true);
        actions.push(action);
        match action {
            TaskAction::Thermalize => run.thermalize().unwrap(),
            TaskAction::Measure => run.measure().unwrap(),
            TaskAction::Maintain { .. } => {}
            TaskAction::Finish => return (actions, run.used),
        }
    }
}

#[test]
fn tasks_are_maintained_after_every_sweep_and_at_the_end() {
    let keep = TaskAction::Maintain { last: false };
    let close = TaskAction::Maintain { last: true };
    let task = Task::new("t", P).thermalization(1).sweeps(2);
    assert_eq!(
        actions(&task, usize::MAX).0,
        [
            TaskAction::Thermalize,
            keep,
            TaskAction::Measure,
            keep,
            TaskAction::Measure,
            keep,
            close,
            TaskAction::Finish
        ]
    );
    assert_eq!(actions(&task, 0), (vec![close, TaskAction::Finish], 0));
    for budget in 0..5 {
        let (actions, used) = actions(&task, budget);
        let maintained =
            actions.iter().filter(|action| matches!(action, TaskAction::Maintain { .. })).count();
        assert_eq!(used, budget.min(3));
        assert_eq!(maintained, used + 1);
    }
    let fresh = TaskRun::<M>::start(&task).unwrap();
    assert_eq!(fresh.next_action(None, &task, 9, false), close);
    assert_eq!(fresh.next_action(Some(TaskAction::Finish), &task, 9, true), TaskAction::Finish);
}

#[test]
fn complete_tasks_are_estimated_from_full_bins() {
    let task = Task::new("t", P).sweeps(3).binsize(4);
    let mut run = TaskRun::<M>::start(&task).unwrap();
    drive(&mut run, &task, 2);
    assert!(!run.wants_estimates(&task).unwrap());
    drive(&mut run, &task, 3);
    assert!(matches!(
        run.wants_estimates(&task),
        Err(GenericJobError::InsufficientSamples { .. })
    ));
    let task = Task::new("t", P).sweeps(3).binsize(3);
    let mut run = TaskRun::<M>::start(&task).unwrap();
    drive(&mut run, &task, 3);
    assert!(run.wants_estimates(&task).unwrap());
}

#[test]
fn runs_and_their_options_compare() {
    let job = Job::<M>::new("j", vec![Task::new("t", P).sweeps(4).binsize(2)]);
    let options = RunOptions { sweep_limit: Some(3), ..RunOptions::default() };
    assert_eq!(options.clone(), options);
    assert_ne!(options, RunOptions::default());
    let copy = job.clone();
    assert_eq!(copy.name, "j");
    assert!(copy.tasks == job.tasks);
    let full = run(&Runner::new(), &job, &RunOptions::default()).unwrap();
    assert_eq!(full, full.clone());
    assert_eq!(full.result, run(&Runner::new(), &copy, &RunOptions::default()).unwrap().result);
    assert_ne!(full, run(&Runner::new(), &job, &options).unwrap());
}

#[test]
fn observables_without_a_full_bin_are_reported() {
    let task = Task::new("t", P).sweeps(3).binsize(3);
    let mut run = TaskRun::<M>::start(&task).unwrap();
    drive(&mut run, &task, 2);
    match run.check_samples(&task) {
        Err(GenericJobError::InsufficientSamples { task, observable }) => {
            assert_eq!((task.as_str(), observable.as_str()), ("t", "v"));
        }
        _ => panic!("accepted"),
    }
    drive(&mut run, &task, 3);
    assert!(run.check_samples(&task).is_ok());
}

fn task_text(task: &Task<P>) -> Vec<u8> {
    format!(
        r#"{{"name":"{}","parameters":null,"sweeps":{},"thermalization":{},"binsize":{},"seed":{}}}"#,
        task.name, task.sweeps, task.thermalization, task.binsize, task.seed
    )
    .into_bytes()
}

fn go(job: &Job<M>, files: &mut [Option<Vec<u8>>], sweep_limit: Option<usize>) -> RunResult<P> {
    let options = RunOptions { sweep_limit, resume: true, ..RunOptions::default() };
    let plan = Runner::<M>::new().plan(&options);
    let mut under_way = JobRun::start(plan, job.tasks.len());
    while let RunAction::Run(index) = under_way.next_action(0) {
        let task = &job.tasks[index];
        let runtime = runtime(plan.assignment, index, under_way.budget);
        let mut run = match &files[index] {
            Some(bytes) => {
                let stored = read_checkpoint("c", bytes.clone()).unwrap();
                let checkpoint = stored.with_task("c", task.clone()).unwrap();
                let value: serde_json::Value = serde_json::from_slice(&checkpoint.model).unwrap();
                let model = M { v: value.as_f64().unwrap() };
                let state = restore("c", checkpoint, model, &value).unwrap();
                TaskRun::resume(task, &runtime, "c", state).unwrap()
            }
            None => TaskRun::start(task).unwrap(),
        };
        drive(&mut run, task, runtime.sweep_budget);
        let model = serde_json::to_vec(&serde_json::to_value(run.model.v).unwrap()).unwrap();
        let state = run.checkpoint_state(task, &runtime);
        let stored = state.stored(task_text(task), b"null".to_vec(), model);
        files[index] = Some(write_checkpoint("c", &stored).unwrap());
        if !under_way.record(outcome(&run, task, index), run.used, None) {
            break;
        }
    }
    under_way.finish(&job.name, None)
}

#[test]
fn interrupted_jobs_end_as_uninterrupted_ones() {
    let job = Job::<M>::new(
        "j",
        vec![
            Task::new("a", P).thermalization(2).sweeps(4).binsize(2),
            Task::new("b", P).sweeps(5).binsize(2).seed(7),
            Task::new("c", P).thermalization(1).sweeps(3).binsize(1),
        ],
    );
    let full = go(&job, &mut [None, None, None], None);
    assert!(!full.stopped_early);
    for limits in [vec![1], vec![6], vec![7], vec![3, 4], vec![2, 0, 9], vec![5, 5, 4]] {
        let mut files = [None, None, None];
        for limit in &limits {
            assert!(go(&job, &mut files, Some(*limit)).stopped_early, "{limits:?}");
        }
        let last = go(&job, &mut files, None);
        assert!(!last.stopped_early);
        assert_same(&last.result, &full.result);
    }
}

#[test]
fn dynamic_scheduling_needs_a_directory() {
    assert_eq!(claim_directory(&Some("d".to_string())).unwrap(), "d");
    assert!(matches!(
        claim_directory(&None),
        Err(GenericJobError::Merge("dynamic scheduling requires checkpoint_dir"))
    ));
}
