//! Verified core of a framework for deterministic, resumable Monte Carlo jobs.
//!
//! A job is a collection of tasks, each an independent parameter point with execution settings.
//! The crate holds the rules by which such a job runs: the random stream, binning, checkpoints,
//! scheduling, leases, result files and merging. Files, clocks, environment variables and
//! floating-point arithmetic belong to the callers, which hand plain values in.

pub mod assignment;
pub mod catalog;
pub mod checkpoint;
pub mod config;
pub mod course;
pub mod error;
pub mod estimate;
pub mod faults;
pub mod hdf5;
pub mod json;
pub mod layout;
pub mod lease;
pub mod merge;
pub mod model;
pub mod number;
pub mod paths;
pub mod relay;
pub mod result_file;
pub mod results;
pub mod rng;
pub mod runner;
pub mod simulation;
pub mod state;
pub mod task_run;
pub mod text;

pub use assignment::{AssignmentError, JobAssignment, Scheduling};
pub use catalog::Catalog;
pub use config::{Number, Params, ParamsError};
pub use error::GenericJobError;
pub use estimate::{
    carlo_rebin_count, carlo_rebin_length, default_estimates, BinnedEstimate, Estimate, Evaluator,
    ResultEstimate, ScalarEstimate,
};
pub use merge::{merge_dynamic_results, merge_results, merge_results_with_scheduling};
pub use model::{Job, MonteCarlo, Task, TaskMaker};
pub use number::Real;
pub use paths::{
    checkpoint_path, dump_path, measurement_path, result_path, task_path, validate_safe_component,
};
pub use results::{JobResult, TaskResult};
pub use rng::DeterministicRng;
pub use runner::{RunOptions, RunResult, Runner, RunnerDurationConfig};
pub use simulation::{CompactAccumulator, Context, Sample};
pub use state::{CheckpointState, RestoredState};
