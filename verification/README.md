# carlo-mc

A verified core for deterministic, resumable Monte Carlo jobs.

A job is a list of tasks. Each task is a parameter point with its own seed, its number of
thermalization and measurement sweeps, and its bin size. The core holds the rules by which such a
job runs, and Verus proves them.

## Layout

| Module | What it holds |
| --- | --- |
| `assignment` | Ranks, and how the environment tells them. |
| `model` | Tasks, jobs, task makers and the `MonteCarlo` trait. |
| `rng` | The seekable random stream. |
| `simulation` | Accumulators and the context of a model. |
| `task_run` | One task: start, resume, steps, result. |
| `course` | The actions of one task: sweeps, maintenance and the end. |
| `runner` | The course of a job: options, validation, order of the tasks. |
| `relay` | A job that is run in several goes, each taking up where the one before stopped. |
| `lease` | Claims, heartbeats and done markers of ranks that share a directory. |
| `checkpoint`, `state` | Checkpoint files and the states in them. |
| `results`, `result_file`, `merge` | Results, result files, and merging the results of all ranks. |
| `estimate` | Binning, rebinning and estimates. |
| `config` | Typed access to TOML tables. |
| `paths` | Names of files, and which of them are safe. |
| `hdf5`, `json`, `layout` | What is trusted of `hdf5_pure` and `serde_json`, and the building blocks on top of it. |
| `catalog`, `text`, `number`, `error`, `faults` | Ordered maps, texts, bit patterns of numbers, errors, and which of several comes first. |

Public proof functions whose names begin with `law_` state what holds of several functions
together: that a resumed run ends where an uninterrupted one does, that a file that was written
reads back as it was, that the order of the parts of a merge does not matter, and more.

`app/` surrounds the core with what it leaves to its callers: files, clocks, environment
variables, serialization and floating-point arithmetic. Numbers cross the border as bit patterns.

## Trust

Calls into `hdf5_pure`, `serde_json`, `toml` and a few functions of the standard library go
through items with a contract that is not proved. Each says in its comment what it claims. Where
such a call may fail, its outcome has a name that depends on what goes into the call, and the
contracts above it say over these names when a function succeeds and with which words it fails.
