//! The errors that the library reports.

use crate::text::decimal_text;
#[allow(unused_imports)]
use crate::text::decimal;
use vstd::prelude::*;

verus! {

/// A failure of a job, a task, a file or a merge.
#[allow(inconsistent_fields)]
#[derive(Debug)]
#[non_exhaustive]
pub enum GenericJobError {
    InvalidTask { task: String, reason: &'static str },
    InvalidAssignment { rank: usize, world_size: usize },
    InvalidMeasurement { observable: String, reason: &'static str },
    Hdf5 { path: String, reason: String },
    Schema { path: String, reason: &'static str },
    CheckpointMismatch { path: String, task: String },
    InsufficientSamples { task: String, observable: String },
    UnsafePath(String),
    Merge(&'static str),
}

/// Whether an error reports that the file at `path` breaks the schema for `reason`.
pub open spec fn is_schema_error(error: GenericJobError, path: Seq<char>, reason: Seq<char>) -> bool {
    error matches GenericJobError::Schema { path: p, reason: r } && p@ == path && r@ == reason
}

/// Whether an error passes on that the HDF5 library gave up on the file at `path` with `words`.
pub open spec fn is_hdf5_error(error: GenericJobError, path: Seq<char>, words: Seq<char>) -> bool {
    error matches GenericJobError::Hdf5 { path: p, reason: r } && p@ == path && r@ == words
}

/// A text in double quotes, with escapes for what cannot stand between them.
pub uninterp spec fn quoted(text: Seq<char>) -> Seq<char>;

/// The `Debug` format of `str` puts a text in double quotes. Which characters it escapes is left
/// to the standard library.
#[verifier::external_body]
fn quote(text: &str) -> (quote: String)
    ensures
        quote@ == quoted(text@),
{
    format!("{text:?}")
}

impl GenericJobError {
    /// What went wrong, in words.
    pub open spec fn words(self) -> Seq<char> {
        match self {
            GenericJobError::InvalidTask { task, reason } => "invalid task "@ + quoted(task@)
                + ": "@ + reason@,
            GenericJobError::InvalidAssignment { rank, world_size } => "invalid assignment "@
                + decimal(rank as nat) + "/"@ + decimal(world_size as nat),
            GenericJobError::InvalidMeasurement { observable, reason } => "invalid measurement "@
                + quoted(observable@) + ": "@ + reason@,
            GenericJobError::Hdf5 { path, reason } => "HDF5 error at "@ + path@ + ": "@ + reason@,
            GenericJobError::Schema { path, reason } => "invalid schema at "@ + path@ + ": "@
                + reason@,
            GenericJobError::CheckpointMismatch { path, task } => "checkpoint "@ + path@
                + " mismatches "@ + quoted(task@),
            GenericJobError::InsufficientSamples { task, observable } => "no complete bin for "@
                + quoted(task@) + "/"@ + quoted(observable@),
            GenericJobError::UnsafePath(path) => "unsafe path component "@ + quoted(path@),
            GenericJobError::Merge(reason) => "invalid result merge: "@ + reason@,
        }
    }

    /// Says what went wrong.
    pub fn message(&self) -> (text: String)
        ensures
            text@ == self.words(),
    {
        match self {
            GenericJobError::InvalidTask { task, reason } => "invalid task ".to_owned().concat(
                quote(task.as_str()).as_str(),
            ).concat(": ").concat(reason),
            GenericJobError::InvalidAssignment { rank, world_size } => {
                let rank: usize = *rank;
                let world_size: usize = *world_size;
                "invalid assignment ".to_owned().concat(
                    decimal_text(rank as u128).as_str(),
                ).concat("/").concat(decimal_text(world_size as u128).as_str())
            },
            GenericJobError::InvalidMeasurement { observable, reason } => {
                "invalid measurement ".to_owned().concat(
                    quote(observable.as_str()).as_str(),
                ).concat(": ").concat(reason)
            },
            GenericJobError::Hdf5 { path, reason } => "HDF5 error at ".to_owned().concat(
                path.as_str(),
            ).concat(": ").concat(reason.as_str()),
            GenericJobError::Schema { path, reason } => "invalid schema at ".to_owned().concat(
                path.as_str(),
            ).concat(": ").concat(reason),
            GenericJobError::CheckpointMismatch { path, task } => "checkpoint ".to_owned().concat(
                path.as_str(),
            ).concat(" mismatches ").concat(quote(task.as_str()).as_str()),
            GenericJobError::InsufficientSamples { task, observable } => {
                "no complete bin for ".to_owned().concat(quote(task.as_str()).as_str()).concat(
                    "/",
                ).concat(quote(observable.as_str()).as_str())
            },
            GenericJobError::UnsafePath(path) => "unsafe path component ".to_owned().concat(
                quote(path.as_str()).as_str(),
            ),
            GenericJobError::Merge(reason) => "invalid result merge: ".to_owned().concat(reason),
        }
    }
}

/// Builds the error for a file that breaks the schema.
pub fn schema(path: &str, reason: &'static str) -> (error: GenericJobError)
    ensures
        is_schema_error(error, path@, reason@),
{
    GenericJobError::Schema { path: path.to_owned(), reason }
}

/// Builds the error for a file that the HDF5 library gave up on.
pub fn hdf5(path: &str, reason: String) -> (error: GenericJobError)
    ensures
        is_hdf5_error(error, path@, reason@),
{
    GenericJobError::Hdf5 { path: path.to_owned(), reason }
}

/// What an error says: what went wrong, and then what it is about, with the names of tasks and
/// observables in quotes and paths and reasons as they are.
pub proof fn law_messages(e: GenericJobError, text: String)
    requires
        call_ensures(GenericJobError::message, (&e,), text),
    ensures
        e matches GenericJobError::InvalidTask { task, reason } ==> text@ == "invalid task "@
            + quoted(task@) + ": "@ + reason@,
        e matches GenericJobError::InvalidAssignment { rank, world_size } ==> text@
            == "invalid assignment "@ + decimal(rank as nat) + "/"@ + decimal(world_size as nat),
        e matches GenericJobError::InvalidMeasurement { observable, reason } ==> text@
            == "invalid measurement "@ + quoted(observable@) + ": "@ + reason@,
        e matches GenericJobError::Hdf5 { path, reason } ==> text@ == "HDF5 error at "@ + path@
            + ": "@ + reason@,
        e matches GenericJobError::Schema { path, reason } ==> text@ == "invalid schema at "@ + path@
            + ": "@ + reason@,
        e matches GenericJobError::CheckpointMismatch { path, task } ==> text@ == "checkpoint "@
            + path@ + " mismatches "@ + quoted(task@),
        e matches GenericJobError::InsufficientSamples { task, observable } ==> text@
            == "no complete bin for "@ + quoted(task@) + "/"@ + quoted(observable@),
        e matches GenericJobError::UnsafePath(path) ==> text@ == "unsafe path component "@ + quoted(
            path@,
        ),
        e matches GenericJobError::Merge(reason) ==> text@ == "invalid result merge: "@ + reason@,
{
}

/// The errors for files carry the path and the reason that they are made of.
pub proof fn law_file_errors(
    path: &str,
    reason: &'static str,
    broken: GenericJobError,
    words: String,
    given_up: GenericJobError,
)
    requires
        call_ensures(schema, (path, reason), broken),
        call_ensures(hdf5, (path, words), given_up),
    ensures
        broken matches GenericJobError::Schema { path: p, reason: r } && p@ == path@ && r@
            == reason@,
        given_up matches GenericJobError::Hdf5 { path: p, reason: r } && p@ == path@ && r@
            == words@,
{
}

} // verus!
