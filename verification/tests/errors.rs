use carlo_mc::GenericJobError;

#[test]
fn errors_explain_themselves() {
    let text = |s: &str| s.to_string();
    let cases = [
        (
            GenericJobError::InvalidTask { task: text("t"), reason: "duplicate name" },
            "invalid task \"t\": duplicate name",
        ),
        (
            GenericJobError::InvalidAssignment { rank: 12, world_size: 4 },
            "invalid assignment 12/4",
        ),
        (
            GenericJobError::InvalidMeasurement { observable: text(""), reason: "bin size changed" },
            "invalid measurement \"\": bin size changed",
        ),
        (
            GenericJobError::Hdf5 { path: text("a/b"), reason: text("no memory") },
            "HDF5 error at a/b: no memory",
        ),
        (
            GenericJobError::Schema { path: text("a/b"), reason: "invalid root attributes" },
            "invalid schema at a/b: invalid root attributes",
        ),
        (
            GenericJobError::CheckpointMismatch { path: text("a/b"), task: text("t\n") },
            "checkpoint a/b mismatches \"t\\n\"",
        ),
        (
            GenericJobError::InsufficientSamples { task: text("t"), observable: text("e\"") },
            "no complete bin for \"t\"/\"e\\\"\"",
        ),
        (GenericJobError::UnsafePath(text("..")), "unsafe path component \"..\""),
        (GenericJobError::Merge("no rank results"), "invalid result merge: no rank results"),
    ];
    for (error, message) in cases {
        assert_eq!(error.message(), message);
    }
}
