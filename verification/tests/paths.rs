use carlo_mc::paths::{
    after_attempt, claim_path, done_path, file_name, heartbeat_path, output_format, parent_path,
    path_prefixes, temporary_name, validate_safe_path, validate_safe_relative_path, Attempt,
    Creation, OutputFormat, TEMP_ATTEMPTS,
};
use carlo_mc::{
    dump_path, measurement_path, result_path, task_path, validate_safe_component, GenericJobError,
};

#[test]
fn public_layout_uses_one_based_task_and_run_names() {
    let root = "output";
    assert_eq!(task_path(root, 0), "output/task0001");
    assert_eq!(task_path(root, 11), "output/task0012");
    assert_eq!(dump_path(root, 0, 0), "output/task0001/run0001.dump.h5");
    assert_eq!(dump_path(root, 1, 2), "output/task0002/run0003.dump.h5");
    assert_eq!(
        measurement_path(root, 0, 0),
        "output/task0001/run0001.meas.h5"
    );
    assert_eq!(result_path(root), "output/result");
}

#[test]
fn rejects_dangerous() {
    for value in [
        "", ".", "..", "a/b", "a\\b", "/tmp", "../x", "x/..", " name", "name ", "name.", "a:b",
        "a\0b", "a\nb", "CON", "con.txt", "PRN", "AUX.json", "NUL", "COM1", "com9.log", "LPT1",
        "lpt9.txt",
    ] {
        assert!(
            validate_safe_component(value).is_err(),
            "accepted {value:?}"
        );
    }
    for value in ["safe-_1", ".hidden", "COM0", "LPT10", "auxiliary"] {
        assert!(validate_safe_component(value).is_ok(), "rejected {value:?}");
    }
    for path in ["/tmp/x", "../x", "x/../y", "x\\y", "x//y"] {
        assert!(validate_safe_relative_path(path).is_err());
    }
    assert!(validate_safe_relative_path("safe/path.json").is_ok());
    assert!(validate_safe_path("/tmp/safe/path.json").is_ok());
    for path in ["/", "/tmp//x", "/tmp/./x", "/tmp/../x", "/tmp/x/"] {
        assert!(validate_safe_path(path).is_err(), "accepted {path:?}");
    }
}

#[test]
fn unsafe_names_are_reported_as_they_are() {
    match validate_safe_component("a:b") {
        Err(GenericJobError::UnsafePath(name)) => assert_eq!(name, "a:b"),
        _ => panic!("accepted a colon"),
    }
    match validate_safe_path("/tmp/../x") {
        Err(GenericJobError::UnsafePath(path)) => assert_eq!(path, "/tmp/../x"),
        _ => panic!("accepted a parent component"),
    }
    assert!(validate_safe_component("\u{3000}x").is_err());
    assert!(validate_safe_component("x\u{85}y").is_err());
    assert!(validate_safe_component("größe").is_ok());
    assert!(validate_safe_component("com\u{b9}").is_ok());
}

#[test]
fn layout_handles_roots_and_large_indices() {
    assert_eq!(task_path("", 0), "task0001");
    assert_eq!(task_path("/", 0), "/task0001");
    assert_eq!(task_path("out/", 9_998), "out/task9999");
    assert_eq!(task_path("out", 9_999), "out/task10000");
    assert_eq!(claim_path("d", 0, 0), "d/task0001/run0001.claim");
    assert_eq!(heartbeat_path("d", 0, 0), "d/task0001/run0001.heartbeat");
    assert_eq!(done_path("d", 0, 0), "d/task0001/run0001.done");
    assert_ne!(done_path("d", 0, 0), dump_path("d", 0, 0));
}

#[test]
fn generated_paths_are_safe() {
    for index in [0, 41, 99_999] {
        assert!(validate_safe_path(&dump_path("/data/run", index, 0)).is_ok());
        assert!(validate_safe_path(&claim_path("run", index, 3)).is_ok());
    }
}

#[test]
fn paths_are_taken_apart() {
    assert_eq!(path_prefixes("a/b/c"), ["a", "a/b", "a/b/c"]);
    assert_eq!(path_prefixes("/a/b"), ["/", "/a", "/a/b"]);
    assert_eq!(parent_path("a/b/c"), "a/b");
    assert_eq!(parent_path("/a"), "/");
    assert_eq!(file_name("a/b/c.h5"), "c.h5");
    assert_eq!(file_name("c.h5"), "c.h5");
}

#[test]
fn output_format_follows_the_name() {
    assert_eq!(output_format("out/result"), OutputFormat::Hdf5);
    assert_eq!(output_format("result"), OutputFormat::Hdf5);
    assert_eq!(output_format("out/r.h5"), OutputFormat::Hdf5);
    assert_eq!(output_format("out/r.json"), OutputFormat::Json);
    assert_eq!(output_format("out.h5/r"), OutputFormat::Json);
    assert_eq!(output_format("out/.h5"), OutputFormat::Json);
    assert_eq!(output_format("out/results"), OutputFormat::Json);
}

#[test]
fn temporary_names_are_tried_a_limited_number_of_times() {
    assert_eq!(temporary_name("x", 31, 7), ".x.tmp.31.7");
    assert_eq!(after_attempt(0, Creation::Created), Attempt::Done);
    assert_eq!(after_attempt(0, Creation::AlreadyExists), Attempt::Again);
    assert_eq!(after_attempt(TEMP_ATTEMPTS - 1, Creation::AlreadyExists), Attempt::Exhausted);
    assert_eq!(after_attempt(5, Creation::Failed), Attempt::Fail);
}

#[test]
fn different_indices_have_different_paths() {
    let mut seen = std::collections::BTreeSet::new();
    for task in [0, 1, 9, 10, 99, 999, 9_999, 10_000] {
        for run in [0, 1, 9_998, 9_999] {
            assert!(seen.insert(dump_path("d", task, run)));
            assert!(seen.insert(measurement_path("d", task, run)));
            assert!(seen.insert(claim_path("d", task, run)));
        }
    }
}
