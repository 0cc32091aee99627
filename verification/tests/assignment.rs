use carlo_mc::assignment::{env_any, parse_usize, rank_variables, world_size_variables};
use carlo_mc::{AssignmentError, Context, Job, JobAssignment, MonteCarlo, Params, Task};
use std::convert::Infallible;

struct M;

#[derive(Clone, PartialEq)]
struct P;

impl MonteCarlo for M {
    type Parameters = P;
    type Error = Infallible;

    fn new(_: &P) -> Result<Self, Self::Error> {
        Ok(M)
    }

    fn init(&mut self, _: &mut Context) -> Result<(), Self::Error> {
        Ok(())
    }

    fn sweep(&mut self, _: &mut Context) -> Result<(), Self::Error> {
        Ok(())
    }

    fn measure(&mut self, _: &mut Context) -> Result<(), Self::Error> {
        Ok(())
    }
}

fn given(values: &[Option<&str>]) -> Vec<Option<String>> {
    values.iter().map(|value| value.map(str::to_owned)).collect()
}

#[test]
fn assignment_validation() {
    assert!(JobAssignment::new(1, 1).is_err());
    assert!(JobAssignment::new(0, 0).is_err());
    assert_eq!(JobAssignment::single().world_size, 1);
}

#[test]
fn static_selection() {
    let j = Job::<M>::new(
        "j",
        (0..5).map(|i: usize| Task::new(&i.to_string(), P)).collect(),
    );
    let a = JobAssignment::new(1, 2).unwrap();
    assert_eq!(
        j.selected_tasks(a).iter().map(|x| x.0).collect::<Vec<_>>(),
        vec![1, 3]
    );
}

#[test]
fn selections_of_all_ranks_cover_each_task_once() {
    let j = Job::<M>::new(
        "j",
        (0..7).map(|i: usize| Task::new(&i.to_string(), P)).collect(),
    );
    let mut seen = vec![0; 7];
    for rank in 0..3 {
        let a = JobAssignment::new(rank, 3).unwrap();
        for (index, task) in j.selected_tasks(a) {
            assert_eq!(index % 3, rank);
            assert_eq!(task.name, index.to_string());
            seen[index] += 1;
        }
    }
    assert_eq!(seen, vec![1; 7]);
}

#[test]
fn assignment_errors_carry_and_explain_the_values() {
    assert_eq!(
        JobAssignment::new(3, 2),
        Err(AssignmentError { rank: 3, world_size: 2 })
    );
    assert_eq!(
        JobAssignment::new(3, 2).unwrap_err().message(),
        "rank must be smaller than world_size"
    );
    assert_eq!(
        JobAssignment::new(0, 0).unwrap_err().message(),
        "world_size must be positive"
    );
    assert_eq!(
        JobAssignment::single(),
        JobAssignment { rank: 0, world_size: 1 }
    );
}

#[test]
fn environment_variables_are_tried_in_order() {
    assert_eq!(rank_variables()[0], "XY_RANK");
    assert_eq!(rank_variables()[5], "MV2_COMM_WORLD_RANK");
    assert_eq!(world_size_variables()[1], "SLURM_NTASKS");
    assert_eq!(env_any(&given(&[None, Some("x"), Some("3"), Some("4")])), Some(3));
    assert_eq!(env_any(&given(&[None, Some("")])), None);
    assert_eq!(
        JobAssignment::from_env(&given(&[None, Some("2")]), &given(&[Some("5")])),
        Ok(JobAssignment { rank: 2, world_size: 5 })
    );
    assert_eq!(
        JobAssignment::from_env(&given(&[None]), &given(&[])),
        Ok(JobAssignment { rank: 0, world_size: 1 })
    );
    assert_eq!(
        JobAssignment::from_env(&given(&[Some("7")]), &given(&[])),
        Err(AssignmentError { rank: 7, world_size: 1 })
    );
}

#[test]
fn numbers_are_read_as_the_standard_library_reads_them() {
    for text in [
        "0", "7", "+7", "007", "-7", "", "+", " 7", "7 ", "1e3", "18446744073709551615",
        "18446744073709551616", "00000000000000000000000000012", "٣",
    ] {
        assert_eq!(parse_usize(text), text.parse::<usize>().ok(), "{text:?}");
    }
}

#[test]
fn models_without_a_grid_build_no_tasks() {
    assert_eq!(M::build_tasks(&Params::new()).unwrap().len(), 0);
}
