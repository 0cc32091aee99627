use carlo_mc::{Task, TaskMaker};

#[test]
fn builders() {
    let mut m = TaskMaker::new(1);
    m.set_sweeps(4).set_binsize(2).add_task("a");
    *m.shared_mut() = 2;
    m.add_task_with("b", |p| *p = 3);
    assert_eq!(m.tasks()[0].parameters, 1);
    assert_eq!(m.tasks()[1].parameters, 3);
}

#[test]
fn task_defaults() {
    let t = Task::new("x", ());
    assert_eq!(
        (t.sweeps, t.thermalization, t.binsize, t.seed),
        (1, 0, 1, 0)
    );
}

#[test]
fn task_settings_are_independent() {
    let t = Task::new("x", 5).sweeps(10).thermalization(3).binsize(2).seed(9);
    assert_eq!(t.name, "x");
    assert_eq!(t.parameters, 5);
    assert_eq!(
        (t.sweeps, t.thermalization, t.binsize, t.seed),
        (10, 3, 2, 9)
    );
    assert!(t.clone() == t);
    assert!(Task::new("x", 5).sweeps(10).thermalization(3).binsize(2).seed(8) != t);
    assert!(Task::new("y", 5).sweeps(10).thermalization(3).binsize(2).seed(9) != t);
    assert!(Task::new("x", 6).sweeps(10).thermalization(3).binsize(2).seed(9) != t);
}

#[test]
fn makers_use_the_defaults_of_the_moment() {
    let mut m = TaskMaker::new(String::from("shared"));
    m.add_task("first");
    m.set_sweeps(8).set_thermalization(4).set_binsize(2).set_seed(11);
    m.add_task_with("second", |p| p.push_str(", changed"));
    m.set_shared(String::from("new"));
    m.add_task("third");
    let tasks = m.make_tasks();
    assert_eq!(tasks.len(), 3);
    assert_eq!(tasks[0].parameters, "shared");
    assert_eq!((tasks[0].sweeps, tasks[0].seed), (1, 0));
    assert_eq!(tasks[1].parameters, "shared, changed");
    assert_eq!(
        (tasks[1].sweeps, tasks[1].thermalization, tasks[1].binsize, tasks[1].seed),
        (8, 4, 2, 11)
    );
    assert_eq!(tasks[2].name, "third");
    assert_eq!(tasks[2].parameters, "new");
}
