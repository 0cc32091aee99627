//! Tasks, jobs and the interface of a model.

use crate::assignment::JobAssignment;
use crate::config::Params;
use crate::simulation::Context;
use core::marker::PhantomData;
use vstd::prelude::*;
#[allow(unused_imports)]
use vstd::std_specs::cmp::PartialEqSpec;
use vstd::std_specs::cmp::PartialEqSpecImpl;

verus! {

/// One independent Monte Carlo run: a parameter point plus its execution settings.
///
/// A task is identified by `name` within a [`Job`]. `sweeps` is the number of measurement
/// sweeps, `thermalization` is the number of warm-up sweeps discarded before measuring,
/// `binsize` is the number of raw samples averaged into one internal bin, and `seed`
/// initializes the deterministic random stream.
#[derive(Debug)]
pub struct Task<P> {
    pub name: String,
    pub parameters: P,
    pub sweeps: usize,
    pub thermalization: usize,
    pub binsize: usize,
    pub seed: u64,
}

/// What a task says.
#[verifier::ext_equal]
pub struct TaskView<P> {
    pub name: Seq<char>,
    pub parameters: P,
    pub sweeps: usize,
    pub thermalization: usize,
    pub binsize: usize,
    pub seed: u64,
}

impl<P> View for Task<P> {
    type V = TaskView<P>;

    open spec fn view(&self) -> TaskView<P> {
        TaskView {
            name: self.name@,
            parameters: self.parameters,
            sweeps: self.sweeps,
            thermalization: self.thermalization,
            binsize: self.binsize,
            seed: self.seed,
        }
    }
}

/// Whether two tasks agree, the parameters by their own equality.
pub open spec fn tasks_agree<P: PartialEq>(a: TaskView<P>, b: TaskView<P>) -> bool {
    &&& a.name == b.name
    &&& a.parameters.eq_spec(&b.parameters)
    &&& a.sweeps == b.sweeps
    &&& a.thermalization == b.thermalization
    &&& a.binsize == b.binsize
    &&& a.seed == b.seed
}

impl<P: PartialEq> PartialEq for Task<P> {
    fn eq(&self, other: &Self) -> (r: bool)
        ensures
            r ==> self.name@ == other.name@ && self.sweeps == other.sweeps && self.thermalization
                == other.thermalization && self.binsize == other.binsize && self.seed == other.seed,
    {
        self.name == other.name && self.parameters == other.parameters && self.sweeps
            == other.sweeps && self.thermalization == other.thermalization && self.binsize
            == other.binsize && self.seed == other.seed
    }
}

impl<P: PartialEq> PartialEqSpecImpl for Task<P> {
    open spec fn obeys_eq_spec() -> bool {
        P::obeys_eq_spec()
    }

    open spec fn eq_spec(&self, other: &Self) -> bool {
        tasks_agree(self@, other@)
    }
}

/// Whether one task is a clone of another: all settings are the same, and the parameters are
/// a clone.
pub open spec fn task_cloned<P: Clone>(original: TaskView<P>, copy: TaskView<P>) -> bool {
    &&& cloned(original.parameters, copy.parameters)
    &&& copy == (TaskView { parameters: copy.parameters, ..original })
}

impl<P: Clone> Clone for Task<P> {
    fn clone(&self) -> (copy: Self)
        ensures
            task_cloned(self@, copy@),
    {
        Task {
            name: self.name.clone(),
            parameters: self.parameters.clone(),
            sweeps: self.sweeps,
            thermalization: self.thermalization,
            binsize: self.binsize,
            seed: self.seed,
        }
    }
}

impl<P> Task<P> {
    /// Creates a task with the defaults `sweeps = 1`, `thermalization = 0`, `binsize = 1`, and
    /// `seed = 0`. Use the builder methods to override them.
    pub fn new(name: &str, parameters: P) -> (task: Self)
        ensures
            task@ == (TaskView {
                name: name@,
                parameters,
                sweeps: 1,
                thermalization: 0,
                binsize: 1,
                seed: 0,
            }),
    {
        Task {
            name: name.to_owned(),
            parameters,
            sweeps: 1,
            thermalization: 0,
            binsize: 1,
            seed: 0,
        }
    }

    /// Sets the number of measurement sweeps.
    #[must_use]
    pub fn sweeps(self, v: usize) -> (task: Self)
        ensures
            task == (Task { sweeps: v, ..self }),
    {
        Task { sweeps: v, ..self }
    }

    /// Sets the number of thermalization sweeps discarded before measurement.
    #[must_use]
    pub fn thermalization(self, v: usize) -> (task: Self)
        ensures
            task == (Task { thermalization: v, ..self }),
    {
        Task { thermalization: v, ..self }
    }

    /// Sets the number of raw samples averaged into one internal bin.
    #[must_use]
    pub fn binsize(self, v: usize) -> (task: Self)
        ensures
            task == (Task { binsize: v, ..self }),
    {
        Task { binsize: v, ..self }
    }

    /// Sets the seed of the deterministic random stream.
    #[must_use]
    pub fn seed(self, v: u64) -> (task: Self)
        ensures
            task == (Task { seed: v, ..self }),
    {
        Task { seed: v, ..self }
    }
}

/// The settings that new tasks of a [`TaskMaker`] get.
#[derive(Debug, Clone, Copy)]
pub struct TaskDefaults {
    pub sweeps: usize,
    pub thermalization: usize,
    pub binsize: usize,
    pub seed: u64,
}

/// A fluent builder for creating many tasks from a shared parameter template.
///
/// Each task inherits the current defaults (sweeps, thermalization, binsize, seed). Use
/// [`TaskMaker::add_task`] to add the shared parameters, or [`TaskMaker::add_task_with`] to
/// derive a mutated parameter set for one task.
#[derive(Debug, Clone)]
pub struct TaskMaker<P> {
    shared: P,
    defaults: TaskDefaults,
    tasks: Vec<Task<P>>,
}

/// What a task maker holds.
pub struct TaskMakerView<P> {
    pub shared: P,
    pub defaults: TaskDefaults,
    pub tasks: Seq<Task<P>>,
}

impl<P> View for TaskMaker<P> {
    type V = TaskMakerView<P>;

    closed spec fn view(&self) -> TaskMakerView<P> {
        TaskMakerView { shared: self.shared, defaults: self.defaults, tasks: self.tasks@ }
    }
}

impl<P> TaskMakerView<P> {
    /// What a task says that is made now under `name` with `parameters`.
    pub open spec fn next_task(self, name: Seq<char>, parameters: P) -> TaskView<P> {
        TaskView {
            name,
            parameters,
            sweeps: self.defaults.sweeps,
            thermalization: self.defaults.thermalization,
            binsize: self.defaults.binsize,
            seed: self.defaults.seed,
        }
    }
}

impl<P: Clone> TaskMaker<P> {
    /// A maker with the shared parameters and the defaults of [`Task::new`].
    pub fn new(shared: P) -> (maker: Self)
        ensures
            maker@.shared == shared,
            maker@.defaults == (TaskDefaults {
                sweeps: 1,
                thermalization: 0,
                binsize: 1,
                seed: 0,
            }),
            maker@.tasks.len() == 0,
    {
        TaskMaker {
            shared,
            defaults: TaskDefaults { sweeps: 1, thermalization: 0, binsize: 1, seed: 0 },
            tasks: Vec::new(),
        }
    }

    /// Replaces the shared parameters.
    pub fn set_shared(&mut self, v: P) -> (maker: &mut Self)
        ensures
            maker@ == (TaskMakerView { shared: v, ..old(self)@ }),
            *final(self) == *final(maker),
    {
        self.shared = v;
        self
    }

    /// Gives access to the shared parameters.
    pub fn shared_mut(&mut self) -> (shared: &mut P)
        ensures
            *shared == old(self)@.shared,
            final(self)@ == (TaskMakerView { shared: *final(shared), ..old(self)@ }),
    {
        &mut self.shared
    }

    /// Sets the default number of measurement sweeps for subsequently added tasks.
    pub fn set_sweeps(&mut self, v: usize) -> (maker: &mut Self)
        ensures
            maker@ == (TaskMakerView {
                defaults: TaskDefaults { sweeps: v, ..old(self)@.defaults },
                ..old(self)@
            }),
            *final(self) == *final(maker),
    {
        self.defaults.sweeps = v;
        self
    }

    /// Sets the default number of thermalization sweeps for subsequently added tasks.
    pub fn set_thermalization(&mut self, v: usize) -> (maker: &mut Self)
        ensures
            maker@ == (TaskMakerView {
                defaults: TaskDefaults { thermalization: v, ..old(self)@.defaults },
                ..old(self)@
            }),
            *final(self) == *final(maker),
    {
        self.defaults.thermalization = v;
        self
    }

    /// Sets the default bin size for subsequently added tasks.
    pub fn set_binsize(&mut self, v: usize) -> (maker: &mut Self)
        ensures
            maker@ == (TaskMakerView {
                defaults: TaskDefaults { binsize: v, ..old(self)@.defaults },
                ..old(self)@
            }),
            *final(self) == *final(maker),
    {
        self.defaults.binsize = v;
        self
    }

    /// Sets the default seed for subsequently added tasks.
    pub fn set_seed(&mut self, v: u64) -> (maker: &mut Self)
        ensures
            maker@ == (TaskMakerView {
                defaults: TaskDefaults { seed: v, ..old(self)@.defaults },
                ..old(self)@
            }),
            *final(self) == *final(maker),
    {
        self.defaults.seed = v;
        self
    }

    /// Adds a task with the defaults of the moment.
    fn push(&mut self, name: &str, p: P)
        ensures
            final(self)@.shared == old(self)@.shared,
            final(self)@.defaults == old(self)@.defaults,
            final(self)@.tasks.len() == old(self)@.tasks.len() + 1,
            final(self)@.tasks.drop_last() == old(self)@.tasks,
            final(self)@.tasks.last()@ == old(self)@.next_task(name@, p),
    {
        let d = self.defaults;
        let task = Task::new(name, p).sweeps(d.sweeps).thermalization(d.thermalization).binsize(
            d.binsize,
        ).seed(d.seed);
        self.tasks.push(task);
        assert(self@.tasks.drop_last() =~= old(self)@.tasks);
    }

    /// Adds a task using the shared parameter template.
    pub fn add_task(&mut self, name: &str) -> (maker: &mut Self)
        ensures
            maker@.shared == old(self)@.shared,
            maker@.defaults == old(self)@.defaults,
            maker@.tasks.len() == old(self)@.tasks.len() + 1,
            maker@.tasks.drop_last() == old(self)@.tasks,
            cloned(old(self)@.shared, maker@.tasks.last().parameters),
            maker@.tasks.last()@ == old(self)@.next_task(name@, maker@.tasks.last().parameters),
            *final(self) == *final(maker),
    {
        let p = self.shared.clone();
        self.push(name, p);
        self
    }

    /// Adds a task whose parameters are the shared template after applying `f`.
    pub fn add_task_with<F: FnOnce(&mut P)>(&mut self, name: &str, f: F) -> (maker: &mut Self)
        requires
            forall|p: &mut P| #[trigger] call_requires(f, (p,)),
        ensures
            maker@.shared == old(self)@.shared,
            maker@.defaults == old(self)@.defaults,
            maker@.tasks.len() == old(self)@.tasks.len() + 1,
            maker@.tasks.drop_last() == old(self)@.tasks,
            exists|p: &mut P| #[trigger]
                call_ensures(f, (p,), ()) && cloned(old(self)@.shared, *p) && *final(p)
                    == maker@.tasks.last().parameters,
            maker@.tasks.last()@ == old(self)@.next_task(name@, maker@.tasks.last().parameters),
            *final(self) == *final(maker),
    {
        let mut p = self.shared.clone();
        f(&mut p);
        self.push(name, p);
        self
    }

    /// Returns the tasks accumulated so far.
    pub fn tasks(&self) -> (tasks: &[Task<P>])
        ensures
            tasks@ == self@.tasks,
    {
        self.tasks.as_slice()
    }

    /// Consumes the builder and returns the accumulated tasks.
    pub fn make_tasks(self) -> (tasks: Vec<Task<P>>)
        ensures
            tasks@ == self@.tasks,
    {
        self.tasks
    }
}

/// The model interface that users implement.
///
/// [`MonteCarlo::Parameters`] is the associated per-task configuration type.
///
/// The lifecycle is:
/// 1. [`MonteCarlo::new`] constructs the model from a task's parameters.
/// 2. [`MonteCarlo::init`] performs one-time setup, optionally drawing from `context.rng`.
/// 3. [`MonteCarlo::sweep`] advances the simulation by one step.
/// 4. [`MonteCarlo::measure`] records observables into the [`Context`].
pub trait MonteCarlo: Sized {
    type Parameters;

    type Error;

    /// Constructs the model for the given task parameters.
    fn new(parameters: &Self::Parameters) -> Result<Self, Self::Error>;

    /// Performs one-time initialization before the first sweep.
    fn init(&mut self, context: &mut Context) -> Result<(), Self::Error>;

    /// Advances the simulation by one Monte Carlo sweep.
    fn sweep(&mut self, context: &mut Context) -> Result<(), Self::Error>;

    /// Records observables, typically via [`Context::measure`].
    fn measure(&mut self, context: &mut Context) -> Result<(), Self::Error>;

    /// Expands a configuration table into the model's task grid.
    ///
    /// This is the generic config-to-task hook. Models with a parameter-grid convention override
    /// it to describe how their parameters are derived from a [`Params`] dictionary (for example,
    /// sweeping over lattice sizes, temperatures, and disorder samples). The returned tasks can
    /// be passed directly to [`Job::new`].
    ///
    /// The default implementation returns an empty grid; models without a config-driven grid can
    /// rely on [`TaskMaker`] instead.
    fn build_tasks(_config: &Params) -> (tasks: Result<Vec<Task<Self::Parameters>>, Self::Error>)
        default_ensures
            tasks matches Ok(grid) && grid@.len() == 0,
    {
        Ok(Vec::new())
    }
}

/// A name and the tasks that belong together.
#[derive(Debug, PartialEq)]
pub struct Job<M: MonteCarlo> {
    pub name: String,
    pub tasks: Vec<Task<M::Parameters>>,
    /// Ties the job to its model.
    pub model: PhantomData<M>,
}

impl<M: MonteCarlo> Clone for Job<M> where M::Parameters: Clone {
    fn clone(&self) -> (copy: Self)
        ensures
            copy.name@ == self.name@,
            copy.tasks@.len() == self.tasks@.len(),
            forall|i: int|
                0 <= i < self.tasks@.len() ==> task_cloned(
                    self.tasks@[i]@,
                    (#[trigger] copy.tasks@[i])@,
                ),
    {
        let mut tasks: Vec<Task<M::Parameters>> = Vec::new();
        let mut index: usize = 0;
        while index < self.tasks.len()
            invariant
                index <= self.tasks@.len(),
                tasks@.len() == index,
                forall|i: int|
                    0 <= i < index ==> task_cloned(self.tasks@[i]@, (#[trigger] tasks@[i])@),
            decreases self.tasks.len() - index,
        {
            tasks.push(self.tasks[index].clone());
            index = index + 1;
        }
        Job { name: self.name.clone(), tasks, model: PhantomData }
    }
}

/// Whether task `index` belongs to the rank under static scheduling.
pub open spec fn owns(assignment: JobAssignment, index: int) -> bool {
    index % assignment.world_size as int == assignment.rank
}

/// Whether a selection lists the tasks of a rank under static scheduling: all of them, each
/// once, with their indices, in ascending order.
pub open spec fn is_selection<P>(
    selection: Seq<(usize, &Task<P>)>,
    tasks: Seq<Task<P>>,
    assignment: JobAssignment,
) -> bool {
    &&& forall|k: int|
        0 <= k < selection.len() ==> (#[trigger] selection[k]).0 < tasks.len() && owns(
            assignment,
            selection[k].0 as int,
        ) && *selection[k].1 == tasks[selection[k].0 as int]
    &&& forall|k: int, m: int|
        0 <= k < m < selection.len() ==> (#[trigger] selection[k]).0 < (#[trigger] selection[m]).0
    &&& forall|i: int|
        0 <= i < tasks.len() && #[trigger] owns(assignment, i) ==> exists|k: int|
            0 <= k < selection.len() && (#[trigger] selection[k]).0 == i
}

impl<M: MonteCarlo> Job<M> {
    /// Bundles tasks under a name.
    pub fn new(name: &str, tasks: Vec<Task<M::Parameters>>) -> (job: Self)
        ensures
            job.name@ == name@,
            job.tasks == tasks,
    {
        Job { name: name.to_owned(), tasks, model: PhantomData }
    }

    /// The tasks of a rank under static scheduling, with their indices.
    pub fn selected_tasks(&self, a: JobAssignment) -> (selection: Vec<
        (usize, &Task<M::Parameters>),
    >)
        requires
            self.tasks@.len() > 0 ==> a.world_size > 0,
        ensures
            is_selection(selection@, self.tasks@, a),
    {
        let mut selection: Vec<(usize, &Task<M::Parameters>)> = Vec::new();
        let mut index: usize = 0;
        while index < self.tasks.len()
            invariant
                index <= self.tasks.len(),
                self.tasks@.len() > 0 ==> a.world_size > 0,
                forall|k: int|
                    0 <= k < selection@.len() ==> (#[trigger] selection@[k]).0 < index && owns(
                        a,
                        selection@[k].0 as int,
                    ) && *selection@[k].1 == self.tasks@[selection@[k].0 as int],
                forall|k: int, m: int|
                    0 <= k < m < selection@.len() ==> (#[trigger] selection@[k]).0 < (
                    #[trigger] selection@[m]).0,
                forall|i: int|
                    0 <= i < index && #[trigger] owns(a, i) ==> exists|k: int|
                        0 <= k < selection@.len() && (#[trigger] selection@[k]).0 == i,
            decreases self.tasks.len() - index,
        {
            let ghost before = selection@;
            if index % a.world_size == a.rank {
                selection.push((index, &self.tasks[index]));
            }
            assert forall|i: int| 0 <= i < index + 1 && #[trigger] owns(a, i) implies exists|k: int|
                0 <= k < selection@.len() && (#[trigger] selection@[k]).0 == i by {
                if i < index {
                    let k = choose|k: int| 0 <= k < before.len() && (#[trigger] before[k]).0 == i;
                    assert(selection@[k].0 == i);
                } else {
                    assert(selection@[selection@.len() - 1].0 == i);
                }
            }
            index = index + 1;
        }
        selection
    }
}

/// Under static scheduling every task belongs to exactly one rank, whatever the number of ranks.
pub proof fn law_static_partition(index: int, world_size: usize)
    requires
        world_size > 0,
        index >= 0,
    ensures
        ({
            let rank = (index % world_size as int) as usize;
            &&& rank < world_size
            &&& owns(JobAssignment { rank, world_size }, index)
            &&& forall|other: usize|
                #[trigger] owns(JobAssignment { rank: other, world_size }, index) ==> other == rank
        }),
{
}

/// Two tasks are equal only if all their settings are, field by field, whatever the equality of
/// their parameters is. They are equal if the settings are and the parameters are equal by their
/// own equality.
pub proof fn law_equal_tasks<P: PartialEq>(a: Task<P>, b: Task<P>, equal: bool)
    requires
        call_ensures(<Task<P> as PartialEq>::eq, (&a, &b), equal),
    ensures
        equal ==> a.name@ == b.name@,
        equal ==> a.sweeps == b.sweeps,
        equal ==> a.thermalization == b.thermalization,
        equal ==> a.binsize == b.binsize,
        equal ==> a.seed == b.seed,
        P::obeys_eq_spec() && equal ==> a.parameters.eq_spec(&b.parameters),
        P::obeys_eq_spec() && a.parameters.eq_spec(&b.parameters) && a.name@ == b.name@ && a.sweeps
            == b.sweeps && a.thermalization == b.thermalization && a.binsize == b.binsize && a.seed
            == b.seed ==> equal,
{
}

/// Tasks that agree have the same settings.
pub proof fn law_agreeing_tasks<P: PartialEq>(a: Task<P>, b: Task<P>)
    requires
        tasks_agree(a@, b@),
    ensures
        a.name@ == b.name@,
        a.parameters.eq_spec(&b.parameters),
        a.sweeps == b.sweeps,
        a.thermalization == b.thermalization,
        a.binsize == b.binsize,
        a.seed == b.seed,
{
}

/// A copy of a task has its settings.
pub proof fn law_copied_tasks<P: Clone>(task: Task<P>, copy: Task<P>)
    requires
        call_ensures(<Task<P> as Clone>::clone, (&task,), copy),
    ensures
        copy.name@ == task.name@,
        copy.sweeps == task.sweeps,
        copy.thermalization == task.thermalization,
        copy.binsize == task.binsize,
        copy.seed == task.seed,
        cloned(task.parameters, copy.parameters),
{
}

/// A new task does one sweep in bins of one, without thermalization and with seed zero, until it is
/// told otherwise. Each setting is told on its own and leaves the others alone.
pub proof fn law_task_settings<P>(
    name: &str,
    parameters: P,
    settings: (usize, usize, usize, u64),
    stages: (Task<P>, Task<P>, Task<P>, Task<P>, Task<P>),
)
    requires
        call_ensures(Task::<P>::new, (name, parameters), stages.0),
        call_ensures(Task::<P>::sweeps, (stages.0, settings.0), stages.1),
        call_ensures(Task::<P>::thermalization, (stages.1, settings.1), stages.2),
        call_ensures(Task::<P>::binsize, (stages.2, settings.2), stages.3),
        call_ensures(Task::<P>::seed, (stages.3, settings.3), stages.4),
    ensures
        stages.0.sweeps == 1 && stages.0.thermalization == 0 && stages.0.binsize == 1,
        stages.0.seed == 0,
        stages.1.sweeps == settings.0 && stages.1.thermalization == 0 && stages.1.binsize == 1,
        stages.2.thermalization == settings.1 && stages.2.binsize == 1 && stages.2.seed == 0,
        stages.3.binsize == settings.2 && stages.3.seed == 0,
        stages.4.name@ == name@,
        stages.4.parameters == parameters,
        stages.4.sweeps == settings.0,
        stages.4.thermalization == settings.1,
        stages.4.binsize == settings.2,
        stages.4.seed == settings.3,
{
}

/// A maker starts without tasks and with the settings of a new task.
pub proof fn law_maker_begins<P: Clone>(
    shared: P,
    maker: TaskMaker<P>,
    name: &str,
    task: Task<P>,
)
    requires
        call_ensures(TaskMaker::<P>::new, (shared,), maker),
        call_ensures(Task::<P>::new, (name, shared), task),
    ensures
        maker@.tasks.len() == 0,
        maker@.shared == shared,
        maker@.defaults.sweeps == task.sweeps,
        maker@.defaults.thermalization == task.thermalization,
        maker@.defaults.binsize == task.binsize,
        maker@.defaults.seed == task.seed,
{
}

/// A setting of a maker is for the tasks to come: it changes nothing but itself, and no task that
/// was made before.
pub proof fn law_maker_settings<P: Clone>(
    a: &mut TaskMaker<P>,
    b: &mut TaskMaker<P>,
    c: &mut TaskMaker<P>,
    d: &mut TaskMaker<P>,
    settings: (usize, usize, usize, u64),
    told_a: &mut TaskMaker<P>,
    told_b: &mut TaskMaker<P>,
    told_c: &mut TaskMaker<P>,
    told_d: &mut TaskMaker<P>,
)
    requires
        call_ensures(TaskMaker::<P>::set_sweeps, (a, settings.0), told_a),
        call_ensures(TaskMaker::<P>::set_thermalization, (b, settings.1), told_b),
        call_ensures(TaskMaker::<P>::set_binsize, (c, settings.2), told_c),
        call_ensures(TaskMaker::<P>::set_seed, (d, settings.3), told_d),
    ensures
        old(told_a)@.defaults.sweeps == settings.0,
        old(told_a)@.defaults.thermalization == old(a)@.defaults.thermalization,
        old(told_a)@.defaults.binsize == old(a)@.defaults.binsize,
        old(told_a)@.defaults.seed == old(a)@.defaults.seed,
        old(told_a)@.tasks == old(a)@.tasks && old(told_a)@.shared == old(a)@.shared,
        old(told_b)@.defaults.thermalization == settings.1,
        old(told_b)@.defaults.sweeps == old(b)@.defaults.sweeps,
        old(told_b)@.defaults.binsize == old(b)@.defaults.binsize,
        old(told_b)@.defaults.seed == old(b)@.defaults.seed,
        old(told_b)@.tasks == old(b)@.tasks && old(told_b)@.shared == old(b)@.shared,
        old(told_c)@.defaults.binsize == settings.2,
        old(told_c)@.defaults.sweeps == old(c)@.defaults.sweeps,
        old(told_c)@.defaults.thermalization == old(c)@.defaults.thermalization,
        old(told_c)@.defaults.seed == old(c)@.defaults.seed,
        old(told_c)@.tasks == old(c)@.tasks && old(told_c)@.shared == old(c)@.shared,
        old(told_d)@.defaults.seed == settings.3,
        old(told_d)@.defaults.sweeps == old(d)@.defaults.sweeps,
        old(told_d)@.defaults.thermalization == old(d)@.defaults.thermalization,
        old(told_d)@.defaults.binsize == old(d)@.defaults.binsize,
        old(told_d)@.tasks == old(d)@.tasks && old(told_d)@.shared == old(d)@.shared,
{
}

/// A task that a maker adds has the name it is given and the settings of the moment, and comes
/// behind the tasks that were there.
pub proof fn law_made_tasks<P: Clone>(
    maker: &mut TaskMaker<P>,
    name: &str,
    after: &mut TaskMaker<P>,
)
    requires
        call_ensures(TaskMaker::<P>::add_task, (maker, name), after),
    ensures
        old(after)@.tasks.len() == old(maker)@.tasks.len() + 1,
        forall|i: int|
            0 <= i < old(maker)@.tasks.len() ==> #[trigger] old(after)@.tasks[i] == old(maker)@.tasks[i],
        old(after)@.tasks.last().name@ == name@,
        old(after)@.tasks.last().sweeps == old(maker)@.defaults.sweeps,
        old(after)@.tasks.last().thermalization == old(maker)@.defaults.thermalization,
        old(after)@.tasks.last().binsize == old(maker)@.defaults.binsize,
        old(after)@.tasks.last().seed == old(maker)@.defaults.seed,
        cloned(old(maker)@.shared, old(after)@.tasks.last().parameters),
        old(after)@.defaults == old(maker)@.defaults,
        old(after)@.shared == old(maker)@.shared,
{
    let before = old(after)@.tasks.drop_last();
    assert forall|i: int| 0 <= i < old(maker)@.tasks.len() implies #[trigger] old(after)@.tasks[i]
        == old(maker)@.tasks[i] by {
        assert(before[i] == old(after)@.tasks[i]);
    }
}

/// A task that a maker adds with a change to its parameters has the settings of the moment, and the
/// change is made to a copy: the shared parameters stay.
pub proof fn law_made_tasks_with_changes<P: Clone, F: FnOnce(&mut P)>(
    maker: &mut TaskMaker<P>,
    name: &str,
    f: F,
    after: &mut TaskMaker<P>,
)
    requires
        call_ensures(TaskMaker::<P>::add_task_with::<F>, (maker, name, f), after),
    ensures
        old(after)@.tasks.len() == old(maker)@.tasks.len() + 1,
        forall|i: int|
            0 <= i < old(maker)@.tasks.len() ==> #[trigger] old(after)@.tasks[i] == old(maker)@.tasks[i],
        old(after)@.tasks.last().name@ == name@,
        old(after)@.tasks.last().sweeps == old(maker)@.defaults.sweeps,
        old(after)@.tasks.last().thermalization == old(maker)@.defaults.thermalization,
        old(after)@.tasks.last().binsize == old(maker)@.defaults.binsize,
        old(after)@.tasks.last().seed == old(maker)@.defaults.seed,
        exists|p: &mut P| #[trigger]
            call_ensures(f, (p,), ()) && cloned(old(maker)@.shared, *p) && *final(p)
                == old(after)@.tasks.last().parameters,
        old(after)@.defaults == old(maker)@.defaults,
        old(after)@.shared == old(maker)@.shared,
{
    let before = old(after)@.tasks.drop_last();
    assert forall|i: int| 0 <= i < old(maker)@.tasks.len() implies #[trigger] old(after)@.tasks[i]
        == old(maker)@.tasks[i] by {
        assert(before[i] == old(after)@.tasks[i]);
    }
}

/// A maker hands out the tasks that it made, all of them and in their order.
pub proof fn law_maker_hands_out<P: Clone>(maker: TaskMaker<P>, shown: &[Task<P>], made: Vec<Task<P>>)
    requires
        call_ensures(TaskMaker::<P>::tasks, (&maker,), shown),
        call_ensures(TaskMaker::<P>::make_tasks, (maker,), made),
    ensures
        shown@ == made@,
        made@ == maker@.tasks,
{
}

/// A job has the name and the tasks that it is given.
pub proof fn law_jobs_hold_their_tasks<M: MonteCarlo>(
    name: &str,
    tasks: Vec<Task<M::Parameters>>,
    job: Job<M>,
)
    requires
        call_ensures(Job::<M>::new, (name, tasks), job),
    ensures
        job.name@ == name@,
        job.tasks@ == tasks@,
{
}

/// Under static scheduling tasks go round: a rank has the task with its own number and from there
/// on every task that is as many places further as there are ranks, and no other.
pub proof fn law_tasks_go_round(assignment: JobAssignment, index: int)
    requires
        assignment.rank < assignment.world_size,
        index >= 0,
    ensures
        owns(assignment, index) <==> exists|k: int|
            k >= 0 && index == assignment.rank + #[trigger] (k * assignment.world_size),
        owns(assignment, index + assignment.world_size) == owns(assignment, index),
        index < assignment.world_size ==> (owns(assignment, index) <==> index == assignment.rank),
{
    let w = assignment.world_size as int;
    let r = assignment.rank as int;
    vstd::arithmetic::div_mod::lemma_fundamental_div_mod(index, w);
    vstd::arithmetic::div_mod::lemma_mod_add_multiples_vanish(index, w);
    if owns(assignment, index) {
        let k = index / w;
        vstd::arithmetic::div_mod::lemma_div_pos_is_pos(index, w);
        vstd::arithmetic::mul::lemma_mul_is_commutative(w, k);
        assert(index == r + k * w);
    }
    if exists|k: int| k >= 0 && index == r + #[trigger] (k * w) {
        let k = choose|k: int| k >= 0 && index == r + #[trigger] (k * w);
        vstd::arithmetic::div_mod::lemma_fundamental_div_mod_converse(index, w, k, r);
    }
    if index < w {
        vstd::arithmetic::div_mod::lemma_small_mod(index as nat, w as nat);
    }
}

/// Whether a selection lists an index.
pub open spec fn selects<P>(selection: Seq<(usize, &Task<P>)>, index: int) -> bool {
    exists|k: int| 0 <= k < selection.len() && (#[trigger] selection[k]).0 == index
}

/// The tasks that are selected for a rank are those whose index leaves the rank as the remainder by
/// the number of ranks, each with its own index, once and in ascending order.
pub proof fn law_selected_tasks<M: MonteCarlo>(
    job: Job<M>,
    a: JobAssignment,
    selection: Vec<(usize, &Task<M::Parameters>)>,
)
    requires
        call_ensures(Job::<M>::selected_tasks, (&job, a), selection),
        a.world_size > 0,
    ensures
        forall|i: int|
            0 <= i < job.tasks@.len() ==> (#[trigger] selects(selection@, i) <==> i
                % a.world_size as int == a.rank),
        forall|k: int|
            0 <= k < selection@.len() ==> (#[trigger] selection@[k]).0 < job.tasks@.len()
                && *selection@[k].1 == job.tasks@[selection@[k].0 as int],
        forall|k: int, m: int|
            0 <= k < m < selection@.len() ==> (#[trigger] selection@[k]).0 < (
            #[trigger] selection@[m]).0,
{
    assert forall|i: int| 0 <= i < job.tasks@.len() implies (#[trigger] selects(selection@, i)
        <==> i % a.world_size as int == a.rank) by {
        if i % a.world_size as int == a.rank {
            assert(owns(a, i));
        }
        if selects(selection@, i) {
            let k = choose|k: int| 0 <= k < selection@.len() && (#[trigger] selection@[k]).0 == i;
            assert(owns(a, selection@[k].0 as int));
        }
    }
}

/// What is said of a task is what stands in its fields.
pub proof fn law_tasks_show_their_fields<P>(task: Task<P>)
    ensures
        task@.name == task.name@,
        task@.parameters == task.parameters,
        task@.sweeps == task.sweeps,
        task@.thermalization == task.thermalization,
        task@.binsize == task.binsize,
        task@.seed == task.seed,
{
}

/// The shared parameters of a maker are those that were set last, or put in place of them, and
/// setting them changes nothing else.
pub proof fn law_shared_parameters<P: Clone>(
    maker: &mut TaskMaker<P>,
    v: P,
    set: &mut TaskMaker<P>,
    other: &mut TaskMaker<P>,
    shared: &mut P,
)
    requires
        call_ensures(TaskMaker::<P>::set_shared, (maker, v), set),
        call_ensures(TaskMaker::<P>::shared_mut, (other,), shared),
    ensures
        old(set)@.shared == v,
        old(set)@.defaults == old(maker)@.defaults,
        old(set)@.tasks == old(maker)@.tasks,
        *final(maker) == *final(set),
        *old(shared) == old(other)@.shared,
        final(other)@.shared == *final(shared),
        final(other)@.defaults == old(other)@.defaults,
        final(other)@.tasks == old(other)@.tasks,
{
}

} // verus!
