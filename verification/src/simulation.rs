//! Accumulators and the context that a model works in.

use crate::catalog::{Catalog, Duplicate};
#[allow(unused_imports)]
use crate::catalog::{ascending, has_name, lemma_ascending_distinct, lemma_value_of, value_of};
use crate::error::GenericJobError;
#[allow(unused_imports)]
use crate::faults::{first_fault, lemma_no_fault};
use crate::number::Real;
use crate::rng::DeterministicRng;
use vstd::prelude::*;

verus! {

/// Accumulates raw samples for one observable until they form completed internal bins.
///
/// `internal_bins` holds the completed bin averages, `pending_sum`/`pending_count` track the
/// partially filled bin, `total_count` is the number of samples accepted so far, and `binsize`
/// is the fixed number of samples per internal bin.
#[derive(Debug, Clone, PartialEq)]
pub struct CompactAccumulator {
    pub internal_bins: Vec<Real>,
    pub pending_sum: Real,
    pub pending_count: usize,
    pub total_count: usize,
    pub binsize: usize,
}

/// What an accumulator holds.
#[verifier::ext_equal]
pub struct AccumulatorView {
    pub internal_bins: Seq<Real>,
    pub pending_sum: Real,
    pub pending_count: usize,
    pub total_count: usize,
    pub binsize: usize,
}

impl View for CompactAccumulator {
    type V = AccumulatorView;

    open spec fn view(&self) -> AccumulatorView {
        AccumulatorView {
            internal_bins: self.internal_bins@,
            pending_sum: self.pending_sum,
            pending_count: self.pending_count,
            total_count: self.total_count,
            binsize: self.binsize,
        }
    }
}

impl Duplicate for CompactAccumulator {
    fn duplicate(&self) -> (copy: Self) {
        CompactAccumulator {
            internal_bins: self.internal_bins.clone(),
            pending_sum: self.pending_sum,
            pending_count: self.pending_count,
            total_count: self.total_count,
            binsize: self.binsize,
        }
    }
}

/// One sample of an observable, with the arithmetic that its accumulator needs: `sum` is the
/// pending sum of the observable plus `value`, and `average` is `sum` over the bin size.
#[derive(Debug, Clone, Copy)]
pub struct Sample {
    pub value: Real,
    pub sum: Real,
    pub average: Real,
}

impl AccumulatorView {
    /// An accumulator before its first sample.
    pub open spec fn fresh(binsize: usize) -> AccumulatorView {
        AccumulatorView {
            internal_bins: Seq::empty(),
            pending_sum: Real { bits: 0 },
            pending_count: 0,
            total_count: 0,
            binsize,
        }
    }

    /// The accumulator after one more sample: the sample joins the pending bin, and a bin that
    /// is full leaves its average behind.
    pub open spec fn after(self, sample: Sample) -> AccumulatorView {
        if self.pending_count + 1 == self.binsize {
            AccumulatorView {
                internal_bins: self.internal_bins.push(sample.average),
                pending_sum: Real { bits: 0 },
                pending_count: 0,
                total_count: (self.total_count + 1) as usize,
                binsize: self.binsize,
            }
        } else {
            AccumulatorView {
                pending_sum: sample.sum,
                pending_count: (self.pending_count + 1) as usize,
                total_count: (self.total_count + 1) as usize,
                ..self
            }
        }
    }

    /// How many samples the completed bins and the pending bin stand for.
    pub open spec fn samples(self) -> nat {
        (self.internal_bins.len() * self.binsize + self.pending_count) as nat
    }

    /// Whether all bins are finite numbers.
    pub open spec fn bins_are_finite(self) -> bool {
        forall|i: int| 0 <= i < self.internal_bins.len() ==> (#[trigger] self.internal_bins[i]).finite()
    }

    /// Whether the parts of an accumulator fit together.
    pub open spec fn consistent(self) -> bool {
        &&& self.binsize > 0
        &&& self.pending_count < self.binsize
        &&& self.pending_count == 0 ==> self.pending_sum.zero()
        &&& self.pending_sum.finite()
        &&& self.bins_are_finite()
        &&& self.samples() == self.total_count
    }
}

/// A consistent accumulator stays consistent with every sample, and counts it.
pub proof fn law_sample_keeps_accumulator(a: AccumulatorView, sample: Sample)
    requires
        a.consistent(),
        a.total_count < usize::MAX,
        sample.sum.finite(),
        sample.average.finite(),
    ensures
        a.after(sample).consistent(),
        a.after(sample).total_count == a.total_count + 1,
        a.after(sample).binsize == a.binsize,
{
    let b = a.after(sample);
    if a.pending_count + 1 == a.binsize {
        assert(b.internal_bins.len() == a.internal_bins.len() + 1);
        vstd::arithmetic::mul::lemma_mul_is_distributive_add_other_way(
            a.binsize as int,
            a.internal_bins.len() as int,
            1,
        );
        assert forall|i: int| 0 <= i < b.internal_bins.len() implies (
        #[trigger] b.internal_bins[i]).finite() by {
            if i < a.internal_bins.len() {
                assert(a.internal_bins[i].finite());
            }
        }
    }
}

/// An accumulator before its first sample is consistent.
pub proof fn law_fresh_accumulator(binsize: usize)
    requires
        binsize > 0,
    ensures
        AccumulatorView::fresh(binsize).consistent(),
{
}

/// The execution context passed to every model callback.
///
/// It owns the task's deterministic random stream (`context.rng`) and the observable
/// accumulators. Models draw random numbers from `context.rng` and record observables with
/// [`Context::measure`] or [`Context::measure_with_binsize`].
#[derive(Debug)]
pub struct Context {
    /// The deterministic random stream of a task.
    pub rng: DeterministicRng,
    /// Whether thermalization is over.
    pub thermalized: bool,
    /// The bin size of the task.
    pub binsize: usize,
    /// The accumulators of the observables.
    pub observables: Catalog<CompactAccumulator>,
}

/// What a context holds.
#[verifier::ext_equal]
pub struct ContextView {
    pub rng: DeterministicRng,
    pub thermalized: bool,
    pub binsize: usize,
    pub observables: Seq<(Seq<char>, AccumulatorView)>,
}

impl View for Context {
    type V = ContextView;

    open spec fn view(&self) -> ContextView {
        ContextView {
            rng: self.rng,
            thermalized: self.thermalized,
            binsize: self.binsize,
            observables: self.observables@,
        }
    }
}

impl ContextView {
    /// The accumulator of an observable, fresh where there is none yet.
    pub open spec fn accumulator(self, name: Seq<char>, binsize: usize) -> AccumulatorView {
        if has_name(self.observables, name) {
            value_of(self.observables, name)
        } else {
            AccumulatorView::fresh(binsize)
        }
    }
}

/// Why a sample is refused, if it is.
pub open spec fn sample_fault(
    context: ContextView,
    name: Seq<char>,
    sample: Sample,
    binsize: usize,
) -> Option<Seq<char>> {
    if name.len() == 0 || !sample.value.finite() || binsize == 0 {
        Some("name/value/bin size invalid"@)
    } else if context.accumulator(name, binsize).binsize != binsize {
        Some("bin size changed"@)
    } else if !sample.sum.finite() {
        Some("observable accumulation overflowed"@)
    } else {
        None
    }
}

/// Whether `after` is `before` with the accumulator of `name` replaced.
pub open spec fn observable_replaced(
    before: Seq<(Seq<char>, AccumulatorView)>,
    after: Seq<(Seq<char>, AccumulatorView)>,
    name: Seq<char>,
    accumulator: AccumulatorView,
) -> bool {
    &&& ascending(after)
    &&& has_name(after, name)
    &&& value_of(after, name) == accumulator
    &&& forall|e: (Seq<char>, AccumulatorView)| #[trigger]
        after.contains(e) <==> e == (name, accumulator) || before.contains(e) && e.0 != name
}

impl Context {
    /// A context at the start of a task.
    pub fn fresh(seed: u64, binsize: usize) -> (context: Self)
        ensures
            context@ == (ContextView {
                rng: DeterministicRng { seed, draws: 0 },
                thermalized: false,
                binsize,
                observables: Seq::empty(),
            }),
    {
        Context {
            rng: DeterministicRng::seed_from_u64(seed),
            thermalized: false,
            binsize,
            observables: Catalog::new(),
        }
    }

    /// A context in the middle of a task.
    pub fn restored(
        seed: u64,
        pos: u128,
        binsize: usize,
        o: Catalog<CompactAccumulator>,
        t: bool,
    ) -> (context: Self)
        ensures
            context@ == (ContextView {
                rng: DeterministicRng { seed, draws: pos },
                thermalized: t,
                binsize,
                observables: o@,
            }),
    {
        let mut rng = DeterministicRng::seed_from_u64(seed);
        rng.set_position(pos);
        Context { rng, thermalized: t, binsize, observables: o }
    }

    /// Whether the configured number of thermalization sweeps has completed.
    pub fn is_thermalized(&self) -> (thermalized: bool)
        ensures
            thermalized == self@.thermalized,
    {
        self.thermalized
    }

    /// The position of the random stream.
    pub fn rng_position(&self) -> (position: u128)
        ensures
            position == self@.rng.draws,
    {
        self.rng.position()
    }

    /// The sum of the samples in the pending bin of an observable, zero where there is none.
    /// A caller adds its value to this for the next [`Sample`].
    pub fn pending_sum(&self, name: &str) -> (sum: Real)
        ensures
            sum == self@.accumulator(name@, 1).pending_sum,
    {
        match self.observables.get(name) {
            Some(accumulator) => accumulator.pending_sum,
            None => Real::nought(),
        }
    }

    /// The bin size that [`Context::measure`] uses.
    pub fn default_binsize(&self) -> (binsize: usize)
        ensures
            binsize == self@.binsize,
    {
        self.binsize
    }

    /// Records one scalar sample for `n` using the task's default bin size.
    ///
    /// Samples are accumulated into internal bins; a completed internal bin contributes one
    /// averaged value to the final estimate. The observable name must be non-empty and the
    /// value finite.
    pub fn measure(&mut self, n: &str, sample: Sample) -> (recorded: Result<(), GenericJobError>)
        requires
            has_name(old(self)@.observables, n@) ==> value_of(
                old(self)@.observables,
                n@,
            ).total_count < usize::MAX && value_of(old(self)@.observables, n@).pending_count
                < usize::MAX,
        ensures
            measured(
                old(self)@,
                final(self)@,
                n@,
                sample,
                old(self)@.binsize,
                recorded,
            ),
    {
        let binsize: usize = self.binsize;
        self.measure_with_binsize(n, sample, binsize)
    }

    /// Records one scalar sample for `n` using an explicit bin size.
    ///
    /// The bin size is fixed on first use for a given observable name; calling this again with a
    /// different bin size for the same name is an error. A sample that is refused leaves the
    /// context as it was.
    pub fn measure_with_binsize(&mut self, n: &str, sample: Sample, b: usize) -> (recorded: Result<
        (),
        GenericJobError,
    >)
        requires
            has_name(old(self)@.observables, n@) ==> value_of(
                old(self)@.observables,
                n@,
            ).total_count < usize::MAX && value_of(old(self)@.observables, n@).pending_count
                < usize::MAX,
        ensures
            measured(old(self)@, final(self)@, n@, sample, b, recorded),
    {
        if n.is_empty() || !sample.value.is_finite() || b == 0 {
            return Err(
                GenericJobError::InvalidMeasurement {
                    observable: n.to_owned(),
                    reason: "name/value/bin size invalid",
                },
            );
        }
        let known: usize = match self.observables.get(n) {
            Some(accumulator) => accumulator.binsize,
            None => b,
        };
        if known != b {
            return Err(
                GenericJobError::InvalidMeasurement {
                    observable: n.to_owned(),
                    reason: "bin size changed",
                },
            );
        }
        if !sample.sum.is_finite() {
            return Err(
                GenericJobError::InvalidMeasurement {
                    observable: n.to_owned(),
                    reason: "observable accumulation overflowed",
                },
            );
        }
        let ghost before = self@.observables;
        let ghost start = self@.accumulator(n@, b);
        let mut a = match self.observables.remove(n) {
            Some(accumulator) => accumulator,
            None => CompactAccumulator {
                internal_bins: Vec::new(),
                pending_sum: Real::nought(),
                pending_count: 0,
                total_count: 0,
                binsize: b,
            },
        };
        let ghost between = self.observables@;
        assert(a@ =~= start);
        a.pending_sum = sample.sum;
        a.pending_count = a.pending_count + 1;
        a.total_count = a.total_count + 1;
        if a.pending_count == b {
            a.internal_bins.push(sample.average);
            a.pending_sum = Real::nought();
            a.pending_count = 0;
        }
        assert(a@ =~= start.after(sample));
        let ghost accumulator = a@;
        let _ = self.observables.insert(n.to_owned(), a);
        assert forall|e: (Seq<char>, AccumulatorView)| #[trigger]
            self.observables@.contains(e) <==> e == (n@, accumulator) || before.contains(e) && e.0
                != n@ by {
            assert(between.contains(e) <==> before.contains(e) && e.0 != n@);
        }
        Ok(())
    }

    /// Returns the completed internal bins recorded for `name`, if any.
    ///
    /// These are the raw bin averages before rebinning; they are useful for models that want to
    /// export or post-process samples themselves (for example, to compute jackknife errors over
    /// nonlinear observables).
    pub fn raw_bins(&self, name: &str) -> (bins: Option<&[Real]>)
        ensures
            bins is Some <==> has_name(self@.observables, name@),
            bins matches Some(b) ==> b@ == value_of(self@.observables, name@).internal_bins,
    {
        match self.observables.get(name) {
            Some(accumulator) => Some(accumulator.internal_bins.as_slice()),
            None => None,
        }
    }

    /// Returns the fixed bin size (samples per internal bin) for `name`, if any.
    pub fn bin_length(&self, name: &str) -> (length: Option<usize>)
        ensures
            length == if has_name(self@.observables, name@) {
                Some(value_of(self@.observables, name@).binsize)
            } else {
                None
            },
    {
        match self.observables.get(name) {
            Some(accumulator) => Some(accumulator.binsize),
            None => None,
        }
    }

    /// All measured observables and their accumulators, in ascending order of the names.
    pub fn observables(&self) -> (observables: &Catalog<CompactAccumulator>)
        ensures
            observables@ == self@.observables,
            ascending(observables@),
    {
        proof {
            use_type_invariant(&self.observables);
        }
        &self.observables
    }
}

/// What recording a sample does: a refused sample changes nothing and says why, an accepted one
/// replaces the accumulator of its observable and nothing else.
pub open spec fn measured(
    before: ContextView,
    after: ContextView,
    name: Seq<char>,
    sample: Sample,
    binsize: usize,
    recorded: Result<(), GenericJobError>,
) -> bool {
    match sample_fault(before, name, sample, binsize) {
        Some(fault) => {
            &&& after == before
            &&& recorded matches Err(
                GenericJobError::InvalidMeasurement { observable, reason },
            ) && observable@ == name && reason@ == fault
        },
        None => {
            &&& recorded is Ok
            &&& after.rng == before.rng
            &&& after.thermalized == before.thermalized
            &&& after.binsize == before.binsize
            &&& observable_replaced(
                before.observables,
                after.observables,
                name,
                before.accumulator(name, binsize).after(sample),
            )
        },
    }
}

/// Whether the observables of a context fit together and none has more than `limit` samples.
pub open spec fn observables_consistent(
    observables: Seq<(Seq<char>, AccumulatorView)>,
    limit: nat,
) -> bool {
    forall|i: int|
        0 <= i < observables.len() ==> (#[trigger] observables[i]).0.len() > 0
            && observables[i].1.consistent() && observables[i].1.total_count <= limit
}

/// Observables are consistent exactly if none has a fault, where an observable has no fault exactly
/// if it has a name, fits together and has no more than `limit` samples.
pub proof fn lemma_faultless_observables<F>(
    observables: Seq<(Seq<char>, AccumulatorView)>,
    faults: Seq<Option<F>>,
    limit: nat,
)
    requires
        faults.len() == observables.len(),
        forall|i: int|
            0 <= i < faults.len() ==> (#[trigger] faults[i] is None <==> (observables[i].0.len() > 0
                && observables[i].1.consistent() && observables[i].1.total_count <= limit)),
    ensures
        first_fault(faults) is None <==> observables_consistent(observables, limit),
{
    lemma_no_fault(faults);
    if first_fault(faults) is None {
        assert forall|i: int| 0 <= i < observables.len() implies (
        #[trigger] observables[i]).0.len() > 0 && observables[i].1.consistent()
            && observables[i].1.total_count <= limit by {
            assert(faults[i] is None);
        }
    } else if observables_consistent(observables, limit) {
        assert forall|i: int| 0 <= i < faults.len() implies #[trigger] faults[i] is None by {
            assert(observables[i].1.consistent());
        }
    }
}

/// Recording a sample keeps the observables of a context consistent, whether it is accepted or
/// refused. An accepted sample raises the number of samples of its observable by one and leaves the
/// bins that were complete in front of the new ones; all other observables stay as they were. A
/// refused sample changes nothing. The average that comes with a finite sum must be finite, as the
/// quotient of a finite number and a bin size is.
pub proof fn law_measure_keeps_observables(
    before: ContextView,
    after: ContextView,
    name: Seq<char>,
    sample: Sample,
    binsize: usize,
    recorded: Result<(), GenericJobError>,
    limit: nat,
)
    requires
        observables_consistent(before.observables, limit),
        ascending(before.observables),
        limit < usize::MAX,
        sample.sum.finite() ==> sample.average.finite(),
        measured(before, after, name, sample, binsize, recorded),
    ensures
        observables_consistent(after.observables, limit + 1),
        forall|i: int|
            0 <= i < after.observables.len() && (#[trigger] after.observables[i]).0 != name
                ==> after.observables[i].1.total_count <= limit,
        recorded is Err ==> after == before,
        recorded is Ok ==> ({
            let old_one = before.accumulator(name, binsize);
            let new_one = after.accumulator(name, binsize);
            &&& has_name(after.observables, name)
            &&& new_one.binsize == binsize
            &&& new_one.total_count == old_one.total_count + 1
            &&& old_one.internal_bins.is_prefix_of(new_one.internal_bins)
            &&& forall|e: (Seq<char>, AccumulatorView)|
                e.0 != name ==> (#[trigger] after.observables.contains(e)
                    <==> before.observables.contains(e))
        }),
{
    let a = before.accumulator(name, binsize);
    lemma_ascending_distinct(before.observables);
    if sample_fault(before, name, sample, binsize) is None {
        if has_name(before.observables, name) {
            let k = choose|k: int|
                0 <= k < before.observables.len() && #[trigger] before.observables[k].0 == name;
            lemma_value_of(before.observables, k);
        }
        law_sample_keeps_accumulator(a, sample);
        assert forall|i: int| 0 <= i < after.observables.len() implies (
        #[trigger] after.observables[i]).0.len() > 0 && after.observables[i].1.consistent()
            && after.observables[i].1.total_count <= limit + 1 && (after.observables[i].0 != name
            ==> after.observables[i].1.total_count <= limit) by {
            let e = after.observables[i];
            assert(after.observables.contains(e));
            if e != (name, a.after(sample)) {
                assert(before.observables.contains(e));
                let k = choose|k: int| 0 <= k < before.observables.len() && before.observables[k]
                    == e;
                assert(before.observables[k].1.consistent());
            }
        }
    }
}

/// A sample is refused exactly if its observable has no name, its value is not finite, its bin size
/// is zero or another one than the observable has, or the sum of its bin is not finite. The reason
/// is told in this order, and a refused sample changes nothing.
pub proof fn law_refused_samples(
    context: &mut Context,
    name: &str,
    sample: Sample,
    binsize: usize,
    recorded: Result<(), GenericJobError>,
)
    requires
        call_ensures(Context::measure_with_binsize, (context, name, sample, binsize), recorded),
    ensures
        ({
            let observables = old(context)@.observables;
            let known = has_name(observables, name@);
            let changed = known && value_of(observables, name@).binsize != binsize;
            let invalid = name@.len() == 0 || !sample.value.finite() || binsize == 0;
            &&& recorded is Err <==> invalid || changed || !sample.sum.finite()
            &&& recorded is Err ==> final(context)@ == old(context)@
            &&& recorded matches Err(e) ==> (e matches GenericJobError::InvalidMeasurement {
                observable,
                reason,
            } && observable@ == name@ && reason@ == if invalid {
                "name/value/bin size invalid"@
            } else if changed {
                "bin size changed"@
            } else {
                "observable accumulation overflowed"@
            })
        }),
{
}

/// A sample that is taken in adds to its own observable and to nothing else: it counts one more, and
/// either the pending bin has one more sample and the new sum, or it is full, and then its average
/// stands behind the completed bins and an empty bin is pending. An observable that is new begins
/// with an empty bin of the given size.
pub proof fn law_accepted_samples(
    context: &mut Context,
    name: &str,
    sample: Sample,
    binsize: usize,
    recorded: Result<(), GenericJobError>,
)
    requires
        call_ensures(Context::measure_with_binsize, (context, name, sample, binsize), recorded),
        recorded is Ok,
        has_name(old(context)@.observables, name@) ==> value_of(
            old(context)@.observables,
            name@,
        ).total_count < usize::MAX && value_of(old(context)@.observables, name@).pending_count
            < usize::MAX,
    ensures
        ({
            let before = old(context)@.observables;
            let known = has_name(before, name@);
            let o = value_of(before, name@);
            let n = value_of(final(context)@.observables, name@);
            let pending = if known {
                o.pending_count as int
            } else {
                0
            };
            let bins = if known {
                o.internal_bins
            } else {
                Seq::<Real>::empty()
            };
            &&& has_name(final(context)@.observables, name@)
            &&& n.binsize == binsize
            &&& n.total_count == if known {
                o.total_count + 1
            } else {
                1
            }
            &&& pending + 1 != binsize ==> n.pending_count == pending + 1 && n.pending_sum.bits
                == sample.sum.bits && n.internal_bins == bins
            &&& pending + 1 == binsize ==> n.pending_count == 0 && n.pending_sum.bits == 0
                && n.internal_bins == bins.push(sample.average)
        }),
        forall|e: (Seq<char>, AccumulatorView)|
            e.0 != name@ ==> (#[trigger] final(context)@.observables.contains(e) <==> old(
                context,
            )@.observables.contains(e)),
        final(context)@.rng == old(context)@.rng,
        final(context)@.thermalized == old(context)@.thermalized,
        final(context)@.binsize == old(context)@.binsize,
{
}

/// A sample without a bin size of its own goes into bins of the size that the task has.
pub proof fn law_default_bin_size(
    a: &mut Context,
    b: &mut Context,
    name: &str,
    sample: Sample,
    binsize: usize,
    x: Result<(), GenericJobError>,
    y: Result<(), GenericJobError>,
)
    requires
        old(a)@ == old(b)@,
        call_ensures(Context::default_binsize, (&*old(a),), binsize),
        call_ensures(Context::measure, (a, name, sample), x),
        call_ensures(Context::measure_with_binsize, (b, name, sample, binsize), y),
    ensures
        binsize == old(a)@.binsize,
        x is Ok <==> y is Ok,
        x is Ok ==> value_of(final(a)@.observables, name@) == value_of(
            final(b)@.observables,
            name@,
        ),
        x is Ok ==> forall|e: (Seq<char>, AccumulatorView)|
            #[trigger] final(a)@.observables.contains(e) <==> final(b)@.observables.contains(e),
        x is Err ==> final(a)@ == old(a)@ && final(b)@ == old(b)@,
{
}

/// A context starts with the seed and the bin size that it is given, at the first position of its
/// stream, not thermalized and without observables. A context in the middle of a task has what it is
/// given.
pub proof fn law_contexts_begin(
    seed: u64,
    binsize: usize,
    fresh: Context,
    position: u128,
    observables: Catalog<CompactAccumulator>,
    thermalized: bool,
    restored: Context,
)
    requires
        call_ensures(Context::fresh, (seed, binsize), fresh),
        call_ensures(
            Context::restored,
            (seed, position, binsize, observables, thermalized),
            restored,
        ),
    ensures
        fresh@.rng.seed == seed && fresh@.rng.draws == 0,
        fresh@.binsize == binsize && !fresh@.thermalized && fresh@.observables.len() == 0,
        restored@.rng.seed == seed && restored@.rng.draws == position,
        restored@.binsize == binsize && restored@.thermalized == thermalized,
        restored@.observables == observables@,
{
}

/// What a context tells of itself and of an observable is what it holds: nothing of an observable
/// that was not measured, for which the pending sum is zero.
pub proof fn law_contexts_tell(
    context: Context,
    name: &str,
    thermalized: bool,
    position: u128,
    sum: Real,
    bins: Option<&[Real]>,
    length: Option<usize>,
)
    requires
        call_ensures(Context::is_thermalized, (&context,), thermalized),
        call_ensures(Context::rng_position, (&context,), position),
        call_ensures(Context::pending_sum, (&context, name), sum),
        call_ensures(Context::raw_bins, (&context, name), bins),
        call_ensures(Context::bin_length, (&context, name), length),
    ensures
        thermalized == context@.thermalized,
        position == context@.rng.draws,
        !has_name(context@.observables, name@) ==> sum.bits == 0 && bins is None && length is None,
        has_name(context@.observables, name@) ==> ({
            let a = value_of(context@.observables, name@);
            &&& sum.bits == a.pending_sum.bits
            &&& bins is Some && bins->0@ == a.internal_bins
            &&& length == Some(a.binsize)
        }),
{
}

/// What is said of an accumulator and of a context is what stands in their fields.
pub proof fn law_contexts_show_their_fields(accumulator: CompactAccumulator, context: Context)
    ensures
        accumulator@.internal_bins == accumulator.internal_bins@,
        accumulator@.pending_sum == accumulator.pending_sum,
        accumulator@.pending_count == accumulator.pending_count,
        accumulator@.total_count == accumulator.total_count,
        accumulator@.binsize == accumulator.binsize,
        context@.rng == context.rng,
        context@.thermalized == context.thermalized,
        context@.binsize == context.binsize,
        context@.observables == context.observables@,
{
}

/// Observables are handed out as they are, and copies of accumulators hold what they hold.
pub proof fn law_observables_are_handed_out(
    context: Context,
    observables: &Catalog<CompactAccumulator>,
    accumulator: CompactAccumulator,
    copy: CompactAccumulator,
)
    requires
        call_ensures(Context::observables, (&context,), observables),
        call_ensures(<CompactAccumulator as Duplicate>::duplicate, (&accumulator,), copy),
    ensures
        observables@ == context.observables@,
        copy.internal_bins@ == accumulator.internal_bins@,
        copy.pending_sum == accumulator.pending_sum,
        copy.pending_count == accumulator.pending_count,
        copy.total_count == accumulator.total_count,
        copy.binsize == accumulator.binsize,
{
    assert(copy@ == accumulator@);
    assert(copy@.internal_bins == copy.internal_bins@);
}

} // verus!
