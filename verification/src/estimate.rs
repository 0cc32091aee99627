//! Statistical estimation: binning plans, and the estimates that carry what was computed.
//!
//! The plans say which values are averaged and how many averages there are. Averages, standard
//! errors and derived values are floating-point work of the caller.

use crate::catalog::{Catalog, Duplicate};
#[allow(unused_imports)]
use crate::catalog::{ascending, has_name, lemma_ascending_distinct, value_of};
use crate::number::Real;
use crate::text::texts;
use vstd::prelude::*;
use vstd::std_specs::convert::FromSpecImpl;

verus! {

/// The third power of a number.
pub open spec fn cube(n: int) -> int {
    n * n * n
}

/// Whether `root` is the cube root of `x`, rounded to the nearest whole number. There is never a
/// tie, because no half-integer has a whole number as its cube.
pub open spec fn is_rounded_root(x: int, root: int) -> bool {
    root >= 0 && cube(2 * root - 1) <= 8 * x < cube(2 * root + 1)
}

/// The cube root of `x`, rounded to the nearest whole number.
pub open spec fn rounded_root(x: int) -> int {
    choose|root: int| is_rounded_root(x, root)
}

proof fn lemma_cube_monotone(a: int, b: int)
    requires
        0 <= a <= b,
    ensures
        cube(a) <= cube(b),
{
    assert(a * a <= b * b) by (nonlinear_arith)
        requires
            0 <= a <= b,
    ;
    assert(a * a * a <= b * b * b) by (nonlinear_arith)
        requires
            0 <= a <= b,
            0 <= a * a <= b * b,
    ;
}

/// There is one rounded cube root.
pub proof fn lemma_rounded_root_unique(x: int, a: int, b: int)
    requires
        is_rounded_root(x, a),
        is_rounded_root(x, b),
    ensures
        a == b,
{
    if a < b {
        lemma_cube_monotone(2 * a + 1, 2 * b - 1);
    }
    if b < a {
        lemma_cube_monotone(2 * b + 1, 2 * a - 1);
    }
}

/// The third power of the odd number behind `2 * root`.
fn cube_of_odd(root: u64) -> (value: u128)
    requires
        root <= 2_700_000,
    ensures
        value == cube(2 * root + 1),
{
    let odd: u128 = 2 * (root as u128) + 1;
    assert(odd * odd <= 5_400_001 * 5_400_001) by (nonlinear_arith)
        requires
            odd <= 5_400_001,
    ;
    assert(odd * odd * odd <= 5_400_001 * 5_400_001 * 5_400_001) by (nonlinear_arith)
        requires
            odd <= 5_400_001,
            odd * odd <= 5_400_001 * 5_400_001,
    ;
    odd * odd * odd
}

/// Rounds the cube root of a number to the nearest whole number.
fn round_root(x: u64) -> (root: u64)
    ensures
        root == rounded_root(x as int),
        root <= 2_700_000,
{
    let target: u128 = 8 * (x as u128);
    let mut low: u64 = 0;
    let mut high: u64 = 2_700_000;
    assert(cube(5_400_001) > 8 * 0xFFFF_FFFF_FFFF_FFFF);
    while low < high
        invariant
            low <= high <= 2_700_000,
            target == 8 * x,
            low > 0 ==> cube(2 * low - 1) <= target,
            target < cube(2 * high + 1),
        decreases high - low,
    {
        let middle: u64 = low + (high - low) / 2;
        if target < cube_of_odd(middle) {
            high = middle;
        } else {
            low = middle + 1;
            assert(2 * low - 1 == 2 * middle + 1);
        }
    }
    proof {
        if low == 0 {
            assert(cube(-1) == -1);
        }
        assert(is_rounded_root(x as int, low as int));
        lemma_rounded_root_unique(x as int, low as int, rounded_root(x as int));
    }
    low
}

/// The number of bins that rebinning aims at: every sample its own bin up to ten, then growing
/// with the cube root of the excess.
pub open spec fn target_count(sample_count: nat) -> nat {
    if sample_count == 0 {
        1
    } else if sample_count <= 10 {
        sample_count
    } else {
        (10 + rounded_root(sample_count - 10)) as nat
    }
}

/// The number of internal bins combined into one bin.
pub open spec fn target_length(sample_count: nat) -> nat {
    if sample_count < target_count(sample_count) {
        1
    } else {
        sample_count / target_count(sample_count)
    }
}

proof fn lemma_root_is_small(x: int)
    requires
        x >= 0,
    ensures
        0 <= rounded_root(x) <= x,
{
    law_rounded_root(x);
    let r = rounded_root(x);
    if r > x {
        assert(cube(2 * r - 1) <= 8 * x);
        lemma_cube_monotone(2 * x + 1, 2 * r - 1);
        let y = x as int;
        assert((2 * y + 1) * (2 * y + 1) * (2 * y + 1) > 8 * y) by (nonlinear_arith)
            requires
                y >= 0,
        ;
    }
}

/// The number of rebinned bins that rebinning targets for a sample count.
///
/// For at most 10 samples every sample is its own bin; beyond that the target count grows as the
/// cube root of the excess, so the number of bins stays small while each bin becomes large
/// enough for a stable variance estimate.
pub fn carlo_rebin_count(sample_count: usize) -> (count: usize)
    ensures
        count == target_count(sample_count as nat),
        sample_count > 10 ==> is_rounded_root(sample_count - 10, count - 10),
        1 <= count,
        sample_count > 0 ==> count <= sample_count,
{
    if sample_count == 0 {
        1
    } else if sample_count <= 10 {
        sample_count
    } else {
        let excess: u64 = (sample_count - 10) as u64;
        let root: u64 = round_root(excess);
        proof {
            law_rounded_root(excess as int);
            lemma_root_is_small(excess as int);
        }
        10 + root as usize
    }
}

/// Every number that is not negative has a rounded cube root, and [`rounded_root`] is it.
pub proof fn law_rounded_root(x: int)
    requires
        x >= 0,
    ensures
        is_rounded_root(x, rounded_root(x)),
{
    assert((2 * x + 1) * (2 * x + 1) * (2 * x + 1) > 8 * x) by (nonlinear_arith)
        requires
            x >= 0,
    ;
    lemma_root_below(x, x);
}

proof fn lemma_root_below(x: int, bound: int)
    requires
        x >= 0,
        bound >= 0,
        8 * x < cube(2 * bound + 1),
    ensures
        exists|root: int| is_rounded_root(x, root),
    decreases bound,
{
    if bound == 0 {
        assert(cube(-1) == -1);
        assert(is_rounded_root(x, 0));
    } else if cube(2 * bound - 1) <= 8 * x {
        assert(is_rounded_root(x, bound));
    } else {
        lemma_root_below(x, bound - 1);
    }
}

/// The number of internal bins combined into one rebinned bin.
pub fn carlo_rebin_length(total_sample_count: usize) -> (length: usize)
    ensures
        length == target_length(total_sample_count as nat),
        1 <= length,
        total_sample_count > 0 ==> length <= total_sample_count,
        total_sample_count > 0 ==> total_sample_count / length >= 1,
{
    let count: usize = carlo_rebin_count(total_sample_count);
    if total_sample_count == 0 {
        return 1;
    }
    let length: usize = total_sample_count / count;
    proof {
        let n = total_sample_count as int;
        let c = count as int;
        vstd::arithmetic::div_mod::lemma_div_is_ordered(c, n, c);
        vstd::arithmetic::div_mod::lemma_div_basics(c);
        vstd::arithmetic::div_mod::lemma_div_is_ordered_by_denominator(n, 1, c);
        vstd::arithmetic::div_mod::lemma_div_basics(n);
        let l = length as int;
        vstd::arithmetic::div_mod::lemma_div_is_ordered(l, n, l);
        vstd::arithmetic::div_mod::lemma_div_basics(l);
    }
    length
}

/// How values are grouped: `count` groups of `length` consecutive values each, from the first
/// value on. Values behind the last full group are left out.
#[derive(Debug, Clone, Copy, PartialEq, Eq, Structural)]
pub struct Grouping {
    pub length: usize,
    pub count: usize,
}

impl Grouping {
    /// Whether the groups lie inside a series and nothing but an incomplete group is left out.
    pub open spec fn covers(self, series: nat) -> bool {
        &&& self.length > 0
        &&& self.count > 0
        &&& self.count * self.length <= series
        &&& series < self.count * self.length + self.length
    }
}

proof fn lemma_grouping(series: nat, length: nat)
    requires
        length > 0,
        series / length >= 1,
    ensures
        (series / length) * length <= series,
        series < (series / length) * length + length,
{
    vstd::arithmetic::div_mod::lemma_fundamental_div_mod(series as int, length as int);
    vstd::arithmetic::mul::lemma_mul_is_commutative(series as int / length as int, length as int);
}

/// Groups raw samples into internal bins of a given length.
pub fn sample_grouping(samples: usize, internal_bin_length: usize) -> (grouping: Result<
    Grouping,
    String,
>)
    ensures
        match grouping {
            Ok(g) => 0 < internal_bin_length <= samples && g.length == internal_bin_length
                && g.covers(samples as nat),
            Err(e) => if internal_bin_length == 0 {
                e@ == "binsize must be positive"@
            } else {
                samples < internal_bin_length && e@ == "binsize is larger than the sample series"@
            },
        },
{
    if internal_bin_length == 0 {
        return Err("binsize must be positive".to_owned());
    }
    if samples < internal_bin_length {
        return Err("binsize is larger than the sample series".to_owned());
    }
    proof {
        let n = samples as int;
        let l = internal_bin_length as int;
        vstd::arithmetic::div_mod::lemma_div_is_ordered(l, n, l);
        vstd::arithmetic::div_mod::lemma_div_basics(l);
        lemma_grouping(samples as nat, internal_bin_length as nat);
    }
    Ok(Grouping { length: internal_bin_length, count: samples / internal_bin_length })
}

/// Groups internal bins into rebinned bins.
pub fn bin_grouping(internal_bins: usize, internal_bin_length: usize) -> (grouping: Result<
    Grouping,
    String,
>)
    ensures
        match grouping {
            Ok(g) => {
                &&& internal_bin_length > 0
                &&& internal_bins > 0
                &&& g.length == target_length(internal_bins as nat)
                &&& g.count == internal_bins as nat / target_length(internal_bins as nat)
                &&& g.covers(internal_bins as nat)
            },
            Err(e) => if internal_bin_length == 0 {
                e@ == "binsize must be positive"@
            } else {
                internal_bins == 0 && e@ == "binsize is larger than the sample series"@
            },
        },
{
    if internal_bin_length == 0 {
        return Err("binsize must be positive".to_owned());
    }
    if internal_bins == 0 {
        return Err("binsize is larger than the sample series".to_owned());
    }
    let length: usize = carlo_rebin_length(internal_bins);
    proof {
        lemma_grouping(internal_bins as nat, length as nat);
    }
    Ok(Grouping { length, count: internal_bins / length })
}

/// What the caller computed from grouped bins: their averages, the mean of the averages and the
/// standard error of that mean, NaN where there is one average only.
#[derive(Debug)]
pub struct Averages {
    pub bins: Vec<Real>,
    pub mean: Real,
    pub stderr: Real,
}

/// A binned estimate before conversion into the final [`Estimate`].
///
/// `internal_bins` are the raw bin averages, and `bins` are the averages after rebinning.
/// `internal_bin_length` is the number of samples per internal bin and `rebin_length` is the
/// number of internal bins per rebinned bin.
#[derive(Debug, Clone, PartialEq)]
pub struct BinnedEstimate {
    pub mean: Real,
    pub stderr: Real,
    pub bins: Vec<Real>,
    pub internal_bins: Vec<Real>,
    pub internal_bin_length: usize,
    pub rebin_length: usize,
}

/// What a binned estimate says.
#[verifier::ext_equal]
pub struct BinnedView {
    pub mean: Real,
    pub stderr: Real,
    pub bins: Seq<Real>,
    pub internal_bins: Seq<Real>,
    pub internal_bin_length: usize,
    pub rebin_length: usize,
}

impl View for BinnedEstimate {
    type V = BinnedView;

    open spec fn view(&self) -> BinnedView {
        BinnedView {
            mean: self.mean,
            stderr: self.stderr,
            bins: self.bins@,
            internal_bins: self.internal_bins@,
            internal_bin_length: self.internal_bin_length,
            rebin_length: self.rebin_length,
        }
    }
}

/// Whether averages can be those of internal bins: one for each group, and no standard error for
/// a single one.
pub open spec fn are_averages(averages: Averages, internal_bins: nat) -> bool {
    &&& averages.bins@.len() == internal_bins / target_length(internal_bins)
    &&& averages.bins@.len() == 1 ==> averages.stderr.nan()
}

impl BinnedEstimate {
    /// Builds an estimate from completed internal bins and what the caller computed from them.
    /// The caller averages the bins as [`bin_grouping`] groups them; where that gives an error,
    /// so does this.
    pub fn from_internal_bins(
        internal_bins: Vec<Real>,
        internal_bin_length: usize,
        averages: Averages,
    ) -> (estimate: Result<Self, String>)
        requires
            internal_bin_length > 0 && internal_bins@.len() > 0 ==> are_averages(
                averages,
                internal_bins@.len(),
            ),
        ensures
            match estimate {
                Ok(e) => {
                    &&& internal_bin_length > 0
                    &&& internal_bins@.len() > 0
                    &&& e.bins@.len() == internal_bins@.len() / target_length(internal_bins@.len())
                    &&& e.bins@.len() == 1 ==> e.stderr.nan()
                    &&& e@ == (BinnedView {
                        mean: averages.mean,
                        stderr: averages.stderr,
                        bins: averages.bins@,
                        internal_bins: internal_bins@,
                        internal_bin_length,
                        rebin_length: target_length(internal_bins@.len()) as usize,
                    })
                },
                Err(e) => if internal_bin_length == 0 {
                    e@ == "binsize must be positive"@
                } else {
                    internal_bins@.len() == 0 && e@ == "binsize is larger than the sample series"@
                },
            },
    {
        let grouping = bin_grouping(internal_bins.len(), internal_bin_length)?;
        Ok(
            BinnedEstimate {
                mean: averages.mean,
                stderr: averages.stderr,
                bins: averages.bins,
                internal_bins,
                internal_bin_length,
                rebin_length: grouping.length,
            },
        )
    }
}

/// The final, fully featured per-observable estimate.
///
/// - `mean`/`stderr`: rebinned mean and its standard error.
/// - `error`: the reported error; equal to `stderr` for directly measured observables.
/// - `covariance`: reserved for array-valued observables; `None` for scalars.
/// - `autocorr_time`: reserved for integrated autocorrelation time; zero when unknown.
/// - `bins`/`bin_length`/`rebin_len`/`rebin_count`/`internal_bin_len`: binning metadata.
#[derive(Debug, Clone, Copy, PartialEq)]
pub struct Estimate {
    pub mean: Real,
    pub stderr: Real,
    pub error: Real,
    pub covariance: Option<Real>,
    pub autocorr_time: Real,
    pub bins: usize,
    pub bin_length: usize,
    pub rebin_len: usize,
    pub rebin_count: usize,
    pub internal_bin_len: usize,
}

impl View for Estimate {
    type V = Estimate;

    open spec fn view(&self) -> Estimate {
        *self
    }
}

impl Duplicate for Estimate {
    fn duplicate(&self) -> (copy: Self) {
        *self
    }
}

/// The final estimate of a binned one.
pub open spec fn final_estimate(estimate: BinnedView, bin_length: usize) -> Estimate {
    Estimate {
        mean: estimate.mean,
        stderr: estimate.stderr,
        error: estimate.stderr,
        covariance: None,
        autocorr_time: Real { bits: 0 },
        bins: estimate.bins.len() as usize,
        bin_length,
        rebin_len: estimate.rebin_length,
        rebin_count: estimate.bins.len() as usize,
        internal_bin_len: estimate.internal_bin_length,
    }
}

/// Whether a number is infinite.
pub open spec fn is_infinite(number: Real) -> bool {
    !number.finite() && !number.nan()
}

/// Whether an estimate is internally consistent and carries valid numbers.
pub open spec fn is_valid_estimate(e: Estimate) -> bool {
    &&& e.bins > 0
    &&& e.bins == e.rebin_count
    &&& e.bin_length > 0
    &&& e.bin_length == e.internal_bin_len
    &&& e.rebin_len > 0
    &&& !is_infinite(e.mean)
    &&& !is_infinite(e.stderr)
    &&& !is_infinite(e.error)
    &&& if e.rebin_count == 1 {
        e.stderr.nan()
    } else {
        e.stderr.nonnegative() && e.error.nonnegative()
    }
}

impl Estimate {
    /// Converts a [`BinnedEstimate`] into the final estimate.
    pub fn from_binned(estimate: &BinnedEstimate, bin_length: usize) -> (result: Self)
        ensures
            result == final_estimate(estimate@, bin_length),
    {
        Estimate {
            mean: estimate.mean,
            stderr: estimate.stderr,
            error: estimate.stderr,
            covariance: None,
            autocorr_time: Real::nought(),
            bins: estimate.bins.len(),
            bin_length,
            rebin_len: estimate.rebin_length,
            rebin_count: estimate.bins.len(),
            internal_bin_len: estimate.internal_bin_length,
        }
    }
}

/// The rich form of a plain rebinned estimate.
pub open spec fn widened(estimate: ScalarEstimate) -> Estimate {
    Estimate {
        mean: estimate.mean,
        stderr: estimate.stderr,
        error: estimate.stderr,
        covariance: None,
        autocorr_time: Real { bits: 0 },
        bins: estimate.rebin_count,
        bin_length: estimate.bin_length,
        rebin_len: estimate.rebin_length,
        rebin_count: estimate.rebin_count,
        internal_bin_len: estimate.bin_length,
    }
}

impl From<&BinnedEstimate> for Estimate {
    /// Converts a [`BinnedEstimate`] with the bin length that it has itself.
    fn from(estimate: &BinnedEstimate) -> (result: Self) {
        Self::from_binned(estimate, estimate.internal_bin_length)
    }
}

impl FromSpecImpl<&BinnedEstimate> for Estimate {
    open spec fn obeys_from_spec() -> bool {
        true
    }

    open spec fn from_spec(estimate: &BinnedEstimate) -> Estimate {
        final_estimate(estimate@, estimate.internal_bin_length)
    }
}

impl From<ScalarEstimate> for Estimate {
    /// Widens a plain rebinned [`ScalarEstimate`] into the rich estimate form.
    fn from(estimate: ScalarEstimate) -> (result: Self) {
        Estimate {
            mean: estimate.mean,
            stderr: estimate.stderr,
            error: estimate.stderr,
            covariance: None,
            autocorr_time: Real::nought(),
            bins: estimate.rebin_count,
            bin_length: estimate.bin_length,
            rebin_len: estimate.rebin_length,
            rebin_count: estimate.rebin_count,
            internal_bin_len: estimate.bin_length,
        }
    }
}

impl FromSpecImpl<ScalarEstimate> for Estimate {
    open spec fn obeys_from_spec() -> bool {
        true
    }

    open spec fn from_spec(estimate: ScalarEstimate) -> Estimate {
        widened(estimate)
    }
}

/// The contract of every per-observable estimate type: it can tell whether it is valid.
pub trait ResultEstimate: Sized {
    /// Whether the estimate is internally consistent and carries valid numbers.
    spec fn is_valid(&self) -> bool;

    /// Returns whether the estimate is internally consistent and carries valid numbers.
    fn valid(&self) -> (valid: bool)
        ensures
            valid == self.is_valid(),
    ;
}

impl ResultEstimate for Estimate {
    open spec fn is_valid(&self) -> bool {
        is_valid_estimate(*self)
    }

    fn valid(&self) -> (valid: bool) {
        self.bins > 0 && self.bins == self.rebin_count && self.bin_length > 0 && self.bin_length
            == self.internal_bin_len && self.rebin_len > 0 && (self.mean.is_finite()
            || self.mean.is_nan()) && (self.stderr.is_finite() || self.stderr.is_nan()) && (
        self.error.is_finite() || self.error.is_nan()) && if self.rebin_count == 1 {
            self.stderr.is_nan()
        } else {
            self.stderr.is_nonnegative() && self.error.is_nonnegative()
        }
    }
}

/// A binned statistical estimate for one observable.
///
/// `mean` is the average of rebinned internal bins and `stderr` is the rebinned standard error.
/// When only one rebinned bin exists, `stderr` is NaN.
#[derive(Debug, Clone, Copy, PartialEq)]
pub struct ScalarEstimate {
    pub mean: Real,
    pub stderr: Real,
    /// Number of raw internal bins before rebinning.
    pub internal_bins: usize,
    /// Number of internal bins combined into one rebinned bin.
    pub rebin_length: usize,
    /// Number of rebinned bins used for the estimate.
    pub rebin_count: usize,
    /// Raw samples per internal bin.
    pub bin_length: usize,
}

impl View for ScalarEstimate {
    type V = ScalarEstimate;

    open spec fn view(&self) -> ScalarEstimate {
        *self
    }
}

impl Duplicate for ScalarEstimate {
    fn duplicate(&self) -> (copy: Self) {
        *self
    }
}

/// Whether a scalar estimate is one that rebinning its bins can give.
pub open spec fn is_valid_scalar(e: ScalarEstimate) -> bool {
    &&& e.mean.finite()
    &&& e.internal_bins > 0
    &&& e.bin_length > 0
    &&& e.rebin_length == target_length(e.internal_bins as nat)
    &&& e.rebin_count == e.internal_bins as nat / target_length(e.internal_bins as nat)
    &&& if e.rebin_count == 1 {
        e.stderr.nan()
    } else {
        e.stderr.finite() && e.stderr.nonnegative()
    }
}

/// The number of internal bins that a valid result combines into one rebinned bin.
pub fn rebin_length(internal_bins: usize) -> (length: usize)
    ensures
        length == target_length(internal_bins as nat),
        1 <= length,
        internal_bins > 0 ==> internal_bins / length >= 1,
{
    carlo_rebin_length(internal_bins)
}

/// Whether a scalar estimate is one that rebinning its bins can give.
pub fn valid_estimate(estimate: &ScalarEstimate) -> (valid: bool)
    ensures
        valid == is_valid_scalar(*estimate),
{
    if !estimate.mean.is_finite() || estimate.internal_bins == 0 || estimate.bin_length == 0 {
        return false;
    }
    let length: usize = rebin_length(estimate.internal_bins);
    if estimate.rebin_length != length || estimate.rebin_count != estimate.internal_bins / length {
        return false;
    }
    if estimate.rebin_count == 1 {
        estimate.stderr.is_nan()
    } else {
        estimate.stderr.is_finite() && estimate.stderr.is_nonnegative()
    }
}

impl ScalarEstimate {
    /// The scalar estimate of a binned one.
    pub fn from_binned(estimate: &BinnedEstimate, bin_length: usize) -> (result: Self)
        ensures
            result == scalar_estimate(estimate@, bin_length),
    {
        ScalarEstimate {
            mean: estimate.mean,
            stderr: estimate.stderr,
            internal_bins: estimate.internal_bins.len(),
            rebin_length: estimate.rebin_length,
            rebin_count: estimate.bins.len(),
            bin_length,
        }
    }
}

/// The scalar estimate of a binned one.
pub open spec fn scalar_estimate(estimate: BinnedView, bin_length: usize) -> ScalarEstimate {
    ScalarEstimate {
        mean: estimate.mean,
        stderr: estimate.stderr,
        internal_bins: estimate.internal_bins.len() as usize,
        rebin_length: estimate.rebin_length,
        rebin_count: estimate.bins.len() as usize,
        bin_length,
    }
}

/// An estimate from completed bins, averaged as they are grouped, is a valid scalar estimate if
/// its numbers are: a finite mean, and a standard error that is NaN for one bin and a finite
/// non-negative number for more.
pub proof fn law_scalar_estimate_is_valid(estimate: BinnedView)
    requires
        0 < estimate.internal_bins.len() <= usize::MAX,
        estimate.internal_bin_length > 0,
        estimate.rebin_length == target_length(estimate.internal_bins.len()),
        estimate.bins.len() == estimate.internal_bins.len() / target_length(
            estimate.internal_bins.len(),
        ),
        estimate.mean.finite(),
        estimate.bins.len() == 1 ==> estimate.stderr.nan(),
        estimate.bins.len() != 1 ==> estimate.stderr.finite() && estimate.stderr.nonnegative(),
        estimate.bins.len() <= usize::MAX,
    ensures
        is_valid_scalar(scalar_estimate(estimate, estimate.internal_bin_length)),
{
}

/// The estimates of the measured observables, under the same names.
///
/// `bin_lengths` tells the number of raw samples per internal bin of each observable, one where
/// it tells nothing.
pub fn default_estimates(
    binned: &Catalog<BinnedEstimate>,
    bin_lengths: &Catalog<usize>,
) -> (estimates: Catalog<Estimate>)
    ensures
        forall|e: (Seq<char>, Estimate)| #[trigger]
            estimates@.contains(e) <==> exists|i: int|
                0 <= i < binned@.len() && e == (
                    (#[trigger] binned@[i]).0,
                    final_estimate(binned@[i].1, length_of(bin_lengths@, binned@[i].0)),
                ),
{
    let mut estimates: Catalog<Estimate> = Catalog::new();
    let count: usize = binned.len();
    let mut index: usize = 0;
    proof {
        lemma_ascending_distinct(binned@);
    }
    while index < count
        invariant
            index <= count,
            count == binned@.len(),
            crate::catalog::distinct_names(binned@),
            forall|e: (Seq<char>, Estimate)| #[trigger]
                estimates@.contains(e) <==> exists|i: int|
                    0 <= i < index && e == (
                        (#[trigger] binned@[i]).0,
                        final_estimate(binned@[i].1, length_of(bin_lengths@, binned@[i].0)),
                    ),
        decreases count - index,
    {
        let name = binned.name_at(index);
        let bin_length: usize = match bin_lengths.get(name.as_str()) {
            Some(length) => *length,
            None => 1,
        };
        let ghost before = estimates@;
        let estimate = Estimate::from_binned(binned.value_at(index), bin_length);
        let _ = estimates.insert(name.clone(), estimate);
        assert forall|e: (Seq<char>, Estimate)| #[trigger]
            estimates@.contains(e) <==> exists|i: int|
                0 <= i < index + 1 && e == (
                    (#[trigger] binned@[i]).0,
                    final_estimate(binned@[i].1, length_of(bin_lengths@, binned@[i].0)),
                ) by {
            if estimates@.contains(e) {
                if e == (name@, estimate) {
                    assert(binned@[index as int].0 == name@);
                } else {
                    assert(before.contains(e));
                }
            }
            if exists|i: int|
                0 <= i < index + 1 && e == (
                    (#[trigger] binned@[i]).0,
                    final_estimate(binned@[i].1, length_of(bin_lengths@, binned@[i].0)),
                ) {
                let i = choose|i: int|
                    0 <= i < index + 1 && e == (
                        (#[trigger] binned@[i]).0,
                        final_estimate(binned@[i].1, length_of(bin_lengths@, binned@[i].0)),
                    );
                if i < index {
                    assert(binned@[i].0 != binned@[index as int].0);
                    assert(before.contains(e));
                }
            }
        }
        index = index + 1;
    }
    estimates
}

/// The number of raw samples per internal bin of an observable, one where it is not told.
pub open spec fn length_of(bin_lengths: Seq<(Seq<char>, usize)>, name: Seq<char>) -> usize {
    if has_name(bin_lengths, name) {
        value_of(bin_lengths, name)
    } else {
        1
    }
}

/// What a derived observable has in common from its ingredients: the smallest bin lengths and
/// the number of bins that all ingredients have.
#[derive(Debug, Clone, Copy, PartialEq, Eq, Structural)]
pub struct Ingredients {
    pub internal_bin_length: usize,
    pub rebin_length: usize,
    pub rebin_count: usize,
}

/// Whether a number is the smallest of those that `part` gives for the named estimates, or the
/// given one where no estimate is named.
pub open spec fn is_least(
    binned: Seq<(Seq<char>, BinnedView)>,
    names: Seq<Seq<char>>,
    part: spec_fn(BinnedView) -> nat,
    default: nat,
    least: nat,
) -> bool {
    if names.len() == 0 {
        least == default
    } else {
        &&& forall|i: int|
            0 <= i < names.len() ==> least <= part(value_of(binned, #[trigger] names[i]))
        &&& exists|i: int|
            0 <= i < names.len() && least == part(value_of(binned, #[trigger] names[i]))
    }
}

/// Computes derived observables from measured ones.
///
/// The binned estimates are the ingredients, and the derived observables join the estimates.
/// Jackknife resampling, the arithmetic in between, is the work of the caller.
#[derive(Debug)]
pub struct Evaluator {
    binned: Catalog<BinnedEstimate>,
    estimates: Catalog<Estimate>,
}

/// What an evaluator holds.
#[verifier::ext_equal]
pub struct EvaluatorView {
    pub binned: Seq<(Seq<char>, BinnedView)>,
    pub estimates: Seq<(Seq<char>, Estimate)>,
}

impl View for Evaluator {
    type V = EvaluatorView;

    closed spec fn view(&self) -> EvaluatorView {
        EvaluatorView { binned: self.binned@, estimates: self.estimates@ }
    }
}

impl Evaluator {
    /// Creates an evaluator from measured estimates and the map that receives the derived ones.
    pub fn new(binned: Catalog<BinnedEstimate>, estimates: Catalog<Estimate>) -> (evaluator: Self)
        ensures
            evaluator@ == (EvaluatorView { binned: binned@, estimates: estimates@ }),
    {
        Evaluator { binned, estimates }
    }

    /// The measured estimate of an observable.
    pub fn measured(&self, name: &str) -> (estimate: Option<&BinnedEstimate>)
        ensures
            estimate is Some <==> has_name(self@.binned, name@),
            estimate matches Some(e) ==> e@ == value_of(self@.binned, name@),
    {
        self.binned.get(name)
    }

    /// All estimates, the derived ones among them.
    pub fn into_estimates(self) -> (estimates: Catalog<Estimate>)
        ensures
            estimates@ == self@.estimates,
    {
        self.estimates
    }

    /// What the named ingredients have in common. There is nothing to evaluate where an
    /// ingredient is missing or has no bins, or where none is named.
    pub fn ingredients(&self, names: &Vec<String>) -> (common: Option<Ingredients>)
        ensures
            match common {
                Some(c) => {
                    &&& c.rebin_count > 0
                    &&& forall|i: int|
                        0 <= i < names@.len() ==> has_name(
                            self@.binned,
                            #[trigger] texts(names@)[i],
                        )
                    &&& is_least(
                        self@.binned,
                        texts(names@),
                        |e: BinnedView| e.internal_bin_length as nat,
                        1,
                        c.internal_bin_length as nat,
                    )
                    &&& is_least(
                        self@.binned,
                        texts(names@),
                        |e: BinnedView| e.rebin_length as nat,
                        1,
                        c.rebin_length as nat,
                    )
                    &&& is_least(
                        self@.binned,
                        texts(names@),
                        |e: BinnedView| e.bins.len(),
                        0,
                        c.rebin_count as nat,
                    )
                },
                None => names@.len() == 0 || exists|i: int|
                    0 <= i < names@.len() && (!has_name(self@.binned, #[trigger] texts(names@)[i])
                        || value_of(self@.binned, texts(names@)[i]).bins.len() == 0),
            },
    {
        let ghost listed = texts(names@);
        let ghost binned = self@.binned;
        if names.len() == 0 {
            return None;
        }
        let mut internal_bin_length: usize = 1;
        let mut rebin_length: usize = 1;
        let mut rebin_count: usize = 0;
        let mut index: usize = 0;
        assert(listed.take(0) =~= Seq::empty());
        while index < names.len()
            invariant
                index <= names.len(),
                names@.len() > 0,
                listed == texts(names@),
                binned == self@.binned,
                forall|i: int| 0 <= i < index ==> has_name(binned, #[trigger] listed[i]),
                is_least(
                    binned,
                    listed.take(index as int),
                    |e: BinnedView| e.internal_bin_length as nat,
                    1,
                    internal_bin_length as nat,
                ),
                is_least(
                    binned,
                    listed.take(index as int),
                    |e: BinnedView| e.rebin_length as nat,
                    1,
                    rebin_length as nat,
                ),
                is_least(
                    binned,
                    listed.take(index as int),
                    |e: BinnedView| e.bins.len(),
                    0,
                    rebin_count as nat,
                ),
            decreases names.len() - index,
        {
            assert(listed[index as int] == names@[index as int]@);
            let estimate = match self.binned.get(names[index].as_str()) {
                Some(estimate) => estimate,
                None => {
                    return None;
                },
            };
            proof {
                lemma_least_step(
                    binned,
                    listed,
                    index as int,
                    |e: BinnedView| e.internal_bin_length as nat,
                    1,
                    internal_bin_length as nat,
                );
                lemma_least_step(
                    binned,
                    listed,
                    index as int,
                    |e: BinnedView| e.rebin_length as nat,
                    1,
                    rebin_length as nat,
                );
                lemma_least_step(
                    binned,
                    listed,
                    index as int,
                    |e: BinnedView| e.bins.len(),
                    0,
                    rebin_count as nat,
                );
            }
            if index == 0 || estimate.internal_bin_length < internal_bin_length {
                internal_bin_length = estimate.internal_bin_length;
            }
            if index == 0 || estimate.rebin_length < rebin_length {
                rebin_length = estimate.rebin_length;
            }
            if index == 0 || estimate.bins.len() < rebin_count {
                rebin_count = estimate.bins.len();
            }
            index = index + 1;
        }
        assert(listed.take(index as int) =~= listed);
        if rebin_count == 0 {
            return None;
        }
        Some(Ingredients { internal_bin_length, rebin_length, rebin_count })
    }

    /// Records the derived observable `name` with what the caller computed: the bias-corrected
    /// mean, its standard error and one evaluation per bin.
    pub fn record(&mut self, name: &str, common: Ingredients, computed: Averages)
        ensures
            final(self)@.binned == old(self)@.binned,
            ascending(final(self)@.estimates),
            forall|e: (Seq<char>, Estimate)| #[trigger]
                final(self)@.estimates.contains(e) <==> e == (
                    name@,
                    derived_estimate(common, computed.mean, computed.stderr, computed.bins@),
                ) || old(self)@.estimates.contains(e) && e.0 != name@,
    {
        let binned = BinnedEstimate {
            mean: computed.mean,
            stderr: computed.stderr,
            bins: computed.bins,
            internal_bins: Vec::new(),
            internal_bin_length: common.internal_bin_length,
            rebin_length: common.rebin_length,
        };
        let estimate = Estimate::from_binned(&binned, common.internal_bin_length);
        let _ = self.estimates.insert(name.to_owned(), estimate);
    }
}

/// The estimate of a derived observable.
pub open spec fn derived_estimate(
    common: Ingredients,
    mean: Real,
    stderr: Real,
    evaluations: Seq<Real>,
) -> Estimate {
    final_estimate(
        BinnedView {
            mean,
            stderr,
            bins: evaluations,
            internal_bins: Seq::empty(),
            internal_bin_length: common.internal_bin_length,
            rebin_length: common.rebin_length,
        },
        common.internal_bin_length,
    )
}

proof fn lemma_least_step(
    binned: Seq<(Seq<char>, BinnedView)>,
    names: Seq<Seq<char>>,
    index: int,
    part: spec_fn(BinnedView) -> nat,
    default: nat,
    least: nat,
)
    requires
        0 <= index < names.len(),
        is_least(binned, names.take(index), part, default, least),
    ensures
        ({
            let next = part(value_of(binned, names[index]));
            is_least(
                binned,
                names.take(index + 1),
                part,
                default,
                if index == 0 || next < least {
                    next
                } else {
                    least
                },
            )
        }),
{
    let before = names.take(index);
    let after = names.take(index + 1);
    let next = part(value_of(binned, names[index]));
    let new = if index == 0 || next < least {
        next
    } else {
        least
    };
    assert(after[index] == names[index]);
    assert forall|i: int| 0 <= i < after.len() implies new <= part(
        value_of(binned, #[trigger] after[i]),
    ) by {
        if i < index {
            assert(before[i] == after[i]);
        }
    }
    if new == next {
        assert(new == part(value_of(binned, after[index])));
    } else {
        let i = choose|i: int|
            0 <= i < before.len() && least == part(value_of(binned, #[trigger] before[i]));
        assert(after[i] == before[i]);
    }
}

/// The estimate of a measured observable carries the numbers that were computed for it, whatever
/// its number of bins: mean and standard error bit for bit, and that standard error as the reported
/// error. The counts are those of the bins.
pub proof fn law_estimate_carries_numbers(
    binned: BinnedEstimate,
    bin_length: usize,
    estimate: Estimate,
)
    requires
        call_ensures(Estimate::from_binned, (&binned, bin_length), estimate),
    ensures
        estimate.mean.bits == binned.mean.bits,
        estimate.stderr.bits == binned.stderr.bits,
        estimate.error.bits == binned.stderr.bits,
        estimate.covariance is None,
        estimate.autocorr_time.bits == 0,
        estimate.bins == binned.bins.len(),
        estimate.rebin_count == binned.bins.len(),
        estimate.bin_length == bin_length,
        estimate.rebin_len == binned.rebin_length,
        estimate.internal_bin_len == binned.internal_bin_length,
{
}

/// The scalar estimate of a measured observable carries the numbers that were computed for it,
/// whatever its number of bins, and the counts of the bins before and after rebinning.
pub proof fn law_scalar_estimate_carries_numbers(
    binned: BinnedEstimate,
    bin_length: usize,
    estimate: ScalarEstimate,
)
    requires
        call_ensures(ScalarEstimate::from_binned, (&binned, bin_length), estimate),
    ensures
        estimate.mean.bits == binned.mean.bits,
        estimate.stderr.bits == binned.stderr.bits,
        estimate.internal_bins == binned.internal_bins.len(),
        estimate.rebin_count == binned.bins.len(),
        estimate.rebin_length == binned.rebin_length,
        estimate.bin_length == bin_length,
{
}

/// Both ways from a binned estimate to the rich form agree: directly, or by way of the scalar form
/// with the bin length that the binned estimate has itself.
pub proof fn law_estimates_widen_alike(
    binned: BinnedEstimate,
    direct: Estimate,
    scalar: ScalarEstimate,
    widened: Estimate,
)
    requires
        call_ensures(<Estimate as From<&BinnedEstimate>>::from, (&binned,), direct),
        call_ensures(ScalarEstimate::from_binned, (&binned, binned.internal_bin_length), scalar),
        call_ensures(<Estimate as From<ScalarEstimate>>::from, (scalar,), widened),
    ensures
        widened == direct,
        widened.mean.bits == scalar.mean.bits,
        widened.stderr.bits == scalar.stderr.bits,
        widened.error.bits == scalar.stderr.bits,
        widened.bins == scalar.rebin_count,
        widened.rebin_count == scalar.rebin_count,
        widened.rebin_len == scalar.rebin_length,
        widened.bin_length == scalar.bin_length,
        widened.internal_bin_len == scalar.bin_length,
        widened.covariance is None,
        widened.autocorr_time.bits == 0,
        direct.bin_length == binned.internal_bin_length,
{
}

/// An estimate from internal bins keeps the bins and what the caller computed from them, and groups
/// the bins without leaving a full group out.
pub proof fn law_internal_bins_are_kept(
    internal_bins: Vec<Real>,
    internal_bin_length: usize,
    averages: Averages,
    estimate: Result<BinnedEstimate, String>,
)
    requires
        call_ensures(
            BinnedEstimate::from_internal_bins,
            (internal_bins, internal_bin_length, averages),
            estimate,
        ),
    ensures
        estimate is Ok <==> internal_bin_length > 0 && internal_bins@.len() > 0,
        estimate matches Ok(e) ==> {
            &&& e.mean.bits == averages.mean.bits
            &&& e.stderr.bits == averages.stderr.bits
            &&& e.bins@ == averages.bins@
            &&& e.internal_bins@ == internal_bins@
            &&& e.internal_bin_length == internal_bin_length
            &&& e.rebin_length > 0
            &&& e.bins@.len() * e.rebin_length <= internal_bins@.len()
            &&& internal_bins@.len() < e.bins@.len() * e.rebin_length + e.rebin_length
        },
{
    if let Ok(e) = estimate {
        let n = internal_bins@.len();
        assert(internal_bins.len() == n);
        lemma_target_length(n);
        lemma_grouping(n, target_length(n));
    }
}

proof fn lemma_target_length(n: nat)
    requires
        0 < n,
    ensures
        1 <= target_count(n) <= n,
        1 <= target_length(n) <= n,
        target_length(n) * target_count(n) <= n < (target_length(n) + 1) * target_count(n),
        n / target_length(n) >= 1,
{
    if n > 10 {
        law_rounded_root(n - 10);
        lemma_root_is_small(n - 10);
    }
    let c = target_count(n) as int;
    let l = target_length(n) as int;
    vstd::arithmetic::div_mod::lemma_fundamental_div_mod(n as int, c);
    vstd::arithmetic::mul::lemma_mul_is_commutative(c, l);
    vstd::arithmetic::mul::lemma_mul_is_distributive_add_other_way(c, l, 1);
    vstd::arithmetic::div_mod::lemma_div_is_ordered(c, n as int, c);
    vstd::arithmetic::div_mod::lemma_div_basics(c);
    vstd::arithmetic::div_mod::lemma_div_is_ordered_by_denominator(n as int, 1, c);
    vstd::arithmetic::div_mod::lemma_div_basics(n as int);
    vstd::arithmetic::div_mod::lemma_div_is_ordered(l, n as int, l);
    vstd::arithmetic::div_mod::lemma_div_basics(l);
}

/// Rebinning keeps up to ten samples apart. Beyond ten, the number of bins above ten is the cube
/// root of the number of samples above ten, rounded: no half number further away from it.
pub proof fn law_rebin_count(sample_count: usize, count: usize)
    requires
        call_ensures(carlo_rebin_count, (sample_count,), count),
    ensures
        sample_count == 0 ==> count == 1,
        1 <= sample_count <= 10 ==> count == sample_count,
        sample_count > 10 ==> ({
            let x = sample_count - 10;
            let r = count - 10;
            &&& r >= 1
            &&& (2 * r - 1) * (2 * r - 1) * (2 * r - 1) <= 8 * x
            &&& 8 * x < (2 * r + 1) * (2 * r + 1) * (2 * r + 1)
        }),
{
    if sample_count > 10 {
        let x = sample_count - 10;
        let r = count - 10;
        assert(is_rounded_root(x, r));
        assert(cube(2 * r - 1) == (2 * r - 1) * (2 * r - 1) * (2 * r - 1));
        assert(cube(2 * r + 1) == (2 * r + 1) * (2 * r + 1) * (2 * r + 1));
        if r == 0 {
            assert(cube(1) == 1);
        }
    }
}

/// More samples never have fewer bins.
pub proof fn law_rebin_count_grows(a: usize, b: usize, count_a: usize, count_b: usize)
    requires
        a <= b,
        call_ensures(carlo_rebin_count, (a,), count_a),
        call_ensures(carlo_rebin_count, (b,), count_b),
    ensures
        count_a <= count_b,
{
    law_rebin_count(a, count_a);
    law_rebin_count(b, count_b);
    if a > 10 && count_a > count_b {
        lemma_cube_monotone(2 * (count_b - 10) + 1, 2 * (count_a - 10) - 1);
    }
}

/// A bin combines as many internal bins as there are for each bin, rounded down.
pub proof fn law_rebin_length(sample_count: usize, count: usize, length: usize)
    requires
        call_ensures(carlo_rebin_count, (sample_count,), count),
        call_ensures(carlo_rebin_length, (sample_count,), length),
    ensures
        length >= 1,
        sample_count == 0 ==> length == 1,
        sample_count > 0 ==> length * count <= sample_count < (length + 1) * count,
{
    if sample_count > 0 {
        lemma_target_length(sample_count as nat);
    }
}

/// Samples are grouped by the given length, with nothing but an incomplete group left out. There is
/// a grouping exactly if a group is neither empty nor larger than the series.
pub proof fn law_sample_grouping(
    samples: usize,
    length: usize,
    grouping: Result<Grouping, String>,
)
    requires
        call_ensures(sample_grouping, (samples, length), grouping),
    ensures
        grouping is Ok <==> 0 < length <= samples,
        grouping matches Ok(g) ==> {
            &&& g.length == length
            &&& g.count >= 1
            &&& g.count * length <= samples < g.count * length + length
        },
        grouping matches Err(e) ==> (length == 0 <==> e@ == "binsize must be positive"@) && (length
            > 0 <==> e@ == "binsize is larger than the sample series"@),
{
    reveal_strlit("binsize must be positive");
    reveal_strlit("binsize is larger than the sample series");
    assert("binsize must be positive"@.len() != "binsize is larger than the sample series"@.len());
}

/// Internal bins are grouped by the length that [`carlo_rebin_length`] gives, with nothing but an
/// incomplete group left out.
pub proof fn law_bin_grouping(
    internal_bins: usize,
    internal_bin_length: usize,
    length: usize,
    grouping: Result<Grouping, String>,
)
    requires
        call_ensures(carlo_rebin_length, (internal_bins,), length),
        call_ensures(bin_grouping, (internal_bins, internal_bin_length), grouping),
    ensures
        grouping is Ok <==> internal_bins > 0 && internal_bin_length > 0,
        grouping matches Ok(g) ==> {
            &&& g.length == length
            &&& g.count >= 1
            &&& g.count * length <= internal_bins < g.count * length + length
        },
{
}

/// An estimate that calls itself valid has bins, consistent counts and numbers that are not
/// infinite, and says that its error is unknown exactly if it has one bin. One that fails to be
/// valid breaks one of these.
pub proof fn law_valid_estimates(e: Estimate, valid: bool)
    requires
        call_ensures(<Estimate as ResultEstimate>::valid, (&e,), valid),
    ensures
        valid ==> e.bins > 0 && e.rebin_len > 0 && e.bin_length > 0,
        valid ==> e.bins == e.rebin_count,
        valid ==> e.bin_length == e.internal_bin_len,
        valid ==> (e.mean.finite() || e.mean.nan()),
        valid && e.bins == 1 ==> e.stderr.nan() && (e.error.finite() || e.error.nan()),
        valid && e.bins > 1 ==> e.stderr.finite() && e.stderr.nonnegative() && e.error.finite()
            && e.error.nonnegative(),
        !valid ==> {
            ||| e.bins == 0 || e.rebin_len == 0 || e.bin_length == 0
            ||| e.bins != e.rebin_count
            ||| e.bin_length != e.internal_bin_len
            ||| !(e.mean.finite() || e.mean.nan())
            ||| e.bins == 1 && !(e.stderr.nan() && (e.error.finite() || e.error.nan()))
            ||| e.bins > 1 && !(e.stderr.finite() && e.stderr.nonnegative() && e.error.finite()
                && e.error.nonnegative())
        },
{
}

/// A scalar estimate is accepted exactly if its mean is finite, its bins are grouped by the length
/// that [`carlo_rebin_length`] gives, and its standard error is NaN for one bin and a finite
/// non-negative number for more.
pub proof fn law_valid_scalar_estimates(e: ScalarEstimate, length: usize, valid: bool)
    requires
        call_ensures(carlo_rebin_length, (e.internal_bins,), length),
        call_ensures(valid_estimate, (&e,), valid),
    ensures
        valid <==> {
            &&& e.mean.finite()
            &&& e.internal_bins > 0
            &&& e.bin_length > 0
            &&& e.rebin_length == length
            &&& e.rebin_count * length <= e.internal_bins < e.rebin_count * length + length
            &&& e.rebin_count == 1 ==> e.stderr.nan()
            &&& e.rebin_count > 1 ==> e.stderr.finite() && e.stderr.nonnegative()
        },
{
    let n = e.internal_bins as nat;
    if n > 0 {
        lemma_target_length(n);
        lemma_grouping(n, length as nat);
        let q = (n / length as nat) as int;
        let c = e.rebin_count as int;
        let l = length as int;
        if c * l <= n < c * l + l {
            vstd::arithmetic::div_mod::lemma_fundamental_div_mod_converse(n as int, l, c, n - c * l);
        }
    }
}

/// The length by which a valid result is rebinned is that of [`carlo_rebin_length`].
pub proof fn law_rebin_lengths_agree(internal_bins: usize, a: usize, b: usize)
    requires
        call_ensures(rebin_length, (internal_bins,), a),
        call_ensures(carlo_rebin_length, (internal_bins,), b),
    ensures
        a == b,
{
}

/// The default estimates stand under the names of the measured observables, one each, with the mean
/// and the standard error that were measured, and the bin length that was told for the name.
pub proof fn law_default_estimates(
    binned: Catalog<BinnedEstimate>,
    bin_lengths: Catalog<usize>,
    estimates: Catalog<Estimate>,
    i: int,
)
    requires
        call_ensures(default_estimates, (&binned, &bin_lengths), estimates),
        0 <= i < binned@.len(),
        ascending(estimates@),
        ascending(binned@),
        ascending(bin_lengths@),
    ensures
        has_name(estimates@, binned@[i].0),
        ({
            let e = value_of(estimates@, binned@[i].0);
            &&& e.mean.bits == binned@[i].1.mean.bits
            &&& e.stderr.bits == binned@[i].1.stderr.bits
            &&& e.error.bits == binned@[i].1.stderr.bits
            &&& e.rebin_len == binned@[i].1.rebin_length
            &&& e.internal_bin_len == binned@[i].1.internal_bin_length
            &&& e.bins == binned@[i].1.bins.len() as usize
            &&& forall|k: int|
                0 <= k < bin_lengths@.len() && (#[trigger] bin_lengths@[k]).0 == binned@[i].0
                    ==> e.bin_length == bin_lengths@[k].1
            &&& (forall|k: int|
                0 <= k < bin_lengths@.len() ==> (#[trigger] bin_lengths@[k]).0 != binned@[i].0)
                ==> e.bin_length == 1
        }),
        forall|k: int|
            0 <= k < estimates@.len() ==> has_name(binned@, (#[trigger] estimates@[k]).0),
{
    let name = binned@[i].0;
    let e = final_estimate(binned@[i].1, length_of(bin_lengths@, name));
    assert(estimates@.contains((name, e)));
    let place = choose|place: int| 0 <= place < estimates@.len() && estimates@[place] == (name, e);
    lemma_ascending_distinct(estimates@);
    lemma_ascending_distinct(bin_lengths@);
    crate::catalog::lemma_value_of(estimates@, place);
    assert forall|k: int| 0 <= k < bin_lengths@.len() && (#[trigger] bin_lengths@[k]).0
        == name implies e.bin_length == bin_lengths@[k].1 by {
        crate::catalog::lemma_value_of(bin_lengths@, k);
    }
    assert forall|k: int| 0 <= k < estimates@.len() implies has_name(
        binned@,
        (#[trigger] estimates@[k]).0,
    ) by {
        assert(estimates@.contains(estimates@[k]));
        let j = choose|j: int|
            0 <= j < binned@.len() && estimates@[k] == (
                (#[trigger] binned@[j]).0,
                final_estimate(binned@[j].1, length_of(bin_lengths@, binned@[j].0)),
            );
        assert(binned@[j].0 == estimates@[k].0);
    }
}

/// A derived observable is recorded with the mean and the standard error that were computed for it
/// and with the bin lengths of its ingredients. What was recorded under other names stays, and so do
/// the measured estimates.
pub proof fn law_derived_estimates_carry_numbers(
    evaluator: &mut Evaluator,
    name: &str,
    common: Ingredients,
    computed: Averages,
)
    requires
        call_ensures(Evaluator::record, (evaluator, name, common, computed), ()),
    ensures
        has_name(final(evaluator)@.estimates, name@),
        ({
            let e = value_of(final(evaluator)@.estimates, name@);
            &&& e.mean.bits == computed.mean.bits
            &&& e.stderr.bits == computed.stderr.bits
            &&& e.error.bits == computed.stderr.bits
            &&& e.bins == computed.bins.len()
            &&& e.rebin_count == computed.bins.len()
            &&& e.bin_length == common.internal_bin_length
            &&& e.internal_bin_len == common.internal_bin_length
            &&& e.rebin_len == common.rebin_length
        }),
        final(evaluator)@.binned == old(evaluator)@.binned,
        forall|e: (Seq<char>, Estimate)|
            e.0 != name@ ==> (#[trigger] final(evaluator)@.estimates.contains(e) <==> old(
                evaluator,
            )@.estimates.contains(e)),
{
    let after = final(evaluator)@.estimates;
    let e = derived_estimate(common, computed.mean, computed.stderr, computed.bins@);
    assert(after.contains((name@, e)));
    let place = choose|place: int| 0 <= place < after.len() && after[place] == (name@, e);
    lemma_ascending_distinct(after);
    crate::catalog::lemma_value_of(after, place);
}

/// Ingredients have something in common exactly if at least one is named and each of them is
/// measured with bins. What they have in common is not more than any of them has, and some
/// ingredient has just that.
pub proof fn law_ingredients(
    evaluator: Evaluator,
    names: Vec<String>,
    common: Option<Ingredients>,
)
    requires
        call_ensures(Evaluator::ingredients, (&evaluator, &names), common),
    ensures
        common is Some <==> names@.len() > 0 && forall|i: int|
            0 <= i < names@.len() ==> has_name(evaluator@.binned, (#[trigger] names@[i])@)
                && value_of(evaluator@.binned, names@[i]@).bins.len() > 0,
        common matches Some(c) ==> forall|i: int|
            0 <= i < names@.len() ==> ({
                let e = value_of(evaluator@.binned, (#[trigger] names@[i])@);
                &&& c.internal_bin_length <= e.internal_bin_length
                &&& c.rebin_length <= e.rebin_length
                &&& c.rebin_count <= e.bins.len()
            }),
        common matches Some(c) ==> {
            &&& exists|i: int|
                0 <= i < names@.len() && c.internal_bin_length == value_of(
                    evaluator@.binned,
                    (#[trigger] names@[i])@,
                ).internal_bin_length
            &&& exists|i: int|
                0 <= i < names@.len() && c.rebin_length == value_of(
                    evaluator@.binned,
                    (#[trigger] names@[i])@,
                ).rebin_length
            &&& exists|i: int|
                0 <= i < names@.len() && c.rebin_count == value_of(
                    evaluator@.binned,
                    (#[trigger] names@[i])@,
                ).bins.len()
        },
{
    let listed = texts(names@);
    let binned = evaluator@.binned;
    assert forall|i: int| 0 <= i < names@.len() implies #[trigger] listed[i] == names@[i]@ by {}
    match common {
        Some(c) => {
            assert forall|i: int| 0 <= i < names@.len() implies ({
                let e = value_of(binned, (#[trigger] names@[i])@);
                &&& has_name(binned, names@[i]@)
                &&& c.internal_bin_length <= e.internal_bin_length
                &&& c.rebin_length <= e.rebin_length
                &&& c.rebin_count <= e.bins.len()
            }) by {
                assert(listed[i] == names@[i]@);
            }
            if names@.len() > 0 {
                let a = choose|i: int|
                    0 <= i < listed.len() && c.internal_bin_length as nat == value_of(
                        binned,
                        #[trigger] listed[i],
                    ).internal_bin_length as nat;
                assert(names@[a]@ == listed[a]);
                let b = choose|i: int|
                    0 <= i < listed.len() && c.rebin_length as nat == value_of(
                        binned,
                        #[trigger] listed[i],
                    ).rebin_length as nat;
                assert(names@[b]@ == listed[b]);
                let d = choose|i: int|
                    0 <= i < listed.len() && c.rebin_count as nat == value_of(
                        binned,
                        #[trigger] listed[i],
                    ).bins.len();
                assert(names@[d]@ == listed[d]);
            }
        },
        None => {
            if names@.len() > 0 {
                let i = choose|i: int|
                    0 <= i < names@.len() && (!has_name(binned, #[trigger] listed[i]) || value_of(
                        binned,
                        listed[i],
                    ).bins.len() == 0);
                assert(listed[i] == names@[i]@);
            }
        },
    }
}

/// What is said of a binned estimate is what stands in its fields, and the other estimates are
/// plain values.
pub proof fn law_estimates_show_their_fields(
    binned: BinnedEstimate,
    estimate: Estimate,
    scalar: ScalarEstimate,
)
    ensures
        binned@.mean == binned.mean,
        binned@.stderr == binned.stderr,
        binned@.bins == binned.bins@,
        binned@.internal_bins == binned.internal_bins@,
        binned@.internal_bin_length == binned.internal_bin_length,
        binned@.rebin_length == binned.rebin_length,
        estimate@ == estimate,
        scalar@ == scalar,
{
}

/// An evaluator holds what it is made of: a measured estimate is found under its name, and the
/// estimates that it gives back are those that it was given until others are recorded.
pub proof fn law_evaluators_hold_estimates(
    binned: Catalog<BinnedEstimate>,
    estimates: Catalog<Estimate>,
    evaluator: Evaluator,
    name: &str,
    found: Option<&BinnedEstimate>,
    given: Catalog<Estimate>,
)
    requires
        call_ensures(Evaluator::new, (binned, estimates), evaluator),
        call_ensures(Evaluator::measured, (&evaluator, name), found),
        call_ensures(Evaluator::into_estimates, (evaluator,), given),
    ensures
        found is Some <==> has_name(binned@, name@),
        found matches Some(e) ==> e@ == value_of(binned@, name@),
        given@ == estimates@,
{
}

} // verus!
