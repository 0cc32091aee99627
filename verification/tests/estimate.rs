use carlo_mc::estimate::{bin_grouping, rebin_length, sample_grouping, valid_estimate, Averages};
use carlo_mc::{
    carlo_rebin_count, carlo_rebin_length, default_estimates, BinnedEstimate, Catalog, Estimate,
    Evaluator, Real, ResultEstimate, ScalarEstimate,
};

fn number(value: f64) -> Real {
    Real { bits: value.to_bits() }
}

fn float(value: Real) -> f64 {
    f64::from_bits(value.bits)
}

fn mean(values: &[f64]) -> f64 {
    values.iter().sum::<f64>() / values.len() as f64
}

fn std_of_mean(bins: &[f64]) -> f64 {
    if bins.len() <= 1 {
        return f64::NAN;
    }
    let average = mean(bins);
    let variance = bins.iter().map(|value| (value - average).powi(2)).sum::<f64>()
        / (bins.len() - 1) as f64;
    variance.sqrt() / (bins.len() as f64).sqrt()
}

fn averages(internal_bins: &[f64], internal_bin_length: usize) -> Result<Averages, String> {
    let grouping = bin_grouping(internal_bins.len(), internal_bin_length)?;
    let bins: Vec<f64> = internal_bins
        .chunks_exact(grouping.length)
        .map(mean)
        .collect();
    assert_eq!(bins.len(), grouping.count);
    Ok(Averages {
        mean: number(mean(&bins)),
        stderr: number(std_of_mean(&bins)),
        bins: bins.into_iter().map(number).collect(),
    })
}

fn from_internal_bins(bins: Vec<f64>, internal_bin_length: usize) -> Result<BinnedEstimate, String> {
    let averages = averages(&bins, internal_bin_length)?;
    BinnedEstimate::from_internal_bins(
        bins.into_iter().map(number).collect(),
        internal_bin_length,
        averages,
    )
}

fn from_samples(samples: &[f64], internal_bin_length: usize) -> Result<BinnedEstimate, String> {
    let grouping = sample_grouping(samples.len(), internal_bin_length)?;
    let bins: Vec<f64> = samples.chunks_exact(grouping.length).map(mean).collect();
    assert_eq!(bins.len(), grouping.count);
    from_internal_bins(bins, internal_bin_length)
}

fn evaluate<const N: usize, F: Fn([f64; N]) -> f64>(
    evaluator: &mut Evaluator,
    name: &str,
    ingredients: [&str; N],
    evaluation: F,
) {
    let names: Vec<String> = ingredients.iter().map(|name| name.to_string()).collect();
    let common = match evaluator.ingredients(&names) {
        Some(common) => common,
        None => return,
    };
    let n = common.rebin_count;
    let bins: Vec<Vec<f64>> = ingredients
        .iter()
        .map(|name| {
            let bins = &evaluator.measured(name).unwrap().bins;
            bins[..n].iter().map(|value| float(*value)).collect()
        })
        .collect();
    let sums: [f64; N] = std::array::from_fn(|i| bins[i].iter().sum::<f64>());
    let complete = evaluation(std::array::from_fn(|i| sums[i] / n as f64));
    if n <= 1 {
        let computed = Averages {
            mean: number(complete),
            stderr: number(f64::NAN),
            bins: vec![number(complete)],
        };
        evaluator.record(name, common, computed);
        return;
    }
    let jacked: Vec<f64> = (0..n)
        .map(|k| evaluation(std::array::from_fn(|i| (sums[i] - bins[i][k]) / (n - 1) as f64)))
        .collect();
    let jacked_mean = mean(&jacked);
    let error = jacked.iter().map(|value| (value - jacked_mean).powi(2)).sum::<f64>();
    let computed = Averages {
        mean: number(n as f64 * complete - (n - 1) as f64 * jacked_mean),
        stderr: number((((n - 1) as f64) * error / n as f64).sqrt()),
        bins: jacked.into_iter().map(number).collect(),
    };
    evaluator.record(name, common, computed);
}

#[test]
fn rebin_matches_carlo_convention() {
    assert_eq!(carlo_rebin_count(0), 1);
    assert_eq!(carlo_rebin_count(10), 10);
    assert_eq!(carlo_rebin_length(64), carlo_rebin_length(64));
    assert_eq!(
        from_internal_bins(vec![1.0], 1).unwrap().rebin_length,
        1
    );
}

#[test]
fn derived_observables_use_jackknife() {
    let mut binned = Catalog::new();
    let mut estimates = Catalog::new();
    for (name, samples) in [
        ("Energy", [1.0, 3.0, 5.0, 7.0]),
        ("EnergySquared", [1.0, 9.0, 25.0, 49.0]),
        ("MagnetizationSquared", [0.25, 0.49, 0.81, 1.0]),
    ] {
        let estimate = from_samples(&samples, 2).unwrap();
        estimates.insert(
            name.to_string(),
            Estimate::from_binned(&estimate, estimate.internal_bin_length),
        );
        binned.insert(name.to_string(), estimate);
    }
    let mut evaluator = Evaluator::new(binned, estimates);
    evaluate(&mut evaluator, "Magnetization", ["MagnetizationSquared"], |[mag2]| mag2.sqrt());
    evaluate(&mut evaluator, "Chi", ["MagnetizationSquared"], |[mag2]| 2.0 * 8.0 * mag2);
    evaluate(
        &mut evaluator,
        "SpecificHeat",
        ["EnergySquared", "Energy"],
        |[energy2, energy]| 2.0 * 2.0 * 8.0 * (energy2 - energy * energy),
    );
    evaluate(&mut evaluator, "Missing", ["Energy", "Nothing"], |[a, b]| a + b);
    let estimates = evaluator.into_estimates();
    let value = |name: &str| float(estimates.get(name).unwrap().mean);
    assert!((value("Magnetization") - 0.817076375991209).abs() < 1e-12);
    assert!((value("Chi") - 10.2).abs() < 1e-12);
    assert!((value("SpecificHeat") - 288.0).abs() < 1e-12);
    assert!(!estimates.contains("Missing"));
    assert_eq!(estimates.len(), 6);
    let chi = estimates.get("Chi").unwrap();
    assert_eq!((chi.bins, chi.rebin_count, chi.bin_length), (2, 2, 2));
    assert!(chi.valid());
}

#[test]
fn rebin_counts_grow_with_the_cube_root() {
    for (samples, count) in [
        (1, 1),
        (9, 9),
        (10, 10),
        (11, 11),
        (13, 11),
        (14, 12),
        (18, 12),
        (25, 12),
        (26, 13),
        (37, 13),
        (64, 14),
        (1_000, 20),
        (1_010, 20),
        (1_000_010, 110),
    ] {
        assert_eq!(carlo_rebin_count(samples), count, "{samples}");
    }
    assert_eq!(carlo_rebin_length(0), 1);
    assert_eq!(carlo_rebin_length(10), 1);
    assert_eq!(carlo_rebin_length(64), 4);
    assert_eq!(carlo_rebin_length(1_000), 50);
}

#[test]
fn rebin_counts_agree_with_the_rounded_root() {
    for samples in (11..20_000).chain([1 << 20, 1 << 31, 1 << 40]) {
        let root = ((samples - 10) as f64).cbrt().round() as usize;
        assert_eq!(carlo_rebin_count(samples), 10 + root, "{samples}");
        assert_eq!(carlo_rebin_length(samples), (samples / (10 + root)).max(1));
        assert_eq!(rebin_length(samples), carlo_rebin_length(samples));
    }
}

#[test]
fn groupings_leave_out_incomplete_groups() {
    let grouping = sample_grouping(7, 2).unwrap();
    assert_eq!((grouping.length, grouping.count), (2, 3));
    assert_eq!(sample_grouping(7, 0).unwrap_err(), "binsize must be positive");
    assert_eq!(
        sample_grouping(1, 2).unwrap_err(),
        "binsize is larger than the sample series"
    );
    let grouping = bin_grouping(64, 3).unwrap();
    assert_eq!((grouping.length, grouping.count), (4, 16));
    assert_eq!(bin_grouping(3, 0).unwrap_err(), "binsize must be positive");
    assert_eq!(
        bin_grouping(0, 1).unwrap_err(),
        "binsize is larger than the sample series"
    );
}

#[test]
fn binned_estimates_carry_the_computed_numbers() {
    let estimate = from_samples(&[1.0, 3.0, 5.0, 7.0, 100.0], 2).unwrap();
    assert_eq!(estimate.internal_bins, vec![number(2.0), number(6.0)]);
    assert_eq!(estimate.bins, vec![number(2.0), number(6.0)]);
    assert_eq!(estimate.mean, number(4.0));
    assert!((float(estimate.stderr) - 2.0).abs() < 1e-12);
    assert_eq!((estimate.internal_bin_length, estimate.rebin_length), (2, 1));
    let averages = Averages { bins: vec![], mean: number(0.0), stderr: number(0.0) };
    assert_eq!(
        BinnedEstimate::from_internal_bins(vec![], 1, averages).unwrap_err(),
        "binsize is larger than the sample series"
    );
    let averages = Averages { bins: vec![], mean: number(0.0), stderr: number(0.0) };
    assert_eq!(
        BinnedEstimate::from_internal_bins(vec![number(1.0)], 0, averages).unwrap_err(),
        "binsize must be positive"
    );
}

#[test]
fn estimates_are_valid_or_not() {
    let binned = from_samples(&[1.0, 3.0, 5.0, 7.0], 2).unwrap();
    let estimate = Estimate::from_binned(&binned, 2);
    assert_eq!(estimate.error, estimate.stderr);
    assert!(estimate.covariance.is_none());
    assert_eq!(estimate.autocorr_time, number(0.0));
    assert!(estimate.valid());
    assert!(!Estimate::from_binned(&binned, 3).valid());
    assert!(!Estimate { mean: number(f64::INFINITY), ..estimate }.valid());
    assert!(Estimate { mean: number(f64::NAN), ..estimate }.valid());
    assert!(!Estimate { error: number(-1.0), ..estimate }.valid());
    assert!(!Estimate { stderr: number(f64::NAN), ..estimate }.valid());
    assert!(!Estimate { rebin_len: 0, ..estimate }.valid());
    let one = from_samples(&[1.0, 3.0], 2).unwrap();
    assert!(Estimate::from_binned(&one, 2).valid());
}

#[test]
fn scalar_estimates_of_binned_ones_are_valid() {
    for bins in [1, 2, 10, 64, 1_000] {
        let values: Vec<f64> = (0..bins).map(|i| (i as f64).sin()).collect();
        let binned = from_internal_bins(values, 3).unwrap();
        let scalar = ScalarEstimate::from_binned(&binned, 3);
        assert!(valid_estimate(&scalar), "{bins}");
        assert_eq!(scalar.internal_bins, bins);
        assert!(Estimate::from(scalar).valid());
        assert!(!valid_estimate(&ScalarEstimate { bin_length: 0, ..scalar }));
        assert!(!valid_estimate(&ScalarEstimate { rebin_count: bins + 1, ..scalar }));
    }
}

#[test]
fn default_estimates_use_the_told_bin_lengths() {
    let mut binned = Catalog::new();
    binned.insert("a".to_string(), from_internal_bins(vec![1.0, 2.0], 4).unwrap());
    binned.insert("b".to_string(), from_internal_bins(vec![3.0], 1).unwrap());
    let mut lengths = Catalog::new();
    lengths.insert("a".to_string(), 4);
    let estimates = default_estimates(&binned, &lengths);
    assert_eq!(estimates.len(), 2);
    assert_eq!(estimates.get("a").unwrap().bin_length, 4);
    assert_eq!(estimates.get("a").unwrap().mean, number(1.5));
    assert_eq!(estimates.get("b").unwrap().bin_length, 1);
    assert!(estimates.get("b").unwrap().stderr.is_nan());
}

#[test]
fn estimates_widen_with_their_own_bin_length() {
    let binned = from_internal_bins(vec![1.0, 2.0, 4.0], 5).unwrap();
    let estimate = Estimate::from(&binned);
    assert_eq!(estimate, Estimate::from_binned(&binned, 5));
    assert_eq!((estimate.bin_length, estimate.internal_bin_len), (5, 5));
    assert_eq!(Estimate::from(ScalarEstimate::from_binned(&binned, 5)), estimate);
    assert_eq!(binned, binned.clone());
    assert_ne!(binned, from_internal_bins(vec![1.0, 2.0, 5.0], 5).unwrap());
}
