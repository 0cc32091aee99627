use carlo_mc::{Catalog, CompactAccumulator, Context, GenericJobError, Real, Sample};

fn number(value: f64) -> Real {
    Real { bits: value.to_bits() }
}

fn sample(context: &Context, name: &str, value: f64, binsize: usize) -> Sample {
    let sum = f64::from_bits(context.pending_sum(name).bits) + value;
    Sample {
        value: number(value),
        sum: number(sum),
        average: number(sum / binsize as f64),
    }
}

fn measure(context: &mut Context, name: &str, value: f64) -> Result<(), GenericJobError> {
    let sample = sample(context, name, value, context.default_binsize());
    context.measure(name, sample)
}

fn measure_with(
    context: &mut Context,
    name: &str,
    value: f64,
    binsize: usize,
) -> Result<(), GenericJobError> {
    let sample = sample(context, name, value, binsize);
    context.measure_with_binsize(name, sample, binsize)
}

fn reason(result: Result<(), GenericJobError>) -> (String, &'static str) {
    match result {
        Err(GenericJobError::InvalidMeasurement { observable, reason }) => (observable, reason),
        _ => panic!("the sample was accepted"),
    }
}

#[test]
fn measurement_validation() {
    let mut c = Context::fresh(0, 2);
    assert!(measure(&mut c, "", 1.).is_err());
    assert!(measure(&mut c, "x", f64::NAN).is_err());
    measure(&mut c, "x", 1.).unwrap();
    measure(&mut c, "x", 3.).unwrap();
    assert_eq!(c.observables().get("x").unwrap().internal_bins, vec![number(2.)]);
    assert!(measure(&mut c, "overflow", f64::MAX).is_ok());
    assert!(measure(&mut c, "overflow", f64::MAX).is_err());
    assert!(c.observables().get("overflow").unwrap().pending_sum.is_finite());
    assert_eq!(c.observables().get("overflow").unwrap().total_count, 1);
}

#[test]
fn refused_samples_say_why() {
    let mut c = Context::fresh(0, 2);
    assert_eq!(
        reason(measure(&mut c, "", 1.)),
        (String::new(), "name/value/bin size invalid")
    );
    assert_eq!(
        reason(measure(&mut c, "x", f64::INFINITY)),
        ("x".to_owned(), "name/value/bin size invalid")
    );
    assert_eq!(
        reason(measure_with(&mut c, "x", 1., 0)),
        ("x".to_owned(), "name/value/bin size invalid")
    );
    assert_eq!(c.observables().len(), 0);
    measure(&mut c, "x", 1.).unwrap();
    assert_eq!(
        reason(measure_with(&mut c, "x", 1., 3)),
        ("x".to_owned(), "bin size changed")
    );
    measure(&mut c, "y", f64::MAX).unwrap();
    assert_eq!(
        reason(measure(&mut c, "y", f64::MAX)),
        ("y".to_owned(), "observable accumulation overflowed")
    );
    assert_eq!(c.pending_sum("y"), number(f64::MAX));
}

#[test]
fn bins_fill_and_leave_their_average() {
    let mut c = Context::fresh(0, 1);
    for value in 1..=7 {
        measure_with(&mut c, "x", f64::from(value), 3).unwrap();
    }
    measure(&mut c, "a", -0.5).unwrap();
    assert_eq!(c.raw_bins("x").unwrap(), [number(2.), number(5.)]);
    assert_eq!(c.bin_length("x"), Some(3));
    assert_eq!(c.raw_bins("a").unwrap(), [number(-0.5)]);
    assert_eq!(c.bin_length("a"), Some(1));
    assert!(c.raw_bins("none").is_none());
    assert_eq!(c.bin_length("none"), None);
    let x = c.observables().get("x").unwrap();
    assert_eq!((x.pending_count, x.total_count, x.binsize), (1, 7, 3));
    assert_eq!(x.pending_sum, number(7.));
    assert_eq!(c.observables().name_at(0), "a");
    assert_eq!(c.observables().name_at(1), "x");
}

#[test]
fn contexts_are_restored_as_they_were() {
    let mut observables = Catalog::new();
    observables.insert(
        "v".to_owned(),
        CompactAccumulator {
            internal_bins: vec![number(1.5)],
            pending_sum: number(2.5),
            pending_count: 1,
            total_count: 3,
            binsize: 2,
        },
    );
    let mut fresh = Context::fresh(9, 2);
    assert!(!fresh.is_thermalized());
    assert_eq!(fresh.rng_position(), 0);
    for _ in 0..5 {
        let _ = fresh.rng.try_next_u64();
    }
    let mut c = Context::restored(9, 5, 2, observables, true);
    assert!(c.is_thermalized());
    assert_eq!(c.rng_position(), 5);
    assert_eq!(c.rng.try_next_u64(), fresh.rng.try_next_u64());
    measure(&mut c, "v", 3.5).unwrap();
    assert_eq!(c.raw_bins("v").unwrap(), [number(1.5), number(3.)]);
    assert!(c.pending_sum("v").is_zero());
}

#[test]
fn numbers_are_classified_by_their_bits() {
    for value in [
        0.0,
        -0.0,
        1.0,
        -1.0,
        f64::MAX,
        f64::MIN_POSITIVE,
        f64::INFINITY,
        f64::NEG_INFINITY,
        f64::NAN,
        -f64::NAN,
    ] {
        let given = number(value);
        assert_eq!(given.is_finite(), value.is_finite(), "{value}");
        assert_eq!(given.is_nan(), value.is_nan(), "{value}");
        assert_eq!(given.is_zero(), value == 0.0, "{value}");
        assert_eq!(given.is_nonnegative(), value >= 0.0, "{value}");
        for other in [0.0, -0.0, 1.0, f64::NAN, f64::INFINITY] {
            assert_eq!(given == number(other), value == other, "{value} {other}");
        }
    }
    assert_eq!(Real::nought().bits, 0);
}

#[test]
fn catalogs_keep_their_names_in_order() {
    let mut catalog: Catalog<usize> = Catalog::new();
    for (name, value) in [("b", 2), ("", 0), ("a\u{10FFFF}", 4), ("a", 1), ("ab", 3)] {
        assert!(catalog.insert(name.to_owned(), value).is_none());
    }
    assert_eq!(catalog.insert("a".to_owned(), 7), Some(1));
    let mut names: Vec<&str> = (0..catalog.len()).map(|i| catalog.name_at(i).as_str()).collect();
    let listed = names.clone();
    names.sort();
    assert_eq!(listed, names);
    assert_eq!(catalog.get("a"), Some(&7));
    assert_eq!(*catalog.value_at(0), 0);
    assert_eq!(catalog.remove("b"), Some(2));
    assert_eq!(catalog.remove("b"), None);
    assert!(!catalog.contains("b"));
    assert!(catalog.contains("ab"));
    assert_eq!(catalog.len(), 4);
}
