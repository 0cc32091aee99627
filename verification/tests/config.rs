use carlo_mc::{Number, Params, ParamsError};

const DOCUMENT: &str = r#"
name = "ising"
sweeps = 1000
offset = -3
beta = 0.5
periodic = true
started = 2024-01-01
sizes = [4, 8, 16]
temperatures = [1, 2.5]
labels = ["a", "b"]
mixed = [1, "b"]
negative = [1, -1]

[lattice]
kind = "square"
"#;

fn type_of(error: ParamsError) -> (String, &'static str) {
    match error {
        ParamsError::Type { key, expected } => (key, expected),
        ParamsError::Parse { message } => panic!("{message}"),
    }
}

fn float(number: Number) -> f64 {
    match number {
        Number::Float(value) => f64::from_bits(value.bits),
        Number::Integer(value) => value as f64,
    }
}

#[test]
fn values_are_found_under_their_keys() {
    let params = Params::parse(DOCUMENT).unwrap();
    assert!(params.contains("name"));
    assert!(!params.contains("kind"));
    assert_eq!(params.get_str("name").unwrap().unwrap(), "ising");
    assert_eq!(params.get_usize("sweeps").unwrap(), Some(1000));
    assert_eq!(params.get_i64("offset").unwrap(), Some(-3));
    assert_eq!(params.get_bool("periodic").unwrap(), Some(true));
    assert_eq!(params.get_f64("beta").unwrap().map(float), Some(0.5));
    assert_eq!(params.get_f64("sweeps").unwrap().map(float), Some(1000.0));
    assert_eq!(params.get_array_usize("sizes").unwrap().unwrap(), [4, 8, 16]);
    assert_eq!(params.get_array_i64("negative").unwrap().unwrap(), [1, -1]);
    assert_eq!(params.get_array_str("labels").unwrap().unwrap(), ["a", "b"]);
    let temperatures: Vec<f64> = params
        .get_array_f64("temperatures")
        .unwrap()
        .unwrap()
        .into_iter()
        .map(float)
        .collect();
    assert_eq!(temperatures, [1.0, 2.5]);
    let lattice = params.get_table("lattice").unwrap().unwrap();
    assert_eq!(lattice.get_str("kind").unwrap().unwrap(), "square");
    assert_eq!(params.get("offset"), Some(&toml::Value::Integer(-3)));
    assert!(params.get("started").unwrap().is_datetime());
}

#[test]
fn missing_keys_are_no_error() {
    let params = Params::new();
    assert!(params.get("x").is_none());
    assert!(params.get_str("x").unwrap().is_none());
    assert!(params.get_bool("x").unwrap().is_none());
    assert!(params.get_i64("x").unwrap().is_none());
    assert!(params.get_usize("x").unwrap().is_none());
    assert!(params.get_f64("x").unwrap().is_none());
    assert!(params.get_table("x").unwrap().is_none());
    assert!(params.get_array_str("x").unwrap().is_none());
    assert!(params.get_array_f64("x").unwrap().is_none());
    assert!(params.get_array_i64("x").unwrap().is_none());
    assert!(params.get_array_usize("x").unwrap().is_none());
}

#[test]
fn other_types_are_refused_with_the_key() {
    let params = Params::parse(DOCUMENT).unwrap();
    let key = |name: &str, expected| (name.to_string(), expected);
    assert_eq!(type_of(params.get_str("sweeps").unwrap_err()), key("sweeps", "string"));
    assert_eq!(type_of(params.get_bool("name").unwrap_err()), key("name", "boolean"));
    assert_eq!(type_of(params.get_i64("beta").unwrap_err()), key("beta", "integer"));
    assert_eq!(type_of(params.get_usize("beta").unwrap_err()), key("beta", "integer"));
    assert_eq!(
        type_of(params.get_usize("offset").unwrap_err()),
        key("offset", "non-negative integer")
    );
    assert_eq!(type_of(params.get_f64("name").unwrap_err()), key("name", "float"));
    assert_eq!(type_of(params.get_table("name").unwrap_err()), key("name", "table"));
    for name in ["mixed", "name", "sizes"] {
        assert_eq!(
            type_of(params.get_array_str(name).unwrap_err()),
            key(name, "array of strings")
        );
    }
    for name in ["mixed", "beta"] {
        assert_eq!(
            type_of(params.get_array_f64(name).unwrap_err()),
            key(name, "array of floats")
        );
    }
    for name in ["temperatures", "sweeps"] {
        assert_eq!(
            type_of(params.get_array_i64(name).unwrap_err()),
            key(name, "array of integers")
        );
        assert_eq!(
            type_of(params.get_array_usize(name).unwrap_err()),
            key(name, "array of integers")
        );
    }
    assert_eq!(
        type_of(params.get_array_usize("negative").unwrap_err()),
        key("negative", "array of non-negative integers")
    );
    assert_eq!(
        params.get_f64("name").unwrap_err().message(),
        "config key `name` must be a float"
    );
}

#[test]
fn documents_that_do_not_parse_are_refused() {
    match Params::parse("name = ") {
        Err(error @ ParamsError::Parse { .. }) => {
            let reason = "name = ".parse::<toml::Table>().unwrap_err();
            assert_eq!(error.message(), format!("failed to parse config: {reason}"));
        }
        _ => panic!("accepted a document without a value"),
    }
    assert!("a = 1\na = 2".parse::<Params>().is_err());
    assert_eq!(
        "a = 1".parse::<Params>().unwrap().get_i64("a").unwrap(),
        Some(1)
    );
}

#[test]
fn tables_go_in_and_out() {
    let mut table = toml::Table::new();
    table.insert("x".to_string(), toml::Value::Boolean(true));
    let params = Params::from_table(table.clone());
    assert_eq!(params.as_table(), &table);
    assert_eq!(params.clone().get_bool("x").unwrap(), Some(true));
    assert_eq!(params.into_table(), table);
    assert_eq!(Params::default().into_table(), toml::Table::new());
}

#[test]
fn tables_and_errors_compare() {
    let params = Params::parse("a = 1").unwrap();
    assert_eq!(params, params.clone());
    assert_ne!(params, Params::parse("a = 2").unwrap());
    let error = params.get_str("a").unwrap_err();
    assert_eq!(error, error.clone());
    assert_ne!(error, Params::parse("a = ").unwrap_err());
}
