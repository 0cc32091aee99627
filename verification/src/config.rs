//! Configuration tables: typed access to the values of a TOML document.
//!
//! The `toml` crate parses documents and stores tables. A table is known here by the values
//! under its keys, and a value by what it is: a text, a number, an array and so on.

use crate::number::Real;
use vstd::prelude::*;

verus! {

/// A configuration table, `toml::Table`, which is a `toml::map::Map`.
#[verifier::external_type_specification]
#[verifier::external_body]
#[verifier::reject_recursive_types(K)]
#[verifier::reject_recursive_types(V)]
pub struct ExTable<K, V>(toml::map::Map<K, V>);

/// A configuration value, `toml::Value`.
#[verifier::external_type_specification]
#[verifier::external_body]
pub struct ExTomlValue(toml::Value);

/// Why a document is no table, `toml::de::Error`.
#[verifier::external_type_specification]
#[verifier::external_body]
pub struct ExTomlError(toml::de::Error);

/// What a configuration value is.
pub enum ValueView {
    Text(Seq<char>),
    Integer(i64),
    Float(Real),
    Boolean(bool),
    Datetime,
    Array(Seq<toml::Value>),
    Table(Map<Seq<char>, toml::Value>),
}

/// The values of a table, under their keys.
pub uninterp spec fn table_entries(table: toml::Table) -> Map<Seq<char>, toml::Value>;

/// What a value is.
pub uninterp spec fn value_view(value: toml::Value) -> ValueView;

/// The values of a TOML document, under their keys, or what the error says if the text is no such
/// document.
pub uninterp spec fn document_entries(text: Seq<char>) -> Result<
    Map<Seq<char>, toml::Value>,
    Seq<char>,
>;

/// What an error says.
pub uninterp spec fn toml_error_words(error: toml::de::Error) -> Seq<char>;

/// The values of a table with nothing in it.
pub open spec fn no_entries() -> Map<Seq<char>, toml::Value> {
    Map::empty()
}

/// A configuration value, taken apart.
pub enum Setting<'a> {
    Text(&'a String),
    Integer(i64),
    Float(Real),
    Boolean(bool),
    Datetime,
    Array(&'a Vec<toml::Value>),
    Table(&'a toml::Table),
}

/// Whether a value taken apart is the value.
pub open spec fn is_setting(setting: Setting, view: ValueView) -> bool {
    match setting {
        Setting::Text(text) => view == ValueView::Text(text@),
        Setting::Integer(number) => view == ValueView::Integer(number),
        Setting::Float(number) => view == ValueView::Float(number),
        Setting::Boolean(flag) => view == ValueView::Boolean(flag),
        Setting::Datetime => view is Datetime,
        Setting::Array(values) => view == ValueView::Array(values@),
        Setting::Table(table) => view == ValueView::Table(table_entries(*table)),
    }
}

/// `toml::Table::new` makes a table with nothing in it.
#[verifier::external_body]
fn empty_table() -> (table: toml::Table)
    ensures
        table_entries(table) == no_entries(),
{
    toml::Table::new()
}

/// `toml::Table::clone` copies a table with all its values.
#[verifier::external_body]
fn clone_table(table: &toml::Table) -> (copy: toml::Table)
    ensures
        table_entries(copy) == table_entries(*table),
{
    table.clone()
}

/// `toml::Table::get` finds the value under a key.
#[verifier::external_body]
fn table_get<'a>(table: &'a toml::Table, key: &str) -> (value: Option<&'a toml::Value>)
    ensures
        match value {
            Some(v) => table_entries(*table).contains_key(key@) && table_entries(*table)[key@]
                == *v,
            None => !table_entries(*table).contains_key(key@),
        },
{
    table.get(key)
}

/// The variants of `toml::Value` tell what a value is.
#[verifier::external_body]
fn take_apart<'a>(value: &'a toml::Value) -> (setting: Setting<'a>)
    ensures
        is_setting(setting, value_view(*value)),
{
    match value {
        toml::Value::String(text) => Setting::Text(text),
        toml::Value::Integer(number) => Setting::Integer(*number),
        toml::Value::Float(number) => Setting::Float(Real { bits: number.to_bits() }),
        toml::Value::Boolean(flag) => Setting::Boolean(*flag),
        toml::Value::Datetime(_) => Setting::Datetime,
        toml::Value::Array(values) => Setting::Array(values),
        toml::Value::Table(table) => Setting::Table(table),
    }
}

/// The `Display` format of `toml::de::Error` says what went wrong.
#[verifier::external_body]
fn toml_error_text(error: &toml::de::Error) -> (text: String)
    ensures
        text@ == toml_error_words(*error),
{
    error.to_string()
}

/// `toml::from_str` parses a document into a table.
#[verifier::external_body]
fn parse_table(text: &str) -> (table: Result<toml::Table, toml::de::Error>)
    ensures
        match table {
            Ok(t) => document_entries(text@) matches Ok(entries) && entries == table_entries(t),
            Err(e) => document_entries(text@) matches Err(words) && words == toml_error_words(e),
        },
{
    toml::from_str(text)
}

/// Error returned by [`Params`] accessors and parsing.
#[derive(Debug, Clone, PartialEq, Eq)]
pub enum ParamsError {
    /// The document could not be parsed as a TOML table.
    Parse { message: String },
    /// A value under `key` had a different type than `expected`.
    Type { key: String, expected: &'static str },
}

/// Whether an error says that the value under `key` is not what was expected.
pub open spec fn is_type_error(error: ParamsError, key: Seq<char>, expected: Seq<char>) -> bool {
    error matches ParamsError::Type { key: k, expected: e } && k@ == key && e@ == expected
}

/// Builds the error for a value of another type.
fn type_error(key: &str, expected: &'static str) -> (error: ParamsError)
    ensures
        is_type_error(error, key@, expected@),
{
    ParamsError::Type { key: key.to_owned(), expected }
}

impl ParamsError {
    /// What went wrong.
    pub fn message(&self) -> (text: String)
        ensures
            text@ == match self {
                ParamsError::Parse { message } => "failed to parse config: "@ + message@,
                ParamsError::Type { key, expected } => "config key `"@ + key@ + "` must be a "@
                    + expected@,
            },
    {
        match self {
            ParamsError::Parse { message } => "failed to parse config: ".to_owned().concat(
                message.as_str(),
            ),
            ParamsError::Type { key, expected } => "config key `".to_owned().concat(
                key.as_str(),
            ).concat("` must be a ").concat(expected),
        }
    }
}

/// A configuration number: a float, or an integer that the caller widens to one.
#[derive(Debug, Clone, Copy)]
pub enum Number {
    Float(Real),
    Integer(i64),
}

/// A parsed, read-only configuration table.
///
/// `Params` is the generic configuration layer shared by models that want a common way to turn a
/// TOML document (or any nested table of values) into a list of tasks. Typed accessors such as
/// [`Params::get_f64`] and [`Params::get_usize`] validate the value shape and return
/// [`ParamsError`] on a type mismatch, so configuration errors surface early with a clear key
/// name.
#[derive(Debug, PartialEq)]
pub struct Params {
    table: toml::Table,
}

impl View for Params {
    type V = Map<Seq<char>, toml::Value>;

    closed spec fn view(&self) -> Map<Seq<char>, toml::Value> {
        table_entries(self.table)
    }
}

/// What stands under a key, if anything.
pub open spec fn setting_at(entries: Map<Seq<char>, toml::Value>, key: Seq<char>) -> Option<
    ValueView,
> {
    if entries.contains_key(key) {
        Some(value_view(entries[key]))
    } else {
        None
    }
}

/// Whether all elements of an array are texts.
pub open spec fn all_text(values: Seq<toml::Value>) -> bool {
    forall|i: int| 0 <= i < values.len() ==> value_view(#[trigger] values[i]) is Text
}

/// Whether all elements of an array are integers.
pub open spec fn all_integer(values: Seq<toml::Value>) -> bool {
    forall|i: int| 0 <= i < values.len() ==> value_view(#[trigger] values[i]) is Integer
}

/// Whether all elements of an array are integers that are counts.
pub open spec fn all_counts(values: Seq<toml::Value>) -> bool {
    forall|i: int|
        0 <= i < values.len() ==> (value_view(#[trigger] values[i]) matches ValueView::Integer(n)
            && 0 <= n <= usize::MAX)
}

/// Whether all elements of an array are numbers.
pub open spec fn all_number(values: Seq<toml::Value>) -> bool {
    forall|i: int| 0 <= i < values.len() ==> as_number(value_view(#[trigger] values[i])) is Some
}

/// The number that a value is.
pub open spec fn as_number(view: ValueView) -> Option<Number> {
    match view {
        ValueView::Float(number) => Some(Number::Float(number)),
        ValueView::Integer(number) => Some(Number::Integer(number)),
        _ => None,
    }
}

impl Clone for Params {
    fn clone(&self) -> (copy: Self)
        ensures
            copy@ == self@,
    {
        Params { table: clone_table(&self.table) }
    }
}

impl Default for Params {
    fn default() -> (params: Self)
        ensures
            params@ == no_entries(),
    {
        Params { table: empty_table() }
    }
}

impl core::str::FromStr for Params {
    type Err = ParamsError;

    fn from_str(text: &str) -> (params: Result<Self, Self::Err>)
        ensures
            match params {
                Ok(p) => document_entries(text@) == Ok::<_, Seq<char>>(p@),
                Err(e) => e matches ParamsError::Parse { message } && document_entries(text@)
                    == Err::<Map<Seq<char>, toml::Value>, _>(message@),
            },
    {
        Params::parse(text)
    }
}

impl Params {
    /// Creates an empty parameter table.
    pub fn new() -> (params: Self)
        ensures
            params@ == no_entries(),
    {
        Params { table: empty_table() }
    }

    /// Parses a TOML document into a `Params` table.
    ///
    /// The document must have a table (or table-array) at its root.
    pub fn parse(text: &str) -> (params: Result<Self, ParamsError>)
        ensures
            match params {
                Ok(p) => document_entries(text@) == Ok::<_, Seq<char>>(p@),
                Err(e) => e matches ParamsError::Parse { message } && document_entries(text@)
                    == Err::<Map<Seq<char>, toml::Value>, _>(message@),
            },
    {
        match parse_table(text) {
            Ok(table) => Ok(Params { table }),
            Err(error) => Err(ParamsError::Parse { message: toml_error_text(&error) }),
        }
    }

    /// Wraps an existing TOML table.
    pub fn from_table(table: toml::Table) -> (params: Self)
        ensures
            params@ == table_entries(table),
    {
        Params { table }
    }

    /// Returns the underlying TOML table.
    pub fn as_table(&self) -> (table: &toml::Table)
        ensures
            table_entries(*table) == self@,
    {
        &self.table
    }

    /// Consumes `self` and returns the underlying TOML table.
    pub fn into_table(self) -> (table: toml::Table)
        ensures
            table_entries(table) == self@,
    {
        self.table
    }

    /// Returns whether `key` exists in this table.
    pub fn contains(&self, key: &str) -> (found: bool)
        ensures
            found == self@.contains_key(key@),
    {
        table_get(&self.table, key).is_some()
    }

    /// Returns the raw value stored under `key`, if present.
    pub fn get(&self, key: &str) -> (value: Option<&toml::Value>)
        ensures
            match value {
                Some(v) => self@.contains_key(key@) && self@[key@] == *v,
                None => !self@.contains_key(key@),
            },
    {
        table_get(&self.table, key)
    }

    /// The value under a key, taken apart.
    fn setting(&self, key: &str) -> (setting: Option<Setting<'_>>)
        ensures
            match setting {
                Some(s) => setting_at(self@, key@) is Some && is_setting(
                    s,
                    setting_at(self@, key@)->0,
                ),
                None => setting_at(self@, key@) is None,
            },
    {
        match table_get(&self.table, key) {
            Some(value) => Some(take_apart(value)),
            None => None,
        }
    }

    /// Returns the nested table stored under `key`, if present.
    pub fn get_table(&self, key: &str) -> (table: Result<Option<Params>, ParamsError>)
        ensures
            match setting_at(self@, key@) {
                None => table matches Ok(None),
                Some(ValueView::Table(entries)) => table matches Ok(Some(p)) && p@ == entries,
                Some(_) => table matches Err(e) && is_type_error(e, key@, "table"@),
            },
    {
        match self.setting(key) {
            None => Ok(None),
            Some(Setting::Table(table)) => Ok(Some(Params::from_table(clone_table(table)))),
            Some(_) => Err(type_error(key, "table")),
        }
    }

    /// Returns the string stored under `key`, if present.
    pub fn get_str(&self, key: &str) -> (text: Result<Option<String>, ParamsError>)
        ensures
            match setting_at(self@, key@) {
                None => text matches Ok(None),
                Some(ValueView::Text(value)) => text matches Ok(Some(s)) && s@ == value,
                Some(_) => text matches Err(e) && is_type_error(e, key@, "string"@),
            },
    {
        match self.setting(key) {
            None => Ok(None),
            Some(Setting::Text(value)) => Ok(Some(value.clone())),
            Some(_) => Err(type_error(key, "string")),
        }
    }

    /// Returns the boolean stored under `key`, if present.
    pub fn get_bool(&self, key: &str) -> (flag: Result<Option<bool>, ParamsError>)
        ensures
            match setting_at(self@, key@) {
                None => flag matches Ok(None),
                Some(ValueView::Boolean(value)) => flag matches Ok(Some(b)) && b == value,
                Some(_) => flag matches Err(e) && is_type_error(e, key@, "boolean"@),
            },
    {
        match self.setting(key) {
            None => Ok(None),
            Some(Setting::Boolean(value)) => Ok(Some(value)),
            Some(_) => Err(type_error(key, "boolean")),
        }
    }

    /// Returns the signed integer stored under `key`, if present.
    pub fn get_i64(&self, key: &str) -> (number: Result<Option<i64>, ParamsError>)
        ensures
            match setting_at(self@, key@) {
                None => number matches Ok(None),
                Some(ValueView::Integer(value)) => number matches Ok(Some(n)) && n == value,
                Some(_) => number matches Err(e) && is_type_error(e, key@, "integer"@),
            },
    {
        match self.setting(key) {
            None => Ok(None),
            Some(Setting::Integer(value)) => Ok(Some(value)),
            Some(_) => Err(type_error(key, "integer")),
        }
    }

    /// Returns the non-negative integer stored under `key`, if present.
    pub fn get_usize(&self, key: &str) -> (number: Result<Option<usize>, ParamsError>)
        ensures
            match setting_at(self@, key@) {
                None => number matches Ok(None),
                Some(ValueView::Integer(value)) => if 0 <= value <= usize::MAX {
                    number matches Ok(Some(n)) && n == value
                } else {
                    number matches Err(e) && is_type_error(e, key@, "non-negative integer"@)
                },
                Some(_) => number matches Err(e) && is_type_error(e, key@, "integer"@),
            },
    {
        match self.get_i64(key)? {
            None => Ok(None),
            Some(value) => match count_of(value) {
                Some(count) => Ok(Some(count)),
                None => Err(type_error(key, "non-negative integer")),
            },
        }
    }

    /// Returns the number stored under `key`, if present.
    ///
    /// Integer values are accepted; the caller widens them to floats.
    pub fn get_f64(&self, key: &str) -> (number: Result<Option<Number>, ParamsError>)
        ensures
            match setting_at(self@, key@) {
                None => number matches Ok(None),
                Some(value) => match as_number(value) {
                    Some(n) => number matches Ok(Some(m)) && m == n,
                    None => number matches Err(e) && is_type_error(e, key@, "float"@),
                },
            },
    {
        match self.setting(key) {
            None => Ok(None),
            Some(Setting::Float(value)) => Ok(Some(Number::Float(value))),
            Some(Setting::Integer(value)) => Ok(Some(Number::Integer(value))),
            Some(_) => Err(type_error(key, "float")),
        }
    }

    /// Returns the array of strings stored under `key`, if present.
    pub fn get_array_str(&self, key: &str) -> (array: Result<Option<Vec<String>>, ParamsError>)
        ensures
            match setting_at(self@, key@) {
                None => array matches Ok(None),
                Some(ValueView::Array(values)) => if all_text(values) {
                    array matches Ok(Some(v)) && v@.len() == values.len() && forall|i: int|
                        0 <= i < v@.len() ==> value_view(values[i]) == ValueView::Text(
                            (#[trigger] v@[i])@,
                        )
                } else {
                    array matches Err(e) && is_type_error(e, key@, "array of strings"@)
                },
                Some(_) => array matches Err(e) && is_type_error(e, key@, "array of strings"@),
            },
    {
        let values = match self.setting(key) {
            None => return Ok(None),
            Some(Setting::Array(values)) => values,
            Some(_) => return Err(type_error(key, "array of strings")),
        };
        let mut array: Vec<String> = Vec::new();
        let mut index: usize = 0;
        while index < values.len()
            invariant
                index <= values.len(),
                array@.len() == index,
                forall|i: int|
                    0 <= i < index ==> value_view(values@[i]) == ValueView::Text(
                        (#[trigger] array@[i])@,
                    ),
                setting_at(self@, key@) == Some(ValueView::Array(values@)),
            decreases values.len() - index,
        {
            match take_apart(&values[index]) {
                Setting::Text(value) => array.push(value.clone()),
                _ => {
                    assert(!(value_view(values@[index as int]) is Text));
                    return Err(type_error(key, "array of strings"));
                },
            }
            index = index + 1;
        }
        assert forall|i: int| 0 <= i < values@.len() implies value_view(
            #[trigger] values@[i],
        ) is Text by {
            assert(value_view(values@[i]) == ValueView::Text(array@[i]@));
        }
        Ok(Some(array))
    }

    /// Returns the array of numbers stored under `key`, if present.
    ///
    /// Integer elements are accepted; the caller widens them to floats.
    pub fn get_array_f64(&self, key: &str) -> (array: Result<Option<Vec<Number>>, ParamsError>)
        ensures
            match setting_at(self@, key@) {
                None => array matches Ok(None),
                Some(ValueView::Array(values)) => if all_number(values) {
                    array matches Ok(Some(v)) && v@.len() == values.len() && forall|i: int|
                        0 <= i < v@.len() ==> as_number(value_view(values[i])) == Some(
                            #[trigger] v@[i],
                        )
                } else {
                    array matches Err(e) && is_type_error(e, key@, "array of floats"@)
                },
                Some(_) => array matches Err(e) && is_type_error(e, key@, "array of floats"@),
            },
    {
        let values = match self.setting(key) {
            None => return Ok(None),
            Some(Setting::Array(values)) => values,
            Some(_) => return Err(type_error(key, "array of floats")),
        };
        let mut array: Vec<Number> = Vec::new();
        let mut index: usize = 0;
        while index < values.len()
            invariant
                index <= values.len(),
                array@.len() == index,
                forall|i: int|
                    0 <= i < index ==> as_number(value_view(values@[i])) == Some(
                        #[trigger] array@[i],
                    ),
                setting_at(self@, key@) == Some(ValueView::Array(values@)),
            decreases values.len() - index,
        {
            match take_apart(&values[index]) {
                Setting::Float(value) => array.push(Number::Float(value)),
                Setting::Integer(value) => array.push(Number::Integer(value)),
                _ => {
                    assert(as_number(value_view(values@[index as int])) is None);
                    return Err(type_error(key, "array of floats"));
                },
            }
            index = index + 1;
        }
        assert forall|i: int| 0 <= i < values@.len() implies as_number(
            value_view(#[trigger] values@[i]),
        ) is Some by {
            assert(as_number(value_view(values@[i])) == Some(array@[i]));
        }
        Ok(Some(array))
    }

    /// Returns the array of signed integers stored under `key`, if present.
    pub fn get_array_i64(&self, key: &str) -> (array: Result<Option<Vec<i64>>, ParamsError>)
        ensures
            match setting_at(self@, key@) {
                None => array matches Ok(None),
                Some(ValueView::Array(values)) => if all_integer(values) {
                    array matches Ok(Some(v)) && v@.len() == values.len() && forall|i: int|
                        0 <= i < v@.len() ==> value_view(values[i]) == ValueView::Integer(
                            #[trigger] v@[i],
                        )
                } else {
                    array matches Err(e) && is_type_error(e, key@, "array of integers"@)
                },
                Some(_) => array matches Err(e) && is_type_error(e, key@, "array of integers"@),
            },
    {
        let values = match self.setting(key) {
            None => return Ok(None),
            Some(Setting::Array(values)) => values,
            Some(_) => return Err(type_error(key, "array of integers")),
        };
        let mut array: Vec<i64> = Vec::new();
        let mut index: usize = 0;
        while index < values.len()
            invariant
                index <= values.len(),
                array@.len() == index,
                forall|i: int|
                    0 <= i < index ==> value_view(values@[i]) == ValueView::Integer(
                        #[trigger] array@[i],
                    ),
                setting_at(self@, key@) == Some(ValueView::Array(values@)),
            decreases values.len() - index,
        {
            match take_apart(&values[index]) {
                Setting::Integer(value) => array.push(value),
                _ => {
                    assert(!(value_view(values@[index as int]) is Integer));
                    return Err(type_error(key, "array of integers"));
                },
            }
            index = index + 1;
        }
        assert forall|i: int| 0 <= i < values@.len() implies value_view(
            #[trigger] values@[i],
        ) is Integer by {
            assert(value_view(values@[i]) == ValueView::Integer(array@[i]));
        }
        Ok(Some(array))
    }

    /// Returns the array of non-negative integers stored under `key`, if present.
    pub fn get_array_usize(&self, key: &str) -> (array: Result<Option<Vec<usize>>, ParamsError>)
        ensures
            match setting_at(self@, key@) {
                None => array matches Ok(None),
                Some(ValueView::Array(values)) => if !all_integer(values) {
                    array matches Err(e) && is_type_error(e, key@, "array of integers"@)
                } else if all_counts(values) {
                    array matches Ok(Some(v)) && v@.len() == values.len() && forall|i: int|
                        0 <= i < v@.len() ==> value_view(values[i]) == ValueView::Integer(
                            (#[trigger] v@[i]) as i64,
                        ) && v@[i] <= i64::MAX
                } else {
                    array matches Err(e) && is_type_error(
                        e,
                        key@,
                        "array of non-negative integers"@,
                    )
                },
                Some(_) => array matches Err(e) && is_type_error(e, key@, "array of integers"@),
            },
    {
        let values = match self.get_array_i64(key)? {
            None => return Ok(None),
            Some(values) => values,
        };
        let ghost held = setting_at(self@, key@)->0->Array_0;
        let mut array: Vec<usize> = Vec::new();
        let mut index: usize = 0;
        while index < values.len()
            invariant
                index <= values.len(),
                array@.len() == index,
                setting_at(self@, key@) == Some(ValueView::Array(held)),
                all_integer(held),
                held.len() == values@.len(),
                forall|i: int|
                    0 <= i < held.len() ==> value_view(held[i]) == ValueView::Integer(
                        #[trigger] values@[i],
                    ),
                forall|i: int| 0 <= i < index ==> #[trigger] array@[i] == values@[i],
            decreases values.len() - index,
        {
            match count_of(values[index]) {
                Some(count) => array.push(count),
                None => {
                    assert(value_view(held[index as int]) == ValueView::Integer(
                        values@[index as int],
                    ));
                    return Err(type_error(key, "array of non-negative integers"));
                },
            }
            index = index + 1;
        }
        assert forall|i: int| 0 <= i < held.len() implies (value_view(
            #[trigger] held[i],
        ) matches ValueView::Integer(n) && 0 <= n <= usize::MAX) by {
            assert(value_view(held[i]) == ValueView::Integer(values@[i]));
            assert(array@[i] == values@[i]);
        }
        Ok(Some(array))
    }
}

/// An integer as a count, if it is one.
fn count_of(value: i64) -> (count: Option<usize>)
    ensures
        match count {
            Some(n) => n == value,
            None => value < 0 || value > usize::MAX,
        },
{
    if value < 0 || value as u64 > usize::MAX as u64 {
        None
    } else {
        Some(value as usize)
    }
}

/// An accessor returns a value that is of its kind as it is, and nothing where there is none. A
/// value of any other kind is refused, with the key and the kind.
pub proof fn law_typed_values(
    params: Params,
    key: &str,
    table: Result<Option<Params>, ParamsError>,
    text: Result<Option<String>, ParamsError>,
    flag: Result<Option<bool>, ParamsError>,
    integer: Result<Option<i64>, ParamsError>,
    value: Option<&toml::Value>,
    held: bool,
)
    requires
        call_ensures(Params::get_table, (&params, key), table),
        call_ensures(Params::get_str, (&params, key), text),
        call_ensures(Params::get_bool, (&params, key), flag),
        call_ensures(Params::get_i64, (&params, key), integer),
        call_ensures(Params::get, (&params, key), value),
        call_ensures(Params::contains, (&params, key), held),
    ensures
        held <==> value is Some,
        value is None ==> table == Ok::<Option<Params>, ParamsError>(None),
        value is None ==> text == Ok::<Option<String>, ParamsError>(None),
        value is None ==> flag == Ok::<Option<bool>, ParamsError>(None),
        value is None ==> integer == Ok::<Option<i64>, ParamsError>(None),
        value matches Some(v) ==> (table is Ok <==> value_view(*v) is Table),
        value matches Some(v) ==> (text is Ok <==> value_view(*v) is Text),
        value matches Some(v) ==> (flag is Ok <==> value_view(*v) is Boolean),
        value matches Some(v) ==> (integer is Ok <==> value_view(*v) is Integer),
        table matches Ok(Some(t)) ==> value is Some && value_view(*value->0) == ValueView::Table(
            t@,
        ),
        text matches Ok(Some(t)) ==> value is Some && value_view(*value->0) == ValueView::Text(t@),
        flag matches Ok(Some(b)) ==> value is Some && value_view(*value->0) == ValueView::Boolean(b),
        integer matches Ok(Some(n)) ==> value is Some && value_view(*value->0)
            == ValueView::Integer(n),
        table matches Err(e) ==> (e matches ParamsError::Type { key: k, expected } && k@ == key@
            && expected@ == "table"@),
        text matches Err(e) ==> (e matches ParamsError::Type { key: k, expected } && k@ == key@
            && expected@ == "string"@),
        flag matches Err(e) ==> (e matches ParamsError::Type { key: k, expected } && k@ == key@
            && expected@ == "boolean"@),
        integer matches Err(e) ==> (e matches ParamsError::Type { key: k, expected } && k@ == key@
            && expected@ == "integer"@),
{
}

/// A count is an integer that is not negative and fits: it is returned in exactly those cases, and
/// is then the integer that stands there.
pub proof fn law_counts_are_integers(
    params: Params,
    key: &str,
    integer: Result<Option<i64>, ParamsError>,
    count: Result<Option<usize>, ParamsError>,
)
    requires
        call_ensures(Params::get_i64, (&params, key), integer),
        call_ensures(Params::get_usize, (&params, key), count),
    ensures
        integer matches Ok(None) ==> count == Ok::<Option<usize>, ParamsError>(None),
        integer is Err ==> count is Err,
        integer matches Ok(Some(n)) ==> (count is Ok <==> n >= 0 && n <= usize::MAX),
        integer matches Ok(Some(n)) ==> 0 <= n <= usize::MAX ==> (count matches Ok(Some(c)) && c
            == n),
        integer matches Ok(Some(n)) ==> n < 0 ==> (count matches Err(
            ParamsError::Type { key: k, expected },
        ) && k@ == key@ && expected@ == "non-negative integer"@),
{
}

/// A number is a float or an integer: it is returned in exactly those cases, and is then what
/// stands there.
pub proof fn law_numbers(
    params: Params,
    key: &str,
    integer: Result<Option<i64>, ParamsError>,
    number: Result<Option<Number>, ParamsError>,
    value: Option<&toml::Value>,
)
    requires
        call_ensures(Params::get_i64, (&params, key), integer),
        call_ensures(Params::get_f64, (&params, key), number),
        call_ensures(Params::get, (&params, key), value),
    ensures
        value is None ==> number == Ok::<Option<Number>, ParamsError>(None),
        integer matches Ok(Some(n)) ==> (number matches Ok(Some(m)) && m == Number::Integer(n)),
        value matches Some(v) ==> value_view(*v) is Float ==> (number matches Ok(Some(m)) && m
            == Number::Float(value_view(*v)->Float_0)),
        value matches Some(v) ==> !(value_view(*v) is Float || value_view(*v) is Integer) ==> (
        number matches Err(ParamsError::Type { key: k, expected }) && k@ == key@ && expected@
            == "float"@),
{
}

/// An array is returned whole or not at all: element by element as it stands, if all elements are
/// of the kind, and else refused.
pub proof fn law_arrays(
    params: Params,
    key: &str,
    value: &toml::Value,
    texts: Result<Option<Vec<String>>, ParamsError>,
    numbers: Result<Option<Vec<Number>>, ParamsError>,
    integers: Result<Option<Vec<i64>>, ParamsError>,
    counts: Result<Option<Vec<usize>>, ParamsError>,
    i: int,
)
    requires
        call_ensures(Params::get, (&params, key), Some(value)),
        call_ensures(Params::get_array_str, (&params, key), texts),
        call_ensures(Params::get_array_f64, (&params, key), numbers),
        call_ensures(Params::get_array_i64, (&params, key), integers),
        call_ensures(Params::get_array_usize, (&params, key), counts),
        value_view(*value) is Array,
        0 <= i < value_view(*value)->Array_0.len(),
    ensures
        ({
            let values = value_view(*value)->Array_0;
            let element = value_view(values[i]);
            &&& texts matches Ok(a) ==> a is Some && a->0@.len() == values.len() && element
                == ValueView::Text(a->0@[i]@)
            &&& numbers matches Ok(a) ==> a is Some && a->0@.len() == values.len() && match a->0@[i] {
                Number::Float(x) => element == ValueView::Float(x),
                Number::Integer(n) => element == ValueView::Integer(n),
            }
            &&& integers matches Ok(a) ==> a is Some && a->0@.len() == values.len() && element
                == ValueView::Integer(a->0@[i])
            &&& counts matches Ok(a) ==> a is Some && a->0@.len() == values.len()
                && element is Integer && a->0@[i] == element->Integer_0
            &&& !(element is Text) ==> texts is Err
            &&& !(element is Float || element is Integer) ==> numbers is Err
            &&& !(element is Integer) ==> integers is Err && counts is Err
            &&& element is Integer && element->Integer_0 < 0 ==> counts is Err
        }),
{
    let values = value_view(*value)->Array_0;
    if texts is Ok {
        let a = texts->Ok_0->0;
        assert(value_view(values[i]) == ValueView::Text(a@[i]@));
    }
    if numbers is Ok {
        let a = numbers->Ok_0->0;
        assert(as_number(value_view(values[i])) == Some(a@[i]));
    }
    if integers is Ok {
        let a = integers->Ok_0->0;
        assert(value_view(values[i]) == ValueView::Integer(a@[i]));
    }
    if counts is Ok {
        let a = counts->Ok_0->0;
        assert(value_view(values[i]) == ValueView::Integer(a@[i] as i64) && a@[i] <= i64::MAX);
    }
}

/// Arrays all of whose elements are of the kind are returned, and nothing is where there is no
/// value.
pub proof fn law_arrays_are_returned(
    params: Params,
    key: &str,
    value: Option<&toml::Value>,
    texts: Result<Option<Vec<String>>, ParamsError>,
    numbers: Result<Option<Vec<Number>>, ParamsError>,
    integers: Result<Option<Vec<i64>>, ParamsError>,
    counts: Result<Option<Vec<usize>>, ParamsError>,
)
    requires
        call_ensures(Params::get, (&params, key), value),
        call_ensures(Params::get_array_str, (&params, key), texts),
        call_ensures(Params::get_array_f64, (&params, key), numbers),
        call_ensures(Params::get_array_i64, (&params, key), integers),
        call_ensures(Params::get_array_usize, (&params, key), counts),
    ensures
        value is None ==> texts == Ok::<Option<Vec<String>>, ParamsError>(None),
        value is None ==> numbers == Ok::<Option<Vec<Number>>, ParamsError>(None),
        value is None ==> integers == Ok::<Option<Vec<i64>>, ParamsError>(None),
        value is None ==> counts == Ok::<Option<Vec<usize>>, ParamsError>(None),
        value matches Some(v) ==> !(value_view(*v) is Array) ==> texts is Err && numbers is Err
            && integers is Err && counts is Err,
        value matches Some(v) ==> value_view(*v) is Array ==> ({
            let values = value_view(*v)->Array_0;
            &&& (forall|i: int| 0 <= i < values.len() ==> value_view(#[trigger] values[i]) is Text)
                ==> texts is Ok
            &&& (forall|i: int|
                0 <= i < values.len() ==> (value_view(#[trigger] values[i]) is Float || value_view(
                    values[i],
                ) is Integer)) ==> numbers is Ok
            &&& (forall|i: int| 0 <= i < values.len() ==> value_view(#[trigger] values[i]) is Integer)
                ==> integers is Ok
            &&& (forall|i: int|
                0 <= i < values.len() ==> (value_view(#[trigger] values[i]) is Integer && 0
                    <= value_view(values[i])->Integer_0 <= usize::MAX)) ==> counts is Ok
        }),
{
}

/// A table keeps what it is made of, and gives it back.
pub proof fn law_tables(
    table: toml::Table,
    params: Params,
    shown: &toml::Table,
    given: toml::Table,
    copy: Params,
    empty: Params,
    other: Params,
    key: &str,
    held: bool,
    text: &str,
    parsed: Result<Params, ParamsError>,
)
    requires
        call_ensures(Params::from_table, (table,), params),
        call_ensures(Params::as_table, (&params,), shown),
        call_ensures(Params::into_table, (params,), given),
        call_ensures(<Params as Clone>::clone, (&params,), copy),
        call_ensures(Params::new, (), empty),
        call_ensures(<Params as Default>::default, (), other),
        call_ensures(Params::contains, (&empty, key), held),
        call_ensures(Params::parse, (text,), parsed),
    ensures
        table_entries(*shown) == table_entries(table),
        table_entries(given) == table_entries(table),
        copy@ == table_entries(table),
        !held,
        other@ == empty@,
        parsed is Ok <==> document_entries(text@) is Ok,
        parsed matches Ok(p) ==> p@ == document_entries(text@)->Ok_0,
        parsed matches Err(e) ==> (e matches ParamsError::Parse { message } && message@
            == document_entries(text@)->Err_0),
{
}

} // verus!
