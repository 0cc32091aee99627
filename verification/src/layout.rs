//! The building blocks of the library's HDF5 files: datasets of one kind and shape, groups with
//! an exact set of members, and numbered groups.
//!
//! Every reader says in its result what the file holds, or reports the first fault of the file: a
//! schema error where something is not as it must be, or the error of the HDF5 library where that
//! library gives up.

use crate::error::{hdf5, schema, GenericJobError};
#[allow(unused_imports)]
use crate::faults::or_fault;
#[allow(unused_imports)]
use crate::error::{is_hdf5_error, is_schema_error};
#[allow(unused_imports)]
use crate::hdf5::{
    attribute_map, attributes_at, bytes_at, cell_count, cell_kind_at, dataset_attribute_names_at,
    dataset_image, dataset_names, dataset_path, datasets_at, error_words, file_image, file_tree,
    finding_dataset, finding_group, finishing, group_attribute_names_at, group_image, group_names,
    group_path, group_tree, groups_at, holds_dataset, holds_file, holds_group, is_filled,
    is_plain_name, is_writable_file, joined, listing_dataset_attributes, listing_datasets,
    listing_group_attributes, listing_groups, listing_named_types, lists_attributes, lists_names,
    named_types_at, opening, reading_attributes, reading_bytes, reading_kind, reading_reals,
    reading_shape, reading_words, reals_at, shape_at, with_dataset, words_at, AttributeView, Cells,
    DatasetTree, FileTree, GroupTree,
};
use crate::hdf5::{
    cell_kind, dataset_attribute_names, error_text, group_attribute_names, group_attributes,
    read_reals, set_attribute, with_reals, Attribute, CellKind,
};
use crate::number::Real;
use crate::text::{padded_text, same_text, texts};
#[allow(unused_imports)]
use crate::text::{is_digit, lemma_padded_value, padded};
use vstd::prelude::*;
use vstd::utf8::{decode_utf8, encode_utf8, valid_utf8};

verus! {

/// The version of the file layout.
pub const VERSION: u64 = 1;

/// What is wrong with a file: it breaks the schema for a reason, or the HDF5 library gives up on
/// it with an error that says something.
pub enum Trouble {
    Schema(Seq<char>),
    Hdf5(Seq<char>),
}

/// What is wrong with a file, where something is.
pub type Fault = Option<Trouble>;

/// The reason, where something is broken.
pub open spec fn fault_if(broken: bool, reason: Seq<char>) -> Fault {
    if broken {
        Some(Trouble::Schema(reason))
    } else {
        None
    }
}

/// The fault of a call of the HDF5 library that did not go well.
pub open spec fn failed<T>(outcome: Result<T, Seq<char>>) -> Fault {
    match outcome {
        Ok(_) => None,
        Err(words) => Some(Trouble::Hdf5(words)),
    }
}

/// Whether an error reports what is wrong with the file at `path`.
pub open spec fn reports(error: GenericJobError, path: Seq<char>, trouble: Trouble) -> bool {
    match trouble {
        Trouble::Schema(reason) => is_schema_error(error, path, reason),
        Trouble::Hdf5(words) => is_hdf5_error(error, path, words),
    }
}

/// Whether a reader that gave up reports the fault.
pub open spec fn fails(error: GenericJobError, path: Seq<char>, fault: Fault) -> bool {
    fault matches Some(trouble) && reports(error, path, trouble)
}

/// Whether a reader gave what the file holds, or failed as a reader may fail.
pub open spec fn reads<T>(
    result: Result<T, GenericJobError>,
    path: Seq<char>,
    held: Option<T>,
    fault: Fault,
) -> bool {
    match result {
        Ok(value) => fault is None && held == Some(value),
        Err(error) => fails(error, path, fault),
    }
}

/// Whether a reader gave what the file holds, seen by its view, or failed as a reader may fail.
pub open spec fn reads_view<T: View>(
    result: Result<T, GenericJobError>,
    path: Seq<char>,
    held: Option<T::V>,
    fault: Fault,
) -> bool {
    match result {
        Ok(value) => fault is None && held == Some(value@),
        Err(error) => fails(error, path, fault),
    }
}

/// Whether a check passed as the file demands, or failed as a reader may fail.
pub open spec fn checks(result: Result<(), GenericJobError>, path: Seq<char>, fault: Fault) -> bool {
    match result {
        Ok(_) => fault is None,
        Err(error) => fails(error, path, fault),
    }
}

/// Why there is no plain dataset: it must be found and carry no attributes.
pub open spec fn attribute_fault(image: Seq<u8>, name: Seq<char>) -> Fault {
    or_fault(failed(finding_dataset(image, name)), dataset_metadata_fault(image, name))
}

/// Why a dataset is not a plain one: it must carry no attributes.
pub open spec fn dataset_metadata_fault(image: Seq<u8>, name: Seq<char>) -> Fault {
    or_fault(
        failed(listing_dataset_attributes(image, name)),
        fault_if(
            dataset_attribute_names_at(image, name) != Set::<Seq<char>>::empty(),
            "unexpected HDF5 dataset attributes"@,
        ),
    )
}

/// Why a dataset is not a scalar of a kind. The kind is looked at before the shape.
pub open spec fn scalar_fault(
    image: Seq<u8>,
    name: Seq<char>,
    kind: CellKind,
    reason: Seq<char>,
) -> Fault {
    or_fault(
        failed(reading_kind(image, name)),
        or_fault(
            fault_if(cell_kind_at(image, name) != kind, reason),
            or_fault(
                failed(reading_shape(image, name)),
                fault_if(shape_at(image, name).len() != 0, reason),
            ),
        ),
    )
}

/// Why a dataset is not a list of a kind, or has another length than the one asked for.
pub open spec fn list_fault(
    image: Seq<u8>,
    name: Seq<char>,
    kind: CellKind,
    length: Option<nat>,
    reason: Seq<char>,
) -> Fault {
    or_fault(
        failed(reading_shape(image, name)),
        or_fault(
            failed(reading_kind(image, name)),
            fault_if(
                cell_kind_at(image, name) != kind || shape_at(image, name).len() != 1 || (
                length matches Some(n) && shape_at(image, name)[0] != n),
                reason,
            ),
        ),
    )
}

/// Why the length that a shape declares does not fit the number of cells.
pub open spec fn length_fault(declared: u64, actual: nat) -> Fault {
    if declared == actual {
        None
    } else if declared > usize::MAX {
        Some(Trouble::Schema("dataset length exceeds usize"@))
    } else {
        Some(Trouble::Schema("dataset shape does not match data length"@))
    }
}

/// Why a dataset is not a scalar of one word.
pub open spec fn word_fault(image: Seq<u8>, name: Seq<char>) -> Fault {
    or_fault(
        attribute_fault(image, name),
        or_fault(
            scalar_fault(
                image,
                name,
                CellKind::Word,
                "invalid u64 scalar dataset type or shape"@,
            ),
            or_fault(
                failed(reading_words(image, name)),
                fault_if(words_at(image, name).len() != 1, "invalid u64 scalar dataset length"@),
            ),
        ),
    )
}

/// The word in a scalar dataset.
pub open spec fn word_in(image: Seq<u8>, name: Seq<char>) -> Option<u64> {
    if word_fault(image, name) is None {
        Some(words_at(image, name)[0])
    } else {
        None
    }
}

/// Why a dataset is not a scalar of one count, which has to fit the machine.
pub open spec fn count_fault(image: Seq<u8>, name: Seq<char>) -> Fault {
    or_fault(
        word_fault(image, name),
        fault_if(words_at(image, name)[0] > usize::MAX, "u64 value exceeds usize"@),
    )
}

/// The count in a scalar dataset.
pub open spec fn count_in(image: Seq<u8>, name: Seq<char>) -> Option<usize> {
    if count_fault(image, name) is None {
        Some(words_at(image, name)[0] as usize)
    } else {
        None
    }
}

/// Why a dataset is not a scalar of one byte.
pub open spec fn byte_fault(image: Seq<u8>, name: Seq<char>) -> Fault {
    or_fault(
        attribute_fault(image, name),
        or_fault(
            scalar_fault(
                image,
                name,
                CellKind::Byte,
                "invalid u8 scalar dataset type or shape"@,
            ),
            or_fault(
                failed(reading_bytes(image, name)),
                fault_if(bytes_at(image, name).len() != 1, "invalid u8 scalar dataset length"@),
            ),
        ),
    )
}

/// The byte in a scalar dataset.
pub open spec fn byte_in(image: Seq<u8>, name: Seq<char>) -> Option<u8> {
    if byte_fault(image, name) is None {
        Some(bytes_at(image, name)[0])
    } else {
        None
    }
}

/// Why a dataset is not a scalar of one number.
pub open spec fn real_fault(image: Seq<u8>, name: Seq<char>) -> Fault {
    or_fault(
        attribute_fault(image, name),
        or_fault(
            scalar_fault(
                image,
                name,
                CellKind::Real,
                "invalid f64 scalar dataset type or shape"@,
            ),
            or_fault(
                failed(reading_reals(image, name)),
                fault_if(reals_at(image, name).len() != 1, "invalid f64 scalar dataset length"@),
            ),
        ),
    )
}

/// The number in a scalar dataset.
pub open spec fn real_in(image: Seq<u8>, name: Seq<char>) -> Option<Real> {
    if real_fault(image, name) is None {
        Some(reals_at(image, name)[0])
    } else {
        None
    }
}

/// Why a dataset is not a list of bytes.
pub open spec fn bytes_fault(image: Seq<u8>, name: Seq<char>) -> Fault {
    or_fault(
        attribute_fault(image, name),
        or_fault(
            list_fault(image, name, CellKind::Byte, None, "invalid u8 dataset type or shape"@),
            or_fault(
                failed(reading_bytes(image, name)),
                length_fault(shape_at(image, name)[0], bytes_at(image, name).len()),
            ),
        ),
    )
}

/// The bytes in a list dataset.
pub open spec fn bytes_in(image: Seq<u8>, name: Seq<char>) -> Option<Seq<u8>> {
    if bytes_fault(image, name) is None {
        Some(bytes_at(image, name))
    } else {
        None
    }
}

/// Why a dataset is not a text: a list of bytes that are UTF-8.
pub open spec fn text_fault(image: Seq<u8>, name: Seq<char>) -> Fault {
    or_fault(
        bytes_fault(image, name),
        fault_if(!valid_utf8(bytes_at(image, name)), "string dataset is not valid UTF-8"@),
    )
}

/// The text in a list dataset of bytes.
pub open spec fn text_in(image: Seq<u8>, name: Seq<char>) -> Option<Seq<char>> {
    if text_fault(image, name) is None {
        Some(decode_utf8(bytes_at(image, name)))
    } else {
        None
    }
}

/// Why a dataset cannot be a JSON text: it must be a list of bytes that are UTF-8.
pub open spec fn json_fault(image: Seq<u8>, name: Seq<char>) -> Fault {
    or_fault(
        bytes_fault(image, name),
        fault_if(!valid_utf8(bytes_at(image, name)), "JSON dataset is not valid UTF-8"@),
    )
}

/// The bytes of a JSON text in a list dataset.
pub open spec fn json_in(image: Seq<u8>, name: Seq<char>) -> Option<Seq<u8>> {
    if json_fault(image, name) is None {
        Some(bytes_at(image, name))
    } else {
        None
    }
}

/// Why a dataset is not a list of words of a given length.
pub open spec fn words_fault(image: Seq<u8>, name: Seq<char>, length: nat) -> Fault {
    or_fault(
        attribute_fault(image, name),
        or_fault(
            list_fault(
                image,
                name,
                CellKind::Word,
                Some(length),
                "invalid u64 dataset type or shape"@,
            ),
            or_fault(
                failed(reading_words(image, name)),
                length_fault(shape_at(image, name)[0], words_at(image, name).len()),
            ),
        ),
    )
}

/// The words in a list dataset of a given length.
pub open spec fn words_in(image: Seq<u8>, name: Seq<char>, length: nat) -> Option<Seq<u64>> {
    if words_fault(image, name, length) is None {
        Some(words_at(image, name))
    } else {
        None
    }
}

/// Why a dataset is not a list of numbers.
pub open spec fn reals_fault(image: Seq<u8>, name: Seq<char>) -> Fault {
    or_fault(
        attribute_fault(image, name),
        or_fault(
            list_fault(image, name, CellKind::Real, None, "invalid f64 dataset type or shape"@),
            or_fault(
                failed(reading_reals(image, name)),
                length_fault(shape_at(image, name)[0], reals_at(image, name).len()),
            ),
        ),
    )
}

/// The numbers in a list dataset.
pub open spec fn reals_in(image: Seq<u8>, name: Seq<char>) -> Option<Seq<Real>> {
    if reals_fault(image, name) is None {
        Some(reals_at(image, name))
    } else {
        None
    }
}

/// Passes an error of the HDF5 library on.
pub(crate) fn outside(path: &str, error: hdf5_pure::Error) -> (e: GenericJobError)
    ensures
        is_hdf5_error(e, path@, error_words(error)),
{
    hdf5(path, error_text(&error))
}

/// Finds a dataset that carries no attributes.
fn plain_dataset(path: &str, file: &hdf5_pure::File, name: &str) -> (dataset: Result<
    hdf5_pure::Dataset,
    GenericJobError,
>)
    ensures
        match dataset {
            Ok(d) => {
                &&& dataset_image(d) == file_image(*file)
                &&& dataset_path(d) == name@
                &&& attribute_fault(file_image(*file), name@) is None
            },
            Err(e) => fails(e, path@, attribute_fault(file_image(*file), name@)),
        },
{
    let dataset = match file.dataset(name) {
        Ok(dataset) => dataset,
        Err(error) => return Err(outside(path, error)),
    };
    exact_dataset(path, &dataset)?;
    Ok(dataset)
}

/// Checks that a dataset carries no attributes.
fn exact_dataset(path: &str, dataset: &hdf5_pure::Dataset) -> (checked: Result<
    (),
    GenericJobError,
>)
    ensures
        checks(
            checked,
            path@,
            dataset_metadata_fault(dataset_image(*dataset), dataset_path(*dataset)),
        ),
{
    let names = match dataset_attribute_names(dataset) {
        Ok(names) => names,
        Err(error) => return Err(outside(path, error)),
    };
    proof {
        let held = dataset_attribute_names_at(dataset_image(*dataset), dataset_path(*dataset));
        if names@.len() == 0 {
            assert(held =~= Set::empty());
        } else {
            assert(texts(names@)[0] == names@[0]@);
            assert(texts(names@).contains(names@[0]@));
            assert(held.contains(names@[0]@));
        }
    }
    if names.len() > 0 {
        return Err(schema(path, "unexpected HDF5 dataset attributes"));
    }
    Ok(())
}

/// Reads a scalar dataset of one word.
pub(crate) fn read_u64_scalar(path: &str, file: &hdf5_pure::File, name: &str) -> (word: Result<
    u64,
    GenericJobError,
>)
    ensures
        reads(
            word,
            path@,
            word_in(file_image(*file), name@),
            word_fault(file_image(*file), name@),
        ),
{
    let dataset = plain_dataset(path, file, name)?;
    let kind = match cell_kind(&dataset) {
        Ok(kind) => kind,
        Err(error) => return Err(outside(path, error)),
    };
    if kind != CellKind::Word {
        return Err(schema(path, "invalid u64 scalar dataset type or shape"));
    }
    let shape = match dataset.shape() {
        Ok(shape) => shape,
        Err(error) => return Err(outside(path, error)),
    };
    if shape.len() != 0 {
        return Err(schema(path, "invalid u64 scalar dataset type or shape"));
    }
    let values = match dataset.read_u64_rows(0, u64::MAX) {
        Ok(values) => values,
        Err(error) => return Err(outside(path, error)),
    };
    if values.len() != 1 {
        return Err(schema(path, "invalid u64 scalar dataset length"));
    }
    Ok(values[0])
}

/// Reads a scalar dataset of one count, which has to fit the machine.
pub(crate) fn read_usize(path: &str, file: &hdf5_pure::File, name: &str) -> (count: Result<
    usize,
    GenericJobError,
>)
    ensures
        reads(
            count,
            path@,
            count_in(file_image(*file), name@),
            count_fault(file_image(*file), name@),
        ),
{
    let word: u64 = read_u64_scalar(path, file, name)?;
    if word > usize::MAX as u64 {
        return Err(schema(path, "u64 value exceeds usize"));
    }
    Ok(word as usize)
}

/// Reads a scalar dataset of one byte.
pub(crate) fn read_u8_scalar(path: &str, file: &hdf5_pure::File, name: &str) -> (byte: Result<
    u8,
    GenericJobError,
>)
    ensures
        reads(
            byte,
            path@,
            byte_in(file_image(*file), name@),
            byte_fault(file_image(*file), name@),
        ),
{
    let dataset = plain_dataset(path, file, name)?;
    let kind = match cell_kind(&dataset) {
        Ok(kind) => kind,
        Err(error) => return Err(outside(path, error)),
    };
    if kind != CellKind::Byte {
        return Err(schema(path, "invalid u8 scalar dataset type or shape"));
    }
    let shape = match dataset.shape() {
        Ok(shape) => shape,
        Err(error) => return Err(outside(path, error)),
    };
    if shape.len() != 0 {
        return Err(schema(path, "invalid u8 scalar dataset type or shape"));
    }
    let values = match dataset.read_u8_rows(0, u64::MAX) {
        Ok(values) => values,
        Err(error) => return Err(outside(path, error)),
    };
    if values.len() != 1 {
        return Err(schema(path, "invalid u8 scalar dataset length"));
    }
    Ok(values[0])
}

/// Reads a scalar dataset of one number.
pub(crate) fn read_f64_scalar(path: &str, file: &hdf5_pure::File, name: &str) -> (number: Result<
    Real,
    GenericJobError,
>)
    ensures
        reads(
            number,
            path@,
            real_in(file_image(*file), name@),
            real_fault(file_image(*file), name@),
        ),
{
    let dataset = plain_dataset(path, file, name)?;
    let kind = match cell_kind(&dataset) {
        Ok(kind) => kind,
        Err(error) => return Err(outside(path, error)),
    };
    if kind != CellKind::Real {
        return Err(schema(path, "invalid f64 scalar dataset type or shape"));
    }
    let shape = match dataset.shape() {
        Ok(shape) => shape,
        Err(error) => return Err(outside(path, error)),
    };
    if shape.len() != 0 {
        return Err(schema(path, "invalid f64 scalar dataset type or shape"));
    }
    let values = match read_reals(&dataset) {
        Ok(values) => values,
        Err(error) => return Err(outside(path, error)),
    };
    if values.len() != 1 {
        return Err(schema(path, "invalid f64 scalar dataset length"));
    }
    Ok(values[0])
}

/// Checks the length that a shape declares against the number of cells.
pub(crate) fn validate_length(path: &str, declared: u64, actual: usize) -> (checked: Result<
    (),
    GenericJobError,
>)
    ensures
        match length_fault(declared, actual as nat) {
            Some(trouble) => checked matches Err(e) && reports(e, path@, trouble),
            None => checked is Ok,
        },
{
    if declared > usize::MAX as u64 {
        return Err(schema(path, "dataset length exceeds usize"));
    }
    if declared as usize != actual {
        return Err(schema(path, "dataset shape does not match data length"));
    }
    Ok(())
}

/// Reads a list dataset of bytes.
pub(crate) fn read_u8_array(path: &str, file: &hdf5_pure::File, name: &str) -> (bytes: Result<
    Vec<u8>,
    GenericJobError,
>)
    ensures
        reads_view(
            bytes,
            path@,
            bytes_in(file_image(*file), name@),
            bytes_fault(file_image(*file), name@),
        ),
{
    let dataset = plain_dataset(path, file, name)?;
    let shape = match dataset.shape() {
        Ok(shape) => shape,
        Err(error) => return Err(outside(path, error)),
    };
    let kind = match cell_kind(&dataset) {
        Ok(kind) => kind,
        Err(error) => return Err(outside(path, error)),
    };
    if kind != CellKind::Byte || shape.len() != 1 {
        return Err(schema(path, "invalid u8 dataset type or shape"));
    }
    let values = match dataset.read_u8_rows(0, u64::MAX) {
        Ok(values) => values,
        Err(error) => return Err(outside(path, error)),
    };
    validate_length(path, shape[0], values.len())?;
    Ok(values)
}

/// Reads a list dataset of words that has a given length.
pub(crate) fn read_u64_array(
    path: &str,
    file: &hdf5_pure::File,
    name: &str,
    length: usize,
) -> (words: Result<Vec<u64>, GenericJobError>)
    ensures
        reads_view(
            words,
            path@,
            words_in(file_image(*file), name@, length as nat),
            words_fault(file_image(*file), name@, length as nat),
        ),
{
    let dataset = plain_dataset(path, file, name)?;
    let shape = match dataset.shape() {
        Ok(shape) => shape,
        Err(error) => return Err(outside(path, error)),
    };
    let length: u64 = to_u64(path, length)?;
    let kind = match cell_kind(&dataset) {
        Ok(kind) => kind,
        Err(error) => return Err(outside(path, error)),
    };
    if kind != CellKind::Word || shape.len() != 1 || shape[0] != length {
        return Err(schema(path, "invalid u64 dataset type or shape"));
    }
    let values = match dataset.read_u64_rows(0, u64::MAX) {
        Ok(values) => values,
        Err(error) => return Err(outside(path, error)),
    };
    validate_length(path, shape[0], values.len())?;
    Ok(values)
}

/// Reads a list dataset of numbers.
pub(crate) fn read_f64_array(path: &str, file: &hdf5_pure::File, name: &str) -> (numbers: Result<
    Vec<Real>,
    GenericJobError,
>)
    ensures
        reads_view(
            numbers,
            path@,
            reals_in(file_image(*file), name@),
            reals_fault(file_image(*file), name@),
        ),
{
    let dataset = plain_dataset(path, file, name)?;
    let shape = match dataset.shape() {
        Ok(shape) => shape,
        Err(error) => return Err(outside(path, error)),
    };
    let kind = match cell_kind(&dataset) {
        Ok(kind) => kind,
        Err(error) => return Err(outside(path, error)),
    };
    if kind != CellKind::Real || shape.len() != 1 {
        return Err(schema(path, "invalid f64 dataset type or shape"));
    }
    let values = match read_reals(&dataset) {
        Ok(values) => values,
        Err(error) => return Err(outside(path, error)),
    };
    validate_length(path, shape[0], values.len())?;
    Ok(values)
}

/// `std::string::String::from_utf8` takes bytes as UTF-8 and gives the text, or nothing where
/// they are not UTF-8.
#[verifier::external_body]
pub(crate) fn text_of_bytes(bytes: Vec<u8>) -> (text: Option<String>)
    ensures
        match text {
            Some(s) => valid_utf8(bytes@) && s@ == decode_utf8(bytes@),
            None => !valid_utf8(bytes@),
        },
{
    String::from_utf8(bytes).ok()
}

/// Reads a list dataset of bytes as text.
pub(crate) fn read_utf8(path: &str, file: &hdf5_pure::File, name: &str) -> (text: Result<
    String,
    GenericJobError,
>)
    ensures
        reads_view(
            text,
            path@,
            text_in(file_image(*file), name@),
            text_fault(file_image(*file), name@),
        ),
{
    match text_of_bytes(read_u8_array(path, file, name)?) {
        Some(text) => Ok(text),
        None => Err(schema(path, "string dataset is not valid UTF-8")),
    }
}

/// Reads a list dataset of bytes that has to be UTF-8, as a JSON text is.
pub(crate) fn read_json(path: &str, file: &hdf5_pure::File, name: &str) -> (bytes: Result<
    Vec<u8>,
    GenericJobError,
>)
    ensures
        reads_view(
            bytes,
            path@,
            json_in(file_image(*file), name@),
            json_fault(file_image(*file), name@),
        ),
{
    let bytes = read_u8_array(path, file, name)?;
    match text_of_bytes(bytes.clone()) {
        Some(_) => Ok(bytes),
        None => Err(schema(path, "JSON dataset is not valid UTF-8")),
    }
}

/// A machine count as a word. Counts are never wider than words.
pub(crate) fn to_u64(path: &str, value: usize) -> (word: Result<u64, GenericJobError>)
    ensures
        word == Ok::<u64, GenericJobError>(value as u64),
{
    Ok(value as u64)
}

/// The texts of a list of string slices.
pub open spec fn slices(list: Seq<&str>) -> Seq<Seq<char>> {
    list.map_values(|s: &str| s@)
}

/// Whether two lists hold the same names equally often, in whatever order.
pub open spec fn same_members(a: Seq<Seq<char>>, b: Seq<Seq<char>>) -> bool {
    a.to_multiset() == b.to_multiset()
}

/// Whether two lists hold the same names equally often, in whatever order.
pub(crate) fn same_names(actual: &Vec<String>, expected: &[&str]) -> (same: bool)
    ensures
        same == same_members(texts(actual@), slices(expected@)),
{
    broadcast use vstd::seq_lib::group_to_multiset_ensures;

    let ghost a = texts(actual@);
    let ghost e = slices(expected@);
    if actual.len() != expected.len() {
        proof {
            assert(a.to_multiset().len() == a.len());
            assert(e.to_multiset().len() == e.len());
        }
        return false;
    }
    let mut remaining: Vec<&str> = Vec::new();
    let mut index: usize = 0;
    while index < expected.len()
        invariant
            index <= expected.len(),
            remaining@ == expected@.take(index as int),
        decreases expected.len() - index,
    {
        remaining.push(expected[index]);
        index = index + 1;
        assert(remaining@ =~= expected@.take(index as int));
    }
    assert(expected@.take(index as int) =~= expected@);
    let mut place: usize = 0;
    assert(a.take(0) =~= Seq::empty());
    assert(a.take(0).to_multiset() =~= vstd::multiset::Multiset::empty());
    assert(slices(remaining@).to_multiset() =~= a.take(0).to_multiset().add(
        slices(remaining@).to_multiset(),
    ));
    while place < actual.len()
        invariant
            place <= actual.len(),
            a == texts(actual@),
            e == slices(expected@),
            a.len() == e.len(),
            remaining@.len() + place == e.len(),
            a.take(place as int).to_multiset().add(slices(remaining@).to_multiset())
                == e.to_multiset(),
        decreases actual.len() - place,
    {
        let ghost x = a[place as int];
        let mut found: usize = 0;
        while found < remaining.len() && !same_text(remaining[found], actual[place].as_str())
            invariant
                found <= remaining.len(),
                place < actual.len(),
                x == actual@[place as int]@,
                forall|k: int| 0 <= k < found ==> (#[trigger] remaining@[k])@ != x,
            decreases remaining.len() - found,
        {
            found = found + 1;
        }
        let ghost r = slices(remaining@);
        proof {
            assert(a.take(place + 1) =~= a.take(place as int).push(x));
            a.take(place as int).to_multiset_ensures();
        }
        if found == remaining.len() {
            proof {
                if r.contains(x) {
                    let k = choose|k: int| 0 <= k < r.len() && r[k] == x;
                    assert(remaining@[k]@ == x);
                }
                r.to_multiset_ensures();
                assert(r.to_multiset().count(x) == 0);
                assert(a =~= a.take(place + 1) + a.skip(place + 1));
                vstd::seq_lib::lemma_multiset_commutative(a.take(place + 1), a.skip(place + 1));
                assert(a.to_multiset().count(x) >= a.take(place + 1).to_multiset().count(x));
                assert(a.take(place + 1).to_multiset().count(x) == a.take(
                    place as int,
                ).to_multiset().count(x) + 1);
                assert(e.to_multiset().count(x) == a.take(place as int).to_multiset().count(x));
            }
            return false;
        }
        proof {
            assert(r[found as int] == x);
            r.to_multiset_ensures();
            assert(r.remove(found as int) =~= slices(remaining@.remove(found as int)));
            assert(r.remove(found as int).to_multiset() =~= r.to_multiset().remove(x));
            assert(r.to_multiset().count(x) > 0);
            assert(a.take(place + 1).to_multiset().add(r.to_multiset().remove(x)) =~= a.take(
                place as int,
            ).to_multiset().add(r.to_multiset()));
        }
        remaining.remove(found);
        place = place + 1;
    }
    proof {
        assert(a.take(place as int) =~= a);
        assert(slices(remaining@) =~= Seq::empty());
        assert(slices(remaining@).to_multiset() =~= vstd::multiset::Multiset::empty());
        assert(a.to_multiset() =~= e.to_multiset());
    }
    true
}

/// Why the datasets and subgroups of a group are not these.
pub open spec fn contents_fault(
    image: Seq<u8>,
    name: Seq<char>,
    datasets: Seq<Seq<char>>,
    groups: Seq<Seq<char>>,
) -> Fault {
    or_fault(
        failed(listing_datasets(image, name)),
        or_fault(
            failed(listing_groups(image, name)),
            fault_if(
                !same_members(datasets_at(image, name), datasets) || !same_members(
                    groups_at(image, name),
                    groups,
                ),
                "unexpected HDF5 group contents"@,
            ),
        ),
    )
}

/// Why a group holds committed datatypes, or cannot tell.
pub open spec fn named_types_fault(image: Seq<u8>, name: Seq<char>, reason: Seq<char>) -> Fault {
    or_fault(
        failed(listing_named_types(image, name)),
        fault_if(named_types_at(image, name).len() != 0, reason),
    )
}

/// Why a group is not a bare one: it must carry no attributes and hold no committed datatypes.
pub open spec fn metadata_fault(image: Seq<u8>, name: Seq<char>) -> Fault {
    or_fault(
        failed(listing_group_attributes(image, name)),
        or_fault(
            fault_if(
                group_attribute_names_at(image, name) != Set::<Seq<char>>::empty(),
                "unexpected HDF5 group metadata"@,
            ),
            named_types_fault(image, name, "unexpected HDF5 group metadata"@),
        ),
    )
}

/// Why a group that was found is not an exact one with these members.
pub open spec fn members_fault(
    image: Seq<u8>,
    name: Seq<char>,
    datasets: Seq<Seq<char>>,
    groups: Seq<Seq<char>>,
) -> Fault {
    or_fault(contents_fault(image, name, datasets, groups), metadata_fault(image, name))
}

/// Why there is no exact group with these members.
pub open spec fn group_fault(
    image: Seq<u8>,
    name: Seq<char>,
    datasets: Seq<Seq<char>>,
    groups: Seq<Seq<char>>,
) -> Fault {
    or_fault(
        failed(finding_group(image, name)),
        members_fault(image, name, datasets, groups),
    )
}

/// Why a root group, which carries the attributes of the file, does not have exactly these
/// members.
pub open spec fn root_fault(
    image: Seq<u8>,
    name: Seq<char>,
    datasets: Seq<Seq<char>>,
    groups: Seq<Seq<char>>,
) -> Fault {
    or_fault(
        contents_fault(image, name, datasets, groups),
        named_types_fault(image, name, "unexpected HDF5 root metadata"@),
    )
}

/// Finds a group.
pub(crate) fn find_group(path: &str, file: &hdf5_pure::File, name: &str) -> (found: Result<
    hdf5_pure::Group,
    GenericJobError,
>)
    ensures
        match found {
            Ok(g) => {
                &&& failed(finding_group(file_image(*file), name@)) is None
                &&& group_image(g) == file_image(*file)
                &&& group_path(g) == name@
            },
            Err(e) => fails(e, path@, failed(finding_group(file_image(*file), name@))),
        },
{
    match file.group(name) {
        Ok(found) => Ok(found),
        Err(error) => Err(outside(path, error)),
    }
}

/// Checks the names of the datasets and subgroups of a group.
fn exact_group_contents(
    path: &str,
    group: &hdf5_pure::Group,
    datasets: &[&str],
    groups: &[&str],
) -> (checked: Result<(), GenericJobError>)
    ensures
        checks(
            checked,
            path@,
            contents_fault(
                group_image(*group),
                group_path(*group),
                slices(datasets@),
                slices(groups@),
            ),
        ),
{
    let actual_datasets = match group.datasets() {
        Ok(names) => names,
        Err(error) => return Err(outside(path, error)),
    };
    let actual_groups = match group.groups() {
        Ok(names) => names,
        Err(error) => return Err(outside(path, error)),
    };
    if !same_names(&actual_datasets, datasets) || !same_names(&actual_groups, groups) {
        return Err(schema(path, "unexpected HDF5 group contents"));
    }
    Ok(())
}

/// Checks that the root group has exactly these members.
pub(crate) fn exact_root_group(
    path: &str,
    group: hdf5_pure::Group,
    datasets: &[&str],
    groups: &[&str],
) -> (checked: Result<(), GenericJobError>)
    ensures
        checks(
            checked,
            path@,
            root_fault(
                group_image(group),
                group_path(group),
                slices(datasets@),
                slices(groups@),
            ),
        ),
{
    exact_group_contents(path, &group, datasets, groups)?;
    let named = match group.named_datatypes() {
        Ok(names) => names,
        Err(error) => return Err(outside(path, error)),
    };
    assert(texts(named@).len() == named@.len());
    if named.len() > 0 {
        return Err(schema(path, "unexpected HDF5 root metadata"));
    }
    Ok(())
}

/// Checks that a group carries no attributes and holds no committed datatypes.
fn no_group_metadata(path: &str, group: &hdf5_pure::Group) -> (checked: Result<
    (),
    GenericJobError,
>)
    ensures
        checks(checked, path@, metadata_fault(group_image(*group), group_path(*group))),
{
    let names = match group_attribute_names(group) {
        Ok(names) => names,
        Err(error) => return Err(outside(path, error)),
    };
    proof {
        let held = group_attribute_names_at(group_image(*group), group_path(*group));
        if names@.len() == 0 {
            assert(held =~= Set::empty());
        } else {
            assert(texts(names@)[0] == names@[0]@);
            assert(texts(names@).contains(names@[0]@));
            assert(held.contains(names@[0]@));
        }
    }
    if names.len() > 0 {
        return Err(schema(path, "unexpected HDF5 group metadata"));
    }
    let named = match group.named_datatypes() {
        Ok(names) => names,
        Err(error) => return Err(outside(path, error)),
    };
    assert(texts(named@).len() == named@.len());
    if named.len() > 0 {
        return Err(schema(path, "unexpected HDF5 group metadata"));
    }
    Ok(())
}

/// Checks that a group has exactly these members and carries no attributes.
pub(crate) fn exact_group(
    path: &str,
    group: hdf5_pure::Group,
    datasets: &[&str],
    groups: &[&str],
) -> (checked: Result<(), GenericJobError>)
    ensures
        checks(
            checked,
            path@,
            members_fault(
                group_image(group),
                group_path(group),
                slices(datasets@),
                slices(groups@),
            ),
        ),
{
    exact_group_contents(path, &group, datasets, groups)?;
    no_group_metadata(path, &group)
}

/// Why a group does not hold subgroups only.
pub open spec fn groups_only_fault(image: Seq<u8>, name: Seq<char>) -> Fault {
    or_fault(
        or_fault(
            failed(listing_datasets(image, name)),
            fault_if(datasets_at(image, name).len() != 0, "unexpected HDF5 group contents"@),
        ),
        metadata_fault(image, name),
    )
}

/// Lists the subgroups of a group.
pub(crate) fn subgroups(path: &str, group: &hdf5_pure::Group) -> (names: Result<
    Vec<String>,
    GenericJobError,
>)
    ensures
        ({
            let listing = listing_groups(group_image(*group), group_path(*group));
            match names {
                Ok(v) => failed(listing) is None && texts(v@) == groups_at(
                    group_image(*group),
                    group_path(*group),
                ),
                Err(e) => fails(e, path@, failed(listing)),
            }
        }),
{
    match group.groups() {
        Ok(names) => Ok(names),
        Err(error) => Err(outside(path, error)),
    }
}

/// Checks that a group holds nothing but subgroups.
pub(crate) fn groups_only(path: &str, group: &hdf5_pure::Group) -> (checked: Result<
    (),
    GenericJobError,
>)
    ensures
        checks(checked, path@, groups_only_fault(group_image(*group), group_path(*group))),
{
    let datasets = match group.datasets() {
        Ok(names) => names,
        Err(error) => return Err(outside(path, error)),
    };
    assert(texts(datasets@).len() == datasets@.len());
    if datasets.len() > 0 {
        return Err(schema(path, "unexpected HDF5 group contents"));
    }
    no_group_metadata(path, group)
}

/// The name of a numbered group.
pub open spec fn numbered(prefix: Seq<char>, index: nat) -> Seq<char> {
    prefix + padded(index)
}

/// Whether names are numbered from zero on, with four digits each.
pub open spec fn are_numbered(names: Seq<Seq<char>>, prefix: Seq<char>) -> bool {
    &&& names.len() <= 10_000
    &&& forall|i: int|
        0 <= i < names.len() ==> #[trigger] names[i] == numbered(prefix, i as nat)
}

/// Writes the name of a numbered group.
pub(crate) fn numbered_name(prefix: &str, index: usize) -> (name: String)
    ensures
        name@ == numbered(prefix@, index as nat),
{
    prefix.to_owned().concat(padded_text(index as u64).as_str())
}

/// Why the subgroups of a group are not numbered from zero on, with four digits each.
pub open spec fn numbering_fault(image: Seq<u8>, name: Seq<char>, prefix: Seq<char>) -> Fault {
    or_fault(
        failed(listing_groups(image, name)),
        fault_if(
            !are_numbered(groups_at(image, name), prefix),
            "invalid four-digit HDF5 group sequence"@,
        ),
    )
}

/// Lists the subgroups of a group, which must be numbered from zero on.
pub(crate) fn numbered_groups(path: &str, group: &hdf5_pure::Group, prefix: &str) -> (names: Result<
    Vec<String>,
    GenericJobError,
>)
    ensures
        ({
            let fault = numbering_fault(group_image(*group), group_path(*group), prefix@);
            match names {
                Ok(v) => fault is None && texts(v@) == groups_at(
                    group_image(*group),
                    group_path(*group),
                ),
                Err(e) => fails(e, path@, fault),
            }
        }),
{
    let names = subgroups(path, group)?;
    let ghost held = texts(names@);
    let mut index: usize = 0;
    while index < names.len()
        invariant
            index <= names.len(),
            index <= 10_000,
            held == texts(names@),
            held == groups_at(group_image(*group), group_path(*group)),
            failed(listing_groups(group_image(*group), group_path(*group))) is None,
            forall|i: int|
                0 <= i < index ==> #[trigger] held[i] == numbered(prefix@, i as nat),
        decreases names.len() - index,
    {
        assert(held[index as int] == names@[index as int]@);
        if index > 9_999 || names[index] != numbered_name(prefix, index) {
            return Err(schema(path, "invalid four-digit HDF5 group sequence"));
        }
        index = index + 1;
    }
    Ok(names)
}

/// Appends a component to a path inside a file.
pub(crate) fn member(path: &str, name: &str) -> (joined: String)
    ensures
        joined@ == crate::hdf5::joined(path@, name@),
{
    proof {
        reveal_strlit("/");
        assert("/"@ =~= seq!['/']);
    }
    if path.is_empty() {
        name.to_owned()
    } else {
        path.to_owned().concat("/").concat(name)
    }
}

/// The attributes of the root of every file of the library.
pub open spec fn root_attributes(kind: Seq<char>) -> Map<Seq<char>, AttributeView> {
    Map::empty().insert("carlo_kind"@, AttributeView::Text(kind)).insert(
        "schema_version"@,
        AttributeView::Word(VERSION),
    )
}

/// Why a file does not open, or why its root does not say that it is of a kind.
pub open spec fn kind_fault(image: Seq<u8>, kind: Seq<char>) -> Fault {
    let root = Seq::<char>::empty();
    or_fault(
        failed(opening(image)),
        or_fault(
            failed(reading_attributes(image, root)),
            or_fault(
                failed(listing_group_attributes(image, root)),
                or_fault(
                    fault_if(
                        attributes_at(image, root) != root_attributes(kind)
                            || group_attribute_names_at(image, root) != root_attributes(kind).dom(),
                        "invalid root attributes"@,
                    ),
                    named_types_fault(image, root, "unexpected named datatype"@),
                ),
            ),
        ),
    )
}

/// The attributes that every file of the library carries, in the order in which they are set.
pub open spec fn root_attribute_list(kind: Seq<char>) -> Seq<(Seq<char>, AttributeView)> {
    seq![
        ("carlo_kind"@, AttributeView::Text(kind)),
        ("schema_version"@, AttributeView::Word(VERSION)),
    ]
}

pub proof fn lemma_root_attributes(kind: Seq<char>)
    ensures
        attribute_map(root_attribute_list(kind)) == root_attributes(kind),
{
    let list = root_attribute_list(kind);
    reveal_with_fuel(attribute_map, 3);
    assert(list.drop_last() =~= seq![("carlo_kind"@, AttributeView::Text(kind))]);
    assert(list.drop_last().drop_last() =~= Seq::empty());
}

/// Sets the attributes that every file of the library carries.
pub(crate) fn set_root_attrs(builder: &mut hdf5_pure::FileBuilder, kind: &str)
    ensures
        file_tree(*final(builder)) == (FileTree {
            attributes: file_tree(*old(builder)).attributes.push(
                ("carlo_kind"@, AttributeView::Text(kind@)),
            ).push(("schema_version"@, AttributeView::Word(VERSION))),
            ..file_tree(*old(builder))
        }),
{
    set_attribute(builder, "carlo_kind", Attribute::Text(kind.to_owned()));
    set_attribute(builder, "schema_version", Attribute::Word(VERSION));
}

proof fn lemma_attribute_count(
    list: Seq<(String, Attribute)>,
    attributes: Map<Seq<char>, AttributeView>,
)
    requires
        lists_attributes(list, attributes),
    ensures
        attributes.dom().finite(),
        attributes.dom().len() == list.len(),
{
    let names = list.map_values(|e: (String, Attribute)| e.0@);
    assert(names.no_duplicates());
    assert(names.to_set() =~= attributes.dom()) by {
        assert forall|name: Seq<char>| attributes.contains_key(name) implies names.to_set().contains(
            name,
        ) by {
            let i = choose|i: int| 0 <= i < list.len() && (#[trigger] list[i]).0@ == name;
            assert(names[i] == name);
        }
    }
    names.unique_seq_to_set();
}

proof fn lemma_two_keys(a: Seq<char>, b: Seq<char>, keys: Set<Seq<char>>)
    requires
        a != b,
        keys.finite(),
        keys.len() == 2,
        keys.contains(a),
        keys.contains(b),
    ensures
        keys == Set::empty().insert(a).insert(b),
{
    let pair = Set::<Seq<char>>::empty().insert(a).insert(b);
    vstd::set_lib::lemma_subset_equality(pair, keys);
}

/// The value of an attribute in a list.
fn find_attribute<'a>(list: &'a Vec<(String, Attribute)>, name: &str) -> (value: Option<
    &'a Attribute,
>)
    ensures
        forall|attributes: Map<Seq<char>, AttributeView>| #[trigger]
            lists_attributes(list@, attributes) ==> match value {
                Some(v) => attributes.contains_key(name@) && attributes[name@] == v@,
                None => !attributes.contains_key(name@),
            },
{
    let mut index: usize = 0;
    while index < list.len()
        invariant
            index <= list.len(),
            forall|i: int| 0 <= i < index ==> (#[trigger] list@[i]).0@ != name@,
        decreases list.len() - index,
    {
        if same_text(list[index].0.as_str(), name) {
            return Some(&list[index].1);
        }
        index = index + 1;
    }
    None
}

/// Whether the attributes of a root are those of a file of a kind.
pub(crate) fn attributes_match(
    attributes: &Vec<(String, Attribute)>,
    names: &Vec<String>,
    kind: &str,
) -> (matching: bool)
    ensures
        forall|held: Map<Seq<char>, AttributeView>, held_names: Set<Seq<char>>|
            #![trigger lists_attributes(attributes@, held), lists_names(names@, held_names)]
            lists_attributes(attributes@, held) && lists_names(names@, held_names) ==> (matching <==> (
            held == root_attributes(kind@) && held_names == root_attributes(kind@).dom())),
{
    let first = find_attribute(attributes, "carlo_kind");
    let second = find_attribute(attributes, "schema_version");
    let kind_matches = match first {
        Some(Attribute::Text(text)) => same_text(text.as_str(), kind),
        _ => false,
    };
    let version_matches = match second {
        Some(Attribute::Word(word)) => *word == VERSION,
        _ => false,
    };
    let expected: [&str; 2] = ["carlo_kind", "schema_version"];
    let names_match = same_names(names, &expected);
    let matching = attributes.len() == 2 && kind_matches && version_matches && names_match;
    proof {
        reveal_strlit("carlo_kind");
        reveal_strlit("schema_version");
        let a = "carlo_kind"@;
        let b = "schema_version"@;
        assert(a.len() != b.len());
        let listed = slices(expected@);
        assert(listed =~= seq![a, b]);
        broadcast use vstd::seq_lib::group_to_multiset_ensures;

        assert forall|held: Map<Seq<char>, AttributeView>, held_names: Set<Seq<char>>|
            #![trigger lists_attributes(attributes@, held), lists_names(names@, held_names)]
            lists_attributes(attributes@, held) && lists_names(
                names@,
                held_names,
            ) implies (matching <==> (held == root_attributes(kind@) && held_names
            == root_attributes(kind@).dom())) by {
            lemma_attribute_count(attributes@, held);
            texts(names@).unique_seq_to_set();
            assert(held_names =~= texts(names@).to_set());
            texts(names@).to_multiset_ensures();
            listed.to_multiset_ensures();
            let wanted = root_attributes(kind@);
            assert(wanted.dom() =~= Set::empty().insert(a).insert(b));
            if matching {
                lemma_two_keys(a, b, held.dom());
                assert(held =~= wanted);
                assert(texts(names@).to_multiset().count(a) == listed.to_multiset().count(a));
                assert(texts(names@).to_multiset().count(b) == listed.to_multiset().count(b));
                assert(listed[0] == a && listed[1] == b);
                assert(listed.contains(a) && listed.contains(b));
                assert(texts(names@).contains(a) && texts(names@).contains(b));
                assert(texts(names@).len() == 2);
                lemma_two_keys(a, b, held_names);
            }
            if held == wanted && held_names == wanted.dom() {
                assert(wanted.dom().len() == 2);
                assert(held.contains_key(a) && held.contains_key(b));
                let t = texts(names@);
                assert(t.len() == 2);
                assert(held_names.contains(a) && held_names.contains(b));
                assert(t.contains(a) && t.contains(b));
                assert(t[0] == a || t[0] == b);
                assert(t.to_multiset() =~= listed.to_multiset()) by {
                    if t[0] == a {
                        assert(t =~= listed);
                    } else {
                        assert(t =~= seq![b, a]);
                        assert(seq![b, a] =~= seq![b] + seq![a]);
                        assert(seq![a, b] =~= seq![a] + seq![b]);
                        vstd::seq_lib::lemma_multiset_commutative(seq![b], seq![a]);
                        vstd::seq_lib::lemma_multiset_commutative(seq![a], seq![b]);
                    }
                }
            }
        }
    }
    matching
}

/// Opens a file that has to be of a kind.
pub(crate) fn open_hdf5(path: &str, bytes: Vec<u8>, kind: &str) -> (file: Result<
    hdf5_pure::File,
    GenericJobError,
>)
    ensures
        match file {
            Ok(f) => file_image(f) == bytes@ && kind_fault(bytes@, kind@) is None,
            Err(e) => fails(e, path@, kind_fault(bytes@, kind@)),
        },
{
    let file = match hdf5_pure::File::from_bytes(bytes) {
        Ok(file) => file,
        Err(error) => return Err(outside(path, error)),
    };
    let root = file.root();
    let attributes = match group_attributes(&root) {
        Ok(attributes) => attributes,
        Err(error) => return Err(outside(path, error)),
    };
    let names = match group_attribute_names(&root) {
        Ok(names) => names,
        Err(error) => return Err(outside(path, error)),
    };
    if !attributes_match(&attributes, &names, kind) {
        return Err(schema(path, "invalid root attributes"));
    }
    let named = match root.named_datatypes() {
        Ok(names) => names,
        Err(error) => return Err(outside(path, error)),
    };
    assert(texts(named@).len() == named@.len());
    if named.len() > 0 {
        return Err(schema(path, "unexpected named datatype"));
    }
    Ok(file)
}

/// A scalar dataset of one word.
pub open spec fn word_dataset(name: Seq<char>, word: u64) -> DatasetTree {
    DatasetTree { name, cells: Cells::Words(seq![word]), shape: Some(Seq::empty()) }
}

/// A scalar dataset of one byte.
pub open spec fn byte_dataset(name: Seq<char>, byte: u8) -> DatasetTree {
    DatasetTree { name, cells: Cells::Bytes(seq![byte]), shape: Some(Seq::empty()) }
}

/// A scalar dataset of one number.
pub open spec fn real_dataset(name: Seq<char>, number: Real) -> DatasetTree {
    DatasetTree { name, cells: Cells::Reals(seq![number]), shape: Some(Seq::empty()) }
}

/// A list dataset of bytes.
pub open spec fn bytes_dataset(name: Seq<char>, bytes: Seq<u8>) -> DatasetTree {
    DatasetTree { name, cells: Cells::Bytes(bytes), shape: Some(seq![bytes.len() as u64]) }
}

/// A list dataset of words.
pub open spec fn words_dataset(name: Seq<char>, words: Seq<u64>) -> DatasetTree {
    DatasetTree { name, cells: Cells::Words(words), shape: Some(seq![words.len() as u64]) }
}

/// A list dataset of numbers.
pub open spec fn reals_dataset(name: Seq<char>, numbers: Seq<Real>) -> DatasetTree {
    DatasetTree { name, cells: Cells::Reals(numbers), shape: Some(seq![numbers.len() as u64]) }
}

/// Adds a scalar dataset of one word.
pub(crate) fn add_u64(group: &mut hdf5_pure::GroupBuilder, name: &str, value: u64)
    ensures
        group_tree(*final(group)) == with_dataset(
            group_tree(*old(group)),
            word_dataset(name@, value),
        ),
{
    let cells: [u64; 1] = [value];
    let shape: [u64; 0] = [];
    assert(cells@ =~= seq![value]);
    assert(shape@ =~= Seq::empty());
    group.create_dataset(name).with_u64_data(&cells).with_shape(&shape);
}

/// Adds a scalar dataset of one byte.
pub(crate) fn add_u8(group: &mut hdf5_pure::GroupBuilder, name: &str, value: u8)
    ensures
        group_tree(*final(group)) == with_dataset(
            group_tree(*old(group)),
            byte_dataset(name@, value),
        ),
{
    let cells: [u8; 1] = [value];
    let shape: [u64; 0] = [];
    assert(cells@ =~= seq![value]);
    assert(shape@ =~= Seq::empty());
    group.create_dataset(name).with_u8_data(&cells).with_shape(&shape);
}

/// Adds a scalar dataset of one number.
pub(crate) fn add_f64(group: &mut hdf5_pure::GroupBuilder, name: &str, value: Real)
    ensures
        group_tree(*final(group)) == with_dataset(
            group_tree(*old(group)),
            real_dataset(name@, value),
        ),
{
    let mut cells: Vec<Real> = Vec::new();
    cells.push(value);
    let shape: [u64; 0] = [];
    assert(cells@ =~= seq![value]);
    assert(shape@ =~= Seq::empty());
    with_reals(group.create_dataset(name), &cells).with_shape(&shape);
}

/// Adds a list dataset of bytes.
pub(crate) fn add_bytes(group: &mut hdf5_pure::GroupBuilder, name: &str, value: &[u8])
    ensures
        group_tree(*final(group)) == with_dataset(
            group_tree(*old(group)),
            bytes_dataset(name@, value@),
        ),
        value@.len() <= u64::MAX,
{
    let shape: [u64; 1] = [value.len() as u64];
    assert(shape@ =~= seq![value@.len() as u64]);
    group.create_dataset(name).with_u8_data(value).with_shape(&shape);
}

/// Adds a list dataset of the bytes of a text.
pub(crate) fn add_utf8(group: &mut hdf5_pure::GroupBuilder, name: &str, value: &str)
    ensures
        group_tree(*final(group)) == with_dataset(
            group_tree(*old(group)),
            bytes_dataset(name@, encode_utf8(value@)),
        ),
        encode_utf8(value@).len() <= u64::MAX,
{
    add_bytes(group, name, value.as_bytes());
}

/// Adds a list dataset of words.
pub(crate) fn add_words(group: &mut hdf5_pure::GroupBuilder, name: &str, value: &[u64])
    ensures
        group_tree(*final(group)) == with_dataset(
            group_tree(*old(group)),
            words_dataset(name@, value@),
        ),
{
    let shape: [u64; 1] = [value.len() as u64];
    assert(shape@ =~= seq![value@.len() as u64]);
    group.create_dataset(name).with_u64_data(value).with_shape(&shape);
}

/// Adds a list dataset of numbers.
pub(crate) fn add_reals(group: &mut hdf5_pure::GroupBuilder, name: &str, value: &Vec<Real>)
    ensures
        group_tree(*final(group)) == with_dataset(
            group_tree(*old(group)),
            reals_dataset(name@, value@),
        ),
        value@.len() <= u64::MAX,
{
    let shape: [u64; 1] = [value.len() as u64];
    assert(shape@ =~= seq![value@.len() as u64]);
    with_reals(group.create_dataset(name), value).with_shape(&shape);
}

/// Encodes a file.
pub(crate) fn finish_hdf5(path: &str, builder: hdf5_pure::FileBuilder) -> (image: Result<
    Vec<u8>,
    GenericJobError,
>)
    requires
        is_writable_file(file_tree(builder)),
    ensures
        match image {
            Ok(bytes) => failed(finishing(file_tree(builder))) is None && holds_file(
                bytes@,
                file_tree(builder),
            ),
            Err(e) => fails(e, path@, failed(finishing(file_tree(builder)))),
        },
{
    match builder.finish() {
        Ok(bytes) => Ok(bytes),
        Err(error) => Err(outside(path, error)),
    }
}

pub proof fn lemma_scalar_is_filled(name: Seq<char>)
    ensures
        forall|word: u64| is_filled(#[trigger] word_dataset(name, word)),
        forall|byte: u8| is_filled(#[trigger] byte_dataset(name, byte)),
        forall|number: Real| is_filled(#[trigger] real_dataset(name, number)),
{
    assert(cell_count(Seq::<u64>::empty()) == 1);
}

pub proof fn lemma_list_is_filled(name: Seq<char>)
    ensures
        forall|bytes: Seq<u8>|
            bytes.len() <= u64::MAX ==> is_filled(#[trigger] bytes_dataset(name, bytes)),
        forall|words: Seq<u64>|
            words.len() <= u64::MAX ==> is_filled(#[trigger] words_dataset(name, words)),
        forall|numbers: Seq<Real>|
            numbers.len() <= u64::MAX ==> is_filled(#[trigger] reals_dataset(name, numbers)),
{
    assert forall|length: u64| #[trigger] cell_count(seq![length]) == length by {
        assert(seq![length].drop_last() =~= Seq::<u64>::empty());
        assert(cell_count(Seq::<u64>::empty()) == 1);
        assert(seq![length].last() == length);
        vstd::arithmetic::mul::lemma_mul_basics(length as int);
    }
    assert forall|bytes: Seq<u8>| bytes.len() <= u64::MAX implies is_filled(
        #[trigger] bytes_dataset(name, bytes),
    ) by {
        assert(cell_count(seq![bytes.len() as u64]) == bytes.len());
    }
    assert forall|words: Seq<u64>| words.len() <= u64::MAX implies is_filled(
        #[trigger] words_dataset(name, words),
    ) by {
        assert(cell_count(seq![words.len() as u64]) == words.len());
    }
    assert forall|numbers: Seq<Real>| numbers.len() <= u64::MAX implies is_filled(
        #[trigger] reals_dataset(name, numbers),
    ) by {
        assert(cell_count(seq![numbers.len() as u64]) == numbers.len());
    }
}

/// Numbered names with a plain prefix are plain, and different numbers give different names.
pub proof fn lemma_numbered(prefix: Seq<char>, i: nat, j: nat)
    requires
        is_plain_name(prefix),
    ensures
        is_plain_name(numbered(prefix, i)),
        i != j ==> numbered(prefix, i) != numbered(prefix, j),
{
    lemma_padded_value(i);
    lemma_padded_value(j);
    let name = numbered(prefix, i);
    assert forall|k: int| 0 <= k < name.len() implies ({
        let c = #[trigger] name[k];
        'a' <= c <= 'z' || 'A' <= c <= 'Z' || '0' <= c <= '9' || c == '_'
    }) by {
        if k < prefix.len() {
            assert(name[k] == prefix[k]);
        } else {
            assert(is_digit(padded(i)[k - prefix.len()]));
        }
    }
    if i != j && numbered(prefix, i) == numbered(prefix, j) {
        assert(numbered(prefix, i).skip(prefix.len() as int) =~= padded(i));
        assert(numbered(prefix, j).skip(prefix.len() as int) =~= padded(j));
    }
}

/// A group of datasets alone reads back with exactly the members that were put in.
pub proof fn lemma_leaf_reads_back(image: Seq<u8>, path: Seq<char>, leaf: GroupTree)
    requires
        holds_group(image, path, leaf),
        leaf.groups.len() == 0,
    ensures
        group_fault(image, path, dataset_names(leaf.datasets), Seq::empty()) is None,
        forall|i: int|
            0 <= i < leaf.datasets.len() ==> holds_dataset(
                image,
                joined(path, (#[trigger] leaf.datasets[i]).name),
                leaf.datasets[i],
            ),
{
    assert(group_names(leaf.groups) =~= Seq::empty());
}

/// A dataset reads back as the value that was put in.
pub proof fn lemma_dataset_reads_back(image: Seq<u8>, path: Seq<char>, name: Seq<char>)
    ensures
        forall|word: u64| #[trigger]
            holds_dataset(image, path, word_dataset(name, word)) ==> word_in(image, path) == Some(
                word,
            ),
        forall|byte: u8| #[trigger]
            holds_dataset(image, path, byte_dataset(name, byte)) ==> byte_in(image, path) == Some(
                byte,
            ),
        forall|number: Real| #[trigger]
            holds_dataset(image, path, real_dataset(name, number)) ==> (real_in(image, path) matches
                Some(read) && number.comes_back_as(read)),
        forall|bytes: Seq<u8>| #[trigger]
            holds_dataset(image, path, bytes_dataset(name, bytes)) && bytes.len() <= u64::MAX
                ==> bytes_in(image, path) == Some(bytes),
        forall|text: Seq<char>| #[trigger]
            holds_dataset(image, path, bytes_dataset(name, encode_utf8(text))) && encode_utf8(
                text,
            ).len() <= u64::MAX ==> text_in(image, path) == Some(text),
        forall|words: Seq<u64>| #[trigger]
            holds_dataset(image, path, words_dataset(name, words)) && words.len() <= u64::MAX
                ==> words_in(image, path, words.len()) == Some(words),
        forall|numbers: Seq<Real>| #[trigger]
            holds_dataset(image, path, reals_dataset(name, numbers)) && numbers.len() <= u64::MAX
                && (forall|i: int| 0 <= i < numbers.len() ==> !(#[trigger] numbers[i]).signalling())
                ==> reals_in(image, path) == Some(numbers),
{
    broadcast use {vstd::utf8::encode_utf8_valid_utf8, vstd::utf8::encode_utf8_decode_utf8};

    assert forall|number: Real| #[trigger]
        holds_dataset(image, path, real_dataset(name, number)) implies (real_in(image, path) matches
        Some(read) && number.comes_back_as(read)) by {
        let cells = seq![number];
        assert(real_dataset(name, number).cells == Cells::Reals(cells));
        assert(cells[0] == number);
        assert(cells[0].comes_back_as(reals_at(image, path)[0]));
    }
    assert forall|numbers: Seq<Real>| #[trigger]
        holds_dataset(image, path, reals_dataset(name, numbers)) && numbers.len() <= u64::MAX && (
        forall|i: int|
            0 <= i < numbers.len() ==> !(#[trigger] numbers[i]).signalling()) implies reals_in(
        image,
        path,
    ) == Some(numbers) by {
        assert forall|i: int| 0 <= i < numbers.len() implies reals_at(image, path)[i]
            == numbers[i] by {
            assert(numbers[i].comes_back_as(reals_at(image, path)[i]));
        }
        assert(reals_at(image, path) =~= numbers);
    }
}

/// Whether a dataset stands at a path, without attributes, with cells of a kind.
pub open spec fn stands_at(image: Seq<u8>, path: Seq<char>, kind: CellKind) -> bool {
    &&& finding_dataset(image, path) is Ok
    &&& listing_dataset_attributes(image, path) is Ok
    &&& listing_dataset_attributes(image, path)->Ok_0 == Set::<Seq<char>>::empty()
    &&& reading_kind(image, path) is Ok
    &&& reading_kind(image, path)->Ok_0 == kind
    &&& reading_shape(image, path) is Ok
}

/// Whether one word stands at a path, as a scalar.
pub open spec fn word_stands_at(image: Seq<u8>, path: Seq<char>, word: u64) -> bool {
    &&& stands_at(image, path, CellKind::Word)
    &&& reading_shape(image, path)->Ok_0.len() == 0
    &&& reading_words(image, path) is Ok
    &&& reading_words(image, path)->Ok_0.len() == 1
    &&& reading_words(image, path)->Ok_0[0] == word
}

/// Whether one byte stands at a path, as a scalar.
pub open spec fn byte_stands_at(image: Seq<u8>, path: Seq<char>, byte: u8) -> bool {
    &&& stands_at(image, path, CellKind::Byte)
    &&& reading_shape(image, path)->Ok_0.len() == 0
    &&& reading_bytes(image, path) is Ok
    &&& reading_bytes(image, path)->Ok_0.len() == 1
    &&& reading_bytes(image, path)->Ok_0[0] == byte
}

/// Whether one number stands at a path, as a scalar.
pub open spec fn real_stands_at(image: Seq<u8>, path: Seq<char>, number: Real) -> bool {
    &&& stands_at(image, path, CellKind::Real)
    &&& reading_shape(image, path)->Ok_0.len() == 0
    &&& reading_reals(image, path) is Ok
    &&& reading_reals(image, path)->Ok_0.len() == 1
    &&& reading_reals(image, path)->Ok_0[0] == number
}

/// Whether a list of bytes stands at a path, as long as its shape says.
pub open spec fn bytes_stand_at(image: Seq<u8>, path: Seq<char>, bytes: Seq<u8>) -> bool {
    &&& stands_at(image, path, CellKind::Byte)
    &&& reading_shape(image, path)->Ok_0.len() == 1
    &&& reading_shape(image, path)->Ok_0[0] == bytes.len()
    &&& reading_bytes(image, path) is Ok
    &&& reading_bytes(image, path)->Ok_0 == bytes
}

/// Whether a list of words stands at a path, as long as its shape says.
pub open spec fn words_stand_at(image: Seq<u8>, path: Seq<char>, words: Seq<u64>) -> bool {
    &&& stands_at(image, path, CellKind::Word)
    &&& reading_shape(image, path)->Ok_0.len() == 1
    &&& reading_shape(image, path)->Ok_0[0] == words.len()
    &&& reading_words(image, path) is Ok
    &&& reading_words(image, path)->Ok_0 == words
}

/// Whether a list of numbers stands at a path, as long as its shape says.
pub open spec fn reals_stand_at(image: Seq<u8>, path: Seq<char>, numbers: Seq<Real>) -> bool {
    &&& stands_at(image, path, CellKind::Real)
    &&& reading_shape(image, path)->Ok_0.len() == 1
    &&& reading_shape(image, path)->Ok_0[0] == numbers.len()
    &&& reading_reals(image, path) is Ok
    &&& reading_reals(image, path)->Ok_0 == numbers
}

/// Whether a text stands at a path, as a list of its bytes.
pub open spec fn text_stands_at(image: Seq<u8>, path: Seq<char>, text: Seq<char>) -> bool {
    &&& reading_bytes(image, path) is Ok
    &&& bytes_stand_at(image, path, reading_bytes(image, path)->Ok_0)
    &&& valid_utf8(reading_bytes(image, path)->Ok_0)
    &&& text == decode_utf8(reading_bytes(image, path)->Ok_0)
}

/// Whether the members of a group can be listed and are these, and no committed datatypes are among
/// them.
pub open spec fn members_stand_at(
    image: Seq<u8>,
    path: Seq<char>,
    datasets: Seq<Seq<char>>,
    groups: Seq<Seq<char>>,
) -> bool {
    &&& listing_datasets(image, path) is Ok
    &&& listing_datasets(image, path)->Ok_0.to_multiset() == datasets.to_multiset()
    &&& listing_groups(image, path) is Ok
    &&& listing_groups(image, path)->Ok_0.to_multiset() == groups.to_multiset()
    &&& listing_named_types(image, path) is Ok
    &&& listing_named_types(image, path)->Ok_0.len() == 0
}

/// Whether the attributes of a group can be listed, and there are none.
pub open spec fn no_attributes_at(image: Seq<u8>, path: Seq<char>) -> bool {
    &&& listing_group_attributes(image, path) is Ok
    &&& listing_group_attributes(image, path)->Ok_0 == Set::<Seq<char>>::empty()
}

/// What a scalar reads as is what stands there: one cell of the kind, no shape and no attributes.
/// A count is a word that fits.
pub proof fn law_scalars_read_as_they_stand(
    image: Seq<u8>,
    path: Seq<char>,
    word: u64,
    byte: u8,
    number: Real,
    count: usize,
)
    ensures
        word_in(image, path) == Some(word) <==> word_stands_at(image, path, word),
        byte_in(image, path) == Some(byte) <==> byte_stands_at(image, path, byte),
        real_in(image, path) == Some(number) <==> real_stands_at(image, path, number),
        count_in(image, path) == Some(count) <==> word_stands_at(image, path, count as u64),
        word_in(image, path) is Some <==> word_fault(image, path) is None,
        byte_in(image, path) is Some <==> byte_fault(image, path) is None,
        real_in(image, path) is Some <==> real_fault(image, path) is None,
        count_in(image, path) is Some <==> count_fault(image, path) is None,
{
}

/// What a list reads as is what stands there: cells of the kind, as many as the one length of the
/// shape says, and no attributes. A text is a list of bytes that are UTF-8, and so is a JSON text.
pub proof fn law_lists_read_as_they_stand(
    image: Seq<u8>,
    path: Seq<char>,
    bytes: Seq<u8>,
    words: Seq<u64>,
    numbers: Seq<Real>,
    text: Seq<char>,
    length: nat,
)
    ensures
        bytes_in(image, path) == Some(bytes) <==> bytes_stand_at(image, path, bytes),
        json_in(image, path) == Some(bytes) <==> bytes_stand_at(image, path, bytes) && valid_utf8(
            bytes,
        ),
        text_in(image, path) == Some(text) <==> text_stands_at(image, path, text),
        words_in(image, path, length) == Some(words) <==> words_stand_at(image, path, words)
            && words.len() == length,
        reals_in(image, path) == Some(numbers) <==> reals_stand_at(image, path, numbers),
        bytes_in(image, path) is Some <==> bytes_fault(image, path) is None,
        json_in(image, path) is Some <==> json_fault(image, path) is None,
        text_in(image, path) is Some <==> text_fault(image, path) is None,
        words_in(image, path, length) is Some <==> words_fault(image, path, length) is None,
        reals_in(image, path) is Some <==> reals_fault(image, path) is None,
{
}

/// A group passes as an exact one if it is found, has these members and no others, no attributes
/// and no committed datatypes. The root passes without being found, whatever its attributes.
pub proof fn law_exact_groups(
    image: Seq<u8>,
    path: Seq<char>,
    datasets: Seq<Seq<char>>,
    groups: Seq<Seq<char>>,
)
    ensures
        group_fault(image, path, datasets, groups) is None <==> finding_group(image, path) is Ok
            && members_stand_at(image, path, datasets, groups) && no_attributes_at(image, path),
        root_fault(image, path, datasets, groups) is None <==> members_stand_at(
            image,
            path,
            datasets,
            groups,
        ),
{
}

/// A group holds subgroups only if it has no datasets, no attributes and no committed datatypes.
/// Its subgroups are numbered if they are the prefix and the numbers from zero on, with four digits
/// each, in this order.
pub proof fn law_numbered_groups(image: Seq<u8>, path: Seq<char>, prefix: Seq<char>)
    ensures
        groups_only_fault(image, path) is None <==> listing_datasets(image, path) is Ok
            && listing_datasets(image, path)->Ok_0.len() == 0 && no_attributes_at(image, path)
            && listing_named_types(image, path) is Ok && listing_named_types(
            image,
            path,
        )->Ok_0.len() == 0,
        numbering_fault(image, path, prefix) is None <==> {
            let names = listing_groups(image, path)->Ok_0;
            &&& listing_groups(image, path) is Ok
            &&& names.len() <= 10_000
            &&& forall|i: int|
                0 <= i < names.len() ==> #[trigger] names[i] == prefix + padded(i as nat)
        },
{
    let names = listing_groups(image, path)->Ok_0;
    if numbering_fault(image, path, prefix) is None {
        assert forall|i: int| 0 <= i < names.len() implies #[trigger] names[i] == prefix + padded(
            i as nat,
        ) by {
            assert(names[i] == numbered(prefix, i as nat));
        }
    }
    if names.len() <= 10_000 && (forall|i: int|
        0 <= i < names.len() ==> #[trigger] names[i] == prefix + padded(i as nat)) {
        assert forall|i: int| 0 <= i < names.len() implies #[trigger] names[i] == numbered(
            prefix,
            i as nat,
        ) by {
            assert(names[i] == prefix + padded(i as nat));
        }
    }
}

/// A file is of a kind if it opens, its root carries the kind and version one and nothing else, and
/// no committed datatypes stand in the root.
pub proof fn law_kinds(image: Seq<u8>, kind: Seq<char>)
    ensures
        kind_fault(image, kind) is None <==> {
            let root = Seq::<char>::empty();
            let attributes = reading_attributes(image, root)->Ok_0;
            let names = listing_group_attributes(image, root)->Ok_0;
            &&& opening(image) is Ok
            &&& reading_attributes(image, root) is Ok
            &&& attributes.dom() == names
            &&& attributes.contains_key("carlo_kind"@) && attributes["carlo_kind"@]
                == AttributeView::Text(kind)
            &&& attributes.contains_key("schema_version"@) && attributes["schema_version"@]
                == AttributeView::Word(1)
            &&& listing_group_attributes(image, root) is Ok
            &&& forall|name: Seq<char>| #[trigger]
                names.contains(name) ==> name == "carlo_kind"@ || name == "schema_version"@
            &&& listing_named_types(image, root) is Ok
            &&& listing_named_types(image, root)->Ok_0.len() == 0
        },
{
    reveal_strlit("carlo_kind");
    reveal_strlit("schema_version");
    assert("carlo_kind"@.len() != "schema_version"@.len());
    let root = Seq::<char>::empty();
    let attributes = reading_attributes(image, root)->Ok_0;
    let names = listing_group_attributes(image, root)->Ok_0;
    let wanted = root_attributes(kind);
    if attributes.dom() == names && attributes.contains_key("carlo_kind"@)
        && attributes["carlo_kind"@] == AttributeView::Text(kind) && attributes.contains_key(
        "schema_version"@,
    ) && attributes["schema_version"@] == AttributeView::Word(1) && (forall|name: Seq<char>|
        #[trigger]
        names.contains(name) ==> name == "carlo_kind"@ || name == "schema_version"@) {
        assert(names =~= wanted.dom());
        assert forall|name: Seq<char>| attributes.contains_key(name) == wanted.contains_key(
            name,
        ) by {
            assert(attributes.dom().contains(name) == names.contains(name));
        }
        assert(attributes =~= wanted);
    }
}

} // verus!
