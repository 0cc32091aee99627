//! HDF5 files: what a file holds, how it is written and how it is read.
//!
//! The `hdf5_pure` crate encodes and decodes the files. What it hands out is named here: a
//! file is known by its bytes, a group or dataset by the bytes of its file and its path. What a
//! call gives back, a value or an error with its words, is a function of the bytes and the path.

use crate::number::Real;
use crate::text::texts;
use vstd::prelude::*;

verus! {

/// A file under construction, `hdf5_pure::FileBuilder`.
#[verifier::external_type_specification]
#[verifier::external_body]
pub struct ExFileBuilder(hdf5_pure::FileBuilder);

/// A group under construction, `hdf5_pure::GroupBuilder`.
#[verifier::external_type_specification]
#[verifier::external_body]
pub struct ExGroupBuilder(hdf5_pure::GroupBuilder);

/// A dataset under construction, `hdf5_pure::DatasetBuilder`.
#[verifier::external_type_specification]
#[verifier::external_body]
pub struct ExDatasetBuilder(hdf5_pure::DatasetBuilder);

/// A finished group, `hdf5_pure::FinishedGroup`.
#[verifier::external_type_specification]
#[verifier::external_body]
pub struct ExFinishedGroup(hdf5_pure::FinishedGroup);

/// An open file, `hdf5_pure::File`.
#[verifier::external_type_specification]
#[verifier::external_body]
pub struct ExFile(hdf5_pure::File);

/// A group of an open file, `hdf5_pure::Group`.
#[verifier::external_type_specification]
#[verifier::external_body]
pub struct ExGroup(hdf5_pure::Group);

/// A dataset of an open file, `hdf5_pure::Dataset`.
#[verifier::external_type_specification]
#[verifier::external_body]
pub struct ExDataset(hdf5_pure::Dataset);

/// What went wrong with a file, `hdf5_pure::Error`.
#[verifier::external_type_specification]
#[verifier::external_body]
pub struct ExError(hdf5_pure::Error);

/// The cells of a dataset.
#[verifier::ext_equal]
pub enum Cells {
    /// Nothing was put in yet.
    Blank,
    Bytes(Seq<u8>),
    Words(Seq<u64>),
    Reals(Seq<Real>),
}

/// A dataset: its name, its cells and its shape, if it has one yet.
#[verifier::ext_equal]
pub struct DatasetTree {
    pub name: Seq<char>,
    pub cells: Cells,
    pub shape: Option<Seq<u64>>,
}

/// A group: its name, its datasets and its subgroups, in the order in which they were added.
#[verifier::ext_equal]
pub struct GroupTree {
    pub name: Seq<char>,
    pub datasets: Seq<DatasetTree>,
    pub groups: Seq<GroupTree>,
}

/// The value of an attribute.
#[verifier::ext_equal]
pub enum AttributeView {
    Text(Seq<char>),
    Word(u64),
    Other,
}

/// A file: the attributes of its root in the order in which they were set, and its groups.
#[verifier::ext_equal]
pub struct FileTree {
    pub attributes: Seq<(Seq<char>, AttributeView)>,
    pub groups: Seq<GroupTree>,
}

/// What a file under construction holds so far.
pub uninterp spec fn file_tree(builder: hdf5_pure::FileBuilder) -> FileTree;

/// What a group under construction holds so far.
pub uninterp spec fn group_tree(builder: hdf5_pure::GroupBuilder) -> GroupTree;

/// What a finished group holds.
pub uninterp spec fn finished_tree(group: hdf5_pure::FinishedGroup) -> GroupTree;

/// What a dataset under construction holds so far.
pub uninterp spec fn dataset_tree(builder: hdf5_pure::DatasetBuilder) -> DatasetTree;

/// The bytes of an open file.
pub uninterp spec fn file_image(file: hdf5_pure::File) -> Seq<u8>;

/// The bytes of the file that a group belongs to.
pub uninterp spec fn group_image(group: hdf5_pure::Group) -> Seq<u8>;

/// The path of a group, empty for the root.
pub uninterp spec fn group_path(group: hdf5_pure::Group) -> Seq<char>;

/// The bytes of the file that a dataset belongs to.
pub uninterp spec fn dataset_image(dataset: hdf5_pure::Dataset) -> Seq<u8>;

/// The path of a dataset.
pub uninterp spec fn dataset_path(dataset: hdf5_pure::Dataset) -> Seq<char>;

/// What an error says.
pub uninterp spec fn error_words(error: hdf5_pure::Error) -> Seq<char>;

/// How encoding a file goes: well, or with an error that says something.
pub uninterp spec fn finishing(file: FileTree) -> Result<(), Seq<char>>;

/// How opening a file goes.
pub uninterp spec fn opening(image: Seq<u8>) -> Result<(), Seq<char>>;

/// How finding a group goes.
pub uninterp spec fn finding_group(image: Seq<u8>, path: Seq<char>) -> Result<(), Seq<char>>;

/// How finding a dataset goes.
pub uninterp spec fn finding_dataset(image: Seq<u8>, path: Seq<char>) -> Result<(), Seq<char>>;

/// What listing the datasets of a group gives.
pub uninterp spec fn listing_datasets(image: Seq<u8>, path: Seq<char>) -> Result<
    Seq<Seq<char>>,
    Seq<char>,
>;

/// What listing the subgroups of a group gives.
pub uninterp spec fn listing_groups(image: Seq<u8>, path: Seq<char>) -> Result<
    Seq<Seq<char>>,
    Seq<char>,
>;

/// What listing the committed datatypes of a group gives.
pub uninterp spec fn listing_named_types(image: Seq<u8>, path: Seq<char>) -> Result<
    Seq<Seq<char>>,
    Seq<char>,
>;

/// What reading the attributes of a group gives: those that have a readable value.
pub uninterp spec fn reading_attributes(image: Seq<u8>, path: Seq<char>) -> Result<
    Map<Seq<char>, AttributeView>,
    Seq<char>,
>;

/// What listing all attributes of a group gives.
pub uninterp spec fn listing_group_attributes(image: Seq<u8>, path: Seq<char>) -> Result<
    Set<Seq<char>>,
    Seq<char>,
>;

/// What listing all attributes of a dataset gives.
pub uninterp spec fn listing_dataset_attributes(image: Seq<u8>, path: Seq<char>) -> Result<
    Set<Seq<char>>,
    Seq<char>,
>;

/// What asking for the type of the cells of a dataset gives.
pub uninterp spec fn reading_kind(image: Seq<u8>, path: Seq<char>) -> Result<CellKind, Seq<char>>;

/// What asking for the shape of a dataset gives, empty for a scalar.
pub uninterp spec fn reading_shape(image: Seq<u8>, path: Seq<char>) -> Result<Seq<u64>, Seq<char>>;

/// What reading the cells of a dataset as bytes gives.
pub uninterp spec fn reading_bytes(image: Seq<u8>, path: Seq<char>) -> Result<Seq<u8>, Seq<char>>;

/// What reading the cells of a dataset as words gives.
pub uninterp spec fn reading_words(image: Seq<u8>, path: Seq<char>) -> Result<Seq<u64>, Seq<char>>;

/// What reading the cells of a dataset as double-precision numbers gives.
pub uninterp spec fn reading_reals(image: Seq<u8>, path: Seq<char>) -> Result<
    Seq<Real>,
    Seq<char>,
>;

/// The names of the datasets in a group.
pub open spec fn datasets_at(image: Seq<u8>, path: Seq<char>) -> Seq<Seq<char>> {
    listing_datasets(image, path)->Ok_0
}

/// The names of the subgroups of a group.
pub open spec fn groups_at(image: Seq<u8>, path: Seq<char>) -> Seq<Seq<char>> {
    listing_groups(image, path)->Ok_0
}

/// The names of the committed datatypes in a group.
pub open spec fn named_types_at(image: Seq<u8>, path: Seq<char>) -> Seq<Seq<char>> {
    listing_named_types(image, path)->Ok_0
}

/// The attributes of a group that have a readable value.
pub open spec fn attributes_at(image: Seq<u8>, path: Seq<char>) -> Map<Seq<char>, AttributeView> {
    reading_attributes(image, path)->Ok_0
}

/// The names of all attributes of a group.
pub open spec fn group_attribute_names_at(image: Seq<u8>, path: Seq<char>) -> Set<Seq<char>> {
    listing_group_attributes(image, path)->Ok_0
}

/// The names of all attributes of a dataset.
pub open spec fn dataset_attribute_names_at(image: Seq<u8>, path: Seq<char>) -> Set<Seq<char>> {
    listing_dataset_attributes(image, path)->Ok_0
}

/// The type of the cells of a dataset.
pub open spec fn cell_kind_at(image: Seq<u8>, path: Seq<char>) -> CellKind {
    reading_kind(image, path)->Ok_0
}

/// The shape of a dataset, empty for a scalar.
pub open spec fn shape_at(image: Seq<u8>, path: Seq<char>) -> Seq<u64> {
    reading_shape(image, path)->Ok_0
}

/// The cells of a dataset, read as bytes.
pub open spec fn bytes_at(image: Seq<u8>, path: Seq<char>) -> Seq<u8> {
    reading_bytes(image, path)->Ok_0
}

/// The cells of a dataset, read as words.
pub open spec fn words_at(image: Seq<u8>, path: Seq<char>) -> Seq<u64> {
    reading_words(image, path)->Ok_0
}

/// The cells of a dataset, read as double-precision numbers.
pub open spec fn reals_at(image: Seq<u8>, path: Seq<char>) -> Seq<Real> {
    reading_reals(image, path)->Ok_0
}

/// The type of the cells of a dataset, as far as the library tells types apart.
#[derive(Debug, Clone, Copy, PartialEq, Eq, Structural)]
pub enum CellKind {
    Byte,
    Word,
    Real,
    Other,
}

/// An attribute value, as far as the library tells values apart.
#[derive(Debug)]
pub enum Attribute {
    Text(String),
    Word(u64),
    Other,
}

impl View for Attribute {
    type V = AttributeView;

    open spec fn view(&self) -> AttributeView {
        match self {
            Attribute::Text(s) => AttributeView::Text(s@),
            Attribute::Word(n) => AttributeView::Word(*n),
            Attribute::Other => AttributeView::Other,
        }
    }
}

/// Appends one path component.
pub open spec fn joined(path: Seq<char>, name: Seq<char>) -> Seq<char> {
    if path.len() == 0 {
        name
    } else {
        path + seq!['/'] + name
    }
}

/// Whether a list of attributes is a map, entry by entry.
pub open spec fn lists_attributes(
    list: Seq<(String, Attribute)>,
    attributes: Map<Seq<char>, AttributeView>,
) -> bool {
    &&& forall|i: int, j: int|
        0 <= i < j < list.len() ==> (#[trigger] list[i]).0@ != (#[trigger] list[j]).0@
    &&& forall|i: int|
        0 <= i < list.len() ==> attributes.contains_key((#[trigger] list[i]).0@)
            && attributes[list[i].0@] == list[i].1@
    &&& forall|name: Seq<char>| #[trigger]
        attributes.contains_key(name) ==> exists|i: int|
            0 <= i < list.len() && (#[trigger] list[i]).0@ == name
}

/// Whether a list of names is a set, name by name.
pub open spec fn lists_names(list: Seq<String>, names: Set<Seq<char>>) -> bool {
    &&& texts(list).no_duplicates()
    &&& forall|name: Seq<char>| #[trigger] names.contains(name) <==> texts(list).contains(name)
}

/// The number of cells that a shape asks for.
pub open spec fn cell_count(shape: Seq<u64>) -> nat
    decreases shape.len(),
{
    if shape.len() == 0 {
        1
    } else {
        cell_count(shape.drop_last()) * shape.last() as nat
    }
}

/// Whether a dataset is a scalar or a list that has as many cells as its shape asks for.
pub open spec fn is_filled(dataset: DatasetTree) -> bool {
    &&& dataset.shape matches Some(shape)
    &&& shape.len() <= 1
    &&& match dataset.cells {
        Cells::Blank => false,
        Cells::Bytes(b) => b.len() == cell_count(shape),
        Cells::Words(w) => w.len() == cell_count(shape),
        Cells::Reals(r) => r.len() == cell_count(shape),
    }
}

/// Whether a name is made of letters, digits and underscores.
pub open spec fn is_plain_name(name: Seq<char>) -> bool {
    &&& name.len() > 0
    &&& forall|i: int|
        0 <= i < name.len() ==> ({
            let c = #[trigger] name[i];
            'a' <= c <= 'z' || 'A' <= c <= 'Z' || '0' <= c <= '9' || c == '_'
        })
}

/// The names of datasets.
pub open spec fn dataset_names(datasets: Seq<DatasetTree>) -> Seq<Seq<char>> {
    datasets.map_values(|d: DatasetTree| d.name)
}

/// The names of groups.
pub open spec fn group_names(groups: Seq<GroupTree>) -> Seq<Seq<char>> {
    groups.map_values(|g: GroupTree| g.name)
}

/// How deep groups may be nested in a file.
pub const MAX_DEPTH: usize = 8;

/// Whether a group can be written and found again: plain names, none of them twice among the
/// members of one group, datasets that fill their shape, and at most `depth` groups inside each
/// other, this one included.
pub open spec fn is_writable(group: GroupTree, depth: nat) -> bool
    decreases depth,
{
    &&& depth > 0
    &&& is_plain_name(group.name)
    &&& (dataset_names(group.datasets) + group_names(group.groups)).no_duplicates()
    &&& forall|i: int|
        0 <= i < group.datasets.len() ==> is_plain_name((#[trigger] group.datasets[i]).name)
            && is_filled(group.datasets[i])
    &&& forall|i: int|
        0 <= i < group.groups.len() ==> is_writable(
            #[trigger] group.groups[i],
            (depth - 1) as nat,
        )
}

/// A group of datasets alone is writable if the datasets are, with distinct names.
pub proof fn lemma_writable_leaf(group: GroupTree, depth: nat)
    requires
        depth > 0,
        is_plain_name(group.name),
        group.groups.len() == 0,
        forall|i: int, j: int|
            0 <= i < j < group.datasets.len() ==> (#[trigger] group.datasets[i]).name != (
            #[trigger] group.datasets[j]).name,
        forall|i: int|
            0 <= i < group.datasets.len() ==> is_plain_name((#[trigger] group.datasets[i]).name)
                && is_filled(group.datasets[i]),
    ensures
        is_writable(group, depth),
{
    let names = dataset_names(group.datasets) + group_names(group.groups);
    assert(names =~= dataset_names(group.datasets));
    assert forall|i: int, j: int|
        0 <= i < names.len() && 0 <= j < names.len() && i != j implies names[i] != names[j] by {
        assert(names[i] == group.datasets[i].name);
        assert(names[j] == group.datasets[j].name);
        if j < i {
            assert(group.datasets[j].name != group.datasets[i].name);
        }
    }
}

/// A group of subgroups alone is writable if the subgroups are, with distinct names.
pub proof fn lemma_writable_branch(group: GroupTree, depth: nat)
    requires
        depth > 0,
        is_plain_name(group.name),
        group.datasets.len() == 0,
        forall|i: int, j: int|
            0 <= i < j < group.groups.len() ==> (#[trigger] group.groups[i]).name != (
            #[trigger] group.groups[j]).name,
        forall|i: int|
            0 <= i < group.groups.len() ==> is_writable(
                #[trigger] group.groups[i],
                (depth - 1) as nat,
            ),
    ensures
        is_writable(group, depth),
{
    let names = dataset_names(group.datasets) + group_names(group.groups);
    assert(names =~= group_names(group.groups));
    assert forall|i: int, j: int|
        0 <= i < names.len() && 0 <= j < names.len() && i != j implies names[i] != names[j] by {
        assert(names[i] == group.groups[i].name);
        assert(names[j] == group.groups[j].name);
        if j < i {
            assert(group.groups[j].name != group.groups[i].name);
        }
    }
}

/// Whether a file can be written and found again.
pub open spec fn is_writable_file(file: FileTree) -> bool {
    &&& group_names(file.groups).no_duplicates()
    &&& forall|i: int|
        0 <= i < file.groups.len() ==> is_writable(#[trigger] file.groups[i], MAX_DEPTH as nat)
    &&& forall|i: int, j: int|
        0 <= i < j < file.attributes.len() ==> (#[trigger] file.attributes[i]).0 != (
        #[trigger] file.attributes[j]).0
    &&& forall|i: int|
        0 <= i < file.attributes.len() ==> is_plain_name((#[trigger] file.attributes[i]).0)
            && is_plain_value(file.attributes[i].1)
}

/// Whether an attribute value can be written and read back: a word, or a text without NUL
/// characters, which pad texts in a file.
pub open spec fn is_plain_value(value: AttributeView) -> bool {
    match value {
        AttributeView::Text(text) => !text.contains('\0'),
        AttributeView::Word(_) => true,
        AttributeView::Other => false,
    }
}

/// Whether the file with the bytes `image` holds a dataset at `path` that can be read. A
/// signalling NaN may come back as another NaN.
pub open spec fn holds_dataset(image: Seq<u8>, path: Seq<char>, dataset: DatasetTree) -> bool {
    &&& finding_dataset(image, path) is Ok
    &&& listing_dataset_attributes(image, path) is Ok
    &&& dataset_attribute_names_at(image, path) == Set::<Seq<char>>::empty()
    &&& reading_kind(image, path) is Ok
    &&& reading_shape(image, path) is Ok
    &&& dataset.shape == Some(shape_at(image, path))
    &&& match dataset.cells {
        Cells::Blank => true,
        Cells::Bytes(b) => {
            &&& cell_kind_at(image, path) == CellKind::Byte
            &&& reading_bytes(image, path) is Ok
            &&& bytes_at(image, path) == b
        },
        Cells::Words(w) => {
            &&& cell_kind_at(image, path) == CellKind::Word
            &&& reading_words(image, path) is Ok
            &&& words_at(image, path) == w
        },
        Cells::Reals(r) => {
            &&& cell_kind_at(image, path) == CellKind::Real
            &&& reading_reals(image, path) is Ok
            &&& reals_at(image, path).len() == r.len()
            &&& forall|i: int|
                0 <= i < r.len() ==> (#[trigger] r[i]).comes_back_as(reals_at(image, path)[i])
        },
    }
}

/// Whether what a group holds and carries can be listed.
pub open spec fn can_list(image: Seq<u8>, path: Seq<char>) -> bool {
    &&& listing_group_attributes(image, path) is Ok
    &&& listing_named_types(image, path) is Ok
    &&& listing_datasets(image, path) is Ok
    &&& listing_groups(image, path) is Ok
}

/// Whether the file with the bytes `image` holds a group at `path`, with all that is in it.
pub open spec fn holds_group(image: Seq<u8>, path: Seq<char>, group: GroupTree) -> bool
    decreases group,
{
    &&& finding_group(image, path) is Ok
    &&& can_list(image, path)
    &&& group_attribute_names_at(image, path) == Set::<Seq<char>>::empty()
    &&& named_types_at(image, path) == Seq::<Seq<char>>::empty()
    &&& datasets_at(image, path) == dataset_names(group.datasets)
    &&& groups_at(image, path) == group_names(group.groups)
    &&& forall|i: int|
        0 <= i < group.datasets.len() ==> holds_dataset(
            image,
            joined(path, (#[trigger] group.datasets[i]).name),
            group.datasets[i],
        )
    &&& forall|i: int|
        0 <= i < group.groups.len() ==> holds_group(
            image,
            joined(path, (#[trigger] group.groups[i]).name),
            group.groups[i],
        )
}

/// The attributes of a file as a map.
pub open spec fn attribute_map(attributes: Seq<(Seq<char>, AttributeView)>) -> Map<
    Seq<char>,
    AttributeView,
>
    decreases attributes.len(),
{
    if attributes.len() == 0 {
        Map::empty()
    } else {
        attribute_map(attributes.drop_last()).insert(attributes.last().0, attributes.last().1)
    }
}

/// Whether the file with the bytes `image` opens and holds all that a file tree says, and nothing
/// else in its root.
pub open spec fn holds_file(image: Seq<u8>, file: FileTree) -> bool {
    let root = Seq::<char>::empty();
    &&& opening(image) is Ok
    &&& can_list(image, root)
    &&& reading_attributes(image, root) is Ok
    &&& attributes_at(image, root) == attribute_map(file.attributes)
    &&& group_attribute_names_at(image, root) == attribute_map(file.attributes).dom()
    &&& named_types_at(image, root) == Seq::<Seq<char>>::empty()
    &&& datasets_at(image, root) == Seq::<Seq<char>>::empty()
    &&& groups_at(image, root) == group_names(file.groups)
    &&& forall|i: int|
        0 <= i < file.groups.len() ==> holds_group(
            image,
            (#[trigger] file.groups[i]).name,
            file.groups[i],
        )
}

/// A group with nothing in it.
pub open spec fn empty_group(name: Seq<char>) -> GroupTree {
    GroupTree { name, datasets: Seq::empty(), groups: Seq::empty() }
}

/// A group with one more dataset.
pub open spec fn with_dataset(group: GroupTree, dataset: DatasetTree) -> GroupTree {
    GroupTree { datasets: group.datasets.push(dataset), ..group }
}

/// A group with one more subgroup.
pub open spec fn with_group(group: GroupTree, member: GroupTree) -> GroupTree {
    GroupTree { groups: group.groups.push(member), ..group }
}

/// A dataset with new cells, `length` in number. A shape that was set stays.
pub open spec fn with_cells(dataset: DatasetTree, cells: Cells, length: u64) -> DatasetTree {
    DatasetTree {
        name: dataset.name,
        cells,
        shape: if dataset.shape is None {
            Some(seq![length])
        } else {
            dataset.shape
        },
    }
}

/// `hdf5_pure::FileBuilder::new` starts a file with nothing in it.
#[verifier::external_body]
pub(crate) fn new_file() -> (builder: hdf5_pure::FileBuilder)
    ensures
        file_tree(builder) == (FileTree { attributes: Seq::empty(), groups: Seq::empty() }),
{
    hdf5_pure::FileBuilder::new()
}

/// `hdf5_pure::FileBuilder::create_group` starts an empty group and leaves the file as it is:
/// the group joins the file when it is added.
pub assume_specification[ hdf5_pure::FileBuilder::create_group ](
    builder: &mut hdf5_pure::FileBuilder,
    name: &str,
) -> (group: hdf5_pure::GroupBuilder)
    ensures
        group_tree(group) == empty_group(name@),
        file_tree(*final(builder)) == file_tree(*old(builder)),
;

/// `hdf5_pure::FileBuilder::add_group` puts a finished group behind the groups of the file.
pub assume_specification[ hdf5_pure::FileBuilder::add_group ](
    builder: &mut hdf5_pure::FileBuilder,
    group: hdf5_pure::FinishedGroup,
)
    ensures
        file_tree(*final(builder)) == (FileTree {
            groups: file_tree(*old(builder)).groups.push(finished_tree(group)),
            ..file_tree(*old(builder))
        }),
;

/// `hdf5_pure::FileBuilder::set_attr` puts an attribute behind those of the root.
#[verifier::external_body]
pub(crate) fn set_attribute(builder: &mut hdf5_pure::FileBuilder, name: &str, value: Attribute)
    requires
        value !is Other,
    ensures
        file_tree(*final(builder)) == (FileTree {
            attributes: file_tree(*old(builder)).attributes.push((name@, value@)),
            ..file_tree(*old(builder))
        }),
{
    match value {
        Attribute::Text(text) => builder.set_attr(name, hdf5_pure::AttrValue::String(text)),
        Attribute::Word(word) => builder.set_attr(name, hdf5_pure::AttrValue::U64(word)),
        Attribute::Other => {},
    }
}

/// `hdf5_pure::FileBuilder::finish` encodes the file. Whether that goes well, and what the error
/// says where it does not, depends on what was put in. The bytes open as a file, and reading
/// them gives back the groups, datasets and attributes that were put in, each list in the order in
/// which it was filled. The order holds because the writer stores links in that order, whatever
/// their number, and the reader lists them as stored.
pub assume_specification[ hdf5_pure::FileBuilder::finish ](
    builder: hdf5_pure::FileBuilder,
) -> (image: Result<Vec<u8>, hdf5_pure::Error>)
    requires
        is_writable_file(file_tree(builder)),
    ensures
        match image {
            Ok(bytes) => finishing(file_tree(builder)) is Ok && holds_file(
                bytes@,
                file_tree(builder),
            ),
            Err(e) => finishing(file_tree(builder)) matches Err(w) && w == error_words(e),
        },
;

/// `hdf5_pure::GroupBuilder::create_group` starts an empty group and leaves this group as it is.
pub assume_specification[ hdf5_pure::GroupBuilder::create_group ](
    builder: &mut hdf5_pure::GroupBuilder,
    name: &str,
) -> (group: hdf5_pure::GroupBuilder)
    ensures
        group_tree(group) == empty_group(name@),
        group_tree(*final(builder)) == group_tree(*old(builder)),
;

/// `hdf5_pure::GroupBuilder::add_group` puts a finished group behind the subgroups.
pub assume_specification[ hdf5_pure::GroupBuilder::add_group ](
    builder: &mut hdf5_pure::GroupBuilder,
    group: hdf5_pure::FinishedGroup,
)
    ensures
        group_tree(*final(builder)) == with_group(
            group_tree(*old(builder)),
            finished_tree(group),
        ),
;

/// `hdf5_pure::GroupBuilder::finish` closes the group with what it holds.
pub assume_specification[ hdf5_pure::GroupBuilder::finish ](
    builder: hdf5_pure::GroupBuilder,
) -> (group: hdf5_pure::FinishedGroup)
    ensures
        finished_tree(group) == group_tree(builder),
;

/// `hdf5_pure::GroupBuilder::create_dataset` puts a blank dataset behind the datasets of the
/// group and gives access to it.
pub assume_specification<'a>[ hdf5_pure::GroupBuilder::create_dataset ](
    builder: &'a mut hdf5_pure::GroupBuilder,
    name: &str,
) -> (dataset: &'a mut hdf5_pure::DatasetBuilder)
    ensures
        dataset_tree(*dataset) == (DatasetTree { name: name@, cells: Cells::Blank, shape: None }),
        group_tree(*final(builder)) == with_dataset(
            group_tree(*old(builder)),
            dataset_tree(*final(dataset)),
        ),
;

/// `hdf5_pure::DatasetBuilder::with_u8_data` makes the cells the given bytes. The shape becomes
/// a list of that length unless one was set.
pub assume_specification<'a>[ hdf5_pure::DatasetBuilder::with_u8_data ](
    dataset: &'a mut hdf5_pure::DatasetBuilder,
    data: &[u8],
) -> (same: &'a mut hdf5_pure::DatasetBuilder)
    ensures
        dataset_tree(*same) == with_cells(
            dataset_tree(*old(dataset)),
            Cells::Bytes(data@),
            data@.len() as u64,
        ),
        *final(dataset) == *final(same),
;

/// `hdf5_pure::DatasetBuilder::with_u64_data` makes the cells the given words. The shape becomes
/// a list of that length unless one was set.
pub assume_specification<'a>[ hdf5_pure::DatasetBuilder::with_u64_data ](
    dataset: &'a mut hdf5_pure::DatasetBuilder,
    data: &[u64],
) -> (same: &'a mut hdf5_pure::DatasetBuilder)
    ensures
        dataset_tree(*same) == with_cells(
            dataset_tree(*old(dataset)),
            Cells::Words(data@),
            data@.len() as u64,
        ),
        *final(dataset) == *final(same),
;

/// `hdf5_pure::DatasetBuilder::with_raw_data`, given the double-precision type and the
/// little-endian bytes of the numbers, makes the cells those numbers. The shape becomes a list of
/// that length unless one was set.
#[verifier::external_body]
pub(crate) fn with_reals<'a>(
    dataset: &'a mut hdf5_pure::DatasetBuilder,
    data: &Vec<Real>,
) -> (same: &'a mut hdf5_pure::DatasetBuilder)
    ensures
        dataset_tree(*same) == with_cells(
            dataset_tree(*old(dataset)),
            Cells::Reals(data@),
            data@.len() as u64,
        ),
        *final(dataset) == *final(same),
{
    let bytes: Vec<u8> = data.iter().flat_map(|r| r.bits.to_le_bytes()).collect();
    dataset.with_raw_data(hdf5_pure::make_f64_type(), bytes, data.len() as u64)
}

/// `hdf5_pure::DatasetBuilder::with_shape` sets the shape and leaves the cells as they are.
pub assume_specification<'a>[ hdf5_pure::DatasetBuilder::with_shape ](
    dataset: &'a mut hdf5_pure::DatasetBuilder,
    shape: &[u64],
) -> (same: &'a mut hdf5_pure::DatasetBuilder)
    ensures
        dataset_tree(*same) == (DatasetTree { shape: Some(shape@), ..dataset_tree(*old(dataset)) }),
        *final(dataset) == *final(same),
;

/// The `Display` format of `hdf5_pure::Error` says what went wrong.
#[verifier::external_body]
pub(crate) fn error_text(error: &hdf5_pure::Error) -> (text: String)
    ensures
        text@ == error_words(*error),
{
    error.to_string()
}

/// `hdf5_pure::File::from_bytes` opens a file that is held in memory.
pub assume_specification[ hdf5_pure::File::from_bytes ](data: Vec<u8>) -> (file: Result<
    hdf5_pure::File,
    hdf5_pure::Error,
>)
    ensures
        match file {
            Ok(f) => opening(data@) is Ok && file_image(f) == data@,
            Err(e) => opening(data@) matches Err(w) && w == error_words(e),
        },
;

/// `hdf5_pure::File::root` hands out the root group.
pub assume_specification[ hdf5_pure::File::root ](file: &hdf5_pure::File) -> (group:
    hdf5_pure::Group)
    ensures
        group_image(group) == file_image(*file),
        group_path(group) == Seq::<char>::empty(),
;

/// `hdf5_pure::File::group` finds the group at a path.
pub assume_specification[ hdf5_pure::File::group ](
    file: &hdf5_pure::File,
    path: &str,
) -> (group: Result<hdf5_pure::Group, hdf5_pure::Error>)
    ensures
        match group {
            Ok(g) => finding_group(file_image(*file), path@) is Ok && group_image(g) == file_image(
                *file,
            ) && group_path(g) == path@,
            Err(e) => finding_group(file_image(*file), path@) matches Err(w) && w == error_words(e),
        },
;

/// `hdf5_pure::File::dataset` finds the dataset at a path.
pub assume_specification[ hdf5_pure::File::dataset ](
    file: &hdf5_pure::File,
    path: &str,
) -> (dataset: Result<hdf5_pure::Dataset, hdf5_pure::Error>)
    ensures
        match dataset {
            Ok(d) => finding_dataset(file_image(*file), path@) is Ok && dataset_image(d)
                == file_image(*file) && dataset_path(d) == path@,
            Err(e) => finding_dataset(file_image(*file), path@) matches Err(w) && w == error_words(
                e,
            ),
        },
;

/// `hdf5_pure::Group::datasets` lists the datasets of the group by name.
pub assume_specification[ hdf5_pure::Group::datasets ](
    group: &hdf5_pure::Group,
) -> (names: Result<Vec<String>, hdf5_pure::Error>)
    ensures
        match names {
            Ok(v) => listing_datasets(group_image(*group), group_path(*group)) matches Ok(l)
                && l == texts(v@),
            Err(e) => listing_datasets(group_image(*group), group_path(*group)) matches Err(w)
                && w == error_words(e),
        },
;

/// `hdf5_pure::Group::groups` lists the subgroups of the group by name.
pub assume_specification[ hdf5_pure::Group::groups ](
    group: &hdf5_pure::Group,
) -> (names: Result<Vec<String>, hdf5_pure::Error>)
    ensures
        match names {
            Ok(v) => listing_groups(group_image(*group), group_path(*group)) matches Ok(l)
                && l == texts(v@),
            Err(e) => listing_groups(group_image(*group), group_path(*group)) matches Err(w)
                && w == error_words(e),
        },
;

/// `hdf5_pure::Group::named_datatypes` lists the committed datatypes of the group by name.
pub assume_specification[ hdf5_pure::Group::named_datatypes ](
    group: &hdf5_pure::Group,
) -> (names: Result<Vec<String>, hdf5_pure::Error>)
    ensures
        match names {
            Ok(v) => listing_named_types(group_image(*group), group_path(*group)) matches Ok(l)
                && l == texts(v@),
            Err(e) => listing_named_types(group_image(*group), group_path(*group)) matches Err(w)
                && w == error_words(e),
        },
;

/// `hdf5_pure::Group::attrs` gives the attributes of the group that have a readable value, each
/// name once, in no particular order.
#[verifier::external_body]
pub(crate) fn group_attributes(group: &hdf5_pure::Group) -> (attributes: Result<
    Vec<(String, Attribute)>,
    hdf5_pure::Error,
>)
    ensures
        match attributes {
            Ok(v) => reading_attributes(group_image(*group), group_path(*group)) matches Ok(l)
                && lists_attributes(v@, l),
            Err(e) => reading_attributes(group_image(*group), group_path(*group)) matches Err(w)
                && w == error_words(e),
        },
{
    let plain = |value| match value {
        hdf5_pure::AttrValue::String(text) => Attribute::Text(text),
        hdf5_pure::AttrValue::U64(word) => Attribute::Word(word),
        _ => Attribute::Other,
    };
    Ok(group.attrs()?.into_iter().map(|(name, value)| (name, plain(value))).collect())
}

/// `hdf5_pure::Group::attr_datatypes` knows all attributes of the group; the names are listed,
/// each once, in no particular order.
#[verifier::external_body]
pub(crate) fn group_attribute_names(group: &hdf5_pure::Group) -> (names: Result<
    Vec<String>,
    hdf5_pure::Error,
>)
    ensures
        match names {
            Ok(v) => listing_group_attributes(group_image(*group), group_path(*group)) matches Ok(l)
                && lists_names(v@, l),
            Err(e) => listing_group_attributes(
                group_image(*group),
                group_path(*group),
            ) matches Err(w) && w == error_words(e),
        },
{
    Ok(group.attr_datatypes()?.into_keys().collect())
}

/// `hdf5_pure::Dataset::attr_datatypes` knows all attributes of the dataset; the names are
/// listed, each once, in no particular order.
#[verifier::external_body]
pub(crate) fn dataset_attribute_names(dataset: &hdf5_pure::Dataset) -> (names: Result<
    Vec<String>,
    hdf5_pure::Error,
>)
    ensures
        match names {
            Ok(v) => listing_dataset_attributes(
                dataset_image(*dataset),
                dataset_path(*dataset),
            ) matches Ok(l) && lists_names(v@, l),
            Err(e) => listing_dataset_attributes(
                dataset_image(*dataset),
                dataset_path(*dataset),
            ) matches Err(w) && w == error_words(e),
        },
{
    Ok(dataset.attr_datatypes()?.into_keys().collect())
}

/// `hdf5_pure::Dataset::dtype` gives the type of the cells.
#[verifier::external_body]
pub(crate) fn cell_kind(dataset: &hdf5_pure::Dataset) -> (kind: Result<CellKind, hdf5_pure::Error>)
    ensures
        match kind {
            Ok(v) => reading_kind(dataset_image(*dataset), dataset_path(*dataset)) matches Ok(l)
                && l == v,
            Err(e) => reading_kind(dataset_image(*dataset), dataset_path(*dataset)) matches Err(w)
                && w == error_words(e),
        },
{
    match dataset.dtype()? {
        hdf5_pure::DType::U8 => Ok(CellKind::Byte),
        hdf5_pure::DType::U64 => Ok(CellKind::Word),
        hdf5_pure::DType::F64 => Ok(CellKind::Real),
        _ => Ok(CellKind::Other),
    }
}

/// `hdf5_pure::Dataset::shape` gives the shape, empty for a scalar.
pub assume_specification[ hdf5_pure::Dataset::shape ](
    dataset: &hdf5_pure::Dataset,
) -> (shape: Result<Vec<u64>, hdf5_pure::Error>)
    ensures
        match shape {
            Ok(v) => reading_shape(dataset_image(*dataset), dataset_path(*dataset)) matches Ok(l)
                && l == v@,
            Err(e) => reading_shape(dataset_image(*dataset), dataset_path(*dataset)) matches Err(w)
                && w == error_words(e),
        },
;

/// `hdf5_pure::Dataset::read_u8_rows` reads cells as bytes. From row zero on without an end, these
/// are all cells, those of a scalar included. A read by rows takes its memory as any vector does,
/// where `read_u8` reports a lack of memory as an error of its own.
pub assume_specification[ hdf5_pure::Dataset::read_u8_rows ](
    dataset: &hdf5_pure::Dataset,
    start_row: u64,
    num_rows: u64,
) -> (cells: Result<Vec<u8>, hdf5_pure::Error>)
    requires
        start_row == 0,
        num_rows == u64::MAX,
    ensures
        match cells {
            Ok(v) => reading_bytes(dataset_image(*dataset), dataset_path(*dataset)) matches Ok(l)
                && l == v@,
            Err(e) => reading_bytes(dataset_image(*dataset), dataset_path(*dataset)) matches Err(w)
                && w == error_words(e),
        },
;

/// `hdf5_pure::Dataset::read_u64_rows` reads cells as words. From row zero on without an end,
/// these are all cells, those of a scalar included.
pub assume_specification[ hdf5_pure::Dataset::read_u64_rows ](
    dataset: &hdf5_pure::Dataset,
    start_row: u64,
    num_rows: u64,
) -> (cells: Result<Vec<u64>, hdf5_pure::Error>)
    requires
        start_row == 0,
        num_rows == u64::MAX,
    ensures
        match cells {
            Ok(v) => reading_words(dataset_image(*dataset), dataset_path(*dataset)) matches Ok(l)
                && l == v@,
            Err(e) => reading_words(dataset_image(*dataset), dataset_path(*dataset)) matches Err(w)
                && w == error_words(e),
        },
;

/// `hdf5_pure::Dataset::read_f64_rows`, from row zero on without an end, reads all cells as
/// double-precision numbers.
#[verifier::external_body]
pub(crate) fn read_reals(dataset: &hdf5_pure::Dataset) -> (cells: Result<
    Vec<Real>,
    hdf5_pure::Error,
>)
    ensures
        match cells {
            Ok(v) => reading_reals(dataset_image(*dataset), dataset_path(*dataset)) matches Ok(l)
                && l == v@,
            Err(e) => reading_reals(dataset_image(*dataset), dataset_path(*dataset)) matches Err(w)
                && w == error_words(e),
        },
{
    let cells = dataset.read_f64_rows(0, u64::MAX)?;
    Ok(cells.into_iter().map(|value| Real { bits: value.to_bits() }).collect())
}

} // verus!
