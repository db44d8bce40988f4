//! The columnar carriers of values: the data types and fields that a reader produces.

use vstd::prelude::*;

verus! {

/// The resolution of a time of day or a timestamp.
#[derive(Clone, Copy, Debug, PartialEq, Eq, Structural)]
pub enum TimeUnit {
    Second,
    Millisecond,
    Microsecond,
    Nanosecond,
}

/// The carrier of one column.
pub enum DataType {
    Null,
    Boolean,
    Int8,
    Int16,
    Int32,
    Int64,
    UInt8,
    UInt16,
    UInt32,
    UInt64,
    Float16,
    Float32,
    Float64,
    Date32,
    Date64,
    Time32(TimeUnit),
    Time64(TimeUnit),
    Timestamp(TimeUnit, Option<String>),
    Utf8,
    LargeUtf8,
    Utf8View,
    Binary,
    LargeBinary,
    BinaryView,
    FixedSizeBinary(i32),
    Decimal128(u8, i8),
    Decimal256(u8, i8),
    /// The carrier of the keys and the carrier of the values they stand for.
    Dictionary(Box<DataType>, Box<DataType>),
    List(Box<Field>),
    LargeList(Box<Field>),
    FixedSizeList(Box<Field>, i32),
    /// The entries, and whether their keys are sorted.
    MapOf(Box<Field>, bool),
    Struct(Vec<Field>),
}

/// A named carrier, with what its metadata says of it.
pub struct Field {
    pub name: String,
    pub data_type: DataType,
    pub nullable: bool,
    /// The Iceberg field that the carrier holds.
    pub field_id: Option<i32>,
    /// The JSON text of the field's initial default.
    pub initial_default: Option<String>,
    /// Whether the text is tagged as JSON.
    pub json: bool,
    /// Every other entry of the field's metadata, each key once, ascending.
    pub metadata: Vec<(String, String)>,
}

/// [`DataType`] as a mathematical value.
pub enum DataTypeModel {
    Null,
    Boolean,
    Int8,
    Int16,
    Int32,
    Int64,
    UInt8,
    UInt16,
    UInt32,
    UInt64,
    Float16,
    Float32,
    Float64,
    Date32,
    Date64,
    Time32(TimeUnit),
    Time64(TimeUnit),
    Timestamp(TimeUnit, Option<Seq<char>>),
    Utf8,
    LargeUtf8,
    Utf8View,
    Binary,
    LargeBinary,
    BinaryView,
    FixedSizeBinary(i32),
    Decimal128(u8, i8),
    Decimal256(u8, i8),
    Dictionary(Box<DataTypeModel>, Box<DataTypeModel>),
    List(Box<CarrierModel>),
    LargeList(Box<CarrierModel>),
    FixedSizeList(Box<CarrierModel>, i32),
    MapOf(Box<CarrierModel>, bool),
    Struct(Seq<CarrierModel>),
}

/// [`Field`] as a mathematical value.
pub struct CarrierModel {
    pub name: Seq<char>,
    pub data_type: DataTypeModel,
    pub nullable: bool,
    pub field_id: Option<i32>,
    pub initial_default: Option<Seq<char>>,
    pub json: bool,
    pub metadata: Seq<(Seq<char>, Seq<char>)>,
}

/// Metadata entries as mathematical values.
pub open spec fn entry_texts(entries: Seq<(String, String)>) -> Seq<(Seq<char>, Seq<char>)> {
    entries.map_values(|entry: (String, String)| (entry.0@, entry.1@))
}

/// An optional text as a mathematical value.
pub open spec fn text_model(text: Option<String>) -> Option<Seq<char>> {
    match text {
        Some(held) => Some(held@),
        None => None,
    }
}

impl DataType {
    pub open spec fn model(self) -> DataTypeModel
        decreases self,
    {
        match self {
            DataType::Null => DataTypeModel::Null,
            DataType::Boolean => DataTypeModel::Boolean,
            DataType::Int8 => DataTypeModel::Int8,
            DataType::Int16 => DataTypeModel::Int16,
            DataType::Int32 => DataTypeModel::Int32,
            DataType::Int64 => DataTypeModel::Int64,
            DataType::UInt8 => DataTypeModel::UInt8,
            DataType::UInt16 => DataTypeModel::UInt16,
            DataType::UInt32 => DataTypeModel::UInt32,
            DataType::UInt64 => DataTypeModel::UInt64,
            DataType::Float16 => DataTypeModel::Float16,
            DataType::Float32 => DataTypeModel::Float32,
            DataType::Float64 => DataTypeModel::Float64,
            DataType::Date32 => DataTypeModel::Date32,
            DataType::Date64 => DataTypeModel::Date64,
            DataType::Time32(unit) => DataTypeModel::Time32(unit),
            DataType::Time64(unit) => DataTypeModel::Time64(unit),
            DataType::Timestamp(unit, zone) => DataTypeModel::Timestamp(unit, text_model(zone)),
            DataType::Utf8 => DataTypeModel::Utf8,
            DataType::LargeUtf8 => DataTypeModel::LargeUtf8,
            DataType::Utf8View => DataTypeModel::Utf8View,
            DataType::Binary => DataTypeModel::Binary,
            DataType::LargeBinary => DataTypeModel::LargeBinary,
            DataType::BinaryView => DataTypeModel::BinaryView,
            DataType::FixedSizeBinary(width) => DataTypeModel::FixedSizeBinary(width),
            DataType::Decimal128(precision, scale) => DataTypeModel::Decimal128(precision, scale),
            DataType::Decimal256(precision, scale) => DataTypeModel::Decimal256(precision, scale),
            DataType::Dictionary(keys, values) => DataTypeModel::Dictionary(
                Box::new(keys.model()),
                Box::new(values.model()),
            ),
            DataType::List(element) => DataTypeModel::List(Box::new(element.model())),
            DataType::LargeList(element) => DataTypeModel::LargeList(Box::new(element.model())),
            DataType::FixedSizeList(element, size) => DataTypeModel::FixedSizeList(
                Box::new(element.model()),
                size,
            ),
            DataType::MapOf(entries, sorted) => DataTypeModel::MapOf(
                Box::new(entries.model()),
                sorted,
            ),
            DataType::Struct(fields) => DataTypeModel::Struct(
                Seq::new(
                    fields.len() as nat,
                    |i: int|
                        if 0 <= i < fields.len() {
                            fields[i].model()
                        } else {
                            arbitrary()
                        },
                ),
            ),
        }
    }

    /// Whether two carriers are the same in every part, names and metadata of nested fields
    /// included.
    pub fn same(&self, other: &DataType) -> (same: bool)
        ensures
            same == (self.model() == other.model()),
        decreases *self,
    {
        match (self, other) {
            (DataType::Null, DataType::Null) => true,
            (DataType::Boolean, DataType::Boolean) => true,
            (DataType::Int8, DataType::Int8) => true,
            (DataType::Int16, DataType::Int16) => true,
            (DataType::Int32, DataType::Int32) => true,
            (DataType::Int64, DataType::Int64) => true,
            (DataType::UInt8, DataType::UInt8) => true,
            (DataType::UInt16, DataType::UInt16) => true,
            (DataType::UInt32, DataType::UInt32) => true,
            (DataType::UInt64, DataType::UInt64) => true,
            (DataType::Float16, DataType::Float16) => true,
            (DataType::Float32, DataType::Float32) => true,
            (DataType::Float64, DataType::Float64) => true,
            (DataType::Date32, DataType::Date32) => true,
            (DataType::Date64, DataType::Date64) => true,
            (DataType::Time32(left), DataType::Time32(right)) => *left == *right,
            (DataType::Time64(left), DataType::Time64(right)) => *left == *right,
            (DataType::Timestamp(left, left_zone), DataType::Timestamp(right, right_zone)) => *left
                == *right && same_text(left_zone, right_zone),
            (DataType::Utf8, DataType::Utf8) => true,
            (DataType::LargeUtf8, DataType::LargeUtf8) => true,
            (DataType::Utf8View, DataType::Utf8View) => true,
            (DataType::Binary, DataType::Binary) => true,
            (DataType::LargeBinary, DataType::LargeBinary) => true,
            (DataType::BinaryView, DataType::BinaryView) => true,
            (DataType::FixedSizeBinary(left), DataType::FixedSizeBinary(right)) => *left == *right,
            (DataType::Decimal128(left, left_scale), DataType::Decimal128(right, right_scale)) => *left
                == *right && *left_scale == *right_scale,
            (DataType::Decimal256(left, left_scale), DataType::Decimal256(right, right_scale)) => *left
                == *right && *left_scale == *right_scale,
            (
                DataType::Dictionary(left_keys, left_values),
                DataType::Dictionary(right_keys, right_values),
            ) => left_keys.same(right_keys) && left_values.same(right_values),
            (DataType::List(left), DataType::List(right)) => left.same(right),
            (DataType::LargeList(left), DataType::LargeList(right)) => left.same(right),
            (DataType::FixedSizeList(left, left_size), DataType::FixedSizeList(right, right_size)) => *left_size
                == *right_size && left.same(right),
            (DataType::MapOf(left, left_sorted), DataType::MapOf(right, right_sorted)) => *left_sorted
                == *right_sorted && left.same(right),
            (DataType::Struct(left), DataType::Struct(right)) => {
                if left.len() != right.len() {
                    assert(self.model()->Struct_0.len() != other.model()->Struct_0.len());
                    return false;
                }
                let mut i: usize = 0;
                while i < left.len()
                    invariant
                        i <= left.len(),
                        left.len() == right.len(),
                        *self == DataType::Struct(*left),
                        *other == DataType::Struct(*right),
                        forall|k: int| 0 <= k < i ==> #[trigger] left[k].model() == right[k].model(),
                    decreases left.len() - i,
                {
                    assert(decreases_to!(*self => left[i as int]));
                    if !left[i].same(&right[i]) {
                        assert(self.model()->Struct_0[i as int] != other.model()->Struct_0[i as int]);
                        return false;
                    }
                    i += 1;
                }
                proof {
                    lemma_struct_model(*left);
                    lemma_struct_model(*right);
                    assert(field_models(left@) =~= field_models(right@));
                }
                true
            },
            _ => false,
        }
    }

    /// A copy of the carrier.
    pub fn duplicate(&self) -> (copy: DataType)
        ensures
            copy.model() == self.model(),
        decreases *self,
    {
        match self {
            DataType::Null => DataType::Null,
            DataType::Boolean => DataType::Boolean,
            DataType::Int8 => DataType::Int8,
            DataType::Int16 => DataType::Int16,
            DataType::Int32 => DataType::Int32,
            DataType::Int64 => DataType::Int64,
            DataType::UInt8 => DataType::UInt8,
            DataType::UInt16 => DataType::UInt16,
            DataType::UInt32 => DataType::UInt32,
            DataType::UInt64 => DataType::UInt64,
            DataType::Float16 => DataType::Float16,
            DataType::Float32 => DataType::Float32,
            DataType::Float64 => DataType::Float64,
            DataType::Date32 => DataType::Date32,
            DataType::Date64 => DataType::Date64,
            DataType::Time32(unit) => DataType::Time32(*unit),
            DataType::Time64(unit) => DataType::Time64(*unit),
            DataType::Timestamp(unit, zone) => DataType::Timestamp(*unit, duplicate_text(zone)),
            DataType::Utf8 => DataType::Utf8,
            DataType::LargeUtf8 => DataType::LargeUtf8,
            DataType::Utf8View => DataType::Utf8View,
            DataType::Binary => DataType::Binary,
            DataType::LargeBinary => DataType::LargeBinary,
            DataType::BinaryView => DataType::BinaryView,
            DataType::FixedSizeBinary(width) => DataType::FixedSizeBinary(*width),
            DataType::Decimal128(precision, scale) => DataType::Decimal128(*precision, *scale),
            DataType::Decimal256(precision, scale) => DataType::Decimal256(*precision, *scale),
            DataType::Dictionary(keys, values) => {
                let keys = keys.duplicate();
                let values = values.duplicate();
                DataType::Dictionary(Box::new(keys), Box::new(values))
            },
            DataType::List(element) => DataType::List(Box::new(element.duplicate())),
            DataType::LargeList(element) => DataType::LargeList(Box::new(element.duplicate())),
            DataType::FixedSizeList(element, size) => DataType::FixedSizeList(
                Box::new(element.duplicate()),
                *size,
            ),
            DataType::MapOf(entries, sorted) => DataType::MapOf(
                Box::new(entries.duplicate()),
                *sorted,
            ),
            DataType::Struct(fields) => {
                let mut copies: Vec<Field> = Vec::new();
                let mut i: usize = 0;
                while i < fields.len()
                    invariant
                        i <= fields.len(),
                        *self is Struct,
                        self->Struct_0 == *fields,
                        copies.len() == i,
                        forall|k: int| 0 <= k < i ==> #[trigger] copies[k].model() == fields[k].model(),
                    decreases fields.len() - i,
                {
                    assert(decreases_to!(*self => fields[i as int]));
                    copies.push(fields[i].duplicate());
                    i += 1;
                }
                proof {
                    lemma_struct_model(copies);
                    lemma_struct_model(*fields);
                    assert(field_models(copies@) =~= field_models(fields@));
                }
                DataType::Struct(copies)
            },
        }
    }
}

pub fn same_text(left: &Option<String>, right: &Option<String>) -> (same: bool)
    ensures
        same == (text_model(*left) == text_model(*right)),
{
    match (left, right) {
        (Some(left), Some(right)) => *left == *right,
        (None, None) => true,
        _ => false,
    }
}

pub fn duplicate_text(text: &Option<String>) -> (copy: Option<String>)
    ensures
        text_model(copy) == text_model(*text),
{
    match text {
        Some(held) => Some(held.clone()),
        None => None,
    }
}

fn same_entries(left: &Vec<(String, String)>, right: &Vec<(String, String)>) -> (same: bool)
    ensures
        same == (entry_texts(left@) == entry_texts(right@)),
{
    if left.len() != right.len() {
        assert(entry_texts(left@).len() != entry_texts(right@).len());
        return false;
    }
    let mut i: usize = 0;
    while i < left.len()
        invariant
            i <= left.len(),
            left.len() == right.len(),
            forall|k: int|
                0 <= k < i ==> (#[trigger] left@[k]).0@ == right@[k].0@ && left@[k].1@ == right@[k].1@,
        decreases left.len() - i,
    {
        if left[i].0 != right[i].0 || left[i].1 != right[i].1 {
            assert(entry_texts(left@)[i as int] != entry_texts(right@)[i as int]);
            return false;
        }
        i += 1;
    }
    assert(entry_texts(left@) =~= entry_texts(right@));
    true
}

/// A copy of metadata entries.
pub fn duplicate_entries(entries: &Vec<(String, String)>) -> (copy: Vec<(String, String)>)
    ensures
        entry_texts(copy@) == entry_texts(entries@),
{
    let mut copy: Vec<(String, String)> = Vec::new();
    let mut i: usize = 0;
    while i < entries.len()
        invariant
            i <= entries.len(),
            copy@.len() == i,
            forall|k: int|
                0 <= k < i ==> (#[trigger] copy@[k]).0@ == entries@[k].0@ && copy@[k].1@ == entries@[k].1@,
        decreases entries.len() - i,
    {
        copy.push((entries[i].0.clone(), entries[i].1.clone()));
        i += 1;
    }
    assert(entry_texts(copy@) =~= entry_texts(entries@));
    copy
}

/// No metadata entry.
pub fn no_entries() -> (entries: Vec<(String, String)>)
    ensures
        entry_texts(entries@) == Seq::<(Seq<char>, Seq<char>)>::empty(),
{
    let entries: Vec<(String, String)> = Vec::new();
    assert(entry_texts(entries@) =~= Seq::<(Seq<char>, Seq<char>)>::empty());
    entries
}

impl Field {
    pub open spec fn model(self) -> CarrierModel
        decreases self,
    {
        CarrierModel {
            name: self.name@,
            data_type: self.data_type.model(),
            nullable: self.nullable,
            field_id: self.field_id,
            initial_default: text_model(self.initial_default),
            json: self.json,
            metadata: entry_texts(self.metadata@),
        }
    }

    /// Whether two fields are the same in every part.
    pub fn same(&self, other: &Field) -> (same: bool)
        ensures
            same == (self.model() == other.model()),
        decreases *self,
    {
        self.name == other.name && self.nullable == other.nullable && self.field_id == other.field_id
            && self.json == other.json && same_text(&self.initial_default, &other.initial_default)
            && same_entries(&self.metadata, &other.metadata) && self.data_type.same(&other.data_type)
    }

    /// A copy of the field.
    pub fn duplicate(&self) -> (copy: Field)
        ensures
            copy.model() == self.model(),
        decreases *self,
    {
        Field {
            name: self.name.clone(),
            data_type: self.data_type.duplicate(),
            nullable: self.nullable,
            field_id: self.field_id,
            initial_default: duplicate_text(&self.initial_default),
            json: self.json,
            metadata: duplicate_entries(&self.metadata),
        }
    }
}

/// The models of a list of fields.
pub open spec fn field_models(fields: Seq<Field>) -> Seq<CarrierModel> {
    fields.map_values(|field: Field| field.model())
}

/// A struct is modelled by the models of its fields.
pub proof fn lemma_struct_model(fields: Vec<Field>)
    ensures
        DataType::Struct(fields).model() == DataTypeModel::Struct(field_models(fields@)),
{
    assert(DataType::Struct(fields).model()->Struct_0 =~= field_models(fields@));
}

} // verus!
