//! The frozen output schemas of the system relations.
//!
//! A column list, its order and its types are a function of the table schema and the partition
//! specs alone. A bound has the type of the field whose id it is keyed by.

use vstd::prelude::*;

use crate::carrier::{field_models, lemma_struct_model, no_entries, CarrierModel, DataType, DataTypeModel, Field, TimeUnit};
use crate::column_handle::{base_handle, handle_models, ColumnHandleModel, IcebergColumnHandle};
use crate::error::{ConnectorError, CorruptData, InternalFault, InvalidRequest, UnsupportedFeature};
use crate::keyed::{ascending, law_put_keeps_ascending, lemma_put_map, put, put_entry};
use crate::partition::{ordered_specs, spec_models, specs_by_id, PartitionField, PartitionFieldModel, PartitionSpec, PartitionSpecModel, TransformResult};
use crate::text::{equal_ignoring_case, integer_text, integer_to_string, same_ignoring_case};
use crate::types::{entry_models, entry_with_id, lemma_struct_type_model, nested_models, schema_entries, type_json, type_to_json, DefaultModel, EntryModel, FieldModel, InitialDefault, NestedField, PrimitiveType, Schema, Type, TypeModel};

verus! {

/// A relation over the metadata of one pinned table.
#[derive(Clone, Copy, Debug, PartialEq, Eq, Structural)]
pub enum IcebergSystemTableType {
    Files,
    Entries,
    Snapshots,
    History,
    Refs,
    Manifests,
}

// ---------------------------------------------------------------------------
// Field constructors
// ---------------------------------------------------------------------------

/// A field without metadata.
pub open spec fn plain_field(name: Seq<char>, data_type: DataTypeModel, nullable: bool) -> CarrierModel {
    CarrierModel {
        name,
        data_type,
        nullable,
        field_id: None,
        initial_default: None,
        json: false,
        metadata: Seq::empty(),
    }
}

pub open spec fn required_field(name: Seq<char>, data_type: DataTypeModel) -> CarrierModel {
    plain_field(name, data_type, false)
}

pub open spec fn nullable_field(name: Seq<char>, data_type: DataTypeModel) -> CarrierModel {
    plain_field(name, data_type, true)
}

/// A text that is tagged as JSON.
pub open spec fn json_field(name: Seq<char>) -> CarrierModel {
    CarrierModel { json: true, ..nullable_field(name, DataTypeModel::Utf8) }
}

/// A map whose keys are never null.
pub open spec fn map_model(key: DataTypeModel, held: DataTypeModel) -> DataTypeModel {
    DataTypeModel::MapOf(
        Box::new(
            required_field(
                "entries"@,
                DataTypeModel::Struct(
                    seq![required_field("key"@, key), nullable_field("value"@, held)],
                ),
            ),
        ),
        false,
    )
}

pub open spec fn list_model(item: DataTypeModel) -> DataTypeModel {
    DataTypeModel::List(Box::new(nullable_field("item"@, item)))
}

/// A timestamp in microseconds that says its zone, which is UTC.
pub open spec fn timestamp_tz_model() -> DataTypeModel {
    DataTypeModel::Timestamp(TimeUnit::Microsecond, Some("UTC"@))
}

fn make_field(name: &str, data_type: DataType, nullable: bool) -> (field: Field)
    ensures
        field.model() == plain_field(name@, data_type.model(), nullable),
{
    Field {
        name: String::from_str(name),
        data_type,
        nullable,
        field_id: None,
        initial_default: None,
        json: false,
        metadata: no_entries(),
    }
}

fn push_field(fields: &mut Vec<Field>, field: Field)
    ensures
        field_models(final(fields)@) == field_models(old(fields)@).push(field.model()),
{
    let ghost before = fields@;
    fields.push(field);
    assert(field_models(fields@) =~= field_models(before).push(field.model()));
}

fn push_required(fields: &mut Vec<Field>, name: &str, data_type: DataType)
    ensures
        field_models(final(fields)@) == field_models(old(fields)@).push(
            required_field(name@, data_type.model()),
        ),
{
    push_field(fields, make_field(name, data_type, false));
}

fn push_nullable(fields: &mut Vec<Field>, name: &str, data_type: DataType)
    ensures
        field_models(final(fields)@) == field_models(old(fields)@).push(
            nullable_field(name@, data_type.model()),
        ),
{
    push_field(fields, make_field(name, data_type, true));
}

fn push_json(fields: &mut Vec<Field>, name: &str)
    ensures
        field_models(final(fields)@) == field_models(old(fields)@).push(json_field(name@)),
{
    let field = Field {
        name: String::from_str(name),
        data_type: DataType::Utf8,
        nullable: true,
        field_id: None,
        initial_default: None,
        json: true,
        metadata: no_entries(),
    };
    push_field(fields, field);
}

fn new_fields() -> (fields: Vec<Field>)
    ensures
        field_models(fields@) == Seq::<CarrierModel>::empty(),
{
    let fields: Vec<Field> = Vec::new();
    assert(field_models(fields@) =~= Seq::<CarrierModel>::empty());
    fields
}

fn struct_of(fields: Vec<Field>) -> (data_type: DataType)
    ensures
        data_type.model() == DataTypeModel::Struct(field_models(fields@)),
{
    proof {
        lemma_struct_model(fields);
    }
    DataType::Struct(fields)
}

pub fn map_type(key: DataType, held: DataType) -> (data_type: DataType)
    ensures
        data_type.model() == map_model(key.model(), held.model()),
{
    let mut fields = new_fields();
    push_required(&mut fields, "key", key);
    push_nullable(&mut fields, "value", held);
    assert(field_models(fields@) =~= seq![
        required_field("key"@, key.model()),
        nullable_field("value"@, held.model()),
    ]);
    let entries = make_field("entries", struct_of(fields), false);
    assert(entries.model() == required_field(
        "entries"@,
        DataTypeModel::Struct(
            seq![required_field("key"@, key.model()), nullable_field("value"@, held.model())],
        ),
    ));
    DataType::MapOf(Box::new(entries), false)
}

pub fn list_type(item: DataType) -> (data_type: DataType)
    ensures
        data_type.model() == list_model(item.model()),
{
    DataType::List(Box::new(make_field("item", item, true)))
}

pub fn timestamp_tz_type() -> (data_type: DataType)
    ensures
        data_type.model() == timestamp_tz_model(),
{
    DataType::Timestamp(TimeUnit::Microsecond, Some(String::from_str("UTC")))
}

// ---------------------------------------------------------------------------
// Type mapping
// ---------------------------------------------------------------------------

/// The exact carrier of a primitive type. A UUID is carried as its canonical text.
pub open spec fn primitive_carrier(primitive: PrimitiveType) -> Result<DataTypeModel, ConnectorError> {
    match primitive {
        PrimitiveType::Boolean => Ok(DataTypeModel::Boolean),
        PrimitiveType::Int => Ok(DataTypeModel::Int32),
        PrimitiveType::Long => Ok(DataTypeModel::Int64),
        PrimitiveType::Float => Ok(DataTypeModel::Float32),
        PrimitiveType::Double => Ok(DataTypeModel::Float64),
        PrimitiveType::Decimal { precision, scale } => if precision > u8::MAX {
            Err(ConnectorError::Invalid(InvalidRequest::DecimalPrecisionOutOfRange))
        } else if scale > i8::MAX {
            Err(ConnectorError::Invalid(InvalidRequest::DecimalScaleOutOfRange))
        } else {
            Ok(DataTypeModel::Decimal128(precision as u8, scale as i8))
        },
        PrimitiveType::Date => Ok(DataTypeModel::Date32),
        PrimitiveType::Time => Ok(DataTypeModel::Time64(TimeUnit::Microsecond)),
        PrimitiveType::Timestamp => Ok(DataTypeModel::Timestamp(TimeUnit::Microsecond, None)),
        PrimitiveType::Timestamptz => Ok(timestamp_tz_model()),
        PrimitiveType::TimestampNs => Ok(DataTypeModel::Timestamp(TimeUnit::Nanosecond, None)),
        PrimitiveType::TimestamptzNs => Ok(
            DataTypeModel::Timestamp(TimeUnit::Nanosecond, Some("UTC"@)),
        ),
        PrimitiveType::String | PrimitiveType::Uuid => Ok(DataTypeModel::Utf8),
        PrimitiveType::Fixed(width) => if width > i32::MAX {
            Err(ConnectorError::Invalid(InvalidRequest::FixedWidthOutOfRange))
        } else {
            Ok(DataTypeModel::FixedSizeBinary(width as i32))
        },
        PrimitiveType::Binary => Ok(DataTypeModel::Binary),
        PrimitiveType::Variant => Err(ConnectorError::Unsupported(UnsupportedFeature::VariantCarrier)),
    }
}

/// A carrier, or why there is none, as a mathematical value.
pub open spec fn carrier_result(result: Result<DataType, ConnectorError>) -> Result<DataTypeModel, ConnectorError> {
    match result {
        Ok(data_type) => Ok(data_type.model()),
        Err(error) => Err(error),
    }
}

/// Map a primitive type to its exact carrier.
pub fn iceberg_primitive_to_arrow(primitive: PrimitiveType) -> (result: Result<DataType, ConnectorError>)
    ensures
        carrier_result(result) == primitive_carrier(primitive),
{
    match primitive {
        PrimitiveType::Boolean => Ok(DataType::Boolean),
        PrimitiveType::Int => Ok(DataType::Int32),
        PrimitiveType::Long => Ok(DataType::Int64),
        PrimitiveType::Float => Ok(DataType::Float32),
        PrimitiveType::Double => Ok(DataType::Float64),
        PrimitiveType::Decimal { precision, scale } => {
            if precision > 255 {
                Err(ConnectorError::Invalid(InvalidRequest::DecimalPrecisionOutOfRange))
            } else if scale > 127 {
                Err(ConnectorError::Invalid(InvalidRequest::DecimalScaleOutOfRange))
            } else {
                Ok(DataType::Decimal128(precision as u8, scale as i8))
            }
        },
        PrimitiveType::Date => Ok(DataType::Date32),
        PrimitiveType::Time => Ok(DataType::Time64(TimeUnit::Microsecond)),
        PrimitiveType::Timestamp => Ok(DataType::Timestamp(TimeUnit::Microsecond, None)),
        PrimitiveType::Timestamptz => Ok(timestamp_tz_type()),
        PrimitiveType::TimestampNs => Ok(DataType::Timestamp(TimeUnit::Nanosecond, None)),
        PrimitiveType::TimestamptzNs => Ok(
            DataType::Timestamp(TimeUnit::Nanosecond, Some(String::from_str("UTC"))),
        ),
        PrimitiveType::String | PrimitiveType::Uuid => Ok(DataType::Utf8),
        PrimitiveType::Fixed(width) => {
            if width > 2147483647 {
                Err(ConnectorError::Invalid(InvalidRequest::FixedWidthOutOfRange))
            } else {
                Ok(DataType::FixedSizeBinary(width as i32))
            }
        },
        PrimitiveType::Binary => Ok(DataType::Binary),
        PrimitiveType::Variant => Err(ConnectorError::Unsupported(UnsupportedFeature::VariantCarrier)),
    }
}

/// Hands out the field ids of a metadata relation's columns, from 1 up.
pub struct MetadataRelationFieldIds {
    pub next: i32,
}

impl MetadataRelationFieldIds {
    pub fn new() -> (ids: MetadataRelationFieldIds)
        ensures
            ids.next == 1,
    {
        MetadataRelationFieldIds { next: 1 }
    }

    /// The next id. The last id that an `i32` holds is not handed out.
    pub fn take(&mut self) -> (id: Result<i32, ConnectorError>)
        ensures
            old(self).next < i32::MAX ==> id == Ok::<i32, ConnectorError>(old(self).next)
                && final(self).next == old(self).next + 1,
            old(self).next == i32::MAX ==> id == Err::<i32, ConnectorError>(
                ConnectorError::Internal(InternalFault::FieldIdsExhausted),
            ) && final(self).next == old(self).next,
    {
        let id: i32 = self.next;
        match id.checked_add(1) {
            Some(next) => {
                self.next = next;
                Ok(id)
            },
            None => Err(ConnectorError::Internal(InternalFault::FieldIdsExhausted)),
        }
    }
}

/// The Iceberg primitive that a carrier of a frozen schema stands for, where it is no
/// constructor.
pub open spec fn carried_primitive(data_type: DataTypeModel) -> Result<Option<PrimitiveType>, ConnectorError> {
    match data_type {
        DataTypeModel::Boolean => Ok(Some(PrimitiveType::Boolean)),
        DataTypeModel::Int32 => Ok(Some(PrimitiveType::Int)),
        DataTypeModel::Int64 => Ok(Some(PrimitiveType::Long)),
        DataTypeModel::Float32 => Ok(Some(PrimitiveType::Float)),
        DataTypeModel::Float64 => Ok(Some(PrimitiveType::Double)),
        DataTypeModel::Decimal128(precision, scale) => if scale < 0 {
            Err(ConnectorError::Invalid(InvalidRequest::DecimalScaleOutOfRange))
        } else {
            Ok(Some(PrimitiveType::Decimal { precision: precision as u32, scale: scale as u32 }))
        },
        DataTypeModel::Date32 => Ok(Some(PrimitiveType::Date)),
        DataTypeModel::Time64(TimeUnit::Microsecond) => Ok(Some(PrimitiveType::Time)),
        DataTypeModel::Timestamp(TimeUnit::Microsecond, None) => Ok(Some(PrimitiveType::Timestamp)),
        DataTypeModel::Timestamp(TimeUnit::Microsecond, Some(_)) => Ok(
            Some(PrimitiveType::Timestamptz),
        ),
        DataTypeModel::Timestamp(TimeUnit::Nanosecond, None) => Ok(Some(PrimitiveType::TimestampNs)),
        DataTypeModel::Timestamp(TimeUnit::Nanosecond, Some(_)) => Ok(
            Some(PrimitiveType::TimestamptzNs),
        ),
        DataTypeModel::Utf8 => Ok(Some(PrimitiveType::String)),
        DataTypeModel::Binary => Ok(Some(PrimitiveType::Binary)),
        DataTypeModel::FixedSizeBinary(width) => if width < 0 {
            Err(ConnectorError::Invalid(InvalidRequest::FixedWidthOutOfRange))
        } else {
            Ok(Some(PrimitiveType::Fixed(width as u64)))
        },
        _ => Ok(None),
    }
}

/// The Iceberg mirror of a carrier, with ids from `next` up, and the next free id.
pub open spec fn mirrored_type(data_type: DataTypeModel, next: int) -> Result<(TypeModel, int), ConnectorError>
    decreases data_type, 0nat,
{
    match carried_primitive(data_type) {
        Err(error) => Err(error),
        Ok(Some(primitive)) => Ok((TypeModel::Primitive(primitive), next)),
        Ok(None) => match data_type {
            DataTypeModel::Struct(fields) => match mirrored_fields(fields, fields.len(), next) {
                Err(error) => Err(error),
                Ok((mirrored, after)) => Ok((TypeModel::Struct(mirrored), after)),
            },
            DataTypeModel::List(element) => match mirrored_field(*element, next) {
                Err(error) => Err(error),
                Ok((mirrored, after)) => Ok((TypeModel::List(Box::new(mirrored)), after)),
            },
            DataTypeModel::MapOf(entries, _) => match entries.data_type {
                DataTypeModel::Struct(fields) => if fields.len() != 2 {
                    Err(ConnectorError::Internal(InternalFault::MapEntriesNotKeyValue))
                } else {
                    match mirrored_field(fields[0], next) {
                        Err(error) => Err(error),
                        Ok((key, after_key)) => match mirrored_field(fields[1], after_key) {
                            Err(error) => Err(error),
                            Ok((held, after)) => Ok(
                                (TypeModel::MapOf(Box::new(key), Box::new(held)), after),
                            ),
                        },
                    }
                },
                _ => Err(ConnectorError::Internal(InternalFault::MapEntriesNotStruct)),
            },
            _ => Err(ConnectorError::Unsupported(UnsupportedFeature::MetadataCarrier)),
        },
    }
}

/// The Iceberg mirror of a field: what is nested in it takes its ids first.
pub open spec fn mirrored_field(field: CarrierModel, next: int) -> Result<(FieldModel, int), ConnectorError>
    decreases field, 1nat,
{
    match mirrored_type(field.data_type, next) {
        Err(error) => Err(error),
        Ok((field_type, after)) => if after >= i32::MAX {
            Err(ConnectorError::Internal(InternalFault::FieldIdsExhausted))
        } else {
            Ok(
                (
                    FieldModel {
                        id: after as i32,
                        name: field.name,
                        required: !field.nullable,
                        field_type,
                        initial_default: DefaultModel::Absent,
                    },
                    after + 1,
                ),
            )
        },
    }
}

/// The Iceberg mirrors of the first `n` of `fields`.
pub open spec fn mirrored_fields(fields: Seq<CarrierModel>, n: nat, next: int) -> Result<(Seq<FieldModel>, int), ConnectorError>
    decreases fields, n,
{
    if n == 0 || n > fields.len() {
        Ok((seq![], next))
    } else {
        match mirrored_fields(fields, (n - 1) as nat, next) {
            Err(error) => Err(error),
            Ok((before, after)) => match mirrored_field(fields[n - 1], after) {
                Err(error) => Err(error),
                Ok((mirrored, last)) => Ok((before.push(mirrored), last)),
            },
        }
    }
}

fn carried_primitive_of(data_type: &DataType) -> (primitive: Result<Option<PrimitiveType>, ConnectorError>)
    ensures
        primitive == carried_primitive(data_type.model()),
{
    match data_type {
        DataType::Boolean => Ok(Some(PrimitiveType::Boolean)),
        DataType::Int32 => Ok(Some(PrimitiveType::Int)),
        DataType::Int64 => Ok(Some(PrimitiveType::Long)),
        DataType::Float32 => Ok(Some(PrimitiveType::Float)),
        DataType::Float64 => Ok(Some(PrimitiveType::Double)),
        DataType::Decimal128(precision, scale) => {
            if *scale < 0 {
                Err(ConnectorError::Invalid(InvalidRequest::DecimalScaleOutOfRange))
            } else {
                Ok(
                    Some(
                        PrimitiveType::Decimal {
                            precision: *precision as u32,
                            scale: *scale as u32,
                        },
                    ),
                )
            }
        },
        DataType::Date32 => Ok(Some(PrimitiveType::Date)),
        DataType::Time64(TimeUnit::Microsecond) => Ok(Some(PrimitiveType::Time)),
        DataType::Timestamp(TimeUnit::Microsecond, zone) => if zone.is_some() {
            Ok(Some(PrimitiveType::Timestamptz))
        } else {
            Ok(Some(PrimitiveType::Timestamp))
        },
        DataType::Timestamp(TimeUnit::Nanosecond, zone) => if zone.is_some() {
            Ok(Some(PrimitiveType::TimestamptzNs))
        } else {
            Ok(Some(PrimitiveType::TimestampNs))
        },
        DataType::Utf8 => Ok(Some(PrimitiveType::String)),
        DataType::Binary => Ok(Some(PrimitiveType::Binary)),
        DataType::FixedSizeBinary(width) => {
            if *width < 0 {
                Err(ConnectorError::Invalid(InvalidRequest::FixedWidthOutOfRange))
            } else {
                Ok(Some(PrimitiveType::Fixed(*width as u64)))
            }
        },
        _ => Ok(None),
    }
}

/// The Iceberg mirror of a field of a frozen schema.
pub fn metadata_relation_field(field: &Field, ids: &mut MetadataRelationFieldIds) -> (result: Result<NestedField, ConnectorError>)
    ensures
        match mirrored_field(field.model(), old(ids).next as int) {
            Ok((mirrored, after)) => result is Ok && result->Ok_0.model() == mirrored
                && final(ids).next == after,
            Err(error) => result == Err::<NestedField, ConnectorError>(error),
        },
    decreases *field, 1nat,
{
    match metadata_relation_type(&field.data_type, ids) {
        Err(error) => Err(error),
        Ok(field_type) => match ids.take() {
            Err(error) => Err(error),
            Ok(id) => Ok(
                NestedField {
                    id,
                    name: field.name.clone(),
                    required: !field.nullable,
                    field_type,
                    initial_default: InitialDefault::Absent,
                },
            ),
        },
    }
}

/// The Iceberg mirror of a carrier of a frozen schema. A carrier that the frozen schemas do not
/// produce is refused.
pub fn metadata_relation_type(data_type: &DataType, ids: &mut MetadataRelationFieldIds) -> (result: Result<Type, ConnectorError>)
    ensures
        match mirrored_type(data_type.model(), old(ids).next as int) {
            Ok((mirrored, after)) => result is Ok && result->Ok_0.model() == mirrored
                && final(ids).next == after,
            Err(error) => result == Err::<Type, ConnectorError>(error),
        },
    decreases *data_type, 0nat,
{
    match carried_primitive_of(data_type) {
        Err(error) => return Err(error),
        Ok(Some(primitive)) => return Ok(Type::Primitive(primitive)),
        Ok(None) => {},
    }
    match data_type {
        DataType::Struct(fields) => {
            let ghost models = field_models(fields@);
            proof {
                lemma_struct_model(*fields);
            }
            let mut mirrored: Vec<NestedField> = Vec::new();
            let mut i: usize = 0;
            assert(nested_models(mirrored@) =~= Seq::<FieldModel>::empty());
            while i < fields.len()
                invariant
                    i <= fields.len(),
                    *data_type is Struct,
                    data_type->Struct_0 == *fields,
                    data_type.model() == DataTypeModel::Struct(models),
                    models == field_models(fields@),
                    models.len() == fields.len(),
                    mirrored_fields(models, i as nat, old(ids).next as int) == Ok::<(Seq<FieldModel>, int), ConnectorError>((nested_models(mirrored@), ids.next as int)),
                decreases fields.len() - i,
            {
                assert(decreases_to!(*data_type => fields[i as int]));
                assert(models[i as int] == fields[i as int].model());
                match metadata_relation_field(&fields[i], ids) {
                    Ok(field) => {
                        let ghost before = mirrored@;
                        mirrored.push(field);
                        assert(nested_models(mirrored@) =~= nested_models(before).push(field.model()));
                    },
                    Err(error) => {
                        proof {
                            lemma_mirrored_fields_error(models, (i + 1) as nat, old(ids).next as int);
                        }
                        return Err(error);
                    },
                }
                i += 1;
            }
            proof {
                lemma_struct_type_model(mirrored);
            }
            Ok(Type::Struct(mirrored))
        },
        DataType::List(element) => match metadata_relation_field(element, ids) {
            Ok(field) => Ok(Type::List(Box::new(field))),
            Err(error) => Err(error),
        },
        DataType::MapOf(entries, _) => match &entries.data_type {
            DataType::Struct(fields) => {
                proof {
                    lemma_struct_model(*fields);
                    assert(entries.model().data_type == entries.data_type.model());
                    assert(data_type.model() is MapOf);
                    assert(*data_type.model()->MapOf_0 == entries.model());
                }
                if fields.len() != 2 {
                    return Err(ConnectorError::Internal(InternalFault::MapEntriesNotKeyValue));
                }
                assert(decreases_to!(*data_type => fields[0]));
                assert(decreases_to!(*data_type => fields[1]));
                let key = match metadata_relation_field(&fields[0], ids) {
                    Ok(field) => field,
                    Err(error) => return Err(error),
                };
                match metadata_relation_field(&fields[1], ids) {
                    Ok(held) => Ok(Type::MapOf(Box::new(key), Box::new(held))),
                    Err(error) => Err(error),
                }
            },
            _ => Err(ConnectorError::Internal(InternalFault::MapEntriesNotStruct)),
        },
        _ => Err(ConnectorError::Unsupported(UnsupportedFeature::MetadataCarrier)),
    }
}

/// Once one of the first `n` fields has no mirror, the whole list has none.
proof fn lemma_mirrored_fields_error(fields: Seq<CarrierModel>, n: nat, next: int)
    requires
        n <= fields.len(),
        mirrored_fields(fields, n, next) is Err,
    ensures
        mirrored_fields(fields, fields.len(), next) == mirrored_fields(fields, n, next),
    decreases fields.len() - n,
{
    if n < fields.len() {
        lemma_mirrored_fields_error(fields, n + 1, next);
    }
}

/// The Iceberg mirror of a frozen schema, as a struct type.
pub fn metadata_relation_row(fields: &Vec<Field>) -> (result: Result<Type, ConnectorError>)
    ensures
        match mirrored_fields(field_models(fields@), fields@.len(), 1) {
            Ok((mirrored, _)) => result is Ok && result->Ok_0.model() == TypeModel::Struct(mirrored),
            Err(error) => result == Err::<Type, ConnectorError>(error),
        },
{
    match mirrored_columns(fields) {
        Ok(mirrored) => {
            proof {
                lemma_struct_type_model(mirrored);
            }
            Ok(Type::Struct(mirrored))
        },
        Err(error) => Err(error),
    }
}

fn mirrored_columns(fields: &Vec<Field>) -> (result: Result<Vec<NestedField>, ConnectorError>)
    ensures
        match mirrored_fields(field_models(fields@), fields@.len(), 1) {
            Ok((mirrored, _)) => result is Ok && nested_models(result->Ok_0@) == mirrored,
            Err(error) => result == Err::<Vec<NestedField>, ConnectorError>(error),
        },
{
    let ghost models = field_models(fields@);
    let mut ids = MetadataRelationFieldIds::new();
    let mut mirrored: Vec<NestedField> = Vec::new();
    let mut i: usize = 0;
    assert(nested_models(mirrored@) =~= Seq::<FieldModel>::empty());
    while i < fields.len()
        invariant
            i <= fields.len(),
            models == field_models(fields@),
            models.len() == fields.len(),
            mirrored_fields(models, i as nat, 1) == Ok::<(Seq<FieldModel>, int), ConnectorError>(
                (nested_models(mirrored@), ids.next as int),
            ),
        decreases fields.len() - i,
    {
        assert(models[i as int] == fields[i as int].model());
        match metadata_relation_field(&fields[i], &mut ids) {
            Ok(field) => {
                let ghost before = mirrored@;
                mirrored.push(field);
                assert(nested_models(mirrored@) =~= nested_models(before).push(field.model()));
            },
            Err(error) => {
                proof {
                    lemma_mirrored_fields_error(models, (i + 1) as nat, 1);
                }
                return Err(error);
            },
        }
        i += 1;
    }
    Ok(mirrored)
}


// ---------------------------------------------------------------------------
// Schema-derived struct types
// ---------------------------------------------------------------------------

/// The carrier of one partition field, or why it has none.
pub open spec fn partition_carrier(entries: Seq<EntryModel>, field: PartitionFieldModel) -> Result<DataTypeModel, ConnectorError> {
    if entry_with_id(entries, field.source_id) is None {
        Err(ConnectorError::Corrupt(CorruptData::PartitionSourceMissing))
    } else {
        match field.result_type {
            TransformResult::Undefined => Err(
                ConnectorError::Corrupt(CorruptData::PartitionTransformUndefined),
            ),
            TransformResult::Nested => Err(
                ConnectorError::Corrupt(CorruptData::PartitionNotPrimitive),
            ),
            TransformResult::Primitive(primitive) => primitive_carrier(primitive),
        }
    }
}

/// The first column of a name, without regard to case.
pub open spec fn column_named(columns: Seq<CarrierModel>, name: Seq<char>) -> Option<CarrierModel>
    decreases columns.len(),
{
    if columns.len() == 0 {
        None
    } else if same_ignoring_case(columns.first().name, name) {
        Some(columns.first())
    } else {
        column_named(columns.drop_first(), name)
    }
}

/// The partition columns of the first `n` of `fields`: one for each name, in the order of their
/// first mention. A name that comes again has to come with the same carrier.
pub open spec fn partition_columns(entries: Seq<EntryModel>, fields: Seq<PartitionFieldModel>, n: nat) -> Result<Seq<CarrierModel>, ConnectorError>
    decreases n,
{
    if n == 0 || n > fields.len() {
        Ok(seq![])
    } else {
        match partition_columns(entries, fields, (n - 1) as nat) {
            Err(error) => Err(error),
            Ok(columns) => match partition_carrier(entries, fields[n - 1]) {
                Err(error) => Err(error),
                Ok(carrier) => match column_named(columns, fields[n - 1].name) {
                    Some(existing) => if existing.data_type == carrier {
                        Ok(columns)
                    } else {
                        Err(ConnectorError::Corrupt(CorruptData::PartitionTypesConflict))
                    },
                    None => Ok(columns.push(nullable_field(fields[n - 1].name, carrier))),
                },
            },
        }
    }
}

/// The fields of all specs, spec after spec.
pub open spec fn all_partition_fields(specs: Seq<PartitionSpecModel>) -> Seq<PartitionFieldModel>
    decreases specs.len(),
{
    if specs.len() == 0 {
        seq![]
    } else {
        all_partition_fields(specs.drop_last()) + specs.last().fields
    }
}

/// The `partition` row of a table: the union of the fields of all specs, in the order of their
/// ids, or nothing where no spec has a field.
pub open spec fn partition_row(fields: Seq<FieldModel>, specs: Seq<PartitionSpecModel>) -> Result<Option<DataTypeModel>, ConnectorError> {
    let ordered = all_partition_fields(ordered_specs(specs));
    match partition_columns(schema_entries(fields), ordered, ordered.len()) {
        Err(error) => Err(error),
        Ok(columns) => if columns.len() == 0 {
            Ok(None)
        } else {
            Ok(Some(DataTypeModel::Struct(columns)))
        },
    }
}

/// An optional carrier, or why there is none, as a mathematical value.
pub open spec fn optional_carrier(result: Result<Option<DataType>, ConnectorError>) -> Result<Option<DataTypeModel>, ConnectorError> {
    match result {
        Ok(Some(data_type)) => Ok(Some(data_type.model())),
        Ok(None) => Ok(None),
        Err(error) => Err(error),
    }
}

fn partition_fields_of<'a>(specs: &'a [PartitionSpec]) -> (fields: Vec<&'a PartitionField>)
    ensures
        fields@.map_values(|field: &PartitionField| field.model()) == all_partition_fields(
            ordered_specs(spec_models(specs@)),
        ),
{
    let ordered = specs_by_id(specs);
    let ghost models = ordered_specs(spec_models(specs@));
    let ghost model_of = |field: &PartitionField| field.model();
    let mut fields: Vec<&'a PartitionField> = Vec::new();
    let mut i: usize = 0;
    assert(fields@.map_values(model_of) =~= all_partition_fields(models.take(0)));
    while i < ordered.len()
        invariant
            i <= ordered.len(),
            models == ordered@.map_values(|spec: &PartitionSpec| spec.model()),
            model_of == (|field: &PartitionField| field.model()),
            fields@.map_values(model_of) == all_partition_fields(models.take(i as int)),
        decreases ordered.len() - i,
    {
        let spec: &'a PartitionSpec = ordered[i];
        let ghost before = fields@.map_values(model_of);
        let ghost own = spec.model().fields;
        let mut k: usize = 0;
        assert(fields@.map_values(model_of) =~= before + own.take(0));
        while k < spec.fields.len()
            invariant
                k <= spec.fields.len(),
                own == spec.model().fields,
                model_of == (|field: &PartitionField| field.model()),
                fields@.map_values(model_of) == before + own.take(k as int),
            decreases spec.fields.len() - k,
        {
            let ghost list = fields@;
            fields.push(&spec.fields[k]);
            proof {
                assert(own[k as int] == spec.fields@[k as int].model());
                assert(fields@.map_values(model_of) =~= list.map_values(model_of).push(own[k as int]));
                assert(before + own.take(k + 1) =~= (before + own.take(k as int)).push(own[k as int]));
            }
            k += 1;
        }
        proof {
            assert(own.take(k as int) =~= own);
            assert(models.take(i + 1).drop_last() =~= models.take(i as int));
            assert(models.take(i + 1).last() == spec.model());
        }
        i += 1;
    }
    assert(models.take(i as int) =~= models);
    fields
}

fn find_column(columns: &Vec<Field>, name: &str) -> (found: Option<usize>)
    ensures
        match found {
            Some(at) => at < columns@.len() && column_named(field_models(columns@), name@) == Some(
                columns@[at as int].model(),
            ),
            None => column_named(field_models(columns@), name@) is None,
        },
{
    let ghost models = field_models(columns@);
    let mut i: usize = 0;
    assert(models.skip(0) =~= models);
    while i < columns.len()
        invariant
            i <= columns.len(),
            models == field_models(columns@),
            column_named(models, name@) == column_named(models.skip(i as int), name@),
        decreases columns.len() - i,
    {
        proof {
            assert(models.skip(i as int).first() == columns@[i as int].model());
            assert(models.skip(i as int).drop_first() =~= models.skip(i + 1));
        }
        if equal_ignoring_case(columns[i].name.as_str(), name) {
            return Some(i);
        }
        i += 1;
    }
    None
}

proof fn lemma_partition_columns_error(entries: Seq<EntryModel>, fields: Seq<PartitionFieldModel>, n: nat)
    requires
        n <= fields.len(),
        partition_columns(entries, fields, n) is Err,
    ensures
        partition_columns(entries, fields, fields.len()) == partition_columns(entries, fields, n),
    decreases fields.len() - n,
{
    if n < fields.len() {
        lemma_partition_columns_error(entries, fields, n + 1);
    }
}

/// The `partition` row type of a table.
pub fn partition_row_type(schema: &Schema, specs: &[PartitionSpec]) -> (row: Result<Option<DataType>, ConnectorError>)
    ensures
        optional_carrier(row) == partition_row(schema.model(), spec_models(specs@)),
{
    let fields = partition_fields_of(specs);
    let ghost entries = schema.entries();
    let ghost models = fields@.map_values(|field: &PartitionField| field.model());
    let mut columns = new_fields();
    let mut i: usize = 0;
    while i < fields.len()
        invariant
            i <= fields.len(),
            entries == schema.entries(),
            models == fields@.map_values(|field: &PartitionField| field.model()),
            models == all_partition_fields(ordered_specs(spec_models(specs@))),
            partition_columns(entries, models, i as nat) == Ok::<Seq<CarrierModel>, ConnectorError>(
                field_models(columns@),
            ),
        decreases fields.len() - i,
    {
        let field = fields[i];
        assert(models[i as int] == field.model());
        let carrier = if schema.field_by_id(field.source_id).is_none() {
            Err(ConnectorError::Corrupt(CorruptData::PartitionSourceMissing))
        } else {
            match field.result_type {
                TransformResult::Undefined => Err(
                    ConnectorError::Corrupt(CorruptData::PartitionTransformUndefined),
                ),
                TransformResult::Nested => Err(
                    ConnectorError::Corrupt(CorruptData::PartitionNotPrimitive),
                ),
                TransformResult::Primitive(primitive) => iceberg_primitive_to_arrow(primitive),
            }
        };
        match carrier {
            Err(error) => {
                proof {
                    lemma_partition_columns_error(entries, models, (i + 1) as nat);
                }
                return Err(error);
            },
            Ok(carrier) => match find_column(&columns, field.name.as_str()) {
                Some(at) => {
                    if !columns[at].data_type.same(&carrier) {
                        proof {
                            lemma_partition_columns_error(entries, models, (i + 1) as nat);
                        }
                        return Err(ConnectorError::Corrupt(CorruptData::PartitionTypesConflict));
                    }
                },
                None => {
                    push_nullable(&mut columns, field.name.as_str(), carrier);
                },
            },
        }
        i += 1;
    }
    if columns.len() == 0 {
        return Ok(None);
    }
    Ok(Some(struct_of(columns)))
}

/// Whether an entry can have bounds: a variant has no order to bound it by.
pub open spec fn bounded_primitive(field: FieldModel) -> Option<PrimitiveType> {
    match field.field_type {
        TypeModel::Primitive(PrimitiveType::Variant) => None,
        TypeModel::Primitive(primitive) => Some(primitive),
        _ => None,
    }
}

/// The primitive fields among the first `n` entries at any depth, ascending by id, each with its
/// carrier.
pub open spec fn primitives_by_id(entries: Seq<EntryModel>, n: nat) -> Result<Seq<(i32, DataTypeModel)>, ConnectorError>
    decreases n,
{
    if n == 0 || n > entries.len() {
        Ok(seq![])
    } else {
        match primitives_by_id(entries, (n - 1) as nat) {
            Err(error) => Err(error),
            Ok(list) => match bounded_primitive(entries[n - 1].field) {
                None => Ok(list),
                Some(primitive) => match primitive_carrier(primitive) {
                    Err(error) => Err(error),
                    Ok(carrier) => Ok(put(list, entries[n - 1].field.id, carrier)),
                },
            },
        }
    }
}

/// Bounds columns are ordered by field id, each id once.
pub proof fn law_bounds_ascend_by_field_id(entries: Seq<EntryModel>, n: nat)
    requires
        primitives_by_id(entries, n) is Ok,
    ensures
        ascending(primitives_by_id(entries, n)->Ok_0),
    decreases n,
{
    if n > 0 && n <= entries.len() {
        law_bounds_ascend_by_field_id(entries, (n - 1) as nat);
        match bounded_primitive(entries[n - 1].field) {
            None => {},
            Some(primitive) => {
                law_put_keeps_ascending(
                    primitives_by_id(entries, (n - 1) as nat)->Ok_0,
                    entries[n - 1].field.id,
                    primitive_carrier(primitive)->Ok_0,
                );
            },
        }
    }
}

/// The models of a list of ids and carriers.
pub open spec fn keyed_models(list: Seq<(i32, DataType)>) -> Seq<(i32, DataTypeModel)> {
    list.map_values(|pair: (i32, DataType)| (pair.0, pair.1.model()))
}

proof fn lemma_keyed_models(list: Seq<(i32, DataType)>)
    ensures
        keyed_models(list) == list.map_values(
            |pair: (i32, DataType)| (pair.0, (|held: DataType| held.model())(pair.1)),
        ),
{
    assert(keyed_models(list) =~= list.map_values(
        |pair: (i32, DataType)| (pair.0, (|held: DataType| held.model())(pair.1)),
    ));
}

proof fn lemma_primitives_by_id_error(entries: Seq<EntryModel>, n: nat)
    requires
        n <= entries.len(),
        primitives_by_id(entries, n) is Err,
    ensures
        primitives_by_id(entries, entries.len()) == primitives_by_id(entries, n),
    decreases entries.len() - n,
{
    if n < entries.len() {
        lemma_primitives_by_id_error(entries, n + 1);
    }
}

/// Every primitive field of a schema at any depth, ascending by id, with its carrier. Metrics are
/// keyed by id, those of nested fields too.
pub fn primitive_fields_by_id(schema: &Schema) -> (fields: Result<Vec<(i32, DataType)>, ConnectorError>)
    ensures
        match primitives_by_id(schema.entries(), schema.entries().len()) {
            Ok(list) => fields is Ok && keyed_models(fields->Ok_0@) == list,
            Err(error) => fields == Err::<Vec<(i32, DataType)>, ConnectorError>(error),
        },
{
    let entries = schema.index_struct_fields();
    let ghost models = schema.entries();
    let mut list: Vec<(i32, DataType)> = Vec::new();
    let mut i: usize = 0;
    assert(keyed_models(list@) =~= Seq::<(i32, DataTypeModel)>::empty());
    while i < entries.len()
        invariant
            i <= entries.len(),
            models == entry_models(entries@),
            models == schema.entries(),
            primitives_by_id(models, i as nat) == Ok::<Seq<(i32, DataTypeModel)>, ConnectorError>(
                keyed_models(list@),
            ),
        decreases entries.len() - i,
    {
        assert(models[i as int] == entries@[i as int].model());
        let field = entries[i].field;
        match &field.field_type {
            Type::Primitive(PrimitiveType::Variant) => {},
            Type::Primitive(primitive) => match iceberg_primitive_to_arrow(*primitive) {
                Ok(carrier) => {
                    proof {
                        lemma_put_map(list@, field.id, carrier, |held: DataType| held.model());
                        lemma_keyed_models(list@);
                        lemma_keyed_models(put(list@, field.id, carrier));
                    }
                    put_entry(&mut list, field.id, carrier);
                },
                Err(error) => {
                    proof {
                        lemma_primitives_by_id_error(models, (i + 1) as nat);
                    }
                    return Err(error);
                },
            },
            _ => {},
        }
        i += 1;
    }
    Ok(list)
}

/// The bounds columns of a list of ids and carriers: each is named by its field id.
pub open spec fn bounds_columns(list: Seq<(i32, DataTypeModel)>) -> Seq<CarrierModel> {
    list.map_values(
        |pair: (i32, DataTypeModel)| nullable_field(integer_text(pair.0 as int), pair.1),
    )
}

/// The `lower_bounds` and `upper_bounds` row of a table, or nothing where no field can be bounded.
pub open spec fn bounds_row(fields: Seq<FieldModel>) -> Result<Option<DataTypeModel>, ConnectorError> {
    let entries = schema_entries(fields);
    match primitives_by_id(entries, entries.len()) {
        Err(error) => Err(error),
        Ok(list) => if list.len() == 0 {
            Ok(None)
        } else {
            Ok(Some(DataTypeModel::Struct(bounds_columns(list))))
        },
    }
}

/// The `lower_bounds` and `upper_bounds` row type of `$files`.
pub fn bounds_row_type(schema: &Schema) -> (row: Result<Option<DataType>, ConnectorError>)
    ensures
        optional_carrier(row) == bounds_row(schema.model()),
{
    let primitives = match primitive_fields_by_id(schema) {
        Ok(primitives) => primitives,
        Err(error) => return Err(error),
    };
    if primitives.len() == 0 {
        assert(keyed_models(primitives@).len() == 0);
        return Ok(None);
    }
    let ghost list = keyed_models(primitives@);
    let mut columns = new_fields();
    let mut i: usize = 0;
    assert(field_models(columns@) =~= bounds_columns(list).take(0));
    while i < primitives.len()
        invariant
            i <= primitives.len(),
            list == keyed_models(primitives@),
            field_models(columns@) == bounds_columns(list).take(i as int),
        decreases primitives.len() - i,
    {
        let name = integer_to_string(primitives[i].0 as i64);
        push_nullable(&mut columns, name.as_str(), primitives[i].1.duplicate());
        assert(list[i as int] == (primitives@[i as int].0, primitives@[i as int].1.model()));
        assert(bounds_columns(list).take(i + 1) =~= bounds_columns(list).take(i as int).push(
            bounds_columns(list)[i as int],
        ));
        i += 1;
    }
    assert(bounds_columns(list).take(i as int) =~= bounds_columns(list));
    Ok(Some(struct_of(columns)))
}

/// The metrics of one column in a partition.
pub open spec fn metrics_model(carrier: DataTypeModel) -> DataTypeModel {
    DataTypeModel::Struct(
        seq![
            nullable_field("min"@, carrier),
            nullable_field("max"@, carrier),
            nullable_field("null_count"@, DataTypeModel::Int64),
            nullable_field("nan_count"@, DataTypeModel::Int64),
        ],
    )
}

/// The metrics columns of the first `n` top-level fields: one for each bounded primitive.
pub open spec fn metrics_columns(fields: Seq<FieldModel>, n: nat) -> Result<Seq<CarrierModel>, ConnectorError>
    decreases n,
{
    if n == 0 || n > fields.len() {
        Ok(seq![])
    } else {
        match metrics_columns(fields, (n - 1) as nat) {
            Err(error) => Err(error),
            Ok(columns) => match bounded_primitive(fields[n - 1]) {
                None => Ok(columns),
                Some(primitive) => match primitive_carrier(primitive) {
                    Err(error) => Err(error),
                    Ok(carrier) => Ok(
                        columns.push(nullable_field(fields[n - 1].name, metrics_model(carrier))),
                    ),
                },
            },
        }
    }
}

/// The `data` row of `$partitions`, or nothing where no top-level field can be bounded.
pub open spec fn metrics_row(fields: Seq<FieldModel>) -> Result<Option<DataTypeModel>, ConnectorError> {
    match metrics_columns(fields, fields.len()) {
        Err(error) => Err(error),
        Ok(columns) => if columns.len() == 0 {
            Ok(None)
        } else {
            Ok(Some(DataTypeModel::Struct(columns)))
        },
    }
}

proof fn lemma_metrics_columns_error(fields: Seq<FieldModel>, n: nat)
    requires
        n <= fields.len(),
        metrics_columns(fields, n) is Err,
    ensures
        metrics_columns(fields, fields.len()) == metrics_columns(fields, n),
    decreases fields.len() - n,
{
    if n < fields.len() {
        lemma_metrics_columns_error(fields, n + 1);
    }
}

fn metrics_type(carrier: &DataType) -> (data_type: DataType)
    ensures
        data_type.model() == metrics_model(carrier.model()),
{
    let mut fields = new_fields();
    push_nullable(&mut fields, "min", carrier.duplicate());
    push_nullable(&mut fields, "max", carrier.duplicate());
    push_nullable(&mut fields, "null_count", DataType::Int64);
    push_nullable(&mut fields, "nan_count", DataType::Int64);
    assert(field_models(fields@) =~= metrics_model(carrier.model())->Struct_0);
    struct_of(fields)
}

/// The `data` row type of `$partitions`: one field for each top-level primitive column.
pub fn partitions_metrics_row_type(schema: &Schema) -> (row: Result<Option<DataType>, ConnectorError>)
    ensures
        optional_carrier(row) == metrics_row(schema.model()),
{
    let ghost models = schema.model();
    let mut columns = new_fields();
    let mut i: usize = 0;
    while i < schema.fields.len()
        invariant
            i <= schema.fields.len(),
            models == nested_models(schema.fields@),
            metrics_columns(models, i as nat) == Ok::<Seq<CarrierModel>, ConnectorError>(
                field_models(columns@),
            ),
        decreases schema.fields.len() - i,
    {
        let field = &schema.fields[i];
        assert(models[i as int] == field.model());
        match &field.field_type {
            Type::Primitive(PrimitiveType::Variant) => {},
            Type::Primitive(primitive) => match iceberg_primitive_to_arrow(*primitive) {
                Ok(carrier) => push_nullable(
                    &mut columns,
                    field.name.as_str(),
                    metrics_type(&carrier),
                ),
                Err(error) => {
                    proof {
                        lemma_metrics_columns_error(models, (i + 1) as nat);
                    }
                    return Err(error);
                },
            },
            _ => {},
        }
        i += 1;
    }
    if columns.len() == 0 {
        return Ok(None);
    }
    Ok(Some(struct_of(columns)))
}


// ---------------------------------------------------------------------------
// Frozen relation schemas
// ---------------------------------------------------------------------------

/// A column list with one more nullable column where there is a carrier for it.
pub open spec fn with_optional(columns: Seq<CarrierModel>, name: Seq<char>, carrier: Option<DataTypeModel>) -> Seq<CarrierModel> {
    match carrier {
        Some(held) => columns.push(nullable_field(name, held)),
        None => columns,
    }
}

/// An optional carrier as a mathematical value.
pub open spec fn carrier_model(carrier: Option<&DataType>) -> Option<DataTypeModel> {
    match carrier {
        Some(held) => Some(held.model()),
        None => None,
    }
}

fn push_optional(fields: &mut Vec<Field>, name: &str, carrier: Option<&DataType>)
    ensures
        field_models(final(fields)@) == with_optional(
            field_models(old(fields)@),
            name@,
            carrier_model(carrier),
        ),
{
    match carrier {
        Some(held) => push_nullable(fields, name, held.duplicate()),
        None => {},
    }
}

/// What a manifest says of a file, up to its partition.
pub open spec fn file_head() -> Seq<CarrierModel> {
    Seq::<CarrierModel>::empty()
        .push(required_field("content"@, DataTypeModel::Int32))
        .push(required_field("file_path"@, DataTypeModel::Utf8))
        .push(required_field("file_format"@, DataTypeModel::Utf8))
        .push(required_field("spec_id"@, DataTypeModel::Int32))
}

/// The column list of `$files`. A column is required only where the manifest format guarantees a
/// value; the three columns that depend on the table are there where the table has something for
/// them to describe.
pub open spec fn files_model(partition: Option<DataTypeModel>, bounds: Option<DataTypeModel>) -> Seq<CarrierModel> {
    let described = with_optional(file_head(), "partition"@, partition)
            .push(required_field("record_count"@, DataTypeModel::Int64))
            .push(required_field("file_size_in_bytes"@, DataTypeModel::Int64))
            .push(nullable_field("column_sizes"@, map_model(DataTypeModel::Int32, DataTypeModel::Int64)))
            .push(nullable_field("value_counts"@, map_model(DataTypeModel::Int32, DataTypeModel::Int64)))
            .push(nullable_field("null_value_counts"@, map_model(DataTypeModel::Int32, DataTypeModel::Int64)))
            .push(nullable_field("nan_value_counts"@, map_model(DataTypeModel::Int32, DataTypeModel::Int64)));
    let bounded = with_optional(
        with_optional(described, "lower_bounds"@, bounds),
        "upper_bounds"@,
        bounds,
    );
    bounded
        .push(nullable_field("key_metadata"@, DataTypeModel::Binary))
        .push(nullable_field("split_offsets"@, list_model(DataTypeModel::Int64)))
        .push(nullable_field("equality_ids"@, list_model(DataTypeModel::Int32)))
        .push(nullable_field("sort_order_id"@, DataTypeModel::Int32))
        .push(json_field("readable_metrics"@))
        .push(nullable_field("added_snapshot_id"@, DataTypeModel::Int64))
        .push(nullable_field("file_sequence_number"@, DataTypeModel::Int64))
        .push(nullable_field("data_sequence_number"@, DataTypeModel::Int64))
        .push(nullable_field("referenced_data_file"@, DataTypeModel::Utf8))
        .push(required_field("pos"@, DataTypeModel::Int64))
        .push(required_field("manifest_location"@, DataTypeModel::Utf8))
        .push(nullable_field("first_row_id"@, DataTypeModel::Int64))
        .push(nullable_field("content_offset"@, DataTypeModel::Int64))
        .push(nullable_field("content_size_in_bytes"@, DataTypeModel::Int64))
}

/// The `data_file` row of `$entries`. Its bounds are maps to text: they report every field id
/// that the manifest names, those that the schema has dropped too.
pub open spec fn entries_data_file_model(partition: Option<DataTypeModel>) -> DataTypeModel {
    DataTypeModel::Struct(
        with_optional(file_head(), "partition"@, partition)
            .push(required_field("record_count"@, DataTypeModel::Int64))
            .push(required_field("file_size_in_bytes"@, DataTypeModel::Int64))
            .push(nullable_field("column_sizes"@, map_model(DataTypeModel::Int32, DataTypeModel::Int64)))
            .push(nullable_field("value_counts"@, map_model(DataTypeModel::Int32, DataTypeModel::Int64)))
            .push(nullable_field("null_value_counts"@, map_model(DataTypeModel::Int32, DataTypeModel::Int64)))
            .push(nullable_field("nan_value_counts"@, map_model(DataTypeModel::Int32, DataTypeModel::Int64)))
            .push(nullable_field("lower_bounds"@, map_model(DataTypeModel::Int32, DataTypeModel::Utf8)))
            .push(nullable_field("upper_bounds"@, map_model(DataTypeModel::Int32, DataTypeModel::Utf8)))
            .push(nullable_field("key_metadata"@, DataTypeModel::Binary))
            .push(nullable_field("split_offsets"@, list_model(DataTypeModel::Int64)))
            .push(nullable_field("equality_ids"@, list_model(DataTypeModel::Int32)))
            .push(nullable_field("sort_order_id"@, DataTypeModel::Int32)),
    )
}

fn file_head_fields() -> (fields: Vec<Field>)
    ensures
        field_models(fields@) == file_head(),
{
    let mut fields = new_fields();
    push_required(&mut fields, "content", DataType::Int32);
    push_required(&mut fields, "file_path", DataType::Utf8);
    push_required(&mut fields, "file_format", DataType::Utf8);
    push_required(&mut fields, "spec_id", DataType::Int32);
    fields
}

/// The column list of `$files`.
pub fn files_fields(partition_row: Option<&DataType>, bounds_row: Option<&DataType>) -> (fields: Vec<Field>)
    ensures
        field_models(fields@) == files_model(carrier_model(partition_row), carrier_model(bounds_row)),
{
    let mut fields = file_head_fields();
    push_optional(&mut fields, "partition", partition_row);
    push_required(&mut fields, "record_count", DataType::Int64);
    push_required(&mut fields, "file_size_in_bytes", DataType::Int64);
    push_nullable(&mut fields, "column_sizes", map_type(DataType::Int32, DataType::Int64));
    push_nullable(&mut fields, "value_counts", map_type(DataType::Int32, DataType::Int64));
    push_nullable(&mut fields, "null_value_counts", map_type(DataType::Int32, DataType::Int64));
    push_nullable(&mut fields, "nan_value_counts", map_type(DataType::Int32, DataType::Int64));
    push_optional(&mut fields, "lower_bounds", bounds_row);
    push_optional(&mut fields, "upper_bounds", bounds_row);
    push_nullable(&mut fields, "key_metadata", DataType::Binary);
    push_nullable(&mut fields, "split_offsets", list_type(DataType::Int64));
    push_nullable(&mut fields, "equality_ids", list_type(DataType::Int32));
    push_nullable(&mut fields, "sort_order_id", DataType::Int32);
    push_json(&mut fields, "readable_metrics");
    push_nullable(&mut fields, "added_snapshot_id", DataType::Int64);
    push_nullable(&mut fields, "file_sequence_number", DataType::Int64);
    push_nullable(&mut fields, "data_sequence_number", DataType::Int64);
    push_nullable(&mut fields, "referenced_data_file", DataType::Utf8);
    push_required(&mut fields, "pos", DataType::Int64);
    push_required(&mut fields, "manifest_location", DataType::Utf8);
    push_nullable(&mut fields, "first_row_id", DataType::Int64);
    push_nullable(&mut fields, "content_offset", DataType::Int64);
    push_nullable(&mut fields, "content_size_in_bytes", DataType::Int64);
    fields
}

/// The `data_file` row type of `$entries`.
pub fn entries_data_file_type(partition_row: Option<&DataType>) -> (data_type: DataType)
    ensures
        data_type.model() == entries_data_file_model(carrier_model(partition_row)),
{
    let mut fields = file_head_fields();
    push_optional(&mut fields, "partition", partition_row);
    push_required(&mut fields, "record_count", DataType::Int64);
    push_required(&mut fields, "file_size_in_bytes", DataType::Int64);
    push_nullable(&mut fields, "column_sizes", map_type(DataType::Int32, DataType::Int64));
    push_nullable(&mut fields, "value_counts", map_type(DataType::Int32, DataType::Int64));
    push_nullable(&mut fields, "null_value_counts", map_type(DataType::Int32, DataType::Int64));
    push_nullable(&mut fields, "nan_value_counts", map_type(DataType::Int32, DataType::Int64));
    push_nullable(&mut fields, "lower_bounds", map_type(DataType::Int32, DataType::Utf8));
    push_nullable(&mut fields, "upper_bounds", map_type(DataType::Int32, DataType::Utf8));
    push_nullable(&mut fields, "key_metadata", DataType::Binary);
    push_nullable(&mut fields, "split_offsets", list_type(DataType::Int64));
    push_nullable(&mut fields, "equality_ids", list_type(DataType::Int32));
    push_nullable(&mut fields, "sort_order_id", DataType::Int32);
    struct_of(fields)
}

/// The column list of `$entries`.
pub open spec fn entries_model(partition: Option<DataTypeModel>) -> Seq<CarrierModel> {
    Seq::<CarrierModel>::empty()
        .push(required_field("status"@, DataTypeModel::Int32))
        .push(nullable_field("snapshot_id"@, DataTypeModel::Int64))
        .push(nullable_field("sequence_number"@, DataTypeModel::Int64))
        .push(nullable_field("file_sequence_number"@, DataTypeModel::Int64))
        .push(required_field("data_file"@, entries_data_file_model(partition)))
        .push(json_field("readable_metrics"@))
}

/// The column list of `$entries`.
pub fn entries_fields(partition_row: Option<&DataType>) -> (fields: Vec<Field>)
    ensures
        field_models(fields@) == entries_model(carrier_model(partition_row)),
{
    let mut fields = new_fields();
    push_required(&mut fields, "status", DataType::Int32);
    push_nullable(&mut fields, "snapshot_id", DataType::Int64);
    push_nullable(&mut fields, "sequence_number", DataType::Int64);
    push_nullable(&mut fields, "file_sequence_number", DataType::Int64);
    push_required(&mut fields, "data_file", entries_data_file_type(partition_row));
    push_json(&mut fields, "readable_metrics");
    fields
}

/// The column list of `$snapshots`. A snapshot may have no summary at all.
pub open spec fn snapshots_model() -> Seq<CarrierModel> {
    Seq::<CarrierModel>::empty()
        .push(required_field("committed_at"@, timestamp_tz_model()))
        .push(required_field("snapshot_id"@, DataTypeModel::Int64))
        .push(nullable_field("parent_id"@, DataTypeModel::Int64))
        .push(required_field("operation"@, DataTypeModel::Utf8))
        .push(required_field("manifest_list"@, DataTypeModel::Utf8))
        .push(nullable_field("summary"@, map_model(DataTypeModel::Utf8, DataTypeModel::Utf8)))
}

/// The column list of `$snapshots`.
pub fn snapshots_fields() -> (fields: Vec<Field>)
    ensures
        field_models(fields@) == snapshots_model(),
{
    let mut fields = new_fields();
    push_required(&mut fields, "committed_at", timestamp_tz_type());
    push_required(&mut fields, "snapshot_id", DataType::Int64);
    push_nullable(&mut fields, "parent_id", DataType::Int64);
    push_required(&mut fields, "operation", DataType::Utf8);
    push_required(&mut fields, "manifest_list", DataType::Utf8);
    push_nullable(&mut fields, "summary", map_type(DataType::Utf8, DataType::Utf8));
    fields
}

/// The column list of `$history`.
pub open spec fn history_model() -> Seq<CarrierModel> {
    Seq::<CarrierModel>::empty()
        .push(required_field("made_current_at"@, timestamp_tz_model()))
        .push(required_field("snapshot_id"@, DataTypeModel::Int64))
        .push(nullable_field("parent_id"@, DataTypeModel::Int64))
        .push(required_field("is_current_ancestor"@, DataTypeModel::Boolean))
}

/// The column list of `$history`.
pub fn history_fields() -> (fields: Vec<Field>)
    ensures
        field_models(fields@) == history_model(),
{
    let mut fields = new_fields();
    push_required(&mut fields, "made_current_at", timestamp_tz_type());
    push_required(&mut fields, "snapshot_id", DataType::Int64);
    push_nullable(&mut fields, "parent_id", DataType::Int64);
    push_required(&mut fields, "is_current_ancestor", DataType::Boolean);
    fields
}

/// The column list of `$refs`.
pub open spec fn refs_model() -> Seq<CarrierModel> {
    Seq::<CarrierModel>::empty()
        .push(required_field("name"@, DataTypeModel::Utf8))
        .push(required_field("type"@, DataTypeModel::Utf8))
        .push(required_field("snapshot_id"@, DataTypeModel::Int64))
        .push(nullable_field("max_reference_age_in_ms"@, DataTypeModel::Int64))
        .push(nullable_field("min_snapshots_to_keep"@, DataTypeModel::Int32))
        .push(nullable_field("max_snapshot_age_in_ms"@, DataTypeModel::Int64))
}

/// The column list of `$refs`.
pub fn refs_fields() -> (fields: Vec<Field>)
    ensures
        field_models(fields@) == refs_model(),
{
    let mut fields = new_fields();
    push_required(&mut fields, "name", DataType::Utf8);
    push_required(&mut fields, "type", DataType::Utf8);
    push_required(&mut fields, "snapshot_id", DataType::Int64);
    push_nullable(&mut fields, "max_reference_age_in_ms", DataType::Int64);
    push_nullable(&mut fields, "min_snapshots_to_keep", DataType::Int32);
    push_nullable(&mut fields, "max_snapshot_age_in_ms", DataType::Int64);
    fields
}

/// The summary of the partition fields of one manifest.
pub open spec fn partition_summary_model() -> DataTypeModel {
    list_model(
        DataTypeModel::Struct(
            Seq::<CarrierModel>::empty()
                .push(required_field("contains_null"@, DataTypeModel::Boolean))
                .push(nullable_field("contains_nan"@, DataTypeModel::Boolean))
                .push(nullable_field("lower_bound"@, DataTypeModel::Utf8))
                .push(nullable_field("upper_bound"@, DataTypeModel::Utf8)),
        ),
    )
}

pub fn partition_summary_type() -> (data_type: DataType)
    ensures
        data_type.model() == partition_summary_model(),
{
    let mut fields = new_fields();
    push_required(&mut fields, "contains_null", DataType::Boolean);
    push_nullable(&mut fields, "contains_nan", DataType::Boolean);
    push_nullable(&mut fields, "lower_bound", DataType::Utf8);
    push_nullable(&mut fields, "upper_bound", DataType::Utf8);
    list_type(struct_of(fields))
}

/// The column list of `$manifests`. A count that the manifest list does not state is null, not zero.
pub open spec fn manifests_model() -> Seq<CarrierModel> {
    Seq::<CarrierModel>::empty()
        .push(required_field("content"@, DataTypeModel::Int32))
        .push(required_field("path"@, DataTypeModel::Utf8))
        .push(required_field("length"@, DataTypeModel::Int64))
        .push(required_field("partition_spec_id"@, DataTypeModel::Int32))
        .push(required_field("added_snapshot_id"@, DataTypeModel::Int64))
        .push(nullable_field("added_data_files_count"@, DataTypeModel::Int32))
        .push(nullable_field("added_rows_count"@, DataTypeModel::Int64))
        .push(nullable_field("existing_data_files_count"@, DataTypeModel::Int32))
        .push(nullable_field("existing_rows_count"@, DataTypeModel::Int64))
        .push(nullable_field("deleted_data_files_count"@, DataTypeModel::Int32))
        .push(nullable_field("deleted_rows_count"@, DataTypeModel::Int64))
        .push(nullable_field("partition_summaries"@, partition_summary_model()))
}

/// The column list of `$manifests`.
pub fn manifests_fields() -> (fields: Vec<Field>)
    ensures
        field_models(fields@) == manifests_model(),
{
    let mut fields = new_fields();
    push_required(&mut fields, "content", DataType::Int32);
    push_required(&mut fields, "path", DataType::Utf8);
    push_required(&mut fields, "length", DataType::Int64);
    push_required(&mut fields, "partition_spec_id", DataType::Int32);
    push_required(&mut fields, "added_snapshot_id", DataType::Int64);
    push_nullable(&mut fields, "added_data_files_count", DataType::Int32);
    push_nullable(&mut fields, "added_rows_count", DataType::Int64);
    push_nullable(&mut fields, "existing_data_files_count", DataType::Int32);
    push_nullable(&mut fields, "existing_rows_count", DataType::Int64);
    push_nullable(&mut fields, "deleted_data_files_count", DataType::Int32);
    push_nullable(&mut fields, "deleted_rows_count", DataType::Int64);
    push_nullable(&mut fields, "partition_summaries", partition_summary_type());
    fields
}

/// The column list of `$partitions`.
pub open spec fn partitions_model(partition: Option<DataTypeModel>, metrics: Option<DataTypeModel>) -> Seq<CarrierModel> {
    with_optional(
        with_optional(Seq::<CarrierModel>::empty(), "partition"@, partition)
            .push(required_field("record_count"@, DataTypeModel::Int64))
            .push(required_field("file_count"@, DataTypeModel::Int64))
            .push(required_field("total_size"@, DataTypeModel::Int64)),
        "data"@,
        metrics,
    )
}

/// The column list of `$partitions`.
pub fn partitions_fields(partition_row: Option<&DataType>, metrics_row: Option<&DataType>) -> (fields: Vec<Field>)
    ensures
        field_models(fields@) == partitions_model(
            carrier_model(partition_row),
            carrier_model(metrics_row),
        ),
{
    let mut fields = new_fields();
    push_optional(&mut fields, "partition", partition_row);
    push_required(&mut fields, "record_count", DataType::Int64);
    push_required(&mut fields, "file_count", DataType::Int64);
    push_required(&mut fields, "total_size", DataType::Int64);
    push_optional(&mut fields, "data", metrics_row);
    fields
}

/// The frozen output schema of a system relation.
pub open spec fn relation_model(relation: IcebergSystemTableType, fields: Seq<FieldModel>, specs: Seq<PartitionSpecModel>) -> Result<Seq<CarrierModel>, ConnectorError> {
    match relation {
        IcebergSystemTableType::Files => match partition_row(fields, specs) {
            Err(error) => Err(error),
            Ok(partition) => match bounds_row(fields) {
                Err(error) => Err(error),
                Ok(bounds) => Ok(files_model(partition, bounds)),
            },
        },
        IcebergSystemTableType::Entries => match partition_row(fields, specs) {
            Err(error) => Err(error),
            Ok(partition) => Ok(entries_model(partition)),
        },
        IcebergSystemTableType::Snapshots => Ok(snapshots_model()),
        IcebergSystemTableType::History => Ok(history_model()),
        IcebergSystemTableType::Refs => Ok(refs_model()),
        IcebergSystemTableType::Manifests => Ok(manifests_model()),
    }
}

/// A field list, or why there is none, as a mathematical value.
pub open spec fn fields_result(result: Result<Vec<Field>, ConnectorError>) -> Result<Seq<CarrierModel>, ConnectorError> {
    match result {
        Ok(fields) => Ok(field_models(fields@)),
        Err(error) => Err(error),
    }
}

/// The frozen output schema of a system relation.
pub fn system_relation_schema(relation: IcebergSystemTableType, schema: &Schema, specs: &[PartitionSpec]) -> (fields: Result<Vec<Field>, ConnectorError>)
    ensures
        fields_result(fields) == relation_model(relation, schema.model(), spec_models(specs@)),
{
    match relation {
        IcebergSystemTableType::Files => match partition_row_type(schema, specs) {
            Err(error) => Err(error),
            Ok(partition) => match bounds_row_type(schema) {
                Err(error) => Err(error),
                Ok(bounds) => Ok(files_fields(partition.as_ref(), bounds.as_ref())),
            },
        },
        IcebergSystemTableType::Entries => match partition_row_type(schema, specs) {
            Err(error) => Err(error),
            Ok(partition) => Ok(entries_fields(partition.as_ref())),
        },
        IcebergSystemTableType::Snapshots => Ok(snapshots_fields()),
        IcebergSystemTableType::History => Ok(history_fields()),
        IcebergSystemTableType::Refs => Ok(refs_fields()),
        IcebergSystemTableType::Manifests => Ok(manifests_fields()),
    }
}

/// The frozen output schema of the `$partitions` view.
pub open spec fn partitions_view_model(fields: Seq<FieldModel>, specs: Seq<PartitionSpecModel>) -> Result<Seq<CarrierModel>, ConnectorError> {
    match partition_row(fields, specs) {
        Err(error) => Err(error),
        Ok(partition) => match metrics_row(fields) {
            Err(error) => Err(error),
            Ok(metrics) => Ok(partitions_model(partition, metrics)),
        },
    }
}

/// The frozen output schema of the `$partitions` view.
pub fn partitions_view_schema(schema: &Schema, specs: &[PartitionSpec]) -> (fields: Result<Vec<Field>, ConnectorError>)
    ensures
        fields_result(fields) == partitions_view_model(schema.model(), spec_models(specs@)),
{
    match partition_row_type(schema, specs) {
        Err(error) => Err(error),
        Ok(partition) => match partitions_metrics_row_type(schema) {
            Err(error) => Err(error),
            Ok(metrics) => Ok(partitions_fields(partition.as_ref(), metrics.as_ref())),
        },
    }
}

// ---------------------------------------------------------------------------
// Published columns and their JSON
// ---------------------------------------------------------------------------

/// The column handles that a system relation publishes: the mirrors of its frozen columns, in
/// order.
pub open spec fn relation_handles(relation: IcebergSystemTableType, fields: Seq<FieldModel>, specs: Seq<PartitionSpecModel>) -> Result<Seq<ColumnHandleModel>, ConnectorError> {
    match relation_model(relation, fields, specs) {
        Err(error) => Err(error),
        Ok(frozen) => match mirrored_fields(frozen, frozen.len(), 1) {
            Err(error) => Err(error),
            Ok((mirrored, _)) => Ok(mirrored.map_values(|field: FieldModel| base_handle(field))),
        },
    }
}

/// The column handles that a system relation publishes, in frozen order.
pub fn system_relation_columns(relation: IcebergSystemTableType, schema: &Schema, specs: &[PartitionSpec]) -> (columns: Result<Vec<IcebergColumnHandle>, ConnectorError>)
    ensures
        match relation_handles(relation, schema.model(), spec_models(specs@)) {
            Ok(handles) => columns is Ok && handle_models(columns->Ok_0@) == handles,
            Err(error) => columns == Err::<Vec<IcebergColumnHandle>, ConnectorError>(error),
        },
{
    let frozen = match system_relation_schema(relation, schema, specs) {
        Ok(frozen) => frozen,
        Err(error) => return Err(error),
    };
    let mirrored = match mirrored_columns(&frozen) {
        Ok(mirrored) => mirrored,
        Err(error) => return Err(error),
    };
    let ghost handles = nested_models(mirrored@).map_values(|field: FieldModel| base_handle(field));
    let mut columns: Vec<IcebergColumnHandle> = Vec::new();
    let mut i: usize = 0;
    assert(handle_models(columns@) =~= handles.take(0));
    while i < mirrored.len()
        invariant
            i <= mirrored.len(),
            handles == nested_models(mirrored@).map_values(|field: FieldModel| base_handle(field)),
            handle_models(columns@) == handles.take(i as int),
        decreases mirrored.len() - i,
    {
        let ghost before = columns@;
        columns.push(IcebergColumnHandle::base_column(&mirrored[i]));
        assert(handles[i as int] == base_handle(mirrored@[i as int].model()));
        assert(handle_models(columns@) =~= handle_models(before).push(handles[i as int]));
        assert(handles.take(i + 1) =~= handles.take(i as int).push(handles[i as int]));
        i += 1;
    }
    assert(handles.take(i as int) =~= handles);
    Ok(columns)
}

/// The frozen `$files` schema as the JSON text that a split carries.
pub fn files_relation_schema_json(schema: &Schema, specs: &[PartitionSpec]) -> (json: Result<String, ConnectorError>)
    ensures
        match relation_model(IcebergSystemTableType::Files, schema.model(), spec_models(specs@)) {
            Err(error) => json == Err::<String, ConnectorError>(error),
            Ok(frozen) => match mirrored_fields(frozen, frozen.len(), 1) {
                Err(error) => json == Err::<String, ConnectorError>(error),
                Ok((mirrored, _)) => json is Ok && json->Ok_0@ == type_json(
                    TypeModel::Struct(mirrored),
                ),
            },
        },
{
    let frozen = match system_relation_schema(IcebergSystemTableType::Files, schema, specs) {
        Ok(frozen) => frozen,
        Err(error) => return Err(error),
    };
    match metadata_relation_row(&frozen) {
        Ok(row) => type_to_json(&row),
        Err(error) => Err(error),
    }
}

/// A schema-derived row type as the JSON text that a `$files` split carries.
pub fn derived_row_type_json(row: &DataType) -> (json: Result<String, ConnectorError>)
    ensures
        match mirrored_type(row.model(), 1) {
            Err(error) => json == Err::<String, ConnectorError>(error),
            Ok((mirrored, _)) => json is Ok && json->Ok_0@ == type_json(mirrored),
        },
{
    let mut ids = MetadataRelationFieldIds::new();
    match metadata_relation_type(row, &mut ids) {
        Ok(mirrored) => type_to_json(&mirrored),
        Err(error) => Err(error),
    }
}

// ---------------------------------------------------------------------------
// Projection
// ---------------------------------------------------------------------------

/// The position of the first column of a name, at or after `from`.
pub open spec fn position_named(columns: Seq<CarrierModel>, name: Seq<char>, from: nat) -> Option<nat>
    decreases columns.len() - from,
{
    if from >= columns.len() {
        None
    } else if columns[from as int].name == name {
        Some(from)
    } else {
        position_named(columns, name, from + 1)
    }
}

/// Resolve the columns of a scan against a frozen schema, by their names. No column at all is a
/// scan that only counts.
pub fn project_system_relation_columns(schema: &Vec<Field>, columns: &[IcebergColumnHandle]) -> (positions: Result<Vec<usize>, ConnectorError>)
    ensures
        match positions {
            Ok(found) => found@.len() == columns@.len() && forall|i: int|
                0 <= i < columns@.len() ==> position_named(
                    field_models(schema@),
                    (#[trigger] columns@[i]).base_name@,
                    0,
                ) == Some(found@[i] as nat),
            Err(error) => error == ConnectorError::Invalid(InvalidRequest::UnknownSystemColumn)
                && exists|i: int|
                0 <= i < columns@.len() && position_named(
                    field_models(schema@),
                    (#[trigger] columns@[i]).base_name@,
                    0,
                ) is None,
        },
{
    let mut positions: Vec<usize> = Vec::new();
    let mut i: usize = 0;
    while i < columns.len()
        invariant
            i <= columns.len(),
            positions@.len() == i,
            forall|k: int|
                0 <= k < i ==> position_named(
                    field_models(schema@),
                    (#[trigger] columns@[k]).base_name@,
                    0,
                ) == Some(positions@[k] as nat),
        decreases columns.len() - i,
    {
        let ghost models = field_models(schema@);
        let name = &columns[i].base_name;
        let mut at: usize = 0;
        while at < schema.len() && schema[at].name != *name
            invariant
                at <= schema.len(),
                models == field_models(schema@),
                position_named(models, name@, 0) == position_named(models, name@, at as nat),
            decreases schema.len() - at,
        {
            assert(models[at as int] == schema@[at as int].model());
            at += 1;
        }
        if at >= schema.len() {
            assert(columns@[i as int].base_name@ == name@);
            return Err(ConnectorError::Invalid(InvalidRequest::UnknownSystemColumn));
        }
        assert(models[at as int] == schema@[at as int].model());
        positions.push(at);
        i += 1;
    }
    Ok(positions)
}


// ---------------------------------------------------------------------------
// What the schemas keep between them
// ---------------------------------------------------------------------------

/// The mirror of the exact carrier of a primitive is that primitive again. A UUID is the one
/// exception: a frozen schema carries it as text.
pub proof fn law_mirror_inverts_carrier(primitive: PrimitiveType)
    requires
        primitive_carrier(primitive) is Ok,
        primitive != PrimitiveType::Uuid,
    ensures
        carried_primitive(primitive_carrier(primitive)->Ok_0) == Ok::<Option<PrimitiveType>, ConnectorError>(Some(primitive)),
{
}

/// `$files` has twenty-four columns of its own, one more for a partitioned table, and two more
/// where some field can be bounded.
pub proof fn law_files_column_count(partition: Option<DataTypeModel>, bounds: Option<DataTypeModel>)
    ensures
        files_model(partition, bounds).len() == 24 + (if partition is Some {
            1int
        } else {
            0
        }) + (if bounds is Some {
            2int
        } else {
            0
        }),
{
}

proof fn lemma_mirrored_type_advances(data_type: DataTypeModel, next: int)
    requires
        mirrored_type(data_type, next) is Ok,
    ensures
        mirrored_type(data_type, next)->Ok_0.1 >= next,
    decreases data_type, 0nat,
{
    match carried_primitive(data_type) {
        Ok(None) => match data_type {
            DataTypeModel::Struct(fields) => {
                lemma_mirrored_fields_ascend(fields, fields.len(), next);
            },
            DataTypeModel::List(element) => {
                lemma_mirrored_field_advances(*element, next);
            },
            DataTypeModel::MapOf(entries, _) => match entries.data_type {
                DataTypeModel::Struct(fields) => {
                    lemma_mirrored_field_advances(fields[0], next);
                    lemma_mirrored_field_advances(fields[1], mirrored_field(fields[0], next)->Ok_0.1);
                },
                _ => {},
            },
            _ => {},
        },
        _ => {},
    }
}

proof fn lemma_mirrored_field_advances(field: CarrierModel, next: int)
    requires
        mirrored_field(field, next) is Ok,
    ensures
        mirrored_field(field, next)->Ok_0.0.id >= next || next > i32::MAX || next < i32::MIN,
        mirrored_field(field, next)->Ok_0.1 > next,
        next >= 1 ==> mirrored_field(field, next)->Ok_0.1 == mirrored_field(field, next)->Ok_0.0.id + 1,
    decreases field, 1nat,
{
    lemma_mirrored_type_advances(field.data_type, next);
}

proof fn lemma_mirrored_fields_ascend(fields: Seq<CarrierModel>, n: nat, next: int)
    requires
        n <= fields.len(),
        mirrored_fields(fields, n, next) is Ok,
    ensures
        mirrored_fields(fields, n, next)->Ok_0.1 >= next,
        mirrored_fields(fields, n, next)->Ok_0.0.len() == n,
        next >= 1 ==> forall|i: int|
            0 <= i < n ==> next <= (#[trigger] mirrored_fields(fields, n, next)->Ok_0.0[i]).id
                < mirrored_fields(fields, n, next)->Ok_0.1,
        next >= 1 ==> forall|i: int, j: int|
            0 <= i < j < n ==> (#[trigger] mirrored_fields(fields, n, next)->Ok_0.0[i]).id < (
            #[trigger] mirrored_fields(fields, n, next)->Ok_0.0[j]).id,
    decreases fields, n,
{
    if n > 0 {
        lemma_mirrored_fields_ascend(fields, (n - 1) as nat, next);
        let after = mirrored_fields(fields, (n - 1) as nat, next)->Ok_0.1;
        lemma_mirrored_field_advances(fields[n - 1], after);
    }
}

/// The columns that a metadata relation publishes have distinct positive ids, ascending in column
/// order.
pub proof fn law_published_ids_are_distinct(fields: Seq<CarrierModel>)
    requires
        mirrored_fields(fields, fields.len(), 1) is Ok,
    ensures
        mirrored_fields(fields, fields.len(), 1)->Ok_0.0.len() == fields.len(),
        forall|i: int|
            0 <= i < fields.len() ==> (#[trigger] mirrored_fields(fields, fields.len(), 1)->Ok_0.0[i]).id
                >= 1,
        forall|i: int, j: int|
            0 <= i < j < fields.len() ==> (#[trigger] mirrored_fields(fields, fields.len(), 1)->Ok_0.0[i]).id
                < (#[trigger] mirrored_fields(fields, fields.len(), 1)->Ok_0.0[j]).id,
{
    lemma_mirrored_fields_ascend(fields, fields.len(), 1);
}

} // verus!
