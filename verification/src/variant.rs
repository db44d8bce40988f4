//! Parquet VARIANT columns and their opaque binary carrier.

use vstd::prelude::*;

use crate::carrier::{field_models, lemma_struct_model, CarrierModel, DataType, DataTypeModel, Field};
use crate::error::{ConnectorError, CorruptData};
use crate::relation_columns::is_named;

verus! {

/// Whether a carrier holds byte strings of any length.
pub open spec fn binary_like(data_type: DataTypeModel) -> bool {
    data_type is Binary || data_type is LargeBinary || data_type is BinaryView
}

pub fn is_binary_like(data_type: &DataType) -> (binary: bool)
    ensures
        binary == binary_like(data_type.model()),
{
    match data_type {
        DataType::Binary | DataType::LargeBinary | DataType::BinaryView => true,
        _ => false,
    }
}

/// Whether a field may be part of a variant: `metadata` and `value` are byte strings, and
/// `typed_value` holds what was shredded.
pub open spec fn variant_part(field: CarrierModel) -> bool {
    ||| field.name == "metadata"@ && binary_like(field.data_type)
    ||| field.name == "value"@ && binary_like(field.data_type)
    ||| field.name == "typed_value"@
}

/// Whether one of a list of fields has a name.
pub open spec fn has_field(fields: Seq<CarrierModel>, name: Seq<char>) -> bool {
    exists|i: int| 0 <= i < fields.len() && (#[trigger] fields[i]).name == name
}

/// Whether a carrier is the layout of a variant: nothing but its parts, with metadata, and with a
/// value or a typed value.
pub open spec fn variant_struct(data_type: DataTypeModel) -> bool {
    match data_type {
        DataTypeModel::Struct(fields) => {
            &&& forall|i: int| 0 <= i < fields.len() ==> variant_part(#[trigger] fields[i])
            &&& has_field(fields, "metadata"@)
            &&& has_field(fields, "value"@) || has_field(fields, "typed_value"@)
        },
        _ => false,
    }
}

/// Whether a carrier is a supported layout of a variant.
pub fn is_variant_struct_data_type(data_type: &DataType) -> (variant: bool)
    ensures
        variant == variant_struct(data_type.model()),
{
    match data_type {
        DataType::Struct(fields) => {
            proof {
                lemma_struct_model(*fields);
                reveal_strlit("metadata");
                reveal_strlit("value");
                reveal_strlit("typed_value");
            }
            let ghost models = field_models(fields@);
            let mut has_metadata = false;
            let mut has_value = false;
            let mut has_typed_value = false;
            let mut i: usize = 0;
            while i < fields.len()
                invariant
                    i <= fields.len(),
                    models == field_models(fields@),
                    data_type.model() == DataTypeModel::Struct(models),
                    "metadata"@.len() == 8,
                    "value"@.len() == 5,
                    "typed_value"@.len() == 11,
                    forall|k: int| 0 <= k < i ==> variant_part(#[trigger] models[k]),
                    has_metadata == exists|k: int| 0 <= k < i && (#[trigger] models[k]).name == "metadata"@,
                    has_value == exists|k: int| 0 <= k < i && (#[trigger] models[k]).name == "value"@,
                    has_typed_value == exists|k: int| 0 <= k < i && (#[trigger] models[k]).name == "typed_value"@,
                decreases fields.len() - i,
            {
                let field = &fields[i];
                assert(models[i as int] == field.model());
                if is_named(&field.name, "metadata") && is_binary_like(&field.data_type) {
                    has_metadata = true;
                } else if is_named(&field.name, "value") && is_binary_like(&field.data_type) {
                    has_value = true;
                } else if is_named(&field.name, "typed_value") {
                    has_typed_value = true;
                } else {
                    assert(!variant_part(models[i as int]));
                    return false;
                }
                i += 1;
            }
            has_metadata && (has_value || has_typed_value)
        },
        _ => false,
    }
}

/// The position of the last field of a name.
pub open spec fn last_named(fields: Seq<CarrierModel>, name: Seq<char>) -> Option<nat>
    decreases fields.len(),
{
    if fields.len() == 0 {
        None
    } else if fields.last().name == name {
        Some((fields.len() - 1) as nat)
    } else {
        last_named(fields.drop_last(), name)
    }
}

fn find_last_named(fields: &Vec<Field>, name: &str) -> (found: Option<usize>)
    ensures
        match last_named(field_models(fields@), name@) {
            Some(at) => found is Some && found->0 == at && at < fields@.len(),
            None => found is None,
        },
{
    let ghost models = field_models(fields@);
    let mut i: usize = fields.len();
    assert(models.take(i as int) =~= models);
    while i > 0
        invariant
            i <= fields.len(),
            models == field_models(fields@),
            last_named(models, name@) == last_named(models.take(i as int), name@),
        decreases i,
    {
        proof {
            assert(models.take(i as int).last() == fields@[i - 1].model());
            assert(models.take(i as int).drop_last() =~= models.take(i - 1));
        }
        if is_named(&fields[i - 1].name, name) {
            return Some(i - 1);
        }
        i -= 1;
    }
    None
}

/// Which fields of an unshredded variant hold its metadata and its value.
pub fn variant_columns(fields: &Vec<Field>) -> (columns: Result<(usize, usize), ConnectorError>)
    ensures
        ({
            let metadata = last_named(field_models(fields@), "metadata"@);
            let value = last_named(field_models(fields@), "value"@);
            match columns {
                Ok((m, v)) => metadata is Some && metadata->0 == m && value is Some && value->0 == v,
                Err(error) => if metadata is None {
                    error == ConnectorError::Corrupt(CorruptData::VariantWithoutMetadata)
                } else {
                    value is None && error == ConnectorError::Corrupt(
                        CorruptData::VariantWithoutValue,
                    )
                },
            }
        }),
{
    let metadata: usize = match find_last_named(fields, "metadata") {
        Some(at) => at,
        None => return Err(ConnectorError::Corrupt(CorruptData::VariantWithoutMetadata)),
    };
    match find_last_named(fields, "value") {
        Some(at) => Ok((metadata, at)),
        None => Err(ConnectorError::Corrupt(CorruptData::VariantWithoutValue)),
    }
}

/// One row of an unshredded variant column.
pub struct VariantRow {
    pub is_null: bool,
    pub metadata: Option<Vec<u8>>,
    pub value: Option<Vec<u8>>,
}

/// A 32-bit number as four bytes, the lowest first.
pub open spec fn little_endian(value: u32) -> Seq<u8> {
    seq![
        (value % 256) as u8,
        (value / 256 % 256) as u8,
        (value / 65536 % 256) as u8,
        (value / 16777216) as u8,
    ]
}

/// The canonical form of a variant: the length of what follows, then the metadata, then the
/// value.
pub open spec fn canonical_variant(metadata: Seq<u8>, value: Seq<u8>) -> Seq<u8> {
    little_endian((metadata.len() + value.len()) as u32) + metadata + value
}

/// The canonical form of one row, or why it has none. A row that is not null has both parts.
pub open spec fn canonical_row(row: VariantRow) -> Result<Option<Seq<u8>>, ConnectorError> {
    if row.is_null {
        Ok(None)
    } else {
        match (row.metadata, row.value) {
            (Some(metadata), Some(value)) => if metadata@.len() + value@.len() > u32::MAX {
                Err(ConnectorError::Corrupt(CorruptData::VariantTooLarge))
            } else {
                Ok(Some(canonical_variant(metadata@, value@)))
            },
            _ => Err(ConnectorError::Corrupt(CorruptData::VariantRowIncomplete)),
        }
    }
}

fn append_bytes(out: &mut Vec<u8>, bytes: &Vec<u8>)
    ensures
        final(out)@ == old(out)@ + bytes@,
{
    let ghost start = out@;
    let mut i: usize = 0;
    assert(out@ =~= start + bytes@.take(0));
    while i < bytes.len()
        invariant
            i <= bytes.len(),
            out@ == start + bytes@.take(i as int),
        decreases bytes.len() - i,
    {
        out.push(bytes[i]);
        assert(start + bytes@.take(i + 1) =~= (start + bytes@.take(i as int)).push(bytes@[i as int]));
        i += 1;
    }
    assert(bytes@.take(i as int) =~= bytes@);
}

/// Frame the two parts of a variant.
pub fn frame_variant(metadata: &Vec<u8>, value: &Vec<u8>) -> (framed: Result<Vec<u8>, ConnectorError>)
    ensures
        match framed {
            Ok(bytes) => metadata@.len() + value@.len() <= u32::MAX && bytes@ == canonical_variant(
                metadata@,
                value@,
            ),
            Err(error) => metadata@.len() + value@.len() > u32::MAX && error
                == ConnectorError::Corrupt(CorruptData::VariantTooLarge),
        },
{
    if metadata.len() as u64 > 4294967295 || value.len() as u64 > 4294967295 || metadata.len() as u64
        + value.len() as u64 > 4294967295 {
        return Err(ConnectorError::Corrupt(CorruptData::VariantTooLarge));
    }
    let size: u32 = (metadata.len() + value.len()) as u32;
    let mut bytes: Vec<u8> = Vec::new();
    bytes.push((size % 256) as u8);
    bytes.push((size / 256 % 256) as u8);
    bytes.push((size / 65536 % 256) as u8);
    bytes.push((size / 16777216) as u8);
    assert(bytes@ =~= little_endian(size));
    append_bytes(&mut bytes, metadata);
    append_bytes(&mut bytes, value);
    Ok(bytes)
}

/// The framed rows as mathematical values.
pub open spec fn framed_model(rows: Seq<Option<Vec<u8>>>) -> Seq<Option<Seq<u8>>> {
    rows.map_values(
        |row: Option<Vec<u8>>|
            match row {
                Some(bytes) => Some(bytes@),
                None => None,
            },
    )
}

/// Collapse an unshredded variant column into its canonical byte strings. The first row without a
/// canonical form refuses the column.
pub fn collapse_variant_struct_to_largebinary(rows: &Vec<VariantRow>) -> (collapsed: Result<Vec<Option<Vec<u8>>>, ConnectorError>)
    ensures
        match collapsed {
            Ok(list) => list@.len() == rows@.len() && forall|i: int|
                0 <= i < rows@.len() ==> canonical_row(#[trigger] rows@[i]) == Ok::<Option<Seq<u8>>, ConnectorError>(
                    framed_model(list@)[i],
                ),
            Err(error) => exists|i: int|
                0 <= i < rows@.len() && canonical_row(#[trigger] rows@[i]) == Err::<Option<Seq<u8>>, ConnectorError>(
                    error,
                ) && forall|k: int| 0 <= k < i ==> canonical_row(#[trigger] rows@[k]) is Ok,
        },
{
    let mut list: Vec<Option<Vec<u8>>> = Vec::new();
    let mut i: usize = 0;
    while i < rows.len()
        invariant
            i <= rows.len(),
            list@.len() == i,
            forall|k: int|
                0 <= k < i ==> canonical_row(#[trigger] rows@[k]) == Ok::<Option<Seq<u8>>, ConnectorError>(
                    framed_model(list@)[k],
                ),
        decreases rows.len() - i,
    {
        let row = &rows[i];
        let ghost before = list@;
        let framed: Result<Option<Vec<u8>>, ConnectorError> = if row.is_null {
            Ok(None)
        } else {
            match (&row.metadata, &row.value) {
                (Some(metadata), Some(value)) => match frame_variant(metadata, value) {
                    Ok(bytes) => Ok(Some(bytes)),
                    Err(error) => Err(error),
                },
                _ => Err(ConnectorError::Corrupt(CorruptData::VariantRowIncomplete)),
            }
        };
        match framed {
            Ok(bytes) => list.push(bytes),
            Err(error) => {
                assert(canonical_row(rows@[i as int]) == Err::<Option<Seq<u8>>, ConnectorError>(error));
                return Err(error);
            },
        }
        proof {
            assert forall|k: int| 0 <= k < i + 1 implies canonical_row(#[trigger] rows@[k]) == Ok::<Option<Seq<u8>>, ConnectorError>(
                framed_model(list@)[k],
            ) by {
                if k < i {
                    assert(framed_model(list@)[k] == framed_model(before)[k]);
                }
            }
        }
        i += 1;
    }
    Ok(list)
}

/// The parts of a variant can be read back from its canonical form, given where the metadata ends:
/// the first four bytes count the rest, and the rest is the metadata and then the value.
pub proof fn law_canonical_variant_keeps_its_parts(metadata: Seq<u8>, value: Seq<u8>)
    requires
        metadata.len() + value.len() <= u32::MAX,
    ensures
        ({
            let bytes = canonical_variant(metadata, value);
            &&& bytes.len() == 4 + metadata.len() + value.len()
            &&& bytes[0] + 256 * bytes[1] + 65536 * bytes[2] + 16777216 * bytes[3] == bytes.len() - 4
            &&& bytes.subrange(4, 4 + metadata.len() as int) == metadata
            &&& bytes.skip(4 + metadata.len() as int) == value
        }),
{
    let bytes = canonical_variant(metadata, value);
    let size = (metadata.len() + value.len()) as u32;
    assert(bytes.subrange(4, 4 + metadata.len() as int) =~= metadata);
    assert(bytes.skip(4 + metadata.len() as int) =~= value);
    assert(size % 256 + 256 * (size / 256 % 256) + 65536 * (size / 65536 % 256) + 16777216 * (size
        / 16777216) == size) by (bit_vector);
}

} // verus!
