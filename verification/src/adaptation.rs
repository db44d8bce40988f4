//! How a physical column becomes the column that the table schema asks for.

use vstd::prelude::*;

use crate::carrier::{field_models, lemma_struct_model, CarrierModel, DataType, DataTypeModel, Field, TimeUnit};
use crate::error::{ConnectorError, CorruptData};
use crate::variant::{is_variant_struct_data_type, variant_struct};

verus! {

/// The promotions that the table format defines for schema evolution.
#[derive(Clone, Copy, Debug, PartialEq, Eq, Structural)]
pub enum IcebergTypePromotion {
    IntToLong,
    FloatToDouble,
    DecimalPrecisionWidening,
    DateToTimestamp,
    DateToTimestampNs,
    UnknownToAny,
}

/// How a physical column becomes its target column.
#[derive(Clone, Copy, Debug, PartialEq, Eq, Structural)]
pub enum IcebergPhysicalAdaptation {
    /// The physical carrier is the target carrier.
    Identity,
    /// Only metadata of nested fields differs.
    RetagNestedMetadata,
    /// A variant struct collapses into its opaque binary carrier.
    CollapseVariant,
    /// Another carrier of the same logical type.
    RepresentationCast,
    Promotion(IcebergTypePromotion),
}

/// The promotion between two carriers, where there is one.
pub open spec fn promotion_of(source: DataTypeModel, target: DataTypeModel) -> Option<IcebergTypePromotion> {
    match (source, target) {
        (DataTypeModel::Int32, DataTypeModel::Int64) => Some(IcebergTypePromotion::IntToLong),
        (DataTypeModel::Float32, DataTypeModel::Float64) => Some(
            IcebergTypePromotion::FloatToDouble,
        ),
        (
            DataTypeModel::Decimal128(source_precision, source_scale),
            DataTypeModel::Decimal128(precision, scale),
        ) => if source_scale == scale && source_precision <= precision {
            Some(IcebergTypePromotion::DecimalPrecisionWidening)
        } else {
            None
        },
        (DataTypeModel::Date32, DataTypeModel::Timestamp(TimeUnit::Microsecond, _)) => Some(
            IcebergTypePromotion::DateToTimestamp,
        ),
        (DataTypeModel::Date32, DataTypeModel::Timestamp(TimeUnit::Nanosecond, _)) => Some(
            IcebergTypePromotion::DateToTimestampNs,
        ),
        _ => None,
    }
}

/// The promotion between two carriers, where there is one.
pub fn iceberg_promotion(source: &DataType, target: &DataType) -> (promotion: Option<IcebergTypePromotion>)
    ensures
        promotion == promotion_of(source.model(), target.model()),
{
    match (source, target) {
        (DataType::Int32, DataType::Int64) => Some(IcebergTypePromotion::IntToLong),
        (DataType::Float32, DataType::Float64) => Some(IcebergTypePromotion::FloatToDouble),
        (
            DataType::Decimal128(source_precision, source_scale),
            DataType::Decimal128(precision, scale),
        ) => {
            if *source_scale == *scale && *source_precision <= *precision {
                Some(IcebergTypePromotion::DecimalPrecisionWidening)
            } else {
                None
            }
        },
        (DataType::Date32, DataType::Timestamp(TimeUnit::Microsecond, _)) => Some(
            IcebergTypePromotion::DateToTimestamp,
        ),
        (DataType::Date32, DataType::Timestamp(TimeUnit::Nanosecond, _)) => Some(
            IcebergTypePromotion::DateToTimestampNs,
        ),
        _ => None,
    }
}

/// Whether a carrier holds texts.
pub open spec fn text_like(data_type: DataTypeModel) -> bool {
    data_type is Utf8 || data_type is LargeUtf8 || data_type is Utf8View
}

/// Whether two carriers spell the same logical type: no value changes, only its representation.
pub open spec fn equivalent(source: DataTypeModel, target: DataTypeModel) -> bool {
    ||| text_like(source) && text_like(target)
    ||| (crate::variant::binary_like(source) || source is FixedSizeBinary)
        && crate::variant::binary_like(target)
    ||| match (source, target) {
        (DataTypeModel::Timestamp(source_unit, _), DataTypeModel::Timestamp(target_unit, _)) => source_unit
            == target_unit,
        _ => false,
    }
}

fn is_text_like(data_type: &DataType) -> (text: bool)
    ensures
        text == text_like(data_type.model()),
{
    match data_type {
        DataType::Utf8 | DataType::LargeUtf8 | DataType::Utf8View => true,
        _ => false,
    }
}

/// Whether two carriers spell the same logical type.
pub fn representation_equivalent(source: &DataType, target: &DataType) -> (same: bool)
    ensures
        same == equivalent(source.model(), target.model()),
{
    if is_text_like(source) && is_text_like(target) {
        return true;
    }
    let source_binary = match source {
        DataType::Binary | DataType::LargeBinary | DataType::BinaryView
        | DataType::FixedSizeBinary(_) => true,
        _ => false,
    };
    if source_binary && crate::variant::is_binary_like(target) {
        return true;
    }
    match (source, target) {
        (DataType::Timestamp(source_unit, _), DataType::Timestamp(target_unit, _)) => *source_unit
            == *target_unit,
        _ => false,
    }
}

/// Whether a nested field has the name and the nullability of another.
pub open spec fn same_label(source: CarrierModel, target: CarrierModel) -> bool {
    source.name == target.name && source.nullable == target.nullable
}

/// Whether two carriers agree but for the metadata of the fields of nested types.
pub open spec fn same_shape(source: DataTypeModel, target: DataTypeModel) -> bool
    decreases source, 0nat,
{
    match (source, target) {
        (DataTypeModel::List(source), DataTypeModel::List(target)) => same_label(*source, *target)
            && same_shape(source.data_type, target.data_type),
        (DataTypeModel::LargeList(source), DataTypeModel::LargeList(target)) => same_label(
            *source,
            *target,
        ) && same_shape(source.data_type, target.data_type),
        (
            DataTypeModel::FixedSizeList(source, source_size),
            DataTypeModel::FixedSizeList(target, target_size),
        ) => source_size == target_size && same_label(*source, *target) && same_shape(
            source.data_type,
            target.data_type,
        ),
        (DataTypeModel::MapOf(source, source_sorted), DataTypeModel::MapOf(target, target_sorted)) => source_sorted
            == target_sorted && same_label(*source, *target) && same_shape(
            source.data_type,
            target.data_type,
        ),
        (DataTypeModel::Struct(source), DataTypeModel::Struct(target)) => source.len()
            == target.len() && same_shapes(source, target, source.len()),
        _ => source == target,
    }
}

/// Whether the first `n` fields of two lists agree but for their metadata, one by one.
pub open spec fn same_shapes(source: Seq<CarrierModel>, target: Seq<CarrierModel>, n: nat) -> bool
    decreases source, n,
{
    if n == 0 || n > source.len() {
        true
    } else {
        same_shapes(source, target, (n - 1) as nat) && same_label(source[n - 1], target[n - 1])
            && same_shape(source[n - 1].data_type, target[n - 1].data_type)
    }
}

proof fn lemma_shapes_differ(source: Seq<CarrierModel>, target: Seq<CarrierModel>, n: nat)
    requires
        n <= source.len(),
        !same_shapes(source, target, n),
    ensures
        !same_shapes(source, target, source.len()),
    decreases source.len() - n,
{
    if n < source.len() {
        lemma_shapes_differ(source, target, n + 1);
    }
}

fn is_same_label(source: &Field, target: &Field) -> (same: bool)
    ensures
        same == same_label(source.model(), target.model()),
{
    source.name == target.name && source.nullable == target.nullable
}

/// Whether two carriers agree but for the metadata of the fields of nested types. Field ids travel
/// in that metadata, so to adapt them is to relabel; another name or another nullability is another
/// carrier.
pub fn differ_only_by_nested_field_metadata(source: &DataType, target: &DataType) -> (same: bool)
    ensures
        same == same_shape(source.model(), target.model()),
    decreases *source,
{
    match (source, target) {
        (DataType::List(left), DataType::List(right)) => {
            proof {
                lemma_nested_models(*source, *target);
            }
            is_same_label(left, right) && differ_only_by_nested_field_metadata(
                &left.data_type,
                &right.data_type,
            )
        },
        (DataType::LargeList(left), DataType::LargeList(right)) => {
            proof {
                lemma_nested_models(*source, *target);
            }
            is_same_label(left, right) && differ_only_by_nested_field_metadata(
                &left.data_type,
                &right.data_type,
            )
        },
        (DataType::FixedSizeList(left, left_size), DataType::FixedSizeList(right, right_size)) => {
            proof {
                lemma_nested_models(*source, *target);
            }
            *left_size == *right_size && is_same_label(left, right) && differ_only_by_nested_field_metadata(
                &left.data_type,
                &right.data_type,
            )
        },
        (DataType::MapOf(left, left_sorted), DataType::MapOf(right, right_sorted)) => {
            proof {
                lemma_nested_models(*source, *target);
            }
            *left_sorted == *right_sorted && is_same_label(left, right) && differ_only_by_nested_field_metadata(
                &left.data_type,
                &right.data_type,
            )
        },
        (DataType::Struct(left), DataType::Struct(right)) => {
            proof {
                lemma_struct_model(*left);
                lemma_struct_model(*right);
            }
            let ghost a = field_models(left@);
            let ghost b = field_models(right@);
            if left.len() != right.len() {
                return false;
            }
            let mut i: usize = 0;
            while i < left.len()
                invariant
                    i <= left.len(),
                    left.len() == right.len(),
                    *source is Struct,
                    source->Struct_0 == *left,
                    a == field_models(left@),
                    b == field_models(right@),
                    source.model() == DataTypeModel::Struct(a),
                    target.model() == DataTypeModel::Struct(b),
                    same_shapes(a, b, i as nat),
                decreases left.len() - i,
            {
                proof {
                    assert(decreases_to!(*source => left[i as int]));
                    assert(a[i as int] == left@[i as int].model());
                    assert(b[i as int] == right@[i as int].model());
                }
                if !is_same_label(&left[i], &right[i]) || !differ_only_by_nested_field_metadata(
                    &left[i].data_type,
                    &right[i].data_type,
                ) {
                    proof {
                        assert(!same_shapes(a, b, (i + 1) as nat));
                        lemma_shapes_differ(a, b, (i + 1) as nat);
                    }
                    return false;
                }
                i += 1;
            }
            true
        },
        _ => {
            let same = source.same(target);
            same
        },
    }
}

/// The fields inside list and map carriers are modelled by their models.
proof fn lemma_nested_models(source: DataType, target: DataType)
    ensures
        match source {
            DataType::List(field) => source.model() == DataTypeModel::List(Box::new(field.model()))
                && field.model().data_type == field.data_type.model(),
            DataType::LargeList(field) => source.model() == DataTypeModel::LargeList(
                Box::new(field.model()),
            ) && field.model().data_type == field.data_type.model(),
            DataType::FixedSizeList(field, size) => source.model() == DataTypeModel::FixedSizeList(
                Box::new(field.model()),
                size,
            ) && field.model().data_type == field.data_type.model(),
            DataType::MapOf(field, sorted) => source.model() == DataTypeModel::MapOf(
                Box::new(field.model()),
                sorted,
            ) && field.model().data_type == field.data_type.model(),
            _ => true,
        },
        match target {
            DataType::List(field) => target.model() == DataTypeModel::List(Box::new(field.model()))
                && field.model().data_type == field.data_type.model(),
            DataType::LargeList(field) => target.model() == DataTypeModel::LargeList(
                Box::new(field.model()),
            ) && field.model().data_type == field.data_type.model(),
            DataType::FixedSizeList(field, size) => target.model() == DataTypeModel::FixedSizeList(
                Box::new(field.model()),
                size,
            ) && field.model().data_type == field.data_type.model(),
            DataType::MapOf(field, sorted) => target.model() == DataTypeModel::MapOf(
                Box::new(field.model()),
                sorted,
            ) && field.model().data_type == field.data_type.model(),
            _ => true,
        },
{
}

/// How a physical carrier becomes a target carrier, or that it cannot. The accepted set is closed.
pub open spec fn adaptation_of(source: DataTypeModel, target: DataTypeModel) -> Result<IcebergPhysicalAdaptation, ConnectorError>
    decreases source,
{
    if source == target {
        Ok(IcebergPhysicalAdaptation::Identity)
    } else if source is Null {
        Ok(IcebergPhysicalAdaptation::Promotion(IcebergTypePromotion::UnknownToAny))
    } else if target is LargeBinary && variant_struct(source) {
        Ok(IcebergPhysicalAdaptation::CollapseVariant)
    } else {
        match source {
            DataTypeModel::Dictionary(_, values) => match adaptation_of(*values, target) {
                Err(error) => Err(error),
                Ok(IcebergPhysicalAdaptation::Identity) => Ok(
                    IcebergPhysicalAdaptation::RepresentationCast,
                ),
                Ok(other) => Ok(other),
            },
            _ => match promotion_of(source, target) {
                Some(promotion) => Ok(IcebergPhysicalAdaptation::Promotion(promotion)),
                None => if equivalent(source, target) {
                    Ok(IcebergPhysicalAdaptation::RepresentationCast)
                } else if same_shape(source, target) {
                    Ok(IcebergPhysicalAdaptation::RetagNestedMetadata)
                } else {
                    Err(ConnectorError::Corrupt(CorruptData::PhysicalTypeMismatch))
                },
            },
        }
    }
}

/// Decide whether a physical carrier may become a target carrier, and how. A dictionary is an
/// encoding of its values and is looked through.
pub fn physical_adaptation(source: &DataType, target: &DataType) -> (adaptation: Result<IcebergPhysicalAdaptation, ConnectorError>)
    ensures
        adaptation == adaptation_of(source.model(), target.model()),
    decreases *source,
{
    if source.same(target) {
        return Ok(IcebergPhysicalAdaptation::Identity);
    }
    if let DataType::Null = source {
        return Ok(IcebergPhysicalAdaptation::Promotion(IcebergTypePromotion::UnknownToAny));
    }
    if let DataType::LargeBinary = target {
        if is_variant_struct_data_type(source) {
            return Ok(IcebergPhysicalAdaptation::CollapseVariant);
        }
    }
    if let DataType::Dictionary(_, values) = source {
        return match physical_adaptation(values, target) {
            Err(error) => Err(error),
            Ok(IcebergPhysicalAdaptation::Identity) => Ok(
                IcebergPhysicalAdaptation::RepresentationCast,
            ),
            Ok(other) => Ok(other),
        };
    }
    if let Some(promotion) = iceberg_promotion(source, target) {
        return Ok(IcebergPhysicalAdaptation::Promotion(promotion));
    }
    if representation_equivalent(source, target) {
        return Ok(IcebergPhysicalAdaptation::RepresentationCast);
    }
    if differ_only_by_nested_field_metadata(source, target) {
        return Ok(IcebergPhysicalAdaptation::RetagNestedMetadata);
    }
    Err(ConnectorError::Corrupt(CorruptData::PhysicalTypeMismatch))
}

/// No promotion narrows: a promotion between two carriers is never one back.
pub proof fn law_promotions_are_one_way(source: DataTypeModel, target: DataTypeModel)
    requires
        promotion_of(source, target) is Some,
        source != target,
    ensures
        promotion_of(target, source) is None,
{
}

/// The shape of a carrier is its own.
pub proof fn law_same_shape_is_reflexive(data_type: DataTypeModel)
    ensures
        same_shape(data_type, data_type),
    decreases data_type, 0nat,
{
    match data_type {
        DataTypeModel::List(field) => {
            law_same_shape_is_reflexive(field.data_type);
        },
        DataTypeModel::LargeList(field) => {
            law_same_shape_is_reflexive(field.data_type);
        },
        DataTypeModel::FixedSizeList(field, _) => {
            law_same_shape_is_reflexive(field.data_type);
        },
        DataTypeModel::MapOf(field, _) => {
            law_same_shape_is_reflexive(field.data_type);
        },
        DataTypeModel::Struct(fields) => {
            lemma_shapes_reflexive(fields, fields.len());
        },
        _ => {},
    }
}

proof fn lemma_shapes_reflexive(fields: Seq<CarrierModel>, n: nat)
    requires
        n <= fields.len(),
    ensures
        same_shapes(fields, fields, n),
    decreases fields, n,
{
    if n > 0 {
        lemma_shapes_reflexive(fields, (n - 1) as nat);
        law_same_shape_is_reflexive(fields[n - 1].data_type);
    }
}

} // verus!
