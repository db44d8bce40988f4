//! What the frozen schemas of the system relations keep of a table.

use vstd::prelude::*;

use crate::binding_laws::law_entries_are_found_by_their_id;
use crate::carrier::{CarrierModel, DataTypeModel, TimeUnit};
use crate::error::ConnectorError;
use crate::keyed::{get, law_get_after_put};
use crate::partition::{ordered_specs, specs_up_to, lemma_specs_up_to_bound, PartitionFieldModel, PartitionSpecModel};
use crate::system_schema::{
    all_partition_fields, bounded_primitive, bounds_columns, bounds_row, column_named, entries_data_file_model, law_bounds_ascend_by_field_id,
    entries_model, files_model, history_model, list_model, manifests_model, map_model, metrics_columns,
    metrics_model, metrics_row, mirrored_field, mirrored_fields, mirrored_type, partition_carrier, partition_columns,
    partition_row, partition_summary_model, partitions_model, partitions_view_model, position_named,
    primitive_carrier, primitives_by_id, refs_model, relation_handles, relation_model, snapshots_model,
    timestamp_tz_model, IcebergSystemTableType,
};
use crate::text::{integer_text, law_parsing_inverts_rendering, parsed_i32, same_ignoring_case};
use crate::types::{
    entry_with_id, schema_entries, DefaultModel, EntryModel, FieldModel, PrimitiveType, TypeModel,
};

verus! {

/// Whether a column has a name, a carrier and room for nulls as stated, and nothing besides.
pub open spec fn is_column(column: CarrierModel, name: Seq<char>, data_type: DataTypeModel, nullable: bool) -> bool {
    &&& column.name == name
    &&& column.data_type == data_type
    &&& column.nullable == nullable
    &&& column.field_id is None
    &&& column.initial_default is None
    &&& !column.json
    &&& column.metadata.len() == 0
}

/// The columns of `$snapshots`, in their order: what each is called, what carries it, and whether it may
/// be null.
pub proof fn law_snapshots_has_its_columns()
    ensures
        ({
            let columns = snapshots_model();
            &&& columns.len() == 6
            &&& is_column(columns[0], "committed_at"@, timestamp_tz_model(), false)
            &&& is_column(columns[1], "snapshot_id"@, DataTypeModel::Int64, false)
            &&& is_column(columns[2], "parent_id"@, DataTypeModel::Int64, true)
            &&& is_column(columns[3], "operation"@, DataTypeModel::Utf8, false)
            &&& is_column(columns[4], "manifest_list"@, DataTypeModel::Utf8, false)
            &&& is_column(columns[5], "summary"@, map_model(DataTypeModel::Utf8, DataTypeModel::Utf8), true)
        }),
{
}

/// The columns of `$history`, in their order: what each is called, what carries it, and whether it may
/// be null.
pub proof fn law_history_has_its_columns()
    ensures
        ({
            let columns = history_model();
            &&& columns.len() == 4
            &&& is_column(columns[0], "made_current_at"@, timestamp_tz_model(), false)
            &&& is_column(columns[1], "snapshot_id"@, DataTypeModel::Int64, false)
            &&& is_column(columns[2], "parent_id"@, DataTypeModel::Int64, true)
            &&& is_column(columns[3], "is_current_ancestor"@, DataTypeModel::Boolean, false)
        }),
{
}

/// The columns of `$refs`, in their order: what each is called, what carries it, and whether it may
/// be null.
pub proof fn law_refs_has_its_columns()
    ensures
        ({
            let columns = refs_model();
            &&& columns.len() == 6
            &&& is_column(columns[0], "name"@, DataTypeModel::Utf8, false)
            &&& is_column(columns[1], "type"@, DataTypeModel::Utf8, false)
            &&& is_column(columns[2], "snapshot_id"@, DataTypeModel::Int64, false)
            &&& is_column(columns[3], "max_reference_age_in_ms"@, DataTypeModel::Int64, true)
            &&& is_column(columns[4], "min_snapshots_to_keep"@, DataTypeModel::Int32, true)
            &&& is_column(columns[5], "max_snapshot_age_in_ms"@, DataTypeModel::Int64, true)
        }),
{
}

/// The columns of `$manifests`, in their order: what each is called, what carries it, and whether it may
/// be null.
pub proof fn law_manifests_has_its_columns()
    ensures
        ({
            let columns = manifests_model();
            &&& columns.len() == 12
            &&& is_column(columns[0], "content"@, DataTypeModel::Int32, false)
            &&& is_column(columns[1], "path"@, DataTypeModel::Utf8, false)
            &&& is_column(columns[2], "length"@, DataTypeModel::Int64, false)
            &&& is_column(columns[3], "partition_spec_id"@, DataTypeModel::Int32, false)
            &&& is_column(columns[4], "added_snapshot_id"@, DataTypeModel::Int64, false)
            &&& is_column(columns[5], "added_data_files_count"@, DataTypeModel::Int32, true)
            &&& is_column(columns[6], "added_rows_count"@, DataTypeModel::Int64, true)
            &&& is_column(columns[7], "existing_data_files_count"@, DataTypeModel::Int32, true)
            &&& is_column(columns[8], "existing_rows_count"@, DataTypeModel::Int64, true)
            &&& is_column(columns[9], "deleted_data_files_count"@, DataTypeModel::Int32, true)
            &&& is_column(columns[10], "deleted_rows_count"@, DataTypeModel::Int64, true)
            &&& is_column(columns[11], "partition_summaries"@, partition_summary_model(), true)
        }),
{
}

/// The summary of a partition field: whether it holds nulls, whether it holds NaNs, and its bounds.
pub proof fn law_summaries_have_their_parts()
    ensures
        ({
            let carrier = partition_summary_model();
            let columns = carrier->List_0.data_type->Struct_0;
            &&& carrier is List
            &&& carrier->List_0.data_type is Struct
            &&& columns.len() == 4
            &&& is_column(columns[0], "contains_null"@, DataTypeModel::Boolean, false)
            &&& is_column(columns[1], "contains_nan"@, DataTypeModel::Boolean, true)
            &&& is_column(columns[2], "lower_bound"@, DataTypeModel::Utf8, true)
            &&& is_column(columns[3], "upper_bound"@, DataTypeModel::Utf8, true)
        }),
{
}

/// The columns of `$files`, in their order. A partitioned table has one more, and one with a field
/// that can be bounded two more.
pub proof fn law_files_has_its_columns(partition: Option<DataTypeModel>, bounds: Option<DataTypeModel>)
    ensures
        ({
            let columns = files_model(partition, bounds);
            let p = if partition is Some {
                1int
            } else {
                0
            };
            let b = if bounds is Some {
                2int
            } else {
                0
            };
            &&& columns.len() == 24 + p + b
            &&& is_column(columns[0], "content"@, DataTypeModel::Int32, false)
            &&& is_column(columns[1], "file_path"@, DataTypeModel::Utf8, false)
            &&& is_column(columns[2], "file_format"@, DataTypeModel::Utf8, false)
            &&& is_column(columns[3], "spec_id"@, DataTypeModel::Int32, false)
            &&& partition is Some ==> is_column(columns[4], "partition"@, partition->0, true)
            &&& is_column(columns[4 + p], "record_count"@, DataTypeModel::Int64, false)
            &&& is_column(columns[5 + p], "file_size_in_bytes"@, DataTypeModel::Int64, false)
            &&& is_column(columns[6 + p], "column_sizes"@, map_model(DataTypeModel::Int32, DataTypeModel::Int64), true)
            &&& is_column(columns[7 + p], "value_counts"@, map_model(DataTypeModel::Int32, DataTypeModel::Int64), true)
            &&& is_column(columns[8 + p], "null_value_counts"@, map_model(DataTypeModel::Int32, DataTypeModel::Int64), true)
            &&& is_column(columns[9 + p], "nan_value_counts"@, map_model(DataTypeModel::Int32, DataTypeModel::Int64), true)
            &&& bounds is Some ==> is_column(columns[10 + p], "lower_bounds"@, bounds->0, true)
            &&& bounds is Some ==> is_column(columns[11 + p], "upper_bounds"@, bounds->0, true)
            &&& is_column(columns[10 + p + b], "key_metadata"@, DataTypeModel::Binary, true)
            &&& is_column(columns[11 + p + b], "split_offsets"@, list_model(DataTypeModel::Int64), true)
            &&& is_column(columns[12 + p + b], "equality_ids"@, list_model(DataTypeModel::Int32), true)
            &&& is_column(columns[13 + p + b], "sort_order_id"@, DataTypeModel::Int32, true)
            &&& columns[14 + p + b].name == "readable_metrics"@ && columns[14 + p + b].json
            &&& columns[14 + p + b].data_type == DataTypeModel::Utf8 && columns[14 + p + b].nullable
            &&& is_column(columns[15 + p + b], "added_snapshot_id"@, DataTypeModel::Int64, true)
            &&& is_column(columns[16 + p + b], "file_sequence_number"@, DataTypeModel::Int64, true)
            &&& is_column(columns[17 + p + b], "data_sequence_number"@, DataTypeModel::Int64, true)
            &&& is_column(columns[18 + p + b], "referenced_data_file"@, DataTypeModel::Utf8, true)
            &&& is_column(columns[19 + p + b], "pos"@, DataTypeModel::Int64, false)
            &&& is_column(columns[20 + p + b], "manifest_location"@, DataTypeModel::Utf8, false)
            &&& is_column(columns[21 + p + b], "first_row_id"@, DataTypeModel::Int64, true)
            &&& is_column(columns[22 + p + b], "content_offset"@, DataTypeModel::Int64, true)
            &&& is_column(columns[23 + p + b], "content_size_in_bytes"@, DataTypeModel::Int64, true)
        }),
{
}

/// The facts of a file in `$entries`, in their order. A partitioned table has one more.
pub proof fn law_data_files_have_their_facts(partition: Option<DataTypeModel>)
    ensures
        ({
            let carrier = entries_data_file_model(partition);
            let columns = carrier->Struct_0;
            let p = if partition is Some {
                1int
            } else {
                0
            };
            &&& carrier is Struct
            &&& columns.len() == 16 + p
            &&& is_column(columns[0], "content"@, DataTypeModel::Int32, false)
            &&& is_column(columns[1], "file_path"@, DataTypeModel::Utf8, false)
            &&& is_column(columns[2], "file_format"@, DataTypeModel::Utf8, false)
            &&& is_column(columns[3], "spec_id"@, DataTypeModel::Int32, false)
            &&& partition is Some ==> is_column(columns[4], "partition"@, partition->0, true)
            &&& is_column(columns[4 + p], "record_count"@, DataTypeModel::Int64, false)
            &&& is_column(columns[5 + p], "file_size_in_bytes"@, DataTypeModel::Int64, false)
            &&& is_column(columns[6 + p], "column_sizes"@, map_model(DataTypeModel::Int32, DataTypeModel::Int64), true)
            &&& is_column(columns[7 + p], "value_counts"@, map_model(DataTypeModel::Int32, DataTypeModel::Int64), true)
            &&& is_column(columns[8 + p], "null_value_counts"@, map_model(DataTypeModel::Int32, DataTypeModel::Int64), true)
            &&& is_column(columns[9 + p], "nan_value_counts"@, map_model(DataTypeModel::Int32, DataTypeModel::Int64), true)
            &&& is_column(columns[10 + p], "lower_bounds"@, map_model(DataTypeModel::Int32, DataTypeModel::Utf8), true)
            &&& is_column(columns[11 + p], "upper_bounds"@, map_model(DataTypeModel::Int32, DataTypeModel::Utf8), true)
            &&& is_column(columns[12 + p], "key_metadata"@, DataTypeModel::Binary, true)
            &&& is_column(columns[13 + p], "split_offsets"@, list_model(DataTypeModel::Int64), true)
            &&& is_column(columns[14 + p], "equality_ids"@, list_model(DataTypeModel::Int32), true)
            &&& is_column(columns[15 + p], "sort_order_id"@, DataTypeModel::Int32, true)
        }),
{
}

/// The columns of `$entries`, in their order.
pub proof fn law_entries_has_its_columns(partition: Option<DataTypeModel>)
    ensures
        ({
            let columns = entries_model(partition);
            &&& columns.len() == 6
            &&& is_column(columns[0], "status"@, DataTypeModel::Int32, false)
            &&& is_column(columns[1], "snapshot_id"@, DataTypeModel::Int64, true)
            &&& is_column(columns[2], "sequence_number"@, DataTypeModel::Int64, true)
            &&& is_column(columns[3], "file_sequence_number"@, DataTypeModel::Int64, true)
            &&& is_column(columns[4], "data_file"@, entries_data_file_model(partition), false)
            &&& columns[5].name == "readable_metrics"@ && columns[5].json
            &&& columns[5].data_type == DataTypeModel::Utf8 && columns[5].nullable
        }),
{
}

/// The columns of `$partitions`, in their order: the partition where the table has one, the totals,
/// and the metrics where some field can be measured.
pub proof fn law_partitions_has_its_columns(partition: Option<DataTypeModel>, metrics: Option<DataTypeModel>)
    ensures
        ({
            let columns = partitions_model(partition, metrics);
            let p = if partition is Some {
                1int
            } else {
                0
            };
            &&& columns.len() == 3 + p + (if metrics is Some {
                1int
            } else {
                0
            })
            &&& partition is Some ==> is_column(columns[0], "partition"@, partition->0, true)
            &&& is_column(columns[0 + p], "record_count"@, DataTypeModel::Int64, false)
            &&& is_column(columns[1 + p], "file_count"@, DataTypeModel::Int64, false)
            &&& is_column(columns[2 + p], "total_size"@, DataTypeModel::Int64, false)
            &&& metrics is Some ==> is_column(columns[3 + p], "data"@, metrics->0, true)
        }),
{
}

/// Each relation has the schema of its own name; those of the files show the partition and the
/// bounds of the table.
pub proof fn law_relations_have_their_own_schemas(
    relation: IcebergSystemTableType,
    fields: Seq<FieldModel>,
    specs: Seq<PartitionSpecModel>,
)
    ensures
        relation is Snapshots ==> relation_model(relation, fields, specs) == Ok::<Seq<CarrierModel>, ConnectorError>(
            snapshots_model(),
        ),
        relation is History ==> relation_model(relation, fields, specs) == Ok::<Seq<CarrierModel>, ConnectorError>(
            history_model(),
        ),
        relation is Refs ==> relation_model(relation, fields, specs) == Ok::<Seq<CarrierModel>, ConnectorError>(
            refs_model(),
        ),
        relation is Manifests ==> relation_model(relation, fields, specs) == Ok::<Seq<CarrierModel>, ConnectorError>(
            manifests_model(),
        ),
        relation is Files && partition_row(fields, specs) is Ok && bounds_row(fields) is Ok ==> relation_model(
            relation,
            fields,
            specs,
        ) == Ok::<Seq<CarrierModel>, ConnectorError>(
            files_model(partition_row(fields, specs)->Ok_0, bounds_row(fields)->Ok_0),
        ),
        relation is Entries && partition_row(fields, specs) is Ok ==> relation_model(relation, fields, specs) == Ok::<
            Seq<CarrierModel>,
            ConnectorError,
        >(entries_model(partition_row(fields, specs)->Ok_0)),
        relation_model(relation, fields, specs) is Err <==> (relation is Files && (partition_row(fields, specs) is Err
            || bounds_row(fields) is Err)) || (relation is Entries && partition_row(fields, specs) is Err),
        partition_row(fields, specs) is Ok && metrics_row(fields) is Ok ==> partitions_view_model(fields, specs)
            == Ok::<Seq<CarrierModel>, ConnectorError>(
            partitions_model(partition_row(fields, specs)->Ok_0, metrics_row(fields)->Ok_0),
        ),
        partitions_view_model(fields, specs) is Ok <==> partition_row(fields, specs) is Ok && metrics_row(fields) is Ok,
{
}

// ---------------------------------------------------------------------------
// Carriers
// ---------------------------------------------------------------------------

/// Each primitive has a carrier of its own, a UUID that of text. What does not fit its carrier, and
/// a variant, has none.
pub proof fn law_primitives_have_their_carriers(primitive: PrimitiveType)
    ensures
        match primitive_carrier(primitive) {
            Ok(carrier) => match primitive {
                PrimitiveType::Boolean => carrier is Boolean,
                PrimitiveType::Int => carrier is Int32,
                PrimitiveType::Long => carrier is Int64,
                PrimitiveType::Float => carrier is Float32,
                PrimitiveType::Double => carrier is Float64,
                PrimitiveType::Decimal { precision, scale } => carrier is Decimal128 && carrier->Decimal128_0 == precision
                    && carrier->Decimal128_1 == scale,
                PrimitiveType::Date => carrier is Date32,
                PrimitiveType::Time => carrier == DataTypeModel::Time64(TimeUnit::Microsecond),
                PrimitiveType::Timestamp => carrier == DataTypeModel::Timestamp(TimeUnit::Microsecond, None),
                PrimitiveType::Timestamptz => carrier == DataTypeModel::Timestamp(
                    TimeUnit::Microsecond,
                    Some("UTC"@),
                ),
                PrimitiveType::TimestampNs => carrier == DataTypeModel::Timestamp(TimeUnit::Nanosecond, None),
                PrimitiveType::TimestamptzNs => carrier == DataTypeModel::Timestamp(
                    TimeUnit::Nanosecond,
                    Some("UTC"@),
                ),
                PrimitiveType::String | PrimitiveType::Uuid => carrier is Utf8,
                PrimitiveType::Fixed(width) => carrier is FixedSizeBinary && carrier->FixedSizeBinary_0 == width,
                PrimitiveType::Binary => carrier is Binary,
                PrimitiveType::Variant => false,
            },
            Err(_) => match primitive {
                PrimitiveType::Decimal { precision, scale } => precision > 255 || scale > 127,
                PrimitiveType::Fixed(width) => width > i32::MAX,
                PrimitiveType::Variant => true,
                _ => false,
            },
        },
{
}

/// A field is mirrored under its own name, required where it may not be null, and without a default;
/// what is nested in it takes its ids first.
pub proof fn law_fields_are_mirrored_under_their_names(fields: Seq<CarrierModel>, n: nat, next: int)
    requires
        n <= fields.len(),
        next >= 1,
        mirrored_fields(fields, n, next) is Ok,
    ensures
        ({
            let mirrored = mirrored_fields(fields, n, next)->Ok_0.0;
            &&& mirrored.len() == n
            &&& forall|i: int|
                0 <= i < n ==> (#[trigger] mirrored[i]).name == fields[i].name && mirrored[i].required
                    == !fields[i].nullable && mirrored[i].initial_default == DefaultModel::Absent && mirrors(
                    mirrored[i].field_type,
                    fields[i].data_type,
                )
        }),
    decreases n,
{
    if n > 0 {
        law_fields_are_mirrored_under_their_names(fields, (n - 1) as nat, next);
        let before = mirrored_fields(fields, (n - 1) as nat, next)->Ok_0;
        assert(mirrored_field(fields[n - 1], before.1) is Ok);
        assert(mirrored_type(fields[n - 1].data_type, before.1) is Ok);
    }
}

/// Whether a type is of the kind that its carrier is: a struct with as many fields, a list, a map, or
/// a primitive that the carrier carries.
pub open spec fn mirrors(mirrored: TypeModel, carrier: DataTypeModel) -> bool {
    match carrier {
        DataTypeModel::Struct(_) => mirrored is Struct,
        DataTypeModel::List(_) => mirrored is List,
        DataTypeModel::MapOf(_, _) => mirrored is MapOf,
        DataTypeModel::Boolean => mirrored == TypeModel::Primitive(PrimitiveType::Boolean),
        DataTypeModel::Int32 => mirrored == TypeModel::Primitive(PrimitiveType::Int),
        DataTypeModel::Int64 => mirrored == TypeModel::Primitive(PrimitiveType::Long),
        DataTypeModel::Float32 => mirrored == TypeModel::Primitive(PrimitiveType::Float),
        DataTypeModel::Float64 => mirrored == TypeModel::Primitive(PrimitiveType::Double),
        DataTypeModel::Date32 => mirrored == TypeModel::Primitive(PrimitiveType::Date),
        DataTypeModel::Utf8 => mirrored == TypeModel::Primitive(PrimitiveType::String),
        DataTypeModel::Binary => mirrored == TypeModel::Primitive(PrimitiveType::Binary),
        DataTypeModel::Decimal128(precision, scale) => mirrored is Primitive && mirrored->Primitive_0 is Decimal
            && mirrored->Primitive_0->precision == precision && mirrored->Primitive_0->scale == scale,
        DataTypeModel::FixedSizeBinary(width) => mirrored is Primitive && mirrored->Primitive_0 is Fixed
            && mirrored->Primitive_0->Fixed_0 == width,
        DataTypeModel::Time64(unit) => unit == TimeUnit::Microsecond && mirrored == TypeModel::Primitive(
            PrimitiveType::Time,
        ),
        DataTypeModel::Timestamp(unit, zone) => mirrored == TypeModel::Primitive(
            if unit == TimeUnit::Nanosecond {
                if zone is Some {
                    PrimitiveType::TimestamptzNs
                } else {
                    PrimitiveType::TimestampNs
                }
            } else {
                if zone is Some {
                    PrimitiveType::Timestamptz
                } else {
                    PrimitiveType::Timestamp
                }
            },
        ) && (unit == TimeUnit::Nanosecond || unit == TimeUnit::Microsecond),
        _ => false,
    }
}

/// The fields of a struct are mirrored one by one, and so are the item of a list and the key and value
/// of a map.
pub proof fn law_nested_fields_are_mirrored(data_type: DataTypeModel, next: int)
    requires
        next >= 1,
        mirrored_type(data_type, next) is Ok,
    ensures
        ({
            let mirrored = mirrored_type(data_type, next)->Ok_0.0;
            &&& mirrors(mirrored, data_type)
            &&& data_type is Struct ==> mirrored->Struct_0.len() == data_type->Struct_0.len() && forall|i: int|
                0 <= i < mirrored->Struct_0.len() ==> (#[trigger] mirrored->Struct_0[i]).name
                    == data_type->Struct_0[i].name && mirrored->Struct_0[i].required == !data_type->Struct_0[i].nullable
            &&& data_type is List ==> mirrored->List_0.name == data_type->List_0.name && mirrored->List_0.required
                == !data_type->List_0.nullable && mirrors(mirrored->List_0.field_type, data_type->List_0.data_type)
            &&& data_type is MapOf ==> data_type->MapOf_0.data_type is Struct
                && data_type->MapOf_0.data_type->Struct_0.len() == 2 && mirrors(
                mirrored->MapOf_0.field_type,
                data_type->MapOf_0.data_type->Struct_0[0].data_type,
            ) && mirrors(mirrored->MapOf_1.field_type, data_type->MapOf_0.data_type->Struct_0[1].data_type)
                && mirrored->MapOf_0.name == data_type->MapOf_0.data_type->Struct_0[0].name && mirrored->MapOf_1.name
                == data_type->MapOf_0.data_type->Struct_0[1].name
        }),
{
    reveal_with_fuel(mirrored_type, 2);
    if data_type is Struct {
        law_fields_are_mirrored_under_their_names(data_type->Struct_0, data_type->Struct_0.len(), next);
    }
}

/// The published columns of a relation are its frozen columns, in their order: each under its name,
/// and nullable where the frozen one is.
pub proof fn law_published_columns_are_the_frozen_ones(
    relation: IcebergSystemTableType,
    fields: Seq<FieldModel>,
    specs: Seq<PartitionSpecModel>,
    i: int,
)
    requires
        relation_handles(relation, fields, specs) is Ok,
    ensures
        relation_model(relation, fields, specs) is Ok,
        ({
            let handles = relation_handles(relation, fields, specs)->Ok_0;
            let frozen = relation_model(relation, fields, specs)->Ok_0;
            &&& handles.len() == frozen.len()
            &&& 0 <= i < frozen.len() ==> handles[i].base_name == frozen[i].name && handles[i].nullable
                == frozen[i].nullable && handles[i].field_id_path.len() == 0 && handles[i].field_type
                == handles[i].base_type && mirrors(handles[i].base_type, frozen[i].data_type)
        }),
{
    let frozen = relation_model(relation, fields, specs)->Ok_0;
    law_fields_are_mirrored_under_their_names(frozen, frozen.len(), 1);
}

/// A name finds the first column that has it.
pub proof fn law_names_find_the_first_column(columns: Seq<CarrierModel>, name: Seq<char>, from: nat)
    ensures
        match position_named(columns, name, from) {
            Some(at) => from <= at < columns.len() && columns[at as int].name == name && forall|other: int|
                from <= other < at ==> (#[trigger] columns[other]).name != name,
            None => forall|other: int| from <= other < columns.len() ==> (#[trigger] columns[other]).name != name,
        },
    decreases columns.len() - from,
{
    if from < columns.len() && columns[from as int].name != name {
        law_names_find_the_first_column(columns, name, from + 1);
    }
}

// ---------------------------------------------------------------------------
// The partition row
// ---------------------------------------------------------------------------

/// A partition field has the carrier of its result, where its source is a field of the table.
pub proof fn law_partition_fields_are_carried_by_their_results(entries: Seq<EntryModel>, field: PartitionFieldModel)
    ensures
        partition_carrier(entries, field) is Ok ==> field.result_type is Primitive && primitive_carrier(
            field.result_type->Primitive_0,
        ) == partition_carrier(entries, field) && exists|e: int|
            0 <= e < entries.len() && (#[trigger] entries[e]).field.id == field.source_id,
        partition_carrier(entries, field) is Err <==> entry_with_id(entries, field.source_id) is None
            || field.result_type !is Primitive || primitive_carrier(field.result_type->Primitive_0) is Err,
{
    law_ids_find_an_entry(entries, field.source_id);
}

/// An id finds an entry of that id exactly where there is one.
pub proof fn law_ids_find_an_entry(entries: Seq<EntryModel>, id: i32)
    ensures
        match entry_with_id(entries, id) {
            Some(entry) => entry.field.id == id && exists|e: int|
                0 <= e < entries.len() && #[trigger] entries[e] == entry && entries[e].field.id == id,
            None => forall|e: int| 0 <= e < entries.len() ==> (#[trigger] entries[e]).field.id != id,
        },
    decreases entries.len(),
{
    if entries.len() > 0 {
        let shorter = entries.drop_last();
        let n = entries.len() - 1;
        law_ids_find_an_entry(shorter, id);
        if entries.last().field.id == id {
            assert(entries[n] == entries.last());
        } else {
            match entry_with_id(shorter, id) {
                Some(entry) => {
                    let e = choose|e: int| 0 <= e < shorter.len() && #[trigger] shorter[e] == entry;
                    assert(entries[e] == entry);
                },
                None => {
                    assert forall|e: int| 0 <= e < entries.len() implies (#[trigger] entries[e]).field.id != id by {
                        if e < n {
                            assert(shorter[e].field.id != id);
                        }
                    }
                },
            }
        }
    }
}

proof fn lemma_column_named(columns: Seq<CarrierModel>, name: Seq<char>)
    ensures
        match column_named(columns, name) {
            Some(column) => same_ignoring_case(column.name, name) && exists|c: int|
                0 <= c < columns.len() && #[trigger] columns[c] == column,
            None => forall|c: int| 0 <= c < columns.len() ==> !same_ignoring_case((#[trigger] columns[c]).name, name),
        },
    decreases columns.len(),
{
    if columns.len() > 0 {
        let rest = columns.drop_first();
        lemma_column_named(rest, name);
        if same_ignoring_case(columns.first().name, name) {
            assert(columns[0] == columns.first());
        } else {
            match column_named(rest, name) {
                Some(column) => {
                    let c = choose|c: int| 0 <= c < rest.len() && #[trigger] rest[c] == column;
                    assert(columns[c + 1] == column);
                },
                None => {
                    assert forall|c: int| 0 <= c < columns.len() implies !same_ignoring_case(
                        (#[trigger] columns[c]).name,
                        name,
                    ) by {
                        if c > 0 {
                            assert(rest[c - 1] == columns[c]);
                        }
                    }
                },
            }
        }
    }
}

/// Whether a column stands for a partition field: it has the field's name, but for case, and its
/// carrier.
pub open spec fn stands_for(column: CarrierModel, entries: Seq<EntryModel>, field: PartitionFieldModel) -> bool {
    &&& same_ignoring_case(column.name, field.name)
    &&& partition_carrier(entries, field) == Ok::<DataTypeModel, ConnectorError>(column.data_type)
    &&& column.nullable
}

/// Whether some column stands for a partition field.
pub open spec fn is_stood_for(columns: Seq<CarrierModel>, entries: Seq<EntryModel>, field: PartitionFieldModel) -> bool {
    exists|c: int| 0 <= c < columns.len() && stands_for(#[trigger] columns[c], entries, field)
}

/// Whether a column stands for some partition field and has its very name.
pub open spec fn is_of_a_field(column: CarrierModel, entries: Seq<EntryModel>, fields: Seq<PartitionFieldModel>, n: nat) -> bool {
    exists|f: int|
        0 <= f < n && stands_for(column, entries, #[trigger] fields[f]) && column.name == fields[f].name
}

/// Every partition field has a column, every column is that of a field, and no two columns have the
/// same name but for case.
pub proof fn law_every_partition_field_has_one_column(entries: Seq<EntryModel>, fields: Seq<PartitionFieldModel>, n: nat)
    requires
        n <= fields.len(),
        partition_columns(entries, fields, n) is Ok,
    ensures
        ({
            let columns = partition_columns(entries, fields, n)->Ok_0;
            &&& forall|f: int| 0 <= f < n ==> is_stood_for(columns, entries, #[trigger] fields[f])
            &&& forall|c: int| 0 <= c < columns.len() ==> is_of_a_field(#[trigger] columns[c], entries, fields, n)
            &&& forall|a: int, b: int|
                0 <= a < b < columns.len() ==> !same_ignoring_case((#[trigger] columns[a]).name, (
                #[trigger] columns[b]).name)
        }),
    decreases n,
{
    if n > 0 {
        let last = fields[n - 1];
        let m = (n - 1) as nat;
        law_every_partition_field_has_one_column(entries, fields, m);
        let before = partition_columns(entries, fields, m)->Ok_0;
        let columns = partition_columns(entries, fields, n)->Ok_0;
        lemma_column_named(before, last.name);
        assert forall|f: int| 0 <= f < n implies is_stood_for(columns, entries, #[trigger] fields[f]) by {
            if f < m {
                assert(is_stood_for(before, entries, fields[f]));
                let c = choose|c: int| 0 <= c < before.len() && stands_for(#[trigger] before[c], entries, fields[f]);
                assert(columns[c] == before[c]);
            } else {
                match column_named(before, last.name) {
                    Some(existing) => {
                        let c = choose|c: int| 0 <= c < before.len() && #[trigger] before[c] == existing;
                        assert(is_of_a_field(before[c], entries, fields, m));
                        assert(stands_for(columns[c], entries, last));
                    },
                    None => {
                        lemma_same_name(last.name);
                        assert(stands_for(columns[before.len() as int], entries, last));
                    },
                }
            }
        }
        assert forall|c: int| 0 <= c < columns.len() implies is_of_a_field(#[trigger] columns[c], entries, fields, n) by {
            if c < before.len() {
                assert(columns[c] == before[c]);
                assert(is_of_a_field(before[c], entries, fields, m));
                let f = choose|f: int|
                    0 <= f < m && stands_for(before[c], entries, #[trigger] fields[f]) && before[c].name == fields[f].name;
                assert(stands_for(columns[c], entries, fields[f]));
            } else {
                lemma_same_name(last.name);
                assert(stands_for(columns[c], entries, fields[n - 1]));
            }
        }
    }
}

proof fn lemma_same_name(name: Seq<char>)
    ensures
        same_ignoring_case(name, name),
{
}

/// The partition row is made of the fields of all specs, and there is none where no spec has a field.
pub proof fn law_partition_rows_take_in_every_spec(
    fields: Seq<FieldModel>,
    specs: Seq<PartitionSpecModel>,
    s: int,
    f: int,
)
    requires
        partition_row(fields, specs) is Ok,
        0 <= s < specs.len(),
        0 <= f < specs[s].fields.len(),
    ensures
        partition_row(fields, specs)->Ok_0 is Some,
        partition_row(fields, specs)->Ok_0->0 is Struct,
        is_stood_for(partition_row(fields, specs)->Ok_0->0->Struct_0, schema_entries(fields), specs[s].fields[f]),
{
    let ordered = ordered_specs(specs);
    let all = all_partition_fields(ordered);
    let entries = schema_entries(fields);
    lemma_ordered_holds(specs, s);
    let o = choose|o: int| 0 <= o < ordered.len() && #[trigger] ordered[o] == specs[s];
    lemma_all_fields_hold(ordered, o, f);
    let k = choose|k: int| 0 <= k < all.len() && #[trigger] all[k] == ordered[o].fields[f];
    law_every_partition_field_has_one_column(entries, all, all.len());
    assert(is_stood_for(partition_columns(entries, all, all.len())->Ok_0, entries, all[k]));
}

proof fn lemma_ordered_holds(specs: Seq<PartitionSpecModel>, s: int)
    requires
        0 <= s < specs.len(),
    ensures
        exists|o: int| 0 <= o < ordered_specs(specs).len() && #[trigger] ordered_specs(specs)[o] == specs[s],
    decreases specs.len(),
{
    let shorter = specs.drop_last();
    let before = ordered_specs(shorter);
    let at = specs_up_to(before, specs.last().spec_id) as int;
    lemma_specs_up_to_bound(before, specs.last().spec_id);
    let after = ordered_specs(specs);
    if s == specs.len() - 1 {
        assert(after[at] == specs[s]);
    } else {
        lemma_ordered_holds(shorter, s);
        let o = choose|o: int| 0 <= o < before.len() && #[trigger] before[o] == shorter[s];
        if o < at {
            assert(after[o] == specs[s]);
        } else {
            assert(after[o + 1] == specs[s]);
        }
    }
}

proof fn lemma_all_fields_hold(specs: Seq<PartitionSpecModel>, o: int, f: int)
    requires
        0 <= o < specs.len(),
        0 <= f < specs[o].fields.len(),
    ensures
        exists|k: int|
            0 <= k < all_partition_fields(specs).len() && #[trigger] all_partition_fields(specs)[k] == specs[o].fields[f],
    decreases specs.len(),
{
    let shorter = specs.drop_last();
    let before = all_partition_fields(shorter);
    let all = all_partition_fields(specs);
    if o == specs.len() - 1 {
        assert(all[before.len() + f] == specs[o].fields[f]);
    } else {
        lemma_all_fields_hold(shorter, o, f);
        let k = choose|k: int| 0 <= k < before.len() && #[trigger] before[k] == shorter[o].fields[f];
        assert(all[k] == specs[o].fields[f]);
    }
}

// ---------------------------------------------------------------------------
// The bounds and metrics rows
// ---------------------------------------------------------------------------

/// Whether a field can be bounded: it is primitive, and no variant.
pub open spec fn can_be_bounded(field: FieldModel) -> bool {
    field.field_type is Primitive && field.field_type->Primitive_0 !is Variant
}

/// Whether no later entry has the id of the entry at a place.
pub open spec fn is_last_of_its_id(entries: Seq<EntryModel>, e: int, n: nat) -> bool {
    0 <= e < n && forall|later: int| e < later < n ==> (#[trigger] entries[later]).field.id != entries[e].field.id
}

/// Whether a list has the carrier of a field under its id.
pub open spec fn carries(list: Seq<(i32, DataTypeModel)>, field: FieldModel) -> bool {
    &&& get(list, field.id) is Some
    &&& primitive_carrier(field.field_type->Primitive_0) == Ok::<DataTypeModel, ConnectorError>(get(list, field.id)->0)
}

/// Whether some entry that can be bounded has an id.
pub open spec fn is_bounded_id(entries: Seq<EntryModel>, id: i32, n: nat) -> bool {
    exists|e: int| 0 <= e < n && can_be_bounded((#[trigger] entries[e]).field) && entries[e].field.id == id
}

proof fn lemma_primitives(entries: Seq<EntryModel>, n: nat, e: int, id: i32)
    requires
        n <= entries.len(),
        primitives_by_id(entries, n) is Ok,
    ensures
        is_last_of_its_id(entries, e, n) && can_be_bounded(entries[e].field) ==> carries(
            primitives_by_id(entries, n)->Ok_0,
            entries[e].field,
        ),
        get(primitives_by_id(entries, n)->Ok_0, id) is Some ==> is_bounded_id(entries, id, n),
    decreases n,
{
    if n > 0 {
        let m = (n - 1) as nat;
        lemma_primitives(entries, m, e, id);
        law_bounds_ascend_by_field_id(entries, m);
        let before = primitives_by_id(entries, m)->Ok_0;
        let last = entries[n - 1].field;
        if is_last_of_its_id(entries, e, n) && e < m {
            assert(entries[n - 1].field.id != entries[e].field.id);
            assert(is_last_of_its_id(entries, e, m)) by {
                assert forall|later: int| e < later < m implies (#[trigger] entries[later]).field.id
                    != entries[e].field.id by {
                }
            }
        }
        if can_be_bounded(last) {
            assert(bounded_primitive(last) == Some(last.field_type->Primitive_0));
            let carrier = primitive_carrier(last.field_type->Primitive_0)->Ok_0;
            if 0 <= e < n {
                law_get_after_put(before, last.id, carrier, entries[e].field.id);
            }
            law_get_after_put(before, last.id, carrier, id);
            if id == last.id {
                assert(can_be_bounded(entries[n - 1].field));
            }
        } else {
            assert(bounded_primitive(last) is None);
        }
        if is_bounded_id(entries, id, m) {
            let place = choose|place: int|
                0 <= place < m && can_be_bounded((#[trigger] entries[place]).field) && entries[place].field.id == id;
            assert(entries[place].field.id == id);
        }
    }
}

/// Whether a bounds column is that of a field: named after its id, and carried as it is.
pub open spec fn bounds_field(column: CarrierModel, field: FieldModel) -> bool {
    &&& parsed_i32(column.name) == Some(field.id)
    &&& primitive_carrier(field.field_type->Primitive_0) == Ok::<DataTypeModel, ConnectorError>(column.data_type)
    &&& column.nullable
}

/// The bounds row has, for each field of the table that can be bounded, at any depth, a column named
/// after its id and of its carrier.
pub proof fn law_every_bounded_field_has_a_bounds_column(fields: Seq<FieldModel>, e: int)
    requires
        bounds_row(fields) is Ok,
        is_last_of_its_id(schema_entries(fields), e, schema_entries(fields).len()),
        can_be_bounded(schema_entries(fields)[e].field),
    ensures
        bounds_row(fields)->Ok_0 is Some,
        bounds_row(fields)->Ok_0->0 is Struct,
        exists|k: int|
            0 <= k < bounds_row(fields)->Ok_0->0->Struct_0.len() && bounds_field(
                #[trigger] bounds_row(fields)->Ok_0->0->Struct_0[k],
                schema_entries(fields)[e].field,
            ),
{
    let entries = schema_entries(fields);
    let id = entries[e].field.id;
    lemma_primitives(entries, entries.len(), e, id);
    let list = primitives_by_id(entries, entries.len())->Ok_0;
    law_entries_are_found_by_their_id(list, id);
    let k = choose|k: int| 0 <= k < list.len() && #[trigger] list[k] == (id, get(list, id)->0);
    law_parsing_inverts_rendering(id);
    assert(bounds_field(bounds_columns(list)[k], entries[e].field));
    assert(bounds_row(fields)->Ok_0->0->Struct_0[k] == bounds_columns(list)[k]);
}

/// Every column of the bounds row is named after a field of the table that can be bounded.
pub proof fn law_bounds_columns_are_of_bounded_fields(fields: Seq<FieldModel>, c: int)
    requires
        bounds_row(fields) is Ok,
        bounds_row(fields)->Ok_0 is Some,
        0 <= c < bounds_row(fields)->Ok_0->0->Struct_0.len(),
    ensures
        ({
            let id = parsed_i32(bounds_row(fields)->Ok_0->0->Struct_0[c].name);
            id is Some && is_bounded_id(schema_entries(fields), id->0, schema_entries(fields).len())
        }),
{
    let entries = schema_entries(fields);
    let list = primitives_by_id(entries, entries.len())->Ok_0;
    lemma_primitives(entries, entries.len(), 0, list[c].0);
    law_bounds_ascend_by_field_id(entries, entries.len());
    law_entries_are_found_by_their_id(list, list[c].0);
    law_parsing_inverts_rendering(list[c].0);
    assert(bounds_columns(list)[c].name == integer_text(list[c].0 as int));
    assert(list[c].0 == list[c].0);
}

/// The metrics of a field: its least and greatest values, carried as the field is, and its counts of
/// nulls and NaNs.
pub proof fn law_metrics_have_their_parts(carrier: DataTypeModel)
    ensures
        ({
            let columns = metrics_model(carrier)->Struct_0;
            &&& metrics_model(carrier) is Struct
            &&& columns.len() == 4
            &&& is_column(columns[0], "min"@, carrier, true)
            &&& is_column(columns[1], "max"@, carrier, true)
            &&& is_column(columns[2], "null_count"@, DataTypeModel::Int64, true)
            &&& is_column(columns[3], "nan_count"@, DataTypeModel::Int64, true)
        }),
{
}

/// Whether a column holds the metrics of a field.
pub open spec fn measures(column: CarrierModel, field: FieldModel) -> bool {
    &&& can_be_bounded(field)
    &&& column.name == field.name
    &&& column.nullable
    &&& primitive_carrier(field.field_type->Primitive_0) is Ok
    &&& column.data_type == metrics_model(primitive_carrier(field.field_type->Primitive_0)->Ok_0)
}

/// Whether some column holds the metrics of a field.
pub open spec fn is_measured(columns: Seq<CarrierModel>, field: FieldModel) -> bool {
    exists|c: int| 0 <= c < columns.len() && measures(#[trigger] columns[c], field)
}

/// Whether a column holds the metrics of one of the fields.
pub open spec fn measures_one(column: CarrierModel, fields: Seq<FieldModel>, n: nat) -> bool {
    exists|f: int| 0 <= f < n && measures(column, #[trigger] fields[f])
}

/// The metrics row has a column for each top-level field that can be bounded, under its name, and no
/// other.
pub proof fn law_every_bounded_field_is_measured(fields: Seq<FieldModel>, n: nat)
    requires
        n <= fields.len(),
        metrics_columns(fields, n) is Ok,
    ensures
        ({
            let columns = metrics_columns(fields, n)->Ok_0;
            &&& forall|f: int|
                0 <= f < n && can_be_bounded(#[trigger] fields[f]) ==> is_measured(columns, fields[f])
            &&& forall|c: int| 0 <= c < columns.len() ==> measures_one(#[trigger] columns[c], fields, n)
        }),
    decreases n,
{
    if n > 0 {
        let m = (n - 1) as nat;
        law_every_bounded_field_is_measured(fields, m);
        let before = metrics_columns(fields, m)->Ok_0;
        let columns = metrics_columns(fields, n)->Ok_0;
        let last = fields[n - 1];
        assert(bounded_primitive(last) is Some <==> can_be_bounded(last));
        assert forall|f: int| 0 <= f < n && can_be_bounded(#[trigger] fields[f]) implies is_measured(
            columns,
            fields[f],
        ) by {
            if f < m {
                let c = choose|c: int| 0 <= c < before.len() && measures(#[trigger] before[c], fields[f]);
                assert(columns[c] == before[c]);
            } else {
                assert(measures(columns[before.len() as int], last));
            }
        }
        assert forall|c: int| 0 <= c < columns.len() implies measures_one(#[trigger] columns[c], fields, n) by {
            if c < before.len() {
                assert(columns[c] == before[c]);
                let f = choose|f: int| 0 <= f < m && measures(before[c], #[trigger] fields[f]);
                assert(measures(columns[c], fields[f]));
            } else {
                assert(measures(columns[c], fields[n - 1]));
            }
        }
    }
}

} // verus!
