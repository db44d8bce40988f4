//! How the columns of the system relations follow from their fields and rows.

use vstd::prelude::*;

use crate::carrier::{CarrierModel, DataTypeModel, TimeUnit};
use crate::column::{CellModel, ColumnModel};
use crate::error::{ConnectorError, InternalFault};
use crate::files_relation::{data_file_children, data_file_column};
use crate::keyed::{get, get_named, named_model};
use crate::partition::{PartitionField, PartitionSpec};
use crate::partitions_relation::{
    aggregate_bounds, aggregate_tuples, entry_named, metric_children, metric_column, metrics_child, metrics_children,
    metrics_struct, partitions_column,
};
use crate::partitions_view::PartitionAggregate;
use crate::relation_columns::{plain_column, plain_columns, SystemRow};
use crate::snapshot_relations::{
    all_summaries, field_summary_cell, field_summary_cells, partition_primitive, partition_primitives, spec_with_id,
    summaries_cell, FieldSummary, ListedManifest,
};
use crate::system_columns::{
    bound_literals, bounds_children, bounds_struct, literal_cell, literal_cells, partition_child, partition_children,
    partition_literal, partition_literals, partition_struct, primitive_column, row_of,
};
use crate::row_laws::lemma_spec_with_id;
use crate::system_rows::FileRow;
use crate::text::{parsed_i32, uuid_text};
use crate::types::{EntryModel, PrimitiveType};
use crate::value::{Datum, Literal, LiteralModel};

verus! {

/// The cell of a value, null where there is none.
pub open spec fn value_cell(data_type: DataTypeModel, value: Option<LiteralModel>) -> Result<CellModel, ConnectorError> {
    match value {
        None => Ok(CellModel::Null),
        Some(literal) => literal_cell(data_type, literal),
    }
}

/// The column of one bounds field, which is named after the id that it bounds.
pub open spec fn bound_child(field: CarrierModel, rows: Seq<Seq<(i32, &Datum)>>) -> Result<ColumnModel, ConnectorError> {
    match parsed_i32(field.name) {
        None => Err(ConnectorError::Internal(InternalFault::BoundsFieldNotAnId)),
        Some(id) => primitive_column(field.data_type, bound_literals(rows, id)),
    }
}

/// A relation has one column for each of its fields, in their order. It is refused for the first field that it has no column for.
pub proof fn law_every_field_has_its_column<R: SystemRow>(fields: Seq<CarrierModel>, rows: Seq<R>, n: nat)
    requires
        n <= fields.len(),
    ensures
        match plain_columns(fields, rows, n) {
            Ok(list) => list.len() == n && forall|k: int|
                0 <= k < n ==> plain_column(fields[k], rows) == Ok::<ColumnModel, ConnectorError>(#[trigger] list[k]),
            Err(error) => exists|k: int|
                0 <= k < n && plain_column(#[trigger] fields[k], rows) == Err::<ColumnModel, ConnectorError>(error) && forall|j: int|
                    0 <= j < k ==> plain_column(#[trigger] fields[j], rows) is Ok,
        },
    decreases n,
{
    if n > 0 {
        law_every_field_has_its_column(fields, rows, (n - 1) as nat);
        match plain_columns(fields, rows, (n - 1) as nat) {
            Ok(before) => {
                assert forall|j: int| 0 <= j < n - 1 implies plain_column(#[trigger] fields[j], rows) is Ok by {
                    assert(plain_column(fields[j], rows) == Ok::<ColumnModel, ConnectorError>(before[j]));
                }
                assert(plain_column(fields[n - 1], rows) == plain_column(fields[n - 1], rows));
                assert(fields[n - 1] == fields[n - 1]);
            },
            Err(error) => {
                let k = choose|k: int|
                    0 <= k < n - 1 && plain_column(#[trigger] fields[k], rows) == Err::<ColumnModel, ConnectorError>(error) && forall|j: int|
                        0 <= j < k ==> plain_column(#[trigger] fields[j], rows) is Ok;
                assert(plain_column(fields[k], rows) == Err::<ColumnModel, ConnectorError>(error));
            },
        }
    }
}

/// The `data_file` row has one column for each of its fields, in their order.
pub proof fn law_every_field_of_a_data_file_has_its_column(fields: Seq<CarrierModel>, rows: Seq<FileRow>, n: nat)
    requires
        n <= fields.len(),
    ensures
        match data_file_children(fields, rows, n) {
            Ok(list) => list.len() == n && forall|k: int|
                0 <= k < n ==> data_file_column(fields[k], rows) == Ok::<ColumnModel, ConnectorError>(#[trigger] list[k]),
            Err(error) => exists|k: int|
                0 <= k < n && data_file_column(#[trigger] fields[k], rows) == Err::<ColumnModel, ConnectorError>(error) && forall|j: int|
                    0 <= j < k ==> data_file_column(#[trigger] fields[j], rows) is Ok,
        },
    decreases n,
{
    if n > 0 {
        law_every_field_of_a_data_file_has_its_column(fields, rows, (n - 1) as nat);
        match data_file_children(fields, rows, (n - 1) as nat) {
            Ok(before) => {
                assert forall|j: int| 0 <= j < n - 1 implies data_file_column(#[trigger] fields[j], rows) is Ok by {
                    assert(data_file_column(fields[j], rows) == Ok::<ColumnModel, ConnectorError>(before[j]));
                }
                assert(data_file_column(fields[n - 1], rows) == data_file_column(fields[n - 1], rows));
                assert(fields[n - 1] == fields[n - 1]);
            },
            Err(error) => {
                let k = choose|k: int|
                    0 <= k < n - 1 && data_file_column(#[trigger] fields[k], rows) == Err::<ColumnModel, ConnectorError>(error) && forall|j: int|
                        0 <= j < k ==> data_file_column(#[trigger] fields[j], rows) is Ok;
                assert(data_file_column(fields[k], rows) == Err::<ColumnModel, ConnectorError>(error));
            },
        }
    }
}

/// Every value of a column has a cell of its own, at its place. The column is refused for the first value that it cannot hold.
pub proof fn law_every_value_has_its_cell(data_type: DataTypeModel, values: Seq<Option<LiteralModel>>, n: nat)
    requires
        n <= values.len(),
    ensures
        match literal_cells(data_type, values, n) {
            Ok(list) => list.len() == n && forall|k: int|
                0 <= k < n ==> value_cell(data_type, values[k]) == Ok::<CellModel, ConnectorError>(#[trigger] list[k]),
            Err(error) => exists|k: int|
                0 <= k < n && value_cell(data_type, #[trigger] values[k]) == Err::<CellModel, ConnectorError>(error) && forall|j: int|
                    0 <= j < k ==> value_cell(data_type, #[trigger] values[j]) is Ok,
        },
    decreases n,
{
    if n > 0 {
        law_every_value_has_its_cell(data_type, values, (n - 1) as nat);
        match literal_cells(data_type, values, (n - 1) as nat) {
            Ok(before) => {
                assert forall|j: int| 0 <= j < n - 1 implies value_cell(data_type, #[trigger] values[j]) is Ok by {
                    assert(value_cell(data_type, values[j]) == Ok::<CellModel, ConnectorError>(before[j]));
                }
                assert(value_cell(data_type, values[n - 1]) == value_cell(data_type, values[n - 1]));
                assert(values[n - 1] == values[n - 1]);
            },
            Err(error) => {
                let k = choose|k: int|
                    0 <= k < n - 1 && value_cell(data_type, #[trigger] values[k]) == Err::<CellModel, ConnectorError>(error) && forall|j: int|
                        0 <= j < k ==> value_cell(data_type, #[trigger] values[j]) is Ok;
                assert(value_cell(data_type, values[k]) == Err::<CellModel, ConnectorError>(error));
            },
        }
    }
}

/// Every row has its own value of a partition field, at its place.
pub proof fn law_every_row_has_its_partition_value(rows: Seq<Seq<(Seq<char>, &Option<Literal>)>>, name: Seq<char>, n: nat)
    requires
        n <= rows.len(),
    ensures
        match partition_literals(rows, name, n) {
            Ok(list) => list.len() == n && forall|k: int|
                0 <= k < n ==> partition_literal(get_named(rows[k], name)) == Ok::<Option<LiteralModel>, ConnectorError>(#[trigger] list[k]),
            Err(error) => exists|k: int|
                0 <= k < n && partition_literal(get_named(#[trigger] rows[k], name)) == Err::<Option<LiteralModel>, ConnectorError>(error) && forall|j: int|
                    0 <= j < k ==> partition_literal(get_named(#[trigger] rows[j], name)) is Ok,
        },
    decreases n,
{
    if n > 0 {
        law_every_row_has_its_partition_value(rows, name, (n - 1) as nat);
        match partition_literals(rows, name, (n - 1) as nat) {
            Ok(before) => {
                assert forall|j: int| 0 <= j < n - 1 implies partition_literal(get_named(#[trigger] rows[j], name)) is Ok by {
                    assert(partition_literal(get_named(rows[j], name)) == Ok::<Option<LiteralModel>, ConnectorError>(before[j]));
                }
                assert(partition_literal(get_named(rows[n - 1], name)) == partition_literal(get_named(rows[n - 1], name)));
                assert(rows[n - 1] == rows[n - 1]);
            },
            Err(error) => {
                let k = choose|k: int|
                    0 <= k < n - 1 && partition_literal(get_named(#[trigger] rows[k], name)) == Err::<Option<LiteralModel>, ConnectorError>(error) && forall|j: int|
                        0 <= j < k ==> partition_literal(get_named(#[trigger] rows[j], name)) is Ok;
                assert(partition_literal(get_named(rows[k], name)) == Err::<Option<LiteralModel>, ConnectorError>(error));
            },
        }
    }
}

/// A partition row has one column for each of its fields, in their order.
pub proof fn law_every_partition_field_has_its_column(fields: Seq<CarrierModel>, rows: Seq<Seq<(Seq<char>, &Option<Literal>)>>, n: nat)
    requires
        n <= fields.len(),
    ensures
        match partition_children(fields, rows, n) {
            Ok(list) => list.len() == n && forall|k: int|
                0 <= k < n ==> partition_child(fields[k], rows) == Ok::<ColumnModel, ConnectorError>(#[trigger] list[k]),
            Err(error) => exists|k: int|
                0 <= k < n && partition_child(#[trigger] fields[k], rows) == Err::<ColumnModel, ConnectorError>(error) && forall|j: int|
                    0 <= j < k ==> partition_child(#[trigger] fields[j], rows) is Ok,
        },
    decreases n,
{
    if n > 0 {
        law_every_partition_field_has_its_column(fields, rows, (n - 1) as nat);
        match partition_children(fields, rows, (n - 1) as nat) {
            Ok(before) => {
                assert forall|j: int| 0 <= j < n - 1 implies partition_child(#[trigger] fields[j], rows) is Ok by {
                    assert(partition_child(fields[j], rows) == Ok::<ColumnModel, ConnectorError>(before[j]));
                }
                assert(partition_child(fields[n - 1], rows) == partition_child(fields[n - 1], rows));
                assert(fields[n - 1] == fields[n - 1]);
            },
            Err(error) => {
                let k = choose|k: int|
                    0 <= k < n - 1 && partition_child(#[trigger] fields[k], rows) == Err::<ColumnModel, ConnectorError>(error) && forall|j: int|
                        0 <= j < k ==> partition_child(#[trigger] fields[j], rows) is Ok;
                assert(partition_child(fields[k], rows) == Err::<ColumnModel, ConnectorError>(error));
            },
        }
    }
}

/// A bounds row has one column for each of its fields, in their order, of the bound of the id that the field is named after.
pub proof fn law_every_bound_has_its_column(fields: Seq<CarrierModel>, rows: Seq<Seq<(i32, &Datum)>>, n: nat)
    requires
        n <= fields.len(),
    ensures
        match bounds_children(fields, rows, n) {
            Ok(list) => list.len() == n && forall|k: int|
                0 <= k < n ==> bound_child(fields[k], rows) == Ok::<ColumnModel, ConnectorError>(#[trigger] list[k]),
            Err(error) => exists|k: int|
                0 <= k < n && bound_child(#[trigger] fields[k], rows) == Err::<ColumnModel, ConnectorError>(error) && forall|j: int|
                    0 <= j < k ==> bound_child(#[trigger] fields[j], rows) is Ok,
        },
    decreases n,
{
    if n > 0 {
        law_every_bound_has_its_column(fields, rows, (n - 1) as nat);
        match bounds_children(fields, rows, (n - 1) as nat) {
            Ok(before) => {
                assert forall|j: int| 0 <= j < n - 1 implies bound_child(#[trigger] fields[j], rows) is Ok by {
                    assert(bound_child(fields[j], rows) == Ok::<ColumnModel, ConnectorError>(before[j]));
                }
                assert(bound_child(fields[n - 1], rows) == bound_child(fields[n - 1], rows));
                assert(fields[n - 1] == fields[n - 1]);
            },
            Err(error) => {
                let k = choose|k: int|
                    0 <= k < n - 1 && bound_child(#[trigger] fields[k], rows) == Err::<ColumnModel, ConnectorError>(error) && forall|j: int|
                        0 <= j < k ==> bound_child(#[trigger] fields[j], rows) is Ok;
                assert(bound_child(fields[k], rows) == Err::<ColumnModel, ConnectorError>(error));
            },
        }
    }
}

/// The metrics of a field have one column for each metric, in their order.
pub proof fn law_every_metric_has_its_column(fields: Seq<CarrierModel>, aggregates: Seq<PartitionAggregate>, id: i32, n: nat)
    requires
        n <= fields.len(),
    ensures
        match metric_children(fields, aggregates, id, n) {
            Ok(list) => list.len() == n && forall|k: int|
                0 <= k < n ==> metric_column(fields[k], aggregates, id) == Ok::<ColumnModel, ConnectorError>(#[trigger] list[k]),
            Err(error) => exists|k: int|
                0 <= k < n && metric_column(#[trigger] fields[k], aggregates, id) == Err::<ColumnModel, ConnectorError>(error) && forall|j: int|
                    0 <= j < k ==> metric_column(#[trigger] fields[j], aggregates, id) is Ok,
        },
    decreases n,
{
    if n > 0 {
        law_every_metric_has_its_column(fields, aggregates, id, (n - 1) as nat);
        match metric_children(fields, aggregates, id, (n - 1) as nat) {
            Ok(before) => {
                assert forall|j: int| 0 <= j < n - 1 implies metric_column(#[trigger] fields[j], aggregates, id) is Ok by {
                    assert(metric_column(fields[j], aggregates, id) == Ok::<ColumnModel, ConnectorError>(before[j]));
                }
                assert(metric_column(fields[n - 1], aggregates, id) == metric_column(fields[n - 1], aggregates, id));
                assert(fields[n - 1] == fields[n - 1]);
            },
            Err(error) => {
                let k = choose|k: int|
                    0 <= k < n - 1 && metric_column(#[trigger] fields[k], aggregates, id) == Err::<ColumnModel, ConnectorError>(error) && forall|j: int|
                        0 <= j < k ==> metric_column(#[trigger] fields[j], aggregates, id) is Ok;
                assert(metric_column(fields[k], aggregates, id) == Err::<ColumnModel, ConnectorError>(error));
            },
        }
    }
}

/// The metrics of a partition have one column for each measured field, in their order.
pub proof fn law_every_measured_field_has_its_column(fields: Seq<CarrierModel>, aggregates: Seq<PartitionAggregate>, entries: Seq<EntryModel>, n: nat)
    requires
        n <= fields.len(),
    ensures
        match metrics_children(fields, aggregates, entries, n) {
            Ok(list) => list.len() == n && forall|k: int|
                0 <= k < n ==> metrics_child(fields[k], aggregates, entries) == Ok::<ColumnModel, ConnectorError>(#[trigger] list[k]),
            Err(error) => exists|k: int|
                0 <= k < n && metrics_child(#[trigger] fields[k], aggregates, entries) == Err::<ColumnModel, ConnectorError>(error) && forall|j: int|
                    0 <= j < k ==> metrics_child(#[trigger] fields[j], aggregates, entries) is Ok,
        },
    decreases n,
{
    if n > 0 {
        law_every_measured_field_has_its_column(fields, aggregates, entries, (n - 1) as nat);
        match metrics_children(fields, aggregates, entries, (n - 1) as nat) {
            Ok(before) => {
                assert forall|j: int| 0 <= j < n - 1 implies metrics_child(#[trigger] fields[j], aggregates, entries) is Ok by {
                    assert(metrics_child(fields[j], aggregates, entries) == Ok::<ColumnModel, ConnectorError>(before[j]));
                }
                assert(metrics_child(fields[n - 1], aggregates, entries) == metrics_child(fields[n - 1], aggregates, entries));
                assert(fields[n - 1] == fields[n - 1]);
            },
            Err(error) => {
                let k = choose|k: int|
                    0 <= k < n - 1 && metrics_child(#[trigger] fields[k], aggregates, entries) == Err::<ColumnModel, ConnectorError>(error) && forall|j: int|
                        0 <= j < k ==> metrics_child(#[trigger] fields[j], aggregates, entries) is Ok;
                assert(metrics_child(fields[k], aggregates, entries) == Err::<ColumnModel, ConnectorError>(error));
            },
        }
    }
}

/// Every partition field has its own type, at its place.
pub proof fn law_every_partition_field_has_its_type(entries: Seq<EntryModel>, fields: Seq<PartitionField>, n: nat)
    requires
        n <= fields.len(),
    ensures
        match partition_primitives(entries, fields, n) {
            Ok(list) => list.len() == n && forall|k: int|
                0 <= k < n ==> partition_primitive(entries, fields[k]) == Ok::<PrimitiveType, ConnectorError>(#[trigger] list[k]),
            Err(error) => exists|k: int|
                0 <= k < n && partition_primitive(entries, #[trigger] fields[k]) == Err::<PrimitiveType, ConnectorError>(error) && forall|j: int|
                    0 <= j < k ==> partition_primitive(entries, #[trigger] fields[j]) is Ok,
        },
    decreases n,
{
    if n > 0 {
        law_every_partition_field_has_its_type(entries, fields, (n - 1) as nat);
        match partition_primitives(entries, fields, (n - 1) as nat) {
            Ok(before) => {
                assert forall|j: int| 0 <= j < n - 1 implies partition_primitive(entries, #[trigger] fields[j]) is Ok by {
                    assert(partition_primitive(entries, fields[j]) == Ok::<PrimitiveType, ConnectorError>(before[j]));
                }
                assert(partition_primitive(entries, fields[n - 1]) == partition_primitive(entries, fields[n - 1]));
                assert(fields[n - 1] == fields[n - 1]);
            },
            Err(error) => {
                let k = choose|k: int|
                    0 <= k < n - 1 && partition_primitive(entries, #[trigger] fields[k]) == Err::<PrimitiveType, ConnectorError>(error) && forall|j: int|
                        0 <= j < k ==> partition_primitive(entries, #[trigger] fields[j]) is Ok;
                assert(partition_primitive(entries, fields[k]) == Err::<PrimitiveType, ConnectorError>(error));
            },
        }
    }
}

/// Every summary of a manifest has a row of its own, read against the partition field at its place.
pub proof fn law_every_summary_has_its_row(summaries: Seq<FieldSummary>, types: Seq<PrimitiveType>, n: nat)
    requires
        n <= summaries.len(),
    ensures
        match field_summary_cells(summaries, types, n) {
            Ok(list) => list.len() == n && forall|k: int|
                0 <= k < n ==> field_summary_cell(summaries[k], if k < types.len() { Some(types[k]) } else { None }) == Ok::<CellModel, ConnectorError>(#[trigger] list[k]),
            Err(error) => exists|k: int|
                0 <= k < n && field_summary_cell(#[trigger] summaries[k], if k < types.len() { Some(types[k]) } else { None }) == Err::<CellModel, ConnectorError>(error) && forall|j: int|
                    0 <= j < k ==> field_summary_cell(#[trigger] summaries[j], if j < types.len() { Some(types[j]) } else { None }) is Ok,
        },
    decreases n,
{
    if n > 0 {
        law_every_summary_has_its_row(summaries, types, (n - 1) as nat);
        match field_summary_cells(summaries, types, (n - 1) as nat) {
            Ok(before) => {
                assert forall|j: int| 0 <= j < n - 1 implies field_summary_cell(#[trigger] summaries[j], if j < types.len() { Some(types[j]) } else { None }) is Ok by {
                    assert(field_summary_cell(summaries[j], if j < types.len() { Some(types[j]) } else { None }) == Ok::<CellModel, ConnectorError>(before[j]));
                }
                assert(field_summary_cell(summaries[n - 1], if n - 1 < types.len() { Some(types[n - 1]) } else { None }) == field_summary_cell(summaries[n - 1], if n - 1 < types.len() { Some(types[n - 1]) } else { None }));
                assert(summaries[n - 1] == summaries[n - 1]);
            },
            Err(error) => {
                let k = choose|k: int|
                    0 <= k < n - 1 && field_summary_cell(#[trigger] summaries[k], if k < types.len() { Some(types[k]) } else { None }) == Err::<CellModel, ConnectorError>(error) && forall|j: int|
                        0 <= j < k ==> field_summary_cell(#[trigger] summaries[j], if j < types.len() { Some(types[j]) } else { None }) is Ok;
                assert(field_summary_cell(summaries[k], if k < types.len() { Some(types[k]) } else { None }) == Err::<CellModel, ConnectorError>(error));
            },
        }
    }
}

// ---------------------------------------------------------------------------
// What the columns state
// ---------------------------------------------------------------------------

/// A plain column has one cell for each row, at the row's place, of the fact that the column is
/// named after.
pub proof fn law_columns_state_one_fact_of_each_row<R: SystemRow>(field: CarrierModel, rows: Seq<R>)
    ensures
        plain_column(field, rows) is Ok <==> R::carrier_model(field.name) is Some,
        plain_column(field, rows) is Ok ==> ({
            let column = plain_column(field, rows)->Ok_0;
            &&& column is Flat
            &&& R::carrier_model(field.name) == Some(column->data_type)
            &&& column->cells.len() == rows.len()
            &&& forall|i: int| 0 <= i < rows.len() ==> column->cells[i] == (#[trigger] rows[i]).cell_model(field.name)
        }),
{
}

/// A literal is shown as the value that it is, by a carrier of its own kind alone. Nothing is
/// coerced, and a value of fixed width has that width.
pub proof fn law_literals_are_shown_as_they_are(data_type: DataTypeModel, literal: LiteralModel)
    ensures
        literal_cell(data_type, literal) is Ok ==> match literal_cell(data_type, literal)->Ok_0 {
            CellModel::Boolean(value) => literal == LiteralModel::Boolean(value) && data_type is Boolean,
            CellModel::Int32(value) => literal == LiteralModel::Int(value) && (data_type is Int32 || data_type is Date32),
            CellModel::Int64(value) => literal == LiteralModel::Long(value) && (data_type is Int64 || data_type is Time64
                || data_type is Timestamp),
            CellModel::Float32(bits) => literal == LiteralModel::Float(bits) && data_type is Float32,
            CellModel::Float64(bits) => literal == LiteralModel::Double(bits) && data_type is Float64,
            CellModel::Int128(value) => literal == LiteralModel::Int128(value) && data_type is Decimal128,
            CellModel::Text(text) => data_type is Utf8 && (literal == LiteralModel::String(text) || (literal is UInt128
                && text == uuid_text(literal->UInt128_0))),
            CellModel::Bytes(bytes) => literal == LiteralModel::Binary(bytes) && (data_type is Binary || (
            data_type is FixedSizeBinary && data_type->FixedSizeBinary_0 == bytes.len())),
            _ => false,
        },
        literal is Boolean && data_type is Boolean ==> literal_cell(data_type, literal) is Ok,
        literal is Int && (data_type is Int32 || data_type is Date32) ==> literal_cell(data_type, literal) is Ok,
        literal is Long && (data_type is Int64 || data_type is Time64 || data_type is Timestamp) ==> literal_cell(
            data_type,
            literal,
        ) is Ok,
        literal is Float && data_type is Float32 ==> literal_cell(data_type, literal) is Ok,
        literal is Double && data_type is Float64 ==> literal_cell(data_type, literal) is Ok,
        literal is Int128 && data_type is Decimal128 ==> literal_cell(data_type, literal) is Ok,
        (literal is String || literal is UInt128) && data_type is Utf8 ==> literal_cell(data_type, literal) is Ok,
        literal is Binary && (data_type is Binary || (data_type is FixedSizeBinary && data_type->FixedSizeBinary_0
            == literal->Binary_0.len())) ==> literal_cell(data_type, literal) is Ok,
{
}

/// A row of columns has at least one field, a column of its own for each of them, of the carrier
/// that the field states and as long as the row; a column that may not hold nulls holds none.
pub proof fn law_rows_are_made_of_fitting_columns(fields: Seq<CarrierModel>, children: Seq<ColumnModel>, length: nat)
    ensures
        row_of(fields, children, length) is Ok ==> ({
            let row = row_of(fields, children, length)->Ok_0;
            &&& row is Row
            &&& row->fields == fields
            &&& row->children == children
            &&& row->length == length
            &&& fields.len() > 0
            &&& children.len() == fields.len()
            &&& forall|i: int|
                0 <= i < children.len() && (#[trigger] children[i]) is Flat ==> children[i]->data_type
                    == fields[i].data_type && children[i]->cells.len() == length
            &&& forall|i: int|
                0 <= i < children.len() && (#[trigger] children[i]) is Row ==> fields[i].data_type
                    == DataTypeModel::Struct(children[i]->fields) && children[i]->length == length
            &&& forall|i: int, k: int|
                0 <= i < children.len() && (#[trigger] children[i]) is Flat && !fields[i].nullable && 0 <= k < length
                    ==> (#[trigger] children[i]->cells[k]) !is Null
        }),
{
}

/// A column of literals holds each value that it was given, at its place, and null where there is
/// none.
pub proof fn law_literal_columns_hold_each_value(data_type: DataTypeModel, values: Seq<Option<LiteralModel>>)
    requires
        primitive_column(data_type, values) is Ok,
    ensures
        ({
            let column = primitive_column(data_type, values)->Ok_0;
            &&& column is Flat
            &&& column->data_type == data_type
            &&& column->cells.len() == values.len()
            &&& forall|i: int|
                0 <= i < values.len() ==> ((#[trigger] values[i]) is None ==> column->cells[i] is Null) && (
                values[i] is Some ==> literal_cell(data_type, values[i]->0) == Ok::<CellModel, ConnectorError>(
                    column->cells[i],
                ))
        }),
        data_type is Decimal128 ==> 1 <= data_type->Decimal128_0 <= 38 && data_type->Decimal128_1 <= 38 && (
        data_type->Decimal128_1 > 0 ==> data_type->Decimal128_1 <= data_type->Decimal128_0),
        data_type is FixedSizeBinary ==> data_type->FixedSizeBinary_0 >= 0,
        data_type is Time64 ==> data_type->Time64_0 == TimeUnit::Microsecond,
        data_type is Timestamp ==> data_type->Timestamp_0 == TimeUnit::Microsecond || data_type->Timestamp_0
            == TimeUnit::Nanosecond,
{
    law_every_value_has_its_cell(data_type, values, values.len());
    let cells = literal_cells(data_type, values, values.len())->Ok_0;
    assert forall|i: int| 0 <= i < values.len() implies ((#[trigger] values[i]) is None ==> cells[i] is Null) && (
    values[i] is Some ==> literal_cell(data_type, values[i]->0) == Ok::<CellModel, ConnectorError>(cells[i])) by {
        assert(value_cell(data_type, values[i]) == Ok::<CellModel, ConnectorError>(cells[i]));
    }
}

/// Whether a cell shows a partition value: null where the row has none under the name, and else
/// the value itself.
pub open spec fn shows_value(cell: CellModel, data_type: DataTypeModel, value: Option<&Option<Literal>>) -> bool {
    match value {
        None => cell is Null,
        Some(held) => match *held {
            None => cell is Null,
            Some(Literal::Primitive(literal)) => literal_cell(data_type, literal.model()) == Ok::<
                CellModel,
                ConnectorError,
            >(cell),
            Some(Literal::Nested) => false,
        },
    }
}

/// The `partition` column shows, for each of its fields and each row, the value that the row has
/// under the field's name.
pub proof fn law_partition_rows_show_each_value(
    data_type: DataTypeModel,
    rows: Seq<Seq<(Seq<char>, &Option<Literal>)>>,
    f: int,
    r: int,
)
    requires
        partition_struct(data_type, rows) is Ok,
        0 <= r < rows.len(),
    ensures
        ({
            let column = partition_struct(data_type, rows)->Ok_0;
            &&& column is Row
            &&& data_type == DataTypeModel::Struct(column->fields)
            &&& column->children.len() == column->fields.len()
            &&& column->length == rows.len()
            &&& 0 <= f < column->fields.len() ==> column->children[f] is Flat && column->children[f]->cells.len()
                == rows.len() && shows_value(
                column->children[f]->cells[r],
                column->fields[f].data_type,
                get_named(rows[r], column->fields[f].name),
            )
        }),
{
    let fields = data_type->Struct_0;
    law_every_partition_field_has_its_column(fields, rows, fields.len());
    let children = partition_children(fields, rows, fields.len())->Ok_0;
    if 0 <= f < fields.len() {
        assert(partition_child(fields[f], rows) == Ok::<ColumnModel, ConnectorError>(children[f]));
        law_every_row_has_its_partition_value(rows, fields[f].name, rows.len());
        let values = partition_literals(rows, fields[f].name, rows.len())->Ok_0;
        assert(partition_literal(get_named(rows[r], fields[f].name)) == Ok::<Option<LiteralModel>, ConnectorError>(
            values[r],
        ));
        law_literal_columns_hold_each_value(fields[f].data_type, values);
        assert(values[r] is None || values[r] is Some);
    }
}

/// A bounds column shows, for each of its fields and each row, the bound that the row has under the
/// id that the field is named after, and null where it has none.
pub proof fn law_bounds_rows_show_each_bound(data_type: DataTypeModel, rows: Seq<Seq<(i32, &Datum)>>, f: int, r: int)
    requires
        bounds_struct(data_type, rows) is Ok,
        0 <= r < rows.len(),
    ensures
        ({
            let column = bounds_struct(data_type, rows)->Ok_0;
            &&& column is Row
            &&& data_type == DataTypeModel::Struct(column->fields)
            &&& column->children.len() == column->fields.len()
            &&& column->length == rows.len()
            &&& 0 <= f < column->fields.len() ==> ({
                let id = parsed_i32(column->fields[f].name);
                &&& id is Some
                &&& column->children[f] is Flat
                &&& column->children[f]->cells.len() == rows.len()
                &&& get(rows[r], id->0) is None ==> column->children[f]->cells[r] is Null
                &&& get(rows[r], id->0) is Some ==> literal_cell(
                    column->fields[f].data_type,
                    get(rows[r], id->0)->0.literal.model(),
                ) == Ok::<CellModel, ConnectorError>(column->children[f]->cells[r])
            })
        }),
{
    let fields = data_type->Struct_0;
    law_every_bound_has_its_column(fields, rows, fields.len());
    let children = bounds_children(fields, rows, fields.len())->Ok_0;
    if 0 <= f < fields.len() {
        assert(bound_child(fields[f], rows) == Ok::<ColumnModel, ConnectorError>(children[f]));
        let values = bound_literals(rows, parsed_i32(fields[f].name)->0);
        law_literal_columns_hold_each_value(fields[f].data_type, values);
        assert(values[r] is None || values[r] is Some);
    }
}

/// The metrics of a field in a partition: its least and greatest bounds and its counts of nulls and
/// of NaNs, null where no file of the partition recorded one.
pub proof fn law_metrics_state_their_partition(
    field: CarrierModel,
    aggregates: Seq<PartitionAggregate>,
    id: i32,
    a: int,
)
    requires
        metric_column(field, aggregates, id) is Ok,
        0 <= a < aggregates.len(),
    ensures
        ({
            let column = metric_column(field, aggregates, id)->Ok_0;
            &&& column is Flat
            &&& column->cells.len() == aggregates.len()
            &&& field.name == "min"@ || field.name == "max"@ || field.name == "null_count"@ || field.name == "nan_count"@
            &&& field.name == "min"@ ==> shows_bound(
                column->cells[a],
                field.data_type,
                get(aggregates[a].lower_bounds@, id),
            )
            &&& field.name == "max"@ ==> shows_bound(
                column->cells[a],
                field.data_type,
                get(aggregates[a].upper_bounds@, id),
            )
            &&& field.name == "null_count"@ ==> column->data_type is Int64 && shows_count(
                column->cells[a],
                get(aggregates[a].null_counts@, id),
            )
            &&& field.name == "nan_count"@ ==> column->data_type is Int64 && shows_count(
                column->cells[a],
                get(aggregates[a].nan_counts@, id),
            )
        }),
{
    reveal_strlit("min");
    reveal_strlit("max");
    reveal_strlit("null_count");
    reveal_strlit("nan_count");
    assert("min"@.len() == 3 && "min"@[1] == 'i');
    assert("max"@.len() == 3 && "max"@[1] == 'a');
    assert("null_count"@.len() == 10);
    assert("nan_count"@.len() == 9);
    if field.name == "min"@ || field.name == "max"@ {
        let values = bound_literals(aggregate_bounds(aggregates, field.name == "min"@), id);
        law_literal_columns_hold_each_value(field.data_type, values);
        assert(values[a] is None || values[a] is Some);
    }
}

/// Whether a cell shows a bound, null where there is none.
pub open spec fn shows_bound(cell: CellModel, data_type: DataTypeModel, bound: Option<&Datum>) -> bool {
    match bound {
        None => cell is Null,
        Some(datum) => literal_cell(data_type, datum.literal.model()) == Ok::<CellModel, ConnectorError>(cell),
    }
}

/// Whether a cell shows a count, null where there is none.
pub open spec fn shows_count(cell: CellModel, count: Option<i64>) -> bool {
    match count {
        None => cell is Null,
        Some(held) => cell == CellModel::Int64(held),
    }
}

/// The metrics of a partition have, for each measured field, the metrics of the field of that name
/// in the table.
pub proof fn law_metrics_are_found_by_name(
    data_type: DataTypeModel,
    aggregates: Seq<PartitionAggregate>,
    entries: Seq<EntryModel>,
    f: int,
    m: int,
)
    requires
        metrics_struct(data_type, aggregates, entries) is Ok,
    ensures
        ({
            let column = metrics_struct(data_type, aggregates, entries)->Ok_0;
            &&& column is Row
            &&& data_type == DataTypeModel::Struct(column->fields)
            &&& column->length == aggregates.len()
            &&& column->children.len() == column->fields.len()
            &&& 0 <= f < column->fields.len() ==> ({
                let child = column->children[f];
                &&& child is Row
                &&& column->fields[f].data_type == DataTypeModel::Struct(child->fields)
                &&& child->length == aggregates.len()
                &&& child->children.len() == child->fields.len()
                &&& exists|e: int|
                    0 <= e < entries.len() && (#[trigger] entries[e]).path == column->fields[f].name && (0 <= m
                        < child->fields.len() ==> metric_column(child->fields[m], aggregates, entries[e].field.id)
                        == Ok::<ColumnModel, ConnectorError>(child->children[m]))
            })
        }),
{
    let fields = data_type->Struct_0;
    law_every_measured_field_has_its_column(fields, aggregates, entries, fields.len());
    let children = metrics_children(fields, aggregates, entries, fields.len())->Ok_0;
    if 0 <= f < fields.len() {
        assert(metrics_child(fields[f], aggregates, entries) == Ok::<ColumnModel, ConnectorError>(children[f]));
        law_names_find_the_last_entry(entries, fields[f].name);
        let entry = entry_named(entries, fields[f].name)->0;
        let e = choose|e: int| 0 <= e < entries.len() && #[trigger] entries[e] == entry;
        assert(entries[e].path == fields[f].name);
        let inner = fields[f].data_type->Struct_0;
        law_every_metric_has_its_column(inner, aggregates, entry.field.id, inner.len());
    }
}

/// A name finds the last entry of that full name.
pub proof fn law_names_find_the_last_entry(entries: Seq<EntryModel>, name: Seq<char>)
    ensures
        match entry_named(entries, name) {
            Some(entry) => entry.path == name && exists|e: int|
                0 <= e < entries.len() && #[trigger] entries[e] == entry && forall|later: int|
                    e < later < entries.len() ==> (#[trigger] entries[later]).path != name,
            None => forall|e: int| 0 <= e < entries.len() ==> (#[trigger] entries[e]).path != name,
        },
    decreases entries.len(),
{
    if entries.len() > 0 {
        let shorter = entries.drop_last();
        let n = entries.len() - 1;
        law_names_find_the_last_entry(shorter, name);
        if entries.last().path == name {
            assert(entries[n] == entries.last());
        } else {
            match entry_named(shorter, name) {
                Some(entry) => {
                    let e = choose|e: int|
                        0 <= e < shorter.len() && #[trigger] shorter[e] == entry && forall|later: int|
                            e < later < shorter.len() ==> (#[trigger] shorter[later]).path != name;
                    assert(entries[e] == entry);
                    assert forall|later: int| e < later < entries.len() implies (#[trigger] entries[later]).path
                        != name by {
                        if later < n {
                            assert(shorter[later].path != name);
                        }
                    }
                },
                None => {
                    assert forall|e: int| 0 <= e < entries.len() implies (#[trigger] entries[e]).path != name by {
                        if e < n {
                            assert(shorter[e].path != name);
                        }
                    }
                },
            }
        }
    }
}

/// The totals, partition values and metrics of `$partitions` are those of its partitions.
pub proof fn law_partitions_columns_come_from_their_names(
    field: CarrierModel,
    aggregates: Seq<PartitionAggregate>,
    entries: Seq<EntryModel>,
    tuples: Seq<Seq<(Seq<char>, &Option<Literal>)>>,
)
    requires
        tuples.len() == aggregates.len(),
        forall|a: int| 0 <= a < aggregates.len() ==> #[trigger] tuples[a] == named_model(aggregates[a].partition@),
    ensures
        field.name == "partition"@ ==> partitions_column(field, aggregates, entries) == partition_struct(
            field.data_type,
            tuples,
        ),
        field.name == "data"@ ==> partitions_column(field, aggregates, entries) == metrics_struct(
            field.data_type,
            aggregates,
            entries,
        ),
        field.name == "record_count"@ || field.name == "file_count"@ || field.name == "total_size"@
            ==> partitions_column(field, aggregates, entries) == plain_column(field, aggregates),
{
    reveal_strlit("partition");
    reveal_strlit("data");
    reveal_strlit("record_count");
    reveal_strlit("file_count");
    reveal_strlit("total_size");
    assert("partition"@.len() == 9 && "data"@.len() == 4);
    assert("record_count"@.len() == 12 && "file_count"@.len() == 10 && "total_size"@.len() == 10);
    assert(aggregate_tuples(aggregates) =~= tuples);
}

// ---------------------------------------------------------------------------
// Summaries of manifests
// ---------------------------------------------------------------------------

/// A summary shows whether its field holds nulls and NaNs and its bounds, in this order. A bound is
/// shown where there is a partition field to read it against.
pub proof fn law_summaries_show_flags_then_bounds(summary: FieldSummary, partition_type: Option<PrimitiveType>)
    ensures
        field_summary_cell(summary, partition_type) is Ok ==> ({
            let cell = field_summary_cell(summary, partition_type)->Ok_0;
            &&& cell is Row
            &&& cell->Row_0.len() == 4
            &&& cell->Row_0[0] == CellModel::Boolean(summary.contains_null)
            &&& summary.contains_nan is None ==> cell->Row_0[1] is Null
            &&& summary.contains_nan is Some ==> cell->Row_0[1] == CellModel::Boolean(summary.contains_nan->0)
            &&& summary.lower_bound is None ==> cell->Row_0[2] is Null
            &&& summary.lower_bound is Some ==> summary.lower_bound->0 is Text && cell->Row_0[2] == CellModel::Text(
                summary.lower_bound->0->Text_0@,
            )
            &&& summary.upper_bound is None ==> cell->Row_0[3] is Null
            &&& summary.upper_bound is Some ==> summary.upper_bound->0 is Text && cell->Row_0[3] == CellModel::Text(
                summary.upper_bound->0->Text_0@,
            )
        }),
        field_summary_cell(summary, partition_type) is Ok <==> (summary.lower_bound is Some ==> partition_type is Some
            && summary.lower_bound->0 is Text) && (summary.upper_bound is Some ==> partition_type is Some
            && summary.upper_bound->0 is Text),
{
}

/// The summaries of a manifest are shown against the fields of the spec that it names, and null
/// where the manifest list has none.
pub proof fn law_manifest_summaries_follow_their_spec(
    listed: ListedManifest,
    specs: Seq<PartitionSpec>,
    entries: Seq<EntryModel>,
    k: int,
)
    ensures
        listed.summaries is None ==> summaries_cell(listed, specs, entries) == Ok::<CellModel, ConnectorError>(
            CellModel::Null,
        ),
        listed.summaries is Some && summaries_cell(listed, specs, entries) is Ok ==> ({
            let cell = summaries_cell(listed, specs, entries)->Ok_0;
            &&& cell is List
            &&& cell->List_0.len() == (listed.summaries->0)@.len()
            &&& 0 <= k < cell->List_0.len() ==> exists|s: int|
                0 <= s < specs.len() && (#[trigger] specs[s]).spec_id == listed.manifest.partition_spec_id
                    && field_summary_cell((listed.summaries->0)@[k], field_type(specs[s].fields@, k)) == Ok::<
                    CellModel,
                    ConnectorError,
                >(cell->List_0[k])
        }),
{
    if listed.summaries is Some && summaries_cell(listed, specs, entries) is Ok {
        let summaries = (listed.summaries->0)@;
        law_specs_are_found_by_their_id(specs, listed.manifest.partition_spec_id);
        let spec = spec_with_id(specs, listed.manifest.partition_spec_id, 0)->0;
        let s = choose|s: int| 0 <= s < specs.len() && #[trigger] specs[s] == spec;
        assert(specs[s].spec_id == listed.manifest.partition_spec_id);
        let types = partition_primitives(entries, spec.fields@, spec.fields@.len())->Ok_0;
        law_every_partition_field_has_its_type(entries, spec.fields@, spec.fields@.len());
        law_every_summary_has_its_row(summaries, types, summaries.len());
        if 0 <= k < summaries.len() && k < types.len() {
            assert(partition_primitive(entries, spec.fields@[k]) == Ok::<PrimitiveType, ConnectorError>(types[k]));
        }
    }
}

/// The type of the partition field at a place, where it is a field of the table's.
pub open spec fn field_type(fields: Seq<PartitionField>, k: int) -> Option<PrimitiveType> {
    if 0 <= k < fields.len() && fields[k].result_type is Primitive {
        Some(fields[k].result_type->Primitive_0)
    } else {
        None
    }
}

/// An id finds the first spec that has it.
pub proof fn law_specs_are_found_by_their_id(specs: Seq<PartitionSpec>, id: i32)
    ensures
        match spec_with_id(specs, id, 0) {
            Some(spec) => spec.spec_id == id && exists|s: int|
                0 <= s < specs.len() && #[trigger] specs[s] == spec && forall|other: int|
                    0 <= other < s ==> (#[trigger] specs[other]).spec_id != id,
            None => forall|s: int| 0 <= s < specs.len() ==> (#[trigger] specs[s]).spec_id != id,
        },
{
    lemma_spec_with_id(specs, id, 0);
}

/// Every manifest has its summaries, at its place.
pub proof fn law_every_manifest_has_its_summaries(
    manifests: Seq<ListedManifest>,
    specs: Seq<PartitionSpec>,
    entries: Seq<EntryModel>,
    n: nat,
)
    requires
        n <= manifests.len(),
        all_summaries(manifests, specs, entries, n) is Ok,
    ensures
        ({
            let cells = all_summaries(manifests, specs, entries, n)->Ok_0.0;
            &&& cells.len() == n
            &&& forall|i: int|
                0 <= i < n ==> summaries_cell(#[trigger] manifests[i], specs, entries) == Ok::<
                    CellModel,
                    ConnectorError,
                >(cells[i])
        }),
    decreases n,
{
    if n > 0 {
        law_every_manifest_has_its_summaries(manifests, specs, entries, (n - 1) as nat);
    }
}

} // verus!
