//! The columns of the `$partitions` view.

use vstd::prelude::*;

use crate::carrier::{field_models, lemma_struct_model, CarrierModel, DataType, DataTypeModel, Field};
use crate::column::{cell_models, column_models, new_cells, new_columns, push_cell, push_column, Cell, CellModel, Column, ColumnModel};
use crate::error::{ConnectorError, InternalFault};
use crate::keyed::{find_entry, get, named_model};
use crate::partitions_view::PartitionAggregate;
use crate::relation_columns::{is_named, long_cell, long_to_cell, plain_column, plain_field_column, SystemRow};
use crate::system_columns::{bound_array, bound_literals, bound_models, column_result, partition_struct, partition_struct_array, primitive_column, row_column, row_of, tuple_models};
use crate::types::{entry_models, EntryModel, Schema};
use crate::value::{Datum, Literal};

verus! {

impl<'a> SystemRow for PartitionAggregate<'a> {
    open spec fn carrier_model(column: Seq<char>) -> Option<DataTypeModel> {
        if column == "record_count"@ {
            Some(DataTypeModel::Int64)
        } else if column == "file_count"@ {
            Some(DataTypeModel::Int64)
        } else if column == "total_size"@ {
            Some(DataTypeModel::Int64)
        } else {
            None
        }
    }

    open spec fn cell_model(&self, column: Seq<char>) -> CellModel {
        if column == "record_count"@ {
            CellModel::Int64(self.record_count)
        } else if column == "file_count"@ {
            CellModel::Int64(self.file_count)
        } else if column == "total_size"@ {
            CellModel::Int64(self.total_size)
        } else {
            CellModel::Null
        }
    }

    fn carrier(column: &String) -> (carrier: Option<DataType>) {
        if is_named(column, "record_count") {
            Some(DataType::Int64)
        } else if is_named(column, "file_count") {
            Some(DataType::Int64)
        } else if is_named(column, "total_size") {
            Some(DataType::Int64)
        } else {
            None
        }
    }

    fn cell(&self, column: &String) -> (cell: Cell) {
        if is_named(column, "record_count") {
            Cell::Int64(self.record_count)
        } else if is_named(column, "file_count") {
            Cell::Int64(self.file_count)
        } else if is_named(column, "total_size") {
            Cell::Int64(self.total_size)
        } else {
            Cell::Null
        }
    }
}

/// The last entry of a full name.
pub open spec fn entry_named(entries: Seq<EntryModel>, name: Seq<char>) -> Option<EntryModel>
    decreases entries.len(),
{
    if entries.len() == 0 {
        None
    } else if entries.last().path == name {
        Some(entries.last())
    } else {
        entry_named(entries.drop_last(), name)
    }
}

fn field_id_by_name(schema: &Schema, name: &String) -> (id: Option<i32>)
    ensures
        id == (match entry_named(schema.entries(), name@) {
            Some(entry) => Some(entry.field.id),
            None => None,
        }),
{
    let entries = schema.index_struct_fields();
    let ghost models = schema.entries();
    let mut i: usize = entries.len();
    assert(models.take(i as int) =~= models);
    while i > 0
        invariant
            i <= entries.len(),
            models == entry_models(entries@),
            models == schema.entries(),
            entry_named(models, name@) == entry_named(models.take(i as int), name@),
        decreases i,
    {
        proof {
            assert(models.take(i as int).last() == models[i - 1]);
            assert(models.take(i as int).drop_last() =~= models.take(i - 1));
            assert(models[i - 1] == entries@[i - 1].model());
        }
        if entries[i - 1].path == *name {
            return Some(entries[i - 1].field.id);
        }
        i -= 1;
    }
    None
}

/// The lower or upper bounds of a list of aggregates.
pub open spec fn aggregate_bounds<'a>(aggregates: Seq<PartitionAggregate<'a>>, lower: bool) -> Seq<Seq<(i32, &'a Datum)>> {
    aggregates.map_values(
        |aggregate: PartitionAggregate<'a>|
            if lower {
                aggregate.lower_bounds@
            } else {
                aggregate.upper_bounds@
            },
    )
}

/// The null or NaN counts of one field in a list of aggregates; a count that no file recorded is
/// null.
pub open spec fn aggregate_counts(aggregates: Seq<PartitionAggregate>, nan: bool, id: i32) -> Seq<CellModel> {
    aggregates.map_values(
        |aggregate: PartitionAggregate|
            long_cell(
                get(
                    if nan {
                        aggregate.nan_counts@
                    } else {
                        aggregate.null_counts@
                    },
                    id,
                ),
            ),
    )
}

/// The column of one metric of one field.
pub open spec fn metric_column(field: CarrierModel, aggregates: Seq<PartitionAggregate>, id: i32) -> Result<ColumnModel, ConnectorError> {
    if field.name == "min"@ {
        primitive_column(field.data_type, bound_literals(aggregate_bounds(aggregates, true), id))
    } else if field.name == "max"@ {
        primitive_column(field.data_type, bound_literals(aggregate_bounds(aggregates, false), id))
    } else if field.name == "null_count"@ {
        Ok(
            ColumnModel::Flat {
                data_type: DataTypeModel::Int64,
                cells: aggregate_counts(aggregates, false, id),
            },
        )
    } else if field.name == "nan_count"@ {
        Ok(
            ColumnModel::Flat {
                data_type: DataTypeModel::Int64,
                cells: aggregate_counts(aggregates, true, id),
            },
        )
    } else {
        Err(ConnectorError::Internal(InternalFault::UnknownMetric))
    }
}

/// The columns of the first `n` metrics of one field.
pub open spec fn metric_children(fields: Seq<CarrierModel>, aggregates: Seq<PartitionAggregate>, id: i32, n: nat) -> Result<Seq<ColumnModel>, ConnectorError>
    decreases n,
{
    if n == 0 || n > fields.len() {
        Ok(seq![])
    } else {
        match metric_children(fields, aggregates, id, (n - 1) as nat) {
            Err(error) => Err(error),
            Ok(before) => match metric_column(fields[n - 1], aggregates, id) {
                Err(error) => Err(error),
                Ok(column) => Ok(before.push(column)),
            },
        }
    }
}

/// The column of the metrics of one field, found by its name in the table schema.
pub open spec fn metrics_child(field: CarrierModel, aggregates: Seq<PartitionAggregate>, entries: Seq<EntryModel>) -> Result<ColumnModel, ConnectorError> {
    match entry_named(entries, field.name) {
        None => Err(ConnectorError::Internal(InternalFault::MetricsFieldUnknown)),
        Some(entry) => match field.data_type {
            DataTypeModel::Struct(fields) => match metric_children(
                fields,
                aggregates,
                entry.field.id,
                fields.len(),
            ) {
                Err(error) => Err(error),
                Ok(children) => row_of(fields, children, aggregates.len()),
            },
            _ => Err(ConnectorError::Internal(InternalFault::MetricsFieldNotStruct)),
        },
    }
}

/// The columns of the metrics of the first `n` fields.
pub open spec fn metrics_children(fields: Seq<CarrierModel>, aggregates: Seq<PartitionAggregate>, entries: Seq<EntryModel>, n: nat) -> Result<Seq<ColumnModel>, ConnectorError>
    decreases n,
{
    if n == 0 || n > fields.len() {
        Ok(seq![])
    } else {
        match metrics_children(fields, aggregates, entries, (n - 1) as nat) {
            Err(error) => Err(error),
            Ok(before) => match metrics_child(fields[n - 1], aggregates, entries) {
                Err(error) => Err(error),
                Ok(column) => Ok(before.push(column)),
            },
        }
    }
}

/// The `data` column of `$partitions`.
pub open spec fn metrics_struct(data_type: DataTypeModel, aggregates: Seq<PartitionAggregate>, entries: Seq<EntryModel>) -> Result<ColumnModel, ConnectorError> {
    match data_type {
        DataTypeModel::Struct(fields) => match metrics_children(
            fields,
            aggregates,
            entries,
            fields.len(),
        ) {
            Err(error) => Err(error),
            Ok(children) => row_of(fields, children, aggregates.len()),
        },
        _ => Err(ConnectorError::Internal(InternalFault::MetricsRowNotStruct)),
    }
}

/// The column of one field of `$partitions`.
pub open spec fn partitions_column(field: CarrierModel, aggregates: Seq<PartitionAggregate>, entries: Seq<EntryModel>) -> Result<ColumnModel, ConnectorError> {
    if field.name == "partition"@ {
        partition_struct(field.data_type, aggregate_tuples(aggregates))
    } else if field.name == "data"@ {
        metrics_struct(field.data_type, aggregates, entries)
    } else {
        plain_column(field, aggregates)
    }
}

/// The partition tuples of a list of aggregates.
pub open spec fn aggregate_tuples<'a>(aggregates: Seq<PartitionAggregate<'a>>) -> Seq<Seq<(Seq<char>, &'a Option<Literal>)>> {
    aggregates.map_values(|aggregate: PartitionAggregate<'a>| named_model(aggregate.partition@))
}

proof fn lemma_metric_children_error(fields: Seq<CarrierModel>, aggregates: Seq<PartitionAggregate>, id: i32, n: nat)
    requires
        n <= fields.len(),
        metric_children(fields, aggregates, id, n) is Err,
    ensures
        metric_children(fields, aggregates, id, fields.len()) == metric_children(
            fields,
            aggregates,
            id,
            n,
        ),
    decreases fields.len() - n,
{
    if n < fields.len() {
        lemma_metric_children_error(fields, aggregates, id, n + 1);
    }
}

proof fn lemma_metrics_children_error(fields: Seq<CarrierModel>, aggregates: Seq<PartitionAggregate>, entries: Seq<EntryModel>, n: nat)
    requires
        n <= fields.len(),
        metrics_children(fields, aggregates, entries, n) is Err,
    ensures
        metrics_children(fields, aggregates, entries, fields.len()) == metrics_children(
            fields,
            aggregates,
            entries,
            n,
        ),
    decreases fields.len() - n,
{
    if n < fields.len() {
        lemma_metrics_children_error(fields, aggregates, entries, n + 1);
    }
}

fn aggregate_bound_array<'a>(data_type: &DataType, aggregates: &Vec<PartitionAggregate<'a>>, lower: bool, id: i32) -> (column: Result<Column, ConnectorError>)
    ensures
        column_result(column) == primitive_column(
            data_type.model(),
            bound_literals(aggregate_bounds(aggregates@, lower), id),
        ),
{
    let mut bounds: Vec<&Vec<(i32, &'a Datum)>> = Vec::new();
    let mut i: usize = 0;
    while i < aggregates.len()
        invariant
            i <= aggregates.len(),
            bounds@.len() == i,
            forall|k: int|
                0 <= k < i ==> (#[trigger] bounds@[k])@ == if lower {
                    aggregates@[k].lower_bounds@
                } else {
                    aggregates@[k].upper_bounds@
                },
        decreases aggregates.len() - i,
    {
        if lower {
            bounds.push(&aggregates[i].lower_bounds);
        } else {
            bounds.push(&aggregates[i].upper_bounds);
        }
        i += 1;
    }
    assert(bound_models(bounds@) =~= aggregate_bounds(aggregates@, lower));
    bound_array(data_type, &bounds, id)
}

fn aggregate_count_array(aggregates: &Vec<PartitionAggregate<'_>>, nan: bool, id: i32) -> (column: Column)
    ensures
        column.model() == (ColumnModel::Flat {
            data_type: DataTypeModel::Int64,
            cells: aggregate_counts(aggregates@, nan, id),
        }),
{
    let ghost counts = aggregate_counts(aggregates@, nan, id);
    let mut cells = new_cells();
    let mut i: usize = 0;
    assert(counts.take(0) =~= Seq::<CellModel>::empty());
    while i < aggregates.len()
        invariant
            i <= aggregates.len(),
            counts == aggregate_counts(aggregates@, nan, id),
            cell_models(cells@) == counts.take(i as int),
        decreases aggregates.len() - i,
    {
        let list = if nan {
            &aggregates[i].nan_counts
        } else {
            &aggregates[i].null_counts
        };
        let count: Option<i64> = match find_entry(list, id) {
            Some(at) => Some(list[at].1),
            None => None,
        };
        push_cell(&mut cells, long_to_cell(count));
        assert(counts.take(i + 1) =~= counts.take(i as int).push(counts[i as int]));
        i += 1;
    }
    assert(counts.take(i as int) =~= counts);
    Column::Flat { data_type: DataType::Int64, cells }
}

fn metrics_field_array(fields: &Vec<Field>, aggregates: &Vec<PartitionAggregate<'_>>, id: i32) -> (columns: Result<Vec<Column>, ConnectorError>)
    ensures
        crate::system_columns::columns_result(columns) == metric_children(
            field_models(fields@),
            aggregates@,
            id,
            fields@.len(),
        ),
{
    let ghost models = field_models(fields@);
    let mut children = new_columns();
    let mut i: usize = 0;
    while i < fields.len()
        invariant
            i <= fields.len(),
            models == field_models(fields@),
            metric_children(models, aggregates@, id, i as nat) == Ok::<Seq<ColumnModel>, ConnectorError>(
                column_models(children@),
            ),
        decreases fields.len() - i,
    {
        let field = &fields[i];
        assert(models[i as int] == field.model());
        let child = if is_named(&field.name, "min") {
            aggregate_bound_array(&field.data_type, aggregates, true, id)
        } else if is_named(&field.name, "max") {
            aggregate_bound_array(&field.data_type, aggregates, false, id)
        } else if is_named(&field.name, "null_count") {
            Ok(aggregate_count_array(aggregates, false, id))
        } else if is_named(&field.name, "nan_count") {
            Ok(aggregate_count_array(aggregates, true, id))
        } else {
            Err(ConnectorError::Internal(InternalFault::UnknownMetric))
        };
        match child {
            Ok(column) => push_column(&mut children, column),
            Err(error) => {
                proof {
                    lemma_metric_children_error(models, aggregates@, id, (i + 1) as nat);
                }
                return Err(error);
            },
        }
        i += 1;
    }
    Ok(children)
}

/// Build the `data` column of `$partitions`.
pub fn partitions_metrics_array(row_type: &DataType, aggregates: &Vec<PartitionAggregate<'_>>, table_schema: &Schema) -> (column: Result<Column, ConnectorError>)
    ensures
        column_result(column) == metrics_struct(row_type.model(), aggregates@, table_schema.entries()),
{
    match row_type {
        DataType::Struct(fields) => {
            proof {
                lemma_struct_model(*fields);
            }
            let ghost models = field_models(fields@);
            let ghost entries = table_schema.entries();
            let mut children = new_columns();
            let mut i: usize = 0;
            while i < fields.len()
                invariant
                    i <= fields.len(),
                    models == field_models(fields@),
                    row_type.model() == DataTypeModel::Struct(models),
                    entries == table_schema.entries(),
                    metrics_children(models, aggregates@, entries, i as nat) == Ok::<Seq<ColumnModel>, ConnectorError>(
                        column_models(children@),
                    ),
                decreases fields.len() - i,
            {
                let field = &fields[i];
                assert(models[i as int] == field.model());
                let child = match field_id_by_name(table_schema, &field.name) {
                    None => Err(ConnectorError::Internal(InternalFault::MetricsFieldUnknown)),
                    Some(id) => match &field.data_type {
                        DataType::Struct(metrics) => {
                            proof {
                                lemma_struct_model(*metrics);
                            }
                            match metrics_field_array(metrics, aggregates, id) {
                                Ok(columns) => row_column(metrics, columns, aggregates.len()),
                                Err(error) => Err(error),
                            }
                        },
                        _ => Err(ConnectorError::Internal(InternalFault::MetricsFieldNotStruct)),
                    },
                };
                assert(column_result(child) == metrics_child(models[i as int], aggregates@, entries));
                match child {
                    Ok(column) => push_column(&mut children, column),
                    Err(error) => {
                        proof {
                            lemma_metrics_children_error(models, aggregates@, entries, (i + 1) as nat);
                        }
                        return Err(error);
                    },
                }
                i += 1;
            }
            row_column(fields, children, aggregates.len())
        },
        _ => Err(ConnectorError::Internal(InternalFault::MetricsRowNotStruct)),
    }
}

/// Materialize the columns of `$partitions`, in schema order.
pub fn partitions_columns<'a>(schema: &Vec<Field>, aggregates: &Vec<PartitionAggregate<'a>>, table_schema: &Schema) -> (columns: Result<Vec<Column>, ConnectorError>)
    ensures
        match columns {
            Ok(columns) => columns@.len() == schema@.len() && forall|i: int|
                0 <= i < schema@.len() ==> Ok::<ColumnModel, ConnectorError>(
                    (#[trigger] columns@[i]).model(),
                ) == partitions_column(schema@[i].model(), aggregates@, table_schema.entries()),
            Err(error) => exists|i: int|
                0 <= i < schema@.len() && partitions_column(
                    (#[trigger] schema@[i]).model(),
                    aggregates@,
                    table_schema.entries(),
                ) == Err::<ColumnModel, ConnectorError>(error) && forall|k: int|
                    0 <= k < i ==> partitions_column(
                        (#[trigger] schema@[k]).model(),
                        aggregates@,
                        table_schema.entries(),
                    ) is Ok,
        },
{
    let mut tuples: Vec<&Vec<(String, &'a Option<Literal>)>> = Vec::new();
    let mut t: usize = 0;
    while t < aggregates.len()
        invariant
            t <= aggregates.len(),
            tuples@.len() == t,
            forall|k: int| 0 <= k < t ==> (#[trigger] tuples@[k])@ == aggregates@[k].partition@,
        decreases aggregates.len() - t,
    {
        tuples.push(&aggregates[t].partition);
        t += 1;
    }
    assert(tuple_models(tuples@) =~= aggregate_tuples(aggregates@));
    let mut columns: Vec<Column> = Vec::new();
    let mut i: usize = 0;
    while i < schema.len()
        invariant
            i <= schema.len(),
            tuple_models(tuples@) == aggregate_tuples(aggregates@),
            columns@.len() == i,
            forall|k: int|
                0 <= k < i ==> Ok::<ColumnModel, ConnectorError>((#[trigger] columns@[k]).model())
                    == partitions_column(schema@[k].model(), aggregates@, table_schema.entries()),
            forall|k: int|
                0 <= k < i ==> partitions_column(
                    (#[trigger] schema@[k]).model(),
                    aggregates@,
                    table_schema.entries(),
                ) is Ok,
        decreases schema.len() - i,
    {
        let field = &schema[i];
        let column = if is_named(&field.name, "partition") {
            partition_struct_array(&field.data_type, &tuples)
        } else if is_named(&field.name, "data") {
            partitions_metrics_array(&field.data_type, aggregates, table_schema)
        } else {
            plain_field_column(field, aggregates)
        };
        assert(column_result(column) == partitions_column(
            schema@[i as int].model(),
            aggregates@,
            table_schema.entries(),
        ));
        match column {
            Ok(column) => columns.push(column),
            Err(error) => return Err(error),
        }
        i += 1;
    }
    Ok(columns)
}

} // verus!
