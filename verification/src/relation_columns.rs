//! How a list of rows becomes the columns of a system relation.

use vstd::prelude::*;

use crate::carrier::{DataType, DataTypeModel, Field};
use crate::column::{cell_models, lemma_entries_model, lemma_list_model, new_cells, push_cell, Cell, CellModel, Column, ColumnModel};
use crate::column::{column_models, new_columns, push_column};
use crate::carrier::{field_models, CarrierModel};
use crate::error::{ConnectorError, InternalFault};
use crate::system_columns::columns_result;
use crate::value::Datum;

verus! {

/// A row of a system relation, column by column.
pub trait SystemRow: Sized {
    /// The carrier of a column, where the relation has a column of that name.
    spec fn carrier_model(column: Seq<char>) -> Option<DataTypeModel>;

    /// The value of the row in a column that the relation has.
    spec fn cell_model(&self, column: Seq<char>) -> CellModel;

    fn carrier(column: &String) -> (carrier: Option<DataType>)
        ensures
            (match carrier {
                Some(held) => Some(held.model()),
                None => None,
            }) == Self::carrier_model(column@),
    ;

    fn cell(&self, column: &String) -> (cell: Cell)
        ensures
            cell.model() == self.cell_model(column@),
    ;
}

/// Whether a column has a name.
pub fn is_named(column: &String, name: &str) -> (named: bool)
    ensures
        named == (column@ == name@),
{
    *column == String::from_str(name)
}

/// The values of a list of rows in a column.
pub open spec fn cells_of<R: SystemRow>(rows: Seq<R>, column: Seq<char>) -> Seq<CellModel> {
    rows.map_values(|row: R| row.cell_model(column))
}

/// The values of a list of rows in a column.
pub fn column_cells<R: SystemRow>(rows: &Vec<R>, column: &String) -> (cells: Vec<Cell>)
    ensures
        cell_models(cells@) == cells_of(rows@, column@),
{
    let ghost models = cells_of(rows@, column@);
    let mut cells = new_cells();
    let mut i: usize = 0;
    assert(models.take(0) =~= Seq::<CellModel>::empty());
    while i < rows.len()
        invariant
            i <= rows.len(),
            models == cells_of(rows@, column@),
            cell_models(cells@) == models.take(i as int),
        decreases rows.len() - i,
    {
        push_cell(&mut cells, rows[i].cell(column));
        assert(models[i as int] == rows@[i as int].cell_model(column@));
        assert(models.take(i + 1) =~= models.take(i as int).push(models[i as int]));
        i += 1;
    }
    assert(models.take(i as int) =~= models);
    cells
}

/// The column of one field, where the relation has it.
pub open spec fn plain_column<R: SystemRow>(field: CarrierModel, rows: Seq<R>) -> Result<ColumnModel, ConnectorError> {
    match R::carrier_model(field.name) {
        Some(data_type) => Ok(ColumnModel::Flat { data_type, cells: cells_of(rows, field.name) }),
        None => Err(ConnectorError::Internal(InternalFault::UnknownRelationColumn)),
    }
}

/// The columns of the first `n` fields.
pub open spec fn plain_columns<R: SystemRow>(fields: Seq<CarrierModel>, rows: Seq<R>, n: nat) -> Result<Seq<ColumnModel>, ConnectorError>
    decreases n,
{
    if n == 0 || n > fields.len() {
        Ok(seq![])
    } else {
        match plain_columns(fields, rows, (n - 1) as nat) {
            Err(error) => Err(error),
            Ok(before) => match plain_column(fields[n - 1], rows) {
                Err(error) => Err(error),
                Ok(column) => Ok(before.push(column)),
            },
        }
    }
}

proof fn lemma_plain_columns_error<R: SystemRow>(fields: Seq<CarrierModel>, rows: Seq<R>, n: nat)
    requires
        n <= fields.len(),
        plain_columns(fields, rows, n) is Err,
    ensures
        plain_columns(fields, rows, fields.len()) == plain_columns(fields, rows, n),
    decreases fields.len() - n,
{
    if n < fields.len() {
        lemma_plain_columns_error(fields, rows, n + 1);
    }
}

/// The column of one field.
pub fn plain_field_column<R: SystemRow>(field: &Field, rows: &Vec<R>) -> (column: Result<Column, ConnectorError>)
    ensures
        crate::system_columns::column_result(column) == plain_column(field.model(), rows@),
{
    match R::carrier(&field.name) {
        Some(data_type) => Ok(Column::Flat { data_type, cells: column_cells(rows, &field.name) }),
        None => Err(ConnectorError::Internal(InternalFault::UnknownRelationColumn)),
    }
}

/// The columns of a relation whose every column is plain.
pub fn relation_columns<R: SystemRow>(fields: &Vec<Field>, rows: &Vec<R>) -> (columns: Result<Vec<Column>, ConnectorError>)
    ensures
        columns_result(columns) == plain_columns(field_models(fields@), rows@, fields@.len()),
{
    let ghost models = field_models(fields@);
    let mut columns = new_columns();
    let mut i: usize = 0;
    while i < fields.len()
        invariant
            i <= fields.len(),
            models == field_models(fields@),
            plain_columns(models, rows@, i as nat) == Ok::<Seq<ColumnModel>, ConnectorError>(
                column_models(columns@),
            ),
        decreases fields.len() - i,
    {
        assert(models[i as int] == fields@[i as int].model());
        match plain_field_column(&fields[i], rows) {
            Ok(column) => push_column(&mut columns, column),
            Err(error) => {
                proof {
                    lemma_plain_columns_error(models, rows@, (i + 1) as nat);
                }
                return Err(error);
            },
        }
        i += 1;
    }
    Ok(columns)
}

// ---------------------------------------------------------------------------
// Cells of optional values and collections
// ---------------------------------------------------------------------------

pub open spec fn int_cell(value: Option<i32>) -> CellModel {
    match value {
        Some(held) => CellModel::Int32(held),
        None => CellModel::Null,
    }
}

pub fn int_to_cell(value: Option<i32>) -> (cell: Cell)
    ensures
        cell.model() == int_cell(value),
{
    match value {
        Some(held) => Cell::Int32(held),
        None => Cell::Null,
    }
}

pub open spec fn long_cell(value: Option<i64>) -> CellModel {
    match value {
        Some(held) => CellModel::Int64(held),
        None => CellModel::Null,
    }
}

pub fn long_to_cell(value: Option<i64>) -> (cell: Cell)
    ensures
        cell.model() == long_cell(value),
{
    match value {
        Some(held) => Cell::Int64(held),
        None => Cell::Null,
    }
}

pub open spec fn text_cell(value: Option<String>) -> CellModel {
    match value {
        Some(held) => CellModel::Text(held@),
        None => CellModel::Null,
    }
}

pub fn text_to_cell(value: &Option<String>) -> (cell: Cell)
    ensures
        cell.model() == text_cell(*value),
{
    match value {
        Some(held) => Cell::Text(held.clone()),
        None => Cell::Null,
    }
}

pub open spec fn bytes_cell(value: Option<Vec<u8>>) -> CellModel {
    match value {
        Some(held) => CellModel::Bytes(held@),
        None => CellModel::Null,
    }
}

pub fn bytes_to_cell(value: &Option<Vec<u8>>) -> (cell: Cell)
    ensures
        cell.model() == bytes_cell(*value),
{
    match value {
        Some(held) => Cell::Bytes(crate::system_columns::duplicate_bytes(held)),
        None => Cell::Null,
    }
}

/// A list of longs; a list that was not recorded is null.
pub open spec fn longs_cell(value: Option<Vec<i64>>) -> CellModel {
    match value {
        Some(held) => CellModel::List(held@.map_values(|item: i64| CellModel::Int64(item))),
        None => CellModel::Null,
    }
}

pub fn longs_to_cell(value: &Option<Vec<i64>>) -> (cell: Cell)
    ensures
        cell.model() == longs_cell(*value),
{
    match value {
        None => Cell::Null,
        Some(held) => {
            let mut items = new_cells();
            let mut i: usize = 0;
            while i < held.len()
                invariant
                    i <= held.len(),
                    cell_models(items@) == held@.take(i as int).map_values(
                        |item: i64| CellModel::Int64(item),
                    ),
                decreases held.len() - i,
            {
                push_cell(&mut items, Cell::Int64(held[i]));
                proof {
                    crate::seqs::lemma_map_step(held@, |item: i64| CellModel::Int64(item), i as int);
                }
                i += 1;
            }
            proof {
                assert(held@.take(i as int) =~= held@);
                lemma_list_model(items);
            }
            Cell::List(items)
        },
    }
}

/// A list of ints; a list that was not recorded is null.
pub open spec fn ints_cell(value: Option<Vec<i32>>) -> CellModel {
    match value {
        Some(held) => CellModel::List(held@.map_values(|item: i32| CellModel::Int32(item))),
        None => CellModel::Null,
    }
}

pub fn ints_to_cell(value: &Option<Vec<i32>>) -> (cell: Cell)
    ensures
        cell.model() == ints_cell(*value),
{
    match value {
        None => Cell::Null,
        Some(held) => {
            let mut items = new_cells();
            let mut i: usize = 0;
            while i < held.len()
                invariant
                    i <= held.len(),
                    cell_models(items@) == held@.take(i as int).map_values(
                        |item: i32| CellModel::Int32(item),
                    ),
                decreases held.len() - i,
            {
                push_cell(&mut items, Cell::Int32(held[i]));
                proof {
                    crate::seqs::lemma_map_step(held@, |item: i32| CellModel::Int32(item), i as int);
                }
                i += 1;
            }
            proof {
                assert(held@.take(i as int) =~= held@);
                lemma_list_model(items);
            }
            Cell::List(items)
        },
    }
}

/// A map from field ids to counts, ascending by id. It is never null.
pub open spec fn counts_cell(counts: Seq<(i32, i64)>) -> CellModel {
    CellModel::Entries(
        counts.map_values(|pair: (i32, i64)| CellModel::Int32(pair.0)),
        counts.map_values(|pair: (i32, i64)| CellModel::Int64(pair.1)),
    )
}

pub fn counts_to_cell(counts: &Vec<(i32, i64)>) -> (cell: Cell)
    ensures
        cell.model() == counts_cell(counts@),
{
    let mut keys = new_cells();
    let mut values = new_cells();
    let mut i: usize = 0;
    while i < counts.len()
        invariant
            i <= counts.len(),
            cell_models(keys@) == counts@.take(i as int).map_values(
                |pair: (i32, i64)| CellModel::Int32(pair.0),
            ),
            cell_models(values@) == counts@.take(i as int).map_values(
                |pair: (i32, i64)| CellModel::Int64(pair.1),
            ),
        decreases counts.len() - i,
    {
        push_cell(&mut keys, Cell::Int32(counts[i].0));
        push_cell(&mut values, Cell::Int64(counts[i].1));
        proof {
            crate::seqs::lemma_map_step(
                counts@,
                |pair: (i32, i64)| CellModel::Int32(pair.0),
                i as int,
            );
            crate::seqs::lemma_map_step(
                counts@,
                |pair: (i32, i64)| CellModel::Int64(pair.1),
                i as int,
            );
        }
        i += 1;
    }
    proof {
        assert(counts@.take(i as int) =~= counts@);
        lemma_entries_model(keys, values);
    }
    Cell::Entries(keys, values)
}

/// A map from field ids to the texts of bounds, ascending by id. It is never null.
pub open spec fn bound_texts_cell(bounds: Seq<(i32, &Datum)>) -> CellModel {
    CellModel::Entries(
        bounds.map_values(|pair: (i32, &Datum)| CellModel::Int32(pair.0)),
        bounds.map_values(|pair: (i32, &Datum)| CellModel::Text(pair.1.text@)),
    )
}

pub fn bound_texts_to_cell(bounds: &Vec<(i32, &Datum)>) -> (cell: Cell)
    ensures
        cell.model() == bound_texts_cell(bounds@),
{
    let mut keys = new_cells();
    let mut values = new_cells();
    let mut i: usize = 0;
    while i < bounds.len()
        invariant
            i <= bounds.len(),
            cell_models(keys@) == bounds@.take(i as int).map_values(
                |pair: (i32, &Datum)| CellModel::Int32(pair.0),
            ),
            cell_models(values@) == bounds@.take(i as int).map_values(
                |pair: (i32, &Datum)| CellModel::Text(pair.1.text@),
            ),
        decreases bounds.len() - i,
    {
        push_cell(&mut keys, Cell::Int32(bounds[i].0));
        push_cell(&mut values, Cell::Text(bounds[i].1.text.clone()));
        proof {
            crate::seqs::lemma_map_step(
                bounds@,
                |pair: (i32, &Datum)| CellModel::Int32(pair.0),
                i as int,
            );
            crate::seqs::lemma_map_step(
                bounds@,
                |pair: (i32, &Datum)| CellModel::Text(pair.1.text@),
                i as int,
            );
        }
        i += 1;
    }
    proof {
        assert(bounds@.take(i as int) =~= bounds@);
        lemma_entries_model(keys, values);
    }
    Cell::Entries(keys, values)
}

} // verus!
