//! Columns of values as plain data: what a page holds before it becomes columnar buffers.

use vstd::prelude::*;

use crate::carrier::{field_models, CarrierModel, DataType, DataTypeModel, Field};

verus! {

/// One value of a column. A floating-point value is held by its bits.
pub enum Cell {
    Null,
    Boolean(bool),
    Int32(i32),
    Int64(i64),
    Float32(u32),
    Float64(u64),
    Int128(i128),
    Text(String),
    Bytes(Vec<u8>),
    List(Vec<Cell>),
    /// The keys and the values of a map, in step.
    Entries(Vec<Cell>, Vec<Cell>),
    Row(Vec<Cell>),
}

/// [`Cell`] as a mathematical value.
pub enum CellModel {
    Null,
    Boolean(bool),
    Int32(i32),
    Int64(i64),
    Float32(u32),
    Float64(u64),
    Int128(i128),
    Text(Seq<char>),
    Bytes(Seq<u8>),
    List(Seq<CellModel>),
    Entries(Seq<CellModel>, Seq<CellModel>),
    Row(Seq<CellModel>),
}

impl Cell {
    pub open spec fn model(self) -> CellModel
        decreases self,
    {
        match self {
            Cell::Null => CellModel::Null,
            Cell::Boolean(value) => CellModel::Boolean(value),
            Cell::Int32(value) => CellModel::Int32(value),
            Cell::Int64(value) => CellModel::Int64(value),
            Cell::Float32(bits) => CellModel::Float32(bits),
            Cell::Float64(bits) => CellModel::Float64(bits),
            Cell::Int128(value) => CellModel::Int128(value),
            Cell::Text(value) => CellModel::Text(value@),
            Cell::Bytes(value) => CellModel::Bytes(value@),
            Cell::List(items) => CellModel::List(
                Seq::new(
                    items.len() as nat,
                    |i: int|
                        if 0 <= i < items.len() {
                            items[i].model()
                        } else {
                            arbitrary()
                        },
                ),
            ),
            Cell::Entries(keys, values) => CellModel::Entries(
                Seq::new(
                    keys.len() as nat,
                    |i: int|
                        if 0 <= i < keys.len() {
                            keys[i].model()
                        } else {
                            arbitrary()
                        },
                ),
                Seq::new(
                    values.len() as nat,
                    |i: int|
                        if 0 <= i < values.len() {
                            values[i].model()
                        } else {
                            arbitrary()
                        },
                ),
            ),
            Cell::Row(items) => CellModel::Row(
                Seq::new(
                    items.len() as nat,
                    |i: int|
                        if 0 <= i < items.len() {
                            items[i].model()
                        } else {
                            arbitrary()
                        },
                ),
            ),
        }
    }
}

/// The models of a list of cells.
pub open spec fn cell_models(cells: Seq<Cell>) -> Seq<CellModel> {
    cells.map_values(|cell: Cell| cell.model())
}

/// A list is modelled by the models of its items.
pub proof fn lemma_list_model(items: Vec<Cell>)
    ensures
        Cell::List(items).model() == CellModel::List(cell_models(items@)),
        Cell::Row(items).model() == CellModel::Row(cell_models(items@)),
{
    assert(Cell::List(items).model()->List_0 =~= cell_models(items@));
    assert(Cell::Row(items).model()->Row_0 =~= cell_models(items@));
}

/// A map is modelled by the models of its keys and values.
pub proof fn lemma_entries_model(keys: Vec<Cell>, values: Vec<Cell>)
    ensures
        Cell::Entries(keys, values).model() == CellModel::Entries(
            cell_models(keys@),
            cell_models(values@),
        ),
{
    assert(Cell::Entries(keys, values).model()->Entries_0 =~= cell_models(keys@));
    assert(Cell::Entries(keys, values).model()->Entries_1 =~= cell_models(values@));
}

/// Append one cell.
pub fn push_cell(cells: &mut Vec<Cell>, cell: Cell)
    ensures
        cell_models(final(cells)@) == cell_models(old(cells)@).push(cell.model()),
{
    let ghost before = cells@;
    cells.push(cell);
    assert(cell_models(cells@) =~= cell_models(before).push(cell.model()));
}

/// No cells yet.
pub fn new_cells() -> (cells: Vec<Cell>)
    ensures
        cell_models(cells@) == Seq::<CellModel>::empty(),
{
    let cells: Vec<Cell> = Vec::new();
    assert(cell_models(cells@) =~= Seq::<CellModel>::empty());
    cells
}

/// One column: its cells under one carrier, or a row of columns.
pub enum Column {
    Flat { data_type: DataType, cells: Vec<Cell> },
    Row { fields: Vec<Field>, children: Vec<Column>, length: usize },
}

/// [`Column`] as a mathematical value.
pub enum ColumnModel {
    Flat { data_type: DataTypeModel, cells: Seq<CellModel> },
    Row { fields: Seq<CarrierModel>, children: Seq<ColumnModel>, length: nat },
}

impl Column {
    pub open spec fn model(self) -> ColumnModel
        decreases self,
    {
        match self {
            Column::Flat { data_type, cells } => ColumnModel::Flat {
                data_type: data_type.model(),
                cells: cell_models(cells@),
            },
            Column::Row { fields, children, length } => ColumnModel::Row {
                fields: field_models(fields@),
                children: Seq::new(
                    children.len() as nat,
                    |i: int|
                        if 0 <= i < children.len() {
                            children[i].model()
                        } else {
                            arbitrary()
                        },
                ),
                length: length as nat,
            },
        }
    }

    /// The number of rows.
    pub fn len(&self) -> (length: usize)
        ensures
            length == self.model().spec_len(),
    {
        match self {
            Column::Flat { data_type: _, cells } => cells.len(),
            Column::Row { fields: _, children: _, length } => *length,
        }
    }

    /// Whether some row of the column is null.
    pub fn has_null(&self) -> (null: bool)
        ensures
            null == self.model().holds_null(),
    {
        match self {
            Column::Flat { data_type: _, cells } => {
                let mut i: usize = 0;
                while i < cells.len()
                    invariant
                        i <= cells.len(),
                        self.model()->cells == cell_models(cells@),
                        self.model() is Flat,
                        forall|k: int| 0 <= k < i ==> (#[trigger] cells@[k]).model() != CellModel::Null,
                    decreases cells.len() - i,
                {
                    if matches!(cells[i], Cell::Null) {
                        assert(cell_models(cells@)[i as int] == CellModel::Null);
                        return true;
                    }
                    i += 1;
                }
                assert forall|k: int| 0 <= k < cells@.len() implies #[trigger] cell_models(cells@)[k]
                    != CellModel::Null by {
                    assert(cells@[k].model() != CellModel::Null);
                }
                false
            },
            Column::Row { fields: _, children: _, length: _ } => false,
        }
    }

    /// Whether the column has the carrier of a field.
    pub fn carries(&self, data_type: &DataType) -> (carries: bool)
        ensures
            carries == (self.model().carrier() == data_type.model()),
    {
        match self {
            Column::Flat { data_type: own, cells: _ } => own.same(data_type),
            Column::Row { fields, children: _, length: _ } => match data_type {
                DataType::Struct(declared) => {
                    proof {
                        crate::carrier::lemma_struct_model(*declared);
                    }
                    same_fields(fields, declared)
                },
                _ => false,
            },
        }
    }
}

impl ColumnModel {
    pub open spec fn spec_len(self) -> nat {
        match self {
            ColumnModel::Flat { data_type: _, cells } => cells.len(),
            ColumnModel::Row { fields: _, children: _, length } => length,
        }
    }

    /// Whether some row of the column is null.
    pub open spec fn holds_null(self) -> bool {
        match self {
            ColumnModel::Flat { data_type: _, cells } => exists|i: int|
                0 <= i < cells.len() && #[trigger] cells[i] == CellModel::Null,
            ColumnModel::Row { .. } => false,
        }
    }

    /// The carrier of the column.
    pub open spec fn carrier(self) -> DataTypeModel {
        match self {
            ColumnModel::Flat { data_type, cells: _ } => data_type,
            ColumnModel::Row { fields, children: _, length: _ } => DataTypeModel::Struct(fields),
        }
    }
}

/// Whether two field lists are the same in every part.
pub fn same_fields(left: &Vec<Field>, right: &Vec<Field>) -> (same: bool)
    ensures
        same == (field_models(left@) == field_models(right@)),
{
    if left.len() != right.len() {
        assert(field_models(left@).len() != field_models(right@).len());
        return false;
    }
    let mut i: usize = 0;
    while i < left.len()
        invariant
            i <= left.len(),
            left.len() == right.len(),
            forall|k: int| 0 <= k < i ==> #[trigger] left@[k].model() == right@[k].model(),
        decreases left.len() - i,
    {
        if !left[i].same(&right[i]) {
            assert(field_models(left@)[i as int] != field_models(right@)[i as int]);
            return false;
        }
        i += 1;
    }
    assert(field_models(left@) =~= field_models(right@));
    true
}

/// The models of a list of columns.
pub open spec fn column_models(columns: Seq<Column>) -> Seq<ColumnModel> {
    columns.map_values(|column: Column| column.model())
}

/// A row of columns is modelled by the models of its children.
pub proof fn lemma_row_model(fields: Vec<Field>, children: Vec<Column>, length: usize)
    ensures
        (Column::Row { fields, children, length }).model() == (ColumnModel::Row {
            fields: field_models(fields@),
            children: column_models(children@),
            length: length as nat,
        }),
{
    assert((Column::Row { fields, children, length }).model()->children =~= column_models(children@));
}

/// Append one column.
pub fn push_column(columns: &mut Vec<Column>, column: Column)
    ensures
        column_models(final(columns)@) == column_models(old(columns)@).push(column.model()),
{
    let ghost before = columns@;
    columns.push(column);
    assert(column_models(columns@) =~= column_models(before).push(column.model()));
}

/// No columns yet.
pub fn new_columns() -> (columns: Vec<Column>)
    ensures
        column_models(columns@) == Seq::<ColumnModel>::empty(),
{
    let columns: Vec<Column> = Vec::new();
    assert(column_models(columns@) =~= Seq::<ColumnModel>::empty());
    columns
}

} // verus!
