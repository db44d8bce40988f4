//! The columns of a data scan that are no fields of the table schema.

use vstd::prelude::*;

use crate::carrier::{DataType, DataTypeModel};
use crate::column::{cell_models, new_cells, push_cell, Cell, CellModel, Column, ColumnModel};
use crate::error::{ConnectorError, CorruptData, UnsupportedFeature};

verus! {

/// `$path`: the location of the data file that a row came from.
pub const ICEBERG_METADATA_FIELD_ID_PATH: i32 = 2147483646;

/// `_pos`: the position of a row in its file. Internal.
pub const ICEBERG_METADATA_FIELD_ID_ROW_POSITION: i32 = 2147483645;

/// `_deleted`: whether a delete matched a row. Internal.
pub const ICEBERG_METADATA_FIELD_ID_IS_DELETED: i32 = 2147483644;

/// `$partition`: the partition values of the file.
pub const ICEBERG_METADATA_FIELD_ID_PARTITION: i32 = 2147483547;

/// `$file_modified_time`: when the data file was last modified.
pub const ICEBERG_METADATA_FIELD_ID_FILE_MODIFIED_TIME: i32 = 2147483546;

/// `$row_id`: the id of a row over its whole life.
pub const ICEBERG_RESERVED_FIELD_ID_ROW_ID: i32 = 2147483540;

/// `$last_updated_sequence_number`: the sequence number of the last change of a row.
pub const ICEBERG_RESERVED_FIELD_ID_LAST_UPDATED_SEQUENCE_NUMBER: i32 = 2147483539;

/// A column that is no field of the table schema.
#[derive(Clone, Copy, Debug, PartialEq, Eq, Structural)]
pub enum IcebergMetadataColumn {
    Partition,
    Path,
    FileModifiedTime,
    RowId,
    LastUpdatedSequenceNumber,
    RowPosition,
    IsDeleted,
}

impl IcebergMetadataColumn {
    pub open spec fn spec_field_id(self) -> i32 {
        match self {
            IcebergMetadataColumn::Partition => ICEBERG_METADATA_FIELD_ID_PARTITION,
            IcebergMetadataColumn::Path => ICEBERG_METADATA_FIELD_ID_PATH,
            IcebergMetadataColumn::FileModifiedTime => ICEBERG_METADATA_FIELD_ID_FILE_MODIFIED_TIME,
            IcebergMetadataColumn::RowId => ICEBERG_RESERVED_FIELD_ID_ROW_ID,
            IcebergMetadataColumn::LastUpdatedSequenceNumber => ICEBERG_RESERVED_FIELD_ID_LAST_UPDATED_SEQUENCE_NUMBER,
            IcebergMetadataColumn::RowPosition => ICEBERG_METADATA_FIELD_ID_ROW_POSITION,
            IcebergMetadataColumn::IsDeleted => ICEBERG_METADATA_FIELD_ID_IS_DELETED,
        }
    }

    /// The reserved id of the column.
    pub fn field_id(self) -> (id: i32)
        ensures
            id == self.spec_field_id(),
    {
        match self {
            IcebergMetadataColumn::Partition => ICEBERG_METADATA_FIELD_ID_PARTITION,
            IcebergMetadataColumn::Path => ICEBERG_METADATA_FIELD_ID_PATH,
            IcebergMetadataColumn::FileModifiedTime => ICEBERG_METADATA_FIELD_ID_FILE_MODIFIED_TIME,
            IcebergMetadataColumn::RowId => ICEBERG_RESERVED_FIELD_ID_ROW_ID,
            IcebergMetadataColumn::LastUpdatedSequenceNumber => ICEBERG_RESERVED_FIELD_ID_LAST_UPDATED_SEQUENCE_NUMBER,
            IcebergMetadataColumn::RowPosition => ICEBERG_METADATA_FIELD_ID_ROW_POSITION,
            IcebergMetadataColumn::IsDeleted => ICEBERG_METADATA_FIELD_ID_IS_DELETED,
        }
    }

    pub open spec fn spec_name(self) -> Seq<char> {
        match self {
            IcebergMetadataColumn::Partition => "$partition"@,
            IcebergMetadataColumn::Path => "$path"@,
            IcebergMetadataColumn::FileModifiedTime => "$file_modified_time"@,
            IcebergMetadataColumn::RowId => "$row_id"@,
            IcebergMetadataColumn::LastUpdatedSequenceNumber => "$last_updated_sequence_number"@,
            IcebergMetadataColumn::RowPosition => "_pos"@,
            IcebergMetadataColumn::IsDeleted => "_deleted"@,
        }
    }

    /// The name of the column.
    pub fn column_name(self) -> (name: &'static str)
        ensures
            name@ == self.spec_name(),
    {
        match self {
            IcebergMetadataColumn::Partition => "$partition",
            IcebergMetadataColumn::Path => "$path",
            IcebergMetadataColumn::FileModifiedTime => "$file_modified_time",
            IcebergMetadataColumn::RowId => "$row_id",
            IcebergMetadataColumn::LastUpdatedSequenceNumber => "$last_updated_sequence_number",
            IcebergMetadataColumn::RowPosition => "_pos",
            IcebergMetadataColumn::IsDeleted => "_deleted",
        }
    }

    pub open spec fn visible(self) -> bool {
        !(self is RowPosition) && !(self is IsDeleted)
    }

    /// Whether a scan may name the column in its output.
    pub fn is_externally_visible(self) -> (visible: bool)
        ensures
            visible == self.visible(),
    {
        match self {
            IcebergMetadataColumn::Partition | IcebergMetadataColumn::Path
            | IcebergMetadataColumn::FileModifiedTime | IcebergMetadataColumn::RowId
            | IcebergMetadataColumn::LastUpdatedSequenceNumber => true,
            IcebergMetadataColumn::RowPosition | IcebergMetadataColumn::IsDeleted => false,
        }
    }

    /// The column of a reserved id.
    pub open spec fn of_id(field_id: i32) -> Option<IcebergMetadataColumn> {
        if field_id == ICEBERG_METADATA_FIELD_ID_PARTITION {
            Some(IcebergMetadataColumn::Partition)
        } else if field_id == ICEBERG_METADATA_FIELD_ID_PATH {
            Some(IcebergMetadataColumn::Path)
        } else if field_id == ICEBERG_METADATA_FIELD_ID_FILE_MODIFIED_TIME {
            Some(IcebergMetadataColumn::FileModifiedTime)
        } else if field_id == ICEBERG_RESERVED_FIELD_ID_ROW_ID {
            Some(IcebergMetadataColumn::RowId)
        } else if field_id == ICEBERG_RESERVED_FIELD_ID_LAST_UPDATED_SEQUENCE_NUMBER {
            Some(IcebergMetadataColumn::LastUpdatedSequenceNumber)
        } else if field_id == ICEBERG_METADATA_FIELD_ID_ROW_POSITION {
            Some(IcebergMetadataColumn::RowPosition)
        } else if field_id == ICEBERG_METADATA_FIELD_ID_IS_DELETED {
            Some(IcebergMetadataColumn::IsDeleted)
        } else {
            None
        }
    }

    /// The column of a reserved id.
    pub fn from_field_id(field_id: i32) -> (column: Option<IcebergMetadataColumn>)
        ensures
            column == Self::of_id(field_id),
    {
        if field_id == ICEBERG_METADATA_FIELD_ID_PARTITION {
            Some(IcebergMetadataColumn::Partition)
        } else if field_id == ICEBERG_METADATA_FIELD_ID_PATH {
            Some(IcebergMetadataColumn::Path)
        } else if field_id == ICEBERG_METADATA_FIELD_ID_FILE_MODIFIED_TIME {
            Some(IcebergMetadataColumn::FileModifiedTime)
        } else if field_id == ICEBERG_RESERVED_FIELD_ID_ROW_ID {
            Some(IcebergMetadataColumn::RowId)
        } else if field_id == ICEBERG_RESERVED_FIELD_ID_LAST_UPDATED_SEQUENCE_NUMBER {
            Some(IcebergMetadataColumn::LastUpdatedSequenceNumber)
        } else if field_id == ICEBERG_METADATA_FIELD_ID_ROW_POSITION {
            Some(IcebergMetadataColumn::RowPosition)
        } else if field_id == ICEBERG_METADATA_FIELD_ID_IS_DELETED {
            Some(IcebergMetadataColumn::IsDeleted)
        } else {
            None
        }
    }
}

/// A column and its reserved id name each other.
pub proof fn law_reserved_ids_round_trip(column: IcebergMetadataColumn, field_id: i32)
    ensures
        IcebergMetadataColumn::of_id(column.spec_field_id()) == Some(column),
        IcebergMetadataColumn::of_id(field_id) is Some ==> IcebergMetadataColumn::of_id(
            field_id,
        )->0.spec_field_id() == field_id,
{
}

/// The facts of a split that metadata columns are built from. An absent fact is an error, never a
/// null.
#[derive(Clone, Copy)]
pub struct IcebergSplitFacts<'a> {
    pub path: &'a str,
    pub partition_data_json: &'a str,
    pub file_first_row_id: Option<i64>,
    pub data_sequence_number: Option<i64>,
}

/// [`IcebergSplitFacts`] as a mathematical value.
pub struct SplitFactsModel {
    pub path: Seq<char>,
    pub partition_data_json: Seq<char>,
    pub file_first_row_id: Option<i64>,
    pub data_sequence_number: Option<i64>,
}

impl<'a> IcebergSplitFacts<'a> {
    pub open spec fn model(self) -> SplitFactsModel {
        SplitFactsModel {
            path: self.path@,
            partition_data_json: self.partition_data_json@,
            file_first_row_id: self.file_first_row_id,
            data_sequence_number: self.data_sequence_number,
        }
    }
}

/// A row position as a signed value.
pub open spec fn signed_position(position: Option<u64>) -> Result<i64, ConnectorError> {
    match position {
        None => Err(ConnectorError::Corrupt(CorruptData::RowPositionNull)),
        Some(value) => if value > i64::MAX {
            Err(ConnectorError::Corrupt(CorruptData::RowPositionBeyondInt64))
        } else {
            Ok(value as i64)
        },
    }
}

/// The id of a row: the first id of its file plus its position, never wrapped.
pub open spec fn row_id(first_row_id: i64, position: Option<u64>) -> Result<i64, ConnectorError> {
    match signed_position(position) {
        Err(error) => Err(error),
        Ok(value) => if first_row_id + value > i64::MAX {
            Err(ConnectorError::Corrupt(CorruptData::RowIdOverflow))
        } else {
            Ok((first_row_id + value) as i64)
        },
    }
}

/// The values of the first `n` positions: plain, or counted from a first row id.
pub open spec fn position_values(positions: Seq<Option<u64>>, first_row_id: Option<i64>, n: nat) -> Result<Seq<CellModel>, ConnectorError>
    decreases n,
{
    if n == 0 || n > positions.len() {
        Ok(seq![])
    } else {
        match position_values(positions, first_row_id, (n - 1) as nat) {
            Err(error) => Err(error),
            Ok(before) => {
                let value = match first_row_id {
                    Some(first) => row_id(first, positions[n - 1]),
                    None => signed_position(positions[n - 1]),
                };
                match value {
                    Err(error) => Err(error),
                    Ok(value) => Ok(before.push(CellModel::Int64(value))),
                }
            },
        }
    }
}

proof fn lemma_position_values_error(positions: Seq<Option<u64>>, first_row_id: Option<i64>, n: nat)
    requires
        n <= positions.len(),
        position_values(positions, first_row_id, n) is Err,
    ensures
        position_values(positions, first_row_id, positions.len()) == position_values(
            positions,
            first_row_id,
            n,
        ),
    decreases positions.len() - n,
{
    if n < positions.len() {
        lemma_position_values_error(positions, first_row_id, n + 1);
    }
}

fn position_cells(positions: &Vec<Option<u64>>, first_row_id: Option<i64>) -> (cells: Result<Vec<Cell>, ConnectorError>)
    ensures
        match position_values(positions@, first_row_id, positions@.len()) {
            Ok(models) => cells is Ok && cell_models(cells->Ok_0@) == models,
            Err(error) => cells == Err::<Vec<Cell>, ConnectorError>(error),
        },
{
    let mut cells = new_cells();
    let mut i: usize = 0;
    while i < positions.len()
        invariant
            i <= positions.len(),
            position_values(positions@, first_row_id, i as nat) == Ok::<Seq<CellModel>, ConnectorError>(
                cell_models(cells@),
            ),
        decreases positions.len() - i,
    {
        let value: Result<i64, ConnectorError> = match positions[i] {
            None => Err(ConnectorError::Corrupt(CorruptData::RowPositionNull)),
            Some(position) => {
                if position > 9223372036854775807 {
                    Err(ConnectorError::Corrupt(CorruptData::RowPositionBeyondInt64))
                } else {
                    match first_row_id {
                        None => Ok(position as i64),
                        Some(first) => match first.checked_add(position as i64) {
                            Some(id) => Ok(id),
                            None => Err(ConnectorError::Corrupt(CorruptData::RowIdOverflow)),
                        },
                    }
                }
            },
        };
        match value {
            Ok(value) => push_cell(&mut cells, Cell::Int64(value)),
            Err(error) => {
                proof {
                    lemma_position_values_error(positions@, first_row_id, (i + 1) as nat);
                }
                return Err(error);
            },
        }
        i += 1;
    }
    Ok(cells)
}

/// A cell that comes `n` times.
pub open spec fn repeated(cell: CellModel, n: nat) -> Seq<CellModel> {
    Seq::new(n, |i: int| cell)
}

fn repeated_text(text: &str, n: usize) -> (cells: Vec<Cell>)
    ensures
        cell_models(cells@) == repeated(CellModel::Text(text@), n as nat),
{
    let mut cells = new_cells();
    let mut i: usize = 0;
    assert(repeated(CellModel::Text(text@), 0) =~= Seq::<CellModel>::empty());
    while i < n
        invariant
            i <= n,
            cell_models(cells@) == repeated(CellModel::Text(text@), i as nat),
        decreases n - i,
    {
        push_cell(&mut cells, Cell::Text(String::from_str(text)));
        assert(repeated(CellModel::Text(text@), (i + 1) as nat) =~= repeated(
            CellModel::Text(text@),
            i as nat,
        ).push(CellModel::Text(text@)));
        i += 1;
    }
    cells
}

fn repeated_long(value: i64, n: usize) -> (cells: Vec<Cell>)
    ensures
        cell_models(cells@) == repeated(CellModel::Int64(value), n as nat),
{
    let mut cells = new_cells();
    let mut i: usize = 0;
    assert(repeated(CellModel::Int64(value), 0) =~= Seq::<CellModel>::empty());
    while i < n
        invariant
            i <= n,
            cell_models(cells@) == repeated(CellModel::Int64(value), i as nat),
        decreases n - i,
    {
        push_cell(&mut cells, Cell::Int64(value));
        assert(repeated(CellModel::Int64(value), (i + 1) as nat) =~= repeated(
            CellModel::Int64(value),
            i as nat,
        ).push(CellModel::Int64(value)));
        i += 1;
    }
    cells
}

/// The values of a metadata column for one page, or why there are none.
pub open spec fn metadata_values(
    metadata: IcebergMetadataColumn,
    row_count: nat,
    positions: Option<Seq<Option<u64>>>,
    path: Seq<char>,
    partition: Seq<char>,
    first_row_id: Option<i64>,
    sequence: Option<i64>,
) -> Result<ColumnModel, ConnectorError> {
    match metadata {
        IcebergMetadataColumn::Path => Ok(
            ColumnModel::Flat {
                data_type: DataTypeModel::Utf8,
                cells: repeated(CellModel::Text(path), row_count),
            },
        ),
        IcebergMetadataColumn::Partition => Ok(
            ColumnModel::Flat {
                data_type: DataTypeModel::Utf8,
                cells: repeated(CellModel::Text(partition), row_count),
            },
        ),
        IcebergMetadataColumn::RowPosition => match positions {
            None => Err(ConnectorError::Corrupt(CorruptData::RowPositionsMissing)),
            Some(list) => match position_values(list, None, list.len()) {
                Err(error) => Err(error),
                Ok(cells) => Ok(ColumnModel::Flat { data_type: DataTypeModel::Int64, cells }),
            },
        },
        IcebergMetadataColumn::RowId => if first_row_id is None {
            Err(ConnectorError::Corrupt(CorruptData::FirstRowIdMissing))
        } else {
            match positions {
                None => Err(ConnectorError::Corrupt(CorruptData::RowPositionsMissing)),
                Some(list) => match position_values(list, first_row_id, list.len()) {
                    Err(error) => Err(error),
                    Ok(cells) => Ok(ColumnModel::Flat { data_type: DataTypeModel::Int64, cells }),
                },
            }
        },
        IcebergMetadataColumn::LastUpdatedSequenceNumber => match sequence {
            None => Err(ConnectorError::Corrupt(CorruptData::RowSequenceMissing)),
            Some(value) => Ok(
                ColumnModel::Flat {
                    data_type: DataTypeModel::Int64,
                    cells: repeated(CellModel::Int64(value), row_count),
                },
            ),
        },
        IcebergMetadataColumn::FileModifiedTime | IcebergMetadataColumn::IsDeleted => Err(
            ConnectorError::Unsupported(UnsupportedFeature::MetadataColumn),
        ),
    }
}

proof fn lemma_position_values_length(positions: Seq<Option<u64>>, first_row_id: Option<i64>, n: nat)
    requires
        n <= positions.len(),
        position_values(positions, first_row_id, n) is Ok,
    ensures
        position_values(positions, first_row_id, n)->Ok_0.len() == n,
    decreases n,
{
    if n > 0 {
        lemma_position_values_length(positions, first_row_id, (n - 1) as nat);
    }
}

/// A metadata column has a value for each row of its page.
pub proof fn law_metadata_columns_cover_the_page(
    metadata: IcebergMetadataColumn,
    row_count: nat,
    positions: Option<Seq<Option<u64>>>,
    path: Seq<char>,
    partition: Seq<char>,
    first_row_id: Option<i64>,
    sequence: Option<i64>,
)
    requires
        positions is Some ==> positions->0.len() == row_count,
    ensures
        ({
            let values = metadata_values(
                metadata,
                row_count,
                positions,
                path,
                partition,
                first_row_id,
                sequence,
            );
            values is Ok ==> values->Ok_0.spec_len() == row_count
        }),
{
    if let Some(list) = positions {
        if position_values(list, None, list.len()) is Ok {
            lemma_position_values_length(list, None, list.len());
        }
        if position_values(list, first_row_id, list.len()) is Ok {
            lemma_position_values_length(list, first_row_id, list.len());
        }
    }
}

/// Optional positions as a mathematical value.
pub open spec fn positions_model(positions: Option<&Vec<Option<u64>>>) -> Option<Seq<Option<u64>>> {
    match positions {
        Some(list) => Some(list@),
        None => None,
    }
}

/// Build a metadata column for one page.
pub fn metadata_column(
    metadata: IcebergMetadataColumn,
    row_count: usize,
    absolute_positions: Option<&Vec<Option<u64>>>,
    facts: &IcebergSplitFacts<'_>,
) -> (column: Result<Column, ConnectorError>)
    ensures
        crate::system_columns::column_result(column) == metadata_values(
            metadata,
            row_count as nat,
            positions_model(absolute_positions),
            facts.path@,
            facts.partition_data_json@,
            facts.file_first_row_id,
            facts.data_sequence_number,
        ),
{
    match metadata {
        IcebergMetadataColumn::Path => Ok(
            Column::Flat { data_type: DataType::Utf8, cells: repeated_text(facts.path, row_count) },
        ),
        IcebergMetadataColumn::Partition => Ok(
            Column::Flat {
                data_type: DataType::Utf8,
                cells: repeated_text(facts.partition_data_json, row_count),
            },
        ),
        IcebergMetadataColumn::RowPosition => match absolute_positions {
            None => Err(ConnectorError::Corrupt(CorruptData::RowPositionsMissing)),
            Some(positions) => match position_cells(positions, None) {
                Ok(cells) => Ok(Column::Flat { data_type: DataType::Int64, cells }),
                Err(error) => Err(error),
            },
        },
        IcebergMetadataColumn::RowId => {
            if facts.file_first_row_id.is_none() {
                return Err(ConnectorError::Corrupt(CorruptData::FirstRowIdMissing));
            }
            match absolute_positions {
                None => Err(ConnectorError::Corrupt(CorruptData::RowPositionsMissing)),
                Some(positions) => match position_cells(positions, facts.file_first_row_id) {
                    Ok(cells) => Ok(Column::Flat { data_type: DataType::Int64, cells }),
                    Err(error) => Err(error),
                },
            }
        },
        IcebergMetadataColumn::LastUpdatedSequenceNumber => match facts.data_sequence_number {
            None => Err(ConnectorError::Corrupt(CorruptData::RowSequenceMissing)),
            Some(sequence) => Ok(
                Column::Flat {
                    data_type: DataType::Int64,
                    cells: repeated_long(sequence, row_count),
                },
            ),
        },
        IcebergMetadataColumn::FileModifiedTime | IcebergMetadataColumn::IsDeleted => Err(
            ConnectorError::Unsupported(UnsupportedFeature::MetadataColumn),
        ),
    }
}

/// Rows at different positions of a file have different ids, in the order of their positions.
pub proof fn law_row_ids_follow_positions(first_row_id: i64, left: u64, right: u64)
    requires
        left < right,
        row_id(first_row_id, Some(left)) is Ok,
        row_id(first_row_id, Some(right)) is Ok,
    ensures
        row_id(first_row_id, Some(left))->Ok_0 < row_id(first_row_id, Some(right))->Ok_0,
{
}

} // verus!
