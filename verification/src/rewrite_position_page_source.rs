//! The pages of a rewrite of position-delete files.
//!
//! No data file is opened. The input is the deletion vectors that were selected for one data file;
//! the output is what a position-delete file holds: the path of the data file and the position of
//! each deleted row. Positions are written again, never derived again, so which rows are removed
//! does not change.

use vstd::prelude::*;
use vstd::utf8::encode_utf8;

use roaring::RoaringTreemap;

use crate::carrier::{duplicate_text, text_model, DataType, DataTypeModel};
use crate::column::{cell_models, column_models, new_cells, new_columns, push_cell, push_column, Cell, CellModel, Column, ColumnModel};
use crate::column_handle::{ColumnHandleModel, IcebergColumnHandle};
use crate::delete_closure::IcebergDeleteFileSpec;
use crate::error::{ConnectorError, InvalidRequest};
use crate::metadata_column::IcebergMetadataColumn;
use crate::positions::{ascending_positions, lists, positions_of};
use crate::split::{IcebergDeleteFile, IcebergDeleteFileContent, IcebergFileFormat};
use crate::system_page_source::PageSourceMetrics;

verus! {

/// Which of the two output columns a channel carries.
#[derive(Clone, Copy, Debug, PartialEq, Eq, Structural)]
pub enum RewritePositionOutput {
    FilePath,
    Position,
}

/// The output that a column stands for, or why it stands for none.
pub open spec fn output_of(column: ColumnHandleModel) -> Result<RewritePositionOutput, ConnectorError> {
    if column.field_id_path.len() > 0 {
        Err(ConnectorError::Invalid(InvalidRequest::RewriteOutputNested))
    } else {
        match IcebergMetadataColumn::of_id(column.base_field_id) {
            Some(IcebergMetadataColumn::Path) => if column.base_name == "file_path"@ {
                Ok(RewritePositionOutput::FilePath)
            } else {
                Err(ConnectorError::Invalid(InvalidRequest::RewriteOutputName))
            },
            Some(IcebergMetadataColumn::RowPosition) => if column.base_name == "pos"@ {
                Ok(RewritePositionOutput::Position)
            } else {
                Err(ConnectorError::Invalid(InvalidRequest::RewriteOutputName))
            },
            _ => Err(ConnectorError::Invalid(InvalidRequest::RewriteOutputUnknown)),
        }
    }
}

fn resolve_output(column: &IcebergColumnHandle) -> (output: Result<RewritePositionOutput, ConnectorError>)
    ensures
        output == output_of(column.model()),
{
    if !column.is_base_column() {
        return Err(ConnectorError::Invalid(InvalidRequest::RewriteOutputNested));
    }
    match IcebergMetadataColumn::from_field_id(column.base_field_id) {
        Some(IcebergMetadataColumn::Path) => {
            if crate::relation_columns::is_named(&column.base_name, "file_path") {
                Ok(RewritePositionOutput::FilePath)
            } else {
                Err(ConnectorError::Invalid(InvalidRequest::RewriteOutputName))
            }
        },
        Some(IcebergMetadataColumn::RowPosition) => {
            if crate::relation_columns::is_named(&column.base_name, "pos") {
                Ok(RewritePositionOutput::Position)
            } else {
                Err(ConnectorError::Invalid(InvalidRequest::RewriteOutputName))
            }
        },
        _ => Err(ConnectorError::Invalid(InvalidRequest::RewriteOutputUnknown)),
    }
}

/// The outputs of the first `n` columns of a scan, or why one has none.
pub open spec fn outputs_of(columns: Seq<IcebergColumnHandle>, n: nat) -> Result<Seq<RewritePositionOutput>, ConnectorError>
    decreases n,
{
    if n == 0 || n > columns.len() {
        Ok(seq![])
    } else {
        match outputs_of(columns, (n - 1) as nat) {
            Err(error) => Err(error),
            Ok(before) => match output_of(columns[n - 1].model()) {
                Err(error) => Err(error),
                Ok(output) => Ok(before.push(output)),
            },
        }
    }
}

proof fn lemma_outputs_error(columns: Seq<IcebergColumnHandle>, n: nat)
    requires
        n <= columns.len(),
        outputs_of(columns, n) is Err,
    ensures
        outputs_of(columns, columns.len()) == outputs_of(columns, n),
    decreases columns.len() - n,
{
    if n < columns.len() {
        lemma_outputs_error(columns, n + 1);
    }
}

/// Resolve the columns of a scan, in their order. A column that this reader cannot produce is
/// refused rather than filled with nulls.
pub fn resolve_outputs(columns: &Vec<IcebergColumnHandle>) -> (outputs: Result<Vec<RewritePositionOutput>, ConnectorError>)
    ensures
        match outputs_of(columns@, columns@.len()) {
            Ok(list) => outputs is Ok && outputs->Ok_0@ == list,
            Err(error) => outputs == Err::<Vec<RewritePositionOutput>, ConnectorError>(error),
        },
{
    let mut outputs: Vec<RewritePositionOutput> = Vec::new();
    let mut i: usize = 0;
    while i < columns.len()
        invariant
            i <= columns.len(),
            outputs_of(columns@, i as nat) == Ok::<Seq<RewritePositionOutput>, ConnectorError>(
                outputs@,
            ),
        decreases columns.len() - i,
    {
        match resolve_output(&columns[i]) {
            Ok(output) => outputs.push(output),
            Err(error) => {
                proof {
                    lemma_outputs_error(columns@, (i + 1) as nat);
                }
                return Err(error);
            },
        }
        i += 1;
    }
    Ok(outputs)
}

/// Why a selected deletion vector cannot be read.
pub open spec fn vector_fault(delete: IcebergDeleteFile) -> Option<ConnectorError> {
    if delete.content_offset is None {
        Some(ConnectorError::Invalid(InvalidRequest::VectorWithoutOffset))
    } else if delete.content_size_in_bytes is None {
        Some(ConnectorError::Invalid(InvalidRequest::VectorWithoutSize))
    } else {
        None
    }
}

/// Whether a spec names the content range of a deletion vector. A size that is no byte count is
/// left out.
pub open spec fn is_vector_spec(spec: IcebergDeleteFileSpec, delete: IcebergDeleteFile) -> bool {
    &&& spec.path@ == delete.path@
    &&& spec.file_format == IcebergFileFormat::Puffin
    &&& spec.file_content == IcebergDeleteFileContent::PositionDeletes
    &&& if delete.file_size_in_bytes >= 0 {
        spec.length == Some(delete.file_size_in_bytes as u64)
    } else {
        spec.length is None
    }
    &&& spec.content_offset == delete.content_offset
    &&& spec.content_size_in_bytes == delete.content_size_in_bytes
    &&& text_model(spec.referenced_data_file) == text_model(delete.referenced_data_file)
}

/// The content ranges that a split selected, in their order.
pub fn selected_delete_specs(deletes: &Vec<IcebergDeleteFile>) -> (specs: Result<Vec<IcebergDeleteFileSpec>, ConnectorError>)
    ensures
        match specs {
            Ok(specs) => {
                &&& specs@.len() == deletes@.len()
                &&& forall|i: int|
                    0 <= i < deletes@.len() ==> vector_fault(#[trigger] deletes@[i]) is None
                &&& forall|i: int|
                    0 <= i < deletes@.len() ==> is_vector_spec(#[trigger] specs@[i], deletes@[i])
            },
            Err(error) => exists|i: int|
                0 <= i < deletes@.len() && vector_fault(#[trigger] deletes@[i]) == Some(error)
                    && forall|k: int|
                    0 <= k < i ==> vector_fault(#[trigger] deletes@[k]) is None,
        },
{
    let mut specs: Vec<IcebergDeleteFileSpec> = Vec::new();
    let mut i: usize = 0;
    while i < deletes.len()
        invariant
            i <= deletes.len(),
            specs@.len() == i,
            forall|k: int| 0 <= k < i ==> is_vector_spec(#[trigger] specs@[k], deletes@[k]),
            forall|k: int| 0 <= k < i ==> vector_fault(#[trigger] deletes@[k]) is None,
        decreases deletes.len() - i,
    {
        let delete = &deletes[i];
        if delete.content_offset.is_none() {
            assert(vector_fault(deletes@[i as int]) is Some);
            return Err(ConnectorError::Invalid(InvalidRequest::VectorWithoutOffset));
        }
        if delete.content_size_in_bytes.is_none() {
            assert(vector_fault(deletes@[i as int]) is Some);
            return Err(ConnectorError::Invalid(InvalidRequest::VectorWithoutSize));
        }
        let length: Option<u64> = if delete.file_size_in_bytes >= 0 {
            Some(delete.file_size_in_bytes as u64)
        } else {
            None
        };
        specs.push(
            IcebergDeleteFileSpec {
                path: delete.path.clone(),
                file_format: IcebergFileFormat::Puffin,
                file_content: IcebergDeleteFileContent::PositionDeletes,
                length,
                content_offset: delete.content_offset,
                content_size_in_bytes: delete.content_size_in_bytes,
                referenced_data_file: duplicate_text(&delete.referenced_data_file),
            },
        );
        i += 1;
    }
    Ok(specs)
}

/// What a rewrite split names: one data file and the vectors selected for it.
pub struct IcebergRewritePositionDeleteFilesSplit {
    pub data_file_path: String,
    pub selected_position_deletes: Vec<IcebergDeleteFile>,
}

/// The frozen facts that one rewrite stream reads. Channel `i` is produced for `columns[i]`.
pub struct IcebergRewritePositionDeleteFilesPageSourceRequest<'a> {
    pub split: &'a IcebergRewritePositionDeleteFilesSplit,
    pub columns: &'a Vec<IcebergColumnHandle>,
}

/// What the first poll of a rewrite stream loads.
pub struct RewriteLoad {
    pub outputs: Vec<RewritePositionOutput>,
    pub specs: Vec<IcebergDeleteFileSpec>,
}

/// Decide what a rewrite stream loads and produces, without reading anything: columns first, then
/// the selected vectors.
pub fn create_iceberg_rewrite_position_delete_files_page_stream(
    request: &IcebergRewritePositionDeleteFilesPageSourceRequest<'_>,
) -> (load: Result<RewriteLoad, ConnectorError>)
    ensures
        match outputs_of(request.columns@, request.columns@.len()) {
            Err(error) => load == Err::<RewriteLoad, ConnectorError>(error),
            Ok(outputs) => match load {
                Ok(load) => {
                    &&& load.outputs@ == outputs
                    &&& load.specs@.len() == request.split.selected_position_deletes@.len()
                    &&& forall|i: int|
                        0 <= i < load.specs@.len() ==> vector_fault(
                            #[trigger] request.split.selected_position_deletes@[i],
                        ) is None
                    &&& forall|i: int|
                        0 <= i < load.specs@.len() ==> is_vector_spec(
                            #[trigger] load.specs@[i],
                            request.split.selected_position_deletes@[i],
                        )
                },
                Err(error) => exists|i: int|
                    0 <= i < request.split.selected_position_deletes@.len() && vector_fault(
                        #[trigger] request.split.selected_position_deletes@[i],
                    ) == Some(error) && forall|k: int|
                        0 <= k < i ==> vector_fault(
                            #[trigger] request.split.selected_position_deletes@[k],
                        ) is None,
            },
        },
{
    let outputs = match resolve_outputs(request.columns) {
        Ok(outputs) => outputs,
        Err(error) => return Err(error),
    };
    let specs = match selected_delete_specs(&request.split.selected_position_deletes) {
        Ok(specs) => specs,
        Err(error) => return Err(error),
    };
    Ok(RewriteLoad { outputs, specs })
}

/// The bytes of the first `n` content ranges. A size below zero counts for nothing.
pub open spec fn content_bytes(specs: Seq<IcebergDeleteFileSpec>, n: nat) -> nat
    decreases n,
{
    if n == 0 || n > specs.len() {
        0
    } else {
        content_bytes(specs, (n - 1) as nat) + match specs[n - 1].content_size_in_bytes {
            Some(size) => if size >= 0 {
                size as nat
            } else {
                0
            },
            None => 0,
        }
    }
}

proof fn lemma_content_bytes_grow(specs: Seq<IcebergDeleteFileSpec>, n: nat)
    requires
        n <= specs.len(),
    ensures
        content_bytes(specs, n) <= content_bytes(specs, specs.len()),
    decreases specs.len() - n,
{
    if n < specs.len() {
        lemma_content_bytes_grow(specs, n + 1);
    }
}

/// The positions of one split, written again.
pub struct IcebergRewritePositionDeleteFilesPageSource {
    pub data_file_path: String,
    pub outputs: Vec<RewritePositionOutput>,
    /// The positions of all selected vectors, ascending.
    pub rows: Vec<i64>,
    pub next_row: usize,
    pub max_page_rows: usize,
    pub bytes_read: u64,
}

/// Whether rows are exactly a set of positions, ascending, each once.
pub open spec fn rows_list(rows: Seq<i64>, positions: Set<u64>) -> bool {
    &&& forall|i: int, j: int| 0 <= i < j < rows.len() ==> rows[i] < rows[j]
    &&& forall|i: int|
        0 <= i < rows.len() ==> #[trigger] rows[i] >= 0 && positions.contains(rows[i] as u64)
    &&& forall|position: u64| #[trigger]
        positions.contains(position) ==> position <= i64::MAX && rows.contains(position as i64)
}

/// The column of one output for some rows.
pub open spec fn output_column(output: RewritePositionOutput, path: Seq<char>, rows: Seq<i64>) -> ColumnModel {
    match output {
        RewritePositionOutput::FilePath => ColumnModel::Flat {
            data_type: DataTypeModel::Utf8,
            cells: rows.map_values(|row: i64| CellModel::Text(path)),
        },
        RewritePositionOutput::Position => ColumnModel::Flat {
            data_type: DataTypeModel::Int64,
            cells: rows.map_values(|row: i64| CellModel::Int64(row)),
        },
    }
}

/// One page: its number of rows and its columns, one for each output.
pub struct RewritePage {
    pub rows: usize,
    pub columns: Vec<Column>,
}

impl IcebergRewritePositionDeleteFilesPageSource {
    pub open spec fn wf(self) -> bool {
        self.max_page_rows > 0 && self.next_row <= self.rows@.len()
    }

    /// The positions of every selected vector, merged, as the rows of pages. A position that no
    /// signed column can hold is refused.
    pub fn of(
        data_file_path: &String,
        outputs: Vec<RewritePositionOutput>,
        specs: &Vec<IcebergDeleteFileSpec>,
        positions: &RoaringTreemap,
        max_page_rows: usize,
    ) -> (source: Result<IcebergRewritePositionDeleteFilesPageSource, ConnectorError>)
        requires
            max_page_rows > 0,
            content_bytes(specs@, specs@.len()) <= u64::MAX,
        ensures
            match source {
                Ok(source) => {
                    &&& source.wf()
                    &&& source.data_file_path@ == data_file_path@
                    &&& source.outputs == outputs
                    &&& rows_list(source.rows@, positions_of(*positions))
                    &&& source.next_row == 0
                    &&& source.max_page_rows == max_page_rows
                    &&& source.bytes_read == content_bytes(specs@, specs@.len())
                },
                Err(error) => {
                    &&& error == ConnectorError::Invalid(InvalidRequest::VectorPositionBeyondInt64)
                    &&& exists|position: u64| #[trigger]
                        positions_of(*positions).contains(position) && position > i64::MAX
                },
            },
    {
        let mut bytes_read: u64 = 0;
        let mut s: usize = 0;
        while s < specs.len()
            invariant
                s <= specs.len(),
                content_bytes(specs@, specs@.len()) <= u64::MAX,
                bytes_read == content_bytes(specs@, s as nat),
            decreases specs.len() - s,
        {
            proof {
                lemma_content_bytes_grow(specs@, (s + 1) as nat);
            }
            if let Some(size) = specs[s].content_size_in_bytes {
                if size >= 0 {
                    bytes_read = bytes_read + size as u64;
                }
            }
            s += 1;
        }
        let list = ascending_positions(positions);
        let ghost set = positions_of(*positions);
        let mut rows: Vec<i64> = Vec::new();
        let mut i: usize = 0;
        while i < list.len()
            invariant
                i <= list.len(),
                set == positions_of(*positions),
                lists(list@, set),
                rows@.len() == i,
                forall|k: int|
                    0 <= k < i ==> list@[k] <= i64::MAX && #[trigger] rows@[k] == list@[k],
            decreases list.len() - i,
        {
            let position: u64 = list[i];
            if position > i64::MAX as u64 {
                assert(list@.contains(position));
                assert(set.contains(position));
                return Err(ConnectorError::Invalid(InvalidRequest::VectorPositionBeyondInt64));
            }
            rows.push(position as i64);
            i += 1;
        }
        proof {
            assert forall|a: int, b: int| 0 <= a < b < rows@.len() implies rows@[a] < rows@[b] by {
                assert(list@[a] < list@[b]);
            }
            assert forall|k: int| 0 <= k < rows@.len() implies #[trigger] rows@[k] >= 0
                && set.contains(rows@[k] as u64) by {
                assert(list@.contains(list@[k]));
                assert(rows@[k] as u64 == list@[k]);
            }
            assert forall|position: u64| #[trigger] set.contains(position) implies position
                <= i64::MAX && rows@.contains(position as i64) by {
                assert(list@.contains(position));
                let k = choose|k: int| 0 <= k < list@.len() && list@[k] == position;
                assert(rows@[k] == list@[k]);
                assert(rows@[k] == position as i64);
            }
        }
        Ok(
            IcebergRewritePositionDeleteFilesPageSource {
                data_file_path: data_file_path.clone(),
                outputs,
                rows,
                next_row: 0,
                max_page_rows,
                bytes_read,
            },
        )
    }

    /// One past the last row of the next page.
    pub open spec fn page_end(self) -> int {
        if self.rows@.len() - self.next_row <= self.max_page_rows {
            self.rows@.len() as int
        } else {
            self.next_row + self.max_page_rows
        }
    }

    fn column_of(&self, output: RewritePositionOutput, end: usize) -> (column: Column)
        requires
            self.next_row <= end <= self.rows@.len(),
        ensures
            column.model() == output_column(
                output,
                self.data_file_path@,
                self.rows@.subrange(self.next_row as int, end as int),
            ),
    {
        let ghost start = self.next_row as int;
        let ghost path = self.data_file_path@;
        let ghost expected = match output {
            RewritePositionOutput::FilePath => self.rows@.subrange(start, end as int).map_values(
                |row: i64| CellModel::Text(path),
            ),
            RewritePositionOutput::Position => self.rows@.subrange(start, end as int).map_values(
                |row: i64| CellModel::Int64(row),
            ),
        };
        let mut cells = new_cells();
        let mut i: usize = self.next_row;
        assert(cell_models(cells@) =~= expected.take(0));
        while i < end
            invariant
                start == self.next_row,
                path == self.data_file_path@,
                start <= i <= end <= self.rows@.len(),
                expected == (match output {
                    RewritePositionOutput::FilePath => self.rows@.subrange(
                        start,
                        end as int,
                    ).map_values(|row: i64| CellModel::Text(path)),
                    RewritePositionOutput::Position => self.rows@.subrange(
                        start,
                        end as int,
                    ).map_values(|row: i64| CellModel::Int64(row)),
                }),
                cell_models(cells@) == expected.take(i - start),
            decreases end - i,
        {
            let cell = match output {
                RewritePositionOutput::FilePath => Cell::Text(self.data_file_path.clone()),
                RewritePositionOutput::Position => Cell::Int64(self.rows[i]),
            };
            let ghost made = cell.model();
            push_cell(&mut cells, cell);
            assert(expected[i - start] == made);
            assert(expected.take(i - start + 1) =~= expected.take(i - start).push(made));
            i += 1;
        }
        assert(expected.take(end - start) =~= expected);
        let data_type = match output {
            RewritePositionOutput::FilePath => DataType::Utf8,
            RewritePositionOutput::Position => DataType::Int64,
        };
        Column::Flat { data_type, cells }
    }

    /// The next page, where there is one.
    pub fn next_page(&mut self) -> (page: Option<RewritePage>)
        requires
            old(self).wf(),
        ensures
            final(self).wf(),
            *final(self) == (IcebergRewritePositionDeleteFilesPageSource {
                next_row: if old(self).next_row >= old(self).rows@.len() {
                    old(self).next_row
                } else {
                    old(self).page_end() as usize
                },
                ..*old(self)
            }),
            match page {
                None => old(self).next_row >= old(self).rows@.len(),
                Some(page) => {
                    &&& old(self).next_row < old(self).rows@.len()
                    &&& page.rows == old(self).page_end() - old(self).next_row
                    &&& page.rows > 0
                    &&& column_models(page.columns@) == old(self).outputs@.map_values(
                        |output: RewritePositionOutput|
                            output_column(
                                output,
                                old(self).data_file_path@,
                                old(self).rows@.subrange(
                                    old(self).next_row as int,
                                    old(self).page_end(),
                                ),
                            ),
                    )
                },
            },
    {
        if self.is_exhausted() {
            return None;
        }
        let remaining: usize = self.rows.len() - self.next_row;
        let end: usize = if remaining <= self.max_page_rows {
            self.rows.len()
        } else {
            self.next_row + self.max_page_rows
        };
        let ghost chunk = self.rows@.subrange(self.next_row as int, end as int);
        let ghost path = self.data_file_path@;
        let ghost expected = self.outputs@.map_values(
            |output: RewritePositionOutput| output_column(output, path, chunk),
        );
        let mut columns = new_columns();
        let mut i: usize = 0;
        assert(column_models(columns@) =~= expected.take(0));
        while i < self.outputs.len()
            invariant
                i <= self.outputs.len(),
                *self == *old(self),
                self.next_row <= end <= self.rows@.len(),
                chunk == self.rows@.subrange(self.next_row as int, end as int),
                path == self.data_file_path@,
                expected == self.outputs@.map_values(
                    |output: RewritePositionOutput| output_column(output, path, chunk),
                ),
                column_models(columns@) == expected.take(i as int),
            decreases self.outputs.len() - i,
        {
            let column = self.column_of(self.outputs[i], end);
            let ghost made = column.model();
            push_column(&mut columns, column);
            assert(expected[i as int] == made);
            assert(expected.take(i + 1) =~= expected.take(i as int).push(made));
            i += 1;
        }
        assert(expected.take(i as int) =~= expected);
        let rows: usize = end - self.next_row;
        self.next_row = end;
        Some(RewritePage { rows, columns })
    }

    pub fn is_exhausted(&self) -> (exhausted: bool)
        ensures
            exhausted == (self.next_row >= self.rows@.len()),
    {
        self.next_row >= self.rows.len()
    }

    pub fn metrics(&self) -> (metrics: PageSourceMetrics)
        ensures
            metrics == (PageSourceMetrics {
                completed_bytes: self.bytes_read,
                completed_positions: self.next_row as u64,
                read_time_nanos: 0,
            }),
    {
        PageSourceMetrics {
            completed_bytes: self.bytes_read,
            completed_positions: self.next_row as u64,
            read_time_nanos: 0,
        }
    }

    /// The bytes that the rows and the path take: both are in memory, so their sum fits it.
    pub fn memory_usage_bytes(&self) -> (bytes: u64)
        requires
            self.rows@.len() * 8 + encode_utf8(self.data_file_path@).len() <= usize::MAX,
        ensures
            bytes == self.rows@.len() * 8 + encode_utf8(self.data_file_path@).len(),
    {
        (self.rows.len() * 8 + self.data_file_path.as_str().len()) as u64
    }
}

/// The pages of a source put end to end are its rows: each page begins where the one before ended.
pub proof fn law_rewrite_pages_tile_the_rows(source: IcebergRewritePositionDeleteFilesPageSource)
    requires
        source.wf(),
        source.next_row < source.rows@.len(),
    ensures
        source.next_row < source.page_end() <= source.rows@.len(),
        source.rows@.take(source.next_row as int) + source.rows@.subrange(
            source.next_row as int,
            source.page_end(),
        ) == source.rows@.take(source.page_end()),
{
    assert(source.rows@.take(source.next_row as int) + source.rows@.subrange(
        source.next_row as int,
        source.page_end(),
    ) =~= source.rows@.take(source.page_end()));
}

/// Which rows a rewrite names does not depend on how the vectors were cut: two sets of positions
/// that are equal are written as the same rows.
pub proof fn law_equal_positions_are_written_alike(left: Seq<i64>, right: Seq<i64>, positions: Set<u64>)
    requires
        rows_list(left, positions),
        rows_list(right, positions),
    ensures
        left == right,
    decreases left.len(),
{
    if left.len() == 0 {
        if right.len() > 0 {
            assert(positions.contains(right[0] as u64));
            assert(left.contains((right[0] as u64) as i64));
        }
        assert(left =~= right);
    } else {
        assert(positions.contains(left.last() as u64));
        assert(right.contains((left.last() as u64) as i64));
        assert(right.len() > 0);
        assert(positions.contains(right.last() as u64));
        assert(left.contains((right.last() as u64) as i64));
        let a = choose|a: int| 0 <= a < right.len() && right[a] == left.last();
        let b = choose|b: int| 0 <= b < left.len() && left[b] == right.last();
        if a < right.len() - 1 {
            assert(right[a] < right[right.len() - 1]);
            if b < left.len() - 1 {
                assert(left[b] < left[left.len() - 1]);
            }
        }
        if b < left.len() - 1 {
            assert(left[b] < left[left.len() - 1]);
        }
        assert(left.last() == right.last());
        let last = left.last();
        let rest = positions.remove(last as u64);
        lemma_shorter_list(left, positions);
        lemma_shorter_list(right, positions);
        law_equal_positions_are_written_alike(left.drop_last(), right.drop_last(), rest);
        assert(left =~= left.drop_last().push(last));
        assert(right =~= right.drop_last().push(last));
    }
}

proof fn lemma_shorter_list(rows: Seq<i64>, positions: Set<u64>)
    requires
        rows_list(rows, positions),
        rows.len() > 0,
    ensures
        rows_list(rows.drop_last(), positions.remove(rows.last() as u64)),
{
    let shorter = rows.drop_last();
    let rest = positions.remove(rows.last() as u64);
    assert forall|i: int| 0 <= i < shorter.len() implies #[trigger] shorter[i] >= 0
        && rest.contains(shorter[i] as u64) by {
        assert(rows[i] >= 0 && rows[i] < rows[rows.len() - 1]);
        assert(rows[rows.len() - 1] >= 0);
    }
    assert forall|position: u64| #[trigger] rest.contains(position) implies position <= i64::MAX
        && shorter.contains(position as i64) by {
        assert(positions.contains(position));
        let k = choose|k: int| 0 <= k < rows.len() && rows[k] == position as i64;
        assert(rows[rows.len() - 1] >= 0);
        if k == rows.len() - 1 {
            assert(rows.last() as u64 == position);
        } else {
            assert(shorter[k] == position as i64);
        }
    }
}

} // verus!
