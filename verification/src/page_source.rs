//! One split, one page source.
//!
//! The columns of the scan are the output prefix of a page. Whatever the delete filter needs is a
//! hidden suffix, which is dropped once the deletes and the remaining predicate have judged the
//! complete page. That there is no page right now does not end a source: only being finished does.

use vstd::prelude::*;

use crate::carrier::Field;
use crate::column::Column;
use crate::column_handle::{handle_models, ColumnHandleModel, IcebergColumnHandle};
use crate::delete_filter::{equality_removes, keeps_row, page_fault, PageMasks, SplitDeleteFilter};
use crate::domain::{evaluate_domain, row_in_domain, Domain, Memberships};
use crate::dynamic_filter::{consult_dynamic_filter, DynamicFilterCheckpoint, DynamicFilterObservation, DynamicFilterVerdict};
use crate::error::{ConnectorError, CorruptData, InvalidRequest, UnsupportedFeature};
use crate::metadata_column::{positions_model, IcebergSplitFacts, SplitFactsModel};
use crate::partition_only::{fileless_facts, is_constant_of, is_partition_only, try_partition_only_page_source, IcebergPartitionOnlyPageSource, IcebergPageSourceRequest};
use crate::preparation::FileReadRange;
use crate::row_positions::{window_after, ReaderPageSourceWithRowPositions};
use crate::schema_binding::{ids_of, indexed, is_step_of, needs_positions, request_column, step_fault, ColumnStep, FileFieldIdCoverage, IcebergSchemaBinding};
use crate::seqs::duplicate_ids;
use crate::split::{IcebergFileFormat, IcebergSplit, ParquetFileDecryptionData};
use crate::system_page_source::PageSourceMetrics;
use crate::text::{is_json, parses_as_json};
use crate::value::Literal;

verus! {

// ---------------------------------------------------------------------------
// Admission
// ---------------------------------------------------------------------------

/// Why a data file of a format is not read.
pub open spec fn format_fault(format: IcebergFileFormat) -> Option<ConnectorError> {
    match format {
        IcebergFileFormat::Parquet => None,
        IcebergFileFormat::Orc => Some(ConnectorError::Unsupported(UnsupportedFeature::OrcDataFile)),
        IcebergFileFormat::Avro => Some(
            ConnectorError::Unsupported(UnsupportedFeature::AvroDataFile),
        ),
        IcebergFileFormat::Puffin => Some(ConnectorError::Invalid(InvalidRequest::PuffinDataSplit)),
    }
}

/// A failure as a result.
pub open spec fn unless(fault: Option<ConnectorError>) -> Result<(), ConnectorError> {
    match fault {
        Some(error) => Err(error),
        None => Ok(()),
    }
}

/// Parquet is read; the other formats are refused rather than read in part.
pub fn admit_file_format(format: IcebergFileFormat) -> (result: Result<(), ConnectorError>)
    ensures
        result == unless(format_fault(format)),
{
    match format {
        IcebergFileFormat::Parquet => Ok(()),
        IcebergFileFormat::Orc => Err(ConnectorError::Unsupported(UnsupportedFeature::OrcDataFile)),
        IcebergFileFormat::Avro => Err(
            ConnectorError::Unsupported(UnsupportedFeature::AvroDataFile),
        ),
        IcebergFileFormat::Puffin => Err(ConnectorError::Invalid(InvalidRequest::PuffinDataSplit)),
    }
}

/// Whether there is any key material at all.
pub open spec fn is_encrypted(material: Option<ParquetFileDecryptionData>) -> bool {
    material is Some && (material->0.key_metadata@.len() > 0 || material->0.aad_prefix@.len() > 0)
}

/// Modular encryption is not read. The failure says which kind of file has the material and
/// nothing of the material itself.
pub fn reject_encryption_material(
    material: &Option<ParquetFileDecryptionData>,
    feature: UnsupportedFeature,
) -> (result: Result<(), ConnectorError>)
    ensures
        result == (if is_encrypted(*material) {
            Err(ConnectorError::Unsupported(feature))
        } else {
            Ok(())
        }),
{
    match material {
        None => Ok(()),
        Some(held) => {
            if held.key_metadata.len() == 0 && held.aad_prefix.len() == 0 {
                Ok(())
            } else {
                Err(ConnectorError::Unsupported(feature))
            }
        },
    }
}

/// Why a split is not read at all: its format, the encryption of its data file, or that of one of
/// its deletes, in this order.
pub open spec fn split_fault(split: IcebergSplit) -> Option<ConnectorError> {
    if format_fault(split.file_format) is Some {
        format_fault(split.file_format)
    } else if is_encrypted(split.decryption_data) {
        Some(ConnectorError::Unsupported(UnsupportedFeature::DataFileDecryption))
    } else if exists|i: int|
        0 <= i < split.deletes@.len() && is_encrypted(
            (#[trigger] split.deletes@[i]).decryption_data,
        ) {
        Some(ConnectorError::Unsupported(UnsupportedFeature::DeleteFileDecryption))
    } else {
        None
    }
}

/// Decide whether a split is read at all.
pub fn admit_split(split: &IcebergSplit) -> (result: Result<(), ConnectorError>)
    ensures
        result == unless(split_fault(*split)),
{
    if let Err(error) = admit_file_format(split.file_format) {
        return Err(error);
    }
    if let Err(error) = reject_encryption_material(
        &split.decryption_data,
        UnsupportedFeature::DataFileDecryption,
    ) {
        return Err(error);
    }
    let mut i: usize = 0;
    while i < split.deletes.len()
        invariant
            i <= split.deletes.len(),
            format_fault(split.file_format) is None,
            !is_encrypted(split.decryption_data),
            forall|k: int|
                0 <= k < i ==> !is_encrypted((#[trigger] split.deletes@[k]).decryption_data),
        decreases split.deletes.len() - i,
    {
        if let Err(error) = reject_encryption_material(
            &split.deletes[i].decryption_data,
            UnsupportedFeature::DeleteFileDecryption,
        ) {
            assert(is_encrypted(split.deletes@[i as int].decryption_data));
            return Err(error);
        }
        i += 1;
    }
    Ok(())
}

/// What the partition data of a split comes to under the partition type of its spec.
pub enum PartitionLiteral {
    /// It has no value of that type.
    Undecodable,
    Struct(Vec<Option<Literal>>),
    /// It is absent, or no struct.
    Other,
}

/// The partition values of a split, given whether its spec binds to the table schema, whether its
/// partition data is JSON at all, and what the data comes to. A partition struct is never absent:
/// a file without partitions has an empty one.
pub fn partition_values_of(spec_binds: bool, data_is_json: bool, literal: PartitionLiteral) -> (values: Result<Vec<Option<Literal>>, ConnectorError>)
    ensures
        values == (if !spec_binds {
            Err(ConnectorError::Invalid(InvalidRequest::PartitionSpecDoesNotBind))
        } else if !data_is_json {
            Err(ConnectorError::Corrupt(CorruptData::PartitionDataJson))
        } else {
            match literal {
                PartitionLiteral::Undecodable => Err(
                    ConnectorError::Corrupt(CorruptData::PartitionDataLiteral),
                ),
                PartitionLiteral::Other => Err(
                    ConnectorError::Corrupt(CorruptData::PartitionDataNotStruct),
                ),
                PartitionLiteral::Struct(list) => Ok(list),
            }
        }),
{
    if !spec_binds {
        return Err(ConnectorError::Invalid(InvalidRequest::PartitionSpecDoesNotBind));
    }
    if !data_is_json {
        return Err(ConnectorError::Corrupt(CorruptData::PartitionDataJson));
    }
    match literal {
        PartitionLiteral::Undecodable => Err(
            ConnectorError::Corrupt(CorruptData::PartitionDataLiteral),
        ),
        PartitionLiteral::Other => Err(ConnectorError::Corrupt(CorruptData::PartitionDataNotStruct)),
        PartitionLiteral::Struct(list) => Ok(list),
    }
}

/// The partition values of a split.
pub fn parse_partition_values(split: &IcebergSplit, spec_binds: bool, literal: PartitionLiteral) -> (values: Result<Vec<Option<Literal>>, ConnectorError>)
    ensures
        values == (if !spec_binds {
            Err(ConnectorError::Invalid(InvalidRequest::PartitionSpecDoesNotBind))
        } else if !is_json(split.partition_data_json@) {
            Err(ConnectorError::Corrupt(CorruptData::PartitionDataJson))
        } else {
            match literal {
                PartitionLiteral::Undecodable => Err(
                    ConnectorError::Corrupt(CorruptData::PartitionDataLiteral),
                ),
                PartitionLiteral::Other => Err(
                    ConnectorError::Corrupt(CorruptData::PartitionDataNotStruct),
                ),
                PartitionLiteral::Struct(list) => Ok(list),
            }
        }),
{
    let data_is_json = parses_as_json(split.partition_data_json.as_str());
    partition_values_of(spec_binds, data_is_json, literal)
}

/// How a split is read.
pub enum PageSourceChoice<'a> {
    /// From the partition values alone.
    PartitionOnly(IcebergPartitionOnlyPageSource<'a>),
    /// From its data file: its deletes are opened next.
    Parquet,
}

/// Decide how a data split is read, without reading anything.
pub fn create_iceberg_page_source<'a>(
    request: &IcebergPageSourceRequest<'_, 'a>,
    max_batch_rows: usize,
    retained_bytes: u64,
) -> (choice: Result<PageSourceChoice<'a>, ConnectorError>)
    requires
        max_batch_rows > 0,
    ensures
        match choice {
            Err(error) => if split_fault(*request.split) is Some {
                split_fault(*request.split) == Some(error)
            } else {
                &&& is_partition_only(*request)
                &&& request.split.file_record_count < 0
                &&& error == ConnectorError::Corrupt(CorruptData::NegativeRecordCount)
            },
            Ok(PageSourceChoice::Parquet) => split_fault(*request.split) is None
                && !is_partition_only(*request),
            Ok(PageSourceChoice::PartitionOnly(source)) => {
                &&& split_fault(*request.split) is None
                &&& is_partition_only(*request)
                &&& request.split.file_record_count >= 0
                &&& source.wf()
                &&& source.constants@.len() == request.columns@.len()
                &&& forall|i: int|
                    0 <= i < source.constants@.len() ==> is_constant_of(
                        #[trigger] source.constants@[i],
                        request_column(fileless_facts(*request)->Ok_0, request.columns@[i])->Ok_0,
                    )
                &&& source.total_rows == request.split.file_record_count
                &&& source.emitted_rows == 0
                &&& source.max_batch_rows == max_batch_rows
                &&& source.retained_bytes == retained_bytes
                &&& !source.closed
            },
        },
{
    if let Err(error) = admit_split(request.split) {
        return Err(error);
    }
    match try_partition_only_page_source(request, max_batch_rows, retained_bytes) {
        Err(error) => Err(error),
        Ok(Some(source)) => Ok(PageSourceChoice::PartitionOnly(source)),
        Ok(None) => Ok(PageSourceChoice::Parquet),
    }
}

// ---------------------------------------------------------------------------
// The Parquet page source
// ---------------------------------------------------------------------------

/// One column domain that the page source still has to prove per row.
#[derive(Clone, Copy, Debug, PartialEq, Eq, Structural)]
pub struct PredicateCheck {
    pub channel: usize,
    pub domain: Domain,
}

/// What an open reader works with.
pub struct OpenReader<'a> {
    pub binding: IcebergSchemaBinding<'a>,
    pub checks: Vec<PredicateCheck>,
    pub positions_required: bool,
}

/// How far the reader of a split has come.
pub enum ReaderState<'a> {
    NotOpened,
    Open(OpenReader<'a>),
    Drained,
}

/// The reader of one split.
pub struct IcebergParquetPageSource<'a> {
    pub split: IcebergSplit,
    /// How many leading channels the scan asked for.
    pub prefix_len: usize,
    /// The columns of the scan, then the hidden suffix of the delete filter.
    pub bound_handles: Vec<IcebergColumnHandle>,
    pub delete_filter: SplitDeleteFilter,
    /// The domains of the effective predicate by their columns; none where no row meets it.
    pub domains: Option<Vec<(IcebergColumnHandle, Domain)>>,
    pub dynamic_filter: DynamicFilterObservation,
    pub state: ReaderState<'a>,
    pub first_row_group_pending: bool,
    pub row_window: ReaderPageSourceWithRowPositions,
    pub completed_bytes: u64,
    pub completed_positions: u64,
    pub read_time_nanos: u64,
    pub retained_bytes: u64,
    pub finished: bool,
    pub closed: bool,
}

/// Which columns of the file are read.
pub enum FileProjection {
    /// All of them: the file has no ids to project by.
    All,
    FieldIds(Vec<i32>),
}

/// How the reader of a split is opened.
pub struct ReadPlan {
    pub projection: FileProjection,
    pub range: FileReadRange,
    /// Whether every batch has to report the positions of its rows.
    pub positions_required: bool,
}

/// One batch of the file: its physical fields, its rows and, where the reader reports them, their
/// absolute positions.
pub struct FileBatch {
    pub fields: Vec<Field>,
    pub rows: usize,
    pub positions: Option<Vec<Option<u64>>>,
}

/// What the program does next for a source.
#[derive(Clone, Copy, Debug, PartialEq, Eq, Structural)]
pub enum SourceAction {
    /// There is no page now, nor will there be one.
    Nothing,
    /// Open the file.
    Open,
    /// Read the next batch.
    ReadBatch(DynamicFilterCheckpoint),
}

/// The size that a split declares of its file.
pub fn declared_file_size(split: &IcebergSplit) -> (size: Result<u64, ConnectorError>)
    ensures
        match size {
            Ok(size) => split.file_size >= 0 && size == split.file_size,
            Err(error) => split.file_size < 0 && error == ConnectorError::Corrupt(
                CorruptData::NegativeFileSize,
            ),
        },
{
    if split.file_size < 0 {
        return Err(ConnectorError::Corrupt(CorruptData::NegativeFileSize));
    }
    Ok(split.file_size as u64)
}

/// The first channel at or after `from` that carries a column.
pub open spec fn channel_of(handles: Seq<ColumnHandleModel>, column: ColumnHandleModel, from: nat) -> Option<nat>
    decreases handles.len() - from,
{
    if from >= handles.len() {
        None
    } else if handles[from as int] == column {
        Some(from)
    } else {
        channel_of(handles, column, from + 1)
    }
}

/// The checks of the first `n` domains of a predicate, or why one cannot be proved.
pub open spec fn predicate_checks(
    handles: Seq<ColumnHandleModel>,
    domains: Seq<(IcebergColumnHandle, Domain)>,
    n: nat,
) -> Result<Seq<PredicateCheck>, ConnectorError>
    decreases n,
{
    if n == 0 || n > domains.len() {
        Ok(seq![])
    } else {
        match predicate_checks(handles, domains, (n - 1) as nat) {
            Err(error) => Err(error),
            Ok(before) => match channel_of(handles, domains[n - 1].0.model(), 0) {
                None => Err(ConnectorError::Unsupported(UnsupportedFeature::PredicateOnUnreadColumn)),
                Some(channel) => Ok(
                    before.push(
                        PredicateCheck { channel: channel as usize, domain: domains[n - 1].1 },
                    ),
                ),
            },
        }
    }
}

proof fn lemma_predicate_checks_error(
    handles: Seq<ColumnHandleModel>,
    domains: Seq<(IcebergColumnHandle, Domain)>,
    n: nat,
)
    requires
        n <= domains.len(),
        predicate_checks(handles, domains, n) is Err,
    ensures
        predicate_checks(handles, domains, domains.len()) == predicate_checks(handles, domains, n),
    decreases domains.len() - n,
{
    if n < domains.len() {
        lemma_predicate_checks_error(handles, domains, n + 1);
    }
}

fn find_channel(handles: &Vec<IcebergColumnHandle>, column: &IcebergColumnHandle) -> (channel: Option<usize>)
    ensures
        match channel_of(handle_models(handles@), column.model(), 0) {
            Some(at) => channel is Some && channel->0 == at,
            None => channel is None,
        },
{
    let ghost models = handle_models(handles@);
    let mut i: usize = 0;
    while i < handles.len()
        invariant
            i <= handles.len(),
            models == handle_models(handles@),
            channel_of(models, column.model(), 0) == channel_of(models, column.model(), i as nat),
        decreases handles.len() - i,
    {
        assert(models[i as int] == handles@[i as int].model());
        if handles[i].same(column) {
            return Some(i);
        }
        i += 1;
    }
    None
}

/// The checks of a whole predicate, or why it cannot be proved: no row meets it, or it constrains
/// a column that the page does not produce.
pub open spec fn source_checks(
    handles: Seq<ColumnHandleModel>,
    domains: Option<Vec<(IcebergColumnHandle, Domain)>>,
) -> Result<Seq<PredicateCheck>, ConnectorError> {
    match domains {
        None => Err(ConnectorError::Invalid(InvalidRequest::UnsatisfiablePredicate)),
        Some(list) => predicate_checks(handles, list@, list@.len()),
    }
}

/// The number of records that a file declares, as a position is compared with it.
pub open spec fn declared_records(count: i64) -> int {
    if count >= 0 {
        count as int
    } else {
        count + 0x1_0000_0000_0000_0000
    }
}

fn unsigned_records(count: i64) -> (records: u64)
    ensures
        records == declared_records(count),
{
    if count >= 0 {
        count as u64
    } else {
        u64::MAX - (-1 - count) as u64
    }
}

/// Why the positions of a batch are refused, and the window afterwards.
pub open spec fn positions_verdict(
    source: IcebergParquetPageSource,
    required: bool,
    positions: Option<Vec<Option<u64>>>,
) -> (Option<ConnectorError>, ReaderPageSourceWithRowPositions) {
    match positions {
        None => (
            if required {
                Some(ConnectorError::Corrupt(CorruptData::RowPositionsNotReported))
            } else {
                None
            },
            source.row_window,
        ),
        Some(list) => match window_after(source.row_window, list@) {
            Err(error) => (Some(error), source.row_window),
            Ok(window) => (
                if window.end_row_position is Some && window.end_row_position->0
                    > declared_records(source.split.file_record_count) {
                    Some(ConnectorError::Corrupt(CorruptData::RowPositionBeyondRecords))
                } else {
                    None
                },
                window,
            ),
        },
    }
}

/// The column of a page that a check is proved on, with what the value set says of each value.
pub struct CheckedColumn {
    pub column: Column,
    pub memberships: Memberships,
}

/// The columns that checks are proved on: each is that of its channel in the page.
pub open spec fn checked_columns(checks: Seq<PredicateCheck>, page: Seq<Column>, memberships: Seq<Memberships>) -> Seq<CheckedColumn> {
    Seq::new(
        checks.len(),
        |c: int| CheckedColumn { column: page[checks[c].channel as int], memberships: memberships[c] },
    )
}

/// Whether the channel of each check is a column of a page of `rows` rows, with what its value set
/// says of each of them.
pub open spec fn checks_fit(
    checks: Seq<PredicateCheck>,
    page: Seq<Column>,
    memberships: Seq<Memberships>,
    rows: nat,
) -> bool {
    &&& memberships.len() == checks.len()
    &&& forall|c: int|
        0 <= c < checks.len() ==> (#[trigger] checks[c]).channel < page.len()
            && page[checks[c].channel as int].model().spec_len() == rows
    &&& forall|c: int| 0 <= c < checks.len() ==> (#[trigger] memberships[c])@.len() == rows
}

/// Whether a row passes one check, or why that cannot be told.
pub open spec fn check_row(check: PredicateCheck, checked: CheckedColumn, row: int) -> Result<bool, ConnectorError> {
    row_in_domain(checked.column.model(), check.domain, checked.memberships@, row)
}

/// Whether one check can be told for every row.
pub open spec fn check_holds(check: PredicateCheck, checked: CheckedColumn, rows: nat) -> bool {
    forall|row: int| 0 <= row < rows ==> #[trigger] check_row(check, checked, row) is Ok
}

/// Whether a failure is the first that one check gives.
pub open spec fn check_fails(check: PredicateCheck, checked: CheckedColumn, rows: nat, error: ConnectorError) -> bool {
    exists|row: int|
        0 <= row < rows && #[trigger] check_row(check, checked, row) == Err::<bool, ConnectorError>(
            error,
        ) && forall|k: int| 0 <= k < row ==> #[trigger] check_row(check, checked, k) is Ok
}

/// Why the deletes cannot judge a page.
pub open spec fn delete_fault(filter: SplitDeleteFilter, batch: FileBatch, masks: PageMasks) -> Option<ConnectorError> {
    if filter.filters_nothing() {
        None
    } else {
        match batch.positions {
            None => Some(ConnectorError::Corrupt(CorruptData::DeletesWithoutPositions)),
            Some(list) => page_fault(filter.verdict, batch.rows as nat, list@, masks),
        }
    }
}

/// Whether the deletes leave a row of a page.
pub open spec fn deletes_leave(filter: SplitDeleteFilter, batch: FileBatch, masks: PageMasks, row: int) -> bool {
    filter.filters_nothing() || keeps_row(
        filter.verdict,
        (batch.positions->0)@[row]->0,
        equality_removes(masks.applied@, row),
        equality_removes(masks.previously@, row),
    )
}

/// Whether a row passes the first `n` checks.
pub open spec fn passes(checks: Seq<PredicateCheck>, checked: Seq<CheckedColumn>, row: int, n: nat) -> bool {
    forall|c: int|
        0 <= c < n ==> check_row(#[trigger] checks[c], checked[c], row) == Ok::<
            bool,
            ConnectorError,
        >(true)
}

/// Whether a list names the rows that a predicate keeps, ascending, each once.
pub open spec fn selects(selected: Seq<usize>, keep: Seq<bool>) -> bool {
    &&& forall|i: int, j: int| 0 <= i < j < selected.len() ==> selected[i] < selected[j]
    &&& forall|i: int|
        0 <= i < selected.len() ==> #[trigger] selected[i] < keep.len() && keep[selected[i] as int]
    &&& forall|row: int| 0 <= row < keep.len() && #[trigger] keep[row] ==> selected.contains(row as usize)
}

/// The rows that survive.
pub fn surviving_positions(keep: &Vec<bool>) -> (selected: Vec<usize>)
    ensures
        selects(selected@, keep@),
{
    let mut selected: Vec<usize> = Vec::new();
    let mut row: usize = 0;
    while row < keep.len()
        invariant
            row <= keep.len(),
            forall|i: int, j: int| 0 <= i < j < selected@.len() ==> selected@[i] < selected@[j],
            forall|i: int|
                0 <= i < selected@.len() ==> #[trigger] selected@[i] < row && keep@[selected@[i] as int],
            forall|k: int| 0 <= k < row && #[trigger] keep@[k] ==> selected@.contains(k as usize),
        decreases keep.len() - row,
    {
        let ghost before = selected@;
        if keep[row] {
            selected.push(row);
            proof {
                assert forall|k: int| 0 <= k < row + 1 && #[trigger] keep@[k] implies selected@.contains(
                    k as usize,
                ) by {
                    if k < row {
                        assert(before.contains(k as usize));
                        let at = choose|at: int| 0 <= at < before.len() && before[at] == k as usize;
                        assert(selected@[at] == k as usize);
                    } else {
                        assert(selected@[before.len() as int] == row);
                    }
                }
            }
        }
        row += 1;
    }
    selected
}

impl<'a> IcebergParquetPageSource<'a> {
    /// A source that has read nothing.
    pub fn new(
        split: IcebergSplit,
        columns: &Vec<IcebergColumnHandle>,
        delete_filter: SplitDeleteFilter,
        domains: Option<Vec<(IcebergColumnHandle, Domain)>>,
        dynamic_filter: DynamicFilterObservation,
        retained_bytes: u64,
    ) -> (source: IcebergParquetPageSource<'a>)
        ensures
            source.split == split,
            source.prefix_len == columns@.len(),
            handle_models(source.bound_handles@) == handle_models(columns@) + handle_models(
                delete_filter.hidden_columns@,
            ),
            source.delete_filter == delete_filter,
            source.domains == domains,
            source.dynamic_filter == dynamic_filter,
            source.state is NotOpened,
            source.first_row_group_pending,
            source.row_window.start_row_position is None,
            source.row_window.end_row_position is None,
            source.completed_bytes == 0,
            source.completed_positions == 0,
            source.read_time_nanos == 0,
            source.retained_bytes == retained_bytes,
            !source.finished,
            !source.closed,
    {
        let mut bound_handles: Vec<IcebergColumnHandle> = Vec::new();
        push_handles(&mut bound_handles, columns);
        push_handles(&mut bound_handles, &delete_filter.hidden_columns);
        assert(handle_models(Seq::<IcebergColumnHandle>::empty()) + handle_models(columns@)
            =~= handle_models(columns@));
        IcebergParquetPageSource {
            split,
            prefix_len: columns.len(),
            bound_handles,
            delete_filter,
            domains,
            dynamic_filter,
            state: ReaderState::NotOpened,
            first_row_group_pending: true,
            row_window: ReaderPageSourceWithRowPositions::new(),
            completed_bytes: 0,
            completed_positions: 0,
            read_time_nanos: 0,
            retained_bytes,
            finished: false,
            closed: false,
        }
    }

    /// Plan how the file is opened. Rows of a part of a file, rows that deletes judge, and row
    /// lineage can only be named by their positions in the file.
    pub fn plan_read(&self, binding: &IcebergSchemaBinding<'a>) -> (plan: Result<ReadPlan, ConnectorError>)
        ensures
            ({
                let whole = self.split.start == 0 && self.split.length == self.split.file_size;
                match plan {
                    Err(error) => !whole && if self.split.start < 0 {
                        error == ConnectorError::Corrupt(CorruptData::NegativeSplitStart)
                    } else {
                        self.split.length < 0 && error == ConnectorError::Corrupt(
                            CorruptData::NegativeSplitLength,
                        )
                    },
                    Ok(plan) => {
                        &&& plan.positions_required == (!whole
                            || !self.delete_filter.filters_nothing() || exists|i: int|
                            0 <= i < binding.columns@.len() && needs_positions(
                                #[trigger] binding.columns@[i],
                            ))
                        &&& match binding.coverage {
                            FileFieldIdCoverage::Absent => plan.projection is All,
                            FileFieldIdCoverage::Complete => plan.projection is FieldIds
                                && plan.projection->FieldIds_0@ == binding.physical_base_field_ids@,
                        }
                        &&& if whole {
                            plan.range == FileReadRange::WholeFile
                        } else {
                            &&& self.split.start >= 0
                            &&& self.split.length >= 0
                            &&& plan.range == (FileReadRange::Bounded {
                                offset: self.split.start as u64,
                                length: self.split.length as u64,
                            })
                        }
                    },
                }
            }),
    {
        match consult_dynamic_filter(&self.dynamic_filter, DynamicFilterCheckpoint::Footer) {
            DynamicFilterVerdict::ReadEverything => {},
        }
        let whole = self.split.is_whole_file();
        let positions_required = !whole || !self.delete_filter.is_empty()
            || binding.requires_row_positions();
        let projection = match binding.coverage {
            FileFieldIdCoverage::Absent => FileProjection::All,
            FileFieldIdCoverage::Complete => FileProjection::FieldIds(
                duplicate_ids(&binding.physical_base_field_ids),
            ),
        };
        let range = if whole {
            FileReadRange::WholeFile
        } else {
            if self.split.start < 0 {
                return Err(ConnectorError::Corrupt(CorruptData::NegativeSplitStart));
            }
            if self.split.length < 0 {
                return Err(ConnectorError::Corrupt(CorruptData::NegativeSplitLength));
            }
            FileReadRange::Bounded {
                offset: self.split.start as u64,
                length: self.split.length as u64,
            }
        };
        Ok(ReadPlan { projection, range, positions_required })
    }

    /// Bind the effective predicate onto the channels of the page. To drop a domain that the page
    /// cannot prove would let rows through that the predicate excludes.
    pub fn build_predicate_checks(&self) -> (checks: Result<Vec<PredicateCheck>, ConnectorError>)
        ensures
            match source_checks(handle_models(self.bound_handles@), self.domains) {
                Ok(list) => checks is Ok && checks->Ok_0@ == list,
                Err(error) => checks == Err::<Vec<PredicateCheck>, ConnectorError>(error),
            },
    {
        match &self.domains {
            None => Err(ConnectorError::Invalid(InvalidRequest::UnsatisfiablePredicate)),
            Some(domains) => {
                let ghost handles = handle_models(self.bound_handles@);
                let mut checks: Vec<PredicateCheck> = Vec::new();
                let mut i: usize = 0;
                while i < domains.len()
                    invariant
                        i <= domains.len(),
                        self.domains == Some(*domains),
                        handles == handle_models(self.bound_handles@),
                        predicate_checks(handles, domains@, i as nat) == Ok::<
                            Seq<PredicateCheck>,
                            ConnectorError,
                        >(checks@),
                    decreases domains.len() - i,
                {
                    let (column, domain) = (&domains[i].0, domains[i].1);
                    match find_channel(&self.bound_handles, column) {
                        Some(channel) => checks.push(PredicateCheck { channel, domain }),
                        None => {
                            proof {
                                lemma_predicate_checks_error(handles, domains@, (i + 1) as nat);
                            }
                            return Err(
                                ConnectorError::Unsupported(
                                    UnsupportedFeature::PredicateOnUnreadColumn,
                                ),
                            );
                        },
                    }
                    i += 1;
                }
                Ok(checks)
            },
        }
    }

    /// The file was opened as planned. A predicate that cannot be proved leaves the source
    /// unopened.
    pub fn opened(&mut self, binding: IcebergSchemaBinding<'a>, positions_required: bool) -> (result: Result<(), ConnectorError>)
        ensures
            match source_checks(handle_models(old(self).bound_handles@), old(self).domains) {
                Err(error) => result == Err::<(), ConnectorError>(error) && *final(self) == *old(self),
                Ok(checks) => {
                    &&& result is Ok
                    &&& final(self).state matches ReaderState::Open(reader)
                    &&& reader.binding == binding
                    &&& reader.checks@ == checks
                    &&& reader.positions_required == positions_required
                    &&& *final(self) == (IcebergParquetPageSource {
                        state: final(self).state,
                        first_row_group_pending: true,
                        ..*old(self)
                    })
                },
            },
    {
        match self.build_predicate_checks() {
            Err(error) => Err(error),
            Ok(checks) => {
                self.state = ReaderState::Open(OpenReader { binding, checks, positions_required });
                self.first_row_group_pending = true;
                Ok(())
            },
        }
    }

    /// What comes next for the source.
    pub open spec fn action(self) -> SourceAction {
        if self.closed || self.finished {
            SourceAction::Nothing
        } else {
            match self.state {
                ReaderState::NotOpened => SourceAction::Open,
                ReaderState::Open(_) => SourceAction::ReadBatch(
                    if self.first_row_group_pending {
                        DynamicFilterCheckpoint::FirstRowGroup
                    } else {
                        DynamicFilterCheckpoint::NextRowGroup
                    },
                ),
                ReaderState::Drained => SourceAction::Nothing,
            }
        }
    }

    /// Decide what comes next. Every batch may cross into a row group that was not read yet, which
    /// is when a tighter dynamic filter could still save the decode.
    pub fn next_action(&mut self) -> (action: SourceAction)
        ensures
            action == old(self).action(),
            *final(self) == (IcebergParquetPageSource {
                finished: old(self).finished || (!old(self).closed && old(self).state is Drained),
                first_row_group_pending: old(self).first_row_group_pending && !(old(
                    self,
                ).action() is ReadBatch),
                ..*old(self)
            }),
    {
        if self.closed || self.finished {
            return SourceAction::Nothing;
        }
        match &self.state {
            ReaderState::NotOpened => SourceAction::Open,
            ReaderState::Open(_) => {
                let checkpoint = if self.first_row_group_pending {
                    DynamicFilterCheckpoint::FirstRowGroup
                } else {
                    DynamicFilterCheckpoint::NextRowGroup
                };
                self.first_row_group_pending = false;
                match consult_dynamic_filter(&self.dynamic_filter, checkpoint) {
                    DynamicFilterVerdict::ReadEverything => SourceAction::ReadBatch(checkpoint),
                }
            },
            ReaderState::Drained => {
                self.finished = true;
                SourceAction::Nothing
            },
        }
    }

    /// The reader has no further batch.
    pub fn drained(&mut self, bytes_read: u64)
        ensures
            *final(self) == (IcebergParquetPageSource {
                completed_bytes: bytes_read,
                finished: true,
                state: ReaderState::Drained,
                ..*old(self)
            }),
    {
        self.completed_bytes = bytes_read;
        self.finished = true;
        self.state = ReaderState::Drained;
    }

    /// Take a batch that the reader produced: its positions have to be there where they are
    /// needed, to follow what was read, and to stay within the records of the file.
    pub fn accept_batch(&mut self, batch: &FileBatch, bytes_read: u64) -> (result: Result<(), ConnectorError>)
        requires
            old(self).state is Open,
        ensures
            ({
                let verdict = positions_verdict(
                    *old(self),
                    (old(self).state->Open_0).positions_required,
                    batch.positions,
                );
                &&& result == unless(verdict.0)
                &&& *final(self) == (IcebergParquetPageSource {
                    completed_bytes: bytes_read,
                    row_window: verdict.1,
                    ..*old(self)
                })
            }),
    {
        self.completed_bytes = bytes_read;
        let required = match &self.state {
            ReaderState::Open(reader) => reader.positions_required,
            _ => false,
        };
        match &batch.positions {
            None => {
                if required {
                    return Err(ConnectorError::Corrupt(CorruptData::RowPositionsNotReported));
                }
            },
            Some(positions) => {
                let mut window = self.row_window;
                if let Err(error) = window.observe(positions) {
                    return Err(error);
                }
                self.row_window = window;
                if let Some(end) = window.end_row_position() {
                    if end > unsigned_records(self.split.file_record_count) {
                        return Err(ConnectorError::Corrupt(CorruptData::RowPositionBeyondRecords));
                    }
                }
            },
        }
        Ok(())
    }

    /// The facts of the split that metadata columns are made of.
    pub fn split_facts(&self) -> (facts: IcebergSplitFacts<'_>)
        ensures
            facts.model() == facts_of_split(self.split),
    {
        IcebergSplitFacts {
            path: self.split.path.as_str(),
            partition_data_json: self.split.partition_data_json.as_str(),
            file_first_row_id: self.split.file_first_row_id,
            data_sequence_number: self.split.data_sequence_number,
        }
    }

    /// Plan the columns of the page of a batch, hidden suffix included.
    pub fn plan_page<'b>(&'b self, batch: &FileBatch) -> (steps: Result<Vec<ColumnStep<'b>>, ConnectorError>)
        requires
            self.state is Open,
        ensures
            is_page_plan(
                (self.state->Open_0).binding,
                *batch,
                facts_of_split(self.split),
                steps,
            ),
    {
        let facts = self.split_facts();
        match &self.state {
            ReaderState::Open(reader) => reader.binding.materialize(
                &batch.fields,
                batch.rows,
                batch.positions.as_ref(),
                &facts,
            ),
            _ => Ok(Vec::new()),
        }
    }

    /// Judge a complete page: deletes first, then the remaining predicate. The rows that survive
    /// are returned ascending, the first `prefix_len` channels of each are the page, and a page
    /// without a row is no page. `page` holds the columns of all channels and `memberships` what
    /// the value set of each check says of the values of its channel.
    pub fn finish_page(
        &mut self,
        batch: &FileBatch,
        masks: &PageMasks,
        page: &Vec<Column>,
        memberships: &Vec<Memberships>,
    ) -> (kept: Result<Option<Vec<usize>>, ConnectorError>)
        requires
            old(self).state is Open,
            checks_fit(
                (old(self).state->Open_0).checks@,
                page@,
                memberships@,
                batch.rows as nat,
            ),
        ensures
            ({
                let filter = old(self).delete_filter;
                let checks = (old(self).state->Open_0).checks@;
                let checked = checked_columns(checks, page@, memberships@);
                let rows = batch.rows as nat;
                match kept {
                    Err(error) => *final(self) == *old(self) && if delete_fault(
                        filter,
                        *batch,
                        *masks,
                    ) is Some {
                        delete_fault(filter, *batch, *masks) == Some(error)
                    } else {
                        exists|c: int|
                            0 <= c < checks.len() && check_fails(
                                #[trigger] checks[c],
                                checked[c],
                                rows,
                                error,
                            ) && forall|k: int|
                                0 <= k < c ==> check_holds(#[trigger] checks[k], checked[k], rows)
                    },
                    Ok(selected) => {
                        &&& delete_fault(filter, *batch, *masks) is None
                        &&& forall|c: int|
                            0 <= c < checks.len() ==> check_holds(
                                #[trigger] checks[c],
                                checked[c],
                                rows,
                            )
                        &&& match selected {
                            None => *final(self) == *old(self) && forall|row: int|
                                0 <= row < rows ==> !(#[trigger] page_keeps(
                                    filter,
                                    *batch,
                                    *masks,
                                    checks,
                                    checked,
                                    row,
                                )),
                            Some(list) => {
                                &&& list@.len() > 0
                                &&& selects(
                                    list@,
                                    Seq::new(
                                        rows,
                                        |row: int|
                                            page_keeps(
                                                filter,
                                                *batch,
                                                *masks,
                                                checks,
                                                checked,
                                                row,
                                            ),
                                    ),
                                )
                                &&& *final(self) == (IcebergParquetPageSource {
                                    completed_positions: if old(self).completed_positions
                                        + list@.len() > u64::MAX {
                                        u64::MAX
                                    } else {
                                        (old(self).completed_positions + list@.len()) as u64
                                    },
                                    ..*old(self)
                                })
                            },
                        }
                    },
                }
            }),
    {
        let ghost filter = self.delete_filter;
        let ghost checks = (self.state->Open_0).checks@;
        let ghost checked = checked_columns(checks, page@, memberships@);
        let ghost rows = batch.rows as nat;
        let mut keep: Vec<bool> = if self.delete_filter.is_empty() {
            all_kept(batch.rows)
        } else {
            match &batch.positions {
                None => return Err(ConnectorError::Corrupt(CorruptData::DeletesWithoutPositions)),
                Some(positions) => match self.delete_filter.evaluate(batch.rows, positions, masks) {
                    Ok(keep) => keep,
                    Err(error) => return Err(error),
                },
            }
        };
        let mut i: usize = 0;
        while i < memberships.len()
            invariant
                i <= memberships.len(),
                *self == *old(self),
                self.state is Open,
                filter == self.delete_filter,
                checks == (self.state->Open_0).checks@,
                rows == batch.rows,
                checked == checked_columns(checks, page@, memberships@),
                checks_fit(checks, page@, memberships@, rows),
                delete_fault(filter, *batch, *masks) is None,
                keep@.len() == rows,
                forall|row: int|
                    0 <= row < rows ==> #[trigger] keep@[row] == (deletes_leave(
                        filter,
                        *batch,
                        *masks,
                        row,
                    ) && passes(checks, checked, row, i as nat)),
                forall|c: int|
                    0 <= c < i ==> check_holds(#[trigger] checks[c], checked[c], rows),
            decreases memberships.len() - i,
        {
            let check: PredicateCheck = match &self.state {
                ReaderState::Open(reader) => reader.checks[i],
                _ => return Ok(None),
            };
            assert(check == checks[i as int]);
            assert(memberships@[i as int]@.len() == rows);
            let verdict = evaluate_domain(&page[check.channel], &check.domain, &memberships[i]);
            match verdict {
                Err(error) => {
                    proof {
                        let row = choose|row: int|
                            0 <= row < rows && #[trigger] row_in_domain(
                                checked[i as int].column.model(),
                                check.domain,
                                checked[i as int].memberships@,
                                row,
                            ) == Err::<bool, ConnectorError>(error) && forall|k: int|
                                0 <= k < row ==> #[trigger] row_in_domain(
                                    checked[i as int].column.model(),
                                    check.domain,
                                    checked[i as int].memberships@,
                                    k,
                                ) is Ok;
                        assert(check_row(checks[i as int], checked[i as int], row) == Err::<
                            bool,
                            ConnectorError,
                        >(error));
                        assert(check_fails(checks[i as int], checked[i as int], rows, error));
                    }
                    return Err(error);
                },
                Ok(mask) => {
                    proof {
                        assert forall|row: int| 0 <= row < rows implies #[trigger] check_row(
                            checks[i as int],
                            checked[i as int],
                            row,
                        ) is Ok by {
                            assert(Ok::<bool, ConnectorError>(mask@[row]) == check_row(
                                checks[i as int],
                                checked[i as int],
                                row,
                            ));
                        }
                    }
                    let ghost before = keep@;
                    keep = both_keep(&keep, &mask);
                    proof {
                        assert forall|row: int| 0 <= row < rows implies #[trigger] keep@[row] == (
                        deletes_leave(filter, *batch, *masks, row) && passes(
                            checks,
                            checked,
                            row,
                            (i + 1) as nat,
                        )) by {
                            assert(before[row] == (deletes_leave(filter, *batch, *masks, row)
                                && passes(checks, checked, row, i as nat)));
                            assert(Ok::<bool, ConnectorError>(mask@[row]) == check_row(
                                checks[i as int],
                                checked[i as int],
                                row,
                            ));
                            if passes(checks, checked, row, (i + 1) as nat) {
                                assert(check_row(checks[i as int], checked[i as int], row) == Ok::<
                                    bool,
                                    ConnectorError,
                                >(true));
                            }
                        }
                    }
                },
            }
            i += 1;
        }
        let selected = surviving_positions(&keep);
        proof {
            assert forall|row: int| 0 <= row < rows implies #[trigger] keep@[row] == page_keeps(
                filter,
                *batch,
                *masks,
                checks,
                checked,
                row,
            ) by {}
            assert(keep@ =~= Seq::new(
                rows,
                |row: int| page_keeps(filter, *batch, *masks, checks, checked, row),
            ));
        }
        if selected.len() == 0 {
            proof {
                assert forall|row: int| 0 <= row < rows implies !(#[trigger] page_keeps(
                    filter,
                    *batch,
                    *masks,
                    checks,
                    checked,
                    row,
                )) by {
                    if keep@[row] {
                        assert(selected@.contains(row as usize));
                    }
                }
            }
            return Ok(None);
        }
        self.completed_positions = self.completed_positions.saturating_add(selected.len() as u64);
        Ok(Some(selected))
    }

    /// Count the time that a page took.
    pub fn spent(&mut self, nanos: u64)
        ensures
            *final(self) == (IcebergParquetPageSource {
                read_time_nanos: if old(self).read_time_nanos + nanos > u64::MAX {
                    u64::MAX
                } else {
                    (old(self).read_time_nanos + nanos) as u64
                },
                ..*old(self)
            }),
    {
        self.read_time_nanos = self.read_time_nanos.saturating_add(nanos);
    }

    pub fn is_finished(&self) -> (finished: bool)
        ensures
            finished == (self.finished || self.closed),
    {
        self.finished || self.closed
    }

    pub fn metrics(&self) -> (metrics: PageSourceMetrics)
        ensures
            metrics == (PageSourceMetrics {
                completed_bytes: self.completed_bytes,
                completed_positions: self.completed_positions,
                read_time_nanos: self.read_time_nanos,
            }),
    {
        PageSourceMetrics {
            completed_bytes: self.completed_bytes,
            completed_positions: self.completed_positions,
            read_time_nanos: self.read_time_nanos,
        }
    }

    /// The bytes that the source retains, given those of its binding. Only an open source has one.
    pub fn memory_usage_bytes(&self, binding_bytes: u64) -> (bytes: u64)
        ensures
            bytes == ({
                let held = if self.state is Open {
                    binding_bytes as int
                } else {
                    0
                };
                if self.retained_bytes + held > u64::MAX {
                    u64::MAX as int
                } else {
                    self.retained_bytes + held
                }
            }),
    {
        match &self.state {
            ReaderState::Open(_) => self.retained_bytes.saturating_add(binding_bytes),
            _ => self.retained_bytes,
        }
    }

    /// Close the source, given what its reader has read in all. Whether there is a reader to close
    /// is returned: whatever its own close says, the source holds it no longer.
    pub fn close(&mut self, bytes_read: u64) -> (has_reader: bool)
        ensures
            has_reader == (!old(self).closed && old(self).state is Open),
            *final(self) == (if old(self).closed {
                *old(self)
            } else {
                IcebergParquetPageSource {
                    closed: true,
                    completed_bytes: if has_reader {
                        bytes_read
                    } else {
                        old(self).completed_bytes
                    },
                    state: ReaderState::Drained,
                    ..*old(self)
                }
            }),
    {
        if self.closed {
            return false;
        }
        self.closed = true;
        let has_reader = matches!(self.state, ReaderState::Open(_));
        self.state = ReaderState::Drained;
        if has_reader {
            self.completed_bytes = bytes_read;
        }
        has_reader
    }
}

/// Whether a row of a page is returned.
pub open spec fn page_keeps(
    filter: SplitDeleteFilter,
    batch: FileBatch,
    masks: PageMasks,
    checks: Seq<PredicateCheck>,
    checked: Seq<CheckedColumn>,
    row: int,
) -> bool {
    deletes_leave(filter, batch, masks, row) && passes(checks, checked, row, checks.len())
}

/// The facts of a split that metadata columns are made of.
pub open spec fn facts_of_split(split: IcebergSplit) -> SplitFactsModel {
    SplitFactsModel {
        path: split.path@,
        partition_data_json: split.partition_data_json@,
        file_first_row_id: split.file_first_row_id,
        data_sequence_number: split.data_sequence_number,
    }
}

/// Whether steps, or a failure, are the plan of the page of a batch.
pub open spec fn is_page_plan(
    binding: IcebergSchemaBinding,
    batch: FileBatch,
    facts: SplitFactsModel,
    steps: Result<Vec<ColumnStep>, ConnectorError>,
) -> bool {
    let positions = positions_model(
        match batch.positions {
            Some(list) => Some(&list),
            None => None,
        },
    );
    let index = indexed(ids_of(batch.fields@), batch.fields@.len());
    if positions is Some && positions->0.len() != batch.rows {
        steps == Err::<Vec<ColumnStep>, ConnectorError>(
            ConnectorError::Corrupt(CorruptData::PositionCount),
        )
    } else if index is Err {
        steps == Err::<Vec<ColumnStep>, ConnectorError>(index->Err_0)
    } else {
        match steps {
            Ok(list) => list@.len() == binding.columns@.len() && forall|i: int|
                0 <= i < list@.len() ==> is_step_of(
                    #[trigger] list@[i],
                    binding.columns@[i],
                    crate::carrier::field_models(batch.fields@),
                    index->Ok_0,
                    batch.rows as nat,
                    positions,
                    facts,
                ) && list@[i].planned_rows(batch.rows as nat) == batch.rows,
            Err(error) => exists|i: int|
                0 <= i < binding.columns@.len() && step_fault(
                    #[trigger] binding.columns@[i],
                    crate::carrier::field_models(batch.fields@),
                    index->Ok_0,
                    batch.rows as nat,
                    positions,
                    facts,
                ) == Some(error) && forall|k: int|
                    0 <= k < i ==> step_fault(
                        #[trigger] binding.columns@[k],
                        crate::carrier::field_models(batch.fields@),
                        index->Ok_0,
                        batch.rows as nat,
                        positions,
                        facts,
                    ) is None,
        }
    }
}

fn all_kept(rows: usize) -> (keep: Vec<bool>)
    ensures
        keep@.len() == rows,
        forall|row: int| 0 <= row < rows ==> #[trigger] keep@[row],
{
    let mut keep: Vec<bool> = Vec::new();
    let mut row: usize = 0;
    while row < rows
        invariant
            row <= rows,
            keep@.len() == row,
            forall|k: int| 0 <= k < row ==> #[trigger] keep@[k],
        decreases rows - row,
    {
        keep.push(true);
        row += 1;
    }
    keep
}

fn both_keep(left: &Vec<bool>, right: &Vec<bool>) -> (keep: Vec<bool>)
    requires
        left@.len() == right@.len(),
    ensures
        keep@.len() == left@.len(),
        forall|row: int| 0 <= row < keep@.len() ==> #[trigger] keep@[row] == (left@[row] && right@[row]),
{
    let mut keep: Vec<bool> = Vec::new();
    let mut row: usize = 0;
    while row < left.len()
        invariant
            row <= left.len(),
            left@.len() == right@.len(),
            keep@.len() == row,
            forall|k: int| 0 <= k < row ==> #[trigger] keep@[k] == (left@[k] && right@[k]),
        decreases left.len() - row,
    {
        keep.push(left[row] && right[row]);
        row += 1;
    }
    keep
}

fn push_handles(handles: &mut Vec<IcebergColumnHandle>, more: &Vec<IcebergColumnHandle>)
    ensures
        handle_models(final(handles)@) == handle_models(old(handles)@) + handle_models(more@),
{
    let ghost before = handles@;
    let mut i: usize = 0;
    while i < more.len()
        invariant
            i <= more.len(),
            handles@.len() == before.len() + i,
            forall|k: int| 0 <= k < before.len() ==> #[trigger] handles@[k] == before[k],
            forall|k: int|
                0 <= k < i ==> (#[trigger] handles@[before.len() + k]).model() == more@[k].model(),
        decreases more.len() - i,
    {
        let ghost held = handles@;
        handles.push(more[i].duplicate());
        proof {
            assert forall|k: int| 0 <= k < i + 1 implies (#[trigger] handles@[before.len() + k]).model()
                == more@[k].model() by {
                if k < i {
                    assert(handles@[before.len() + k] == held[before.len() + k]);
                }
            }
        }
        i += 1;
    }
    proof {
        let joined = handle_models(before) + handle_models(more@);
        assert forall|k: int| 0 <= k < joined.len() implies handle_models(handles@)[k] == joined[k] by {
            if k >= before.len() {
                assert(handles@[before.len() + (k - before.len())].model() == more@[k
                    - before.len()].model());
            } else {
                assert(handles@[k] == before[k]);
            }
        }
        assert(handle_models(handles@) =~= joined);
    }
}

// ---------------------------------------------------------------------------
// What a source keeps
// ---------------------------------------------------------------------------

/// A source that is closed or finished never reads again.
pub proof fn law_a_finished_source_reads_nothing(source: IcebergParquetPageSource)
    requires
        source.finished || source.closed,
    ensures
        source.action() == SourceAction::Nothing,
{
}

/// A source that is neither finished nor closed, and whose reader is not drained, always has
/// something to do: that there is no page now does not end it.
pub proof fn law_only_being_finished_ends_a_source(source: IcebergParquetPageSource)
    requires
        !source.finished,
        !source.closed,
        !(source.state is Drained),
    ensures
        source.action() != SourceAction::Nothing,
{
}

/// A row whose position an ordinary read's deletes name is on no page.
pub proof fn law_deleted_rows_are_on_no_page(
    filter: SplitDeleteFilter,
    batch: FileBatch,
    masks: PageMasks,
    checks: Seq<PredicateCheck>,
    checked: Seq<CheckedColumn>,
    row: int,
)
    requires
        filter.verdict is ExcludeDeleted,
        (filter.verdict->ExcludeDeleted_0).positions().contains((batch.positions->0)@[row]->0),
    ensures
        !page_keeps(filter, batch, masks, checks, checked, row),
{
    let deletes = filter.verdict->ExcludeDeleted_0;
    assert(!filter.filters_nothing()) by {
        assert(deletes.positions().contains((batch.positions->0)@[row]->0));
    }
}

/// Without deletes and without a remaining predicate every row of a batch is on its page.
pub proof fn law_nothing_to_judge_keeps_every_row(
    filter: SplitDeleteFilter,
    batch: FileBatch,
    masks: PageMasks,
    checked: Seq<CheckedColumn>,
    row: int,
)
    requires
        filter.filters_nothing(),
    ensures
        page_keeps(filter, batch, masks, Seq::empty(), checked, row),
{
}

} // verus!
