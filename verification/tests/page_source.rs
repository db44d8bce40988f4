//! One split, one page source.

use std::sync::Arc;

use roaring::RoaringTreemap;

use iceberg_connector::carrier::{DataType, Field, TimeUnit};
use iceberg_connector::column::{Cell, Column};
use iceberg_connector::column_handle::IcebergColumnHandle;
use iceberg_connector::delete_closure::DeleteEvaluationMode;
use iceberg_connector::delete_filter::{
    loaded_equality_delete, EqualityMask, FilterVerdict, PageMasks, ResolvedDeletes, SplitDeleteFilter,
};
use iceberg_connector::delete_manager::{DeleteManager, LoadStep, LoadedArtifact};
use iceberg_connector::domain::{connector_value_at, evaluate_domain, ConnectorValue, ConnectorValueType, Domain};
use iceberg_connector::dynamic_filter::{
    consult_dynamic_filter, DynamicFilterCheckpoint, DynamicFilterObservation, DynamicFilterVerdict,
};
use iceberg_connector::error::{ConnectorError, ConnectorErrorKind, CorruptData, InvalidRequest, UnsupportedFeature};
use iceberg_connector::footer_cache::ParquetFooterCache;
use iceberg_connector::metadata_column::IcebergMetadataColumn;
use iceberg_connector::page_source::{
    admit_split, create_iceberg_page_source, declared_file_size, parse_partition_values, partition_values_of,
    surviving_positions, FileBatch, FileProjection, IcebergParquetPageSource,
    PageSourceChoice, PartitionLiteral, SourceAction,
};
use iceberg_connector::page_stream::{
    close_outcome, create_iceberg_page_stream, CloseReader, ConstantStreamAction, IcebergParquetPageStream,
    IcebergPartitionOnlyPageStream, PageStreamChoice, StreamAction, StreamItem, StreamStep, SuccessorAdvance,
};
use iceberg_connector::partition::{PartitionField, PartitionSpec, TransformResult};
use iceberg_connector::partition_only::{IcebergPartitionOnlyPageSource, IcebergPageSourceRequest};
use iceberg_connector::preparation::FileReadRange;
use iceberg_connector::row_positions::ReaderPageSourceWithRowPositions;
use iceberg_connector::schema_binding::{bind_scan_columns, ColumnStep, IcebergSchemaBindingRequest};
use iceberg_connector::split::{
    IcebergDeleteFile, IcebergDeleteFileContent, IcebergFileFormat, IcebergSplit, ParquetFileDecryptionData,
};
use iceberg_connector::system_page_source::PageSourceMetrics;
use iceberg_connector::types::{InitialDefault, NestedField, PrimitiveType, Schema, Type};
use iceberg_connector::value::{Literal, PrimitiveLiteral};

const ROWS_PER_GROUP: usize = 4;
const FILE_SIZE: i64 = 400;

fn iceberg_schema() -> Schema {
    let field = |id: i32, name: &str, required: bool, primitive: PrimitiveType| NestedField {
        id,
        name: name.to_string(),
        required,
        field_type: Type::Primitive(primitive),
        initial_default: InitialDefault::Absent,
    };
    Schema {
        fields: vec![
            field(1, "id", true, PrimitiveType::Long),
            field(2, "region", false, PrimitiveType::String),
        ],
    }
}

fn carrier(name: &str, data_type: DataType, nullable: bool, field_id: Option<i32>) -> Field {
    Field { name: name.to_string(), data_type, nullable, field_id, initial_default: None, json: false, metadata: Vec::new() }
}

fn read_fields() -> Vec<Field> {
    vec![carrier("id", DataType::Int64, false, None), carrier("region", DataType::Utf8, true, None)]
}

fn file_fields() -> Vec<Field> {
    vec![carrier("id", DataType::Int64, false, Some(1)), carrier("region", DataType::Utf8, true, Some(2))]
}

fn spec(partitioned: bool) -> PartitionSpec {
    let mut fields = Vec::new();
    if partitioned {
        fields.push(PartitionField {
            source_id: 2,
            name: "region".to_string(),
            identity: true,
            result_type: TransformResult::Primitive(PrimitiveType::String),
        });
    }
    PartitionSpec { spec_id: 0, fields }
}

fn emea() -> Vec<Option<Literal>> {
    vec![Some(Literal::Primitive(PrimitiveLiteral::String("emea".to_string())))]
}

fn whole_file(path: &str, records: i64) -> IcebergSplit {
    IcebergSplit {
        path: path.to_string(),
        start: 0,
        length: FILE_SIZE,
        file_size: FILE_SIZE,
        file_record_count: records,
        file_format: IcebergFileFormat::Parquet,
        partition_spec_id: 0,
        partition_data_json: "{}".to_string(),
        deletes: Vec::new(),
        data_sequence_number: Some(3),
        file_first_row_id: None,
        decryption_data: None,
        affinity_key: None,
    }
}

fn column(id: i32) -> IcebergColumnHandle {
    for field in &iceberg_schema().fields {
        if field.id == id {
            return IcebergColumnHandle::base_column(field);
        }
    }
    panic!("no column {id}")
}

fn row_id() -> IcebergColumnHandle {
    IcebergColumnHandle {
        base_field_id: IcebergMetadataColumn::RowId.field_id(),
        base_name: "$row_id".to_string(),
        base_type: Type::Primitive(PrimitiveType::Long),
        field_id_path: Vec::new(),
        field_type: Type::Primitive(PrimitiveType::Long),
        nullable: false,
    }
}

fn no_deletes(path: &str) -> SplitDeleteFilter {
    SplitDeleteFilter {
        verdict: FilterVerdict::ExcludeDeleted(ResolvedDeletes {
            deleted_positions: Arc::new(RoaringTreemap::new()),
            equality: Vec::new(),
        }),
        data_file_path: path.to_string(),
        hidden_columns: Vec::new(),
    }
}

fn error_of<T>(result: Result<T, ConnectorError>) -> ConnectorError {
    match result {
        Ok(_) => panic!("a failure was expected"),
        Err(error) => error,
    }
}

/// A data file of some row groups: each row has its own number as `id` and `r<number>` as
/// `region`. A row group starts every hundred bytes, from byte four on.
struct DataFile {
    groups: usize,
    next_group: usize,
    range: FileReadRange,
}

impl DataFile {
    fn offset(group: usize) -> u64 {
        4 + 100 * group as u64
    }

    fn next_batch(&mut self) -> Option<FileBatch> {
        while self.next_group < self.groups {
            let group = self.next_group;
            self.next_group += 1;
            let taken = match self.range {
                FileReadRange::WholeFile => true,
                FileReadRange::Bounded { offset, length } => {
                    offset <= DataFile::offset(group) && DataFile::offset(group) < offset + length
                }
            };
            if taken {
                let first = (group * ROWS_PER_GROUP) as u64;
                return Some(FileBatch {
                    fields: file_fields(),
                    rows: ROWS_PER_GROUP,
                    positions: Some((first..first + ROWS_PER_GROUP as u64).map(Some).collect()),
                });
            }
        }
        None
    }
}

/// One page as a scan sees it.
#[derive(Debug, PartialEq)]
struct Page {
    rows: usize,
    channels: Vec<Vec<String>>,
}

/// Drive a source over a data file for one page.
fn next_page(
    source: &mut IcebergParquetPageSource<'_>,
    file: &mut DataFile,
    deleted_regions: &[&str],
) -> Result<Option<Page>, ConnectorError> {
    let (schema, read, no_ids) = (iceberg_schema(), read_fields(), vec![Some(1), Some(2)]);
    loop {
        match source.next_action() {
            SourceAction::Nothing => return Ok(None),
            SourceAction::Open => {
                assert_eq!(declared_file_size(&source.split), Ok(FILE_SIZE as u64));
                let handles: Vec<IcebergColumnHandle> =
                    source.bound_handles.iter().map(|handle| handle.duplicate()).collect();
                let binding = bind_scan_columns(&IcebergSchemaBindingRequest {
                    table_schema: &schema,
                    read_fields: &read,
                    file_field_ids: &no_ids,
                    identified_fields: 2,
                    total_fields: 2,
                    rest_is_opaque_variants: false,
                    mapped_field_ids: None,
                    partition_spec: None,
                    partition_values: None,
                    columns: &handles,
                })?;
                let plan = source.plan_read(&binding)?;
                file.range = plan.range;
                source.opened(binding, plan.positions_required)?;
            }
            SourceAction::ReadBatch(_) => {
                let batch = match file.next_batch() {
                    Some(batch) => batch,
                    None => {
                        source.drained(77);
                        continue;
                    }
                };
                source.accept_batch(&batch, 50)?;
                let first = batch.positions.as_ref().map_or(0, |list| list[0].unwrap_or(0));
                let mut channels = Vec::new();
                for step in source.plan_page(&batch)? {
                    channels.push(match step {
                        ColumnStep::Physical { index, .. } => (first..first + batch.rows as u64)
                            .map(|row| if index == 0 { row.to_string() } else { format!("r{row}") })
                            .collect::<Vec<String>>(),
                        ColumnStep::Metadata(Column::Flat { cells, .. }) => cells
                            .iter()
                            .map(|cell| match cell {
                                Cell::Int64(value) => value.to_string(),
                                _ => panic!("expected a long"),
                            })
                            .collect(),
                        _ => panic!("unexpected column"),
                    });
                }
                let mut applied = Vec::new();
                if !deleted_regions.is_empty() {
                    let regions = channels.last().expect("hidden region");
                    applied.push(EqualityMask::Keep(
                        regions.iter().map(|region| !deleted_regions.contains(&region.as_str())).collect(),
                    ));
                }
                let masks = PageMasks { applied, previously: Vec::new() };
                if let Some(selected) = source.finish_page(&batch, &masks, &Vec::new(), &Vec::new())? {
                    channels.truncate(source.prefix_len);
                    return Ok(Some(Page {
                        rows: selected.len(),
                        channels: channels
                            .iter()
                            .map(|channel| selected.iter().map(|row| channel[*row].clone()).collect())
                            .collect(),
                    }));
                }
            }
        }
    }
}

fn source_of<'a>(split: IcebergSplit, columns: &Vec<IcebergColumnHandle>) -> IcebergParquetPageSource<'a> {
    let filter = no_deletes(&split.path);
    IcebergParquetPageSource::new(
        split,
        columns,
        filter,
        Some(Vec::new()),
        DynamicFilterObservation::complete_all(),
        10,
    )
}

fn data_file(groups: usize) -> DataFile {
    DataFile { groups, next_group: 0, range: FileReadRange::WholeFile }
}

fn drain_ids(source: &mut IcebergParquetPageSource<'_>, groups: usize) -> Vec<i64> {
    let mut file = data_file(groups);
    let mut ids = Vec::new();
    while !source.is_finished() {
        if let Some(page) = next_page(source, &mut file, &[]).expect("page") {
            assert_eq!(page.channels[0].len(), page.rows);
            ids.extend(page.channels[0].iter().map(|id| id.parse::<i64>().expect("id")));
        }
    }
    ids
}

#[test]
fn a_whole_file_split_reads_every_row_with_absolute_positions() {
    let mut source = source_of(whole_file("data.parquet", (3 * ROWS_PER_GROUP) as i64), &vec![column(1)]);
    let ids = drain_ids(&mut source, 3);
    assert_eq!(ids, (0..(3 * ROWS_PER_GROUP) as i64).collect::<Vec<_>>());
    assert!(source.is_finished());
    assert_eq!(
        source.metrics(),
        PageSourceMetrics { completed_bytes: 77, completed_positions: 12, read_time_nanos: 0 }
    );
}

fn bounded(start: u64, length: u64, records: i64) -> IcebergSplit {
    let mut split = whole_file("data.parquet", records);
    split.start = start as i64;
    split.length = length as i64;
    split
}

#[test]
fn byte_range_selection_takes_a_row_group_at_the_lower_bound_and_not_at_the_upper() {
    let (start, end) = (DataFile::offset(1), DataFile::offset(2));
    let mut source = source_of(bounded(start, end - start, 12), &vec![column(1)]);
    let ids = drain_ids(&mut source, 3);
    assert_eq!(
        ids,
        (ROWS_PER_GROUP as i64..(2 * ROWS_PER_GROUP) as i64).collect::<Vec<_>>(),
        "the row group starting at the exclusive upper bound must not be read"
    );
}

#[test]
fn absolute_row_positions_survive_row_group_pruning() {
    let start = DataFile::offset(2);
    let mut split = bounded(start, FILE_SIZE as u64 - start, 12);
    split.file_first_row_id = Some(1_000);
    let mut source = source_of(split, &vec![row_id()]);
    let ids = drain_ids(&mut source, 3);
    assert_eq!(
        ids,
        (1_000 + 2 * ROWS_PER_GROUP as i64..1_000 + 3 * ROWS_PER_GROUP as i64).collect::<Vec<_>>()
    );
}

#[test]
fn none_is_not_end_of_stream_and_close_is_idempotent() {
    let mut source = source_of(whole_file("data.parquet", 4), &vec![column(1)]);
    let mut file = data_file(1);

    assert!(!source.is_finished(), "a fresh page source is not finished");
    let first = next_page(&mut source, &mut file, &[]).expect("first page");
    assert!(first.is_some());
    assert!(!source.is_finished(), "a produced page never terminates the source on its own");
    let second = next_page(&mut source, &mut file, &[]).expect("second call");
    assert!(second.is_none(), "the reader is drained");
    assert!(source.is_finished(), "only is_finished is terminal");

    source.close(99);
    source.close(99);
    assert!(next_page(&mut source, &mut file, &[]).expect("after close").is_none());
}

#[test]
fn a_zero_column_scan_still_counts_its_rows() {
    let mut source = source_of(whole_file("data.parquet", 8), &Vec::new());
    let mut file = data_file(2);
    let mut positions = 0;
    while !source.is_finished() {
        if let Some(page) = next_page(&mut source, &mut file, &[]).expect("page") {
            assert_eq!(page.channels.len(), 0, "a zero-column page is legal");
            positions += page.rows;
        }
    }
    assert_eq!(positions, 2 * ROWS_PER_GROUP);
}

fn fast_path<'a>(
    split: &IcebergSplit,
    columns: &Vec<IcebergColumnHandle>,
    values: &'a Vec<Option<Literal>>,
    max_rows: usize,
) -> Result<PageSourceChoice<'a>, ConnectorError> {
    let (schema, read, partition_spec) = (iceberg_schema(), read_fields(), spec(true));
    create_iceberg_page_source(
        &IcebergPageSourceRequest {
            split,
            table_schema: &schema,
            read_fields: &read,
            partition_spec: &partition_spec,
            partition_values: values,
            columns,
            predicate_is_all: true,
        },
        max_rows,
        33,
    )
}

fn partition_only<'a>(choice: Result<PageSourceChoice<'a>, ConnectorError>) -> IcebergPartitionOnlyPageSource<'a> {
    match choice {
        Ok(PageSourceChoice::PartitionOnly(source)) => source,
        _ => panic!("expected the partition-only path"),
    }
}

#[test]
fn the_partition_only_fast_path_never_opens_the_data_file() {
    let footers = ParquetFooterCache::new();
    let records = (2 * ROWS_PER_GROUP) as i64;
    let mut split = whole_file("s3://bucket/this/file/does/not/exist.parquet", records);
    split.partition_data_json = "{\"1000\":\"emea\"}".to_string();
    let values = emea();
    let mut source = partition_only(fast_path(&split, &vec![column(2)], &values, 1024));

    let mut positions = 0;
    while !source.is_finished() {
        if let Some(page) = source.next_source_page(Ok(())).expect("page") {
            assert_eq!(page.channels, 1);
            positions += page.rows;
        }
    }
    let (field, value) = &source.constants[0];
    assert_eq!(field.name, "region");
    match value {
        Some(Literal::Primitive(PrimitiveLiteral::String(text))) => assert_eq!(text, "emea"),
        _ => panic!("expected the partition constant"),
    }
    assert_eq!(positions as i64, records, "the fast path must account for every record of the file");
    assert!(footers.is_empty(), "the fast path reads no footer at all");
}

#[test]
fn the_partition_only_fast_path_may_emit_zero_column_pages() {
    let values = emea();
    let split = whole_file("s3://bucket/absent.parquet", 7);
    let mut source = partition_only(fast_path(&split, &Vec::new(), &values, 1024));
    let page = source
        .next_source_page(Ok(()))
        .expect("page")
        .expect("a zero-column page is still a page");
    assert_eq!(page.channels, 0);
    assert_eq!(page.rows, 7);
    assert!(source.is_finished());
}

#[test]
fn orc_and_avro_are_rejected_at_page_source_admission() {
    let values = emea();
    for format in [IcebergFileFormat::Orc, IcebergFileFormat::Avro] {
        let mut split = whole_file("data.parquet", 4);
        split.file_format = format;
        let error = error_of(fast_path(&split, &vec![column(1)], &values, 1024));
        assert_eq!(error.kind(), ConnectorErrorKind::Unsupported, "{format:?}");
    }
    let mut split = whole_file("data.parquet", 4);
    split.file_format = IcebergFileFormat::Puffin;
    assert_eq!(admit_split(&split), Err(ConnectorError::Invalid(InvalidRequest::PuffinDataSplit)));
}

#[test]
fn decryption_material_is_rejected_without_leaking_it() {
    let values = emea();
    let secret = b"super-secret-key-metadata".to_vec();
    let mut split = whole_file("data.parquet", 4);
    split.decryption_data =
        Some(ParquetFileDecryptionData { key_metadata: secret.clone(), aad_prefix: Vec::new() });
    let error = error_of(fast_path(&split, &vec![column(1)], &values, 1024));
    assert_eq!(error.kind(), ConnectorErrorKind::Unsupported);
    let rendered = format!("{error:?}");
    assert!(!rendered.contains("super-secret"), "key material must never reach a message: {rendered}");

    let mut with_delete = whole_file("data.parquet", 4);
    let mut delete = region_delete("d.parquet");
    delete.decryption_data =
        Some(ParquetFileDecryptionData { key_metadata: Vec::new(), aad_prefix: secret });
    with_delete.deletes.push(delete);
    assert_eq!(
        admit_split(&with_delete),
        Err(ConnectorError::Unsupported(UnsupportedFeature::DeleteFileDecryption))
    );
    let mut empty = whole_file("data.parquet", 4);
    empty.decryption_data =
        Some(ParquetFileDecryptionData { key_metadata: Vec::new(), aad_prefix: Vec::new() });
    assert_eq!(admit_split(&empty), Ok(()));
}

fn region_delete(path: &str) -> IcebergDeleteFile {
    IcebergDeleteFile {
        content: IcebergDeleteFileContent::EqualityDeletes,
        path: path.to_string(),
        format: IcebergFileFormat::Parquet,
        record_count: 2,
        file_size_in_bytes: 100,
        equality_field_ids: vec![2],
        row_position_lower_bound: None,
        row_position_upper_bound: None,
        data_sequence_number: 9,
        content_offset: None,
        content_size_in_bytes: None,
        referenced_data_file: None,
        decryption_data: None,
    }
}

#[test]
fn a_delete_closure_adds_a_hidden_suffix_that_is_truncated_after_evaluation() {
    let schema = iceberg_schema();
    let mut split = whole_file("data.parquet", 8);
    split.deletes.push(region_delete("eq-delete.parquet"));

    let mut manager = DeleteManager::new();
    let mode = DeleteEvaluationMode::ExcludeDeleted;
    let open = DeleteManager::open_split(&split, &schema, &mode).expect("open split");
    let claims = manager.claim_side(&split, &open.scope, &open.applied);
    let slot = claims.equality[0][0];
    assert_eq!(manager.begin(slot), LoadStep::Run);
    let loaded = loaded_equality_delete(&split.deletes[0], &vec![0]).expect("one set");
    manager.settle(slot, Ok(LoadedArtifact::Equality(loaded)), None).expect("settled");
    let nothing = manager.claim_side(&split, &open.scope, &open.previously);
    let filter = manager
        .finish_split(&split, &schema, &mode, open, &claims, &nothing)
        .expect("every artifact is there");

    let mut source = IcebergParquetPageSource::new(
        whole_file("data.parquet", 8),
        &vec![column(1)],
        filter,
        Some(Vec::new()),
        DynamicFilterObservation::complete_all(),
        0,
    );
    assert_eq!(source.bound_handles.len(), 2);
    let mut file = data_file(2);
    let mut ids = Vec::new();
    while !source.is_finished() {
        if let Some(page) = next_page(&mut source, &mut file, &["r2", "r5"]).expect("page") {
            assert_eq!(
                page.channels.len(),
                1,
                "the hidden delete suffix must be dropped before the page leaves"
            );
            ids.extend(page.channels[0].iter().map(|id| id.parse::<i64>().expect("id")));
        }
    }
    assert_eq!(ids, vec![0, 1, 3, 4, 6, 7]);
}

#[test]
fn a_bounded_split_records_its_half_open_row_position_window() {
    let mut window = ReaderPageSourceWithRowPositions::new();
    window.observe(&(4_u64..8).map(Some).collect()).expect("observe");
    assert_eq!(window.start_row_position, Some(4));
    assert_eq!(window.end_row_position, Some(8));
    assert!(window.observe(&vec![Some(6)]).is_err(), "a revisited row position is corrupt");

    let (start, end) = (DataFile::offset(1), DataFile::offset(2));
    let mut source = source_of(bounded(start, end - start, 12), &vec![column(1)]);
    let _ = drain_ids(&mut source, 3);
    assert_eq!(source.row_window.start_row_position, Some(4));
    assert_eq!(source.row_window.end_row_position, Some(8));
}

#[test]
fn a_window_names_what_does_not_follow() {
    let mut window = ReaderPageSourceWithRowPositions::new();
    assert_eq!(window.observe(&Vec::new()), Ok(()));
    assert_eq!(window.end_row_position(), None);
    assert_eq!(window.observe(&vec![None]), Err(ConnectorError::Corrupt(CorruptData::RowPositionNull)));
    assert_eq!(
        window.observe(&vec![Some(5), Some(4)]),
        Err(ConnectorError::Corrupt(CorruptData::RowPositionsOutOfOrder))
    );
    assert_eq!(window.observe(&vec![Some(5)]), Ok(()));
    assert_eq!(
        window.observe(&vec![Some(5)]),
        Err(ConnectorError::Corrupt(CorruptData::RowPositionRevisited))
    );
    assert_eq!(window.observe(&vec![Some(u64::MAX)]), Ok(()));
    assert_eq!(window.end_row_position(), Some(u64::MAX));
}

#[test]
fn a_batch_has_to_report_positions_within_the_file() {
    let (start, end) = (DataFile::offset(1), DataFile::offset(2));
    let mut source = source_of(bounded(start, end - start, 6), &vec![column(1)]);
    // The second group ends at position eight of a file of six records.
    assert_eq!(
        error_of(next_page(&mut source, &mut data_file(3), &[])),
        ConnectorError::Corrupt(CorruptData::RowPositionBeyondRecords)
    );
    let mut source = source_of(bounded(start, end - start, 12), &vec![column(1)]);
    let mut file = data_file(3);
    next_page(&mut source, &mut file, &[]).expect("opened");
    let silent = FileBatch { fields: file_fields(), rows: 4, positions: None };
    assert_eq!(
        source.accept_batch(&silent, 5),
        Err(ConnectorError::Corrupt(CorruptData::RowPositionsNotReported))
    );
}

#[test]
fn a_read_is_planned_from_the_split_and_its_binding() {
    let (schema, read, ids, columns) =
        (iceberg_schema(), read_fields(), vec![Some(1), Some(2)], vec![column(2), column(1)]);
    let request = IcebergSchemaBindingRequest {
        table_schema: &schema,
        read_fields: &read,
        file_field_ids: &ids,
        identified_fields: 2,
        total_fields: 2,
        rest_is_opaque_variants: false,
        mapped_field_ids: None,
        partition_spec: None,
        partition_values: None,
        columns: &columns,
    };
    let binding = bind_scan_columns(&request).expect("binds");
    let whole = source_of(whole_file("data.parquet", 4), &columns).plan_read(&binding).expect("plan");
    assert_eq!(whole.range, FileReadRange::WholeFile);
    assert!(!whole.positions_required);
    match whole.projection {
        FileProjection::FieldIds(ids) => assert_eq!(ids, vec![1, 2]),
        FileProjection::All => panic!("expected a projection"),
    }
    let part = source_of(bounded(4, 100, 4), &columns).plan_read(&binding).expect("plan");
    assert_eq!(part.range, FileReadRange::Bounded { offset: 4, length: 100 });
    assert!(part.positions_required);

    let mut backwards = whole_file("data.parquet", 4);
    backwards.start = -1;
    assert_eq!(
        error_of(source_of(backwards, &columns).plan_read(&binding)),
        ConnectorError::Corrupt(CorruptData::NegativeSplitStart)
    );
    let mut inverted = whole_file("data.parquet", 4);
    inverted.length = -1;
    assert_eq!(
        error_of(source_of(inverted, &columns).plan_read(&binding)),
        ConnectorError::Corrupt(CorruptData::NegativeSplitLength)
    );
    let mut sizeless = whole_file("data.parquet", 4);
    sizeless.file_size = -1;
    assert_eq!(declared_file_size(&sizeless), Err(ConnectorError::Corrupt(CorruptData::NegativeFileSize)));
}

fn id_domain() -> Domain {
    Domain { value_type: ConnectorValueType::BigInt, null_allowed: false }
}

#[test]
fn the_remaining_predicate_is_proved_row_by_row() {
    let filter = no_deletes("data.parquet");
    let mut source = IcebergParquetPageSource::new(
        whole_file("data.parquet", 4),
        &vec![column(2), column(1)],
        filter,
        Some(vec![(column(1), id_domain())]),
        DynamicFilterObservation::complete_all(),
        0,
    );
    let checks = source.build_predicate_checks().expect("checks");
    assert_eq!(checks.len(), 1);
    assert_eq!(checks[0].channel, 1);

    let (schema, read, ids) = (iceberg_schema(), read_fields(), vec![Some(1), Some(2)]);
    let columns = vec![column(2), column(1)];
    let binding = bind_scan_columns(&IcebergSchemaBindingRequest {
        table_schema: &schema,
        read_fields: &read,
        file_field_ids: &ids,
        identified_fields: 2,
        total_fields: 2,
        rest_is_opaque_variants: false,
        mapped_field_ids: None,
        partition_spec: None,
        partition_values: None,
        columns: &columns,
    })
    .expect("binds");
    source.opened(binding, false).expect("opened");
    let batch = FileBatch { fields: file_fields(), rows: 3, positions: None };
    // The check is on the second channel: the first holds no long at all.
    let page = vec![
        Column::Flat {
            data_type: DataType::Utf8,
            cells: vec![Cell::Text("a".to_string()), Cell::Text("b".to_string()), Cell::Text("c".to_string())],
        },
        Column::Flat {
            data_type: DataType::Int64,
            cells: vec![Cell::Int64(1), Cell::Int64(2), Cell::Null],
        },
    ];
    let masks = PageMasks { applied: Vec::new(), previously: Vec::new() };
    let kept = source.finish_page(&batch, &masks, &page, &vec![vec![Ok(false), Ok(true), Ok(true)]]);
    // The null is not in the domain, whatever its value set says.
    assert_eq!(kept, Ok(Some(vec![1])));
    assert_eq!(source.metrics().completed_positions, 1);
    let none = source.finish_page(&batch, &masks, &page, &vec![vec![Ok(false), Ok(false), Ok(true)]]);
    assert_eq!(none, Ok(None));
    assert_eq!(source.metrics().completed_positions, 1);
    let failed = ConnectorError::Reported(ConnectorErrorKind::Internal);
    let error = source.finish_page(&batch, &masks, &page, &vec![vec![Ok(false), Err(failed), Ok(true)]]);
    assert_eq!(error, Err(failed));
}

#[test]
fn a_predicate_that_cannot_be_proved_is_refused() {
    let source = |domains| {
        IcebergParquetPageSource::new(
            whole_file("data.parquet", 4),
            &vec![column(1)],
            no_deletes("data.parquet"),
            domains,
            DynamicFilterObservation::complete_all(),
            0,
        )
    };
    assert_eq!(
        error_of(source(None).build_predicate_checks()),
        ConnectorError::Invalid(InvalidRequest::UnsatisfiablePredicate)
    );
    assert_eq!(
        error_of(source(Some(vec![(column(2), id_domain())])).build_predicate_checks()),
        ConnectorError::Unsupported(UnsupportedFeature::PredicateOnUnreadColumn)
    );
}

#[test]
fn deletes_need_the_positions_of_their_rows() {
    let mut positions = RoaringTreemap::new();
    positions.insert(1);
    let mut filter = no_deletes("data.parquet");
    filter.verdict = FilterVerdict::ExcludeDeleted(ResolvedDeletes {
        deleted_positions: Arc::new(positions),
        equality: Vec::new(),
    });
    let mut source = IcebergParquetPageSource::new(
        whole_file("data.parquet", 8),
        &vec![column(1)],
        filter,
        Some(Vec::new()),
        DynamicFilterObservation::complete_all(),
        0,
    );
    let page = next_page(&mut source, &mut data_file(1), &[]).expect("page").expect("rows");
    assert_eq!(page.channels[0], vec!["0", "2", "3"]);
    let silent = FileBatch { fields: file_fields(), rows: 4, positions: None };
    let masks = PageMasks { applied: Vec::new(), previously: Vec::new() };
    assert_eq!(
        source.finish_page(&silent, &masks, &Vec::new(), &Vec::new()),
        Err(ConnectorError::Corrupt(CorruptData::DeletesWithoutPositions))
    );
}

#[test]
fn a_source_counts_time_and_memory_and_lets_its_reader_go() {
    let mut source = source_of(whole_file("data.parquet", 8), &vec![column(1)]);
    assert_eq!(source.memory_usage_bytes(5), 10);
    next_page(&mut source, &mut data_file(2), &[]).expect("page");
    assert_eq!(source.memory_usage_bytes(5), 15);
    source.spent(u64::MAX);
    source.spent(1);
    assert_eq!(source.metrics().read_time_nanos, u64::MAX);
    assert!(source.close(60));
    assert_eq!(source.metrics().completed_bytes, 60);
    assert!(!source.close(61));
    assert_eq!(source.metrics().completed_bytes, 60);
    assert_eq!(source.memory_usage_bytes(5), 10);
    assert!(source.is_finished());
}

#[test]
fn the_fast_path_needs_all_of_its_preconditions() {
    let values = emea();
    let is_parquet = |split: &IcebergSplit, columns: &Vec<IcebergColumnHandle>| {
        matches!(fast_path(split, columns, &values, 4), Ok(PageSourceChoice::Parquet))
    };
    let whole = whole_file("a.parquet", 7);
    assert!(!is_parquet(&whole, &vec![column(2)]));
    assert!(is_parquet(&whole, &vec![column(1)]));
    assert!(is_parquet(&whole, &vec![column(2), row_id()]));
    assert!(is_parquet(&bounded(4, 100, 7), &vec![column(2)]));
    let mut with_delete = whole_file("a.parquet", 7);
    with_delete.deletes.push(region_delete("d.parquet"));
    assert!(is_parquet(&with_delete, &vec![column(2)]));

    let negative = whole_file("a.parquet", -1);
    assert_eq!(
        error_of(fast_path(&negative, &vec![column(2)], &values, 4)),
        ConnectorError::Corrupt(CorruptData::NegativeRecordCount)
    );
    let none = Vec::new();
    assert!(matches!(fast_path(&whole, &vec![column(2)], &none, 4), Ok(PageSourceChoice::Parquet)));
}

#[test]
fn constant_pages_hold_every_record_once() {
    let values = emea();
    let split = whole_file("a.parquet", 7);
    let mut source = partition_only(fast_path(&split, &vec![column(2)], &values, 3));
    assert_eq!(source.next_rows(), 3);
    let failed = ConnectorError::Reported(ConnectorErrorKind::CorruptData);
    assert_eq!(source.next_source_page(Err(failed)), Err(failed));
    assert_eq!(source.metrics().completed_positions, 0);
    let mut sizes = Vec::new();
    while let Some(page) = source.next_source_page(Ok(())).expect("page") {
        sizes.push(page.rows);
    }
    assert_eq!(sizes, vec![3, 3, 1]);
    assert_eq!(source.metrics().completed_positions, 7);
    assert_eq!(source.memory_usage_bytes(), 33);
    let mut closed = partition_only(fast_path(&split, &vec![column(2)], &values, 3));
    closed.close();
    assert!(closed.is_finished());
    assert_eq!(closed.next_source_page(Ok(())), Ok(None));
}

#[test]
fn partition_data_is_a_struct_or_a_failure() {
    let mut split = whole_file("a.parquet", 7);
    split.partition_data_json = "{\"1000\":\"emea\"}".to_string();
    let values = parse_partition_values(&split, true, PartitionLiteral::Struct(emea()));
    assert_eq!(values.map(|list| list.len()), Ok(1));
    let mut garbled = whole_file("a.parquet", 7);
    garbled.partition_data_json = "{".to_string();
    assert_eq!(
        error_of(parse_partition_values(&garbled, true, PartitionLiteral::Struct(emea()))),
        ConnectorError::Corrupt(CorruptData::PartitionDataJson)
    );
    assert_eq!(
        error_of(partition_values_of(false, true, PartitionLiteral::Other)),
        ConnectorError::Invalid(InvalidRequest::PartitionSpecDoesNotBind)
    );
    assert_eq!(
        error_of(partition_values_of(true, true, PartitionLiteral::Other)),
        ConnectorError::Corrupt(CorruptData::PartitionDataNotStruct)
    );
    assert_eq!(
        error_of(partition_values_of(true, true, PartitionLiteral::Undecodable)),
        ConnectorError::Corrupt(CorruptData::PartitionDataLiteral)
    );
}

#[test]
fn a_dynamic_filter_is_observed_and_prunes_nothing() {
    let observed = DynamicFilterObservation::observe(2, false, false);
    assert_eq!(observed.covered_columns(), 2);
    assert!(observed.constrains_anything());
    assert!(!observed.is_complete());
    let all = DynamicFilterObservation::complete_all();
    assert_eq!(all.covered_columns(), 0);
    assert!(!all.constrains_anything());
    assert!(all.is_complete());
    for checkpoint in [
        DynamicFilterCheckpoint::Footer,
        DynamicFilterCheckpoint::FirstRowGroup,
        DynamicFilterCheckpoint::NextRowGroup,
    ] {
        assert_eq!(consult_dynamic_filter(&observed, checkpoint), DynamicFilterVerdict::ReadEverything);
    }
    let mut source = source_of(whole_file("data.parquet", 8), &vec![column(1)]);
    assert_eq!(source.next_action(), SourceAction::Open);
    next_page(&mut source, &mut data_file(2), &[]).expect("page");
    assert_eq!(source.next_action(), SourceAction::ReadBatch(DynamicFilterCheckpoint::NextRowGroup));
}

#[test]
fn a_domain_reads_only_its_own_carrier() {
    let flat = |data_type: DataType, cell: Cell| Column::Flat { data_type, cells: vec![cell] };
    let longs = flat(DataType::Int64, Cell::Int64(7));
    assert!(matches!(connector_value_at(&longs, ConnectorValueType::BigInt, 0), Ok(ConnectorValue::BigInt(7))));
    assert_eq!(
        error_of(connector_value_at(&longs, ConnectorValueType::Integer, 0)),
        ConnectorError::Corrupt(CorruptData::PredicateCarrier)
    );
    let decimals = flat(DataType::Decimal128(9, 2), Cell::Int128(150));
    match connector_value_at(&decimals, ConnectorValueType::Decimal { precision: 18, scale: 2 }, 0) {
        Ok(ConnectorValue::Decimal { unscaled, precision, scale }) => {
            assert_eq!((unscaled, precision, scale), (150, 18, 2));
        }
        _ => panic!("expected a decimal"),
    }
    let zoned = flat(DataType::Timestamp(TimeUnit::Microsecond, Some("UTC".to_string())), Cell::Int64(3));
    assert!(matches!(
        connector_value_at(&zoned, ConnectorValueType::TimestampMicros, 0),
        Ok(ConnectorValue::TimestampMicros(3))
    ));
    assert!(connector_value_at(&zoned, ConnectorValueType::TimestampNanos, 0).is_err());
    let texts = flat(DataType::LargeUtf8, Cell::Text("x".to_string()));
    match connector_value_at(&texts, ConnectorValueType::Varchar, 0) {
        Ok(ConnectorValue::Varchar(text)) => assert_eq!(text, "x"),
        _ => panic!("expected a text"),
    }
    let uuid = flat(DataType::FixedSizeBinary(16), Cell::Bytes(vec![1; 16]));
    assert!(matches!(connector_value_at(&uuid, ConnectorValueType::Uuid, 0), Ok(ConnectorValue::Uuid(_))));
    let short = flat(DataType::FixedSizeBinary(4), Cell::Bytes(vec![1; 4]));
    assert_eq!(
        error_of(connector_value_at(&short, ConnectorValueType::Uuid, 0)),
        ConnectorError::Corrupt(CorruptData::UuidWidth)
    );
    match connector_value_at(&short, ConnectorValueType::Fixed { width: 4 }, 0) {
        Ok(ConnectorValue::Fixed(bytes)) => assert_eq!(bytes, vec![1; 4]),
        _ => panic!("expected fixed bytes"),
    }
    let nulls = flat(DataType::Int64, Cell::Null);
    let domain = Domain { value_type: ConnectorValueType::BigInt, null_allowed: true };
    assert_eq!(evaluate_domain(&nulls, &domain, &vec![Ok(false)]), Ok(vec![true]));
    assert_eq!(evaluate_domain(&longs, &domain, &vec![Ok(false)]), Ok(vec![false]));
    assert_eq!(surviving_positions(&vec![true, false, true]), vec![0, 2]);
}

#[test]
fn a_footer_is_read_once() {
    let mut footers = ParquetFooterCache::new();
    assert!(footers.is_empty());
    assert_eq!(footers.footer(&"a.parquet".to_string()), None);
    footers.remember("a.parquet".to_string(), 4);
    footers.remember("b.parquet".to_string(), 5);
    footers.remember("a.parquet".to_string(), 6);
    assert_eq!(footers.footer(&"a.parquet".to_string()), Some(6));
    assert_eq!(footers.footer(&"b.parquet".to_string()), Some(5));
    assert_eq!(footers.len(), 2);
    assert!(!footers.is_empty());
}

#[test]
fn a_stream_opens_once_and_holds_its_split_between_steps() {
    let mut stream = IcebergParquetPageStream::new(9);
    assert_eq!(stream.close(), CloseReader::Nothing);
    assert_eq!(stream.advance_successor_preparation(), SuccessorAdvance::Deferred);
    assert_eq!(stream.poll_next(false), StreamAction::OpenAndProduce);
    assert_eq!(stream.poll_next(false), StreamAction::PollStep);
    assert_eq!(stream.close(), CloseReader::DropStep);
    let metrics = PageSourceMetrics { completed_bytes: 1, completed_positions: 2, read_time_nanos: 3 };
    assert_eq!(stream.step_ended(Some((metrics, 40)), Ok(true)), StreamItem::Page);
    assert_eq!(stream.metrics(), metrics);
    assert_eq!(stream.memory_usage_bytes(2, Some(3)), 45);
    assert_eq!(stream.memory_usage_bytes(u64::MAX, None), u64::MAX);
    assert_eq!(stream.advance_successor_preparation(), SuccessorAdvance::Advance);
    assert_eq!(stream.successor_preparation_candidate_count(1, 5), 1);
    assert_eq!(stream.close(), CloseReader::Close);
    assert_eq!(stream.poll_next(true), StreamAction::End);
    assert_eq!(stream.poll_next(false), StreamAction::Produce);
    assert_eq!(stream.successor_preparation_candidate_count(1, 5), 5);
    assert_eq!(stream.step_ended(Some((metrics, 40)), Ok(false)), StreamItem::End);

    let failed = ConnectorError::Reported(ConnectorErrorKind::Unavailable);
    let mut broken = IcebergParquetPageStream::new(9);
    broken.poll_next(false);
    assert_eq!(broken.step_ended(None, Err(failed)), StreamItem::Failure(failed));
    assert_eq!(broken.step, StreamStep::Ended);
    assert_eq!(broken.poll_next(false), StreamAction::End);
    assert_eq!(broken.memory_usage_bytes(0, None), 9);

    assert_eq!(close_outcome(Err(failed), Some(Ok(()))), Err(failed));
    assert_eq!(close_outcome(Ok(()), Some(Err(failed))), Err(failed));
    assert_eq!(close_outcome(Ok(()), None), Ok(()));
}

#[test]
fn a_constant_stream_spends_one_unit_for_each_page() {
    let mut stream = IcebergPartitionOnlyPageStream::new();
    assert!(stream.asks_for_budget(false));
    assert_eq!(stream.poll_next(false, false), ConstantStreamAction::Wait);
    assert!(!stream.asks_for_budget(false));
    assert_eq!(stream.poll_next(false, true), ConstantStreamAction::Produce);
    assert!(stream.asks_for_budget(false));
    assert_eq!(stream.poll_next(true, false), ConstantStreamAction::End);
    assert!(!stream.asks_for_budget(true));
}

#[test]
fn a_stream_is_chosen_as_a_source_is() {
    let (schema, read, partition_spec, values) = (iceberg_schema(), read_fields(), spec(true), emea());
    let split = whole_file("a.parquet", 7);
    let columns = vec![column(1)];
    let request = IcebergPageSourceRequest {
        split: &split,
        table_schema: &schema,
        read_fields: &read,
        partition_spec: &partition_spec,
        partition_values: &values,
        columns: &columns,
        predicate_is_all: true,
    };
    match create_iceberg_page_stream(&request, 4, 21) {
        Ok(PageStreamChoice::Parquet(stream)) => assert_eq!(stream.memory_usage_bytes(0, None), 21),
        _ => panic!("expected a stream over the file"),
    }
    let regions = vec![column(2)];
    let request = IcebergPageSourceRequest { columns: &regions, ..request };
    match create_iceberg_page_stream(&request, 4, 21) {
        Ok(PageStreamChoice::PartitionOnly(source, _)) => assert_eq!(source.total_rows, 7),
        _ => panic!("expected a stream of constants"),
    }
}
