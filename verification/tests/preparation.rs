//! Reading ahead of demand, and rewriting position deletes.

use roaring::RoaringTreemap;

use iceberg_connector::carrier::DataType;
use iceberg_connector::column::{Cell, Column};
use iceberg_connector::column_handle::IcebergColumnHandle;
use iceberg_connector::error::{ConnectorError, ConnectorErrorKind, InvalidRequest, UnsupportedFeature};
use iceberg_connector::metadata_column::IcebergMetadataColumn;
use iceberg_connector::page_source_provider::{
    create_page_source, create_page_stream, disabled_external_cache_options, expect_rewrite_position_delete_files,
    prepare_page_source, CandidateOutcome, IcebergPageSourceProvider,
    IcebergPageSourceProviderOptions, IcebergPreparedPageSource,
    IcebergReaderChoice, IcebergRelationCategory, IcebergSplitCategory, IcebergTableExecuteProcedure, OpenOutcome,
    StageAction, StageEvent,
};
use iceberg_connector::page_stream::IcebergParquetPageStream;
use iceberg_connector::preparation::{
    AdvanceAction, ConnectorPreparationProgress, ControlEffects, FileReadRange, Phase, PlannedInput, PreparedFileInput,
    PreparedRangeCandidate, Shared, StartOutcome, SuccessorPreparationGroup,
};
use iceberg_connector::rewrite_position_page_source::{
    create_iceberg_rewrite_position_delete_files_page_stream, resolve_outputs, selected_delete_specs,
    IcebergRewritePositionDeleteFilesPageSource, IcebergRewritePositionDeleteFilesPageSourceRequest,
    IcebergRewritePositionDeleteFilesSplit, RewritePage,
    RewritePositionOutput,
};
use iceberg_connector::split::{IcebergDeleteFile, IcebergDeleteFileContent, IcebergFileFormat};
use iceberg_connector::types::{PrimitiveType, Type};

const CORRUPT: ConnectorError = ConnectorError::Reported(ConnectorErrorKind::CorruptData);

fn input(start: u64, end: u64) -> PreparedFileInput {
    PreparedFileInput { start, end, backing_capacity: end - start }
}

#[test]
fn prefetch_respects_remaining_capacity_and_transfers_exact_input() {
    let mut candidate = PreparedRangeCandidate::new(true, true).expect("candidate");
    let planned = PlannedInput { file_size: 16, range: FileReadRange::Bounded { offset: 0, length: 16 } };
    let taken = loop {
        let progress = match candidate.advance(4).expect("advance candidate") {
            AdvanceAction::Report(progress) => progress,
            AdvanceAction::Plan => candidate.planned(Ok(Some(planned))),
            AdvanceAction::Start { offset, length } => {
                assert_eq!((offset, length), (0, 4));
                candidate.started(StartOutcome::Started);
                assert!(candidate.retained_input_bytes() <= 4);
                let generation = candidate.shared.generation;
                assert!(candidate.shared.finish_read(generation, Ok(input(offset, offset + length)), Ok(())));
                ConnectorPreparationProgress::Pending
            }
        };
        assert!(candidate.retained_input_bytes() <= 4);
        if progress == ConnectorPreparationProgress::Ready {
            break candidate.take_ready().expect("ready input");
        }
    }
    .expect("physical prepared input");
    assert_eq!((taken.start, taken.end), (0, 4));
    assert_eq!(taken.backing_capacity, 4);
    assert_eq!(candidate.retained_input_bytes(), 0);
    candidate.shared.request_stop();
    assert!(candidate.shared.is_drained());
}

#[test]
fn reclaim_preserves_a_real_error_and_wakes_actual_drain_waiter() {
    let mut shared = Shared::new(None);
    shared.active_jobs = 1;
    shared.reserved_bytes = 8;
    shared.phase = Phase::Failed;
    shared.failure = Some(CORRUPT);
    let effects = shared.request_reclaim();
    assert!(matches!(shared.phase, Phase::Failed));
    assert!(shared.failure.is_some());
    assert_eq!(shared.reserved_bytes, 8);
    assert!(effects.wake_waiters);
    assert!(!shared.is_drained());
    shared.finish_job(shared.generation, None);
    shared.reserved_bytes = 0;
    assert!(shared.is_drained());
}

#[test]
fn reclaim_keeps_a_physical_error_published_after_generation_changed() {
    let mut shared = Shared::new(None);
    shared.phase = Phase::Reading;
    shared.active_jobs = 1;
    shared.reserved_bytes = 8;
    shared.request_reclaim();
    assert!(!shared.finish_job(0, Some(CORRUPT)));
    assert!(matches!(shared.phase, Phase::Failed));
    assert_eq!(shared.failure.map(|error| error.kind()), Some(ConnectorErrorKind::CorruptData));
    assert_eq!(shared.reserved_bytes, 0);
    assert!(shared.is_drained());
}

#[test]
fn a_late_result_of_an_older_attempt_publishes_nothing() {
    let mut shared = Shared::new(None);
    shared.phase = Phase::Reading;
    shared.active_jobs = 1;
    shared.reserved_bytes = 8;
    let generation = shared.generation;
    shared.request_reclaim();
    assert!(!shared.finish_read(generation, Ok(input(0, 8)), Ok(())));
    assert_eq!(shared.ready_input, None);
    assert_eq!(shared.retained_input_bytes(), 0);
}

#[test]
fn a_candidate_asks_only_for_what_it_may_spend() {
    let whole = PlannedInput { file_size: 16, range: FileReadRange::WholeFile };
    let mut strict =
        PreparedRangeCandidate::new_with_present(true, true, None, false).expect("candidate");
    assert_eq!(strict.advance(4), Ok(AdvanceAction::Plan));
    strict.planned(Ok(Some(whole)));
    assert_eq!(
        strict.advance(4),
        Ok(AdvanceAction::Report(ConnectorPreparationProgress::Deferred))
    );
    assert_eq!(strict.advance(16), Ok(AdvanceAction::Start { offset: 0, length: 16 }));
    assert_eq!(strict.started(StartOutcome::Declined), ConnectorPreparationProgress::Deferred);
    assert_eq!(strict.retained_input_bytes(), 0);
    strict.shared.request_pause();
    assert_eq!(
        strict.advance(16),
        Ok(AdvanceAction::Report(ConnectorPreparationProgress::Pending))
    );
    strict.shared.request_resume();
    assert_eq!(strict.advance(16), Ok(AdvanceAction::Start { offset: 0, length: 16 }));
    assert_eq!(strict.started(StartOutcome::Failed(CORRUPT)), ConnectorPreparationProgress::Ready);
    assert_eq!(strict.take_ready(), Err(CORRUPT));

    assert_eq!(PreparedRangeCandidate::new(false, true), None);
    assert_eq!(PreparedRangeCandidate::new(true, false), None);

    let mut beyond = PreparedRangeCandidate::new(true, true).expect("candidate");
    assert_eq!(beyond.advance(4), Ok(AdvanceAction::Plan));
    beyond.planned(Ok(Some(PlannedInput {
        file_size: 16,
        range: FileReadRange::Bounded { offset: u64::MAX, length: 2 },
    })));
    assert_eq!(
        beyond.advance(4),
        Err(ConnectorError::Invalid(InvalidRequest::RangeBeyondAddressSpace))
    );
}

#[test]
fn the_provider_shares_one_footer_cache_and_one_delete_manager() {
    let mut options = IcebergPageSourceProviderOptions::with_default_budget();
    options.budget.max_rows = 1024;
    options.budget.max_bytes = 1024 * 1024;
    let mut provider = IcebergPageSourceProvider::new(options);
    assert!(provider.footers().is_empty());
    assert_eq!(provider.delete_manager().loaded_artifacts(), 0);
    assert!(std::ptr::eq(provider.footers(), provider.footers()));
    assert!(std::ptr::eq(provider.delete_manager(), provider.delete_manager()));
    provider.footers.remember("a.parquet".to_string(), 1);
    assert_eq!(provider.footers().footer(&"a.parquet".to_string()), Some(1));
}

/// Drive the stages of a file of `file_size` bytes whose footer begins at byte `footer`.
fn prepare(source: &mut IcebergPreparedPageSource, footer: u64) -> SuccessorPreparationGroup {
    let mut group = SuccessorPreparationGroup::new();
    let file_size = source.file_size as u64;
    let mut range = (0, 0);
    let mut event = StageEvent::Poll { remaining: file_size, reclaim_epoch: 0, saved_error: None };
    for _ in 0..32 {
        event = match source.advance_stages(event) {
            StageAction::Report(ConnectorPreparationProgress::Ready) => return group,
            StageAction::Report(_) => {
                StageEvent::Poll { remaining: file_size, reclaim_epoch: 0, saved_error: None }
            }
            StageAction::HoldAndReport(input) => {
                group.hold_input(input);
                return group;
            }
            StageAction::OpenTail { file_size: size, offset, length } => {
                assert_eq!(size, file_size);
                range = (offset, length);
                StageEvent::TailOpened(OpenOutcome::Opened)
            }
            StageAction::AdvanceCandidate => StageEvent::CandidateAdvanced(CandidateOutcome::Finished(Ok(Some(
                input(range.0, range.0 + range.1),
            )))),
            StageAction::LocateFooter(tail) => {
                StageEvent::FooterLocated { tail, range: Ok((footer, file_size - footer)) }
            }
            StageAction::OpenFooter { offset, length, .. } => {
                range = (offset, length);
                StageEvent::FooterOpened(true)
            }
            StageAction::ParseFooter(input) => StageEvent::FooterParsed { input, parsed: Ok(()), held: false },
            StageAction::PlanData => StageEvent::DataPlanned(Ok(Some(PlannedInput {
                file_size,
                range: FileReadRange::Bounded { offset: 4, length: 100 },
            }))),
            StageAction::OpenData(planned) => {
                range = match planned.range {
                    FileReadRange::WholeFile => (0, planned.file_size),
                    FileReadRange::Bounded { offset, length } => (offset, length),
                };
                StageEvent::DataOpened(true)
            }
        };
    }
    panic!("staged preparation did not finish")
}

fn staged_small_file() -> (IcebergPreparedPageSource, SuccessorPreparationGroup, u64) {
    let file_size = 600;
    let mut prepared = prepare_page_source(
        IcebergRelationCategory::Table,
        IcebergSplitCategory::Data(IcebergFileFormat::Parquet),
        true,
        file_size,
        1 << 20,
    )
    .expect("a data split is prepared");
    let group = prepare(&mut prepared, 500);
    assert!(prepared.failure.is_none());
    assert!(prepared.footer);
    assert_eq!(group.retained_input_bytes(), file_size as u64);
    (prepared, group, file_size as u64)
}

#[test]
fn staged_small_file_preparation_parses_on_advance_and_promotes() {
    let (mut prepared, mut group, file_size) = staged_small_file();
    let held = group.take_input();
    let promoted = prepared.promotion(held, Ok(None)).expect("promote prepared source").expect("input");
    // The one input holds the footer and every row of the file.
    assert_eq!((promoted.start, promoted.end), (0, file_size));
    assert_eq!(group.retained_input_bytes(), 0);
    assert_eq!(group.take_input(), None);
}

#[test]
fn a_stream_promoted_from_a_prepared_split_counts_its_input_from_creation() {
    let (_, group, file_size) = staged_small_file();
    let split_bytes = 321;
    let stream = IcebergParquetPageStream::new(split_bytes);
    let bytes = stream.memory_usage_bytes(0, Some(group.retained_input_bytes()));
    assert!(bytes >= split_bytes + file_size);
}

#[test]
fn a_large_file_is_prepared_in_three_stages() {
    let mut prepared = IcebergPreparedPageSource::new(1_000_000, 1_000);
    let group = prepare(&mut prepared, 990_000);
    assert!(prepared.footer);
    // The first data range is what the source picks up.
    assert_eq!(group.input().map(|held| (held.start, held.end)), Some((4, 104)));
}

#[test]
fn a_failed_stage_stays_failed_until_it_is_promoted() {
    let mut prepared = IcebergPreparedPageSource::new(600, 1_000);
    let poll = StageEvent::Poll { remaining: 600, reclaim_epoch: 0, saved_error: None };
    assert!(matches!(prepared.advance_stages(poll), StageAction::OpenTail { .. }));
    let failed = prepared.advance_stages(StageEvent::TailOpened(OpenOutcome::Failed(CORRUPT)));
    assert!(matches!(failed, StageAction::Report(ConnectorPreparationProgress::Ready)));
    assert!(matches!(
        prepared.advance_stages(poll),
        StageAction::Report(ConnectorPreparationProgress::Ready)
    ));
    assert_eq!(prepared.promotion(None, Ok(None)), Err(CORRUPT));
    assert_eq!(prepared.failure, None);

    let mut tiny = IcebergPreparedPageSource::new(3, 1_000);
    tiny.advance_stages(poll);
    assert_eq!(tiny.failure, Some(ConnectorError::Invalid(InvalidRequest::FileTooSmallForFooter)));
}

#[test]
fn a_group_keeps_the_bytes_of_its_candidates() {
    let mut group = SuccessorPreparationGroup::new();
    let mut busy = Shared::new(Some(input(0, 5)));
    busy.phase = Phase::Reading;
    busy.active_jobs = 1;
    busy.reserved_bytes = 8;
    group.add(busy);
    group.add(Shared::new(None));
    assert_eq!(group.undrained_candidate_count(), 1);
    assert_eq!(group.retained_input_bytes(), 13);
    group.hold_input(input(0, 7));
    assert_eq!(group.retained_input_bytes(), 20);
    assert_eq!(group.input(), Some(input(0, 7)));
    let epoch = group.reclaim_epoch();
    group.request_reclaim();
    assert_ne!(group.reclaim_epoch(), epoch);
    group.request_stop();
    assert_eq!(group.undrained_candidate_count(), 1);
}

#[test]
fn a_group_passes_its_own_state_on_to_what_it_takes_in() {
    let running = || {
        let mut candidate = PreparedRangeCandidate::new(true, true).expect("candidate");
        let planned = PlannedInput { file_size: 16, range: FileReadRange::WholeFile };
        assert!(matches!(candidate.advance(16), Ok(AdvanceAction::Plan)));
        candidate.planned(Ok(Some(planned)));
        assert!(matches!(candidate.advance(16), Ok(AdvanceAction::Start { .. })));
        candidate.started(StartOutcome::Started);
        candidate
    };
    let nothing =
        ControlEffects { cancel_request: false, pause_request: false, resume_request: false, wake_waiters: false };
    let mut group = SuccessorPreparationGroup::new();
    assert_eq!(group.add(running().shared), nothing);
    group.request_pause();
    assert_eq!(group.add(running().shared), ControlEffects { pause_request: true, ..nothing });
    assert!(group.controls[1].paused);
    assert_eq!(group.add(Shared::new(None)), nothing);
    group.request_stop();
    assert_eq!(group.add(running().shared), ControlEffects { cancel_request: true, wake_waiters: true, ..nothing });
    assert_eq!(group.controls.last().expect("control").phase, Phase::Stopped);

    // A task that cannot be spawned is a failure, also behind a reclaim or a stop.
    for interrupt in [0, 1, 2] {
        let mut candidate = running();
        match interrupt {
            1 => assert!(candidate.shared.request_reclaim().cancel_request),
            2 => assert!(candidate.shared.request_stop().cancel_request),
            _ => {}
        }
        assert_eq!(candidate.spawn_failed(CORRUPT), ConnectorPreparationProgress::Ready);
        assert!(candidate.shared.is_drained());
        assert_eq!(candidate.take_ready(), Err(CORRUPT));
    }
}

#[test]
fn relations_and_splits_choose_their_reader() {
    let data = IcebergSplitCategory::Data(IcebergFileFormat::Parquet);
    assert_eq!(create_page_source(IcebergRelationCategory::Table, data), Ok(IcebergReaderChoice::Data));
    assert_eq!(
        create_page_source(IcebergRelationCategory::Table, IcebergSplitCategory::SystemFiles),
        Ok(IcebergReaderChoice::SystemFiles)
    );
    assert_eq!(
        create_page_source(IcebergRelationCategory::ChangeWindow, IcebergSplitCategory::ChangeWindow),
        Ok(IcebergReaderChoice::ChangeWindow)
    );
    let rewrite = IcebergTableExecuteProcedure::RewritePositionDeleteFiles;
    assert_eq!(
        create_page_source(
            IcebergRelationCategory::TableExecute(Some(rewrite)),
            IcebergSplitCategory::RewritePositionDeleteFiles
        ),
        Ok(IcebergReaderChoice::RewritePositionDeleteFiles)
    );
    assert_eq!(
        create_page_source(
            IcebergRelationCategory::TableExecute(None),
            IcebergSplitCategory::RewritePositionDeleteFiles
        ),
        Err(ConnectorError::Invalid(InvalidRequest::ProcedureDoesNotRewritePositionDeletes))
    );
    assert_eq!(
        create_page_source(IcebergRelationCategory::MergeTable, IcebergSplitCategory::ChangeWindow),
        Err(ConnectorError::Invalid(InvalidRequest::RelationAndSplitCategoriesDiffer))
    );
    assert_eq!(create_page_stream(IcebergRelationCategory::Table, data), Ok(IcebergReaderChoice::Data));
    assert_eq!(
        create_page_stream(IcebergRelationCategory::ChangeWindow, IcebergSplitCategory::ChangeWindow),
        Err(ConnectorError::Unsupported(UnsupportedFeature::PageStream))
    );
    assert_eq!(expect_rewrite_position_delete_files(Some(rewrite)), Ok(()));
    assert_eq!(prepare_page_source(IcebergRelationCategory::Table, data, false, 600, 1_000), None);
    let options = IcebergPageSourceProviderOptions::with_default_budget();
    assert_eq!((options.budget.max_rows, options.budget.max_bytes), (4096, 8 * 1024 * 1024));
    assert_eq!(options.cache_options, disabled_external_cache_options());
    assert!(!options.cache_options.enable_scan_datacache);
}

const DATA_FILE: &str = "/warehouse/data.parquet";

fn vector(offset: i64, size: i64) -> IcebergDeleteFile {
    IcebergDeleteFile {
        content: IcebergDeleteFileContent::PositionDeletes,
        path: "/warehouse/deletes.puffin".to_string(),
        format: IcebergFileFormat::Puffin,
        record_count: 2,
        file_size_in_bytes: 100,
        equality_field_ids: Vec::new(),
        row_position_lower_bound: None,
        row_position_upper_bound: None,
        data_sequence_number: 1,
        content_offset: Some(offset),
        content_size_in_bytes: Some(size),
        referenced_data_file: Some(DATA_FILE.to_string()),
        decryption_data: None,
    }
}

fn output(name: &str, metadata: IcebergMetadataColumn, primitive: PrimitiveType) -> IcebergColumnHandle {
    IcebergColumnHandle {
        base_field_id: metadata.field_id(),
        base_name: name.to_string(),
        base_type: Type::Primitive(primitive),
        field_id_path: Vec::new(),
        field_type: Type::Primitive(primitive),
        nullable: true,
    }
}

fn outputs() -> Vec<IcebergColumnHandle> {
    vec![
        output("file_path", IcebergMetadataColumn::Path, PrimitiveType::String),
        output("pos", IcebergMetadataColumn::RowPosition, PrimitiveType::Long),
    ]
}

/// Two selected vectors of one data file: positions {1, 4} and {4, 9}.
fn rewrite_source(max_rows: usize) -> IcebergRewritePositionDeleteFilesPageSource {
    let split = IcebergRewritePositionDeleteFilesSplit {
        data_file_path: DATA_FILE.to_string(),
        selected_position_deletes: vec![vector(0, 40), vector(40, 60)],
    };
    let columns = outputs();
    let load = create_iceberg_rewrite_position_delete_files_page_stream(
        &IcebergRewritePositionDeleteFilesPageSourceRequest { split: &split, columns: &columns },
    )
    .expect("load");
    assert_eq!(load.specs.len(), 2);
    let mut positions: RoaringTreemap = [1_u64, 4].into_iter().collect();
    positions |= [4_u64, 9].into_iter().collect::<RoaringTreemap>();
    IcebergRewritePositionDeleteFilesPageSource::of(
        &split.data_file_path,
        load.outputs,
        &load.specs,
        &positions,
        max_rows,
    )
    .expect("page source")
}

fn rows_of(page: &RewritePage) -> Vec<(String, i64)> {
    let cells = |place: usize| match &page.columns[place] {
        Column::Flat { data_type: _, cells } => cells,
        _ => panic!("expected a flat column"),
    };
    assert!(matches!(&page.columns[0], Column::Flat { data_type: DataType::Utf8, .. }));
    assert!(matches!(&page.columns[1], Column::Flat { data_type: DataType::Int64, .. }));
    (0..page.rows)
        .map(|row| match (&cells(0)[row], &cells(1)[row]) {
            (Cell::Text(path), Cell::Int64(position)) => (path.clone(), *position),
            _ => panic!("expected a path and a position"),
        })
        .collect()
}

#[test]
fn a_rewrite_stream_reads_selected_vectors_and_emits_canonical_output_columns() {
    let mut source = rewrite_source(16);
    let page = source.next_page().expect("one output page");
    let path = DATA_FILE.to_string();
    assert_eq!(rows_of(&page), vec![(path.clone(), 1), (path.clone(), 4), (path, 9)]);
    assert!(source.next_page().is_none());
    assert!(source.is_exhausted());
    assert_eq!(source.metrics().completed_bytes, 100);
    assert_eq!(source.metrics().completed_positions, 3);
    assert_eq!(source.memory_usage_bytes(), 3 * 8 + 23);
}

#[test]
fn a_rewrite_stream_reads_nothing_until_polled_and_then_emits_the_merged_positions() {
    let split = IcebergRewritePositionDeleteFilesSplit {
        data_file_path: DATA_FILE.to_string(),
        selected_position_deletes: vec![vector(0, 40), vector(40, 60)],
    };
    let columns = outputs();
    let load = create_iceberg_rewrite_position_delete_files_page_stream(
        &IcebergRewritePositionDeleteFilesPageSourceRequest { split: &split, columns: &columns },
    )
    .expect("page stream");
    assert_eq!(load.specs.len(), 2, "one read per selected vector");

    let mut source = rewrite_source(2);
    let path = DATA_FILE.to_string();
    let mut pages = Vec::new();
    while let Some(page) = source.next_page() {
        pages.push(rows_of(&page));
    }
    assert_eq!(
        pages,
        vec![vec![(path.clone(), 1), (path.clone(), 4)], vec![(path.clone(), 9)]]
    );
    let rows: Vec<(String, i64)> = pages.into_iter().flatten().collect();
    assert_eq!(rows, vec![(path.clone(), 1), (path.clone(), 4), (path, 9)]);
}

#[test]
fn a_rewrite_refuses_what_it_cannot_produce() {
    let refused = |column: IcebergColumnHandle| match resolve_outputs(&vec![column]) {
        Ok(_) => panic!("the column must be refused"),
        Err(error) => error,
    };
    assert_eq!(
        refused(output("path", IcebergMetadataColumn::Path, PrimitiveType::String)),
        ConnectorError::Invalid(InvalidRequest::RewriteOutputName)
    );
    assert_eq!(
        refused(output("position", IcebergMetadataColumn::RowPosition, PrimitiveType::Long)),
        ConnectorError::Invalid(InvalidRequest::RewriteOutputName)
    );
    assert_eq!(
        refused(output("$row_id", IcebergMetadataColumn::RowId, PrimitiveType::Long)),
        ConnectorError::Invalid(InvalidRequest::RewriteOutputUnknown)
    );
    let mut nested = output("pos", IcebergMetadataColumn::RowPosition, PrimitiveType::Long);
    nested.field_id_path = vec![3];
    assert_eq!(refused(nested), ConnectorError::Invalid(InvalidRequest::RewriteOutputNested));
    assert_eq!(
        resolve_outputs(&outputs()),
        Ok(vec![RewritePositionOutput::FilePath, RewritePositionOutput::Position])
    );

    let fault = |delete: IcebergDeleteFile| match selected_delete_specs(&vec![vector(0, 40), delete]) {
        Ok(_) => panic!("the vector must be refused"),
        Err(error) => error,
    };
    let mut without_offset = vector(0, 40);
    without_offset.content_offset = None;
    assert_eq!(fault(without_offset), ConnectorError::Invalid(InvalidRequest::VectorWithoutOffset));
    let mut without_size = vector(0, 40);
    without_size.content_size_in_bytes = None;
    assert_eq!(fault(without_size), ConnectorError::Invalid(InvalidRequest::VectorWithoutSize));

    let positions: RoaringTreemap = [u64::MAX].into_iter().collect();
    match IcebergRewritePositionDeleteFilesPageSource::of(
        &DATA_FILE.to_string(),
        Vec::new(),
        &Vec::new(),
        &positions,
        4,
    ) {
        Ok(_) => panic!("the position must be refused"),
        Err(error) => assert_eq!(error, ConnectorError::Invalid(InvalidRequest::VectorPositionBeyondInt64)),
    }
}
