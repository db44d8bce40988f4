//! The reader factory of one scan: which reader a relation and a split ask for, and the staged
//! preparation of a data split ahead of demand.
//!
//! Preparation reads the tail of a file, then the rest of its footer where the tail is too
//! short, then the first data range. The program performs each step and reports back.

use vstd::prelude::*;

use crate::delete_manager::DeleteManager;
use crate::error::{ConnectorError, InvalidRequest};
use crate::footer_cache::ParquetFooterCache;
use crate::preparation::{ConnectorPreparationProgress, PlannedInput, PreparedFileInput};
use crate::split::IcebergFileFormat;

verus! {

/// The fewest bytes that can hold a Parquet footer: its length and its magic.
pub const MIN_PARQUET_FOOTER_BYTES: u64 = 8;

/// The row budget of a page where the fragment states none.
pub const DEFAULT_MAX_PAGE_ROWS: usize = 4096;

/// The byte budget of a page where the fragment states none.
pub const DEFAULT_MAX_PAGE_BYTES: usize = 8388608;

/// How much one produced page may hold.
#[derive(Clone, Copy, Debug, PartialEq, Eq, Structural)]
pub struct FileReadBudget {
    pub max_rows: usize,
    pub max_bytes: usize,
}

/// The query's use of the external data cache.
#[derive(Clone, Copy, Debug, PartialEq, Eq, Structural)]
pub struct CacheOptions {
    pub enable_scan_datacache: bool,
    pub enable_populate_datacache: bool,
    pub enable_datacache_async_populate_mode: bool,
    pub enable_datacache_io_adaptor: bool,
    pub enable_cache_select: bool,
    pub datacache_evict_probability: i32,
    pub datacache_priority: i32,
    pub datacache_ttl_seconds: i64,
    pub datacache_sharing_work_period: Option<i64>,
}

/// Reader policy of one fragment instance.
#[derive(Clone, Copy, Debug, PartialEq, Eq, Structural)]
pub struct IcebergPageSourceProviderOptions {
    pub budget: FileReadBudget,
    pub cache_options: CacheOptions,
}

/// The cache options of a query that uses no external cache.
pub open spec fn disabled_cache() -> CacheOptions {
    CacheOptions {
        enable_scan_datacache: false,
        enable_populate_datacache: false,
        enable_datacache_async_populate_mode: false,
        enable_datacache_io_adaptor: false,
        enable_cache_select: false,
        datacache_evict_probability: 100,
        datacache_priority: 0,
        datacache_ttl_seconds: 0,
        datacache_sharing_work_period: None,
    }
}

pub fn disabled_external_cache_options() -> (options: CacheOptions)
    ensures
        options == disabled_cache(),
{
    CacheOptions {
        enable_scan_datacache: false,
        enable_populate_datacache: false,
        enable_datacache_async_populate_mode: false,
        enable_datacache_io_adaptor: false,
        enable_cache_select: false,
        datacache_evict_probability: 100,
        datacache_priority: 0,
        datacache_ttl_seconds: 0,
        datacache_sharing_work_period: None,
    }
}

impl IcebergPageSourceProviderOptions {
    /// The policy of a fragment instance that states no preference.
    pub fn with_default_budget() -> (options: IcebergPageSourceProviderOptions)
        ensures
            options.budget.max_rows == DEFAULT_MAX_PAGE_ROWS,
            options.budget.max_bytes == DEFAULT_MAX_PAGE_BYTES,
            options.cache_options == disabled_cache(),
    {
        IcebergPageSourceProviderOptions {
            budget: FileReadBudget {
                max_rows: DEFAULT_MAX_PAGE_ROWS,
                max_bytes: DEFAULT_MAX_PAGE_BYTES,
            },
            cache_options: disabled_external_cache_options(),
        }
    }
}

/// What the splits of one scan share: one policy, one footer for each file, one delete state.
pub struct IcebergPageSourceProvider {
    pub options: IcebergPageSourceProviderOptions,
    pub footers: ParquetFooterCache,
    pub delete_manager: DeleteManager,
}

impl IcebergPageSourceProvider {
    /// A provider that has read nothing.
    pub fn new(options: IcebergPageSourceProviderOptions) -> (provider: IcebergPageSourceProvider)
        ensures
            provider.options == options,
            provider.footers.wf(),
            provider.footers.entries@.len() == 0,
            provider.delete_manager.wf(),
            provider.delete_manager.loaded_artifacts == 0,
    {
        IcebergPageSourceProvider {
            options,
            footers: ParquetFooterCache::new(),
            delete_manager: DeleteManager::new(),
        }
    }

    /// The footers that every split shares.
    pub fn footers(&self) -> (footers: &ParquetFooterCache)
        ensures
            *footers == self.footers,
    {
        &self.footers
    }

    /// The delete state that every split shares.
    pub fn delete_manager(&self) -> (manager: &DeleteManager)
        ensures
            *manager == self.delete_manager,
    {
        &self.delete_manager
    }
}

// ---------------------------------------------------------------------------
// Dispatch
// ---------------------------------------------------------------------------

/// The procedure that a table-execute target runs.
#[derive(Clone, Copy, Debug, PartialEq, Eq, Structural)]
pub enum IcebergTableExecuteProcedure {
    Optimize,
    RewritePositionDeleteFiles,
}

/// The category of a relation that a scan names.
#[derive(Clone, Copy, Debug, PartialEq, Eq, Structural)]
pub enum IcebergRelationCategory {
    Table,
    TableFunction,
    ChangeWindow,
    SystemTable,
    TableExecute(Option<IcebergTableExecuteProcedure>),
    MergeTable,
}

/// The category of a split; a data split names the format of its file.
#[derive(Clone, Copy, Debug, PartialEq, Eq, Structural)]
pub enum IcebergSplitCategory {
    Data(IcebergFileFormat),
    TableChanges,
    ChangeWindow,
    SystemFiles,
    RewritePositionDeleteFiles,
}

/// The reader that a relation and a split ask for.
#[derive(Clone, Copy, Debug, PartialEq, Eq, Structural)]
pub enum IcebergReaderChoice {
    SystemFiles,
    ChangeWindow,
    RewritePositionDeleteFiles,
    Data,
}

/// A rewrite split may only run under the procedure that rewrites position deletes.
pub fn expect_rewrite_position_delete_files(procedure: Option<IcebergTableExecuteProcedure>) -> (result: Result<(), ConnectorError>)
    ensures
        result == (if procedure == Some(IcebergTableExecuteProcedure::RewritePositionDeleteFiles) {
            Ok(())
        } else {
            Err(ConnectorError::Invalid(InvalidRequest::ProcedureDoesNotRewritePositionDeletes))
        }),
{
    match procedure {
        Some(IcebergTableExecuteProcedure::RewritePositionDeleteFiles) => Ok(()),
        Some(IcebergTableExecuteProcedure::Optimize) | None => Err(
            ConnectorError::Invalid(InvalidRequest::ProcedureDoesNotRewritePositionDeletes),
        ),
    }
}

/// The reader for a relation and a split, or why there is none.
pub open spec fn reader_choice(
    relation: IcebergRelationCategory,
    split: IcebergSplitCategory,
) -> Result<IcebergReaderChoice, ConnectorError> {
    match (relation, split) {
        (_, IcebergSplitCategory::SystemFiles) => Ok(IcebergReaderChoice::SystemFiles),
        (IcebergRelationCategory::ChangeWindow, IcebergSplitCategory::ChangeWindow) => Ok(
            IcebergReaderChoice::ChangeWindow,
        ),
        (
            IcebergRelationCategory::TableExecute(procedure),
            IcebergSplitCategory::RewritePositionDeleteFiles,
        ) => if procedure == Some(IcebergTableExecuteProcedure::RewritePositionDeleteFiles) {
            Ok(IcebergReaderChoice::RewritePositionDeleteFiles)
        } else {
            Err(ConnectorError::Invalid(InvalidRequest::ProcedureDoesNotRewritePositionDeletes))
        },
        (IcebergRelationCategory::Table, IcebergSplitCategory::Data(_)) => Ok(
            IcebergReaderChoice::Data,
        ),
        _ => Err(ConnectorError::Invalid(InvalidRequest::RelationAndSplitCategoriesDiffer)),
    }
}

/// Choose the page source of a split.
pub fn create_page_source(
    relation: IcebergRelationCategory,
    split: IcebergSplitCategory,
) -> (choice: Result<IcebergReaderChoice, ConnectorError>)
    ensures
        choice == reader_choice(relation, split),
{
    if let IcebergSplitCategory::SystemFiles = split {
        return Ok(IcebergReaderChoice::SystemFiles);
    }
    match (relation, split) {
        (IcebergRelationCategory::ChangeWindow, IcebergSplitCategory::ChangeWindow) => Ok(
            IcebergReaderChoice::ChangeWindow,
        ),
        (
            IcebergRelationCategory::TableExecute(procedure),
            IcebergSplitCategory::RewritePositionDeleteFiles,
        ) => match expect_rewrite_position_delete_files(procedure) {
            Ok(_) => Ok(IcebergReaderChoice::RewritePositionDeleteFiles),
            Err(error) => Err(error),
        },
        (IcebergRelationCategory::Table, IcebergSplitCategory::Data(_)) => Ok(
            IcebergReaderChoice::Data,
        ),
        _ => Err(ConnectorError::Invalid(InvalidRequest::RelationAndSplitCategoriesDiffer)),
    }
}

/// Whether a split can be read as a page stream: so far, data splits of tables only.
pub fn create_page_stream(
    relation: IcebergRelationCategory,
    split: IcebergSplitCategory,
) -> (choice: Result<IcebergReaderChoice, ConnectorError>)
    ensures
        choice == (if relation is Table && split is Data {
            Ok(IcebergReaderChoice::Data)
        } else {
            Err(ConnectorError::Unsupported(crate::error::UnsupportedFeature::PageStream))
        }),
{
    match (relation, split) {
        (IcebergRelationCategory::Table, IcebergSplitCategory::Data(_)) => Ok(
            IcebergReaderChoice::Data,
        ),
        _ => Err(ConnectorError::Unsupported(crate::error::UnsupportedFeature::PageStream)),
    }
}

// ---------------------------------------------------------------------------
// Staged preparation
// ---------------------------------------------------------------------------

/// Which range a prepared split is after.
#[derive(Clone, Copy, Debug, PartialEq, Eq, Structural)]
pub enum FuturePreparationPhase {
    Unstarted,
    Tail,
    Footer,
    Data,
    Ready,
}

/// One data split that is prepared ahead of demand.
#[derive(Clone, Copy, Debug, PartialEq, Eq, Structural)]
pub struct IcebergPreparedPageSource {
    /// The file size that the split states.
    pub file_size: i64,
    /// The largest probe that is still worth one read.
    pub small_file_probe_max_bytes: u64,
    pub phase: FuturePreparationPhase,
    /// Whether the footer has been parsed.
    pub footer: bool,
    pub failure: Option<ConnectorError>,
    pub observed_reclaim_epoch: u64,
    /// What the last poll allowed to spend.
    pub remaining: u64,
}

/// How the tail candidate could be opened.
#[derive(Clone, Copy, Debug, PartialEq, Eq, Structural)]
pub enum OpenOutcome {
    Opened,
    /// There is no range scope or service to read through.
    Unavailable,
    Failed(ConnectorError),
}

/// What a step of the current candidate came to.
#[derive(Clone, Copy, Debug)]
pub enum CandidateOutcome {
    /// The candidate reported `Pending` or `Deferred`.
    Waiting(ConnectorPreparationProgress),
    /// The candidate reported `Ready`, and this is what it handed over.
    Finished(Result<Option<PreparedFileInput>, ConnectorError>),
    /// The step itself failed.
    Refused(ConnectorError),
}

/// What happened since the last action.
#[derive(Clone, Copy, Debug)]
pub enum StageEvent {
    /// The scheduler asks for progress. `saved_error` is what the current candidate holds, where
    /// the reclaim epoch moved.
    Poll { remaining: u64, reclaim_epoch: u64, saved_error: Option<ConnectorError> },
    TailOpened(OpenOutcome),
    CandidateAdvanced(CandidateOutcome),
    /// The tail named the footer's first byte and length.
    FooterLocated { tail: PreparedFileInput, range: Result<(u64, u64), ConnectorError> },
    FooterOpened(bool),
    /// The footer was parsed out of `input` and remembered. `held` says whether an input is kept
    /// for the source already.
    FooterParsed { input: PreparedFileInput, parsed: Result<(), ConnectorError>, held: bool },
    DataPlanned(Result<Option<PlannedInput>, ConnectorError>),
    DataOpened(bool),
}

/// What the program does next.
#[derive(Clone, Copy, Debug, PartialEq, Eq, Structural)]
pub enum StageAction {
    Report(ConnectorPreparationProgress),
    /// Keep this input for the source, then report `Ready`.
    HoldAndReport(PreparedFileInput),
    /// Resolve and bind the file, and arm a candidate for its last bytes.
    OpenTail { file_size: u64, offset: u64, length: u64 },
    /// Step the current candidate, and take its input when it is ready.
    AdvanceCandidate,
    /// Read where the footer begins out of the tail.
    LocateFooter(PreparedFileInput),
    /// Arm a candidate for the whole footer, which starts from the tail.
    OpenFooter { offset: u64, length: u64, tail: PreparedFileInput },
    ParseFooter(PreparedFileInput),
    PlanData,
    /// Arm a candidate for the first data range.
    OpenData(PlannedInput),
}

/// The number of bytes the tail probe reads: the whole file where it is small and affordable, and
/// never more than the probe, the file or the budget allows.
pub open spec fn tail_length(file_size: u64, probe: u64, remaining: u64) -> u64 {
    let capped = if file_size < probe {
        file_size
    } else {
        probe
    };
    if capped < remaining {
        capped
    } else {
        remaining
    }
}

fn tail_length_of(file_size: u64, probe: u64, remaining: u64) -> (length: u64)
    ensures
        length == tail_length(file_size, probe, remaining),
        length <= file_size,
{
    if file_size <= probe && file_size <= remaining {
        return file_size;
    }
    let capped: u64 = if file_size < probe {
        file_size
    } else {
        probe
    };
    if capped < remaining {
        capped
    } else {
        remaining
    }
}

impl IcebergPreparedPageSource {
    /// A split that nothing has been read of.
    pub fn new(file_size: i64, small_file_probe_max_bytes: u64) -> (source: IcebergPreparedPageSource)
        ensures
            source == (IcebergPreparedPageSource {
                file_size,
                small_file_probe_max_bytes,
                phase: FuturePreparationPhase::Unstarted,
                footer: false,
                failure: None,
                observed_reclaim_epoch: 0,
                remaining: 0,
            }),
    {
        IcebergPreparedPageSource {
            file_size,
            small_file_probe_max_bytes,
            phase: FuturePreparationPhase::Unstarted,
            footer: false,
            failure: None,
            observed_reclaim_epoch: 0,
            remaining: 0,
        }
    }

    /// Whether a candidate is armed.
    pub open spec fn has_candidate(self) -> bool {
        self.phase is Tail || self.phase is Footer || self.phase is Data
    }

    /// A failure ends preparation: the promoted split reports it.
    pub open spec fn failed(self, error: ConnectorError) -> (IcebergPreparedPageSource, StageAction) {
        (
            IcebergPreparedPageSource {
                failure: Some(error),
                phase: FuturePreparationPhase::Ready,
                ..self
            },
            StageAction::Report(ConnectorPreparationProgress::Ready),
        )
    }

    fn fail(&mut self, error: ConnectorError) -> (action: StageAction)
        ensures
            (*final(self), action) == old(self).failed(error),
    {
        self.failure = Some(error);
        self.phase = FuturePreparationPhase::Ready;
        StageAction::Report(ConnectorPreparationProgress::Ready)
    }

    pub open spec fn in_phase(self, phase: FuturePreparationPhase) -> IcebergPreparedPageSource {
        IcebergPreparedPageSource { phase, ..self }
    }

    /// The action that the phase asks for by itself.
    pub open spec fn resumed(self) -> (IcebergPreparedPageSource, StageAction) {
        match self.phase {
            FuturePreparationPhase::Unstarted => if self.remaining < MIN_PARQUET_FOOTER_BYTES {
                (self, StageAction::Report(ConnectorPreparationProgress::Deferred))
            } else if self.file_size < MIN_PARQUET_FOOTER_BYTES {
                self.failed(ConnectorError::Invalid(InvalidRequest::FileTooSmallForFooter))
            } else {
                let length = tail_length(
                    self.file_size as u64,
                    self.small_file_probe_max_bytes,
                    self.remaining,
                );
                (
                    self,
                    StageAction::OpenTail {
                        file_size: self.file_size as u64,
                        offset: (self.file_size - length) as u64,
                        length,
                    },
                )
            },
            FuturePreparationPhase::Tail | FuturePreparationPhase::Footer
            | FuturePreparationPhase::Data => (self, StageAction::AdvanceCandidate),
            FuturePreparationPhase::Ready => (
                self,
                StageAction::Report(ConnectorPreparationProgress::Ready),
            ),
        }
    }

    fn resume(&mut self) -> (action: StageAction)
        ensures
            (*final(self), action) == old(self).resumed(),
    {
        match self.phase {
            FuturePreparationPhase::Unstarted => {
                if self.remaining < MIN_PARQUET_FOOTER_BYTES {
                    return StageAction::Report(ConnectorPreparationProgress::Deferred);
                }
                if self.file_size < 8 {
                    return self.fail(
                        ConnectorError::Invalid(InvalidRequest::FileTooSmallForFooter),
                    );
                }
                let file_size: u64 = self.file_size as u64;
                let length: u64 = tail_length_of(
                    file_size,
                    self.small_file_probe_max_bytes,
                    self.remaining,
                );
                StageAction::OpenTail { file_size, offset: file_size - length, length }
            },
            FuturePreparationPhase::Tail | FuturePreparationPhase::Footer
            | FuturePreparationPhase::Data => StageAction::AdvanceCandidate,
            FuturePreparationPhase::Ready => StageAction::Report(
                ConnectorPreparationProgress::Ready,
            ),
        }
    }

    /// The step for what the current candidate came to.
    pub open spec fn after_candidate(self, outcome: CandidateOutcome) -> (IcebergPreparedPageSource, StageAction) {
        match outcome {
            CandidateOutcome::Waiting(progress) => (self, StageAction::Report(progress)),
            CandidateOutcome::Refused(error) => self.failed(error),
            CandidateOutcome::Finished(Err(error)) => self.failed(error),
            CandidateOutcome::Finished(Ok(None)) => self.failed(
                ConnectorError::Invalid(
                    match self.phase {
                        FuturePreparationPhase::Footer => InvalidRequest::FooterWithoutInput,
                        FuturePreparationPhase::Data => InvalidRequest::DataRangeWithoutInput,
                        _ => InvalidRequest::TailWithoutInput,
                    },
                ),
            ),
            CandidateOutcome::Finished(Ok(Some(input))) => match self.phase {
                FuturePreparationPhase::Footer => (self, StageAction::ParseFooter(input)),
                FuturePreparationPhase::Data => (
                    self.in_phase(FuturePreparationPhase::Ready),
                    StageAction::HoldAndReport(input),
                ),
                _ => (self, StageAction::LocateFooter(input)),
            },
        }
    }

    /// The step for an event: the state it leaves and what the program does next.
    pub open spec fn stepped(self, event: StageEvent) -> (IcebergPreparedPageSource, StageAction) {
        match event {
            StageEvent::Poll { remaining, reclaim_epoch, saved_error } => {
                let polled = IcebergPreparedPageSource { remaining, ..self };
                if self.failure is Some {
                    (self, StageAction::Report(ConnectorPreparationProgress::Ready))
                } else if reclaim_epoch == self.observed_reclaim_epoch {
                    polled.resumed()
                } else if self.has_candidate() && saved_error is Some {
                    polled.failed(saved_error->0)
                } else {
                    IcebergPreparedPageSource {
                        observed_reclaim_epoch: reclaim_epoch,
                        phase: FuturePreparationPhase::Unstarted,
                        footer: false,
                        ..polled
                    }.resumed()
                }
            },
            StageEvent::TailOpened(OpenOutcome::Opened) => (
                self.in_phase(FuturePreparationPhase::Tail),
                StageAction::AdvanceCandidate,
            ),
            StageEvent::TailOpened(OpenOutcome::Unavailable) => (
                self.in_phase(FuturePreparationPhase::Unstarted),
                StageAction::Report(ConnectorPreparationProgress::Deferred),
            ),
            StageEvent::TailOpened(OpenOutcome::Failed(error)) => self.failed(error),
            StageEvent::CandidateAdvanced(outcome) => self.after_candidate(outcome),
            StageEvent::FooterLocated { range: Err(error), .. } => self.failed(error),
            StageEvent::FooterLocated { tail, range: Ok((offset, length)) } => (
                self,
                if tail.start <= offset {
                    StageAction::ParseFooter(tail)
                } else {
                    StageAction::OpenFooter { offset, length, tail }
                },
            ),
            StageEvent::FooterOpened(true) => (
                self.in_phase(FuturePreparationPhase::Footer),
                StageAction::AdvanceCandidate,
            ),
            StageEvent::FooterOpened(false) => self.failed(
                ConnectorError::Invalid(InvalidRequest::FooterLostRangeScope),
            ),
            StageEvent::FooterParsed { parsed: Err(error), .. } => self.failed(error),
            StageEvent::FooterParsed { input, parsed: Ok(_), held } => {
                let parsed = IcebergPreparedPageSource { footer: true, ..self };
                if input.start == 0 && input.end == self.file_size {
                    (
                        parsed.in_phase(FuturePreparationPhase::Ready),
                        StageAction::HoldAndReport(input),
                    )
                } else if held {
                    (
                        parsed.in_phase(FuturePreparationPhase::Ready),
                        StageAction::Report(ConnectorPreparationProgress::Ready),
                    )
                } else {
                    (parsed, StageAction::PlanData)
                }
            },
            StageEvent::DataPlanned(Err(error)) => self.failed(error),
            StageEvent::DataPlanned(Ok(planned)) => if !self.footer {
                self.failed(ConnectorError::Invalid(InvalidRequest::DataPlannedWithoutFooter))
            } else {
                match planned {
                    Some(planned) => (self, StageAction::OpenData(planned)),
                    None => (
                        self.in_phase(FuturePreparationPhase::Ready),
                        StageAction::Report(ConnectorPreparationProgress::Ready),
                    ),
                }
            },
            StageEvent::DataOpened(true) => (
                self.in_phase(FuturePreparationPhase::Data),
                StageAction::AdvanceCandidate,
            ),
            StageEvent::DataOpened(false) => (
                self.in_phase(FuturePreparationPhase::Ready),
                StageAction::Report(ConnectorPreparationProgress::Ready),
            ),
        }
    }

    /// Take one step of the staged preparation.
    pub fn advance_stages(&mut self, event: StageEvent) -> (action: StageAction)
        ensures
            (*final(self), action) == old(self).stepped(event),
    {
        match event {
            StageEvent::Poll { remaining, reclaim_epoch, saved_error } => {
                if self.failure.is_some() {
                    return StageAction::Report(ConnectorPreparationProgress::Ready);
                }
                self.remaining = remaining;
                if reclaim_epoch != self.observed_reclaim_epoch {
                    match self.phase {
                        FuturePreparationPhase::Tail | FuturePreparationPhase::Footer
                        | FuturePreparationPhase::Data => {
                            if let Some(error) = saved_error {
                                return self.fail(error);
                            }
                        },
                        FuturePreparationPhase::Unstarted | FuturePreparationPhase::Ready => {},
                    }
                    self.observed_reclaim_epoch = reclaim_epoch;
                    self.phase = FuturePreparationPhase::Unstarted;
                    self.footer = false;
                }
                self.resume()
            },
            StageEvent::TailOpened(outcome) => match outcome {
                OpenOutcome::Opened => {
                    self.phase = FuturePreparationPhase::Tail;
                    StageAction::AdvanceCandidate
                },
                OpenOutcome::Unavailable => {
                    self.phase = FuturePreparationPhase::Unstarted;
                    StageAction::Report(ConnectorPreparationProgress::Deferred)
                },
                OpenOutcome::Failed(error) => self.fail(error),
            },
            StageEvent::CandidateAdvanced(outcome) => match outcome {
                CandidateOutcome::Waiting(progress) => StageAction::Report(progress),
                CandidateOutcome::Refused(error) => self.fail(error),
                CandidateOutcome::Finished(Err(error)) => self.fail(error),
                CandidateOutcome::Finished(Ok(taken)) => match self.phase {
                    FuturePreparationPhase::Footer => match taken {
                        Some(input) => StageAction::ParseFooter(input),
                        None => self.fail(
                            ConnectorError::Invalid(InvalidRequest::FooterWithoutInput),
                        ),
                    },
                    FuturePreparationPhase::Data => match taken {
                        Some(input) => {
                            self.phase = FuturePreparationPhase::Ready;
                            StageAction::HoldAndReport(input)
                        },
                        None => self.fail(
                            ConnectorError::Invalid(InvalidRequest::DataRangeWithoutInput),
                        ),
                    },
                    _ => match taken {
                        Some(input) => StageAction::LocateFooter(input),
                        None => self.fail(
                            ConnectorError::Invalid(InvalidRequest::TailWithoutInput),
                        ),
                    },
                },
            },
            StageEvent::FooterLocated { tail, range } => match range {
                Err(error) => self.fail(error),
                Ok((offset, length)) => {
                    if tail.start <= offset {
                        StageAction::ParseFooter(tail)
                    } else {
                        StageAction::OpenFooter { offset, length, tail }
                    }
                },
            },
            StageEvent::FooterOpened(opened) => {
                if opened {
                    self.phase = FuturePreparationPhase::Footer;
                    StageAction::AdvanceCandidate
                } else {
                    self.fail(ConnectorError::Invalid(InvalidRequest::FooterLostRangeScope))
                }
            },
            StageEvent::FooterParsed { input, parsed, held } => match parsed {
                Err(error) => self.fail(error),
                Ok(_) => {
                    self.footer = true;
                    let whole = input.start == 0 && self.file_size >= 0 && input.end
                        == self.file_size as u64;
                    if whole {
                        self.phase = FuturePreparationPhase::Ready;
                        StageAction::HoldAndReport(input)
                    } else if held {
                        self.phase = FuturePreparationPhase::Ready;
                        StageAction::Report(ConnectorPreparationProgress::Ready)
                    } else {
                        StageAction::PlanData
                    }
                },
            },
            StageEvent::DataPlanned(planned) => match planned {
                Err(error) => self.fail(error),
                Ok(planned) => {
                    if !self.footer {
                        return self.fail(
                            ConnectorError::Invalid(InvalidRequest::DataPlannedWithoutFooter),
                        );
                    }
                    match planned {
                        Some(planned) => StageAction::OpenData(planned),
                        None => {
                            self.phase = FuturePreparationPhase::Ready;
                            StageAction::Report(ConnectorPreparationProgress::Ready)
                        },
                    }
                },
            },
            StageEvent::DataOpened(opened) => {
                if opened {
                    self.phase = FuturePreparationPhase::Data;
                    StageAction::AdvanceCandidate
                } else {
                    self.phase = FuturePreparationPhase::Ready;
                    StageAction::Report(ConnectorPreparationProgress::Ready)
                }
            },
        }
    }

    /// Hand the split over to demand. `held` is the input the group kept, `taken` what the armed
    /// candidate hands over. The newer input wins; a failure is reported once.
    pub fn promotion(
        &mut self,
        held: Option<PreparedFileInput>,
        taken: Result<Option<PreparedFileInput>, ConnectorError>,
    ) -> (input: Result<Option<PreparedFileInput>, ConnectorError>)
        ensures
            *final(self) == (IcebergPreparedPageSource { failure: None, ..*old(self) }),
            input == (match old(self).failure {
                Some(error) => Err(error),
                None => if !old(self).has_candidate() {
                    Ok(held)
                } else {
                    match taken {
                        Err(error) => Err(error),
                        Ok(Some(ready)) => Ok(Some(ready)),
                        Ok(None) => Ok(held),
                    }
                },
            }),
    {
        match self.failure {
            Some(error) => {
                self.failure = None;
                return Err(error);
            },
            None => {},
        }
        match self.phase {
            FuturePreparationPhase::Tail | FuturePreparationPhase::Footer
            | FuturePreparationPhase::Data => match taken {
                Err(error) => Err(error),
                Ok(Some(ready)) => Ok(Some(ready)),
                Ok(None) => Ok(held),
            },
            FuturePreparationPhase::Unstarted | FuturePreparationPhase::Ready => Ok(held),
        }
    }
}

/// Whether a split can be prepared at all: a Parquet data split of a table, read through ranges.
pub fn prepare_page_source(
    relation: IcebergRelationCategory,
    split: IcebergSplitCategory,
    has_ranges: bool,
    file_size: i64,
    small_file_probe_max_bytes: u64,
) -> (prepared: Option<IcebergPreparedPageSource>)
    ensures
        prepared == (if relation is Table && split == IcebergSplitCategory::Data(
            IcebergFileFormat::Parquet,
        ) && has_ranges {
            Some(IcebergPreparedPageSource {
                file_size,
                small_file_probe_max_bytes,
                phase: FuturePreparationPhase::Unstarted,
                footer: false,
                failure: None,
                observed_reclaim_epoch: 0,
                remaining: 0,
            })
        } else {
            None::<IcebergPreparedPageSource>
        }),
{
    match (relation, split) {
        (IcebergRelationCategory::Table, IcebergSplitCategory::Data(IcebergFileFormat::Parquet)) => {
            if has_ranges {
                Some(IcebergPreparedPageSource::new(file_size, small_file_probe_max_bytes))
            } else {
                None
            }
        },
        _ => None,
    }
}

// ---------------------------------------------------------------------------
// What the stages keep between them
// ---------------------------------------------------------------------------

/// A failure is final: later polls change nothing and report `Ready`, so that the ordered
/// successor is promoted and meets it.
pub proof fn law_failure_is_final(source: IcebergPreparedPageSource, remaining: u64, reclaim_epoch: u64, saved_error: Option<ConnectorError>)
    requires
        source.failure is Some,
    ensures
        source.stepped(StageEvent::Poll { remaining, reclaim_epoch, saved_error }) == (
            source,
            StageAction::Report(ConnectorPreparationProgress::Ready),
        ),
{
}

/// A tail probe ends where the file ends, and spends no more than the budget.
pub proof fn law_tail_probe_is_an_affordable_suffix(source: IcebergPreparedPageSource)
    requires
        source.resumed().1 is OpenTail,
    ensures
        ({
            &&& source.resumed().1 matches StageAction::OpenTail { file_size, offset, length }
            &&& file_size == source.file_size
            &&& offset + length == source.file_size
            &&& length <= source.remaining
            &&& length <= source.small_file_probe_max_bytes
            &&& source.small_file_probe_max_bytes >= MIN_PARQUET_FOOTER_BYTES ==> length
                >= MIN_PARQUET_FOOTER_BYTES
        }),
{
}

/// How far a phase is from the end.
pub open spec fn stages_left(source: IcebergPreparedPageSource) -> int {
    match source.phase {
        FuturePreparationPhase::Unstarted => 4,
        FuturePreparationPhase::Tail => 3,
        FuturePreparationPhase::Footer => 2,
        FuturePreparationPhase::Data => 1,
        FuturePreparationPhase::Ready => 0,
    }
}

/// Between two polls preparation only moves forward: each event that belongs to the phase leaves
/// fewer stages, or as many and no reset.
pub proof fn law_stages_move_forward(source: IcebergPreparedPageSource, event: StageEvent)
    requires
        event is TailOpened ==> source.phase is Unstarted,
        event is FooterOpened ==> source.phase is Tail,
        event is DataOpened ==> source.phase is Tail || source.phase is Footer,
        !(event is Poll),
    ensures
        stages_left(source.stepped(event).0) <= stages_left(source),
        source.stepped(event).1 is AdvanceCandidate ==> stages_left(source.stepped(event).0)
            < stages_left(source),
{
}

/// A reclaim restarts preparation from nothing, unless the candidate holds a verdict.
pub proof fn law_reclaim_restarts(source: IcebergPreparedPageSource, remaining: u64, reclaim_epoch: u64)
    requires
        source.failure is None,
        reclaim_epoch != source.observed_reclaim_epoch,
        remaining < MIN_PARQUET_FOOTER_BYTES,
    ensures
        ({
            let next = source.stepped(
                StageEvent::Poll { remaining, reclaim_epoch, saved_error: None },
            ).0;
            next.phase is Unstarted && !next.footer && next.observed_reclaim_epoch == reclaim_epoch
        }),
{
}

} // verus!
