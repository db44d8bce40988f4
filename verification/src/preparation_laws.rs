//! What the state machines of speculative input keep, step by step, and what a rewrite of position
//! deletes hands out.

use vstd::prelude::*;

use crate::column::CellModel;
use crate::column_handle::{ColumnHandleModel, IcebergColumnHandle};
use crate::delete_closure::IcebergDeleteFileSpec;
use crate::error::{ConnectorError, ConnectorErrorKind};
use crate::metadata_column::IcebergMetadataColumn;
use crate::page_source_provider::{reader_choice, tail_length, CandidateOutcome, IcebergPreparedPageSource, IcebergReaderChoice, IcebergRelationCategory, IcebergSplitCategory, IcebergTableExecuteProcedure, OpenOutcome, StageAction, StageEvent};
use crate::page_stream::IcebergParquetPageStream;
use crate::partition_only::IcebergPartitionOnlyPageSource;
use crate::preparation::{requested_length, AdvanceAction, ConnectorPreparationProgress, PreparedFileInput, PreparedRangeCandidate, Shared, StartOutcome, SuccessorPreparationGroup, MAX_PARTIAL_RANGE_BYTES};
use crate::rewrite_position_page_source::{
    content_bytes, output_column, output_of, outputs_of, vector_fault, IcebergRewritePositionDeleteFilesPageSource,
    RewritePositionOutput,
};
use crate::split::IcebergDeleteFile;

verus! {

// ---------------------------------------------------------------------------
// What candidates share
// ---------------------------------------------------------------------------

/// Reclaiming and stopping start a new generation, so that nothing of the old one is current. Both
/// drop the inputs; a failure outlives a reclaim, and a job that still runs keeps its bytes.
pub proof fn law_reclaim_and_stop_start_a_new_generation(shared: Shared)
    ensures
        shared.generation < u64::MAX ==> shared.after_reclaim().generation == shared.generation + 1
            && shared.after_stop().generation == shared.generation + 1,
        shared.generation == u64::MAX ==> shared.after_reclaim().generation == 0 && shared.after_stop().generation == 0,
        !shared.after_reclaim().is_current(shared.generation),
        !shared.after_stop().is_current(shared.generation),
        !shared.after_stop().is_current(shared.after_stop().generation),
        ({
            let after = shared.after_reclaim();
            &&& after.ready_input is None && after.present_input is None
            &&& !after.cancellation && !after.request_control
            &&& shared.phase is Failed ==> after.phase is Failed
            &&& shared.phase !is Failed ==> after.phase is New
            &&& after.failure == shared.failure
            &&& after.active_jobs == shared.active_jobs
            &&& after.paused == shared.paused
            &&& shared.active_jobs == 0 ==> after.reserved_bytes == 0
            &&& shared.active_jobs > 0 ==> after.reserved_bytes == shared.reserved_bytes
        }),
        ({
            let after = shared.after_stop();
            &&& after.ready_input is None && after.present_input is None
            &&& !after.cancellation && !after.request_control
            &&& after.phase is Stopped
            &&& after.failure is None
            &&& after.active_jobs == shared.active_jobs
            &&& after.paused == shared.paused
            &&& shared.active_jobs == 0 ==> after.reserved_bytes == 0
            &&& shared.active_jobs > 0 ==> after.reserved_bytes == shared.reserved_bytes
        }),
{
}

/// Pausing and resuming change nothing but whether the candidate is paused, and undo each other.
pub proof fn law_pause_and_resume_change_nothing_else(shared: Shared)
    ensures
        shared.after_pause().paused && !shared.after_resume().paused,
        ({
            let after = shared.after_pause();
            &&& after.generation == shared.generation && after.phase == shared.phase
            &&& after.active_jobs == shared.active_jobs && after.reserved_bytes == shared.reserved_bytes
            &&& after.ready_input == shared.ready_input && after.present_input == shared.present_input
            &&& after.failure == shared.failure
            &&& after.cancellation == shared.cancellation && after.request_control == shared.request_control
        }),
        !shared.paused ==> shared.after_pause().after_resume() == shared,
        shared.paused ==> shared.after_resume().after_pause() == shared,
{
}

/// A generation is current where it is the one of now and nothing was stopped.
pub proof fn law_a_generation_is_current_until_the_next(shared: Shared, generation: u64)
    ensures
        shared.is_current(generation) <==> shared.generation == generation && shared.phase !is Stopped,
{
}

/// A read that is still current ends one job and gives its bytes back. It leaves its input where both
/// the read and its drain succeeded, and else the error of the read, or that of the drain.
pub proof fn law_a_current_read_leaves_its_result(
    shared: Shared,
    generation: u64,
    result: Result<PreparedFileInput, ConnectorError>,
    drain: Result<(), ConnectorError>,
)
    requires
        shared.generation == generation,
        shared.phase !is Stopped,
        shared.active_jobs > 0,
    ensures
        ({
            let after = shared.after_read(generation, result, drain);
            &&& after.active_jobs == shared.active_jobs - 1
            &&& after.reserved_bytes == 0
            &&& !after.request_control
            &&& after.generation == generation
            &&& after.paused == shared.paused
            &&& after.present_input == shared.present_input
            &&& result is Ok && drain is Ok ==> after.phase is Ready && after.ready_input == Some(result->Ok_0)
                && after.failure == shared.failure
            &&& result is Err ==> after.phase is Failed && after.failure == Some(result->Err_0) && after.ready_input
                == shared.ready_input
            &&& result is Ok && drain is Err ==> after.phase is Failed && after.failure == Some(drain->Err_0)
                && after.ready_input == shared.ready_input
        }),
{
}

/// A read that is no longer current ends one job and gives its bytes back, and leaves no input. Its
/// error is kept where nothing was stopped, unless it says that the read was cancelled; an earlier
/// failure stands.
pub proof fn law_a_late_read_leaves_no_input(
    shared: Shared,
    generation: u64,
    result: Result<PreparedFileInput, ConnectorError>,
    drain: Result<(), ConnectorError>,
)
    requires
        shared.generation != generation || shared.phase is Stopped,
        shared.active_jobs > 0,
    ensures
        ({
            let after = shared.after_read(generation, result, drain);
            let error = if result is Err {
                Some(result->Err_0)
            } else if drain is Err {
                Some(drain->Err_0)
            } else {
                None
            };
            &&& after.active_jobs == shared.active_jobs - 1
            &&& after.reserved_bytes == 0
            &&& after.generation == shared.generation
            &&& after.ready_input == shared.ready_input
            &&& after.present_input == shared.present_input
            &&& shared.phase is Stopped ==> after.phase is Stopped && after.failure == shared.failure
            &&& error is None ==> after.phase == shared.phase && after.failure == shared.failure
            &&& error is Some && error->0.spec_kind() == ConnectorErrorKind::Cancelled ==> after.phase == shared.phase
                && after.failure == shared.failure
            &&& error is Some && error->0.spec_kind() != ConnectorErrorKind::Cancelled && shared.phase !is Stopped
                ==> after.phase is Failed && after.failure == (if shared.failure is Some {
                shared.failure
            } else {
                error
            })
        }),
{
}

/// A candidate retains the bytes that it reserved and those of its inputs, and it is drained where it
/// runs no job and has reserved nothing.
pub proof fn law_a_candidate_retains_what_it_holds(shared: Shared)
    ensures
        shared.drained() <==> shared.active_jobs == 0 && shared.reserved_bytes == 0,
        ({
            let present = if shared.present_input is Some {
                shared.present_input->0.backing_capacity as int
            } else {
                0
            };
            let ready = if shared.ready_input is Some {
                shared.ready_input->0.backing_capacity as int
            } else {
                0
            };
            &&& shared.reserved_bytes + present + ready <= u64::MAX ==> shared.retained() == shared.reserved_bytes + present
                + ready
            &&& shared.reserved_bytes + present + ready > u64::MAX ==> shared.retained() == u64::MAX
        }),
{
}

// ---------------------------------------------------------------------------
// What a candidate asks for
// ---------------------------------------------------------------------------

/// A request is never empty, never more than there is and never more than may be spent. One that has
/// to be whole is whole or is not made; a part is as long as it may be, up to eight MiB.
pub proof fn law_requests_stay_within_their_means(allow_partial: bool, available: u64, remaining: u64)
    ensures
        MAX_PARTIAL_RANGE_BYTES == 8 * 1024 * 1024,
        match requested_length(allow_partial, available, remaining) {
            Some(length) => {
                &&& 0 < length <= available
                &&& length <= remaining
                &&& !allow_partial ==> length == available
                &&& allow_partial ==> length <= MAX_PARTIAL_RANGE_BYTES && (length == available || length == remaining
                    || length == MAX_PARTIAL_RANGE_BYTES)
            },
            None => available == 0 || remaining == 0 || (!allow_partial && available > remaining),
        },
{
}

/// A planned candidate asks from where its plan begins: the bounds of a range, or the whole file.
pub proof fn law_requests_begin_where_the_plan_does(candidate: PreparedRangeCandidate, remaining: u64)
    ensures
        candidate.next_request(remaining) is Some ==> candidate.shared.phase is Planned
            && candidate.shared.phase->Planned_0 is Some && ({
            let planned = candidate.shared.phase->Planned_0->0;
            let (offset, length) = candidate.next_request(remaining)->0;
            &&& planned.range is WholeFile ==> offset == 0 && length <= planned.file_size
            &&& planned.range is Bounded ==> offset == planned.range->offset && length <= planned.range->length
            &&& !candidate.allow_partial && planned.range is WholeFile ==> length == planned.file_size
            &&& !candidate.allow_partial && planned.range is Bounded ==> length == planned.range->length
            &&& length <= remaining
        }),
{
}

/// A candidate that is paused, or whose last job still runs after a reclaim, waits. Another one plans
/// when it is new, waits while it reads, and reports that it is ready when it has its input or has
/// failed; once stopped it defers.
pub proof fn law_candidates_do_what_their_phase_asks(candidate: PreparedRangeCandidate, remaining: u64)
    ensures
        ({
            let (after, action) = candidate.advanced(remaining);
            let waits = candidate.shared.paused || (candidate.shared.active_jobs > 0 && candidate.shared.phase is New);
            &&& waits ==> after == candidate && action == Ok::<AdvanceAction, ConnectorError>(
                AdvanceAction::Report(ConnectorPreparationProgress::Pending),
            )
            &&& !waits && candidate.shared.phase is New ==> after == candidate && action == Ok::<
                AdvanceAction,
                ConnectorError,
            >(AdvanceAction::Plan)
            &&& !waits && candidate.shared.phase is Reading ==> after == candidate && action == Ok::<
                AdvanceAction,
                ConnectorError,
            >(AdvanceAction::Report(ConnectorPreparationProgress::Pending))
            &&& !waits && (candidate.shared.phase is Ready || candidate.shared.phase is Failed) ==> after == candidate
                && action == Ok::<AdvanceAction, ConnectorError>(
                AdvanceAction::Report(ConnectorPreparationProgress::Ready),
            )
            &&& !waits && candidate.shared.phase is Stopped ==> after == candidate && action == Ok::<
                AdvanceAction,
                ConnectorError,
            >(AdvanceAction::Report(ConnectorPreparationProgress::Deferred))
            &&& !waits && candidate.shared.phase is Planned && candidate.shared.phase->Planned_0 is None
                ==> after.shared.phase is Ready && action == Ok::<AdvanceAction, ConnectorError>(
                AdvanceAction::Report(ConnectorPreparationProgress::Ready),
            )
            &&& !waits && candidate.shared.phase is Planned && candidate.shared.phase->Planned_0 is Some
                && candidate.next_request(remaining) is None ==> after == candidate && action == Ok::<
                AdvanceAction,
                ConnectorError,
            >(AdvanceAction::Report(ConnectorPreparationProgress::Deferred))
            &&& action is Ok && action->Ok_0 is Start ==> ({
                &&& !waits
                &&& candidate.next_request(remaining) == Some((action->Ok_0->offset, action->Ok_0->length))
                &&& after.shared.reserved_bytes == action->Ok_0->length
                &&& after.shared.phase == candidate.shared.phase
                &&& after.shared.present_input == candidate.shared.present_input
            })
            &&& action is Err ==> after == candidate
        }),
{
}

/// A started request reads with the bytes that it reserved and those that were present; one that was
/// declined gives them back, and one that failed keeps its error.
pub proof fn law_starting_takes_the_present_bytes_along(candidate: PreparedRangeCandidate, outcome: StartOutcome)
    ensures
        ({
            let before = candidate.shared;
            let after = candidate.after_start(outcome).shared;
            let present = if before.present_input is Some {
                before.present_input->0.backing_capacity as int
            } else {
                0
            };
            &&& outcome is Started ==> after.phase is Reading && after.active_jobs == 1 && after.present_input is None
                && after.cancellation && after.request_control
            &&& outcome is Started && before.reserved_bytes + present <= u64::MAX ==> after.reserved_bytes
                == before.reserved_bytes + present
            &&& outcome is Declined ==> after.reserved_bytes == 0 && after.phase == before.phase && after.present_input
                == before.present_input && after.active_jobs == before.active_jobs
            &&& outcome is Failed ==> after.phase is Failed && after.failure == Some(outcome->Failed_0)
                && after.reserved_bytes == 0 && after.present_input == before.present_input
            &&& after.generation == before.generation
            &&& after.ready_input == before.ready_input
        }),
{
}

/// Taking the input hands a failure out before anything else, and once; an input is handed out once
/// and ends the candidate.
pub proof fn law_taking_hands_out_failures_first(candidate: PreparedRangeCandidate)
    ensures
        ({
            let (after, taken) = candidate.taken();
            &&& candidate.shared.failure is Some ==> taken == Err::<Option<PreparedFileInput>, ConnectorError>(
                candidate.shared.failure->0,
            ) && after.shared.failure is None && after.shared.ready_input == candidate.shared.ready_input
                && after.shared.phase == candidate.shared.phase
            &&& candidate.shared.failure is None ==> taken == Ok::<Option<PreparedFileInput>, ConnectorError>(
                candidate.shared.ready_input,
            ) && after.shared.ready_input is None
            &&& candidate.shared.failure is None && candidate.shared.ready_input is Some ==> after.shared.phase is Stopped
            &&& candidate.shared.failure is None && candidate.shared.ready_input is None ==> after.shared.phase
                == candidate.shared.phase
        }),
{
}

/// A group that was stopped stops what joins it, and one that is paused pauses it.
pub proof fn law_groups_treat_newcomers_as_their_members(group: SuccessorPreparationGroup, control: Shared)
    ensures
        group.stopped ==> group.admitted(control) == control.after_stop(),
        !group.stopped && group.paused ==> group.admitted(control) == control.after_pause(),
        !group.stopped && !group.paused ==> group.admitted(control) == control,
        group.admission(control).cancel_request <==> group.stopped && control.cancellation,
        group.admission(control).pause_request <==> !group.stopped && group.paused && control.request_control,
        !group.admission(control).resume_request,
        group.admission(control).wake_waiters <==> group.stopped,
{
}

// ---------------------------------------------------------------------------
// The stages of a prepared source
// ---------------------------------------------------------------------------

/// A relation is read by the reader of its own kind of split alone, and the files of a system
/// relation by theirs.
pub proof fn law_splits_are_read_by_their_own_readers(relation: IcebergRelationCategory, split: IcebergSplitCategory)
    ensures
        match reader_choice(relation, split) {
            Ok(IcebergReaderChoice::SystemFiles) => split is SystemFiles,
            Ok(IcebergReaderChoice::ChangeWindow) => split is ChangeWindow && relation is ChangeWindow,
            Ok(IcebergReaderChoice::RewritePositionDeleteFiles) => split is RewritePositionDeleteFiles && relation
                == IcebergRelationCategory::TableExecute(
                Some(IcebergTableExecuteProcedure::RewritePositionDeleteFiles),
            ),
            Ok(IcebergReaderChoice::Data) => split is Data && relation is Table,
            Err(_) => split !is SystemFiles && !(split is ChangeWindow && relation is ChangeWindow) && !(split is Data
                && relation is Table) && !(split is RewritePositionDeleteFiles && relation
                == IcebergRelationCategory::TableExecute(
                Some(IcebergTableExecuteProcedure::RewritePositionDeleteFiles),
            )),
        },
{
}

/// The tail probe reads the least of the file, the probe and the budget.
pub proof fn law_tails_are_as_long_as_they_may_be(file_size: u64, probe: u64, remaining: u64)
    ensures
        ({
            let length = tail_length(file_size, probe, remaining);
            &&& length <= file_size && length <= probe && length <= remaining
            &&& length == file_size || length == probe || length == remaining
        }),
{
}

/// A poll of a failed source reports that it is ready. Another continues with what the phase asks for,
/// from the start where its memory was reclaimed: then an error that a candidate had saved fails it.
pub proof fn law_polls_continue_or_start_over(
    source: IcebergPreparedPageSource,
    remaining: u64,
    reclaim_epoch: u64,
    saved_error: Option<ConnectorError>,
)
    ensures
        ({
            let (after, action) = source.stepped(StageEvent::Poll { remaining, reclaim_epoch, saved_error });
            let reclaimed = reclaim_epoch != source.observed_reclaim_epoch;
            let working = source.phase is Tail || source.phase is Footer || source.phase is Data;
            &&& source.failure is Some ==> after == source && action == StageAction::Report(
                ConnectorPreparationProgress::Ready,
            )
            &&& source.failure is None && !reclaimed && working ==> after.phase == source.phase
                && action is AdvanceCandidate && after.remaining == remaining
            &&& source.failure is None && !reclaimed && source.phase is Ready ==> after.phase is Ready && action
                == StageAction::Report(ConnectorPreparationProgress::Ready)
            &&& source.failure is None && reclaimed && working && saved_error is Some ==> after.failure == saved_error
                && after.phase is Ready
            &&& source.failure is None && reclaimed && !(working && saved_error is Some) ==> after.observed_reclaim_epoch
                == reclaim_epoch && !after.footer && (after.failure is None ==> after.phase is Unstarted)
            &&& source.failure is None && action is OpenTail ==> ({
                &&& action->OpenTail_file_size == source.file_size
                &&& action->OpenTail_offset + action->OpenTail_length == source.file_size
                &&& action->OpenTail_length <= remaining
                &&& action->OpenTail_length <= source.small_file_probe_max_bytes
            })
        }),
{
}

/// Each stage leads to the next: an opened tail, footer or data range is read, and the footer is parsed
/// from the tail where the tail holds it.
pub proof fn law_stages_lead_to_the_next(source: IcebergPreparedPageSource, tail: PreparedFileInput, offset: u64, length: u64)
    ensures
        source.stepped(StageEvent::TailOpened(OpenOutcome::Opened)).0.phase is Tail,
        source.stepped(StageEvent::TailOpened(OpenOutcome::Opened)).1 is AdvanceCandidate,
        source.stepped(StageEvent::TailOpened(OpenOutcome::Unavailable)).0.phase is Unstarted,
        source.stepped(StageEvent::TailOpened(OpenOutcome::Unavailable)).1 == StageAction::Report(
            ConnectorPreparationProgress::Deferred,
        ),
        source.stepped(StageEvent::FooterOpened(true)).0.phase is Footer,
        source.stepped(StageEvent::FooterOpened(true)).1 is AdvanceCandidate,
        source.stepped(StageEvent::FooterOpened(false)).0.failure is Some,
        source.stepped(StageEvent::DataOpened(true)).0.phase is Data,
        source.stepped(StageEvent::DataOpened(true)).1 is AdvanceCandidate,
        source.stepped(StageEvent::DataOpened(false)).0.phase is Ready,
        source.stepped(StageEvent::DataOpened(false)).0.failure == source.failure,
        ({
            let (after, action) = source.stepped(StageEvent::FooterLocated { tail, range: Ok((offset, length)) });
            &&& after == source
            &&& tail.start <= offset ==> action == StageAction::ParseFooter(tail)
            &&& tail.start > offset ==> action is OpenFooter && action->OpenFooter_offset == offset
                && action->OpenFooter_length == length && action->OpenFooter_tail == tail
        }),
{
}

/// Whatever goes wrong fails the source with its own error, and the source then reports that it is
/// ready.
pub proof fn law_errors_fail_the_source(source: IcebergPreparedPageSource, error: ConnectorError, tail: PreparedFileInput, held: bool)
    ensures
        forall|event: StageEvent|
            (event == StageEvent::TailOpened(OpenOutcome::Failed(error)) || event == StageEvent::CandidateAdvanced(
                CandidateOutcome::Refused(error),
            ) || event == StageEvent::CandidateAdvanced(CandidateOutcome::Finished(Err(error))) || event == (
            StageEvent::FooterLocated { tail, range: Err(error) }) || event == (StageEvent::FooterParsed {
                input: tail,
                parsed: Err(error),
                held,
            }) || event == StageEvent::DataPlanned(Err(error))) ==> ({
                let (after, action) = #[trigger] source.stepped(event);
                &&& after.failure == Some(error)
                &&& after.phase is Ready
                &&& action == StageAction::Report(ConnectorPreparationProgress::Ready)
            }),
{
}

/// A candidate that finished hands its input to the stage it was read for: the tail to find the footer
/// in, the footer to be parsed, and the data to be held. One that waits is waited for.
pub proof fn law_inputs_go_to_their_stage(
    source: IcebergPreparedPageSource,
    input: PreparedFileInput,
    progress: ConnectorPreparationProgress,
)
    ensures
        source.stepped(StageEvent::CandidateAdvanced(CandidateOutcome::Waiting(progress))) == (
            source,
            StageAction::Report(progress),
        ),
        ({
            let (after, action) = source.stepped(
                StageEvent::CandidateAdvanced(CandidateOutcome::Finished(Ok(Some(input)))),
            );
            &&& source.phase is Tail ==> after == source && action == StageAction::LocateFooter(input)
            &&& source.phase is Footer ==> after == source && action == StageAction::ParseFooter(input)
            &&& source.phase is Data ==> after.phase is Ready && action == StageAction::HoldAndReport(input)
                && after.failure == source.failure
        }),
        source.stepped(StageEvent::CandidateAdvanced(CandidateOutcome::Finished(Ok(None)))).0.failure is Some,
{
}

/// A stream opens its split once, ends when the split is done, and polls a step that is under way.
pub proof fn law_streams_do_what_their_step_asks(stream: IcebergParquetPageStream, split_done: bool)
    ensures
        stream.step is Unopened ==> stream.poll_action(split_done) is OpenAndProduce,
        stream.step is Running ==> stream.poll_action(split_done) is PollStep,
        stream.step is Ended ==> stream.poll_action(split_done) is End,
        stream.step is Idle && split_done ==> stream.poll_action(split_done) is End,
        stream.step is Idle && !split_done ==> stream.poll_action(split_done) is Produce,
{
}

/// Bytes add up, and stop at the largest count.
pub proof fn law_byte_counts_stop_at_the_largest(left: int, right: int)
    ensures
        left + right <= u64::MAX ==> crate::page_stream::saturated(left, right) == left + right,
        left + right > u64::MAX ==> crate::page_stream::saturated(left, right) == u64::MAX,
        left <= u64::MAX ==> crate::preparation::saturated(left) == left,
        left > u64::MAX ==> crate::preparation::saturated(left) == u64::MAX,
{
}

/// A page of partition values has as many rows as are left, up to the longest page, and none once the
/// source was closed.
pub proof fn law_partition_pages_are_as_long_as_they_may_be(source: IcebergPartitionOnlyPageSource)
    requires
        source.wf(),
    ensures
        source.closed ==> source.pending_rows() == 0,
        !source.closed ==> source.pending_rows() <= source.max_batch_rows && source.pending_rows() <= source.total_rows
            - source.emitted_rows && (source.pending_rows() == source.max_batch_rows || source.pending_rows()
            == source.total_rows - source.emitted_rows),
        !source.closed && source.emitted_rows < source.total_rows ==> source.pending_rows() > 0,
        source.emitted_rows <= source.total_rows && source.max_batch_rows > 0,
{
}

// ---------------------------------------------------------------------------
// Rewriting position deletes
// ---------------------------------------------------------------------------

/// A column is the path or the position where it is that metadata column, under its own name and as a
/// whole.
pub proof fn law_rewrites_output_paths_and_positions(column: ColumnHandleModel)
    ensures
        output_of(column) == Ok::<RewritePositionOutput, ConnectorError>(RewritePositionOutput::FilePath) <==> (
        column.field_id_path.len() == 0 && IcebergMetadataColumn::of_id(column.base_field_id) == Some(
            IcebergMetadataColumn::Path,
        ) && column.base_name == "file_path"@),
        output_of(column) == Ok::<RewritePositionOutput, ConnectorError>(RewritePositionOutput::Position) <==> (
        column.field_id_path.len() == 0 && IcebergMetadataColumn::of_id(column.base_field_id) == Some(
            IcebergMetadataColumn::RowPosition,
        ) && column.base_name == "pos"@),
{
}

/// Every column of a rewrite has its own output, at its place.
pub proof fn law_every_rewrite_column_has_its_output(columns: Seq<IcebergColumnHandle>, n: nat)
    requires
        n <= columns.len(),
    ensures
        match outputs_of(columns, n) {
            Ok(outputs) => outputs.len() == n && forall|k: int|
                0 <= k < n ==> output_of((#[trigger] columns[k]).model()) == Ok::<RewritePositionOutput, ConnectorError>(
                    outputs[k],
                ),
            Err(error) => exists|k: int|
                0 <= k < n && output_of((#[trigger] columns[k]).model()) == Err::<RewritePositionOutput, ConnectorError>(
                    error,
                ),
        },
    decreases n,
{
    if n > 0 {
        law_every_rewrite_column_has_its_output(columns, (n - 1) as nat);
        assert(columns[n - 1] == columns[n - 1]);
        if let Err(error) = outputs_of(columns, (n - 1) as nat) {
            let k = choose|k: int|
                0 <= k < n - 1 && output_of((#[trigger] columns[k]).model()) == Err::<
                    RewritePositionOutput,
                    ConnectorError,
                >(error);
            assert(output_of(columns[k].model()) is Err);
        }
    }
}

/// A deletion vector can be read where its offset and its size are stated.
pub proof fn law_vectors_need_an_offset_and_a_size(delete: IcebergDeleteFile)
    ensures
        vector_fault(delete) is None <==> delete.content_offset is Some && delete.content_size_in_bytes is Some,
{
}

/// The content of one more vector adds its size, and nothing where that is no byte count.
pub proof fn law_content_sizes_add_up(specs: Seq<IcebergDeleteFileSpec>, n: nat)
    requires
        n < specs.len(),
    ensures
        content_bytes(specs, 0) == 0,
        specs[n as int].content_size_in_bytes is Some && specs[n as int].content_size_in_bytes->0 >= 0 ==> content_bytes(
            specs,
            n + 1,
        ) - content_bytes(specs, n) == specs[n as int].content_size_in_bytes->0,
        specs[n as int].content_size_in_bytes is None || specs[n as int].content_size_in_bytes->0 < 0 ==> content_bytes(
            specs,
            n + 1,
        ) == content_bytes(specs, n),
{
}

/// A page of a rewrite has one path and one position for each row, in the order of the rows.
pub proof fn law_rewrite_pages_state_path_and_position(path: Seq<char>, rows: Seq<i64>, i: int)
    requires
        0 <= i < rows.len(),
    ensures
        ({
            let paths = output_column(RewritePositionOutput::FilePath, path, rows);
            let positions = output_column(RewritePositionOutput::Position, path, rows);
            &&& paths is Flat && positions is Flat
            &&& paths->cells.len() == rows.len() && positions->cells.len() == rows.len()
            &&& paths->cells[i] == CellModel::Text(path)
            &&& positions->cells[i] == CellModel::Int64(rows[i])
            &&& paths->data_type is Utf8 && positions->data_type is Int64
        }),
{
}

/// A page of a rewrite ends with the last row, or is as long as a page may be.
pub proof fn law_rewrite_pages_are_full_but_the_last(source: IcebergRewritePositionDeleteFilesPageSource)
    requires
        source.wf(),
    ensures
        source.next_row <= source.page_end() <= source.rows@.len(),
        source.page_end() - source.next_row <= source.max_page_rows,
        source.page_end() == source.rows@.len() || source.page_end() - source.next_row == source.max_page_rows,
{
}

} // verus!
