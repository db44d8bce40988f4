//! One data split as a page stream that a host polls.
//!
//! Creating a stream reads nothing: the delete state, the footer and the reader are opened by the
//! first step. Each step takes the split along and gives it back when it ends, so between steps
//! the host can advance successors and read metrics.

use vstd::prelude::*;

use crate::error::{ConnectorError, CorruptData};
use crate::page_source::{create_iceberg_page_source, split_fault, PageSourceChoice};
use crate::partition_only::{fileless_facts, is_constant_of, is_partition_only, IcebergPartitionOnlyPageSource, IcebergPageSourceRequest};
use crate::schema_binding::request_column;
use crate::system_page_source::PageSourceMetrics;

verus! {

/// Where a stream stands.
#[derive(Clone, Copy, Debug, PartialEq, Eq, Structural)]
pub enum StreamStep {
    /// Created; nothing is open yet.
    Unopened,
    /// Between steps.
    Idle,
    /// One step in flight, holding the split until it ends.
    Running,
    /// Opening failed, or the stream ended without a split to keep.
    Ended,
}

/// What a poll does.
#[derive(Clone, Copy, Debug, PartialEq, Eq, Structural)]
pub enum StreamAction {
    /// Open the split and produce its first page, as one step.
    OpenAndProduce,
    /// Produce the next page, as one step.
    Produce,
    /// Go on with the step in flight.
    PollStep,
    /// Report the end of the stream.
    End,
}

/// What a finished step gives the host.
#[derive(Clone, Copy, Debug, PartialEq, Eq, Structural)]
pub enum StreamItem {
    Page,
    Failure(ConnectorError),
    End,
}

/// What the host is told about successor preparation.
#[derive(Clone, Copy, Debug, PartialEq, Eq, Structural)]
pub enum SuccessorAdvance {
    /// The split plans its successors now.
    Advance,
    /// The split is away with a step, or there is none.
    Deferred,
}

/// What closing a stream has to do first.
#[derive(Clone, Copy, Debug, PartialEq, Eq, Structural)]
pub enum CloseReader {
    /// Close the reader of the split, which no read is using.
    Close,
    /// Drop the step in flight: that stops its reads.
    DropStep,
    /// There is no reader.
    Nothing,
}

/// One data split read as a page stream.
#[derive(Clone, Copy, Debug, PartialEq, Eq, Structural)]
pub struct IcebergParquetPageStream {
    pub step: StreamStep,
    /// As of the last completed step.
    pub metrics: PageSourceMetrics,
    /// What the split itself retains, as of the last completed step.
    pub retained_base_bytes: u64,
}

/// The sum of two byte counts, or the largest count there is.
pub open spec fn saturated(left: int, right: int) -> int {
    if left + right > u64::MAX {
        u64::MAX as int
    } else {
        left + right
    }
}

impl IcebergParquetPageStream {
    /// A stream of which nothing is open.
    pub fn new(retained_base_bytes: u64) -> (stream: IcebergParquetPageStream)
        ensures
            stream == (IcebergParquetPageStream {
                step: StreamStep::Unopened,
                metrics: PageSourceMetrics {
                    completed_bytes: 0,
                    completed_positions: 0,
                    read_time_nanos: 0,
                },
                retained_base_bytes,
            }),
    {
        IcebergParquetPageStream {
            step: StreamStep::Unopened,
            metrics: PageSourceMetrics {
                completed_bytes: 0,
                completed_positions: 0,
                read_time_nanos: 0,
            },
            retained_base_bytes,
        }
    }

    /// What a poll does, given whether the split that the stream holds is finished or closed.
    pub open spec fn poll_action(self, split_done: bool) -> StreamAction {
        match self.step {
            StreamStep::Unopened => StreamAction::OpenAndProduce,
            StreamStep::Idle => if split_done {
                StreamAction::End
            } else {
                StreamAction::Produce
            },
            StreamStep::Running => StreamAction::PollStep,
            StreamStep::Ended => StreamAction::End,
        }
    }

    /// Begin a poll. A step that begins is in flight until it ends.
    pub fn poll_next(&mut self, split_done: bool) -> (action: StreamAction)
        ensures
            action == old(self).poll_action(split_done),
            *final(self) == (IcebergParquetPageStream {
                step: if action == StreamAction::End {
                    old(self).step
                } else {
                    StreamStep::Running
                },
                ..*old(self)
            }),
    {
        match self.step {
            StreamStep::Unopened => {
                self.step = StreamStep::Running;
                StreamAction::OpenAndProduce
            },
            StreamStep::Idle => {
                if split_done {
                    StreamAction::End
                } else {
                    self.step = StreamStep::Running;
                    StreamAction::Produce
                }
            },
            StreamStep::Running => StreamAction::PollStep,
            StreamStep::Ended => StreamAction::End,
        }
    }

    /// The step in flight ended. A step that gives the split back leaves the stream idle, with the
    /// split's metrics and retention; one that does not, because opening failed, ends it.
    pub fn step_ended(
        &mut self,
        split: Option<(PageSourceMetrics, u64)>,
        outcome: Result<bool, ConnectorError>,
    ) -> (item: StreamItem)
        requires
            old(self).step == StreamStep::Running,
        ensures
            item == (match outcome {
                Ok(true) => StreamItem::Page,
                Ok(false) => StreamItem::End,
                Err(error) => StreamItem::Failure(error),
            }),
            *final(self) == (match split {
                Some((metrics, retained)) => IcebergParquetPageStream {
                    step: StreamStep::Idle,
                    metrics,
                    retained_base_bytes: retained,
                },
                None => IcebergParquetPageStream { step: StreamStep::Ended, ..*old(self) },
            }),
    {
        match split {
            Some((metrics, retained)) => {
                self.metrics = metrics;
                self.retained_base_bytes = retained;
                self.step = StreamStep::Idle;
            },
            None => {
                self.step = StreamStep::Ended;
            },
        }
        match outcome {
            Ok(true) => StreamItem::Page,
            Ok(false) => StreamItem::End,
            Err(error) => StreamItem::Failure(error),
        }
    }

    pub fn metrics(&self) -> (metrics: PageSourceMetrics)
        ensures
            metrics == self.metrics,
    {
        self.metrics
    }

    /// What the stream retains: the split's own bytes as of the last step, and what successors and
    /// a promoted preparation hold now.
    pub fn memory_usage_bytes(&self, successor_bytes: u64, pending_bytes: Option<u64>) -> (bytes: u64)
        ensures
            bytes == saturated(
                saturated(self.retained_base_bytes as int, successor_bytes as int),
                match pending_bytes {
                    Some(held) => held as int,
                    None => 0,
                },
            ),
    {
        let pending: u64 = match pending_bytes {
            Some(held) => held,
            None => 0,
        };
        self.retained_base_bytes.saturating_add(successor_bytes).saturating_add(pending)
    }

    /// Successors are planned from the split, which the stream only holds between steps.
    pub fn advance_successor_preparation(&self) -> (advance: SuccessorAdvance)
        ensures
            advance == (if self.step == StreamStep::Idle {
                SuccessorAdvance::Advance
            } else {
                SuccessorAdvance::Deferred
            }),
    {
        match self.step {
            StreamStep::Idle => SuccessorAdvance::Advance,
            _ => SuccessorAdvance::Deferred,
        }
    }

    /// How many candidates there are: the split knows between steps, and otherwise those that
    /// were not drained count.
    pub fn successor_preparation_candidate_count(&self, of_split: usize, undrained: usize) -> (count: usize)
        ensures
            count == (if self.step == StreamStep::Idle {
                of_split
            } else {
                undrained
            }),
    {
        match self.step {
            StreamStep::Idle => of_split,
            _ => undrained,
        }
    }

    /// What closing has to do with the reader.
    pub fn close(self) -> (reader: CloseReader)
        ensures
            reader == (match self.step {
                StreamStep::Idle => CloseReader::Close,
                StreamStep::Running => CloseReader::DropStep,
                _ => CloseReader::Nothing,
            }),
    {
        match self.step {
            StreamStep::Idle => CloseReader::Close,
            StreamStep::Running => CloseReader::DropStep,
            StreamStep::Unopened | StreamStep::Ended => CloseReader::Nothing,
        }
    }
}

/// How a data split is streamed.
pub enum PageStreamChoice<'a> {
    /// From the partition values alone.
    PartitionOnly(IcebergPartitionOnlyPageSource<'a>, IcebergPartitionOnlyPageStream),
    /// From its data file, of which nothing is open.
    Parquet(IcebergParquetPageStream),
}

/// Decide how a data split is streamed, without reading anything. What a page source would refuse
/// a stream refuses too.
pub fn create_iceberg_page_stream<'a>(
    request: &IcebergPageSourceRequest<'_, 'a>,
    max_batch_rows: usize,
    retained_bytes: u64,
) -> (choice: Result<PageStreamChoice<'a>, ConnectorError>)
    requires
        max_batch_rows > 0,
    ensures
        match choice {
            Err(error) => if split_fault(*request.split) is Some {
                split_fault(*request.split) == Some(error)
            } else {
                &&& is_partition_only(*request)
                &&& request.split.file_record_count < 0
                &&& error == ConnectorError::Corrupt(CorruptData::NegativeRecordCount)
            },
            Ok(PageStreamChoice::Parquet(stream)) => {
                &&& split_fault(*request.split) is None
                &&& !is_partition_only(*request)
                &&& stream.step == StreamStep::Unopened
                &&& stream.retained_base_bytes == retained_bytes
                &&& stream.metrics.completed_bytes == 0
                &&& stream.metrics.completed_positions == 0
                &&& stream.metrics.read_time_nanos == 0
            },
            Ok(PageStreamChoice::PartitionOnly(source, stream)) => {
                &&& split_fault(*request.split) is None
                &&& is_partition_only(*request)
                &&& request.split.file_record_count >= 0
                &&& source.wf()
                &&& source.constants@.len() == request.columns@.len()
                &&& forall|i: int|
                    0 <= i < source.constants@.len() ==> is_constant_of(
                        #[trigger] source.constants@[i],
                        request_column(fileless_facts(*request)->Ok_0, request.columns@[i])->Ok_0,
                    )
                &&& source.total_rows == request.split.file_record_count
                &&& source.emitted_rows == 0
                &&& source.max_batch_rows == max_batch_rows
                &&& source.retained_bytes == retained_bytes
                &&& !source.closed
                &&& !stream.spending
            },
        },
{
    match create_iceberg_page_source(request, max_batch_rows, retained_bytes) {
        Err(error) => Err(error),
        Ok(PageSourceChoice::PartitionOnly(source)) => Ok(
            PageStreamChoice::PartitionOnly(source, IcebergPartitionOnlyPageStream::new()),
        ),
        Ok(PageSourceChoice::Parquet) => Ok(
            PageStreamChoice::Parquet(IcebergParquetPageStream::new(retained_bytes)),
        ),
    }
}

/// What closing reports once everything was drained: the failure of the reader before that of the
/// reads.
pub fn close_outcome(reader: Result<(), ConnectorError>, exited: Option<Result<(), ConnectorError>>) -> (outcome: Result<(), ConnectorError>)
    ensures
        outcome == (if reader is Err {
            reader
        } else {
            match exited {
                Some(exited) => exited,
                None => Ok(()),
            }
        }),
{
    if let Err(error) = reader {
        return Err(error);
    }
    match exited {
        Some(exited) => exited,
        None => Ok(()),
    }
}

/// What a poll of a partition-only stream does.
#[derive(Clone, Copy, Debug, PartialEq, Eq, Structural)]
pub enum ConstantStreamAction {
    /// Report the end of the stream.
    End,
    /// Wait for the host's budget.
    Wait,
    /// Produce the next page.
    Produce,
}

/// A split that needs no byte of its file, as a page stream: each page spends one unit of the
/// host's turn budget.
#[derive(Clone, Copy, Debug, PartialEq, Eq, Structural)]
pub struct IcebergPartitionOnlyPageStream {
    /// Whether a unit has been asked for and not been spent.
    pub spending: bool,
}

impl IcebergPartitionOnlyPageStream {
    pub fn new() -> (stream: IcebergPartitionOnlyPageStream)
        ensures
            !stream.spending,
    {
        IcebergPartitionOnlyPageStream { spending: false }
    }

    /// Whether this poll has to ask for a unit: a unit that was asked for before is waited for.
    pub fn asks_for_budget(&self, finished: bool) -> (asks: bool)
        ensures
            asks == (!finished && !self.spending),
    {
        !finished && !self.spending
    }

    /// Poll, given whether the source is finished and whether the unit was granted.
    pub fn poll_next(&mut self, finished: bool, granted: bool) -> (action: ConstantStreamAction)
        ensures
            action == (if finished {
                ConstantStreamAction::End
            } else if granted {
                ConstantStreamAction::Produce
            } else {
                ConstantStreamAction::Wait
            }),
            final(self).spending == (if finished {
                old(self).spending
            } else {
                !granted
            }),
    {
        if finished {
            return ConstantStreamAction::End;
        }
        if !granted {
            self.spending = true;
            return ConstantStreamAction::Wait;
        }
        self.spending = false;
        ConstantStreamAction::Produce
    }
}

/// A stream whose opening failed reports its end to every later poll, and so does one whose split
/// is done.
pub proof fn law_an_ended_stream_stays_ended(stream: IcebergParquetPageStream, split_done: bool)
    requires
        stream.step == StreamStep::Ended || (stream.step == StreamStep::Idle && split_done),
    ensures
        stream.poll_action(split_done) == StreamAction::End,
{
}

/// A stream opens its split at most once: once it has left its first state no poll opens it again.
pub proof fn law_a_split_is_opened_once(stream: IcebergParquetPageStream, split_done: bool)
    requires
        stream.step != StreamStep::Unopened,
    ensures
        stream.poll_action(split_done) != StreamAction::OpenAndProduce,
{
}

} // verus!
