//! Speculative input of one scan: the candidate that reads a byte range ahead of demand, and the
//! group that controls every candidate of one source.
//!
//! A candidate is a state machine. The program around it runs the planner, starts the physical
//! request and awaits it; each of those outcomes comes back as an event.

use vstd::prelude::*;

use crate::error::{ConnectorError, ConnectorErrorKind, InternalFault, InvalidRequest};
use crate::seqs::{lemma_filter_step, lemma_total_push, total};

verus! {

/// The largest range a candidate asks for when it may ask for a part.
pub const MAX_PARTIAL_RANGE_BYTES: u64 = 8388608;

/// What one step of preparation tells its scheduler.
#[derive(Clone, Copy, Debug, PartialEq, Eq, Structural)]
pub enum ConnectorPreparationProgress {
    /// Work is under way; ask again.
    Pending,
    /// Preparation is over, with input, with a failure, or with nothing to read.
    Ready,
    /// Nothing can start now, for want of capacity or because the candidate stopped.
    Deferred,
}

/// The part of a file that a read covers.
#[derive(Clone, Copy, Debug, PartialEq, Eq, Structural)]
pub enum FileReadRange {
    WholeFile,
    Bounded { offset: u64, length: u64 },
}

/// The range a planner chose, with the size of the file it lies in.
#[derive(Clone, Copy, Debug, PartialEq, Eq, Structural)]
pub struct PlannedInput {
    pub file_size: u64,
    pub range: FileReadRange,
}

/// Bytes already read: the half-open file range they cover and the capacity that holds them.
#[derive(Clone, Copy, Debug, PartialEq, Eq, Structural)]
pub struct PreparedFileInput {
    pub start: u64,
    pub end: u64,
    pub backing_capacity: u64,
}

/// Where a candidate stands.
#[derive(Clone, Copy, Debug, PartialEq, Eq, Structural)]
pub enum Phase {
    New,
    Planned(Option<PlannedInput>),
    Reading,
    Ready,
    Failed,
    Stopped,
}

/// The state that a candidate shares with its control and with its request.
#[derive(Clone, Copy, Debug, PartialEq, Eq, Structural)]
pub struct Shared {
    /// Which attempt a finishing request must belong to.
    pub generation: u64,
    pub phase: Phase,
    pub paused: bool,
    pub active_jobs: usize,
    /// The capacity the request owns while it is in flight.
    pub reserved_bytes: u64,
    pub ready_input: Option<PreparedFileInput>,
    pub present_input: Option<PreparedFileInput>,
    pub failure: Option<ConnectorError>,
    /// Whether the running attempt can still be cancelled.
    pub cancellation: bool,
    /// Whether a physical request is there to be paused and resumed.
    pub request_control: bool,
}

/// What the program must do to the physical request after a control call.
#[derive(Clone, Copy, Debug, PartialEq, Eq, Structural)]
pub struct ControlEffects {
    pub cancel_request: bool,
    pub pause_request: bool,
    pub resume_request: bool,
    pub wake_waiters: bool,
}

/// The capacity of an optional input.
pub open spec fn input_capacity(input: Option<PreparedFileInput>) -> int {
    match input {
        Some(held) => held.backing_capacity as int,
        None => 0,
    }
}

/// A sum of byte counts, at most what a `u64` holds.
pub open spec fn saturated(bytes: int) -> int {
    if bytes > u64::MAX {
        u64::MAX as int
    } else {
        bytes
    }
}

fn input_capacity_of(input: &Option<PreparedFileInput>) -> (capacity: u64)
    ensures
        capacity == input_capacity(*input),
{
    match input {
        Some(held) => held.backing_capacity,
        None => 0,
    }
}

/// The first byte and the length of a planned range.
pub open spec fn planned_extent(planned: PlannedInput) -> (u64, u64) {
    match planned.range {
        FileReadRange::Bounded { offset, length } => (offset, length),
        FileReadRange::WholeFile => (0, planned.file_size),
    }
}

impl Shared {
    /// What every transition keeps: at most one request in flight, capacity reserved only for it
    /// (or for one about to start), and results only in the phase that announces them.
    pub open spec fn wf(self) -> bool {
        &&& self.active_jobs <= 1
        &&& self.phase is Planned ==> self.active_jobs == 0
        &&& self.phase is Reading ==> self.active_jobs == 1
        &&& self.phase is Ready ==> self.active_jobs == 0
        &&& self.reserved_bytes > 0 ==> self.active_jobs == 1 || self.phase is Planned
        &&& self.phase is Planned ==> self.reserved_bytes + input_capacity(self.present_input)
            <= u64::MAX || self.reserved_bytes == 0
        &&& self.ready_input is Some ==> self.phase is Ready
        &&& self.failure is Some ==> self.phase is Failed
    }

    pub open spec fn fresh(present: Option<PreparedFileInput>) -> Shared {
        Shared {
            generation: 0,
            phase: Phase::New,
            paused: false,
            active_jobs: 0,
            reserved_bytes: 0,
            ready_input: None,
            present_input: present,
            failure: None,
            cancellation: false,
            request_control: false,
        }
    }

    /// The state of a candidate that has done nothing yet.
    pub fn new(present: Option<PreparedFileInput>) -> (shared: Shared)
        ensures
            shared == Shared::fresh(present),
            shared.wf(),
    {
        Shared {
            generation: 0,
            phase: Phase::New,
            paused: false,
            active_jobs: 0,
            reserved_bytes: 0,
            ready_input: None,
            present_input: present,
            failure: None,
            cancellation: false,
            request_control: false,
        }
    }

    pub open spec fn next_generation(self) -> u64 {
        if self.generation == u64::MAX {
            0
        } else {
            (self.generation + 1) as u64
        }
    }

    /// Whether a request of `generation` may still publish its result.
    pub open spec fn is_current(self, generation: u64) -> bool {
        self.generation == generation && !(self.phase is Stopped)
    }

    /// Whether a request that lost its generation leaves its verdict behind.
    pub open spec fn keeps_verdict(self, generation: u64, observed: Option<ConnectorError>) -> bool {
        &&& !self.is_current(generation)
        &&& !(self.phase is Stopped)
        &&& observed is Some
        &&& observed->0.spec_kind() != ConnectorErrorKind::Cancelled
    }

    pub open spec fn after_job(self, generation: u64, observed: Option<ConnectorError>) -> Shared {
        let jobs = if self.active_jobs == 0 {
            0usize
        } else {
            (self.active_jobs - 1) as usize
        };
        if self.is_current(generation) {
            Shared { active_jobs: jobs, request_control: false, ..self }
        } else if self.keeps_verdict(generation, observed) {
            Shared {
                active_jobs: jobs,
                reserved_bytes: 0,
                failure: if self.failure is Some {
                    self.failure
                } else {
                    observed
                },
                phase: Phase::Failed,
                ..self
            }
        } else {
            Shared { active_jobs: jobs, reserved_bytes: 0, ..self }
        }
    }

    /// Take one finished request off the books. The answer says whether it may publish.
    ///
    /// A request of an older generation publishes nothing, but a verdict that is no cancellation
    /// belongs to the ordered successor and is kept; the first one wins.
    pub fn finish_job(&mut self, generation: u64, observed_failure: Option<ConnectorError>) -> (current: bool)
        ensures
            current == old(self).is_current(generation),
            *final(self) == old(self).after_job(generation, observed_failure),
    {
        if self.active_jobs > 0 {
            self.active_jobs = self.active_jobs - 1;
        }
        let stopped = matches!(self.phase, Phase::Stopped);
        let current = self.generation == generation && !stopped;
        if !current {
            self.reserved_bytes = 0;
            if !stopped {
                match observed_failure {
                    Some(error) => {
                        let kind = error.kind();
                        if kind != ConnectorErrorKind::Cancelled {
                            if self.failure.is_none() {
                                self.failure = Some(error);
                            }
                            self.phase = Phase::Failed;
                        }
                    },
                    None => {},
                }
            }
        } else {
            self.request_control = false;
        }
        current
    }

    /// The verdict a finished request observed: its own failure first, then that of its drain.
    pub open spec fn observed(
        result: Result<PreparedFileInput, ConnectorError>,
        drain: Result<(), ConnectorError>,
    ) -> Option<ConnectorError> {
        match (result, drain) {
            (Err(error), _) => Some(error),
            (Ok(_), Err(error)) => Some(error),
            (Ok(_), Ok(_)) => None,
        }
    }

    pub open spec fn after_read(
        self,
        generation: u64,
        result: Result<PreparedFileInput, ConnectorError>,
        drain: Result<(), ConnectorError>,
    ) -> Shared {
        let observed = Self::observed(result, drain);
        let finished = self.after_job(generation, observed);
        if self.is_current(generation) {
            match observed {
                Some(error) => Shared {
                    reserved_bytes: 0,
                    failure: Some(error),
                    phase: Phase::Failed,
                    ..finished
                },
                None => Shared {
                    reserved_bytes: 0,
                    ready_input: Some(result->Ok_0),
                    phase: Phase::Ready,
                    ..finished
                },
            }
        } else {
            finished
        }
    }

    /// The one request in flight, started in `generation`, has ended with `result` and its bytes
    /// have drained with `drain`. It is the current one exactly while the candidate is reading.
    pub fn finish_read(
        &mut self,
        generation: u64,
        result: Result<PreparedFileInput, ConnectorError>,
        drain: Result<(), ConnectorError>,
    ) -> (published: bool)
        requires
            old(self).wf(),
            old(self).active_jobs == 1,
            old(self).is_current(generation) <==> old(self).phase is Reading,
        ensures
            published == old(self).is_current(generation),
            *final(self) == old(self).after_read(generation, result, drain),
            final(self).wf(),
    {
        let observed: Option<ConnectorError> = match result {
            Err(error) => Some(error),
            Ok(_) => match drain {
                Err(error) => Some(error),
                Ok(_) => None,
            },
        };
        let published = self.finish_job(generation, observed);
        if published {
            self.reserved_bytes = 0;
            match observed {
                Some(error) => {
                    self.failure = Some(error);
                    self.phase = Phase::Failed;
                },
                None => {
                    if let Ok(input) = result {
                        self.ready_input = Some(input);
                    }
                    self.phase = Phase::Ready;
                },
            }
        }
        published
    }

    pub open spec fn after_pause(self) -> Shared {
        Shared { paused: true, ..self }
    }

    /// Hold further steps back, and the physical request with them.
    pub fn request_pause(&mut self) -> (effects: ControlEffects)
        ensures
            *final(self) == old(self).after_pause(),
            old(self).wf() ==> final(self).wf(),
            effects == (ControlEffects {
                cancel_request: false,
                pause_request: old(self).request_control,
                resume_request: false,
                wake_waiters: false,
            }),
    {
        self.paused = true;
        ControlEffects {
            cancel_request: false,
            pause_request: self.request_control,
            resume_request: false,
            wake_waiters: false,
        }
    }

    pub open spec fn after_resume(self) -> Shared {
        Shared { paused: false, ..self }
    }

    /// Let steps and the physical request go on.
    pub fn request_resume(&mut self) -> (effects: ControlEffects)
        ensures
            *final(self) == old(self).after_resume(),
            old(self).wf() ==> final(self).wf(),
            effects == (ControlEffects {
                cancel_request: false,
                pause_request: false,
                resume_request: old(self).request_control,
                wake_waiters: true,
            }),
    {
        self.paused = false;
        ControlEffects {
            cancel_request: false,
            pause_request: false,
            resume_request: self.request_control,
            wake_waiters: true,
        }
    }

    pub open spec fn after_reclaim(self) -> Shared {
        Shared {
            generation: self.next_generation(),
            cancellation: false,
            request_control: false,
            ready_input: None,
            present_input: None,
            phase: if self.phase is Failed {
                Phase::Failed
            } else {
                Phase::New
            },
            reserved_bytes: if self.active_jobs == 0 {
                0
            } else {
                self.reserved_bytes
            },
            ..self
        }
    }

    /// Give the bytes up and cancel the attempt. A failure stays for the ordered successor.
    pub fn request_reclaim(&mut self) -> (effects: ControlEffects)
        ensures
            *final(self) == old(self).after_reclaim(),
            old(self).wf() ==> final(self).wf(),
            effects == (ControlEffects {
                cancel_request: old(self).cancellation,
                pause_request: false,
                resume_request: false,
                wake_waiters: true,
            }),
    {
        let cancel = self.cancellation;
        self.generation = self.generation.wrapping_add(1);
        self.cancellation = false;
        self.request_control = false;
        self.ready_input = None;
        self.present_input = None;
        if !matches!(self.phase, Phase::Failed) {
            self.phase = Phase::New;
        }
        if self.active_jobs == 0 {
            self.reserved_bytes = 0;
        }
        ControlEffects {
            cancel_request: cancel,
            pause_request: false,
            resume_request: false,
            wake_waiters: true,
        }
    }

    pub open spec fn after_stop(self) -> Shared {
        Shared {
            generation: self.next_generation(),
            cancellation: false,
            request_control: false,
            ready_input: None,
            present_input: None,
            failure: None,
            phase: Phase::Stopped,
            reserved_bytes: if self.active_jobs == 0 {
                0
            } else {
                self.reserved_bytes
            },
            ..self
        }
    }

    /// Give everything up, a failure too.
    pub fn request_stop(&mut self) -> (effects: ControlEffects)
        ensures
            *final(self) == old(self).after_stop(),
            old(self).wf() ==> final(self).wf(),
            effects == (ControlEffects {
                cancel_request: old(self).cancellation,
                pause_request: false,
                resume_request: false,
                wake_waiters: true,
            }),
    {
        let cancel = self.cancellation;
        self.generation = self.generation.wrapping_add(1);
        self.cancellation = false;
        self.request_control = false;
        self.ready_input = None;
        self.present_input = None;
        self.failure = None;
        self.phase = Phase::Stopped;
        if self.active_jobs == 0 {
            self.reserved_bytes = 0;
        }
        ControlEffects {
            cancel_request: cancel,
            pause_request: false,
            resume_request: false,
            wake_waiters: true,
        }
    }

    /// The bytes this candidate keeps: its request's, its old tail's and its result's.
    pub open spec fn retained(self) -> int {
        saturated(
            self.reserved_bytes + input_capacity(self.present_input) + input_capacity(
                self.ready_input,
            ),
        )
    }

    pub fn retained_input_bytes(&self) -> (bytes: u64)
        ensures
            bytes == self.retained(),
    {
        let present: u64 = input_capacity_of(&self.present_input);
        let ready: u64 = input_capacity_of(&self.ready_input);
        self.reserved_bytes.saturating_add(present).saturating_add(ready)
    }

    /// No request in flight and nothing reserved for one.
    pub open spec fn drained(self) -> bool {
        self.active_jobs == 0 && self.reserved_bytes == 0
    }

    pub fn is_drained(&self) -> (drained: bool)
        ensures
            drained == self.drained(),
    {
        self.active_jobs == 0 && self.reserved_bytes == 0
    }
}


/// A candidate that may read one planned range ahead of demand.
#[derive(Clone, Copy, Debug, PartialEq, Eq, Structural)]
pub struct PreparedRangeCandidate {
    /// Whether a part of the planned range is worth reading.
    pub allow_partial: bool,
    pub shared: Shared,
}

/// What the program does next for a candidate.
#[derive(Clone, Copy, Debug, PartialEq, Eq, Structural)]
pub enum AdvanceAction {
    /// Report this progress; nothing else is to be done.
    Report(ConnectorPreparationProgress),
    /// Run the planner and hand its answer to [`PreparedRangeCandidate::planned`].
    Plan,
    /// Start a request for these bytes and hand the outcome to
    /// [`PreparedRangeCandidate::started`].
    Start { offset: u64, length: u64 },
}

/// How the range service answered a start.
#[derive(Clone, Copy, Debug, PartialEq, Eq, Structural)]
pub enum StartOutcome {
    Started,
    /// The service has no room for the request now.
    Declined,
    Failed(ConnectorError),
}

/// The number of bytes a candidate asks for out of `available`, given what is left to spend;
/// `None` where it has to wait for more.
pub open spec fn requested_length(allow_partial: bool, available: u64, remaining: u64) -> Option<u64> {
    if !allow_partial {
        if available > remaining || available == 0 {
            None
        } else {
            Some(available)
        }
    } else {
        let capped = if available < MAX_PARTIAL_RANGE_BYTES {
            available
        } else {
            MAX_PARTIAL_RANGE_BYTES
        };
        let length = if capped < remaining {
            capped
        } else {
            remaining
        };
        if length == 0 {
            None
        } else {
            Some(length)
        }
    }
}

fn requested_length_of(allow_partial: bool, available: u64, remaining: u64) -> (length: Option<u64>)
    ensures
        length == requested_length(allow_partial, available, remaining),
{
    let length: u64 = if !allow_partial {
        if available > remaining {
            return None;
        }
        available
    } else {
        let capped: u64 = if available < MAX_PARTIAL_RANGE_BYTES {
            available
        } else {
            MAX_PARTIAL_RANGE_BYTES
        };
        if capped < remaining {
            capped
        } else {
            remaining
        }
    };
    if length == 0 {
        None
    } else {
        Some(length)
    }
}

impl PreparedRangeCandidate {
    pub open spec fn wf(self) -> bool {
        self.shared.wf()
    }

    /// A candidate for a whole or partial range with nothing read so far.
    pub fn new(has_range_scope: bool, has_range_service: bool) -> (candidate: Option<PreparedRangeCandidate>)
        ensures
            candidate == (if has_range_scope && has_range_service {
                Some(PreparedRangeCandidate { allow_partial: true, shared: Shared::fresh(None) })
            } else {
                None::<PreparedRangeCandidate>
            }),
            candidate is Some ==> candidate->0.wf(),
    {
        Self::new_with_present(has_range_scope, has_range_service, None, true)
    }

    /// A candidate that starts from bytes it already has. Without a range scope and a range
    /// service there is nothing to read through, and no candidate.
    pub fn new_with_present(
        has_range_scope: bool,
        has_range_service: bool,
        present_input: Option<PreparedFileInput>,
        allow_partial: bool,
    ) -> (candidate: Option<PreparedRangeCandidate>)
        ensures
            candidate == (if has_range_scope && has_range_service {
                Some(PreparedRangeCandidate { allow_partial, shared: Shared::fresh(present_input) })
            } else {
                None::<PreparedRangeCandidate>
            }),
            candidate is Some ==> candidate->0.wf(),
    {
        if has_range_scope && has_range_service {
            Some(PreparedRangeCandidate { allow_partial, shared: Shared::new(present_input) })
        } else {
            None
        }
    }

    pub fn retained_input_bytes(&self) -> (bytes: u64)
        ensures
            bytes == self.shared.retained(),
    {
        self.shared.retained_input_bytes()
    }

    /// Whether a call has to wait for an earlier request or for a resume.
    pub open spec fn held_back(self) -> bool {
        self.shared.paused || (self.shared.active_jobs > 0 && self.shared.phase is New)
    }

    /// The bytes the candidate would ask for now, where it is about to ask.
    pub open spec fn next_request(self, remaining: u64) -> Option<(u64, u64)> {
        match self.shared.phase {
            Phase::Planned(Some(planned)) => {
                let (offset, available) = planned_extent(planned);
                match requested_length(self.allow_partial, available, remaining) {
                    Some(length) => Some((offset, length)),
                    None => None,
                }
            },
            _ => None,
        }
    }

    /// What one step does, and the state it leaves.
    pub open spec fn advanced(self, remaining: u64) -> (PreparedRangeCandidate, Result<AdvanceAction, ConnectorError>) {
        if self.held_back() {
            (self, Ok(AdvanceAction::Report(ConnectorPreparationProgress::Pending)))
        } else {
            match self.shared.phase {
                Phase::New => (self, Ok(AdvanceAction::Plan)),
                Phase::Reading => (
                    self,
                    Ok(AdvanceAction::Report(ConnectorPreparationProgress::Pending)),
                ),
                Phase::Ready | Phase::Failed => (
                    self,
                    Ok(AdvanceAction::Report(ConnectorPreparationProgress::Ready)),
                ),
                Phase::Stopped => (
                    self,
                    Ok(AdvanceAction::Report(ConnectorPreparationProgress::Deferred)),
                ),
                Phase::Planned(None) => (
                    PreparedRangeCandidate {
                        shared: Shared { phase: Phase::Ready, ..self.shared },
                        ..self
                    },
                    Ok(AdvanceAction::Report(ConnectorPreparationProgress::Ready)),
                ),
                Phase::Planned(Some(_)) => match self.next_request(remaining) {
                    None => (
                        self,
                        Ok(AdvanceAction::Report(ConnectorPreparationProgress::Deferred)),
                    ),
                    Some((offset, length)) => if offset + length > u64::MAX {
                        (self, Err(ConnectorError::Invalid(InvalidRequest::RangeBeyondAddressSpace)))
                    } else if length + input_capacity(self.shared.present_input) > u64::MAX {
                        (self, Err(ConnectorError::Internal(InternalFault::PreparedCapacityOverflow)))
                    } else {
                        (
                            PreparedRangeCandidate {
                                shared: Shared { reserved_bytes: length, ..self.shared },
                                ..self
                            },
                            Ok(AdvanceAction::Start { offset, length }),
                        )
                    },
                },
            }
        }
    }

    /// Take one step with `remaining_input_bytes` left to spend.
    pub fn advance(&mut self, remaining_input_bytes: u64) -> (action: Result<AdvanceAction, ConnectorError>)
        requires
            old(self).wf(),
            old(self).shared.phase is Planned ==> old(self).shared.reserved_bytes == 0,
        ensures
            (*final(self), action) == old(self).advanced(remaining_input_bytes),
            final(self).wf(),
    {
        if self.shared.paused || (self.shared.active_jobs > 0 && matches!(self.shared.phase, Phase::New)) {
            return Ok(AdvanceAction::Report(ConnectorPreparationProgress::Pending));
        }
        match self.shared.phase {
            Phase::New => Ok(AdvanceAction::Plan),
            Phase::Reading => Ok(AdvanceAction::Report(ConnectorPreparationProgress::Pending)),
            Phase::Ready | Phase::Failed => Ok(
                AdvanceAction::Report(ConnectorPreparationProgress::Ready),
            ),
            Phase::Stopped => Ok(AdvanceAction::Report(ConnectorPreparationProgress::Deferred)),
            Phase::Planned(None) => {
                self.shared.phase = Phase::Ready;
                Ok(AdvanceAction::Report(ConnectorPreparationProgress::Ready))
            },
            Phase::Planned(Some(planned)) => {
                let (offset, available): (u64, u64) = match planned.range {
                    FileReadRange::Bounded { offset, length } => (offset, length),
                    FileReadRange::WholeFile => (0, planned.file_size),
                };
                match requested_length_of(self.allow_partial, available, remaining_input_bytes) {
                    None => Ok(AdvanceAction::Report(ConnectorPreparationProgress::Deferred)),
                    Some(length) => {
                        if offset.checked_add(length).is_none() {
                            return Err(
                                ConnectorError::Invalid(InvalidRequest::RangeBeyondAddressSpace),
                            );
                        }
                        let present: u64 = input_capacity_of(&self.shared.present_input);
                        if length.checked_add(present).is_none() {
                            return Err(
                                ConnectorError::Internal(InternalFault::PreparedCapacityOverflow),
                            );
                        }
                        self.shared.reserved_bytes = length;
                        Ok(AdvanceAction::Start { offset, length })
                    },
                }
            },
        }
    }

    /// The planner has answered.
    pub fn planned(&mut self, planned: Result<Option<PlannedInput>, ConnectorError>) -> (progress: ConnectorPreparationProgress)
        requires
            old(self).wf(),
            old(self).shared.phase is New,
            old(self).shared.active_jobs == 0,
        ensures
            progress == ConnectorPreparationProgress::Pending,
            *final(self) == (PreparedRangeCandidate {
                shared: match planned {
                    Ok(range) => Shared { phase: Phase::Planned(range), ..old(self).shared },
                    Err(error) => Shared {
                        phase: Phase::Failed,
                        failure: Some(error),
                        ..old(self).shared
                    },
                },
                ..*old(self)
            }),
            final(self).wf(),
            final(self).shared.reserved_bytes == 0,
    {
        match planned {
            Ok(range) => {
                self.shared.phase = Phase::Planned(range);
            },
            Err(error) => {
                self.shared.failure = Some(error);
                self.shared.phase = Phase::Failed;
            },
        }
        ConnectorPreparationProgress::Pending
    }

    /// The state after the service answered a start of `reserved_bytes`.
    pub open spec fn after_start(self, outcome: StartOutcome) -> PreparedRangeCandidate {
        PreparedRangeCandidate {
            shared: match outcome {
                StartOutcome::Started => Shared {
                    cancellation: true,
                    request_control: true,
                    present_input: None,
                    reserved_bytes: (self.shared.reserved_bytes + input_capacity(
                        self.shared.present_input,
                    )) as u64,
                    active_jobs: 1,
                    phase: Phase::Reading,
                    ..self.shared
                },
                StartOutcome::Declined => Shared { reserved_bytes: 0, ..self.shared },
                StartOutcome::Failed(error) => Shared {
                    reserved_bytes: 0,
                    failure: Some(error),
                    phase: Phase::Failed,
                    ..self.shared
                },
            },
            ..self
        }
    }

    /// The service has answered a start. While the request is in flight it owns the old tail as
    /// well as its own target.
    pub fn started(&mut self, outcome: StartOutcome) -> (progress: ConnectorPreparationProgress)
        requires
            old(self).wf(),
            old(self).shared.phase is Planned,
            old(self).shared.reserved_bytes > 0,
        ensures
            *final(self) == old(self).after_start(outcome),
            final(self).wf(),
            progress == (match outcome {
                StartOutcome::Started => ConnectorPreparationProgress::Pending,
                StartOutcome::Declined => ConnectorPreparationProgress::Deferred,
                StartOutcome::Failed(_) => ConnectorPreparationProgress::Ready,
            }),
    {
        match outcome {
            StartOutcome::Started => {
                let present: u64 = input_capacity_of(&self.shared.present_input);
                self.shared.reserved_bytes = self.shared.reserved_bytes + present;
                self.shared.cancellation = true;
                self.shared.request_control = true;
                self.shared.present_input = None;
                self.shared.active_jobs = self.shared.active_jobs + 1;
                self.shared.phase = Phase::Reading;
                ConnectorPreparationProgress::Pending
            },
            StartOutcome::Declined => {
                self.shared.reserved_bytes = 0;
                ConnectorPreparationProgress::Deferred
            },
            StartOutcome::Failed(error) => {
                self.shared.reserved_bytes = 0;
                self.shared.failure = Some(error);
                self.shared.phase = Phase::Failed;
                ConnectorPreparationProgress::Ready
            },
        }
    }

    /// The task that would await the request in flight could not be spawned. By then a reclaim or
    /// a stop may have come; the failure is recorded all the same.
    pub fn spawn_failed(&mut self, error: ConnectorError) -> (progress: ConnectorPreparationProgress)
        requires
            old(self).wf(),
            old(self).shared.active_jobs == 1,
        ensures
            progress == ConnectorPreparationProgress::Ready,
            *final(self) == (PreparedRangeCandidate {
                shared: Shared {
                    active_jobs: 0,
                    reserved_bytes: 0,
                    request_control: false,
                    failure: Some(error),
                    phase: Phase::Failed,
                    ..old(self).shared
                },
                ..*old(self)
            }),
            final(self).wf(),
    {
        self.shared.active_jobs = self.shared.active_jobs - 1;
        self.shared.reserved_bytes = 0;
        self.shared.request_control = false;
        self.shared.failure = Some(error);
        self.shared.phase = Phase::Failed;
        ConnectorPreparationProgress::Ready
    }

    /// What a taker gets: the failure, else the input, each of them once.
    pub open spec fn taken(self) -> (PreparedRangeCandidate, Result<Option<PreparedFileInput>, ConnectorError>) {
        match self.shared.failure {
            Some(error) => (
                PreparedRangeCandidate { shared: Shared { failure: None, ..self.shared }, ..self },
                Err(error),
            ),
            None => (
                PreparedRangeCandidate {
                    shared: Shared {
                        ready_input: None,
                        phase: if self.shared.ready_input is Some {
                            Phase::Stopped
                        } else {
                            self.shared.phase
                        },
                        ..self.shared
                    },
                    ..self
                },
                Ok(self.shared.ready_input),
            ),
        }
    }

    /// Hand the outcome over.
    pub fn take_ready(&mut self) -> (taken: Result<Option<PreparedFileInput>, ConnectorError>)
        ensures
            (*final(self), taken) == old(self).taken(),
            old(self).wf() ==> final(self).wf(),
    {
        match self.shared.failure {
            Some(error) => {
                self.shared.failure = None;
                Err(error)
            },
            None => {
                let input = self.shared.ready_input;
                self.shared.ready_input = None;
                if input.is_some() {
                    self.shared.phase = Phase::Stopped;
                }
                Ok(input)
            },
        }
    }
}

/// The control of every candidate that one source has armed. A candidate that was replaced stays
/// on the books until its bytes have drained.
pub struct SuccessorPreparationGroup {
    pub paused: bool,
    pub stopped: bool,
    pub reclaim_epoch: u64,
    pub held_input: Option<PreparedFileInput>,
    pub controls: Vec<Shared>,
}

/// Whether a candidate still has bytes to drain.
pub open spec fn undrained() -> spec_fn(Shared) -> bool {
    |shared: Shared| !shared.drained()
}

/// The bytes that each of `controls` keeps.
pub open spec fn retained_each(controls: Seq<Shared>) -> Seq<int> {
    controls.map_values(|shared: Shared| shared.retained())
}

impl SuccessorPreparationGroup {
    pub fn new() -> (group: SuccessorPreparationGroup)
        ensures
            !group.paused,
            !group.stopped,
            group.reclaim_epoch == 0,
            group.held_input is None,
            group.controls@ == Seq::<Shared>::empty(),
    {
        SuccessorPreparationGroup {
            paused: false,
            stopped: false,
            reclaim_epoch: 0,
            held_input: None,
            controls: Vec::new(),
        }
    }

    /// The state in which a group takes a new candidate in.
    pub open spec fn admitted(self, control: Shared) -> Shared {
        if self.stopped {
            control.after_stop()
        } else if self.paused {
            control.after_pause()
        } else {
            control
        }
    }

    /// What taking a new candidate in asks of its physical request.
    pub open spec fn admission(self, control: Shared) -> ControlEffects {
        ControlEffects {
            cancel_request: self.stopped && control.cancellation,
            pause_request: !self.stopped && self.paused && control.request_control,
            resume_request: false,
            wake_waiters: self.stopped,
        }
    }

    /// Take a candidate in, and forget those that have drained. A group that is stopped or paused
    /// stops or pauses what it takes in.
    pub fn add(&mut self, control: Shared) -> (effects: ControlEffects)
        ensures
            effects == old(self).admission(control),
            final(self).controls@ == old(self).controls@.filter(undrained()).push(
                old(self).admitted(control),
            ),
            final(self).paused == old(self).paused,
            final(self).stopped == old(self).stopped,
            final(self).reclaim_epoch == old(self).reclaim_epoch,
            final(self).held_input == old(self).held_input,
    {
        let mut kept: Vec<Shared> = Vec::new();
        let mut i: usize = 0;
        assert(self.controls@.take(0).filter(undrained()) =~= Seq::<Shared>::empty()) by {
            reveal(Seq::filter);
        }
        while i < self.controls.len()
            invariant
                i <= self.controls@.len(),
                self.controls@ == old(self).controls@,
                self.paused == old(self).paused,
                self.stopped == old(self).stopped,
                self.reclaim_epoch == old(self).reclaim_epoch,
                self.held_input == old(self).held_input,
                kept@ == self.controls@.take(i as int).filter(undrained()),
            decreases self.controls@.len() - i,
        {
            let existing = self.controls[i];
            proof {
                lemma_filter_step(self.controls@, undrained(), i as int);
            }
            if !existing.is_drained() {
                kept.push(existing);
            }
            i += 1;
        }
        assert(self.controls@.take(i as int) =~= self.controls@);
        let mut control = control;
        let effects = if self.stopped {
            control.request_stop()
        } else if self.paused {
            control.request_pause()
        } else {
            ControlEffects {
                cancel_request: false,
                pause_request: false,
                resume_request: false,
                wake_waiters: false,
            }
        };
        kept.push(control);
        self.controls = kept;
        effects
    }

    pub fn reclaim_epoch(&self) -> (epoch: u64)
        ensures
            epoch == self.reclaim_epoch,
    {
        self.reclaim_epoch
    }

    /// Keep one input for the source to pick up.
    pub fn hold_input(&mut self, input: PreparedFileInput)
        ensures
            *final(self) == (SuccessorPreparationGroup { held_input: Some(input), ..*old(self) }),
    {
        self.held_input = Some(input);
    }

    /// Hand the kept input over.
    pub fn take_input(&mut self) -> (input: Option<PreparedFileInput>)
        ensures
            input == old(self).held_input,
            *final(self) == (SuccessorPreparationGroup { held_input: None, ..*old(self) }),
    {
        let input = self.held_input;
        self.held_input = None;
        input
    }

    pub fn input(&self) -> (input: Option<PreparedFileInput>)
        ensures
            input == self.held_input,
    {
        self.held_input
    }

    /// How many candidates have bytes to drain.
    pub fn undrained_candidate_count(&self) -> (count: usize)
        ensures
            count == self.controls@.filter(undrained()).len(),
    {
        let mut count: usize = 0;
        let mut i: usize = 0;
        assert(self.controls@.take(0).filter(undrained()) =~= Seq::<Shared>::empty()) by {
            reveal(Seq::filter);
        }
        while i < self.controls.len()
            invariant
                i <= self.controls@.len(),
                count <= i,
                count == self.controls@.take(i as int).filter(undrained()).len(),
            decreases self.controls@.len() - i,
        {
            proof {
                lemma_filter_step(self.controls@, undrained(), i as int);
            }
            if !self.controls[i].is_drained() {
                count += 1;
            }
            i += 1;
        }
        assert(self.controls@.take(i as int) =~= self.controls@);
        count
    }

    pub fn request_pause(&mut self) -> (effects: Vec<ControlEffects>)
        ensures
            final(self).paused,
            final(self).stopped == old(self).stopped,
            final(self).reclaim_epoch == old(self).reclaim_epoch,
            final(self).held_input == old(self).held_input,
            final(self).controls@ == old(self).controls@.map_values(|shared: Shared| shared.after_pause()),
            effects@.len() == old(self).controls@.len(),
            forall|i: int| 0 <= i < effects@.len() ==> #[trigger] effects@[i] == (ControlEffects {
                cancel_request: false,
                pause_request: old(self).controls@[i].request_control,
                resume_request: false,
                wake_waiters: false,
            }),
    {
        self.paused = true;
        let mut effects: Vec<ControlEffects> = Vec::new();
        let mut i: usize = 0;
        while i < self.controls.len()
            invariant
                i <= self.controls@.len(),
                self.controls@.len() == old(self).controls@.len(),
                self.paused,
                self.stopped == old(self).stopped,
                self.reclaim_epoch == old(self).reclaim_epoch,
                self.held_input == old(self).held_input,
                forall|k: int| 0 <= k < i ==> #[trigger] self.controls@[k] == old(self).controls@[k].after_pause(),
                forall|k: int| i <= k < self.controls@.len() ==> #[trigger] self.controls@[k] == old(self).controls@[k],
                effects@.len() == i,
                forall|k: int| 0 <= k < i ==> #[trigger] effects@[k] == (ControlEffects {
                    cancel_request: false,
                    pause_request: old(self).controls@[k].request_control,
                    resume_request: false,
                    wake_waiters: false,
                }),
            decreases self.controls@.len() - i,
        {
            let mut control = self.controls[i];
            let effect = control.request_pause();
            effects.push(effect);
            self.controls.set(i, control);
            i += 1;
        }
        assert(self.controls@ =~= old(self).controls@.map_values(|shared: Shared| shared.after_pause()));
        effects
    }

    pub fn request_resume(&mut self) -> (effects: Vec<ControlEffects>)
        ensures
            !final(self).paused,
            final(self).stopped == old(self).stopped,
            final(self).reclaim_epoch == old(self).reclaim_epoch,
            final(self).held_input == old(self).held_input,
            final(self).controls@ == old(self).controls@.map_values(|shared: Shared| shared.after_resume()),
            effects@.len() == old(self).controls@.len(),
            forall|i: int| 0 <= i < effects@.len() ==> #[trigger] effects@[i] == (ControlEffects {
                cancel_request: false,
                pause_request: false,
                resume_request: old(self).controls@[i].request_control,
                wake_waiters: true,
            }),
    {
        self.paused = false;
        let mut effects: Vec<ControlEffects> = Vec::new();
        let mut i: usize = 0;
        while i < self.controls.len()
            invariant
                i <= self.controls@.len(),
                self.controls@.len() == old(self).controls@.len(),
                !self.paused,
                self.stopped == old(self).stopped,
                self.reclaim_epoch == old(self).reclaim_epoch,
                self.held_input == old(self).held_input,
                forall|k: int| 0 <= k < i ==> #[trigger] self.controls@[k] == old(self).controls@[k].after_resume(),
                forall|k: int| i <= k < self.controls@.len() ==> #[trigger] self.controls@[k] == old(self).controls@[k],
                effects@.len() == i,
                forall|k: int| 0 <= k < i ==> #[trigger] effects@[k] == (ControlEffects {
                    cancel_request: false,
                    pause_request: false,
                    resume_request: old(self).controls@[k].request_control,
                    wake_waiters: true,
                }),
            decreases self.controls@.len() - i,
        {
            let mut control = self.controls[i];
            let effect = control.request_resume();
            effects.push(effect);
            self.controls.set(i, control);
            i += 1;
        }
        assert(self.controls@ =~= old(self).controls@.map_values(|shared: Shared| shared.after_resume()));
        effects
    }

    /// Give every candidate's bytes up, and the kept input with them. The epoch tells the source
    /// that what it saw before is gone.
    pub fn request_reclaim(&mut self) -> (effects: Vec<ControlEffects>)
        ensures
            final(self).paused == old(self).paused,
            final(self).stopped == old(self).stopped,
            final(self).reclaim_epoch == (if old(self).reclaim_epoch == u64::MAX {
                0
            } else {
                old(self).reclaim_epoch + 1
            }),
            final(self).held_input is None,
            final(self).controls@ == old(self).controls@.map_values(|shared: Shared| shared.after_reclaim()),
            effects@.len() == old(self).controls@.len(),
            forall|i: int| 0 <= i < effects@.len() ==> #[trigger] effects@[i] == (ControlEffects {
                cancel_request: old(self).controls@[i].cancellation,
                pause_request: false,
                resume_request: false,
                wake_waiters: true,
            }),
    {
        self.reclaim_epoch = self.reclaim_epoch.wrapping_add(1);
        self.held_input = None;
        let ghost epoch = self.reclaim_epoch;
        let mut effects: Vec<ControlEffects> = Vec::new();
        let mut i: usize = 0;
        while i < self.controls.len()
            invariant
                i <= self.controls@.len(),
                self.controls@.len() == old(self).controls@.len(),
                self.paused == old(self).paused,
                self.stopped == old(self).stopped,
                self.reclaim_epoch == epoch,
                self.held_input is None,
                forall|k: int| 0 <= k < i ==> #[trigger] self.controls@[k] == old(self).controls@[k].after_reclaim(),
                forall|k: int| i <= k < self.controls@.len() ==> #[trigger] self.controls@[k] == old(self).controls@[k],
                effects@.len() == i,
                forall|k: int| 0 <= k < i ==> #[trigger] effects@[k] == (ControlEffects {
                    cancel_request: old(self).controls@[k].cancellation,
                    pause_request: false,
                    resume_request: false,
                    wake_waiters: true,
                }),
            decreases self.controls@.len() - i,
        {
            let mut control = self.controls[i];
            let effect = control.request_reclaim();
            effects.push(effect);
            self.controls.set(i, control);
            i += 1;
        }
        assert(self.controls@ =~= old(self).controls@.map_values(|shared: Shared| shared.after_reclaim()));
        effects
    }

    pub fn request_stop(&mut self) -> (effects: Vec<ControlEffects>)
        ensures
            final(self).paused == old(self).paused,
            final(self).stopped,
            final(self).reclaim_epoch == old(self).reclaim_epoch,
            final(self).held_input is None,
            final(self).controls@ == old(self).controls@.map_values(|shared: Shared| shared.after_stop()),
            effects@.len() == old(self).controls@.len(),
            forall|i: int| 0 <= i < effects@.len() ==> #[trigger] effects@[i] == (ControlEffects {
                cancel_request: old(self).controls@[i].cancellation,
                pause_request: false,
                resume_request: false,
                wake_waiters: true,
            }),
    {
        self.stopped = true;
        self.held_input = None;
        let mut effects: Vec<ControlEffects> = Vec::new();
        let mut i: usize = 0;
        while i < self.controls.len()
            invariant
                i <= self.controls@.len(),
                self.controls@.len() == old(self).controls@.len(),
                self.paused == old(self).paused,
                self.stopped,
                self.reclaim_epoch == old(self).reclaim_epoch,
                self.held_input is None,
                forall|k: int| 0 <= k < i ==> #[trigger] self.controls@[k] == old(self).controls@[k].after_stop(),
                forall|k: int| i <= k < self.controls@.len() ==> #[trigger] self.controls@[k] == old(self).controls@[k],
                effects@.len() == i,
                forall|k: int| 0 <= k < i ==> #[trigger] effects@[k] == (ControlEffects {
                    cancel_request: old(self).controls@[k].cancellation,
                    pause_request: false,
                    resume_request: false,
                    wake_waiters: true,
                }),
            decreases self.controls@.len() - i,
        {
            let mut control = self.controls[i];
            let effect = control.request_stop();
            effects.push(effect);
            self.controls.set(i, control);
            i += 1;
        }
        assert(self.controls@ =~= old(self).controls@.map_values(|shared: Shared| shared.after_stop()));
        effects
    }

    /// The bytes that the kept input and all candidates hold together.
    pub fn retained_input_bytes(&self) -> (bytes: u64)
        ensures
            bytes == saturated(
                input_capacity(self.held_input) + total(retained_each(self.controls@)),
            ),
    {
        let mut bytes: u64 = input_capacity_of(&self.held_input);
        let mut i: usize = 0;
        let ghost each = retained_each(self.controls@);
        assert(each.take(0) =~= Seq::<int>::empty());
        while i < self.controls.len()
            invariant
                i <= self.controls@.len(),
                each == retained_each(self.controls@),
                bytes == saturated(input_capacity(self.held_input) + total(each.take(i as int))),
            decreases self.controls@.len() - i,
        {
            let one: u64 = self.controls[i].retained_input_bytes();
            bytes = bytes.saturating_add(one);
            proof {
                assert(each.take(i + 1) =~= each.take(i as int).push(each[i as int]));
                lemma_total_push(each.take(i as int), each[i as int]);
            }
            i += 1;
        }
        assert(each.take(i as int) =~= each);
        bytes
    }

    /// Whether no candidate has bytes to drain.
    pub fn is_drained(&self) -> (drained: bool)
        ensures
            drained == (forall|i: int| 0 <= i < self.controls@.len() ==> (#[trigger] self.controls@[i]).drained()),
    {
        let mut i: usize = 0;
        while i < self.controls.len()
            invariant
                i <= self.controls@.len(),
                forall|k: int| 0 <= k < i ==> (#[trigger] self.controls@[k]).drained(),
            decreases self.controls@.len() - i,
        {
            if !self.controls[i].is_drained() {
                return false;
            }
            i += 1;
        }
        true
    }
}

// ---------------------------------------------------------------------------
// What the transitions keep between them
// ---------------------------------------------------------------------------

/// Reclaiming lets go of bytes alone: a failure outlives any number of reclaims until it is
/// taken.
pub proof fn law_reclaim_keeps_the_failure(shared: Shared)
    requires
        shared.wf(),
        shared.failure is Some,
    ensures
        shared.after_reclaim().failure == shared.failure,
        shared.after_reclaim().phase is Failed,
        shared.after_reclaim().after_reclaim().failure == shared.failure,
{
}

/// A verdict that a request reports after its generation was reclaimed is kept as well, unless
/// it is only the cancellation that the reclaim asked for.
pub proof fn law_late_verdict_survives_reclaim(shared: Shared, error: ConnectorError)
    requires
        shared.wf(),
        shared.phase is Reading,
        error.spec_kind() != ConnectorErrorKind::Cancelled,
    ensures
        !shared.after_reclaim().is_current(shared.generation),
        shared.after_reclaim().after_job(shared.generation, Some(error)).failure == Some(error),
        shared.after_reclaim().after_job(shared.generation, Some(error)).phase is Failed,
{
}

/// Once a candidate was reclaimed or stopped, the end of its one request drains it: nothing stays
/// reserved.
pub proof fn law_finishing_after_release_drains(shared: Shared, observed: Option<ConnectorError>)
    requires
        shared.wf(),
    ensures
        shared.after_reclaim().after_job(shared.generation, observed).drained(),
        shared.after_stop().after_job(shared.generation, observed).drained(),
        shared.active_jobs == 0 ==> shared.after_reclaim().drained() && shared.after_stop().drained(),
{
}

/// A request of an older generation publishes no input, whatever it read.
pub proof fn law_stale_request_publishes_nothing(
    shared: Shared,
    generation: u64,
    result: Result<PreparedFileInput, ConnectorError>,
    drain: Result<(), ConnectorError>,
)
    requires
        !shared.is_current(generation),
    ensures
        shared.after_read(generation, result, drain).ready_input == shared.ready_input,
{
}

/// A candidate keeps no more than it was allowed to spend, beyond the tail that it already had.
pub proof fn law_a_started_request_stays_within_its_budget(candidate: PreparedRangeCandidate, remaining: u64)
    requires
        candidate.wf(),
        candidate.shared.ready_input is None,
        candidate.advanced(remaining).1 matches Ok(AdvanceAction::Start { .. }),
    ensures
        candidate.advanced(remaining).0.after_start(StartOutcome::Started).shared.retained()
            <= remaining + input_capacity(candidate.shared.present_input),
        candidate.allow_partial ==> candidate.advanced(remaining).0.shared.reserved_bytes
            <= MAX_PARTIAL_RANGE_BYTES,
{
}

/// Input is handed over once: a second taker gets nothing.
pub proof fn law_input_is_taken_once(candidate: PreparedRangeCandidate)
    requires
        candidate.wf(),
        candidate.shared.ready_input is Some,
    ensures
        candidate.taken().1 == Ok::<Option<PreparedFileInput>, ConnectorError>(candidate.shared.ready_input),
        candidate.taken().0.taken().1 == Ok::<Option<PreparedFileInput>, ConnectorError>(None),
        candidate.taken().0.shared.retained() == saturated(
            candidate.shared.reserved_bytes + input_capacity(candidate.shared.present_input),
        ),
{
}

/// Replacing a candidate never makes bytes disappear from the books: what a group keeps after an
/// `add` counts every candidate that still has a request in flight.
pub proof fn law_add_keeps_undrained_bytes(group: SuccessorPreparationGroup, control: Shared, i: int)
    requires
        0 <= i < group.controls@.len(),
        !group.controls@[i].drained(),
    ensures
        group.controls@.filter(undrained()).push(group.admitted(control)).contains(group.controls@[i]),
{
    let kept = group.controls@.filter(undrained());
    lemma_kept_by_filter(group.controls@, undrained(), i);
    let at = choose|k: int| 0 <= k < kept.len() && kept[k] == group.controls@[i];
    assert(kept.push(group.admitted(control))[at] == group.controls@[i]);
}

proof fn lemma_kept_by_filter<T>(values: Seq<T>, keep: spec_fn(T) -> bool, i: int)
    requires
        0 <= i < values.len(),
        keep(values[i]),
    ensures
        values.filter(keep).contains(values[i]),
    decreases values.len(),
{
    reveal(Seq::filter);
    let shorter = values.drop_last();
    if i < shorter.len() {
        lemma_kept_by_filter(shorter, keep, i);
        let at = choose|k: int| 0 <= k < shorter.filter(keep).len() && shorter.filter(keep)[k] == values[i];
        assert(values.filter(keep)[at] == values[i]);
    } else {
        assert(values.filter(keep) == shorter.filter(keep).push(values[i]));
        assert(values.filter(keep)[shorter.filter(keep).len() as int] == values[i]);
    }
}

} // verus!
