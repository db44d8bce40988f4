//! Reservations of write activations.
//!
//! The table belongs to one generation of a connector. A write operation is reserved with the
//! digest of its activation, and released only once its outcome is known.

use std::collections::HashMap;

use vstd::prelude::*;
use vstd::std_specs::hash::*;

use crate::error::{ConnectorError, InvalidRequest, ResourceLimit};

verus! {

/// One cohort of a write: its id and the preparation that it writes from. Preparations stay with
/// the program, which numbers them.
#[derive(Clone, Copy, Debug, PartialEq, Eq, Structural)]
pub struct WriteCohort {
    pub cohort_id: u128,
    pub preparation: u64,
}

/// What a write is activated from.
pub enum ConnectorWriteActivationSource {
    /// One preparation.
    Prepared(u64),
    /// The routes of a row mutation, each a cohort of its own.
    RowMutation(Vec<WriteCohort>),
}

/// The cohorts of an activation: the primary cohort of a single preparation, or those of the
/// routes, in their order.
pub open spec fn cohorts_of(source: ConnectorWriteActivationSource, primary: u128) -> Seq<WriteCohort> {
    match source {
        ConnectorWriteActivationSource::Prepared(preparation) => seq![
            WriteCohort { cohort_id: primary, preparation },
        ],
        ConnectorWriteActivationSource::RowMutation(routes) => routes@,
    }
}

/// The cohorts of an activation, given the id of the operation's primary cohort.
pub fn activation_cohorts(source: &ConnectorWriteActivationSource, primary: u128) -> (cohorts: Vec<WriteCohort>)
    ensures
        cohorts@ == cohorts_of(*source, primary),
{
    let mut cohorts: Vec<WriteCohort> = Vec::new();
    match source {
        ConnectorWriteActivationSource::Prepared(preparation) => {
            cohorts.push(WriteCohort { cohort_id: primary, preparation: *preparation });
            assert(cohorts@ =~= cohorts_of(*source, primary));
        },
        ConnectorWriteActivationSource::RowMutation(routes) => {
            let mut i: usize = 0;
            while i < routes.len()
                invariant
                    i <= routes.len(),
                    cohorts@.len() == i,
                    forall|k: int| 0 <= k < i ==> #[trigger] cohorts@[k] == routes@[k],
                decreases routes.len() - i,
            {
                cohorts.push(routes[i]);
                i += 1;
            }
            assert(cohorts@ =~= routes@);
        },
    }
    cohorts
}

/// The reserved operations, each with the digest of its activation.
pub struct IcebergWriteActivationReservations {
    pub reservations: HashMap<u128, [u8; 32]>,
    /// The most operations that are reserved at once.
    pub limit: usize,
}

/// Why an operation cannot be reserved: it is reserved with another digest, or the table is full.
pub open spec fn reservation_fault(reserved: Map<u128, [u8; 32]>, limit: nat, operation_id: u128, digest: Seq<u8>) -> Option<ConnectorError> {
    if reserved.contains_key(operation_id) {
        if reserved[operation_id]@ == digest {
            None
        } else {
            Some(ConnectorError::Invalid(InvalidRequest::WriteActivationConflict))
        }
    } else if reserved.len() >= limit {
        Some(ConnectorError::Exhausted(ResourceLimit::WriteActivations))
    } else {
        None
    }
}

fn same_digest(left: &[u8; 32], right: &[u8; 32]) -> (same: bool)
    ensures
        same == (left@ == right@),
{
    let mut i: usize = 0;
    while i < 32
        invariant
            i <= 32,
            forall|k: int| 0 <= k < i ==> #[trigger] left@[k] == right@[k],
        decreases 32 - i,
    {
        if left[i] != right[i] {
            return false;
        }
        i += 1;
    }
    assert(left@ =~= right@);
    true
}

impl IcebergWriteActivationReservations {
    /// What is reserved.
    pub open spec fn reserved(self) -> Map<u128, [u8; 32]> {
        self.reservations@
    }

    /// A table of no reservation.
    pub fn new(limit: usize) -> (table: IcebergWriteActivationReservations)
        ensures
            table.reserved() == Map::<u128, [u8; 32]>::empty(),
            table.limit == limit,
    {
        broadcast use group_hash_axioms;

        IcebergWriteActivationReservations { reservations: HashMap::new(), limit }
    }

    /// Reserve an operation, given whether its request is valid and what the digest of its
    /// activation is. To reserve it again with the same digest changes nothing; another digest
    /// cannot take its place.
    pub fn activate_cohorts(
        &mut self,
        operation_id: u128,
        validated: Result<(), ConnectorError>,
        digest: Result<[u8; 32], ConnectorError>,
    ) -> (activated: Result<[u8; 32], ConnectorError>)
        ensures
            final(self).limit == old(self).limit,
            match (validated, digest) {
                (Err(error), _) => activated == Err::<[u8; 32], ConnectorError>(error)
                    && final(self).reserved() == old(self).reserved(),
                (Ok(_), Err(error)) => activated == Err::<[u8; 32], ConnectorError>(error)
                    && final(self).reserved() == old(self).reserved(),
                (Ok(_), Ok(digest)) => match reservation_fault(
                    old(self).reserved(),
                    old(self).limit as nat,
                    operation_id,
                    digest@,
                ) {
                    Some(error) => activated == Err::<[u8; 32], ConnectorError>(error)
                        && final(self).reserved() == old(self).reserved(),
                    None => {
                        &&& activated == Ok::<[u8; 32], ConnectorError>(digest)
                        &&& final(self).reserved() == if old(self).reserved().contains_key(
                            operation_id,
                        ) {
                            old(self).reserved()
                        } else {
                            old(self).reserved().insert(operation_id, digest)
                        }
                    },
                },
            },
    {
        broadcast use group_hash_axioms;

        if let Err(error) = validated {
            return Err(error);
        }
        let digest: [u8; 32] = match digest {
            Ok(digest) => digest,
            Err(error) => return Err(error),
        };
        match self.reservations.get(&operation_id) {
            Some(existing) => {
                if same_digest(existing, &digest) {
                    return Ok(digest);
                }
                return Err(ConnectorError::Invalid(InvalidRequest::WriteActivationConflict));
            },
            None => {
                if self.reservations.len() >= self.limit {
                    return Err(ConnectorError::Exhausted(ResourceLimit::WriteActivations));
                }
            },
        }
        self.reservations.insert(operation_id, digest);
        Ok(digest)
    }

    /// Reserve an operation with the cohorts of its source, given the id of its primary cohort,
    /// whether its request is valid, and the digest of the activation of these cohorts.
    pub fn activate(
        &mut self,
        operation_id: u128,
        source: &ConnectorWriteActivationSource,
        primary: u128,
        validated: Result<(), ConnectorError>,
        digest: Result<[u8; 32], ConnectorError>,
    ) -> (activated: Result<(Vec<WriteCohort>, [u8; 32]), ConnectorError>)
        ensures
            final(self).limit == old(self).limit,
            match (validated, digest) {
                (Err(error), _) => activated == Err::<
                    (Vec<WriteCohort>, [u8; 32]),
                    ConnectorError,
                >(error) && final(self).reserved() == old(self).reserved(),
                (Ok(_), Err(error)) => activated == Err::<
                    (Vec<WriteCohort>, [u8; 32]),
                    ConnectorError,
                >(error) && final(self).reserved() == old(self).reserved(),
                (Ok(_), Ok(digest)) => match reservation_fault(
                    old(self).reserved(),
                    old(self).limit as nat,
                    operation_id,
                    digest@,
                ) {
                    Some(error) => activated == Err::<
                        (Vec<WriteCohort>, [u8; 32]),
                        ConnectorError,
                    >(error) && final(self).reserved() == old(self).reserved(),
                    None => {
                        &&& activated is Ok
                        &&& activated->Ok_0.0@ == cohorts_of(*source, primary)
                        &&& activated->Ok_0.1 == digest
                        &&& final(self).reserved() == if old(self).reserved().contains_key(
                            operation_id,
                        ) {
                            old(self).reserved()
                        } else {
                            old(self).reserved().insert(operation_id, digest)
                        }
                    },
                },
            },
    {
        match self.activate_cohorts(operation_id, validated, digest) {
            Ok(digest) => Ok((activation_cohorts(source, primary), digest)),
            Err(error) => Err(error),
        }
    }

    /// Release an operation whose outcome is known. One whose outcome is not stays reserved.
    pub fn release(&mut self, operation_id: u128)
        ensures
            final(self).limit == old(self).limit,
            final(self).reserved() == old(self).reserved().remove(operation_id),
    {
        broadcast use group_hash_axioms;

        self.reservations.remove(&operation_id);
    }

    pub fn len(&self) -> (count: usize)
        ensures
            count == self.reserved().len(),
    {
        broadcast use group_hash_axioms;

        self.reservations.len()
    }
}

/// To reserve an operation again with the same digest always succeeds, full table or not.
pub proof fn law_activation_is_idempotent(reserved: Map<u128, [u8; 32]>, limit: nat, operation_id: u128, digest: [u8; 32])
    ensures
        reservation_fault(
            reserved.insert(operation_id, digest),
            limit,
            operation_id,
            digest@,
        ) is None,
{
}

/// A conflicting activation never replaces a reservation, and a released operation can be reserved
/// with any digest.
pub proof fn law_release_ends_a_reservation(
    reserved: Map<u128, [u8; 32]>,
    limit: nat,
    operation_id: u128,
    first: [u8; 32],
    second: [u8; 32],
)
    requires
        reserved.dom().finite(),
        !reserved.contains_key(operation_id),
        reserved.len() < limit,
        first@ != second@,
    ensures
        reservation_fault(reserved.insert(operation_id, first), limit, operation_id, second@)
            == Some(ConnectorError::Invalid(InvalidRequest::WriteActivationConflict)),
        reservation_fault(
            reserved.insert(operation_id, first).remove(operation_id),
            limit,
            operation_id,
            second@,
        ) is None,
{
    assert(reserved.insert(operation_id, first).remove(operation_id) =~= reserved);
}

} // verus!
