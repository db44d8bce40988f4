//! Reservations of write activations, and the frame of the read carriers.

use iceberg_connector::codec::{FieldPath, IcebergConnectorReadCodec, OuterRelation};
use iceberg_connector::error::{ConnectorError, ConnectorErrorKind, InvalidRequest, ResourceLimit};
use iceberg_connector::page_source_provider::{IcebergRelationCategory, IcebergSplitCategory};
use iceberg_connector::split::IcebergFileFormat;
use iceberg_connector::write_activation::{
    activation_cohorts, ConnectorWriteActivationSource, IcebergWriteActivationReservations, WriteCohort,
};

const LIMIT: usize = 64;

/// The digest of an activation: here the bytes of its marker and its cohorts.
fn digest(marker: &[u8], cohorts: &[WriteCohort]) -> [u8; 32] {
    let mut bytes = [0_u8; 32];
    for (place, byte) in marker.iter().enumerate() {
        bytes[place] = *byte;
    }
    bytes[30] = cohorts.len() as u8;
    for cohort in cohorts {
        bytes[31] ^= cohort.cohort_id as u8;
    }
    bytes
}

fn activate(
    reservations: &mut IcebergWriteActivationReservations,
    operation: u128,
    marker: &[u8],
) -> Result<[u8; 32], ConnectorError> {
    let source = ConnectorWriteActivationSource::Prepared(1);
    let cohorts = activation_cohorts(&source, operation);
    let (activated, made) =
        reservations.activate(operation, &source, operation, Ok(()), Ok(digest(marker, &cohorts)))?;
    assert_eq!(activated, vec![WriteCohort { cohort_id: operation, preparation: 1 }]);
    Ok(made)
}

#[test]
fn exact_generation_reservation_is_idempotent_conflict_safe_and_releasable() {
    let operation = 17;
    let mut reservations = IcebergWriteActivationReservations::new(LIMIT);
    let first = activate(&mut reservations, operation, b"first").expect("first activation");
    let replay = activate(&mut reservations, operation, b"first").expect("idempotent replay");
    assert_eq!(first, replay);
    assert_eq!(reservations.len(), 1);
    let conflict = match activate(&mut reservations, operation, b"conflict") {
        Ok(_) => panic!("conflicting activation must fail"),
        Err(error) => error,
    };
    assert_eq!(conflict.kind(), ConnectorErrorKind::InvalidRequest);
    assert_eq!(conflict, ConnectorError::Invalid(InvalidRequest::WriteActivationConflict));

    reservations.release(operation);
    assert_eq!(reservations.len(), 0);
}

#[test]
fn exact_generation_reservations_are_bounded() {
    let mut reservations = IcebergWriteActivationReservations::new(LIMIT);
    for operation in 0..LIMIT as u128 {
        activate(&mut reservations, operation, b"bounded").expect("activation within the provider bound");
    }
    let error = match activate(&mut reservations, LIMIT as u128, b"overflow") {
        Ok(_) => panic!("activation beyond the provider bound must fail"),
        Err(error) => error,
    };
    assert_eq!(error.kind(), ConnectorErrorKind::ResourceExhausted);
    assert_eq!(error, ConnectorError::Exhausted(ResourceLimit::WriteActivations));
    // A full table still answers a replay.
    activate(&mut reservations, 3, b"bounded").expect("replay");
}

#[test]
fn provider_frozen_multi_cohort_activation_is_bounded_and_idempotent() {
    let operation = 23;
    let cohorts = vec![
        WriteCohort { cohort_id: 1, preparation: 7 },
        WriteCohort { cohort_id: 2, preparation: 7 },
    ];
    let both = digest(b"rewrite", &cohorts);
    let one = digest(b"rewrite", &cohorts[..1]);
    let mut reservations = IcebergWriteActivationReservations::new(LIMIT);
    let first = reservations.activate_cohorts(operation, Ok(()), Ok(both)).expect("multi-cohort activation");
    let replay = reservations.activate_cohorts(operation, Ok(()), Ok(both)).expect("multi-cohort replay");
    assert_eq!(first, replay);
    assert_eq!(activation_cohorts(&ConnectorWriteActivationSource::RowMutation(cohorts), operation).len(), 2);

    let conflict = match reservations.activate_cohorts(operation, Ok(()), Ok(one)) {
        Ok(_) => panic!("different cohort set must conflict"),
        Err(error) => error,
    };
    assert_eq!(conflict.kind(), ConnectorErrorKind::InvalidRequest);
}

#[test]
fn an_invalid_request_reserves_nothing() {
    let mut reservations = IcebergWriteActivationReservations::new(LIMIT);
    let invalid = ConnectorError::Reported(ConnectorErrorKind::InvalidRequest);
    assert_eq!(reservations.activate_cohorts(1, Err(invalid), Ok([0; 32])), Err(invalid));
    assert_eq!(reservations.activate_cohorts(1, Ok(()), Err(invalid)), Err(invalid));
    assert_eq!(reservations.len(), 0);
}

#[test]
fn a_codec_admits_its_own_relations_alone() {
    let codec = IcebergConnectorReadCodec::new("ice".to_string(), vec![1, 2, 3]);
    let other_catalog = IcebergConnectorReadCodec::new("snow".to_string(), vec![1, 2, 3]);
    let other_generation = IcebergConnectorReadCodec::new("ice".to_string(), vec![1, 2, 4]);
    assert_eq!(codec.owner(), "ice");
    let (frame, category) =
        codec.encode_relation(Some(IcebergRelationCategory::Table), true).expect("encoded");
    assert_eq!(category, IcebergRelationCategory::Table);
    assert_eq!(frame.catalog_name, "ice");
    assert_eq!(frame.instance_incarnation, vec![1, 2, 3]);

    assert_eq!(
        codec.decode_relation(&frame, true, Some(category), true),
        Ok(IcebergRelationCategory::Table)
    );
    assert_eq!(other_catalog.ensure_outer_relation(&frame), Err(FieldPath::CatalogName));
    assert_eq!(other_generation.ensure_outer_relation(&frame), Err(FieldPath::InstanceIncarnation));
    let neither = OuterRelation { catalog_name: "rain".to_string(), instance_incarnation: Vec::new() };
    assert_eq!(codec.decode_relation(&neither, false, None, false), Err(FieldPath::CatalogName));
    assert_eq!(codec.decode_relation(&frame, false, None, false), Err(FieldPath::Transaction));
    assert_eq!(codec.decode_relation(&frame, true, None, true), Err(FieldPath::CatalogTableHandle));
    assert_eq!(
        codec.decode_relation(&frame, true, Some(category), false),
        Err(FieldPath::CatalogTableHandle)
    );
    match codec.encode_relation(None, true) {
        Ok(_) => panic!("there is no table"),
        Err(path) => assert_eq!(path, FieldPath::RelationTable),
    }
    match codec.encode_relation(Some(category), false) {
        Ok(_) => panic!("there is no transaction"),
        Err(path) => assert_eq!(path, FieldPath::RelationTransaction),
    }
}

#[test]
fn failures_are_reported_on_their_paths() {
    let codec = IcebergConnectorReadCodec::new("ice".to_string(), Vec::new());
    assert_eq!(codec.decode_column(true), Ok(()));
    assert_eq!(codec.decode_column(false), Err(FieldPath::ColumnHandle));
    assert_eq!(codec.encode_column(false), Err(FieldPath::ColumnHandle));
    assert_eq!(codec.decode_transaction(false), Err(FieldPath::Transaction));
    assert_eq!(codec.encode_transaction(false), Err(FieldPath::Transaction));
    let split = IcebergSplitCategory::Data(IcebergFileFormat::Parquet);
    assert_eq!(codec.decode_split(Some(split)), Ok(split));
    assert_eq!(codec.decode_split(None), Err(FieldPath::ConnectorSplit));
    assert_eq!(codec.encode_split(None), Err(FieldPath::ConnectorSplit));
    assert_eq!(FieldPath::CatalogName.text(), "catalog_table_handle.catalog_name");
    assert_eq!(FieldPath::InstanceIncarnation.text(), "catalog_table_handle.instance_incarnation");
    assert_eq!(FieldPath::RelationTable.text(), "relation.table");
}
