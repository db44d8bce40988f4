//! One input for each failure that only odd facts bring about.

use std::sync::Arc;

use roaring::RoaringTreemap;

use iceberg_connector::carrier::{DataType, Field};
use iceberg_connector::delete_closure::{validate_split_delete_cost, DeleteClosure};
use iceberg_connector::delete_filter::{loaded_equality_delete, ResolvedDeletes};
use iceberg_connector::delete_manager::{DeleteManager, DeleteScope};
use iceberg_connector::error::{
    ConnectorError, ConnectorErrorKind, CorruptData, InternalFault, InvalidRequest, ResourceLimit, UnsupportedFeature,
};
use iceberg_connector::files_relation::{entries_data_file_array, files_columns};
use iceberg_connector::metadata_column::{metadata_column, IcebergMetadataColumn, IcebergSplitFacts};
use iceberg_connector::page_source::admit_split;
use iceberg_connector::page_source_provider::{
    CandidateOutcome, FuturePreparationPhase, IcebergPreparedPageSource, StageEvent,
};
use iceberg_connector::partition::{PartitionField, PartitionSpec, TransformResult};
use iceberg_connector::partitions_relation::partitions_metrics_array;
use iceberg_connector::partitions_view::PartitionAggregate;
use iceberg_connector::preparation::{
    AdvanceAction, FileReadRange, PlannedInput, PreparedFileInput, PreparedRangeCandidate,
};
use iceberg_connector::schema_binding::annotated_read_schema;
use iceberg_connector::snapshot_relations::{partition_summaries_array, FieldSummary, ListedManifest};
use iceberg_connector::split::{
    IcebergDeleteFile, IcebergDeleteFileContent, IcebergFileFormat, IcebergSplit, ParquetFileDecryptionData,
};
use iceberg_connector::system_columns::{bounds_struct_array, partition_struct_array};
use iceberg_connector::system_rows::{TrinoManifestContent, TrinoManifestFile};
use iceberg_connector::system_schema::{
    iceberg_primitive_to_arrow, metadata_relation_type, partition_row_type, MetadataRelationFieldIds,
};
use iceberg_connector::types::{InitialDefault, NestedField, PrimitiveType, Schema, Type};
use iceberg_connector::value::{Datum, Literal, PrimitiveLiteral};

fn error_of<T>(result: Result<T, ConnectorError>) -> ConnectorError {
    match result {
        Ok(_) => panic!("a failure was expected"),
        Err(error) => error,
    }
}

fn nested(id: i32, name: &str, field_type: Type) -> NestedField {
    NestedField { id, name: name.to_string(), required: false, field_type, initial_default: InitialDefault::Absent }
}

fn carrier(name: &str, data_type: DataType) -> Field {
    Field { name: name.to_string(), data_type, nullable: true, field_id: None, initial_default: None, json: false, metadata: Vec::new() }
}

fn schema() -> Schema {
    Schema { fields: vec![nested(1, "id", Type::Primitive(PrimitiveType::Long))] }
}

fn delete_file(content: IcebergDeleteFileContent, format: IcebergFileFormat) -> IcebergDeleteFile {
    IcebergDeleteFile {
        content,
        path: "d.parquet".to_string(),
        format,
        record_count: 1,
        file_size_in_bytes: 1,
        equality_field_ids: vec![1],
        row_position_lower_bound: None,
        row_position_upper_bound: None,
        data_sequence_number: 2,
        content_offset: None,
        content_size_in_bytes: None,
        referenced_data_file: None,
        decryption_data: None,
    }
}

#[test]
fn partition_fields_have_to_fit_the_schema() {
    let spec = |source_id: i32, result_type: TransformResult| PartitionSpec {
        spec_id: 1,
        fields: vec![PartitionField { source_id, name: "p".to_string(), identity: false, result_type }],
    };
    let long = TransformResult::Primitive(PrimitiveType::Long);
    for (spec, fault) in [
        (spec(99, long), CorruptData::PartitionSourceMissing),
        (spec(1, TransformResult::Undefined), CorruptData::PartitionTransformUndefined),
        (spec(1, TransformResult::Nested), CorruptData::PartitionNotPrimitive),
    ] {
        assert_eq!(error_of(partition_row_type(&schema(), &[spec])), ConnectorError::Corrupt(fault));
    }
}

#[test]
fn partition_values_and_bounds_have_to_fit_their_rows() {
    let value = Some(Literal::Nested);
    let tuple = vec![("p".to_string(), &value)];
    let row = DataType::Struct(vec![carrier("p", DataType::Int64)]);
    assert_eq!(
        error_of(partition_struct_array(&row, &vec![&tuple])),
        ConnectorError::Corrupt(CorruptData::NestedPartitionValue)
    );
    assert_eq!(
        error_of(partition_struct_array(&DataType::Int64, &vec![&tuple])),
        ConnectorError::Internal(InternalFault::PartitionRowNotStruct)
    );
    let datum = Datum { literal: PrimitiveLiteral::Long(1), text: "1".to_string() };
    let bounds = vec![(1, &datum)];
    assert_eq!(
        error_of(bounds_struct_array(&DataType::Int64, &vec![&bounds])),
        ConnectorError::Internal(InternalFault::BoundsRowNotStruct)
    );
    let unnamed = DataType::Struct(vec![carrier("x", DataType::Int64)]);
    assert_eq!(
        error_of(bounds_struct_array(&unnamed, &vec![&bounds])),
        ConnectorError::Internal(InternalFault::BoundsFieldNotAnId)
    );
}

#[test]
fn the_columns_of_a_row_have_to_fit_its_fields() {
    let refused = ConnectorError::Internal(InternalFault::RowColumns);
    let required = |name: &str, data_type: DataType| Field { nullable: false, ..carrier(name, data_type) };
    let present = Some(Literal::Primitive(PrimitiveLiteral::Long(5)));
    let held = vec![("p".to_string(), &present)];
    let missing: Vec<(String, &Option<Literal>)> = Vec::new();
    let row = || DataType::Struct(vec![required("p", DataType::Int64)]);
    assert!(partition_struct_array(&row(), &vec![&held]).is_ok());
    assert_eq!(error_of(partition_struct_array(&row(), &vec![&held, &missing])), refused);
    assert_eq!(error_of(partition_struct_array(&DataType::Struct(Vec::new()), &vec![&held])), refused);

    let unbounded: Vec<(i32, &Datum)> = Vec::new();
    let bounds = DataType::Struct(vec![required("1", DataType::Int64)]);
    assert!(bounds_struct_array(&bounds, &Vec::new()).is_ok());
    assert_eq!(error_of(bounds_struct_array(&bounds, &vec![&unbounded])), refused);
    assert_eq!(error_of(bounds_struct_array(&DataType::Struct(Vec::new()), &vec![&unbounded])), refused);

    // The file facts have their own carriers, whatever the row declares.
    let wrong = DataType::Struct(vec![carrier("record_count", DataType::Int32)]);
    assert_eq!(error_of(entries_data_file_array(&wrong, &Vec::new())), refused);
    let right = DataType::Struct(vec![carrier("record_count", DataType::Int64)]);
    assert!(entries_data_file_array(&right, &Vec::new()).is_ok());

    let none: Vec<PartitionAggregate<'_>> = Vec::new();
    let metrics = |fields: Vec<Field>| DataType::Struct(vec![carrier("id", DataType::Struct(fields))]);
    assert!(partitions_metrics_array(&metrics(vec![carrier("null_count", DataType::Int64)]), &none, &schema()).is_ok());
    assert_eq!(
        error_of(partitions_metrics_array(&metrics(vec![carrier("null_count", DataType::Int32)]), &none, &schema())),
        refused
    );
    assert_eq!(error_of(partitions_metrics_array(&metrics(Vec::new()), &none, &schema())), refused);
    assert_eq!(error_of(partitions_metrics_array(&DataType::Struct(Vec::new()), &none, &schema())), refused);
}

#[test]
fn partition_summaries_have_to_fit_their_carrier() {
    let specs = || vec![PartitionSpec {
        spec_id: 0,
        fields: vec![PartitionField {
            source_id: 1,
            name: "id".to_string(),
            identity: true,
            result_type: TransformResult::Primitive(PrimitiveType::Long),
        }],
    }];
    let manifest = |contains_nan: Option<bool>| ListedManifest {
        manifest: TrinoManifestFile {
            content: TrinoManifestContent::Data,
            path: "m.avro".to_string(),
            length: 1,
            partition_spec_id: 0,
            added_snapshot_id: 1,
            added_files_count: None,
            existing_files_count: None,
            deleted_files_count: None,
            added_rows_count: None,
            existing_rows_count: None,
            deleted_rows_count: None,
            sequence_number: 1,
            min_sequence_number: 1,
            first_row_id: None,
        },
        summaries: Some(vec![FieldSummary { contains_null: true, contains_nan, lower_bound: None, upper_bound: None }]),
    };
    let list = |fields: Vec<Field>| DataType::List(Box::new(carrier("item", DataType::Struct(fields))));
    let parts = |nan_nullable: bool| {
        vec![
            Field { nullable: false, ..carrier("contains_null", DataType::Boolean) },
            Field { nullable: nan_nullable, ..carrier("contains_nan", DataType::Boolean) },
            carrier("lower_bound", DataType::Utf8),
            carrier("upper_bound", DataType::Utf8),
        ]
    };
    let built = |data_type: &DataType, contains_nan: Option<bool>| {
        partition_summaries_array(data_type, &vec![manifest(contains_nan)], &specs(), &schema())
    };
    let fault = |data_type: DataType, contains_nan: Option<bool>| error_of(built(&data_type, contains_nan));
    assert!(built(&list(parts(true)), None).is_ok());
    assert!(built(&list(parts(false)), Some(false)).is_ok());
    assert_eq!(fault(list(parts(false)), None), ConnectorError::Internal(InternalFault::RowColumns));
    assert_eq!(fault(list(Vec::new()), None), ConnectorError::Internal(InternalFault::RowColumns));
    let mut swapped = parts(true);
    swapped.swap(1, 2);
    assert_eq!(fault(list(swapped), None), ConnectorError::Internal(InternalFault::RowColumns));
    assert_eq!(fault(DataType::Int64, None), ConnectorError::Internal(InternalFault::SummariesNotList));
    assert_eq!(
        fault(DataType::List(Box::new(carrier("item", DataType::Int64))), None),
        ConnectorError::Internal(InternalFault::SummaryNotStruct)
    );
    // The column keeps the carrier that was declared for it.
    let renamed = DataType::List(Box::new(carrier("element", DataType::Struct(parts(true)))));
    assert!(built(&renamed, None).expect("column").carries(&renamed));
}

#[test]
fn relation_columns_have_to_be_known() {
    let unknown = vec![carrier("nope", DataType::Int64)];
    assert_eq!(
        error_of(files_columns(&unknown, &Vec::new(), &schema())),
        ConnectorError::Internal(InternalFault::UnknownRelationColumn)
    );
    assert_eq!(
        error_of(entries_data_file_array(&DataType::Int64, &Vec::new())),
        ConnectorError::Internal(InternalFault::DataFileRowNotStruct)
    );
    let none: Vec<PartitionAggregate<'_>> = Vec::new();
    let fault = |data_type: DataType| error_of(partitions_metrics_array(&data_type, &none, &schema()));
    assert_eq!(fault(DataType::Int64), ConnectorError::Internal(InternalFault::MetricsRowNotStruct));
    assert_eq!(
        fault(DataType::Struct(vec![carrier("id", DataType::Int64)])),
        ConnectorError::Internal(InternalFault::MetricsFieldNotStruct)
    );
    assert_eq!(
        fault(DataType::Struct(vec![carrier("gone", DataType::Struct(Vec::new()))])),
        ConnectorError::Internal(InternalFault::MetricsFieldUnknown)
    );
    assert_eq!(
        fault(DataType::Struct(vec![carrier(
            "id",
            DataType::Struct(vec![carrier("median", DataType::Int64)])
        )])),
        ConnectorError::Internal(InternalFault::UnknownMetric)
    );
}

#[test]
fn types_without_a_carrier_are_named() {
    for (primitive, fault) in [
        (
            PrimitiveType::Decimal { precision: 300, scale: 2 },
            ConnectorError::Invalid(InvalidRequest::DecimalPrecisionOutOfRange),
        ),
        (
            PrimitiveType::Decimal { precision: 30, scale: 200 },
            ConnectorError::Invalid(InvalidRequest::DecimalScaleOutOfRange),
        ),
        (PrimitiveType::Fixed(1 << 40), ConnectorError::Invalid(InvalidRequest::FixedWidthOutOfRange)),
        (PrimitiveType::Variant, ConnectorError::Unsupported(UnsupportedFeature::VariantCarrier)),
    ] {
        assert_eq!(error_of(iceberg_primitive_to_arrow(primitive)), fault);
    }
    let mirror = |data_type: DataType| {
        let mut ids = MetadataRelationFieldIds::new();
        error_of(metadata_relation_type(&data_type, &mut ids))
    };
    assert_eq!(
        mirror(DataType::Float16),
        ConnectorError::Unsupported(UnsupportedFeature::MetadataCarrier)
    );
    assert_eq!(
        mirror(DataType::MapOf(Box::new(carrier("entries", DataType::Int64)), false)),
        ConnectorError::Internal(InternalFault::MapEntriesNotStruct)
    );
    let one = DataType::Struct(vec![carrier("key", DataType::Int64)]);
    assert_eq!(
        mirror(DataType::MapOf(Box::new(carrier("entries", one)), false)),
        ConnectorError::Internal(InternalFault::MapEntriesNotKeyValue)
    );
    let mut last = MetadataRelationFieldIds { next: i32::MAX };
    assert_eq!(last.take(), Err(ConnectorError::Internal(InternalFault::FieldIdsExhausted)));
}

#[test]
fn read_carriers_have_to_fit_the_table_schema() {
    let fault = |field: NestedField, read: DataType| {
        let name = field.name.clone();
        error_of(annotated_read_schema(&vec![carrier(&name, read)], &Schema { fields: vec![field] }))
    };
    let mut unencodable = nested(1, "a", Type::Primitive(PrimitiveType::Long));
    unencodable.initial_default = InitialDefault::Unencodable;
    assert_eq!(
        fault(unencodable, DataType::Int64),
        ConnectorError::Invalid(InvalidRequest::InitialDefaultUnencodable)
    );
    let part = || nested(2, "b", Type::Primitive(PrimitiveType::Long));
    assert_eq!(
        fault(nested(1, "a", Type::Struct(vec![part()])), DataType::Struct(Vec::new())),
        ConnectorError::Invalid(InvalidRequest::StructDoesNotMatchCarrier)
    );
    let map = || nested(1, "a", Type::MapOf(Box::new(part()), Box::new(part())));
    assert_eq!(
        fault(map(), DataType::MapOf(Box::new(carrier("entries", DataType::Int64)), false)),
        ConnectorError::Invalid(InvalidRequest::MapCarrierNotStruct)
    );
    assert_eq!(
        fault(map(), DataType::MapOf(Box::new(carrier("entries", DataType::Struct(Vec::new()))), false)),
        ConnectorError::Invalid(InvalidRequest::MapCarrierNotKeyValue)
    );
}

#[test]
fn delete_closures_name_what_they_cannot_hold() {
    let positions = IcebergDeleteFileContent::PositionDeletes;
    let equality = IcebergDeleteFileContent::EqualityDeletes;
    let fault = |delete: IcebergDeleteFile| error_of(DeleteClosure::classify(&[delete]).map(|_| ()));
    assert_eq!(
        fault(delete_file(positions, IcebergFileFormat::Orc)),
        ConnectorError::Unsupported(UnsupportedFeature::PositionDeleteFormat)
    );
    assert_eq!(
        fault(delete_file(equality, IcebergFileFormat::Avro)),
        ConnectorError::Unsupported(UnsupportedFeature::EqualityDeleteFormat)
    );
    assert_eq!(
        fault(delete_file(equality, IcebergFileFormat::Puffin)),
        ConnectorError::Corrupt(CorruptData::PuffinEqualityDelete)
    );
    let many: Vec<IcebergDeleteFile> =
        (0..1025).map(|_| delete_file(positions, IcebergFileFormat::Parquet)).collect();
    assert_eq!(
        validate_split_delete_cost(&many, &[]),
        Err(ConnectorError::Exhausted(ResourceLimit::DeleteFiles))
    );
    assert_eq!(validate_split_delete_cost(&many[..1024], &[]), Ok(()));
    assert_eq!(
        validate_split_delete_cost(&many[..1024], &many[..1]),
        Err(ConnectorError::Exhausted(ResourceLimit::DeleteFiles))
    );
}

#[test]
fn a_key_that_is_not_at_the_top_level_has_no_index() {
    let mut manager = DeleteManager::new();
    let scope = DeleteScope { partition_spec_id: 0, partition_data_json: "{}".to_string() };
    let delete = delete_file(IcebergDeleteFileContent::EqualityDeletes, IcebergFileFormat::Parquet);
    let artifacts = vec![loaded_equality_delete(&delete, &vec![1]).expect("one set")];
    assert_eq!(
        manager.publish_equality(&scope, &vec![99], &artifacts, &schema()),
        Err(ConnectorError::Corrupt(CorruptData::FieldNotTopLevel))
    );
    assert_eq!(manager.publish_equality(&scope, &vec![1], &artifacts, &schema()), Ok(0));
    assert_eq!(manager.publish_equality(&scope, &vec![1], &artifacts, &schema()), Ok(0));
    assert_eq!(manager.equality[0].artifacts.len(), 1);
    assert_eq!(manager.equality[0].highest_loaded_sequence, Some(2));
    let nothing = ResolvedDeletes { deleted_positions: Arc::new(RoaringTreemap::new()), equality: Vec::new() };
    assert!(nothing.is_empty());
}

#[test]
fn metadata_columns_need_their_facts() {
    let facts = IcebergSplitFacts {
        path: "a.parquet",
        partition_data_json: "{}",
        file_first_row_id: None,
        data_sequence_number: None,
    };
    assert_eq!(
        error_of(metadata_column(IcebergMetadataColumn::LastUpdatedSequenceNumber, 1, None, &facts)),
        ConnectorError::Corrupt(CorruptData::RowSequenceMissing)
    );
    for metadata in [IcebergMetadataColumn::FileModifiedTime, IcebergMetadataColumn::IsDeleted] {
        assert_eq!(
            error_of(metadata_column(metadata, 1, None, &facts)),
            ConnectorError::Unsupported(UnsupportedFeature::MetadataColumn)
        );
    }
}

#[test]
fn an_encrypted_data_file_is_refused() {
    let split = IcebergSplit {
        path: "a.parquet".to_string(),
        start: 0,
        length: 1,
        file_size: 1,
        file_record_count: 1,
        file_format: IcebergFileFormat::Parquet,
        partition_spec_id: 0,
        partition_data_json: "{}".to_string(),
        deletes: Vec::new(),
        data_sequence_number: None,
        file_first_row_id: None,
        decryption_data: Some(ParquetFileDecryptionData { key_metadata: vec![1], aad_prefix: Vec::new() }),
        affinity_key: None,
    };
    let error = error_of(admit_split(&split));
    assert_eq!(error, ConnectorError::Unsupported(UnsupportedFeature::DataFileDecryption));
    assert_eq!(error.kind(), ConnectorErrorKind::Unsupported);
}

#[test]
fn stages_fail_on_what_cannot_follow() {
    let failure = |phase: FuturePreparationPhase, event: StageEvent| {
        let mut source = IcebergPreparedPageSource::new(600, 1_000);
        source.phase = phase;
        source.advance_stages(event);
        assert_eq!(source.phase, FuturePreparationPhase::Ready);
        source.failure
    };
    let nothing = StageEvent::CandidateAdvanced(CandidateOutcome::Finished(Ok(None)));
    let invalid = |cause: InvalidRequest| Some(ConnectorError::Invalid(cause));
    assert_eq!(failure(FuturePreparationPhase::Tail, nothing), invalid(InvalidRequest::TailWithoutInput));
    assert_eq!(failure(FuturePreparationPhase::Footer, nothing), invalid(InvalidRequest::FooterWithoutInput));
    assert_eq!(failure(FuturePreparationPhase::Data, nothing), invalid(InvalidRequest::DataRangeWithoutInput));
    assert_eq!(
        failure(FuturePreparationPhase::Tail, StageEvent::FooterOpened(false)),
        invalid(InvalidRequest::FooterLostRangeScope)
    );
    assert_eq!(
        failure(FuturePreparationPhase::Tail, StageEvent::DataPlanned(Ok(None))),
        invalid(InvalidRequest::DataPlannedWithoutFooter)
    );
}

#[test]
fn a_capacity_that_no_count_holds_is_refused() {
    let present = PreparedFileInput { start: 0, end: 1, backing_capacity: u64::MAX };
    let mut candidate =
        PreparedRangeCandidate::new_with_present(true, true, Some(present), true).expect("candidate");
    assert_eq!(candidate.advance(4), Ok(AdvanceAction::Plan));
    candidate.planned(Ok(Some(PlannedInput {
        file_size: 16,
        range: FileReadRange::Bounded { offset: 0, length: 16 },
    })));
    assert_eq!(
        candidate.advance(4),
        Err(ConnectorError::Internal(InternalFault::PreparedCapacityOverflow))
    );
}
