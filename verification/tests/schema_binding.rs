//! Where each output column of a scan comes from.

use std::sync::Arc;

use arrow::array::{ArrayRef, AsArray, Int32Array};
use arrow::datatypes::Int64Type;

use iceberg_connector::adaptation::{
    differ_only_by_nested_field_metadata, iceberg_promotion, physical_adaptation, representation_equivalent,
    IcebergPhysicalAdaptation, IcebergTypePromotion,
};
use iceberg_connector::carrier::{DataType, Field, TimeUnit};
use iceberg_connector::column::{Cell, Column};
use iceberg_connector::column_handle::IcebergColumnHandle;
use iceberg_connector::error::{ConnectorError, ConnectorErrorKind, CorruptData, InvalidRequest, UnsupportedFeature};
use iceberg_connector::metadata_column::{
    metadata_column, IcebergMetadataColumn, IcebergSplitFacts, ICEBERG_METADATA_FIELD_ID_PATH,
};
use iceberg_connector::partition::{PartitionField, PartitionSpec, TransformResult};
use iceberg_connector::schema_binding::{
    annotated_read_schema, bind_metadata_column, bind_scan_columns, combined_validity, dereference_target_field,
    expect_primitive, file_field_id_coverage, identity_partition_values, path_validity, ColumnStep, FileFieldIdCoverage,
    IcebergColumnSource, IcebergSchemaBindingRequest, PhysicalIndex,
};
use iceberg_connector::types::{InitialDefault, NestedField, PrimitiveType, Schema, Type};
use iceberg_connector::value::{Literal, PrimitiveLiteral};

fn nested(id: i32, name: &str, required: bool, field_type: Type) -> NestedField {
    NestedField { id, name: name.to_string(), required, field_type, initial_default: InitialDefault::Absent }
}

fn primitive(id: i32, name: &str, required: bool, primitive: PrimitiveType) -> NestedField {
    nested(id, name, required, Type::Primitive(primitive))
}

fn carrier(name: &str, data_type: DataType, nullable: bool, field_id: Option<i32>) -> Field {
    Field { name: name.to_string(), data_type, nullable, field_id, initial_default: None, json: false, metadata: Vec::new() }
}

fn table_schema() -> Schema {
    Schema {
        fields: vec![
            primitive(1, "id", true, PrimitiveType::Long),
            primitive(2, "region", false, PrimitiveType::String),
            primitive(3, "amount", false, PrimitiveType::Double),
        ],
    }
}

fn read_fields() -> Vec<Field> {
    vec![
        carrier("id", DataType::Int64, false, None),
        carrier("region", DataType::Utf8, true, None),
        carrier("amount", DataType::Float64, true, None),
    ]
}

fn handle(schema: &Schema, field_id: i32) -> IcebergColumnHandle {
    for field in &schema.fields {
        if field.id == field_id {
            return IcebergColumnHandle::base_column(field);
        }
    }
    panic!("no base column {field_id}")
}

fn facts<'a>() -> IcebergSplitFacts<'a> {
    IcebergSplitFacts {
        path: "file.parquet",
        partition_data_json: "{}",
        file_first_row_id: None,
        data_sequence_number: None,
    }
}

fn request<'r, 'a>(
    table_schema: &'r Schema,
    read_fields: &'r Vec<Field>,
    file_field_ids: &'r Vec<Option<i32>>,
    columns: &'r Vec<IcebergColumnHandle>,
) -> IcebergSchemaBindingRequest<'r, 'a> {
    IcebergSchemaBindingRequest {
        table_schema,
        read_fields,
        file_field_ids,
        identified_fields: file_field_ids.iter().filter(|id| id.is_some()).count(),
        total_fields: file_field_ids.len(),
        rest_is_opaque_variants: false,
        mapped_field_ids: None,
        partition_spec: None,
        partition_values: None,
        columns,
    }
}

fn region_spec() -> PartitionSpec {
    PartitionSpec {
        spec_id: 7,
        fields: vec![PartitionField {
            source_id: 2,
            name: "region".to_string(),
            identity: true,
            result_type: TransformResult::Primitive(PrimitiveType::String),
        }],
    }
}

fn emea() -> Vec<Option<Literal>> {
    vec![Some(Literal::Primitive(PrimitiveLiteral::String("emea".to_string())))]
}

fn is_emea(value: &Option<Literal>) -> bool {
    match value {
        Some(Literal::Primitive(PrimitiveLiteral::String(text))) => text == "emea",
        _ => false,
    }
}

fn error_of<T>(result: Result<T, ConnectorError>) -> ConnectorError {
    match result {
        Ok(_) => panic!("a failure was expected"),
        Err(error) => error,
    }
}

#[test]
fn a_matching_field_id_binds_to_the_physical_field() {
    let (schema, read) = (table_schema(), read_fields());
    let (ids, columns) = (vec![Some(1)], vec![handle(&schema, 1)]);
    let binding = bind_scan_columns(&request(&schema, &read, &ids, &columns)).expect("binds");
    assert!(matches!(
        binding.columns()[0].source(),
        IcebergColumnSource::Physical { base_field_id: 1, .. }
    ));
    assert_eq!(*binding.physical_base_field_ids(), vec![1]);
    assert_eq!(binding.coverage(), FileFieldIdCoverage::Complete);
    assert!(binding.reads_any_physical_field());
    assert!(!binding.requires_row_positions());
}

#[test]
fn an_identity_partition_column_becomes_a_frozen_constant() {
    let (schema, read, spec, values) = (table_schema(), read_fields(), region_spec(), emea());
    let (ids, columns) = (vec![Some(1)], vec![handle(&schema, 2)]);
    let mut asked = request(&schema, &read, &ids, &columns);
    asked.partition_spec = Some(&spec);
    asked.partition_values = Some(&values);
    let binding = bind_scan_columns(&asked).expect("binds");

    match binding.columns()[0].source() {
        IcebergColumnSource::IdentityPartitionConstant(value) => assert!(is_emea(value)),
        _ => panic!("expected an identity partition constant"),
    }

    let page = vec![carrier("id", DataType::Int64, false, Some(1))];
    let facts = IcebergSplitFacts {
        path: "s3://bucket/data/file.parquet",
        partition_data_json: "{\"1000\":\"emea\"}",
        file_first_row_id: None,
        data_sequence_number: None,
    };
    let steps = binding.materialize(&page, 2, None, &facts).expect("columns");
    assert_eq!(steps.len(), 1);
    match &steps[0] {
        ColumnStep::Constant { value, rows } => {
            assert!(is_emea(value));
            assert_eq!(*rows, 2);
        }
        _ => panic!("expected a constant column"),
    }
}

#[test]
fn a_legacy_file_without_field_ids_binds_through_the_name_mapping() {
    let (schema, read) = (table_schema(), read_fields());
    let (ids, mapped, columns) = (vec![None], vec![Some(1)], vec![handle(&schema, 1)]);
    let mut asked = request(&schema, &read, &ids, &columns);
    asked.mapped_field_ids = Some(&mapped);
    let binding = bind_scan_columns(&asked).expect("binds");
    assert!(matches!(
        binding.columns()[0].source(),
        IcebergColumnSource::Physical { base_field_id: 1, .. }
    ));
    assert_eq!(binding.coverage(), FileFieldIdCoverage::Absent);
}

#[test]
fn a_partly_identified_file_schema_is_corrupt_rather_than_name_mapped() {
    let error = error_of(file_field_id_coverage(1, 2, false));
    assert_eq!(error.kind(), ConnectorErrorKind::CorruptData);
    assert_eq!(error, ConnectorError::Corrupt(CorruptData::PartialFieldIds));
    assert_eq!(file_field_id_coverage(1, 2, true), Ok(FileFieldIdCoverage::Complete));
    assert_eq!(file_field_id_coverage(0, 0, false), Ok(FileFieldIdCoverage::Complete));
    assert_eq!(file_field_id_coverage(0, 2, false), Ok(FileFieldIdCoverage::Absent));
}

#[test]
fn a_nested_initial_default_reaches_struct_fields() {
    let mut count = primitive(11, "count", false, PrimitiveType::Long);
    count.initial_default = InitialDefault::Json("7".to_string());
    let schema = Schema { fields: vec![nested(10, "detail", false, Type::Struct(vec![count]))] };
    let read = vec![carrier(
        "detail",
        DataType::Struct(vec![carrier("count", DataType::Int64, true, None)]),
        true,
        None,
    )];
    let annotated = annotated_read_schema(&read, &schema).expect("annotated read schema");
    match &annotated[0].data_type {
        DataType::Struct(children) => {
            assert_eq!(children[0].initial_default, Some("7".to_string()));
            assert_eq!(children[0].field_id, Some(11));
        }
        _ => panic!("expected a struct carrier"),
    }
    assert_eq!(annotated[0].field_id, Some(10));
}

#[test]
fn a_missing_column_with_an_initial_default_materializes_it() {
    let mut grade = primitive(4, "grade", false, PrimitiveType::Long);
    grade.initial_default = InitialDefault::Json("42".to_string());
    let schema = Schema { fields: vec![primitive(1, "id", true, PrimitiveType::Long), grade] };
    let read = vec![
        carrier("id", DataType::Int64, false, None),
        carrier("grade", DataType::Int64, true, None),
    ];
    let (ids, columns) = (vec![Some(1)], vec![handle(&schema, 4)]);
    let binding = bind_scan_columns(&request(&schema, &read, &ids, &columns)).expect("binds");
    assert!(matches!(binding.columns()[0].source(), IcebergColumnSource::InitialDefault));
    assert_eq!(binding.columns()[0].target().initial_default, Some("42".to_string()));

    let page = vec![carrier("id", DataType::Int64, false, Some(1))];
    let steps = binding.materialize(&page, 1, None, &facts()).expect("columns");
    assert!(matches!(steps[0], ColumnStep::InitialDefault { rows: 1 }));
}

#[test]
fn a_missing_nullable_column_materializes_a_typed_null() {
    let (schema, read) = (table_schema(), read_fields());
    let (ids, columns) = (vec![Some(1)], vec![handle(&schema, 3)]);
    let binding = bind_scan_columns(&request(&schema, &read, &ids, &columns)).expect("binds");
    assert!(matches!(binding.columns()[0].source(), IcebergColumnSource::TypedNull));
    assert!(!binding.reads_any_physical_field());
}

#[test]
fn a_missing_required_column_without_a_default_fails_closed() {
    let (schema, read) = (table_schema(), read_fields());
    let (ids, columns) = (vec![Some(2)], vec![handle(&schema, 1)]);
    let error = error_of(bind_scan_columns(&request(&schema, &read, &ids, &columns)));
    assert_eq!(error.kind(), ConnectorErrorKind::CorruptData);
    assert_eq!(error, ConnectorError::Corrupt(CorruptData::RequiredFieldMissing));
}

#[test]
fn every_legal_promotion_is_accepted_and_nothing_else_is() {
    for (source, target, expected) in [
        (DataType::Int32, DataType::Int64, IcebergTypePromotion::IntToLong),
        (DataType::Float32, DataType::Float64, IcebergTypePromotion::FloatToDouble),
        (
            DataType::Decimal128(9, 2),
            DataType::Decimal128(18, 2),
            IcebergTypePromotion::DecimalPrecisionWidening,
        ),
        (
            DataType::Date32,
            DataType::Timestamp(TimeUnit::Microsecond, None),
            IcebergTypePromotion::DateToTimestamp,
        ),
        (
            DataType::Date32,
            DataType::Timestamp(TimeUnit::Nanosecond, None),
            IcebergTypePromotion::DateToTimestampNs,
        ),
        (DataType::Null, DataType::Utf8, IcebergTypePromotion::UnknownToAny),
    ] {
        assert_eq!(
            physical_adaptation(&source, &target),
            Ok(IcebergPhysicalAdaptation::Promotion(expected))
        );
    }

    for (source, target) in [
        (DataType::Int64, DataType::Int32),
        (DataType::Float64, DataType::Float32),
        (DataType::Decimal128(18, 2), DataType::Decimal128(9, 2)),
        (DataType::Decimal128(9, 2), DataType::Decimal128(18, 4)),
        (DataType::Utf8, DataType::Int64),
    ] {
        let error = error_of(physical_adaptation(&source, &target));
        assert_eq!(error.kind(), ConnectorErrorKind::CorruptData);
        assert_eq!(error, ConnectorError::Corrupt(CorruptData::PhysicalTypeMismatch));
    }
}

#[test]
fn an_illegal_same_field_id_mismatch_fails_when_the_column_is_read() {
    let (schema, read) = (table_schema(), read_fields());
    let (ids, columns) = (vec![Some(1)], vec![handle(&schema, 1)]);
    let binding = bind_scan_columns(&request(&schema, &read, &ids, &columns)).expect("binds by field id");
    let page = vec![carrier("id", DataType::Utf8, false, Some(1))];
    let error = error_of(binding.materialize(&page, 1, None, &facts()));
    assert_eq!(error.kind(), ConnectorErrorKind::CorruptData);
}

#[test]
fn an_int_column_promotes_to_long_when_it_is_materialized() {
    let (schema, read) = (table_schema(), read_fields());
    let (ids, columns) = (vec![Some(1)], vec![handle(&schema, 1)]);
    let binding = bind_scan_columns(&request(&schema, &read, &ids, &columns)).expect("binds");
    let page = vec![carrier("id", DataType::Int32, false, Some(1))];
    let steps = binding.materialize(&page, 2, None, &facts()).expect("columns");
    match &steps[0] {
        ColumnStep::Physical { index, adaptation, path } => {
            assert_eq!(*index, 0);
            assert_eq!(
                *adaptation,
                IcebergPhysicalAdaptation::Promotion(IcebergTypePromotion::IntToLong)
            );
            assert!(path.is_empty());
        }
        _ => panic!("expected a physical column"),
    }
    let physical: ArrayRef = Arc::new(Int32Array::from(vec![5_i32, 6]));
    let promoted =
        arrow::compute::cast(physical.as_ref(), &arrow::datatypes::DataType::Int64).expect("promoted");
    assert_eq!(promoted.as_primitive::<Int64Type>().values().to_vec(), vec![5_i64, 6]);
}

#[test]
fn a_nested_projection_dereferences_by_field_id_and_keeps_parent_nulls() {
    let schema = Schema {
        fields: vec![nested(
            20,
            "detail",
            false,
            Type::Struct(vec![primitive(21, "count", false, PrimitiveType::Long)]),
        )],
    };
    let read = vec![carrier(
        "detail",
        DataType::Struct(vec![carrier("count", DataType::Int64, true, None)]),
        true,
        None,
    )];
    let mut projected = handle(&schema, 20);
    projected.field_id_path = vec![21];
    projected.field_type = Type::Primitive(PrimitiveType::Long);
    let (ids, columns) = (vec![Some(20)], vec![projected]);
    let binding = bind_scan_columns(&request(&schema, &read, &ids, &columns)).expect("binds");
    match binding.columns()[0].source() {
        IcebergColumnSource::Physical { base_field_id, dereference } => {
            assert_eq!(*base_field_id, 20);
            assert_eq!(*dereference, vec![21]);
        }
        _ => panic!("expected a physical column"),
    }
    assert_eq!(binding.columns()[0].target().name, "count");

    let page = vec![carrier(
        "detail",
        DataType::Struct(vec![carrier("count", DataType::Int64, true, Some(21))]),
        true,
        Some(20),
    )];
    let steps = binding.materialize(&page, 2, None, &facts()).expect("columns");
    match &steps[0] {
        ColumnStep::Physical { index, adaptation, path } => {
            assert_eq!(*index, 0);
            assert_eq!(*adaptation, IcebergPhysicalAdaptation::Identity);
            assert_eq!(*path, vec![0]);
        }
        _ => panic!("expected a physical column"),
    }
    // The second parent is absent, so its child is null though the child's own value is there.
    assert_eq!(combined_validity(Some(vec![true, false]), None), Some(vec![true, false]));
    assert_eq!(
        combined_validity(Some(vec![true, false, true]), Some(vec![false, true, true])),
        Some(vec![false, false, true])
    );
    assert_eq!(combined_validity(None, None), None);
    assert_eq!(path_validity(&vec![Some(vec![true, false]), None]), Some(vec![true, false]));
}

#[test]
fn a_value_is_there_where_every_level_of_its_path_is() {
    assert_eq!(path_validity(&Vec::new()), None);
    assert_eq!(path_validity(&vec![None, None, None]), None);
    assert_eq!(
        path_validity(&vec![
            Some(vec![true, false, true, true]),
            None,
            Some(vec![true, true, false, true]),
            Some(vec![true, true, true, false]),
        ]),
        Some(vec![true, false, false, false])
    );
}

#[test]
fn every_planned_column_is_as_long_as_its_page() {
    let schema = table_schema();
    let read = read_fields();
    let row_position = IcebergColumnHandle {
        base_field_id: IcebergMetadataColumn::RowPosition.field_id(),
        base_name: IcebergMetadataColumn::RowPosition.column_name().to_string(),
        base_type: Type::Primitive(PrimitiveType::Long),
        field_id_path: Vec::new(),
        field_type: Type::Primitive(PrimitiveType::Long),
        nullable: false,
    };
    let (ids, columns) = (vec![Some(1)], vec![row_position, handle(&schema, 2), handle(&schema, 1)]);
    let binding = bind_scan_columns(&request(&schema, &read, &ids, &columns)).expect("binds");
    let page = vec![carrier("id", DataType::Int64, false, Some(1))];
    let steps = binding
        .materialize(&page, 3, Some(&vec![Some(7), Some(8), Some(9)]), &facts())
        .expect("columns");
    assert_eq!(steps.len(), 3);
    match &steps[0] {
        ColumnStep::Metadata(Column::Flat { cells, .. }) => assert_eq!(cells.len(), 3),
        _ => panic!("expected a metadata column"),
    }
    assert!(matches!(steps[1], ColumnStep::TypedNull { rows: 3 }));
    assert!(matches!(steps[2], ColumnStep::Physical { index: 0, .. }));
}

#[test]
fn row_id_overflow_fails_closed_instead_of_wrapping() {
    let facts = IcebergSplitFacts {
        path: "file.parquet",
        partition_data_json: "{}",
        file_first_row_id: Some(i64::MAX),
        data_sequence_number: Some(3),
    };
    let error = error_of(metadata_column(IcebergMetadataColumn::RowId, 1, Some(&vec![Some(1)]), &facts));
    assert_eq!(error.kind(), ConnectorErrorKind::CorruptData);
    assert_eq!(error, ConnectorError::Corrupt(CorruptData::RowIdOverflow));
}

#[test]
fn row_lineage_without_a_frozen_fact_fails_closed() {
    assert!(metadata_column(IcebergMetadataColumn::LastUpdatedSequenceNumber, 1, None, &facts()).is_err());
}

#[test]
fn only_the_five_external_metadata_columns_are_visible() {
    for column in [
        IcebergMetadataColumn::Partition,
        IcebergMetadataColumn::Path,
        IcebergMetadataColumn::FileModifiedTime,
        IcebergMetadataColumn::RowId,
        IcebergMetadataColumn::LastUpdatedSequenceNumber,
    ] {
        assert!(column.is_externally_visible(), "{column:?}");
        assert_eq!(IcebergMetadataColumn::from_field_id(column.field_id()), Some(column));
    }
    for column in [IcebergMetadataColumn::RowPosition, IcebergMetadataColumn::IsDeleted] {
        assert!(!column.is_externally_visible(), "{column:?}");
    }
}

fn metadata_handle(metadata: IcebergMetadataColumn, primitive: PrimitiveType) -> IcebergColumnHandle {
    IcebergColumnHandle {
        base_field_id: metadata.field_id(),
        base_name: metadata.column_name().to_string(),
        base_type: Type::Primitive(primitive),
        field_id_path: Vec::new(),
        field_type: Type::Primitive(primitive),
        nullable: false,
    }
}

#[test]
fn a_metadata_column_named_against_its_reserved_id_is_rejected() {
    let mut handle = metadata_handle(IcebergMetadataColumn::Path, PrimitiveType::String);
    assert_eq!(handle.base_field_id, ICEBERG_METADATA_FIELD_ID_PATH);
    handle.base_name = "not_the_path_column".to_string();
    let error = error_of(bind_metadata_column(&handle, IcebergMetadataColumn::Path));
    assert_eq!(error.kind(), ConnectorErrorKind::CorruptData);
    assert_eq!(error, ConnectorError::Corrupt(CorruptData::MetadataColumnName));
}

#[test]
fn metadata_columns_bind_with_their_own_type_alone() {
    let path = metadata_handle(IcebergMetadataColumn::Path, PrimitiveType::String);
    let bound = bind_metadata_column(&path, IcebergMetadataColumn::Path).expect("binds");
    assert_eq!(bound.target().name, "$path");
    assert!(matches!(bound.target().data_type, DataType::Utf8));
    assert_eq!(bound.target().field_id, Some(ICEBERG_METADATA_FIELD_ID_PATH));

    let wrong = metadata_handle(IcebergMetadataColumn::RowId, PrimitiveType::String);
    assert_eq!(
        error_of(bind_metadata_column(&wrong, IcebergMetadataColumn::RowId)),
        ConnectorError::Invalid(InvalidRequest::MetadataColumnType)
    );
    let mut nested = metadata_handle(IcebergMetadataColumn::RowId, PrimitiveType::Long);
    nested.field_id_path = vec![1];
    assert_eq!(
        error_of(bind_metadata_column(&nested, IcebergMetadataColumn::RowId)),
        ConnectorError::Invalid(InvalidRequest::MetadataColumnDereference)
    );
    let modified = metadata_handle(IcebergMetadataColumn::FileModifiedTime, PrimitiveType::Timestamptz);
    assert_eq!(
        error_of(bind_metadata_column(&modified, IcebergMetadataColumn::FileModifiedTime)),
        ConnectorError::Unsupported(UnsupportedFeature::FileModifiedTime)
    );
    let deleted = metadata_handle(IcebergMetadataColumn::IsDeleted, PrimitiveType::Boolean);
    assert_eq!(
        error_of(bind_metadata_column(&deleted, IcebergMetadataColumn::IsDeleted)),
        ConnectorError::Unsupported(UnsupportedFeature::IsDeletedColumn)
    );
    assert_eq!(expect_primitive(&Type::Primitive(PrimitiveType::Long), PrimitiveType::Long), Ok(()));
    assert_eq!(
        expect_primitive(&Type::Struct(Vec::new()), PrimitiveType::Long),
        Err(ConnectorError::Invalid(InvalidRequest::MetadataColumnType))
    );
}

#[test]
fn metadata_columns_are_built_from_positions_and_frozen_facts() {
    let facts = IcebergSplitFacts {
        path: "file.parquet",
        partition_data_json: "{\"1000\":\"emea\"}",
        file_first_row_id: Some(500),
        data_sequence_number: Some(9),
    };
    let positions = vec![Some(7), Some(8)];
    let longs = |column: Column| match column {
        Column::Flat { data_type: DataType::Int64, cells } => cells
            .iter()
            .map(|cell| match cell {
                Cell::Int64(value) => *value,
                _ => panic!("expected a long"),
            })
            .collect::<Vec<i64>>(),
        _ => panic!("expected a long column"),
    };
    let ids = metadata_column(IcebergMetadataColumn::RowId, 2, Some(&positions), &facts).expect("row ids");
    assert_eq!(longs(ids), vec![507, 508]);
    let own = metadata_column(IcebergMetadataColumn::RowPosition, 2, Some(&positions), &facts).expect("positions");
    assert_eq!(longs(own), vec![7, 8]);
    let updated = metadata_column(IcebergMetadataColumn::LastUpdatedSequenceNumber, 2, None, &facts)
        .expect("sequence numbers");
    assert_eq!(longs(updated), vec![9, 9]);
    match metadata_column(IcebergMetadataColumn::Partition, 1, None, &facts).expect("partition") {
        Column::Flat { data_type: DataType::Utf8, cells } => match &cells[0] {
            Cell::Text(text) => assert_eq!(text, "{\"1000\":\"emea\"}"),
            _ => panic!("expected a text"),
        },
        _ => panic!("expected a text column"),
    }
    assert_eq!(
        error_of(metadata_column(IcebergMetadataColumn::RowPosition, 2, None, &facts)),
        ConnectorError::Corrupt(CorruptData::RowPositionsMissing)
    );
    assert_eq!(
        error_of(metadata_column(IcebergMetadataColumn::RowPosition, 1, Some(&vec![None]), &facts)),
        ConnectorError::Corrupt(CorruptData::RowPositionNull)
    );
    assert_eq!(
        error_of(metadata_column(IcebergMetadataColumn::RowPosition, 1, Some(&vec![Some(u64::MAX)]), &facts)),
        ConnectorError::Corrupt(CorruptData::RowPositionBeyondInt64)
    );
    let unknown = IcebergSplitFacts { file_first_row_id: None, ..facts };
    assert_eq!(
        error_of(metadata_column(IcebergMetadataColumn::RowId, 2, Some(&positions), &unknown)),
        ConnectorError::Corrupt(CorruptData::FirstRowIdMissing)
    );
}

#[test]
fn a_physical_field_wins_over_a_partition_value() {
    let (schema, read, spec, values) = (table_schema(), read_fields(), region_spec(), emea());
    let (ids, columns) = (vec![Some(1), Some(2)], vec![handle(&schema, 2), handle(&schema, 1)]);
    let mut asked = request(&schema, &read, &ids, &columns);
    asked.partition_spec = Some(&spec);
    asked.partition_values = Some(&values);
    let binding = bind_scan_columns(&asked).expect("binds");
    assert!(matches!(
        binding.columns()[0].source(),
        IcebergColumnSource::Physical { base_field_id: 2, .. }
    ));
    assert_eq!(*binding.physical_base_field_ids(), vec![1, 2]);
}

#[test]
fn a_partition_value_wins_over_a_name_mapping() {
    let (schema, read, spec, values) = (table_schema(), read_fields(), region_spec(), emea());
    let (ids, mapped, columns) = (vec![None], vec![Some(2)], vec![handle(&schema, 2)]);
    let mut asked = request(&schema, &read, &ids, &columns);
    asked.mapped_field_ids = Some(&mapped);
    asked.partition_spec = Some(&spec);
    asked.partition_values = Some(&values);
    let binding = bind_scan_columns(&asked).expect("binds");
    assert!(matches!(
        binding.columns()[0].source(),
        IcebergColumnSource::IdentityPartitionConstant(_)
    ));
}

#[test]
fn binding_reports_what_does_not_fit() {
    let (schema, read, spec) = (table_schema(), read_fields(), region_spec());
    let none: Vec<Option<Literal>> = Vec::new();
    let (ids, columns) = (vec![Some(1)], vec![handle(&schema, 1)]);
    let mut asked = request(&schema, &read, &ids, &columns);
    asked.partition_spec = Some(&spec);
    asked.partition_values = Some(&none);
    assert_eq!(error_of(bind_scan_columns(&asked)), ConnectorError::Corrupt(CorruptData::PartitionArity));

    let twice = vec![Some(1), Some(1)];
    assert_eq!(
        error_of(bind_scan_columns(&request(&schema, &read, &twice, &columns))),
        ConnectorError::Corrupt(CorruptData::DuplicateFieldId)
    );
    assert_eq!(error_of(PhysicalIndex::build(&twice)), ConnectorError::Corrupt(CorruptData::DuplicateFieldId));

    let short = vec![carrier("id", DataType::Int64, false, None)];
    assert_eq!(
        error_of(bind_scan_columns(&request(&schema, &short, &ids, &columns))),
        ConnectorError::Invalid(InvalidRequest::ReadCarrierDoesNotMatch)
    );

    let mut unknown = handle(&schema, 1);
    unknown.base_field_id = 99;
    let columns = vec![unknown];
    assert_eq!(
        error_of(bind_scan_columns(&request(&schema, &read, &ids, &columns))),
        ConnectorError::Corrupt(CorruptData::ColumnNotInSchema)
    );

    let mut into_a_long = handle(&schema, 1);
    into_a_long.field_id_path = vec![5];
    let columns = vec![into_a_long];
    assert_eq!(
        error_of(bind_scan_columns(&request(&schema, &read, &ids, &columns))),
        ConnectorError::Unsupported(UnsupportedFeature::NestedProjection)
    );
    let detail = carrier(
        "detail",
        DataType::Struct(vec![carrier("count", DataType::Int64, true, Some(21))]),
        true,
        Some(20),
    );
    assert_eq!(
        error_of(dereference_target_field(&detail, &vec![22])),
        ConnectorError::Corrupt(CorruptData::DereferenceFieldMissing)
    );
    let (found, places) = dereference_target_field(&detail, &vec![21]).expect("found");
    assert_eq!(found.name, "count");
    assert_eq!(places, vec![0]);
}

#[test]
fn a_page_has_to_keep_what_binding_was_promised() {
    let (schema, read) = (table_schema(), read_fields());
    let (ids, columns) = (vec![Some(1)], vec![handle(&schema, 1)]);
    let binding = bind_scan_columns(&request(&schema, &read, &ids, &columns)).expect("binds");
    let page = vec![carrier("region", DataType::Utf8, true, Some(2))];
    assert_eq!(
        error_of(binding.materialize(&page, 1, None, &facts())),
        ConnectorError::Corrupt(CorruptData::FieldVanished)
    );
    let reordered = vec![
        carrier("region", DataType::Utf8, true, Some(2)),
        carrier("id", DataType::Int64, false, Some(1)),
    ];
    let steps = binding.materialize(&reordered, 1, None, &facts()).expect("columns");
    match &steps[0] {
        ColumnStep::Physical { index, .. } => assert_eq!(*index, 1),
        _ => panic!("expected a physical column"),
    }
    assert_eq!(
        error_of(binding.materialize(&reordered, 2, Some(&vec![Some(0)]), &facts())),
        ConnectorError::Corrupt(CorruptData::PositionCount)
    );
}

#[test]
fn only_identity_fields_of_the_current_schema_give_values() {
    let mut spec = region_spec();
    spec.fields.push(PartitionField {
        source_id: 99,
        name: "gone".to_string(),
        identity: true,
        result_type: TransformResult::Primitive(PrimitiveType::Int),
    });
    spec.fields.push(PartitionField {
        source_id: 1,
        name: "id_bucket".to_string(),
        identity: false,
        result_type: TransformResult::Primitive(PrimitiveType::Int),
    });
    let values = vec![
        Some(Literal::Primitive(PrimitiveLiteral::String("emea".to_string()))),
        Some(Literal::Primitive(PrimitiveLiteral::Int(1))),
        Some(Literal::Primitive(PrimitiveLiteral::Int(3))),
    ];
    let schema = table_schema();
    let found = identity_partition_values(Some(&spec), Some(&values), &schema).expect("values");
    assert_eq!(found.len(), 1);
    assert_eq!(found[0].0, 2);
    assert!(is_emea(found[0].1));
    assert!(identity_partition_values(None, Some(&values), &schema).expect("values").is_empty());
}

#[test]
fn a_binding_counts_what_it_retains() {
    let (schema, read) = (table_schema(), read_fields());
    let (ids, columns) = (vec![Some(1)], vec![handle(&schema, 1)]);
    let binding = bind_scan_columns(&request(&schema, &read, &ids, &columns)).expect("binds");
    // One id of four bytes, one column, and the text "long" in quotes twice.
    assert_eq!(binding.retained_size_in_bytes(100, 1000, &vec![12]), 100 + 4 + 1000 + 6 + 6);
    // A text that was written with a blank is longer.
    assert_eq!(binding.retained_size_in_bytes(100, 1000, &vec![14]), 100 + 4 + 1000 + 14);
}

#[test]
fn carriers_of_one_logical_type_are_cast() {
    assert!(representation_equivalent(&DataType::Utf8, &DataType::LargeUtf8));
    assert!(!representation_equivalent(&DataType::Utf8, &DataType::Int64));
    assert_eq!(
        physical_adaptation(&DataType::Utf8, &DataType::LargeUtf8),
        Ok(IcebergPhysicalAdaptation::RepresentationCast)
    );
    assert_eq!(
        physical_adaptation(&DataType::Int64, &DataType::Int64),
        Ok(IcebergPhysicalAdaptation::Identity)
    );
    let tagged = DataType::List(Box::new(carrier("element", DataType::Int64, true, Some(4))));
    let plain = DataType::List(Box::new(carrier("element", DataType::Int64, true, None)));
    assert!(differ_only_by_nested_field_metadata(&plain, &tagged));
    assert_eq!(
        physical_adaptation(&plain, &tagged),
        Ok(IcebergPhysicalAdaptation::RetagNestedMetadata)
    );
    // Any other entry of a nested field's metadata counts too.
    let noted = |text: &str| {
        let mut field = carrier("element", DataType::Int64, true, None);
        field.metadata = vec![("note".to_string(), text.to_string())];
        DataType::List(Box::new(field))
    };
    assert_eq!(physical_adaptation(&noted("a"), &noted("a")), Ok(IcebergPhysicalAdaptation::Identity));
    assert_eq!(physical_adaptation(&noted("a"), &noted("b")), Ok(IcebergPhysicalAdaptation::RetagNestedMetadata));
    assert_eq!(physical_adaptation(&plain, &noted("a")), Ok(IcebergPhysicalAdaptation::RetagNestedMetadata));
    // What differs in a name or in nullability differs by more than metadata.
    let one = |name: &str, nullable: bool| DataType::Struct(vec![carrier(name, DataType::Int32, nullable, None)]);
    assert!(differ_only_by_nested_field_metadata(
        &one("a", true),
        &DataType::Struct(vec![carrier("a", DataType::Int32, true, Some(4))])
    ));
    assert!(!differ_only_by_nested_field_metadata(&one("a", true), &one("b", true)));
    assert!(!differ_only_by_nested_field_metadata(&one("a", true), &one("a", false)));
    assert_eq!(
        physical_adaptation(&one("a", true), &one("b", true)),
        Err(ConnectorError::Corrupt(CorruptData::PhysicalTypeMismatch))
    );
    let item = |name: &str| DataType::List(Box::new(carrier(name, DataType::Int64, true, None)));
    assert!(!differ_only_by_nested_field_metadata(&item("element"), &item("item")));
    let variant = DataType::Struct(vec![
        carrier("metadata", DataType::Binary, false, None),
        carrier("value", DataType::Binary, true, None),
    ]);
    assert_eq!(
        physical_adaptation(&variant, &DataType::LargeBinary),
        Ok(IcebergPhysicalAdaptation::CollapseVariant)
    );
    assert_eq!(iceberg_promotion(&DataType::Int64, &DataType::Int32), None);
}
