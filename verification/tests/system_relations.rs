//! The system relations of a table.

use iceberg_connector::carrier::{DataType, Field, TimeUnit};
use iceberg_connector::column::{Cell, Column};
use iceberg_connector::column_handle::IcebergColumnHandle;
use iceberg_connector::error::{ConnectorError, ConnectorErrorKind, CorruptData, InternalFault, InvalidRequest, UnsupportedFeature};
use iceberg_connector::files_relation::readable_metrics_json;
use iceberg_connector::page_source_provider::IcebergRelationCategory;
use iceberg_connector::partition::{PartitionField, PartitionSpec, TransformResult};
use iceberg_connector::partitions_view::{aggregate_partitions, saturating_sum, try_aggregate_partitions};
use iceberg_connector::snapshot_relations::{
    current_ancestors, FieldSummary, HistoryEntry, ListedManifest, RefFacts, SnapshotFacts, SnapshotRetention,
    SummaryBound,
};
use iceberg_connector::split::IcebergFileFormat;
use iceberg_connector::system_columns::primitive_array;
use iceberg_connector::system_page_source::{
    create_system_page_source, iceberg_system_table_reference, pinned_snapshot, read_snapshot_file_rows,
    read_snapshot_manifests, IcebergSystemPageSource, IcebergSystemTableReference, ManifestListEntry,
    PageSourceMetrics,
};
use iceberg_connector::system_provider::{
    IcebergSystemTableProvider, SystemRelation, TableFacts,
};
use iceberg_connector::system_rows::{
    manifest_rows, DataContentType, DataFile, EntryStatusRule, ManifestEntry, ManifestStatus, TrinoManifestContent,
    TrinoManifestFile, TrinoManifestFileParams,
};
use iceberg_connector::system_schema::{
    bounds_row_type, derived_row_type_json, files_relation_schema_json, list_type, map_type, partition_row_type,
    partition_summary_type, partitions_view_schema, project_system_relation_columns, system_relation_columns,
    system_relation_schema, IcebergSystemTableType,
};
use iceberg_connector::types::{type_to_json, InitialDefault, NestedField, PrimitiveType, Schema, Type};
use iceberg_connector::value::{Datum, Literal, PrimitiveLiteral};

const SNAPSHOT_ID: i64 = 100;
const TABLE_UUID: &str = "0c5e1f4e-5b9d-4d27-8f4e-1c6f1f6f2a10";
const FENCE_REF: &str = "mv_publication_fence";

fn field(id: i32, name: &str, required: bool, primitive: PrimitiveType) -> NestedField {
    NestedField {
        id,
        name: name.to_string(),
        required,
        field_type: Type::Primitive(primitive),
        initial_default: InitialDefault::Absent,
    }
}

fn test_schema() -> Schema {
    Schema {
        fields: vec![
            field(1, "id", true, PrimitiveType::Long),
            field(2, "region", false, PrimitiveType::String),
        ],
    }
}

fn named_identity_spec(spec_id: i32, column: &str, partition_name: &str) -> PartitionSpec {
    let schema = test_schema();
    for source in &schema.fields {
        if source.name == column {
            let primitive = match source.field_type {
                Type::Primitive(primitive) => primitive,
                _ => panic!("expected a primitive"),
            };
            return PartitionSpec {
                spec_id,
                fields: vec![PartitionField {
                    source_id: source.id,
                    name: partition_name.to_string(),
                    identity: true,
                    result_type: TransformResult::Primitive(primitive),
                }],
            };
        }
    }
    panic!("no column {column}")
}

fn identity_spec(spec_id: i32, column: &str) -> PartitionSpec {
    named_identity_spec(spec_id, column, column)
}

fn unpartitioned() -> PartitionSpec {
    PartitionSpec { spec_id: 0, fields: Vec::new() }
}

fn names(fields: &[Field]) -> Vec<&str> {
    fields.iter().map(|field| field.name.as_str()).collect()
}

fn named<'a>(fields: &'a [Field], name: &str) -> &'a Field {
    fields.iter().find(|field| field.name == name).expect("field")
}

fn assert_type(fields: &[Field], name: &str, expected: DataType) {
    assert!(named(fields, name).data_type.same(&expected), "{name}");
}

fn struct_fields(data_type: &DataType) -> &Vec<Field> {
    match data_type {
        DataType::Struct(fields) => fields,
        _ => panic!("expected a row"),
    }
}

fn utc_micros() -> DataType {
    DataType::Timestamp(TimeUnit::Microsecond, Some("UTC".to_string()))
}

fn error_of<T>(result: Result<T, ConnectorError>) -> ConnectorError {
    match result {
        Ok(_) => panic!("a failure was expected"),
        Err(error) => error,
    }
}

#[test]
fn files_freezes_its_twenty_seven_columns_in_order() {
    let relation =
        system_relation_schema(IcebergSystemTableType::Files, &test_schema(), &[identity_spec(7, "region")])
            .expect("schema");
    assert_eq!(
        names(&relation),
        vec![
            "content",
            "file_path",
            "file_format",
            "spec_id",
            "partition",
            "record_count",
            "file_size_in_bytes",
            "column_sizes",
            "value_counts",
            "null_value_counts",
            "nan_value_counts",
            "lower_bounds",
            "upper_bounds",
            "key_metadata",
            "split_offsets",
            "equality_ids",
            "sort_order_id",
            "readable_metrics",
            "added_snapshot_id",
            "file_sequence_number",
            "data_sequence_number",
            "referenced_data_file",
            "pos",
            "manifest_location",
            "first_row_id",
            "content_offset",
            "content_size_in_bytes",
        ]
    );
    assert_eq!(relation.len(), 27);
    assert_type(&relation, "content", DataType::Int32);
    assert_type(&relation, "file_path", DataType::Utf8);
    assert_type(&relation, "record_count", DataType::Int64);
    assert_type(&relation, "column_sizes", map_type(DataType::Int32, DataType::Int64));
    assert_type(&relation, "key_metadata", DataType::Binary);
    assert_type(&relation, "split_offsets", list_type(DataType::Int64));
    assert_type(&relation, "equality_ids", list_type(DataType::Int32));
    assert_type(&relation, "sort_order_id", DataType::Int32);
    assert_type(&relation, "readable_metrics", DataType::Utf8);
    assert!(named(&relation, "readable_metrics").json);
    for name in [
        "added_snapshot_id",
        "file_sequence_number",
        "data_sequence_number",
        "pos",
        "first_row_id",
        "content_offset",
        "content_size_in_bytes",
    ] {
        assert_type(&relation, name, DataType::Int64);
    }
    for name in ["referenced_data_file", "manifest_location"] {
        assert_type(&relation, name, DataType::Utf8);
    }
}

#[test]
fn files_bounds_are_typed_rows_keyed_by_field_id_not_binary() {
    let relation =
        system_relation_schema(IcebergSystemTableType::Files, &test_schema(), &[identity_spec(7, "region")])
            .expect("schema");
    for name in ["lower_bounds", "upper_bounds"] {
        let fields = struct_fields(&named(&relation, name).data_type);
        assert_eq!(names(fields), vec!["1", "2"], "{name}");
        assert_type(fields, "1", DataType::Int64);
        assert_type(fields, "2", DataType::Utf8);
    }
}

#[test]
fn entries_nests_its_data_file_row_and_flattens_nothing() {
    let relation =
        system_relation_schema(IcebergSystemTableType::Entries, &test_schema(), &[identity_spec(7, "region")])
            .expect("schema");
    assert_eq!(
        names(&relation),
        vec![
            "status",
            "snapshot_id",
            "sequence_number",
            "file_sequence_number",
            "data_file",
            "readable_metrics",
        ]
    );
    assert_type(&relation, "status", DataType::Int32);
    let fields = struct_fields(&named(&relation, "data_file").data_type);
    assert_eq!(
        names(fields),
        vec![
            "content",
            "file_path",
            "file_format",
            "spec_id",
            "partition",
            "record_count",
            "file_size_in_bytes",
            "column_sizes",
            "value_counts",
            "null_value_counts",
            "nan_value_counts",
            "lower_bounds",
            "upper_bounds",
            "key_metadata",
            "split_offsets",
            "equality_ids",
            "sort_order_id",
        ]
    );
    for name in ["lower_bounds", "upper_bounds"] {
        assert_type(fields, name, map_type(DataType::Int32, DataType::Utf8));
    }
}

#[test]
fn snapshots_history_refs_and_manifests_freeze_their_exact_shapes() {
    let (schema, specs) = (test_schema(), [identity_spec(7, "region")]);

    let snapshots = system_relation_schema(IcebergSystemTableType::Snapshots, &schema, &specs).expect("schema");
    assert_eq!(
        names(&snapshots),
        vec!["committed_at", "snapshot_id", "parent_id", "operation", "manifest_list", "summary"]
    );
    assert_type(&snapshots, "committed_at", utc_micros());
    assert_type(&snapshots, "summary", map_type(DataType::Utf8, DataType::Utf8));

    let history = system_relation_schema(IcebergSystemTableType::History, &schema, &specs).expect("schema");
    assert_eq!(
        names(&history),
        vec!["made_current_at", "snapshot_id", "parent_id", "is_current_ancestor"]
    );
    assert_type(&history, "made_current_at", utc_micros());
    assert_type(&history, "is_current_ancestor", DataType::Boolean);

    let refs = system_relation_schema(IcebergSystemTableType::Refs, &schema, &specs).expect("schema");
    let expected = [
        ("name", DataType::Utf8),
        ("type", DataType::Utf8),
        ("snapshot_id", DataType::Int64),
        ("max_reference_age_in_ms", DataType::Int64),
        ("min_snapshots_to_keep", DataType::Int32),
        ("max_snapshot_age_in_ms", DataType::Int64),
    ];
    assert_eq!(refs.len(), expected.len());
    for (field, (name, data_type)) in refs.iter().zip(expected) {
        assert_eq!(field.name, name);
        assert!(field.data_type.same(&data_type), "{name}");
    }

    let manifests = system_relation_schema(IcebergSystemTableType::Manifests, &schema, &specs).expect("schema");
    let expected = [
        ("content", DataType::Int32),
        ("path", DataType::Utf8),
        ("length", DataType::Int64),
        ("partition_spec_id", DataType::Int32),
        ("added_snapshot_id", DataType::Int64),
        ("added_data_files_count", DataType::Int32),
        ("added_rows_count", DataType::Int64),
        ("existing_data_files_count", DataType::Int32),
        ("existing_rows_count", DataType::Int64),
        ("deleted_data_files_count", DataType::Int32),
        ("deleted_rows_count", DataType::Int64),
        ("partition_summaries", partition_summary_type()),
    ];
    assert_eq!(manifests.len(), expected.len());
    for (field, (name, data_type)) in manifests.iter().zip(expected) {
        assert_eq!(field.name, name);
        assert!(field.data_type.same(&data_type), "{name}");
    }
}

#[test]
fn partitions_drops_the_old_delete_count_columns() {
    let relation = partitions_view_schema(&test_schema(), &[identity_spec(7, "region")]).expect("schema");
    assert_eq!(
        names(&relation),
        vec!["partition", "record_count", "file_count", "total_size", "data"]
    );
    assert!(!names(&relation).contains(&"position_delete_file_count"));
    assert!(!names(&relation).contains(&"equality_delete_file_count"));
    let metrics = struct_fields(&named(&relation, "data").data_type);
    assert_eq!(names(metrics), vec!["id", "region"]);
    let id_metrics = struct_fields(&metrics[0].data_type);
    assert_eq!(names(id_metrics), vec!["min", "max", "null_count", "nan_count"]);
    for name in ["min", "max", "null_count", "nan_count"] {
        assert_type(id_metrics, name, DataType::Int64);
    }
}

#[test]
fn the_partition_row_is_the_union_of_every_spec_and_a_conflict_is_an_error() {
    let schema = test_schema();
    let row = partition_row_type(&schema, &[identity_spec(2, "id"), identity_spec(1, "region")])
        .expect("partition row")
        .expect("partitioned");
    let fields = struct_fields(&row);
    assert_eq!(names(fields), vec!["region", "id"]);
    assert_type(fields, "region", DataType::Utf8);
    assert_type(fields, "id", DataType::Int64);

    let text_part = || named_identity_spec(3, "region", "part");
    let long_part = named_identity_spec(4, "id", "part");
    assert!(partition_row_type(&schema, &[text_part(), text_part()]).expect("repeated but agreeing").is_some());
    let error = error_of(partition_row_type(&schema, &[text_part(), long_part]));
    assert_eq!(error.kind(), ConnectorErrorKind::CorruptData);
    assert_eq!(error, ConnectorError::Corrupt(CorruptData::PartitionTypesConflict));

    assert!(partition_row_type(&schema, &[unpartitioned()]).expect("unpartitioned").is_none());
    let relation =
        system_relation_schema(IcebergSystemTableType::Files, &schema, &[unpartitioned()]).expect("schema");
    assert_eq!(relation.len(), 26);
    assert!(!names(&relation).contains(&"partition"));
}

fn provider() -> IcebergSystemTableProvider {
    IcebergSystemTableProvider::new(1024)
}

// -- a table in memory ------------------------------------------------------

fn long_datum(value: i64) -> Datum {
    Datum { literal: PrimitiveLiteral::Long(value), text: value.to_string() }
}

fn data_file(path: &str, region: &str, records: u64, size: u64) -> DataFile {
    DataFile {
        content: DataContentType::Data,
        file_path: path.to_string(),
        file_format: IcebergFileFormat::Parquet,
        partition: vec![Some(Literal::Primitive(PrimitiveLiteral::String(region.to_string())))],
        record_count: records,
        file_size_in_bytes: size,
        column_sizes: vec![(1, 64)],
        value_counts: Vec::new(),
        null_value_counts: vec![(1, 0)],
        nan_value_counts: Vec::new(),
        lower_bounds: vec![(1, long_datum(1))],
        upper_bounds: vec![(1, long_datum(9))],
        key_metadata: None,
        split_offsets: None,
        equality_ids: None,
        sort_order_id: None,
        referenced_data_file: None,
        first_row_id: None,
        content_offset: None,
        content_size_in_bytes: None,
    }
}

fn entry(status: ManifestStatus, file_sequence_number: Option<i64>, data_file: DataFile) -> ManifestEntry {
    ManifestEntry { status, snapshot_id: None, sequence_number: Some(1), file_sequence_number, data_file }
}

fn manifest_file(path: &str) -> TrinoManifestFile {
    TrinoManifestFile {
        path: path.to_string(),
        length: 128,
        partition_spec_id: 0,
        content: TrinoManifestContent::Data,
        sequence_number: 1,
        min_sequence_number: 1,
        added_snapshot_id: SNAPSHOT_ID,
        added_files_count: Some(2),
        existing_files_count: Some(0),
        deleted_files_count: Some(0),
        added_rows_count: Some(30),
        existing_rows_count: Some(0),
        deleted_rows_count: Some(0),
        first_row_id: None,
    }
}

fn listed(path: &str, lower: &str, upper: &str) -> ManifestListEntry {
    ManifestListEntry {
        params: TrinoManifestFileParams { manifest: manifest_file(path), key_metadata: Vec::new() },
        summaries: Some(vec![FieldSummary {
            contains_null: false,
            contains_nan: Some(false),
            lower_bound: Some(SummaryBound::Text(lower.to_string())),
            upper_bound: Some(SummaryBound::Text(upper.to_string())),
        }]),
    }
}

/// One snapshot with two manifests: the first holds two live data files, and the second holds one
/// file that has already been deleted.
struct Warehouse {
    schema: Schema,
    specs: Vec<PartitionSpec>,
    snapshots: Vec<SnapshotFacts>,
    history: Vec<HistoryEntry>,
    refs: Vec<RefFacts>,
    fence: String,
    manifests: Vec<ListedManifest>,
    loaded: Vec<Vec<ManifestEntry>>,
}

fn warehouse() -> Warehouse {
    Warehouse {
        schema: test_schema(),
        specs: vec![identity_spec(0, "region")],
        snapshots: vec![SnapshotFacts {
            snapshot_id: SNAPSHOT_ID,
            parent_snapshot_id: None,
            timestamp_ms: 1_700_000_000_000,
            operation: "append".to_string(),
            manifest_list: "metadata/snap-100.avro".to_string(),
            summary: vec![("added-data-files".to_string(), "2".to_string())],
            fence_marker: false,
        }],
        history: vec![HistoryEntry { timestamp_ms: 1_700_000_000_000, snapshot_id: SNAPSHOT_ID }],
        refs: vec![
            RefFacts {
                name: "main".to_string(),
                snapshot_id: SNAPSHOT_ID,
                retention: SnapshotRetention::Branch {
                    min_snapshots_to_keep: Some(2),
                    max_snapshot_age_ms: None,
                    max_ref_age_ms: None,
                },
                write_fence: false,
            },
            RefFacts {
                name: FENCE_REF.to_string(),
                snapshot_id: SNAPSHOT_ID,
                retention: SnapshotRetention::Tag { max_ref_age_ms: None },
                write_fence: false,
            },
        ],
        fence: FENCE_REF.to_string(),
        manifests: read_snapshot_manifests(vec![
            listed("metadata/live.avro", "east", "west"),
            listed("metadata/removed.avro", "east", "east"),
        ])
        .expect("manifests"),
        loaded: vec![
            vec![
                entry(ManifestStatus::Added, None, data_file("data/a.parquet", "east", 10, 1_024)),
                entry(ManifestStatus::Added, None, data_file("data/b.parquet", "west", 20, 2_048)),
            ],
            vec![entry(ManifestStatus::Deleted, Some(1), data_file("data/c.parquet", "east", 5, 512))],
        ],
    }
}

impl Warehouse {
    fn facts(&self) -> TableFacts<'_> {
        TableFacts {
            schema: &self.schema,
            specs: &self.specs,
            snapshots: &self.snapshots,
            history: &self.history,
            current_snapshot_id: Some(SNAPSHOT_ID),
            refs: &self.refs,
            publication_fence_ref: &self.fence,
            manifests: &self.manifests,
            loaded: &self.loaded,
        }
    }

    fn relation(&self, relation: IcebergSystemTableType) -> SystemRelation {
        let schema = system_relation_schema(relation, &self.schema, &self.specs).expect("schema");
        provider().create_single_backend_page_source(relation, &self.facts(), &all_columns(&schema)).expect("relation")
    }
}

fn all_columns(schema: &[Field]) -> Vec<IcebergColumnHandle> {
    schema
        .iter()
        .enumerate()
        .map(|(ordinal, column)| {
            IcebergColumnHandle::base_column(&field(ordinal as i32 + 1, &column.name, false, PrimitiveType::Long))
        })
        .collect()
}

fn cells(column: &Column) -> &Vec<Cell> {
    match column {
        Column::Flat { data_type: _, cells } => cells,
        _ => panic!("expected a flat column"),
    }
}

fn children(column: &Column) -> &Vec<Column> {
    match column {
        Column::Row { fields: _, children, length: _ } => children,
        _ => panic!("expected a row column"),
    }
}

fn texts(column: &Column) -> Vec<Option<String>> {
    cells(column)
        .iter()
        .map(|cell| match cell {
            Cell::Null => None,
            Cell::Text(text) => Some(text.clone()),
            _ => panic!("expected a text"),
        })
        .collect()
}

fn longs(column: &Column) -> Vec<Option<i64>> {
    cells(column)
        .iter()
        .map(|cell| match cell {
            Cell::Null => None,
            Cell::Int64(value) => Some(*value),
            _ => panic!("expected a long"),
        })
        .collect()
}

fn ints(column: &Column) -> Vec<Option<i32>> {
    cells(column)
        .iter()
        .map(|cell| match cell {
            Cell::Null => None,
            Cell::Int32(value) => Some(*value),
            _ => panic!("expected an int"),
        })
        .collect()
}

#[test]
fn refs_excludes_provider_private_refs() {
    let relation = warehouse().relation(IcebergSystemTableType::Refs);
    assert_eq!(relation.row_count, 1);
    assert_eq!(texts(&relation.columns[0]), vec![Some("main".to_string())]);
    assert_eq!(texts(&relation.columns[1]), vec![Some("BRANCH".to_string())]);
    assert_eq!(longs(&relation.columns[2]), vec![Some(SNAPSHOT_ID)]);
    assert_eq!(ints(&relation.columns[4]), vec![Some(2)]);
}

#[test]
fn snapshots_reports_a_zoned_commit_time_and_a_summary_map() {
    let relation = warehouse().relation(IcebergSystemTableType::Snapshots);
    assert!(relation.columns[0].carries(&utc_micros()));
    assert_eq!(longs(&relation.columns[0]), vec![Some(1_700_000_000_000 * 1_000)]);
    assert_eq!(longs(&relation.columns[1]), vec![Some(SNAPSHOT_ID)]);
    assert_eq!(longs(&relation.columns[2]), vec![None]);
    assert_eq!(texts(&relation.columns[3]), vec![Some("append".to_string())]);
    match &cells(&relation.columns[5])[0] {
        Cell::Entries(keys, values) => {
            assert!(matches!(&keys[0], Cell::Text(text) if text == "added-data-files"));
            assert!(matches!(&values[0], Cell::Text(text) if text == "2"));
        }
        _ => panic!("expected a summary map"),
    }
}

#[test]
fn history_marks_the_current_ancestor() {
    let relation = warehouse().relation(IcebergSystemTableType::History);
    assert_eq!(longs(&relation.columns[1]), vec![Some(SNAPSHOT_ID)]);
    assert!(matches!(cells(&relation.columns[3])[0], Cell::Boolean(true)));
}

#[test]
fn manifests_reports_an_array_of_partition_summary_rows() {
    let relation = warehouse().relation(IcebergSystemTableType::Manifests);
    assert_eq!(relation.row_count, 2);
    assert_eq!(ints(&relation.columns[0]), vec![Some(0), Some(0)]);
    assert_eq!(
        ints(&relation.columns[3]),
        vec![Some(0), Some(0)],
        "both manifests use the table's only partition spec"
    );
    match &cells(&relation.columns[11])[0] {
        Cell::List(summaries) => match &summaries[0] {
            Cell::Row(parts) => {
                assert_eq!(parts.len(), 4);
                assert!(matches!(&parts[2], Cell::Text(text) if text == "east"));
            }
            _ => panic!("expected a summary row"),
        },
        _ => panic!("expected a list of summaries"),
    }
}

#[test]
fn files_skips_deleted_entries_while_entries_keeps_them() {
    let warehouse = warehouse();
    let relation = warehouse.relation(IcebergSystemTableType::Entries);
    assert_eq!(relation.row_count, 3);
    assert_eq!(ints(&relation.columns[0]), vec![Some(1), Some(1), Some(2)]);
    assert_eq!(longs(&relation.columns[2]), vec![Some(1), Some(1), Some(1)], "data sequence numbers");
    let paths = texts(&children(&relation.columns[4])[1]);
    assert_eq!(paths[2], Some("data/c.parquet".to_string()));

    let rows = read_snapshot_file_rows(
        &warehouse.manifests,
        &warehouse.loaded,
        &warehouse.specs,
        EntryStatusRule::SkipDeleted,
    )
    .expect("rows");
    let paths: Vec<&str> = rows.iter().map(|row| row.file.file_path.as_str()).collect();
    assert_eq!(paths, vec!["data/a.parquet", "data/b.parquet"]);
}

#[test]
fn files_materializes_one_manifest_split_with_typed_bounds() {
    let warehouse = warehouse();
    let schema = system_relation_schema(IcebergSystemTableType::Files, &warehouse.schema, &warehouse.specs)
        .expect("schema");
    let relation = provider().create_files_page_source(
        &warehouse.schema,
        &warehouse.specs,
        &warehouse.specs[0],
        &warehouse.manifests[0].manifest,
        &warehouse.loaded[0],
        &all_columns(&schema),
    )
    .expect("relation");
    let columns = &relation.columns;
    assert_eq!(columns.len(), 27);
    assert_eq!(relation.row_count, 2);
    assert_eq!(
        texts(&columns[1]),
        vec![Some("data/a.parquet".to_string()), Some("data/b.parquet".to_string())]
    );
    assert_eq!(texts(&columns[2]), vec![Some("PARQUET".to_string()); 2]);
    assert_eq!(ints(&columns[3]), vec![Some(0), Some(0)]);
    assert_eq!(texts(&children(&columns[4])[0])[0], Some("east".to_string()));
    let lower = &children(&columns[11])[0];
    assert!(lower.carries(&DataType::Int64));
    assert_eq!(longs(lower)[0], Some(1));
    assert_eq!(longs(&columns[22]), vec![Some(0), Some(1)]);
    assert_eq!(texts(&columns[23]), vec![Some("metadata/live.avro".to_string()); 2]);
    assert_eq!(
        longs(&columns[18]),
        vec![Some(SNAPSHOT_ID), Some(SNAPSHOT_ID)],
        "added snapshot id is inherited from the manifest list entry"
    );
}

#[test]
fn partitions_aggregates_the_same_pinned_files() {
    let warehouse = warehouse();
    let schema = partitions_view_schema(&warehouse.schema, &warehouse.specs).expect("schema");
    let relation =
        provider().create_partitions_view_page_source(&warehouse.facts(), &all_columns(&schema)).expect("relation");
    let columns = &relation.columns;
    assert_eq!(columns.len(), 5);
    assert_eq!(relation.row_count, 2);
    assert_eq!(longs(&columns[1]), vec![Some(10), Some(20)]);
    assert_eq!(longs(&columns[2]), vec![Some(1), Some(1)]);
    assert_eq!(longs(&columns[3]), vec![Some(1_024), Some(2_048)]);
    let id_metrics = children(&children(&columns[4])[0]);
    assert_eq!(longs(&id_metrics[0])[0], Some(1));
}

fn reference(table_uuid: &str, snapshot_id: Option<i64>) -> IcebergSystemTableReference {
    IcebergSystemTableReference {
        system_table_type: IcebergSystemTableType::Snapshots,
        metadata_file_location: "metadata/00001-frozen.metadata.json".to_string(),
        table_uuid: table_uuid.to_string(),
        snapshot_id,
    }
}

#[test]
fn a_uuid_or_snapshot_mismatch_fails_closed_before_any_row() {
    let warehouse = warehouse();
    let uuid = TABLE_UUID.to_string();
    let wrong_uuid = reference("9d1f4c1e-6a1f-4a0b-9c3a-0f2b6d5e7a11", None);
    let error = error_of(wrong_uuid.verify_loaded_metadata(&uuid, &warehouse.snapshots));
    assert_eq!(error.kind(), ConnectorErrorKind::CorruptData);
    assert_eq!(error, ConnectorError::Corrupt(CorruptData::TableUuidMismatch));

    let missing = reference(TABLE_UUID, Some(4242));
    let error = error_of(missing.verify_loaded_metadata(&uuid, &warehouse.snapshots));
    assert_eq!(error.kind(), ConnectorErrorKind::CorruptData);
    assert_eq!(error, ConnectorError::Corrupt(CorruptData::PinnedSnapshotMissing));
    assert_eq!(
        pinned_snapshot(&missing, &warehouse.snapshots),
        Err(ConnectorError::Corrupt(CorruptData::PinnedSnapshotMissing))
    );
    let pinned = reference(TABLE_UUID, Some(SNAPSHOT_ID));
    assert_eq!(pinned.verify_loaded_metadata(&uuid, &warehouse.snapshots), Ok(()));
    assert_eq!(pinned_snapshot(&pinned, &warehouse.snapshots), Ok(Some(SNAPSHOT_ID)));
    assert_eq!(pinned_snapshot(&reference(TABLE_UUID, None), &warehouse.snapshots), Ok(None));
}

#[test]
fn a_non_empty_manifest_key_metadata_is_rejected() {
    let error = error_of(TrinoManifestFile::try_new(TrinoManifestFileParams {
        manifest: manifest_file("m0.avro"),
        key_metadata: vec![0xAB, 0xCD],
    }));
    assert_eq!(error.kind(), ConnectorErrorKind::Unsupported);
    let mut encrypted = listed("m1.avro", "a", "b");
    encrypted.params.key_metadata = vec![1];
    assert_eq!(
        error_of(read_snapshot_manifests(vec![listed("m0.avro", "a", "b"), encrypted])),
        ConnectorError::Unsupported(UnsupportedFeature::EncryptedManifest)
    );
}

#[test]
fn a_distributed_relation_is_refused_by_the_direct_page_source() {
    let warehouse = warehouse();
    let error = error_of(provider().create_single_backend_page_source(
        IcebergSystemTableType::Files,
        &warehouse.facts(),
        &Vec::new(),
    ));
    assert_eq!(error.kind(), ConnectorErrorKind::InvalidRequest);
    assert_eq!(
        create_system_page_source(IcebergRelationCategory::SystemTable, IcebergSystemTableType::Files),
        Err(ConnectorError::Invalid(InvalidRequest::DistributedSystemRelation))
    );
    assert_eq!(
        create_system_page_source(IcebergRelationCategory::SystemTable, IcebergSystemTableType::Refs),
        Ok(())
    );
    assert_eq!(
        iceberg_system_table_reference(IcebergRelationCategory::Table),
        Err(ConnectorError::Invalid(InvalidRequest::NotASystemRelation))
    );
}

#[test]
fn an_unknown_projected_column_is_refused() {
    let relation = system_relation_schema(IcebergSystemTableType::Refs, &test_schema(), &[]).expect("schema");
    let unknown = IcebergColumnHandle::base_column(&field(1, "not_a_column", false, PrimitiveType::Long));
    let error = error_of(project_system_relation_columns(&relation, &[unknown]));
    assert_eq!(error.kind(), ConnectorErrorKind::InvalidRequest);
    assert_eq!(error, ConnectorError::Invalid(InvalidRequest::UnknownSystemColumn));
    assert!(project_system_relation_columns(&relation, &[]).expect("count-only").is_empty());
}

#[test]
fn manifest_entries_inherit_what_they_leave_open() {
    let spec = identity_spec(0, "region");
    let mut manifest = manifest_file("m.avro");
    manifest.sequence_number = 7;
    let mut inherits = entry(ManifestStatus::Added, None, data_file("a", "east", 1, 1));
    inherits.sequence_number = None;
    let mut own = entry(ManifestStatus::Existing, Some(3), data_file("b", "east", 1, 1));
    own.sequence_number = Some(2);
    own.snapshot_id = Some(50);
    let entries = vec![inherits, own];
    let rows = manifest_rows(&manifest, &entries, &spec, EntryStatusRule::KeepDeleted).expect("rows");
    assert_eq!(rows[0].entry.snapshot_id, Some(SNAPSHOT_ID));
    assert_eq!(rows[0].entry.data_sequence_number, Some(7));
    assert_eq!(rows[0].entry.file_sequence_number, Some(7));
    assert_eq!(rows[1].entry.snapshot_id, Some(50));
    assert_eq!(rows[1].entry.data_sequence_number, Some(2));
    assert_eq!(rows[1].entry.file_sequence_number, Some(3));
    assert_eq!((rows[0].entry.status, rows[1].entry.status), (1, 0));
}

#[test]
fn facts_that_do_not_fit_are_corrupt() {
    let spec = identity_spec(0, "region");
    let manifest = manifest_file("m.avro");
    let fault = |change: fn(&mut DataFile)| {
        let mut file = data_file("a", "east", 1, 1);
        change(&mut file);
        let entries = vec![entry(ManifestStatus::Added, None, file)];
        error_of(manifest_rows(&manifest, &entries, &spec, EntryStatusRule::SkipDeleted))
    };
    assert_eq!(
        fault(|file| file.partition.clear()),
        ConnectorError::Corrupt(CorruptData::PartitionArity)
    );
    assert_eq!(
        fault(|file| file.record_count = u64::MAX),
        ConnectorError::Corrupt(CorruptData::RecordCountBeyondInt64)
    );
    assert_eq!(
        fault(|file| file.file_size_in_bytes = u64::MAX),
        ConnectorError::Corrupt(CorruptData::FileSizeBeyondInt64)
    );
    assert_eq!(
        fault(|file| file.value_counts = vec![(1, u64::MAX)]),
        ConnectorError::Corrupt(CorruptData::CountBeyondInt64)
    );
    let mut negative = manifest_file("m.avro");
    negative.length = -1;
    assert_eq!(
        negative.byte_length(),
        Err(ConnectorError::Corrupt(CorruptData::NegativeManifestLength))
    );
    assert_eq!(manifest.byte_length(), Ok(128));

    let mut warehouse = warehouse();
    warehouse.manifests[1].manifest.partition_spec_id = 9;
    assert_eq!(
        error_of(read_snapshot_file_rows(
            &warehouse.manifests,
            &warehouse.loaded,
            &warehouse.specs,
            EntryStatusRule::SkipDeleted
        )),
        ConnectorError::Corrupt(CorruptData::ManifestSpecMissing)
    );
}

#[test]
fn partitions_merge_bounds_and_count_every_file_once() {
    let spec = identity_spec(0, "region");
    let manifest = manifest_file("m.avro");
    let mut wider = data_file("b", "east", 5, 7);
    wider.lower_bounds = vec![(1, long_datum(-3))];
    wider.upper_bounds = vec![(1, long_datum(4))];
    wider.null_value_counts = vec![(1, 2)];
    let entries = vec![
        entry(ManifestStatus::Added, None, data_file("a", "east", 10, 100)),
        entry(ManifestStatus::Added, None, data_file("c", "west", 1, 1)),
        entry(ManifestStatus::Added, None, wider),
    ];
    let rows = manifest_rows(&manifest, &entries, &spec, EntryStatusRule::SkipDeleted).expect("rows");
    let aggregates = aggregate_partitions(&rows);
    assert_eq!(aggregates.len(), 2);
    let east = &aggregates[0];
    assert_eq!((east.record_count, east.file_count, east.total_size), (15, 2, 107));
    assert!(matches!(east.lower_bounds[0].1.literal, PrimitiveLiteral::Long(-3)));
    assert!(matches!(east.upper_bounds[0].1.literal, PrimitiveLiteral::Long(9)));
    assert_eq!(east.null_counts, vec![(1, 2)]);
    assert_eq!(saturating_sum(i64::MAX, 1), i64::MAX);

    let mut large = data_file("d", "east", 1, 1);
    large.null_value_counts = vec![(1, i64::MAX as u64)];
    let mut more = data_file("e", "east", 1, 1);
    more.null_value_counts = vec![(1, 1)];
    let entries = vec![entry(ManifestStatus::Added, None, large), entry(ManifestStatus::Added, None, more)];
    let rows = manifest_rows(&manifest, &entries, &spec, EntryStatusRule::SkipDeleted).expect("rows");
    assert!(try_aggregate_partitions(&rows).is_none());
}

#[test]
fn a_partition_whose_counts_overflow_is_corrupt() {
    let mut warehouse = warehouse();
    let counted = |path: &str, nulls: u64| {
        let mut file = data_file(path, "east", 1, 1);
        file.null_value_counts = vec![(1, nulls)];
        entry(ManifestStatus::Added, None, file)
    };
    warehouse.loaded[0] = vec![counted("a", i64::MAX as u64), counted("b", 1)];
    let schema = partitions_view_schema(&warehouse.schema, &warehouse.specs).expect("schema");
    let error = error_of(provider().create_partitions_view_page_source(&warehouse.facts(), &all_columns(&schema)));
    assert_eq!(error.kind(), ConnectorErrorKind::CorruptData);
    assert_eq!(error, ConnectorError::Corrupt(CorruptData::PartitionCountOverflow));
}

#[test]
fn the_published_columns_of_a_relation_project_to_all_of_it() {
    for relation in [
        IcebergSystemTableType::Files,
        IcebergSystemTableType::Entries,
        IcebergSystemTableType::Snapshots,
        IcebergSystemTableType::History,
        IcebergSystemTableType::Refs,
        IcebergSystemTableType::Manifests,
    ] {
        for specs in [vec![identity_spec(7, "region")], Vec::new()] {
            let schema = system_relation_schema(relation, &test_schema(), &specs).expect("schema");
            let columns = system_relation_columns(relation, &test_schema(), &specs).expect("columns");
            assert_eq!(columns.len(), schema.len());
            let published: Vec<&str> = columns.iter().map(|column| column.base_name.as_str()).collect();
            assert_eq!(published, names(&schema));
            assert!(columns[0].base_field_id >= 1);
            assert!(columns.windows(2).all(|pair| pair[0].base_field_id < pair[1].base_field_id));
            let positions = project_system_relation_columns(&schema, &columns).expect("projection");
            assert_eq!(positions, (0..schema.len()).collect::<Vec<usize>>());
        }
    }
}

#[test]
fn a_partition_summary_needs_its_partition_field() {
    let mut warehouse = warehouse();
    warehouse.manifests[0].summaries = Some(vec![
        FieldSummary { contains_null: true, contains_nan: None, lower_bound: None, upper_bound: None },
        FieldSummary {
            contains_null: true,
            contains_nan: None,
            lower_bound: Some(SummaryBound::Text("x".to_string())),
            upper_bound: None,
        },
    ]);
    let schema = system_relation_schema(IcebergSystemTableType::Manifests, &warehouse.schema, &warehouse.specs)
        .expect("schema");
    let made = |warehouse: &Warehouse| {
        error_of(provider().create_single_backend_page_source(
            IcebergSystemTableType::Manifests,
            &warehouse.facts(),
            &all_columns(&schema),
        ))
    };
    assert_eq!(made(&warehouse), ConnectorError::Corrupt(CorruptData::SummaryWithoutPartitionField));
    warehouse.manifests[0].summaries = Some(vec![FieldSummary {
        contains_null: true,
        contains_nan: None,
        lower_bound: Some(SummaryBound::Undecodable),
        upper_bound: None,
    }]);
    assert_eq!(made(&warehouse), ConnectorError::Corrupt(CorruptData::SummaryBoundUndecodable));
}

#[test]
fn ancestors_follow_the_parents_of_the_current_snapshot() {
    let snapshot = |id: i64, parent: Option<i64>| SnapshotFacts {
        snapshot_id: id,
        parent_snapshot_id: parent,
        timestamp_ms: 0,
        operation: "append".to_string(),
        manifest_list: String::new(),
        summary: Vec::new(),
        fence_marker: false,
    };
    let snapshots = vec![snapshot(1, None), snapshot(2, Some(1)), snapshot(3, Some(1)), snapshot(4, Some(3))];
    let mut ancestors = current_ancestors(&snapshots, Some(4));
    ancestors.sort();
    assert_eq!(ancestors, vec![1, 3, 4]);
    assert!(current_ancestors(&snapshots, None).is_empty());
}

#[test]
fn system_pages_tile_the_relation() {
    let warehouse = warehouse();
    let relation = warehouse.relation(IcebergSystemTableType::Entries);
    let memory = vec![8; relation.columns.len()];
    let mut source =
        IcebergSystemTableProvider::new(2).page_source(relation, &memory, 55).expect("page source");
    assert_eq!(source.memory_usage_bytes(), 8 * 6);
    let first = source.next_source_page().expect("page");
    assert_eq!((first.start, first.rows), (0, 2));
    assert!(!source.is_finished());
    let second = source.next_source_page().expect("page");
    assert_eq!((second.start, second.rows), (2, 1));
    assert!(source.next_source_page().is_none());
    assert!(source.is_finished());
    assert_eq!(
        source.metrics(),
        PageSourceMetrics { completed_bytes: 55, completed_positions: 3, read_time_nanos: 0 }
    );
    source.close();
    assert_eq!(source.memory_usage_bytes(), 0);

    let schema = vec![Field {
        name: "n".to_string(),
        data_type: DataType::Int64,
        nullable: true,
        field_id: None,
        initial_default: None,
        json: false,
        metadata: Vec::new(),
    }];
    let column = |data_type: DataType, cells: Vec<Cell>| Column::Flat { data_type, cells };
    let fault = |columns: Vec<Column>, projection: Vec<usize>| {
        let memory = vec![1; columns.len()];
        error_of(IcebergSystemPageSource::new(&schema, columns, &memory, projection, 1, 2, 0))
    };
    assert_eq!(fault(Vec::new(), Vec::new()), ConnectorError::Internal(InternalFault::ColumnCount));
    assert_eq!(
        fault(vec![column(DataType::Int64, Vec::new())], Vec::new()),
        ConnectorError::Internal(InternalFault::ColumnLength)
    );
    assert_eq!(
        fault(vec![column(DataType::Utf8, vec![Cell::Null])], Vec::new()),
        ConnectorError::Internal(InternalFault::ColumnCarrier)
    );
    assert_eq!(
        fault(vec![column(DataType::Int64, vec![Cell::Null])], vec![1]),
        ConnectorError::Internal(InternalFault::ProjectionOutOfRange)
    );
}

#[test]
fn literals_become_cells_of_their_carrier() {
    let text = PrimitiveLiteral::UInt128(0x0c5e1f4e_5b9d_4d27_8f4e_1c6f1f6f2a10);
    let uuids = primitive_array(&DataType::Utf8, &vec![Some(&text), None]).expect("uuids");
    assert_eq!(texts(&uuids), vec![Some(TABLE_UUID.to_string()), None]);

    let unscaled = PrimitiveLiteral::Int128(150);
    let decimals = primitive_array(&DataType::Decimal128(9, 2), &vec![Some(&unscaled)]).expect("decimals");
    assert!(matches!(cells(&decimals)[0], Cell::Int128(150)));
    assert_eq!(
        error_of(primitive_array(&DataType::Decimal128(9, 12), &vec![Some(&unscaled)])),
        ConnectorError::Corrupt(CorruptData::DecimalCarrier)
    );
    let boolean = PrimitiveLiteral::Boolean(true);
    assert_eq!(
        error_of(primitive_array(&DataType::Int64, &vec![Some(&boolean)])),
        ConnectorError::Corrupt(CorruptData::LiteralMismatch)
    );
    assert_eq!(
        error_of(primitive_array(&DataType::Float16, &vec![Some(&boolean)])),
        ConnectorError::Unsupported(UnsupportedFeature::SystemCarrier)
    );
    let short = PrimitiveLiteral::Binary(vec![1]);
    assert_eq!(
        error_of(primitive_array(&DataType::FixedSizeBinary(2), &vec![Some(&short)])),
        ConnectorError::Corrupt(CorruptData::FixedValueWidth)
    );
}

#[test]
fn metrics_and_types_are_written_as_json() {
    let spec = identity_spec(0, "region");
    let entries = vec![entry(ManifestStatus::Added, None, data_file("a", "east", 10, 1))];
    let rows = manifest_rows(&manifest_file("m"), &entries, &spec, EntryStatusRule::SkipDeleted).expect("rows");
    let json = readable_metrics_json(&rows[0], &test_schema()).expect("metrics");
    assert!(json.starts_with('{'), "{json}");
    assert!(json.contains("\"id\""), "{json}");
    assert!(json.contains("\"column_size\":64"), "{json}");
    assert!(json.contains("\"null_value_count\":0"), "{json}");

    assert_eq!(type_to_json(&Type::Primitive(PrimitiveType::Long)), Ok("\"long\"".to_string()));
    let quoted = type_to_json(&Type::Struct(vec![field(1, "a\"b", true, PrimitiveType::Int)])).expect("json");
    assert!(quoted.contains("\"a\\\"b\""), "{quoted}");

    let bounds = bounds_row_type(&test_schema()).expect("bounds").expect("row");
    let json = derived_row_type_json(&bounds).expect("json");
    assert!(json.contains("\"type\":\"struct\""), "{json}");
    let relation = files_relation_schema_json(&test_schema(), &[spec]).expect("json");
    assert!(relation.contains("\"file_path\""), "{relation}");

    let columns = system_relation_columns(IcebergSystemTableType::History, &test_schema(), &[]).expect("columns");
    let names: Vec<&str> = columns.iter().map(|column| column.base_name.as_str()).collect();
    assert_eq!(names, vec!["made_current_at", "snapshot_id", "parent_id", "is_current_ancestor"]);
    let mut ids: Vec<i32> = columns.iter().map(|column| column.base_field_id).collect();
    ids.dedup();
    assert_eq!(ids.len(), 4);
}
