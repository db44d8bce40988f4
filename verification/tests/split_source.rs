//! Cutting the files of a pinned snapshot into splits.

use iceberg_connector::column_handle::IcebergColumnHandle;
use iceberg_connector::error::{ConnectorError, ConnectorErrorKind, CorruptData, InvalidRequest, UnsupportedFeature};
use iceberg_connector::partition::{PartitionField, PartitionSpec, TransformResult};
use iceberg_connector::split::{IcebergDeleteFileContent, IcebergFileFormat, IcebergSplit, ParquetFileDecryptionData};
use iceberg_connector::split_source::{
    byte_ranges, equality_field_ids_in_schema_order, field_ids_in_order, identity_partition_source_field_ids,
    legal_split_offsets, merge_adjacent_ranges, resolve_target_split_size, schema_field_order,
    IcebergDeleteFileFacts, IcebergPlannedDataFile, IcebergReadDeleteFile, IcebergReadDeleteFormat,
    IcebergReadDeleteKind, IcebergReadFile, IcebergScanFacts, IcebergSplitSource, IcebergSplitSourceOptions,
    PartitionTuple, PruneVerdict,
};
use iceberg_connector::types::{InitialDefault, NestedField, PrimitiveType, Schema, Type};

const MAX_SPLITS: usize = 1000;

fn field(id: i32, name: &str, required: bool, field_type: Type) -> NestedField {
    NestedField {
        id,
        name: name.to_string(),
        required,
        field_type,
        initial_default: InitialDefault::Absent,
    }
}

fn partitioned_schema() -> Schema {
    Schema {
        fields: vec![
            field(1, "id", true, Type::Primitive(PrimitiveType::Long)),
            field(2, "region", false, Type::Primitive(PrimitiveType::String)),
            field(3, "amount", false, Type::Primitive(PrimitiveType::Long)),
        ],
    }
}

fn nested_schema() -> Schema {
    Schema {
        fields: vec![
            field(1, "id", true, Type::Primitive(PrimitiveType::Long)),
            field(
                2,
                "address",
                false,
                Type::Struct(vec![
                    field(3, "city", false, Type::Primitive(PrimitiveType::String)),
                    field(4, "zip", false, Type::Primitive(PrimitiveType::String)),
                ]),
            ),
            field(
                5,
                "tags",
                false,
                Type::List(Box::new(field(6, "element", false, Type::Primitive(PrimitiveType::String)))),
            ),
            field(
                7,
                "scores",
                false,
                Type::MapOf(
                    Box::new(field(8, "key", true, Type::Primitive(PrimitiveType::String))),
                    Box::new(field(9, "value", false, Type::Primitive(PrimitiveType::Long))),
                ),
            ),
        ],
    }
}

fn identity_partition_spec() -> PartitionSpec {
    PartitionSpec {
        spec_id: 7,
        fields: vec![PartitionField {
            source_id: 2,
            name: "region".to_string(),
            identity: true,
            result_type: TransformResult::Primitive(PrimitiveType::String),
        }],
    }
}

fn read_file(path: &str, size: i64, record_count: i64) -> IcebergReadFile {
    IcebergReadFile {
        path: path.to_string(),
        size,
        record_count: Some(record_count),
        partition_spec_id: Some(7),
        partition_values: Some(PartitionTuple { arity: 1, json: Some("{\"1000\":\"emea\"}".to_string()) }),
        first_row_id: Some(500),
        data_sequence_number: Some(9),
        deletes: Vec::new(),
    }
}

fn planned(read_file: IcebergReadFile) -> IcebergPlannedDataFile {
    IcebergPlannedDataFile {
        read_file,
        file_format: IcebergFileFormat::Parquet,
        split_offsets: Vec::new(),
        key_metadata: Vec::new(),
        decryption_data: None,
        delete_facts: Vec::new(),
        pruning: PruneVerdict::Overlapping,
    }
}

fn column(id: i32) -> IcebergColumnHandle {
    let schema = partitioned_schema();
    for field in &schema.fields {
        if field.id == id {
            return IcebergColumnHandle::base_column(field);
        }
    }
    panic!("no column {id}")
}

fn region_column() -> IcebergColumnHandle {
    column(2)
}

fn amount_column() -> IcebergColumnHandle {
    column(3)
}

fn table_with(target_size: Option<u64>, projected: Vec<IcebergColumnHandle>) -> IcebergScanFacts {
    IcebergScanFacts {
        snapshot_id: Some(1),
        limit: None,
        predicate_is_none: false,
        projected_columns: projected,
        partition_specs: vec![identity_partition_spec()],
        schema: partitioned_schema(),
        target_size_property: target_size.map(|size| size.to_string()),
    }
}

fn split_source_for(table: &IcebergScanFacts, files: Vec<IcebergPlannedDataFile>) -> IcebergSplitSource {
    IcebergSplitSource::try_new(table, files, IcebergSplitSourceOptions::default()).expect("split source")
}

fn all_splits(source: &mut IcebergSplitSource, batch_size: usize) -> Vec<IcebergSplit> {
    let mut splits = Vec::new();
    loop {
        let batch = source.next_batch(batch_size, false, MAX_SPLITS).expect("batch");
        let finished = batch.no_more_splits;
        splits.extend(batch.splits);
        if finished {
            return splits;
        }
    }
}

fn failure(source: &mut IcebergSplitSource) -> ConnectorError {
    match source.next_batch(4, false, MAX_SPLITS) {
        Ok(_) => panic!("the batch must fail"),
        Err(error) => error,
    }
}

fn ranges(splits: &Vec<IcebergSplit>) -> Vec<(i64, i64)> {
    splits.iter().map(|split| (split.start, split.length)).collect()
}

fn position_delete(path: &str, sequence_number: i64, applies: bool) -> IcebergReadDeleteFile {
    IcebergReadDeleteFile {
        path: path.to_string(),
        file_format: IcebergReadDeleteFormat::Parquet,
        kind: IcebergReadDeleteKind::Position,
        length: Some(64),
        content_offset: None,
        content_size_in_bytes: None,
        sequence_number: Some(sequence_number),
        applies,
    }
}

fn delete_facts(record_count: i64) -> IcebergDeleteFileFacts {
    IcebergDeleteFileFacts {
        record_count,
        row_position_lower_bound: None,
        row_position_upper_bound: None,
        decryption_data: None,
    }
}

#[test]
fn target_size_cutting_never_crosses_a_file_boundary() {
    let table = table_with(Some(100), vec![amount_column()]);
    let mut source = split_source_for(
        &table,
        vec![
            planned(read_file("a.parquet", 250, 10)),
            planned(read_file("b.parquet", 40, 4)),
        ],
    );
    let splits = all_splits(&mut source, 16);

    let shapes: Vec<(String, i64, i64)> = splits
        .iter()
        .map(|split| (split.path.clone(), split.start, split.length))
        .collect();
    assert_eq!(
        shapes,
        vec![
            ("a.parquet".to_string(), 0, 100),
            ("a.parquet".to_string(), 100, 100),
            ("a.parquet".to_string(), 200, 50),
            ("b.parquet".to_string(), 0, 40),
        ]
    );
    assert!(splits.iter().all(|split| split.length <= 100));
}

#[test]
fn a_legal_split_offset_list_defines_the_ranges() {
    let table = table_with(Some(1_000), vec![amount_column()]);
    let mut file = planned(read_file("a.parquet", 300, 30));
    file.split_offsets = vec![4, 120, 220];
    let mut source = split_source_for(&table, vec![file]);
    assert_eq!(ranges(&all_splits(&mut source, 16)), vec![(4, 116), (120, 100), (220, 80)]);
}

#[test]
fn an_illegal_split_offset_list_falls_back_to_target_size_cutting() {
    let table = table_with(Some(100), vec![amount_column()]);
    for offsets in [vec![120_i64, 40], vec![10, 10], vec![10, 400], vec![-1, 10]] {
        let mut file = planned(read_file("a.parquet", 250, 10));
        file.split_offsets = offsets;
        let mut source = split_source_for(&table, vec![file]);
        assert_eq!(ranges(&all_splits(&mut source, 16)), vec![(0, 100), (100, 100), (200, 50)]);
    }
}

#[test]
fn adjacent_offset_ranges_merge_only_under_an_explicit_session_override() {
    let table = table_with(Some(200), vec![amount_column()]);
    let file = || {
        let mut file = planned(read_file("a.parquet", 300, 30));
        file.split_offsets = vec![0, 100, 200];
        file
    };

    let mut default_source = split_source_for(&table, vec![file()]);
    assert_eq!(all_splits(&mut default_source, 16).len(), 3);

    let mut merging = IcebergSplitSource::try_new(
        &table,
        vec![file()],
        IcebergSplitSourceOptions {
            merge_adjacent_split_offsets: true,
            ..IcebergSplitSourceOptions::default()
        },
    )
    .expect("split source");
    assert_eq!(ranges(&all_splits(&mut merging, 16)), vec![(0, 200), (200, 100)]);
}

#[test]
fn a_partition_only_projection_reads_the_whole_file_in_one_split() {
    let table = table_with(Some(100), vec![region_column()]);
    let mut source = split_source_for(&table, vec![planned(read_file("a.parquet", 250, 10))]);
    let splits = all_splits(&mut source, 16);
    assert_eq!(splits.len(), 1);
    assert!(splits[0].is_whole_file());

    let empty = table_with(Some(100), Vec::new());
    let mut source = split_source_for(&empty, vec![planned(read_file("a.parquet", 250, 10))]);
    assert_eq!(all_splits(&mut source, 16).len(), 1);

    let mixed = table_with(Some(100), vec![region_column(), amount_column()]);
    let mut source = split_source_for(&mixed, vec![planned(read_file("a.parquet", 250, 10))]);
    assert_eq!(all_splits(&mut source, 16).len(), 3);
}

#[test]
fn any_delete_forces_ordinary_byte_range_splits() {
    let table = table_with(Some(100), vec![region_column()]);
    let mut read = read_file("a.parquet", 250, 10);
    read.deletes.push(position_delete("p0.parquet", 11, true));
    let mut file = planned(read);
    file.delete_facts.push((
        "p0.parquet".to_string(),
        IcebergDeleteFileFacts {
            record_count: 2,
            row_position_lower_bound: Some(0),
            row_position_upper_bound: Some(5),
            decryption_data: None,
        },
    ));

    let mut source = split_source_for(&table, vec![file]);
    let splits = all_splits(&mut source, 16);
    assert_eq!(splits.len(), 3);
    for split in &splits {
        assert_eq!(split.deletes.len(), 1);
        assert_eq!(split.deletes[0].path, "p0.parquet");
        assert_eq!(split.deletes[0].record_count, 2);
        assert_eq!(split.deletes[0].data_sequence_number, 11);
        assert_eq!(split.deletes[0].content, IcebergDeleteFileContent::PositionDeletes);
        assert_eq!(split.deletes[0].row_position_upper_bound, Some(5));
    }
}

#[test]
fn a_delete_attached_to_the_wrong_data_file_is_rejected() {
    let table = table_with(Some(100), vec![amount_column()]);
    let mut read = read_file("a.parquet", 100, 10);
    read.deletes.push(position_delete("p0.parquet", 11, false));
    let mut file = planned(read);
    file.delete_facts.push(("p0.parquet".to_string(), delete_facts(2)));

    let mut source = split_source_for(&table, vec![file]);
    let error = failure(&mut source);
    assert_eq!(error.kind(), ConnectorErrorKind::CorruptData);
    assert_eq!(error, ConnectorError::Corrupt(CorruptData::DeleteDoesNotApply));
}

#[test]
fn equality_delete_field_ids_are_canonicalized_into_schema_order() {
    let table = table_with(Some(1_000), vec![amount_column()]);
    let mut read = read_file("a.parquet", 100, 10);
    let mut delete = position_delete("e0.parquet", 12, true);
    delete.kind = IcebergReadDeleteKind::Equality { equality_field_ids: vec![3, 1] };
    delete.length = Some(128);
    read.deletes.push(delete);
    let mut file = planned(read);
    file.delete_facts.push(("e0.parquet".to_string(), delete_facts(4)));

    let mut source = split_source_for(&table, vec![file]);
    let splits = all_splits(&mut source, 16);
    assert_eq!(splits[0].deletes[0].equality_field_ids, vec![1, 3]);
}

#[test]
fn zero_snapshot_pruned_predicate_and_limit_zero_all_finish_with_no_splits() {
    let mut no_snapshot = table_with(None, Vec::new());
    no_snapshot.snapshot_id = None;
    let mut source = split_source_for(&no_snapshot, Vec::new());
    assert!(source.is_finished());
    assert!(all_splits(&mut source, 8).is_empty());

    let mut pruned = table_with(None, Vec::new());
    pruned.predicate_is_none = true;
    let mut source = split_source_for(&pruned, vec![planned(read_file("a.parquet", 100, 10))]);
    assert!(all_splits(&mut source, 8).is_empty());

    let mut zero_limit = table_with(None, Vec::new());
    zero_limit.limit = Some(0);
    let mut source = split_source_for(&zero_limit, vec![planned(read_file("a.parquet", 100, 10))]);
    assert!(all_splits(&mut source, 8).is_empty());
}

#[test]
fn a_file_whose_statistics_are_disjoint_from_the_static_predicate_is_pruned() {
    let table = table_with(None, Vec::new());
    let mut disjoint = planned(read_file("a.parquet", 100, 10));
    disjoint.pruning = PruneVerdict::Disjoint;
    let overlapping = planned(read_file("b.parquet", 100, 10));

    let mut source = split_source_for(&table, vec![disjoint, overlapping]);
    let splits = all_splits(&mut source, 8);
    assert_eq!(splits.len(), 1);
    assert_eq!(splits[0].path, "b.parquet");
}

#[test]
fn batches_are_bounded_and_an_empty_batch_is_not_the_end() {
    let table = table_with(Some(10), vec![amount_column()]);
    let mut source = split_source_for(&table, vec![planned(read_file("a.parquet", 100, 10))]);

    let first = source.next_batch(3, false, MAX_SPLITS).expect("batch");
    assert_eq!(first.splits.len(), 3);
    assert!(!first.no_more_splits);
    assert!(!source.is_finished());

    let rest = all_splits(&mut source, 4);
    assert_eq!(rest.len(), 7);
    assert!(source.is_finished());

    match source.next_batch(0, false, MAX_SPLITS) {
        Ok(_) => panic!("a batch of no split is refused"),
        Err(error) => assert_eq!(error, ConnectorError::Invalid(InvalidRequest::EmptyBatchSize)),
    }
}

#[test]
fn the_sizes_of_the_batches_do_not_matter() {
    let table = table_with(Some(10), vec![amount_column()]);
    let files = || {
        vec![
            planned(read_file("a.parquet", 100, 10)),
            planned(read_file("b.parquet", 35, 5)),
            planned(read_file("c.parquet", 1, 1)),
        ]
    };
    let drain = |batch_size: usize| {
        let mut source = split_source_for(&table, files());
        all_splits(&mut source, batch_size)
            .into_iter()
            .map(|split| (split.path, split.start, split.length))
            .collect::<Vec<(String, i64, i64)>>()
    };
    let whole = drain(MAX_SPLITS);
    assert_eq!(whole.len(), 15);
    for batch_size in [1, 2, 3, 7] {
        assert_eq!(drain(batch_size), whole);
    }
}

#[test]
fn a_source_goes_on_behind_a_file_that_failed() {
    let table = table_with(Some(10), vec![amount_column()]);
    let mut broken = read_file("b.parquet", 20, 2);
    broken.record_count = None;
    let mut source = split_source_for(
        &table,
        vec![
            planned(read_file("a.parquet", 20, 2)),
            planned(broken),
            planned(read_file("c.parquet", 20, 2)),
        ],
    );
    assert_eq!(failure(&mut source), ConnectorError::Corrupt(CorruptData::RecordCountMissing));
    assert!(!source.is_finished());
    let rest = all_splits(&mut source, 4);
    assert!(rest.iter().all(|split| split.path == "c.parquet"));
    assert_eq!(ranges(&rest), vec![(0, 10), (10, 10)]);
}

#[test]
fn an_unsatisfiable_dynamic_filter_finishes_without_fabricating_a_wait() {
    let table = table_with(Some(10), vec![amount_column()]);
    let mut source = split_source_for(&table, vec![planned(read_file("a.parquet", 100, 10))]);

    assert!(!source.next_batch(4, false, MAX_SPLITS).expect("batch").splits.is_empty());

    let batch = source.next_batch(4, true, MAX_SPLITS).expect("batch");
    assert!(batch.splits.is_empty());
    assert!(batch.no_more_splits);
}

#[test]
fn close_is_idempotent_and_cannot_retract_a_delivered_batch() {
    let table = table_with(Some(10), vec![amount_column()]);
    let mut source = split_source_for(&table, vec![planned(read_file("a.parquet", 100, 10))]);

    let outstanding = source.next_batch(2, false, MAX_SPLITS).expect("batch");
    source.close();
    source.close();

    assert_eq!(outstanding.splits.len(), 2);
    assert!(source.is_finished());
    let after_close = source.next_batch(2, false, MAX_SPLITS).expect("batch");
    assert!(after_close.splits.is_empty());
    assert!(after_close.no_more_splits);
}

#[test]
fn orc_avro_and_encryption_are_rejected_at_split_production() {
    let table = table_with(Some(100), vec![amount_column()]);

    for (format, feature) in [
        (IcebergFileFormat::Orc, UnsupportedFeature::OrcDataFile),
        (IcebergFileFormat::Avro, UnsupportedFeature::AvroDataFile),
    ] {
        let mut file = planned(read_file("a.orc", 100, 10));
        file.file_format = format;
        let mut source = split_source_for(&table, vec![file]);
        let error = failure(&mut source);
        assert_eq!(error.kind(), ConnectorErrorKind::Unsupported);
        assert_eq!(error, ConnectorError::Unsupported(feature));
    }

    let mut encrypted_manifest = planned(read_file("a.parquet", 100, 10));
    encrypted_manifest.key_metadata = vec![1, 2, 3];
    let mut source = split_source_for(&table, vec![encrypted_manifest]);
    let error = failure(&mut source);
    assert_eq!(error.kind(), ConnectorErrorKind::Unsupported);
    assert_eq!(error, ConnectorError::Unsupported(UnsupportedFeature::EncryptedManifestKey));

    let mut encrypted_file = planned(read_file("a.parquet", 100, 10));
    encrypted_file.decryption_data =
        Some(ParquetFileDecryptionData { key_metadata: vec![9], aad_prefix: vec![] });
    let mut source = split_source_for(&table, vec![encrypted_file]);
    let error = failure(&mut source);
    assert_eq!(error.kind(), ConnectorErrorKind::Unsupported);
    assert_eq!(error, ConnectorError::Unsupported(UnsupportedFeature::EncryptedParquet));
}

#[test]
fn a_puffin_deletion_vector_keeps_its_addressed_content_range() {
    let table = table_with(Some(1_000), vec![amount_column()]);
    let mut read = read_file("a.parquet", 100, 10);
    let mut delete = position_delete("dv.puffin", 11, true);
    delete.file_format = IcebergReadDeleteFormat::Puffin;
    delete.content_offset = Some(4);
    delete.content_size_in_bytes = Some(32);
    read.deletes.push(delete);
    let mut file = planned(read);
    file.delete_facts.push(("dv.puffin".to_string(), delete_facts(1)));

    let mut source = split_source_for(&table, vec![file]);
    let splits = all_splits(&mut source, 8);
    let delete = &splits[0].deletes[0];
    assert_eq!(delete.format, IcebergFileFormat::Puffin);
    assert_eq!(delete.content_offset, Some(4));
    assert_eq!(delete.content_size_in_bytes, Some(32));
}

#[test]
fn a_data_file_claiming_the_puffin_format_is_rejected() {
    let table = table_with(Some(100), vec![amount_column()]);
    let mut file = planned(read_file("a.parquet", 100, 10));
    file.file_format = IcebergFileFormat::Puffin;
    let mut source = split_source_for(&table, vec![file]);
    let error = failure(&mut source);
    assert_eq!(error.kind(), ConnectorErrorKind::CorruptData);
    assert_eq!(error, ConnectorError::Corrupt(CorruptData::PuffinDataFile));
}

#[test]
fn split_facts_are_copied_from_the_pinned_manifest_view() {
    let table = table_with(Some(1_000), vec![amount_column()]);
    let mut source = split_source_for(&table, vec![planned(read_file("a.parquet", 100, 42))]);
    let splits = all_splits(&mut source, 8);
    let split = &splits[0];

    assert_eq!(split.file_record_count, 42);
    assert_eq!(split.data_sequence_number, Some(9));
    assert_eq!(split.file_first_row_id, Some(500));
    assert_eq!(split.partition_spec_id, 7);
    assert_eq!(split.partition_data_json, "{\"1000\":\"emea\"}");
    assert_eq!(split.file_format, IcebergFileFormat::Parquet);
    assert!(split.decryption_data.is_none());
}

#[test]
fn a_missing_planning_fact_fails_closed() {
    let table = table_with(Some(1_000), vec![amount_column()]);

    let mut missing_records = read_file("a.parquet", 100, 10);
    missing_records.record_count = None;
    let mut source = split_source_for(&table, vec![planned(missing_records)]);
    let error = failure(&mut source);
    assert_eq!(error.kind(), ConnectorErrorKind::CorruptData);
    assert_eq!(error, ConnectorError::Corrupt(CorruptData::RecordCountMissing));

    let mut missing_partition = read_file("a.parquet", 100, 10);
    missing_partition.partition_values = None;
    let mut source = split_source_for(&table, vec![planned(missing_partition)]);
    let error = failure(&mut source);
    assert_eq!(error.kind(), ConnectorErrorKind::CorruptData);
    assert_eq!(error, ConnectorError::Corrupt(CorruptData::PartitionValuesMissing));

    let mut wrong_arity = read_file("a.parquet", 100, 10);
    wrong_arity.partition_values = Some(PartitionTuple { arity: 0, json: Some("{}".to_string()) });
    let mut source = split_source_for(&table, vec![planned(wrong_arity)]);
    let error = failure(&mut source);
    assert_eq!(error.kind(), ConnectorErrorKind::CorruptData);
    assert_eq!(error, ConnectorError::Corrupt(CorruptData::PartitionArity));

    let mut unknown_spec = read_file("a.parquet", 100, 10);
    unknown_spec.partition_spec_id = Some(99);
    let mut source = split_source_for(&table, vec![planned(unknown_spec)]);
    let error = failure(&mut source);
    assert_eq!(error.kind(), ConnectorErrorKind::CorruptData);
    assert_eq!(error, ConnectorError::Corrupt(CorruptData::UnknownPartitionSpec));
}

#[test]
fn the_target_split_size_falls_back_from_session_to_table_property_to_default() {
    let table = table_with(Some(64), vec![amount_column()]);
    let mut from_property = split_source_for(&table, vec![planned(read_file("a.parquet", 128, 10))]);
    assert_eq!(all_splits(&mut from_property, 8).len(), 2);

    let mut from_session = IcebergSplitSource::try_new(
        &table,
        vec![planned(read_file("a.parquet", 128, 10))],
        IcebergSplitSourceOptions {
            session_max_split_size: Some(128),
            ..IcebergSplitSourceOptions::default()
        },
    )
    .expect("split source");
    assert_eq!(all_splits(&mut from_session, 8).len(), 1);

    let default_table = table_with(None, vec![amount_column()]);
    let mut from_default = split_source_for(&default_table, vec![planned(read_file("a.parquet", 128, 10))]);
    assert_eq!(all_splits(&mut from_default, 8).len(), 1);

    let mut bad = table_with(None, Vec::new());
    bad.target_size_property = Some("huge".to_string());
    match IcebergSplitSource::try_new(&bad, Vec::new(), IcebergSplitSourceOptions::default()) {
        Ok(_) => panic!("the property is no byte count"),
        Err(error) => assert_eq!(error, ConnectorError::Invalid(InvalidRequest::TargetSizeNotAByteCount)),
    }
}

#[test]
fn the_identity_partition_helper_only_reports_identity_fields() {
    assert_eq!(identity_partition_source_field_ids(&identity_partition_spec()), vec![2]);
    let unpartitioned = PartitionSpec { spec_id: 0, fields: Vec::new() };
    assert!(identity_partition_source_field_ids(&unpartitioned).is_empty());
}

#[test]
fn schema_field_order_indexes_nested_fields_in_pre_order() {
    let order = schema_field_order(&nested_schema());
    assert_eq!(order.get(&1), Some(&0));
    assert_eq!(order.get(&2), Some(&1));
    assert_eq!(order.get(&3), Some(&2));
    assert_eq!(order.get(&4), Some(&3));
    assert_eq!(order.get(&6), Some(&5));
    assert_eq!(order.get(&9), Some(&8));
}

#[test]
fn a_partition_spec_mismatch_between_a_delete_and_its_data_file_is_rejected() {
    let table = table_with(Some(1_000), vec![amount_column()]);
    let mut read = read_file("a.parquet", 100, 10);
    let mut delete = position_delete("e0.parquet", 12, false);
    delete.kind = IcebergReadDeleteKind::Equality { equality_field_ids: vec![1] };
    delete.length = Some(128);
    read.deletes.push(delete);
    let mut file = planned(read);
    file.delete_facts.push(("e0.parquet".to_string(), delete_facts(4)));

    let mut source = split_source_for(&table, vec![file]);
    assert_eq!(failure(&mut source).kind(), ConnectorErrorKind::CorruptData);
}

#[test]
fn every_missing_fact_of_a_delete_is_named() {
    let table = table_with(Some(1_000), vec![amount_column()]);
    let error_of = |change: fn(&mut IcebergReadDeleteFile), known: bool| {
        let mut read = read_file("a.parquet", 100, 10);
        let mut delete = position_delete("p0.parquet", 11, true);
        change(&mut delete);
        read.deletes.push(delete);
        let mut file = planned(read);
        if known {
            file.delete_facts.push(("p0.parquet".to_string(), delete_facts(2)));
        }
        let mut source = split_source_for(&table, vec![file]);
        failure(&mut source)
    };
    assert_eq!(error_of(|_| {}, false), ConnectorError::Corrupt(CorruptData::DeleteFactsMissing));
    assert_eq!(
        error_of(|delete| delete.length = None, true),
        ConnectorError::Corrupt(CorruptData::DeleteSizeMissing)
    );
    assert_eq!(
        error_of(|delete| delete.sequence_number = None, true),
        ConnectorError::Corrupt(CorruptData::DeleteSequenceMissing)
    );
    assert_eq!(
        error_of(
            |delete| delete.kind = IcebergReadDeleteKind::Equality { equality_field_ids: vec![1, 1] },
            true
        ),
        ConnectorError::Corrupt(CorruptData::DuplicateEqualityFieldId)
    );
    assert_eq!(
        error_of(
            |delete| delete.kind = IcebergReadDeleteKind::Equality { equality_field_ids: vec![77] },
            true
        ),
        ConnectorError::Corrupt(CorruptData::UnknownEqualityFieldId)
    );
}

#[test]
fn a_negative_size_and_a_failed_comparison_are_reported() {
    let table = table_with(Some(1_000), vec![amount_column()]);
    let mut source = split_source_for(&table, vec![planned(read_file("a.parquet", -1, 10))]);
    assert_eq!(failure(&mut source), ConnectorError::Corrupt(CorruptData::NegativeFileSize));

    let mut undecided = planned(read_file("a.parquet", 100, 10));
    undecided.pruning = PruneVerdict::Failed(ConnectorError::Reported(ConnectorErrorKind::Internal));
    let mut source = split_source_for(&table, vec![undecided]);
    assert_eq!(failure(&mut source).kind(), ConnectorErrorKind::Internal);

    let mut no_spec = read_file("a.parquet", 100, 10);
    no_spec.partition_spec_id = None;
    let mut source = split_source_for(&table, vec![planned(no_spec)]);
    assert_eq!(failure(&mut source), ConnectorError::Corrupt(CorruptData::PartitionSpecIdMissing));

    let mut unencodable = read_file("a.parquet", 100, 10);
    unencodable.partition_values = Some(PartitionTuple { arity: 1, json: None });
    let mut source = split_source_for(&table, vec![planned(unencodable)]);
    assert_eq!(failure(&mut source), ConnectorError::Corrupt(CorruptData::PartitionValuesUnencodable));
}

#[test]
fn a_target_size_of_zero_and_an_unbound_spec_are_refused() {
    let refused = |table: &IcebergScanFacts| {
        match IcebergSplitSource::try_new(table, Vec::new(), IcebergSplitSourceOptions::default()) {
            Ok(_) => panic!("the table must be refused"),
            Err(error) => error,
        }
    };
    assert_eq!(
        refused(&table_with(Some(0), Vec::new())),
        ConnectorError::Invalid(InvalidRequest::ZeroTargetSize)
    );
    let mut unbound = table_with(Some(10), Vec::new());
    unbound.partition_specs[0].fields[0].source_id = 99;
    assert_eq!(refused(&unbound), ConnectorError::Invalid(InvalidRequest::PartitionSpecDoesNotBind));
}

#[test]
fn ranges_tile_the_file_from_their_first_offset() {
    assert!(legal_split_offsets(&vec![4, 120, 220], 300));
    assert!(!legal_split_offsets(&vec![], 300));
    assert!(!legal_split_offsets(&vec![4, 300], 300));
    assert_eq!(byte_ranges(&vec![], 250, 100, false), vec![(0, 100), (100, 100), (200, 50)]);
    assert_eq!(byte_ranges(&vec![], -1, 100, false), vec![(0, 0)]);
    assert_eq!(byte_ranges(&vec![0, 100, 200], 300, 200, true), vec![(0, 200), (200, 100)]);
    assert_eq!(
        merge_adjacent_ranges(&vec![(0, 10), (20, 10), (30, 5)], 100),
        vec![(0, 10), (20, 15)]
    );
}

#[test]
fn schema_order_does_not_depend_on_the_listing_order() {
    let order = field_ids_in_order(&nested_schema());
    assert_eq!(order, vec![1, 2, 3, 4, 5, 6, 7, 8, 9]);
    let one = equality_field_ids_in_schema_order(&order, &vec![4, 1, 3]);
    let other = equality_field_ids_in_schema_order(&order, &vec![3, 4, 1]);
    assert_eq!(one, Ok(vec![1, 3, 4]));
    assert_eq!(other, Ok(vec![1, 3, 4]));
}

#[test]
fn the_default_target_size_is_the_one_of_the_table_format() {
    assert_eq!(resolve_target_split_size(None, &None), Ok(134_217_728));
    assert_eq!(resolve_target_split_size(Some(7), &Some("9".to_string())), Ok(7));
    assert_eq!(resolve_target_split_size(None, &Some("9".to_string())), Ok(9));
}
