//! What the delete files of a split remove.

use std::collections::HashMap;
use std::sync::Arc;

use roaring::RoaringTreemap;

use iceberg_connector::delete_closure::{
    physical_delete_spec, row_position_bounds_exclude_file, DeleteEvaluationMode, RemovedRowSelection,
};
use iceberg_connector::delete_filter::{
    loaded_equality_delete, EqualityMask, FilterVerdict, LoadedEqualityDelete, PageMasks, ResolvedDeletes,
    SelectedRows, SplitDeleteFilter,
};
use iceberg_connector::delete_manager::{DeleteManager, LoadState, LoadStep, LoadedArtifact, SideClaims, SplitOpen};
use iceberg_connector::error::{ConnectorError, ConnectorErrorKind, CorruptData, InternalFault, InvalidRequest, ResourceLimit, UnsupportedFeature};
use iceberg_connector::positions::merged_positions;
use iceberg_connector::split::{IcebergDeleteFile, IcebergDeleteFileContent, IcebergFileFormat, IcebergSplit};
use iceberg_connector::types::{InitialDefault, NestedField, PrimitiveType, Schema, Type};

const DATA_FILE: &str = "/warehouse/data/a.parquet";
const OTHER_DATA_FILE: &str = "/warehouse/data/b.parquet";

fn table_schema() -> Schema {
    let field = |id: i32, name: &str, required: bool, primitive: PrimitiveType| NestedField {
        id,
        name: name.to_string(),
        required,
        field_type: Type::Primitive(primitive),
        initial_default: InitialDefault::Absent,
    };
    Schema {
        fields: vec![
            field(1, "id", true, PrimitiveType::Long),
            field(2, "name", false, PrimitiveType::String),
            field(3, "kind", false, PrimitiveType::String),
        ],
    }
}

/// What a delete file holds.
enum Artifact {
    /// Paths of data files and positions in them.
    Positions(Vec<(String, u64)>),
    /// The positions of one deletion vector.
    Vector(Vec<u64>),
    /// Keys over `id`, or over `kind` and `id`.
    Keys(Vec<(Option<String>, i64)>),
}

/// A manager with the files that it may load.
struct Fixture {
    manager: DeleteManager,
    artifacts: HashMap<String, Artifact>,
    key_sets: Vec<String>,
    reads: usize,
}

/// The rows of a page: `id` and `kind`.
struct Page {
    ids: Vec<i64>,
    kinds: Vec<&'static str>,
}

fn page() -> Page {
    Page { ids: vec![1, 2, 3], kinds: vec!["a", "a", "a"] }
}

fn positions(values: &[u64]) -> Vec<Option<u64>> {
    values.iter().map(|value| Some(*value)).collect()
}

impl Fixture {
    fn new() -> Fixture {
        Fixture { manager: DeleteManager::new(), artifacts: HashMap::new(), key_sets: Vec::new(), reads: 0 }
    }

    fn write_positions(&mut self, path: &str, rows: &[(&str, u64)]) {
        let rows = rows.iter().map(|(file, position)| (file.to_string(), *position)).collect();
        self.artifacts.insert(path.to_string(), Artifact::Positions(rows));
    }

    fn write_vector(&mut self, path: &str, deleted: &[u64]) {
        self.artifacts.insert(path.to_string(), Artifact::Vector(deleted.to_vec()));
    }

    fn write_ids(&mut self, path: &str, ids: &[i64]) {
        self.artifacts.insert(path.to_string(), Artifact::Keys(ids.iter().map(|id| (None, *id)).collect()));
    }

    fn load(
        &mut self,
        slot: usize,
        read: impl FnOnce(&mut Fixture) -> LoadedArtifact,
    ) -> Result<(), ConnectorError> {
        match self.manager.begin(slot) {
            LoadStep::Run => {
                self.reads += 1;
                let artifact = read(self);
                self.manager.settle(slot, Ok(artifact), None)
            }
            LoadStep::Share => Ok(()),
            LoadStep::Refuse(error) => Err(error),
        }
    }

    fn treemap(&self, delete: &IcebergDeleteFile, data_file: &str) -> Arc<RoaringTreemap> {
        let mut map = RoaringTreemap::new();
        match &self.artifacts[&delete.path] {
            Artifact::Positions(rows) => {
                for (file, position) in rows {
                    if file == data_file {
                        map.insert(*position);
                    }
                }
            }
            Artifact::Vector(deleted) => {
                for position in deleted {
                    map.insert(*position);
                }
            }
            Artifact::Keys(_) => panic!("no positions in an equality delete"),
        }
        Arc::new(map)
    }

    fn keys(&mut self, delete: &IcebergDeleteFile) -> LoadedEqualityDelete {
        let set = self.key_sets.len() as u64;
        self.key_sets.push(delete.path.clone());
        loaded_equality_delete(delete, &vec![set]).expect("one key set")
    }

    /// The loads of both sides of a split, as they were claimed.
    fn claim(&mut self, split: &IcebergSplit, open: &SplitOpen<'_>) -> (SideClaims, SideClaims) {
        let applied = self.manager.claim_side(split, &open.scope, &open.applied);
        let previously = self.manager.claim_side(split, &open.scope, &open.previously);
        (applied, previously)
    }

    /// Load what was claimed, publish it and build the verdict.
    fn finish(
        &mut self,
        split: &IcebergSplit,
        schema: &Schema,
        mode: &DeleteEvaluationMode,
        open: SplitOpen<'_>,
        claims: (SideClaims, SideClaims),
    ) -> Result<SplitDeleteFilter, ConnectorError> {
        for (closure, claims) in [(&open.applied, &claims.0), (&open.previously, &claims.1)] {
            for (delete, slot) in closure.position_files.iter().zip(&claims.positions) {
                self.load(*slot, |fixture| LoadedArtifact::Positions(fixture.treemap(delete, &split.path)))?;
            }
            for (group, slots) in closure.equality_groups.iter().zip(&claims.equality) {
                for (delete, slot) in group.deletes.iter().zip(slots) {
                    self.load(*slot, |fixture| LoadedArtifact::Equality(fixture.keys(delete)))?;
                }
            }
        }
        Ok(self
            .manager
            .finish_split(split, schema, mode, open, &claims.0, &claims.1)
            .expect("every artifact is there"))
    }

    fn open_split(
        &mut self,
        split: &IcebergSplit,
        schema: &Schema,
        mode: &DeleteEvaluationMode,
    ) -> Result<SplitDeleteFilter, ConnectorError> {
        let open = DeleteManager::open_split(split, schema, mode)?;
        let claims = self.claim(split, &open);
        self.finish(split, schema, mode, open, claims)
    }

    fn masks(&self, deletes: &[LoadedEqualityDelete], page: &Page) -> Vec<EqualityMask> {
        deletes
            .iter()
            .map(|delete| match &self.artifacts[&self.key_sets[delete.key_set as usize]] {
                Artifact::Keys(keys) => EqualityMask::Keep(
                    (0..page.ids.len())
                        .map(|row| {
                            !keys.iter().any(|(kind, id)| {
                                *id == page.ids[row]
                                    && match kind {
                                        Some(kind) => kind == page.kinds[row],
                                        None => true,
                                    }
                            })
                        })
                        .collect(),
                ),
                _ => panic!("no keys in a position delete"),
            })
            .collect()
    }

    fn evaluate(
        &self,
        filter: &SplitDeleteFilter,
        page: &Page,
        positions: &Vec<Option<u64>>,
    ) -> Result<Vec<bool>, ConnectorError> {
        let nothing = || Vec::new();
        let masks = match &filter.verdict {
            FilterVerdict::ExcludeDeleted(deletes) | FilterVerdict::EqualityMatchOnly(deletes) => {
                PageMasks { applied: self.masks(&deletes.equality, page), previously: nothing() }
            }
            FilterVerdict::SelectRemovedRows { selected, previously_applied } => PageMasks {
                applied: match selected {
                    SelectedRows::WholeFile => nothing(),
                    SelectedRows::NamedBy(deletes) => self.masks(&deletes.equality, page),
                },
                previously: self.masks(&previously_applied.equality, page),
            },
        };
        filter.evaluate(page.ids.len(), positions, &masks)
    }
}

fn delete_file(path: &str, content: IcebergDeleteFileContent, data_sequence_number: i64) -> IcebergDeleteFile {
    IcebergDeleteFile {
        content,
        path: path.to_string(),
        format: IcebergFileFormat::Parquet,
        record_count: 1,
        file_size_in_bytes: 64,
        equality_field_ids: Vec::new(),
        row_position_lower_bound: None,
        row_position_upper_bound: None,
        data_sequence_number,
        content_offset: None,
        content_size_in_bytes: None,
        referenced_data_file: None,
        decryption_data: None,
    }
}

fn position(path: &str, data_sequence_number: i64) -> IcebergDeleteFile {
    delete_file(path, IcebergDeleteFileContent::PositionDeletes, data_sequence_number)
}

fn vector(path: &str, data_sequence_number: i64, range: (i64, i64)) -> IcebergDeleteFile {
    let mut delete = position(path, data_sequence_number);
    delete.format = IcebergFileFormat::Puffin;
    delete.content_offset = Some(range.0);
    delete.content_size_in_bytes = Some(range.1);
    delete
}

fn equality(path: &str, data_sequence_number: i64, equality_field_ids: Vec<i32>) -> IcebergDeleteFile {
    let mut delete = delete_file(path, IcebergDeleteFileContent::EqualityDeletes, data_sequence_number);
    delete.equality_field_ids = equality_field_ids;
    delete
}

fn split_range(
    path: &str,
    start: i64,
    length: i64,
    data_sequence_number: Option<i64>,
    deletes: Vec<IcebergDeleteFile>,
) -> IcebergSplit {
    IcebergSplit {
        path: path.to_string(),
        start,
        length,
        file_size: 1024,
        file_record_count: 3,
        file_format: IcebergFileFormat::Parquet,
        partition_spec_id: 0,
        partition_data_json: "{}".to_string(),
        deletes,
        data_sequence_number,
        file_first_row_id: None,
        decryption_data: None,
        affinity_key: None,
    }
}

fn split_of(path: &str, data_sequence_number: Option<i64>, deletes: Vec<IcebergDeleteFile>) -> IcebergSplit {
    split_range(path, 0, 1024, data_sequence_number, deletes)
}

fn error_of<T>(result: Result<T, ConnectorError>) -> ConnectorError {
    match result {
        Ok(_) => panic!("a failure was expected"),
        Err(error) => error,
    }
}

fn ids(filter: &SplitDeleteFilter) -> Vec<i32> {
    filter.required_hidden_columns().iter().map(|column| column.base_field_id).collect()
}

#[test]
fn concurrent_opens_share_one_read_of_the_same_artifact() {
    let mut fixture = Fixture::new();
    fixture.write_positions("deletes.parquet", &[(DATA_FILE, 1)]);
    let schema = table_schema();
    let mode = DeleteEvaluationMode::ExcludeDeleted;
    let first = split_range(DATA_FILE, 0, 512, Some(1), vec![position("deletes.parquet", 9)]);
    let second = split_range(DATA_FILE, 512, 512, Some(1), vec![position("deletes.parquet", 9)]);

    let first_open = DeleteManager::open_split(&first, &schema, &mode).expect("open split");
    let first_claims = fixture.claim(&first, &first_open);
    let second_open = DeleteManager::open_split(&second, &schema, &mode).expect("open split");
    let second_claims = fixture.claim(&second, &second_open);
    assert_eq!(first_claims.0.positions, second_claims.0.positions);

    let filters = [
        fixture.finish(&first, &schema, &mode, first_open, first_claims).expect("first"),
        fixture.finish(&second, &schema, &mode, second_open, second_claims).expect("second"),
    ];
    for filter in &filters {
        let keep = fixture.evaluate(filter, &page(), &positions(&[0, 1, 2])).expect("evaluate");
        assert_eq!(keep, vec![true, false, true]);
    }
    assert_eq!(fixture.reads, 1, "the waiting split read nothing");
    assert_eq!(fixture.manager.loaded_artifacts(), 1);
}

#[test]
fn interleaved_equality_loads_under_one_key_keep_each_other() {
    let mut fixture = Fixture::new();
    fixture.write_ids("first.parquet", &[1]);
    fixture.write_ids("second.parquet", &[3]);
    let schema = table_schema();
    let mode = DeleteEvaluationMode::ExcludeDeleted;
    let first = split_of(DATA_FILE, Some(1), vec![equality("first.parquet", 4, vec![1])]);
    let second = split_of(OTHER_DATA_FILE, Some(1), vec![equality("second.parquet", 5, vec![1])]);

    let first_open = DeleteManager::open_split(&first, &schema, &mode).expect("open split");
    let first_claims = fixture.claim(&first, &first_open);
    let second_open = DeleteManager::open_split(&second, &schema, &mode).expect("open split");
    let second_claims = fixture.claim(&second, &second_open);

    // The later load publishes first.
    let second_filter = fixture.finish(&second, &schema, &mode, second_open, second_claims).expect("second");
    let first_filter = fixture.finish(&first, &schema, &mode, first_open, first_claims).expect("first");

    let published: Vec<usize> = fixture.manager.equality.iter().map(|index| index.artifacts.len()).collect();
    assert_eq!(published, vec![2], "both artifacts stay published");
    let rows = positions(&[0, 1, 2]);
    assert_eq!(fixture.evaluate(&first_filter, &page(), &rows).expect("evaluate"), vec![false, true, true]);
    assert_eq!(fixture.evaluate(&second_filter, &page(), &rows).expect("evaluate"), vec![true, true, false]);
    assert_eq!(fixture.manager.loaded_artifacts(), 2);
}

#[test]
fn an_abandoned_load_is_taken_over_by_the_next_split() {
    let mut fixture = Fixture::new();
    fixture.write_positions("deletes.parquet", &[(DATA_FILE, 2)]);
    let schema = table_schema();
    let mode = DeleteEvaluationMode::ExcludeDeleted;
    let split = split_of(DATA_FILE, Some(1), vec![position("deletes.parquet", 9)]);

    let abandoned = DeleteManager::open_split(&split, &schema, &mode).expect("open split");
    let claims = fixture.claim(&split, &abandoned);
    assert_eq!(fixture.manager.begin(claims.0.positions[0]), LoadStep::Run);
    assert_eq!(fixture.manager.loaded_artifacts(), 0);

    let filter = fixture.open_split(&split, &schema, &mode).expect("the next split loads the artifact itself");
    let keep = fixture.evaluate(&filter, &page(), &positions(&[0, 1, 2])).expect("evaluate");
    assert_eq!(keep, vec![true, true, false]);
    assert_eq!(fixture.manager.loaded_artifacts(), 1);
}

#[test]
fn a_delete_applies_only_above_the_data_sequence_number() {
    let mut fixture = Fixture::new();
    fixture.write_positions("stale.parquet", &[(DATA_FILE, 0)]);
    fixture.write_positions("fresh.parquet", &[(DATA_FILE, 2)]);
    let split = split_of(DATA_FILE, Some(5), vec![position("stale.parquet", 5), position("fresh.parquet", 6)]);
    let filter = fixture
        .open_split(&split, &table_schema(), &DeleteEvaluationMode::ExcludeDeleted)
        .expect("open split");
    let keep = fixture.evaluate(&filter, &page(), &positions(&[0, 1, 2])).expect("evaluate");
    assert_eq!(keep, vec![true, true, false]);
    assert_eq!(fixture.manager.loaded_artifacts(), 1);
}

#[test]
fn an_equality_delete_without_a_data_sequence_number_is_corrupt_data() {
    let mut fixture = Fixture::new();
    fixture.write_ids("equality.parquet", &[2]);
    let split = split_of(DATA_FILE, None, vec![equality("equality.parquet", 7, vec![1])]);
    let error = error_of(fixture.open_split(&split, &table_schema(), &DeleteEvaluationMode::ExcludeDeleted));
    assert_eq!(error.kind(), ConnectorErrorKind::CorruptData);
    assert_eq!(error, ConnectorError::Corrupt(CorruptData::DataSequenceMissing));
    assert_eq!(fixture.manager.loaded_artifacts(), 0);
}

#[test]
fn one_delete_path_loads_once_for_two_splits_of_the_same_file() {
    let mut fixture = Fixture::new();
    fixture.write_positions("deletes.parquet", &[(DATA_FILE, 1)]);
    let schema = table_schema();
    let mode = DeleteEvaluationMode::ExcludeDeleted;
    let first = split_range(DATA_FILE, 0, 512, Some(1), vec![position("deletes.parquet", 9)]);
    let second = split_range(DATA_FILE, 512, 512, Some(1), vec![position("deletes.parquet", 9)]);

    let first = fixture.open_split(&first, &schema, &mode).expect("open first split");
    assert_eq!(fixture.manager.loaded_artifacts(), 1);
    let second = fixture.open_split(&second, &schema, &mode).expect("open second split");
    assert_eq!(fixture.manager.loaded_artifacts(), 1);

    for filter in [&first, &second] {
        let keep = fixture.evaluate(filter, &page(), &positions(&[0, 1, 2])).expect("evaluate");
        assert_eq!(keep, vec![true, false, true]);
    }
}

#[test]
fn position_deletes_match_absolute_positions_of_their_own_data_file() {
    let mut fixture = Fixture::new();
    fixture.write_positions("deletes.parquet", &[(DATA_FILE, 2), (OTHER_DATA_FILE, 1), (DATA_FILE, 5)]);
    let schema = table_schema();
    let mode = DeleteEvaluationMode::ExcludeDeleted;

    let mine = split_of(DATA_FILE, Some(1), vec![position("deletes.parquet", 9)]);
    let filter = fixture.open_split(&mine, &schema, &mode).expect("open split");
    let keep = fixture.evaluate(&filter, &page(), &positions(&[0, 1, 2])).expect("evaluate");
    assert_eq!(keep, vec![true, true, false]);

    let filter = fixture.open_split(&mine, &schema, &mode).expect("reopen split");
    let keep = fixture.evaluate(&filter, &page(), &positions(&[4, 5, 6])).expect("evaluate");
    assert_eq!(keep, vec![true, false, true]);

    let theirs = split_of(OTHER_DATA_FILE, Some(1), vec![position("deletes.parquet", 9)]);
    let filter = fixture.open_split(&theirs, &schema, &mode).expect("open other split");
    let keep = fixture.evaluate(&filter, &page(), &positions(&[0, 1, 2])).expect("evaluate");
    assert_eq!(keep, vec![true, false, true]);
}

#[test]
fn row_position_bounds_prune_safely_and_never_delete() {
    let mut fixture = Fixture::new();
    fixture.write_positions("deletes.parquet", &[(OTHER_DATA_FILE, 50), (OTHER_DATA_FILE, 60)]);
    let mut bounded = position("deletes.parquet", 9);
    bounded.row_position_lower_bound = Some(50);
    bounded.row_position_upper_bound = Some(60);
    let split = split_of(DATA_FILE, Some(1), vec![bounded]);
    let filter = fixture
        .open_split(&split, &table_schema(), &DeleteEvaluationMode::ExcludeDeleted)
        .expect("open split");

    assert_eq!(fixture.manager.loaded_artifacts(), 0);
    assert!(filter.is_empty());
    let keep = fixture.evaluate(&filter, &page(), &positions(&[0, 1, 2])).expect("evaluate");
    assert_eq!(keep, vec![true, true, true]);
    assert!(row_position_bounds_exclude_file(&split.deletes[0], split.file_record_count));
}

#[test]
fn one_deletion_vector_applies_and_a_second_one_fails_closed() {
    let mut fixture = Fixture::new();
    fixture.write_vector("first.puffin", &[1]);
    fixture.write_vector("second.puffin", &[2]);
    let schema = table_schema();
    let mode = DeleteEvaluationMode::ExcludeDeleted;

    let single = split_of(DATA_FILE, Some(1), vec![vector("first.puffin", 9, (24, 40))]);
    let filter = fixture.open_split(&single, &schema, &mode).expect("open split");
    let keep = fixture.evaluate(&filter, &page(), &positions(&[0, 1, 2])).expect("evaluate");
    assert_eq!(keep, vec![true, false, true]);

    let two = split_of(
        DATA_FILE,
        Some(1),
        vec![vector("first.puffin", 9, (24, 40)), vector("second.puffin", 10, (8, 40))],
    );
    let error = error_of(fixture.open_split(&two, &schema, &mode));
    assert_eq!(error.kind(), ConnectorErrorKind::CorruptData);
    assert_eq!(error, ConnectorError::Corrupt(CorruptData::SecondDeletionVector));
}

#[test]
fn a_deletion_vector_beside_a_position_delete_file_fails_closed() {
    let mut fixture = Fixture::new();
    fixture.write_vector("dv.puffin", &[1]);
    fixture.write_positions("positions.parquet", &[(DATA_FILE, 2)]);
    let split = split_of(
        DATA_FILE,
        Some(1),
        vec![vector("dv.puffin", 9, (16, 40)), position("positions.parquet", 9)],
    );
    let error = error_of(fixture.open_split(&split, &table_schema(), &DeleteEvaluationMode::ExcludeDeleted));
    assert_eq!(error.kind(), ConnectorErrorKind::CorruptData);
    assert_eq!(error, ConnectorError::Corrupt(CorruptData::VectorBesidePositionFiles));
}

#[test]
fn an_equality_field_id_outside_the_schema_is_corrupt_data() {
    let mut fixture = Fixture::new();
    fixture.write_ids("equality.parquet", &[2]);
    let split = split_of(DATA_FILE, Some(1), vec![equality("equality.parquet", 9, vec![99])]);
    let error = error_of(fixture.open_split(&split, &table_schema(), &DeleteEvaluationMode::ExcludeDeleted));
    assert_eq!(error.kind(), ConnectorErrorKind::CorruptData);
    assert_eq!(error, ConnectorError::Corrupt(CorruptData::EqualityFieldNotTopLevel));
    assert_eq!(fixture.manager.loaded_artifacts(), 0);
}

#[test]
fn equality_keys_and_hidden_columns_follow_the_table_schema_order() {
    let mut fixture = Fixture::new();
    fixture
        .artifacts
        .insert("equality.parquet".to_string(), Artifact::Keys(vec![(Some("beta".to_string()), 2)]));
    let split = split_of(DATA_FILE, Some(1), vec![equality("equality.parquet", 9, vec![3, 1])]);
    let schema = table_schema();
    let mode = DeleteEvaluationMode::ExcludeDeleted;

    let preview = DeleteManager::preview_hidden_columns(&split, &schema, &mode).expect("preview equality columns");
    let preview: Vec<i32> = preview.iter().map(|column| column.base_field_id).collect();
    assert_eq!(preview, vec![1, 3]);
    assert_eq!(fixture.manager.loaded_artifacts(), 0);

    let filter = fixture.open_split(&split, &schema, &mode).expect("open split");
    assert_eq!(ids(&filter), vec![1, 3]);
    let keys: Vec<Vec<i32>> = fixture
        .manager
        .equality
        .iter()
        .map(|index| index.equality_field_ids.clone())
        .collect();
    assert_eq!(keys, vec![vec![1, 3]]);

    let page = Page { ids: vec![1, 2, 3], kinds: vec!["beta", "beta", "beta"] };
    let keep = fixture.evaluate(&filter, &page, &positions(&[0, 1, 2])).expect("evaluate");
    assert_eq!(keep, vec![true, false, true]);
}

#[test]
fn the_manager_tracks_the_highest_loaded_sequence_per_equality_key() {
    let mut fixture = Fixture::new();
    fixture.write_ids("older.parquet", &[1]);
    fixture.write_ids("newer.parquet", &[3]);
    let split = split_of(
        DATA_FILE,
        Some(1),
        vec![equality("older.parquet", 4, vec![1]), equality("newer.parquet", 11, vec![1])],
    );
    let filter = fixture
        .open_split(&split, &table_schema(), &DeleteEvaluationMode::ExcludeDeleted)
        .expect("open split");
    let highest: Vec<Option<i64>> =
        fixture.manager.equality.iter().map(|index| index.highest_loaded_sequence).collect();
    assert_eq!(highest, vec![Some(11)]);
    let keep = fixture.evaluate(&filter, &page(), &positions(&[0, 1, 2])).expect("evaluate");
    assert_eq!(keep, vec![false, true, false]);
}

#[test]
fn equality_match_only_inverts_the_equality_verdict_and_nothing_else() {
    let mut fixture = Fixture::new();
    fixture.write_ids("equality.parquet", &[2]);
    fixture.write_positions("positions.parquet", &[(DATA_FILE, 0)]);
    let schema = table_schema();
    let split = split_of(
        DATA_FILE,
        Some(1),
        vec![equality("equality.parquet", 9, vec![1]), position("positions.parquet", 9)],
    );

    let exclude = fixture.open_split(&split, &schema, &DeleteEvaluationMode::ExcludeDeleted).expect("open split");
    let keep = fixture.evaluate(&exclude, &page(), &positions(&[0, 1, 2])).expect("evaluate");
    assert_eq!(keep, vec![false, false, true]);

    let matched = fixture.open_split(&split, &schema, &DeleteEvaluationMode::EqualityMatchOnly).expect("open split");
    let keep = fixture.evaluate(&matched, &page(), &positions(&[0, 1, 2])).expect("evaluate");
    assert_eq!(keep, vec![false, true, false]);
}

#[test]
fn a_split_without_equality_deletes_needs_no_hidden_columns() {
    let mut fixture = Fixture::new();
    fixture.write_positions("deletes.parquet", &[(DATA_FILE, 1)]);
    let schema = table_schema();
    let exclude = DeleteEvaluationMode::ExcludeDeleted;

    let with = split_of(DATA_FILE, Some(1), vec![position("deletes.parquet", 9)]);
    let with_positions = fixture.open_split(&with, &schema, &exclude).expect("open split");
    assert!(with_positions.required_hidden_columns().is_empty());
    assert!(!with_positions.is_empty());

    let without = split_of(DATA_FILE, Some(1), Vec::new());
    let without_deletes = fixture.open_split(&without, &schema, &exclude).expect("open split");
    assert!(without_deletes.required_hidden_columns().is_empty());
    assert!(without_deletes.is_empty());

    let reverse = fixture
        .open_split(&without, &schema, &DeleteEvaluationMode::EqualityMatchOnly)
        .expect("open split");
    assert!(!reverse.is_empty());
    let keep = fixture.evaluate(&reverse, &page(), &positions(&[0, 1, 2])).expect("evaluate");
    assert_eq!(keep, vec![false, false, false]);
}

#[test]
fn an_oversized_delete_set_is_rejected_by_the_cost_bound() {
    const THREE_HUNDRED_MIB: i64 = 300 * 1024 * 1024;
    let mut fixture = Fixture::new();
    fixture.write_positions("deletes.parquet", &[(DATA_FILE, 1)]);
    let sized = |sequence: i64| {
        let mut delete = position("deletes.parquet", sequence);
        delete.file_size_in_bytes = THREE_HUNDRED_MIB;
        delete
    };
    let split = split_of(DATA_FILE, Some(1), vec![sized(9), sized(10)]);
    let error = error_of(fixture.open_split(&split, &table_schema(), &DeleteEvaluationMode::ExcludeDeleted));
    assert_eq!(error.kind(), ConnectorErrorKind::ResourceExhausted);
    assert_eq!(error, ConnectorError::Exhausted(ResourceLimit::DeleteBytes));
    assert_eq!(fixture.manager.loaded_artifacts(), 0);
}

#[test]
fn a_page_whose_positions_do_not_match_its_rows_is_corrupt_data() {
    let mut fixture = Fixture::new();
    fixture.write_positions("deletes.parquet", &[(DATA_FILE, 1)]);
    let split = split_of(DATA_FILE, Some(1), vec![position("deletes.parquet", 9)]);
    let filter = fixture
        .open_split(&split, &table_schema(), &DeleteEvaluationMode::ExcludeDeleted)
        .expect("open split");
    let error = error_of(fixture.evaluate(&filter, &page(), &positions(&[0, 1])));
    assert_eq!(error.kind(), ConnectorErrorKind::CorruptData);
    assert_eq!(error, ConnectorError::Corrupt(CorruptData::PositionCount));
}

#[test]
fn a_named_selection_keeps_the_newly_deleted_rows_minus_what_was_already_gone() {
    let mut fixture = Fixture::new();
    fixture.write_positions("previously.parquet", &[(DATA_FILE, 0)]);
    fixture.write_positions("newly.parquet", &[(DATA_FILE, 0), (DATA_FILE, 2)]);
    let mode = DeleteEvaluationMode::SelectRemovedRows {
        selected: RemovedRowSelection::NamedBy(vec![position("newly.parquet", 7)]),
        previously_applied: vec![position("previously.parquet", 6)],
    };
    let split = split_of(DATA_FILE, Some(5), Vec::new());
    let filter = fixture.open_split(&split, &table_schema(), &mode).expect("open split");
    let keep = fixture.evaluate(&filter, &page(), &positions(&[0, 1, 2])).expect("evaluate");
    assert_eq!(keep, vec![false, false, true]);
    assert!(!filter.is_empty());
}

#[test]
fn a_whole_file_selection_subtracts_a_previously_applied_equality_delete() {
    let mut fixture = Fixture::new();
    fixture.write_ids("previously.parquet", &[2]);
    let mode = DeleteEvaluationMode::SelectRemovedRows {
        selected: RemovedRowSelection::WholeFile,
        previously_applied: vec![equality("previously.parquet", 6, vec![1])],
    };
    let split = split_of(DATA_FILE, Some(5), Vec::new());
    let filter = fixture.open_split(&split, &table_schema(), &mode).expect("open split");
    assert_eq!(filter.required_hidden_columns().len(), 1);
    let keep = fixture.evaluate(&filter, &page(), &positions(&[0, 1, 2])).expect("evaluate");
    assert_eq!(keep, vec![true, false, true]);
}

#[test]
fn a_whole_file_selection_with_nothing_already_applied_filters_nothing() {
    let mut fixture = Fixture::new();
    let mode = DeleteEvaluationMode::SelectRemovedRows {
        selected: RemovedRowSelection::WholeFile,
        previously_applied: Vec::new(),
    };
    let split = split_of(DATA_FILE, Some(5), Vec::new());
    let filter = fixture.open_split(&split, &table_schema(), &mode).expect("open split");
    assert!(filter.is_empty());
    assert_eq!(fixture.manager.loaded_artifacts(), 0);
}

#[test]
fn a_reverse_side_split_that_also_carries_an_exclusion_closure_is_rejected() {
    let mut fixture = Fixture::new();
    fixture.write_positions("deletes.parquet", &[(DATA_FILE, 1)]);
    let mode = DeleteEvaluationMode::SelectRemovedRows {
        selected: RemovedRowSelection::WholeFile,
        previously_applied: Vec::new(),
    };
    let split = split_of(DATA_FILE, Some(5), vec![position("deletes.parquet", 6)]);
    let error = error_of(fixture.open_split(&split, &table_schema(), &mode));
    assert_eq!(error.kind(), ConnectorErrorKind::InvalidRequest);
    assert_eq!(error, ConnectorError::Invalid(InvalidRequest::ReverseSplitCarriesDeletes));
    assert_eq!(fixture.manager.loaded_artifacts(), 0);
}

#[test]
fn a_rewritten_deletion_vector_emits_only_newly_hidden_rows() {
    let mut fixture = Fixture::new();
    fixture.write_vector("previously.puffin", &[0]);
    fixture.write_vector("newly.puffin", &[0, 2]);
    let mode = DeleteEvaluationMode::SelectRemovedRows {
        selected: RemovedRowSelection::NamedBy(vec![vector("newly.puffin", 7, (4, 40))]),
        previously_applied: vec![vector("previously.puffin", 6, (4, 40))],
    };
    let split = split_of(DATA_FILE, Some(5), Vec::new());
    let filter = fixture.open_split(&split, &table_schema(), &mode).expect("one closure per endpoint");
    let keep = fixture.evaluate(&filter, &page(), &positions(&[0, 1, 2])).expect("evaluate");
    assert_eq!(keep, vec![false, false, true]);
}

#[test]
fn a_failed_artifact_fails_every_split_and_a_stopped_read_only_its_own() {
    let mut fixture = Fixture::new();
    fixture.write_positions("deletes.parquet", &[(DATA_FILE, 1)]);
    let schema = table_schema();
    let mode = DeleteEvaluationMode::ExcludeDeleted;
    let split = split_of(DATA_FILE, Some(1), vec![position("deletes.parquet", 9)]);
    let open = DeleteManager::open_split(&split, &schema, &mode).expect("open split");
    let slot = fixture.claim(&split, &open).0.positions[0];

    // The read was cancelled: the next split loads the artifact itself.
    let cancelled = ConnectorError::Reported(ConnectorErrorKind::Cancelled);
    let corrupt = ConnectorError::Reported(ConnectorErrorKind::CorruptData);
    assert_eq!(fixture.manager.settle(slot, Err(corrupt), Some(cancelled)), Err(cancelled));
    assert!(matches!(fixture.manager.loads[slot].state, LoadState::Pending));
    assert_eq!(fixture.manager.pending_slots(&vec![slot]), vec![slot]);

    // The artifact itself is at fault: so it stays.
    assert_eq!(fixture.manager.settle(slot, Err(corrupt), None), Err(corrupt));
    assert_eq!(fixture.manager.begin(slot), LoadStep::Refuse(corrupt));
    assert_eq!(error_of(fixture.open_split(&split, &schema, &mode)), corrupt);
    assert_eq!(fixture.manager.loaded_artifacts(), 0);
    assert!(fixture.manager.pending_slots(&vec![slot]).is_empty());
}

#[test]
fn merged_positions_are_the_union_of_the_parts() {
    let part = |positions: &[u64]| Arc::new(positions.iter().copied().collect::<RoaringTreemap>());
    let merged = merged_positions(vec![part(&[1, 4]), part(&[4, 9])]);
    assert_eq!(merged.iter().collect::<Vec<u64>>(), vec![1, 4, 9]);
    let shared = part(&[7]);
    assert!(Arc::ptr_eq(&merged_positions(vec![shared.clone()]), &shared));
    assert!(merged_positions(Vec::new()).is_empty());

    let resolved = ResolvedDeletes { deleted_positions: merged, equality: Vec::new() };
    assert!(!resolved.is_empty());
    assert!(resolved.names_position(9));
    assert!(!resolved.names_position(2));
}

#[test]
fn delete_files_are_read_as_they_are_described() {
    let described = vector("dv.puffin", 9, (4, 40));
    let spec = physical_delete_spec(&described).expect("spec");
    assert_eq!(spec.path, "dv.puffin");
    assert_eq!(spec.file_format, IcebergFileFormat::Puffin);
    assert_eq!(spec.length, Some(64));
    assert_eq!(spec.content_offset, Some(4));
    assert_eq!(spec.content_size_in_bytes, Some(40));
    assert_eq!(spec.referenced_data_file, None);

    let mut negative = position("p.parquet", 9);
    negative.file_size_in_bytes = -1;
    assert_eq!(
        error_of(physical_delete_spec(&negative)),
        ConnectorError::Corrupt(CorruptData::NegativeDeleteSize)
    );
    let mut avro = position("p.avro", 9);
    avro.format = IcebergFileFormat::Avro;
    assert_eq!(
        error_of(physical_delete_spec(&avro)),
        ConnectorError::Unsupported(UnsupportedFeature::DeleteFormat)
    );
}

#[test]
fn a_key_set_has_to_be_exactly_one_and_a_verdict_has_to_cover_the_page() {
    let delete = equality("e.parquet", 3, vec![1]);
    assert_eq!(
        error_of(loaded_equality_delete(&delete, &vec![])),
        ConnectorError::Corrupt(CorruptData::EqualityKeySets)
    );
    let loaded = loaded_equality_delete(&delete, &vec![8]).expect("one set");
    assert_eq!((loaded.key_set, loaded.data_sequence_number), (8, 3));

    let filter = SplitDeleteFilter {
        verdict: FilterVerdict::ExcludeDeleted(ResolvedDeletes {
            deleted_positions: Arc::new(RoaringTreemap::new()),
            equality: vec![loaded],
        }),
        data_file_path: DATA_FILE.to_string(),
        hidden_columns: Vec::new(),
    };
    let with = |mask: EqualityMask| PageMasks { applied: vec![mask], previously: Vec::new() };
    let rows = positions(&[0, 1]);
    assert_eq!(
        filter.evaluate(2, &rows, &with(EqualityMask::Failed)),
        Err(ConnectorError::Corrupt(CorruptData::EqualityDeleteNotApplied))
    );
    assert_eq!(
        filter.evaluate(2, &rows, &with(EqualityMask::Keep(vec![true]))),
        Err(ConnectorError::Corrupt(CorruptData::EqualityVerdictLength))
    );
    assert_eq!(filter.evaluate(2, &rows, &with(EqualityMask::Absent)), Ok(vec![true, true]));
    assert_eq!(
        filter.evaluate(2, &vec![Some(0), None], &with(EqualityMask::Absent)),
        Err(ConnectorError::Corrupt(CorruptData::PositionMissing))
    );
    // One mask for each equality delete, no less and no more.
    let none = PageMasks { applied: Vec::new(), previously: Vec::new() };
    assert_eq!(
        filter.evaluate(2, &rows, &none),
        Err(ConnectorError::Internal(InternalFault::EqualityMaskCount))
    );
    let two = PageMasks { applied: vec![EqualityMask::Absent, EqualityMask::Absent], previously: Vec::new() };
    assert_eq!(
        filter.evaluate(2, &rows, &two),
        Err(ConnectorError::Internal(InternalFault::EqualityMaskCount))
    );
    assert_eq!(filter.evaluate(0, &Vec::new(), &none), Ok(Vec::new()));
}

#[test]
fn a_filter_of_nothing_keeps_every_row_and_a_selection_of_nothing_none() {
    let nothing = || ResolvedDeletes { deleted_positions: Arc::new(RoaringTreemap::new()), equality: Vec::new() };
    let filter = |verdict: FilterVerdict| SplitDeleteFilter {
        verdict,
        data_file_path: DATA_FILE.to_string(),
        hidden_columns: Vec::new(),
    };
    let masks = PageMasks { applied: Vec::new(), previously: Vec::new() };
    let rows = positions(&[0, 1, 2]);

    let excluding = filter(FilterVerdict::ExcludeDeleted(nothing()));
    assert!(excluding.is_empty());
    assert_eq!(excluding.evaluate(3, &rows, &masks), Ok(vec![true, true, true]));

    let matching = filter(FilterVerdict::EqualityMatchOnly(nothing()));
    let naming = filter(FilterVerdict::SelectRemovedRows {
        selected: SelectedRows::NamedBy(nothing()),
        previously_applied: nothing(),
    });
    for selecting in [matching, naming] {
        assert!(!selecting.is_empty());
        assert_eq!(selecting.evaluate(3, &rows, &masks), Ok(vec![false, false, false]));
    }
}

#[test]
fn a_split_is_not_finished_before_its_artifacts_are_there() {
    let mut fixture = Fixture::new();
    fixture.write_positions("positions.parquet", &[(DATA_FILE, 1)]);
    let schema = table_schema();
    let mode = DeleteEvaluationMode::ExcludeDeleted;
    let split = split_of(
        DATA_FILE,
        Some(1),
        vec![position("positions.parquet", 9), equality("ids.parquet", 8, vec![1])],
    );
    let open = DeleteManager::open_split(&split, &schema, &mode).expect("open split");
    let claims = fixture.claim(&split, &open);
    let positions = Arc::new([1_u64].into_iter().collect::<RoaringTreemap>());
    fixture
        .manager
        .settle(claims.0.positions[0], Ok(LoadedArtifact::Positions(positions)), None)
        .expect("positions");
    assert!(fixture.manager.loaded_side(&split, &open.scope, &open.applied, &claims.0).is_none());
    assert!(fixture.manager.loaded_side(&split, &open.scope, &open.previously, &claims.1).is_some());
    assert!(fixture.manager.finish_split(&split, &schema, &mode, open, &claims.0, &claims.1).is_none());
    assert!(fixture.manager.equality.is_empty());
    assert_eq!(fixture.manager.loaded_artifacts(), 1);
}

#[test]
fn a_second_open_of_a_file_reads_nothing_and_judges_the_same() {
    let mut fixture = Fixture::new();
    fixture.write_positions("positions.parquet", &[(DATA_FILE, 1)]);
    fixture.write_positions("stale.parquet", &[(DATA_FILE, 0)]);
    fixture.write_ids("ids.parquet", &[3]);
    let schema = table_schema();
    let mode = DeleteEvaluationMode::ExcludeDeleted;
    let deletes = || {
        vec![
            position("positions.parquet", 9),
            position("stale.parquet", 5),
            equality("ids.parquet", 8, vec![1]),
        ]
    };
    let first = split_range(DATA_FILE, 0, 512, Some(5), deletes());
    let second = split_range(DATA_FILE, 512, 512, Some(5), deletes());

    let rows = positions(&[0, 1, 2]);
    let filter = fixture.open_split(&first, &schema, &mode).expect("first open");
    let keep = fixture.evaluate(&filter, &page(), &rows).expect("evaluate");
    assert_eq!(keep, vec![true, false, false]);
    assert_eq!((fixture.reads, fixture.manager.loaded_artifacts(), fixture.manager.loads.len()), (2, 2, 2));

    let filter = fixture.open_split(&second, &schema, &mode).expect("second open");
    assert_eq!(fixture.evaluate(&filter, &page(), &rows).expect("evaluate"), keep);
    assert_eq!((fixture.reads, fixture.manager.loaded_artifacts(), fixture.manager.loads.len()), (2, 2, 2));
}
