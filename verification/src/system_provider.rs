//! The system relations as materialized columns: which schema a relation has, which of its columns
//! a scan takes, and what stands in them.
//!
//! The program loads the frozen metadata; nothing here reads a file.

use vstd::prelude::*;

use crate::carrier::{field_models, CarrierModel, Field};
use crate::column::{column_models, Column, ColumnModel};
use crate::column_handle::IcebergColumnHandle;
use crate::error::{ConnectorError, CorruptData, InvalidRequest};
use crate::files_relation::{entries_column, entries_columns, files_column, files_columns};
use crate::partition::{spec_models, PartitionSpec};
use crate::partitions_relation::{partitions_column, partitions_columns};
use crate::partitions_view::{aggregate_models, aggregated, sums_fit, try_aggregate_partitions, PartitionAggregate};
use crate::relation_columns::plain_columns;
use crate::seqs::total;
use crate::snapshot_relations::{history_columns, history_row, manifests_column, manifests_columns, public_refs, refs_columns, reported, snapshot_rows, snapshots_columns, HistoryEntry, ListedManifest, RefFacts, RefRow, SnapshotFacts, SnapshotRow};
use crate::system_columns::columns_result;
use crate::system_page_source::{projected_memory, projection_in_range, IcebergSystemPageSource, is_snapshot_row, read_snapshot_file_rows, snapshot_fault, snapshot_positions};
use crate::system_rows::{first_fault, is_row_of, kept_positions, manifest_rows, EntryStatusRule, FileRow, ManifestEntry, TrinoManifestFile};
use crate::system_schema::{partitions_view_model, partitions_view_schema, position_named, project_system_relation_columns, relation_model, system_relation_schema, IcebergSystemTableType};
use crate::types::Schema;

verus! {

/// The frozen metadata of a table, as it was loaded.
pub struct TableFacts<'a> {
    pub schema: &'a Schema,
    pub specs: &'a Vec<PartitionSpec>,
    pub snapshots: &'a Vec<SnapshotFacts>,
    pub history: &'a Vec<HistoryEntry>,
    pub current_snapshot_id: Option<i64>,
    pub refs: &'a Vec<RefFacts>,
    pub publication_fence_ref: &'a String,
    /// The manifests of the pinned snapshot.
    pub manifests: &'a Vec<ListedManifest>,
    /// The entries of each of them. Only relations of file rows need them.
    pub loaded: &'a Vec<Vec<ManifestEntry>>,
}

/// A materialized relation and the columns that a scan takes of it.
pub struct SystemRelation {
    pub schema: Vec<Field>,
    pub columns: Vec<Column>,
    pub projection: Vec<usize>,
    pub row_count: usize,
}

/// Whether columns, or a failure, are what a rule makes of the fields of a schema, one by one.
pub open spec fn is_columns_of(
    rule: spec_fn(CarrierModel) -> Result<ColumnModel, ConnectorError>,
    schema: Seq<CarrierModel>,
    columns: Result<Seq<ColumnModel>, ConnectorError>,
) -> bool {
    match columns {
        Ok(list) => list.len() == schema.len() && forall|i: int|
            0 <= i < schema.len() ==> Ok::<ColumnModel, ConnectorError>(#[trigger] list[i]) == rule(
                schema[i],
            ),
        Err(error) => exists|i: int|
            0 <= i < schema.len() && rule(#[trigger] schema[i]) == Err::<
                ColumnModel,
                ConnectorError,
            >(error) && forall|k: int| 0 <= k < i ==> rule(#[trigger] schema[k]) is Ok,
    }
}

proof fn lemma_is_columns_of(
    rule: spec_fn(CarrierModel) -> Result<ColumnModel, ConnectorError>,
    schema: Seq<Field>,
    columns: Result<Vec<Column>, ConnectorError>,
)
    requires
        match columns {
            Ok(list) => list@.len() == schema.len() && forall|i: int|
                0 <= i < schema.len() ==> Ok::<ColumnModel, ConnectorError>(
                    (#[trigger] list@[i]).model(),
                ) == rule(schema[i].model()),
            Err(error) => exists|i: int|
                0 <= i < schema.len() && rule((#[trigger] schema[i]).model()) == Err::<
                    ColumnModel,
                    ConnectorError,
                >(error) && forall|k: int|
                    0 <= k < i ==> rule((#[trigger] schema[k]).model()) is Ok,
        },
    ensures
        is_columns_of(rule, field_models(schema), columns_result(columns)),
{
    let models = field_models(schema);
    match columns {
        Ok(list) => {
            let made = column_models(list@);
            assert forall|i: int| 0 <= i < models.len() implies Ok::<ColumnModel, ConnectorError>(
                #[trigger] made[i],
            ) == rule(models[i]) by {
                assert(made[i] == list@[i].model());
            }
        },
        Err(error) => {
            let i = choose|i: int|
                0 <= i < schema.len() && rule((#[trigger] schema[i]).model()) == Err::<
                    ColumnModel,
                    ConnectorError,
                >(error) && forall|k: int|
                    0 <= k < i ==> rule((#[trigger] schema[k]).model()) is Ok;
            assert(rule(models[i]) == Err::<ColumnModel, ConnectorError>(error));
            assert forall|k: int| 0 <= k < i implies rule(#[trigger] models[k]) is Ok by {
                assert(rule(schema[k].model()) is Ok);
            }
        },
    }
}

/// Whether a scan names a column that a relation does not have.
pub open spec fn names_unknown_column(schema: Seq<CarrierModel>, columns: Seq<IcebergColumnHandle>) -> bool {
    exists|i: int|
        0 <= i < columns.len() && position_named(schema, (#[trigger] columns[i]).base_name@, 0) is None
}

/// Whether positions are those of the columns that a scan names.
pub open spec fn is_projection(schema: Seq<CarrierModel>, columns: Seq<IcebergColumnHandle>, projection: Seq<usize>) -> bool {
    projection.len() == columns.len() && forall|i: int|
        0 <= i < columns.len() ==> position_named(schema, (#[trigger] columns[i]).base_name@, 0)
            == Some(projection[i] as nat)
}

/// Whether rows are those of one manifest.
pub open spec fn is_manifest_listing(
    rows: Seq<FileRow>,
    manifest: TrinoManifestFile,
    entries: Seq<ManifestEntry>,
    spec: PartitionSpec,
    rule: EntryStatusRule,
) -> bool {
    let kept = kept_positions(entries, rule, entries.len());
    rows.len() == kept.len() && forall|k: int|
        0 <= k < kept.len() ==> is_row_of(
            #[trigger] rows[k],
            manifest,
            entries[kept[k]],
            kept[k],
            spec,
        )
}

/// Whether rows are those of the pinned snapshot.
pub open spec fn is_snapshot_listing(rows: Seq<FileRow>, facts: TableFacts, rule: EntryStatusRule) -> bool {
    let positions = snapshot_positions(facts.loaded@, rule, facts.loaded@.len());
    rows.len() == positions.len() && forall|k: int|
        0 <= k < rows.len() ==> is_snapshot_row(
            #[trigger] rows[k],
            facts.manifests@,
            facts.loaded@,
            facts.specs@,
            positions[k],
        )
}

/// The fault of the rows of the pinned snapshot, where they have one.
pub open spec fn listing_fault(facts: TableFacts, rule: EntryStatusRule) -> Option<ConnectorError> {
    snapshot_fault(facts.manifests@, facts.loaded@, facts.specs@, rule, facts.manifests@.len())
}

/// The row count that the first column of a relation states.
pub open spec fn first_length(columns: Seq<ColumnModel>) -> nat {
    if columns.len() == 0 {
        0
    } else {
        columns[0].spec_len()
    }
}

fn first_column_length(columns: &Vec<Column>) -> (length: usize)
    ensures
        length == first_length(column_models(columns@)),
{
    if columns.len() == 0 {
        0
    } else {
        assert(column_models(columns@)[0] == columns@[0].model());
        columns[0].len()
    }
}

/// Whether columns and a row count, or a failure, are what a relation holds under its schema.
/// `$files` is not read this way: it arrives as splits.
pub open spec fn is_content_of(
    relation: IcebergSystemTableType,
    facts: TableFacts,
    schema: Seq<CarrierModel>,
    content: Result<(Seq<ColumnModel>, nat), ConnectorError>,
) -> bool {
    let columns = match content {
        Ok((columns, _)) => Ok(columns),
        Err(error) => Err(error),
    };
    match relation {
        IcebergSystemTableType::Files => columns == Err::<Seq<ColumnModel>, ConnectorError>(
            ConnectorError::Invalid(InvalidRequest::DistributedSystemRelation),
        ),
        IcebergSystemTableType::Entries => {
            let fault = listing_fault(facts, EntryStatusRule::KeepDeleted);
            if fault is Some {
                columns == Err::<Seq<ColumnModel>, ConnectorError>(fault->0)
            } else {
                exists|rows: Seq<FileRow>|
                    {
                        &&& #[trigger] is_snapshot_listing(rows, facts, EntryStatusRule::KeepDeleted)
                        &&& is_columns_of(
                            |field: CarrierModel| entries_column(field, rows, facts.schema.entries()),
                            schema,
                            columns,
                        )
                        &&& content is Ok ==> content->Ok_0.1 == rows.len()
                    }
            }
        },
        IcebergSystemTableType::Snapshots => {
            &&& exists|rows: Seq<SnapshotRow>|
                snapshot_rows(rows) == facts.snapshots@.filter(reported()) && columns
                    == #[trigger] plain_columns(schema, rows, schema.len())
            &&& content is Ok ==> content->Ok_0.1 == first_length(content->Ok_0.0)
        },
        IcebergSystemTableType::History => {
            &&& columns == plain_columns(
                schema,
                facts.history@.map_values(
                    |entry: HistoryEntry|
                        history_row(entry, facts.snapshots@, facts.current_snapshot_id),
                ),
                schema.len(),
            )
            &&& content is Ok ==> content->Ok_0.1 == facts.history@.len()
        },
        IcebergSystemTableType::Refs => {
            let listed = public_refs(facts.refs, facts.publication_fence_ref@, facts.refs@.len());
            &&& exists|rows: Seq<RefRow>|
                {
                    &&& rows.len() == listed.len()
                    &&& forall|i: int|
                        0 <= i < rows.len() ==> (#[trigger] rows[i]).reference == listed[i].1
                    &&& columns == #[trigger] plain_columns(schema, rows, schema.len())
                }
            &&& content is Ok ==> content->Ok_0.1 == first_length(content->Ok_0.0)
        },
        IcebergSystemTableType::Manifests => {
            &&& is_columns_of(
                |field: CarrierModel|
                    manifests_column(
                        field,
                        facts.manifests@,
                        facts.specs@,
                        facts.schema.entries(),
                    ),
                schema,
                columns,
            )
            &&& content is Ok ==> content->Ok_0.1 == facts.manifests@.len()
        },
    }
}

/// The content of a relation, or why it has none, as a mathematical value.
pub open spec fn content_result(content: Result<(Vec<Column>, usize), ConnectorError>) -> Result<(Seq<ColumnModel>, nat), ConnectorError> {
    match content {
        Ok((columns, rows)) => Ok((column_models(columns@), rows as nat)),
        Err(error) => Err(error),
    }
}

/// The content of a relation that one backend reads.
pub fn single_backend_content(relation: IcebergSystemTableType, facts: &TableFacts<'_>, schema: &Vec<Field>) -> (content: Result<(Vec<Column>, usize), ConnectorError>)
    requires
        facts.manifests@.len() == facts.loaded@.len(),
    ensures
        is_content_of(relation, *facts, field_models(schema@), content_result(content)),
{
    match relation {
        IcebergSystemTableType::Files => Err(
            ConnectorError::Invalid(InvalidRequest::DistributedSystemRelation),
        ),
        IcebergSystemTableType::Entries => {
            let rows = match read_snapshot_file_rows(
                facts.manifests,
                facts.loaded,
                facts.specs,
                EntryStatusRule::KeepDeleted,
            ) {
                Ok(rows) => rows,
                Err(error) => return Err(error),
            };
            assert(is_snapshot_listing(rows@, *facts, EntryStatusRule::KeepDeleted));
            let columns = entries_columns(schema, &rows, facts.schema);
            proof {
                lemma_is_columns_of(
                    |field: CarrierModel| entries_column(field, rows@, facts.schema.entries()),
                    schema@,
                    columns,
                );
            }
            match columns {
                Ok(columns) => Ok((columns, rows.len())),
                Err(error) => Err(error),
            }
        },
        IcebergSystemTableType::Snapshots => {
            match snapshots_columns(schema, facts.snapshots) {
                Ok(columns) => {
                    let rows: usize = first_column_length(&columns);
                    Ok((columns, rows))
                },
                Err(error) => Err(error),
            }
        },
        IcebergSystemTableType::History => {
            match history_columns(schema, facts.history, facts.snapshots, facts.current_snapshot_id) {
                Ok(columns) => Ok((columns, facts.history.len())),
                Err(error) => Err(error),
            }
        },
        IcebergSystemTableType::Refs => {
            match refs_columns(schema, facts.refs, facts.publication_fence_ref) {
                Ok(columns) => {
                    let rows: usize = first_column_length(&columns);
                    Ok((columns, rows))
                },
                Err(error) => Err(error),
            }
        },
        IcebergSystemTableType::Manifests => {
            let columns = manifests_columns(schema, facts.manifests, facts.specs, facts.schema);
            proof {
                lemma_is_columns_of(
                    |field: CarrierModel|
                        manifests_column(
                            field,
                            facts.manifests@,
                            facts.specs@,
                            facts.schema.entries(),
                        ),
                    schema@,
                    columns,
                );
            }
            match columns {
                Ok(columns) => Ok((columns, facts.manifests.len())),
                Err(error) => Err(error),
            }
        },
    }
}

/// Whether a relation that a scan asked for, or a failure, is the right one: the schema is derived
/// first, then the columns of the scan are found in it, and only then is the content made.
pub open spec fn is_relation_of(
    schema: Result<Seq<CarrierModel>, ConnectorError>,
    columns: Seq<IcebergColumnHandle>,
    content: spec_fn(Seq<CarrierModel>, Result<(Seq<ColumnModel>, nat), ConnectorError>) -> bool,
    relation: Result<SystemRelation, ConnectorError>,
) -> bool {
    match (schema, relation) {
        (Err(error), relation) => relation == Err::<SystemRelation, ConnectorError>(error),
        (Ok(schema), Ok(relation)) => {
            &&& field_models(relation.schema@) == schema
            &&& !names_unknown_column(schema, columns)
            &&& is_projection(schema, columns, relation.projection@)
            &&& content(
                schema,
                Ok((column_models(relation.columns@), relation.row_count as nat)),
            )
        },
        (Ok(schema), Err(error)) => if names_unknown_column(schema, columns) {
            error == ConnectorError::Invalid(InvalidRequest::UnknownSystemColumn)
        } else {
            content(schema, Err(error))
        },
    }
}

/// Whether columns and a row count, or a failure, are the `$files` rows of one manifest.
pub open spec fn is_files_content(
    manifest: TrinoManifestFile,
    entries: Seq<ManifestEntry>,
    spec: PartitionSpec,
    table_schema: Schema,
    schema: Seq<CarrierModel>,
    content: Result<(Seq<ColumnModel>, nat), ConnectorError>,
) -> bool {
    let columns = match content {
        Ok((columns, _)) => Ok(columns),
        Err(error) => Err(error),
    };
    let fault = first_fault(entries, EntryStatusRule::SkipDeleted, spec, entries.len());
    if fault is Some {
        columns == Err::<Seq<ColumnModel>, ConnectorError>(fault->0)
    } else {
        exists|rows: Seq<FileRow>|
            {
                &&& #[trigger] is_manifest_listing(
                    rows,
                    manifest,
                    entries,
                    spec,
                    EntryStatusRule::SkipDeleted,
                )
                &&& is_columns_of(
                    |field: CarrierModel| files_column(field, rows, table_schema.entries()),
                    schema,
                    columns,
                )
                &&& content is Ok ==> content->Ok_0.1 == rows.len()
            }
    }
}

/// Whether columns and a row count, or a failure, are the partitions of the pinned snapshot. Null
/// and NaN counts that a signed column cannot hold make the snapshot corrupt.
pub open spec fn is_partitions_content(
    facts: TableFacts,
    schema: Seq<CarrierModel>,
    content: Result<(Seq<ColumnModel>, nat), ConnectorError>,
) -> bool {
    let columns = match content {
        Ok((columns, _)) => Ok(columns),
        Err(error) => Err(error),
    };
    let fault = listing_fault(facts, EntryStatusRule::SkipDeleted);
    if fault is Some {
        columns == Err::<Seq<ColumnModel>, ConnectorError>(fault->0)
    } else {
        exists|rows: Seq<FileRow>|
            {
                &&& #[trigger] is_snapshot_listing(rows, facts, EntryStatusRule::SkipDeleted)
                &&& if sums_fit(rows, rows.len()) {
                    exists|aggregates: Seq<PartitionAggregate>|
                        {
                            &&& #[trigger] aggregate_models(aggregates) == aggregated(
                                rows,
                                rows.len(),
                            )
                            &&& is_columns_of(
                                |field: CarrierModel|
                                    partitions_column(field, aggregates, facts.schema.entries()),
                                schema,
                                columns,
                            )
                            &&& content is Ok ==> content->Ok_0.1 == aggregates.len()
                        }
                } else {
                    columns == Err::<Seq<ColumnModel>, ConnectorError>(
                        ConnectorError::Corrupt(CorruptData::PartitionCountOverflow),
                    )
                }
            }
    }
}

/// The reader of the system relations of one fragment.
#[derive(Clone, Copy, Debug, PartialEq, Eq, Structural)]
pub struct IcebergSystemTableProvider {
    pub max_page_rows: usize,
}

impl IcebergSystemTableProvider {
    pub fn new(max_page_rows: usize) -> (provider: IcebergSystemTableProvider)
        ensures
            provider.max_page_rows == max_page_rows,
    {
        IcebergSystemTableProvider { max_page_rows }
    }

    /// The relation that one backend reads, with the columns that a scan takes of it.
    pub fn create_single_backend_page_source(
        &self,
        relation: IcebergSystemTableType,
        facts: &TableFacts<'_>,
        columns: &Vec<IcebergColumnHandle>,
    ) -> (source: Result<SystemRelation, ConnectorError>)
        requires
            facts.manifests@.len() == facts.loaded@.len(),
        ensures
            is_relation_of(
                relation_model(relation, facts.schema.model(), spec_models(facts.specs@)),
                columns@,
                |schema: Seq<CarrierModel>, content: Result<(Seq<ColumnModel>, nat), ConnectorError>|
                    is_content_of(relation, *facts, schema, content),
                source,
            ),
    {
        let schema = match system_relation_schema(relation, facts.schema, facts.specs.as_slice()) {
            Ok(schema) => schema,
            Err(error) => return Err(error),
        };
        let projection = match project_system_relation_columns(&schema, columns.as_slice()) {
            Ok(projection) => projection,
            Err(error) => return Err(error),
        };
        match single_backend_content(relation, facts, &schema) {
            Ok((columns, row_count)) => Ok(SystemRelation { schema, columns, projection, row_count }),
            Err(error) => Err(error),
        }
    }

    /// The `$files` rows of one manifest, with the columns that a scan takes of them. Deleted entries
    /// are no files.
    pub fn create_files_page_source(
        &self,
        table_schema: &Schema,
        specs: &Vec<PartitionSpec>,
        spec: &PartitionSpec,
        manifest: &TrinoManifestFile,
        entries: &Vec<ManifestEntry>,
        columns: &Vec<IcebergColumnHandle>,
    ) -> (source: Result<SystemRelation, ConnectorError>)
        ensures
            is_relation_of(
                relation_model(
                    IcebergSystemTableType::Files,
                    table_schema.model(),
                    spec_models(specs@),
                ),
                columns@,
                |schema: Seq<CarrierModel>, content: Result<(Seq<ColumnModel>, nat), ConnectorError>|
                    is_files_content(*manifest, entries@, *spec, *table_schema, schema, content),
                source,
            ),
    {
        let schema = match system_relation_schema(
            IcebergSystemTableType::Files,
            table_schema,
            specs.as_slice(),
        ) {
            Ok(schema) => schema,
            Err(error) => return Err(error),
        };
        let projection = match project_system_relation_columns(&schema, columns.as_slice()) {
            Ok(projection) => projection,
            Err(error) => return Err(error),
        };
        let rows = match manifest_rows(manifest, entries, spec, EntryStatusRule::SkipDeleted) {
            Ok(rows) => rows,
            Err(error) => return Err(error),
        };
        assert(is_manifest_listing(rows@, *manifest, entries@, *spec, EntryStatusRule::SkipDeleted));
        let made = files_columns(&schema, &rows, table_schema);
        proof {
            lemma_is_columns_of(
                |field: CarrierModel| files_column(field, rows@, table_schema.entries()),
                schema@,
                made,
            );
        }
        match made {
            Ok(columns) => Ok(SystemRelation { schema, columns, projection, row_count: rows.len() }),
            Err(error) => Err(error),
        }
    }

    /// The partitions of the pinned snapshot, with the columns that a scan takes of them. Every
    /// manifest of the snapshot takes part: an aggregate over one of them would describe a partition in
    /// part.
    pub fn create_partitions_view_page_source(&self, facts: &TableFacts<'_>, columns: &Vec<IcebergColumnHandle>) -> (source: Result<SystemRelation, ConnectorError>)
        requires
            facts.manifests@.len() == facts.loaded@.len(),
        ensures
            is_relation_of(
                partitions_view_model(facts.schema.model(), spec_models(facts.specs@)),
                columns@,
                |schema: Seq<CarrierModel>, content: Result<(Seq<ColumnModel>, nat), ConnectorError>|
                    is_partitions_content(*facts, schema, content),
                source,
            ),
    {
        let schema = match partitions_view_schema(facts.schema, facts.specs.as_slice()) {
            Ok(schema) => schema,
            Err(error) => return Err(error),
        };
        let projection = match project_system_relation_columns(&schema, columns.as_slice()) {
            Ok(projection) => projection,
            Err(error) => return Err(error),
        };
        let rows = match read_snapshot_file_rows(
            facts.manifests,
            facts.loaded,
            facts.specs,
            EntryStatusRule::SkipDeleted,
        ) {
            Ok(rows) => rows,
            Err(error) => return Err(error),
        };
        assert(is_snapshot_listing(rows@, *facts, EntryStatusRule::SkipDeleted));
        let aggregates = match try_aggregate_partitions(&rows) {
            Some(aggregates) => aggregates,
            None => return Err(ConnectorError::Corrupt(CorruptData::PartitionCountOverflow)),
        };
        let made = partitions_columns(&schema, &aggregates, facts.schema);
        proof {
            lemma_is_columns_of(
                |field: CarrierModel|
                    partitions_column(field, aggregates@, facts.schema.entries()),
                schema@,
                made,
            );
        }
        match made {
            Ok(columns) => Ok(
                SystemRelation { schema, columns, projection, row_count: aggregates.len() },
            ),
            Err(error) => Err(error),
        }
    }

    /// Hand a relation out page by page. `memory` states what each of its columns occupies, and
    /// `bytes_read` what reading it took.
    pub fn page_source(&self, relation: SystemRelation, memory: &Vec<u64>, bytes_read: u64) -> (source: Result<IcebergSystemPageSource, ConnectorError>)
        requires
            self.max_page_rows > 0,
            memory@.len() == relation.columns@.len(),
            projection_in_range(relation.projection@, memory@.len()) ==> total(
                projected_memory(memory@, relation.projection@),
            ) <= u64::MAX,
        ensures
            ({
                let fault = IcebergSystemPageSource::fault(
                    relation.schema@,
                    relation.columns@,
                    relation.projection@,
                    relation.row_count as nat,
                );
                match source {
                    Ok(source) => {
                        &&& fault is None
                        &&& source.wf()
                        &&& source.columns == relation.columns
                        &&& source.projection == relation.projection
                        &&& source.row_count == relation.row_count
                        &&& source.emitted == 0
                        &&& source.max_page_rows == self.max_page_rows
                        &&& source.bytes_read == bytes_read
                        &&& source.retained_bytes == total(
                            projected_memory(memory@, relation.projection@),
                        )
                        &&& !source.closed
                    },
                    Err(error) => fault == Some(error),
                }
            }),
    {
        IcebergSystemPageSource::new(
            &relation.schema,
            relation.columns,
            memory,
            relation.projection,
            relation.row_count,
            self.max_page_rows,
            bytes_read,
        )
    }
}

} // verus!
