//! The reader of the system relations: what it may read, and the pages it hands out.

use vstd::prelude::*;

use crate::carrier::Field;
use crate::column::Column;
use crate::error::{ConnectorError, CorruptData, InternalFault, InvalidRequest, UnsupportedFeature};
use crate::page_source_provider::IcebergRelationCategory;
use crate::partition::PartitionSpec;
use crate::seqs::{lemma_total_push, lemma_total_prefix, total};
use crate::snapshot_relations::{partition_spec_by_id, spec_with_id, FieldSummary, ListedManifest, SnapshotFacts};
use crate::system_rows::{first_fault, is_row_of, kept_positions, manifest_rows, EntryStatusRule, FileRow, ManifestEntry, TrinoManifestFile, TrinoManifestFileParams};
use crate::system_schema::IcebergSystemTableType;

verus! {

// ---------------------------------------------------------------------------
// What a scan may read
// ---------------------------------------------------------------------------

/// How a system relation is scheduled.
#[derive(Clone, Copy, Debug, PartialEq, Eq, Structural)]
pub enum IcebergSystemTableExecution {
    /// One backend reads the frozen metadata, without a split.
    SingleBackendDirectPageSource,
    /// One split for each manifest.
    DistributedSplits,
}

/// The frozen metadata that a system relation is pinned to.
pub struct IcebergSystemTableReference {
    pub system_table_type: IcebergSystemTableType,
    pub metadata_file_location: String,
    pub table_uuid: String,
    pub snapshot_id: Option<i64>,
}

impl IcebergSystemTableType {
    pub open spec fn spec_execution(self) -> IcebergSystemTableExecution {
        if self == IcebergSystemTableType::Files {
            IcebergSystemTableExecution::DistributedSplits
        } else {
            IcebergSystemTableExecution::SingleBackendDirectPageSource
        }
    }

    /// How the relation is scheduled: `$files` is the one distributed relation.
    pub fn execution(self) -> (execution: IcebergSystemTableExecution)
        ensures
            execution == self.spec_execution(),
    {
        match self {
            IcebergSystemTableType::Files => IcebergSystemTableExecution::DistributedSplits,
            _ => IcebergSystemTableExecution::SingleBackendDirectPageSource,
        }
    }
}

/// Whether some snapshot has an id.
pub open spec fn has_snapshot(snapshots: Seq<SnapshotFacts>, id: i64) -> bool {
    exists|i: int| 0 <= i < snapshots.len() && (#[trigger] snapshots[i]).snapshot_id == id
}

fn snapshot_exists(snapshots: &Vec<SnapshotFacts>, id: i64) -> (exists_: bool)
    ensures
        exists_ == has_snapshot(snapshots@, id),
{
    let mut i: usize = 0;
    while i < snapshots.len()
        invariant
            i <= snapshots.len(),
            forall|k: int| 0 <= k < i ==> (#[trigger] snapshots@[k]).snapshot_id != id,
        decreases snapshots.len() - i,
    {
        if snapshots[i].snapshot_id == id {
            return true;
        }
        i += 1;
    }
    false
}

impl IcebergSystemTableReference {
    /// Prove that a metadata file is the one that planning froze: its table has the pinned UUID,
    /// and the pinned snapshot is in it.
    pub fn verify_loaded_metadata(&self, table_uuid: &String, snapshots: &Vec<SnapshotFacts>) -> (result: Result<(), ConnectorError>)
        ensures
            result == (if table_uuid@ != self.table_uuid@ {
                Err(ConnectorError::Corrupt(CorruptData::TableUuidMismatch))
            } else if self.snapshot_id is Some && !has_snapshot(snapshots@, self.snapshot_id->0) {
                Err(ConnectorError::Corrupt(CorruptData::PinnedSnapshotMissing))
            } else {
                Ok(())
            }),
    {
        if *table_uuid != self.table_uuid {
            return Err(ConnectorError::Corrupt(CorruptData::TableUuidMismatch));
        }
        match self.snapshot_id {
            Some(id) => {
                if !snapshot_exists(snapshots, id) {
                    return Err(ConnectorError::Corrupt(CorruptData::PinnedSnapshotMissing));
                }
            },
            None => {},
        }
        Ok(())
    }
}

/// Only a system relation has a system page source.
pub fn iceberg_system_table_reference(relation: IcebergRelationCategory) -> (result: Result<(), ConnectorError>)
    ensures
        result == (if relation is SystemTable {
            Ok(())
        } else {
            Err(ConnectorError::Invalid(InvalidRequest::NotASystemRelation))
        }),
{
    match relation {
        IcebergRelationCategory::SystemTable => Ok(()),
        IcebergRelationCategory::Table | IcebergRelationCategory::TableFunction
        | IcebergRelationCategory::ChangeWindow | IcebergRelationCategory::TableExecute(_)
        | IcebergRelationCategory::MergeTable => Err(
            ConnectorError::Invalid(InvalidRequest::NotASystemRelation),
        ),
    }
}

/// Whether the direct page source reads a relation: `$files` arrives as splits instead.
pub fn create_system_page_source(relation: IcebergRelationCategory, system_table: IcebergSystemTableType) -> (result: Result<(), ConnectorError>)
    ensures
        result == (if !(relation is SystemTable) {
            Err(ConnectorError::Invalid(InvalidRequest::NotASystemRelation))
        } else if system_table.spec_execution() == IcebergSystemTableExecution::DistributedSplits {
            Err(ConnectorError::Invalid(InvalidRequest::DistributedSystemRelation))
        } else {
            Ok(())
        }),
{
    match iceberg_system_table_reference(relation) {
        Err(error) => return Err(error),
        Ok(_) => {},
    }
    match system_table.execution() {
        IcebergSystemTableExecution::SingleBackendDirectPageSource => Ok(()),
        IcebergSystemTableExecution::DistributedSplits => Err(
            ConnectorError::Invalid(InvalidRequest::DistributedSystemRelation),
        ),
    }
}

/// The snapshot whose manifests a relation lists. A relation that pins no snapshot lists none: it
/// never falls back to the current one.
pub fn pinned_snapshot(reference: &IcebergSystemTableReference, snapshots: &Vec<SnapshotFacts>) -> (pinned: Result<Option<i64>, ConnectorError>)
    ensures
        pinned == (match reference.snapshot_id {
            None => Ok(None),
            Some(id) => if has_snapshot(snapshots@, id) {
                Ok(Some(id))
            } else {
                Err(ConnectorError::Corrupt(CorruptData::PinnedSnapshotMissing))
            },
        }),
{
    match reference.snapshot_id {
        None => Ok(None),
        Some(id) => {
            if snapshot_exists(snapshots, id) {
                Ok(Some(id))
            } else {
                Err(ConnectorError::Corrupt(CorruptData::PinnedSnapshotMissing))
            }
        },
    }
}

// ---------------------------------------------------------------------------
// Manifests of a pinned snapshot
// ---------------------------------------------------------------------------

/// One entry of a manifest list, as it was read.
pub struct ManifestListEntry {
    pub params: TrinoManifestFileParams,
    pub summaries: Option<Vec<FieldSummary>>,
}

/// Admit the manifests of a manifest list, in order. One encrypted manifest refuses the list.
pub fn read_snapshot_manifests(entries: Vec<ManifestListEntry>) -> (manifests: Result<Vec<ListedManifest>, ConnectorError>)
    ensures
        match manifests {
            Ok(list) => list@.len() == entries@.len() && forall|i: int|
                0 <= i < entries@.len() ==> (#[trigger] entries@[i]).params.key_metadata@.len() == 0
                    && list@[i].manifest == entries@[i].params.manifest && list@[i].summaries
                    == entries@[i].summaries,
            Err(error) => error == ConnectorError::Unsupported(
                UnsupportedFeature::EncryptedManifest,
            ) && exists|i: int|
                0 <= i < entries@.len() && (#[trigger] entries@[i]).params.key_metadata@.len() > 0,
        },
{
    let ghost all = entries@;
    let mut rest = entries;
    let mut list: Vec<ListedManifest> = Vec::new();
    while rest.len() > 0
        invariant
            all == entries@,
            list@.len() + rest@.len() == all.len(),
            rest@ == all.skip(list@.len() as int),
            forall|i: int|
                0 <= i < list@.len() ==> (#[trigger] all[i]).params.key_metadata@.len() == 0
                    && list@[i].manifest == all[i].params.manifest && list@[i].summaries
                    == all[i].summaries,
        decreases rest@.len(),
    {
        let entry = rest.remove(0);
        assert(entry == all[list@.len() as int]);
        match TrinoManifestFile::try_new(entry.params) {
            Ok(manifest) => {
                list.push(ListedManifest { manifest, summaries: entry.summaries });
            },
            Err(error) => {
                assert(all[list@.len() as int].params.key_metadata@.len() > 0);
                return Err(error);
            },
        }
        assert(rest@ =~= all.skip(list@.len() as int));
    }
    Ok(list)
}

/// Which entry of which manifest a row of the snapshot comes from: the kept entries of the first
/// `n` manifests, manifest after manifest.
pub open spec fn snapshot_positions(loaded: Seq<Vec<ManifestEntry>>, rule: EntryStatusRule, n: nat) -> Seq<(int, int)>
    decreases n,
{
    if n == 0 || n > loaded.len() {
        seq![]
    } else {
        let kept = kept_positions(loaded[n - 1]@, rule, loaded[n - 1]@.len());
        snapshot_positions(loaded, rule, (n - 1) as nat) + Seq::new(
            kept.len(),
            |k: int| (n - 1, kept[k]),
        )
    }
}

/// The first fault among the first `n` manifests: a missing partition spec, or a fault of an
/// entry.
pub open spec fn snapshot_fault(
    manifests: Seq<ListedManifest>,
    loaded: Seq<Vec<ManifestEntry>>,
    specs: Seq<PartitionSpec>,
    rule: EntryStatusRule,
    n: nat,
) -> Option<ConnectorError>
    decreases n,
{
    if n == 0 || n > manifests.len() {
        None
    } else {
        let before = snapshot_fault(manifests, loaded, specs, rule, (n - 1) as nat);
        if before is Some {
            before
        } else {
            match spec_with_id(specs, manifests[n - 1].manifest.partition_spec_id, 0) {
                None => Some(ConnectorError::Corrupt(CorruptData::ManifestSpecMissing)),
                Some(spec) => first_fault(loaded[n - 1]@, rule, spec, loaded[n - 1]@.len()),
            }
        }
    }
}

proof fn lemma_snapshot_fault_stays(
    manifests: Seq<ListedManifest>,
    loaded: Seq<Vec<ManifestEntry>>,
    specs: Seq<PartitionSpec>,
    rule: EntryStatusRule,
    n: nat,
)
    requires
        n <= manifests.len(),
        snapshot_fault(manifests, loaded, specs, rule, n) is Some,
    ensures
        snapshot_fault(manifests, loaded, specs, rule, manifests.len()) == snapshot_fault(
            manifests,
            loaded,
            specs,
            rule,
            n,
        ),
    decreases manifests.len() - n,
{
    if n < manifests.len() {
        lemma_snapshot_fault_stays(manifests, loaded, specs, rule, n + 1);
    }
}

/// Whether a row is that of an entry of the snapshot.
pub open spec fn is_snapshot_row(
    row: FileRow,
    manifests: Seq<ListedManifest>,
    loaded: Seq<Vec<ManifestEntry>>,
    specs: Seq<PartitionSpec>,
    position: (int, int),
) -> bool {
    let (m, e) = position;
    &&& spec_with_id(specs, manifests[m].manifest.partition_spec_id, 0) is Some
    &&& is_row_of(
        row,
        manifests[m].manifest,
        loaded[m]@[e],
        e,
        spec_with_id(specs, manifests[m].manifest.partition_spec_id, 0)->0,
    )
}

/// Turn every manifest of a pinned snapshot into file rows, in manifest-list order. `loaded` holds
/// the entries of each manifest.
pub fn read_snapshot_file_rows<'a>(
    manifests: &Vec<ListedManifest>,
    loaded: &'a Vec<Vec<ManifestEntry>>,
    specs: &Vec<PartitionSpec>,
    status_rule: EntryStatusRule,
) -> (rows: Result<Vec<FileRow<'a>>, ConnectorError>)
    requires
        manifests@.len() == loaded@.len(),
    ensures
        match rows {
            Ok(rows) => {
                let positions = snapshot_positions(loaded@, status_rule, loaded@.len());
                &&& snapshot_fault(manifests@, loaded@, specs@, status_rule, manifests@.len()) is None
                &&& rows@.len() == positions.len()
                &&& forall|k: int|
                    0 <= k < rows@.len() ==> is_snapshot_row(
                        #[trigger] rows@[k],
                        manifests@,
                        loaded@,
                        specs@,
                        positions[k],
                    )
            },
            Err(error) => snapshot_fault(
                manifests@,
                loaded@,
                specs@,
                status_rule,
                manifests@.len(),
            ) == Some(error),
        },
{
    let mut rows: Vec<FileRow<'a>> = Vec::new();
    let mut i: usize = 0;
    while i < manifests.len()
        invariant
            i <= manifests.len(),
            manifests@.len() == loaded@.len(),
            snapshot_fault(manifests@, loaded@, specs@, status_rule, i as nat) is None,
            rows@.len() == snapshot_positions(loaded@, status_rule, i as nat).len(),
            forall|k: int|
                0 <= k < rows@.len() ==> is_snapshot_row(
                    #[trigger] rows@[k],
                    manifests@,
                    loaded@,
                    specs@,
                    snapshot_positions(loaded@, status_rule, i as nat)[k],
                ),
        decreases manifests.len() - i,
    {
        let manifest = &manifests[i].manifest;
        let spec = match partition_spec_by_id(specs, manifest.partition_spec_id) {
            Some(spec) => spec,
            None => {
                proof {
                    lemma_snapshot_fault_stays(
                        manifests@,
                        loaded@,
                        specs@,
                        status_rule,
                        (i + 1) as nat,
                    );
                }
                return Err(ConnectorError::Corrupt(CorruptData::ManifestSpecMissing));
            },
        };
        let ghost before = rows@;
        let ghost old_positions = snapshot_positions(loaded@, status_rule, i as nat);
        let ghost kept = kept_positions(loaded@[i as int]@, status_rule, loaded@[i as int]@.len());
        match manifest_rows(manifest, &loaded[i], spec, status_rule) {
            Ok(mut more) => {
                let ghost added = more@;
                rows.append(&mut more);
                proof {
                    let positions = snapshot_positions(loaded@, status_rule, (i + 1) as nat);
                    assert(positions.len() == old_positions.len() + kept.len());
                    assert forall|k: int| 0 <= k < rows@.len() implies is_snapshot_row(
                        #[trigger] rows@[k],
                        manifests@,
                        loaded@,
                        specs@,
                        positions[k],
                    ) by {
                        if k < before.len() {
                            assert(rows@[k] == before[k]);
                            assert(positions[k] == old_positions[k]);
                        } else {
                            let j = k - before.len();
                            assert(rows@[k] == added[j]);
                            assert(positions[k] == (i as int, kept[j]));
                        }
                    }
                }
            },
            Err(error) => {
                proof {
                    lemma_snapshot_fault_stays(
                        manifests@,
                        loaded@,
                        specs@,
                        status_rule,
                        (i + 1) as nat,
                    );
                }
                return Err(error);
            },
        }
        i += 1;
    }
    Ok(rows)
}

// ---------------------------------------------------------------------------
// The page source
// ---------------------------------------------------------------------------

/// What a page source has done so far.
#[derive(Clone, Copy, Debug, PartialEq, Eq, Structural)]
pub struct PageSourceMetrics {
    pub completed_bytes: u64,
    pub completed_positions: u64,
    pub read_time_nanos: u64,
}

/// The rows of one page: `rows` of them from `start` on.
#[derive(Clone, Copy, Debug, PartialEq, Eq, Structural)]
pub struct RowWindow {
    pub start: usize,
    pub rows: usize,
}

/// A materialized system relation that is handed out one page at a time.
pub struct IcebergSystemPageSource {
    /// Every column of the relation; empty once closed.
    pub columns: Vec<Column>,
    /// The output columns, as positions in `columns`; a scan without any only counts.
    pub projection: Vec<usize>,
    pub row_count: usize,
    pub emitted: usize,
    pub max_page_rows: usize,
    pub bytes_read: u64,
    pub retained_bytes: u64,
    pub closed: bool,
}

/// Why a list of columns is not the relation that a schema declares, where it is not: the first
/// `n` columns are looked at.
pub open spec fn column_fault(fields: Seq<Field>, columns: Seq<Column>, row_count: nat, n: nat) -> Option<ConnectorError>
    decreases n,
{
    if n == 0 || n > columns.len() || n > fields.len() {
        None
    } else {
        let before = column_fault(fields, columns, row_count, (n - 1) as nat);
        if before is Some {
            before
        } else if columns[n - 1].model().spec_len() != row_count {
            Some(ConnectorError::Internal(InternalFault::ColumnLength))
        } else if columns[n - 1].model().carrier() != fields[n - 1].data_type.model() {
            Some(ConnectorError::Internal(InternalFault::ColumnCarrier))
        } else {
            None
        }
    }
}

proof fn lemma_column_fault_stays(fields: Seq<Field>, columns: Seq<Column>, row_count: nat, n: nat)
    requires
        n <= columns.len(),
        columns.len() == fields.len(),
        column_fault(fields, columns, row_count, n) is Some,
    ensures
        column_fault(fields, columns, row_count, columns.len()) == column_fault(
            fields,
            columns,
            row_count,
            n,
        ),
    decreases columns.len() - n,
{
    if n < columns.len() {
        lemma_column_fault_stays(fields, columns, row_count, n + 1);
    }
}

/// Whether every output column is there.
pub open spec fn projection_in_range(projection: Seq<usize>, count: nat) -> bool {
    forall|i: int| 0 <= i < projection.len() ==> (#[trigger] projection[i]) < count
}

/// The memory of the projected columns.
pub open spec fn projected_memory(memory: Seq<u64>, projection: Seq<usize>) -> Seq<int> {
    projection.map_values(|at: usize| memory[at as int] as int)
}

impl IcebergSystemPageSource {
    /// Why a page source cannot be made of these columns, where it cannot.
    pub open spec fn fault(
        fields: Seq<Field>,
        columns: Seq<Column>,
        projection: Seq<usize>,
        row_count: nat,
    ) -> Option<ConnectorError> {
        if columns.len() != fields.len() {
            Some(ConnectorError::Internal(InternalFault::ColumnCount))
        } else if column_fault(fields, columns, row_count, columns.len()) is Some {
            column_fault(fields, columns, row_count, columns.len())
        } else if !projection_in_range(projection, columns.len()) {
            Some(ConnectorError::Internal(InternalFault::ProjectionOutOfRange))
        } else {
            None
        }
    }

    /// Take a materialized relation over. `memory` states what each column occupies.
    pub fn new(
        schema: &Vec<Field>,
        relation_columns: Vec<Column>,
        memory: &Vec<u64>,
        projection: Vec<usize>,
        row_count: usize,
        max_page_rows: usize,
        bytes_read: u64,
    ) -> (source: Result<IcebergSystemPageSource, ConnectorError>)
        requires
            max_page_rows > 0,
            memory@.len() == relation_columns@.len(),
            projection_in_range(projection@, memory@.len()) ==> total(
                projected_memory(memory@, projection@),
            ) <= u64::MAX,
        ensures
            match source {
                Ok(source) => {
                    &&& Self::fault(schema@, relation_columns@, projection@, row_count as nat) is None
                    &&& source.columns == relation_columns
                    &&& source.projection == projection
                    &&& source.row_count == row_count
                    &&& source.emitted == 0
                    &&& source.max_page_rows == max_page_rows
                    &&& source.bytes_read == bytes_read
                    &&& source.retained_bytes == total(projected_memory(memory@, projection@))
                    &&& !source.closed
                    &&& source.wf()
                },
                Err(error) => Self::fault(
                    schema@,
                    relation_columns@,
                    projection@,
                    row_count as nat,
                ) == Some(error),
            },
    {
        if relation_columns.len() != schema.len() {
            return Err(ConnectorError::Internal(InternalFault::ColumnCount));
        }
        let mut i: usize = 0;
        while i < relation_columns.len()
            invariant
                i <= relation_columns.len(),
                relation_columns@.len() == schema@.len(),
                column_fault(schema@, relation_columns@, row_count as nat, i as nat) is None,
            decreases relation_columns.len() - i,
        {
            if relation_columns[i].len() != row_count {
                proof {
                    lemma_column_fault_stays(
                        schema@,
                        relation_columns@,
                        row_count as nat,
                        (i + 1) as nat,
                    );
                }
                return Err(ConnectorError::Internal(InternalFault::ColumnLength));
            }
            if !relation_columns[i].carries(&schema[i].data_type) {
                proof {
                    lemma_column_fault_stays(
                        schema@,
                        relation_columns@,
                        row_count as nat,
                        (i + 1) as nat,
                    );
                }
                return Err(ConnectorError::Internal(InternalFault::ColumnCarrier));
            }
            i += 1;
        }
        let mut k: usize = 0;
        while k < projection.len()
            invariant
                k <= projection.len(),
                relation_columns@.len() == schema@.len(),
                column_fault(
                    schema@,
                    relation_columns@,
                    row_count as nat,
                    relation_columns@.len(),
                ) is None,
                forall|j: int| 0 <= j < k ==> (#[trigger] projection@[j]) < relation_columns@.len(),
            decreases projection.len() - k,
        {
            if projection[k] >= relation_columns.len() {
                assert(!projection_in_range(projection@, relation_columns@.len()));
                return Err(ConnectorError::Internal(InternalFault::ProjectionOutOfRange));
            }
            k += 1;
        }
        let ghost sizes = projected_memory(memory@, projection@);
        let mut retained_bytes: u64 = 0;
        let mut p: usize = 0;
        assert(sizes.take(0) =~= Seq::<int>::empty());
        while p < projection.len()
            invariant
                p <= projection.len(),
                projection_in_range(projection@, memory@.len()),
                sizes == projected_memory(memory@, projection@),
                total(sizes) <= u64::MAX,
                retained_bytes == total(sizes.take(p as int)),
            decreases projection.len() - p,
        {
            let at: usize = projection[p];
            assert(projection@[p as int] < memory@.len());
            proof {
                assert(sizes.take(p + 1) =~= sizes.take(p as int).push(sizes[p as int]));
                lemma_total_push(sizes.take(p as int), sizes[p as int]);
                lemma_total_prefix(sizes, p + 1);
            }
            retained_bytes = retained_bytes + memory[at];
            p += 1;
        }
        assert(sizes.take(p as int) =~= sizes);
        Ok(
            IcebergSystemPageSource {
                columns: relation_columns,
                projection,
                row_count,
                emitted: 0,
                max_page_rows,
                bytes_read,
                retained_bytes,
                closed: false,
            },
        )
    }

    pub open spec fn wf(self) -> bool {
        &&& self.emitted <= self.row_count
        &&& self.max_page_rows > 0
    }

    /// Whether there is nothing more to hand out.
    pub open spec fn finished(self) -> bool {
        self.closed || self.emitted >= self.row_count
    }

    /// The next page, at most `max_page_rows` long, from where the last one ended.
    pub fn next_source_page(&mut self) -> (page: Option<RowWindow>)
        requires
            old(self).wf(),
        ensures
            final(self).wf(),
            final(self).columns == old(self).columns,
            final(self).projection == old(self).projection,
            final(self).row_count == old(self).row_count,
            final(self).max_page_rows == old(self).max_page_rows,
            final(self).bytes_read == old(self).bytes_read,
            final(self).retained_bytes == old(self).retained_bytes,
            final(self).closed == old(self).closed,
            old(self).finished() ==> page is None && final(self).emitted == old(self).emitted,
            !old(self).finished() ==> {
                let left = old(self).row_count - old(self).emitted;
                let rows = if left < old(self).max_page_rows {
                    left
                } else {
                    old(self).max_page_rows as int
                };
                &&& page is Some
                &&& page->0.start == old(self).emitted
                &&& page->0.rows == rows
                &&& final(self).emitted == old(self).emitted + rows
            },
    {
        if self.closed || self.emitted >= self.row_count {
            return None;
        }
        let left: usize = self.row_count - self.emitted;
        let rows: usize = if left < self.max_page_rows {
            left
        } else {
            self.max_page_rows
        };
        let start: usize = self.emitted;
        self.emitted = start + rows;
        Some(RowWindow { start, rows })
    }

    pub fn is_finished(&self) -> (finished: bool)
        ensures
            finished == self.finished(),
    {
        self.closed || self.emitted >= self.row_count
    }

    /// What was read before the first page, and the rows handed out since.
    pub fn metrics(&self) -> (metrics: PageSourceMetrics)
        ensures
            metrics == (PageSourceMetrics {
                completed_bytes: self.bytes_read,
                completed_positions: self.emitted as u64,
                read_time_nanos: 0,
            }),
    {
        PageSourceMetrics {
            completed_bytes: self.bytes_read,
            completed_positions: self.emitted as u64,
            read_time_nanos: 0,
        }
    }

    pub fn memory_usage_bytes(&self) -> (bytes: u64)
        ensures
            bytes == self.retained_bytes,
    {
        self.retained_bytes
    }

    /// Let the columns go. Closing again changes nothing.
    pub fn close(&mut self)
        ensures
            final(self).closed,
            final(self).columns@ == Seq::<Column>::empty(),
            final(self).retained_bytes == 0,
            final(self).projection == old(self).projection,
            final(self).row_count == old(self).row_count,
            final(self).emitted == old(self).emitted,
            final(self).max_page_rows == old(self).max_page_rows,
            final(self).bytes_read == old(self).bytes_read,
            old(self).wf() ==> final(self).wf(),
    {
        self.closed = true;
        self.columns.clear();
        self.retained_bytes = 0;
    }
}

/// The windows of the pages from `emitted` on.
pub open spec fn page_windows(row_count: int, emitted: int, max_page_rows: int) -> Seq<(int, int)>
    decreases row_count - emitted,
{
    if emitted >= row_count || max_page_rows <= 0 {
        seq![]
    } else {
        let left = row_count - emitted;
        let rows = if left < max_page_rows {
            left
        } else {
            max_page_rows
        };
        seq![(emitted, rows)] + page_windows(row_count, emitted + rows, max_page_rows)
    }
}

/// The pages of a relation hold every row once, in order: each page starts where the one before
/// it ended, and the last one ends with the relation.
pub proof fn law_pages_tile_the_relation(row_count: int, emitted: int, max_page_rows: int, i: int)
    requires
        0 <= emitted <= row_count,
        max_page_rows > 0,
        0 <= i < page_windows(row_count, emitted, max_page_rows).len(),
    ensures
        ({
            let windows = page_windows(row_count, emitted, max_page_rows);
            &&& 0 < windows[i].1 <= max_page_rows
            &&& windows[0].0 == emitted
            &&& i + 1 < windows.len() ==> windows[i + 1].0 == windows[i].0 + windows[i].1
            &&& i + 1 == windows.len() ==> windows[i].0 + windows[i].1 == row_count
        }),
    decreases row_count - emitted,
{
    let windows = page_windows(row_count, emitted, max_page_rows);
    let left = row_count - emitted;
    let rows = if left < max_page_rows {
        left
    } else {
        max_page_rows
    };
    let rest = page_windows(row_count, emitted + rows, max_page_rows);
    assert(windows == seq![(emitted, rows)] + rest);
    if i > 0 {
        law_pages_tile_the_relation(row_count, emitted + rows, max_page_rows, i - 1);
        assert(windows[i] == rest[i - 1]);
        if i + 1 < windows.len() {
            assert(windows[i + 1] == rest[i]);
        }
    } else if rest.len() > 0 {
        law_pages_tile_the_relation(row_count, emitted + rows, max_page_rows, 0);
        assert(windows[1] == rest[0]);
    } else {
        assert(emitted + rows >= row_count);
    }
}

} // verus!
