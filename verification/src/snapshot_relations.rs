//! The relations that are read straight from table metadata: `$snapshots`, `$history`, `$refs`
//! and `$manifests`.

use vstd::prelude::*;

use crate::carrier::{field_models, lemma_struct_model, CarrierModel, DataType, DataTypeModel, Field};
use crate::column::{cell_models, lemma_entries_model, lemma_list_model, new_cells, push_cell, Cell, CellModel, Column, ColumnModel};
use crate::error::{ConnectorError, CorruptData, InternalFault};
use crate::keyed::{named_model, put_named, put_named_entry};
use crate::partition::{PartitionField, PartitionSpec, TransformResult};
use crate::partitions_view::clamped;
use crate::relation_columns::{int_cell, int_to_cell, is_named, long_cell, long_to_cell, plain_columns, relation_columns, SystemRow};
use crate::system_columns::{column_result, columns_result};
use crate::system_rows::TrinoManifestFile;
use crate::system_schema::{map_model, map_type, timestamp_tz_model, timestamp_tz_type};
use crate::types::{entry_with_id, EntryModel, PrimitiveType, Schema};

verus! {

/// A time in microseconds that stops at the ends of the range.
pub fn millis_to_micros(millis: i64) -> (micros: i64)
    ensures
        micros == clamped(millis * 1000),
{
    match millis.checked_mul(1000) {
        Some(micros) => micros,
        None => if millis > 0 {
            i64::MAX
        } else {
            i64::MIN
        },
    }
}

// ---------------------------------------------------------------------------
// $snapshots
// ---------------------------------------------------------------------------

/// One snapshot of a table.
pub struct SnapshotFacts {
    pub snapshot_id: i64,
    pub parent_snapshot_id: Option<i64>,
    pub timestamp_ms: i64,
    pub operation: String,
    pub manifest_list: String,
    /// The properties of the summary, each key once.
    pub summary: Vec<(String, String)>,
    /// Whether the snapshot only marks a write fence of the connector.
    pub fence_marker: bool,
}

/// One row of `$snapshots`.
pub struct SnapshotRow<'a> {
    pub snapshot: &'a SnapshotFacts,
}

/// The first `n` properties in key order.
pub open spec fn properties_by_key(properties: Seq<(String, String)>, n: nat) -> Seq<(Seq<char>, Seq<char>)>
    decreases n,
{
    if n == 0 || n > properties.len() {
        seq![]
    } else {
        put_named(
            properties_by_key(properties, (n - 1) as nat),
            properties[n - 1].0@,
            properties[n - 1].1@,
        )
    }
}

/// The summary of a snapshot. A snapshot without properties has no summary, which is not the
/// same as one that summarized nothing.
pub open spec fn summary_cell(properties: Seq<(String, String)>) -> CellModel {
    if properties.len() == 0 {
        CellModel::Null
    } else {
        let ordered = properties_by_key(properties, properties.len());
        CellModel::Entries(
            ordered.map_values(|pair: (Seq<char>, Seq<char>)| CellModel::Text(pair.0)),
            ordered.map_values(|pair: (Seq<char>, Seq<char>)| CellModel::Text(pair.1)),
        )
    }
}

proof fn lemma_put_property(list: Seq<(Seq<char>, String)>, key: Seq<char>, value: String)
    ensures
        put_named(list, key, value).map_values(|pair: (Seq<char>, String)| (pair.0, pair.1@))
            == put_named(
            list.map_values(|pair: (Seq<char>, String)| (pair.0, pair.1@)),
            key,
            value@,
        ),
    decreases list.len(),
{
    let g = |pair: (Seq<char>, String)| (pair.0, pair.1@);
    let mapped = list.map_values(g);
    if list.len() == 0 || crate::value::text_before(list.last().0, key) {
        assert(list.push((key, value)).map_values(g) =~= mapped.push((key, value@)));
    } else if list.last().0 == key {
        assert(list.drop_last().push((key, value)).map_values(g) =~= mapped.drop_last().push(
            (key, value@),
        ));
    } else {
        lemma_put_property(list.drop_last(), key, value);
        assert(list.drop_last().map_values(g) =~= mapped.drop_last());
        let inner = put_named(list.drop_last(), key, value);
        assert(inner.push(list.last()).map_values(g) =~= inner.map_values(g).push(g(list.last())));
    }
}

fn summary_to_cell(properties: &Vec<(String, String)>) -> (cell: Cell)
    ensures
        cell.model() == summary_cell(properties@),
{
    if properties.len() == 0 {
        return Cell::Null;
    }
    let ghost g = |pair: (Seq<char>, String)| (pair.0, pair.1@);
    let mut ordered: Vec<(String, String)> = Vec::new();
    let mut i: usize = 0;
    assert(named_model(ordered@).map_values(g) =~= properties_by_key(properties@, 0));
    while i < properties.len()
        invariant
            i <= properties.len(),
            g == (|pair: (Seq<char>, String)| (pair.0, pair.1@)),
            named_model(ordered@).map_values(g) == properties_by_key(properties@, i as nat),
        decreases properties.len() - i,
    {
        let key = properties[i].0.clone();
        let value = properties[i].1.clone();
        proof {
            lemma_put_property(named_model(ordered@), key@, value);
        }
        put_named_entry(&mut ordered, key, value);
        i += 1;
    }
    let ghost list = properties_by_key(properties@, properties@.len());
    let ghost key_of = |pair: (Seq<char>, Seq<char>)| CellModel::Text(pair.0);
    let ghost value_of = |pair: (Seq<char>, Seq<char>)| CellModel::Text(pair.1);
    let mut keys = new_cells();
    let mut values = new_cells();
    let mut k: usize = 0;
    while k < ordered.len()
        invariant
            k <= ordered.len(),
            g == (|pair: (Seq<char>, String)| (pair.0, pair.1@)),
            key_of == (|pair: (Seq<char>, Seq<char>)| CellModel::Text(pair.0)),
            value_of == (|pair: (Seq<char>, Seq<char>)| CellModel::Text(pair.1)),
            list == named_model(ordered@).map_values(g),
            cell_models(keys@) == list.take(k as int).map_values(key_of),
            cell_models(values@) == list.take(k as int).map_values(value_of),
        decreases ordered.len() - k,
    {
        push_cell(&mut keys, Cell::Text(ordered[k].0.clone()));
        push_cell(&mut values, Cell::Text(ordered[k].1.clone()));
        proof {
            assert(list[k as int] == (ordered@[k as int].0@, ordered@[k as int].1@));
            crate::seqs::lemma_map_step(list, key_of, k as int);
            crate::seqs::lemma_map_step(list, value_of, k as int);
        }
        k += 1;
    }
    proof {
        assert(list.take(k as int) =~= list);
        lemma_entries_model(keys, values);
    }
    Cell::Entries(keys, values)
}

impl<'a> SystemRow for SnapshotRow<'a> {
    open spec fn carrier_model(column: Seq<char>) -> Option<DataTypeModel> {
        if column == "committed_at"@ {
            Some(timestamp_tz_model())
        } else if column == "snapshot_id"@ {
            Some(DataTypeModel::Int64)
        } else if column == "parent_id"@ {
            Some(DataTypeModel::Int64)
        } else if column == "operation"@ {
            Some(DataTypeModel::Utf8)
        } else if column == "manifest_list"@ {
            Some(DataTypeModel::Utf8)
        } else if column == "summary"@ {
            Some(map_model(DataTypeModel::Utf8, DataTypeModel::Utf8))
        } else {
            None
        }
    }

    open spec fn cell_model(&self, column: Seq<char>) -> CellModel {
        if column == "committed_at"@ {
            CellModel::Int64(clamped(self.snapshot.timestamp_ms * 1000))
        } else if column == "snapshot_id"@ {
            CellModel::Int64(self.snapshot.snapshot_id)
        } else if column == "parent_id"@ {
            long_cell(self.snapshot.parent_snapshot_id)
        } else if column == "operation"@ {
            CellModel::Text(self.snapshot.operation@)
        } else if column == "manifest_list"@ {
            CellModel::Text(self.snapshot.manifest_list@)
        } else if column == "summary"@ {
            summary_cell(self.snapshot.summary@)
        } else {
            CellModel::Null
        }
    }

    fn carrier(column: &String) -> (carrier: Option<DataType>) {
        if is_named(column, "committed_at") {
            Some(timestamp_tz_type())
        } else if is_named(column, "snapshot_id") {
            Some(DataType::Int64)
        } else if is_named(column, "parent_id") {
            Some(DataType::Int64)
        } else if is_named(column, "operation") {
            Some(DataType::Utf8)
        } else if is_named(column, "manifest_list") {
            Some(DataType::Utf8)
        } else if is_named(column, "summary") {
            Some(map_type(DataType::Utf8, DataType::Utf8))
        } else {
            None
        }
    }

    fn cell(&self, column: &String) -> (cell: Cell) {
        if is_named(column, "committed_at") {
            Cell::Int64(millis_to_micros(self.snapshot.timestamp_ms))
        } else if is_named(column, "snapshot_id") {
            Cell::Int64(self.snapshot.snapshot_id)
        } else if is_named(column, "parent_id") {
            long_to_cell(self.snapshot.parent_snapshot_id)
        } else if is_named(column, "operation") {
            Cell::Text(self.snapshot.operation.clone())
        } else if is_named(column, "manifest_list") {
            Cell::Text(self.snapshot.manifest_list.clone())
        } else if is_named(column, "summary") {
            summary_to_cell(&self.snapshot.summary)
        } else {
            Cell::Null
        }
    }
}


/// Whether `$snapshots` reports a snapshot: a fence marker is bookkeeping of the connector.
pub open spec fn reported() -> spec_fn(SnapshotFacts) -> bool {
    |snapshot: SnapshotFacts| !snapshot.fence_marker
}

/// The rows of a list of snapshots.
pub open spec fn snapshot_rows<'a>(rows: Seq<SnapshotRow<'a>>) -> Seq<SnapshotFacts> {
    rows.map_values(|row: SnapshotRow<'a>| *row.snapshot)
}

/// The snapshots that `$snapshots` reports, in metadata order.
pub fn reported_snapshots<'a>(snapshots: &'a Vec<SnapshotFacts>) -> (rows: Vec<SnapshotRow<'a>>)
    ensures
        snapshot_rows(rows@) == snapshots@.filter(reported()),
{
    let mut rows: Vec<SnapshotRow<'a>> = Vec::new();
    let mut i: usize = 0;
    assert(snapshot_rows(rows@) =~= snapshots@.take(0).filter(reported())) by {
        reveal(Seq::filter);
    }
    while i < snapshots.len()
        invariant
            i <= snapshots.len(),
            snapshot_rows(rows@) == snapshots@.take(i as int).filter(reported()),
        decreases snapshots.len() - i,
    {
        let snapshot = &snapshots[i];
        proof {
            crate::seqs::lemma_filter_step(snapshots@, reported(), i as int);
        }
        if !snapshot.fence_marker {
            let ghost before = rows@;
            rows.push(SnapshotRow { snapshot });
            assert(snapshot_rows(rows@) =~= snapshot_rows(before).push(*snapshot));
        }
        i += 1;
    }
    assert(snapshots@.take(i as int) =~= snapshots@);
    rows
}

/// Materialize the columns of `$snapshots`.
pub fn snapshots_columns<'a>(schema: &Vec<Field>, snapshots: &'a Vec<SnapshotFacts>) -> (columns: Result<Vec<Column>, ConnectorError>)
    ensures
        exists|rows: Seq<SnapshotRow<'a>>|
            snapshot_rows(rows) == snapshots@.filter(reported()) && columns_result(columns)
                == #[trigger] plain_columns(field_models(schema@), rows, schema@.len()),
{
    let rows = reported_snapshots(snapshots);
    relation_columns(schema, &rows)
}

// ---------------------------------------------------------------------------
// $history
// ---------------------------------------------------------------------------

/// One step of the table's history: when a snapshot became current.
#[derive(Clone, Copy, Debug, PartialEq, Eq, Structural)]
pub struct HistoryEntry {
    pub timestamp_ms: i64,
    pub snapshot_id: i64,
}

/// One row of `$history`.
#[derive(Clone, Copy, Debug, PartialEq, Eq, Structural)]
pub struct HistoryRow {
    pub made_current_at: i64,
    pub snapshot_id: i64,
    pub parent_id: Option<i64>,
    pub is_current_ancestor: bool,
}

impl SystemRow for HistoryRow {
    open spec fn carrier_model(column: Seq<char>) -> Option<DataTypeModel> {
        if column == "made_current_at"@ {
            Some(timestamp_tz_model())
        } else if column == "snapshot_id"@ {
            Some(DataTypeModel::Int64)
        } else if column == "parent_id"@ {
            Some(DataTypeModel::Int64)
        } else if column == "is_current_ancestor"@ {
            Some(DataTypeModel::Boolean)
        } else {
            None
        }
    }

    open spec fn cell_model(&self, column: Seq<char>) -> CellModel {
        if column == "made_current_at"@ {
            CellModel::Int64(self.made_current_at)
        } else if column == "snapshot_id"@ {
            CellModel::Int64(self.snapshot_id)
        } else if column == "parent_id"@ {
            long_cell(self.parent_id)
        } else if column == "is_current_ancestor"@ {
            CellModel::Boolean(self.is_current_ancestor)
        } else {
            CellModel::Null
        }
    }

    fn carrier(column: &String) -> (carrier: Option<DataType>) {
        if is_named(column, "made_current_at") {
            Some(timestamp_tz_type())
        } else if is_named(column, "snapshot_id") {
            Some(DataType::Int64)
        } else if is_named(column, "parent_id") {
            Some(DataType::Int64)
        } else if is_named(column, "is_current_ancestor") {
            Some(DataType::Boolean)
        } else {
            None
        }
    }

    fn cell(&self, column: &String) -> (cell: Cell) {
        if is_named(column, "made_current_at") {
            Cell::Int64(self.made_current_at)
        } else if is_named(column, "snapshot_id") {
            Cell::Int64(self.snapshot_id)
        } else if is_named(column, "parent_id") {
            long_to_cell(self.parent_id)
        } else if is_named(column, "is_current_ancestor") {
            Cell::Boolean(self.is_current_ancestor)
        } else {
            Cell::Null
        }
    }
}


/// The parent of the last snapshot that has an id; none where no snapshot has it.
pub open spec fn parent_of(snapshots: Seq<SnapshotFacts>, id: i64) -> Option<i64>
    decreases snapshots.len(),
{
    if snapshots.len() == 0 {
        None
    } else if snapshots.last().snapshot_id == id {
        snapshots.last().parent_snapshot_id
    } else {
        parent_of(snapshots.drop_last(), id)
    }
}

/// The snapshot that `k` steps along the parents lead to.
pub open spec fn ancestor_at(snapshots: Seq<SnapshotFacts>, current: Option<i64>, k: nat) -> Option<i64>
    decreases k,
{
    if k == 0 {
        current
    } else {
        match ancestor_at(snapshots, current, (k - 1) as nat) {
            Some(id) => parent_of(snapshots, id),
            None => None,
        }
    }
}

/// Whether the current snapshot reaches a snapshot along the parents.
pub open spec fn is_ancestor(snapshots: Seq<SnapshotFacts>, current: Option<i64>, id: i64) -> bool {
    exists|k: nat| #[trigger] ancestor_at(snapshots, current, k) == Some(id)
}

fn parent_snapshot(snapshots: &Vec<SnapshotFacts>, id: i64) -> (parent: Option<i64>)
    ensures
        parent == parent_of(snapshots@, id),
        parent is Some ==> exists|i: int| 0 <= i < snapshots@.len() && (#[trigger] snapshots@[i]).snapshot_id == id,
{
    let mut i: usize = snapshots.len();
    assert(snapshots@.take(i as int) =~= snapshots@);
    while i > 0
        invariant
            i <= snapshots.len(),
            parent_of(snapshots@, id) == parent_of(snapshots@.take(i as int), id),
        decreases i,
    {
        proof {
            assert(snapshots@.take(i as int).last() == snapshots@[i - 1]);
            assert(snapshots@.take(i as int).drop_last() =~= snapshots@.take(i - 1));
        }
        if snapshots[i - 1].snapshot_id == id {
            assert(snapshots@[i - 1].snapshot_id == id);
            return snapshots[i - 1].parent_snapshot_id;
        }
        i -= 1;
    }
    None
}

fn contains_id(ids: &Vec<i64>, id: i64) -> (contains: bool)
    ensures
        contains == ids@.contains(id),
{
    let mut i: usize = 0;
    while i < ids.len()
        invariant
            i <= ids.len(),
            forall|k: int| 0 <= k < i ==> ids@[k] != id,
        decreases ids.len() - i,
    {
        if ids[i] == id {
            return true;
        }
        i += 1;
    }
    false
}

/// Distinct ids that all name snapshots are no more than there are snapshots.
proof fn lemma_distinct_ids_bounded(ids: Seq<i64>, snapshots: Seq<SnapshotFacts>)
    requires
        ids.no_duplicates(),
        forall|k: int| 0 <= k < ids.len() ==> exists|i: int|
            0 <= i < snapshots.len() && (#[trigger] snapshots[i]).snapshot_id == #[trigger] ids[k],
    ensures
        ids.len() <= snapshots.len(),
{
    let named = snapshots.map_values(|snapshot: SnapshotFacts| snapshot.snapshot_id);
    ids.unique_seq_to_set();
    named.lemma_cardinality_of_set();
    assert(ids.to_set().subset_of(named.to_set())) by {
        assert forall|id: i64| ids.to_set().contains(id) implies named.to_set().contains(id) by {
            let k = choose|k: int| 0 <= k < ids.len() && ids[k] == id;
            assert(ids[k] == id);
            let i = choose|i: int| 0 <= i < snapshots.len() && (#[trigger] snapshots[i]).snapshot_id == ids[k];
            assert(named[i] == id);
        }
    }
    vstd::set_lib::lemma_len_subset(ids.to_set(), named.to_set());
}

/// Once no parent is left, none comes later.
proof fn lemma_ancestors_end(snapshots: Seq<SnapshotFacts>, current: Option<i64>, n: nat, k: nat)
    requires
        ancestor_at(snapshots, current, n) is None,
        n <= k,
    ensures
        ancestor_at(snapshots, current, k) is None,
    decreases k,
{
    if n < k {
        lemma_ancestors_end(snapshots, current, n, (k - 1) as nat);
    }
}

/// Where the parents run in a circle, every ancestor is among the first ones.
proof fn lemma_ancestors_repeat(snapshots: Seq<SnapshotFacts>, current: Option<i64>, j: nat, n: nat, k: nat) -> (at: nat)
    requires
        j < n,
        ancestor_at(snapshots, current, n) == ancestor_at(snapshots, current, j),
    ensures
        at < n,
        ancestor_at(snapshots, current, at) == ancestor_at(snapshots, current, k),
    decreases k,
{
    if k < n {
        k
    } else if k == n {
        j
    } else {
        let before = lemma_ancestors_repeat(snapshots, current, j, n, (k - 1) as nat);
        if before + 1 == n {
            assert(ancestor_at(snapshots, current, n) == ancestor_at(snapshots, current, k));
            j
        } else {
            assert(ancestor_at(snapshots, current, before + 1) == ancestor_at(
                snapshots,
                current,
                k,
            ));
            before + 1
        }
    }
}

/// The current snapshot and everything it reaches along the parents. Parents that run in a circle
/// end the walk.
pub fn current_ancestors(snapshots: &Vec<SnapshotFacts>, current: Option<i64>) -> (ancestors: Vec<i64>)
    ensures
        forall|id: i64| #[trigger] ancestors@.contains(id) <==> is_ancestor(snapshots@, current, id),
{
    let mut ancestors: Vec<i64> = Vec::new();
    let mut walker = current;
    let mut circular = false;
    while walker.is_some() && !circular
        invariant
            walker == ancestor_at(snapshots@, current, ancestors@.len()),
            forall|k: int|
                0 <= k < ancestors@.len() ==> ancestor_at(snapshots@, current, k as nat) == Some(
                    #[trigger] ancestors@[k],
                ),
            ancestors@.no_duplicates(),
            circular ==> walker is Some && ancestors@.contains(walker->0),
            forall|k: int| 0 <= k < ancestors@.len() - (if walker is Some {
                0int
            } else {
                1int
            }) ==> exists|i: int|
                0 <= i < snapshots@.len() && (#[trigger] snapshots@[i]).snapshot_id == #[trigger] ancestors@[k],
        decreases snapshots@.len() + 1 - ancestors@.len() + (if walker is Some {
            1int
        } else {
            0int
        }) + (if circular {
            0int
        } else {
            1int
        }),
    {
        let id: i64 = walker.unwrap();
        proof {
            lemma_distinct_ids_bounded(ancestors@, snapshots@);
        }
        if contains_id(&ancestors, id) {
            circular = true;
        } else {
            let ghost before = ancestors@;
            ancestors.push(id);
            walker = parent_snapshot(snapshots, id);
            proof {
                assert(ancestors@.no_duplicates());
                assert forall|k: int| 0 <= k < ancestors@.len() - (if walker is Some {
                    0int
                } else {
                    1int
                }) implies exists|i: int|
                    0 <= i < snapshots@.len() && (#[trigger] snapshots@[i]).snapshot_id == #[trigger] ancestors@[k] by {
                    if k < before.len() {
                        assert(before[k] == ancestors@[k]);
                    }
                }
            }
        }
    }
    proof {
        let n = ancestors@.len();
        assert forall|id: i64| #[trigger] ancestors@.contains(id) <==> is_ancestor(
            snapshots@,
            current,
            id,
        ) by {
            if ancestors@.contains(id) {
                let k = choose|k: int| 0 <= k < n && ancestors@[k] == id;
                assert(ancestor_at(snapshots@, current, k as nat) == Some(ancestors@[k]));
            }
            if is_ancestor(snapshots@, current, id) {
                let k = choose|k: nat| #[trigger] ancestor_at(snapshots@, current, k) == Some(id);
                if circular {
                    let j = choose|j: int| 0 <= j < n && ancestors@[j] == walker->0;
                    assert(ancestor_at(snapshots@, current, j as nat) == Some(ancestors@[j]));
                    let at = lemma_ancestors_repeat(snapshots@, current, j as nat, n, k);
                    assert(ancestors@[at as int] == id);
                } else {
                    if k >= n {
                        lemma_ancestors_end(snapshots@, current, n, k);
                    }
                    assert(ancestors@[k as int] == id);
                }
            }
        }
    }
    ancestors
}

/// The row of one step of the history.
pub open spec fn history_row(entry: HistoryEntry, snapshots: Seq<SnapshotFacts>, current: Option<i64>) -> HistoryRow {
    HistoryRow {
        made_current_at: clamped(entry.timestamp_ms * 1000),
        snapshot_id: entry.snapshot_id,
        parent_id: parent_of(snapshots, entry.snapshot_id),
        is_current_ancestor: is_ancestor(snapshots, current, entry.snapshot_id),
    }
}

/// Materialize the columns of `$history`.
pub fn history_columns(
    schema: &Vec<Field>,
    history: &Vec<HistoryEntry>,
    snapshots: &Vec<SnapshotFacts>,
    current_snapshot_id: Option<i64>,
) -> (columns: Result<Vec<Column>, ConnectorError>)
    ensures
        columns_result(columns) == plain_columns(
            field_models(schema@),
            history@.map_values(
                |entry: HistoryEntry| history_row(entry, snapshots@, current_snapshot_id),
            ),
            schema@.len(),
        ),
{
    let ancestors = current_ancestors(snapshots, current_snapshot_id);
    let ghost f = |entry: HistoryEntry| history_row(entry, snapshots@, current_snapshot_id);
    let mut rows: Vec<HistoryRow> = Vec::new();
    let mut i: usize = 0;
    while i < history.len()
        invariant
            i <= history.len(),
            f == (|entry: HistoryEntry| history_row(entry, snapshots@, current_snapshot_id)),
            forall|id: i64| #[trigger]
                ancestors@.contains(id) <==> is_ancestor(snapshots@, current_snapshot_id, id),
            rows@ == history@.take(i as int).map_values(f),
        decreases history.len() - i,
    {
        let entry = history[i];
        let row = HistoryRow {
            made_current_at: millis_to_micros(entry.timestamp_ms),
            snapshot_id: entry.snapshot_id,
            parent_id: parent_snapshot(snapshots, entry.snapshot_id),
            is_current_ancestor: contains_id(&ancestors, entry.snapshot_id),
        };
        rows.push(row);
        proof {
            crate::seqs::lemma_map_step(history@, f, i as int);
        }
        i += 1;
    }
    assert(history@.take(i as int) =~= history@);
    relation_columns(schema, &rows)
}

// ---------------------------------------------------------------------------
// $refs
// ---------------------------------------------------------------------------

/// How long a ref and what it reaches are kept.
#[derive(Clone, Copy, Debug, PartialEq, Eq, Structural)]
pub enum SnapshotRetention {
    Branch {
        min_snapshots_to_keep: Option<i32>,
        max_snapshot_age_ms: Option<i64>,
        max_ref_age_ms: Option<i64>,
    },
    Tag { max_ref_age_ms: Option<i64> },
}

/// One named ref of a table.
pub struct RefFacts {
    pub name: String,
    pub snapshot_id: i64,
    pub retention: SnapshotRetention,
    /// Whether the name belongs to a write fence of the connector.
    pub write_fence: bool,
}

/// One row of `$refs`.
pub struct RefRow<'a> {
    pub reference: &'a RefFacts,
}

/// Whether a ref belongs to the connector rather than to the table.
pub fn is_provider_private_ref(name: &String, write_fence: bool, publication_fence_ref: &String) -> (private: bool)
    ensures
        private == (write_fence || name@ == publication_fence_ref@),
{
    write_fence || *name == *publication_fence_ref
}

/// The kind of a ref.
pub open spec fn ref_kind(retention: SnapshotRetention) -> Seq<char> {
    match retention {
        SnapshotRetention::Branch { .. } => "BRANCH"@,
        SnapshotRetention::Tag { .. } => "TAG"@,
    }
}

fn ref_kind_of(retention: &SnapshotRetention) -> (kind: &'static str)
    ensures
        kind@ == ref_kind(*retention),
{
    match retention {
        SnapshotRetention::Branch { .. } => "BRANCH",
        SnapshotRetention::Tag { .. } => "TAG",
    }
}

/// The longest age of the ref itself, the number of snapshots to keep and the longest age of a
/// snapshot. A tag states the first only.
pub open spec fn ref_limits(retention: SnapshotRetention) -> (Option<i64>, Option<i32>, Option<i64>) {
    match retention {
        SnapshotRetention::Branch { min_snapshots_to_keep, max_snapshot_age_ms, max_ref_age_ms } => (
            max_ref_age_ms,
            min_snapshots_to_keep,
            max_snapshot_age_ms,
        ),
        SnapshotRetention::Tag { max_ref_age_ms } => (max_ref_age_ms, None, None),
    }
}

fn ref_limits_of(retention: &SnapshotRetention) -> (limits: (Option<i64>, Option<i32>, Option<i64>))
    ensures
        limits == ref_limits(*retention),
{
    match retention {
        SnapshotRetention::Branch { min_snapshots_to_keep, max_snapshot_age_ms, max_ref_age_ms } => (
            *max_ref_age_ms,
            *min_snapshots_to_keep,
            *max_snapshot_age_ms,
        ),
        SnapshotRetention::Tag { max_ref_age_ms } => (*max_ref_age_ms, None, None),
    }
}

impl<'a> SystemRow for RefRow<'a> {
    open spec fn carrier_model(column: Seq<char>) -> Option<DataTypeModel> {
        if column == "name"@ {
            Some(DataTypeModel::Utf8)
        } else if column == "type"@ {
            Some(DataTypeModel::Utf8)
        } else if column == "snapshot_id"@ {
            Some(DataTypeModel::Int64)
        } else if column == "max_reference_age_in_ms"@ {
            Some(DataTypeModel::Int64)
        } else if column == "min_snapshots_to_keep"@ {
            Some(DataTypeModel::Int32)
        } else if column == "max_snapshot_age_in_ms"@ {
            Some(DataTypeModel::Int64)
        } else {
            None
        }
    }

    open spec fn cell_model(&self, column: Seq<char>) -> CellModel {
        if column == "name"@ {
            CellModel::Text(self.reference.name@)
        } else if column == "type"@ {
            CellModel::Text(ref_kind(self.reference.retention))
        } else if column == "snapshot_id"@ {
            CellModel::Int64(self.reference.snapshot_id)
        } else if column == "max_reference_age_in_ms"@ {
            long_cell(ref_limits(self.reference.retention).0)
        } else if column == "min_snapshots_to_keep"@ {
            int_cell(ref_limits(self.reference.retention).1)
        } else if column == "max_snapshot_age_in_ms"@ {
            long_cell(ref_limits(self.reference.retention).2)
        } else {
            CellModel::Null
        }
    }

    fn carrier(column: &String) -> (carrier: Option<DataType>) {
        if is_named(column, "name") {
            Some(DataType::Utf8)
        } else if is_named(column, "type") {
            Some(DataType::Utf8)
        } else if is_named(column, "snapshot_id") {
            Some(DataType::Int64)
        } else if is_named(column, "max_reference_age_in_ms") {
            Some(DataType::Int64)
        } else if is_named(column, "min_snapshots_to_keep") {
            Some(DataType::Int32)
        } else if is_named(column, "max_snapshot_age_in_ms") {
            Some(DataType::Int64)
        } else {
            None
        }
    }

    fn cell(&self, column: &String) -> (cell: Cell) {
        if is_named(column, "name") {
            Cell::Text(self.reference.name.clone())
        } else if is_named(column, "type") {
            Cell::Text(String::from_str(ref_kind_of(&self.reference.retention)))
        } else if is_named(column, "snapshot_id") {
            Cell::Int64(self.reference.snapshot_id)
        } else if is_named(column, "max_reference_age_in_ms") {
            long_to_cell(ref_limits_of(&self.reference.retention).0)
        } else if is_named(column, "min_snapshots_to_keep") {
            int_to_cell(ref_limits_of(&self.reference.retention).1)
        } else if is_named(column, "max_snapshot_age_in_ms") {
            long_to_cell(ref_limits_of(&self.reference.retention).2)
        } else {
            Cell::Null
        }
    }
}


/// The public refs among the first `n`, in name order.
pub open spec fn public_refs<'a>(refs: &'a Vec<RefFacts>, publication_fence_ref: Seq<char>, n: nat) -> Seq<(Seq<char>, &'a RefFacts)>
    decreases n,
{
    if n == 0 || n > refs@.len() {
        seq![]
    } else {
        let before = public_refs(refs, publication_fence_ref, (n - 1) as nat);
        let reference = &refs@[n - 1];
        if reference.write_fence || reference.name@ == publication_fence_ref {
            before
        } else {
            put_named(before, reference.name@, reference)
        }
    }
}

/// The rows of `$refs`: refs come from a hash map, so the name order is imposed.
pub fn ref_rows<'a>(refs: &'a Vec<RefFacts>, publication_fence_ref: &String) -> (rows: Vec<RefRow<'a>>)
    ensures
        rows@.len() == public_refs(refs, publication_fence_ref@, refs@.len()).len(),
        forall|i: int|
            0 <= i < rows@.len() ==> (#[trigger] rows@[i]).reference == public_refs(
                refs,
                publication_fence_ref@,
                refs@.len(),
            )[i].1,
{
    let mut ordered: Vec<(String, &'a RefFacts)> = Vec::new();
    let mut i: usize = 0;
    assert(named_model(ordered@) =~= Seq::<(Seq<char>, &RefFacts)>::empty());
    while i < refs.len()
        invariant
            i <= refs.len(),
            named_model(ordered@) == public_refs(refs, publication_fence_ref@, i as nat),
        decreases refs.len() - i,
    {
        let reference = &refs[i];
        if !is_provider_private_ref(&reference.name, reference.write_fence, publication_fence_ref) {
            put_named_entry(&mut ordered, reference.name.clone(), reference);
        }
        i += 1;
    }
    let mut rows: Vec<RefRow<'a>> = Vec::new();
    let mut k: usize = 0;
    while k < ordered.len()
        invariant
            k <= ordered.len(),
            rows@.len() == k,
            forall|j: int| 0 <= j < k ==> (#[trigger] rows@[j]).reference == ordered@[j].1,
        decreases ordered.len() - k,
    {
        let reference: &'a RefFacts = ordered[k].1;
        rows.push(RefRow { reference });
        k += 1;
    }
    proof {
        assert forall|j: int| 0 <= j < rows@.len() implies (#[trigger] rows@[j]).reference == public_refs(
            refs,
            publication_fence_ref@,
            refs@.len(),
        )[j].1 by {
            assert(named_model(ordered@)[j].1 == ordered@[j].1);
        }
    }
    rows
}

/// Materialize the columns of `$refs`.
pub fn refs_columns<'a>(schema: &Vec<Field>, refs: &'a Vec<RefFacts>, publication_fence_ref: &String) -> (columns: Result<Vec<Column>, ConnectorError>)
    ensures
        exists|rows: Seq<RefRow<'a>>|
            {
                let listed = public_refs(refs, publication_fence_ref@, refs@.len());
                &&& rows.len() == listed.len()
                &&& forall|i: int|
                    0 <= i < rows.len() ==> (#[trigger] rows[i]).reference == listed[i].1
                &&& columns_result(columns) == #[trigger] plain_columns(
                    field_models(schema@),
                    rows,
                    schema@.len(),
                )
            },
{
    let rows = ref_rows(refs, publication_fence_ref);
    relation_columns(schema, &rows)
}

proof fn lemma_public_refs(refs: &Vec<RefFacts>, publication_fence_ref: Seq<char>, n: nat)
    requires
        n <= refs@.len(),
    ensures
        crate::keyed::ascending_names(public_refs(refs, publication_fence_ref, n)),
        forall|i: int|
            0 <= i < public_refs(refs, publication_fence_ref, n).len() ==> {
                let pair = #[trigger] public_refs(refs, publication_fence_ref, n)[i];
                &&& pair.0 == pair.1.name@
                &&& !pair.1.write_fence
                &&& pair.0 != publication_fence_ref
            },
    decreases n,
{
    if n > 0 {
        lemma_public_refs(refs, publication_fence_ref, (n - 1) as nat);
        let before = public_refs(refs, publication_fence_ref, (n - 1) as nat);
        let after = public_refs(refs, publication_fence_ref, n);
        let reference = &refs@[n - 1];
        if !(reference.write_fence || reference.name@ == publication_fence_ref) {
            crate::keyed::law_put_named_keeps_ascending(before, reference.name@, reference);
            lemma_put_named_members(before, reference.name@, reference);
            assert forall|i: int| 0 <= i < after.len() implies {
                let pair = #[trigger] after[i];
                &&& pair.0 == pair.1.name@
                &&& !pair.1.write_fence
                &&& pair.0 != publication_fence_ref
            } by {
                if after[i] != (reference.name@, reference) {
                    let k = choose|k: int| 0 <= k < before.len() && #[trigger] before[k] == after[i];
                    assert(before[k] == after[i]);
                }
            }
        }
    }
}

proof fn lemma_put_named_members<V>(list: Seq<(Seq<char>, V)>, name: Seq<char>, value: V)
    ensures
        forall|i: int|
            0 <= i < put_named(list, name, value).len() ==> #[trigger] put_named(list, name, value)[i]
                == (name, value) || exists|k: int|
                0 <= k < list.len() && #[trigger] list[k] == put_named(list, name, value)[i],
    decreases list.len(),
{
    let after = put_named(list, name, value);
    if list.len() == 0 || crate::value::text_before(list.last().0, name) || list.last().0 == name {
        assert forall|i: int| 0 <= i < after.len() implies #[trigger] after[i] == (name, value)
            || exists|k: int| 0 <= k < list.len() && #[trigger] list[k] == after[i] by {
            if i < after.len() - 1 {
                assert(list[i] == after[i]);
            }
        }
    } else {
        let shorter = list.drop_last();
        lemma_put_named_members(shorter, name, value);
        let inner = put_named(shorter, name, value);
        assert forall|i: int| 0 <= i < after.len() implies #[trigger] after[i] == (name, value)
            || exists|k: int| 0 <= k < list.len() && #[trigger] list[k] == after[i] by {
            if i < inner.len() {
                assert(after[i] == inner[i]);
                if inner[i] != (name, value) {
                    let k = choose|k: int| 0 <= k < shorter.len() && #[trigger] shorter[k] == inner[i];
                    assert(list[k] == after[i]);
                }
            } else {
                assert(list[list.len() - 1] == after[i]);
            }
        }
    }
}

/// `$refs` reports its refs in name order, and none that belongs to the connector.
pub proof fn law_refs_are_ordered_and_public(refs: &Vec<RefFacts>, publication_fence_ref: Seq<char>)
    ensures
        crate::keyed::ascending_names(public_refs(refs, publication_fence_ref, refs@.len())),
        forall|i: int|
            0 <= i < public_refs(refs, publication_fence_ref, refs@.len()).len() ==> {
                let reference = (#[trigger] public_refs(refs, publication_fence_ref, refs@.len())[i]).1;
                &&& !reference.write_fence
                &&& reference.name@ != publication_fence_ref
            },
{
    lemma_public_refs(refs, publication_fence_ref, refs@.len());
}

// ---------------------------------------------------------------------------
// $manifests
// ---------------------------------------------------------------------------

/// A bound of a partition summary, decoded against the type of its partition field.
pub enum SummaryBound {
    Text(String),
    /// The bytes are no value of that type.
    Undecodable,
}

/// What a manifest list says of one partition field of a manifest.
pub struct FieldSummary {
    pub contains_null: bool,
    pub contains_nan: Option<bool>,
    pub lower_bound: Option<SummaryBound>,
    pub upper_bound: Option<SummaryBound>,
}

/// A manifest with the summaries of its partition fields, where the manifest list has them.
pub struct ListedManifest {
    pub manifest: TrinoManifestFile,
    pub summaries: Option<Vec<FieldSummary>>,
}

/// The text of a bound. A bound without a partition field to decode it against is corrupt.
pub open spec fn summary_text(bound: Option<SummaryBound>, partition_type: Option<PrimitiveType>) -> Result<CellModel, ConnectorError> {
    match bound {
        None => Ok(CellModel::Null),
        Some(held) => if partition_type is None {
            Err(ConnectorError::Corrupt(CorruptData::SummaryWithoutPartitionField))
        } else {
            match held {
                SummaryBound::Text(text) => Ok(CellModel::Text(text@)),
                SummaryBound::Undecodable => Err(
                    ConnectorError::Corrupt(CorruptData::SummaryBoundUndecodable),
                ),
            }
        },
    }
}

/// A cell, or why there is none, as a mathematical value.
pub open spec fn cell_result(result: Result<Cell, ConnectorError>) -> Result<CellModel, ConnectorError> {
    match result {
        Ok(cell) => Ok(cell.model()),
        Err(error) => Err(error),
    }
}

/// Render one bound of a partition summary.
pub fn summary_bound(bound: &Option<SummaryBound>, partition_type: Option<PrimitiveType>) -> (cell: Result<Cell, ConnectorError>)
    ensures
        cell_result(cell) == summary_text(*bound, partition_type),
{
    match bound {
        None => Ok(Cell::Null),
        Some(held) => {
            if partition_type.is_none() {
                return Err(ConnectorError::Corrupt(CorruptData::SummaryWithoutPartitionField));
            }
            match held {
                SummaryBound::Text(text) => Ok(Cell::Text(text.clone())),
                SummaryBound::Undecodable => Err(
                    ConnectorError::Corrupt(CorruptData::SummaryBoundUndecodable),
                ),
            }
        },
    }
}

/// The primitive type of one partition field, or why it has none.
pub open spec fn partition_primitive(entries: Seq<EntryModel>, field: PartitionField) -> Result<PrimitiveType, ConnectorError> {
    if entry_with_id(entries, field.source_id) is None {
        Err(ConnectorError::Corrupt(CorruptData::PartitionSourceMissing))
    } else {
        match field.result_type {
            TransformResult::Undefined => Err(
                ConnectorError::Corrupt(CorruptData::PartitionTransformUndefined),
            ),
            TransformResult::Nested => Err(
                ConnectorError::Corrupt(CorruptData::PartitionNotPrimitive),
            ),
            TransformResult::Primitive(primitive) => Ok(primitive),
        }
    }
}

/// The primitive types of the first `n` partition fields.
pub open spec fn partition_primitives(entries: Seq<EntryModel>, fields: Seq<PartitionField>, n: nat) -> Result<Seq<PrimitiveType>, ConnectorError>
    decreases n,
{
    if n == 0 || n > fields.len() {
        Ok(seq![])
    } else {
        match partition_primitives(entries, fields, (n - 1) as nat) {
            Err(error) => Err(error),
            Ok(before) => match partition_primitive(entries, fields[n - 1]) {
                Err(error) => Err(error),
                Ok(primitive) => Ok(before.push(primitive)),
            },
        }
    }
}

proof fn lemma_partition_primitives_error(entries: Seq<EntryModel>, fields: Seq<PartitionField>, n: nat)
    requires
        n <= fields.len(),
        partition_primitives(entries, fields, n) is Err,
    ensures
        partition_primitives(entries, fields, fields.len()) == partition_primitives(
            entries,
            fields,
            n,
        ),
    decreases fields.len() - n,
{
    if n < fields.len() {
        lemma_partition_primitives_error(entries, fields, n + 1);
    }
}

/// The primitive types of a spec's partition fields, in order.
pub fn spec_partition_types(spec: &PartitionSpec, schema: &Schema) -> (types: Result<Vec<PrimitiveType>, ConnectorError>)
    ensures
        (match types {
            Ok(list) => Ok(list@),
            Err(error) => Err(error),
        }) == partition_primitives(schema.entries(), spec.fields@, spec.fields@.len()),
{
    let ghost entries = schema.entries();
    let mut list: Vec<PrimitiveType> = Vec::new();
    let mut i: usize = 0;
    while i < spec.fields.len()
        invariant
            i <= spec.fields.len(),
            entries == schema.entries(),
            partition_primitives(entries, spec.fields@, i as nat) == Ok::<Seq<PrimitiveType>, ConnectorError>(
                list@,
            ),
        decreases spec.fields.len() - i,
    {
        let field = &spec.fields[i];
        let primitive = if schema.field_by_id(field.source_id).is_none() {
            Err(ConnectorError::Corrupt(CorruptData::PartitionSourceMissing))
        } else {
            match field.result_type {
                TransformResult::Undefined => Err(
                    ConnectorError::Corrupt(CorruptData::PartitionTransformUndefined),
                ),
                TransformResult::Nested => Err(
                    ConnectorError::Corrupt(CorruptData::PartitionNotPrimitive),
                ),
                TransformResult::Primitive(primitive) => Ok(primitive),
            }
        };
        match primitive {
            Ok(primitive) => list.push(primitive),
            Err(error) => {
                proof {
                    lemma_partition_primitives_error(entries, spec.fields@, (i + 1) as nat);
                }
                return Err(error);
            },
        }
        i += 1;
    }
    Ok(list)
}

/// The first spec that has an id.
pub open spec fn spec_with_id(specs: Seq<PartitionSpec>, spec_id: i32, from: nat) -> Option<PartitionSpec>
    decreases specs.len() - from,
{
    if from >= specs.len() {
        None
    } else if specs[from as int].spec_id == spec_id {
        Some(specs[from as int])
    } else {
        spec_with_id(specs, spec_id, from + 1)
    }
}

/// The spec that has an id.
pub fn partition_spec_by_id<'a>(specs: &'a Vec<PartitionSpec>, spec_id: i32) -> (spec: Option<&'a PartitionSpec>)
    ensures
        (match spec {
            Some(held) => Some(*held),
            None => None,
        }) == spec_with_id(specs@, spec_id, 0),
{
    let mut i: usize = 0;
    while i < specs.len()
        invariant
            i <= specs.len(),
            spec_with_id(specs@, spec_id, 0) == spec_with_id(specs@, spec_id, i as nat),
        decreases specs.len() - i,
    {
        if specs[i].spec_id == spec_id {
            return Some(&specs[i]);
        }
        i += 1;
    }
    None
}

/// A flag that may be unknown.
pub open spec fn flag_cell(value: Option<bool>) -> CellModel {
    match value {
        Some(held) => CellModel::Boolean(held),
        None => CellModel::Null,
    }
}

/// The row of one partition field's summary.
pub open spec fn field_summary_cell(summary: FieldSummary, partition_type: Option<PrimitiveType>) -> Result<CellModel, ConnectorError> {
    match summary_text(summary.lower_bound, partition_type) {
        Err(error) => Err(error),
        Ok(lower) => match summary_text(summary.upper_bound, partition_type) {
            Err(error) => Err(error),
            Ok(upper) => Ok(
                CellModel::Row(
                    seq![
                        CellModel::Boolean(summary.contains_null),
                        flag_cell(summary.contains_nan),
                        lower,
                        upper,
                    ],
                ),
            ),
        },
    }
}

/// The rows of the first `n` summaries, each against the partition field at its position.
pub open spec fn field_summary_cells(summaries: Seq<FieldSummary>, types: Seq<PrimitiveType>, n: nat) -> Result<Seq<CellModel>, ConnectorError>
    decreases n,
{
    if n == 0 || n > summaries.len() {
        Ok(seq![])
    } else {
        match field_summary_cells(summaries, types, (n - 1) as nat) {
            Err(error) => Err(error),
            Ok(before) => match field_summary_cell(
                summaries[n - 1],
                if n - 1 < types.len() {
                    Some(types[n - 1])
                } else {
                    None
                },
            ) {
                Err(error) => Err(error),
                Ok(cell) => Ok(before.push(cell)),
            },
        }
    }
}

/// The `partition_summaries` value of one manifest: null where the manifest list has no
/// summaries.
pub open spec fn summaries_cell(listed: ListedManifest, specs: Seq<PartitionSpec>, entries: Seq<EntryModel>) -> Result<CellModel, ConnectorError> {
    match listed.summaries {
        None => Ok(CellModel::Null),
        Some(summaries) => match spec_with_id(specs, listed.manifest.partition_spec_id, 0) {
            None => Err(ConnectorError::Corrupt(CorruptData::ManifestSpecMissing)),
            Some(spec) => match partition_primitives(entries, spec.fields@, spec.fields@.len()) {
                Err(error) => Err(error),
                Ok(types) => match field_summary_cells(summaries@, types, summaries@.len()) {
                    Err(error) => Err(error),
                    Ok(cells) => Ok(CellModel::List(cells)),
                },
            },
        },
    }
}

/// How many summary rows a manifest contributes.
pub open spec fn summary_count(listed: ListedManifest) -> int {
    match listed.summaries {
        None => 0,
        Some(summaries) => summaries@.len() as int,
    }
}

/// The `partition_summaries` values of the first `n` manifests and the number of their rows,
/// which has to fit the offsets of a list.
pub open spec fn all_summaries(manifests: Seq<ListedManifest>, specs: Seq<PartitionSpec>, entries: Seq<EntryModel>, n: nat) -> Result<(Seq<CellModel>, int), ConnectorError>
    decreases n,
{
    if n == 0 || n > manifests.len() {
        Ok((seq![], 0))
    } else {
        match all_summaries(manifests, specs, entries, (n - 1) as nat) {
            Err(error) => Err(error),
            Ok((before, rows)) => match summaries_cell(manifests[n - 1], specs, entries) {
                Err(error) => Err(error),
                Ok(cell) => if rows + summary_count(manifests[n - 1]) > i32::MAX {
                    Err(ConnectorError::Internal(InternalFault::SummaryOffsets))
                } else {
                    Ok((before.push(cell), rows + summary_count(manifests[n - 1])))
                },
            },
        }
    }
}

proof fn lemma_field_summary_cells_error(summaries: Seq<FieldSummary>, types: Seq<PrimitiveType>, n: nat)
    requires
        n <= summaries.len(),
        field_summary_cells(summaries, types, n) is Err,
    ensures
        field_summary_cells(summaries, types, summaries.len()) == field_summary_cells(
            summaries,
            types,
            n,
        ),
    decreases summaries.len() - n,
{
    if n < summaries.len() {
        lemma_field_summary_cells_error(summaries, types, n + 1);
    }
}

proof fn lemma_all_summaries_error(manifests: Seq<ListedManifest>, specs: Seq<PartitionSpec>, entries: Seq<EntryModel>, n: nat)
    requires
        n <= manifests.len(),
        all_summaries(manifests, specs, entries, n) is Err,
    ensures
        all_summaries(manifests, specs, entries, manifests.len()) == all_summaries(
            manifests,
            specs,
            entries,
            n,
        ),
    decreases manifests.len() - n,
{
    if n < manifests.len() {
        lemma_all_summaries_error(manifests, specs, entries, n + 1);
    }
}

fn field_summary_to_cell(summary: &FieldSummary, partition_type: Option<PrimitiveType>) -> (cell: Result<Cell, ConnectorError>)
    ensures
        cell_result(cell) == field_summary_cell(*summary, partition_type),
{
    let lower = match summary_bound(&summary.lower_bound, partition_type) {
        Ok(cell) => cell,
        Err(error) => return Err(error),
    };
    let upper = match summary_bound(&summary.upper_bound, partition_type) {
        Ok(cell) => cell,
        Err(error) => return Err(error),
    };
    let nan = match summary.contains_nan {
        Some(held) => Cell::Boolean(held),
        None => Cell::Null,
    };
    let mut items = new_cells();
    push_cell(&mut items, Cell::Boolean(summary.contains_null));
    push_cell(&mut items, nan);
    push_cell(&mut items, lower);
    push_cell(&mut items, upper);
    proof {
        lemma_list_model(items);
        assert(cell_models(items@) =~= seq![
            CellModel::Boolean(summary.contains_null),
            flag_cell(summary.contains_nan),
            lower.model(),
            upper.model(),
        ]);
    }
    Ok(Cell::Row(items))
}

fn summaries_to_cell(summaries: &Vec<FieldSummary>, types: &Vec<PrimitiveType>) -> (cell: Result<Cell, ConnectorError>)
    ensures
        cell_result(cell) == (match field_summary_cells(summaries@, types@, summaries@.len()) {
            Ok(cells) => Ok(CellModel::List(cells)),
            Err(error) => Err(error),
        }),
{
    let mut items = new_cells();
    let mut i: usize = 0;
    while i < summaries.len()
        invariant
            i <= summaries.len(),
            field_summary_cells(summaries@, types@, i as nat) == Ok::<Seq<CellModel>, ConnectorError>(
                cell_models(items@),
            ),
        decreases summaries.len() - i,
    {
        let partition_type: Option<PrimitiveType> = if i < types.len() {
            Some(types[i])
        } else {
            None
        };
        match field_summary_to_cell(&summaries[i], partition_type) {
            Ok(cell) => push_cell(&mut items, cell),
            Err(error) => {
                proof {
                    lemma_field_summary_cells_error(summaries@, types@, (i + 1) as nat);
                }
                return Err(error);
            },
        }
        i += 1;
    }
    proof {
        lemma_list_model(items);
    }
    Ok(Cell::List(items))
}

fn manifest_summaries(listed: &ListedManifest, specs: &Vec<PartitionSpec>, schema: &Schema) -> (cell: Result<Cell, ConnectorError>)
    ensures
        cell_result(cell) == summaries_cell(*listed, specs@, schema.entries()),
{
    match &listed.summaries {
        None => Ok(Cell::Null),
        Some(summaries) => match partition_spec_by_id(specs, listed.manifest.partition_spec_id) {
            None => Err(ConnectorError::Corrupt(CorruptData::ManifestSpecMissing)),
            Some(spec) => match spec_partition_types(spec, schema) {
                Err(error) => Err(error),
                Ok(types) => summaries_to_cell(summaries, &types),
            },
        },
    }
}

fn summary_cells(manifests: &Vec<ListedManifest>, specs: &Vec<PartitionSpec>, schema: &Schema) -> (cells: Result<Vec<Cell>, ConnectorError>)
    ensures
        match all_summaries(manifests@, specs@, schema.entries(), manifests@.len()) {
            Ok((models, _)) => cells is Ok && cell_models(cells->Ok_0@) == models,
            Err(error) => cells == Err::<Vec<Cell>, ConnectorError>(error),
        },
{
    let ghost entries = schema.entries();
    let mut cells = new_cells();
    let mut rows: usize = 0;
    let mut i: usize = 0;
    while i < manifests.len()
        invariant
            i <= manifests.len(),
            entries == schema.entries(),
            rows <= i32::MAX,
            all_summaries(manifests@, specs@, entries, i as nat) == Ok::<(Seq<CellModel>, int), ConnectorError>(
                (cell_models(cells@), rows as int),
            ),
        decreases manifests.len() - i,
    {
        let listed = &manifests[i];
        match manifest_summaries(listed, specs, schema) {
            Ok(cell) => {
                let count: usize = match &listed.summaries {
                    Some(summaries) => summaries.len(),
                    None => 0,
                };
                if count > 2147483647 || rows + count > 2147483647 {
                    proof {
                        lemma_all_summaries_error(manifests@, specs@, entries, (i + 1) as nat);
                    }
                    return Err(ConnectorError::Internal(InternalFault::SummaryOffsets));
                }
                push_cell(&mut cells, cell);
                rows = rows + count;
            },
            Err(error) => {
                proof {
                    lemma_all_summaries_error(manifests@, specs@, entries, (i + 1) as nat);
                }
                return Err(error);
            },
        }
        i += 1;
    }
    Ok(cells)
}

/// The carrier of one part of a partition summary: two flags, then two bounds.
pub open spec fn summary_part(place: int) -> DataTypeModel {
    if place < 2 {
        DataTypeModel::Boolean
    } else {
        DataTypeModel::Utf8
    }
}

/// Whether one part of a partition summary is null.
pub open spec fn part_is_null(summary: FieldSummary, place: int) -> bool {
    if place == 1 {
        summary.contains_nan is None
    } else if place == 2 {
        summary.lower_bound is None
    } else if place == 3 {
        summary.upper_bound is None
    } else {
        false
    }
}

/// Whether one part is null in some summary of a list of manifests.
pub open spec fn part_has_null(manifests: Seq<ListedManifest>, place: int) -> bool {
    exists|i: int, k: int|
        0 <= i < manifests.len() && manifests[i].summaries is Some && 0 <= k < (
        manifests[i].summaries->0)@.len() && part_is_null(
            #[trigger] (manifests[i].summaries->0)@[k],
            place,
        )
}

/// Whether the four parts of a partition summary fit the fields that are declared for them: each
/// has its carrier, and none is null where its field allows no null.
pub open spec fn parts_fit(fields: Seq<CarrierModel>, manifests: Seq<ListedManifest>) -> bool {
    &&& fields.len() == 4
    &&& forall|place: int|
        0 <= place < 4 ==> (#[trigger] fields[place]).data_type == summary_part(place) && (
        fields[place].nullable || !part_has_null(manifests, place))
}

/// The `partition_summaries` column of a list of manifests, under the carrier that is declared for
/// it.
pub open spec fn summaries_column(
    data_type: DataTypeModel,
    manifests: Seq<ListedManifest>,
    specs: Seq<PartitionSpec>,
    entries: Seq<EntryModel>,
) -> Result<ColumnModel, ConnectorError> {
    match data_type {
        DataTypeModel::List(item) => match item.data_type {
            DataTypeModel::Struct(fields) => match all_summaries(
                manifests,
                specs,
                entries,
                manifests.len(),
            ) {
                Err(error) => Err(error),
                Ok((cells, _)) => if parts_fit(fields, manifests) {
                    Ok(ColumnModel::Flat { data_type, cells })
                } else {
                    Err(ConnectorError::Internal(InternalFault::RowColumns))
                },
            },
            _ => Err(ConnectorError::Internal(InternalFault::SummaryNotStruct)),
        },
        _ => Err(ConnectorError::Internal(InternalFault::SummariesNotList)),
    }
}

fn is_part_null(summary: &FieldSummary, place: usize) -> (null: bool)
    ensures
        null == part_is_null(*summary, place as int),
{
    if place == 1 {
        summary.contains_nan.is_none()
    } else if place == 2 {
        summary.lower_bound.is_none()
    } else if place == 3 {
        summary.upper_bound.is_none()
    } else {
        false
    }
}

fn has_null_part(manifests: &Vec<ListedManifest>, place: usize) -> (null: bool)
    ensures
        null == part_has_null(manifests@, place as int),
{
    let mut i: usize = 0;
    while i < manifests.len()
        invariant
            i <= manifests.len(),
            forall|m: int, k: int|
                0 <= m < i && manifests@[m].summaries is Some && 0 <= k < (
                manifests@[m].summaries->0)@.len() ==> !part_is_null(
                    #[trigger] (manifests@[m].summaries->0)@[k],
                    place as int,
                ),
        decreases manifests.len() - i,
    {
        if let Some(summaries) = &manifests[i].summaries {
            let mut s: usize = 0;
            while s < summaries.len()
                invariant
                    s <= summaries.len(),
                    i < manifests.len(),
                    manifests@[i as int].summaries == Some(*summaries),
                    forall|k: int|
                        0 <= k < s ==> !part_is_null(#[trigger] summaries@[k], place as int),
                decreases summaries.len() - s,
            {
                if is_part_null(&summaries[s], place) {
                    assert(part_is_null(
                        (manifests@[i as int].summaries->0)@[s as int],
                        place as int,
                    ));
                    return true;
                }
                s += 1;
            }
        }
        i += 1;
    }
    false
}

fn do_parts_fit(fields: &Vec<Field>, manifests: &Vec<ListedManifest>) -> (fit: bool)
    ensures
        fit == parts_fit(field_models(fields@), manifests@),
{
    let ghost models = field_models(fields@);
    assert(models.len() == fields@.len());
    if fields.len() != 4 {
        return false;
    }
    let mut place: usize = 0;
    while place < 4
        invariant
            place <= 4,
            fields.len() == 4,
            models == field_models(fields@),
            models.len() == 4,
            forall|p: int|
                0 <= p < place ==> (#[trigger] models[p]).data_type == summary_part(p) && (
                models[p].nullable || !part_has_null(manifests@, p)),
        decreases 4 - place,
    {
        assert(models[place as int] == fields@[place as int].model());
        let field = &fields[place];
        let carried = if place < 2 {
            matches!(field.data_type, DataType::Boolean)
        } else {
            matches!(field.data_type, DataType::Utf8)
        };
        if !carried || (!field.nullable && has_null_part(manifests, place)) {
            assert(!(models[place as int].data_type == summary_part(place as int) && (
            models[place as int].nullable || !part_has_null(manifests@, place as int))));
            return false;
        }
        place += 1;
    }
    true
}

/// Build the `partition_summaries` column.
pub fn partition_summaries_array(
    list_type: &DataType,
    manifests: &Vec<ListedManifest>,
    specs: &Vec<PartitionSpec>,
    schema: &Schema,
) -> (column: Result<Column, ConnectorError>)
    ensures
        column_result(column) == summaries_column(
            list_type.model(),
            manifests@,
            specs@,
            schema.entries(),
        ),
{
    match list_type {
        DataType::List(item) => match &item.data_type {
            DataType::Struct(fields) => {
                proof {
                    lemma_struct_model(*fields);
                    assert(list_type.model() == DataTypeModel::List(Box::new(item.model())));
                    assert(item.model().data_type == DataTypeModel::Struct(field_models(fields@)));
                }
                let cells = match summary_cells(manifests, specs, schema) {
                    Ok(cells) => cells,
                    Err(error) => return Err(error),
                };
                if !do_parts_fit(fields, manifests) {
                    return Err(ConnectorError::Internal(InternalFault::RowColumns));
                }
                Ok(Column::Flat { data_type: list_type.duplicate(), cells })
            },
            _ => Err(ConnectorError::Internal(InternalFault::SummaryNotStruct)),
        },
        _ => Err(ConnectorError::Internal(InternalFault::SummariesNotList)),
    }
}

impl SystemRow for ListedManifest {

    open spec fn carrier_model(column: Seq<char>) -> Option<DataTypeModel> {
        if column == "content"@ {
            Some(DataTypeModel::Int32)
        } else if column == "path"@ {
            Some(DataTypeModel::Utf8)
        } else if column == "length"@ {
            Some(DataTypeModel::Int64)
        } else if column == "partition_spec_id"@ {
            Some(DataTypeModel::Int32)
        } else if column == "added_snapshot_id"@ {
            Some(DataTypeModel::Int64)
        } else if column == "added_data_files_count"@ {
            Some(DataTypeModel::Int32)
        } else if column == "added_rows_count"@ {
            Some(DataTypeModel::Int64)
        } else if column == "existing_data_files_count"@ {
            Some(DataTypeModel::Int32)
        } else if column == "existing_rows_count"@ {
            Some(DataTypeModel::Int64)
        } else if column == "deleted_data_files_count"@ {
            Some(DataTypeModel::Int32)
        } else if column == "deleted_rows_count"@ {
            Some(DataTypeModel::Int64)
        } else {
            None
        }
    }

    open spec fn cell_model(&self, column: Seq<char>) -> CellModel {
        if column == "content"@ {
            CellModel::Int32(self.manifest.content.spec_code())
        } else if column == "path"@ {
            CellModel::Text(self.manifest.path@)
        } else if column == "length"@ {
            CellModel::Int64(self.manifest.length)
        } else if column == "partition_spec_id"@ {
            CellModel::Int32(self.manifest.partition_spec_id)
        } else if column == "added_snapshot_id"@ {
            CellModel::Int64(self.manifest.added_snapshot_id)
        } else if column == "added_data_files_count"@ {
            int_cell(self.manifest.added_files_count)
        } else if column == "added_rows_count"@ {
            long_cell(self.manifest.added_rows_count)
        } else if column == "existing_data_files_count"@ {
            int_cell(self.manifest.existing_files_count)
        } else if column == "existing_rows_count"@ {
            long_cell(self.manifest.existing_rows_count)
        } else if column == "deleted_data_files_count"@ {
            int_cell(self.manifest.deleted_files_count)
        } else if column == "deleted_rows_count"@ {
            long_cell(self.manifest.deleted_rows_count)
        } else {
            CellModel::Null
        }
    }

    fn carrier(column: &String) -> (carrier: Option<DataType>) {
        if is_named(column, "content") {
            Some(DataType::Int32)
        } else if is_named(column, "path") {
            Some(DataType::Utf8)
        } else if is_named(column, "length") {
            Some(DataType::Int64)
        } else if is_named(column, "partition_spec_id") {
            Some(DataType::Int32)
        } else if is_named(column, "added_snapshot_id") {
            Some(DataType::Int64)
        } else if is_named(column, "added_data_files_count") {
            Some(DataType::Int32)
        } else if is_named(column, "added_rows_count") {
            Some(DataType::Int64)
        } else if is_named(column, "existing_data_files_count") {
            Some(DataType::Int32)
        } else if is_named(column, "existing_rows_count") {
            Some(DataType::Int64)
        } else if is_named(column, "deleted_data_files_count") {
            Some(DataType::Int32)
        } else if is_named(column, "deleted_rows_count") {
            Some(DataType::Int64)
        } else {
            None
        }
    }

    fn cell(&self, column: &String) -> (cell: Cell) {
        if is_named(column, "content") {
            Cell::Int32(self.manifest.content.code())
        } else if is_named(column, "path") {
            Cell::Text(self.manifest.path.clone())
        } else if is_named(column, "length") {
            Cell::Int64(self.manifest.length)
        } else if is_named(column, "partition_spec_id") {
            Cell::Int32(self.manifest.partition_spec_id)
        } else if is_named(column, "added_snapshot_id") {
            Cell::Int64(self.manifest.added_snapshot_id)
        } else if is_named(column, "added_data_files_count") {
            int_to_cell(self.manifest.added_files_count)
        } else if is_named(column, "added_rows_count") {
            long_to_cell(self.manifest.added_rows_count)
        } else if is_named(column, "existing_data_files_count") {
            int_to_cell(self.manifest.existing_files_count)
        } else if is_named(column, "existing_rows_count") {
            long_to_cell(self.manifest.existing_rows_count)
        } else if is_named(column, "deleted_data_files_count") {
            int_to_cell(self.manifest.deleted_files_count)
        } else if is_named(column, "deleted_rows_count") {
            long_to_cell(self.manifest.deleted_rows_count)
        } else {
            Cell::Null
        }
    }
}


/// The column of one field of `$manifests`.
pub open spec fn manifests_column(
    field: CarrierModel,
    manifests: Seq<ListedManifest>,
    specs: Seq<PartitionSpec>,
    entries: Seq<EntryModel>,
) -> Result<ColumnModel, ConnectorError> {
    if field.name == "partition_summaries"@ {
        summaries_column(field.data_type, manifests, specs, entries)
    } else {
        crate::relation_columns::plain_column(field, manifests)
    }
}

/// Materialize the columns of `$manifests`, in schema order.
pub fn manifests_columns(
    schema: &Vec<Field>,
    manifests: &Vec<ListedManifest>,
    specs: &Vec<PartitionSpec>,
    table_schema: &Schema,
) -> (columns: Result<Vec<Column>, ConnectorError>)
    ensures
        match columns {
            Ok(columns) => columns@.len() == schema@.len() && forall|i: int|
                0 <= i < schema@.len() ==> Ok::<ColumnModel, ConnectorError>(
                    (#[trigger] columns@[i]).model(),
                ) == manifests_column(
                    schema@[i].model(),
                    manifests@,
                    specs@,
                    table_schema.entries(),
                ),
            Err(error) => exists|i: int|
                0 <= i < schema@.len() && manifests_column(
                    (#[trigger] schema@[i]).model(),
                    manifests@,
                    specs@,
                    table_schema.entries(),
                ) == Err::<ColumnModel, ConnectorError>(error) && forall|k: int|
                    0 <= k < i ==> manifests_column(
                        (#[trigger] schema@[k]).model(),
                        manifests@,
                        specs@,
                        table_schema.entries(),
                    ) is Ok,
        },
{
    let mut columns: Vec<Column> = Vec::new();
    let mut i: usize = 0;
    while i < schema.len()
        invariant
            i <= schema.len(),
            columns@.len() == i,
            forall|k: int|
                0 <= k < i ==> Ok::<ColumnModel, ConnectorError>(
                    (#[trigger] columns@[k]).model(),
                ) == manifests_column(
                    schema@[k].model(),
                    manifests@,
                    specs@,
                    table_schema.entries(),
                ),
            forall|k: int|
                0 <= k < i ==> manifests_column(
                    (#[trigger] schema@[k]).model(),
                    manifests@,
                    specs@,
                    table_schema.entries(),
                ) is Ok,
        decreases schema.len() - i,
    {
        let field = &schema[i];
        let column = if is_named(&field.name, "partition_summaries") {
            partition_summaries_array(&field.data_type, manifests, specs, table_schema)
        } else {
            crate::relation_columns::plain_field_column(field, manifests)
        };
        assert(column_result(column) == manifests_column(
            schema@[i as int].model(),
            manifests@,
            specs@,
            table_schema.entries(),
        ));
        match column {
            Ok(column) => columns.push(column),
            Err(error) => return Err(error),
        }
        i += 1;
    }
    Ok(columns)
}

} // verus!
