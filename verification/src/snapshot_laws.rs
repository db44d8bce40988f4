//! What `$snapshots`, `$history`, `$refs` and `$manifests` state of a table, and how the pages of a
//! system relation are handed out.

use vstd::prelude::*;

use crate::carrier::{CarrierModel, Field};
use crate::column::{CellModel, Column};
use crate::error::ConnectorError;
use crate::keyed::{
    ascending_names, get_named, law_get_named_after_put_named, law_put_named_keeps_ascending,
};
use crate::partition::PartitionSpec;
use crate::relation_columns::plain_column;
use crate::relation_laws::law_every_manifest_has_its_summaries;
use crate::row_laws::law_entries_are_found_by_their_name;
use crate::seqs::lemma_filter_step;
use crate::snapshot_relations::{ancestor_at, history_row, is_ancestor, manifests_column, parent_of, properties_by_key, public_refs, reported, summaries_cell, summary_cell, HistoryEntry, ListedManifest, RefFacts, SnapshotFacts};
use crate::system_page_source::{
    column_fault, page_windows, IcebergSystemPageSource, IcebergSystemTableExecution,
};
use crate::system_schema::IcebergSystemTableType;
use crate::types::EntryModel;
use crate::value::text_before;

verus! {

// ---------------------------------------------------------------------------
// $snapshots
// ---------------------------------------------------------------------------

/// `$snapshots` reports each snapshot in turn, but for those that only mark a write fence.
pub proof fn law_snapshots_are_reported_in_turn(snapshots: Seq<SnapshotFacts>, next: SnapshotFacts)
    ensures
        Seq::<SnapshotFacts>::empty().filter(reported()) == Seq::<SnapshotFacts>::empty(),
        next.fence_marker ==> snapshots.push(next).filter(reported()) == snapshots.filter(reported()),
        !next.fence_marker ==> snapshots.push(next).filter(reported()) == snapshots.filter(reported()).push(next),
{
    reveal(Seq::filter);
    let longer = snapshots.push(next);
    lemma_filter_step(longer, reported(), snapshots.len() as int);
    assert(longer.take(snapshots.len() as int) =~= snapshots);
    assert(longer.take(longer.len() as int) =~= longer);
}

proof fn lemma_properties(properties: Seq<(String, String)>, n: nat)
    requires
        n <= properties.len(),
    ensures
        ({
            let list = properties_by_key(properties, n);
            &&& ascending_names(list)
            &&& forall|i: int|
                0 <= i < n && (forall|later: int| i < later < n ==> properties[later].0@ != properties[i].0@)
                    ==> get_named(list, (#[trigger] properties[i]).0@) == Some(properties[i].1@)
            &&& forall|key: Seq<char>|
                (#[trigger] get_named(list, key)) is Some ==> exists|i: int|
                    0 <= i < n && (#[trigger] properties[i]).0@ == key && get_named(list, key) == Some(
                        properties[i].1@,
                    )
        }),
    decreases n,
{
    if n > 0 {
        lemma_properties(properties, (n - 1) as nat);
        let before = properties_by_key(properties, (n - 1) as nat);
        let list = properties_by_key(properties, n);
        let (own, value) = (properties[n - 1].0@, properties[n - 1].1@);
        law_put_named_keeps_ascending(before, own, value);
        assert forall|i: int|
            0 <= i < n && (forall|later: int| i < later < n ==> properties[later].0@ != properties[i].0@) implies get_named(
            list,
            (#[trigger] properties[i]).0@,
        ) == Some(properties[i].1@) by {
            law_get_named_after_put_named(before, own, value, properties[i].0@);
            if i < n - 1 {
                assert(properties[n - 1].0@ != properties[i].0@);
            }
        }
        assert forall|key: Seq<char>| (#[trigger] get_named(list, key)) is Some implies exists|i: int|
            0 <= i < n && (#[trigger] properties[i]).0@ == key && get_named(list, key) == Some(properties[i].1@) by {
            law_get_named_after_put_named(before, own, value, key);
            if key == own {
                assert(properties[n - 1].0@ == key);
            } else {
                assert(get_named(before, key) is Some);
                let i = choose|i: int|
                    0 <= i < n - 1 && (#[trigger] properties[i]).0@ == key && get_named(before, key) == Some(
                        properties[i].1@,
                    );
                assert(properties[i].0@ == key);
            }
        }
    }
}

/// A snapshot without properties has no summary. Another has every property in it, each key with
/// its own value, the keys in order.
pub proof fn law_summaries_hold_every_property(properties: Seq<(String, String)>, i: int)
    ensures
        summary_cell(properties) is Null <==> properties.len() == 0,
        properties.len() > 0 ==> ({
            let cell = summary_cell(properties);
            &&& cell is Entries
            &&& cell->Entries_0.len() == cell->Entries_1.len()
            &&& forall|a: int, b: int|
                0 <= a < b < cell->Entries_0.len() ==> (#[trigger] cell->Entries_0[a]) is Text && (
                #[trigger] cell->Entries_0[b]) is Text && text_before(
                    cell->Entries_0[a]->Text_0,
                    cell->Entries_0[b]->Text_0,
                )
            &&& 0 <= i < properties.len() && (forall|later: int|
                i < later < properties.len() ==> properties[later].0@ != properties[i].0@) ==> exists|k: int|
                0 <= k < cell->Entries_0.len() && #[trigger] cell->Entries_0[k] == CellModel::Text(properties[i].0@)
                    && cell->Entries_1[k] == CellModel::Text(properties[i].1@)
        }),
{
    if properties.len() > 0 {
        lemma_properties(properties, properties.len());
        let list = properties_by_key(properties, properties.len());
        let cell = summary_cell(properties);
        if 0 <= i < properties.len() && (forall|later: int|
            i < later < properties.len() ==> properties[later].0@ != properties[i].0@) {
            assert(get_named(list, properties[i].0@) == Some(properties[i].1@));
            law_entries_are_found_by_their_name(list, properties[i].0@);
            let k = choose|k: int| 0 <= k < list.len() && #[trigger] list[k] == (properties[i].0@, properties[i].1@);
            assert(cell->Entries_0[k] == CellModel::Text(properties[i].0@));
        }
    }
}

// ---------------------------------------------------------------------------
// $history
// ---------------------------------------------------------------------------

/// The parent of a snapshot is the one that the last snapshot of that id states.
pub proof fn law_parents_are_those_that_snapshots_state(snapshots: Seq<SnapshotFacts>, id: i64)
    ensures
        forall|s: int|
            0 <= s < snapshots.len() && (#[trigger] snapshots[s]).snapshot_id == id && (forall|later: int|
                s < later < snapshots.len() ==> (#[trigger] snapshots[later]).snapshot_id != id) ==> parent_of(
                snapshots,
                id,
            ) == snapshots[s].parent_snapshot_id,
        (forall|s: int| 0 <= s < snapshots.len() ==> (#[trigger] snapshots[s]).snapshot_id != id) ==> parent_of(
            snapshots,
            id,
        ) is None,
        parent_of(snapshots, id) is Some ==> exists|s: int|
            0 <= s < snapshots.len() && (#[trigger] snapshots[s]).snapshot_id == id && snapshots[s].parent_snapshot_id
                == parent_of(snapshots, id),
    decreases snapshots.len(),
{
    if snapshots.len() > 0 {
        let shorter = snapshots.drop_last();
        let n = snapshots.len() - 1;
        law_parents_are_those_that_snapshots_state(shorter, id);
        if snapshots.last().snapshot_id == id {
            assert(snapshots[n].snapshot_id == id);
        } else {
            assert forall|s: int|
                0 <= s < snapshots.len() && (#[trigger] snapshots[s]).snapshot_id == id && (forall|later: int|
                    s < later < snapshots.len() ==> (#[trigger] snapshots[later]).snapshot_id != id) implies parent_of(
                snapshots,
                id,
            ) == snapshots[s].parent_snapshot_id by {
                assert(shorter[s].snapshot_id == id);
                assert forall|later: int| s < later < shorter.len() implies (#[trigger] shorter[later]).snapshot_id
                    != id by {
                    assert(snapshots[later].snapshot_id != id);
                }
            }
            if forall|s: int| 0 <= s < snapshots.len() ==> (#[trigger] snapshots[s]).snapshot_id != id {
                assert forall|s: int| 0 <= s < shorter.len() implies (#[trigger] shorter[s]).snapshot_id != id by {
                    assert(snapshots[s].snapshot_id != id);
                }
            }
            if parent_of(shorter, id) is Some {
                let s = choose|s: int|
                    0 <= s < shorter.len() && (#[trigger] shorter[s]).snapshot_id == id
                        && shorter[s].parent_snapshot_id == parent_of(shorter, id);
                assert(snapshots[s].snapshot_id == id);
            }
        }
    }
}

/// The current snapshot is an ancestor of itself, the parent of an ancestor is an ancestor, and
/// there is no other.
pub proof fn law_ancestors_are_reached_along_the_parents(
    snapshots: Seq<SnapshotFacts>,
    current: Option<i64>,
    id: i64,
)
    ensures
        current is None ==> !is_ancestor(snapshots, current, id),
        current == Some(id) ==> is_ancestor(snapshots, current, id),
        is_ancestor(snapshots, current, id) && parent_of(snapshots, id) is Some ==> is_ancestor(
            snapshots,
            current,
            parent_of(snapshots, id)->0,
        ),
        is_ancestor(snapshots, current, id) && current != Some(id) ==> exists|child: i64|
            is_ancestor(snapshots, current, child) && #[trigger] parent_of(snapshots, child) == Some(id),
{
    assert(ancestor_at(snapshots, current, 0) == current);
    if is_ancestor(snapshots, current, id) {
        let k = choose|k: nat| #[trigger] ancestor_at(snapshots, current, k) == Some(id);
        if k > 0 {
            lemma_some_before(snapshots, current, k);
            assert(ancestor_at(snapshots, current, (k - 1) as nat) is Some);
        }
        assert(ancestor_at(snapshots, current, k + 1) == parent_of(snapshots, id));
        if current != Some(id) {
            let child = ancestor_at(snapshots, current, (k - 1) as nat)->0;
            assert(ancestor_at(snapshots, current, (k - 1) as nat) == Some(child));
            assert(is_ancestor(snapshots, current, child) && parent_of(snapshots, child) == Some(id));
        }
    }
}

proof fn lemma_some_before(snapshots: Seq<SnapshotFacts>, current: Option<i64>, k: nat)
    ensures
        ancestor_at(snapshots, current, k) is Some ==> current is Some,
    decreases k,
{
    if k > 0 {
        lemma_some_before(snapshots, current, (k - 1) as nat);
    }
}

/// A step of the history states its snapshot, that snapshot's parent, and the time in microseconds.
pub proof fn law_history_states_its_steps(
    entry: HistoryEntry,
    snapshots: Seq<SnapshotFacts>,
    current: Option<i64>,
    s: int,
)
    ensures
        ({
            let row = history_row(entry, snapshots, current);
            &&& row.snapshot_id == entry.snapshot_id
            &&& i64::MIN <= entry.timestamp_ms * 1000 <= i64::MAX ==> row.made_current_at == entry.timestamp_ms * 1000
            &&& row.is_current_ancestor <==> is_ancestor(snapshots, current, entry.snapshot_id)
            &&& 0 <= s < snapshots.len() && snapshots[s].snapshot_id == entry.snapshot_id && (forall|later: int|
                s < later < snapshots.len() ==> (#[trigger] snapshots[later]).snapshot_id != entry.snapshot_id)
                ==> row.parent_id == snapshots[s].parent_snapshot_id
        }),
{
    law_parents_are_those_that_snapshots_state(snapshots, entry.snapshot_id);
}

// ---------------------------------------------------------------------------
// $refs
// ---------------------------------------------------------------------------

proof fn lemma_refs(refs: &Vec<RefFacts>, fence: Seq<char>, n: nat)
    requires
        n <= refs@.len(),
    ensures
        ({
            let list = public_refs(refs, fence, n);
            &&& ascending_names(list)
            &&& forall|i: int|
                0 <= i < n && !(#[trigger] refs@[i]).write_fence && refs@[i].name@ != fence && (forall|later: int|
                    i < later < n ==> refs@[later].name@ != refs@[i].name@) ==> get_named(list, refs@[i].name@)
                    == Some(&refs@[i])
            &&& forall|name: Seq<char>|
                (#[trigger] get_named(list, name)) is Some ==> exists|i: int|
                    0 <= i < n && (#[trigger] refs@[i]).name@ == name && !refs@[i].write_fence && name != fence
                        && get_named(list, name) == Some(&refs@[i])
        }),
    decreases n,
{
    if n > 0 {
        lemma_refs(refs, fence, (n - 1) as nat);
        let before = public_refs(refs, fence, (n - 1) as nat);
        let list = public_refs(refs, fence, n);
        let own = refs@[n - 1].name@;
        let reference = &refs@[n - 1];
        let public = !reference.write_fence && own != fence;
        if public {
            law_put_named_keeps_ascending(before, own, reference);
        }
        assert forall|i: int|
            0 <= i < n && !(#[trigger] refs@[i]).write_fence && refs@[i].name@ != fence && (forall|later: int|
                i < later < n ==> refs@[later].name@ != refs@[i].name@) implies get_named(list, refs@[i].name@)
            == Some(&refs@[i]) by {
            if public {
                law_get_named_after_put_named(before, own, reference, refs@[i].name@);
            }
            if i < n - 1 {
                assert(refs@[n - 1].name@ != refs@[i].name@);
            }
        }
        assert forall|name: Seq<char>| (#[trigger] get_named(list, name)) is Some implies exists|i: int|
            0 <= i < n && (#[trigger] refs@[i]).name@ == name && !refs@[i].write_fence && name != fence && get_named(
                list,
                name,
            ) == Some(&refs@[i]) by {
            if public {
                law_get_named_after_put_named(before, own, reference, name);
            }
            if public && name == own {
                assert(refs@[n - 1].name@ == name);
            } else {
                assert(get_named(before, name) is Some);
                let i = choose|i: int|
                    0 <= i < n - 1 && (#[trigger] refs@[i]).name@ == name && !refs@[i].write_fence && name != fence
                        && get_named(before, name) == Some(&refs@[i]);
                assert(refs@[i].name@ == name);
            }
        }
    }
}

/// Every ref that is not the connector's own is among the public refs under its name, and they are
/// all such refs.
pub proof fn law_every_public_ref_is_reported(refs: &Vec<RefFacts>, fence: Seq<char>, i: int, k: int)
    ensures
        ({
            let list = public_refs(refs, fence, refs@.len());
            &&& 0 <= i < refs@.len() && !refs@[i].write_fence && refs@[i].name@ != fence && (forall|later: int|
                i < later < refs@.len() ==> refs@[later].name@ != refs@[i].name@) ==> exists|place: int|
                0 <= place < list.len() && #[trigger] list[place] == (refs@[i].name@, &refs@[i])
            &&& 0 <= k < list.len() ==> exists|place: int|
                0 <= place < refs@.len() && #[trigger] refs@[place] == *list[k].1 && list[k].0 == refs@[place].name@
                    && !refs@[place].write_fence && list[k].0 != fence
        }),
{
    let list = public_refs(refs, fence, refs@.len());
    lemma_refs(refs, fence, refs@.len());
    if 0 <= i < refs@.len() && !refs@[i].write_fence && refs@[i].name@ != fence && (forall|later: int|
        i < later < refs@.len() ==> refs@[later].name@ != refs@[i].name@) {
        assert(get_named(list, refs@[i].name@) == Some(&refs@[i]));
        law_entries_are_found_by_their_name(list, refs@[i].name@);
    }
    if 0 <= k < list.len() {
        lemma_ascending_finds(list, k);
        let name = list[k].0;
        assert(get_named(list, name) == Some(list[k].1));
        let place = choose|place: int|
            0 <= place < refs@.len() && (#[trigger] refs@[place]).name@ == name && !refs@[place].write_fence && name
                != fence && get_named(list, name) == Some(&refs@[place]);
        assert(refs@[place] == *list[k].1);
    }
}

proof fn lemma_ascending_finds<V>(list: Seq<(Seq<char>, V)>, k: int)
    requires
        ascending_names(list),
        0 <= k < list.len(),
    ensures
        get_named(list, list[k].0) == Some(list[k].1),
    decreases list.len(),
{
    if k < list.len() - 1 {
        lemma_ascending_finds(list.drop_last(), k);
        assert(list.drop_last()[k] == list[k]);
        crate::value::law_text_order_is_irreflexive(list[k].0);
        assert(list.last() == list[list.len() - 1]);
    }
}

// ---------------------------------------------------------------------------
// $manifests
// ---------------------------------------------------------------------------

/// The summaries of `$manifests` are those of each manifest, at its place, where the column has
/// room for them: two flags and two texts, and no null where none is allowed.
pub proof fn law_summaries_have_a_row_for_each_manifest(
    field: CarrierModel,
    manifests: Seq<ListedManifest>,
    specs: Seq<PartitionSpec>,
    entries: Seq<EntryModel>,
    m: int,
)
    requires
        field.name == "partition_summaries"@,
        manifests_column(field, manifests, specs, entries) is Ok,
    ensures
        ({
            let column = manifests_column(field, manifests, specs, entries)->Ok_0;
            &&& column is Flat
            &&& column->data_type == field.data_type
            &&& column->cells.len() == manifests.len()
            &&& 0 <= m < manifests.len() ==> summaries_cell(manifests[m], specs, entries) == Ok::<
                CellModel,
                ConnectorError,
            >(column->cells[m])
            &&& field.data_type is List
            &&& field.data_type->List_0.data_type is Struct
            &&& ({
                let parts = field.data_type->List_0.data_type->Struct_0;
                &&& parts.len() == 4
                &&& parts[0].data_type is Boolean
                &&& parts[1].data_type is Boolean
                &&& parts[2].data_type is Utf8
                &&& parts[3].data_type is Utf8
            })
        }),
{
    law_every_manifest_has_its_summaries(manifests, specs, entries, manifests.len());
    let parts = field.data_type->List_0.data_type->Struct_0;
    assert(parts[0].data_type is Boolean && parts[1].data_type is Boolean);
    assert(parts[2].data_type is Utf8 && parts[3].data_type is Utf8);
}

/// A column of `$manifests` that is not the summaries states one fact of each manifest.
pub proof fn law_other_manifest_columns_are_plain(
    field: CarrierModel,
    manifests: Seq<ListedManifest>,
    specs: Seq<PartitionSpec>,
    entries: Seq<EntryModel>,
)
    requires
        field.name != "partition_summaries"@,
    ensures
        manifests_column(field, manifests, specs, entries) == plain_column(field, manifests),
{
}

// ---------------------------------------------------------------------------
// Pages of a relation
// ---------------------------------------------------------------------------

/// `$files` alone is read by splits.
pub proof fn law_files_alone_is_distributed(relation: IcebergSystemTableType)
    ensures
        relation.spec_execution() == IcebergSystemTableExecution::DistributedSplits <==> relation
            == IcebergSystemTableType::Files,
{
}

proof fn lemma_columns_checked(fields: Seq<Field>, columns: Seq<Column>, row_count: nat, n: nat)
    requires
        n <= columns.len(),
        columns.len() == fields.len(),
    ensures
        column_fault(fields, columns, row_count, n) is None <==> forall|i: int|
            0 <= i < n ==> (#[trigger] columns[i]).model().spec_len() == row_count && columns[i].model().carrier()
                == fields[i].data_type.model(),
    decreases n,
{
    if n > 0 {
        lemma_columns_checked(fields, columns, row_count, (n - 1) as nat);
        assert(columns[n - 1] == columns[n - 1]);
    }
}

/// A relation is handed out where it has one column for each field, every one of the field's carrier
/// and as long as the relation, and every output column is one of them.
pub proof fn law_every_column_of_a_relation_is_checked(
    fields: Seq<Field>,
    columns: Seq<Column>,
    projection: Seq<usize>,
    row_count: nat,
)
    ensures
        IcebergSystemPageSource::fault(fields, columns, projection, row_count) is None <==> columns.len()
            == fields.len() && (forall|i: int|
            0 <= i < columns.len() ==> (#[trigger] columns[i]).model().spec_len() == row_count
                && columns[i].model().carrier() == fields[i].data_type.model()) && (forall|p: int|
            0 <= p < projection.len() ==> (#[trigger] projection[p]) < columns.len()),
{
    if columns.len() == fields.len() {
        lemma_columns_checked(fields, columns, row_count, columns.len());
    }
}

/// A relation is finished when every row has been handed out or it was closed, and not before.
pub proof fn law_a_relation_is_finished_with_its_last_row(source: IcebergSystemPageSource)
    requires
        source.wf(),
    ensures
        source.finished() <==> source.closed || source.emitted == source.row_count,
        source.emitted <= source.row_count && source.max_page_rows > 0,
        page_windows(source.row_count as int, source.emitted as int, source.max_page_rows as int).len() == 0
            <==> source.emitted == source.row_count,
{
}

} // verus!
