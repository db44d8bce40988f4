//! What the rows of the system relations state of the manifests of a snapshot.

use vstd::prelude::*;

use crate::binding_laws::law_entries_are_found_by_their_id;
use crate::keyed::{
    ascending, ascending_names, get, get_named, law_get_after_put, law_get_named_after_put_named,
    law_put_keeps_ascending, law_put_named_keeps_ascending, named_model,
};
use crate::partition::{PartitionField, PartitionSpec};
use crate::snapshot_relations::{spec_with_id, ListedManifest};
use crate::split::IcebergFileFormat;
use crate::system_page_source::{is_snapshot_row, snapshot_fault, snapshot_positions};
use crate::system_provider::{is_manifest_listing, is_snapshot_listing, TableFacts};
use crate::system_rows::{
    bounds_by_id, counts_by_id, first_fault, is_row_of, kept_positions, values_by_name, DataContentType,
    EntryStatusRule, FileRow, ManifestEntry, ManifestStatus, TrinoManifestFile,
};
use crate::value::{Datum, Literal};

verus! {

// ---------------------------------------------------------------------------
// One row
// ---------------------------------------------------------------------------

proof fn lemma_counts(counts: Seq<(i32, u64)>, n: nat)
    requires
        n <= counts.len(),
    ensures
        ({
            let list = counts_by_id(counts, n);
            &&& ascending(list)
            &&& forall|i: int|
                0 <= i < n && (forall|later: int| i < later < n ==> counts[later].0 != counts[i].0) ==> get(
                    list,
                    (#[trigger] counts[i]).0,
                ) == Some(counts[i].1 as i64)
            &&& forall|id: i32|
                (#[trigger] get(list, id)) is Some ==> exists|i: int|
                    0 <= i < n && (#[trigger] counts[i]).0 == id && get(list, id) == Some(counts[i].1 as i64)
        }),
    decreases n,
{
    if n > 0 {
        lemma_counts(counts, (n - 1) as nat);
        let before = counts_by_id(counts, (n - 1) as nat);
        let list = counts_by_id(counts, n);
        let (own, count) = (counts[n - 1].0, counts[n - 1].1 as i64);
        law_put_keeps_ascending(before, own, count);
        assert forall|i: int|
            0 <= i < n && (forall|later: int| i < later < n ==> counts[later].0 != counts[i].0) implies get(
            list,
            (#[trigger] counts[i]).0,
        ) == Some(counts[i].1 as i64) by {
            law_get_after_put(before, own, count, counts[i].0);
            if i < n - 1 {
                assert(counts[n - 1].0 != counts[i].0);
            }
        }
        assert forall|id: i32| (#[trigger] get(list, id)) is Some implies exists|i: int|
            0 <= i < n && (#[trigger] counts[i]).0 == id && get(list, id) == Some(counts[i].1 as i64) by {
            law_get_after_put(before, own, count, id);
            if id == own {
                assert(counts[n - 1].0 == id);
            } else {
                assert(get(before, id) is Some);
                let i = choose|i: int|
                    0 <= i < n - 1 && (#[trigger] counts[i]).0 == id && get(before, id) == Some(
                        counts[i].1 as i64,
                    );
                assert(counts[i].0 == id);
            }
        }
    }
}

proof fn lemma_bounds(bounds: &Vec<(i32, Datum)>, n: nat)
    requires
        n <= bounds@.len(),
    ensures
        ({
            let list = bounds_by_id(bounds, n);
            &&& ascending(list)
            &&& forall|i: int|
                0 <= i < n && (forall|later: int| i < later < n ==> bounds@[later].0 != bounds@[i].0) ==> get(
                    list,
                    (#[trigger] bounds@[i]).0,
                ) == Some(&bounds@[i].1)
            &&& forall|id: i32|
                (#[trigger] get(list, id)) is Some ==> exists|i: int|
                    0 <= i < n && (#[trigger] bounds@[i]).0 == id && get(list, id) == Some(&bounds@[i].1)
        }),
    decreases n,
{
    if n > 0 {
        lemma_bounds(bounds, (n - 1) as nat);
        let before = bounds_by_id(bounds, (n - 1) as nat);
        let list = bounds_by_id(bounds, n);
        let own = bounds@[n - 1].0;
        let datum = &bounds@[n - 1].1;
        law_put_keeps_ascending(before, own, datum);
        assert forall|i: int|
            0 <= i < n && (forall|later: int| i < later < n ==> bounds@[later].0 != bounds@[i].0) implies get(
            list,
            (#[trigger] bounds@[i]).0,
        ) == Some(&bounds@[i].1) by {
            law_get_after_put(before, own, datum, bounds@[i].0);
            if i < n - 1 {
                assert(bounds@[n - 1].0 != bounds@[i].0);
            }
        }
        assert forall|id: i32| (#[trigger] get(list, id)) is Some implies exists|i: int|
            0 <= i < n && (#[trigger] bounds@[i]).0 == id && get(list, id) == Some(&bounds@[i].1) by {
            law_get_after_put(before, own, datum, id);
            if id == own {
                assert(bounds@[n - 1].0 == id);
            } else {
                assert(get(before, id) is Some);
                let i = choose|i: int|
                    0 <= i < n - 1 && (#[trigger] bounds@[i]).0 == id && get(before, id) == Some(&bounds@[i].1);
                assert(bounds@[i].0 == id);
            }
        }
    }
}

proof fn lemma_values<'a>(fields: Seq<PartitionField>, values: &'a Vec<Option<Literal>>, n: nat)
    requires
        n <= fields.len(),
        fields.len() == values@.len(),
    ensures
        ({
            let list = values_by_name(fields, values, n);
            &&& ascending_names(list)
            &&& forall|i: int|
                0 <= i < n && (forall|later: int| i < later < n ==> fields[later].name@ != fields[i].name@)
                    ==> get_named(list, (#[trigger] fields[i]).name@) == Some(&values@[i])
            &&& forall|name: Seq<char>|
                (#[trigger] get_named(list, name)) is Some ==> exists|i: int|
                    0 <= i < n && (#[trigger] fields[i]).name@ == name && get_named(list, name) == Some(
                        &values@[i],
                    )
        }),
    decreases n,
{
    if n > 0 {
        lemma_values(fields, values, (n - 1) as nat);
        let before = values_by_name(fields, values, (n - 1) as nat);
        let list = values_by_name(fields, values, n);
        let own = fields[n - 1].name@;
        let value = &values@[n - 1];
        law_put_named_keeps_ascending(before, own, value);
        assert forall|i: int|
            0 <= i < n && (forall|later: int| i < later < n ==> fields[later].name@ != fields[i].name@) implies get_named(
            list,
            (#[trigger] fields[i]).name@,
        ) == Some(&values@[i]) by {
            law_get_named_after_put_named(before, own, value, fields[i].name@);
            if i < n - 1 {
                assert(fields[n - 1].name@ != fields[i].name@);
            }
        }
        assert forall|name: Seq<char>| (#[trigger] get_named(list, name)) is Some implies exists|i: int|
            0 <= i < n && (#[trigger] fields[i]).name@ == name && get_named(list, name) == Some(&values@[i]) by {
            law_get_named_after_put_named(before, own, value, name);
            if name == own {
                assert(fields[n - 1].name@ == name);
            } else {
                assert(get_named(before, name) is Some);
                let i = choose|i: int|
                    0 <= i < n - 1 && (#[trigger] fields[i]).name@ == name && get_named(before, name) == Some(
                        &values@[i],
                    );
                assert(fields[i].name@ == name);
            }
        }
    }
}

/// What a list holds under a name is an entry of it.
pub proof fn law_entries_are_found_by_their_name<V>(list: Seq<(Seq<char>, V)>, name: Seq<char>)
    ensures
        match get_named(list, name) {
            Some(value) => exists|k: int| 0 <= k < list.len() && #[trigger] list[k] == (name, value),
            None => forall|k: int| 0 <= k < list.len() ==> (#[trigger] list[k]).0 != name,
        },
    decreases list.len(),
{
    if list.len() > 0 {
        let shorter = list.drop_last();
        let n = list.len() - 1;
        law_entries_are_found_by_their_name(shorter, name);
        if list.last().0 == name {
            assert(list[n] == (name, list.last().1));
        } else {
            match get_named(shorter, name) {
                Some(value) => {
                    let k = choose|k: int| 0 <= k < shorter.len() && #[trigger] shorter[k] == (name, value);
                    assert(list[k] == (name, value));
                },
                None => {
                    assert forall|k: int| 0 <= k < list.len() implies (#[trigger] list[k]).0 != name by {
                        if k < n {
                            assert(shorter[k].0 != name);
                        }
                    }
                },
            }
        }
    }
}

/// Whether counts by id are the counts of a manifest entry, each id with its own count.
pub open spec fn states_counts(list: Seq<(i32, i64)>, counts: Seq<(i32, u64)>) -> bool {
    &&& forall|i: int, j: int| 0 <= i < j < list.len() ==> (#[trigger] list[i]).0 < (#[trigger] list[j]).0
    &&& forall|i: int|
        0 <= i < counts.len() && (forall|later: int|
            i < later < counts.len() ==> counts[later].0 != counts[i].0) ==> get(
            list,
            (#[trigger] counts[i]).0,
        ) == Some(counts[i].1 as i64)
    &&& forall|k: int|
        0 <= k < list.len() ==> exists|i: int|
            0 <= i < counts.len() && (#[trigger] counts[i]).0 == (#[trigger] list[k]).0 && list[k].1
                == counts[i].1 as i64
}

/// Whether bounds by id are the bounds of a manifest entry, each id with its own bound.
pub open spec fn states_bounds(list: Seq<(i32, &Datum)>, bounds: Seq<(i32, Datum)>) -> bool {
    &&& forall|i: int, j: int| 0 <= i < j < list.len() ==> (#[trigger] list[i]).0 < (#[trigger] list[j]).0
    &&& forall|i: int|
        0 <= i < bounds.len() && (forall|later: int|
            i < later < bounds.len() ==> bounds[later].0 != bounds[i].0) ==> get(
            list,
            (#[trigger] bounds[i]).0,
        ) == Some(&bounds[i].1)
    &&& forall|k: int|
        0 <= k < list.len() ==> exists|i: int|
            0 <= i < bounds.len() && (#[trigger] bounds[i]).0 == (#[trigger] list[k]).0 && *list[k].1
                == bounds[i].1
}

proof fn lemma_states_counts(counts: Seq<(i32, u64)>)
    ensures
        states_counts(counts_by_id(counts, counts.len()), counts),
{
    lemma_counts(counts, counts.len());
    let list = counts_by_id(counts, counts.len());
    law_entries_are_found_by_their_id(list, 0);
    assert forall|k: int| 0 <= k < list.len() implies exists|i: int|
        0 <= i < counts.len() && (#[trigger] counts[i]).0 == (#[trigger] list[k]).0 && list[k].1
            == counts[i].1 as i64 by {
        assert(get(list, list[k].0) == Some(list[k].1));
        let i = choose|i: int|
            0 <= i < counts.len() && (#[trigger] counts[i]).0 == list[k].0 && get(list, list[k].0) == Some(
                counts[i].1 as i64,
            );
        assert(counts[i].0 == list[k].0);
    }
}

proof fn lemma_states_bounds(bounds: &Vec<(i32, Datum)>)
    ensures
        states_bounds(bounds_by_id(bounds, bounds@.len()), bounds@),
{
    lemma_bounds(bounds, bounds@.len());
    let list = bounds_by_id(bounds, bounds@.len());
    law_entries_are_found_by_their_id(list, 0);
    assert forall|k: int| 0 <= k < list.len() implies exists|i: int|
        0 <= i < bounds@.len() && (#[trigger] bounds@[i]).0 == (#[trigger] list[k]).0 && *list[k].1
            == bounds@[i].1 by {
        assert(get(list, list[k].0) == Some(list[k].1));
        let i = choose|i: int|
            0 <= i < bounds@.len() && (#[trigger] bounds@[i]).0 == list[k].0 && get(list, list[k].0) == Some(
                &bounds@[i].1,
            );
        assert(bounds@[i].0 == list[k].0);
    }
}

/// A file row states what its manifest entry states: the file's content, format, counts, sizes and
/// bounds, each under its own field id, and its partition values, each under the name of the field
/// at its place. It names the manifest and the place of the entry in it.
pub proof fn law_file_rows_state_their_entry(
    row: FileRow,
    manifest: TrinoManifestFile,
    entry: ManifestEntry,
    ordinal: int,
    spec: PartitionSpec,
)
    requires
        is_row_of(row, manifest, entry, ordinal, spec),
        entry.data_file.partition@.len() == spec.fields@.len(),
    ensures
        ({
            let file = entry.data_file;
            &&& *row.file == file
            &&& row.content == (match file.content {
                DataContentType::Data => 0i32,
                DataContentType::PositionDeletes => 1,
                DataContentType::EqualityDeletes => 2,
            })
            &&& row.file_format@ == (match file.file_format {
                IcebergFileFormat::Parquet => "PARQUET"@,
                IcebergFileFormat::Orc => "ORC"@,
                IcebergFileFormat::Avro => "AVRO"@,
                IcebergFileFormat::Puffin => "PUFFIN"@,
            })
            &&& row.spec_id == manifest.partition_spec_id
            &&& row.record_count == file.record_count
            &&& row.file_size_in_bytes == file.file_size_in_bytes
            &&& row.pos == ordinal
            &&& row.manifest_location@ == manifest.path@
            &&& row.entry.status == (match entry.status {
                ManifestStatus::Existing => 0i32,
                ManifestStatus::Added => 1,
                ManifestStatus::Deleted => 2,
            })
            &&& entry.snapshot_id is Some ==> row.entry.snapshot_id == entry.snapshot_id
            &&& entry.snapshot_id is None ==> row.entry.snapshot_id == Some(manifest.added_snapshot_id)
            &&& entry.sequence_number is Some ==> row.entry.data_sequence_number == entry.sequence_number
            &&& entry.file_sequence_number is Some ==> row.entry.file_sequence_number
                == entry.file_sequence_number
            &&& entry.sequence_number is None ==> row.entry.data_sequence_number == (if entry.status
                == ManifestStatus::Added || manifest.sequence_number == 0 {
                Some(manifest.sequence_number)
            } else {
                None
            })
            &&& entry.file_sequence_number is None ==> row.entry.file_sequence_number == (if entry.status
                == ManifestStatus::Added || manifest.sequence_number == 0 {
                Some(manifest.sequence_number)
            } else {
                None
            })
        }),
        states_counts(row.column_sizes@, entry.data_file.column_sizes@),
        states_counts(row.value_counts@, entry.data_file.value_counts@),
        states_counts(row.null_value_counts@, entry.data_file.null_value_counts@),
        states_counts(row.nan_value_counts@, entry.data_file.nan_value_counts@),
        states_bounds(row.lower_bounds@, entry.data_file.lower_bounds@),
        states_bounds(row.upper_bounds@, entry.data_file.upper_bounds@),
        forall|i: int|
            0 <= i < spec.fields@.len() && (forall|later: int|
                i < later < spec.fields@.len() ==> spec.fields@[later].name@ != spec.fields@[i].name@)
                ==> get_named(named_model(row.partition@), (#[trigger] spec.fields@[i]).name@) == Some(
                &entry.data_file.partition@[i],
            ),
        forall|name: Seq<char>|
            (#[trigger] get_named(named_model(row.partition@), name)) is Some ==> exists|i: int|
                0 <= i < spec.fields@.len() && (#[trigger] spec.fields@[i]).name@ == name,
{
    let file = entry.data_file;
    lemma_states_counts(file.column_sizes@);
    lemma_states_counts(file.value_counts@);
    lemma_states_counts(file.null_value_counts@);
    lemma_states_counts(file.nan_value_counts@);
    lemma_states_bounds(&file.lower_bounds);
    lemma_states_bounds(&file.upper_bounds);
    lemma_values(spec.fields@, &file.partition, spec.fields@.len());
}

// ---------------------------------------------------------------------------
// Which entries have rows
// ---------------------------------------------------------------------------

proof fn lemma_kept(entries: Seq<ManifestEntry>, rule: EntryStatusRule, n: nat)
    requires
        n <= entries.len(),
    ensures
        ({
            let kept = kept_positions(entries, rule, n);
            &&& forall|p: int|
                #[trigger] kept.contains(p) <==> 0 <= p < n && (rule == EntryStatusRule::KeepDeleted
                    || entries[p].status != ManifestStatus::Deleted)
            &&& forall|a: int, b: int| 0 <= a < b < kept.len() ==> kept[a] < kept[b]
            &&& forall|a: int| 0 <= a < kept.len() ==> 0 <= #[trigger] kept[a] < n
        }),
    decreases n,
{
    if n > 0 {
        lemma_kept(entries, rule, (n - 1) as nat);
        let before = kept_positions(entries, rule, (n - 1) as nat);
        let kept = kept_positions(entries, rule, n);
        assert forall|p: int| #[trigger] kept.contains(p) <==> 0 <= p < n && (rule
            == EntryStatusRule::KeepDeleted || entries[p].status != ManifestStatus::Deleted) by {
            if kept.contains(p) {
                let k = choose|k: int| 0 <= k < kept.len() && kept[k] == p;
                if k < before.len() {
                    assert(before[k] == p);
                    assert(before.contains(p));
                }
            }
            if 0 <= p < n && (rule == EntryStatusRule::KeepDeleted || entries[p].status
                != ManifestStatus::Deleted) {
                if p < n - 1 {
                    assert(before.contains(p));
                    let k = choose|k: int| 0 <= k < before.len() && before[k] == p;
                    assert(kept[k] == p);
                } else {
                    assert(kept[before.len() as int] == p);
                }
            }
        }
    }
}

/// A manifest has one row for each of its entries, in order; `$files` leaves out those that were
/// deleted, and `$entries` none.
pub proof fn law_every_live_entry_has_a_row(
    rows: Seq<FileRow>,
    manifest: TrinoManifestFile,
    entries: Seq<ManifestEntry>,
    spec: PartitionSpec,
    rule: EntryStatusRule,
    e: int,
)
    requires
        is_manifest_listing(rows, manifest, entries, spec, rule),
    ensures
        0 <= e < entries.len() && (rule == EntryStatusRule::KeepDeleted || entries[e].status
            != ManifestStatus::Deleted) ==> exists|k: int|
            0 <= k < rows.len() && is_row_of(#[trigger] rows[k], manifest, entries[e], e, spec),
        forall|k: int|
            0 <= k < rows.len() ==> exists|p: int|
                0 <= p < entries.len() && (rule == EntryStatusRule::KeepDeleted || entries[p].status
                    != ManifestStatus::Deleted) && is_row_of(#[trigger] rows[k], manifest, #[trigger] entries[p], p, spec),
        forall|a: int, b: int| 0 <= a < b < rows.len() ==> (#[trigger] rows[a]).pos < (#[trigger] rows[b]).pos,
{
    let kept = kept_positions(entries, rule, entries.len());
    lemma_kept(entries, rule, entries.len());
    if 0 <= e < entries.len() && (rule == EntryStatusRule::KeepDeleted || entries[e].status
        != ManifestStatus::Deleted) {
        assert(kept.contains(e));
        let k = choose|k: int| 0 <= k < kept.len() && kept[k] == e;
        assert(is_row_of(rows[k], manifest, entries[e], e, spec));
    }
    assert forall|k: int| 0 <= k < rows.len() implies exists|p: int|
        0 <= p < entries.len() && (rule == EntryStatusRule::KeepDeleted || entries[p].status
            != ManifestStatus::Deleted) && is_row_of(#[trigger] rows[k], manifest, #[trigger] entries[p], p, spec) by {
        let p = kept[k];
        assert(kept.contains(p));
        assert(is_row_of(rows[k], manifest, entries[p], p, spec));
    }
    assert forall|a: int, b: int| 0 <= a < b < rows.len() implies (#[trigger] rows[a]).pos < (
    #[trigger] rows[b]).pos by {
        assert(is_row_of(rows[a], manifest, entries[kept[a]], kept[a], spec));
        assert(is_row_of(rows[b], manifest, entries[kept[b]], kept[b], spec));
    }
}

/// The entries of a manifest have rows exactly where each kept one has counts and sizes that a
/// signed column can hold and as many partition values as its spec has fields.
pub proof fn law_rows_are_refused_where_a_fact_does_not_fit(
    entries: Seq<ManifestEntry>,
    rule: EntryStatusRule,
    spec: PartitionSpec,
    n: nat,
)
    requires
        n <= entries.len() <= i64::MAX,
    ensures
        first_fault(entries, rule, spec, n) is None <==> forall|e: int|
            0 <= e < n && (rule == EntryStatusRule::KeepDeleted || (#[trigger] entries[e]).status
                != ManifestStatus::Deleted) ==> fits(entries[e], spec),
    decreases n,
{
    if n > 0 {
        law_rows_are_refused_where_a_fact_does_not_fit(entries, rule, spec, (n - 1) as nat);
        let own = entries[n - 1];
        assert(entries[n - 1].status == own.status);
    }
}

/// Whether every fact of an entry fits its column.
pub open spec fn fits(entry: ManifestEntry, spec: PartitionSpec) -> bool {
    let file = entry.data_file;
    &&& file.record_count <= i64::MAX
    &&& file.file_size_in_bytes <= i64::MAX
    &&& file.partition@.len() == spec.fields@.len()
    &&& forall|i: int| 0 <= i < file.column_sizes@.len() ==> (#[trigger] file.column_sizes@[i]).1 <= i64::MAX
    &&& forall|i: int| 0 <= i < file.value_counts@.len() ==> (#[trigger] file.value_counts@[i]).1 <= i64::MAX
    &&& forall|i: int|
        0 <= i < file.null_value_counts@.len() ==> (#[trigger] file.null_value_counts@[i]).1 <= i64::MAX
    &&& forall|i: int|
        0 <= i < file.nan_value_counts@.len() ==> (#[trigger] file.nan_value_counts@[i]).1 <= i64::MAX
}

proof fn lemma_snapshot_positions(loaded: Seq<Vec<ManifestEntry>>, rule: EntryStatusRule, n: nat)
    requires
        n <= loaded.len(),
    ensures
        ({
            let positions = snapshot_positions(loaded, rule, n);
            &&& forall|m: int, e: int|
                #[trigger] positions.contains((m, e)) <==> 0 <= m < n && 0 <= e < loaded[m]@.len() && (rule
                    == EntryStatusRule::KeepDeleted || loaded[m]@[e].status != ManifestStatus::Deleted)
            &&& forall|a: int, b: int|
                0 <= a < b < positions.len() ==> (#[trigger] positions[a]).0 < (#[trigger] positions[b]).0 || (
                positions[a].0 == positions[b].0 && positions[a].1 < positions[b].1)
            &&& forall|a: int| 0 <= a < positions.len() ==> 0 <= (#[trigger] positions[a]).0 < n
        }),
    decreases n,
{
    if n > 0 {
        lemma_snapshot_positions(loaded, rule, (n - 1) as nat);
        let entries = loaded[n - 1]@;
        lemma_kept(entries, rule, entries.len());
        let before = snapshot_positions(loaded, rule, (n - 1) as nat);
        let kept = kept_positions(entries, rule, entries.len());
        let own = Seq::new(kept.len(), |k: int| (n - 1, kept[k]));
        let positions = snapshot_positions(loaded, rule, n);
        assert(positions == before + own);
        assert forall|m: int, e: int| #[trigger] positions.contains((m, e)) <==> 0 <= m < n && 0 <= e
            < loaded[m]@.len() && (rule == EntryStatusRule::KeepDeleted || loaded[m]@[e].status
            != ManifestStatus::Deleted) by {
            if positions.contains((m, e)) {
                let k = choose|k: int| 0 <= k < positions.len() && positions[k] == (m, e);
                if k < before.len() {
                    assert(before[k] == (m, e));
                    assert(before.contains((m, e)));
                } else {
                    assert(own[k - before.len()] == (m, e));
                    assert(kept.contains(e)) by {
                        assert(kept[k - before.len()] == e);
                    }
                }
            }
            if 0 <= m < n && 0 <= e < loaded[m]@.len() && (rule == EntryStatusRule::KeepDeleted
                || loaded[m]@[e].status != ManifestStatus::Deleted) {
                if m < n - 1 {
                    assert(before.contains((m, e)));
                    let k = choose|k: int| 0 <= k < before.len() && before[k] == (m, e);
                    assert(positions[k] == (m, e));
                } else {
                    assert(kept.contains(e));
                    let k = choose|k: int| 0 <= k < kept.len() && kept[k] == e;
                    assert(own[k] == (m, e));
                    assert(positions[before.len() + k] == (m, e));
                }
            }
        }
    }
}

/// Whether a row is that of a kept entry of one of the manifests.
pub open spec fn states_an_entry(row: FileRow, facts: TableFacts, rule: EntryStatusRule) -> bool {
    exists|position: (int, int)|
        0 <= position.0 < facts.loaded@.len() && 0 <= position.1 < facts.loaded@[position.0]@.len() && (rule
            == EntryStatusRule::KeepDeleted || facts.loaded@[position.0]@[position.1].status
            != ManifestStatus::Deleted) && #[trigger] is_snapshot_row(
            row,
            facts.manifests@,
            facts.loaded@,
            facts.specs@,
            position,
        )
}

/// The rows of a snapshot are those of the kept entries of all its manifests, one for each, manifest
/// after manifest and in the order of the entries.
pub proof fn law_a_snapshot_lists_every_manifest(
    rows: Seq<FileRow>,
    facts: TableFacts,
    rule: EntryStatusRule,
    m: int,
    e: int,
)
    requires
        is_snapshot_listing(rows, facts, rule),
    ensures
        0 <= m < facts.loaded@.len() && 0 <= e < facts.loaded@[m]@.len() && (rule
            == EntryStatusRule::KeepDeleted || facts.loaded@[m]@[e].status != ManifestStatus::Deleted)
            ==> exists|k: int|
            0 <= k < rows.len() && is_snapshot_row(
                #[trigger] rows[k],
                facts.manifests@,
                facts.loaded@,
                facts.specs@,
                (m, e),
            ),
        forall|k: int| 0 <= k < rows.len() ==> states_an_entry(#[trigger] rows[k], facts, rule),
{
    let positions = snapshot_positions(facts.loaded@, rule, facts.loaded@.len());
    lemma_snapshot_positions(facts.loaded@, rule, facts.loaded@.len());
    if 0 <= m < facts.loaded@.len() && 0 <= e < facts.loaded@[m]@.len() && (rule
        == EntryStatusRule::KeepDeleted || facts.loaded@[m]@[e].status != ManifestStatus::Deleted) {
        assert(positions.contains((m, e)));
        let k = choose|k: int| 0 <= k < positions.len() && positions[k] == (m, e);
        assert(is_snapshot_row(rows[k], facts.manifests@, facts.loaded@, facts.specs@, positions[k]));
    }
    assert forall|k: int| 0 <= k < rows.len() implies states_an_entry(#[trigger] rows[k], facts, rule) by {
        let position = positions[k];
        assert(positions.contains((position.0, position.1)));
        assert(is_snapshot_row(rows[k], facts.manifests@, facts.loaded@, facts.specs@, position));
    }
}

pub proof fn lemma_spec_with_id(specs: Seq<PartitionSpec>, id: i32, from: nat)
    ensures
        match spec_with_id(specs, id, from) {
            Some(spec) => spec.spec_id == id && exists|k: int|
                from <= k < specs.len() && #[trigger] specs[k] == spec && forall|other: int|
                    from <= other < k ==> (#[trigger] specs[other]).spec_id != id,
            None => forall|k: int| from <= k < specs.len() ==> (#[trigger] specs[k]).spec_id != id,
        },
    decreases specs.len() - from,
{
    if from < specs.len() {
        if specs[from as int].spec_id == id {
            assert(specs[from as int] == spec_with_id(specs, id, from)->0);
        } else {
            lemma_spec_with_id(specs, id, from + 1);
            if let Some(spec) = spec_with_id(specs, id, from) {
                let k = choose|k: int|
                    from + 1 <= k < specs.len() && #[trigger] specs[k] == spec && forall|other: int|
                        from + 1 <= other < k ==> (#[trigger] specs[other]).spec_id != id;
                assert(specs[k] == spec);
            }
        }
    }
}

/// A row of a snapshot is read under the partition spec that its manifest names.
pub proof fn law_rows_are_read_under_the_spec_of_their_manifest(
    row: FileRow,
    manifests: Seq<ListedManifest>,
    loaded: Seq<Vec<ManifestEntry>>,
    specs: Seq<PartitionSpec>,
    m: int,
    e: int,
)
    requires
        is_snapshot_row(row, manifests, loaded, specs, (m, e)),
    ensures
        exists|k: int|
            0 <= k < specs.len() && (#[trigger] specs[k]).spec_id == manifests[m].manifest.partition_spec_id
                && is_row_of(row, manifests[m].manifest, loaded[m]@[e], e, specs[k]),
        row.pos == e,
        row.manifest_location@ == manifests[m].manifest.path@,
        *row.file == loaded[m]@[e].data_file,
{
    lemma_spec_with_id(specs, manifests[m].manifest.partition_spec_id, 0);
    let spec = spec_with_id(specs, manifests[m].manifest.partition_spec_id, 0)->0;
    let k = choose|k: int| 0 <= k < specs.len() && #[trigger] specs[k] == spec;
    assert(specs[k].spec_id == manifests[m].manifest.partition_spec_id);
}

/// A snapshot has rows exactly where every manifest names a known spec and every kept entry fits.
pub proof fn law_a_snapshot_is_refused_for_any_manifest(
    manifests: Seq<ListedManifest>,
    loaded: Seq<Vec<ManifestEntry>>,
    specs: Seq<PartitionSpec>,
    rule: EntryStatusRule,
    n: nat,
)
    requires
        n <= manifests.len(),
        manifests.len() == loaded.len(),
    ensures
        snapshot_fault(manifests, loaded, specs, rule, n) is None <==> forall|m: int|
            0 <= m < n ==> {
                let spec = spec_with_id(specs, (#[trigger] manifests[m]).manifest.partition_spec_id, 0);
                spec is Some && first_fault(loaded[m]@, rule, spec->0, loaded[m]@.len()) is None
            },
    decreases n,
{
    if n > 0 {
        law_a_snapshot_is_refused_for_any_manifest(manifests, loaded, specs, rule, (n - 1) as nat);
        assert(manifests[n - 1] == manifests[n - 1]);
    }
}

} // verus!
