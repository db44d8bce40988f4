//! What the columns of the system relations state of their rows.

use vstd::prelude::*;

use crate::carrier::{DataTypeModel, TimeUnit};
use crate::column::CellModel;
use crate::partitions_view::{clamped, PartitionAggregate};
use crate::relation_columns::{
    bound_texts_cell, bytes_cell, counts_cell, int_cell, ints_cell, long_cell, longs_cell, text_cell, SystemRow,
};
use crate::snapshot_relations::{HistoryRow, ListedManifest, RefRow, SnapshotRetention, SnapshotRow, summary_cell};
use crate::system_rows::{FileRow, TrinoManifestContent};
use crate::system_schema::{list_model, map_model, timestamp_tz_model};
use crate::value::Datum;

verus! {

/// A fact that was not recorded is null, and one that was recorded stands as it is; a list keeps
/// its items in order, and a map its keys with their values.
pub proof fn law_recorded_facts_stand_and_others_are_null(
    small: i32,
    long: i64,
    text: String,
    bytes: Vec<u8>,
    longs: Vec<i64>,
    ints: Vec<i32>,
    counts: Seq<(i32, i64)>,
    bounds: Seq<(i32, &Datum)>,
)
    ensures
        int_cell(None) is Null && int_cell(Some(small)) == CellModel::Int32(small),
        long_cell(None) is Null && long_cell(Some(long)) == CellModel::Int64(long),
        text_cell(None) is Null && text_cell(Some(text)) == CellModel::Text(text@),
        bytes_cell(None) is Null && bytes_cell(Some(bytes)) == CellModel::Bytes(bytes@),
        longs_cell(None) is Null && longs_cell(Some(longs)) is List,
        longs_cell(Some(longs))->List_0.len() == longs@.len(),
        forall|i: int|
            0 <= i < longs@.len() ==> #[trigger] longs_cell(Some(longs))->List_0[i] == CellModel::Int64(longs@[i]),
        ints_cell(None) is Null && ints_cell(Some(ints)) is List,
        ints_cell(Some(ints))->List_0.len() == ints@.len(),
        forall|i: int|
            0 <= i < ints@.len() ==> #[trigger] ints_cell(Some(ints))->List_0[i] == CellModel::Int32(ints@[i]),
        counts_cell(counts) is Entries,
        counts_cell(counts)->Entries_0.len() == counts.len() && counts_cell(counts)->Entries_1.len() == counts.len(),
        forall|i: int|
            0 <= i < counts.len() ==> counts_cell(counts)->Entries_0[i] == CellModel::Int32((#[trigger] counts[i]).0)
                && counts_cell(counts)->Entries_1[i] == CellModel::Int64(counts[i].1),
        bound_texts_cell(bounds) is Entries,
        bound_texts_cell(bounds)->Entries_0.len() == bounds.len() && bound_texts_cell(bounds)->Entries_1.len()
            == bounds.len(),
        forall|i: int|
            0 <= i < bounds.len() ==> bound_texts_cell(bounds)->Entries_0[i] == CellModel::Int32(
                (#[trigger] bounds[i]).0,
            ) && bound_texts_cell(bounds)->Entries_1[i] == CellModel::Text(bounds[i].1.text@),
{
}

/// A map has keys that are never null and values that may be, a list items that may be null, and
/// a time with a zone is in microseconds of UTC.
pub proof fn law_collections_are_carried_by_their_parts(key: DataTypeModel, held: DataTypeModel)
    ensures
        ({
            let carrier = map_model(key, held);
            &&& carrier is MapOf
            &&& !carrier->MapOf_1
            &&& carrier->MapOf_0.data_type is Struct
            &&& !carrier->MapOf_0.nullable
            &&& carrier->MapOf_0.data_type->Struct_0.len() == 2
            &&& carrier->MapOf_0.data_type->Struct_0[0].data_type == key
            &&& !carrier->MapOf_0.data_type->Struct_0[0].nullable
            &&& carrier->MapOf_0.data_type->Struct_0[1].data_type == held
            &&& carrier->MapOf_0.data_type->Struct_0[1].nullable
        }),
        list_model(held) is List && list_model(held)->List_0.data_type == held && list_model(held)->List_0.nullable,
        timestamp_tz_model() == DataTypeModel::Timestamp(TimeUnit::Microsecond, Some("UTC"@)),
{
}

/// A time in milliseconds becomes a thousand times as many microseconds, and stops at the ends of
/// the range.
pub proof fn law_times_are_scaled_and_stop_at_the_ends(millis: i64)
    ensures
        i64::MIN <= millis * 1000 <= i64::MAX ==> clamped(millis * 1000) == millis * 1000,
        millis * 1000 > i64::MAX ==> clamped(millis * 1000) == i64::MAX,
        millis * 1000 < i64::MIN ==> clamped(millis * 1000) == i64::MIN,
{
}

proof fn lemma_file_names()
    ensures
        "content"@.len() == 7 && "content"@[0] == 'c',
        "file_path"@.len() == 9,
        "file_format"@.len() == 11 && "file_format"@[0] == 'f',
        "spec_id"@.len() == 7 && "spec_id"@[0] == 's',
        "record_count"@.len() == 12 && "record_count"@[0] == 'r',
        "file_size_in_bytes"@.len() == 18,
        "column_sizes"@.len() == 12 && "column_sizes"@[0] == 'c',
        "value_counts"@.len() == 12 && "value_counts"@[0] == 'v',
        "null_value_counts"@.len() == 17 && "null_value_counts"@[0] == 'n',
        "nan_value_counts"@.len() == 16,
        "lower_bounds"@.len() == 12 && "lower_bounds"@[0] == 'l',
        "upper_bounds"@.len() == 12 && "upper_bounds"@[0] == 'u',
        "key_metadata"@.len() == 12 && "key_metadata"@[0] == 'k',
        "split_offsets"@.len() == 13 && "split_offsets"@[1] == 'p',
        "equality_ids"@.len() == 12 && "equality_ids"@[0] == 'e',
        "sort_order_id"@.len() == 13 && "sort_order_id"@[1] == 'o',
        "status"@.len() == 6,
        "snapshot_id"@.len() == 11 && "snapshot_id"@[0] == 's',
        "sequence_number"@.len() == 15,
        "added_snapshot_id"@.len() == 17 && "added_snapshot_id"@[0] == 'a',
        "file_sequence_number"@.len() == 20 && "file_sequence_number"@[0] == 'f',
        "data_sequence_number"@.len() == 20 && "data_sequence_number"@[0] == 'd',
        "referenced_data_file"@.len() == 20 && "referenced_data_file"@[0] == 'r',
        "pos"@.len() == 3,
        "manifest_location"@.len() == 17 && "manifest_location"@[0] == 'm',
        "first_row_id"@.len() == 12 && "first_row_id"@[0] == 'f',
        "content_offset"@.len() == 14,
        "content_size_in_bytes"@.len() == 21,
{
    reveal_strlit("content");
    reveal_strlit("file_path");
    reveal_strlit("file_format");
    reveal_strlit("spec_id");
    reveal_strlit("record_count");
    reveal_strlit("file_size_in_bytes");
    reveal_strlit("column_sizes");
    reveal_strlit("value_counts");
    reveal_strlit("null_value_counts");
    reveal_strlit("nan_value_counts");
    reveal_strlit("lower_bounds");
    reveal_strlit("upper_bounds");
    reveal_strlit("key_metadata");
    reveal_strlit("split_offsets");
    reveal_strlit("equality_ids");
    reveal_strlit("sort_order_id");
    reveal_strlit("status");
    reveal_strlit("snapshot_id");
    reveal_strlit("sequence_number");
    reveal_strlit("added_snapshot_id");
    reveal_strlit("file_sequence_number");
    reveal_strlit("data_sequence_number");
    reveal_strlit("referenced_data_file");
    reveal_strlit("pos");
    reveal_strlit("manifest_location");
    reveal_strlit("first_row_id");
    reveal_strlit("content_offset");
    reveal_strlit("content_size_in_bytes");
}

/// Each column of `$files` and `$entries` states the fact of its row that it is named after.
pub proof fn law_file_columns_state_their_row(row: FileRow)
    ensures
        row.cell_model("content"@) == CellModel::Int32(row.content),
        row.cell_model("file_path"@) == CellModel::Text(row.file.file_path@),
        row.cell_model("file_format"@) == CellModel::Text(row.file_format@),
        row.cell_model("spec_id"@) == CellModel::Int32(row.spec_id),
        row.cell_model("record_count"@) == CellModel::Int64(row.record_count),
        row.cell_model("file_size_in_bytes"@) == CellModel::Int64(row.file_size_in_bytes),
        row.cell_model("column_sizes"@) == counts_cell(row.column_sizes@),
        row.cell_model("value_counts"@) == counts_cell(row.value_counts@),
        row.cell_model("null_value_counts"@) == counts_cell(row.null_value_counts@),
        row.cell_model("nan_value_counts"@) == counts_cell(row.nan_value_counts@),
        row.cell_model("lower_bounds"@) == bound_texts_cell(row.lower_bounds@),
        row.cell_model("upper_bounds"@) == bound_texts_cell(row.upper_bounds@),
        row.cell_model("key_metadata"@) == bytes_cell(row.file.key_metadata),
        row.cell_model("split_offsets"@) == longs_cell(row.file.split_offsets),
        row.cell_model("equality_ids"@) == ints_cell(row.file.equality_ids),
        row.cell_model("sort_order_id"@) == int_cell(row.file.sort_order_id),
        row.cell_model("status"@) == CellModel::Int32(row.entry.status),
        row.cell_model("snapshot_id"@) == long_cell(row.entry.snapshot_id),
        row.cell_model("sequence_number"@) == long_cell(row.entry.data_sequence_number),
        row.cell_model("added_snapshot_id"@) == long_cell(row.entry.snapshot_id),
        row.cell_model("file_sequence_number"@) == long_cell(row.entry.file_sequence_number),
        row.cell_model("data_sequence_number"@) == long_cell(row.entry.data_sequence_number),
        row.cell_model("referenced_data_file"@) == text_cell(row.file.referenced_data_file),
        row.cell_model("pos"@) == CellModel::Int64(row.pos),
        row.cell_model("manifest_location"@) == CellModel::Text(row.manifest_location@),
        row.cell_model("first_row_id"@) == long_cell(row.file.first_row_id),
        row.cell_model("content_offset"@) == long_cell(row.file.content_offset),
        row.cell_model("content_size_in_bytes"@) == long_cell(row.file.content_size_in_bytes),
        FileRow::carrier_model("content"@) == Some(DataTypeModel::Int32),
        FileRow::carrier_model("file_path"@) == Some(DataTypeModel::Utf8),
        FileRow::carrier_model("file_format"@) == Some(DataTypeModel::Utf8),
        FileRow::carrier_model("spec_id"@) == Some(DataTypeModel::Int32),
        FileRow::carrier_model("record_count"@) == Some(DataTypeModel::Int64),
        FileRow::carrier_model("file_size_in_bytes"@) == Some(DataTypeModel::Int64),
        FileRow::carrier_model("column_sizes"@) == Some(map_model(DataTypeModel::Int32, DataTypeModel::Int64)),
        FileRow::carrier_model("value_counts"@) == Some(map_model(DataTypeModel::Int32, DataTypeModel::Int64)),
        FileRow::carrier_model("null_value_counts"@) == Some(map_model(DataTypeModel::Int32, DataTypeModel::Int64)),
        FileRow::carrier_model("nan_value_counts"@) == Some(map_model(DataTypeModel::Int32, DataTypeModel::Int64)),
        FileRow::carrier_model("lower_bounds"@) == Some(map_model(DataTypeModel::Int32, DataTypeModel::Utf8)),
        FileRow::carrier_model("upper_bounds"@) == Some(map_model(DataTypeModel::Int32, DataTypeModel::Utf8)),
        FileRow::carrier_model("key_metadata"@) == Some(DataTypeModel::Binary),
        FileRow::carrier_model("split_offsets"@) == Some(list_model(DataTypeModel::Int64)),
        FileRow::carrier_model("equality_ids"@) == Some(list_model(DataTypeModel::Int32)),
        FileRow::carrier_model("sort_order_id"@) == Some(DataTypeModel::Int32),
        FileRow::carrier_model("status"@) == Some(DataTypeModel::Int32),
        FileRow::carrier_model("snapshot_id"@) == Some(DataTypeModel::Int64),
        FileRow::carrier_model("sequence_number"@) == Some(DataTypeModel::Int64),
        FileRow::carrier_model("added_snapshot_id"@) == Some(DataTypeModel::Int64),
        FileRow::carrier_model("file_sequence_number"@) == Some(DataTypeModel::Int64),
        FileRow::carrier_model("data_sequence_number"@) == Some(DataTypeModel::Int64),
        FileRow::carrier_model("referenced_data_file"@) == Some(DataTypeModel::Utf8),
        FileRow::carrier_model("pos"@) == Some(DataTypeModel::Int64),
        FileRow::carrier_model("manifest_location"@) == Some(DataTypeModel::Utf8),
        FileRow::carrier_model("first_row_id"@) == Some(DataTypeModel::Int64),
        FileRow::carrier_model("content_offset"@) == Some(DataTypeModel::Int64),
        FileRow::carrier_model("content_size_in_bytes"@) == Some(DataTypeModel::Int64),
        forall|column: Seq<char>|
            column != "content"@ && column != "file_path"@ && column != "file_format"@ && column != "spec_id"@ && column != "record_count"@ && column != "file_size_in_bytes"@ && column != "column_sizes"@ && column != "value_counts"@ && column != "null_value_counts"@ && column != "nan_value_counts"@ && column != "lower_bounds"@ && column != "upper_bounds"@ && column != "key_metadata"@ && column != "split_offsets"@ && column != "equality_ids"@ && column != "sort_order_id"@ && column != "status"@ && column != "snapshot_id"@ && column != "sequence_number"@ && column != "added_snapshot_id"@ && column != "file_sequence_number"@ && column != "data_sequence_number"@ && column != "referenced_data_file"@ && column != "pos"@ && column != "manifest_location"@ && column != "first_row_id"@ && column != "content_offset"@ && column != "content_size_in_bytes"@
                ==> (#[trigger] FileRow::carrier_model(column)) is None,
{
    lemma_file_names();
}

proof fn lemma_snapshot_names()
    ensures
        "committed_at"@.len() == 12,
        "snapshot_id"@.len() == 11,
        "parent_id"@.len() == 9 && "parent_id"@[0] == 'p',
        "operation"@.len() == 9 && "operation"@[0] == 'o',
        "manifest_list"@.len() == 13,
        "summary"@.len() == 7,
{
    reveal_strlit("committed_at");
    reveal_strlit("snapshot_id");
    reveal_strlit("parent_id");
    reveal_strlit("operation");
    reveal_strlit("manifest_list");
    reveal_strlit("summary");
}

/// Each column of `$snapshots` states the fact of its snapshot that it is named after; the time is in microseconds.
pub proof fn law_snapshot_columns_state_their_row(row: SnapshotRow)
    ensures
        row.cell_model("committed_at"@) == CellModel::Int64(clamped(row.snapshot.timestamp_ms * 1000)),
        row.cell_model("snapshot_id"@) == CellModel::Int64(row.snapshot.snapshot_id),
        row.cell_model("parent_id"@) == long_cell(row.snapshot.parent_snapshot_id),
        row.cell_model("operation"@) == CellModel::Text(row.snapshot.operation@),
        row.cell_model("manifest_list"@) == CellModel::Text(row.snapshot.manifest_list@),
        row.cell_model("summary"@) == summary_cell(row.snapshot.summary@),
        SnapshotRow::carrier_model("committed_at"@) == Some(timestamp_tz_model()),
        SnapshotRow::carrier_model("snapshot_id"@) == Some(DataTypeModel::Int64),
        SnapshotRow::carrier_model("parent_id"@) == Some(DataTypeModel::Int64),
        SnapshotRow::carrier_model("operation"@) == Some(DataTypeModel::Utf8),
        SnapshotRow::carrier_model("manifest_list"@) == Some(DataTypeModel::Utf8),
        SnapshotRow::carrier_model("summary"@) == Some(map_model(DataTypeModel::Utf8, DataTypeModel::Utf8)),
        forall|column: Seq<char>|
            column != "committed_at"@ && column != "snapshot_id"@ && column != "parent_id"@ && column != "operation"@ && column != "manifest_list"@ && column != "summary"@
                ==> (#[trigger] SnapshotRow::carrier_model(column)) is None,
{
    lemma_snapshot_names();
}

proof fn lemma_history_names()
    ensures
        "made_current_at"@.len() == 15,
        "snapshot_id"@.len() == 11,
        "parent_id"@.len() == 9,
        "is_current_ancestor"@.len() == 19,
{
    reveal_strlit("made_current_at");
    reveal_strlit("snapshot_id");
    reveal_strlit("parent_id");
    reveal_strlit("is_current_ancestor");
}

/// Each column of `$history` states the fact of its row that it is named after.
pub proof fn law_history_columns_state_their_row(row: HistoryRow)
    ensures
        row.cell_model("made_current_at"@) == CellModel::Int64(row.made_current_at),
        row.cell_model("snapshot_id"@) == CellModel::Int64(row.snapshot_id),
        row.cell_model("parent_id"@) == long_cell(row.parent_id),
        row.cell_model("is_current_ancestor"@) == CellModel::Boolean(row.is_current_ancestor),
        HistoryRow::carrier_model("made_current_at"@) == Some(timestamp_tz_model()),
        HistoryRow::carrier_model("snapshot_id"@) == Some(DataTypeModel::Int64),
        HistoryRow::carrier_model("parent_id"@) == Some(DataTypeModel::Int64),
        HistoryRow::carrier_model("is_current_ancestor"@) == Some(DataTypeModel::Boolean),
        forall|column: Seq<char>|
            column != "made_current_at"@ && column != "snapshot_id"@ && column != "parent_id"@ && column != "is_current_ancestor"@
                ==> (#[trigger] HistoryRow::carrier_model(column)) is None,
{
    lemma_history_names();
}

proof fn lemma_ref_names()
    ensures
        "name"@.len() == 4 && "name"@[0] == 'n',
        "type"@.len() == 4 && "type"@[0] == 't',
        "snapshot_id"@.len() == 11,
        "max_reference_age_in_ms"@.len() == 23,
        "min_snapshots_to_keep"@.len() == 21,
        "max_snapshot_age_in_ms"@.len() == 22,
{
    reveal_strlit("name");
    reveal_strlit("type");
    reveal_strlit("snapshot_id");
    reveal_strlit("max_reference_age_in_ms");
    reveal_strlit("min_snapshots_to_keep");
    reveal_strlit("max_snapshot_age_in_ms");
}

/// Each column of `$refs` states the fact of its ref that it is named after. A tag has no limit but that of its own age.
pub proof fn law_ref_columns_state_their_row(row: RefRow)
    ensures
        row.cell_model("name"@) == CellModel::Text(row.reference.name@),
        row.cell_model("type"@) == CellModel::Text(match row.reference.retention {
            SnapshotRetention::Branch { .. } => "BRANCH"@,
            SnapshotRetention::Tag { .. } => "TAG"@,
        }),
        row.cell_model("snapshot_id"@) == CellModel::Int64(row.reference.snapshot_id),
        row.cell_model("max_reference_age_in_ms"@) == long_cell(match row.reference.retention {
            SnapshotRetention::Branch { max_ref_age_ms, .. } => max_ref_age_ms,
            SnapshotRetention::Tag { max_ref_age_ms } => max_ref_age_ms,
        }),
        row.cell_model("min_snapshots_to_keep"@) == int_cell(match row.reference.retention {
            SnapshotRetention::Branch { min_snapshots_to_keep, .. } => min_snapshots_to_keep,
            SnapshotRetention::Tag { .. } => None,
        }),
        row.cell_model("max_snapshot_age_in_ms"@) == long_cell(match row.reference.retention {
            SnapshotRetention::Branch { max_snapshot_age_ms, .. } => max_snapshot_age_ms,
            SnapshotRetention::Tag { .. } => None,
        }),
        RefRow::carrier_model("name"@) == Some(DataTypeModel::Utf8),
        RefRow::carrier_model("type"@) == Some(DataTypeModel::Utf8),
        RefRow::carrier_model("snapshot_id"@) == Some(DataTypeModel::Int64),
        RefRow::carrier_model("max_reference_age_in_ms"@) == Some(DataTypeModel::Int64),
        RefRow::carrier_model("min_snapshots_to_keep"@) == Some(DataTypeModel::Int32),
        RefRow::carrier_model("max_snapshot_age_in_ms"@) == Some(DataTypeModel::Int64),
        forall|column: Seq<char>|
            column != "name"@ && column != "type"@ && column != "snapshot_id"@ && column != "max_reference_age_in_ms"@ && column != "min_snapshots_to_keep"@ && column != "max_snapshot_age_in_ms"@
                ==> (#[trigger] RefRow::carrier_model(column)) is None,
{
    lemma_ref_names();
}

proof fn lemma_manifest_names()
    ensures
        "content"@.len() == 7,
        "path"@.len() == 4,
        "length"@.len() == 6,
        "partition_spec_id"@.len() == 17 && "partition_spec_id"@[0] == 'p',
        "added_snapshot_id"@.len() == 17 && "added_snapshot_id"@[0] == 'a',
        "added_data_files_count"@.len() == 22,
        "added_rows_count"@.len() == 16,
        "existing_data_files_count"@.len() == 25,
        "existing_rows_count"@.len() == 19,
        "deleted_data_files_count"@.len() == 24,
        "deleted_rows_count"@.len() == 18,
{
    reveal_strlit("content");
    reveal_strlit("path");
    reveal_strlit("length");
    reveal_strlit("partition_spec_id");
    reveal_strlit("added_snapshot_id");
    reveal_strlit("added_data_files_count");
    reveal_strlit("added_rows_count");
    reveal_strlit("existing_data_files_count");
    reveal_strlit("existing_rows_count");
    reveal_strlit("deleted_data_files_count");
    reveal_strlit("deleted_rows_count");
}

/// Each column of `$manifests` states the fact of its manifest that it is named after.
pub proof fn law_manifest_columns_state_their_row(row: ListedManifest)
    ensures
        row.cell_model("content"@) == CellModel::Int32(match row.manifest.content {
            TrinoManifestContent::Data => 0i32,
            TrinoManifestContent::Deletes => 1i32,
        }),
        row.cell_model("path"@) == CellModel::Text(row.manifest.path@),
        row.cell_model("length"@) == CellModel::Int64(row.manifest.length),
        row.cell_model("partition_spec_id"@) == CellModel::Int32(row.manifest.partition_spec_id),
        row.cell_model("added_snapshot_id"@) == CellModel::Int64(row.manifest.added_snapshot_id),
        row.cell_model("added_data_files_count"@) == int_cell(row.manifest.added_files_count),
        row.cell_model("added_rows_count"@) == long_cell(row.manifest.added_rows_count),
        row.cell_model("existing_data_files_count"@) == int_cell(row.manifest.existing_files_count),
        row.cell_model("existing_rows_count"@) == long_cell(row.manifest.existing_rows_count),
        row.cell_model("deleted_data_files_count"@) == int_cell(row.manifest.deleted_files_count),
        row.cell_model("deleted_rows_count"@) == long_cell(row.manifest.deleted_rows_count),
        ListedManifest::carrier_model("content"@) == Some(DataTypeModel::Int32),
        ListedManifest::carrier_model("path"@) == Some(DataTypeModel::Utf8),
        ListedManifest::carrier_model("length"@) == Some(DataTypeModel::Int64),
        ListedManifest::carrier_model("partition_spec_id"@) == Some(DataTypeModel::Int32),
        ListedManifest::carrier_model("added_snapshot_id"@) == Some(DataTypeModel::Int64),
        ListedManifest::carrier_model("added_data_files_count"@) == Some(DataTypeModel::Int32),
        ListedManifest::carrier_model("added_rows_count"@) == Some(DataTypeModel::Int64),
        ListedManifest::carrier_model("existing_data_files_count"@) == Some(DataTypeModel::Int32),
        ListedManifest::carrier_model("existing_rows_count"@) == Some(DataTypeModel::Int64),
        ListedManifest::carrier_model("deleted_data_files_count"@) == Some(DataTypeModel::Int32),
        ListedManifest::carrier_model("deleted_rows_count"@) == Some(DataTypeModel::Int64),
        forall|column: Seq<char>|
            column != "content"@ && column != "path"@ && column != "length"@ && column != "partition_spec_id"@ && column != "added_snapshot_id"@ && column != "added_data_files_count"@ && column != "added_rows_count"@ && column != "existing_data_files_count"@ && column != "existing_rows_count"@ && column != "deleted_data_files_count"@ && column != "deleted_rows_count"@
                ==> (#[trigger] ListedManifest::carrier_model(column)) is None,
{
    lemma_manifest_names();
}

proof fn lemma_partition_names()
    ensures
        "record_count"@.len() == 12,
        "file_count"@.len() == 10 && "file_count"@[0] == 'f',
        "total_size"@.len() == 10 && "total_size"@[0] == 't',
{
    reveal_strlit("record_count");
    reveal_strlit("file_count");
    reveal_strlit("total_size");
}

/// Each total of `$partitions` states the total of its partition that it is named after.
pub proof fn law_partition_columns_state_their_row(row: PartitionAggregate)
    ensures
        row.cell_model("record_count"@) == CellModel::Int64(row.record_count),
        row.cell_model("file_count"@) == CellModel::Int64(row.file_count),
        row.cell_model("total_size"@) == CellModel::Int64(row.total_size),
        PartitionAggregate::carrier_model("record_count"@) == Some(DataTypeModel::Int64),
        PartitionAggregate::carrier_model("file_count"@) == Some(DataTypeModel::Int64),
        PartitionAggregate::carrier_model("total_size"@) == Some(DataTypeModel::Int64),
        forall|column: Seq<char>|
            column != "record_count"@ && column != "file_count"@ && column != "total_size"@
                ==> (#[trigger] PartitionAggregate::carrier_model(column)) is None,
{
    lemma_partition_names();
}

} // verus!
