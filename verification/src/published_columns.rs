//! The columns that the system relations publish, and their places in the frozen schemas.

use vstd::prelude::*;

use crate::carrier::{CarrierModel, DataTypeModel};
use crate::column_handle::base_handle;
use crate::partition::PartitionSpecModel;
use crate::system_schema::{
    bounds_row, entries_data_file_model, entries_model, files_model, history_model, json_field,
    law_published_ids_are_distinct, list_model, manifests_model, map_model, mirrored_field,
    mirrored_fields, nullable_field, partition_row, partition_summary_model, partitions_model,
    position_named, refs_model, relation_handles, relation_model, required_field, snapshots_model,
    timestamp_tz_model, with_optional, IcebergSystemTableType,
};
use crate::types::FieldModel;

verus! {

/// Whether no two columns of a relation have one name.
pub open spec fn names_are_distinct(columns: Seq<CarrierModel>) -> bool {
    forall|i: int, j: int|
        0 <= i < j < columns.len() ==> (#[trigger] columns[i]).name != (#[trigger] columns[j]).name
}

// The names of a relation are told apart by a rank: each name has one, and along the column list
// the ranks ascend, whichever of the optional columns are there.

spec fn ranked(columns: Seq<CarrierModel>, rank: spec_fn(Seq<char>) -> int, bound: int) -> bool {
    &&& forall|i: int| 0 <= i < columns.len() ==> rank((#[trigger] columns[i]).name) < bound
    &&& forall|i: int, j: int|
        0 <= i < j < columns.len() ==> rank((#[trigger] columns[i]).name) < rank(
            (#[trigger] columns[j]).name,
        )
}

proof fn lemma_ranked_push(columns: Seq<CarrierModel>, rank: spec_fn(Seq<char>) -> int, bound: int, column: CarrierModel)
    requires
        ranked(columns, rank, bound),
        rank(column.name) == bound,
    ensures
        ranked(columns.push(column), rank, bound + 1),
{
}

proof fn lemma_ranked_optional(
    columns: Seq<CarrierModel>,
    rank: spec_fn(Seq<char>) -> int,
    bound: int,
    name: Seq<char>,
    carrier: Option<DataTypeModel>,
)
    requires
        ranked(columns, rank, bound),
        rank(name) == bound,
    ensures
        ranked(with_optional(columns, name, carrier), rank, bound + 1),
{
}

spec fn files_rank(name: Seq<char>) -> int {
    if name == "content"@ {
        0
    } else if name == "file_path"@ {
        1
    } else if name == "file_format"@ {
        2
    } else if name == "spec_id"@ {
        3
    } else if name == "partition"@ {
        4
    } else if name == "record_count"@ {
        5
    } else if name == "file_size_in_bytes"@ {
        6
    } else if name == "column_sizes"@ {
        7
    } else if name == "value_counts"@ {
        8
    } else if name == "null_value_counts"@ {
        9
    } else if name == "nan_value_counts"@ {
        10
    } else if name == "lower_bounds"@ {
        11
    } else if name == "upper_bounds"@ {
        12
    } else if name == "key_metadata"@ {
        13
    } else if name == "split_offsets"@ {
        14
    } else if name == "equality_ids"@ {
        15
    } else if name == "sort_order_id"@ {
        16
    } else if name == "readable_metrics"@ {
        17
    } else if name == "added_snapshot_id"@ {
        18
    } else if name == "file_sequence_number"@ {
        19
    } else if name == "data_sequence_number"@ {
        20
    } else if name == "referenced_data_file"@ {
        21
    } else if name == "pos"@ {
        22
    } else if name == "manifest_location"@ {
        23
    } else if name == "first_row_id"@ {
        24
    } else if name == "content_offset"@ {
        25
    } else {
        26
    }
}

/// The columns of `$files` have distinct names.
pub proof fn law_files_names_are_distinct(partition: Option<DataTypeModel>, bounds: Option<DataTypeModel>)
    ensures
        names_are_distinct(files_model(partition, bounds)),
{
    reveal_strlit("content");
    assert("content"@.len() == 7 && "content"@[0] == 'c' && "content"@[1] == 'o');
    reveal_strlit("file_path");
    assert("file_path"@.len() == 9 && "file_path"@[0] == 'f' && "file_path"@[1] == 'i');
    reveal_strlit("file_format");
    assert("file_format"@.len() == 11 && "file_format"@[0] == 'f' && "file_format"@[1] == 'i');
    reveal_strlit("spec_id");
    assert("spec_id"@.len() == 7 && "spec_id"@[0] == 's' && "spec_id"@[1] == 'p');
    reveal_strlit("partition");
    assert("partition"@.len() == 9 && "partition"@[0] == 'p' && "partition"@[1] == 'a');
    reveal_strlit("record_count");
    assert("record_count"@.len() == 12 && "record_count"@[0] == 'r' && "record_count"@[1] == 'e');
    reveal_strlit("file_size_in_bytes");
    assert("file_size_in_bytes"@.len() == 18 && "file_size_in_bytes"@[0] == 'f' && "file_size_in_bytes"@[1] == 'i');
    reveal_strlit("column_sizes");
    assert("column_sizes"@.len() == 12 && "column_sizes"@[0] == 'c' && "column_sizes"@[1] == 'o');
    reveal_strlit("value_counts");
    assert("value_counts"@.len() == 12 && "value_counts"@[0] == 'v' && "value_counts"@[1] == 'a');
    reveal_strlit("null_value_counts");
    assert("null_value_counts"@.len() == 17 && "null_value_counts"@[0] == 'n' && "null_value_counts"@[1] == 'u');
    reveal_strlit("nan_value_counts");
    assert("nan_value_counts"@.len() == 16 && "nan_value_counts"@[0] == 'n' && "nan_value_counts"@[1] == 'a');
    reveal_strlit("lower_bounds");
    assert("lower_bounds"@.len() == 12 && "lower_bounds"@[0] == 'l' && "lower_bounds"@[1] == 'o');
    reveal_strlit("upper_bounds");
    assert("upper_bounds"@.len() == 12 && "upper_bounds"@[0] == 'u' && "upper_bounds"@[1] == 'p');
    reveal_strlit("key_metadata");
    assert("key_metadata"@.len() == 12 && "key_metadata"@[0] == 'k' && "key_metadata"@[1] == 'e');
    reveal_strlit("split_offsets");
    assert("split_offsets"@.len() == 13 && "split_offsets"@[0] == 's' && "split_offsets"@[1] == 'p');
    reveal_strlit("equality_ids");
    assert("equality_ids"@.len() == 12 && "equality_ids"@[0] == 'e' && "equality_ids"@[1] == 'q');
    reveal_strlit("sort_order_id");
    assert("sort_order_id"@.len() == 13 && "sort_order_id"@[0] == 's' && "sort_order_id"@[1] == 'o');
    reveal_strlit("readable_metrics");
    assert("readable_metrics"@.len() == 16 && "readable_metrics"@[0] == 'r' && "readable_metrics"@[1] == 'e');
    reveal_strlit("added_snapshot_id");
    assert("added_snapshot_id"@.len() == 17 && "added_snapshot_id"@[0] == 'a' && "added_snapshot_id"@[1] == 'd');
    reveal_strlit("file_sequence_number");
    assert("file_sequence_number"@.len() == 20 && "file_sequence_number"@[0] == 'f' && "file_sequence_number"@[1] == 'i');
    reveal_strlit("data_sequence_number");
    assert("data_sequence_number"@.len() == 20 && "data_sequence_number"@[0] == 'd' && "data_sequence_number"@[1] == 'a');
    reveal_strlit("referenced_data_file");
    assert("referenced_data_file"@.len() == 20 && "referenced_data_file"@[0] == 'r' && "referenced_data_file"@[1] == 'e');
    reveal_strlit("pos");
    assert("pos"@.len() == 3 && "pos"@[0] == 'p' && "pos"@[1] == 'o');
    reveal_strlit("manifest_location");
    assert("manifest_location"@.len() == 17 && "manifest_location"@[0] == 'm' && "manifest_location"@[1] == 'a');
    reveal_strlit("first_row_id");
    assert("first_row_id"@.len() == 12 && "first_row_id"@[0] == 'f' && "first_row_id"@[1] == 'i');
    reveal_strlit("content_offset");
    assert("content_offset"@.len() == 14 && "content_offset"@[0] == 'c' && "content_offset"@[1] == 'o');
    reveal_strlit("content_size_in_bytes");
    assert("content_size_in_bytes"@.len() == 21 && "content_size_in_bytes"@[0] == 'c' && "content_size_in_bytes"@[1] == 'o');
    let rank = |name: Seq<char>| files_rank(name);
    let columns = Seq::<CarrierModel>::empty();
    let column = required_field("content"@, DataTypeModel::Int32);
    lemma_ranked_push(columns, rank, 0, column);
    let columns = columns.push(column);
    let column = required_field("file_path"@, DataTypeModel::Utf8);
    lemma_ranked_push(columns, rank, 1, column);
    let columns = columns.push(column);
    let column = required_field("file_format"@, DataTypeModel::Utf8);
    lemma_ranked_push(columns, rank, 2, column);
    let columns = columns.push(column);
    let column = required_field("spec_id"@, DataTypeModel::Int32);
    lemma_ranked_push(columns, rank, 3, column);
    let columns = columns.push(column);
    lemma_ranked_optional(columns, rank, 4, "partition"@, partition);
    let columns = with_optional(columns, "partition"@, partition);
    let column = required_field("record_count"@, DataTypeModel::Int64);
    lemma_ranked_push(columns, rank, 5, column);
    let columns = columns.push(column);
    let column = required_field("file_size_in_bytes"@, DataTypeModel::Int64);
    lemma_ranked_push(columns, rank, 6, column);
    let columns = columns.push(column);
    let column = nullable_field("column_sizes"@, map_model(DataTypeModel::Int32, DataTypeModel::Int64));
    lemma_ranked_push(columns, rank, 7, column);
    let columns = columns.push(column);
    let column = nullable_field("value_counts"@, map_model(DataTypeModel::Int32, DataTypeModel::Int64));
    lemma_ranked_push(columns, rank, 8, column);
    let columns = columns.push(column);
    let column = nullable_field("null_value_counts"@, map_model(DataTypeModel::Int32, DataTypeModel::Int64));
    lemma_ranked_push(columns, rank, 9, column);
    let columns = columns.push(column);
    let column = nullable_field("nan_value_counts"@, map_model(DataTypeModel::Int32, DataTypeModel::Int64));
    lemma_ranked_push(columns, rank, 10, column);
    let columns = columns.push(column);
    lemma_ranked_optional(columns, rank, 11, "lower_bounds"@, bounds);
    let columns = with_optional(columns, "lower_bounds"@, bounds);
    lemma_ranked_optional(columns, rank, 12, "upper_bounds"@, bounds);
    let columns = with_optional(columns, "upper_bounds"@, bounds);
    let column = nullable_field("key_metadata"@, DataTypeModel::Binary);
    lemma_ranked_push(columns, rank, 13, column);
    let columns = columns.push(column);
    let column = nullable_field("split_offsets"@, list_model(DataTypeModel::Int64));
    lemma_ranked_push(columns, rank, 14, column);
    let columns = columns.push(column);
    let column = nullable_field("equality_ids"@, list_model(DataTypeModel::Int32));
    lemma_ranked_push(columns, rank, 15, column);
    let columns = columns.push(column);
    let column = nullable_field("sort_order_id"@, DataTypeModel::Int32);
    lemma_ranked_push(columns, rank, 16, column);
    let columns = columns.push(column);
    let column = json_field("readable_metrics"@);
    lemma_ranked_push(columns, rank, 17, column);
    let columns = columns.push(column);
    let column = nullable_field("added_snapshot_id"@, DataTypeModel::Int64);
    lemma_ranked_push(columns, rank, 18, column);
    let columns = columns.push(column);
    let column = nullable_field("file_sequence_number"@, DataTypeModel::Int64);
    lemma_ranked_push(columns, rank, 19, column);
    let columns = columns.push(column);
    let column = nullable_field("data_sequence_number"@, DataTypeModel::Int64);
    lemma_ranked_push(columns, rank, 20, column);
    let columns = columns.push(column);
    let column = nullable_field("referenced_data_file"@, DataTypeModel::Utf8);
    lemma_ranked_push(columns, rank, 21, column);
    let columns = columns.push(column);
    let column = required_field("pos"@, DataTypeModel::Int64);
    lemma_ranked_push(columns, rank, 22, column);
    let columns = columns.push(column);
    let column = required_field("manifest_location"@, DataTypeModel::Utf8);
    lemma_ranked_push(columns, rank, 23, column);
    let columns = columns.push(column);
    let column = nullable_field("first_row_id"@, DataTypeModel::Int64);
    lemma_ranked_push(columns, rank, 24, column);
    let columns = columns.push(column);
    let column = nullable_field("content_offset"@, DataTypeModel::Int64);
    lemma_ranked_push(columns, rank, 25, column);
    let columns = columns.push(column);
    let column = nullable_field("content_size_in_bytes"@, DataTypeModel::Int64);
    lemma_ranked_push(columns, rank, 26, column);
    let columns = columns.push(column);
    assert(columns == files_model(partition, bounds));
}

spec fn entries_rank(name: Seq<char>) -> int {
    if name == "status"@ {
        0
    } else if name == "snapshot_id"@ {
        1
    } else if name == "sequence_number"@ {
        2
    } else if name == "file_sequence_number"@ {
        3
    } else if name == "data_file"@ {
        4
    } else {
        5
    }
}

/// The columns of `$entries` have distinct names.
pub proof fn law_entries_names_are_distinct(partition: Option<DataTypeModel>)
    ensures
        names_are_distinct(entries_model(partition)),
{
    reveal_strlit("status");
    assert("status"@.len() == 6 && "status"@[0] == 's' && "status"@[1] == 't');
    reveal_strlit("snapshot_id");
    assert("snapshot_id"@.len() == 11 && "snapshot_id"@[0] == 's' && "snapshot_id"@[1] == 'n');
    reveal_strlit("sequence_number");
    assert("sequence_number"@.len() == 15 && "sequence_number"@[0] == 's' && "sequence_number"@[1] == 'e');
    reveal_strlit("file_sequence_number");
    assert("file_sequence_number"@.len() == 20 && "file_sequence_number"@[0] == 'f' && "file_sequence_number"@[1] == 'i');
    reveal_strlit("data_file");
    assert("data_file"@.len() == 9 && "data_file"@[0] == 'd' && "data_file"@[1] == 'a');
    reveal_strlit("readable_metrics");
    assert("readable_metrics"@.len() == 16 && "readable_metrics"@[0] == 'r' && "readable_metrics"@[1] == 'e');
    let rank = |name: Seq<char>| entries_rank(name);
    let columns = Seq::<CarrierModel>::empty();
    let column = required_field("status"@, DataTypeModel::Int32);
    lemma_ranked_push(columns, rank, 0, column);
    let columns = columns.push(column);
    let column = nullable_field("snapshot_id"@, DataTypeModel::Int64);
    lemma_ranked_push(columns, rank, 1, column);
    let columns = columns.push(column);
    let column = nullable_field("sequence_number"@, DataTypeModel::Int64);
    lemma_ranked_push(columns, rank, 2, column);
    let columns = columns.push(column);
    let column = nullable_field("file_sequence_number"@, DataTypeModel::Int64);
    lemma_ranked_push(columns, rank, 3, column);
    let columns = columns.push(column);
    let column = required_field("data_file"@, entries_data_file_model(partition));
    lemma_ranked_push(columns, rank, 4, column);
    let columns = columns.push(column);
    let column = json_field("readable_metrics"@);
    lemma_ranked_push(columns, rank, 5, column);
    let columns = columns.push(column);
    assert(columns == entries_model(partition));
}

spec fn snapshots_rank(name: Seq<char>) -> int {
    if name == "committed_at"@ {
        0
    } else if name == "snapshot_id"@ {
        1
    } else if name == "parent_id"@ {
        2
    } else if name == "operation"@ {
        3
    } else if name == "manifest_list"@ {
        4
    } else {
        5
    }
}

/// The columns of `$snapshots` have distinct names.
pub proof fn law_snapshots_names_are_distinct()
    ensures
        names_are_distinct(snapshots_model()),
{
    reveal_strlit("committed_at");
    assert("committed_at"@.len() == 12 && "committed_at"@[0] == 'c' && "committed_at"@[1] == 'o');
    reveal_strlit("snapshot_id");
    assert("snapshot_id"@.len() == 11 && "snapshot_id"@[0] == 's' && "snapshot_id"@[1] == 'n');
    reveal_strlit("parent_id");
    assert("parent_id"@.len() == 9 && "parent_id"@[0] == 'p' && "parent_id"@[1] == 'a');
    reveal_strlit("operation");
    assert("operation"@.len() == 9 && "operation"@[0] == 'o' && "operation"@[1] == 'p');
    reveal_strlit("manifest_list");
    assert("manifest_list"@.len() == 13 && "manifest_list"@[0] == 'm' && "manifest_list"@[1] == 'a');
    reveal_strlit("summary");
    assert("summary"@.len() == 7 && "summary"@[0] == 's' && "summary"@[1] == 'u');
    let rank = |name: Seq<char>| snapshots_rank(name);
    let columns = Seq::<CarrierModel>::empty();
    let column = required_field("committed_at"@, timestamp_tz_model());
    lemma_ranked_push(columns, rank, 0, column);
    let columns = columns.push(column);
    let column = required_field("snapshot_id"@, DataTypeModel::Int64);
    lemma_ranked_push(columns, rank, 1, column);
    let columns = columns.push(column);
    let column = nullable_field("parent_id"@, DataTypeModel::Int64);
    lemma_ranked_push(columns, rank, 2, column);
    let columns = columns.push(column);
    let column = required_field("operation"@, DataTypeModel::Utf8);
    lemma_ranked_push(columns, rank, 3, column);
    let columns = columns.push(column);
    let column = required_field("manifest_list"@, DataTypeModel::Utf8);
    lemma_ranked_push(columns, rank, 4, column);
    let columns = columns.push(column);
    let column = nullable_field("summary"@, map_model(DataTypeModel::Utf8, DataTypeModel::Utf8));
    lemma_ranked_push(columns, rank, 5, column);
    let columns = columns.push(column);
    assert(columns == snapshots_model());
}

spec fn history_rank(name: Seq<char>) -> int {
    if name == "made_current_at"@ {
        0
    } else if name == "snapshot_id"@ {
        1
    } else if name == "parent_id"@ {
        2
    } else {
        3
    }
}

/// The columns of `$history` have distinct names.
pub proof fn law_history_names_are_distinct()
    ensures
        names_are_distinct(history_model()),
{
    reveal_strlit("made_current_at");
    assert("made_current_at"@.len() == 15 && "made_current_at"@[0] == 'm' && "made_current_at"@[1] == 'a');
    reveal_strlit("snapshot_id");
    assert("snapshot_id"@.len() == 11 && "snapshot_id"@[0] == 's' && "snapshot_id"@[1] == 'n');
    reveal_strlit("parent_id");
    assert("parent_id"@.len() == 9 && "parent_id"@[0] == 'p' && "parent_id"@[1] == 'a');
    reveal_strlit("is_current_ancestor");
    assert("is_current_ancestor"@.len() == 19 && "is_current_ancestor"@[0] == 'i' && "is_current_ancestor"@[1] == 's');
    let rank = |name: Seq<char>| history_rank(name);
    let columns = Seq::<CarrierModel>::empty();
    let column = required_field("made_current_at"@, timestamp_tz_model());
    lemma_ranked_push(columns, rank, 0, column);
    let columns = columns.push(column);
    let column = required_field("snapshot_id"@, DataTypeModel::Int64);
    lemma_ranked_push(columns, rank, 1, column);
    let columns = columns.push(column);
    let column = nullable_field("parent_id"@, DataTypeModel::Int64);
    lemma_ranked_push(columns, rank, 2, column);
    let columns = columns.push(column);
    let column = required_field("is_current_ancestor"@, DataTypeModel::Boolean);
    lemma_ranked_push(columns, rank, 3, column);
    let columns = columns.push(column);
    assert(columns == history_model());
}

spec fn refs_rank(name: Seq<char>) -> int {
    if name == "name"@ {
        0
    } else if name == "type"@ {
        1
    } else if name == "snapshot_id"@ {
        2
    } else if name == "max_reference_age_in_ms"@ {
        3
    } else if name == "min_snapshots_to_keep"@ {
        4
    } else {
        5
    }
}

/// The columns of `$refs` have distinct names.
pub proof fn law_refs_names_are_distinct()
    ensures
        names_are_distinct(refs_model()),
{
    reveal_strlit("name");
    assert("name"@.len() == 4 && "name"@[0] == 'n' && "name"@[1] == 'a');
    reveal_strlit("type");
    assert("type"@.len() == 4 && "type"@[0] == 't' && "type"@[1] == 'y');
    reveal_strlit("snapshot_id");
    assert("snapshot_id"@.len() == 11 && "snapshot_id"@[0] == 's' && "snapshot_id"@[1] == 'n');
    reveal_strlit("max_reference_age_in_ms");
    assert("max_reference_age_in_ms"@.len() == 23 && "max_reference_age_in_ms"@[0] == 'm' && "max_reference_age_in_ms"@[1] == 'a');
    reveal_strlit("min_snapshots_to_keep");
    assert("min_snapshots_to_keep"@.len() == 21 && "min_snapshots_to_keep"@[0] == 'm' && "min_snapshots_to_keep"@[1] == 'i');
    reveal_strlit("max_snapshot_age_in_ms");
    assert("max_snapshot_age_in_ms"@.len() == 22 && "max_snapshot_age_in_ms"@[0] == 'm' && "max_snapshot_age_in_ms"@[1] == 'a');
    let rank = |name: Seq<char>| refs_rank(name);
    let columns = Seq::<CarrierModel>::empty();
    let column = required_field("name"@, DataTypeModel::Utf8);
    lemma_ranked_push(columns, rank, 0, column);
    let columns = columns.push(column);
    let column = required_field("type"@, DataTypeModel::Utf8);
    lemma_ranked_push(columns, rank, 1, column);
    let columns = columns.push(column);
    let column = required_field("snapshot_id"@, DataTypeModel::Int64);
    lemma_ranked_push(columns, rank, 2, column);
    let columns = columns.push(column);
    let column = nullable_field("max_reference_age_in_ms"@, DataTypeModel::Int64);
    lemma_ranked_push(columns, rank, 3, column);
    let columns = columns.push(column);
    let column = nullable_field("min_snapshots_to_keep"@, DataTypeModel::Int32);
    lemma_ranked_push(columns, rank, 4, column);
    let columns = columns.push(column);
    let column = nullable_field("max_snapshot_age_in_ms"@, DataTypeModel::Int64);
    lemma_ranked_push(columns, rank, 5, column);
    let columns = columns.push(column);
    assert(columns == refs_model());
}

spec fn manifests_rank(name: Seq<char>) -> int {
    if name == "content"@ {
        0
    } else if name == "path"@ {
        1
    } else if name == "length"@ {
        2
    } else if name == "partition_spec_id"@ {
        3
    } else if name == "added_snapshot_id"@ {
        4
    } else if name == "added_data_files_count"@ {
        5
    } else if name == "added_rows_count"@ {
        6
    } else if name == "existing_data_files_count"@ {
        7
    } else if name == "existing_rows_count"@ {
        8
    } else if name == "deleted_data_files_count"@ {
        9
    } else if name == "deleted_rows_count"@ {
        10
    } else {
        11
    }
}

/// The columns of `$manifests` have distinct names.
pub proof fn law_manifests_names_are_distinct()
    ensures
        names_are_distinct(manifests_model()),
{
    reveal_strlit("content");
    assert("content"@.len() == 7 && "content"@[0] == 'c' && "content"@[1] == 'o');
    reveal_strlit("path");
    assert("path"@.len() == 4 && "path"@[0] == 'p' && "path"@[1] == 'a');
    reveal_strlit("length");
    assert("length"@.len() == 6 && "length"@[0] == 'l' && "length"@[1] == 'e');
    reveal_strlit("partition_spec_id");
    assert("partition_spec_id"@.len() == 17 && "partition_spec_id"@[0] == 'p' && "partition_spec_id"@[1] == 'a');
    reveal_strlit("added_snapshot_id");
    assert("added_snapshot_id"@.len() == 17 && "added_snapshot_id"@[0] == 'a' && "added_snapshot_id"@[1] == 'd');
    reveal_strlit("added_data_files_count");
    assert("added_data_files_count"@.len() == 22 && "added_data_files_count"@[0] == 'a' && "added_data_files_count"@[1] == 'd');
    reveal_strlit("added_rows_count");
    assert("added_rows_count"@.len() == 16 && "added_rows_count"@[0] == 'a' && "added_rows_count"@[1] == 'd');
    reveal_strlit("existing_data_files_count");
    assert("existing_data_files_count"@.len() == 25 && "existing_data_files_count"@[0] == 'e' && "existing_data_files_count"@[1] == 'x');
    reveal_strlit("existing_rows_count");
    assert("existing_rows_count"@.len() == 19 && "existing_rows_count"@[0] == 'e' && "existing_rows_count"@[1] == 'x');
    reveal_strlit("deleted_data_files_count");
    assert("deleted_data_files_count"@.len() == 24 && "deleted_data_files_count"@[0] == 'd' && "deleted_data_files_count"@[1] == 'e');
    reveal_strlit("deleted_rows_count");
    assert("deleted_rows_count"@.len() == 18 && "deleted_rows_count"@[0] == 'd' && "deleted_rows_count"@[1] == 'e');
    reveal_strlit("partition_summaries");
    assert("partition_summaries"@.len() == 19 && "partition_summaries"@[0] == 'p' && "partition_summaries"@[1] == 'a');
    let rank = |name: Seq<char>| manifests_rank(name);
    let columns = Seq::<CarrierModel>::empty();
    let column = required_field("content"@, DataTypeModel::Int32);
    lemma_ranked_push(columns, rank, 0, column);
    let columns = columns.push(column);
    let column = required_field("path"@, DataTypeModel::Utf8);
    lemma_ranked_push(columns, rank, 1, column);
    let columns = columns.push(column);
    let column = required_field("length"@, DataTypeModel::Int64);
    lemma_ranked_push(columns, rank, 2, column);
    let columns = columns.push(column);
    let column = required_field("partition_spec_id"@, DataTypeModel::Int32);
    lemma_ranked_push(columns, rank, 3, column);
    let columns = columns.push(column);
    let column = required_field("added_snapshot_id"@, DataTypeModel::Int64);
    lemma_ranked_push(columns, rank, 4, column);
    let columns = columns.push(column);
    let column = nullable_field("added_data_files_count"@, DataTypeModel::Int32);
    lemma_ranked_push(columns, rank, 5, column);
    let columns = columns.push(column);
    let column = nullable_field("added_rows_count"@, DataTypeModel::Int64);
    lemma_ranked_push(columns, rank, 6, column);
    let columns = columns.push(column);
    let column = nullable_field("existing_data_files_count"@, DataTypeModel::Int32);
    lemma_ranked_push(columns, rank, 7, column);
    let columns = columns.push(column);
    let column = nullable_field("existing_rows_count"@, DataTypeModel::Int64);
    lemma_ranked_push(columns, rank, 8, column);
    let columns = columns.push(column);
    let column = nullable_field("deleted_data_files_count"@, DataTypeModel::Int32);
    lemma_ranked_push(columns, rank, 9, column);
    let columns = columns.push(column);
    let column = nullable_field("deleted_rows_count"@, DataTypeModel::Int64);
    lemma_ranked_push(columns, rank, 10, column);
    let columns = columns.push(column);
    let column = nullable_field("partition_summaries"@, partition_summary_model());
    lemma_ranked_push(columns, rank, 11, column);
    let columns = columns.push(column);
    assert(columns == manifests_model());
}

spec fn partitions_rank(name: Seq<char>) -> int {
    if name == "partition"@ {
        0
    } else if name == "record_count"@ {
        1
    } else if name == "file_count"@ {
        2
    } else if name == "total_size"@ {
        3
    } else {
        4
    }
}

/// The columns of `$partitions` have distinct names.
pub proof fn law_partitions_names_are_distinct(partition: Option<DataTypeModel>, metrics: Option<DataTypeModel>)
    ensures
        names_are_distinct(partitions_model(partition, metrics)),
{
    reveal_strlit("partition");
    assert("partition"@.len() == 9 && "partition"@[0] == 'p' && "partition"@[1] == 'a');
    reveal_strlit("record_count");
    assert("record_count"@.len() == 12 && "record_count"@[0] == 'r' && "record_count"@[1] == 'e');
    reveal_strlit("file_count");
    assert("file_count"@.len() == 10 && "file_count"@[0] == 'f' && "file_count"@[1] == 'i');
    reveal_strlit("total_size");
    assert("total_size"@.len() == 10 && "total_size"@[0] == 't' && "total_size"@[1] == 'o');
    reveal_strlit("data");
    assert("data"@.len() == 4 && "data"@[0] == 'd' && "data"@[1] == 'a');
    let rank = |name: Seq<char>| partitions_rank(name);
    let columns = Seq::<CarrierModel>::empty();
    lemma_ranked_optional(columns, rank, 0, "partition"@, partition);
    let columns = with_optional(columns, "partition"@, partition);
    let column = required_field("record_count"@, DataTypeModel::Int64);
    lemma_ranked_push(columns, rank, 1, column);
    let columns = columns.push(column);
    let column = required_field("file_count"@, DataTypeModel::Int64);
    lemma_ranked_push(columns, rank, 2, column);
    let columns = columns.push(column);
    let column = required_field("total_size"@, DataTypeModel::Int64);
    lemma_ranked_push(columns, rank, 3, column);
    let columns = columns.push(column);
    lemma_ranked_optional(columns, rank, 4, "data"@, metrics);
    let columns = with_optional(columns, "data"@, metrics);
    assert(columns == partitions_model(partition, metrics));
}

proof fn lemma_first_of_its_name(columns: Seq<CarrierModel>, at: nat, from: nat)
    requires
        names_are_distinct(columns),
        from <= at < columns.len(),
    ensures
        position_named(columns, columns[at as int].name, from) == Some(at),
    decreases at - from,
{
    if from < at {
        assert(columns[from as int].name != columns[at as int].name);
        lemma_first_of_its_name(columns, at, from + 1);
    }
}

proof fn lemma_mirrors_keep_names(fields: Seq<CarrierModel>, n: nat, next: int)
    requires
        n <= fields.len(),
        mirrored_fields(fields, n, next) is Ok,
    ensures
        mirrored_fields(fields, n, next)->Ok_0.0.len() == n,
        forall|i: int|
            0 <= i < n ==> (#[trigger] mirrored_fields(fields, n, next)->Ok_0.0[i]).name == fields[i].name,
    decreases n,
{
    if n > 0 {
        lemma_mirrors_keep_names(fields, (n - 1) as nat, next);
        let (before, middle) = mirrored_fields(fields, (n - 1) as nat, next)->Ok_0;
        let after = mirrored_fields(fields, n, next)->Ok_0.0;
        let own = mirrored_field(fields[n - 1], middle);
        assert(own->Ok_0.0.name == fields[n - 1].name);
        assert(after == before.push(own->Ok_0.0));
        assert forall|i: int| 0 <= i < n implies (#[trigger] after[i]).name == fields[i].name by {
            if i < n - 1 {
                assert(after[i] == before[i]);
            }
        }
    }
}

/// A relation publishes one column for each of its frozen columns, under the same name; their ids
/// are positive and ascend, and projecting all of them takes the columns as they stand.
pub proof fn law_published_columns_project_in_order(
    relation: IcebergSystemTableType,
    fields: Seq<FieldModel>,
    specs: Seq<PartitionSpecModel>,
)
    requires
        relation_handles(relation, fields, specs) is Ok,
    ensures
        ({
            let handles = relation_handles(relation, fields, specs)->Ok_0;
            let frozen = relation_model(relation, fields, specs)->Ok_0;
            &&& relation_model(relation, fields, specs) is Ok
            &&& handles.len() == frozen.len()
            &&& forall|i: int|
                0 <= i < handles.len() ==> {
                    &&& (#[trigger] handles[i]).base_name == frozen[i].name
                    &&& handles[i].base_field_id >= 1
                    &&& position_named(frozen, handles[i].base_name, 0) == Some(i as nat)
                }
            &&& forall|i: int, j: int|
                0 <= i < j < handles.len() ==> (#[trigger] handles[i]).base_field_id < (
                #[trigger] handles[j]).base_field_id
        }),
{
    let handles = relation_handles(relation, fields, specs)->Ok_0;
    let frozen = relation_model(relation, fields, specs)->Ok_0;
    let mirrored = mirrored_fields(frozen, frozen.len(), 1)->Ok_0.0;
    law_published_ids_are_distinct(frozen);
    lemma_mirrors_keep_names(frozen, frozen.len(), 1);
    lemma_relation_names_are_distinct(relation, fields, specs);
    assert forall|i: int| 0 <= i < handles.len() implies {
        &&& (#[trigger] handles[i]).base_name == frozen[i].name
        &&& handles[i].base_field_id >= 1
        &&& position_named(frozen, handles[i].base_name, 0) == Some(i as nat)
    } by {
        assert(handles[i] == base_handle(mirrored[i]));
        lemma_first_of_its_name(frozen, i as nat, 0);
    }
    assert forall|i: int, j: int| 0 <= i < j < handles.len() implies (
    #[trigger] handles[i]).base_field_id < (#[trigger] handles[j]).base_field_id by {
        assert(handles[i] == base_handle(mirrored[i]));
        assert(handles[j] == base_handle(mirrored[j]));
    }
}

proof fn lemma_relation_names_are_distinct(
    relation: IcebergSystemTableType,
    fields: Seq<FieldModel>,
    specs: Seq<PartitionSpecModel>,
)
    requires
        relation_model(relation, fields, specs) is Ok,
    ensures
        names_are_distinct(relation_model(relation, fields, specs)->Ok_0),
{
    match relation {
        IcebergSystemTableType::Files => {
            let partition = partition_row(fields, specs)->Ok_0;
            law_files_names_are_distinct(partition, bounds_row(fields)->Ok_0);
        },
        IcebergSystemTableType::Entries => {
            law_entries_names_are_distinct(partition_row(fields, specs)->Ok_0);
        },
        IcebergSystemTableType::Snapshots => {
            law_snapshots_names_are_distinct();
        },
        IcebergSystemTableType::History => {
            law_history_names_are_distinct();
        },
        IcebergSystemTableType::Refs => {
            law_refs_names_are_distinct();
        },
        IcebergSystemTableType::Manifests => {
            law_manifests_names_are_distinct();
        },
    }
}

} // verus!
