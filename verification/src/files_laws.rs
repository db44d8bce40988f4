//! What `$files` and `$entries` state of the files of a table.

use vstd::prelude::*;

use crate::binding_laws::law_entries_are_found_by_their_id;
use crate::carrier::{CarrierModel, DataTypeModel};
use crate::column::{CellModel, ColumnModel};
use crate::error::ConnectorError;
use crate::files_relation::{
    bounds_of, data_file_column, entries_column, field_metrics, files_column, metrics_column, metrics_member,
    metrics_text, objects_text, partition_tuples, primitive_positions, row_metrics, MemberModel, MetricsModel,
};
use crate::keyed::{ascending, get, law_get_after_put, law_put_keeps_ascending, named_model};
use crate::relation_columns::plain_column;
use crate::relation_laws::law_every_field_of_a_data_file_has_its_column;
use crate::system_columns::{bounds_struct, partition_struct};
use crate::system_rows::FileRow;
use crate::types::EntryModel;
use crate::value::{Datum, Literal};

verus! {

/// Each column of `$files` comes from its name: the partition, the bounds, the metrics, and one fact of
/// each row under every other name that the relation has.
pub proof fn law_files_columns_come_from_their_names(
    field: CarrierModel,
    rows: Seq<FileRow>,
    entries: Seq<EntryModel>,
    tuples: Seq<Seq<(Seq<char>, &Option<Literal>)>>,
    lower: Seq<Seq<(i32, &Datum)>>,
    upper: Seq<Seq<(i32, &Datum)>>,
)
    requires
        tuples.len() == rows.len() && lower.len() == rows.len() && upper.len() == rows.len(),
        forall|i: int| 0 <= i < rows.len() ==> #[trigger] tuples[i] == named_model(rows[i].partition@),
        forall|i: int| 0 <= i < rows.len() ==> #[trigger] lower[i] == rows[i].lower_bounds@,
        forall|i: int| 0 <= i < rows.len() ==> #[trigger] upper[i] == rows[i].upper_bounds@,
    ensures
        field.name == "partition"@ ==> files_column(field, rows, entries) == partition_struct(field.data_type, tuples),
        field.name == "lower_bounds"@ ==> files_column(field, rows, entries) == bounds_struct(field.data_type, lower),
        field.name == "upper_bounds"@ ==> files_column(field, rows, entries) == bounds_struct(field.data_type, upper),
        field.name == "readable_metrics"@ ==> files_column(field, rows, entries) == Ok::<ColumnModel, ConnectorError>(
            metrics_column(rows, entries),
        ),
        field.name == "content"@ || field.name == "file_path"@ || field.name == "file_format"@ || field.name == "spec_id"@ || field.name == "record_count"@ || field.name == "file_size_in_bytes"@ || field.name == "column_sizes"@ || field.name == "value_counts"@ || field.name == "null_value_counts"@ || field.name == "nan_value_counts"@ || field.name == "key_metadata"@ || field.name == "split_offsets"@ || field.name == "equality_ids"@ || field.name == "sort_order_id"@ || field.name == "added_snapshot_id"@ || field.name == "file_sequence_number"@ || field.name == "data_sequence_number"@ || field.name == "referenced_data_file"@ || field.name == "pos"@ || field.name == "manifest_location"@ || field.name == "first_row_id"@ || field.name == "content_offset"@ || field.name == "content_size_in_bytes"@ ==> files_column(field, rows, entries) == plain_column(field, rows),
{
    reveal_strlit("partition");
    reveal_strlit("lower_bounds");
    reveal_strlit("upper_bounds");
    reveal_strlit("readable_metrics");
    reveal_strlit("content");
    reveal_strlit("file_path");
    reveal_strlit("file_format");
    reveal_strlit("spec_id");
    reveal_strlit("record_count");
    reveal_strlit("file_size_in_bytes");
    reveal_strlit("column_sizes");
    reveal_strlit("value_counts");
    reveal_strlit("null_value_counts");
    reveal_strlit("nan_value_counts");
    reveal_strlit("key_metadata");
    reveal_strlit("split_offsets");
    reveal_strlit("equality_ids");
    reveal_strlit("sort_order_id");
    reveal_strlit("added_snapshot_id");
    reveal_strlit("file_sequence_number");
    reveal_strlit("data_sequence_number");
    reveal_strlit("referenced_data_file");
    reveal_strlit("pos");
    reveal_strlit("manifest_location");
    reveal_strlit("first_row_id");
    reveal_strlit("content_offset");
    reveal_strlit("content_size_in_bytes");
    assert("partition"@.len() == 9 && "partition"@[0] == 'p');
    assert("lower_bounds"@.len() == 12 && "lower_bounds"@[0] == 'l');
    assert("upper_bounds"@.len() == 12 && "upper_bounds"@[0] == 'u');
    assert("readable_metrics"@.len() == 16 && "readable_metrics"@[0] == 'r');
    assert("content"@.len() == 7 && "content"@[0] == 'c');
    assert("file_path"@.len() == 9 && "file_path"@[0] == 'f');
    assert("file_format"@.len() == 11);
    assert("spec_id"@.len() == 7 && "spec_id"@[0] == 's');
    assert("record_count"@.len() == 12 && "record_count"@[0] == 'r');
    assert("file_size_in_bytes"@.len() == 18);
    assert("column_sizes"@.len() == 12 && "column_sizes"@[0] == 'c');
    assert("value_counts"@.len() == 12 && "value_counts"@[0] == 'v');
    assert("null_value_counts"@.len() == 17 && "null_value_counts"@[0] == 'n');
    assert("nan_value_counts"@.len() == 16 && "nan_value_counts"@[0] == 'n');
    assert("key_metadata"@.len() == 12 && "key_metadata"@[0] == 'k');
    assert("split_offsets"@.len() == 13 && "split_offsets"@[1] == 'p');
    assert("equality_ids"@.len() == 12 && "equality_ids"@[0] == 'e');
    assert("sort_order_id"@.len() == 13 && "sort_order_id"@[1] == 'o');
    assert("added_snapshot_id"@.len() == 17 && "added_snapshot_id"@[0] == 'a');
    assert("file_sequence_number"@.len() == 20 && "file_sequence_number"@[0] == 'f');
    assert("data_sequence_number"@.len() == 20 && "data_sequence_number"@[0] == 'd');
    assert("referenced_data_file"@.len() == 20 && "referenced_data_file"@[0] == 'r');
    assert("pos"@.len() == 3);
    assert("manifest_location"@.len() == 17 && "manifest_location"@[0] == 'm');
    assert("first_row_id"@.len() == 12 && "first_row_id"@[0] == 'f');
    assert("content_offset"@.len() == 14);
    assert("content_size_in_bytes"@.len() == 21);
    assert(partition_tuples(rows) =~= tuples);
    assert(bounds_of(rows, true) =~= lower);
    assert(bounds_of(rows, false) =~= upper);
}

/// Each fact of a file in `$entries` comes from its name: the partition, and one fact of each row under
/// every other name that the row has.
pub proof fn law_data_file_facts_come_from_their_names(
    field: CarrierModel,
    rows: Seq<FileRow>,
    tuples: Seq<Seq<(Seq<char>, &Option<Literal>)>>,
)
    requires
        tuples.len() == rows.len(),
        forall|i: int| 0 <= i < rows.len() ==> #[trigger] tuples[i] == named_model(rows[i].partition@),
    ensures
        field.name == "partition"@ ==> data_file_column(field, rows) == partition_struct(field.data_type, tuples),
        field.name == "content"@ || field.name == "file_path"@ || field.name == "file_format"@ || field.name == "spec_id"@ || field.name == "record_count"@ || field.name == "file_size_in_bytes"@ || field.name == "column_sizes"@ || field.name == "value_counts"@ || field.name == "null_value_counts"@ || field.name == "nan_value_counts"@ || field.name == "lower_bounds"@ || field.name == "upper_bounds"@ || field.name == "key_metadata"@ || field.name == "split_offsets"@ || field.name == "equality_ids"@ || field.name == "sort_order_id"@ ==> data_file_column(field, rows) == plain_column(field, rows),
{
    reveal_strlit("partition");
    reveal_strlit("content");
    reveal_strlit("file_path");
    reveal_strlit("file_format");
    reveal_strlit("spec_id");
    reveal_strlit("record_count");
    reveal_strlit("file_size_in_bytes");
    reveal_strlit("column_sizes");
    reveal_strlit("value_counts");
    reveal_strlit("null_value_counts");
    reveal_strlit("nan_value_counts");
    reveal_strlit("lower_bounds");
    reveal_strlit("upper_bounds");
    reveal_strlit("key_metadata");
    reveal_strlit("split_offsets");
    reveal_strlit("equality_ids");
    reveal_strlit("sort_order_id");
    assert("partition"@.len() == 9 && "partition"@[0] == 'p');
    assert("content"@.len() == 7 && "content"@[0] == 'c');
    assert("file_path"@.len() == 9 && "file_path"@[0] == 'f');
    assert("file_format"@.len() == 11);
    assert("spec_id"@.len() == 7 && "spec_id"@[0] == 's');
    assert("record_count"@.len() == 12 && "record_count"@[0] == 'r');
    assert("file_size_in_bytes"@.len() == 18);
    assert("column_sizes"@.len() == 12 && "column_sizes"@[0] == 'c');
    assert("value_counts"@.len() == 12 && "value_counts"@[0] == 'v');
    assert("null_value_counts"@.len() == 17);
    assert("nan_value_counts"@.len() == 16);
    assert("lower_bounds"@.len() == 12 && "lower_bounds"@[0] == 'l');
    assert("upper_bounds"@.len() == 12 && "upper_bounds"@[0] == 'u');
    assert("key_metadata"@.len() == 12 && "key_metadata"@[0] == 'k');
    assert("split_offsets"@.len() == 13 && "split_offsets"@[1] == 'p');
    assert("equality_ids"@.len() == 12 && "equality_ids"@[0] == 'e');
    assert("sort_order_id"@.len() == 13 && "sort_order_id"@[1] == 'o');
    assert(partition_tuples(rows) =~= tuples);
}

/// Each column of `$entries` comes from its name: the facts of the file as one row, the metrics, and one
/// fact of each row under the others.
pub proof fn law_entries_columns_come_from_their_names(field: CarrierModel, rows: Seq<FileRow>, entries: Seq<EntryModel>, f: int)
    ensures
        field.name == "data_file"@ && entries_column(field, rows, entries) is Ok ==> ({
            let column = entries_column(field, rows, entries)->Ok_0;
            &&& column is Row
            &&& field.data_type == DataTypeModel::Struct(column->fields)
            &&& column->length == rows.len()
            &&& column->children.len() == column->fields.len()
            &&& 0 <= f < column->fields.len() ==> data_file_column(column->fields[f], rows) == Ok::<
                ColumnModel,
                ConnectorError,
            >(column->children[f])
        }),
        field.name == "readable_metrics"@ ==> entries_column(field, rows, entries) == Ok::<ColumnModel, ConnectorError>(
            metrics_column(rows, entries),
        ),
        field.name == "status"@ || field.name == "snapshot_id"@ || field.name == "sequence_number"@ || field.name == "file_sequence_number"@ ==> entries_column(field, rows, entries) == plain_column(field, rows),
{
    reveal_strlit("data_file");
    reveal_strlit("readable_metrics");
    reveal_strlit("status");
    reveal_strlit("snapshot_id");
    reveal_strlit("sequence_number");
    reveal_strlit("file_sequence_number");
    assert("data_file"@.len() == 9);
    assert("readable_metrics"@.len() == 16);
    assert("status"@.len() == 6);
    assert("snapshot_id"@.len() == 11);
    assert("sequence_number"@.len() == 15);
    assert("file_sequence_number"@.len() == 20);
    if field.name == "data_file"@ && entries_column(field, rows, entries) is Ok {
        let fields = field.data_type->Struct_0;
        law_every_field_of_a_data_file_has_its_column(fields, rows, fields.len());
    }
}

// ---------------------------------------------------------------------------
// Readable metrics
// ---------------------------------------------------------------------------

/// The metrics of a field are those that the row has under its id: the size, the three counts and the
/// texts of the two bounds, each absent where the row has none.
pub proof fn law_metrics_are_those_under_the_id(row: FileRow, entry: EntryModel)
    ensures
        ({
            let metrics = field_metrics(row, entry);
            let id = entry.field.id;
            &&& metrics.0 == entry.path
            &&& metrics.1.0 == get(row.column_sizes@, id)
            &&& metrics.1.1 == get(row.value_counts@, id)
            &&& metrics.1.2 == get(row.null_value_counts@, id)
            &&& metrics.1.3 == get(row.nan_value_counts@, id)
            &&& metrics.2.0 is Some <==> get(row.lower_bounds@, id) is Some
            &&& metrics.2.0 is Some ==> metrics.2.0->0 == get(row.lower_bounds@, id)->0.text@
            &&& metrics.2.1 is Some <==> get(row.upper_bounds@, id) is Some
            &&& metrics.2.1 is Some ==> metrics.2.1->0 == get(row.upper_bounds@, id)->0.text@
        }),
{
}

/// The metrics of a field are written under its name, each under the name of the metric.
pub proof fn law_metrics_are_written_under_their_names(metrics: MetricsModel)
    ensures
        ({
            let member = metrics_member(metrics);
            &&& member.0 == metrics.0
            &&& member.1.len() == 4 && member.2.len() == 2
            &&& member.1[0] == ("column_size"@, metrics.1.0)
            &&& member.1[1] == ("value_count"@, metrics.1.1)
            &&& member.1[2] == ("null_value_count"@, metrics.1.2)
            &&& member.1[3] == ("nan_value_count"@, metrics.1.3)
            &&& member.2[0] == ("lower_bound"@, metrics.2.0)
            &&& member.2[1] == ("upper_bound"@, metrics.2.1)
        }),
{
}

/// Whether no later primitive entry has the id of the entry at a place.
pub open spec fn is_last_primitive_of_its_id(entries: Seq<EntryModel>, e: int, n: nat) -> bool {
    &&& 0 <= e < n
    &&& entries[e].field.field_type is Primitive
    &&& forall|later: int|
        e < later < n && (#[trigger] entries[later]).field.field_type is Primitive ==> entries[later].field.id
            != entries[e].field.id
}

/// Whether a position is that of a primitive entry of an id.
pub open spec fn is_primitive_at(entries: Seq<EntryModel>, id: i32, at: usize, n: nat) -> bool {
    at < n && entries[at as int].field.field_type is Primitive && entries[at as int].field.id == id
}

proof fn lemma_primitive_positions(entries: Seq<EntryModel>, n: nat, e: int, id: i32)
    requires
        n <= entries.len() <= usize::MAX,
    ensures
        ascending(primitive_positions(entries, n)),
        is_last_primitive_of_its_id(entries, e, n) ==> get(primitive_positions(entries, n), entries[e].field.id) == Some(
            e as usize,
        ),
        get(primitive_positions(entries, n), id) is Some ==> is_primitive_at(
            entries,
            id,
            get(primitive_positions(entries, n), id)->0,
            n,
        ),
    decreases n,
{
    if n > 0 {
        let m = (n - 1) as nat;
        lemma_primitive_positions(entries, m, e, id);
        let before = primitive_positions(entries, m);
        let last = entries[n - 1].field;
        if is_last_primitive_of_its_id(entries, e, n) && e < m {
            assert(last.field_type is Primitive ==> last.id != entries[e].field.id);
            assert(is_last_primitive_of_its_id(entries, e, m));
        }
        if last.field_type is Primitive {
            law_put_keeps_ascending(before, last.id, m as usize);
            law_get_after_put(before, last.id, m as usize, id);
            if 0 <= e < n {
                law_get_after_put(before, last.id, m as usize, entries[e].field.id);
            }
        }
    }
}

/// The metrics of a file are those of every primitive field of the table, at any depth, in the order of
/// their ids, and of no other field.
pub proof fn law_every_primitive_field_has_its_metrics(row: FileRow, entries: Seq<EntryModel>, e: int, k: int)
    requires
        entries.len() <= usize::MAX,
    ensures
        is_last_primitive_of_its_id(entries, e, entries.len()) ==> exists|place: int|
            0 <= place < row_metrics(row, entries).len() && #[trigger] row_metrics(row, entries)[place] == field_metrics(
                row,
                entries[e],
            ),
        0 <= k < row_metrics(row, entries).len() ==> exists|at: int|
            0 <= at < entries.len() && (#[trigger] entries[at]).field.field_type is Primitive && row_metrics(row, entries)[k]
                == field_metrics(row, entries[at]),
{
    let positions = primitive_positions(entries, entries.len());
    let metrics = row_metrics(row, entries);
    if is_last_primitive_of_its_id(entries, e, entries.len()) {
        let id = entries[e].field.id;
        lemma_primitive_positions(entries, entries.len(), e, id);
        law_entries_are_found_by_their_id(positions, id);
        let place = choose|place: int| 0 <= place < positions.len() && #[trigger] positions[place] == (id, e as usize);
        assert(metrics[place] == field_metrics(row, entries[e]));
    }
    if 0 <= k < metrics.len() {
        let (id, at) = positions[k];
        lemma_primitive_positions(entries, entries.len(), 0, id);
        law_entries_are_found_by_their_id(positions, id);
        assert(get(positions, positions[k].0) == Some(positions[k].1));
        assert(metrics[k] == field_metrics(row, entries[at as int]));
    }
}

/// The metrics column has one text for each row, made of the metrics of that row alone.
pub proof fn law_metrics_have_a_text_for_each_row(
    rows: Seq<FileRow>,
    entries: Seq<EntryModel>,
    i: int,
    members: Seq<MemberModel>,
)
    requires
        0 <= i < rows.len(),
        members.len() == row_metrics(rows[i], entries).len(),
        forall|k: int|
            0 <= k < members.len() ==> #[trigger] members[k] == metrics_member(row_metrics(rows[i], entries)[k]),
    ensures
        ({
            let column = metrics_column(rows, entries);
            &&& column is Flat
            &&& column->data_type is Utf8
            &&& column->cells.len() == rows.len()
            &&& column->cells[i] == CellModel::Text(objects_text(members))
        }),
{
    let metrics = row_metrics(rows[i], entries);
    assert(metrics.map_values(|column: MetricsModel| metrics_member(column)) =~= members);
    assert(metrics_text(metrics) == objects_text(members));
}

} // verus!
