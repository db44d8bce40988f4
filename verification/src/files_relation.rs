//! The columns of `$files` and `$entries`.

use vstd::prelude::*;

use crate::carrier::{field_models, lemma_struct_model, CarrierModel, DataType, DataTypeModel, Field};
use crate::column::{cell_models, column_models, new_cells, new_columns, push_cell, push_column, Cell, CellModel, Column, ColumnModel};
use crate::error::{ConnectorError, InternalFault};
use crate::keyed::{find_entry, get, put, put_entry};
use crate::relation_columns::{bound_texts_cell, bound_texts_to_cell, bytes_cell, bytes_to_cell, counts_cell, counts_to_cell, int_cell, int_to_cell, ints_cell, ints_to_cell, is_named, long_cell, long_to_cell, longs_cell, longs_to_cell, plain_column, plain_field_column, text_cell, text_to_cell, SystemRow};
use crate::system_columns::{bound_models, bounds_struct, bounds_struct_array, column_result, partition_struct, partition_struct_array, row_column, row_of, tuple_models};
use crate::system_rows::FileRow;
use crate::system_schema::{list_model, list_type, map_model, map_type};
use crate::types::{entry_models, EntryModel, Schema, SchemaEntry, Type};
use crate::value::{Datum, Literal};

verus! {

impl<'a> SystemRow for FileRow<'a> {
    open spec fn carrier_model(column: Seq<char>) -> Option<DataTypeModel> {
        if column == "content"@ {
            Some(DataTypeModel::Int32)
        } else if column == "file_path"@ {
            Some(DataTypeModel::Utf8)
        } else if column == "file_format"@ {
            Some(DataTypeModel::Utf8)
        } else if column == "spec_id"@ {
            Some(DataTypeModel::Int32)
        } else if column == "record_count"@ {
            Some(DataTypeModel::Int64)
        } else if column == "file_size_in_bytes"@ {
            Some(DataTypeModel::Int64)
        } else if column == "column_sizes"@ {
            Some(map_model(DataTypeModel::Int32, DataTypeModel::Int64))
        } else if column == "value_counts"@ {
            Some(map_model(DataTypeModel::Int32, DataTypeModel::Int64))
        } else if column == "null_value_counts"@ {
            Some(map_model(DataTypeModel::Int32, DataTypeModel::Int64))
        } else if column == "nan_value_counts"@ {
            Some(map_model(DataTypeModel::Int32, DataTypeModel::Int64))
        } else if column == "lower_bounds"@ {
            Some(map_model(DataTypeModel::Int32, DataTypeModel::Utf8))
        } else if column == "upper_bounds"@ {
            Some(map_model(DataTypeModel::Int32, DataTypeModel::Utf8))
        } else if column == "key_metadata"@ {
            Some(DataTypeModel::Binary)
        } else if column == "split_offsets"@ {
            Some(list_model(DataTypeModel::Int64))
        } else if column == "equality_ids"@ {
            Some(list_model(DataTypeModel::Int32))
        } else if column == "sort_order_id"@ {
            Some(DataTypeModel::Int32)
        } else if column == "status"@ {
            Some(DataTypeModel::Int32)
        } else if column == "snapshot_id"@ {
            Some(DataTypeModel::Int64)
        } else if column == "sequence_number"@ {
            Some(DataTypeModel::Int64)
        } else if column == "added_snapshot_id"@ {
            Some(DataTypeModel::Int64)
        } else if column == "file_sequence_number"@ {
            Some(DataTypeModel::Int64)
        } else if column == "data_sequence_number"@ {
            Some(DataTypeModel::Int64)
        } else if column == "referenced_data_file"@ {
            Some(DataTypeModel::Utf8)
        } else if column == "pos"@ {
            Some(DataTypeModel::Int64)
        } else if column == "manifest_location"@ {
            Some(DataTypeModel::Utf8)
        } else if column == "first_row_id"@ {
            Some(DataTypeModel::Int64)
        } else if column == "content_offset"@ {
            Some(DataTypeModel::Int64)
        } else if column == "content_size_in_bytes"@ {
            Some(DataTypeModel::Int64)
        } else {
            None
        }
    }

    open spec fn cell_model(&self, column: Seq<char>) -> CellModel {
        if column == "content"@ {
            CellModel::Int32(self.content)
        } else if column == "file_path"@ {
            CellModel::Text(self.file.file_path@)
        } else if column == "file_format"@ {
            CellModel::Text(self.file_format@)
        } else if column == "spec_id"@ {
            CellModel::Int32(self.spec_id)
        } else if column == "record_count"@ {
            CellModel::Int64(self.record_count)
        } else if column == "file_size_in_bytes"@ {
            CellModel::Int64(self.file_size_in_bytes)
        } else if column == "column_sizes"@ {
            counts_cell(self.column_sizes@)
        } else if column == "value_counts"@ {
            counts_cell(self.value_counts@)
        } else if column == "null_value_counts"@ {
            counts_cell(self.null_value_counts@)
        } else if column == "nan_value_counts"@ {
            counts_cell(self.nan_value_counts@)
        } else if column == "lower_bounds"@ {
            bound_texts_cell(self.lower_bounds@)
        } else if column == "upper_bounds"@ {
            bound_texts_cell(self.upper_bounds@)
        } else if column == "key_metadata"@ {
            bytes_cell(self.file.key_metadata)
        } else if column == "split_offsets"@ {
            longs_cell(self.file.split_offsets)
        } else if column == "equality_ids"@ {
            ints_cell(self.file.equality_ids)
        } else if column == "sort_order_id"@ {
            int_cell(self.file.sort_order_id)
        } else if column == "status"@ {
            CellModel::Int32(self.entry.status)
        } else if column == "snapshot_id"@ {
            long_cell(self.entry.snapshot_id)
        } else if column == "sequence_number"@ {
            long_cell(self.entry.data_sequence_number)
        } else if column == "added_snapshot_id"@ {
            long_cell(self.entry.snapshot_id)
        } else if column == "file_sequence_number"@ {
            long_cell(self.entry.file_sequence_number)
        } else if column == "data_sequence_number"@ {
            long_cell(self.entry.data_sequence_number)
        } else if column == "referenced_data_file"@ {
            text_cell(self.file.referenced_data_file)
        } else if column == "pos"@ {
            CellModel::Int64(self.pos)
        } else if column == "manifest_location"@ {
            CellModel::Text(self.manifest_location@)
        } else if column == "first_row_id"@ {
            long_cell(self.file.first_row_id)
        } else if column == "content_offset"@ {
            long_cell(self.file.content_offset)
        } else if column == "content_size_in_bytes"@ {
            long_cell(self.file.content_size_in_bytes)
        } else {
            CellModel::Null
        }
    }

    fn carrier(column: &String) -> (carrier: Option<DataType>) {
        if is_named(column, "content") {
            Some(DataType::Int32)
        } else if is_named(column, "file_path") {
            Some(DataType::Utf8)
        } else if is_named(column, "file_format") {
            Some(DataType::Utf8)
        } else if is_named(column, "spec_id") {
            Some(DataType::Int32)
        } else if is_named(column, "record_count") {
            Some(DataType::Int64)
        } else if is_named(column, "file_size_in_bytes") {
            Some(DataType::Int64)
        } else if is_named(column, "column_sizes") {
            Some(map_type(DataType::Int32, DataType::Int64))
        } else if is_named(column, "value_counts") {
            Some(map_type(DataType::Int32, DataType::Int64))
        } else if is_named(column, "null_value_counts") {
            Some(map_type(DataType::Int32, DataType::Int64))
        } else if is_named(column, "nan_value_counts") {
            Some(map_type(DataType::Int32, DataType::Int64))
        } else if is_named(column, "lower_bounds") {
            Some(map_type(DataType::Int32, DataType::Utf8))
        } else if is_named(column, "upper_bounds") {
            Some(map_type(DataType::Int32, DataType::Utf8))
        } else if is_named(column, "key_metadata") {
            Some(DataType::Binary)
        } else if is_named(column, "split_offsets") {
            Some(list_type(DataType::Int64))
        } else if is_named(column, "equality_ids") {
            Some(list_type(DataType::Int32))
        } else if is_named(column, "sort_order_id") {
            Some(DataType::Int32)
        } else if is_named(column, "status") {
            Some(DataType::Int32)
        } else if is_named(column, "snapshot_id") {
            Some(DataType::Int64)
        } else if is_named(column, "sequence_number") {
            Some(DataType::Int64)
        } else if is_named(column, "added_snapshot_id") {
            Some(DataType::Int64)
        } else if is_named(column, "file_sequence_number") {
            Some(DataType::Int64)
        } else if is_named(column, "data_sequence_number") {
            Some(DataType::Int64)
        } else if is_named(column, "referenced_data_file") {
            Some(DataType::Utf8)
        } else if is_named(column, "pos") {
            Some(DataType::Int64)
        } else if is_named(column, "manifest_location") {
            Some(DataType::Utf8)
        } else if is_named(column, "first_row_id") {
            Some(DataType::Int64)
        } else if is_named(column, "content_offset") {
            Some(DataType::Int64)
        } else if is_named(column, "content_size_in_bytes") {
            Some(DataType::Int64)
        } else {
            None
        }
    }

    fn cell(&self, column: &String) -> (cell: Cell) {
        if is_named(column, "content") {
            Cell::Int32(self.content)
        } else if is_named(column, "file_path") {
            Cell::Text(self.file.file_path.clone())
        } else if is_named(column, "file_format") {
            Cell::Text(String::from_str(self.file_format))
        } else if is_named(column, "spec_id") {
            Cell::Int32(self.spec_id)
        } else if is_named(column, "record_count") {
            Cell::Int64(self.record_count)
        } else if is_named(column, "file_size_in_bytes") {
            Cell::Int64(self.file_size_in_bytes)
        } else if is_named(column, "column_sizes") {
            counts_to_cell(&self.column_sizes)
        } else if is_named(column, "value_counts") {
            counts_to_cell(&self.value_counts)
        } else if is_named(column, "null_value_counts") {
            counts_to_cell(&self.null_value_counts)
        } else if is_named(column, "nan_value_counts") {
            counts_to_cell(&self.nan_value_counts)
        } else if is_named(column, "lower_bounds") {
            bound_texts_to_cell(&self.lower_bounds)
        } else if is_named(column, "upper_bounds") {
            bound_texts_to_cell(&self.upper_bounds)
        } else if is_named(column, "key_metadata") {
            bytes_to_cell(&self.file.key_metadata)
        } else if is_named(column, "split_offsets") {
            longs_to_cell(&self.file.split_offsets)
        } else if is_named(column, "equality_ids") {
            ints_to_cell(&self.file.equality_ids)
        } else if is_named(column, "sort_order_id") {
            int_to_cell(self.file.sort_order_id)
        } else if is_named(column, "status") {
            Cell::Int32(self.entry.status)
        } else if is_named(column, "snapshot_id") {
            long_to_cell(self.entry.snapshot_id)
        } else if is_named(column, "sequence_number") {
            long_to_cell(self.entry.data_sequence_number)
        } else if is_named(column, "added_snapshot_id") {
            long_to_cell(self.entry.snapshot_id)
        } else if is_named(column, "file_sequence_number") {
            long_to_cell(self.entry.file_sequence_number)
        } else if is_named(column, "data_sequence_number") {
            long_to_cell(self.entry.data_sequence_number)
        } else if is_named(column, "referenced_data_file") {
            text_to_cell(&self.file.referenced_data_file)
        } else if is_named(column, "pos") {
            Cell::Int64(self.pos)
        } else if is_named(column, "manifest_location") {
            Cell::Text(self.manifest_location.clone())
        } else if is_named(column, "first_row_id") {
            long_to_cell(self.file.first_row_id)
        } else if is_named(column, "content_offset") {
            long_to_cell(self.file.content_offset)
        } else if is_named(column, "content_size_in_bytes") {
            long_to_cell(self.file.content_size_in_bytes)
        } else {
            Cell::Null
        }
    }
}

/// Whether a name is one that `$files` has as a plain column.
pub open spec fn in_files(column: Seq<char>) -> bool {
    ||| column == "content"@
    ||| column == "file_path"@
    ||| column == "file_format"@
    ||| column == "spec_id"@
    ||| column == "record_count"@
    ||| column == "file_size_in_bytes"@
    ||| column == "column_sizes"@
    ||| column == "value_counts"@
    ||| column == "null_value_counts"@
    ||| column == "nan_value_counts"@
    ||| column == "key_metadata"@
    ||| column == "split_offsets"@
    ||| column == "equality_ids"@
    ||| column == "sort_order_id"@
    ||| column == "added_snapshot_id"@
    ||| column == "file_sequence_number"@
    ||| column == "data_sequence_number"@
    ||| column == "referenced_data_file"@
    ||| column == "pos"@
    ||| column == "manifest_location"@
    ||| column == "first_row_id"@
    ||| column == "content_offset"@
    ||| column == "content_size_in_bytes"@
}

fn is_in_files(column: &String) -> (is: bool)
    ensures
        is == in_files(column@),
{
    is_named(column, "content") || is_named(column, "file_path") || is_named(column, "file_format") || is_named(column, "spec_id") || is_named(column, "record_count") || is_named(column, "file_size_in_bytes") || is_named(column, "column_sizes") || is_named(column, "value_counts") || is_named(column, "null_value_counts") || is_named(column, "nan_value_counts") || is_named(column, "key_metadata") || is_named(column, "split_offsets") || is_named(column, "equality_ids") || is_named(column, "sort_order_id") || is_named(column, "added_snapshot_id") || is_named(column, "file_sequence_number") || is_named(column, "data_sequence_number") || is_named(column, "referenced_data_file") || is_named(column, "pos") || is_named(column, "manifest_location") || is_named(column, "first_row_id") || is_named(column, "content_offset") || is_named(column, "content_size_in_bytes")
}

/// Whether a name is one that the `data_file` row of `$entries` has as a plain column.
pub open spec fn in_data_file(column: Seq<char>) -> bool {
    ||| column == "content"@
    ||| column == "file_path"@
    ||| column == "file_format"@
    ||| column == "spec_id"@
    ||| column == "record_count"@
    ||| column == "file_size_in_bytes"@
    ||| column == "column_sizes"@
    ||| column == "value_counts"@
    ||| column == "null_value_counts"@
    ||| column == "nan_value_counts"@
    ||| column == "lower_bounds"@
    ||| column == "upper_bounds"@
    ||| column == "key_metadata"@
    ||| column == "split_offsets"@
    ||| column == "equality_ids"@
    ||| column == "sort_order_id"@
}

fn is_in_data_file(column: &String) -> (is: bool)
    ensures
        is == in_data_file(column@),
{
    is_named(column, "content") || is_named(column, "file_path") || is_named(column, "file_format") || is_named(column, "spec_id") || is_named(column, "record_count") || is_named(column, "file_size_in_bytes") || is_named(column, "column_sizes") || is_named(column, "value_counts") || is_named(column, "null_value_counts") || is_named(column, "nan_value_counts") || is_named(column, "lower_bounds") || is_named(column, "upper_bounds") || is_named(column, "key_metadata") || is_named(column, "split_offsets") || is_named(column, "equality_ids") || is_named(column, "sort_order_id")
}

/// Whether a name is one that `$entries` has as a plain column.
pub open spec fn in_entries(column: Seq<char>) -> bool {
    ||| column == "status"@
    ||| column == "snapshot_id"@
    ||| column == "sequence_number"@
    ||| column == "file_sequence_number"@
}

fn is_in_entries(column: &String) -> (is: bool)
    ensures
        is == in_entries(column@),
{
    is_named(column, "status") || is_named(column, "snapshot_id") || is_named(column, "sequence_number") || is_named(column, "file_sequence_number")
}

// ---------------------------------------------------------------------------
// Readable metrics
// ---------------------------------------------------------------------------

/// What a manifest records of one column of a file. A metric that it does not record is absent,
/// never zero.
pub struct ColumnMetrics {
    /// The full name of the column.
    pub name: String,
    pub column_size: Option<i64>,
    pub value_count: Option<i64>,
    pub null_value_count: Option<i64>,
    pub nan_value_count: Option<i64>,
    pub lower_bound: Option<String>,
    pub upper_bound: Option<String>,
}

/// The name of a column, its four counts and its two bounds, as mathematical values.
pub type MetricsModel = (Seq<char>, (Option<i64>, Option<i64>, Option<i64>, Option<i64>), (Option<Seq<char>>, Option<Seq<char>>));

impl ColumnMetrics {
    pub open spec fn model(self) -> MetricsModel {
        (
            self.name@,
            (self.column_size, self.value_count, self.null_value_count, self.nan_value_count),
            (
                crate::carrier::text_model(self.lower_bound),
                crate::carrier::text_model(self.upper_bound),
            ),
        )
    }
}

/// The models of a list of metrics.
pub open spec fn metrics_models(columns: Seq<ColumnMetrics>) -> Seq<MetricsModel> {
    columns.map_values(|column: ColumnMetrics| column.model())
}

/// One member of a JSON object, itself an object: its name, its numbers and its texts, each by
/// its key, null where there is none.
pub struct JsonMember {
    pub name: String,
    pub numbers: Vec<(String, Option<i64>)>,
    pub texts: Vec<(String, Option<String>)>,
}

/// The name, the numbers and the texts of a member, as mathematical values.
pub type MemberModel = (Seq<char>, Seq<(Seq<char>, Option<i64>)>, Seq<(Seq<char>, Option<Seq<char>>)>);

impl JsonMember {
    pub open spec fn model(self) -> MemberModel {
        (
            self.name@,
            self.numbers@.map_values(|pair: (String, Option<i64>)| (pair.0@, pair.1)),
            self.texts@.map_values(
                |pair: (String, Option<String>)| (pair.0@, crate::carrier::text_model(pair.1)),
            ),
        )
    }
}

/// The models of a list of members.
pub open spec fn member_models(members: Seq<JsonMember>) -> Seq<MemberModel> {
    members.map_values(|member: JsonMember| member.model())
}

/// The JSON text of an object of such members, as `serde_json` writes it.
pub uninterp spec fn objects_text(
    members: Seq<(Seq<char>, Seq<(Seq<char>, Option<i64>)>, Seq<(Seq<char>, Option<Seq<char>>)>)>,
) -> Seq<char>;

/// `serde_json::to_string` on a `serde_json::Value` made of the members, each under its key. Every
/// key is a string and the text is written into memory, so the call succeeds; the text depends on
/// the members alone.
#[verifier::external_body]
fn render_objects(members: &Vec<JsonMember>) -> (json: Result<String, serde_json::Error>)
    ensures
        json is Ok,
        json->Ok_0@ == objects_text(member_models(members@)),
{
    let mut object = serde_json::Map::new();
    for member in members {
        let mut held = serde_json::Map::new();
        for (key, number) in &member.numbers {
            held.insert(key.clone(), serde_json::Value::from(*number));
        }
        for (key, text) in &member.texts {
            held.insert(key.clone(), serde_json::Value::from(text.clone()));
        }
        object.insert(member.name.clone(), serde_json::Value::Object(held));
    }
    serde_json::to_string(&serde_json::Value::Object(object))
}

/// The member of one column: its four counts and its two bounds under their names.
pub open spec fn metrics_member(column: MetricsModel) -> MemberModel {
    (
        column.0,
        seq![
            ("column_size"@, column.1.0),
            ("value_count"@, column.1.1),
            ("null_value_count"@, column.1.2),
            ("nan_value_count"@, column.1.3),
        ],
        seq![("lower_bound"@, column.2.0), ("upper_bound"@, column.2.1)],
    )
}

/// The JSON text of the metrics of a file.
pub open spec fn metrics_text(columns: Seq<MetricsModel>) -> Seq<char> {
    objects_text(columns.map_values(|column: MetricsModel| metrics_member(column)))
}

fn member_of(column: &ColumnMetrics) -> (member: JsonMember)
    ensures
        member.model() == metrics_member(column.model()),
{
    let mut numbers: Vec<(String, Option<i64>)> = Vec::new();
    numbers.push((String::from_str("column_size"), column.column_size));
    numbers.push((String::from_str("value_count"), column.value_count));
    numbers.push((String::from_str("null_value_count"), column.null_value_count));
    numbers.push((String::from_str("nan_value_count"), column.nan_value_count));
    let mut texts: Vec<(String, Option<String>)> = Vec::new();
    texts.push(
        (String::from_str("lower_bound"), crate::carrier::duplicate_text(&column.lower_bound)),
    );
    texts.push(
        (String::from_str("upper_bound"), crate::carrier::duplicate_text(&column.upper_bound)),
    );
    let member = JsonMember { name: column.name.clone(), numbers, texts };
    proof {
        assert(member.model().1 =~= metrics_member(column.model()).1);
        assert(member.model().2 =~= metrics_member(column.model()).2);
    }
    member
}

/// The members of the columns of a file.
pub fn metrics_members(columns: &Vec<ColumnMetrics>) -> (members: Vec<JsonMember>)
    ensures
        member_models(members@) == metrics_models(columns@).map_values(
            |column: MetricsModel| metrics_member(column),
        ),
{
    let mut members: Vec<JsonMember> = Vec::new();
    let mut i: usize = 0;
    while i < columns.len()
        invariant
            i <= columns.len(),
            members@.len() == i,
            forall|k: int|
                0 <= k < i ==> (#[trigger] members@[k]).model() == metrics_member(columns@[k].model()),
        decreases columns.len() - i,
    {
        members.push(member_of(&columns[i]));
        i += 1;
    }
    assert(member_models(members@) =~= metrics_models(columns@).map_values(
        |column: MetricsModel| metrics_member(column),
    ));
    members
}

/// The positions of the primitive fields among the first `n` entries, ascending by field id.
pub open spec fn primitive_positions(entries: Seq<EntryModel>, n: nat) -> Seq<(i32, usize)>
    decreases n,
{
    if n == 0 || n > entries.len() {
        seq![]
    } else {
        let before = primitive_positions(entries, (n - 1) as nat);
        if entries[n - 1].field.field_type is Primitive {
            put(before, entries[n - 1].field.id, (n - 1) as usize)
        } else {
            before
        }
    }
}

/// The text of a bound, where there is one.
pub open spec fn bound_text(bounds: Seq<(i32, &Datum)>, id: i32) -> Option<Seq<char>> {
    match get(bounds, id) {
        Some(datum) => Some(datum.text@),
        None => None,
    }
}

/// What a row records of one field.
pub open spec fn field_metrics(row: FileRow, entry: EntryModel) -> MetricsModel {
    let id = entry.field.id;
    (
        entry.path,
        (
            get(row.column_sizes@, id),
            get(row.value_counts@, id),
            get(row.null_value_counts@, id),
            get(row.nan_value_counts@, id),
        ),
        (bound_text(row.lower_bounds@, id), bound_text(row.upper_bounds@, id)),
    )
}

/// What a row records of every primitive field of a schema, at any depth, by field id.
pub open spec fn row_metrics(row: FileRow, entries: Seq<EntryModel>) -> Seq<MetricsModel> {
    primitive_positions(entries, entries.len()).map_values(
        |position: (i32, usize)| field_metrics(row, entries[position.1 as int]),
    )
}

fn count_under(counts: &Vec<(i32, i64)>, id: i32) -> (count: Option<i64>)
    ensures
        count == get(counts@, id),
{
    match find_entry(counts, id) {
        Some(at) => Some(counts[at].1),
        None => None,
    }
}

fn bound_under(bounds: &Vec<(i32, &Datum)>, id: i32) -> (text: Option<String>)
    ensures
        crate::carrier::text_model(text) == bound_text(bounds@, id),
{
    match find_entry(bounds, id) {
        Some(at) => Some(bounds[at].1.text.clone()),
        None => None,
    }
}

proof fn lemma_primitive_positions_bound(entries: Seq<EntryModel>, n: nat)
    requires
        n <= entries.len(),
    ensures
        forall|i: int|
            0 <= i < primitive_positions(entries, n).len() ==> (#[trigger] primitive_positions(
                entries,
                n,
            )[i]).1 < n,
    decreases n,
{
    if n > 0 {
        lemma_primitive_positions_bound(entries, (n - 1) as nat);
        let before = primitive_positions(entries, (n - 1) as nat);
        if entries[n - 1].field.field_type is Primitive && n - 1 <= usize::MAX {
            lemma_put_members(before, entries[n - 1].field.id, (n - 1) as usize);
            assert forall|i: int| 0 <= i < primitive_positions(entries, n).len() implies (
            #[trigger] primitive_positions(entries, n)[i]).1 < n by {
                let after = primitive_positions(entries, n);
                assert(after[i] == (entries[n - 1].field.id, (n - 1) as usize) || exists|k: int|
                    0 <= k < before.len() && #[trigger] before[k] == after[i]);
                if after[i] != (entries[n - 1].field.id, (n - 1) as usize) {
                    let k = choose|k: int| 0 <= k < before.len() && #[trigger] before[k] == after[i];
                    assert(before[k].1 < n - 1);
                }
            }
        } else if entries[n - 1].field.field_type is Primitive {
            lemma_put_members(before, entries[n - 1].field.id, (n - 1) as usize);
            assert forall|i: int| 0 <= i < primitive_positions(entries, n).len() implies (
            #[trigger] primitive_positions(entries, n)[i]).1 < n by {
            }
        }
    }
}

proof fn lemma_put_members<V>(list: Seq<(i32, V)>, id: i32, value: V)
    ensures
        forall|i: int|
            0 <= i < put(list, id, value).len() ==> #[trigger] put(list, id, value)[i] == (id, value)
                || exists|k: int| 0 <= k < list.len() && #[trigger] list[k] == put(list, id, value)[i],
    decreases list.len(),
{
    let after = put(list, id, value);
    if list.len() == 0 || list.last().0 <= id {
        assert forall|i: int| 0 <= i < after.len() implies #[trigger] after[i] == (id, value)
            || exists|k: int| 0 <= k < list.len() && #[trigger] list[k] == after[i] by {
            if i < after.len() - 1 {
                assert(list[i] == after[i]);
            }
        }
    } else {
        let shorter = list.drop_last();
        lemma_put_members(shorter, id, value);
        let inner = put(shorter, id, value);
        assert forall|i: int| 0 <= i < after.len() implies #[trigger] after[i] == (id, value)
            || exists|k: int| 0 <= k < list.len() && #[trigger] list[k] == after[i] by {
            if i < inner.len() {
                assert(after[i] == inner[i]);
                if inner[i] != (id, value) {
                    let k = choose|k: int| 0 <= k < shorter.len() && #[trigger] shorter[k] == inner[i];
                    assert(list[k] == after[i]);
                }
            } else {
                assert(list[list.len() - 1] == after[i]);
            }
        }
    }
}

fn positions_by_id(entries: &Vec<SchemaEntry<'_>>) -> (positions: Vec<(i32, usize)>)
    ensures
        positions@ == primitive_positions(entry_models(entries@), entries@.len()),
{
    let ghost models = entry_models(entries@);
    let mut positions: Vec<(i32, usize)> = Vec::new();
    let mut i: usize = 0;
    while i < entries.len()
        invariant
            i <= entries.len(),
            models == entry_models(entries@),
            positions@ == primitive_positions(models, i as nat),
        decreases entries.len() - i,
    {
        assert(models[i as int] == entries@[i as int].model());
        if let Type::Primitive(_) = entries[i].field.field_type {
            put_entry(&mut positions, entries[i].field.id, i);
        }
        i += 1;
    }
    positions
}

/// What a row records of every primitive field of a schema.
pub fn collect_metrics(row: &FileRow, schema: &Schema) -> (columns: Vec<ColumnMetrics>)
    ensures
        metrics_models(columns@) == row_metrics(*row, schema.entries()),
{
    let entries = schema.index_struct_fields();
    let ghost models = schema.entries();
    let positions = positions_by_id(&entries);
    let ghost metrics = row_metrics(*row, models);
    proof {
        lemma_primitive_positions_bound(models, models.len());
    }
    let mut columns: Vec<ColumnMetrics> = Vec::new();
    let mut i: usize = 0;
    assert(metrics_models(columns@) =~= metrics.take(0));
    while i < positions.len()
        invariant
            i <= positions.len(),
            models == entry_models(entries@),
            positions@ == primitive_positions(models, models.len()),
            metrics == row_metrics(*row, models),
            forall|k: int| 0 <= k < positions@.len() ==> (#[trigger] positions@[k]).1 < models.len(),
            metrics_models(columns@) == metrics.take(i as int),
        decreases positions.len() - i,
    {
        assert(positions@[i as int].1 < models.len());
        let entry = &entries[positions[i].1];
        let id: i32 = entry.field.id;
        let ghost before = columns@;
        let column = ColumnMetrics {
            name: entry.path.clone(),
            column_size: count_under(&row.column_sizes, id),
            value_count: count_under(&row.value_counts, id),
            null_value_count: count_under(&row.null_value_counts, id),
            nan_value_count: count_under(&row.nan_value_counts, id),
            lower_bound: bound_under(&row.lower_bounds, id),
            upper_bound: bound_under(&row.upper_bounds, id),
        };
        proof {
            assert(models[positions@[i as int].1 as int] == entry.model());
            assert(metrics[i as int] == column.model());
        }
        columns.push(column);
        proof {
            assert(metrics_models(columns@) =~= metrics_models(before).push(metrics[i as int]));
            assert(metrics.take(i + 1) =~= metrics.take(i as int).push(metrics[i as int]));
        }
        i += 1;
    }
    assert(metrics.take(i as int) =~= metrics);
    columns
}

/// The `readable_metrics` text of a row.
pub fn readable_metrics_json(row: &FileRow, schema: &Schema) -> (json: Result<String, ConnectorError>)
    ensures
        json is Ok,
        json->Ok_0@ == metrics_text(row_metrics(*row, schema.entries())),
{
    let columns = collect_metrics(row, schema);
    let members = metrics_members(&columns);
    match render_objects(&members) {
        Ok(json) => Ok(json),
        Err(_) => Err(ConnectorError::Internal(InternalFault::JsonRendering)),
    }
}

/// The `readable_metrics` column of a list of rows.
pub open spec fn metrics_column(rows: Seq<FileRow>, entries: Seq<EntryModel>) -> ColumnModel {
    ColumnModel::Flat {
        data_type: DataTypeModel::Utf8,
        cells: rows.map_values(
            |row: FileRow| CellModel::Text(metrics_text(row_metrics(row, entries))),
        ),
    }
}

fn readable_metrics_array<'a>(rows: &Vec<FileRow<'a>>, schema: &Schema) -> (column: Result<Column, ConnectorError>)
    ensures
        column is Ok,
        column->Ok_0.model() == metrics_column(rows@, schema.entries()),
{
    let ghost texts = rows@.map_values(
        |row: FileRow| CellModel::Text(metrics_text(row_metrics(row, schema.entries()))),
    );
    let mut cells = new_cells();
    let mut i: usize = 0;
    assert(texts.take(0) =~= Seq::<CellModel>::empty());
    while i < rows.len()
        invariant
            i <= rows.len(),
            texts == rows@.map_values(
                |row: FileRow| CellModel::Text(metrics_text(row_metrics(row, schema.entries()))),
            ),
            cell_models(cells@) == texts.take(i as int),
        decreases rows.len() - i,
    {
        match readable_metrics_json(&rows[i], schema) {
            Ok(json) => push_cell(&mut cells, Cell::Text(json)),
            Err(error) => return Err(error),
        }
        assert(texts.take(i + 1) =~= texts.take(i as int).push(texts[i as int]));
        i += 1;
    }
    assert(texts.take(i as int) =~= texts);
    Ok(Column::Flat { data_type: DataType::Utf8, cells })
}

// ---------------------------------------------------------------------------
// The relations
// ---------------------------------------------------------------------------

/// The partition tuples of a list of rows.
pub open spec fn partition_tuples<'a>(rows: Seq<FileRow<'a>>) -> Seq<Seq<(Seq<char>, &'a Option<Literal>)>> {
    rows.map_values(|row: FileRow<'a>| crate::keyed::named_model(row.partition@))
}

/// The lower or upper bounds of a list of rows.
pub open spec fn bounds_of<'a>(rows: Seq<FileRow<'a>>, lower: bool) -> Seq<Seq<(i32, &'a Datum)>> {
    rows.map_values(
        |row: FileRow<'a>|
            if lower {
                row.lower_bounds@
            } else {
                row.upper_bounds@
            },
    )
}

fn partition_column<'a>(data_type: &DataType, rows: &Vec<FileRow<'a>>) -> (column: Result<Column, ConnectorError>)
    ensures
        column_result(column) == partition_struct(data_type.model(), partition_tuples(rows@)),
{
    let mut tuples: Vec<&Vec<(String, &'a Option<Literal>)>> = Vec::new();
    let mut i: usize = 0;
    while i < rows.len()
        invariant
            i <= rows.len(),
            tuples@.len() == i,
            forall|k: int| 0 <= k < i ==> (#[trigger] tuples@[k])@ == rows@[k].partition@,
        decreases rows.len() - i,
    {
        tuples.push(&rows[i].partition);
        i += 1;
    }
    assert(tuple_models(tuples@) =~= partition_tuples(rows@));
    partition_struct_array(data_type, &tuples)
}

fn bounds_column<'a>(data_type: &DataType, rows: &Vec<FileRow<'a>>, lower: bool) -> (column: Result<Column, ConnectorError>)
    ensures
        column_result(column) == bounds_struct(data_type.model(), bounds_of(rows@, lower)),
{
    let mut bounds: Vec<&Vec<(i32, &'a Datum)>> = Vec::new();
    let mut i: usize = 0;
    while i < rows.len()
        invariant
            i <= rows.len(),
            bounds@.len() == i,
            forall|k: int|
                0 <= k < i ==> (#[trigger] bounds@[k])@ == if lower {
                    rows@[k].lower_bounds@
                } else {
                    rows@[k].upper_bounds@
                },
        decreases rows.len() - i,
    {
        if lower {
            bounds.push(&rows[i].lower_bounds);
        } else {
            bounds.push(&rows[i].upper_bounds);
        }
        i += 1;
    }
    assert(bound_models(bounds@) =~= bounds_of(rows@, lower));
    bounds_struct_array(data_type, &bounds)
}

/// The column of one field of `$files`.
pub open spec fn files_column(field: CarrierModel, rows: Seq<FileRow>, entries: Seq<EntryModel>) -> Result<ColumnModel, ConnectorError> {
    if field.name == "partition"@ {
        partition_struct(field.data_type, partition_tuples(rows))
    } else if field.name == "lower_bounds"@ {
        bounds_struct(field.data_type, bounds_of(rows, true))
    } else if field.name == "upper_bounds"@ {
        bounds_struct(field.data_type, bounds_of(rows, false))
    } else if field.name == "readable_metrics"@ {
        Ok(metrics_column(rows, entries))
    } else if in_files(field.name) {
        plain_column(field, rows)
    } else {
        Err(ConnectorError::Internal(InternalFault::UnknownRelationColumn))
    }
}

/// The column of one field of the `data_file` row of `$entries`.
pub open spec fn data_file_column(field: CarrierModel, rows: Seq<FileRow>) -> Result<ColumnModel, ConnectorError> {
    if field.name == "partition"@ {
        partition_struct(field.data_type, partition_tuples(rows))
    } else if in_data_file(field.name) {
        plain_column(field, rows)
    } else {
        Err(ConnectorError::Internal(InternalFault::UnknownRelationColumn))
    }
}

/// The columns of the first `n` fields of the `data_file` row of `$entries`.
pub open spec fn data_file_children(fields: Seq<CarrierModel>, rows: Seq<FileRow>, n: nat) -> Result<Seq<ColumnModel>, ConnectorError>
    decreases n,
{
    if n == 0 || n > fields.len() {
        Ok(seq![])
    } else {
        match data_file_children(fields, rows, (n - 1) as nat) {
            Err(error) => Err(error),
            Ok(before) => match data_file_column(fields[n - 1], rows) {
                Err(error) => Err(error),
                Ok(column) => Ok(before.push(column)),
            },
        }
    }
}

/// The `data_file` column of `$entries`: the facts of the file, nested rather than flattened.
pub open spec fn data_file_struct(data_type: DataTypeModel, rows: Seq<FileRow>) -> Result<ColumnModel, ConnectorError> {
    match data_type {
        DataTypeModel::Struct(fields) => match data_file_children(fields, rows, fields.len()) {
            Err(error) => Err(error),
            Ok(children) => row_of(fields, children, rows.len()),
        },
        _ => Err(ConnectorError::Internal(InternalFault::DataFileRowNotStruct)),
    }
}

/// The column of one field of `$entries`.
pub open spec fn entries_column(field: CarrierModel, rows: Seq<FileRow>, entries: Seq<EntryModel>) -> Result<ColumnModel, ConnectorError> {
    if field.name == "data_file"@ {
        data_file_struct(field.data_type, rows)
    } else if field.name == "readable_metrics"@ {
        Ok(metrics_column(rows, entries))
    } else if in_entries(field.name) {
        plain_column(field, rows)
    } else {
        Err(ConnectorError::Internal(InternalFault::UnknownRelationColumn))
    }
}

proof fn lemma_data_file_children_error(fields: Seq<CarrierModel>, rows: Seq<FileRow>, n: nat)
    requires
        n <= fields.len(),
        data_file_children(fields, rows, n) is Err,
    ensures
        data_file_children(fields, rows, fields.len()) == data_file_children(fields, rows, n),
    decreases fields.len() - n,
{
    if n < fields.len() {
        lemma_data_file_children_error(fields, rows, n + 1);
    }
}

/// Build the `data_file` column of `$entries`.
pub fn entries_data_file_array<'a>(row_type: &DataType, rows: &Vec<FileRow<'a>>) -> (column: Result<Column, ConnectorError>)
    ensures
        column_result(column) == data_file_struct(row_type.model(), rows@),
{
    match row_type {
        DataType::Struct(fields) => {
            proof {
                lemma_struct_model(*fields);
            }
            let ghost models = field_models(fields@);
            let mut children = new_columns();
            let mut i: usize = 0;
            while i < fields.len()
                invariant
                    i <= fields.len(),
                    models == field_models(fields@),
                    row_type.model() == DataTypeModel::Struct(models),
                    data_file_children(models, rows@, i as nat) == Ok::<Seq<ColumnModel>, ConnectorError>(
                        column_models(children@),
                    ),
                decreases fields.len() - i,
            {
                let field = &fields[i];
                assert(models[i as int] == field.model());
                let child = if is_named(&field.name, "partition") {
                    partition_column(&field.data_type, rows)
                } else if is_in_data_file(&field.name) {
                    plain_field_column(field, rows)
                } else {
                    Err(ConnectorError::Internal(InternalFault::UnknownRelationColumn))
                };
                match child {
                    Ok(column) => push_column(&mut children, column),
                    Err(error) => {
                        proof {
                            lemma_data_file_children_error(models, rows@, (i + 1) as nat);
                        }
                        return Err(error);
                    },
                }
                i += 1;
            }
            row_column(fields, children, rows.len())
        },
        _ => Err(ConnectorError::Internal(InternalFault::DataFileRowNotStruct)),
    }
}

/// Materialize the columns of `$files`, in schema order.
pub fn files_columns<'a>(schema: &Vec<Field>, rows: &Vec<FileRow<'a>>, table_schema: &Schema) -> (columns: Result<Vec<Column>, ConnectorError>)
    ensures
        match columns {
            Ok(columns) => columns@.len() == schema@.len() && forall|i: int|
                0 <= i < schema@.len() ==> Ok::<ColumnModel, ConnectorError>(
                    (#[trigger] columns@[i]).model(),
                ) == files_column(schema@[i].model(), rows@, table_schema.entries()),
            Err(error) => exists|i: int|
                0 <= i < schema@.len() && files_column(
                    (#[trigger] schema@[i]).model(),
                    rows@,
                    table_schema.entries(),
                ) == Err::<ColumnModel, ConnectorError>(error) && forall|k: int|
                    0 <= k < i ==> files_column(
                        (#[trigger] schema@[k]).model(),
                        rows@,
                        table_schema.entries(),
                    ) is Ok,
        },
{
    let mut columns: Vec<Column> = Vec::new();
    let mut i: usize = 0;
    while i < schema.len()
        invariant
            i <= schema.len(),
            columns@.len() == i,
            forall|k: int|
                0 <= k < i ==> Ok::<ColumnModel, ConnectorError>((#[trigger] columns@[k]).model())
                    == files_column(schema@[k].model(), rows@, table_schema.entries()),
            forall|k: int|
                0 <= k < i ==> files_column(
                    (#[trigger] schema@[k]).model(),
                    rows@,
                    table_schema.entries(),
                ) is Ok,
        decreases schema.len() - i,
    {
        let field = &schema[i];
        let column = if is_named(&field.name, "partition") {
            partition_column(&field.data_type, rows)
        } else if is_named(&field.name, "lower_bounds") {
            bounds_column(&field.data_type, rows, true)
        } else if is_named(&field.name, "upper_bounds") {
            bounds_column(&field.data_type, rows, false)
        } else if is_named(&field.name, "readable_metrics") {
            readable_metrics_array(rows, table_schema)
        } else if is_in_files(&field.name) {
            plain_field_column(field, rows)
        } else {
            Err(ConnectorError::Internal(InternalFault::UnknownRelationColumn))
        };
        assert(column_result(column) == files_column(
            schema@[i as int].model(),
            rows@,
            table_schema.entries(),
        ));
        match column {
            Ok(column) => columns.push(column),
            Err(error) => return Err(error),
        }
        i += 1;
    }
    Ok(columns)
}

/// Materialize the columns of `$entries`, in schema order.
pub fn entries_columns<'a>(schema: &Vec<Field>, rows: &Vec<FileRow<'a>>, table_schema: &Schema) -> (columns: Result<Vec<Column>, ConnectorError>)
    ensures
        match columns {
            Ok(columns) => columns@.len() == schema@.len() && forall|i: int|
                0 <= i < schema@.len() ==> Ok::<ColumnModel, ConnectorError>(
                    (#[trigger] columns@[i]).model(),
                ) == entries_column(schema@[i].model(), rows@, table_schema.entries()),
            Err(error) => exists|i: int|
                0 <= i < schema@.len() && entries_column(
                    (#[trigger] schema@[i]).model(),
                    rows@,
                    table_schema.entries(),
                ) == Err::<ColumnModel, ConnectorError>(error) && forall|k: int|
                    0 <= k < i ==> entries_column(
                        (#[trigger] schema@[k]).model(),
                        rows@,
                        table_schema.entries(),
                    ) is Ok,
        },
{
    let mut columns: Vec<Column> = Vec::new();
    let mut i: usize = 0;
    while i < schema.len()
        invariant
            i <= schema.len(),
            columns@.len() == i,
            forall|k: int|
                0 <= k < i ==> Ok::<ColumnModel, ConnectorError>((#[trigger] columns@[k]).model())
                    == entries_column(schema@[k].model(), rows@, table_schema.entries()),
            forall|k: int|
                0 <= k < i ==> entries_column(
                    (#[trigger] schema@[k]).model(),
                    rows@,
                    table_schema.entries(),
                ) is Ok,
        decreases schema.len() - i,
    {
        let field = &schema[i];
        let column = if is_named(&field.name, "data_file") {
            entries_data_file_array(&field.data_type, rows)
        } else if is_named(&field.name, "readable_metrics") {
            readable_metrics_array(rows, table_schema)
        } else if is_in_entries(&field.name) {
            plain_field_column(field, rows)
        } else {
            Err(ConnectorError::Internal(InternalFault::UnknownRelationColumn))
        };
        assert(column_result(column) == entries_column(
            schema@[i as int].model(),
            rows@,
            table_schema.entries(),
        ));
        match column {
            Ok(column) => columns.push(column),
            Err(error) => return Err(error),
        }
        i += 1;
    }
    Ok(columns)
}

} // verus!
