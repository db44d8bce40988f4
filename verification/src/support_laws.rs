//! What the smaller parts keep: names and texts, carriers of variants, reserved columns, write
//! activations, and the content of the system relations as a whole.

use vstd::prelude::*;

use crate::carrier::{CarrierModel, DataTypeModel};
use crate::codec::{outer_fault, FieldPath, IcebergConnectorReadCodec, OuterModel};
use crate::column::ColumnModel;
use crate::column_handle::{ColumnHandleModel, IcebergColumnHandle};
use crate::error::ConnectorError;
use crate::frozen_laws::law_names_find_the_first_column;
use crate::metadata_column::IcebergMetadataColumn;
use crate::page_source::declared_records;
use crate::partitions_view::aggregated;
use crate::relation_columns::{plain_column, plain_columns};
use crate::relation_laws::law_every_field_has_its_column;
use crate::row_laws::{law_a_snapshot_lists_every_manifest, law_every_live_entry_has_a_row, states_an_entry};
use crate::row_positions::{window_after, ReaderPageSourceWithRowPositions};
use crate::schema_binding::{both_valid, metadata_bound, retained_bytes, IcebergBoundColumn, SourceModel};
use crate::snapshot_relations::{public_refs, reported, snapshot_rows, RefRow, SnapshotRow};
use crate::split_source::{partition_text, spec_facts, IcebergReadFile, SplitPolicy};
use crate::system_page_source::is_snapshot_row;
use crate::system_provider::{
    is_content_of, is_files_content, is_manifest_listing, is_partitions_content, is_projection, is_snapshot_listing,
    TableFacts,
};
use crate::system_rows::{is_row_of, EntryStatusRule, FileRow, ManifestEntry, ManifestStatus, TrinoManifestFile};
use crate::system_schema::IcebergSystemTableType;
use crate::text::{natural_value, parsed_i32, parsed_u64, same_ignoring_case};
use crate::partition::PartitionSpec;
use crate::types::{
    child_path, field_pre_order, fields_pre_order, schema_entries, type_pre_order, EntryModel, FieldModel,
    PrimitiveType, Schema, TypeModel,
};
use crate::variant::{canonical_row, last_named, little_endian, variant_struct, VariantRow};
use crate::write_activation::{cohorts_of, reservation_fault, ConnectorWriteActivationSource};

verus! {

// ---------------------------------------------------------------------------
// Carriers of relations and variants
// ---------------------------------------------------------------------------

/// A relation is this codec's where it names the codec's catalog and its incarnation; else the first
/// of the two that differs is reported.
pub proof fn law_relations_name_their_own_catalog(codec: IcebergConnectorReadCodec, relation: OuterModel)
    ensures
        outer_fault(codec, relation) is None <==> relation.catalog_name == codec.owner@
            && relation.instance_incarnation == codec.incarnation@,
        outer_fault(codec, relation) == Some(FieldPath::CatalogName) <==> relation.catalog_name != codec.owner@,
        outer_fault(codec, relation) == Some(FieldPath::InstanceIncarnation) <==> relation.catalog_name == codec.owner@
            && relation.instance_incarnation != codec.incarnation@,
{
}

/// A length is written lowest byte first, and the four bytes give it back.
pub proof fn law_lengths_are_written_lowest_byte_first(value: u32)
    ensures
        ({
            let bytes = little_endian(value);
            &&& bytes.len() == 4
            &&& value == bytes[0] + 256 * bytes[1] + 65536 * bytes[2] + 16777216 * bytes[3]
        }),
{
}

/// A variant that is there is written as its length, its metadata and its value, in this order; one
/// that is null is none, and one that lacks a part or is too long is refused.
pub proof fn law_variants_are_written_with_both_parts(row: VariantRow)
    ensures
        row.is_null ==> canonical_row(row) == Ok::<Option<Seq<u8>>, ConnectorError>(None),
        !row.is_null ==> (canonical_row(row) is Ok <==> row.metadata is Some && row.value is Some && (row.metadata->0)@.len()
            + (row.value->0)@.len() <= u32::MAX),
        !row.is_null && canonical_row(row) is Ok ==> canonical_row(row)->Ok_0 is Some && ({
            let bytes = canonical_row(row)->Ok_0->0;
            let metadata = (row.metadata->0)@;
            let value = (row.value->0)@;
            &&& bytes.len() == 4 + metadata.len() + value.len()
            &&& bytes.subrange(4, 4 + metadata.len() as int) == metadata
            &&& bytes.subrange(4 + metadata.len() as int, bytes.len() as int) == value
            &&& bytes[0] + 256 * bytes[1] + 65536 * bytes[2] + 16777216 * bytes[3] == metadata.len() + value.len()
        }),
{
    if !row.is_null && canonical_row(row) is Ok {
        let metadata = (row.metadata->0)@;
        let value = (row.value->0)@;
        let bytes = canonical_row(row)->Ok_0->0;
        assert(bytes.subrange(4, 4 + metadata.len() as int) =~= metadata);
        assert(bytes.subrange(4 + metadata.len() as int, bytes.len() as int) =~= value);
    }
}

/// A carrier of variants has metadata, a value or a typed value, and nothing else; the metadata and the
/// value are bytes.
pub proof fn law_variant_carriers_have_their_parts(fields: Seq<CarrierModel>)
    ensures
        variant_struct(DataTypeModel::Struct(fields)) <==> (forall|i: int|
            0 <= i < fields.len() ==> is_variant_part(#[trigger] fields[i])) && (exists|i: int|
            0 <= i < fields.len() && (#[trigger] fields[i]).name == "metadata"@) && (exists|i: int|
            0 <= i < fields.len() && ((#[trigger] fields[i]).name == "value"@ || fields[i].name == "typed_value"@)),
{
    if exists|i: int|
        0 <= i < fields.len() && ((#[trigger] fields[i]).name == "value"@ || fields[i].name == "typed_value"@) {
        let i = choose|i: int|
            0 <= i < fields.len() && ((#[trigger] fields[i]).name == "value"@ || fields[i].name == "typed_value"@);
        assert(fields[i].name == "value"@ || fields[i].name == "typed_value"@);
    }
}

/// Whether a field is one of a variant's parts.
pub open spec fn is_variant_part(field: CarrierModel) -> bool {
    ||| field.name == "typed_value"@
    ||| (field.name == "metadata"@ || field.name == "value"@) && (field.data_type is Binary
        || field.data_type is LargeBinary || field.data_type is BinaryView)
}

/// A name finds the last field that has it.
pub proof fn law_names_find_the_last_field(fields: Seq<CarrierModel>, name: Seq<char>)
    ensures
        match last_named(fields, name) {
            Some(at) => at < fields.len() && fields[at as int].name == name && forall|later: int|
                at < later < fields.len() ==> (#[trigger] fields[later]).name != name,
            None => forall|i: int| 0 <= i < fields.len() ==> (#[trigger] fields[i]).name != name,
        },
    decreases fields.len(),
{
    if fields.len() > 0 && fields.last().name != name {
        let shorter = fields.drop_last();
        law_names_find_the_last_field(shorter, name);
        assert forall|i: int| 0 <= i < shorter.len() implies #[trigger] fields[i] == shorter[i] by {
        }
    }
}

// ---------------------------------------------------------------------------
// Write activations
// ---------------------------------------------------------------------------

/// A single preparation is one cohort, under the primary id; the routes of a mutation are cohorts of
/// their own, in their order.
pub proof fn law_activations_have_a_cohort_for_each_route(source: ConnectorWriteActivationSource, primary: u128)
    ensures
        source is Prepared ==> cohorts_of(source, primary).len() == 1 && cohorts_of(source, primary)[0].cohort_id == primary
            && cohorts_of(source, primary)[0].preparation == source->Prepared_0,
        source is RowMutation ==> cohorts_of(source, primary) == source->RowMutation_0@,
{
}

/// An operation can be reserved again with the digest that it was reserved with, and a new one while
/// there is room.
pub proof fn law_operations_are_reserved_once(
    reserved: Map<u128, [u8; 32]>,
    limit: nat,
    operation_id: u128,
    digest: Seq<u8>,
)
    ensures
        reserved.contains_key(operation_id) ==> (reservation_fault(reserved, limit, operation_id, digest) is None
            <==> reserved[operation_id]@ == digest),
        !reserved.contains_key(operation_id) ==> (reservation_fault(reserved, limit, operation_id, digest) is None
            <==> reserved.len() < limit),
{
}

// ---------------------------------------------------------------------------
// Row positions and reserved columns
// ---------------------------------------------------------------------------

/// A batch moves the window on to one past its last position and leaves its start where the first batch
/// put it. It is refused where a position is missing or it goes back.
pub proof fn law_batches_move_the_window_on(window: ReaderPageSourceWithRowPositions, positions: Seq<Option<u64>>)
    requires
        positions.len() > 0,
    ensures
        ({
            let first = positions[0]->0;
            let last = positions[positions.len() - 1]->0;
            &&& window_after(window, positions) is Ok <==> (forall|i: int|
                0 <= i < positions.len() ==> (#[trigger] positions[i]) is Some) && first <= last && (
            window.end_row_position is Some ==> window.end_row_position->0 <= first)
            &&& window_after(window, positions) is Ok ==> ({
                let after = window_after(window, positions)->Ok_0;
                &&& after.end_row_position is Some
                &&& last < u64::MAX ==> after.end_row_position->0 == last + 1
                &&& last == u64::MAX ==> after.end_row_position->0 == u64::MAX
                &&& window.start_row_position is None ==> after.start_row_position == Some(first)
                &&& window.start_row_position is Some ==> after.start_row_position == window.start_row_position
            })
        }),
        window_after(window, Seq::empty()) == Ok::<ReaderPageSourceWithRowPositions, ConnectorError>(window),
{
}

/// Each reserved column has its own id and name.
pub proof fn law_reserved_columns_have_their_ids_and_names()
    ensures
        IcebergMetadataColumn::Path.spec_field_id() == i32::MAX - 1,
        IcebergMetadataColumn::RowPosition.spec_field_id() == i32::MAX - 2,
        IcebergMetadataColumn::IsDeleted.spec_field_id() == i32::MAX - 3,
        IcebergMetadataColumn::Partition.spec_field_id() == i32::MAX - 100,
        IcebergMetadataColumn::FileModifiedTime.spec_field_id() == i32::MAX - 101,
        IcebergMetadataColumn::RowId.spec_field_id() == i32::MAX - 107,
        IcebergMetadataColumn::LastUpdatedSequenceNumber.spec_field_id() == i32::MAX - 108,
        IcebergMetadataColumn::Path.spec_name() == "$path"@,
        IcebergMetadataColumn::Partition.spec_name() == "$partition"@,
        IcebergMetadataColumn::FileModifiedTime.spec_name() == "$file_modified_time"@,
        IcebergMetadataColumn::RowId.spec_name() == "$row_id"@,
        IcebergMetadataColumn::LastUpdatedSequenceNumber.spec_name() == "$last_updated_sequence_number"@,
        IcebergMetadataColumn::RowPosition.spec_name() == "_pos"@,
        IcebergMetadataColumn::IsDeleted.spec_name() == "_deleted"@,
{
}

/// A reserved column is bound under its own name, as a whole and as its own type, and keeps its id; the
/// time of a file and the deletion of a row are never bound.
pub proof fn law_reserved_columns_are_bound_as_they_are(handle: ColumnHandleModel, metadata: IcebergMetadataColumn)
    ensures
        metadata_bound(handle, metadata) is Ok <==> handle.base_name == metadata.spec_name() && handle.field_id_path.len()
            == 0 && (((metadata is Path || metadata is Partition) && handle.field_type == TypeModel::Primitive(
            PrimitiveType::String,
        )) || ((metadata is RowId || metadata is LastUpdatedSequenceNumber || metadata is RowPosition)
            && handle.field_type == TypeModel::Primitive(PrimitiveType::Long))),
        metadata_bound(handle, metadata) is Ok ==> ({
            let bound = metadata_bound(handle, metadata)->Ok_0;
            &&& bound.handle == handle
            &&& bound.source == SourceModel::Metadata(metadata)
            &&& bound.target == bound.base_target
            &&& bound.target.name == metadata.spec_name()
            &&& bound.target.field_id == Some(metadata.spec_field_id())
            &&& bound.target.nullable == handle.nullable
            &&& bound.target.initial_default is None && !bound.target.json && bound.target.metadata.len() == 0
            &&& metadata is Path || metadata is Partition ==> bound.target.data_type is Utf8
            &&& !(metadata is Path || metadata is Partition) ==> bound.target.data_type is Int64
        }),
{
}

/// A row of two levels is valid where it is valid in both; a level without flags is valid throughout.
pub proof fn law_rows_are_valid_in_every_level(parent: Option<Seq<bool>>, child: Option<Seq<bool>>, row: int)
    requires
        parent is Some && child is Some ==> parent->0.len() == child->0.len(),
        parent is Some ==> 0 <= row < parent->0.len(),
        child is Some ==> 0 <= row < child->0.len(),
    ensures
        both_valid(parent, child) is None <==> parent is None && child is None,
        both_valid(parent, child) is Some ==> (both_valid(parent, child)->0[row] <==> (parent is Some ==> parent->0[row])
            && (child is Some ==> child->0[row])),
{
}

/// One more bound column retains its own size, its texts, and four bytes for each id of its path.
pub proof fn law_bound_columns_retain_what_they_hold(
    columns: Seq<IcebergBoundColumn>,
    text_bytes: Seq<usize>,
    column_size: nat,
    n: nat,
)
    requires
        n < columns.len(),
    ensures
        retained_bytes(columns, text_bytes, column_size, 0) == 0,
        retained_bytes(columns, text_bytes, column_size, n + 1) - retained_bytes(columns, text_bytes, column_size, n)
            == column_size + text_bytes[n as int] + columns[n as int].handle.field_id_path@.len() * 4,
{
}

/// A count of records stands as it is, and one below zero as the unsigned count of the same bits.
pub proof fn law_record_counts_stand_as_they_are(count: i64)
    ensures
        count >= 0 ==> declared_records(count) == count,
        count < 0 ==> declared_records(count) == count + u64::MAX + 1,
{
}

/// The partition values of a file are written where its spec is known and has as many fields as the file
/// has values.
pub proof fn law_partition_values_are_written_under_their_spec(policy: SplitPolicy, spec_id: i32, file: IcebergReadFile)
    ensures
        partition_text(policy, spec_id, file) is Ok <==> spec_facts(policy.specs@, spec_id) is Some
            && file.partition_values is Some && file.partition_values->0.arity == spec_facts(
            policy.specs@,
            spec_id,
        )->0.field_count && file.partition_values->0.json is Some,
        partition_text(policy, spec_id, file) is Ok ==> partition_text(policy, spec_id, file)->Ok_0 == (
        file.partition_values->0.json->0)@,
{
}

// ---------------------------------------------------------------------------
// Texts
// ---------------------------------------------------------------------------

/// A text of digits has the value that its digits give, each ten times what follows it; a text with
/// anything else in it has none.
pub proof fn law_digits_add_up(text: Seq<char>, next: char)
    ensures
        natural_value(Seq::empty()) is None,
        text.len() > 0 && natural_value(text) is Some && '0' <= next <= '9' ==> natural_value(text.push(next)) is Some
            && natural_value(text.push(next))->0 == natural_value(text)->0 * 10 + (next as int - '0' as int),
        !('0' <= next <= '9') ==> natural_value(text.push(next)) is None,
        text.len() > 0 && natural_value(text) is None ==> natural_value(text.push(next)) is None,
        '0' <= next <= '9' ==> natural_value(seq![next]) == Some((next as int - '0' as int) as nat),
{
    assert(text.push(next).drop_last() =~= text);
    assert(seq![next].drop_last() =~= Seq::<char>::empty());
}

/// A number may carry a plus sign, and one with a sign a minus; either way it has to fit its type.
pub proof fn law_numbers_may_carry_a_sign(digits: Seq<char>)
    requires
        digits.len() > 0,
        digits[0] != '+',
        digits[0] != '-',
    ensures
        parsed_u64(seq!['+'] + digits) == parsed_u64(digits),
        parsed_i32(seq!['+'] + digits) == parsed_i32(digits),
        parsed_u64(digits) is Some <==> natural_value(digits) is Some && natural_value(digits)->0 <= u64::MAX,
        parsed_u64(digits) is Some ==> parsed_u64(digits)->0 == natural_value(digits)->0,
        parsed_i32(digits) is Some <==> natural_value(digits) is Some && natural_value(digits)->0 <= i32::MAX,
        parsed_i32(digits) is Some ==> parsed_i32(digits)->0 == natural_value(digits)->0,
        parsed_i32(seq!['-'] + digits) is Some <==> natural_value(digits) is Some && natural_value(digits)->0
            <= 0x8000_0000,
        parsed_i32(seq!['-'] + digits) is Some ==> parsed_i32(seq!['-'] + digits)->0 == -(natural_value(digits)->0),
{
    assert((seq!['+'] + digits).skip(1) =~= digits);
    assert((seq!['-'] + digits).skip(1) =~= digits);
}

/// Names are the same but for case where they are as long and each letter is the same, or the one is the
/// capital of the other.
pub proof fn law_names_are_the_same_but_for_case(left: Seq<char>, right: Seq<char>)
    ensures
        same_ignoring_case(left, right) <==> left.len() == right.len() && forall|i: int|
            0 <= i < left.len() ==> (#[trigger] left[i] == right[i] || ('A' <= left[i] <= 'Z' && right[i] as int
                == left[i] as int + 32) || ('A' <= right[i] <= 'Z' && left[i] as int == right[i] as int + 32)),
        same_ignoring_case(left, left),
{
}

// ---------------------------------------------------------------------------
// Fields at any depth
// ---------------------------------------------------------------------------

/// A field is listed before what is nested in it, under its own name below that of its parent.
pub proof fn law_fields_are_listed_before_what_they_hold(path: Seq<char>, field: FieldModel)
    ensures
        ({
            let entries = field_pre_order(path, field);
            &&& entries.len() > 0
            &&& entries[0].field == field
            &&& path.len() == 0 ==> entries[0].path == field.name
            &&& path.len() > 0 ==> entries[0].path == path + seq!['.'] + field.name
            &&& entries.skip(1) == type_pre_order(entries[0].path, field.field_type)
        }),
{
    let own = child_path(path, field.name);
    let entries = field_pre_order(path, field);
    assert(entries.skip(1) =~= type_pre_order(own, field.field_type));
    assert(path.push('.') + field.name =~= path + seq!['.'] + field.name);
}

/// Whether a list has another one in it, as a whole.
pub open spec fn has_part(list: Seq<EntryModel>, part: Seq<EntryModel>) -> bool {
    exists|at: int|
        0 <= at && at + part.len() <= list.len() && #[trigger] list.subrange(at, at + part.len() as int) == part
}

/// Every field of a list is listed with all that is nested in it, and so are the item of a list and the
/// key and the value of a map; a primitive holds nothing.
pub proof fn law_every_field_is_listed(path: Seq<char>, fields: Seq<FieldModel>, n: nat, i: int)
    requires
        n <= fields.len(),
        0 <= i < n,
    ensures
        has_part(fields_pre_order(path, fields, n), field_pre_order(path, fields[i])),
    decreases n,
{
    let before = fields_pre_order(path, fields, (n - 1) as nat);
    let last = field_pre_order(path, fields[n - 1]);
    let all = fields_pre_order(path, fields, n);
    assert(all == before + last);
    if i == n - 1 {
        assert(all.subrange(before.len() as int, before.len() + last.len() as int) =~= last);
    } else {
        law_every_field_is_listed(path, fields, (n - 1) as nat, i);
        let part = field_pre_order(path, fields[i]);
        let at = choose|at: int|
            0 <= at && at + part.len() <= before.len() && #[trigger] before.subrange(at, at + part.len() as int) == part;
        assert(all.subrange(at, at + part.len() as int) =~= before.subrange(at, at + part.len() as int));
    }
}

/// What a type holds: its fields, its item, or its key and then its value.
pub proof fn law_types_hold_their_parts(path: Seq<char>, value: TypeModel, i: int)
    ensures
        value is Primitive ==> type_pre_order(path, value).len() == 0,
        value is Struct && 0 <= i < value->Struct_0.len() ==> has_part(
            type_pre_order(path, value),
            field_pre_order(path, value->Struct_0[i]),
        ),
        value is List ==> type_pre_order(path, value) == field_pre_order(path, *value->List_0),
        value is MapOf ==> type_pre_order(path, value) == field_pre_order(path, *value->MapOf_0) + field_pre_order(
            path,
            *value->MapOf_1,
        ),
{
    if value is Struct && 0 <= i < value->Struct_0.len() {
        law_every_field_is_listed(path, value->Struct_0, value->Struct_0.len(), i);
    }
}

/// The fields of a table are listed under their own names.
pub proof fn law_top_level_fields_are_listed_under_their_names(fields: Seq<FieldModel>, i: int)
    requires
        0 <= i < fields.len(),
    ensures
        exists|e: int|
            0 <= e < schema_entries(fields).len() && (#[trigger] schema_entries(fields)[e]).field == fields[i]
                && schema_entries(fields)[e].path == fields[i].name,
{
    let entries = schema_entries(fields);
    let part = field_pre_order(Seq::empty(), fields[i]);
    law_every_field_is_listed(Seq::empty(), fields, fields.len(), i);
    let at = choose|at: int|
        0 <= at && at + part.len() <= entries.len() && #[trigger] entries.subrange(at, at + part.len() as int) == part;
    assert(entries.subrange(at, at + part.len() as int)[0] == entries[at]);
    assert(entries[at].field == fields[i]);
}

// ---------------------------------------------------------------------------
// The content of the system relations
// ---------------------------------------------------------------------------

/// A scan takes, for each of its columns, the column of that name.
pub proof fn law_scans_take_their_columns_by_name(
    schema: Seq<CarrierModel>,
    columns: Seq<IcebergColumnHandle>,
    projection: Seq<usize>,
    i: int,
)
    requires
        is_projection(schema, columns, projection),
        0 <= i < columns.len(),
    ensures
        projection.len() == columns.len(),
        projection[i] < schema.len(),
        schema[projection[i] as int].name == columns[i].base_name@,
{
    law_names_find_the_first_column(schema, columns[i].base_name@, 0);
}

/// `$snapshots` has as many rows as there are snapshots that mark no fence, and `$refs` as many as there
/// are public refs.
pub proof fn law_relations_count_their_rows(
    relation: IcebergSystemTableType,
    facts: TableFacts,
    schema: Seq<CarrierModel>,
    columns: Seq<ColumnModel>,
    rows: nat,
)
    requires
        is_content_of(relation, facts, schema, Ok((columns, rows))),
        schema.len() > 0,
    ensures
        columns.len() == schema.len(),
        relation is Snapshots ==> rows == facts.snapshots@.filter(reported()).len(),
        relation is Refs ==> rows == public_refs(facts.refs, facts.publication_fence_ref@, facts.refs@.len()).len(),
        relation is History ==> rows == facts.history@.len(),
        relation is Manifests ==> rows == facts.manifests@.len(),
        relation !is Files,
{
    if relation is Snapshots {
        let listed = choose|listed: Seq<SnapshotRow>|
            snapshot_rows(listed) == facts.snapshots@.filter(reported()) && Ok::<Seq<ColumnModel>, ConnectorError>(columns)
                == #[trigger] plain_columns(schema, listed, schema.len());
        law_every_field_has_its_column(schema, listed, schema.len());
        assert(plain_column(schema[0], listed) == Ok::<ColumnModel, ConnectorError>(columns[0]));
        assert(snapshot_rows(listed).len() == listed.len());
    } else if relation is Refs {
        let public = public_refs(facts.refs, facts.publication_fence_ref@, facts.refs@.len());
        let listed = choose|listed: Seq<RefRow>|
            {
                &&& listed.len() == public.len()
                &&& forall|i: int| 0 <= i < listed.len() ==> (#[trigger] listed[i]).reference == public[i].1
                &&& Ok::<Seq<ColumnModel>, ConnectorError>(columns) == #[trigger] plain_columns(
                    schema,
                    listed,
                    schema.len(),
                )
            };
        law_every_field_has_its_column(schema, listed, schema.len());
        assert(plain_column(schema[0], listed) == Ok::<ColumnModel, ConnectorError>(columns[0]));
    } else if relation is History {
        let listed = facts.history@.map_values(
            |entry: crate::snapshot_relations::HistoryEntry|
                crate::snapshot_relations::history_row(entry, facts.snapshots@, facts.current_snapshot_id),
        );
        law_every_field_has_its_column(schema, listed, schema.len());
    }
}

/// Whether a list of rows has one for an entry of a manifest.
pub open spec fn has_row_of(rows: Seq<FileRow>, facts: TableFacts, m: int, e: int) -> bool {
    exists|k: int|
        0 <= k < rows.len() && is_snapshot_row(#[trigger] rows[k], facts.manifests@, facts.loaded@, facts.specs@, (m, e))
}

/// `$entries` has a row for every entry of every manifest, deleted or not.
pub proof fn law_entries_keeps_deleted_entries(
    facts: TableFacts,
    schema: Seq<CarrierModel>,
    columns: Seq<ColumnModel>,
    rows: nat,
    m: int,
    e: int,
)
    requires
        is_content_of(IcebergSystemTableType::Entries, facts, schema, Ok((columns, rows))),
        0 <= m < facts.loaded@.len(),
        0 <= e < facts.loaded@[m]@.len(),
    ensures
        exists|listed: Seq<FileRow>| listed.len() == rows && #[trigger] has_row_of(listed, facts, m, e),
{
    let listed = choose|listed: Seq<FileRow>|
        {
            &&& #[trigger] is_snapshot_listing(listed, facts, EntryStatusRule::KeepDeleted)
            &&& rows == listed.len()
        };
    law_a_snapshot_lists_every_manifest(listed, facts, EntryStatusRule::KeepDeleted, m, e);
    assert(has_row_of(listed, facts, m, e));
}

/// Whether every row is that of a live entry of the snapshot.
pub open spec fn are_live(rows: Seq<FileRow>, facts: TableFacts) -> bool {
    forall|k: int| 0 <= k < rows.len() ==> states_an_entry(#[trigger] rows[k], facts, EntryStatusRule::SkipDeleted)
}

/// `$partitions` adds up the live files of the snapshot, and has a row for each of their partitions.
pub proof fn law_partitions_leaves_deleted_files_out(
    facts: TableFacts,
    schema: Seq<CarrierModel>,
    columns: Seq<ColumnModel>,
    rows: nat,
)
    requires
        is_partitions_content(facts, schema, Ok((columns, rows))),
    ensures
        exists|listed: Seq<FileRow>| #[trigger] are_live(listed, facts) && rows == aggregated(listed, listed.len()).len(),
{
    let listed = choose|listed: Seq<FileRow>|
        {
            &&& #[trigger] is_snapshot_listing(listed, facts, EntryStatusRule::SkipDeleted)
            &&& rows == aggregated(listed, listed.len()).len()
        };
    law_a_snapshot_lists_every_manifest(listed, facts, EntryStatusRule::SkipDeleted, 0, 0);
    assert(are_live(listed, facts));
}

/// Whether a list of rows has one for each live entry of a manifest, and no other row.
pub open spec fn are_live_rows_of(
    rows: Seq<FileRow>,
    manifest: TrinoManifestFile,
    entries: Seq<ManifestEntry>,
    spec: PartitionSpec,
) -> bool {
    forall|k: int| 0 <= k < rows.len() ==> is_live_row_of(#[trigger] rows[k], manifest, entries, spec)
}

/// Whether a row is that of a live entry of a manifest.
pub open spec fn is_live_row_of(
    row: FileRow,
    manifest: TrinoManifestFile,
    entries: Seq<ManifestEntry>,
    spec: PartitionSpec,
) -> bool {
    exists|p: int|
        0 <= p < entries.len() && entries[p].status != ManifestStatus::Deleted && is_row_of(
            row,
            manifest,
            #[trigger] entries[p],
            p,
            spec,
        )
}

/// `$files` has rows for the live entries of its manifest alone.
pub proof fn law_files_leaves_deleted_files_out(
    manifest: TrinoManifestFile,
    entries: Seq<ManifestEntry>,
    spec: PartitionSpec,
    table_schema: Schema,
    schema: Seq<CarrierModel>,
    columns: Seq<ColumnModel>,
    rows: nat,
)
    requires
        is_files_content(manifest, entries, spec, table_schema, schema, Ok((columns, rows))),
    ensures
        exists|listed: Seq<FileRow>|
            listed.len() == rows && #[trigger] are_live_rows_of(listed, manifest, entries, spec),
{
    let listed = choose|listed: Seq<FileRow>|
        {
            &&& #[trigger] is_manifest_listing(listed, manifest, entries, spec, EntryStatusRule::SkipDeleted)
            &&& rows == listed.len()
        };
    law_every_live_entry_has_a_row(listed, manifest, entries, spec, EntryStatusRule::SkipDeleted, 0);
    assert forall|k: int| 0 <= k < listed.len() implies is_live_row_of(#[trigger] listed[k], manifest, entries, spec) by {
    }
    assert(are_live_rows_of(listed, manifest, entries, spec));
}

} // verus!
