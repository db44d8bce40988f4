//! What a read carries out: the steps of its pages, the slots of its deletes, and the relation that a
//! scan is given.

use vstd::prelude::*;

use crate::adaptation::{adaptation_of, IcebergPhysicalAdaptation};
use crate::binding_laws::law_fields_are_found_by_their_ids;
use crate::carrier::{field_models, CarrierModel, Field};
use crate::column::{column_models, ColumnModel};
use crate::column_handle::IcebergColumnHandle;
use crate::delete_closure::{GatedClosure, IcebergDeleteFileSpec};
use crate::delete_filter::{masks_fit, FilterVerdict, LoadedEqualityDelete, PageMasks};
use crate::delete_manager::{are_claims_of, artifact_map, ArtifactKeyModel, DeleteManager, LoadSlot, SideClaims};
use crate::error::{ConnectorError, InvalidRequest};
use crate::frozen_laws::{law_ids_find_an_entry, law_names_find_the_first_column};
use crate::keyed::get;
use crate::metadata_column::SplitFactsModel;
use crate::page_source::{facts_of_split, is_page_plan, FileBatch};
use crate::page_source_provider::disabled_cache;
use crate::partition::PartitionField;
use crate::partition_only::is_constant_of;
use crate::rewrite_position_page_source::is_vector_spec;
use crate::schema_binding::{ids_of, indexed, BoundModel, ColumnStep, IcebergSchemaBinding};
use crate::snapshot_relations::partition_primitive;
use crate::split::{IcebergDeleteFile, IcebergDeleteFileContent, IcebergFileFormat, IcebergSplit};
use crate::split_source::{file_stream, projected_ids, Enumeration};
use crate::system_provider::{is_columns_of, is_relation_of, SystemRelation};
use crate::types::EntryModel;
use crate::value::Literal;

verus! {

// ---------------------------------------------------------------------------
// Pages
// ---------------------------------------------------------------------------

/// A page has one step for each bound column, at its place, as long as the page: a physical column is
/// the one of the field that it was bound to, a constant its partition value, and a default and a null
/// are what they were bound as.
pub proof fn law_pages_have_a_step_for_each_column(
    binding: IcebergSchemaBinding,
    batch: FileBatch,
    facts: SplitFactsModel,
    steps: Vec<ColumnStep>,
    i: int,
)
    requires
        is_page_plan(binding, batch, facts, Ok(steps)),
        batch.fields@.len() <= usize::MAX,
        0 <= i < binding.columns@.len(),
    ensures
        steps@.len() == binding.columns@.len(),
        ({
            let column = binding.columns@[i];
            let step = steps@[i];
            &&& step.planned_rows(batch.rows as nat) == batch.rows
            &&& column.source is Physical ==> step is Physical && step->index < batch.fields@.len()
                && batch.fields@[step->index as int].field_id == Some(column.source->base_field_id) && adaptation_of(
                batch.fields@[step->index as int].model().data_type,
                column.base_target.model().data_type,
            ) == Ok::<IcebergPhysicalAdaptation, ConnectorError>(step->adaptation) && step->path@.len()
                == column.source->dereference@.len()
            &&& column.source is IdentityPartitionConstant ==> step is Constant && *step->value
                == *column.source->IdentityPartitionConstant_0 && step->Constant_rows == batch.rows
            &&& column.source is InitialDefault ==> step is InitialDefault && step->InitialDefault_rows == batch.rows
            &&& column.source is TypedNull ==> step is TypedNull && step->TypedNull_rows == batch.rows
            &&& column.source is Metadata ==> step is Metadata
        }),
{
    let ids = ids_of(batch.fields@);
    law_fields_are_found_by_their_ids(ids);
    let index = indexed(ids, ids.len())->Ok_0;
    let column = binding.columns@[i];
    assert(steps@[i].planned_rows(batch.rows as nat) == batch.rows);
    if column.source is Physical {
        let id = column.source->base_field_id;
        assert(get(index, id) is Some);
        let at = choose|at: int| 0 <= at < ids.len() && ids[at] == Some(id);
        assert(ids[at] is Some);
        assert(get(index, id) == Some(at as usize));
        assert(field_models(batch.fields@)[at] == batch.fields@[at].model());
    }
}

/// A page of a split states the facts of that split.
pub proof fn law_pages_state_the_facts_of_their_split(split: IcebergSplit)
    ensures
        facts_of_split(split).path == split.path@,
        facts_of_split(split).partition_data_json == split.partition_data_json@,
        facts_of_split(split).file_first_row_id == split.file_first_row_id,
        facts_of_split(split).data_sequence_number == split.data_sequence_number,
{
}

/// A constant of a page without a file is the partition value that its column was bound to.
pub proof fn law_constants_are_the_bound_values(constant: (Field, &Option<Literal>), bound: BoundModel)
    requires
        is_constant_of(constant, bound),
    ensures
        constant.0.model() == bound.target,
        bound.source is IdentityPartitionConstant,
        *bound.source->IdentityPartitionConstant_0 == *constant.1,
{
}

/// A query that uses no external cache neither reads nor fills one.
pub proof fn law_a_disabled_cache_does_nothing()
    ensures
        ({
            let options = disabled_cache();
            &&& !options.enable_scan_datacache && !options.enable_populate_datacache
            &&& !options.enable_datacache_async_populate_mode && !options.enable_datacache_io_adaptor
            &&& !options.enable_cache_select
            &&& options.datacache_evict_probability == 100
            &&& options.datacache_priority == 0 && options.datacache_ttl_seconds == 0
            &&& options.datacache_sharing_work_period is None
        }),
{
}

// ---------------------------------------------------------------------------
// Splits to come
// ---------------------------------------------------------------------------

/// An enumeration is over where neither a split nor a file is left, and then nothing is to come; while
/// splits are pending, the next to come is the first of them.
pub proof fn law_an_enumeration_is_over_with_its_last_split(state: Enumeration)
    ensures
        state.is_over() <==> state.pending.len() == 0 && state.next_file >= state.files.len(),
        state.is_over() ==> state.to_come().0.len() == 0 && state.to_come().1 is None,
        state.pending.len() > 0 ==> state.to_come().0.len() > 0 && state.to_come().0[0] == state.pending[0],
        state.to_come().0.len() == state.pending.len() + file_stream(state.policy, state.files, state.next_file).0.len(),
        state.to_come().1 == file_stream(state.policy, state.files, state.next_file).1,
{
}

// ---------------------------------------------------------------------------
// Slots of deletes
// ---------------------------------------------------------------------------

/// The claims of a side are slots of its own deletes: one for each position delete of the data file, and
/// one for each delete of each group, in its partition.
pub proof fn law_claims_are_slots_of_their_deletes(
    loads: Seq<LoadSlot>,
    claims: SideClaims,
    split: IcebergSplit,
    scope: (i32, Seq<char>),
    closure: GatedClosure,
    i: int,
    g: int,
    d: int,
)
    requires
        are_claims_of(loads, claims, split, scope, closure),
    ensures
        claims.positions@.len() == closure.position_files@.len(),
        claims.equality@.len() == closure.equality_groups@.len(),
        0 <= i < claims.positions@.len() ==> claims.positions@[i] < loads.len()
            && loads[claims.positions@[i] as int].key.model() == (ArtifactKeyModel::Position {
            delete_path: closure.position_files@[i].path@,
            content_offset: closure.position_files@[i].content_offset,
            content_size_in_bytes: closure.position_files@[i].content_size_in_bytes,
            data_file_path: split.path@,
        }),
        0 <= g < claims.equality@.len() ==> claims.equality@[g]@.len() == closure.equality_groups@[g].deletes@.len(),
        0 <= g < claims.equality@.len() && 0 <= d < claims.equality@[g]@.len() ==> claims.equality@[g]@[d] < loads.len()
            && loads[claims.equality@[g]@[d] as int].key.model() == (ArtifactKeyModel::Equality {
            scope,
            equality_field_ids: closure.equality_groups@[g].key@,
            delete_path: closure.equality_groups@[g].deletes@[d].path@,
        }),
{
    if 0 <= i < claims.positions@.len() {
        assert(claims.positions@[i] < loads.len());
    }
    if 0 <= g < claims.equality@.len() && 0 <= d < claims.equality@[g]@.len() {
        assert(claims.equality@[g]@[d] < loads.len());
    }
}

/// A manager that extends another has every slot of it, at its place and as it was.
pub proof fn law_slots_stay_where_they_are(after: DeleteManager, before: DeleteManager, i: int)
    requires
        after.extends(before),
        0 <= i < before.loads@.len(),
    ensures
        i < after.loads@.len(),
        after.loads@[i] == before.loads@[i],
{
}

/// Whether no later artifact has the path of the one at a place.
pub open spec fn is_last_of_its_path(artifacts: Seq<LoadedEqualityDelete>, i: int) -> bool {
    0 <= i < artifacts.len() && forall|later: int|
        i < later < artifacts.len() ==> (#[trigger] artifacts[later]).path@ != artifacts[i].path@
}

/// An index knows of each path what its last artifact says, and of no other path.
pub proof fn law_indexes_know_every_artifact(artifacts: Seq<LoadedEqualityDelete>, i: int, path: Seq<char>)
    ensures
        is_last_of_its_path(artifacts, i) ==> artifact_map(artifacts).contains_key(artifacts[i].path@) && artifact_map(
            artifacts,
        )[artifacts[i].path@] == (artifacts[i].data_sequence_number, artifacts[i].key_set),
        artifact_map(artifacts).contains_key(path) ==> exists|k: int|
            0 <= k < artifacts.len() && (#[trigger] artifacts[k]).path@ == path,
    decreases artifacts.len(),
{
    if artifacts.len() > 0 {
        let shorter = artifacts.drop_last();
        let n = artifacts.len() - 1;
        law_indexes_know_every_artifact(shorter, i, path);
        if is_last_of_its_path(artifacts, i) && i < n {
            assert(artifacts[n].path@ != artifacts[i].path@);
            assert(is_last_of_its_path(shorter, i)) by {
                assert forall|later: int| i < later < shorter.len() implies (#[trigger] shorter[later]).path@
                    != shorter[i].path@ by {
                    assert(artifacts[later].path@ != artifacts[i].path@);
                }
            }
        }
        if path == artifacts.last().path@ {
            assert(artifacts[n].path@ == path);
        } else if artifact_map(artifacts).contains_key(path) {
            let k = choose|k: int| 0 <= k < shorter.len() && (#[trigger] shorter[k]).path@ == path;
            assert(artifacts[k].path@ == path);
        }
    }
}

/// The content range of a deletion vector is read as the split states it.
pub proof fn law_vectors_are_read_as_they_are_stated(spec: IcebergDeleteFileSpec, delete: IcebergDeleteFile)
    requires
        is_vector_spec(spec, delete),
    ensures
        spec.path@ == delete.path@,
        spec.file_format == IcebergFileFormat::Puffin,
        spec.file_content == IcebergDeleteFileContent::PositionDeletes,
        spec.content_offset == delete.content_offset,
        spec.content_size_in_bytes == delete.content_size_in_bytes,
        delete.file_size_in_bytes >= 0 ==> spec.length is Some && spec.length->0 == delete.file_size_in_bytes,
        delete.file_size_in_bytes < 0 ==> spec.length is None,
        delete.referenced_data_file is None <==> spec.referenced_data_file is None,
        delete.referenced_data_file is Some ==> (spec.referenced_data_file->0)@ == (delete.referenced_data_file->0)@,
{
}

/// The masks of a page are one for each equality delete that its verdict judges by: those that are
/// applied, and those that were applied before where rows are selected.
pub proof fn law_there_is_a_mask_for_each_equality_delete(verdict: FilterVerdict, masks: PageMasks)
    ensures
        verdict is ExcludeDeleted ==> (masks_fit(verdict, masks) <==> masks.applied@.len()
            == verdict->ExcludeDeleted_0.equality@.len()),
        verdict is EqualityMatchOnly ==> (masks_fit(verdict, masks) <==> masks.applied@.len()
            == verdict->EqualityMatchOnly_0.equality@.len()),
        verdict is SelectRemovedRows && verdict->selected is WholeFile ==> (masks_fit(verdict, masks)
            <==> masks.previously@.len() == verdict->previously_applied.equality@.len()),
        verdict is SelectRemovedRows && verdict->selected is NamedBy ==> (masks_fit(verdict, masks)
            <==> masks.previously@.len() == verdict->previously_applied.equality@.len() && masks.applied@.len()
            == verdict->selected->NamedBy_0.equality@.len()),
{
}

// ---------------------------------------------------------------------------
// Relations
// ---------------------------------------------------------------------------

/// A partition field of a manifest has the type of its result, where its source is a field of the table.
pub proof fn law_partition_fields_have_the_type_of_their_result(entries: Seq<EntryModel>, field: PartitionField)
    ensures
        partition_primitive(entries, field) is Ok <==> field.result_type is Primitive && exists|e: int|
            0 <= e < entries.len() && (#[trigger] entries[e]).field.id == field.source_id,
        partition_primitive(entries, field) is Ok ==> partition_primitive(entries, field)->Ok_0
            == field.result_type->Primitive_0,
{
    law_ids_find_an_entry(entries, field.source_id);
}

/// A scan projects the ids of its columns, in their order, where it takes none but whole columns.
pub proof fn law_whole_columns_are_projected_by_their_ids(columns: Seq<IcebergColumnHandle>, i: int)
    ensures
        projected_ids(columns) is Some <==> forall|k: int|
            0 <= k < columns.len() ==> (#[trigger] columns[k]).field_id_path@.len() == 0,
        projected_ids(columns) is Some ==> projected_ids(columns)->0.len() == columns.len(),
        projected_ids(columns) is Some && 0 <= i < columns.len() ==> projected_ids(columns)->0[i]
            == columns[i].base_field_id,
{
}

/// A scan that names an unknown column is refused for it; another is given a relation whose columns it
/// takes by their names.
pub proof fn law_relations_have_every_named_column(
    schema: Seq<CarrierModel>,
    columns: Seq<IcebergColumnHandle>,
    content: spec_fn(
        Seq<CarrierModel>,
        Result<(Seq<ColumnModel>, nat), ConnectorError>,
    ) -> bool,
    relation: Result<SystemRelation, ConnectorError>,
    i: int,
)
    requires
        is_relation_of(Ok(schema), columns, content, relation),
        0 <= i < columns.len(),
    ensures
        relation is Ok ==> exists|at: int| 0 <= at < schema.len() && (#[trigger] schema[at]).name == columns[i].base_name@,
        (forall|at: int| 0 <= at < schema.len() ==> (#[trigger] schema[at]).name != columns[i].base_name@) ==> relation
            == Err::<SystemRelation, ConnectorError>(ConnectorError::Invalid(InvalidRequest::UnknownSystemColumn)),
        relation is Ok ==> ({
            let held = relation->Ok_0;
            &&& field_models(held.schema@) == schema
            &&& held.projection@.len() == columns.len()
            &&& held.projection@[i] < schema.len()
            &&& schema[held.projection@[i] as int].name == columns[i].base_name@
            &&& content(schema, Ok((column_models(held.columns@), held.row_count as nat)))
        }),
{
    law_names_find_the_first_column(schema, columns[i].base_name@, 0);
    if relation is Ok {
        assert(schema[relation->Ok_0.projection@[i] as int].name == columns[i].base_name@);
    }
}

/// The columns of a relation are what their rule makes of each field, and the first field that the rule
/// refuses refuses the relation.
pub proof fn law_relations_are_made_field_by_field(
    rule: spec_fn(CarrierModel) -> Result<ColumnModel, ConnectorError>,
    schema: Seq<CarrierModel>,
    columns: Result<Seq<ColumnModel>, ConnectorError>,
    i: int,
)
    requires
        is_columns_of(rule, schema, columns),
    ensures
        columns is Ok ==> columns->Ok_0.len() == schema.len(),
        columns is Ok && 0 <= i < schema.len() ==> rule(schema[i]) == Ok::<ColumnModel, ConnectorError>(
            columns->Ok_0[i],
        ),
        columns is Err ==> exists|k: int|
            0 <= k < schema.len() && rule(#[trigger] schema[k]) == Err::<ColumnModel, ConnectorError>(
                columns->Err_0,
            ),
        (forall|k: int| 0 <= k < schema.len() ==> rule(#[trigger] schema[k]) is Ok) ==> columns is Ok,
{
}

} // verus!
