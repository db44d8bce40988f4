//! What binding decides for the columns of a scan.

use vstd::prelude::*;

use crate::adaptation::{adaptation_of, law_same_shape_is_reflexive, same_shape, IcebergPhysicalAdaptation, IcebergTypePromotion};
use crate::carrier::{CarrierModel, DataTypeModel, TimeUnit};
use crate::column::CellModel;
use crate::column_handle::IcebergColumnHandle;
use crate::error::ConnectorError;
use crate::keyed::{ascending, get, law_get_after_put, law_put_keeps_ascending, put};
use crate::metadata_column::{metadata_values, position_values, IcebergMetadataColumn};
use crate::partition::PartitionSpec;
use crate::schema_binding::{annotated_field, annotated_fields, binding_facts, child_place, dereferenced, identity_values, indexed, is_physical_projection, needs_positions, request_column, IcebergBoundColumn, IcebergColumnSource, IcebergSchemaBindingRequest, SourceModel};
use crate::types::{DefaultModel, FieldModel, Schema, TypeModel};
use crate::value::Literal;
use crate::variant::variant_struct;

verus! {

// ---------------------------------------------------------------------------
// Lists by id
// ---------------------------------------------------------------------------

/// What a list holds under an id is an entry of it, and where it holds nothing there is none. In a
/// list whose ids ascend every entry is found.
pub proof fn law_entries_are_found_by_their_id<V>(list: Seq<(i32, V)>, id: i32)
    ensures
        match get(list, id) {
            Some(value) => exists|k: int| 0 <= k < list.len() && #[trigger] list[k] == (id, value),
            None => forall|k: int| 0 <= k < list.len() ==> (#[trigger] list[k]).0 != id,
        },
        (forall|i: int, j: int|
            0 <= i < j < list.len() ==> (#[trigger] list[i]).0 < (#[trigger] list[j]).0)
            ==> forall|k: int| 0 <= k < list.len() ==> get(list, (#[trigger] list[k]).0) == Some(list[k].1),
    decreases list.len(),
{
    if list.len() > 0 {
        let shorter = list.drop_last();
        let n = list.len() - 1;
        law_entries_are_found_by_their_id(shorter, id);
        if list.last().0 == id {
            assert(list[n] == (id, list.last().1));
        } else {
            match get(shorter, id) {
                Some(value) => {
                    let k = choose|k: int| 0 <= k < shorter.len() && #[trigger] shorter[k] == (id, value);
                    assert(list[k] == (id, value));
                },
                None => {
                    assert forall|k: int| 0 <= k < list.len() implies (#[trigger] list[k]).0 != id by {
                        if k < n {
                            assert(shorter[k].0 != id);
                        }
                    }
                },
            }
        }
        if forall|i: int, j: int|
            0 <= i < j < list.len() ==> (#[trigger] list[i]).0 < (#[trigger] list[j]).0 {
            assert forall|i: int, j: int| 0 <= i < j < shorter.len() implies (#[trigger] shorter[i]).0 < (
            #[trigger] shorter[j]).0 by {
                assert(list[i].0 < list[j].0);
            }
            assert forall|k: int| 0 <= k < list.len() implies get(list, (#[trigger] list[k]).0) == Some(
                list[k].1,
            ) by {
                if k < n {
                    assert(list[k].0 < list[n].0);
                    assert(shorter[k] == list[k]);
                }
            }
        }
    }
}

/// A `put` adds its entry in place of any other of its id, and changes nothing else.
pub proof fn law_put_replaces_one_entry<V>(list: Seq<(i32, V)>, id: i32, value: V, entry: (i32, V))
    requires
        forall|i: int, j: int|
            0 <= i < j < list.len() ==> (#[trigger] list[i]).0 < (#[trigger] list[j]).0,
    ensures
        put(list, id, value).contains(entry) <==> (entry.0 == id && entry.1 == value) || (entry.0 != id
            && list.contains(entry)),
{
    let after = put(list, id, value);
    law_get_after_put(list, id, value, entry.0);
    law_put_keeps_ascending(list, id, value);
    law_entries_are_found_by_their_id(after, entry.0);
    law_entries_are_found_by_their_id(list, entry.0);
    if after.contains(entry) {
        let k = choose|k: int| 0 <= k < after.len() && after[k] == entry;
        assert(get(after, after[k].0) == Some(after[k].1));
        if entry.0 != id {
            let m = choose|m: int| 0 <= m < list.len() && #[trigger] list[m] == (entry.0, entry.1);
            assert(list[m] == entry);
        }
    }
    if entry.0 == id && entry.1 == value {
        let k = choose|k: int| 0 <= k < after.len() && #[trigger] after[k] == (id, value);
        assert(after[k] == entry);
    }
    if entry.0 != id && list.contains(entry) {
        let m = choose|m: int| 0 <= m < list.len() && list[m] == entry;
        assert(get(list, list[m].0) == Some(list[m].1));
        let k = choose|k: int| 0 <= k < after.len() && #[trigger] after[k] == (entry.0, entry.1);
        assert(after[k] == entry);
    }
}

// ---------------------------------------------------------------------------
// Facts of a file
// ---------------------------------------------------------------------------

/// Whether a field of a spec is an identity field of a top-level column.
pub open spec fn gives_a_constant(spec: PartitionSpec, schema: Schema, i: int) -> bool {
    &&& 0 <= i < spec.fields@.len()
    &&& spec.fields@[i].identity
    &&& exists|k: int|
        0 <= k < schema.fields@.len() && (#[trigger] schema.fields@[k]).id == spec.fields@[i].source_id
}

/// The identity partition values of a file are positional: the value of a field of the spec is the
/// one at its own place in the partition tuple. Nothing else is a constant. Of two identity fields
/// of one source the later one counts.
pub proof fn law_identity_values_are_positional<'a>(
    spec: PartitionSpec,
    values: &'a Vec<Option<Literal>>,
    schema: Schema,
    i: int,
)
    requires
        values@.len() == spec.fields@.len(),
    ensures
        ({
            let found = identity_values(spec, values, schema, spec.fields@.len());
            &&& gives_a_constant(spec, schema, i) && (forall|later: int|
                i < later < spec.fields@.len() && gives_a_constant(spec, schema, later) ==> (
                #[trigger] spec.fields@[later]).source_id != spec.fields@[i].source_id) ==> get(
                found,
                spec.fields@[i].source_id,
            ) == Some(&values@[i]) && found.contains((spec.fields@[i].source_id, &values@[i]))
            &&& forall|k: int|
                0 <= k < found.len() ==> exists|f: int| #[trigger]
                    gives_a_constant(spec, schema, f) && (#[trigger] found[k]).0
                        == spec.fields@[f].source_id && found[k].1 == &values@[f]
        }),
{
    let found = identity_values(spec, values, schema, spec.fields@.len());
    lemma_identity_values(spec, values, schema, spec.fields@.len());
    law_entries_are_found_by_their_id(found, spec.fields@[i].source_id);
}

proof fn lemma_identity_values<'a>(spec: PartitionSpec, values: &'a Vec<Option<Literal>>, schema: Schema, n: nat)
    requires
        values@.len() == spec.fields@.len(),
        n <= spec.fields@.len(),
    ensures
        ({
            let found = identity_values(spec, values, schema, n);
            &&& ascending(found)
            &&& forall|i: int|
                0 <= i < n && #[trigger] gives_a_constant(spec, schema, i) && (forall|later: int|
                    i < later < n && gives_a_constant(spec, schema, later) ==> (
                    #[trigger] spec.fields@[later]).source_id != spec.fields@[i].source_id) ==> get(
                    found,
                    spec.fields@[i].source_id,
                ) == Some(&values@[i])
            &&& forall|k: int|
                0 <= k < found.len() ==> exists|f: int| #[trigger]
                    gives_a_constant(spec, schema, f) && f < n && (#[trigger] found[k]).0
                        == spec.fields@[f].source_id && found[k].1 == &values@[f]
        }),
    decreases n,
{
    if n > 0 {
        lemma_identity_values(spec, values, schema, (n - 1) as nat);
        let before = identity_values(spec, values, schema, (n - 1) as nat);
        let found = identity_values(spec, values, schema, n);
        let own = n - 1;
        let id = spec.fields@[own].source_id;
        if gives_a_constant(spec, schema, own) {
            let value = &values@[own];
            assert(found == put(before, id, value));
            law_put_keeps_ascending(before, id, value);
            assert forall|i: int|
                0 <= i < n && #[trigger] gives_a_constant(spec, schema, i) && (forall|later: int|
                    i < later < n && gives_a_constant(spec, schema, later) ==> (
                    #[trigger] spec.fields@[later]).source_id != spec.fields@[i].source_id) implies get(
                found,
                spec.fields@[i].source_id,
            ) == Some(&values@[i]) by {
                law_get_after_put(before, id, value, spec.fields@[i].source_id);
                if i < own {
                    assert(spec.fields@[own].source_id != spec.fields@[i].source_id);
                }
            }
            assert forall|k: int| 0 <= k < found.len() implies exists|f: int| #[trigger]
                gives_a_constant(spec, schema, f) && f < n && (#[trigger] found[k]).0
                    == spec.fields@[f].source_id && found[k].1 == &values@[f] by {
                let entry = found[k];
                assert(found.contains(entry));
                law_put_replaces_one_entry(before, id, value, entry);
                if entry.0 == id {
                    assert(gives_a_constant(spec, schema, own));
                } else {
                    let m = choose|m: int| 0 <= m < before.len() && before[m] == entry;
                    assert(before[m] == entry);
                    let f = choose|f: int| #[trigger]
                        gives_a_constant(spec, schema, f) && f < n - 1 && before[m].0
                            == spec.fields@[f].source_id && before[m].1 == &values@[f];
                    assert(gives_a_constant(spec, schema, f));
                }
            }
        } else {
            assert(found == before);
            assert forall|i: int|
                0 <= i < n && #[trigger] gives_a_constant(spec, schema, i) && (forall|later: int|
                    i < later < n && gives_a_constant(spec, schema, later) ==> (
                    #[trigger] spec.fields@[later]).source_id != spec.fields@[i].source_id) implies get(
                found,
                spec.fields@[i].source_id,
            ) == Some(&values@[i]) by {
                assert(i < own);
            }
        }
    }
}

/// A field id is found in a file exactly where some top-level field has it, at the place of that
/// field. A file that has an id twice is refused.
pub proof fn law_fields_are_found_by_their_ids(ids: Seq<Option<i32>>)
    requires
        ids.len() <= usize::MAX,
    ensures
        indexed(ids, ids.len()) is Ok <==> forall|i: int, j: int|
            0 <= i < j < ids.len() && (#[trigger] ids[i]) is Some ==> ids[i] != #[trigger] ids[j],
        indexed(ids, ids.len()) is Ok ==> {
            let index = indexed(ids, ids.len())->Ok_0;
            &&& forall|i: int|
                0 <= i < ids.len() && (#[trigger] ids[i]) is Some ==> get(index, ids[i]->0) == Some(i as usize)
            &&& forall|id: i32| (#[trigger] get(index, id)) is Some ==> ids.contains(Some(id))
        },
{
    lemma_indexed(ids, ids.len());
}

proof fn lemma_indexed(ids: Seq<Option<i32>>, n: nat)
    requires
        n <= ids.len() <= usize::MAX,
    ensures
        indexed(ids, n) is Ok <==> forall|i: int, j: int|
            0 <= i < j < n && (#[trigger] ids[i]) is Some ==> ids[i] != #[trigger] ids[j],
        indexed(ids, n) is Ok ==> {
            let index = indexed(ids, n)->Ok_0;
            &&& ascending(index)
            &&& forall|i: int|
                0 <= i < n && (#[trigger] ids[i]) is Some ==> get(index, ids[i]->0) == Some(i as usize)
            &&& forall|id: i32|
                (#[trigger] get(index, id)) is Some ==> exists|i: int| 0 <= i < n && ids[i] == Some(id)
        },
    decreases n,
{
    if n > 0 {
        lemma_indexed(ids, (n - 1) as nat);
        let own = ids[n - 1];
        match indexed(ids, (n - 1) as nat) {
            Ok(before) => match own {
                Some(id) => {
                    if get(before, id) is Some {
                        let i = choose|i: int| 0 <= i < n - 1 && ids[i] == Some(id);
                        assert(ids[i] == ids[n - 1]);
                    } else {
                        let at = (n - 1) as usize;
                        law_put_keeps_ascending(before, id, at);
                        let index = put(before, id, at);
                        assert forall|i: int, j: int| 0 <= i < j < n && (#[trigger] ids[i]) is Some implies ids[i]
                            != #[trigger] ids[j] by {
                            if j == n - 1 && ids[i] == ids[j] {
                                assert(get(before, ids[i]->0) is Some);
                            }
                        }
                        assert forall|i: int| 0 <= i < n && (#[trigger] ids[i]) is Some implies get(
                            index,
                            ids[i]->0,
                        ) == Some(i as usize) by {
                            law_get_after_put(before, id, at, ids[i]->0);
                            if i < n - 1 {
                                assert(get(before, ids[i]->0) == Some(i as usize));
                            }
                        }
                        assert forall|other: i32| (#[trigger] get(index, other)) is Some implies exists|i: int|
                            0 <= i < n && ids[i] == Some(other) by {
                            law_get_after_put(before, id, at, other);
                            if other == id {
                                assert(ids[n - 1] == Some(other));
                            } else {
                                assert(get(before, other) is Some);
                                let i = choose|i: int| 0 <= i < n - 1 && ids[i] == Some(other);
                                assert(ids[i] == Some(other));
                            }
                        }
                    }
                },
                None => {
                    assert forall|other: i32| (#[trigger] get(before, other)) is Some implies exists|i: int|
                        0 <= i < n && ids[i] == Some(other) by {
                        let i = choose|i: int| 0 <= i < n - 1 && ids[i] == Some(other);
                        assert(ids[i] == Some(other));
                    }
                },
            },
            Err(_) => {
                let (i, j) = choose|i: int, j: int|
                    0 <= i < j < n - 1 && (#[trigger] ids[i]) is Some && ids[i] == #[trigger] ids[j];
                assert(ids[i] == ids[j]);
            },
        }
    } else {
        assert(indexed(ids, 0)->Ok_0 == Seq::<(i32, usize)>::empty());
    }
}

proof fn lemma_child_place(children: Seq<CarrierModel>, id: i32, from: nat)
    ensures
        match child_place(children, id, from) {
            Some(at) => from <= at < children.len() && children[at as int].field_id == Some(id)
                && forall|k: int| from <= k < at ==> (#[trigger] children[k]).field_id != Some(id),
            None => forall|k: int| from <= k < children.len() ==> (#[trigger] children[k]).field_id != Some(id),
        },
    decreases children.len() - from,
{
    if from < children.len() && children[from as int].field_id != Some(id) {
        lemma_child_place(children, id, from + 1);
    }
}

/// A path leads one struct deeper with each of its ids: to the first child that has the id, at the
/// place that is reported. An empty path leads nowhere.
pub proof fn law_paths_lead_to_the_field_of_their_id(base: CarrierModel, path: Seq<i32>, n: nat)
    requires
        0 < n <= path.len(),
        dereferenced(base, path, n) is Ok,
    ensures
        dereferenced(base, path, 0) == Ok::<(CarrierModel, Seq<usize>), ConnectorError>(
            (base, Seq::empty()),
        ),
        dereferenced(base, path, (n - 1) as nat) is Ok,
        ({
            let (parent, above) = dereferenced(base, path, (n - 1) as nat)->Ok_0;
            let (child, places) = dereferenced(base, path, n)->Ok_0;
            &&& parent.data_type is Struct
            &&& places.len() == above.len() + 1
            &&& forall|k: int| 0 <= k < above.len() ==> places[k] == above[k]
            &&& child.field_id == Some(path[n - 1])
            &&& parent.data_type->Struct_0.len() <= usize::MAX ==> places.last()
                < parent.data_type->Struct_0.len() && child == parent.data_type->Struct_0[places.last() as int]
                && forall|k: int|
                0 <= k < places.last() ==> (#[trigger] parent.data_type->Struct_0[k]).field_id != Some(
                    path[n - 1],
                )
        }),
{
    let (parent, above) = dereferenced(base, path, (n - 1) as nat)->Ok_0;
    if let DataTypeModel::Struct(children) = parent.data_type {
        lemma_child_place(children, path[n - 1], 0);
    }
}

/// An annotated field keeps its name, its nullability and its tags. It has the id of its table
/// field, and its initial default where it states one.
pub proof fn law_annotation_adds_id_and_default(field: CarrierModel, frozen: FieldModel)
    requires
        annotated_field(field, frozen) is Ok,
    ensures
        ({
            let after = annotated_field(field, frozen)->Ok_0;
            &&& after.name == field.name
            &&& after.nullable == field.nullable
            &&& after.field_id == Some(frozen.id)
            &&& after.json == field.json
            &&& after.metadata == field.metadata
            &&& frozen.initial_default matches DefaultModel::Json(text) ==> after.initial_default == Some(text)
            &&& frozen.initial_default is Absent ==> after.initial_default == field.initial_default
        }),
{
}

proof fn lemma_annotated_fields(children: Seq<CarrierModel>, fields: Seq<FieldModel>, n: nat)
    requires
        n <= children.len(),
        children.len() == fields.len(),
        annotated_fields(children, fields, n) is Ok,
    ensures
        annotated_fields(children, fields, n)->Ok_0.len() == n,
        forall|i: int|
            0 <= i < n ==> annotated_field(children[i], fields[i]) == Ok::<CarrierModel, ConnectorError>(
                #[trigger] annotated_fields(children, fields, n)->Ok_0[i],
            ),
    decreases n,
{
    if n > 0 {
        lemma_annotated_fields(children, fields, (n - 1) as nat);
        let before = annotated_fields(children, fields, (n - 1) as nat)->Ok_0;
        let after = annotated_fields(children, fields, n)->Ok_0;
        assert forall|i: int| 0 <= i < n implies annotated_field(children[i], fields[i]) == Ok::<
            CarrierModel,
            ConnectorError,
        >(#[trigger] after[i]) by {
            if i < n - 1 {
                assert(after[i] == before[i]);
            }
        }
    }
}

/// Fields are annotated place by place: the field at each place has the id of the table field at
/// that place, and its own name and nullability.
pub proof fn law_annotation_is_positional(children: Seq<CarrierModel>, fields: Seq<FieldModel>, i: int)
    requires
        children.len() == fields.len(),
        annotated_fields(children, fields, children.len()) is Ok,
        0 <= i < children.len(),
    ensures
        ({
            let after = annotated_fields(children, fields, children.len())->Ok_0;
            &&& after.len() == children.len()
            &&& after[i].field_id == Some(fields[i].id)
            &&& after[i].name == children[i].name
            &&& after[i].nullable == children[i].nullable
            &&& fields[i].initial_default matches DefaultModel::Json(text) ==> after[i].initial_default
                == Some(text)
        }),
{
    lemma_annotated_fields(children, fields, children.len());
    let after = annotated_fields(children, fields, children.len())->Ok_0;
    assert(annotated_field(children[i], fields[i]) == Ok::<CarrierModel, ConnectorError>(after[i]));
}

/// Annotation reaches into nested types: the children of a struct, the element of a list, and the
/// key and the value of a map get the ids of their own table fields. A type that has no nested
/// field stays as it is.
pub proof fn law_annotation_reaches_nested_fields(field: CarrierModel, frozen: FieldModel)
    requires
        annotated_field(field, frozen) is Ok,
        !variant_struct(field.data_type),
    ensures
        ({
            let after = annotated_field(field, frozen)->Ok_0.data_type;
            match (field.data_type, frozen.field_type) {
                (DataTypeModel::Struct(children), TypeModel::Struct(fields)) => {
                    &&& children.len() == fields.len()
                    &&& after is Struct
                    &&& after->Struct_0.len() == children.len()
                    &&& forall|i: int|
                        0 <= i < children.len() ==> (#[trigger] after->Struct_0[i]).field_id == Some(
                            fields[i].id,
                        ) && after->Struct_0[i].name == children[i].name
                            && after->Struct_0[i].nullable == children[i].nullable
                },
                (DataTypeModel::List(child), TypeModel::List(element)) => {
                    &&& after matches DataTypeModel::List(made)
                    &&& made.field_id == Some(element.id)
                    &&& made.name == child.name
                },
                (DataTypeModel::MapOf(entries, sorted), TypeModel::MapOf(key, held)) => {
                    &&& after matches DataTypeModel::MapOf(made, still)
                    &&& still == sorted
                    &&& made.name == entries.name
                    &&& made.data_type is Struct
                    &&& made.data_type->Struct_0.len() == 2
                    &&& made.data_type->Struct_0[0].field_id == Some(key.id)
                    &&& made.data_type->Struct_0[1].field_id == Some(held.id)
                    &&& entries.data_type is Struct
                    &&& entries.data_type->Struct_0.len() == 2
                    &&& made.data_type->Struct_0[0].name == entries.data_type->Struct_0[0].name
                    &&& made.data_type->Struct_0[1].name == entries.data_type->Struct_0[1].name
                },
                (DataTypeModel::Int64, _) => after == DataTypeModel::Int64,
                (DataTypeModel::Utf8, _) => after == DataTypeModel::Utf8,
                _ => true,
            }
        }),
{
    match (field.data_type, frozen.field_type) {
        (DataTypeModel::Struct(children), TypeModel::Struct(fields)) => {
            assert forall|i: int| 0 <= i < children.len() implies (
            #[trigger] (annotated_field(field, frozen)->Ok_0.data_type)->Struct_0[i]).field_id == Some(
                fields[i].id,
            ) && (annotated_field(field, frozen)->Ok_0.data_type)->Struct_0[i].name == children[i].name && (
            annotated_field(field, frozen)->Ok_0.data_type)->Struct_0[i].nullable == children[i].nullable by {
                law_annotation_is_positional(children, fields, i);
            }
            lemma_annotated_fields(children, fields, children.len());
        },
        (DataTypeModel::List(child), TypeModel::List(element)) => {
            law_annotation_adds_id_and_default(*child, *element);
        },
        (DataTypeModel::MapOf(entries, sorted), TypeModel::MapOf(key, held)) => {
            if let DataTypeModel::Struct(children) = entries.data_type {
                law_annotation_adds_id_and_default(children[0], *key);
                law_annotation_adds_id_and_default(children[1], *held);
            }
        },
        _ => {},
    }
}

/// Annotation is refused for a reason alone: a default that cannot be written, a struct or a map that does
/// not match its carrier, or a nested field that is refused itself.
pub proof fn law_annotation_is_refused_for_a_reason(field: CarrierModel, frozen: FieldModel)
    requires
        annotated_field(field, frozen) is Err,
        frozen.initial_default !is Unencodable,
    ensures
        !variant_struct(field.data_type),
        match (field.data_type, frozen.field_type) {
            (DataTypeModel::Struct(children), TypeModel::Struct(fields)) => children.len() != fields.len()
                || exists|i: int|
                0 <= i < children.len() && annotated_field(#[trigger] children[i], fields[i]) is Err,
            (DataTypeModel::List(child), TypeModel::List(element)) => annotated_field(*child, *element) is Err,
            (DataTypeModel::LargeList(child), TypeModel::List(element)) => annotated_field(*child, *element) is Err,
            (DataTypeModel::FixedSizeList(child, _), TypeModel::List(element)) => annotated_field(
                *child,
                *element,
            ) is Err,
            (DataTypeModel::MapOf(entries, _), TypeModel::MapOf(key, held)) => entries.data_type !is Struct
                || entries.data_type->Struct_0.len() != 2 || annotated_field(
                entries.data_type->Struct_0[0],
                *key,
            ) is Err || annotated_field(entries.data_type->Struct_0[1], *held) is Err,
            _ => false,
        },
{
    if let (DataTypeModel::Struct(children), TypeModel::Struct(fields)) = (field.data_type, frozen.field_type) {
        if children.len() == fields.len() {
            lemma_annotation_refused(children, fields, children.len());
        }
    }
}

proof fn lemma_annotation_refused(children: Seq<CarrierModel>, fields: Seq<FieldModel>, n: nat)
    requires
        n <= children.len() == fields.len(),
        annotated_fields(children, fields, n) is Err,
    ensures
        exists|i: int| 0 <= i < n && annotated_field(#[trigger] children[i], fields[i]) is Err,
    decreases n,
{
    if annotated_fields(children, fields, (n - 1) as nat) is Err {
        lemma_annotation_refused(children, fields, (n - 1) as nat);
        let i = choose|i: int| 0 <= i < n - 1 && annotated_field(#[trigger] children[i], fields[i]) is Err;
        assert(annotated_field(children[i], fields[i]) is Err);
    } else {
        assert(annotated_field(children[n - 1], fields[n - 1]) is Err);
    }
}

// ---------------------------------------------------------------------------
// Where a column comes from
// ---------------------------------------------------------------------------

/// Where the data of a table column comes from, told by the file, the partition tuple and the
/// table themselves. A field of the file with the id of the column wins. A top-level column that
/// the file does not hold is the value of its identity partition field, at the place of that field
/// in the tuple. Then comes a field that the name mapping of a file without ids gives the id. What
/// is left is the default of the target, or a null where the column may be null.
pub proof fn law_columns_come_from_the_file_first<'a>(
    request: IcebergSchemaBindingRequest<'_, 'a>,
    handle: IcebergColumnHandle,
    spec: &PartitionSpec,
    values: &'a Vec<Option<Literal>>,
    p: int,
)
    requires
        binding_facts(request) is Ok,
        request_column(binding_facts(request)->Ok_0, handle) is Ok,
        IcebergMetadataColumn::of_id(handle.base_field_id) is None,
        request.partition_spec == Some(spec),
        request.partition_values == Some(values),
        request.file_field_ids@.len() <= usize::MAX,
    ensures
        ({
            let bound = request_column(binding_facts(request)->Ok_0, handle)->Ok_0;
            let id = handle.base_field_id;
            let in_file = request.file_field_ids@.contains(Some(id));
            let constant = handle.field_id_path@.len() == 0 && gives_a_constant(
                *spec,
                *request.table_schema,
                p,
            ) && spec.fields@[p].source_id == id && forall|later: int|
                p < later < spec.fields@.len() && gives_a_constant(*spec, *request.table_schema, later) ==> (
                #[trigger] spec.fields@[later]).source_id != id;
            &&& bound.handle == handle.model()
            &&& bound.base_target.field_id == Some(id)
            &&& in_file ==> bound.source == (SourceModel::Physical {
                base_field_id: id,
                dereference: handle.field_id_path@,
            })
            &&& !in_file && constant ==> bound.source == SourceModel::IdentityPartitionConstant(&values@[p])
            &&& bound.source matches SourceModel::IdentityPartitionConstant(value) ==> !in_file
                && handle.field_id_path@.len() == 0 && exists|f: int| #[trigger]
                gives_a_constant(*spec, *request.table_schema, f) && spec.fields@[f].source_id == id && value
                    == &values@[f]
            &&& bound.source is Physical ==> in_file || (request.mapped_field_ids is Some && (
            request.mapped_field_ids->0)@.contains(Some(id)) && request.identified_fields == 0)
            &&& bound.source is InitialDefault ==> bound.target.initial_default is Some
            &&& bound.source is TypedNull ==> handle.nullable && bound.target.initial_default is None
            &&& !(bound.source is Metadata)
        }),
{
    let facts = binding_facts(request)->Ok_0;
    let id = handle.base_field_id;
    law_fields_are_found_by_their_ids(request.file_field_ids@);
    if request.file_field_ids@.contains(Some(id)) {
        let i = choose|i: int|
            0 <= i < request.file_field_ids@.len() && request.file_field_ids@[i] == Some(id);
        assert(get(facts.physical, request.file_field_ids@[i]->0) == Some(i as usize));
    }
    lemma_child_place(facts.read, id, 0);
    law_identity_values_are_positional(*spec, values, *request.table_schema, p);
    law_entries_are_found_by_their_id(facts.identity, id);
    if let Some(mapped) = facts.mapped {
        let ids = (request.mapped_field_ids->0)@;
        if get(mapped, id) is Some {
            lemma_mapped(ids, id);
        }
    }
    let bound = request_column(facts, handle)->Ok_0;
    if let SourceModel::IdentityPartitionConstant(value) = bound.source {
        let k = choose|k: int| 0 <= k < facts.identity.len() && #[trigger] facts.identity[k] == (id, value);
        assert(facts.identity[k].0 == id);
    }
}

proof fn lemma_mapped(ids: Seq<Option<i32>>, id: i32)
    requires
        indexed(ids, ids.len()) is Ok,
        get(indexed(ids, ids.len())->Ok_0, id) is Some,
    ensures
        ids.contains(Some(id)),
{
    lemma_indexed_members(ids, ids.len(), id);
}

proof fn lemma_indexed_members(ids: Seq<Option<i32>>, n: nat, id: i32)
    requires
        n <= ids.len(),
        indexed(ids, n) is Ok,
    ensures
        ascending(indexed(ids, n)->Ok_0),
        get(indexed(ids, n)->Ok_0, id) is Some ==> ids.contains(Some(id)),
    decreases n,
{
    if n > 0 {
        lemma_indexed_members(ids, (n - 1) as nat, id);
        let before = indexed(ids, (n - 1) as nat)->Ok_0;
        if let Some(own) = ids[n - 1] {
            law_get_after_put(before, own, (n - 1) as usize, id);
            law_put_keeps_ascending(before, own, (n - 1) as usize);
            assert(ids[n - 1] == Some(own));
        }
    }
}

/// The projection of a read names exactly the fields that some column is read from, ascending.
pub proof fn law_a_read_projects_what_its_columns_need(ids: Seq<i32>, columns: Seq<IcebergBoundColumn>, id: i32)
    requires
        is_physical_projection(ids, columns),
    ensures
        ids.contains(id) <==> exists|c: int|
            0 <= c < columns.len() && ((#[trigger] columns[c]).source matches IcebergColumnSource::Physical {
                base_field_id,
                ..
            } && base_field_id == id),
        forall|i: int, j: int| 0 <= i < j < ids.len() ==> ids[i] < ids[j],
{
    if ids.contains(id) {
        let c = choose|c: int|
            0 <= c < columns.len() && crate::schema_binding::reads_field(#[trigger] columns[c], id);
        assert(columns[c].source matches IcebergColumnSource::Physical { base_field_id, .. }
            && base_field_id == id);
    }
    if exists|c: int|
        0 <= c < columns.len() && ((#[trigger] columns[c]).source matches IcebergColumnSource::Physical {
            base_field_id,
            ..
        } && base_field_id == id) {
        let c = choose|c: int|
            0 <= c < columns.len() && ((#[trigger] columns[c]).source matches IcebergColumnSource::Physical {
                base_field_id,
                ..
            } && base_field_id == id);
        assert(crate::schema_binding::reads_field(columns[c], id));
    }
}

/// Positions are needed for row ids and row positions, and for nothing else.
pub proof fn law_positions_are_needed_for_row_lineage(column: IcebergBoundColumn)
    ensures
        needs_positions(column) <==> (column.source == IcebergColumnSource::Metadata(
            IcebergMetadataColumn::RowId,
        ) || column.source == IcebergColumnSource::Metadata(IcebergMetadataColumn::RowPosition)),
{
}

// ---------------------------------------------------------------------------
// Metadata columns
// ---------------------------------------------------------------------------

proof fn lemma_position_values(positions: Seq<Option<u64>>, first: Option<i64>, n: nat)
    requires
        n <= positions.len(),
        position_values(positions, first, n) is Ok,
    ensures
        position_values(positions, first, n)->Ok_0.len() == n,
        forall|i: int|
            0 <= i < n ==> positions[i] is Some && (#[trigger] position_values(positions, first, n)->Ok_0[i])
                is Int64 && position_values(positions, first, n)->Ok_0[i]->Int64_0 == positions[i]->0 + (
            match first {
                Some(id) => id as int,
                None => 0,
            }),
    decreases n,
{
    if n > 0 {
        lemma_position_values(positions, first, (n - 1) as nat);
        let before = position_values(positions, first, (n - 1) as nat)->Ok_0;
        let after = position_values(positions, first, n)->Ok_0;
        assert forall|i: int| 0 <= i < n implies positions[i] is Some && (#[trigger] after[i]) is Int64
            && after[i]->Int64_0 == positions[i]->0 + (match first {
            Some(id) => id as int,
            None => 0,
        }) by {
            if i < n - 1 {
                assert(after[i] == before[i]);
            }
        }
    }
}

/// The path and the partition text come in every row. A row position is the position of the row in
/// its file, and a row id is that position counted from the first row id of the file. The sequence
/// number of the file comes in every row.
pub proof fn law_metadata_columns_state_the_facts_of_their_file(
    rows: nat,
    positions: Seq<Option<u64>>,
    path: Seq<char>,
    partition: Seq<char>,
    first: i64,
    sequence: i64,
    row: int,
)
    requires
        0 <= row < rows,
        positions.len() == rows,
    ensures
        ({
            let values = |metadata: IcebergMetadataColumn|
                metadata_values(metadata, rows, Some(positions), path, partition, Some(first), Some(sequence));
            let cell = |metadata: IcebergMetadataColumn| values(metadata)->Ok_0->cells[row];
            &&& values(IcebergMetadataColumn::Path) is Ok && cell(IcebergMetadataColumn::Path) == CellModel::Text(path)
            &&& values(IcebergMetadataColumn::Partition) is Ok && cell(IcebergMetadataColumn::Partition)
                == CellModel::Text(partition)
            &&& values(IcebergMetadataColumn::LastUpdatedSequenceNumber) is Ok && cell(
                IcebergMetadataColumn::LastUpdatedSequenceNumber,
            ) == CellModel::Int64(sequence)
            &&& values(IcebergMetadataColumn::RowPosition) is Ok ==> cell(IcebergMetadataColumn::RowPosition)
                is Int64 && cell(IcebergMetadataColumn::RowPosition)->Int64_0 == positions[row]->0
            &&& values(IcebergMetadataColumn::RowId) is Ok ==> cell(IcebergMetadataColumn::RowId) is Int64
                && cell(IcebergMetadataColumn::RowId)->Int64_0 == first + positions[row]->0
            &&& values(IcebergMetadataColumn::FileModifiedTime) is Err
            &&& values(IcebergMetadataColumn::IsDeleted) is Err
        }),
{
    if position_values(positions, None, positions.len()) is Ok {
        lemma_position_values(positions, None, positions.len());
        assert(position_values(positions, None, positions.len())->Ok_0[row] is Int64);
    }
    if position_values(positions, Some(first), positions.len()) is Ok {
        lemma_position_values(positions, Some(first), positions.len());
        assert(position_values(positions, Some(first), positions.len())->Ok_0[row] is Int64);
    }
}

/// Row positions that are all there and fit a signed column give a column; a fact that is missing
/// gives none.
pub proof fn law_row_lineage_needs_its_facts(rows: nat, positions: Seq<Option<u64>>, path: Seq<char>, partition: Seq<char>, first: i64)
    requires
        positions.len() == rows,
        first >= 0,
    ensures
        (forall|i: int| 0 <= i < rows ==> (#[trigger] positions[i]) is Some && positions[i]->0 + first <= i64::MAX) ==> {
            &&& metadata_values(IcebergMetadataColumn::RowPosition, rows, Some(positions), path, partition, Some(first), None) is Ok
            &&& metadata_values(IcebergMetadataColumn::RowId, rows, Some(positions), path, partition, Some(first), None) is Ok
        },
        metadata_values(IcebergMetadataColumn::RowPosition, rows, None, path, partition, Some(first), None) is Err,
        metadata_values(IcebergMetadataColumn::RowId, rows, Some(positions), path, partition, None, None) is Err,
        metadata_values(IcebergMetadataColumn::RowId, rows, None, path, partition, Some(first), None) is Err,
        metadata_values(IcebergMetadataColumn::LastUpdatedSequenceNumber, rows, Some(positions), path, partition, Some(first), None) is Err,
{
    if forall|i: int| 0 <= i < rows ==> (#[trigger] positions[i]) is Some && positions[i]->0 + first <= i64::MAX {
        lemma_positions_fit(positions, None, first, positions.len());
        lemma_positions_fit(positions, Some(first), first, positions.len());
    }
}

proof fn lemma_positions_fit(positions: Seq<Option<u64>>, counted: Option<i64>, first: i64, n: nat)
    requires
        n <= positions.len(),
        first >= 0,
        counted is None || counted == Some(first),
        forall|i: int|
            0 <= i < positions.len() ==> (#[trigger] positions[i]) is Some && positions[i]->0 + first <= i64::MAX,
    ensures
        position_values(positions, counted, n) is Ok,
    decreases n,
{
    if n > 0 {
        lemma_positions_fit(positions, counted, first, (n - 1) as nat);
        assert(positions[n - 1] is Some);
    }
}

// ---------------------------------------------------------------------------
// Adaptation
// ---------------------------------------------------------------------------

/// The carriers that may stand for one another, and those that may not.
pub proof fn law_carriers_widen_and_never_narrow(p: u8, q: u8, s: i8, t: i8, zone: Option<Seq<char>>, other: Option<Seq<char>>, width: i32)
    ensures
        adaptation_of(DataTypeModel::Int64, DataTypeModel::Int64) == Ok::<IcebergPhysicalAdaptation, ConnectorError>(IcebergPhysicalAdaptation::Identity),
        adaptation_of(DataTypeModel::Int32, DataTypeModel::Int64) == Ok::<IcebergPhysicalAdaptation, ConnectorError>(
            IcebergPhysicalAdaptation::Promotion(IcebergTypePromotion::IntToLong),
        ),
        adaptation_of(DataTypeModel::Int64, DataTypeModel::Int32) is Err,
        adaptation_of(DataTypeModel::Float32, DataTypeModel::Float64) == Ok::<IcebergPhysicalAdaptation, ConnectorError>(
            IcebergPhysicalAdaptation::Promotion(IcebergTypePromotion::FloatToDouble),
        ),
        adaptation_of(DataTypeModel::Float64, DataTypeModel::Float32) is Err,
        adaptation_of(DataTypeModel::Int64, DataTypeModel::Float64) is Err,
        adaptation_of(DataTypeModel::Utf8, DataTypeModel::Int64) is Err,
        s == t && p < q ==> adaptation_of(DataTypeModel::Decimal128(p, s), DataTypeModel::Decimal128(q, t)) == Ok::<
            IcebergPhysicalAdaptation,
            ConnectorError,
        >(IcebergPhysicalAdaptation::Promotion(IcebergTypePromotion::DecimalPrecisionWidening)),
        s != t || p > q ==> adaptation_of(DataTypeModel::Decimal128(p, s), DataTypeModel::Decimal128(q, t)) is Err,
        adaptation_of(DataTypeModel::Date32, DataTypeModel::Timestamp(TimeUnit::Microsecond, zone)) == Ok::<
            IcebergPhysicalAdaptation,
            ConnectorError,
        >(IcebergPhysicalAdaptation::Promotion(IcebergTypePromotion::DateToTimestamp)),
        adaptation_of(DataTypeModel::Date32, DataTypeModel::Timestamp(TimeUnit::Nanosecond, zone)) == Ok::<
            IcebergPhysicalAdaptation,
            ConnectorError,
        >(IcebergPhysicalAdaptation::Promotion(IcebergTypePromotion::DateToTimestampNs)),
        adaptation_of(DataTypeModel::Timestamp(TimeUnit::Microsecond, zone), DataTypeModel::Date32) is Err,
        adaptation_of(
            DataTypeModel::Timestamp(TimeUnit::Microsecond, zone),
            DataTypeModel::Timestamp(TimeUnit::Nanosecond, other),
        ) is Err,
        zone != other ==> adaptation_of(
            DataTypeModel::Timestamp(TimeUnit::Microsecond, zone),
            DataTypeModel::Timestamp(TimeUnit::Microsecond, other),
        ) == Ok::<IcebergPhysicalAdaptation, ConnectorError>(IcebergPhysicalAdaptation::RepresentationCast),
        adaptation_of(DataTypeModel::Null, DataTypeModel::Utf8) == Ok::<IcebergPhysicalAdaptation, ConnectorError>(
            IcebergPhysicalAdaptation::Promotion(IcebergTypePromotion::UnknownToAny),
        ),
        adaptation_of(DataTypeModel::Utf8, DataTypeModel::LargeUtf8) == Ok::<IcebergPhysicalAdaptation, ConnectorError>(IcebergPhysicalAdaptation::RepresentationCast),
        adaptation_of(DataTypeModel::FixedSizeBinary(width), DataTypeModel::Binary) == Ok::<IcebergPhysicalAdaptation, ConnectorError>(IcebergPhysicalAdaptation::RepresentationCast),
        adaptation_of(DataTypeModel::Binary, DataTypeModel::Utf8) is Err,
{
}

/// A list is re-tagged where its element differs by metadata alone: the name, the nullability and
/// the carrier are the same, the id, the default or a tag is not.
pub proof fn law_lists_are_retagged_by_metadata_alone(source: CarrierModel, target: CarrierModel)
    requires
        source.data_type == target.data_type,
        source != target,
    ensures
        source.name == target.name && source.nullable == target.nullable ==> adaptation_of(
            DataTypeModel::List(Box::new(source)),
            DataTypeModel::List(Box::new(target)),
        ) == Ok::<IcebergPhysicalAdaptation, ConnectorError>(IcebergPhysicalAdaptation::RetagNestedMetadata),
        source.name != target.name || source.nullable != target.nullable ==> adaptation_of(
            DataTypeModel::List(Box::new(source)),
            DataTypeModel::List(Box::new(target)),
        ) is Err,
{
    law_same_shape_is_reflexive(source.data_type);
    let one = DataTypeModel::List(Box::new(source));
    let two = DataTypeModel::List(Box::new(target));
    assert(one != two);
    assert(same_shape(one, two) == (source.name == target.name && source.nullable == target.nullable));
}

} // verus!
