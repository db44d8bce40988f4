//! Where each output column of a scan comes from, decided once against the schema of one data file
//! and replayed for every page.
//!
//! The order of resolution is fixed: a physical field of the same id, an identity partition value,
//! a legacy name mapping for a file that identifies nothing, the initial default, and a typed null
//! for a nullable field. A required field that reaches the end is corrupt data.

use vstd::prelude::*;

use crate::adaptation::{adaptation_of, physical_adaptation, IcebergPhysicalAdaptation};
use crate::carrier::{duplicate_entries, duplicate_text, field_models, lemma_struct_model, no_entries, CarrierModel, DataType, DataTypeModel, Field};
use crate::column::Column;
use crate::column_handle::{ColumnHandleModel, IcebergColumnHandle};
use crate::error::{ConnectorError, CorruptData, InvalidRequest, UnsupportedFeature};
use crate::keyed::{find_entry, get, put, put_entry};
use crate::metadata_column::{law_metadata_columns_cover_the_page, metadata_column, metadata_values, positions_model, IcebergMetadataColumn, IcebergSplitFacts, SplitFactsModel};
use crate::partition::PartitionSpec;
use crate::seqs::duplicate_ids;
use crate::types::{lemma_struct_type_model, nested_models, DefaultModel, FieldModel, InitialDefault, NestedField, PrimitiveType, Schema, Type, TypeModel};
use crate::value::Literal;
use crate::variant::{is_variant_struct_data_type, variant_struct};

verus! {

// ---------------------------------------------------------------------------
// Field-id coverage
// ---------------------------------------------------------------------------

/// Whether a file schema identifies its fields.
#[derive(Clone, Copy, Debug, PartialEq, Eq, Structural)]
pub enum FileFieldIdCoverage {
    /// Every field has an Iceberg field id.
    Complete,
    /// No field has one: a legacy name mapping is the only way in.
    Absent,
}

/// The coverage of a file of which `identified` of `total` fields have ids. A file that identifies
/// a part of its fields cannot be repaired, unless the rest is only the inside of opaque variants.
pub fn file_field_id_coverage(identified: usize, total: usize, rest_is_opaque_variants: bool) -> (coverage: Result<FileFieldIdCoverage, ConnectorError>)
    ensures
        coverage == (if identified == total {
            Ok(FileFieldIdCoverage::Complete)
        } else if identified == 0 {
            Ok(FileFieldIdCoverage::Absent)
        } else if rest_is_opaque_variants {
            Ok(FileFieldIdCoverage::Complete)
        } else {
            Err(ConnectorError::Corrupt(CorruptData::PartialFieldIds))
        }),
{
    if identified == total {
        return Ok(FileFieldIdCoverage::Complete);
    }
    if identified == 0 {
        return Ok(FileFieldIdCoverage::Absent);
    }
    if rest_is_opaque_variants {
        return Ok(FileFieldIdCoverage::Complete);
    }
    Err(ConnectorError::Corrupt(CorruptData::PartialFieldIds))
}

// ---------------------------------------------------------------------------
// The physical index
// ---------------------------------------------------------------------------

/// The position of each top-level field id in a file schema.
pub struct PhysicalIndex {
    pub by_field_id: Vec<(i32, usize)>,
}

/// The positions of the first `n` ids, or that one comes twice. A field without an id is passed
/// over.
pub open spec fn indexed(ids: Seq<Option<i32>>, n: nat) -> Result<Seq<(i32, usize)>, ConnectorError>
    decreases n,
{
    if n == 0 || n > ids.len() {
        Ok(seq![])
    } else {
        match indexed(ids, (n - 1) as nat) {
            Err(error) => Err(error),
            Ok(before) => match ids[n - 1] {
                None => Ok(before),
                Some(id) => if get(before, id) is Some {
                    Err(ConnectorError::Corrupt(CorruptData::DuplicateFieldId))
                } else {
                    Ok(put(before, id, (n - 1) as usize))
                },
            },
        }
    }
}

proof fn lemma_indexed_error(ids: Seq<Option<i32>>, n: nat)
    requires
        n <= ids.len(),
        indexed(ids, n) is Err,
    ensures
        indexed(ids, ids.len()) == indexed(ids, n),
    decreases ids.len() - n,
{
    if n < ids.len() {
        lemma_indexed_error(ids, n + 1);
    }
}

impl PhysicalIndex {
    /// Index the top-level fields of a file by their ids. Two fields of one id make every binding
    /// ambiguous.
    pub fn build(field_ids: &Vec<Option<i32>>) -> (index: Result<PhysicalIndex, ConnectorError>)
        ensures
            match indexed(field_ids@, field_ids@.len()) {
                Ok(list) => index is Ok && index->Ok_0.by_field_id@ == list,
                Err(error) => index == Err::<PhysicalIndex, ConnectorError>(error),
            },
    {
        let mut by_field_id: Vec<(i32, usize)> = Vec::new();
        let mut i: usize = 0;
        while i < field_ids.len()
            invariant
                i <= field_ids.len(),
                indexed(field_ids@, i as nat) == Ok::<Seq<(i32, usize)>, ConnectorError>(
                    by_field_id@,
                ),
            decreases field_ids.len() - i,
        {
            match field_ids[i] {
                None => {},
                Some(id) => {
                    if find_entry(&by_field_id, id).is_some() {
                        proof {
                            lemma_indexed_error(field_ids@, (i + 1) as nat);
                        }
                        return Err(ConnectorError::Corrupt(CorruptData::DuplicateFieldId));
                    }
                    put_entry(&mut by_field_id, id, i);
                },
            }
            i += 1;
        }
        Ok(PhysicalIndex { by_field_id })
    }

    /// The position of a field id.
    pub fn index_of(&self, field_id: i32) -> (index: Option<usize>)
        ensures
            index == get(self.by_field_id@, field_id),
    {
        match find_entry(&self.by_field_id, field_id) {
            Some(at) => Some(self.by_field_id[at].1),
            None => None,
        }
    }
}

// ---------------------------------------------------------------------------
// Annotation
// ---------------------------------------------------------------------------

/// A carrier field with the id and the initial default of its table field, at every depth, or why
/// the two do not fit.
pub open spec fn annotated_field(field: CarrierModel, frozen: FieldModel) -> Result<CarrierModel, ConnectorError>
    decreases field, 1nat,
{
    if frozen.initial_default is Unencodable {
        Err(ConnectorError::Invalid(InvalidRequest::InitialDefaultUnencodable))
    } else {
        match annotated_type(field, frozen) {
            Err(error) => Err(error),
            Ok(data_type) => Ok(
                CarrierModel {
                    name: field.name,
                    data_type,
                    nullable: field.nullable,
                    field_id: Some(frozen.id),
                    initial_default: match frozen.initial_default {
                        DefaultModel::Json(text) => Some(text),
                        _ => field.initial_default,
                    },
                    json: field.json,
                    metadata: field.metadata,
                },
            ),
        }
    }
}

/// The carrier of a field with its nested fields annotated. The fields of a variant are encoding
/// details and are left alone.
pub open spec fn annotated_type(field: CarrierModel, frozen: FieldModel) -> Result<DataTypeModel, ConnectorError>
    decreases field, 0nat,
{
    if variant_struct(field.data_type) {
        Ok(field.data_type)
    } else {
        match (field.data_type, frozen.field_type) {
            (DataTypeModel::Struct(children), TypeModel::Struct(fields)) => if children.len()
                != fields.len() {
                Err(ConnectorError::Invalid(InvalidRequest::StructDoesNotMatchCarrier))
            } else {
                match annotated_fields(children, fields, children.len()) {
                    Err(error) => Err(error),
                    Ok(list) => Ok(DataTypeModel::Struct(list)),
                }
            },
            (DataTypeModel::List(child), TypeModel::List(element)) => match annotated_field(
                *child,
                *element,
            ) {
                Err(error) => Err(error),
                Ok(child) => Ok(DataTypeModel::List(Box::new(child))),
            },
            (DataTypeModel::LargeList(child), TypeModel::List(element)) => match annotated_field(
                *child,
                *element,
            ) {
                Err(error) => Err(error),
                Ok(child) => Ok(DataTypeModel::LargeList(Box::new(child))),
            },
            (DataTypeModel::FixedSizeList(child, size), TypeModel::List(element)) => match annotated_field(
                *child,
                *element,
            ) {
                Err(error) => Err(error),
                Ok(child) => Ok(DataTypeModel::FixedSizeList(Box::new(child), size)),
            },
            (DataTypeModel::MapOf(entries, sorted), TypeModel::MapOf(key, held)) => match entries.data_type {
                DataTypeModel::Struct(children) => if children.len() != 2 {
                    Err(ConnectorError::Invalid(InvalidRequest::MapCarrierNotKeyValue))
                } else {
                    match annotated_field(children[0], *key) {
                        Err(error) => Err(error),
                        Ok(key) => match annotated_field(children[1], *held) {
                            Err(error) => Err(error),
                            Ok(held) => Ok(
                                DataTypeModel::MapOf(
                                    Box::new(
                                        CarrierModel {
                                            data_type: DataTypeModel::Struct(seq![key, held]),
                                            ..*entries
                                        },
                                    ),
                                    sorted,
                                ),
                            ),
                        },
                    }
                },
                _ => Err(ConnectorError::Invalid(InvalidRequest::MapCarrierNotStruct)),
            },
            (data_type, _) => Ok(data_type),
        }
    }
}

/// The first `n` carrier fields, each annotated by the table field at its position.
pub open spec fn annotated_fields(children: Seq<CarrierModel>, fields: Seq<FieldModel>, n: nat) -> Result<Seq<CarrierModel>, ConnectorError>
    decreases children, n,
{
    if n == 0 || n > children.len() || n > fields.len() {
        Ok(seq![])
    } else {
        match annotated_fields(children, fields, (n - 1) as nat) {
            Err(error) => Err(error),
            Ok(before) => match annotated_field(children[n - 1], fields[n - 1]) {
                Err(error) => Err(error),
                Ok(field) => Ok(before.push(field)),
            },
        }
    }
}

proof fn lemma_annotated_fields_error(children: Seq<CarrierModel>, fields: Seq<FieldModel>, n: nat)
    requires
        n <= children.len(),
        children.len() == fields.len(),
        annotated_fields(children, fields, n) is Err,
    ensures
        annotated_fields(children, fields, children.len()) == annotated_fields(children, fields, n),
    decreases children.len() - n,
{
    if n < children.len() {
        lemma_annotated_fields_error(children, fields, n + 1);
    }
}

/// A field, or why there is none, as a mathematical value.
pub open spec fn field_result(result: Result<Field, ConnectorError>) -> Result<CarrierModel, ConnectorError> {
    match result {
        Ok(field) => Ok(field.model()),
        Err(error) => Err(error),
    }
}

/// Annotate a carrier field with its table field.
pub fn annotate_field(field: &Field, frozen: &NestedField) -> (annotated: Result<Field, ConnectorError>)
    ensures
        field_result(annotated) == annotated_field(field.model(), frozen.model()),
    decreases *field, 1nat,
{
    let initial_default: Option<String> = match &frozen.initial_default {
        InitialDefault::Unencodable => {
            return Err(ConnectorError::Invalid(InvalidRequest::InitialDefaultUnencodable));
        },
        InitialDefault::Json(text) => Some(text.clone()),
        InitialDefault::Absent => duplicate_text(&field.initial_default),
    };
    match annotate_data_type(field, frozen) {
        Err(error) => Err(error),
        Ok(data_type) => Ok(
            Field {
                name: field.name.clone(),
                data_type,
                nullable: field.nullable,
                field_id: Some(frozen.id),
                initial_default,
                json: field.json,
                metadata: duplicate_entries(&field.metadata),
            },
        ),
    }
}

/// Annotate the nested fields of a carrier.
pub fn annotate_data_type(field: &Field, frozen: &NestedField) -> (annotated: Result<DataType, ConnectorError>)
    ensures
        crate::system_schema::carrier_result(annotated) == annotated_type(
            field.model(),
            frozen.model(),
        ),
    decreases *field, 0nat,
{
    if is_variant_struct_data_type(&field.data_type) {
        return Ok(field.data_type.duplicate());
    }
    match (&field.data_type, &frozen.field_type) {
        (DataType::Struct(children), Type::Struct(fields)) => {
            proof {
                lemma_struct_model(*children);
                lemma_struct_type_model(*fields);
            }
            let ghost models = field_models(children@);
            let ghost table = nested_models(fields@);
            if children.len() != fields.len() {
                return Err(ConnectorError::Invalid(InvalidRequest::StructDoesNotMatchCarrier));
            }
            let mut list: Vec<Field> = Vec::new();
            let mut i: usize = 0;
            assert(field_models(list@) =~= Seq::<CarrierModel>::empty());
            while i < children.len()
                invariant
                    i <= children.len(),
                    children.len() == fields.len(),
                    field.data_type is Struct,
                    field.data_type->Struct_0 == *children,
                    models == field_models(children@),
                    table == nested_models(fields@),
                    field.model().data_type == DataTypeModel::Struct(models),
                    frozen.model().field_type == TypeModel::Struct(table),
                    !variant_struct(field.model().data_type),
                    annotated_fields(models, table, i as nat) == Ok::<Seq<CarrierModel>, ConnectorError>(
                        field_models(list@),
                    ),
                decreases children.len() - i,
            {
                proof {
                    assert(decreases_to!(*field => field.data_type));
                    assert(decreases_to!(field.data_type => children[i as int]));
                    assert(models[i as int] == children@[i as int].model());
                    assert(table[i as int] == fields@[i as int].model());
                }
                match annotate_field(&children[i], &fields[i]) {
                    Ok(annotated) => {
                        let ghost before = list@;
                        list.push(annotated);
                        assert(field_models(list@) =~= field_models(before).push(annotated.model()));
                    },
                    Err(error) => {
                        proof {
                            lemma_annotated_fields_error(models, table, (i + 1) as nat);
                        }
                        return Err(error);
                    },
                }
                i += 1;
            }
            proof {
                lemma_struct_model(list);
            }
            Ok(DataType::Struct(list))
        },
        (DataType::List(child), Type::List(element)) => match annotate_field(child, element) {
            Ok(annotated) => Ok(DataType::List(Box::new(annotated))),
            Err(error) => Err(error),
        },
        (DataType::LargeList(child), Type::List(element)) => match annotate_field(child, element) {
            Ok(annotated) => Ok(DataType::LargeList(Box::new(annotated))),
            Err(error) => Err(error),
        },
        (DataType::FixedSizeList(child, size), Type::List(element)) => match annotate_field(
            child,
            element,
        ) {
            Ok(annotated) => Ok(DataType::FixedSizeList(Box::new(annotated), *size)),
            Err(error) => Err(error),
        },
        (DataType::MapOf(entries, sorted), Type::MapOf(key, held)) => match &entries.data_type {
            DataType::Struct(children) => {
                proof {
                    lemma_struct_model(*children);
                    assert(entries.model().data_type == entries.data_type.model());
                    assert(field.model().data_type is MapOf);
                    assert(*field.model().data_type->MapOf_0 == entries.model());
                }
                if children.len() != 2 {
                    return Err(ConnectorError::Invalid(InvalidRequest::MapCarrierNotKeyValue));
                }
                proof {
                    assert(decreases_to!(*field => field.data_type));
                    assert(decreases_to!(field.data_type => **entries));
                    assert(decreases_to!(**entries => entries.data_type));
                    assert(decreases_to!(entries.data_type => children[0]));
                    assert(decreases_to!(entries.data_type => children[1]));
                }
                let key = match annotate_field(&children[0], key) {
                    Ok(annotated) => annotated,
                    Err(error) => return Err(error),
                };
                let held = match annotate_field(&children[1], held) {
                    Ok(annotated) => annotated,
                    Err(error) => return Err(error),
                };
                let mut list: Vec<Field> = Vec::new();
                list.push(key);
                list.push(held);
                proof {
                    assert(field_models(list@) =~= seq![key.model(), held.model()]);
                    lemma_struct_model(list);
                }
                let annotated = Field {
                    name: entries.name.clone(),
                    data_type: DataType::Struct(list),
                    nullable: entries.nullable,
                    field_id: entries.field_id,
                    initial_default: duplicate_text(&entries.initial_default),
                    json: entries.json,
                    metadata: duplicate_entries(&entries.metadata),
                };
                proof {
                    assert(annotated.model() == CarrierModel {
                        data_type: DataTypeModel::Struct(seq![key.model(), held.model()]),
                        ..entries.model()
                    });
                }
                Ok(DataType::MapOf(Box::new(annotated), *sorted))
            },
            _ => Err(ConnectorError::Invalid(InvalidRequest::MapCarrierNotStruct)),
        },
        _ => Ok(field.data_type.duplicate()),
    }
}

/// The read carriers of a table schema, annotated at every depth.
pub fn annotated_read_schema(read_fields: &Vec<Field>, table_schema: &Schema) -> (fields: Result<Vec<Field>, ConnectorError>)
    ensures
        crate::system_schema::fields_result(fields) == (if read_fields@.len()
            != table_schema.fields@.len() {
            Err(ConnectorError::Invalid(InvalidRequest::ReadCarrierDoesNotMatch))
        } else {
            annotated_fields(field_models(read_fields@), table_schema.model(), read_fields@.len())
        }),
{
    if read_fields.len() != table_schema.fields.len() {
        return Err(ConnectorError::Invalid(InvalidRequest::ReadCarrierDoesNotMatch));
    }
    let ghost models = field_models(read_fields@);
    let ghost table = table_schema.model();
    let mut list: Vec<Field> = Vec::new();
    let mut i: usize = 0;
    assert(field_models(list@) =~= Seq::<CarrierModel>::empty());
    while i < read_fields.len()
        invariant
            i <= read_fields.len(),
            read_fields.len() == table_schema.fields.len(),
            models == field_models(read_fields@),
            table == nested_models(table_schema.fields@),
            annotated_fields(models, table, i as nat) == Ok::<Seq<CarrierModel>, ConnectorError>(
                field_models(list@),
            ),
        decreases read_fields.len() - i,
    {
        assert(models[i as int] == read_fields@[i as int].model());
        assert(table[i as int] == table_schema.fields@[i as int].model());
        match annotate_field(&read_fields[i], &table_schema.fields[i]) {
            Ok(annotated) => {
                let ghost before = list@;
                list.push(annotated);
                assert(field_models(list@) =~= field_models(before).push(annotated.model()));
            },
            Err(error) => {
                proof {
                    lemma_annotated_fields_error(models, table, (i + 1) as nat);
                }
                return Err(error);
            },
        }
        i += 1;
    }
    Ok(list)
}


// ---------------------------------------------------------------------------
// Dereference
// ---------------------------------------------------------------------------

/// The first of a list of fields that has an id, at or after `from`.
pub open spec fn child_place(children: Seq<CarrierModel>, field_id: i32, from: nat) -> Option<nat>
    decreases children.len() - from,
{
    if from >= children.len() {
        None
    } else if children[from as int].field_id == Some(field_id) {
        Some(from)
    } else {
        child_place(children, field_id, from + 1)
    }
}

fn find_child(children: &Vec<Field>, field_id: i32) -> (found: Option<usize>)
    ensures
        match child_place(field_models(children@), field_id, 0) {
            Some(at) => found is Some && found->0 == at && at < children@.len(),
            None => found is None,
        },
{
    let ghost models = field_models(children@);
    let mut i: usize = 0;
    while i < children.len()
        invariant
            i <= children.len(),
            models == field_models(children@),
            child_place(models, field_id, 0) == child_place(models, field_id, i as nat),
        decreases children.len() - i,
    {
        assert(models[i as int] == children@[i as int].model());
        if children[i].field_id == Some(field_id) {
            return Some(i);
        }
        i += 1;
    }
    None
}

/// The field that the first `n` ids of a path lead to through struct fields, and the places of the
/// children on the way.
pub open spec fn dereferenced(base: CarrierModel, path: Seq<i32>, n: nat) -> Result<(CarrierModel, Seq<usize>), ConnectorError>
    decreases n,
{
    if n == 0 || n > path.len() {
        Ok((base, seq![]))
    } else {
        match dereferenced(base, path, (n - 1) as nat) {
            Err(error) => Err(error),
            Ok((current, places)) => match current.data_type {
                DataTypeModel::Struct(children) => match child_place(children, path[n - 1], 0) {
                    None => Err(ConnectorError::Corrupt(CorruptData::DereferenceFieldMissing)),
                    Some(at) => Ok((children[at as int], places.push(at as usize))),
                },
                _ => Err(ConnectorError::Unsupported(UnsupportedFeature::NestedProjection)),
            },
        }
    }
}

proof fn lemma_dereferenced_error(base: CarrierModel, path: Seq<i32>, n: nat)
    requires
        n <= path.len(),
        dereferenced(base, path, n) is Err,
    ensures
        dereferenced(base, path, path.len()) == dereferenced(base, path, n),
    decreases path.len() - n,
{
    if n < path.len() {
        lemma_dereferenced_error(base, path, n + 1);
    }
}

proof fn lemma_dereferenced_length(base: CarrierModel, path: Seq<i32>, n: nat)
    requires
        n <= path.len(),
        dereferenced(base, path, n) is Ok,
    ensures
        dereferenced(base, path, n)->Ok_0.1.len() == n,
    decreases n,
{
    if n > 0 {
        lemma_dereferenced_length(base, path, (n - 1) as nat);
    }
}

/// Walk a path of field ids through struct fields.
pub fn dereference_target_field<'a>(base: &'a Field, field_id_path: &Vec<i32>) -> (target: Result<(&'a Field, Vec<usize>), ConnectorError>)
    ensures
        match dereferenced(base.model(), field_id_path@, field_id_path@.len()) {
            Ok((model, places)) => target is Ok && target->Ok_0.0.model() == model
                && target->Ok_0.1@ == places,
            Err(error) => target == Err::<(&'a Field, Vec<usize>), ConnectorError>(error),
        },
{
    let mut current: &'a Field = base;
    let mut places: Vec<usize> = Vec::new();
    let mut i: usize = 0;
    while i < field_id_path.len()
        invariant
            i <= field_id_path.len(),
            dereferenced(base.model(), field_id_path@, i as nat) == Ok::<(CarrierModel, Seq<usize>), ConnectorError>(
                (current.model(), places@),
            ),
        decreases field_id_path.len() - i,
    {
        match &current.data_type {
            DataType::Struct(children) => {
                proof {
                    lemma_struct_model(*children);
                }
                match find_child(children, field_id_path[i]) {
                    None => {
                        proof {
                            lemma_dereferenced_error(base.model(), field_id_path@, (i + 1) as nat);
                        }
                        return Err(ConnectorError::Corrupt(CorruptData::DereferenceFieldMissing));
                    },
                    Some(at) => {
                        assert(field_models(children@)[at as int] == children@[at as int].model());
                        places.push(at);
                        current = &children[at];
                    },
                }
            },
            _ => {
                proof {
                    lemma_dereferenced_error(base.model(), field_id_path@, (i + 1) as nat);
                }
                return Err(ConnectorError::Unsupported(UnsupportedFeature::NestedProjection));
            },
        }
        i += 1;
    }
    Ok((current, places))
}

/// The validity of a nested value: it is there only where its parent and it itself are. No list
/// means that every value is there.
pub open spec fn both_valid(parent: Option<Seq<bool>>, child: Option<Seq<bool>>) -> Option<Seq<bool>> {
    match (parent, child) {
        (None, None) => None,
        (Some(list), None) => Some(list),
        (None, Some(list)) => Some(list),
        (Some(left), Some(right)) => Some(Seq::new(left.len(), |i: int| left[i] && right[i])),
    }
}

/// An optional list of flags as a mathematical value.
pub open spec fn flags_model(flags: Option<Vec<bool>>) -> Option<Seq<bool>> {
    match flags {
        Some(list) => Some(list@),
        None => None,
    }
}

/// Combine the validity of a parent and of its child: an absent parent makes its whole subtree
/// null.
pub fn combined_validity(parent: Option<Vec<bool>>, child: Option<Vec<bool>>) -> (combined: Option<Vec<bool>>)
    requires
        parent is Some && child is Some ==> parent->0@.len() == child->0@.len(),
    ensures
        flags_model(combined) == both_valid(flags_model(parent), flags_model(child)),
{
    match (parent, child) {
        (None, None) => None,
        (Some(list), None) => Some(list),
        (None, Some(list)) => Some(list),
        (Some(left), Some(right)) => {
            let mut list: Vec<bool> = Vec::new();
            let mut i: usize = 0;
            while i < left.len()
                invariant
                    i <= left.len(),
                    left.len() == right.len(),
                    list@.len() == i,
                    forall|k: int| 0 <= k < i ==> #[trigger] list@[k] == (left@[k] && right@[k]),
                decreases left.len() - i,
            {
                list.push(left[i] && right[i]);
                i += 1;
            }
            assert(list@ =~= Seq::new(left@.len(), |k: int| left@[k] && right@[k]));
            Some(list)
        },
    }
}

/// Whether a value is there at every level of a path that states a validity: the struct it begins
/// in, each struct on the way, and the value itself.
pub open spec fn valid_at(levels: Seq<Option<Vec<bool>>>, row: int) -> bool {
    forall|i: int|
        0 <= i < levels.len() && (#[trigger] levels[i]) is Some ==> levels[i]->0@[row]
}

/// The validity of a value at the end of a path, given that of each level: it is there exactly
/// where every level is. No list means that every value of a level is there.
pub fn path_validity(levels: &Vec<Option<Vec<bool>>>) -> (valid: Option<Vec<bool>>)
    requires
        forall|i: int, j: int|
            0 <= i < levels@.len() && 0 <= j < levels@.len() && (#[trigger] levels@[i]) is Some && (
            #[trigger] levels@[j]) is Some ==> levels@[i]->0@.len() == levels@[j]->0@.len(),
    ensures
        valid is None <==> forall|i: int| 0 <= i < levels@.len() ==> (#[trigger] levels@[i]) is None,
        valid is Some ==> (forall|i: int|
            0 <= i < levels@.len() && (#[trigger] levels@[i]) is Some ==> levels@[i]->0@.len()
                == valid->0@.len()) && forall|row: int|
            0 <= row < valid->0@.len() ==> #[trigger] valid->0@[row] == valid_at(levels@, row),
{
    let mut valid: Option<Vec<bool>> = None;
    let mut i: usize = 0;
    while i < levels.len()
        invariant
            i <= levels.len(),
            forall|a: int, b: int|
                0 <= a < levels@.len() && 0 <= b < levels@.len() && (#[trigger] levels@[a]) is Some
                    && (#[trigger] levels@[b]) is Some ==> levels@[a]->0@.len()
                    == levels@[b]->0@.len(),
            valid is None <==> forall|k: int| 0 <= k < i ==> (#[trigger] levels@[k]) is None,
            valid is Some ==> forall|k: int|
                0 <= k < i && (#[trigger] levels@[k]) is Some ==> levels@[k]->0@.len()
                    == valid->0@.len(),
            valid is Some ==> exists|k: int| 0 <= k < i && (#[trigger] levels@[k]) is Some,
            valid is Some ==> forall|row: int|
                0 <= row < valid->0@.len() ==> #[trigger] valid->0@[row] == valid_at(
                    levels@.take(i as int),
                    row,
                ),
        decreases levels.len() - i,
    {
        let ghost before = valid;
        let ghost seen = levels@.take(i as int);
        let ghost more = levels@.take(i + 1);
        let own: Option<Vec<bool>> = match &levels[i] {
            Some(list) => Some(duplicate_flags(list)),
            None => None,
        };
        let ghost level = flags_model(own);
        valid = combined_validity(valid, own);
        proof {
            assert(levels@[i as int] is Some <==> level is Some);
            assert forall|row: int| #[trigger] valid_at(more, row) == (valid_at(seen, row) && (
            levels@[i as int] is Some ==> levels@[i as int]->0@[row])) by {
                if valid_at(more, row) {
                    assert forall|k: int| 0 <= k < seen.len() && (#[trigger] seen[k]) is Some implies
                        seen[k]->0@[row] by {
                        assert(more[k] == seen[k]);
                    }
                    assert(more[i as int] == levels@[i as int]);
                }
                if valid_at(seen, row) && (levels@[i as int] is Some ==> levels@[i as int]->0@[row]) {
                    assert forall|k: int| 0 <= k < more.len() && (#[trigger] more[k]) is Some implies
                        more[k]->0@[row] by {
                        if k < i {
                            assert(seen[k] == more[k]);
                        }
                    }
                }
            }
            if before is None {
                assert forall|row: int| valid_at(seen, row) by {
                    assert forall|k: int| 0 <= k < seen.len() && (#[trigger] seen[k]) is Some implies
                        seen[k]->0@[row] by {
                        assert(levels@[k] is None);
                    }
                }
            }
            if valid is Some {
                assert forall|row: int| 0 <= row < valid->0@.len() implies #[trigger] valid->0@[row]
                    == valid_at(more, row) by {
                    assert(valid_at(more, row) == (valid_at(seen, row) && (levels@[i as int] is Some
                        ==> levels@[i as int]->0@[row])));
                    if before is Some {
                        assert(before->0@[row] == valid_at(seen, row));
                    }
                }
            }
        }
        i += 1;
    }
    assert(levels@.take(i as int) =~= levels@);
    valid
}

fn duplicate_flags(flags: &Vec<bool>) -> (copy: Vec<bool>)
    ensures
        copy@ == flags@,
{
    let mut copy: Vec<bool> = Vec::new();
    let mut i: usize = 0;
    while i < flags.len()
        invariant
            i <= flags.len(),
            copy@.len() == i,
            forall|k: int| 0 <= k < i ==> #[trigger] copy@[k] == flags@[k],
        decreases flags.len() - i,
    {
        copy.push(flags[i]);
        i += 1;
    }
    assert(copy@ =~= flags@);
    copy
}

// ---------------------------------------------------------------------------
// Identity partitions
// ---------------------------------------------------------------------------

/// Whether a schema has a top-level field of an id.
pub open spec fn has_top_level(schema: Schema, id: i32) -> bool {
    exists|i: int| 0 <= i < schema.fields@.len() && (#[trigger] schema.fields@[i]).id == id
}

fn is_top_level(schema: &Schema, id: i32) -> (found: bool)
    ensures
        found == has_top_level(*schema, id),
{
    let mut i: usize = 0;
    while i < schema.fields.len()
        invariant
            i <= schema.fields.len(),
            forall|k: int| 0 <= k < i ==> (#[trigger] schema.fields@[k]).id != id,
        decreases schema.fields.len() - i,
    {
        if schema.fields[i].id == id {
            return true;
        }
        i += 1;
    }
    false
}

/// The partition values of the identity fields among the first `n` fields of a spec, by the id of
/// the field they stand for. A source that the schema no longer has is dropped.
pub open spec fn identity_values<'a>(spec: PartitionSpec, values: &'a Vec<Option<Literal>>, schema: Schema, n: nat) -> Seq<(i32, &'a Option<Literal>)>
    decreases n,
{
    if n == 0 || n > spec.fields@.len() || n > values@.len() {
        seq![]
    } else {
        let before = identity_values(spec, values, schema, (n - 1) as nat);
        let field = spec.fields@[n - 1];
        if field.identity && has_top_level(schema, field.source_id) {
            put(before, field.source_id, &values@[n - 1])
        } else {
            before
        }
    }
}

/// The identity partition values of a file. Values are positional against the fields of the spec,
/// so their number has to be the same.
pub fn identity_partition_values<'a>(
    partition_spec: Option<&PartitionSpec>,
    partition_values: Option<&'a Vec<Option<Literal>>>,
    table_schema: &Schema,
) -> (values: Result<Vec<(i32, &'a Option<Literal>)>, ConnectorError>)
    ensures
        match (partition_spec, partition_values) {
            (Some(spec), Some(list)) => if list@.len() != spec.fields@.len() {
                values == Err::<Vec<(i32, &'a Option<Literal>)>, ConnectorError>(
                    ConnectorError::Corrupt(CorruptData::PartitionArity),
                )
            } else {
                values is Ok && values->Ok_0@ == identity_values(
                    *spec,
                    list,
                    *table_schema,
                    spec.fields@.len(),
                )
            },
            _ => values is Ok && values->Ok_0@ == Seq::<(i32, &'a Option<Literal>)>::empty(),
        },
{
    match (partition_spec, partition_values) {
        (Some(spec), Some(list)) => {
            if list.len() != spec.fields.len() {
                return Err(ConnectorError::Corrupt(CorruptData::PartitionArity));
            }
            let mut values: Vec<(i32, &'a Option<Literal>)> = Vec::new();
            let mut i: usize = 0;
            while i < spec.fields.len()
                invariant
                    i <= spec.fields.len(),
                    list.len() == spec.fields.len(),
                    values@ == identity_values(*spec, list, *table_schema, i as nat),
                decreases spec.fields.len() - i,
            {
                let field = &spec.fields[i];
                if field.identity && is_top_level(table_schema, field.source_id) {
                    put_entry(&mut values, field.source_id, &list[i]);
                }
                i += 1;
            }
            Ok(values)
        },
        _ => Ok(Vec::new()),
    }
}

// ---------------------------------------------------------------------------
// Binding
// ---------------------------------------------------------------------------

/// Where the data of one output column comes from.
pub enum IcebergColumnSource<'a> {
    /// A physical field, found by the id of its top-level column and then walked into.
    Physical { base_field_id: i32, dereference: Vec<i32> },
    /// A partition value of the file. A null here is a null partition value.
    IdentityPartitionConstant(&'a Option<Literal>),
    /// The initial default of the table field.
    InitialDefault,
    /// A null of the column's type, for a nullable field only.
    TypedNull,
    Metadata(IcebergMetadataColumn),
}

/// One output column and where it comes from.
pub struct IcebergBoundColumn<'a> {
    pub handle: IcebergColumnHandle,
    /// What the reader has to produce.
    pub target: Field,
    /// The top-level column that a dereference walks into.
    pub base_target: Field,
    pub source: IcebergColumnSource<'a>,
}

/// [`IcebergColumnSource`] as a mathematical value.
pub enum SourceModel<'a> {
    Physical { base_field_id: i32, dereference: Seq<i32> },
    IdentityPartitionConstant(&'a Option<Literal>),
    InitialDefault,
    TypedNull,
    Metadata(IcebergMetadataColumn),
}

/// [`IcebergBoundColumn`] as a mathematical value.
pub struct BoundModel<'a> {
    pub handle: ColumnHandleModel,
    pub target: CarrierModel,
    pub base_target: CarrierModel,
    pub source: SourceModel<'a>,
}

impl<'a> IcebergColumnSource<'a> {
    pub open spec fn model(self) -> SourceModel<'a> {
        match self {
            IcebergColumnSource::Physical { base_field_id, dereference } => SourceModel::Physical {
                base_field_id,
                dereference: dereference@,
            },
            IcebergColumnSource::IdentityPartitionConstant(value) => SourceModel::IdentityPartitionConstant(
                value,
            ),
            IcebergColumnSource::InitialDefault => SourceModel::InitialDefault,
            IcebergColumnSource::TypedNull => SourceModel::TypedNull,
            IcebergColumnSource::Metadata(metadata) => SourceModel::Metadata(metadata),
        }
    }
}

impl<'a> IcebergBoundColumn<'a> {
    pub open spec fn model(self) -> BoundModel<'a> {
        BoundModel {
            handle: self.handle.model(),
            target: self.target.model(),
            base_target: self.base_target.model(),
            source: self.source.model(),
        }
    }
}

/// A bound column, or why there is none, as a mathematical value.
pub open spec fn bound_result<'a>(result: Result<IcebergBoundColumn<'a>, ConnectorError>) -> Result<BoundModel<'a>, ConnectorError> {
    match result {
        Ok(bound) => Ok(bound.model()),
        Err(error) => Err(error),
    }
}

/// A declared type has to be the one a metadata column has.
pub fn expect_primitive(declared: &Type, expected: PrimitiveType) -> (result: Result<(), ConnectorError>)
    ensures
        result == (if declared.model() == TypeModel::Primitive(expected) {
            Ok(())
        } else {
            Err(ConnectorError::Invalid(InvalidRequest::MetadataColumnType))
        }),
{
    match declared {
        Type::Primitive(primitive) => {
            if *primitive == expected {
                Ok(())
            } else {
                Err(ConnectorError::Invalid(InvalidRequest::MetadataColumnType))
            }
        },
        Type::Struct(fields) => {
            proof {
                lemma_struct_type_model(*fields);
            }
            Err(ConnectorError::Invalid(InvalidRequest::MetadataColumnType))
        },
        Type::List(_) | Type::MapOf(_, _) => Err(
            ConnectorError::Invalid(InvalidRequest::MetadataColumnType),
        ),
    }
}

/// The field of a metadata column.
pub open spec fn metadata_field(metadata: IcebergMetadataColumn, data_type: DataTypeModel, nullable: bool) -> CarrierModel {
    CarrierModel {
        name: metadata.spec_name(),
        data_type,
        nullable,
        field_id: Some(metadata.spec_field_id()),
        initial_default: None,
        json: false,
        metadata: Seq::empty(),
    }
}

/// The binding of a metadata column, or why there is none. Its name has to be the one its reserved
/// id stands for. `$file_modified_time` is no frozen fact, and `_deleted` means nothing to a reader
/// that leaves deleted rows out.
pub open spec fn metadata_bound<'a>(handle: ColumnHandleModel, metadata: IcebergMetadataColumn) -> Result<BoundModel<'a>, ConnectorError> {
    if handle.base_name != metadata.spec_name() {
        Err(ConnectorError::Corrupt(CorruptData::MetadataColumnName))
    } else if handle.field_id_path.len() > 0 {
        Err(ConnectorError::Invalid(InvalidRequest::MetadataColumnDereference))
    } else {
        let carrier = match metadata {
            IcebergMetadataColumn::Path | IcebergMetadataColumn::Partition => if handle.field_type
                == TypeModel::Primitive(PrimitiveType::String) {
                Ok(DataTypeModel::Utf8)
            } else {
                Err(ConnectorError::Invalid(InvalidRequest::MetadataColumnType))
            },
            IcebergMetadataColumn::RowId | IcebergMetadataColumn::LastUpdatedSequenceNumber
            | IcebergMetadataColumn::RowPosition => if handle.field_type == TypeModel::Primitive(
                PrimitiveType::Long,
            ) {
                Ok(DataTypeModel::Int64)
            } else {
                Err(ConnectorError::Invalid(InvalidRequest::MetadataColumnType))
            },
            IcebergMetadataColumn::FileModifiedTime => Err(
                ConnectorError::Unsupported(UnsupportedFeature::FileModifiedTime),
            ),
            IcebergMetadataColumn::IsDeleted => Err(
                ConnectorError::Unsupported(UnsupportedFeature::IsDeletedColumn),
            ),
        };
        match carrier {
            Err(error) => Err(error),
            Ok(data_type) => {
                let field = metadata_field(metadata, data_type, handle.nullable);
                Ok(
                    BoundModel {
                        handle,
                        target: field,
                        base_target: field,
                        source: SourceModel::Metadata(metadata),
                    },
                )
            },
        }
    }
}

fn make_metadata_field(metadata: IcebergMetadataColumn, data_type: DataType, nullable: bool) -> (field: Field)
    ensures
        field.model() == metadata_field(metadata, data_type.model(), nullable),
{
    Field {
        name: String::from_str(metadata.column_name()),
        data_type,
        nullable,
        field_id: Some(metadata.field_id()),
        initial_default: None,
        json: false,
        metadata: no_entries(),
    }
}

/// Bind a metadata column.
pub fn bind_metadata_column<'a>(handle: &IcebergColumnHandle, metadata: IcebergMetadataColumn) -> (bound: Result<IcebergBoundColumn<'a>, ConnectorError>)
    ensures
        bound_result(bound) == metadata_bound(handle.model(), metadata),
{
    if !crate::relation_columns::is_named(&handle.base_name, metadata.column_name()) {
        return Err(ConnectorError::Corrupt(CorruptData::MetadataColumnName));
    }
    if !handle.is_base_column() {
        return Err(ConnectorError::Invalid(InvalidRequest::MetadataColumnDereference));
    }
    let data_type = match metadata {
        IcebergMetadataColumn::Path | IcebergMetadataColumn::Partition => match expect_primitive(
            &handle.field_type,
            PrimitiveType::String,
        ) {
            Ok(_) => DataType::Utf8,
            Err(error) => return Err(error),
        },
        IcebergMetadataColumn::RowId | IcebergMetadataColumn::LastUpdatedSequenceNumber
        | IcebergMetadataColumn::RowPosition => match expect_primitive(
            &handle.field_type,
            PrimitiveType::Long,
        ) {
            Ok(_) => DataType::Int64,
            Err(error) => return Err(error),
        },
        IcebergMetadataColumn::FileModifiedTime => return Err(
            ConnectorError::Unsupported(UnsupportedFeature::FileModifiedTime),
        ),
        IcebergMetadataColumn::IsDeleted => return Err(
            ConnectorError::Unsupported(UnsupportedFeature::IsDeletedColumn),
        ),
    };
    Ok(
        IcebergBoundColumn {
            handle: handle.duplicate(),
            target: make_metadata_field(metadata, data_type.duplicate(), handle.nullable),
            base_target: make_metadata_field(metadata, data_type, handle.nullable),
            source: IcebergColumnSource::Metadata(metadata),
        },
    )
}

/// Where the data of a table column comes from, once its target is known.
pub open spec fn resolved_source<'a>(
    handle: ColumnHandleModel,
    target: CarrierModel,
    physical: Seq<(i32, usize)>,
    mapped: Option<Seq<(i32, usize)>>,
    identity: Seq<(i32, &'a Option<Literal>)>,
) -> Result<SourceModel<'a>, ConnectorError> {
    let id = handle.base_field_id;
    if get(physical, id) is Some {
        Ok(SourceModel::Physical { base_field_id: id, dereference: handle.field_id_path })
    } else if handle.field_id_path.len() == 0 && get(identity, id) is Some {
        Ok(SourceModel::IdentityPartitionConstant(get(identity, id)->0))
    } else if mapped is Some && get(mapped->0, id) is Some {
        Ok(SourceModel::Physical { base_field_id: id, dereference: handle.field_id_path })
    } else if target.initial_default is Some {
        Ok(SourceModel::InitialDefault)
    } else if handle.nullable {
        Ok(SourceModel::TypedNull)
    } else {
        Err(ConnectorError::Corrupt(CorruptData::RequiredFieldMissing))
    }
}

/// The binding of one column, or why there is none.
pub open spec fn bound_column<'a>(
    handle: ColumnHandleModel,
    read: Seq<CarrierModel>,
    physical: Seq<(i32, usize)>,
    mapped: Option<Seq<(i32, usize)>>,
    identity: Seq<(i32, &'a Option<Literal>)>,
) -> Result<BoundModel<'a>, ConnectorError> {
    match IcebergMetadataColumn::of_id(handle.base_field_id) {
        Some(metadata) => metadata_bound(handle, metadata),
        None => match child_place(read, handle.base_field_id, 0) {
            None => Err(ConnectorError::Corrupt(CorruptData::ColumnNotInSchema)),
            Some(at) => {
                let base = read[at as int];
                match dereferenced(base, handle.field_id_path, handle.field_id_path.len()) {
                    Err(error) => Err(error),
                    Ok((target, _)) => match resolved_source(
                        handle,
                        target,
                        physical,
                        mapped,
                        identity,
                    ) {
                        Err(error) => Err(error),
                        Ok(source) => Ok(
                            BoundModel { handle, target, base_target: base, source },
                        ),
                    },
                }
            },
        },
    }
}

/// An optional index as a mathematical value.
pub open spec fn index_model(index: Option<&PhysicalIndex>) -> Option<Seq<(i32, usize)>> {
    match index {
        Some(held) => Some(held.by_field_id@),
        None => None,
    }
}

/// Bind one column of a scan.
pub fn bind_one_column<'a>(
    handle: &IcebergColumnHandle,
    read_schema: &Vec<Field>,
    physical: &PhysicalIndex,
    mapped_physical: Option<&PhysicalIndex>,
    identity_partitions: &Vec<(i32, &'a Option<Literal>)>,
) -> (bound: Result<IcebergBoundColumn<'a>, ConnectorError>)
    ensures
        bound_result(bound) == bound_column(
            handle.model(),
            field_models(read_schema@),
            physical.by_field_id@,
            index_model(mapped_physical),
            identity_partitions@,
        ),
{
    let base_field_id: i32 = handle.base_field_id;
    if let Some(metadata) = IcebergMetadataColumn::from_field_id(base_field_id) {
        return bind_metadata_column(handle, metadata);
    }
    let at: usize = match find_child(read_schema, base_field_id) {
        Some(at) => at,
        None => return Err(ConnectorError::Corrupt(CorruptData::ColumnNotInSchema)),
    };
    let base = &read_schema[at];
    assert(field_models(read_schema@)[at as int] == base.model());
    let target = match dereference_target_field(base, &handle.field_id_path) {
        Ok((target, _)) => target,
        Err(error) => return Err(error),
    };
    let mapped = match mapped_physical {
        Some(index) => index.index_of(base_field_id).is_some(),
        None => false,
    };
    let constant: Option<&'a Option<Literal>> = if handle.is_base_column() {
        match find_entry(identity_partitions, base_field_id) {
            Some(at) => Some(identity_partitions[at].1),
            None => None,
        }
    } else {
        None
    };
    let source: IcebergColumnSource<'a> = if physical.index_of(base_field_id).is_some() {
        IcebergColumnSource::Physical {
            base_field_id,
            dereference: duplicate_ids(&handle.field_id_path),
        }
    } else if let Some(value) = constant {
        IcebergColumnSource::IdentityPartitionConstant(value)
    } else if mapped {
        IcebergColumnSource::Physical {
            base_field_id,
            dereference: duplicate_ids(&handle.field_id_path),
        }
    } else if target.initial_default.is_some() {
        IcebergColumnSource::InitialDefault
    } else if handle.nullable {
        IcebergColumnSource::TypedNull
    } else {
        return Err(ConnectorError::Corrupt(CorruptData::RequiredFieldMissing));
    };
    Ok(
        IcebergBoundColumn {
            handle: handle.duplicate(),
            target: target.duplicate(),
            base_target: base.duplicate(),
            source,
        },
    )
}

/// Everything that binding needs.
pub struct IcebergSchemaBindingRequest<'r, 'a> {
    /// The table schema that the scan was planned against.
    pub table_schema: &'r Schema,
    /// The carriers in which the table's fields are read, in field order.
    pub read_fields: &'r Vec<Field>,
    /// The field ids of the file's top-level fields.
    pub file_field_ids: &'r Vec<Option<i32>>,
    /// How many fields of the file have ids, of how many at any depth.
    pub identified_fields: usize,
    pub total_fields: usize,
    /// Whether the fields without ids are only the insides of opaque variants.
    pub rest_is_opaque_variants: bool,
    /// The ids that the table's name mapping gives the file's top-level fields, where the table
    /// has one.
    pub mapped_field_ids: Option<&'r Vec<Option<i32>>>,
    pub partition_spec: Option<&'r PartitionSpec>,
    /// The partition values of the file, in the order of the spec's fields.
    pub partition_values: Option<&'a Vec<Option<Literal>>>,
    pub columns: &'r Vec<IcebergColumnHandle>,
}

/// The complete binding of a scan's columns.
pub struct IcebergSchemaBinding<'a> {
    pub columns: Vec<IcebergBoundColumn<'a>>,
    /// The top-level ids that the binding reads, ascending, each once.
    pub physical_base_field_ids: Vec<i32>,
    pub coverage: FileFieldIdCoverage,
}

/// Whether a list of ids is what a list of columns reads of the file, ascending, each id once.
pub open spec fn is_physical_projection(ids: Seq<i32>, columns: Seq<IcebergBoundColumn>) -> bool {
    &&& forall|i: int, j: int| 0 <= i < j < ids.len() ==> ids[i] < ids[j]
    &&& forall|id: i32| #[trigger]
        ids.contains(id) <==> exists|c: int|
            0 <= c < columns.len() && reads_field(#[trigger] columns[c], id)
}

/// Whether a column reads a top-level field of the file.
pub open spec fn reads_field(column: IcebergBoundColumn, id: i32) -> bool {
    match column.source {
        IcebergColumnSource::Physical { base_field_id, .. } => base_field_id == id,
        _ => false,
    }
}

fn insert_id(ids: &mut Vec<i32>, id: i32)
    requires
        forall|i: int, j: int| 0 <= i < j < old(ids)@.len() ==> old(ids)@[i] < old(ids)@[j],
    ensures
        forall|i: int, j: int| 0 <= i < j < final(ids)@.len() ==> final(ids)@[i] < final(ids)@[j],
        forall|other: i32| #[trigger]
            final(ids)@.contains(other) <==> old(ids)@.contains(other) || other == id,
{
    let ghost before = ids@;
    let mut at: usize = 0;
    while at < ids.len() && ids[at] < id
        invariant
            at <= ids.len(),
            ids@ == before,
            forall|k: int| 0 <= k < at ==> ids@[k] < id,
        decreases ids.len() - at,
    {
        at += 1;
    }
    if at < ids.len() && ids[at] == id {
        assert(ids@[at as int] == id);
        return;
    }
    ids.insert(at, id);
    proof {
        assert forall|i: int, j: int| 0 <= i < j < ids@.len() implies ids@[i] < ids@[j] by {
            let left = if i < at {
                before[i]
            } else if i == at {
                id
            } else {
                before[i - 1]
            };
            let right = if j < at {
                before[j]
            } else if j == at {
                id
            } else {
                before[j - 1]
            };
            assert(ids@[i] == left && ids@[j] == right);
            if at < before.len() {
                assert(before[at as int] > id);
                if j > at && i == at && j - 1 > at {
                    assert(before[at as int] < before[j - 1]);
                }
            }
        }
        assert forall|other: i32| #[trigger]
            ids@.contains(other) <==> before.contains(other) || other == id by {
            if before.contains(other) {
                let k = choose|k: int| 0 <= k < before.len() && before[k] == other;
                if k < at {
                    assert(ids@[k] == other);
                } else {
                    assert(ids@[k + 1] == other);
                }
            }
            if other == id {
                assert(ids@[at as int] == id);
            }
            if ids@.contains(other) {
                let k = choose|k: int| 0 <= k < ids@.len() && ids@[k] == other;
                if k < at {
                    assert(before[k] == other);
                } else if k > at {
                    assert(before[k - 1] == other);
                }
            }
        }
    }
}

/// What binding decides before it looks at a column.
pub struct BindingFacts<'a> {
    pub coverage: FileFieldIdCoverage,
    pub read: Seq<CarrierModel>,
    pub physical: Seq<(i32, usize)>,
    pub mapped: Option<Seq<(i32, usize)>>,
    pub identity: Seq<(i32, &'a Option<Literal>)>,
}

/// What binding decides before it looks at a column, or why it cannot. A name mapping repairs only
/// a file that identifies nothing.
pub open spec fn binding_facts<'a>(request: IcebergSchemaBindingRequest<'_, 'a>) -> Result<BindingFacts<'a>, ConnectorError> {
    let coverage = if request.identified_fields == request.total_fields {
        Ok(FileFieldIdCoverage::Complete)
    } else if request.identified_fields == 0 {
        Ok(FileFieldIdCoverage::Absent)
    } else if request.rest_is_opaque_variants {
        Ok(FileFieldIdCoverage::Complete)
    } else {
        Err(ConnectorError::Corrupt(CorruptData::PartialFieldIds))
    };
    match coverage {
        Err(error) => Err(error),
        Ok(coverage) => match indexed(request.file_field_ids@, request.file_field_ids@.len()) {
            Err(error) => Err(error),
            Ok(physical) => {
                let mapped = match request.mapped_field_ids {
                    Some(ids) => if coverage == FileFieldIdCoverage::Absent {
                        match indexed(ids@, ids@.len()) {
                            Ok(list) => Ok(Some(list)),
                            Err(error) => Err(error),
                        }
                    } else {
                        Ok(None)
                    },
                    None => Ok(None),
                };
                match mapped {
                    Err(error) => Err(error),
                    Ok(mapped) => if request.read_fields@.len()
                        != request.table_schema.fields@.len() {
                        Err(ConnectorError::Invalid(InvalidRequest::ReadCarrierDoesNotMatch))
                    } else {
                        match annotated_fields(
                            field_models(request.read_fields@),
                            request.table_schema.model(),
                            request.read_fields@.len(),
                        ) {
                            Err(error) => Err(error),
                            Ok(read) => match (request.partition_spec, request.partition_values) {
                                (Some(spec), Some(values)) => if values@.len()
                                    != spec.fields@.len() {
                                    Err(ConnectorError::Corrupt(CorruptData::PartitionArity))
                                } else {
                                    Ok(
                                        BindingFacts {
                                            coverage,
                                            read,
                                            physical,
                                            mapped,
                                            identity: identity_values(
                                                *spec,
                                                values,
                                                *request.table_schema,
                                                spec.fields@.len(),
                                            ),
                                        },
                                    )
                                },
                                _ => Ok(
                                    BindingFacts {
                                        coverage,
                                        read,
                                        physical,
                                        mapped,
                                        identity: Seq::empty(),
                                    },
                                ),
                            },
                        }
                    },
                }
            },
        },
    }
}

/// The binding of one column of a request.
pub open spec fn request_column<'a>(facts: BindingFacts<'a>, handle: IcebergColumnHandle) -> Result<BoundModel<'a>, ConnectorError> {
    bound_column(handle.model(), facts.read, facts.physical, facts.mapped, facts.identity)
}

/// Decide where every output column comes from.
pub fn bind_scan_columns<'a>(request: &IcebergSchemaBindingRequest<'_, 'a>) -> (binding: Result<IcebergSchemaBinding<'a>, ConnectorError>)
    ensures
        match binding_facts(*request) {
            Err(error) => binding == Err::<IcebergSchemaBinding<'a>, ConnectorError>(error),
            Ok(facts) => match binding {
                Ok(binding) => {
                    &&& binding.coverage == facts.coverage
                    &&& binding.columns@.len() == request.columns@.len()
                    &&& forall|i: int|
                        0 <= i < request.columns@.len() ==> Ok::<BoundModel<'a>, ConnectorError>(
                            (#[trigger] binding.columns@[i]).model(),
                        ) == request_column(facts, request.columns@[i])
                    &&& is_physical_projection(
                        binding.physical_base_field_ids@,
                        binding.columns@,
                    )
                },
                Err(error) => exists|i: int|
                    0 <= i < request.columns@.len() && request_column(
                        facts,
                        #[trigger] request.columns@[i],
                    ) == Err::<BoundModel<'a>, ConnectorError>(error) && forall|k: int|
                        0 <= k < i ==> request_column(facts, #[trigger] request.columns@[k]) is Ok,
            },
        },
{
    let coverage = match file_field_id_coverage(
        request.identified_fields,
        request.total_fields,
        request.rest_is_opaque_variants,
    ) {
        Ok(coverage) => coverage,
        Err(error) => return Err(error),
    };
    let physical = match PhysicalIndex::build(request.file_field_ids) {
        Ok(index) => index,
        Err(error) => return Err(error),
    };
    let mapped: Option<PhysicalIndex> = match request.mapped_field_ids {
        Some(ids) => {
            if coverage == FileFieldIdCoverage::Absent {
                match PhysicalIndex::build(ids) {
                    Ok(index) => Some(index),
                    Err(error) => return Err(error),
                }
            } else {
                None
            }
        },
        None => None,
    };
    let read = match annotated_read_schema(request.read_fields, request.table_schema) {
        Ok(read) => read,
        Err(error) => return Err(error),
    };
    let identity = match identity_partition_values(
        request.partition_spec,
        request.partition_values,
        request.table_schema,
    ) {
        Ok(identity) => identity,
        Err(error) => return Err(error),
    };
    let ghost facts = binding_facts(*request)->Ok_0;
    let mut columns: Vec<IcebergBoundColumn<'a>> = Vec::new();
    let mut ids: Vec<i32> = Vec::new();
    let mut i: usize = 0;
    while i < request.columns.len()
        invariant
            i <= request.columns.len(),
            binding_facts(*request) == Ok::<BindingFacts<'a>, ConnectorError>(facts),
            facts.read == field_models(read@),
            facts.physical == physical.by_field_id@,
            facts.mapped == index_model(
                match mapped {
                    Some(index) => Some(&index),
                    None => None,
                },
            ),
            facts.identity == identity@,
            columns@.len() == i,
            forall|k: int|
                0 <= k < i ==> Ok::<BoundModel<'a>, ConnectorError>((#[trigger] columns@[k]).model())
                    == request_column(facts, request.columns@[k]),
            forall|k: int| 0 <= k < i ==> request_column(facts, #[trigger] request.columns@[k]) is Ok,
            is_physical_projection(ids@, columns@),
        decreases request.columns.len() - i,
    {
        let bound = bind_one_column(
            &request.columns[i],
            &read,
            &physical,
            mapped.as_ref(),
            &identity,
        );
        match bound {
            Ok(bound) => {
                let ghost before = columns@;
                let ghost old_ids = ids@;
                let read_id: Option<i32> = match &bound.source {
                    IcebergColumnSource::Physical { base_field_id, dereference: _ } => Some(
                        *base_field_id,
                    ),
                    _ => None,
                };
                if let Some(id) = read_id {
                    insert_id(&mut ids, id);
                }
                columns.push(bound);
                proof {
                    assert forall|id: i32| #[trigger]
                        ids@.contains(id) <==> exists|c: int|
                            0 <= c < columns@.len() && reads_field(#[trigger] columns@[c], id) by {
                        if ids@.contains(id) {
                            if old_ids.contains(id) {
                                let c = choose|c: int|
                                    0 <= c < before.len() && reads_field(#[trigger] before[c], id);
                                assert(reads_field(columns@[c], id));
                            } else {
                                assert(reads_field(columns@[before.len() as int], id));
                            }
                        }
                        if exists|c: int| 0 <= c < columns@.len() && reads_field(#[trigger] columns@[c], id) {
                            let c = choose|c: int|
                                0 <= c < columns@.len() && reads_field(#[trigger] columns@[c], id);
                            if c < before.len() {
                                assert(reads_field(before[c], id));
                                assert(old_ids.contains(id));
                            }
                        }
                    }
                    assert forall|k: int| 0 <= k < i + 1 implies Ok::<BoundModel<'a>, ConnectorError>(
                        (#[trigger] columns@[k]).model(),
                    ) == request_column(facts, request.columns@[k]) by {
                        if k < i {
                            assert(columns@[k] == before[k]);
                        }
                    }
                }
            },
            Err(error) => {
                assert(request_column(facts, request.columns@[i as int]) == Err::<BoundModel<'a>, ConnectorError>(error));
                return Err(error);
            },
        }
        i += 1;
    }
    Ok(IcebergSchemaBinding { columns, physical_base_field_ids: ids, coverage })
}

impl<'a> IcebergBoundColumn<'a> {
    pub fn handle(&self) -> (handle: &IcebergColumnHandle)
        ensures
            *handle == self.handle,
    {
        &self.handle
    }

    pub fn target(&self) -> (target: &Field)
        ensures
            *target == self.target,
    {
        &self.target
    }

    pub fn source(&self) -> (source: &IcebergColumnSource<'a>)
        ensures
            *source == self.source,
    {
        &self.source
    }
}

impl<'a> IcebergSchemaBinding<'a> {
    pub fn columns(&self) -> (columns: &Vec<IcebergBoundColumn<'a>>)
        ensures
            *columns == self.columns,
    {
        &self.columns
    }

    /// The top-level ids that the binding reads, ascending, each once.
    pub fn physical_base_field_ids(&self) -> (ids: &Vec<i32>)
        ensures
            *ids == self.physical_base_field_ids,
    {
        &self.physical_base_field_ids
    }

    pub fn coverage(&self) -> (coverage: FileFieldIdCoverage)
        ensures
            coverage == self.coverage,
    {
        self.coverage
    }

    /// Whether any column reads a physical field.
    pub fn reads_any_physical_field(&self) -> (reads: bool)
        ensures
            reads == (self.physical_base_field_ids@.len() > 0),
    {
        self.physical_base_field_ids.len() > 0
    }

    /// Whether any column needs the positions of rows.
    pub fn requires_row_positions(&self) -> (requires_: bool)
        ensures
            requires_ == exists|i: int|
                0 <= i < self.columns@.len() && needs_positions(#[trigger] self.columns@[i]),
    {
        let mut i: usize = 0;
        while i < self.columns.len()
            invariant
                i <= self.columns.len(),
                forall|k: int| 0 <= k < i ==> !needs_positions(#[trigger] self.columns@[k]),
            decreases self.columns.len() - i,
        {
            match &self.columns[i].source {
                IcebergColumnSource::Metadata(IcebergMetadataColumn::RowId)
                | IcebergColumnSource::Metadata(IcebergMetadataColumn::RowPosition) => {
                    assert(needs_positions(self.columns@[i as int]));
                    return true;
                },
                _ => {},
            }
            i += 1;
        }
        false
    }
}

/// The bytes that the first `n` columns of a binding retain, where each takes `column_size` bytes
/// of its own: the texts of its two types, `text_bytes` of them, and its path come on top.
pub open spec fn retained_bytes(
    columns: Seq<IcebergBoundColumn>,
    text_bytes: Seq<usize>,
    column_size: nat,
    n: nat,
) -> nat
    decreases n,
{
    if n == 0 || n > columns.len() {
        0
    } else {
        retained_bytes(columns, text_bytes, column_size, (n - 1) as nat) + column_size
            + text_bytes[n - 1] as nat + 4 * columns[n - 1].handle.field_id_path@.len()
    }
}

proof fn lemma_retained_bytes_grow(
    columns: Seq<IcebergBoundColumn>,
    text_bytes: Seq<usize>,
    column_size: nat,
    n: nat,
)
    requires
        n <= columns.len(),
    ensures
        retained_bytes(columns, text_bytes, column_size, n) <= retained_bytes(
            columns,
            text_bytes,
            column_size,
            columns.len(),
        ),
    decreases columns.len() - n,
{
    if n < columns.len() {
        lemma_retained_bytes_grow(columns, text_bytes, column_size, n + 1);
    }
}

impl<'a> IcebergSchemaBinding<'a> {
    /// The bytes that the binding retains, where it takes `own_size` bytes of its own and each
    /// column `column_size`. `type_text_bytes` states for each column how long the texts of its two
    /// types are, as its handle was given them. All of it is in memory, so the sum fits.
    pub fn retained_size_in_bytes(
        &self,
        own_size: usize,
        column_size: usize,
        type_text_bytes: &Vec<usize>,
    ) -> (retained: u64)
        requires
            type_text_bytes@.len() == self.columns@.len(),
            own_size + 4 * self.physical_base_field_ids@.len() + retained_bytes(
                self.columns@,
                type_text_bytes@,
                column_size as nat,
                self.columns@.len(),
            ) <= usize::MAX,
        ensures
            retained == own_size + 4 * self.physical_base_field_ids@.len() + retained_bytes(
                self.columns@,
                type_text_bytes@,
                column_size as nat,
                self.columns@.len(),
            ),
    {
        let mut retained: usize = own_size + 4 * self.physical_base_field_ids.len();
        let mut i: usize = 0;
        while i < self.columns.len()
            invariant
                i <= self.columns.len(),
                type_text_bytes@.len() == self.columns@.len(),
                own_size + 4 * self.physical_base_field_ids@.len() + retained_bytes(
                    self.columns@,
                    type_text_bytes@,
                    column_size as nat,
                    self.columns@.len(),
                ) <= usize::MAX,
                retained == own_size + 4 * self.physical_base_field_ids@.len() + retained_bytes(
                    self.columns@,
                    type_text_bytes@,
                    column_size as nat,
                    i as nat,
                ),
            decreases self.columns.len() - i,
        {
            proof {
                lemma_retained_bytes_grow(
                    self.columns@,
                    type_text_bytes@,
                    column_size as nat,
                    (i + 1) as nat,
                );
            }
            retained = retained + column_size + type_text_bytes[i] + 4
                * self.columns[i].handle.field_id_path.len();
            i += 1;
        }
        retained as u64
    }
}

/// Whether a column is built from row positions.
pub open spec fn needs_positions(column: IcebergBoundColumn) -> bool {
    match column.source {
        IcebergColumnSource::Metadata(metadata) => metadata is RowId || metadata is RowPosition,
        _ => false,
    }
}

/// The order of resolution: a physical field of the same id wins over everything; a top-level column
/// without one is its identity partition value; then comes a mapped field, then the default, then a
/// null where the column may be null.
pub proof fn law_resolution_order(
    handle: ColumnHandleModel,
    target: CarrierModel,
    physical: Seq<(i32, usize)>,
    mapped: Option<Seq<(i32, usize)>>,
    identity: Seq<(i32, &Option<Literal>)>,
)
    ensures
        ({
            let id = handle.base_field_id;
            let source = resolved_source(handle, target, physical, mapped, identity);
            let read = Ok::<SourceModel, ConnectorError>(
                SourceModel::Physical { base_field_id: id, dereference: handle.field_id_path },
            );
            let in_file = get(physical, id) is Some;
            let constant = handle.field_id_path.len() == 0 && get(identity, id) is Some;
            let in_mapping = mapped is Some && get(mapped->0, id) is Some;
            &&& in_file ==> source == read
            &&& !in_file && constant ==> source == Ok::<SourceModel, ConnectorError>(
                SourceModel::IdentityPartitionConstant(get(identity, id)->0),
            )
            &&& !in_file && !constant && in_mapping ==> source == read
            &&& !in_file && !constant && !in_mapping && target.initial_default is Some ==> source
                == Ok::<SourceModel, ConnectorError>(SourceModel::InitialDefault)
            &&& !in_file && !constant && !in_mapping && target.initial_default is None ==> source
                == (if handle.nullable {
                Ok::<SourceModel, ConnectorError>(SourceModel::TypedNull)
            } else {
                Err(ConnectorError::Corrupt(CorruptData::RequiredFieldMissing))
            })
        }),
{
}

/// A required field is never read as a typed null, whatever the file and the table state.
pub proof fn law_required_fields_fail_closed(
    handle: ColumnHandleModel,
    target: CarrierModel,
    physical: Seq<(i32, usize)>,
    mapped: Option<Seq<(i32, usize)>>,
    identity: Seq<(i32, &Option<Literal>)>,
)
    requires
        !handle.nullable,
    ensures
        resolved_source(handle, target, physical, mapped, identity) != Ok::<SourceModel, ConnectorError>(
            SourceModel::TypedNull,
        ),
{
}

// ---------------------------------------------------------------------------
// Materialization
// ---------------------------------------------------------------------------

/// How one output column of a page is produced.
pub enum ColumnStep<'b> {
    /// Adapt the physical column at `index`, then take the children at `path`, one below the
    /// other, each null where its parent is.
    Physical { index: usize, adaptation: IcebergPhysicalAdaptation, path: Vec<usize> },
    /// A partition value in `rows` rows.
    Constant { value: &'b Option<Literal>, rows: usize },
    /// The initial default of the target in `rows` rows.
    InitialDefault { rows: usize },
    /// A null of the target's type in `rows` rows.
    TypedNull { rows: usize },
    /// These values.
    Metadata(Column),
}

impl<'b> ColumnStep<'b> {
    /// How many rows the column of a step has, on a page of `page_rows` rows.
    pub open spec fn planned_rows(self, page_rows: nat) -> nat {
        match self {
            ColumnStep::Physical { .. } => page_rows,
            ColumnStep::Constant { value: _, rows } => rows as nat,
            ColumnStep::InitialDefault { rows } => rows as nat,
            ColumnStep::TypedNull { rows } => rows as nat,
            ColumnStep::Metadata(values) => values.model().spec_len(),
        }
    }
}

/// Whether a step is that of a column, for a page of the given physical fields.
pub open spec fn is_step_of(
    step: ColumnStep,
    column: IcebergBoundColumn,
    page: Seq<CarrierModel>,
    index: Seq<(i32, usize)>,
    row_count: nat,
    positions: Option<Seq<Option<u64>>>,
    facts: SplitFactsModel,
) -> bool {
    match column.source {
        IcebergColumnSource::Physical { base_field_id, dereference } => {
            let place = get(index, base_field_id);
            let walked = dereferenced(column.base_target.model(), dereference@, dereference@.len());
            &&& place is Some
            &&& walked is Ok
            &&& place->0 < page.len()
            &&& step matches ColumnStep::Physical { index: at, adaptation, path }
            &&& at == place->0
            &&& adaptation_of(
                page[at as int].data_type,
                column.base_target.model().data_type,
            ) == Ok::<IcebergPhysicalAdaptation, ConnectorError>(adaptation)
            &&& path@ == walked->Ok_0.1
            &&& path@.len() == dereference@.len()
        },
        IcebergColumnSource::IdentityPartitionConstant(value) => step matches ColumnStep::Constant {
            value: held,
            rows,
        } && *held == *value && rows == row_count,
        IcebergColumnSource::InitialDefault => step matches ColumnStep::InitialDefault { rows }
            && rows == row_count,
        IcebergColumnSource::TypedNull => step matches ColumnStep::TypedNull { rows } && rows
            == row_count,
        IcebergColumnSource::Metadata(metadata) => {
            &&& step matches ColumnStep::Metadata(values)
            &&& metadata_values(
                metadata,
                row_count,
                positions,
                facts.path,
                facts.partition_data_json,
                facts.file_first_row_id,
                facts.data_sequence_number,
            ) == Ok::<crate::column::ColumnModel, ConnectorError>(values.model())
        },
    }
}

/// Why a column cannot be produced from a page.
pub open spec fn step_fault(
    column: IcebergBoundColumn,
    page: Seq<CarrierModel>,
    index: Seq<(i32, usize)>,
    row_count: nat,
    positions: Option<Seq<Option<u64>>>,
    facts: SplitFactsModel,
) -> Option<ConnectorError> {
    match column.source {
        IcebergColumnSource::Physical { base_field_id, dereference } => match get(index, base_field_id) {
            None => Some(ConnectorError::Corrupt(CorruptData::FieldVanished)),
            Some(at) => match adaptation_of(
                page[at as int].data_type,
                column.base_target.model().data_type,
            ) {
                Err(error) => Some(error),
                Ok(_) => match dereferenced(
                    column.base_target.model(),
                    dereference@,
                    dereference@.len(),
                ) {
                    Err(error) => Some(error),
                    Ok(_) => None,
                },
            },
        },
        IcebergColumnSource::Metadata(metadata) => match metadata_values(
            metadata,
            row_count,
            positions,
            facts.path,
            facts.partition_data_json,
            facts.file_first_row_id,
            facts.data_sequence_number,
        ) {
            Err(error) => Some(error),
            Ok(_) => None,
        },
        _ => None,
    }
}

/// The field ids of a list of fields.
pub open spec fn ids_of(fields: Seq<Field>) -> Seq<Option<i32>> {
    fields.map_values(|field: Field| field.field_id)
}

fn field_ids(fields: &Vec<Field>) -> (ids: Vec<Option<i32>>)
    ensures
        ids@ == ids_of(fields@),
{
    let mut ids: Vec<Option<i32>> = Vec::new();
    let mut i: usize = 0;
    while i < fields.len()
        invariant
            i <= fields.len(),
            ids@.len() == i,
            forall|k: int| 0 <= k < i ==> #[trigger] ids@[k] == fields@[k].field_id,
        decreases fields.len() - i,
    {
        ids.push(fields[i].field_id);
        i += 1;
    }
    assert(ids@ =~= ids_of(fields@));
    ids
}

proof fn lemma_indexed_bound(ids: Seq<Option<i32>>, n: nat, id: i32)
    requires
        n <= ids.len(),
        ids.len() <= usize::MAX,
        indexed(ids, n) is Ok,
    ensures
        crate::keyed::ascending(indexed(ids, n)->Ok_0),
        get(indexed(ids, n)->Ok_0, id) is Some ==> get(indexed(ids, n)->Ok_0, id)->0 < n,
    decreases n,
{
    if n > 0 {
        lemma_indexed_bound(ids, (n - 1) as nat, id);
        let before = indexed(ids, (n - 1) as nat)->Ok_0;
        match ids[n - 1] {
            None => {},
            Some(own) => {
                crate::keyed::law_put_keeps_ascending(before, own, (n - 1) as usize);
                crate::keyed::law_get_after_put(before, own, (n - 1) as usize, id);
            },
        }
    }
}

impl<'a> IcebergSchemaBinding<'a> {
    /// Plan how every bound column of one page is produced, in scan order. `page` holds the
    /// physical fields of the page, with the ids that they have or were mapped to: a reader may
    /// reorder or narrow its output from page to page.
    pub fn materialize<'b>(
        &'b self,
        page: &Vec<Field>,
        row_count: usize,
        absolute_positions: Option<&Vec<Option<u64>>>,
        facts: &IcebergSplitFacts<'_>,
    ) -> (steps: Result<Vec<ColumnStep<'b>>, ConnectorError>)
        ensures
            ({
                let positions = positions_model(absolute_positions);
                let index = indexed(ids_of(page@), page@.len());
                if positions is Some && positions->0.len() != row_count {
                    steps == Err::<Vec<ColumnStep<'b>>, ConnectorError>(
                        ConnectorError::Corrupt(CorruptData::PositionCount),
                    )
                } else if index is Err {
                    steps == Err::<Vec<ColumnStep<'b>>, ConnectorError>(index->Err_0)
                } else {
                    match steps {
                        Ok(steps) => steps@.len() == self.columns@.len() && forall|i: int|
                            0 <= i < steps@.len() ==> is_step_of(
                                #[trigger] steps@[i],
                                self.columns@[i],
                                field_models(page@),
                                index->Ok_0,
                                row_count as nat,
                                positions,
                                facts.model(),
                            ) && steps@[i].planned_rows(row_count as nat) == row_count,
                        Err(error) => exists|i: int|
                            0 <= i < self.columns@.len() && step_fault(
                                #[trigger] self.columns@[i],
                                field_models(page@),
                                index->Ok_0,
                                row_count as nat,
                                positions,
                                facts.model(),
                            ) == Some(error) && forall|k: int|
                                0 <= k < i ==> step_fault(
                                    #[trigger] self.columns@[k],
                                    field_models(page@),
                                    index->Ok_0,
                                    row_count as nat,
                                    positions,
                                    facts.model(),
                                ) is None,
                    }
                }
            }),
    {
        if let Some(positions) = absolute_positions {
            if positions.len() != row_count {
                return Err(ConnectorError::Corrupt(CorruptData::PositionCount));
            }
        }
        let ids = field_ids(page);
        let physical = match PhysicalIndex::build(&ids) {
            Ok(index) => index,
            Err(error) => return Err(error),
        };
        let ghost models = field_models(page@);
        let ghost positions = positions_model(absolute_positions);
        let mut steps: Vec<ColumnStep<'b>> = Vec::new();
        let mut i: usize = 0;
        while i < self.columns.len()
            invariant
                i <= self.columns.len(),
                models == field_models(page@),
                ids@ == ids_of(page@),
                ids@.len() == page@.len(),
                positions == positions_model(absolute_positions),
                positions is Some ==> positions->0.len() == row_count,
                indexed(ids_of(page@), page@.len()) == Ok::<Seq<(i32, usize)>, ConnectorError>(
                    physical.by_field_id@,
                ),
                steps@.len() == i,
                forall|k: int|
                    0 <= k < i ==> is_step_of(
                        #[trigger] steps@[k],
                        self.columns@[k],
                        models,
                        physical.by_field_id@,
                        row_count as nat,
                        positions,
                        facts.model(),
                    ) && steps@[k].planned_rows(row_count as nat) == row_count,
                forall|k: int|
                    0 <= k < i ==> step_fault(
                        #[trigger] self.columns@[k],
                        models,
                        physical.by_field_id@,
                        row_count as nat,
                        positions,
                        facts.model(),
                    ) is None,
            decreases self.columns.len() - i,
        {
            let column = &self.columns[i];
            let ghost fault = step_fault(
                self.columns@[i as int],
                models,
                physical.by_field_id@,
                row_count as nat,
                positions,
                facts.model(),
            );
            let step: ColumnStep<'b> = match &column.source {
                IcebergColumnSource::Physical { base_field_id, dereference } => {
                    let at: usize = match physical.index_of(*base_field_id) {
                        Some(at) => at,
                        None => {
                            assert(fault == Some(ConnectorError::Corrupt(CorruptData::FieldVanished)));
                            return Err(ConnectorError::Corrupt(CorruptData::FieldVanished));
                        },
                    };
                    let count: usize = ids.len();
                    proof {
                        lemma_indexed_bound(ids@, count as nat, *base_field_id);
                        assert(models[at as int] == page@[at as int].model());
                    }
                    let adaptation = match physical_adaptation(
                        &page[at].data_type,
                        &column.base_target.data_type,
                    ) {
                        Ok(adaptation) => adaptation,
                        Err(error) => {
                            assert(fault == Some(error));
                            return Err(error);
                        },
                    };
                    match dereference_target_field(&column.base_target, dereference) {
                        Ok((_, path)) => {
                            proof {
                                lemma_dereferenced_length(
                                    column.base_target.model(),
                                    dereference@,
                                    dereference@.len(),
                                );
                            }
                            ColumnStep::Physical { index: at, adaptation, path }
                        },
                        Err(error) => {
                            assert(fault == Some(error));
                            return Err(error);
                        },
                    }
                },
                IcebergColumnSource::IdentityPartitionConstant(value) => ColumnStep::Constant {
                    value,
                    rows: row_count,
                },
                IcebergColumnSource::InitialDefault => ColumnStep::InitialDefault {
                    rows: row_count,
                },
                IcebergColumnSource::TypedNull => ColumnStep::TypedNull { rows: row_count },
                IcebergColumnSource::Metadata(metadata) => match metadata_column(
                    *metadata,
                    row_count,
                    absolute_positions,
                    facts,
                ) {
                    Ok(values) => {
                        proof {
                            law_metadata_columns_cover_the_page(
                                *metadata,
                                row_count as nat,
                                positions,
                                facts.path@,
                                facts.partition_data_json@,
                                facts.file_first_row_id,
                                facts.data_sequence_number,
                            );
                        }
                        ColumnStep::Metadata(values)
                    },
                    Err(error) => {
                        assert(fault == Some(error));
                        return Err(error);
                    },
                },
            };
            steps.push(step);
            i += 1;
        }
        Ok(steps)
    }
}

} // verus!
