//! The columns that a scan names.

use vstd::prelude::*;

use crate::error::ConnectorError;
use crate::types::{type_json, type_to_json, FieldModel, NestedField, Type, TypeModel};

verus! {

/// A column of a scan: a top-level column, or a field reached through struct fields below one.
pub struct IcebergColumnHandle {
    pub base_field_id: i32,
    /// The name of the top-level column.
    pub base_name: String,
    pub base_type: Type,
    /// The ids of the struct fields from the top-level column down, empty for the column itself.
    pub field_id_path: Vec<i32>,
    pub field_type: Type,
    pub nullable: bool,
}

/// [`IcebergColumnHandle`] as a mathematical value.
pub struct ColumnHandleModel {
    pub base_field_id: i32,
    pub base_name: Seq<char>,
    pub base_type: TypeModel,
    pub field_id_path: Seq<i32>,
    pub field_type: TypeModel,
    pub nullable: bool,
}

/// The handle of a top-level column.
pub open spec fn base_handle(field: FieldModel) -> ColumnHandleModel {
    ColumnHandleModel {
        base_field_id: field.id,
        base_name: field.name,
        base_type: field.field_type,
        field_id_path: Seq::empty(),
        field_type: field.field_type,
        nullable: !field.required,
    }
}

impl IcebergColumnHandle {
    pub open spec fn model(self) -> ColumnHandleModel {
        ColumnHandleModel {
            base_field_id: self.base_field_id,
            base_name: self.base_name@,
            base_type: self.base_type.model(),
            field_id_path: self.field_id_path@,
            field_type: self.field_type.model(),
            nullable: self.nullable,
        }
    }

    /// The handle of a top-level column.
    pub fn base_column(field: &NestedField) -> (handle: IcebergColumnHandle)
        ensures
            handle.model() == base_handle(field.model()),
    {
        IcebergColumnHandle {
            base_field_id: field.id,
            base_name: field.name.clone(),
            base_type: field.field_type.duplicate(),
            field_id_path: Vec::new(),
            field_type: field.field_type.duplicate(),
            nullable: !field.required,
        }
    }

    /// Whether the handle names the top-level column itself.
    pub fn is_base_column(&self) -> (base: bool)
        ensures
            base == (self.field_id_path@.len() == 0),
    {
        self.field_id_path.len() == 0
    }

    /// A copy of the handle.
    pub fn duplicate(&self) -> (copy: IcebergColumnHandle)
        ensures
            copy.model() == self.model(),
    {
        let path = crate::seqs::duplicate_ids(&self.field_id_path);
        IcebergColumnHandle {
            base_field_id: self.base_field_id,
            base_name: self.base_name.clone(),
            base_type: self.base_type.duplicate(),
            field_id_path: path,
            field_type: self.field_type.duplicate(),
            nullable: self.nullable,
        }
    }

    /// Whether two handles are the same in every part.
    pub fn same(&self, other: &IcebergColumnHandle) -> (same: bool)
        ensures
            same == (self.model() == other.model()),
    {
        self.base_field_id == other.base_field_id && self.base_name == other.base_name
            && self.base_type.same(&other.base_type) && crate::seqs::same_ids(
            &self.field_id_path,
            &other.field_id_path,
        ) && self.field_type.same(&other.field_type) && self.nullable == other.nullable
    }

    /// The JSON text of the column's type.
    pub fn type_json(&self) -> (json: Result<String, ConnectorError>)
        ensures
            json is Ok,
            json->Ok_0@ == type_json(self.field_type.model()),
    {
        type_to_json(&self.field_type)
    }
}

/// The models of a list of handles.
pub open spec fn handle_models(handles: Seq<IcebergColumnHandle>) -> Seq<ColumnHandleModel> {
    handles.map_values(|handle: IcebergColumnHandle| handle.model())
}

} // verus!
