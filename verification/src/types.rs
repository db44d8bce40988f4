//! The Iceberg type tree of a table schema, and its JSON text.

use vstd::prelude::*;

use crate::error::{ConnectorError, InternalFault};
use crate::text::{append_integer, append_natural, integer_text, json_quoted, json_string, natural_text};

verus! {

/// A type without fields.
#[derive(Clone, Copy, Debug, PartialEq, Eq, Structural)]
pub enum PrimitiveType {
    Boolean,
    Int,
    Long,
    Float,
    Double,
    Decimal { precision: u32, scale: u32 },
    Date,
    Time,
    Timestamp,
    Timestamptz,
    TimestampNs,
    TimestamptzNs,
    String,
    Uuid,
    Fixed(u64),
    Binary,
    Variant,
}

/// What a field holds in rows that were written before it existed.
pub enum InitialDefault {
    Absent,
    /// The default as its JSON text.
    Json(String),
    /// A default that the field's own type cannot spell.
    Unencodable,
}

/// A type of a table schema.
pub enum Type {
    Primitive(PrimitiveType),
    Struct(Vec<NestedField>),
    List(Box<NestedField>),
    MapOf(Box<NestedField>, Box<NestedField>),
}

/// One field of a struct, or the element, key or value of a collection.
pub struct NestedField {
    pub id: i32,
    pub name: String,
    pub required: bool,
    pub field_type: Type,
    pub initial_default: InitialDefault,
}

/// [`InitialDefault`] as a mathematical value.
pub enum DefaultModel {
    Absent,
    Json(Seq<char>),
    Unencodable,
}

/// [`Type`] as a mathematical value.
pub enum TypeModel {
    Primitive(PrimitiveType),
    Struct(Seq<FieldModel>),
    List(Box<FieldModel>),
    MapOf(Box<FieldModel>, Box<FieldModel>),
}

/// [`NestedField`] as a mathematical value.
pub struct FieldModel {
    pub id: i32,
    pub name: Seq<char>,
    pub required: bool,
    pub field_type: TypeModel,
    pub initial_default: DefaultModel,
}

impl InitialDefault {
    pub open spec fn model(self) -> DefaultModel {
        match self {
            InitialDefault::Absent => DefaultModel::Absent,
            InitialDefault::Json(text) => DefaultModel::Json(text@),
            InitialDefault::Unencodable => DefaultModel::Unencodable,
        }
    }
}

impl Type {
    pub open spec fn model(self) -> TypeModel
        decreases self,
    {
        match self {
            Type::Primitive(primitive) => TypeModel::Primitive(primitive),
            Type::Struct(fields) => TypeModel::Struct(
                Seq::new(
                    fields.len() as nat,
                    |i: int|
                        if 0 <= i < fields.len() {
                            fields[i].model()
                        } else {
                            arbitrary()
                        },
                ),
            ),
            Type::List(element) => TypeModel::List(Box::new(element.model())),
            Type::MapOf(key, value) => TypeModel::MapOf(Box::new(key.model()), Box::new(value.model())),
        }
    }
}

impl NestedField {
    pub open spec fn model(self) -> FieldModel
        decreases self,
    {
        FieldModel {
            id: self.id,
            name: self.name@,
            required: self.required,
            field_type: self.field_type.model(),
            initial_default: self.initial_default.model(),
        }
    }
}


/// The models of a list of fields.
pub open spec fn nested_models(fields: Seq<NestedField>) -> Seq<FieldModel> {
    fields.map_values(|field: NestedField| field.model())
}

/// A struct is modelled by the models of its fields.
pub proof fn lemma_struct_type_model(fields: Vec<NestedField>)
    ensures
        Type::Struct(fields).model() == TypeModel::Struct(nested_models(fields@)),
{
    assert(Type::Struct(fields).model()->Struct_0 =~= nested_models(fields@));
}

impl InitialDefault {
    /// A copy of the default.
    pub fn duplicate(&self) -> (copy: InitialDefault)
        ensures
            copy.model() == self.model(),
    {
        match self {
            InitialDefault::Absent => InitialDefault::Absent,
            InitialDefault::Json(text) => InitialDefault::Json(text.clone()),
            InitialDefault::Unencodable => InitialDefault::Unencodable,
        }
    }
}

impl Type {
    /// A copy of the type.
    pub fn duplicate(&self) -> (copy: Type)
        ensures
            copy.model() == self.model(),
        decreases *self,
    {
        match self {
            Type::Primitive(primitive) => Type::Primitive(*primitive),
            Type::Struct(fields) => {
                let mut copies: Vec<NestedField> = Vec::new();
                let mut i: usize = 0;
                while i < fields.len()
                    invariant
                        i <= fields.len(),
                        *self is Struct,
                        self->Struct_0 == *fields,
                        copies.len() == i,
                        forall|k: int| 0 <= k < i ==> #[trigger] copies[k].model() == fields[k].model(),
                    decreases fields.len() - i,
                {
                    assert(decreases_to!(*self => fields[i as int]));
                    copies.push(fields[i].duplicate());
                    i += 1;
                }
                proof {
                    lemma_struct_type_model(copies);
                    lemma_struct_type_model(*fields);
                    assert(nested_models(copies@) =~= nested_models(fields@));
                }
                Type::Struct(copies)
            },
            Type::List(element) => Type::List(Box::new(element.duplicate())),
            Type::MapOf(key, held) => {
                let key = key.duplicate();
                let held = held.duplicate();
                Type::MapOf(Box::new(key), Box::new(held))
            },
        }
    }
}

impl NestedField {
    /// A copy of the field.
    pub fn duplicate(&self) -> (copy: NestedField)
        ensures
            copy.model() == self.model(),
        decreases *self,
    {
        NestedField {
            id: self.id,
            name: self.name.clone(),
            required: self.required,
            field_type: self.field_type.duplicate(),
            initial_default: self.initial_default.duplicate(),
        }
    }
}

impl InitialDefault {
    /// Whether two defaults are the same.
    pub fn same(&self, other: &InitialDefault) -> (same: bool)
        ensures
            same == (self.model() == other.model()),
    {
        match (self, other) {
            (InitialDefault::Absent, InitialDefault::Absent) => true,
            (InitialDefault::Json(left), InitialDefault::Json(right)) => *left == *right,
            (InitialDefault::Unencodable, InitialDefault::Unencodable) => true,
            _ => false,
        }
    }
}

impl Type {
    /// Whether two types are the same in every part.
    pub fn same(&self, other: &Type) -> (same: bool)
        ensures
            same == (self.model() == other.model()),
        decreases *self,
    {
        match (self, other) {
            (Type::Primitive(left), Type::Primitive(right)) => *left == *right,
            (Type::List(left), Type::List(right)) => left.same(right),
            (Type::MapOf(left_key, left_value), Type::MapOf(right_key, right_value)) => left_key.same(
                right_key,
            ) && left_value.same(right_value),
            (Type::Struct(left), Type::Struct(right)) => {
                if left.len() != right.len() {
                    assert(self.model()->Struct_0.len() != other.model()->Struct_0.len());
                    return false;
                }
                let mut i: usize = 0;
                while i < left.len()
                    invariant
                        i <= left.len(),
                        left.len() == right.len(),
                        *self == Type::Struct(*left),
                        *other == Type::Struct(*right),
                        forall|k: int| 0 <= k < i ==> #[trigger] left[k].model() == right[k].model(),
                    decreases left.len() - i,
                {
                    assert(decreases_to!(*self => left[i as int]));
                    if !left[i].same(&right[i]) {
                        assert(self.model()->Struct_0[i as int] != other.model()->Struct_0[i as int]);
                        return false;
                    }
                    i += 1;
                }
                proof {
                    lemma_struct_type_model(*left);
                    lemma_struct_type_model(*right);
                    assert(nested_models(left@) =~= nested_models(right@));
                }
                true
            },
            _ => false,
        }
    }
}

impl NestedField {
    /// Whether two fields are the same in every part.
    pub fn same(&self, other: &NestedField) -> (same: bool)
        ensures
            same == (self.model() == other.model()),
        decreases *self,
    {
        self.id == other.id && self.name == other.name && self.required == other.required
            && self.initial_default.same(&other.initial_default) && self.field_type.same(
            &other.field_type,
        )
    }
}

// ---------------------------------------------------------------------------
// Schemas
// ---------------------------------------------------------------------------

/// The schema of a table: its top-level fields, in order.
pub struct Schema {
    pub fields: Vec<NestedField>,
}

/// A field of a schema with its full name.
pub struct SchemaEntry<'a> {
    /// The names from the top level down to the field, with dots between.
    pub path: String,
    pub field: &'a NestedField,
}

/// [`SchemaEntry`] as a mathematical value.
pub struct EntryModel {
    pub path: Seq<char>,
    pub field: FieldModel,
}

impl<'a> SchemaEntry<'a> {
    pub open spec fn model(self) -> EntryModel {
        EntryModel { path: self.path@, field: self.field.model() }
    }
}

/// The models of a list of entries.
pub open spec fn entry_models(entries: Seq<SchemaEntry>) -> Seq<EntryModel> {
    entries.map_values(|entry: SchemaEntry| entry.model())
}

/// The full name of a field below `path`.
pub open spec fn child_path(path: Seq<char>, name: Seq<char>) -> Seq<char> {
    if path.len() == 0 {
        name
    } else {
        path.push('.') + name
    }
}

/// A field and everything nested in it, parents before children.
pub open spec fn field_pre_order(path: Seq<char>, field: FieldModel) -> Seq<EntryModel>
    decreases field, 1nat,
{
    let own = child_path(path, field.name);
    seq![EntryModel { path: own, field }] + type_pre_order(own, field.field_type)
}

/// Everything nested in a type, parents before children, in declaration order.
pub open spec fn type_pre_order(path: Seq<char>, value: TypeModel) -> Seq<EntryModel>
    decreases value, 0nat,
{
    match value {
        TypeModel::Primitive(_) => seq![],
        TypeModel::Struct(fields) => fields_pre_order(path, fields, fields.len()),
        TypeModel::List(element) => field_pre_order(path, *element),
        TypeModel::MapOf(key, held) => field_pre_order(path, *key) + field_pre_order(path, *held),
    }
}

/// The first `n` of `fields` with everything nested in them.
pub open spec fn fields_pre_order(path: Seq<char>, fields: Seq<FieldModel>, n: nat) -> Seq<EntryModel>
    decreases fields, n,
{
    if n == 0 || n > fields.len() {
        seq![]
    } else {
        fields_pre_order(path, fields, (n - 1) as nat) + field_pre_order(path, fields[n - 1])
    }
}

fn child_path_of(path: &String, name: &String) -> (full: String)
    ensures
        full@ == child_path(path@, name@),
{
    if path.as_str().unicode_len() == 0 {
        name.clone()
    } else {
        proof {
            reveal_strlit(".");
        }
        let mut full = path.clone();
        full.append(".");
        full.append(name.as_str());
        assert(full@ =~= child_path(path@, name@));
        full
    }
}

fn index_field<'a>(path: &String, field: &'a NestedField, entries: &mut Vec<SchemaEntry<'a>>)
    ensures
        entry_models(final(entries)@) == entry_models(old(entries)@) + field_pre_order(
            path@,
            field.model(),
        ),
    decreases *field, 1nat,
{
    let own = child_path_of(path, &field.name);
    let ghost start = entry_models(entries@);
    let ghost head = EntryModel { path: own@, field: field.model() };
    entries.push(SchemaEntry { path: own.clone(), field });
    assert(entry_models(entries@) =~= start.push(head));
    index_type_fields(&own, &field.field_type, entries);
    assert(entry_models(entries@) =~= start + field_pre_order(path@, field.model()));
}

/// Append everything nested in a type.
pub fn index_type_fields<'a>(path: &String, value: &'a Type, entries: &mut Vec<SchemaEntry<'a>>)
    ensures
        entry_models(final(entries)@) == entry_models(old(entries)@) + type_pre_order(
            path@,
            value.model(),
        ),
    decreases *value, 0nat,
{
    match value {
        Type::Primitive(_) => {
            assert(entry_models(entries@) =~= entry_models(old(entries)@) + type_pre_order(
                path@,
                value.model(),
            ));
        },
        Type::Struct(fields) => {
            let ghost models = nested_models(fields@);
            proof {
                lemma_struct_type_model(*fields);
            }
            let mut i: usize = 0;
            assert(entry_models(entries@) =~= entry_models(old(entries)@) + fields_pre_order(
                path@,
                models,
                0,
            ));
            while i < fields.len()
                invariant
                    i <= fields.len(),
                    *value is Struct,
                    value->Struct_0 == *fields,
                    models == nested_models(fields@),
                    entry_models(entries@) == entry_models(old(entries)@) + fields_pre_order(
                        path@,
                        models,
                        i as nat,
                    ),
                decreases fields.len() - i,
            {
                assert(decreases_to!(*value => fields[i as int]));
                index_field(path, &fields[i], entries);
                proof {
                    assert(models[i as int] == fields[i as int].model());
                    assert(entry_models(entries@) =~= entry_models(old(entries)@)
                        + fields_pre_order(path@, models, (i + 1) as nat));
                }
                i += 1;
            }
        },
        Type::List(element) => index_field(path, element, entries),
        Type::MapOf(key, held) => {
            index_field(path, key, entries);
            index_field(path, held, entries);
            assert(entry_models(entries@) =~= entry_models(old(entries)@) + type_pre_order(
                path@,
                value.model(),
            ));
        },
    }
}

/// The last entry that has a field id, if there is one.
pub open spec fn entry_with_id(entries: Seq<EntryModel>, id: i32) -> Option<EntryModel>
    decreases entries.len(),
{
    if entries.len() == 0 {
        None
    } else if entries.last().field.id == id {
        Some(entries.last())
    } else {
        entry_with_id(entries.drop_last(), id)
    }
}

impl Schema {
    pub open spec fn model(self) -> Seq<FieldModel> {
        nested_models(self.fields@)
    }

    /// Every field of the schema at any depth, parents before children.
    pub open spec fn entries(self) -> Seq<EntryModel> {
        schema_entries(self.model())
    }

    /// Every field of the schema at any depth, parents before children.
    pub fn index_struct_fields(&self) -> (entries: Vec<SchemaEntry<'_>>)
        ensures
            entry_models(entries@) == self.entries(),
    {
        let root = String::new();
        let mut entries: Vec<SchemaEntry<'_>> = Vec::new();
        let ghost models = self.model();
        let mut i: usize = 0;
        assert(entry_models(entries@) =~= fields_pre_order(root@, models, 0));
        while i < self.fields.len()
            invariant
                i <= self.fields.len(),
                models == nested_models(self.fields@),
                root@ == Seq::<char>::empty(),
                entry_models(entries@) == fields_pre_order(root@, models, i as nat),
            decreases self.fields.len() - i,
        {
            index_field(&root, &self.fields[i], &mut entries);
            assert(models[i as int] == self.fields[i as int].model());
            assert(entry_models(entries@) =~= fields_pre_order(root@, models, (i + 1) as nat));
            i += 1;
        }
        entries
    }

    /// The field that has an id, at any depth.
    pub fn field_by_id(&self, id: i32) -> (field: Option<&NestedField>)
        ensures
            (match field {
                Some(held) => Some(held.model()),
                None => None,
            }) == (match entry_with_id(self.entries(), id) {
                Some(entry) => Some(entry.field),
                None => None,
            }),
    {
        let entries = self.index_struct_fields();
        let ghost models = self.entries();
        let mut i: usize = entries.len();
        assert(models.take(i as int) =~= models);
        while i > 0
            invariant
                i <= entries.len(),
                models == entry_models(entries@),
                models == self.entries(),
                entry_with_id(models, id) == entry_with_id(models.take(i as int), id),
            decreases i,
        {
            proof {
                assert(models.take(i as int).last() == models[i - 1]);
                assert(models.take(i as int).drop_last() =~= models.take(i - 1));
                assert(models[i - 1] == entries@[i - 1].model());
            }
            if entries[i - 1].field.id == id {
                return Some(entries[i - 1].field);
            }
            i -= 1;
        }
        None
    }
}

/// Every field of a schema at any depth, parents before children.
pub open spec fn schema_entries(fields: Seq<FieldModel>) -> Seq<EntryModel> {
    fields_pre_order(Seq::empty(), fields, fields.len())
}

// ---------------------------------------------------------------------------
// The JSON text of a type
// ---------------------------------------------------------------------------

/// The name that a schema's JSON gives a primitive type.
pub open spec fn primitive_name(primitive: PrimitiveType) -> Seq<char> {
    match primitive {
        PrimitiveType::Boolean => "boolean"@,
        PrimitiveType::Int => "int"@,
        PrimitiveType::Long => "long"@,
        PrimitiveType::Float => "float"@,
        PrimitiveType::Double => "double"@,
        PrimitiveType::Decimal { precision, scale } => "decimal("@ + natural_text(precision as nat)
            + ","@ + natural_text(scale as nat) + ")"@,
        PrimitiveType::Date => "date"@,
        PrimitiveType::Time => "time"@,
        PrimitiveType::Timestamp => "timestamp"@,
        PrimitiveType::Timestamptz => "timestamptz"@,
        PrimitiveType::TimestampNs => "timestamp_ns"@,
        PrimitiveType::TimestamptzNs => "timestamptz_ns"@,
        PrimitiveType::String => "string"@,
        PrimitiveType::Uuid => "uuid"@,
        PrimitiveType::Fixed(width) => "fixed["@ + natural_text(width as nat) + "]"@,
        PrimitiveType::Binary => "binary"@,
        PrimitiveType::Variant => "variant"@,
    }
}

/// `true` or `false`.
pub open spec fn bool_text(value: bool) -> Seq<char> {
    if value {
        "true"@
    } else {
        "false"@
    }
}

/// The JSON text of a type, as a schema file spells it.
pub open spec fn type_json(value: TypeModel) -> Seq<char>
    decreases value, 0nat,
{
    match value {
        TypeModel::Primitive(primitive) => "\""@ + primitive_name(primitive) + "\""@,
        TypeModel::Struct(fields) => "{\"type\":\"struct\",\"fields\":["@ + fields_json(
            fields,
            fields.len(),
        ) + "]}"@,
        TypeModel::List(element) => "{\"type\":\"list\",\"element-id\":"@ + integer_text(
            element.id as int,
        ) + ",\"element-required\":"@ + bool_text(element.required) + ",\"element\":"@ + type_json(
            element.field_type,
        ) + "}"@,
        TypeModel::MapOf(key, held) => "{\"type\":\"map\",\"key-id\":"@ + integer_text(
            key.id as int,
        ) + ",\"key\":"@ + type_json(key.field_type) + ",\"value-id\":"@ + integer_text(
            held.id as int,
        ) + ",\"value-required\":"@ + bool_text(held.required) + ",\"value\":"@ + type_json(
            held.field_type,
        ) + "}"@,
    }
}

/// The JSON text of the first `n` of `fields`, with commas between.
pub open spec fn fields_json(fields: Seq<FieldModel>, n: nat) -> Seq<char>
    decreases fields, n,
{
    if n == 0 || n > fields.len() {
        seq![]
    } else {
        let field = fields[n - 1];
        let before = fields_json(fields, (n - 1) as nat);
        (if n == 1 {
            before
        } else {
            before + ","@
        }) + "{\"id\":"@ + integer_text(field.id as int) + ",\"name\":"@ + json_quoted(field.name)
            + ",\"required\":"@ + bool_text(field.required) + ",\"type\":"@ + type_json(
            field.field_type,
        ) + "}"@
    }
}

fn bool_to_str(value: bool) -> (text: &'static str)
    ensures
        text@ == bool_text(value),
{
    if value {
        "true"
    } else {
        "false"
    }
}

fn primitive_to_string(primitive: PrimitiveType) -> (text: String)
    ensures
        text@ == primitive_name(primitive),
{
    match primitive {
        PrimitiveType::Boolean => String::from_str("boolean"),
        PrimitiveType::Int => String::from_str("int"),
        PrimitiveType::Long => String::from_str("long"),
        PrimitiveType::Float => String::from_str("float"),
        PrimitiveType::Double => String::from_str("double"),
        PrimitiveType::Decimal { precision, scale } => {
            let mut out = String::from_str("decimal(");
            append_natural(&mut out, precision as u64);
            out.append(",");
            append_natural(&mut out, scale as u64);
            out.append(")");
            out
        },
        PrimitiveType::Date => String::from_str("date"),
        PrimitiveType::Time => String::from_str("time"),
        PrimitiveType::Timestamp => String::from_str("timestamp"),
        PrimitiveType::Timestamptz => String::from_str("timestamptz"),
        PrimitiveType::TimestampNs => String::from_str("timestamp_ns"),
        PrimitiveType::TimestamptzNs => String::from_str("timestamptz_ns"),
        PrimitiveType::String => String::from_str("string"),
        PrimitiveType::Uuid => String::from_str("uuid"),
        PrimitiveType::Fixed(width) => {
            let mut out = String::from_str("fixed[");
            append_natural(&mut out, width);
            out.append("]");
            out
        },
        PrimitiveType::Binary => String::from_str("binary"),
        PrimitiveType::Variant => String::from_str("variant"),
    }
}

/// The JSON text of a type, as a schema file spells it.
pub fn type_to_json(value: &Type) -> (json: Result<String, ConnectorError>)
    ensures
        json is Ok,
        json->Ok_0@ == type_json(value.model()),
    decreases *value,
{
    match value {
        Type::Primitive(primitive) => {
            let mut out = String::from_str("\"");
            out.append(primitive_to_string(*primitive).as_str());
            out.append("\"");
            Ok(out)
        },
        Type::Struct(fields) => {
            let ghost models = nested_models(fields@);
            proof {
                lemma_struct_type_model(*fields);
            }
            let mut list = String::new();
            let mut i: usize = 0;
            while i < fields.len()
                invariant
                    i <= fields.len(),
                    *value is Struct,
                    value->Struct_0 == *fields,
                    models == nested_models(fields@),
                    list@ == fields_json(models, i as nat),
                decreases fields.len() - i,
            {
                let field = &fields[i];
                assert(models[i as int] == field.model());
                assert(decreases_to!(*value => fields[i as int]));
                let name = match json_string(field.name.as_str()) {
                    Ok(name) => name,
                    Err(_) => return Err(ConnectorError::Internal(InternalFault::JsonRendering)),
                };
                let nested = match type_to_json(&field.field_type) {
                    Ok(nested) => nested,
                    Err(error) => return Err(error),
                };
                if i > 0 {
                    list.append(",");
                }
                list.append("{\"id\":");
                append_integer(&mut list, field.id as i64);
                list.append(",\"name\":");
                list.append(name.as_str());
                list.append(",\"required\":");
                list.append(bool_to_str(field.required));
                list.append(",\"type\":");
                list.append(nested.as_str());
                list.append("}");
                i += 1;
            }
            let mut out = String::from_str("{\"type\":\"struct\",\"fields\":[");
            out.append(list.as_str());
            out.append("]}");
            Ok(out)
        },
        Type::List(element) => {
            let nested = match type_to_json(&element.field_type) {
                Ok(nested) => nested,
                Err(error) => return Err(error),
            };
            let mut out = String::from_str("{\"type\":\"list\",\"element-id\":");
            append_integer(&mut out, element.id as i64);
            out.append(",\"element-required\":");
            out.append(bool_to_str(element.required));
            out.append(",\"element\":");
            out.append(nested.as_str());
            out.append("}");
            Ok(out)
        },
        Type::MapOf(key, held) => {
            let key_json = match type_to_json(&key.field_type) {
                Ok(nested) => nested,
                Err(error) => return Err(error),
            };
            let held_json = match type_to_json(&held.field_type) {
                Ok(nested) => nested,
                Err(error) => return Err(error),
            };
            let mut out = String::from_str("{\"type\":\"map\",\"key-id\":");
            append_integer(&mut out, key.id as i64);
            out.append(",\"key\":");
            out.append(key_json.as_str());
            out.append(",\"value-id\":");
            append_integer(&mut out, held.id as i64);
            out.append(",\"value-required\":");
            out.append(bool_to_str(held.required));
            out.append(",\"value\":");
            out.append(held_json.as_str());
            out.append("}");
            Ok(out)
        },
    }
}

} // verus!
