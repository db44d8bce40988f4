//! The columns of the system relations that describe files.

use vstd::prelude::*;

use crate::carrier::{field_models, lemma_struct_model, CarrierModel, DataType, DataTypeModel, Field, TimeUnit};
use crate::column::{cell_models, column_models, lemma_row_model, new_cells, new_columns, push_cell, push_column, Cell, CellModel, Column, ColumnModel};
use crate::error::{ConnectorError, CorruptData, InternalFault, UnsupportedFeature};
use crate::keyed::{find_entry, find_named, get, get_named, named_model};
use crate::text::{parse_i32, parsed_i32, uuid_text, uuid_to_string};
use crate::value::{Datum, Literal, LiteralModel, PrimitiveLiteral};

verus! {

// ---------------------------------------------------------------------------
// Primitive columns
// ---------------------------------------------------------------------------

/// `arrow::datatypes::validate_decimal_precision_and_scale` for 128-bit decimals: a precision
/// from 1 to 38, a scale of at most 38, and a positive scale of at most the precision.
#[verifier::external_body]
fn decimal_is_carried(precision: u8, scale: i8) -> (carried: bool)
    ensures
        carried == (1 <= precision <= 38 && scale <= 38 && (scale > 0 ==> scale <= precision)),
{
    arrow::datatypes::validate_decimal_precision_and_scale::<arrow::datatypes::Decimal128Type>(
        precision,
        scale,
    ).is_ok()
}

/// Whether a carrier can hold literals at all.
pub open spec fn holds_literals(data_type: DataTypeModel) -> bool {
    match data_type {
        DataTypeModel::Boolean | DataTypeModel::Int32 | DataTypeModel::Int64
        | DataTypeModel::Float32 | DataTypeModel::Float64 | DataTypeModel::Date32
        | DataTypeModel::Utf8 | DataTypeModel::Binary | DataTypeModel::Decimal128(_, _) => true,
        DataTypeModel::FixedSizeBinary(width) => width >= 0,
        DataTypeModel::Time64(unit) => unit == TimeUnit::Microsecond,
        DataTypeModel::Timestamp(unit, _) => unit == TimeUnit::Microsecond || unit
            == TimeUnit::Nanosecond,
        _ => false,
    }
}

/// The cell of a literal under a carrier. A literal of another kind is never coerced; a UUID
/// becomes its canonical text.
pub open spec fn literal_cell(data_type: DataTypeModel, literal: LiteralModel) -> Result<CellModel, ConnectorError> {
    match (data_type, literal) {
        (DataTypeModel::Boolean, LiteralModel::Boolean(value)) => Ok(CellModel::Boolean(value)),
        (DataTypeModel::Int32, LiteralModel::Int(value)) => Ok(CellModel::Int32(value)),
        (DataTypeModel::Int64, LiteralModel::Long(value)) => Ok(CellModel::Int64(value)),
        (DataTypeModel::Float32, LiteralModel::Float(bits)) => Ok(CellModel::Float32(bits)),
        (DataTypeModel::Float64, LiteralModel::Double(bits)) => Ok(CellModel::Float64(bits)),
        (DataTypeModel::Date32, LiteralModel::Int(value)) => Ok(CellModel::Int32(value)),
        (DataTypeModel::Time64(_), LiteralModel::Long(value)) => Ok(CellModel::Int64(value)),
        (DataTypeModel::Timestamp(_, _), LiteralModel::Long(value)) => Ok(CellModel::Int64(value)),
        (DataTypeModel::Utf8, LiteralModel::String(value)) => Ok(CellModel::Text(value)),
        (DataTypeModel::Utf8, LiteralModel::UInt128(value)) => Ok(CellModel::Text(uuid_text(value))),
        (DataTypeModel::Binary, LiteralModel::Binary(value)) => Ok(CellModel::Bytes(value)),
        (DataTypeModel::FixedSizeBinary(width), LiteralModel::Binary(value)) => if value.len()
            == width {
            Ok(CellModel::Bytes(value))
        } else {
            Err(ConnectorError::Corrupt(CorruptData::FixedValueWidth))
        },
        (DataTypeModel::Decimal128(_, _), LiteralModel::Int128(value)) => Ok(
            CellModel::Int128(value),
        ),
        _ => Err(ConnectorError::Corrupt(CorruptData::LiteralMismatch)),
    }
}

/// The cells of the first `n` values, or the first one's fault that has none.
pub open spec fn literal_cells(data_type: DataTypeModel, values: Seq<Option<LiteralModel>>, n: nat) -> Result<Seq<CellModel>, ConnectorError>
    decreases n,
{
    if n == 0 || n > values.len() {
        Ok(seq![])
    } else {
        match literal_cells(data_type, values, (n - 1) as nat) {
            Err(error) => Err(error),
            Ok(cells) => match values[n - 1] {
                None => Ok(cells.push(CellModel::Null)),
                Some(literal) => match literal_cell(data_type, literal) {
                    Err(error) => Err(error),
                    Ok(cell) => Ok(cells.push(cell)),
                },
            },
        }
    }
}

/// Whether a carrier states a decimal that can be carried; other carriers always can.
pub open spec fn decimal_carried(data_type: DataTypeModel) -> bool {
    match data_type {
        DataTypeModel::Decimal128(precision, scale) => 1 <= precision <= 38 && scale <= 38 && (scale
            > 0 ==> scale <= precision),
        _ => true,
    }
}

/// The column of typed literals under a carrier.
pub open spec fn primitive_column(data_type: DataTypeModel, values: Seq<Option<LiteralModel>>) -> Result<ColumnModel, ConnectorError> {
    if !holds_literals(data_type) {
        Err(ConnectorError::Unsupported(UnsupportedFeature::SystemCarrier))
    } else {
        match literal_cells(data_type, values, values.len()) {
            Err(error) => Err(error),
            Ok(cells) => if decimal_carried(data_type) {
                Ok(ColumnModel::Flat { data_type, cells })
            } else {
                Err(ConnectorError::Corrupt(CorruptData::DecimalCarrier))
            },
        }
    }
}

/// A column, or why there is none, as a mathematical value.
pub open spec fn column_result(result: Result<Column, ConnectorError>) -> Result<ColumnModel, ConnectorError> {
    match result {
        Ok(column) => Ok(column.model()),
        Err(error) => Err(error),
    }
}

/// Columns, or why there are none, as a mathematical value.
pub open spec fn columns_result(result: Result<Vec<Column>, ConnectorError>) -> Result<Seq<ColumnModel>, ConnectorError> {
    match result {
        Ok(columns) => Ok(column_models(columns@)),
        Err(error) => Err(error),
    }
}

/// The literals of a list of values, null where there is none.
pub open spec fn literal_models(values: Seq<Option<&PrimitiveLiteral>>) -> Seq<Option<LiteralModel>> {
    values.map_values(
        |value: Option<&PrimitiveLiteral>|
            match value {
                Some(literal) => Some(literal.model()),
                None => None,
            },
    )
}

/// A copy of a byte string.
pub fn duplicate_bytes(bytes: &Vec<u8>) -> (copy: Vec<u8>)
    ensures
        copy@ == bytes@,
{
    let mut copy: Vec<u8> = Vec::new();
    let mut i: usize = 0;
    while i < bytes.len()
        invariant
            i <= bytes.len(),
            copy@ == bytes@.take(i as int),
        decreases bytes.len() - i,
    {
        copy.push(bytes[i]);
        assert(bytes@.take(i + 1) =~= bytes@.take(i as int).push(bytes@[i as int]));
        i += 1;
    }
    assert(bytes@.take(i as int) =~= bytes@);
    copy
}

fn literal_to_cell(data_type: &DataType, literal: &PrimitiveLiteral) -> (cell: Result<Cell, ConnectorError>)
    ensures
        match literal_cell(data_type.model(), literal.model()) {
            Ok(model) => cell is Ok && cell->Ok_0.model() == model,
            Err(error) => cell == Err::<Cell, ConnectorError>(error),
        },
{
    match (data_type, literal) {
        (DataType::Boolean, PrimitiveLiteral::Boolean(value)) => Ok(Cell::Boolean(*value)),
        (DataType::Int32, PrimitiveLiteral::Int(value)) => Ok(Cell::Int32(*value)),
        (DataType::Int64, PrimitiveLiteral::Long(value)) => Ok(Cell::Int64(*value)),
        (DataType::Float32, PrimitiveLiteral::Float(bits)) => Ok(Cell::Float32(*bits)),
        (DataType::Float64, PrimitiveLiteral::Double(bits)) => Ok(Cell::Float64(*bits)),
        (DataType::Date32, PrimitiveLiteral::Int(value)) => Ok(Cell::Int32(*value)),
        (DataType::Time64(_), PrimitiveLiteral::Long(value)) => Ok(Cell::Int64(*value)),
        (DataType::Timestamp(_, _), PrimitiveLiteral::Long(value)) => Ok(Cell::Int64(*value)),
        (DataType::Utf8, PrimitiveLiteral::String(value)) => Ok(Cell::Text(value.clone())),
        (DataType::Utf8, PrimitiveLiteral::UInt128(value)) => Ok(Cell::Text(uuid_to_string(*value))),
        (DataType::Binary, PrimitiveLiteral::Binary(value)) => Ok(
            Cell::Bytes(duplicate_bytes(value)),
        ),
        (DataType::FixedSizeBinary(width), PrimitiveLiteral::Binary(value)) => {
            if *width >= 0 && value.len() == *width as usize {
                Ok(Cell::Bytes(duplicate_bytes(value)))
            } else {
                Err(ConnectorError::Corrupt(CorruptData::FixedValueWidth))
            }
        },
        (DataType::Decimal128(_, _), PrimitiveLiteral::Int128(value)) => Ok(Cell::Int128(*value)),
        _ => Err(ConnectorError::Corrupt(CorruptData::LiteralMismatch)),
    }
}

fn can_hold_literals(data_type: &DataType) -> (holds: bool)
    ensures
        holds == holds_literals(data_type.model()),
{
    match data_type {
        DataType::Boolean | DataType::Int32 | DataType::Int64 | DataType::Float32
        | DataType::Float64 | DataType::Date32 | DataType::Utf8 | DataType::Binary
        | DataType::Decimal128(_, _) => true,
        DataType::FixedSizeBinary(width) => *width >= 0,
        DataType::Time64(unit) => *unit == TimeUnit::Microsecond,
        DataType::Timestamp(unit, _) => *unit == TimeUnit::Microsecond || *unit
            == TimeUnit::Nanosecond,
        _ => false,
    }
}

proof fn lemma_literal_cells_error(data_type: DataTypeModel, values: Seq<Option<LiteralModel>>, n: nat)
    requires
        n <= values.len(),
        literal_cells(data_type, values, n) is Err,
    ensures
        literal_cells(data_type, values, values.len()) == literal_cells(data_type, values, n),
    decreases values.len() - n,
{
    if n < values.len() {
        lemma_literal_cells_error(data_type, values, n + 1);
    }
}

/// Materialize one primitive column from typed literals.
pub fn primitive_array(data_type: &DataType, values: &Vec<Option<&PrimitiveLiteral>>) -> (column: Result<Column, ConnectorError>)
    ensures
        column_result(column) == primitive_column(data_type.model(), literal_models(values@)),
{
    if !can_hold_literals(data_type) {
        return Err(ConnectorError::Unsupported(UnsupportedFeature::SystemCarrier));
    }
    let ghost models = literal_models(values@);
    let ghost carrier = data_type.model();
    let mut cells = new_cells();
    let mut i: usize = 0;
    while i < values.len()
        invariant
            i <= values.len(),
            models == literal_models(values@),
            carrier == data_type.model(),
            holds_literals(carrier),
            literal_cells(carrier, models, i as nat) == Ok::<Seq<CellModel>, ConnectorError>(
                cell_models(cells@),
            ),
        decreases values.len() - i,
    {
        assert(models[i as int] == match values@[i as int] {
            Some(literal) => Some(literal.model()),
            None => None,
        });
        match values[i] {
            None => push_cell(&mut cells, Cell::Null),
            Some(literal) => match literal_to_cell(data_type, literal) {
                Ok(cell) => push_cell(&mut cells, cell),
                Err(error) => {
                    proof {
                        lemma_literal_cells_error(carrier, models, (i + 1) as nat);
                    }
                    return Err(error);
                },
            },
        }
        i += 1;
    }
    if let DataType::Decimal128(precision, scale) = data_type {
        if !decimal_is_carried(*precision, *scale) {
            return Err(ConnectorError::Corrupt(CorruptData::DecimalCarrier));
        }
    }
    Ok(Column::Flat { data_type: data_type.duplicate(), cells })
}

// ---------------------------------------------------------------------------
// Rows of primitive columns
// ---------------------------------------------------------------------------

/// The literal of a partition value. A value that the file's spec does not define is null.
pub open spec fn partition_literal(value: Option<&Option<Literal>>) -> Result<Option<LiteralModel>, ConnectorError> {
    match value {
        None => Ok(None),
        Some(held) => match *held {
            None => Ok(None),
            Some(Literal::Primitive(literal)) => Ok(Some(literal.model())),
            Some(Literal::Nested) => Err(ConnectorError::Corrupt(CorruptData::NestedPartitionValue)),
        },
    }
}

/// The values of one partition field in the first `n` rows.
pub open spec fn partition_literals(
    rows: Seq<Seq<(Seq<char>, &Option<Literal>)>>,
    name: Seq<char>,
    n: nat,
) -> Result<Seq<Option<LiteralModel>>, ConnectorError>
    decreases n,
{
    if n == 0 || n > rows.len() {
        Ok(seq![])
    } else {
        match partition_literals(rows, name, (n - 1) as nat) {
            Err(error) => Err(error),
            Ok(before) => match partition_literal(get_named(rows[n - 1], name)) {
                Err(error) => Err(error),
                Ok(literal) => Ok(before.push(literal)),
            },
        }
    }
}

/// The column of one partition field.
pub open spec fn partition_child(
    field: CarrierModel,
    rows: Seq<Seq<(Seq<char>, &Option<Literal>)>>,
) -> Result<ColumnModel, ConnectorError> {
    match partition_literals(rows, field.name, rows.len()) {
        Err(error) => Err(error),
        Ok(values) => primitive_column(field.data_type, values),
    }
}

/// The columns of the first `n` partition fields.
pub open spec fn partition_children(
    fields: Seq<CarrierModel>,
    rows: Seq<Seq<(Seq<char>, &Option<Literal>)>>,
    n: nat,
) -> Result<Seq<ColumnModel>, ConnectorError>
    decreases n,
{
    if n == 0 || n > fields.len() {
        Ok(seq![])
    } else {
        match partition_children(fields, rows, (n - 1) as nat) {
            Err(error) => Err(error),
            Ok(before) => match partition_child(fields[n - 1], rows) {
                Err(error) => Err(error),
                Ok(column) => Ok(before.push(column)),
            },
        }
    }
}

/// Whether a column of a row is what its field declares, as long as the row, and without a null
/// where the field allows none.
pub open spec fn child_fits(field: CarrierModel, child: ColumnModel, length: nat) -> bool {
    &&& child.carrier() == field.data_type
    &&& child.spec_len() == length
    &&& field.nullable || !child.holds_null()
}

/// A row of columns under a field list. A row has at least one field, one column for each of them,
/// and every column fits its field.
pub open spec fn row_of(fields: Seq<CarrierModel>, children: Seq<ColumnModel>, length: nat) -> Result<ColumnModel, ConnectorError> {
    if fields.len() > 0 && children.len() == fields.len() && forall|i: int|
        0 <= i < fields.len() ==> child_fits(#[trigger] fields[i], children[i], length) {
        Ok(ColumnModel::Row { fields, children, length })
    } else {
        Err(ConnectorError::Internal(InternalFault::RowColumns))
    }
}

/// The `partition` column of a list of partition tuples.
pub open spec fn partition_struct(
    data_type: DataTypeModel,
    rows: Seq<Seq<(Seq<char>, &Option<Literal>)>>,
) -> Result<ColumnModel, ConnectorError> {
    match data_type {
        DataTypeModel::Struct(fields) => match partition_children(fields, rows, fields.len()) {
            Err(error) => Err(error),
            Ok(children) => row_of(fields, children, rows.len()),
        },
        _ => Err(ConnectorError::Internal(InternalFault::PartitionRowNotStruct)),
    }
}

/// The tuples of a list of rows, their names as mathematical values.
pub open spec fn tuple_models<'a>(rows: Seq<&Vec<(String, &'a Option<Literal>)>>) -> Seq<Seq<(Seq<char>, &'a Option<Literal>)>> {
    rows.map_values(|row: &Vec<(String, &'a Option<Literal>)>| named_model(row@))
}

proof fn lemma_partition_literals_error(rows: Seq<Seq<(Seq<char>, &Option<Literal>)>>, name: Seq<char>, n: nat)
    requires
        n <= rows.len(),
        partition_literals(rows, name, n) is Err,
    ensures
        partition_literals(rows, name, rows.len()) == partition_literals(rows, name, n),
    decreases rows.len() - n,
{
    if n < rows.len() {
        lemma_partition_literals_error(rows, name, n + 1);
    }
}

proof fn lemma_partition_children_error(fields: Seq<CarrierModel>, rows: Seq<Seq<(Seq<char>, &Option<Literal>)>>, n: nat)
    requires
        n <= fields.len(),
        partition_children(fields, rows, n) is Err,
    ensures
        partition_children(fields, rows, fields.len()) == partition_children(fields, rows, n),
    decreases fields.len() - n,
{
    if n < fields.len() {
        lemma_partition_children_error(fields, rows, n + 1);
    }
}

fn partition_field_array<'a>(field: &Field, rows: &Vec<&Vec<(String, &'a Option<Literal>)>>) -> (column: Result<Column, ConnectorError>)
    ensures
        column_result(column) == partition_child(field.model(), tuple_models(rows@)),
{
    let ghost tuples = tuple_models(rows@);
    let mut values: Vec<Option<&PrimitiveLiteral>> = Vec::new();
    let mut i: usize = 0;
    assert(literal_models(values@) =~= Seq::<Option<LiteralModel>>::empty());
    while i < rows.len()
        invariant
            i <= rows.len(),
            tuples == tuple_models(rows@),
            partition_literals(tuples, field.name@, i as nat) == Ok::<Seq<Option<LiteralModel>>, ConnectorError>(
                literal_models(values@),
            ),
        decreases rows.len() - i,
    {
        let row = rows[i];
        let ghost before = values@;
        assert(tuples[i as int] == named_model(row@));
        let value: Option<&PrimitiveLiteral> = match find_named(row, &field.name) {
            None => None,
            Some(at) => match row[at].1 {
                None => None,
                Some(Literal::Primitive(literal)) => Some(literal),
                Some(Literal::Nested) => {
                    proof {
                        lemma_partition_literals_error(tuples, field.name@, (i + 1) as nat);
                    }
                    return Err(ConnectorError::Corrupt(CorruptData::NestedPartitionValue));
                },
            },
        };
        values.push(value);
        proof {
            let model = match value {
                Some(literal) => Some(literal.model()),
                None => None,
            };
            assert(literal_models(values@) =~= literal_models(before).push(model));
        }
        i += 1;
    }
    primitive_array(&field.data_type, &values)
}

/// Build the `partition` column.
pub fn partition_struct_array<'a>(row_type: &DataType, rows: &Vec<&Vec<(String, &'a Option<Literal>)>>) -> (column: Result<Column, ConnectorError>)
    ensures
        column_result(column) == partition_struct(row_type.model(), tuple_models(rows@)),
{
    match row_type {
        DataType::Struct(fields) => {
            proof {
                lemma_struct_model(*fields);
            }
            let ghost models = field_models(fields@);
            let ghost tuples = tuple_models(rows@);
            let mut children = new_columns();
            let mut i: usize = 0;
            while i < fields.len()
                invariant
                    i <= fields.len(),
                    models == field_models(fields@),
                    row_type.model() == DataTypeModel::Struct(models),
                    tuples == tuple_models(rows@),
                    partition_children(models, tuples, i as nat) == Ok::<Seq<ColumnModel>, ConnectorError>(
                        column_models(children@),
                    ),
                decreases fields.len() - i,
            {
                assert(models[i as int] == fields@[i as int].model());
                match partition_field_array(&fields[i], rows) {
                    Ok(column) => push_column(&mut children, column),
                    Err(error) => {
                        proof {
                            lemma_partition_children_error(models, tuples, (i + 1) as nat);
                        }
                        return Err(error);
                    },
                }
                i += 1;
            }
            row_column(fields, children, rows.len())
        },
        _ => Err(ConnectorError::Internal(InternalFault::PartitionRowNotStruct)),
    }
}

fn duplicate_fields(fields: &Vec<Field>) -> (copy: Vec<Field>)
    ensures
        field_models(copy@) == field_models(fields@),
{
    let mut copy: Vec<Field> = Vec::new();
    let mut i: usize = 0;
    while i < fields.len()
        invariant
            i <= fields.len(),
            copy@.len() == i,
            forall|k: int| 0 <= k < i ==> #[trigger] copy@[k].model() == fields@[k].model(),
        decreases fields.len() - i,
    {
        copy.push(fields[i].duplicate());
        i += 1;
    }
    assert(field_models(copy@) =~= field_models(fields@));
    copy
}

/// Put the columns of a row together.
pub fn row_column(fields: &Vec<Field>, children: Vec<Column>, length: usize) -> (column: Result<Column, ConnectorError>)
    ensures
        column_result(column) == row_of(field_models(fields@), column_models(children@), length as nat),
{
    let ghost models = field_models(fields@);
    let ghost columns = column_models(children@);
    if fields.len() == 0 || children.len() != fields.len() {
        assert(models.len() == fields@.len());
        assert(columns.len() == children@.len());
        return Err(ConnectorError::Internal(InternalFault::RowColumns));
    }
    let mut i: usize = 0;
    while i < fields.len()
        invariant
            i <= fields.len(),
            0 < fields.len(),
            children.len() == fields.len(),
            models == field_models(fields@),
            columns == column_models(children@),
            forall|k: int|
                0 <= k < i ==> child_fits(#[trigger] models[k], columns[k], length as nat),
        decreases fields.len() - i,
    {
        assert(models[i as int] == fields@[i as int].model());
        assert(columns[i as int] == children@[i as int].model());
        let field = &fields[i];
        let child = &children[i];
        if !child.carries(&field.data_type) || child.len() != length || (!field.nullable
            && child.has_null()) {
            assert(!child_fits(models[i as int], columns[i as int], length as nat));
            return Err(ConnectorError::Internal(InternalFault::RowColumns));
        }
        i += 1;
    }
    let fields = duplicate_fields(fields);
    proof {
        lemma_row_model(fields, children, length);
    }
    Ok(Column::Row { fields, children, length })
}

/// The literals of one bound in a list of rows: a row without that bound is null.
pub open spec fn bound_literals(rows: Seq<Seq<(i32, &Datum)>>, id: i32) -> Seq<Option<LiteralModel>> {
    rows.map_values(
        |row: Seq<(i32, &Datum)>|
            match get(row, id) {
                Some(datum) => Some(datum.literal.model()),
                None => None,
            },
    )
}

/// The columns of the first `n` bounds fields, each named by the id of the field it bounds.
pub open spec fn bounds_children(fields: Seq<CarrierModel>, rows: Seq<Seq<(i32, &Datum)>>, n: nat) -> Result<Seq<ColumnModel>, ConnectorError>
    decreases n,
{
    if n == 0 || n > fields.len() {
        Ok(seq![])
    } else {
        match bounds_children(fields, rows, (n - 1) as nat) {
            Err(error) => Err(error),
            Ok(before) => match parsed_i32(fields[n - 1].name) {
                None => Err(ConnectorError::Internal(InternalFault::BoundsFieldNotAnId)),
                Some(id) => match primitive_column(fields[n - 1].data_type, bound_literals(rows, id)) {
                    Err(error) => Err(error),
                    Ok(column) => Ok(before.push(column)),
                },
            },
        }
    }
}

/// The `lower_bounds` or `upper_bounds` column of a list of rows. The bound of an id that the
/// row type does not name has no field to land in.
pub open spec fn bounds_struct(data_type: DataTypeModel, rows: Seq<Seq<(i32, &Datum)>>) -> Result<ColumnModel, ConnectorError> {
    match data_type {
        DataTypeModel::Struct(fields) => match bounds_children(fields, rows, fields.len()) {
            Err(error) => Err(error),
            Ok(children) => row_of(fields, children, rows.len()),
        },
        _ => Err(ConnectorError::Internal(InternalFault::BoundsRowNotStruct)),
    }
}

/// The bounds of a list of rows as mathematical values.
pub open spec fn bound_models<'a>(rows: Seq<&Vec<(i32, &'a Datum)>>) -> Seq<Seq<(i32, &'a Datum)>> {
    rows.map_values(|row: &Vec<(i32, &'a Datum)>| row@)
}

proof fn lemma_bounds_children_error(fields: Seq<CarrierModel>, rows: Seq<Seq<(i32, &Datum)>>, n: nat)
    requires
        n <= fields.len(),
        bounds_children(fields, rows, n) is Err,
    ensures
        bounds_children(fields, rows, fields.len()) == bounds_children(fields, rows, n),
    decreases fields.len() - n,
{
    if n < fields.len() {
        lemma_bounds_children_error(fields, rows, n + 1);
    }
}

/// The column of one bound of a list of rows.
pub fn bound_array<'a>(data_type: &DataType, rows: &Vec<&Vec<(i32, &'a Datum)>>, id: i32) -> (column: Result<Column, ConnectorError>)
    ensures
        column_result(column) == primitive_column(
            data_type.model(),
            bound_literals(bound_models(rows@), id),
        ),
{
    let ghost literals = bound_literals(bound_models(rows@), id);
    let mut values: Vec<Option<&PrimitiveLiteral>> = Vec::new();
    let mut i: usize = 0;
    assert(literal_models(values@) =~= literals.take(0));
    while i < rows.len()
        invariant
            i <= rows.len(),
            literals == bound_literals(bound_models(rows@), id),
            literals.len() == rows.len(),
            literal_models(values@) == literals.take(i as int),
        decreases rows.len() - i,
    {
        let row = rows[i];
        let ghost before = values@;
        let value: Option<&PrimitiveLiteral> = match find_entry(row, id) {
            Some(at) => {
                let datum: &'a Datum = row[at].1;
                Some(&datum.literal)
            },
            None => None,
        };
        values.push(value);
        proof {
            assert(bound_models(rows@)[i as int] == row@);
            let model = match value {
                Some(literal) => Some(literal.model()),
                None => None,
            };
            assert(literals[i as int] == model);
            assert(literal_models(values@) =~= literal_models(before).push(model));
            assert(literals.take(i + 1) =~= literals.take(i as int).push(model));
        }
        i += 1;
    }
    assert(literals.take(i as int) =~= literals);
    primitive_array(data_type, &values)
}

/// Build the `lower_bounds` or `upper_bounds` column.
pub fn bounds_struct_array<'a>(row_type: &DataType, rows: &Vec<&Vec<(i32, &'a Datum)>>) -> (column: Result<Column, ConnectorError>)
    ensures
        column_result(column) == bounds_struct(row_type.model(), bound_models(rows@)),
{
    match row_type {
        DataType::Struct(fields) => {
            proof {
                lemma_struct_model(*fields);
            }
            let ghost models = field_models(fields@);
            let ghost bounds = bound_models(rows@);
            let mut children = new_columns();
            let mut i: usize = 0;
            while i < fields.len()
                invariant
                    i <= fields.len(),
                    models == field_models(fields@),
                    row_type.model() == DataTypeModel::Struct(models),
                    bounds == bound_models(rows@),
                    bounds_children(models, bounds, i as nat) == Ok::<Seq<ColumnModel>, ConnectorError>(
                        column_models(children@),
                    ),
                decreases fields.len() - i,
            {
                assert(models[i as int] == fields@[i as int].model());
                let child = match parse_i32(fields[i].name.as_str()) {
                    None => Err(ConnectorError::Internal(InternalFault::BoundsFieldNotAnId)),
                    Some(id) => bound_array(&fields[i].data_type, rows, id),
                };
                match child {
                    Ok(column) => push_column(&mut children, column),
                    Err(error) => {
                        proof {
                            lemma_bounds_children_error(models, bounds, (i + 1) as nat);
                        }
                        return Err(error);
                    },
                }
                i += 1;
            }
            row_column(fields, children, rows.len())
        },
        _ => Err(ConnectorError::Internal(InternalFault::BoundsRowNotStruct)),
    }
}

} // verus!
