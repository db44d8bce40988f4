//! Proving a column domain row by row.
//!
//! The domain's own type is the authority: a column whose carrier cannot give a value of that type
//! is never coerced.

use vstd::prelude::*;

use crate::carrier::{DataType, DataTypeModel, TimeUnit};
use crate::column::{cell_models, Cell, CellModel, Column, ColumnModel};
use crate::error::{ConnectorError, CorruptData};
use crate::system_columns::duplicate_bytes;

verus! {

/// The type of the values that a domain holds.
#[derive(Clone, Copy, Debug, PartialEq, Eq, Structural)]
pub enum ConnectorValueType {
    Boolean,
    Integer,
    BigInt,
    Real,
    Double,
    Decimal { precision: u8, scale: i8 },
    Date,
    TimeMicros,
    TimestampMicros,
    TimestampTzMicros,
    TimestampNanos,
    TimestampTzNanos,
    Varchar,
    Varbinary,
    Uuid,
    Fixed { width: u32 },
}

/// One exactly typed value. A floating-point value is held by its bits.
pub enum ConnectorValue {
    Boolean(bool),
    Integer(i32),
    BigInt(i64),
    Real(u32),
    Double(u64),
    Decimal { unscaled: i128, precision: u8, scale: i8 },
    Date(i32),
    TimeMicros(i64),
    TimestampMicros(i64),
    TimestampTzMicros(i64),
    TimestampNanos(i64),
    TimestampTzNanos(i64),
    Varchar(String),
    Varbinary(Vec<u8>),
    /// Sixteen bytes.
    Uuid(Vec<u8>),
    Fixed(Vec<u8>),
}

/// [`ConnectorValue`] as a mathematical value.
pub enum ConnectorValueModel {
    Boolean(bool),
    Integer(i32),
    BigInt(i64),
    Real(u32),
    Double(u64),
    Decimal { unscaled: i128, precision: u8, scale: i8 },
    Date(i32),
    TimeMicros(i64),
    TimestampMicros(i64),
    TimestampTzMicros(i64),
    TimestampNanos(i64),
    TimestampTzNanos(i64),
    Varchar(Seq<char>),
    Varbinary(Seq<u8>),
    Uuid(Seq<u8>),
    Fixed(Seq<u8>),
}

impl ConnectorValue {
    pub open spec fn model(self) -> ConnectorValueModel {
        match self {
            ConnectorValue::Boolean(value) => ConnectorValueModel::Boolean(value),
            ConnectorValue::Integer(value) => ConnectorValueModel::Integer(value),
            ConnectorValue::BigInt(value) => ConnectorValueModel::BigInt(value),
            ConnectorValue::Real(bits) => ConnectorValueModel::Real(bits),
            ConnectorValue::Double(bits) => ConnectorValueModel::Double(bits),
            ConnectorValue::Decimal { unscaled, precision, scale } => ConnectorValueModel::Decimal {
                unscaled,
                precision,
                scale,
            },
            ConnectorValue::Date(value) => ConnectorValueModel::Date(value),
            ConnectorValue::TimeMicros(value) => ConnectorValueModel::TimeMicros(value),
            ConnectorValue::TimestampMicros(value) => ConnectorValueModel::TimestampMicros(value),
            ConnectorValue::TimestampTzMicros(value) => ConnectorValueModel::TimestampTzMicros(
                value,
            ),
            ConnectorValue::TimestampNanos(value) => ConnectorValueModel::TimestampNanos(value),
            ConnectorValue::TimestampTzNanos(value) => ConnectorValueModel::TimestampTzNanos(value),
            ConnectorValue::Varchar(value) => ConnectorValueModel::Varchar(value@),
            ConnectorValue::Varbinary(value) => ConnectorValueModel::Varbinary(value@),
            ConnectorValue::Uuid(value) => ConnectorValueModel::Uuid(value@),
            ConnectorValue::Fixed(value) => ConnectorValueModel::Fixed(value@),
        }
    }
}

/// Whether a carrier gives values of a type. A timestamp is read by its resolution alone: its time
/// zone is the domain's business.
pub open spec fn gives(carrier: DataTypeModel, value_type: ConnectorValueType) -> bool {
    match value_type {
        ConnectorValueType::Boolean => carrier is Boolean,
        ConnectorValueType::Integer => carrier is Int32,
        ConnectorValueType::BigInt => carrier is Int64,
        ConnectorValueType::Real => carrier is Float32,
        ConnectorValueType::Double => carrier is Float64,
        ConnectorValueType::Decimal { .. } => carrier is Decimal128,
        ConnectorValueType::Date => carrier is Date32,
        ConnectorValueType::TimeMicros => carrier == DataTypeModel::Time64(TimeUnit::Microsecond),
        ConnectorValueType::TimestampMicros | ConnectorValueType::TimestampTzMicros => carrier matches DataTypeModel::Timestamp(
            unit,
            _,
        ) && unit == TimeUnit::Microsecond,
        ConnectorValueType::TimestampNanos | ConnectorValueType::TimestampTzNanos => carrier matches DataTypeModel::Timestamp(
            unit,
            _,
        ) && unit == TimeUnit::Nanosecond,
        ConnectorValueType::Varchar => carrier is Utf8 || carrier is LargeUtf8,
        ConnectorValueType::Varbinary => carrier is Binary || carrier is LargeBinary,
        ConnectorValueType::Uuid | ConnectorValueType::Fixed { .. } => carrier is FixedSizeBinary,
    }
}

/// The value of a cell as a type states it. A decimal takes its precision and its scale from the
/// domain; a UUID has sixteen bytes.
pub open spec fn typed_value(cell: CellModel, value_type: ConnectorValueType) -> Result<ConnectorValueModel, ConnectorError> {
    match (value_type, cell) {
        (ConnectorValueType::Boolean, CellModel::Boolean(value)) => Ok(
            ConnectorValueModel::Boolean(value),
        ),
        (ConnectorValueType::Integer, CellModel::Int32(value)) => Ok(
            ConnectorValueModel::Integer(value),
        ),
        (ConnectorValueType::BigInt, CellModel::Int64(value)) => Ok(
            ConnectorValueModel::BigInt(value),
        ),
        (ConnectorValueType::Real, CellModel::Float32(bits)) => Ok(ConnectorValueModel::Real(bits)),
        (ConnectorValueType::Double, CellModel::Float64(bits)) => Ok(
            ConnectorValueModel::Double(bits),
        ),
        (ConnectorValueType::Decimal { precision, scale }, CellModel::Int128(unscaled)) => Ok(
            ConnectorValueModel::Decimal { unscaled, precision, scale },
        ),
        (ConnectorValueType::Date, CellModel::Int32(value)) => Ok(ConnectorValueModel::Date(value)),
        (ConnectorValueType::TimeMicros, CellModel::Int64(value)) => Ok(
            ConnectorValueModel::TimeMicros(value),
        ),
        (ConnectorValueType::TimestampMicros, CellModel::Int64(value)) => Ok(
            ConnectorValueModel::TimestampMicros(value),
        ),
        (ConnectorValueType::TimestampTzMicros, CellModel::Int64(value)) => Ok(
            ConnectorValueModel::TimestampTzMicros(value),
        ),
        (ConnectorValueType::TimestampNanos, CellModel::Int64(value)) => Ok(
            ConnectorValueModel::TimestampNanos(value),
        ),
        (ConnectorValueType::TimestampTzNanos, CellModel::Int64(value)) => Ok(
            ConnectorValueModel::TimestampTzNanos(value),
        ),
        (ConnectorValueType::Varchar, CellModel::Text(value)) => Ok(
            ConnectorValueModel::Varchar(value),
        ),
        (ConnectorValueType::Varbinary, CellModel::Bytes(value)) => Ok(
            ConnectorValueModel::Varbinary(value),
        ),
        (ConnectorValueType::Uuid, CellModel::Bytes(value)) => if value.len() == 16 {
            Ok(ConnectorValueModel::Uuid(value))
        } else {
            Err(ConnectorError::Corrupt(CorruptData::UuidWidth))
        },
        (ConnectorValueType::Fixed { .. }, CellModel::Bytes(value)) => Ok(
            ConnectorValueModel::Fixed(value),
        ),
        _ => Err(ConnectorError::Corrupt(CorruptData::PredicateCarrier)),
    }
}

/// The value of a row of a column as a type states it, or why there is none.
pub open spec fn value_at(column: ColumnModel, value_type: ConnectorValueType, row: int) -> Result<ConnectorValueModel, ConnectorError> {
    match column {
        ColumnModel::Flat { data_type, cells } => if !gives(data_type, value_type) {
            Err(ConnectorError::Corrupt(CorruptData::PredicateCarrier))
        } else {
            typed_value(cells[row], value_type)
        },
        ColumnModel::Row { .. } => Err(ConnectorError::Corrupt(CorruptData::PredicateCarrier)),
    }
}

fn carrier_gives(carrier: &DataType, value_type: ConnectorValueType) -> (gives_: bool)
    ensures
        gives_ == gives(carrier.model(), value_type),
{
    match value_type {
        ConnectorValueType::Boolean => matches!(carrier, DataType::Boolean),
        ConnectorValueType::Integer => matches!(carrier, DataType::Int32),
        ConnectorValueType::BigInt => matches!(carrier, DataType::Int64),
        ConnectorValueType::Real => matches!(carrier, DataType::Float32),
        ConnectorValueType::Double => matches!(carrier, DataType::Float64),
        ConnectorValueType::Decimal { precision: _, scale: _ } => matches!(carrier, DataType::Decimal128(_, _)),
        ConnectorValueType::Date => matches!(carrier, DataType::Date32),
        ConnectorValueType::TimeMicros => matches!(carrier, DataType::Time64(TimeUnit::Microsecond)),
        ConnectorValueType::TimestampMicros | ConnectorValueType::TimestampTzMicros => {
            matches!(carrier, DataType::Timestamp(TimeUnit::Microsecond, _))
        },
        ConnectorValueType::TimestampNanos | ConnectorValueType::TimestampTzNanos => {
            matches!(carrier, DataType::Timestamp(TimeUnit::Nanosecond, _))
        },
        ConnectorValueType::Varchar => matches!(carrier, DataType::Utf8 | DataType::LargeUtf8),
        ConnectorValueType::Varbinary => matches!(carrier, DataType::Binary | DataType::LargeBinary),
        ConnectorValueType::Uuid | ConnectorValueType::Fixed { width: _ } => matches!(
            carrier,
            DataType::FixedSizeBinary(_)
        ),
    }
}

/// A value, or why there is none, as a mathematical value.
pub open spec fn value_result(result: Result<ConnectorValue, ConnectorError>) -> Result<ConnectorValueModel, ConnectorError> {
    match result {
        Ok(value) => Ok(value.model()),
        Err(error) => Err(error),
    }
}

fn cell_value(cell: &Cell, value_type: ConnectorValueType) -> (value: Result<ConnectorValue, ConnectorError>)
    ensures
        value_result(value) == typed_value(cell.model(), value_type),
{
    match (value_type, cell) {
        (ConnectorValueType::Boolean, Cell::Boolean(value)) => Ok(ConnectorValue::Boolean(*value)),
        (ConnectorValueType::Integer, Cell::Int32(value)) => Ok(ConnectorValue::Integer(*value)),
        (ConnectorValueType::BigInt, Cell::Int64(value)) => Ok(ConnectorValue::BigInt(*value)),
        (ConnectorValueType::Real, Cell::Float32(bits)) => Ok(ConnectorValue::Real(*bits)),
        (ConnectorValueType::Double, Cell::Float64(bits)) => Ok(ConnectorValue::Double(*bits)),
        (ConnectorValueType::Decimal { precision, scale }, Cell::Int128(unscaled)) => Ok(
            ConnectorValue::Decimal { unscaled: *unscaled, precision, scale },
        ),
        (ConnectorValueType::Date, Cell::Int32(value)) => Ok(ConnectorValue::Date(*value)),
        (ConnectorValueType::TimeMicros, Cell::Int64(value)) => Ok(
            ConnectorValue::TimeMicros(*value),
        ),
        (ConnectorValueType::TimestampMicros, Cell::Int64(value)) => Ok(
            ConnectorValue::TimestampMicros(*value),
        ),
        (ConnectorValueType::TimestampTzMicros, Cell::Int64(value)) => Ok(
            ConnectorValue::TimestampTzMicros(*value),
        ),
        (ConnectorValueType::TimestampNanos, Cell::Int64(value)) => Ok(
            ConnectorValue::TimestampNanos(*value),
        ),
        (ConnectorValueType::TimestampTzNanos, Cell::Int64(value)) => Ok(
            ConnectorValue::TimestampTzNanos(*value),
        ),
        (ConnectorValueType::Varchar, Cell::Text(value)) => Ok(
            ConnectorValue::Varchar(value.clone()),
        ),
        (ConnectorValueType::Varbinary, Cell::Bytes(value)) => Ok(
            ConnectorValue::Varbinary(duplicate_bytes(value)),
        ),
        (ConnectorValueType::Uuid, Cell::Bytes(value)) => {
            if value.len() == 16 {
                Ok(ConnectorValue::Uuid(duplicate_bytes(value)))
            } else {
                Err(ConnectorError::Corrupt(CorruptData::UuidWidth))
            }
        },
        (ConnectorValueType::Fixed { width: _ }, Cell::Bytes(value)) => Ok(
            ConnectorValue::Fixed(duplicate_bytes(value)),
        ),
        _ => Err(ConnectorError::Corrupt(CorruptData::PredicateCarrier)),
    }
}

/// Read one exactly typed value out of a column.
pub fn connector_value_at(column: &Column, value_type: ConnectorValueType, row: usize) -> (value: Result<ConnectorValue, ConnectorError>)
    requires
        row < column.model().spec_len(),
    ensures
        value_result(value) == value_at(column.model(), value_type, row as int),
{
    match column {
        Column::Flat { data_type, cells } => {
            if !carrier_gives(data_type, value_type) {
                return Err(ConnectorError::Corrupt(CorruptData::PredicateCarrier));
            }
            assert(cell_models(cells@)[row as int] == cells@[row as int].model());
            cell_value(&cells[row], value_type)
        },
        Column::Row { fields: _, children: _, length: _ } => Err(
            ConnectorError::Corrupt(CorruptData::PredicateCarrier),
        ),
    }
}

/// The domain of one column: the type of its values and whether a null is in it.
#[derive(Clone, Copy, Debug, PartialEq, Eq, Structural)]
pub struct Domain {
    pub value_type: ConnectorValueType,
    pub null_allowed: bool,
}

/// What the value set of a domain says of the value of each row: of a null row it says nothing.
pub type Memberships = Vec<Result<bool, ConnectorError>>;

/// Whether a row of a column is null. The rows of a column of rows are all there.
pub open spec fn is_null_at(column: ColumnModel, row: int) -> bool {
    match column {
        ColumnModel::Flat { data_type: _, cells } => cells[row] is Null,
        ColumnModel::Row { .. } => false,
    }
}

/// Whether a row is in a domain, given what the value set says of its value, or why that cannot be
/// told.
pub open spec fn row_in_domain(
    column: ColumnModel,
    domain: Domain,
    memberships: Seq<Result<bool, ConnectorError>>,
    row: int,
) -> Result<bool, ConnectorError> {
    if is_null_at(column, row) {
        Ok(domain.null_allowed)
    } else {
        match value_at(column, domain.value_type, row) {
            Err(error) => Err(error),
            Ok(_) => memberships[row],
        }
    }
}

fn null_at(column: &Column, row: usize) -> (null: bool)
    requires
        row < column.model().spec_len(),
    ensures
        null == is_null_at(column.model(), row as int),
{
    match column {
        Column::Flat { data_type: _, cells } => {
            assert(cell_models(cells@)[row as int] == cells@[row as int].model());
            matches!(cells[row], Cell::Null)
        },
        Column::Row { fields: _, children: _, length: _ } => false,
    }
}

/// Prove one column domain row by row: the verdict of every row, or the first failure.
pub fn evaluate_domain(column: &Column, domain: &Domain, memberships: &Memberships) -> (keep: Result<Vec<bool>, ConnectorError>)
    requires
        memberships@.len() == column.model().spec_len(),
    ensures
        match keep {
            Ok(keep) => keep@.len() == column.model().spec_len() && forall|row: int|
                0 <= row < keep@.len() ==> Ok::<bool, ConnectorError>(#[trigger] keep@[row])
                    == row_in_domain(column.model(), *domain, memberships@, row),
            Err(error) => exists|row: int|
                0 <= row < column.model().spec_len() && #[trigger] row_in_domain(
                    column.model(),
                    *domain,
                    memberships@,
                    row,
                ) == Err::<bool, ConnectorError>(error) && forall|k: int|
                    0 <= k < row ==> #[trigger] row_in_domain(
                        column.model(),
                        *domain,
                        memberships@,
                        k,
                    ) is Ok,
        },
{
    let rows: usize = column.len();
    let mut keep: Vec<bool> = Vec::new();
    let mut row: usize = 0;
    while row < rows
        invariant
            row <= rows,
            rows == column.model().spec_len(),
            memberships@.len() == rows,
            keep@.len() == row,
            forall|k: int|
                0 <= k < row ==> Ok::<bool, ConnectorError>(#[trigger] keep@[k]) == row_in_domain(
                    column.model(),
                    *domain,
                    memberships@,
                    k,
                ),
            forall|k: int|
                0 <= k < row ==> #[trigger] row_in_domain(
                    column.model(),
                    *domain,
                    memberships@,
                    k,
                ) is Ok,
        decreases rows - row,
    {
        let ghost verdict = row_in_domain(column.model(), *domain, memberships@, row as int);
        if null_at(column, row) {
            keep.push(domain.null_allowed);
        } else {
            match connector_value_at(column, domain.value_type, row) {
                Err(error) => {
                    assert(verdict == Err::<bool, ConnectorError>(error));
                    return Err(error);
                },
                Ok(_) => {},
            }
            match memberships[row] {
                Err(error) => {
                    assert(verdict == Err::<bool, ConnectorError>(error));
                    return Err(error);
                },
                Ok(member) => keep.push(member),
            }
        }
        row += 1;
    }
    Ok(keep)
}

/// A null is in a domain exactly when the domain admits nulls, whatever its values are.
pub proof fn law_nulls_follow_the_domain(
    column: ColumnModel,
    domain: Domain,
    memberships: Seq<Result<bool, ConnectorError>>,
    row: int,
)
    requires
        is_null_at(column, row),
    ensures
        row_in_domain(column, domain, memberships, row) == Ok::<bool, ConnectorError>(
            domain.null_allowed,
        ),
{
}

} // verus!
