//! Typed cell values and the codec between cells and physical storage.
//!
//! A cell is one value of an entry, tagged with the field kind it
//! belongs to. The physical layer stores untagged column values; the
//! codec maps each field kind to its column type, encodes a cell into a
//! column value, and decodes a column value back into a cell under the
//! field's kind. A column value that cannot be read back under the
//! expected kind signals corrupted storage.

use vstd::prelude::*;

use crate::decimal::ScaledDecimal;
use crate::fields::{is_required_spec, FieldOptions, IntervalValue, Timestamp};
use crate::ApiError;

verus! {

/// One typed value of an entry, matching a field kind's variant.
#[derive(Clone, PartialEq, Debug)]
pub enum Cell {
    Text(String),
    Integer(i64),
    Decimal(ScaledDecimal),
    Money(ScaledDecimal),
    Progress(i64),
    DateTime(Timestamp),
    Interval(IntervalValue),
    WebLink(String),
    Email(String),
    Checkbox(bool),
    Enumeration(i64),
}

/// The mathematical value of a cell: text as character sequences.
pub enum CellModel {
    Text(Seq<char>),
    Integer(i64),
    Decimal(ScaledDecimal),
    Money(ScaledDecimal),
    Progress(i64),
    DateTime(Timestamp),
    Interval(IntervalValue),
    WebLink(Seq<char>),
    Email(Seq<char>),
    Checkbox(bool),
    Enumeration(i64),
}

impl View for Cell {
    type V = CellModel;

    open spec fn view(&self) -> CellModel {
        match self {
            Cell::Text(s) => CellModel::Text(s@),
            Cell::Integer(n) => CellModel::Integer(*n),
            Cell::Decimal(d) => CellModel::Decimal(*d),
            Cell::Money(d) => CellModel::Money(*d),
            Cell::Progress(n) => CellModel::Progress(*n),
            Cell::DateTime(t) => CellModel::DateTime(*t),
            Cell::Interval(v) => CellModel::Interval(*v),
            Cell::WebLink(s) => CellModel::WebLink(s@),
            Cell::Email(s) => CellModel::Email(s@),
            Cell::Checkbox(b) => CellModel::Checkbox(*b),
            Cell::Enumeration(n) => CellModel::Enumeration(*n),
        }
    }
}

/// The closed set of physical column types a field kind can map to.
#[derive(Clone, Copy, PartialEq, Eq, Structural, Debug)]
pub enum ColumnType {
    Text,
    BigInt,
    DoublePrecision,
    Numeric,
    Timestamptz,
    Interval,
    Boolean,
}

/// An untagged value as the physical layer stores it.
#[derive(Clone, PartialEq, Debug)]
pub enum PhysValue {
    Text(String),
    BigInt(i64),
    Double(ScaledDecimal),
    Numeric(ScaledDecimal),
    Timestamptz(Timestamp),
    Interval(IntervalValue),
    Boolean(bool),
}

/// The mathematical value of a stored column value.
pub enum PhysValueModel {
    Text(Seq<char>),
    BigInt(i64),
    Double(ScaledDecimal),
    Numeric(ScaledDecimal),
    Timestamptz(Timestamp),
    Interval(IntervalValue),
    Boolean(bool),
}

impl View for PhysValue {
    type V = PhysValueModel;

    open spec fn view(&self) -> PhysValueModel {
        match self {
            PhysValue::Text(s) => PhysValueModel::Text(s@),
            PhysValue::BigInt(n) => PhysValueModel::BigInt(*n),
            PhysValue::Double(d) => PhysValueModel::Double(*d),
            PhysValue::Numeric(d) => PhysValueModel::Numeric(*d),
            PhysValue::Timestamptz(t) => PhysValueModel::Timestamptz(*t),
            PhysValue::Interval(v) => PhysValueModel::Interval(*v),
            PhysValue::Boolean(b) => PhysValueModel::Boolean(*b),
        }
    }
}

/// The column type a field kind's values are stored in.
pub open spec fn column_type_spec(o: FieldOptions) -> ColumnType {
    match o {
        FieldOptions::Text { .. } => ColumnType::Text,
        FieldOptions::Integer { .. } => ColumnType::BigInt,
        FieldOptions::Decimal { .. } => ColumnType::DoublePrecision,
        FieldOptions::Money { .. } => ColumnType::Numeric,
        FieldOptions::Progress { .. } => ColumnType::BigInt,
        FieldOptions::DateTime { .. } => ColumnType::Timestamptz,
        FieldOptions::Interval { .. } => ColumnType::Interval,
        FieldOptions::WebLink { .. } => ColumnType::Text,
        FieldOptions::Email { .. } => ColumnType::Text,
        FieldOptions::Checkbox => ColumnType::Boolean,
        FieldOptions::Enumeration { .. } => ColumnType::BigInt,
    }
}

/// The column type and nullability of a field kind: values of the kind
/// are stored in that column type, and the column admits null exactly
/// when the kind is not required.
pub fn physical_type_for(o: &FieldOptions) -> (r: (ColumnType, bool))
    ensures
        r.0 == column_type_spec(*o),
        r.1 == !is_required_spec(*o),
{
    let t = match o {
        FieldOptions::Text { .. } => ColumnType::Text,
        FieldOptions::Integer { .. } => ColumnType::BigInt,
        FieldOptions::Decimal { .. } => ColumnType::DoublePrecision,
        FieldOptions::Money { .. } => ColumnType::Numeric,
        FieldOptions::Progress { .. } => ColumnType::BigInt,
        FieldOptions::DateTime { .. } => ColumnType::Timestamptz,
        FieldOptions::Interval { .. } => ColumnType::Interval,
        FieldOptions::WebLink { .. } => ColumnType::Text,
        FieldOptions::Email { .. } => ColumnType::Text,
        FieldOptions::Checkbox => ColumnType::Boolean,
        FieldOptions::Enumeration { .. } => ColumnType::BigInt,
    };
    (t, !o.is_required())
}

/// Whether a cell's variant matches a field kind's variant.
pub open spec fn cell_matches(c: CellModel, o: FieldOptions) -> bool {
    match (c, o) {
        (CellModel::Text(_), FieldOptions::Text { .. }) => true,
        (CellModel::Integer(_), FieldOptions::Integer { .. }) => true,
        (CellModel::Decimal(_), FieldOptions::Decimal { .. }) => true,
        (CellModel::Money(_), FieldOptions::Money { .. }) => true,
        (CellModel::Progress(_), FieldOptions::Progress { .. }) => true,
        (CellModel::DateTime(_), FieldOptions::DateTime { .. }) => true,
        (CellModel::Interval(_), FieldOptions::Interval { .. }) => true,
        (CellModel::WebLink(_), FieldOptions::WebLink { .. }) => true,
        (CellModel::Email(_), FieldOptions::Email { .. }) => true,
        (CellModel::Checkbox(_), FieldOptions::Checkbox) => true,
        (CellModel::Enumeration(_), FieldOptions::Enumeration { .. }) => true,
        _ => false,
    }
}

/// Whether a cell's variant matches a field kind's variant.
pub fn cell_matches_options(c: &Cell, o: &FieldOptions) -> (r: bool)
    ensures
        r == cell_matches(c@, *o),
{
    match (c, o) {
        (Cell::Text(_), FieldOptions::Text { .. }) => true,
        (Cell::Integer(_), FieldOptions::Integer { .. }) => true,
        (Cell::Decimal(_), FieldOptions::Decimal { .. }) => true,
        (Cell::Money(_), FieldOptions::Money { .. }) => true,
        (Cell::Progress(_), FieldOptions::Progress { .. }) => true,
        (Cell::DateTime(_), FieldOptions::DateTime { .. }) => true,
        (Cell::Interval(_), FieldOptions::Interval { .. }) => true,
        (Cell::WebLink(_), FieldOptions::WebLink { .. }) => true,
        (Cell::Email(_), FieldOptions::Email { .. }) => true,
        (Cell::Checkbox(_), FieldOptions::Checkbox) => true,
        (Cell::Enumeration(_), FieldOptions::Enumeration { .. }) => true,
        _ => false,
    }
}

/// How a cell is stored: text kinds share the text column type, the
/// integer-like kinds share the 64-bit integer column type, and each
/// remaining kind has a column type of its own.
pub open spec fn spec_encode(c: CellModel) -> PhysValueModel {
    match c {
        CellModel::Text(s) => PhysValueModel::Text(s),
        CellModel::Integer(n) => PhysValueModel::BigInt(n),
        CellModel::Decimal(d) => PhysValueModel::Double(d),
        CellModel::Money(d) => PhysValueModel::Numeric(d),
        CellModel::Progress(n) => PhysValueModel::BigInt(n),
        CellModel::DateTime(t) => PhysValueModel::Timestamptz(t),
        CellModel::Interval(v) => PhysValueModel::Interval(v),
        CellModel::WebLink(s) => PhysValueModel::Text(s),
        CellModel::Email(s) => PhysValueModel::Text(s),
        CellModel::Checkbox(b) => PhysValueModel::Boolean(b),
        CellModel::Enumeration(n) => PhysValueModel::BigInt(n),
    }
}

/// Encodes a cell into the column value that stores it.
pub fn encode(c: Cell) -> (v: PhysValue)
    ensures
        v@ == spec_encode(c@),
{
    match c {
        Cell::Text(s) => PhysValue::Text(s),
        Cell::Integer(n) => PhysValue::BigInt(n),
        Cell::Decimal(d) => PhysValue::Double(d),
        Cell::Money(d) => PhysValue::Numeric(d),
        Cell::Progress(n) => PhysValue::BigInt(n),
        Cell::DateTime(t) => PhysValue::Timestamptz(t),
        Cell::Interval(v) => PhysValue::Interval(v),
        Cell::WebLink(s) => PhysValue::Text(s),
        Cell::Email(s) => PhysValue::Text(s),
        Cell::Checkbox(b) => PhysValue::Boolean(b),
        Cell::Enumeration(n) => PhysValue::BigInt(n),
    }
}

/// What reading a stored column value back under a field kind yields:
/// the cell it encodes, or an error when the stored variant cannot be
/// a value of that kind.
pub open spec fn spec_decode(o: FieldOptions, v: PhysValueModel) -> Result<CellModel, ApiError> {
    match (o, v) {
        (FieldOptions::Text { .. }, PhysValueModel::Text(s)) => Ok(CellModel::Text(s)),
        (FieldOptions::Integer { .. }, PhysValueModel::BigInt(n)) => Ok(CellModel::Integer(n)),
        (FieldOptions::Decimal { .. }, PhysValueModel::Double(d)) => Ok(CellModel::Decimal(d)),
        (FieldOptions::Money { .. }, PhysValueModel::Numeric(d)) => Ok(CellModel::Money(d)),
        (FieldOptions::Progress { .. }, PhysValueModel::BigInt(n)) => Ok(CellModel::Progress(n)),
        (FieldOptions::DateTime { .. }, PhysValueModel::Timestamptz(t)) => Ok(
            CellModel::DateTime(t),
        ),
        (FieldOptions::Interval { .. }, PhysValueModel::Interval(iv)) => Ok(
            CellModel::Interval(iv),
        ),
        (FieldOptions::WebLink { .. }, PhysValueModel::Text(s)) => Ok(CellModel::WebLink(s)),
        (FieldOptions::Email { .. }, PhysValueModel::Text(s)) => Ok(CellModel::Email(s)),
        (FieldOptions::Checkbox, PhysValueModel::Boolean(b)) => Ok(CellModel::Checkbox(b)),
        (FieldOptions::Enumeration { .. }, PhysValueModel::BigInt(n)) => Ok(
            CellModel::Enumeration(n),
        ),
        _ => Err(ApiError::Storage),
    }
}

/// Reads a stored column value back as a cell of the field's kind.
/// A variant mismatch is corrupted storage, not a user error.
pub fn decode(o: &FieldOptions, v: &PhysValue) -> (r: Result<Cell, ApiError>)
    ensures
        spec_decode(*o, v@) matches Ok(cm) ==> r matches Ok(c) && c@ == cm,
        spec_decode(*o, v@) matches Err(e) ==> r == Err::<Cell, ApiError>(e),
{
    match (o, v) {
        (FieldOptions::Text { .. }, PhysValue::Text(s)) => Ok(Cell::Text(s.clone())),
        (FieldOptions::Integer { .. }, PhysValue::BigInt(n)) => Ok(Cell::Integer(*n)),
        (FieldOptions::Decimal { .. }, PhysValue::Double(d)) => Ok(Cell::Decimal(*d)),
        (FieldOptions::Money { .. }, PhysValue::Numeric(d)) => Ok(Cell::Money(*d)),
        (FieldOptions::Progress { .. }, PhysValue::BigInt(n)) => Ok(Cell::Progress(*n)),
        (FieldOptions::DateTime { .. }, PhysValue::Timestamptz(t)) => Ok(Cell::DateTime(*t)),
        (FieldOptions::Interval { .. }, PhysValue::Interval(iv)) => Ok(Cell::Interval(*iv)),
        (FieldOptions::WebLink { .. }, PhysValue::Text(s)) => Ok(Cell::WebLink(s.clone())),
        (FieldOptions::Email { .. }, PhysValue::Text(s)) => Ok(Cell::Email(s.clone())),
        (FieldOptions::Checkbox, PhysValue::Boolean(b)) => Ok(Cell::Checkbox(*b)),
        (FieldOptions::Enumeration { .. }, PhysValue::BigInt(n)) => Ok(Cell::Enumeration(*n)),
        _ => Err(ApiError::Storage),
    }
}

/// The schema-text name of a column type.
pub open spec fn spec_column_type_sql(t: ColumnType) -> Seq<char> {
    match t {
        ColumnType::Text => "TEXT"@,
        ColumnType::BigInt => "BIGINT"@,
        ColumnType::DoublePrecision => "DOUBLE PRECISION"@,
        ColumnType::Numeric => "NUMERIC"@,
        ColumnType::Timestamptz => "TIMESTAMPTZ"@,
        ColumnType::Interval => "INTERVAL"@,
        ColumnType::Boolean => "BOOLEAN"@,
    }
}

/// The schema-text name of a column type.
pub fn column_type_sql(t: ColumnType) -> (r: &'static str)
    ensures
        r@ == spec_column_type_sql(t),
{
    match t {
        ColumnType::Text => "TEXT",
        ColumnType::BigInt => "BIGINT",
        ColumnType::DoublePrecision => "DOUBLE PRECISION",
        ColumnType::Numeric => "NUMERIC",
        ColumnType::Timestamptz => "TIMESTAMPTZ",
        ColumnType::Interval => "INTERVAL",
        ColumnType::Boolean => "BOOLEAN",
    }
}

/// Whether a stored value's variant belongs to a column type.
pub open spec fn value_matches_column(v: PhysValueModel, t: ColumnType) -> bool {
    match (v, t) {
        (PhysValueModel::Text(_), ColumnType::Text) => true,
        (PhysValueModel::BigInt(_), ColumnType::BigInt) => true,
        (PhysValueModel::Double(_), ColumnType::DoublePrecision) => true,
        (PhysValueModel::Numeric(_), ColumnType::Numeric) => true,
        (PhysValueModel::Timestamptz(_), ColumnType::Timestamptz) => true,
        (PhysValueModel::Interval(_), ColumnType::Interval) => true,
        (PhysValueModel::Boolean(_), ColumnType::Boolean) => true,
        _ => false,
    }
}

/// Encoding and decoding are exact inverses: decoding an encoded cell
/// under the kind it matches gives the cell back, unchanged. Nothing is
/// rounded or truncated on the way to storage and back.
pub proof fn lemma_codec_round_trip(o: FieldOptions, c: CellModel)
    requires
        cell_matches(c, o),
    ensures
        spec_decode(o, spec_encode(c)) == Ok::<CellModel, ApiError>(c),
{
}

/// A cell that matches a kind encodes into a value of that kind's
/// column type, so a write through the codec keeps every column well
/// typed.
pub proof fn lemma_encode_column_type(o: FieldOptions, c: CellModel)
    requires
        cell_matches(c, o),
    ensures
        value_matches_column(spec_encode(c), column_type_spec(o)),
{
}

/// A stored value decodes under a kind exactly when its variant belongs
/// to the kind's column type: a well-typed column never signals
/// corruption.
pub proof fn lemma_decode_total_on_typed(o: FieldOptions, v: PhysValueModel)
    requires
        value_matches_column(v, column_type_spec(o)),
    ensures
        spec_decode(o, v) is Ok,
{
}

} // verus!
