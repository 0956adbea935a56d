//! A dynamic schema and entry storage engine.
//!
//! Users define tables and typed fields at runtime; the engine keeps a
//! logical catalog of that schema, mirrors every logical table as a
//! physical relation whose columns are derived from the field kinds,
//! encodes and decodes typed cell values at the storage boundary, and
//! compiles chart axis definitions into grouped, aggregated views.
//!
//! All physical names are generated from catalog-assigned integer ids,
//! never from user-supplied text, so the schema and query text the
//! engine emits is injection-safe by construction.

pub mod catalog;
pub mod cells;
pub mod decimal;
pub mod entries;
pub mod fields;
pub mod hierarchy;
pub mod ident;
pub mod import;
pub mod laws;
pub mod sql;
pub mod viz;

use vstd::prelude::*;

verus! {

/// Catalog-assigned identifier for tables, fields, charts, axes and entries.
pub type Id = i32;

/// How an operation failed, mirroring the boundary the engine reports to.
#[derive(Clone, Copy, PartialEq, Eq, Structural, Debug)]
pub enum ApiError {
    /// The addressed table, field or chart has no catalog row.
    NotFound,
    /// The entity exists but belongs to another user.
    Forbidden,
    /// A field-kind constraint was violated.
    Validation(ValidationError),
    /// A uniqueness constraint was violated (duplicate table or field name).
    Conflict,
    /// The underlying storage failed: a constraint rejected the write, a
    /// stored value did not match its column's type, or ids ran out.
    Storage,
}

/// Which field-kind constraint a validation rejected.
#[derive(Clone, Copy, PartialEq, Eq, Structural, Debug)]
pub enum ValidationError {
    /// A range's start bound is greater than its end bound.
    InvalidRange,
    /// An enumeration's default value is not a key of its value set.
    BadEnumerationDefault,
}

pub type ApiResult<T> = Result<T, ApiError>;

} // verus!
