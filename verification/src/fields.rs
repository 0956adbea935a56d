//! Field kinds and their validation.
//!
//! A field's kind is a closed, tagged set of variants, each carrying its
//! own constraint parameters. The kind fully determines the physical
//! column type and nullability of the field's column; it is fixed at
//! field creation, and every kind is validated here before it reaches
//! the catalog.

use vstd::prelude::*;

use crate::decimal::ScaledDecimal;
use crate::{ApiError, ApiResult, Id, ValidationError};

verus! {

/// A moment in time, counted in microseconds from an epoch.
pub type Timestamp = i64;

/// A span of time, split the way the physical interval type stores it.
#[derive(Clone, Copy, PartialEq, Eq, Structural, Debug)]
pub struct IntervalValue {
    pub months: i32,
    pub days: i32,
    pub microseconds: i64,
}

/// A value that can serve as an endpoint of a field's range constraint.
pub trait RangeBound: Sized {
    /// What the endpoint must satisfy for the comparison to be exact.
    spec fn bound_wf(&self) -> bool;

    /// The order the executable comparison decides.
    spec fn le_spec(&self, other: &Self) -> bool;

    fn bound_le(&self, other: &Self) -> (r: bool)
        requires
            self.bound_wf(),
            other.bound_wf(),
        ensures
            r == self.le_spec(other),
    ;
}

impl RangeBound for i64 {
    open spec fn bound_wf(&self) -> bool {
        true
    }

    open spec fn le_spec(&self, other: &Self) -> bool {
        *self <= *other
    }

    fn bound_le(&self, other: &Self) -> (r: bool) {
        *self <= *other
    }
}

impl RangeBound for ScaledDecimal {
    open spec fn bound_wf(&self) -> bool {
        self.wf()
    }

    open spec fn le_spec(&self, other: &Self) -> bool {
        ScaledDecimal::le_spec(*self, *other)
    }

    fn bound_le(&self, other: &Self) -> (r: bool) {
        self.le(other)
    }
}

/// Whether an optional range is well formed: when both endpoints are
/// present the start must not exceed the end.
pub open spec fn range_ok<T: RangeBound>(range_start: Option<T>, range_end: Option<T>) -> bool {
    match (range_start, range_end) {
        (Some(s), Some(e)) => s.le_spec(&e),
        _ => true,
    }
}

/// Rejects a range whose start bound is greater than its end bound.
pub fn validate_range<T: RangeBound>(range_start: Option<T>, range_end: Option<T>) -> (r:
    ApiResult<()>)
    requires
        range_start matches Some(s) ==> s.bound_wf(),
        range_end matches Some(e) ==> e.bound_wf(),
    ensures
        r == if range_ok(range_start, range_end) {
            Ok::<(), ApiError>(())
        } else {
            Err::<(), ApiError>(ApiError::Validation(ValidationError::InvalidRange))
        },
{
    match (&range_start, &range_end) {
        (Some(s), Some(e)) => {
            if s.bound_le(e) {
                Ok(())
            } else {
                Err(ApiError::Validation(ValidationError::InvalidRange))
            }
        },
        _ => Ok(()),
    }
}

/// The closed set of field kinds, each with its constraint parameters.
///
/// Decimal and money endpoints are fixed-point numbers; timestamps are
/// microsecond counts. An enumeration maps integer keys to display
/// labels and names one key as its default.
#[derive(Clone, PartialEq, Debug)]
pub enum FieldOptions {
    Text { is_required: bool },
    Integer { is_required: bool, range_start: Option<i64>, range_end: Option<i64> },
    Decimal {
        is_required: bool,
        range_start: Option<ScaledDecimal>,
        range_end: Option<ScaledDecimal>,
        scientific_notation: bool,
        number_precision: Option<i64>,
        number_scale: Option<i64>,
    },
    Money { is_required: bool, range_start: Option<ScaledDecimal>, range_end: Option<ScaledDecimal> },
    Progress { total_steps: i64 },
    DateTime {
        is_required: bool,
        range_start: Option<Timestamp>,
        range_end: Option<Timestamp>,
        date_time_format: String,
    },
    Interval { is_required: bool },
    WebLink { is_required: bool },
    Email { is_required: bool },
    Checkbox,
    Enumeration { is_required: bool, values: Vec<(i64, String)>, default_value: i64 },
}

/// Decimal and money endpoints must be comparable exactly.
pub open spec fn options_wf(o: FieldOptions) -> bool {
    match o {
        FieldOptions::Decimal { range_start, range_end, .. } => (range_start matches Some(s)
            ==> s.wf()) && (range_end matches Some(e) ==> e.wf()),
        FieldOptions::Money { range_start, range_end, .. } => (range_start matches Some(s)
            ==> s.wf()) && (range_end matches Some(e) ==> e.wf()),
        _ => true,
    }
}

/// Whether an enumeration's value set contains `key`.
pub open spec fn enum_has_key(values: Seq<(i64, String)>, key: i64) -> bool {
    exists|i: int| 0 <= i < values.len() && values[i].0 == key
}

fn enum_values_contain(values: &Vec<(i64, String)>, key: i64) -> (r: bool)
    ensures
        r == enum_has_key(values@, key),
{
    let mut i: usize = 0;
    while i < values.len()
        invariant
            i <= values.len(),
            forall|j: int| 0 <= j < i ==> values@[j].0 != key,
        decreases values.len() - i,
    {
        if values[i].0 == key {
            return true;
        }
        i = i + 1;
    }
    false
}

/// What validation decides for a kind: the kind to store (with clamped
/// parameters) or the constraint that failed.
///
/// Numeric, money and date ranges must have `start <= end` when both
/// endpoints are present; a progress bar has at least one step; decimal
/// precision and scale are clamped to at least 1 and 0; an enumeration's
/// default must be one of its keys.
pub open spec fn validate_result(o: FieldOptions) -> Result<FieldOptions, ValidationError> {
    match o {
        FieldOptions::Integer { range_start, range_end, .. } => {
            if range_ok(range_start, range_end) {
                Ok(o)
            } else {
                Err(ValidationError::InvalidRange)
            }
        },
        FieldOptions::Decimal {
            is_required,
            range_start,
            range_end,
            scientific_notation,
            number_precision,
            number_scale,
        } => {
            if range_ok(range_start, range_end) {
                Ok(
                    FieldOptions::Decimal {
                        is_required,
                        range_start,
                        range_end,
                        scientific_notation,
                        number_precision: clamp_min(number_precision, 1),
                        number_scale: clamp_min(number_scale, 0),
                    },
                )
            } else {
                Err(ValidationError::InvalidRange)
            }
        },
        FieldOptions::Money { range_start, range_end, .. } => {
            if range_ok(range_start, range_end) {
                Ok(o)
            } else {
                Err(ValidationError::InvalidRange)
            }
        },
        FieldOptions::Progress { total_steps } => {
            Ok(FieldOptions::Progress { total_steps: if total_steps < 1 { 1 } else { total_steps } })
        },
        FieldOptions::DateTime { range_start, range_end, .. } => {
            if range_ok(range_start, range_end) {
                Ok(o)
            } else {
                Err(ValidationError::InvalidRange)
            }
        },
        FieldOptions::Enumeration { values, default_value, .. } => {
            if enum_has_key(values@, default_value) {
                Ok(o)
            } else {
                Err(ValidationError::BadEnumerationDefault)
            }
        },
        _ => Ok(o),
    }
}

/// An optional integer raised to at least `lo`.
pub open spec fn clamp_min(n: Option<i64>, lo: i64) -> Option<i64> {
    match n {
        Some(v) => Some(if v < lo { lo } else { v }),
        None => None,
    }
}

/// Checks a kind's constraint parameters, clamping where the rules say
/// to clamp, and rejects a kind whose constraints contradict each other.
/// The kind is changed exactly when validation succeeds.
pub fn validate_field_options(options: &mut FieldOptions) -> (r: ApiResult<()>)
    requires
        options_wf(*old(options)),
    ensures
        validate_result(*old(options)) matches Ok(accepted) ==> r == Ok::<(), ApiError>(())
            && *final(options) == accepted,
        validate_result(*old(options)) matches Err(e) ==> r == Err::<(), ApiError>(
            ApiError::Validation(e),
        ) && *final(options) == *old(options),
        options_wf(*final(options)),
{
    match options {
        FieldOptions::Integer { range_start, range_end, .. } => {
            validate_range(*range_start, *range_end)
        },
        FieldOptions::Decimal { range_start, range_end, number_precision, number_scale, .. } => {
            let r = validate_range(*range_start, *range_end);
            if r.is_err() {
                return r;
            }
            *number_precision = match *number_precision {
                Some(v) => Some(if v < 1 { 1i64 } else { v }),
                None => None,
            };
            *number_scale = match *number_scale {
                Some(v) => Some(if v < 0 { 0i64 } else { v }),
                None => None,
            };
            Ok(())
        },
        FieldOptions::Money { range_start, range_end, .. } => {
            validate_range(*range_start, *range_end)
        },
        FieldOptions::Progress { total_steps } => {
            if *total_steps < 1 {
                *total_steps = 1;
            }
            Ok(())
        },
        FieldOptions::DateTime { range_start, range_end, .. } => {
            validate_range(*range_start, *range_end)
        },
        FieldOptions::Enumeration { values, default_value, .. } => {
            if enum_values_contain(values, *default_value) {
                Ok(())
            } else {
                Err(ApiError::Validation(ValidationError::BadEnumerationDefault))
            }
        },
        _ => Ok(()),
    }
}

/// Whether a cell for this kind must always be present: the physical
/// column is `NOT NULL` exactly for required kinds. A progress bar
/// always has a step count; a checkbox may be left unset.
pub open spec fn is_required_spec(o: FieldOptions) -> bool {
    match o {
        FieldOptions::Text { is_required } => is_required,
        FieldOptions::Integer { is_required, .. } => is_required,
        FieldOptions::Decimal { is_required, .. } => is_required,
        FieldOptions::Money { is_required, .. } => is_required,
        FieldOptions::Progress { .. } => true,
        FieldOptions::DateTime { is_required, .. } => is_required,
        FieldOptions::Interval { is_required } => is_required,
        FieldOptions::WebLink { is_required } => is_required,
        FieldOptions::Email { is_required } => is_required,
        FieldOptions::Checkbox => false,
        FieldOptions::Enumeration { is_required, .. } => is_required,
    }
}

impl FieldOptions {
    pub fn is_required(&self) -> (r: bool)
        ensures
            r == is_required_spec(*self),
    {
        match self {
            FieldOptions::Text { is_required } => *is_required,
            FieldOptions::Integer { is_required, .. } => *is_required,
            FieldOptions::Decimal { is_required, .. } => *is_required,
            FieldOptions::Money { is_required, .. } => *is_required,
            FieldOptions::Progress { .. } => true,
            FieldOptions::DateTime { is_required, .. } => *is_required,
            FieldOptions::Interval { is_required } => *is_required,
            FieldOptions::WebLink { is_required } => *is_required,
            FieldOptions::Email { is_required } => *is_required,
            FieldOptions::Checkbox => false,
            FieldOptions::Enumeration { is_required, .. } => *is_required,
        }
    }
}

/// The mathematical value of a field kind: label text as character
/// sequences, every other parameter as itself.
pub enum FieldOptionsModel {
    Text { is_required: bool },
    Integer { is_required: bool, range_start: Option<i64>, range_end: Option<i64> },
    Decimal {
        is_required: bool,
        range_start: Option<ScaledDecimal>,
        range_end: Option<ScaledDecimal>,
        scientific_notation: bool,
        number_precision: Option<i64>,
        number_scale: Option<i64>,
    },
    Money { is_required: bool, range_start: Option<ScaledDecimal>, range_end: Option<ScaledDecimal> },
    Progress { total_steps: i64 },
    DateTime {
        is_required: bool,
        range_start: Option<Timestamp>,
        range_end: Option<Timestamp>,
        date_time_format: Seq<char>,
    },
    Interval { is_required: bool },
    WebLink { is_required: bool },
    Email { is_required: bool },
    Checkbox,
    Enumeration { is_required: bool, values: Seq<(i64, Seq<char>)>, default_value: i64 },
}

impl View for FieldOptions {
    type V = FieldOptionsModel;

    open spec fn view(&self) -> FieldOptionsModel {
        match self {
            FieldOptions::Text { is_required } => FieldOptionsModel::Text {
                is_required: *is_required,
            },
            FieldOptions::Integer { is_required, range_start, range_end } =>
                FieldOptionsModel::Integer {
                is_required: *is_required,
                range_start: *range_start,
                range_end: *range_end,
            },
            FieldOptions::Decimal {
                is_required,
                range_start,
                range_end,
                scientific_notation,
                number_precision,
                number_scale,
            } => FieldOptionsModel::Decimal {
                is_required: *is_required,
                range_start: *range_start,
                range_end: *range_end,
                scientific_notation: *scientific_notation,
                number_precision: *number_precision,
                number_scale: *number_scale,
            },
            FieldOptions::Money { is_required, range_start, range_end } =>
                FieldOptionsModel::Money {
                is_required: *is_required,
                range_start: *range_start,
                range_end: *range_end,
            },
            FieldOptions::Progress { total_steps } => FieldOptionsModel::Progress {
                total_steps: *total_steps,
            },
            FieldOptions::DateTime { is_required, range_start, range_end, date_time_format } =>
                FieldOptionsModel::DateTime {
                is_required: *is_required,
                range_start: *range_start,
                range_end: *range_end,
                date_time_format: date_time_format@,
            },
            FieldOptions::Interval { is_required } => FieldOptionsModel::Interval {
                is_required: *is_required,
            },
            FieldOptions::WebLink { is_required } => FieldOptionsModel::WebLink {
                is_required: *is_required,
            },
            FieldOptions::Email { is_required } => FieldOptionsModel::Email {
                is_required: *is_required,
            },
            FieldOptions::Checkbox => FieldOptionsModel::Checkbox,
            FieldOptions::Enumeration { is_required, values, default_value } =>
                FieldOptionsModel::Enumeration {
                is_required: *is_required,
                values: values@.map_values(|p: (i64, String)| (p.0, p.1@)),
                default_value: *default_value,
            },
        }
    }
}

fn dup_enum_values(values: &Vec<(i64, String)>) -> (r: Vec<(i64, String)>)
    ensures
        r@.map_values(|p: (i64, String)| (p.0, p.1@)) == values@.map_values(
            |p: (i64, String)| (p.0, p.1@),
        ),
{
    let mut r: Vec<(i64, String)> = Vec::new();
    let mut i: usize = 0;
    while i < values.len()
        invariant
            i <= values.len(),
            r@.len() == i,
            forall|k: int|
                0 <= k < i ==> (#[trigger] r@[k]).0 == values@[k].0 && r@[k].1@ == values@[k].1@,
        decreases values.len() - i,
    {
        let label = values[i].1.clone();
        proof {
            assert(label@ == values@[i as int].1@);
        }
        r.push((values[i].0, label));
        proof {
            assert(r@[i as int].0 == values@[i as int].0);
            assert(r@[i as int].1@ == values@[i as int].1@);
        }
        i = i + 1;
    }
    proof {
        let lhs = r@.map_values(|p: (i64, String)| (p.0, p.1@));
        let rhs = values@.map_values(|p: (i64, String)| (p.0, p.1@));
        assert forall|k: int| 0 <= k < values@.len() implies #[trigger] lhs[k] == rhs[k] by {
            assert(lhs[k] == (r@[k].0, r@[k].1@));
            assert(rhs[k] == (values@[k].0, values@[k].1@));
        }
        assert(lhs =~= rhs);
    }
    r
}

impl FieldOptions {
    /// An equal copy of the kind, for rows that are both stored and
    /// returned.
    pub fn dup(&self) -> (r: FieldOptions)
        ensures
            r@ == self@,
    {
        match self {
            FieldOptions::Text { is_required } => FieldOptions::Text { is_required: *is_required },
            FieldOptions::Integer { is_required, range_start, range_end } => FieldOptions::Integer {
                is_required: *is_required,
                range_start: *range_start,
                range_end: *range_end,
            },
            FieldOptions::Decimal {
                is_required,
                range_start,
                range_end,
                scientific_notation,
                number_precision,
                number_scale,
            } => FieldOptions::Decimal {
                is_required: *is_required,
                range_start: *range_start,
                range_end: *range_end,
                scientific_notation: *scientific_notation,
                number_precision: *number_precision,
                number_scale: *number_scale,
            },
            FieldOptions::Money { is_required, range_start, range_end } => FieldOptions::Money {
                is_required: *is_required,
                range_start: *range_start,
                range_end: *range_end,
            },
            FieldOptions::Progress { total_steps } => FieldOptions::Progress {
                total_steps: *total_steps,
            },
            FieldOptions::DateTime { is_required, range_start, range_end, date_time_format } =>
                FieldOptions::DateTime {
                is_required: *is_required,
                range_start: *range_start,
                range_end: *range_end,
                date_time_format: date_time_format.clone(),
            },
            FieldOptions::Interval { is_required } => FieldOptions::Interval {
                is_required: *is_required,
            },
            FieldOptions::WebLink { is_required } => FieldOptions::WebLink {
                is_required: *is_required,
            },
            FieldOptions::Email { is_required } => FieldOptions::Email {
                is_required: *is_required,
            },
            FieldOptions::Checkbox => FieldOptions::Checkbox,
            FieldOptions::Enumeration { is_required, values, default_value } =>
                FieldOptions::Enumeration {
                is_required: *is_required,
                values: dup_enum_values(values),
                default_value: *default_value,
            },
        }
    }
}

/// A catalog row describing one field of a table.
#[derive(Clone, PartialEq, Debug)]
pub struct Field {
    pub field_id: Id,
    pub table_id: Id,
    pub name: String,
    pub options: FieldOptions,
    pub created_at: Timestamp,
    pub updated_at: Option<Timestamp>,
}

/// The mathematical value of a field's catalog row.
pub struct FieldModel {
    pub field_id: Id,
    pub table_id: Id,
    pub name: Seq<char>,
    pub options: FieldOptionsModel,
    pub created_at: Timestamp,
    pub updated_at: Option<Timestamp>,
}

impl View for Field {
    type V = FieldModel;

    open spec fn view(&self) -> FieldModel {
        FieldModel {
            field_id: self.field_id,
            table_id: self.table_id,
            name: self.name@,
            options: self.options@,
            created_at: self.created_at,
            updated_at: self.updated_at,
        }
    }
}

impl Field {
    /// An equal copy of the row, for rows that are both stored and
    /// returned.
    pub fn dup(&self) -> (r: Field)
        ensures
            r@ == self@,
    {
        Field {
            field_id: self.field_id,
            table_id: self.table_id,
            name: self.name.clone(),
            options: self.options.dup(),
            created_at: self.created_at,
            updated_at: self.updated_at,
        }
    }
}

/// A field's catalog row together with the generated name of its
/// physical column.
pub struct FullField {
    pub field: Field,
    pub data_field_name: String,
}

impl FullField {
    /// Pairs a field with its column's generated, injection-safe name.
    pub fn of_field(f: &Field) -> (r: FullField)
        requires
            f.field_id >= 0,
        ensures
            r.field@ == f@,
            r.data_field_name@ == crate::ident::spec_field_ident(f.field_id as int),
    {
        FullField { field: f.dup(), data_field_name: crate::ident::field_ident(f.field_id) }
    }
}

/// What a caller supplies to create a field.
pub struct CreateField {
    pub name: String,
    pub options: FieldOptions,
}

/// What a caller supplies to rename a field. The kind is fixed at
/// creation: renaming is the only catalog-level mutation of a field.
pub struct UpdateField {
    pub name: String,
}

} // verus!
