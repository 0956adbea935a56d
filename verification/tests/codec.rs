use dyntable::cells::{decode, encode, physical_type_for, Cell, ColumnType, PhysValue};
use dyntable::decimal::ScaledDecimal;
use dyntable::fields::{
    validate_field_options, validate_range, FieldOptions, IntervalValue,
};
use dyntable::{ApiError, ValidationError};

fn round_trips(options: FieldOptions, cell: Cell) {
    let stored = encode(cell.clone());
    assert_eq!(decode(&options, &stored), Ok(cell));
}

#[test]
fn every_kind_round_trips() {
    round_trips(FieldOptions::Text { is_required: true }, Cell::Text("hello".to_string()));
    round_trips(
        FieldOptions::Integer { is_required: true, range_start: None, range_end: None },
        Cell::Integer(-42),
    );
    round_trips(
        FieldOptions::Decimal {
            is_required: true,
            range_start: None,
            range_end: None,
            scientific_notation: false,
            number_precision: Some(10),
            number_scale: Some(3),
        },
        Cell::Decimal(ScaledDecimal { mantissa: 31415, scale: 4 }),
    );
    round_trips(
        FieldOptions::Money { is_required: true, range_start: None, range_end: None },
        Cell::Money(ScaledDecimal { mantissa: 1250, scale: 2 }),
    );
    round_trips(FieldOptions::Progress { total_steps: 5 }, Cell::Progress(3));
    round_trips(
        FieldOptions::DateTime {
            is_required: true,
            range_start: None,
            range_end: None,
            date_time_format: "iso".to_string(),
        },
        Cell::DateTime(1_700_000_000_000_000),
    );
    round_trips(
        FieldOptions::Interval { is_required: true },
        Cell::Interval(IntervalValue { months: 1, days: 2, microseconds: 3 }),
    );
    round_trips(
        FieldOptions::WebLink { is_required: true },
        Cell::WebLink("https://example.test".to_string()),
    );
    round_trips(
        FieldOptions::Email { is_required: true },
        Cell::Email("a@example.test".to_string()),
    );
    round_trips(FieldOptions::Checkbox, Cell::Checkbox(true));
    round_trips(
        FieldOptions::Enumeration {
            is_required: true,
            values: vec![(1, "a".to_string()), (2, "b".to_string())],
            default_value: 1,
        },
        Cell::Enumeration(2),
    );
}

#[test]
fn mismatched_stored_value_is_corruption() {
    let o = FieldOptions::Text { is_required: false };
    assert_eq!(decode(&o, &PhysValue::BigInt(3)), Err(ApiError::Storage));
    let o = FieldOptions::Checkbox;
    assert_eq!(decode(&o, &PhysValue::Text("x".to_string())), Err(ApiError::Storage));
}

#[test]
fn kinds_map_to_their_column_types() {
    assert_eq!(
        physical_type_for(&FieldOptions::Text { is_required: true }),
        (ColumnType::Text, false)
    );
    assert_eq!(
        physical_type_for(&FieldOptions::Integer {
            is_required: false,
            range_start: None,
            range_end: None
        }),
        (ColumnType::BigInt, true)
    );
    assert_eq!(
        physical_type_for(&FieldOptions::Money {
            is_required: false,
            range_start: None,
            range_end: None
        }),
        (ColumnType::Numeric, true)
    );
    // A progress bar always has a value; a checkbox may be unset.
    assert_eq!(
        physical_type_for(&FieldOptions::Progress { total_steps: 4 }),
        (ColumnType::BigInt, false)
    );
    assert_eq!(physical_type_for(&FieldOptions::Checkbox), (ColumnType::Boolean, true));
    assert_eq!(
        physical_type_for(&FieldOptions::DateTime {
            is_required: true,
            range_start: None,
            range_end: None,
            date_time_format: "iso".to_string()
        }),
        (ColumnType::Timestamptz, false)
    );
    assert_eq!(
        physical_type_for(&FieldOptions::Interval { is_required: false }),
        (ColumnType::Interval, true)
    );
    assert_eq!(
        physical_type_for(&FieldOptions::WebLink { is_required: true }),
        (ColumnType::Text, false)
    );
    assert_eq!(
        physical_type_for(&FieldOptions::Email { is_required: false }),
        (ColumnType::Text, true)
    );
    assert_eq!(
        physical_type_for(&FieldOptions::Enumeration {
            is_required: true,
            values: vec![(1, "a".to_string())],
            default_value: 1
        }),
        (ColumnType::BigInt, false)
    );
    assert_eq!(
        physical_type_for(&FieldOptions::Decimal {
            is_required: false,
            range_start: None,
            range_end: None,
            scientific_notation: false,
            number_precision: None,
            number_scale: None
        }),
        (ColumnType::DoublePrecision, true)
    );
}

#[test]
fn integer_range_validation() {
    let mut bad = FieldOptions::Integer {
        is_required: false,
        range_start: Some(10),
        range_end: Some(5),
    };
    assert_eq!(
        validate_field_options(&mut bad),
        Err(ApiError::Validation(ValidationError::InvalidRange))
    );
    let mut good = FieldOptions::Integer {
        is_required: false,
        range_start: Some(5),
        range_end: Some(10),
    };
    assert_eq!(validate_field_options(&mut good), Ok(()));
}

#[test]
fn enumeration_default_validation() {
    let values = vec![(1, "a".to_string()), (2, "b".to_string())];
    let mut bad = FieldOptions::Enumeration {
        is_required: false,
        values: values.clone(),
        default_value: 3,
    };
    assert_eq!(
        validate_field_options(&mut bad),
        Err(ApiError::Validation(ValidationError::BadEnumerationDefault))
    );
    let mut good = FieldOptions::Enumeration { is_required: false, values, default_value: 1 };
    assert_eq!(validate_field_options(&mut good), Ok(()));
}

#[test]
fn validation_clamps_parameters() {
    let mut progress = FieldOptions::Progress { total_steps: 0 };
    assert_eq!(validate_field_options(&mut progress), Ok(()));
    assert!(matches!(progress, FieldOptions::Progress { total_steps: 1 }));

    let mut decimal = FieldOptions::Decimal {
        is_required: false,
        range_start: None,
        range_end: None,
        scientific_notation: true,
        number_precision: Some(0),
        number_scale: Some(-4),
    };
    assert_eq!(validate_field_options(&mut decimal), Ok(()));
    match decimal {
        FieldOptions::Decimal { number_precision, number_scale, .. } => {
            assert_eq!(number_precision, Some(1));
            assert_eq!(number_scale, Some(0));
        },
        _ => panic!("kind changed"),
    }
}

#[test]
fn money_range_validation_is_exact_across_scales() {
    // 12.5 <= 12.50 and 12.50 <= 12.5: equal values at different
    // scales.
    let a = ScaledDecimal { mantissa: 125, scale: 1 };
    let b = ScaledDecimal { mantissa: 1250, scale: 2 };
    assert!(a.le(&b));
    assert!(b.le(&a));
    // 12.49 < 12.5 but not the other way round.
    let c = ScaledDecimal { mantissa: 1249, scale: 2 };
    assert!(c.le(&a));
    assert!(!a.le(&c));

    let mut bad = FieldOptions::Money {
        is_required: false,
        range_start: Some(a),
        range_end: Some(c),
    };
    assert_eq!(
        validate_field_options(&mut bad),
        Err(ApiError::Validation(ValidationError::InvalidRange))
    );
    let mut good = FieldOptions::Money {
        is_required: false,
        range_start: Some(c),
        range_end: Some(b),
    };
    assert_eq!(validate_field_options(&mut good), Ok(()));
}

#[test]
fn validate_range_is_generic_over_bounds() {
    assert_eq!(validate_range::<i64>(None, None), Ok(()));
    assert_eq!(validate_range(Some(3i64), None), Ok(()));
    assert_eq!(validate_range(Some(3i64), Some(3i64)), Ok(()));
    assert_eq!(
        validate_range(Some(4i64), Some(3i64)),
        Err(ApiError::Validation(ValidationError::InvalidRange))
    );
}
