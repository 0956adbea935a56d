use dyntable::catalog::{Catalog, CreateTable};
use dyntable::fields::{CreateField, FieldOptions, FullField};
use dyntable::ident::{axis_ident, chart_ident, field_ident, table_ident};
use dyntable::sql::{
    add_column_ddl, create_table_ddl, create_view_sql, drop_table_ddl, drop_view_sql,
    insert_entry_sql, select_entries_sql, update_trigger_ddl,
};
use dyntable::cells::ColumnType;
use dyntable::viz::{Aggregate, AxisKind, CreateAxis, SelectItem, ViewDef};
use dyntable::ApiError;

#[test]
fn identifiers_come_from_ids_alone() {
    assert_eq!(table_ident(7), "data_table_7");
    assert_eq!(table_ident(0), "data_table_0");
    assert_eq!(field_ident(12), "field_12");
    assert_eq!(chart_ident(5), "data_view_5");
    assert_eq!(axis_ident(910), "axis_910");
    assert_eq!(table_ident(2147483647), "data_table_2147483647");
}

#[test]
fn create_table_text() {
    assert_eq!(
        create_table_ddl(3, None),
        "CREATE TABLE data_table_3 (entry_id SERIAL PRIMARY KEY, \
         created_at TIMESTAMPTZ NOT NULL DEFAULT now(), updated_at TIMESTAMPTZ)"
    );
    assert_eq!(
        create_table_ddl(4, Some(3)),
        "CREATE TABLE data_table_4 (entry_id SERIAL PRIMARY KEY, \
         parent_id INT NOT NULL REFERENCES data_table_3(entry_id), \
         created_at TIMESTAMPTZ NOT NULL DEFAULT now(), updated_at TIMESTAMPTZ)"
    );
    assert_eq!(update_trigger_ddl(3), "SELECT trigger_updated_at('data_table_3')");
    assert_eq!(drop_table_ddl(3), "DROP TABLE data_table_3 CASCADE");
}

#[test]
fn add_column_text_follows_kind() {
    assert_eq!(
        add_column_ddl(3, 7, &FieldOptions::Text { is_required: true }),
        "ALTER TABLE data_table_3 ADD COLUMN field_7 TEXT NOT NULL"
    );
    assert_eq!(
        add_column_ddl(3, 8, &FieldOptions::Checkbox),
        "ALTER TABLE data_table_3 ADD COLUMN field_8 BOOLEAN"
    );
    assert_eq!(
        add_column_ddl(
            3,
            9,
            &FieldOptions::Money { is_required: false, range_start: None, range_end: None }
        ),
        "ALTER TABLE data_table_3 ADD COLUMN field_9 NUMERIC"
    );
}

#[test]
fn insert_text_binds_every_value() {
    assert_eq!(
        insert_entry_sql(3, false, &vec![7, 9]),
        "INSERT INTO data_table_3 (field_7, field_9) VALUES ($1, $2) RETURNING entry_id"
    );
    assert_eq!(
        insert_entry_sql(3, true, &vec![7]),
        "INSERT INTO data_table_3 (parent_id, field_7) VALUES ($1, $2) RETURNING entry_id"
    );
    assert_eq!(
        insert_entry_sql(3, false, &vec![]),
        "INSERT INTO data_table_3 DEFAULT VALUES RETURNING entry_id"
    );
}

#[test]
fn select_text_lists_resolved_columns() {
    assert_eq!(
        select_entries_sql(3, false, &vec![7, 9]),
        "SELECT entry_id, created_at, updated_at, field_7, field_9 FROM data_table_3"
    );
    assert_eq!(
        select_entries_sql(4, true, &vec![]),
        "SELECT entry_id, parent_id, created_at, updated_at FROM data_table_4"
    );
}

#[test]
fn view_text_groups_dimensions_and_casts_measures() {
    let select = vec![
        SelectItem { axis_id: 21, field_id: 7, aggregate: None },
        SelectItem { axis_id: 22, field_id: 9, aggregate: Some((Aggregate::Sum, ColumnType::Numeric)) },
    ];
    let group_by = vec![7];
    assert_eq!(
        create_view_sql(5, 3, &select, &group_by),
        "CREATE VIEW data_view_5 AS SELECT field_7 AS axis_21, \
         SUM(field_9)::NUMERIC AS axis_22 FROM data_table_3 GROUP BY field_7"
    );
    let only_measure = vec![SelectItem {
        axis_id: 23,
        field_id: 9,
        aggregate: Some((Aggregate::Count, ColumnType::BigInt)),
    }];
    assert_eq!(
        create_view_sql(5, 3, &only_measure, &vec![]),
        "CREATE VIEW data_view_5 AS SELECT COUNT(field_9)::BIGINT AS axis_23 FROM data_table_3"
    );
    assert_eq!(drop_view_sql(5), "DROP VIEW IF EXISTS data_view_5");
}

#[test]
fn full_field_carries_generated_column_name() {
    let mut c = Catalog::new();
    let t = c
        .create_table(
            1,
            CreateTable { parent_id: None, name: "t".to_string(), description: "".to_string() },
            1,
        )
        .unwrap();
    c.create_field(
        t.table_id,
        CreateField { name: "n".to_string(), options: FieldOptions::Checkbox },
        2,
    )
    .unwrap();
    let fs = c.get_fields(t.table_id).unwrap();
    let ff = FullField::of_field(&fs[0]);
    assert_eq!(ff.data_field_name, format!("field_{}", fs[0].field_id));
    assert_eq!(ff.field.name, "n");
}

fn structure_of(view: &ViewDef) -> (Vec<(i32, Option<(Aggregate, ColumnType)>)>, Vec<i32>) {
    (
        view.select.iter().map(|it| (it.field_id, it.aggregate)).collect(),
        view.group_by.clone(),
    )
}

#[test]
fn set_axes_replaces_and_is_idempotent_in_structure() {
    let mut c = Catalog::new();
    let t = c
        .create_table(
            1,
            CreateTable { parent_id: None, name: "t".to_string(), description: "".to_string() },
            1,
        )
        .unwrap();
    let dim = c
        .create_field(
            t.table_id,
            CreateField { name: "kind".to_string(), options: FieldOptions::Checkbox },
            2,
        )
        .unwrap();
    let measure = c
        .create_field(
            t.table_id,
            CreateField {
                name: "amount".to_string(),
                options: FieldOptions::Integer { is_required: false, range_start: None, range_end: None },
            },
            3,
        )
        .unwrap();
    let req = vec![
        (
            CreateAxis { field_id: dim, axis_kind: AxisKind::Dimension, aggregate: None },
            FieldOptions::Checkbox,
        ),
        (
            CreateAxis {
                field_id: measure,
                axis_kind: AxisKind::Measure,
                aggregate: Some(Aggregate::Sum),
            },
            FieldOptions::Integer { is_required: false, range_start: None, range_end: None },
        ),
    ];
    let first = c.set_axes(5, t.table_id, req.clone(), 10).unwrap();
    assert_eq!(c.views.len(), 1);
    let s1 = structure_of(&c.views[0]);
    let second = c.set_axes(5, t.table_id, req.clone(), 11).unwrap();
    assert_eq!(c.views.len(), 1);
    let s2 = structure_of(&c.views[0]);

    // The compiled structure is identical; the axis ids are fresh.
    assert_eq!(s1, s2);
    assert_ne!(first[0].axis_id, second[0].axis_id);
    assert_eq!(second.len(), 2);
    assert_eq!(c.axes.len(), 2);
    assert_eq!(c.axes[0].axis_id, second[0].axis_id);

    // An axis over a missing field is refused before anything changes.
    let bad = vec![(
        CreateAxis { field_id: 999, axis_kind: AxisKind::Dimension, aggregate: None },
        FieldOptions::Checkbox,
    )];
    assert_eq!(c.set_axes(5, t.table_id, bad, 12), Err(ApiError::Storage));
    assert_eq!(c.axes.len(), 2);
    assert_eq!(c.set_axes(6, 999, vec![], 13), Err(ApiError::NotFound));
}

#[test]
fn delete_table_drops_views_and_axes() {
    let mut c = Catalog::new();
    let t = c
        .create_table(
            1,
            CreateTable { parent_id: None, name: "t".to_string(), description: "".to_string() },
            1,
        )
        .unwrap();
    let f = c
        .create_field(
            t.table_id,
            CreateField { name: "kind".to_string(), options: FieldOptions::Checkbox },
            2,
        )
        .unwrap();
    c.set_axes(
        5,
        t.table_id,
        vec![(
            CreateAxis { field_id: f, axis_kind: AxisKind::Dimension, aggregate: None },
            FieldOptions::Checkbox,
        )],
        3,
    )
    .unwrap();
    assert_eq!(c.views.len(), 1);
    assert_eq!(c.axes.len(), 1);
    c.delete_table(t.table_id).unwrap();
    assert_eq!(c.views.len(), 0);
    assert_eq!(c.axes.len(), 0);
}
