use dyntable::catalog::{Catalog, CreateTable, Relation, UpdateTable};
use dyntable::import::CreateTableData;
use dyntable::cells::Cell;
use dyntable::decimal::ScaledDecimal;
use dyntable::fields::{CreateField, FieldOptions, UpdateField};
use dyntable::ApiError;

fn table(name: &str, parent: Option<i32>) -> CreateTable {
    CreateTable {
        parent_id: parent,
        name: name.to_string(),
        description: "d".to_string(),
    }
}

fn text_field(name: &str, required: bool) -> CreateField {
    CreateField {
        name: name.to_string(),
        options: FieldOptions::Text { is_required: required },
    }
}

#[test]
fn new_table_is_empty() {
    let mut c = Catalog::new();
    let t = c.create_table(1, table("tasks", None), 10).unwrap();
    let d = c.get_table_data(t.table_id).unwrap();
    assert_eq!(d.fields.len(), 0);
    assert_eq!(d.entries.len(), 0);
    assert_eq!(d.children.len(), 0);
    assert_eq!(d.table.table_id, t.table_id);
    assert_eq!(d.table.name, "tasks");
}

#[test]
fn required_field_blocks_empty_insert() {
    let mut c = Catalog::new();
    let t = c.create_table(1, table("tasks", None), 10).unwrap();
    let f = c.create_field(t.table_id, text_field("title", true), 11).unwrap();
    assert_eq!(c.create_entry(t.table_id, vec![], None, 12), Err(ApiError::Storage));
    let eid = c
        .create_entry(t.table_id, vec![(f, Cell::Text("hi".to_string()))], None, 13)
        .unwrap();
    assert_eq!(eid, 1);
    let es = c.get_entries(t.table_id).unwrap();
    assert_eq!(es.len(), 1);
    assert_eq!(es[0].cells, vec![(f, Some(Cell::Text("hi".to_string())))]);
}

#[test]
fn optional_field_stored_null_when_omitted() {
    let mut c = Catalog::new();
    let t = c.create_table(1, table("notes", None), 10).unwrap();
    let amount = c
        .create_field(
            t.table_id,
            CreateField {
                name: "amount".to_string(),
                options: FieldOptions::Money { is_required: true, range_start: None, range_end: None },
            },
            11,
        )
        .unwrap();
    let note = c.create_field(t.table_id, text_field("note", false), 12).unwrap();
    let money = ScaledDecimal { mantissa: 1250, scale: 2 };
    c.create_entry(t.table_id, vec![(amount, Cell::Money(money))], None, 13).unwrap();
    let es = c.get_entries(t.table_id).unwrap();
    assert_eq!(es.len(), 1);
    assert_eq!(es[0].cells, vec![(amount, Some(Cell::Money(money))), (note, None)]);
}

#[test]
fn wrong_cell_variant_is_rejected() {
    let mut c = Catalog::new();
    let t = c.create_table(1, table("tasks", None), 10).unwrap();
    let f = c.create_field(t.table_id, text_field("title", false), 11).unwrap();
    let r = c.create_entry(t.table_id, vec![(f, Cell::Integer(3))], None, 12);
    assert_eq!(r, Err(ApiError::Storage));
    assert_eq!(c.get_entries(t.table_id).unwrap().len(), 0);
}

#[test]
fn unknown_supplied_field_is_ignored() {
    let mut c = Catalog::new();
    let t = c.create_table(1, table("tasks", None), 10).unwrap();
    let f = c.create_field(t.table_id, text_field("title", false), 11).unwrap();
    c.create_entry(t.table_id, vec![(f + 999, Cell::Integer(3))], None, 12).unwrap();
    let es = c.get_entries(t.table_id).unwrap();
    assert_eq!(es.len(), 1);
    assert_eq!(es[0].cells, vec![(f, None)]);
}

#[test]
fn entry_ids_are_distinct_and_none_lost() {
    let mut c = Catalog::new();
    let t = c.create_table(1, table("tasks", None), 10).unwrap();
    let f = c.create_field(t.table_id, text_field("title", false), 11).unwrap();
    let n = 20;
    let mut ids = Vec::new();
    for k in 0..n {
        let eid = c
            .create_entry(t.table_id, vec![(f, Cell::Text(format!("row {k}")))], None, 20 + k)
            .unwrap();
        ids.push(eid);
    }
    let es = c.get_entries(t.table_id).unwrap();
    assert_eq!(es.len(), n as usize);
    for i in 0..ids.len() {
        for j in 0..ids.len() {
            if i != j {
                assert_ne!(ids[i], ids[j]);
            }
        }
    }
}

#[test]
fn delete_table_cascades_to_children() {
    let mut c = Catalog::new();
    let parent = c.create_table(1, table("parent", None), 10).unwrap();
    let child = c.create_table(1, table("child", Some(parent.table_id)), 11).unwrap();
    let grandchild = c.create_table(1, table("grandchild", Some(child.table_id)), 12).unwrap();
    let other = c.create_table(1, table("other", None), 13).unwrap();

    c.delete_table(parent.table_id).unwrap();

    let listed = c.get_tables(1);
    assert_eq!(listed.len(), 1);
    assert_eq!(listed[0].table_id, other.table_id);
    assert_eq!(c.get_table_data(parent.table_id), Err(ApiError::NotFound));
    assert_eq!(c.get_table_data(child.table_id), Err(ApiError::NotFound));
    assert_eq!(c.get_table_data(grandchild.table_id), Err(ApiError::NotFound));
    assert_eq!(c.get_entries(parent.table_id), Err(ApiError::NotFound));
    assert!(c.get_table_data(other.table_id).is_ok());
}

#[test]
fn child_rows_reference_parent_rows() {
    let mut c = Catalog::new();
    let parent = c.create_table(1, table("parent", None), 10).unwrap();
    let child = c.create_table(1, table("child", Some(parent.table_id)), 11).unwrap();
    let pe = c.create_entry(parent.table_id, vec![], None, 12).unwrap();

    // A child row must name an existing parent row.
    assert_eq!(c.create_entry(child.table_id, vec![], None, 13), Err(ApiError::Storage));
    assert_eq!(c.create_entry(child.table_id, vec![], Some(pe + 7), 13), Err(ApiError::Storage));
    c.create_entry(child.table_id, vec![], Some(pe), 14).unwrap();

    let d = c.get_table_data(parent.table_id).unwrap();
    assert_eq!(d.children.len(), 1);
    assert_eq!(d.children[0].table.table_id, child.table_id);
    assert_eq!(d.children[0].entries.len(), 1);
    assert_eq!(d.children[0].entries[0].parent_entry_id, Some(pe));
}

#[test]
fn duplicate_table_name_conflicts_per_user() {
    let mut c = Catalog::new();
    c.create_table(1, table("tasks", None), 10).unwrap();
    assert_eq!(c.create_table(1, table("tasks", None), 11), Err(ApiError::Conflict));
    // Another user may reuse the name.
    c.create_table(2, table("tasks", None), 12).unwrap();
}

#[test]
fn duplicate_field_name_conflicts_per_table() {
    let mut c = Catalog::new();
    let t = c.create_table(1, table("tasks", None), 10).unwrap();
    c.create_field(t.table_id, text_field("title", false), 11).unwrap();
    assert_eq!(
        c.create_field(t.table_id, text_field("title", false), 12),
        Err(ApiError::Conflict)
    );
    let t2 = c.create_table(1, table("other", None), 13).unwrap();
    c.create_field(t2.table_id, text_field("title", false), 14).unwrap();
}

#[test]
fn update_table_renames_and_stamps() {
    let mut c = Catalog::new();
    let t = c.create_table(1, table("tasks", None), 10).unwrap();
    let u = c
        .update_table(
            t.table_id,
            UpdateTable { name: "chores".to_string(), description: "x".to_string() },
            20,
        )
        .unwrap();
    assert_eq!(u.name, "chores");
    assert_eq!(u.updated_at, Some(20));
    assert_eq!(c.get_tables(1)[0].name, "chores");
    assert_eq!(
        c.update_table(
            99,
            UpdateTable { name: "n".to_string(), description: "d".to_string() },
            21
        ),
        Err(ApiError::NotFound)
    );
}

#[test]
fn update_field_renames_only() {
    let mut c = Catalog::new();
    let t = c.create_table(1, table("tasks", None), 10).unwrap();
    let f = c.create_field(t.table_id, text_field("title", false), 11).unwrap();
    let g = c
        .update_field(f, UpdateField { name: "headline".to_string() }, 12)
        .unwrap();
    assert_eq!(g.name, "headline");
    assert_eq!(g.updated_at, Some(12));
    assert!(matches!(g.options, FieldOptions::Text { is_required: false }));
}

#[test]
fn delete_field_orphans_its_column() {
    let mut c = Catalog::new();
    let t = c.create_table(1, table("tasks", None), 10).unwrap();
    let f = c.create_field(t.table_id, text_field("title", false), 11).unwrap();
    c.delete_field(f).unwrap();
    assert_eq!(c.get_fields(t.table_id).unwrap().len(), 0);
    // The orphaned column is nullable, so inserts still pass; the
    // supplied cell for the dead field is dropped.
    c.create_entry(t.table_id, vec![(f, Cell::Text("x".to_string()))], None, 12).unwrap();
    let es = c.get_entries(t.table_id).unwrap();
    assert_eq!(es[0].cells.len(), 0);
    assert_eq!(c.delete_field(f), Err(ApiError::NotFound));
}

#[test]
fn required_field_on_filled_table_is_refused() {
    let mut c = Catalog::new();
    let t = c.create_table(1, table("tasks", None), 10).unwrap();
    c.create_entry(t.table_id, vec![], None, 11).unwrap();
    assert_eq!(
        c.create_field(t.table_id, text_field("title", true), 12),
        Err(ApiError::Storage)
    );
    c.create_field(t.table_id, text_field("note", false), 13).unwrap();
}

#[test]
fn ownership_guard_distinguishes_three_cases() {
    let mut c = Catalog::new();
    let t = c.create_table(1, table("tasks", None), 10).unwrap();
    assert_eq!(c.check_table_relation(1, t.table_id), Relation::Owned);
    assert_eq!(c.check_table_relation(2, t.table_id), Relation::NotOwned);
    assert_eq!(c.check_table_relation(1, 999), Relation::Absent);
    assert_eq!(Relation::Owned.to_api_result(), Ok(()));
    assert_eq!(Relation::NotOwned.to_api_result(), Err(ApiError::Forbidden));
    assert_eq!(Relation::Absent.to_api_result(), Err(ApiError::NotFound));
}

#[test]
fn parent_id_lookup_and_children() {
    let mut c = Catalog::new();
    let p = c.create_table(1, table("parent", None), 10).unwrap();
    let k = c.create_table(1, table("child", Some(p.table_id)), 11).unwrap();
    assert_eq!(c.get_table_parent_id(p.table_id), Ok(None));
    assert_eq!(c.get_table_parent_id(k.table_id), Ok(Some(p.table_id)));
    assert_eq!(c.get_table_parent_id(999), Err(ApiError::NotFound));
    let kids = c.get_table_children(p.table_id);
    assert_eq!(kids.len(), 1);
    assert_eq!(kids[0].table_id, k.table_id);
    // A missing parent reference in the creation request fails.
    assert_eq!(c.create_table(1, table("stray", Some(999)), 12), Err(ApiError::Storage));
}

#[test]
fn get_fields_lists_in_field_id_order() {
    let mut c = Catalog::new();
    let t = c.create_table(1, table("tasks", None), 10).unwrap();
    let a = c.create_field(t.table_id, text_field("a", false), 11).unwrap();
    let b = c.create_field(t.table_id, text_field("b", false), 12).unwrap();
    let fs = c.get_fields(t.table_id).unwrap();
    assert_eq!(fs.len(), 2);
    assert!(a < b);
    assert_eq!(fs[0].field_id, a);
    assert_eq!(fs[1].field_id, b);
    assert_eq!(fs[0].name, "a");
    assert_eq!(fs[1].name, "b");
    assert_eq!(c.get_fields(999), Err(ApiError::NotFound));
}

#[test]
fn import_lands_whole_table_or_nothing() {
    let mut c = Catalog::new();
    let data = CreateTableData {
        table: table("imported", None),
        fields: vec![text_field("title", true), text_field("note", false)],
        entries: vec![
            vec![Some(Cell::Text("a".to_string())), Some(Cell::Text("x".to_string()))],
            vec![Some(Cell::Text("b".to_string())), None],
        ],
    };
    let tid = c.import_table_data(1, data, 10).unwrap();
    let d = c.get_table_data(tid).unwrap();
    assert_eq!(d.fields.len(), 2);
    assert_eq!(d.entries.len(), 2);
    assert_eq!(d.entries[1].cells[1].1, None);

    // A row that omits the required field rolls the whole table back.
    let before = c.get_tables(1).len();
    let bad = CreateTableData {
        table: table("broken", None),
        fields: vec![text_field("title", true)],
        entries: vec![vec![None]],
    };
    assert_eq!(c.import_table_data(1, bad, 11), Err(ApiError::Storage));
    assert_eq!(c.get_tables(1).len(), before);
}
