//! Schema and query text generation.
//!
//! Every statement whose target names are only known at run time is
//! assembled here, and every name interpolated into the text comes from
//! the identifier generator — each builder's contract pins the exact
//! text as a function of catalog ids and field kinds alone, so no
//! user-supplied text can reach the executable statements. Values never
//! travel in the text: data columns are always bound through numbered
//! placeholders.

use vstd::prelude::*;
use vstd::string::StringExecFns;

use crate::cells::{column_type_spec, column_type_sql, spec_column_type_sql};
use crate::fields::{is_required_spec, FieldOptions};
use crate::ident::{
    field_ident, push_digits, spec_axis_ident, spec_chart_ident, spec_digits, spec_field_ident,
    spec_table_ident, table_ident,
};
use crate::viz::SelectItem;
use crate::Id;

verus! {

/// A list of names joined with a comma and a space.
pub open spec fn spec_join_comma(items: Seq<Seq<char>>) -> Seq<char>
    decreases items.len(),
{
    if items.len() == 0 {
        Seq::empty()
    } else if items.len() == 1 {
        items[0]
    } else {
        spec_join_comma(items.drop_last()) + ", "@ + items.last()
    }
}

fn join_comma(names: &Vec<String>) -> (r: String)
    ensures
        r@ == spec_join_comma(names@.map_values(|s: String| s@)),
{
    let ghost items = names@.map_values(|s: String| s@);
    let mut acc = String::new();
    let mut i: usize = 0;
    while i < names.len()
        invariant
            i <= names.len(),
            items == names@.map_values(|s: String| s@),
            acc@ == spec_join_comma(items.take(i as int)),
        decreases names.len() - i,
    {
        if i > 0 {
            acc.append(", ");
        }
        acc.append(names[i].as_str());
        proof {
            assert(items.take(i as int + 1).drop_last() =~= items.take(i as int));
            assert(items.take(i as int + 1).last() == names@[i as int]@);
            assert(acc@ =~= spec_join_comma(items.take(i as int + 1)));
        }
        i = i + 1;
    }
    proof {
        assert(items.take(names@.len() as int) =~= items);
    }
    acc
}

/// The column names of the fields, in the order given.
pub open spec fn spec_field_names(ids: Seq<Id>) -> Seq<Seq<char>> {
    ids.map_values(|id: Id| spec_field_ident(id as int))
}

fn field_ident_names(ids: &Vec<Id>) -> (r: Vec<String>)
    requires
        forall|k: int| 0 <= k < ids@.len() ==> ids@[k] >= 0,
    ensures
        r@.map_values(|s: String| s@) == spec_field_names(ids@),
{
    let mut r: Vec<String> = Vec::new();
    let mut i: usize = 0;
    while i < ids.len()
        invariant
            i <= ids.len(),
            forall|k: int| 0 <= k < ids@.len() ==> ids@[k] >= 0,
            r@.len() == i,
            forall|k: int| 0 <= k < i ==> r@[k]@ == spec_field_ident(ids@[k] as int),
        decreases ids.len() - i,
    {
        r.push(field_ident(ids[i]));
        i = i + 1;
    }
    proof {
        assert forall|k: int| 0 <= k < ids@.len() implies r@.map_values(|s: String| s@)[k]
            == spec_field_names(ids@)[k] by {
            assert(r@.map_values(|s: String| s@)[k] == r@[k]@);
            assert(spec_field_names(ids@)[k] == spec_field_ident(ids@[k] as int));
        }
        assert(r@.map_values(|s: String| s@) =~= spec_field_names(ids@));
    }
    r
}

/// The numbered bind placeholders `$1` through `$n`.
pub open spec fn spec_params(n: nat) -> Seq<char>
    decreases n,
{
    if n == 0 {
        Seq::empty()
    } else if n == 1 {
        "$"@ + spec_digits(1)
    } else {
        spec_params((n - 1) as nat) + ", $"@ + spec_digits(n)
    }
}

fn push_params(n: usize, out: &mut String)
    requires
        n < u32::MAX,
    ensures
        final(out)@ == old(out)@ + spec_params(n as nat),
{
    let mut k: usize = 1;
    while k <= n
        invariant
            1 <= k <= n + 1,
            n < u32::MAX,
            out@ == old(out)@ + spec_params((k - 1) as nat),
        decreases n + 1 - k,
    {
        if k > 1 {
            out.append(", $");
        } else {
            out.append("$");
        }
        push_digits(k as u32, out);
        proof {
            assert(out@ =~= old(out)@ + spec_params(k as nat));
        }
        k = k + 1;
    }
    proof {
        assert(out@ =~= old(out)@ + spec_params(n as nat));
    }
}

/// The statement that creates a table's physical relation: a generated
/// entry id, a reference to the parent table's rows when the table has
/// a parent, and the bookkeeping timestamps.
pub open spec fn spec_create_table_ddl(table_id: int, parent_id: Option<Id>) -> Seq<char> {
    "CREATE TABLE "@ + spec_table_ident(table_id) + " (entry_id SERIAL PRIMARY KEY, "@ + (match parent_id {
        Some(p) => "parent_id INT NOT NULL REFERENCES "@ + spec_table_ident(p as int)
            + "(entry_id), "@,
        None => Seq::empty(),
    }) + "created_at TIMESTAMPTZ NOT NULL DEFAULT now(), updated_at TIMESTAMPTZ)"@
}

/// The statement that creates a table's physical relation.
pub fn create_table_ddl(table_id: Id, parent_id: Option<Id>) -> (r: String)
    requires
        table_id >= 0,
        parent_id matches Some(p) ==> p >= 0,
    ensures
        r@ == spec_create_table_ddl(table_id as int, parent_id),
{
    let mut s = String::from_str("CREATE TABLE ");
    s.append(table_ident(table_id).as_str());
    s.append(" (entry_id SERIAL PRIMARY KEY, ");
    match parent_id {
        Some(p) => {
            s.append("parent_id INT NOT NULL REFERENCES ");
            s.append(table_ident(p).as_str());
            s.append("(entry_id), ");
        },
        None => {},
    }
    s.append("created_at TIMESTAMPTZ NOT NULL DEFAULT now(), updated_at TIMESTAMPTZ)");
    proof {
        assert(s@ =~= spec_create_table_ddl(table_id as int, parent_id));
    }
    s
}

/// The statement that installs the update-timestamp trigger on a
/// table's physical relation.
pub open spec fn spec_update_trigger_ddl(table_id: int) -> Seq<char> {
    "SELECT trigger_updated_at('"@ + spec_table_ident(table_id) + "')"@
}

/// The statement that installs the update-timestamp trigger.
pub fn update_trigger_ddl(table_id: Id) -> (r: String)
    requires
        table_id >= 0,
    ensures
        r@ == spec_update_trigger_ddl(table_id as int),
{
    let mut s = String::from_str("SELECT trigger_updated_at('");
    s.append(table_ident(table_id).as_str());
    s.append("')");
    proof {
        assert(s@ =~= spec_update_trigger_ddl(table_id as int));
    }
    s
}

/// The statement that drops a table's physical relation together with
/// everything that depends on it: child tables' references and views.
pub open spec fn spec_drop_table_ddl(table_id: int) -> Seq<char> {
    "DROP TABLE "@ + spec_table_ident(table_id) + " CASCADE"@
}

/// The statement that drops a table's physical relation.
pub fn drop_table_ddl(table_id: Id) -> (r: String)
    requires
        table_id >= 0,
    ensures
        r@ == spec_drop_table_ddl(table_id as int),
{
    let mut s = String::from_str("DROP TABLE ");
    s.append(table_ident(table_id).as_str());
    s.append(" CASCADE");
    proof {
        assert(s@ =~= spec_drop_table_ddl(table_id as int));
    }
    s
}

/// The statement that adds a field's column to its table's physical
/// relation, typed by the field's kind and `NOT NULL` exactly when the
/// kind is required.
pub open spec fn spec_add_column_ddl(table_id: int, field_id: int, o: FieldOptions) -> Seq<char> {
    "ALTER TABLE "@ + spec_table_ident(table_id) + " ADD COLUMN "@ + spec_field_ident(field_id)
        + " "@ + spec_column_type_sql(column_type_spec(o)) + (if is_required_spec(o) {
        " NOT NULL"@
    } else {
        Seq::empty()
    })
}

/// The statement that adds a field's column.
pub fn add_column_ddl(table_id: Id, field_id: Id, o: &FieldOptions) -> (r: String)
    requires
        table_id >= 0,
        field_id >= 0,
    ensures
        r@ == spec_add_column_ddl(table_id as int, field_id as int, *o),
{
    let mut s = String::from_str("ALTER TABLE ");
    s.append(table_ident(table_id).as_str());
    s.append(" ADD COLUMN ");
    s.append(field_ident(field_id).as_str());
    s.append(" ");
    s.append(column_type_sql(crate::cells::physical_type_for(o).0));
    if o.is_required() {
        s.append(" NOT NULL");
    }
    proof {
        assert(s@ =~= spec_add_column_ddl(table_id as int, field_id as int, *o));
    }
    s
}

/// The column list an entry insert writes: the parent reference first
/// when the table has one, then the supplied fields' columns in order.
pub open spec fn spec_insert_names(has_parent: bool, ids: Seq<Id>) -> Seq<Seq<char>> {
    (if has_parent {
        seq!["parent_id"@]
    } else {
        Seq::empty()
    }) + spec_field_names(ids)
}

/// The statement that inserts one entry: it lists exactly the resolved
/// columns, binds every value through a placeholder, and returns the
/// generated entry id. With nothing to insert it writes an all-default
/// row.
pub open spec fn spec_insert_entry_sql(table_id: int, has_parent: bool, ids: Seq<Id>) -> Seq<
    char,
> {
    if !has_parent && ids.len() == 0 {
        "INSERT INTO "@ + spec_table_ident(table_id) + " DEFAULT VALUES RETURNING entry_id"@
    } else {
        "INSERT INTO "@ + spec_table_ident(table_id) + " ("@ + spec_join_comma(
            spec_insert_names(has_parent, ids),
        ) + ") VALUES ("@ + spec_params(
            ids.len() + if has_parent {
                1nat
            } else {
                0nat
            },
        ) + ") RETURNING entry_id"@
    }
}

/// The statement that inserts one entry.
pub fn insert_entry_sql(table_id: Id, has_parent: bool, field_ids: &Vec<Id>) -> (r: String)
    requires
        table_id >= 0,
        forall|k: int| 0 <= k < field_ids@.len() ==> field_ids@[k] >= 0,
        field_ids@.len() + 1 < u32::MAX,
    ensures
        r@ == spec_insert_entry_sql(table_id as int, has_parent, field_ids@),
{
    if !has_parent && field_ids.len() == 0 {
        let mut s = String::from_str("INSERT INTO ");
        s.append(table_ident(table_id).as_str());
        s.append(" DEFAULT VALUES RETURNING entry_id");
        proof {
            assert(s@ =~= spec_insert_entry_sql(table_id as int, has_parent, field_ids@));
        }
        return s;
    }
    let mut names: Vec<String> = Vec::new();
    if has_parent {
        names.push(String::from_str("parent_id"));
    }
    let mut field_names = field_ident_names(field_ids);
    names.append(&mut field_names);
    proof {
        assert(names@.map_values(|s: String| s@) =~= spec_insert_names(has_parent, field_ids@));
    }
    let n: usize = if has_parent {
        field_ids.len() + 1
    } else {
        field_ids.len()
    };
    let mut s = String::from_str("INSERT INTO ");
    s.append(table_ident(table_id).as_str());
    s.append(" (");
    s.append(join_comma(&names).as_str());
    s.append(") VALUES (");
    push_params(n, &mut s);
    s.append(") RETURNING entry_id");
    proof {
        assert(s@ =~= spec_insert_entry_sql(table_id as int, has_parent, field_ids@));
    }
    s
}

/// The statement that reads a table's entries: the entry id, the
/// parent reference when the table has one, the bookkeeping timestamps,
/// then the fields' columns in the order given.
pub open spec fn spec_select_entries_sql(table_id: int, has_parent: bool, ids: Seq<Id>) -> Seq<
    char,
> {
    "SELECT entry_id"@ + (if has_parent {
        ", parent_id"@
    } else {
        Seq::empty()
    }) + ", created_at, updated_at"@ + spec_tail_cols(ids) + " FROM "@ + spec_table_ident(table_id)
}

/// Each field's column, preceded by a separating comma.
pub open spec fn spec_tail_cols(ids: Seq<Id>) -> Seq<char>
    decreases ids.len(),
{
    if ids.len() == 0 {
        Seq::empty()
    } else {
        spec_tail_cols(ids.drop_last()) + ", "@ + spec_field_ident(ids.last() as int)
    }
}

/// The statement that reads a table's entries.
pub fn select_entries_sql(table_id: Id, has_parent: bool, field_ids: &Vec<Id>) -> (r: String)
    requires
        table_id >= 0,
        forall|k: int| 0 <= k < field_ids@.len() ==> field_ids@[k] >= 0,
    ensures
        r@ == spec_select_entries_sql(table_id as int, has_parent, field_ids@),
{
    let mut s = String::from_str("SELECT entry_id");
    if has_parent {
        s.append(", parent_id");
    }
    s.append(", created_at, updated_at");
    let ghost prefix = s@;
    let mut i: usize = 0;
    while i < field_ids.len()
        invariant
            i <= field_ids.len(),
            forall|k: int| 0 <= k < field_ids@.len() ==> field_ids@[k] >= 0,
            s@ == prefix + spec_tail_cols(field_ids@.take(i as int)),
        decreases field_ids.len() - i,
    {
        s.append(", ");
        s.append(field_ident(field_ids[i]).as_str());
        proof {
            assert(field_ids@.take(i as int + 1).drop_last() =~= field_ids@.take(i as int));
            assert(s@ =~= prefix + spec_tail_cols(field_ids@.take(i as int + 1)));
        }
        i = i + 1;
    }
    s.append(" FROM ");
    s.append(table_ident(table_id).as_str());
    proof {
        assert(field_ids@.take(field_ids@.len() as int) =~= field_ids@);
        assert(s@ =~= spec_select_entries_sql(table_id as int, has_parent, field_ids@));
    }
    s
}

/// One output column of a view: the grouped field itself, or the
/// aggregate over it cast to its result type, named after its axis.
pub open spec fn spec_select_item_sql(it: SelectItem) -> Seq<char> {
    (match it.aggregate {
        Some((a, t)) => a.spec_sql_aggregate() + "("@ + spec_field_ident(it.field_id as int)
            + ")::"@ + spec_column_type_sql(t),
        None => spec_field_ident(it.field_id as int),
    }) + " AS "@ + spec_axis_ident(it.axis_id as int)
}

fn select_item_sql(it: &SelectItem) -> (r: String)
    requires
        it.field_id >= 0,
        it.axis_id >= 0,
    ensures
        r@ == spec_select_item_sql(*it),
{
    let mut s = String::new();
    match it.aggregate {
        Some((a, t)) => {
            s.append(a.get_sql_aggregate());
            s.append("(");
            s.append(field_ident(it.field_id).as_str());
            s.append(")::");
            s.append(column_type_sql(t));
        },
        None => {
            s.append(field_ident(it.field_id).as_str());
        },
    }
    s.append(" AS ");
    s.append(crate::ident::axis_ident(it.axis_id).as_str());
    proof {
        assert(s@ =~= spec_select_item_sql(*it));
    }
    s
}

/// The statement that builds a chart's view: one output column per
/// axis, over the table's physical relation, grouped by the dimension
/// columns when any dimension exists.
pub open spec fn spec_create_view_sql(
    chart_id: int,
    table_id: int,
    select: Seq<SelectItem>,
    group_by: Seq<Id>,
) -> Seq<char> {
    "CREATE VIEW "@ + spec_chart_ident(chart_id) + " AS SELECT "@ + spec_join_comma(
        select.map_values(|it: SelectItem| spec_select_item_sql(it)),
    ) + " FROM "@ + spec_table_ident(table_id) + (if group_by.len() > 0 {
        " GROUP BY "@ + spec_join_comma(spec_field_names(group_by))
    } else {
        Seq::empty()
    })
}

/// The statement that builds a chart's view.
pub fn create_view_sql(chart_id: Id, table_id: Id, select: &Vec<SelectItem>, group_by: &Vec<
    Id,
>) -> (r: String)
    requires
        chart_id >= 0,
        table_id >= 0,
        forall|k: int|
            0 <= k < select@.len() ==> select@[k].field_id >= 0 && select@[k].axis_id >= 0,
        forall|k: int| 0 <= k < group_by@.len() ==> group_by@[k] >= 0,
    ensures
        r@ == spec_create_view_sql(chart_id as int, table_id as int, select@, group_by@),
{
    let mut item_texts: Vec<String> = Vec::new();
    let mut i: usize = 0;
    while i < select.len()
        invariant
            i <= select.len(),
            forall|k: int|
                0 <= k < select@.len() ==> select@[k].field_id >= 0 && select@[k].axis_id >= 0,
            item_texts@.len() == i,
            forall|k: int| 0 <= k < i ==> item_texts@[k]@ == spec_select_item_sql(select@[k]),
        decreases select.len() - i,
    {
        item_texts.push(select_item_sql(&select[i]));
        i = i + 1;
    }
    proof {
        let lhs = item_texts@.map_values(|s: String| s@);
        let rhs = select@.map_values(|it: SelectItem| spec_select_item_sql(it));
        assert forall|k: int| 0 <= k < select@.len() implies #[trigger] lhs[k] == rhs[k] by {
            assert(lhs[k] == item_texts@[k]@);
            assert(rhs[k] == spec_select_item_sql(select@[k]));
        }
        assert(item_texts@.map_values(|s: String| s@) =~= rhs);
    }
    let mut s = String::from_str("CREATE VIEW ");
    s.append(crate::ident::chart_ident(chart_id).as_str());
    s.append(" AS SELECT ");
    s.append(join_comma(&item_texts).as_str());
    s.append(" FROM ");
    s.append(table_ident(table_id).as_str());
    if group_by.len() > 0 {
        s.append(" GROUP BY ");
        let group_names = field_ident_names(group_by);
        s.append(join_comma(&group_names).as_str());
    }
    proof {
        assert(s@ =~= spec_create_view_sql(chart_id as int, table_id as int, select@, group_by@));
    }
    s
}

/// The statement that removes a chart's view, tolerating a chart whose
/// view was never built.
pub open spec fn spec_drop_view_sql(chart_id: int) -> Seq<char> {
    "DROP VIEW IF EXISTS "@ + spec_chart_ident(chart_id)
}

/// The statement that removes a chart's view.
pub fn drop_view_sql(chart_id: Id) -> (r: String)
    requires
        chart_id >= 0,
    ensures
        r@ == spec_drop_view_sql(chart_id as int),
{
    let mut s = String::from_str("DROP VIEW IF EXISTS ");
    s.append(crate::ident::chart_ident(chart_id).as_str());
    proof {
        assert(s@ =~= spec_drop_view_sql(chart_id as int));
    }
    s
}

} // verus!
