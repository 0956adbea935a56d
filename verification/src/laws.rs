//! Catalog-wide guarantees that span several operations.
//!
//! Each law here is stated over the contracts of the operations it
//! relates, so a caller can rely on it without reading any bodies.

use vstd::prelude::*;

use crate::catalog::{
    has_matching_column, has_table, in_subtree, lemma_table_index_is, table_index, Catalog, Table,
};
use crate::cells::Cell;
use crate::entries::{create_entry_ok, required_ok, supplied};
use crate::fields::{is_required_spec, Field};
use crate::hierarchy::{table_data_ok, TableData};
use crate::Id;

verus! {

/// An insert that omits the value of a required field never goes
/// through: the field's `NOT NULL` column demands a supplied cell, so
/// `create_entry` fails on such a request whatever else it carries.
pub proof fn lemma_missing_required_field_blocks_insert(
    c: Catalog,
    ti: int,
    vals: Seq<(Id, Cell)>,
    parent_entry_id: Option<Id>,
    f: int,
)
    requires
        c.well_formed(),
        0 <= ti < c.tables@.len(),
        0 <= f < c.fields@.len(),
        c.fields@[f].table_id == c.tables@[ti].table_id,
        is_required_spec(c.fields@[f].options),
        !supplied(vals, c.fields@[f].field_id),
    ensures
        !create_entry_ok(c, ti, vals, parent_entry_id),
{
    assert(c.phys_table_wf(ti));
    let cols = c.phys@[ti].columns@;
    assert(has_matching_column(cols, c.fields@[f]));
    let cc = choose|cc: int|
        0 <= cc < cols.len() && (#[trigger] cols[cc]).source_field == c.fields@[f].field_id
            && cols[cc].ctype == crate::cells::column_type_spec(c.fields@[f].options)
            && cols[cc].nullable == !is_required_spec(c.fields@[f].options);
    assert(!cols[cc].nullable);
    if required_ok(c, ti, vals) {
        assert(supplied(vals, cols[cc].source_field));
    }
}

/// A freshly created table is empty: reading its data straight after
/// creation yields no fields, no entries, and no children.
///
/// The hypotheses are what `create_table` ensures on success and what
/// `get_table_data` ensures about its result.
pub proof fn lemma_new_table_data_empty(oldc: Catalog, newc: Catalog, new_id: Id, d: TableData)
    requires
        oldc.well_formed(),
        newc.well_formed(),
        new_id == oldc.next_table_id,
        newc.tables@.len() == oldc.tables@.len() + 1,
        newc.tables@.subrange(0, oldc.tables@.len() as int) == oldc.tables@,
        newc.tables@.last().table_id == new_id,
        newc.phys@.len() == oldc.phys@.len() + 1,
        newc.phys@.last().rows@.len() == 0,
        newc.fields@ == oldc.fields@,
        table_data_ok(newc, d),
        d.table.table_id == new_id,
    ensures
        d.fields@.len() == 0,
        d.entries@.len() == 0,
        d.children@.len() == 0,
{
    broadcast use vstd::seq_lib::group_filter_ensures;

    let last = oldc.tables@.len() as int;
    lemma_table_index_is(newc.tables@, last);
    assert(table_index(newc.tables@, new_id) == last);

    // No field can name the fresh table: every field's table predates
    // it.
    let fpred = |f: Field| f.table_id == new_id;
    assert(newc.fields@.filter(fpred).len() == 0) by {
        if newc.fields@.filter(fpred).len() > 0 {
            assert(fpred(newc.fields@.filter(fpred)[0]));
            crate::catalog::lemma_filter_member(newc.fields@, fpred, 0);
            let w = choose|w: int|
                0 <= w < newc.fields@.len() && newc.fields@[w] == newc.fields@.filter(fpred)[0];
            assert(oldc.fields@[w].table_id == new_id);
            assert(has_table(oldc.tables@, new_id));
            let wt = table_index(oldc.tables@, new_id);
            assert(oldc.tables@[wt].table_id < oldc.next_table_id);
            assert(false);
        }
    }

    // Its physical relation was created empty.
    assert(newc.phys@[last].rows@.len() == 0) by {
        assert(newc.phys@[last] == newc.phys@.last());
    }

    // And no table can name it as parent: parents predate children.
    let kpred = |t: Table| t.parent_id == Some(new_id);
    assert(newc.tables@.filter(kpred).len() == 0) by {
        if newc.tables@.filter(kpred).len() > 0 {
            assert(kpred(newc.tables@.filter(kpred)[0]));
            crate::catalog::lemma_filter_member(newc.tables@, kpred, 0);
            let w = choose|w: int|
                0 <= w < newc.tables@.len() && newc.tables@[w] == newc.tables@.filter(kpred)[0];
            assert(newc.tables@[w].parent_id == Some(new_id));
            assert(1 <= new_id < newc.tables@[w].table_id);
            assert(newc.tables@[w].table_id < newc.next_table_id);
            if w < last {
                assert(newc.tables@[w] == oldc.tables@[w]);
                assert(oldc.tables@[w].table_id < oldc.next_table_id);
            }
            assert(false);
        }
    }
}

/// Deleting a table cascades: afterwards neither the table nor any
/// table of its former subtree is listed, and no physical relation for
/// any of them remains.
///
/// The hypotheses are what `delete_table` ensures on success.
pub proof fn lemma_delete_cascades(oldc: Catalog, newc: Catalog, root: Id)
    requires
        oldc.well_formed(),
        newc.tables@ == oldc.tables@.filter(
            |t: Table| !in_subtree(oldc.tables@, root, t.table_id),
        ),
        newc.phys@ == oldc.phys@.filter(
            |pt: crate::catalog::PhysTable| !in_subtree(oldc.tables@, root, pt.table_id),
        ),
    ensures
        !has_table(newc.tables@, root),
        forall|id: Id| in_subtree(oldc.tables@, root, id) ==> !has_table(newc.tables@, id),
        forall|p: int|
            0 <= p < newc.phys@.len() ==> !in_subtree(
                oldc.tables@,
                root,
                (#[trigger] newc.phys@[p]).table_id,
            ),
{
    broadcast use vstd::seq_lib::group_filter_ensures;

    let tpred = |t: Table| !in_subtree(oldc.tables@, root, t.table_id);
    assert forall|id: Id| in_subtree(oldc.tables@, root, id) implies !has_table(
        newc.tables@,
        id,
    ) by {
        if has_table(newc.tables@, id) {
            let w = choose|w: int| 0 <= w < newc.tables@.len() && newc.tables@[w].table_id == id;
            assert(tpred(newc.tables@.filter(tpred)[w]));
            assert(false);
        }
    }
    assert(in_subtree(oldc.tables@, root, root));
}

/// Stored entry ids never collide: within one relation every row
/// carries its own id, and the id the next insert will assign is
/// fresher than all of them. Repeated inserts therefore yield as many
/// rows as inserts, each under a distinct id.
pub proof fn lemma_entry_ids_distinct(c: Catalog, ti: int)
    requires
        c.well_formed(),
        0 <= ti < c.phys@.len(),
    ensures
        forall|r1: int, r2: int|
            0 <= r1 < c.phys@[ti].rows@.len() && 0 <= r2 < c.phys@[ti].rows@.len() && r1 != r2
                ==> (#[trigger] c.phys@[ti].rows@[r1]).entry_id != (
            #[trigger] c.phys@[ti].rows@[r2]).entry_id,
        forall|r: int|
            0 <= r < c.phys@[ti].rows@.len() ==> (#[trigger] c.phys@[ti].rows@[r]).entry_id
                < c.phys@[ti].next_entry_id,
{
    assert(c.phys_table_wf(ti));
    let rows = c.phys@[ti].rows@;
    assert forall|r1: int, r2: int|
        0 <= r1 < rows.len() && 0 <= r2 < rows.len() && r1 != r2 implies (
    #[trigger] rows[r1]).entry_id != (#[trigger] rows[r2]).entry_id by {
        if r1 < r2 {
            assert(rows[r1].entry_id < rows[r2].entry_id);
        } else {
            assert(rows[r2].entry_id < rows[r1].entry_id);
        }
    }
}

} // verus!
