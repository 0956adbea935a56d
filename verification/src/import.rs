//! Feeding imported table descriptions into the catalog.
//!
//! An import hands over whole tables at once: the table to create, its
//! fields, and its initial rows, with each row's cells aligned with the
//! field list. The engine feeds them through the ordinary operations
//! and keeps the step atomic: if any part is refused, the partly built
//! table is removed again and the catalog lists exactly the tables it
//! listed before.

use vstd::prelude::*;

use crate::catalog::{
    has_table, lemma_filter_all_but_one, lemma_older_not_in_subtree, lemma_table_index_is,
    table_index, Catalog, CreateTable, Table,
};
use crate::cells::Cell;
use crate::fields::{options_wf, CreateField, Field, Timestamp};
use crate::{ApiError, ApiResult, Id};

verus! {

/// One imported table: its description, its fields, and its initial
/// rows, each row holding one optional cell per field, in field order.
pub struct CreateTableData {
    pub table: CreateTable,
    pub fields: Vec<CreateField>,
    pub entries: Vec<Vec<Option<Cell>>>,
}

impl Catalog {
    /// Feeds one imported table through the ordinary operations:
    /// creates the table, then its fields, then its rows. Either the
    /// whole table lands, or the catalog lists the same tables as
    /// before: a failure removes the partly built table again.
    pub fn import_table_data(&mut self, user_id: Id, data: CreateTableData, now: Timestamp) -> (r:
        ApiResult<Id>)
        requires
            old(self).well_formed(),
            data.table.parent_id is None,
            forall|j: int|
                0 <= j < data.fields@.len() ==> options_wf((#[trigger] data.fields@[j]).options),
        ensures
            final(self).well_formed(),
            r matches Ok(tid) ==> {
                let ti = table_index(final(self).tables@, tid);
                &&& has_table(final(self).tables@, tid)
                &&& final(self).fields@.filter(|f: Field| f.table_id == tid).len()
                    == data.fields@.len()
                &&& final(self).phys@[ti].rows@.len() == data.entries@.len()
            },
            r is Err ==> final(self).tables@.len() == old(self).tables@.len(),
    {
        let CreateTableData { table, fields, entries } = data;
        let t = match self.create_table(user_id, table, now) {
            Result::Ok(t) => t,
            Result::Err(e) => {
                return Err(e);
            },
        };
        let tid = t.table_id;
        let ghost after_create = *self;
        proof {
            lemma_table_index_is(self.tables@, self.tables@.len() - 1);
        }

        proof {
            broadcast use vstd::seq_lib::group_filter_ensures;

            let pred = |f: Field| f.table_id == tid;
            if self.fields@.filter(pred).len() > 0 {
                assert(pred(self.fields@.filter(pred)[0]));
                crate::catalog::lemma_filter_member(self.fields@, pred, 0);
                let w = choose|w: int|
                    0 <= w < self.fields@.len() && self.fields@[w] == self.fields@.filter(pred)[0];
                assert(has_table(old(self).tables@, old(self).fields@[w].table_id));
                let wt = table_index(old(self).tables@, tid);
                assert(0 <= wt < old(self).tables@.len() && old(self).tables@[wt].table_id == tid);
                assert(old(self).tables@[wt].table_id < old(self).next_table_id);
                assert(false);
            }
        }
        let nf = fields.len();
        let mut field_ids: Vec<Id> = Vec::new();
        let mut j: usize = 0;
        while j < nf
            invariant
                old(self).well_formed(),
                self.well_formed(),
                j <= nf,
                nf == fields@.len(),
                forall|jj: int|
                    0 <= jj < fields@.len() ==> options_wf((#[trigger] fields@[jj]).options),
                self.tables@ == after_create.tables@,
                after_create.tables@.len() == old(self).tables@.len() + 1,
                tid == old(self).next_table_id,
                has_table(self.tables@, tid),
                table_index(self.tables@, tid) == self.tables@.len() - 1,
                self.tables@[self.tables@.len() - 1].table_id == tid,
                forall|i: int|
                    0 <= i < self.tables@.len() - 1 ==> #[trigger] self.tables@[i] == old(
                        self,
                    ).tables@[i],
                self.phys@.len() == self.tables@.len(),
                self.phys@[self.tables@.len() - 1].rows@.len() == 0,
                self.fields@.filter(|f: Field| f.table_id == tid).len() == j,
                field_ids@.len() == j,
                forall|i1: int|
                    0 <= i1 < field_ids@.len() ==> #[trigger] field_ids@[i1]
                        < self.next_field_id,
                forall|i1: int, i2: int|
                    0 <= i1 < i2 < field_ids@.len() ==> #[trigger] field_ids@[i1]
                        != #[trigger] field_ids@[i2],
            decreases nf - j,
        {
            let cf = CreateField {
                name: fields[j].name.clone(),
                options: fields[j].options.dup(),
            };
            let ghost before = *self;
            match self.create_field(tid, cf, now) {
                Result::Ok(fid) => {
                    proof {
                        reveal(Seq::filter);
                        let pred = |f: Field| f.table_id == tid;
                        assert(self.fields@.drop_last() =~= before.fields@);
                        assert(self.fields@.filter(pred).len() == j + 1);
                        lemma_table_index_is(self.tables@, self.tables@.len() - 1);
                        assert(fid == before.next_field_id);
                    }
                    field_ids.push(fid);
                    j = j + 1;
                },
                Result::Err(_) => {
                    proof {
                        lemma_rollback_restores_count(*old(self), *self, tid);
                    }
                    match self.delete_table(tid) {
                        Result::Ok(()) => {},
                        Result::Err(_) => {
                            proof {
                                assert(false);
                            }
                        },
                    }
                    return Err(ApiError::Storage);
                },
            }
        }

        let ne = entries.len();
        let mut rows = entries;
        let mut done: usize = 0;
        while rows.len() > 0
            invariant
                old(self).well_formed(),
                self.well_formed(),
                done + rows@.len() == ne,
                field_ids@.len() == fields@.len(),
                forall|i1: int, i2: int|
                    0 <= i1 < i2 < field_ids@.len() ==> #[trigger] field_ids@[i1]
                        != #[trigger] field_ids@[i2],
                self.tables@ == after_create.tables@,
                after_create.tables@.len() == old(self).tables@.len() + 1,
                tid == old(self).next_table_id,
                has_table(self.tables@, tid),
                table_index(self.tables@, tid) == self.tables@.len() - 1,
                self.tables@[self.tables@.len() - 1].table_id == tid,
                forall|i: int|
                    0 <= i < self.tables@.len() - 1 ==> #[trigger] self.tables@[i] == old(
                        self,
                    ).tables@[i],
                self.phys@.len() == self.tables@.len(),
                self.fields@.filter(|f: Field| f.table_id == tid).len() == fields@.len(),
                self.phys@[self.tables@.len() - 1].rows@.len() == done,
            decreases rows@.len(),
        {
            let row = rows.remove(0);
            let mut vals: Vec<(Id, Cell)> = Vec::new();
            let mut rv = row;
            let mut i: usize = 0;
            while rv.len() > 0 && i < field_ids.len()
                invariant
                    field_ids@.len() == fields@.len(),
                    forall|i1: int, i2: int|
                        0 <= i1 < i2 < field_ids@.len() ==> #[trigger] field_ids@[i1]
                            != #[trigger] field_ids@[i2],
                    i <= field_ids@.len(),
                    forall|k1: int, k2: int|
                        0 <= k1 < k2 < vals@.len() ==> (#[trigger] vals@[k1]).0 != (
                        #[trigger] vals@[k2]).0,
                    forall|k: int|
                        0 <= k < vals@.len() ==> exists|w: int|
                            0 <= w < i && (#[trigger] vals@[k]).0 == field_ids@[w],
                decreases rv@.len(),
            {
                match rv.remove(0) {
                    Option::Some(cell) => {
                        let fid = field_ids[i];
                        proof {
                            assert forall|k: int|
                                0 <= k < vals@.len() implies (#[trigger] vals@[k]).0 != fid by {
                                let w = choose|w: int|
                                    0 <= w < i && (#[trigger] vals@[k]).0 == field_ids@[w];
                                assert(field_ids@[w] != field_ids@[i as int]);
                            }
                        }
                        vals.push((fid, cell));
                        proof {
                            assert forall|k: int| 0 <= k < vals@.len() implies exists|w: int|
                                0 <= w < i + 1 && (#[trigger] vals@[k]).0 == field_ids@[w] by {
                                if k < vals@.len() - 1 {
                                    let w = choose|w: int|
                                        0 <= w < i && (#[trigger] vals@[k]).0 == field_ids@[w];
                                    assert(0 <= w < i + 1 && vals@[k].0 == field_ids@[w]);
                                } else {
                                    assert(vals@[k].0 == field_ids@[i as int]);
                                }
                            }
                        }
                    },
                    Option::None => {},
                }
                proof {
                    assert forall|k: int| 0 <= k < vals@.len() implies exists|w: int|
                        0 <= w < i + 1 && (#[trigger] vals@[k]).0 == field_ids@[w] by {
                        let w0 = choose|w: int|
                            0 <= w < i + 1 && (#[trigger] vals@[k]).0 == field_ids@[w];
                        if !(0 <= w0 < i + 1 && vals@[k].0 == field_ids@[w0]) {
                            let w1 = choose|w: int|
                                0 <= w < i && (#[trigger] vals@[k]).0 == field_ids@[w];
                            assert(0 <= w1 < i + 1 && vals@[k].0 == field_ids@[w1]);
                        }
                    }
                }
                i = i + 1;
            }
            let ghost before = *self;
            match self.create_entry(tid, vals, None, now) {
                Result::Ok(_) => {
                    proof {
                        lemma_table_index_is(self.tables@, self.tables@.len() - 1);
                    }
                    done = done + 1;
                },
                Result::Err(_) => {
                    proof {
                        lemma_rollback_restores_count(*old(self), *self, tid);
                    }
                    match self.delete_table(tid) {
                        Result::Ok(()) => {},
                        Result::Err(_) => {
                            proof {
                                assert(false);
                            }
                        },
                    }
                    return Err(ApiError::Storage);
                },
            }
        }
        proof {
            lemma_table_index_is(self.tables@, self.tables@.len() - 1);
        }
        Ok(tid)
    }
}

/// Deleting the one table that an import added removes exactly that
/// table: nothing older can sit in its subtree, so the catalog ends as
/// long as it started.
proof fn lemma_rollback_restores_count(origc: Catalog, c: Catalog, tid: Id)
    requires
        origc.well_formed(),
        c.well_formed(),
        c.tables@.len() == origc.tables@.len() + 1,
        c.tables@[c.tables@.len() - 1].table_id == tid,
        tid == origc.next_table_id,
        forall|i: int|
            0 <= i < c.tables@.len() - 1 ==> #[trigger] c.tables@[i] == origc.tables@[i],
        has_table(c.tables@, tid),
    ensures
        c.tables@.filter(|t: Table| !crate::catalog::in_subtree(c.tables@, tid, t.table_id)).len()
            == origc.tables@.len(),
{
    let pred = |t: Table| !crate::catalog::in_subtree(c.tables@, tid, t.table_id);
    let last = c.tables@.len() - 1;
    assert(crate::catalog::in_subtree(c.tables@, tid, tid));
    assert(!pred(c.tables@[last]));
    assert forall|i: int| 0 <= i < c.tables@.len() && i != last implies pred(
        #[trigger] c.tables@[i],
    ) by {
        assert(c.tables@[i] == origc.tables@[i]);
        assert(origc.tables@[i].table_id < origc.next_table_id);
        lemma_older_not_in_subtree(c.tables@, tid, c.tables@[i].table_id);
    }
    lemma_filter_all_but_one(c.tables@, pred, last);
}

} // verus!
