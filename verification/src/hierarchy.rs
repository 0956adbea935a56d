//! Assembling tree-shaped results across parent and child tables.
//!
//! A table's full data is its catalog row, its fields, its decoded
//! entries, and the full data of every child table, assembled
//! recursively. Parents always precede their children in the catalog,
//! so the recursion descends through strictly larger table ids and
//! ends at the forest's depth.

use vstd::prelude::*;

use crate::catalog::{has_table, table_index, Catalog, Table};
use crate::entries::{decoded_entry_ok, Entry};
use crate::fields::Field;
use crate::{ApiError, ApiResult, Id};

verus! {

/// A table with everything in and under it: fields, entries, and each
/// child table's data in turn.
#[derive(PartialEq, Debug)]
pub struct TableData {
    pub table: Table,
    pub fields: Vec<Field>,
    pub entries: Vec<Entry>,
    pub children: Vec<TableData>,
}

/// Whether a tree faithfully presents the table it names: the catalog
/// row, the fields in field-id order, every stored row decoded, and
/// one correct subtree per child table, in catalog order.
pub open spec fn table_data_ok(c: Catalog, d: TableData) -> bool
    decreases d,
{
    let tid = d.table.table_id;
    let ti = table_index(c.tables@, tid);
    let flds = c.fields@.filter(|f: Field| f.table_id == tid);
    let kids = c.tables@.filter(|t: Table| t.parent_id == Some(tid));
    &&& has_table(c.tables@, tid)
    &&& d.table@ == c.tables@[ti]@
    &&& d.fields@.len() == flds.len()
    &&& forall|k: int| 0 <= k < flds.len() ==> (#[trigger] d.fields@[k])@ == flds[k]@
    &&& d.entries@.len() == c.phys@[ti].rows@.len()
    &&& forall|r: int|
        0 <= r < d.entries@.len() ==> decoded_entry_ok(c, ti, r, (#[trigger] d.entries@[r])@)
    &&& d.children@.len() == kids.len()
    &&& forall|k: int|
        0 <= k < kids.len() ==> (#[trigger] d.children@[k]).table.table_id == kids[k].table_id
            && table_data_ok(c, d.children@[k])
}

impl Catalog {
    /// Everything a table holds, assembled as a tree: the table, its
    /// fields and decoded entries, and the full data of every child
    /// table, recursively.
    pub fn get_table_data(&self, table_id: Id) -> (r: ApiResult<TableData>)
        requires
            self.well_formed(),
        ensures
            !has_table(self.tables@, table_id) ==> r == Err::<TableData, ApiError>(
                ApiError::NotFound,
            ),
            has_table(self.tables@, table_id) ==> (r matches Ok(d) && d.table.table_id == table_id
                && table_data_ok(*self, d)),
        decreases self.next_table_id - table_id,
    {
        let ti = match self.find_table_index(table_id) {
            Option::None => {
                return Err(ApiError::NotFound);
            },
            Option::Some(i) => i,
        };
        proof {
            crate::catalog::lemma_table_index_is(self.tables@, ti as int);
        }
        let table = self.tables[ti].dup();
        let fields = match self.get_fields(table_id) {
            Result::Ok(fs) => fs,
            Result::Err(_) => {
                proof {
                    assert(false);
                }
                return Err(ApiError::Storage);
            },
        };
        let entries = self.decode_table_entries(ti);

        // The children, in catalog order; each child is younger than
        // its parent, which bounds the recursion.
        let ghost kid_pred = |t: Table| t.parent_id == Some(table_id);
        let mut kid_ids: Vec<Id> = Vec::new();
        let mut i: usize = 0;
        while i < self.tables.len()
            invariant
                self.well_formed(),
                ti < self.tables@.len(),
                table_id == self.tables@[ti as int].table_id,
                i <= self.tables@.len(),
                kid_pred == (|t: Table| t.parent_id == Some(table_id)),
                kid_ids@.len() == self.tables@.take(i as int).filter(kid_pred).len(),
                forall|k: int|
                    0 <= k < kid_ids@.len() ==> #[trigger] kid_ids@[k] == self.tables@.take(
                        i as int,
                    ).filter(kid_pred)[k].table_id,
                forall|k: int|
                    0 <= k < kid_ids@.len() ==> table_id < #[trigger] kid_ids@[k]
                        < self.next_table_id,
            decreases self.tables@.len() - i,
        {
            proof {
                reveal(Seq::filter);
                assert(self.tables@.take(i as int + 1).drop_last() =~= self.tables@.take(i as int));
                assert(self.tables@.take(i as int + 1).last() == self.tables@[i as int]);
            }
            let keep = match self.tables[i].parent_id {
                Option::Some(p) => p == table_id,
                Option::None => false,
            };
            if keep {
                kid_ids.push(self.tables[i].table_id);
            }
            i = i + 1;
        }
        proof {
            assert(self.tables@.take(self.tables@.len() as int) =~= self.tables@);
        }

        let ghost kids = self.tables@.filter(kid_pred);
        let mut children: Vec<TableData> = Vec::new();
        let mut k: usize = 0;
        while k < kid_ids.len()
            invariant
                self.well_formed(),
                ti < self.tables@.len(),
                table_id == self.tables@[ti as int].table_id,
                kid_pred == (|t: Table| t.parent_id == Some(table_id)),
                kids == self.tables@.filter(kid_pred),
                kid_ids@.len() == kids.len(),
                forall|j: int| 0 <= j < kids.len() ==> #[trigger] kid_ids@[j] == kids[j].table_id,
                forall|j: int|
                    0 <= j < kids.len() ==> table_id < #[trigger] kid_ids@[j] < self.next_table_id,
                k <= kid_ids@.len(),
                children@.len() == k,
                forall|j: int|
                    0 <= j < k ==> (#[trigger] children@[j]).table.table_id == kids[j].table_id
                        && table_data_ok(*self, children@[j]),
            decreases kid_ids@.len() - k,
        {
            proof {
                broadcast use vstd::seq_lib::group_filter_ensures;

                assert(kid_pred(kids[k as int]));
                assert(kids[k as int].table_id == kid_ids@[k as int]);
                assert(has_table(self.tables@, kid_ids@[k as int])) by {
                    assert(self.tables@.contains(kids[k as int])) by {
                        assert(kids.contains(kids[k as int]));
                        crate::catalog::lemma_filter_member(self.tables@, kid_pred, k as int);
                    }
                    let w = choose|w: int|
                        0 <= w < self.tables@.len() && self.tables@[w] == kids[k as int];
                    assert(self.tables@[w].table_id == kid_ids@[k as int]);
                }
            }
            let child = match self.get_table_data(kid_ids[k]) {
                Result::Ok(d) => d,
                Result::Err(_) => {
                    proof {
                        assert(false);
                    }
                    return Err(ApiError::Storage);
                },
            };
            children.push(child);
            k = k + 1;
        }

        let d = TableData { table, fields, entries, children };
        proof {
            assert(table_data_ok(*self, d));
        }
        Ok(d)
    }
}

} // verus!
