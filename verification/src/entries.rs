//! Reading and writing entries against the physical relations.
//!
//! An entry is one stored row seen logically: its generated id, its
//! optional parent row, and one cell per field of its table. Writing
//! resolves the supplied cells against the table's live fields and
//! encodes them; reading decodes the stored column values back under
//! each field's kind.

use vstd::prelude::*;

use crate::catalog::{
    column_index, has_entry, has_table, table_index, Catalog, PhysColumn, PhysRow,
};
use crate::cells::{spec_decode, spec_encode, Cell, CellModel, PhysValue};
use crate::fields::{Field, Timestamp};
use crate::{ApiError, ApiResult, Id};

verus! {

/// One stored row of a table, decoded: one cell per field, in
/// field-id order, with absent values read back as nulls.
#[derive(PartialEq, Debug)]
pub struct Entry {
    pub entry_id: Id,
    pub parent_entry_id: Option<Id>,
    pub cells: Vec<(Id, Option<Cell>)>,
    pub created_at: Timestamp,
    pub updated_at: Option<Timestamp>,
}

/// The mathematical value of one cell slot of an entry.
pub open spec fn slot_view(s: (Id, Option<Cell>)) -> (Id, Option<CellModel>) {
    (
        s.0,
        match s.1 {
            Some(c) => Some(c@),
            None => None,
        },
    )
}

/// The mathematical value of an entry.
pub struct EntryModel {
    pub entry_id: Id,
    pub parent_entry_id: Option<Id>,
    pub cells: Seq<(Id, Option<CellModel>)>,
    pub created_at: Timestamp,
    pub updated_at: Option<Timestamp>,
}

impl View for Entry {
    type V = EntryModel;

    open spec fn view(&self) -> EntryModel {
        EntryModel {
            entry_id: self.entry_id,
            parent_entry_id: self.parent_entry_id,
            cells: self.cells@.map_values(|s: (Id, Option<Cell>)| slot_view(s)),
            created_at: self.created_at,
            updated_at: self.updated_at,
        }
    }
}

/// Whether one cell slot reads back the stored value of its field's
/// column: null stays null, and a stored value decodes under the
/// field's kind.
pub open spec fn slot_ok(c: Catalog, ti: int, r: int, f: Field, slot: (Id, Option<CellModel>)) -> bool {
    let cols = c.phys@[ti].columns@;
    let stored = c.phys@[ti].rows@[r].values@[column_index(cols, f.field_id)];
    &&& slot.0 == f.field_id
    &&& match stored {
        Option::None => slot.1 is None,
        Option::Some(pv) => slot.1 matches Some(cm) && spec_decode(f.options, pv@) == Ok::<
            CellModel,
            ApiError,
        >(cm),
    }
}

/// Whether an entry is the faithful decoding of one stored row: the
/// bookkeeping columns carried over, and one correctly decoded cell
/// per live field of the table, in field-id order.
pub open spec fn decoded_entry_ok(c: Catalog, ti: int, r: int, e: EntryModel) -> bool {
    let row = c.phys@[ti].rows@[r];
    let flds = c.fields@.filter(|f: Field| f.table_id == c.tables@[ti].table_id);
    &&& e.entry_id == row.entry_id
    &&& e.parent_entry_id == row.parent_entry_id
    &&& e.created_at == row.created_at
    &&& e.updated_at == row.updated_at
    &&& e.cells.len() == flds.len()
    &&& forall|k: int| 0 <= k < flds.len() ==> slot_ok(c, ti, r, flds[k], #[trigger] e.cells[k])
}

/// Columns stand in strictly increasing source-field order.
pub open spec fn columns_sorted(cols: Seq<PhysColumn>) -> bool {
    forall|c1: int, c2: int|
        0 <= c1 < c2 < cols.len() ==> #[trigger] cols[c1].source_field
            < #[trigger] cols[c2].source_field
}

/// With distinct source fields, the looked-up position is the only
/// one.
pub proof fn lemma_column_index_is(cols: Seq<PhysColumn>, c: int)
    requires
        columns_sorted(cols),
        0 <= c < cols.len(),
    ensures
        column_index(cols, cols[c].source_field) == c,
{
    let sf = cols[c].source_field;
    assert(exists|i: int| 0 <= i < cols.len() && (#[trigger] cols[i]).source_field == sf);
    let j = column_index(cols, sf);
    if c < j {
        assert(cols[c].source_field < cols[j].source_field);
    } else if j < c {
        assert(cols[j].source_field < cols[c].source_field);
    }
}

/// The position of the column derived from this field, if any.
fn find_column(cols: &Vec<PhysColumn>, source_field: Id) -> (r: Option<usize>)
    ensures
        r matches Some(c) ==> c < cols@.len() && cols@[c as int].source_field == source_field,
        r is None ==> forall|c: int|
            0 <= c < cols@.len() ==> (#[trigger] cols@[c]).source_field != source_field,
{
    let mut c: usize = 0;
    while c < cols.len()
        invariant
            c <= cols@.len(),
            forall|k: int| 0 <= k < c ==> (#[trigger] cols@[k]).source_field != source_field,
        decreases cols@.len() - c,
    {
        if cols[c].source_field == source_field {
            return Some(c);
        }
        c = c + 1;
    }
    None
}

/// Whether some supplied pair names this field.
pub open spec fn supplied(vals: Seq<(Id, Cell)>, fid: Id) -> bool {
    exists|k: int| 0 <= k < vals.len() && (#[trigger] vals[k]).0 == fid
}

/// The position of the supplied pair naming this field.
pub open spec fn supplied_index(vals: Seq<(Id, Cell)>, fid: Id) -> int {
    choose|k: int| 0 <= k < vals.len() && (#[trigger] vals[k]).0 == fid
}

/// Whether this table has a live field with this id.
pub open spec fn field_of_table(c: Catalog, table_id: Id, fid: Id) -> bool {
    exists|f: int|
        0 <= f < c.fields@.len() && (#[trigger] c.fields@[f]).field_id == fid
            && c.fields@[f].table_id == table_id
}

/// Whether every supplied cell that lands on a live field of the
/// table carries that field's kind.
pub open spec fn cells_typed(c: Catalog, table_id: Id, vals: Seq<(Id, Cell)>) -> bool {
    forall|k: int, f: int|
        0 <= k < vals.len() && 0 <= f < c.fields@.len() && (#[trigger] c.fields@[f]).field_id == (
        #[trigger] vals[k]).0 && c.fields@[f].table_id == table_id ==> crate::cells::cell_matches(
            vals[k].1@,
            c.fields@[f].options,
        )
}

/// Whether every `NOT NULL` column of the relation will receive a
/// value: its field is alive and a cell for it was supplied. An
/// orphaned non-nullable column can never be satisfied.
pub open spec fn required_ok(c: Catalog, ti: int, vals: Seq<(Id, Cell)>) -> bool {
    let cols = c.phys@[ti].columns@;
    forall|cc: int|
        0 <= cc < cols.len() && !(#[trigger] cols[cc]).nullable ==> field_of_table(
            c,
            c.tables@[ti].table_id,
            cols[cc].source_field,
        ) && supplied(vals, cols[cc].source_field)
}

/// Whether the supplied parent reference fits the table: absent
/// exactly when the table has no parent, and otherwise naming an
/// existing row of the parent's relation.
pub open spec fn parent_ok(c: Catalog, ti: int, parent_entry_id: Option<Id>) -> bool {
    match c.tables@[ti].parent_id {
        Option::None => parent_entry_id is None,
        Option::Some(pp) => parent_entry_id matches Some(pe) && has_entry(
            c.phys@[table_index(c.tables@, pp)].rows@,
            pe,
        ),
    }
}

/// Whether an insert into the table at `ti` goes through: the parent
/// reference fits, the supplied cells are typed, every required column
/// is served, and the relation can still assign an id.
pub open spec fn create_entry_ok(
    c: Catalog,
    ti: int,
    vals: Seq<(Id, Cell)>,
    parent_entry_id: Option<Id>,
) -> bool {
    &&& parent_ok(c, ti, parent_entry_id)
    &&& cells_typed(c, c.tables@[ti].table_id, vals)
    &&& required_ok(c, ti, vals)
    &&& c.phys@[ti].next_entry_id < i32::MAX
}

fn has_entry_exec(rows: &Vec<PhysRow>, pe: Id) -> (r: bool)
    ensures
        r == has_entry(rows@, pe),
{
    let mut i: usize = 0;
    while i < rows.len()
        invariant
            i <= rows@.len(),
            forall|k: int| 0 <= k < i ==> (#[trigger] rows@[k]).entry_id != pe,
        decreases rows@.len() - i,
    {
        if rows[i].entry_id == pe {
            return true;
        }
        i = i + 1;
    }
    false
}

impl Catalog {
    /// The position of this table's field with this id, if it is
    /// alive.
    pub(crate) fn find_table_field(&self, table_id: Id, fid: Id) -> (r: Option<usize>)
        ensures
            r matches Some(i) ==> i < self.fields@.len() && self.fields@[i as int].field_id == fid
                && self.fields@[i as int].table_id == table_id,
            r is Some <==> field_of_table(*self, table_id, fid),
    {
        let mut i: usize = 0;
        while i < self.fields.len()
            invariant
                i <= self.fields@.len(),
                forall|k: int|
                    0 <= k < i ==> !((#[trigger] self.fields@[k]).field_id == fid
                        && self.fields@[k].table_id == table_id),
            decreases self.fields@.len() - i,
        {
            if self.fields[i].field_id == fid && self.fields[i].table_id == table_id {
                return Some(i);
            }
            i = i + 1;
        }
        None
    }

    /// Inserts one entry: resolves the supplied cells against the
    /// table's live fields, encodes each present cell into its column,
    /// stores null everywhere else, and returns the generated entry
    /// id. A required column with no supplied cell fails the insert at
    /// the storage layer, as does an ill-typed cell or a bad parent
    /// reference. On any error nothing changes.
    pub fn create_entry(
        &mut self,
        table_id: Id,
        values: Vec<(Id, Cell)>,
        parent_entry_id: Option<Id>,
        now: Timestamp,
    ) -> (r: ApiResult<Id>)
        requires
            old(self).well_formed(),
            forall|i: int, j: int|
                0 <= i < j < values@.len() ==> (#[trigger] values@[i]).0 != (
                #[trigger] values@[j]).0,
        ensures
            final(self).well_formed(),
            !has_table(old(self).tables@, table_id) ==> r == Err::<Id, ApiError>(ApiError::NotFound)
                && *final(self) == *old(self),
            has_table(old(self).tables@, table_id) && !create_entry_ok(
                *old(self),
                table_index(old(self).tables@, table_id),
                values@,
                parent_entry_id,
            ) ==> r == Err::<Id, ApiError>(ApiError::Storage) && *final(self) == *old(self),
            has_table(old(self).tables@, table_id) && create_entry_ok(
                *old(self),
                table_index(old(self).tables@, table_id),
                values@,
                parent_entry_id,
            ) ==> {
                let ti = table_index(old(self).tables@, table_id);
                let cols = old(self).phys@[ti].columns@;
                let nr = final(self).phys@[ti].rows@.last();
                &&& r == Ok::<Id, ApiError>(old(self).phys@[ti].next_entry_id)
                &&& final(self).phys@.len() == old(self).phys@.len()
                &&& forall|p: int|
                    0 <= p < final(self).phys@.len() && p != ti
                        ==> (#[trigger] final(self).phys@[p]) == old(self).phys@[p]
                &&& final(self).phys@[ti].table_id == old(self).phys@[ti].table_id
                &&& final(self).phys@[ti].columns@ == cols
                &&& final(self).phys@[ti].next_entry_id == old(self).phys@[ti].next_entry_id + 1
                &&& final(self).phys@[ti].rows@.len() == old(self).phys@[ti].rows@.len() + 1
                &&& final(self).phys@[ti].rows@.drop_last() == old(self).phys@[ti].rows@
                &&& nr.entry_id == old(self).phys@[ti].next_entry_id
                &&& nr.parent_entry_id == parent_entry_id
                &&& nr.created_at == now
                &&& nr.updated_at is None
                &&& nr.values@.len() == cols.len()
                &&& forall|cc: int|
                    0 <= cc < cols.len() ==> if field_of_table(
                        *old(self),
                        table_id,
                        (#[trigger] cols[cc]).source_field,
                    ) && supplied(values@, cols[cc].source_field) {
                        nr.values@[cc] matches Some(pv) && pv@ == spec_encode(
                            values@[supplied_index(values@, cols[cc].source_field)].1@,
                        )
                    } else {
                        nr.values@[cc] is None
                    }
            },
            final(self).tables == old(self).tables,
            final(self).fields == old(self).fields,
            final(self).axes == old(self).axes,
            final(self).views == old(self).views,
            final(self).next_table_id == old(self).next_table_id,
            final(self).next_field_id == old(self).next_field_id,
            final(self).next_axis_id == old(self).next_axis_id,
    {
        let ti = match self.find_table_index(table_id) {
            Option::None => {
                return Err(ApiError::NotFound);
            },
            Option::Some(i) => i,
        };
        proof {
            crate::catalog::lemma_table_index_is(self.tables@, ti as int);
        }
        match self.tables[ti].parent_id {
            Option::None => {
                if parent_entry_id.is_some() {
                    return Err(ApiError::Storage);
                }
            },
            Option::Some(pp) => {
                match parent_entry_id {
                    Option::None => {
                        return Err(ApiError::Storage);
                    },
                    Option::Some(pe) => {
                        let pi = match self.find_table_index(pp) {
                            Option::Some(x) => x,
                            Option::None => {
                                proof {
                                    assert(false);
                                }
                                return Err(ApiError::Storage);
                            },
                        };
                        proof {
                            crate::catalog::lemma_table_index_is(self.tables@, pi as int);
                        }
                        if !has_entry_exec(&self.phys[pi].rows, pe) {
                            return Err(ApiError::Storage);
                        }
                    },
                }
            },
        }
        if self.phys[ti].next_entry_id == i32::MAX {
            return Err(ApiError::Storage);
        }
        proof {
            assert(parent_ok(*old(self), ti as int, parent_entry_id));
        }

        let ncols = self.phys[ti].columns.len();
        let mut row: Vec<Option<PhysValue>> = Vec::new();
        let mut c0: usize = 0;
        while c0 < ncols
            invariant
                c0 <= ncols,
                row@.len() == c0,
                forall|cc: int| 0 <= cc < c0 ==> (#[trigger] row@[cc]) is None,
            decreases ncols - c0,
        {
            row.push(None);
            c0 = c0 + 1;
        }

        let ghost src_vals = values@;
        let ghost cols = self.phys@[ti as int].columns@;
        let ghost mut src_map: Seq<int> = Seq::new(ncols as nat, |c: int| -1);
        let mut vals = values;
        proof {
            broadcast use vstd::std_specs::vec::axiom_spec_len;

            assert(vstd::std_specs::vec::spec_vec_len(&vals) <= usize::MAX);
            assert(src_vals.len() <= usize::MAX);
        }
        let mut w: usize = 0;
        while vals.len() > 0
            invariant
                *self == *old(self),
                self.well_formed(),
                ti < self.tables@.len(),
                table_id == self.tables@[ti as int].table_id,
                cols == self.phys@[ti as int].columns@,
                ncols == cols.len(),
                src_vals == values@,
                src_vals.len() <= usize::MAX,
                parent_ok(*old(self), ti as int, parent_entry_id),
                self.phys@[ti as int].next_entry_id < i32::MAX,
                forall|i: int, j: int|
                    0 <= i < j < src_vals.len() ==> (#[trigger] src_vals[i]).0 != (
                    #[trigger] src_vals[j]).0,
                w + vals@.len() == src_vals.len(),
                vals@ == src_vals.skip(w as int),
                row@.len() == ncols,
                src_map.len() == ncols,
                forall|cc: int|
                    0 <= cc < ncols ==> {
                        let m = #[trigger] src_map[cc];
                        &&& (m == -1 ==> row@[cc] is None)
                        &&& (m == -1 ==> forall|k: int|
                            0 <= k < w ==> !((#[trigger] src_vals[k]).0 == cols[cc].source_field
                                && field_of_table(*self, table_id, cols[cc].source_field)))
                        &&& (m != -1 ==> 0 <= m < w && src_vals[m].0 == cols[cc].source_field
                            && field_of_table(*self, table_id, cols[cc].source_field)
                            && (row@[cc] matches Some(pv) && pv@ == spec_encode(src_vals[m].1@)))
                    },
                forall|k: int, f: int|
                    0 <= k < w && 0 <= f < self.fields@.len() && (
                    #[trigger] self.fields@[f]).field_id == (#[trigger] src_vals[k]).0
                        && self.fields@[f].table_id == table_id ==> crate::cells::cell_matches(
                        src_vals[k].1@,
                        self.fields@[f].options,
                    ),
            decreases vals@.len(),
        {
            proof {
                assert(src_vals.skip(w as int)[0] == src_vals[w as int]);
                assert(src_vals.skip(w as int).remove(0) =~= src_vals.skip(w as int + 1));
            }
            let (fid, cell) = vals.remove(0);
            proof {
                assert((fid, cell) == src_vals[w as int]);
            }
            match self.find_table_field(table_id, fid) {
                Option::None => {
                    proof {
                        assert forall|cc: int|
                            0 <= cc < ncols && #[trigger] src_map[cc] == -1 implies forall|k: int|
                            0 <= k < w + 1 ==> !((#[trigger] src_vals[k]).0 == cols[cc].source_field
                                && field_of_table(*self, table_id, cols[cc].source_field)) by {
                            assert forall|k: int|
                                0 <= k < w + 1 implies !((#[trigger] src_vals[k]).0
                                == cols[cc].source_field && field_of_table(
                                *self,
                                table_id,
                                cols[cc].source_field,
                            )) by {
                                if k == w as int && src_vals[k].0 == cols[cc].source_field {
                                    assert(!field_of_table(*self, table_id, fid));
                                }
                            }
                        }
                    }
                },
                Option::Some(fi) => {
                    if !crate::cells::cell_matches_options(&cell, &self.fields[fi].options) {
                        proof {
                            crate::catalog::lemma_table_index_is(self.tables@, ti as int);
                            assert(!cells_typed(*self, table_id, src_vals)) by {
                                assert(self.fields@[fi as int].field_id == src_vals[w as int].0);
                                assert(!crate::cells::cell_matches(
                                    src_vals[w as int].1@,
                                    self.fields@[fi as int].options,
                                ));
                            }
                        }
                        return Err(ApiError::Storage);
                    }
                    proof {
                        assert(self.phys_table_wf(ti as int));
                        assert(crate::catalog::has_matching_column(
                            cols,
                            self.fields@[fi as int],
                        ));
                    }
                    let ci = match find_column(&self.phys[ti].columns, fid) {
                        Option::Some(c) => c,
                        Option::None => {
                            proof {
                                assert(false);
                            }
                            return Err(ApiError::Storage);
                        },
                    };
                    let ghost row_before = row@;
                    let pv = crate::cells::encode(cell);
                    let _slot = row.remove(ci);
                    row.insert(ci, Some(pv));
                    proof {
                        src_map = src_map.update(ci as int, w as int);
                        assert(row@ =~= row_before.update(ci as int, Some(pv)));
                        assert forall|cc: int| 0 <= cc < ncols implies {
                            let m = #[trigger] src_map[cc];
                            &&& (m == -1 ==> row@[cc] is None)
                            &&& (m == -1 ==> forall|k: int|
                                0 <= k < w + 1 ==> !((#[trigger] src_vals[k]).0
                                    == cols[cc].source_field && field_of_table(
                                    *self,
                                    table_id,
                                    cols[cc].source_field,
                                )))
                            &&& (m != -1 ==> 0 <= m < w + 1 && src_vals[m].0
                                == cols[cc].source_field && field_of_table(
                                *self,
                                table_id,
                                cols[cc].source_field,
                            ) && (row@[cc] matches Some(pv2) && pv2@ == spec_encode(
                                src_vals[m].1@,
                            )))
                        } by {
                            if cc == ci as int {
                                assert(src_map[cc] == w as int);
                                assert(row@[cc] == Some(pv));
                                assert(field_of_table(*self, table_id, fid)) by {
                                    assert(self.fields@[fi as int].field_id == fid);
                                }
                            } else {
                                assert(row@[cc] == row_before[cc]);
                                if src_map[cc] == -1 {
                                    assert forall|k: int|
                                        0 <= k < w + 1 implies !((#[trigger] src_vals[k]).0
                                        == cols[cc].source_field && field_of_table(
                                        *self,
                                        table_id,
                                        cols[cc].source_field,
                                    )) by {
                                        if k == w as int && src_vals[k].0 == cols[cc].source_field {
                                            assert(cols[ci as int].source_field == fid);
                                            lemma_column_index_is(cols, ci as int);
                                            lemma_column_index_is(cols, cc);
                                        }
                                    }
                                }
                            }
                        }
                    }
                },
            }
            w = w + 1;
        }

        proof {
            assert(src_vals.skip(src_vals.len() as int) =~= Seq::<(Id, Cell)>::empty());
        }
        let mut c1: usize = 0;
        while c1 < ncols
            invariant
                *self == *old(self),
                self.well_formed(),
                ti < self.tables@.len(),
                table_id == self.tables@[ti as int].table_id,
                cols == self.phys@[ti as int].columns@,
                ncols == cols.len(),
                src_vals == values@,
                parent_ok(*old(self), ti as int, parent_entry_id),
                self.phys@[ti as int].next_entry_id < i32::MAX,
                forall|i: int, j: int|
                    0 <= i < j < src_vals.len() ==> (#[trigger] src_vals[i]).0 != (
                    #[trigger] src_vals[j]).0,
                row@.len() == ncols,
                src_map.len() == ncols,
                forall|cc: int|
                    0 <= cc < ncols ==> {
                        let m = #[trigger] src_map[cc];
                        &&& (m == -1 ==> row@[cc] is None)
                        &&& (m == -1 ==> forall|k: int|
                            0 <= k < src_vals.len() ==> !((#[trigger] src_vals[k]).0
                                == cols[cc].source_field && field_of_table(
                                *self,
                                table_id,
                                cols[cc].source_field,
                            )))
                        &&& (m != -1 ==> 0 <= m < src_vals.len() && src_vals[m].0
                            == cols[cc].source_field && field_of_table(
                            *self,
                            table_id,
                            cols[cc].source_field,
                        ) && (row@[cc] matches Some(pv) && pv@ == spec_encode(src_vals[m].1@)))
                    },
                forall|k: int, f: int|
                    0 <= k < src_vals.len() && 0 <= f < self.fields@.len() && (
                    #[trigger] self.fields@[f]).field_id == (#[trigger] src_vals[k]).0
                        && self.fields@[f].table_id == table_id ==> crate::cells::cell_matches(
                        src_vals[k].1@,
                        self.fields@[f].options,
                    ),
                c1 <= ncols,
                forall|cc: int|
                    0 <= cc < c1 && !(#[trigger] cols[cc]).nullable ==> row@[cc] is Some,
            decreases ncols - c1,
        {
            if !self.phys[ti].columns[c1].nullable && row[c1].is_none() {
                proof {
                    crate::catalog::lemma_table_index_is(self.tables@, ti as int);
                    assert(!required_ok(*self, ti as int, src_vals)) by {
                        if field_of_table(*self, self.tables@[ti as int].table_id, cols[
                            c1 as int].source_field) && supplied(src_vals, cols[
                            c1 as int].source_field) {
                            let k = supplied_index(src_vals, cols[c1 as int].source_field);
                            assert(0 <= k < src_vals.len() && src_vals[k].0 == cols[
                                c1 as int].source_field);
                            assert(src_map[c1 as int] == -1 ==> false);
                            assert(src_map[c1 as int] != -1 ==> row@[c1 as int] is Some);
                        }
                    }
                }
                return Err(ApiError::Storage);
            }
            c1 = c1 + 1;
        }

        let mut pt = self.phys.remove(ti);
        let eid = pt.next_entry_id;
        pt.rows.push(
            PhysRow { entry_id: eid, parent_entry_id, created_at: now, updated_at: None, values: row },
        );
        pt.next_entry_id = eid + 1;
        self.phys.insert(ti, pt);
        proof {
            crate::catalog::lemma_table_index_is(self.tables@, ti as int);
            assert(self.phys@ =~= old(self).phys@.update(ti as int, self.phys@[ti as int]));
            assert(self.phys@[ti as int].rows@.drop_last() =~= old(self).phys@[ti as int].rows@);
            lemma_create_entry_commit(
                *old(self),
                *self,
                table_id,
                ti as int,
                src_vals,
                src_map,
                parent_entry_id,
                now,
            );
        }
        Ok(eid)
    }
}

/// Appending one well-typed, fully-checked row and bumping the entry
/// counter leaves the catalog well formed, and the new row holds
/// exactly the encoded supplied cells. The map `src_map` says which
/// supplied pair filled each column, `-1` for none.
proof fn lemma_create_entry_commit(
    oldc: Catalog,
    newc: Catalog,
    table_id: Id,
    ti: int,
    src_vals: Seq<(Id, Cell)>,
    src_map: Seq<int>,
    parent_entry_id: Option<Id>,
    now: Timestamp,
)
    requires
        oldc.well_formed(),
        0 <= ti < oldc.tables@.len(),
        oldc.tables@[ti].table_id == table_id,
        newc.tables@ == oldc.tables@,
        newc.fields@ == oldc.fields@,
        newc.views@ == oldc.views@,
        newc.axes@ == oldc.axes@,
        newc.next_table_id == oldc.next_table_id,
        newc.next_field_id == oldc.next_field_id,
        newc.next_axis_id == oldc.next_axis_id,
        newc.phys@.len() == oldc.phys@.len(),
        forall|p: int|
            0 <= p < newc.phys@.len() && p != ti ==> #[trigger] newc.phys@[p] == oldc.phys@[p],
        newc.phys@[ti].table_id == oldc.phys@[ti].table_id,
        newc.phys@[ti].columns@ == oldc.phys@[ti].columns@,
        oldc.phys@[ti].next_entry_id < i32::MAX,
        newc.phys@[ti].next_entry_id == oldc.phys@[ti].next_entry_id + 1,
        newc.phys@[ti].rows@.len() == oldc.phys@[ti].rows@.len() + 1,
        newc.phys@[ti].rows@.drop_last() == oldc.phys@[ti].rows@,
        newc.phys@[ti].rows@.last().entry_id == oldc.phys@[ti].next_entry_id,
        newc.phys@[ti].rows@.last().parent_entry_id == parent_entry_id,
        newc.phys@[ti].rows@.last().created_at == now,
        newc.phys@[ti].rows@.last().updated_at is None,
        newc.phys@[ti].rows@.last().values@.len() == oldc.phys@[ti].columns@.len(),
        src_map.len() == oldc.phys@[ti].columns@.len(),
        forall|i: int, j: int|
            0 <= i < j < src_vals.len() ==> (#[trigger] src_vals[i]).0 != (#[trigger] src_vals[j]).0,
        forall|cc: int|
            0 <= cc < src_map.len() ==> {
                let m = #[trigger] src_map[cc];
                let cols = oldc.phys@[ti].columns@;
                let nv = newc.phys@[ti].rows@.last().values@;
                &&& (m == -1 ==> nv[cc] is None)
                &&& (m == -1 ==> forall|k: int|
                    0 <= k < src_vals.len() ==> !((#[trigger] src_vals[k]).0
                        == cols[cc].source_field && field_of_table(
                        oldc,
                        table_id,
                        cols[cc].source_field,
                    )))
                &&& (m != -1 ==> 0 <= m < src_vals.len() && src_vals[m].0 == cols[cc].source_field
                    && field_of_table(oldc, table_id, cols[cc].source_field) && (nv[cc] matches Some(
                    pv,
                ) && pv@ == spec_encode(src_vals[m].1@)))
            },
        cells_typed(oldc, table_id, src_vals),
        forall|cc: int|
            0 <= cc < oldc.phys@[ti].columns@.len() && !(
            #[trigger] oldc.phys@[ti].columns@[cc]).nullable
                ==> newc.phys@[ti].rows@.last().values@[cc] is Some,
        parent_ok(oldc, ti, parent_entry_id),
    ensures
        newc.well_formed(),
        create_entry_ok(oldc, ti, src_vals, parent_entry_id),
        forall|cc: int|
            0 <= cc < oldc.phys@[ti].columns@.len() ==> if field_of_table(
                oldc,
                table_id,
                (#[trigger] oldc.phys@[ti].columns@[cc]).source_field,
            ) && supplied(src_vals, oldc.phys@[ti].columns@[cc].source_field) {
                newc.phys@[ti].rows@.last().values@[cc] matches Some(pv) && pv@ == spec_encode(
                    src_vals[supplied_index(src_vals, oldc.phys@[ti].columns@[cc].source_field)].1@,
                )
            } else {
                newc.phys@[ti].rows@.last().values@[cc] is None
            },
{
    let cols = oldc.phys@[ti].columns@;
    let nv = newc.phys@[ti].rows@.last().values@;
    let orows = oldc.phys@[ti].rows@;
    let nrows = newc.phys@[ti].rows@;

    assert forall|r: int| 0 <= r < orows.len() implies nrows[r] == orows[r] by {
        assert(nrows.drop_last()[r] == nrows[r]);
    }

    // The slot contract: each column holds the encoding of the one
    // supplied cell for its live field, or null.
    assert forall|cc: int| 0 <= cc < cols.len() implies if field_of_table(
        oldc,
        table_id,
        (#[trigger] cols[cc]).source_field,
    ) && supplied(src_vals, cols[cc].source_field) {
        nv[cc] matches Some(pv) && pv@ == spec_encode(
            src_vals[supplied_index(src_vals, cols[cc].source_field)].1@,
        )
    } else {
        nv[cc] is None
    } by {
        let m = src_map[cc];
        let sf = cols[cc].source_field;
        if field_of_table(oldc, table_id, sf) && supplied(src_vals, sf) {
            let k0 = supplied_index(src_vals, sf);
            assert(0 <= k0 < src_vals.len() && src_vals[k0].0 == sf);
            if m == -1 {
                assert(!(src_vals[k0].0 == sf && field_of_table(oldc, table_id, sf)));
                assert(false);
            }
            assert(m == k0) by {
                if m < k0 {
                    assert(src_vals[m].0 != src_vals[k0].0);
                } else if k0 < m {
                    assert(src_vals[k0].0 != src_vals[m].0);
                }
            }
        } else {
            if m != -1 {
                assert(src_vals[m].0 == sf);
                assert(supplied(src_vals, sf));
                assert(field_of_table(oldc, table_id, sf));
                assert(false);
            }
        }
    }

    // The insert was owed: the parent fits, the cells are typed, every
    // required column is served, and an id was left.
    assert(required_ok(oldc, ti, src_vals)) by {
        assert forall|cc: int|
            0 <= cc < cols.len() && !(#[trigger] cols[cc]).nullable implies field_of_table(
            oldc,
            table_id,
            cols[cc].source_field,
        ) && supplied(src_vals, cols[cc].source_field) by {
            assert(nv[cc] is Some);
            let m = src_map[cc];
            assert(m != -1);
            assert(src_vals[m].0 == cols[cc].source_field);
        }
    }

    // Well-formedness: only the one relation changed, by one appended
    // row whose values match their columns' types.
    assert(newc.tables_wf());
    assert(newc.fields_wf());
    assert(newc.views_wf());
    assert(newc.axes_wf());
    assert(newc.phys_aligned()) by {
        assert forall|p: int| 0 <= p < newc.phys@.len() implies (
        #[trigger] newc.phys@[p]).table_id == newc.tables@[p].table_id by {
            if p != ti {
                assert(newc.phys@[p] == oldc.phys@[p]);
            }
        }
    }

    assert forall|p: int| 0 <= p < newc.phys@.len() implies newc.phys_table_wf(p) by {
        assert(oldc.phys_table_wf(p));
        if p != ti {
            assert(newc.phys@[p] == oldc.phys@[p]);
            match newc.tables@[p].parent_id {
                Option::Some(pp) => {
                    let q = table_index(newc.tables@, pp);
                    assert forall|r: int| 0 <= r < newc.phys@[p].rows@.len() implies ((
                    #[trigger] newc.phys@[p].rows@[r]).parent_entry_id matches Some(pe)
                        && has_entry(newc.phys@[q].rows@, pe)) by {
                        assert(oldc.phys@[p].rows@[r].parent_entry_id matches Some(pe) && has_entry(
                            oldc.phys@[q].rows@,
                            pe,
                        ));
                        let pe0 = oldc.phys@[p].rows@[r].parent_entry_id->0;
                        let wr = choose|wr: int|
                            0 <= wr < oldc.phys@[q].rows@.len() && (
                            #[trigger] oldc.phys@[q].rows@[wr]).entry_id == pe0;
                        if q == ti {
                            assert(nrows[wr] == orows[wr]);
                            assert(nrows[wr].entry_id == pe0);
                        } else {
                            assert(newc.phys@[q] == oldc.phys@[q]);
                        }
                        assert(has_entry(newc.phys@[q].rows@, pe0));
                    }
                },
                Option::None => {},
            }
        } else {
            assert forall|r1: int, r2: int| 0 <= r1 < r2 < nrows.len() implies (
            #[trigger] nrows[r1]).entry_id < (#[trigger] nrows[r2]).entry_id by {
                if r2 < orows.len() {
                    assert(nrows[r1] == orows[r1]);
                    assert(nrows[r2] == orows[r2]);
                } else {
                    assert(nrows[r1] == orows[r1]);
                    assert(orows[r1].entry_id < oldc.phys@[ti].next_entry_id);
                }
            }
            assert forall|r: int| 0 <= r < nrows.len() implies 1 <= (#[trigger] nrows[r]).entry_id
                < newc.phys@[ti].next_entry_id by {
                if r < orows.len() {
                    assert(nrows[r] == orows[r]);
                }
            }
            assert forall|r: int| 0 <= r < nrows.len() implies (#[trigger] nrows[r]).values@.len()
                == cols.len() by {
                if r < orows.len() {
                    assert(nrows[r] == orows[r]);
                }
            }
            assert forall|r: int, cc: int|
                0 <= r < nrows.len() && 0 <= cc < cols.len() implies match (
            #[trigger] nrows[r].values@[cc]) {
                Option::None => cols[cc].nullable,
                Option::Some(v) => crate::cells::value_matches_column(v@, cols[cc].ctype),
            } by {
                if r < orows.len() {
                    assert(nrows[r] == orows[r]);
                } else {
                    let m = src_map[cc];
                    match nv[cc] {
                        Option::None => {
                            if !cols[cc].nullable {
                                assert(nv[cc] is Some);
                            }
                        },
                        Option::Some(v) => {
                            assert(m != -1);
                            assert(v@ == spec_encode(src_vals[m].1@));
                            let sf = cols[cc].source_field;
                            assert(field_of_table(oldc, table_id, sf));
                            let f = choose|f: int|
                                0 <= f < oldc.fields@.len() && (
                                #[trigger] oldc.fields@[f]).field_id == sf
                                    && oldc.fields@[f].table_id == table_id;
                            assert(crate::cells::cell_matches(
                                src_vals[m].1@,
                                oldc.fields@[f].options,
                            ));
                            crate::cells::lemma_encode_column_type(
                                oldc.fields@[f].options,
                                src_vals[m].1@,
                            );
                            assert(crate::catalog::has_matching_column(cols, oldc.fields@[f]));
                            let mc = choose|c: int|
                                0 <= c < cols.len() && (#[trigger] cols[c]).source_field
                                    == oldc.fields@[f].field_id && cols[c].ctype
                                    == crate::cells::column_type_spec(oldc.fields@[f].options)
                                    && cols[c].nullable == !crate::fields::is_required_spec(
                                    oldc.fields@[f].options,
                                );
                            lemma_column_index_is(cols, mc);
                            lemma_column_index_is(cols, cc);
                            assert(mc == cc);
                        },
                    }
                }
            }
            match newc.tables@[ti].parent_id {
                Option::Some(pp) => {
                    let q = table_index(newc.tables@, pp);
                    assert(q != ti) by {
                        crate::catalog::lemma_table_index_is(oldc.tables@, ti);
                        assert(1 <= pp < oldc.tables@[ti].table_id);
                        assert(0 <= q < oldc.tables@.len() && oldc.tables@[q].table_id == pp);
                    }
                    assert forall|r: int| 0 <= r < nrows.len() implies ((
                    #[trigger] nrows[r]).parent_entry_id matches Some(pe) && has_entry(
                        newc.phys@[q].rows@,
                        pe,
                    )) by {
                        assert(newc.phys@[q] == oldc.phys@[q]);
                        if r < orows.len() {
                            assert(nrows[r] == orows[r]);
                            assert(oldc.phys_table_wf(ti));
                            assert(orows[r].parent_entry_id matches Some(pe) && has_entry(
                                oldc.phys@[table_index(oldc.tables@, pp)].rows@,
                                pe,
                            ));
                        } else {
                            assert(nrows[r].parent_entry_id == parent_entry_id);
                            assert(parent_entry_id matches Some(pe) && has_entry(
                                oldc.phys@[table_index(oldc.tables@, pp)].rows@,
                                pe,
                            ));
                        }
                    }
                },
                Option::None => {
                    assert forall|r: int| 0 <= r < nrows.len() implies (
                    #[trigger] nrows[r]).parent_entry_id is None by {
                        if r < orows.len() {
                            assert(nrows[r] == orows[r]);
                            assert(oldc.phys_table_wf(ti));
                        }
                    }
                },
            }
        }
    }
}

impl Catalog {
    /// Decodes every stored row of the table at position `ti` into an
    /// entry, zipping column values with the table's fields.
    pub(crate) fn decode_table_entries(&self, ti: usize) -> (es: Vec<Entry>)
        requires
            self.well_formed(),
            ti < self.tables@.len(),
        ensures
            es@.len() == self.phys@[ti as int].rows@.len(),
            forall|r: int|
                0 <= r < es@.len() ==> decoded_entry_ok(*self, ti as int, r, (#[trigger] es@[r])@),
    {
        let table_id = self.tables[ti].table_id;
        let ghost pred = |f: Field| f.table_id == table_id;
        let mut es: Vec<Entry> = Vec::new();
        let mut r: usize = 0;
        while r < self.phys[ti].rows.len()
            invariant
                self.well_formed(),
                ti < self.tables@.len(),
                table_id == self.tables@[ti as int].table_id,
                r <= self.phys@[ti as int].rows@.len(),
                pred == (|f: Field| f.table_id == table_id),
                es@.len() == r,
                forall|rr: int|
                    0 <= rr < r ==> decoded_entry_ok(*self, ti as int, rr, (#[trigger] es@[rr])@),
            decreases self.phys@[ti as int].rows@.len() - r,
        {
            let mut cells: Vec<(Id, Option<Cell>)> = Vec::new();
            let mut i: usize = 0;
            while i < self.fields.len()
                invariant
                    self.well_formed(),
                    ti < self.tables@.len(),
                    table_id == self.tables@[ti as int].table_id,
                    r < self.phys@[ti as int].rows@.len(),
                    pred == (|f: Field| f.table_id == table_id),
                    i <= self.fields@.len(),
                    cells@.len() == self.fields@.take(i as int).filter(pred).len(),
                    forall|k: int|
                        0 <= k < cells@.len() ==> slot_ok(
                            *self,
                            ti as int,
                            r as int,
                            self.fields@.take(i as int).filter(pred)[k],
                            slot_view(#[trigger] cells@[k]),
                        ),
                decreases self.fields@.len() - i,
            {
                proof {
                    reveal(Seq::filter);
                    assert(self.fields@.take(i as int + 1).drop_last() =~= self.fields@.take(
                        i as int,
                    ));
                    assert(self.fields@.take(i as int + 1).last() == self.fields@[i as int]);
                }
                if self.fields[i].table_id == table_id {
                    proof {
                        assert(self.phys_table_wf(ti as int));
                        assert(crate::catalog::has_matching_column(
                            self.phys@[ti as int].columns@,
                            self.fields@[i as int],
                        ));
                    }
                    let fid = self.fields[i].field_id;
                    let ci = match find_column(&self.phys[ti].columns, fid) {
                        Option::Some(c) => c,
                        Option::None => {
                            proof {
                                assert(false);
                            }
                            0
                        },
                    };
                    proof {
                        lemma_column_index_is(self.phys@[ti as int].columns@, ci as int);
                        let cols = self.phys@[ti as int].columns@;
                        let mc = choose|c: int|
                            0 <= c < cols.len() && (#[trigger] cols[c]).source_field == fid
                                && cols[c].ctype == crate::cells::column_type_spec(
                                self.fields@[i as int].options,
                            ) && cols[c].nullable == !crate::fields::is_required_spec(
                                self.fields@[i as int].options,
                            );
                        lemma_column_index_is(cols, mc);
                        assert(mc == ci as int);
                        assert(cols[ci as int].ctype == crate::cells::column_type_spec(
                            self.fields@[i as int].options,
                        ));
                    }
                    let cellopt: Option<Cell> = match &self.phys[ti].rows[r].values[ci] {
                        Option::None => None,
                        Option::Some(pv) => {
                            proof {
                                assert(crate::cells::value_matches_column(
                                    pv@,
                                    self.phys@[ti as int].columns@[ci as int].ctype,
                                ));
                                crate::cells::lemma_decode_total_on_typed(
                                    self.fields@[i as int].options,
                                    pv@,
                                );
                            }
                            match crate::cells::decode(&self.fields[i].options, pv) {
                                Result::Ok(c) => Some(c),
                                Result::Err(_) => {
                                    proof {
                                        assert(false);
                                    }
                                    None
                                },
                            }
                        },
                    };
                    cells.push((fid, cellopt));
                }
                i = i + 1;
            }
            proof {
                assert(self.fields@.take(self.fields@.len() as int) =~= self.fields@);
            }
            let row = &self.phys[ti].rows[r];
            let e = Entry {
                entry_id: row.entry_id,
                parent_entry_id: row.parent_entry_id,
                cells,
                created_at: row.created_at,
                updated_at: row.updated_at,
            };
            proof {
                let em = e@;
                let flds = self.fields@.filter(pred);
                assert forall|k: int| 0 <= k < flds.len() implies slot_ok(
                    *self,
                    ti as int,
                    r as int,
                    flds[k],
                    #[trigger] em.cells[k],
                ) by {
                    assert(em.cells[k] == slot_view(e.cells@[k]));
                }
                assert(decoded_entry_ok(*self, ti as int, r as int, em));
            }
            es.push(e);
            r = r + 1;
        }
        es
    }

    /// The entries of a table, decoded in stored order, or that the
    /// table is missing.
    pub fn get_entries(&self, table_id: Id) -> (r: ApiResult<Vec<Entry>>)
        requires
            self.well_formed(),
        ensures
            !has_table(self.tables@, table_id) ==> r == Err::<Vec<Entry>, ApiError>(
                ApiError::NotFound,
            ),
            has_table(self.tables@, table_id) ==> (r matches Ok(es) && {
                let ti = table_index(self.tables@, table_id);
                es@.len() == self.phys@[ti].rows@.len() && forall|rr: int|
                    0 <= rr < es@.len() ==> decoded_entry_ok(*self, ti, rr, (#[trigger] es@[rr])@)
            }),
    {
        let ti = match self.find_table_index(table_id) {
            Option::None => {
                return Err(ApiError::NotFound);
            },
            Option::Some(i) => i,
        };
        proof {
            crate::catalog::lemma_table_index_is(self.tables@, ti as int);
        }
        Ok(self.decode_table_entries(ti))
    }
}

} // verus!
