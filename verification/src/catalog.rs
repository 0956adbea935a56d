//! The schema catalog and its mirrored physical storage.
//!
//! The catalog owns the logical rows describing tables, fields, axes
//! and compiled views, and mirrors every logical table as one physical
//! relation whose columns derive from the field kinds. Every operation
//! keeps the two layers consistent in one step: either the catalog row
//! and its physical counterpart both change, or neither does.

use vstd::prelude::*;

use crate::cells::{column_type_spec, ColumnType, PhysValue};
use crate::fields::{
    is_required_spec, options_wf, CreateField, Field, FieldOptions, Timestamp, UpdateField,
};
use crate::viz::{Axis, ViewDef};
use crate::{ApiError, ApiResult, Id};

verus! {

/// A catalog row describing one user-defined table.
#[derive(PartialEq, Debug)]
pub struct Table {
    pub table_id: Id,
    pub user_id: Id,
    pub parent_id: Option<Id>,
    pub name: String,
    pub description: String,
    pub created_at: Timestamp,
    pub updated_at: Option<Timestamp>,
}

/// The mathematical value of a table's catalog row.
pub struct TableModel {
    pub table_id: Id,
    pub user_id: Id,
    pub parent_id: Option<Id>,
    pub name: Seq<char>,
    pub description: Seq<char>,
    pub created_at: Timestamp,
    pub updated_at: Option<Timestamp>,
}

impl View for Table {
    type V = TableModel;

    open spec fn view(&self) -> TableModel {
        TableModel {
            table_id: self.table_id,
            user_id: self.user_id,
            parent_id: self.parent_id,
            name: self.name@,
            description: self.description@,
            created_at: self.created_at,
            updated_at: self.updated_at,
        }
    }
}

impl Table {
    /// An equal copy of the row, for rows that are both stored and
    /// returned.
    pub fn dup(&self) -> (r: Table)
        ensures
            r@ == self@,
    {
        Table {
            table_id: self.table_id,
            user_id: self.user_id,
            parent_id: self.parent_id,
            name: self.name.clone(),
            description: self.description.clone(),
            created_at: self.created_at,
            updated_at: self.updated_at,
        }
    }
}

/// A freshly assigned table id.
pub struct TableId {
    pub table_id: Id,
}

/// What a caller supplies to create a table.
pub struct CreateTable {
    pub parent_id: Option<Id>,
    pub name: String,
    pub description: String,
}

/// What a caller supplies to retitle a table.
pub struct UpdateTable {
    pub name: String,
    pub description: String,
}

/// How a table relates to a user: the ownership guard's answer.
#[derive(Clone, Copy, PartialEq, Eq, Structural, Debug)]
pub enum Relation {
    Owned,
    NotOwned,
    Absent,
}

impl Relation {
    /// A missing table is not found; another user's table is
    /// forbidden; an owned table passes.
    pub fn to_api_result(self) -> (r: ApiResult<()>)
        ensures
            self is Owned <==> r == Ok::<(), ApiError>(()),
            self is NotOwned <==> r == Err::<(), ApiError>(ApiError::Forbidden),
            self is Absent <==> r == Err::<(), ApiError>(ApiError::NotFound),
    {
        match self {
            Relation::Owned => Ok(()),
            Relation::NotOwned => Err(ApiError::Forbidden),
            Relation::Absent => Err(ApiError::NotFound),
        }
    }
}

/// One column of a physical relation, derived from a field. A column
/// outlives its field: deleting a field orphans the column.
#[derive(Clone, Copy, PartialEq, Eq, Structural, Debug)]
pub struct PhysColumn {
    pub source_field: Id,
    pub ctype: ColumnType,
    pub nullable: bool,
}

/// One stored row of a physical relation; `values` is aligned with the
/// relation's columns.
pub struct PhysRow {
    pub entry_id: Id,
    pub parent_entry_id: Option<Id>,
    pub created_at: Timestamp,
    pub updated_at: Option<Timestamp>,
    pub values: Vec<Option<PhysValue>>,
}

/// The physical relation mirroring one logical table.
pub struct PhysTable {
    pub table_id: Id,
    pub columns: Vec<PhysColumn>,
    pub rows: Vec<PhysRow>,
    pub next_entry_id: Id,
}

/// The catalog and the physical storage it mirrors.
pub struct Catalog {
    pub tables: Vec<Table>,
    pub phys: Vec<PhysTable>,
    pub fields: Vec<Field>,
    pub axes: Vec<Axis>,
    pub views: Vec<ViewDef>,
    pub next_table_id: Id,
    pub next_field_id: Id,
    pub next_axis_id: Id,
}

/// Whether a table with this id exists.
pub open spec fn has_table(tables: Seq<Table>, id: Id) -> bool {
    exists|i: int| 0 <= i < tables.len() && tables[i].table_id == id
}

/// The position of the table with this id.
pub open spec fn table_index(tables: Seq<Table>, id: Id) -> int {
    choose|i: int| 0 <= i < tables.len() && tables[i].table_id == id
}

/// Table rows stand in strictly increasing id order.
pub open spec fn tables_sorted(tables: Seq<Table>) -> bool {
    forall|i: int, j: int|
        0 <= i < j < tables.len() ==> #[trigger] tables[i].table_id < #[trigger] tables[j].table_id
}

/// With distinct ids, the looked-up position is the only one.
pub proof fn lemma_table_index_is(tables: Seq<Table>, i: int)
    requires
        tables_sorted(tables),
        0 <= i < tables.len(),
    ensures
        table_index(tables, tables[i].table_id) == i,
        has_table(tables, tables[i].table_id),
{
    let id = tables[i].table_id;
    assert(has_table(tables, id));
    let j = table_index(tables, id);
    if i < j {
        assert(tables[i].table_id < tables[j].table_id);
    } else if j < i {
        assert(tables[j].table_id < tables[i].table_id);
    }
}

/// Whether a table other than the one at `except` bears this name for
/// this user; `except` is `-1` to consider them all.
pub open spec fn name_taken_except(
    tables: Seq<Table>,
    user_id: Id,
    name: Seq<char>,
    except: int,
) -> bool {
    exists|i: int|
        0 <= i < tables.len() && i != except && #[trigger] tables[i].user_id == user_id
            && tables[i].name@ == name
}

/// Whether some table of this user already bears this name.
pub open spec fn table_name_taken(tables: Seq<Table>, user_id: Id, name: Seq<char>) -> bool {
    name_taken_except(tables, user_id, name, -1)
}

/// Whether the table with this id belongs to the subtree rooted at
/// `root`: it is the root itself, or its parent chain reaches the root.
/// Parents are older tables, so the chain descends through smaller ids.
pub open spec fn in_subtree(tables: Seq<Table>, root: Id, id: Id) -> bool
    decreases id,
{
    if id == root {
        true
    } else if has_table(tables, id) {
        match tables[table_index(tables, id)].parent_id {
            Option::Some(p) => if 0 <= p < id {
                in_subtree(tables, root, p)
            } else {
                false
            },
            Option::None => false,
        }
    } else {
        false
    }
}

/// Whether this chart's compiled view sits on a table of the subtree
/// being deleted, so that dropping the subtree cascades to the chart's
/// axes.
pub open spec fn chart_removed(views: Seq<ViewDef>, tables: Seq<Table>, root: Id, chart_id: Id) -> bool {
    exists|v: int|
        0 <= v < views.len() && (#[trigger] views[v]).chart_id == chart_id && in_subtree(
            tables,
            root,
            views[v].table_id,
        )
}

/// Whether a row with this entry id exists.
pub open spec fn has_entry(rows: Seq<PhysRow>, id: Id) -> bool {
    exists|r: int| 0 <= r < rows.len() && rows[r].entry_id == id
}

/// Whether this relation has a column derived from this field, with
/// the type and nullability the field's kind dictates.
pub open spec fn has_matching_column(cols: Seq<PhysColumn>, f: Field) -> bool {
    exists|c: int|
        0 <= c < cols.len() && (#[trigger] cols[c]).source_field == f.field_id && cols[c].ctype
            == column_type_spec(f.options) && cols[c].nullable == !is_required_spec(f.options)
}

/// The position of the column derived from this field.
pub open spec fn column_index(cols: Seq<PhysColumn>, field_id: Id) -> int {
    choose|c: int| 0 <= c < cols.len() && cols[c].source_field == field_id
}

impl Catalog {
    /// The catalog's table rows are sorted, their ids are below the
    /// id counter, every parent is an older table that still exists,
    /// and no user holds two tables of one name.
    pub open spec fn tables_wf(self) -> bool {
        &&& self.next_table_id >= 1
        &&& tables_sorted(self.tables@)
        &&& forall|i: int|
            0 <= i < self.tables@.len() ==> 1 <= (#[trigger] self.tables@[i]).table_id
                < self.next_table_id
        &&& forall|i: int|
            0 <= i < self.tables@.len() ==> ((#[trigger] self.tables@[i]).parent_id matches Some(p)
                ==> 1 <= p < self.tables@[i].table_id && has_table(self.tables@, p))
        &&& forall|i: int, j: int|
            0 <= i < self.tables@.len() && 0 <= j < self.tables@.len() && i != j && (
            #[trigger] self.tables@[i]).user_id == (#[trigger] self.tables@[j]).user_id
                ==> self.tables@[i].name@ != self.tables@[j].name@
    }

    /// One physical relation per table, in the same order.
    pub open spec fn phys_aligned(self) -> bool {
        &&& self.phys@.len() == self.tables@.len()
        &&& forall|i: int|
            0 <= i < self.phys@.len() ==> (#[trigger] self.phys@[i]).table_id
                == self.tables@[i].table_id
    }

    /// Field rows are sorted by id, their ids are below the id
    /// counter, each belongs to an existing table, no table holds two
    /// fields of one name, and every kind's parameters are well formed.
    pub open spec fn fields_wf(self) -> bool {
        &&& self.next_field_id >= 1
        &&& forall|i: int, j: int|
            0 <= i < j < self.fields@.len() ==> (#[trigger] self.fields@[i]).field_id < (
            #[trigger] self.fields@[j]).field_id
        &&& forall|i: int|
            0 <= i < self.fields@.len() ==> 1 <= (#[trigger] self.fields@[i]).field_id
                < self.next_field_id
        &&& forall|i: int|
            0 <= i < self.fields@.len() ==> has_table(
                self.tables@,
                (#[trigger] self.fields@[i]).table_id,
            )
        &&& forall|i: int, j: int|
            0 <= i < self.fields@.len() && 0 <= j < self.fields@.len() && i != j && (
            #[trigger] self.fields@[i]).table_id == (#[trigger] self.fields@[j]).table_id
                ==> self.fields@[i].name@ != self.fields@[j].name@
        &&& forall|i: int|
            0 <= i < self.fields@.len() ==> options_wf((#[trigger] self.fields@[i]).options)
    }

    /// One physical relation is well formed: columns are sorted by
    /// their source field, every live field of the table has its
    /// column, rows are shaped like the column list, hold values of the
    /// columns' types, respect `NOT NULL`, carry increasing entry ids
    /// below the relation's id counter, and reference a parent row
    /// exactly when the table has a parent.
    pub open spec fn phys_table_wf(self, p: int) -> bool {
        let pt = self.phys@[p];
        let cols = pt.columns@;
        let rows = pt.rows@;
        &&& pt.next_entry_id >= 1
        &&& forall|c1: int, c2: int|
            0 <= c1 < c2 < cols.len() ==> (#[trigger] cols[c1]).source_field < (
            #[trigger] cols[c2]).source_field
        &&& forall|c: int|
            0 <= c < cols.len() ==> 1 <= (#[trigger] cols[c]).source_field < self.next_field_id
        &&& forall|f: int|
            0 <= f < self.fields@.len() && (#[trigger] self.fields@[f]).table_id
                == self.tables@[p].table_id ==> has_matching_column(cols, self.fields@[f])
        &&& forall|r1: int, r2: int|
            0 <= r1 < r2 < rows.len() ==> (#[trigger] rows[r1]).entry_id < (
            #[trigger] rows[r2]).entry_id
        &&& forall|r: int|
            0 <= r < rows.len() ==> 1 <= (#[trigger] rows[r]).entry_id < pt.next_entry_id
        &&& forall|r: int| 0 <= r < rows.len() ==> (#[trigger] rows[r]).values@.len() == cols.len()
        &&& forall|r: int, c: int|
            0 <= r < rows.len() && 0 <= c < cols.len() ==> match (#[trigger] rows[r].values@[c]) {
                Option::None => cols[c].nullable,
                Option::Some(v) => crate::cells::value_matches_column(v@, cols[c].ctype),
            }
        &&& match self.tables@[p].parent_id {
            Option::Some(pp) => forall|r: int|
                0 <= r < rows.len() ==> ((#[trigger] rows[r]).parent_entry_id matches Some(pe)
                    && has_entry(
                    self.phys@[table_index(self.tables@, pp)].rows@,
                    pe,
                )),
            Option::None => forall|r: int|
                0 <= r < rows.len() ==> (#[trigger] rows[r]).parent_entry_id is None,
        }
    }

    /// Compiled views name existing tables, one per chart, and their
    /// columns carry catalog-assigned ids fit for identifier
    /// generation.
    pub open spec fn views_wf(self) -> bool {
        &&& forall|v1: int, v2: int|
            0 <= v1 < self.views@.len() && 0 <= v2 < self.views@.len() && v1 != v2 ==> (
            #[trigger] self.views@[v1]).chart_id != (#[trigger] self.views@[v2]).chart_id
        &&& forall|v: int|
            0 <= v < self.views@.len() ==> (#[trigger] self.views@[v]).chart_id >= 1 && has_table(
                self.tables@,
                self.views@[v].table_id,
            )
        &&& forall|v: int, k: int|
            0 <= v < self.views@.len() && 0 <= k < (#[trigger] self.views@[v]).select@.len() ==> 1
                <= (#[trigger] self.views@[v].select@[k]).field_id < self.next_field_id && 1
                <= self.views@[v].select@[k].axis_id < self.next_axis_id
        &&& forall|v: int, k: int|
            0 <= v < self.views@.len() && 0 <= k < (#[trigger] self.views@[v]).group_by@.len()
                ==> 1 <= #[trigger] self.views@[v].group_by@[k] < self.next_field_id
    }

    /// Axis rows are sorted by id, below the id counter, and name
    /// charts that ids could have been assigned for.
    pub open spec fn axes_wf(self) -> bool {
        &&& self.next_axis_id >= 1
        &&& forall|i: int, j: int|
            0 <= i < j < self.axes@.len() ==> (#[trigger] self.axes@[i]).axis_id < (
            #[trigger] self.axes@[j]).axis_id
        &&& forall|i: int|
            0 <= i < self.axes@.len() ==> 1 <= (#[trigger] self.axes@[i]).axis_id
                < self.next_axis_id
        &&& forall|i: int| 0 <= i < self.axes@.len() ==> (#[trigger] self.axes@[i]).chart_id >= 1
    }

    /// The whole catalog invariant: every operation requires it and
    /// re-establishes it.
    pub open spec fn well_formed(self) -> bool {
        &&& self.tables_wf()
        &&& self.phys_aligned()
        &&& self.fields_wf()
        &&& forall|p: int| 0 <= p < self.phys@.len() ==> self.phys_table_wf(p)
        &&& self.views_wf()
        &&& self.axes_wf()
    }

    /// An empty catalog: no tables, no fields, no axes, no views.
    pub fn new() -> (c: Catalog)
        ensures
            c.well_formed(),
            c.tables@.len() == 0,
            c.phys@.len() == 0,
            c.fields@.len() == 0,
            c.axes@.len() == 0,
            c.views@.len() == 0,
            c.next_table_id == 1,
    {
        Catalog {
            tables: Vec::new(),
            phys: Vec::new(),
            fields: Vec::new(),
            axes: Vec::new(),
            views: Vec::new(),
            next_table_id: 1,
            next_field_id: 1,
            next_axis_id: 1,
        }
    }

    /// The position of the table with this id, if any.
    pub fn find_table_index(&self, table_id: Id) -> (r: Option<usize>)
        ensures
            r matches Some(i) ==> i < self.tables@.len() && self.tables@[i as int].table_id
                == table_id,
            r is Some <==> has_table(self.tables@, table_id),
    {
        let mut i: usize = 0;
        while i < self.tables.len()
            invariant
                i <= self.tables@.len(),
                forall|k: int| 0 <= k < i ==> (#[trigger] self.tables@[k]).table_id != table_id,
            decreases self.tables@.len() - i,
        {
            if self.tables[i].table_id == table_id {
                return Some(i);
            }
            i = i + 1;
        }
        None
    }

    /// The ownership guard: whether this table exists and belongs to
    /// this user.
    pub fn check_table_relation(&self, user_id: Id, table_id: Id) -> (r: Relation)
        requires
            self.well_formed(),
        ensures
            r == (if !has_table(self.tables@, table_id) {
                Relation::Absent
            } else if self.tables@[table_index(self.tables@, table_id)].user_id == user_id {
                Relation::Owned
            } else {
                Relation::NotOwned
            }),
    {
        match self.find_table_index(table_id) {
            Option::None => Relation::Absent,
            Option::Some(i) => {
                proof {
                    lemma_table_index_is(self.tables@, i as int);
                }
                if self.tables[i].user_id == user_id {
                    Relation::Owned
                } else {
                    Relation::NotOwned
                }
            },
        }
    }

    /// Every table this user owns, in catalog order.
    pub fn get_tables(&self, user_id: Id) -> (r: Vec<Table>)
        ensures
            r@.len() == self.tables@.filter(|t: Table| t.user_id == user_id).len(),
            forall|k: int|
                0 <= k < r@.len() ==> (#[trigger] r@[k])@ == self.tables@.filter(
                    |t: Table| t.user_id == user_id,
                )[k]@,
    {
        let ghost pred = |t: Table| t.user_id == user_id;
        let mut r: Vec<Table> = Vec::new();
        let mut i: usize = 0;
        while i < self.tables.len()
            invariant
                i <= self.tables@.len(),
                r@.len() == self.tables@.take(i as int).filter(pred).len(),
                forall|k: int|
                    0 <= k < r@.len() ==> (#[trigger] r@[k])@ == self.tables@.take(
                        i as int,
                    ).filter(pred)[k]@,
                pred == (|t: Table| t.user_id == user_id),
            decreases self.tables@.len() - i,
        {
            proof {
                reveal(Seq::filter);
                assert(self.tables@.take(i as int + 1).drop_last() =~= self.tables@.take(i as int));
                assert(self.tables@.take(i as int + 1).last() == self.tables@[i as int]);
            }
            if self.tables[i].user_id == user_id {
                r.push(self.tables[i].dup());
            }
            i = i + 1;
        }
        proof {
            assert(self.tables@.take(self.tables@.len() as int) =~= self.tables@);
        }
        r
    }

    /// A table's parent reference, or that the table is missing.
    pub fn get_table_parent_id(&self, table_id: Id) -> (r: ApiResult<Option<Id>>)
        requires
            self.well_formed(),
        ensures
            has_table(self.tables@, table_id) ==> r == Ok::<Option<Id>, ApiError>(
                self.tables@[table_index(self.tables@, table_id)].parent_id,
            ),
            !has_table(self.tables@, table_id) ==> r == Err::<Option<Id>, ApiError>(
                ApiError::NotFound,
            ),
    {
        match self.find_table_index(table_id) {
            Option::None => Err(ApiError::NotFound),
            Option::Some(i) => {
                proof {
                    lemma_table_index_is(self.tables@, i as int);
                }
                Ok(self.tables[i].parent_id)
            },
        }
    }

    /// Whether a table other than the one at `except` bears this name
    /// for this user.
    fn name_in_use(&self, user_id: Id, name: &String, except: Option<usize>) -> (r: bool)
        ensures
            r == name_taken_except(
                self.tables@,
                user_id,
                name@,
                match except {
                    Some(e) => e as int,
                    None => -1,
                },
            ),
    {
        let ghost ex: int = match except {
            Some(e) => e as int,
            None => -1,
        };
        let mut i: usize = 0;
        while i < self.tables.len()
            invariant
                i <= self.tables@.len(),
                ex == (match except {
                    Some(e) => e as int,
                    None => -1,
                }),
                forall|k: int|
                    0 <= k < i && k != ex ==> !((#[trigger] self.tables@[k]).user_id == user_id
                        && self.tables@[k].name@ == name@),
            decreases self.tables@.len() - i,
        {
            let skip = match except {
                Some(e) => i == e,
                None => false,
            };
            if !skip && self.tables[i].user_id == user_id && self.tables[i].name == *name {
                return true;
            }
            i = i + 1;
        }
        false
    }

    /// What creating a table runs into, in the order the storage
    /// layer would: a missing parent breaks the parent reference, a
    /// duplicate name breaks the per-user uniqueness constraint, and an
    /// exhausted id counter fails the insert itself.
    pub open spec fn create_table_check(
        self,
        user_id: Id,
        parent_id: Option<Id>,
        name: Seq<char>,
    ) -> Result<(), ApiError> {
        if parent_id matches Some(p) && !has_table(self.tables@, p) {
            Err(ApiError::Storage)
        } else if table_name_taken(self.tables@, user_id, name) {
            Err(ApiError::Conflict)
        } else if self.next_table_id == i32::MAX {
            Err(ApiError::Storage)
        } else {
            Ok(())
        }
    }

    /// Creates a table: inserts its catalog row under a fresh id and
    /// creates its empty physical relation, in one step. Nothing else
    /// changes; on any error nothing changes at all.
    pub fn create_table(&mut self, user_id: Id, ct: CreateTable, now: Timestamp) -> (r: ApiResult<
        Table,
    >)
        requires
            old(self).well_formed(),
        ensures
            final(self).well_formed(),
            old(self).create_table_check(user_id, ct.parent_id, ct.name@) matches Err(e) ==> r
                == Err::<Table, ApiError>(e) && *final(self) == *old(self),
            old(self).create_table_check(user_id, ct.parent_id, ct.name@) is Ok ==> {
                let m = TableModel {
                    table_id: old(self).next_table_id,
                    user_id,
                    parent_id: ct.parent_id,
                    name: ct.name@,
                    description: ct.description@,
                    created_at: now,
                    updated_at: None,
                };
                &&& r matches Ok(t) && t@ == m
                &&& final(self).tables@.len() == old(self).tables@.len() + 1
                &&& final(self).tables@.subrange(0, old(self).tables@.len() as int) == old(
                    self,
                ).tables@
                &&& final(self).tables@.last()@ == m
                &&& final(self).phys@.len() == old(self).phys@.len() + 1
                &&& final(self).phys@.subrange(0, old(self).phys@.len() as int) == old(self).phys@
                &&& final(self).phys@.last().table_id == old(self).next_table_id
                &&& final(self).phys@.last().columns@.len() == 0
                &&& final(self).phys@.last().rows@.len() == 0
                &&& final(self).next_table_id == old(self).next_table_id + 1
            },
            final(self).fields == old(self).fields,
            final(self).axes == old(self).axes,
            final(self).views == old(self).views,
            final(self).next_field_id == old(self).next_field_id,
            final(self).next_axis_id == old(self).next_axis_id,
    {
        let CreateTable { parent_id, name, description } = ct;
        if let Some(p) = parent_id {
            if self.find_table_index(p).is_none() {
                return Err(ApiError::Storage);
            }
        }
        if self.name_in_use(user_id, &name, None) {
            return Err(ApiError::Conflict);
        }
        if self.next_table_id == i32::MAX {
            return Err(ApiError::Storage);
        }
        let t = Table {
            table_id: self.next_table_id,
            user_id,
            parent_id,
            name,
            description,
            created_at: now,
            updated_at: None,
        };
        let out = t.dup();
        let ghost old_tables = self.tables@;
        self.tables.push(t);
        self.phys.push(
            PhysTable {
                table_id: self.next_table_id,
                columns: Vec::new(),
                rows: Vec::new(),
                next_entry_id: 1,
            },
        );
        self.next_table_id = self.next_table_id + 1;
        proof {
            assert(self.tables@.subrange(0, old_tables.len() as int) =~= old_tables);
            assert(self.phys@.subrange(0, old(self).phys@.len() as int) =~= old(self).phys@);
            assert forall|k: int| 0 <= k < self.tables@.len() implies ((
            #[trigger] self.tables@[k]).parent_id matches Some(p) ==> 1 <= p
                < self.tables@[k].table_id && has_table(self.tables@, p)) by {
                if k < old_tables.len() {
                    assert(self.tables@[k] == old_tables[k]);
                    if old_tables[k].parent_id is Some {
                        let p = old_tables[k].parent_id->0;
                        let w = table_index(old_tables, p);
                        assert(self.tables@[w].table_id == p);
                    }
                } else {
                    if parent_id is Some {
                        let p = parent_id->0;
                        let w = table_index(old_tables, p);
                        assert(self.tables@[w].table_id == p);
                        assert(1 <= p < self.tables@[k].table_id);
                    }
                }
            }
            assert forall|k: int| 0 <= k < self.fields@.len() implies has_table(
                self.tables@,
                (#[trigger] self.fields@[k]).table_id,
            ) by {
                let w = table_index(old_tables, self.fields@[k].table_id);
                assert(self.tables@[w].table_id == self.fields@[k].table_id);
            }
            assert forall|p: int| 0 <= p < self.phys@.len() implies self.phys_table_wf(p) by {
                if p < old(self).phys@.len() {
                    assert(old(self).phys_table_wf(p));
                    assert(self.phys@[p] == old(self).phys@[p]);
                    assert(self.tables@[p] == old_tables[p]);
                    if old_tables[p].parent_id is Some {
                        let pp = old_tables[p].parent_id->0;
                        let w = table_index(old_tables, pp);
                        lemma_table_index_is(old_tables, w);
                        lemma_table_index_is(self.tables@, w);
                        assert(table_index(self.tables@, pp) == w);
                    }
                } else {
                    assert(self.phys@[p].rows@.len() == 0);
                    assert(self.phys@[p].columns@.len() == 0);
                    assert forall|f: int|
                        0 <= f < self.fields@.len() && (#[trigger] self.fields@[f]).table_id
                            == self.tables@[p].table_id implies has_matching_column(
                        self.phys@[p].columns@,
                        self.fields@[f],
                    ) by {
                        let w = table_index(old_tables, self.fields@[f].table_id);
                        assert(old_tables[w].table_id < old(self).next_table_id);
                    }
                }
            }
            assert forall|v: int| 0 <= v < self.views@.len() implies (
            #[trigger] self.views@[v]).chart_id >= 1 && has_table(
                self.tables@,
                self.views@[v].table_id,
            ) by {
                let w = table_index(old_tables, self.views@[v].table_id);
                assert(self.tables@[w].table_id == self.views@[v].table_id);
            }
        }
        Ok(out)
    }

    /// Whether another table of the same user already bears the name.
    pub open spec fn update_name_conflict(self, ti: int, user_id: Id, name: Seq<char>) -> bool {
        name_taken_except(self.tables@, user_id, name, ti)
    }

    /// Retitles a table: a catalog-only mutation of its name and
    /// description, stamping the update time. On any error nothing
    /// changes.
    pub fn update_table(&mut self, table_id: Id, ut: UpdateTable, now: Timestamp) -> (r: ApiResult<
        Table,
    >)
        requires
            old(self).well_formed(),
        ensures
            final(self).well_formed(),
            !has_table(old(self).tables@, table_id) ==> r == Err::<Table, ApiError>(
                ApiError::NotFound,
            ) && *final(self) == *old(self),
            has_table(old(self).tables@, table_id) && old(self).update_name_conflict(
                table_index(old(self).tables@, table_id),
                old(self).tables@[table_index(old(self).tables@, table_id)].user_id,
                ut.name@,
            ) ==> r == Err::<Table, ApiError>(ApiError::Conflict) && *final(self) == *old(self),
            has_table(old(self).tables@, table_id) && !old(self).update_name_conflict(
                table_index(old(self).tables@, table_id),
                old(self).tables@[table_index(old(self).tables@, table_id)].user_id,
                ut.name@,
            ) ==> {
                let ti = table_index(old(self).tables@, table_id);
                &&& final(self).tables@.len() == old(self).tables@.len()
                &&& forall|k: int|
                    0 <= k < final(self).tables@.len() && k != ti ==> (#[trigger] final(self).tables@[k]) == old(self).tables@[k]
                &&& final(self).tables@[ti]@ == (TableModel {
                    name: ut.name@,
                    description: ut.description@,
                    updated_at: Some(now),
                    ..old(self).tables@[ti]@
                })
                &&& r matches Ok(t) && t@ == final(self).tables@[ti]@
            },
            final(self).phys == old(self).phys,
            final(self).fields == old(self).fields,
            final(self).axes == old(self).axes,
            final(self).views == old(self).views,
            final(self).next_table_id == old(self).next_table_id,
            final(self).next_field_id == old(self).next_field_id,
            final(self).next_axis_id == old(self).next_axis_id,
    {
        let ti = match self.find_table_index(table_id) {
            Option::None => {
                return Err(ApiError::NotFound);
            },
            Option::Some(i) => i,
        };
        proof {
            lemma_table_index_is(self.tables@, ti as int);
        }
        let user_id = self.tables[ti].user_id;
        if self.name_in_use(user_id, &ut.name, Some(ti)) {
            return Err(ApiError::Conflict);
        }
        let UpdateTable { name, description } = ut;
        let t = self.tables.remove(ti);
        let t2 = Table {
            table_id: t.table_id,
            user_id: t.user_id,
            parent_id: t.parent_id,
            name,
            description,
            created_at: t.created_at,
            updated_at: Some(now),
        };
        self.tables.insert(ti, t2);
        let out = self.tables[ti].dup();
        proof {
            assert(self.tables@ =~= old(self).tables@.update(
                ti as int,
                self.tables@[ti as int],
            ));
            assert forall|k: int| 0 <= k < self.tables@.len() implies ((
            #[trigger] self.tables@[k]).parent_id matches Some(p) ==> 1 <= p
                < self.tables@[k].table_id && has_table(self.tables@, p)) by {
                if old(self).tables@[k].parent_id is Some {
                    let p = old(self).tables@[k].parent_id->0;
                    let w = table_index(old(self).tables@, p);
                    assert(self.tables@[w].table_id == p);
                }
            }
            assert forall|k: int| 0 <= k < self.fields@.len() implies has_table(
                self.tables@,
                (#[trigger] self.fields@[k]).table_id,
            ) by {
                let w = table_index(old(self).tables@, self.fields@[k].table_id);
                assert(self.tables@[w].table_id == self.fields@[k].table_id);
            }
            assert forall|p: int| 0 <= p < self.phys@.len() implies self.phys_table_wf(p) by {
                assert(old(self).phys_table_wf(p));
                if old(self).tables@[p].parent_id is Some {
                    let pp = old(self).tables@[p].parent_id->0;
                    let w = table_index(old(self).tables@, pp);
                    lemma_table_index_is(old(self).tables@, w);
                    lemma_table_index_is(self.tables@, w);
                }
                assert(self.tables@[p].parent_id == old(self).tables@[p].parent_id);
                assert(self.tables@[p].table_id == old(self).tables@[p].table_id);
            }
            assert forall|v: int| 0 <= v < self.views@.len() implies (
            #[trigger] self.views@[v]).chart_id >= 1 && has_table(
                self.tables@,
                self.views@[v].table_id,
            ) by {
                let w = table_index(old(self).tables@, self.views@[v].table_id);
                assert(self.tables@[w].table_id == self.views@[v].table_id);
            }
        }
        Ok(out)
    }

    /// For every table, whether it belongs to the subtree rooted at
    /// `root`. A table is marked when it is the root or its parent is
    /// marked; parents precede children, so one forward pass decides.
    fn compute_subtree_marks(&self, root: Id) -> (marks: Vec<bool>)
        requires
            self.tables_wf(),
        ensures
            marks@.len() == self.tables@.len(),
            forall|k: int|
                0 <= k < marks@.len() ==> #[trigger] marks@[k] == in_subtree(
                    self.tables@,
                    root,
                    self.tables@[k].table_id,
                ),
    {
        let mut marks: Vec<bool> = Vec::new();
        let mut i: usize = 0;
        while i < self.tables.len()
            invariant
                self.tables_wf(),
                i <= self.tables@.len(),
                marks@.len() == i,
                forall|k: int|
                    0 <= k < i ==> #[trigger] marks@[k] == in_subtree(
                        self.tables@,
                        root,
                        self.tables@[k].table_id,
                    ),
            decreases self.tables@.len() - i,
        {
            proof {
                lemma_table_index_is(self.tables@, i as int);
            }
            let id = self.tables[i].table_id;
            let m: bool = if id == root {
                true
            } else {
                match self.tables[i].parent_id {
                    Option::Some(p) => {
                        match self.find_table_index(p) {
                            Option::Some(w) => {
                                proof {
                                    lemma_table_index_is(self.tables@, w as int);
                                    assert(self.tables@[w as int].table_id == p);
                                    assert(p < id);
                                    if w as int >= i as int {
                                        assert(self.tables@[i as int].table_id
                                            <= self.tables@[w as int].table_id);
                                    }
                                    assert(w < i);
                                }
                                marks[w]
                            },
                            Option::None => {
                                proof {
                                    assert(false);
                                }
                                false
                            },
                        }
                    },
                    Option::None => false,
                }
            };
            marks.push(m);
            i = i + 1;
        }
        marks
    }

    /// Removes a table and everything beneath it, in one step: the
    /// catalog rows and physical relations of the whole subtree, the
    /// subtree's fields, the views compiled over its tables, and the
    /// axes of the charts those views served. Nothing else changes; a
    /// missing table changes nothing at all.
    pub fn delete_table(&mut self, table_id: Id) -> (r: ApiResult<()>)
        requires
            old(self).well_formed(),
        ensures
            final(self).well_formed(),
            !has_table(old(self).tables@, table_id) ==> r == Err::<(), ApiError>(ApiError::NotFound)
                && *final(self) == *old(self),
            has_table(old(self).tables@, table_id) ==> {
                let ot = old(self).tables@;
                &&& r == Ok::<(), ApiError>(())
                &&& final(self).tables@ == ot.filter(
                    |t: Table| !in_subtree(ot, table_id, t.table_id),
                )
                &&& final(self).phys@ == old(self).phys@.filter(
                    |pt: PhysTable| !in_subtree(ot, table_id, pt.table_id),
                )
                &&& final(self).fields@ == old(self).fields@.filter(
                    |f: Field| !in_subtree(ot, table_id, f.table_id),
                )
                &&& final(self).views@ == old(self).views@.filter(
                    |v: ViewDef| !in_subtree(ot, table_id, v.table_id),
                )
                &&& final(self).axes@ == old(self).axes@.filter(
                    |a: Axis| !chart_removed(old(self).views@, ot, table_id, a.chart_id),
                )
            },
            final(self).next_table_id == old(self).next_table_id,
            final(self).next_field_id == old(self).next_field_id,
            final(self).next_axis_id == old(self).next_axis_id,
    {
        if self.find_table_index(table_id).is_none() {
            return Err(ApiError::NotFound);
        }
        let ghost ot = self.tables@;
        let ghost op = self.phys@;
        let ghost root = table_id;
        let marks = self.compute_subtree_marks(table_id);

        // Axes of charts whose view sits on a deleted table go first,
        // while the views still describe every chart.
        let ghost axis_pred = |a: Axis| !chart_removed(old(self).views@, ot, root, a.chart_id);
        let mut kept_axes: Vec<Axis> = Vec::new();
        let ghost mut aidx: Seq<int> = Seq::empty();
        let mut i: usize = 0;
        while i < self.axes.len()
            invariant
                *self == *old(self),
                ot == self.tables@,
                root == table_id,
                self.well_formed(),
                marks@.len() == self.tables@.len(),
                forall|k: int|
                    0 <= k < marks@.len() ==> #[trigger] marks@[k] == in_subtree(
                        ot,
                        root,
                        self.tables@[k].table_id,
                    ),
                i <= self.axes@.len(),
                axis_pred == (|a: Axis| !chart_removed(old(self).views@, ot, root, a.chart_id)),
                kept_axes@ == self.axes@.take(i as int).filter(axis_pred),
                aidx.len() == kept_axes@.len(),
                forall|k: int|
                    0 <= k < aidx.len() ==> 0 <= #[trigger] aidx[k] < i && kept_axes@[k] == old(
                        self,
                    ).axes@[aidx[k]],
                forall|k1: int, k2: int| 0 <= k1 < k2 < aidx.len() ==> aidx[k1] < aidx[k2],
            decreases self.axes@.len() - i,
        {
            proof {
                reveal(Seq::filter);
                assert(self.axes@.take(i as int + 1).drop_last() =~= self.axes@.take(i as int));
                assert(self.axes@.take(i as int + 1).last() == self.axes@[i as int]);
            }
            let a = self.axes[i];
            let mut removed = false;
            let mut v: usize = 0;
            while v < self.views.len()
                invariant
                    ot == self.tables@,
                    self.well_formed(),
                    self.views == old(self).views,
                    marks@.len() == self.tables@.len(),
                    forall|k: int|
                        0 <= k < marks@.len() ==> #[trigger] marks@[k] == in_subtree(
                            ot,
                            root,
                            self.tables@[k].table_id,
                        ),
                    v <= self.views@.len(),
                    removed ==> chart_removed(self.views@, ot, root, a.chart_id),
                    !removed ==> forall|w: int|
                        0 <= w < v ==> !((#[trigger] self.views@[w]).chart_id == a.chart_id
                            && in_subtree(ot, root, self.views@[w].table_id)),
                decreases self.views@.len() - v,
            {
                if !removed && self.views[v].chart_id == a.chart_id {
                    match self.find_table_index(self.views[v].table_id) {
                        Option::Some(w) => {
                            proof {
                                lemma_table_index_is(self.tables@, w as int);
                            }
                            if marks[w] {
                                removed = true;
                            }
                        },
                        Option::None => {
                            proof {
                                assert(false);
                            }
                        },
                    }
                }
                v = v + 1;
            }
            if !removed {
                kept_axes.push(a);
                proof {
                    aidx = aidx.push(i as int);
                }
            }
            i = i + 1;
        }
        let ghost axes_final = kept_axes@;
        proof {
            assert(self.axes@.take(self.axes@.len() as int) =~= self.axes@);
            assert(axes_final == old(self).axes@.filter(axis_pred));
        }
        self.axes = kept_axes;

        // Views over deleted tables go next, consumed in order so the
        // kept rows keep their identity.
        let ghost view_pred = |v: ViewDef| !in_subtree(ot, root, v.table_id);
        let ghost src_views = self.views@;
        proof {
            broadcast use vstd::std_specs::vec::axiom_spec_len;

            assert(vstd::std_specs::vec::spec_vec_len(&self.views) <= usize::MAX);
            assert(src_views.len() <= usize::MAX);
        }
        let mut kept_views: Vec<ViewDef> = Vec::new();
        let ghost mut vidx: Seq<int> = Seq::empty();
        let mut i: usize = 0;
        while self.views.len() > 0
            invariant
                self.tables == old(self).tables,
                self.phys == old(self).phys,
                self.fields == old(self).fields,
                self.next_table_id == old(self).next_table_id,
                self.next_field_id == old(self).next_field_id,
                self.next_axis_id == old(self).next_axis_id,
                self.axes@ == axes_final,
                ot == self.tables@,
                root == table_id,
                old(self).well_formed(),
                src_views == old(self).views@,
                src_views.len() <= usize::MAX,
                marks@.len() == self.tables@.len(),
                forall|k: int|
                    0 <= k < marks@.len() ==> #[trigger] marks@[k] == in_subtree(
                        ot,
                        root,
                        self.tables@[k].table_id,
                    ),
                i + self.views@.len() == src_views.len(),
                self.views@ == src_views.skip(i as int),
                view_pred == (|v: ViewDef| !in_subtree(ot, root, v.table_id)),
                kept_views@ == src_views.take(i as int).filter(view_pred),
                vidx.len() == kept_views@.len(),
                forall|k: int|
                    0 <= k < vidx.len() ==> 0 <= #[trigger] vidx[k] < i && kept_views@[k]
                        == src_views[vidx[k]] && !in_subtree(
                        ot,
                        root,
                        src_views[vidx[k]].table_id,
                    ),
                forall|k1: int, k2: int| 0 <= k1 < k2 < vidx.len() ==> vidx[k1] < vidx[k2],
            decreases self.views@.len(),
        {
            proof {
                reveal(Seq::filter);
                assert(src_views.take(i as int + 1).drop_last() =~= src_views.take(i as int));
                assert(src_views.take(i as int + 1).last() == src_views[i as int]);
                assert(src_views.skip(i as int)[0] == src_views[i as int]);
                assert(src_views.skip(i as int).remove(0) =~= src_views.skip(i as int + 1));
            }
            let vd = self.views.remove(0);
            proof {
                assert(vd == src_views[i as int]);
            }
            let keep = match self.find_table_index(vd.table_id) {
                Option::Some(w) => {
                    proof {
                        lemma_table_index_is(self.tables@, w as int);
                    }
                    !marks[w]
                },
                Option::None => {
                    proof {
                        assert(old(self).views_wf());
                        assert(has_table(ot, src_views[i as int].table_id));
                        assert(false);
                    }
                    false
                },
            };
            if keep {
                kept_views.push(vd);
                proof {
                    vidx = vidx.push(i as int);
                }
            }
            i = i + 1;
        }
        let ghost views_final = kept_views@;
        proof {
            assert(src_views.take(src_views.len() as int) =~= src_views);
            assert(views_final == old(self).views@.filter(view_pred));
        }
        self.views = kept_views;

        // Fields of deleted tables.
        let ghost field_pred = |f: Field| !in_subtree(ot, root, f.table_id);
        let ghost src_fields = self.fields@;
        proof {
            broadcast use vstd::std_specs::vec::axiom_spec_len;

            assert(vstd::std_specs::vec::spec_vec_len(&self.fields) <= usize::MAX);
            assert(src_fields.len() <= usize::MAX);
        }
        let mut kept_fields: Vec<Field> = Vec::new();
        let ghost mut fidx: Seq<int> = Seq::empty();
        let mut i: usize = 0;
        while self.fields.len() > 0
            invariant
                self.tables == old(self).tables,
                self.phys == old(self).phys,
                self.next_table_id == old(self).next_table_id,
                self.next_field_id == old(self).next_field_id,
                self.next_axis_id == old(self).next_axis_id,
                self.axes@ == axes_final,
                self.views@ == views_final,
                ot == self.tables@,
                root == table_id,
                old(self).well_formed(),
                src_fields == old(self).fields@,
                src_fields.len() <= usize::MAX,
                marks@.len() == self.tables@.len(),
                forall|k: int|
                    0 <= k < marks@.len() ==> #[trigger] marks@[k] == in_subtree(
                        ot,
                        root,
                        self.tables@[k].table_id,
                    ),
                i + self.fields@.len() == src_fields.len(),
                self.fields@ == src_fields.skip(i as int),
                field_pred == (|f: Field| !in_subtree(ot, root, f.table_id)),
                kept_fields@ == src_fields.take(i as int).filter(field_pred),
                fidx.len() == kept_fields@.len(),
                forall|k: int|
                    0 <= k < fidx.len() ==> 0 <= #[trigger] fidx[k] < i && kept_fields@[k]
                        == src_fields[fidx[k]] && !in_subtree(
                        ot,
                        root,
                        src_fields[fidx[k]].table_id,
                    ),
                forall|k1: int, k2: int| 0 <= k1 < k2 < fidx.len() ==> fidx[k1] < fidx[k2],
            decreases self.fields@.len(),
        {
            proof {
                reveal(Seq::filter);
                assert(src_fields.take(i as int + 1).drop_last() =~= src_fields.take(i as int));
                assert(src_fields.take(i as int + 1).last() == src_fields[i as int]);
                assert(src_fields.skip(i as int)[0] == src_fields[i as int]);
                assert(src_fields.skip(i as int).remove(0) =~= src_fields.skip(i as int + 1));
            }
            let fd = self.fields.remove(0);
            proof {
                assert(fd == src_fields[i as int]);
            }
            let keep = match self.find_table_index(fd.table_id) {
                Option::Some(w) => {
                    proof {
                        lemma_table_index_is(self.tables@, w as int);
                    }
                    !marks[w]
                },
                Option::None => {
                    proof {
                        assert(old(self).fields_wf());
                        assert(has_table(ot, src_fields[i as int].table_id));
                        assert(false);
                    }
                    false
                },
            };
            if keep {
                kept_fields.push(fd);
                proof {
                    fidx = fidx.push(i as int);
                }
            }
            i = i + 1;
        }
        let ghost fields_final = kept_fields@;
        proof {
            assert(src_fields.take(src_fields.len() as int) =~= src_fields);
            assert(fields_final == old(self).fields@.filter(field_pred));
        }
        self.fields = kept_fields;

        // Tables and their physical relations, in lockstep.
        let ghost table_pred = |t: Table| !in_subtree(ot, root, t.table_id);
        let ghost phys_pred = |pt: PhysTable| !in_subtree(ot, root, pt.table_id);
        proof {
            broadcast use vstd::std_specs::vec::axiom_spec_len;

            assert(vstd::std_specs::vec::spec_vec_len(&self.tables) <= usize::MAX);
            assert(ot.len() <= usize::MAX);
        }
        let mut kept_tables: Vec<Table> = Vec::new();
        let mut kept_phys: Vec<PhysTable> = Vec::new();
        let ghost mut tidx: Seq<int> = Seq::empty();
        let mut i: usize = 0;
        while self.tables.len() > 0
            invariant
                root == table_id,
                old(self).well_formed(),
                ot == old(self).tables@,
                op == old(self).phys@,
                ot.len() <= usize::MAX,
                self.next_table_id == old(self).next_table_id,
                self.next_field_id == old(self).next_field_id,
                self.next_axis_id == old(self).next_axis_id,
                self.axes@ == axes_final,
                self.views@ == views_final,
                self.fields@ == fields_final,
                marks@.len() == ot.len(),
                forall|k: int|
                    0 <= k < marks@.len() ==> #[trigger] marks@[k] == in_subtree(
                        ot,
                        root,
                        ot[k].table_id,
                    ),
                i + self.tables@.len() == ot.len(),
                self.tables@ == ot.skip(i as int),
                i + self.phys@.len() == op.len(),
                self.phys@ == op.skip(i as int),
                table_pred == (|t: Table| !in_subtree(ot, root, t.table_id)),
                phys_pred == (|pt: PhysTable| !in_subtree(ot, root, pt.table_id)),
                kept_tables@ == ot.take(i as int).filter(table_pred),
                kept_phys@ == op.take(i as int).filter(phys_pred),
                kept_phys@.len() == kept_tables@.len(),
                tidx.len() == kept_tables@.len(),
                forall|k: int|
                    0 <= k < tidx.len() ==> 0 <= #[trigger] tidx[k] < i && kept_tables@[k]
                        == ot[tidx[k]] && kept_phys@[k] == op[tidx[k]] && !in_subtree(
                        ot,
                        root,
                        ot[tidx[k]].table_id,
                    ),
                forall|k1: int, k2: int| 0 <= k1 < k2 < tidx.len() ==> tidx[k1] < tidx[k2],
            decreases self.tables@.len(),
        {
            proof {
                reveal(Seq::filter);
                assert(ot.take(i as int + 1).drop_last() =~= ot.take(i as int));
                assert(ot.take(i as int + 1).last() == ot[i as int]);
                assert(ot.skip(i as int)[0] == ot[i as int]);
                assert(ot.skip(i as int).remove(0) =~= ot.skip(i as int + 1));
                assert(op.take(i as int + 1).drop_last() =~= op.take(i as int));
                assert(op.take(i as int + 1).last() == op[i as int]);
                assert(op.skip(i as int)[0] == op[i as int]);
                assert(op.skip(i as int).remove(0) =~= op.skip(i as int + 1));
                assert(old(self).phys_aligned());
                assert(op[i as int].table_id == ot[i as int].table_id);
            }
            let t = self.tables.remove(0);
            let pt = self.phys.remove(0);
            proof {
                assert(t == ot[i as int]);
                assert(pt == op[i as int]);
            }
            let keep = !marks[i];
            if keep {
                kept_tables.push(t);
                kept_phys.push(pt);
                proof {
                    tidx = tidx.push(i as int);
                }
            }
            i = i + 1;
        }
        proof {
            assert(ot.take(ot.len() as int) =~= ot);
            assert(op.take(op.len() as int) =~= op);
        }
        self.tables = kept_tables;
        self.phys = kept_phys;

        proof {
            lemma_delete_well_formed(*old(self), *self, root, tidx, fidx, vidx, aidx);
        }
        Ok(())
    }

    /// The position of the field with this id, if any.
    pub fn find_field_index(&self, field_id: Id) -> (r: Option<usize>)
        ensures
            r matches Some(i) ==> i < self.fields@.len() && self.fields@[i as int].field_id
                == field_id,
            r is Some <==> has_field(self.fields@, field_id),
    {
        let mut i: usize = 0;
        while i < self.fields.len()
            invariant
                i <= self.fields@.len(),
                forall|k: int| 0 <= k < i ==> (#[trigger] self.fields@[k]).field_id != field_id,
            decreases self.fields@.len() - i,
        {
            if self.fields[i].field_id == field_id {
                return Some(i);
            }
            i = i + 1;
        }
        None
    }

    /// Whether a field of this table, other than the one at `except`,
    /// bears this name.
    fn field_name_in_use(&self, table_id: Id, name: &String, except: Option<usize>) -> (r: bool)
        ensures
            r == field_name_taken_except(
                self.fields@,
                table_id,
                name@,
                match except {
                    Some(e) => e as int,
                    None => -1,
                },
            ),
    {
        let ghost ex: int = match except {
            Some(e) => e as int,
            None => -1,
        };
        let mut i: usize = 0;
        while i < self.fields.len()
            invariant
                i <= self.fields@.len(),
                ex == (match except {
                    Some(e) => e as int,
                    None => -1,
                }),
                forall|k: int|
                    0 <= k < i && k != ex ==> !((#[trigger] self.fields@[k]).table_id == table_id
                        && self.fields@[k].name@ == name@),
            decreases self.fields@.len() - i,
        {
            let skip = match except {
                Some(e) => i == e,
                None => false,
            };
            if !skip && self.fields[i].table_id == table_id && self.fields[i].name == *name {
                return true;
            }
            i = i + 1;
        }
        false
    }

    /// What creating a field runs into, in the order the engine works:
    /// a missing table, a kind whose constraints contradict each other,
    /// a duplicate name within the table, an exhausted id counter, and
    /// a required column that existing rows could not satisfy.
    pub open spec fn create_field_check(
        self,
        table_id: Id,
        name: Seq<char>,
        options: FieldOptions,
    ) -> Result<FieldOptions, ApiError> {
        if !has_table(self.tables@, table_id) {
            Err(ApiError::NotFound)
        } else {
            match crate::fields::validate_result(options) {
                Err(e) => Err(ApiError::Validation(e)),
                Ok(validated) => {
                    if field_name_taken(self.fields@, table_id, name) {
                        Err(ApiError::Conflict)
                    } else if self.next_field_id == i32::MAX {
                        Err(ApiError::Storage)
                    } else if is_required_spec(validated) && self.phys@[table_index(
                        self.tables@,
                        table_id,
                    )].rows@.len() > 0 {
                        Err(ApiError::Storage)
                    } else {
                        Ok(validated)
                    }
                },
            }
        }
    }

    /// Creates a field: validates its kind, inserts its catalog row
    /// under a fresh id, and adds its column to the table's physical
    /// relation, in one step. Existing rows hold null in the new
    /// column, so a required kind is only accepted on an empty
    /// relation. On any error nothing changes.
    pub fn create_field(&mut self, table_id: Id, cf: CreateField, now: Timestamp) -> (r: ApiResult<
        Id,
    >)
        requires
            old(self).well_formed(),
            options_wf(cf.options),
        ensures
            final(self).well_formed(),
            old(self).create_field_check(table_id, cf.name@, cf.options) matches Err(e) ==> r
                == Err::<Id, ApiError>(e) && *final(self) == *old(self),
            old(self).create_field_check(table_id, cf.name@, cf.options) matches Ok(validated)
                ==> {
                let ti = table_index(old(self).tables@, table_id);
                &&& r == Ok::<Id, ApiError>(old(self).next_field_id)
                &&& final(self).fields@ == old(self).fields@.push(
                    Field {
                        field_id: old(self).next_field_id,
                        table_id,
                        name: cf.name,
                        options: validated,
                        created_at: now,
                        updated_at: None,
                    },
                )
                &&& final(self).phys@.len() == old(self).phys@.len()
                &&& forall|p: int|
                    0 <= p < final(self).phys@.len() && p != ti
                        ==> (#[trigger] final(self).phys@[p]) == old(self).phys@[p]
                &&& final(self).phys@[ti].table_id == old(self).phys@[ti].table_id
                &&& final(self).phys@[ti].next_entry_id == old(self).phys@[ti].next_entry_id
                &&& final(self).phys@[ti].columns@ == old(self).phys@[ti].columns@.push(
                    PhysColumn {
                        source_field: old(self).next_field_id,
                        ctype: column_type_spec(validated),
                        nullable: !is_required_spec(validated),
                    },
                )
                &&& final(self).phys@[ti].rows@.len() == old(self).phys@[ti].rows@.len()
                &&& forall|rr: int|
                    0 <= rr < final(self).phys@[ti].rows@.len() ==> {
                        let nr = #[trigger] final(self).phys@[ti].rows@[rr];
                        let orow = old(self).phys@[ti].rows@[rr];
                        nr.entry_id == orow.entry_id && nr.parent_entry_id == orow.parent_entry_id
                            && nr.created_at == orow.created_at && nr.updated_at == orow.updated_at
                            && nr.values@ == orow.values@.push(None::<PhysValue>)
                    }
                &&& final(self).next_field_id == old(self).next_field_id + 1
            },
            final(self).tables == old(self).tables,
            final(self).axes == old(self).axes,
            final(self).views == old(self).views,
            final(self).next_table_id == old(self).next_table_id,
            final(self).next_axis_id == old(self).next_axis_id,
    {
        let CreateField { name, options } = cf;
        let ti = match self.find_table_index(table_id) {
            Option::None => {
                return Err(ApiError::NotFound);
            },
            Option::Some(i) => i,
        };
        proof {
            lemma_table_index_is(self.tables@, ti as int);
        }
        let mut options = options;
        match crate::fields::validate_field_options(&mut options) {
            Result::Err(e) => {
                return Err(e);
            },
            Result::Ok(()) => {},
        }
        if self.field_name_in_use(table_id, &name, None) {
            return Err(ApiError::Conflict);
        }
        if self.next_field_id == i32::MAX {
            return Err(ApiError::Storage);
        }
        let required = options.is_required();
        if required && self.phys[ti].rows.len() > 0 {
            return Err(ApiError::Storage);
        }
        let fid = self.next_field_id;
        let (ctype, nullable) = crate::cells::physical_type_for(&options);
        let field = Field { field_id: fid, table_id, name, options, created_at: now, updated_at: None };
        self.fields.push(field);
        let mut pt = self.phys.remove(ti);
        let ghost old_pt = old(self).phys@[ti as int];
        pt.columns.push(PhysColumn { source_field: fid, ctype, nullable });
        let ghost src_rows = pt.rows@;
        proof {
            broadcast use vstd::std_specs::vec::axiom_spec_len;

            assert(vstd::std_specs::vec::spec_vec_len(&pt.rows) <= usize::MAX);
            assert(src_rows.len() <= usize::MAX);
        }
        let mut new_rows: Vec<PhysRow> = Vec::new();
        while pt.rows.len() > 0
            invariant
                src_rows == old_pt.rows@,
                src_rows.len() <= usize::MAX,
                pt.table_id == old_pt.table_id,
                pt.next_entry_id == old_pt.next_entry_id,
                pt.columns@ == old_pt.columns@.push(
                    PhysColumn { source_field: fid, ctype, nullable },
                ),
                new_rows@.len() + pt.rows@.len() == src_rows.len(),
                pt.rows@ == src_rows.skip(new_rows@.len() as int),
                forall|k: int|
                    0 <= k < new_rows@.len() ==> {
                        let nr = #[trigger] new_rows@[k];
                        let orow = src_rows[k];
                        nr.entry_id == orow.entry_id && nr.parent_entry_id == orow.parent_entry_id
                            && nr.created_at == orow.created_at && nr.updated_at == orow.updated_at
                            && nr.values@ == orow.values@.push(None::<PhysValue>)
                    },
            decreases pt.rows@.len(),
        {
            let ghost i = new_rows@.len() as int;
            proof {
                assert(src_rows.skip(i)[0] == src_rows[i]);
                assert(src_rows.skip(i).remove(0) =~= src_rows.skip(i + 1));
            }
            let mut row = pt.rows.remove(0);
            proof {
                assert(row == src_rows[i]);
            }
            row.values.push(None);
            new_rows.push(row);
        }
        proof {
            broadcast use vstd::std_specs::vec::axiom_spec_len;

            assert(src_rows.skip(0) =~= src_rows);
        }
        pt.rows = new_rows;
        self.phys.insert(ti, pt);
        self.next_field_id = fid + 1;
        proof {
            assert(self.phys@ =~= old(self).phys@.update(ti as int, self.phys@[ti as int]));
            lemma_create_field_well_formed(*old(self), *self, table_id, ti as int);
        }
        Ok(fid)
    }

    /// The fields of a table in field-id order, or that the table is
    /// missing.
    pub fn get_fields(&self, table_id: Id) -> (r: ApiResult<Vec<Field>>)
        requires
            self.well_formed(),
        ensures
            !has_table(self.tables@, table_id) ==> r == Err::<Vec<Field>, ApiError>(
                ApiError::NotFound,
            ),
            has_table(self.tables@, table_id) ==> (r matches Ok(fs) && {
                let flt = self.fields@.filter(|f: Field| f.table_id == table_id);
                fs@.len() == flt.len() && forall|k: int|
                    0 <= k < fs@.len() ==> (#[trigger] fs@[k])@ == flt[k]@
            }),
    {
        if self.find_table_index(table_id).is_none() {
            return Err(ApiError::NotFound);
        }
        let ghost pred = |f: Field| f.table_id == table_id;
        let mut r: Vec<Field> = Vec::new();
        let mut i: usize = 0;
        while i < self.fields.len()
            invariant
                i <= self.fields@.len(),
                r@.len() == self.fields@.take(i as int).filter(pred).len(),
                forall|k: int|
                    0 <= k < r@.len() ==> (#[trigger] r@[k])@ == self.fields@.take(i as int).filter(
                        pred,
                    )[k]@,
                pred == (|f: Field| f.table_id == table_id),
            decreases self.fields@.len() - i,
        {
            proof {
                reveal(Seq::filter);
                assert(self.fields@.take(i as int + 1).drop_last() =~= self.fields@.take(i as int));
                assert(self.fields@.take(i as int + 1).last() == self.fields@[i as int]);
            }
            if self.fields[i].table_id == table_id {
                r.push(self.fields[i].dup());
            }
            i = i + 1;
        }
        proof {
            assert(self.fields@.take(self.fields@.len() as int) =~= self.fields@);
        }
        Ok(r)
    }

    /// Removes a field's catalog row. Its physical column stays
    /// behind, orphaned: column removal is outside the core. On any
    /// error nothing changes.
    pub fn delete_field(&mut self, field_id: Id) -> (r: ApiResult<()>)
        requires
            old(self).well_formed(),
        ensures
            final(self).well_formed(),
            !has_field(old(self).fields@, field_id) ==> r == Err::<(), ApiError>(ApiError::NotFound)
                && *final(self) == *old(self),
            has_field(old(self).fields@, field_id) ==> r == Ok::<(), ApiError>(())
                && final(self).fields@ == old(self).fields@.remove(
                field_index(old(self).fields@, field_id),
            ),
            final(self).tables == old(self).tables,
            final(self).phys == old(self).phys,
            final(self).axes == old(self).axes,
            final(self).views == old(self).views,
            final(self).next_table_id == old(self).next_table_id,
            final(self).next_field_id == old(self).next_field_id,
            final(self).next_axis_id == old(self).next_axis_id,
    {
        let fi = match self.find_field_index(field_id) {
            Option::None => {
                return Err(ApiError::NotFound);
            },
            Option::Some(i) => i,
        };
        proof {
            lemma_field_index_is(self.fields@, fi as int);
        }
        let _removed = self.fields.remove(fi);
        proof {
            assert forall|p: int| 0 <= p < self.phys@.len() implies self.phys_table_wf(p) by {
                assert(old(self).phys_table_wf(p));
                assert forall|f: int|
                    0 <= f < self.fields@.len() && (#[trigger] self.fields@[f]).table_id
                        == self.tables@[p].table_id implies has_matching_column(
                    self.phys@[p].columns@,
                    self.fields@[f],
                ) by {
                    let of = if f < fi as int {
                        f
                    } else {
                        f + 1
                    };
                    assert(self.fields@[f] == old(self).fields@[of]);
                }
            }
            assert forall|k: int| 0 <= k < self.fields@.len() implies has_table(
                self.tables@,
                (#[trigger] self.fields@[k]).table_id,
            ) && 1 <= self.fields@[k].field_id < self.next_field_id && options_wf(
                self.fields@[k].options,
            ) by {
                let of = if k < fi as int {
                    k
                } else {
                    k + 1
                };
                assert(self.fields@[k] == old(self).fields@[of]);
            }
            assert forall|k1: int, k2: int| 0 <= k1 < k2 < self.fields@.len() implies (
            #[trigger] self.fields@[k1]).field_id < (#[trigger] self.fields@[k2]).field_id by {
                let o1 = if k1 < fi as int {
                    k1
                } else {
                    k1 + 1
                };
                let o2 = if k2 < fi as int {
                    k2
                } else {
                    k2 + 1
                };
                assert(self.fields@[k1] == old(self).fields@[o1]);
                assert(self.fields@[k2] == old(self).fields@[o2]);
            }
            assert forall|k1: int, k2: int|
                0 <= k1 < self.fields@.len() && 0 <= k2 < self.fields@.len() && k1 != k2 && (
            #[trigger] self.fields@[k1]).table_id == (#[trigger] self.fields@[k2]).table_id implies
            self.fields@[k1].name@ != self.fields@[k2].name@ by {
                let o1 = if k1 < fi as int {
                    k1
                } else {
                    k1 + 1
                };
                let o2 = if k2 < fi as int {
                    k2
                } else {
                    k2 + 1
                };
                assert(self.fields@[k1] == old(self).fields@[o1]);
                assert(self.fields@[k2] == old(self).fields@[o2]);
            }
        }
        Ok(())
    }

    /// Whether another field of the same table already bears the name.
    pub open spec fn update_field_conflict(self, fi: int, table_id: Id, name: Seq<char>) -> bool {
        field_name_taken_except(self.fields@, table_id, name, fi)
    }

    /// Renames a field: a catalog-only mutation of its name, stamping
    /// the update time. The kind is fixed at creation and stays as it
    /// is. On any error nothing changes.
    pub fn update_field(&mut self, field_id: Id, uf: UpdateField, now: Timestamp) -> (r: ApiResult<
        Field,
    >)
        requires
            old(self).well_formed(),
        ensures
            final(self).well_formed(),
            !has_field(old(self).fields@, field_id) ==> r == Err::<Field, ApiError>(
                ApiError::NotFound,
            ) && *final(self) == *old(self),
            has_field(old(self).fields@, field_id) && old(self).update_field_conflict(
                field_index(old(self).fields@, field_id),
                old(self).fields@[field_index(old(self).fields@, field_id)].table_id,
                uf.name@,
            ) ==> r == Err::<Field, ApiError>(ApiError::Conflict) && *final(self) == *old(self),
            has_field(old(self).fields@, field_id) && !old(self).update_field_conflict(
                field_index(old(self).fields@, field_id),
                old(self).fields@[field_index(old(self).fields@, field_id)].table_id,
                uf.name@,
            ) ==> {
                let fi = field_index(old(self).fields@, field_id);
                &&& final(self).fields@.len() == old(self).fields@.len()
                &&& forall|k: int|
                    0 <= k < final(self).fields@.len() && k != fi
                        ==> (#[trigger] final(self).fields@[k]) == old(self).fields@[k]
                &&& final(self).fields@[fi]@ == (crate::fields::FieldModel {
                    name: uf.name@,
                    updated_at: Some(now),
                    ..old(self).fields@[fi]@
                })
                &&& r matches Ok(f) && f@ == final(self).fields@[fi]@
            },
            final(self).tables == old(self).tables,
            final(self).phys == old(self).phys,
            final(self).axes == old(self).axes,
            final(self).views == old(self).views,
            final(self).next_table_id == old(self).next_table_id,
            final(self).next_field_id == old(self).next_field_id,
            final(self).next_axis_id == old(self).next_axis_id,
    {
        let fi = match self.find_field_index(field_id) {
            Option::None => {
                return Err(ApiError::NotFound);
            },
            Option::Some(i) => i,
        };
        proof {
            lemma_field_index_is(self.fields@, fi as int);
        }
        let table_id = self.fields[fi].table_id;
        if self.field_name_in_use(table_id, &uf.name, Some(fi)) {
            return Err(ApiError::Conflict);
        }
        let UpdateField { name } = uf;
        let f = self.fields.remove(fi);
        let f2 = Field {
            field_id: f.field_id,
            table_id: f.table_id,
            name,
            options: f.options,
            created_at: f.created_at,
            updated_at: Some(now),
        };
        self.fields.insert(fi, f2);
        let out = self.fields[fi].dup();
        proof {
            assert(self.fields@ =~= old(self).fields@.update(fi as int, self.fields@[fi as int]));
            assert forall|p: int| 0 <= p < self.phys@.len() implies self.phys_table_wf(p) by {
                assert(old(self).phys_table_wf(p));
                assert forall|ff: int|
                    0 <= ff < self.fields@.len() && (#[trigger] self.fields@[ff]).table_id
                        == self.tables@[p].table_id implies has_matching_column(
                    self.phys@[p].columns@,
                    self.fields@[ff],
                ) by {
                    if ff != fi as int {
                        assert(self.fields@[ff] == old(self).fields@[ff]);
                    } else {
                        assert(has_matching_column(
                            old(self).phys@[p].columns@,
                            old(self).fields@[ff],
                        ));
                        assert(self.fields@[ff].field_id == old(self).fields@[ff].field_id);
                        assert(self.fields@[ff].options == old(self).fields@[ff].options);
                    }
                }
            }
        }
        Ok(out)
    }

    /// The tables whose parent this table is, in catalog order.
    pub fn get_table_children(&self, table_id: Id) -> (r: Vec<Table>)
        ensures
            r@.len() == self.tables@.filter(|t: Table| t.parent_id == Some(table_id)).len(),
            forall|k: int|
                0 <= k < r@.len() ==> (#[trigger] r@[k])@ == self.tables@.filter(
                    |t: Table| t.parent_id == Some(table_id),
                )[k]@,
    {
        let ghost pred = |t: Table| t.parent_id == Some(table_id);
        let mut r: Vec<Table> = Vec::new();
        let mut i: usize = 0;
        while i < self.tables.len()
            invariant
                i <= self.tables@.len(),
                r@.len() == self.tables@.take(i as int).filter(pred).len(),
                forall|k: int|
                    0 <= k < r@.len() ==> (#[trigger] r@[k])@ == self.tables@.take(
                        i as int,
                    ).filter(pred)[k]@,
                pred == (|t: Table| t.parent_id == Some(table_id)),
            decreases self.tables@.len() - i,
        {
            proof {
                reveal(Seq::filter);
                assert(self.tables@.take(i as int + 1).drop_last() =~= self.tables@.take(i as int));
                assert(self.tables@.take(i as int + 1).last() == self.tables@[i as int]);
            }
            let keep = match self.tables[i].parent_id {
                Option::Some(p) => p == table_id,
                Option::None => false,
            };
            if keep {
                r.push(self.tables[i].dup());
            }
            i = i + 1;
        }
        proof {
            assert(self.tables@.take(self.tables@.len() as int) =~= self.tables@);
        }
        r
    }
}

/// An element of a filtered sequence is an element of the sequence.
pub proof fn lemma_filter_member<A>(s: Seq<A>, pred: spec_fn(A) -> bool, k: int)
    requires
        0 <= k < s.filter(pred).len(),
    ensures
        s.contains(s.filter(pred)[k]),
    decreases s.len(),
{
    reveal(Seq::filter);
    broadcast use vstd::seq_lib::group_filter_ensures;

    if s.len() > 0 {
        let sub = s.drop_last().filter(pred);
        if pred(s.last()) && k == sub.len() {
            assert(s.filter(pred)[k] == s.last());
            assert(s[s.len() - 1] == s.last());
        } else {
            lemma_filter_member(s.drop_last(), pred, k);
            let w = choose|w: int|
                0 <= w < s.drop_last().len() && s.drop_last()[w] == s.drop_last().filter(pred)[k];
            assert(s[w] == s.filter(pred)[k]);
        }
    }
}

/// A filtered sequence that loses exactly one element is one shorter.
pub proof fn lemma_filter_all_but_one<A>(s: Seq<A>, pred: spec_fn(A) -> bool, bad: int)
    requires
        0 <= bad < s.len(),
        !pred(s[bad]),
        forall|i: int| 0 <= i < s.len() && i != bad ==> pred(#[trigger] s[i]),
    ensures
        s.filter(pred).len() == s.len() - 1,
    decreases s.len(),
{
    reveal(Seq::filter);
    if bad == s.len() - 1 {
        lemma_filter_all(s.drop_last(), pred);
    } else {
        lemma_filter_all_but_one(s.drop_last(), pred, bad);
    }
}

/// Filtering keeps a sequence whole when every element passes.
pub proof fn lemma_filter_all<A>(s: Seq<A>, pred: spec_fn(A) -> bool)
    requires
        forall|i: int| 0 <= i < s.len() ==> pred(#[trigger] s[i]),
    ensures
        s.filter(pred).len() == s.len(),
    decreases s.len(),
{
    reveal(Seq::filter);
    if s.len() > 0 {
        lemma_filter_all(s.drop_last(), pred);
    }
}

/// A table older than the subtree's root never sits in the subtree:
/// parent chains only descend through ever older tables.
pub proof fn lemma_older_not_in_subtree(tables: Seq<Table>, root: Id, id: Id)
    requires
        forall|i: int|
            0 <= i < tables.len() ==> ((#[trigger] tables[i]).parent_id matches Some(p) ==> 0 <= p
                < tables[i].table_id),
        id < root,
    ensures
        !in_subtree(tables, root, id),
    decreases id,
{
    if has_table(tables, id) {
        let w = table_index(tables, id);
        if tables[w].parent_id is Some {
            let p = tables[w].parent_id->0;
            if 0 <= p < id {
                lemma_older_not_in_subtree(tables, root, p);
            }
        }
    }
}

/// Whether a field with this id exists.
pub open spec fn has_field(fields: Seq<Field>, id: Id) -> bool {
    exists|i: int| 0 <= i < fields.len() && fields[i].field_id == id
}

/// The position of the field with this id.
pub open spec fn field_index(fields: Seq<Field>, id: Id) -> int {
    choose|i: int| 0 <= i < fields.len() && fields[i].field_id == id
}

/// Field rows stand in strictly increasing id order.
pub open spec fn fields_sorted(fields: Seq<Field>) -> bool {
    forall|i: int, j: int|
        0 <= i < j < fields.len() ==> #[trigger] fields[i].field_id < #[trigger] fields[j].field_id
}

/// With distinct ids, the looked-up position is the only one.
pub proof fn lemma_field_index_is(fields: Seq<Field>, i: int)
    requires
        fields_sorted(fields),
        0 <= i < fields.len(),
    ensures
        field_index(fields, fields[i].field_id) == i,
        has_field(fields, fields[i].field_id),
{
    let id = fields[i].field_id;
    assert(has_field(fields, id));
    let j = field_index(fields, id);
    if i < j {
        assert(fields[i].field_id < fields[j].field_id);
    } else if j < i {
        assert(fields[j].field_id < fields[i].field_id);
    }
}

/// Whether a field of this table, other than the one at `except`,
/// bears this name; `except` is `-1` to consider them all.
pub open spec fn field_name_taken_except(
    fields: Seq<Field>,
    table_id: Id,
    name: Seq<char>,
    except: int,
) -> bool {
    exists|i: int|
        0 <= i < fields.len() && i != except && #[trigger] fields[i].table_id == table_id
            && fields[i].name@ == name
}

/// Whether some field of this table already bears this name.
pub open spec fn field_name_taken(fields: Seq<Field>, table_id: Id, name: Seq<char>) -> bool {
    field_name_taken_except(fields, table_id, name, -1)
}

/// Adding a fresh field's catalog row together with its column — null
/// in every existing row — leaves the catalog well formed.
proof fn lemma_create_field_well_formed(oldc: Catalog, newc: Catalog, table_id: Id, ti: int)
    requires
        oldc.well_formed(),
        0 <= ti < oldc.tables@.len(),
        oldc.tables@[ti].table_id == table_id,
        newc.tables@ == oldc.tables@,
        newc.views@ == oldc.views@,
        newc.axes@ == oldc.axes@,
        newc.next_table_id == oldc.next_table_id,
        newc.next_axis_id == oldc.next_axis_id,
        oldc.next_field_id < i32::MAX,
        newc.next_field_id == oldc.next_field_id + 1,
        newc.fields@.len() == oldc.fields@.len() + 1,
        forall|k: int| 0 <= k < oldc.fields@.len() ==> #[trigger] newc.fields@[k] == oldc.fields@[k],
        newc.fields@.last().field_id == oldc.next_field_id,
        newc.fields@.last().table_id == table_id,
        options_wf(newc.fields@.last().options),
        !field_name_taken(oldc.fields@, table_id, newc.fields@.last().name@),
        newc.phys@.len() == oldc.phys@.len(),
        forall|p: int|
            0 <= p < newc.phys@.len() && p != ti ==> #[trigger] newc.phys@[p] == oldc.phys@[p],
        newc.phys@[ti].table_id == oldc.phys@[ti].table_id,
        newc.phys@[ti].next_entry_id == oldc.phys@[ti].next_entry_id,
        newc.phys@[ti].columns@ == oldc.phys@[ti].columns@.push(
            PhysColumn {
                source_field: oldc.next_field_id,
                ctype: column_type_spec(newc.fields@.last().options),
                nullable: !is_required_spec(newc.fields@.last().options),
            },
        ),
        newc.phys@[ti].rows@.len() == oldc.phys@[ti].rows@.len(),
        forall|rr: int|
            0 <= rr < newc.phys@[ti].rows@.len() ==> {
                let nr = #[trigger] newc.phys@[ti].rows@[rr];
                let orow = oldc.phys@[ti].rows@[rr];
                nr.entry_id == orow.entry_id && nr.parent_entry_id == orow.parent_entry_id
                    && nr.created_at == orow.created_at && nr.updated_at == orow.updated_at
                    && nr.values@ == orow.values@.push(None::<PhysValue>)
            },
        is_required_spec(newc.fields@.last().options) ==> oldc.phys@[ti].rows@.len() == 0,
    ensures
        newc.well_formed(),
{
    let nf = newc.fields@.last();
    let fid = oldc.next_field_id;
    let oldlen = oldc.fields@.len() as int;

    assert(newc.tables_wf());

    assert(newc.fields_wf()) by {
        assert forall|k1: int, k2: int| 0 <= k1 < k2 < newc.fields@.len() implies (
        #[trigger] newc.fields@[k1]).field_id < (#[trigger] newc.fields@[k2]).field_id by {
            if k2 < oldlen {
                assert(newc.fields@[k1] == oldc.fields@[k1]);
                assert(newc.fields@[k2] == oldc.fields@[k2]);
            } else {
                assert(newc.fields@[k1] == oldc.fields@[k1]);
                assert(oldc.fields@[k1].field_id < oldc.next_field_id);
            }
        }
        assert forall|k: int| 0 <= k < newc.fields@.len() implies 1 <= (
        #[trigger] newc.fields@[k]).field_id < newc.next_field_id && options_wf(
            newc.fields@[k].options,
        ) && has_table(newc.tables@, newc.fields@[k].table_id) by {
            if k < oldlen {
                assert(newc.fields@[k] == oldc.fields@[k]);
            } else {
                assert(newc.fields@[k] == nf);
                assert(newc.tables@[ti].table_id == table_id);
            }
        }
        assert forall|k1: int, k2: int|
            0 <= k1 < newc.fields@.len() && 0 <= k2 < newc.fields@.len() && k1 != k2 && (
        #[trigger] newc.fields@[k1]).table_id == (#[trigger] newc.fields@[k2]).table_id implies
        newc.fields@[k1].name@ != newc.fields@[k2].name@ by {
            if k1 < oldlen && k2 < oldlen {
                assert(newc.fields@[k1] == oldc.fields@[k1]);
                assert(newc.fields@[k2] == oldc.fields@[k2]);
            } else if k1 < oldlen {
                assert(newc.fields@[k1] == oldc.fields@[k1]);
                assert(newc.fields@[k2] == nf);
            } else if k2 < oldlen {
                assert(newc.fields@[k2] == oldc.fields@[k2]);
                assert(newc.fields@[k1] == nf);
            }
        }
    }

    assert(newc.phys_aligned()) by {
        assert forall|p: int| 0 <= p < newc.phys@.len() implies (
        #[trigger] newc.phys@[p]).table_id == newc.tables@[p].table_id by {
            if p != ti {
                assert(newc.phys@[p] == oldc.phys@[p]);
            }
        }
    }

    assert forall|p: int| 0 <= p < newc.phys@.len() implies newc.phys_table_wf(p) by {
        assert(oldc.phys_table_wf(p));
        let ncols = newc.phys@[p].columns@;
        let ocols = oldc.phys@[p].columns@;
        if p != ti {
            assert(newc.phys@[p] == oldc.phys@[p]);
        }
        assert forall|c1: int, c2: int| 0 <= c1 < c2 < ncols.len() implies (
        #[trigger] ncols[c1]).source_field < (#[trigger] ncols[c2]).source_field by {
            if p == ti && c2 == ncols.len() - 1 {
                assert(ncols[c1] == ocols[c1]);
                assert(ocols[c1].source_field < oldc.next_field_id);
            }
        }
        assert forall|c: int| 0 <= c < ncols.len() implies 1 <= (#[trigger] ncols[c]).source_field
            < newc.next_field_id by {
            if p == ti && c < ocols.len() {
                assert(ncols[c] == ocols[c]);
            }
        }
        assert forall|f: int|
            0 <= f < newc.fields@.len() && (#[trigger] newc.fields@[f]).table_id
                == newc.tables@[p].table_id implies has_matching_column(ncols, newc.fields@[f]) by {
            if f < oldlen {
                assert(newc.fields@[f] == oldc.fields@[f]);
                assert(has_matching_column(ocols, oldc.fields@[f]));
                let c = choose|c: int|
                    0 <= c < ocols.len() && (#[trigger] ocols[c]).source_field
                        == oldc.fields@[f].field_id && ocols[c].ctype == column_type_spec(
                        oldc.fields@[f].options,
                    ) && ocols[c].nullable == !is_required_spec(oldc.fields@[f].options);
                assert(ncols[c] == ocols[c]);
            } else {
                assert(newc.fields@[f] == nf);
                assert(newc.tables@[p].table_id == table_id);
                assert(p == ti) by {
                    if p != ti {
                        assert(newc.tables@[p].table_id != newc.tables@[ti].table_id);
                    }
                }
                assert(ncols[ncols.len() - 1].source_field == nf.field_id);
            }
        }
        let nrows = newc.phys@[p].rows@;
        let orows = oldc.phys@[p].rows@;
        assert forall|r: int, c: int|
            0 <= r < nrows.len() && 0 <= c < ncols.len() implies match (
        #[trigger] nrows[r].values@[c]) {
            Option::None => ncols[c].nullable,
            Option::Some(v) => crate::cells::value_matches_column(v@, ncols[c].ctype),
        } by {
            if p == ti {
                assert(nrows[r].values@ == orows[r].values@.push(None::<PhysValue>));
                if c < ocols.len() {
                    assert(nrows[r].values@[c] == orows[r].values@[c]);
                    assert(ncols[c] == ocols[c]);
                } else {
                    assert(nrows[r].values@[c] is None);
                    assert(!is_required_spec(nf.options));
                }
            }
        }
        match newc.tables@[p].parent_id {
            Option::Some(pp) => {
                let q = table_index(newc.tables@, pp);
                assert(oldc.tables@[p].parent_id == Some(pp));
                assert forall|r: int| 0 <= r < nrows.len() implies ((
                #[trigger] nrows[r]).parent_entry_id matches Some(pe) && has_entry(
                    newc.phys@[q].rows@,
                    pe,
                )) by {
                    assert(orows[r].parent_entry_id matches Some(pe) && has_entry(
                        oldc.phys@[q].rows@,
                        pe,
                    ));
                    assert(nrows[r].parent_entry_id == orows[r].parent_entry_id);
                    let pe0 = orows[r].parent_entry_id->0;
                    let wr = choose|wr: int|
                        0 <= wr < oldc.phys@[q].rows@.len() && oldc.phys@[q].rows@[wr].entry_id
                            == pe0;
                    if q == ti {
                        assert(newc.phys@[q].rows@[wr].entry_id == pe0);
                    } else {
                        assert(newc.phys@[q] == oldc.phys@[q]);
                    }
                    assert(has_entry(newc.phys@[q].rows@, pe0));
                }
            },
            Option::None => {
                if p == ti {
                    assert forall|r: int| 0 <= r < nrows.len() implies (
                    #[trigger] nrows[r]).parent_entry_id is None by {
                        assert(orows[r].parent_entry_id is None);
                    }
                }
            },
        }
    }

    assert(newc.views_wf());
    assert(newc.axes_wf());
}

/// A cascade that removes a subtree, its fields, its views and their
/// charts' axes, keeping everything else in place and in order, leaves
/// the catalog well formed. The index sequences say where each kept
/// row stood before.
proof fn lemma_delete_well_formed(
    oldc: Catalog,
    newc: Catalog,
    root: Id,
    tidx: Seq<int>,
    fidx: Seq<int>,
    vidx: Seq<int>,
    aidx: Seq<int>,
)
    requires
        oldc.well_formed(),
        newc.next_table_id == oldc.next_table_id,
        newc.next_field_id == oldc.next_field_id,
        newc.next_axis_id == oldc.next_axis_id,
        newc.tables@.len() == newc.phys@.len(),
        newc.tables@ == oldc.tables@.filter(
            |t: Table| !in_subtree(oldc.tables@, root, t.table_id),
        ),
        tidx.len() == newc.tables@.len(),
        forall|k: int|
            0 <= k < tidx.len() ==> 0 <= #[trigger] tidx[k] < oldc.tables@.len() && newc.tables@[k]
                == oldc.tables@[tidx[k]] && newc.phys@[k] == oldc.phys@[tidx[k]] && !in_subtree(
                oldc.tables@,
                root,
                oldc.tables@[tidx[k]].table_id,
            ),
        forall|k1: int, k2: int| 0 <= k1 < k2 < tidx.len() ==> tidx[k1] < tidx[k2],
        fidx.len() == newc.fields@.len(),
        forall|k: int|
            0 <= k < fidx.len() ==> 0 <= #[trigger] fidx[k] < oldc.fields@.len() && newc.fields@[k]
                == oldc.fields@[fidx[k]] && !in_subtree(
                oldc.tables@,
                root,
                oldc.fields@[fidx[k]].table_id,
            ),
        forall|k1: int, k2: int| 0 <= k1 < k2 < fidx.len() ==> fidx[k1] < fidx[k2],
        vidx.len() == newc.views@.len(),
        forall|k: int|
            0 <= k < vidx.len() ==> 0 <= #[trigger] vidx[k] < oldc.views@.len() && newc.views@[k]
                == oldc.views@[vidx[k]] && !in_subtree(
                oldc.tables@,
                root,
                oldc.views@[vidx[k]].table_id,
            ),
        forall|k1: int, k2: int| 0 <= k1 < k2 < vidx.len() ==> vidx[k1] < vidx[k2],
        aidx.len() == newc.axes@.len(),
        forall|k: int|
            0 <= k < aidx.len() ==> 0 <= #[trigger] aidx[k] < oldc.axes@.len() && newc.axes@[k]
                == oldc.axes@[aidx[k]],
        forall|k1: int, k2: int| 0 <= k1 < k2 < aidx.len() ==> aidx[k1] < aidx[k2],
    ensures
        newc.well_formed(),
{
    broadcast use vstd::seq_lib::group_filter_ensures;

    let ot = oldc.tables@;
    let nt = newc.tables@;
    let pred = |t: Table| !in_subtree(ot, root, t.table_id);

    // A surviving table's parent also survives: a table whose parent
    // sits in the deleted subtree sits in it itself.
    assert forall|id: Id| has_table(ot, id) && !in_subtree(ot, root, id) && ot[table_index(
        ot,
        id,
    )].parent_id is Some implies {
        let p = ot[table_index(ot, id)].parent_id->0;
        &&& !in_subtree(ot, root, p)
        &&& has_table(nt, p)
    } by {
        let w = table_index(ot, id);
        let p = ot[w].parent_id->0;
        assert(0 <= w < ot.len() && ot[w].table_id == id);
        assert(1 <= p < id);
        assert(id != root);
        assert(in_subtree(ot, root, id) == in_subtree(ot, root, p));
        let wp = table_index(ot, p);
        assert(0 <= wp < ot.len() && ot[wp].table_id == p);
        assert(pred(ot[wp]));
        ot.lemma_filter_contains(pred, wp);
        assert(nt.contains(ot[wp]));
        let q = choose|q: int| 0 <= q < nt.len() && nt[q] == ot[wp];
        assert(nt[q].table_id == p);
        assert(has_table(nt, p));
    }

    assert(newc.tables_wf()) by {
        assert forall|k1: int, k2: int| 0 <= k1 < k2 < nt.len() implies (
        #[trigger] nt[k1].table_id) < (#[trigger] nt[k2].table_id) by {
            assert(tidx[k1] < tidx[k2]);
            assert(nt[k1] == ot[tidx[k1]]);
            assert(nt[k2] == ot[tidx[k2]]);
        }
        assert forall|k: int| 0 <= k < nt.len() implies 1 <= (#[trigger] nt[k]).table_id
            < newc.next_table_id by {
            assert(nt[k] == ot[tidx[k]]);
        }
        assert forall|k: int| 0 <= k < nt.len() implies ((#[trigger] nt[k]).parent_id matches Some(
            p,
        ) ==> 1 <= p < nt[k].table_id && has_table(nt, p)) by {
            let w = tidx[k];
            assert(nt[k] == ot[w]);
            lemma_table_index_is(ot, w);
            if nt[k].parent_id is Some {
                assert(has_table(ot, nt[k].table_id));
                assert(table_index(ot, nt[k].table_id) == w);
            }
        }
        assert forall|k1: int, k2: int|
            0 <= k1 < nt.len() && 0 <= k2 < nt.len() && k1 != k2 && (#[trigger] nt[k1]).user_id == (
        #[trigger] nt[k2]).user_id implies nt[k1].name@ != nt[k2].name@ by {
            assert(nt[k1] == ot[tidx[k1]]);
            assert(nt[k2] == ot[tidx[k2]]);
            if k1 < k2 {
                assert(tidx[k1] < tidx[k2]);
            } else {
                assert(tidx[k2] < tidx[k1]);
            }
        }
    }

    assert(newc.phys_aligned()) by {
        assert forall|k: int| 0 <= k < newc.phys@.len() implies (
        #[trigger] newc.phys@[k]).table_id == nt[k].table_id by {
            assert(nt[k] == ot[tidx[k]]);
            assert(newc.phys@[k] == oldc.phys@[tidx[k]]);
        }
    }

    assert(newc.fields_wf()) by {
        assert forall|k1: int, k2: int| 0 <= k1 < k2 < newc.fields@.len() implies (
        #[trigger] newc.fields@[k1]).field_id < (#[trigger] newc.fields@[k2]).field_id by {
            assert(newc.fields@[k1] == oldc.fields@[fidx[k1]]);
            assert(newc.fields@[k2] == oldc.fields@[fidx[k2]]);
            assert(fidx[k1] < fidx[k2]);
        }
        assert forall|k: int| 0 <= k < newc.fields@.len() implies 1 <= (
        #[trigger] newc.fields@[k]).field_id < newc.next_field_id && options_wf(
            newc.fields@[k].options,
        ) && has_table(nt, newc.fields@[k].table_id) by {
            assert(newc.fields@[k] == oldc.fields@[fidx[k]]);
            let tid = oldc.fields@[fidx[k]].table_id;
            assert(has_table(ot, tid));
            let wt = table_index(ot, tid);
            assert(0 <= wt < ot.len() && ot[wt].table_id == tid);
            assert(pred(ot[wt]));
            ot.lemma_filter_contains(pred, wt);
            let q = choose|q: int| 0 <= q < nt.len() && nt[q] == ot[wt];
            assert(has_table(nt, tid));
        }
        assert forall|k1: int, k2: int|
            0 <= k1 < newc.fields@.len() && 0 <= k2 < newc.fields@.len() && k1 != k2 && (
        #[trigger] newc.fields@[k1]).table_id == (#[trigger] newc.fields@[k2]).table_id implies
        newc.fields@[k1].name@ != newc.fields@[k2].name@ by {
            assert(newc.fields@[k1] == oldc.fields@[fidx[k1]]);
            assert(newc.fields@[k2] == oldc.fields@[fidx[k2]]);
            if k1 < k2 {
                assert(fidx[k1] < fidx[k2]);
            } else {
                assert(fidx[k2] < fidx[k1]);
            }
        }
    }

    assert forall|p: int| 0 <= p < newc.phys@.len() implies newc.phys_table_wf(p) by {
        let w = tidx[p];
        assert(nt[p] == ot[w]);
        assert(newc.phys@[p] == oldc.phys@[w]);
        assert(oldc.phys_table_wf(w));
        assert forall|f: int|
            0 <= f < newc.fields@.len() && (#[trigger] newc.fields@[f]).table_id
                == nt[p].table_id implies has_matching_column(
            newc.phys@[p].columns@,
            newc.fields@[f],
        ) by {
            assert(newc.fields@[f] == oldc.fields@[fidx[f]]);
            assert(oldc.fields@[fidx[f]].table_id == ot[w].table_id);
            assert(has_matching_column(oldc.phys@[w].columns@, oldc.fields@[fidx[f]]));
        }
        match nt[p].parent_id {
            Option::Some(pp) => {
                lemma_table_index_is(ot, w);
                assert(has_table(ot, nt[p].table_id));
                assert(table_index(ot, nt[p].table_id) == w);
                assert(!in_subtree(ot, root, pp));
                assert(has_table(nt, pp));
                let q = table_index(nt, pp);
                assert(0 <= q < nt.len() && nt[q].table_id == pp);
                let wq = tidx[q];
                assert(nt[q] == ot[wq]);
                lemma_table_index_is(ot, wq);
                assert(table_index(ot, pp) == wq);
                assert(newc.phys@[q] == oldc.phys@[wq]);
                assert forall|r: int| 0 <= r < newc.phys@[p].rows@.len() implies ((
                #[trigger] newc.phys@[p].rows@[r]).parent_entry_id matches Some(pe) && has_entry(
                    newc.phys@[table_index(nt, pp)].rows@,
                    pe,
                )) by {
                    assert(oldc.phys@[w].rows@[r].parent_entry_id matches Some(pe) && has_entry(
                        oldc.phys@[table_index(ot, pp)].rows@,
                        pe,
                    ));
                }
            },
            Option::None => {
                assert(ot[w].parent_id is None);
            },
        }
    }

    assert(newc.views_wf()) by {
        assert forall|v1: int, v2: int|
            0 <= v1 < newc.views@.len() && 0 <= v2 < newc.views@.len() && v1 != v2 implies (
        #[trigger] newc.views@[v1]).chart_id != (#[trigger] newc.views@[v2]).chart_id by {
            assert(newc.views@[v1] == oldc.views@[vidx[v1]]);
            assert(newc.views@[v2] == oldc.views@[vidx[v2]]);
            if v1 < v2 {
                assert(vidx[v1] < vidx[v2]);
            } else {
                assert(vidx[v2] < vidx[v1]);
            }
        }
        assert forall|v: int| 0 <= v < newc.views@.len() implies (
        #[trigger] newc.views@[v]).chart_id >= 1 && has_table(nt, newc.views@[v].table_id) by {
            assert(newc.views@[v] == oldc.views@[vidx[v]]);
            let tid = oldc.views@[vidx[v]].table_id;
            assert(has_table(ot, tid));
            let wt = table_index(ot, tid);
            assert(0 <= wt < ot.len() && ot[wt].table_id == tid);
            assert(pred(ot[wt]));
            ot.lemma_filter_contains(pred, wt);
            let q = choose|q: int| 0 <= q < nt.len() && nt[q] == ot[wt];
            assert(has_table(nt, tid));
        }
        assert forall|v: int, k: int|
            0 <= v < newc.views@.len() && 0 <= k < (#[trigger] newc.views@[v]).select@.len() implies
        1 <= (#[trigger] newc.views@[v].select@[k]).field_id < newc.next_field_id && 1
            <= newc.views@[v].select@[k].axis_id < newc.next_axis_id by {
            assert(newc.views@[v] == oldc.views@[vidx[v]]);
            assert(oldc.views_wf());
        }
        assert forall|v: int, k: int|
            0 <= v < newc.views@.len() && 0 <= k < (
        #[trigger] newc.views@[v]).group_by@.len() implies 1
            <= #[trigger] newc.views@[v].group_by@[k] < newc.next_field_id by {
            assert(newc.views@[v] == oldc.views@[vidx[v]]);
            assert(oldc.views_wf());
        }
    }

    assert(newc.axes_wf()) by {
        assert forall|k1: int, k2: int| 0 <= k1 < k2 < newc.axes@.len() implies (
        #[trigger] newc.axes@[k1]).axis_id < (#[trigger] newc.axes@[k2]).axis_id by {
            assert(newc.axes@[k1] == oldc.axes@[aidx[k1]]);
            assert(newc.axes@[k2] == oldc.axes@[aidx[k2]]);
            assert(aidx[k1] < aidx[k2]);
        }
        assert forall|k: int| 0 <= k < newc.axes@.len() implies 1 <= (
        #[trigger] newc.axes@[k]).axis_id < newc.next_axis_id && newc.axes@[k].chart_id >= 1 by {
            assert(newc.axes@[k] == oldc.axes@[aidx[k]]);
        }
    }
}

} // verus!
