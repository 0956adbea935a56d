//! Chart axes and the structure of their compiled views.
//!
//! A chart owns an ordered list of axes over one table. An axis with no
//! aggregate is a grouping dimension; one with an aggregate is a
//! measure computed with a fixed aggregate function. A chart compiles
//! to exactly one derived view, rebuilt in full on every axis change.

use vstd::prelude::*;

use crate::catalog::{has_table, table_index, Catalog};
use crate::cells::{column_type_spec, ColumnType};
use crate::entries::field_of_table;
use crate::fields::{FieldOptions, Timestamp};
use crate::{ApiError, ApiResult, Id};

verus! {

/// The closed set of aggregate functions a measure may use.
#[derive(Clone, Copy, PartialEq, Eq, Structural, Debug)]
pub enum Aggregate {
    Count,
    Sum,
    Average,
    Min,
    Max,
}

/// Whether an axis groups rows or measures them.
#[derive(Clone, Copy, PartialEq, Eq, Structural, Debug)]
pub enum AxisKind {
    Dimension,
    Measure,
}

/// What a caller supplies for one axis of a chart.
#[derive(Clone, Copy, PartialEq, Eq, Structural, Debug)]
pub struct CreateAxis {
    pub field_id: Id,
    pub axis_kind: AxisKind,
    pub aggregate: Option<Aggregate>,
}

/// A catalog row describing one axis of a chart.
#[derive(Clone, Copy, PartialEq, Eq, Structural, Debug)]
pub struct Axis {
    pub axis_id: Id,
    pub chart_id: Id,
    pub field_id: Id,
    pub axis_kind: AxisKind,
    pub aggregate: Option<Aggregate>,
    pub created_at: Timestamp,
    pub updated_at: Option<Timestamp>,
}

/// The type an aggregated measure is cast to: a count is a plain
/// 64-bit count whatever it counts; every other aggregate keeps the
/// field's own physical type.
pub open spec fn cast_type_spec(a: Aggregate, o: FieldOptions) -> ColumnType {
    match a {
        Aggregate::Count => ColumnType::BigInt,
        _ => column_type_spec(o),
    }
}

impl Aggregate {
    /// The query-text name of the aggregate function.
    pub open spec fn spec_sql_aggregate(self) -> Seq<char> {
        match self {
            Aggregate::Count => "COUNT"@,
            Aggregate::Sum => "SUM"@,
            Aggregate::Average => "AVG"@,
            Aggregate::Min => "MIN"@,
            Aggregate::Max => "MAX"@,
        }
    }

    /// The query-text name of the aggregate function.
    pub fn get_sql_aggregate(&self) -> (r: &'static str)
        ensures
            r@ == self.spec_sql_aggregate(),
    {
        match self {
            Aggregate::Count => "COUNT",
            Aggregate::Sum => "SUM",
            Aggregate::Average => "AVG",
            Aggregate::Min => "MIN",
            Aggregate::Max => "MAX",
        }
    }

    /// The type this aggregate's result is cast to for a field kind.
    pub fn get_sql_type(&self, o: &FieldOptions) -> (r: ColumnType)
        ensures
            r == cast_type_spec(*self, *o),
    {
        match self {
            Aggregate::Count => ColumnType::BigInt,
            _ => crate::cells::physical_type_for(o).0,
        }
    }
}

/// One output column of a compiled view: an axis's result, either the
/// grouped field itself or an aggregate over it with its cast type.
#[derive(Clone, Copy, PartialEq, Eq, Debug)]
pub struct SelectItem {
    pub axis_id: Id,
    pub field_id: Id,
    pub aggregate: Option<(Aggregate, ColumnType)>,
}

/// The compiled shape of one chart's derived view.
#[derive(Clone, Debug)]
pub struct ViewDef {
    pub chart_id: Id,
    pub table_id: Id,
    pub select: Vec<SelectItem>,
    pub group_by: Vec<Id>,
}

/// The structure of a view, blind to the regenerated axis ids: which
/// field each output column projects, with which aggregate and cast,
/// and which fields group the rows, in order.
pub open spec fn spec_view_structure(v: ViewDef) -> (
    Seq<(Id, Option<(Aggregate, ColumnType)>)>,
    Seq<Id>,
) {
    (v.select@.map_values(|it: SelectItem| (it.field_id, it.aggregate)), v.group_by@)
}

/// The output columns a submitted axis list compiles to: which field
/// each column projects, with which aggregate and cast.
pub open spec fn structure_cols(axes: Seq<(CreateAxis, FieldOptions)>) -> Seq<
    (Id, Option<(Aggregate, ColumnType)>),
> {
    axes.map_values(
        |p: (CreateAxis, FieldOptions)|
            (
                p.0.field_id,
                match p.0.aggregate {
                    Some(a) => Some((a, cast_type_spec(a, p.1))),
                    None => None,
                },
            ),
    )
}

/// The grouping columns a submitted axis list compiles to: the fields
/// of its dimension axes, in order.
pub open spec fn structure_groups(axes: Seq<(CreateAxis, FieldOptions)>) -> Seq<Id> {
    axes.filter(|p: (CreateAxis, FieldOptions)| p.0.aggregate is None).map_values(
        |p: (CreateAxis, FieldOptions)| p.0.field_id,
    )
}

/// The structure a submitted axis list compiles to, independent of the
/// axis ids the catalog will assign.
pub open spec fn spec_structure_of(axes: Seq<(CreateAxis, FieldOptions)>) -> (
    Seq<(Id, Option<(Aggregate, ColumnType)>)>,
    Seq<Id>,
) {
    (structure_cols(axes), structure_groups(axes))
}

/// Whether every submitted axis projects a live field of the table.
pub open spec fn axes_fields_ok(
    c: Catalog,
    table_id: Id,
    axes: Seq<(CreateAxis, FieldOptions)>,
) -> bool {
    forall|k: int|
        0 <= k < axes.len() ==> field_of_table(c, table_id, (#[trigger] axes[k]).0.field_id)
}

impl Catalog {
    /// Replaces all axes of a chart in one step: the chart's old axis
    /// rows go, the submitted list is stored under fresh axis ids, and
    /// the chart's view is rebuilt in full from the new list. On any
    /// error nothing changes.
    pub fn set_axes(
        &mut self,
        chart_id: Id,
        table_id: Id,
        axes: Vec<(CreateAxis, FieldOptions)>,
        now: Timestamp,
    ) -> (r: ApiResult<Vec<Axis>>)
        requires
            old(self).well_formed(),
        ensures
            final(self).well_formed(),
            chart_id < 1 || !has_table(old(self).tables@, table_id) ==> r == Err::<
                Vec<Axis>,
                ApiError,
            >(ApiError::NotFound) && *final(self) == *old(self),
            chart_id >= 1 && has_table(old(self).tables@, table_id) && !axes_fields_ok(
                *old(self),
                table_id,
                axes@,
            ) ==> r == Err::<Vec<Axis>, ApiError>(ApiError::Storage) && *final(self) == *old(self),
            chart_id >= 1 && has_table(old(self).tables@, table_id) && axes_fields_ok(
                *old(self),
                table_id,
                axes@,
            ) && old(self).next_axis_id + axes@.len() > i32::MAX ==> r == Err::<Vec<Axis>, ApiError>(
                ApiError::Storage,
            ) && *final(self) == *old(self),
            chart_id >= 1 && has_table(old(self).tables@, table_id) && axes_fields_ok(
                *old(self),
                table_id,
                axes@,
            ) && old(self).next_axis_id + axes@.len() <= i32::MAX ==> {
                let n = axes@.len() as int;
                &&& r matches Ok(out) && out@.len() == n && (forall|k: int|
                    0 <= k < n ==> (#[trigger] out@[k]) == (Axis {
                        axis_id: (old(self).next_axis_id + k) as Id,
                        chart_id,
                        field_id: axes@[k].0.field_id,
                        axis_kind: axes@[k].0.axis_kind,
                        aggregate: axes@[k].0.aggregate,
                        created_at: now,
                        updated_at: None,
                    })) && final(self).axes@ == old(self).axes@.filter(
                    |a: Axis| a.chart_id != chart_id,
                ) + out@
                &&& final(self).views@.len() == old(self).views@.filter(
                    |v: ViewDef| v.chart_id != chart_id,
                ).len() + 1
                &&& final(self).views@.drop_last() == old(self).views@.filter(
                    |v: ViewDef| v.chart_id != chart_id,
                )
                &&& final(self).views@.last().chart_id == chart_id
                &&& final(self).views@.last().table_id == table_id
                &&& spec_view_structure(final(self).views@.last()) == spec_structure_of(axes@)
                &&& final(self).next_axis_id == old(self).next_axis_id + n
            },
            final(self).tables == old(self).tables,
            final(self).phys == old(self).phys,
            final(self).fields == old(self).fields,
            final(self).next_table_id == old(self).next_table_id,
            final(self).next_field_id == old(self).next_field_id,
    {
        if chart_id < 1 {
            return Err(ApiError::NotFound);
        }
        let ti = match self.find_table_index(table_id) {
            Option::None => {
                return Err(ApiError::NotFound);
            },
            Option::Some(i) => i,
        };
        proof {
            crate::catalog::lemma_table_index_is(self.tables@, ti as int);
        }
        let n = axes.len();
        let mut k: usize = 0;
        while k < n
            invariant
                *self == *old(self),
                self.well_formed(),
                chart_id >= 1,
                ti < self.tables@.len(),
                table_id == self.tables@[ti as int].table_id,
                n == axes@.len(),
                k <= n,
                forall|j: int|
                    0 <= j < k ==> field_of_table(
                        *self,
                        table_id,
                        (#[trigger] axes@[j]).0.field_id,
                    ),
            decreases n - k,
        {
            if self.find_table_field(table_id, axes[k].0.field_id).is_none() {
                proof {
                    crate::catalog::lemma_table_index_is(self.tables@, ti as int);
                }
                return Err(ApiError::Storage);
            }
            k = k + 1;
        }
        if n > (i32::MAX - self.next_axis_id) as usize {
            return Err(ApiError::Storage);
        }

        // The chart's old axis rows go first.
        let ghost axis_pred = |a: Axis| a.chart_id != chart_id;
        let mut kept_axes: Vec<Axis> = Vec::new();
        let ghost mut aidx: Seq<int> = Seq::empty();
        let mut i: usize = 0;
        while i < self.axes.len()
            invariant
                *self == *old(self),
                i <= self.axes@.len(),
                axis_pred == (|a: Axis| a.chart_id != chart_id),
                kept_axes@ == self.axes@.take(i as int).filter(axis_pred),
                aidx.len() == kept_axes@.len(),
                forall|j: int|
                    0 <= j < aidx.len() ==> 0 <= #[trigger] aidx[j] < i && kept_axes@[j]
                        == self.axes@[aidx[j]],
                forall|j1: int, j2: int| 0 <= j1 < j2 < aidx.len() ==> aidx[j1] < aidx[j2],
            decreases self.axes@.len() - i,
        {
            proof {
                reveal(Seq::filter);
                assert(self.axes@.take(i as int + 1).drop_last() =~= self.axes@.take(i as int));
                assert(self.axes@.take(i as int + 1).last() == self.axes@[i as int]);
            }
            if self.axes[i].chart_id != chart_id {
                kept_axes.push(self.axes[i]);
                proof {
                    aidx = aidx.push(i as int);
                }
            }
            i = i + 1;
        }
        let ghost kept_axes_v = kept_axes@;
        proof {
            assert(self.axes@.take(self.axes@.len() as int) =~= self.axes@);
            assert(kept_axes_v == old(self).axes@.filter(axis_pred));
            assert forall|j: int| 0 <= j < aidx.len() implies 0 <= #[trigger] aidx[j] < old(
                self,
            ).axes@.len() && kept_axes_v[j] == old(self).axes@[aidx[j]] && old(self).axes@[
                aidx[j]].chart_id != chart_id by {
                assert(kept_axes_v[j] == self.axes@[aidx[j]]);
            }
        }
        self.axes = kept_axes;

        // The chart's compiled view goes with them.
        let ghost view_pred = |v: ViewDef| v.chart_id != chart_id;
        let ghost src_views = self.views@;
        proof {
            broadcast use vstd::std_specs::vec::axiom_spec_len;

            assert(vstd::std_specs::vec::spec_vec_len(&self.views) <= usize::MAX);
            assert(src_views.len() <= usize::MAX);
        }
        let mut kept_views: Vec<ViewDef> = Vec::new();
        let ghost mut vidx: Seq<int> = Seq::empty();
        let mut i: usize = 0;
        while self.views.len() > 0
            invariant
                self.tables == old(self).tables,
                self.phys == old(self).phys,
                self.fields == old(self).fields,
                self.axes@ == kept_axes_v,
                self.next_table_id == old(self).next_table_id,
                self.next_field_id == old(self).next_field_id,
                self.next_axis_id == old(self).next_axis_id,
                old(self).well_formed(),
                src_views == old(self).views@,
                src_views.len() <= usize::MAX,
                i + self.views@.len() == src_views.len(),
                self.views@ == src_views.skip(i as int),
                view_pred == (|v: ViewDef| v.chart_id != chart_id),
                kept_views@ == src_views.take(i as int).filter(view_pred),
                vidx.len() == kept_views@.len(),
                forall|j: int|
                    0 <= j < vidx.len() ==> 0 <= #[trigger] vidx[j] < i && kept_views@[j]
                        == src_views[vidx[j]] && src_views[vidx[j]].chart_id != chart_id,
                forall|j1: int, j2: int| 0 <= j1 < j2 < vidx.len() ==> vidx[j1] < vidx[j2],
            decreases self.views@.len(),
        {
            proof {
                reveal(Seq::filter);
                assert(src_views.take(i as int + 1).drop_last() =~= src_views.take(i as int));
                assert(src_views.take(i as int + 1).last() == src_views[i as int]);
                assert(src_views.skip(i as int)[0] == src_views[i as int]);
                assert(src_views.skip(i as int).remove(0) =~= src_views.skip(i as int + 1));
            }
            let vd = self.views.remove(0);
            proof {
                assert(vd == src_views[i as int]);
            }
            if vd.chart_id != chart_id {
                kept_views.push(vd);
                proof {
                    vidx = vidx.push(i as int);
                }
            }
            i = i + 1;
        }
        let ghost kept_views_v = kept_views@;
        proof {
            assert(src_views.take(src_views.len() as int) =~= src_views);
            assert(kept_views_v == old(self).views@.filter(view_pred));
        }
        self.views = kept_views;

        // The new axis rows, their output columns, and the grouping
        // columns, compiled in one pass over the submitted list.
        let base = self.next_axis_id;
        let mut new_axes: Vec<Axis> = Vec::new();
        let mut out: Vec<Axis> = Vec::new();
        let mut select: Vec<SelectItem> = Vec::new();
        let mut group_by: Vec<Id> = Vec::new();
        let mut k: usize = 0;
        while k < n
            invariant
                self.tables == old(self).tables,
                self.phys == old(self).phys,
                self.fields == old(self).fields,
                self.axes@ == kept_axes_v,
                self.views@ == kept_views_v,
                self.next_table_id == old(self).next_table_id,
                self.next_field_id == old(self).next_field_id,
                self.next_axis_id == old(self).next_axis_id,
                old(self).well_formed(),
                base == old(self).next_axis_id,
                n == axes@.len(),
                base + n <= i32::MAX,
                forall|j: int|
                    0 <= j < n ==> field_of_table(
                        *old(self),
                        table_id,
                        (#[trigger] axes@[j]).0.field_id,
                    ),
                k <= n,
                new_axes@.len() == k,
                out@ == new_axes@,
                forall|j: int|
                    0 <= j < k ==> (#[trigger] new_axes@[j]) == (Axis {
                        axis_id: (base + j) as Id,
                        chart_id,
                        field_id: axes@[j].0.field_id,
                        axis_kind: axes@[j].0.axis_kind,
                        aggregate: axes@[j].0.aggregate,
                        created_at: now,
                        updated_at: None,
                    }),
                select@.len() == k,
                forall|j: int|
                    0 <= j < k ==> (#[trigger] select@[j]) == (SelectItem {
                        axis_id: (base + j) as Id,
                        field_id: axes@[j].0.field_id,
                        aggregate: match axes@[j].0.aggregate {
                            Some(a) => Some((a, cast_type_spec(a, axes@[j].1))),
                            None => None,
                        },
                    }),
                group_by@ == structure_groups(axes@.take(k as int)),
            decreases n - k,
        {
            proof {
                reveal(Seq::filter);
                assert(axes@.take(k as int + 1).drop_last() =~= axes@.take(k as int));
                assert(axes@.take(k as int + 1).last() == axes@[k as int]);
            }
            let ca = axes[k].0;
            let axis_id = base + (k as i32);
            new_axes.push(
                Axis {
                    axis_id,
                    chart_id,
                    field_id: ca.field_id,
                    axis_kind: ca.axis_kind,
                    aggregate: ca.aggregate,
                    created_at: now,
                    updated_at: None,
                },
            );
            out.push(
                Axis {
                    axis_id,
                    chart_id,
                    field_id: ca.field_id,
                    axis_kind: ca.axis_kind,
                    aggregate: ca.aggregate,
                    created_at: now,
                    updated_at: None,
                },
            );
            let item_aggregate = match ca.aggregate {
                Option::Some(a) => Option::Some((a, a.get_sql_type(&axes[k].1))),
                Option::None => Option::None,
            };
            select.push(SelectItem { axis_id, field_id: ca.field_id, aggregate: item_aggregate });
            if ca.aggregate.is_none() {
                group_by.push(ca.field_id);
            }
            proof {
                let gpred = |p: (CreateAxis, FieldOptions)| p.0.aggregate is None;
                let gmap = |p: (CreateAxis, FieldOptions)| p.0.field_id;
                if ca.aggregate is None {
                    assert(axes@.take(k as int + 1).filter(gpred) =~= axes@.take(k as int).filter(
                        gpred,
                    ).push(axes@[k as int]));
                    assert(group_by@ =~= structure_groups(axes@.take(k as int + 1)));
                } else {
                    assert(axes@.take(k as int + 1).filter(gpred) =~= axes@.take(k as int).filter(
                        gpred,
                    ));
                    assert(group_by@ =~= structure_groups(axes@.take(k as int + 1)));
                }
            }
            k = k + 1;
        }
        proof {
            assert(axes@.take(n as int) =~= axes@);
        }

        let ghost new_axes_v = new_axes@;
        let ghost select_v = select@;
        let ghost group_by_v = group_by@;
        self.axes.append(&mut new_axes);
        let vd = ViewDef { chart_id, table_id, select, group_by };
        self.views.push(vd);
        self.next_axis_id = base + (n as i32);
        proof {
            assert(self.axes@ == kept_axes_v + new_axes_v);
            assert forall|j: int| 0 <= j < aidx.len() implies #[trigger] self.axes@[j]
                == old(self).axes@[aidx[j]] by {
                assert(self.axes@[j] == kept_axes_v[j]);
            }
            assert forall|j: int| 0 <= j < n implies #[trigger] self.axes@[aidx.len() + j]
                == new_axes_v[j] by {
                assert(self.axes@[kept_axes_v.len() as int + j] == new_axes_v[j]);
            }
            assert(self.views@.drop_last() =~= kept_views_v);
            assert(self.views@.last().select@ == select_v);
            assert(self.views@.last().group_by@ == group_by_v);
            lemma_set_axes_commit(
                *old(self),
                *self,
                chart_id,
                table_id,
                ti as int,
                axes@,
                aidx,
                vidx,
            );
            assert(spec_view_structure(self.views@.last()) == spec_structure_of(axes@)) by {
                let lhs = self.views@.last().select@.map_values(
                    |it: SelectItem| (it.field_id, it.aggregate),
                );
                let rhs = structure_cols(axes@);
                assert forall|j: int| 0 <= j < axes@.len() implies #[trigger] lhs[j] == rhs[j] by {
                    assert(lhs[j] == (self.views@.last().select@[j].field_id, self.views@.last().select@[j].aggregate));
                    assert(rhs[j] == (
                        axes@[j].0.field_id,
                        match axes@[j].0.aggregate {
                            Some(a) => Some((a, cast_type_spec(a, axes@[j].1))),
                            None => None,
                        },
                    ));
                }
                assert(lhs =~= rhs);
            }
        }
        Ok(out)
    }
}

/// Filtering one chart's rows out and appending the freshly assigned
/// replacements, together with the chart's rebuilt view, leaves the
/// catalog well formed. The index sequences say where each kept row
/// stood before.
proof fn lemma_set_axes_commit(
    oldc: Catalog,
    newc: Catalog,
    chart_id: Id,
    table_id: Id,
    ti: int,
    axes: Seq<(CreateAxis, FieldOptions)>,
    aidx: Seq<int>,
    vidx: Seq<int>,
)
    requires
        oldc.well_formed(),
        newc.tables@ == oldc.tables@,
        newc.phys@ == oldc.phys@,
        newc.fields@ == oldc.fields@,
        newc.next_table_id == oldc.next_table_id,
        newc.next_field_id == oldc.next_field_id,
        chart_id >= 1,
        0 <= ti < oldc.tables@.len(),
        oldc.tables@[ti].table_id == table_id,
        oldc.next_axis_id + axes.len() <= i32::MAX,
        newc.next_axis_id == oldc.next_axis_id + axes.len(),
        axes_fields_ok(oldc, table_id, axes),
        newc.axes@.len() == aidx.len() + axes.len(),
        forall|j: int|
            0 <= j < aidx.len() ==> 0 <= #[trigger] aidx[j] < oldc.axes@.len() && newc.axes@[j]
                == oldc.axes@[aidx[j]] && oldc.axes@[aidx[j]].chart_id != chart_id,
        forall|j1: int, j2: int| 0 <= j1 < j2 < aidx.len() ==> aidx[j1] < aidx[j2],
        forall|j: int|
            0 <= j < axes.len() ==> #[trigger] newc.axes@[aidx.len() + j] == (Axis {
                axis_id: (oldc.next_axis_id + j) as Id,
                chart_id,
                field_id: axes[j].0.field_id,
                axis_kind: axes[j].0.axis_kind,
                aggregate: axes[j].0.aggregate,
                created_at: newc.axes@[aidx.len() + j].created_at,
                updated_at: None,
            }),
        newc.views@.len() == vidx.len() + 1,
        forall|j: int|
            0 <= j < vidx.len() ==> 0 <= #[trigger] vidx[j] < oldc.views@.len() && newc.views@[j]
                == oldc.views@[vidx[j]] && newc.views@[j].chart_id != chart_id,
        forall|j1: int, j2: int| 0 <= j1 < j2 < vidx.len() ==> vidx[j1] < vidx[j2],
        newc.views@.last().chart_id == chart_id,
        newc.views@.last().table_id == table_id,
        newc.views@.last().select@.len() == axes.len(),
        forall|j: int|
            0 <= j < axes.len() ==> (#[trigger] newc.views@.last().select@[j]).axis_id == (
            oldc.next_axis_id + j) as Id && newc.views@.last().select@[j].field_id
                == axes[j].0.field_id,
        newc.views@.last().group_by@ == structure_groups(axes),
    ensures
        newc.well_formed(),
{
    let n = axes.len() as int;
    let base = oldc.next_axis_id as int;

    assert(newc.tables_wf());
    assert(newc.fields_wf());
    assert(newc.phys_aligned()) by {
        assert forall|p: int| 0 <= p < newc.phys@.len() implies (
        #[trigger] newc.phys@[p]).table_id == newc.tables@[p].table_id by {
            assert(oldc.phys_aligned());
        }
    }
    assert forall|p: int| 0 <= p < newc.phys@.len() implies newc.phys_table_wf(p) by {
        assert(oldc.phys_table_wf(p));
    }

    assert(newc.axes_wf()) by {
        assert forall|k1: int, k2: int| 0 <= k1 < k2 < newc.axes@.len() implies (
        #[trigger] newc.axes@[k1]).axis_id < (#[trigger] newc.axes@[k2]).axis_id by {
            if k2 < aidx.len() {
                assert(newc.axes@[k1] == oldc.axes@[aidx[k1]]);
                assert(newc.axes@[k2] == oldc.axes@[aidx[k2]]);
                assert(aidx[k1] < aidx[k2]);
            } else if k1 < aidx.len() {
                assert(newc.axes@[k1] == oldc.axes@[aidx[k1]]);
                assert(oldc.axes@[aidx[k1]].axis_id < oldc.next_axis_id);
                assert(newc.axes@[k2] == newc.axes@[aidx.len() + (k2 - aidx.len())]);
                assert(newc.axes@[k2].axis_id == (base + (k2 - aidx.len())) as Id);
            } else {
                assert(newc.axes@[k1] == newc.axes@[aidx.len() + (k1 - aidx.len())]);
                assert(newc.axes@[k2] == newc.axes@[aidx.len() + (k2 - aidx.len())]);
            }
        }
        assert forall|k: int| 0 <= k < newc.axes@.len() implies 1 <= (
        #[trigger] newc.axes@[k]).axis_id < newc.next_axis_id && newc.axes@[k].chart_id >= 1 by {
            if k < aidx.len() {
                assert(newc.axes@[k] == oldc.axes@[aidx[k]]);
            } else {
                assert(newc.axes@[k] == newc.axes@[aidx.len() + (k - aidx.len())]);
                assert(newc.axes@[k].axis_id == (base + (k - aidx.len())) as Id);
            }
        }
    }

    assert(newc.views_wf()) by {
        let last = newc.views@.len() - 1;
        assert forall|v1: int, v2: int|
            0 <= v1 < newc.views@.len() && 0 <= v2 < newc.views@.len() && v1 != v2 implies (
        #[trigger] newc.views@[v1]).chart_id != (#[trigger] newc.views@[v2]).chart_id by {
            if v1 < last && v2 < last {
                assert(newc.views@[v1] == oldc.views@[vidx[v1]]);
                assert(newc.views@[v2] == oldc.views@[vidx[v2]]);
                if v1 < v2 {
                    assert(vidx[v1] < vidx[v2]);
                } else {
                    assert(vidx[v2] < vidx[v1]);
                }
            }
        }
        assert forall|v: int| 0 <= v < newc.views@.len() implies (
        #[trigger] newc.views@[v]).chart_id >= 1 && has_table(
            newc.tables@,
            newc.views@[v].table_id,
        ) by {
            if v < last {
                assert(newc.views@[v] == oldc.views@[vidx[v]]);
                assert(oldc.views_wf());
            } else {
                assert(newc.tables@[ti].table_id == table_id);
            }
        }
        assert forall|v: int, k: int|
            0 <= v < newc.views@.len() && 0 <= k < (#[trigger] newc.views@[v]).select@.len() implies
        1 <= (#[trigger] newc.views@[v].select@[k]).field_id < newc.next_field_id && 1
            <= newc.views@[v].select@[k].axis_id < newc.next_axis_id by {
            if v < last {
                assert(newc.views@[v] == oldc.views@[vidx[v]]);
                assert(oldc.views_wf());
            } else {
                assert(newc.views@[v].select@[k].axis_id == (base + k) as Id);
                assert(field_of_table(oldc, table_id, axes[k].0.field_id));
                let f = choose|f: int|
                    0 <= f < oldc.fields@.len() && (#[trigger] oldc.fields@[f]).field_id == axes[
                    k].0.field_id && oldc.fields@[f].table_id == table_id;
                assert(1 <= oldc.fields@[f].field_id < oldc.next_field_id);
            }
        }
        assert forall|v: int, k: int|
            0 <= v < newc.views@.len() && 0 <= k < (
        #[trigger] newc.views@[v]).group_by@.len() implies 1 <= #[trigger] newc.views@[v].group_by@[k]
            < newc.next_field_id by {
            if v < last {
                assert(newc.views@[v] == oldc.views@[vidx[v]]);
                assert(oldc.views_wf());
            } else {
                let gpred = |p: (CreateAxis, FieldOptions)| p.0.aggregate is None;
                let gmap = |p: (CreateAxis, FieldOptions)| p.0.field_id;
                assert(newc.views@[v].group_by@[k] == axes.filter(gpred).map_values(gmap)[k]);
                assert(axes.filter(gpred).map_values(gmap)[k] == gmap(axes.filter(gpred)[k]));
                crate::catalog::lemma_filter_member(axes, gpred, k);
                let w = choose|w: int| 0 <= w < axes.len() && axes[w] == axes.filter(gpred)[k];
                assert(field_of_table(oldc, table_id, axes[w].0.field_id));
                let f = choose|f: int|
                    0 <= f < oldc.fields@.len() && (#[trigger] oldc.fields@[f]).field_id == axes[
                    w].0.field_id && oldc.fields@[f].table_id == table_id;
                assert(1 <= oldc.fields@[f].field_id < oldc.next_field_id);
            }
        }
    }
}

/// Replacing a chart's axes is idempotent per submitted list: however
/// often the same list is submitted, the compiled view's structure is
/// the same one, even though the axis ids are regenerated each time.
pub proof fn lemma_axes_idempotent(
    axes: Seq<(CreateAxis, FieldOptions)>,
    v1: ViewDef,
    v2: ViewDef,
)
    requires
        spec_view_structure(v1) == spec_structure_of(axes),
        spec_view_structure(v2) == spec_structure_of(axes),
    ensures
        spec_view_structure(v1) == spec_view_structure(v2),
{
}

} // verus!
