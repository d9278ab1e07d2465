//! The predicates of a query can be applied to what the query gets, before anything else is done.

use vstd::prelude::*;

use crate::oxql::ast::{Double, Ident, LogicalOp};
use crate::oxql::filter::{combined, one_mark_per_point, Filter};
use crate::oxql::group_by::{grouped, selected, GroupView, Reducer};
use crate::oxql::laws::{
    aligned, all_thinned, comes_from, conjunction, filters_pass_through_grouping,
    groups_come_from_series, kept_series_are_well_formed, marks_of_kept_points, merged_filters_agree,
    names_keys_or_time, no_time_field, passes, passing_after_push, passing_groups,
    points_kept_twice, thinned, time_decides, time_marks,
};
use crate::oxql::point::{kept, kept_lengths_agree, PointsView, ValueArrayView};
use crate::oxql::query::{coalesced, restricted};
use crate::oxql::reduce::{
    deterministic, divides_alike, is_value, reduces_to, reduction_is_unique,
};
use crate::oxql::table::{Field, FieldValue, TimeseriesView};
use crate::oxql::table_ops::{BasicTableOp, TableOp};
use crate::oxql::Error;

verus! {

/// The one filter is the other, or what is left of it without some of the filters that are joined to
/// others by `&&`.
pub open spec fn part_of(part: Filter, whole: Filter) -> bool
    decreases whole,
{
    ||| part == whole
    ||| match whole {
        Filter::Atom(_) => false,
        Filter::Expr(w) => match w.op {
            LogicalOp::And => {
                ||| part_of(part, *w.left)
                ||| part_of(part, *w.right)
                ||| (part matches Filter::Expr(p) && p.op is And && part_of(*p.left, *w.left)
                    && part_of(*p.right, *w.right))
            },
            LogicalOp::Or => part matches Filter::Expr(p) && p.op is Or && part_of(*p.left, *w.left)
                && part_of(*p.right, *w.right),
        },
    }
}

/// A part of a part is a part.
pub proof fn part_of_is_transitive(a: Filter, b: Filter, c: Filter)
    requires
        part_of(a, b),
        part_of(b, c),
    ensures
        part_of(a, c),
    decreases c,
{
    if a != b && b != c {
        let w = c->Expr_0;
        match w.op {
            LogicalOp::And => {
                if part_of(b, *w.left) {
                    part_of_is_transitive(a, b, *w.left);
                } else if part_of(b, *w.right) {
                    part_of_is_transitive(a, b, *w.right);
                } else {
                    let p = b->Expr_0;
                    if part_of(a, *p.left) {
                        part_of_is_transitive(a, *p.left, *w.left);
                    } else if part_of(a, *p.right) {
                        part_of_is_transitive(a, *p.right, *w.right);
                    } else {
                        let q = a->Expr_0;
                        part_of_is_transitive(*q.left, *p.left, *w.left);
                        part_of_is_transitive(*q.right, *p.right, *w.right);
                    }
                }
            },
            LogicalOp::Or => {
                let p = b->Expr_0;
                let q = a->Expr_0;
                part_of_is_transitive(*q.left, *p.left, *w.left);
                part_of_is_transitive(*q.right, *p.right, *w.right);
            },
        }
    }
}

/// A part lets pass what the whole lets pass.
proof fn part_of_field_result(part: Filter, whole: Filter, name: Seq<char>, value: FieldValue)
    requires
        part_of(part, whole),
        whole.field_result(name, value) is Ok,
    ensures
        part.field_result(name, value) is Ok,
        whole.field_result(name, value) == Ok::<bool, Error>(true) ==> part.field_result(
            name,
            value,
        ) == Ok::<bool, Error>(true),
    decreases whole,
{
    if part != whole {
        let w = whole->Expr_0;
        match w.op {
            LogicalOp::And => {
                if part_of(part, *w.left) {
                    part_of_field_result(part, *w.left, name, value);
                } else if part_of(part, *w.right) {
                    part_of_field_result(part, *w.right, name, value);
                } else {
                    let p = part->Expr_0;
                    part_of_field_result(*p.left, *w.left, name, value);
                    part_of_field_result(*p.right, *w.right, name, value);
                }
            },
            LogicalOp::Or => {
                let p = part->Expr_0;
                part_of_field_result(*p.left, *w.left, name, value);
                part_of_field_result(*p.right, *w.right, name, value);
            },
        }
    }
}

/// A part marks the points that the whole marks.
proof fn part_of_points_result(part: Filter, whole: Filter, points: PointsView)
    requires
        part_of(part, whole),
        points.well_formed(),
        whole.points_result(points) is Ok,
    ensures
        part.points_result(points) is Ok,
        forall|i: int|
            0 <= i < points.timestamps.len() && #[trigger] whole.points_result(points)->Ok_0[i]
                ==> part.points_result(points)->Ok_0[i],
    decreases whole,
{
    if part != whole {
        let w = whole->Expr_0;
        one_mark_per_point(*w.left, points);
        one_mark_per_point(*w.right, points);
        match w.op {
            LogicalOp::And => {
                if part_of(part, *w.left) {
                    part_of_points_result(part, *w.left, points);
                } else if part_of(part, *w.right) {
                    part_of_points_result(part, *w.right, points);
                } else {
                    let p = part->Expr_0;
                    part_of_points_result(*p.left, *w.left, points);
                    part_of_points_result(*p.right, *w.right, points);
                    one_mark_per_point(*p.left, points);
                    one_mark_per_point(*p.right, points);
                }
            },
            LogicalOp::Or => {
                let p = part->Expr_0;
                part_of_points_result(*p.left, *w.left, points);
                part_of_points_result(*p.right, *w.right, points);
                one_mark_per_point(*p.left, points);
                one_mark_per_point(*p.right, points);
            },
        }
    }
}

proof fn part_of_names(part: Filter, whole: Filter, identifiers: Seq<Ident>)
    requires
        part_of(part, whole),
        names_keys_or_time(whole, identifiers),
    ensures
        names_keys_or_time(part, identifiers),
    decreases whole,
{
    if part != whole {
        let w = whole->Expr_0;
        match w.op {
            LogicalOp::And => {
                if part_of(part, *w.left) {
                    part_of_names(part, *w.left, identifiers);
                } else if part_of(part, *w.right) {
                    part_of_names(part, *w.right, identifiers);
                } else {
                    let p = part->Expr_0;
                    part_of_names(*p.left, *w.left, identifiers);
                    part_of_names(*p.right, *w.right, identifiers);
                }
            },
            LogicalOp::Or => {
                let p = part->Expr_0;
                part_of_names(*p.left, *w.left, identifiers);
                part_of_names(*p.right, *w.right, identifiers);
            },
        }
    }
}

/// The filter can be compared with every field.
pub open spec fn comparable_fields(filter: Filter, fields: Seq<Field>) -> bool {
    forall|j: int|
        0 <= j < fields.len() ==> filter.field_result(
            (#[trigger] fields[j]).name@,
            fields[j].value,
        ) is Ok
}

/// The filter can be compared with every field and every point: no comparison fails.
pub open spec fn comparable(filter: Filter, series: Seq<TimeseriesView>) -> bool {
    forall|i: int|
        0 <= i < series.len() ==> comparable_fields(filter, (#[trigger] series[i]).fields)
            && filter.points_result(series[i].points) is Ok
}

/// All the timeseries are well formed.
pub open spec fn all_well_formed(series: Seq<TimeseriesView>) -> bool {
    forall|i: int| 0 <= i < series.len() ==> (#[trigger] series[i]).well_formed()
}

/// The first fields pass exactly where each of them does.
pub proof fn passing_is_passing_each(filter: Filter, fields: Seq<Field>, n: nat)
    requires
        n <= fields.len(),
    ensures
        filter.fields_pass(fields, n) == Ok::<bool, Error>(true) <==> forall|j: int|
            0 <= j < n ==> filter.field_result((#[trigger] fields[j]).name@, fields[j].value)
                == Ok::<bool, Error>(true),
        comparable_fields(filter, fields) ==> filter.fields_pass(fields, n) is Ok,
    decreases n,
{
    if n > 0 {
        passing_is_passing_each(filter, fields, (n - 1) as nat);
        let last = fields[n - 1];
        if filter.fields_pass(fields, n) == Ok::<bool, Error>(true) {
            assert forall|j: int| 0 <= j < n implies filter.field_result(
                (#[trigger] fields[j]).name@,
                fields[j].value,
            ) == Ok::<bool, Error>(true) by {}
        }
    }
}

proof fn part_passes(part: Filter, whole: Filter, fields: Seq<Field>)
    requires
        part_of(part, whole),
        passes(whole, fields),
    ensures
        passes(part, fields),
{
    passing_is_passing_each(whole, fields, fields.len());
    passing_is_passing_each(part, fields, fields.len());
    assert forall|j: int| 0 <= j < fields.len() implies part.field_result(
        (#[trigger] fields[j]).name@,
        fields[j].value,
    ) == Ok::<bool, Error>(true) by {
        part_of_field_result(part, whole, fields[j].name@, fields[j].value);
    }
}

proof fn part_is_comparable(part: Filter, whole: Filter, series: Seq<TimeseriesView>)
    requires
        part_of(part, whole),
        comparable(whole, series),
        all_well_formed(series),
    ensures
        comparable(part, series),
{
    assert forall|i: int| 0 <= i < series.len() implies comparable_fields(
        part,
        (#[trigger] series[i]).fields,
    ) && part.points_result(series[i].points) is Ok by {
        let fields = series[i].fields;
        assert(comparable_fields(whole, fields));
        assert forall|j: int| 0 <= j < fields.len() implies part.field_result(
            (#[trigger] fields[j]).name@,
            fields[j].value,
        ) is Ok by {
            part_of_field_result(part, whole, fields[j].name@, fields[j].value);
        }
        part_of_points_result(part, whole, series[i].points);
    }
}

/// What a filter leaves of a timeseries, where it fails on no part of it.
proof fn kept_of_comparable(filter: Filter, t: TimeseriesView)
    requires
        comparable_fields(filter, t.fields),
        filter.points_result(t.points) is Ok,
    ensures
        filter.kept_timeseries(t) == Ok::<Option<TimeseriesView>, Error>(
            if passes(filter, t.fields) {
                Some(
                    TimeseriesView {
                        fields: t.fields,
                        points: t.points.keep(filter.points_result(t.points)->Ok_0),
                    },
                )
            } else {
                None
            },
        ),
{
    passing_is_passing_each(filter, t.fields, t.fields.len());
}

/// A filter of which no comparison fails does not fail.
proof fn comparable_filters_succeed(h: Filter, series: Seq<TimeseriesView>)
    requires
        comparable(h, series),
    ensures
        h.kept_series(series) is Ok,
    decreases series.len(),
{
    if series.len() > 0 {
        let rest = series.drop_last();
        assert(series.last() == series[series.len() - 1]);
        assert(forall|i: int| 0 <= i < rest.len() ==> #[trigger] rest[i] == series[i]);
        comparable_filters_succeed(h, rest);
        kept_of_comparable(h, series.last());
    }
}

/// What is left of a timeseries is left whichever of two filters comes first.
proof fn filters_commute_on_timeseries(f: Filter, h: Filter, t: TimeseriesView)
    requires
        t.well_formed(),
        f.kept_timeseries(t) is Ok,
        comparable_fields(h, t.fields),
        h.points_result(t.points) is Ok,
    ensures
        match h.kept_timeseries(t) {
            Ok(Some(u)) => match f.kept_timeseries(t) {
                Ok(Some(v)) => f.kept_timeseries(u) is Ok && f.kept_timeseries(u)
                    == h.kept_timeseries(v),
                _ => f.kept_timeseries(u) == Ok::<Option<TimeseriesView>, Error>(None),
            },
            _ => f.kept_timeseries(t) matches Ok(Some(v)) ==> h.kept_timeseries(v) == Ok::<
                Option<TimeseriesView>,
                Error,
            >(None),
        },
{
    kept_of_comparable(h, t);
    if passes(h, t.fields) {
        let second = h.points_result(t.points)->Ok_0;
        one_mark_per_point(h, t.points);
        marks_of_kept_points(f, t.points, second);
        if passes(f, t.fields) {
            let first = f.points_result(t.points)->Ok_0;
            one_mark_per_point(f, t.points);
            marks_of_kept_points(h, t.points, first);
            points_kept_twice(t.points, first, second);
            points_kept_twice(t.points, second, first);
            assert(combined(LogicalOp::And, first, second) =~= combined(
                LogicalOp::And,
                second,
                first,
            ));
        }
    }
}

/// A filter leaves the same of a timeseries, whether or not a part of it was applied before.
proof fn filter_absorbs_part_on_timeseries(f: Filter, h: Filter, t: TimeseriesView)
    requires
        t.well_formed(),
        part_of(h, f),
        f.kept_timeseries(t) is Ok,
        comparable_fields(h, t.fields),
        h.points_result(t.points) is Ok,
    ensures
        match h.kept_timeseries(t) {
            Ok(Some(u)) => f.kept_timeseries(u) == f.kept_timeseries(t),
            r => r == f.kept_timeseries(t),
        },
{
    kept_of_comparable(h, t);
    if passes(f, t.fields) {
        part_passes(h, f, t.fields);
        part_of_points_result(h, f, t.points);
        let all = f.points_result(t.points)->Ok_0;
        let more = h.points_result(t.points)->Ok_0;
        one_mark_per_point(f, t.points);
        one_mark_per_point(h, t.points);
        marks_of_kept_points(f, t.points, more);
        points_kept_twice(t.points, more, all);
        assert(combined(LogicalOp::And, all, more) =~= all);
    }
}

/// What a filter leaves can be compared with every filter that the whole can be compared with.
proof fn left_is_comparable(h: Filter, f: Filter, series: Seq<TimeseriesView>)
    requires
        all_well_formed(series),
        comparable(h, series),
        f.kept_series(series) is Ok,
    ensures
        comparable(h, f.kept_series(series)->Ok_0),
        h.kept_series(series) is Ok,
    decreases series.len(),
{
    if series.len() > 0 {
        let rest = series.drop_last();
        let t = series.last();
        assert(t == series[series.len() - 1]);
        assert(forall|i: int| 0 <= i < rest.len() ==> #[trigger] rest[i] == series[i]);
        left_is_comparable(h, f, rest);
        kept_of_comparable(h, t);
        let few = f.kept_series(rest)->Ok_0;
        let all = f.kept_series(series)->Ok_0;
        match f.kept_timeseries(t) {
            Ok(Some(u)) => {
                marks_of_kept_points(h, t.points, f.points_result(t.points)->Ok_0);
                assert forall|i: int| 0 <= i < all.len() implies comparable_fields(
                    h,
                    (#[trigger] all[i]).fields,
                ) && h.points_result(all[i].points) is Ok by {
                    if i < few.len() {
                        assert(all[i] == few[i]);
                    } else {
                        assert(all[i] == u);
                    }
                }
            },
            _ => {},
        }
    }
}

/// What is left is left whichever of two filters comes first.
proof fn filters_commute(f: Filter, h: Filter, series: Seq<TimeseriesView>)
    requires
        all_well_formed(series),
        f.kept_series(series) is Ok,
        comparable(h, series),
    ensures
        h.kept_series(series) is Ok,
        h.kept_series(f.kept_series(series)->Ok_0) is Ok,
        f.kept_series(h.kept_series(series)->Ok_0) == h.kept_series(f.kept_series(series)->Ok_0),
    decreases series.len(),
{
    if series.len() > 0 {
        let rest = series.drop_last();
        let t = series.last();
        assert(t == series[series.len() - 1]);
        assert(forall|i: int| 0 <= i < rest.len() ==> #[trigger] rest[i] == series[i]);
        filters_commute(f, h, rest);
        kept_of_comparable(h, t);
        filters_commute_on_timeseries(f, h, t);
        let a = h.kept_series(rest)->Ok_0;
        let b = f.kept_series(rest)->Ok_0;
        match h.kept_timeseries(t) {
            Ok(Some(u)) => assert(a.push(u).drop_last() =~= a),
            _ => {},
        }
        match f.kept_timeseries(t) {
            Ok(Some(v)) => assert(b.push(v).drop_last() =~= b),
            _ => {},
        }
    }
}

/// A filter leaves the same, whether or not a part of it was applied before.
proof fn filter_absorbs_part(f: Filter, h: Filter, series: Seq<TimeseriesView>)
    requires
        all_well_formed(series),
        part_of(h, f),
        f.kept_series(series) is Ok,
        comparable(h, series),
    ensures
        h.kept_series(series) is Ok,
        f.kept_series(h.kept_series(series)->Ok_0) == f.kept_series(series),
    decreases series.len(),
{
    if series.len() > 0 {
        let rest = series.drop_last();
        let t = series.last();
        assert(t == series[series.len() - 1]);
        assert(forall|i: int| 0 <= i < rest.len() ==> #[trigger] rest[i] == series[i]);
        filter_absorbs_part(f, h, rest);
        kept_of_comparable(h, t);
        filter_absorbs_part_on_timeseries(f, h, t);
        let a = h.kept_series(rest)->Ok_0;
        match h.kept_timeseries(t) {
            Ok(Some(u)) => assert(a.push(u).drop_last() =~= a),
            _ => {},
        }
    }
}

/// The items that are kept of two sequences stand at the same places.
proof fn kept_pairs<T, U>(s: Seq<T>, t: Seq<U>, mask: Seq<bool>, i: int)
    requires
        s.len() == t.len(),
        0 <= i < kept(s, mask).len(),
    ensures
        kept(s, mask).len() == kept(t, mask).len(),
        exists|j: int|
            0 <= j < s.len() && kept(s, mask)[i] == #[trigger] s[j] && kept(t, mask)[i] == t[j],
    decreases s.len(),
{
    kept_lengths_agree(s, t, mask);
    let a = s.drop_last();
    let b = t.drop_last();
    kept_lengths_agree(a, b, mask);
    if i < kept(a, mask).len() {
        kept_pairs(a, b, mask, i);
        let j = choose|j: int|
            0 <= j < a.len() && kept(a, mask)[i] == #[trigger] a[j] && kept(b, mask)[i] == b[j];
        assert(s[j] == a[j] && t[j] == b[j]);
    } else {
        let j = s.len() - 1;
        assert(s[j] == s.last() && t[j] == t.last());
    }
}

proof fn selected_are_fields(fields: Seq<Field>, identifiers: Seq<Ident>, j: int)
    requires
        0 <= j < selected(fields, identifiers).len(),
    ensures
        exists|k: int|
            0 <= k < fields.len() && #[trigger] fields[k] == selected(fields, identifiers)[j],
    decreases fields.len(),
{
    let rest = fields.drop_last();
    let few = selected(rest, identifiers);
    if j < few.len() {
        selected_are_fields(rest, identifiers, j);
        let k = choose|k: int| 0 <= k < rest.len() && #[trigger] rest[k] == few[j];
        assert(fields[k] == rest[k]);
    } else {
        assert(fields[fields.len() - 1] == fields.last());
    }
}

/// The timeseries are what the groups are reduced to.
pub open spec fn all_reduce_to<
    C: Fn(i64) -> Double,
    A: Fn(Double, Double) -> Double,
    D: Fn(Double, u64) -> Double,
>(
    to_double: C,
    plus: A,
    divide: D,
    reducer: Reducer,
    groups: Seq<GroupView>,
    series: Seq<TimeseriesView>,
) -> bool {
    &&& series.len() == groups.len()
    &&& forall|k: int|
        0 <= k < groups.len() ==> reduces_to(
            to_double,
            plus,
            divide,
            reducer,
            groups[k],
            #[trigger] series[k],
        )
}

/// The operation makes the one table's timeseries of the other's, where these are the operations on
/// doubles.
pub open spec fn step_gives<
    C: Fn(i64) -> Double,
    A: Fn(Double, Double) -> Double,
    D: Fn(Double, u64) -> Double,
>(
    to_double: C,
    plus: A,
    divide: D,
    op: TableOp,
    before: Seq<TimeseriesView>,
    after: Seq<TimeseriesView>,
) -> bool {
    match op {
        TableOp::Basic(BasicTableOp::Filter(f)) => f.kept_series(before) == Ok::<
            Seq<TimeseriesView>,
            Error,
        >(after),
        TableOp::Basic(BasicTableOp::GroupBy(g)) => grouped(
            before,
            g.identifiers@,
        ) matches Ok(groups) && all_reduce_to(to_double, plus, divide, g.reducer, groups, after),
        _ => false,
    }
}

/// The timeseries that there are before the first of the operations, and after each of them. All of
/// the operations filter or group.
pub open spec fn is_run<
    C: Fn(i64) -> Double,
    A: Fn(Double, Double) -> Double,
    D: Fn(Double, u64) -> Double,
>(
    to_double: C,
    plus: A,
    divide: D,
    ops: Seq<TableOp>,
    states: Seq<Seq<TimeseriesView>>,
) -> bool
    decreases ops.len(),
{
    if ops.len() == 0 {
        states.len() == 1
    } else {
        &&& states.len() > 1
        &&& step_gives(to_double, plus, divide, ops[0], states[0], states[1])
        &&& is_run(to_double, plus, divide, ops.drop_first(), states.drop_first())
    }
}

/// Of no timeseries that the filter lets pass are all points removed.
pub open spec fn empties_none(filter: Filter, series: Seq<TimeseriesView>) -> bool {
    forall|i: int|
        0 <= i < series.len() ==> (filter.kept_timeseries(#[trigger] series[i]) matches Ok(Some(t))
            ==> t.points.timestamps.len() > 0)
}

/// What a grouping lets pass of the filters after it can be applied before it: only filters that are
/// joined to others by `&&` are left behind, what passes names no values, timeseries of the same
/// group have the same timestamps, and no timeseries is emptied.
pub open spec fn lets_pass(op: TableOp, later: Option<Filter>, series: Seq<TimeseriesView>) -> bool {
    match (op, later) {
        (TableOp::Basic(BasicTableOp::GroupBy(g)), Some(later)) => restricted(
            later,
            g.identifiers@,
        ) matches Some(filter) ==> {
            &&& part_of(filter, later)
            &&& names_keys_or_time(filter, g.identifiers@)
            &&& aligned(series, g.identifiers@)
            &&& forall|i: int| 0 <= i < series.len() ==> no_time_field((#[trigger] series[i]).fields)
            &&& forall|part: Filter| #[trigger] part_of(part, filter) ==> empties_none(part, series)
        },
        _ => true,
    }
}

/// On the way through the operations the timeseries are well formed, and each grouping lets pass
/// what can be applied before it.
pub open spec fn way_is_clear(ops: Seq<TableOp>, states: Seq<Seq<TimeseriesView>>) -> bool
    decreases ops.len(),
{
    &&& all_well_formed(states[0])
    &&& ops.len() > 0 ==> {
        &&& lets_pass(ops[0], coalesced(ops.drop_first()), states[0])
        &&& way_is_clear(ops.drop_first(), states.drop_first())
    }
}

/// What is left of a group by its timestamps is reduced to what is left of the timeseries to which
/// the group is reduced.
proof fn thinned_reduces<
    C: Fn(i64) -> Double,
    A: Fn(Double, Double) -> Double,
    D: Fn(Double, u64) -> Double,
>(
    to_double: C,
    plus: A,
    divide: D,
    reducer: Reducer,
    group: GroupView,
    series: TimeseriesView,
    filter: Filter,
    identifiers: Seq<Ident>,
)
    requires
        reduces_to(to_double, plus, divide, reducer, group, series),
        group.addends.len() == group.timestamps.len(),
        names_keys_or_time(filter, identifiers),
        filter.points_result(series.points) is Ok,
    ensures
        reduces_to(
            to_double,
            plus,
            divide,
            reducer,
            thinned(filter, group),
            TimeseriesView {
                fields: series.fields,
                points: series.points.keep(filter.points_result(series.points)->Ok_0),
            },
        ),
{
    time_decides(filter, identifiers, series.points);
    let marks = time_marks(filter, group.timestamps);
    assert(filter.points_result(series.points)->Ok_0 == marks);
    let thin = thinned(filter, group);
    let left = TimeseriesView { fields: series.fields, points: series.points.keep(marks) };
    let values = series.points.values[0].values->Double_0;
    assert(left.points.values[0].values == ValueArrayView::Double(kept(values, marks)));
    kept_lengths_agree(values, group.addends, marks);
    assert forall|i: int| 0 <= i < kept(values, marks).len() implies is_value(
        to_double,
        plus,
        divide,
        reducer,
        thin.addends[i],
        thin.count,
        #[trigger] kept(values, marks)[i],
    ) by {
        kept_pairs(values, group.addends, marks, i);
        let j = choose|j: int|
            0 <= j < values.len() && kept(values, marks)[i] == #[trigger] values[j] && kept(
                group.addends,
                marks,
            )[i] == group.addends[j];
        assert(is_value(
            to_double,
            plus,
            divide,
            reducer,
            group.addends[j],
            group.count,
            values[j],
        ));
    }
}

/// The groups that pass, thinned, are reduced to what is left of the timeseries to which the groups
/// are reduced.
proof fn all_thinned_reduce<
    C: Fn(i64) -> Double,
    A: Fn(Double, Double) -> Double,
    D: Fn(Double, u64) -> Double,
>(
    to_double: C,
    plus: A,
    divide: D,
    reducer: Reducer,
    groups: Seq<GroupView>,
    series: Seq<TimeseriesView>,
    filter: Filter,
    identifiers: Seq<Ident>,
)
    requires
        all_reduce_to(to_double, plus, divide, reducer, groups, series),
        forall|k: int|
            0 <= k < groups.len() ==> (#[trigger] groups[k]).addends.len()
                == groups[k].timestamps.len(),
        names_keys_or_time(filter, identifiers),
        comparable(filter, series),
    ensures
        filter.kept_series(series) is Ok,
        all_reduce_to(
            to_double,
            plus,
            divide,
            reducer,
            all_thinned(filter, passing_groups(filter, groups, 0)),
            filter.kept_series(series)->Ok_0,
        ),
    decreases groups.len(),
{
    if groups.len() > 0 {
        let few = groups.drop_last();
        let g = groups.last();
        let rest = series.drop_last();
        let t = series.last();
        let n = groups.len() - 1;
        assert(groups[n] == g && series[n] == t);
        assert(reduces_to(to_double, plus, divide, reducer, groups[n], series[n]));
        assert forall|k: int| 0 <= k < few.len() implies reduces_to(
            to_double,
            plus,
            divide,
            reducer,
            few[k],
            #[trigger] rest[k],
        ) by {
            assert(few[k] == groups[k] && rest[k] == series[k]);
        }
        assert(forall|i: int| 0 <= i < rest.len() ==> #[trigger] rest[i] == series[i]);
        assert(forall|k: int| 0 <= k < few.len() ==> #[trigger] few[k] == groups[k]);
        all_thinned_reduce(to_double, plus, divide, reducer, few, rest, filter, identifiers);
        assert(few.push(g) =~= groups);
        passing_after_push(filter, few, g, 0);
        kept_of_comparable(filter, t);
        let passing = passing_groups(filter, few, 0);
        let left = filter.kept_series(rest)->Ok_0;
        if passes(filter, t.fields) {
            thinned_reduces(to_double, plus, divide, reducer, g, t, filter, identifiers);
            let more = all_thinned(filter, passing.push(g));
            let all = filter.kept_series(series)->Ok_0;
            assert(more =~= all_thinned(filter, passing).push(thinned(filter, g)));
            assert forall|k: int| 0 <= k < more.len() implies reduces_to(
                to_double,
                plus,
                divide,
                reducer,
                more[k],
                #[trigger] all[k],
            ) by {
                if k < left.len() {
                    assert(all[k] == left[k]);
                }
            }
        }
    } else {
        assert(series =~= Seq::empty());
        assert(all_thinned(filter, passing_groups(filter, groups, 0)) =~= Seq::empty());
    }
}

/// A grouping makes of what a filter leaves what the filter leaves of the grouped.
proof fn grouping_step_commutes<
    C: Fn(i64) -> Double,
    A: Fn(Double, Double) -> Double,
    D: Fn(Double, u64) -> Double,
>(
    to_double: C,
    plus: A,
    divide: D,
    op: TableOp,
    before: Seq<TimeseriesView>,
    after: Seq<TimeseriesView>,
    h: Filter,
)
    requires
        step_gives(to_double, plus, divide, op, before, after),
        op matches TableOp::Basic(BasicTableOp::GroupBy(g)) && names_keys_or_time(
            h,
            g.identifiers@,
        ) && aligned(before, g.identifiers@),
        all_well_formed(before),
        forall|i: int| 0 <= i < before.len() ==> no_time_field((#[trigger] before[i]).fields),
        comparable(h, before),
        empties_none(h, before),
    ensures
        comparable(h, after),
        h.kept_series(before) is Ok,
        h.kept_series(after) is Ok,
        step_gives(
            to_double,
            plus,
            divide,
            op,
            h.kept_series(before)->Ok_0,
            h.kept_series(after)->Ok_0,
        ),
{
    let g = op->Basic_0->GroupBy_0;
    let ids = g.identifiers@;
    let groups = grouped(before, ids)->Ok_0;
    comparable_filters_succeed(h, before);
    filters_pass_through_grouping(h, ids, before);
    assert forall|k: int| 0 <= k < groups.len() implies (#[trigger] groups[k]).addends.len()
        == groups[k].timestamps.len() by {
        groups_come_from_series(before, ids, k);
        let i = choose|i: int| #[trigger] comes_from(groups[k], before, ids, i);
    }
    assert forall|k: int| 0 <= k < after.len() implies comparable_fields(
        h,
        (#[trigger] after[k]).fields,
    ) && h.points_result(after[k].points) is Ok by {
        groups_come_from_series(before, ids, k);
        let i = choose|i: int| #[trigger] comes_from(groups[k], before, ids, i);
        assert(reduces_to(to_double, plus, divide, g.reducer, groups[k], after[k]));
        let t = before[i];
        let fields = after[k].fields;
        assert(comparable_fields(h, t.fields));
        assert forall|j: int| 0 <= j < fields.len() implies h.field_result(
            (#[trigger] fields[j]).name@,
            fields[j].value,
        ) is Ok by {
            selected_are_fields(t.fields, ids, j);
            let m = choose|m: int| 0 <= m < t.fields.len() && #[trigger] t.fields[m] == fields[j];
            assert(h.field_result(t.fields[m].name@, t.fields[m].value) is Ok);
        }
        time_decides(h, ids, after[k].points);
        time_decides(h, ids, t.points);
    }
    all_thinned_reduce(to_double, plus, divide, g.reducer, groups, after, h, ids);
}

/// Any part of the predicates can be applied first.
proof fn parts_can_be_applied_first<
    C: Fn(i64) -> Double,
    A: Fn(Double, Double) -> Double,
    D: Fn(Double, u64) -> Double,
>(
    to_double: C,
    plus: A,
    divide: D,
    ops: Seq<TableOp>,
    states: Seq<Seq<TimeseriesView>>,
    h: Filter,
) -> (pushed: Seq<Seq<TimeseriesView>>)
    requires
        is_run(to_double, plus, divide, ops, states),
        way_is_clear(ops, states),
        coalesced(ops) matches Some(filter) && part_of(h, filter),
        comparable(h, states[0]),
    ensures
        is_run(to_double, plus, divide, ops, pushed),
        h.kept_series(states[0]) == Ok::<Seq<TimeseriesView>, Error>(pushed[0]),
        pushed.last() == states.last(),
        pushed.len() > 0,
    decreases ops.len(),
{
    let start = states[0];
    let rest = ops.drop_first();
    let later = states.drop_first();
    assert(later[0] == states[1]);
    assert(later.last() == states.last());
    comparable_filters_succeed(h, start);
    let first = h.kept_series(start)->Ok_0;
    let tail = match ops[0] {
        TableOp::Basic(BasicTableOp::Filter(f)) => {
            let l = coalesced(rest);
            if part_of(h, f) {
                filter_absorbs_part(f, h, start);
                later
            } else if part_of(h, l->0) {
                filters_commute(f, h, start);
                left_is_comparable(h, f, start);
                parts_can_be_applied_first(to_double, plus, divide, rest, later, h)
            } else {
                let h1 = *h->Expr_0.left;
                let h2 = *h->Expr_0.right;
                assert(h == conjunction(h1, h2));
                assert(part_of(h1, f) && part_of(h2, l->0));
                assert(part_of(h1, h1) && part_of(h2, h2));
                assert(part_of(h1, h) && part_of(h2, h));
                part_is_comparable(h1, h, start);
                part_is_comparable(h2, h, start);
                filter_absorbs_part(f, h1, start);
                let mid = h1.kept_series(start)->Ok_0;
                kept_series_are_well_formed(h1, start);
                left_is_comparable(h2, h1, start);
                comparable_filters_succeed(h2, mid);
                merged_filters_agree(h1, h2, start);
                filters_commute(f, h2, mid);
                left_is_comparable(h2, f, start);
                parts_can_be_applied_first(to_double, plus, divide, rest, later, h2)
            }
        },
        TableOp::Basic(BasicTableOp::GroupBy(g)) => {
            let l = coalesced(rest)->0;
            let filter = restricted(l, g.identifiers@)->0;
            part_of_is_transitive(h, filter, l);
            part_of_names(h, filter, g.identifiers@);
            assert(empties_none(h, start));
            grouping_step_commutes(to_double, plus, divide, ops[0], start, states[1], h);
            parts_can_be_applied_first(to_double, plus, divide, rest, later, h)
        },
        _ => later,
    };
    let pushed = seq![first] + tail;
    assert(pushed.drop_first() =~= tail);
    assert(pushed[1] == tail[0]);
    pushed
}

/// The predicates of a query can be applied to what the query gets: the operations make of what is
/// left then what they make of it all. This holds for any filters and groupings, one after the other,
/// whatever it is to add and to divide, where no comparison of the predicates fails on what the query
/// gets, and each grouping lets pass what can be applied before it.
pub proof fn predicates_can_be_applied_first<
    C: Fn(i64) -> Double,
    A: Fn(Double, Double) -> Double,
    D: Fn(Double, u64) -> Double,
>(
    to_double: C,
    plus: A,
    divide: D,
    ops: Seq<TableOp>,
    states: Seq<Seq<TimeseriesView>>,
) -> (pushed: Seq<Seq<TimeseriesView>>)
    requires
        is_run(to_double, plus, divide, ops, states),
        way_is_clear(ops, states),
        coalesced(ops) matches Some(filter) && comparable(filter, states[0]),
    ensures
        coalesced(ops)->0.kept_series(states[0]) == Ok::<Seq<TimeseriesView>, Error>(pushed[0]),
        is_run(to_double, plus, divide, ops, pushed),
        pushed.last() == states.last(),
{
    let filter = coalesced(ops)->0;
    assert(part_of(filter, filter));
    parts_can_be_applied_first(to_double, plus, divide, ops, states, filter)
}

/// The same operations make the same of the same timeseries, where converting, adding and dividing the
/// same always gives the same.
pub proof fn runs_are_unique<
    C: Fn(i64) -> Double,
    A: Fn(Double, Double) -> Double,
    D: Fn(Double, u64) -> Double,
>(
    to_double: C,
    plus: A,
    divide: D,
    ops: Seq<TableOp>,
    a: Seq<Seq<TimeseriesView>>,
    b: Seq<Seq<TimeseriesView>>,
)
    requires
        deterministic(to_double, plus),
        divides_alike(divide),
        is_run(to_double, plus, divide, ops, a),
        is_run(to_double, plus, divide, ops, b),
        a[0] == b[0],
    ensures
        a == b,
    decreases ops.len(),
{
    if ops.len() > 0 {
        match ops[0] {
            TableOp::Basic(BasicTableOp::GroupBy(g)) => {
                let groups = grouped(a[0], g.identifiers@)->Ok_0;
                assert forall|k: int| 0 <= k < groups.len() implies a[1][k] == b[1][k] by {
                    reduction_is_unique(
                        to_double,
                        plus,
                        divide,
                        g.reducer,
                        groups[k],
                        a[1][k],
                        b[1][k],
                    );
                }
                assert(a[1] =~= b[1]);
            },
            _ => {},
        }
        let later = a.drop_first();
        runs_are_unique(to_double, plus, divide, ops.drop_first(), later, b.drop_first());
        assert(a =~= seq![a[0]] + later);
        assert(b =~= seq![a[0]] + later);
    } else {
        assert(a =~= b);
    }
}

/// Applying the predicates of a query first leaves the result of the query as it is, where
/// converting, adding and dividing the same always gives the same: whatever the operations make of
/// what the predicates leave is what they make of it all.
pub proof fn applying_predicates_first_leaves_the_result<
    C: Fn(i64) -> Double,
    A: Fn(Double, Double) -> Double,
    D: Fn(Double, u64) -> Double,
>(
    to_double: C,
    plus: A,
    divide: D,
    ops: Seq<TableOp>,
    states: Seq<Seq<TimeseriesView>>,
    pushed: Seq<Seq<TimeseriesView>>,
)
    requires
        deterministic(to_double, plus),
        divides_alike(divide),
        is_run(to_double, plus, divide, ops, states),
        way_is_clear(ops, states),
        coalesced(ops) matches Some(filter) && comparable(filter, states[0]) && filter.kept_series(
            states[0],
        ) == Ok::<Seq<TimeseriesView>, Error>(pushed[0]),
        is_run(to_double, plus, divide, ops, pushed),
    ensures
        pushed.last() == states.last(),
{
    let other = predicates_can_be_applied_first(to_double, plus, divide, ops, states);
    runs_are_unique(to_double, plus, divide, ops, pushed, other);
}

} // verus!
