//! What operations can be applied to.

use vstd::prelude::*;

use crate::oxql::filter::{Filter, FilterAtom};
use crate::oxql::group_by::GroupBy;
use crate::oxql::join::Join;
use crate::oxql::point::PointsView;
use crate::oxql::table::{same_fields, Table, TableView, TimeseriesView};
use crate::oxql::table_ops::{BasicTableOp, GroupedTableOp, TableOp};
use crate::text::seq_lt;

verus! {

/// Points are sound if and only if there are as many start times, where there are any, and as many
/// values in each column, as there are timestamps.
pub proof fn sound_points_have_a_value_for_each_time(points: PointsView)
    ensures
        points.well_formed() <==> (points.start_times is Some ==> points.start_times->0.len()
            == points.timestamps.len()) && forall|k: int|
            0 <= k < points.values.len() ==> (#[trigger] points.values[k]).values.len()
                == points.timestamps.len(),
{
}

/// A table is sound if and only if each timeseries has sound points and fields in the order of their
/// names, with no name twice, and no two timeseries have the same key.
pub proof fn sound_tables_have_distinct_keys(table: TableView)
    ensures
        table.well_formed() <==> (forall|i: int, j: int|
            0 <= i < j < table.timeseries.len() ==> !same_fields(
                #[trigger] table.timeseries[i].fields,
                #[trigger] table.timeseries[j].fields,
            )) && (forall|i: int|
            0 <= i < table.timeseries.len() ==> (
            #[trigger] table.timeseries[i]).points.well_formed()) && (forall|i: int, a: int, b: int|
            0 <= i < table.timeseries.len() && 0 <= a < b < table.timeseries[i].fields.len()
                ==> seq_lt(
                (#[trigger] table.timeseries[i].fields[a]).name@,
                (#[trigger] table.timeseries[i].fields[b]).name@,
            )),
{
    if table.well_formed() {
        assert forall|i: int, a: int, b: int|
            0 <= i < table.timeseries.len() && 0 <= a < b
                < table.timeseries[i].fields.len() implies seq_lt(
            (#[trigger] table.timeseries[i].fields[a]).name@,
            (#[trigger] table.timeseries[i].fields[b]).name@,
        ) by {
            assert(table.timeseries[i].well_formed());
        }
        assert forall|i: int| 0 <= i < table.timeseries.len() implies (
        #[trigger] table.timeseries[i]).points.well_formed() by {
            assert(table.timeseries[i].well_formed());
        }
    }
}

/// A comparison can be applied to points unless it matches a pattern against what has none: it is
/// about the timestamps and has an instant, or it is about the values and has a number or a truth
/// value like these.
pub proof fn only_strings_match_patterns(atom: FilterAtom, points: PointsView)
    ensures
        !atom.fits_points(points) <==> atom.cmp is Like && ((atom.ident.0@ == "timestamp"@
            && atom.expr is Timestamp) || (atom.ident.0@ == "datum"@ && points.values.len() == 1 && (
        (atom.expr is Integer && points.values[0].values is Integer) || (atom.expr is Double
            && points.values[0].values is Double) || (atom.expr is Boolean
            && points.values[0].values is Boolean)))),
{
    reveal_strlit("datum");
    reveal_strlit("timestamp");
    assert("datum"@.len() == 5);
}

/// No comparison of the filter matches a pattern.
pub open spec fn has_no_pattern(filter: Filter) -> bool
    decreases filter,
{
    match filter {
        Filter::Atom(atom) => atom.cmp !is Like,
        Filter::Expr(expr) => has_no_pattern(*expr.left) && has_no_pattern(*expr.right),
    }
}

/// A filter without patterns can be applied to all points.
pub proof fn filters_without_patterns_fit_all_points(filter: Filter, points: PointsView)
    requires
        has_no_pattern(filter),
    ensures
        filter.fits_points(points),
    decreases filter,
{
    match filter {
        Filter::Atom(_) => {},
        Filter::Expr(expr) => {
            filters_without_patterns_fit_all_points(*expr.left, points);
            filters_without_patterns_fit_all_points(*expr.right, points);
        },
    }
}

/// A filter without patterns can be applied to all timeseries.
pub proof fn filters_without_patterns_fit_all_timeseries(
    filter: Filter,
    series: Seq<TimeseriesView>,
)
    requires
        has_no_pattern(filter),
    ensures
        filter.fits_series(series),
    decreases series.len(),
{
    if series.len() > 0 {
        filters_without_patterns_fit_all_timeseries(filter, series.drop_last());
        filters_without_patterns_fit_all_points(filter, series.last().points);
    }
}

/// A filter can be applied to timeseries if it can be applied to the points of each of them.
pub proof fn filters_fit_what_they_fit_one_by_one(filter: Filter, series: Seq<TimeseriesView>)
    requires
        forall|i: int| 0 <= i < series.len() ==> filter.fits_points((#[trigger] series[i]).points),
    ensures
        filter.fits_series(series),
    decreases series.len(),
{
    if series.len() > 0 {
        let rest = series.drop_last();
        assert forall|i: int| 0 <= i < rest.len() implies filter.fits_points(
            (#[trigger] rest[i]).points,
        ) by {
            assert(rest[i] == series[i]);
        }
        filters_fit_what_they_fit_one_by_one(filter, rest);
        assert(filter.fits_points(series[series.len() - 1].points));
    }
}

/// An operation that gets timeseries, or holds subqueries, cannot be applied to tables. A join can
/// always be. A grouping can be unless there is one table that is not sound, and a filter unless
/// there is one table that is not sound or that the filter does not fit.
pub proof fn operations_can_be_applied(
    name: String,
    f: Filter,
    g: GroupBy,
    join: Join,
    subqueries: GroupedTableOp,
    tables: Seq<Table>,
)
    ensures
        !TableOp::Basic(BasicTableOp::Get(name)).applies_to(tables),
        !TableOp::Grouped(subqueries).applies_to(tables),
        TableOp::Basic(BasicTableOp::Join(join)).applies_to(tables),
        TableOp::Basic(BasicTableOp::GroupBy(g)).applies_to(tables) <==> tables.len() != 1
            || tables[0]@.well_formed(),
        TableOp::Basic(BasicTableOp::Filter(f)).applies_to(tables) <==> tables.len() != 1 || (
        tables[0]@.well_formed() && f.fits_series(tables[0]@.timeseries)),
{
}

} // verus!
