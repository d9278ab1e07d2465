//! What joining does with the columns of timeseries.

use vstd::prelude::*;

use crate::oxql::join::{
    filtered_are_among, in_later_tables, joined_series, joined_tables, key_position, stacked_tables,
};
use crate::oxql::point::{PointsView, ValuesView};
use crate::oxql::table::{
    distinct_keys, has_key, same_fields, Field, TableView, TimeseriesView,
};
use crate::oxql::Error;

verus! {

/// The columns of all these timeseries that have the key, in their order.
pub open spec fn columns_in(series: Seq<TimeseriesView>, fields: Seq<Field>) -> Seq<ValuesView>
    decreases series.len(),
{
    if series.len() == 0 {
        Seq::empty()
    } else if same_fields(series.last().fields, fields) {
        columns_in(series.drop_last(), fields) + series.last().points.values
    } else {
        columns_in(series.drop_last(), fields)
    }
}

/// The columns in the first `n` tables, from the first to the last, of the timeseries with the key.
pub open spec fn columns_in_tables(tables: Seq<TableView>, n: nat, fields: Seq<Field>) -> Seq<
    ValuesView,
>
    decreases n,
{
    if n == 0 {
        Seq::empty()
    } else {
        columns_in_tables(tables, (n - 1) as nat, fields) + columns_in(
            tables[n - 1].timeseries,
            fields,
        )
    }
}

/// The names, with commas between them.
pub open spec fn listed_names(tables: Seq<TableView>, n: nat) -> Seq<char>
    decreases n,
{
    if n <= 1 {
        tables[0].name
    } else {
        listed_names(tables, (n - 1) as nat) + ","@ + tables[n - 1].name
    }
}

/// The timeseries has the fields and the times of another.
pub open spec fn at_the_times_of(t: TimeseriesView, other: TimeseriesView) -> bool {
    &&& t.fields == other.fields
    &&& t.points.timestamps == other.points.timestamps
    &&& t.points.start_times == other.points.start_times
}

proof fn first_position(series: Seq<TimeseriesView>, fields: Seq<Field>, from: int)
    requires
        0 <= from,
    ensures
        match key_position(series, fields, from) {
            Some(k) => from <= k < series.len() && same_fields(series[k].fields, fields),
            None => forall|k: int|
                from <= k < series.len() ==> !same_fields((#[trigger] series[k]).fields, fields),
        },
    decreases series.len() - from,
{
    if from < series.len() && !same_fields(series[from].fields, fields) {
        first_position(series, fields, from + 1);
    }
}

proof fn same_keys(a: Seq<Field>, b: Seq<Field>, c: Seq<Field>)
    ensures
        same_fields(a, b) <==> same_fields(b, a),
        same_fields(a, b) && same_fields(b, c) ==> same_fields(a, c),
        same_fields(a, a),
{
    reveal(same_fields);
}

proof fn series_are_joined_by_key(
    out: Seq<TimeseriesView>,
    next: Seq<TimeseriesView>,
    table: usize,
    n: nat,
)
    requires
        distinct_keys(out),
        n <= next.len(),
    ensures
        joined_series(out, next, table, n) matches Ok(r) ==> r.len() == out.len() && forall|k: int|
            0 <= k < out.len() ==> at_the_times_of(#[trigger] r[k], out[k])
                && r[k].points.values == out[k].points.values + columns_in(
                next.take(n as int),
                out[k].fields,
            ),
    decreases n,
{
    if n > 0 {
        let m = (n - 1) as nat;
        series_are_joined_by_key(out, next, table, m);
        assert(next.take(n as int).drop_last() =~= next.take(m as int));
        match joined_series(out, next, table, m) {
            Ok(rest) => {
                let key = next[n - 1].fields;
                first_position(rest, key, 0);
                match key_position(rest, key, 0) {
                    Some(p) => {
                        let r = joined_series(out, next, table, n)->Ok_0;
                        assert forall|k: int| 0 <= k < out.len() implies at_the_times_of(
                            #[trigger] r[k],
                            out[k],
                        ) && r[k].points.values == out[k].points.values + columns_in(
                            next.take(n as int),
                            out[k].fields,
                        ) by {
                            let more = columns_in(next.take(m as int), out[k].fields);
                            assert(at_the_times_of(rest[k], out[k]));
                            assert(at_the_times_of(rest[p], out[p]));
                            same_keys(out[p].fields, key, out[k].fields);
                            same_keys(key, out[k].fields, key);
                            if k == p {
                                assert(r[k].points.values == rest[k].points.values
                                    + next[n - 1].points.values);
                                assert((out[k].points.values + more) + next[n - 1].points.values
                                    =~= out[k].points.values + (more + next[n - 1].points.values));
                            } else {
                                same_keys(out[k].fields, key, out[p].fields);
                                if k < p {
                                    assert(!same_fields(out[k].fields, out[p].fields));
                                } else {
                                    assert(!same_fields(out[p].fields, out[k].fields));
                                }
                                assert(!same_fields(key, out[k].fields));
                                assert(r[k] == rest[k]);
                            }
                        }
                    },
                    None => {},
                }
            },
            Err(_) => {},
        }
    } else {
        assert forall|k: int| 0 <= k < out.len() implies out[k].points.values
            == #[trigger] out[k].points.values + columns_in(next.take(0), out[k].fields) by {
            assert(out[k].points.values + Seq::<ValuesView>::empty() =~= out[k].points.values);
        }
    }
}

proof fn tables_are_stacked_by_key(tables: Seq<TableView>, n: nat)
    requires
        1 <= n <= tables.len(),
        distinct_keys(tables[0].timeseries),
    ensures
        stacked_tables(tables, n) matches Ok(t) ==> t.name == listed_names(tables, n)
            && t.timeseries.len() == tables[0].timeseries.len() && distinct_keys(t.timeseries)
            && forall|k: int|
            0 <= k < t.timeseries.len() ==> at_the_times_of(
                #[trigger] t.timeseries[k],
                tables[0].timeseries[k],
            ) && t.timeseries[k].points.values == tables[0].timeseries[k].points.values
                + columns_in_tables(
                tables.skip(1),
                (n - 1) as nat,
                tables[0].timeseries[k].fields,
            ),
    decreases n,
{
    let first = tables[0].timeseries;
    if n == 1 {
        assert forall|k: int| 0 <= k < first.len() implies first[k].points.values
            == #[trigger] first[k].points.values + columns_in_tables(
            tables.skip(1),
            0,
            first[k].fields,
        ) by {
            assert(first[k].points.values + Seq::<ValuesView>::empty() =~= first[k].points.values);
        }
    } else {
        let m = (n - 1) as nat;
        tables_are_stacked_by_key(tables, m);
        match stacked_tables(tables, m) {
            Ok(before) => {
                let next = tables[n - 1].timeseries;
                series_are_joined_by_key(before.timeseries, next, m as usize, next.len());
                assert(next.take(next.len() as int) =~= next);
                match stacked_tables(tables, n) {
                    Ok(t) => {
                        assert(tables.skip(1)[m - 1] == tables[n - 1]);
                        assert forall|k: int| 0 <= k < t.timeseries.len() implies at_the_times_of(
                            #[trigger] t.timeseries[k],
                            first[k],
                        ) && t.timeseries[k].points.values == first[k].points.values
                            + columns_in_tables(tables.skip(1), m, first[k].fields) by {
                            let a = first[k].points.values;
                            let b = columns_in_tables(
                                tables.skip(1),
                                (m - 1) as nat,
                                first[k].fields,
                            );
                            let c = columns_in(next, first[k].fields);
                            assert(at_the_times_of(t.timeseries[k], before.timeseries[k]));
                            assert(at_the_times_of(before.timeseries[k], first[k]));
                            assert((a + b) + c =~= a + (b + c));
                        }
                        assert forall|i: int, j: int|
                            0 <= i < j < t.timeseries.len() implies !same_fields(
                            #[trigger] t.timeseries[i].fields,
                            #[trigger] t.timeseries[j].fields,
                        ) by {
                            assert(at_the_times_of(t.timeseries[i], first[i]));
                            assert(at_the_times_of(t.timeseries[j], first[j]));
                        }
                    },
                    Err(_) => {},
                }
            },
            Err(_) => {},
        }
    }
}

/// A timeseries of joined tables has the fields and the times of the one in the first table with its
/// key, and the columns of that one followed by those of the timeseries with the same key in the
/// other tables, table by table. The name lists the names of all tables. The timeseries come in
/// the order of the first table, and only those whose keys the other tables have.
pub proof fn joined_timeseries_have_the_columns_of_all_tables(tables: Seq<TableView>)
    requires
        tables.len() > 1,
        distinct_keys(tables[0].timeseries),
    ensures
        joined_tables(tables) matches Ok(out) ==> {
            &&& out.name == listed_names(tables, tables.len())
            &&& forall|t: TimeseriesView|
                out.timeseries.contains(t) <==> exists|k: int|
                    0 <= k < tables[0].timeseries.len() && #[trigger] at_the_times_of(
                        t,
                        tables[0].timeseries[k],
                    ) && t.points.values == tables[0].timeseries[k].points.values
                        + columns_in_tables(
                        tables.skip(1),
                        (tables.len() - 1) as nat,
                        t.fields,
                    ) && forall|i: int|
                        1 <= i < tables.len() ==> has_key(
                            (#[trigger] tables[i]).timeseries,
                            t.fields,
                        )
        },
{
    tables_are_stacked_by_key(tables, tables.len());
    match stacked_tables(tables, tables.len()) {
        Ok(all) => {
            let common = |t: TimeseriesView| in_later_tables(t.fields, tables);
            let out = all.timeseries.filter(common);
            let first = tables[0].timeseries;
            let n = (tables.len() - 1) as nat;
            filtered_are_among(all.timeseries, common);
            assert forall|t: TimeseriesView|
                out.contains(t) <==> exists|k: int|
                    0 <= k < first.len() && #[trigger] at_the_times_of(t, first[k])
                        && t.points.values == first[k].points.values + columns_in_tables(
                        tables.skip(1),
                        n,
                        t.fields,
                    ) && forall|i: int|
                        1 <= i < tables.len() ==> has_key(
                            (#[trigger] tables[i]).timeseries,
                            t.fields,
                        ) by {
                if out.contains(t) {
                    assert(all.timeseries.contains(t) && common(t));
                    let k = choose|k: int|
                        0 <= k < all.timeseries.len() && all.timeseries[k] == t;
                    assert(at_the_times_of(all.timeseries[k], first[k]));
                    assert(at_the_times_of(t, first[k]));
                }
                if exists|k: int|
                    0 <= k < first.len() && #[trigger] at_the_times_of(t, first[k])
                        && t.points.values == first[k].points.values + columns_in_tables(
                        tables.skip(1),
                        n,
                        t.fields,
                    ) && forall|i: int|
                        1 <= i < tables.len() ==> has_key(
                            (#[trigger] tables[i]).timeseries,
                            t.fields,
                        ) {
                    let k = choose|k: int|
                        0 <= k < first.len() && #[trigger] at_the_times_of(t, first[k])
                            && t.points.values == first[k].points.values + columns_in_tables(
                            tables.skip(1),
                            n,
                            t.fields,
                        ) && forall|i: int|
                            1 <= i < tables.len() ==> has_key(
                                (#[trigger] tables[i]).timeseries,
                                t.fields,
                            );
                    let u = all.timeseries[k];
                    assert(at_the_times_of(u, first[k]));
                    assert(u =~= t);
                    assert(all.timeseries.contains(t));
                }
            }
        },
        Err(_) => {},
    }
}

/// The columns of two tables with distinct keys are put side by side: those of the first table, and
/// then those of the timeseries with the same key in the second.
pub proof fn two_tables_are_put_side_by_side(a: TableView, b: TableView, i: int, j: int)
    requires
        distinct_keys(a.timeseries),
        distinct_keys(b.timeseries),
        joined_tables(seq![a, b]) is Ok,
        0 <= i < a.timeseries.len(),
        0 <= j < b.timeseries.len(),
        same_fields(a.timeseries[i].fields, b.timeseries[j].fields),
    ensures
        joined_tables(seq![a, b])->Ok_0.name == a.name + ","@ + b.name,
        joined_tables(seq![a, b])->Ok_0.timeseries.contains(
            (TimeseriesView {
                fields: a.timeseries[i].fields,
                points: PointsView {
                    start_times: a.timeseries[i].points.start_times,
                    timestamps: a.timeseries[i].points.timestamps,
                    values: a.timeseries[i].points.values + b.timeseries[j].points.values,
                },
            }),
        ),
{
    let tables = seq![a, b];
    let x = a.timeseries[i];
    let y = b.timeseries[j];
    joined_timeseries_have_the_columns_of_all_tables(tables);
    reveal_with_fuel(columns_in_tables, 2);
    reveal_with_fuel(listed_names, 2);
    assert(tables.skip(1)[0] == b);
    columns_of_one(b.timeseries, x.fields, j);
    let t = TimeseriesView {
        fields: x.fields,
        points: PointsView {
            values: x.points.values + y.points.values,
            ..x.points
        },
    };
    let more = columns_in_tables(tables.skip(1), 1, x.fields);
    assert(more =~= y.points.values);
    assert(at_the_times_of(t, tables[0].timeseries[i]));
    assert forall|k: int| 1 <= k < tables.len() implies has_key(
        (#[trigger] tables[k]).timeseries,
        t.fields,
    ) by {
        same_keys(y.fields, x.fields, y.fields);
        assert(same_fields(b.timeseries[j].fields, x.fields));
    }
    assert(joined_tables(tables)->Ok_0.timeseries.contains(t));
}

proof fn columns_of_one(series: Seq<TimeseriesView>, fields: Seq<Field>, j: int)
    requires
        distinct_keys(series),
        0 <= j < series.len(),
        same_fields(fields, series[j].fields),
    ensures
        columns_in(series, fields) == series[j].points.values,
    decreases series.len(),
{
    let rest = series.drop_last();
    let last = series.last();
    same_keys(fields, series[j].fields, fields);
    same_keys(last.fields, fields, series[j].fields);
    same_keys(series[j].fields, last.fields, fields);
    if j < rest.len() {
        assert(distinct_keys(rest)) by {
            assert forall|p: int, q: int| 0 <= p < q < rest.len() implies !same_fields(
                #[trigger] rest[p].fields,
                #[trigger] rest[q].fields,
            ) by {
                assert(rest[p] == series[p] && rest[q] == series[q]);
            }
        }
        assert(rest[j] == series[j]);
        assert(!same_fields(series[j].fields, series[series.len() - 1].fields));
        columns_of_one(rest, fields, j);
    } else {
        columns_of_none(rest, fields, series, j);
        assert(columns_in(rest, fields) + last.points.values =~= last.points.values);
    }
}

proof fn columns_of_none(
    rest: Seq<TimeseriesView>,
    fields: Seq<Field>,
    series: Seq<TimeseriesView>,
    j: int,
)
    requires
        distinct_keys(series),
        rest.len() <= j < series.len(),
        forall|p: int| 0 <= p < rest.len() ==> #[trigger] rest[p] == series[p],
        same_fields(fields, series[j].fields),
    ensures
        columns_in(rest, fields) == Seq::<ValuesView>::empty(),
    decreases rest.len(),
{
    if rest.len() > 0 {
        let p = rest.len() - 1;
        assert(rest[p] == series[p]);
        assert(!same_fields(series[p].fields, series[j].fields));
        same_keys(series[p].fields, fields, series[j].fields);
        columns_of_none(rest.drop_last(), fields, series, j);
    }
}

/// All keys of the first `n` timeseries are those of some timeseries of the table.
pub open spec fn keys_known(table: TableView, series: Seq<TimeseriesView>, n: int) -> bool {
    forall|j: int| 0 <= j < n ==> has_key(table.timeseries, (#[trigger] series[j]).fields)
}

/// Joining fails only for a key that the first table lacks, and names the table and the timeseries
/// that have it: the first of them. It succeeds where the first table has all keys.
pub proof fn joining_fails_for_the_first_missing_key(tables: Seq<TableView>)
    requires
        1 < tables.len() <= usize::MAX,
        forall|i: int|
            0 <= i < tables.len() ==> (#[trigger] tables[i]).timeseries.len() <= usize::MAX,
    ensures
        match joined_tables(tables) {
            Ok(_) => forall|i: int|
                1 <= i < tables.len() ==> keys_known(
                    tables[0],
                    (#[trigger] tables[i]).timeseries,
                    tables[i].timeseries.len() as int,
                ),
            Err(Error::JoinKey { table, timeseries }) => {
                &&& 1 <= table < tables.len()
                &&& timeseries < tables[table as int].timeseries.len()
                &&& !has_key(
                    tables[0].timeseries,
                    tables[table as int].timeseries[timeseries as int].fields,
                )
                &&& keys_known(tables[0], tables[table as int].timeseries, timeseries as int)
                &&& forall|i: int|
                    1 <= i < table ==> keys_known(
                        tables[0],
                        (#[trigger] tables[i]).timeseries,
                        tables[i].timeseries.len() as int,
                    )
            },
            Err(_) => false,
        },
{
    stacking_fails_for_the_first_missing_key(tables, tables.len());
}

proof fn stacking_fails_for_the_first_missing_key(tables: Seq<TableView>, n: nat)
    requires
        1 <= n <= tables.len() <= usize::MAX,
        forall|i: int|
            0 <= i < tables.len() ==> (#[trigger] tables[i]).timeseries.len() <= usize::MAX,
    ensures
        match stacked_tables(tables, n) {
            Ok(t) => {
                &&& t.timeseries.len() == tables[0].timeseries.len()
                &&& forall|k: int|
                    0 <= k < t.timeseries.len() ==> (#[trigger] t.timeseries[k]).fields
                        == tables[0].timeseries[k].fields
                &&& forall|i: int|
                    1 <= i < n ==> keys_known(
                        tables[0],
                        (#[trigger] tables[i]).timeseries,
                        tables[i].timeseries.len() as int,
                    )
            },
            Err(Error::JoinKey { table, timeseries }) => {
                &&& 1 <= table < n
                &&& timeseries < tables[table as int].timeseries.len()
                &&& !has_key(
                    tables[0].timeseries,
                    tables[table as int].timeseries[timeseries as int].fields,
                )
                &&& keys_known(tables[0], tables[table as int].timeseries, timeseries as int)
                &&& forall|i: int|
                    1 <= i < table ==> keys_known(
                        tables[0],
                        (#[trigger] tables[i]).timeseries,
                        tables[i].timeseries.len() as int,
                    )
            },
            Err(_) => false,
        },
    decreases n,
{
    if n > 1 {
        let m = (n - 1) as nat;
        stacking_fails_for_the_first_missing_key(tables, m);
        match stacked_tables(tables, m) {
            Ok(out) => {
                let next = tables[n - 1].timeseries;
                series_fail_for_the_first_missing_key(
                    tables[0],
                    out.timeseries,
                    next,
                    m as usize,
                    next.len(),
                );
            },
            Err(_) => {},
        }
    }
}

proof fn series_fail_for_the_first_missing_key(
    first: TableView,
    out: Seq<TimeseriesView>,
    next: Seq<TimeseriesView>,
    table: usize,
    n: nat,
)
    requires
        n <= next.len() <= usize::MAX,
        out.len() == first.timeseries.len(),
        forall|k: int|
            0 <= k < out.len() ==> (#[trigger] out[k]).fields == first.timeseries[k].fields,
    ensures
        match joined_series(out, next, table, n) {
            Ok(r) => {
                &&& r.len() == out.len()
                &&& forall|k: int|
                    0 <= k < r.len() ==> (#[trigger] r[k]).fields == first.timeseries[k].fields
                &&& keys_known(first, next, n as int)
            },
            Err(Error::JoinKey { table: i, timeseries }) => {
                &&& i == table
                &&& timeseries < n
                &&& !has_key(first.timeseries, next[timeseries as int].fields)
                &&& keys_known(first, next, timeseries as int)
            },
            Err(_) => false,
        },
    decreases n,
{
    if n > 0 {
        let m = (n - 1) as nat;
        series_fail_for_the_first_missing_key(first, out, next, table, m);
        match joined_series(out, next, table, m) {
            Ok(rest) => {
                let key = next[n - 1].fields;
                first_position(rest, key, 0);
                match key_position(rest, key, 0) {
                    Some(p) => {
                        assert(rest[p].fields == first.timeseries[p].fields);
                        assert(same_fields(first.timeseries[p].fields, key));
                        assert(has_key(first.timeseries, key));
                    },
                    None => {
                        assert forall|k: int| 0 <= k < first.timeseries.len() implies !same_fields(
                            #[trigger] first.timeseries[k].fields,
                            key,
                        ) by {
                            assert(rest[k].fields == first.timeseries[k].fields);
                        }
                    },
                }
            },
            Err(_) => {},
        }
    }
}

} // verus!
