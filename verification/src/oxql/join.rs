//! The `join` table operation.

use vstd::prelude::*;

use crate::oxql::point::{PointsView, Values, ValuesView};
use crate::oxql::table::{
    fields_equal, has_key, same_fields, Field, Table, TableView, Timeseries, TimeseriesView,
};
use crate::oxql::Error;

verus! {

/// A natural inner join: timeseries are joined by their keys. A key that a table after the first lacks
/// is left out; a key that only the first table lacks is an error.
#[derive(Debug, Clone, Copy, PartialEq, Eq, Structural)]
pub struct Join;

/// The place of the first timeseries with the key, among those at `from` and after.
pub open spec fn key_position(series: Seq<TimeseriesView>, fields: Seq<Field>, from: int) -> Option<
    int,
>
    decreases series.len() - from,
{
    if from < 0 || from >= series.len() {
        None
    } else if same_fields(series[from].fields, fields) {
        Some(from)
    } else {
        key_position(series, fields, from + 1)
    }
}

/// The timeseries with more columns beside its own.
pub open spec fn stacked(series: TimeseriesView, more: Seq<ValuesView>) -> TimeseriesView {
    TimeseriesView {
        fields: series.fields,
        points: PointsView { values: series.points.values + more, ..series.points },
    }
}

/// The first `n` timeseries of `next`, each stacked onto the one with its key; an error at the
/// first that has no counterpart.
pub open spec fn joined_series(
    out: Seq<TimeseriesView>,
    next: Seq<TimeseriesView>,
    table: usize,
    n: nat,
) -> Result<Seq<TimeseriesView>, Error>
    decreases n,
{
    if n == 0 {
        Ok(out)
    } else {
        match joined_series(out, next, table, (n - 1) as nat) {
            Ok(rest) => match key_position(rest, next[n - 1].fields, 0) {
                Some(k) => Ok(rest.update(k, stacked(rest[k], next[n - 1].points.values))),
                None => Err(Error::JoinKey { table, timeseries: (n - 1) as usize }),
            },
            Err(e) => Err(e),
        }
    }
}

/// The first `n` tables, each stacked onto the first. The name lists the names of the tables.
pub open spec fn stacked_tables(tables: Seq<TableView>, n: nat) -> Result<TableView, Error>
    decreases n,
{
    if n <= 1 {
        Ok(tables[0])
    } else {
        match stacked_tables(tables, (n - 1) as nat) {
            Ok(out) => {
                let next = tables[n - 1];
                match joined_series(
                    out.timeseries,
                    next.timeseries,
                    (n - 1) as usize,
                    next.timeseries.len(),
                ) {
                    Ok(timeseries) => Ok(
                        TableView { name: out.name + ","@ + next.name, timeseries },
                    ),
                    Err(e) => Err(e),
                }
            },
            Err(e) => Err(e),
        }
    }
}

/// The key occurs in every table after the first.
pub open spec fn in_later_tables(fields: Seq<Field>, tables: Seq<TableView>) -> bool {
    forall|i: int| 1 <= i < tables.len() ==> has_key((#[trigger] tables[i]).timeseries, fields)
}

/// The tables, joined: those of the stacked timeseries whose keys occur in every table.
pub open spec fn joined_tables(tables: Seq<TableView>) -> Result<TableView, Error> {
    match stacked_tables(tables, tables.len()) {
        Ok(out) => Ok(
            TableView {
                name: out.name,
                timeseries: out.timeseries.filter(
                    |t: TimeseriesView| in_later_tables(t.fields, tables),
                ),
            },
        ),
        Err(e) => Err(e),
    }
}

/// What the tables hold.
pub open spec fn views(tables: Seq<Table>) -> Seq<TableView> {
    tables.map_values(|t: Table| t@)
}

fn find_key(series: &Vec<Timeseries>, fields: &Vec<Field>) -> (r: Option<usize>)
    ensures
        match r {
            Some(k) => k < series@.len() && key_position(
                series@.map_values(|t: Timeseries| t@),
                fields@,
                0,
            ) == Some(k as int),
            None => key_position(series@.map_values(|t: Timeseries| t@), fields@, 0) is None,
        },
{
    let ghost views = series@.map_values(|t: Timeseries| t@);
    let mut i: usize = 0;
    while i < series.len()
        invariant
            i <= series@.len(),
            views == series@.map_values(|t: Timeseries| t@),
            key_position(views, fields@, i as int) == key_position(views, fields@, 0),
        decreases series@.len() - i,
    {
        assert(views[i as int] == series@[i as int]@);
        if fields_equal(&series[i].fields, fields) {
            return Some(i);
        }
        i = i + 1;
    }
    None
}

/// Copies the columns behind others.
fn stack(values: &mut Vec<Values>, more: &Vec<Values>)
    ensures
        final(values)@.map_values(|v: Values| v@) == old(values)@.map_values(|v: Values| v@)
            + more@.map_values(|v: Values| v@),
{
    let ghost before = values@.map_values(|v: Values| v@);
    let ghost extra = more@.map_values(|v: Values| v@);
    let mut i: usize = 0;
    while i < more.len()
        invariant
            i <= more@.len(),
            before == old(values)@.map_values(|v: Values| v@),
            extra == more@.map_values(|v: Values| v@),
            values@.map_values(|v: Values| v@) =~= before + extra.take(i as int),
        decreases more@.len() - i,
    {
        let ghost now = values@;
        let v = Values { values: more[i].values.duplicate(), metric_type: more[i].metric_type };
        values.push(v);
        proof {
            assert(values@.map_values(|v: Values| v@) =~= now.map_values(|v: Values| v@).push(v@));
        }
        i = i + 1;
    }
    assert(extra.take(more@.len() as int) =~= extra);
}

proof fn join_error_stands(
    out: Seq<TimeseriesView>,
    next: Seq<TimeseriesView>,
    table: usize,
    n: nat,
    m: nat,
)
    requires
        n <= m,
        joined_series(out, next, table, n) is Err,
    ensures
        joined_series(out, next, table, m) == joined_series(out, next, table, n),
    decreases m - n,
{
    if n < m {
        join_error_stands(out, next, table, n, (m - 1) as nat);
    }
}

proof fn stacking_error_stands(tables: Seq<TableView>, n: nat, m: nat)
    requires
        n <= m,
        stacked_tables(tables, n) is Err,
    ensures
        stacked_tables(tables, m) == stacked_tables(tables, n),
    decreases m - n,
{
    if n < m {
        stacking_error_stands(tables, n, (m - 1) as nat);
    }
}

/// Joins one more table onto the joined ones.
fn join_next(out: &mut Table, next: &Table, table: usize) -> (r: Result<(), Error>)
    ensures
        match r {
            Ok(_) => final(out)@.name == old(out)@.name + ","@ + next@.name && joined_series(
                old(out)@.timeseries,
                next@.timeseries,
                table,
                next@.timeseries.len(),
            ) == Ok::<Seq<TimeseriesView>, Error>(final(out)@.timeseries),
            Err(e) => joined_series(
                old(out)@.timeseries,
                next@.timeseries,
                table,
                next@.timeseries.len(),
            ) == Err::<Seq<TimeseriesView>, Error>(e),
        },
{
    let ghost before = out@.timeseries;
    let mut i: usize = 0;
    while i < next.timeseries.len()
        invariant
            i <= next.timeseries@.len(),
            before == old(out)@.timeseries,
            out@.name == old(out)@.name,
            joined_series(before, next@.timeseries, table, i as nat) == Ok::<
                Seq<TimeseriesView>,
                Error,
            >(out@.timeseries),
        decreases next.timeseries@.len() - i,
    {
        let t = &next.timeseries[i];
        assert(next@.timeseries[i as int] == t@);
        match find_key(&out.timeseries, &t.fields) {
            Some(k) => {
                let ghost now = out.timeseries@;
                let mut joined = out.timeseries.remove(k);
                let ghost old_joined = joined@;
                stack(&mut joined.points.values, &t.points.values);
                proof {
                    assert(joined@ =~= stacked(old_joined, t@.points.values));
                }
                out.timeseries.insert(k, joined);
                proof {
                    assert(out.timeseries@ =~= now.update(k as int, joined));
                    assert(out@.timeseries =~= now.map_values(|t: Timeseries| t@).update(
                        k as int,
                        joined@,
                    ));
                }
            },
            None => {
                proof {
                    join_error_stands(
                        before,
                        next@.timeseries,
                        table,
                        (i + 1) as nat,
                        next@.timeseries.len(),
                    );
                }
                return Err(Error::JoinKey { table, timeseries: i });
            },
        }
        i = i + 1;
    }
    out.name.append(",");
    out.name.append(next.name());
    Ok(())
}

/// Whether the key occurs in every table after the first.
fn is_in_later_tables(fields: &Vec<Field>, tables: &Vec<Table>) -> (yes: bool)
    ensures
        yes == in_later_tables(fields@, views(tables@)),
{
    let mut i: usize = 1;
    while i < tables.len()
        invariant
            1 <= i,
            forall|k: int|
                1 <= k < i && k < tables@.len() ==> has_key(
                    (#[trigger] views(tables@)[k]).timeseries,
                    fields@,
                ),
        decreases tables@.len() - i,
    {
        assert(views(tables@)[i as int] == tables@[i as int]@);
        proof {
            position_is_first(views(tables@)[i as int].timeseries, fields@, 0);
        }
        if find_key(&tables[i].timeseries, fields).is_none() {
            assert(!has_key(views(tables@)[i as int].timeseries, fields@));
            return false;
        }
        i = i + 1;
    }
    true
}

/// Keeps the timeseries whose keys occur in every table.
fn keep_common(stacked: &Vec<Timeseries>, tables: &Vec<Table>) -> (kept: Vec<Timeseries>)
    ensures
        kept@.map_values(|t: Timeseries| t@) == stacked@.map_values(|t: Timeseries| t@).filter(
            |t: TimeseriesView| in_later_tables(t.fields, views(tables@)),
        ),
{
    let ghost all = stacked@.map_values(|t: Timeseries| t@);
    let ghost common = |t: TimeseriesView| in_later_tables(t.fields, views(tables@));
    let mut kept: Vec<Timeseries> = Vec::new();
    let mut i: usize = 0;
    proof {
        reveal(Seq::filter);
        assert(all.take(0).filter(common) =~= Seq::empty());
        assert(kept@.map_values(|t: Timeseries| t@) =~= Seq::empty());
    }
    while i < stacked.len()
        invariant
            i <= stacked@.len() == all.len(),
            all == stacked@.map_values(|t: Timeseries| t@),
            common == (|t: TimeseriesView| in_later_tables(t.fields, views(tables@))),
            kept@.map_values(|t: Timeseries| t@) == all.take(i as int).filter(common),
        decreases stacked@.len() - i,
    {
        let t = &stacked[i];
        proof {
            reveal(Seq::filter);
            assert(all.take(i + 1).drop_last() =~= all.take(i as int));
            assert(all.take(i + 1).last() == t@);
        }
        if is_in_later_tables(&t.fields, tables) {
            let ghost before = kept@;
            let copy = t.duplicate();
            kept.push(copy);
            assert(kept@.map_values(|t: Timeseries| t@) =~= before.map_values(
                |t: Timeseries| t@,
            ).push(t@));
        }
        i = i + 1;
    }
    assert(all.take(i as int) =~= all);
    kept
}

proof fn position_is_first(series: Seq<TimeseriesView>, fields: Seq<Field>, from: int)
    requires
        0 <= from,
    ensures
        match key_position(series, fields, from) {
            Some(k) => from <= k < series.len() && same_fields(series[k].fields, fields),
            None => forall|k: int|
                from <= k < series.len() ==> !same_fields((#[trigger] series[k]).fields, fields),
        },
    decreases series.len() - from,
{
    if from < series.len() && !same_fields(series[from].fields, fields) {
        position_is_first(series, fields, from + 1);
    }
}

proof fn stacking_keeps_keys(
    out: Seq<TimeseriesView>,
    next: Seq<TimeseriesView>,
    table: usize,
    n: nat,
)
    ensures
        joined_series(out, next, table, n) matches Ok(r) ==> r.len() == out.len() && forall|k: int|
            0 <= k < out.len() ==> (#[trigger] r[k]).fields == out[k].fields,
    decreases n,
{
    if n > 0 {
        stacking_keeps_keys(out, next, table, (n - 1) as nat);
        match joined_series(out, next, table, (n - 1) as nat) {
            Ok(rest) => position_is_first(rest, next[n - 1].fields, 0),
            Err(_) => {},
        }
    }
}

proof fn stacked_tables_keep_keys(tables: Seq<TableView>, n: nat)
    ensures
        stacked_tables(tables, n) matches Ok(t) ==> t.timeseries.len() == tables[0].timeseries.len()
            && forall|k: int|
            0 <= k < t.timeseries.len() ==> (#[trigger] t.timeseries[k]).fields
                == tables[0].timeseries[k].fields,
    decreases n,
{
    if n > 1 {
        stacked_tables_keep_keys(tables, (n - 1) as nat);
        match stacked_tables(tables, (n - 1) as nat) {
            Ok(out) => stacking_keeps_keys(
                out.timeseries,
                tables[n - 1].timeseries,
                (n - 1) as usize,
                tables[n - 1].timeseries.len(),
            ),
            Err(_) => {},
        }
    }
}

/// What is left of timeseries are those for which a condition holds.
pub proof fn filtered_are_among(s: Seq<TimeseriesView>, pred: spec_fn(TimeseriesView) -> bool)
    ensures
        forall|t: TimeseriesView| s.filter(pred).contains(t) <==> s.contains(t) && pred(t),
    decreases s.len(),
{
    reveal(Seq::filter);
    if s.len() > 0 {
        let rest = s.drop_last();
        filtered_are_among(rest, pred);
        let f = s.filter(pred);
        assert forall|t: TimeseriesView| f.contains(t) <==> s.contains(t) && pred(t) by {
            if s.contains(t) {
                let k = s.index_of(t);
                if k < rest.len() {
                    assert(rest[k] == t);
                }
            }
            if rest.contains(t) {
                let k = rest.index_of(t);
                assert(s[k] == t);
            }
            if rest.filter(pred).contains(t) {
                let k = rest.filter(pred).index_of(t);
                assert(f[k] == t);
            }
            if pred(s.last()) {
                assert(f.last() == s.last());
                assert(f[f.len() - 1] == s.last());
                assert(s[s.len() - 1] == s.last());
            }
            if f.contains(t) {
                let k = f.index_of(t);
                if k < rest.filter(pred).len() {
                    assert(rest.filter(pred)[k] == t);
                }
            }
        }
    }
}

/// The keys of joined tables are those that occur in every table.
pub proof fn joined_keys_are_in_every_table(tables: Seq<TableView>, fields: Seq<Field>)
    requires
        tables.len() > 1,
        joined_tables(tables) is Ok,
    ensures
        has_key(joined_tables(tables)->Ok_0.timeseries, fields) <==> forall|i: int|
            0 <= i < tables.len() ==> has_key((#[trigger] tables[i]).timeseries, fields),
{
    reveal(same_fields);
    let stacked = stacked_tables(tables, tables.len())->Ok_0.timeseries;
    let common = |t: TimeseriesView| in_later_tables(t.fields, tables);
    let out = stacked.filter(common);
    stacked_tables_keep_keys(tables, tables.len());
    filtered_are_among(stacked, common);
    position_is_first(out, fields, 0);
    if has_key(out, fields) {
        let t = out[key_position(out, fields, 0)->0];
        assert(out.contains(t));
        assert(stacked.contains(t) && common(t));
        let k = stacked.index_of(t);
        assert(stacked[k].fields == t.fields);
        assert forall|i: int| 0 <= i < tables.len() implies has_key(
            (#[trigger] tables[i]).timeseries,
            fields,
        ) by {
            let series = tables[i].timeseries;
            position_is_first(series, fields, 0);
            if i == 0 {
                assert(series[k].fields == t.fields);
            } else {
                position_is_first(series, t.fields, 0);
                let j = key_position(series, t.fields, 0)->0;
                assert(same_fields(series[j].fields, fields));
            }
        }
    }
    if forall|i: int| 0 <= i < tables.len() ==> has_key((#[trigger] tables[i]).timeseries, fields) {
        let first = tables[0].timeseries;
        assert(has_key(first, fields));
        position_is_first(first, fields, 0);
        let k = key_position(first, fields, 0)->0;
        let t = stacked[k];
        assert(t.fields == first[k].fields);
        assert forall|i: int| 1 <= i < tables.len() implies has_key(
            (#[trigger] tables[i]).timeseries,
            t.fields,
        ) by {
            let series = tables[i].timeseries;
            position_is_first(series, fields, 0);
            position_is_first(series, t.fields, 0);
            let j = key_position(series, fields, 0)->0;
            assert(same_fields(series[j].fields, t.fields));
        }
        assert(common(t));
        assert(stacked.contains(t));
        assert(out.contains(t));
        let j = out.index_of(t);
        assert(same_fields(out[j].fields, fields));
    }
}

impl Join {
    /// Joins two tables or more, by stacking the columns of timeseries with the same key. Timeseries
    /// whose keys are missing from one of the tables are left out. The first table has to have all
    /// the keys that there are.
    ///
    /// The columns are stacked by the place of the points in them, whatever their timestamps.
    pub fn apply(&self, tables: &Vec<Table>) -> (r: Result<Vec<Table>, Error>)
        ensures
            tables@.len() <= 1 ==> r == Err::<Vec<Table>, Error>(Error::JoinTableCount),
            tables@.len() > 1 ==> match r {
                Ok(out) => out@.len() == 1 && joined_tables(views(tables@)) == Ok::<
                    TableView,
                    Error,
                >(out@[0]@),
                Err(e) => joined_tables(views(tables@)) == Err::<TableView, Error>(e),
            },
    {
        if tables.len() <= 1 {
            return Err(Error::JoinTableCount);
        }
        let mut out = tables[0].duplicate();
        let mut i: usize = 1;
        while i < tables.len()
            invariant
                1 <= i <= tables@.len(),
                tables@.len() > 1,
                stacked_tables(views(tables@), i as nat) == Ok::<TableView, Error>(out@),
            decreases tables@.len() - i,
        {
            let ghost before = out@;
            match join_next(&mut out, &tables[i], i) {
                Ok(_) => {},
                Err(e) => {
                    proof {
                        stacking_error_stands(views(tables@), (i + 1) as nat, tables@.len());
                    }
                    return Err(e);
                },
            }
            proof {
                assert(out@ =~= (TableView { name: out@.name, timeseries: out@.timeseries }));
            }
            i = i + 1;
        }
        out.timeseries = keep_common(&out.timeseries, tables);
        assert(joined_tables(views(tables@)) == Ok::<TableView, Error>(out@));
        let mut r: Vec<Table> = Vec::new();
        r.push(out);
        Ok(r)
    }
}

} // verus!
