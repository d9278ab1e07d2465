//! Laws that hold between the table operations.

use vstd::prelude::*;

use crate::oxql::ast::{bool_order, int_order, Comparison, Double, Ident, Literal, LogicalOp};
use crate::oxql::filter::{
    combined, integer_marks, one_mark_per_point, Filter, FilterAtom, FilterExpr,
};
use crate::oxql::group_by::{
    extended, group_position, grouped, listed, number_at, selected, single, ungroupable,
    with_number, GroupView, Number,
};
use crate::oxql::join::filtered_are_among;
use crate::oxql::matching::regex_matches;
use crate::oxql::point::{
    kept, kept_lengths_agree, kept_points_are_well_formed, PointsView, ValueArrayView,
};
use crate::oxql::table::{same_fields, same_value, Field, FieldValue, TimeseriesView};
use crate::oxql::Error;
use crate::text::seq_order;
use crate::time::Timestamp;

verus! {

/// The filter that holds where both hold.
pub open spec fn conjunction(left: Filter, right: Filter) -> Filter {
    Filter::Expr(FilterExpr { left: Box::new(left), op: LogicalOp::And, right: Box::new(right) })
}

proof fn kept_of_equal_masks<T>(s: Seq<T>, a: Seq<bool>, b: Seq<bool>)
    requires
        forall|i: int| 0 <= i < s.len() ==> a[i] == b[i],
    ensures
        kept(s, a) == kept(s, b),
    decreases s.len(),
{
    if s.len() > 0 {
        kept_of_equal_masks(s.drop_last(), a, b);
    }
}

proof fn kept_commutes_with_map<T, U>(s: Seq<T>, mask: Seq<bool>, f: spec_fn(T) -> U)
    ensures
        kept(s, mask).map_values(f) == kept(s.map_values(f), mask),
    decreases s.len(),
{
    if s.len() > 0 {
        kept_commutes_with_map(s.drop_last(), mask, f);
        assert(s.map_values(f).drop_last() =~= s.drop_last().map_values(f));
        assert(kept(s, mask).map_values(f) =~= kept(s.map_values(f), mask));
    } else {
        assert(kept(s, mask).map_values(f) =~= kept(s.map_values(f), mask));
    }
}

proof fn kept_twice<T>(s: Seq<T>, first: Seq<bool>, second: Seq<bool>)
    requires
        s.len() == second.len(),
        s.len() <= first.len(),
    ensures
        kept(kept(s, first), kept(second, first)) == kept(s, combined(LogicalOp::And, second, first)),
        kept(s, first).len() == kept(second, first).len(),
    decreases s.len(),
{
    if s.len() > 0 {
        let t = s.drop_last();
        let m = second.drop_last();
        kept_twice(t, first, m);
        let both = combined(LogicalOp::And, second, first);
        kept_of_equal_masks(t, combined(LogicalOp::And, m, first), both);
        kept_of_equal_masks(kept(t, first), kept(m, first), kept(second, first));
        if first[s.len() - 1] {
            let k = kept(t, first).push(s.last());
            assert(kept(s, first) == k);
            assert(k.drop_last() =~= kept(t, first));
            assert(kept(second, first) == kept(m, first).push(second.last()));
        }
    }
}

proof fn kept_combination(op: LogicalOp, left: Seq<bool>, right: Seq<bool>, mask: Seq<bool>)
    requires
        left.len() == right.len(),
    ensures
        combined(op, kept(left, mask), kept(right, mask)) == kept(combined(op, left, right), mask),
        kept(left, mask).len() == kept(right, mask).len(),
    decreases left.len(),
{
    if left.len() > 0 {
        kept_combination(op, left.drop_last(), right.drop_last(), mask);
        assert(combined(op, left, right).drop_last() =~= combined(
            op,
            left.drop_last(),
            right.drop_last(),
        ));
    }
    assert(combined(op, kept(left, mask), kept(right, mask)) =~= kept(
        combined(op, left, right),
        mask,
    ));
}

proof fn kept_all_true(s: Seq<bool>, mask: Seq<bool>)
    requires
        forall|i: int| 0 <= i < s.len() ==> s[i],
    ensures
        forall|i: int| 0 <= i < kept(s, mask).len() ==> #[trigger] kept(s, mask)[i],
    decreases s.len(),
{
    if s.len() > 0 {
        kept_all_true(s.drop_last(), mask);
        let rest = kept(s.drop_last(), mask);
        assert(s[s.len() - 1]);
        assert forall|i: int| 0 <= i < kept(s, mask).len() implies #[trigger] kept(s, mask)[i] by {
            if i < rest.len() {
                assert(kept(s, mask)[i] == rest[i]);
            }
        }
    }
}

/// A filter marks each point by itself: what it says of the points that are left after others were
/// removed is what it said of them before.
pub proof fn marks_of_kept_points(filter: Filter, points: PointsView, mask: Seq<bool>)
    requires
        points.well_formed(),
    ensures
        filter.points_result(points.keep(mask)) == (match filter.points_result(points) {
            Ok(marks) => Ok::<Seq<bool>, Error>(kept(marks, mask)),
            Err(e) => Err::<Seq<bool>, Error>(e),
        }),
    decreases filter,
{
    match filter {
        Filter::Atom(atom) => {
            let few = points.keep(mask);
            assert(few.values.len() == points.values.len());
            if atom.ident.0@ == "timestamp"@ {
                if atom.expr is Timestamp {
                    kept_commutes_with_map(
                        points.timestamps,
                        mask,
                        |t: Timestamp| atom.cmp.accepts(t.order(atom.expr->Timestamp_0)),
                    );
                }
            } else if atom.ident.0@ == "datum"@ {
                if points.values.len() == 1 {
                    assert(few.values[0].values == points.values[0].values.keep(mask));
                    datum_marks_of_kept(atom, points.values[0].values, mask);
                }
            } else {
                let all = Seq::new(points.timestamps.len(), |i: int| true);
                kept_all_true(all, mask);
                kept_lengths_agree(points.timestamps, all, mask);
                assert(kept(all, mask) =~= Seq::new(few.timestamps.len(), |i: int| true));
            }
        },
        Filter::Expr(expr) => {
            marks_of_kept_points(*expr.left, points, mask);
            marks_of_kept_points(*expr.right, points, mask);
            one_mark_per_point(*expr.left, points);
            one_mark_per_point(*expr.right, points);
            if expr.left.points_result(points) is Ok && expr.right.points_result(points) is Ok {
                kept_combination(
                    expr.op,
                    expr.left.points_result(points)->Ok_0,
                    expr.right.points_result(points)->Ok_0,
                    mask,
                );
            }
        },
    }
}

proof fn datum_marks_of_kept(
    atom: FilterAtom,
    values: ValueArrayView,
    mask: Seq<bool>,
)
    ensures
        atom.datum_result(values.keep(mask)) == (match atom.datum_result(values) {
            Ok(marks) => Ok::<Seq<bool>, Error>(kept(marks, mask)),
            Err(e) => Err::<Seq<bool>, Error>(e),
        }),
{
    let op = atom.cmp;
    match (atom.expr, values) {
        (Literal::Integer(n), ValueArrayView::Integer(s)) => {
            kept_commutes_with_map(s, mask, integer_mark(op, n));
            assert(integer_marks(s, op, n) =~= s.map_values(integer_mark(op, n)));
            assert(integer_marks(kept(s, mask), op, n) =~= kept(
                s,
                mask,
            ).map_values(integer_mark(op, n)));
        },
        (Literal::Double(d), ValueArrayView::Double(s)) => {
            kept_commutes_with_map(
                s,
                mask,
                |v: Option<Double>|
                    match v {
                        Some(x) => x.satisfies(op, d),
                        None => false,
                    },
            );
        },
        (Literal::Boolean(b), ValueArrayView::Boolean(s)) => {
            kept_commutes_with_map(
                s,
                mask,
                |v: Option<bool>|
                    match v {
                        Some(x) => op.accepts(bool_order(x, b)),
                        None => false,
                    },
            );
        },
        (Literal::String(t), ValueArrayView::String(s)) => {
            kept_commutes_with_map(
                s,
                mask,
                |v: Option<String>|
                    match v {
                        Some(x) => if op is Like {
                            regex_matches(t@, x@)
                        } else {
                            op.accepts(seq_order(x@, t@))
                        },
                        None => false,
                    },
            );
        },
        _ => {},
    }
}

spec fn integer_mark(op: Comparison, n: i128) -> spec_fn(Option<i64>) -> bool {
    |v: Option<i64>|
        match v {
            Some(x) => op.accepts(int_order(x as int, n as int)),
            None => false,
        }
}

proof fn column_kept_twice(values: ValueArrayView, first: Seq<bool>, second: Seq<bool>)
    requires
        values.len() == first.len() == second.len(),
    ensures
        values.keep(first).keep(kept(second, first)) == values.keep(
            combined(LogicalOp::And, second, first),
        ),
{
    match values {
        ValueArrayView::Integer(s) => kept_twice(s, first, second),
        ValueArrayView::Double(s) => kept_twice(s, first, second),
        ValueArrayView::Boolean(s) => kept_twice(s, first, second),
        ValueArrayView::String(s) => kept_twice(s, first, second),
    }
}

/// To keep some points, and then some of these, is to keep those that both marks keep.
pub proof fn points_kept_twice(points: PointsView, first: Seq<bool>, second: Seq<bool>)
    requires
        points.well_formed(),
        points.timestamps.len() == first.len() == second.len(),
    ensures
        points.keep(first).keep(kept(second, first)) == points.keep(
            combined(LogicalOp::And, second, first),
        ),
{
    let once = points.keep(combined(LogicalOp::And, second, first));
    let twice = points.keep(first).keep(kept(second, first));
    if points.start_times is Some {
        kept_twice(points.start_times->0, first, second);
    }
    kept_twice(points.timestamps, first, second);
    assert forall|k: int| 0 <= k < points.values.len() implies twice.values[k] == once.values[k] by {
        assert(points.values[k].values.len() == points.timestamps.len());
        column_kept_twice(points.values[k].values, first, second);
    }
    assert(twice.values =~= once.values);
}

proof fn fields_pass_together(f: Filter, g: Filter, fields: Seq<Field>, n: nat)
    requires
        conjunction(f, g).fields_pass(fields, n) is Ok,
    ensures
        conjunction(f, g).fields_pass(fields, n) == Ok::<bool, Error>(true) ==> f.fields_pass(
            fields,
            n,
        ) == Ok::<bool, Error>(true) && g.fields_pass(fields, n) == Ok::<bool, Error>(true),
        conjunction(f, g).fields_pass(fields, n) == Ok::<bool, Error>(false) ==> !(f.fields_pass(
            fields,
            n,
        ) == Ok::<bool, Error>(true) && g.fields_pass(fields, n) == Ok::<bool, Error>(true)),
    decreases n,
{
    reveal_with_fuel(Filter::field_result, 2);
    if n > 0 {
        fields_pass_together(f, g, fields, (n - 1) as nat);
    }
}

/// What two filters leave of a timeseries one after the other, their conjunction leaves of it,
/// where none of them fails.
pub proof fn merged_filters_agree_on_timeseries(f: Filter, g: Filter, series: TimeseriesView)
    requires
        series.well_formed(),
        conjunction(f, g).kept_timeseries(series) is Ok,
        f.kept_timeseries(series) is Ok,
        f.kept_timeseries(series) matches Ok(Some(t)) ==> g.kept_timeseries(t) is Ok,
    ensures
        conjunction(f, g).kept_timeseries(series) == (match f.kept_timeseries(series) {
            Ok(Some(t)) => g.kept_timeseries(t),
            r => r,
        }),
{
    reveal_with_fuel(Filter::points_result, 2);
    let n = series.fields.len();
    fields_pass_together(f, g, series.fields, n);
    if conjunction(f, g).fields_pass(series.fields, n) == Ok::<bool, Error>(true) {
        one_mark_per_point(f, series.points);
        one_mark_per_point(g, series.points);
        let first = f.points_result(series.points)->Ok_0;
        let second = g.points_result(series.points)->Ok_0;
        marks_of_kept_points(g, series.points, first);
        points_kept_twice(series.points, first, second);
        assert(combined(LogicalOp::And, first, second) =~= combined(
            LogicalOp::And,
            second,
            first,
        ));
    }
}

/// Successive filters can be merged: what `filter f | filter g` leaves of a table's timeseries,
/// `filter (f) && (g)` leaves of them, where neither fails.
pub proof fn merged_filters_agree(f: Filter, g: Filter, series: Seq<TimeseriesView>)
    requires
        forall|i: int| 0 <= i < series.len() ==> (#[trigger] series[i]).well_formed(),
        conjunction(f, g).kept_series(series) is Ok,
        f.kept_series(series) is Ok,
        g.kept_series(f.kept_series(series)->Ok_0) is Ok,
    ensures
        conjunction(f, g).kept_series(series) == g.kept_series(f.kept_series(series)->Ok_0),
    decreases series.len(),
{
    if series.len() > 0 {
        let rest = series.drop_last();
        let mid = f.kept_series(rest)->Ok_0;
        let t = series.last();
        assert(t == series[series.len() - 1]);
        assert forall|i: int| 0 <= i < rest.len() implies (#[trigger] rest[i]).well_formed() by {
            assert(rest[i] == series[i]);
        }
        match f.kept_timeseries(t) {
            Ok(Some(u)) => assert(mid.push(u).drop_last() =~= mid),
            _ => {},
        }
        merged_filters_agree(f, g, rest);
        merged_filters_agree_on_timeseries(f, g, t);
    }
}

/// Filters merged into one, in their order.
pub open spec fn merged(filters: Seq<Filter>) -> Filter
    recommends
        filters.len() > 0,
    decreases filters.len(),
{
    if filters.len() <= 1 {
        filters[0]
    } else {
        conjunction(filters[0], merged(filters.drop_first()))
    }
}

/// What filters leave of a table's timeseries, one after the other.
pub open spec fn filtered(filters: Seq<Filter>, series: Seq<TimeseriesView>) -> Result<
    Seq<TimeseriesView>,
    Error,
>
    decreases filters.len(),
{
    if filters.len() == 0 {
        Ok(series)
    } else {
        match filters[0].kept_series(series) {
            Ok(left) => filtered(filters.drop_first(), left),
            Err(e) => Err(e),
        }
    }
}

/// None of the filters fails where its turn comes, nor do the filters that are left then, merged.
pub open spec fn none_fails(filters: Seq<Filter>, series: Seq<TimeseriesView>) -> bool
    decreases filters.len(),
{
    filters.len() > 0 ==> {
        &&& merged(filters).kept_series(series) is Ok
        &&& filters[0].kept_series(series) is Ok
        &&& none_fails(filters.drop_first(), filters[0].kept_series(series)->Ok_0)
    }
}

/// What filters leave is well formed.
pub proof fn kept_series_are_well_formed(filter: Filter, series: Seq<TimeseriesView>)
    requires
        forall|i: int| 0 <= i < series.len() ==> (#[trigger] series[i]).well_formed(),
        filter.kept_series(series) is Ok,
    ensures
        forall|i: int|
            0 <= i < filter.kept_series(series)->Ok_0.len() ==> (
            #[trigger] filter.kept_series(series)->Ok_0[i]).well_formed(),
    decreases series.len(),
{
    if series.len() > 0 {
        let rest = series.drop_last();
        assert forall|i: int| 0 <= i < rest.len() implies (#[trigger] rest[i]).well_formed() by {
            assert(rest[i] == series[i]);
        }
        kept_series_are_well_formed(filter, rest);
        let t = series.last();
        assert(t == series[series.len() - 1]);
        if filter.fields_pass(t.fields, t.fields.len()) == Ok::<bool, Error>(true) {
            one_mark_per_point(filter, t.points);
            let marks = filter.points_result(t.points)->Ok_0;
            kept_points_are_well_formed(t.points, marks);
        }
    }
}

/// Any number of successive filters can be merged into one, which leaves of a table's timeseries
/// what they leave one after the other, where none of them fails.
pub proof fn all_filters_can_be_merged(filters: Seq<Filter>, series: Seq<TimeseriesView>)
    requires
        filters.len() > 0,
        forall|i: int| 0 <= i < series.len() ==> (#[trigger] series[i]).well_formed(),
        none_fails(filters, series),
    ensures
        merged(filters).kept_series(series) == filtered(filters, series),
    decreases filters.len(),
{
    reveal_with_fuel(filtered, 2);
    let first = filters[0];
    let later = filters.drop_first();
    let left = first.kept_series(series)->Ok_0;
    if later.len() > 0 {
        kept_series_are_well_formed(first, series);
        all_filters_can_be_merged(later, left);
        merged_filters_agree(first, merged(later), series);
    }
}

/// Every comparison of the filter names a listed field, and none a timestamp or a value.
pub open spec fn names_only(filter: Filter, identifiers: Seq<Ident>) -> bool
    decreases filter,
{
    match filter {
        Filter::Atom(atom) => listed(identifiers, atom.ident.0@) && atom.ident.0@ != "timestamp"@
            && atom.ident.0@ != "datum"@,
        Filter::Expr(expr) => names_only(*expr.left, identifiers) && names_only(
            *expr.right,
            identifiers,
        ),
    }
}

/// The filter lets all the fields pass.
pub open spec fn passes(filter: Filter, fields: Seq<Field>) -> bool {
    filter.fields_pass(fields, fields.len()) == Ok::<bool, Error>(true)
}

/// The groups, at `from` and after, whose fields the filter lets pass.
pub open spec fn passing_groups(filter: Filter, groups: Seq<GroupView>, from: int) -> Seq<GroupView>
    decreases groups.len() - from,
{
    if from < 0 || from >= groups.len() {
        Seq::empty()
    } else {
        let rest = passing_groups(filter, groups, from + 1);
        if passes(filter, groups[from].fields) {
            seq![groups[from]] + rest
        } else {
            rest
        }
    }
}

/// A filter on listed fields lets every other field pass.
proof fn unlisted_fields_pass(
    filter: Filter,
    identifiers: Seq<Ident>,
    name: Seq<char>,
    value: FieldValue,
)
    requires
        names_only(filter, identifiers),
        !listed(identifiers, name),
    ensures
        filter.field_result(name, value) == Ok::<bool, Error>(true),
    decreases filter,
{
    match filter {
        Filter::Atom(_) => {},
        Filter::Expr(expr) => {
            unlisted_fields_pass(*expr.left, identifiers, name, value);
            unlisted_fields_pass(*expr.right, identifiers, name, value);
        },
    }
}

/// A filter on listed fields says of the listed fields what it says of all.
proof fn listed_fields_decide(filter: Filter, identifiers: Seq<Ident>, fields: Seq<Field>)
    requires
        names_only(filter, identifiers),
    ensures
        filter.fields_pass(selected(fields, identifiers), selected(fields, identifiers).len())
            == filter.fields_pass(fields, fields.len()),
    decreases fields.len(),
{
    if fields.len() > 0 {
        let rest = fields.drop_last();
        let few = selected(rest, identifiers);
        listed_fields_decide(filter, identifiers, rest);
        fields_pass_of_prefix(filter, fields, rest, rest.len());
        if listed(identifiers, fields.last().name@) {
            fields_pass_of_prefix(filter, few.push(fields.last()), few, few.len());
        } else {
            unlisted_fields_pass(
                filter,
                identifiers,
                fields.last().name@,
                fields.last().value,
            );
        }
    }
}

proof fn fields_pass_of_prefix(filter: Filter, a: Seq<Field>, b: Seq<Field>, n: nat)
    requires
        n <= a.len(),
        n <= b.len(),
        forall|i: int| 0 <= i < n ==> a[i] == b[i],
    ensures
        filter.fields_pass(a, n) == filter.fields_pass(b, n),
    decreases n,
{
    if n > 0 {
        fields_pass_of_prefix(filter, a, b, (n - 1) as nat);
    }
}

proof fn field_result_of_same(filter: Filter, name: Seq<char>, a: FieldValue, b: FieldValue)
    requires
        same_value(a, b),
    ensures
        filter.field_result(name, a) == filter.field_result(name, b),
    decreases filter,
{
    match filter {
        Filter::Atom(_) => {},
        Filter::Expr(expr) => {
            field_result_of_same(*expr.left, name, a, b);
            field_result_of_same(*expr.right, name, a, b);
        },
    }
}

proof fn fields_pass_of_same(filter: Filter, a: Seq<Field>, b: Seq<Field>, n: nat)
    requires
        same_fields(a, b),
        n <= a.len(),
    ensures
        filter.fields_pass(a, n) == filter.fields_pass(b, n),
        a.len() == b.len(),
    decreases n,
{
    reveal(same_fields);
    if n > 0 {
        fields_pass_of_same(filter, a, b, (n - 1) as nat);
        assert(a[n - 1].name@ == b[n - 1].name@);
        field_result_of_same(filter, a[n - 1].name@, a[n - 1].value, b[n - 1].value);
    }
}

proof fn kept_by_all<T>(s: Seq<T>, mask: Seq<bool>)
    requires
        forall|i: int| 0 <= i < s.len() ==> mask[i],
    ensures
        kept(s, mask) == s,
    decreases s.len(),
{
    if s.len() > 0 {
        kept_by_all(s.drop_last(), mask);
        assert(s.drop_last().push(s.last()) =~= s);
    }
}

/// A filter on fields keeps all points.
proof fn field_filters_keep_points(filter: Filter, identifiers: Seq<Ident>, points: PointsView)
    requires
        names_only(filter, identifiers),
        points.well_formed(),
    ensures
        filter.points_result(points) == Ok::<Seq<bool>, Error>(
            Seq::new(points.timestamps.len(), |i: int| true),
        ),
    decreases filter,
{
    match filter {
        Filter::Atom(_) => {},
        Filter::Expr(expr) => {
            field_filters_keep_points(*expr.left, identifiers, points);
            field_filters_keep_points(*expr.right, identifiers, points);
            let all = Seq::new(points.timestamps.len(), |i: int| true);
            assert(combined(expr.op, all, all) =~= all);
        },
    }
}

proof fn all_points_kept(points: PointsView)
    requires
        points.well_formed(),
    ensures
        points.keep(Seq::new(points.timestamps.len(), |i: int| true)) == points,
{
    let all = Seq::new(points.timestamps.len(), |i: int| true);
    let same = points.keep(all);
    if points.start_times is Some {
        kept_by_all(points.start_times->0, all);
    }
    kept_by_all(points.timestamps, all);
    assert forall|k: int| 0 <= k < points.values.len() implies same.values[k] == points.values[k] by {
        assert(points.values[k].values.len() == points.timestamps.len());
        match points.values[k].values {
            ValueArrayView::Integer(s) => kept_by_all(s, all),
            ValueArrayView::Double(s) => kept_by_all(s, all),
            ValueArrayView::Boolean(s) => kept_by_all(s, all),
            ValueArrayView::String(s) => kept_by_all(s, all),
        }
    }
    assert(same.values =~= points.values);
}

proof fn position_shifts(g: GroupView, groups: Seq<GroupView>, key: Seq<Field>, from: int)
    requires
        0 <= from,
    ensures
        group_position(seq![g] + groups, key, from + 1) == (match group_position(
            groups,
            key,
            from,
        ) {
            Some(k) => Some(k + 1),
            None => None,
        }),
    decreases groups.len() - from,
{
    if from < groups.len() {
        assert((seq![g] + groups)[from + 1] == groups[from]);
        position_shifts(g, groups, key, from + 1);
    }
}

proof fn position_is_first(groups: Seq<GroupView>, key: Seq<Field>, from: int)
    requires
        0 <= from,
    ensures
        group_position(groups, key, from) matches Some(k) ==> from <= k < groups.len()
            && same_fields(groups[k].fields, key),
    decreases groups.len() - from,
{
    if from < groups.len() {
        position_is_first(groups, key, from + 1);
    }
}

proof fn passing_of_equal_tails(filter: Filter, a: Seq<GroupView>, b: Seq<GroupView>, from: int)
    requires
        0 <= from,
        a.len() == b.len(),
        forall|i: int| from <= i < a.len() ==> a[i] == b[i],
    ensures
        passing_groups(filter, a, from) == passing_groups(filter, b, from),
    decreases a.len() - from,
{
    if from < a.len() {
        passing_of_equal_tails(filter, a, b, from + 1);
    }
}

/// Where the group with the key passes, it is found among those that pass, and replacing it there
/// is replacing it before.
proof fn passing_group_is_found(
    filter: Filter,
    groups: Seq<GroupView>,
    key: Seq<Field>,
    from: int,
    g: GroupView,
)
    requires
        0 <= from,
        group_position(groups, key, from) is Some,
        g.fields == groups[group_position(groups, key, from)->0].fields,
        passes(filter, g.fields),
    ensures
        ({
            let k = group_position(groups, key, from)->0;
            let few = passing_groups(filter, groups, from);
            &&& group_position(few, key, 0) matches Some(j)
            &&& 0 <= j < few.len()
            &&& few[j] == groups[k]
            &&& passing_groups(filter, groups.update(k, g), from) == few.update(j, g)
        }),
    decreases groups.len() - from,
{
    let k = group_position(groups, key, from)->0;
    position_is_first(groups, key, from);
    let few = passing_groups(filter, groups, from);
    let rest = passing_groups(filter, groups, from + 1);
    let new = groups.update(k, g);
    if same_fields(groups[from].fields, key) {
        assert(few == seq![groups[from]] + rest);
        assert(few[0] == groups[from]);
        passing_of_equal_tails(filter, groups, new, from + 1);
        assert(passing_groups(filter, new, from) =~= few.update(0, g));
    } else {
        passing_group_is_found(filter, groups, key, from + 1, g);
        assert(new[from] == groups[from]);
        if passes(filter, groups[from].fields) {
            position_shifts(groups[from], rest, key, 0);
            assert(few[0] == groups[from]);
            let j = group_position(rest, key, 0)->0;
            assert(passing_groups(filter, new, from) =~= few.update(j + 1, g));
        }
    }
}

/// Where no group has the key, none that passes has it.
proof fn absent_group_is_not_found(
    filter: Filter,
    groups: Seq<GroupView>,
    key: Seq<Field>,
    from: int,
)
    requires
        0 <= from,
        group_position(groups, key, from) is None,
    ensures
        group_position(passing_groups(filter, groups, from), key, 0) is None,
    decreases groups.len() - from,
{
    if from < groups.len() {
        absent_group_is_not_found(filter, groups, key, from + 1);
        let rest = passing_groups(filter, groups, from + 1);
        position_shifts(groups[from], rest, key, 0);
        assert((seq![groups[from]] + rest)[0] == groups[from]);
    }
}

/// One more group passes by its own fields.
pub proof fn passing_after_push(filter: Filter, groups: Seq<GroupView>, g: GroupView, from: int)
    requires
        0 <= from <= groups.len(),
    ensures
        passing_groups(filter, groups.push(g), from) == (if passes(filter, g.fields) {
            passing_groups(filter, groups, from).push(g)
        } else {
            passing_groups(filter, groups, from)
        }),
    decreases groups.len() - from,
{
    if from < groups.len() {
        passing_after_push(filter, groups, g, from + 1);
        assert(groups.push(g)[from] == groups[from]);
    } else {
        assert(passing_groups(filter, groups.push(g), from + 1) =~= Seq::empty());
    }
    assert(passing_groups(filter, groups.push(g), from) =~= (if passes(filter, g.fields) {
        passing_groups(filter, groups, from).push(g)
    } else {
        passing_groups(filter, groups, from)
    }));
}

/// Replacing a group that does not pass by another with its fields changes nothing of those that
/// pass.
proof fn failing_group_is_not_missed(
    filter: Filter,
    groups: Seq<GroupView>,
    k: int,
    g: GroupView,
    from: int,
)
    requires
        0 <= from,
        0 <= k < groups.len(),
        g.fields == groups[k].fields,
        !passes(filter, g.fields),
    ensures
        passing_groups(filter, groups.update(k, g), from) == passing_groups(filter, groups, from),
    decreases groups.len() - from,
{
    if from < groups.len() {
        failing_group_is_not_missed(filter, groups, k, g, from + 1);
    }
}

/// A filter that names only fields by which timeseries are grouped can be pushed down through the
/// grouping: grouping what `filter` leaves gives the groups that `filter` leaves, with the same
/// numbers in them, where neither fails.
pub proof fn field_filters_pass_through_grouping(
    filter: Filter,
    identifiers: Seq<Ident>,
    series: Seq<TimeseriesView>,
)
    requires
        forall|i: int| 0 <= i < series.len() ==> (#[trigger] series[i]).well_formed(),
        names_only(filter, identifiers),
        filter.kept_series(series) is Ok,
        grouped(series, identifiers) is Ok,
    ensures
        grouped(filter.kept_series(series)->Ok_0, identifiers) == Ok::<Seq<GroupView>, Error>(
            passing_groups(filter, grouped(series, identifiers)->Ok_0, 0),
        ),
    decreases series.len(),
{
    if series.len() > 0 {
        let rest = series.drop_last();
        let t = series.last();
        assert(t == series[series.len() - 1]);
        assert forall|i: int| 0 <= i < rest.len() implies (#[trigger] rest[i]).well_formed() by {
            assert(rest[i] == series[i]);
        }
        field_filters_pass_through_grouping(filter, identifiers, rest);
        let groups = grouped(rest, identifiers)->Ok_0;
        let few = filter.kept_series(rest)->Ok_0;
        let key = selected(t.fields, identifiers);
        listed_fields_decide(filter, identifiers, t.fields);
        field_filters_keep_points(filter, identifiers, t.points);
        all_points_kept(t.points);
        position_is_first(groups, key, 0);
        assert(few.push(t).drop_last() =~= few);
        match group_position(groups, key, 0) {
            Some(k) => {
                fields_pass_of_same(filter, groups[k].fields, key, groups[k].fields.len());
                let g = extended(groups[k], t);
                if passes(filter, key) {
                    passing_group_is_found(filter, groups, key, 0, g);
                } else {
                    failing_group_is_not_missed(filter, groups, k, g, 0);
                }
            },
            None => {
                absent_group_is_not_found(filter, groups, key, 0);
                passing_after_push(filter, groups, single(t, key), 0);
            },
        }
    }
}

/// Every comparison of the filter names timestamps, or a listed field, and none a value.
pub open spec fn names_keys_or_time(filter: Filter, identifiers: Seq<Ident>) -> bool
    decreases filter,
{
    match filter {
        Filter::Atom(atom) => atom.ident.0@ == "timestamp"@ || (listed(identifiers, atom.ident.0@)
            && atom.ident.0@ != "datum"@),
        Filter::Expr(expr) => names_keys_or_time(*expr.left, identifiers) && names_keys_or_time(
            *expr.right,
            identifiers,
        ),
    }
}

/// No field has the name by which filters speak of timestamps.
pub open spec fn no_time_field(fields: Seq<Field>) -> bool {
    forall|i: int| 0 <= i < fields.len() ==> (#[trigger] fields[i]).name@ != "timestamp"@
}

/// Timeseries that fall into the same group have the same timestamps.
pub open spec fn aligned(series: Seq<TimeseriesView>, identifiers: Seq<Ident>) -> bool {
    forall|i: int, j: int|
        0 <= i < series.len() && 0 <= j < series.len() && same_fields(
            selected((#[trigger] series[i]).fields, identifiers),
            selected((#[trigger] series[j]).fields, identifiers),
        ) ==> series[i].points.timestamps == series[j].points.timestamps
}

/// Points of which only the timestamps are told.
pub open spec fn bare(timestamps: Seq<Timestamp>) -> PointsView {
    PointsView { start_times: None, timestamps, values: Seq::empty() }
}

/// What a filter says of each timestamp.
pub open spec fn time_marks(filter: Filter, timestamps: Seq<Timestamp>) -> Seq<bool> {
    filter.points_result(bare(timestamps))->Ok_0
}

/// What a filter on timestamps leaves of a group.
pub open spec fn thinned(filter: Filter, group: GroupView) -> GroupView {
    let marks = time_marks(filter, group.timestamps);
    GroupView {
        start_times: match group.start_times {
            Some(s) => Some(kept(s, marks)),
            None => None,
        },
        timestamps: kept(group.timestamps, marks),
        addends: kept(group.addends, marks),
        ..group
    }
}

/// What a filter on timestamps leaves of groups.
pub open spec fn all_thinned(filter: Filter, groups: Seq<GroupView>) -> Seq<GroupView> {
    groups.map_values(|g: GroupView| thinned(filter, g))
}

proof fn other_fields_pass(
    filter: Filter,
    identifiers: Seq<Ident>,
    name: Seq<char>,
    value: FieldValue,
)
    requires
        names_keys_or_time(filter, identifiers),
        !listed(identifiers, name),
        name != "timestamp"@,
    ensures
        filter.field_result(name, value) == Ok::<bool, Error>(true),
    decreases filter,
{
    match filter {
        Filter::Atom(_) => {},
        Filter::Expr(expr) => {
            other_fields_pass(*expr.left, identifiers, name, value);
            other_fields_pass(*expr.right, identifiers, name, value);
        },
    }
}

proof fn keys_decide(filter: Filter, identifiers: Seq<Ident>, fields: Seq<Field>)
    requires
        names_keys_or_time(filter, identifiers),
        no_time_field(fields),
    ensures
        filter.fields_pass(selected(fields, identifiers), selected(fields, identifiers).len())
            == filter.fields_pass(fields, fields.len()),
    decreases fields.len(),
{
    if fields.len() > 0 {
        let rest = fields.drop_last();
        let few = selected(rest, identifiers);
        assert forall|i: int| 0 <= i < rest.len() implies (#[trigger] rest[i]).name@
            != "timestamp"@ by {
            assert(rest[i] == fields[i]);
        }
        assert(fields.last() == fields[fields.len() - 1]);
        keys_decide(filter, identifiers, rest);
        fields_pass_of_prefix(filter, fields, rest, rest.len());
        if listed(identifiers, fields.last().name@) {
            fields_pass_of_prefix(filter, few.push(fields.last()), few, few.len());
        } else {
            other_fields_pass(filter, identifiers, fields.last().name@, fields.last().value);
        }
    }
}

/// What such a filter says of points depends on their timestamps alone.
pub proof fn time_decides(filter: Filter, identifiers: Seq<Ident>, points: PointsView)
    requires
        names_keys_or_time(filter, identifiers),
    ensures
        filter.points_result(points) == filter.points_result(bare(points.timestamps)),
    decreases filter,
{
    match filter {
        Filter::Atom(_) => {},
        Filter::Expr(expr) => {
            time_decides(*expr.left, identifiers, points);
            time_decides(*expr.right, identifiers, points);
        },
    }
}

/// The numbers of a column, where it has them.
spec fn numbers(values: ValueArrayView) -> Seq<Option<Number>> {
    Seq::new(values.len(), |i: int| number_at(values, i))
}

proof fn numbers_of_kept(values: ValueArrayView, mask: Seq<bool>)
    ensures
        numbers(values.keep(mask)) == kept(numbers(values), mask),
{
    match values {
        ValueArrayView::Integer(s) => {
            let f = |x: Option<i64>|
                match x {
                    Some(n) => Some(Number::Integer(n)),
                    None => None,
                };
            assert(numbers(values) =~= s.map_values(f));
            assert(numbers(values.keep(mask)) =~= kept(s, mask).map_values(f));
            kept_commutes_with_map(s, mask, f);
        },
        ValueArrayView::Double(s) => {
            let f = |x: Option<Double>|
                match x {
                    Some(d) => Some(Number::Double(d)),
                    None => None,
                };
            assert(numbers(values) =~= s.map_values(f));
            assert(numbers(values.keep(mask)) =~= kept(s, mask).map_values(f));
            kept_commutes_with_map(s, mask, f);
        },
        ValueArrayView::Boolean(s) => {
            let f = |x: Option<bool>| None::<Number>;
            assert(numbers(values) =~= s.map_values(f));
            assert(numbers(values.keep(mask)) =~= kept(s, mask).map_values(f));
            kept_commutes_with_map(s, mask, f);
        },
        ValueArrayView::String(s) => {
            let f = |x: Option<String>| None::<Number>;
            assert(numbers(values) =~= s.map_values(f));
            assert(numbers(values.keep(mask)) =~= kept(s, mask).map_values(f));
            kept_commutes_with_map(s, mask, f);
        },
    }
}

spec fn added(addends: Seq<Seq<Number>>, more: Seq<Option<Number>>) -> Seq<Seq<Number>> {
    Seq::new(addends.len(), |i: int| with_number(addends[i], more[i]))
}

proof fn added_of_kept(addends: Seq<Seq<Number>>, more: Seq<Option<Number>>, mask: Seq<bool>)
    requires
        addends.len() == more.len(),
    ensures
        kept(added(addends, more), mask) == added(kept(addends, mask), kept(more, mask)),
        kept(addends, mask).len() == kept(more, mask).len(),
    decreases addends.len(),
{
    if addends.len() > 0 {
        let a = addends.drop_last();
        let b = more.drop_last();
        added_of_kept(a, b, mask);
        assert(added(addends, more).drop_last() =~= added(a, b));
        assert(added(addends, more).last() == with_number(addends.last(), more.last()));
    }
    assert(kept(added(addends, more), mask) =~= added(kept(addends, mask), kept(more, mask)));
}

/// Thinning a group and then extending it is extending it and then thinning it.
proof fn thinned_extends(filter: Filter, group: GroupView, series: TimeseriesView)
    requires
        group.timestamps == series.points.timestamps,
        group.addends.len() == group.timestamps.len(),
        series.points.values.len() == 1,
        series.points.well_formed(),
    ensures
        ({
            let marks = time_marks(filter, group.timestamps);
            let left = TimeseriesView { fields: series.fields, points: series.points.keep(marks) };
            thinned(filter, extended(group, series)) == extended(thinned(filter, group), left)
        }),
{
    let marks = time_marks(filter, group.timestamps);
    let left = TimeseriesView { fields: series.fields, points: series.points.keep(marks) };
    let values = series.points.values[0].values;
    assert(values.len() == group.addends.len());
    numbers_of_kept(values, marks);
    added_of_kept(group.addends, numbers(values), marks);
    assert(left.points.values[0].values == values.keep(marks));
    assert(extended(group, series).addends =~= added(group.addends, numbers(values)));
    let a = kept(group.addends, marks);
    let b = numbers(values.keep(marks));
    assert(a.len() == b.len());
    assert(extended(thinned(filter, group), left).addends =~= added(a, b));
    assert(thinned(filter, extended(group, series)) =~= extended(thinned(filter, group), left));
}

/// Thinning a group of one timeseries is grouping what is left of the timeseries.
proof fn thinned_single(filter: Filter, series: TimeseriesView, key: Seq<Field>)
    requires
        series.points.values.len() == 1,
        series.points.well_formed(),
    ensures
        ({
            let marks = time_marks(filter, series.points.timestamps);
            let left = TimeseriesView { fields: series.fields, points: series.points.keep(marks) };
            thinned(filter, single(series, key)) == single(left, key)
        }),
{
    let marks = time_marks(filter, series.points.timestamps);
    let left = TimeseriesView { fields: series.fields, points: series.points.keep(marks) };
    let values = series.points.values[0].values;
    let f = |x: Option<Number>| with_number(Seq::empty(), x);
    assert(values.len() == series.points.timestamps.len());
    numbers_of_kept(values, marks);
    kept_commutes_with_map(numbers(values), marks, f);
    kept_lengths_agree(numbers(values), series.points.timestamps, marks);
    assert(single(series, key).addends =~= numbers(values).map_values(f));
    assert(left.points.values[0].values == values.keep(marks));
    assert(single(left, key).addends =~= numbers(values.keep(marks)).map_values(f));
    assert(thinned(filter, single(series, key)) =~= single(left, key));
}

/// The group holds the timestamps and the key of one of the timeseries, and numbers for each
/// timestamp.
pub open spec fn comes_from(
    group: GroupView,
    series: Seq<TimeseriesView>,
    identifiers: Seq<Ident>,
    i: int,
) -> bool {
    &&& 0 <= i < series.len()
    &&& group.fields == selected(series[i].fields, identifiers)
    &&& group.timestamps == series[i].points.timestamps
    &&& group.addends.len() == group.timestamps.len()
}

/// Every group has the key and the timestamps of one of the timeseries.
pub proof fn groups_come_from_series(series: Seq<TimeseriesView>, identifiers: Seq<Ident>, k: int)
    requires
        grouped(series, identifiers) matches Ok(groups) && 0 <= k < groups.len(),
    ensures
        exists|i: int|
            #[trigger] comes_from(grouped(series, identifiers)->Ok_0[k], series, identifiers, i),
    decreases series.len(),
{
    let rest = series.drop_last();
    let t = series.last();
    let n = series.len() - 1;
    let groups = grouped(rest, identifiers)->Ok_0;
    let all = grouped(series, identifiers)->Ok_0;
    let key = selected(t.fields, identifiers);
    assert(t == series[n]);
    position_is_first(groups, key, 0);
    if k < groups.len() {
        groups_come_from_series(rest, identifiers, k);
        let i = choose|i: int| #[trigger] comes_from(groups[k], rest, identifiers, i);
        assert(rest[i] == series[i]);
        assert(comes_from(all[k], series, identifiers, i));
    } else {
        assert(all[k] == single(t, key));
        assert(comes_from(all[k], series, identifiers, n));
    }
}

proof fn position_of_thinned(filter: Filter, groups: Seq<GroupView>, key: Seq<Field>, from: int)
    requires
        0 <= from,
    ensures
        group_position(all_thinned(filter, groups), key, from) == group_position(groups, key, from),
    decreases groups.len() - from,
{
    if from < groups.len() {
        position_of_thinned(filter, groups, key, from + 1);
    }
}

/// A filter that names only timestamps, and fields by which timeseries are grouped, can be pushed
/// down through the grouping: grouping what `filter` leaves gives what `filter` leaves of the groups,
/// where neither fails, timeseries of the same group have the same timestamps, and of no timeseries
/// that passes all points are removed.
pub proof fn filters_pass_through_grouping(
    filter: Filter,
    identifiers: Seq<Ident>,
    series: Seq<TimeseriesView>,
)
    requires
        forall|i: int| 0 <= i < series.len() ==> (#[trigger] series[i]).well_formed(),
        forall|i: int| 0 <= i < series.len() ==> no_time_field((#[trigger] series[i]).fields),
        names_keys_or_time(filter, identifiers),
        aligned(series, identifiers),
        filter.kept_series(series) is Ok,
        grouped(series, identifiers) is Ok,
        forall|i: int|
            0 <= i < series.len() ==> (filter.kept_timeseries(#[trigger] series[i]) matches Ok(
                Some(t),
            ) ==> t.points.timestamps.len() > 0),
    ensures
        grouped(filter.kept_series(series)->Ok_0, identifiers) == Ok::<Seq<GroupView>, Error>(
            all_thinned(filter, passing_groups(filter, grouped(series, identifiers)->Ok_0, 0)),
        ),
    decreases series.len(),
{
    if series.len() > 0 {
        let rest = series.drop_last();
        let t = series.last();
        let n = series.len() - 1;
        assert(t == series[n]);
        assert forall|i: int| 0 <= i < rest.len() implies (#[trigger] rest[i]).well_formed()
            && no_time_field(rest[i].fields) && (filter.kept_timeseries(rest[i]) matches Ok(Some(u))
            ==> u.points.timestamps.len() > 0) by {
            assert(rest[i] == series[i]);
        }
        assert(aligned(rest, identifiers)) by {
            assert(forall|i: int| 0 <= i < rest.len() ==> #[trigger] rest[i] == series[i]);
        }
        filters_pass_through_grouping(filter, identifiers, rest);
        last_series_passes_through(filter, identifiers, series);
    } else {
        assert(passing_groups(filter, Seq::empty(), 0) =~= Seq::empty());
        assert(all_thinned(filter, Seq::empty()) =~= Seq::empty());
    }
}

proof fn last_series_passes_through(
    filter: Filter,
    identifiers: Seq<Ident>,
    series: Seq<TimeseriesView>,
)
    requires
        series.len() > 0,
        series.last().well_formed(),
        no_time_field(series.last().fields),
        names_keys_or_time(filter, identifiers),
        aligned(series, identifiers),
        filter.kept_series(series) is Ok,
        grouped(series, identifiers) is Ok,
        filter.kept_timeseries(series.last()) matches Ok(Some(t)) ==> t.points.timestamps.len() > 0,
        grouped(filter.kept_series(series.drop_last())->Ok_0, identifiers) == Ok::<
            Seq<GroupView>,
            Error,
        >(
            all_thinned(
                filter,
                passing_groups(filter, grouped(series.drop_last(), identifiers)->Ok_0, 0),
            ),
        ),
    ensures
        grouped(filter.kept_series(series)->Ok_0, identifiers) == Ok::<Seq<GroupView>, Error>(
            all_thinned(filter, passing_groups(filter, grouped(series, identifiers)->Ok_0, 0)),
        ),
{
    let rest = series.drop_last();
    let t = series.last();
    let n = series.len() - 1;
    assert(t == series[n]);
    let groups = grouped(rest, identifiers)->Ok_0;
    let few = filter.kept_series(rest)->Ok_0;
    let passing = passing_groups(filter, groups, 0);
    let key = selected(t.fields, identifiers);
    let marks = time_marks(filter, t.points.timestamps);
    let left = TimeseriesView { fields: t.fields, points: t.points.keep(marks) };
    keys_decide(filter, identifiers, t.fields);
    time_decides(filter, identifiers, t.points);
    position_is_first(groups, key, 0);
    position_of_thinned(filter, passing, key, 0);
    assert(few.push(left).drop_last() =~= few);
    assert(few.push(left).last() == left);
    assert(left.points.values.len() == t.points.values.len());
    if passes(filter, key) {
        assert(filter.kept_timeseries(t) == Ok::<Option<TimeseriesView>, Error>(Some(left)));
        assert(left.points.values[0].values.kind() == t.points.values[0].values.kind());
        assert(left.points.values[0].metric_type == t.points.values[0].metric_type);
        assert(ungroupable(left, identifiers) is None);
    }
    match group_position(groups, key, 0) {
        Some(k) => {
            groups_come_from_series(rest, identifiers, k);
            let i = choose|i: int| #[trigger] comes_from(groups[k], rest, identifiers, i);
            assert(rest[i] == series[i]);
            assert(groups[k].timestamps == t.points.timestamps);
            fields_pass_of_same(filter, groups[k].fields, key, groups[k].fields.len());
            let g = extended(groups[k], t);
            if passes(filter, key) {
                passing_group_is_found(filter, groups, key, 0, g);
                let j = group_position(passing, key, 0)->0;
                thinned_extends(filter, groups[k], t);
                let thin = all_thinned(filter, passing);
                assert(thin[j] == thinned(filter, groups[k]));
                assert(all_thinned(filter, passing.update(j, g)) =~= thin.update(
                    j,
                    thinned(filter, g),
                ));
            } else {
                failing_group_is_not_missed(filter, groups, k, g, 0);
            }
        },
        None => {
            absent_group_is_not_found(filter, groups, key, 0);
            passing_after_push(filter, groups, single(t, key), 0);
            thinned_single(filter, t, key);
            assert(all_thinned(filter, passing.push(single(t, key))) =~= all_thinned(
                filter,
                passing,
            ).push(thinned(filter, single(t, key))));
        },
    }
}

/// How many timeseries the groups were made of.
pub open spec fn members(groups: Seq<GroupView>) -> nat
    decreases groups.len(),
{
    if groups.len() == 0 {
        0
    } else {
        members(groups.drop_last()) + groups.last().count
    }
}

proof fn members_of_extended(groups: Seq<GroupView>, k: int, g: GroupView)
    requires
        0 <= k < groups.len(),
        g.count == groups[k].count + 1,
    ensures
        members(groups.update(k, g)) == members(groups) + 1,
    decreases groups.len(),
{
    let more = groups.update(k, g);
    if k == groups.len() - 1 {
        assert(more.drop_last() =~= groups.drop_last());
    } else {
        assert(more.drop_last() =~= groups.drop_last().update(k, g));
        members_of_extended(groups.drop_last(), k, g);
    }
}

proof fn absent_key_differs(groups: Seq<GroupView>, key: Seq<Field>, from: int, i: int)
    requires
        0 <= from <= i < groups.len(),
        group_position(groups, key, from) is None,
    ensures
        !same_fields(groups[i].fields, key),
    decreases groups.len() - from,
{
    if from < i {
        absent_key_differs(groups, key, from + 1, i);
    }
}

/// Grouping neither drops nor repeats a timeseries: each of them is a member of one group.
pub proof fn grouping_takes_every_timeseries(series: Seq<TimeseriesView>, identifiers: Seq<Ident>)
    requires
        grouped(series, identifiers) is Ok,
    ensures
        members(grouped(series, identifiers)->Ok_0) == series.len(),
    decreases series.len(),
{
    if series.len() > 0 {
        grouping_takes_every_timeseries(series.drop_last(), identifiers);
        let groups = grouped(series.drop_last(), identifiers)->Ok_0;
        let key = selected(series.last().fields, identifiers);
        position_is_first(groups, key, 0);
        match group_position(groups, key, 0) {
            Some(k) => members_of_extended(groups, k, extended(groups[k], series.last())),
            None => {
                let more = groups.push(single(series.last(), key));
                assert(more.drop_last() =~= groups);
            },
        }
    }
}

/// No two groups have the same key.
pub proof fn groups_have_different_keys(
    series: Seq<TimeseriesView>,
    identifiers: Seq<Ident>,
    i: int,
    j: int,
)
    requires
        grouped(series, identifiers) is Ok,
        0 <= i < j < grouped(series, identifiers)->Ok_0.len(),
    ensures
        !same_fields(
            grouped(series, identifiers)->Ok_0[i].fields,
            grouped(series, identifiers)->Ok_0[j].fields,
        ),
    decreases series.len(),
{
    if series.len() > 0 {
        let groups = grouped(series.drop_last(), identifiers)->Ok_0;
        let key = selected(series.last().fields, identifiers);
        position_is_first(groups, key, 0);
        if j < groups.len() {
            groups_have_different_keys(series.drop_last(), identifiers, i, j);
        } else {
            absent_key_differs(groups, key, 0, i);
        }
    }
}

/// The timeseries that belong to the group with a key, in their order.
pub open spec fn members_of(
    series: Seq<TimeseriesView>,
    key: Seq<Field>,
    identifiers: Seq<Ident>,
) -> Seq<TimeseriesView> {
    series.filter(|t: TimeseriesView| same_fields(key, selected(t.fields, identifiers)))
}

/// The numbers that timeseries have at a place, in the order of the timeseries.
pub open spec fn numbers_at(series: Seq<TimeseriesView>, i: int) -> Seq<Number>
    decreases series.len(),
{
    if series.len() == 0 {
        Seq::empty()
    } else {
        with_number(
            numbers_at(series.drop_last(), i),
            number_at(series.last().points.values[0].values, i),
        )
    }
}

proof fn numbers_are_missing_together(series: Seq<TimeseriesView>, i: int)
    ensures
        numbers_at(series, i).len() == 0 <==> forall|j: int|
            0 <= j < series.len() ==> number_at(
                (#[trigger] series[j]).points.values[0].values,
                i,
            ) is None,
    decreases series.len(),
{
    if series.len() > 0 {
        let rest = series.drop_last();
        numbers_are_missing_together(rest, i);
        assert forall|j: int| 0 <= j < rest.len() implies #[trigger] rest[j] == series[j] by {}
        if numbers_at(series, i).len() == 0 {
            assert forall|j: int| 0 <= j < series.len() implies number_at(
                (#[trigger] series[j]).points.values[0].values,
                i,
            ) is None by {
                if j < rest.len() {
                    assert(rest[j] == series[j]);
                }
            }
        }
        if forall|j: int|
            0 <= j < series.len() ==> number_at(
                (#[trigger] series[j]).points.values[0].values,
                i,
            ) is None {
            assert(series[series.len() - 1] == series.last());
            assert forall|j: int| 0 <= j < rest.len() implies number_at(
                (#[trigger] rest[j]).points.values[0].values,
                i,
            ) is None by {
                assert(rest[j] == series[j]);
            }
        }
    }
}

/// Every timeseries that was grouped has its key among the keys of the groups.
pub proof fn every_key_has_a_group(series: Seq<TimeseriesView>, identifiers: Seq<Ident>, i: int)
    requires
        grouped(series, identifiers) is Ok,
        0 <= i < series.len(),
    ensures
        exists|k: int|
            0 <= k < grouped(series, identifiers)->Ok_0.len() && same_fields(
                (#[trigger] grouped(series, identifiers)->Ok_0[k]).fields,
                selected(series[i].fields, identifiers),
            ),
    decreases series.len(),
{
    let rest = series.drop_last();
    let before = grouped(rest, identifiers)->Ok_0;
    let after = grouped(series, identifiers)->Ok_0;
    let key = selected(series.last().fields, identifiers);
    position_is_first(before, key, 0);
    if i < rest.len() {
        every_key_has_a_group(rest, identifiers, i);
        let k = choose|k: int|
            0 <= k < before.len() && same_fields(
                (#[trigger] before[k]).fields,
                selected(rest[i].fields, identifiers),
            );
        assert(after[k].fields == before[k].fields);
    } else {
        match group_position(before, key, 0) {
            Some(k) => assert(same_fields(after[k].fields, key)),
            None => {
                same_fields_is_reflexive(key);
                assert(same_fields(after[before.len() as int].fields, key));
            },
        }
    }
}

proof fn same_fields_is_reflexive(a: Seq<Field>)
    ensures
        same_fields(a, a),
{
    reveal(same_fields);
}

proof fn same_fields_is_transitive(a: Seq<Field>, b: Seq<Field>, c: Seq<Field>)
    requires
        same_fields(a, b),
        same_fields(c, b) || same_fields(b, c),
    ensures
        same_fields(a, c),
{
    reveal(same_fields);
}

/// A group holds what its members have, and nothing else: it counts all timeseries with its key,
/// those without a number at a place too, and its numbers at a place are those that they have there.
/// There is no number at a place if and only if none of them has one.
pub proof fn groups_hold_what_their_members_have(
    series: Seq<TimeseriesView>,
    identifiers: Seq<Ident>,
    k: int,
)
    requires
        grouped(series, identifiers) is Ok,
        0 <= k < grouped(series, identifiers)->Ok_0.len(),
    ensures
        ({
            let group = grouped(series, identifiers)->Ok_0[k];
            let members = members_of(series, group.fields, identifiers);
            &&& group.count == members.len()
            &&& group.count > 0
            &&& group.addends.len() == group.timestamps.len()
            &&& forall|i: int|
                0 <= i < group.addends.len() ==> #[trigger] group.addends[i] == numbers_at(
                    members,
                    i,
                )
            &&& forall|i: int|
                0 <= i < group.addends.len() ==> ((#[trigger] group.addends[i]).len() == 0
                    <==> forall|j: int|
                    0 <= j < members.len() ==> number_at(
                        (#[trigger] members[j]).points.values[0].values,
                        i,
                    ) is None)
        }),
{
    let group = grouped(series, identifiers)->Ok_0[k];
    let members = members_of(series, group.fields, identifiers);
    groups_hold_the_numbers(series, identifiers, k);
    assert forall|i: int| 0 <= i < group.addends.len() implies ((
    #[trigger] group.addends[i]).len() == 0 <==> forall|j: int|
        0 <= j < members.len() ==> number_at(
            (#[trigger] members[j]).points.values[0].values,
            i,
        ) is None) by {
        numbers_are_missing_together(members, i);
    }
}

proof fn groups_hold_the_numbers(series: Seq<TimeseriesView>, identifiers: Seq<Ident>, k: int)
    requires
        grouped(series, identifiers) is Ok,
        0 <= k < grouped(series, identifiers)->Ok_0.len(),
    ensures
        ({
            let group = grouped(series, identifiers)->Ok_0[k];
            let members = members_of(series, group.fields, identifiers);
            &&& group.count == members.len()
            &&& group.count > 0
            &&& group.addends.len() == group.timestamps.len()
            &&& forall|i: int|
                0 <= i < group.addends.len() ==> #[trigger] group.addends[i] == numbers_at(
                    members,
                    i,
                )
        }),
    decreases series.len(),
{
    let rest = series.drop_last();
    let t = series.last();
    let before = grouped(rest, identifiers)->Ok_0;
    let key = selected(t.fields, identifiers);
    let group = grouped(series, identifiers)->Ok_0[k];
    let mine = |x: TimeseriesView| same_fields(group.fields, selected(x.fields, identifiers));
    let members = members_of(series, group.fields, identifiers);
    let others = members_of(rest, group.fields, identifiers);
    reveal(Seq::filter);
    position_is_first(before, key, 0);
    if k < before.len() {
        groups_hold_the_numbers(rest, identifiers, k);
        assert(group.fields == before[k].fields);
        match group_position(before, key, 0) {
            Some(p) if p == k => {
                assert(mine(t));
                assert(members == others.push(t));
                assert(members.drop_last() =~= others);
            },
            Some(p) => {
                assert(!mine(t)) by {
                    if mine(t) {
                        same_fields_is_transitive(before[p].fields, key, before[k].fields);
                        same_fields_is_transitive(before[k].fields, key, before[p].fields);
                        if p < k {
                            groups_have_different_keys(rest, identifiers, p, k);
                        } else {
                            groups_have_different_keys(rest, identifiers, k, p);
                        }
                    }
                }
                assert(members == others);
            },
            None => {
                absent_key_differs(before, key, 0, k);
                assert(members == others);
            },
        }
    } else {
        assert(group == single(t, key));
        same_fields_is_reflexive(key);
        assert(mine(t));
        assert(others.len() == 0) by {
            if others.len() > 0 {
                let x = others[0];
                filtered_are_among(rest, mine);
                assert(others.contains(x));
                assert(rest.contains(x) && mine(x));
                let i = rest.index_of(x);
                every_key_has_a_group(rest, identifiers, i);
                let q = choose|q: int|
                    0 <= q < before.len() && same_fields(
                        (#[trigger] before[q]).fields,
                        selected(rest[i].fields, identifiers),
                    );
                same_fields_is_transitive(
                    before[q].fields,
                    selected(x.fields, identifiers),
                    key,
                );
                absent_key_differs(before, key, 0, q);
            }
        }
        assert(members == others.push(t));
        assert(others =~= Seq::empty());
        assert(members.drop_last() =~= Seq::empty());
        assert forall|i: int| 0 <= i < group.addends.len() implies #[trigger] group.addends[i]
            == numbers_at(members, i) by {
            assert(numbers_at(members.drop_last(), i) =~= Seq::empty());
        }
    }
}

} // verus!
