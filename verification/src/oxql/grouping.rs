//! What grouping does with the fields and the values of timeseries.

use vstd::prelude::*;

use crate::oxql::ast::{Double, Ident};
use crate::oxql::group_by::{
    group_position, grouped, has_field, listed, number_at, selected, single, ungroupable,
    GroupView, Number, Reducer,
};
use crate::oxql::laws::{
    comes_from, every_key_has_a_group, groups_come_from_series, groups_hold_what_their_members_have,
    members_of, numbers_at,
};
use crate::oxql::point::{DataType, MetricType, ValueArrayView};
use crate::oxql::reduce::{adds_at, adds_up, converts, is_addition, is_value, reduces_to};
use crate::oxql::table::{same_fields, same_value, Field, FieldValue, TimeseriesView};
use crate::oxql::Error;

verus! {

/// The number at a place of a column is the value itself: every integer and every double, whatever
/// its sign and size. Other values are no numbers.
pub proof fn numbers_are_the_values(values: ValueArrayView, i: int)
    ensures
        match values {
            ValueArrayView::Integer(s) => match s[i] {
                Some(n) => number_at(values, i) == Some(Number::Integer(n)),
                None => number_at(values, i) is None,
            },
            ValueArrayView::Double(s) => match s[i] {
                Some(d) => number_at(values, i) == Some(Number::Double(d)),
                None => number_at(values, i) is None,
            },
            _ => number_at(values, i) is None,
        },
{
}

/// The timeseries has a number at a place.
pub open spec fn has_number(t: TimeseriesView, i: int) -> bool {
    match t.points.values[0].values {
        ValueArrayView::Integer(s) => s[i] is Some,
        ValueArrayView::Double(s) => s[i] is Some,
        _ => false,
    }
}

/// The number is the one that the timeseries has at a place.
pub open spec fn is_number_of(n: Number, t: TimeseriesView, i: int) -> bool {
    match (n, t.points.values[0].values) {
        (Number::Integer(x), ValueArrayView::Integer(s)) => s[i] == Some(x),
        (Number::Double(x), ValueArrayView::Double(s)) => s[i] == Some(x),
        _ => false,
    }
}

proof fn numbers_at_are_values(series: Seq<TimeseriesView>, i: int)
    ensures
        ({
            let with = series.filter(|t: TimeseriesView| has_number(t, i));
            &&& numbers_at(series, i).len() == with.len()
            &&& forall|q: int|
                0 <= q < with.len() ==> is_number_of(
                    #[trigger] numbers_at(series, i)[q],
                    with[q],
                    i,
                )
        }),
    decreases series.len(),
{
    reveal(Seq::filter);
    let pred = |t: TimeseriesView| has_number(t, i);
    if series.len() > 0 {
        let rest = series.drop_last();
        numbers_at_are_values(rest, i);
        let few = rest.filter(pred);
        let with = series.filter(pred);
        let t = series.last();
        numbers_are_the_values(t.points.values[0].values, i);
        assert forall|q: int| 0 <= q < with.len() implies is_number_of(
            #[trigger] numbers_at(series, i)[q],
            with[q],
            i,
        ) by {
            if q < few.len() {
                assert(with[q] == few[q]);
                assert(numbers_at(series, i)[q] == numbers_at(rest, i)[q]);
            }
        }
    }
}

/// The numbers of a group at a place are the values that its members have there, unchanged and in
/// the order of the members. A member without a value there adds none.
pub proof fn groups_hold_the_values_of_their_members(
    series: Seq<TimeseriesView>,
    identifiers: Seq<Ident>,
    k: int,
    i: int,
)
    requires
        grouped(series, identifiers) is Ok,
        0 <= k < grouped(series, identifiers)->Ok_0.len(),
        0 <= i < grouped(series, identifiers)->Ok_0[k].addends.len(),
    ensures
        ({
            let group = grouped(series, identifiers)->Ok_0[k];
            let members = series.filter(
                |t: TimeseriesView| same_fields(group.fields, selected(t.fields, identifiers)),
            );
            let with = members.filter(|t: TimeseriesView| has_number(t, i));
            &&& group.count == members.len()
            &&& group.addends[i].len() == with.len()
            &&& forall|q: int|
                0 <= q < with.len() ==> is_number_of(#[trigger] group.addends[i][q], with[q], i)
        }),
{
    groups_hold_what_their_members_have(series, identifiers, k);
    let group = grouped(series, identifiers)->Ok_0[k];
    numbers_at_are_values(members_of(series, group.fields, identifiers), i);
}

/// The key of a timeseries are exactly its fields with listed names, in their order.
pub proof fn keys_are_the_listed_fields(fields: Seq<Field>, identifiers: Seq<Ident>)
    ensures
        selected(fields, identifiers) == fields.filter(
            |f: Field|
                exists|j: int|
                    0 <= j < identifiers.len() && (#[trigger] identifiers[j]).0@ == f.name@,
        ),
    decreases fields.len(),
{
    reveal(Seq::filter);
    if fields.len() > 0 {
        keys_are_the_listed_fields(fields.drop_last(), identifiers);
    }
}

/// Two keys are the same exactly where they have the same names with the same values, place by place.
/// Strings are the same by their characters, and everything else by type and value.
pub proof fn keys_are_the_same_by_names_and_values(a: Seq<Field>, b: Seq<Field>)
    ensures
        same_fields(a, b) <==> a.len() == b.len() && forall|i: int|
            0 <= i < a.len() ==> (#[trigger] a[i]).name@ == b[i].name@ && match (
                a[i].value,
                b[i].value,
            ) {
                (FieldValue::String(x), FieldValue::String(y)) => x@ == y@,
                (x, y) => x == y,
            },
{
    reveal(same_fields);
}

/// The timeseries can be grouped by itself: it has points, and one value for each, which is a number
/// and no running total, and it has all the fields by which it is grouped.
pub open spec fn can_be_grouped(t: TimeseriesView, identifiers: Seq<Ident>) -> bool {
    &&& t.points.timestamps.len() > 0
    &&& t.points.values.len() == 1
    &&& t.points.values[0].values is Integer || t.points.values[0].values is Double
    &&& t.points.values[0].metric_type != MetricType::Cumulative
    &&& forall|j: int|
        0 <= j < identifiers.len() ==> exists|f: int|
            0 <= f < t.fields.len() && (#[trigger] t.fields[f]).name@ == (
            #[trigger] identifiers[j]).0@
}

proof fn nothing_is_missing(fields: Seq<Field>, identifiers: Seq<Ident>, from: int)
    requires
        0 <= from,
    ensures
        crate::oxql::group_by::first_missing(fields, identifiers, from) is None <==> forall|j: int|
            from <= j < identifiers.len() ==> has_field(fields, (#[trigger] identifiers[j]).0@),
    decreases identifiers.len() - from,
{
    if from < identifiers.len() {
        nothing_is_missing(fields, identifiers, from + 1);
    }
}

/// A timeseries is refused exactly where it cannot be grouped by itself.
pub proof fn refused_timeseries_cannot_be_grouped(t: TimeseriesView, identifiers: Seq<Ident>)
    ensures
        ungroupable(t, identifiers) is None <==> can_be_grouped(t, identifiers),
        t.points.timestamps.len() == 0 ==> ungroupable(t, identifiers) == Some(
            Error::EmptyTimeseries,
        ),
        t.points.timestamps.len() > 0 && t.points.values.len() != 1 ==> ungroupable(t, identifiers)
            == Some(Error::MultidimensionalGroup),
        ungroupable(t, identifiers) matches Some(Error::MissingField { name }) ==> forall|f: int|
            0 <= f < t.fields.len() ==> (#[trigger] t.fields[f]).name@ != name@,
{
    nothing_is_missing(t.fields, identifiers, 0);
    missing_is_missing(t.fields, identifiers, 0);
    if ungroupable(t, identifiers) is None {
        assert forall|j: int| 0 <= j < identifiers.len() implies exists|f: int|
            0 <= f < t.fields.len() && (#[trigger] t.fields[f]).name@ == (
            #[trigger] identifiers[j]).0@ by {
            assert(has_field(t.fields, identifiers[j].0@));
        }
    }
    if can_be_grouped(t, identifiers) {
        assert forall|j: int| 0 <= j < identifiers.len() implies has_field(
            t.fields,
            (#[trigger] identifiers[j]).0@,
        ) by {
            let f = choose|f: int|
                0 <= f < t.fields.len() && (#[trigger] t.fields[f]).name@ == identifiers[j].0@;
            assert(t.fields[f].name@ == identifiers[j].0@);
        }
    }
}

proof fn missing_is_missing(fields: Seq<Field>, identifiers: Seq<Ident>, from: int)
    ensures
        crate::oxql::group_by::first_missing(fields, identifiers, from) matches Some(ident)
            ==> !has_field(fields, ident.0@),
    decreases identifiers.len() - from,
{
    if 0 <= from < identifiers.len() {
        missing_is_missing(fields, identifiers, from + 1);
    }
}

/// Two timeseries fall into the same group, and have different numbers of points.
pub open spec fn do_not_fit(a: TimeseriesView, b: TimeseriesView, identifiers: Seq<Ident>) -> bool {
    same_fields(selected(a.fields, identifiers), selected(b.fields, identifiers))
        && a.points.timestamps.len() != b.points.timestamps.len()
}

/// Timeseries can be grouped together exactly where each of them can be grouped by itself, and those
/// that fall into the same group have the same number of points.
pub proof fn grouping_fails_only_for_cause(series: Seq<TimeseriesView>, identifiers: Seq<Ident>)
    ensures
        grouped(series, identifiers) is Ok <==> {
            &&& forall|i: int|
                0 <= i < series.len() ==> can_be_grouped(#[trigger] series[i], identifiers)
            &&& forall|i: int, j: int|
                0 <= i < j < series.len() ==> !do_not_fit(
                    #[trigger] series[i],
                    #[trigger] series[j],
                    identifiers,
                )
        },
    decreases series.len(),
{
    if series.len() > 0 {
        let rest = series.drop_last();
        let t = series.last();
        let n = series.len() - 1;
        assert(t == series[n]);
        grouping_fails_only_for_cause(rest, identifiers);
        refused_timeseries_cannot_be_grouped(t, identifiers);
        assert(forall|i: int| 0 <= i < rest.len() ==> #[trigger] rest[i] == series[i]);
        let key = selected(t.fields, identifiers);
        reveal(same_fields);
        if grouped(rest, identifiers) is Ok {
            let groups = grouped(rest, identifiers)->Ok_0;
            group_position_finds(groups, key, 0);
            if grouped(series, identifiers) is Ok {
                assert forall|i: int, j: int| 0 <= i < j < series.len() implies !do_not_fit(
                    #[trigger] series[i],
                    #[trigger] series[j],
                    identifiers,
                ) by {
                    if j < n {
                        assert(rest[i] == series[i] && rest[j] == series[j]);
                    } else if do_not_fit(series[i], t, identifiers) {
                        assert(rest[i] == series[i]);
                        fits_its_group(rest, identifiers, i);
                        let k = choose|k: int|
                            0 <= k < groups.len() && same_fields(
                                (#[trigger] groups[k]).fields,
                                selected(rest[i].fields, identifiers),
                            ) && groups[k].timestamps.len() == rest[i].points.timestamps.len();
                        assert(same_fields(groups[k].fields, key));
                        let p = group_position(groups, key, 0)->0;
                        if p != k {
                            if p < k {
                                crate::oxql::laws::groups_have_different_keys(
                                    rest,
                                    identifiers,
                                    p,
                                    k,
                                );
                            } else {
                                crate::oxql::laws::groups_have_different_keys(
                                    rest,
                                    identifiers,
                                    k,
                                    p,
                                );
                            }
                        }
                    }
                }
                assert forall|i: int| 0 <= i < series.len() implies can_be_grouped(
                    #[trigger] series[i],
                    identifiers,
                ) by {
                    if i < n {
                        assert(rest[i] == series[i]);
                    }
                }
            } else if can_be_grouped(t, identifiers) {
                let p = group_position(groups, key, 0)->0;
                groups_come_from_series(rest, identifiers, p);
                let i = choose|i: int| #[trigger] comes_from(groups[p], rest, identifiers, i);
                assert(rest[i] == series[i]);
                assert(do_not_fit(series[i], series[n], identifiers));
            }
        } else {
            if forall|i: int|
                0 <= i < series.len() ==> can_be_grouped(#[trigger] series[i], identifiers) {
                assert forall|i: int| 0 <= i < rest.len() implies can_be_grouped(
                    #[trigger] rest[i],
                    identifiers,
                ) by {
                    assert(rest[i] == series[i]);
                }
                let (i, j) = choose|i: int, j: int|
                    0 <= i < j < rest.len() && do_not_fit(
                        #[trigger] rest[i],
                        #[trigger] rest[j],
                        identifiers,
                    );
                assert(rest[i] == series[i] && rest[j] == series[j]);
            }
        }
    }
}

proof fn group_position_finds(groups: Seq<GroupView>, key: Seq<Field>, from: int)
    requires
        0 <= from,
    ensures
        match group_position(groups, key, from) {
            Some(k) => from <= k < groups.len() && same_fields(groups[k].fields, key),
            None => forall|k: int|
                from <= k < groups.len() ==> !same_fields((#[trigger] groups[k]).fields, key),
        },
    decreases groups.len() - from,
{
    if from < groups.len() && !same_fields(groups[from].fields, key) {
        group_position_finds(groups, key, from + 1);
    }
}

/// Every timeseries that was grouped has as many points as its group.
proof fn fits_its_group(series: Seq<TimeseriesView>, identifiers: Seq<Ident>, i: int)
    requires
        grouped(series, identifiers) is Ok,
        0 <= i < series.len(),
    ensures
        exists|k: int|
            0 <= k < grouped(series, identifiers)->Ok_0.len() && same_fields(
                (#[trigger] grouped(series, identifiers)->Ok_0[k]).fields,
                selected(series[i].fields, identifiers),
            ) && grouped(series, identifiers)->Ok_0[k].timestamps.len()
                == series[i].points.timestamps.len(),
    decreases series.len(),
{
    let rest = series.drop_last();
    let before = grouped(rest, identifiers)->Ok_0;
    let after = grouped(series, identifiers)->Ok_0;
    let key = selected(series.last().fields, identifiers);
    group_position_finds(before, key, 0);
    reveal(same_fields);
    if i < rest.len() {
        fits_its_group(rest, identifiers, i);
        let k = choose|k: int|
            0 <= k < before.len() && same_fields(
                (#[trigger] before[k]).fields,
                selected(rest[i].fields, identifiers),
            ) && before[k].timestamps.len() == rest[i].points.timestamps.len();
        assert(after[k].fields == before[k].fields);
        assert(after[k].timestamps == before[k].timestamps);
    } else {
        match group_position(before, key, 0) {
            Some(k) => assert(same_fields(after[k].fields, key)),
            None => assert(same_fields(after[before.len() as int].fields, key)),
        }
    }
}

/// A group has the key, the timestamps, the start times and the metric type of its first member.
pub proof fn groups_begin_with_their_first_member(
    series: Seq<TimeseriesView>,
    identifiers: Seq<Ident>,
    k: int,
)
    requires
        grouped(series, identifiers) is Ok,
        0 <= k < grouped(series, identifiers)->Ok_0.len(),
    ensures
        ({
            let group = grouped(series, identifiers)->Ok_0[k];
            let members = members_of(series, group.fields, identifiers);
            &&& members.len() > 0
            &&& group.fields == selected(members[0].fields, identifiers)
            &&& group.timestamps == members[0].points.timestamps
            &&& group.start_times == members[0].points.start_times
            &&& group.metric_type == members[0].points.values[0].metric_type
        }),
    decreases series.len(),
{
    reveal(Seq::filter);
    let rest = series.drop_last();
    let t = series.last();
    let before = grouped(rest, identifiers)->Ok_0;
    let key = selected(t.fields, identifiers);
    let group = grouped(series, identifiers)->Ok_0[k];
    let members = members_of(series, group.fields, identifiers);
    let others = members_of(rest, group.fields, identifiers);
    group_position_finds(before, key, 0);
    groups_hold_what_their_members_have(series, identifiers, k);
    if k < before.len() {
        groups_begin_with_their_first_member(rest, identifiers, k);
        assert(group.fields == before[k].fields);
        assert(members[0] == others[0]);
    } else {
        assert(group == single(t, key));
        assert(members.len() == 1);
        assert(members.last() == t) by {
            reveal(same_fields);
            let mine = |x: TimeseriesView| same_fields(group.fields, selected(x.fields, identifiers));
            assert(mine(t));
        }
        assert(members[0] == members.last());
    }
}

/// One number adds up to itself: an integer converted, and a double as it is.
pub proof fn one_number_is_its_own_sum<C: Fn(i64) -> Double, A: Fn(Double, Double) -> Double>(
    to_double: C,
    plus: A,
    n: Number,
    sum: Double,
)
    ensures
        adds_up(to_double, plus, seq![n], sum) <==> match n {
            Number::Integer(i) => call_ensures(to_double, (i,), sum),
            Number::Double(d) => sum == d,
        },
{
    let one = seq![n];
    if adds_up(to_double, plus, one, sum) {
        let (terms, sums) = choose|terms: Seq<Double>, sums: Seq<Double>| #[trigger]
            is_addition(to_double, plus, one, terms, sums) && sums.last() == sum;
        assert(converts(to_double, one[0], terms[0]));
    }
    if converts(to_double, n, sum) {
        assert(is_addition(to_double, plus, one, seq![sum], seq![sum]));
    }
}

/// One more number is added to what the numbers before it add up to.
pub proof fn sums_grow_by_the_next_number<C: Fn(i64) -> Double, A: Fn(Double, Double) -> Double>(
    to_double: C,
    plus: A,
    numbers: Seq<Number>,
    n: Number,
    sum: Double,
)
    requires
        numbers.len() > 0,
        adds_up(to_double, plus, numbers.push(n), sum),
    ensures
        exists|before: Double, term: Double| #[trigger]
            call_ensures(plus, (before, term), sum) && adds_up(to_double, plus, numbers, before)
                && match n {
                Number::Integer(i) => call_ensures(to_double, (i,), term),
                Number::Double(d) => term == d,
            },
{
    let all = numbers.push(n);
    let (terms, sums) = choose|terms: Seq<Double>, sums: Seq<Double>| #[trigger]
        is_addition(to_double, plus, all, terms, sums) && sums.last() == sum;
    let k = numbers.len() as int;
    let few = terms.drop_last();
    let some = sums.drop_last();
    assert(adds_at(plus, terms, sums, k));
    assert(converts(to_double, all[k], terms[k]));
    assert forall|j: int| 0 <= j < numbers.len() implies converts(
        to_double,
        #[trigger] numbers[j],
        few[j],
    ) by {
        assert(all[j] == numbers[j]);
    }
    assert forall|j: int| 1 <= j < numbers.len() implies #[trigger] adds_at(plus, few, some, j) by {
        assert(adds_at(plus, terms, sums, j));
    }
    assert(is_addition(to_double, plus, numbers, few, some));
    assert(call_ensures(plus, (sums[k - 1], terms[k]), sum));
}

/// A group is reduced to a timeseries with its fields and its timestamps. At each of its points there
/// is a value exactly where the group has numbers: for sums what they add up to, and for means that
/// divided by the number of all members.
pub proof fn groups_are_reduced_point_by_point<
    C: Fn(i64) -> Double,
    A: Fn(Double, Double) -> Double,
    D: Fn(Double, u64) -> Double,
>(
    to_double: C,
    plus: A,
    divide: D,
    reducer: Reducer,
    group: GroupView,
    series: TimeseriesView,
    i: int,
)
    requires
        reduces_to(to_double, plus, divide, reducer, group, series),
        0 <= i < group.addends.len(),
    ensures
        series.fields == group.fields,
        series.points.timestamps == group.timestamps,
        series.points.start_times == group.start_times,
        series.points.values.len() == 1,
        series.points.values[0].metric_type == group.metric_type,
        series.points.values[0].values is Double,
        series.points.values[0].values->Double_0.len() == group.addends.len(),
        ({
            let value = series.points.values[0].values->Double_0[i];
            &&& value is Some <==> group.addends[i].len() > 0
            &&& value matches Some(v) ==> {
                &&& reducer == Reducer::Sum ==> adds_up(to_double, plus, group.addends[i], v)
                &&& reducer == Reducer::Mean ==> exists|sum: Double| #[trigger]
                    adds_up(to_double, plus, group.addends[i], sum) && call_ensures(
                        divide,
                        (sum, group.count as u64),
                        v,
                    )
            }
        }),
{
    let value = series.points.values[0].values->Double_0[i];
    assert(is_value(to_double, plus, divide, reducer, group.addends[i], group.count, value));
}

} // verus!
