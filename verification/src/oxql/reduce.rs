//! How the numbers of a group are reduced to the values of its points.
//!
//! What it is to add and to divide doubles is given from outside. Which of them are added, in which
//! order, and what the sums are divided by is decided here.

use vstd::prelude::*;

use crate::oxql::ast::{Double, Ident};
use crate::oxql::group_by::{grouped, number_at, Group, GroupView, GroupedTable, Number, Reducer};
use crate::oxql::laws::{groups_hold_what_their_members_have, members_of, numbers_at};
use crate::oxql::point::{copied, Points, ValueArray, ValueArrayView, Values};
use crate::oxql::table::{copied_fields, Table, Timeseries, TimeseriesView};

verus! {

/// The double is one to which the number is converted. A double stays what it is.
pub open spec fn converts<C: Fn(i64) -> Double>(to_double: C, n: Number, d: Double) -> bool {
    match n {
        Number::Integer(i) => call_ensures(to_double, (i,), d),
        Number::Double(x) => d == x,
    }
}

/// The addition at a place: the sum up to the number before, and the number, converted, add up to the
/// sum up to here.
pub open spec fn adds_at<A: Fn(Double, Double) -> Double>(
    plus: A,
    terms: Seq<Double>,
    sums: Seq<Double>,
    k: int,
) -> bool {
    call_ensures(plus, (sums[k - 1], terms[k]), sums[k])
}

/// The numbers are converted to the terms, and these are added from the first to the last, which gives
/// one sum after the other.
pub open spec fn is_addition<C: Fn(i64) -> Double, A: Fn(Double, Double) -> Double>(
    to_double: C,
    plus: A,
    numbers: Seq<Number>,
    terms: Seq<Double>,
    sums: Seq<Double>,
) -> bool {
    &&& terms.len() == numbers.len()
    &&& sums.len() == numbers.len()
    &&& numbers.len() > 0 ==> sums[0] == terms[0]
    &&& forall|k: int|
        0 <= k < numbers.len() ==> converts(to_double, #[trigger] numbers[k], terms[k])
    &&& forall|k: int| 1 <= k < numbers.len() ==> #[trigger] adds_at(plus, terms, sums, k)
}

/// The numbers add up to the sum, where they are converted and then added from the first to the
/// last.
pub open spec fn adds_up<C: Fn(i64) -> Double, A: Fn(Double, Double) -> Double>(
    to_double: C,
    plus: A,
    numbers: Seq<Number>,
    sum: Double,
) -> bool {
    numbers.len() > 0 && exists|terms: Seq<Double>, sums: Seq<Double>| #[trigger]
        is_addition(to_double, plus, numbers, terms, sums) && sums.last() == sum
}

/// The value of a point is the sum of its numbers, or that sum divided by the number of timeseries in
/// the group. There is none where there is no number.
pub open spec fn is_value<
    C: Fn(i64) -> Double,
    A: Fn(Double, Double) -> Double,
    D: Fn(Double, u64) -> Double,
>(
    to_double: C,
    plus: A,
    divide: D,
    reducer: Reducer,
    numbers: Seq<Number>,
    count: nat,
    value: Option<Double>,
) -> bool {
    match value {
        None => numbers.len() == 0,
        Some(v) => match reducer {
            Reducer::Sum => adds_up(to_double, plus, numbers, v),
            Reducer::Mean => exists|sum: Double| #[trigger]
                adds_up(to_double, plus, numbers, sum) && call_ensures(
                    divide,
                    (sum, count as u64),
                    v,
                ),
        },
    }
}

/// The timeseries is what a group is reduced to.
pub open spec fn reduces_to<
    C: Fn(i64) -> Double,
    A: Fn(Double, Double) -> Double,
    D: Fn(Double, u64) -> Double,
>(
    to_double: C,
    plus: A,
    divide: D,
    reducer: Reducer,
    group: GroupView,
    series: TimeseriesView,
) -> bool {
    &&& series.fields == group.fields
    &&& series.points.start_times == group.start_times
    &&& series.points.timestamps == group.timestamps
    &&& series.points.values.len() == 1
    &&& series.points.values[0].metric_type == group.metric_type
    &&& series.points.values[0].values matches ValueArrayView::Double(values) && values.len()
        == group.addends.len() && forall|i: int|
        0 <= i < values.len() ==> is_value(
            to_double,
            plus,
            divide,
            reducer,
            group.addends[i],
            group.count,
            #[trigger] values[i],
        )
}

fn converted<C: Fn(i64) -> Double>(to_double: &C, n: Number) -> (d: Double)
    requires
        forall|i: i64| call_requires(*to_double, (i,)),
    ensures
        converts(*to_double, n, d),
{
    match n {
        Number::Integer(i) => to_double(i),
        Number::Double(x) => x,
    }
}

fn sum_of<C: Fn(i64) -> Double, A: Fn(Double, Double) -> Double>(
    to_double: &C,
    plus: &A,
    numbers: &Vec<Number>,
) -> (sum: Option<Double>)
    requires
        forall|i: i64| call_requires(*to_double, (i,)),
        forall|a: Double, b: Double| call_requires(*plus, (a, b)),
    ensures
        match sum {
            Some(sum) => adds_up(*to_double, *plus, numbers@, sum),
            None => numbers@.len() == 0,
        },
{
    if numbers.len() == 0 {
        return None;
    }
    let mut sum = converted(to_double, numbers[0]);
    let ghost mut terms = seq![sum];
    let ghost mut sums = seq![sum];
    let mut i: usize = 1;
    while i < numbers.len()
        invariant
            1 <= i <= numbers@.len(),
            forall|i: i64| call_requires(*to_double, (i,)),
            forall|a: Double, b: Double| call_requires(*plus, (a, b)),
            is_addition(*to_double, *plus, numbers@.take(i as int), terms, sums),
            sums.last() == sum,
        decreases numbers@.len() - i,
    {
        let term = converted(to_double, numbers[i]);
        let ghost before = (terms, sums);
        sum = plus(sum, term);
        proof {
            terms = terms.push(term);
            sums = sums.push(sum);
            let fewer = numbers@.take(i as int);
            let more = numbers@.take(i + 1);
            assert forall|k: int| 0 <= k < more.len() implies converts(
                *to_double,
                #[trigger] more[k],
                terms[k],
            ) by {
                if k < i {
                    assert(more[k] == fewer[k]);
                }
            }
            assert forall|k: int| 1 <= k < more.len() implies #[trigger] adds_at(
                *plus,
                terms,
                sums,
                k,
            ) by {
                if k < i {
                    assert(adds_at(*plus, before.0, before.1, k));
                }
            }
        }
        i = i + 1;
    }
    assert(numbers@.take(i as int) =~= numbers@);
    Some(sum)
}

fn reduced<
    C: Fn(i64) -> Double,
    A: Fn(Double, Double) -> Double,
    D: Fn(Double, u64) -> Double,
>(to_double: &C, plus: &A, divide: &D, reducer: Reducer, group: &Group) -> (series: Timeseries)
    requires
        forall|i: i64| call_requires(*to_double, (i,)),
        forall|a: Double, b: Double| call_requires(*plus, (a, b)),
        forall|a: Double, n: u64| call_requires(*divide, (a, n)),
    ensures
        reduces_to(*to_double, *plus, *divide, reducer, group@, series@),
{
    let mut values: Vec<Option<Double>> = Vec::new();
    let mut i: usize = 0;
    while i < group.addends.len()
        invariant
            i <= group.addends@.len(),
            values@.len() == i,
            forall|i: i64| call_requires(*to_double, (i,)),
            forall|a: Double, b: Double| call_requires(*plus, (a, b)),
            forall|a: Double, n: u64| call_requires(*divide, (a, n)),
            forall|k: int|
                0 <= k < i ==> is_value(
                    *to_double,
                    *plus,
                    *divide,
                    reducer,
                    group@.addends[k],
                    group@.count,
                    #[trigger] values@[k],
                ),
        decreases group.addends@.len() - i,
    {
        assert(group@.addends[i as int] == group.addends@[i as int]@);
        let value = match sum_of(to_double, plus, &group.addends[i]) {
            Some(sum) => match reducer {
                Reducer::Sum => Some(sum),
                Reducer::Mean => Some(divide(sum, group.count)),
            },
            None => None,
        };
        values.push(value);
        i = i + 1;
    }
    let mut columns: Vec<Values> = Vec::new();
    columns.push(Values { values: ValueArray::Double(values), metric_type: group.metric_type });
    let start_times = match &group.start_times {
        Some(times) => Some(copied(times)),
        None => None,
    };
    let series = Timeseries {
        fields: copied_fields(&group.fields),
        points: Points { start_times, timestamps: copied(&group.timestamps), values: columns },
    };
    proof {
        assert(series@.points.values[0] == columns@[0]@);
    }
    series
}

/// Reduces the groups of a table to timeseries, where the operations on doubles are these: to convert
/// an integer, to add two, and to divide one by a count.
pub fn reduce<
    C: Fn(i64) -> Double,
    A: Fn(Double, Double) -> Double,
    D: Fn(Double, u64) -> Double,
>(grouped: &GroupedTable, to_double: C, plus: A, divide: D) -> (table: Table)
    requires
        forall|i: i64| call_requires(to_double, (i,)),
        forall|a: Double, b: Double| call_requires(plus, (a, b)),
        forall|a: Double, n: u64| call_requires(divide, (a, n)),
    ensures
        table@.name == grouped.name@,
        table@.timeseries.len() == grouped.groups@.len(),
        forall|k: int|
            0 <= k < grouped.groups@.len() ==> reduces_to(
                to_double,
                plus,
                divide,
                grouped.reducer,
                grouped.groups@[k]@,
                #[trigger] table@.timeseries[k],
            ),
{
    let mut timeseries: Vec<Timeseries> = Vec::new();
    let mut i: usize = 0;
    while i < grouped.groups.len()
        invariant
            i <= grouped.groups@.len(),
            timeseries@.len() == i,
            forall|i: i64| call_requires(to_double, (i,)),
            forall|a: Double, b: Double| call_requires(plus, (a, b)),
            forall|a: Double, n: u64| call_requires(divide, (a, n)),
            forall|k: int|
                0 <= k < i ==> reduces_to(
                    to_double,
                    plus,
                    divide,
                    grouped.reducer,
                    grouped.groups@[k]@,
                    (#[trigger] timeseries@[k])@,
                ),
        decreases grouped.groups@.len() - i,
    {
        timeseries.push(reduced(&to_double, &plus, &divide, grouped.reducer, &grouped.groups[i]));
        i = i + 1;
    }
    let table = Table { name: grouped.name.clone(), timeseries };
    proof {
        assert forall|k: int| 0 <= k < grouped.groups@.len() implies reduces_to(
            to_double,
            plus,
            divide,
            grouped.reducer,
            grouped.groups@[k]@,
            #[trigger] table@.timeseries[k],
        ) by {
            assert(table@.timeseries[k] == timeseries@[k]@);
        }
    }
    table
}

/// The same numbers are always converted and added to the same.
pub open spec fn deterministic<C: Fn(i64) -> Double, A: Fn(Double, Double) -> Double>(
    to_double: C,
    plus: A,
) -> bool {
    &&& forall|i: i64, x: Double, y: Double| #[trigger]
        call_ensures(to_double, (i,), x) && #[trigger] call_ensures(to_double, (i,), y) ==> x == y
    &&& forall|a: Double, b: Double, x: Double, y: Double| #[trigger]
        call_ensures(plus, (a, b), x) && #[trigger] call_ensures(plus, (a, b), y) ==> x == y
}

proof fn sums_agree_at<C: Fn(i64) -> Double, A: Fn(Double, Double) -> Double>(
    to_double: C,
    plus: A,
    numbers: Seq<Number>,
    a: (Seq<Double>, Seq<Double>),
    b: (Seq<Double>, Seq<Double>),
    k: int,
)
    requires
        deterministic(to_double, plus),
        is_addition(to_double, plus, numbers, a.0, a.1),
        is_addition(to_double, plus, numbers, b.0, b.1),
        0 <= k < numbers.len(),
    ensures
        a.1[k] == b.1[k],
    decreases k,
{
    assert(converts(to_double, numbers[k], a.0[k]) && converts(to_double, numbers[k], b.0[k]));
    if k > 0 {
        sums_agree_at(to_double, plus, numbers, a, b, k - 1);
        assert(adds_at(plus, a.0, a.1, k) && adds_at(plus, b.0, b.1, k));
    }
}

proof fn sums_are_unique<C: Fn(i64) -> Double, A: Fn(Double, Double) -> Double>(
    to_double: C,
    plus: A,
    numbers: Seq<Number>,
    x: Double,
    y: Double,
)
    requires
        deterministic(to_double, plus),
        adds_up(to_double, plus, numbers, x),
        adds_up(to_double, plus, numbers, y),
    ensures
        x == y,
{
    let a = choose|terms: Seq<Double>, sums: Seq<Double>| #[trigger]
        is_addition(to_double, plus, numbers, terms, sums) && sums.last() == x;
    let b = choose|terms: Seq<Double>, sums: Seq<Double>| #[trigger]
        is_addition(to_double, plus, numbers, terms, sums) && sums.last() == y;
    sums_agree_at(to_double, plus, numbers, a, b, numbers.len() - 1);
}

/// The same sum is always divided by the same count to the same.
pub open spec fn divides_alike<D: Fn(Double, u64) -> Double>(divide: D) -> bool {
    forall|a: Double, n: u64, x: Double, y: Double| #[trigger]
        call_ensures(divide, (a, n), x) && #[trigger] call_ensures(divide, (a, n), y) ==> x == y
}

proof fn values_are_unique<
    C: Fn(i64) -> Double,
    A: Fn(Double, Double) -> Double,
    D: Fn(Double, u64) -> Double,
>(
    to_double: C,
    plus: A,
    divide: D,
    reducer: Reducer,
    numbers: Seq<Number>,
    count: nat,
    x: Option<Double>,
    y: Option<Double>,
)
    requires
        deterministic(to_double, plus),
        divides_alike(divide),
        is_value(to_double, plus, divide, reducer, numbers, count, x),
        is_value(to_double, plus, divide, reducer, numbers, count, y),
    ensures
        x == y,
{
    match (x, y) {
        (Some(v), Some(w)) => match reducer {
            Reducer::Sum => sums_are_unique(to_double, plus, numbers, v, w),
            Reducer::Mean => {
                let a = choose|sum: Double| #[trigger]
                    adds_up(to_double, plus, numbers, sum) && call_ensures(
                        divide,
                        (sum, count as u64),
                        v,
                    );
                let b = choose|sum: Double| #[trigger]
                    adds_up(to_double, plus, numbers, sum) && call_ensures(
                        divide,
                        (sum, count as u64),
                        w,
                    );
                sums_are_unique(to_double, plus, numbers, a, b);
            },
        },
        _ => {},
    }
}

/// A group is reduced to one timeseries only, where converting, adding and dividing the same always
/// gives the same.
pub proof fn reduction_is_unique<
    C: Fn(i64) -> Double,
    A: Fn(Double, Double) -> Double,
    D: Fn(Double, u64) -> Double,
>(
    to_double: C,
    plus: A,
    divide: D,
    reducer: Reducer,
    group: GroupView,
    a: TimeseriesView,
    b: TimeseriesView,
)
    requires
        deterministic(to_double, plus),
        divides_alike(divide),
        reduces_to(to_double, plus, divide, reducer, group, a),
        reduces_to(to_double, plus, divide, reducer, group, b),
    ensures
        a == b,
{
    let x = a.points.values[0].values->Double_0;
    let y = b.points.values[0].values->Double_0;
    assert forall|i: int| 0 <= i < x.len() implies x[i] == y[i] by {
        values_are_unique(
            to_double,
            plus,
            divide,
            reducer,
            group.addends[i],
            group.count,
            x[i],
            y[i],
        );
    }
    assert(x =~= y);
    assert(a.points.values =~= b.points.values);
}

/// What sums and means of the same timeseries have to do with each other, whatever it is to add and
/// to divide. At each point of each group there is a sum, and a mean, if and only if some member of
/// the group has a number there. The sum is that of the numbers which the members have, and the mean
/// is the sum divided by the number of all members, those without a number there too.
pub proof fn means_are_sums_over_all_members<
    C: Fn(i64) -> Double,
    A: Fn(Double, Double) -> Double,
    D: Fn(Double, u64) -> Double,
>(
    to_double: C,
    plus: A,
    divide: D,
    series: Seq<TimeseriesView>,
    identifiers: Seq<Ident>,
    k: int,
    sums: TimeseriesView,
    means: TimeseriesView,
    i: int,
)
    requires
        grouped(series, identifiers) is Ok,
        0 <= k < grouped(series, identifiers)->Ok_0.len(),
        reduces_to(
            to_double,
            plus,
            divide,
            Reducer::Sum,
            grouped(series, identifiers)->Ok_0[k],
            sums,
        ),
        reduces_to(
            to_double,
            plus,
            divide,
            Reducer::Mean,
            grouped(series, identifiers)->Ok_0[k],
            means,
        ),
        deterministic(to_double, plus),
        0 <= i < sums.points.timestamps.len(),
    ensures
        sums.fields == means.fields,
        sums.points.timestamps == means.points.timestamps,
        ({
            let members = members_of(series, sums.fields, identifiers);
            let sum = sums.points.values[0].values->Double_0[i];
            let mean = means.points.values[0].values->Double_0[i];
            &&& sum is None <==> forall|j: int|
                0 <= j < members.len() ==> number_at(
                    (#[trigger] members[j]).points.values[0].values,
                    i,
                ) is None
            &&& mean is None <==> sum is None
            &&& sum matches Some(s) ==> adds_up(to_double, plus, numbers_at(members, i), s)
                && call_ensures(divide, (s, members.len() as u64), mean->0)
        }),
{
    let group = grouped(series, identifiers)->Ok_0[k];
    groups_hold_what_their_members_have(series, identifiers, k);
    let sum = sums.points.values[0].values->Double_0[i];
    let mean = means.points.values[0].values->Double_0[i];
    assert(is_value(to_double, plus, divide, Reducer::Sum, group.addends[i], group.count, sum));
    assert(is_value(to_double, plus, divide, Reducer::Mean, group.addends[i], group.count, mean));
    match (sum, mean) {
        (Some(s), Some(m)) => {
            let t = choose|t: Double| #[trigger]
                adds_up(to_double, plus, group.addends[i], t) && call_ensures(
                    divide,
                    (t, group.count as u64),
                    m,
                );
            sums_are_unique(to_double, plus, group.addends[i], s, t);
        },
        _ => {},
    }
}

} // verus!
