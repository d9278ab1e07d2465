//! The `group_by` table operation.

use vstd::prelude::*;

use crate::oxql::ast::{Double, Ident};
use crate::oxql::point::{copied, DataType, MetricType, ValueArray, ValueArrayView};
use crate::oxql::table::{fields_equal, same_fields, Field, Table, TimeseriesView, Timeseries};
use crate::oxql::Error;
use crate::text::str_eq;
use crate::time::Timestamp;

verus! {

/// How the values of a group are reduced to one.
#[derive(Debug, Clone, Copy, PartialEq, Eq, Structural)]
pub enum Reducer {
    Mean,
    Sum,
}

impl Default for Reducer {
    fn default() -> (r: Self)
        ensures
            r == Reducer::Mean,
    {
        Reducer::Mean
    }
}

/// Groups timeseries by fields, and reduces the values of each group.
#[derive(Debug, PartialEq)]
pub struct GroupBy {
    pub identifiers: Vec<Ident>,
    pub reducer: Reducer,
}

/// A number to be added up.
#[derive(Debug, Clone, Copy, PartialEq, Eq, Structural)]
pub enum Number {
    Integer(i64),
    Double(Double),
}

/// The timeseries of one group, taken together: for each point the numbers to be added up, in the
/// order of their timeseries, and for a mean the number of timeseries to divide the sum by. A point
/// without numbers has no value.
#[derive(Debug, PartialEq)]
pub struct Group {
    pub fields: Vec<Field>,
    pub start_times: Option<Vec<Timestamp>>,
    pub timestamps: Vec<Timestamp>,
    pub metric_type: MetricType,
    pub addends: Vec<Vec<Number>>,
    pub count: u64,
}

/// What a group holds.
#[verifier::ext_equal]
pub ghost struct GroupView {
    pub fields: Seq<Field>,
    pub start_times: Option<Seq<Timestamp>>,
    pub timestamps: Seq<Timestamp>,
    pub metric_type: MetricType,
    pub addends: Seq<Seq<Number>>,
    pub count: nat,
}

impl View for Group {
    type V = GroupView;

    open spec fn view(&self) -> GroupView {
        GroupView {
            fields: self.fields@,
            start_times: match self.start_times {
                Some(v) => Some(v@),
                None => None,
            },
            timestamps: self.timestamps@,
            metric_type: self.metric_type,
            addends: self.addends@.map_values(|v: Vec<Number>| v@),
            count: self.count as nat,
        }
    }
}

/// What the groups hold.
pub open spec fn group_views(groups: Seq<Group>) -> Seq<GroupView> {
    groups.map_values(|g: Group| g@)
}

/// The groups of a table, with the way to reduce each point's numbers to its value.
#[derive(Debug, PartialEq)]
pub struct GroupedTable {
    pub name: String,
    pub reducer: Reducer,
    pub groups: Vec<Group>,
}

/// The name is among the identifiers.
pub open spec fn listed(identifiers: Seq<Ident>, name: Seq<char>) -> bool {
    exists|i: int| 0 <= i < identifiers.len() && (#[trigger] identifiers[i]).0@ == name
}

/// The fields whose names are listed.
pub open spec fn selected(fields: Seq<Field>, identifiers: Seq<Ident>) -> Seq<Field>
    decreases fields.len(),
{
    if fields.len() == 0 {
        Seq::empty()
    } else {
        let rest = selected(fields.drop_last(), identifiers);
        if listed(identifiers, fields.last().name@) {
            rest.push(fields.last())
        } else {
            rest
        }
    }
}

/// A field has the name.
pub open spec fn has_field(fields: Seq<Field>, name: Seq<char>) -> bool {
    exists|i: int| 0 <= i < fields.len() && (#[trigger] fields[i]).name@ == name
}

/// The first identifier, at `from` or after, that names no field.
pub open spec fn first_missing(fields: Seq<Field>, identifiers: Seq<Ident>, from: int) -> Option<
    Ident,
>
    decreases identifiers.len() - from,
{
    if from < 0 || from >= identifiers.len() {
        None
    } else if !has_field(fields, identifiers[from].0@) {
        Some(identifiers[from])
    } else {
        first_missing(fields, identifiers, from + 1)
    }
}

/// The number at a place of a column, if there is one.
pub open spec fn number_at(values: ValueArrayView, i: int) -> Option<Number> {
    match values {
        ValueArrayView::Integer(s) => match s[i] {
            Some(n) => Some(Number::Integer(n)),
            None => None,
        },
        ValueArrayView::Double(s) => match s[i] {
            Some(d) => Some(Number::Double(d)),
            None => None,
        },
        _ => None,
    }
}

/// The numbers, and one more where there is one.
pub open spec fn with_number(numbers: Seq<Number>, more: Option<Number>) -> Seq<Number> {
    match more {
        Some(n) => numbers.push(n),
        None => numbers,
    }
}

/// The place of the first group with the key, at `from` or after.
pub open spec fn group_position(groups: Seq<GroupView>, fields: Seq<Field>, from: int) -> Option<
    int,
>
    decreases groups.len() - from,
{
    if from < 0 || from >= groups.len() {
        None
    } else if same_fields(groups[from].fields, fields) {
        Some(from)
    } else {
        group_position(groups, fields, from + 1)
    }
}

/// A group of one timeseries.
pub open spec fn single(series: TimeseriesView, fields: Seq<Field>) -> GroupView {
    GroupView {
        fields,
        start_times: series.points.start_times,
        timestamps: series.points.timestamps,
        metric_type: series.points.values[0].metric_type,
        addends: Seq::new(
            series.points.timestamps.len(),
            |i: int| with_number(Seq::empty(), number_at(series.points.values[0].values, i)),
        ),
        count: 1,
    }
}

/// The group with one more timeseries.
pub open spec fn extended(group: GroupView, series: TimeseriesView) -> GroupView {
    GroupView {
        addends: Seq::new(
            group.addends.len(),
            |i: int| with_number(group.addends[i], number_at(series.points.values[0].values, i)),
        ),
        count: group.count + 1,
        ..group
    }
}

/// Why a timeseries cannot be grouped, if it cannot.
pub open spec fn ungroupable(series: TimeseriesView, identifiers: Seq<Ident>) -> Option<Error> {
    if series.points.timestamps.len() == 0 {
        Some(Error::EmptyTimeseries)
    } else if series.points.values.len() != 1 {
        Some(Error::MultidimensionalGroup)
    } else if series.points.values[0].values.kind() != DataType::Integer
        && series.points.values[0].values.kind() != DataType::Double {
        Some(Error::NonNumericGroup { values: series.points.values[0].values.kind() })
    } else if series.points.values[0].metric_type == MetricType::Cumulative {
        Some(Error::CumulativeGroup)
    } else {
        match first_missing(series.fields, identifiers, 0) {
            Some(ident) => Some(Error::MissingField { name: ident.0 }),
            None => None,
        }
    }
}

/// The groups with one more timeseries.
pub open spec fn with_series(
    groups: Seq<GroupView>,
    series: TimeseriesView,
    identifiers: Seq<Ident>,
) -> Result<Seq<GroupView>, Error> {
    match ungroupable(series, identifiers) {
        Some(e) => Err(e),
        None => {
            let key = selected(series.fields, identifiers);
            match group_position(groups, key, 0) {
                Some(k) => if groups[k].timestamps.len() != series.points.timestamps.len() {
                    Err(Error::DifferentPointCounts)
                } else {
                    Ok(groups.update(k, extended(groups[k], series)))
                },
                None => Ok(groups.push(single(series, key))),
            }
        },
    }
}

/// The groups of these timeseries, or the first error.
pub open spec fn grouped(series: Seq<TimeseriesView>, identifiers: Seq<Ident>) -> Result<
    Seq<GroupView>,
    Error,
>
    decreases series.len(),
{
    if series.len() == 0 {
        Ok(Seq::empty())
    } else {
        match grouped(series.drop_last(), identifiers) {
            Ok(groups) => with_series(groups, series.last(), identifiers),
            Err(e) => Err(e),
        }
    }
}

/// Every group has one list of numbers for each timestamp, and was made of no more timeseries than
/// there are.
spec fn groups_fit(groups: Seq<GroupView>, n: nat) -> bool {
    forall|i: int|
        0 <= i < groups.len() ==> (#[trigger] groups[i]).addends.len() == groups[i].timestamps.len()
            && groups[i].count <= n
}

/// Whether the name is among the identifiers.
pub(crate) fn is_listed(identifiers: &[Ident], name: &str) -> (yes: bool)
    ensures
        yes == listed(identifiers@, name@),
{
    let mut i: usize = 0;
    while i < identifiers.len()
        invariant
            i <= identifiers@.len(),
            forall|k: int| 0 <= k < i ==> (#[trigger] identifiers@[k]).0@ != name@,
        decreases identifiers@.len() - i,
    {
        if str_eq(identifiers[i].as_str(), name) {
            assert(identifiers@[i as int].0@ == name@);
            return true;
        }
        i = i + 1;
    }
    false
}

fn names_field(fields: &Vec<Field>, name: &str) -> (yes: bool)
    ensures
        yes == has_field(fields@, name@),
{
    let mut i: usize = 0;
    while i < fields.len()
        invariant
            i <= fields@.len(),
            forall|k: int| 0 <= k < i ==> (#[trigger] fields@[k]).name@ != name@,
        decreases fields@.len() - i,
    {
        if str_eq(fields[i].name.as_str(), name) {
            assert(fields@[i as int].name@ == name@);
            return true;
        }
        i = i + 1;
    }
    false
}

/// Copies the listed fields. All identifiers have to name fields.
fn select_fields(fields: &Vec<Field>, identifiers: &Vec<Ident>) -> (r: Result<Vec<Field>, Error>)
    ensures
        match r {
            Ok(key) => first_missing(fields@, identifiers@, 0) is None && key@ == selected(
                fields@,
                identifiers@,
            ),
            Err(e) => first_missing(fields@, identifiers@, 0) matches Some(ident) && e
                == (Error::MissingField { name: ident.0 }),
        },
{
    let mut i: usize = 0;
    while i < identifiers.len()
        invariant
            i <= identifiers@.len(),
            first_missing(fields@, identifiers@, i as int) == first_missing(
                fields@,
                identifiers@,
                0,
            ),
        decreases identifiers@.len() - i,
    {
        if !names_field(fields, identifiers[i].as_str()) {
            return Err(Error::MissingField { name: identifiers[i].0.clone() });
        }
        i = i + 1;
    }
    let mut key: Vec<Field> = Vec::new();
    let mut j: usize = 0;
    while j < fields.len()
        invariant
            j <= fields@.len(),
            key@ == selected(fields@.take(j as int), identifiers@),
        decreases fields@.len() - j,
    {
        proof {
            assert(fields@.take(j + 1).drop_last() =~= fields@.take(j as int));
        }
        if is_listed(identifiers.as_slice(), fields[j].name.as_str()) {
            key.push(fields[j].clone());
        }
        j = j + 1;
    }
    assert(fields@.take(fields@.len() as int) =~= fields@);
    Ok(key)
}

fn find_group(groups: &Vec<Group>, fields: &Vec<Field>) -> (r: Option<usize>)
    ensures
        match r {
            Some(k) => k < groups@.len() && group_position(group_views(groups@), fields@, 0)
                == Some(k as int),
            None => group_position(group_views(groups@), fields@, 0) is None,
        },
{
    let mut i: usize = 0;
    while i < groups.len()
        invariant
            i <= groups@.len(),
            group_position(group_views(groups@), fields@, i as int) == group_position(
                group_views(groups@),
                fields@,
                0,
            ),
        decreases groups@.len() - i,
    {
        assert(group_views(groups@)[i as int] == groups@[i as int]@);
        if fields_equal(&groups[i].fields, fields) {
            return Some(i);
        }
        i = i + 1;
    }
    None
}

fn get_number(values: &ValueArray, i: usize) -> (n: Option<Number>)
    requires
        i < values@.len(),
    ensures
        n == number_at(values@, i as int),
{
    match values {
        ValueArray::Integer(v) => match v[i] {
            Some(n) => Some(Number::Integer(n)),
            None => None,
        },
        ValueArray::Double(v) => match v[i] {
            Some(d) => Some(Number::Double(d)),
            None => None,
        },
        _ => None,
    }
}

/// Adds a column to the numbers of each point.
fn add_column(addends: &mut Vec<Vec<Number>>, values: &ValueArray)
    requires
        old(addends)@.len() == values@.len(),
    ensures
        final(addends)@.map_values(|v: Vec<Number>| v@) == Seq::new(
            old(addends)@.len(),
            |i: int| with_number(old(addends)@[i]@, number_at(values@, i)),
        ),
{
    let mut i: usize = 0;
    while i < addends.len()
        invariant
            i <= addends@.len() == old(addends)@.len() == values@.len(),
            forall|k: int|
                0 <= k < i ==> (#[trigger] addends@[k])@ == with_number(
                    old(addends)@[k]@,
                    number_at(values@, k),
                ),
            forall|k: int| i <= k < addends@.len() ==> addends@[k] == old(addends)@[k],
        decreases addends@.len() - i,
    {
        if let Some(n) = get_number(values, i) {
            addends[i].push(n);
        }
        i = i + 1;
    }
    assert(addends@.map_values(|v: Vec<Number>| v@) =~= Seq::new(
        old(addends)@.len(),
        |i: int| with_number(old(addends)@[i]@, number_at(values@, i)),
    ));
}

/// One list of numbers for each of a number of points.
fn no_addends(n: usize) -> (addends: Vec<Vec<Number>>)
    ensures
        addends@.len() == n,
        forall|i: int| 0 <= i < n ==> (#[trigger] addends@[i])@ == Seq::<Number>::empty(),
{
    let mut addends: Vec<Vec<Number>> = Vec::new();
    let mut i: usize = 0;
    while i < n
        invariant
            i <= n,
            addends@.len() == i,
            forall|k: int| 0 <= k < i ==> (#[trigger] addends@[k])@ == Seq::<Number>::empty(),
        decreases n - i,
    {
        addends.push(Vec::new());
        i = i + 1;
    }
    addends
}

/// Adds a timeseries to its group, or makes a group of it.
fn add_series(
    groups: &mut Vec<Group>,
    input: &Timeseries,
    identifiers: &Vec<Ident>,
    Ghost(n): Ghost<nat>,
) -> (r: Result<(), Error>)
    requires
        input@.well_formed(),
        groups_fit(group_views(old(groups)@), n),
        n < u64::MAX,
    ensures
        match r {
            Ok(_) => with_series(group_views(old(groups)@), input@, identifiers@) == Ok::<
                Seq<GroupView>,
                Error,
            >(group_views(final(groups)@)) && groups_fit(group_views(final(groups)@), n + 1),
            Err(e) => with_series(group_views(old(groups)@), input@, identifiers@) == Err::<
                Seq<GroupView>,
                Error,
            >(e),
        },
{
    if input.points.len() == 0 {
        return Err(Error::EmptyTimeseries);
    }
    if input.points.dimensionality() != 1 {
        return Err(Error::MultidimensionalGroup);
    }
    let column = &input.points.values[0];
    assert(input@.points.values[0] == column@);
    match column.values.data_type() {
        DataType::Integer | DataType::Double => {},
        values => {
            return Err(Error::NonNumericGroup { values });
        },
    }
    if column.metric_type == MetricType::Cumulative {
        return Err(Error::CumulativeGroup);
    }
    let key = match select_fields(&input.fields, identifiers) {
        Ok(key) => key,
        Err(e) => return Err(e),
    };
    let ghost before = group_views(groups@);
    match find_group(groups, &key) {
        Some(k) => {
            let ghost was = groups@;
            assert(before[k as int] == was[k as int]@);
            if groups[k].timestamps.len() != input.points.len() {
                return Err(Error::DifferentPointCounts);
            }
            let mut group = groups.remove(k);
            let ghost group_was = group;
            add_column(&mut group.addends, &column.values);
            group.count = group.count + 1;
            proof {
                assert(group@ =~= extended(group_was@, input@)) by {
                    assert(group@.addends =~= extended(group_was@, input@).addends);
                }
            }
            groups.insert(k, group);
            proof {
                assert(groups@ =~= was.update(k as int, group));
                assert(group_views(groups@) =~= before.update(
                    k as int,
                    extended(before[k as int], input@),
                ));
            }
        },
        None => {
            let mut addends = no_addends(input.points.len());
            add_column(&mut addends, &column.values);
            let group = Group {
                fields: key,
                start_times: match &input.points.start_times {
                    Some(v) => Some(copied(v)),
                    None => None,
                },
                timestamps: copied(&input.points.timestamps),
                metric_type: column.metric_type,
                addends,
                count: 1,
            };
            proof {
                assert(group@.addends =~= single(input@, key@).addends);
                assert(group@ =~= single(input@, key@));
            }
            groups.push(group);
            assert(group_views(groups@) =~= before.push(group@));
        },
    }
    Ok(())
}

proof fn grouping_error_stands(series: Seq<TimeseriesView>, identifiers: Seq<Ident>, n: int)
    requires
        0 <= n <= series.len(),
        grouped(series.take(n), identifiers) is Err,
    ensures
        grouped(series, identifiers) == grouped(series.take(n), identifiers),
    decreases series.len() - n,
{
    if n < series.len() {
        assert(series.take(n + 1).drop_last() =~= series.take(n));
        grouping_error_stands(series, identifiers, n + 1);
    } else {
        assert(series.take(n) =~= series);
    }
}

impl GroupBy {
    /// Groups the timeseries of a table by the listed fields.
    pub fn apply(&self, tables: &Vec<Table>) -> (r: Result<GroupedTable, Error>)
        requires
            tables@.len() == 1 ==> tables@[0]@.well_formed(),
        ensures
            tables@.len() != 1 ==> r == Err::<GroupedTable, Error>(Error::GroupTableCount),
            tables@.len() == 1 ==> match r {
                Ok(out) => out.name@ == tables@[0]@.name && out.reducer == self.reducer && grouped(
                    tables@[0]@.timeseries,
                    self.identifiers@,
                ) == Ok::<Seq<GroupView>, Error>(group_views(out.groups@)),
                Err(e) => grouped(tables@[0]@.timeseries, self.identifiers@) == Err::<
                    Seq<GroupView>,
                    Error,
                >(e),
            },
    {
        if tables.len() != 1 {
            return Err(Error::GroupTableCount);
        }
        let table = &tables[0];
        let ghost series = table@.timeseries;
        let mut groups: Vec<Group> = Vec::new();
        let mut i: usize = 0;
        assert(group_views(groups@) =~= Seq::empty());
        while i < table.timeseries.len()
            invariant
                i <= table.timeseries@.len() == series.len(),
                tables@.len() == 1,
                *table == tables@[0],
                series == table@.timeseries,
                table@.well_formed(),
                grouped(series.take(i as int), self.identifiers@) == Ok::<Seq<GroupView>, Error>(
                    group_views(groups@),
                ),
                groups_fit(group_views(groups@), i as nat),
            decreases table.timeseries@.len() - i,
        {
            let input = &table.timeseries[i];
            proof {
                assert(series[i as int] == input@);
                assert(series.take(i + 1).drop_last() =~= series.take(i as int));
                assert(series.take(i + 1).last() == input@);
            }
            match add_series(&mut groups, input, &self.identifiers, Ghost(i as nat)) {
                Ok(_) => {},
                Err(e) => {
                    proof {
                        grouping_error_stands(series, self.identifiers@, i as int + 1);
                    }
                    return Err(e);
                },
            }
            i = i + 1;
        }
        proof {
            assert(series.take(series.len() as int) =~= series);
        }
        Ok(GroupedTable { name: table.name.clone(), reducer: self.reducer, groups })
    }
}

} // verus!
