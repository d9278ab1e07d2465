//! Timeseries, and tables of them.

use vstd::prelude::*;

use crate::ids::Uuid;
use crate::net::IpAddr;
use crate::oxql::point::{Points, PointsView};
use crate::oxql::Error;
use crate::text::{seq_lt, str_eq};

verus! {

/// The type of a field.
#[derive(Debug, Clone, Copy, PartialEq, Eq, Structural)]
pub enum FieldType {
    String,
    I8,
    U8,
    I16,
    U16,
    I32,
    U32,
    I64,
    U64,
    IpAddr,
    Uuid,
    Bool,
}

/// The value of a field.
#[derive(Debug, PartialEq, Eq)]
pub enum FieldValue {
    String(String),
    I8(i8),
    U8(u8),
    I16(i16),
    U16(u16),
    I32(i32),
    U32(u32),
    I64(i64),
    U64(u64),
    IpAddr(IpAddr),
    Uuid(Uuid),
    Bool(bool),
}

impl Clone for FieldValue {
    fn clone(&self) -> (r: Self)
        ensures
            r == *self,
    {
        match self {
            FieldValue::String(x) => FieldValue::String(x.clone()),
            FieldValue::I8(x) => FieldValue::I8(*x),
            FieldValue::U8(x) => FieldValue::U8(*x),
            FieldValue::I16(x) => FieldValue::I16(*x),
            FieldValue::U16(x) => FieldValue::U16(*x),
            FieldValue::I32(x) => FieldValue::I32(*x),
            FieldValue::U32(x) => FieldValue::U32(*x),
            FieldValue::I64(x) => FieldValue::I64(*x),
            FieldValue::U64(x) => FieldValue::U64(*x),
            FieldValue::IpAddr(x) => FieldValue::IpAddr(*x),
            FieldValue::Uuid(x) => FieldValue::Uuid(*x),
            FieldValue::Bool(x) => FieldValue::Bool(*x),
        }
    }
}

/// The two values are of one type and equal.
pub open spec fn same_value(a: FieldValue, b: FieldValue) -> bool {
    match (a, b) {
        (FieldValue::String(x), FieldValue::String(y)) => x@ == y@,
        _ => a == b,
    }
}

impl FieldValue {
    /// The type of the value.
    pub open spec fn kind(self) -> FieldType {
        match self {
            FieldValue::String(_) => FieldType::String,
            FieldValue::I8(_) => FieldType::I8,
            FieldValue::U8(_) => FieldType::U8,
            FieldValue::I16(_) => FieldType::I16,
            FieldValue::U16(_) => FieldType::U16,
            FieldValue::I32(_) => FieldType::I32,
            FieldValue::U32(_) => FieldType::U32,
            FieldValue::I64(_) => FieldType::I64,
            FieldValue::U64(_) => FieldType::U64,
            FieldValue::IpAddr(_) => FieldType::IpAddr,
            FieldValue::Uuid(_) => FieldType::Uuid,
            FieldValue::Bool(_) => FieldType::Bool,
        }
    }

    /// The integer that the value is, if it is one.
    pub open spec fn integer(self) -> Option<int> {
        match self {
            FieldValue::I8(x) => Some(x as int),
            FieldValue::U8(x) => Some(x as int),
            FieldValue::I16(x) => Some(x as int),
            FieldValue::U16(x) => Some(x as int),
            FieldValue::I32(x) => Some(x as int),
            FieldValue::U32(x) => Some(x as int),
            FieldValue::I64(x) => Some(x as int),
            FieldValue::U64(x) => Some(x as int),
            _ => None,
        }
    }

    /// The integer that the value is, if it is one.
    pub fn as_integer(&self) -> (n: Option<i128>)
        ensures
            match n {
                Some(n) => self.integer() == Some(n as int),
                None => self.integer() is None,
            },
    {
        match self {
            FieldValue::I8(x) => Some(*x as i128),
            FieldValue::U8(x) => Some(*x as i128),
            FieldValue::I16(x) => Some(*x as i128),
            FieldValue::U16(x) => Some(*x as i128),
            FieldValue::I32(x) => Some(*x as i128),
            FieldValue::U32(x) => Some(*x as i128),
            FieldValue::I64(x) => Some(*x as i128),
            FieldValue::U64(x) => Some(*x as i128),
            _ => None,
        }
    }

    fn same(&self, other: &FieldValue) -> (yes: bool)
        ensures
            yes == same_value(*self, *other),
    {
        match (self, other) {
            (FieldValue::String(x), FieldValue::String(y)) => str_eq(x.as_str(), y.as_str()),
            (FieldValue::I8(x), FieldValue::I8(y)) => *x == *y,
            (FieldValue::U8(x), FieldValue::U8(y)) => *x == *y,
            (FieldValue::I16(x), FieldValue::I16(y)) => *x == *y,
            (FieldValue::U16(x), FieldValue::U16(y)) => *x == *y,
            (FieldValue::I32(x), FieldValue::I32(y)) => *x == *y,
            (FieldValue::U32(x), FieldValue::U32(y)) => *x == *y,
            (FieldValue::I64(x), FieldValue::I64(y)) => *x == *y,
            (FieldValue::U64(x), FieldValue::U64(y)) => *x == *y,
            (FieldValue::IpAddr(x), FieldValue::IpAddr(y)) => *x == *y,
            (FieldValue::Uuid(x), FieldValue::Uuid(y)) => *x == *y,
            (FieldValue::Bool(x), FieldValue::Bool(y)) => *x == *y,
            _ => false,
        }
    }
}

/// A named value that all points of a timeseries share.
#[derive(Debug, PartialEq, Eq)]
pub struct Field {
    pub name: String,
    pub value: FieldValue,
}

impl Clone for Field {
    fn clone(&self) -> (r: Self)
        ensures
            r == *self,
    {
        Field { name: self.name.clone(), value: self.value.clone() }
    }
}

/// The same fields in the same order. The fields of a timeseries are its key.
#[verifier::opaque]
pub open spec fn same_fields(a: Seq<Field>, b: Seq<Field>) -> bool {
    &&& a.len() == b.len()
    &&& forall|i: int|
        #![trigger a[i]]
        #![trigger b[i]]
        0 <= i < a.len() ==> a[i].name@ == b[i].name@ && same_value(a[i].value, b[i].value)
}

/// Compares two keys.
pub fn fields_equal(a: &Vec<Field>, b: &Vec<Field>) -> (yes: bool)
    ensures
        yes == same_fields(a@, b@),
{
    proof {
        reveal(same_fields);
    }
    if a.len() != b.len() {
        return false;
    }
    let mut i: usize = 0;
    while i < a.len()
        invariant
            i <= a@.len() == b@.len(),
            forall|k: int|
                #![trigger a@[k]]
                #![trigger b@[k]]
                0 <= k < i ==> a@[k].name@ == b@[k].name@ && same_value(a@[k].value, b@[k].value),
        decreases a@.len() - i,
    {
        if !str_eq(a[i].name.as_str(), b[i].name.as_str()) || !a[i].value.same(&b[i].value) {
            assert(!same_fields(a@, b@)) by {
                reveal(same_fields);
                assert(a@[i as int] == a@[i as int]);
            }
            return false;
        }
        i = i + 1;
    }
    true
}

/// The fields are in the order of their names, and no two have the same name.
pub open spec fn fields_sorted(fields: Seq<Field>) -> bool {
    forall|i: int, j: int|
        0 <= i < j < fields.len() ==> seq_lt(
            (#[trigger] fields[i]).name@,
            (#[trigger] fields[j]).name@,
        )
}

/// Copies fields.
pub(crate) fn copied_fields(fields: &Vec<Field>) -> (r: Vec<Field>)
    ensures
        r@ == fields@,
{
    let mut r: Vec<Field> = Vec::new();
    let mut i: usize = 0;
    while i < fields.len()
        invariant
            i <= fields@.len(),
            r@ == fields@.take(i as int),
        decreases fields@.len() - i,
    {
        r.push(fields[i].clone());
        i = i + 1;
    }
    r
}

/// Points with the fields that they share.
#[derive(Debug, PartialEq)]
pub struct Timeseries {
    pub fields: Vec<Field>,
    pub points: Points,
}

/// What a timeseries holds.
#[verifier::ext_equal]
pub ghost struct TimeseriesView {
    pub fields: Seq<Field>,
    pub points: PointsView,
}

impl View for Timeseries {
    type V = TimeseriesView;

    open spec fn view(&self) -> TimeseriesView {
        TimeseriesView { fields: self.fields@, points: self.points@ }
    }
}

impl TimeseriesView {
    /// The fields are in order, and every column has one value for each timestamp.
    pub open spec fn well_formed(self) -> bool {
        fields_sorted(self.fields) && self.points.well_formed()
    }
}

impl Timeseries {
    /// A copy of the timeseries.
    pub fn duplicate(&self) -> (r: Timeseries)
        ensures
            r@ == self@,
    {
        Timeseries { fields: copied_fields(&self.fields), points: self.points.duplicate() }
    }
}

/// Some timeseries among these has the key.
pub open spec fn has_key(series: Seq<TimeseriesView>, fields: Seq<Field>) -> bool {
    exists|i: int| 0 <= i < series.len() && same_fields(#[trigger] series[i].fields, fields)
}

/// No two of these timeseries have the same key.
pub open spec fn distinct_keys(series: Seq<TimeseriesView>) -> bool {
    forall|i: int, j: int|
        0 <= i < j < series.len() ==> !same_fields(
            #[trigger] series[i].fields,
            #[trigger] series[j].fields,
        )
}

/// A named collection of timeseries.
#[derive(Debug, PartialEq)]
pub struct Table {
    pub name: String,
    pub timeseries: Vec<Timeseries>,
}

/// What a table holds.
#[verifier::ext_equal]
pub ghost struct TableView {
    pub name: Seq<char>,
    pub timeseries: Seq<TimeseriesView>,
}

impl View for Table {
    type V = TableView;

    open spec fn view(&self) -> TableView {
        TableView {
            name: self.name@,
            timeseries: self.timeseries@.map_values(|t: Timeseries| t@),
        }
    }
}

impl TableView {
    /// Every timeseries is well formed, and no two have the same key.
    pub open spec fn well_formed(self) -> bool {
        &&& distinct_keys(self.timeseries)
        &&& forall|i: int|
            0 <= i < self.timeseries.len() ==> (#[trigger] self.timeseries[i]).well_formed()
    }
}

impl Table {
    /// An empty table.
    pub fn new(name: &str) -> (t: Table)
        ensures
            t@ == (TableView { name: name@, timeseries: Seq::empty() }),
            t@.well_formed(),
    {
        let t = Table { name: name.to_owned(), timeseries: Vec::new() };
        assert(t@.timeseries =~= Seq::empty());
        t
    }

    /// The name of the table.
    pub fn name(&self) -> (s: &str)
        ensures
            s@ == self@.name,
    {
        self.name.as_str()
    }

    /// The number of timeseries.
    pub fn len(&self) -> (n: usize)
        ensures
            n == self@.timeseries.len(),
    {
        self.timeseries.len()
    }

    /// Adds a timeseries, unless there is one with its key.
    pub fn insert(&mut self, timeseries: Timeseries) -> (r: Result<(), Error>)
        ensures
            match r {
                Ok(_) => !has_key(old(self)@.timeseries, timeseries@.fields) && final(self)@ == (
                TableView {
                    name: old(self)@.name,
                    timeseries: old(self)@.timeseries.push(timeseries@),
                }),
                Err(e) => has_key(old(self)@.timeseries, timeseries@.fields) && e
                    == Error::DuplicateTimeseries && *final(self) == *old(self),
            },
    {
        let mut i: usize = 0;
        while i < self.timeseries.len()
            invariant
                i <= self.timeseries@.len(),
                *self == *old(self),
                forall|k: int|
                    0 <= k < i ==> !same_fields(
                        #[trigger] self@.timeseries[k].fields,
                        timeseries@.fields,
                    ),
            decreases self.timeseries@.len() - i,
        {
            assert(self@.timeseries[i as int] == self.timeseries@[i as int]@);
            if fields_equal(&self.timeseries[i].fields, &timeseries.fields) {
                assert(same_fields(self@.timeseries[i as int].fields, timeseries@.fields));
                return Err(Error::DuplicateTimeseries);
            }
            i = i + 1;
        }
        self.timeseries.push(timeseries);
        assert(self@.timeseries =~= old(self)@.timeseries.push(timeseries@));
        Ok(())
    }

    /// A copy of the table.
    pub fn duplicate(&self) -> (r: Table)
        ensures
            r@ == self@,
    {
        let mut timeseries: Vec<Timeseries> = Vec::new();
        let mut i: usize = 0;
        while i < self.timeseries.len()
            invariant
                i <= self.timeseries@.len(),
                timeseries@.len() == i,
                forall|k: int| 0 <= k < i ==> (#[trigger] timeseries@[k])@ == self.timeseries@[k]@,
            decreases self.timeseries@.len() - i,
        {
            timeseries.push(self.timeseries[i].duplicate());
            i = i + 1;
        }
        let t = Table { name: self.name.clone(), timeseries };
        assert(t@.timeseries =~= self@.timeseries);
        t
    }
}

} // verus!
