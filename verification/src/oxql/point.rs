//! The data points of a timeseries.

use vstd::prelude::*;

use crate::oxql::ast::Double;
use crate::oxql::Error;
use crate::time::Timestamp;

verus! {

/// The type of the values of a column.
#[derive(Debug, Clone, Copy, PartialEq, Eq, Structural)]
pub enum DataType {
    Integer,
    Double,
    Boolean,
    String,
}

/// What a metric measures.
#[derive(Debug, Clone, Copy, PartialEq, Eq, Structural)]
pub enum MetricType {
    /// The value at an instant.
    Gauge,
    /// The change since the previous point.
    Delta,
    /// The change since the start of the timeseries.
    Cumulative,
}

/// A value that can be copied out of a column.
pub trait Duplicate: Sized {
    /// A copy of the value.
    fn duplicate(&self) -> (r: Self)
        ensures
            r == *self,
    ;
}

impl Duplicate for Timestamp {
    fn duplicate(&self) -> (r: Self) {
        *self
    }
}

impl Duplicate for Option<i64> {
    fn duplicate(&self) -> (r: Self) {
        *self
    }
}

impl Duplicate for Option<Double> {
    fn duplicate(&self) -> (r: Self) {
        *self
    }
}

impl Duplicate for Option<bool> {
    fn duplicate(&self) -> (r: Self) {
        *self
    }
}

impl Duplicate for Option<String> {
    fn duplicate(&self) -> (r: Self) {
        match self {
            Some(s) => Some(s.clone()),
            None => None,
        }
    }
}

/// The items of `s` that the mask marks, in their order.
pub open spec fn kept<T>(s: Seq<T>, mask: Seq<bool>) -> Seq<T>
    decreases s.len(),
{
    if s.len() == 0 {
        Seq::empty()
    } else {
        let rest = kept(s.drop_last(), mask);
        if mask[s.len() - 1] {
            rest.push(s.last())
        } else {
            rest
        }
    }
}

/// Copies the marked items.
fn keep_marked<T: Duplicate>(items: &Vec<T>, mask: &Vec<bool>) -> (r: Vec<T>)
    requires
        items@.len() == mask@.len(),
    ensures
        r@ == kept(items@, mask@),
{
    let mut r: Vec<T> = Vec::new();
    let mut i: usize = 0;
    while i < items.len()
        invariant
            i <= items@.len() == mask@.len(),
            r@ == kept(items@.take(i as int), mask@),
        decreases items@.len() - i,
    {
        proof {
            assert(items@.take(i + 1).drop_last() =~= items@.take(i as int));
        }
        if mask[i] {
            r.push(items[i].duplicate());
        }
        i = i + 1;
    }
    proof {
        assert(items@.take(items@.len() as int) =~= items@);
    }
    r
}

/// Copies every item.
pub(crate) fn copied<T: Duplicate>(items: &Vec<T>) -> (r: Vec<T>)
    ensures
        r@ == items@,
{
    let mut r: Vec<T> = Vec::new();
    let mut i: usize = 0;
    while i < items.len()
        invariant
            i <= items@.len(),
            r@ == items@.take(i as int),
        decreases items@.len() - i,
    {
        r.push(items[i].duplicate());
        i = i + 1;
    }
    r
}

/// As many items are kept, whatever their type, as the mask has marks.
pub proof fn kept_lengths_agree<T, U>(s: Seq<T>, t: Seq<U>, mask: Seq<bool>)
    requires
        s.len() == t.len(),
    ensures
        kept(s, mask).len() == kept(t, mask).len(),
    decreases s.len(),
{
    if s.len() > 0 {
        kept_lengths_agree(s.drop_last(), t.drop_last(), mask);
    }
}

/// A column of values, any of which may be missing.
#[derive(Debug, PartialEq)]
pub enum ValueArray {
    Integer(Vec<Option<i64>>),
    Double(Vec<Option<Double>>),
    Boolean(Vec<Option<bool>>),
    String(Vec<Option<String>>),
}

/// What a column holds.
#[verifier::ext_equal]
pub ghost enum ValueArrayView {
    Integer(Seq<Option<i64>>),
    Double(Seq<Option<Double>>),
    Boolean(Seq<Option<bool>>),
    String(Seq<Option<String>>),
}

impl View for ValueArray {
    type V = ValueArrayView;

    open spec fn view(&self) -> ValueArrayView {
        match self {
            ValueArray::Integer(v) => ValueArrayView::Integer(v@),
            ValueArray::Double(v) => ValueArrayView::Double(v@),
            ValueArray::Boolean(v) => ValueArrayView::Boolean(v@),
            ValueArray::String(v) => ValueArrayView::String(v@),
        }
    }
}

impl ValueArrayView {
    /// The number of values, missing ones among them.
    pub open spec fn len(self) -> nat {
        match self {
            ValueArrayView::Integer(s) => s.len(),
            ValueArrayView::Double(s) => s.len(),
            ValueArrayView::Boolean(s) => s.len(),
            ValueArrayView::String(s) => s.len(),
        }
    }

    /// The type of the values.
    pub open spec fn kind(self) -> DataType {
        match self {
            ValueArrayView::Integer(_) => DataType::Integer,
            ValueArrayView::Double(_) => DataType::Double,
            ValueArrayView::Boolean(_) => DataType::Boolean,
            ValueArrayView::String(_) => DataType::String,
        }
    }

    /// The column of the marked values.
    pub open spec fn keep(self, mask: Seq<bool>) -> ValueArrayView {
        match self {
            ValueArrayView::Integer(s) => ValueArrayView::Integer(kept(s, mask)),
            ValueArrayView::Double(s) => ValueArrayView::Double(kept(s, mask)),
            ValueArrayView::Boolean(s) => ValueArrayView::Boolean(kept(s, mask)),
            ValueArrayView::String(s) => ValueArrayView::String(kept(s, mask)),
        }
    }
}

impl ValueArray {
    /// The number of values, missing ones among them.
    pub fn len(&self) -> (n: usize)
        ensures
            n == self@.len(),
    {
        match self {
            ValueArray::Integer(v) => v.len(),
            ValueArray::Double(v) => v.len(),
            ValueArray::Boolean(v) => v.len(),
            ValueArray::String(v) => v.len(),
        }
    }

    /// The type of the values.
    pub fn data_type(&self) -> (t: DataType)
        ensures
            t == self@.kind(),
    {
        match self {
            ValueArray::Integer(_) => DataType::Integer,
            ValueArray::Double(_) => DataType::Double,
            ValueArray::Boolean(_) => DataType::Boolean,
            ValueArray::String(_) => DataType::String,
        }
    }

    /// The values, if they are doubles.
    pub fn as_double(&self) -> (v: Option<&Vec<Option<Double>>>)
        ensures
            match v {
                Some(v) => self@ == ValueArrayView::Double(v@),
                None => self@.kind() != DataType::Double,
            },
    {
        match self {
            ValueArray::Double(v) => Some(v),
            _ => None,
        }
    }

    fn keep(&self, mask: &Vec<bool>) -> (r: ValueArray)
        requires
            self@.len() == mask@.len(),
        ensures
            r@ == self@.keep(mask@),
    {
        match self {
            ValueArray::Integer(v) => ValueArray::Integer(keep_marked(v, mask)),
            ValueArray::Double(v) => ValueArray::Double(keep_marked(v, mask)),
            ValueArray::Boolean(v) => ValueArray::Boolean(keep_marked(v, mask)),
            ValueArray::String(v) => ValueArray::String(keep_marked(v, mask)),
        }
    }

    /// A copy of the column.
    pub fn duplicate(&self) -> (r: ValueArray)
        ensures
            r@ == self@,
    {
        match self {
            ValueArray::Integer(v) => ValueArray::Integer(copied(v)),
            ValueArray::Double(v) => ValueArray::Double(copied(v)),
            ValueArray::Boolean(v) => ValueArray::Boolean(copied(v)),
            ValueArray::String(v) => ValueArray::String(copied(v)),
        }
    }
}

/// A column and what it measures.
#[derive(Debug, PartialEq)]
pub struct Values {
    pub values: ValueArray,
    pub metric_type: MetricType,
}

/// What a column holds and measures.
#[verifier::ext_equal]
pub ghost struct ValuesView {
    pub values: ValueArrayView,
    pub metric_type: MetricType,
}

impl View for Values {
    type V = ValuesView;

    open spec fn view(&self) -> ValuesView {
        ValuesView { values: self.values@, metric_type: self.metric_type }
    }
}

/// The points of a timeseries: for each a timestamp, the start time of what it measures where there
/// is one, and a value in each dimension.
#[derive(Debug, PartialEq)]
pub struct Points {
    pub start_times: Option<Vec<Timestamp>>,
    pub timestamps: Vec<Timestamp>,
    pub values: Vec<Values>,
}

/// What points hold.
#[verifier::ext_equal]
pub ghost struct PointsView {
    pub start_times: Option<Seq<Timestamp>>,
    pub timestamps: Seq<Timestamp>,
    pub values: Seq<ValuesView>,
}

impl View for Points {
    type V = PointsView;

    open spec fn view(&self) -> PointsView {
        PointsView {
            start_times: match self.start_times {
                Some(v) => Some(v@),
                None => None,
            },
            timestamps: self.timestamps@,
            values: self.values@.map_values(|v: Values| v@),
        }
    }
}

impl PointsView {
    /// Every column has one value for each timestamp.
    pub open spec fn well_formed(self) -> bool {
        &&& self.start_times matches Some(s) ==> s.len() == self.timestamps.len()
        &&& forall|k: int|
            0 <= k < self.values.len() ==> (#[trigger] self.values[k]).values.len()
                == self.timestamps.len()
    }

    /// The marked points.
    pub open spec fn keep(self, mask: Seq<bool>) -> PointsView {
        PointsView {
            start_times: match self.start_times {
                Some(s) => Some(kept(s, mask)),
                None => None,
            },
            timestamps: kept(self.timestamps, mask),
            values: self.values.map_values(
                |v: ValuesView| ValuesView {
                    values: v.values.keep(mask),
                    metric_type: v.metric_type,
                },
            ),
        }
    }
}

impl Points {
    /// The number of points.
    pub fn len(&self) -> (n: usize)
        ensures
            n == self@.timestamps.len(),
    {
        self.timestamps.len()
    }

    /// The number of values of each point.
    pub fn dimensionality(&self) -> (n: usize)
        ensures
            n == self@.values.len(),
    {
        self.values.len()
    }

    /// The column of a dimension.
    pub fn values(&self, dim: usize) -> (v: Option<&ValueArray>)
        ensures
            match v {
                Some(v) => dim < self@.values.len() && v@ == self@.values[dim as int].values,
                None => dim >= self@.values.len(),
            },
    {
        if dim < self.values.len() {
            Some(&self.values[dim].values)
        } else {
            None
        }
    }

    /// Keeps the marked points. There has to be a mark for each point.
    pub fn filter(&self, to_keep: &Vec<bool>) -> (r: Result<Points, Error>)
        requires
            self@.well_formed(),
        ensures
            match r {
                Ok(points) => to_keep@.len() == self@.timestamps.len() && points@ == self@.keep(
                    to_keep@,
                ) && points@.well_formed(),
                Err(e) => to_keep@.len() != self@.timestamps.len() && e == Error::FilterLength,
            },
    {
        if to_keep.len() != self.timestamps.len() {
            return Err(Error::FilterLength);
        }
        let start_times = match &self.start_times {
            Some(v) => Some(keep_marked(v, to_keep)),
            None => None,
        };
        let timestamps = keep_marked(&self.timestamps, to_keep);
        let mut values: Vec<Values> = Vec::new();
        let mut i: usize = 0;
        while i < self.values.len()
            invariant
                i <= self.values@.len() == self@.values.len(),
                self@.well_formed(),
                to_keep@.len() == self@.timestamps.len(),
                values@.len() == i,
                forall|k: int|
                    0 <= k < i ==> (#[trigger] values@[k])@ == (ValuesView {
                        values: self@.values[k].values.keep(to_keep@),
                        metric_type: self@.values[k].metric_type,
                    }),
            decreases self.values@.len() - i,
        {
            let v = &self.values[i];
            assert(self@.values[i as int] == v@);
            values.push(Values { values: v.values.keep(to_keep), metric_type: v.metric_type });
            i = i + 1;
        }
        let points = Points { start_times, timestamps, values };
        proof {
            assert(points@.values =~= self@.keep(to_keep@).values);
            kept_points_are_well_formed(self@, to_keep@);
        }
        Ok(points)
    }

    /// A copy of the points.
    pub fn duplicate(&self) -> (r: Points)
        ensures
            r@ == self@,
    {
        let start_times = match &self.start_times {
            Some(v) => Some(copied(v)),
            None => None,
        };
        let mut values: Vec<Values> = Vec::new();
        let mut i: usize = 0;
        while i < self.values.len()
            invariant
                i <= self.values@.len(),
                values@.len() == i,
                forall|k: int| 0 <= k < i ==> (#[trigger] values@[k])@ == self.values@[k]@,
            decreases self.values@.len() - i,
        {
            values.push(
                Values {
                    values: self.values[i].values.duplicate(),
                    metric_type: self.values[i].metric_type,
                },
            );
            i = i + 1;
        }
        let points = Points { start_times, timestamps: copied(&self.timestamps), values };
        assert(points@.values =~= self@.values);
        points
    }
}

/// Keeping points keeps one value in each column for each timestamp.
pub proof fn kept_points_are_well_formed(points: PointsView, mask: Seq<bool>)
    requires
        points.well_formed(),
    ensures
        points.keep(mask).well_formed(),
{
    if points.start_times is Some {
        kept_lengths_agree(points.start_times->0, points.timestamps, mask);
    }
    assert forall|k: int| 0 <= k < points.keep(mask).values.len() implies (
    #[trigger] points.keep(mask).values[k]).values.len() == points.keep(mask).timestamps.len() by {
        match points.values[k].values {
            ValueArrayView::Integer(s) => kept_lengths_agree(s, points.timestamps, mask),
            ValueArrayView::Double(s) => kept_lengths_agree(s, points.timestamps, mask),
            ValueArrayView::Boolean(s) => kept_lengths_agree(s, points.timestamps, mask),
            ValueArrayView::String(s) => kept_lengths_agree(s, points.timestamps, mask),
        }
    }
}

} // verus!
