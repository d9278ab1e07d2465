//! Table operations on any tables: whether an operation can be applied is tested first.

use vstd::prelude::*;

use crate::oxql::ast::{Comparison, Literal};
use crate::oxql::filter::{fits_prefix, Filter, FilterAtom};
use crate::oxql::point::{Points, ValueArray};
use crate::oxql::table::{
    distinct_keys, fields_equal, fields_sorted, same_fields, Field, Table, Timeseries,
};
use crate::oxql::table_ops::{Applied, BasicTableOp, TableOp};
use crate::oxql::Error;
use crate::text::{order_of, seq_lt, seq_lt_is_total, seq_lt_is_transitive, str_eq, Order};

verus! {

impl Points {
    /// Whether every column has one value for each timestamp.
    pub fn is_well_formed(&self) -> (yes: bool)
        ensures
            yes == self@.well_formed(),
    {
        let n = self.timestamps.len();
        match &self.start_times {
            Some(s) => {
                if s.len() != n {
                    return false;
                }
            },
            None => {},
        }
        let mut i: usize = 0;
        while i < self.values.len()
            invariant
                i <= self.values@.len(),
                n == self.timestamps@.len(),
                forall|k: int|
                    0 <= k < i ==> (#[trigger] self@.values[k]).values.len()
                        == self@.timestamps.len(),
            decreases self.values@.len() - i,
        {
            assert(self@.values[i as int] == self.values@[i as int]@);
            if self.values[i].values.len() != n {
                return false;
            }
            i = i + 1;
        }
        true
    }
}

/// Whether the fields are in the order of their names, and no two have the same name.
fn are_sorted(fields: &Vec<Field>) -> (yes: bool)
    ensures
        yes == fields_sorted(fields@),
{
    let mut i: usize = 1;
    while i < fields.len()
        invariant
            1 <= i,
            forall|a: int, b: int|
                0 <= a < b < i && b < fields@.len() ==> seq_lt(
                    (#[trigger] fields@[a]).name@,
                    (#[trigger] fields@[b]).name@,
                ),
        decreases fields@.len() - i,
    {
        match order_of(fields[i - 1].name.as_str(), fields[i].name.as_str()) {
            Order::Less => {},
            _ => {
                proof {
                    seq_lt_is_total(fields@[i as int].name@, fields@[i - 1].name@);
                    assert(!seq_lt(fields@[i - 1].name@, fields@[i as int].name@));
                }
                return false;
            },
        }
        proof {
            assert forall|a: int| 0 <= a < i implies seq_lt(
                (#[trigger] fields@[a]).name@,
                fields@[i as int].name@,
            ) by {
                if a < i - 1 {
                    seq_lt_is_transitive(
                        fields@[a].name@,
                        fields@[i - 1].name@,
                        fields@[i as int].name@,
                    );
                }
            }
        }
        i = i + 1;
    }
    true
}

impl Timeseries {
    /// Whether the fields are in order, and every column has one value for each timestamp.
    pub fn is_well_formed(&self) -> (yes: bool)
        ensures
            yes == self@.well_formed(),
    {
        are_sorted(&self.fields) && self.points.is_well_formed()
    }
}

impl Table {
    /// Whether every timeseries is well formed, and no two have the same key.
    pub fn is_well_formed(&self) -> (yes: bool)
        ensures
            yes == self@.well_formed(),
    {
        let ghost series = self@.timeseries;
        let mut i: usize = 0;
        while i < self.timeseries.len()
            invariant
                i <= self.timeseries@.len() == series.len(),
                series == self@.timeseries,
                forall|k: int| 0 <= k < i ==> (#[trigger] series[k]).well_formed(),
                distinct_keys(series.take(i as int)),
            decreases self.timeseries@.len() - i,
        {
            assert(series[i as int] == self.timeseries@[i as int]@);
            if !self.timeseries[i].is_well_formed() {
                return false;
            }
            let mut j: usize = 0;
            while j < i
                invariant
                    j <= i < self.timeseries@.len() == series.len(),
                    series == self@.timeseries,
                    forall|k: int|
                        0 <= k < j ==> !same_fields(
                            (#[trigger] series[k]).fields,
                            series[i as int].fields,
                        ),
                decreases i - j,
            {
                assert(series[j as int] == self.timeseries@[j as int]@);
                assert(series[i as int] == self.timeseries@[i as int]@);
                if fields_equal(&self.timeseries[j].fields, &self.timeseries[i].fields) {
                    assert(same_fields(series[j as int].fields, series[i as int].fields));
                    return false;
                }
                j = j + 1;
            }
            proof {
                let longer = series.take(i + 1);
                assert forall|a: int, b: int| 0 <= a < b < longer.len() implies !same_fields(
                    #[trigger] longer[a].fields,
                    #[trigger] longer[b].fields,
                ) by {
                    assert(longer[a] == series[a]);
                    assert(longer[b] == series[b]);
                    if b < i {
                        assert(series.take(i as int)[a] == series[a]);
                        assert(series.take(i as int)[b] == series[b]);
                    }
                }
            }
            i = i + 1;
        }
        assert(series.take(i as int) =~= series);
        true
    }
}

impl FilterAtom {
    /// Whether the filter can be applied to these points: only strings match a pattern.
    pub fn fits(&self, points: &Points) -> (yes: bool)
        ensures
            yes == self.fits_points(points@),
    {
        if self.cmp != Comparison::Like {
            return true;
        }
        let ident = self.ident.as_str();
        if str_eq(ident, "timestamp") {
            match &self.expr {
                Literal::Timestamp(_) => false,
                _ => true,
            }
        } else if str_eq(ident, "datum") {
            if points.dimensionality() != 1 {
                return true;
            }
            assert(points@.values[0] == points.values@[0]@);
            match (&self.expr, &points.values[0].values) {
                (Literal::Integer(_), ValueArray::Integer(_)) => false,
                (Literal::Double(_), ValueArray::Double(_)) => false,
                (Literal::Boolean(_), ValueArray::Boolean(_)) => false,
                _ => true,
            }
        } else {
            true
        }
    }
}

impl Filter {
    /// Whether the filter can be applied to these points.
    pub fn fits(&self, points: &Points) -> (yes: bool)
        requires
            points@.well_formed(),
        ensures
            yes == self.fits_points(points@),
        decreases self,
    {
        match self {
            Filter::Atom(atom) => atom.fits(points),
            Filter::Expr(expr) => {
                if !expr.left.fits(points) {
                    return false;
                }
                match expr.left.filter_points2_inner(points) {
                    Ok(_) => expr.right.fits(points),
                    Err(_) => true,
                }
            },
        }
    }

    /// Whether the filter lets all fields pass.
    fn all_pass(&self, fields: &Vec<Field>) -> (r: Result<bool, Error>)
        ensures
            r == self.fields_pass(fields@, fields@.len()),
    {
        let mut i: usize = 0;
        let mut r: Result<bool, Error> = Ok(true);
        while i < fields.len()
            invariant
                i <= fields@.len(),
                r == self.fields_pass(fields@, i as nat),
            decreases fields@.len() - i,
        {
            r = match r {
                Ok(true) => self.filter_field(fields[i].name.as_str(), &fields[i].value),
                other => other,
            };
            i = i + 1;
        }
        r
    }

    /// Whether the filter can be applied to each timeseries of a table that it comes to.
    pub fn fits_table(&self, table: &Table) -> (yes: bool)
        requires
            table@.well_formed(),
        ensures
            yes == self.fits_series(table@.timeseries),
    {
        let ghost series = table@.timeseries;
        let mut going = true;
        let mut i: usize = 0;
        assert(series.take(0) =~= Seq::empty());
        while i < table.timeseries.len()
            invariant
                i <= table.timeseries@.len() == series.len(),
                series == table@.timeseries,
                table@.well_formed(),
                self.fits_series(series.take(i as int)),
                going == (self.kept_series(series.take(i as int)) is Ok),
            decreases table.timeseries@.len() - i,
        {
            let input = &table.timeseries[i];
            proof {
                assert(series[i as int] == input@);
                assert(series.take(i + 1).drop_last() =~= series.take(i as int));
                assert(series.take(i + 1).last() == input@);
            }
            if going {
                match self.all_pass(&input.fields) {
                    Ok(true) => {
                        if !self.fits(&input.points) {
                            proof {
                                assert(!self.fits_series(series.take(i + 1)));
                                if self.fits_series(series) {
                                    fits_prefix(*self, series, i + 1);
                                }
                            }
                            return false;
                        }
                        match self.filter_points2_inner(&input.points) {
                            Ok(_) => {},
                            Err(_) => {
                                going = false;
                            },
                        }
                    },
                    Ok(false) => {},
                    Err(_) => {
                        going = false;
                    },
                }
            }
            i = i + 1;
        }
        assert(series.take(i as int) =~= series);
        true
    }
}

impl TableOp {
    /// The operation can be applied to the tables.
    pub open spec fn applies_to(self, tables: Seq<Table>) -> bool {
        self matches TableOp::Basic(op) && op.applies_to(tables)
    }

    /// Applies the operation to tables, if it can be applied to them.
    pub fn try_apply(&self, tables: &Vec<Table>) -> (r: Option<Result<Applied, Error>>)
        ensures
            match r {
                Some(r) => self.applies_to(tables@) && self->Basic_0.gives(tables@, r),
                None => !self.applies_to(tables@),
            },
    {
        let basic = match self {
            TableOp::Basic(basic) => basic,
            TableOp::Grouped(_) => {
                return None;
            },
        };
        let one = tables.len() == 1;
        let fits = match basic {
            BasicTableOp::Get(_) => false,
            BasicTableOp::Filter(f) => !one || (tables[0].is_well_formed() && f.fits_table(
                &tables[0],
            )),
            BasicTableOp::GroupBy(_) => !one || tables[0].is_well_formed(),
            BasicTableOp::Join(_) => true,
        };
        if fits {
            Some(self.apply(tables))
        } else {
            None
        }
    }
}

} // verus!
