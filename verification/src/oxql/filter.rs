//! The `filter` table operation.

use vstd::prelude::*;

use crate::oxql::ast::{
    bool_order, int_order, Comparison, Double, Ident, Literal, LiteralType, LogicalOp,
};
use crate::oxql::matching::{compiles, is_match, regex_compiles, regex_matches};
use crate::oxql::point::{Points, PointsView, ValueArray, ValueArrayView};
use crate::oxql::table::{
    copied_fields, distinct_keys, has_key, same_fields, Field, FieldType, FieldValue, Table,
    TableView, Timeseries, TimeseriesView,
};
use crate::oxql::Error;
use crate::text::{order_of, seq_order, str_eq, Order};
use crate::time::Timestamp;

verus! {

/// A filter: a single comparison, or a combination of filters.
#[derive(Debug, PartialEq)]
pub enum Filter {
    /// A single comparison, like `foo == "bar"`.
    Atom(FilterAtom),
    /// Two filters, combined.
    Expr(FilterExpr),
}

/// Two filters, combined by a logical operator.
#[derive(Debug, PartialEq)]
pub struct FilterExpr {
    pub left: Box<Filter>,
    pub op: LogicalOp,
    pub right: Box<Filter>,
}

/// A comparison of a named column with a literal.
#[derive(Debug, PartialEq)]
pub struct FilterAtom {
    pub negated: bool,
    pub ident: Ident,
    pub cmp: Comparison,
    pub expr: Literal,
}

impl Clone for FilterAtom {
    fn clone(&self) -> (r: Self)
        ensures
            r == *self,
    {
        FilterAtom {
            negated: self.negated,
            ident: self.ident.clone(),
            cmp: self.cmp,
            expr: self.expr.clone(),
        }
    }
}

impl Clone for Filter {
    fn clone(&self) -> (r: Self)
        ensures
            r == *self,
        decreases self,
    {
        match self {
            Filter::Atom(atom) => Filter::Atom(atom.clone()),
            Filter::Expr(expr) => {
                let left = (&*expr.left).clone();
                let right = (&*expr.right).clone();
                Filter::Expr(
                    FilterExpr { left: Box::new(left), op: expr.op, right: Box::new(right) },
                )
            },
        }
    }
}

/// What the operator says of two ordered values. Only strings can be matched by a pattern.
pub open spec fn ordered(op: Comparison, order: Order) -> Option<bool> {
    if op is Like {
        None
    } else {
        Some(op.accepts(order))
    }
}

/// The order of addresses: those of version 4 come first.
pub open spec fn ip_order(a: crate::net::IpAddr, b: crate::net::IpAddr) -> Order {
    match (a, b) {
        (crate::net::IpAddr::V4(x), crate::net::IpAddr::V4(y)) => int_order(x as int, y as int),
        (crate::net::IpAddr::V6(x), crate::net::IpAddr::V6(y)) => int_order(x as int, y as int),
        (crate::net::IpAddr::V4(_), crate::net::IpAddr::V6(_)) => Order::Less,
        (crate::net::IpAddr::V6(_), crate::net::IpAddr::V4(_)) => Order::Greater,
    }
}

/// How a field's value compares with a literal: `None` where the types differ, or the operator
/// cannot be applied.
pub open spec fn compared(literal: Literal, value: FieldValue, op: Comparison) -> Option<bool> {
    match literal {
        Literal::Boolean(b) => match value {
            FieldValue::Bool(a) => ordered(op, bool_order(a, b)),
            _ => None,
        },
        Literal::Integer(n) => match value.integer() {
            Some(m) => ordered(op, int_order(m, n as int)),
            None => None,
        },
        Literal::Uuid(b) => match value {
            FieldValue::Uuid(a) => ordered(op, int_order(a as int, b as int)),
            _ => None,
        },
        Literal::IpAddr(b) => match value {
            FieldValue::IpAddr(a) => ordered(op, ip_order(a, b)),
            _ => None,
        },
        Literal::String(b) => match value {
            FieldValue::String(a) => if op is Like {
                if regex_compiles(b@) {
                    Some(regex_matches(b@, a@))
                } else {
                    None
                }
            } else {
                Some(op.accepts(seq_order(a@, b@)))
            },
            _ => None,
        },
        _ => None,
    }
}

fn order_ints(a: i128, b: i128) -> (order: Order)
    ensures
        order == int_order(a as int, b as int),
{
    if a < b {
        Order::Less
    } else if a > b {
        Order::Greater
    } else {
        Order::Equal
    }
}

fn order_wide(a: u128, b: u128) -> (order: Order)
    ensures
        order == int_order(a as int, b as int),
{
    if a < b {
        Order::Less
    } else if a > b {
        Order::Greater
    } else {
        Order::Equal
    }
}

fn order_bools(a: bool, b: bool) -> (order: Order)
    ensures
        order == bool_order(a, b),
{
    if a == b {
        Order::Equal
    } else if b {
        Order::Less
    } else {
        Order::Greater
    }
}

fn order_ips(a: &crate::net::IpAddr, b: &crate::net::IpAddr) -> (order: Order)
    ensures
        order == ip_order(*a, *b),
{
    match (a, b) {
        (crate::net::IpAddr::V4(x), crate::net::IpAddr::V4(y)) => order_wide(
            *x as u128,
            *y as u128,
        ),
        (crate::net::IpAddr::V6(x), crate::net::IpAddr::V6(y)) => order_wide(*x, *y),
        (crate::net::IpAddr::V4(_), crate::net::IpAddr::V6(_)) => Order::Less,
        (crate::net::IpAddr::V6(_), crate::net::IpAddr::V4(_)) => Order::Greater,
    }
}

fn apply_ordered(op: Comparison, order: Order) -> (r: Option<bool>)
    ensures
        r == ordered(op, order),
{
    match op {
        Comparison::Like => None,
        _ => Some(op.applies(order)),
    }
}

impl Literal {
    /// Compares a field's value with the literal, if that can be done.
    pub fn compare_field(&self, value: &FieldValue, op: Comparison) -> (r: Option<bool>)
        ensures
            r == compared(*self, *value, op),
    {
        match self {
            Literal::Boolean(b) => match value {
                FieldValue::Bool(a) => apply_ordered(op, order_bools(*a, *b)),
                _ => None,
            },
            Literal::Integer(n) => match value.as_integer() {
                Some(m) => apply_ordered(op, order_ints(m, *n)),
                None => None,
            },
            Literal::Uuid(b) => match value {
                FieldValue::Uuid(a) => apply_ordered(op, order_wide(*a, *b)),
                _ => None,
            },
            Literal::IpAddr(b) => match value {
                FieldValue::IpAddr(a) => apply_ordered(op, order_ips(a, b)),
                _ => None,
            },
            Literal::String(b) => match value {
                FieldValue::String(a) => match op {
                    Comparison::Like => {
                        if compiles(b.as_str()) {
                            Some(is_match(b.as_str(), a.as_str()))
                        } else {
                            None
                        }
                    },
                    _ => Some(op.applies(order_of(a.as_str(), b.as_str()))),
                },
                _ => None,
            },
            _ => None,
        }
    }
}

/// The marks of the timestamps that compare so with an instant.
pub open spec fn timestamp_marks(
    timestamps: Seq<Timestamp>,
    op: Comparison,
    instant: Timestamp,
) -> Seq<bool> {
    timestamps.map_values(|t: Timestamp| op.accepts(t.order(instant)))
}

/// The marks of the values that compare so with an integer. A missing value is never marked.
pub open spec fn integer_marks(values: Seq<Option<i64>>, op: Comparison, n: i128) -> Seq<bool> {
    values.map_values(
        |v: Option<i64>|
            match v {
                Some(x) => op.accepts(int_order(x as int, n as int)),
                None => false,
            },
    )
}

/// The marks of the values that compare so with a double.
pub open spec fn double_marks(values: Seq<Option<Double>>, op: Comparison, d: Double) -> Seq<
    bool,
> {
    values.map_values(
        |v: Option<Double>|
            match v {
                Some(x) => x.satisfies(op, d),
                None => false,
            },
    )
}

/// The marks of the values that compare so with a truth value.
pub open spec fn boolean_marks(values: Seq<Option<bool>>, op: Comparison, b: bool) -> Seq<bool> {
    values.map_values(
        |v: Option<bool>|
            match v {
                Some(x) => op.accepts(bool_order(x, b)),
                None => false,
            },
    )
}

/// The marks of the values that compare so with a string, or that match it as a pattern.
pub open spec fn string_marks(values: Seq<Option<String>>, op: Comparison, s: Seq<char>) -> Seq<
    bool,
> {
    values.map_values(
        |v: Option<String>|
            match v {
                Some(x) => if op is Like {
                    regex_matches(s, x@)
                } else {
                    op.accepts(seq_order(x@, s))
                },
                None => false,
            },
    )
}

/// Marks the values.
fn mark_timestamps(values: &Vec<Timestamp>, op: Comparison, instant: &Timestamp) -> (marks: Vec<bool>)
    ensures
        marks@ == timestamp_marks(values@, op, *instant),
{
    let mut marks: Vec<bool> = Vec::new();
    let mut i: usize = 0;
    while i < values.len()
        invariant
            i <= values@.len(),
            marks@ == timestamp_marks(values@, op, *instant).take(i as int),
        decreases values@.len() - i,
    {
        let mark = op.applies(values[i].order_against(instant));
        marks.push(mark);
        i = i + 1;
    }
    assert(marks@ =~= timestamp_marks(values@, op, *instant));
    marks
}

/// Marks the values.
fn mark_integers(values: &Vec<Option<i64>>, op: Comparison, n: i128) -> (marks: Vec<bool>)
    ensures
        marks@ == integer_marks(values@, op, n),
{
    let mut marks: Vec<bool> = Vec::new();
    let mut i: usize = 0;
    while i < values.len()
        invariant
            i <= values@.len(),
            marks@ == integer_marks(values@, op, n).take(i as int),
        decreases values@.len() - i,
    {
        let mark = match values[i] {
            Some(x) => op.applies(order_ints(x as i128, n)),
            None => false,
        };
        marks.push(mark);
        i = i + 1;
    }
    assert(marks@ =~= integer_marks(values@, op, n));
    marks
}

/// Marks the values.
fn mark_doubles(values: &Vec<Option<Double>>, op: Comparison, d: Double) -> (marks: Vec<bool>)
    ensures
        marks@ == double_marks(values@, op, d),
{
    let mut marks: Vec<bool> = Vec::new();
    let mut i: usize = 0;
    while i < values.len()
        invariant
            i <= values@.len(),
            marks@ == double_marks(values@, op, d).take(i as int),
        decreases values@.len() - i,
    {
        let mark = match values[i] {
            Some(x) => x.compare(op, d),
            None => false,
        };
        marks.push(mark);
        i = i + 1;
    }
    assert(marks@ =~= double_marks(values@, op, d));
    marks
}

/// Marks the values.
fn mark_booleans(values: &Vec<Option<bool>>, op: Comparison, b: bool) -> (marks: Vec<bool>)
    ensures
        marks@ == boolean_marks(values@, op, b),
{
    let mut marks: Vec<bool> = Vec::new();
    let mut i: usize = 0;
    while i < values.len()
        invariant
            i <= values@.len(),
            marks@ == boolean_marks(values@, op, b).take(i as int),
        decreases values@.len() - i,
    {
        let mark = match values[i] {
            Some(x) => op.applies(order_bools(x, b)),
            None => false,
        };
        marks.push(mark);
        i = i + 1;
    }
    assert(marks@ =~= boolean_marks(values@, op, b));
    marks
}

/// Marks the values. A pattern has to be a regular expression.
fn mark_strings(values: &Vec<Option<String>>, op: Comparison, s: &str) -> (marks: Vec<bool>)
    requires
        op is Like ==> regex_compiles(s@),
    ensures
        marks@ == string_marks(values@, op, s@),
{
    let mut marks: Vec<bool> = Vec::new();
    let mut i: usize = 0;
    while i < values.len()
        invariant
            i <= values@.len(),
            op is Like ==> regex_compiles(s@),
            marks@ == string_marks(values@, op, s@).take(i as int),
        decreases values@.len() - i,
    {
        let mark = match &values[i] {
            Some(x) => match op {
                Comparison::Like => is_match(s, x.as_str()),
                _ => op.applies(order_of(x.as_str(), s)),
            },
            None => false,
        };
        marks.push(mark);
        i = i + 1;
    }
    assert(marks@ =~= string_marks(values@, op, s@));
    marks
}

impl FilterAtom {
    /// What the filter says of a field. A filter that names another field lets it pass.
    pub open spec fn field_result(self, name: Seq<char>, value: FieldValue) -> Result<
        bool,
        Error,
    > {
        if self.ident.0@ != name {
            Ok(true)
        } else {
            match compared(self.expr, value, self.cmp) {
                Some(holds) => Ok(holds != self.negated),
                None => Err(Error::IncompatibleField { name: self.ident.0 }),
            }
        }
    }

    /// Applies the filter to a field.
    ///
    /// A filter on another field lets this one pass. Where the filter names the field and the types
    /// are compatible, the result is what the filter says of the value; where they are not, the
    /// result is an error.
    pub fn filter_field(&self, name: &str, value: &FieldValue) -> (r: Result<bool, Error>)
        ensures
            r == self.field_result(name@, *value),
    {
        if !str_eq(self.ident.as_str(), name) {
            return Ok(true);
        }
        match self.expr.compare_field(value, self.cmp) {
            Some(holds) => Ok(if self.negated { !holds } else { holds }),
            None => Err(Error::IncompatibleField { name: self.ident.0.clone() }),
        }
    }

    /// The filter's operator can be applied to timestamps: only strings match a pattern.
    pub open spec fn fits_timestamps(self) -> bool {
        !(self.cmp is Like && self.expr is Timestamp)
    }

    /// What the filter says of each timestamp.
    pub open spec fn timestamp_result(self, timestamps: Seq<Timestamp>) -> Result<
        Seq<bool>,
        Error,
    > {
        match self.expr {
            Literal::Timestamp(t) => Ok(timestamp_marks(timestamps, self.cmp, t)),
            _ => Err(Error::NotATimestamp),
        }
    }

    /// Marks the points that the filter keeps by their timestamps.
    pub fn filter_points_by_timestamp(&self, timestamps: &Vec<Timestamp>) -> (r: Result<
        Vec<bool>,
        Error,
    >)
        requires
            self.fits_timestamps(),
        ensures
            match r {
                Ok(marks) => self.timestamp_result(timestamps@) == Ok::<Seq<bool>, Error>(marks@),
                Err(e) => self.timestamp_result(timestamps@) == Err::<Seq<bool>, Error>(e),
            },
    {
        match &self.expr {
            Literal::Timestamp(instant) => Ok(mark_timestamps(timestamps, self.cmp, instant)),
            _ => Err(Error::NotATimestamp),
        }
    }

    /// The filter's operator can be applied to these values: only strings match a pattern.
    pub open spec fn fits_values(self, values: ValueArrayView) -> bool {
        self.cmp is Like ==> match (self.expr, values) {
            (Literal::Integer(_), ValueArrayView::Integer(_)) => false,
            (Literal::Double(_), ValueArrayView::Double(_)) => false,
            (Literal::Boolean(_), ValueArrayView::Boolean(_)) => false,
            _ => true,
        }
    }

    /// What the filter says of each value.
    pub open spec fn datum_result(self, values: ValueArrayView) -> Result<Seq<bool>, Error> {
        match (self.expr, values) {
            (Literal::Integer(n), ValueArrayView::Integer(s)) => Ok(integer_marks(s, self.cmp, n)),
            (Literal::Double(d), ValueArrayView::Double(s)) => Ok(double_marks(s, self.cmp, d)),
            (Literal::Boolean(b), ValueArrayView::Boolean(s)) => Ok(
                boolean_marks(s, self.cmp, b),
            ),
            (Literal::String(t), ValueArrayView::String(s)) => if self.cmp is Like
                && !regex_compiles(t@) {
                Err(Error::BadRegex)
            } else {
                Ok(string_marks(s, self.cmp, t@))
            },
            _ => Err(
                Error::IncompatibleDatum { literal: self.expr.kind(), values: values.kind() },
            ),
        }
    }

    /// Marks the points that the filter keeps by their values.
    pub fn filter_points_by_datum(&self, values: &ValueArray) -> (r: Result<Vec<bool>, Error>)
        requires
            self.fits_values(values@),
        ensures
            match r {
                Ok(marks) => self.datum_result(values@) == Ok::<Seq<bool>, Error>(marks@),
                Err(e) => self.datum_result(values@) == Err::<Seq<bool>, Error>(e),
            },
    {
        match (&self.expr, values) {
            (Literal::Integer(n), ValueArray::Integer(ints)) => Ok(
                mark_integers(ints, self.cmp, *n),
            ),
            (Literal::Double(d), ValueArray::Double(doubles)) => Ok(
                mark_doubles(doubles, self.cmp, *d),
            ),
            (Literal::String(string), ValueArray::String(strings)) => {
                if self.cmp == Comparison::Like && !compiles(string.as_str()) {
                    return Err(Error::BadRegex);
                }
                Ok(mark_strings(strings, self.cmp, string.as_str()))
            },
            (Literal::Boolean(b), ValueArray::Boolean(booleans)) => Ok(
                mark_booleans(booleans, self.cmp, *b),
            ),
            (_, _) => Err(
                Error::IncompatibleDatum {
                    literal: self.expr.literal_type(),
                    values: values.data_type(),
                },
            ),
        }
    }

    /// The filter can be applied to these points: only strings match a pattern.
    pub open spec fn fits_points(self, points: PointsView) -> bool {
        if self.ident.0@ == "timestamp"@ {
            self.fits_timestamps()
        } else if self.ident.0@ == "datum"@ {
            points.values.len() == 1 ==> self.fits_values(points.values[0].values)
        } else {
            true
        }
    }

    /// What the filter says of each point. Only filters on `timestamp` and `datum` speak of points.
    pub open spec fn points_result(self, points: PointsView) -> Result<Seq<bool>, Error> {
        if self.ident.0@ == "timestamp"@ {
            self.timestamp_result(points.timestamps)
        } else if self.ident.0@ == "datum"@ {
            if points.values.len() != 1 {
                Err(Error::MultidimensionalDatum)
            } else {
                self.datum_result(points.values[0].values)
            }
        } else {
            Ok(Seq::new(points.timestamps.len(), |i: int| true))
        }
    }

    /// Marks the points that the filter keeps.
    pub fn filter_points2(&self, points2: &Points) -> (r: Result<Vec<bool>, Error>)
        requires
            self.fits_points(points2@),
        ensures
            match r {
                Ok(marks) => self.points_result(points2@) == Ok::<Seq<bool>, Error>(marks@),
                Err(e) => self.points_result(points2@) == Err::<Seq<bool>, Error>(e),
            },
    {
        let ident = self.ident.as_str();
        if str_eq(ident, "timestamp") {
            self.filter_points_by_timestamp(&points2.timestamps)
        } else if str_eq(ident, "datum") {
            if points2.dimensionality() != 1 {
                return Err(Error::MultidimensionalDatum);
            }
            assert(points2@.values[0] == points2.values@[0]@);
            self.filter_points_by_datum(&points2.values[0].values)
        } else {
            Ok(all_marked(points2.len()))
        }
    }

    /// The literal can be compared with fields of the type.
    pub fn expr_type_is_compatible_with_field(&self, field_type: FieldType) -> (yes: bool)
        ensures
            yes == compatible(self.expr.kind(), field_type),
    {
        match self.expr.literal_type() {
            LiteralType::Integer => match field_type {
                FieldType::I8
                | FieldType::U8
                | FieldType::I16
                | FieldType::U16
                | FieldType::I32
                | FieldType::U32
                | FieldType::I64
                | FieldType::U64 => true,
                _ => false,
            },
            LiteralType::String => field_type == FieldType::String,
            LiteralType::Boolean => field_type == FieldType::Bool,
            LiteralType::Uuid => field_type == FieldType::Uuid,
            LiteralType::IpAddr => field_type == FieldType::IpAddr,
            _ => false,
        }
    }

    /// The comparison as a database expression, where `expr` is the literal's text in it.
    pub fn as_db_safe_string(&self, expr: &str) -> (s: String)
        ensures
            s@ == (if self.negated {
                " NOT "@
            } else {
                ""@
            }) + self.cmp.db_function() + "("@ + self.ident.0@ + ", "@ + expr@ + ")"@,
    {
        let mut s = (if self.negated { " NOT " } else { "" }).to_owned();
        s.append(self.cmp.as_db_function_name());
        s.append("(");
        s.append(self.ident.as_str());
        s.append(", ");
        s.append(expr);
        s.append(")");
        s
    }
}

/// A literal of the type can be compared with fields of the other type.
pub open spec fn compatible(literal: LiteralType, field: FieldType) -> bool {
    match literal {
        LiteralType::Integer => match field {
            FieldType::I8 | FieldType::U8 | FieldType::I16 | FieldType::U16 | FieldType::I32
            | FieldType::U32 | FieldType::I64 | FieldType::U64 => true,
            _ => false,
        },
        LiteralType::String => field == FieldType::String,
        LiteralType::Boolean => field == FieldType::Bool,
        LiteralType::Uuid => field == FieldType::Uuid,
        LiteralType::IpAddr => field == FieldType::IpAddr,
        _ => false,
    }
}

/// A comparison other than by pattern succeeds exactly where the types are compatible.
pub proof fn compatible_values_compare(literal: Literal, value: FieldValue, op: Comparison)
    requires
        !(op is Like),
    ensures
        compared(literal, value, op) is Some <==> compatible(literal.kind(), value.kind()),
{
}

/// Marks for a number of points, each of them set.
fn all_marked(n: usize) -> (marks: Vec<bool>)
    ensures
        marks@ == Seq::new(n as nat, |i: int| true),
{
    let mut marks: Vec<bool> = Vec::new();
    let mut i: usize = 0;
    while i < n
        invariant
            i <= n,
            marks@ == Seq::new(i as nat, |k: int| true),
        decreases n - i,
    {
        marks.push(true);
        i = i + 1;
        assert(marks@ =~= Seq::new(i as nat, |k: int| true));
    }
    marks
}

/// The marks of two filters, combined.
pub open spec fn combined(op: LogicalOp, left: Seq<bool>, right: Seq<bool>) -> Seq<bool> {
    Seq::new(left.len(), |i: int| op.combine(left[i], right[i]))
}

fn combine_marks(op: LogicalOp, left: &Vec<bool>, right: &Vec<bool>) -> (marks: Vec<bool>)
    requires
        left@.len() == right@.len(),
    ensures
        marks@ == combined(op, left@, right@),
{
    let mut marks: Vec<bool> = Vec::new();
    let mut i: usize = 0;
    while i < left.len()
        invariant
            i <= left@.len() == right@.len(),
            marks@ == combined(op, left@, right@).take(i as int),
        decreases left@.len() - i,
    {
        marks.push(op.apply(left[i], right[i]));
        i = i + 1;
    }
    assert(marks@ =~= combined(op, left@, right@));
    marks
}

/// What a filter says where it says the same of both parts, and the first error otherwise.
pub open spec fn both<A, B>(left: Result<A, Error>, right: Result<A, Error>, f: spec_fn(A, A) -> B) -> Result<
    B,
    Error,
> {
    match (left, right) {
        (Err(e), _) => Err(e),
        (Ok(_), Err(e)) => Err(e),
        (Ok(l), Ok(r)) => Ok(f(l, r)),
    }
}

impl Filter {
    /// What the filter says of a field.
    pub open spec fn field_result(self, name: Seq<char>, value: FieldValue) -> Result<bool, Error>
        decreases self,
    {
        match self {
            Filter::Atom(atom) => atom.field_result(name, value),
            Filter::Expr(expr) => both(
                expr.left.field_result(name, value),
                expr.right.field_result(name, value),
                |l: bool, r: bool| expr.op.combine(l, r),
            ),
        }
    }

    /// The filter can be applied to these points.
    pub open spec fn fits_points(self, points: PointsView) -> bool
        decreases self,
    {
        match self {
            Filter::Atom(atom) => atom.fits_points(points),
            Filter::Expr(expr) => expr.left.fits_points(points) && (expr.left.points_result(
                points,
            ) is Ok ==> expr.right.fits_points(points)),
        }
    }

    /// What the filter says of each point.
    pub open spec fn points_result(self, points: PointsView) -> Result<Seq<bool>, Error>
        decreases self,
    {
        match self {
            Filter::Atom(atom) => atom.points_result(points),
            Filter::Expr(expr) => both(
                expr.left.points_result(points),
                expr.right.points_result(points),
                |l: Seq<bool>, r: Seq<bool>| combined(expr.op, l, r),
            ),
        }
    }

    /// Applies the filter to a field.
    pub fn filter_field(&self, name: &str, value: &FieldValue) -> (r: Result<bool, Error>)
        ensures
            r == self.field_result(name@, *value),
        decreases self,
    {
        match self {
            Filter::Atom(atom) => atom.filter_field(name, value),
            Filter::Expr(expr) => expr.filter_field(name, value),
        }
    }

    /// Marks the points that the filter keeps.
    pub fn filter_points2_inner(&self, points2: &Points) -> (r: Result<Vec<bool>, Error>)
        requires
            points2@.well_formed(),
            self.fits_points(points2@),
        ensures
            match r {
                Ok(marks) => self.points_result(points2@) == Ok::<Seq<bool>, Error>(marks@),
                Err(e) => self.points_result(points2@) == Err::<Seq<bool>, Error>(e),
            },
        decreases self,
    {
        match self {
            Filter::Atom(atom) => atom.filter_points2(points2),
            Filter::Expr(expr) => expr.filter_points2(points2),
        }
    }

    /// The points that the filter keeps.
    pub open spec fn kept_points(self, points: PointsView) -> Result<PointsView, Error> {
        match self.points_result(points) {
            Ok(marks) => Ok(points.keep(marks)),
            Err(e) => Err(e),
        }
    }

    /// Applies the filter to points.
    pub fn filter_points2(&self, points2: &Points) -> (r: Result<Points, Error>)
        requires
            points2@.well_formed(),
            self.fits_points(points2@),
        ensures
            match r {
                Ok(points) => self.kept_points(points2@) == Ok::<PointsView, Error>(points@)
                    && points@.well_formed(),
                Err(e) => self.kept_points(points2@) == Err::<PointsView, Error>(e),
            },
    {
        match self.filter_points2_inner(points2) {
            Ok(to_keep) => {
                proof {
                    one_mark_per_point(*self, points2@);
                }
                points2.filter(&to_keep)
            },
            Err(e) => Err(e),
        }
    }

    /// Whether the filter lets the first `n` fields pass.
    pub open spec fn fields_pass(self, fields: Seq<Field>, n: nat) -> Result<bool, Error>
        decreases n,
    {
        if n == 0 {
            Ok(true)
        } else {
            match self.fields_pass(fields, (n - 1) as nat) {
                Ok(true) => self.field_result(fields[n - 1].name@, fields[n - 1].value),
                r => r,
            }
        }
    }

    /// What the filter leaves of a timeseries: nothing, if it does not let every field pass, and
    /// the points that it keeps otherwise.
    pub open spec fn kept_timeseries(self, series: TimeseriesView) -> Result<
        Option<TimeseriesView>,
        Error,
    > {
        match self.fields_pass(series.fields, series.fields.len()) {
            Ok(true) => match self.kept_points(series.points) {
                Ok(points) => Ok(Some(TimeseriesView { fields: series.fields, points })),
                Err(e) => Err(e),
            },
            Ok(false) => Ok(None),
            Err(e) => Err(e),
        }
    }

    /// What the filter leaves of these timeseries, or the first error.
    pub open spec fn kept_series(self, series: Seq<TimeseriesView>) -> Result<
        Seq<TimeseriesView>,
        Error,
    >
        decreases series.len(),
    {
        if series.len() == 0 {
            Ok(Seq::empty())
        } else {
            match self.kept_series(series.drop_last()) {
                Ok(rest) => match self.kept_timeseries(series.last()) {
                    Ok(Some(t)) => Ok(rest.push(t)),
                    Ok(None) => Ok(rest),
                    Err(e) => Err(e),
                },
                Err(e) => Err(e),
            }
        }
    }

    /// The filter can be applied to the points of each timeseries that it comes to.
    pub open spec fn fits_series(self, series: Seq<TimeseriesView>) -> bool
        decreases series.len(),
    {
        series.len() > 0 ==> {
            &&& self.fits_series(series.drop_last())
            &&& (self.kept_series(series.drop_last()) is Ok && self.fields_pass(
                series.last().fields,
                series.last().fields.len(),
            ) == Ok::<bool, Error>(true)) ==> self.fits_points(series.last().points)
        }
    }

    /// Applies the filter to a table.
    pub fn apply(&self, tables: &Vec<Table>) -> (r: Result<Vec<Table>, Error>)
        requires
            tables@.len() == 1 ==> tables@[0]@.well_formed() && self.fits_series(
                tables@[0]@.timeseries,
            ),
        ensures
            tables@.len() != 1 ==> r == Err::<Vec<Table>, Error>(Error::FilterTableCount),
            tables@.len() == 1 ==> match r {
                Ok(out) => out@.len() == 1 && out@[0]@.well_formed() && out@[0]@.name
                    == tables@[0]@.name && self.kept_series(tables@[0]@.timeseries) == Ok::<
                    Seq<TimeseriesView>,
                    Error,
                >(out@[0]@.timeseries),
                Err(e) => self.kept_series(tables@[0]@.timeseries) == Err::<
                    Seq<TimeseriesView>,
                    Error,
                >(e),
            },
    {
        if tables.len() != 1 {
            return Err(Error::FilterTableCount);
        }
        let table = &tables[0];
        let ghost series = table@.timeseries;
        let mut out = Table::new(table.name());
        proof {
            reveal(drawn_from);
        }
        let mut i: usize = 0;
        while i < table.timeseries.len()
            invariant
                i <= table.timeseries@.len() == series.len(),
                tables@.len() == 1,
                *table == tables@[0],
                series == table@.timeseries,
                table@.well_formed(),
                self.fits_series(series),
                out@.well_formed(),
                out@.name == table@.name,
                self.kept_series(series.take(i as int)) == Ok::<Seq<TimeseriesView>, Error>(
                    out@.timeseries,
                ),
                drawn_from(out@.timeseries, series, i as int),
            decreases table.timeseries@.len() - i,
        {
            let input = &table.timeseries[i];
            proof {
                assert(series[i as int] == input@);
                assert(series.take(i + 1).drop_last() =~= series.take(i as int));
                assert(series.take(i + 1).last() == input@);
                fits_prefix(*self, series, i + 1);
            }
            match self.filter_timeseries(input) {
                Err(e) => {
                    proof {
                        first_error_stands(*self, series, i as int + 1, e);
                    }
                    return Err(e);
                },
                Ok(None) => {
                    proof {
                        drawn_widens(out@.timeseries, series, i as int);
                    }
                },
                Ok(Some(t)) => {
                    let ghost before = out@;
                    proof {
                        drawn_keys_are_new(before.timeseries, series, i as int);
                        drawn_grows(before, series, i as int, t@);
                    }
                    let inserted = out.insert(t);
                    assert(inserted is Ok);
                },
            }
            i = i + 1;
        }
        proof {
            assert(series.take(series.len() as int) =~= series);
        }
        let mut r: Vec<Table> = Vec::new();
        r.push(out);
        Ok(r)
    }

    /// Applies the filter to a timeseries.
    fn filter_timeseries(&self, input: &Timeseries) -> (r: Result<Option<Timeseries>, Error>)
        requires
            input@.well_formed(),
            self.fields_pass(input@.fields, input@.fields.len()) == Ok::<bool, Error>(true)
                ==> self.fits_points(input@.points),
        ensures
            match r {
                Ok(Some(t)) => self.kept_timeseries(input@) == Ok::<Option<TimeseriesView>, Error>(
                    Some(t@),
                ) && t@.well_formed() && t@.fields == input@.fields,
                Ok(None) => self.kept_timeseries(input@) == Ok::<Option<TimeseriesView>, Error>(
                    None,
                ),
                Err(e) => self.kept_timeseries(input@) == Err::<Option<TimeseriesView>, Error>(e),
            },
    {
        match self.let_pass(&input.fields) {
            Err(e) => Err(e),
            Ok(false) => Ok(None),
            Ok(true) => match self.filter_points2(&input.points) {
                Err(e) => Err(e),
                Ok(points) => Ok(
                    Some(Timeseries { fields: copied_fields(&input.fields), points }),
                ),
            },
        }
    }

    /// Whether the filter lets all the fields pass.
    fn let_pass(&self, fields: &Vec<Field>) -> (r: Result<bool, Error>)
        ensures
            r == self.fields_pass(fields@, fields@.len()),
    {
        let mut i: usize = 0;
        while i < fields.len()
            invariant
                i <= fields@.len(),
                self.fields_pass(fields@, i as nat) == Ok::<bool, Error>(true),
            decreases fields@.len() - i,
        {
            match self.filter_field(fields[i].name.as_str(), &fields[i].value) {
                Ok(true) => {},
                r => {
                    proof {
                        decided_early(*self, fields@, (i + 1) as nat);
                    }
                    return r;
                },
            }
            i = i + 1;
        }
        Ok(true)
    }
}

/// Each of the timeseries has the fields of one among the first `n` of the others.
#[verifier::opaque]
spec fn drawn_from(out: Seq<TimeseriesView>, series: Seq<TimeseriesView>, n: int) -> bool {
    forall|k: int|
        0 <= k < out.len() ==> exists|j: int|
            0 <= j < n && (#[trigger] series[j]).fields == (#[trigger] out[k]).fields
}

proof fn drawn_keys_are_new(out: Seq<TimeseriesView>, series: Seq<TimeseriesView>, n: int)
    requires
        0 <= n < series.len(),
        distinct_keys(series),
        drawn_from(out, series, n),
    ensures
        !has_key(out, series[n].fields),
{
    reveal(drawn_from);
    if has_key(out, series[n].fields) {
        let k = choose|k: int|
            0 <= k < out.len() && same_fields(#[trigger] out[k].fields, series[n].fields);
        let o = out[k];
        let j = choose|j: int|
            0 <= j < n && (#[trigger] series[j]).fields == out[k].fields;
        assert(same_fields(series[j].fields, series[n].fields));
    }
}

proof fn drawn_widens(out: Seq<TimeseriesView>, series: Seq<TimeseriesView>, n: int)
    requires
        drawn_from(out, series, n),
    ensures
        drawn_from(out, series, n + 1),
{
    reveal(drawn_from);
    assert forall|k: int| 0 <= k < out.len() implies exists|j: int|
        0 <= j < n + 1 && (#[trigger] series[j]).fields == (#[trigger] out[k]).fields by {
        let o = out[k];
        let j = choose|j: int| 0 <= j < n && (#[trigger] series[j]).fields == out[k].fields;
        assert(series[j].fields == out[k].fields);
    }
}

proof fn drawn_grows(out: TableView, series: Seq<TimeseriesView>, n: int, t: TimeseriesView)
    requires
        0 <= n < series.len(),
        drawn_from(out.timeseries, series, n),
        out.well_formed(),
        !has_key(out.timeseries, series[n].fields),
        t.well_formed(),
        t.fields == series[n].fields,
    ensures
        drawn_from(out.timeseries.push(t), series, n + 1),
        (TableView { name: out.name, timeseries: out.timeseries.push(t) }).well_formed(),
{
    reveal(drawn_from);
    let grown = out.timeseries.push(t);
    assert forall|k: int| 0 <= k < grown.len() implies exists|j: int|
        0 <= j < n + 1 && (#[trigger] series[j]).fields == (#[trigger] grown[k]).fields by {
        if k < out.timeseries.len() {
            assert(grown[k] == out.timeseries[k]);
            let j = choose|j: int|
                0 <= j < n && (#[trigger] series[j]).fields == out.timeseries[k].fields;
            assert(series[j].fields == grown[k].fields);
        } else {
            assert(series[n].fields == grown[k].fields);
        }
    }
    assert forall|a: int, b: int| 0 <= a < b < grown.len() implies !same_fields(
        #[trigger] grown[a].fields,
        #[trigger] grown[b].fields,
    ) by {
        assert(grown[a] == out.timeseries[a]);
        if b < out.timeseries.len() {
            assert(grown[b] == out.timeseries[b]);
        }
    }
    assert forall|a: int| 0 <= a < grown.len() implies (
    #[trigger] grown[a]).well_formed() by {
        if a < out.timeseries.len() {
            assert(grown[a] == out.timeseries[a]);
        }
    }
}

pub(crate) proof fn fits_prefix(filter: Filter, series: Seq<TimeseriesView>, n: int)
    requires
        0 <= n <= series.len(),
        filter.fits_series(series),
    ensures
        filter.fits_series(series.take(n)),
    decreases series.len() - n,
{
    if n < series.len() {
        fits_prefix(filter, series, n + 1);
        assert(series.take(n + 1).drop_last() =~= series.take(n));
    } else {
        assert(series.take(n) =~= series);
    }
}

proof fn first_error_stands(filter: Filter, series: Seq<TimeseriesView>, n: int, e: Error)
    requires
        0 <= n <= series.len(),
        filter.kept_series(series.take(n)) == Err::<Seq<TimeseriesView>, Error>(e),
    ensures
        filter.kept_series(series) == Err::<Seq<TimeseriesView>, Error>(e),
    decreases series.len() - n,
{
    if n < series.len() {
        assert(series.take(n + 1).drop_last() =~= series.take(n));
        first_error_stands(filter, series, n + 1, e);
    } else {
        assert(series.take(n) =~= series);
    }
}

proof fn decided_early(filter: Filter, fields: Seq<Field>, n: nat)
    requires
        n <= fields.len(),
        filter.fields_pass(fields, n) != Ok::<bool, Error>(true),
    ensures
        filter.fields_pass(fields, fields.len()) == filter.fields_pass(fields, n),
    decreases fields.len() - n,
{
    if n < fields.len() {
        decided_early(filter, fields, n + 1);
    }
}

/// A filter that can be evaluated gives one mark for each point.
pub proof fn one_mark_per_point(filter: Filter, points: PointsView)
    requires
        points.well_formed(),
    ensures
        filter.points_result(points) matches Ok(marks) ==> marks.len() == points.timestamps.len(),
    decreases filter,
{
    match filter {
        Filter::Atom(_) => {
            if points.values.len() == 1 {
                assert(points.values[0].values.len() == points.timestamps.len());
            }
        },
        Filter::Expr(expr) => {
            one_mark_per_point(*expr.left, points);
            one_mark_per_point(*expr.right, points);
        },
    }
}

impl FilterExpr {
    /// Applies the filter to a field.
    pub fn filter_field(&self, name: &str, value: &FieldValue) -> (r: Result<bool, Error>)
        ensures
            r == both(
                self.left.field_result(name@, *value),
                self.right.field_result(name@, *value),
                |l: bool, r: bool| self.op.combine(l, r),
            ),
        decreases self,
    {
        let left = match self.left.filter_field(name, value) {
            Ok(b) => b,
            Err(e) => return Err(e),
        };
        let right = match self.right.filter_field(name, value) {
            Ok(b) => b,
            Err(e) => return Err(e),
        };
        Ok(self.op.apply(left, right))
    }

    /// Marks the points that the filter keeps.
    pub fn filter_points2(&self, points2: &Points) -> (r: Result<Vec<bool>, Error>)
        requires
            points2@.well_formed(),
            self.left.fits_points(points2@),
            self.left.points_result(points2@) is Ok ==> self.right.fits_points(points2@),
        ensures
            ({
                let result = both(
                    self.left.points_result(points2@),
                    self.right.points_result(points2@),
                    |l: Seq<bool>, r: Seq<bool>| combined(self.op, l, r),
                );
                match r {
                    Ok(marks) => result == Ok::<Seq<bool>, Error>(marks@),
                    Err(e) => result == Err::<Seq<bool>, Error>(e),
                }
            }),
        decreases self,
    {
        let left = match self.left.filter_points2_inner(points2) {
            Ok(marks) => marks,
            Err(e) => return Err(e),
        };
        let right = match self.right.filter_points2_inner(points2) {
            Ok(marks) => marks,
            Err(e) => return Err(e),
        };
        proof {
            one_mark_per_point(*self.left, points2@);
            one_mark_per_point(*self.right, points2@);
        }
        Ok(combine_marks(self.op, &left, &right))
    }
}

} // verus!
