//! What filters mean for the fields, the timestamps and the values of timeseries.

use vstd::prelude::*;

use crate::net::IpAddr;
use crate::oxql::ast::{bool_order, int_order, Comparison, Double, Literal, LogicalOp};
use crate::oxql::filter::{
    combined, ip_order, one_mark_per_point, Filter, FilterAtom, FilterExpr,
};
use crate::oxql::matching::{regex_compiles, regex_matches};
use crate::oxql::point::{kept, PointsView, ValueArrayView};
use crate::oxql::table::{Field, FieldValue, TimeseriesView};
use crate::oxql::Error;
use crate::text::{seq_lt, seq_lt_is_total, seq_order};
use crate::time::Timestamp;

verus! {

/// The operators mean on numbers what they say.
pub proof fn operators_compare_numbers(x: int, y: int)
    ensures
        Comparison::Eq.accepts(int_order(x, y)) <==> x == y,
        Comparison::Ne.accepts(int_order(x, y)) <==> x != y,
        Comparison::Lt.accepts(int_order(x, y)) <==> x < y,
        Comparison::Le.accepts(int_order(x, y)) <==> x <= y,
        Comparison::Gt.accepts(int_order(x, y)) <==> x > y,
        Comparison::Ge.accepts(int_order(x, y)) <==> x >= y,
{
}

/// A string comes before another one where, at the first place at which they differ, its character
/// is the lesser, or where it ends there.
pub proof fn strings_are_ordered_at_the_first_difference(a: Seq<char>, b: Seq<char>)
    ensures
        seq_lt(a, b) <==> exists|k: int|
            {
                &&& 0 <= k <= a.len()
                &&& k < b.len()
                &&& #[trigger] a.take(k) == b.take(k)
                &&& k < a.len() ==> a[k] < b[k]
            },
    decreases a.len(),
{
    if b.len() > 0 && a.len() > 0 && a[0] == b[0] {
        let x = a.drop_first();
        let y = b.drop_first();
        strings_are_ordered_at_the_first_difference(x, y);
        if seq_lt(x, y) {
            let k = choose|k: int|
                {
                    &&& 0 <= k <= x.len()
                    &&& k < y.len()
                    &&& #[trigger] x.take(k) == y.take(k)
                    &&& k < x.len() ==> x[k] < y[k]
                };
            assert forall|i: int| 0 <= i < k + 1 implies a[i] == b[i] by {
                if i > 0 {
                    assert(x.take(k)[i - 1] == y.take(k)[i - 1]);
                }
            }
            assert(a.take(k + 1) =~= b.take(k + 1));
        }
        if exists|k: int|
            {
                &&& 0 <= k <= a.len()
                &&& k < b.len()
                &&& #[trigger] a.take(k) == b.take(k)
                &&& k < a.len() ==> a[k] < b[k]
            } {
            let k = choose|k: int|
                {
                    &&& 0 <= k <= a.len()
                    &&& k < b.len()
                    &&& #[trigger] a.take(k) == b.take(k)
                    &&& k < a.len() ==> a[k] < b[k]
                };
            assert(k > 0);
            assert forall|i: int| 0 <= i < k - 1 implies x[i] == y[i] by {
                assert(a.take(k)[i + 1] == b.take(k)[i + 1]);
            }
            assert(x.take(k - 1) =~= y.take(k - 1));
        }
    } else if b.len() > 0 {
        assert(a.take(0) =~= b.take(0));
        if exists|k: int|
            {
                &&& 0 <= k <= a.len()
                &&& k < b.len()
                &&& #[trigger] a.take(k) == b.take(k)
                &&& k < a.len() ==> a[k] < b[k]
            } {
            let k = choose|k: int|
                {
                    &&& 0 <= k <= a.len()
                    &&& k < b.len()
                    &&& #[trigger] a.take(k) == b.take(k)
                    &&& k < a.len() ==> a[k] < b[k]
                };
            if k > 0 {
                assert(a.take(k)[0] == b.take(k)[0]);
            }
        }
    }
}

/// The operators on strings go by their order, and of two different strings one comes first.
pub proof fn operators_compare_strings(a: Seq<char>, b: Seq<char>)
    ensures
        Comparison::Eq.accepts(seq_order(a, b)) <==> a == b,
        Comparison::Ne.accepts(seq_order(a, b)) <==> a != b,
        Comparison::Lt.accepts(seq_order(a, b)) <==> seq_lt(a, b),
        Comparison::Le.accepts(seq_order(a, b)) <==> seq_lt(a, b) || a == b,
        Comparison::Gt.accepts(seq_order(a, b)) <==> seq_lt(b, a),
        Comparison::Ge.accepts(seq_order(a, b)) <==> seq_lt(b, a) || a == b,
{
    seq_lt_is_total(a, b);
}

/// The operators on truth values: false comes before true.
pub proof fn operators_compare_booleans(a: bool, b: bool)
    ensures
        Comparison::Eq.accepts(bool_order(a, b)) <==> a == b,
        Comparison::Ne.accepts(bool_order(a, b)) <==> a != b,
        Comparison::Lt.accepts(bool_order(a, b)) <==> !a && b,
        Comparison::Le.accepts(bool_order(a, b)) <==> !a || b,
        Comparison::Gt.accepts(bool_order(a, b)) <==> a && !b,
        Comparison::Ge.accepts(bool_order(a, b)) <==> a || !b,
{
}

/// The operators on instants: first the seconds decide, and then the nanoseconds.
pub proof fn operators_compare_instants(a: Timestamp, b: Timestamp)
    ensures
        Comparison::Eq.accepts(a.order(b)) <==> a.secs == b.secs && a.nanos == b.nanos,
        Comparison::Ne.accepts(a.order(b)) <==> a.secs != b.secs || a.nanos != b.nanos,
        Comparison::Lt.accepts(a.order(b)) <==> a.secs < b.secs || (a.secs == b.secs && a.nanos
            < b.nanos),
        Comparison::Le.accepts(a.order(b)) <==> a.secs < b.secs || (a.secs == b.secs && a.nanos
            <= b.nanos),
        Comparison::Gt.accepts(a.order(b)) <==> a.secs > b.secs || (a.secs == b.secs && a.nanos
            > b.nanos),
        Comparison::Ge.accepts(a.order(b)) <==> a.secs > b.secs || (a.secs == b.secs && a.nanos
            >= b.nanos),
{
}

/// The operators on addresses: those of version 4 come before those of version 6, and each goes by
/// its bits.
pub proof fn operators_compare_addresses(a: IpAddr, b: IpAddr)
    ensures
        Comparison::Eq.accepts(ip_order(a, b)) <==> a == b,
        Comparison::Ne.accepts(ip_order(a, b)) <==> a != b,
        Comparison::Lt.accepts(ip_order(a, b)) <==> match (a, b) {
            (IpAddr::V4(x), IpAddr::V4(y)) => x < y,
            (IpAddr::V6(x), IpAddr::V6(y)) => x < y,
            (IpAddr::V4(_), IpAddr::V6(_)) => true,
            (IpAddr::V6(_), IpAddr::V4(_)) => false,
        },
        Comparison::Gt.accepts(ip_order(a, b)) <==> Comparison::Lt.accepts(ip_order(b, a)),
        Comparison::Le.accepts(ip_order(a, b)) <==> !Comparison::Lt.accepts(ip_order(b, a)),
        Comparison::Ge.accepts(ip_order(a, b)) <==> !Comparison::Lt.accepts(ip_order(a, b)),
{
}

/// The operators on doubles, by their bits. What is not a number is unequal to everything, and in no
/// order to anything. Otherwise positive numbers are ordered by their bits, and negative ones the
/// other way round; a negative number is less than a positive one, but for the two zeros, which are
/// equal.
pub proof fn operators_compare_doubles(a: Double, b: Double)
    ensures
        ({
            let nan = |d: Double|
                0x7ff0_0000_0000_0000 < d.bits < 0x8000_0000_0000_0000 || d.bits
                    > 0xfff0_0000_0000_0000;
            let negative = |d: Double| d.bits >= 0x8000_0000_0000_0000;
            let zero = |d: Double| d.bits == 0 || d.bits == 0x8000_0000_0000_0000;
            &&& a.satisfies(Comparison::Ne, b) <==> !a.satisfies(Comparison::Eq, b)
            &&& nan(a) || nan(b) ==> !a.satisfies(Comparison::Eq, b) && !a.satisfies(
                Comparison::Lt,
                b,
            ) && !a.satisfies(Comparison::Le, b) && !a.satisfies(Comparison::Gt, b) && !a.satisfies(
                Comparison::Ge,
                b,
            )
            &&& !nan(a) && !nan(b) ==> {
                &&& a.satisfies(Comparison::Eq, b) <==> a.bits == b.bits || (zero(a) && zero(b))
                &&& a.satisfies(Comparison::Lt, b) <==> if negative(a) && negative(b) {
                    a.bits > b.bits
                } else if negative(a) {
                    !(zero(a) && zero(b))
                } else if negative(b) {
                    false
                } else {
                    a.bits < b.bits
                }
                &&& a.satisfies(Comparison::Gt, b) <==> b.satisfies(Comparison::Lt, a)
                &&& a.satisfies(Comparison::Le, b) <==> !b.satisfies(Comparison::Lt, a)
                &&& a.satisfies(Comparison::Ge, b) <==> !a.satisfies(Comparison::Lt, b)
            }
        }),
{
}

proof fn names_of_columns_differ()
    ensures
        "datum"@ != "timestamp"@,
{
    reveal_strlit("timestamp");
    reveal_strlit("datum");
    assert("datum"@.len() == 5);
}

/// A filter on values marks an integer exactly where its operator holds between the integer and its
/// literal. A missing value is never marked.
pub proof fn integers_are_marked_by_value(atom: FilterAtom, points: PointsView, n: i128, i: int)
    requires
        atom.ident.0@ == "datum"@,
        atom.expr == Literal::Integer(n),
        points.values.len() == 1,
        points.values[0].values is Integer,
        0 <= i < points.values[0].values->Integer_0.len(),
    ensures
        ({
            let column = points.values[0].values->Integer_0;
            &&& Filter::Atom(atom).points_result(points) matches Ok(marks)
            &&& marks.len() == column.len()
            &&& column[i] is None ==> !marks[i]
            &&& column[i] matches Some(x) ==> {
                &&& atom.cmp == Comparison::Eq ==> (marks[i] <==> x == n)
                &&& atom.cmp == Comparison::Ne ==> (marks[i] <==> x != n)
                &&& atom.cmp == Comparison::Lt ==> (marks[i] <==> x < n)
                &&& atom.cmp == Comparison::Le ==> (marks[i] <==> x <= n)
                &&& atom.cmp == Comparison::Gt ==> (marks[i] <==> x > n)
                &&& atom.cmp == Comparison::Ge ==> (marks[i] <==> x >= n)
            }
        }),
{
    names_of_columns_differ();
}

/// A filter on values marks a double exactly where its operator holds between the double and its
/// literal. A missing value is never marked.
pub proof fn doubles_are_marked_by_value(atom: FilterAtom, points: PointsView, d: Double, i: int)
    requires
        atom.ident.0@ == "datum"@,
        atom.expr == Literal::Double(d),
        points.values.len() == 1,
        points.values[0].values is Double,
        0 <= i < points.values[0].values->Double_0.len(),
    ensures
        ({
            let column = points.values[0].values->Double_0;
            &&& Filter::Atom(atom).points_result(points) matches Ok(marks)
            &&& marks.len() == column.len()
            &&& column[i] is None ==> !marks[i]
            &&& column[i] matches Some(x) ==> (marks[i] <==> x.satisfies(atom.cmp, d))
        }),
{
    names_of_columns_differ();
}

/// A filter on values marks a truth value exactly where its operator holds between it and the
/// literal. A missing value is never marked.
pub proof fn booleans_are_marked_by_value(atom: FilterAtom, points: PointsView, b: bool, i: int)
    requires
        atom.ident.0@ == "datum"@,
        atom.expr == Literal::Boolean(b),
        points.values.len() == 1,
        points.values[0].values is Boolean,
        0 <= i < points.values[0].values->Boolean_0.len(),
    ensures
        ({
            let column = points.values[0].values->Boolean_0;
            &&& Filter::Atom(atom).points_result(points) matches Ok(marks)
            &&& marks.len() == column.len()
            &&& column[i] is None ==> !marks[i]
            &&& column[i] matches Some(x) ==> {
                &&& atom.cmp == Comparison::Eq ==> (marks[i] <==> x == b)
                &&& atom.cmp == Comparison::Ne ==> (marks[i] <==> x != b)
                &&& atom.cmp == Comparison::Lt ==> (marks[i] <==> !x && b)
                &&& atom.cmp == Comparison::Le ==> (marks[i] <==> !x || b)
                &&& atom.cmp == Comparison::Gt ==> (marks[i] <==> x && !b)
                &&& atom.cmp == Comparison::Ge ==> (marks[i] <==> x || !b)
            }
        }),
{
    names_of_columns_differ();
}

/// A filter on values marks a string exactly where its operator holds between the string and its
/// literal, or where the string matches the literal as a pattern. It fails only where the pattern is
/// no pattern. A missing value is never marked.
pub proof fn strings_are_marked_by_value(atom: FilterAtom, points: PointsView, s: String, i: int)
    requires
        atom.ident.0@ == "datum"@,
        atom.expr == Literal::String(s),
        points.values.len() == 1,
        points.values[0].values is String,
        0 <= i < points.values[0].values->String_0.len(),
    ensures
        ({
            let column = points.values[0].values->String_0;
            let r = Filter::Atom(atom).points_result(points);
            &&& r is Err <==> atom.cmp == Comparison::Like && !regex_compiles(s@)
            &&& r matches Err(e) ==> e == Error::BadRegex
            &&& r matches Ok(marks) ==> {
                &&& marks.len() == column.len()
                &&& column[i] is None ==> !marks[i]
                &&& column[i] matches Some(x) ==> {
                    &&& atom.cmp == Comparison::Like ==> (marks[i] <==> regex_matches(s@, x@))
                    &&& atom.cmp == Comparison::Eq ==> (marks[i] <==> x@ == s@)
                    &&& atom.cmp == Comparison::Ne ==> (marks[i] <==> x@ != s@)
                    &&& atom.cmp == Comparison::Lt ==> (marks[i] <==> seq_lt(x@, s@))
                    &&& atom.cmp == Comparison::Le ==> (marks[i] <==> !seq_lt(s@, x@))
                    &&& atom.cmp == Comparison::Gt ==> (marks[i] <==> seq_lt(s@, x@))
                    &&& atom.cmp == Comparison::Ge ==> (marks[i] <==> !seq_lt(x@, s@))
                }
            }
        }),
{
    names_of_columns_differ();
    if points.values[0].values->String_0[i] is Some {
        let x = points.values[0].values->String_0[i]->0;
        seq_lt_is_total(x@, s@);
        operators_compare_strings(x@, s@);
    }
}

/// A filter on timestamps marks an instant exactly where its operator holds between the instant and
/// its literal. It fails exactly where the literal is no instant.
pub proof fn instants_are_marked(atom: FilterAtom, points: PointsView, i: int)
    requires
        atom.ident.0@ == "timestamp"@,
        0 <= i < points.timestamps.len(),
    ensures
        ({
            let r = Filter::Atom(atom).points_result(points);
            let x = points.timestamps[i];
            &&& !(atom.expr is Timestamp) ==> r == Err::<Seq<bool>, Error>(Error::NotATimestamp)
            &&& atom.expr matches Literal::Timestamp(t) ==> {
                &&& r matches Ok(marks)
                &&& marks.len() == points.timestamps.len()
                &&& atom.cmp == Comparison::Eq ==> (marks[i] <==> x == t)
                &&& atom.cmp == Comparison::Ne ==> (marks[i] <==> x != t)
                &&& atom.cmp == Comparison::Lt ==> (marks[i] <==> x.secs < t.secs || (x.secs
                    == t.secs && x.nanos < t.nanos))
                &&& atom.cmp == Comparison::Le ==> (marks[i] <==> x.secs < t.secs || (x.secs
                    == t.secs && x.nanos <= t.nanos))
                &&& atom.cmp == Comparison::Gt ==> (marks[i] <==> x.secs > t.secs || (x.secs
                    == t.secs && x.nanos > t.nanos))
                &&& atom.cmp == Comparison::Ge ==> (marks[i] <==> x.secs > t.secs || (x.secs
                    == t.secs && x.nanos >= t.nanos))
            }
        }),
{
}

/// A filter that names neither timestamps nor values marks every point. One on values fails where
/// points have several values, or where the type of the values is not that of its literal.
pub proof fn other_filters_mark_all_points(atom: FilterAtom, points: PointsView)
    ensures
        atom.ident.0@ != "timestamp"@ && atom.ident.0@ != "datum"@ ==> (Filter::Atom(
            atom,
        ).points_result(points) matches Ok(marks) && marks.len() == points.timestamps.len() && (
        forall|i: int| 0 <= i < marks.len() ==> #[trigger] marks[i])),
        atom.ident.0@ == "datum"@ && points.values.len() != 1 ==> Filter::Atom(atom).points_result(
            points,
        ) == Err::<Seq<bool>, Error>(Error::MultidimensionalDatum),
        atom.ident.0@ == "datum"@ && points.values.len() == 1 && !(match points.values[0].values {
            ValueArrayView::Integer(_) => atom.expr is Integer,
            ValueArrayView::Double(_) => atom.expr is Double,
            ValueArrayView::Boolean(_) => atom.expr is Boolean,
            ValueArrayView::String(_) => atom.expr is String,
        }) ==> (Filter::Atom(atom).points_result(points) matches Err(e) && e is IncompatibleDatum),
{
    names_of_columns_differ();
}

/// A filter says nothing of fields that it does not name: they pass.
pub proof fn other_fields_always_pass(atom: FilterAtom, name: Seq<char>, value: FieldValue)
    requires
        atom.ident.0@ != name,
    ensures
        Filter::Atom(atom).field_result(name, value) == Ok::<bool, Error>(true),
{
}

/// An integer field of whatever width passes exactly where the operator holds between its number and
/// the literal, or, where the filter is negated, where it does not hold.
pub proof fn integer_fields_pass_by_value(atom: FilterAtom, value: FieldValue, n: i128, x: int)
    requires
        atom.expr == Literal::Integer(n),
        match value {
            FieldValue::I8(v) => x == v,
            FieldValue::U8(v) => x == v,
            FieldValue::I16(v) => x == v,
            FieldValue::U16(v) => x == v,
            FieldValue::I32(v) => x == v,
            FieldValue::U32(v) => x == v,
            FieldValue::I64(v) => x == v,
            FieldValue::U64(v) => x == v,
            _ => false,
        },
        atom.cmp != Comparison::Like,
    ensures
        ({
            &&& Filter::Atom(atom).field_result(atom.ident.0@, value) matches Ok(passes)
            &&& atom.cmp == Comparison::Eq ==> (passes != atom.negated <==> x == n)
            &&& atom.cmp == Comparison::Ne ==> (passes != atom.negated <==> x != n)
            &&& atom.cmp == Comparison::Lt ==> (passes != atom.negated <==> x < n)
            &&& atom.cmp == Comparison::Le ==> (passes != atom.negated <==> x <= n)
            &&& atom.cmp == Comparison::Gt ==> (passes != atom.negated <==> x > n)
            &&& atom.cmp == Comparison::Ge ==> (passes != atom.negated <==> x >= n)
        }),
{
}

/// A field with a truth value passes exactly where the operator holds between it and the literal, or,
/// where the filter is negated, where it does not hold.
pub proof fn boolean_fields_pass_by_value(atom: FilterAtom, x: bool, b: bool)
    requires
        atom.expr == Literal::Boolean(b),
        atom.cmp != Comparison::Like,
    ensures
        ({
            &&& Filter::Atom(atom).field_result(atom.ident.0@, FieldValue::Bool(x)) matches Ok(passes)
            &&& atom.cmp == Comparison::Eq ==> (passes != atom.negated <==> x == b)
            &&& atom.cmp == Comparison::Ne ==> (passes != atom.negated <==> x != b)
            &&& atom.cmp == Comparison::Lt ==> (passes != atom.negated <==> !x && b)
            &&& atom.cmp == Comparison::Le ==> (passes != atom.negated <==> !x || b)
            &&& atom.cmp == Comparison::Gt ==> (passes != atom.negated <==> x && !b)
            &&& atom.cmp == Comparison::Ge ==> (passes != atom.negated <==> x || !b)
        }),
{
}

/// A field with an id passes exactly where the operator holds between the ids as numbers, or, where
/// the filter is negated, where it does not hold.
pub proof fn id_fields_pass_by_value(atom: FilterAtom, x: u128, id: u128)
    requires
        atom.expr == Literal::Uuid(id),
        atom.cmp != Comparison::Like,
    ensures
        ({
            &&& Filter::Atom(atom).field_result(atom.ident.0@, FieldValue::Uuid(x)) matches Ok(passes)
            &&& atom.cmp == Comparison::Eq ==> (passes != atom.negated <==> x == id)
            &&& atom.cmp == Comparison::Ne ==> (passes != atom.negated <==> x != id)
            &&& atom.cmp == Comparison::Lt ==> (passes != atom.negated <==> x < id)
            &&& atom.cmp == Comparison::Le ==> (passes != atom.negated <==> x <= id)
            &&& atom.cmp == Comparison::Gt ==> (passes != atom.negated <==> x > id)
            &&& atom.cmp == Comparison::Ge ==> (passes != atom.negated <==> x >= id)
        }),
{
}

/// A field with an address passes exactly where the operator holds between it and the literal, or,
/// where the filter is negated, where it does not hold.
pub proof fn address_fields_pass_by_value(atom: FilterAtom, x: IpAddr, ip: IpAddr)
    requires
        atom.expr == Literal::IpAddr(ip),
        atom.cmp != Comparison::Like,
    ensures
        ({
            let less = |a: IpAddr, b: IpAddr|
                match (a, b) {
                    (IpAddr::V4(m), IpAddr::V4(n)) => m < n,
                    (IpAddr::V6(m), IpAddr::V6(n)) => m < n,
                    (IpAddr::V4(_), IpAddr::V6(_)) => true,
                    (IpAddr::V6(_), IpAddr::V4(_)) => false,
                };
            &&& Filter::Atom(atom).field_result(atom.ident.0@, FieldValue::IpAddr(x)) matches Ok(
                passes,
            )
            &&& atom.cmp == Comparison::Eq ==> (passes != atom.negated <==> x == ip)
            &&& atom.cmp == Comparison::Ne ==> (passes != atom.negated <==> x != ip)
            &&& atom.cmp == Comparison::Lt ==> (passes != atom.negated <==> less(x, ip))
            &&& atom.cmp == Comparison::Le ==> (passes != atom.negated <==> !less(ip, x))
            &&& atom.cmp == Comparison::Gt ==> (passes != atom.negated <==> less(ip, x))
            &&& atom.cmp == Comparison::Ge ==> (passes != atom.negated <==> !less(x, ip))
        }),
{
}

/// A field with a string passes exactly where the operator holds between it and the literal, or where
/// it matches the literal as a pattern, or, where the filter is negated, where it does not.
pub proof fn string_fields_pass_by_value(atom: FilterAtom, x: String, s: String)
    requires
        atom.expr == Literal::String(s),
        atom.cmp == Comparison::Like ==> regex_compiles(s@),
    ensures
        ({
            &&& Filter::Atom(atom).field_result(atom.ident.0@, FieldValue::String(x)) matches Ok(
                passes,
            )
            &&& atom.cmp == Comparison::Like ==> (passes != atom.negated <==> regex_matches(s@, x@))
            &&& atom.cmp == Comparison::Eq ==> (passes != atom.negated <==> x@ == s@)
            &&& atom.cmp == Comparison::Ne ==> (passes != atom.negated <==> x@ != s@)
            &&& atom.cmp == Comparison::Lt ==> (passes != atom.negated <==> seq_lt(x@, s@))
            &&& atom.cmp == Comparison::Le ==> (passes != atom.negated <==> !seq_lt(s@, x@))
            &&& atom.cmp == Comparison::Gt ==> (passes != atom.negated <==> seq_lt(s@, x@))
            &&& atom.cmp == Comparison::Ge ==> (passes != atom.negated <==> !seq_lt(x@, s@))
        }),
{
    seq_lt_is_total(x@, s@);
    operators_compare_strings(x@, s@);
}

/// A comparison of a field with a literal of another type fails, and so does matching anything but a
/// string against a pattern, or a string against what is no pattern.
pub proof fn incompatible_fields_fail(atom: FilterAtom, value: FieldValue)
    requires
        match value {
            FieldValue::String(_) => !(atom.expr is String) || (atom.cmp == Comparison::Like
                && !regex_compiles(atom.expr->String_0@)),
            FieldValue::Bool(_) => !(atom.expr is Boolean) || atom.cmp == Comparison::Like,
            FieldValue::Uuid(_) => !(atom.expr is Uuid) || atom.cmp == Comparison::Like,
            FieldValue::IpAddr(_) => !(atom.expr is IpAddr) || atom.cmp == Comparison::Like,
            _ => !(atom.expr is Integer) || atom.cmp == Comparison::Like,
        },
    ensures
        Filter::Atom(atom).field_result(atom.ident.0@, value) == Err::<bool, Error>(
            Error::IncompatibleField { name: atom.ident.0 },
        ),
{
}

/// Filters joined by `&&` let pass, and mark, what both of them do, and filters joined by `||` what
/// one of them does. They fail where one of them fails.
pub proof fn joined_filters_say_what_both_say(
    l: Filter,
    r: Filter,
    op: LogicalOp,
    name: Seq<char>,
    value: FieldValue,
    points: PointsView,
    i: int,
)
    requires
        points.well_formed(),
        0 <= i < points.timestamps.len(),
    ensures
        ({
            let joined = Filter::Expr(FilterExpr { left: Box::new(l), op, right: Box::new(r) });
            let a = l.field_result(name, value);
            let b = r.field_result(name, value);
            let x = l.points_result(points);
            let y = r.points_result(points);
            &&& joined.field_result(name, value) is Ok <==> a is Ok && b is Ok
            &&& a is Ok && b is Ok && op == LogicalOp::And ==> (joined.field_result(
                name,
                value,
            )->Ok_0 <==> a->Ok_0 && b->Ok_0)
            &&& a is Ok && b is Ok && op == LogicalOp::Or ==> (joined.field_result(
                name,
                value,
            )->Ok_0 <==> a->Ok_0 || b->Ok_0)
            &&& joined.points_result(points) is Ok <==> x is Ok && y is Ok
            &&& x is Ok && y is Ok && op == LogicalOp::And ==> (joined.points_result(
                points,
            )->Ok_0[i] <==> x->Ok_0[i] && y->Ok_0[i])
            &&& x is Ok && y is Ok && op == LogicalOp::Or ==> (joined.points_result(
                points,
            )->Ok_0[i] <==> x->Ok_0[i] || y->Ok_0[i])
        }),
{
    reveal_with_fuel(Filter::field_result, 2);
    reveal_with_fuel(Filter::points_result, 2);
    one_mark_per_point(l, points);
    one_mark_per_point(r, points);
}

/// The places that a mask marks, of the first `n`.
pub open spec fn marked_places(mask: Seq<bool>, n: nat) -> Seq<int> {
    Seq::new(n, |i: int| i).filter(|i: int| mask[i])
}

/// What is kept of a sequence are the items at the marked places, in their order.
pub proof fn marked_items_are_kept<T>(s: Seq<T>, mask: Seq<bool>)
    ensures
        kept(s, mask) == marked_places(mask, s.len()).map_values(|i: int| s[i]),
    decreases s.len(),
{
    reveal(Seq::filter);
    let n = s.len();
    let all = Seq::new(n, |i: int| i);
    if n > 0 {
        let rest = s.drop_last();
        marked_items_are_kept(rest, mask);
        assert(all.drop_last() =~= Seq::new(rest.len(), |i: int| i));
        let few = marked_places(mask, rest.len());
        let some = marked_places(mask, n);
        assert(all.last() == n - 1);
        places_are_in_range(mask, rest.len());
        assert(some =~= (if mask[n - 1] {
            few.push(n - 1)
        } else {
            few
        }));
        assert(kept(s, mask) =~= some.map_values(|i: int| s[i]));
    } else {
        assert(all =~= Seq::empty());
        assert(kept(s, mask) =~= marked_places(mask, n).map_values(|i: int| s[i]));
    }
}

proof fn places_are_in_range(mask: Seq<bool>, n: nat)
    ensures
        forall|k: int|
            0 <= k < marked_places(mask, n).len() ==> 0 <= #[trigger] marked_places(mask, n)[k] < n,
    decreases n,
{
    reveal(Seq::filter);
    let all = Seq::new(n, |i: int| i);
    if n > 0 {
        let m = (n - 1) as nat;
        places_are_in_range(mask, m);
        assert(all.drop_last() =~= Seq::new(m, |i: int| i));
        let few = marked_places(mask, m);
        let some = marked_places(mask, n);
        assert forall|k: int| 0 <= k < some.len() implies 0 <= #[trigger] some[k] < n by {
            if k < few.len() {
                assert(some[k] == few[k]);
            }
        }
    } else {
        assert(all =~= Seq::empty());
    }
}

/// All fields of a timeseries pass exactly where each of them does.
pub proof fn timeseries_pass_by_each_field(filter: Filter, fields: Seq<Field>)
    ensures
        filter.fields_pass(fields, fields.len()) == Ok::<bool, Error>(true) <==> forall|j: int|
            0 <= j < fields.len() ==> filter.field_result(
                (#[trigger] fields[j]).name@,
                fields[j].value,
            ) == Ok::<bool, Error>(true),
{
    crate::oxql::pushdown::passing_is_passing_each(filter, fields, fields.len());
}

/// A timeseries that passes keeps its fields, and exactly its marked points: the timestamp, the start
/// time and the values of each. One that does not pass is left out.
pub proof fn timeseries_keep_their_marked_points(filter: Filter, t: TimeseriesView)
    requires
        filter.kept_timeseries(t) is Ok,
    ensures
        filter.kept_timeseries(t)->Ok_0 is Some <==> filter.fields_pass(t.fields, t.fields.len())
            == Ok::<bool, Error>(true),
        filter.kept_timeseries(t)->Ok_0 matches Some(u) ==> {
            let marks = filter.points_result(t.points)->Ok_0;
            let places = marked_places(marks, t.points.timestamps.len());
            &&& filter.points_result(t.points) is Ok
            &&& u.fields == t.fields
            &&& u.points.timestamps == places.map_values(|i: int| t.points.timestamps[i])
            &&& u.points.start_times is Some <==> t.points.start_times is Some
            &&& t.points.start_times matches Some(s) ==> s.len() == t.points.timestamps.len()
                ==> u.points.start_times == Some(places.map_values(|i: int| s[i]))
            &&& u.points.values.len() == t.points.values.len()
            &&& forall|k: int|
                0 <= k < u.points.values.len() ==> {
                    &&& (#[trigger] u.points.values[k]).metric_type
                        == t.points.values[k].metric_type
                    &&& t.points.values[k].values.len() == t.points.timestamps.len() ==> match (
                        t.points.values[k].values,
                        u.points.values[k].values,
                    ) {
                        (ValueArrayView::Integer(a), ValueArrayView::Integer(b)) => b
                            == places.map_values(|i: int| a[i]),
                        (ValueArrayView::Double(a), ValueArrayView::Double(b)) => b
                            == places.map_values(|i: int| a[i]),
                        (ValueArrayView::Boolean(a), ValueArrayView::Boolean(b)) => b
                            == places.map_values(|i: int| a[i]),
                        (ValueArrayView::String(a), ValueArrayView::String(b)) => b
                            == places.map_values(|i: int| a[i]),
                        _ => false,
                    }
                }
        },
{
    if filter.kept_timeseries(t)->Ok_0 is Some {
        let u = filter.kept_timeseries(t)->Ok_0->0;
        let marks = filter.points_result(t.points)->Ok_0;
        marked_items_are_kept(t.points.timestamps, marks);
        if t.points.start_times is Some {
            marked_items_are_kept(t.points.start_times->0, marks);
        }
        assert forall|k: int| 0 <= k < u.points.values.len() implies {
            &&& (#[trigger] u.points.values[k]).metric_type == t.points.values[k].metric_type
            &&& match (t.points.values[k].values, u.points.values[k].values) {
                (ValueArrayView::Integer(a), ValueArrayView::Integer(b)) => b == marked_places(
                    marks,
                    a.len(),
                ).map_values(|i: int| a[i]),
                (ValueArrayView::Double(a), ValueArrayView::Double(b)) => b == marked_places(
                    marks,
                    a.len(),
                ).map_values(|i: int| a[i]),
                (ValueArrayView::Boolean(a), ValueArrayView::Boolean(b)) => b == marked_places(
                    marks,
                    a.len(),
                ).map_values(|i: int| a[i]),
                (ValueArrayView::String(a), ValueArrayView::String(b)) => b == marked_places(
                    marks,
                    a.len(),
                ).map_values(|i: int| a[i]),
                _ => false,
            }
        } by {
            match t.points.values[k].values {
                ValueArrayView::Integer(a) => marked_items_are_kept(a, marks),
                ValueArrayView::Double(a) => marked_items_are_kept(a, marks),
                ValueArrayView::Boolean(a) => marked_items_are_kept(a, marks),
                ValueArrayView::String(a) => marked_items_are_kept(a, marks),
            }
        }
    }
}

/// A filter leaves of a table what it leaves of each timeseries, in their order.
pub proof fn tables_keep_what_is_left_of_each(filter: Filter, series: Seq<TimeseriesView>)
    ensures
        filter.kept_series(series) is Ok <==> forall|i: int|
            0 <= i < series.len() ==> filter.kept_timeseries(#[trigger] series[i]) is Ok,
        filter.kept_series(series) matches Ok(left) ==> left == series.map_values(
            |t: TimeseriesView| filter.kept_timeseries(t)->Ok_0,
        ).filter(|o: Option<TimeseriesView>| o is Some).map_values(
            |o: Option<TimeseriesView>| o->0,
        ),
    decreases series.len(),
{
    reveal(Seq::filter);
    let each = |t: TimeseriesView| filter.kept_timeseries(t)->Ok_0;
    let there = |o: Option<TimeseriesView>| o is Some;
    let inner = |o: Option<TimeseriesView>| o->0;
    let all = series.map_values(each);
    if series.len() > 0 {
        let rest = series.drop_last();
        tables_keep_what_is_left_of_each(filter, rest);
        assert(series[series.len() - 1] == series.last());
        assert forall|i: int| 0 <= i < rest.len() implies #[trigger] rest[i] == series[i] by {}
        if forall|i: int|
            0 <= i < series.len() ==> filter.kept_timeseries(#[trigger] series[i]) is Ok {
            assert forall|i: int| 0 <= i < rest.len() implies filter.kept_timeseries(
                #[trigger] rest[i],
            ) is Ok by {
                assert(rest[i] == series[i]);
            }
        }
        if filter.kept_series(series) is Ok {
            assert forall|i: int| 0 <= i < series.len() implies filter.kept_timeseries(
                #[trigger] series[i],
            ) is Ok by {
                if i < rest.len() {
                    assert(rest[i] == series[i]);
                }
            }
            assert(all.drop_last() =~= rest.map_values(each));
            let few = rest.map_values(each).filter(there);
            let some = all.filter(there);
            assert(some =~= (if there(all.last()) {
                few.push(all.last())
            } else {
                few
            }));
            assert(filter.kept_series(series)->Ok_0 =~= some.map_values(inner));
        }
    } else {
        assert(all =~= Seq::empty());
        assert(filter.kept_series(series)->Ok_0 =~= all.filter(there).map_values(inner));
    }
}

/// Each operator is computed by the function of the database that is named for it.
pub proof fn operators_have_functions_of_their_own(op: Comparison)
    ensures
        op is Eq ==> op.db_function() == "equals"@,
        op is Ne ==> op.db_function() == "notEquals"@,
        op is Gt ==> op.db_function() == "greater"@,
        op is Ge ==> op.db_function() == "greaterOrEquals"@,
        op is Lt ==> op.db_function() == "less"@,
        op is Le ==> op.db_function() == "lessOrEquals"@,
        op is Like ==> op.db_function() == "match"@,
{
}

/// Where a part of a joined filter fails, the whole fails with its error, and with that of the left
/// part where both do.
pub proof fn joined_filters_fail_from_the_left(
    expr: FilterExpr,
    name: Seq<char>,
    value: FieldValue,
    points: PointsView,
)
    ensures
        ({
            let left = expr.left.field_result(name, value);
            let right = expr.right.field_result(name, value);
            let whole = Filter::Expr(expr).field_result(name, value);
            &&& whole is Ok <==> left is Ok && right is Ok
            &&& left is Err ==> whole == left
            &&& left is Ok && right is Err ==> whole == right
        }),
        ({
            let left = expr.left.points_result(points);
            let right = expr.right.points_result(points);
            let whole = Filter::Expr(expr).points_result(points);
            &&& whole is Ok <==> left is Ok && right is Ok
            &&& left is Err ==> whole == left
            &&& left is Ok && right is Err ==> whole == right
        }),
{
}

/// Filtering timeseries fails with the error of the first that cannot be filtered, and does not fail
/// where there is none.
pub proof fn the_first_timeseries_that_fails_is_told(
    f: Filter,
    series: Seq<TimeseriesView>,
    n: int,
)
    requires
        0 <= n <= series.len(),
        forall|i: int| 0 <= i < n ==> f.kept_timeseries(#[trigger] series[i]) is Ok,
        n < series.len() ==> f.kept_timeseries(series[n]) is Err,
    ensures
        n == series.len() ==> f.kept_series(series) is Ok,
        n < series.len() ==> f.kept_series(series) == Err::<Seq<TimeseriesView>, Error>(
            f.kept_timeseries(series[n])->Err_0,
        ),
    decreases series.len(),
{
    if series.len() > 0 {
        let rest = series.drop_last();
        if n < series.len() {
            assert(n < rest.len() ==> rest[n] == series[n]);
            the_first_timeseries_that_fails_is_told(f, rest, n);
        } else {
            the_first_timeseries_that_fails_is_told(f, rest, n - 1);
        }
    }
}

} // verus!
