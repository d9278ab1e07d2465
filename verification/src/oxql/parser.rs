//! The grammar of filters, table operations and queries.

use vstd::prelude::*;

use crate::oxql::ast::{Comparison, Ident, LogicalOp};
use crate::oxql::filter::{Filter, FilterAtom, FilterExpr};
use crate::oxql::grammar::{
    at, blank, char_at, has_char, is_at, is_blank, literal, name_end, read_blanks, read_literal, read_name,
    skip_blanks, MAX_CHARS,
};
use crate::oxql::group_by::{GroupBy, Reducer};
use crate::oxql::join::Join;
use crate::oxql::table_ops::{
    begins_query, node_view, node_views, op_view, op_views, transforms, well_formed, BasicTableOp,
    GroupedTableOp, QueryNode, QueryNodeView, TableOp, TableOpView,
};
use crate::oxql::views::{atom_view, comparison, filter_view, names, negation, FilterView};
use crate::text::string_of;
use crate::time::Timestamp;

verus! {

/// A comparison operator.
pub open spec fn operator(s: Seq<char>, i: int) -> Option<(Comparison, int)> {
    if at(s, i, "=="@) {
        Some((Comparison::Eq, i + 2))
    } else if at(s, i, "!="@) {
        Some((Comparison::Ne, i + 2))
    } else if at(s, i, ">="@) {
        Some((Comparison::Ge, i + 2))
    } else if at(s, i, ">"@) {
        Some((Comparison::Gt, i + 1))
    } else if at(s, i, "<="@) {
        Some((Comparison::Le, i + 2))
    } else if at(s, i, "<"@) {
        Some((Comparison::Lt, i + 1))
    } else if at(s, i, "~="@) {
        Some((Comparison::Like, i + 2))
    } else {
        None
    }
}

/// A comparison: a name, an operator, and a literal.
#[verifier::opaque]
pub open spec fn atom(s: Seq<char>, i: int, now: Timestamp) -> Option<(FilterView, int)> {
    match name_end(s, i) {
        Some(j) => match operator(s, skip_blanks(s, j)) {
            Some((op, k)) => match literal(s, skip_blanks(s, k), now) {
                Some((x, end)) => Some(
                    (
                        FilterView::Atom {
                            negated: false,
                            ident: s.subrange(i, j),
                            comparison: op,
                            literal: x,
                        },
                        end,
                    ),
                ),
                None => None,
            },
            None => None,
        },
        None => None,
    }
}

/// The comparison, negated.
pub open spec fn negated(f: FilterView) -> FilterView {
    match f {
        FilterView::Atom { ident, comparison, literal, .. } => FilterView::Atom {
            negated: true,
            ident,
            comparison,
            literal,
        },
        other => other,
    }
}

/// The value, where a closing bracket follows, with blanks or without.
pub open spec fn closed<T>(s: Seq<char>, value: Option<(T, int)>) -> Option<(T, int)> {
    match value {
        Some((v, j)) => if char_at(s, skip_blanks(s, j), ')') {
            Some((v, skip_blanks(s, j) + 1))
        } else {
            None
        },
        None => None,
    }
}

/// The negated comparison, where the value is a comparison.
pub open spec fn negated_value(value: Option<(FilterView, int)>) -> Option<(FilterView, int)> {
    match value {
        Some((f, j)) => Some((negated(f), j)),
        None => None,
    }
}

/// A filter in brackets, a negated comparison in brackets, or a comparison.
pub open spec fn factor(s: Seq<char>, i: int, now: Timestamp) -> Option<(FilterView, int)>
    decreases s.len() - i, 0int,
{
    let p = skip_blanks(s, i + 1);
    if char_at(s, i, '(') {
        if i < p <= s.len() {
            closed(s, disjunction(s, p, now))
        } else {
            None
        }
    } else if char_at(s, i, '!') {
        if char_at(s, p, '(') {
            closed(s, negated_value(atom(s, skip_blanks(s, p + 1), now)))
        } else {
            None
        }
    } else {
        atom(s, i, now)
    }
}

/// Factors joined by `&&`, from left to right.
pub open spec fn conjunction(s: Seq<char>, i: int, now: Timestamp) -> Option<(FilterView, int)>
    decreases s.len() - i, 1int,
{
    match factor(s, i, now) {
        Some((f, j)) => if i < j <= s.len() {
            Some(more_factors(s, j, f, now))
        } else {
            None
        },
        None => None,
    }
}

/// The factors that follow at `j`, each joined by `&&`.
pub open spec fn more_factors(s: Seq<char>, j: int, left: FilterView, now: Timestamp) -> (
    FilterView,
    int,
)
    decreases s.len() - j, 2int,
{
    let k = skip_blanks(s, j);
    let p = skip_blanks(s, k + 2);
    if at(s, k, "&&"@) && j < p <= s.len() {
        match factor(s, p, now) {
            Some((f, end)) => if p < end <= s.len() {
                more_factors(
                    s,
                    end,
                    FilterView::Expr { left: Box::new(left), op: LogicalOp::And, right: Box::new(f) },
                    now,
                )
            } else {
                (left, j)
            },
            None => (left, j),
        }
    } else {
        (left, j)
    }
}

/// Conjunctions joined by `||`, from left to right.
pub open spec fn disjunction(s: Seq<char>, i: int, now: Timestamp) -> Option<(FilterView, int)>
    decreases s.len() - i, 3int,
{
    match conjunction(s, i, now) {
        Some((f, j)) => if i < j <= s.len() {
            Some(more_conjunctions(s, j, f, now))
        } else {
            None
        },
        None => None,
    }
}

/// The conjunctions that follow at `j`, each joined by `||`.
pub open spec fn more_conjunctions(s: Seq<char>, j: int, left: FilterView, now: Timestamp) -> (
    FilterView,
    int,
)
    decreases s.len() - j, 4int,
{
    let k = skip_blanks(s, j);
    let p = skip_blanks(s, k + 2);
    if at(s, k, "||"@) && j < p <= s.len() {
        match conjunction(s, p, now) {
            Some((f, end)) => if p < end <= s.len() {
                more_conjunctions(
                    s,
                    end,
                    FilterView::Expr { left: Box::new(left), op: LogicalOp::Or, right: Box::new(f) },
                    now,
                )
            } else {
                (left, j)
            },
            None => (left, j),
        }
    } else {
        (left, j)
    }
}

/// The place after a keyword and the blanks that have to follow it.
pub open spec fn keyword(s: Seq<char>, i: int, word: Seq<char>) -> Option<int> {
    let j = i + word.len();
    if at(s, i, word) && 0 <= j < s.len() && blank(s[j]) {
        Some(skip_blanks(s, j))
    } else {
        None
    }
}

/// A `filter` operation.
pub open spec fn filter_op(s: Seq<char>, i: int, now: Timestamp) -> Option<(FilterView, int)> {
    match keyword(s, i, "filter"@) {
        Some(j) => disjunction(s, j, now),
        None => None,
    }
}

/// A `get` operation: the name of a timeseries is two names with a colon between them.
pub open spec fn get_op(s: Seq<char>, i: int) -> Option<(Seq<char>, int)> {
    match keyword(s, i, "get"@) {
        Some(j) => match name_end(s, j) {
            Some(k) => if char_at(s, k, ':') {
                match name_end(s, k + 1) {
                    Some(end) => Some((s.subrange(j, end), end)),
                    None => None,
                }
            } else {
                None
            },
            None => None,
        },
        None => None,
    }
}

/// The names that follow at `j`, each after a comma.
pub open spec fn more_names(s: Seq<char>, j: int, before: Seq<Seq<char>>) -> (Seq<Seq<char>>, int)
    decreases s.len() - j,
{
    let k = skip_blanks(s, j);
    let p = skip_blanks(s, k + 1);
    if char_at(s, k, ',') && j < p <= s.len() {
        match name_end(s, p) {
            Some(end) => if p < end <= s.len() {
                more_names(s, end, before.push(s.subrange(p, end)))
            } else {
                (before, j)
            },
            None => (before, j),
        }
    } else {
        (before, j)
    }
}

/// The way in which groups are reduced, after a comma. It may be left out.
pub open spec fn reducer(s: Seq<char>, i: int) -> (Reducer, int) {
    let k = skip_blanks(s, i);
    let p = skip_blanks(s, k + 1);
    if char_at(s, k, ',') && at(s, p, "mean"@) {
        (Reducer::Mean, p + 4)
    } else if char_at(s, k, ',') && at(s, p, "sum"@) {
        (Reducer::Sum, p + 3)
    } else {
        (Reducer::Mean, i)
    }
}

/// A `group_by` operation: names in square brackets, and the way in which groups are reduced.
pub open spec fn group_by_op(s: Seq<char>, i: int) -> Option<(TableOpView, int)> {
    match keyword(s, i, "group_by"@) {
        Some(j) => if char_at(s, j, '[') {
            let p = skip_blanks(s, j + 1);
            match name_end(s, p) {
                Some(k) => {
                    let (all, end) = more_names(s, k, seq![s.subrange(p, k)]);
                    let q = skip_blanks(s, end);
                    if char_at(s, q, ']') {
                        let (how, last) = reducer(s, q + 1);
                        Some((TableOpView::GroupBy(all, how), last))
                    } else {
                        None
                    }
                },
                None => None,
            }
        } else {
            None
        },
        None => None,
    }
}

/// An operation without subqueries.
pub open spec fn basic_op(s: Seq<char>, i: int, now: Timestamp) -> Option<(TableOpView, int)> {
    if get_op(s, i) is Some {
        let (name, end) = get_op(s, i)->Some_0;
        Some((TableOpView::Get(name), end))
    } else if filter_op(s, i, now) is Some {
        let (f, end) = filter_op(s, i, now)->Some_0;
        Some((TableOpView::Filter(f), end))
    } else if group_by_op(s, i) is Some {
        group_by_op(s, i)
    } else if at(s, i, "join"@) {
        Some((TableOpView::Join, i + 4))
    } else {
        None
    }
}

/// An operation: subqueries in braces, or one without.
pub open spec fn table_op(s: Seq<char>, i: int, now: Timestamp) -> Option<(TableOpView, int)>
    decreases s.len() - i, 0int,
{
    let p = skip_blanks(s, i + 1);
    if char_at(s, i, '{') {
        if i < p <= s.len() {
            match query_at(s, p, now) {
                Some((q, j)) => if p < j <= s.len() {
                    let (all, end) = more_queries(s, j, seq![q], now);
                    if char_at(s, skip_blanks(s, end), '}') {
                        Some((TableOpView::Grouped(all), skip_blanks(s, end) + 1))
                    } else {
                        None
                    }
                } else {
                    None
                },
                None => None,
            }
        } else {
            None
        }
    } else {
        basic_op(s, i, now)
    }
}

/// The subqueries that follow at `j`, each after a semicolon.
pub open spec fn more_queries(
    s: Seq<char>,
    j: int,
    before: Seq<QueryNodeView>,
    now: Timestamp,
) -> (Seq<QueryNodeView>, int)
    decreases s.len() - j, 4int,
{
    let k = skip_blanks(s, j);
    let p = skip_blanks(s, k + 1);
    if char_at(s, k, ';') && j < p <= s.len() {
        match query_at(s, p, now) {
            Some((q, end)) => if p < end <= s.len() {
                more_queries(s, end, before.push(q), now)
            } else {
                (before, j)
            },
            None => (before, j),
        }
    } else {
        (before, j)
    }
}

/// The operations that follow at `j`, each after a bar.
pub open spec fn more_ops(s: Seq<char>, j: int, before: Seq<TableOpView>, now: Timestamp) -> (
    Seq<TableOpView>,
    int,
)
    decreases s.len() - j, 2int,
{
    let k = skip_blanks(s, j);
    let p = skip_blanks(s, k + 1);
    if char_at(s, k, '|') && j < p <= s.len() {
        match table_op(s, p, now) {
            Some((op, end)) => if p < end <= s.len() {
                more_ops(s, end, before.push(op), now)
            } else {
                (before, j)
            },
            None => (before, j),
        }
    } else {
        (before, j)
    }
}

/// The operation gets timeseries, or holds subqueries.
pub open spec fn starts(op: TableOpView) -> bool {
    op is Get || op is Grouped
}

/// The first operation gets timeseries or holds subqueries, and no other does.
pub open spec fn in_form(ops: Seq<TableOpView>) -> bool {
    &&& ops.len() > 0
    &&& starts(ops[0])
    &&& forall|i: int| 1 <= i < ops.len() ==> !starts(#[trigger] ops[i])
}

/// A query: operations joined by bars, of which the first gets timeseries, or holds subqueries.
pub open spec fn query_at(s: Seq<char>, i: int, now: Timestamp) -> Option<(QueryNodeView, int)>
    decreases s.len() - i, 3int,
{
    match table_op(s, i, now) {
        Some((op, j)) => if i < j <= s.len() {
            let (ops, end) = more_ops(s, j, seq![op], now);
            if in_form(ops) {
                Some((QueryNodeView { ops }, end))
            } else {
                None
            }
        } else {
            None
        },
        None => None,
    }
}

/// The query that a whole text stands for.
pub open spec fn query_of(s: Seq<char>, now: Timestamp) -> Option<QueryNodeView> {
    match query_at(s, 0, now) {
        Some((q, end)) if end == s.len() => Some(q),
        _ => None,
    }
}

/// The filter that a whole text stands for as a `filter` operation.
pub open spec fn filter_of(s: Seq<char>, now: Timestamp) -> Option<FilterView> {
    match filter_op(s, 0, now) {
        Some((f, end)) if end == s.len() => Some(f),
        _ => None,
    }
}

fn read_operator(s: &Vec<char>, i: usize) -> (r: Option<(Comparison, usize)>)
    requires
        i <= s@.len() <= MAX_CHARS,
    ensures
        match r {
            Some((op, j)) => operator(s@, i as int) == Some((op, j as int)) && i < j <= s@.len(),
            None => operator(s@, i as int) is None,
        },
{
    proof {
        reveal_strlit("==");
        reveal_strlit("!=");
        reveal_strlit(">=");
        reveal_strlit(">");
        reveal_strlit("<=");
        reveal_strlit("<");
        reveal_strlit("~=");
    }
    if is_at(s, i, "==") {
        Some((Comparison::Eq, i + 2))
    } else if is_at(s, i, "!=") {
        Some((Comparison::Ne, i + 2))
    } else if is_at(s, i, ">=") {
        Some((Comparison::Ge, i + 2))
    } else if is_at(s, i, ">") {
        Some((Comparison::Gt, i + 1))
    } else if is_at(s, i, "<=") {
        Some((Comparison::Le, i + 2))
    } else if is_at(s, i, "<") {
        Some((Comparison::Lt, i + 1))
    } else if is_at(s, i, "~=") {
        Some((Comparison::Like, i + 2))
    } else {
        None
    }
}

fn read_atom(s: &Vec<char>, i: usize, now: &Timestamp) -> (r: Option<(FilterAtom, usize)>)
    requires
        i <= s@.len() <= MAX_CHARS,
    ensures
        match r {
            Some((a, j)) => atom(s@, i as int, *now) == Some((atom_view(a), j as int)) && i < j
                <= s@.len(),
            None => atom(s@, i as int, *now) is None,
        },
{
    proof {
        reveal(atom);
    }
    let j = match read_name(s, i) {
        Some(j) => j,
        None => {
            return None;
        },
    };
    let (op, k) = match read_operator(s, read_blanks(s, j)) {
        Some(r) => r,
        None => {
            return None;
        },
    };
    match read_literal(s, read_blanks(s, k), now) {
        Some((x, end)) => {
            let ident = Ident(string_of(s, i, j));
            Some((comparison(false, ident, op, x), end))
        },
        None => None,
    }
}

fn read_factor(s: &Vec<char>, i: usize, now: &Timestamp) -> (r: Option<(Filter, usize)>)
    requires
        i <= s@.len() <= MAX_CHARS,
    ensures
        match r {
            Some((f, j)) => factor(s@, i as int, *now) == Some((filter_view(f), j as int)) && i < j
                <= s@.len(),
            None => factor(s@, i as int, *now) is None,
        },
    decreases s@.len() - i, 0int,
{
    if has_char(s, i, '(') {
        let p = read_blanks(s, i + 1);
        match read_disjunction(s, p, now) {
            Some((f, j)) => {
                let k = read_blanks(s, j);
                if has_char(s, k, ')') {
                    Some((f, k + 1))
                } else {
                    None
                }
            },
            None => None,
        }
    } else if has_char(s, i, '!') {
        let p = read_blanks(s, i + 1);
        if !has_char(s, p, '(') {
            return None;
        }
        match read_atom(s, read_blanks(s, p + 1), now) {
            Some((a, j)) => {
                let k = read_blanks(s, j);
                if has_char(s, k, ')') {
                    Some((Filter::Atom(negation(a)), k + 1))
                } else {
                    None
                }
            },
            None => None,
        }
    } else {
        match read_atom(s, i, now) {
            Some((a, j)) => Some((Filter::Atom(a), j)),
            None => None,
        }
    }
}

fn joined(left: Filter, op: LogicalOp, right: Filter) -> (f: Filter)
    ensures
        filter_view(f) == (FilterView::Expr {
            left: Box::new(filter_view(left)),
            op,
            right: Box::new(filter_view(right)),
        }),
{
    Filter::Expr(FilterExpr { left: Box::new(left), op, right: Box::new(right) })
}

fn read_conjunction(s: &Vec<char>, i: usize, now: &Timestamp) -> (r: Option<(Filter, usize)>)
    requires
        i <= s@.len() <= MAX_CHARS,
    ensures
        match r {
            Some((f, j)) => conjunction(s@, i as int, *now) == Some((filter_view(f), j as int)) && i
                < j <= s@.len(),
            None => conjunction(s@, i as int, *now) is None,
        },
    decreases s@.len() - i, 1int,
{
    let (first, start) = match read_factor(s, i, now) {
        Some(r) => r,
        None => {
            return None;
        },
    };
    let mut left = first;
    let mut j: usize = start;
    let ghost target = more_factors(s@, start as int, filter_view(first), *now);
    proof {
        reveal_strlit("&&");
    }
    loop
        invariant
            i < j <= s@.len() <= MAX_CHARS,
            "&&"@.len() == 2,
            target == more_factors(s@, j as int, filter_view(left), *now),
        ensures
            i < j <= s@.len(),
            target == (filter_view(left), j as int),
        decreases s@.len() - j,
    {
        let k = read_blanks(s, j);
        if !is_at(s, k, "&&") {
            break;
        }
        let p = read_blanks(s, k + 2);
        match read_factor(s, p, now) {
            Some((f, end)) => {
                left = joined(left, LogicalOp::And, f);
                j = end;
            },
            None => {
                break;
            },
        }
    }
    Some((left, j))
}

/// Reads a filter.
pub(crate) fn read_disjunction(s: &Vec<char>, i: usize, now: &Timestamp) -> (r: Option<
    (Filter, usize),
>)
    requires
        i <= s@.len() <= MAX_CHARS,
    ensures
        match r {
            Some((f, j)) => disjunction(s@, i as int, *now) == Some((filter_view(f), j as int)) && i
                < j <= s@.len(),
            None => disjunction(s@, i as int, *now) is None,
        },
    decreases s@.len() - i, 3int,
{
    let (first, start) = match read_conjunction(s, i, now) {
        Some(r) => r,
        None => {
            return None;
        },
    };
    let mut left = first;
    let mut j: usize = start;
    let ghost target = more_conjunctions(s@, start as int, filter_view(first), *now);
    proof {
        reveal_strlit("||");
    }
    loop
        invariant
            i < j <= s@.len() <= MAX_CHARS,
            "||"@.len() == 2,
            target == more_conjunctions(s@, j as int, filter_view(left), *now),
        ensures
            i < j <= s@.len(),
            target == (filter_view(left), j as int),
        decreases s@.len() - j,
    {
        let k = read_blanks(s, j);
        if !is_at(s, k, "||") {
            break;
        }
        let p = read_blanks(s, k + 2);
        match read_conjunction(s, p, now) {
            Some((f, end)) => {
                left = joined(left, LogicalOp::Or, f);
                j = end;
            },
            None => {
                break;
            },
        }
    }
    Some((left, j))
}

fn read_keyword(s: &Vec<char>, i: usize, word: &str, len: usize) -> (r: Option<usize>)
    requires
        i <= s@.len() <= MAX_CHARS,
        len == word@.len(),
    ensures
        match r {
            Some(j) => keyword(s@, i as int, word@) == Some(j as int) && i + len < j <= s@.len(),
            None => keyword(s@, i as int, word@) is None,
        },
{
    if !is_at(s, i, word) {
        return None;
    }
    let j: usize = i + len;
    if j < s.len() && is_blank(s[j]) {
        Some(read_blanks(s, j + 1))
    } else {
        None
    }
}

fn read_filter_op(s: &Vec<char>, i: usize, now: &Timestamp) -> (r: Option<(Filter, usize)>)
    requires
        i <= s@.len() <= MAX_CHARS,
    ensures
        match r {
            Some((f, j)) => filter_op(s@, i as int, *now) == Some((filter_view(f), j as int)) && i
                < j <= s@.len(),
            None => filter_op(s@, i as int, *now) is None,
        },
{
    proof {
        reveal_strlit("filter");
    }
    match read_keyword(s, i, "filter", 6) {
        Some(j) => read_disjunction(s, j, now),
        None => None,
    }
}

fn read_get_op(s: &Vec<char>, i: usize) -> (r: Option<(String, usize)>)
    requires
        i <= s@.len() <= MAX_CHARS,
    ensures
        match r {
            Some((name, j)) => get_op(s@, i as int) == Some((name@, j as int)) && i < j <= s@.len(),
            None => get_op(s@, i as int) is None,
        },
{
    proof {
        reveal_strlit("get");
    }
    let j = match read_keyword(s, i, "get", 3) {
        Some(j) => j,
        None => {
            return None;
        },
    };
    match read_name(s, j) {
        Some(k) => if has_char(s, k, ':') {
            match read_name(s, k + 1) {
                Some(end) => Some((string_of(s, j, end), end)),
                None => None,
            }
        } else {
            None
        },
        None => None,
    }
}

fn read_reducer(s: &Vec<char>, i: usize) -> (r: (Reducer, usize))
    requires
        i <= s@.len() <= MAX_CHARS,
    ensures
        reducer(s@, i as int) == (r.0, r.1 as int),
        i <= r.1 <= s@.len(),
{
    proof {
        reveal_strlit("mean");
        reveal_strlit("sum");
    }
    let k = read_blanks(s, i);
    if !has_char(s, k, ',') {
        return (Reducer::Mean, i);
    }
    let p = read_blanks(s, k + 1);
    if is_at(s, p, "mean") {
        (Reducer::Mean, p + 4)
    } else if is_at(s, p, "sum") {
        (Reducer::Sum, p + 3)
    } else {
        (Reducer::Mean, i)
    }
}

fn read_group_by_op(s: &Vec<char>, i: usize) -> (r: Option<(GroupBy, usize)>)
    requires
        i <= s@.len() <= MAX_CHARS,
    ensures
        match r {
            Some((g, j)) => group_by_op(s@, i as int) == Some(
                (TableOpView::GroupBy(names(g.identifiers@), g.reducer), j as int),
            ) && i < j <= s@.len(),
            None => group_by_op(s@, i as int) is None,
        },
{
    proof {
        reveal_strlit("group_by");
    }
    let j = match read_keyword(s, i, "group_by", 8) {
        Some(j) => j,
        None => {
            return None;
        },
    };
    if !has_char(s, j, '[') {
        return None;
    }
    let p = read_blanks(s, j + 1);
    let k = match read_name(s, p) {
        Some(k) => k,
        None => {
            return None;
        },
    };
    let mut identifiers: Vec<Ident> = Vec::new();
    identifiers.push(Ident(string_of(s, p, k)));
    let mut end: usize = k;
    let ghost target = more_names(s@, k as int, seq![s@.subrange(p as int, k as int)]);
    assert(names(identifiers@) =~= seq![s@.subrange(p as int, k as int)]);
    loop
        invariant
            i < end <= s@.len() <= MAX_CHARS,
            target == more_names(s@, end as int, names(identifiers@)),
        ensures
            i < end <= s@.len(),
            target == (names(identifiers@), end as int),
        decreases s@.len() - end,
    {
        let k = read_blanks(s, end);
        if !has_char(s, k, ',') {
            break;
        }
        let p = read_blanks(s, k + 1);
        match read_name(s, p) {
            Some(next) => {
                let ghost before = names(identifiers@);
                identifiers.push(Ident(string_of(s, p, next)));
                assert(names(identifiers@) =~= before.push(s@.subrange(p as int, next as int)));
                end = next;
            },
            None => {
                break;
            },
        }
    }
    let q = read_blanks(s, end);
    if !has_char(s, q, ']') {
        return None;
    }
    let (how, last) = read_reducer(s, q + 1);
    Some((GroupBy { identifiers, reducer: how }, last))
}

fn read_basic_op(s: &Vec<char>, i: usize, now: &Timestamp) -> (r: Option<(TableOp, usize)>)
    requires
        i <= s@.len() <= MAX_CHARS,
    ensures
        match r {
            Some((op, j)) => {
                &&& basic_op(s@, i as int, *now) == Some((op_view(op), j as int))
                &&& i < j <= s@.len()
                &&& op is Basic
            },
            None => basic_op(s@, i as int, *now) is None,
        },
{
    if let Some((name, end)) = read_get_op(s, i) {
        return Some((TableOp::Basic(BasicTableOp::Get(name)), end));
    }
    if let Some((f, end)) = read_filter_op(s, i, now) {
        return Some((TableOp::Basic(BasicTableOp::Filter(f)), end));
    }
    if let Some((g, end)) = read_group_by_op(s, i) {
        return Some((TableOp::Basic(BasicTableOp::GroupBy(g)), end));
    }
    proof {
        reveal_strlit("join");
    }
    if is_at(s, i, "join") {
        Some((TableOp::Basic(BasicTableOp::Join(Join)), i + 4))
    } else {
        None
    }
}

/// What the operations hold tells how they begin.
proof fn views_tell_form(op: TableOp)
    ensures
        starts(op_view(op)) <==> !transforms(op),
        op is Basic ==> (starts(op_view(op)) <==> begins_query(op)),
{
    match op {
        TableOp::Basic(BasicTableOp::Get(_)) => {},
        TableOp::Basic(BasicTableOp::Filter(_)) => {},
        TableOp::Basic(BasicTableOp::GroupBy(_)) => {},
        TableOp::Basic(BasicTableOp::Join(_)) => {},
        TableOp::Grouped(_) => {},
    }
}

fn read_table_op(s: &Vec<char>, i: usize, now: &Timestamp) -> (r: Option<(TableOp, usize)>)
    requires
        i <= s@.len() <= MAX_CHARS,
    ensures
        match r {
            Some((op, j)) => {
                &&& table_op(s@, i as int, *now) == Some((op_view(op), j as int))
                &&& i < j <= s@.len()
                &&& op is Grouped ==> begins_query(op)
            },
            None => table_op(s@, i as int, *now) is None,
        },
    decreases s@.len() - i, 0int,
{
    if !has_char(s, i, '{') {
        return read_basic_op(s, i, now);
    }
    let p = read_blanks(s, i + 1);
    let (first, start) = match read_query_at(s, p, now) {
        Some(r) => r,
        None => {
            return None;
        },
    };
    let mut ops: Vec<QueryNode> = Vec::new();
    let ghost target = more_queries(s@, start as int, seq![node_view(first)], *now);
    ops.push(first);
    let mut end: usize = start;
    assert(node_views(ops@) =~= seq![node_view(first)]);
    loop
        invariant
            i < end <= s@.len() <= MAX_CHARS,
            target == more_queries(s@, end as int, node_views(ops@), *now),
            ops@.len() > 0,
            forall|k: int| 0 <= k < ops@.len() ==> well_formed(#[trigger] ops@[k]),
        ensures
            i < end <= s@.len(),
            target == (node_views(ops@), end as int),
            ops@.len() > 0,
            forall|k: int| 0 <= k < ops@.len() ==> well_formed(#[trigger] ops@[k]),
        decreases s@.len() - end,
    {
        let k = read_blanks(s, end);
        if !has_char(s, k, ';') {
            break;
        }
        let p = read_blanks(s, k + 1);
        match read_query_at(s, p, now) {
            Some((q, next)) => {
                let ghost before = node_views(ops@);
                ops.push(q);
                assert(node_views(ops@) =~= before.push(node_view(q)));
                end = next;
            },
            None => {
                break;
            },
        }
    }
    let k = read_blanks(s, end);
    if !has_char(s, k, '}') {
        return None;
    }
    let op = TableOp::Grouped(GroupedTableOp { ops });
    proof {
        match op_view(op) {
            TableOpView::Grouped(nodes) => assert(nodes =~= node_views(ops@)),
            _ => {},
        }
    }
    Some((op, k + 1))
}

fn is_in_form(ops: &Vec<TableOp>) -> (yes: bool)
    ensures
        yes == in_form(op_views(ops@)),
        yes ==> ops@.len() > 0 && !transforms(ops@[0]) && forall|k: int|
            1 <= k < ops@.len() ==> transforms(#[trigger] ops@[k]),
{
    if ops.len() == 0 {
        return false;
    }
    let ghost views = op_views(ops@);
    proof {
        assert(views[0] == op_view(ops@[0]));
        views_tell_form(ops@[0]);
    }
    match &ops[0] {
        TableOp::Basic(BasicTableOp::Get(_)) | TableOp::Grouped(_) => {},
        _ => {
            return false;
        },
    }
    let mut i: usize = 1;
    while i < ops.len()
        invariant
            1 <= i <= ops@.len(),
            views == op_views(ops@),
            forall|k: int| 1 <= k < i ==> !starts(#[trigger] views[k]),
            forall|k: int| 1 <= k < i ==> transforms(#[trigger] ops@[k]),
        decreases ops@.len() - i,
    {
        proof {
            assert(views[i as int] == op_view(ops@[i as int]));
            views_tell_form(ops@[i as int]);
        }
        match &ops[i] {
            TableOp::Basic(BasicTableOp::Get(_)) | TableOp::Grouped(_) => {
                return false;
            },
            _ => {},
        }
        i = i + 1;
    }
    true
}

fn read_query_at(s: &Vec<char>, i: usize, now: &Timestamp) -> (r: Option<(QueryNode, usize)>)
    requires
        i <= s@.len() <= MAX_CHARS,
    ensures
        match r {
            Some((q, j)) => {
                &&& query_at(s@, i as int, *now) == Some((node_view(q), j as int))
                &&& i < j <= s@.len()
                &&& well_formed(q)
            },
            None => query_at(s@, i as int, *now) is None,
        },
    decreases s@.len() - i, 3int,
{
    let (first, start) = match read_table_op(s, i, now) {
        Some(r) => r,
        None => {
            return None;
        },
    };
    let mut ops: Vec<TableOp> = Vec::new();
    let ghost target = more_ops(s@, start as int, seq![op_view(first)], *now);
    let ghost begin = first;
    ops.push(first);
    let mut end: usize = start;
    assert(op_views(ops@) =~= seq![op_view(begin)]);
    loop
        invariant
            i < end <= s@.len() <= MAX_CHARS,
            target == more_ops(s@, end as int, op_views(ops@), *now),
            ops@.len() > 0,
            ops@[0] == begin,
        ensures
            i < end <= s@.len(),
            target == (op_views(ops@), end as int),
            ops@.len() > 0,
            ops@[0] == begin,
        decreases s@.len() - end,
    {
        let k = read_blanks(s, end);
        if !has_char(s, k, '|') {
            break;
        }
        let p = read_blanks(s, k + 1);
        match read_table_op(s, p, now) {
            Some((op, next)) => {
                let ghost before = op_views(ops@);
                ops.push(op);
                assert(op_views(ops@) =~= before.push(op_view(op)));
                end = next;
            },
            None => {
                break;
            },
        }
    }
    if !is_in_form(&ops) {
        return None;
    }
    let q = QueryNode { ops };
    proof {
        assert(node_view(q).ops =~= op_views(ops@));
        views_tell_form(begin);
    }
    Some((q, end))
}

/// Reads a whole text as a query.
pub fn read_query(s: &Vec<char>, now: &Timestamp) -> (r: Option<QueryNode>)
    requires
        s@.len() <= MAX_CHARS,
    ensures
        match r {
            Some(q) => query_of(s@, *now) == Some(node_view(q)) && well_formed(q),
            None => query_of(s@, *now) is None,
        },
{
    match read_query_at(s, 0, now) {
        Some((q, end)) => if end == s.len() {
            Some(q)
        } else {
            None
        },
        None => None,
    }
}

/// Reads a whole text as a `filter` operation.
pub fn read_filter(s: &Vec<char>, now: &Timestamp) -> (r: Option<Filter>)
    requires
        s@.len() <= MAX_CHARS,
    ensures
        match r {
            Some(f) => filter_of(s@, *now) == Some(filter_view(f)),
            None => filter_of(s@, *now) is None,
        },
{
    match read_filter_op(s, 0, now) {
        Some((f, end)) => if end == s.len() {
            Some(f)
        } else {
            None
        },
        None => None,
    }
}

} // verus!
