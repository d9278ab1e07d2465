//! A single query, and what can be moved within it.

use vstd::prelude::*;

use crate::oxql::ast::{Ident, LogicalOp};
use crate::oxql::clock::utc_now;
use crate::oxql::filter::{Filter, FilterExpr};
use crate::oxql::grammar::MAX_CHARS;
use crate::oxql::group_by::{is_listed, listed, GroupBy};
use crate::oxql::laws::{
    all_filters_can_be_merged, conjunction, filtered, merged, names_keys_or_time, none_fails,
};
use crate::oxql::parser::{filter_of, query_of, read_filter, read_query};
use crate::oxql::table::TimeseriesView;
use crate::oxql::table_ops::{
    begins_query, copied_node, copied_op, first_name, node_view, node_views, op_view, op_views,
    transforms, well_formed, BasicTableOp, QueryNode, TableOp,
};
use crate::oxql::Error;
use crate::oxql::views::filter_view;
use crate::text::{chars_of, fits_in_bytes, str_eq, text_bytes, trimmed, trimmed_chars};
use crate::time::Timestamp;

verus! {

/// A query.
#[derive(Debug, PartialEq)]
pub struct Query {
    pub parsed: QueryNode,
}

/// A query, taken apart where it begins with subqueries.
#[derive(Debug, PartialEq)]
pub enum SplitQuery {
    /// The query has no subqueries.
    Flat(Query),
    /// The subqueries, and what is done to their results.
    Subquery { subqueries: Vec<Query>, transformations: Vec<TableOp> },
}

/// The part of a filter that names only timestamps and listed columns, if there is such a part.
pub open spec fn restricted(filter: Filter, identifiers: Seq<Ident>) -> Option<Filter>
    decreases filter,
{
    match filter {
        Filter::Atom(atom) => if atom.ident.0@ == "timestamp"@ || listed(
            identifiers,
            atom.ident.0@,
        ) {
            Some(filter)
        } else {
            None
        },
        Filter::Expr(expr) => match (
            restricted(*expr.left, identifiers),
            restricted(*expr.right, identifiers),
        ) {
            (Some(left), Some(right)) => Some(
                Filter::Expr(
                    FilterExpr { left: Box::new(left), op: expr.op, right: Box::new(right) },
                ),
            ),
            (Some(single), None) => Some(single),
            (None, Some(single)) => Some(single),
            (None, None) => None,
        },
    }
}

/// The part of a filter that names only timestamps and listed columns, if there is such a part.
pub fn restrict_filter_idents(current_filter: &Filter, identifiers: &[Ident]) -> (r: Option<Filter>)
    ensures
        r == restricted(*current_filter, identifiers@),
    decreases current_filter,
{
    match current_filter {
        Filter::Atom(atom) => if str_eq(atom.ident.as_str(), "timestamp") || is_listed(
            identifiers,
            atom.ident.as_str(),
        ) {
            Some(current_filter.clone())
        } else {
            None
        },
        Filter::Expr(expr) => {
            let left = restrict_filter_idents(&expr.left, identifiers);
            let right = restrict_filter_idents(&expr.right, identifiers);
            match (left, right) {
                (Some(left), Some(right)) => Some(
                    Filter::Expr(
                        FilterExpr { left: Box::new(left), op: expr.op, right: Box::new(right) },
                    ),
                ),
                (Some(single), None) => Some(single),
                (None, Some(single)) => Some(single),
                (None, None) => None,
            }
        },
    }
}

/// Every comparison of the filter names timestamps, or a listed column.
pub open spec fn names_allowed(filter: Filter, identifiers: Seq<Ident>) -> bool
    decreases filter,
{
    match filter {
        Filter::Atom(atom) => atom.ident.0@ == "timestamp"@ || listed(identifiers, atom.ident.0@),
        Filter::Expr(expr) => names_allowed(*expr.left, identifiers) && names_allowed(
            *expr.right,
            identifiers,
        ),
    }
}

/// What is left of a filter names only timestamps and listed columns. A filter that names only these
/// is left as it is, and no other.
pub proof fn restriction_keeps_what_is_allowed(filter: Filter, identifiers: Seq<Ident>)
    ensures
        restricted(filter, identifiers) matches Some(f) ==> names_allowed(f, identifiers),
        restricted(filter, identifiers) == Some(filter) <==> names_allowed(filter, identifiers),
    decreases filter,
{
    match filter {
        Filter::Atom(_) => {},
        Filter::Expr(expr) => {
            restriction_keeps_what_is_allowed(*expr.left, identifiers);
            restriction_keeps_what_is_allowed(*expr.right, identifiers);
            if restricted(filter, identifiers) == Some(filter) {
                part_is_no_larger(*expr.left, identifiers);
                part_is_no_larger(*expr.right, identifiers);
            }
        },
    }
}

spec fn size(filter: Filter) -> nat
    decreases filter,
{
    match filter {
        Filter::Atom(_) => 1,
        Filter::Expr(expr) => 1 + size(*expr.left) + size(*expr.right),
    }
}

proof fn part_is_no_larger(filter: Filter, identifiers: Seq<Ident>)
    ensures
        restricted(filter, identifiers) matches Some(f) ==> size(f) <= size(filter),
    decreases filter,
{
    match filter {
        Filter::Atom(_) => {},
        Filter::Expr(expr) => {
            part_is_no_larger(*expr.left, identifiers);
            part_is_no_larger(*expr.right, identifiers);
        },
    }
}

/// To restrict a filter twice is to restrict it once.
pub proof fn restriction_is_idempotent(filter: Filter, identifiers: Seq<Ident>)
    ensures
        restricted(filter, identifiers) matches Some(f) ==> restricted(f, identifiers) == Some(f),
{
    restriction_keeps_what_is_allowed(filter, identifiers);
    match restricted(filter, identifiers) {
        Some(f) => restriction_keeps_what_is_allowed(f, identifiers),
        None => {},
    }
}

/// All the filters among the operations, merged in their order: `filter a | filter b` becomes
/// `filter (a) && (b)`. A grouping lets pass only what names timestamps, or the columns by which it
/// groups.
pub open spec fn coalesced(ops: Seq<TableOp>) -> Option<Filter>
    decreases ops.len(),
{
    if ops.len() == 0 {
        None
    } else {
        let later = coalesced(ops.drop_first());
        match ops[0] {
            TableOp::Basic(BasicTableOp::GroupBy(g)) => match later {
                Some(filter) => restricted(filter, g.identifiers@),
                None => None,
            },
            TableOp::Basic(BasicTableOp::Filter(filter)) => match later {
                Some(later) => Some(conjunction(filter, later)),
                None => Some(filter),
            },
            _ => later,
        }
    }
}

/// What is left of a filter can be pushed down through the grouping by the listed columns, where none
/// of these has the name by which filters speak of values.
pub proof fn restricted_filters_can_be_pushed_down(filter: Filter, identifiers: Seq<Ident>)
    requires
        !listed(identifiers, "datum"@),
    ensures
        restricted(filter, identifiers) matches Some(f) ==> names_keys_or_time(f, identifiers),
    decreases filter,
{
    match filter {
        Filter::Atom(_) => {},
        Filter::Expr(expr) => {
            restricted_filters_can_be_pushed_down(*expr.left, identifiers);
            restricted_filters_can_be_pushed_down(*expr.right, identifiers);
        },
    }
}

/// The operations are filters only.
pub open spec fn only_filters(ops: Seq<TableOp>) -> bool {
    forall|i: int|
        0 <= i < ops.len() ==> (#[trigger] ops[i] matches TableOp::Basic(op) && op is Filter)
}

/// The filters that the operations are.
pub open spec fn filters_of(ops: Seq<TableOp>) -> Seq<Filter> {
    ops.map_values(|op: TableOp| op->Basic_0->Filter_0)
}

/// Where a query only filters, its predicates are its filters, merged. Applied to what the query
/// gets, they leave what the query leaves, where none of them fails.
pub proof fn coalesced_filters_leave_the_same(ops: Seq<TableOp>, series: Seq<TimeseriesView>)
    requires
        ops.len() > 0,
        only_filters(ops),
        forall|i: int| 0 <= i < series.len() ==> (#[trigger] series[i]).well_formed(),
        none_fails(filters_of(ops), series),
    ensures
        coalesced(ops) matches Some(filter) && filter.kept_series(series) == filtered(
            filters_of(ops),
            series,
        ),
{
    coalesced_is_merged(ops);
    all_filters_can_be_merged(filters_of(ops), series);
}

proof fn coalesced_is_merged(ops: Seq<TableOp>)
    requires
        ops.len() > 0,
        only_filters(ops),
    ensures
        coalesced(ops) == Some(merged(filters_of(ops))),
    decreases ops.len(),
{
    let rest = ops.drop_first();
    let filters = filters_of(ops);
    assert(ops[0] matches TableOp::Basic(op) && op is Filter);
    assert(filters.drop_first() =~= filters_of(rest));
    reveal_with_fuel(coalesced, 2);
    if rest.len() > 0 {
        assert forall|i: int| 0 <= i < rest.len() implies (
        #[trigger] rest[i] matches TableOp::Basic(op) && op is Filter) by {
            assert(rest[i] == ops[i + 1]);
        }
        coalesced_is_merged(rest);
    }
}

/// What a query is taken apart into.
pub open spec fn splits_into(q: QueryNode, split: SplitQuery) -> bool {
    match (q.ops@[0], split) {
        (TableOp::Basic(_), SplitQuery::Flat(query)) => node_view(query.parsed) == node_view(q)
            && well_formed(query.parsed),
        (
            TableOp::Grouped(grouped),
            SplitQuery::Subquery { subqueries, transformations },
        ) => {
            &&& subqueries@.map_values(|s: Query| node_view(s.parsed)) == node_views(grouped.ops@)
            &&& forall|i: int|
                0 <= i < subqueries@.len() ==> well_formed((#[trigger] subqueries@[i]).parsed)
            &&& op_views(transformations@) == op_views(q.ops@.skip(1))
            &&& forall|i: int|
                0 <= i < transformations@.len() ==> transforms(#[trigger] transformations@[i])
        },
        _ => false,
    }
}

impl QueryNode {
    /// The name of the first timeseries that the query refers to.
    pub fn timeseries_name(&self) -> (name: &str)
        requires
            well_formed(*self),
        ensures
            name@ == first_name(*self),
        decreases self,
    {
        match &self.ops[0] {
            TableOp::Basic(BasicTableOp::Get(name)) => name.as_str(),
            TableOp::Basic(_) => "",
            TableOp::Grouped(grouped) => {
                assert(well_formed(grouped.ops@[0]));
                grouped.ops[0].timeseries_name()
            },
        }
    }

    /// The operations after the first.
    pub fn transformations(&self) -> (ops: &[TableOp])
        requires
            well_formed(*self),
        ensures
            ops@ == self.ops@.skip(1),
            forall|i: int| 0 <= i < ops@.len() ==> transforms(#[trigger] ops@[i]),
    {
        let n = self.ops.len();
        let ops = vstd::slice::slice_subrange(self.ops.as_slice(), 1, n);
        proof {
            assert(ops@ =~= self.ops@.skip(1));
            assert forall|i: int| 0 <= i < ops@.len() implies transforms(#[trigger] ops@[i]) by {
                assert(ops@[i] == self.ops@[i + 1]);
            }
        }
        ops
    }

    /// Takes the query apart where it begins with subqueries.
    pub fn split(&self) -> (split: SplitQuery)
        requires
            well_formed(*self),
        ensures
            splits_into(*self, split),
    {
        match &self.ops[0] {
            TableOp::Basic(_) => SplitQuery::Flat(Query { parsed: copied_node(self) }),
            TableOp::Grouped(grouped) => {
                let mut subqueries: Vec<Query> = Vec::new();
                let mut i: usize = 0;
                while i < grouped.ops.len()
                    invariant
                        i <= grouped.ops@.len(),
                        subqueries@.len() == i,
                        forall|k: int|
                            0 <= k < i ==> node_view((#[trigger] subqueries@[k]).parsed)
                                == node_view(grouped.ops@[k]) && well_formed(subqueries@[k].parsed),
                        begins_query(TableOp::Grouped(*grouped)),
                    decreases grouped.ops@.len() - i,
                {
                    subqueries.push(Query { parsed: copied_node(&grouped.ops[i]) });
                    i = i + 1;
                }
                let mut transformations: Vec<TableOp> = Vec::new();
                let mut j: usize = 1;
                while j < self.ops.len()
                    invariant
                        1 <= j <= self.ops@.len(),
                        transformations@.len() == j - 1,
                        forall|k: int|
                            0 <= k < transformations@.len() ==> op_view(
                                #[trigger] transformations@[k],
                            ) == op_view(self.ops@[k + 1]) && transforms(transformations@[k]),
                        forall|k: int|
                            1 <= k < self.ops@.len() ==> transforms(#[trigger] self.ops@[k]),
                    decreases self.ops@.len() - j,
                {
                    transformations.push(copied_op(&self.ops[j]));
                    j = j + 1;
                }
                assert(subqueries@.map_values(|s: Query| node_view(s.parsed)) =~= node_views(
                    grouped.ops@,
                ));
                assert(op_views(transformations@) =~= op_views(self.ops@.skip(1)));
                SplitQuery::Subquery { subqueries, transformations }
            },
        }
    }
}

/// The longest query, in bytes.
pub const MAX_LEN: usize = 4096;

/// What is read of a text at an instant: the query that the text stands for without the white space
/// around it.
pub open spec fn reads_as(text: Seq<char>, now: Timestamp, r: Result<Query, Error>) -> bool {
    let raw = trimmed(text);
    if text_bytes(raw) > MAX_LEN {
        r == Err::<Query, Error>(Error::QueryTooLong)
    } else {
        match (query_of(raw, now), r) {
            (Some(view), Ok(query)) => node_view(query.parsed) == view && well_formed(
                query.parsed,
            ),
            (None, Err(e)) => e == Error::Syntax,
            _ => false,
        }
    }
}

/// The filter that a text stands for at an instant.
pub fn parse_filter(text: &str, now: &Timestamp) -> (r: Result<Filter, Error>)
    requires
        text@.len() <= MAX_CHARS,
    ensures
        match (filter_of(text@, *now), r) {
            (Some(view), Ok(filter)) => filter_view(filter) == view,
            (None, Err(e)) => e == Error::Syntax,
            _ => false,
        },
{
    match read_filter(&chars_of(text), now) {
        Some(filter) => Ok(filter),
        None => Err(Error::Syntax),
    }
}

impl Query {
    /// The query that a text stands for at an instant.
    pub fn parse(query: &str, now: &Timestamp) -> (r: Result<Query, Error>)
        ensures
            reads_as(query@, *now, r),
    {
        let raw = trimmed_chars(query);
        if !fits_in_bytes(&raw, MAX_LEN) {
            return Err(Error::QueryTooLong);
        }
        match read_query(&raw, now) {
            Some(parsed) => Ok(Query { parsed }),
            None => Err(Error::Syntax),
        }
    }

    /// The query that a text stands for at present.
    pub fn new(query: &str) -> (r: Result<Query, Error>)
        ensures
            exists|now: Timestamp| #[trigger] reads_as(query@, now, r),
    {
        let now = utc_now();
        let r = Query::parse(query, &now);
        assert(reads_as(query@, now, r));
        r
    }

    /// The name of the next timeseries that the query refers to. There is always exactly one.
    pub fn timeseries_name(&self) -> (name: &str)
        requires
            well_formed(self.parsed),
        ensures
            name@ == first_name(self.parsed),
    {
        self.parsed.timeseries_name()
    }

    /// Everything after the initial `get`, or the initial subqueries.
    pub fn transformations(&self) -> (ops: &[TableOp])
        requires
            well_formed(self.parsed),
        ensures
            ops@ == self.parsed.ops@.skip(1),
            forall|i: int| 0 <= i < ops@.len() ==> transforms(#[trigger] ops@[i]),
    {
        self.parsed.transformations()
    }

    /// All the predicates of the query, merged into one filter that can be applied to what the query
    /// gets. There may be none.
    pub fn coalesced_predicates(&self) -> (r: Option<Filter>)
        requires
            well_formed(self.parsed),
        ensures
            r == coalesced(self.parsed.ops@.skip(1)),
    {
        let ops = self.transformations();
        let mut maybe_filter: Option<Filter> = None;
        let mut i: usize = ops.len();
        assert(ops@.skip(i as int) =~= Seq::empty());
        while i > 0
            invariant
                i <= ops@.len(),
                maybe_filter == coalesced(ops@.skip(i as int)),
            decreases i,
        {
            i = i - 1;
            assert(ops@.skip(i as int).drop_first() =~= ops@.skip(i + 1));
            assert(ops@.skip(i as int)[0] == ops@[i as int]);
            match &ops[i] {
                TableOp::Basic(BasicTableOp::GroupBy(g)) => {
                    maybe_filter = match &maybe_filter {
                        Some(current) => restrict_filter_idents(current, g.identifiers.as_slice()),
                        None => None,
                    };
                },
                TableOp::Basic(BasicTableOp::Filter(filter)) => {
                    maybe_filter = match maybe_filter {
                        Some(later) => Some(
                            Filter::Expr(
                                FilterExpr {
                                    left: Box::new(filter.clone()),
                                    op: LogicalOp::And,
                                    right: Box::new(later),
                                },
                            ),
                        ),
                        None => Some(filter.clone()),
                    };
                },
                _ => {},
            }
        }
        assert(ops@.skip(0) =~= ops@);
        maybe_filter
    }

    /// Takes the query apart where it begins with subqueries.
    pub fn split(&self) -> (split: SplitQuery)
        requires
            well_formed(self.parsed),
        ensures
            splits_into(self.parsed, split),
    {
        self.parsed.split()
    }
}

} // verus!
