//! Table operations, and the queries that are made of them.

use vstd::prelude::*;

use crate::oxql::filter::Filter;
use crate::oxql::group_by::{group_views, grouped, GroupBy, GroupedTable, Reducer};
use crate::oxql::ast::Ident;
use crate::oxql::join::{joined_tables, views, Join};
use crate::oxql::table::{Table, TableView};
use crate::oxql::views::{filter_view, names, FilterView};
use crate::oxql::Error;

verus! {

/// A table operation without subqueries.
#[derive(Debug, PartialEq)]
pub enum BasicTableOp {
    /// Gets the timeseries with the name.
    Get(String),
    Filter(Filter),
    GroupBy(GroupBy),
    Join(Join),
}

/// Subqueries, side by side.
#[derive(Debug, PartialEq)]
pub struct GroupedTableOp {
    pub ops: Vec<QueryNode>,
}

/// A table operation.
#[derive(Debug, PartialEq)]
pub enum TableOp {
    Basic(BasicTableOp),
    Grouped(GroupedTableOp),
}

/// A query: table operations, one after the other.
#[derive(Debug, PartialEq)]
pub struct QueryNode {
    pub ops: Vec<TableOp>,
}

/// What comes of a table operation. The numbers of a grouped table are still to be reduced.
#[derive(Debug, PartialEq)]
pub enum Applied {
    Tables(Vec<Table>),
    Grouped(GroupedTable),
}

impl BasicTableOp {
    /// The operation can be applied to the tables: it is no `get`, and a filter finds what it needs.
    pub open spec fn applies_to(self, tables: Seq<Table>) -> bool {
        match self {
            BasicTableOp::Get(_) => false,
            BasicTableOp::Filter(f) => tables.len() == 1 ==> tables[0]@.well_formed()
                && f.fits_series(tables[0]@.timeseries),
            BasicTableOp::GroupBy(_) => tables.len() == 1 ==> tables[0]@.well_formed(),
            BasicTableOp::Join(_) => true,
        }
    }

    /// What comes of the operation.
    pub open spec fn gives(self, tables: Seq<Table>, r: Result<Applied, Error>) -> bool {
        match self {
            BasicTableOp::Get(_) => false,
            BasicTableOp::Filter(f) => if tables.len() != 1 {
                r == Err::<Applied, Error>(Error::FilterTableCount)
            } else {
                match (f.kept_series(tables[0]@.timeseries), r) {
                    (Ok(series), Ok(Applied::Tables(out))) => out@.len() == 1
                        && out@[0]@.well_formed() && out@[0]@ == (TableView {
                        name: tables[0]@.name,
                        timeseries: series,
                    }),
                    (Err(e), Err(error)) => error == e,
                    _ => false,
                }
            },
            BasicTableOp::GroupBy(g) => if tables.len() != 1 {
                r == Err::<Applied, Error>(Error::GroupTableCount)
            } else {
                match (grouped(tables[0]@.timeseries, g.identifiers@), r) {
                    (Ok(groups), Ok(Applied::Grouped(out))) => out.name@ == tables[0]@.name
                        && out.reducer == g.reducer && group_views(out.groups@) == groups,
                    (Err(e), Err(error)) => error == e,
                    _ => false,
                }
            },
            BasicTableOp::Join(_) => if tables.len() <= 1 {
                r == Err::<Applied, Error>(Error::JoinTableCount)
            } else {
                match (joined_tables(views(tables)), r) {
                    (Ok(table), Ok(Applied::Tables(out))) => out@.len() == 1 && out@[0]@ == table,
                    (Err(e), Err(error)) => error == e,
                    _ => false,
                }
            },
        }
    }

    /// Applies the operation to tables.
    pub fn apply(&self, tables: &Vec<Table>) -> (r: Result<Applied, Error>)
        requires
            self.applies_to(tables@),
        ensures
            self.gives(tables@, r),
    {
        match self {
            BasicTableOp::Get(_) => Err(Error::FilterTableCount),
            BasicTableOp::Filter(f) => match f.apply(tables) {
                Ok(out) => {
                    assert(tables@.len() == 1 ==> out@[0]@ =~= (TableView {
                        name: tables@[0]@.name,
                        timeseries: out@[0]@.timeseries,
                    }));
                    Ok(Applied::Tables(out))
                },
                Err(e) => Err(e),
            },
            BasicTableOp::GroupBy(g) => match g.apply(tables) {
                Ok(out) => Ok(Applied::Grouped(out)),
                Err(e) => Err(e),
            },
            BasicTableOp::Join(j) => match j.apply(tables) {
                Ok(out) => Ok(Applied::Tables(out)),
                Err(e) => Err(e),
            },
        }
    }
}

impl TableOp {
    /// The operation makes one table of two or more.
    pub fn is_merge(&self) -> (yes: bool)
        ensures
            yes == (self matches TableOp::Basic(BasicTableOp::Join(_))),
    {
        match self {
            TableOp::Basic(BasicTableOp::Join(_)) => true,
            _ => false,
        }
    }

    /// Applies the operation to tables.
    pub fn apply(&self, tables: &Vec<Table>) -> (r: Result<Applied, Error>)
        requires
            self matches TableOp::Basic(op) && op.applies_to(tables@),
        ensures
            self matches TableOp::Basic(op) && op.gives(tables@, r),
    {
        match self {
            TableOp::Basic(basic) => basic.apply(tables),
            TableOp::Grouped(_) => Err(Error::FilterTableCount),
        }
    }
}

/// The operation is a transformation: it neither gets timeseries nor holds subqueries.
pub open spec fn transforms(op: TableOp) -> bool {
    op matches TableOp::Basic(basic) && basic !is Get
}

/// The query begins with a single `get`, or with one subquery or more, each of which is such a query
/// itself. Transformations follow.
pub open spec fn well_formed(q: QueryNode) -> bool
    decreases q,
{
    &&& q.ops@.len() > 0
    &&& begins_query(q.ops@[0])
    &&& forall|i: int| 1 <= i < q.ops@.len() ==> transforms(#[trigger] q.ops@[i])
}

/// The operation is a `get`, or holds one subquery or more.
pub open spec fn begins_query(op: TableOp) -> bool
    decreases op,
{
    match op {
        TableOp::Basic(basic) => basic is Get,
        TableOp::Grouped(grouped) => grouped.ops@.len() > 0 && forall|i: int|
            0 <= i < grouped.ops@.len() ==> well_formed(#[trigger] grouped.ops@[i]),
    }
}

/// The name of the first timeseries that the query refers to.
pub open spec fn first_name(q: QueryNode) -> Seq<char>
    decreases q,
{
    if q.ops@.len() == 0 {
        Seq::empty()
    } else {
        match q.ops@[0] {
            TableOp::Basic(BasicTableOp::Get(name)) => name@,
            TableOp::Basic(_) => Seq::empty(),
            TableOp::Grouped(grouped) => if grouped.ops@.len() == 0 {
                Seq::empty()
            } else {
                first_name(grouped.ops@[0])
            },
        }
    }
}

/// What a table operation holds.
pub ghost enum TableOpView {
    Get(Seq<char>),
    Filter(FilterView),
    GroupBy(Seq<Seq<char>>, Reducer),
    Join,
    Grouped(Seq<QueryNodeView>),
}

/// What a query holds.
pub ghost struct QueryNodeView {
    pub ops: Seq<TableOpView>,
}

/// What a table operation holds.
pub open spec fn op_view(op: TableOp) -> TableOpView
    decreases op,
{
    match op {
        TableOp::Basic(BasicTableOp::Get(name)) => TableOpView::Get(name@),
        TableOp::Basic(BasicTableOp::Filter(f)) => TableOpView::Filter(
            filter_view(f),
        ),
        TableOp::Basic(BasicTableOp::GroupBy(g)) => TableOpView::GroupBy(
            names(g.identifiers@),
            g.reducer,
        ),
        TableOp::Basic(BasicTableOp::Join(_)) => TableOpView::Join,
        TableOp::Grouped(grouped) => TableOpView::Grouped(
            Seq::new(
                grouped.ops@.len(),
                |i: int|
                    if 0 <= i < grouped.ops@.len() {
                        node_view(grouped.ops@[i])
                    } else {
                        QueryNodeView { ops: Seq::empty() }
                    },
            ),
        ),
    }
}

/// What a query holds.
pub open spec fn node_view(q: QueryNode) -> QueryNodeView
    decreases q,
{
    QueryNodeView {
        ops: Seq::new(
            q.ops@.len(),
            |i: int|
                if 0 <= i < q.ops@.len() {
                    op_view(q.ops@[i])
                } else {
                    TableOpView::Join
                },
        ),
    }
}

/// What the queries hold.
pub open spec fn node_views(nodes: Seq<QueryNode>) -> Seq<QueryNodeView> {
    nodes.map_values(|q: QueryNode| node_view(q))
}

/// What the operations hold.
pub open spec fn op_views(ops: Seq<TableOp>) -> Seq<TableOpView> {
    ops.map_values(|op: TableOp| op_view(op))
}

fn copied_idents(idents: &Vec<Ident>) -> (r: Vec<Ident>)
    ensures
        r@ == idents@,
{
    let mut r: Vec<Ident> = Vec::new();
    let mut i: usize = 0;
    while i < idents.len()
        invariant
            i <= idents@.len(),
            r@ == idents@.take(i as int),
        decreases idents@.len() - i,
    {
        r.push(idents[i].clone());
        i = i + 1;
        assert(r@ =~= idents@.take(i as int));
    }
    assert(r@ =~= idents@);
    r
}

/// A copy of a table operation.
pub fn copied_op(op: &TableOp) -> (r: TableOp)
    ensures
        op_view(r) == op_view(*op),
        transforms(*op) ==> transforms(r),
        begins_query(*op) ==> begins_query(r),
    decreases op, 0int,
{
    match op {
        TableOp::Basic(BasicTableOp::Get(name)) => TableOp::Basic(BasicTableOp::Get(name.clone())),
        TableOp::Basic(BasicTableOp::Filter(f)) => TableOp::Basic(BasicTableOp::Filter(f.clone())),
        TableOp::Basic(BasicTableOp::GroupBy(g)) => TableOp::Basic(
            BasicTableOp::GroupBy(
                GroupBy { identifiers: copied_idents(&g.identifiers), reducer: g.reducer },
            ),
        ),
        TableOp::Basic(BasicTableOp::Join(j)) => TableOp::Basic(BasicTableOp::Join(*j)),
        TableOp::Grouped(grouped) => {
            let mut ops: Vec<QueryNode> = Vec::new();
            let mut i: usize = 0;
            while i < grouped.ops.len()
                invariant
                    i <= grouped.ops@.len(),
                    decreases_to!(op => grouped.ops@),
                    ops@.len() == i,
                    forall|k: int|
                        0 <= k < i ==> node_view(#[trigger] ops@[k]) == node_view(grouped.ops@[k]),
                    forall|k: int|
                        0 <= k < i && well_formed(grouped.ops@[k]) ==> well_formed(
                            #[trigger] ops@[k],
                        ),
                decreases grouped.ops@.len() - i,
            {
                let q = copied_node(&grouped.ops[i]);
                ops.push(q);
                i = i + 1;
            }
            let r = TableOp::Grouped(GroupedTableOp { ops });
            proof {
                match (op_view(r), op_view(*op)) {
                    (TableOpView::Grouped(a), TableOpView::Grouped(b)) => assert(a =~= b),
                    _ => {},
                }
            }
            r
        },
    }
}

/// A copy of a query.
pub fn copied_node(q: &QueryNode) -> (r: QueryNode)
    ensures
        node_view(r) == node_view(*q),
        well_formed(*q) ==> well_formed(r),
    decreases q, 1int,
{
    let mut ops: Vec<TableOp> = Vec::new();
    let mut i: usize = 0;
    while i < q.ops.len()
        invariant
            i <= q.ops@.len(),
            ops@.len() == i,
            forall|k: int| 0 <= k < i ==> op_view(#[trigger] ops@[k]) == op_view(q.ops@[k]),
            forall|k: int| 0 <= k < i && transforms(q.ops@[k]) ==> transforms(#[trigger] ops@[k]),
            i > 0 && begins_query(q.ops@[0]) ==> begins_query(ops@[0]),
        decreases q.ops@.len() - i,
    {
        let op = copied_op(&q.ops[i]);
        ops.push(op);
        i = i + 1;
    }
    let r = QueryNode { ops };
    assert(node_view(r).ops =~= node_view(*q).ops);
    r
}

} // verus!
