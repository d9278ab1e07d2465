//! What queries stand for, and what comes of their operations.

use vstd::prelude::*;

use crate::oxql::ast::{Double, Literal};
use crate::oxql::display::is_name;
use crate::oxql::filter::{Filter, FilterAtom, FilterExpr};
use crate::oxql::grammar::{
    at, blank, char_at, name_char, name_end, parts_end, run_end, skip_blanks,
};
use crate::oxql::group_by::{group_views, grouped, GroupBy, Reducer};
use crate::oxql::join::{joined_tables, views, Join};
use crate::oxql::parser::{
    filter_op, get_op, group_by_op, keyword, more_names, more_ops, more_queries,
    query_at, query_of, reducer, starts, table_op,
};
use crate::oxql::query::{reads_as, splits_into, Query, SplitQuery};
use crate::oxql::table::Table;
use crate::oxql::table_ops::{
    first_name, node_view, node_views, op_view, op_views, well_formed, Applied, BasicTableOp, GroupedTableOp, QueryNode,
    QueryNodeView, TableOp, TableOpView,
};
use crate::oxql::views::{filter_view, literal_view, FilterView, LiteralView};
use crate::oxql::Error;
use crate::text::{text_bytes, trimmed};
use crate::time::Timestamp;

verus! {

/// A keyword is read where it stands and a blank follows, with all the blanks behind it, and nowhere
/// else.
pub proof fn keywords_need_a_blank(s: Seq<char>, i: int, word: Seq<char>)
    ensures
        keyword(s, i, word) == (if at(s, i, word) && (char_at(s, i + word.len(), ' ') || char_at(
            s,
            i + word.len(),
            '\n',
        ) || char_at(s, i + word.len(), '\t')) {
            Some(skip_blanks(s, i + word.len()))
        } else {
            None
        }),
{
}

/// No character that a name could go on with follows at `j`.
pub open spec fn no_name_goes_on(s: Seq<char>, j: int) -> bool {
    forall|c: char| #[trigger]
        char_at(s, j, c) ==> !('a' <= c <= 'z') && !('0' <= c <= '9') && c != '_'
}

proof fn runs_end_alike(s: Seq<char>, i: int, text: Seq<char>, k: int)
    requires
        at(s, i, text),
        0 <= k <= text.len(),
        no_name_goes_on(s, i + text.len()),
    ensures
        run_end(s, i + k) == i + run_end(text, k),
        k <= run_end(text, k) <= text.len(),
    decreases text.len() - k,
{
    if k < text.len() {
        assert(s.subrange(i, i + text.len())[k] == text[k]);
        runs_end_alike(s, i, text, k + 1);
    } else if i + k < s.len() {
        assert(char_at(s, i + text.len(), s[i + k]));
    }
}

proof fn parts_end_alike(s: Seq<char>, i: int, text: Seq<char>, k: int)
    requires
        at(s, i, text),
        0 <= k <= text.len(),
        no_name_goes_on(s, i + text.len()),
    ensures
        parts_end(s, i + k) == i + parts_end(text, k),
        k <= parts_end(text, k) <= text.len(),
    decreases text.len() - k,
{
    runs_end_alike(s, i, text, k);
    let j = run_end(text, k);
    if j < text.len() {
        assert(s.subrange(i, i + text.len())[j] == text[j]);
        if j + 1 < text.len() {
            assert(s.subrange(i, i + text.len())[j + 1] == text[j + 1]);
            if k < j && text[j] == '_' && name_char(text[j + 1]) {
                parts_end_alike(s, i, text, j + 1);
            }
        } else if i + j + 1 < s.len() {
            assert(char_at(s, i + text.len(), s[i + j + 1]));
        }
    } else if i + j < s.len() {
        assert(char_at(s, i + text.len(), s[i + j]));
    }
}

/// A name is read to its end, where nothing follows that it could go on with.
pub proof fn names_are_read_to_their_end(s: Seq<char>, i: int, text: Seq<char>)
    requires
        at(s, i, text),
        is_name(text),
        no_name_goes_on(s, i + text.len()),
    ensures
        name_end(s, i) == Some(i + text.len() as int),
        'a' <= s[i] <= 'z',
{
    parts_end_alike(s, i, text, 0);
    assert(text.len() > 0);
    assert(s.subrange(i, i + text.len())[0] == text[0]);
}

/// The word `get`, and two names with a colon between them, are a query for the timeseries with
/// that name.
pub proof fn timeseries_are_got_by_name(target: Seq<char>, metric: Seq<char>, now: Timestamp)
    requires
        is_name(target),
        is_name(metric),
    ensures
        query_of("get "@ + target + ":"@ + metric, now) == Some(
            (QueryNodeView { ops: seq![TableOpView::Get(target + ":"@ + metric)] }),
        ),
{
    reveal_strlit("get ");
    reveal_strlit("get");
    reveal_strlit(":");
    let s = "get "@ + target + ":"@ + metric;
    let n = s.len() as int;
    let k = 4 + target.len() as int;
    assert(s.subrange(0, 3) =~= "get"@);
    assert(s.subrange(4, k) =~= target);
    assert(s.subrange(k + 1, n) =~= metric);
    assert(s[3] == ' ');
    assert(s[k] == ':');
    names_are_read_to_their_end(s, 4, target);
    names_are_read_to_their_end(s, k + 1, metric);
    assert(skip_blanks(s, 4) == 4);
    assert(skip_blanks(s, 3) == 4);
    assert(keyword(s, 0, "get"@) == Some(4int));
    assert(s.subrange(4, n) =~= target + ":"@ + metric);
    assert(get_op(s, 0) == Some((target + ":"@ + metric, n)));
    let op = TableOpView::Get(target + ":"@ + metric);
    assert(s[0] == 'g');
    assert(table_op(s, 0, now) == Some((op, n)));
    assert(more_ops(s, n, seq![op], now) == (seq![op], n));
    assert(query_at(s, 0, now) == Some((QueryNodeView { ops: seq![op] }, n)));
}

/// The operation stands from `i` to `j`.
pub open spec fn operation_at(s: Seq<char>, i: int, j: int, op: TableOpView, now: Timestamp) -> bool {
    table_op(s, i, now) == Some((op, j)) && 0 <= i < j <= s.len()
}

/// The mark follows at `j`, and behind it begins, at `p`, what comes next. Blanks may stand around
/// the mark.
pub open spec fn follows_after(s: Seq<char>, j: int, mark: char, p: int) -> bool {
    char_at(s, skip_blanks(s, j), mark) && p == skip_blanks(s, skip_blanks(s, j) + 1)
}

proof fn blanks_have_an_end(s: Seq<char>, i: int)
    requires
        0 <= i <= s.len(),
    ensures
        i <= skip_blanks(s, i) <= s.len(),
    decreases s.len() - i,
{
    if i < s.len() && blank(s[i]) {
        blanks_have_an_end(s, i + 1);
    }
}

/// Operations with a bar between them are taken one after the other. They are a query if and only
/// if the first gets timeseries or holds subqueries, and the other does not.
pub proof fn operations_follow_each_other(
    s: Seq<char>,
    i: int,
    j: int,
    p: int,
    k: int,
    first: TableOpView,
    second: TableOpView,
    now: Timestamp,
)
    requires
        operation_at(s, i, j, first, now),
        follows_after(s, j, '|', p),
        operation_at(s, p, k, second, now),
        !char_at(s, skip_blanks(s, k), '|'),
    ensures
        query_at(s, i, now) == (if (first is Get || first is Grouped) && second !is Get && second
            !is Grouped {
            Some((QueryNodeView { ops: seq![first, second] }, k))
        } else {
            None
        }),
{
    blanks_have_an_end(s, j);
    blanks_have_an_end(s, skip_blanks(s, j) + 1);
    let ops = seq![first].push(second);
    assert(ops =~= seq![first, second]);
    assert(more_ops(s, k, ops, now) == (ops, k));
    assert(more_ops(s, j, seq![first], now) == (ops, k));
    if (first is Get || first is Grouped) && second !is Get && second !is Grouped {
        assert forall|x: int| 1 <= x < ops.len() implies !starts(
            #[trigger] ops[x],
        ) by {
            assert(ops[x] == second);
        }
    } else {
        assert(ops[0] == first && ops[1] == second);
    }
}

/// A single operation is a query if and only if it gets timeseries or holds subqueries.
pub proof fn queries_begin_with_timeseries(
    s: Seq<char>,
    i: int,
    j: int,
    op: TableOpView,
    now: Timestamp,
)
    requires
        operation_at(s, i, j, op, now),
        !char_at(s, skip_blanks(s, j), '|'),
    ensures
        query_at(s, i, now) == (if op is Get || op is Grouped {
            Some((QueryNodeView { ops: seq![op] }, j))
        } else {
            None
        }),
{
    assert(more_ops(s, j, seq![op], now) == (seq![op], j));
    assert(seq![op][0] == op);
}

/// Queries in braces, with a semicolon between them, are held side by side in their order.
pub proof fn subqueries_are_held_in_their_order(
    s: Seq<char>,
    i: int,
    a: int,
    b: int,
    first: QueryNodeView,
    c: int,
    d: int,
    second: QueryNodeView,
    now: Timestamp,
)
    requires
        0 <= i,
        char_at(s, i, '{'),
        a == skip_blanks(s, i + 1),
        query_at(s, a, now) == Some((first, b)),
        a < b <= s.len(),
    ensures
        char_at(s, skip_blanks(s, b), '}') ==> table_op(s, i, now) == Some(
            (TableOpView::Grouped(seq![first]), skip_blanks(s, b) + 1),
        ),
        follows_after(s, b, ';', c) && query_at(s, c, now) == Some((second, d)) && c < d <= s.len()
            && char_at(s, skip_blanks(s, d), '}') ==> table_op(s, i, now) == Some(
            (TableOpView::Grouped(seq![first, second]), skip_blanks(s, d) + 1),
        ),
{
    blanks_have_an_end(s, i + 1);
    blanks_have_an_end(s, b);
    if char_at(s, skip_blanks(s, b), '}') {
        assert(more_queries(s, b, seq![first], now) == (seq![first], b));
    }
    if follows_after(s, b, ';', c) && query_at(s, c, now) == Some((second, d)) && c < d <= s.len()
        && char_at(s, skip_blanks(s, d), '}') {
        blanks_have_an_end(s, skip_blanks(s, b) + 1);
        let all = seq![first].push(second);
        assert(all =~= seq![first, second]);
        assert(more_queries(s, d, all, now) == (all, d));
        assert(more_queries(s, b, seq![first], now) == (all, d));
    }
}

/// Groups are reduced by their mean or by their sum, as is said behind a comma, and by their mean
/// where nothing is said.
pub proof fn reducers_are_read(s: Seq<char>, i: int, p: int)
    ensures
        follows_after(s, i, ',', p) && at(s, p, "sum"@) ==> reducer(s, i) == (Reducer::Sum, p + 3),
        follows_after(s, i, ',', p) && at(s, p, "mean"@) ==> reducer(s, i) == (
            Reducer::Mean,
            p + 4,
        ),
        follows_after(s, i, ',', p) && !at(s, p, "sum"@) && !at(s, p, "mean"@) ==> reducer(s, i)
            == (Reducer::Mean, i),
        !char_at(s, skip_blanks(s, i), ',') ==> reducer(s, i) == (Reducer::Mean, i),
{
    reveal_strlit("sum");
    reveal_strlit("mean");
    if at(s, p, "sum"@) && at(s, p, "mean"@) {
        assert(s.subrange(p, p + 3)[0] == 's');
        assert(s.subrange(p, p + 4)[0] == 'm');
    }
}

/// The name stands from `i` to `j`.
pub open spec fn name_at(s: Seq<char>, i: int, j: int) -> bool {
    name_end(s, i) == Some(j) && 0 <= i < j <= s.len()
}

/// The names by which is grouped are those in the square brackets, in their order, and the groups
/// are reduced as is said behind the brackets.
pub proof fn groupings_are_read(s: Seq<char>, i: int, a: int, b: int, c: int, d: int)
    requires
        0 <= i,
        at(s, i, "group_by"@),
        char_at(s, i + 8, ' '),
        char_at(s, skip_blanks(s, i + 8), '['),
        a == skip_blanks(s, skip_blanks(s, i + 8) + 1),
        name_at(s, a, b),
    ensures
        char_at(s, skip_blanks(s, b), ']') ==> group_by_op(s, i) == Some(
            (
                TableOpView::GroupBy(
                    seq![s.subrange(a, b)],
                    reducer(s, skip_blanks(s, b) + 1).0,
                ),
                reducer(s, skip_blanks(s, b) + 1).1,
            ),
        ),
        follows_after(s, b, ',', c) && name_at(s, c, d) && char_at(s, skip_blanks(s, d), ']')
            ==> group_by_op(s, i) == Some(
            (
                TableOpView::GroupBy(
                    seq![s.subrange(a, b), s.subrange(c, d)],
                    reducer(s, skip_blanks(s, d) + 1).0,
                ),
                reducer(s, skip_blanks(s, d) + 1).1,
            ),
        ),
{
    reveal_strlit("group_by");
    let one = seq![s.subrange(a, b)];
    blanks_have_an_end(s, b);
    if char_at(s, skip_blanks(s, b), ']') {
        assert(more_names(s, b, one) == (one, b));
    }
    if follows_after(s, b, ',', c) && name_at(s, c, d) && char_at(s, skip_blanks(s, d), ']') {
        blanks_have_an_end(s, skip_blanks(s, b) + 1);
        let two = one.push(s.subrange(c, d));
        assert(two =~= seq![s.subrange(a, b), s.subrange(c, d)]);
        assert(more_names(s, d, two) == (two, d));
        assert(more_names(s, b, one) == (two, d));
    }
}

/// The word `join` is the operation that joins tables.
pub proof fn joins_are_read(s: Seq<char>, i: int, now: Timestamp)
    requires
        at(s, i, "join"@),
    ensures
        table_op(s, i, now) == Some((TableOpView::Join, i + 4)),
{
    reveal_strlit("join");
    reveal_strlit("get");
    reveal_strlit("filter");
    reveal_strlit("group_by");
    assert(s.subrange(i, i + 4)[0] == 'j');
    if at(s, i, "get"@) {
        assert(s.subrange(i, i + 3)[0] == 'g');
    }
    if at(s, i, "filter"@) {
        assert(s.subrange(i, i + 6)[0] == 'f');
    }
    if at(s, i, "group_by"@) {
        assert(s.subrange(i, i + 8)[0] == 'g');
    }
}

/// A filter is read as a whole behind the word `filter`, and no other operation is read there.
pub proof fn filters_are_read(s: Seq<char>, i: int, f: FilterView, end: int, now: Timestamp)
    requires
        filter_op(s, i, now) == Some((f, end)),
    ensures
        at(s, i, "filter"@),
        table_op(s, i, now) == Some((TableOpView::Filter(f), end)),
{
    reveal_strlit("get");
    reveal_strlit("filter");
    reveal_strlit("group_by");
    assert(s.subrange(i, i + 6)[0] == 'f');
    if at(s, i, "get"@) {
        assert(s.subrange(i, i + 3)[0] == 'g');
    }
}

/// A literal in a syntax tree is the literal that was written, with its value.
pub proof fn literals_keep_their_values(
    n: i128,
    d: Double,
    text: String,
    b: bool,
    t: Timestamp,
)
    ensures
        literal_view(Literal::Integer(n)) == LiteralView::Integer(n as int),
        literal_view(Literal::Double(d)) == LiteralView::Double(d),
        literal_view(Literal::String(text)) == LiteralView::Text(text@),
        literal_view(Literal::Boolean(b)) == LiteralView::Boolean(b),
        literal_view(Literal::Timestamp(t)) == LiteralView::Timestamp(t),
{
}

/// A comparison in a syntax tree has the name, the operator and the literal that were written, and is
/// negated where that was. Joined filters keep their order and their operator.
pub proof fn filters_keep_what_was_written(atom: FilterAtom, expr: FilterExpr)
    ensures
        filter_view(Filter::Atom(atom)) == (FilterView::Atom {
            negated: atom.negated,
            ident: atom.ident.0@,
            comparison: atom.cmp,
            literal: literal_view(atom.expr),
        }),
        filter_view(Filter::Expr(expr)) == (FilterView::Expr {
            left: Box::new(filter_view(*expr.left)),
            op: expr.op,
            right: Box::new(filter_view(*expr.right)),
        }),
{
}

/// A query in a syntax tree has the operations that were written, in their order.
pub proof fn queries_keep_what_was_written(
    q: QueryNode,
    i: int,
    name: String,
    f: Filter,
    g: GroupBy,
    k: int,
    join: Join,
    subqueries: GroupedTableOp,
    j: int,
)
    requires
        0 <= i < q.ops@.len(),
        0 <= k < g.identifiers@.len(),
        0 <= j < subqueries.ops@.len(),
    ensures
        node_view(q).ops.len() == q.ops@.len(),
        node_view(q).ops[i] == op_view(q.ops@[i]),
        op_view(TableOp::Basic(BasicTableOp::Get(name))) == TableOpView::Get(name@),
        op_view(TableOp::Basic(BasicTableOp::Filter(f))) == TableOpView::Filter(filter_view(f)),
        op_view(TableOp::Basic(BasicTableOp::GroupBy(g))) matches TableOpView::GroupBy(names, how)
            && names.len() == g.identifiers@.len() && names[k] == g.identifiers@[k].0@ && how
            == g.reducer,
        op_view(TableOp::Basic(BasicTableOp::Join(join))) is Join,
        op_view(TableOp::Grouped(subqueries)) matches TableOpView::Grouped(views) && views.len()
            == subqueries.ops@.len() && views[j] == node_view(subqueries.ops@[j]),
{
}

/// The first timeseries that a query refers to is the one that it gets, or the first of its first
/// subquery.
pub proof fn queries_refer_to_what_they_get(q: QueryNode, name: String, subqueries: GroupedTableOp)
    requires
        well_formed(q),
    ensures
        q.ops@[0] == TableOp::Basic(BasicTableOp::Get(name)) ==> first_name(q) == name@,
        q.ops@[0] == TableOp::Grouped(subqueries) ==> first_name(q) == first_name(
            subqueries.ops@[0],
        ),
{
}

/// A text is refused as too long if and only if it has more than 4096 bytes without the white space
/// around it. Any other text that is no query is refused for its syntax.
pub proof fn texts_are_refused_for_cause(text: Seq<char>, now: Timestamp, r: Result<Query, Error>)
    requires
        reads_as(text, now, r),
    ensures
        r == Err::<Query, Error>(Error::QueryTooLong) <==> text_bytes(trimmed(text)) > 4096,
        r == Err::<Query, Error>(Error::Syntax) <==> text_bytes(trimmed(text)) <= 4096 && query_of(
            trimmed(text),
            now,
        ) is None,
        r matches Ok(query) ==> query_of(trimmed(text), now) == Some(node_view(query.parsed)),
        r is Err ==> r->Err_0 == Error::QueryTooLong || r->Err_0 == Error::Syntax,
{
}

/// Filters and groupings need exactly one table, and a join at least two. Filtering and grouping keep
/// the name of the table, and groups are reduced as the grouping says.
pub proof fn operations_need_their_tables(
    f: Filter,
    g: GroupBy,
    join: Join,
    tables: Seq<Table>,
    r: Result<Applied, Error>,
)
    ensures
        BasicTableOp::Filter(f).gives(tables, r) ==> {
            &&& tables.len() != 1 ==> r == Err::<Applied, Error>(Error::FilterTableCount)
            &&& tables.len() == 1 && f.kept_series(tables[0]@.timeseries) is Ok ==> (r matches Ok(
                Applied::Tables(out),
            ) && out@.len() == 1 && out@[0].name@ == tables[0].name@ && out@[0]@.timeseries
                == f.kept_series(tables[0]@.timeseries)->Ok_0)
            &&& tables.len() == 1 && f.kept_series(tables[0]@.timeseries) is Err ==> r == Err::<
                Applied,
                Error,
            >(f.kept_series(tables[0]@.timeseries)->Err_0)
        },
        BasicTableOp::GroupBy(g).gives(tables, r) ==> {
            &&& tables.len() != 1 ==> r == Err::<Applied, Error>(Error::GroupTableCount)
            &&& tables.len() == 1 && grouped(tables[0]@.timeseries, g.identifiers@) is Ok ==> (
            r matches Ok(Applied::Grouped(out)) && out.name@ == tables[0].name@ && out.reducer
                == g.reducer && group_views(out.groups@) == grouped(
                tables[0]@.timeseries,
                g.identifiers@,
            )->Ok_0)
            &&& tables.len() == 1 && grouped(tables[0]@.timeseries, g.identifiers@) is Err ==> r
                == Err::<Applied, Error>(grouped(tables[0]@.timeseries, g.identifiers@)->Err_0)
        },
        BasicTableOp::Join(join).gives(tables, r) ==> {
            &&& tables.len() <= 1 ==> r == Err::<Applied, Error>(Error::JoinTableCount)
            &&& tables.len() > 1 && joined_tables(views(tables)) is Ok ==> (r matches Ok(
                Applied::Tables(out),
            ) && out@.len() == 1 && out@[0]@ == joined_tables(views(tables))->Ok_0)
            &&& tables.len() > 1 && joined_tables(views(tables)) is Err ==> r == Err::<
                Applied,
                Error,
            >(joined_tables(views(tables))->Err_0)
        },
{
}

/// A query is taken apart if and only if it begins with subqueries: then into these, in their order,
/// and into the operations that follow them, in theirs. Any other query stays whole.
pub proof fn queries_are_taken_apart_at_their_subqueries(q: QueryNode, split: SplitQuery, i: int)
    requires
        well_formed(q),
        splits_into(q, split),
    ensures
        split is Flat <==> q.ops@[0] is Basic,
        split matches SplitQuery::Flat(query) ==> node_view(query.parsed) == node_view(q),
        split matches SplitQuery::Subquery { subqueries, transformations } ==> {
            &&& q.ops@[0] matches TableOp::Grouped(grouped)
            &&& subqueries@.len() == grouped.ops@.len()
            &&& 0 <= i < subqueries@.len() ==> node_view(subqueries@[i].parsed) == node_view(
                grouped.ops@[i],
            )
            &&& transformations@.len() == q.ops@.len() - 1
            &&& 0 <= i < transformations@.len() ==> op_view(transformations@[i]) == op_view(
                q.ops@[i + 1],
            )
        },
{
    if let SplitQuery::Subquery { subqueries, transformations } = split {
        if let TableOp::Grouped(grouped) = q.ops@[0] {
            let a = subqueries@.map_values(|s: Query| node_view(s.parsed));
            let b = node_views(grouped.ops@);
            assert(a.len() == subqueries@.len() && b.len() == grouped.ops@.len());
            if 0 <= i < subqueries@.len() {
                assert(a[i] == b[i]);
            }
            let c = op_views(transformations@);
            let d = op_views(q.ops@.skip(1));
            assert(c.len() == transformations@.len() && d.len() == q.ops@.len() - 1);
            if 0 <= i < transformations@.len() {
                assert(c[i] == d[i]);
            }
        }
    }
}

} // verus!
