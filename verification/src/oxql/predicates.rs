//! Which comparisons the predicates of a query are made of.

use vstd::prelude::*;

use crate::oxql::ast::{Ident, LogicalOp};
use crate::oxql::filter::{Filter, FilterAtom};
use crate::oxql::group_by::listed;
use crate::oxql::laws::conjunction;
use crate::oxql::pushdown::part_of;
use crate::oxql::query::{coalesced, restricted};
use crate::oxql::table_ops::{BasicTableOp, TableOp};

verus! {

/// The comparisons of a filter, from left to right.
pub open spec fn comparisons(filter: Filter) -> Seq<FilterAtom>
    decreases filter,
{
    match filter {
        Filter::Atom(atom) => seq![atom],
        Filter::Expr(expr) => comparisons(*expr.left) + comparisons(*expr.right),
    }
}

/// The comparisons of a filter that may be missing.
pub open spec fn comparisons_of(filter: Option<Filter>) -> Seq<FilterAtom> {
    match filter {
        Some(filter) => comparisons(filter),
        None => Seq::empty(),
    }
}

/// The comparison is one of timestamps, or of a listed column.
pub open spec fn names_time_or_listed(atom: FilterAtom, identifiers: Seq<Ident>) -> bool {
    atom.ident.0@ == "timestamp"@ || exists|j: int|
        0 <= j < identifiers.len() && (#[trigger] identifiers[j]).0@ == atom.ident.0@
}

/// What is left of a filter has exactly those of its comparisons that name timestamps or listed
/// columns, each of them unchanged, and in the same order.
pub proof fn restriction_keeps_exactly_the_allowed_comparisons(
    filter: Filter,
    identifiers: Seq<Ident>,
)
    ensures
        comparisons_of(restricted(filter, identifiers)) == comparisons(filter).filter(
            |a: FilterAtom| names_time_or_listed(a, identifiers),
        ),
    decreases filter,
{
    let keep = |a: FilterAtom| names_time_or_listed(a, identifiers);
    match filter {
        Filter::Atom(atom) => one_kept(atom, keep),
        Filter::Expr(expr) => {
            let a = comparisons(*expr.left);
            let b = comparisons(*expr.right);
            restriction_keeps_exactly_the_allowed_comparisons(*expr.left, identifiers);
            restriction_keeps_exactly_the_allowed_comparisons(*expr.right, identifiers);
            Seq::filter_distributes_over_add(a, b, keep);
            assert(comparisons_of(restricted(filter, identifiers)) =~= a.filter(keep) + b.filter(
                keep,
            ));
        },
    }
}

proof fn one_kept<T>(x: T, keep: spec_fn(T) -> bool)
    ensures
        seq![x].filter(keep) == (if keep(x) {
            seq![x]
        } else {
            Seq::empty()
        }),
{
    reveal(Seq::filter);
    let one = seq![x];
    assert(one.drop_last() =~= Seq::empty());
    assert(Seq::<T>::empty().filter(keep) =~= Seq::empty());
    assert(one.filter(keep) =~= (if keep(x) {
        one
    } else {
        Seq::empty()
    }));
}

proof fn none_kept<T>(s: Seq<T>, keep: spec_fn(T) -> bool)
    ensures
        s.filter(keep).len() == 0 <==> forall|k: int| 0 <= k < s.len() ==> !keep(#[trigger] s[k]),
    decreases s.len(),
{
    reveal(Seq::filter);
    if s.len() > 0 {
        let rest = s.drop_last();
        none_kept(rest, keep);
        assert(s.last() == s[s.len() - 1]);
        assert(forall|k: int| 0 <= k < rest.len() ==> #[trigger] rest[k] == s[k]);
        if s.filter(keep).len() == 0 {
            assert forall|k: int| 0 <= k < s.len() implies !keep(#[trigger] s[k]) by {
                if k < rest.len() {
                    assert(rest[k] == s[k]);
                }
            }
        }
    }
}

proof fn filters_compare(filter: Filter)
    ensures
        comparisons(filter).len() > 0,
    decreases filter,
{
    match filter {
        Filter::Atom(_) => {},
        Filter::Expr(expr) => filters_compare(*expr.left),
    }
}

/// Nothing is left of a filter exactly where none of its comparisons names timestamps or listed
/// columns.
pub proof fn nothing_is_left_where_nothing_is_allowed(filter: Filter, identifiers: Seq<Ident>)
    ensures
        restricted(filter, identifiers) is None <==> forall|k: int|
            0 <= k < comparisons(filter).len() ==> !names_time_or_listed(
                #[trigger] comparisons(filter)[k],
                identifiers,
            ),
{
    let keep = |a: FilterAtom| names_time_or_listed(a, identifiers);
    let all = comparisons(filter);
    restriction_keeps_exactly_the_allowed_comparisons(filter, identifiers);
    none_kept(all, keep);
    if restricted(filter, identifiers) is Some {
        filters_compare(restricted(filter, identifiers)->0);
    }
    assert(forall|k: int|
        0 <= k < all.len() ==> keep(#[trigger] all[k]) == names_time_or_listed(all[k], identifiers));
}

/// The one filter is made of the other by taking away some of its comparisons: what stays is joined
/// by the operators by which it was joined.
pub open spec fn made_by_leaving_out(part: Filter, whole: Filter) -> bool
    decreases whole,
{
    ||| part == whole
    ||| whole matches Filter::Expr(w) && {
        ||| made_by_leaving_out(part, *w.left)
        ||| made_by_leaving_out(part, *w.right)
        ||| part matches Filter::Expr(p) && p.op == w.op && made_by_leaving_out(*p.left, *w.left)
            && made_by_leaving_out(*p.right, *w.right)
    }
}

/// What is left of a filter is made of it by leaving comparisons out: no operator changes.
pub proof fn restriction_only_leaves_out(filter: Filter, identifiers: Seq<Ident>)
    ensures
        restricted(filter, identifiers) matches Some(left) ==> made_by_leaving_out(left, filter),
    decreases filter,
{
    match filter {
        Filter::Atom(_) => {},
        Filter::Expr(expr) => {
            restriction_only_leaves_out(*expr.left, identifiers);
            restriction_only_leaves_out(*expr.right, identifiers);
        },
    }
}

/// The comparisons of the filter are all joined by `&&`.
pub open spec fn is_conjunction(filter: Filter) -> bool
    decreases filter,
{
    match filter {
        Filter::Atom(_) => true,
        Filter::Expr(expr) => expr.op == LogicalOp::And && is_conjunction(*expr.left)
            && is_conjunction(*expr.right),
    }
}

/// Of two filters joined by `||`, both have a comparison of timestamps or listed columns, or neither.
pub open spec fn alternatives_stay(filter: Filter, identifiers: Seq<Ident>) -> bool
    decreases filter,
{
    match filter {
        Filter::Atom(_) => true,
        Filter::Expr(expr) => {
            &&& alternatives_stay(*expr.left, identifiers)
            &&& alternatives_stay(*expr.right, identifiers)
            &&& expr.op == LogicalOp::Or ==> ((exists|k: int|
                0 <= k < comparisons(*expr.left).len() && names_time_or_listed(
                    #[trigger] comparisons(*expr.left)[k],
                    identifiers,
                )) <==> (exists|k: int|
                0 <= k < comparisons(*expr.right).len() && names_time_or_listed(
                    #[trigger] comparisons(*expr.right)[k],
                    identifiers,
                )))
        },
    }
}

/// What is left of a filter, where no alternative is lost, lets pass whatever the filter lets pass:
/// it is a part of it. No alternative is lost of a conjunction, which has none.
pub proof fn what_is_left_is_a_part(filter: Filter, identifiers: Seq<Ident>)
    ensures
        alternatives_stay(filter, identifiers) ==> (restricted(filter, identifiers) matches Some(
            left,
        ) ==> part_of(left, filter)),
        is_conjunction(filter) ==> alternatives_stay(filter, identifiers),
        is_conjunction(filter) ==> (restricted(filter, identifiers) matches Some(left)
            ==> is_conjunction(left)),
    decreases filter,
{
    match filter {
        Filter::Atom(_) => {},
        Filter::Expr(expr) => {
            what_is_left_is_a_part(*expr.left, identifiers);
            what_is_left_is_a_part(*expr.right, identifiers);
            nothing_is_left_where_nothing_is_allowed(*expr.left, identifiers);
            nothing_is_left_where_nothing_is_allowed(*expr.right, identifiers);
        },
    }
}

/// The comparison passes the grouping, if the operation is one: it names timestamps, or columns by
/// which the operation groups.
pub open spec fn passes_operation(atom: FilterAtom, op: TableOp) -> bool {
    op matches TableOp::Basic(BasicTableOp::GroupBy(g)) ==> names_time_or_listed(
        atom,
        g.identifiers@,
    )
}

/// The comparisons of an operation, if it is a filter, that pass all groupings before it.
pub open spec fn surviving(ops: Seq<TableOp>, i: int) -> Seq<FilterAtom> {
    match ops[i] {
        TableOp::Basic(BasicTableOp::Filter(filter)) => comparisons(filter).filter(
            |a: FilterAtom| forall|j: int| 0 <= j < i ==> passes_operation(a, #[trigger] ops[j]),
        ),
        _ => Seq::empty(),
    }
}

proof fn filters_agree<T>(s: Seq<T>, a: spec_fn(T) -> bool, b: spec_fn(T) -> bool)
    requires
        forall|x: T| #[trigger] a(x) == b(x),
    ensures
        s.filter(a) == s.filter(b),
    decreases s.len(),
{
    reveal(Seq::filter);
    if s.len() > 0 {
        filters_agree(s.drop_last(), a, b);
    }
}

proof fn filter_twice<T>(s: Seq<T>, a: spec_fn(T) -> bool, b: spec_fn(T) -> bool)
    ensures
        s.filter(a).filter(b) == s.filter(|x: T| a(x) && b(x)),
    decreases s.len(),
{
    reveal(Seq::filter);
    if s.len() > 0 {
        filter_twice(s.drop_last(), a, b);
        let few = s.drop_last().filter(a);
        assert(few.push(s.last()).drop_last() =~= few);
    }
}

proof fn filter_of_flattened<T>(s: Seq<Seq<T>>, keep: spec_fn(T) -> bool)
    ensures
        s.flatten().filter(keep) == s.map_values(|x: Seq<T>| x.filter(keep)).flatten(),
    decreases s.len(),
{
    let each = |x: Seq<T>| x.filter(keep);
    if s.len() > 0 {
        let rest = s.drop_first();
        filter_of_flattened(rest, keep);
        Seq::filter_distributes_over_add(s.first(), rest.flatten(), keep);
        let all = s.map_values(each);
        assert(all.drop_first() =~= rest.map_values(each));
        assert(all.first() == s.first().filter(keep));
    } else {
        reveal(Seq::filter);
        assert(s.flatten().filter(keep) =~= Seq::empty());
        assert(s.map_values(each).flatten() =~= Seq::empty());
    }
}

proof fn all_kept<T>(s: Seq<T>, keep: spec_fn(T) -> bool)
    requires
        forall|x: T| #[trigger] keep(x),
    ensures
        s.filter(keep) == s,
    decreases s.len(),
{
    reveal(Seq::filter);
    if s.len() > 0 {
        all_kept(s.drop_last(), keep);
        assert(s.drop_last().push(s.last()) =~= s);
    } else {
        assert(s.filter(keep) =~= s);
    }
}

/// Of the operations after the first, each has those of its surviving comparisons that pass the
/// first, too.
proof fn surviving_after_the_first(ops: Seq<TableOp>, i: int)
    requires
        0 <= i < ops.len() - 1,
    ensures
        surviving(ops, i + 1) == surviving(ops.drop_first(), i).filter(
            |a: FilterAtom| passes_operation(a, ops[0]),
        ),
{
    let rest = ops.drop_first();
    assert(rest[i] == ops[i + 1]);
    let later = |a: FilterAtom| forall|j: int| 0 <= j < i ==> passes_operation(a, #[trigger] rest[j]);
    let first = |a: FilterAtom| passes_operation(a, ops[0]);
    let all = |a: FilterAtom|
        forall|j: int| 0 <= j < i + 1 ==> passes_operation(a, #[trigger] ops[j]);
    match ops[i + 1] {
        TableOp::Basic(BasicTableOp::Filter(filter)) => {
            let s = comparisons(filter);
            filter_twice(s, later, first);
            assert forall|a: FilterAtom| #[trigger] all(a) == (later(a) && first(a)) by {
                if later(a) && first(a) {
                    assert forall|j: int| 0 <= j < i + 1 implies passes_operation(
                        a,
                        #[trigger] ops[j],
                    ) by {
                        if j > 0 {
                            assert(rest[j - 1] == ops[j]);
                        }
                    }
                }
                if all(a) {
                    assert forall|j: int| 0 <= j < i implies passes_operation(
                        a,
                        #[trigger] rest[j],
                    ) by {
                        assert(rest[j] == ops[j + 1]);
                    }
                }
            }
            filters_agree(s, all, |a: FilterAtom| later(a) && first(a));
        },
        _ => {
            reveal(Seq::filter);
            assert(Seq::<FilterAtom>::empty().filter(first) =~= Seq::empty());
        },
    }
}

/// The predicates of a query are made of the comparisons of its filters, each unchanged and all in
/// their order, but for those that name what a grouping before them does not keep.
pub proof fn predicates_are_the_comparisons_that_survive(ops: Seq<TableOp>)
    ensures
        comparisons_of(coalesced(ops)) == Seq::new(
            ops.len(),
            |i: int| surviving(ops, i),
        ).flatten(),
    decreases ops.len(),
{
    let parts = Seq::new(ops.len(), |i: int| surviving(ops, i));
    if ops.len() > 0 {
        let rest = ops.drop_first();
        predicates_are_the_comparisons_that_survive(rest);
        let later = Seq::new(rest.len(), |i: int| surviving(rest, i));
        let first = |a: FilterAtom| passes_operation(a, ops[0]);
        let each = |x: Seq<FilterAtom>| x.filter(first);
        assert forall|i: int| 0 <= i < rest.len() implies parts.drop_first()[i] == later.map_values(
            each,
        )[i] by {
            surviving_after_the_first(ops, i);
        }
        assert(parts.drop_first() =~= later.map_values(each));
        filter_of_flattened(later, first);
        let left = comparisons_of(coalesced(rest));
        match ops[0] {
            TableOp::Basic(BasicTableOp::Filter(filter)) => {
                all_kept(left, first);
                let none_before = |a: FilterAtom|
                    forall|j: int| 0 <= j < 0 ==> passes_operation(a, #[trigger] ops[j]);
                all_kept(comparisons(filter), none_before);
                assert(parts.first() == comparisons(filter));
                match coalesced(rest) {
                    Some(l) => {
                        reveal_with_fuel(comparisons, 2);
                        assert(comparisons(conjunction(filter, l)) == comparisons(filter)
                            + comparisons(l));
                    },
                    None => {
                        assert(comparisons(filter) + left =~= comparisons(filter));
                    },
                }
            },
            TableOp::Basic(BasicTableOp::GroupBy(g)) => {
                assert(parts.first() =~= Seq::empty());
                assert(Seq::<FilterAtom>::empty() + left.filter(first) =~= left.filter(first));
                match coalesced(rest) {
                    Some(l) => {
                        restriction_keeps_exactly_the_allowed_comparisons(l, g.identifiers@);
                        filters_agree(
                            left,
                            first,
                            |a: FilterAtom| names_time_or_listed(a, g.identifiers@),
                        );
                    },
                    None => {
                        reveal(Seq::filter);
                        assert(left.filter(first) =~= Seq::empty());
                    },
                }
            },
            _ => {
                all_kept(left, first);
                assert(parts.first() =~= Seq::empty());
                assert(Seq::<FilterAtom>::empty() + left =~= left);
            },
        }
    } else {
        assert(parts =~= Seq::empty());
    }
}

/// Where all filters of a query are conjunctions, its predicates are one.
pub proof fn predicates_of_conjunctions_are_a_conjunction(ops: Seq<TableOp>)
    requires
        forall|i: int|
            0 <= i < ops.len() ==> (#[trigger] ops[i] matches TableOp::Basic(
                BasicTableOp::Filter(filter),
            ) ==> is_conjunction(filter)),
    ensures
        coalesced(ops) matches Some(filter) ==> is_conjunction(filter),
    decreases ops.len(),
{
    if ops.len() > 0 {
        let rest = ops.drop_first();
        assert forall|i: int| 0 <= i < rest.len() implies (#[trigger] rest[i] matches TableOp::Basic(
            BasicTableOp::Filter(filter),
        ) ==> is_conjunction(filter)) by {
            assert(rest[i] == ops[i + 1]);
        }
        predicates_of_conjunctions_are_a_conjunction(rest);
        assert(ops[0] matches TableOp::Basic(BasicTableOp::Filter(filter)) ==> is_conjunction(
            filter,
        ));
        reveal_with_fuel(is_conjunction, 2);
        match (ops[0], coalesced(rest)) {
            (TableOp::Basic(BasicTableOp::GroupBy(g)), Some(l)) => what_is_left_is_a_part(
                l,
                g.identifiers@,
            ),
            _ => {},
        }
    }
}

} // verus!
