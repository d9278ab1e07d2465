//! What syntax trees hold.

use vstd::prelude::*;

use crate::ids::Uuid;
use crate::net::IpAddr;
use crate::oxql::ast::{Comparison, Double, Ident, Literal, LogicalOp};
use crate::oxql::filter::{Filter, FilterAtom};
use crate::time::Timestamp;

verus! {

/// What a literal holds.
#[verifier::ext_equal]
pub ghost enum LiteralView {
    Integer(int),
    Double(Double),
    Text(Seq<char>),
    Boolean(bool),
    Uuid(Uuid),
    Duration(nat),
    Timestamp(Timestamp),
    IpAddr(IpAddr),
}

/// What a filter holds.
pub ghost enum FilterView {
    Atom { negated: bool, ident: Seq<char>, comparison: Comparison, literal: LiteralView },
    Expr { left: Box<FilterView>, op: LogicalOp, right: Box<FilterView> },
}

/// What a literal holds.
pub open spec fn literal_view(literal: Literal) -> LiteralView {
    match literal {
        Literal::Integer(n) => LiteralView::Integer(n as int),
        Literal::Double(d) => LiteralView::Double(d),
        Literal::String(s) => LiteralView::Text(s@),
        Literal::Boolean(b) => LiteralView::Boolean(b),
        Literal::Uuid(id) => LiteralView::Uuid(id),
        Literal::Duration(n) => LiteralView::Duration(n as nat),
        Literal::Timestamp(t) => LiteralView::Timestamp(t),
        Literal::IpAddr(ip) => LiteralView::IpAddr(ip),
    }
}

/// What a comparison holds.
pub open spec fn atom_view(atom: FilterAtom) -> FilterView {
    FilterView::Atom {
        negated: atom.negated,
        ident: atom.ident.0@,
        comparison: atom.cmp,
        literal: literal_view(atom.expr),
    }
}

/// What a filter holds.
pub open spec fn filter_view(filter: Filter) -> FilterView
    decreases filter,
{
    match filter {
        Filter::Atom(atom) => atom_view(atom),
        Filter::Expr(expr) => FilterView::Expr {
            left: Box::new(filter_view(*expr.left)),
            op: expr.op,
            right: Box::new(filter_view(*expr.right)),
        },
    }
}

/// The names.
pub open spec fn names(idents: Seq<Ident>) -> Seq<Seq<char>> {
    idents.map_values(|ident: Ident| ident.0@)
}

/// A comparison of a column with a literal.
pub fn comparison(negated: bool, ident: Ident, op: Comparison, expr: Literal) -> (atom: FilterAtom)
    ensures
        atom_view(atom) == (FilterView::Atom {
            negated,
            ident: ident.0@,
            comparison: op,
            literal: literal_view(expr),
        }),
{
    FilterAtom { negated, ident, cmp: op, expr }
}

/// The comparison, negated.
pub fn negation(atom: FilterAtom) -> (r: FilterAtom)
    ensures
        atom_view(r) == (match atom_view(atom) {
            FilterView::Atom { ident, comparison, literal, .. } => FilterView::Atom {
                negated: true,
                ident,
                comparison,
                literal,
            },
            other => other,
        }),
{
    FilterAtom { negated: true, ident: atom.ident, cmp: atom.cmp, expr: atom.expr }
}

} // verus!
