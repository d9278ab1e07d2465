//! How filters are written.

use vstd::prelude::*;

use crate::oxql::ast::{Comparison, LogicalOp};
use crate::oxql::double::digits_value;
use crate::oxql::filter::{Filter, FilterAtom};
use crate::oxql::grammar::{
    at, blank, char_at, digit_values, digits_end, duration, integer, is_digit, literal, name_char,
    name_end, parts_end, run_end, skip_blanks,
};
use crate::oxql::parser::{
    atom, conjunction, disjunction, factor, filter_of, keyword, more_conjunctions, more_factors,
    operator,
};
use crate::oxql::views::{filter_view, FilterView, LiteralView};
use crate::text::{decimal, texts};
use crate::time::Timestamp;

verus! {

/// How an operator is written.
pub open spec fn comparison_text(op: Comparison) -> Seq<char> {
    match op {
        Comparison::Eq => "=="@,
        Comparison::Ne => "!="@,
        Comparison::Gt => ">"@,
        Comparison::Ge => ">="@,
        Comparison::Lt => "<"@,
        Comparison::Le => "<="@,
        Comparison::Like => "~="@,
    }
}

/// How a logical operator is written.
pub open spec fn logical_text(op: LogicalOp) -> Seq<char> {
    match op {
        LogicalOp::And => "&&"@,
        LogicalOp::Or => "||"@,
    }
}

/// How a comparison is written, where `expr` is how its literal is.
pub open spec fn comparison_view_text(
    negated: bool,
    ident: Seq<char>,
    op: Comparison,
    expr: Seq<char>,
) -> Seq<char> {
    (if negated {
        "!"@
    } else {
        ""@
    }) + "("@ + ident + " "@ + comparison_text(op) + " "@ + expr + ")"@
}

/// The number of comparisons in a filter.
pub open spec fn atoms(f: FilterView) -> nat
    decreases f,
{
    match f {
        FilterView::Atom { .. } => 1,
        FilterView::Expr { left, right, .. } => atoms(*left) + atoms(*right),
    }
}

/// How a filter is written, where `exprs` is how its literals are, from left to right.
pub open spec fn filter_text(f: FilterView, exprs: Seq<Seq<char>>) -> Seq<char>
    decreases f,
{
    match f {
        FilterView::Atom { negated, ident, comparison, .. } => comparison_view_text(
            negated,
            ident,
            comparison,
            exprs[0],
        ),
        FilterView::Expr { left, op, right } => "("@ + filter_text(
            *left,
            exprs.take(atoms(*left) as int),
        ) + " "@ + logical_text(op) + " "@ + filter_text(*right, exprs.skip(atoms(*left) as int))
            + ")"@,
    }
}

fn comparison_str(op: Comparison) -> (s: &'static str)
    ensures
        s@ == comparison_text(op),
{
    match op {
        Comparison::Eq => "==",
        Comparison::Ne => "!=",
        Comparison::Gt => ">",
        Comparison::Ge => ">=",
        Comparison::Lt => "<",
        Comparison::Le => "<=",
        Comparison::Like => "~=",
    }
}

fn logical_str(op: LogicalOp) -> (s: &'static str)
    ensures
        s@ == logical_text(op),
{
    match op {
        LogicalOp::And => "&&",
        LogicalOp::Or => "||",
    }
}

impl FilterAtom {
    /// How the comparison is written, where `expr` is how its literal is.
    pub fn text(&self, expr: &str) -> (s: String)
        ensures
            s@ == comparison_view_text(self.negated, self.ident.0@, self.cmp, expr@),
    {
        let mut s = (if self.negated { "!" } else { "" }).to_owned();
        s.append("(");
        s.append(self.ident.as_str());
        s.append(" ");
        s.append(comparison_str(self.cmp));
        s.append(" ");
        s.append(expr);
        s.append(")");
        s
    }
}

fn filter_string(filter: &Filter, exprs: &Vec<String>, from: usize) -> (r: (String, usize))
    requires
        from + atoms(filter_view(*filter)) <= exprs@.len(),
    ensures
        r.1 == from + atoms(filter_view(*filter)),
        r.0@ == filter_text(
            filter_view(*filter),
            texts(exprs@).subrange(from as int, r.1 as int),
        ),
    decreases filter,
{
    match filter {
        Filter::Atom(atom) => {
            let s = atom.text(exprs[from].as_str());
            assert(from < exprs.len());
            assert(texts(exprs@).subrange(from as int, from + 1)[0] == exprs@[from as int]@);
            (s, from + 1)
        },
        Filter::Expr(expr) => {
            let (left, middle) = filter_string(&expr.left, exprs, from);
            let (right, to) = filter_string(&expr.right, exprs, middle);
            proof {
                let all = texts(exprs@).subrange(from as int, to as int);
                let n = atoms(filter_view(*expr.left)) as int;
                assert(all.take(n) =~= texts(exprs@).subrange(from as int, middle as int));
                assert(all.skip(n) =~= texts(exprs@).subrange(middle as int, to as int));
            }
            let mut s = "(".to_owned();
            s.append(left.as_str());
            s.append(" ");
            s.append(logical_str(expr.op));
            s.append(" ");
            s.append(right.as_str());
            s.append(")");
            (s, to)
        },
    }
}

impl Filter {
    /// How the filter is written, where `exprs` is how its literals are, from left to right.
    pub fn text(&self, exprs: &Vec<String>) -> (s: String)
        requires
            exprs@.len() == atoms(filter_view(*self)),
        ensures
            s@ == filter_text(filter_view(*self), texts(exprs@)),
    {
        let (s, to) = filter_string(self, exprs, 0);
        assert(texts(exprs@).subrange(0, to as int) =~= texts(exprs@));
        s
    }
}

/// The text is a name.
pub open spec fn is_name(text: Seq<char>) -> bool {
    name_end(text, 0) == Some(text.len() as int)
}

/// Before a closing bracket, the text is read as the literal.
pub open spec fn reads_as_literal(text: Seq<char>, x: LiteralView, now: Timestamp) -> bool {
    &&& text.len() > 0
    &&& !blank(text[0])
    &&& forall|s: Seq<char>, i: int| #[trigger]
        at(s, i, text) && char_at(s, i + text.len(), ')') ==> literal(s, i, now) == Some(
            (x, i + text.len()),
        )
}

/// The names in the filter are names, and the texts are read as its literals.
pub open spec fn readable(f: FilterView, exprs: Seq<Seq<char>>, now: Timestamp) -> bool
    decreases f,
{
    &&& exprs.len() == atoms(f)
    &&& match f {
        FilterView::Atom { ident, literal, .. } => is_name(ident) && reads_as_literal(
            exprs[0],
            literal,
            now,
        ),
        FilterView::Expr { left, right, .. } => readable(
            *left,
            exprs.take(atoms(*left) as int),
            now,
        ) && readable(*right, exprs.skip(atoms(*left) as int), now),
    }
}

proof fn run_ends_alike(s: Seq<char>, i: int, text: Seq<char>, k: int)
    requires
        at(s, i, text),
        0 <= k <= text.len(),
        char_at(s, i + text.len(), ' '),
    ensures
        run_end(s, i + k) == i + run_end(text, k),
        k <= run_end(text, k) <= text.len(),
    decreases text.len() - k,
{
    if k < text.len() {
        assert(s.subrange(i, i + text.len())[k] == text[k]);
        run_ends_alike(s, i, text, k + 1);
    }
}

proof fn parts_end_alike(s: Seq<char>, i: int, text: Seq<char>, k: int)
    requires
        at(s, i, text),
        0 <= k <= text.len(),
        char_at(s, i + text.len(), ' '),
    ensures
        parts_end(s, i + k) == i + parts_end(text, k),
    decreases text.len() - k,
{
    run_ends_alike(s, i, text, k);
    let j = run_end(text, k);
    if j < text.len() {
        assert(s.subrange(i, i + text.len())[j] == text[j]);
        if j + 1 < text.len() {
            assert(s.subrange(i, i + text.len())[j + 1] == text[j + 1]);
            if k < j && text[j] == '_' && name_char(text[j + 1]) {
                parts_end_alike(s, i, text, j + 1);
            }
        }
    }
}

/// A part of a text that stands somewhere stands there too.
proof fn part_stands(s: Seq<char>, i: int, text: Seq<char>, from: int, to: int)
    requires
        at(s, i, text),
        0 <= from <= to <= text.len(),
    ensures
        at(s, i + from, text.subrange(from, to)),
{
    assert(s.subrange(i + from, i + from + (to - from)) =~= s.subrange(
        i,
        i + text.len(),
    ).subrange(from, to));
}

proof fn char_stands(s: Seq<char>, i: int, text: Seq<char>, k: int)
    requires
        at(s, i, text),
        0 <= k < text.len(),
    ensures
        char_at(s, i + k, text[k]),
{
    assert(s.subrange(i, i + text.len())[k] == text[k]);
}

proof fn stop_after(s: Seq<char>, j: int, f: FilterView, now: Timestamp)
    requires
        char_at(s, j, ')'),
    ensures
        skip_blanks(s, j) == j,
        more_factors(s, j, f, now) == (f, j),
        more_conjunctions(s, j, f, now) == (f, j),
{
    reveal_strlit("&&");
    reveal_strlit("||");
    if at(s, j, "&&"@) {
        assert(s.subrange(j, j + 2)[0] == '&');
    }
    if at(s, j, "||"@) {
        assert(s.subrange(j, j + 2)[0] == '|');
    }
}

proof fn reveal_operators()
    ensures
        "=="@ == seq!['=', '='],
        "!="@ == seq!['!', '='],
        ">"@ == seq!['>'],
        ">="@ == seq!['>', '='],
        "<"@ == seq!['<'],
        "<="@ == seq!['<', '='],
        "~="@ == seq!['~', '='],
{
    reveal_strlit("==");
    reveal_strlit("!=");
    reveal_strlit(">");
    reveal_strlit(">=");
    reveal_strlit("<");
    reveal_strlit("<=");
    reveal_strlit("~=");
    assert("=="@ =~= seq!['=', '=']);
    assert("!="@ =~= seq!['!', '=']);
    assert(">"@ =~= seq!['>']);
    assert(">="@ =~= seq!['>', '=']);
    assert("<"@ =~= seq!['<']);
    assert("<="@ =~= seq!['<', '=']);
    assert("~="@ =~= seq!['~', '=']);
}

/// An operator before a blank is read as itself.
proof fn operator_is_read(s: Seq<char>, i: int, op: Comparison)
    requires
        at(s, i, comparison_text(op)),
        char_at(s, i + comparison_text(op).len(), ' '),
    ensures
        operator(s, i) == Some((op, i + comparison_text(op).len())),
        skip_blanks(s, i) == i,
{
    reveal_operators();
    let n = comparison_text(op).len() as int;
    let t = s.subrange(i, i + n);
    assert(t == comparison_text(op));
    assert(s[i] == t[0]);
    if n == 2 {
        assert(s[i + 1] == t[1]);
    }
    if i + 2 <= s.len() {
        let two = s.subrange(i, i + 2);
        assert(two[0] == s[i] && two[1] == s[i + 1]);
        if n == 1 {
            assert(s[i + 1] == ' ');
        }
        assert(at(s, i, "=="@) <==> s[i] == '=' && s[i + 1] == '=') by {
            if s[i] == '=' && s[i + 1] == '=' {
                assert(two =~= "=="@);
            }
        }
        assert(at(s, i, "!="@) <==> s[i] == '!' && s[i + 1] == '=') by {
            if s[i] == '!' && s[i + 1] == '=' {
                assert(two =~= "!="@);
            }
        }
        assert(at(s, i, ">="@) <==> s[i] == '>' && s[i + 1] == '=') by {
            if s[i] == '>' && s[i + 1] == '=' {
                assert(two =~= ">="@);
            }
        }
        assert(at(s, i, "<="@) <==> s[i] == '<' && s[i + 1] == '=') by {
            if s[i] == '<' && s[i + 1] == '=' {
                assert(two =~= "<="@);
            }
        }
        assert(at(s, i, "~="@) <==> s[i] == '~' && s[i + 1] == '=') by {
            if s[i] == '~' && s[i + 1] == '=' {
                assert(two =~= "~="@);
            }
        }
    }
    let one = s.subrange(i, i + 1);
    assert(one[0] == s[i]);
    assert(at(s, i, ">"@) <==> s[i] == '>') by {
        if s[i] == '>' {
            assert(one =~= ">"@);
        }
    }
    assert(at(s, i, "<"@) <==> s[i] == '<') by {
        if s[i] == '<' {
            assert(one =~= "<"@);
        }
    }
}

/// A comparison as it is written inside brackets is read as itself.
proof fn comparison_is_read(
    s: Seq<char>,
    i: int,
    ident: Seq<char>,
    op: Comparison,
    expr: Seq<char>,
    x: LiteralView,
    now: Timestamp,
)
    requires
        is_name(ident),
        reads_as_literal(expr, x, now),
        at(s, i, ident + " "@ + comparison_text(op) + " "@ + expr + ")"@),
    ensures
        ({
            let n = ident.len() + comparison_text(op).len() + expr.len() + 2;
            &&& atom(s, i, now) == Some(
                (
                    FilterView::Atom { negated: false, ident, comparison: op, literal: x },
                    i + n,
                ),
            )
            &&& char_at(s, i + n, ')')
            &&& 'a' <= s[i] <= 'z'
        }),
{
    reveal(atom);
    reveal_strlit(" ");
    reveal_strlit(")");
    let o = comparison_text(op);
    let text = ident + " "@ + o + " "@ + expr + ")"@;
    let a = ident.len() as int;
    let b = a + 1 + o.len();
    let c = b + 1 + expr.len();
    assert(text.len() == c + 1);
    part_stands(s, i, text, 0, a);
    assert(text.subrange(0, a) =~= ident);
    part_stands(s, i, text, a + 1, b);
    assert(text.subrange(a + 1, b) =~= o);
    part_stands(s, i, text, b + 1, c);
    assert(text.subrange(b + 1, c) =~= expr);
    char_stands(s, i, text, a);
    char_stands(s, i, text, b);
    char_stands(s, i, text, c);
    char_stands(s, i, text, 0);
    char_stands(s, i, text, b + 1);
    assert(text[a] == ' ' && text[b] == ' ' && text[c] == ')');
    assert(text[0] == ident[0] && text[b + 1] == expr[0]);
    parts_end_alike(s, i, ident, 0);
    assert(s.subrange(i, i + a) =~= ident);
    operator_is_read(s, i + a + 1, op);
    assert(skip_blanks(s, i + a) == i + a + 1);
    reveal_with_fuel(skip_blanks, 3);
    assert(skip_blanks(s, i + b) == i + b + 1);
}

/// A comparison as it is written is read as itself, wherever it stands.
proof fn atom_is_read(
    s: Seq<char>,
    i: int,
    f: FilterView,
    expr: Seq<char>,
    now: Timestamp,
)
    requires
        f is Atom,
        is_name(f->ident),
        reads_as_literal(expr, f->literal, now),
        at(s, i, comparison_view_text(f->negated, f->ident, f->comparison, expr)),
    ensures
        factor(s, i, now) == Some(
            (f, i + comparison_view_text(f->negated, f->ident, f->comparison, expr).len()),
        ),
        s[i] == '(' || s[i] == '!',
{
    reveal_strlit(" ");
    reveal_strlit("(");
    reveal_strlit(")");
    reveal_strlit("!");
    reveal_strlit("");
    let negated = f->negated;
    let ident = f->ident;
    let comparison = f->comparison;
    let literal = f->literal;
    let text = comparison_view_text(negated, ident, comparison, expr);
    let o = comparison_text(comparison);
    let inner = ident + " "@ + o + " "@ + expr + ")"@;
    let start: int = if negated {
        2
    } else {
        1
    };
    assert(text.len() == start + inner.len());
    assert(text.subrange(start, text.len() as int) =~= inner);
    part_stands(s, i, text, start, text.len() as int);
    comparison_is_read(s, i + start, ident, comparison, expr, literal, now);
    let end = i + text.len() - 1;
    let plain = FilterView::Atom { negated: false, ident, comparison, literal };
    stop_after(s, end, plain, now);
    char_stands(s, i, text, 0);
    assert(skip_blanks(s, i + start) == i + start);
    if negated {
        assert(text[0] == '!' && text[1] == '(');
        char_stands(s, i, text, 1);
        assert(skip_blanks(s, i + 1) == i + 1);
    } else {
        assert(text[0] == '(');
        assert(factor(s, i + 1, now) == Some((plain, end)));
        assert(conjunction(s, i + 1, now) == Some((plain, end)));
        assert(disjunction(s, i + 1, now) == Some((plain, end)));
    }
}

/// Two filters in brackets, with an operator between them, are read as they are combined.
proof fn pair_is_read(
    s: Seq<char>,
    i: int,
    left: FilterView,
    op: LogicalOp,
    right: FilterView,
    l: int,
    r: int,
    now: Timestamp,
)
    requires
        l > 0,
        r > 0,
        char_at(s, i, '('),
        !blank(s[i + 1]),
        factor(s, i + 1, now) == Some((left, i + 1 + l)),
        char_at(s, i + 1 + l, ' '),
        at(s, i + 2 + l, logical_text(op)),
        char_at(s, i + 4 + l, ' '),
        !blank(s[i + 5 + l]),
        factor(s, i + 5 + l, now) == Some((right, i + 5 + l + r)),
        char_at(s, i + 5 + l + r, ')'),
    ensures
        factor(s, i, now) == Some(
            (
                FilterView::Expr { left: Box::new(left), op, right: Box::new(right) },
                i + 6 + l + r,
            ),
        ),
{
    reveal_strlit("&&");
    reveal_strlit("||");
    let a = i + 1 + l;
    let p = i + 5 + l;
    let c = p + r;
    let both = FilterView::Expr { left: Box::new(left), op, right: Box::new(right) };
    let o = s.subrange(a + 1, a + 3);
    assert(o == logical_text(op));
    assert(o[0] == s[a + 1]);
    reveal_with_fuel(skip_blanks, 3);
    assert(skip_blanks(s, i + 1) == i + 1);
    assert(skip_blanks(s, a) == a + 1);
    assert(skip_blanks(s, a + 3) == p);
    stop_after(s, c, both, now);
    stop_after(s, c, right, now);
    match op {
        LogicalOp::And => {
            assert(more_factors(s, a, left, now) == more_factors(s, c, both, now));
            assert(conjunction(s, i + 1, now) == Some((both, c)));
        },
        LogicalOp::Or => {
            assert(!at(s, a + 1, "&&"@)) by {
                if at(s, a + 1, "&&"@) {
                    assert(o == "&&"@);
                }
            }
            assert(more_factors(s, a, left, now) == (left, a));
            assert(conjunction(s, i + 1, now) == Some((left, a)));
            assert(conjunction(s, p, now) == Some((right, c)));
            assert(more_conjunctions(s, a, left, now) == more_conjunctions(s, c, both, now));
        },
    }
    assert(disjunction(s, i + 1, now) == Some((both, c)));
}

/// A filter as it is written is read as itself, wherever it stands.
proof fn filter_is_read(
    s: Seq<char>,
    i: int,
    f: FilterView,
    exprs: Seq<Seq<char>>,
    now: Timestamp,
)
    requires
        readable(f, exprs, now),
        at(s, i, filter_text(f, exprs)),
    ensures
        factor(s, i, now) == Some((f, i + filter_text(f, exprs).len())),
        s[i] == '(' || s[i] == '!',
        filter_text(f, exprs).len() > 0,
    decreases f,
{
    match f {
        FilterView::Atom { negated, ident, comparison, literal } => {
            atom_is_read(s, i, f, exprs[0], now);
            reveal_strlit("(");
        },
        FilterView::Expr { left, op, right } => {
            reveal_strlit(" ");
            reveal_strlit("(");
            reveal_strlit(")");
            reveal_strlit("&&");
            reveal_strlit("||");
            let text = filter_text(f, exprs);
            let n = atoms(*left) as int;
            let l = filter_text(*left, exprs.take(n));
            let r = filter_text(*right, exprs.skip(n));
            let o = logical_text(op);
            let a = 1 + l.len() as int;
            let b = a + 1 + o.len();
            let c = b + 1 + r.len();
            assert(o.len() == 2);
            assert(text == "("@ + l + " "@ + o + " "@ + r + ")"@);
            assert(text.len() == c + 1);
            part_stands(s, i, text, 1, a);
            assert(text.subrange(1, a) =~= l);
            part_stands(s, i, text, a + 1, b);
            assert(text.subrange(a + 1, b) =~= o);
            part_stands(s, i, text, b + 1, c);
            assert(text.subrange(b + 1, c) =~= r);
            filter_is_read(s, i + 1, *left, exprs.take(n), now);
            filter_is_read(s, i + b + 1, *right, exprs.skip(n), now);
            char_stands(s, i, text, 0);
            char_stands(s, i, text, a);
            char_stands(s, i, text, b);
            char_stands(s, i, text, c);
            assert(text[0] == '(' && text[a] == ' ' && text[b] == ' ' && text[c] == ')');
            pair_is_read(s, i, *left, op, *right, l.len() as int, r.len() as int, now);
        },
    }
}

/// A filter that is written is read back: the text of a filter, as a `filter` operation, stands for
/// that filter, where its names are names and the texts of its literals are read as these.
pub proof fn written_filters_are_read_back(
    f: FilterView,
    exprs: Seq<Seq<char>>,
    now: Timestamp,
)
    requires
        readable(f, exprs, now),
    ensures
        filter_of("filter "@ + filter_text(f, exprs), now) == Some(f),
{
    reveal_strlit("filter ");
    reveal_strlit("filter");
    reveal_strlit("&&");
    reveal_strlit("||");
    let text = filter_text(f, exprs);
    let s = "filter "@ + text;
    assert(s.subrange(0, 6) =~= "filter"@);
    assert(s.subrange(7, 7 + text.len() as int) =~= text);
    filter_is_read(s, 7, f, exprs, now);
    assert(s[6] == ' ');
    assert(skip_blanks(s, 7) == 7);
    assert(skip_blanks(s, 6) == 7);
    assert(keyword(s, 0, "filter"@) == Some(7int));
    let end = s.len() as int;
    assert(skip_blanks(s, end) == end);
    assert(more_factors(s, end, f, now) == (f, end));
    assert(more_conjunctions(s, end, f, now) == (f, end));
    assert(conjunction(s, 7, now) == Some((f, end)));
    assert(disjunction(s, 7, now) == Some((f, end)));
}

/// The texts of the truth values are read as these.
pub proof fn booleans_are_read_back(now: Timestamp)
    ensures
        reads_as_literal("true"@, LiteralView::Boolean(true), now),
        reads_as_literal("false"@, LiteralView::Boolean(false), now),
{
    reveal(literal);
    reveal_strlit("true");
    reveal_strlit("false");
    assert forall|s: Seq<char>, i: int| #[trigger]
        at(s, i, "false"@) && char_at(s, i + 5, ')') implies literal(s, i, now) == Some(
        (LiteralView::Boolean(false), i + 5),
    ) by {
        assert(s.subrange(i, i + 5)[0] == 'f');
        if at(s, i, "true"@) {
            assert(s.subrange(i, i + 4)[0] == 't');
        }
    }
}

proof fn decimals_have_digits(n: nat, k: int)
    requires
        0 <= k < decimal(n).len(),
    ensures
        is_digit(decimal(n)[k]),
    decreases n,
{
    if n >= 10 && k < decimal(n).len() - 1 {
        decimals_have_digits(n / 10, k);
    }
}

proof fn decimals_have_their_value(n: nat)
    ensures
        decimal(n).len() > 0,
        digits_value(digit_values(decimal(n))) == n,
    decreases n,
{
    reveal_with_fuel(digits_value, 2);
    let digits = digit_values(decimal(n));
    if n >= 10 {
        decimals_have_their_value(n / 10);
        assert(digits.drop_last() =~= digit_values(decimal(n / 10)));
    } else {
        assert(digits.drop_last() =~= Seq::empty());
    }
}

proof fn digits_end_alike(s: Seq<char>, i: int, text: Seq<char>, k: int)
    requires
        at(s, i, text),
        0 <= k <= text.len(),
        char_at(s, i + text.len(), ')'),
        forall|j: int| 0 <= j < text.len() ==> is_digit(#[trigger] text[j]),
    ensures
        digits_end(s, i + k) == i + text.len(),
    decreases text.len() - k,
{
    if k < text.len() {
        char_stands(s, i, text, k);
        assert(is_digit(text[k]));
        digits_end_alike(s, i, text, k + 1);
    }
}

/// The decimal of a number is read as the number.
pub proof fn integers_are_read_back(n: u64, now: Timestamp)
    ensures
        reads_as_literal(decimal(n as nat), LiteralView::Integer(n as int), now),
{
    reveal(literal);
    reveal_strlit("true");
    reveal_strlit("false");
    reveal_strlit("ms");
    reveal_strlit("us");
    reveal_strlit("ns");
    let text = decimal(n as nat);
    decimals_have_their_value(n as nat);
    assert forall|k: int| 0 <= k < text.len() implies is_digit(#[trigger] text[k]) by {
        decimals_have_digits(n as nat, k);
    }
    assert(is_digit(text[0]));
    assert forall|s: Seq<char>, i: int| #[trigger]
        at(s, i, text) && char_at(s, i + text.len(), ')') implies literal(s, i, now) == Some(
        (LiteralView::Integer(n as int), i + text.len()),
    ) by {
        let end = i + text.len();
        char_stands(s, i, text, 0);
        digits_end_alike(s, i, text, 0);
        if at(s, i, "true"@) {
            assert(s.subrange(i, i + 4)[0] == 't');
        }
        if at(s, i, "false"@) {
            assert(s.subrange(i, i + 5)[0] == 'f');
        }
        if at(s, end, "ms"@) {
            assert(s.subrange(end, end + 2)[0] == 'm');
        }
        if at(s, end, "us"@) {
            assert(s.subrange(end, end + 2)[0] == 'u');
        }
        if at(s, end, "ns"@) {
            assert(s.subrange(end, end + 2)[0] == 'n');
        }
        assert(s.subrange(i, end) == text);
        assert(duration(s, i) is None);
        assert(integer(s, i) == Some((n as int, end)));
    }
}

/// A comparison is written in round brackets, with its name, its operator and its literal in this
/// order and a blank between them, and with an exclamation mark before it where it is negated.
pub proof fn comparisons_are_written_in_brackets(ident: Seq<char>, expr: Seq<char>, op: Comparison)
    ensures
        comparison_view_text(false, ident, op, expr) == "("@ + ident + " "@ + comparison_text(op)
            + " "@ + expr + ")"@,
        comparison_view_text(true, ident, op, expr) == "!("@ + ident + " "@ + comparison_text(op)
            + " "@ + expr + ")"@,
        op is Eq ==> comparison_text(op) == "=="@,
        op is Ne ==> comparison_text(op) == "!="@,
        op is Gt ==> comparison_text(op) == ">"@,
        op is Ge ==> comparison_text(op) == ">="@,
        op is Lt ==> comparison_text(op) == "<"@,
        op is Le ==> comparison_text(op) == "<="@,
        op is Like ==> comparison_text(op) == "~="@,
{
    reveal_strlit("!");
    reveal_strlit("");
    reveal_strlit("(");
    reveal_strlit("!(");
    assert(""@ + "("@ =~= "("@);
    assert("!"@ + "("@ =~= "!("@);
}

/// Joined filters are written in round brackets, from left to right, with their operator and a blank
/// on both sides of it between them. The literals of the left one come first.
pub proof fn joined_filters_are_written_from_left_to_right(
    left: FilterView,
    right: FilterView,
    op: LogicalOp,
    first: Seq<Seq<char>>,
    second: Seq<Seq<char>>,
)
    requires
        first.len() == atoms(left),
    ensures
        filter_text(
            FilterView::Expr { left: Box::new(left), op, right: Box::new(right) },
            first + second,
        ) == "("@ + filter_text(left, first) + " "@ + (if op is And {
            "&&"@
        } else {
            "||"@
        }) + " "@ + filter_text(right, second) + ")"@,
{
    assert((first + second).take(first.len() as int) =~= first);
    assert((first + second).skip(first.len() as int) =~= second);
}

} // verus!
