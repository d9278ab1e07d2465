//! What texts stand for: how operators, literals, names and filters are read.

use vstd::prelude::*;

use crate::ids::uuid_of_text;
use crate::oxql::ast::{Comparison, LogicalOp};
use crate::oxql::double::{digits_value, signed};
use crate::oxql::grammar::{
    all_digits, at, blank, char_at, digit_values, digits_end, double, duration, instant,
    instant_char, instant_end, integer, is_digit, literal, name_end, nearest_to, next_char, number, parts_end,
    quoted, quoted_value, run_end, shifted, sign_end, skip_blanks, timestamp, unit,
};
use crate::oxql::ip::ip_of;
use crate::oxql::parser::{
    atom, conjunction, disjunction, factor, more_conjunctions, more_factors, operator,
};
use crate::oxql::views::{FilterView, LiteralView};
use crate::text::{decimal, decimal_stands_for_the_number};
use crate::time::Timestamp;

verus! {

/// The two characters stand at `i`.
pub open spec fn pair_at(s: Seq<char>, i: int, a: char, b: char) -> bool {
    char_at(s, i, a) && char_at(s, i + 1, b)
}

proof fn pair_is_a_word(s: Seq<char>, i: int, word: Seq<char>)
    requires
        word.len() == 2,
    ensures
        at(s, i, word) <==> pair_at(s, i, word[0], word[1]),
{
    if at(s, i, word) {
        assert(s.subrange(i, i + 2)[0] == word[0]);
        assert(s.subrange(i, i + 2)[1] == word[1]);
    }
    if pair_at(s, i, word[0], word[1]) {
        assert(s.subrange(i, i + 2) =~= word);
    }
}

proof fn char_is_a_word(s: Seq<char>, i: int, word: Seq<char>)
    requires
        word.len() == 1,
    ensures
        at(s, i, word) <==> char_at(s, i, word[0]),
{
    if at(s, i, word) {
        assert(s.subrange(i, i + 1)[0] == word[0]);
    }
    if char_at(s, i, word[0]) {
        assert(s.subrange(i, i + 1) =~= word);
    }
}

/// Each operator is read by its characters, and the longer one where two could be read. Nothing else
/// is an operator.
pub proof fn operators_are_read(s: Seq<char>, i: int)
    ensures
        pair_at(s, i, '=', '=') ==> operator(s, i) == Some((Comparison::Eq, i + 2)),
        pair_at(s, i, '!', '=') ==> operator(s, i) == Some((Comparison::Ne, i + 2)),
        pair_at(s, i, '>', '=') ==> operator(s, i) == Some((Comparison::Ge, i + 2)),
        pair_at(s, i, '<', '=') ==> operator(s, i) == Some((Comparison::Le, i + 2)),
        pair_at(s, i, '~', '=') ==> operator(s, i) == Some((Comparison::Like, i + 2)),
        char_at(s, i, '>') && !char_at(s, i + 1, '=') ==> operator(s, i) == Some(
            (Comparison::Gt, i + 1),
        ),
        char_at(s, i, '<') && !char_at(s, i + 1, '=') ==> operator(s, i) == Some(
            (Comparison::Lt, i + 1),
        ),
        operator(s, i) is None <==> !pair_at(s, i, '=', '=') && !pair_at(s, i, '!', '=')
            && !pair_at(s, i, '~', '=') && !char_at(s, i, '>') && !char_at(s, i, '<'),
{
    reveal_strlit("==");
    reveal_strlit("!=");
    reveal_strlit(">=");
    reveal_strlit("<=");
    reveal_strlit("~=");
    reveal_strlit(">");
    reveal_strlit("<");
    pair_is_a_word(s, i, "=="@);
    pair_is_a_word(s, i, "!="@);
    pair_is_a_word(s, i, ">="@);
    pair_is_a_word(s, i, "<="@);
    pair_is_a_word(s, i, "~="@);
    char_is_a_word(s, i, ">"@);
    char_is_a_word(s, i, "<"@);
}

/// Two filters, joined.
pub open spec fn pair(left: FilterView, op: LogicalOp, right: FilterView) -> FilterView {
    FilterView::Expr { left: Box::new(left), op, right: Box::new(right) }
}

/// A factor `f` stands from `i` to `j`.
pub open spec fn stands(s: Seq<char>, i: int, j: int, f: FilterView, now: Timestamp) -> bool {
    factor(s, i, now) == Some((f, j)) && 0 <= i < j <= s.len()
}

/// At `j` follow, with blanks or without, the operator and then what begins at `p`.
pub open spec fn joined_by(s: Seq<char>, j: int, a: char, b: char, p: int) -> bool {
    pair_at(s, skip_blanks(s, j), a, b) && p == skip_blanks(s, skip_blanks(s, j) + 2)
}

/// No filter goes on at `j`.
pub open spec fn ends_there(s: Seq<char>, j: int) -> bool {
    let k = skip_blanks(s, j);
    !pair_at(s, k, '&', '&') && !pair_at(s, k, '|', '|')
}

proof fn blanks_end(s: Seq<char>, i: int)
    requires
        0 <= i <= s.len(),
    ensures
        i <= skip_blanks(s, i) <= s.len(),
    decreases s.len() - i,
{
    if i < s.len() && blank(s[i]) {
        blanks_end(s, i + 1);
    }
}

/// Blanks are passed over, all of them and nothing else.
pub proof fn only_blanks_are_passed_over(s: Seq<char>, i: int)
    requires
        0 <= i <= s.len(),
    ensures
        i <= skip_blanks(s, i) <= s.len(),
        forall|k: int|
            i <= k < skip_blanks(s, i) ==> #[trigger] s[k] == ' ' || s[k] == '\n' || s[k] == '\t',
        !char_at(s, skip_blanks(s, i), ' ') && !char_at(s, skip_blanks(s, i), '\n') && !char_at(
            s,
            skip_blanks(s, i),
            '\t',
        ),
    decreases s.len() - i,
{
    if i < s.len() && blank(s[i]) {
        only_blanks_are_passed_over(s, i + 1);
    }
}

/// What is joined by `&&` belongs together more closely than what is joined by `||`, on either side,
/// and what is joined by the same operator belongs together from the left.
pub proof fn and_binds_before_or(
    s: Seq<char>,
    i: int,
    j: int,
    p: int,
    k: int,
    q: int,
    end: int,
    f: FilterView,
    g: FilterView,
    h: FilterView,
    now: Timestamp,
)
    requires
        stands(s, i, j, f, now),
        stands(s, p, k, g, now),
        stands(s, q, end, h, now),
        ends_there(s, end),
    ensures
        joined_by(s, j, '|', '|', p) && joined_by(s, k, '&', '&', q) ==> disjunction(s, i, now)
            == Some((pair(f, LogicalOp::Or, pair(g, LogicalOp::And, h)), end)),
        joined_by(s, j, '&', '&', p) && joined_by(s, k, '|', '|', q) ==> disjunction(s, i, now)
            == Some((pair(pair(f, LogicalOp::And, g), LogicalOp::Or, h), end)),
        joined_by(s, j, '&', '&', p) && joined_by(s, k, '&', '&', q) ==> disjunction(s, i, now)
            == Some((pair(pair(f, LogicalOp::And, g), LogicalOp::And, h), end)),
        joined_by(s, j, '|', '|', p) && joined_by(s, k, '|', '|', q) ==> disjunction(s, i, now)
            == Some((pair(pair(f, LogicalOp::Or, g), LogicalOp::Or, h), end)),
{
    reveal_strlit("&&");
    reveal_strlit("||");
    let a = skip_blanks(s, j);
    let b = skip_blanks(s, k);
    let c = skip_blanks(s, end);
    pair_is_a_word(s, a, "&&"@);
    pair_is_a_word(s, a, "||"@);
    pair_is_a_word(s, b, "&&"@);
    pair_is_a_word(s, b, "||"@);
    pair_is_a_word(s, c, "&&"@);
    pair_is_a_word(s, c, "||"@);
    blanks_end(s, j);
    blanks_end(s, k);
    if pair_at(s, a, '&', '&') || pair_at(s, a, '|', '|') {
        blanks_end(s, a + 2);
    }
    if pair_at(s, b, '&', '&') || pair_at(s, b, '|', '|') {
        blanks_end(s, b + 2);
    }
    assert(forall|x: FilterView| #[trigger] more_factors(s, end, x, now) == (x, end));
    assert(forall|x: FilterView| #[trigger] more_conjunctions(s, end, x, now) == (x, end));
    assert(conjunction(s, q, now) == Some((h, end)));
    if joined_by(s, j, '|', '|', p) && joined_by(s, k, '&', '&', q) {
        assert(more_factors(s, j, f, now) == (f, j));
        assert(more_factors(s, k, g, now) == more_factors(
            s,
            end,
            pair(g, LogicalOp::And, h),
            now,
        ));
        assert(conjunction(s, i, now) == Some((f, j)));
        assert(conjunction(s, p, now) == Some((pair(g, LogicalOp::And, h), end)));
        assert(more_conjunctions(s, j, f, now) == more_conjunctions(
            s,
            end,
            pair(f, LogicalOp::Or, pair(g, LogicalOp::And, h)),
            now,
        ));
    }
    if joined_by(s, j, '&', '&', p) && joined_by(s, k, '|', '|', q) {
        let x = pair(f, LogicalOp::And, g);
        assert(more_factors(s, k, x, now) == (x, k));
        assert(more_factors(s, j, f, now) == more_factors(s, k, x, now));
        assert(conjunction(s, i, now) == Some((x, k)));
        assert(more_conjunctions(s, k, x, now) == more_conjunctions(
            s,
            end,
            pair(x, LogicalOp::Or, h),
            now,
        ));
    }
    if joined_by(s, j, '&', '&', p) && joined_by(s, k, '&', '&', q) {
        let x = pair(f, LogicalOp::And, g);
        assert(more_factors(s, k, x, now) == more_factors(
            s,
            end,
            pair(x, LogicalOp::And, h),
            now,
        ));
        assert(more_factors(s, j, f, now) == more_factors(s, k, x, now));
        assert(conjunction(s, i, now) == Some((pair(x, LogicalOp::And, h), end)));
    }
    if joined_by(s, j, '|', '|', p) && joined_by(s, k, '|', '|', q) {
        let x = pair(f, LogicalOp::Or, g);
        assert(more_factors(s, j, f, now) == (f, j));
        assert(more_factors(s, k, g, now) == (g, k));
        assert(conjunction(s, i, now) == Some((f, j)));
        assert(conjunction(s, p, now) == Some((g, k)));
        assert(more_conjunctions(s, k, x, now) == more_conjunctions(
            s,
            end,
            pair(x, LogicalOp::Or, h),
            now,
        ));
        assert(more_conjunctions(s, j, f, now) == more_conjunctions(s, k, x, now));
    }
}

/// A day, in nanoseconds.
pub open spec fn day() -> nat {
    24 * 60 * 60 * 1_000_000_000
}

/// The units of time: years of 365 days, months of 30, weeks, days, hours, minutes, seconds, and the
/// parts of a second. An `m` is a minute, unless an `s` follows it.
pub proof fn units_are_read(s: Seq<char>, i: int)
    ensures
        char_at(s, i, 'Y') ==> unit(s, i) == Some((365 * day(), i + 1)),
        char_at(s, i, 'M') ==> unit(s, i) == Some((30 * day(), i + 1)),
        char_at(s, i, 'w') ==> unit(s, i) == Some((7 * day(), i + 1)),
        char_at(s, i, 'd') ==> unit(s, i) == Some((day(), i + 1)),
        char_at(s, i, 'h') ==> unit(s, i) == Some((60 * 60 * 1_000_000_000nat, i + 1)),
        char_at(s, i, 'm') && !char_at(s, i + 1, 's') ==> unit(s, i) == Some(
            (60 * 1_000_000_000nat, i + 1),
        ),
        char_at(s, i, 's') ==> unit(s, i) == Some((1_000_000_000nat, i + 1)),
        pair_at(s, i, 'm', 's') ==> unit(s, i) == Some((1_000_000nat, i + 2)),
        pair_at(s, i, 'u', 's') ==> unit(s, i) == Some((1_000nat, i + 2)),
        pair_at(s, i, 'n', 's') ==> unit(s, i) == Some((1nat, i + 2)),
        unit(s, i) is Some ==> char_at(s, i, 'Y') || char_at(s, i, 'M') || char_at(s, i, 'w')
            || char_at(s, i, 'd') || char_at(s, i, 'h') || char_at(s, i, 'm') || char_at(s, i, 's')
            || pair_at(s, i, 'u', 's') || pair_at(s, i, 'n', 's'),
{
    reveal_strlit("ms");
    reveal_strlit("us");
    reveal_strlit("ns");
    pair_is_a_word(s, i, "ms"@);
    pair_is_a_word(s, i, "us"@);
    pair_is_a_word(s, i, "ns"@);
}

proof fn digits_go_on(s: Seq<char>, i: int, text: Seq<char>, k: int)
    requires
        at(s, i, text),
        0 <= k <= text.len(),
        forall|j: int| 0 <= j < text.len() ==> is_digit(#[trigger] text[j]),
        forall|c: char| #[trigger] char_at(s, i + text.len(), c) ==> !is_digit(c),
    ensures
        digits_end(s, i + k) == i + text.len(),
    decreases text.len() - k,
{
    if k < text.len() {
        assert(s.subrange(i, i + text.len())[k] == text[k]);
        assert(is_digit(text[k]));
        digits_go_on(s, i, text, k + 1);
    } else if i + k < s.len() {
        assert(char_at(s, i + text.len(), s[i + k]));
    }
}

proof fn digits_have_their_value(n: nat)
    ensures
        digits_value(digit_values(decimal(n))) == n,
    decreases n,
{
    reveal_with_fuel(digits_value, 2);
    let digits = digit_values(decimal(n));
    if n >= 10 {
        digits_have_their_value(n / 10);
        assert(digits.drop_last() =~= digit_values(decimal(n / 10)));
    } else {
        assert(digits.drop_last() =~= Seq::empty());
    }
}

/// The text begins a number, and no digit, point or exponent follows it.
pub open spec fn number_at(s: Seq<char>, i: int, n: nat) -> bool {
    let end = i + decimal(n).len();
    &&& at(s, i, decimal(n))
    &&& forall|c: char| #[trigger]
        char_at(s, end, c) ==> !('0' <= c <= '9') && c != '.' && c != 'e' && c != 'E'
}

proof fn number_is_read(s: Seq<char>, i: int, n: nat)
    requires
        number_at(s, i, n),
    ensures
        digits_end(s, i) == i + decimal(n).len(),
        number(s, i, i + decimal(n).len()) == n,
        decimal(n).len() > 0,
        is_digit(s[i]),
        0 <= i < s.len(),
        !char_at(s, i + decimal(n).len(), '.'),
        !char_at(s, i + decimal(n).len(), 'e'),
        !char_at(s, i + decimal(n).len(), 'E'),
{
    decimal_stands_for_the_number(n);
    digits_have_their_value(n);
    digits_go_on(s, i, decimal(n), 0);
    assert(s.subrange(i, i + decimal(n).len())[0] == decimal(n)[0]);
    assert(is_digit(decimal(n)[0]));
}

/// Whole numbers are read with their sign, from the least of 64 bits with a sign to the largest
/// without. No other is.
pub proof fn whole_numbers_are_read_with_their_sign(s: Seq<char>, i: int, n: nat)
    ensures
        number_at(s, i, n) ==> integer(s, i) == (if n <= u64::MAX {
            Some((n as int, i + decimal(n).len() as int))
        } else {
            None
        }),
        char_at(s, i, '-') && number_at(s, i + 1, n) ==> integer(s, i) == (if n
            <= 0x8000_0000_0000_0000 {
            Some((-(n as int), i + 1 + decimal(n).len() as int))
        } else {
            None
        }),
{
    if number_at(s, i, n) {
        number_is_read(s, i, n);
    }
    if char_at(s, i, '-') && number_at(s, i + 1, n) {
        number_is_read(s, i + 1, n);
    }
}

/// A duration is a number of 32 bits of a unit, without a sign. It lasts that many times the unit.
pub proof fn durations_are_read(s: Seq<char>, i: int, n: nat)
    requires
        number_at(s, i, n),
    ensures
        duration(s, i) == (match unit(s, i + decimal(n).len()) {
            Some((nanos, end)) if n <= u32::MAX => Some((n * nanos, end)),
            _ => None,
        }),
{
    number_is_read(s, i, n);
}

/// A number with a unit is read as a duration, and one without as a number, whatever comes before a
/// number in other literals.
pub proof fn numbers_with_units_are_durations(s: Seq<char>, i: int, n: nat, now: Timestamp)
    requires
        number_at(s, i, n),
    ensures
        duration(s, i) matches Some((nanos, end)) ==> literal(s, i, now) == Some(
            (LiteralView::Duration(nanos), end),
        ),
        duration(s, i) is None && n <= u64::MAX ==> literal(s, i, now) == Some(
            (LiteralView::Integer(n as int), i + decimal(n).len() as int),
        ),
{
    reveal(literal);
    reveal_strlit("true");
    reveal_strlit("false");
    number_is_read(s, i, n);
    whole_numbers_are_read_with_their_sign(s, i, n);
    if at(s, i, "true"@) {
        assert(s.subrange(i, i + 4)[0] == 't');
    }
    if at(s, i, "false"@) {
        assert(s.subrange(i, i + 5)[0] == 'f');
    }
}

/// A number with a minus before it is read as the negative number.
pub proof fn negative_numbers_are_read(s: Seq<char>, i: int, n: nat, now: Timestamp)
    requires
        char_at(s, i, '-'),
        number_at(s, i + 1, n),
        n <= 0x8000_0000_0000_0000,
    ensures
        literal(s, i, now) == Some(
            (LiteralView::Integer(-(n as int)), i + 1 + decimal(n).len() as int),
        ),
{
    reveal(literal);
    reveal_strlit("true");
    reveal_strlit("false");
    number_is_read(s, i + 1, n);
    whole_numbers_are_read_with_their_sign(s, i, n);
    if at(s, i, "true"@) {
        assert(s.subrange(i, i + 4)[0] == 't');
    }
    if at(s, i, "false"@) {
        assert(s.subrange(i, i + 5)[0] == 'f');
    }
}

/// The text stands at `i` between two such quotes, and has none of them in it.
pub open spec fn quoted_at(s: Seq<char>, i: int, quote: char, text: Seq<char>) -> bool {
    &&& char_at(s, i, quote)
    &&& at(s, i + 1, text)
    &&& char_at(s, i + 1 + text.len(), quote)
    &&& !text.contains(quote)
}

proof fn quote_is_next(s: Seq<char>, i: int, quote: char, text: Seq<char>, k: int)
    requires
        at(s, i, text),
        char_at(s, i + text.len(), quote),
        !text.contains(quote),
        0 <= k <= text.len(),
    ensures
        next_char(s, i + k, quote) == i + text.len(),
    decreases text.len() - k,
{
    if k < text.len() {
        assert(s.subrange(i, i + text.len())[k] == text[k]);
        assert(text.contains(text[k]));
        quote_is_next(s, i, quote, text, k + 1);
    }
}

/// A text between two quotes of the same kind ends at the second, and the other kind of quote may
/// stand in it. It is read as what it stands for.
pub proof fn quoted_texts_are_read(
    s: Seq<char>,
    i: int,
    quote: char,
    text: Seq<char>,
    now: Timestamp,
)
    requires
        quoted_at(s, i, quote, text),
        quote == '"' || quote == '\'',
    ensures
        quoted(s, i) == Some((quoted_value(text), i + text.len() + 2)),
        literal(s, i, now) == Some((quoted_value(text), i + text.len() + 2)),
{
    reveal(literal);
    reveal_strlit("true");
    reveal_strlit("false");
    quote_is_next(s, i + 1, quote, text, 0);
    if at(s, i, "true"@) {
        assert(s.subrange(i, i + 4)[0] == 't');
    }
    if at(s, i, "false"@) {
        assert(s.subrange(i, i + 5)[0] == 'f');
    }
    assert(sign_end(s, i) == i);
    assert(digits_end(s, i) == i);
    assert(duration(s, i) is None);
    assert(integer(s, i) is None);
    assert(all_digits(s, i, i, i).len() == 0);
    assert(double(s, i) is None);
}

/// A quoted text that is a UUID of 36 characters stands for that, and one that is an address for
/// that. Any other stands for itself.
pub proof fn quoted_texts_stand_for_ids_addresses_or_themselves(text: Seq<char>)
    ensures
        match quoted_value(text) {
            LiteralView::Uuid(id) => text.len() == 36 && uuid_of_text(text) == Some(id),
            LiteralView::IpAddr(ip) => ip_of(text) == Some(ip),
            LiteralView::Text(t) => t == text && ip_of(text) is None && (text.len() != 36
                || uuid_of_text(text) is None),
            _ => false,
        },
{
}

/// An instant that is so many nanoseconds before or after another is exactly so far from it, and is
/// no leap second.
pub proof fn instants_are_shifted_exactly(t: Timestamp, back: bool, nanos: nat)
    ensures
        shifted(t, back, nanos) matches Some(r) ==> r.nanos < 1_000_000_000 && r.secs
            * 1_000_000_000 + r.nanos == t.secs * 1_000_000_000 + t.nanos + (if back {
            -(nanos as int)
        } else {
            nanos as int
        }),
        shifted(t, back, nanos) is None ==> {
            let total = t.secs * 1_000_000_000 + t.nanos + (if back {
                -(nanos as int)
            } else {
                nanos as int
            });
            total < i64::MIN * 1_000_000_000 || total >= (i64::MAX + 1) * 1_000_000_000
        },
{
}

/// An `@` before a text is read as the instant that the text stands for. Where it stands for none,
/// `@now()` is the present, and `@now()` with a duration behind a sign is so far before the present,
/// or after it.
pub proof fn instants_are_read(s: Seq<char>, i: int, now: Timestamp)
    requires
        char_at(s, i, '@'),
    ensures
        ({
            let end = instant_end(s, i + 1);
            let said = instant(s.subrange(i + 1, end));
            let k = skip_blanks(s, i + 6);
            let p = skip_blanks(s, k + 1);
            &&& said matches Some(t) ==> timestamp(s, i, now) == Some((t, end))
            &&& said is None && at(s, i, "@now()"@) && !char_at(s, k, '+') && !char_at(s, k, '-')
                ==> timestamp(s, i, now) == Some((now, i + 6))
            &&& said is None && at(s, i, "@now()"@) && (char_at(s, k, '+') || char_at(s, k, '-'))
                ==> match duration(s, p) {
                Some((nanos, stop)) => timestamp(s, i, now) == (match shifted(
                    now,
                    char_at(s, k, '-'),
                    nanos,
                ) {
                    Some(t) => Some((t, stop)),
                    None => None,
                }),
                None => timestamp(s, i, now) == Some((now, i + 6)),
            }
            &&& said is None && !at(s, i, "@now()"@) ==> timestamp(s, i, now) is None
        }),
{
}

/// A name begins with a letter, and goes on with letters and digits, and with underscores that stand
/// alone between them. It is as long as it can be.
pub proof fn names_are_letters_digits_and_underscores(s: Seq<char>, i: int)
    ensures
        match name_end(s, i) {
            Some(end) => {
                &&& 0 <= i < end <= s.len()
                &&& 'a' <= s[i] <= 'z'
                &&& forall|k: int|
                    i <= k < end ==> 'a' <= #[trigger] s[k] <= 'z' || '0' <= s[k] <= '9' || (s[k]
                        == '_' && i < k && k + 1 < end && s[k - 1] != '_' && s[k + 1] != '_')
                &&& end < s.len() ==> !('a' <= s[end] <= 'z') && !('0' <= s[end] <= '9')
                &&& end + 1 < s.len() && s[end] == '_' ==> !('a' <= s[end + 1] <= 'z') && !('0'
                    <= s[end + 1] <= '9')
            },
            None => i < 0 || i >= s.len() || !('a' <= s[i] <= 'z'),
        },
{
    if 0 <= i < s.len() && 'a' <= s[i] <= 'z' {
        parts_are_runs(s, i);
    }
}

proof fn run_has_no_underscore(s: Seq<char>, i: int)
    requires
        0 <= i <= s.len(),
    ensures
        i <= run_end(s, i) <= s.len(),
        forall|k: int|
            i <= k < run_end(s, i) ==> 'a' <= #[trigger] s[k] <= 'z' || '0' <= s[k] <= '9',
        run_end(s, i) < s.len() ==> !('a' <= s[run_end(s, i)] <= 'z') && !('0' <= s[run_end(s, i)]
            <= '9'),
    decreases s.len() - i,
{
    if i < s.len() && ('a' <= s[i] <= 'z' || '0' <= s[i] <= '9') {
        run_has_no_underscore(s, i + 1);
    }
}

proof fn parts_are_runs(s: Seq<char>, i: int)
    requires
        0 <= i < s.len(),
        'a' <= s[i] <= 'z' || '0' <= s[i] <= '9',
    ensures
        ({
            let end = parts_end(s, i);
            &&& i < end <= s.len()
            &&& forall|k: int|
                i <= k < end ==> 'a' <= #[trigger] s[k] <= 'z' || '0' <= s[k] <= '9' || (s[k] == '_'
                    && i < k && k + 1 < end && s[k - 1] != '_' && s[k + 1] != '_')
            &&& end < s.len() ==> !('a' <= s[end] <= 'z') && !('0' <= s[end] <= '9')
            &&& end + 1 < s.len() && s[end] == '_' ==> !('a' <= s[end + 1] <= 'z') && !('0'
                <= s[end + 1] <= '9')
        }),
    decreases s.len() - i,
{
    run_has_no_underscore(s, i);
    run_has_no_underscore(s, i + 1);
    let j = run_end(s, i);
    assert(i < j);
    if j + 1 < s.len() && s[j] == '_' && ('a' <= s[j + 1] <= 'z' || '0' <= s[j + 1] <= '9') {
        parts_are_runs(s, j + 1);
        let end = parts_end(s, j + 1);
        assert forall|k: int| i <= k < end implies 'a' <= #[trigger] s[k] <= 'z' || '0' <= s[k]
            <= '9' || (s[k] == '_' && i < k && k + 1 < end && s[k - 1] != '_' && s[k + 1]
            != '_') by {
            if k == j {
                assert('a' <= s[j - 1] <= 'z' || '0' <= s[j - 1] <= '9');
            }
        }
    }
}

/// All characters of the text are decimal digits.
pub open spec fn all_are_digits(text: Seq<char>) -> bool {
    forall|k: int| 0 <= k < text.len() ==> '0' <= #[trigger] text[k] <= '9'
}

/// Digits with a point among them, and no exponent, are read as the double nearest to the number
/// that all the digits stand for, with as many of them behind the point as there are. A minus before
/// them is the sign of the double.
pub proof fn decimals_are_read(s: Seq<char>, i: int, whole: Seq<char>, part: Seq<char>)
    requires
        whole.len() > 0,
        all_are_digits(whole),
        all_are_digits(part),
        at(s, sign_end(s, i), whole + "."@ + part),
        forall|c: char| #[trigger]
            char_at(s, sign_end(s, i) + whole.len() + 1 + part.len(), c) ==> !('0' <= c <= '9')
                && c != 'e' && c != 'E',
    ensures
        double(s, i) == Some(
            (
                LiteralView::Double(
                    signed(
                        char_at(s, i, '-'),
                        nearest_to(
                            digits_value(digit_values(whole + part)),
                            -(part.len() as int),
                        ),
                    ),
                ),
                sign_end(s, i) + whole.len() + 1 + part.len(),
            ),
        ),
{
    reveal_strlit(".");
    let a = sign_end(s, i);
    let text = whole + "."@ + part;
    let b = a + whole.len();
    let c = b + 1 + part.len();
    assert(text.len() == whole.len() + 1 + part.len());
    assert(s.subrange(a, b) =~= whole) by {
        assert(s.subrange(a, a + text.len()).subrange(0, whole.len() as int) =~= whole);
    }
    assert(s.subrange(b + 1, c) =~= part) by {
        assert(s.subrange(a, a + text.len()).subrange(whole.len() as int + 1, text.len() as int)
            =~= part);
    }
    assert(s.subrange(a, a + text.len())[whole.len() as int] == '.');
    assert(char_at(s, b, '.'));
    digits_go_on(s, a, whole, 0);
    digits_go_on(s, b + 1, part, 0);
    assert(all_digits(s, a, b, c) =~= digit_values(whole + part));
    assert(!char_at(s, c, 'e') && !char_at(s, c, 'E'));
}

/// A comparison is a name, an operator and a literal, with blanks between them or without. It is not
/// negated.
pub proof fn comparisons_are_read(s: Seq<char>, i: int, now: Timestamp)
    ensures
        match atom(s, i, now) {
            Some((f, end)) => {
                &&& name_end(s, i) matches Some(j)
                &&& operator(s, skip_blanks(s, j)) matches Some((op, k))
                &&& literal(s, skip_blanks(s, k), now) matches Some((x, stop))
                &&& end == stop
                &&& f == (FilterView::Atom {
                    negated: false,
                    ident: s.subrange(i, j),
                    comparison: op,
                    literal: x,
                })
            },
            None => {
                ||| name_end(s, i) is None
                ||| operator(s, skip_blanks(s, name_end(s, i)->0)) is None
                ||| (operator(s, skip_blanks(s, name_end(s, i)->0)) matches Some((_, k)) && literal(
                    s,
                    skip_blanks(s, k),
                    now,
                ) is None)
            },
        },
{
    reveal(atom);
}

/// A filter in brackets is the filter. An exclamation mark before a comparison in brackets negates
/// it, and leaves its name, its operator and its literal. The brackets have to be closed.
pub proof fn brackets_hold_filters(s: Seq<char>, i: int, f: FilterView, j: int, now: Timestamp)
    requires
        0 <= i < s.len(),
    ensures
        ({
            let p = skip_blanks(s, i + 1);
            let q = skip_blanks(s, p + 1);
            let end = skip_blanks(s, j);
            &&& char_at(s, i, '(') && disjunction(s, p, now) == Some((f, j)) ==> factor(s, i, now)
                == (if char_at(s, end, ')') {
                Some((f, end + 1))
            } else {
                None
            })
            &&& char_at(s, i, '!') && char_at(s, p, '(') && atom(s, q, now) == Some((f, j)) ==> (
            f matches FilterView::Atom { ident, comparison, literal: x, .. } ==> factor(s, i, now)
                == (if char_at(s, end, ')') {
                Some(
                    (
                        FilterView::Atom { negated: true, ident, comparison, literal: x },
                        end + 1,
                    ),
                )
            } else {
                None
            }))
            &&& char_at(s, i, '!') && !char_at(s, p, '(') ==> factor(s, i, now) is None
            &&& !char_at(s, i, '(') && !char_at(s, i, '!') ==> factor(s, i, now) == atom(s, i, now)
        }),
{
    blanks_end(s, i + 1);
}

/// The text of an instant goes on for as long as there are digits, hyphens, colons, points and the
/// letter that stands before the time of day.
pub proof fn instants_end_at_the_first_other_character(s: Seq<char>, i: int)
    requires
        0 <= i <= s.len(),
    ensures
        i <= instant_end(s, i) <= s.len(),
        forall|k: int|
            i <= k < instant_end(s, i) ==> '0' <= #[trigger] s[k] <= '9' || s[k] == '-' || s[k]
                == 'T' || s[k] == ':' || s[k] == '.',
        instant_end(s, i) < s.len() ==> {
            let c = s[instant_end(s, i)];
            !('0' <= c <= '9') && c != '-' && c != 'T' && c != ':' && c != '.'
        },
    decreases s.len() - i,
{
    if i < s.len() && instant_char(s[i]) {
        instants_end_at_the_first_other_character(s, i + 1);
    }
}

/// Digits with an exponent behind them are read as the double nearest to the number times that power
/// of ten, which a minus before the exponent makes negative. The mark of the exponent may be a small
/// letter or a capital one.
pub proof fn exponents_are_read(s: Seq<char>, i: int, whole: Seq<char>, power: Seq<char>)
    requires
        whole.len() > 0,
        power.len() > 0,
        all_are_digits(whole),
        all_are_digits(power),
        at(s, sign_end(s, i), whole),
        ({
            let b = sign_end(s, i) + whole.len();
            let p = sign_end(s, b + 1);
            &&& char_at(s, b, 'e') || char_at(s, b, 'E')
            &&& at(s, p, power)
            &&& forall|c: char| #[trigger] char_at(s, p + power.len(), c) ==> !('0' <= c <= '9')
        }),
    ensures
        ({
            let b = sign_end(s, i) + whole.len();
            let p = sign_end(s, b + 1);
            let e = digits_value(digit_values(power)) as int;
            double(s, i) == Some(
                (
                    LiteralView::Double(
                        signed(
                            char_at(s, i, '-'),
                            nearest_to(
                                digits_value(digit_values(whole)),
                                if char_at(s, b + 1, '-') {
                                    -e
                                } else {
                                    e
                                },
                            ),
                        ),
                    ),
                    p + power.len(),
                ),
            )
        }),
{
    let a = sign_end(s, i);
    let b = a + whole.len();
    let p = sign_end(s, b + 1);
    digits_go_on(s, a, whole, 0);
    digits_go_on(s, p, power, 0);
    assert(s.subrange(a, b) =~= whole);
    assert(s.subrange(p, p + power.len()) =~= power);
    assert(all_digits(s, a, b, b) =~= digit_values(whole));
    assert(!char_at(s, b, '.'));
}

} // verus!
