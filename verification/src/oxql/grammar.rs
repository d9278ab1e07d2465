//! The grammar of queries.
//!
//! Choices are ordered: where several ways to read a text begin at the same place, the first that
//! succeeds is taken.

use vstd::prelude::*;

use crate::ids::{parse_uuid, uuid_of_text, Uuid};
use crate::oxql::ast::Literal;
use crate::oxql::clock::{date_of_text, date_time_of_text, parse_date, parse_date_time};
use crate::oxql::double::{
    decimal_bits, decimal_exponent, digits_value, nearest_decimal, nearest_is_unique, signed,
    with_sign,
};
use crate::oxql::ip::{ip_of, read_ip};
use crate::oxql::natural::power;
use crate::oxql::views::{literal_view, LiteralView};
use crate::text::{chars_of, string_of};
use crate::time::Timestamp;

verus! {

/// The longest text that can be read.
pub const MAX_CHARS: usize = usize::MAX - 400;

/// A character that may stand between words.
pub open spec fn blank(c: char) -> bool {
    c == ' ' || c == '\n' || c == '\t'
}

/// The place after the blanks that begin at `i`, if there are any.
pub open spec fn skip_blanks(s: Seq<char>, i: int) -> int
    decreases s.len() - i,
{
    if 0 <= i < s.len() && blank(s[i]) {
        skip_blanks(s, i + 1)
    } else {
        i
    }
}

/// The word stands at `i`.
pub open spec fn at(s: Seq<char>, i: int, word: Seq<char>) -> bool {
    0 <= i && i + word.len() <= s.len() && s.subrange(i, i + word.len()) == word
}

/// The character stands at `i`.
pub open spec fn char_at(s: Seq<char>, i: int, c: char) -> bool {
    0 <= i < s.len() && s[i] == c
}

/// A character that may stand inside a name.
pub open spec fn name_char(c: char) -> bool {
    'a' <= c <= 'z' || '0' <= c <= '9'
}

/// The place after the letters and digits that begin at `i`.
pub open spec fn run_end(s: Seq<char>, i: int) -> int
    decreases s.len() - i,
{
    if 0 <= i < s.len() && name_char(s[i]) {
        run_end(s, i + 1)
    } else {
        i
    }
}

/// The place after the parts of a name, joined by underscores, that begin at `i`.
pub open spec fn parts_end(s: Seq<char>, i: int) -> int
    decreases s.len() - i,
{
    let j = run_end(s, i);
    if i < j && j + 1 < s.len() && s[j] == '_' && name_char(s[j + 1]) {
        parts_end(s, j + 1)
    } else {
        j
    }
}

/// A name: it begins with a letter. Gives the place after it.
pub open spec fn name_end(s: Seq<char>, i: int) -> Option<int> {
    if 0 <= i < s.len() && 'a' <= s[i] <= 'z' {
        Some(parts_end(s, i))
    } else {
        None
    }
}

/// A decimal digit.
pub open spec fn is_digit(c: char) -> bool {
    '0' <= c <= '9'
}

/// The place after the digits that begin at `i`.
pub open spec fn digits_end(s: Seq<char>, i: int) -> int
    decreases s.len() - i,
{
    if 0 <= i < s.len() && is_digit(s[i]) {
        digits_end(s, i + 1)
    } else {
        i
    }
}

/// The values of digits.
pub open spec fn digit_values(s: Seq<char>) -> Seq<u8> {
    s.map_values(|c: char| (c as int - '0' as int) as u8)
}

/// The number that the digits from `a` to `b` stand for.
pub open spec fn number(s: Seq<char>, a: int, b: int) -> nat {
    digits_value(digit_values(s.subrange(a, b)))
}

/// The place after a minus sign, if there is one at `i`.
pub open spec fn sign_end(s: Seq<char>, i: int) -> int {
    if char_at(s, i, '-') {
        i + 1
    } else {
        i
    }
}

/// The mark of an exponent.
pub open spec fn exponent_mark(s: Seq<char>, i: int) -> bool {
    char_at(s, i, 'e') || char_at(s, i, 'E')
}

/// The place after a whole number.
pub open spec fn integer_end(s: Seq<char>, i: int) -> Option<int> {
    let a = sign_end(s, i);
    let b = digits_end(s, a);
    if a < b && !exponent_mark(s, b) && !char_at(s, b, '.') {
        Some(b)
    } else {
        None
    }
}

/// A whole number, from the least of 64 bits with a sign to the largest without.
pub open spec fn integer(s: Seq<char>, i: int) -> Option<(int, int)> {
    match integer_end(s, i) {
        Some(b) => {
            let n = number(s, sign_end(s, i), b) as int;
            let v = if char_at(s, i, '-') {
                -n
            } else {
                n
            };
            if i64::MIN <= v <= u64::MAX {
                Some((v, b))
            } else {
                None
            }
        },
        None => None,
    }
}

/// A unit of time, in nanoseconds.
pub open spec fn unit(s: Seq<char>, i: int) -> Option<(nat, int)> {
    if at(s, i, "ms"@) {
        Some((1_000_000, i + 2))
    } else if at(s, i, "us"@) {
        Some((1_000, i + 2))
    } else if at(s, i, "ns"@) {
        Some((1, i + 2))
    } else if char_at(s, i, 'Y') {
        Some((31_536_000_000_000_000, i + 1))
    } else if char_at(s, i, 'M') {
        Some((2_592_000_000_000_000, i + 1))
    } else if char_at(s, i, 'w') {
        Some((604_800_000_000_000, i + 1))
    } else if char_at(s, i, 'd') {
        Some((86_400_000_000_000, i + 1))
    } else if char_at(s, i, 'h') {
        Some((3_600_000_000_000, i + 1))
    } else if char_at(s, i, 'm') {
        Some((60_000_000_000, i + 1))
    } else if char_at(s, i, 's') {
        Some((1_000_000_000, i + 1))
    } else {
        None
    }
}

/// A duration, in nanoseconds: a count of 32 bits, and a unit.
pub open spec fn duration(s: Seq<char>, i: int) -> Option<(nat, int)> {
    match integer_end(s, i) {
        Some(b) => if char_at(s, i, '-') || number(s, i, b) > u32::MAX {
            None
        } else {
            match unit(s, b) {
                Some((nanos, end)) => Some((number(s, i, b) * nanos, end)),
                None => None,
            }
        },
        None => None,
    }
}

/// The bits of the positive number nearest to a decimal one.
pub open spec fn nearest_to(m: nat, e: int) -> nat {
    choose|bits: nat| nearest_decimal(m, e, bits)
}

/// The place after the digits behind a point, if there is one at `b`.
pub open spec fn fraction_end(s: Seq<char>, b: int) -> int {
    if char_at(s, b, '.') {
        digits_end(s, b + 1)
    } else {
        b
    }
}

/// The digits on both sides of a point.
pub open spec fn all_digits(s: Seq<char>, a: int, b: int, c: int) -> Seq<u8> {
    digit_values(s.subrange(a, b)) + (if b < c {
        digit_values(s.subrange(b + 1, c))
    } else {
        Seq::empty()
    })
}

/// A decimal number, as the double nearest to it.
pub open spec fn double(s: Seq<char>, i: int) -> Option<(LiteralView, int)> {
    let a = sign_end(s, i);
    let b = digits_end(s, a);
    let c = fraction_end(s, b);
    let digits = all_digits(s, a, b, c);
    let places = if b < c {
        (c - b - 1) as nat
    } else {
        0
    };
    if digits.len() == 0 {
        None
    } else {
        let p = sign_end(s, c + 1);
        let r = digits_end(s, p);
        let (e, end) = if exponent_mark(s, c) && p < r {
            (decimal_exponent(places, char_at(s, c + 1, '-'), number(s, p, r)), r)
        } else {
            (decimal_exponent(places, false, 0), c)
        };
        Some(
            (
                LiteralView::Double(
                    signed(char_at(s, i, '-'), nearest_to(digits_value(digits), e)),
                ),
                end,
            ),
        )
    }
}

/// A character that may stand in the text of an instant.
pub open spec fn instant_char(c: char) -> bool {
    is_digit(c) || c == '-' || c == 'T' || c == ':' || c == '.'
}

/// The place after the text of an instant that begins at `i`.
pub open spec fn instant_end(s: Seq<char>, i: int) -> int
    decreases s.len() - i,
{
    if 0 <= i < s.len() && instant_char(s[i]) {
        instant_end(s, i + 1)
    } else {
        i
    }
}

/// The instant that a text stands for: a date, or a date and a time of day.
pub open spec fn instant(text: Seq<char>) -> Option<Timestamp> {
    match date_of_text(text) {
        Some(secs) => Some(Timestamp { secs, nanos: 0 }),
        None => date_time_of_text(text),
    }
}

/// The nanoseconds from the epoch to an instant.
pub open spec fn total_nanos(t: Timestamp) -> int {
    t.secs * 1_000_000_000 + t.nanos
}

/// The instant that is a duration before or after another, if it can be told.
pub open spec fn shifted(t: Timestamp, back: bool, nanos: nat) -> Option<Timestamp> {
    let total = if back {
        total_nanos(t) - nanos
    } else {
        total_nanos(t) + nanos
    };
    let secs = total / 1_000_000_000;
    if i64::MIN <= secs <= i64::MAX {
        Some(Timestamp { secs: secs as i64, nanos: (total % 1_000_000_000) as u32 })
    } else {
        None
    }
}

/// A duration with a sign before it, and blanks around the sign.
pub open spec fn offset(s: Seq<char>, i: int) -> Option<(bool, nat, int)> {
    let k = skip_blanks(s, i);
    if char_at(s, k, '+') || char_at(s, k, '-') {
        match duration(s, skip_blanks(s, k + 1)) {
            Some((nanos, end)) => Some((char_at(s, k, '-'), nanos, end)),
            None => None,
        }
    } else {
        None
    }
}

/// An instant: a text after an `@`, or the present, with or without an offset.
pub open spec fn timestamp(s: Seq<char>, i: int, now: Timestamp) -> Option<(Timestamp, int)> {
    let j = instant_end(s, i + 1);
    if !char_at(s, i, '@') {
        None
    } else if instant(s.subrange(i + 1, j)) is Some {
        Some((instant(s.subrange(i + 1, j))->Some_0, j))
    } else if at(s, i, "@now()"@) {
        match offset(s, i + 6) {
            Some((back, nanos, end)) => match shifted(now, back, nanos) {
                Some(t) => Some((t, end)),
                None => None,
            },
            None => Some((now, i + 6)),
        }
    } else {
        None
    }
}

/// The place of the next such character, at `i` or after, or the length where there is none.
pub open spec fn next_char(s: Seq<char>, i: int, c: char) -> int
    decreases s.len() - i,
{
    if 0 <= i < s.len() && s[i] != c {
        next_char(s, i + 1, c)
    } else {
        i
    }
}

/// What a quoted text stands for: a UUID, an address, or itself.
pub open spec fn quoted_value(text: Seq<char>) -> LiteralView {
    if text.len() == 36 && uuid_of_text(text) is Some {
        LiteralView::Uuid(uuid_of_text(text)->Some_0)
    } else {
        match ip_of(text) {
            Some(ip) => LiteralView::IpAddr(ip),
            None => LiteralView::Text(text),
        }
    }
}

/// A text between quotes of one kind.
pub open spec fn quoted(s: Seq<char>, i: int) -> Option<(LiteralView, int)> {
    if char_at(s, i, '"') || char_at(s, i, '\'') {
        let j = next_char(s, i + 1, s[i]);
        if j < s.len() {
            Some((quoted_value(s.subrange(i + 1, j)), j + 1))
        } else {
            None
        }
    } else {
        None
    }
}

/// A literal.
#[verifier::opaque]
pub open spec fn literal(s: Seq<char>, i: int, now: Timestamp) -> Option<(LiteralView, int)> {
    if at(s, i, "true"@) {
        Some((LiteralView::Boolean(true), i + 4))
    } else if at(s, i, "false"@) {
        Some((LiteralView::Boolean(false), i + 5))
    } else if duration(s, i) is Some {
        let (nanos, end) = duration(s, i)->Some_0;
        Some((LiteralView::Duration(nanos), end))
    } else if integer(s, i) is Some {
        let (n, end) = integer(s, i)->Some_0;
        Some((LiteralView::Integer(n), end))
    } else if double(s, i) is Some {
        double(s, i)
    } else if quoted(s, i) is Some {
        quoted(s, i)
    } else {
        match timestamp(s, i, now) {
            Some((t, end)) => Some((LiteralView::Timestamp(t), end)),
            None => None,
        }
    }
}

/// Whether a character may stand between words.
pub(crate) fn is_blank(c: char) -> (yes: bool)
    ensures
        yes == blank(c),
{
    c == ' ' || c == '\n' || c == '\t'
}

/// Skips blanks.
pub(crate) fn read_blanks(s: &Vec<char>, i: usize) -> (j: usize)
    requires
        i <= s@.len() <= MAX_CHARS,
    ensures
        j == skip_blanks(s@, i as int),
        i <= j <= s@.len(),
{
    let mut j: usize = i;
    while j < s.len() && is_blank(s[j])
        invariant
            i <= j <= s@.len(),
            skip_blanks(s@, i as int) == skip_blanks(s@, j as int),
        decreases s@.len() - j,
    {
        j = j + 1;
    }
    j
}

/// Whether a word stands at a place.
pub(crate) fn is_at(s: &Vec<char>, i: usize, word: &str) -> (yes: bool)
    requires
        i <= s@.len() <= MAX_CHARS,
    ensures
        yes == at(s@, i as int, word@),
{
    let w = chars_of(word);
    if s.len() - i < w.len() {
        return false;
    }
    let mut k: usize = 0;
    while k < w.len()
        invariant
            k <= w@.len(),
            w@ == word@,
            i + w@.len() <= s.len(),
            forall|n: int| 0 <= n < k ==> s@[i + n] == w@[n],
        decreases w@.len() - k,
    {
        if s[i + k] != w[k] {
            assert(s@.subrange(i as int, i + word@.len())[k as int] != word@[k as int]);
            return false;
        }
        k = k + 1;
    }
    assert(s@.subrange(i as int, i + word@.len()) =~= word@);
    true
}

/// Whether a character stands at a place.
pub(crate) fn has_char(s: &Vec<char>, i: usize, c: char) -> (yes: bool)
    ensures
        yes == char_at(s@, i as int, c),
{
    i < s.len() && s[i] == c
}

fn is_name_char(c: char) -> (yes: bool)
    ensures
        yes == name_char(c),
{
    ('a' <= c && c <= 'z') || ('0' <= c && c <= '9')
}

fn read_run(s: &Vec<char>, i: usize) -> (j: usize)
    requires
        i <= s@.len() <= MAX_CHARS,
    ensures
        j == run_end(s@, i as int),
        i <= j <= s@.len(),
        i < s@.len() && name_char(s@[i as int]) ==> i < j,
{
    let mut j: usize = i;
    while j < s.len() && is_name_char(s[j])
        invariant
            i <= j <= s@.len(),
            run_end(s@, i as int) == run_end(s@, j as int),
            i < s@.len() && name_char(s@[i as int]) && j == i ==> j < s@.len(),
        decreases s@.len() - j,
    {
        j = j + 1;
    }
    j
}

/// Reads a name, and gives the place after it.
pub(crate) fn read_name(s: &Vec<char>, i: usize) -> (r: Option<usize>)
    requires
        i <= s@.len() <= MAX_CHARS,
    ensures
        match r {
            Some(j) => name_end(s@, i as int) == Some(j as int) && i < j <= s@.len(),
            None => name_end(s@, i as int) is None,
        },
{
    if i >= s.len() || s[i] < 'a' || s[i] > 'z' {
        return None;
    }
    let mut from: usize = i;
    let mut j = read_run(s, i);
    while j + 1 < s.len() && s[j] == '_' && is_name_char(s[j + 1])
        invariant
            i <= from < j <= s@.len(),
            s@.len() <= MAX_CHARS,
            j == run_end(s@, from as int),
            parts_end(s@, i as int) == parts_end(s@, from as int),
        decreases s@.len() - j,
    {
        from = j + 1;
        j = read_run(s, from);
    }
    Some(j)
}

fn is_decimal(c: char) -> (yes: bool)
    ensures
        yes == is_digit(c),
{
    '0' <= c && c <= '9'
}

fn read_digits(s: &Vec<char>, i: usize) -> (j: usize)
    requires
        i <= s@.len() <= MAX_CHARS,
    ensures
        j == digits_end(s@, i as int),
        i <= j <= s@.len(),
        forall|k: int| i <= k < j ==> is_digit(#[trigger] s@[k]),
{
    let mut j: usize = i;
    while j < s.len() && is_decimal(s[j])
        invariant
            i <= j <= s@.len(),
            digits_end(s@, i as int) == digits_end(s@, j as int),
            forall|k: int| i <= k < j ==> is_digit(#[trigger] s@[k]),
        decreases s@.len() - j,
    {
        j = j + 1;
    }
    j
}

fn push_digits(s: &Vec<char>, a: usize, b: usize, out: &mut Vec<u8>)
    requires
        a <= b <= s@.len(),
        forall|k: int| a <= k < b ==> is_digit(#[trigger] s@[k]),
        forall|k: int| 0 <= k < old(out)@.len() ==> old(out)@[k] < 10,
    ensures
        final(out)@ == old(out)@ + digit_values(s@.subrange(a as int, b as int)),
        forall|k: int| 0 <= k < final(out)@.len() ==> final(out)@[k] < 10,
{
    let ghost before = out@;
    let ghost all = digit_values(s@.subrange(a as int, b as int));
    let mut i: usize = a;
    assert(before + all.take(0) =~= before);
    while i < b
        invariant
            a <= i <= b <= s@.len(),
            forall|k: int| a <= k < b ==> is_digit(#[trigger] s@[k]),
            all == digit_values(s@.subrange(a as int, b as int)),
            out@ == before + all.take(i - a),
            forall|k: int| 0 <= k < out@.len() ==> out@[k] < 10,
        decreases b - i,
    {
        let c = s[i];
        assert(is_digit(s@[i as int]));
        let d: u8 = (c as u32 - '0' as u32) as u8;
        out.push(d);
        assert(all[i - a] == d);
        assert(before + all.take(i + 1 - a) =~= (before + all.take(i - a)).push(d));
        i = i + 1;
    }
    assert(all.take(b - a) =~= all);
}

proof fn longer_is_no_less(digits: Seq<u8>, n: int)
    requires
        0 <= n <= digits.len(),
    ensures
        digits_value(digits.take(n)) <= digits_value(digits),
    decreases digits.len() - n,
{
    if n < digits.len() {
        longer_is_no_less(digits, n + 1);
        assert(digits.take(n + 1).drop_last() =~= digits.take(n));
    } else {
        assert(digits.take(n) =~= digits);
    }
}

/// The number that digits stand for, where it has 64 bits.
fn number_between(s: &Vec<char>, a: usize, b: usize) -> (r: Option<u64>)
    requires
        a <= b <= s@.len(),
        forall|k: int| a <= k < b ==> is_digit(#[trigger] s@[k]),
    ensures
        match r {
            Some(n) => n == number(s@, a as int, b as int),
            None => number(s@, a as int, b as int) > u64::MAX,
        },
{
    let ghost all = digit_values(s@.subrange(a as int, b as int));
    let mut n: u64 = 0;
    let mut i: usize = a;
    assert(all.take(0) =~= Seq::empty());
    while i < b
        invariant
            a <= i <= b <= s@.len(),
            forall|k: int| a <= k < b ==> is_digit(#[trigger] s@[k]),
            all == digit_values(s@.subrange(a as int, b as int)),
            n == digits_value(all.take(i - a)),
        decreases b - i,
    {
        let c = s[i];
        assert(is_digit(s@[i as int]));
        let d: u64 = (c as u32 - '0' as u32) as u64;
        proof {
            assert(all[i - a] == d);
            assert(all.take(i + 1 - a).drop_last() =~= all.take(i - a));
        }
        let next: u128 = n as u128 * 10 + d as u128;
        if next > 0xffff_ffff_ffff_ffff {
            proof {
                longer_is_no_less(all, i + 1 - a);
            }
            return None;
        }
        n = next as u64;
        i = i + 1;
    }
    assert(all.take(b - a) =~= all);
    Some(n)
}

fn read_sign(s: &Vec<char>, i: usize) -> (j: usize)
    requires
        i <= s@.len() <= MAX_CHARS,
    ensures
        j == sign_end(s@, i as int),
        i <= j <= s@.len(),
{
    if has_char(s, i, '-') {
        i + 1
    } else {
        i
    }
}

fn is_exponent_mark(s: &Vec<char>, i: usize) -> (yes: bool)
    ensures
        yes == exponent_mark(s@, i as int),
{
    has_char(s, i, 'e') || has_char(s, i, 'E')
}

fn read_integer_end(s: &Vec<char>, i: usize) -> (r: Option<usize>)
    requires
        i <= s@.len() <= MAX_CHARS,
    ensures
        match r {
            Some(b) => {
                &&& integer_end(s@, i as int) == Some(b as int)
                &&& sign_end(s@, i as int) < b <= s@.len()
                &&& forall|k: int| sign_end(s@, i as int) <= k < b ==> is_digit(#[trigger] s@[k])
            },
            None => integer_end(s@, i as int) is None,
        },
{
    let a = read_sign(s, i);
    let b = read_digits(s, a);
    if a < b && !is_exponent_mark(s, b) && !has_char(s, b, '.') {
        Some(b)
    } else {
        None
    }
}

fn read_integer(s: &Vec<char>, i: usize) -> (r: Option<(i128, usize)>)
    requires
        i <= s@.len() <= MAX_CHARS,
    ensures
        match r {
            Some((n, j)) => integer(s@, i as int) == Some((n as int, j as int)) && i < j <= s@.len(),
            None => integer(s@, i as int) is None,
        },
{
    let b = match read_integer_end(s, i) {
        Some(b) => b,
        None => {
            return None;
        },
    };
    let a = read_sign(s, i);
    match number_between(s, a, b) {
        Some(n) => if has_char(s, i, '-') {
            if n > 0x8000_0000_0000_0000 {
                None
            } else {
                Some((-(n as i128), b))
            }
        } else {
            Some((n as i128, b))
        },
        None => None,
    }
}

fn read_unit(s: &Vec<char>, i: usize) -> (r: Option<(u64, usize)>)
    requires
        i <= s@.len() <= MAX_CHARS,
    ensures
        match r {
            Some((n, j)) => unit(s@, i as int) == Some((n as nat, j as int)) && i < j <= s@.len(),
            None => unit(s@, i as int) is None,
        },
{
    proof {
        reveal_strlit("ms");
        reveal_strlit("us");
        reveal_strlit("ns");
    }
    if is_at(s, i, "ms") {
        Some((1_000_000, i + 2))
    } else if is_at(s, i, "us") {
        Some((1_000, i + 2))
    } else if is_at(s, i, "ns") {
        Some((1, i + 2))
    } else if has_char(s, i, 'Y') {
        Some((31_536_000_000_000_000, i + 1))
    } else if has_char(s, i, 'M') {
        Some((2_592_000_000_000_000, i + 1))
    } else if has_char(s, i, 'w') {
        Some((604_800_000_000_000, i + 1))
    } else if has_char(s, i, 'd') {
        Some((86_400_000_000_000, i + 1))
    } else if has_char(s, i, 'h') {
        Some((3_600_000_000_000, i + 1))
    } else if has_char(s, i, 'm') {
        Some((60_000_000_000, i + 1))
    } else if has_char(s, i, 's') {
        Some((1_000_000_000, i + 1))
    } else {
        None
    }
}

fn read_duration(s: &Vec<char>, i: usize) -> (r: Option<(u128, usize)>)
    requires
        i <= s@.len() <= MAX_CHARS,
    ensures
        match r {
            Some((n, j)) => {
                &&& duration(s@, i as int) == Some((n as nat, j as int))
                &&& i < j <= s@.len()
                &&& n <= 0x2_0000_0000_0000_0000_0000_0000
            },
            None => duration(s@, i as int) is None,
        },
{
    let b = match read_integer_end(s, i) {
        Some(b) => b,
        None => {
            return None;
        },
    };
    if has_char(s, i, '-') {
        return None;
    }
    match number_between(s, i, b) {
        Some(n) => {
            if n > 0xffff_ffff {
                return None;
            }
            match read_unit(s, b) {
                Some((nanos, end)) => {
                    proof {
                        assert(unit(s@, b as int)->Some_0.0 <= 31_536_000_000_000_000);
                        assert(n as int * nanos as int <= 0xffff_ffff * 31_536_000_000_000_000)
                            by (nonlinear_arith)
                            requires
                                n <= 0xffff_ffff,
                                nanos <= 31_536_000_000_000_000,
                        ;
                        assert(0 <= n as int * nanos as int) by (nonlinear_arith);
                    }
                    Some((n as u128 * nanos as u128, end))
                },
                None => None,
            }
        },
        None => None,
    }
}

proof fn nearest_to_is(m: nat, e: int, bits: nat)
    requires
        nearest_decimal(m, e, bits),
    ensures
        nearest_to(m, e) == bits,
{
    let chosen = nearest_to(m, e);
    assert(nearest_decimal(m, e, chosen));
    power_of_ten_is_positive((-e) as nat);
    if e >= 0 {
        nearest_is_unique(m * power(10, e as nat), 1, chosen, bits);
    } else {
        nearest_is_unique(m, power(10, (-e) as nat), chosen, bits);
    }
}

proof fn power_of_ten_is_positive(n: nat)
    ensures
        power(10, n) > 0,
    decreases n,
{
    if n > 0 {
        power_of_ten_is_positive((n - 1) as nat);
    }
}

fn read_double(s: &Vec<char>, i: usize) -> (r: Option<(Literal, usize)>)
    requires
        i <= s@.len() <= MAX_CHARS,
    ensures
        match r {
            Some((x, j)) => double(s@, i as int) == Some((literal_view(x), j as int)) && i < j
                <= s@.len(),
            None => double(s@, i as int) is None,
        },
{
    let a = read_sign(s, i);
    let b = read_digits(s, a);
    let mut digits: Vec<u8> = Vec::new();
    push_digits(s, a, b, &mut digits);
    let mut c: usize = b;
    let mut places: usize = 0;
    if has_char(s, b, '.') {
        c = read_digits(s, b + 1);
        places = c - b - 1;
        push_digits(s, b + 1, c, &mut digits);
    }
    assert(digits@ =~= all_digits(s@, a as int, b as int, c as int));
    if digits.len() == 0 {
        return None;
    }
    let mut negative = false;
    let mut exponent: Vec<u8> = Vec::new();
    let mut end: usize = c;
    assert(digits_value(exponent@) == 0);
    if is_exponent_mark(s, c) {
        let p = read_sign(s, c + 1);
        let r = read_digits(s, p);
        if p < r {
            negative = has_char(s, c + 1, '-');
            push_digits(s, p, r, &mut exponent);
            assert(exponent@ =~= digit_values(s@.subrange(p as int, r as int)));
            end = r;
        }
    }
    let bits = decimal_bits(&digits, places, negative, &exponent);
    proof {
        nearest_to_is(
            digits_value(digits@),
            decimal_exponent(places as nat, negative, digits_value(exponent@)),
            bits as nat,
        );
    }
    Some((Literal::Double(with_sign(has_char(s, i, '-'), bits)), end))
}

fn is_instant_char(c: char) -> (yes: bool)
    ensures
        yes == instant_char(c),
{
    is_decimal(c) || c == '-' || c == 'T' || c == ':' || c == '.'
}

fn shift_instant(t: &Timestamp, back: bool, nanos: u128) -> (r: Option<Timestamp>)
    requires
        nanos <= 0x2_0000_0000_0000_0000_0000_0000,
    ensures
        r == shifted(*t, back, nanos as nat),
{
    let total: i128 = t.secs as i128 * 1_000_000_000 + t.nanos as i128;
    let moved: i128 = if back {
        total - nanos as i128
    } else {
        total + nanos as i128
    };
    let mut secs: i128 = moved / 1_000_000_000;
    let mut rest: i128 = moved % 1_000_000_000;
    if rest < 0 {
        secs = secs - 1;
        rest = rest + 1_000_000_000;
    }
    assert(secs == moved as int / 1_000_000_000 && rest == moved as int % 1_000_000_000) by {
        assert(moved == secs * 1_000_000_000 + rest);
    }
    if -0x8000_0000_0000_0000 <= secs && secs <= 0x7fff_ffff_ffff_ffff {
        Some(Timestamp { secs: secs as i64, nanos: rest as u32 })
    } else {
        None
    }
}

fn read_offset(s: &Vec<char>, i: usize) -> (r: Option<(bool, u128, usize)>)
    requires
        i <= s@.len() <= MAX_CHARS,
    ensures
        match r {
            Some((back, n, j)) => {
                &&& offset(s@, i as int) == Some((back, n as nat, j as int))
                &&& i < j <= s@.len()
                &&& n <= 0x2_0000_0000_0000_0000_0000_0000
            },
            None => offset(s@, i as int) is None,
        },
{
    let k = read_blanks(s, i);
    if has_char(s, k, '+') || has_char(s, k, '-') {
        let from = read_blanks(s, k + 1);
        match read_duration(s, from) {
            Some((nanos, end)) => Some((has_char(s, k, '-'), nanos, end)),
            None => None,
        }
    } else {
        None
    }
}

fn read_timestamp(s: &Vec<char>, i: usize, now: &Timestamp) -> (r: Option<(Timestamp, usize)>)
    requires
        i <= s@.len() <= MAX_CHARS,
    ensures
        match r {
            Some((t, j)) => timestamp(s@, i as int, *now) == Some((t, j as int)) && i < j
                <= s@.len(),
            None => timestamp(s@, i as int, *now) is None,
        },
{
    if !has_char(s, i, '@') {
        return None;
    }
    let mut j: usize = i + 1;
    while j < s.len() && is_instant_char(s[j])
        invariant
            i + 1 <= j <= s@.len(),
            instant_end(s@, i + 1) == instant_end(s@, j as int),
        decreases s@.len() - j,
    {
        j = j + 1;
    }
    let text = string_of(s, i + 1, j);
    if let Some(secs) = parse_date(text.as_str()) {
        return Some((Timestamp { secs, nanos: 0 }, j));
    }
    if let Some(t) = parse_date_time(text.as_str()) {
        return Some((t, j));
    }
    proof {
        reveal_strlit("@now()");
    }
    if is_at(s, i, "@now()") {
        match read_offset(s, i + 6) {
            Some((back, nanos, end)) => match shift_instant(now, back, nanos) {
                Some(t) => Some((t, end)),
                None => None,
            },
            None => Some((*now, i + 6)),
        }
    } else {
        None
    }
}

fn read_quoted(s: &Vec<char>, i: usize) -> (r: Option<(Literal, usize)>)
    requires
        i <= s@.len() <= MAX_CHARS,
    ensures
        match r {
            Some((x, j)) => quoted(s@, i as int) == Some((literal_view(x), j as int)) && i < j
                <= s@.len(),
            None => quoted(s@, i as int) is None,
        },
{
    if !(has_char(s, i, '"') || has_char(s, i, '\'')) {
        return None;
    }
    let quote = s[i];
    let mut j: usize = i + 1;
    while j < s.len() && s[j] != quote
        invariant
            i + 1 <= j <= s@.len(),
            next_char(s@, i + 1, quote) == next_char(s@, j as int, quote),
        decreases s@.len() - j,
    {
        j = j + 1;
    }
    if j >= s.len() {
        return None;
    }
    let text = string_of(s, i + 1, j);
    if j - (i + 1) == 36 {
        if let Some(id) = parse_uuid(text.as_str()) {
            return Some((Literal::Uuid(id), j + 1));
        }
    }
    match read_ip(s, i + 1, j) {
        Some(ip) => Some((Literal::IpAddr(ip), j + 1)),
        None => Some((Literal::String(text), j + 1)),
    }
}

/// Reads a literal.
pub(crate) fn read_literal(s: &Vec<char>, i: usize, now: &Timestamp) -> (r: Option<(Literal, usize)>)
    requires
        i <= s@.len() <= MAX_CHARS,
    ensures
        match r {
            Some((x, j)) => literal(s@, i as int, *now) == Some((literal_view(x), j as int)) && i < j
                <= s@.len(),
            None => literal(s@, i as int, *now) is None,
        },
{
    proof {
        reveal(literal);
        reveal_strlit("true");
        reveal_strlit("false");
    }
    if is_at(s, i, "true") {
        return Some((Literal::Boolean(true), i + 4));
    }
    if is_at(s, i, "false") {
        return Some((Literal::Boolean(false), i + 5));
    }
    if let Some((nanos, end)) = read_duration(s, i) {
        return Some((Literal::Duration(nanos), end));
    }
    if let Some((n, end)) = read_integer(s, i) {
        return Some((Literal::Integer(n), end));
    }
    if let Some(r) = read_double(s, i) {
        return Some(r);
    }
    if let Some(r) = read_quoted(s, i) {
        return Some(r);
    }
    match read_timestamp(s, i, now) {
        Some((t, end)) => Some((Literal::Timestamp(t), end)),
        None => None,
    }
}

} // verus!
