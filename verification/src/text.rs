//! Text: comparing, splitting and building strings.

use vstd::prelude::*;

verus! {

/// How one value is ordered against another.
#[derive(Debug, Clone, Copy, PartialEq, Eq, Structural)]
pub enum Order {
    Less,
    Equal,
    Greater,
}

/// `a` stands before `b` in lexicographic order of their characters.
pub open spec fn seq_lt(a: Seq<char>, b: Seq<char>) -> bool
    decreases a.len(),
{
    if b.len() == 0 {
        false
    } else if a.len() == 0 {
        true
    } else if a[0] != b[0] {
        a[0] < b[0]
    } else {
        seq_lt(a.drop_first(), b.drop_first())
    }
}

/// The order of `a` against `b`.
pub open spec fn seq_order(a: Seq<char>, b: Seq<char>) -> Order {
    if a == b {
        Order::Equal
    } else if seq_lt(a, b) {
        Order::Less
    } else {
        Order::Greater
    }
}

/// `prefix` stands at the start of `s`.
pub open spec fn has_prefix(s: Seq<char>, prefix: Seq<char>) -> bool {
    prefix.len() <= s.len() && s.take(prefix.len() as int) == prefix
}

/// The characters of a string.
pub fn chars_of(s: &str) -> (v: Vec<char>)
    ensures
        v@ == s@,
{
    let mut v: Vec<char> = Vec::new();
    for c in it: s.chars()
        invariant
            it.seq() == s@,
            v@ == it.seq().take(it.index() as int),
    {
        v.push(c);
    }
    v
}

/// Whether two strings hold the same characters.
pub fn str_eq(a: &str, b: &str) -> (same: bool)
    ensures
        same == (a@ == b@),
{
    order_of(a, b) == Order::Equal
}

/// Compares two character sequences from position `i` on.
fn order_from(a: &Vec<char>, b: &Vec<char>, i: usize) -> (order: Order)
    requires
        i <= a@.len(),
        i <= b@.len(),
    ensures
        order == seq_order(a@.skip(i as int), b@.skip(i as int)),
    decreases a@.len() - i,
{
    let ghost x = a@.skip(i as int);
    let ghost y = b@.skip(i as int);
    if i == a.len() && i == b.len() {
        assert(x =~= y);
        Order::Equal
    } else if i == a.len() {
        assert(x.len() != y.len());
        Order::Less
    } else if i == b.len() {
        assert(x.len() != y.len());
        Order::Greater
    } else if a[i] == b[i] {
        proof {
            assert(x.drop_first() =~= a@.skip(i + 1));
            assert(y.drop_first() =~= b@.skip(i + 1));
            if x.drop_first() == y.drop_first() {
                assert(x =~= seq![x[0]] + x.drop_first());
                assert(y =~= seq![y[0]] + y.drop_first());
            }
        }
        order_from(a, b, i + 1)
    } else {
        assert(x[0] != y[0]);
        if a[i] < b[i] {
            Order::Less
        } else {
            Order::Greater
        }
    }
}

/// The lexicographic order of one string against another.
pub fn order_of(a: &str, b: &str) -> (order: Order)
    ensures
        order == seq_order(a@, b@),
{
    let x = chars_of(a);
    let y = chars_of(b);
    assert(x@.skip(0) =~= x@);
    assert(y@.skip(0) =~= y@);
    order_from(&x, &y, 0)
}

/// The order of sequences is total: exactly one of the three relations holds.
pub proof fn seq_lt_is_total(a: Seq<char>, b: Seq<char>)
    ensures
        a == b <==> !seq_lt(a, b) && !seq_lt(b, a),
        !(seq_lt(a, b) && seq_lt(b, a)),
    decreases a.len(),
{
    if a.len() > 0 && b.len() > 0 {
        if a[0] == b[0] {
            seq_lt_is_total(a.drop_first(), b.drop_first());
            if a.drop_first() == b.drop_first() {
                assert(a =~= seq![a[0]] + a.drop_first());
                assert(b =~= seq![b[0]] + b.drop_first());
            }
        }
    } else if a.len() == 0 && b.len() == 0 {
        assert(a =~= b);
    }
}

/// The order of sequences is transitive.
pub proof fn seq_lt_is_transitive(a: Seq<char>, b: Seq<char>, c: Seq<char>)
    requires
        seq_lt(a, b),
        seq_lt(b, c),
    ensures
        seq_lt(a, c),
    decreases a.len(),
{
    if a.len() > 0 && b.len() > 0 && c.len() > 0 && a[0] == b[0] && b[0] == c[0] {
        seq_lt_is_transitive(a.drop_first(), b.drop_first(), c.drop_first());
    }
}

/// `a` stands before `b` in lexicographic order of their texts.
pub open spec fn texts_lt(a: Seq<Seq<char>>, b: Seq<Seq<char>>) -> bool
    decreases a.len(),
{
    if b.len() == 0 {
        false
    } else if a.len() == 0 {
        true
    } else if a[0] != b[0] {
        seq_lt(a[0], b[0])
    } else {
        texts_lt(a.drop_first(), b.drop_first())
    }
}

/// The order of lists of texts is total.
pub proof fn texts_lt_is_total(a: Seq<Seq<char>>, b: Seq<Seq<char>>)
    ensures
        a == b <==> !texts_lt(a, b) && !texts_lt(b, a),
        !(texts_lt(a, b) && texts_lt(b, a)),
    decreases a.len(),
{
    if a.len() > 0 && b.len() > 0 {
        seq_lt_is_total(a[0], b[0]);
        if a[0] == b[0] {
            texts_lt_is_total(a.drop_first(), b.drop_first());
            if a.drop_first() == b.drop_first() {
                assert(a =~= seq![a[0]] + a.drop_first());
                assert(b =~= seq![b[0]] + b.drop_first());
            }
        }
    } else if a.len() == 0 && b.len() == 0 {
        assert(a =~= b);
    }
}

/// The order of lists of texts is transitive.
pub proof fn texts_lt_is_transitive(a: Seq<Seq<char>>, b: Seq<Seq<char>>, c: Seq<Seq<char>>)
    requires
        texts_lt(a, b),
        texts_lt(b, c),
    ensures
        texts_lt(a, c),
    decreases a.len(),
{
    if a.len() > 0 && b.len() > 0 && c.len() > 0 {
        if a[0] == b[0] && b[0] == c[0] {
            texts_lt_is_transitive(a.drop_first(), b.drop_first(), c.drop_first());
        } else if a[0] != b[0] && b[0] != c[0] {
            seq_lt_is_transitive(a[0], b[0], c[0]);
            seq_lt_is_total(a[0], c[0]);
        }
    }
}

/// Whether `s` starts with `prefix`.
pub fn starts_with(s: &str, prefix: &str) -> (yes: bool)
    ensures
        yes == has_prefix(s@, prefix@),
{
    let x = chars_of(s);
    let y = chars_of(prefix);
    if y.len() > x.len() {
        return false;
    }
    let mut i: usize = 0;
    while i < y.len()
        invariant
            i <= y@.len() <= x@.len(),
            x@ == s@,
            y@ == prefix@,
            forall|k: int| 0 <= k < i ==> x@[k] == y@[k],
        decreases y@.len() - i,
    {
        if x[i] != y[i] {
            assert(s@.take(prefix@.len() as int)[i as int] != prefix@[i as int]);
            return false;
        }
        i = i + 1;
    }
    assert(s@.take(prefix@.len() as int) =~= prefix@);
    true
}

/// The string of `a` followed by `b`.
pub fn joined(a: &str, b: &str) -> (s: String)
    ensures
        s@ == a@ + b@,
{
    let mut s = a.to_owned();
    s.append(b);
    s
}

/// `String::push` puts the character at the end of the string.
pub assume_specification[ std::string::String::push ](s: &mut std::string::String, c: char)
    ensures
        final(s)@ == old(s)@.push(c),
;

/// The string of the given characters.
pub fn string_of(chars: &Vec<char>, from: usize, to: usize) -> (s: String)
    requires
        from <= to <= chars@.len(),
    ensures
        s@ == chars@.subrange(from as int, to as int),
{
    let mut s = String::new();
    let mut i: usize = from;
    while i < to
        invariant
            from <= i <= to <= chars@.len(),
            s@ == chars@.subrange(from as int, i as int),
        decreases to - i,
    {
        s.push(chars[i]);
        i = i + 1;
        assert(s@ =~= chars@.subrange(from as int, i as int));
    }
    s
}

/// The character is white space, as Unicode has it.
pub open spec fn white_space(c: char) -> bool {
    ||| '\u{9}' <= c <= '\u{d}'
    ||| c == '\u{20}'
    ||| c == '\u{85}'
    ||| c == '\u{a0}'
    ||| c == '\u{1680}'
    ||| '\u{2000}' <= c <= '\u{200a}'
    ||| c == '\u{2028}'
    ||| c == '\u{2029}'
    ||| c == '\u{202f}'
    ||| c == '\u{205f}'
    ||| c == '\u{3000}'
}

/// Whether a character is white space, as Unicode has it.
pub fn is_white_space(c: char) -> (yes: bool)
    ensures
        yes == white_space(c),
{
    ('\u{9}' <= c && c <= '\u{d}') || c == '\u{20}' || c == '\u{85}' || c == '\u{a0}' || c
        == '\u{1680}' || ('\u{2000}' <= c && c <= '\u{200a}') || c == '\u{2028}' || c == '\u{2029}'
        || c == '\u{202f}' || c == '\u{205f}' || c == '\u{3000}'
}

/// The text without the white space before it.
pub open spec fn trimmed_front(s: Seq<char>) -> Seq<char>
    decreases s.len(),
{
    if s.len() > 0 && white_space(s[0]) {
        trimmed_front(s.skip(1))
    } else {
        s
    }
}

/// The text without the white space behind it.
pub open spec fn trimmed_back(s: Seq<char>) -> Seq<char>
    decreases s.len(),
{
    if s.len() > 0 && white_space(s.last()) {
        trimmed_back(s.drop_last())
    } else {
        s
    }
}

/// The text without the white space around it.
pub open spec fn trimmed(s: Seq<char>) -> Seq<char> {
    trimmed_back(trimmed_front(s))
}

/// The characters of a text without the white space around it.
pub fn trimmed_chars(s: &str) -> (r: Vec<char>)
    ensures
        r@ == trimmed(s@),
{
    let all = chars_of(s);
    let mut from: usize = 0;
    assert(all@.skip(0) =~= all@);
    while from < all.len() && is_white_space(all[from])
        invariant
            from <= all@.len(),
            trimmed_front(all@) == trimmed_front(all@.skip(from as int)),
        decreases all@.len() - from,
    {
        assert(all@.skip(from as int)[0] == all@[from as int]);
        assert(all@.skip(from as int).skip(1) =~= all@.skip(from + 1));
        from = from + 1;
    }
    let mut to: usize = all.len();
    proof {
        if from < all@.len() {
            assert(all@.skip(from as int)[0] == all@[from as int]);
        }
        assert(all@.skip(from as int) =~= all@.subrange(from as int, to as int));
    }
    while to > from && is_white_space(all[to - 1])
        invariant
            from <= to <= all@.len(),
            trimmed(all@) == trimmed_back(all@.subrange(from as int, to as int)),
        decreases to,
    {
        assert(all@.subrange(from as int, to as int).last() == all@[to - 1]);
        assert(all@.subrange(from as int, to as int).drop_last() =~= all@.subrange(
            from as int,
            to - 1,
        ));
        to = to - 1;
    }
    proof {
        let rest = all@.subrange(from as int, to as int);
        if to > from {
            assert(rest.last() == all@[to - 1]);
        }
    }
    let mut r: Vec<char> = Vec::new();
    let mut i: usize = from;
    while i < to
        invariant
            from <= i <= to <= all@.len(),
            r@ == all@.subrange(from as int, i as int),
        decreases to - i,
    {
        r.push(all[i]);
        i = i + 1;
        assert(r@ =~= all@.subrange(from as int, i as int));
    }
    r
}

/// The number of bytes of a character in UTF-8.
pub open spec fn char_bytes(c: char) -> nat {
    if (c as u32) < 0x80 {
        1
    } else if (c as u32) < 0x800 {
        2
    } else if (c as u32) < 0x1_0000 {
        3
    } else {
        4
    }
}

/// The number of bytes of a text in UTF-8.
pub open spec fn text_bytes(s: Seq<char>) -> nat
    decreases s.len(),
{
    if s.len() == 0 {
        0
    } else {
        text_bytes(s.drop_last()) + char_bytes(s.last())
    }
}

proof fn bytes_grow(s: Seq<char>, n: int)
    requires
        0 <= n <= s.len(),
    ensures
        text_bytes(s.take(n)) + (s.len() - n) <= text_bytes(s),
    decreases s.len() - n,
{
    if n < s.len() {
        bytes_grow(s, n + 1);
        assert(s.take(n + 1).drop_last() =~= s.take(n));
    } else {
        assert(s.take(n) =~= s);
    }
}

/// Whether a text has at most `limit` bytes. Each character has one at least.
pub fn fits_in_bytes(s: &Vec<char>, limit: usize) -> (yes: bool)
    requires
        limit <= 0xffff_ffff - 4,
    ensures
        yes == (text_bytes(s@) <= limit),
        yes ==> s@.len() <= limit,
{
    let mut n: usize = 0;
    let mut i: usize = 0;
    assert(s@.take(0) =~= Seq::empty());
    while i < s.len()
        invariant
            i <= s@.len(),
            limit <= 0xffff_ffff - 4,
            n == text_bytes(s@.take(i as int)),
            n <= limit,
        decreases s@.len() - i,
    {
        let c = s[i] as u32;
        let bytes: usize = if c < 0x80 {
            1
        } else if c < 0x800 {
            2
        } else if c < 0x1_0000 {
            3
        } else {
            4
        };
        n = n + bytes;
        proof {
            assert(s@.take(i + 1).drop_last() =~= s@.take(i as int));
            bytes_grow(s@, i + 1);
        }
        if n > limit {
            return false;
        }
        i = i + 1;
    }
    proof {
        assert(s@.take(i as int) =~= s@);
        bytes_grow(s@, 0);
    }
    true
}

/// The texts of a list of strings.
pub open spec fn texts(strings: Seq<String>) -> Seq<Seq<char>> {
    strings.map_values(|s: String| s@)
}

/// No text stands before one that comes earlier.
pub open spec fn in_text_order(texts: Seq<Seq<char>>) -> bool {
    forall|i: int, j: int|
        0 <= i < j < texts.len() ==> !seq_lt(#[trigger] texts[j], #[trigger] texts[i])
}

proof fn not_after_is_transitive(a: Seq<char>, b: Seq<char>, c: Seq<char>)
    requires
        !seq_lt(b, a),
        !seq_lt(c, b),
    ensures
        !seq_lt(c, a),
{
    seq_lt_is_total(a, b);
    seq_lt_is_total(b, c);
    seq_lt_is_total(a, c);
    if seq_lt(c, a) && seq_lt(a, b) {
        seq_lt_is_transitive(c, a, b);
    }
}

fn insert_in_order(sorted: &mut Vec<String>, s: String)
    requires
        in_text_order(texts(old(sorted)@)),
    ensures
        in_text_order(texts(final(sorted)@)),
        texts(final(sorted)@).to_multiset() == texts(old(sorted)@).to_multiset().insert(s@),
{
    let ghost before = texts(sorted@);
    let mut at: usize = sorted.len();
    let mut done = false;
    while at > 0 && !done
        invariant
            at <= sorted@.len(),
            before == texts(sorted@),
            in_text_order(before),
            forall|k: int| at <= k < before.len() ==> seq_lt(s@, #[trigger] before[k]),
            done ==> at > 0 && !seq_lt(s@, before[at - 1]),
        decreases at as int + (if done { 0int } else { 1int }),
    {
        assert(before[at - 1] == sorted@[at - 1]@);
        match order_of(s.as_str(), sorted[at - 1].as_str()) {
            Order::Less => {
                at = at - 1;
            },
            _ => {
                proof {
                    seq_lt_is_total(s@, before[at - 1]);
                }
                done = true;
            },
        }
    }
    let ghost text = s@;
    sorted.insert(at, s);
    proof {
        let after = texts(sorted@);
        assert(after =~= before.insert(at as int, text));
        vstd::seq_lib::to_multiset_insert(before, at as int, text);
        assert forall|i: int, j: int| 0 <= i < j < after.len() implies !seq_lt(
            #[trigger] after[j],
            #[trigger] after[i],
        ) by {
            if i < at && j == at {
                assert(after[i] == before[i]);
                if i < at - 1 {
                    assert(!seq_lt(before[at - 1], before[i]));
                    not_after_is_transitive(before[i], before[at - 1], text);
                }
            } else if i == at {
                assert(after[j] == before[j - 1]);
                seq_lt_is_total(text, before[j - 1]);
            } else {
                let i0 = if i < at { i } else { i - 1 };
                let j0 = if j < at { j } else { j - 1 };
                assert(after[i] == before[i0] && after[j] == before[j0]);
            }
        }
    }
}

/// The strings in the order of their texts.
pub fn sorted_texts(strings: Vec<String>) -> (r: Vec<String>)
    ensures
        in_text_order(texts(r@)),
        texts(r@).to_multiset() == texts(strings@).to_multiset(),
{
    let mut strings = strings;
    let ghost all = texts(strings@);
    let mut r: Vec<String> = Vec::new();
    proof {
        broadcast use vstd::seq_lib::group_to_multiset_ensures;

        assert(texts(r@) =~= Seq::empty());
        assert(texts(r@).to_multiset().len() == 0);
        assert(texts(r@).to_multiset().add(all.to_multiset()) =~= all.to_multiset());
    }
    while strings.len() > 0
        invariant
            in_text_order(texts(r@)),
            texts(r@).to_multiset().add(texts(strings@).to_multiset()) == all.to_multiset(),
        decreases strings@.len(),
    {
        let ghost rest = texts(strings@);
        let ghost sorted = texts(r@);
        match strings.pop() {
            Some(s) => {
                proof {
                    assert(rest =~= texts(strings@).push(s@));
                    vstd::seq_lib::to_multiset_build(texts(strings@), s@);
                }
                insert_in_order(&mut r, s);
                proof {
                    assert(texts(r@).to_multiset().add(texts(strings@).to_multiset())
                        =~= sorted.to_multiset().add(rest.to_multiset()));
                }
            },
            None => {},
        }
    }
    proof {
        broadcast use vstd::seq_lib::group_to_multiset_ensures;

        assert(texts(strings@) =~= Seq::empty());
        assert(texts(strings@).to_multiset().len() == 0);
        assert(texts(r@).to_multiset().add(texts(strings@).to_multiset())
            =~= texts(r@).to_multiset());
    }
    r
}

/// The character of a decimal digit.
pub open spec fn digit_char(d: int) -> char {
    ((48 + d) as u8) as char
}

/// A natural number in decimal, without leading zeros.
pub open spec fn decimal(n: nat) -> Seq<char>
    decreases n,
{
    if n < 10 {
        seq![digit_char(n as int)]
    } else {
        decimal(n / 10).push(digit_char((n % 10) as int))
    }
}

/// A number in decimal.
pub fn decimal_of(n: u64) -> (s: String)
    ensures
        s@ == decimal(n as nat),
    decreases n,
{
    let digit: u8 = 48 + (n % 10) as u8;
    if n < 10 {
        let mut s = String::new();
        s.push(digit as char);
        s
    } else {
        let mut s = decimal_of(n / 10);
        s.push(digit as char);
        s
    }
}

/// A text has a prefix if and only if it is the prefix with something behind it.
pub proof fn prefixes_come_first(s: Seq<char>, prefix: Seq<char>)
    ensures
        has_prefix(s, prefix) <==> exists|rest: Seq<char>| s == #[trigger] (prefix + rest),
{
    if has_prefix(s, prefix) {
        let rest = s.skip(prefix.len() as int);
        assert(s =~= prefix + rest);
    }
    if exists|rest: Seq<char>| s == #[trigger] (prefix + rest) {
        let rest = choose|rest: Seq<char>| s == #[trigger] (prefix + rest);
        assert((prefix + rest).take(prefix.len() as int) =~= prefix);
    }
}

/// White space is all that is trimmed, and all of it at both ends is.
pub proof fn only_white_space_is_trimmed(s: Seq<char>) -> (r: (Seq<char>, Seq<char>))
    ensures
        s == r.0 + trimmed(s) + r.1,
        forall|i: int| 0 <= i < r.0.len() ==> white_space(#[trigger] r.0[i]),
        forall|i: int| 0 <= i < r.1.len() ==> white_space(#[trigger] r.1[i]),
        trimmed(s).len() > 0 ==> !white_space(trimmed(s)[0]) && !white_space(trimmed(s).last()),
{
    let front = white_front(s);
    let middle = trimmed_front(s);
    let back = white_back(middle);
    assert(s =~= front + trimmed_back(middle) + back);
    (front, back)
}

proof fn white_front(s: Seq<char>) -> (front: Seq<char>)
    ensures
        s == front + trimmed_front(s),
        forall|i: int| 0 <= i < front.len() ==> white_space(#[trigger] front[i]),
        trimmed_front(s).len() > 0 ==> !white_space(trimmed_front(s)[0]),
    decreases s.len(),
{
    if s.len() > 0 && white_space(s[0]) {
        let front = white_front(s.skip(1));
        let whole = seq![s[0]] + front;
        assert(s =~= seq![s[0]] + s.skip(1));
        assert(seq![s[0]] + (front + trimmed_front(s)) =~= whole + trimmed_front(s));
        assert forall|i: int| 0 <= i < whole.len() implies white_space(#[trigger] whole[i]) by {
            if i > 0 {
                assert(whole[i] == front[i - 1]);
            }
        }
        whole
    } else {
        assert(s =~= Seq::empty() + s);
        Seq::empty()
    }
}

proof fn white_back(s: Seq<char>) -> (back: Seq<char>)
    ensures
        s == trimmed_back(s) + back,
        forall|i: int| 0 <= i < back.len() ==> white_space(#[trigger] back[i]),
        trimmed_back(s).len() > 0 ==> !white_space(trimmed_back(s).last()) && trimmed_back(s)[0]
            == s[0],
    decreases s.len(),
{
    if s.len() > 0 && white_space(s.last()) {
        let back = white_back(s.drop_last());
        let whole = back.push(s.last());
        assert(s =~= s.drop_last().push(s.last()));
        assert((trimmed_back(s) + back).push(s.last()) =~= trimmed_back(s) + whole);
        assert forall|i: int| 0 <= i < whole.len() implies white_space(#[trigger] whole[i]) by {
            if i < back.len() {
                assert(whole[i] == back[i]);
            }
        }
        whole
    } else {
        assert(s =~= s + Seq::empty());
        Seq::empty()
    }
}

/// The number that decimal digits stand for.
pub open spec fn value_of_digits(s: Seq<char>) -> nat
    decreases s.len(),
{
    if s.len() == 0 {
        0
    } else {
        value_of_digits(s.drop_last()) * 10 + (s.last() as nat - '0' as nat) as nat
    }
}

/// A number in decimal is made of digits, stands for the number, and begins with a zero only where
/// the number is zero.
pub proof fn decimal_stands_for_the_number(n: nat)
    ensures
        decimal(n).len() > 0,
        forall|i: int| 0 <= i < decimal(n).len() ==> '0' <= #[trigger] decimal(n)[i] <= '9',
        value_of_digits(decimal(n)) == n,
        decimal(n)[0] == '0' <==> n == 0,
    decreases n,
{
    reveal_with_fuel(value_of_digits, 2);
    let s = decimal(n);
    if n >= 10 {
        decimal_stands_for_the_number(n / 10);
        assert(s.drop_last() =~= decimal(n / 10));
        assert(s[0] == decimal(n / 10)[0]);
    } else {
        assert(s.drop_last() =~= Seq::empty());
    }
}

/// A text takes as many bytes as its characters take: one for those of ASCII, and up to four for the
/// others.
pub proof fn bytes_of_a_text_add_up(a: Seq<char>, b: Seq<char>, c: char)
    ensures
        text_bytes(a + b) == text_bytes(a) + text_bytes(b),
        text_bytes(seq![c]) == char_bytes(c),
        c <= '\u{7f}' ==> char_bytes(c) == 1,
        '\u{80}' <= c <= '\u{7ff}' ==> char_bytes(c) == 2,
        '\u{800}' <= c <= '\u{ffff}' ==> char_bytes(c) == 3,
        '\u{10000}' <= c ==> char_bytes(c) == 4,
    decreases b.len(),
{
    reveal_with_fuel(text_bytes, 2);
    assert(seq![c].drop_last() =~= Seq::empty());
    if b.len() > 0 {
        bytes_of_a_text_add_up(a, b.drop_last(), c);
        assert((a + b).drop_last() =~= a + b.drop_last());
        assert((a + b).last() == b.last());
    } else {
        assert(a + b =~= a);
    }
}

/// The white space of ASCII is the blank, and the tabs, line feeds and the like from 9 to 13. Beyond
/// it are the next line and the blank that does not break a line, and in the other planes the blanks
/// of their scripts, and the separators of lines and paragraphs.
pub proof fn white_space_is_known_by_its_numbers(c: char)
    ensures
        (c as int) < 128 ==> (white_space(c) <==> c as int == 32 || 9 <= c as int <= 13),
        128 <= c as int <= 255 ==> (white_space(c) <==> c as int == 133 || c as int == 160),
        256 <= c as int ==> (white_space(c) <==> c as int == 5760 || 8192 <= c as int <= 8202 || c
            as int == 8232 || c as int == 8233 || c as int == 8239 || c as int == 8287 || c as int
            == 12288),
{
}

} // verus!
