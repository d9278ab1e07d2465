//! What the texts of addresses stand for.

use vstd::prelude::*;

use crate::net::IpAddr;
use crate::oxql::ip::{
    decimal_number, digit, first_gap, first_index, groups_value, hex_digit, hex_group, hex_groups,
    hex_number, ip_of, octet, octets, pow256, side, v6_groups, zeros,
};
use crate::text::{decimal, decimal_stands_for_the_number, digit_char};

verus! {

proof fn digits_are_digits(n: nat)
    ensures
        decimal_number(decimal(n)) == Some(n),
    decreases n,
{
    reveal_with_fuel(decimal_number, 2);
    let s = decimal(n);
    if n >= 10 {
        digits_are_digits(n / 10);
        assert(s.drop_last() =~= decimal(n / 10));
    } else {
        assert(s.drop_last() =~= Seq::empty());
    }
}

proof fn small_numbers_are_short(n: nat)
    requires
        n <= 255,
    ensures
        1 <= decimal(n).len() <= 3,
        n < 10 ==> decimal(n).len() == 1,
{
    reveal_with_fuel(decimal, 4);
}

/// A byte is read from its decimal, and from no other text.
pub proof fn bytes_are_read_in_decimal(n: nat, s: Seq<char>)
    ensures
        n <= 255 ==> octet(decimal(n)) == Some(n),
        octet(s) == Some(n) ==> n <= 255 && s == decimal(n),
{
    if n <= 255 {
        digits_are_digits(n);
        small_numbers_are_short(n);
        decimal_stands_for_the_number(n);
    }
    if octet(s) == Some(n) {
        reveal_with_fuel(decimal_number, 4);
        reveal_with_fuel(decimal, 4);
        let t = s.drop_last();
        let u = t.drop_last();
        if s.len() == 1 {
            assert(s =~= seq![digit_char(n as int)]);
        } else if s.len() == 2 {
            assert(t[0] == s[0]);
            let d0 = digit(s[0])->0;
            let d1 = digit(s[1])->0;
            assert(decimal_number(t) == Some(d0));
            assert(n == d0 * 10 + d1);
            assert(d0 > 0);
            assert(n / 10 == d0 && n % 10 == d1);
            assert(s =~= seq![digit_char(d0 as int)].push(digit_char(d1 as int)));
        } else {
            assert(t[0] == s[0] && t[1] == s[1] && u[0] == s[0]);
            let d0 = digit(s[0])->0;
            let d1 = digit(s[1])->0;
            let d2 = digit(s[2])->0;
            assert(decimal_number(u) == Some(d0));
            assert(decimal_number(t) == Some(d0 * 10 + d1));
            assert(n == (d0 * 10 + d1) * 10 + d2);
            assert(d0 > 0);
            assert(n / 10 == d0 * 10 + d1 && n % 10 == d2);
            assert((n / 10) / 10 == d0 && (n / 10) % 10 == d1);
            assert(s =~= seq![digit_char(d0 as int)].push(digit_char(d1 as int)).push(
                digit_char(d2 as int),
            ));
        }
    }
}

proof fn first_is_behind(text: Seq<char>, c: char, rest: Seq<char>)
    requires
        !text.contains(c),
    ensures
        first_index(text.push(c) + rest, c) == text.len(),
    decreases text.len(),
{
    let s = text.push(c) + rest;
    if text.len() > 0 {
        assert(text.contains(text[0]));
        assert(s[0] == text[0]);
        let shorter = text.skip(1);
        assert forall|i: int| 0 <= i < shorter.len() implies shorter[i] != c by {
            assert(text.contains(text[i + 1]));
        }
        first_is_behind(shorter, c, rest);
        assert(s.skip(1) =~= shorter.push(c) + rest);
    } else {
        assert(s[0] == c);
    }
}

proof fn decimals_have_no_point(n: nat)
    ensures
        !decimal(n).contains('.'),
        !decimal(n).contains(':'),
{
    decimal_stands_for_the_number(n);
}

proof fn one_more_byte(n: nat, rest: Seq<char>, k: nat)
    requires
        n <= 255,
        k >= 1,
    ensures
        octets(decimal(n) + "."@ + rest, k + 1) == (match octets(rest, k) {
            Some(low) => Some(n * pow256(k) + low),
            None => None,
        }),
{
    reveal_strlit(".");
    let text = decimal(n);
    let s = text + "."@ + rest;
    decimals_have_no_point(n);
    first_is_behind(text, '.', rest);
    assert(s =~= text.push('.') + rest);
    assert(s.take(text.len() as int) =~= text);
    assert(s.skip(text.len() as int + 1) =~= rest);
    bytes_are_read_in_decimal(n, text);
}

/// Four bytes in decimal, with points between them, are the address of version 4 that has these
/// bytes, the highest first.
pub proof fn four_bytes_are_an_address(a: u8, b: u8, c: u8, d: u8)
    ensures
        ip_of(
            decimal(a as nat) + "."@ + (decimal(b as nat) + "."@ + (decimal(c as nat) + "."@
                + decimal(d as nat))),
        ) == Some(
            IpAddr::V4((a * 0x100_0000 + b * 0x1_0000 + c * 0x100 + d) as u32),
        ),
{
    let last = decimal(d as nat);
    let three = decimal(c as nat) + "."@ + last;
    let two = decimal(b as nat) + "."@ + three;
    reveal_with_fuel(pow256, 4);
    bytes_are_read_in_decimal(d as nat, last);
    assert(octets(last, 1) == Some(d as nat));
    one_more_byte(c as nat, last, 1);
    one_more_byte(b as nat, three, 2);
    one_more_byte(a as nat, two, 3);
    assert(pow256(1) == 0x100 && pow256(2) == 0x1_0000 && pow256(3) == 0x100_0000);
}

/// The digits of a group are the hexadecimal ones, in both cases, and each counts sixteen times the
/// one behind it. A group has one to four of them.
pub proof fn groups_are_read_in_hexadecimal(s: Seq<char>, c: char)
    ensures
        '0' <= c <= '9' ==> hex_digit(c) == Some((c as int - '0' as int) as nat),
        'a' <= c <= 'f' ==> hex_digit(c) == Some((c as int - 'a' as int + 10) as nat),
        'A' <= c <= 'F' ==> hex_digit(c) == Some((c as int - 'A' as int + 10) as nat),
        hex_digit(c) is Some ==> '0' <= c <= '9' || 'a' <= c <= 'f' || 'A' <= c <= 'F',
        hex_number(Seq::empty()) == Some(0nat),
        hex_number(s.push(c)) == (match (hex_number(s), hex_digit(c)) {
            (Some(n), Some(d)) => Some(16 * n + d),
            _ => None,
        }),
        hex_group(s) == (if 1 <= s.len() <= 4 {
            hex_number(s)
        } else {
            None
        }),
{
    assert(s.push(c).drop_last() =~= s);
}

/// Groups with colons between them are read one by one, from the first on.
pub proof fn groups_are_read_one_by_one(group: Seq<char>, rest: Seq<char>, v4: bool)
    requires
        !group.contains(':'),
    ensures
        hex_groups(group + ":"@ + rest, v4) == (match (hex_group(group), hex_groups(rest, v4)) {
            (Some(g), Some(more)) => Some(seq![g] + more),
            _ => None,
        }),
        hex_group(group) matches Some(g) ==> hex_groups(group, v4) == Some(seq![g]),
{
    reveal_strlit(":");
    let s = group + ":"@ + rest;
    first_is_behind(group, ':', rest);
    assert(s =~= group.push(':') + rest);
    assert(s.take(group.len() as int) =~= group);
    assert(s.skip(group.len() as int + 1) =~= rest);
    first_is_missing(group, ':');
}

proof fn first_is_missing(text: Seq<char>, c: char)
    requires
        !text.contains(c),
    ensures
        first_index(text, c) == text.len(),
    decreases text.len(),
{
    if text.len() > 0 {
        assert(text.contains(text[0]));
        let shorter = text.skip(1);
        assert forall|i: int| 0 <= i < shorter.len() implies shorter[i] != c by {
            assert(text.contains(text[i + 1]));
        }
        first_is_missing(shorter, c);
    }
}

/// The last two groups may be written as four bytes in decimal, where that is allowed.
pub proof fn last_groups_may_be_bytes(a: u8, b: u8, c: u8, d: u8)
    ensures
        ({
            let text = decimal(a as nat) + "."@ + (decimal(b as nat) + "."@ + (decimal(c as nat)
                + "."@ + decimal(d as nat)));
            &&& hex_groups(text, true) == Some(
                seq![(a * 0x100 + b) as nat, (c * 0x100 + d) as nat],
            )
            &&& hex_groups(text, false) is None
        }),
{
    reveal_strlit(".");
    let last = decimal(d as nat);
    let three = decimal(c as nat) + "."@ + last;
    let two = decimal(b as nat) + "."@ + three;
    let text = decimal(a as nat) + "."@ + two;
    reveal_with_fuel(pow256, 4);
    bytes_are_read_in_decimal(d as nat, last);
    assert(octets(last, 1) == Some(d as nat));
    one_more_byte(c as nat, last, 1);
    one_more_byte(b as nat, three, 2);
    one_more_byte(a as nat, two, 3);
    assert(pow256(1) == 0x100 && pow256(2) == 0x1_0000 && pow256(3) == 0x100_0000);
    decimals_have_no_point(a as nat);
    decimals_have_no_point(b as nat);
    decimals_have_no_point(c as nat);
    decimals_have_no_point(d as nat);
    let da = decimal(a as nat);
    let db = decimal(b as nat);
    let dc = decimal(c as nat);
    assert(!text.contains(':')) by {
        if text.contains(':') {
            let i = choose|i: int| 0 <= i < text.len() && text[i] == ':';
            if i < da.len() {
                assert(da.contains(da[i]));
            } else if i > da.len() {
                let j = i - da.len() - 1;
                assert(two[j] == ':');
                if j < db.len() {
                    assert(db.contains(db[j]));
                } else if j > db.len() {
                    let k = j - db.len() - 1;
                    assert(three[k] == ':');
                    if k < dc.len() {
                        assert(dc.contains(dc[k]));
                    } else if k > dc.len() {
                        assert(last.contains(last[k - dc.len() - 1]));
                    }
                }
            }
        }
    }
    first_is_missing(text, ':');
    small_numbers_are_short(a as nat);
    small_numbers_are_short(b as nat);
    small_numbers_are_short(c as nat);
    small_numbers_are_short(d as nat);
    assert(text.len() >= 7);
    assert(hex_group(text) is None);
    let n = (a * 0x100_0000 + b * 0x1_0000 + c * 0x100 + d) as nat;
    assert(octets(text, 4) == Some(n));
    assert(n / 0x1_0000 == a * 0x100 + b);
    assert(n % 0x1_0000 == c * 0x100 + d);
}

/// The number of eight groups: the first group is the highest.
pub proof fn eight_groups_are_a_number(g: Seq<nat>)
    requires
        g.len() == 8,
    ensures
        groups_value(g) == ((((((g[0] * 0x1_0000 + g[1]) * 0x1_0000 + g[2]) * 0x1_0000 + g[3])
            * 0x1_0000 + g[4]) * 0x1_0000 + g[5]) * 0x1_0000 + g[6]) * 0x1_0000 + g[7],
{
    let a = g.take(1);
    let b = g.take(2);
    let c = g.take(3);
    let d = g.take(4);
    let e = g.take(5);
    let f = g.take(6);
    let h = g.take(7);
    assert(groups_value(a.drop_last()) == 0);
    assert(groups_value(a) == g[0]);
    assert(b.drop_last() =~= a);
    assert(c.drop_last() =~= b);
    assert(d.drop_last() =~= c);
    assert(e.drop_last() =~= d);
    assert(f.drop_last() =~= e);
    assert(h.drop_last() =~= f);
    assert(g.drop_last() =~= h);
    assert(groups_value(b) == groups_value(a) * 0x1_0000 + g[1]);
    assert(groups_value(c) == groups_value(b) * 0x1_0000 + g[2]);
    assert(groups_value(d) == groups_value(c) * 0x1_0000 + g[3]);
    assert(groups_value(e) == groups_value(d) * 0x1_0000 + g[4]);
    assert(groups_value(f) == groups_value(e) * 0x1_0000 + g[5]);
    assert(groups_value(h) == groups_value(f) * 0x1_0000 + g[6]);
}

/// Two colons stand nowhere in a row in the text.
pub open spec fn has_no_gap(s: Seq<char>) -> bool {
    forall|i: int| 0 <= i < s.len() - 1 ==> !(#[trigger] s[i] == ':' && s[i + 1] == ':')
}

proof fn no_gap_is_found(s: Seq<char>)
    requires
        has_no_gap(s),
    ensures
        first_gap(s) >= s.len(),
    decreases s.len(),
{
    if s.len() >= 2 {
        assert(!(s[0] == ':' && s[1] == ':'));
        let t = s.skip(1);
        assert forall|i: int| 0 <= i < t.len() - 1 implies !(#[trigger] t[i] == ':' && t[i + 1]
            == ':') by {
            assert(t[i] == s[i + 1]);
            assert(t[i + 1] == s[i + 2]);
        }
        no_gap_is_found(t);
    }
}

proof fn first_gap_is_found(left: Seq<char>, right: Seq<char>)
    requires
        has_no_gap(left),
        left.len() > 0 ==> left.last() != ':',
    ensures
        first_gap(left + "::"@ + right) == left.len(),
    decreases left.len(),
{
    reveal_strlit("::");
    let s = left + "::"@ + right;
    if left.len() > 0 {
        let t = left.skip(1);
        assert forall|i: int| 0 <= i < t.len() - 1 implies !(#[trigger] t[i] == ':' && t[i + 1]
            == ':') by {
            assert(t[i] == left[i + 1]);
            assert(t[i + 1] == left[i + 2]);
        }
        first_gap_is_found(t, right);
        assert(s.skip(1) =~= t + "::"@ + right);
        if left.len() == 1 {
            assert(s[0] == left[0]);
        } else {
            assert(s[0] == left[0] && s[1] == left[1]);
            assert(!(left[0] == ':' && left[1] == ':'));
        }
    } else {
        assert(s[0] == ':' && s[1] == ':');
    }
}

/// An address of version 6 without a gap has exactly eight groups.
pub proof fn addresses_without_a_gap_have_eight_groups(s: Seq<char>)
    requires
        has_no_gap(s),
    ensures
        v6_groups(s) == (match hex_groups(s, true) {
            Some(groups) if groups.len() == 8 => Some(groups),
            _ => None,
        }),
{
    no_gap_is_found(s);
}

/// A gap stands for as many zeros as the groups on its sides lack to eight, and for one at least.
/// There may be no groups on a side, and bytes in decimal may stand only behind the gap.
pub proof fn gaps_are_filled_with_zeros(left: Seq<char>, right: Seq<char>)
    requires
        has_no_gap(left),
        left.len() > 0 ==> left.last() != ':',
    ensures
        match v6_groups(left + "::"@ + right) {
            Some(groups) => {
                let a = if left.len() == 0 {
                    Seq::empty()
                } else {
                    hex_groups(left, false)->0
                };
                let b = if right.len() == 0 {
                    Seq::empty()
                } else {
                    hex_groups(right, true)->0
                };
                &&& left.len() > 0 ==> hex_groups(left, false) is Some
                &&& right.len() > 0 ==> hex_groups(right, true) is Some
                &&& groups.len() == 8
                &&& a.len() + b.len() <= 7
                &&& groups.take(a.len() as int) == a
                &&& groups.skip(8 - b.len()) == b
                &&& forall|i: int| a.len() <= i < 8 - b.len() ==> #[trigger] groups[i] == 0
            },
            None => {
                ||| left.len() > 0 && hex_groups(left, false) is None
                ||| right.len() > 0 && hex_groups(right, true) is None
                ||| (if left.len() == 0 {
                    0
                } else {
                    hex_groups(left, false)->0.len()
                }) + (if right.len() == 0 {
                    0
                } else {
                    hex_groups(right, true)->0.len()
                }) > 7
            },
        },
{
    reveal_strlit("::");
    let s = left + "::"@ + right;
    first_gap_is_found(left, right);
    assert(s.take(left.len() as int) =~= left);
    assert(s.skip(left.len() as int + 2) =~= right);
    match v6_groups(s) {
        Some(groups) => {
            let a = side(left, false)->0;
            let b = side(right, true)->0;
            let middle = zeros((8 - a.len() - b.len()) as nat);
            assert(groups == a + middle + b);
            assert(groups.take(a.len() as int) =~= a);
            assert(groups.skip(8 - b.len()) =~= b);
            assert forall|i: int| a.len() <= i < 8 - b.len() implies #[trigger] groups[i] == 0 by {
                assert(groups[i] == middle[i - a.len()]);
            }
        },
        None => {},
    }
}

/// A text that is no address of version 4 is read as one of version 6, by its groups, or as none.
pub proof fn other_texts_are_read_as_groups(s: Seq<char>)
    requires
        octets(s, 4) is None,
    ensures
        ip_of(s) == (match v6_groups(s) {
            Some(groups) => Some(IpAddr::V6(groups_value(groups) as u128)),
            None => None,
        }),
{
}

} // verus!
