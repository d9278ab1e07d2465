//! The text of addresses.

use vstd::prelude::*;

use crate::net::IpAddr;

verus! {

/// The place of the first such character, or the length where there is none.
pub open spec fn first_index(s: Seq<char>, c: char) -> int
    decreases s.len(),
{
    if s.len() == 0 || s[0] == c {
        0
    } else {
        1 + first_index(s.skip(1), c)
    }
}

/// The value of a decimal digit.
pub open spec fn digit(c: char) -> Option<nat> {
    if '0' <= c <= '9' {
        Some((c as nat - '0' as nat) as nat)
    } else {
        None
    }
}

/// The value of a hexadecimal digit.
pub open spec fn hex_digit(c: char) -> Option<nat> {
    if '0' <= c <= '9' {
        Some((c as nat - '0' as nat) as nat)
    } else if 'a' <= c <= 'f' {
        Some((c as nat - 'a' as nat + 10) as nat)
    } else if 'A' <= c <= 'F' {
        Some((c as nat - 'A' as nat + 10) as nat)
    } else {
        None
    }
}

/// The value of decimal digits.
pub open spec fn decimal_number(s: Seq<char>) -> Option<nat>
    decreases s.len(),
{
    if s.len() == 0 {
        Some(0)
    } else {
        match (decimal_number(s.drop_last()), digit(s.last())) {
            (Some(n), Some(d)) => Some(n * 10 + d),
            _ => None,
        }
    }
}

/// The value of hexadecimal digits.
pub open spec fn hex_number(s: Seq<char>) -> Option<nat>
    decreases s.len(),
{
    if s.len() == 0 {
        Some(0)
    } else {
        match (hex_number(s.drop_last()), hex_digit(s.last())) {
            (Some(n), Some(d)) => Some(n * 16 + d),
            _ => None,
        }
    }
}

/// A byte in decimal, without leading zeros.
pub open spec fn octet(s: Seq<char>) -> Option<nat> {
    if s.len() == 0 || s.len() > 3 || (s.len() > 1 && s[0] == '0') {
        None
    } else {
        match decimal_number(s) {
            Some(n) if n <= 255 => Some(n),
            _ => None,
        }
    }
}

/// A group of an address of version 6: up to four hexadecimal digits.
pub open spec fn hex_group(s: Seq<char>) -> Option<nat> {
    if s.len() == 0 || s.len() > 4 {
        None
    } else {
        hex_number(s)
    }
}

/// Octets separated by points: exactly `n` of them, taken as one number.
pub open spec fn octets(s: Seq<char>, n: nat) -> Option<nat>
    decreases n,
{
    if n == 0 {
        None
    } else if n == 1 {
        octet(s)
    } else {
        let k = first_index(s, '.');
        if k >= s.len() {
            None
        } else {
            match (octet(s.take(k)), octets(s.skip(k + 1), (n - 1) as nat)) {
                (Some(high), Some(low)) => Some(high * pow256((n - 1) as nat) + low),
                _ => None,
            }
        }
    }
}

/// A power of 256.
pub open spec fn pow256(n: nat) -> nat
    decreases n,
{
    if n == 0 {
        1
    } else {
        pow256((n - 1) as nat) * 256
    }
}

/// Groups separated by colons. The last two may be written as an address of version 4, where that
/// is allowed.
pub open spec fn hex_groups(s: Seq<char>, v4: bool) -> Option<Seq<nat>>
    decreases s.len(),
{
    let k = first_index(s, ':');
    if k >= s.len() {
        match (hex_group(s), octets(s, 4)) {
            (Some(g), _) => Some(seq![g]),
            (None, Some(n)) if v4 => Some(seq![n / 0x1_0000, n % 0x1_0000]),
            _ => None,
        }
    } else if k < 0 {
        None
    } else {
        match (hex_group(s.take(k)), hex_groups(s.skip(k + 1), v4)) {
            (Some(g), Some(rest)) => Some(seq![g] + rest),
            _ => None,
        }
    }
}

/// Groups on one side of a gap: there may be none.
pub open spec fn side(s: Seq<char>, v4: bool) -> Option<Seq<nat>> {
    if s.len() == 0 {
        Some(Seq::empty())
    } else {
        hex_groups(s, v4)
    }
}

/// The place of the first two colons in a row, or the length where there are none.
pub open spec fn first_gap(s: Seq<char>) -> int
    decreases s.len(),
{
    if s.len() < 2 {
        s.len() as int
    } else if s[0] == ':' && s[1] == ':' {
        0
    } else {
        1 + first_gap(s.skip(1))
    }
}

/// The number that groups stand for.
pub open spec fn groups_value(groups: Seq<nat>) -> nat
    decreases groups.len(),
{
    if groups.len() == 0 {
        0
    } else {
        groups_value(groups.drop_last()) * 0x1_0000 + groups.last()
    }
}

/// Zeros in the place of a gap.
pub open spec fn zeros(n: nat) -> Seq<nat> {
    Seq::new(n, |i: int| 0nat)
}

/// The groups of an address of version 6: eight of them, where a gap stands for one or more zeros.
pub open spec fn v6_groups(s: Seq<char>) -> Option<Seq<nat>> {
    let p = first_gap(s);
    if p >= s.len() {
        match hex_groups(s, true) {
            Some(groups) if groups.len() == 8 => Some(groups),
            _ => None,
        }
    } else {
        match (side(s.take(p), false), side(s.skip(p + 2), true)) {
            (Some(left), Some(right)) if left.len() + right.len() <= 7 => Some(
                left + zeros((8 - left.len() - right.len()) as nat) + right,
            ),
            _ => None,
        }
    }
}

/// The address that a text stands for.
pub open spec fn ip_of(s: Seq<char>) -> Option<IpAddr> {
    match octets(s, 4) {
        Some(n) => Some(IpAddr::V4(n as u32)),
        None => match v6_groups(s) {
            Some(groups) => Some(IpAddr::V6(groups_value(groups) as u128)),
            None => None,
        },
    }
}

proof fn first_index_range(s: Seq<char>, c: char)
    ensures
        0 <= first_index(s, c) <= s.len(),
        first_index(s, c) < s.len() ==> s[first_index(s, c)] == c,
    decreases s.len(),
{
    if s.len() > 0 && s[0] != c {
        first_index_range(s.skip(1), c);
    }
}

fn find(s: &Vec<char>, from: usize, to: usize, c: char) -> (k: usize)
    requires
        from <= to <= s@.len(),
    ensures
        from <= k <= to,
        k == from + first_index(s@.subrange(from as int, to as int), c),
        k < to ==> s@[k as int] == c,
{
    let mut k: usize = from;
    let ghost whole = s@.subrange(from as int, to as int);
    assert(whole.skip(0) =~= whole);
    while k < to && s[k] != c
        invariant
            from <= k <= to <= s@.len(),
            whole == s@.subrange(from as int, to as int),
            first_index(whole, c) == (k - from) + first_index(whole.skip(k - from), c),
        decreases to - k,
    {
        assert(whole.skip(k - from)[0] == s@[k as int]);
        assert(whole.skip(k - from).skip(1) =~= whole.skip(k + 1 - from));
        k = k + 1;
    }
    proof {
        let rest = whole.skip(k - from);
        if k < to {
            assert(rest[0] == s@[k as int]);
        } else {
            assert(rest =~= Seq::empty());
        }
    }
    k
}

fn read_octet(s: &Vec<char>, from: usize, to: usize) -> (r: Option<u8>)
    requires
        from <= to <= s@.len(),
    ensures
        match r {
            Some(n) => octet(s@.subrange(from as int, to as int)) == Some(n as nat),
            None => octet(s@.subrange(from as int, to as int)) is None,
        },
{
    let ghost whole = s@.subrange(from as int, to as int);
    if to == from || to - from > 3 || (to - from > 1 && s[from] == '0') {
        return None;
    }
    let mut n: u32 = 0;
    let mut i: usize = from;
    assert(whole.take(0) =~= Seq::empty());
    while i < to
        invariant
            from <= i <= to <= s@.len(),
            to - from <= 3,
            whole == s@.subrange(from as int, to as int),
            decimal_number(whole.take(i - from)) == Some(n as nat),
            i - from == 0 ==> n == 0,
            i - from == 1 ==> n <= 9,
            i - from == 2 ==> n <= 99,
            i - from == 3 ==> n <= 999,
        decreases to - i,
    {
        let c = s[i];
        assert(whole.take(i + 1 - from).drop_last() =~= whole.take(i - from));
        assert(whole.take(i + 1 - from).last() == c);
        if c < '0' || c > '9' {
            proof {
                no_number_stays(whole, i + 1 - from);
            }
            return None;
        }
        n = n * 10 + (c as u32 - '0' as u32);
        i = i + 1;
    }
    assert(whole.take(to - from) =~= whole);
    if n <= 255 {
        Some(n as u8)
    } else {
        None
    }
}

proof fn no_number_stays(s: Seq<char>, n: int)
    requires
        0 <= n <= s.len(),
        decimal_number(s.take(n)) is None,
    ensures
        decimal_number(s) is None,
    decreases s.len() - n,
{
    if n < s.len() {
        assert(s.take(n + 1).drop_last() =~= s.take(n));
        no_number_stays(s, n + 1);
    } else {
        assert(s.take(n) =~= s);
    }
}

proof fn no_hex_stays(s: Seq<char>, n: int)
    requires
        0 <= n <= s.len(),
        hex_number(s.take(n)) is None,
    ensures
        hex_number(s) is None,
    decreases s.len() - n,
{
    if n < s.len() {
        assert(s.take(n + 1).drop_last() =~= s.take(n));
        no_hex_stays(s, n + 1);
    } else {
        assert(s.take(n) =~= s);
    }
}

fn read_group(s: &Vec<char>, from: usize, to: usize) -> (r: Option<u16>)
    requires
        from <= to <= s@.len(),
    ensures
        match r {
            Some(n) => hex_group(s@.subrange(from as int, to as int)) == Some(n as nat),
            None => hex_group(s@.subrange(from as int, to as int)) is None,
        },
{
    let ghost whole = s@.subrange(from as int, to as int);
    if to == from || to - from > 4 {
        return None;
    }
    let mut n: u32 = 0;
    let mut i: usize = from;
    assert(whole.take(0) =~= Seq::empty());
    while i < to
        invariant
            from <= i <= to <= s@.len(),
            to - from <= 4,
            whole == s@.subrange(from as int, to as int),
            hex_number(whole.take(i - from)) == Some(n as nat),
            i - from == 0 ==> n == 0,
            i - from == 1 ==> n <= 0xf,
            i - from == 2 ==> n <= 0xff,
            i - from == 3 ==> n <= 0xfff,
            i - from == 4 ==> n <= 0xffff,
        decreases to - i,
    {
        let c = s[i];
        assert(whole.take(i + 1 - from).drop_last() =~= whole.take(i - from));
        assert(whole.take(i + 1 - from).last() == c);
        let d: u32 = if '0' <= c && c <= '9' {
            c as u32 - '0' as u32
        } else if 'a' <= c && c <= 'f' {
            c as u32 - 'a' as u32 + 10
        } else if 'A' <= c && c <= 'F' {
            c as u32 - 'A' as u32 + 10
        } else {
            proof {
                no_hex_stays(whole, i + 1 - from);
            }
            return None;
        };
        n = n * 16 + d;
        i = i + 1;
    }
    assert(whole.take(to - from) =~= whole);
    Some(n as u16)
}

proof fn octets_bound(s: Seq<char>, n: nat)
    ensures
        octets(s, n) matches Some(v) ==> v < pow256(n),
    decreases n,
{
    reveal_with_fuel(pow256, 2);
    if n > 1 {
        let k = first_index(s, '.');
        octets_bound(s.skip(k + 1), (n - 1) as nat);
        match (octet(s.take(k)), octets(s.skip(k + 1), (n - 1) as nat)) {
            (Some(high), Some(low)) => {
                let p = pow256((n - 1) as nat);
                assert(high * p + low < p * 256) by (nonlinear_arith)
                    requires
                        high <= 255,
                        low < p,
                ;
            },
            _ => {},
        }
    }
}

fn read_octets(s: &Vec<char>, from: usize, to: usize, n: u32) -> (r: Option<u32>)
    requires
        from <= to <= s@.len(),
        1 <= n <= 4,
    ensures
        match r {
            Some(v) => octets(s@.subrange(from as int, to as int), n as nat) == Some(v as nat),
            None => octets(s@.subrange(from as int, to as int), n as nat) is None,
        },
    decreases n,
{
    let ghost whole = s@.subrange(from as int, to as int);
    if n == 1 {
        return match read_octet(s, from, to) {
            Some(v) => Some(v as u32),
            None => None,
        };
    }
    let k = find(s, from, to, '.');
    if k >= to {
        return None;
    }
    proof {
        assert(whole.take(k - from) =~= s@.subrange(from as int, k as int));
        assert(whole.skip(k + 1 - from) =~= s@.subrange(k + 1, to as int));
        octets_bound(whole.skip(k + 1 - from), (n - 1) as nat);
        reveal_with_fuel(pow256, 5);
    }
    match (read_octet(s, from, k), read_octets(s, k + 1, to, n - 1)) {
        (Some(high), Some(low)) => {
            let weight: u32 = if n == 2 {
                0x100
            } else if n == 3 {
                0x1_0000
            } else {
                0x100_0000
            };
            assert(high as int * weight as int + low as int <= 0xffff_ffff) by (nonlinear_arith)
                requires
                    high <= 255,
                    low < weight,
                    weight <= 0x100_0000,
            ;
            assert(0 <= high as int * weight as int) by (nonlinear_arith);
            Some(high as u32 * weight + low)
        },
        _ => None,
    }
}

/// What groups hold.
pub open spec fn group_values(groups: Seq<u16>) -> Seq<nat> {
    groups.map_values(|g: u16| g as nat)
}

fn read_groups(s: &Vec<char>, from: usize, to: usize, v4: bool) -> (r: Option<Vec<u16>>)
    requires
        from <= to <= s@.len(),
    ensures
        match r {
            Some(groups) => hex_groups(s@.subrange(from as int, to as int), v4) == Some(
                group_values(groups@),
            ),
            None => hex_groups(s@.subrange(from as int, to as int), v4) is None,
        },
    decreases to - from,
{
    let ghost whole = s@.subrange(from as int, to as int);
    let k = find(s, from, to, ':');
    if k >= to {
        if let Some(g) = read_group(s, from, to) {
            let mut groups: Vec<u16> = Vec::new();
            groups.push(g);
            assert(group_values(groups@) =~= seq![g as nat]);
            return Some(groups);
        }
        let n = read_octets(s, from, to, 4);
        return match n {
            Some(n) => if v4 {
                let mut groups: Vec<u16> = Vec::new();
                groups.push((n / 0x1_0000) as u16);
                groups.push((n % 0x1_0000) as u16);
                assert(group_values(groups@) =~= seq![
                    n as nat / 0x1_0000,
                    n as nat % 0x1_0000,
                ]);
                Some(groups)
            } else {
                None
            },
            None => None,
        };
    }
    proof {
        assert(whole.take(k - from) =~= s@.subrange(from as int, k as int));
        assert(whole.skip(k + 1 - from) =~= s@.subrange(k + 1, to as int));
    }
    match (read_group(s, from, k), read_groups(s, k + 1, to, v4)) {
        (Some(g), Some(rest)) => {
            let mut groups: Vec<u16> = Vec::new();
            groups.push(g);
            let mut rest = rest;
            let ghost before = rest@;
            groups.append(&mut rest);
            assert(group_values(groups@) =~= seq![g as nat] + group_values(before));
            Some(groups)
        },
        _ => None,
    }
}

fn read_side(s: &Vec<char>, from: usize, to: usize, v4: bool) -> (r: Option<Vec<u16>>)
    requires
        from <= to <= s@.len(),
    ensures
        match r {
            Some(groups) => side(s@.subrange(from as int, to as int), v4) == Some(
                group_values(groups@),
            ),
            None => side(s@.subrange(from as int, to as int), v4) is None,
        },
{
    if from == to {
        let groups: Vec<u16> = Vec::new();
        assert(group_values(groups@) =~= Seq::empty());
        Some(groups)
    } else {
        read_groups(s, from, to, v4)
    }
}

fn find_gap(s: &Vec<char>, from: usize, to: usize) -> (k: usize)
    requires
        from <= to <= s@.len(),
    ensures
        from <= k <= to,
        k == from + first_gap(s@.subrange(from as int, to as int)),
        k < to ==> k + 2 <= to,
{
    let mut k: usize = from;
    let ghost whole = s@.subrange(from as int, to as int);
    assert(whole.skip(0) =~= whole);
    while to - k >= 2 && !(s[k] == ':' && s[k + 1] == ':')
        invariant
            from <= k <= to <= s@.len(),
            whole == s@.subrange(from as int, to as int),
            first_gap(whole) == (k - from) + first_gap(whole.skip(k - from)),
        decreases to - k,
    {
        assert(whole.skip(k - from)[0] == s@[k as int]);
        assert(whole.skip(k - from)[1] == s@[k + 1]);
        assert(whole.skip(k - from).skip(1) =~= whole.skip(k + 1 - from));
        k = k + 1;
    }
    let ghost rest = whole.skip(k - from);
    if to - k >= 2 {
        assert(rest[0] == s@[k as int]);
        assert(rest[1] == s@[k + 1]);
        k
    } else {
        assert(rest.len() < 2);
        to
    }
}

proof fn groups_bound(groups: Seq<u16>)
    requires
        groups.len() <= 8,
    ensures
        groups_value(group_values(groups)) < pow65536(groups.len()),
    decreases groups.len(),
{
    if groups.len() > 0 {
        groups_bound(groups.drop_last());
        assert(group_values(groups).drop_last() =~= group_values(groups.drop_last()));
        let p = pow65536((groups.len() - 1) as nat);
        assert(groups.last() < 0x1_0000);
    }
}

spec fn pow65536(n: nat) -> nat
    decreases n,
{
    if n == 0 {
        1
    } else {
        pow65536((n - 1) as nat) * 0x1_0000
    }
}

fn value_of_groups(groups: &Vec<u16>) -> (n: u128)
    requires
        groups@.len() == 8,
    ensures
        n == groups_value(group_values(groups@)),
{
    let mut n: u128 = 0;
    let mut i: usize = 0;
    assert(group_values(groups@.take(0)) =~= Seq::empty());
    while i < 8
        invariant
            i <= 8,
            groups@.len() == 8,
            n == groups_value(group_values(groups@.take(i as int))),
        decreases 8 - i,
    {
        proof {
            groups_bound(groups@.take(i as int));
            reveal_with_fuel(pow65536, 9);
            assert(group_values(groups@.take(i + 1)).drop_last() =~= group_values(
                groups@.take(i as int),
            ));
            assert(n <= 0xffff_ffff_ffff_ffff_ffff_ffff_ffff);
        }
        n = n * 0x1_0000 + groups[i] as u128;
        i = i + 1;
    }
    assert(groups@.take(8) =~= groups@);
    n
}

/// Reads an address.
pub fn read_ip(s: &Vec<char>, from: usize, to: usize) -> (r: Option<IpAddr>)
    requires
        from <= to <= s@.len(),
    ensures
        r == ip_of(s@.subrange(from as int, to as int)),
{
    let ghost whole = s@.subrange(from as int, to as int);
    if let Some(n) = read_octets(s, from, to, 4) {
        return Some(IpAddr::V4(n));
    }
    let p = find_gap(s, from, to);
    if p >= to {
        return match read_groups(s, from, to, true) {
            Some(groups) => if groups.len() == 8 {
                Some(IpAddr::V6(value_of_groups(&groups)))
            } else {
                None
            },
            None => None,
        };
    }
    proof {
        assert(whole.take(p - from) =~= s@.subrange(from as int, p as int));
        assert(whole.skip(p + 2 - from) =~= s@.subrange(p + 2, to as int));
    }
    match (read_side(s, from, p, false), read_side(s, p + 2, to, true)) {
        (Some(left), Some(right)) => {
            if left.len() > 7 || right.len() > 7 || left.len() + right.len() > 7 {
                return None;
            }
            let mut groups = left;
            let mut right = right;
            let ghost l = groups@;
            let ghost r = right@;
            let mut n: usize = groups.len() + right.len();
            while n < 8
                invariant
                    l.len() + r.len() <= n <= 8,
                    groups@.len() == n - r.len(),
                    groups@.take(l.len() as int) == l,
                    forall|k: int| l.len() <= k < groups@.len() ==> groups@[k] == 0,
                decreases 8 - n,
            {
                groups.push(0);
                assert(groups@.take(l.len() as int) =~= l);
                n = n + 1;
            }
            let ghost filled = groups@;
            groups.append(&mut right);
            proof {
                let gap = zeros((8 - l.len() - r.len()) as nat);
                let all = group_values(l) + gap + group_values(r);
                assert forall|k: int| 0 <= k < 8 implies group_values(groups@)[k] == all[k] by {
                    if k < l.len() {
                        assert(filled.take(l.len() as int)[k] == l[k]);
                    }
                }
                assert(group_values(groups@) =~= all);
            }
            Some(IpAddr::V6(value_of_groups(&groups)))
        },
        _ => None,
    }
}

} // verus!
