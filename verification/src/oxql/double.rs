//! The double-precision number nearest to a decimal one.

use vstd::prelude::*;

use crate::oxql::ast::{Double, INFINITY_BITS, SIGN_BIT};
use crate::oxql::natural::{power, Natural};
use crate::text::Order;

verus! {

/// The number of values of a fraction.
pub const FRACTION: u64 = 0x10_0000_0000_0000;

/// The value of a positive number by its bits, in units of the smallest one, which is 2 to the power
/// of -1074. Infinity takes the place of the number that would follow the largest.
pub open spec fn scaled(bits: nat) -> nat {
    let exponent = bits / FRACTION as nat;
    let fraction = bits % FRACTION as nat;
    if exponent == 0 {
        fraction
    } else {
        (FRACTION as nat + fraction) * power(2, (exponent - 1) as nat)
    }
}

/// The positive number with these bits is the nearest to `n / d`. Where two are equally near, it is
/// the one with the even bits.
pub open spec fn nearest(n: nat, d: nat, bits: nat) -> bool {
    let v = 2 * (n * power(2, 1074));
    &&& bits <= INFINITY_BITS
    &&& bits > 0 ==> {
        let middle = (scaled((bits - 1) as nat) + scaled(bits)) * d;
        v > middle || (v == middle && bits % 2 == 0)
    }
    &&& bits < INFINITY_BITS ==> {
        let middle = (scaled(bits) + scaled(bits + 1)) * d;
        v < middle || (v == middle && bits % 2 == 0)
    }
}

/// The number that decimal digits stand for, the highest of them first.
pub open spec fn digits_value(digits: Seq<u8>) -> nat
    decreases digits.len(),
{
    if digits.len() == 0 {
        0
    } else {
        digits_value(digits.drop_last()) * 10 + digits.last() as nat
    }
}

/// The positive number with these bits is the nearest to `m` times 10 to the power of `e`.
pub open spec fn nearest_decimal(m: nat, e: int, bits: nat) -> bool {
    if e >= 0 {
        nearest(m * power(10, e as nat), 1, bits)
    } else {
        nearest(m, power(10, (-e) as nat), bits)
    }
}

proof fn power_step(b: nat, n: nat)
    ensures
        power(b, n + 1) == power(b, n) * b,
        power(b, 0) == 1,
{
}

proof fn power_positive(b: nat, n: nat)
    requires
        b > 0,
    ensures
        power(b, n) > 0,
    decreases n,
{
    if n > 0 {
        power_positive(b, (n - 1) as nat);
        let p = power(b, (n - 1) as nat);
        assert(p * b > 0) by (nonlinear_arith)
            requires
                p > 0,
                b > 0,
        ;
    }
}

proof fn power_adds(b: nat, m: nat, n: nat)
    ensures
        power(b, m + n) == power(b, m) * power(b, n),
    decreases n,
{
    if n > 0 {
        power_adds(b, m, (n - 1) as nat);
        let x = power(b, m);
        let y = power(b, (n - 1) as nat);
        assert((x * y) * b == x * (y * b)) by (nonlinear_arith);
    } else {
        let x = power(b, m);
        assert(x * 1 == x) by (nonlinear_arith);
    }
}

proof fn power_grows(b: nat, m: nat, n: nat)
    requires
        b > 0,
        m <= n,
    ensures
        power(b, m) <= power(b, n),
{
    power_adds(b, m, (n - m) as nat);
    power_positive(b, (n - m) as nat);
    let x = power(b, m);
    let y = power(b, (n - m) as nat);
    assert(x <= x * y) by (nonlinear_arith)
        requires
            y > 0,
    ;
}

/// A power of ten is at least the power of two with three times the exponent.
proof fn tens_and_twos(n: nat)
    ensures
        power(10, n) >= power(2, 3 * n),
    decreases n,
{
    if n > 0 {
        tens_and_twos((n - 1) as nat);
        let k = (3 * n - 3) as nat;
        power_step(2, k);
        power_step(2, k + 1);
        power_step(2, k + 2);
        assert(power(2, 3 * n) == power(2, k) * 8);
        power_step(10, (n - 1) as nat);
    }
}

proof fn scaled_of_parts(exponent: nat, fraction: nat)
    requires
        fraction < FRACTION,
    ensures
        scaled(exponent * FRACTION as nat + fraction) == (if exponent == 0 {
            fraction
        } else {
            (FRACTION as nat + fraction) * power(2, (exponent - 1) as nat)
        }),
{
    let bits = exponent * FRACTION as nat + fraction;
    assert(bits / FRACTION as nat == exponent && bits % FRACTION as nat == fraction);
}

/// The significant bits of a number, and the exponent of the power of two by which they count.
spec fn significand(bits: nat) -> nat {
    if bits < FRACTION {
        bits
    } else {
        FRACTION as nat + bits % FRACTION as nat
    }
}

spec fn shift(bits: nat) -> nat {
    if bits < FRACTION {
        0
    } else {
        (bits / FRACTION as nat - 1) as nat
    }
}

proof fn scaled_by_shift(bits: nat)
    ensures
        scaled(bits) == significand(bits) * power(2, shift(bits)),
        scaled(bits) + scaled(bits + 1) == (2 * significand(bits) + 1) * power(2, shift(bits)),
        scaled(bits) < scaled(bits + 1),
{
    let f = FRACTION as nat;
    let x = bits / f;
    let r = bits % f;
    let p = power(2, shift(bits));
    let s = significand(bits);
    power_positive(2, shift(bits));
    assert(bits == x * f + r);
    if x == 0 {
        power_step(2, 0);
        assert(s * p == s) by (nonlinear_arith)
            requires
                p == 1,
        ;
        assert((2 * s + 1) * p == 2 * s + 1) by (nonlinear_arith)
            requires
                p == 1,
        ;
    }
    if r + 1 < f {
        assert(bits + 1 == x * f + (r + 1));
        scaled_of_parts(x, r + 1);
        scaled_of_parts(x, r);
        if x > 0 {
            assert((s + 1) * p == s * p + p) by (nonlinear_arith);
            assert((2 * s + 1) * p == s * p + (s * p + p)) by (nonlinear_arith);
        }
    } else {
        assert(bits + 1 == (x + 1) * f + 0) by (nonlinear_arith)
            requires
                bits == x * f + r,
                r + 1 == f,
        ;
        scaled_of_parts(x + 1, 0);
        scaled_of_parts(x, r);
        if x > 0 {
            power_step(2, (x - 1) as nat);
            assert(f * (p * 2) == (s + 1) * p) by (nonlinear_arith)
                requires
                    s + 1 == 2 * f,
            ;
            assert((s + 1) * p == s * p + p) by (nonlinear_arith);
            assert((2 * s + 1) * p == s * p + (s * p + p)) by (nonlinear_arith);
        } else {
            power_step(2, 0);
            assert(f * power(2, 0) == f);
        }
    }
}

/// `scaled(bits)` times `d`.
fn scaled_times(bits: u64, d: &Natural) -> (r: Natural)
    ensures
        r@ == scaled(bits as nat) * d@,
{
    proof {
        scaled_by_shift(bits as nat);
        let s = significand(bits as nat);
        let p = power(2, shift(bits as nat));
        assert((d@ * s) * p == (s * p) * d@) by (nonlinear_arith);
    }
    if bits < FRACTION {
        d.times_plus(bits, 0).times_power(2, 0)
    } else {
        let exponent: u64 = bits / FRACTION;
        assert(exponent <= 0xfff) by (nonlinear_arith)
            requires
                exponent == bits / 0x10_0000_0000_0000,
                bits <= 0xffff_ffff_ffff_ffff,
        ;
        d.times_plus(FRACTION + bits % FRACTION, 0).times_power(2, (exponent - 1) as usize)
    }
}

/// `scaled(bits) + scaled(bits + 1)` times `d`.
fn middle_times(bits: u64, d: &Natural) -> (r: Natural)
    ensures
        r@ == (scaled(bits as nat) + scaled(bits as nat + 1)) * d@,
{
    proof {
        scaled_by_shift(bits as nat);
        let s = 2 * significand(bits as nat) + 1;
        let p = power(2, shift(bits as nat));
        assert((d@ * s) * p == (s * p) * d@) by (nonlinear_arith);
    }
    if bits < FRACTION {
        d.times_plus(2 * bits + 1, 0).times_power(2, 0)
    } else {
        let exponent: u64 = bits / FRACTION;
        assert(exponent <= 0xfff) by (nonlinear_arith)
            requires
                exponent == bits / 0x10_0000_0000_0000,
                bits <= 0xffff_ffff_ffff_ffff,
        ;
        d.times_plus(2 * (FRACTION + bits % FRACTION) + 1, 0).times_power(
            2,
            (exponent - 1) as usize,
        )
    }
}

proof fn products_keep_order(a: nat, b: nat, d: nat)
    requires
        a < b,
        d > 0,
    ensures
        a * d < b * d,
{
    assert(a * d < b * d) by (nonlinear_arith)
        requires
            a < b,
            d > 0,
    ;
}

proof fn products_add(a: nat, b: nat, d: nat)
    ensures
        (a + b) * d == a * d + b * d,
{
    assert((a + b) * d == a * d + b * d) by (nonlinear_arith);
}

/// The positive number nearest to `n / d`, by its bits.
pub fn nearest_bits(n: Natural, d: &Natural) -> (bits: u64)
    requires
        d@ > 0,
    ensures
        nearest(n@, d@, bits as nat),
{
    let ghost number = n@;
    let v = n.times_power(2, 1074);
    let mut low: u64 = 0;
    let mut high: u64 = INFINITY_BITS + 1;
    assert(scaled(0) == 0);
    assert(0 * d@ == 0) by (nonlinear_arith);
    while high - low > 1
        invariant
            low < high <= INFINITY_BITS + 1,
            v@ == number * power(2, 1074),
            scaled(low as nat) * d@ <= v@,
            high <= INFINITY_BITS ==> scaled(high as nat) * d@ > v@,
        decreases high - low,
    {
        let middle: u64 = low + (high - low) / 2;
        match scaled_times(middle, d).order_against(&v) {
            Order::Greater => {
                high = middle;
            },
            _ => {
                low = middle;
            },
        }
    }
    let ghost x = scaled(low as nat);
    let ghost y = scaled(low as nat + 1);
    proof {
        scaled_by_shift(low as nat);
        products_keep_order(x, y, d@);
        products_add(x, y, d@);
        if low > 0 {
            let w = scaled((low - 1) as nat);
            scaled_by_shift((low - 1) as nat);
            products_keep_order(w, x, d@);
            products_add(w, x, d@);
        }
        let z = scaled(low as nat + 2);
        scaled_by_shift(low as nat + 1);
        products_keep_order(y, z, d@);
        products_add(y, z, d@);
    }
    if low == INFINITY_BITS {
        return low;
    }
    let twice = v.times_plus(2, 0);
    match twice.order_against(&middle_times(low, d)) {
        Order::Less => low,
        Order::Greater => low + 1,
        Order::Equal => if low % 2 == 0 {
            low
        } else {
            low + 1
        },
    }
}

proof fn huge_is_infinite(m: nat, e: int)
    requires
        m >= 1,
        e >= 342,
    ensures
        nearest_decimal(m, e, INFINITY_BITS as nat),
{
    let n = m * power(10, e as nat);
    tens_and_twos(342);
    power_grows(10, 342, e as nat);
    let t = power(10, e as nat);
    assert(n >= t) by (nonlinear_arith)
        requires
            n == m * t,
            m >= 1,
    ;
    let p = power(2, 1074);
    power_positive(2, 1074);
    assert(n * p >= power(2, 1026) * p) by (nonlinear_arith)
        requires
            n >= power(2, 1026),
    ;
    power_adds(2, 1026, 1074);
    assert(INFINITY_BITS as nat == 2047 * FRACTION as nat + 0);
    scaled_of_parts(2047, 0);
    let f = FRACTION as nat;
    let top = scaled(INFINITY_BITS as nat);
    assert(top == f * power(2, 2046));
    power_adds(2, 2046, 54);
    fifty_four();
    power_positive(2, 2046);
    let q = power(2, 2046);
    assert(power(2, 2100) == q * 0x40_0000_0000_0000);
    assert(q * 0x40_0000_0000_0000 > f * q) by (nonlinear_arith)
        requires
            q > 0,
            f == 0x10_0000_0000_0000,
    ;
    scaled_by_shift((INFINITY_BITS - 1) as nat);
}

proof fn fifty_four()
    ensures
        power(2, 54) == 0x40_0000_0000_0000,
{
    reveal_with_fuel(power, 56);
}

proof fn tiny_is_zero(m: nat, e: int, count: nat)
    requires
        m < power(10, count),
        e + count <= -359,
    ensures
        nearest_decimal(m, e, 0),
{
    let d = power(10, (-e) as nat);
    power_grows(10, count + 359, (-e) as nat);
    power_adds(10, count, 359);
    tens_and_twos(359);
    power_grows(2, 1076, 1077);
    power_adds(2, 1074, 2);
    reveal_with_fuel(power, 3);
    let t = power(10, count);
    let s = power(10, 359);
    let p = power(2, 1074);
    power_positive(2, 1074);
    assert(power(2, 1076) == p * 4);
    assert(s >= p * 4);
    assert(d >= t * s);
    assert(t * s >= (m + 1) * (p * 4)) by (nonlinear_arith)
        requires
            t >= m + 1,
            s >= p * 4,
    ;
    assert((m + 1) * (p * 4) > 2 * (m * p)) by (nonlinear_arith)
        requires
            p > 0,
    ;
    scaled_of_parts(0, 0);
    scaled_of_parts(0, 1);
    assert(scaled(0) == 0 && scaled(1) == 1);
    assert((scaled(0) + scaled(1)) * d == d) by (nonlinear_arith)
        requires
            scaled(0) == 0,
            scaled(1) == 1,
    ;
}

proof fn zero_is_zero(e: int)
    ensures
        nearest_decimal(0, e, 0),
{
    power_positive(10, (-e) as nat);
    power_positive(10, e as nat);
    scaled_of_parts(0, 0);
    scaled_of_parts(0, 1);
    let t = power(10, e as nat);
    assert(0 * t == 0) by (nonlinear_arith);
    let p = power(2, 1074);
    assert(0 * p == 0) by (nonlinear_arith);
    let d = power(10, (-e) as nat);
    assert((scaled(0) + scaled(1)) * d == d) by (nonlinear_arith)
        requires
            scaled(0) == 0,
            scaled(1) == 1,
    ;
    assert((scaled(0) + scaled(1)) * 1 == 1);
}

proof fn digits_bound(digits: Seq<u8>)
    requires
        forall|i: int| 0 <= i < digits.len() ==> digits[i] < 10,
    ensures
        digits_value(digits) < power(10, digits.len()),
    decreases digits.len(),
{
    if digits.len() > 0 {
        let rest = digits.drop_last();
        assert forall|i: int| 0 <= i < rest.len() implies rest[i] < 10 by {
            assert(rest[i] == digits[i]);
        }
        digits_bound(rest);
        power_step(10, rest.len());
        assert(digits.last() == digits[digits.len() - 1]);
    }
}

fn natural_of(digits: &Vec<u8>) -> (n: Natural)
    requires
        forall|i: int| 0 <= i < digits@.len() ==> digits@[i] < 10,
    ensures
        n@ == digits_value(digits@),
{
    let mut n = Natural::from_u64(0);
    let mut i: usize = 0;
    assert(digits@.take(0) =~= Seq::empty());
    while i < digits.len()
        invariant
            i <= digits@.len(),
            n@ == digits_value(digits@.take(i as int)),
        decreases digits@.len() - i,
    {
        n = n.times_plus(10, digits[i] as u64);
        assert(digits@.take(i + 1).drop_last() =~= digits@.take(i as int));
        i = i + 1;
    }
    assert(digits@.take(i as int) =~= digits@);
    n
}

/// The largest exponent that is told apart from larger ones.
const LARGE: u128 = 0x4_0000_0000_0000_0000;

/// The number that digits stand for, or the largest that is told apart where it is larger.
fn capped(digits: &Vec<u8>) -> (n: u128)
    requires
        forall|i: int| 0 <= i < digits@.len() ==> digits@[i] < 10,
    ensures
        digits_value(digits@) <= LARGE ==> n == digits_value(digits@),
        digits_value(digits@) > LARGE ==> n == LARGE,
{
    let mut n: u128 = 0;
    let mut i: usize = 0;
    assert(digits@.take(0) =~= Seq::empty());
    while i < digits.len()
        invariant
            i <= digits@.len(),
            forall|i: int| 0 <= i < digits@.len() ==> digits@[i] < 10,
            n <= LARGE,
            digits_value(digits@.take(i as int)) <= LARGE ==> n == digits_value(
                digits@.take(i as int),
            ),
            digits_value(digits@.take(i as int)) > LARGE ==> n == LARGE,
        decreases digits@.len() - i,
    {
        let next: u128 = n * 10 + digits[i] as u128;
        n = if next > LARGE {
            LARGE
        } else {
            next
        };
        assert(digits@.take(i + 1).drop_last() =~= digits@.take(i as int));
        i = i + 1;
    }
    assert(digits@.take(i as int) =~= digits@);
    n
}

/// The exponent of a decimal number with `places` digits behind its point, and an exponent of its
/// own.
pub open spec fn decimal_exponent(places: nat, negative: bool, exponent: nat) -> int {
    (if negative {
        -(exponent as int)
    } else {
        exponent as int
    }) - places
}

/// The positive number nearest to a decimal one, by its bits: the number has these digits, with
/// `places` of them behind its point, and an exponent with a sign and digits of its own.
pub fn decimal_bits(digits: &Vec<u8>, places: usize, negative: bool, exponent: &Vec<u8>) -> (bits: u64)
    requires
        forall|i: int| 0 <= i < digits@.len() ==> digits@[i] < 10,
        forall|i: int| 0 <= i < exponent@.len() ==> exponent@[i] < 10,
        places <= digits@.len() <= usize::MAX - 400,
    ensures
        nearest_decimal(
            digits_value(digits@),
            decimal_exponent(places as nat, negative, digits_value(exponent@)),
            bits as nat,
        ),
{
    let n = natural_of(digits);
    let own: u128 = capped(exponent);
    let e: i128 = if negative {
        -(own as i128) - places as i128
    } else {
        own as i128 - places as i128
    };
    let ghost m = digits_value(digits@);
    let ghost exact = decimal_exponent(places as nat, negative, digits_value(exponent@));
    proof {
        digits_bound(digits@);
    }
    match n.order_against(&Natural::from_u64(0)) {
        Order::Equal => {
            proof {
                zero_is_zero(exact);
            }
            return 0;
        },
        _ => {},
    }
    if e >= 342 {
        proof {
            huge_is_infinite(m, exact);
        }
        return INFINITY_BITS;
    }
    if e + digits.len() as i128 <= -359 {
        proof {
            tiny_is_zero(m, exact, digits@.len());
        }
        return 0;
    }
    assert(e == exact);
    let one = Natural::from_u64(1);
    if e >= 0 {
        proof {
            power_positive(10, e as nat);
        }
        nearest_bits(n.times_power(10, e as usize), &one)
    } else {
        proof {
            let p = power(10, (-e) as nat);
            power_positive(10, (-e) as nat);
            assert(1 * p == p) by (nonlinear_arith);
        }
        let d = one.times_power(10, (-e) as usize);
        nearest_bits(n, &d)
    }
}

/// The number with a sign.
pub open spec fn signed(negative: bool, bits: nat) -> Double {
    Double {
        bits: if negative {
            (bits + SIGN_BIT) as u64
        } else {
            bits as u64
        },
    }
}

/// The number with a sign.
pub fn with_sign(negative: bool, bits: u64) -> (r: Double)
    requires
        bits <= INFINITY_BITS,
    ensures
        r == signed(negative, bits as nat),
{
    if negative {
        Double { bits: bits + SIGN_BIT }
    } else {
        Double { bits }
    }
}

/// There is one nearest number.
pub proof fn nearest_is_unique(n: nat, d: nat, a: nat, b: nat)
    requires
        d > 0,
        nearest(n, d, a),
        nearest(n, d, b),
    ensures
        a == b,
{
    if a < b {
        nearest_is_not_less(n, d, a, b);
    } else if b < a {
        nearest_is_not_less(n, d, b, a);
    }
}

proof fn scaled_grows(a: nat, b: nat)
    requires
        a <= b,
    ensures
        scaled(a) <= scaled(b),
    decreases b - a,
{
    if a < b {
        scaled_grows(a, (b - 1) as nat);
        scaled_by_shift((b - 1) as nat);
    }
}

proof fn nearest_is_not_less(n: nat, d: nat, a: nat, b: nat)
    requires
        d > 0,
        a < b,
        nearest(n, d, a),
    ensures
        !nearest(n, d, b),
{
    let v = 2 * (n * power(2, 1074));
    let upper = scaled(a) + scaled(a + 1);
    let lower = scaled((b - 1) as nat) + scaled(b);
    scaled_grows(a, (b - 1) as nat);
    scaled_grows(a + 1, b);
    assert(upper * d <= lower * d) by (nonlinear_arith)
        requires
            upper <= lower,
    ;
    if a + 1 < b {
        scaled_by_shift(a);
        scaled_grows(a + 1, (b - 1) as nat);
        products_keep_order(upper, lower, d);
    }
}

/// How far a number is from `n / d`, in units of the smallest one, times `d`.
pub open spec fn distance(n: nat, d: nat, bits: nat) -> int {
    let exact = n * power(2, 1074);
    let there = scaled(bits) * d;
    if exact <= there {
        there - exact
    } else {
        exact - there
    }
}

/// No other number is nearer than the nearest. Where another is as near, the bits of the nearest are
/// even.
pub proof fn no_number_is_nearer(n: nat, d: nat, bits: nat, other: nat)
    requires
        d > 0,
        nearest(n, d, bits),
        other <= 0x7ff0_0000_0000_0000,
    ensures
        distance(n, d, bits) <= distance(n, d, other),
        other != bits && distance(n, d, bits) == distance(n, d, other) ==> bits % 2 == 0,
{
    let a = scaled(bits);
    let b = scaled(other);
    assert((a + b) * d == a * d + b * d) by (nonlinear_arith);
    if other > bits {
        let c = scaled(bits + 1);
        scaled_by_shift(bits);
        scaled_grows(bits + 1, other);
        assert((a + c) * d == a * d + c * d) by (nonlinear_arith);
        assert(c * d <= b * d) by (nonlinear_arith)
            requires
                c <= b,
        ;
        assert(a * d < c * d) by (nonlinear_arith)
            requires
                a < c,
                d > 0,
        ;
    } else if other < bits {
        let c = scaled((bits - 1) as nat);
        scaled_by_shift((bits - 1) as nat);
        scaled_grows(other, (bits - 1) as nat);
        assert((c + a) * d == c * d + a * d) by (nonlinear_arith);
        assert(b * d <= c * d) by (nonlinear_arith)
            requires
                b <= c,
        ;
        assert(c * d < a * d) by (nonlinear_arith)
            requires
                c < a,
                d > 0,
        ;
    }
}

/// The value of a number by its exponent and its fraction: without an exponent the fraction counts
/// as it is, and with one it follows a leading bit, and each step of the exponent doubles the value.
pub proof fn bits_are_exponent_and_fraction(exponent: nat, fraction: nat)
    requires
        fraction < 0x10_0000_0000_0000,
    ensures
        scaled(fraction) == fraction,
        scaled(0x10_0000_0000_0000 + fraction) == 0x10_0000_0000_0000 + fraction,
        exponent > 0 ==> scaled((exponent + 1) * 0x10_0000_0000_0000 + fraction) == 2 * scaled(
            exponent * 0x10_0000_0000_0000 + fraction,
        ),
        scaled(0x3ff0_0000_0000_0000) == power(2, 1074),
{
    scaled_of_parts(0, fraction);
    scaled_of_parts(1, fraction);
    let one = (FRACTION as nat + fraction) * power(2, 0);
    assert(one == FRACTION as nat + fraction) by (nonlinear_arith)
        requires
            one == (FRACTION as nat + fraction) * power(2, 0),
            power(2, 0) == 1,
    ;
    if exponent > 0 {
        scaled_of_parts(exponent, fraction);
        scaled_of_parts(exponent + 1, fraction);
        let p = power(2, (exponent - 1) as nat);
        let m = 0x10_0000_0000_0000 + fraction;
        assert(power(2, exponent) == p * 2);
        assert(m * (p * 2) == 2 * (m * p)) by (nonlinear_arith);
    }
    scaled_of_parts(1023, 0);
    fifty_two_twos();
    power_adds(2, 52, 1022);
}

proof fn fifty_two_twos()
    ensures
        power(2, 52) == 0x10_0000_0000_0000,
{
    reveal_with_fuel(power, 14);
    assert(power(2, 13) == 0x2000);
    power_adds(2, 13, 13);
    power_adds(2, 26, 26);
    assert(power(2, 26) == 0x2000 * 0x2000) by (nonlinear_arith)
        requires
            power(2, 26) == power(2, 13) * power(2, 13),
            power(2, 13) == 0x2000,
    ;
    assert(power(2, 52) == 0x400_0000 * 0x400_0000) by (nonlinear_arith)
        requires
            power(2, 52) == power(2, 26) * power(2, 26),
            power(2, 26) == 0x400_0000,
    ;
}

/// A power grows by its base with each step, from one on.
pub proof fn powers_grow_by_their_base(b: nat, n: nat)
    ensures
        power(b, 0) == 1,
        power(b, n + 1) == b * power(b, n),
{
    let p = power(b, n);
    assert(p * b == b * p) by (nonlinear_arith);
}

/// A decimal number is nearest to what its digits say: with an exponent they count for that power of
/// ten more, or less where it is negative, and each digit behind the point makes it one less.
pub proof fn places_and_exponents_count_for_tens(places: nat, exponent: nat, m: nat, bits: nat)
    ensures
        decimal_exponent(places, false, exponent) == exponent - places,
        decimal_exponent(places, true, exponent) == -exponent - places,
        nearest_decimal(m, exponent as int, bits) <==> nearest(m * power(10, exponent), 1, bits),
        exponent > 0 ==> (nearest_decimal(m, -exponent, bits) <==> nearest(
            m,
            power(10, exponent),
            bits,
        )),
{
}

/// The sign of a number stands in its highest bit, and all else in the other bits.
pub proof fn signs_stand_in_the_highest_bit(bits: nat)
    requires
        bits <= 0x7ff0_0000_0000_0000,
    ensures
        signed(false, bits).bits == bits,
        signed(true, bits).bits == bits + 0x8000_0000_0000_0000,
{
}

} // verus!
