//! Natural numbers of any size.

use vstd::prelude::*;

use crate::text::Order;

verus! {

/// The number of values of a limb.
pub open spec fn base() -> nat {
    0x1_0000_0000_0000_0000
}

/// A power of the base.
pub open spec fn base_pow(n: nat) -> nat
    decreases n,
{
    if n == 0 {
        1
    } else {
        base_pow((n - 1) as nat) * base()
    }
}

/// The number that limbs stand for, the lowest of them first.
pub open spec fn value(limbs: Seq<u64>) -> nat
    decreases limbs.len(),
{
    if limbs.len() == 0 {
        0
    } else {
        value(limbs.drop_last()) + limbs.last() as nat * base_pow((limbs.len() - 1) as nat)
    }
}

/// A power.
pub open spec fn power(b: nat, n: nat) -> nat
    decreases n,
{
    if n == 0 {
        1
    } else {
        power(b, (n - 1) as nat) * b
    }
}

/// A natural number of any size.
pub struct Natural {
    pub limbs: Vec<u64>,
}

impl View for Natural {
    type V = nat;

    open spec fn view(&self) -> nat {
        value(self.limbs@)
    }
}

proof fn value_bound(limbs: Seq<u64>)
    ensures
        value(limbs) < base_pow(limbs.len()),
    decreases limbs.len(),
{
    if limbs.len() > 0 {
        value_bound(limbs.drop_last());
        let p = base_pow((limbs.len() - 1) as nat);
        let x = limbs.last() as nat;
        let b = base();
        assert(x * p + p <= p * b) by (nonlinear_arith)
            requires
                x + 1 <= b,
        ;
    }
}

/// One step of a product: the carry goes into the next limb.
proof fn product_step(done: nat, carry: nat, p: nat, limb: nat, m: nat, a: nat, low: nat, high: nat, rest: nat)
    requires
        done + carry * p == m * rest + a,
        limb * m + carry == high * base() + low,
    ensures
        (done + low * p) + high * (p * base()) == m * (rest + limb * p) + a,
{
    let b = base();
    assert(high * (p * b) + low * p == (high * b + low) * p) by (nonlinear_arith);
    assert((limb * m + carry) * p == m * (limb * p) + carry * p) by (nonlinear_arith);
    assert(m * (rest + limb * p) == m * rest + m * (limb * p)) by (nonlinear_arith);
}

impl Natural {
    /// A number.
    pub fn from_u64(n: u64) -> (r: Natural)
        ensures
            r@ == n,
    {
        let mut limbs: Vec<u64> = Vec::new();
        limbs.push(n);
        proof {
            assert(limbs@.drop_last() =~= Seq::empty());
            assert(value(Seq::empty()) == 0);
            assert(n as nat * base_pow(0) == n) by (nonlinear_arith)
                requires
                    base_pow(0) == 1,
            ;
        }
        Natural { limbs }
    }

    /// The number times `m`, plus `a`.
    pub fn times_plus(&self, m: u64, a: u64) -> (r: Natural)
        ensures
            r@ == self@ * m + a,
    {
        let mut limbs: Vec<u64> = Vec::new();
        let mut carry: u64 = a;
        let mut i: usize = 0;
        proof {
            assert(self.limbs@.take(0) =~= Seq::empty());
            assert(a as nat * base_pow(0) == a) by (nonlinear_arith)
                requires
                    base_pow(0) == 1,
            ;
            assert(m as nat * value(Seq::empty()) == 0) by (nonlinear_arith)
                requires
                    value(Seq::empty()) == 0,
            ;
        }
        while i < self.limbs.len()
            invariant
                i <= self.limbs@.len(),
                limbs@.len() == i,
                value(limbs@) + carry as nat * base_pow(i as nat) == m as nat * value(
                    self.limbs@.take(i as int),
                ) + a as nat,
            decreases self.limbs@.len() - i,
        {
            let limb = self.limbs[i];
            proof {
                assert(limb as int * m as int + carry as int <= 0xffff_ffff_ffff_ffff
                    * 0xffff_ffff_ffff_ffff + 0xffff_ffff_ffff_ffff) by (nonlinear_arith)
                    requires
                        limb <= 0xffff_ffff_ffff_ffff,
                        m <= 0xffff_ffff_ffff_ffff,
                        carry <= 0xffff_ffff_ffff_ffff,
                ;
                assert(0 <= limb as int * m as int) by (nonlinear_arith);
            }
            let t: u128 = limb as u128 * m as u128 + carry as u128;
            let low: u64 = (t % 0x1_0000_0000_0000_0000) as u64;
            let high: u64 = (t / 0x1_0000_0000_0000_0000) as u64;
            let ghost before = limbs@;
            let ghost done = value(limbs@);
            limbs.push(low);
            proof {
                let p = base_pow(i as nat);
                let rest = value(self.limbs@.take(i as int));
                assert(self.limbs@.take(i + 1).drop_last() =~= self.limbs@.take(i as int));
                assert(limbs@.drop_last() =~= before);
                product_step(
                    done,
                    carry as nat,
                    p,
                    limb as nat,
                    m as nat,
                    a as nat,
                    low as nat,
                    high as nat,
                    rest,
                );
            }
            carry = high;
            i = i + 1;
        }
        proof {
            assert(self.limbs@.take(i as int) =~= self.limbs@);
        }
        let ghost done = limbs@;
        limbs.push(carry);
        proof {
            assert(limbs@.drop_last() =~= done);
            assert(m as nat * self@ == self@ * m as nat) by (nonlinear_arith);
        }
        Natural { limbs }
    }

    /// The number times a power of `b`.
    pub fn times_power(self, b: u64, n: usize) -> (r: Natural)
        ensures
            r@ == self@ * power(b as nat, n as nat),
    {
        let ghost start = self@;
        let mut r = self;
        let mut i: usize = 0;
        assert(start * power(b as nat, 0) == start) by (nonlinear_arith)
            requires
                power(b as nat, 0) == 1,
        ;
        while i < n
            invariant
                i <= n,
                r@ == start * power(b as nat, i as nat),
            decreases n - i,
        {
            r = r.times_plus(b, 0);
            proof {
                let p = power(b as nat, i as nat);
                assert((start * p) * (b as nat) == start * (p * b as nat)) by (nonlinear_arith);
            }
            i = i + 1;
        }
        r
    }

    fn limb(&self, i: usize) -> (limb: u64)
        ensures
            limb == limb_at(self.limbs@, i as int),
    {
        if i < self.limbs.len() {
            self.limbs[i]
        } else {
            0
        }
    }

    /// The order of the number against another.
    pub fn order_against(&self, other: &Natural) -> (order: Order)
        ensures
            order == (if self@ < other@ {
                Order::Less
            } else if self@ > other@ {
                Order::Greater
            } else {
                Order::Equal
            }),
    {
        let n: usize = if self.limbs.len() > other.limbs.len() {
            self.limbs.len()
        } else {
            other.limbs.len()
        };
        let ghost a = padded(self.limbs@, n as nat);
        let ghost b = padded(other.limbs@, n as nat);
        proof {
            padding_is_harmless(self.limbs@, n as nat);
            padding_is_harmless(other.limbs@, n as nat);
        }
        let mut i: usize = n;
        assert(a.take(n as int) =~= a);
        assert(b.take(n as int) =~= b);
        while i > 0
            invariant
                i <= n,
                n >= self.limbs@.len(),
                n >= other.limbs@.len(),
                a == padded(self.limbs@, n as nat),
                b == padded(other.limbs@, n as nat),
                value(a) == self@,
                value(b) == other@,
                value(a) - value(a.take(i as int)) == value(b) - value(b.take(i as int)),
            decreases i,
        {
            let x = self.limb(i - 1);
            let y = other.limb(i - 1);
            proof {
                let k = i - 1;
                assert(a.take(i as int).drop_last() =~= a.take(k));
                assert(b.take(i as int).drop_last() =~= b.take(k));
                value_bound(a.take(k));
                value_bound(b.take(k));
                let p = base_pow(k as nat);
                let u = value(a.take(k));
                let v = value(b.take(k));
                assert(a[k] == x && b[k] == y);
                if x < y {
                    assert(u + x as nat * p < v + y as nat * p) by (nonlinear_arith)
                        requires
                            u < p,
                            x + 1 <= y,
                    ;
                } else if x > y {
                    assert(v + y as nat * p < u + x as nat * p) by (nonlinear_arith)
                        requires
                            v < p,
                            y + 1 <= x,
                    ;
                }
            }
            if x < y {
                return Order::Less;
            }
            if x > y {
                return Order::Greater;
            }
            i = i - 1;
        }
        proof {
            assert(a.take(0) =~= Seq::empty());
            assert(b.take(0) =~= Seq::empty());
        }
        Order::Equal
    }
}

spec fn limb_at(limbs: Seq<u64>, i: int) -> u64 {
    if 0 <= i < limbs.len() {
        limbs[i]
    } else {
        0
    }
}

spec fn padded(limbs: Seq<u64>, n: nat) -> Seq<u64> {
    Seq::new(n, |i: int| limb_at(limbs, i))
}

proof fn padding_is_harmless(limbs: Seq<u64>, n: nat)
    requires
        limbs.len() <= n,
    ensures
        value(padded(limbs, n)) == value(limbs),
    decreases n,
{
    if limbs.len() == n {
        assert(padded(limbs, n) =~= limbs);
    } else {
        padding_is_harmless(limbs, (n - 1) as nat);
        assert(padded(limbs, n).drop_last() =~= padded(limbs, (n - 1) as nat));
        assert(padded(limbs, n).last() == 0);
        assert(0 * base_pow((n - 1) as nat) == 0) by (nonlinear_arith);
    }
}

} // verus!
