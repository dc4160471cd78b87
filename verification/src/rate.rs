//! Throughput as an exact fraction: bytes over a span of time.
//!
//! Nothing is rounded before it is shown. Floating point would be a last bit off
//! now and then: 33 bytes over 1.1 seconds are 30 bytes per second here, while
//! `33.0 / 1.1` falls just short of 30. And sums of many flows would come to
//! depend on the order in which they are taken.

use vstd::arithmetic::div_mod::{lemma_fundamental_div_mod, lemma_fundamental_div_mod_converse};
use vstd::prelude::*;

verus! {

/// `bytes` moved over `nanos` nanoseconds. Over no time at all nothing moves.
#[derive(Clone, Copy, Debug, PartialEq, Eq, Structural)]
pub struct Rate {
    pub bytes: u128,
    pub nanos: u64,
}

impl Rate {
    /// Numerator of the rate in bytes per nanosecond.
    pub open spec fn num(self) -> nat {
        if self.nanos == 0 {
            0
        } else {
            self.bytes as nat
        }
    }

    /// Denominator of the rate in bytes per nanosecond.
    pub open spec fn den(self) -> nat {
        if self.nanos == 0 {
            1
        } else {
            self.nanos as nat
        }
    }

    /// Bytes per second, rounded down.
    pub open spec fn whole(self) -> nat {
        self.num() * 1_000_000_000 / self.den()
    }

    /// What is left of a byte per second after [`Rate::whole`], in units of one
    /// over the denominator.
    spec fn part(self) -> nat {
        self.num() * 1_000_000_000 % self.den()
    }

    /// Bytes per second, rounded to the nearest, halves to the even neighbour.
    pub open spec fn nearest(self) -> nat {
        crate::format::nearest(self.num() * 1_000_000_000, self.den())
    }

    /// Whether this rate is below `other`.
    pub open spec fn below(self, other: Rate) -> bool {
        self.num() * other.den() < other.num() * self.den()
    }

    /// The whole seconds' worth of bytes of the quotient, and the split of the
    /// rest: `whole == high * 10^9 + low`, with `part` left over.
    fn split(&self) -> (r: (u128, u64, u64))
        requires
            self.nanos > 0,
        ensures
            self.whole() == r.0 * 1_000_000_000 + r.1,
            self.part() == r.2,
            r.0 == self.bytes as nat / self.nanos as nat,
            r.1 < 1_000_000_000,
    {
        let d: u128 = self.nanos as u128;
        let high: u128 = self.bytes / d;
        let rest: u128 = self.bytes % d;
        assert(rest * 1_000_000_000 <= u128::MAX);
        let scaled: u128 = rest * 1_000_000_000;
        let low: u128 = scaled / d;
        let part: u128 = scaled % d;
        proof {
            let (n, d, high, rest, low, part) = (
                self.bytes as int,
                d as int,
                high as int,
                rest as int,
                low as int,
                part as int,
            );
            lemma_fundamental_div_mod(n, d);
            lemma_fundamental_div_mod(rest * 1_000_000_000, d);
            assert(low < 1_000_000_000) by (nonlinear_arith)
                requires
                    rest < d,
                    rest * 1_000_000_000 == d * low + part,
                    0 <= part,
                    d > 0,
            ;
            assert(n * 1_000_000_000 == d * (high * 1_000_000_000 + low) + part) by (nonlinear_arith)
                requires
                    n == d * high + rest,
                    rest * 1_000_000_000 == d * low + part,
            ;
            assert(d * (high * 1_000_000_000 + low) == (high * 1_000_000_000 + low) * d)
                by (nonlinear_arith);
            lemma_fundamental_div_mod_converse(
                n * 1_000_000_000,
                d,
                high * 1_000_000_000 + low,
                part,
            );
        }
        (high, low as u64, part as u64)
    }

    /// Bytes per second rounded down, or the largest `u64` if it is more.
    pub fn per_second(&self) -> (r: u64)
        ensures
            r as nat == if self.whole() <= u64::MAX {
                self.whole()
            } else {
                u64::MAX as nat
            },
    {
        if self.nanos == 0 {
            return 0;
        }
        let (high, low, _part) = self.split();
        if high > u64::MAX as u128 {
            return u64::MAX;
        }
        let whole: u128 = high * 1_000_000_000 + low as u128;
        if whole > u64::MAX as u128 {
            u64::MAX
        } else {
            whole as u64
        }
    }

    /// Bytes per second rounded to the nearest, or the largest `u128` if it is
    /// more.
    pub fn rounded(&self) -> (r: u128)
        ensures
            r as nat == if self.nearest() <= u128::MAX {
                self.nearest()
            } else {
                u128::MAX as nat
            },
    {
        if self.nanos == 0 {
            return 0;
        }
        let (high, low, part) = self.split();
        if high > (u128::MAX - 1_000_000_000) / 1_000_000_000 {
            if high > u128::MAX / 1_000_000_000 {
                return u128::MAX;
            }
            let base: u128 = high * 1_000_000_000;
            if low as u128 >= u128::MAX - base {
                return u128::MAX;
            }
        }
        let whole: u128 = high * 1_000_000_000 + low as u128;
        let twice: u128 = 2 * (part as u128);
        let d: u128 = self.nanos as u128;
        if twice < d {
            whole
        } else if twice > d {
            whole + 1
        } else {
            whole + whole % 2
        }
    }

    /// Whether less than one byte per second moves.
    pub fn is_idle(&self) -> (r: bool)
        ensures
            r == (self.whole() < 1),
    {
        self.per_second() < 1
    }

    /// Whether this rate is below `other`.
    pub fn is_below(&self, other: &Rate) -> (r: bool)
        ensures
            r == self.below(*other),
    {
        let (n1, d1): (u128, u128) = if self.nanos == 0 {
            (0, 1)
        } else {
            (self.bytes, self.nanos as u128)
        };
        let (n2, d2): (u128, u128) = if other.nanos == 0 {
            (0, 1)
        } else {
            (other.bytes, other.nanos as u128)
        };
        let q1: u128 = n1 / d1;
        let q2: u128 = n2 / d2;
        let r1: u128 = n1 % d1;
        let r2: u128 = n2 % d2;
        proof {
            lemma_fundamental_div_mod(n1 as int, d1 as int);
            lemma_fundamental_div_mod(n2 as int, d2 as int);
            lemma_cross(
                n1 as int,
                d1 as int,
                q1 as int,
                r1 as int,
                n2 as int,
                d2 as int,
                q2 as int,
                r2 as int,
            );
            assert(r1 * d2 <= 0xffff_ffff_ffff_ffff * 0xffff_ffff_ffff_ffff) by (nonlinear_arith)
                requires
                    r1 <= 0xffff_ffff_ffff_ffff,
                    d2 <= 0xffff_ffff_ffff_ffff,
            ;
            assert(r2 * d1 <= 0xffff_ffff_ffff_ffff * 0xffff_ffff_ffff_ffff) by (nonlinear_arith)
                requires
                    r2 <= 0xffff_ffff_ffff_ffff,
                    d1 <= 0xffff_ffff_ffff_ffff,
            ;
        }
        if q1 != q2 {
            q1 < q2
        } else {
            r1 * d2 < r2 * d1
        }
    }
}

proof fn lemma_cross(n1: int, d1: int, q1: int, r1: int, n2: int, d2: int, q2: int, r2: int)
    requires
        d1 > 0,
        d2 > 0,
        n1 == d1 * q1 + r1,
        n2 == d2 * q2 + r2,
        0 <= r1 < d1,
        0 <= r2 < d2,
    ensures
        q1 < q2 ==> n1 * d2 < n2 * d1,
        q1 > q2 ==> n1 * d2 > n2 * d1,
        q1 == q2 ==> (n1 * d2 < n2 * d1 <==> r1 * d2 < r2 * d1),
{
    assert(n1 * d2 == (d1 * d2) * q1 + r1 * d2) by (nonlinear_arith)
        requires
            n1 == d1 * q1 + r1,
    ;
    assert(n2 * d1 == (d1 * d2) * q2 + r2 * d1) by (nonlinear_arith)
        requires
            n2 == d2 * q2 + r2,
    ;
    assert(0 <= r1 * d2 < d1 * d2) by (nonlinear_arith)
        requires
            0 <= r1 < d1,
            d2 > 0,
    ;
    assert(0 <= r2 * d1 < d1 * d2) by (nonlinear_arith)
        requires
            0 <= r2 < d2,
            d1 > 0,
    ;
    let p = d1 * d2;
    if q1 < q2 {
        assert(p * q2 >= p * q1 + p) by (nonlinear_arith)
            requires
                q2 >= q1 + 1,
                p > 0,
        ;
    }
    if q1 > q2 {
        assert(p * q1 >= p * q2 + p) by (nonlinear_arith)
            requires
                q1 >= q2 + 1,
                p > 0,
        ;
    }
}

/// Rates rank: "not below" carries over.
pub proof fn lemma_below_ranks(a: Rate, b: Rate, c: Rate)
    requires
        !a.below(b),
        !b.below(c),
    ensures
        !a.below(c),
{
    let (n1, d1, n2, d2, n3, d3) = (
        a.num() as int,
        a.den() as int,
        b.num() as int,
        b.den() as int,
        c.num() as int,
        c.den() as int,
    );
    assert(n1 * d3 >= n3 * d1) by (nonlinear_arith)
        requires
            n1 * d2 >= n2 * d1,
            n2 * d3 >= n3 * d2,
            d1 > 0,
            d2 > 0,
            d3 > 0,
    {
        assert((n1 * d2) * d3 >= (n2 * d1) * d3);
        assert((n2 * d3) * d1 >= (n3 * d2) * d1);
        assert((n1 * d3) * d2 >= (n3 * d1) * d2);
    }
}

// ---- laws ------------------------------------------------------------------

/// Bytes per second rounded down: as many whole ones as the bytes of the span
/// allow. Over no time there are none.
pub proof fn law_whole_is_bytes_per_second(r: Rate)
    ensures
        r.nanos > 0 ==> r.whole() * r.nanos <= r.bytes * 1_000_000_000 < (r.whole() + 1) * r.nanos,
        r.nanos == 0 ==> r.whole() == 0,
{
    let (n, d, q) = (r.num() as int * 1_000_000_000, r.den() as int, r.whole() as int);
    lemma_fundamental_div_mod(n, d);
    assert(q * d <= n < (q + 1) * d) by (nonlinear_arith)
        requires
            n == d * q + n % d,
            0 <= n % d < d,
    ;
}

/// Bytes per second to the nearest: at most half of one off, and even where two
/// are equally near.
pub proof fn law_nearest_is_half_a_byte_off(r: Rate)
    ensures
        r.nanos > 0 ==> {
            let (shown, exact) = (2 * r.nearest() * r.nanos, 2 * r.bytes * 1_000_000_000);
            &&& -r.nanos <= shown - exact <= r.nanos
            &&& shown - exact == r.nanos || exact - shown == r.nanos ==> r.nearest() % 2 == 0
        },
        r.nanos == 0 ==> r.nearest() == 0,
{
    let (n, d) = (r.num() as int * 1_000_000_000, r.den() as int);
    let (q, rest, m) = (n / d, n % d, r.nearest() as int);
    lemma_fundamental_div_mod(n, d);
    assert(q % 2 == 0 || q % 2 == 1);
    assert(2 * q * d == 2 * n - 2 * rest && 2 * (q + 1) * d == 2 * n - 2 * rest + 2 * d)
        by (nonlinear_arith)
        requires
            n == d * q + rest,
    ;
    assert(2 * m * d == if m == q {
        2 * n - 2 * rest
    } else {
        2 * n - 2 * rest + 2 * d
    });
    if r.nanos == 0 {
        assert(q == 0 && rest == 0);
    }
}

/// Rates compare as their bytes would over a common span.
pub proof fn law_rates_compare_as_fractions(a: Rate, b: Rate)
    ensures
        a.nanos > 0 && b.nanos > 0 ==> (a.below(b) <==> a.bytes * b.nanos < b.bytes * a.nanos),
        a.nanos == 0 && b.nanos > 0 ==> (a.below(b) <==> b.bytes > 0),
        b.nanos == 0 ==> !a.below(b),
{
}

} // verus!
