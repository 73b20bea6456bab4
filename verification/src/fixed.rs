//! Measured values as integers in millionths of their unit.
//!
//! Sensors hand out binary floating point numbers, as raw bits in shared
//! memory, or decimal numbers in text.  Both are turned into millionths,
//! rounded to the nearest, halves away from zero; but what is not a whole
//! number stays so, and compares with whole numbers as before.
use vstd::arithmetic::div_mod::*;
use vstd::arithmetic::power::*;
use vstd::arithmetic::power2::*;
use vstd::prelude::*;

use crate::decimal::half_even;


verus! {

/// One unit: a degree, a percent.
pub const UNIT: i64 = 1_000_000;

/// A tenth of a unit.
pub const TENTH: i64 = 100_000;

/// `n / d` rounded to the nearest integer, halves away from zero.
pub open spec fn rounded(n: int, d: int) -> int
    recommends
        d > 0,
{
    if n >= 0 {
        (2 * n + d) / (2 * d)
    } else {
        -((2 * -n + d) / (2 * d))
    }
}

/// `n / d` rounded to the nearest integer, halves away from zero.
pub fn round_div(n: i64, d: i64) -> (r: i64)
    requires
        0 < d < 0x1000_0000_0000_0000,
    ensures
        r == rounded(n as int, d as int),
{
    let n2: i128 = n as i128;
    let d2: i128 = d as i128;
    if n >= 0 {
        let q: i128 = (2 * n2 + d2) / (2 * d2);
        assert(0 <= q <= n2 + 1) by (nonlinear_arith)
            requires
                q == (2 * n2 + d2) / (2 * d2),
                n2 >= 0,
                d2 > 0,
        ;
        assert(q <= 0x7fff_ffff_ffff_ffff) by (nonlinear_arith)
            requires
                q == (2 * n2 + d2) / (2 * d2),
                0 <= n2 <= 0x7fff_ffff_ffff_ffff,
                d2 > 0,
        ;
        q as i64
    } else {
        let q: i128 = (2 * -n2 + d2) / (2 * d2);
        assert(0 <= q <= 0x8000_0000_0000_0000) by (nonlinear_arith)
            requires
                q == (2 * -n2 + d2) / (2 * d2),
                0 < -n2 <= 0x8000_0000_0000_0000,
                d2 > 0,
        ;
        (-q) as i64
    }
}

/// `v` rounded to tenths of a unit.
pub open spec fn to_tenths(v: int) -> int {
    rounded(v, TENTH as int) * TENTH
}

/// Rounds to tenths of a unit.
pub fn round_tenths(v: i64) -> (r: i64)
    requires
        -9_000_000_000_000_000_000 <= v <= 9_000_000_000_000_000_000,
    ensures
        r == to_tenths(v as int),
{
    let q: i64 = round_div(v, TENTH);
    assert(v >= 0 ==> q == (2 * v + 100_000) / 200_000);
    assert(v < 0 ==> q == -((2 * -v + 100_000) / 200_000));
    q * TENTH
}

// ---------------------------------------------------------------------------
// Binary floating point

/// A finite binary floating point number: `mantissa * 2^exponent`.
#[derive(Clone, Copy)]
pub struct Binary {
    /// The number is below zero (or a negative zero).
    pub negative: bool,
    /// The significant bits.
    pub mantissa: u64,
    /// The power of two that they count.
    pub exponent: i32,
}

/// What the number one is in steps of `2^-1074`, the finest that occur.
pub open spec fn one() -> int {
    pow2(1074) as int
}

/// One is above zero.
pub proof fn lemma_one()
    ensures
        one() > 0,
{
    lemma_pow2_pos(1074);
}

impl Binary {
    /// The ranges of the fields of a double, which hold those of a single.
    pub open spec fn wf(self) -> bool {
        self.mantissa < 0x20_0000_0000_0000 && -1074 <= self.exponent <= 971
    }

    /// The magnitude, exactly, in steps of `2^-1074`.
    pub open spec fn size(self) -> int {
        self.mantissa * pow2((self.exponent + 1074) as nat)
    }

    /// The number, exactly, in steps of `2^-1074`.
    pub open spec fn exact(self) -> int {
        if self.negative {
            -self.size()
        } else {
            self.size()
        }
    }
}

/// The number that the bits of a double stand for; none for infinities and
/// for what is not a number.
pub open spec fn double_value(bits: u64) -> Option<Binary> {
    let e = (bits / 0x10_0000_0000_0000) % 0x800;
    let f = bits % 0x10_0000_0000_0000;
    if e == 0x7ff {
        None
    } else if e == 0 {
        Some(Binary { negative: bits >= 0x8000_0000_0000_0000, mantissa: f, exponent: (-1074) as i32 })
    } else {
        Some(
            Binary {
                negative: bits >= 0x8000_0000_0000_0000,
                mantissa: (f + 0x10_0000_0000_0000) as u64,
                exponent: (e - 1075) as i32,
            },
        )
    }
}

/// The number that the bits of a single stand for; none for infinities and
/// for what is not a number.
pub open spec fn single_value(bits: u32) -> Option<Binary> {
    let e = (bits / 0x80_0000) % 0x100;
    let f = bits % 0x80_0000;
    if e == 0xff {
        None
    } else if e == 0 {
        Some(Binary { negative: bits >= 0x8000_0000, mantissa: f as u64, exponent: (-149) as i32 })
    } else {
        Some(
            Binary {
                negative: bits >= 0x8000_0000,
                mantissa: (f + 0x80_0000) as u64,
                exponent: (e - 150) as i32,
            },
        )
    }
}

/// Takes the bits of a double apart.
pub fn double_of(bits: u64) -> (r: Option<Binary>)
    ensures
        r == double_value(bits),
        r is Some ==> r->0.wf(),
{
    let e: u64 = (bits / 0x10_0000_0000_0000) % 0x800;
    let f: u64 = bits % 0x10_0000_0000_0000;
    let negative = bits >= 0x8000_0000_0000_0000;
    if e == 0x7ff {
        None
    } else if e == 0 {
        Some(Binary { negative, mantissa: f, exponent: -1074 })
    } else {
        Some(Binary { negative, mantissa: f + 0x10_0000_0000_0000, exponent: e as i32 - 1075 })
    }
}

/// Takes the bits of a single apart.
pub fn single_of(bits: u32) -> (r: Option<Binary>)
    ensures
        r == single_value(bits),
        r is Some ==> r->0.wf(),
{
    let e: u32 = (bits / 0x80_0000) % 0x100;
    let f: u32 = bits % 0x80_0000;
    let negative = bits >= 0x8000_0000;
    if e == 0xff {
        None
    } else if e == 0 {
        Some(Binary { negative, mantissa: f as u64, exponent: -149 })
    } else {
        Some(Binary { negative, mantissa: (f + 0x80_0000) as u64, exponent: e as i32 - 150 })
    }
}

pub(crate) fn power_of_two(k: u32) -> (r: u128)
    requires
        k <= 100,
    ensures
        r == pow2(k as nat),
        0 < r <= 0x10_0000_0000_0000_0000_0000_0000,
{
    let mut r: u128 = 1;
    let mut i: u32 = 0;
    proof {
        lemma2_to64();
        lemma_pow2_100();
    }
    while i < k
        invariant
            i <= k <= 100,
            r == pow2(i as nat),
            pow2(100) == 0x10_0000_0000_0000_0000_0000_0000,
        decreases k - i,
    {
        proof {
            lemma_pow2_unfold((i + 1) as nat);
            if i + 1 < 100 {
                lemma_pow2_strictly_increases((i + 1) as nat, 100);
            }
        }
        r = r * 2;
        i = i + 1;
    }
    proof {
        if k < 100 {
            lemma_pow2_strictly_increases(k as nat, 100);
        }
        lemma_pow2_pos(k as nat);
    }
    r
}

proof fn lemma_pow2_100()
    ensures
        pow2(100) == 0x10_0000_0000_0000_0000_0000_0000,
{
    lemma2_to64();
    lemma2_to64_rest();
    lemma_pow2_adds(50, 50);
    assert(0x4_0000_0000_0000 * 0x4_0000_0000_0000 == 0x10_0000_0000_0000_0000_0000_0000);
}

pub(crate) proof fn lemma_pow2_80()
    ensures
        pow2(80) == 0x1_0000_0000_0000_0000_0000,
{
    lemma2_to64();
    lemma2_to64_rest();
    lemma_pow2_adds(40, 40);
    assert(0x100_0000_0000 * 0x100_0000_0000 == 0x1_0000_0000_0000_0000_0000);
}

/// A common factor does not change a rounded quotient.
proof fn lemma_round_cancel(n: int, d: int, k: int)
    requires
        n >= 0,
        d > 0,
        k > 0,
    ensures
        rounded(n * k, k * d) == rounded(n, d),
{
    assert(n * k >= 0) by (nonlinear_arith)
        requires
            n >= 0,
            k > 0,
    ;
    assert(2 * (n * k) + k * d == k * (2 * n + d)) by (nonlinear_arith);
    assert(2 * (k * d) == k * (2 * d)) by (nonlinear_arith);
    lemma_div_multiples_vanish_quotient(k, 2 * n + d, 2 * d);
}

/// A magnitude below `n`, found from the fields.
proof fn lemma_below(b: Binary, n: int)
    requires
        b.wf(),
    ensures
        b.exponent >= 0 ==> (b.size() < n * one() <==> b.mantissa * pow2(b.exponent as nat) < n),
        b.exponent >= 0 ==> (b.size() <= n * one() <==> b.mantissa * pow2(b.exponent as nat) <= n),
        b.exponent < 0 ==> (b.size() < n * one() <==> b.mantissa < n * pow2(
            (-b.exponent) as nat,
        )),
        b.exponent < 0 ==> (b.size() <= n * one() <==> b.mantissa <= n * pow2(
            (-b.exponent) as nat,
        )),
{
    lemma_pow2_pos(1074);
    if b.exponent >= 0 {
        lemma_pow2_adds(b.exponent as nat, 1074);
        let m = b.mantissa as int;
        let p = pow2(b.exponent as nat) as int;
        let o = one();
        assert(m * (p * o) == (m * p) * o) by (nonlinear_arith);
        let w = m * p;
        assert(w * o < n * o <==> w < n) by (nonlinear_arith)
            requires
                o > 0,
        ;
        assert(w * o <= n * o <==> w <= n) by (nonlinear_arith)
            requires
                o > 0,
        ;
    } else {
        let q = (b.exponent + 1074) as nat;
        lemma_pow2_adds(q, (-b.exponent) as nat);
        lemma_pow2_pos(q);
        let m = b.mantissa as int;
        let p = pow2(q) as int;
        let d = pow2((-b.exponent) as nat) as int;
        assert(one() == p * d);
        assert(n * (p * d) == (n * d) * p) by (nonlinear_arith);
        let w = n * d;
        assert(m * p < w * p <==> m < w) by (nonlinear_arith)
            requires
                p > 0,
        ;
        assert(m * p <= w * p <==> m <= w) by (nonlinear_arith)
            requires
                p > 0,
        ;
    }
}

/// A magnitude of so many steps in millionths: rounded to the nearest, halves
/// up, but what is not a whole number stays so.
pub open spec fn in_millionths(s: int) -> int {
    let n = rounded(s * UNIT, one());
    if n % (UNIT as int) == 0 && s % one() != 0 {
        if n * one() > s * UNIT {
            n - 1
        } else {
            n + 1
        }
    } else {
        n
    }
}

proof fn lemma_rounded_bound(s: int, o: int, k: int)
    requires
        0 <= s < k * o,
        o > 0,
        k > 0,
    ensures
        0 <= rounded(s * UNIT, o) <= k * UNIT,
{
    let n = s * UNIT;
    assert(UNIT == 1_000_000);
    assert(n >= 0) by (nonlinear_arith)
        requires
            n == s * 1_000_000,
            s >= 0,
    ;
    assert(0 <= (2 * n + o) / (2 * o) <= k * 1_000_000) by (nonlinear_arith)
        requires
            n == s * 1_000_000,
            0 <= s < k * o,
            o > 0,
    ;
}

impl Binary {
    /// Two numbers that compare as the magnitude and `n` do.
    fn against(&self, n: u64) -> (r: (u128, u128))
        requires
            self.wf(),
            0 < n <= 0x100_0000_0000,
        ensures
            (r.0 < r.1) == (self.size() < n * one()),
            (r.0 <= r.1) == (self.size() <= n * one()),
    {
        proof {
            lemma_below(*self, n as int);
            lemma2_to64();
            lemma2_to64_rest();
        }
        if self.exponent >= 0 {
            if self.mantissa == 0 {
                assert(self.mantissa * pow2(self.exponent as nat) == 0) by (nonlinear_arith)
                    requires
                        self.mantissa == 0,
                ;
                return (0, 1);
            }
            if self.exponent > 40 {
                proof {
                    lemma_pow2_strictly_increases(40, self.exponent as nat);
                    assert(self.mantissa * pow2(self.exponent as nat) >= pow2(
                        self.exponent as nat,
                    )) by (nonlinear_arith)
                        requires
                            self.mantissa >= 1,
                    ;
                }
                return (1, 0);
            }
            let p: u128 = power_of_two(self.exponent as u32);
            assert(p <= 0x100_0000_0000) by {
                if self.exponent < 40 {
                    lemma_pow2_strictly_increases(self.exponent as nat, 40);
                }
            }
            assert(self.mantissa * p <= 0x20_0000_0000_0000 * 0x100_0000_0000) by (nonlinear_arith)
                requires
                    self.mantissa < 0x20_0000_0000_0000,
                    p <= 0x100_0000_0000,
            ;
            ((self.mantissa as u128) * p, n as u128)
        } else {
            if self.exponent < -60 {
                proof {
                    lemma_pow2_strictly_increases(60, (-self.exponent) as nat);
                    assert(n * pow2((-self.exponent) as nat) >= pow2((-self.exponent) as nat))
                        by (nonlinear_arith)
                        requires
                            n >= 1,
                    ;
                }
                return (0, 1);
            }
            let p: u128 = power_of_two((-self.exponent) as u32);
            assert(p <= 0x1000_0000_0000_0000) by {
                if -self.exponent < 60 {
                    lemma_pow2_strictly_increases((-self.exponent) as nat, 60);
                }
            }
            assert(n * p <= 0x100_0000_0000 * 0x1000_0000_0000_0000) by (nonlinear_arith)
                requires
                    n <= 0x100_0000_0000,
                    p <= 0x1000_0000_0000_0000,
            ;
            (self.mantissa as u128, (n as u128) * p)
        }
    }

    /// Whether the magnitude is below `n`.
    pub fn size_below(&self, n: u64) -> (r: bool)
        requires
            self.wf(),
            0 < n <= 0x100_0000_0000,
        ensures
            r == (self.size() < n * one()),
    {
        let (a, b) = self.against(n);
        a < b
    }

    /// Whether the magnitude is at most `n`.
    pub fn size_at_most(&self, n: u64) -> (r: bool)
        requires
            self.wf(),
            0 < n <= 0x100_0000_0000,
        ensures
            r == (self.size() <= n * one()),
    {
        let (a, b) = self.against(n);
        a <= b
    }

    /// Whether the number is above zero.
    pub fn is_positive(&self) -> (r: bool)
        requires
            self.wf(),
        ensures
            r == (self.exact() > 0),
    {
        proof {
            lemma_pow2_pos((self.exponent + 1074) as nat);
            let m = self.mantissa as int;
            let p = pow2((self.exponent + 1074) as nat) as int;
            assert(m > 0 ==> m * p > 0) by (nonlinear_arith)
                requires
                    p > 0,
            ;
            assert(m == 0 ==> m * p == 0) by (nonlinear_arith);
            assert(m >= 0);
        }
        !self.negative && self.mantissa > 0
    }

    /// A magnitude is not below zero, and zero only if no bit is set.
    pub proof fn lemma_size(self)
        requires
            self.wf(),
        ensures
            self.size() >= 0,
            self.size() == 0 <==> self.mantissa == 0,
    {
        lemma_pow2_pos((self.exponent + 1074) as nat);
        let m = self.mantissa as int;
        let p = pow2((self.exponent + 1074) as nat) as int;
        assert(m > 0 ==> m * p > 0) by (nonlinear_arith)
            requires
                p > 0,
        ;
        assert(m == 0 ==> m * p == 0) by (nonlinear_arith);
    }

    /// The number in millionths.
    pub open spec fn millionths(self) -> int {
        if self.negative {
            -in_millionths(self.size())
        } else {
            in_millionths(self.size())
        }
    }

    /// The magnitude in millionths, rounded.
    fn rounded_millionths(&self) -> (r: i64)
        requires
            self.wf(),
            self.size() < 0x100_0000_0000 * one(),
        ensures
            r == rounded(self.size() * UNIT, one()),
            0 <= r <= 0x100_0000_0000 * UNIT,
    {
        let ghost m = self.mantissa as int;
        proof {
            lemma_below(*self, 0x100_0000_0000);
            lemma2_to64();
            lemma2_to64_rest();
            lemma_pow2_pos(1074);
            lemma_pow2_pos((self.exponent + 1074) as nat);
        }
        if self.exponent >= 0 {
            if self.mantissa == 0 {
                assert(self.size() == 0) by (nonlinear_arith)
                    requires
                        self.size() == self.mantissa * pow2((self.exponent + 1074) as nat),
                        self.mantissa == 0,
                ;
                assert(rounded(0, one()) == 0) by {
                    let o = one();
                    assert(o / (2 * o) == 0) by (nonlinear_arith)
                        requires
                            o > 0,
                    ;
                }
                return 0;
            }
            assert(self.exponent < 40) by {
                if self.exponent >= 40 {
                    if self.exponent > 40 {
                        lemma_pow2_strictly_increases(40, self.exponent as nat);
                    }
                    assert(m * pow2(self.exponent as nat) >= pow2(self.exponent as nat))
                        by (nonlinear_arith)
                        requires
                            m >= 1,
                    ;
                }
            }
            let p: u128 = power_of_two(self.exponent as u32);
            assert(m * p < 0x100_0000_0000);
            assert(m * p >= 0) by (nonlinear_arith)
                requires
                    m >= 0,
                    p >= 0,
            ;
            let whole: u128 = (self.mantissa as u128) * p;
            let r: i64 = whole as i64 * UNIT;
            proof {
                lemma_pow2_adds(self.exponent as nat, 1074);
                let o = one();
                let w = whole as int;
                assert(self.size() == w * o) by (nonlinear_arith)
                    requires
                        self.size() == m * (p * o),
                        w == m * p,
                ;
                assert(w * o * UNIT >= 0) by (nonlinear_arith)
                    requires
                        w >= 0,
                        o > 0,
                        UNIT == 1_000_000,
                ;
                assert((2 * (w * o * UNIT) + o) / (2 * o) == w * UNIT) by (nonlinear_arith)
                    requires
                        w >= 0,
                        o > 0,
                        UNIT == 1_000_000,
                ;
            }
            r
        } else {
            let ghost q = (self.exponent + 1074) as nat;
            let ghost e = (-self.exponent) as nat;
            let ghost pq = pow2(q) as int;
            let ghost d = pow2(e) as int;
            let ghost u = UNIT as int;
            proof {
                lemma_pow2_adds(q, e);
                lemma_pow2_pos(e);
                assert(one() == pq * d);
                assert(m * u >= 0) by (nonlinear_arith)
                    requires
                        m >= 0,
                        u == 1_000_000,
                ;
                assert((m * pq) * u == (m * u) * pq) by (nonlinear_arith);
                lemma_round_cancel(m * u, d, pq);
                assert(rounded(self.size() * UNIT, one()) == rounded(m * u, d));
            }
            if self.exponent < -80 {
                proof {
                    lemma_pow2_80();
                    lemma_pow2_strictly_increases(80, e);
                    assert(2 * (m * u) < 0x1_0000_0000_0000_0000_0000);
                    assert((2 * (m * u) + d) / (2 * d) == 0) by (nonlinear_arith)
                        requires
                            0 <= 2 * (m * u) < d,
                    ;
                }
                return 0;
            }
            let p: u128 = power_of_two((-self.exponent) as u32);
            assert(p <= 0x1_0000_0000_0000_0000_0000) by {
                lemma_pow2_80();
                if e < 80 {
                    lemma_pow2_strictly_increases(e, 80);
                }
            }
            let r: u128 = (2 * (self.mantissa as u128) * 1_000_000 + p) / (2 * p);
            assert(r == rounded(m * u, d));
            assert(r <= 0x100_0000_0000 * 1_000_000) by (nonlinear_arith)
                requires
                    r == (2 * m * 1_000_000 + p) / (2 * p as int),
                    p > 0,
                    m >= 0,
                    m < 0x100_0000_0000 * p,
            ;
            r as i64
        }
    }

    /// Whether the magnitude is a whole number.
    fn is_whole(&self) -> (r: bool)
        requires
            self.wf(),
        ensures
            r == (self.size() % one() == 0),
    {
        let ghost m = self.mantissa as int;
        let ghost o = one();
        proof {
            lemma_one();
            self.lemma_size();
        }
        if self.mantissa == 0 {
            assert(0int % o == 0) by (nonlinear_arith)
                requires
                    o > 0,
            ;
            return true;
        }
        if self.exponent >= 0 {
            proof {
                lemma_pow2_adds(self.exponent as nat, 1074);
                let p = pow2(self.exponent as nat) as int;
                assert(m * (p * o) == (m * p) * o) by (nonlinear_arith);
                lemma_mod_multiples_basic(m * p, o);
            }
            return true;
        }
        let ghost q = (self.exponent + 1074) as nat;
        let ghost e = (-self.exponent) as nat;
        let ghost pq = pow2(q) as int;
        let ghost d = pow2(e) as int;
        proof {
            lemma_pow2_adds(q, e);
            lemma_pow2_pos(q);
            lemma_pow2_pos(e);
            assert(o == pq * d);
            lemma_truncate_middle(m, pq, d);
            assert(pq * m == m * pq) by (nonlinear_arith);
            let r = m % d;
            assert(pq * r == 0 <==> r == 0) by (nonlinear_arith)
                requires
                    pq > 0,
            ;
        }
        if self.exponent < -60 {
            proof {
                lemma2_to64();
                lemma2_to64_rest();
                lemma_pow2_strictly_increases(60, e);
                lemma_small_mod(m as nat, d as nat);
            }
            return false;
        }
        let p: u128 = power_of_two((-self.exponent) as u32);
        (self.mantissa as u128) % p == 0
    }

    /// The magnitude in millionths.
    pub(crate) fn size_millionths(&self) -> (r: i64)
        requires
            self.wf(),
            self.size() < 0x100_0000_0000 * one(),
        ensures
            r == in_millionths(self.size()),
            0 <= r <= 0x100_0000_0000 * UNIT,
            self.size() < 0x1_0000_0000 * one() ==> r <= 0x1_0000_0000 * UNIT,
    {
        let n: i64 = self.rounded_millionths();
        let ghost s = self.size();
        let ghost o = one();
        proof {
            lemma_one();
            self.lemma_size();
            lemma_rounded_bound(s, o, 0x100_0000_0000);
            if s < 0x1_0000_0000 * o {
                lemma_rounded_bound(s, o, 0x1_0000_0000);
            }
        }
        if n % 1_000_000 == 0 && !self.is_whole() {
            let k: u64 = (n / 1_000_000) as u64;
            assert(n == k * 1_000_000);
            proof {
                let w = k as int;
                assert(UNIT == 1_000_000);
                assert((w * 1_000_000) * o > s * 1_000_000 <==> w * o > s) by (nonlinear_arith);
                assert(w * o == s ==> s % o == 0) by {
                    lemma_mod_multiples_basic(w, o);
                }
                if k == 0 {
                    assert(0 * o == 0);
                }
                if w >= 0x100_0000_0000 {
                    assert(w * o > s) by (nonlinear_arith)
                        requires
                            w >= 0x100_0000_0000,
                            s < 0x100_0000_0000 * o,
                            o > 0,
                    ;
                }
                if s < 0x1_0000_0000 * o && w >= 0x1_0000_0000 {
                    assert(w * o > s) by (nonlinear_arith)
                        requires
                            w >= 0x1_0000_0000,
                            s < 0x1_0000_0000 * o,
                            o > 0,
                    ;
                }
            }
            if k > 0 && self.size_below(k) {
                n - 1
            } else {
                n + 1
            }
        } else {
            n
        }
    }

    /// The number in millionths, if its magnitude is under `2^32`.
    pub fn to_millionths(&self) -> (r: Option<i64>)
        requires
            self.wf(),
        ensures
            r is Some <==> self.size() < 0x1_0000_0000 * one(),
            r is Some ==> r->0 == self.millionths() && -0x1_0000_0000 * UNIT <= r->0
                <= 0x1_0000_0000 * UNIT,
    {
        if !self.size_below(0x1_0000_0000) {
            return None;
        }
        proof {
            lemma_one();
            let o = one();
            assert(0x1_0000_0000 * o <= 0x100_0000_0000 * o) by (nonlinear_arith)
                requires
                    o > 0,
            ;
        }
        let v: i64 = self.size_millionths();
        if self.negative {
            Some(-v)
        } else {
            Some(v)
        }
    }
}

/// A magnitude under a whole number is at most as many units.
pub(crate) proof fn lemma_in_millionths_bound(s: int, k: int)
    requires
        0 <= s < k * one(),
        k > 0,
    ensures
        0 <= in_millionths(s) <= k * UNIT,
{
    let o = one();
    lemma_one();
    lemma_rounded_bound(s, o, k);
    let n = rounded(s * UNIT, o);
    assert(UNIT == 1_000_000);
    if n % 1_000_000 == 0 && s % o != 0 {
        let w = n / 1_000_000;
        assert(n == w * 1_000_000);
        assert(w >= k ==> n * o > s * 1_000_000) by (nonlinear_arith)
            requires
                n == w * 1_000_000,
                s < k * o,
                o > 0,
        ;
        assert(n == 0 ==> !(n * o > s * 1_000_000)) by (nonlinear_arith)
            requires
                s >= 0,
        ;
        assert(w < k ==> n + 1 <= k * 1_000_000);
    }
}

/// Nothing is no millionths.
pub(crate) proof fn lemma_in_millionths_zero()
    ensures
        in_millionths(0) == 0,
{
    let o = one();
    lemma_one();
    assert(o / (2 * o) == 0 && 0int % o == 0) by (nonlinear_arith)
        requires
            o > 0,
    ;
}

/// A number in millionths compares with whole numbers as the number itself
/// does.
pub proof fn lemma_millionths_compare(b: Binary, n: nat)
    requires
        b.wf(),
    ensures
        b.size() < n * one() <==> in_millionths(b.size()) < n * UNIT,
        b.size() == n * one() <==> in_millionths(b.size()) == n * UNIT,
{
    let s = b.size();
    let o = one();
    let u = 1_000_000int;
    lemma_one();
    b.lemma_size();
    assert(UNIT == 1_000_000);
    let a = s * u;
    let r = rounded(a, o);
    assert(a >= 0) by (nonlinear_arith)
        requires
            a == s * u,
            s >= 0,
            u == 1_000_000,
    ;
    lemma_fundamental_div_mod(2 * a + o, 2 * o);
    lemma_mod_bound(2 * a + o, 2 * o);
    assert(2 * o * r <= 2 * a + o && 2 * a < 2 * o * r + o) by (nonlinear_arith)
        requires
            2 * a + o == (2 * o) * r + (2 * a + o) % (2 * o),
            0 <= (2 * a + o) % (2 * o) < 2 * o,
    ;
    let k = n as int;
    let t = k * u;
    assert(s < k * o <==> a < t * o) by (nonlinear_arith)
        requires
            a == s * u,
            t == k * u,
            u == 1_000_000,
    ;
    assert(s == k * o <==> a == t * o) by (nonlinear_arith)
        requires
            a == s * u,
            t == k * u,
            u == 1_000_000,
    ;
    assert(r > t ==> 2 * o * r >= 2 * o * t + 2 * o) by (nonlinear_arith)
        requires
            o > 0,
    ;
    assert(r < t ==> 2 * o * r <= 2 * o * t - 2 * o) by (nonlinear_arith)
        requires
            o > 0,
    ;
    assert(2 * o * t == 2 * (t * o)) by (nonlinear_arith);
    assert(2 * o * r == 2 * (r * o)) by (nonlinear_arith);
    assert(t % u == 0);
    if s == k * o {
        lemma_mod_multiples_basic(k, o);
    }
    if r % u == 0 && s % o != 0 {
        let w = r / u;
        assert(r == w * u);
        if r == t {
        } else if r < t {
            assert(r <= t - u);
        } else {
            assert(r >= t + u);
        }
    } else if r == t {
        assert(s % o == 0);
        let w = s / o;
        lemma_fundamental_div_mod(s, o);
        assert(s == w * o) by (nonlinear_arith)
            requires
                s == o * w + s % o,
                s % o == 0,
        ;
        let z = w * u;
        assert(a == z * o) by (nonlinear_arith)
            requires
                a == s * u,
                s == w * o,
                z == w * u,
        ;
        assert(2 * o * r <= 2 * (z * o) + o && 2 * (z * o) < 2 * o * r + o);
        assert(r == z) by (nonlinear_arith)
            requires
                2 * o * r <= 2 * (z * o) + o,
                2 * (z * o) < 2 * o * r + o,
                o > 0,
        ;
    }
}

/// A temperature that can be.
pub open spec fn sane(v: Binary) -> bool {
    0 < v.exact() < 150 * one()
}

/// Whether a number can be a temperature.
pub fn is_sane(v: &Binary) -> (r: bool)
    requires
        v.wf(),
    ensures
        r == sane(*v),
{
    v.is_positive() && v.size_below(150)
}

/// A number under `2^32` in millionths.
pub fn millionths_of(v: &Binary) -> (r: i64)
    requires
        v.wf(),
        v.size() < 0x1_0000_0000 * one(),
    ensures
        r == v.millionths(),
{
    match v.to_millionths() {
        Some(x) => x,
        None => 0,
    }
}

/// A reading in millionths.
pub open spec fn int_of(v: Option<i64>) -> Option<int> {
    match v {
        Some(x) => Some(x as int),
        None => None,
    }
}

/// The higher of two values.
pub open spec fn higher(a: Option<int>, b: Option<int>) -> Option<int> {
    match (a, b) {
        (Some(x), Some(y)) => if x < y {
            b
        } else {
            a
        },
        (None, _) => b,
        (_, None) => a,
    }
}

/// A common factor does not change a quotient rounded to even.
pub(crate) proof fn lemma_half_even_cancel(n: int, d: int, k: int)
    requires
        n >= 0,
        d > 0,
        k > 0,
    ensures
        half_even(n * k, d * k) == half_even(n, d),
{
    assert(k * n == n * k && k * d == d * k) by (nonlinear_arith);
    lemma_div_multiples_vanish_quotient(k, n, d);
    let q = n / d;
    lemma_fundamental_div_mod(n, d);
    lemma_fundamental_div_mod(n * k, d * k);
    let r = n % d;
    let rk = (n * k) % (d * k);
    assert(rk == r * k) by (nonlinear_arith)
        requires
            n == d * q + r,
            n * k == (d * k) * q + rk,
    ;
    assert(2 * (r * k) > d * k <==> 2 * r > d) by (nonlinear_arith)
        requires
            k > 0,
    ;
    assert(2 * (r * k) == d * k <==> 2 * r == d) by (nonlinear_arith)
        requires
            k > 0,
    ;
}

impl Binary {
    /// The magnitude in hundredths, halves to even.
    pub open spec fn hundredths(self) -> int {
        half_even(self.size() * 100, one())
    }

    /// The magnitude in hundredths, halves to even.
    pub fn to_hundredths(&self) -> (r: u64)
        requires
            self.wf(),
            self.size() <= 200 * one(),
        ensures
            r == self.hundredths(),
            r <= 20_000,
    {
        let ghost m = self.mantissa as int;
        let ghost o = one();
        proof {
            lemma_below(*self, 200);
            lemma_one();
            lemma2_to64();
            self.lemma_size();
        }
        if self.exponent >= 0 {
            if self.mantissa == 0 {
                assert(0int / o == 0 && 0int % o == 0) by (nonlinear_arith)
                    requires
                        o > 0,
                ;
                return 0;
            }
            assert(self.exponent < 8) by {
                if self.exponent >= 8 {
                    if self.exponent > 8 {
                        lemma_pow2_strictly_increases(8, self.exponent as nat);
                    }
                    assert(m * pow2(self.exponent as nat) >= pow2(self.exponent as nat))
                        by (nonlinear_arith)
                        requires
                            m >= 1,
                    ;
                }
            }
            let p: u128 = power_of_two(self.exponent as u32);
            assert(m * p >= 0) by (nonlinear_arith)
                requires
                    m >= 0,
                    p >= 0,
            ;
            let whole: u128 = (self.mantissa as u128) * p;
            proof {
                lemma_pow2_adds(self.exponent as nat, 1074);
                let w = whole as int;
                assert(self.size() * 100 == (w * 100) * o) by (nonlinear_arith)
                    requires
                        self.size() == m * (p * o),
                        w == m * p,
                ;
                lemma_half_even_cancel(w * 100, 1, o);
            }
            (whole * 100) as u64
        } else {
            let ghost e = (-self.exponent) as nat;
            let ghost q = (self.exponent + 1074) as nat;
            let ghost d = pow2(e) as int;
            let ghost pq = pow2(q) as int;
            proof {
                lemma_pow2_adds(q, e);
                lemma_pow2_pos(e);
                lemma_pow2_pos(q);
                assert(o == d * pq) by (nonlinear_arith)
                    requires
                        o == pq * d,
                ;
                assert(self.size() * 100 == (m * 100) * pq) by (nonlinear_arith)
                    requires
                        self.size() == m * pq,
                ;
                lemma_half_even_cancel(m * 100, d, pq);
            }
            if self.exponent < -80 {
                proof {
                    lemma_pow2_80();
                    lemma_pow2_strictly_increases(80, e);
                    let n = m * 100;
                    assert(n / d == 0 && n % d == n) by (nonlinear_arith)
                        requires
                            0 <= n < d,
                    ;
                }
                return 0;
            }
            let p: u128 = power_of_two((-self.exponent) as u32);
            assert(p <= 0x1_0000_0000_0000_0000_0000) by {
                lemma_pow2_80();
                if e < 80 {
                    lemma_pow2_strictly_increases(e, 80);
                }
            }
            let n: u128 = (self.mantissa as u128) * 100;
            let whole: u128 = n / p;
            let rest: u128 = n % p;
            assert(whole <= 20_000 && rest < p && (whole == 20_000 ==> rest == 0))
                by (nonlinear_arith)
                requires
                    whole == n / p,
                    rest == n % p,
                    n <= 20_000 * p,
                    p > 0,
            ;
            if 2 * rest > p || (2 * rest == p && whole % 2 == 1) {
                (whole + 1) as u64
            } else {
                whole as u64
            }
        }
    }
}

/// A quotient is rounded to the nearest whole number, halves away from zero.
pub proof fn lemma_rounded_is_nearest(n: int, d: int)
    requires
        d > 0,
    ensures
        -d <= 2 * (rounded(n, d) * d - n) <= d,
        n >= 0 ==> 2 * (n - rounded(n, d) * d) < d,
        n <= 0 ==> 2 * (rounded(n, d) * d - n) < d,
        rounded(-n, d) == -rounded(n, d),
{
    let m = if n >= 0 {
        n
    } else {
        -n
    };
    let q = (2 * m + d) / (2 * d);
    assert(2 * m - d < 2 * (q * d) <= 2 * m + d) by (nonlinear_arith)
        requires
            q == (2 * m + d) / (2 * d),
            d > 0,
    ;
    assert((-q) * d == -(q * d)) by (nonlinear_arith);
    if n == 0 {
        assert(d / (2 * d) == 0) by (nonlinear_arith)
            requires
                d > 0,
        ;
    }
}

/// A temperature that is uploaded is the nearest with one decimal.
pub proof fn lemma_to_tenths_is_nearest(v: int)
    ensures
        to_tenths(v) % 100_000 == 0,
        -50_000 <= to_tenths(v) - v <= 50_000,
{
    lemma_rounded_is_nearest(v, TENTH as int);
}

/// The higher of two readings, and of one the one.
pub proof fn lemma_higher(a: Option<int>, b: Option<int>)
    ensures
        higher(a, b) is Some <==> a is Some || b is Some,
        higher(a, b) is Some ==> higher(a, b) == a || higher(a, b) == b,
        a is Some ==> higher(a, b)->0 >= a->0,
        b is Some ==> higher(a, b)->0 >= b->0,
{
}

proof fn lemma_higher_exponent(m: int, e: nat, n: int, f: nat, top: int)
    requires
        0 <= m < 2 * top,
        n >= top,
        e < f,
    ensures
        m * pow2(e) < n * pow2(f),
{
    vstd::arithmetic::power2::lemma_pow2_pos(e);
    if e + 1 < f {
        vstd::arithmetic::power2::lemma_pow2_strictly_increases(e + 1, f);
    }
    vstd::arithmetic::power2::lemma_pow2_unfold(e + 1);
    let p = pow2(e) as int;
    let q = pow2(f) as int;
    assert(q >= 2 * p);
    assert(m * p < n * q) by (nonlinear_arith)
        requires
            0 <= m < 2 * top,
            n >= top,
            q >= 2 * p,
            p > 0,
    ;
}

/// The numbers of two doubles without a sign stand in the order of their bits,
/// and the highest bit turns a number's sign and nothing else.
pub proof fn lemma_doubles_in_order(a: u64, b: u64)
    requires
        a < b < 0x8000_0000_0000_0000,
        double_value(b) is Some,
    ensures
        double_value(a) is Some,
        0 <= double_value(a)->0.exact() < double_value(b)->0.exact(),
        double_value((a + 0x8000_0000_0000_0000) as u64) is Some,
        double_value((a + 0x8000_0000_0000_0000) as u64)->0.exact() == -double_value(a)->0.exact(),
{
    let x = double_value(a);
    assert(x is Some);
    let u = x->0;
    let v = double_value(b)->0;
    let d = (u.exponent + 1074) as nat;
    let e = (v.exponent + 1074) as nat;
    vstd::arithmetic::power2::lemma_pow2_pos(d);
    vstd::arithmetic::power2::lemma_pow2_pos(e);
    assert(d <= e);
    if d == e {
        assert(u.mantissa < v.mantissa);
        assert(u.mantissa * pow2(d) < v.mantissa * pow2(e)) by (nonlinear_arith)
            requires
                d == e,
                u.mantissa < v.mantissa,
                pow2(d) > 0,
        ;
    } else {
        lemma_higher_exponent(
            u.mantissa as int,
            d,
            v.mantissa as int,
            e,
            0x10_0000_0000_0000,
        );
    }
    assert(u.mantissa * pow2(d) >= 0) by (nonlinear_arith)
        requires
            u.mantissa >= 0,
            pow2(d) > 0,
    ;
    let n = (a + 0x8000_0000_0000_0000) as u64;
    assert(n % 0x10_0000_0000_0000 == a % 0x10_0000_0000_0000);
    assert((n / 0x10_0000_0000_0000) % 0x800 == (a / 0x10_0000_0000_0000) % 0x800);
}

/// The numbers of two singles without a sign stand in the order of their bits,
/// and the highest bit turns a number's sign and nothing else.
pub proof fn lemma_singles_in_order(a: u32, b: u32)
    requires
        a < b < 0x8000_0000,
        single_value(b) is Some,
    ensures
        single_value(a) is Some,
        0 <= single_value(a)->0.exact() < single_value(b)->0.exact(),
        single_value((a + 0x8000_0000) as u32) is Some,
        single_value((a + 0x8000_0000) as u32)->0.exact() == -single_value(a)->0.exact(),
{
    let x = single_value(a);
    assert(x is Some);
    let u = x->0;
    let v = single_value(b)->0;
    let d = (u.exponent + 1074) as nat;
    let e = (v.exponent + 1074) as nat;
    vstd::arithmetic::power2::lemma_pow2_pos(d);
    vstd::arithmetic::power2::lemma_pow2_pos(e);
    assert(d <= e);
    if d == e {
        assert(u.mantissa < v.mantissa);
        assert(u.mantissa * pow2(d) < v.mantissa * pow2(e)) by (nonlinear_arith)
            requires
                d == e,
                u.mantissa < v.mantissa,
                pow2(d) > 0,
        ;
    } else {
        lemma_higher_exponent(u.mantissa as int, d, v.mantissa as int, e, 0x80_0000);
    }
    assert(u.mantissa * pow2(d) >= 0) by (nonlinear_arith)
        requires
            u.mantissa >= 0,
            pow2(d) > 0,
    ;
    let n = (a + 0x8000_0000) as u32;
    assert(n % 0x80_0000 == a % 0x80_0000);
    assert((n / 0x80_0000) % 0x100 == (a / 0x80_0000) % 0x100);
}

} // verus!
