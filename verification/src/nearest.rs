//! Rounding to doubles: of every number the double nearest to it, of two that
//! are as near the even one.
//!
//! A double is given by how many steps of `2^-1074`, the finest that occur, it
//! is from zero.
use vstd::arithmetic::div_mod::*;
use vstd::arithmetic::power2::*;
use vstd::prelude::*;

use crate::decimal::{capped, half_even, half_even_wide, LIMIT};
use crate::fixed::{lemma_half_even_cancel, lemma_one, one, power_of_two, rounded, Binary, UNIT};

verus! {

/// `2^53`: the first magnitude that does not fit the bits of a double.
pub const FULL: u64 = 9_007_199_254_740_992;

/// How often the step must be doubled until `n / d` steps fit the bits.
pub open spec fn coarse(n: int, d: int) -> nat
    decreases n - d,
{
    if d <= 0 || n < d * FULL {
        0
    } else {
        1 + coarse(n, 2 * d)
    }
}

/// The double nearest to `n / d` steps.
pub open spec fn nearest(n: int, d: int) -> int {
    let k = pow2(coarse(n, d)) as int;
    half_even(n, d * k) * k
}

/// The double nearest to `n / d` steps, which may be below zero.
pub open spec fn nearest_signed(n: int, d: int) -> int {
    if n < 0 {
        -nearest(-n, d)
    } else {
        nearest(n, d)
    }
}

/// Where the doubles end: what is rounded to `2^1024` or beyond is infinite.
pub open spec fn top() -> int {
    pow2(2098) as int
}

// ---------------------------------------------------------------------------
// Facts on rounding

/// A common factor changes nothing.
pub proof fn lemma_scale(n: int, d: int, c: int)
    requires
        n >= 0,
        d > 0,
        c > 0,
    ensures
        coarse(n * c, d * c) == coarse(n, d),
        nearest(n * c, d * c) == nearest(n, d),
{
    lemma_coarse_scale(n, d, c);
    let k = pow2(coarse(n, d)) as int;
    lemma_pow2_pos(coarse(n, d));
    assert((d * c) * k == (d * k) * c) by (nonlinear_arith);
    assert(d * k > 0) by (nonlinear_arith)
        requires
            d > 0,
            k > 0,
    ;
    lemma_half_even_cancel(n, d * k, c);
}

proof fn lemma_coarse_scale(n: int, d: int, c: int)
    requires
        n >= 0,
        d > 0,
        c > 0,
    ensures
        coarse(n * c, d * c) == coarse(n, d),
    decreases n - d,
{
    let w = d * FULL;
    assert(n * c < w * c <==> n < w) by (nonlinear_arith)
        requires
            c > 0,
    ;
    assert((d * c) * FULL == w * c) by (nonlinear_arith)
        requires
            w == d * FULL,
    ;
    assert(d * c > 0) by (nonlinear_arith)
        requires
            d > 0,
            c > 0,
    ;
    if n >= w {
        lemma_coarse_scale(n, 2 * d, c);
        assert((2 * d) * c == 2 * (d * c)) by (nonlinear_arith);
    }
}

/// Nothing is nothing.
pub proof fn lemma_zero(d: int)
    requires
        d > 0,
    ensures
        nearest(0, d) == 0,
{
    lemma2_to64();
    assert(coarse(0, d) == 0);
    assert(d * 1 == d);
    assert(0int / d == 0 && 0int % d == 0) by (nonlinear_arith)
        requires
            d > 0,
    ;
}

/// The number of doublings is the one that leaves exactly as many bits.
pub proof fn lemma_coarse(n: int, d: int, x: nat)
    requires
        d > 0,
        n < (d * pow2(x)) * FULL,
        x > 0 ==> 2 * n >= (d * pow2(x)) * FULL,
    ensures
        coarse(n, d) == x,
    decreases x,
{
    lemma2_to64();
    if x == 0 {
        assert(d * pow2(0) == d) by (nonlinear_arith)
            requires
                pow2(0) == 1,
        ;
    } else {
        let y = (x - 1) as nat;
        lemma_pow2_unfold(x);
        lemma_pow2_pos(y);
        let p = pow2(y) as int;
        assert(pow2(x) == 2 * p);
        assert(d * (2 * p) == (2 * d) * p) by (nonlinear_arith);
        assert((2 * d) * p >= 2 * d) by (nonlinear_arith)
            requires
                d > 0,
                p >= 1,
        ;
        assert(n >= d * FULL);
        if y > 0 {
            assert(2 * n >= ((2 * d) * pow2(y)) * FULL);
        }
        lemma_coarse(n, 2 * d, y);
    }
}

/// What the number of doublings leaves.
proof fn lemma_coarse_bounds(n: int, d: int)
    requires
        n >= 0,
        d > 0,
    ensures
        n < (d * pow2(coarse(n, d))) * FULL,
        coarse(n, d) > 0 ==> 2 * n >= (d * pow2(coarse(n, d))) * FULL,
    decreases n - d,
{
    lemma2_to64();
    if n < d * FULL {
        assert(d * pow2(0) == d) by (nonlinear_arith)
            requires
                pow2(0) == 1,
        ;
    } else {
        lemma_coarse_bounds(n, 2 * d);
        let y = coarse(n, 2 * d);
        let x = (y + 1) as nat;
        assert(coarse(n, d) == x);
        lemma_pow2_unfold(x);
        let p = pow2(y) as int;
        assert(d * (2 * p) == (2 * d) * p) by (nonlinear_arith);
        if y == 0 {
            assert((2 * d) * p == 2 * d) by (nonlinear_arith)
                requires
                    p == 1,
            ;
        }
    }
}

proof fn lemma_half_even_near(n: int, d: int)
    requires
        n >= 0,
        d > 0,
    ensures
        half_even(n, d) >= 0,
        2 * (half_even(n, d) * d - n) <= d,
        2 * (n - half_even(n, d) * d) <= d,
{
    let q = n / d;
    let r = n % d;
    lemma_fundamental_div_mod(n, d);
    lemma_mod_bound(n, d);
    assert(q >= 0) by (nonlinear_arith)
        requires
            n == d * q + r,
            0 <= r < d,
            n >= 0,
            d > 0,
    ;
    assert((q + 1) * d == d * q + d) by (nonlinear_arith);
    assert(q * d == d * q) by (nonlinear_arith);
}

/// A rounded number is off by at most one part in `2^53`, unless it is below
/// the numbers that fill the bits of a double.
pub proof fn lemma_near(n: int, d: int)
    requires
        n >= 0,
        d > 0,
    ensures
        nearest(n, d) >= 0,
        2 * n >= d * FULL ==> (nearest(n, d) * d - n) * FULL <= n && (n - nearest(n, d) * d) * FULL
            <= n,
        n >= d ==> n <= 2 * (nearest(n, d) * d) && nearest(n, d) * d <= 2 * n,
        nearest(n, d) * d <= 2 * n + d,
{
    let x = coarse(n, d);
    let k = pow2(x) as int;
    let w = d * k;
    lemma_pow2_pos(x);
    lemma2_to64();
    assert(w > 0) by (nonlinear_arith)
        requires
            d > 0,
            k > 0,
            w == d * k,
    ;
    lemma_coarse_bounds(n, d);
    lemma_half_even_near(n, w);
    let m = half_even(n, w);
    assert((m * k) * d == m * w) by (nonlinear_arith)
        requires
            w == d * k,
    ;
    assert(m * k >= 0) by (nonlinear_arith)
        requires
            m >= 0,
            k > 0,
    ;
    if x == 0 {
        assert(w == d) by (nonlinear_arith)
            requires
                w == d * k,
                k == 1,
        ;
    }
}

// ---------------------------------------------------------------------------
// Making doubles

/// The double of so many steps of `2^x`; none where it is infinite.
pub(crate) fn finish(m: u64, x: i32) -> (r: Option<Binary>)
    requires
        m <= FULL,
        -1074 <= x <= 2000,
        x > 971 ==> 2 * m >= FULL,
    ensures
        match r {
            Some(b) => b.wf() && !b.negative && b.size() == m * pow2((x + 1074) as nat) && b.size()
                < top(),
            None => m * pow2((x + 1074) as nat) >= top(),
        },
{
    let ghost big = (x + 1074) as nat;
    let ghost p = pow2(big) as int;
    proof {
        lemma2_to64();
        lemma2_to64_rest();
        lemma_pow2_pos(big);
    }
    if x > 971 {
        proof {
            lemma_pow2_adds(2046, 52);
            if big > 2046 {
                lemma_pow2_strictly_increases(2046, big);
            }
            let a = pow2(2046) as int;
            assert(m * p >= 0x10_0000_0000_0000 * a) by (nonlinear_arith)
                requires
                    m >= 0x10_0000_0000_0000,
                    p >= a,
                    a >= 0,
            ;
            assert(0x10_0000_0000_0000 * a == a * 0x10_0000_0000_0000);
        }
        return None;
    }
    if m < FULL {
        let b = Binary { negative: false, mantissa: m, exponent: x };
        proof {
            lemma_pow2_adds(2045, 53);
            if big < 2045 {
                lemma_pow2_strictly_increases(big, 2045);
            }
            let a = pow2(2045) as int;
            assert(m * p < 0x20_0000_0000_0000 * a) by (nonlinear_arith)
                requires
                    0 <= m < 0x20_0000_0000_0000,
                    0 < p <= a,
            ;
            assert(0x20_0000_0000_0000 * a == a * 0x20_0000_0000_0000);
        }
        Some(b)
    } else {
        proof {
            lemma_pow2_unfold(big + 1);
            assert(m * p == 0x10_0000_0000_0000 * (2 * p)) by (nonlinear_arith)
                requires
                    m == 0x20_0000_0000_0000,
            ;
        }
        if x == 971 {
            proof {
                lemma_pow2_adds(2045, 53);
                assert(m * p == p * 0x20_0000_0000_0000) by (nonlinear_arith)
                    requires
                        m == 0x20_0000_0000_0000,
                ;
            }
            return None;
        }
        let b = Binary { negative: false, mantissa: 0x10_0000_0000_0000, exponent: x + 1 };
        proof {
            lemma_pow2_adds(2045, 53);
            lemma_pow2_unfold(2045);
            if big < 2044 {
                lemma_pow2_strictly_increases(big, 2044);
            }
            let a = pow2(2044) as int;
            assert(0x10_0000_0000_0000 * (2 * p) < 0x20_0000_0000_0000 * (2 * a)) by (nonlinear_arith)
                requires
                    0 < p <= a,
            ;
        }
        Some(b)
    }
}

/// The rounded number of steps, once the bits are filled.
pub(crate) proof fn lemma_filled(n: int, d: int, x: int)
    requires
        n >= 0,
        d > 0,
        x >= 0,
        n < d * FULL,
        x > 0 ==> 2 * n >= d * FULL,
    ensures
        nearest(n * pow2(x as nat), d) == half_even(n, d) * pow2(x as nat),
{
    let p = pow2(x as nat) as int;
    lemma_pow2_pos(x as nat);
    let w = d * FULL;
    assert(n * p < w * p) by (nonlinear_arith)
        requires
            n < w,
            p > 0,
    ;
    assert(w * p == (d * p) * FULL) by (nonlinear_arith)
        requires
            w == d * FULL,
    ;
    if x > 0 {
        assert(2 * (n * p) >= w * p) by (nonlinear_arith)
            requires
                2 * n >= w,
                p > 0,
        ;
    }
    lemma_coarse(n * p, d, x as nat);
    lemma_half_even_cancel(n, d, p);
}

/// Rounds `n / d * 2^x`; none where the double is infinite.
pub(crate) fn nearest_of(n: u128, d: u128, x: i32) -> (r: Option<Binary>)
    requires
        0 < d <= 0x100_0000_0000,
        n < 0x8000_0000_0000_0000_0000_0000,
        -1074 <= x <= 971,
    ensures
        ({
            let v = nearest(n * pow2((x + 1074) as nat), d as int);
            match r {
                Some(b) => b.wf() && !b.negative && b.size() == v && v < top(),
                None => v >= top(),
            }
        }),
{
    let ghost goal = nearest(n * pow2((x + 1074) as nat), d as int);
    let ghost x0 = x as int;
    proof {
        lemma2_to64();
        lemma2_to64_rest();
    }
    let mut n: u128 = n;
    let mut d: u128 = d;
    let mut x: i32 = x;
    while n >= d * 0x20_0000_0000_0000
        invariant
            0 < d <= 0x800_0000_0000,
            n < 0x8000_0000_0000_0000_0000_0000,
            -1074 <= x0 <= x <= 1100,
            x0 <= 971,
            pow2((x - x0) as nat) <= d,
            nearest(n * pow2((x + 1074) as nat), d as int) == goal,
        decreases n - d,
    {
        proof {
            let big = (x + 1074) as nat;
            lemma_pow2_unfold(big + 1);
            lemma_pow2_unfold((x - x0 + 1) as nat);
            lemma_pow2_pos(big);
            lemma2_to64_rest();
            if x - x0 > 50 {
                lemma_pow2_strictly_increases(50, (x - x0) as nat);
            }
            let p = pow2(big) as int;
            let m = n as int;
            let e = d as int;
            assert(m * p >= 0) by (nonlinear_arith)
                requires
                    m >= 0,
                    p > 0,
            ;
            lemma_scale(m * p, e, 2);
            assert((m * p) * 2 == m * (2 * p)) by (nonlinear_arith);
        }
        d = d * 2;
        x = x + 1;
    }
    while n != 0 && n < d * 0x10_0000_0000_0000 && x > -1074
        invariant
            0 < d <= 0x800_0000_0000,
            n <= 0x1_0000_0000_0000_0000_0000_0000,
            n < d * 0x20_0000_0000_0000,
            -1074 <= x <= 2000,
            nearest(n * pow2((x + 1074) as nat), d as int) == goal,
        decreases x + 1074,
    {
        proof {
            let big = (x + 1074) as nat;
            lemma_pow2_unfold(big);
            let p = pow2((big - 1) as nat) as int;
            let m = n as int;
            assert((2 * m) * p == m * (2 * p)) by (nonlinear_arith);
        }
        n = n * 2;
        x = x - 1;
    }
    let ghost big = (x + 1074) as nat;
    if n == 0 {
        proof {
            assert(0 * pow2(big) == 0) by (nonlinear_arith);
            lemma_zero(d as int);
            lemma_pow2_pos(2098);
        }
        let b = Binary { negative: false, mantissa: 0, exponent: -1074 };
        assert(b.size() == 0) by (nonlinear_arith)
            requires
                b.size() == b.mantissa * pow2((b.exponent + 1074) as nat),
                b.mantissa == 0,
        ;
        return Some(b);
    }
    let m: u128 = half_even_wide(n, d);
    proof {
        let a = n as int;
        let e = d as int;
        assert(a / e < 0x20_0000_0000_0000) by (nonlinear_arith)
            requires
                0 <= a < e * 0x20_0000_0000_0000,
                e > 0,
        ;
        lemma_filled(a, e, big as int);
        if x > 971 {
            assert(a / e >= 0x10_0000_0000_0000) by (nonlinear_arith)
                requires
                    a >= e * 0x10_0000_0000_0000,
                    e > 0,
            ;
        }
    }
    finish(m as u64, x)
}

// ---------------------------------------------------------------------------
// Reckoning with doubles

/// A number that is not tiny has no tiny parts.
pub(crate) proof fn lemma_exponent(b: Binary)
    requires
        b.wf(),
        b.size() * 32 >= one(),
    ensures
        b.exponent >= -60,
{
    if b.exponent < -60 {
        lemma2_to64();
        lemma2_to64_rest();
        let big = (b.exponent + 1074) as nat;
        lemma_pow2_pos(big);
        lemma_pow2_adds(1014, 60);
        lemma_pow2_strictly_increases(big, 1014);
        let p = pow2(big) as int;
        let a = pow2(1014) as int;
        let m = b.mantissa as int;
        assert(m * p < 0x20_0000_0000_0000 * a) by (nonlinear_arith)
            requires
                0 <= m < 0x20_0000_0000_0000,
                0 < p < a,
        ;
        assert(one() == a * 0x1000_0000_0000_0000);
    }
}

impl Binary {
    /// A magnitude that is counted in parts of `2^-60`.
    pub open spec fn moderate(self) -> bool {
        &&& self.wf()
        &&& self.size() < 0x4_0000_0000 * one()
        &&& self.mantissa == 0 || self.exponent >= -60
    }

    fn in_parts(&self) -> (r: u128)
        requires
            self.moderate(),
        ensures
            r * pow2(1014) == self.size(),
            r < 0x4000_0000_0000_0000_0000_0000,
    {
        proof {
            lemma2_to64();
            lemma2_to64_rest();
            lemma_pow2_adds(1014, 60);
            lemma_pow2_pos(1014);
            self.lemma_size();
        }
        if self.mantissa == 0 {
            return 0;
        }
        let ghost e = self.exponent as int;
        let ghost big = (e + 1074) as nat;
        let ghost k = (e + 60) as nat;
        let ghost m = self.mantissa as int;
        let ghost a = pow2(1014) as int;
        proof {
            lemma_pow2_adds(1014, k);
            if e >= 34 {
                lemma_pow2_adds(1074, 34);
                if e > 34 {
                    lemma_pow2_strictly_increases(1108, big);
                }
                assert(m * pow2(big) >= pow2(big)) by (nonlinear_arith)
                    requires
                        m >= 1,
                ;
                assert(0x4_0000_0000 * one() == one() * 0x4_0000_0000);
            }
        }
        let p: u128 = power_of_two((self.exponent + 60) as u32);
        proof {
            let q = p as int;
            assert(m * (a * q) == (m * q) * a) by (nonlinear_arith);
            assert(m * q < 0x4000_0000_0000_0000_0000_0000) by (nonlinear_arith)
                requires
                    (m * q) * a < 0x4_0000_0000 * (a * 0x1000_0000_0000_0000),
                    a > 0,
            ;
            assert(m * q >= 0) by (nonlinear_arith)
                requires
                    m >= 0,
                    q >= 0,
            ;
        }
        self.mantissa as u128 * p
    }

    /// The double nearest to the number times `k / d`; none where that is
    /// infinite.
    pub(crate) fn times(&self, k: u64, d: u64) -> (r: Option<Binary>)
        requires
            self.wf(),
            k <= 1000,
            0 < d <= 1000,
        ensures
            match r {
                Some(b) => b.wf() && b.negative == self.negative && b.size() == nearest(
                    self.size() * k,
                    d as int,
                ),
                None => nearest(self.size() * k, d as int) >= top(),
            },
    {
        let ghost m = self.mantissa as int;
        let ghost p = pow2((self.exponent + 1074) as nat) as int;
        assert((m * k) * p == (m * p) * k) by (nonlinear_arith);
        assert(0 <= m * k <= 0x20_0000_0000_0000 * 1000) by (nonlinear_arith)
            requires
                0 <= m < 0x20_0000_0000_0000,
                0 <= k <= 1000,
        ;
        match nearest_of(self.mantissa as u128 * k as u128, d as u128, self.exponent) {
            Some(b) => Some(
                Binary { negative: self.negative, mantissa: b.mantissa, exponent: b.exponent },
            ),
            None => None,
        }
    }

    /// The double nearest to a moderate number times `k / d`.
    pub(crate) fn scaled(&self, k: u64, d: u64) -> (r: Binary)
        requires
            self.wf(),
            self.size() < 0x1000_0000_0000 * one(),
            k <= 10,
            0 < d <= 10,
        ensures
            r.wf(),
            r.negative == self.negative,
            r.size() == nearest(self.size() * k, d as int),
            r.size() <= 20 * self.size() + 1,
    {
        proof {
            let s = self.size();
            let o = one();
            let e = d as int;
            self.lemma_size();
            lemma_one();
            lemma2_to64();
            lemma2_to64_rest();
            lemma_pow2_adds(1074, 50);
            lemma_pow2_strictly_increases(1124, 2098);
            assert(0 <= s * k <= 10 * s) by (nonlinear_arith)
                requires
                    0 <= k <= 10,
                    s >= 0,
            ;
            lemma_near(s * k, e);
            let g = nearest(s * k, e);
            assert(g <= 2 * (s * k) + 1) by (nonlinear_arith)
                requires
                    g * e <= 2 * (s * k) + e,
                    e >= 1,
                    g >= 0,
                    s * k >= 0,
            ;
        }
        match self.times(k, d) {
            Some(b) => b,
            None => {
                assert(false);
                Binary { negative: self.negative, mantissa: 0, exponent: 0 }
            },
        }
    }

    /// The magnitude times `2^s`, cut to a whole number of at most 64 bits.
    pub(crate) fn shifted(&self, s: u32) -> (r: u64)
        requires
            self.wf(),
            s <= 40,
        ensures
            r == capped((self.size() * pow2(s as nat)) / one(), u64::MAX as int),
    {
        let e: i32 = self.exponent + s as i32;
        let ghost m = self.mantissa as int;
        let ghost o = one();
        let ghost big = (self.exponent + 1074) as nat;
        let ghost v = self.size() * pow2(s as nat);
        proof {
            lemma_one();
            lemma2_to64();
            lemma2_to64_rest();
            lemma_pow2_adds(big, s as nat);
            let a = pow2(big) as int;
            let b = pow2(s as nat) as int;
            assert((m * a) * b == m * (a * b)) by (nonlinear_arith);
        }
        if e >= 0 {
            let ghost p = pow2(e as nat) as int;
            proof {
                lemma_pow2_adds(e as nat, 1074);
                lemma_pow2_pos(e as nat);
                assert(m * (p * o) == (m * p) * o) by (nonlinear_arith);
                lemma_div_multiples_vanish(m * p, o);
                assert((m * p) * o == o * (m * p)) by (nonlinear_arith);
            }
            if self.mantissa == 0 {
                assert(m * p == 0) by (nonlinear_arith)
                    requires
                        m == 0,
                ;
                return 0;
            }
            if e > 64 {
                proof {
                    lemma_pow2_strictly_increases(64, e as nat);
                    assert(m * p >= p) by (nonlinear_arith)
                        requires
                            m >= 1,
                            p > 0,
                    ;
                }
                return u64::MAX;
            }
            let q: u128 = power_of_two(e as u32);
            proof {
                if e < 64 {
                    lemma_pow2_strictly_increases(e as nat, 64);
                }
                assert(0 <= m * p <= 0x20_0000_0000_0000 * 0x1_0000_0000_0000_0000) by (nonlinear_arith)
                    requires
                        0 <= m <= 0x20_0000_0000_0000,
                        0 <= p <= 0x1_0000_0000_0000_0000,
                ;
            }
            let w: u128 = self.mantissa as u128 * q;
            if w < 0xffff_ffff_ffff_ffff {
                w as u64
            } else {
                u64::MAX
            }
        } else {
            let ghost k = (-e) as nat;
            let ghost d = pow2(k) as int;
            let ghost a = pow2((e + 1074) as nat) as int;
            proof {
                lemma_pow2_adds((e + 1074) as nat, k);
                lemma_pow2_pos((e + 1074) as nat);
                lemma_pow2_pos(k);
                assert(m * a == a * m) by (nonlinear_arith);
                lemma_div_multiples_vanish_quotient(a, m, d);
            }
            if e < -60 {
                proof {
                    lemma_pow2_strictly_increases(60, k);
                    assert(m / d == 0) by (nonlinear_arith)
                        requires
                            0 <= m < d,
                    ;
                }
                return 0;
            }
            let p: u128 = power_of_two((-e) as u32);
            let w: u128 = self.mantissa as u128 / p;
            assert(m / d <= m) by (nonlinear_arith)
                requires
                    m >= 0,
                    d >= 1,
            ;
            w as u64
        }
    }

    /// The whole number nearest to the magnitude, halves up.
    pub(crate) fn to_whole(&self) -> (r: u64)
        requires
            self.wf(),
            self.size() < 0x4_0000_0000 * one(),
        ensures
            r == rounded(self.size(), one()),
            r <= 0x4_0000_0000,
    {
        proof {
            self.lemma_size();
            lemma_one();
            lemma2_to64();
            lemma2_to64_rest();
            lemma_pow2_adds(1014, 60);
            lemma_pow2_pos(1014);
        }
        let ghost o = one();
        let ghost s = self.size();
        if self.mantissa > 0 && self.exponent < -60 {
            proof {
                if s * 32 >= o {
                    lemma_exponent(*self);
                }
                assert((2 * s + o) / (2 * o) == 0) by (nonlinear_arith)
                    requires
                        0 <= s,
                        s * 32 < o,
                ;
            }
            return 0;
        }
        let n: u128 = self.in_parts();
        let r: u128 = (2 * n + 0x1000_0000_0000_0000) / 0x2000_0000_0000_0000;
        proof {
            let a = pow2(1014) as int;
            let h = 0x1000_0000_0000_0000int;
            let m = n as int;
            assert(2 * (m * a) + a * h == a * (2 * m + h)) by (nonlinear_arith);
            assert(2 * (a * h) == a * (2 * h)) by (nonlinear_arith);
            lemma_div_multiples_vanish_quotient(a, 2 * m + h, 2 * h);
        }
        r as u64
    }
}

/// The double nearest to the difference of two numbers that are not below
/// zero.
pub(crate) fn difference(a: &Binary, b: &Binary) -> (r: Binary)
    requires
        a.moderate() && !a.negative,
        b.moderate() && !b.negative,
    ensures
        r.wf(),
        r.negative == (a.size() < b.size()),
        r.exact() == nearest_signed(a.size() - b.size(), 1),
        r.size() < 0x10_0000_0000 * one(),
{
    let x: u128 = a.in_parts();
    let y: u128 = b.in_parts();
    let negative = x < y;
    let n: u128 = if negative {
        y - x
    } else {
        x - y
    };
    let ghost q = pow2(1014) as int;
    proof {
        lemma_pow2_pos(1014);
        let i = x as int;
        let j = y as int;
        assert((i - j) * q == i * q - j * q) by (nonlinear_arith);
        assert((j - i) * q == j * q - i * q) by (nonlinear_arith);
        assert(i < j <==> i * q < j * q) by (nonlinear_arith)
            requires
                q > 0,
        ;
        assert(n * q >= 0) by (nonlinear_arith)
            requires
                n >= 0,
                q > 0,
        ;
    }
    match nearest_of(n, 1, -60) {
        Some(v) => {
            proof {
                lemma_near(n * q, 1);
                lemma_one();
                if n * q == 0 {
                    lemma_zero(1);
                }
            }
            Binary { negative, mantissa: v.mantissa, exponent: v.exponent }
        },
        None => {
            proof {
                let v = n * q;
                lemma_near(v, 1);
                if v == 0 {
                    lemma_zero(1);
                }
                lemma2_to64();
                lemma2_to64_rest();
                lemma_pow2_adds(1014, 60);
                lemma_pow2_adds(1074, 34);
                lemma_pow2_unfold(1109);
                lemma_pow2_strictly_increases(1109, 2098);
                assert(0x4_0000_0000 * one() == one() * 0x4_0000_0000);
                assert(false);
            }
            Binary { negative, mantissa: 0, exponent: 0 }
        },
    }
}

/// The double nearest to `n / d`.
pub(crate) fn quotient(n: u32, d: u32) -> (r: Binary)
    requires
        0 < d <= 100,
        n > 0 ==> 16 * n >= d,
    ensures
        r.moderate(),
        !r.negative,
        r.size() == nearest(n * one(), d as int),
{
    let ghost o = one();
    let ghost v = n * o;
    proof {
        lemma_one();
        lemma2_to64();
        lemma2_to64_rest();
        lemma_pow2_adds(1074, 32);
        lemma_pow2_unfold(1107);
        lemma_pow2_strictly_increases(1107, 2098);
        lemma_near(v, d as int);
        lemma_pow2_strictly_increases(7, 1074);
        let i = n as int;
        let e = d as int;
        let s = nearest(v, e);
        assert(v >= 0) by (nonlinear_arith)
            requires
                v == i * o,
                i >= 0,
                o > 0,
        ;
        if i > 0 {
            assert(v >= e && 16 * v >= e * o) by (nonlinear_arith)
                requires
                    v == i * o,
                    i >= 1,
                    16 * i >= e,
                    o >= 128,
                    0 < e <= 100,
            ;
            assert(s * 32 >= o) by (nonlinear_arith)
                requires
                    16 * v >= e * o,
                    v <= 2 * (s * e),
                    e > 0,
            ;
            assert(s <= 2 * v) by (nonlinear_arith)
                requires
                    s * e <= 2 * v,
                    e >= 1,
                    s >= 0,
            ;
            assert(2 * v < 0x2_0000_0000 * o) by (nonlinear_arith)
                requires
                    v == i * o,
                    i < 0x1_0000_0000,
                    o > 0,
            ;
        } else {
            assert(v == 0);
            lemma_zero(e);
        }
    }
    match nearest_of(n as u128, d as u128, 0) {
        Some(b) => {
            proof {
                b.lemma_size();
                if n > 0 {
                    lemma_exponent(b);
                }
            }
            b
        },
        None => {
            assert(false);
            Binary { negative: false, mantissa: 0, exponent: 0 }
        },
    }
}

// ---------------------------------------------------------------------------
// Millionths

/// The double nearest to so many millionths.
pub open spec fn double_of(millionths: int) -> int {
    nearest_signed(millionths * one(), 1_000_000)
}

/// So many millionths for a double that should be theirs, or one more or less
/// where it lies above or below: what is near a limit, or half way between two
/// tenths, is treated as the double is.
pub open spec fn beside(double: int, millionths: int) -> int {
    if double > double_of(millionths) {
        millionths + 1
    } else if double < double_of(millionths) {
        millionths - 1
    } else {
        millionths
    }
}

/// A temperature whose differences are taken as those of doubles.
pub open spec fn ordinary(v: int) -> bool {
    UNIT <= v <= 1000 * UNIT
}

/// The difference of two temperatures: that of the doubles nearest to them, to
/// the millionth.
pub open spec fn minus(a: int, b: int) -> int {
    if ordinary(a) && ordinary(b) {
        beside(nearest_signed(double_of(a) - double_of(b), 1), a - b)
    } else {
        a - b
    }
}

/// A difference is the exact one, to the millionth.
pub proof fn lemma_minus(a: int, b: int)
    ensures
        a - b - 1 <= minus(a, b) <= a - b + 1,
{
}

/// Whether one magnitude is below another.
fn size_less(a: &Binary, b: &Binary) -> (r: bool)
    requires
        a.wf(),
        b.wf(),
    ensures
        r == (a.size() < b.size()),
{
    if a.exponent >= b.exponent {
        let k: i32 = a.exponent - b.exponent;
        compare_aligned(a, b, k).0
    } else {
        let k: i32 = b.exponent - a.exponent;
        compare_aligned(b, a, k).1
    }
}

/// Whether the first magnitude is below, and whether it is above, the second,
/// whose parts are finer by `2^k`.
fn compare_aligned(a: &Binary, b: &Binary, k: i32) -> (r: (bool, bool))
    requires
        a.wf(),
        b.wf(),
        k == a.exponent - b.exponent,
        k >= 0,
    ensures
        r.0 == (a.size() < b.size()),
        r.1 == (a.size() > b.size()),
{
    let ghost p = pow2((b.exponent + 1074) as nat) as int;
    let ghost q = pow2(k as nat) as int;
    let ghost m = a.mantissa as int;
    let ghost n = b.mantissa as int;
    proof {
        lemma2_to64();
        lemma2_to64_rest();
        lemma_pow2_pos((b.exponent + 1074) as nat);
        lemma_pow2_pos(k as nat);
        lemma_pow2_adds((b.exponent + 1074) as nat, k as nat);
        assert(m * (p * q) == (m * q) * p) by (nonlinear_arith);
        let w = m * q;
        assert(w * p < n * p <==> w < n) by (nonlinear_arith)
            requires
                p > 0,
        ;
        assert(w * p > n * p <==> w > n) by (nonlinear_arith)
            requires
                p > 0,
        ;
    }
    if a.mantissa == 0 {
        assert(m * q == 0) by (nonlinear_arith)
            requires
                m == 0,
        ;
        return (b.mantissa > 0, false);
    }
    if k > 60 {
        proof {
            lemma_pow2_strictly_increases(60, k as nat);
            assert(m * q >= q) by (nonlinear_arith)
                requires
                    m >= 1,
                    q > 0,
            ;
        }
        return (false, true);
    }
    let w: u128 = power_of_two(k as u32);
    proof {
        if k < 60 {
            lemma_pow2_strictly_increases(k as nat, 60);
        }
        assert(0 <= m * q <= 0x20_0000_0000_0000 * 0x1000_0000_0000_0000) by (nonlinear_arith)
            requires
                0 <= m <= 0x20_0000_0000_0000,
                0 <= q <= 0x1000_0000_0000_0000,
        ;
    }
    let v: u128 = a.mantissa as u128 * w;
    (v < b.mantissa as u128, v > b.mantissa as u128)
}

/// The double nearest to so many millionths.
fn from_millionths(v: u64) -> (r: Binary)
    ensures
        r.wf(),
        !r.negative,
        r.size() == nearest(v * one(), 1_000_000),
        ordinary(v as int) ==> r.moderate(),
{
    let ghost n = v * one();
    proof {
        let o = one();
        lemma_one();
        lemma2_to64();
        lemma2_to64_rest();
        lemma_pow2_strictly_increases(63, 1074);
        lemma_pow2_adds(1074, 50);
        lemma_pow2_strictly_increases(1124, 2098);
        let i = v as int;
        assert(0 <= n <= 0x1_0000_0000_0000_0000 * o) by (nonlinear_arith)
            requires
                n == i * o,
                0 <= i <= 0x1_0000_0000_0000_0000,
                o > 0,
        ;
        lemma_near(n, 1_000_000);
        if ordinary(i) {
            assert(UNIT == 1_000_000);
            assert(1_000_000 * o <= n <= 1_000_000_000 * o) by (nonlinear_arith)
                requires
                    n == i * o,
                    1_000_000 <= i <= 1_000_000_000,
                    o > 0,
            ;
        }
    }
    match nearest_of(v as u128, 1_000_000, 0) {
        Some(b) => {
            proof {
                if ordinary(v as int) {
                    lemma_exponent(b);
                }
            }
            b
        },
        None => {
            assert(false);
            Binary { negative: false, mantissa: 0, exponent: 0 }
        },
    }
}

/// `beside`.
pub(crate) fn beside_of(double: &Binary, millionths: i64) -> (r: i64)
    requires
        double.wf(),
        -0x7000_0000_0000_0000 <= millionths <= 0x7000_0000_0000_0000,
    ensures
        r == beside(double.exact(), millionths as int),
{
    let size: u64 = if millionths < 0 {
        (-millionths) as u64
    } else {
        millionths as u64
    };
    let f = from_millionths(size);
    let ghost e = millionths as int;
    let ghost o = one();
    proof {
        lemma_one();
        double.lemma_size();
        f.lemma_size();
        assert((-e) * o == -(e * o)) by (nonlinear_arith);
        assert(e < 0 ==> e * o < 0) by (nonlinear_arith)
            requires
                o > 0,
        ;
        assert(e >= 0 ==> e * o >= 0) by (nonlinear_arith)
            requires
                o > 0,
        ;
        assert(double_of(e) == if e < 0 {
            -f.size()
        } else {
            f.size()
        });
    }
    if double.mantissa == 0 && f.mantissa == 0 {
        return millionths;
    }
    let above = if double.negative {
        millionths < 0 && size_less(double, &f)
    } else {
        millionths < 0 || size_less(&f, double)
    };
    let below = if double.negative {
        millionths >= 0 || size_less(&f, double)
    } else {
        millionths >= 0 && size_less(double, &f)
    };
    if above {
        millionths + 1
    } else if below {
        millionths - 1
    } else {
        millionths
    }
}

/// The difference of two temperatures.
pub fn subtract(a: i64, b: i64) -> (r: i64)
    requires
        -LIMIT <= a <= LIMIT,
        -LIMIT <= b <= LIMIT,
    ensures
        r == minus(a as int, b as int),
{
    if UNIT <= a && a <= 1000 * UNIT && UNIT <= b && b <= 1000 * UNIT {
        proof {
            let o = one();
            lemma_one();
            assert(a * o >= 0 && b * o >= 0) by (nonlinear_arith)
                requires
                    a >= 0,
                    b >= 0,
                    o > 0,
            ;
        }
        let d = difference(&from_millionths(a as u64), &from_millionths(b as u64));
        beside_of(&d, a - b)
    } else {
        a - b
    }
}

} // verus!
