//! Doubles as text, whatever they hold.
use vstd::arithmetic::power2::*;
use vstd::prelude::*;

use crate::big::{digits_of, push_digits, sound, times, value};
use crate::decimal::{half_even, half_even_wide, push_tenths_text, tenths_text};
use crate::fixed::{
    double_of, double_value, lemma_half_even_cancel, lemma_one, lemma_pow2_80, one, power_of_two,
    Binary,
};
use crate::text::push_dec;

verus! {

impl Binary {
    /// The magnitude in tenths, halves to even.
    pub open spec fn tenths(self) -> int {
        half_even(self.size() * 10, one())
    }

    /// The number with one digit behind the point.
    pub open spec fn shown(self) -> Seq<char> {
        (if self.negative {
            seq!['-']
        } else {
            Seq::empty()
        }) + tenths_text(self.tenths())
    }

    proof fn lemma_whole(self, n: int)
        requires
            self.wf(),
            self.exponent >= 0,
            n == self.mantissa * pow2(self.exponent as nat),
        ensures
            self.tenths() == 10 * n,
    {
        lemma_one();
        lemma_pow2_adds(self.exponent as nat, 1074);
        let m = self.mantissa as int;
        let p = pow2(self.exponent as nat) as int;
        let o = one();
        assert(self.size() * 10 == (n * 10) * o) by (nonlinear_arith)
            requires
                self.size() == m * (p * o),
                n == m * p,
        ;
        assert(n >= 0) by (nonlinear_arith)
            requires
                n == m * p,
                m >= 0,
                p >= 0,
        ;
        lemma_half_even_cancel(n * 10, 1, o);
    }

    proof fn lemma_part(self)
        requires
            self.wf(),
            self.exponent < 0,
        ensures
            self.tenths() == half_even(self.mantissa * 10, pow2((-self.exponent) as nat) as int),
    {
        lemma_one();
        let e = (-self.exponent) as nat;
        let q = (self.exponent + 1074) as nat;
        let d = pow2(e) as int;
        let pq = pow2(q) as int;
        let m = self.mantissa as int;
        let o = one();
        lemma_pow2_adds(q, e);
        lemma_pow2_pos(e);
        lemma_pow2_pos(q);
        assert(o == d * pq) by (nonlinear_arith)
            requires
                o == pq * d,
        ;
        assert(self.size() * 10 == (m * 10) * pq) by (nonlinear_arith)
            requires
                self.size() == m * pq,
        ;
        lemma_half_even_cancel(m * 10, d, pq);
    }

    fn push_whole(&self, out: &mut String)
        requires
            self.wf(),
            self.exponent >= 0,
        ensures
            final(out)@ == old(out)@ + tenths_text(self.tenths()),
    {
        let ghost start = out@;
        let ghost n = self.mantissa * pow2(self.exponent as nat);
        proof {
            self.lemma_whole(n);
        }
        if self.mantissa == 0 {
            assert(n == 0) by (nonlinear_arith)
                requires
                    n == 0 * pow2(self.exponent as nat),
            ;
            push_tenths_text(out, 0);
            return;
        }
        let mut ds: Vec<u8> = digits_of(self.mantissa);
        let mut i: i32 = 0;
        proof {
            lemma2_to64();
            assert(self.mantissa * pow2(0) == self.mantissa);
        }
        while i < self.exponent
            invariant
                0 <= i <= self.exponent,
                sound(ds@),
                value(ds@) == self.mantissa * pow2(i as nat),
            decreases self.exponent - i,
        {
            proof {
                lemma_pow2_unfold((i + 1) as nat);
                let m = self.mantissa as int;
                let p = pow2(i as nat) as int;
                assert(m * (2 * p) == 2 * (m * p)) by (nonlinear_arith);
            }
            ds = times(&ds, 2);
            i = i + 1;
        }
        push_digits(out, &ds);
        out.push('.');
        push_dec(out, 0);
        assert((10 * n) / 10 == n && (10 * n) % 10 == 0);
        assert(out@ =~= start + tenths_text(10 * n));
    }

    /// Appends the number with one digit behind the point.
    pub fn push_shown(&self, out: &mut String)
        requires
            self.wf(),
        ensures
            final(out)@ == old(out)@ + self.shown(),
    {
        let ghost start = out@;
        if self.negative {
            out.push('-');
        }
        let ghost sign = if self.negative {
            seq!['-']
        } else {
            Seq::empty()
        };
        assert(out@ =~= start + sign);
        if self.exponent >= 0 {
            self.push_whole(out);
            assert(out@ =~= start + self.shown());
            return;
        }
        proof {
            self.lemma_part();
        }
        let ghost e = (-self.exponent) as nat;
        let ghost d = pow2(e) as int;
        if self.exponent < -80 {
            proof {
                lemma_pow2_80();
                lemma_pow2_strictly_increases(80, e);
                let n = self.mantissa * 10;
                assert(n / d == 0 && n % d == n) by (nonlinear_arith)
                    requires
                        0 <= n < d,
                ;
            }
            push_tenths_text(out, 0);
            assert(out@ =~= start + self.shown());
            return;
        }
        let p: u128 = power_of_two((-self.exponent) as u32);
        assert(p <= 0x1_0000_0000_0000_0000_0000) by {
            lemma_pow2_80();
            if e < 80 {
                lemma_pow2_strictly_increases(e, 80);
            }
        }
        let n: u128 = self.mantissa as u128 * 10;
        let t: u128 = half_even_wide(n, p);
        assert(n as int / p as int <= n) by (nonlinear_arith)
            requires
                n >= 0,
                p >= 1,
        ;
        push_tenths_text(out, t as u64);
        assert(out@ =~= start + self.shown());
    }
}

/// A double with one digit behind the point, or what it is instead of a number.
pub open spec fn double_text(bits: u64) -> Seq<char> {
    match double_value(bits) {
        Some(v) => v.shown(),
        None => if bits % 0x10_0000_0000_0000 != 0 {
            "NaN"@
        } else if bits >= 0x8000_0000_0000_0000 {
            "-inf"@
        } else {
            "inf"@
        },
    }
}

/// Writes a double with one digit behind the point.
pub fn show_double(bits: u64) -> (r: String)
    ensures
        r@ == double_text(bits),
{
    let mut r = String::new();
    match double_of(bits) {
        Some(v) => {
            v.push_shown(&mut r);
        },
        None => {
            r.append(
                if bits % 0x10_0000_0000_0000 != 0 {
                    "NaN"
                } else if bits >= 0x8000_0000_0000_0000 {
                    "-inf"
                } else {
                    "inf"
                },
            );
        },
    }
    assert(r@ =~= double_text(bits));
    r
}

} // verus!
