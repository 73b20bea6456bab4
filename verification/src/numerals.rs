//! Numbers in text, read as doubles.
use vstd::arithmetic::div_mod::*;
use vstd::arithmetic::power::*;
use vstd::arithmetic::power2::*;
use vstd::prelude::*;

use crate::big::{
    decimal_digits, ends_in_zeros, front, lemma_split, times, value, with_zeros,
};
use crate::decimal::{
    all_digits, capped, decimal, half_even, number, scan_decimal, shift_told, Decimal, LIMIT,
};
use crate::fixed::{
    double_of, double_value, in_millionths, int_of, lemma_in_millionths_bound,
    lemma_in_millionths_zero, lemma_one, one, Binary,
};
use crate::nearest::{
    coarse, finish, lemma_filled, lemma_near, lemma_scale, lemma_zero, nearest, top, FULL,
};
use crate::text::{ascii_lower, digit, same, string_of, to_ascii_lower};

verus! {

// ---------------------------------------------------------------------------
// What a text stands for

/// What a text stands for: a number, in steps of `2^-1074`, an infinite one on
/// either side, or nothing that is a number.
pub ghost enum NumeralView {
    Number(int),
    Above,
    Below,
    Undefined,
}

/// A number that was read.
#[derive(Clone, Copy)]
pub enum Numeral {
    Finite(Binary),
    /// Beyond all doubles; whether it is below zero.
    Infinite(bool),
    Undefined,
}

impl View for Numeral {
    type V = NumeralView;

    open spec fn view(&self) -> NumeralView {
        match *self {
            Numeral::Finite(b) => NumeralView::Number(b.exact()),
            Numeral::Infinite(negative) => if negative {
                NumeralView::Below
            } else {
                NumeralView::Above
            },
            Numeral::Undefined => NumeralView::Undefined,
        }
    }
}

impl Numeral {
    /// A finite number is sound.
    pub open spec fn wf(self) -> bool {
        match self {
            Numeral::Finite(b) => b.wf(),
            _ => true,
        }
    }
}

impl Decimal {
    /// The magnitude: the double nearest to it.
    pub open spec fn size(self) -> int {
        let n = number(self.digits) * one();
        if self.shift >= 0 {
            nearest(n * pow(10, self.shift as nat), 1)
        } else {
            nearest(n, pow(10, (-self.shift) as nat))
        }
    }

    /// The number as a double.
    pub open spec fn double(self) -> NumeralView {
        if self.size() >= top() {
            if self.negative {
                NumeralView::Below
            } else {
                NumeralView::Above
            }
        } else {
            NumeralView::Number(
                if self.negative {
                    -self.size()
                } else {
                    self.size()
                },
            )
        }
    }
}

/// A text without a sign in front.
pub open spec fn unsigned(s: Seq<char>) -> Seq<char> {
    if s.len() > 0 && (s[0] == '-' || s[0] == '+') {
        s.skip(1)
    } else {
        s
    }
}

/// What is no finite number, by its name.
pub open spec fn named(s: Seq<char>) -> Option<NumeralView> {
    let low = ascii_lower(unsigned(s));
    if low == "inf"@ || low == "infinity"@ {
        Some(
            if s[0] == '-' {
                NumeralView::Below
            } else {
                NumeralView::Above
            },
        )
    } else if low == "nan"@ {
        Some(NumeralView::Undefined)
    } else {
        None
    }
}

/// What a text stands for, if anything.
pub open spec fn numeral(s: Seq<char>) -> Option<NumeralView> {
    match decimal(s) {
        Some(d) => Some(d.double()),
        None => named(s),
    }
}

// ---------------------------------------------------------------------------
// Reading

proof fn lemma_thousands(k: nat)
    ensures
        pow(10, k) >= pow2(3 * k),
    decreases k,
{
    reveal(pow);
    lemma2_to64();
    if k > 0 {
        lemma_thousands((k - 1) as nat);
        lemma_pow2_adds((3 * (k - 1)) as nat, 3);
        let p = pow2((3 * (k - 1)) as nat) as int;
        assert(p * 8 <= 10 * pow(10, (k - 1) as nat));
    }
}

/// How large the number in digits is that do not begin with a zero.
proof fn lemma_number_bounds(s: Seq<char>)
    requires
        all_digits(s),
    ensures
        number(s) < pow(10, s.len()),
        s.len() > 0 && s[0] != '0' ==> number(s) >= pow(10, (s.len() - 1) as nat),
    decreases s.len(),
{
    reveal(pow);
    if s.len() > 0 {
        let t = s.drop_last();
        assert(all_digits(t)) by {
            assert forall|i: int| 0 <= i < t.len() implies digit(#[trigger] t[i]) by {
                assert(t[i] == s[i]);
            }
        }
        lemma_number_bounds(t);
        assert(digit(s[s.len() - 1]));
        assert(digit(s[0]));
        if t.len() > 0 {
            assert(t[0] == s[0]);
        } else {
            assert(number(t) == 0);
        }
    }
}

/// Zeros in front count nothing.
proof fn lemma_leading_zero(s: Seq<char>)
    requires
        s.len() > 0,
        s[0] == '0',
    ensures
        number(s) == number(s.skip(1)),
    decreases s.len(),
{
    let t = s.skip(1);
    if s.len() == 1 {
        assert(s.drop_last() =~= Seq::empty());
        assert(number(s.drop_last()) == 0);
        assert(number(t) == 0);
    } else {
        assert(s.drop_last()[0] == '0');
        lemma_leading_zero(s.drop_last());
        assert(s.drop_last().skip(1) =~= t.drop_last());
        assert(t.last() == s.last());
    }
}

fn without_zeros_before(s: &Vec<char>) -> (r: Vec<char>)
    requires
        all_digits(s@),
    ensures
        all_digits(r@),
        number(r@) == number(s@),
        r@.len() <= s@.len(),
        r@.len() > 0 ==> r@[0] != '0',
{
    let mut i: usize = 0;
    assert(s@.skip(0) =~= s@);
    while i < s.len() && s[i] == '0'
        invariant
            i <= s.len(),
            number(s@.skip(i as int)) == number(s@),
        decreases s.len() - i,
    {
        proof {
            lemma_leading_zero(s@.skip(i as int));
            assert(s@.skip(i as int).skip(1) =~= s@.skip(i + 1));
        }
        i = i + 1;
    }
    let r = vstd::slice::slice_to_vec(vstd::slice::slice_subrange(s.as_slice(), i, s.len()));
    assert(r@ =~= s@.skip(i as int));
    assert forall|j: int| 0 <= j < r@.len() implies digit(#[trigger] r@[j]) by {
        assert(r@[j] == s@[i + j]);
    }
    r
}

/// Rounding by twice the number: whether the half is reached, and whether
/// exactly.
proof fn lemma_by_twice(n: int, d: int)
    requires
        n >= 0,
        d > 0,
    ensures
        ({
            let h = (2 * n) / d;
            let z = (2 * n) % d;
            &&& n / d == h / 2
            &&& half_even(n, d) == if h % 2 == 1 && (z != 0 || (h / 2) % 2 == 1) {
                h / 2 + 1
            } else {
                h / 2
            }
        }),
{
    let q = n / d;
    let r = n % d;
    lemma_fundamental_div_mod(n, d);
    lemma_mod_bound(n, d);
    if 2 * r >= d {
        assert(2 * n == (2 * q + 1) * d + (2 * r - d)) by (nonlinear_arith)
            requires
                n == d * q + r,
        ;
        lemma_fundamental_div_mod_converse(2 * n, d, 2 * q + 1, 2 * r - d);
    } else {
        assert(2 * n == (2 * q) * d + 2 * r) by (nonlinear_arith)
            requires
                n == d * q + r,
        ;
        lemma_fundamental_div_mod_converse(2 * n, d, 2 * q, 2 * r);
    }
}

/// The number in front of the last digits, and those, by division.
proof fn lemma_parts(ds: Seq<u8>, f: int)
    requires
        decimal_digits(ds),
        0 <= f <= ds.len(),
    ensures
        pow(10, f as nat) > 0,
        value(ds) as int / pow(10, f as nat) == value(ds.skip(f)),
        value(ds) as int % pow(10, f as nat) == value(ds.take(f)),
{
    lemma_split(ds, f);
    lemma_pow_positive(10, f as nat);
    let d = pow(10, f as nat);
    let q = value(ds.skip(f)) as int;
    assert(value(ds) == q * d + value(ds.take(f))) by (nonlinear_arith)
        requires
            value(ds) == value(ds.take(f)) + d * q,
    ;
    lemma_fundamental_div_mod_converse(value(ds) as int, d, q, value(ds.take(f)) as int);
}

/// Rounds the number in digits of which the last `f` stand behind the point;
/// none where the double is infinite.
fn big_nearest(digits: Vec<u8>, places: usize) -> (r: Option<Binary>)
    requires
        decimal_digits(digits@),
        places <= digits@.len(),
        value(digits@) > 0,
    ensures
        ({
            let v = nearest(value(digits@) * one(), pow(10, places as nat));
            match r {
                Some(b) => b.wf() && !b.negative && b.size() == v && v < top(),
                None => v >= top(),
            }
        }),
{
    let ghost goal = nearest(value(digits@) * one(), pow(10, places as nat));
    let mut ds: Vec<u8> = digits;
    let mut f: usize = places;
    let mut x: i32 = 0;
    let mut h: u64 = front(&ds, f, 0x40_0000_0000_0000);
    while h >= FULL
        invariant
            decimal_digits(ds@),
            f <= ds@.len(),
            value(ds@) > 0,
            0 <= x <= 1000,
            goal == nearest(value(digits@) * one(), pow(10, places as nat)),
            h == capped(value(ds@.skip(f as int)) as int, 0x40_0000_0000_0000),
            nearest(value(ds@) as int * pow2((x + 1074) as nat), pow(10, f as nat)) == goal,
        decreases 1000 - x,
    {
        let ghost n = value(ds@) as int;
        let ghost d = pow(10, f as nat);
        let ghost p = pow2((x + 1074) as nat) as int;
        proof {
            lemma_split(ds@, f as int);
            lemma_pow_positive(10, f as nat);
            lemma_pow2_pos((x + 1074) as nat);
            let q = value(ds@.skip(f as int)) as int;
            assert(n >= d * FULL) by (nonlinear_arith)
                requires
                    n >= d * q,
                    q >= FULL,
                    d > 0,
            ;
            assert(n * p >= 0) by (nonlinear_arith)
                requires
                    n >= 0,
                    p > 0,
            ;
        }
        if x >= 1000 {
            proof {
                let v = n * p;
                lemma2_to64();
                lemma2_to64_rest();
                lemma_pow2_adds(2074, 53);
                lemma_pow2_unfold(2127);
                lemma_pow2_strictly_increases(2098, 2126);
                assert(v >= d * (p * FULL)) by (nonlinear_arith)
                    requires
                        v == n * p,
                        n >= d * FULL,
                        p > 0,
                ;
                assert(d * (p * FULL) >= d) by (nonlinear_arith)
                    requires
                        d > 0,
                        p > 0,
                        FULL > 1,
                ;
                lemma_near(v, d);
                let g = nearest(v, d);
                let t = p * FULL;
                assert(2 * g >= t) by (nonlinear_arith)
                    requires
                        v >= d * t,
                        v <= 2 * (g * d),
                        d > 0,
                ;
                assert(x == 1000);
                assert(t == pow2(2127)) by (nonlinear_arith)
                    requires
                        t == p * FULL,
                        pow2(2127) == p * pow2(53),
                        pow2(53) == FULL,
                ;
                assert(g == goal);
            }
            return None;
        }
        proof {
            lemma_scale(n * p, d, 10);
            lemma_pow2_unfold((x + 1075) as nat);
            reveal(pow);
            assert(pow(10, (f + 1) as nat) == 10 * d);
            assert((5 * n) * (2 * p) == (n * p) * 10) by (nonlinear_arith);
            if ds@.len() == f {
                assert(ds@.skip(f as int).len() == 0);
            }
        }
        ds = times(&ds, 5);
        f = f + 1;
        x = x + 1;
        h = front(&ds, f, 0x40_0000_0000_0000);
    }
    while x > -1074 && h < FULL / 2
        invariant
            decimal_digits(ds@),
            f <= ds@.len(),
            value(ds@) > 0,
            -1074 <= x <= 1000,
            h < FULL,
            h == capped(value(ds@.skip(f as int)) as int, 0x40_0000_0000_0000),
            nearest(value(ds@) as int * pow2((x + 1074) as nat), pow(10, f as nat)) == goal,
        decreases x + 1074,
    {
        let ghost n = value(ds@) as int;
        proof {
            lemma_pow2_unfold((x + 1074) as nat);
            let p = pow2((x + 1073) as nat) as int;
            assert((2 * n) * p == n * (2 * p)) by (nonlinear_arith);
            lemma_parts(ds@, f as int);
        }
        let more = times(&ds, 2);
        proof {
            lemma_parts(more@, f as int);
            lemma_by_twice(n, pow(10, f as nat));
        }
        ds = more;
        x = x - 1;
        h = front(&ds, f, 0x40_0000_0000_0000);
    }
    let twice = times(&ds, 2);
    let h2: u64 = front(&twice, f, 0x40_0000_0000_0000);
    let exact = ends_in_zeros(&twice, f);
    let ghost n = value(ds@) as int;
    let ghost d = pow(10, f as nat);
    proof {
        lemma_parts(ds@, f as int);
        lemma_parts(twice@, f as int);
        lemma_by_twice(n, d);
        lemma_fundamental_div_mod(n, d);
        lemma_mod_bound(n, d);
        let q = n / d;
        assert(n < d * FULL) by (nonlinear_arith)
            requires
                n == d * q + n % d,
                0 <= n % d < d,
                q < FULL,
        ;
        if x > -1074 {
            assert(2 * n >= d * FULL) by (nonlinear_arith)
                requires
                    n == d * q + n % d,
                    0 <= n % d,
                    2 * q >= FULL,
                    d > 0,
            ;
        }
        lemma_filled(n, d, x + 1074);
    }
    let m: u64 = if h2 % 2 == 1 && (!exact || (h2 / 2) % 2 == 1) {
        h2 / 2 + 1
    } else {
        h2 / 2
    };
    finish(m, x)
}

/// A number that is too large for any double.
proof fn lemma_beyond(n: int, shift: int, len: nat)
    requires
        len >= 1,
        n >= pow(10, (len - 1) as nat),
        len - 1 + shift >= 342,
    ensures
        shift >= 0 ==> nearest(n * one() * pow(10, shift as nat), 1) >= top(),
        shift < 0 ==> nearest(n * one(), pow(10, (-shift) as nat)) >= top(),
{
    let o = one();
    lemma_one();
    lemma_thousands(342);
    lemma_pow2_adds(1074, 1026);
    lemma_pow2_unfold(2099);
    lemma_pow2_unfold(2100);
    lemma_pow_increases(10, 342, (len - 1 + shift) as nat);
    let big = pow(10, (len - 1 + shift) as nat);
    let a = pow(10, (len - 1) as nat);
    lemma_pow_positive(10, (len - 1) as nat);
    assert(big * o >= 4 * top()) by (nonlinear_arith)
        requires
            big >= pow2(1026),
            o * pow2(1026) == 4 * top(),
            o > 0,
    ;
    if shift >= 0 {
        let p = pow(10, shift as nat);
        lemma_pow_adds(10, (len - 1) as nat, shift as nat);
        lemma_pow_positive(10, shift as nat);
        let v = n * o * p;
        assert(v >= big * o) by (nonlinear_arith)
            requires
                v == n * o * p,
                n >= a,
                big == a * p,
                o > 0,
                p > 0,
        ;
        lemma_pow2_pos(2098);
        lemma_near(v, 1);
    } else {
        let p = pow(10, (-shift) as nat);
        lemma_pow_adds(10, (len - 1 + shift) as nat, (-shift) as nat);
        lemma_pow_positive(10, (-shift) as nat);
        let v = n * o;
        assert(v >= p * (big * o)) by (nonlinear_arith)
            requires
                v == n * o,
                n >= big * p,
                o > 0,
        ;
        lemma_pow2_pos(2098);
        let w = big * o;
        assert(p * w >= p) by (nonlinear_arith)
            requires
                p > 0,
                w >= 1,
        ;
        lemma_near(v, p);
        let g = nearest(v, p);
        assert(2 * g >= w) by (nonlinear_arith)
            requires
                v >= p * w,
                v <= 2 * (g * p),
                p > 0,
        ;
    }
}

/// A number that is too small for any double but zero.
proof fn lemma_vanishing(n: int, shift: int, len: nat)
    requires
        0 <= n < pow(10, len),
        len + shift <= -359,
    ensures
        nearest(n * one(), pow(10, (-shift) as nat)) == 0,
{
    let o = one();
    lemma_one();
    lemma_thousands(359);
    let k = (-(len + shift)) as nat;
    lemma_pow_increases(10, 359, k);
    lemma_pow_adds(10, len, k);
    lemma_pow2_adds(1074, 3);
    lemma2_to64();
    let d = pow(10, (-shift) as nat);
    let a = pow(10, len);
    let b = pow(10, k);
    lemma_pow_positive(10, len);
    lemma_pow_positive(10, k);
    let v = n * o;
    assert(8 * v < d) by (nonlinear_arith)
        requires
            v == n * o,
            0 <= n < a,
            d == a * b,
            b >= o * 8,
            o > 0,
    ;
    assert(v >= 0) by (nonlinear_arith)
        requires
            v == n * o,
            n >= 0,
            o > 0,
    ;
    assert(coarse(v, d) == 0);
    assert(pow2(0) == 1);
    assert(d * 1 == d);
    assert(v / d == 0 && v % d == v) by (nonlinear_arith)
        requires
            0 <= v < d,
    ;
    assert(half_even(v, d) == 0);
    assert(half_even(v, d) * 1 == 0);
}

/// The double nearest to so many times a power of ten; none where it is
/// infinite.
fn rounded_decimal(digits: &Vec<char>, shift: i128, Ghost(d): Ghost<Decimal>) -> (r: Option<Binary>)
    requires
        all_digits(digits@),
        digits@ == d.digits,
        shift_told(shift as int, d.shift),
        -2_000_000_000_000_000_000_000_000_000_000 <= shift
            <= 2_000_000_000_000_000_000_000_000_000_000,
    ensures
        match r {
            Some(b) => b.wf() && !b.negative && b.size() == d.size() && d.size() < top(),
            None => d.size() >= top(),
        },
{
    let s: Vec<char> = without_zeros_before(digits);
    let ghost n = number(s@) as int;
    let len: i128 = s.len() as i128;
    proof {
        lemma_one();
        lemma_pow2_pos(2098);
        lemma_number_bounds(s@);
    }
    let zero = Binary { negative: false, mantissa: 0, exponent: -1074 };
    assert(zero.size() == 0) by (nonlinear_arith)
        requires
            zero.size() == zero.mantissa * pow2((zero.exponent + 1074) as nat),
            zero.mantissa == 0,
    ;
    if s.len() == 0 {
        proof {
            assert(n == 0);
            assert(0 * one() == 0);
            if d.shift >= 0 {
                let p = pow(10, d.shift as nat);
                assert(0 * p == 0) by (nonlinear_arith);
                lemma_zero(1);
            } else {
                lemma_pow_positive(10, (-d.shift) as nat);
                lemma_zero(pow(10, (-d.shift) as nat));
            }
        }
        return Some(zero);
    }
    if len - 1 + shift >= 342 {
        proof {
            lemma_beyond(n, d.shift, s@.len());
        }
        return None;
    }
    if len + shift <= -359 {
        proof {
            lemma_vanishing(n, d.shift, s@.len());
        }
        return Some(zero);
    }
    assert(d.shift == shift);
    proof {
        lemma_pow_positive(10, (s@.len() - 1) as nat);
    }
    if shift >= 0 {
        let ds = with_zeros(&s, shift as usize, 0);
        proof {
            let p = pow(10, shift as nat);
            lemma_pow_positive(10, shift as nat);
            lemma_pow0(10);
            let o = one();
            assert((n * p) * o == n * o * p) by (nonlinear_arith);
            assert(n * p > 0) by (nonlinear_arith)
                requires
                    n > 0,
                    p > 0,
            ;
        }
        big_nearest(ds, 0)
    } else {
        let ds = with_zeros(&s, 0, 359);
        let most: usize = ds.len();
        proof {
            lemma_pow0(10);
            assert(n * 1 == n);
            assert(-shift <= most);
            assert(value(ds@) == n);
        }
        big_nearest(ds, (-shift) as usize)
    }
}

/// Reads a number.
pub fn parse_numeral(s: &[char]) -> (r: Option<Numeral>)
    ensures
        r is Some <==> numeral(s@) is Some,
        r is Some ==> r->0.wf() && Some(r->0@) == numeral(s@),
{
    match scan_decimal(s) {
        Some((negative, digits, shift)) => {
            let ghost d = decimal(s@)->0;
            match rounded_decimal(&digits, shift, Ghost(d)) {
                Some(b) => Some(
                    Numeral::Finite(Binary { negative, mantissa: b.mantissa, exponent: b.exponent }),
                ),
                None => Some(Numeral::Infinite(negative)),
            }
        },
        None => parse_name(s),
    }
}

fn parse_name(s: &[char]) -> (r: Option<Numeral>)
    ensures
        r is Some <==> named(s@) is Some,
        r is Some ==> r->0.wf() && Some(r->0@) == named(s@),
{
    let start: usize = if s.len() > 0 && (s[0] == '-' || s[0] == '+') {
        1
    } else {
        0
    };
    let rest = vstd::slice::slice_subrange(s, start, s.len());
    assert(rest@ =~= unsigned(s@));
    let low = to_ascii_lower(string_of(rest).as_str());
    if same(low.as_str(), "inf") || same(low.as_str(), "infinity") {
        proof {
            reveal_strlit("inf");
            reveal_strlit("infinity");
            assert(low@.len() > 0);
            assert(rest@.len() > 0);
        }
        Some(Numeral::Infinite(s[0] == '-'))
    } else if same(low.as_str(), "nan") {
        Some(Numeral::Undefined)
    } else {
        None
    }
}

// ---------------------------------------------------------------------------
// Millionths

impl NumeralView {
    /// The number in millionths, at most `LIMIT` either way; none where it is
    /// none.
    pub open spec fn millionths(self) -> Option<int> {
        match self {
            NumeralView::Number(v) => Some(
                if v < 0 {
                    -limited(-v)
                } else {
                    limited(v)
                },
            ),
            NumeralView::Above => Some(LIMIT as int),
            NumeralView::Below => Some(-LIMIT),
            NumeralView::Undefined => None,
        }
    }
}

/// A magnitude in millionths, at most `LIMIT`.
pub open spec fn limited(v: int) -> int {
    if v < 1_000_000_000_000 * one() {
        in_millionths(v)
    } else {
        LIMIT as int
    }
}

/// The number that a text stands for, in millionths.
pub open spec fn millionths(s: Seq<char>) -> Option<int> {
    match numeral(s) {
        Some(v) => v.millionths(),
        None => None,
    }
}

proof fn lemma_limit(v: int)
    requires
        0 <= v < 1_000_000_000_000 * one(),
    ensures
        0 <= in_millionths(v) <= LIMIT,
{
    lemma_one();
    lemma_in_millionths_bound(v, 1_000_000_000_000);
}

fn limited_of(b: &Binary) -> (r: i64)
    requires
        b.wf(),
    ensures
        Some(r as int) == NumeralView::Number(b.exact()).millionths(),
        -LIMIT <= r <= LIMIT,
{
    proof {
        b.lemma_size();
        lemma_one();
        let o = one();
        assert(1_000_000_000_000 * o <= 0x100_0000_0000 * o) by (nonlinear_arith)
            requires
                o > 0,
        ;
        if b.size() < 1_000_000_000_000 * o {
            lemma_limit(b.size());
        }
        if b.size() == 0 {
            lemma_in_millionths_zero();
        }
    }
    let size: i64 = if b.size_below(1_000_000_000_000) {
        b.size_millionths()
    } else {
        LIMIT
    };
    if b.negative {
        -size
    } else {
        size
    }
}

/// A double in millionths, by its bits; none where it is not a finite number.
pub fn millionths_of_bits(bits: u64) -> (r: Option<i64>)
    ensures
        int_of(r) == match double_value(bits) {
            Some(b) => NumeralView::Number(b.exact()).millionths(),
            None => None,
        },
        r is Some ==> -LIMIT <= r->0 <= LIMIT,
{
    match double_of(bits) {
        Some(b) => Some(limited_of(&b)),
        None => None,
    }
}

/// Reads a number in millionths.
pub fn parse_millionths(s: &[char]) -> (r: Option<i64>)
    ensures
        r is Some <==> millionths(s@) is Some,
        r is Some ==> Some(r->0 as int) == millionths(s@),
        r is Some ==> -LIMIT <= r->0 <= LIMIT,
{
    match parse_numeral(s) {
        Some(Numeral::Finite(b)) => Some(limited_of(&b)),
        Some(Numeral::Infinite(negative)) => if negative {
            Some(-LIMIT)
        } else {
            Some(LIMIT)
        },
        Some(Numeral::Undefined) => None,
        None => None,
    }
}

} // verus!
