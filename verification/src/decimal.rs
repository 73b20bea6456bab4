//! Numbers written in decimal digits.
use vstd::arithmetic::power::*;
use vstd::prelude::*;

use crate::text::{
    dec, digit, digit_char, digit_value, digits_of, is_digit, padded_left, push_dec, push_padded,
};

verus! {

/// The number that a run of decimal digits stands for.
pub open spec fn number(s: Seq<char>) -> nat
    decreases s.len(),
{
    if s.len() == 0 {
        0
    } else {
        number(s.drop_last()) * 10 + (digit_value(s.last()) as nat)
    }
}

/// All of `s` is decimal digits.
pub open spec fn all_digits(s: Seq<char>) -> bool {
    forall|i: int| 0 <= i < s.len() ==> digit(#[trigger] s[i])
}

/// The end of the run of digits that begins at `i`.
pub open spec fn run(s: Seq<char>, i: int) -> int
    decreases s.len() - i,
{
    if 0 <= i < s.len() && digit(s[i]) {
        run(s, i + 1)
    } else {
        i
    }
}

/// A run of digits holds only digits and stays within the text.
pub proof fn lemma_run(s: Seq<char>, i: int)
    requires
        0 <= i <= s.len(),
    ensures
        i <= run(s, i) <= s.len(),
        forall|j: int| i <= j < run(s, i) ==> digit(#[trigger] s[j]),
    decreases s.len() - i,
{
    if i < s.len() && digit(s[i]) {
        lemma_run(s, i + 1);
    }
}

fn run_end(s: &[char], i: usize) -> (r: usize)
    requires
        i <= s.len(),
    ensures
        r == run(s@, i as int),
        i <= r <= s.len(),
        forall|j: int| i <= j < r ==> digit(#[trigger] s@[j]),
{
    let mut k: usize = i;
    while k < s.len() && is_digit(s[k])
        invariant
            i <= k <= s.len(),
            run(s@, i as int) == run(s@, k as int),
            forall|j: int| i <= j < k ==> digit(#[trigger] s@[j]),
        decreases s.len() - k,
    {
        k = k + 1;
    }
    k
}

/// `min(n, cap)`.
pub open spec fn capped(n: int, cap: int) -> int {
    if n < cap {
        n
    } else {
        cap
    }
}

/// The number in a run of digits, at most `cap`.
fn capped_number(s: &[char], from: usize, to: usize, cap: u128) -> (r: u128)
    requires
        from <= to <= s.len(),
        cap <= 1_000_000_000_000_000_000_000_000_000_000,
        forall|j: int| from <= j < to ==> digit(#[trigger] s@[j]),
    ensures
        r == capped(number(s@.subrange(from as int, to as int)) as int, cap as int),
{
    let mut r: u128 = 0;
    let mut i: usize = from;
    while i < to
        invariant
            from <= i <= to <= s.len(),
            cap <= 1_000_000_000_000_000_000_000_000_000_000,
            r <= cap,
            forall|j: int| from <= j < to ==> digit(#[trigger] s@[j]),
            r == capped(number(s@.subrange(from as int, i as int)) as int, cap as int),
        decreases to - i,
    {
        let ghost before = s@.subrange(from as int, i as int);
        let ghost after = s@.subrange(from as int, i + 1);
        assert(after.drop_last() =~= before);
        let c = s[i];
        assert(digit(c));
        let v: u128 = (c as u8 - 48) as u128;
        let next: u128 = r * 10 + v;
        r = if next < cap {
            next
        } else {
            cap
        };
        i = i + 1;
    }
    r
}

// ---------------------------------------------------------------------------
// Whole numbers

/// The whole number that a text stands for: digits, a plus in front allowed,
/// at most `max`.
pub open spec fn whole(s: Seq<char>, max: int) -> Option<int> {
    let t = if s.len() > 0 && s[0] == '+' {
        s.skip(1)
    } else {
        s
    };
    if t.len() > 0 && all_digits(t) && number(t) <= max {
        Some(number(t) as int)
    } else {
        None
    }
}

/// Reads a whole number of at most `max`.
pub fn parse_whole(s: &[char], max: u64) -> (r: Option<u64>)
    ensures
        r is Some <==> whole(s@, max as int) is Some,
        r is Some ==> Some(r->0 as int) == whole(s@, max as int),
{
    let start: usize = if s.len() > 0 && s[0] == '+' {
        1
    } else {
        0
    };
    let ghost t = if s@.len() > 0 && s@[0] == '+' {
        s@.skip(1)
    } else {
        s@
    };
    let end: usize = run_end(s, start);
    assert(t =~= s@.subrange(start as int, s@.len() as int));
    proof {
        lemma_run_all(s@, start as int);
    }
    if end < s.len() || end == start {
        return None;
    }
    let n: u128 = capped_number(s, start, end, 1_000_000_000_000_000_000_000_000_000_000);
    if n <= max as u128 {
        Some(n as u64)
    } else {
        None
    }
}

/// The run of digits reaches the end exactly if all the rest is digits.
proof fn lemma_run_all(s: Seq<char>, i: int)
    requires
        0 <= i <= s.len(),
    ensures
        run(s, i) == s.len() <==> all_digits(s.subrange(i, s.len() as int)),
    decreases s.len() - i,
{
    let t = s.subrange(i, s.len() as int);
    lemma_run(s, i);
    if i < s.len() && digit(s[i]) {
        lemma_run_all(s, i + 1);
        let u = s.subrange(i + 1, s.len() as int);
        assert(forall|j: int| 0 <= j < u.len() ==> u[j] == t[j + 1]);
        if all_digits(u) {
            assert forall|j: int| 0 <= j < t.len() implies digit(#[trigger] t[j]) by {
                if j > 0 {
                    assert(t[j] == u[j - 1]);
                }
            }
        }
        if all_digits(t) {
            assert forall|j: int| 0 <= j < u.len() implies digit(#[trigger] u[j]) by {
                assert(u[j] == t[j + 1]);
            }
        }
    } else if i < s.len() {
        assert(t[0] == s[i]);
    }
}

/// The whole number, with a sign, that a text stands for, if it fits 64 bits.
pub open spec fn signed_whole(s: Seq<char>) -> Option<int> {
    if s.len() > 0 && s[0] == '-' {
        let t = s.skip(1);
        if t.len() > 0 && all_digits(t) && number(t) <= 0x8000_0000_0000_0000 {
            Some(-(number(t) as int))
        } else {
            None
        }
    } else {
        whole(s, 0x7fff_ffff_ffff_ffff)
    }
}

/// Reads a whole number with a sign.
pub fn parse_signed(s: &[char]) -> (r: Option<i64>)
    ensures
        r is Some <==> signed_whole(s@) is Some,
        r is Some ==> Some(r->0 as int) == signed_whole(s@),
{
    if s.len() > 0 && s[0] == '-' {
        let end: usize = run_end(s, 1);
        proof {
            lemma_run_all(s@, 1);
            assert(s@.skip(1) =~= s@.subrange(1, s@.len() as int));
        }
        if end < s.len() || end == 1 {
            return None;
        }
        let n: u128 = capped_number(s, 1, end, 1_000_000_000_000_000_000_000_000_000_000);
        if n <= 0x8000_0000_0000_0000 {
            Some((-(n as i128)) as i64)
        } else {
            None
        }
    } else {
        match parse_whole(s, 0x7fff_ffff_ffff_ffff) {
            Some(n) => Some(n as i64),
            None => None,
        }
    }
}

// ---------------------------------------------------------------------------
// Numbers with a fraction and an exponent

/// A number `digits * 10^shift`.
pub struct Decimal {
    /// The number stands behind a minus.
    pub negative: bool,
    /// Its digits, those of the fraction among them.
    pub digits: Seq<char>,
    /// The power of ten that the last digit counts.
    pub shift: int,
}

/// Where the digits begin: behind a sign.
pub open spec fn after_sign(s: Seq<char>, i: int) -> int {
    if 0 <= i < s.len() && (s[i] == '-' || s[i] == '+') {
        i + 1
    } else {
        i
    }
}

/// A minus stands at `i`.
pub open spec fn minus_at(s: Seq<char>, i: int) -> bool {
    0 <= i < s.len() && s[i] == '-'
}

/// Where the fraction begins: behind a point at `a`.
pub open spec fn after_point(s: Seq<char>, a: int) -> int {
    if 0 <= a < s.len() && s[a] == '.' {
        a + 1
    } else {
        a
    }
}

/// Where the fraction that begins behind `a` ends.
pub open spec fn fraction_end(s: Seq<char>, a: int) -> int {
    if after_point(s, a) > a {
        run(s, a + 1)
    } else {
        a
    }
}

/// The exponent that stands at `b`, behind `e` or `E`; zero at the end.
pub open spec fn exponent_at(s: Seq<char>, b: int) -> Option<int> {
    let c = after_sign(s, b + 1);
    let size = number(s.subrange(c, s.len() as int)) as int;
    if b == s.len() {
        Some(0)
    } else if (s[b] == 'e' || s[b] == 'E') && c < s.len() && run(s, c) == s.len() {
        Some(
            if minus_at(s, b + 1) {
                -size
            } else {
                size
            },
        )
    } else {
        None
    }
}

/// The number that a text stands for: a sign, digits with at most one point
/// among them, and an exponent.  At least one digit must stand in front of
/// the exponent, and one in it.
pub open spec fn decimal(s: Seq<char>) -> Option<Decimal> {
    let start = after_sign(s, 0);
    let a = run(s, start);
    let b0 = after_point(s, a);
    let b = fraction_end(s, a);
    let digits = s.subrange(start, a) + s.subrange(b0, b);
    match exponent_at(s, b) {
        Some(e) if digits.len() > 0 => Some(
            Decimal { negative: minus_at(s, 0), digits, shift: e + (b0 - b) },
        ),
        _ => None,
    }
}

/// The largest number, in millionths, that is told from larger ones.
pub const LIMIT: i64 = 1_000_000_000_000_000_000;

/// The digits between two places of a text, and those between two later ones.
fn two_runs(s: &[char], a0: usize, a1: usize, b0: usize, b1: usize) -> (r: Vec<char>)
    requires
        a0 <= a1 <= b0 <= b1 <= s.len(),
    ensures
        r@ == s@.subrange(a0 as int, a1 as int) + s@.subrange(b0 as int, b1 as int),
{
    let mut r: Vec<char> = vstd::slice::slice_to_vec(vstd::slice::slice_subrange(s, a0, a1));
    let mut i: usize = b0;
    assert(r@ =~= s@.subrange(a0 as int, a1 as int) + s@.subrange(b0 as int, b0 as int));
    while i < b1
        invariant
            a0 <= a1 <= b0 <= i <= b1 <= s.len(),
            r@ == s@.subrange(a0 as int, a1 as int) + s@.subrange(b0 as int, i as int),
        decreases b1 - i,
    {
        r.push(s[i]);
        i = i + 1;
        assert(r@ =~= s@.subrange(a0 as int, a1 as int) + s@.subrange(b0 as int, i as int));
    }
    r
}

/// What is told of an exponent: itself, or that it is beyond `10^30`.
spec fn told(e: int, exact: int) -> bool {
    ||| e == exact
    ||| e == 1_000_000_000_000_000_000_000_000_000_000 && e <= exact
    ||| e == -1_000_000_000_000_000_000_000_000_000_000 && exact <= e
}

fn scan_exponent(s: &[char], b: usize) -> (r: Option<i128>)
    requires
        b <= s.len(),
    ensures
        r is Some <==> exponent_at(s@, b as int) is Some,
        r is Some ==> told(r->0 as int, exponent_at(s@, b as int)->0),
        r is Some ==> -1_000_000_000_000_000_000_000_000_000_000 <= r->0
            <= 1_000_000_000_000_000_000_000_000_000_000,
{
    if b == s.len() {
        return Some(0);
    }
    if s[b] != 'e' && s[b] != 'E' {
        return None;
    }
    let signed = b + 1 < s.len() && (s[b + 1] == '-' || s[b + 1] == '+');
    let below = b + 1 < s.len() && s[b + 1] == '-';
    let c0: usize = if signed {
        b + 2
    } else {
        b + 1
    };
    if c0 >= s.len() {
        return None;
    }
    let c: usize = run_end(s, c0);
    if c < s.len() {
        return None;
    }
    let e: u128 = capped_number(s, c0, c, 1_000_000_000_000_000_000_000_000_000_000);
    if below {
        Some(-(e as i128))
    } else {
        Some(e as i128)
    }
}

/// What is told of a power of ten: itself, or that it is beyond `10^29`.
pub open spec fn shift_told(e: int, exact: int) -> bool {
    ||| e == exact
    ||| e >= 100_000_000_000_000_000_000_000_000_000 && exact
        >= 100_000_000_000_000_000_000_000_000_000
    ||| e <= -100_000_000_000_000_000_000_000_000_000 && exact
        <= -100_000_000_000_000_000_000_000_000_000
}

/// The parts of a number: whether a minus stands in front, the digits, and the
/// power of ten that the last of them counts.
pub(crate) fn scan_decimal(s: &[char]) -> (r: Option<(bool, Vec<char>, i128)>)
    ensures
        r is Some <==> decimal(s@) is Some,
        match r {
            Some((negative, digits, shift)) => {
                let d = decimal(s@)->0;
                &&& negative == d.negative
                &&& digits@ == d.digits
                &&& all_digits(d.digits)
                &&& d.digits.len() > 0
                &&& shift_told(shift as int, d.shift)
                &&& -2_000_000_000_000_000_000_000_000_000_000 <= shift
                    <= 2_000_000_000_000_000_000_000_000_000_000
            },
            None => true,
        },
{
    let start: usize = if s.len() > 0 && (s[0] == '-' || s[0] == '+') {
        1
    } else {
        0
    };
    let negative = s.len() > 0 && s[0] == '-';
    let a: usize = run_end(s, start);
    let mut b0: usize = a;
    let mut b: usize = a;
    if a < s.len() && s[a] == '.' {
        b0 = a + 1;
        b = run_end(s, b0);
    }
    let digits: Vec<char> = two_runs(s, start, a, b0, b);
    if digits.len() == 0 {
        return None;
    }
    assert(all_digits(digits@)) by {
        assert forall|j: int| 0 <= j < digits@.len() implies digit(#[trigger] digits@[j]) by {
            if j < a - start {
                assert(digits@[j] == s@[start + j]);
            } else {
                assert(digits@[j] == s@[b0 + (j - (a - start))]);
            }
        }
    }
    match scan_exponent(s, b) {
        None => None,
        Some(e) => {
            let shift: i128 = e - (b - b0) as i128;
            Some((negative, digits, shift))
        },
    }
}

// ---------------------------------------------------------------------------
// Writing

/// `n / d` rounded to the nearest integer, halves to the even one.
pub open spec fn half_even(n: int, d: int) -> int {
    let q = n / d;
    let r = n % d;
    if 2 * r > d || (2 * r == d && q % 2 == 1) {
        q + 1
    } else {
        q
    }
}

/// The magnitude of a number.
pub open spec fn magnitude(v: int) -> int {
    if v < 0 {
        -v
    } else {
        v
    }
}

/// A minus for a number below zero.
pub open spec fn minus_of(v: int) -> Seq<char> {
    if v < 0 {
        seq!['-']
    } else {
        Seq::empty()
    }
}

/// A number in millionths, written in whole units.
pub open spec fn shown_whole(v: int) -> Seq<char> {
    minus_of(v) + dec(half_even(magnitude(v), 1_000_000) as nat)
}

/// `n` doubled until it is at least `cap`, and `p` doubled as often.
pub open spec fn scaled(n: nat, p: nat, cap: nat) -> (nat, nat)
    decreases 2 * cap - n,
{
    if n == 0 || n >= cap {
        (n, p)
    } else {
        scaled(2 * n, 2 * p, cap)
    }
}

/// A million times `2^52`: where millionths fill the digits of a double.
pub const DOUBLE_CAP: u128 = 4_503_599_627_370_496_000_000;

/// The tenths in a number of millionths, as a double has them: the double
/// nearest to the number, rounded to tenths, halves to the even one.
pub open spec fn double_tenths(m: nat) -> int {
    let (n, p) = scaled(m, 1, DOUBLE_CAP as nat);
    half_even(10 * half_even(n as int, 1_000_000), p as int)
}

/// So many tenths, written with one digit behind the point.
pub open spec fn tenths_text(t: int) -> Seq<char> {
    dec((t / 10) as nat) + seq!['.'] + dec((t % 10) as nat)
}

/// A number in millionths, written with one digit behind the point.
pub open spec fn shown_tenths(v: int) -> Seq<char> {
    minus_of(v) + tenths_text(double_tenths(magnitude(v) as nat))
}

/// A number in millionths with one digit behind the point, and a plus in
/// front unless it is below zero.
pub open spec fn shown_signed(v: int) -> Seq<char> {
    if v < 0 {
        shown_tenths(v)
    } else {
        seq!['+'] + shown_tenths(v)
    }
}

fn half_even_of(n: u64, d: u64) -> (r: u64)
    requires
        0 < d <= 1_000_000,
        n <= 0x8000_0000_0000_0000,
    ensures
        r == half_even(n as int, d as int),
        r <= n + 1,
{
    let q: u64 = n / d;
    let rest: u64 = n % d;
    assert(rest < d && q <= n) by (nonlinear_arith)
        requires
            rest == n % d,
            q == n / d,
            d > 0,
    ;
    if 2 * rest > d || (2 * rest == d && q % 2 == 1) {
        q + 1
    } else {
        q
    }
}

fn magnitude_of(v: i64) -> (r: u64)
    ensures
        r == magnitude(v as int),
        r <= 0x8000_0000_0000_0000,
{
    if v < 0 {
        (-(v as i128)) as u64
    } else {
        v as u64
    }
}

/// Appends a number in whole units.
pub fn push_whole(s: &mut String, v: i64)
    ensures
        final(s)@ == old(s)@ + shown_whole(v as int),
{
    let ghost start = s@;
    if v < 0 {
        s.push('-');
    }
    assert(s@ =~= start + minus_of(v as int));
    push_dec(s, half_even_of(magnitude_of(v), 1_000_000));
    assert(s@ =~= start + shown_whole(v as int));
}

/// `n / d`, rounded to the nearest integer, halves to the even one.
pub(crate) fn half_even_wide(n: u128, d: u128) -> (r: u128)
    requires
        0 < d <= 0x1_0000_0000_0000_0000_0000_0000,
        n <= 0x1_0000_0000_0000_0000_0000_0000,
    ensures
        r == half_even(n as int, d as int),
        r <= n as int / d as int + 1,
{
    let q: u128 = n / d;
    let rest: u128 = n % d;
    assert(rest < d && q <= n) by (nonlinear_arith)
        requires
            rest == n % d,
            q == n / d,
            d > 0,
    ;
    if 2 * rest > d || (2 * rest == d && q % 2 == 1) {
        q + 1
    } else {
        q
    }
}

fn tenths_of(m: u64) -> (r: u64)
    ensures
        r == double_tenths(m as nat),
        r <= 0x1000_0000_0000_0000,
{
    let mut n: u128 = m as u128;
    let mut p: u128 = 1;
    while n != 0 && n < DOUBLE_CAP
        invariant
            scaled(m as nat, 1, DOUBLE_CAP as nat) == scaled(
                n as nat,
                p as nat,
                DOUBLE_CAP as nat,
            ),
            n <= 2 * DOUBLE_CAP,
            n != 0 ==> 1 <= p <= n,
            n == 0 ==> p == 1,
        decreases 2 * DOUBLE_CAP - n,
    {
        n = n * 2;
        p = p * 2;
    }
    let q: u128 = half_even_wide(n, 1_000_000);
    assert(q <= 9_007_199_254_740_993) by {
        assert(n as int / 1_000_000 <= 9_007_199_254_740_992);
    }
    let t: u128 = half_even_wide(10 * q, p);
    assert(10 * q as int / p as int <= 10 * q) by (nonlinear_arith)
        requires
            p >= 1,
            q >= 0,
    ;
    t as u64
}

/// Appends so many tenths with one digit behind the point.
pub(crate) fn push_tenths_text(s: &mut String, t: u64)
    ensures
        final(s)@ == old(s)@ + tenths_text(t as int),
{
    let ghost start = s@;
    push_dec(s, t / 10);
    s.push('.');
    push_dec(s, t % 10);
    assert(s@ =~= start + tenths_text(t as int));
}

/// Appends a number with one digit behind the point.
pub fn push_tenths(s: &mut String, v: i64)
    ensures
        final(s)@ == old(s)@ + shown_tenths(v as int),
{
    let ghost start = s@;
    if v < 0 {
        s.push('-');
    }
    assert(s@ =~= start + minus_of(v as int));
    push_tenths_text(s, tenths_of(magnitude_of(v)));
    assert(s@ =~= start + shown_tenths(v as int));
}

/// Appends a number with a sign and one digit behind the point.
pub fn push_signed(s: &mut String, v: i64)
    ensures
        final(s)@ == old(s)@ + shown_signed(v as int),
{
    let ghost start = s@;
    if v >= 0 {
        s.push('+');
    }
    push_tenths(s, v);
    assert(s@ =~= start + shown_signed(v as int));
}

/// A whole number as text.
pub open spec fn signed_dec(n: int) -> Seq<char> {
    minus_of(n) + dec(magnitude(n) as nat)
}

/// Appends a whole number.
pub fn push_signed_dec(s: &mut String, n: i32)
    ensures
        final(s)@ == old(s)@ + signed_dec(n as int),
{
    let ghost start = s@;
    if n < 0 {
        s.push('-');
        push_dec(s, (-(n as i64)) as u64);
    } else {
        push_dec(s, n as u64);
    }
    assert(s@ =~= start + signed_dec(n as int));
}

/// `n` without the zeros at its end.
pub open spec fn without_zeros(n: nat) -> nat
    decreases n,
{
    if n > 0 && n % 10 == 0 {
        without_zeros(n / 10)
    } else {
        n
    }
}

/// How many zeros end `n`.
pub open spec fn zeros_behind(n: nat) -> nat
    decreases n,
{
    if n > 0 && n % 10 == 0 {
        1 + zeros_behind(n / 10)
    } else {
        0
    }
}

/// A number in millionths, written with as many digits behind the point as
/// it needs.
pub open spec fn shown(v: int) -> Seq<char> {
    let m = magnitude(v);
    let f = (m % 1_000_000) as nat;
    minus_of(v) + dec((m / 1_000_000) as nat) + if f == 0 {
        Seq::empty()
    } else {
        seq!['.'] + padded_left(dec(without_zeros(f)), '0', (6 - zeros_behind(f)) as nat)
    }
}

/// Appends a number with as many digits behind the point as it needs.
pub fn push_shown(s: &mut String, v: i64)
    ensures
        final(s)@ == old(s)@ + shown(v as int),
{
    let ghost start = s@;
    let m: u64 = magnitude_of(v);
    let frac: u64 = m % 1_000_000;
    if v < 0 {
        s.push('-');
    }
    assert(s@ =~= start + minus_of(v as int));
    push_dec(s, m / 1_000_000);
    if frac > 0 {
        s.push('.');
        let mut f: u64 = frac;
        let mut width: usize = 6;
        while f % 10 == 0
            invariant
                0 < f,
                (width == 6 && f < 1_000_000) || (width == 5 && f < 100_000) || (width == 4 && f
                    < 10_000) || (width == 3 && f < 1000) || (width == 2 && f < 100) || (width == 1
                    && f < 10),
                without_zeros(f as nat) == without_zeros(frac as nat),
                width - zeros_behind(f as nat) == 6 - zeros_behind(frac as nat),
            decreases f,
        {
            f = f / 10;
            width = width - 1;
        }
        push_padded(s, digits_of(f, 10).as_slice(), '0', width);
    }
    assert(s@ =~= start + shown(v as int));
}

// ---------------------------------------------------------------------------
// What is written is read back

/// A number's digits are digits, and stand for the number.
pub proof fn lemma_dec(n: nat)
    ensures
        dec(n).len() > 0,
        all_digits(dec(n)),
        number(dec(n)) == n,
    decreases n,
{
    let s = dec(n);
    if n < 10 {
        assert(s =~= seq![digit_char(n as int)]);
        assert(s.drop_last() =~= Seq::empty());
        assert(number(s.drop_last()) == 0);
    } else {
        lemma_dec(n / 10);
        assert(s == dec(n / 10).push(digit_char((n % 10) as int)));
        assert(s.drop_last() =~= dec(n / 10));
        assert forall|i: int| 0 <= i < s.len() implies digit(#[trigger] s[i]) by {
            if i < s.len() - 1 {
                assert(s[i] == dec(n / 10)[i]);
            }
        }
    }
}

/// A number under `10^k` has at most `k` digits, where that is any.
proof fn lemma_dec_len(n: nat, k: nat)
    requires
        k >= 1,
        n < pow(10, k),
    ensures
        dec(n).len() <= k,
    decreases n,
{
    if n >= 10 {
        reveal(pow);
        assert(pow(10, k) == 10 * pow(10, (k - 1) as nat));
        if k == 1 {
            assert(pow(10, 0) == 1);
        }
        assert(n / 10 < pow(10, (k - 1) as nat)) by (nonlinear_arith)
            requires
                n < 10 * pow(10, (k - 1) as nat),
        ;
        lemma_dec_len(n / 10, (k - 1) as nat);
    }
}

/// The number in two runs of digits.
proof fn lemma_number_joined(a: Seq<char>, b: Seq<char>)
    requires
        all_digits(b),
    ensures
        number(a + b) == number(a) * pow(10, b.len()) + number(b),
    decreases b.len(),
{
    reveal(pow);
    if b.len() == 0 {
        assert(a + b =~= a);
        assert(number(a) * pow(10, 0) == number(a)) by (nonlinear_arith)
            requires
                pow(10, 0) == 1,
        ;
    } else {
        let c = b.drop_last();
        assert((a + b).drop_last() =~= a + c);
        assert((a + b).last() == b.last());
        assert(all_digits(c)) by {
            assert forall|i: int| 0 <= i < c.len() implies digit(#[trigger] c[i]) by {
                assert(c[i] == b[i]);
            }
        }
        lemma_number_joined(a, c);
        assert(digit(b[b.len() - 1]));
        let p = pow(10, c.len());
        assert(pow(10, b.len()) == 10 * p);
        assert((number(a) * p + number(c)) * 10 + digit_value(b.last()) == number(a) * (10 * p)
            + (number(c) * 10 + digit_value(b.last()))) by (nonlinear_arith);
    }
}

/// Zeros in front of digits do not change their number.
proof fn lemma_number_padded(s: Seq<char>, width: nat)
    requires
        all_digits(s),
    ensures
        all_digits(padded_left(s, '0', width)),
        number(padded_left(s, '0', width)) == number(s),
        padded_left(s, '0', width).len() == if s.len() < width {
            width
        } else {
            s.len()
        },
{
    if s.len() < width {
        let zeros = Seq::new((width - s.len()) as nat, |i: int| '0');
        lemma_number_zeros(zeros);
        lemma_number_joined(zeros, s);
        assert(number(zeros) * pow(10, s.len()) == 0) by (nonlinear_arith)
            requires
                number(zeros) == 0,
        ;
        assert forall|i: int| 0 <= i < (zeros + s).len() implies digit(
            #[trigger] (zeros + s)[i],
        ) by {
            if i >= zeros.len() {
                assert((zeros + s)[i] == s[i - zeros.len()]);
            }
        }
    }
}

proof fn lemma_number_zeros(s: Seq<char>)
    requires
        forall|i: int| 0 <= i < s.len() ==> s[i] == '0',
    ensures
        number(s) == 0,
    decreases s.len(),
{
    if s.len() > 0 {
        lemma_number_zeros(s.drop_last());
    }
}

/// A number is what is left without its zeros, with the zeros behind.
proof fn lemma_zeros(n: nat)
    requires
        n > 0,
    ensures
        n == without_zeros(n) * pow(10, zeros_behind(n)),
        without_zeros(n) > 0,
    decreases n,
{
    reveal(pow);
    if n % 10 == 0 {
        lemma_zeros(n / 10);
        let w = without_zeros(n / 10);
        let p = pow(10, zeros_behind(n / 10));
        assert(pow(10, zeros_behind(n)) == 10 * p);
        assert(w * (10 * p) == 10 * (w * p)) by (nonlinear_arith);
    } else {
        assert(without_zeros(n) * pow(10, 0) == n) by (nonlinear_arith)
            requires
                without_zeros(n) == n,
                pow(10, 0) == 1,
        ;
    }
}

/// A run of digits goes on to the end of a part that holds only digits, if no
/// digit follows it.
proof fn lemma_run_over(s: Seq<char>, i: int, end: int)
    requires
        0 <= i <= end <= s.len(),
        forall|j: int| i <= j < end ==> digit(#[trigger] s[j]),
        end < s.len() ==> !digit(s[end]),
    ensures
        run(s, i) == end,
    decreases end - i,
{
    if i < end {
        lemma_run_over(s, i + 1, end);
    }
}

/// A number that is written with as many digits as it needs is read back.
#[verifier::spinoff_prover]
#[verifier::rlimit(60)]
pub proof fn lemma_shown_is_read_back(v: int)
    ensures
        ({
            let d = decimal(shown(v))->0;
            &&& decimal(shown(v)) is Some
            &&& d.negative == (v < 0)
            &&& -6 <= d.shift <= 0
            &&& number(d.digits) * pow(10, (6 + d.shift) as nat) == magnitude(v)
        }),
{
    let m = magnitude(v);
    let q = (m / 1_000_000) as nat;
    let f = (m % 1_000_000) as nat;
    let sign = minus_of(v);
    let a = dec(q);
    let s = shown(v);
    let start = sign.len() as int;
    lemma_dec(q);
    assert(pow(10, 6) == 1_000_000) by {
        reveal_with_fuel(pow, 7);
    }
    let end = start + a.len();
    if f == 0 {
        assert(s =~= sign + a);
        assert forall|j: int| start <= j < end implies digit(#[trigger] s[j]) by {
            assert(s[j] == a[j - start]);
        }
        assert(digit(a[0]));
        assert(s[start] == a[0]);
        lemma_run_over(s, start, end);
        assert(s.subrange(start, end) =~= a);
        assert(s.subrange(end, end) =~= Seq::empty());
        assert(a + Seq::<char>::empty() =~= a);
        let d = decimal(s)->0;
        assert(d.digits == a && d.shift == 0);
    } else {
        let z = zeros_behind(f);
        let w = without_zeros(f);
        lemma_zeros(f);
        lemma_few_zeros(f);
        let width = (6 - z) as nat;
        let b = padded_left(dec(w), '0', width);
        assert(w < pow(10, width)) by {
            lemma_pow_adds(10, z, width);
            let p = pow(10, z);
            let r = pow(10, width);
            lemma_pow_positive(10, z);
            assert(w < r) by (nonlinear_arith)
                requires
                    w * p < p * r,
                    p > 0,
            ;
        }
        lemma_dec(w);
        lemma_dec_len(w, width);
        lemma_number_padded(dec(w), width);
        assert(b.len() == width);
        assert(s =~= sign + a + (seq!['.'] + b));
        let point = end;
        assert forall|j: int| start <= j < end implies digit(#[trigger] s[j]) by {
            assert(s[j] == a[j - start]);
        }
        assert(s[point] == '.');
        assert(digit(a[0]));
        assert(s[start] == a[0]);
        lemma_run_over(s, start, end);
        let last = point + 1 + b.len();
        assert(s.len() == last);
        assert forall|j: int| point + 1 <= j < last implies digit(#[trigger] s[j]) by {
            assert(s[j] == b[j - point - 1]);
        }
        lemma_run_over(s, point + 1, last);
        assert(s.subrange(start, end) =~= a);
        assert(s.subrange(point + 1, last) =~= b);
        let d = decimal(s)->0;
        assert(d.digits == a + b && d.shift == -(width as int));
        lemma_number_joined(a, b);
        let n = number(a + b);
        lemma_pow_adds(10, width, z);
        let p = pow(10, z);
        let r = pow(10, width);
        assert(n * p == q * 1_000_000 + f) by (nonlinear_arith)
            requires
                n == q * r + w,
                r * p == 1_000_000,
                w * p == f,
        ;
    }
}

/// A number under a million has fewer than six zeros behind.
proof fn lemma_few_zeros(f: nat)
    requires
        0 < f < 1_000_000,
    ensures
        zeros_behind(f) < 6,
{
    reveal_with_fuel(zeros_behind, 8);
}

proof fn lemma_scaled(n: nat, p: nat, cap: nat, m: nat)
    requires
        n == m * p,
        p > 0,
    ensures
        scaled(n, p, cap).0 == m * scaled(n, p, cap).1,
        scaled(n, p, cap).1 > 0,
        scaled(n, p, cap).0 == 0 || scaled(n, p, cap).0 >= cap,
    decreases 2 * cap - n,
{
    if !(n == 0 || n >= cap) {
        assert(2 * n == m * (2 * p)) by (nonlinear_arith)
            requires
                n == m * p,
        ;
        lemma_scaled(2 * n, 2 * p, cap, m);
    }
}

/// A number is shown in the nearest tenths, to a millionth.
pub proof fn lemma_tenths_are_nearest(m: nat)
    requires
        m <= 1_000_000_000_000,
    ensures
        double_tenths(m) >= 0,
        -50_001 <= double_tenths(m) * 100_000 - m <= 50_001,
{
    lemma_scaled(m, 1, DOUBLE_CAP as nat, m);
    let (n, p) = scaled(m, 1, DOUBLE_CAP as nat);
    let h = half_even(n as int, 1_000_000);
    assert(-500_000 <= h * 1_000_000 - n <= 500_000 && h >= 0);
    let t = half_even(10 * h, p as int);
    let q = (10 * h) / (p as int);
    let r = (10 * h) % (p as int);
    assert(10 * h == q * p + r && 0 <= r < p && q >= 0) by (nonlinear_arith)
        requires
            q == (10 * h) / (p as int),
            r == (10 * h) % (p as int),
            p > 0,
            h >= 0,
    ;
    assert((q + 1) * p == q * p + p) by (nonlinear_arith);
    let tp = t * p;
    assert(-(p as int) <= 2 * (tp - 10 * h) <= p);
    if m == 0 {
        assert(n == 0) by (nonlinear_arith)
            requires
                n == m * p,
                m == 0,
        ;
        assert(h == 0);
        assert(t == 0) by (nonlinear_arith)
            requires
                -(p as int) <= 2 * tp <= p,
                tp == t * p,
                p > 0,
        ;
    } else {
        assert(p >= 1_000_000) by (nonlinear_arith)
            requires
                n == m * p,
                n >= DOUBLE_CAP || n == 0,
                m > 0,
                p > 0,
                m <= 1_000_000_000_000,
                DOUBLE_CAP >= 1_000_000_000_000_000_000,
        ;
        let x = t * 100_000 - m;
        assert(10 * x * p == 1_000_000 * tp - 10 * n) by (nonlinear_arith)
            requires
                x == t * 100_000 - m,
                tp == t * p,
                n == m * p,
        ;
        assert(-500_000 * p - 5_000_000 <= 10 * x * p <= 500_000 * p + 5_000_000);
        assert(-50_001 <= x <= 50_001) by (nonlinear_arith)
            requires
                -500_000 * p - 5_000_000 <= 10 * x * p <= 500_000 * p + 5_000_000,
                p >= 1_000_000,
        ;
    }
}

/// Halves aside, a number is rounded to the nearest.
pub proof fn lemma_half_even_is_nearest(n: int, d: int)
    requires
        d > 0,
    ensures
        -d <= 2 * (half_even(n, d) * d - n) <= d,
        2 * (half_even(n, d) * d - n) == d || 2 * (n - half_even(n, d) * d) == d ==> half_even(n, d)
            % 2 == 0,
{
    let q = n / d;
    let r = n % d;
    assert(n == q * d + r && 0 <= r < d) by (nonlinear_arith)
        requires
            q == n / d,
            r == n % d,
            d > 0,
    ;
    assert((q + 1) * d == q * d + d) by (nonlinear_arith);
}

} // verus!
