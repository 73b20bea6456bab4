//! Whole numbers of any size, as decimal digits with the least significant
//! first.
use vstd::arithmetic::power::*;
use vstd::prelude::*;

use crate::decimal::{all_digits, capped, number};
use crate::text::{dec, digit, digit_char, digit_value};

verus! {

/// The number that digits stand for, the least significant first.
pub open spec fn value(ds: Seq<u8>) -> nat
    decreases ds.len(),
{
    if ds.len() == 0 {
        0
    } else {
        ds[0] as nat + 10 * value(ds.skip(1))
    }
}

/// Each is a decimal digit.
pub open spec fn decimal_digits(ds: Seq<u8>) -> bool {
    forall|i: int| 0 <= i < ds.len() ==> #[trigger] ds[i] < 10
}

/// Digits of a number above zero, without zeros in front.
pub open spec fn sound(ds: Seq<u8>) -> bool {
    &&& ds.len() > 0
    &&& decimal_digits(ds)
    &&& ds.last() > 0
}

/// The digits as text, the most significant first.
pub open spec fn text(ds: Seq<u8>) -> Seq<char>
    decreases ds.len(),
{
    if ds.len() == 0 {
        Seq::empty()
    } else {
        text(ds.skip(1)).push(digit_char(ds[0] as int))
    }
}

proof fn lemma_rest(ds: Seq<u8>)
    requires
        decimal_digits(ds),
        ds.len() > 0,
    ensures
        decimal_digits(ds.skip(1)),
        ds.len() > 1 ==> ds.skip(1).last() == ds.last(),
{
    let rest = ds.skip(1);
    assert forall|i: int| 0 <= i < rest.len() implies #[trigger] rest[i] < 10 by {
        assert(rest[i] == ds[i + 1]);
    }
}

pub(crate) proof fn lemma_text(ds: Seq<u8>)
    requires
        sound(ds),
    ensures
        text(ds) == dec(value(ds)),
        value(ds) > 0,
    decreases ds.len(),
{
    let rest = ds.skip(1);
    lemma_rest(ds);
    if ds.len() == 1 {
        assert(value(rest) == 0);
        assert(text(rest) =~= Seq::empty());
        assert(text(ds) =~= seq![digit_char(ds[0] as int)]);
    } else {
        lemma_text(rest);
        assert(value(ds) >= 10);
        assert(value(ds) / 10 == value(rest) && value(ds) % 10 == ds[0]);
    }
}

// ---------------------------------------------------------------------------
// Multiples

/// The digits of `k` times a number, and a carry.
pub open spec fn multiple(ds: Seq<u8>, k: nat, carry: nat) -> Seq<u8>
    decreases ds.len(),
{
    if ds.len() == 0 {
        if carry == 0 {
            Seq::empty()
        } else {
            seq![carry as u8]
        }
    } else {
        let t = k * ds[0] as nat + carry;
        seq![(t % 10) as u8] + multiple(ds.skip(1), k, t / 10)
    }
}

pub(crate) proof fn lemma_multiple(ds: Seq<u8>, k: nat, carry: nat)
    requires
        decimal_digits(ds),
        1 <= k <= 9,
        carry <= 9,
    ensures
        decimal_digits(multiple(ds, k, carry)),
        multiple(ds, k, carry).len() >= ds.len(),
        value(multiple(ds, k, carry)) == k * value(ds) + carry,
        sound(ds) ==> sound(multiple(ds, k, carry)),
    decreases ds.len(),
{
    let r = multiple(ds, k, carry);
    if ds.len() == 0 {
        assert(k * 0 == 0) by (nonlinear_arith);
        if carry > 0 {
            assert(r.skip(1) =~= Seq::empty());
            assert(value(r.skip(1)) == 0);
        }
    } else {
        let rest = ds.skip(1);
        lemma_rest(ds);
        assert(ds[0] < 10);
        let d = ds[0] as int;
        let t = k * d + carry;
        assert(0 <= t <= 90) by (nonlinear_arith)
            requires
                0 <= d <= 9,
                1 <= k <= 9,
                0 <= carry <= 9,
                t == k * d + carry,
        ;
        let tail = multiple(rest, k, (t / 10) as nat);
        lemma_multiple(rest, k, (t / 10) as nat);
        assert(r.skip(1) =~= tail);
        assert forall|i: int| 0 <= i < r.len() implies #[trigger] r[i] < 10 by {
            if i > 0 {
                assert(r[i] == tail[i - 1]);
            }
        }
        let v = value(rest) as int;
        assert(k * (d + 10 * v) == k * d + 10 * (k * v)) by (nonlinear_arith);
        if sound(ds) {
            if ds.len() > 1 {
                assert(r.last() == tail.last());
            } else {
                assert(t >= 1) by (nonlinear_arith)
                    requires
                        d >= 1,
                        k >= 1,
                        carry >= 0,
                        t == k * d + carry,
                ;
                assert(rest.len() == 0);
                if t >= 10 {
                    assert(tail =~= seq![(t / 10) as u8]);
                    assert(r.last() == (t / 10) as u8);
                }
            }
        }
    }
}

/// Multiplies a number by a digit.
pub(crate) fn times(ds: &Vec<u8>, k: u8) -> (r: Vec<u8>)
    requires
        decimal_digits(ds@),
        1 <= k <= 9,
    ensures
        decimal_digits(r@),
        r@.len() >= ds@.len(),
        value(r@) == k * value(ds@),
        sound(ds@) ==> sound(r@),
{
    let mut r: Vec<u8> = Vec::new();
    let mut carry: u8 = 0;
    let mut i: usize = 0;
    assert(ds@.skip(0) =~= ds@);
    assert(r@ + multiple(ds@, k as nat, 0) =~= multiple(ds@, k as nat, 0));
    while i < ds.len()
        invariant
            i <= ds.len(),
            decimal_digits(ds@),
            1 <= k <= 9,
            carry <= 9,
            r@ + multiple(ds@.skip(i as int), k as nat, carry as nat) == multiple(ds@, k as nat, 0),
        decreases ds.len() - i,
    {
        let ghost before = r@;
        let ghost rest = ds@.skip(i as int);
        assert(rest[0] == ds@[i as int]);
        assert(ds@[i as int] < 10);
        assert(rest.skip(1) =~= ds@.skip(i + 1));
        let d: u8 = ds[i];
        assert(0 <= k * d <= 81) by (nonlinear_arith)
            requires
                0 <= d <= 9,
                0 <= k <= 9,
        ;
        let t: u8 = k * d + carry;
        r.push(t % 10);
        carry = t / 10;
        i = i + 1;
        assert(before + (seq![(t % 10) as u8] + multiple(
            ds@.skip(i as int),
            k as nat,
            carry as nat,
        )) =~= r@ + multiple(ds@.skip(i as int), k as nat, carry as nat));
    }
    let ghost before = r@;
    assert(ds@.skip(i as int).len() == 0);
    if carry > 0 {
        r.push(carry);
    }
    assert(r@ =~= before + multiple(ds@.skip(i as int), k as nat, carry as nat));
    proof {
        lemma_multiple(ds@, k as nat, 0);
    }
    r
}

// ---------------------------------------------------------------------------
// Parts

/// A number is made of its last digits and those in front of them.
pub(crate) proof fn lemma_split(ds: Seq<u8>, f: int)
    requires
        decimal_digits(ds),
        0 <= f <= ds.len(),
    ensures
        value(ds) == value(ds.take(f)) + pow(10, f as nat) * value(ds.skip(f)),
        value(ds.take(f)) < pow(10, f as nat),
    decreases f,
{
    reveal(pow);
    if f == 0 {
        assert(ds.take(0) =~= Seq::empty());
        assert(ds.skip(0) =~= ds);
        assert(pow(10, 0) * value(ds) == value(ds)) by (nonlinear_arith)
            requires
                pow(10, 0) == 1,
        ;
    } else {
        let rest = ds.skip(1);
        lemma_rest(ds);
        lemma_split(rest, f - 1);
        assert(ds.take(f).skip(1) =~= rest.take(f - 1));
        assert(rest.skip(f - 1) =~= ds.skip(f));
        assert(ds.take(f)[0] == ds[0] && ds[0] < 10);
        let p = pow(10, (f - 1) as nat);
        let v = value(ds.skip(f)) as int;
        assert(10 * (p * v) == (10 * p) * v) by (nonlinear_arith);
    }
}

/// The number in front of the last `f` digits, at most `cap`.
pub(crate) fn front(ds: &Vec<u8>, f: usize, cap: u64) -> (r: u64)
    requires
        decimal_digits(ds@),
        f <= ds@.len(),
        0 < cap <= 0x100_0000_0000_0000,
    ensures
        r == capped(value(ds@.skip(f as int)) as int, cap as int),
{
    let mut r: u64 = 0;
    let mut i: usize = ds.len();
    assert(ds@.skip(i as int).len() == 0);
    while i > f
        invariant
            f <= i <= ds@.len(),
            decimal_digits(ds@),
            0 < cap <= 0x100_0000_0000_0000,
            r <= cap,
            r == capped(value(ds@.skip(i as int)) as int, cap as int),
        decreases i,
    {
        i = i - 1;
        assert(ds@.skip(i as int).skip(1) =~= ds@.skip(i + 1));
        assert(ds@.skip(i as int)[0] == ds@[i as int]);
        assert(ds@[i as int] < 10);
        let next: u64 = r * 10 + ds[i] as u64;
        r = if next < cap {
            next
        } else {
            cap
        };
    }
    r
}

/// Whether the last `f` digits are all zeros.
pub(crate) fn ends_in_zeros(ds: &Vec<u8>, f: usize) -> (r: bool)
    requires
        decimal_digits(ds@),
        f <= ds@.len(),
    ensures
        r == (value(ds@.take(f as int)) == 0),
{
    let mut i: usize = f;
    let ghost low = ds@.take(f as int);
    assert(low.skip(f as int).len() == 0);
    while i > 0
        invariant
            i <= f <= ds@.len(),
            low == ds@.take(f as int),
            decimal_digits(ds@),
            value(low.skip(i as int)) == 0,
        decreases i,
    {
        i = i - 1;
        assert(low.skip(i as int).skip(1) =~= low.skip(i + 1));
        assert(low.skip(i as int)[0] == ds@[i as int]);
        if ds[i] != 0 {
            proof {
                lemma_not_zero(low, i as int);
            }
            return false;
        }
    }
    assert(low.skip(0) =~= low);
    true
}

proof fn lemma_not_zero(ds: Seq<u8>, i: int)
    requires
        0 <= i < ds.len(),
        ds[i] != 0,
    ensures
        value(ds) > 0,
    decreases i,
{
    if i > 0 {
        assert(ds.skip(1)[i - 1] == ds[i]);
        lemma_not_zero(ds.skip(1), i - 1);
    }
}

// ---------------------------------------------------------------------------
// Reading and writing

/// The digits of a number above zero.
pub(crate) fn digits_of(n: u64) -> (r: Vec<u8>)
    requires
        n > 0,
    ensures
        sound(r@),
        value(r@) == n,
    decreases n,
{
    if n < 10 {
        let mut r: Vec<u8> = Vec::new();
        r.push(n as u8);
        assert(r@.skip(1).len() == 0);
        assert(value(r@.skip(1)) == 0);
        return r;
    }
    let mut rest: Vec<u8> = digits_of(n / 10);
    let ghost tail = rest@;
    rest.insert(0, (n % 10) as u8);
    assert(rest@.skip(1) =~= tail);
    assert(rest@.last() == tail.last());
    assert forall|i: int| 0 <= i < rest@.len() implies #[trigger] rest@[i] < 10 by {
        if i > 0 {
            assert(rest@[i] == tail[i - 1]);
        }
    }
    rest
}

/// Appends a number.
pub(crate) fn push_digits(out: &mut String, ds: &Vec<u8>)
    requires
        sound(ds@),
    ensures
        final(out)@ == old(out)@ + dec(value(ds@)),
{
    let ghost start = out@;
    let mut i: usize = ds.len();
    assert(ds@.skip(i as int).len() == 0);
    assert(out@ =~= start + text(ds@.skip(i as int)));
    while i > 0
        invariant
            i <= ds.len(),
            sound(ds@),
            out@ == start + text(ds@.skip(i as int)),
        decreases i,
    {
        i = i - 1;
        let d: u8 = ds[i];
        assert(ds@[i as int] < 10);
        assert(ds@.skip(i as int).skip(1) =~= ds@.skip(i + 1));
        assert(ds@.skip(i as int)[0] == d);
        out.push((48 + d) as char);
        assert(out@ =~= start + text(ds@.skip(i as int)));
    }
    assert(ds@.skip(0) =~= ds@);
    proof {
        lemma_text(ds@);
    }
}

/// The value of digits with one more in front.
proof fn lemma_value_push(ds: Seq<u8>, d: u8)
    ensures
        value(ds.push(d)) == value(ds) + pow(10, ds.len()) * d,
    decreases ds.len(),
{
    reveal(pow);
    let all = ds.push(d);
    if ds.len() == 0 {
        assert(all.skip(1) =~= Seq::empty());
        assert(value(all.skip(1)) == 0);
        assert(pow(10, 0) * d == d) by (nonlinear_arith)
            requires
                pow(10, 0) == 1,
        ;
    } else {
        assert(all.skip(1) =~= ds.skip(1).push(d));
        lemma_value_push(ds.skip(1), d);
        let p = pow(10, ds.skip(1).len());
        assert(10 * (p * d) == (10 * p) * d) by (nonlinear_arith);
    }
}

/// The number in digits that are written with the most significant first, with
/// so many zeros behind them and so many in front.
pub(crate) fn with_zeros(s: &Vec<char>, behind: usize, before: usize) -> (r: Vec<u8>)
    requires
        all_digits(s@),
    ensures
        decimal_digits(r@),
        r@.len() == s@.len() + behind + before,
        value(r@) == number(s@) * pow(10, behind as nat),
{
    let mut r: Vec<u8> = Vec::new();
    let mut i: usize = 0;
    while i < behind
        invariant
            i <= behind,
            r@.len() == i,
            decimal_digits(r@),
            value(r@) == 0,
        decreases behind - i,
    {
        proof {
            lemma_value_push(r@, 0);
        }
        r.push(0);
        i = i + 1;
    }
    let mut j: usize = s.len();
    let ghost b = pow(10, behind as nat);
    assert(s@.skip(j as int) =~= Seq::empty());
    proof {
        assert(0 * b == 0) by (nonlinear_arith);
        lemma_pow_adds(10, behind as nat, 0);
        lemma_pow0(10);
    }
    while j > 0
        invariant
            j <= s@.len(),
            all_digits(s@),
            b == pow(10, behind as nat),
            r@.len() == behind + (s@.len() - j),
            decimal_digits(r@),
            value(r@) == number(s@.skip(j as int)) * b,
        decreases j,
    {
        j = j - 1;
        let c: char = s[j];
        assert(digit(s@[j as int]));
        let d: u8 = c as u8 - 48;
        proof {
            lemma_value_push(r@, d);
            let t = s@.skip(j + 1);
            assert(s@.skip(j as int) =~= seq![c] + t);
            lemma_number_front(c, t);
            lemma_pow_adds(10, behind as nat, t.len());
            let p = pow(10, t.len());
            let n = number(t) as int;
            assert((b * p) * d + n * b == (d * p + n) * b) by (nonlinear_arith);
        }
        r.push(d);
    }
    assert(s@.skip(0) =~= s@);
    let mut k: usize = 0;
    while k < before
        invariant
            k <= before,
            r@.len() == behind + s@.len() + k,
            decimal_digits(r@),
            value(r@) == number(s@) * b,
        decreases before - k,
    {
        proof {
            lemma_value_push(r@, 0);
            let p = pow(10, r@.len());
            assert(p * 0 == 0) by (nonlinear_arith);
        }
        r.push(0);
        k = k + 1;
    }
    r
}

/// The number in digits with one more in front.
proof fn lemma_number_front(c: char, s: Seq<char>)
    requires
        digit(c),
    ensures
        number(seq![c] + s) == digit_value(c) * pow(10, s.len()) + number(s),
    decreases s.len(),
{
    reveal(pow);
    let all = seq![c] + s;
    if s.len() == 0 {
        assert(all =~= seq![c]);
        assert(all.drop_last() =~= Seq::empty());
        assert(number(all.drop_last()) == 0);
        let v = digit_value(c) as int;
        assert(v * pow(10, 0) == v) by (nonlinear_arith)
            requires
                pow(10, 0) == 1,
        ;
    } else {
        let front = s.drop_last();
        assert(all.drop_last() =~= seq![c] + front);
        lemma_number_front(c, front);
        let v = digit_value(c) as int;
        let p = pow(10, front.len());
        let n = number(front) as int;
        assert((v * p + n) * 10 == v * (10 * p) + n * 10) by (nonlinear_arith);
        assert(all.last() == s.last());
    }
}

} // verus!
