//! A run's temperature and load curve, resampled for upload. It starts a few
//! seconds before the stress so the rise from idle is visible.
use std::collections::VecDeque;

use vstd::prelude::*;

use crate::decimal::LIMIT;
use crate::fixed::{rounded, to_tenths, TENTH};
use crate::sensors::{all_wf, Sample, SECOND};

verus! {

/// At most this many points per channel: longer tests get a longer interval.
pub const MAX_POINTS: u64 = 300;

/// Idle readings before the stress starts that are included.
pub const LEAD_IN: u64 = 10_000_000_000;

/// A run's curve.  Values are rounded to tenths.
#[derive(Debug, Clone, PartialEq)]
pub struct Series {
    /// Format version.
    pub v: u8,
    /// Seconds between points.
    pub interval: u64,
    /// Seconds from the stress start to the first point (negative = idle lead-in).
    pub start: i64,
    pub cpu_temp: Option<Vec<Option<i64>>>,
    pub gpu_temp: Option<Vec<Option<i64>>>,
    pub cpu_usage: Option<Vec<Option<i64>>>,
    pub gpu_usage: Option<Vec<Option<i64>>>,
}

/// A curve's contents.
pub ghost struct SeriesView {
    pub v: u8,
    pub interval: int,
    pub start: int,
    pub cpu_temp: Option<Seq<Option<i64>>>,
    pub gpu_temp: Option<Seq<Option<i64>>>,
    pub cpu_usage: Option<Seq<Option<i64>>>,
    pub gpu_usage: Option<Seq<Option<i64>>>,
}

/// The contents of an optional channel.
pub open spec fn points(c: Option<Vec<Option<i64>>>) -> Option<Seq<Option<i64>>> {
    match c {
        Some(v) => Some(v@),
        None => None,
    }
}

impl View for Series {
    type V = SeriesView;

    open spec fn view(&self) -> SeriesView {
        SeriesView {
            v: self.v,
            interval: self.interval as int,
            start: self.start as int,
            cpu_temp: points(self.cpu_temp),
            gpu_temp: points(self.gpu_temp),
            cpu_usage: points(self.cpu_usage),
            gpu_usage: points(self.gpu_usage),
        }
    }
}

/// Temperature and usage samples of one part.
pub struct PartSamples<'a> {
    pub temp: &'a VecDeque<Sample>,
    pub usage: &'a VecDeque<Sample>,
}

impl<'a> PartSamples<'a> {
    /// All samples are sound.
    pub open spec fn wf(self) -> bool {
        all_wf(self.temp@) && all_wf(self.usage@)
    }
}

// ---------------------------------------------------------------------------
// One channel

/// How the samples of an interval become one point.
#[derive(Clone, Copy, PartialEq, Eq, Structural)]
pub enum Fold {
    /// Temperatures keep each interval's highest reading, so that the curve
    /// shows the run's peak.
    Max,
    Mean,
}

/// The interval of `step` nanoseconds, counted from `from`, that a sample is
/// in; none if it is earlier.
pub open spec fn bin_of(s: Sample, from: u64, step: int) -> Option<int> {
    if s.at < from {
        None
    } else {
        Some((s.at - from) / step)
    }
}

/// The samples of the `i`th interval.
pub open spec fn in_bin(s: Seq<Sample>, from: u64, step: int, i: int) -> Seq<Sample>
    decreases s.len(),
{
    if s.len() == 0 {
        s
    } else if bin_of(s.last(), from, step) == Some(i) {
        in_bin(s.drop_last(), from, step, i).push(s.last())
    } else {
        in_bin(s.drop_last(), from, step, i)
    }
}

/// The highest value of samples, of which there is at least one.
pub open spec fn top(s: Seq<Sample>) -> int
    decreases s.len(),
{
    if s.len() <= 1 {
        s[0].value as int
    } else {
        let t = top(s.drop_last());
        if t < s.last().value {
            s.last().value as int
        } else {
            t
        }
    }
}

/// The sum of the values of samples.
pub open spec fn total(s: Seq<Sample>) -> int
    decreases s.len(),
{
    if s.len() == 0 {
        0
    } else {
        total(s.drop_last()) + s.last().value
    }
}

/// The point that the samples of an interval give: their highest value or
/// their mean, in tenths.
pub open spec fn point(s: Seq<Sample>, fold: Fold) -> Option<int> {
    if s.len() == 0 {
        None
    } else if fold == Fold::Max {
        Some(to_tenths(top(s)))
    } else {
        Some(rounded(total(s), s.len() * TENTH) * TENTH)
    }
}

/// The points of a channel.
pub open spec fn resampled(
    s: Seq<Sample>,
    from: u64,
    bins: nat,
    step: int,
    fold: Fold,
) -> Seq<Option<i64>> {
    Seq::new(
        bins,
        |i: int|
            match point(in_bin(s, from, step, i), fold) {
                Some(v) => Some(v as i64),
                None => None,
            },
    )
}

/// What a sample says, the interval's samples say too.
pub proof fn lemma_in_bin(s: Seq<Sample>, from: u64, step: int, i: int)
    ensures
        in_bin(s, from, step, i).len() <= s.len(),
        forall|k: int|
            0 <= k < s.len() && bin_of(#[trigger] s[k], from, step) == Some(i) ==> in_bin(
                s,
                from,
                step,
                i,
            ).contains(s[k]),
        forall|k: int|
            0 <= k < in_bin(s, from, step, i).len() ==> s.contains(
                #[trigger] in_bin(s, from, step, i)[k],
            ) && bin_of(in_bin(s, from, step, i)[k], from, step) == Some(i),
    decreases s.len(),
{
    if s.len() > 0 {
        let front = s.drop_last();
        lemma_in_bin(front, from, step, i);
        let b = in_bin(s, from, step, i);
        let fb = in_bin(front, from, step, i);
        assert forall|k: int|
            0 <= k < s.len() && bin_of(#[trigger] s[k], from, step) == Some(
                i,
            ) implies b.contains(s[k]) by {
            if k < front.len() {
                assert(front[k] == s[k]);
                assert(fb.contains(s[k]));
                let m = choose|m: int| 0 <= m < fb.len() && fb[m] == s[k];
                assert(b[m] == s[k]);
            } else {
                assert(b[b.len() - 1] == s[k]);
            }
        }
        assert forall|k: int| 0 <= k < b.len() implies s.contains(#[trigger] b[k]) && bin_of(
            b[k],
            from,
            step,
        ) == Some(i) by {
            if k < fb.len() {
                assert(b[k] == fb[k]);
                assert(front.contains(fb[k]));
                let m = choose|m: int| 0 <= m < front.len() && front[m] == fb[k];
                assert(s[m] == b[k]);
            } else {
                assert(b[k] == s.last());
                assert(s[s.len() - 1] == b[k]);
            }
        }
    }
}

/// The highest value is one of the values, and none is higher.
pub proof fn lemma_top(s: Seq<Sample>)
    requires
        s.len() > 0,
    ensures
        forall|k: int| 0 <= k < s.len() ==> (#[trigger] s[k]).value <= top(s),
        exists|k: int| 0 <= k < s.len() && (#[trigger] s[k]).value == top(s),
    decreases s.len(),
{
    if s.len() == 1 {
        assert(s[0].value == top(s));
    } else {
        let front = s.drop_last();
        lemma_top(front);
        assert(forall|k: int| 0 <= k < front.len() ==> front[k] == s[k]);
        let k = choose|k: int| 0 <= k < front.len() && (#[trigger] front[k]).value == top(front);
        if top(front) < s.last().value {
            assert(s[s.len() - 1].value == top(s));
        } else {
            assert(s[k].value == top(s));
        }
    }
}

/// Rounding to tenths keeps the order.
pub proof fn lemma_tenths_monotone(a: int, b: int)
    requires
        a <= b,
    ensures
        to_tenths(a) <= to_tenths(b),
{
    assert(a >= 0 ==> rounded(a, TENTH as int) == (2 * a + 100_000) / 200_000);
    assert(a < 0 ==> rounded(a, TENTH as int) == -((2 * -a + 100_000) / 200_000));
    assert(b >= 0 ==> rounded(b, TENTH as int) == (2 * b + 100_000) / 200_000);
    assert(b < 0 ==> rounded(b, TENTH as int) == -((2 * -b + 100_000) / 200_000));
}

/// A temperature curve keeps every peak: the point of a reading's interval is
/// at least the reading, and is itself a reading of that interval, both in
/// tenths.
pub proof fn lemma_peak_kept(
    s: Seq<Sample>,
    from: u64,
    step: int,
    k: int,
)
    requires
        0 <= k < s.len(),
        s[k].at >= from,
        step > 0,
    ensures
        ({
            let i = (s[k].at - from) / step;
            let p = point(in_bin(s, from, step, i), Fold::Max);
            &&& p is Some
            &&& to_tenths(s[k].value as int) <= p->0
            &&& exists|m: int|
                0 <= m < s.len() && bin_of(#[trigger] s[m], from, step) == Some(i) && to_tenths(
                    s[m].value as int,
                ) == p->0
        }),
{
    let i = (s[k].at - from) / step;
    let b = in_bin(s, from, step, i);
    lemma_in_bin(s, from, step, i);
    assert(bin_of(s[k], from, step) == Some(i));
    assert(b.contains(s[k]));
    let j = choose|j: int| 0 <= j < b.len() && b[j] == s[k];
    lemma_top(b);
    assert(b[j].value <= top(b));
    lemma_tenths_monotone(s[k].value as int, top(b));
    let t = choose|t: int| 0 <= t < b.len() && (#[trigger] b[t]).value == top(b);
    assert(s.contains(b[t]));
    let m = choose|m: int| 0 <= m < s.len() && s[m] == b[t];
    assert(bin_of(s[m], from, step) == Some(i));
    assert(to_tenths(s[m].value as int) == to_tenths(top(b)));
}

/// What is gathered of an interval so far.
#[derive(Clone, Copy)]
struct Slot {
    top: i64,
    sum: i128,
    count: u64,
}

spec fn slot_of(s: Seq<Sample>) -> Slot {
    Slot {
        top: if s.len() > 0 {
            top(s) as i64
        } else {
            0
        },
        sum: total(s) as i128,
        count: s.len() as u64,
    }
}

proof fn lemma_bounds(s: Seq<Sample>)
    requires
        all_wf(s),
    ensures
        -LIMIT * s.len() <= total(s) <= LIMIT * s.len(),
        s.len() > 0 ==> -LIMIT <= top(s) <= LIMIT,
    decreases s.len(),
{
    if s.len() > 0 {
        let front = s.drop_last();
        assert(all_wf(front)) by {
            assert forall|i: int| 0 <= i < front.len() implies (#[trigger] front[i]).wf() by {
                assert(front[i] == s[i]);
            }
        }
        lemma_bounds(front);
        assert(s[s.len() - 1].wf());
        assert(LIMIT * s.len() == LIMIT * front.len() + LIMIT) by (nonlinear_arith)
            requires
                s.len() == front.len() + 1,
        ;
        assert(-LIMIT * s.len() == -LIMIT * front.len() - LIMIT) by (nonlinear_arith)
            requires
                s.len() == front.len() + 1,
        ;
        lemma_top(s);
        let k = choose|k: int| 0 <= k < s.len() && (#[trigger] s[k]).value == top(s);
        assert(s[k].wf());
    }
}

proof fn lemma_bin_wf(s: Seq<Sample>, from: u64, step: int, i: int)
    requires
        all_wf(s),
    ensures
        all_wf(in_bin(s, from, step, i)),
{
    let b = in_bin(s, from, step, i);
    lemma_in_bin(s, from, step, i);
    assert forall|k: int| 0 <= k < b.len() implies (#[trigger] b[k]).wf() by {
        assert(s.contains(b[k]));
        let m = choose|m: int| 0 <= m < s.len() && s[m] == b[k];
        assert(s[m].wf());
    }
}

fn gather(samples: &VecDeque<Sample>, from: u64, bins: usize, step: u64) -> (r: Vec<Slot>)
    requires
        all_wf(samples@),
        samples@.len() < 0x1_0000_0000_0000,
        step > 0,
    ensures
        r@.len() == bins,
        forall|i: int|
            0 <= i < bins ==> #[trigger] r@[i] == slot_of(
                in_bin(samples@, from, step as int, i),
            ),
{
    let mut r: Vec<Slot> = Vec::new();
    let mut b: usize = 0;
    let ghost none: Seq<Sample> = Seq::empty();
    assert(samples@.take(0) =~= none);
    while b < bins
        invariant
            b <= bins,
            r@.len() == b,
            none == Seq::<Sample>::empty(),
            forall|i: int| 0 <= i < b ==> #[trigger] r@[i] == slot_of(none),
        decreases bins - b,
    {
        r.push(Slot { top: 0, sum: 0, count: 0 });
        b = b + 1;
    }
    let mut k: usize = 0;
    assert(forall|i: int| in_bin(none, from, step as int, i) == none);
    while k < samples.len()
        invariant
            k <= samples.len(),
            all_wf(samples@),
            samples@.len() < 0x1_0000_0000_0000,
            step > 0,
            r@.len() == bins,
            forall|i: int|
                0 <= i < bins ==> #[trigger] r@[i] == slot_of(
                    in_bin(samples@.take(k as int), from, step as int, i),
                ),
        decreases samples.len() - k,
    {
        let s: Sample = samples[k];
        let ghost old_r = r@;
        let ghost before = samples@.take(k as int);
        let ghost after = samples@.take(k + 1);
        assert(after.drop_last() =~= before);
        assert(after.last() == s);
        assert(all_wf(before)) by {
            assert forall|i: int| 0 <= i < before.len() implies (#[trigger] before[i]).wf() by {
                assert(before[i] == samples@[i]);
            }
        }
        assert(samples@[k as int].wf());
        if s.at >= from {
            let i: u64 = (s.at - from) / step;
            if (i as u128) < bins as u128 {
                let at: usize = i as usize;
                let old_slot: Slot = r[at];
                let ghost bin = in_bin(before, from, step as int, at as int);
                proof {
                    lemma_in_bin(before, from, step as int, at as int);
                    lemma_bin_wf(before, from, step as int, at as int);
                    lemma_bounds(bin);
                    assert(r@[at as int] == slot_of(bin));
                    assert(-LIMIT * bin.len() >= -0x1000_0000_0000_0000_0000_0000_0000_0000)
                        by (nonlinear_arith)
                        requires
                            bin.len() < 0x1_0000_0000_0000,
                            LIMIT == 1_000_000_000_000_000_000,
                    ;
                    assert(LIMIT * bin.len() <= 0x1000_0000_0000_0000_0000_0000_0000_0000)
                        by (nonlinear_arith)
                        requires
                            bin.len() < 0x1_0000_0000_0000,
                            LIMIT == 1_000_000_000_000_000_000,
                    ;
                    assert(in_bin(after, from, step as int, at as int) == bin.push(s));
                    assert(bin.push(s).drop_last() =~= bin);
                }
                let highest: i64 = if old_slot.count == 0 || old_slot.top < s.value {
                    s.value
                } else {
                    old_slot.top
                };
                r.set(
                    at,
                    Slot {
                        top: highest,
                        sum: old_slot.sum + s.value as i128,
                        count: old_slot.count + 1,
                    },
                );
                assert(r@[at as int] == slot_of(bin.push(s)));
            }
        }
        assert forall|i: int| 0 <= i < bins implies #[trigger] r@[i] == slot_of(
            in_bin(after, from, step as int, i),
        ) by {
            if bin_of(s, from, step as int) != Some(i) {
                assert(r@[i] == old_r[i]);
                assert(in_bin(after, from, step as int, i) == in_bin(before, from, step as int, i));
            }
        }
        k = k + 1;
    }
    assert(samples@.take(samples@.len() as int) =~= samples@);
    r
}

fn round_mean(sum: i128, count: u64) -> (r: i64)
    requires
        0 < count < 0x1_0000_0000_0000,
        -LIMIT * count <= sum <= LIMIT * count,
    ensures
        r == rounded(sum as int, count * TENTH) * TENTH,
        -LIMIT <= r <= LIMIT,
{
    assert(-LIMIT * count == -(LIMIT * count)) by (nonlinear_arith);
    assert(LIMIT * count <= 0x1000_0000_0000_0000_0000_0000_0000_0000) by (nonlinear_arith)
        requires
            count < 0x1_0000_0000_0000,
            LIMIT == 1_000_000_000_000_000_000,
    ;
    let d: i128 = count as i128 * 100_000;
    let m: i128 = if sum < 0 {
        -sum
    } else {
        sum
    };
    assert(m <= LIMIT * count);
    assert(m <= 0x1000_0000_0000_0000_0000_0000_0000_0000) by (nonlinear_arith)
        requires
            m <= LIMIT * count,
            count < 0x1_0000_0000_0000,
            LIMIT == 1_000_000_000_000_000_000,
    ;
    let q: i128 = (2 * m + d) / (2 * d);
    assert(0 <= q <= 10_000_000_000_000) by (nonlinear_arith)
        requires
            q == (2 * m + d) / (2 * d),
            0 <= m <= LIMIT * count,
            d == count * 100_000,
            count > 0,
            LIMIT == 1_000_000_000_000_000_000,
    ;
    let v: i64 = q as i64 * 100_000;
    if sum < 0 {
        -v
    } else {
        v
    }
}

/// Resamples a channel: one point per interval.
pub fn resample(
    samples: &VecDeque<Sample>,
    from: u64,
    bins: usize,
    step: u64,
    fold: Fold,
) -> (r: Vec<Option<i64>>)
    requires
        all_wf(samples@),
        samples@.len() < 0x1_0000_0000_0000,
        step > 0,
    ensures
        r@ == resampled(samples@, from, bins as nat, step as int, fold),
{
    let slots: Vec<Slot> = gather(samples, from, bins, step);
    let mut r: Vec<Option<i64>> = Vec::new();
    let ghost want = resampled(samples@, from, bins as nat, step as int, fold);
    let mut i: usize = 0;
    while i < bins
        invariant
            i <= bins,
            slots@.len() == bins,
            all_wf(samples@),
            samples@.len() < 0x1_0000_0000_0000,
            forall|k: int|
                0 <= k < bins ==> #[trigger] slots@[k] == slot_of(
                    in_bin(samples@, from, step as int, k),
                ),
            want == resampled(samples@, from, bins as nat, step as int, fold),
            r@ == want.take(i as int),
        decreases bins - i,
    {
        let slot: Slot = slots[i];
        let ghost bin = in_bin(samples@, from, step as int, i as int);
        proof {
            assert(slots@[i as int] == slot_of(bin));
            lemma_in_bin(samples@, from, step as int, i as int);
            lemma_bin_wf(samples@, from, step as int, i as int);
            lemma_bounds(bin);
            assert(-0x1000_0000_0000_0000_0000_0000_0000_0000 <= -LIMIT * bin.len() && LIMIT
                * bin.len() <= 0x1000_0000_0000_0000_0000_0000_0000_0000) by (nonlinear_arith)
                requires
                    bin.len() < 0x1_0000_0000_0000,
                    LIMIT == 1_000_000_000_000_000_000,
            ;
        }
        let p = if slot.count == 0 {
            None
        } else {
            match fold {
                Fold::Max => Some(crate::fixed::round_tenths(slot.top)),
                Fold::Mean => Some(round_mean(slot.sum, slot.count)),
            }
        };
        r.push(p);
        i = i + 1;
        assert(want.take(i as int) =~= want.take(i - 1).push(want[i - 1]));
    }
    assert(want.take(bins as int) =~= want);
    r
}

// ---------------------------------------------------------------------------
// Readings of the run

/// The samples that were taken by a time.
pub open spec fn taken_by(s: Seq<Sample>, until: u64) -> Seq<Sample>
    decreases s.len(),
{
    if s.len() == 0 {
        s
    } else if s.last().at <= until {
        taken_by(s.drop_last(), until).push(s.last())
    } else {
        taken_by(s.drop_last(), until)
    }
}

/// The samples taken by a time are just those that were.
pub proof fn lemma_taken_by(s: Seq<Sample>, until: u64)
    ensures
        taken_by(s, until).len() <= s.len(),
        forall|k: int|
            0 <= k < s.len() && (#[trigger] s[k]).at <= until ==> taken_by(s, until).contains(s[k]),
        forall|k: int|
            0 <= k < taken_by(s, until).len() ==> s.contains(#[trigger] taken_by(s, until)[k])
                && taken_by(s, until)[k].at <= until,
        all_wf(s) ==> all_wf(taken_by(s, until)),
    decreases s.len(),
{
    if s.len() > 0 {
        let front = s.drop_last();
        lemma_taken_by(front, until);
        let t = taken_by(s, until);
        let ft = taken_by(front, until);
        assert forall|k: int| 0 <= k < s.len() && (#[trigger] s[k]).at <= until implies t.contains(
            s[k],
        ) by {
            if k < front.len() {
                assert(front[k] == s[k]);
                let m = choose|m: int| 0 <= m < ft.len() && ft[m] == s[k];
                assert(t[m] == s[k]);
            } else {
                assert(t[t.len() - 1] == s[k]);
            }
        }
        assert forall|k: int| 0 <= k < t.len() implies s.contains(#[trigger] t[k]) && t[k].at
            <= until by {
            if k < ft.len() {
                assert(t[k] == ft[k]);
                let m = choose|m: int| 0 <= m < front.len() && front[m] == ft[k];
                assert(s[m] == t[k]);
            } else {
                assert(s[s.len() - 1] == t[k]);
            }
        }
        assert forall|k: int| all_wf(s) && 0 <= k < t.len() implies (#[trigger] t[k]).wf() by {
            let m = choose|m: int| 0 <= m < s.len() && s[m] == t[k];
            assert(s[m].wf());
        }
    }
}

fn readings_until(samples: &VecDeque<Sample>, until: u64) -> (r: VecDeque<Sample>)
    ensures
        r@ == taken_by(samples@, until),
{
    let mut r: VecDeque<Sample> = VecDeque::new();
    let mut k: usize = 0;
    assert(samples@.take(0) =~= Seq::empty());
    assert(r@ =~= Seq::empty());
    while k < samples.len()
        invariant
            k <= samples.len(),
            r@ == taken_by(samples@.take(k as int), until),
        decreases samples.len() - k,
    {
        let s: Sample = samples[k];
        assert(samples@.take(k + 1).drop_last() =~= samples@.take(k as int));
        if s.at <= until {
            r.push_back(s);
        }
        k = k + 1;
    }
    assert(samples@.take(samples@.len() as int) =~= samples@);
    r
}

// ---------------------------------------------------------------------------
// The whole curve

/// Where the curve begins: the lead-in before the start, unless the clock does
/// not reach back so far.
pub open spec fn curve_from(started: u64) -> u64 {
    if started >= LEAD_IN {
        (started - LEAD_IN) as u64
    } else {
        started
    }
}

/// Whole seconds between two times, none if the second is earlier.
pub open spec fn seconds(from: u64, to: u64) -> int {
    if to >= from {
        (to - from) / (SECOND as int)
    } else {
        0
    }
}

/// `n / d` rounded up.
pub open spec fn ceil_div(n: int, d: int) -> int {
    (n + d - 1) / d
}

/// Seconds between two points of a curve over so many seconds.
pub open spec fn interval_for(secs: int) -> int {
    if secs <= MAX_POINTS {
        1
    } else {
        ceil_div(secs, MAX_POINTS as int)
    }
}

/// Points of a curve over so many seconds.
pub open spec fn bins_for(secs: int) -> int {
    ceil_div(secs, interval_for(secs))
}

/// However long a test is, its curve has at most `MAX_POINTS` points, and they
/// cover it.
pub proof fn lemma_points_capped(secs: int)
    requires
        secs >= 1,
    ensures
        interval_for(secs) >= 1,
        1 <= bins_for(secs) <= MAX_POINTS,
        bins_for(secs) * interval_for(secs) >= secs,
{
    let n = interval_for(secs);
    if secs <= MAX_POINTS {
        assert(n == 1);
        assert(bins_for(secs) == secs);
    } else {
        assert(n == (secs + 299) / 300);
        assert(n >= 1 && 300 * n >= secs);
        let b = (secs + n - 1) / n;
        assert(b <= 300 && b >= 1 && b * n >= secs) by (nonlinear_arith)
            requires
                b == (secs + n - 1) / n,
                300 * n >= secs,
                n >= 1,
                secs >= 1,
        ;
    }
}

/// The channel with the points from `first` on.
pub open spec fn cut(c: Option<Seq<Option<i64>>>, first: int) -> Option<Seq<Option<i64>>> {
    match c {
        Some(v) => Some(v.skip(first)),
        None => None,
    }
}

/// A channel has a value at `i`.
pub open spec fn value_at(c: Option<Seq<Option<i64>>>, i: int) -> bool {
    match c {
        Some(v) => 0 <= i < v.len() && v[i] is Some,
        None => false,
    }
}

/// The first point from `i` on and under `bins` with a temperature, or `bins`.
pub open spec fn first_value(
    cpu: Option<Seq<Option<i64>>>,
    gpu: Option<Seq<Option<i64>>>,
    i: int,
    bins: int,
) -> int
    decreases bins - i,
{
    if i >= bins || value_at(cpu, i) || value_at(gpu, i) {
        i
    } else {
        first_value(cpu, gpu, i + 1, bins)
    }
}

/// The temperatures of a part, as taken by a time, as points.
pub open spec fn temp_points(p: Option<PartSamples>, from: u64, until: u64, secs: int) -> Option<
    Seq<Option<i64>>,
> {
    match p {
        Some(x) => Some(
            resampled(
                taken_by(x.temp@, until),
                from,
                bins_for(secs) as nat,
                interval_for(secs) * SECOND,
                Fold::Max,
            ),
        ),
        None => None,
    }
}

/// The loads of a part, as taken by a time, as points.
pub open spec fn usage_points(p: Option<PartSamples>, from: u64, until: u64, secs: int) -> Option<
    Seq<Option<i64>>,
> {
    match p {
        Some(x) => Some(
            resampled(
                taken_by(x.usage@, until),
                from,
                bins_for(secs) as nat,
                interval_for(secs) * SECOND,
                Fold::Mean,
            ),
        ),
        None => None,
    }
}

/// The curve of a run, from the first temperature on; none if that leaves
/// fewer than two points.  It is made of the readings up to the stop.  Its
/// points are counted out over the whole seconds up to there, so that a
/// reading in a second that had only begun counts where the last point reaches
/// over it.
pub open spec fn built(
    cpu: Option<PartSamples>,
    gpu: Option<PartSamples>,
    started: u64,
    stopped: u64,
) -> Option<SeriesView> {
    let from = curve_from(started);
    let secs = seconds(from, stopped);
    let bins = bins_for(secs);
    let ct = temp_points(cpu, from, stopped, secs);
    let gt = temp_points(gpu, from, stopped, secs);
    let first = first_value(ct, gt, 0, bins);
    if secs < 2 || (cpu is None && gpu is None) || bins - first < 2 {
        None
    } else {
        Some(
            SeriesView {
                v: 1,
                interval: interval_for(secs),
                start: first * interval_for(secs) - (started - from) / (SECOND as int),
                cpu_temp: cut(ct, first),
                gpu_temp: cut(gt, first),
                cpu_usage: cut(usage_points(cpu, from, stopped, secs), first),
                gpu_usage: cut(usage_points(gpu, from, stopped, secs), first),
            },
        )
    }
}

/// A point of a temperature curve, taken from the readings of a run.
pub open spec fn is_reading(s: Seq<Sample>, from: u64, until: u64, v: i64) -> bool {
    exists|m: int|
        0 <= m < s.len() && from <= (#[trigger] s[m]).at <= until && to_tenths(
            s[m].value as int,
        ) == v
}

/// Every temperature of a curve is a reading, in tenths, that was taken within
/// the lead-in and the run: none from after the stop.
pub proof fn lemma_curve_within_run(p: PartSamples, started: u64, stopped: u64, i: int)
    requires
        p.wf(),
        0 <= i < bins_for(seconds(curve_from(started), stopped)),
    ensures
        ({
            let from = curve_from(started);
            let c = temp_points(Some(p), from, stopped, seconds(from, stopped))->0;
            c[i] is Some ==> is_reading(p.temp@, from, stopped, c[i]->0)
        }),
{
    let from = curve_from(started);
    let secs = seconds(from, stopped);
    let s = taken_by(p.temp@, stopped);
    let step = interval_for(secs) * SECOND;
    lemma_taken_by(p.temp@, stopped);
    lemma_in_bin(s, from, step, i);
    lemma_bin_wf(s, from, step, i);
    let b = in_bin(s, from, step, i);
    if b.len() > 0 {
        lemma_bounds(b);
        lemma_top(b);
        let t = choose|t: int| 0 <= t < b.len() && (#[trigger] b[t]).value == top(b);
        assert(s.contains(b[t]));
        let k = choose|k: int| 0 <= k < s.len() && s[k] == b[t];
        assert(p.temp@.contains(s[k]));
        let m = choose|m: int| 0 <= m < p.temp@.len() && p.temp@[m] == s[k];
        assert(bin_of(b[t], from, step) == Some(i));
        assert(from <= p.temp@[m].at <= stopped);
        let v = to_tenths(top(b));
        assert(-LIMIT <= top(b) <= LIMIT);
        assert(v == v as i64) by {
            lemma_tenths_monotone(-LIMIT as int, top(b));
            lemma_tenths_monotone(top(b), LIMIT as int);
            assert(to_tenths(LIMIT as int) == LIMIT);
            assert(to_tenths(-LIMIT as int) == -LIMIT);
        }
    }
}

/// A run's temperature is kept: where a point covers a reading of the run, it
/// is at least that reading, in tenths.
pub proof fn lemma_reading_in_curve(p: PartSamples, started: u64, stopped: u64, k: int)
    requires
        p.wf(),
        0 <= k < p.temp@.len(),
        curve_from(started) <= p.temp@[k].at <= stopped,
        seconds(curve_from(started), stopped) >= 1,
    ensures
        ({
            let from = curve_from(started);
            let secs = seconds(from, stopped);
            let i = (p.temp@[k].at - from) / (interval_for(secs) * SECOND);
            let c = temp_points(Some(p), from, stopped, secs)->0;
            i < bins_for(secs) ==> c[i] is Some && c[i]->0 >= to_tenths(p.temp@[k].value as int)
        }),
{
    let from = curve_from(started);
    let secs = seconds(from, stopped);
    lemma_points_capped(secs);
    let s = taken_by(p.temp@, stopped);
    let step = interval_for(secs) * SECOND;
    lemma_taken_by(p.temp@, stopped);
    let j = choose|j: int| 0 <= j < s.len() && s[j] == p.temp@[k];
    assert(step > 0) by (nonlinear_arith)
        requires
            step == interval_for(secs) * SECOND,
            interval_for(secs) >= 1,
            SECOND == 1_000_000_000,
    ;
    lemma_peak_kept(s, from, step, j);
    let i = (p.temp@[k].at - from) / step;
    assert(i >= 0) by (nonlinear_arith)
        requires
            i == (p.temp@[k].at - from) / step,
            step > 0,
            p.temp@[k].at >= from,
    ;
    let b = in_bin(s, from, step, i);
    lemma_bin_wf(s, from, step, i);
    lemma_bounds(b);
    lemma_tenths_monotone(-LIMIT as int, top(b));
    lemma_tenths_monotone(top(b), LIMIT as int);
    assert(to_tenths(LIMIT as int) == LIMIT);
    assert(to_tenths(-LIMIT as int) == -LIMIT);
}

/// The length of a channel, if there is one.
pub open spec fn has_len(c: Option<Seq<Option<i64>>>, n: int) -> bool {
    match c {
        Some(v) => v.len() == n,
        None => true,
    }
}

/// A curve's channels are equally long, of two to `MAX_POINTS` points, and its
/// first point has a temperature.
pub proof fn lemma_curve_shape(
    cpu: Option<PartSamples>,
    gpu: Option<PartSamples>,
    started: u64,
    stopped: u64,
)
    requires
        built(cpu, gpu, started, stopped) is Some,
    ensures
        ({
            let s = built(cpu, gpu, started, stopped)->0;
            exists|n: int| #![trigger has_len(s.cpu_temp, n)]
                2 <= n <= MAX_POINTS && has_len(s.cpu_temp, n) && has_len(s.gpu_temp, n)
                    && has_len(s.cpu_usage, n) && has_len(s.gpu_usage, n)
        }),
        ({
            let s = built(cpu, gpu, started, stopped)->0;
            value_at(s.cpu_temp, 0) || value_at(s.gpu_temp, 0)
        }),
{
    let s = built(cpu, gpu, started, stopped)->0;
    let from = curve_from(started);
    let secs = seconds(from, stopped);
    let bins = bins_for(secs);
    lemma_points_capped(secs);
    let ct = temp_points(cpu, from, stopped, secs);
    let gt = temp_points(gpu, from, stopped, secs);
    lemma_first_value(ct, gt, 0, bins);
    let first = first_value(ct, gt, 0, bins);
    assert(has_len(s.cpu_temp, bins - first));
    assert(value_at(ct, first) || value_at(gt, first));
    if value_at(ct, first) {
        assert(ct->0.skip(first)[0] == ct->0[first]);
    } else {
        assert(gt->0.skip(first)[0] == gt->0[first]);
    }
}

proof fn lemma_first_value(
    cpu: Option<Seq<Option<i64>>>,
    gpu: Option<Seq<Option<i64>>>,
    i: int,
    bins: int,
)
    requires
        0 <= i <= bins,
    ensures
        i <= first_value(cpu, gpu, i, bins) <= bins,
        first_value(cpu, gpu, i, bins) < bins ==> value_at(cpu, first_value(cpu, gpu, i, bins))
            || value_at(gpu, first_value(cpu, gpu, i, bins)),
    decreases bins - i,
{
    if i < bins && !value_at(cpu, i) && !value_at(gpu, i) {
        lemma_first_value(cpu, gpu, i + 1, bins);
    }
}

fn points_of(
    samples: Option<&VecDeque<Sample>>,
    from: u64,
    until: u64,
    bins: usize,
    step: u64,
    fold: Fold,
) -> (r: Option<Vec<Option<i64>>>)
    requires
        samples is Some ==> all_wf(samples->0@) && samples->0@.len() < 0x1_0000_0000_0000,
        step > 0,
    ensures
        points(r) == (match samples {
            Some(s) => Some(
                resampled(taken_by(s@, until), from, bins as nat, step as int, fold),
            ),
            None => None,
        }),
{
    match samples {
        Some(s) => {
            let taken = readings_until(s, until);
            proof {
                lemma_taken_by(s@, until);
            }
            Some(resample(&taken, from, bins, step, fold))
        },
        None => None,
    }
}

fn cut_of(c: Option<Vec<Option<i64>>>, first: usize) -> (r: Option<Vec<Option<i64>>>)
    requires
        c is Some ==> first <= c->0@.len(),
    ensures
        points(r) == cut(points(c), first as int),
{
    match c {
        Some(v) => {
            let rest = vstd::slice::slice_to_vec(
                vstd::slice::slice_subrange(v.as_slice(), first, v.len()),
            );
            assert(rest@ =~= v@.skip(first as int));
            Some(rest)
        },
        None => None,
    }
}

fn has_value(c: &Option<Vec<Option<i64>>>, i: usize) -> (r: bool)
    ensures
        r == value_at(points(*c), i as int),
{
    match c {
        Some(v) => i < v.len() && v[i].is_some(),
        None => false,
    }
}

/// The contents of an optional curve.
pub open spec fn series_of(s: Option<Series>) -> Option<SeriesView> {
    match s {
        Some(x) => Some(x@),
        None => None,
    }
}

fn temp_samples<'a>(p: &Option<PartSamples<'a>>) -> (r: Option<&'a VecDeque<Sample>>)
    ensures
        match *p {
            Some(x) => r == Some(x.temp),
            None => r is None,
        },
{
    match p {
        Some(x) => Some(x.temp),
        None => None,
    }
}

fn usage_samples<'a>(p: &Option<PartSamples<'a>>) -> (r: Option<&'a VecDeque<Sample>>)
    ensures
        match *p {
            Some(x) => r == Some(x.usage),
            None => r is None,
        },
{
    match p {
        Some(x) => Some(x.usage),
        None => None,
    }
}

/// A part's samples are sound, and can be counted.
pub open spec fn part_wf(p: Option<PartSamples>) -> bool {
    match p {
        Some(x) => x.wf() && x.temp@.len() < 0x1_0000_0000_0000 && x.usage@.len()
            < 0x1_0000_0000_0000,
        None => true,
    }
}

// ---------------------------------------------------------------------------
// What a curve shows of its readings

/// The samples that were taken from `lo` on and before `hi`, and by `until`.
pub open spec fn within(lo: int, hi: int, until: u64) -> spec_fn(Sample) -> bool {
    |x: Sample| lo <= x.at < hi && x.at <= until
}

/// `v` is `n / d`, in millionths, rounded to a tenth of a unit, halves away
/// from zero.
pub open spec fn in_tenths(v: int, n: int, d: int) -> bool {
    &&& v % 100_000 == 0
    &&& 2 * (v * d - n) <= d * 100_000
    &&& 2 * (n - v * d) <= d * 100_000
    &&& n >= 0 ==> 2 * (n - v * d) < d * 100_000
    &&& n < 0 ==> 2 * (v * d - n) < d * 100_000
}

/// The sum of the values of samples.
pub open spec fn sum(s: Seq<Sample>) -> int {
    s.fold_left(0int, |a: int, x: Sample| a + x.value)
}

/// `v` is the highest of some samples, in tenths.
pub open spec fn is_highest(v: int, f: Seq<Sample>) -> bool {
    exists|k: int|
        0 <= k < f.len() && in_tenths(v, (#[trigger] f[k]).value as int, 1) && forall|j: int|
            0 <= j < f.len() ==> (#[trigger] f[j]).value <= f[k].value
}

/// A channel shows its samples: a point wherever one was taken in the point's
/// interval and before the stop, as high as the highest of these, or their
/// mean.  The first interval begins at `t0`.
pub open spec fn shows(
    c: Option<Seq<Option<i64>>>,
    s: Option<Seq<Sample>>,
    t0: int,
    step: int,
    until: u64,
    len: int,
    highest: bool,
) -> bool {
    &&& c is Some <==> s is Some
    &&& c is Some ==> c->0.len() == len && forall|j: int|
        0 <= j < len ==> ({
            let f = s->0.filter(within(t0 + j * step, t0 + j * step + step, until));
            let p = #[trigger] c->0[j];
            &&& p is Some <==> f.len() > 0
            &&& p is Some && highest ==> is_highest(p->0 as int, f)
            &&& p is Some && !highest ==> in_tenths(p->0 as int, sum(f), f.len() as int)
        })
}

/// The temperature samples of a part, if it is there.
pub open spec fn temps_of(p: Option<PartSamples>) -> Option<Seq<Sample>> {
    match p {
        Some(x) => Some(x.temp@),
        None => None,
    }
}

/// The load samples of a part, if it is there.
pub open spec fn loads_of(p: Option<PartSamples>) -> Option<Seq<Sample>> {
    match p {
        Some(x) => Some(x.usage@),
        None => None,
    }
}

/// A sample is a temperature that was read of one of the parts.
pub open spec fn was_read(cpu: Option<PartSamples>, gpu: Option<PartSamples>, x: Sample) -> bool {
    (cpu is Some && cpu->0.temp@.contains(x)) || (gpu is Some && gpu->0.temp@.contains(x))
}

/// Ten seconds before a start, or the start where the clock does not reach back
/// so far.
pub open spec fn ten_before(started: u64) -> int {
    if started >= 10_000_000_000 {
        started - 10_000_000_000
    } else {
        started as int
    }
}

/// `n` is the shortest interval, in seconds, at which at most 300 points cover
/// so many seconds.
pub open spec fn shortest(n: int, secs: int) -> bool {
    n >= 1 && secs <= 300 * n && (n == 1 || secs > 300 * (n - 1))
}

proof fn lemma_interval_samples(s: Seq<Sample>, from: u64, until: u64, step: int, i: int)
    requires
        step > 0,
        i >= 0,
    ensures
        in_bin(taken_by(s, until), from, step, i) == s.filter(
            within(from + i * step, from + i * step + step, until),
        ),
    decreases s.len(),
{
    reveal(Seq::filter);
    if s.len() > 0 {
        let x = s.last();
        lemma_interval_samples(s.drop_last(), from, until, step, i);
        let t = taken_by(s.drop_last(), until);
        if x.at <= until {
            assert(t.push(x).drop_last() =~= t);
            let a = x.at - from;
            assert(a >= 0 ==> (a / step == i <==> i * step <= a < i * step + step))
                by (nonlinear_arith)
                requires
                    step > 0,
            ;
            assert(i * step >= 0) by (nonlinear_arith)
                requires
                    i >= 0,
                    step > 0,
            ;
        }
    }
}

proof fn lemma_sum(s: Seq<Sample>)
    ensures
        total(s) == sum(s),
    decreases s.len(),
{
    reveal_with_fuel(Seq::fold_left, 2);
    if s.len() > 0 {
        lemma_sum(s.drop_last());
    }
}

proof fn lemma_in_tenths(n: int, d: int)
    requires
        d > 0,
    ensures
        in_tenths(rounded(n, d * TENTH) * TENTH, n, d),
{
    let w = d * 100_000;
    assert(TENTH == 100_000);
    let q = rounded(n, w);
    if n >= 0 {
        assert(q == (2 * n + w) / (2 * w));
        assert(2 * (q * w) <= 2 * n + w && 2 * n + w < 2 * (q * w) + 2 * w) by (nonlinear_arith)
            requires
                q == (2 * n + w) / (2 * w),
                w > 0,
        ;
    } else {
        let p = -q;
        assert(p == (2 * -n + w) / (2 * w));
        assert(2 * (p * w) <= 2 * -n + w && 2 * -n + w < 2 * (p * w) + 2 * w) by (nonlinear_arith)
            requires
                p == (2 * -n + w) / (2 * w),
                w > 0,
        ;
        assert(q * w == -(p * w)) by (nonlinear_arith)
            requires
                p == -q,
        ;
    }
    assert((q * 100_000) * d == q * w) by (nonlinear_arith)
        requires
            w == d * 100_000,
    ;
}

/// The points of a channel show its samples.
proof fn lemma_shows(
    s: Seq<Sample>,
    from: u64,
    until: u64,
    bins: nat,
    step: int,
    fold: Fold,
    first: int,
)
    requires
        all_wf(s),
        step > 0,
        0 <= first <= bins,
    ensures
        shows(
            Some(resampled(taken_by(s, until), from, bins, step, fold).skip(first)),
            Some(s),
            from + first * step,
            step,
            until,
            bins - first,
            fold == Fold::Max,
        ),
{
    let t = taken_by(s, until);
    let all = resampled(t, from, bins, step, fold);
    let c = all.skip(first);
    lemma_taken_by(s, until);
    assert forall|j: int| 0 <= j < bins - first implies ({
        let f = s.filter(
            within(from + first * step + j * step, from + first * step + j * step + step, until),
        );
        let p = #[trigger] c[j];
        &&& p is Some <==> f.len() > 0
        &&& p is Some && fold == Fold::Max ==> is_highest(p->0 as int, f)
        &&& p is Some && fold != Fold::Max ==> in_tenths(p->0 as int, sum(f), f.len() as int)
    }) by {
        let i = first + j;
        assert(c[j] == all[i]);
        lemma_interval_samples(s, from, until, step, i);
        assert(i * step == first * step + j * step) by (nonlinear_arith)
            requires
                i == first + j,
        ;
        let b = in_bin(t, from, step, i);
        lemma_bin_wf(t, from, step, i);
        lemma_bounds(b);
        lemma_sum(b);
        if b.len() > 0 {
            lemma_top(b);
            lemma_in_tenths(top(b), 1);
            lemma_in_tenths(total(b), b.len() as int);
            let k = choose|k: int| 0 <= k < b.len() && (#[trigger] b[k]).value == top(b);
            lemma_point_fits(b);
            assert(1 * TENTH == TENTH);
            assert(in_tenths(to_tenths(top(b)), b[k].value as int, 1));
        }
    }
}

/// A point fits its type.
proof fn lemma_point_fits(b: Seq<Sample>)
    requires
        all_wf(b),
        b.len() > 0,
    ensures
        -LIMIT <= to_tenths(top(b)) <= LIMIT,
        -LIMIT <= rounded(total(b), b.len() * TENTH) * TENTH <= LIMIT,
{
    lemma_bounds(b);
    lemma_tenths_monotone(-LIMIT as int, top(b));
    lemma_tenths_monotone(top(b), LIMIT as int);
    assert(to_tenths(LIMIT as int) == LIMIT);
    assert(to_tenths(-LIMIT as int) == -LIMIT);
    let n = b.len() as int;
    lemma_in_tenths(total(b), n);
    let v = rounded(total(b), n * TENTH) * TENTH;
    let l = 1_000_000_000_000_000_000int;
    assert(LIMIT == l);
    assert(v < l + 100_000 && v > -l - 100_000) by (nonlinear_arith)
        requires
            2 * (v * n - total(b)) <= n * 100_000,
            2 * (total(b) - v * n) <= n * 100_000,
            -l * n <= total(b) <= l * n,
            n >= 1,
    ;
    let q = v / 100_000;
    assert(v == q * 100_000);
    assert(q <= 10_000_000_000_000 && q >= -10_000_000_000_000);
}

/// A curve is drawn whenever at least two intervals remain from the one on in
/// which some temperature of either part was read: `n` is its interval in
/// seconds, and `x` such a reading.
pub proof fn lemma_curve_is_drawn(
    cpu: Option<PartSamples>,
    gpu: Option<PartSamples>,
    started: u64,
    stopped: u64,
    n: int,
    x: Sample,
)
    requires
        part_wf(cpu),
        part_wf(gpu),
        was_read(cpu, gpu, x),
        ten_before(started) <= x.at <= stopped,
        shortest(n, (stopped - ten_before(started)) / 1_000_000_000),
        ((x.at - ten_before(started)) / (n * 1_000_000_000) + 1) * n < (stopped - ten_before(
            started,
        )) / 1_000_000_000,
    ensures
        built(cpu, gpu, started, stopped) is Some,
{
    let from = curve_from(started);
    let secs = seconds(from, stopped);
    let bins = bins_for(secs);
    let step = n * 1_000_000_000;
    assert(SECOND == 1_000_000_000);
    let i = (x.at - from) / step;
    assert(i >= 0) by (nonlinear_arith)
        requires
            i == (x.at - from) / step,
            x.at >= from,
            step > 0,
    ;
    assert((i + 1) * n >= 1) by (nonlinear_arith)
        requires
            i >= 0,
            n >= 1,
    ;
    lemma_points_capped(secs);
    lemma_shortest(n, secs);
    assert(i + 2 <= bins) by (nonlinear_arith)
        requires
            (i + 1) * n < secs,
            bins * n >= secs,
            n >= 1,
    ;
    let ct = temp_points(cpu, from, stopped, secs);
    let gt = temp_points(gpu, from, stopped, secs);
    if cpu is Some && cpu->0.temp@.contains(x) {
        lemma_value_of_reading(cpu->0, from, stopped, secs, x);
    } else {
        lemma_value_of_reading(gpu->0, from, stopped, secs, x);
    }
    lemma_first_value_least(ct, gt, 0, bins, i);
}

proof fn lemma_shortest(n: int, secs: int)
    requires
        shortest(n, secs),
        secs >= 1,
    ensures
        n == interval_for(secs),
{
    if secs > 300 {
        assert((secs + 299) / 300 == n);
    }
}

proof fn lemma_value_of_reading(p: PartSamples, from: u64, until: u64, secs: int, x: Sample)
    requires
        p.wf(),
        p.temp@.contains(x),
        from <= x.at <= until,
        secs >= 1,
        (x.at - from) / (interval_for(secs) * SECOND) < bins_for(secs),
    ensures
        value_at(
            temp_points(Some(p), from, until, secs),
            (x.at - from) / (interval_for(secs) * SECOND),
        ),
{
    lemma_points_capped(secs);
    let step = interval_for(secs) * SECOND;
    assert(step > 0) by (nonlinear_arith)
        requires
            step == interval_for(secs) * SECOND,
            interval_for(secs) >= 1,
            SECOND == 1_000_000_000,
    ;
    let t = taken_by(p.temp@, until);
    lemma_taken_by(p.temp@, until);
    let m = choose|m: int| 0 <= m < p.temp@.len() && p.temp@[m] == x;
    assert(t.contains(p.temp@[m]));
    let k = choose|k: int| 0 <= k < t.len() && t[k] == x;
    lemma_peak_kept(t, from, step, k);
    let i = (x.at - from) / step;
    assert(i >= 0) by (nonlinear_arith)
        requires
            i == (x.at - from) / step,
            x.at >= from,
            step > 0,
    ;
}

/// The first point with a temperature is no later than any.
proof fn lemma_first_value_least(
    cpu: Option<Seq<Option<i64>>>,
    gpu: Option<Seq<Option<i64>>>,
    i: int,
    bins: int,
    k: int,
)
    requires
        0 <= i <= k < bins,
        value_at(cpu, k) || value_at(gpu, k),
    ensures
        first_value(cpu, gpu, i, bins) <= k,
    decreases bins - i,
{
    if i < k && !value_at(cpu, i) && !value_at(gpu, i) {
        lemma_first_value_least(cpu, gpu, i + 1, bins, k);
    }
}

/// What a curve shows.  Its points lie the shortest interval apart at which at
/// most 300 of them cover the run and the ten seconds before it.  It begins
/// where the first temperature of either part was read, so that no reading is
/// trimmed away, and ends with the run.  Each point shows the readings of its
/// interval up to the stop: temperatures by the highest of them, loads by their
/// mean.
pub proof fn lemma_curve(
    cpu: Option<PartSamples>,
    gpu: Option<PartSamples>,
    started: u64,
    stopped: u64,
)
    requires
        part_wf(cpu),
        part_wf(gpu),
        built(cpu, gpu, started, stopped) is Some,
    ensures
        ({
            let c = built(cpu, gpu, started, stopped)->0;
            let from = ten_before(started);
            let secs = (stopped - from) / 1_000_000_000;
            let step = c.interval * 1_000_000_000;
            let t0 = started + c.start * 1_000_000_000;
            &&& c.v == 1
            &&& shortest(c.interval, secs)
            &&& t0 >= from && (t0 - from) % step == 0
            &&& forall|x: Sample| #[trigger]
                was_read(cpu, gpu, x) && from <= x.at <= stopped ==> x.at >= t0
            &&& exists|x: Sample| #[trigger]
                was_read(cpu, gpu, x) && t0 <= x.at < t0 + step && x.at <= stopped
            &&& exists|len: int|
                #![trigger shows(c.cpu_temp, temps_of(cpu), t0, step, stopped, len, true)]
                {
                    &&& 2 <= len <= 300
                    &&& secs * 1_000_000_000 <= (t0 - from) + len * step < secs * 1_000_000_000
                        + step
                    &&& shows(c.cpu_temp, temps_of(cpu), t0, step, stopped, len, true)
                    &&& shows(c.gpu_temp, temps_of(gpu), t0, step, stopped, len, true)
                    &&& shows(c.cpu_usage, loads_of(cpu), t0, step, stopped, len, false)
                    &&& shows(c.gpu_usage, loads_of(gpu), t0, step, stopped, len, false)
                }
        }),
{
    let c = built(cpu, gpu, started, stopped)->0;
    let from = curve_from(started);
    let secs = seconds(from, stopped);
    let n = interval_for(secs);
    let bins = bins_for(secs);
    let step = n * 1_000_000_000;
    assert(SECOND == 1_000_000_000 && LEAD_IN == 10_000_000_000 && MAX_POINTS == 300);
    lemma_points_capped(secs);
    let ct = temp_points(cpu, from, stopped, secs);
    let gt = temp_points(gpu, from, stopped, secs);
    lemma_first_value(ct, gt, 0, bins);
    let first = first_value(ct, gt, 0, bins);
    let t0 = started + c.start * 1_000_000_000;
    let len = bins - first;
    assert(step >= 1_000_000_000);
    assert(t0 == from + first * step) by {
        assert((first * n) * 1_000_000_000 == first * (n * 1_000_000_000)) by (nonlinear_arith);
        let w = first * n;
        assert(c.start == w - (started - from) / 1_000_000_000);
    }
    assert(first * step >= 0) by (nonlinear_arith)
        requires
            first >= 0,
            step > 0,
    ;
    assert((first * step) % step == 0) by {
        vstd::arithmetic::div_mod::lemma_mod_multiples_basic(first, step);
    }
    if secs > 300 {
        assert(secs > 300 * ((secs + 299) / 300 - 1));
    }
    assert((bins - 1) * n < secs) by (nonlinear_arith)
        requires
            bins == (secs + n - 1) / n,
            n >= 1,
    ;
    assert(first * step + len * step == bins * step) by (nonlinear_arith)
        requires
            len == bins - first,
    ;
    assert(bins * step == (bins * n) * 1_000_000_000) by (nonlinear_arith)
        requires
            step == n * 1_000_000_000,
    ;
    assert((bins - 1) * n == bins * n - n) by (nonlinear_arith);
    if cpu is Some {
        lemma_shows(cpu->0.temp@, from, stopped, bins as nat, step, Fold::Max, first);
        lemma_shows(cpu->0.usage@, from, stopped, bins as nat, step, Fold::Mean, first);
    }
    if gpu is Some {
        lemma_shows(gpu->0.temp@, from, stopped, bins as nat, step, Fold::Max, first);
        lemma_shows(gpu->0.usage@, from, stopped, bins as nat, step, Fold::Mean, first);
    }
    assert(shows(c.cpu_temp, temps_of(cpu), t0, step, stopped, len, true));
    assert forall|x: Sample| #[trigger]
        was_read(cpu, gpu, x) && from <= x.at <= stopped implies x.at >= t0 by {
        let i = (x.at - from) / step;
        let a = x.at - from;
        assert(i >= 0 && i * step <= a < i * step + step) by (nonlinear_arith)
            requires
                i == a / step,
                a >= 0,
                step > 0,
        ;
        if i < first {
            if cpu is Some && cpu->0.temp@.contains(x) {
                lemma_value_of_reading(cpu->0, from, stopped, secs, x);
            } else {
                lemma_value_of_reading(gpu->0, from, stopped, secs, x);
            }
            lemma_first_value_least(ct, gt, 0, bins, i);
        }
        assert(i * step >= first * step) by (nonlinear_arith)
            requires
                i >= first,
                step > 0,
        ;
    }
    let p = if value_at(ct, first) {
        cpu->0
    } else {
        gpu->0
    };
    lemma_interval_samples(p.temp@, from, stopped, step, first);
    let w = within(from + first * step, from + first * step + step, stopped);
    let f = p.temp@.filter(w);
    assert(f.len() > 0);
    p.temp@.lemma_filter_pred(w, 0);
    let x = f[0];
    assert(p.temp@.contains(x)) by {
        let b = in_bin(taken_by(p.temp@, stopped), from, step, first);
        lemma_in_bin(taken_by(p.temp@, stopped), from, step, first);
        lemma_taken_by(p.temp@, stopped);
        assert(b[0] == x);
        let t = taken_by(p.temp@, stopped);
        let m = choose|m: int| 0 <= m < t.len() && t[m] == x;
        assert(p.temp@.contains(t[m]));
    }
    assert(was_read(cpu, gpu, x) && t0 <= x.at < t0 + step && x.at <= stopped);
    assert(shortest(c.interval, secs));
    assert((t0 - from) % step == 0);
    assert(2 <= len <= 300);
    assert(secs * 1_000_000_000 <= (t0 - from) + len * step);
    assert((t0 - from) + len * step < secs * 1_000_000_000 + step);
    assert(shows(c.gpu_temp, temps_of(gpu), t0, step, stopped, len, true));
    assert(shows(c.cpu_usage, loads_of(cpu), t0, step, stopped, len, false));
    assert(shows(c.gpu_usage, loads_of(gpu), t0, step, stopped, len, false));
}

impl Series {
    /// Resample the readings between `LEAD_IN` before `started` and
    /// `stopped`, over the whole seconds between these. None if the run was too
    /// short to draw.
    pub fn build<'a>(
        cpu: Option<PartSamples<'a>>,
        gpu: Option<PartSamples<'a>>,
        started: u64,
        stopped: u64,
    ) -> (r: Option<Series>)
        requires
            part_wf(cpu),
            part_wf(gpu),
        ensures
            series_of(r) == built(cpu, gpu, started, stopped),
    {
        let from: u64 = if started >= LEAD_IN {
            started - LEAD_IN
        } else {
            started
        };
        let secs: u64 = if stopped >= from {
            (stopped - from) / SECOND
        } else {
            0
        };
        if secs < 2 || (cpu.is_none() && gpu.is_none()) {
            return None;
        }
        proof {
            lemma_points_capped(secs as int);
        }
        let interval: u64 = if secs <= MAX_POINTS {
            1
        } else {
            (secs + MAX_POINTS - 1) / MAX_POINTS
        };
        assert(interval == interval_for(secs as int));
        assert(interval <= secs);
        let bins: usize = ((secs + interval - 1) / interval) as usize;
        assert(bins == bins_for(secs as int)) by {
            lemma_points_capped(secs as int);
        }
        let step: u64 = interval * SECOND;
        let cpu_temp = points_of(temp_samples(&cpu), from, stopped, bins, step, Fold::Max);
        let gpu_temp = points_of(temp_samples(&gpu), from, stopped, bins, step, Fold::Max);
        let cpu_usage = points_of(usage_samples(&cpu), from, stopped, bins, step, Fold::Mean);
        let gpu_usage = points_of(usage_samples(&gpu), from, stopped, bins, step, Fold::Mean);
        let ghost ct = temp_points(cpu, from, stopped, secs as int);
        let ghost gt = temp_points(gpu, from, stopped, secs as int);
        assert(points(cpu_temp) == ct && points(gpu_temp) == gt);
        let mut first: usize = 0;
        while first < bins && !has_value(&cpu_temp, first) && !has_value(&gpu_temp, first)
            invariant
                first <= bins,
                points(cpu_temp) == ct,
                points(gpu_temp) == gt,
                first_value(ct, gt, 0, bins as int) == first_value(
                    ct,
                    gt,
                    first as int,
                    bins as int,
                ),
            decreases bins - first,
        {
            first = first + 1;
        }
        if bins - first < 2 {
            return None;
        }
        assert(0 <= first * interval <= 300 * interval) by (nonlinear_arith)
            requires
                0 <= first <= 300,
                0 <= interval,
        ;
        let lead: i64 = ((started - from) / SECOND) as i64;
        let start: i64 = (first as u64 * interval) as i64 - lead;
        let r = Series {
            v: 1,
            interval,
            start,
            cpu_temp: cut_of(cpu_temp, first),
            gpu_temp: cut_of(gpu_temp, first),
            cpu_usage: cut_of(cpu_usage, first),
            gpu_usage: cut_of(gpu_usage, first),
        };
        assert(Some(r@) == built(cpu, gpu, started, stopped));
        Some(r)
    }

    /// The same curve with only the channels of the parts being submitted.
    pub fn only(&self, cpu: bool, gpu: bool) -> (r: Series)
        ensures
            r@ == self@.restricted(cpu, gpu),
    {
        Series {
            v: self.v,
            interval: self.interval,
            start: self.start,
            cpu_temp: kept(&self.cpu_temp, cpu),
            gpu_temp: kept(&self.gpu_temp, gpu),
            cpu_usage: kept(&self.cpu_usage, cpu),
            gpu_usage: kept(&self.gpu_usage, gpu),
        }
    }
}

impl SeriesView {
    /// The curve with the channels of some parts.
    pub open spec fn restricted(self, cpu: bool, gpu: bool) -> SeriesView {
        SeriesView {
            cpu_temp: if cpu {
                self.cpu_temp
            } else {
                None
            },
            cpu_usage: if cpu {
                self.cpu_usage
            } else {
                None
            },
            gpu_temp: if gpu {
                self.gpu_temp
            } else {
                None
            },
            gpu_usage: if gpu {
                self.gpu_usage
            } else {
                None
            },
            ..self
        }
    }
}

fn kept(c: &Option<Vec<Option<i64>>>, keep: bool) -> (r: Option<Vec<Option<i64>>>)
    ensures
        points(r) == if keep {
            points(*c)
        } else {
            None
        },
{
    match c {
        Some(v) => if keep {
            Some(vstd::slice::slice_to_vec(v.as_slice()))
        } else {
            None
        },
        None => None,
    }
}

/// Leaving channels out twice is leaving them out once.
pub proof fn lemma_only_twice(s: SeriesView, a: bool, b: bool, c: bool, d: bool)
    ensures
        s.restricted(a, b).restricted(c, d) == s.restricted(a && c, b && d),
        s.restricted(true, true) == s,
{
}

} // verus!
