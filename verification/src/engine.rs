//! One stress-test run on a fixed schedule: idle baseline → stress → a short
//! cool-down window for lagging sensors.
//!
//! The finish time is fixed when the stress starts and never moves: sensor
//! reads happen elsewhere and are only *collected* here, by timestamp. So the
//! progress bar can always be drawn from the clock alone.
use std::collections::VecDeque;

use vstd::prelude::*;

use crate::decimal::LIMIT;
use crate::fixed::{int_of, UNIT};
use crate::gpus::{gpu_of, GpuDevice, GpuView};
use crate::nearest::{lemma_minus, minus, subtract};
use crate::sensors::{all_wf, Channel, ChannelView, Probe, Readings, Sample, MILLI};
use crate::series::{
    built, lemma_top, series_of, ten_before, top, PartSamples, Series, SeriesView,
};
use crate::stress::{GpuStress, GpuStressView, StressStatus, StressView};
use crate::text::same;

verus! {

/// Temperatures rise within a second or two of load, but some sensors
/// report a little late: keep collecting briefly after the stop.
pub const SENSOR_LAG: u64 = 1_500_000_000;

/// Idle temperature = median of the readings in this window before the start.
pub const IDLE_WINDOW: u64 = 10_000_000_000;

/// Checks for a sensor that doesn't react to load wait this long.
pub const FLAT_CHECK_AFTER: u64 = 30_000_000_000;

/// How long to wait for a sensor that is still warming up.
pub const BASELINE_WAIT: u64 = 4_000_000_000;

/// Idle temperatures above these suggest background load or a system that
/// hasn't cooled down yet: the test should start from idle.
pub const IDLE_WARM: i64 = 56_000_000;

pub const IDLE_HOT: i64 = 65_000_000;

/// How warm a part is before the test.
#[derive(Debug, Clone, Copy, PartialEq, Eq, Structural)]
pub enum IdleLevel {
    Warm,
    Hot,
}

/// How warm an idle temperature is.
pub open spec fn level(celsius: int) -> Option<IdleLevel> {
    if celsius > IDLE_HOT {
        Some(IdleLevel::Hot)
    } else if celsius > IDLE_WARM {
        Some(IdleLevel::Warm)
    } else {
        None
    }
}

/// Tells how warm an idle temperature is.
pub fn idle_level(celsius: i64) -> (r: Option<IdleLevel>)
    ensures
        r == level(celsius as int),
{
    if celsius > IDLE_HOT {
        Some(IdleLevel::Hot)
    } else if celsius > IDLE_WARM {
        Some(IdleLevel::Warm)
    } else {
        None
    }
}

/// Which parts are tested.
#[derive(Debug, Clone, Copy, PartialEq, Eq, Structural)]
pub enum TestKind {
    Both,
    Cpu,
    Gpu,
}

impl TestKind {
    /// The CPU is tested.
    pub open spec fn has_cpu(self) -> bool {
        self == TestKind::Both || self == TestKind::Cpu
    }

    /// The GPU is tested.
    pub open spec fn has_gpu(self) -> bool {
        self == TestKind::Both || self == TestKind::Gpu
    }

    /// The value used by the API and the command line.
    pub open spec fn code(self) -> Seq<char> {
        match self {
            TestKind::Both => "both"@,
            TestKind::Cpu => "cpu"@,
            TestKind::Gpu => "gpu"@,
        }
    }

    /// The kind of this value.
    pub open spec fn named(s: Seq<char>) -> Option<TestKind> {
        if s == "both"@ {
            Some(TestKind::Both)
        } else if s == "cpu"@ {
            Some(TestKind::Cpu)
        } else if s == "gpu"@ {
            Some(TestKind::Gpu)
        } else {
            None
        }
    }

    /// Whether the CPU is tested.
    pub fn cpu(self) -> (r: bool)
        ensures
            r == self.has_cpu(),
    {
        matches!(self, TestKind::Both | TestKind::Cpu)
    }

    /// Whether the GPU is tested.
    pub fn gpu(self) -> (r: bool)
        ensures
            r == self.has_gpu(),
    {
        matches!(self, TestKind::Both | TestKind::Gpu)
    }

    /// Value used by the API and the command line.
    pub fn as_str(self) -> (r: &'static str)
        ensures
            r@ == self.code(),
    {
        match self {
            TestKind::Both => "both",
            TestKind::Cpu => "cpu",
            TestKind::Gpu => "gpu",
        }
    }

    /// The kind of this value.
    pub fn parse(s: &str) -> (r: Option<TestKind>)
        ensures
            r == TestKind::named(s@),
    {
        if same(s, "both") {
            Some(TestKind::Both)
        } else if same(s, "cpu") {
            Some(TestKind::Cpu)
        } else if same(s, "gpu") {
            Some(TestKind::Gpu)
        } else {
            None
        }
    }
}

/// A kind's value names that kind and no other, and every value that names a
/// kind is that kind's.
pub proof fn lemma_codes(a: TestKind, s: Seq<char>)
    ensures
        TestKind::named(a.code()) == Some(a),
        TestKind::named(s) is Some ==> TestKind::named(s)->0.code() == s,
{
    reveal_strlit("both");
    reveal_strlit("cpu");
    reveal_strlit("gpu");
    assert("both"@.len() == 4);
    assert("cpu"@.len() == 3);
    assert("gpu"@.len() == 3);
    assert("cpu"@[0] == 'c');
    assert("gpu"@[0] == 'g');
}

/// What is to be tested, and for how long.
#[derive(Debug, Clone)]
pub struct TestPlan {
    pub kind: TestKind,
    /// In nanoseconds.
    pub duration: u64,
    pub gpu: Option<GpuDevice>,
}

/// A plan's contents.
pub ghost struct PlanView {
    pub kind: TestKind,
    pub duration: u64,
    pub gpu: Option<GpuView>,
}

impl View for TestPlan {
    type V = PlanView;

    open spec fn view(&self) -> PlanView {
        PlanView { kind: self.kind, duration: self.duration, gpu: gpu_of(self.gpu) }
    }
}

/// Where a run stands.
#[derive(Debug, Clone, Copy, PartialEq, Eq, Structural)]
pub enum Phase {
    /// Measuring the idle baseline and starting the workers.
    Starting,
    Running,
    /// Workers stopping; still collecting late sensor readings.
    Stopping,
    Finished,
}

// ---------------------------------------------------------------------------
// Warnings

/// What the user should know about a run.
#[derive(Debug, Clone, PartialEq)]
pub enum Warning {
    /// Temperature barely moved under full load: likely a motherboard sensor.
    CpuTempFlat,
    GpuTempFlat,
    CpuSensorMissing,
    GpuSensorMissing,
    GpuStressFailed(String),
    /// GPU stress is running but the GPU reports low utilisation.
    GpuLoadLow(i64),
    /// The CPU got hot enough that it is probably throttling.
    CpuVeryHot(i64),
    GpuVeryHot(i64),
    /// Already warm/hot before the stress started (idle temperature).
    CpuIdleWarm(i64),
    CpuIdleHot(i64),
    GpuIdleWarm(i64),
    GpuIdleHot(i64),
}

/// A warning's contents.
pub ghost enum WarningView {
    CpuTempFlat,
    GpuTempFlat,
    CpuSensorMissing,
    GpuSensorMissing,
    GpuStressFailed(Seq<char>),
    GpuLoadLow(i64),
    CpuVeryHot(i64),
    GpuVeryHot(i64),
    CpuIdleWarm(i64),
    CpuIdleHot(i64),
    GpuIdleWarm(i64),
    GpuIdleHot(i64),
}

impl View for Warning {
    type V = WarningView;

    open spec fn view(&self) -> WarningView {
        match *self {
            Warning::CpuTempFlat => WarningView::CpuTempFlat,
            Warning::GpuTempFlat => WarningView::GpuTempFlat,
            Warning::CpuSensorMissing => WarningView::CpuSensorMissing,
            Warning::GpuSensorMissing => WarningView::GpuSensorMissing,
            Warning::GpuStressFailed(s) => WarningView::GpuStressFailed(s@),
            Warning::GpuLoadLow(v) => WarningView::GpuLoadLow(v),
            Warning::CpuVeryHot(v) => WarningView::CpuVeryHot(v),
            Warning::GpuVeryHot(v) => WarningView::GpuVeryHot(v),
            Warning::CpuIdleWarm(v) => WarningView::CpuIdleWarm(v),
            Warning::CpuIdleHot(v) => WarningView::CpuIdleHot(v),
            Warning::GpuIdleWarm(v) => WarningView::GpuIdleWarm(v),
            Warning::GpuIdleHot(v) => WarningView::GpuIdleHot(v),
        }
    }
}

/// The contents of a list of warnings.
pub open spec fn warning_views(v: Seq<Warning>) -> Seq<WarningView> {
    v.map_values(|w: Warning| w@)
}

impl WarningView {
    /// Which of the warnings it is, whatever figure it holds.
    pub open spec fn kind(self) -> int {
        match self {
            WarningView::CpuTempFlat => 0,
            WarningView::GpuTempFlat => 1,
            WarningView::CpuSensorMissing => 2,
            WarningView::GpuSensorMissing => 3,
            WarningView::GpuStressFailed(_) => 4,
            WarningView::GpuLoadLow(_) => 5,
            WarningView::CpuVeryHot(_) => 6,
            WarningView::GpuVeryHot(_) => 7,
            WarningView::CpuIdleWarm(_) => 8,
            WarningView::CpuIdleHot(_) => 9,
            WarningView::GpuIdleWarm(_) => 10,
            WarningView::GpuIdleHot(_) => 11,
        }
    }
}

impl Warning {
    /// Which of the warnings it is, whatever figure it holds.
    pub fn kind(&self) -> (r: u8)
        ensures
            r == self@.kind(),
    {
        match self {
            Warning::CpuTempFlat => 0,
            Warning::GpuTempFlat => 1,
            Warning::CpuSensorMissing => 2,
            Warning::GpuSensorMissing => 3,
            Warning::GpuStressFailed(_) => 4,
            Warning::GpuLoadLow(_) => 5,
            Warning::CpuVeryHot(_) => 6,
            Warning::GpuVeryHot(_) => 7,
            Warning::CpuIdleWarm(_) => 8,
            Warning::CpuIdleHot(_) => 9,
            Warning::GpuIdleWarm(_) => 10,
            Warning::GpuIdleHot(_) => 11,
        }
    }
}

/// The first warning of the kind from `i` on, or their number.
pub open spec fn kind_pick(ws: Seq<WarningView>, kind: int, i: int) -> int
    decreases ws.len() - i,
{
    if i < 0 || i >= ws.len() || ws[i].kind() == kind {
        i
    } else {
        kind_pick(ws, kind, i + 1)
    }
}

/// The warnings with one more, which takes the place of one of its kind: the
/// latest figure is kept.
pub open spec fn once(ws: Seq<WarningView>, w: WarningView) -> Seq<WarningView> {
    let i = kind_pick(ws, w.kind(), 0);
    if i < ws.len() {
        ws.update(i, w)
    } else {
        ws.push(w)
    }
}

/// No two warnings are of a kind.
pub open spec fn distinct(ws: Seq<WarningView>) -> bool {
    forall|i: int, j: int|
        0 <= i < ws.len() && 0 <= j < ws.len() && #[trigger] ws[i].kind() == #[trigger] ws[j].kind()
            ==> i == j
}

proof fn lemma_kind_pick(ws: Seq<WarningView>, kind: int, i: int)
    requires
        0 <= i <= ws.len(),
    ensures
        i <= kind_pick(ws, kind, i) <= ws.len(),
        kind_pick(ws, kind, i) < ws.len() ==> ws[kind_pick(ws, kind, i)].kind() == kind,
        forall|j: int| i <= j < kind_pick(ws, kind, i) ==> (#[trigger] ws[j]).kind() != kind,
    decreases ws.len() - i,
{
    if i < ws.len() && ws[i].kind() != kind {
        lemma_kind_pick(ws, kind, i + 1);
    }
}

/// A warning is never doubled: if no two were of a kind, none are afterwards,
/// the new one is among them with its figure, and the others stay.
pub proof fn lemma_once(ws: Seq<WarningView>, w: WarningView)
    requires
        distinct(ws),
    ensures
        distinct(once(ws, w)),
        once(ws, w).contains(w),
        forall|i: int|
            0 <= i < ws.len() && (#[trigger] ws[i]).kind() != w.kind() ==> once(ws, w).contains(
                ws[i],
            ),
        forall|i: int|
            0 <= i < once(ws, w).len() ==> #[trigger] once(ws, w)[i] == w || ws.contains(
                once(ws, w)[i],
            ),
{
    lemma_kind_pick(ws, w.kind(), 0);
    let k = kind_pick(ws, w.kind(), 0);
    let r = once(ws, w);
    assert(r[k] == w);
    assert forall|i: int| 0 <= i < ws.len() && (#[trigger] ws[i]).kind() != w.kind() implies
        r.contains(ws[i]) by {
        assert(r[i] == ws[i]);
    }
    assert forall|i: int| 0 <= i < r.len() implies #[trigger] r[i] == w || ws.contains(r[i]) by {
        if i != k {
            assert(ws[i] == r[i]);
        }
    }
}

/// Adds a warning, or puts it in the place of the one of its kind.
pub fn push_once(warnings: &mut Vec<Warning>, w: Warning)
    ensures
        warning_views(final(warnings)@) == once(warning_views(old(warnings)@), w@),
{
    let ghost start = warning_views(warnings@);
    let kind: u8 = w.kind();
    let ghost wv = w@;
    let mut i: usize = 0;
    while i < warnings.len() && warnings[i].kind() != kind
        invariant
            i <= warnings.len(),
            start == warning_views(warnings@),
            kind == wv.kind(),
            kind_pick(start, kind as int, 0) == kind_pick(start, kind as int, i as int),
        decreases warnings.len() - i,
    {
        i = i + 1;
    }
    if i < warnings.len() {
        warnings.set(i, w);
        assert(warning_views(warnings@) =~= start.update(i as int, wv));
    } else {
        warnings.push(w);
        assert(warning_views(warnings@) =~= start.push(wv));
    }
}

// ---------------------------------------------------------------------------
// Parts

/// Temperatures and load for one component (CPU or GPU).
#[derive(Debug, Clone, Copy, PartialEq, Eq, Structural)]
pub struct Part {
    pub idle: Option<i64>,
    pub current: Option<i64>,
    pub peak: Option<i64>,
    /// Lowest reading while under load (for the flat-sensor check).
    pub low: Option<i64>,
    pub usage_now: Option<i64>,
    pub usage_max: Option<i64>,
}

/// A value that a sensor may report, if there is one.
pub open spec fn value_wf(v: Option<i64>) -> bool {
    match v {
        Some(x) => -LIMIT <= x <= LIMIT,
        None => true,
    }
}

impl Default for Part {
    fn default() -> (r: Part)
        ensures
            r == Part::blank(),
    {
        Part {
            idle: None,
            current: None,
            peak: None,
            low: None,
            usage_now: None,
            usage_max: None,
        }
    }
}

impl Part {
    /// A part of which nothing is known.
    pub open spec fn blank() -> Part {
        Part {
            idle: None,
            current: None,
            peak: None,
            low: None,
            usage_now: None,
            usage_max: None,
        }
    }

    /// The values are such as sensors report.
    pub open spec fn wf(self) -> bool {
        value_wf(self.idle) && value_wf(self.current) && value_wf(self.peak) && value_wf(self.low)
            && value_wf(self.usage_now) && value_wf(self.usage_max)
    }

    /// How far the temperature rose.
    pub open spec fn rise_of(self) -> Option<int> {
        match (self.peak, self.idle) {
            (Some(p), Some(i)) => Some(minus(p as int, i as int)),
            _ => None,
        }
    }

    /// How far the temperature moved under load.
    pub open spec fn spread_of(self) -> Option<int> {
        match (self.peak, self.low) {
            (Some(p), Some(l)) => Some(minus(p as int, l as int)),
            _ => None,
        }
    }

    /// Idle and peak can be submitted.
    pub open spec fn valid(self) -> bool {
        match (self.idle, self.peak) {
            (Some(i), Some(p)) => p > i && i > 0 && p <= 125 * UNIT,
            _ => false,
        }
    }

    /// How far the temperature rose.
    pub fn rise(&self) -> (r: Option<i64>)
        requires
            self.wf(),
        ensures
            int_of(r) == self.rise_of(),
    {
        match (self.peak, self.idle) {
            (Some(p), Some(i)) => Some(subtract(p, i)),
            _ => None,
        }
    }

    fn spread(&self) -> (r: Option<i64>)
        requires
            self.wf(),
        ensures
            int_of(r) == self.spread_of(),
    {
        match (self.peak, self.low) {
            (Some(p), Some(l)) => Some(subtract(p, l)),
            _ => None,
        }
    }

    /// Idle and peak both present and different: what the API requires.
    pub fn is_valid(&self) -> (r: bool)
        ensures
            r == self.valid(),
    {
        match (self.idle, self.peak) {
            (Some(idle), Some(peak)) => peak > idle && idle > 0 && peak <= 125 * UNIT,
            _ => false,
        }
    }
}

/// The values in ascending order.
pub open spec fn ascending(s: Seq<i64>) -> Seq<i64>
    decreases s.len(),
{
    if s.len() == 0 {
        s
    } else {
        let front = ascending(s.drop_last());
        front.insert(rank(front, s.last(), 0), s.last())
    }
}

/// The place of `v` among values in ascending order, looked for from `i` on:
/// behind all that are not larger.
pub open spec fn rank(s: Seq<i64>, v: i64, i: int) -> int
    decreases s.len() - i,
{
    if i < 0 || i >= s.len() || s[i] > v {
        i
    } else {
        rank(s, v, i + 1)
    }
}

/// The middle of the values in ascending order, the upper one of two.
pub open spec fn middle(s: Seq<i64>) -> Option<i64> {
    if s.len() == 0 {
        None
    } else {
        Some(ascending(s)[s.len() as int / 2])
    }
}

proof fn lemma_rank(s: Seq<i64>, v: i64, i: int)
    requires
        0 <= i <= s.len(),
        forall|j: int| 0 <= j < i ==> #[trigger] s[j] <= v,
    ensures
        i <= rank(s, v, i) <= s.len(),
        forall|j: int| 0 <= j < rank(s, v, i) ==> #[trigger] s[j] <= v,
        rank(s, v, i) < s.len() ==> s[rank(s, v, i)] > v,
    decreases s.len() - i,
{
    if i < s.len() && s[i] <= v {
        lemma_rank(s, v, i + 1);
    }
}

/// `ascending` keeps every value and brings them in order.
pub proof fn lemma_ascending(s: Seq<i64>)
    ensures
        ascending(s).len() == s.len(),
        ascending(s).to_multiset() == s.to_multiset(),
        forall|i: int, j: int|
            0 <= i <= j < s.len() ==> #[trigger] ascending(s)[i] <= #[trigger] ascending(s)[j],
    decreases s.len(),
{
    if s.len() > 0 {
        let init = s.drop_last();
        let v = s.last();
        lemma_ascending(init);
        let front = ascending(init);
        lemma_rank(front, v, 0);
        let p = rank(front, v, 0);
        let r = front.insert(p, v);
        assert forall|i: int, j: int| 0 <= i <= j < r.len() implies #[trigger] r[i]
            <= #[trigger] r[j] by {
            let fi = if i < p {
                i
            } else {
                i - 1
            };
            let fj = if j < p {
                j
            } else {
                j - 1
            };
            if i != p && j != p {
                assert(front[fi] <= front[fj]);
            } else if i == p && j != p {
                assert(front[p] <= front[fj]);
            }
        }
        broadcast use vstd::seq_lib::group_to_multiset_ensures;

        assert(front.insert(p, v).to_multiset() == front.to_multiset().insert(v));
        assert(s =~= init.push(v));
        assert(s.to_multiset() == init.to_multiset().insert(v));
    }
}

/// The median of values.
pub fn median(values: Vec<i64>) -> (r: Option<i64>)
    ensures
        r == middle(values@),
{
    let mut sorted: Vec<i64> = Vec::new();
    let mut k: usize = 0;
    assert(sorted@ =~= ascending(values@.take(0)));
    while k < values.len()
        invariant
            k <= values.len(),
            sorted@ == ascending(values@.take(k as int)),
        decreases values.len() - k,
    {
        let v: i64 = values[k];
        let mut i: usize = 0;
        while i < sorted.len() && sorted[i] <= v
            invariant
                i <= sorted.len(),
                rank(sorted@, v, 0) == rank(sorted@, v, i as int),
            decreases sorted.len() - i,
        {
            i = i + 1;
        }
        sorted.insert(i, v);
        k = k + 1;
        assert(values@.take(k as int).drop_last() =~= values@.take(k - 1));
    }
    assert(values@.take(values@.len() as int) =~= values@);
    proof {
        lemma_ascending(values@);
    }
    if sorted.len() == 0 {
        None
    } else {
        Some(sorted[sorted.len() / 2])
    }
}

// ---------------------------------------------------------------------------
// Collecting

/// The samples of a window of time, both ends included.
pub open spec fn window(s: Seq<Sample>, from: u64, until: u64) -> Seq<Sample>
    decreases s.len(),
{
    if s.len() == 0 {
        s
    } else if from <= s.last().at <= until {
        window(s.drop_last(), from, until).push(s.last())
    } else {
        window(s.drop_last(), from, until)
    }
}

/// The values of samples.
pub open spec fn values(s: Seq<Sample>) -> Seq<i64> {
    s.map_values(|x: Sample| x.value)
}

/// The value of the last sample under `i` that was taken by `before`.
pub open spec fn last_before(s: Seq<Sample>, before: u64, i: int) -> Option<i64>
    decreases i,
{
    if i <= 0 || i > s.len() {
        None
    } else if s[i - 1].at <= before {
        Some(s[i - 1].value)
    } else {
        last_before(s, before, i - 1)
    }
}

/// Where the idle window begins.
pub open spec fn idle_from(before: u64) -> u64 {
    if before >= IDLE_WINDOW {
        (before - IDLE_WINDOW) as u64
    } else {
        before
    }
}

/// The idle temperature: the median of the window before the start; where
/// nothing is recent, the last reading before it.
pub open spec fn idle(s: Seq<Sample>, before: u64) -> Option<i64> {
    match middle(values(window(s, idle_from(before), before))) {
        Some(v) => Some(v),
        None => last_before(s, before, s.len() as int),
    }
}

/// The lowest value of samples, of which there is at least one.
pub open spec fn bottom(s: Seq<Sample>) -> int
    decreases s.len(),
{
    if s.len() <= 1 {
        s[0].value as int
    } else {
        let b = bottom(s.drop_last());
        if s.last().value < b {
            s.last().value as int
        } else {
            b
        }
    }
}

/// The value of the last sample.
pub open spec fn last_value(s: Seq<Sample>) -> Option<i64> {
    if s.len() > 0 {
        Some(s.last().value)
    } else {
        None
    }
}

/// The highest value of samples, or another where there are none.
pub open spec fn top_or(s: Seq<Sample>, other: Option<i64>) -> Option<i64> {
    if s.len() > 0 {
        Some(top(s) as i64)
    } else {
        other
    }
}

/// The lowest value of samples, or another where there are none.
pub open spec fn bottom_or(s: Seq<Sample>, other: Option<i64>) -> Option<i64> {
    if s.len() > 0 {
        Some(bottom(s) as i64)
    } else {
        other
    }
}

impl Part {
    /// The part with the figures of the samples taken in [from, until].
    pub open spec fn collected(
        self,
        temp: Seq<Sample>,
        usage: Seq<Sample>,
        from: u64,
        until: u64,
    ) -> Part {
        Part {
            idle: self.idle,
            current: last_value(temp),
            peak: top_or(window(temp, from, until), self.peak),
            low: bottom_or(window(temp, from, until), self.low),
            usage_now: last_value(usage),
            usage_max: top_or(window(usage, from, until), self.usage_max),
        }
    }
}

proof fn lemma_window_wf(s: Seq<Sample>, from: u64, until: u64)
    requires
        all_wf(s),
    ensures
        all_wf(window(s, from, until)),
    decreases s.len(),
{
    if s.len() > 0 {
        let front = s.drop_last();
        assert forall|i: int| 0 <= i < front.len() implies (#[trigger] front[i]).wf() by {
            assert(front[i] == s[i]);
        }
        lemma_window_wf(front, from, until);
        assert(s[s.len() - 1].wf());
    }
}

proof fn lemma_bottom(s: Seq<Sample>)
    requires
        s.len() > 0,
    ensures
        exists|k: int| 0 <= k < s.len() && (#[trigger] s[k]).value == bottom(s),
        forall|k: int| 0 <= k < s.len() ==> (#[trigger] s[k]).value >= bottom(s),
    decreases s.len(),
{
    if s.len() == 1 {
        assert(s[0].value == bottom(s));
    } else {
        let front = s.drop_last();
        lemma_bottom(front);
        assert(forall|k: int| 0 <= k < front.len() ==> front[k] == s[k]);
        let k = choose|k: int| 0 <= k < front.len() && (#[trigger] front[k]).value == bottom(front);
        if s.last().value < bottom(front) {
            assert(s[s.len() - 1].value == bottom(s));
        } else {
            assert(s[k].value == bottom(s));
        }
    }
}

/// Every reading of the window lies between the part's low and its peak, and
/// both are readings of the window.
pub proof fn lemma_collected(p: Part, temp: Seq<Sample>, usage: Seq<Sample>, from: u64, until: u64)
    requires
        window(temp, from, until).len() > 0,
    ensures
        ({
            let w = window(temp, from, until);
            let c = p.collected(temp, usage, from, until);
            &&& c.peak is Some && c.low is Some
            &&& forall|k: int|
                0 <= k < w.len() ==> c.low->0 <= (#[trigger] w[k]).value <= c.peak->0
            &&& exists|k: int| 0 <= k < w.len() && (#[trigger] w[k]).value == c.peak->0
            &&& exists|k: int| 0 <= k < w.len() && (#[trigger] w[k]).value == c.low->0
        }),
{
    let w = window(temp, from, until);
    lemma_top(w);
    lemma_bottom(w);
}

// ---------------------------------------------------------------------------
// What the figures are

/// `r` stands in the middle of some values: at least one of them is `r`, at
/// most half of them are less, and less than half, or half of an odd number,
/// are greater.
pub open spec fn in_the_middle(s: Seq<i64>, r: i64) -> bool {
    let n = s.len() as int;
    &&& s.contains(r)
    &&& s.filter(|x: i64| x < r).len() <= n / 2
    &&& s.filter(|x: i64| x > r).len() < (n + 1) / 2
}

proof fn lemma_filter_insert(s: Seq<i64>, p: int, v: i64, f: spec_fn(i64) -> bool)
    requires
        0 <= p <= s.len(),
    ensures
        s.insert(p, v).filter(f).len() == s.push(v).filter(f).len(),
{
    let a = s.take(p);
    let b = s.skip(p);
    assert(s.insert(p, v) =~= (a + seq![v]) + b);
    assert(s.push(v) =~= (a + b) + seq![v]);
    Seq::filter_distributes_over_add(a + seq![v], b, f);
    Seq::filter_distributes_over_add(a, seq![v], f);
    Seq::filter_distributes_over_add(a + b, seq![v], f);
    Seq::filter_distributes_over_add(a, b, f);
}

proof fn lemma_ascending_filter(s: Seq<i64>, f: spec_fn(i64) -> bool)
    ensures
        ascending(s).filter(f).len() == s.filter(f).len(),
    decreases s.len(),
{
    if s.len() > 0 {
        let init = s.drop_last();
        let v = s.last();
        let front = ascending(init);
        lemma_ascending_filter(init, f);
        lemma_rank(front, v, 0);
        lemma_filter_insert(front, rank(front, v, 0), v, f);
        assert(s =~= init + seq![v]);
        assert(front.push(v) =~= front + seq![v]);
        Seq::filter_distributes_over_add(init, seq![v], f);
        Seq::filter_distributes_over_add(front, seq![v], f);
    }
}

proof fn lemma_filter_none(s: Seq<i64>, f: spec_fn(i64) -> bool)
    requires
        forall|i: int| 0 <= i < s.len() ==> !f(#[trigger] s[i]),
    ensures
        s.filter(f).len() == 0,
{
    if s.filter(f).len() > 0 {
        s.lemma_filter_pred(f, 0);
        let x = s.filter(f)[0];
        assert(s.filter(f).contains(x));
        s.lemma_filter_contains_rev(f, x);
        let i = choose|i: int| 0 <= i < s.len() && s[i] == x;
        assert(!f(s[i]));
    }
}

/// The median is one of the values, and stands in the middle of them.
pub proof fn lemma_median(s: Seq<i64>)
    ensures
        middle(s) is None <==> s.len() == 0,
        s.len() > 0 ==> in_the_middle(s, middle(s)->0),
{
    if s.len() > 0 {
        let a = ascending(s);
        let n = s.len() as int;
        let m = n / 2;
        lemma_ascending(s);
        let r = a[m];
        let less = |x: i64| x < r;
        let more = |x: i64| x > r;
        lemma_ascending_filter(s, less);
        lemma_ascending_filter(s, more);
        let low = a.take(m);
        let high = a.skip(m);
        assert(a =~= low + high);
        Seq::filter_distributes_over_add(low, high, less);
        assert forall|i: int| 0 <= i < high.len() implies !less(#[trigger] high[i]) by {
            assert(a[m] <= a[m + i]);
        }
        lemma_filter_none(high, less);
        low.lemma_filter_len(less);
        let below = a.take(m + 1);
        let above = a.skip(m + 1);
        assert(a =~= below + above);
        Seq::filter_distributes_over_add(below, above, more);
        assert forall|i: int| 0 <= i < below.len() implies !more(#[trigger] below[i]) by {
            assert(a[i] <= a[m]);
        }
        lemma_filter_none(below, more);
        above.lemma_filter_len(more);
        broadcast use vstd::seq_lib::group_to_multiset_ensures;

        assert(a.to_multiset().count(r) > 0) by {
            assert(a.contains(a[m]));
        }
        assert(s.contains(r));
    }
}

/// The samples of the ten seconds before a time, up to it.
pub open spec fn just_before(before: u64) -> spec_fn(Sample) -> bool {
    |x: Sample| ten_before(before) <= x.at <= before
}

proof fn lemma_window(s: Seq<Sample>, from: u64, until: u64, f: spec_fn(Sample) -> bool)
    requires
        forall|x: Sample| #[trigger] f(x) <==> from <= x.at <= until,
    ensures
        window(s, from, until) == s.filter(f),
    decreases s.len(),
{
    reveal(Seq::filter);
    if s.len() > 0 {
        assert(f(s.last()) <==> from <= s.last().at <= until);
        lemma_window(s.drop_last(), from, until, f);
    }
}

proof fn lemma_last_before(s: Seq<Sample>, before: u64, i: int)
    requires
        0 <= i <= s.len(),
    ensures
        match last_before(s, before, i) {
            Some(v) => exists|k: int|
                0 <= k < i && (#[trigger] s[k]).at <= before && s[k].value == v && forall|j: int|
                    k < j < i ==> (#[trigger] s[j]).at > before,
            None => forall|k: int| 0 <= k < i ==> (#[trigger] s[k]).at > before,
        },
    decreases i,
{
    if i > 0 && s[i - 1].at > before {
        lemma_last_before(s, before, i - 1);
        if last_before(s, before, i - 1) is Some {
            let v = last_before(s, before, i - 1)->0;
            let k = choose|k: int|
                0 <= k < i - 1 && (#[trigger] s[k]).at <= before && s[k].value == v && forall|
                    j: int,
                |
                    k < j < i - 1 ==> (#[trigger] s[j]).at > before;
            assert(s[k].at <= before);
        }
    } else if i > 0 {
        assert(s[i - 1].at <= before);
    }
}

/// The idle temperature is the middle of the readings of the ten seconds before
/// the start.  Where there are none, it is the last one taken before, if any
/// was.
pub proof fn lemma_idle(s: Seq<Sample>, before: u64)
    ensures
        ({
            let recent = s.filter(just_before(before));
            match idle(s, before) {
                Some(v) => if recent.len() > 0 {
                    in_the_middle(values(recent), v)
                } else {
                    exists|k: int|
                        0 <= k < s.len() && (#[trigger] s[k]).at <= before && s[k].value == v
                            && forall|j: int| k < j < s.len() ==> (#[trigger] s[j]).at > before
                },
                None => forall|k: int| 0 <= k < s.len() ==> (#[trigger] s[k]).at > before,
            }
        }),
{
    assert(IDLE_WINDOW == 10_000_000_000);
    lemma_window(s, idle_from(before), before, just_before(before));
    let recent = s.filter(just_before(before));
    lemma_median(values(recent));
    lemma_last_before(s, before, s.len() as int);
}

/// The samples that were taken within two times.
pub open spec fn between(from: u64, until: u64) -> spec_fn(Sample) -> bool {
    |x: Sample| from <= x.at <= until
}

/// `v` is the highest of the values of some samples.
pub open spec fn tops(s: Seq<Sample>, v: i64) -> bool {
    &&& exists|k: int| 0 <= k < s.len() && (#[trigger] s[k]).value == v
    &&& forall|k: int| 0 <= k < s.len() ==> (#[trigger] s[k]).value <= v
}

/// `v` is the lowest of the values of some samples.
pub open spec fn bottoms(s: Seq<Sample>, v: i64) -> bool {
    &&& exists|k: int| 0 <= k < s.len() && (#[trigger] s[k]).value == v
    &&& forall|k: int| 0 <= k < s.len() ==> (#[trigger] s[k]).value >= v
}

/// What is collected of a part: the highest and the lowest temperature and the
/// highest load that were read within the two times, what was known where none
/// were, and the latest reading of each.  The idle temperature stays.
pub proof fn lemma_figures(p: Part, temp: Seq<Sample>, usage: Seq<Sample>, from: u64, until: u64)
    ensures
        ({
            let c = p.collected(temp, usage, from, until);
            let t = temp.filter(between(from, until));
            let u = usage.filter(between(from, until));
            &&& c.idle == p.idle
            &&& if t.len() > 0 {
                c.peak is Some && tops(t, c.peak->0) && c.low is Some && bottoms(t, c.low->0)
            } else {
                c.peak == p.peak && c.low == p.low
            }
            &&& if u.len() > 0 {
                c.usage_max is Some && tops(u, c.usage_max->0)
            } else {
                c.usage_max == p.usage_max
            }
            &&& c.current is Some <==> temp.len() > 0
            &&& temp.len() > 0 ==> c.current == Some(temp[temp.len() - 1].value)
            &&& c.usage_now is Some <==> usage.len() > 0
            &&& usage.len() > 0 ==> c.usage_now == Some(usage[usage.len() - 1].value)
        }),
{
    lemma_window(temp, from, until, between(from, until));
    lemma_window(usage, from, until, between(from, until));
    let t = temp.filter(between(from, until));
    let u = usage.filter(between(from, until));
    if t.len() > 0 {
        lemma_top(t);
        lemma_bottom(t);
    }
    if u.len() > 0 {
        lemma_top(u);
    }
}

/// An idle temperature is warm above 56 °C and hot above 65 °C.
pub proof fn lemma_idle_level(celsius: int)
    ensures
        level(celsius) is None <==> celsius <= 56_000_000,
        level(celsius) == Some(IdleLevel::Hot) <==> celsius > 65_000_000,
{
}

fn in_window(samples: &VecDeque<Sample>, from: u64, until: u64) -> (r: Vec<Sample>)
    ensures
        r@ == window(samples@, from, until),
{
    let mut r: Vec<Sample> = Vec::new();
    let mut i: usize = 0;
    while i < samples.len()
        invariant
            i <= samples.len(),
            r@ == window(samples@.take(i as int), from, until),
        decreases samples.len() - i,
    {
        let s: Sample = samples[i];
        if from <= s.at && s.at <= until {
            r.push(s);
        }
        i = i + 1;
        assert(samples@.take(i as int).drop_last() =~= samples@.take(i - 1));
    }
    assert(samples@.take(samples@.len() as int) =~= samples@);
    r
}

/// The idle temperature before a time.
pub fn idle_of(channel: &Channel, before: u64) -> (r: Option<i64>)
    ensures
        r == idle(channel@.samples, before),
{
    let from: u64 = if before >= IDLE_WINDOW {
        before - IDLE_WINDOW
    } else {
        before
    };
    let recent: Vec<Sample> = in_window(&channel.samples, from, before);
    let mut vs: Vec<i64> = Vec::new();
    let mut i: usize = 0;
    while i < recent.len()
        invariant
            i <= recent.len(),
            vs@ == values(recent@).take(i as int),
        decreases recent.len() - i,
    {
        vs.push(recent[i].value);
        i = i + 1;
        assert(vs@ =~= values(recent@).take(i as int));
    }
    assert(values(recent@).take(recent@.len() as int) =~= values(recent@));
    match median(vs) {
        Some(v) => Some(v),
        None => {
            let mut k: usize = channel.samples.len();
            while k > 0 && channel.samples[k - 1].at > before
                invariant
                    k <= channel.samples.len(),
                    last_before(channel.samples@, before, channel.samples@.len() as int)
                        == last_before(channel.samples@, before, k as int),
                decreases k,
            {
                k = k - 1;
            }
            if k > 0 {
                Some(channel.samples[k - 1].value)
            } else {
                None
            }
        },
    }
}

fn top_of(w: &Vec<Sample>, other: Option<i64>) -> (r: Option<i64>)
    ensures
        r == top_or(w@, other),
{
    if w.len() == 0 {
        return other;
    }
    let mut t: i64 = w[0].value;
    let mut i: usize = 1;
    assert(w@.take(1)[0] == w@[0]);
    while i < w.len()
        invariant
            1 <= i <= w.len(),
            t == top(w@.take(i as int)),
        decreases w.len() - i,
    {
        assert(w@.take(i + 1).drop_last() =~= w@.take(i as int));
        if t < w[i].value {
            t = w[i].value;
        }
        i = i + 1;
    }
    assert(w@.take(w@.len() as int) =~= w@);
    Some(t)
}

fn bottom_of(w: &Vec<Sample>, other: Option<i64>) -> (r: Option<i64>)
    ensures
        r == bottom_or(w@, other),
{
    if w.len() == 0 {
        return other;
    }
    let mut t: i64 = w[0].value;
    let mut i: usize = 1;
    assert(w@.take(1)[0] == w@[0]);
    while i < w.len()
        invariant
            1 <= i <= w.len(),
            t == bottom(w@.take(i as int)),
        decreases w.len() - i,
    {
        assert(w@.take(i + 1).drop_last() =~= w@.take(i as int));
        if w[i].value < t {
            t = w[i].value;
        }
        i = i + 1;
    }
    assert(w@.take(w@.len() as int) =~= w@);
    Some(t)
}

fn last_of(c: &Channel) -> (r: Option<i64>)
    ensures
        r == last_value(c@.samples),
{
    match c.latest() {
        Some(s) => Some(s.value),
        None => None,
    }
}

/// Fold the samples taken in [from, until] into peak/low/usage figures.
pub fn collect(part: &mut Part, temp: &Channel, usage: &Channel, from: u64, until: u64)
    ensures
        *final(part) == old(part).collected(temp@.samples, usage@.samples, from, until),
        old(part).wf() && temp@.wf() && usage@.wf() ==> final(part).wf(),
{
    let temps: Vec<Sample> = in_window(&temp.samples, from, until);
    let usages: Vec<Sample> = in_window(&usage.samples, from, until);
    let r = Part {
        idle: part.idle,
        current: last_of(temp),
        peak: top_of(&temps, part.peak),
        low: bottom_of(&temps, part.low),
        usage_now: last_of(usage),
        usage_max: top_of(&usages, part.usage_max),
    };
    proof {
        if part.wf() && temp@.wf() && usage@.wf() {
            lemma_window_wf(temp@.samples, from, until);
            lemma_window_wf(usage@.samples, from, until);
            if temps@.len() > 0 {
                lemma_top(temps@);
                lemma_bottom(temps@);
            }
            if usages@.len() > 0 {
                lemma_top(usages@);
            }
            if temp@.samples.len() > 0 {
                assert(temp@.samples[temp@.samples.len() - 1].wf());
            }
            if usage@.samples.len() > 0 {
                assert(usage@.samples[usage@.samples.len() - 1].wf());
            }
        }
    }
    *part = r;
}

// ---------------------------------------------------------------------------
// A run

/// How a run stands.
#[derive(Debug, Clone)]
pub struct Progress {
    pub phase: Phase,
    /// Until when to wait for the sensors' first readings.
    pub wait_until: Option<u64>,
    /// When the stress workers started / when the test will end.
    pub started: Option<u64>,
    pub ends: Option<u64>,
    pub stopped: Option<u64>,
    pub cpu: Part,
    pub gpu: Part,
    pub stress: StressStatus,
    pub warnings: Vec<Warning>,
    /// Stopped by the user before the planned end.
    pub stopped_early: bool,
    /// The whole run's temperature/load curve, set when the test finishes.
    pub series: Option<Series>,
}

/// A run's contents.
pub ghost struct ProgressView {
    pub phase: Phase,
    pub wait_until: Option<u64>,
    pub started: Option<u64>,
    pub ends: Option<u64>,
    pub stopped: Option<u64>,
    pub cpu: Part,
    pub gpu: Part,
    pub stress: StressView,
    pub warnings: Seq<WarningView>,
    pub stopped_early: bool,
    pub series: Option<SeriesView>,
}

impl View for Progress {
    type V = ProgressView;

    open spec fn view(&self) -> ProgressView {
        ProgressView {
            phase: self.phase,
            wait_until: self.wait_until,
            started: self.started,
            ends: self.ends,
            stopped: self.stopped,
            cpu: self.cpu,
            gpu: self.gpu,
            stress: self.stress@,
            warnings: warning_views(self.warnings@),
            stopped_early: self.stopped_early,
            series: series_of(self.series),
        }
    }
}

impl ProgressView {
    /// The times that a phase needs are there, and the figures are such as
    /// sensors report.
    pub open spec fn wf(self) -> bool {
        &&& self.cpu.wf() && self.gpu.wf()
        &&& self.phase == Phase::Running ==> self.started is Some && self.ends is Some
        &&& self.phase == Phase::Stopping ==> self.started is Some && self.stopped is Some
            && self.started->0 <= self.stopped->0 <= u64::MAX - SENSOR_LAG
    }
}

/// The CPU has been under full load, but the reading has not moved: that is
/// not the die.
pub open spec fn cpu_flat(p: Part, elapsed: u64) -> bool {
    &&& elapsed >= FLAT_CHECK_AFTER
    &&& p.usage_max is Some && p.usage_max->0 > 80 * UNIT
    &&& p.rise_of() is Some && p.rise_of()->0 < 3 * UNIT
    &&& p.spread_of() is Some && p.spread_of()->0 < 3 * UNIT
}

/// The warnings with those on the CPU.
pub open spec fn cpu_warned(ws: Seq<WarningView>, p: Part, elapsed: u64) -> Seq<WarningView> {
    let a = match p.peak {
        Some(t) if t >= 95 * UNIT => once(ws, WarningView::CpuVeryHot(t)),
        _ => ws,
    };
    if cpu_flat(p, elapsed) {
        once(a, WarningView::CpuTempFlat)
    } else {
        a
    }
}

/// The warnings with those on the GPU.
pub open spec fn gpu_warned(
    ws: Seq<WarningView>,
    p: Part,
    stress: GpuStressView,
    elapsed: u64,
) -> Seq<WarningView> {
    let late = stress is Running && elapsed >= FLAT_CHECK_AFTER;
    let a = match stress {
        GpuStressView::Failed(reason) => once(ws, WarningView::GpuStressFailed(reason)),
        _ => ws,
    };
    let b = match p.usage_max {
        Some(u) if late && u < 50 * UNIT => once(a, WarningView::GpuLoadLow(u)),
        _ => a,
    };
    let c = if late && p.rise_of() is Some && p.rise_of()->0 < 3 * UNIT {
        once(b, WarningView::GpuTempFlat)
    } else {
        b
    };
    match p.peak {
        Some(t) if t >= 90 * UNIT => once(c, WarningView::GpuVeryHot(t)),
        _ => c,
    }
}

/// The warnings with those on the parts that are tested.
pub open spec fn warned(
    ws: Seq<WarningView>,
    kind: TestKind,
    cpu: Part,
    gpu: Part,
    stress: GpuStressView,
    elapsed: u64,
) -> Seq<WarningView> {
    let a = if kind.has_cpu() {
        cpu_warned(ws, cpu, elapsed)
    } else {
        ws
    };
    if kind.has_gpu() {
        gpu_warned(a, gpu, stress, elapsed)
    } else {
        a
    }
}

/// Warnings stay without doubles, whatever a run brings.
pub proof fn lemma_warned_distinct(
    ws: Seq<WarningView>,
    kind: TestKind,
    cpu: Part,
    gpu: Part,
    stress: GpuStressView,
    elapsed: u64,
)
    requires
        distinct(ws),
    ensures
        distinct(warned(ws, kind, cpu, gpu, stress, elapsed)),
{
    let a = if kind.has_cpu() {
        match cpu.peak {
            Some(t) if t >= 95 * UNIT => {
                lemma_once(ws, WarningView::CpuVeryHot(t));
                if cpu_flat(cpu, elapsed) {
                    lemma_once(
                        once(ws, WarningView::CpuVeryHot(t)),
                        WarningView::CpuTempFlat,
                    );
                }
            },
            _ => {
                if cpu_flat(cpu, elapsed) {
                    lemma_once(ws, WarningView::CpuTempFlat);
                }
            },
        }
        cpu_warned(ws, cpu, elapsed)
    } else {
        ws
    };
    assert(distinct(a));
    if kind.has_gpu() {
        let late = stress is Running && elapsed >= FLAT_CHECK_AFTER;
        let b = match stress {
            GpuStressView::Failed(reason) => {
                lemma_once(a, WarningView::GpuStressFailed(reason));
                once(a, WarningView::GpuStressFailed(reason))
            },
            _ => a,
        };
        let c = match gpu.usage_max {
            Some(u) if late && u < 50 * UNIT => {
                lemma_once(b, WarningView::GpuLoadLow(u));
                once(b, WarningView::GpuLoadLow(u))
            },
            _ => b,
        };
        let d = if late && gpu.rise_of() is Some && gpu.rise_of()->0 < 3 * UNIT {
            lemma_once(c, WarningView::GpuTempFlat);
            once(c, WarningView::GpuTempFlat)
        } else {
            c
        };
        match gpu.peak {
            Some(t) if t >= 90 * UNIT => {
                lemma_once(d, WarningView::GpuVeryHot(t));
            },
            _ => {},
        }
    }
}

/// A rise is under three degrees, give or take the last millionth.
pub open spec fn flat(high: i64, low: i64) -> bool {
    high - low <= 3_000_000
}

/// A new warning that the figures of a run give reason for.
pub open spec fn justified(
    w: WarningView,
    kind: TestKind,
    cpu: Part,
    gpu: Part,
    stress: GpuStressView,
    elapsed: u64,
) -> bool {
    let with_cpu = kind == TestKind::Cpu || kind == TestKind::Both;
    let with_gpu = kind == TestKind::Gpu || kind == TestKind::Both;
    match w {
        WarningView::CpuVeryHot(t) => with_cpu && cpu.peak == Some(t) && t >= 95_000_000,
        WarningView::CpuTempFlat => with_cpu && elapsed >= 30_000_000_000 && cpu.usage_max is Some
            && cpu.usage_max->0 > 80_000_000 && cpu.peak is Some && cpu.idle is Some && cpu.low
            is Some && flat(cpu.peak->0, cpu.idle->0) && flat(cpu.peak->0, cpu.low->0),
        WarningView::GpuStressFailed(reason) => with_gpu && stress == GpuStressView::Failed(reason),
        WarningView::GpuLoadLow(u) => with_gpu && stress is Running && elapsed >= 30_000_000_000
            && gpu.usage_max == Some(u) && u < 50_000_000,
        WarningView::GpuTempFlat => with_gpu && stress is Running && elapsed >= 30_000_000_000
            && gpu.peak is Some && gpu.idle is Some && flat(gpu.peak->0, gpu.idle->0),
        WarningView::GpuVeryHot(t) => with_gpu && gpu.peak == Some(t) && t >= 90_000_000,
        _ => false,
    }
}

/// Figures that are well within what a warning is given for: flat ones under
/// three degrees by more than a millionth.
pub open spec fn due(
    w: WarningView,
    kind: TestKind,
    cpu: Part,
    gpu: Part,
    stress: GpuStressView,
    elapsed: u64,
) -> bool {
    &&& justified(w, kind, cpu, gpu, stress, elapsed)
    &&& w == WarningView::CpuTempFlat ==> cpu.peak->0 - cpu.idle->0 < 2_999_999 && cpu.peak->0
        - cpu.low->0 < 2_999_999
    &&& w == WarningView::GpuTempFlat ==> gpu.peak->0 - gpu.idle->0 < 2_999_999
}

/// The warnings of a run are those that there were and those that its figures
/// give reason for; every one that is due is among them, with its latest
/// figure.
pub proof fn lemma_warnings(
    ws: Seq<WarningView>,
    kind: TestKind,
    cpu: Part,
    gpu: Part,
    stress: GpuStressView,
    elapsed: u64,
    w: WarningView,
)
    requires
        distinct(ws),
    ensures
        ({
            let r = warned(ws, kind, cpu, gpu, stress, elapsed);
            &&& r.contains(w) ==> ws.contains(w) || justified(w, kind, cpu, gpu, stress, elapsed)
            &&& due(w, kind, cpu, gpu, stress, elapsed) ==> r.contains(w)
            &&& ws.contains(w) && !(exists|x: WarningView| #[trigger]
                justified(x, kind, cpu, gpu, stress, elapsed) && x.kind() == w.kind())
                ==> r.contains(w)
        }),
{
    if cpu.peak is Some && cpu.idle is Some {
        lemma_minus(cpu.peak->0 as int, cpu.idle->0 as int);
    }
    if cpu.peak is Some && cpu.low is Some {
        lemma_minus(cpu.peak->0 as int, cpu.low->0 as int);
    }
    if gpu.peak is Some && gpu.idle is Some {
        lemma_minus(gpu.peak->0 as int, gpu.idle->0 as int);
    }
    assert(UNIT == 1_000_000 && FLAT_CHECK_AFTER == 30_000_000_000);
    let with_cpu = kind.has_cpu();
    let with_gpu = kind.has_gpu();
    let hot = with_cpu && cpu.peak is Some && cpu.peak->0 >= 95 * UNIT;
    let w1 = WarningView::CpuVeryHot(cpu.peak->0);
    let a = step_once(ws, hot, w1);
    lemma_step_once(ws, hot, w1, w);
    let still = with_cpu && cpu_flat(cpu, elapsed);
    let w2 = WarningView::CpuTempFlat;
    let b = step_once(a, still, w2);
    lemma_step_once(a, still, w2, w);
    let failed = with_gpu && stress is Failed;
    let w3 = WarningView::GpuStressFailed(stress->Failed_0);
    let c = step_once(b, failed, w3);
    lemma_step_once(b, failed, w3, w);
    let late = stress is Running && elapsed >= FLAT_CHECK_AFTER;
    let low = with_gpu && late && gpu.usage_max is Some && gpu.usage_max->0 < 50 * UNIT;
    let w4 = WarningView::GpuLoadLow(gpu.usage_max->0);
    let d = step_once(c, low, w4);
    lemma_step_once(c, low, w4, w);
    let same = with_gpu && late && gpu.rise_of() is Some && gpu.rise_of()->0 < 3 * UNIT;
    let w5 = WarningView::GpuTempFlat;
    let e = step_once(d, same, w5);
    lemma_step_once(d, same, w5, w);
    let burning = with_gpu && gpu.peak is Some && gpu.peak->0 >= 90 * UNIT;
    let w6 = WarningView::GpuVeryHot(gpu.peak->0);
    lemma_step_once(e, burning, w6, w);
    assert(warned(ws, kind, cpu, gpu, stress, elapsed) == step_once(e, burning, w6));
    if hot {
        assert(justified(w1, kind, cpu, gpu, stress, elapsed));
    }
    if still {
        assert(justified(w2, kind, cpu, gpu, stress, elapsed));
    }
    if failed {
        assert(justified(w3, kind, cpu, gpu, stress, elapsed));
    }
    if low {
        assert(justified(w4, kind, cpu, gpu, stress, elapsed));
    }
    if same {
        assert(justified(w5, kind, cpu, gpu, stress, elapsed));
    }
    if burning {
        assert(justified(w6, kind, cpu, gpu, stress, elapsed));
    }
}

spec fn step_once(ws: Seq<WarningView>, add: bool, w: WarningView) -> Seq<WarningView> {
    if add {
        once(ws, w)
    } else {
        ws
    }
}

proof fn lemma_step_once(ws: Seq<WarningView>, add: bool, w: WarningView, x: WarningView)
    requires
        distinct(ws),
    ensures
        distinct(step_once(ws, add, w)),
        add ==> step_once(ws, add, w).contains(w),
        step_once(ws, add, w).contains(x) ==> ws.contains(x) || (add && x == w),
        ws.contains(x) && (add ==> x.kind() != w.kind()) ==> step_once(ws, add, w).contains(x),
{
    if add {
        lemma_once(ws, w);
        let r = once(ws, w);
        if r.contains(x) {
            let i = choose|i: int| 0 <= i < r.len() && r[i] == x;
            assert(r[i] == w || ws.contains(r[i]));
        }
        if ws.contains(x) {
            let i = choose|i: int| 0 <= i < ws.len() && ws[i] == x;
            assert(ws[i].kind() != w.kind() ==> r.contains(ws[i]));
        }
    }
}

fn at_least(v: Option<i64>, limit: i64) -> (r: bool)
    ensures
        r == (v is Some && v->0 >= limit),
{
    match v {
        Some(x) => x >= limit,
        None => false,
    }
}

fn under(v: Option<i64>, limit: i64) -> (r: bool)
    ensures
        r == (v is Some && v->0 < limit),
{
    match v {
        Some(x) => x < limit,
        None => false,
    }
}

/// Brings the warnings up to date.
pub fn update_warnings(
    warnings: &mut Vec<Warning>,
    kind: TestKind,
    cpu: &Part,
    gpu: &Part,
    status: &StressStatus,
    elapsed: u64,
)
    requires
        cpu.wf(),
        gpu.wf(),
    ensures
        warning_views(final(warnings)@) == warned(
            warning_views(old(warnings)@),
            kind,
            *cpu,
            *gpu,
            status@.gpu,
            elapsed,
        ),
{
    if kind.cpu() {
        match cpu.peak {
            Some(peak) => {
                if peak >= 95 * UNIT {
                    push_once(warnings, Warning::CpuVeryHot(peak));
                }
            },
            None => {},
        }
        if elapsed >= FLAT_CHECK_AFTER && at_least(cpu.usage_max, 80 * UNIT + 1) && under(
            cpu.rise(),
            3 * UNIT,
        ) && under(cpu.spread(), 3 * UNIT) {
            push_once(warnings, Warning::CpuTempFlat);
        }
    }
    if kind.gpu() {
        match &status.gpu {
            GpuStress::Failed(reason) => {
                push_once(warnings, Warning::GpuStressFailed(reason.clone()));
            },
            GpuStress::Running { .. } => {
                if elapsed >= FLAT_CHECK_AFTER {
                    match gpu.usage_max {
                        Some(max) => {
                            if max < 50 * UNIT {
                                push_once(warnings, Warning::GpuLoadLow(max));
                            }
                        },
                        None => {},
                    }
                    if under(gpu.rise(), 3 * UNIT) {
                        push_once(warnings, Warning::GpuTempFlat);
                    }
                }
            },
            _ => {},
        }
        match gpu.peak {
            Some(peak) => {
                if peak >= 90 * UNIT {
                    push_once(warnings, Warning::GpuVeryHot(peak));
                }
            },
            None => {},
        }
    }
}

/// A sensor has a reading, or is known to have none.
pub open spec fn settled(c: ChannelView) -> bool {
    c.samples.len() > 0 || c.probe == Probe::Missing
}

/// The sensors that the test needs are settled.
pub open spec fn ready(kind: TestKind, r: Readings) -> bool {
    (kind.has_cpu() ==> settled(r.cpu_temp@)) && (kind.has_gpu() ==> settled(r.gpu_temp@))
}

fn is_settled(c: &Channel) -> (r: bool)
    ensures
        r == settled(c@),
{
    c.samples.len() > 0 || c.probe == Probe::Missing
}

fn is_ready(kind: TestKind, r: &Readings) -> (b: bool)
    ensures
        b == ready(kind, *r),
{
    (!kind.cpu() || is_settled(&r.cpu_temp)) && (!kind.gpu() || is_settled(&r.gpu_temp))
}

/// The warnings with one where the sensor is missing.
pub open spec fn missing_warned(
    ws: Seq<WarningView>,
    tested: bool,
    idle: Option<i64>,
    w: WarningView,
) -> Seq<WarningView> {
    if tested && idle is None {
        ws.push(w)
    } else {
        ws
    }
}

/// The warnings with one on a CPU that is warm before the test.
pub open spec fn cpu_idle_warned(
    ws: Seq<WarningView>,
    tested: bool,
    idle: Option<i64>,
) -> Seq<WarningView> {
    match idle {
        Some(t) if tested => match level(t as int) {
            Some(IdleLevel::Hot) => ws.push(WarningView::CpuIdleHot(t)),
            Some(IdleLevel::Warm) => ws.push(WarningView::CpuIdleWarm(t)),
            None => ws,
        },
        _ => ws,
    }
}

/// The warnings with one on a GPU that is warm before the test.
pub open spec fn gpu_idle_warned(
    ws: Seq<WarningView>,
    tested: bool,
    idle: Option<i64>,
) -> Seq<WarningView> {
    match idle {
        Some(t) if tested => match level(t as int) {
            Some(IdleLevel::Hot) => ws.push(WarningView::GpuIdleHot(t)),
            Some(IdleLevel::Warm) => ws.push(WarningView::GpuIdleWarm(t)),
            None => ws,
        },
        _ => ws,
    }
}

impl ProgressView {
    /// A run that begins.
    pub open spec fn begun() -> ProgressView {
        ProgressView {
            phase: Phase::Starting,
            wait_until: None,
            started: None,
            ends: None,
            stopped: None,
            cpu: Part::blank(),
            gpu: Part::blank(),
            stress: StressView { cpu_threads: 0, gpu: GpuStressView::Off },
            warnings: Seq::empty(),
            stopped_early: false,
            series: None,
        }
    }

    /// The run with the idle temperatures at a time, and warnings on them.
    pub open spec fn baselined(self, kind: TestKind, r: Readings, now: u64) -> ProgressView {
        let cpu_idle = idle(r.cpu_temp@.samples, now);
        let gpu_idle = idle(r.gpu_temp@.samples, now);
        let a = missing_warned(
            self.warnings,
            kind.has_cpu(),
            cpu_idle,
            WarningView::CpuSensorMissing,
        );
        let b = missing_warned(a, kind.has_gpu(), gpu_idle, WarningView::GpuSensorMissing);
        let c = cpu_idle_warned(b, kind.has_cpu(), cpu_idle);
        ProgressView {
            cpu: Part { idle: cpu_idle, ..self.cpu },
            gpu: Part { idle: gpu_idle, ..self.gpu },
            warnings: gpu_idle_warned(c, kind.has_gpu(), gpu_idle),
            ..self
        }
    }

    /// The run with the figures of the readings so far.
    pub open spec fn sampled(self, r: Readings, until: u64) -> ProgressView {
        ProgressView {
            cpu: self.cpu.collected(
                r.cpu_temp@.samples,
                r.cpu_usage@.samples,
                self.started->0,
                until,
            ),
            gpu: self.gpu.collected(
                r.gpu_temp@.samples,
                r.gpu_usage@.samples,
                self.started->0,
                until,
            ),
            ..self
        }
    }

    /// The run with the warnings and the state of the stress.
    pub open spec fn judged(self, kind: TestKind, status: StressView, elapsed: u64) -> ProgressView {
        ProgressView {
            warnings: warned(self.warnings, kind, self.cpu, self.gpu, status.gpu, elapsed),
            stress: status,
            ..self
        }
    }
}

/// What the controller does next.
#[derive(Debug, Clone, Copy, PartialEq, Eq, Structural)]
pub enum Step {
    /// Wait so many nanoseconds, then step again.
    Wait(u64),
    /// Start the workers, then tell the run that they have.
    StartStress,
    /// Stop the workers, then step again.
    StopStress,
    /// The run is over.
    Done,
}

/// The least of two times.
pub open spec fn sooner(a: u64, b: u64) -> u64 {
    if a < b {
        a
    } else {
        b
    }
}

/// The curve of a run that has been stopped.
pub open spec fn run_series(p: ProgressView, kind: TestKind, r: Readings) -> Option<SeriesView> {
    built(
        if kind.has_cpu() {
            Some(PartSamples { temp: &r.cpu_temp.samples, usage: &r.cpu_usage.samples })
        } else {
            None
        },
        if kind.has_gpu() {
            Some(PartSamples { temp: &r.gpu_temp.samples, usage: &r.gpu_usage.samples })
        } else {
            None
        },
        p.started->0,
        p.stopped->0,
    )
}

/// A step of a run that is starting: wait for the sensors, then measure the
/// baseline.  A run that is stopped there is over.
pub open spec fn starting_step(
    p: ProgressView,
    kind: TestKind,
    r: Readings,
    stop: bool,
    now: u64,
) -> (ProgressView, Step) {
    let until = match p.wait_until {
        Some(t) => t,
        None => (now + BASELINE_WAIT) as u64,
    };
    let w = ProgressView { wait_until: Some(until), ..p };
    let b = w.baselined(kind, r, now);
    if !ready(kind, r) && now < until && !stop {
        (w, Step::Wait((100 * MILLI) as u64))
    } else if stop {
        (ProgressView { stopped_early: true, phase: Phase::Finished, ..b }, Step::Done)
    } else {
        (b, Step::StartStress)
    }
}

/// A step of a run under stress: collect until the end, or until it is
/// stopped.
pub open spec fn running_step(
    p: ProgressView,
    kind: TestKind,
    r: Readings,
    status: StressView,
    stop: bool,
    now: u64,
) -> (ProgressView, Step) {
    if stop || now >= p.ends->0 {
        (
            ProgressView {
                phase: Phase::Stopping,
                stopped: Some(now),
                stopped_early: stop,
                ..p
            },
            Step::StopStress,
        )
    } else {
        (
            p.sampled(r, now).judged(kind, status, (now - p.started->0) as u64),
            Step::Wait(sooner((250 * MILLI) as u64, (p.ends->0 - now) as u64)),
        )
    }
}

/// A step of a run whose workers have stopped: wait for late readings, then
/// collect and finish.
pub open spec fn stopping_step(
    p: ProgressView,
    kind: TestKind,
    r: Readings,
    status: StressView,
    now: u64,
) -> (ProgressView, Step) {
    let settle = p.stopped->0 + SENSOR_LAG;
    if now < settle {
        (p, Step::Wait((settle - now) as u64))
    } else {
        let s = p.sampled(r, now);
        let c = ProgressView { series: run_series(p, kind, r), ..s };
        (
            ProgressView {
                phase: Phase::Finished,
                ..c.judged(kind, status, (p.stopped->0 - p.started->0) as u64)
            },
            Step::Done,
        )
    }
}

/// The next step of a run.
pub open spec fn stepped(
    p: ProgressView,
    kind: TestKind,
    r: Readings,
    status: StressView,
    stop: bool,
    now: u64,
) -> (ProgressView, Step) {
    match p.phase {
        Phase::Starting => starting_step(p, kind, r, stop, now),
        Phase::Running => running_step(p, kind, r, status, stop, now),
        Phase::Stopping => stopping_step(p, kind, r, status, now),
        Phase::Finished => (p, Step::Done),
    }
}

impl Progress {
    /// A run that begins.
    pub fn new() -> (r: Progress)
        ensures
            r@ == ProgressView::begun(),
            r@.wf(),
    {
        let r = Progress {
            phase: Phase::Starting,
            wait_until: None,
            started: None,
            ends: None,
            stopped: None,
            cpu: Part::default(),
            gpu: Part::default(),
            stress: StressStatus { cpu_threads: 0, gpu: GpuStress::Off },
            warnings: Vec::new(),
            stopped_early: false,
            series: None,
        };
        assert(warning_views(r.warnings@) =~= Seq::empty());
        r
    }

    fn baseline(&mut self, kind: TestKind, r: &Readings, now: u64)
        requires
            old(self)@.wf(),
            r.wf(),
        ensures
            final(self)@ == old(self)@.baselined(kind, *r, now),
            final(self)@.wf(),
    {
        let cpu_idle = idle_of(&r.cpu_temp, now);
        let gpu_idle = idle_of(&r.gpu_temp, now);
        proof {
            lemma_idle_wf(r.cpu_temp@.samples, now);
            lemma_idle_wf(r.gpu_temp@.samples, now);
        }
        self.cpu.idle = cpu_idle;
        self.gpu.idle = gpu_idle;
        let ghost w0 = warning_views(self.warnings@);
        if kind.cpu() && cpu_idle.is_none() {
            self.warnings.push(Warning::CpuSensorMissing);
        }
        assert(warning_views(self.warnings@) =~= missing_warned(
            w0,
            kind.has_cpu(),
            cpu_idle,
            WarningView::CpuSensorMissing,
        ));
        let ghost w1 = warning_views(self.warnings@);
        if kind.gpu() && gpu_idle.is_none() {
            self.warnings.push(Warning::GpuSensorMissing);
        }
        assert(warning_views(self.warnings@) =~= missing_warned(
            w1,
            kind.has_gpu(),
            gpu_idle,
            WarningView::GpuSensorMissing,
        ));
        let ghost w2 = warning_views(self.warnings@);
        if kind.cpu() {
            match cpu_idle {
                Some(t) => match idle_level(t) {
                    Some(IdleLevel::Hot) => self.warnings.push(Warning::CpuIdleHot(t)),
                    Some(IdleLevel::Warm) => self.warnings.push(Warning::CpuIdleWarm(t)),
                    None => {},
                },
                None => {},
            }
        }
        assert(warning_views(self.warnings@) =~= cpu_idle_warned(w2, kind.has_cpu(), cpu_idle));
        let ghost w3 = warning_views(self.warnings@);
        if kind.gpu() {
            match gpu_idle {
                Some(t) => match idle_level(t) {
                    Some(IdleLevel::Hot) => self.warnings.push(Warning::GpuIdleHot(t)),
                    Some(IdleLevel::Warm) => self.warnings.push(Warning::GpuIdleWarm(t)),
                    None => {},
                },
                None => {},
            }
        }
        assert(warning_views(self.warnings@) =~= gpu_idle_warned(w3, kind.has_gpu(), gpu_idle));
    }

    fn sample(&mut self, r: &Readings, until: u64)
        requires
            old(self)@.wf(),
            old(self).started is Some,
            r.wf(),
        ensures
            final(self)@ == old(self)@.sampled(*r, until),
            final(self)@.wf(),
    {
        let from: u64 = match self.started {
            Some(t) => t,
            None => 0,
        };
        collect(&mut self.cpu, &r.cpu_temp, &r.cpu_usage, from, until);
        collect(&mut self.gpu, &r.gpu_temp, &r.gpu_usage, from, until);
    }

    fn judge(&mut self, kind: TestKind, status: &StressStatus, elapsed: u64)
        requires
            old(self)@.wf(),
        ensures
            final(self)@ == old(self)@.judged(kind, status@, elapsed),
            final(self)@.wf(),
    {
        let cpu: Part = self.cpu;
        let gpu: Part = self.gpu;
        update_warnings(&mut self.warnings, kind, &cpu, &gpu, status, elapsed);
        self.stress = status.duplicate();
    }

    /// The workers have started: the end is fixed.
    pub fn stress_started(&mut self, now: u64, duration: u64)
        requires
            old(self)@.wf(),
            old(self).phase == Phase::Starting,
            now + duration <= u64::MAX,
        ensures
            final(self)@ == (ProgressView {
                phase: Phase::Running,
                started: Some(now),
                ends: Some((now + duration) as u64),
                ..old(self)@
            }),
            final(self)@.wf(),
    {
        self.phase = Phase::Running;
        self.started = Some(now);
        self.ends = Some(now + duration);
    }

    /// The next step of the run.  The clock must not run out.
    pub fn step(
        &mut self,
        kind: TestKind,
        r: &Readings,
        status: &StressStatus,
        stop: bool,
        now: u64,
    ) -> (next: Step)
        requires
            old(self)@.wf(),
            r.wf(),
            now <= u64::MAX - BASELINE_WAIT,
            old(self).started is Some ==> old(self).started->0 <= now,
        ensures
            (final(self)@, next) == stepped(old(self)@, kind, *r, status@, stop, now),
            final(self)@.wf(),
    {
        match self.phase {
            Phase::Starting => {
                let until: u64 = match self.wait_until {
                    Some(t) => t,
                    None => now + BASELINE_WAIT,
                };
                self.wait_until = Some(until);
                if !is_ready(kind, r) && now < until && !stop {
                    return Step::Wait(100 * MILLI);
                }
                self.baseline(kind, r, now);
                if stop {
                    self.stopped_early = true;
                    self.phase = Phase::Finished;
                    return Step::Done;
                }
                Step::StartStress
            },
            Phase::Running => {
                let ends: u64 = match self.ends {
                    Some(t) => t,
                    None => 0,
                };
                let started: u64 = match self.started {
                    Some(t) => t,
                    None => 0,
                };
                if stop || now >= ends {
                    self.phase = Phase::Stopping;
                    self.stopped = Some(now);
                    self.stopped_early = stop;
                    return Step::StopStress;
                }
                self.sample(r, now);
                self.judge(kind, status, now - started);
                if 250 * MILLI < ends - now {
                    Step::Wait(250 * MILLI)
                } else {
                    Step::Wait(ends - now)
                }
            },
            Phase::Stopping => {
                let stopped: u64 = match self.stopped {
                    Some(t) => t,
                    None => 0,
                };
                let started: u64 = match self.started {
                    Some(t) => t,
                    None => 0,
                };
                let settle: u64 = stopped + SENSOR_LAG;
                if now < settle {
                    return Step::Wait(settle - now);
                }
                self.sample(r, now);
                let cpu = if kind.cpu() {
                    Some(PartSamples { temp: &r.cpu_temp.samples, usage: &r.cpu_usage.samples })
                } else {
                    None
                };
                let gpu = if kind.gpu() {
                    Some(PartSamples { temp: &r.gpu_temp.samples, usage: &r.gpu_usage.samples })
                } else {
                    None
                };
                self.series = Series::build(cpu, gpu, started, stopped);
                self.judge(kind, status, stopped - started);
                self.phase = Phase::Finished;
                Step::Done
            },
            Phase::Finished => Step::Done,
        }
    }
}

/// An idle temperature is such as sensors report.
proof fn lemma_idle_wf(s: Seq<Sample>, before: u64)
    requires
        all_wf(s),
    ensures
        value_wf(idle(s, before)),
{
    let w = window(s, idle_from(before), before);
    lemma_window_wf(s, idle_from(before), before);
    let v = values(w);
    if v.len() > 0 {
        lemma_ascending(v);
        let a = ascending(v);
        let m = v.len() as int / 2;
        broadcast use vstd::seq_lib::group_to_multiset_ensures;

        assert(a.contains(a[m]));
        assert(a.to_multiset().count(a[m]) > 0);
        assert(v.to_multiset().count(a[m]) > 0);
        assert(v.contains(a[m]));
        let k = choose|k: int| 0 <= k < v.len() && v[k] == a[m];
        assert(w[k].wf());
    } else {
        lemma_last_before_wf(s, before, s.len() as int);
    }
}

proof fn lemma_last_before_wf(s: Seq<Sample>, before: u64, i: int)
    requires
        all_wf(s),
        0 <= i <= s.len(),
    ensures
        value_wf(last_before(s, before, i)),
    decreases i,
{
    if i > 0 {
        assert(s[i - 1].wf());
        if s[i - 1].at > before {
            lemma_last_before_wf(s, before, i - 1);
        }
    }
}

/// Once the stress has started, neither its start nor its end ever moves.
pub proof fn lemma_end_is_fixed(
    p: ProgressView,
    kind: TestKind,
    r: Readings,
    status: StressView,
    stop: bool,
    now: u64,
)
    requires
        p.phase != Phase::Starting,
    ensures
        stepped(p, kind, r, status, stop, now).0.started == p.started,
        stepped(p, kind, r, status, stop, now).0.ends == p.ends,
        stepped(p, kind, r, status, stop, now).0.cpu.idle == p.cpu.idle,
        stepped(p, kind, r, status, stop, now).0.gpu.idle == p.gpu.idle,
{
}

/// A run that is under stress goes on exactly until its end, or until it is
/// stopped; only then it counts as stopped early.
pub proof fn lemma_runs_until_the_end(
    p: ProgressView,
    kind: TestKind,
    r: Readings,
    status: StressView,
    stop: bool,
    now: u64,
)
    requires
        p.phase == Phase::Running,
        p.ends is Some,
    ensures
        ({
            let (q, next) = stepped(p, kind, r, status, stop, now);
            &&& q.phase == Phase::Stopping <==> stop || now >= p.ends->0
            &&& q.phase == Phase::Running <==> !stop && now < p.ends->0
            &&& q.phase == Phase::Stopping ==> q.stopped_early == stop && next == Step::StopStress
            &&& next is Wait ==> now + next->Wait_0 <= p.ends->0
        }),
{
}

/// A sensor is waited for while it has told nothing and is not known to be
/// missing.
pub open spec fn awaited(c: ChannelView) -> bool {
    c.samples.len() == 0 && c.probe != Probe::Missing
}

/// A run waits with the stress for the sensors of the parts that are tested, and
/// only for these, at most four seconds from the first look on, and not where it
/// is stopped.  Then it takes the idle temperatures of that moment, each from its
/// own sensor.
pub proof fn lemma_waits_for_sensors(
    p: ProgressView,
    kind: TestKind,
    r: Readings,
    status: StressView,
    stop: bool,
    now: u64,
)
    requires
        p.phase == Phase::Starting,
        now + 4_000_000_000 <= u64::MAX,
    ensures
        ({
            let (q, next) = stepped(p, kind, r, status, stop, now);
            let waiting = (kind != TestKind::Gpu && awaited(r.cpu_temp@)) || (kind != TestKind::Cpu
                && awaited(r.gpu_temp@));
            let until = if p.wait_until is Some {
                p.wait_until->0 as int
            } else {
                now + 4_000_000_000
            };
            &&& q.wait_until is Some && q.wait_until->0 == until
            &&& next is Wait <==> waiting && now < until && !stop
            &&& next is Wait ==> q.phase == Phase::Starting && 0 < next->Wait_0 <= 100_000_000
            &&& next == Step::Done <==> stop
            &&& next == Step::Done ==> q.phase == Phase::Finished && q.stopped_early
            &&& next == Step::StartStress ==> !q.stopped_early || p.stopped_early
            &&& next !is Wait ==> q.cpu.idle == idle(r.cpu_temp@.samples, now) && q.gpu.idle == idle(
                r.gpu_temp@.samples,
                now,
            )
        }),
{
}

/// Before the stress, a part that is tested and has no idle temperature is warned
/// of as missing, one that has is warned of as hot above 65 °C and as warm above
/// 56 °C, and a part that is not tested is not warned of.
pub proof fn lemma_idle_warnings(p: ProgressView, kind: TestKind, r: Readings, now: u64)
    requires
        p.warnings.len() == 0,
    ensures
        ({
            let ws = p.baselined(kind, r, now).warnings;
            let cpu = idle(r.cpu_temp@.samples, now);
            let gpu = idle(r.gpu_temp@.samples, now);
            let with_cpu = kind != TestKind::Gpu;
            let with_gpu = kind != TestKind::Cpu;
            forall|w: WarningView| #[trigger]
                ws.contains(w) <==> match w {
                    WarningView::CpuSensorMissing => with_cpu && cpu is None,
                    WarningView::GpuSensorMissing => with_gpu && gpu is None,
                    WarningView::CpuIdleHot(t) => with_cpu && cpu == Some(t) && t > 65_000_000,
                    WarningView::CpuIdleWarm(t) => with_cpu && cpu == Some(t) && 56_000_000 < t
                        <= 65_000_000,
                    WarningView::GpuIdleHot(t) => with_gpu && gpu == Some(t) && t > 65_000_000,
                    WarningView::GpuIdleWarm(t) => with_gpu && gpu == Some(t) && 56_000_000 < t
                        <= 65_000_000,
                    _ => false,
                }
        }),
{
    let cpu = idle(r.cpu_temp@.samples, now);
    let gpu = idle(r.gpu_temp@.samples, now);
    let a = missing_warned(p.warnings, kind.has_cpu(), cpu, WarningView::CpuSensorMissing);
    let b = missing_warned(a, kind.has_gpu(), gpu, WarningView::GpuSensorMissing);
    let c = cpu_idle_warned(b, kind.has_cpu(), cpu);
    let d = gpu_idle_warned(c, kind.has_gpu(), gpu);
    assert forall|s: Seq<WarningView>, x: WarningView, w: WarningView|
        #![trigger s.push(x).contains(w)]
        s.push(x).contains(w) <==> s.contains(w) || x == w by {
        if s.contains(w) {
            let i = choose|i: int| 0 <= i < s.len() && s[i] == w;
            assert(s.push(x)[i] == w);
        }
        if x == w {
            assert(s.push(x)[s.len() as int] == w);
        }
        if s.push(x).contains(w) && x != w {
            let i = choose|i: int| 0 <= i < s.push(x).len() && s.push(x)[i] == w;
            assert(s[i] == w);
        }
    }
    if cpu is Some {
        lemma_idle_level(cpu->0 as int);
    }
    if gpu is Some {
        lemma_idle_level(gpu->0 as int);
    }
    assert forall|w: WarningView| !p.warnings.contains(w) by {}
    assert forall|w: WarningView| #[trigger]
        d.contains(w) <==> match w {
            WarningView::CpuSensorMissing => kind.has_cpu() && cpu is None,
            WarningView::GpuSensorMissing => kind.has_gpu() && gpu is None,
            WarningView::CpuIdleHot(t) => kind.has_cpu() && cpu == Some(t) && t > 65_000_000,
            WarningView::CpuIdleWarm(t) => kind.has_cpu() && cpu == Some(t) && 56_000_000 < t
                <= 65_000_000,
            WarningView::GpuIdleHot(t) => kind.has_gpu() && gpu == Some(t) && t > 65_000_000,
            WarningView::GpuIdleWarm(t) => kind.has_gpu() && gpu == Some(t) && 56_000_000 < t
                <= 65_000_000,
            _ => false,
        } by {
        assert(a.contains(w) <==> kind.has_cpu() && cpu is None && w == WarningView::CpuSensorMissing);
        assert(b.contains(w) <==> a.contains(w) || (kind.has_gpu() && gpu is None && w
            == WarningView::GpuSensorMissing));
        assert(c.contains(w) <==> b.contains(w) || (kind.has_cpu() && cpu is Some && ((cpu->0
            > 65_000_000 && w == WarningView::CpuIdleHot(cpu->0)) || (56_000_000 < cpu->0
            <= 65_000_000 && w == WarningView::CpuIdleWarm(cpu->0)))));
        assert(d.contains(w) <==> c.contains(w) || (kind.has_gpu() && gpu is Some && ((gpu->0
            > 65_000_000 && w == WarningView::GpuIdleHot(gpu->0)) || (56_000_000 < gpu->0
            <= 65_000_000 && w == WarningView::GpuIdleWarm(gpu->0)))));
    }
}

/// While the parts are under stress, each part's figures are of its own sensors,
/// from the start to now; a run looks at them at least four times a second, and
/// in time for its end.
pub proof fn lemma_collects_under_stress(
    p: ProgressView,
    kind: TestKind,
    r: Readings,
    status: StressView,
    now: u64,
)
    requires
        p.phase == Phase::Running,
        p.started is Some,
        p.ends is Some,
        p.started->0 <= now < p.ends->0,
    ensures
        ({
            let (q, next) = stepped(p, kind, r, status, false, now);
            &&& q.cpu == p.cpu.collected(
                r.cpu_temp@.samples,
                r.cpu_usage@.samples,
                p.started->0,
                now,
            )
            &&& q.gpu == p.gpu.collected(
                r.gpu_temp@.samples,
                r.gpu_usage@.samples,
                p.started->0,
                now,
            )
            &&& q.stress == status
            &&& next is Wait && 0 < next->Wait_0 <= 250_000_000
            &&& next->Wait_0 == 250_000_000 || now + next->Wait_0 == p.ends->0
            &&& q.phase == Phase::Running && q.stopped == p.stopped && q.series == p.series
        }),
{
}

/// A run that has been stopped waits a second and a half for late readings.  Then
/// it is over: its figures take in the late readings, and its curve is of the
/// parts that were tested, from the start to when it was stopped.
pub proof fn lemma_finishes_with_late_readings(
    p: ProgressView,
    kind: TestKind,
    r: Readings,
    status: StressView,
    stop: bool,
    now: u64,
)
    requires
        p.phase == Phase::Stopping,
        p.started is Some,
        p.stopped is Some,
        p.started->0 <= p.stopped->0 <= now,
    ensures
        ({
            let (q, next) = stepped(p, kind, r, status, stop, now);
            let late = p.stopped->0 + 1_500_000_000;
            let cpu = PartSamples { temp: &r.cpu_temp.samples, usage: &r.cpu_usage.samples };
            let gpu = PartSamples { temp: &r.gpu_temp.samples, usage: &r.gpu_usage.samples };
            &&& now < late ==> q == p && next is Wait && now + next->Wait_0 == late
            &&& now >= late ==> {
                &&& next == Step::Done && q.phase == Phase::Finished
                &&& q.stopped_early == p.stopped_early && q.stopped == p.stopped
                &&& q.cpu == p.cpu.collected(
                    r.cpu_temp@.samples,
                    r.cpu_usage@.samples,
                    p.started->0,
                    now,
                )
                &&& q.gpu == p.gpu.collected(
                    r.gpu_temp@.samples,
                    r.gpu_usage@.samples,
                    p.started->0,
                    now,
                )
                &&& kind == TestKind::Both ==> q.series == built(
                    Some(cpu),
                    Some(gpu),
                    p.started->0,
                    p.stopped->0,
                )
                &&& kind == TestKind::Cpu ==> q.series == built(
                    Some(cpu),
                    None,
                    p.started->0,
                    p.stopped->0,
                )
                &&& kind == TestKind::Gpu ==> q.series == built(
                    None,
                    Some(gpu),
                    p.started->0,
                    p.stopped->0,
                )
            }
        }),
{
}

/// How far a part warmed up is what its peak is above its idle temperature, to a
/// millionth, and is known exactly where both are.
pub proof fn lemma_rise(p: Part)
    ensures
        p.rise_of() is Some <==> p.peak is Some && p.idle is Some,
        p.rise_of() is Some ==> p.peak->0 - 1 <= p.idle->0 + p.rise_of()->0 <= p.peak->0 + 1,
        p.spread_of() is Some <==> p.peak is Some && p.low is Some,
        p.spread_of() is Some ==> p.peak->0 - 1 <= p.low->0 + p.spread_of()->0 <= p.peak->0 + 1,
{
    if p.peak is Some && p.idle is Some {
        lemma_minus(p.peak->0 as int, p.idle->0 as int);
    }
    if p.peak is Some && p.low is Some {
        lemma_minus(p.peak->0 as int, p.low->0 as int);
    }
}

// ---------------------------------------------------------------------------
// The whole run

/// What the controller sees in one round: the sensors, the workers, whether the
/// user stopped the run, the time, and when the workers had started if the
/// round starts them.
pub ghost struct Look {
    pub readings: Readings,
    pub status: StressView,
    pub stop: bool,
    pub now: u64,
    pub workers_at: u64,
}

/// The run after a round's step, before the workers are seen to.
pub open spec fn looked(p: ProgressView, kind: TestKind, l: Look) -> (ProgressView, Step) {
    stepped(p, kind, l.readings, l.status, l.stop, l.now)
}

/// The run after a round: where the step asks for the workers, they are started
/// and the run is told.
pub open spec fn advanced(p: ProgressView, kind: TestKind, duration: u64, l: Look) -> ProgressView {
    let (q, next) = looked(p, kind, l);
    if next == Step::StartStress {
        ProgressView {
            phase: Phase::Running,
            started: Some(l.workers_at),
            ends: Some((l.workers_at + duration) as u64),
            ..q
        }
    } else {
        q
    }
}

/// The run after its first `n` rounds.
pub open spec fn run_after(kind: TestKind, duration: u64, looks: Seq<Look>, n: int) -> ProgressView
    decreases n,
{
    if n <= 0 {
        ProgressView::begun()
    } else {
        advanced(run_after(kind, duration, looks, n - 1), kind, duration, looks[n - 1])
    }
}

/// The place of a phase in their order.
pub open spec fn phase_rank(p: Phase) -> int {
    match p {
        Phase::Starting => 0,
        Phase::Running => 1,
        Phase::Stopping => 2,
        Phase::Finished => 3,
    }
}

/// The clock has room for the duration in every round.
pub open spec fn clock_holds(duration: u64, looks: Seq<Look>) -> bool {
    forall|i: int|
        0 <= i < looks.len() ==> (#[trigger] looks[i]).workers_at + duration <= u64::MAX
}

/// What holds of a run at all times: it has a start just when it was under
/// stress, its end stands the duration behind it, and one that ended without a
/// start was stopped.
pub open spec fn run_sound(p: ProgressView, duration: u64) -> bool {
    &&& p.started is Some <==> p.ends is Some
    &&& p.started is Some ==> p.ends->0 == p.started->0 + duration
    &&& p.phase == Phase::Starting ==> p.started is None
    &&& p.phase == Phase::Running || p.phase == Phase::Stopping ==> p.started is Some
    &&& p.phase == Phase::Stopping ==> p.stopped is Some
    &&& p.phase == Phase::Finished && p.started is None ==> p.stopped_early
}

/// What a later state keeps of an earlier one: the phase only moves forward,
/// and a start and an end that are set stay as they are.
pub open spec fn run_keeps(p: ProgressView, q: ProgressView) -> bool {
    &&& phase_rank(p.phase) <= phase_rank(q.phase)
    &&& p.started is Some ==> q.started == p.started && q.ends == p.ends
}

/// Whatever the sensors do and however late they are: once the stress has
/// started its start and end are fixed, the end stands the duration behind the
/// start, and the phases come in their order.  It holds after every round, and
/// within one, between the step and the start of the workers.
pub proof fn lemma_run(kind: TestKind, duration: u64, looks: Seq<Look>, m: int, n: int)
    requires
        0 <= m <= n <= looks.len(),
        clock_holds(duration, looks),
    ensures
        run_sound(run_after(kind, duration, looks, n), duration),
        run_keeps(run_after(kind, duration, looks, m), run_after(kind, duration, looks, n)),
        n < looks.len() ==> ({
            let p = run_after(kind, duration, looks, n);
            let within = looked(p, kind, looks[n]).0;
            &&& run_sound(within, duration)
            &&& run_keeps(p, within)
            &&& run_keeps(within, run_after(kind, duration, looks, n + 1))
        }),
    decreases n,
{
    if n > 0 {
        lemma_run(kind, duration, looks, if m < n {
            m
        } else {
            m - 1
        }, n - 1);
        assert(looks[n - 1].workers_at + duration <= u64::MAX);
    }
}

/// A run that is stopped before the stress is over at once, counts as stopped
/// early, and never has a start.
pub proof fn lemma_stopped_before_stress(
    kind: TestKind,
    duration: u64,
    looks: Seq<Look>,
    m: int,
    n: int,
)
    requires
        0 <= m < n <= looks.len(),
        run_after(kind, duration, looks, m).phase == Phase::Starting,
        looks[m].stop,
        clock_holds(duration, looks),
    ensures
        ({
            let q = run_after(kind, duration, looks, n);
            q.phase == Phase::Finished && q.stopped_early && q.started is None
        }),
    decreases n,
{
    if n > m + 1 {
        lemma_stopped_before_stress(kind, duration, looks, m, n - 1);
    } else {
        lemma_run(kind, duration, looks, m, m);
    }
}

/// The time at which a run moves on by itself, if it is known yet.
pub open spec fn moves_at(p: ProgressView) -> Option<int> {
    match p.phase {
        Phase::Starting => match p.wait_until {
            Some(t) => Some(t as int),
            None => None,
        },
        Phase::Running => Some(p.ends->0 as int),
        Phase::Stopping => Some(p.stopped->0 + SENSOR_LAG),
        Phase::Finished => None,
    }
}

/// A round that is late enough moves a run on to its next phase.
pub open spec fn late(p: ProgressView, l: Look) -> bool {
    moves_at(p) is Some ==> l.now >= moves_at(p)->0
}

/// How far a run has come: a start that is waited for, whose end is not known
/// yet or is, and the later phases.
pub open spec fn stage(p: ProgressView) -> int {
    match p.phase {
        Phase::Starting => if p.wait_until is None {
            0
        } else {
            1
        },
        Phase::Running => 2,
        Phase::Stopping => 3,
        Phase::Finished => 4,
    }
}

/// A round that is late enough takes a run a stage further, until it is over.
#[verifier::spinoff_prover]
proof fn lemma_late(p: ProgressView, kind: TestKind, duration: u64, l: Look)
    requires
        late(p, l),
        run_sound(p, duration),
    ensures
        stage(advanced(p, kind, duration, l)) > stage(p) || stage(
            advanced(p, kind, duration, l),
        ) == 4,
{
}

/// After so many rounds that are late enough, a run has come as many stages.
#[verifier::spinoff_prover]
proof fn lemma_stages(kind: TestKind, duration: u64, looks: Seq<Look>, n: int, rounds: int)
    requires
        0 <= n,
        0 <= rounds <= 4,
        n + rounds <= looks.len(),
        clock_holds(duration, looks),
        forall|i: int|
            n <= i < n + rounds ==> late(run_after(kind, duration, looks, i), #[trigger] looks[i]),
    ensures
        stage(run_after(kind, duration, looks, n + rounds)) >= rounds,
    decreases rounds,
{
    if rounds > 0 {
        let p = run_after(kind, duration, looks, n + rounds - 1);
        let l = looks[n + rounds - 1];
        lemma_stages(kind, duration, looks, n, rounds - 1);
        lemma_run(kind, duration, looks, n, n + rounds - 1);
        assert(late(p, l));
        lemma_late(p, kind, duration, l);
        assert(run_after(kind, duration, looks, n + rounds) == advanced(p, kind, duration, l));
    }
}

/// Every run ends: four rounds of which each is late enough finish it, from
/// whatever state it is in.
#[verifier::spinoff_prover]
pub proof fn lemma_run_ends(kind: TestKind, duration: u64, looks: Seq<Look>, n: int)
    requires
        0 <= n,
        n + 4 <= looks.len(),
        clock_holds(duration, looks),
        forall|i: int|
            n <= i < n + 4 ==> late(run_after(kind, duration, looks, i), #[trigger] looks[i]),
    ensures
        run_after(kind, duration, looks, n + 4).phase == Phase::Finished,
{
    lemma_stages(kind, duration, looks, n, 4);
}

// ---------------------------------------------------------------------------
// Verdict

/// What can be submitted from a finished run.
#[derive(Debug, Clone, Copy, PartialEq, Eq, Structural)]
pub struct Verdict {
    pub kind: Option<TestKind>,
    pub cpu_ok: bool,
    pub gpu_ok: bool,
}

/// The parts that can be submitted, as a kind of test.
pub open spec fn kind_of(cpu: bool, gpu: bool) -> Option<TestKind> {
    if cpu && gpu {
        Some(TestKind::Both)
    } else if cpu {
        Some(TestKind::Cpu)
    } else if gpu {
        Some(TestKind::Gpu)
    } else {
        None
    }
}

/// What can be submitted: the parts that were tested and have valid figures,
/// the GPU only if it was under stress; nothing of a run that was stopped
/// early or is not over.
pub open spec fn judgement(kind: TestKind, p: ProgressView) -> Verdict {
    let cpu_ok = kind.has_cpu() && p.cpu.valid();
    let gpu_ok = kind.has_gpu() && p.stress.gpu is Running && p.gpu.valid();
    Verdict {
        kind: if p.stopped_early || p.phase != Phase::Finished {
            None
        } else {
            kind_of(cpu_ok, gpu_ok)
        },
        cpu_ok,
        gpu_ok,
    }
}

/// Tells what can be submitted from a run.
pub fn verdict(kind: TestKind, p: &Progress) -> (r: Verdict)
    ensures
        r == judgement(kind, p@),
{
    let cpu_ok = kind.cpu() && p.cpu.is_valid();
    let gpu_ok = kind.gpu() && p.stress.gpu.is_running() && p.gpu.is_valid();
    let submitted = if p.stopped_early || p.phase != Phase::Finished {
        None
    } else if cpu_ok && gpu_ok {
        Some(TestKind::Both)
    } else if cpu_ok {
        Some(TestKind::Cpu)
    } else if gpu_ok {
        Some(TestKind::Gpu)
    } else {
        None
    };
    Verdict { kind: submitted, cpu_ok, gpu_ok }
}

/// A run that was stopped early is never submitted, and what is submitted was
/// tested and has valid figures.
pub proof fn lemma_verdict(kind: TestKind, p: ProgressView)
    ensures
        p.stopped_early ==> judgement(kind, p).kind is None,
        p.phase != Phase::Finished ==> judgement(kind, p).kind is None,
        match judgement(kind, p).kind {
            Some(k) => {
                &&& k.has_cpu() ==> kind.has_cpu() && p.cpu.valid()
                &&& k.has_gpu() ==> kind.has_gpu() && p.gpu.valid() && p.stress.gpu is Running
            },
            None => true,
        },
{
}

/// A part's figures are in order: it was warmer under load than before, which
/// was above zero, and no hotter than 125 °C.
pub open spec fn in_order(p: Part) -> bool {
    p.idle is Some && p.peak is Some && 0 < p.idle->0 < p.peak->0 && p.peak->0 <= 125_000_000
}

/// What is submitted of a run that is over and was not stopped: each part that
/// was tested and whose figures are in order, the GPU only where it was under
/// stress.
pub proof fn lemma_submitted_parts(kind: TestKind, p: ProgressView)
    ensures
        ({
            let v = judgement(kind, p);
            let cpu = (kind == TestKind::Cpu || kind == TestKind::Both) && in_order(p.cpu);
            let gpu = (kind == TestKind::Gpu || kind == TestKind::Both) && in_order(p.gpu)
                && p.stress.gpu is Running;
            let over = p.phase == Phase::Finished && !p.stopped_early;
            &&& v.cpu_ok == cpu && v.gpu_ok == gpu
            &&& v.kind is Some <==> over && (cpu || gpu)
            &&& v.kind is Some ==> {
                &&& cpu == (v.kind->0 == TestKind::Cpu || v.kind->0 == TestKind::Both)
                &&& gpu == (v.kind->0 == TestKind::Gpu || v.kind->0 == TestKind::Both)
            }
        }),
{
}

} // verus!
