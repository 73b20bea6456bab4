//! The figures of a run and its result: cells, charts, checks and how a result
//! compares with others.
use vstd::prelude::*;

use crate::api::{entry_of, CompareEntry, EntryView};
use crate::app::{DiagStage, DiagState};
use crate::decimal::{
    push_signed, push_tenths, push_whole, shown_signed, shown_tenths, shown_whole, LIMIT,
};
use crate::engine::{value_wf, warning_views, Part, TestKind, Verdict, Warning, WarningView};
use crate::fixed::UNIT;
use crate::form::{celsius_or_none, Form, FormView, LaunchOptions};
use crate::nearest::{lemma_minus, minus, subtract};
use crate::text::{begins, chars_of, contains, occurs, owned, same, starts_with, text_of, text_or};
use crate::ui::{degrees, fmt_temp, Tone};

verus! {

// ---------------------------------------------------------------------------
// Cells

/// A temperature, or that there is none.
pub open spec fn temp_or_none(v: Option<i64>) -> Seq<char> {
    match v {
        Some(t) => degrees(t as int),
        None => "--"@,
    }
}

/// Formats a temperature that may be missing.
pub fn temp_cell(v: Option<i64>) -> (r: String)
    ensures
        r@ == temp_or_none(v),
{
    match v {
        Some(t) => fmt_temp(t),
        None => owned("--"),
    }
}

/// The figure without its unit, or that there is none.
pub fn now_text(v: Option<i64>) -> (r: String)
    ensures
        r@ == (match v {
            Some(t) => shown_tenths(t as int),
            None => "--"@,
        }),
{
    match v {
        Some(t) => {
            let mut r = String::new();
            push_tenths(&mut r, t);
            assert(r@ =~= shown_tenths(t as int));
            r
        },
        None => owned("--"),
    }
}

/// How far a temperature rose, with a sign, or that it is not known.
pub fn rise_cell(p: &Part) -> (r: String)
    requires
        p.wf(),
    ensures
        r@ == (match p.rise_of() {
            Some(d) => shown_signed(d),
            None => "--"@,
        }),
{
    match p.rise() {
        Some(d) => {
            let mut r = String::new();
            push_signed(&mut r, d);
            assert(r@ =~= shown_signed(d as int));
            r
        },
        None => owned("--"),
    }
}

/// A load in whole percent, or that it is not known.
pub fn load_cell(v: Option<i64>) -> (r: String)
    ensures
        r@ == (match v {
            Some(u) => shown_whole(u as int) + "%"@,
            None => "--"@,
        }),
{
    match v {
        Some(u) => {
            let mut r = String::new();
            push_whole(&mut r, u);
            r.append("%");
            assert(r@ =~= shown_whole(u as int) + "%"@);
            r
        },
        None => owned("--"),
    }
}

// ---------------------------------------------------------------------------
// Charts

/// The smallest of some values.
pub open spec fn smallest(s: Seq<i64>) -> int
    decreases s.len(),
{
    if s.len() <= 1 {
        s[0] as int
    } else {
        let m = smallest(s.drop_last());
        if s.last() < m {
            s.last() as int
        } else {
            m
        }
    }
}

/// The largest of some values.
pub open spec fn largest(s: Seq<i64>) -> int
    decreases s.len(),
{
    if s.len() <= 1 {
        s[0] as int
    } else {
        let m = largest(s.drop_last());
        if s.last() > m {
            s.last() as int
        } else {
            m
        }
    }
}

/// Five degrees.
pub const STEP: i64 = 5_000_000;

/// A chart's lowest and highest temperature: whole steps of five degrees with
/// one to spare on either side, and at least twenty degrees in all; 30 to 90
/// where there is nothing to show.
pub open spec fn scale_of(values: Seq<i64>) -> (int, int) {
    if values.len() == 0 {
        (30 * UNIT as int, 90 * UNIT as int)
    } else {
        let lo = smallest(values) / STEP as int * STEP - STEP;
        let hi = -((-largest(values)) / STEP as int) * STEP + STEP;
        if hi - lo < 20 * UNIT {
            ((hi + lo) / 2 - 10 * UNIT, (hi + lo) / 2 + 10 * UNIT)
        } else {
            (lo, hi)
        }
    }
}

/// `v / STEP`, rounded down.
fn steps_below(v: i64) -> (r: i64)
    requires
        -LIMIT <= v <= LIMIT,
    ensures
        r == v as int / STEP as int,
{
    if v >= 0 {
        v / STEP
    } else {
        let n: i64 = -v;
        let q: i64 = (n + (STEP - 1)) / STEP;
        assert(-q == v as int / STEP as int) by (nonlinear_arith)
            requires
                q == (n + (STEP - 1)) / STEP as int,
                n == -v,
                n > 0,
                STEP == 5_000_000,
        ;
        -q
    }
}

/// Tells a chart's lowest and highest temperature.
pub fn chart_bounds(values: &Vec<i64>) -> (r: (i64, i64))
    requires
        forall|i: int| 0 <= i < values@.len() ==> -LIMIT <= #[trigger] values@[i] <= LIMIT,
    ensures
        (r.0 as int, r.1 as int) == scale_of(values@),
{
    if values.len() == 0 {
        return (30 * UNIT, 90 * UNIT);
    }
    let mut low: i64 = values[0];
    let mut high: i64 = values[0];
    let mut i: usize = 1;
    assert(-LIMIT <= values@[0] <= LIMIT);
    while i < values.len()
        invariant
            1 <= i <= values.len(),
            forall|i: int| 0 <= i < values@.len() ==> -LIMIT <= #[trigger] values@[i] <= LIMIT,
            -LIMIT <= low <= LIMIT,
            -LIMIT <= high <= LIMIT,
            low == smallest(values@.take(i as int)),
            high == largest(values@.take(i as int)),
        decreases values.len() - i,
    {
        let v: i64 = values[i];
        proof {
            assert(values@.take(i + 1).drop_last() =~= values@.take(i as int));
            assert(values@.take(i + 1).last() == v);
        }
        if v < low {
            low = v;
        }
        if v > high {
            high = v;
        }
        i = i + 1;
    }
    assert(values@.take(values@.len() as int) =~= values@);
    let below: i64 = steps_below(low);
    let above: i64 = steps_below(-high);
    assert(-LIMIT - STEP <= below * STEP <= LIMIT && -LIMIT - STEP <= above * STEP <= LIMIT)
        by (nonlinear_arith)
        requires
            below == low as int / STEP as int,
            above == -(high as int) / STEP as int,
            -LIMIT <= low <= LIMIT,
            -LIMIT <= high <= LIMIT,
            STEP == 5_000_000,
    ;
    let lo: i64 = below * STEP - STEP;
    assert(-above * STEP == -(above * STEP)) by (nonlinear_arith);
    let hi: i64 = -(above * STEP) + STEP;
    assert(lo + 2 * STEP <= hi + 2 * STEP) by {
        lemma_scale_holds(values@);
    }
    if hi - lo < 20 * UNIT {
        // Both are whole steps, so that half their sum is a whole number.
        let sum: i64 = hi + lo;
        assert((below - above) * STEP == below * STEP - above * STEP) by (nonlinear_arith);
        let k: i64 = below - above;
        let mid: i64 = k * (STEP / 2);
        assert(k * 5_000_000 == 2 * (k * 2_500_000)) by (nonlinear_arith);
        (mid - 10 * UNIT, mid + 10 * UNIT)
    } else {
        (lo, hi)
    }
}

proof fn lemma_smallest(s: Seq<i64>, i: int)
    requires
        0 <= i < s.len(),
    ensures
        smallest(s) <= s[i] <= largest(s),
    decreases s.len(),
{
    if s.len() > 1 && i < s.len() - 1 {
        lemma_smallest(s.drop_last(), i);
        assert(s.drop_last()[i] == s[i]);
    }
}

/// A chart shows all its values, over at least twenty degrees.
pub proof fn lemma_scale_holds(values: Seq<i64>)
    ensures
        scale_of(values).1 - scale_of(values).0 >= 20 * UNIT,
        forall|i: int|
            0 <= i < values.len() ==> scale_of(values).0 <= #[trigger] values[i] <= scale_of(values).1,
{
    if values.len() > 0 {
        let a = smallest(values);
        let b = largest(values);
        let lo = a / STEP as int * STEP - STEP;
        let hi = -((-b) / STEP as int) * STEP + STEP;
        assert(lo <= a && b <= hi) by (nonlinear_arith)
            requires
                lo == a / STEP as int * STEP - STEP,
                hi == -((-b) / STEP as int) * STEP + STEP,
                STEP == 5_000_000,
        ;
        lemma_smallest(values, 0);
        assert forall|i: int| 0 <= i < values.len() implies scale_of(values).0 <= #[trigger] values[i]
            <= scale_of(values).1 by {
            lemma_smallest(values, i);
        }
    }
}

/// The scale leaves at least 5 °C, and less than 10 °C, on either side of what is
/// drawn, unless that would be less than 20 °C in all; then it is 20 °C.
pub proof fn lemma_scale_is_close(values: Seq<i64>, least: int, most: int)
    requires
        values.len() > 0,
        exists|i: int| 0 <= i < values.len() && #[trigger] values[i] == least,
        exists|i: int| 0 <= i < values.len() && #[trigger] values[i] == most,
        forall|i: int| 0 <= i < values.len() ==> least <= #[trigger] values[i] <= most,
    ensures
        ({
            let (lo, hi) = scale_of(values);
            &&& hi - lo == 20_000_000 || (least - 10_000_000 < lo <= least - 5_000_000 && most
                + 5_000_000 <= hi < most + 10_000_000)
            &&& hi - lo == 20_000_000 ==> lo <= least && most <= hi
        }),
{
    lemma_scale_holds(values);
    lemma_smallest_is_one(values);
    let i = choose|i: int| 0 <= i < values.len() && #[trigger] values[i] == least;
    let j = choose|j: int| 0 <= j < values.len() && #[trigger] values[j] == most;
    lemma_smallest(values, i);
    lemma_smallest(values, j);
    assert(smallest(values) == least && largest(values) == most);
    let lo = least / STEP as int * STEP - STEP;
    let hi = -((-most) / STEP as int) * STEP + STEP;
    assert(least - 10_000_000 < lo <= least - 5_000_000 && most + 5_000_000 <= hi < most
        + 10_000_000) by (nonlinear_arith)
        requires
            lo == least / STEP as int * STEP - STEP,
            hi == -((-most) / STEP as int) * STEP + STEP,
            STEP == 5_000_000,
    ;
}

proof fn lemma_smallest_is_one(s: Seq<i64>)
    requires
        s.len() > 0,
    ensures
        exists|i: int| 0 <= i < s.len() && #[trigger] s[i] == smallest(s),
        exists|i: int| 0 <= i < s.len() && #[trigger] s[i] == largest(s),
    decreases s.len(),
{
    if s.len() > 1 {
        let f = s.drop_last();
        lemma_smallest_is_one(f);
        let i = choose|i: int| 0 <= i < f.len() && #[trigger] f[i] == smallest(f);
        let j = choose|j: int| 0 <= j < f.len() && #[trigger] f[j] == largest(f);
        assert(s[i] == f[i] && s[j] == f[j]);
        assert(s[s.len() - 1] == s.last());
    } else {
        assert(s[0] == smallest(s));
    }
}

/// The rows that a chart needs for the idle line to read as one.
pub const IDLE_LINE_ROWS: u16 = 6;

// ---------------------------------------------------------------------------
// Large figures

/// A row of a large character.
pub open spec fn glyph(c: char, row: int) -> Seq<char> {
    if c == '0' {
        three("█▀█"@, "█ █"@, "▀▀▀"@, row)
    } else if c == '1' {
        three("▀█ "@, " █ "@, "▀▀▀"@, row)
    } else if c == '2' {
        three("▀▀█"@, "█▀▀"@, "▀▀▀"@, row)
    } else if c == '3' {
        three("▀▀█"@, " ▀█"@, "▀▀▀"@, row)
    } else if c == '4' {
        three("█ █"@, "▀▀█"@, "  ▀"@, row)
    } else if c == '5' {
        three("█▀▀"@, "▀▀█"@, "▀▀▀"@, row)
    } else if c == '6' {
        three("█▀▀"@, "█▀█"@, "▀▀▀"@, row)
    } else if c == '7' {
        three("▀▀█"@, "  █"@, "  ▀"@, row)
    } else if c == '8' {
        three("█▀█"@, "█▀█"@, "▀▀▀"@, row)
    } else if c == '9' {
        three("█▀█"@, "▀▀█"@, "▀▀▀"@, row)
    } else if c == '.' {
        three(" "@, " "@, "▀"@, row)
    } else if c == '-' {
        three("   "@, "▀▀▀"@, "   "@, row)
    } else {
        "   "@
    }
}

/// One of three rows.
pub open spec fn three(a: Seq<char>, b: Seq<char>, c: Seq<char>, row: int) -> Seq<char> {
    if row == 0 {
        a
    } else if row == 1 {
        b
    } else {
        c
    }
}

fn pick_row(a: &'static str, b: &'static str, c: &'static str, row: usize) -> (r: &'static str)
    ensures
        r@ == three(a@, b@, c@, row as int),
{
    if row == 0 {
        a
    } else if row == 1 {
        b
    } else {
        c
    }
}

fn glyph_row(c: char, row: usize) -> (r: &'static str)
    ensures
        r@ == glyph(c, row as int),
{
    match c {
        '0' => pick_row("█▀█", "█ █", "▀▀▀", row),
        '1' => pick_row("▀█ ", " █ ", "▀▀▀", row),
        '2' => pick_row("▀▀█", "█▀▀", "▀▀▀", row),
        '3' => pick_row("▀▀█", " ▀█", "▀▀▀", row),
        '4' => pick_row("█ █", "▀▀█", "  ▀", row),
        '5' => pick_row("█▀▀", "▀▀█", "▀▀▀", row),
        '6' => pick_row("█▀▀", "█▀█", "▀▀▀", row),
        '7' => pick_row("▀▀█", "  █", "  ▀", row),
        '8' => pick_row("█▀█", "█▀█", "▀▀▀", row),
        '9' => pick_row("█▀█", "▀▀█", "▀▀▀", row),
        '.' => pick_row(" ", " ", "▀", row),
        '-' => pick_row("   ", "▀▀▀", "   ", row),
        _ => "   ",
    }
}

/// A row of the first `n` characters, with a blank between each two.
pub open spec fn large_row(s: Seq<char>, row: int, n: int) -> Seq<char>
    decreases n,
{
    if n <= 0 {
        Seq::empty()
    } else {
        large_row(s, row, n - 1) + (if n > 1 {
            seq![' ']
        } else {
            Seq::empty()
        }) + glyph(s[n - 1], row)
    }
}

/// A row of large figures, three of which make up the text.
pub fn big_digits(text: &str, row: usize) -> (r: String)
    ensures
        r@ == large_row(text@, row as int, text@.len() as int),
{
    let cs: Vec<char> = chars_of(text);
    let mut r = String::new();
    let mut i: usize = 0;
    assert(r@ =~= large_row(text@, row as int, 0));
    while i < cs.len()
        invariant
            i <= cs.len(),
            cs@ == text@,
            r@ == large_row(text@, row as int, i as int),
        decreases cs.len() - i,
    {
        if i > 0 {
            r.push(' ');
        }
        r.append(glyph_row(cs[i], row));
        i = i + 1;
        assert(r@ =~= large_row(text@, row as int, i as int));
    }
    r
}

// ---------------------------------------------------------------------------
// Details and checks

/// A detail of the machine, as it was told.
#[derive(Debug, Clone)]
pub enum Detail {
    Laptop(String),
    Cooling { kind: String, model: Option<String> },
    Room(i64),
}

/// A detail's contents.
pub ghost enum DetailView {
    Laptop(Seq<char>),
    Cooling { kind: Seq<char>, model: Option<Seq<char>> },
    Room(int),
}

impl View for Detail {
    type V = DetailView;

    open spec fn view(&self) -> DetailView {
        match *self {
            Detail::Laptop(s) => DetailView::Laptop(s@),
            Detail::Cooling { kind, model } => DetailView::Cooling {
                kind: kind@,
                model: text_of(model),
            },
            Detail::Room(v) => DetailView::Room(v as int),
        }
    }
}

/// The contents of details.
pub open spec fn detail_views(v: Seq<Detail>) -> Seq<DetailView> {
    v.map_values(|d: Detail| d@)
}

/// What was told of the machine: a laptop's model, a desktop's cooling.
pub open spec fn machine_detail(f: FormView, laptop: bool) -> Option<DetailView> {
    if laptop {
        match f.laptop_model.entry() {
            Some(m) => Some(DetailView::Laptop(m)),
            None => None,
        }
    } else {
        match f.cooling_for(false, None) {
            Some(c) => Some(DetailView::Cooling { kind: c, model: f.cooler_model.entry() }),
            None => None,
        }
    }
}

/// What was told of the machine and its room.
pub open spec fn details_of(f: FormView, laptop: bool) -> Seq<DetailView> {
    (match machine_detail(f, laptop) {
        Some(d) => seq![d],
        None => Seq::empty(),
    }) + (match celsius_or_none(f.room()) {
        Some(c) => seq![DetailView::Room(c)],
        None => Seq::empty(),
    })
}

/// Of a laptop its model is shown and no cooler, of others no laptop's model.
pub proof fn lemma_details_fit_the_machine(f: FormView, laptop: bool, i: int)
    requires
        0 <= i < details_of(f, laptop).len(),
    ensures
        details_of(f, laptop)[i] is Laptop ==> laptop,
        details_of(f, laptop)[i] is Cooling ==> !laptop,
{
}

/// Tells what was told of the machine and its room.
pub fn details(form: &Form, laptop: bool, opts: &LaunchOptions) -> (r: Vec<Detail>)
    requires
        form@.wf(),
    ensures
        detail_views(r@) == details_of(form@, laptop),
{
    let mut r: Vec<Detail> = Vec::new();
    let ghost mut out: Seq<DetailView> = Seq::empty();
    assert(detail_views(r@) =~= out);
    if laptop {
        if let Some(m) = form.laptop_model.trimmed() {
            proof {
                out = seq![DetailView::Laptop(m@)];
            }
            r.push(Detail::Laptop(m));
        }
    } else {
        if let Some(kind) = form.cooling_type(false, opts) {
            let model = form.cooler_model.trimmed();
            proof {
                out = seq![DetailView::Cooling { kind: kind@, model: text_of(model) }];
            }
            r.push(Detail::Cooling { kind, model });
        }
    }
    assert(detail_views(r@) =~= out);
    let ghost before = r@;
    if let Some(c) = form.ambient_or_none() {
        r.push(Detail::Room(c));
        assert(detail_views(r@) =~= detail_views(before).push(DetailView::Room(c as int)));
    }
    assert(detail_views(r@) =~= details_of(form@, laptop));
    r
}

fn is_flat(w: &Warning, gpu: bool) -> (r: bool)
    ensures
        r == (w@ == if gpu {
            WarningView::GpuTempFlat
        } else {
            WarningView::CpuTempFlat
        }),
{
    match w {
        Warning::CpuTempFlat => !gpu,
        Warning::GpuTempFlat => gpu,
        _ => false,
    }
}

/// A part's readings are shown as good.
pub open spec fn part_good(gpu: bool, kind: TestKind, v: Verdict, ws: Seq<WarningView>) -> bool {
    if gpu {
        kind.has_gpu() && v.gpu_ok && !ws.contains(WarningView::GpuTempFlat)
    } else {
        kind.has_cpu() && v.cpu_ok && !ws.contains(WarningView::CpuTempFlat)
    }
}

/// A part's readings are good exactly where it was tested and passed, and are not
/// warned of as flat; the other part does not matter to it.
pub proof fn lemma_part_good(kind: TestKind, v: Verdict, ws: Seq<WarningView>)
    ensures
        part_good(false, kind, v, ws) <==> kind != TestKind::Gpu && v.cpu_ok && !ws.contains(
            WarningView::CpuTempFlat,
        ),
        part_good(true, kind, v, ws) <==> kind != TestKind::Cpu && v.gpu_ok && !ws.contains(
            WarningView::GpuTempFlat,
        ),
{
}

/// Whether a part's readings are shown as good: it was tested, its figures are
/// valid, and it moved under load.
pub fn is_part_good(gpu: bool, kind: TestKind, v: Verdict, warnings: &Vec<Warning>) -> (r: bool)
    ensures
        r == part_good(gpu, kind, v, warning_views(warnings@)),
{
    let tested = if gpu {
        kind.gpu() && v.gpu_ok
    } else {
        kind.cpu() && v.cpu_ok
    };
    let ghost flat = if gpu {
        WarningView::GpuTempFlat
    } else {
        WarningView::CpuTempFlat
    };
    let ghost all = warning_views(warnings@);
    let mut i: usize = 0;
    while i < warnings.len()
        invariant
            i <= warnings.len(),
            all == warning_views(warnings@),
            flat == if gpu {
                WarningView::GpuTempFlat
            } else {
                WarningView::CpuTempFlat
            },
            forall|j: int| 0 <= j < i ==> #[trigger] all[j] != flat,
        decreases warnings.len() - i,
    {
        assert(all[i as int] == warnings@[i as int]@);
        if is_flat(&warnings[i], gpu) {
            return false;
        }
        i = i + 1;
    }
    tested
}

// ---------------------------------------------------------------------------
// Comparison

/// How a temperature compares with the average.
#[derive(Debug, Clone, Copy, PartialEq, Eq, Structural)]
pub enum Outcome {
    Same,
    Cooler(i64),
    Warmer(i64),
}

/// How a temperature compares with the average: within half a degree it is the
/// same.
pub open spec fn outcome_of(yours: int, avg: int) -> Outcome {
    let d = minus(yours, avg);
    if -UNIT < 2 * d < UNIT {
        Outcome::Same
    } else if d < 0 {
        Outcome::Cooler((-d) as i64)
    } else {
        Outcome::Warmer(d as i64)
    }
}

/// A line on how a part compares.
#[derive(Debug, Clone)]
pub enum CompareLine {
    /// With the average of others; no model where the models are only similar.
    Average { yours: i64, avg: i64, model: Option<String>, count: u64, outcome: Outcome },
    /// The first result of this model.
    First { part: String },
}

/// The contents of a line.
pub ghost enum CompareLineView {
    Average { yours: int, avg: int, model: Option<Seq<char>>, count: int, outcome: Outcome },
    First { part: Seq<char> },
}

impl View for CompareLine {
    type V = CompareLineView;

    open spec fn view(&self) -> CompareLineView {
        match *self {
            CompareLine::Average { yours, avg, model, count, outcome } => CompareLineView::Average {
                yours: yours as int,
                avg: avg as int,
                model: text_of(model),
                count: count as int,
                outcome,
            },
            CompareLine::First { part } => CompareLineView::First { part: part@ },
        }
    }
}

/// A model's name, blank where it is not given.
pub open spec fn model_name(m: Option<Seq<char>>) -> Seq<char> {
    match m {
        Some(s) => s,
        None => ""@,
    }
}

/// How a part compares, where it was valid and there is an entry for it: with
/// the average where there is one of at least two results.
pub open spec fn line_of(e: Option<EntryView>, yours: Option<i64>, ok: bool) -> Option<
    CompareLineView,
> {
    match (e, yours) {
        (Some(x), Some(y)) if ok => Some(
            if x.avg_load is Some && x.count is Some && x.count->0 > 1 {
                CompareLineView::Average {
                    yours: y as int,
                    avg: x.avg_load->0,
                    model: if x.scope == Some("exact"@) {
                        Some(model_name(x.model))
                    } else {
                        None
                    },
                    count: x.count->0,
                    outcome: outcome_of(y as int, x.avg_load->0),
                }
            } else {
                CompareLineView::First { part: model_name(x.model) }
            },
        ),
        _ => None,
    }
}

/// A part is compared exactly where it was tested well, measured, and the reply
/// tells of it; with an average only where that is of more than one result, and
/// with one model's only where it is exactly that model's.
pub proof fn lemma_compared(e: EntryView, yours: i64)
    ensures
        line_of(Some(e), Some(yours), false) is None,
        line_of(None, Some(yours), true) is None,
        line_of(Some(e), None, true) is None,
        match line_of(Some(e), Some(yours), true) {
            Some(CompareLineView::Average { yours: y, avg, model, count, outcome }) => {
                &&& y == yours
                &&& e.avg_load == Some(avg)
                &&& e.count == Some(count) && count >= 2
                &&& model is Some <==> e.scope == Some("exact"@)
                &&& model is Some && e.model is Some ==> model == e.model
                &&& outcome is Cooler ==> yours < avg
                &&& outcome is Warmer ==> yours > avg
                &&& yours == avg ==> outcome == Outcome::Same
            },
            Some(CompareLineView::First { part }) => (e.avg_load is None || e.count is None
                || e.count->0 < 2) && (e.model is Some ==> e.model == Some(part)),
            None => false,
        },
{
    if e.avg_load is Some {
        lemma_minus(yours as int, e.avg_load->0);
    }
}

fn compare_outcome(yours: i64, avg: i64) -> (r: Outcome)
    requires
        -LIMIT <= yours <= LIMIT,
        -LIMIT <= avg <= LIMIT,
    ensures
        r == outcome_of(yours as int, avg as int),
{
    let d: i64 = subtract(yours, avg);
    proof {
        lemma_minus(yours as int, avg as int);
    }
    if -UNIT < 2 * d && 2 * d < UNIT {
        Outcome::Same
    } else if d < 0 {
        Outcome::Cooler(-d)
    } else {
        Outcome::Warmer(d)
    }
}

/// The contents of an optional line.
pub open spec fn line_view(l: Option<CompareLine>) -> Option<CompareLineView> {
    match l {
        Some(x) => Some(x@),
        None => None,
    }
}

/// Tells how a part compares.
pub fn compare_line(e: &Option<CompareEntry>, yours: Option<i64>, ok: bool) -> (r: Option<CompareLine>)
    requires
        value_wf(yours),
        *e is Some ==> (*e)->0.wf(),
    ensures
        line_view(r) == line_of(entry_of(*e), yours, ok),
{
    if !ok {
        return None;
    }
    match (e, yours) {
        (Some(x), Some(y)) => {
            let count: u64 = match x.count {
                Some(n) => n,
                None => 0,
            };
            match x.avg_load {
                Some(avg) => {
                    if count > 1 {
                        let exact = match &x.scope {
                            Some(s) => same(s.as_str(), "exact"),
                            None => false,
                        };
                        let model = if exact {
                            Some(text_or(&x.model, ""))
                        } else {
                            None
                        };
                        return Some(
                            CompareLine::Average {
                                yours: y,
                                avg,
                                model,
                                count,
                                outcome: compare_outcome(y, avg),
                            },
                        );
                    }
                },
                None => {},
            }
            Some(CompareLine::First { part: text_or(&x.model, "") })
        },
        _ => None,
    }
}

/// Where a result ranks among others of the exact model.
#[derive(Debug, Clone, Copy, PartialEq, Eq, Structural)]
pub struct Rank {
    /// The share of results that are hotter, in percent.
    pub cooler_than: i64,
    pub count: u64,
}

/// Where a part ranks, where it was valid and the server has enough results of
/// its model.
pub open spec fn rank_of(e: Option<EntryView>, ok: bool) -> Option<(int, int)> {
    match e {
        Some(x) if ok => match x.standing {
            Some((cooler_than, _, count)) => Some((cooler_than, count)),
            None => None,
        },
        _ => None,
    }
}

/// Tells where a part ranks.
pub fn ranking(e: &Option<CompareEntry>, ok: bool) -> (r: Option<Rank>)
    ensures
        rank_of(entry_of(*e), ok) == match r {
            Some(x) => Some((x.cooler_than as int, x.count as int)),
            None => None,
        },
{
    match e {
        Some(x) => match x.standing {
            Some(s) => if ok {
                Some(Rank { cooler_than: s.cooler_than, count: s.count })
            } else {
                None
            },
            None => None,
        },
        None => None,
    }
}

/// A result is said to be cooler only where it is below the average, to the
/// millionth by the difference that is shown, and warmer only where it is
/// above.
pub proof fn lemma_outcome(yours: int, avg: int)
    requires
        -LIMIT <= yours <= LIMIT,
        -LIMIT <= avg <= LIMIT,
    ensures
        match outcome_of(yours, avg) {
            Outcome::Same => -UNIT < 2 * minus(yours, avg) < UNIT,
            Outcome::Cooler(d) => yours < avg && avg - 1 <= yours + d <= avg + 1 && 2 * d >= UNIT,
            Outcome::Warmer(d) => yours > avg && yours - 1 <= avg + d <= yours + 1 && 2 * d
                >= UNIT,
        },
{
    lemma_minus(yours, avg);
}

// ---------------------------------------------------------------------------
// The log of the diagnostics

/// The tone of a line of the log.
pub open spec fn log_tone_of(line: Seq<char>) -> Tone {
    if begins(line, "==="@) {
        Tone::Accent
    } else if occurs(line, "WARNING"@) || occurs(line, "NOT "@) || occurs(line, "ISSUE"@) {
        Tone::Warn
    } else {
        Tone::Muted
    }
}

/// Tells the tone of a line of the log.
pub fn log_tone(line: &str) -> (r: Tone)
    ensures
        r == log_tone_of(line@),
{
    if starts_with(line, "===") {
        Tone::Accent
    } else if contains(line, "WARNING") || contains(line, "NOT ") || contains(line, "ISSUE") {
        Tone::Warn
    } else {
        Tone::Muted
    }
}

/// What is said below the log.
#[derive(Debug, Clone, Copy, PartialEq, Eq, Structural)]
pub struct DiagNotes {
    /// How to use the link.
    pub hint: bool,
    /// Where the copy was kept.
    pub saved: bool,
    /// The log itself.
    pub log: bool,
}

/// Tells what is said below the log: how to use the link once it is sent, where
/// the copy was kept once that is over.
pub fn diag_notes(d: &DiagState) -> (r: DiagNotes)
    ensures
        r.hint == (d@.stage is Done),
        r.saved == (d@.saved is Some && (d@.stage is Done || d@.stage is Failed)),
        r.log == !(d@.stage is Intro),
{
    let done = matches!(d.stage, DiagStage::Done { .. });
    let failed = matches!(d.stage, DiagStage::Failed(_));
    DiagNotes {
        hint: done,
        saved: d.saved.is_some() && (done || failed),
        log: !matches!(d.stage, DiagStage::Intro),
    }
}

} // verus!
