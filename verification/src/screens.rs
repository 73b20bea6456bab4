//! What the screens with the options, a run and its result show.
use vstd::prelude::*;

use crate::engine::{Phase, Progress, ProgressView, TestKind};
use crate::fixed::rounded;
use crate::form::{Field, DURATIONS, TEST_KINDS};
use crate::input::{TextInput, TextView};
use crate::layout::{
    pad_measured, padded, scroll_from, scroll_start, short, shortened, text_width, truncate,
    width_of_text, Rect,
};
use crate::sensors::{Channel, SECOND};
use crate::text::{chars_of, digits_of, dec, owned, padded_left, push_padded, string_of};
use crate::ui::{clock, fmt_clock, idle_note, note_of, IdleNote};

verus! {

// ---------------------------------------------------------------------------
// Options

/// How wide a text box is at most.
pub open spec fn box_limit(field: Field) -> int {
    match field {
        Field::CustomSecs => 12,
        Field::CoolerModel | Field::LaptopModel => 44,
        _ => 34,
    }
}

/// How wide a text box is.
pub fn box_width(field: Field, room: u16) -> (r: u16)
    ensures
        r == if room < box_limit(field) {
            room as int
        } else {
            box_limit(field)
        },
{
    let limit: u16 = match field {
        Field::CustomSecs => 12,
        Field::CoolerModel => 44,
        Field::LaptopModel => 44,
        _ => 34,
    };
    if room < limit {
        room
    } else {
        limit
    }
}

/// Whether a choice is the recommended one: both parts, two minutes.
pub fn is_recommended(field: Field, i: usize) -> (r: bool)
    ensures
        r == (match field {
            Field::Test => i < 3 && TEST_KINDS@[i as int] == TestKind::Both,
            Field::Duration => i < 4 && DURATIONS@[i as int] == 120,
            _ => false,
        }),
{
    match field {
        Field::Test => i < 3 && TEST_KINDS[i] == TestKind::Both,
        Field::Duration => i < 4 && DURATIONS[i] == 120,
        _ => false,
    }
}

/// A text box: what it shows, and where the cursor stands in it.
pub struct TextBox {
    pub text: String,
    pub cursor: u16,
}

/// The columns within a box, without its edges.
pub open spec fn inner_width(width: u16) -> nat {
    if width < 2 {
        0
    } else {
        (width - 2) as nat
    }
}

/// What a box shows: the text from where it is scrolled to, or the hint while
/// there is none, cut and padded to the box.
pub open spec fn box_text(t: TextView, hint: Seq<char>, width: u16) -> Seq<char> {
    let inner = inner_width(width);
    let from = scroll_start(t.value, t.cursor, inner, 0);
    let all = if t.value.len() == 0 {
        hint
    } else {
        t.value.skip(from)
    };
    let part = shortened(all, text_width(all), inner);
    seq![' '] + padded(part, text_width(part), inner) + seq![' ']
}

/// The cursor's column in a box: behind what stands before it, never beyond
/// the box's last column.
pub open spec fn box_cursor(t: TextView, width: u16) -> int {
    let from = scroll_start(t.value, t.cursor, inner_width(width), 0);
    let at = 1 + text_width(t.value.subrange(from, t.cursor));
    let last = if width > 0 {
        width - 1
    } else {
        0
    };
    if at < last {
        at as int
    } else {
        last
    }
}

/// Makes a text box of a width.
pub fn text_box(input: &TextInput, hint: &str, width: u16) -> (r: TextBox)
    requires
        input@.wf(),
    ensures
        r.text@ == box_text(input@, hint@, width),
        r.cursor == box_cursor(input@, width),
{
    let inner: usize = if width < 2 {
        0
    } else {
        width as usize - 2
    };
    let cs: Vec<char> = chars_of(input.value.as_str());
    let from: usize = scroll_from(cs.as_slice(), input.cursor, inner);
    let all = if cs.len() == 0 {
        owned(hint)
    } else {
        string_of(vstd::slice::slice_subrange(cs.as_slice(), from, cs.len()))
    };
    assert(cs@.len() > 0 ==> all@ =~= cs@.skip(from as int));
    let part = truncate(all.as_str(), inner);
    let filled = pad_measured(part.as_str(), width_of_text(part.as_str()), inner);
    let mut text = String::new();
    text.push(' ');
    text.append(filled.as_str());
    text.push(' ');
    assert(text@ =~= box_text(input@, hint@, width));
    let before = string_of(vstd::slice::slice_subrange(cs.as_slice(), from, input.cursor));
    let w: usize = width_of_text(before.as_str());
    let last: u16 = if width > 0 {
        width - 1
    } else {
        0
    };
    let cursor: u16 = if last > 0 && w < (last - 1) as usize {
        1 + w as u16
    } else {
        last
    };
    TextBox { text, cursor }
}

/// The cursor always stands within its box.
pub proof fn lemma_cursor_is_inside(t: TextView, width: u16)
    requires
        width > 0,
    ensures
        0 <= box_cursor(t, width) < width,
{
}

// ---------------------------------------------------------------------------
// Before the test

/// What the user should know before a test.
#[derive(Debug, Clone, Copy, PartialEq, Eq, Structural)]
pub enum Bullet {
    Load(TestKind),
    Slow,
    Close,
    Stop,
    AutoSubmit,
    Battery,
    Idle(IdleNote),
    CpuMissing,
    GpuMissing,
}

/// The sensors' state before a test.
#[derive(Debug, Clone, Copy, PartialEq, Eq, Structural)]
pub struct Before {
    pub cpu: Option<i64>,
    pub gpu: Option<i64>,
    pub cpu_missing: bool,
    pub gpu_missing: bool,
}

/// Something, if a condition holds.
pub open spec fn only_if(c: bool, b: Bullet) -> Seq<Bullet> {
    if c {
        seq![b]
    } else {
        Seq::empty()
    }
}

/// A note, if there is one on a part that is tested.
pub open spec fn noted(c: bool, n: Option<IdleNote>) -> Seq<Bullet> {
    if c && n is Some {
        seq![Bullet::Idle(n->0)]
    } else {
        Seq::empty()
    }
}

/// What the user should know before a test: what it does, whether it is
/// submitted, and what speaks against starting now.
pub open spec fn bullets_of(
    kind: TestKind,
    submits: bool,
    on_battery: Option<bool>,
    b: Option<Before>,
) -> Seq<Bullet> {
    let always = seq![Bullet::Load(kind), Bullet::Slow, Bullet::Close, Bullet::Stop] + only_if(
        submits,
        Bullet::AutoSubmit,
    ) + only_if(on_battery == Some(true), Bullet::Battery);
    match b {
        None => always,
        Some(s) => always + noted(kind.has_cpu(), note_of(false, s.cpu)) + noted(
            kind.has_gpu(),
            note_of(true, s.gpu),
        ) + only_if(kind.has_cpu() && s.cpu_missing, Bullet::CpuMissing) + only_if(
            kind.has_gpu() && s.gpu_missing,
            Bullet::GpuMissing,
        ),
    }
}

fn push_if(v: &mut Vec<Bullet>, c: bool, b: Bullet)
    ensures
        final(v)@ == old(v)@ + only_if(c, b),
{
    let ghost before = v@;
    if c {
        v.push(b);
    }
    assert(v@ =~= before + only_if(c, b));
}

fn push_note(v: &mut Vec<Bullet>, c: bool, n: Option<IdleNote>)
    ensures
        final(v)@ == old(v)@ + noted(c, n),
{
    let ghost before = v@;
    if c {
        if let Some(x) = n {
            v.push(Bullet::Idle(x));
        }
    }
    assert(v@ =~= before + noted(c, n));
}

/// Tells what the user should know before a test.
pub fn bullets(
    kind: TestKind,
    submits: bool,
    on_battery: Option<bool>,
    before: Option<Before>,
) -> (r: Vec<Bullet>)
    ensures
        r@ == bullets_of(kind, submits, on_battery, before),
{
    let mut r: Vec<Bullet> = Vec::new();
    r.push(Bullet::Load(kind));
    r.push(Bullet::Slow);
    r.push(Bullet::Close);
    r.push(Bullet::Stop);
    assert(r@ =~= seq![Bullet::Load(kind), Bullet::Slow, Bullet::Close, Bullet::Stop]);
    push_if(&mut r, submits, Bullet::AutoSubmit);
    let battery = match on_battery {
        Some(b) => b,
        None => false,
    };
    push_if(&mut r, battery, Bullet::Battery);
    if let Some(s) = before {
        push_note(&mut r, kind.cpu(), idle_note(false, s.cpu));
        push_note(&mut r, kind.gpu(), idle_note(true, s.gpu));
        push_if(&mut r, kind.cpu() && s.cpu_missing, Bullet::CpuMissing);
        push_if(&mut r, kind.gpu() && s.gpu_missing, Bullet::GpuMissing);
    }
    r
}

/// The rows of texts, added up.
pub open spec fn total(hs: Seq<u16>) -> nat
    decreases hs.len(),
{
    if hs.len() == 0 {
        0
    } else {
        total(hs.drop_last()) + hs.last() as nat
    }
}

/// Adds up rows, at most what the screen can count.
pub fn total_rows(hs: &Vec<u16>) -> (r: u16)
    ensures
        r == short(total(hs@)),
{
    let mut sum: u32 = 0;
    let mut i: usize = 0;
    while i < hs.len()
        invariant
            i <= hs.len(),
            sum == short(total(hs@.take(i as int))),
            sum <= 0xffff,
        decreases hs.len() - i,
    {
        proof {
            assert(hs@.take(i + 1).drop_last() =~= hs@.take(i as int));
        }
        sum = sum + hs[i] as u32;
        if sum > 0xffff {
            sum = 0xffff;
        }
        i = i + 1;
    }
    assert(hs@.take(hs@.len() as int) =~= hs@);
    sum as u16
}

/// What is left below a row, keeping some rows free at the bottom.
pub open spec fn room_below(area: Rect, y: u16, keep: int) -> int {
    if area.end_y() < y + keep {
        0
    } else {
        area.end_y() - y - keep
    }
}

/// How high a box around texts is: the texts and its edges, as far as there is
/// room above the buttons.
pub fn box_height(hs: &Vec<u16>, area: Rect, y: u16) -> (r: u16)
    requires
        area.wf(),
    ensures
        r == if total(hs@) + 2 < room_below(area, y, 2) {
            total(hs@) as int + 2
        } else {
            room_below(area, y, 2)
        },
{
    let rows: u32 = total_rows(hs) as u32 + 2;
    let bottom: u32 = area.y as u32 + area.height as u32;
    let room: u32 = if bottom < y as u32 + 2 {
        0
    } else {
        bottom - y as u32 - 2
    };
    if rows < room {
        rows as u16
    } else {
        room as u16
    }
}

// ---------------------------------------------------------------------------
// A run

/// How far a run is, by the clock alone: it moves smoothly whatever the
/// sensors do.
pub open spec fn elapsed_of(p: ProgressView, now: u64, duration: u64) -> int {
    let end = if p.phase != Phase::Running && p.stopped is Some {
        p.stopped->0
    } else {
        now
    };
    match p.started {
        None => 0,
        Some(s) => if end < s {
            0
        } else if end - s < duration {
            end - s
        } else {
            duration as int
        },
    }
}

/// Tells how far a run is, in nanoseconds.
pub fn elapsed(p: &Progress, now: u64, duration: u64) -> (r: u64)
    ensures
        r == elapsed_of(p@, now, duration),
        r <= duration,
{
    let end: u64 = if p.phase != Phase::Running {
        match p.stopped {
            Some(t) => t,
            None => now,
        }
    } else {
        now
    };
    match p.started {
        None => 0,
        Some(s) => if end < s {
            0
        } else if end - s < duration {
            end - s
        } else {
            duration
        },
    }
}

/// While a run goes on, its progress never moves back, and it is complete once
/// the duration has passed.
pub proof fn lemma_progress_moves_on(p: ProgressView, now: u64, later: u64, duration: u64)
    requires
        p.phase == Phase::Running,
        now <= later,
    ensures
        elapsed_of(p, now, duration) <= elapsed_of(p, later, duration) <= duration,
        p.started is Some && p.started->0 + duration <= later ==> elapsed_of(p, later, duration)
            == duration,
{
}

/// A duration, at least a second.
pub open spec fn whole_run(duration: u64) -> int {
    if duration < SECOND {
        SECOND as int
    } else {
        duration as int
    }
}

/// The share of a run in whole percent.
pub fn percent(elapsed: u64, duration: u64) -> (r: u64)
    requires
        elapsed <= duration,
    ensures
        r == elapsed * 100 / whole_run(duration),
        r <= 100,
{
    let whole: u128 = if duration < SECOND {
        SECOND as u128
    } else {
        duration as u128
    };
    let q: u128 = elapsed as u128 * 100 / whole;
    assert(q <= 100) by (nonlinear_arith)
        requires
            q == elapsed as int * 100 / whole as int,
            elapsed <= whole,
            whole > 0,
    ;
    q as u64
}

/// What stands beside the bar.
pub open spec fn progress_text(elapsed: u64, duration: u64) -> Seq<char> {
    "  "@ + padded_left(dec((elapsed * 100 / whole_run(duration)) as nat), ' ', 3) + "%   "@
        + clock(elapsed) + " / "@ + clock(duration)
}

/// Makes what stands beside the bar.
pub fn progress_label(elapsed: u64, duration: u64) -> (r: String)
    requires
        elapsed <= duration,
    ensures
        r@ == progress_text(elapsed, duration),
{
    let mut r = String::new();
    r.append("  ");
    push_padded(&mut r, digits_of(percent(elapsed, duration), 10).as_slice(), ' ', 3);
    r.append("%   ");
    r.append(fmt_clock(elapsed).as_str());
    r.append(" / ");
    r.append(fmt_clock(duration).as_str());
    assert(r@ =~= progress_text(elapsed, duration));
    r
}

/// The half cells of a bar that are filled.
pub open spec fn half_cells(width: u16, elapsed: u64, duration: u64) -> int {
    rounded(2 * width * elapsed, whole_run(duration))
}

/// A bar of half cells: full ones, a half one where it is odd, empty ones.
pub open spec fn bar_of(width: u16, filled: int) -> (Seq<char>, Seq<char>) {
    let used = filled / 2 + filled % 2;
    (
        Seq::new((filled / 2) as nat, |i: int| '█') + if filled % 2 == 1 {
            seq!['▌']
        } else {
            Seq::empty()
        },
        Seq::new(
            if used < width {
                (width - used) as nat
            } else {
                0
            },
            |i: int| '░',
        ),
    )
}

fn repeated(c: char, n: u32) -> (r: String)
    ensures
        r@ == Seq::new(n as nat, |i: int| c),
{
    let mut r = String::new();
    let mut i: u32 = 0;
    assert(r@ =~= Seq::new(0, |i: int| c));
    while i < n
        invariant
            i <= n,
            r@ == Seq::new(i as nat, |i: int| c),
        decreases n - i,
    {
        r.push(c);
        i = i + 1;
        assert(r@ =~= Seq::new(i as nat, |i: int| c));
    }
    r
}

/// Full-width bar with half-cell precision: what is filled, and what is not.
pub fn progress_bar(width: u16, elapsed: u64, duration: u64) -> (r: (String, String))
    requires
        elapsed <= duration,
    ensures
        (r.0@, r.1@) == bar_of(width, half_cells(width, elapsed, duration)),
{
    let whole: u128 = if duration < SECOND {
        SECOND as u128
    } else {
        duration as u128
    };
    assert(2 * width * elapsed <= 0x2_0000 * 0x1_0000_0000_0000_0000) by (nonlinear_arith)
        requires
            width <= 0xffff,
            elapsed <= 0xffff_ffff_ffff_ffff,
    ;
    assert(width * elapsed <= 0x1_0000 * 0x1_0000_0000_0000_0000) by (nonlinear_arith)
        requires
            width <= 0xffff,
            elapsed <= 0xffff_ffff_ffff_ffff,
    ;
    let n: u128 = 2 * (width as u128 * elapsed as u128);
    assert(n == 2 * width * elapsed) by (nonlinear_arith)
        requires
            n == 2 * (width as int * elapsed as int),
    ;
    let filled: u128 = (2 * n + whole) / (2 * whole);
    assert(filled <= 2 * width) by (nonlinear_arith)
        requires
            filled == (2 * n + whole) / (2 * whole as int),
            n == 2 * (width as int * elapsed as int),
            elapsed <= whole,
            whole > 0,
    ;
    let filled: u32 = filled as u32;
    let mut done = repeated('█', filled / 2);
    if filled % 2 == 1 {
        done.push('▌');
    }
    let used: u32 = filled / 2 + filled % 2;
    let rest = repeated(
        '░',
        if used < width as u32 {
            width as u32 - used
        } else {
            0
        },
    );
    assert(done@ =~= bar_of(width, filled as int).0);
    assert(rest@ =~= bar_of(width, filled as int).1);
    (done, rest)
}

/// A bar is as wide as its place.
pub proof fn lemma_bar_width(width: u16, elapsed: u64, duration: u64)
    requires
        elapsed <= duration,
    ensures
        ({
            let (a, b) = bar_of(width, half_cells(width, elapsed, duration));
            a.len() + b.len() == width
        }),
{
    let whole = whole_run(duration);
    let n = 2 * width * elapsed;
    assert(n >= 0 && (2 * n + whole) / (2 * whole) <= 2 * width) by (nonlinear_arith)
        requires
            n == 2 * width * elapsed,
            elapsed <= whole,
            whole > 0,
            width >= 0,
            elapsed >= 0,
    ;
    assert((2 * n + whole) / (2 * whole) >= 0) by (nonlinear_arith)
        requires
            n >= 0,
            whole > 0,
    ;
}

/// What a run is at.
#[derive(Debug, Clone, Copy, PartialEq, Eq, Structural)]
pub enum RunTitle {
    Starting,
    Running,
    Diagnostics,
    Stopping,
}

/// Tells what a run is at.
pub fn run_title(phase: Phase, diagnostics: bool) -> (r: RunTitle)
    ensures
        r == (match phase {
            Phase::Starting => RunTitle::Starting,
            Phase::Running => if diagnostics {
                RunTitle::Diagnostics
            } else {
                RunTitle::Running
            },
            Phase::Stopping | Phase::Finished => RunTitle::Stopping,
        }),
{
    match phase {
        Phase::Starting => RunTitle::Starting,
        Phase::Running => if diagnostics {
            RunTitle::Diagnostics
        } else {
            RunTitle::Running
        },
        Phase::Stopping => RunTitle::Stopping,
        Phase::Finished => RunTitle::Stopping,
    }
}

/// After this long without a reading a sensor lags behind.
pub const LAG: u64 = 5_000_000_000;

/// Whether a sensor lags behind while the test runs.
pub fn is_lagging(phase: Phase, ch: &Channel, now: u64) -> (r: bool)
    ensures
        r == (phase == Phase::Running && ch@.last() is Some && now - ch@.last()->0.at > LAG),
{
    match ch.latest() {
        Some(s) => phase == Phase::Running && now > s.at && now - s.at > LAG,
        None => false,
    }
}

/// How the cards of a run stand.
#[derive(Debug, Clone, Copy, PartialEq, Eq, Structural)]
pub enum Cards {
    One,
    /// Side by side keeps each chart tall.
    Beside,
    /// Only very narrow windows stack.
    Stacked,
}

/// Tells how the cards of a run stand.
pub fn cards(kind: TestKind, width: u16) -> (r: Cards)
    ensures
        r == if !(kind.has_cpu() && kind.has_gpu()) {
            Cards::One
        } else if width >= 72 {
            Cards::Beside
        } else {
            Cards::Stacked
        },
{
    if !(kind.cpu() && kind.gpu()) {
        Cards::One
    } else if width >= 72 {
        Cards::Beside
    } else {
        Cards::Stacked
    }
}

/// Whether there is room for large figures in a card.
pub fn has_large_figures(inner: Rect) -> (r: bool)
    ensures
        r == (inner.height >= 10 && inner.width >= 32),
{
    inner.height >= 10 && inner.width >= 32
}

/// The rows for a chart between the figures and the last line of a card, if
/// they are enough to say anything.
pub fn chart_rows(inner: Rect, y: u16) -> (r: Option<u16>)
    requires
        inner.wf(),
    ensures
        r is Some <==> inner.end_y() - 1 - y >= 4,
        r is Some ==> r->0 == inner.end_y() - 1 - y,
{
    let bottom: u32 = inner.y as u32 + inner.height as u32;
    if bottom >= y as u32 + 5 {
        Some((bottom - y as u32 - 1) as u16)
    } else {
        None
    }
}

proof fn lemma_either(a: Seq<Bullet>, b: Seq<Bullet>, x: Bullet)
    ensures
        (a + b).contains(x) <==> a.contains(x) || b.contains(x),
{
    if a.contains(x) {
        let i = choose|i: int| 0 <= i < a.len() && a[i] == x;
        assert((a + b)[i] == x);
    }
    if b.contains(x) {
        let i = choose|i: int| 0 <= i < b.len() && b[i] == x;
        assert((a + b)[a.len() + i] == x);
    }
    if (a + b).contains(x) {
        let i = choose|i: int| 0 <= i < (a + b).len() && (a + b)[i] == x;
        if i < a.len() {
            assert(a[i] == x);
        } else {
            assert(b[i - a.len()] == x);
        }
    }
}

proof fn lemma_only_if(c: bool, b: Bullet, x: Bullet)
    ensures
        only_if(c, b).contains(x) <==> c && x == b,
{
    if c {
        assert(only_if(c, b)[0] == b);
    }
}

proof fn lemma_noted(c: bool, n: Option<IdleNote>, x: Bullet)
    ensures
        noted(c, n).contains(x) <==> c && n is Some && x == Bullet::Idle(n->0),
{
    if c && n is Some {
        assert(noted(c, n)[0] == Bullet::Idle(n->0));
    }
}

/// Before a test the user is told that it is submitted exactly where it is, of
/// the battery exactly where the machine runs on it, and of a part's missing
/// sensor or warm start only where that part is tested.
pub proof fn lemma_told_before_the_test(
    kind: TestKind,
    submits: bool,
    on_battery: Option<bool>,
    s: Before,
    x: Bullet,
)
    ensures
        bullets_of(kind, submits, on_battery, Some(s)).contains(x) <==> match x {
            Bullet::Load(k) => k == kind,
            Bullet::Slow | Bullet::Close | Bullet::Stop => true,
            Bullet::AutoSubmit => submits,
            Bullet::Battery => on_battery == Some(true),
            Bullet::Idle(n) => if n.gpu {
                kind != TestKind::Cpu && note_of(true, s.gpu) == Some(n)
            } else {
                kind != TestKind::Gpu && note_of(false, s.cpu) == Some(n)
            },
            Bullet::CpuMissing => kind != TestKind::Gpu && s.cpu_missing,
            Bullet::GpuMissing => kind != TestKind::Cpu && s.gpu_missing,
        },
{
    let four = seq![Bullet::Load(kind), Bullet::Slow, Bullet::Close, Bullet::Stop];
    let a = only_if(submits, Bullet::AutoSubmit);
    let b = only_if(on_battery == Some(true), Bullet::Battery);
    let c = noted(kind.has_cpu(), note_of(false, s.cpu));
    let d = noted(kind.has_gpu(), note_of(true, s.gpu));
    let e = only_if(kind.has_cpu() && s.cpu_missing, Bullet::CpuMissing);
    let f = only_if(kind.has_gpu() && s.gpu_missing, Bullet::GpuMissing);
    lemma_either(four, a, x);
    lemma_either(four + a, b, x);
    lemma_either(four + a + b, c, x);
    lemma_either(four + a + b + c, d, x);
    lemma_either(four + a + b + c + d, e, x);
    lemma_either(four + a + b + c + d + e, f, x);
    lemma_only_if(submits, Bullet::AutoSubmit, x);
    lemma_only_if(on_battery == Some(true), Bullet::Battery, x);
    lemma_noted(kind.has_cpu(), note_of(false, s.cpu), x);
    lemma_noted(kind.has_gpu(), note_of(true, s.gpu), x);
    lemma_only_if(kind.has_cpu() && s.cpu_missing, Bullet::CpuMissing, x);
    lemma_only_if(kind.has_gpu() && s.gpu_missing, Bullet::GpuMissing, x);
    assert(four.contains(x) <==> x == four[0] || x == four[1] || x == four[2] || x == four[3]);
    assert(bullets_of(kind, submits, on_battery, Some(s)) == four + a + b + c + d + e + f);
}

/// How much of a run has passed: nothing before its start, at most all of it, and
/// once it is stopped no more than until then.
pub proof fn lemma_elapsed(p: ProgressView, now: u64, duration: u64)
    ensures
        p.started is None ==> elapsed_of(p, now, duration) == 0,
        0 <= elapsed_of(p, now, duration) <= duration,
        p.started is Some && p.phase == Phase::Running && p.started->0 <= now <= p.started->0
            + duration ==> p.started->0 + elapsed_of(p, now, duration) == now,
        p.started is Some && p.phase != Phase::Running && p.stopped is Some && p.started->0
            <= p.stopped->0 <= p.started->0 + duration ==> p.started->0 + elapsed_of(
            p,
            now,
            duration,
        ) == p.stopped->0,
{
}

/// A progress bar shows the share of the run in half cells: none at its start,
/// all at its end, and never less as it goes on.
pub proof fn lemma_bar_fills_up(width: u16, elapsed: u64, later: u64, duration: u64)
    requires
        elapsed <= later <= duration,
        duration >= 1_000_000_000,
    ensures
        half_cells(width, 0, duration) == 0,
        half_cells(width, duration, duration) == 2 * width,
        half_cells(width, elapsed, duration) <= half_cells(width, later, duration),
        ({
            let h = half_cells(width, elapsed, duration);
            -duration <= 2 * (h * duration - 2 * width * elapsed) <= duration
        }),
{
    let d = duration as int;
    let w = 2 * width as int;
    assert(whole_run(duration) == d);
    crate::fixed::lemma_rounded_is_nearest(2 * width * elapsed, d);
    assert(2 * width * 0 == 0) by (nonlinear_arith);
    assert(rounded(0, d) == 0) by (nonlinear_arith)
        requires
            rounded(0, d) == (2 * 0 + d) / (2 * d),
            d > 0,
    ;
    assert(rounded(w * d, d) == w) by (nonlinear_arith)
        requires
            w * d >= 0 ==> rounded(w * d, d) == (2 * (w * d) + d) / (2 * d),
            d > 0,
            w >= 0,
    ;
    assert(2 * width * duration == w * d);
    let a = 2 * width * elapsed;
    let b = 2 * width * later;
    assert(0 <= a <= b) by (nonlinear_arith)
        requires
            a == 2 * width * elapsed,
            b == 2 * width * later,
            elapsed <= later,
    ;
    assert((2 * a + d) / (2 * d) <= (2 * b + d) / (2 * d)) by (nonlinear_arith)
        requires
            0 <= a <= b,
            d > 0,
    ;
}

} // verus!
