//! What the screens show: tones, lines, figures and sizes, before they are
//! put into words and drawn.
use vstd::prelude::*;

use crate::app::Screen;
use crate::decimal::{push_tenths, shown_tenths};
use crate::engine::{idle_level, level, IdleLevel, Warning, WarningView};
use crate::fixed::UNIT;
use crate::layout::Rect;
use crate::sensors::{Channel, ChannelView, Probe, SECOND};
use crate::setup::{BootStep, DriverState, DriverView, SensorSetup, SetupView};
use crate::text::{contains, dec, digits_of, occurs, padded_left, push_dec, push_padded, text_of};

verus! {

// ---------------------------------------------------------------------------
// Tones and small texts

/// How something is coloured.
#[derive(Debug, Clone, Copy, PartialEq, Eq, Structural)]
pub enum Tone {
    Plain,
    Accent,
    Muted,
    Dim,
    Good,
    Warn,
    Bad,
}

/// The tone of a temperature.
pub open spec fn tone_of(t: int) -> Tone {
    if t > 85 * UNIT {
        Tone::Bad
    } else if t > 70 * UNIT {
        Tone::Warn
    } else {
        Tone::Good
    }
}

/// The tone of a temperature.
pub fn temp_tone(t: i64) -> (r: Tone)
    ensures
        r == tone_of(t as int),
{
    if t > 85 * UNIT {
        Tone::Bad
    } else if t > 70 * UNIT {
        Tone::Warn
    } else {
        Tone::Good
    }
}

/// The marks of something under way, in turn.
pub const PULSE: [char; 4] = ['·', '•', '●', '•'];

/// The mark of something under way: it changes with every third frame.
pub fn pulse(frame: u64) -> (r: char)
    ensures
        r == PULSE@[(frame as int / 3) % 4],
{
    PULSE[(frame / 3 % 4) as usize]
}

/// A duration in minutes and seconds.
pub open spec fn clock(ns: u64) -> Seq<char> {
    let s = ns as int / SECOND as int;
    dec((s / 60) as nat) + seq![':'] + padded_left(dec((s % 60) as nat), '0', 2)
}

/// Formats a duration in minutes and seconds.
pub fn fmt_clock(ns: u64) -> (r: String)
    ensures
        r@ == clock(ns),
{
    let s: u64 = ns / SECOND;
    let mut r = String::new();
    push_dec(&mut r, s / 60);
    r.push(':');
    push_padded(&mut r, digits_of(s % 60, 10).as_slice(), '0', 2);
    assert(r@ =~= clock(ns));
    r
}

/// A temperature with its unit.
pub open spec fn degrees(t: int) -> Seq<char> {
    shown_tenths(t) + "°C"@
}

/// Formats a temperature.
pub fn fmt_temp(t: i64) -> (r: String)
    ensures
        r@ == degrees(t as int),
{
    let mut r = String::new();
    push_tenths(&mut r, t);
    r.append("°C");
    assert(r@ =~= degrees(t as int));
    r
}

/// How a duration is put: minutes where there are any, seconds where they do
/// not come to whole minutes.
pub open spec fn duration_of(secs: u64) -> (Option<u64>, Option<u64>) {
    if secs % 60 == 0 {
        (Some((secs / 60) as u64), None)
    } else if secs > 60 {
        (Some((secs / 60) as u64), Some((secs % 60) as u64))
    } else {
        (None, Some(secs))
    }
}

/// Tells how a duration is put, as minutes and seconds.
pub fn format_duration(secs: u64) -> (r: (Option<u64>, Option<u64>))
    ensures
        r == duration_of(secs),
{
    if secs % 60 == 0 {
        (Some(secs / 60), None)
    } else if secs > 60 {
        (Some(secs / 60), Some(secs % 60))
    } else {
        (None, Some(secs))
    }
}

/// A duration is neither lost nor gained by how it is put.
pub proof fn lemma_duration(secs: u64)
    ensures
        ({
            let (m, s) = duration_of(secs);
            let minutes = if m is Some {
                m->0 as int
            } else {
                0
            };
            let seconds = if s is Some {
                s->0 as int
            } else {
                0
            };
            minutes * 60 + seconds == secs && seconds < 60
        }),
{
}

// ---------------------------------------------------------------------------
// The first line

/// The step that a screen belongs to.
pub open spec fn step_of(screen: Screen) -> int {
    match screen {
        Screen::Boot | Screen::Home | Screen::Diagnostics => 0,
        Screen::Options | Screen::Confirm => 1,
        Screen::Running => 2,
        Screen::Results => 3,
    }
}

/// The tone of a step: behind, under way or ahead.
pub fn step_tone(screen: Screen, i: usize) -> (r: Tone)
    ensures
        r == if i == step_of(screen) {
            Tone::Accent
        } else if i < step_of(screen) {
            Tone::Muted
        } else {
            Tone::Dim
        },
{
    let current: usize = match screen {
        Screen::Boot => 0,
        Screen::Home => 0,
        Screen::Diagnostics => 0,
        Screen::Options => 1,
        Screen::Confirm => 1,
        Screen::Running => 2,
        Screen::Results => 3,
    };
    if i == current {
        Tone::Accent
    } else if i < current {
        Tone::Muted
    } else {
        Tone::Dim
    }
}

/// Where the steps stand in the first line, if they fit between what stands at
/// its left and the language at its right.
pub fn steps_at(area: Rect, left: u16, steps: u16, language: u16) -> (r: Option<u16>)
    requires
        area.wf(),
    ensures
        r is Some <==> left + steps + language + 4 <= area.width,
        r is Some ==> r->0 == area.end_x() - language - steps - 2,
{
    let need: u32 = left as u32 + steps as u32 + language as u32 + 4;
    if need <= area.width as u32 {
        Some(area.x + area.width - language - steps - 2)
    } else {
        None
    }
}

/// A short message, two lines above the bottom at the right.
pub fn toast_place(area: Rect, width: u16) -> (r: Rect)
    requires
        area.wf(),
        width + 3 <= area.width,
        area.height >= 2,
    ensures
        r == (Rect {
            x: (area.end_x() - width - 3) as u16,
            y: (area.end_y() - 2) as u16,
            width: (width + 2) as u16,
            height: 1,
        }),
        r.within(area),
{
    Rect {
        x: area.x + area.width - width - 3,
        y: area.y + area.height - 2,
        width: width + 2,
        height: 1,
    }
}

// ---------------------------------------------------------------------------
// Start-up

/// How a step stands.
#[derive(Debug, Clone, Copy, PartialEq, Eq, Structural)]
pub enum Mark {
    Done,
    Now,
    Ahead,
}

/// A step's place among the steps.
pub open spec fn rank(s: BootStep) -> int {
    match s {
        BootStep::Hardware => 0,
        BootStep::SensorTools => 1,
        BootStep::Driver => 2,
        BootStep::Done => 3,
    }
}

fn rank_of(s: BootStep) -> (r: u8)
    ensures
        r == rank(s),
{
    match s {
        BootStep::Hardware => 0,
        BootStep::SensorTools => 1,
        BootStep::Driver => 2,
        BootStep::Done => 3,
    }
}

/// How a step stands while another is under way.
pub fn boot_mark(s: BootStep, now: BootStep) -> (r: Mark)
    ensures
        r == if rank(s) < rank(now) {
            Mark::Done
        } else if s == now {
            Mark::Now
        } else {
            Mark::Ahead
        },
{
    if rank_of(s) < rank_of(now) {
        Mark::Done
    } else if s == now {
        Mark::Now
    } else {
        Mark::Ahead
    }
}

/// The steps that are shown: the driver's on Windows, and once it is under way.
pub fn boot_steps(windows: bool, now: BootStep) -> (r: Vec<BootStep>)
    ensures
        r@ == if windows || now == BootStep::Driver {
            seq![BootStep::Hardware, BootStep::SensorTools, BootStep::Driver]
        } else {
            seq![BootStep::Hardware, BootStep::SensorTools]
        },
{
    let mut r: Vec<BootStep> = Vec::new();
    r.push(BootStep::Hardware);
    r.push(BootStep::SensorTools);
    if windows || now == BootStep::Driver {
        r.push(BootStep::Driver);
        assert(r@ =~= seq![BootStep::Hardware, BootStep::SensorTools, BootStep::Driver]);
    } else {
        assert(r@ =~= seq![BootStep::Hardware, BootStep::SensorTools]);
    }
    r
}

// ---------------------------------------------------------------------------
// The sensors

/// What is shown of a sensor.
#[derive(Debug, Clone)]
pub enum SensorRow {
    /// A reading, where it comes from, and how many seconds ago it came if it
    /// is an old one.
    Reading { value: i64, source: Option<String>, age: Option<u64> },
    Searching,
    Missing,
}

/// What is shown of a sensor.
pub ghost enum SensorRowView {
    Reading { value: int, source: Option<Seq<char>>, age: Option<int> },
    Searching,
    Missing,
}

impl View for SensorRow {
    type V = SensorRowView;

    open spec fn view(&self) -> SensorRowView {
        match *self {
            SensorRow::Reading { value, source, age } => SensorRowView::Reading {
                value: value as int,
                source: text_of(source),
                age: match age {
                    Some(a) => Some(a as int),
                    None => None,
                },
            },
            SensorRow::Searching => SensorRowView::Searching,
            SensorRow::Missing => SensorRowView::Missing,
        }
    }
}

/// The whole seconds between two times.
pub open spec fn seconds_since(at: u64, now: u64) -> int {
    if now < at {
        0
    } else {
        (now - at) / SECOND as int
    }
}

/// What is shown of a channel: its latest reading, with its age from the
/// fourth second on.
pub open spec fn row_of(ch: ChannelView, now: u64) -> SensorRowView {
    match ch.last() {
        Some(s) => SensorRowView::Reading {
            value: s.value as int,
            source: ch.source,
            age: if seconds_since(s.at, now) >= 4 {
                Some(seconds_since(s.at, now))
            } else {
                None
            },
        },
        None => if ch.probe == Probe::Searching {
            SensorRowView::Searching
        } else {
            SensorRowView::Missing
        },
    }
}

/// Tells what is shown of a sensor.
pub fn sensor_row(ch: &Channel, now: u64) -> (r: SensorRow)
    ensures
        r@ == row_of(ch@, now),
{
    match ch.latest() {
        Some(s) => {
            let age: u64 = if now < s.at {
                0
            } else {
                (now - s.at) / SECOND
            };
            SensorRow::Reading {
                value: s.value,
                source: match &ch.source {
                    Some(x) => Some(x.clone()),
                    None => None,
                },
                age: if age >= 4 {
                    Some(age)
                } else {
                    None
                },
            }
        },
        None => if ch.probe == Probe::Searching {
            SensorRow::Searching
        } else {
            SensorRow::Missing
        },
    }
}

/// What the check of the sensors comes to.
#[derive(Debug, Clone, Copy, PartialEq, Eq, Structural)]
pub enum Check {
    Waiting,
    AllGood,
    Partial,
}

/// The reading comes from a sensor on the motherboard.
pub open spec fn from_board(ch: ChannelView) -> bool {
    match ch.source {
        Some(s) => occurs(s, "motherboard"@),
        None => false,
    }
}

/// Whether a reading comes from a sensor on the motherboard.
pub fn is_board(ch: &Channel) -> (r: bool)
    ensures
        r == from_board(ch@),
{
    match &ch.source {
        Some(s) => contains(s.as_str(), "motherboard"),
        None => false,
    }
}

/// What the check comes to: all is good if the CPU's own sensor was found, and
/// the card's where there is a card.
pub open spec fn checked(cpu: ChannelView, gpu: ChannelView, has_gpu: bool) -> Check {
    if cpu.probe == Probe::Searching || (has_gpu && gpu.probe == Probe::Searching) {
        Check::Waiting
    } else if cpu.probe == Probe::Found && !from_board(cpu) && (has_gpu ==> gpu.probe
        == Probe::Found) {
        Check::AllGood
    } else {
        Check::Partial
    }
}

/// Tells what the check of the sensors comes to.
pub fn sensor_check(cpu: &Channel, gpu: &Channel, has_gpu: bool) -> (r: Check)
    ensures
        r == checked(cpu@, gpu@, has_gpu),
{
    if cpu.probe == Probe::Searching || (has_gpu && gpu.probe == Probe::Searching) {
        Check::Waiting
    } else if cpu.probe == Probe::Found && !is_board(cpu) && (!has_gpu || gpu.probe
        == Probe::Found) {
        Check::AllGood
    } else {
        Check::Partial
    }
}

/// The system that the program runs on.
#[derive(Debug, Clone, Copy, PartialEq, Eq, Structural)]
pub enum System {
    Windows,
    Mac,
    Linux,
}

/// What the user can do about a sensor.
#[derive(Debug, Clone)]
pub enum Tip {
    HwinfoSharedMemory,
    RunAsAdmin,
    DriverFailed(String),
    MacSudo,
    LinuxSensors,
    GpuDriver,
}

/// A tip's contents.
pub ghost enum TipView {
    HwinfoSharedMemory,
    RunAsAdmin,
    DriverFailed(Seq<char>),
    MacSudo,
    LinuxSensors,
    GpuDriver,
}

impl View for Tip {
    type V = TipView;

    open spec fn view(&self) -> TipView {
        match *self {
            Tip::HwinfoSharedMemory => TipView::HwinfoSharedMemory,
            Tip::RunAsAdmin => TipView::RunAsAdmin,
            Tip::DriverFailed(s) => TipView::DriverFailed(s@),
            Tip::MacSudo => TipView::MacSudo,
            Tip::LinuxSensors => TipView::LinuxSensors,
            Tip::GpuDriver => TipView::GpuDriver,
        }
    }
}

/// The contents of tips.
pub open spec fn tip_views(v: Seq<Tip>) -> Seq<TipView> {
    v.map_values(|t: Tip| t@)
}

/// What to do about the CPU's sensor.
pub open spec fn cpu_tips(driver: DriverView, system: System) -> Seq<TipView> {
    match system {
        System::Windows => match driver {
            DriverView::NoAdmin => seq![TipView::RunAsAdmin],
            DriverView::Failed(s) => seq![TipView::DriverFailed(s)],
            _ => Seq::empty(),
        },
        System::Mac => seq![TipView::MacSudo],
        System::Linux => seq![TipView::LinuxSensors],
    }
}

/// What the user can do: about HWiNFO's shared memory where it is off, about
/// the CPU's sensor where it is missing or the motherboard's is read, about the
/// card's where it is missing.
pub open spec fn tips_of(
    setup: Option<SetupView>,
    system: System,
    cpu: ChannelView,
    gpu: ChannelView,
    has_gpu: bool,
) -> Seq<TipView> {
    match setup {
        None => Seq::empty(),
        Some(s) => {
            (if s.hwinfo_shared_memory_off {
                seq![TipView::HwinfoSharedMemory]
            } else {
                Seq::empty()
            }) + (if cpu.probe == Probe::Missing || from_board(cpu) {
                cpu_tips(s.driver, system)
            } else {
                Seq::empty()
            }) + (if has_gpu && gpu.probe == Probe::Missing {
                seq![TipView::GpuDriver]
            } else {
                Seq::empty()
            })
        },
    }
}

fn cpu_tip(driver: &DriverState, system: System) -> (r: Option<Tip>)
    ensures
        cpu_tips(driver@, system) == (match r {
            Some(t) => seq![t@],
            None => Seq::empty(),
        }),
{
    match system {
        System::Windows => match driver {
            DriverState::NoAdmin => Some(Tip::RunAsAdmin),
            DriverState::Failed(s) => Some(Tip::DriverFailed(s.clone())),
            DriverState::NotNeeded => None,
            DriverState::AlreadyInstalled => None,
            DriverState::InstalledNow => None,
        },
        System::Mac => Some(Tip::MacSudo),
        System::Linux => Some(Tip::LinuxSensors),
    }
}

/// Tells what the user can do about the sensors.
pub fn sensor_tips(
    setup: &Option<SensorSetup>,
    system: System,
    cpu: &Channel,
    gpu: &Channel,
    has_gpu: bool,
) -> (r: Vec<Tip>)
    ensures
        tip_views(r@) == tips_of(
            match *setup {
                Some(s) => Some(s@),
                None => None,
            },
            system,
            cpu@,
            gpu@,
            has_gpu,
        ),
{
    let mut tips: Vec<Tip> = Vec::new();
    let ghost mut out: Seq<TipView> = Seq::empty();
    assert(tip_views(tips@) =~= out);
    if let Some(s) = setup {
        if s.hwinfo_shared_memory_off {
            tips.push(Tip::HwinfoSharedMemory);
            proof {
                out = seq![TipView::HwinfoSharedMemory];
            }
        }
        assert(tip_views(tips@) =~= out);
        let ghost first = out;
        if cpu.probe == Probe::Missing || is_board(cpu) {
            if let Some(t) = cpu_tip(&s.driver, system) {
                proof {
                    out = out.push(t@);
                }
                let ghost before = tips@;
                tips.push(t);
                assert(tip_views(tips@) =~= tip_views(before).push(t@));
            }
            assert(out =~= first + cpu_tips(s.driver@, system));
        }
        let ghost second = out;
        if has_gpu && gpu.probe == Probe::Missing {
            let ghost before = tips@;
            tips.push(Tip::GpuDriver);
            proof {
                out = out.push(TipView::GpuDriver);
                assert(tip_views(tips@) =~= tip_views(before).push(TipView::GpuDriver));
                assert(out =~= second + seq![TipView::GpuDriver]);
            }
        }
        assert(tip_views(tips@) =~= tips_of(Some(s@), system, cpu@, gpu@, has_gpu));
    }
    tips
}

/// That a part is warm before the test starts.
#[derive(Debug, Clone, Copy, PartialEq, Eq, Structural)]
pub struct IdleNote {
    /// The card, not the CPU.
    pub gpu: bool,
    pub level: IdleLevel,
    pub celsius: i64,
}

/// A note on a part that is warm.
pub open spec fn note_of(gpu: bool, celsius: Option<i64>) -> Option<IdleNote> {
    match celsius {
        Some(c) => match level(c as int) {
            Some(l) => Some(IdleNote { gpu, level: l, celsius: c }),
            None => None,
        },
        None => None,
    }
}

/// Tells whether a part is warm before the test starts.
pub fn idle_note(gpu: bool, celsius: Option<i64>) -> (r: Option<IdleNote>)
    ensures
        r == note_of(gpu, celsius),
{
    match celsius {
        Some(c) => match idle_level(c) {
            Some(l) => Some(IdleNote { gpu, level: l, celsius: c }),
            None => None,
        },
        None => None,
    }
}

/// The tone of a note.
pub fn note_tone(l: IdleLevel) -> (r: Tone)
    ensures
        r == (match l {
            IdleLevel::Warm => Tone::Warn,
            IdleLevel::Hot => Tone::Bad,
        }),
{
    match l {
        IdleLevel::Warm => Tone::Warn,
        IdleLevel::Hot => Tone::Bad,
    }
}

/// The tone of a warning.
pub fn warning_tone(w: &Warning) -> (r: Tone)
    ensures
        r == (match w@ {
            WarningView::CpuIdleHot(_) | WarningView::GpuIdleHot(_) => Tone::Bad,
            _ => Tone::Warn,
        }),
{
    match w {
        Warning::CpuIdleHot(_) => Tone::Bad,
        Warning::GpuIdleHot(_) => Tone::Bad,
        _ => Tone::Warn,
    }
}

/// A temperature is good up to 70 °C, a warning up to 85 °C, and bad above.
pub proof fn lemma_tones(t: int)
    ensures
        tone_of(t) == Tone::Good <==> t <= 70_000_000,
        tone_of(t) == Tone::Warn <==> 70_000_000 < t <= 85_000_000,
        tone_of(t) == Tone::Bad <==> t > 85_000_000,
{
}

/// The sensors are all good exactly where each that is needed was found, and the
/// CPU's is not the board's; while one is looked for, that is waited for.
pub proof fn lemma_checked(cpu: ChannelView, gpu: ChannelView, has_gpu: bool)
    ensures
        checked(cpu, gpu, has_gpu) == Check::AllGood <==> cpu.probe == Probe::Found && !(cpu.source
            is Some && occurs(cpu.source->0, "motherboard"@)) && (has_gpu ==> gpu.probe
            == Probe::Found),
        checked(cpu, gpu, has_gpu) == Check::Waiting <==> cpu.probe == Probe::Searching || (has_gpu
            && gpu.probe == Probe::Searching),
{
}

/// A sensor's row shows its last reading, and its age from four seconds on; one
/// without a reading is looked for or missing.
pub proof fn lemma_sensor_row(ch: ChannelView, now: u64)
    ensures
        match row_of(ch, now) {
            SensorRowView::Reading { value, source, age } => {
                &&& ch.samples.len() > 0 && value == ch.samples.last().value && source == ch.source
                &&& age is Some <==> now >= ch.samples.last().at + 4_000_000_000
                &&& age is Some ==> ch.samples.last().at + age->0 * 1_000_000_000 <= now
                    < ch.samples.last().at + (age->0 + 1) * 1_000_000_000
            },
            SensorRowView::Searching => ch.samples.len() == 0 && ch.probe == Probe::Searching,
            SensorRowView::Missing => ch.samples.len() == 0 && ch.probe != Probe::Searching,
        },
{
}

/// What the user is told to do: about HWiNFO where it shares nothing, about the
/// CPU's sensor only where it is missing or the board's, and about the card's
/// driver only where there is a card and its sensor is missing.
pub proof fn lemma_tips(
    s: SetupView,
    system: System,
    cpu: ChannelView,
    gpu: ChannelView,
    has_gpu: bool,
    t: TipView,
)
    ensures
        tips_of(Some(s), system, cpu, gpu, has_gpu).contains(t) <==> {
            let bad = cpu.probe == Probe::Missing || (cpu.source is Some && occurs(
                cpu.source->0,
                "motherboard"@,
            ));
            match t {
                TipView::HwinfoSharedMemory => s.hwinfo_shared_memory_off,
                TipView::RunAsAdmin => bad && system == System::Windows && s.driver
                    == DriverView::NoAdmin,
                TipView::DriverFailed(e) => bad && system == System::Windows && s.driver
                    == DriverView::Failed(e),
                TipView::MacSudo => bad && system == System::Mac,
                TipView::LinuxSensors => bad && system == System::Linux,
                TipView::GpuDriver => has_gpu && gpu.probe == Probe::Missing,
            }
        },
        tips_of(None, system, cpu, gpu, has_gpu).len() == 0,
{
    let a = if s.hwinfo_shared_memory_off {
        seq![TipView::HwinfoSharedMemory]
    } else {
        Seq::empty()
    };
    let b = if cpu.probe == Probe::Missing || from_board(cpu) {
        cpu_tips(s.driver, system)
    } else {
        Seq::empty()
    };
    let c = if has_gpu && gpu.probe == Probe::Missing {
        seq![TipView::GpuDriver]
    } else {
        Seq::empty()
    };
    let all = a + b + c;
    assert(tips_of(Some(s), system, cpu, gpu, has_gpu) == all);
    assert(all.contains(t) <==> a.contains(t) || b.contains(t) || c.contains(t)) by {
        if a.contains(t) {
            let i = choose|i: int| 0 <= i < a.len() && a[i] == t;
            assert(all[i] == t);
        }
        if b.contains(t) {
            let i = choose|i: int| 0 <= i < b.len() && b[i] == t;
            assert(all[a.len() + i] == t);
        }
        if c.contains(t) {
            let i = choose|i: int| 0 <= i < c.len() && c[i] == t;
            assert(all[a.len() + b.len() + i] == t);
        }
        if all.contains(t) {
            let i = choose|i: int| 0 <= i < all.len() && all[i] == t;
            if i < a.len() {
                assert(a[i] == t);
            } else if i < a.len() + b.len() {
                assert(b[i - a.len()] == t);
            } else {
                assert(c[i - a.len() - b.len()] == t);
            }
        }
    }
    assert(a.len() > 0 ==> a[0] == TipView::HwinfoSharedMemory);
    assert(b.len() > 0 ==> b.len() == 1 && b[0] == b[0]);
    assert(c.len() > 0 ==> c[0] == TipView::GpuDriver);
    assert(a.contains(t) <==> s.hwinfo_shared_memory_off && t == TipView::HwinfoSharedMemory);
    assert(c.contains(t) <==> has_gpu && gpu.probe == Probe::Missing && t == TipView::GpuDriver);
    assert(b.contains(t) <==> b.len() == 1 && b[0] == t);
}

} // verus!
