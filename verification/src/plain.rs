//! Plain-text mode: the same engine, line-by-line output, no prompts.
use vstd::prelude::*;

use crate::api::SubmissionPayload;
use crate::decimal::{push_signed_dec, push_tenths, push_whole, shown_tenths, shown_whole, signed_dec};
use crate::engine::{judgement, verdict, Part, Phase, PlanView, Progress, TestKind, TestPlan};
use crate::fixed::UNIT;
use crate::form::LaunchOptions;
use crate::gpus::{best_place, default_index, gpu_views, vram_text, GpuDevice, GpuView};
use crate::hardware::HardwareInfo;
use crate::payload::{
    is_local, local_site, payload_of, submission, Details, DetailsView, MIN_SUBMIT_SECS,
};
use crate::sensors::{Channel, ChannelView, Probe, Readings, SECOND};
use crate::text::{
    cat3, cat5, copy_text, dec, digits_of, line_views, or_text, owned, padded_left, prefixed, push_dec,
    push_line, push_padded, text_of, text_or,
};

verus! {

/// A temperature with its unit, dashes where there is none.
pub open spec fn temp_text(v: Option<i64>) -> Seq<char> {
    match v {
        Some(t) => shown_tenths(t as int) + "°C"@,
        None => "--"@,
    }
}

/// Formats a temperature.
pub fn temp(v: Option<i64>) -> (r: String)
    ensures
        r@ == temp_text(v),
{
    match v {
        Some(t) => {
            let mut r = String::new();
            push_tenths(&mut r, t);
            r.append("°C");
            assert(r@ =~= shown_tenths(t as int) + "°C"@);
            r
        },
        None => owned("--"),
    }
}

// ---------------------------------------------------------------------------
// Hardware

/// The line on a card.
pub open spec fn gpu_line(g: GpuView, number: nat, tested: bool) -> Seq<char> {
    "  GPU "@ + dec(number) + ":  "@ + g.name + (match g.vram_bytes {
        Some(b) => " ("@ + vram_text(b as int) + ")"@,
        None => ""@,
    }) + (if tested {
        "  [tested]"@
    } else {
        ""@
    })
}

/// The lines on the first `n` cards.  The one that is tested is marked where
/// there are several.
pub open spec fn gpu_lines(gpus: Seq<GpuDevice>, n: int) -> Seq<Seq<char>>
    decreases n,
{
    if n <= 0 {
        Seq::empty()
    } else {
        gpu_lines(gpus, n - 1).push(
            gpu_line(
                gpus[n - 1]@,
                n as nat,
                n - 1 == best_place(gpu_views(gpus)) && gpus.len() > 1,
            ),
        )
    }
}

/// The lines on the machine.
pub open spec fn hardware_lines(hw: HardwareInfo) -> Seq<Seq<char>> {
    let cores = match (hw.cpu_cores, hw.cpu_threads) {
        (Some(c), Some(t)) => seq![
            "  Cores:  "@ + signed_dec(c as int) + " ("@ + signed_dec(t as int) + " threads)"@,
        ],
        _ => Seq::empty(),
    };
    let gpus = if hw.gpus@.len() == 0 {
        seq!["  GPU:    Unknown"@]
    } else {
        gpu_lines(hw.gpus@, hw.gpus@.len() as int)
    };
    seq!["  CPU:    "@ + or_text(hw.cpu_model, "Unknown"@)] + cores + gpus + seq![
        "  OS:     "@ + or_text(hw.os, "Unknown"@),
        if hw.is_laptop {
            "  Type:   Laptop"@
        } else {
            "  Type:   Desktop"@
        },
    ]
}

fn make_gpu_line(g: &GpuDevice, number: usize, tested: bool) -> (r: String)
    ensures
        r@ == gpu_line(g@, number as nat, tested),
{
    let mut r = String::new();
    r.append("  GPU ");
    push_dec(&mut r, number as u64);
    r.append(":  ");
    r.append(g.name.as_str());
    match g.vram() {
        Some(v) => {
            r.append(cat3(" (", v.as_str(), ")").as_str());
        },
        None => {
            r.append("");
        },
    }
    r.append(
        if tested {
            "  [tested]"
        } else {
            ""
        },
    );
    assert(r@ =~= gpu_line(g@, number as nat, tested));
    r
}

/// The lines on the machine.
pub fn print_hardware(hw: &HardwareInfo) -> (r: Vec<String>)
    ensures
        line_views(r@) == hardware_lines(*hw),
{
    let mut out: Vec<String> = Vec::new();
    assert(line_views(out@) =~= Seq::empty());
    push_line(&mut out, prefixed("  CPU:    ", text_or(&hw.cpu_model, "Unknown").as_str()));
    match (hw.cpu_cores, hw.cpu_threads) {
        (Some(c), Some(t)) => {
            let mut s = String::new();
            s.append("  Cores:  ");
            push_signed_dec(&mut s, c);
            s.append(" (");
            push_signed_dec(&mut s, t);
            s.append(" threads)");
            assert(s@ =~= "  Cores:  "@ + signed_dec(c as int) + " ("@ + signed_dec(t as int)
                + " threads)"@);
            push_line(&mut out, s);
        },
        _ => {},
    }
    let ghost head = line_views(out@);
    if hw.gpus.len() == 0 {
        push_line(&mut out, owned("  GPU:    Unknown"));
        assert(line_views(out@) =~= head + seq!["  GPU:    Unknown"@]);
    } else {
        let best: usize = default_index(hw.gpus.as_slice());
        let mut i: usize = 0;
        assert(head + gpu_lines(hw.gpus@, 0) =~= head);
        while i < hw.gpus.len()
            invariant
                i <= hw.gpus.len(),
                best == best_place(gpu_views(hw.gpus@)),
                line_views(out@) == head + gpu_lines(hw.gpus@, i as int),
            decreases hw.gpus.len() - i,
        {
            let tested = i == best && hw.gpus.len() > 1;
            push_line(&mut out, make_gpu_line(&hw.gpus[i], i + 1, tested));
            i = i + 1;
            assert(line_views(out@) =~= head + gpu_lines(hw.gpus@, i as int));
        }
    }
    push_line(&mut out, prefixed("  OS:     ", text_or(&hw.os, "Unknown").as_str()));
    push_line(
        &mut out,
        owned(
            if hw.is_laptop {
                "  Type:   Laptop"
            } else {
                "  Type:   Desktop"
            },
        ),
    );
    assert(line_views(out@) =~= hardware_lines(*hw));
    out
}

// ---------------------------------------------------------------------------
// Before the test

/// The sensors' first readings have come, or will not.
pub fn sensors_settled(r: &Readings, has_gpu: bool) -> (b: bool)
    ensures
        b == (r.cpu_temp.probe != Probe::Searching && (!has_gpu || r.gpu_temp.probe
            != Probe::Searching)),
{
    r.cpu_temp.probe != Probe::Searching && (!has_gpu || r.gpu_temp.probe != Probe::Searching)
}

/// How long the first readings are waited for, in nanoseconds: the helper can
/// take a few seconds.
pub const SENSOR_WAIT: u64 = 20 * SECOND;

/// Whether to go on waiting for the first readings.
pub fn waits_for_sensors(r: &Readings, has_gpu: bool, waited: u64) -> (b: bool)
    ensures
        b == (waited <= SENSOR_WAIT && (r.cpu_temp.probe == Probe::Searching || (has_gpu
            && r.gpu_temp.probe == Probe::Searching))),
{
    waited <= SENSOR_WAIT && !sensors_settled(r, has_gpu)
}

/// The line on a sensor; none for the GPU of a machine without one.
pub open spec fn sensor_text(name: Seq<char>, c: ChannelView, needed: bool) -> Option<Seq<char>> {
    match c.last() {
        Some(s) => Some(
            "  "@ + name + " temperature: "@ + temp_text(Some(s.value)) + " via "@ + (
            match c.source {
                Some(x) => x,
                None => "?"@,
            }),
        ),
        None => if needed {
            Some("  "@ + name + " temperature: not available"@)
        } else {
            None
        },
    }
}

/// The line on a sensor.
pub fn sensor_line(name: &str, c: &Channel, needed: bool) -> (r: Option<String>)
    ensures
        text_of(r) == sensor_text(name@, c@, needed),
{
    match c.latest() {
        Some(s) => {
            let mut r = cat5(
                "  ",
                name,
                " temperature: ",
                temp(Some(s.value)).as_str(),
                " via ",
            );
            r.append(text_or(&c.source, "?").as_str());
            Some(r)
        },
        None => if needed {
            Some(cat3("  ", name, " temperature: not available"))
        } else {
            None
        },
    }
}

/// The test to run: what is asked for, without the GPU where there is none.
pub open spec fn planned(opts: LaunchOptions, gpu: Option<GpuView>) -> PlanView {
    let asked = match opts.test {
        Some(k) => k,
        None => TestKind::Both,
    };
    let kind = if gpu is None && asked.has_gpu() {
        TestKind::Cpu
    } else {
        asked
    };
    PlanView {
        kind,
        duration: (match opts.duration {
            Some(d) => d,
            None => 120,
        } * SECOND) as u64,
        gpu: if kind.has_gpu() {
            gpu
        } else {
            None
        },
    }
}

/// What is tested without a screen: what was asked for, else both parts for two
/// minutes.  Without a card only the CPU is tested, and a card is tested only
/// where it is to be.
pub proof fn lemma_planned(opts: LaunchOptions, gpu: Option<GpuView>)
    requires
        opts.duration is Some ==> opts.duration->0 <= 3600,
    ensures
        ({
            let p = planned(opts, gpu);
            let asked = if opts.test is Some {
                opts.test->0
            } else {
                TestKind::Both
            };
            &&& gpu is Some ==> p.kind == asked
            &&& gpu is None ==> p.kind == TestKind::Cpu
            &&& p.kind == TestKind::Cpu ==> p.gpu is None
            &&& p.kind != TestKind::Cpu ==> p.gpu == gpu && gpu is Some
            &&& opts.duration is Some ==> p.duration == opts.duration->0 * 1_000_000_000
            &&& opts.duration is None ==> p.duration == 120_000_000_000
        }),
{
}

/// The test to run.
pub fn plan(opts: &LaunchOptions, gpu: Option<&GpuDevice>) -> (r: TestPlan)
    requires
        opts.duration is Some ==> opts.duration->0 <= 3600,
    ensures
        r@ == planned(
            *opts,
            match gpu {
                Some(g) => Some(g@),
                None => None,
            },
        ),
{
    let asked = match opts.test {
        Some(k) => k,
        None => TestKind::Both,
    };
    let kind = if gpu.is_none() && asked.gpu() {
        TestKind::Cpu
    } else {
        asked
    };
    let secs: u64 = match opts.duration {
        Some(d) => d,
        None => 120,
    };
    TestPlan {
        kind,
        duration: secs * SECOND,
        gpu: if kind.gpu() {
            match gpu {
                Some(g) => Some(g.duplicate()),
                None => None,
            }
        } else {
            None
        },
    }
}

/// A kind in capitals.
pub open spec fn capitals(kind: TestKind) -> Seq<char> {
    match kind {
        TestKind::Both => "BOTH"@,
        TestKind::Cpu => "CPU"@,
        TestKind::Gpu => "GPU"@,
    }
}

/// The line before the test.
pub fn start_line(kind: TestKind, secs: u64) -> (r: String)
    ensures
        r@ == "▸ "@ + capitals(kind) + " stress test for "@ + dec(secs as nat)
            + "s. Your PC may feel slow and fans may get loud; that's normal."@,
{
    let mut r = String::new();
    r.append("▸ ");
    r.append(
        match kind {
            TestKind::Both => "BOTH",
            TestKind::Cpu => "CPU",
            TestKind::Gpu => "GPU",
        },
    );
    r.append(" stress test for ");
    push_dec(&mut r, secs);
    r.append("s. Your PC may feel slow and fans may get loud; that's normal.");
    assert(r@ =~= "▸ "@ + capitals(kind) + " stress test for "@ + dec(secs as nat)
        + "s. Your PC may feel slow and fans may get loud; that's normal."@);
    r
}

/// The note on a quick test; none for others.
pub fn quick_note(secs: u64) -> (r: Option<String>)
    ensures
        text_of(r) == if secs < MIN_SUBMIT_SECS {
            Some(
                "  Quick test: only tests of "@ + dec(MIN_SUBMIT_SECS as nat)
                    + " seconds or longer are submitted."@,
            )
        } else {
            None
        },
{
    if secs < MIN_SUBMIT_SECS {
        let mut r = String::new();
        r.append("  Quick test: only tests of ");
        push_dec(&mut r, MIN_SUBMIT_SECS);
        r.append(" seconds or longer are submitted.");
        assert(r@ =~= "  Quick test: only tests of "@ + dec(MIN_SUBMIT_SECS as nat)
            + " seconds or longer are submitted."@);
        Some(r)
    } else {
        None
    }
}

// ---------------------------------------------------------------------------
// During the test

/// A part's figures: now, at most, and its load.
pub open spec fn part_text(name: Seq<char>, p: Part) -> Seq<char> {
    "  "@ + name + " "@ + temp_text(p.current) + " (peak "@ + temp_text(p.peak) + ") "@
        + shown_whole(
        match p.usage_now {
            Some(u) => u as int,
            None => 0,
        },
    ) + "%"@
}

/// The line on how the test stands.
pub open spec fn progress_text(elapsed: nat, secs: nat, kind: TestKind, cpu: Part, gpu: Part) -> Seq<
    char,
> {
    "  ["@ + padded_left(dec(elapsed), ' ', 4) + "s / "@ + dec(secs) + "s]"@ + (
    if kind.has_cpu() {
        part_text("CPU"@, cpu)
    } else {
        Seq::empty()
    }) + (if kind.has_gpu() {
        part_text("GPU"@, gpu)
    } else {
        Seq::empty()
    })
}

fn push_part(r: &mut String, name: &str, p: &Part)
    ensures
        final(r)@ == old(r)@ + part_text(name@, *p),
{
    let ghost start = r@;
    r.append("  ");
    r.append(name);
    r.append(" ");
    r.append(temp(p.current).as_str());
    r.append(" (peak ");
    r.append(temp(p.peak).as_str());
    r.append(") ");
    push_whole(
        r,
        match p.usage_now {
            Some(u) => u,
            None => 0,
        },
    );
    r.append("%");
    assert(r@ =~= start + part_text(name@, *p));
}

/// The line on how the test stands.
pub fn progress_line(elapsed: u64, secs: u64, kind: TestKind, cpu: &Part, gpu: &Part) -> (r: String)
    ensures
        r@ == progress_text(elapsed as nat, secs as nat, kind, *cpu, *gpu),
{
    let mut r = String::new();
    r.append("  [");
    push_padded(&mut r, digits_of(elapsed, 10).as_slice(), ' ', 4);
    r.append("s / ");
    push_dec(&mut r, secs);
    r.append("s]");
    if kind.cpu() {
        push_part(&mut r, "CPU", cpu);
    }
    if kind.gpu() {
        push_part(&mut r, "GPU", gpu);
    }
    assert(r@ =~= progress_text(elapsed as nat, secs as nat, kind, *cpu, *gpu));
    r
}

/// Whether it is time for a line on a test: every ten seconds while it is
/// under stress.
pub fn prints_now(phase: Phase, last: Option<u64>, now: u64) -> (r: bool)
    ensures
        r == (phase == Phase::Running && match last {
            Some(t) => now - t >= 10 * SECOND,
            None => true,
        }),
{
    phase == Phase::Running && match last {
        Some(t) => now >= t && now - t >= 10 * SECOND,
        None => true,
    }
}

/// The whole seconds since a start, at most so many.
pub open spec fn passed(started: Option<u64>, now: int, secs: int) -> int {
    match started {
        Some(t) => if now < t {
            0
        } else if (now - t) / (SECOND as int) > secs {
            secs
        } else {
            (now - t) / (SECOND as int)
        },
        None => 0,
    }
}

/// What has passed of a test is the whole seconds since its start; nothing before
/// it, and never more than the test takes.
pub proof fn lemma_passed(started: u64, now: int, secs: int)
    requires
        0 <= secs,
    ensures
        ({
            let n = passed(Some(started), now, secs);
            &&& 0 <= n <= secs
            &&& now < started ==> n == 0
            &&& now >= started ==> started + n * 1_000_000_000 <= now
            &&& now >= started && n < secs ==> now < started + (n + 1) * 1_000_000_000
            &&& passed(None, now, secs) == 0
        }),
{
}

/// How long a test has run, in whole seconds, at most as long as it lasts.
pub fn elapsed_secs(started: Option<u64>, now: u64, secs: u64) -> (r: u64)
    ensures
        r == passed(started, now as int, secs as int),
{
    match started {
        Some(t) => {
            if now < t {
                return 0;
            }
            let n: u64 = (now - t) / SECOND;
            if n > secs {
                secs
            } else {
                n
            }
        },
        None => 0,
    }
}

// ---------------------------------------------------------------------------
// After the test

/// The line on a part's result.
pub open spec fn result_text(name: Seq<char>, p: Part) -> Seq<char> {
    "  "@ + name + "  idle "@ + temp_text(p.idle) + "  peak "@ + temp_text(p.peak)
        + "  max load "@ + (match p.usage_max {
        Some(u) => shown_whole(u as int) + "%"@,
        None => "--"@,
    })
}

/// The line on a part's result.
pub fn result_line(name: &str, p: &Part) -> (r: String)
    ensures
        r@ == result_text(name@, *p),
{
    let mut r = String::new();
    r.append("  ");
    r.append(name);
    r.append("  idle ");
    r.append(temp(p.idle).as_str());
    r.append("  peak ");
    r.append(temp(p.peak).as_str());
    r.append("  max load ");
    match p.usage_max {
        Some(u) => {
            push_whole(&mut r, u);
            r.append("%");
        },
        None => {
            r.append("--");
        },
    }
    assert(r@ =~= result_text(name@, *p));
    r
}

/// What becomes of a finished test.
#[derive(Debug, Clone, Copy, PartialEq, Eq, Structural)]
pub enum Outcome {
    /// No temperature was read correctly under load.
    Invalid,
    /// The user asked not to submit, or the figures are simulated.
    Skipped,
    /// A quick test.
    Quick,
    /// It is submitted, as a test of this kind.
    Submit(TestKind),
}

impl Outcome {
    /// The program's exit code; where the result is submitted, `sent` says
    /// whether that succeeded.
    pub fn exit_code(self, sent: bool) -> (r: i32)
        ensures
            r == code_after(self, sent),
    {
        match self {
            Outcome::Invalid => 1,
            Outcome::Skipped | Outcome::Quick => 0,
            Outcome::Submit(_) => if sent {
                0
            } else {
                1
            },
        }
    }
}

/// What becomes of a finished test.
pub open spec fn outcome_of(
    opts: LaunchOptions,
    site: Seq<char>,
    valid: Option<TestKind>,
    secs: int,
) -> Outcome {
    match valid {
        None => Outcome::Invalid,
        Some(kind) => if opts.no_submit || (opts.demo && !local_site(site)) {
            Outcome::Skipped
        } else if secs < MIN_SUBMIT_SECS {
            Outcome::Quick
        } else {
            Outcome::Submit(kind)
        },
    }
}

/// Tells what becomes of a finished test.
pub fn outcome(opts: &LaunchOptions, site: &str, plan: &TestPlan, p: &Progress) -> (r: Outcome)
    ensures
        r == outcome_of(
            *opts,
            site@,
            judgement(plan.kind, p@).kind,
            (plan.duration / SECOND) as int,
        ),
{
    match verdict(plan.kind, p).kind {
        None => Outcome::Invalid,
        Some(kind) => if opts.no_submit || (opts.demo && !is_local(site)) {
            Outcome::Skipped
        } else if plan.duration / SECOND < MIN_SUBMIT_SECS {
            Outcome::Quick
        } else {
            Outcome::Submit(kind)
        },
    }
}

/// The program's exit code; where the result is submitted, `sent` says whether
/// that succeeded.
pub open spec fn code_after(o: Outcome, sent: bool) -> i32 {
    match o {
        Outcome::Invalid => 1i32,
        Outcome::Skipped | Outcome::Quick => 0i32,
        Outcome::Submit(_) => if sent {
            0i32
        } else {
            1i32
        },
    }
}

/// The program succeeds exactly where the test gave a result, and it was sent if
/// it was to be.
pub proof fn lemma_exit_code(
    opts: LaunchOptions,
    site: Seq<char>,
    valid: Option<TestKind>,
    secs: int,
    sent: bool,
)
    ensures
        ({
            let o = outcome_of(opts, site, valid, secs);
            let kept = opts.no_submit || (opts.demo && !local_site(site)) || secs < 60;
            &&& code_after(o, sent) == 0 || code_after(o, sent) == 1
            &&& code_after(o, sent) == 0 <==> valid is Some && (kept || sent)
            &&& o is Submit <==> valid is Some && !kept
            &&& o is Submit ==> Some(o->Submit_0) == valid
        }),
{
}

/// Plain mode submits what the interface does, and nothing else.
pub proof fn lemma_submits_the_same(
    opts: LaunchOptions,
    site: Seq<char>,
    kind: TestKind,
    p: Progress,
    secs: int,
)
    ensures
        outcome_of(opts, site, judgement(kind, p@).kind, secs) is Submit
            <==> crate::payload::blocked(
            opts.demo,
            opts.no_submit,
            site,
            p.stopped_early,
            judgement(kind, p@).kind is Some,
            secs,
        ) is None,
{
}

/// The details that the command line gives.  A laptop is cooled as it comes
/// unless told otherwise; a room temperature must lie between 0 °C and 60 °C.
pub open spec fn details_of(opts: LaunchOptions, laptop: bool) -> DetailsView {
    DetailsView {
        laptop_model: None,
        cooling_type: if opts.cooling_type is Some {
            text_of(opts.cooling_type)
        } else if laptop {
            Some("stock"@)
        } else {
            None
        },
        cooling_model: text_of(opts.cooling_model),
        ambient_temp: match opts.ambient_temp {
            Some(a) if 0 <= a <= 60 * UNIT => Some(a),
            _ => None,
        },
        baseline_id: None,
        change_type: None,
    }
}

/// What is submitted of a finished test.
pub fn payload(
    opts: &LaunchOptions,
    hw: &HardwareInfo,
    gpu: Option<&GpuDevice>,
    kind: TestKind,
    p: &Progress,
    secs: u64,
    version: &str,
    machine_id: &str,
) -> (r: SubmissionPayload)
    requires
        p@.wf(),
        secs <= i64::MAX,
    ensures
        r@ == payload_of(
            kind,
            Some(hw),
            match gpu {
                Some(g) => Some(g@),
                None => None,
            },
            hw.is_laptop,
            details_of(*opts, hw.is_laptop),
            p.cpu,
            p.gpu,
            p@.series,
            secs as int,
            version@,
            machine_id@,
            false,
        ),
{
    let cooling_type = match &opts.cooling_type {
        Some(c) => Some(c.clone()),
        None => if hw.is_laptop {
            Some(owned("stock"))
        } else {
            None
        },
    };
    let ambient_temp = match opts.ambient_temp {
        Some(a) => if 0 <= a && a <= 60 * UNIT {
            Some(a)
        } else {
            None
        },
        None => None,
    };
    let details = Details {
        laptop_model: None,
        cooling_type,
        cooling_model: copy_text(&opts.cooling_model),
        ambient_temp,
        baseline_id: None,
        change_type: None,
    };
    submission(kind, Some(hw), gpu, hw.is_laptop, details, p, secs, version, machine_id, false)
}

} // verus!
