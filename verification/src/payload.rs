//! What is submitted of a run, and from which machine.
use vstd::prelude::*;
use vstd::string::StringSliceAdditionalSpecFns;
use vstd::utf8::encode_utf8;

use crate::api::{CompareRequest, SubmissionPayload};
use crate::decimal::LIMIT;
use crate::engine::{Part, Progress, TestKind};
use crate::fixed::{round_tenths, to_tenths};
use crate::gpus::{vram_text, GpuDevice, GpuView};
use crate::hardware::HardwareInfo;
use crate::series::{series_of, SeriesView};
use crate::text::{copy_text, digits, digits_of, owned, padded_left, push_padded, text_of};

verus! {

// ---------------------------------------------------------------------------
// The machine's id

/// The hash of bytes: each takes 33 times what came before.
pub open spec fn djb2(b: Seq<u8>) -> u64
    decreases b.len(),
{
    if b.len() == 0 {
        5381
    } else {
        ((djb2(b.drop_last()) * 33 + b.last()) % 0x1_0000_0000_0000_0000) as u64
    }
}

/// A machine's id: the hash of its name and its CPU, in sixteen hexadecimal
/// digits.
pub open spec fn machine_text(hostname: Seq<char>, cpu: Seq<char>) -> Seq<char> {
    let input = hostname + seq![':'] + cpu;
    "cli-"@ + padded_left(digits(djb2(encode_utf8(input)) as nat, 16), '0', 16)
}

/// Machines whose names differ in their last letter have different numbers, and
/// a letter more changes the number by that letter.
pub proof fn lemma_machine_number(b: Seq<u8>, x: u8, y: u8)
    ensures
        djb2(b.push(x)) == djb2(b.push(y)) ==> x == y,
        x == 0 && djb2(b.push(x)) + y <= u64::MAX ==> djb2(b.push(y)) == djb2(b.push(x)) + y,
{
    assert(b.push(x).drop_last() =~= b);
    assert(b.push(y).drop_last() =~= b);
    let h = djb2(b) * 33;
    let m: int = 0x1_0000_0000_0000_0000;
    assert((h + x) % m == (h + y) % m ==> x == y) by (nonlinear_arith)
        requires
            m == 0x1_0000_0000_0000_0000,
            0 <= x < 256,
            0 <= y < 256,
    ;
    assert(h % m + y < m ==> (h + y) % m == h % m + y) by (nonlinear_arith)
        requires
            m == 0x1_0000_0000_0000_0000,
            0 <= y < 256,
    ;
}

/// Deterministic machine ID from hostname + CPU model, so one machine counts
/// as one contributor and the daily limit applies per machine.
pub fn machine_id(hostname: &str, cpu: &str) -> (r: String)
    ensures
        r@ == machine_text(hostname@, cpu@),
{
    let mut input = String::new();
    input.append(hostname);
    input.push(':');
    input.append(cpu);
    assert(input@ =~= hostname@ + seq![':'] + cpu@);
    let bytes = input.as_str().as_bytes();
    let mut hash: u64 = 5381;
    let mut i: usize = 0;
    while i < bytes.len()
        invariant
            i <= bytes.len(),
            hash == djb2(bytes@.take(i as int)),
        decreases bytes.len() - i,
    {
        assert(bytes@.take(i + 1).drop_last() =~= bytes@.take(i as int));
        let next: u128 = hash as u128 * 33 + bytes[i] as u128;
        hash = (next % 0x1_0000_0000_0000_0000) as u64;
        i = i + 1;
    }
    assert(bytes@.take(bytes@.len() as int) =~= bytes@);
    let mut r = String::new();
    r.append("cli-");
    push_padded(&mut r, digits_of(hash, 16).as_slice(), '0', 16);
    assert(r@ =~= machine_text(hostname@, cpu@));
    r
}

// ---------------------------------------------------------------------------
// Submissions

/// A submission's contents.
pub ghost struct PayloadView {
    pub test_type: Seq<char>,
    pub stress_method: Seq<char>,
    pub cpu_model: Option<Seq<char>>,
    pub cpu_cores: Option<i32>,
    pub cpu_threads: Option<i32>,
    pub gpu_model: Option<Seq<char>>,
    pub gpu_vram: Option<Seq<char>>,
    pub os: Option<Seq<char>>,
    pub device_type: Option<Seq<char>>,
    pub laptop_model: Option<Seq<char>>,
    pub cooling_type: Option<Seq<char>>,
    pub cooling_model: Option<Seq<char>>,
    pub ambient_temp: Option<i64>,
    pub cpu_temp_idle: Option<i64>,
    pub cpu_temp_load: Option<i64>,
    pub gpu_temp_idle: Option<i64>,
    pub gpu_temp_load: Option<i64>,
    pub cpu_usage_max: Option<i64>,
    pub gpu_usage_max: Option<i64>,
    pub test_duration: Option<i64>,
    pub cli_version: Option<Seq<char>>,
    pub session_id: Option<Seq<char>>,
    pub series: Option<SeriesView>,
    pub baseline_id: Option<Seq<char>>,
    pub change_type: Option<Seq<char>>,
}

impl View for SubmissionPayload {
    type V = PayloadView;

    open spec fn view(&self) -> PayloadView {
        PayloadView {
            test_type: self.test_type@,
            stress_method: self.stress_method@,
            cpu_model: text_of(self.cpu_model),
            cpu_cores: self.cpu_cores,
            cpu_threads: self.cpu_threads,
            gpu_model: text_of(self.gpu_model),
            gpu_vram: text_of(self.gpu_vram),
            os: text_of(self.os),
            device_type: text_of(self.device_type),
            laptop_model: text_of(self.laptop_model),
            cooling_type: text_of(self.cooling_type),
            cooling_model: text_of(self.cooling_model),
            ambient_temp: self.ambient_temp,
            cpu_temp_idle: self.cpu_temp_idle,
            cpu_temp_load: self.cpu_temp_load,
            gpu_temp_idle: self.gpu_temp_idle,
            gpu_temp_load: self.gpu_temp_load,
            cpu_usage_max: self.cpu_usage_max,
            gpu_usage_max: self.gpu_usage_max,
            test_duration: self.test_duration,
            cli_version: text_of(self.cli_version),
            session_id: text_of(self.session_id),
            series: series_of(self.series),
            baseline_id: text_of(self.baseline_id),
            change_type: text_of(self.change_type),
        }
    }
}

/// What the user says of the machine, and of what it is tested against.
pub struct Details {
    pub laptop_model: Option<String>,
    pub cooling_type: Option<String>,
    pub cooling_model: Option<String>,
    pub ambient_temp: Option<i64>,
    /// An earlier result that this run re-tests, and what changed since.
    pub baseline_id: Option<String>,
    pub change_type: Option<String>,
}

/// The contents of the details.
pub ghost struct DetailsView {
    pub laptop_model: Option<Seq<char>>,
    pub cooling_type: Option<Seq<char>>,
    pub cooling_model: Option<Seq<char>>,
    pub ambient_temp: Option<i64>,
    pub baseline_id: Option<Seq<char>>,
    pub change_type: Option<Seq<char>>,
}

impl View for Details {
    type V = DetailsView;

    open spec fn view(&self) -> DetailsView {
        DetailsView {
            laptop_model: text_of(self.laptop_model),
            cooling_type: text_of(self.cooling_type),
            cooling_model: text_of(self.cooling_model),
            ambient_temp: self.ambient_temp,
            baseline_id: text_of(self.baseline_id),
            change_type: text_of(self.change_type),
        }
    }
}

/// A value of a part that is submitted.
pub open spec fn kept_if(keep: bool, v: Option<i64>) -> Option<i64> {
    if keep {
        v
    } else {
        None
    }
}

/// A load of a part that is submitted, rounded to tenths where asked for.
pub open spec fn load_if(keep: bool, v: Option<i64>, round: bool) -> Option<i64> {
    match v {
        Some(x) if keep => if round {
            Some(to_tenths(x as int) as i64)
        } else {
            Some(x)
        },
        _ => None,
    }
}

/// A field of the machine, where it is known.
pub open spec fn hw_text(hw: Option<&HardwareInfo>, f: spec_fn(HardwareInfo) -> Option<String>) -> Option<
    Seq<char>,
> {
    match hw {
        Some(h) => text_of(f(*h)),
        None => None,
    }
}

/// What is submitted of a run: the kind of what is valid, the machine, the
/// details, and the figures of the parts that are submitted.
pub open spec fn payload_of(
    kind: TestKind,
    hw: Option<&HardwareInfo>,
    gpu: Option<GpuView>,
    laptop: bool,
    details: DetailsView,
    cpu_part: Part,
    gpu_part: Part,
    series: Option<SeriesView>,
    secs: int,
    version: Seq<char>,
    session: Seq<char>,
    round: bool,
) -> PayloadView {
    PayloadView {
        test_type: kind.code(),
        stress_method: "cli_tool"@,
        cpu_model: hw_text(hw, |h: HardwareInfo| h.cpu_model),
        cpu_cores: match hw {
            Some(h) => h.cpu_cores,
            None => None,
        },
        cpu_threads: match hw {
            Some(h) => h.cpu_threads,
            None => None,
        },
        gpu_model: match gpu {
            Some(g) => Some(g.name),
            None => None,
        },
        gpu_vram: match gpu {
            Some(g) => match g.vram_bytes {
                Some(b) => Some(vram_text(b as int)),
                None => None,
            },
            None => None,
        },
        os: hw_text(hw, |h: HardwareInfo| h.os),
        device_type: Some(
            if laptop {
                "laptop"@
            } else {
                "desktop"@
            },
        ),
        laptop_model: details.laptop_model,
        cooling_type: details.cooling_type,
        cooling_model: details.cooling_model,
        ambient_temp: details.ambient_temp,
        cpu_temp_idle: kept_if(kind.has_cpu(), cpu_part.idle),
        cpu_temp_load: kept_if(kind.has_cpu(), cpu_part.peak),
        gpu_temp_idle: kept_if(kind.has_gpu(), gpu_part.idle),
        gpu_temp_load: kept_if(kind.has_gpu(), gpu_part.peak),
        cpu_usage_max: load_if(kind.has_cpu(), cpu_part.usage_max, round),
        gpu_usage_max: load_if(kind.has_gpu(), gpu_part.usage_max, round),
        test_duration: Some(secs as i64),
        cli_version: Some(version),
        session_id: Some(session),
        series: match series {
            Some(s) => Some(s.restricted(kind.has_cpu(), kind.has_gpu())),
            None => None,
        },
        baseline_id: details.baseline_id,
        change_type: details.change_type,
    }
}

/// Of a part that is not submitted, nothing is sent.
pub proof fn lemma_only_submitted_parts(
    kind: TestKind,
    hw: Option<&HardwareInfo>,
    gpu: Option<GpuView>,
    laptop: bool,
    details: DetailsView,
    cpu_part: Part,
    gpu_part: Part,
    series: Option<SeriesView>,
    secs: int,
    version: Seq<char>,
    session: Seq<char>,
    round: bool,
)
    ensures
        ({
            let p = payload_of(
                kind,
                hw,
                gpu,
                laptop,
                details,
                cpu_part,
                gpu_part,
                series,
                secs,
                version,
                session,
                round,
            );
            &&& !kind.has_cpu() ==> p.cpu_temp_idle is None && p.cpu_temp_load is None
                && p.cpu_usage_max is None && (p.series is Some ==> p.series->0.cpu_temp is None
                && p.series->0.cpu_usage is None)
            &&& !kind.has_gpu() ==> p.gpu_temp_idle is None && p.gpu_temp_load is None
                && p.gpu_usage_max is None && (p.series is Some ==> p.series->0.gpu_temp is None
                && p.series->0.gpu_usage is None)
        }),
{
}

/// Every part that is submitted goes with its own figures, the card that was
/// tested with its name, and the answers as they were given.
pub proof fn lemma_measured_is_submitted(
    kind: TestKind,
    hw: Option<&HardwareInfo>,
    gpu: Option<GpuView>,
    laptop: bool,
    details: DetailsView,
    cpu_part: Part,
    gpu_part: Part,
    series: Option<SeriesView>,
    secs: i64,
    version: Seq<char>,
    session: Seq<char>,
    round: bool,
)
    ensures
        ({
            let p = payload_of(
                kind,
                hw,
                gpu,
                laptop,
                details,
                cpu_part,
                gpu_part,
                series,
                secs as int,
                version,
                session,
                round,
            );
            &&& kind != TestKind::Gpu ==> p.cpu_temp_idle == cpu_part.idle && p.cpu_temp_load
                == cpu_part.peak && (p.cpu_usage_max is Some <==> cpu_part.usage_max is Some)
            &&& kind != TestKind::Cpu ==> p.gpu_temp_idle == gpu_part.idle && p.gpu_temp_load
                == gpu_part.peak && (p.gpu_usage_max is Some <==> gpu_part.usage_max is Some)
            &&& !round && kind != TestKind::Gpu ==> p.cpu_usage_max == cpu_part.usage_max
            &&& !round && kind != TestKind::Cpu ==> p.gpu_usage_max == gpu_part.usage_max
            &&& kind == TestKind::Both ==> p.test_type == "both"@
            &&& kind == TestKind::Cpu ==> p.test_type == "cpu"@ && p.gpu_temp_load is None
            &&& kind == TestKind::Gpu ==> p.test_type == "gpu"@ && p.cpu_temp_load is None
            &&& gpu is Some ==> p.gpu_model == Some(gpu->0.name)
            &&& gpu is None ==> p.gpu_model is None && p.gpu_vram is None
            &&& p.device_type == Some("laptop"@) || p.device_type == Some("desktop"@)
            &&& laptop ==> p.device_type == Some("laptop"@)
            &&& !laptop ==> p.device_type == Some("desktop"@)
            &&& p.laptop_model == details.laptop_model && p.cooling_type == details.cooling_type
            &&& p.cooling_model == details.cooling_model && p.ambient_temp == details.ambient_temp
            &&& p.baseline_id == details.baseline_id && p.change_type == details.change_type
            &&& p.test_duration == Some(secs) && p.session_id == Some(session)
            &&& p.series is Some <==> series is Some
            &&& series is Some && kind == TestKind::Both ==> p.series == series
        }),
{
}

fn keep_if(keep: bool, v: Option<i64>) -> (r: Option<i64>)
    ensures
        r == kept_if(keep, v),
{
    if keep {
        v
    } else {
        None
    }
}

fn keep_load(keep: bool, v: Option<i64>, round: bool) -> (r: Option<i64>)
    requires
        v is Some ==> -LIMIT <= v->0 <= LIMIT,
    ensures
        r == load_if(keep, v, round),
{
    match v {
        Some(x) => if keep {
            if round {
                Some(round_tenths(x))
            } else {
                Some(x)
            }
        } else {
            None
        },
        None => None,
    }
}

/// Makes the submission of a run.
pub fn submission(
    kind: TestKind,
    hw: Option<&HardwareInfo>,
    gpu: Option<&GpuDevice>,
    laptop: bool,
    details: Details,
    p: &Progress,
    secs: u64,
    version: &str,
    session: &str,
    round: bool,
) -> (r: SubmissionPayload)
    requires
        p@.wf(),
        secs <= i64::MAX,
    ensures
        r@ == payload_of(
            kind,
            hw,
            match gpu {
                Some(g) => Some(g@),
                None => None,
            },
            laptop,
            details@,
            p.cpu,
            p.gpu,
            p@.series,
            secs as int,
            version@,
            session@,
            round,
        ),
{
    let (cpu_model, cpu_cores, cpu_threads, os) = match hw {
        Some(h) => (copy_text(&h.cpu_model), h.cpu_cores, h.cpu_threads, copy_text(&h.os)),
        None => (None, None, None, None),
    };
    let (gpu_model, gpu_vram) = match gpu {
        Some(g) => (Some(g.name.clone()), g.vram()),
        None => (None, None),
    };
    let series = match &p.series {
        Some(s) => Some(s.only(kind.cpu(), kind.gpu())),
        None => None,
    };
    SubmissionPayload {
        test_type: owned(kind.as_str()),
        stress_method: owned("cli_tool"),
        cpu_model,
        cpu_cores,
        cpu_threads,
        gpu_model,
        gpu_vram,
        os,
        device_type: Some(
            owned(
                if laptop {
                    "laptop"
                } else {
                    "desktop"
                },
            ),
        ),
        laptop_model: details.laptop_model,
        cooling_type: details.cooling_type,
        cooling_model: details.cooling_model,
        ambient_temp: details.ambient_temp,
        cpu_temp_idle: keep_if(kind.cpu(), p.cpu.idle),
        cpu_temp_load: keep_if(kind.cpu(), p.cpu.peak),
        gpu_temp_idle: keep_if(kind.gpu(), p.gpu.idle),
        gpu_temp_load: keep_if(kind.gpu(), p.gpu.peak),
        cpu_usage_max: keep_load(kind.cpu(), p.cpu.usage_max, round),
        gpu_usage_max: keep_load(kind.gpu(), p.gpu.usage_max, round),
        test_duration: Some(secs as i64),
        cli_version: Some(owned(version)),
        session_id: Some(owned(session)),
        series,
        baseline_id: details.baseline_id,
        change_type: details.change_type,
    }
}

/// A comparison's contents.
pub ghost struct RequestView {
    pub test_type: Seq<char>,
    pub cpu_model: Option<Seq<char>>,
    pub gpu_model: Option<Seq<char>>,
    pub cpu_temp_load: Option<i64>,
    pub cpu_temp_idle: Option<i64>,
    pub gpu_temp_load: Option<i64>,
    pub gpu_temp_idle: Option<i64>,
    pub result_id: Option<Seq<char>>,
}

impl View for CompareRequest {
    type V = RequestView;

    open spec fn view(&self) -> RequestView {
        RequestView {
            test_type: self.test_type@,
            cpu_model: text_of(self.cpu_model),
            gpu_model: text_of(self.gpu_model),
            cpu_temp_load: self.cpu_temp_load,
            cpu_temp_idle: self.cpu_temp_idle,
            gpu_temp_load: self.gpu_temp_load,
            gpu_temp_idle: self.gpu_temp_idle,
            result_id: text_of(self.result_id),
        }
    }
}

/// What is compared of a submission, itself left out.
pub open spec fn request_of(p: PayloadView, id: Option<Seq<char>>) -> RequestView {
    RequestView {
        test_type: p.test_type,
        cpu_model: p.cpu_model,
        gpu_model: p.gpu_model,
        cpu_temp_load: p.cpu_temp_load,
        cpu_temp_idle: p.cpu_temp_idle,
        gpu_temp_load: p.gpu_temp_load,
        gpu_temp_idle: p.gpu_temp_idle,
        result_id: id,
    }
}

/// A comparison is asked for with the figures and models that were submitted.
pub proof fn lemma_compares_what_was_submitted(p: PayloadView, id: Option<Seq<char>>)
    ensures
        ({
            let q = request_of(p, id);
            &&& q.test_type == p.test_type && q.result_id == id
            &&& q.cpu_model == p.cpu_model && q.gpu_model == p.gpu_model
            &&& q.cpu_temp_load == p.cpu_temp_load && q.gpu_temp_load == p.gpu_temp_load
            &&& q.cpu_temp_idle == p.cpu_temp_idle && q.gpu_temp_idle == p.gpu_temp_idle
        }),
{
}

/// Makes the comparison of a submission.
pub fn comparison(p: SubmissionPayload, id: Option<String>) -> (r: CompareRequest)
    ensures
        r@ == request_of(p@, text_of(id)),
{
    CompareRequest {
        test_type: p.test_type,
        cpu_model: p.cpu_model,
        gpu_model: p.gpu_model,
        cpu_temp_load: p.cpu_temp_load,
        cpu_temp_idle: p.cpu_temp_idle,
        gpu_temp_load: p.gpu_temp_load,
        gpu_temp_idle: p.gpu_temp_idle,
        result_id: id,
    }
}

// ---------------------------------------------------------------------------
// What may be submitted

/// The shortest test that is submitted, in seconds.
pub const MIN_SUBMIT_SECS: u64 = 60;

/// A site on this machine.
pub open spec fn local_site(site: Seq<char>) -> bool {
    crate::text::occurs(site, "://localhost"@) || crate::text::occurs(site, "://127.0.0.1"@)
}

/// Whether a site is on this machine.
pub fn is_local(site: &str) -> (r: bool)
    ensures
        r == local_site(site@),
{
    crate::text::contains(site, "://localhost") || crate::text::contains(site, "://127.0.0.1")
}

/// Why a result is not submitted.
#[derive(Debug, Clone, Copy, PartialEq, Eq, Structural)]
pub enum BlockReason {
    /// Demo results are simulated: they may only go to a local development
    /// server.
    Demo,
    NoSubmit,
    Stopped,
    NoTemps,
    /// A quick test.
    Quick,
}

/// Why a result is not submitted, if it is not.
pub open spec fn blocked(
    demo: bool,
    no_submit: bool,
    site: Seq<char>,
    stopped_early: bool,
    valid: bool,
    secs: int,
) -> Option<BlockReason> {
    if demo && !local_site(site) {
        Some(BlockReason::Demo)
    } else if no_submit {
        Some(BlockReason::NoSubmit)
    } else if stopped_early {
        Some(BlockReason::Stopped)
    } else if !valid {
        Some(BlockReason::NoTemps)
    } else if secs < MIN_SUBMIT_SECS {
        Some(BlockReason::Quick)
    } else {
        None
    }
}

/// Tells why a result is not submitted, if it is not.
pub fn block_reason(
    demo: bool,
    no_submit: bool,
    site: &str,
    stopped_early: bool,
    valid: bool,
    secs: u64,
) -> (r: Option<BlockReason>)
    ensures
        r == blocked(demo, no_submit, site@, stopped_early, valid, secs as int),
{
    if demo && !is_local(site) {
        Some(BlockReason::Demo)
    } else if no_submit {
        Some(BlockReason::NoSubmit)
    } else if stopped_early {
        Some(BlockReason::Stopped)
    } else if !valid {
        Some(BlockReason::NoTemps)
    } else if secs < MIN_SUBMIT_SECS {
        Some(BlockReason::Quick)
    } else {
        None
    }
}

/// A result is submitted exactly if it is complete, valid and of a minute or
/// more, was not asked to be kept, and is real or goes to a local server.
pub proof fn lemma_what_is_submitted(
    demo: bool,
    no_submit: bool,
    site: Seq<char>,
    stopped_early: bool,
    valid: bool,
    secs: int,
)
    ensures
        blocked(demo, no_submit, site, stopped_early, valid, secs) is None <==> !stopped_early
            && valid && secs >= 60 && !no_submit && (demo ==> local_site(site)),
{
}

} // verus!
