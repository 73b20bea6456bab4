//! Diagnostics ("debug mode"): the log on every temperature source and on the
//! system settings that commonly block them, and, after a 30 s stress run, on
//! what came of it.
use vstd::prelude::*;

use crate::afterburner::AfterburnerReading;
use crate::aida64::Aida64Reading;
use crate::api::DebugLogPayload;
use crate::coretemp::CoreTempReading;
use crate::debug;
use crate::decimal::{
    push_signed_dec, push_tenths, push_whole, shown_tenths, shown_whole, signed_dec,
};
use crate::engine::{warning_views, Progress, ProgressView, TestKind, WarningView};
use crate::fixed::UNIT;
use crate::gpus::{vram_text, GpuDevice, GpuView};
use crate::hardware::HardwareInfo;
use crate::hwinfo::{HwinfoReading, HwinfoStatus, TempSample};
use crate::lhm::{LhmGpu, LhmSample};
use crate::setup::SensorSetup;
use crate::stress::{GpuStress, GpuStressView};
use crate::temps::TempReading;
use crate::text::{
    cat3, cat4, char_views, chars_of, contains, dec, digits, digits_of, join_lines, joined,
    line_views, lines, lines_of, lower, occurs, or_text, owned, padded_left, prefixed, push_dec,
    push_line, push_padded, same, string_of, text_of, text_or, to_lower, trim_str, trimmed,
};

verus! {

/// The seconds that the stress lasts.
pub const STRESS_SECONDS: u64 = 30;

/// A temperature with its unit.
pub open spec fn temp_text(t: Option<i64>) -> Seq<char> {
    match t {
        Some(v) => shown_tenths(v as int) + "°C"@,
        None => "N/A"@,
    }
}

/// Formats a temperature.
pub fn fmt_temp(t: Option<i64>) -> (r: String)
    ensures
        r@ == temp_text(t),
{
    match t {
        Some(v) => {
            let mut r = String::new();
            push_tenths(&mut r, v);
            r.append("°C");
            assert(r@ =~= shown_tenths(v as int) + "°C"@);
            r
        },
        None => owned("N/A"),
    }
}

/// A load in whole percent.
pub open spec fn load_text(t: Option<i64>) -> Seq<char> {
    match t {
        Some(v) => shown_whole(v as int) + "%"@,
        None => "N/A"@,
    }
}

fn fmt_load(t: Option<i64>) -> (r: String)
    ensures
        r@ == load_text(t),
{
    match t {
        Some(v) => {
            let mut r = String::new();
            push_whole(&mut r, v);
            r.append("%");
            assert(r@ =~= shown_whole(v as int) + "%"@);
            r
        },
        None => owned("N/A"),
    }
}

/// A load in percent with one digit behind the point.
pub open spec fn usage_text(t: Option<i64>) -> Seq<char> {
    match t {
        Some(v) => shown_tenths(v as int) + "%"@,
        None => "N/A"@,
    }
}

fn fmt_usage(t: Option<i64>) -> (r: String)
    ensures
        r@ == usage_text(t),
{
    match t {
        Some(v) => {
            let mut r = String::new();
            push_tenths(&mut r, v);
            r.append("%");
            assert(r@ =~= shown_tenths(v as int) + "%"@);
            r
        },
        None => owned("N/A"),
    }
}

/// A count, or that there is none.
pub open spec fn count_text(n: Option<i32>) -> Seq<char> {
    match n {
        Some(c) => signed_dec(c as int),
        None => "N/A"@,
    }
}

fn fmt_count(n: Option<i32>) -> (r: String)
    ensures
        r@ == count_text(n),
{
    match n {
        Some(c) => {
            let mut r = String::new();
            push_signed_dec(&mut r, c);
            assert(r@ =~= signed_dec(c as int));
            r
        },
        None => owned("N/A"),
    }
}

/// A number in at least four hexadecimal digits.
pub open spec fn hex4(n: u32) -> Seq<char> {
    padded_left(digits(n as nat, 16), '0', 4)
}

fn fmt_hex4(n: u32) -> (r: String)
    ensures
        r@ == hex4(n),
{
    let mut r = String::new();
    push_padded(&mut r, digits_of(n as u64, 16).as_slice(), '0', 4);
    assert(r@ =~= hex4(n));
    r
}

// ---------------------------------------------------------------------------
// Hardware

/// The line on a card.
pub open spec fn gpu_line(g: GpuView, i: nat, selected: bool) -> Seq<char> {
    "GPU "@ + dec(i) + (if selected {
        " (selected)"@
    } else {
        ""@
    }) + ": "@ + g.name + " | VRAM: "@ + (match g.vram_bytes {
        Some(b) => vram_text(b as int),
        None => "N/A"@,
    }) + " | "@ + debug::kind_text(g.kind) + " | PCI "@ + hex4(
        match g.vendor_id {
            Some(v) => v,
            None => 0,
        },
    ) + ":"@ + hex4(
        match g.device_id {
            Some(v) => v,
            None => 0,
        },
    ) + " | NVML index: "@ + (match g.nvml_index {
        Some(n) => dec(n as nat),
        None => "-"@,
    })
}

fn make_gpu_line(g: &GpuDevice, i: usize, selected: bool) -> (r: String)
    ensures
        r@ == gpu_line(g@, i as nat, selected),
{
    let mut r = String::new();
    r.append("GPU ");
    push_dec(&mut r, i as u64);
    r.append(
        if selected {
            " (selected)"
        } else {
            ""
        },
    );
    r.append(": ");
    r.append(g.name.as_str());
    r.append(" | VRAM: ");
    let vram = text_or(&g.vram(), "N/A");
    r.append(vram.as_str());
    r.append(" | ");
    r.append(debug::kind(g.kind));
    r.append(" | PCI ");
    let vendor: u32 = match g.vendor_id {
        Some(v) => v,
        None => 0,
    };
    r.append(fmt_hex4(vendor).as_str());
    r.append(":");
    let device: u32 = match g.device_id {
        Some(v) => v,
        None => 0,
    };
    r.append(fmt_hex4(device).as_str());
    r.append(" | NVML index: ");
    match g.nvml_index {
        Some(n) => {
            push_dec(&mut r, n as u64);
        },
        None => {
            r.append("-");
        },
    }
    assert(r@ =~= gpu_line(g@, i as nat, selected));
    r
}

/// The lines on the first `n` cards.
pub open spec fn gpu_lines(gpus: Seq<GpuDevice>, selected: Option<usize>, n: int) -> Seq<Seq<char>>
    decreases n,
{
    if n <= 0 {
        Seq::empty()
    } else {
        gpu_lines(gpus, selected, n - 1).push(
            gpu_line(
                gpus[n - 1]@,
                (n - 1) as nat,
                selected is Some && selected->0 == n - 1,
            ),
        )
    }
}

/// The lines on the machine.
pub open spec fn hardware_lines(
    version: Seq<char>,
    timestamp: Seq<char>,
    hw: HardwareInfo,
    selected: Option<usize>,
    on_battery: Option<bool>,
) -> Seq<Seq<char>> {
    let head = seq![
        "ThermalStats CLI Debug Log — v"@ + version,
        "Timestamp: "@ + timestamp,
        Seq::<char>::empty(),
        "=== HARDWARE DETECTION ==="@,
        "CPU Model: "@ + or_text(hw.cpu_model, "N/A"@),
        "CPU Cores: "@ + count_text(hw.cpu_cores),
        "CPU Threads: "@ + count_text(hw.cpu_threads),
    ];
    let gpus = if hw.gpus@.len() == 0 {
        seq!["GPU Model: N/A"@]
    } else {
        gpu_lines(hw.gpus@, selected, hw.gpus@.len() as int)
    };
    let tail = seq![
        "OS: "@ + or_text(hw.os, "N/A"@),
        if hw.is_laptop {
            "Device Type: Laptop"@
        } else {
            "Device Type: Desktop"@
        },
    ];
    let power = match on_battery {
        Some(true) => seq!["Power: BATTERY"@],
        Some(false) => seq!["Power: AC"@],
        None => Seq::empty(),
    };
    head + gpus + tail + power + seq![Seq::<char>::empty()]
}

/// The lines on the machine.
pub fn hardware_section(
    version: &str,
    timestamp: &str,
    hw: &HardwareInfo,
    selected: Option<usize>,
    on_battery: Option<bool>,
) -> (r: Vec<String>)
    ensures
        line_views(r@) == hardware_lines(version@, timestamp@, *hw, selected, on_battery),
{
    let mut out: Vec<String> = Vec::new();
    assert(line_views(out@) =~= Seq::empty());
    push_line(&mut out, prefixed("ThermalStats CLI Debug Log — v", version));
    push_line(&mut out, prefixed("Timestamp: ", timestamp));
    push_line(&mut out, String::new());
    push_line(&mut out, owned("=== HARDWARE DETECTION ==="));
    push_line(&mut out, prefixed("CPU Model: ", text_or(&hw.cpu_model, "N/A").as_str()));
    push_line(&mut out, prefixed("CPU Cores: ", fmt_count(hw.cpu_cores).as_str()));
    push_line(&mut out, prefixed("CPU Threads: ", fmt_count(hw.cpu_threads).as_str()));
    let ghost head = line_views(out@);
    if hw.gpus.len() == 0 {
        push_line(&mut out, owned("GPU Model: N/A"));
        assert(line_views(out@) =~= head + seq!["GPU Model: N/A"@]);
    } else {
        let mut i: usize = 0;
        assert(head + gpu_lines(hw.gpus@, selected, 0) =~= head);
        while i < hw.gpus.len()
            invariant
                i <= hw.gpus.len(),
                line_views(out@) == head + gpu_lines(hw.gpus@, selected, i as int),
            decreases hw.gpus.len() - i,
        {
            let is_selected = match selected {
                Some(s) => s == i,
                None => false,
            };
            push_line(&mut out, make_gpu_line(&hw.gpus[i], i, is_selected));
            i = i + 1;
            assert(line_views(out@) =~= head + gpu_lines(hw.gpus@, selected, i as int));
        }
    }
    push_line(&mut out, prefixed("OS: ", text_or(&hw.os, "N/A").as_str()));
    push_line(
        &mut out,
        owned(
            if hw.is_laptop {
                "Device Type: Laptop"
            } else {
                "Device Type: Desktop"
            },
        ),
    );
    match on_battery {
        Some(b) => {
            push_line(
                &mut out,
                owned(
                    if b {
                        "Power: BATTERY"
                    } else {
                        "Power: AC"
                    },
                ),
            );
        },
        None => {},
    }
    push_line(&mut out, String::new());
    assert(line_views(out@) =~= hardware_lines(version@, timestamp@, *hw, selected, on_battery));
    out
}

// ---------------------------------------------------------------------------
// Sensor setup

/// The lines on how temperatures are read.
pub open spec fn setup_lines(setup: SensorSetup, nvml: bool) -> Seq<Seq<char>> {
    seq![
        "=== SENSOR SETUP ==="@,
        if setup.elevated {
            "Running as Administrator/root: YES"@
        } else {
            "Running as Administrator/root: NO"@
        },
        "Monitoring app: "@ + (match setup.monitoring_app {
            Some(a) => a.label(),
            None => "none"@,
        }),
        if setup.hwinfo_shared_memory_off {
            "HWiNFO shared memory disabled: YES"@
        } else {
            "HWiNFO shared memory disabled: no"@
        },
        "Sensor driver (PawnIO): "@ + debug::driver_text(setup.driver@),
        "LibreHardwareMonitor helper: "@ + or_text(setup.lhm_dir, "not used"@),
        if nvml {
            "NVIDIA driver interface: NVML"@
        } else {
            "NVIDIA driver interface: nvidia-smi or none"@
        },
        Seq::<char>::empty(),
    ]
}

/// The lines on how temperatures are read.
pub fn setup_section(setup: &SensorSetup, nvml: bool) -> (r: Vec<String>)
    ensures
        line_views(r@) == setup_lines(*setup, nvml),
{
    let mut out: Vec<String> = Vec::new();
    assert(line_views(out@) =~= Seq::empty());
    push_line(&mut out, owned("=== SENSOR SETUP ==="));
    push_line(
        &mut out,
        owned(
            if setup.elevated {
                "Running as Administrator/root: YES"
            } else {
                "Running as Administrator/root: NO"
            },
        ),
    );
    let app = match setup.monitoring_app {
        Some(a) => a.name(),
        None => "none",
    };
    push_line(&mut out, prefixed("Monitoring app: ", app));
    push_line(
        &mut out,
        owned(
            if setup.hwinfo_shared_memory_off {
                "HWiNFO shared memory disabled: YES"
            } else {
                "HWiNFO shared memory disabled: no"
            },
        ),
    );
    push_line(
        &mut out,
        prefixed("Sensor driver (PawnIO): ", debug::driver(&setup.driver).as_str()),
    );
    push_line(
        &mut out,
        prefixed("LibreHardwareMonitor helper: ", text_or(&setup.lhm_dir, "not used").as_str()),
    );
    push_line(
        &mut out,
        owned(
            if nvml {
                "NVIDIA driver interface: NVML"
            } else {
                "NVIDIA driver interface: nvidia-smi or none"
            },
        ),
    );
    push_line(&mut out, String::new());
    assert(line_views(out@) =~= setup_lines(*setup, nvml));
    out
}

// ---------------------------------------------------------------------------
// Temperature sources

/// What the sources say of a card.
pub struct GpuReading {
    pub name: String,
    pub temp: Option<TempReading>,
    pub usage: Option<i64>,
}

/// A reading and where it comes from.
pub open spec fn reading_text(t: TempReading) -> Seq<char> {
    shown_tenths(t.celsius as int) + "°C via "@ + t.source@
}

fn fmt_reading(t: &TempReading) -> (r: String)
    ensures
        r@ == reading_text(*t),
{
    let mut r = String::new();
    push_tenths(&mut r, t.celsius);
    r.append("°C via ");
    r.append(t.source.as_str());
    assert(r@ =~= reading_text(*t));
    r
}

/// The line on what the sources say of a card.
pub open spec fn source_line(g: GpuReading, i: nat) -> Seq<char> {
    "GPU "@ + dec(i) + " ("@ + g.name@ + "): "@ + (match g.temp {
        Some(t) => reading_text(t),
        None => "NOT AVAILABLE"@,
    }) + " | load: "@ + load_text(g.usage)
}

/// The lines on what the sources say of the first `n` cards.
pub open spec fn source_gpu_lines(gpus: Seq<GpuReading>, n: int) -> Seq<Seq<char>>
    decreases n,
{
    if n <= 0 {
        Seq::empty()
    } else {
        source_gpu_lines(gpus, n - 1).push(source_line(gpus[n - 1], (n - 1) as nat))
    }
}

/// The lines on what the sources say.
pub open spec fn source_lines(cpu: Option<TempReading>, gpus: Seq<GpuReading>) -> Seq<Seq<char>> {
    seq![
        "=== TEMPERATURE SOURCES ==="@,
        match cpu {
            Some(t) => "CPU: "@ + reading_text(t),
            None => "CPU: NOT AVAILABLE"@,
        },
    ] + source_gpu_lines(gpus, gpus.len() as int) + seq![Seq::<char>::empty()]
}

fn make_source_line(g: &GpuReading, i: usize) -> (r: String)
    ensures
        r@ == source_line(*g, i as nat),
{
    let mut r = String::new();
    r.append("GPU ");
    push_dec(&mut r, i as u64);
    r.append(" (");
    r.append(g.name.as_str());
    r.append("): ");
    let temp = match &g.temp {
        Some(t) => fmt_reading(t),
        None => owned("NOT AVAILABLE"),
    };
    r.append(temp.as_str());
    r.append(" | load: ");
    r.append(fmt_load(g.usage).as_str());
    assert(r@ =~= source_line(*g, i as nat));
    r
}

/// The lines on what the sources say.
pub fn sources_section(cpu: &Option<TempReading>, gpus: &Vec<GpuReading>) -> (r: Vec<String>)
    ensures
        line_views(r@) == source_lines(*cpu, gpus@),
{
    let mut out: Vec<String> = Vec::new();
    assert(line_views(out@) =~= Seq::empty());
    push_line(&mut out, owned("=== TEMPERATURE SOURCES ==="));
    match cpu {
        Some(t) => push_line(&mut out, prefixed("CPU: ", fmt_reading(t).as_str())),
        None => push_line(&mut out, owned("CPU: NOT AVAILABLE")),
    }
    let ghost head = line_views(out@);
    let mut i: usize = 0;
    assert(head + source_gpu_lines(gpus@, 0) =~= head);
    while i < gpus.len()
        invariant
            i <= gpus.len(),
            line_views(out@) == head + source_gpu_lines(gpus@, i as int),
        decreases gpus.len() - i,
    {
        push_line(&mut out, make_source_line(&gpus[i], i));
        i = i + 1;
        assert(line_views(out@) =~= head + source_gpu_lines(gpus@, i as int));
    }
    push_line(&mut out, String::new());
    assert(line_views(out@) =~= source_lines(*cpu, gpus@));
    out
}

// ---------------------------------------------------------------------------
// Graphics adapters

/// What the graphics interface says of an adapter.
pub struct AdapterReport {
    pub name: String,
    pub backend: String,
    pub kind: String,
    pub vendor: u32,
    pub device: u32,
    pub driver: String,
    pub driver_info: String,
}

/// The line on an adapter.
pub open spec fn adapter_line(a: AdapterReport) -> Seq<char> {
    a.name@ + " | "@ + a.backend@ + " | "@ + a.kind@ + " | PCI "@ + hex4(a.vendor) + ":"@ + hex4(
        a.device,
    ) + " | driver: "@ + a.driver@ + " "@ + a.driver_info@
}

/// The lines on the first `n` adapters.
pub open spec fn adapter_lines(s: Seq<AdapterReport>, n: int) -> Seq<Seq<char>>
    decreases n,
{
    if n <= 0 {
        seq!["=== GRAPHICS ADAPTERS (stress test) ==="@]
    } else {
        adapter_lines(s, n - 1).push(adapter_line(s[n - 1]))
    }
}

fn make_adapter_line(a: &AdapterReport) -> (r: String)
    ensures
        r@ == adapter_line(*a),
{
    let mut r = String::new();
    r.append(a.name.as_str());
    r.append(" | ");
    r.append(a.backend.as_str());
    r.append(" | ");
    r.append(a.kind.as_str());
    r.append(" | PCI ");
    r.append(fmt_hex4(a.vendor).as_str());
    r.append(":");
    r.append(fmt_hex4(a.device).as_str());
    r.append(" | driver: ");
    r.append(a.driver.as_str());
    r.append(" ");
    r.append(a.driver_info.as_str());
    assert(r@ =~= adapter_line(*a));
    r
}

/// The lines on the adapters.
pub fn adapters_section(adapters: &Vec<AdapterReport>) -> (r: Vec<String>)
    ensures
        line_views(r@) == adapter_lines(adapters@, adapters@.len() as int).push(
            Seq::<char>::empty(),
        ),
{
    let mut out: Vec<String> = Vec::new();
    assert(line_views(out@) =~= Seq::empty());
    push_line(&mut out, owned("=== GRAPHICS ADAPTERS (stress test) ==="));
    let mut i: usize = 0;
    assert(line_views(out@) =~= adapter_lines(adapters@, 0));
    while i < adapters.len()
        invariant
            i <= adapters.len(),
            line_views(out@) == adapter_lines(adapters@, i as int),
        decreases adapters.len() - i,
    {
        push_line(&mut out, make_adapter_line(&adapters[i]));
        i = i + 1;
    }
    push_line(&mut out, String::new());
    out
}

// ---------------------------------------------------------------------------
// Windows

/// What the helper says when it is run once.
pub struct HelperReport {
    /// The names in its directory, if that can be read.
    pub files: Option<Vec<String>>,
    pub sample: Option<LhmSample>,
    pub stderr: String,
}

/// What was found on a Windows machine.
pub struct WindowsReport {
    pub pawnio_installed: bool,
    /// What the service control says of the driver, if it knows it.
    pub service: Option<String>,
    /// The helper, if it is used.
    pub helper: Option<HelperReport>,
    pub hwinfo: HwinfoStatus,
    pub hwinfo_reading: Option<HwinfoReading>,
    /// What HWiNFO's memory holds, for when it cannot be read.
    pub hwinfo_raw: String,
    pub hwinfo_all: Vec<TempSample>,
    /// For each app: none if it is not running, else what it says.
    pub afterburner: Option<Option<AfterburnerReading>>,
    pub aida64: Option<Option<Aida64Reading>>,
    pub coretemp: Option<Option<CoreTempReading>>,
    pub acpi: String,
    pub ohm: String,
    pub perf: String,
    /// The names of the security software, one a line, if they could be asked.
    pub antivirus: Option<String>,
    /// Whether folder access is controlled, if that could be asked.
    pub folder_access: Option<String>,
}

/// The first of the lines from `i` on that tells the state.
pub open spec fn state_line(ls: Seq<Seq<char>>, i: int) -> Seq<char>
    decreases ls.len() - i,
{
    if i < 0 || i >= ls.len() {
        "UNKNOWN"@
    } else if occurs(ls[i], "STATE"@) {
        ls[i]
    } else {
        state_line(ls, i + 1)
    }
}

/// The lines on the driver.
pub open spec fn pawnio_lines(w: WindowsReport) -> Seq<Seq<char>> {
    seq![
        "=== PAWNIO DRIVER STATUS ==="@,
        if w.pawnio_installed {
            "PawnIO registry entry: FOUND"@
        } else {
            "PawnIO registry entry: NOT FOUND"@
        },
        match w.service {
            Some(out) => "PawnIO kernel service: "@ + trimmed(state_line(lines(out@), 0)),
            None => "PawnIO kernel service: NOT INSTALLED"@,
        },
        Seq::<char>::empty(),
    ]
}

/// The line on a GPU of the helper.
pub open spec fn helper_gpu_line(g: LhmGpu) -> Seq<char> {
    "GPU "@ + g.name@ + ": "@ + temp_text(g.temp) + " ("@ + or_text(g.sensor, ""@) + ") load "@
        + load_text(g.load)
}

/// The lines on the first `n` GPUs of the helper.
pub open spec fn helper_gpu_lines(gpus: Seq<LhmGpu>, n: int) -> Seq<Seq<char>>
    decreases n,
{
    if n <= 0 {
        Seq::empty()
    } else {
        helper_gpu_lines(gpus, n - 1).push(helper_gpu_line(gpus[n - 1]))
    }
}

/// The lines on what the helper says.
pub open spec fn sample_lines(s: Option<LhmSample>) -> Seq<Seq<char>> {
    match s {
        Some(x) => seq![
            "CPU: "@ + temp_text(x.cpu_temp) + " ("@ + or_text(x.cpu_sensor, ""@) + ")"@,
        ] + helper_gpu_lines(x.gpus@, x.gpus@.len() as int),
        None => seq!["ThermalReader.exe: no reading"@],
    }
}

/// The lines on the helper; none if it is not used.
pub open spec fn helper_lines(h: Option<HelperReport>) -> Seq<Seq<char>> {
    match h {
        None => Seq::empty(),
        Some(x) => seq!["=== LIBREHARDWAREMONITOR HELPER ==="@] + (match x.files {
            Some(f) => seq!["Files: "@ + joined(line_views(f@), ", "@)],
            None => Seq::empty(),
        }) + sample_lines(x.sample) + (if x.stderr@.len() > 0 {
            seq!["Stderr: "@ + x.stderr@]
        } else {
            Seq::empty()
        }) + seq![Seq::<char>::empty()],
    }
}

/// A temperature, and where it comes from.
pub open spec fn temp_and_source(t: Option<i64>, source: Option<String>) -> Seq<char> {
    temp_text(t) + " ("@ + or_text(source, ""@) + ")"@
}

/// The first `n` lines, each moved in.
pub open spec fn moved_in(ls: Seq<Seq<char>>, n: int) -> Seq<Seq<char>>
    decreases n,
{
    if n <= 0 {
        Seq::empty()
    } else {
        moved_in(ls, n - 1).push("  "@ + ls[n - 1])
    }
}

/// The line on one of HWiNFO's readings.
pub open spec fn dump_line(s: TempSample) -> Seq<char> {
    "    ["@ + s.sensor_name@ + "] "@ + s.label@ + " = "@ + s.shown@ + "°C"@
}

/// The lines on the first `n` of HWiNFO's readings.
pub open spec fn dump_lines(s: Seq<TempSample>, n: int) -> Seq<Seq<char>>
    decreases n,
{
    if n <= 0 {
        Seq::empty()
    } else {
        dump_lines(s, n - 1).push(dump_line(s[n - 1]))
    }
}

/// The lines on HWiNFO.
pub open spec fn hwinfo_lines(w: WindowsReport) -> Seq<Seq<char>> {
    match w.hwinfo {
        HwinfoStatus::SharedMemoryReadable => seq!["HWiNFO: shared memory READABLE"@] + (
        match w.hwinfo_reading {
            Some(r) => seq![
                "  CPU: "@ + temp_and_source(r.cpu_temp, r.cpu_source),
                "  GPU: "@ + temp_and_source(r.gpu_temp, r.gpu_source),
            ],
            None => seq![
                "  read_temps() returned None (signature/layout validation failed)"@,
            ] + moved_in(lines(w.hwinfo_raw@), lines(w.hwinfo_raw@).len() as int),
        }) + seq![
            "  All HWiNFO temperature readings ("@ + dec(w.hwinfo_all@.len()) + " entries):"@,
        ] + dump_lines(w.hwinfo_all@, w.hwinfo_all@.len() as int),
        HwinfoStatus::ProcessRunningNoSharedMem => seq![
            "HWiNFO: running but Shared Memory Support DISABLED"@,
        ],
        HwinfoStatus::NotRunning => seq!["HWiNFO: not running"@],
    }
}

/// What an app says of both parts.
pub open spec fn both_text(
    cpu: Option<i64>,
    cpu_source: Option<String>,
    gpu: Option<i64>,
    gpu_source: Option<String>,
) -> Seq<char> {
    "CPU "@ + temp_and_source(cpu, cpu_source) + " | GPU "@ + temp_and_source(gpu, gpu_source)
}

/// The lines on the other apps.
pub open spec fn app_lines(w: WindowsReport) -> Seq<Seq<char>> {
    seq![
        match w.afterburner {
            Some(Some(r)) => "MSI Afterburner: "@ + both_text(
                r.cpu_temp,
                r.cpu_source,
                r.gpu_temp,
                r.gpu_source,
            ),
            Some(None) => "MSI Afterburner: mapping found, no temperatures parsed"@,
            None => "MSI Afterburner: not running"@,
        },
        match w.aida64 {
            Some(Some(r)) => "AIDA64: "@ + both_text(
                r.cpu_temp,
                r.cpu_source,
                r.gpu_temp,
                r.gpu_source,
            ),
            Some(None) => "AIDA64: mapping found, no <temp> records parsed"@,
            None => "AIDA64: not running (or External Applications sharing disabled)"@,
        },
        match w.coretemp {
            Some(Some(r)) => "Core Temp: CPU "@ + temp_and_source(r.cpu_temp, r.cpu_source),
            Some(None) => "Core Temp: invalid struct layout"@,
            None => "Core Temp: not running"@,
        },
        Seq::<char>::empty(),
    ]
}

/// The lines on the system's own temperatures.
pub open spec fn api_lines(w: WindowsReport) -> Seq<Seq<char>> {
    seq![
        "=== WINDOWS TEMPERATURE APIS ==="@,
        "WMI MSAcpi_ThermalZoneTemperature: "@ + w.acpi@,
        "WMI OHM/LHM namespace: "@ + w.ohm@,
        "Performance counter thermal zones: "@ + w.perf@,
        Seq::<char>::empty(),
    ]
}

/// The names on the first `n` lines that are not blank.
pub open spec fn name_lines(ls: Seq<Seq<char>>, n: int) -> Seq<Seq<char>>
    decreases n,
{
    if n <= 0 {
        Seq::empty()
    } else if trimmed(ls[n - 1]).len() == 0 {
        name_lines(ls, n - 1)
    } else {
        name_lines(ls, n - 1).push("  - "@ + trimmed(ls[n - 1]))
    }
}

/// The lines on security software.
pub open spec fn antivirus_lines(out: Option<String>) -> Seq<Seq<char>> {
    match out {
        Some(o) => {
            let names = name_lines(lines(o@), lines(o@).len() as int);
            if names.len() == 0 {
                seq!["  None detected via SecurityCenter2"@]
            } else {
                names
            }
        },
        None => seq!["  Could not query SecurityCenter2"@],
    }
}

/// The line on controlled folder access.
pub open spec fn folder_line(out: Option<String>) -> Seq<char> {
    match out {
        Some(o) => {
            let v = lower(trimmed(o@));
            if v == "1"@ || v == "true"@ {
                "Controlled Folder Access: ENABLED (may block sensor readers)"@
            } else {
                "Controlled Folder Access: Disabled"@
            }
        },
        None => "Controlled Folder Access: could not determine"@,
    }
}

/// The lines on what may block the sensors.
pub open spec fn blocking_lines(w: WindowsReport) -> Seq<Seq<char>> {
    seq!["=== POTENTIAL BLOCKING FACTORS ==="@, "Active antivirus/security software:"@]
        + antivirus_lines(w.antivirus) + seq![folder_line(w.folder_access), Seq::<char>::empty()]
}

/// The lines on a Windows machine.
pub open spec fn windows_lines(w: WindowsReport) -> Seq<Seq<char>> {
    pawnio_lines(w) + helper_lines(w.helper) + seq!["=== MONITORING APPS (shared memory) ==="@]
        + hwinfo_lines(w) + app_lines(w) + api_lines(w) + blocking_lines(w)
}

fn find_state(out: &str) -> (r: String)
    ensures
        r@ == trimmed(state_line(lines(out@), 0)),
{
    let ls: Vec<Vec<char>> = lines_of(chars_of(out).as_slice());
    let ghost all = char_views(ls@);
    let mut i: usize = 0;
    while i < ls.len()
        invariant
            i <= ls.len(),
            all == char_views(ls@),
            all == lines(out@),
            state_line(all, 0) == state_line(all, i as int),
        decreases ls.len() - i,
    {
        assert(all[i as int] == ls@[i as int]@);
        let line = string_of(ls[i].as_slice());
        if contains(line.as_str(), "STATE") {
            return trim_str(line.as_str());
        }
        i = i + 1;
    }
    trim_str("UNKNOWN")
}

fn push_pawnio(out: &mut Vec<String>, w: &WindowsReport)
    ensures
        line_views(final(out)@) == line_views(old(out)@) + pawnio_lines(*w),
{
    let ghost start = line_views(out@);
    push_line(out, owned("=== PAWNIO DRIVER STATUS ==="));
    push_line(
        out,
        owned(
            if w.pawnio_installed {
                "PawnIO registry entry: FOUND"
            } else {
                "PawnIO registry entry: NOT FOUND"
            },
        ),
    );
    match &w.service {
        Some(o) => push_line(
            out,
            prefixed("PawnIO kernel service: ", find_state(o.as_str()).as_str()),
        ),
        None => push_line(out, owned("PawnIO kernel service: NOT INSTALLED")),
    }
    push_line(out, String::new());
    assert(line_views(out@) =~= start + pawnio_lines(*w));
}

fn fmt_temp_source(t: Option<i64>, source: &Option<String>) -> (r: String)
    ensures
        r@ == temp_and_source(t, *source),
{
    cat4(fmt_temp(t).as_str(), " (", text_or(source, "").as_str(), ")")
}

fn make_helper_gpu_line(g: &LhmGpu) -> (r: String)
    ensures
        r@ == helper_gpu_line(*g),
{
    let mut r = String::new();
    r.append("GPU ");
    r.append(g.name.as_str());
    r.append(": ");
    r.append(fmt_temp(g.temp).as_str());
    r.append(" (");
    r.append(text_or(&g.sensor, "").as_str());
    r.append(") load ");
    r.append(fmt_load(g.load).as_str());
    assert(r@ =~= helper_gpu_line(*g));
    r
}

fn push_sample(out: &mut Vec<String>, s: &Option<LhmSample>)
    ensures
        line_views(final(out)@) == line_views(old(out)@) + sample_lines(*s),
{
    let ghost start = line_views(out@);
    match s {
        Some(x) => {
            let what = fmt_temp_source(x.cpu_temp, &x.cpu_sensor);
            let first = prefixed("CPU: ", what.as_str());
            assert(first@ =~= "CPU: "@ + temp_text(x.cpu_temp) + " ("@ + or_text(
                x.cpu_sensor,
                ""@,
            ) + ")"@);
            push_line(out, first);
            let ghost head = line_views(out@);
            let mut i: usize = 0;
            assert(head + helper_gpu_lines(x.gpus@, 0) =~= head);
            while i < x.gpus.len()
                invariant
                    i <= x.gpus.len(),
                    line_views(out@) == head + helper_gpu_lines(x.gpus@, i as int),
                decreases x.gpus.len() - i,
            {
                push_line(out, make_helper_gpu_line(&x.gpus[i]));
                i = i + 1;
                assert(line_views(out@) =~= head + helper_gpu_lines(x.gpus@, i as int));
            }
        },
        None => push_line(out, owned("ThermalReader.exe: no reading")),
    }
    assert(line_views(out@) =~= start + sample_lines(*s));
}

fn push_helper(out: &mut Vec<String>, h: &Option<HelperReport>)
    ensures
        line_views(final(out)@) == line_views(old(out)@) + helper_lines(*h),
{
    let ghost start = line_views(out@);
    match h {
        None => {},
        Some(x) => {
            push_line(out, owned("=== LIBREHARDWAREMONITOR HELPER ==="));
            match &x.files {
                Some(f) => push_line(out, prefixed("Files: ", join_lines(f, ", ").as_str())),
                None => {},
            }
            push_sample(out, &x.sample);
            if !x.stderr.as_str().is_empty() {
                push_line(out, prefixed("Stderr: ", x.stderr.as_str()));
            }
            push_line(out, String::new());
        },
    }
    assert(line_views(out@) =~= start + helper_lines(*h));
}

fn make_dump_line(s: &TempSample) -> (r: String)
    ensures
        r@ == dump_line(*s),
{
    let mut r = String::new();
    r.append("    [");
    r.append(s.sensor_name.as_str());
    r.append("] ");
    r.append(s.label.as_str());
    r.append(" = ");
    r.append(s.shown.as_str());
    r.append("°C");
    assert(r@ =~= dump_line(*s));
    r
}

fn push_moved_in(out: &mut Vec<String>, text: &str)
    ensures
        line_views(final(out)@) == line_views(old(out)@) + moved_in(
            lines(text@),
            lines(text@).len() as int,
        ),
{
    let ls: Vec<Vec<char>> = lines_of(chars_of(text).as_slice());
    let ghost all = char_views(ls@);
    let ghost start = line_views(out@);
    let mut i: usize = 0;
    assert(start + moved_in(all, 0) =~= start);
    while i < ls.len()
        invariant
            i <= ls.len(),
            all == char_views(ls@),
            line_views(out@) == start + moved_in(all, i as int),
        decreases ls.len() - i,
    {
        assert(all[i as int] == ls@[i as int]@);
        push_line(out, prefixed("  ", string_of(ls[i].as_slice()).as_str()));
        i = i + 1;
        assert(line_views(out@) =~= start + moved_in(all, i as int));
    }
}

fn push_hwinfo(out: &mut Vec<String>, w: &WindowsReport)
    ensures
        line_views(final(out)@) == line_views(old(out)@) + hwinfo_lines(*w),
{
    let ghost start = line_views(out@);
    match w.hwinfo {
        HwinfoStatus::SharedMemoryReadable => {
            push_line(out, owned("HWiNFO: shared memory READABLE"));
            match &w.hwinfo_reading {
                Some(r) => {
                    push_line(
                        out,
                        prefixed("  CPU: ", fmt_temp_source(r.cpu_temp, &r.cpu_source).as_str()),
                    );
                    push_line(
                        out,
                        prefixed("  GPU: ", fmt_temp_source(r.gpu_temp, &r.gpu_source).as_str()),
                    );
                },
                None => {
                    push_line(
                        out,
                        owned("  read_temps() returned None (signature/layout validation failed)"),
                    );
                    push_moved_in(out, w.hwinfo_raw.as_str());
                },
            }
            let mut title = String::new();
            title.append("  All HWiNFO temperature readings (");
            push_dec(&mut title, w.hwinfo_all.len() as u64);
            title.append(" entries):");
            assert(title@ =~= "  All HWiNFO temperature readings ("@ + dec(w.hwinfo_all@.len())
                + " entries):"@);
            push_line(out, title);
            let ghost head = line_views(out@);
            let mut i: usize = 0;
            assert(head + dump_lines(w.hwinfo_all@, 0) =~= head);
            while i < w.hwinfo_all.len()
                invariant
                    i <= w.hwinfo_all.len(),
                    line_views(out@) == head + dump_lines(w.hwinfo_all@, i as int),
                decreases w.hwinfo_all.len() - i,
            {
                push_line(out, make_dump_line(&w.hwinfo_all[i]));
                i = i + 1;
                assert(line_views(out@) =~= head + dump_lines(w.hwinfo_all@, i as int));
            }
        },
        HwinfoStatus::ProcessRunningNoSharedMem => push_line(
            out,
            owned("HWiNFO: running but Shared Memory Support DISABLED"),
        ),
        HwinfoStatus::NotRunning => push_line(out, owned("HWiNFO: not running")),
    }
    assert(line_views(out@) =~= start + hwinfo_lines(*w));
}

fn fmt_both(
    cpu: Option<i64>,
    cpu_source: &Option<String>,
    gpu: Option<i64>,
    gpu_source: &Option<String>,
) -> (r: String)
    ensures
        r@ == both_text(cpu, *cpu_source, gpu, *gpu_source),
{
    cat4(
        "CPU ",
        fmt_temp_source(cpu, cpu_source).as_str(),
        " | GPU ",
        fmt_temp_source(gpu, gpu_source).as_str(),
    )
}

fn push_apps(out: &mut Vec<String>, w: &WindowsReport)
    ensures
        line_views(final(out)@) == line_views(old(out)@) + app_lines(*w),
{
    let ghost start = line_views(out@);
    let a = match &w.afterburner {
        Some(Some(r)) => prefixed(
            "MSI Afterburner: ",
            fmt_both(r.cpu_temp, &r.cpu_source, r.gpu_temp, &r.gpu_source).as_str(),
        ),
        Some(None) => owned("MSI Afterburner: mapping found, no temperatures parsed"),
        None => owned("MSI Afterburner: not running"),
    };
    push_line(out, a);
    let b = match &w.aida64 {
        Some(Some(r)) => prefixed(
            "AIDA64: ",
            fmt_both(r.cpu_temp, &r.cpu_source, r.gpu_temp, &r.gpu_source).as_str(),
        ),
        Some(None) => owned("AIDA64: mapping found, no <temp> records parsed"),
        None => owned("AIDA64: not running (or External Applications sharing disabled)"),
    };
    push_line(out, b);
    let c = match &w.coretemp {
        Some(Some(r)) => prefixed(
            "Core Temp: CPU ",
            fmt_temp_source(r.cpu_temp, &r.cpu_source).as_str(),
        ),
        Some(None) => owned("Core Temp: invalid struct layout"),
        None => owned("Core Temp: not running"),
    };
    push_line(out, c);
    push_line(out, String::new());
    assert(line_views(out@) =~= start + app_lines(*w));
}

fn push_apis(out: &mut Vec<String>, w: &WindowsReport)
    ensures
        line_views(final(out)@) == line_views(old(out)@) + api_lines(*w),
{
    let ghost start = line_views(out@);
    push_line(out, owned("=== WINDOWS TEMPERATURE APIS ==="));
    push_line(out, prefixed("WMI MSAcpi_ThermalZoneTemperature: ", w.acpi.as_str()));
    push_line(out, prefixed("WMI OHM/LHM namespace: ", w.ohm.as_str()));
    push_line(out, prefixed("Performance counter thermal zones: ", w.perf.as_str()));
    push_line(out, String::new());
    assert(line_views(out@) =~= start + api_lines(*w));
}

fn push_antivirus(out: &mut Vec<String>, o: &Option<String>)
    ensures
        line_views(final(out)@) == line_views(old(out)@) + antivirus_lines(*o),
{
    let ghost start = line_views(out@);
    match o {
        Some(text) => {
            let ls: Vec<Vec<char>> = lines_of(chars_of(text.as_str()).as_slice());
            let ghost all = char_views(ls@);
            let mut found = false;
            let mut i: usize = 0;
            assert(start + name_lines(all, 0) =~= start);
            while i < ls.len()
                invariant
                    i <= ls.len(),
                    all == char_views(ls@),
                    found == (name_lines(all, i as int).len() > 0),
                    line_views(out@) == start + name_lines(all, i as int),
                decreases ls.len() - i,
            {
                assert(all[i as int] == ls@[i as int]@);
                let name = trim_str(string_of(ls[i].as_slice()).as_str());
                if !name.as_str().is_empty() {
                    push_line(out, prefixed("  - ", name.as_str()));
                    found = true;
                }
                i = i + 1;
                assert(line_views(out@) =~= start + name_lines(all, i as int));
            }
            if !found {
                push_line(out, owned("  None detected via SecurityCenter2"));
            }
        },
        None => push_line(out, owned("  Could not query SecurityCenter2")),
    }
    assert(line_views(out@) =~= start + antivirus_lines(*o));
}

/// Whether a setting in lower case is on.
pub fn is_on(v: &str) -> (r: bool)
    ensures
        r == (v@ == "1"@ || v@ == "true"@),
{
    same(v, "1") || same(v, "true")
}

fn push_blocking(out: &mut Vec<String>, w: &WindowsReport)
    ensures
        line_views(final(out)@) == line_views(old(out)@) + blocking_lines(*w),
{
    let ghost start = line_views(out@);
    push_line(out, owned("=== POTENTIAL BLOCKING FACTORS ==="));
    push_line(out, owned("Active antivirus/security software:"));
    push_antivirus(out, &w.antivirus);
    match &w.folder_access {
        Some(o) => {
            let v = to_lower(trim_str(o.as_str()).as_str());
            push_line(
                out,
                owned(
                    if is_on(v.as_str()) {
                        "Controlled Folder Access: ENABLED (may block sensor readers)"
                    } else {
                        "Controlled Folder Access: Disabled"
                    },
                ),
            );
        },
        None => push_line(out, owned("Controlled Folder Access: could not determine")),
    }
    push_line(out, String::new());
    assert(line_views(out@) =~= start + blocking_lines(*w));
}

/// The lines on a Windows machine: the driver, the helper, the monitoring apps,
/// the system's own temperatures, and what may block the sensors.
pub fn windows_checks(w: &WindowsReport) -> (r: Vec<String>)
    ensures
        line_views(r@) == windows_lines(*w),
{
    let mut out: Vec<String> = Vec::new();
    assert(line_views(out@) =~= Seq::empty());
    push_pawnio(&mut out, w);
    push_helper(&mut out, &w.helper);
    push_line(&mut out, owned("=== MONITORING APPS (shared memory) ==="));
    push_hwinfo(&mut out, w);
    push_apps(&mut out, w);
    push_apis(&mut out, w);
    push_blocking(&mut out, w);
    assert(line_views(out@) =~= windows_lines(*w));
    out
}

// ---------------------------------------------------------------------------
// After the stress

/// The lines on the first `n` warnings.
pub open spec fn warning_lines(ws: Seq<WarningView>, n: int) -> Seq<Seq<char>>
    decreases n,
{
    if n <= 0 {
        Seq::empty()
    } else {
        warning_lines(ws, n - 1).push("WARNING: "@ + debug::warning_text(ws[n - 1]))
    }
}

/// Whether the GPU's stress worked.
pub open spec fn stress_verdict(g: GpuStressView) -> Seq<char> {
    match g {
        GpuStressView::Running { .. } => "WORKING"@,
        GpuStressView::Failed(e) => "FAILED ("@ + e + ")"@,
        other => debug::stress_text(other),
    }
}

/// The lines on the stress, and a verdict for each part.
pub open spec fn summary_lines(kind: TestKind, p: ProgressView) -> Seq<Seq<char>> {
    seq![
        "=== "@ + dec(STRESS_SECONDS as nat) + "-SECOND DIAGNOSTIC STRESS TEST ==="@,
        "Stress: "@ + kind.code() + " | GPU worker: "@ + debug::stress_text(p.stress.gpu)
            + " | CPU threads: "@ + dec(p.stress.cpu_threads),
        "Idle temps — CPU: "@ + temp_text(p.cpu.idle) + " | GPU: "@ + temp_text(p.gpu.idle),
        "Peak temps — CPU: "@ + temp_text(p.cpu.peak) + " | GPU: "@ + temp_text(p.gpu.peak),
        "Max usage — CPU: "@ + usage_text(p.cpu.usage_max) + " | GPU: "@ + usage_text(
            p.gpu.usage_max,
        ),
    ] + warning_lines(p.warnings, p.warnings.len() as int) + seq![
        Seq::<char>::empty(),
        "=== VALIDATION SUMMARY ==="@,
        if p.cpu.valid() {
            "CPU temperature sensor: WORKING"@
        } else {
            "CPU temperature sensor: ISSUE DETECTED"@
        },
        if p.gpu.idle is Some && p.gpu.peak is Some {
            "GPU temperature sensor: WORKING"@
        } else {
            "GPU temperature sensor: ISSUE DETECTED"@
        },
        if p.cpu.usage_max is Some && p.cpu.usage_max->0 > 50 * UNIT {
            "CPU stress threads: WORKING"@
        } else {
            "CPU stress threads: LOW USAGE"@
        },
        "GPU stress: "@ + stress_verdict(p.stress.gpu),
    ]
}

/// The stress test's results, and a verdict for each subsystem.
pub fn summarize(kind: TestKind, p: &Progress) -> (r: Vec<String>)
    ensures
        line_views(r@) == summary_lines(kind, p@),
{
    let mut out: Vec<String> = Vec::new();
    assert(line_views(out@) =~= Seq::empty());
    let mut title = String::new();
    title.append("=== ");
    push_dec(&mut title, STRESS_SECONDS);
    title.append("-SECOND DIAGNOSTIC STRESS TEST ===");
    assert(title@ =~= "=== "@ + dec(STRESS_SECONDS as nat)
        + "-SECOND DIAGNOSTIC STRESS TEST ==="@);
    push_line(&mut out, title);
    let mut s = cat4(
        "Stress: ",
        kind.as_str(),
        " | GPU worker: ",
        debug::stress(&p.stress.gpu).as_str(),
    );
    s.append(" | CPU threads: ");
    push_dec(&mut s, p.stress.cpu_threads as u64);
    push_line(&mut out, s);
    push_line(
        &mut out,
        cat4(
            "Idle temps — CPU: ",
            fmt_temp(p.cpu.idle).as_str(),
            " | GPU: ",
            fmt_temp(p.gpu.idle).as_str(),
        ),
    );
    push_line(
        &mut out,
        cat4(
            "Peak temps — CPU: ",
            fmt_temp(p.cpu.peak).as_str(),
            " | GPU: ",
            fmt_temp(p.gpu.peak).as_str(),
        ),
    );
    push_line(
        &mut out,
        cat4(
            "Max usage — CPU: ",
            fmt_usage(p.cpu.usage_max).as_str(),
            " | GPU: ",
            fmt_usage(p.gpu.usage_max).as_str(),
        ),
    );
    let ghost head = line_views(out@);
    let ghost ws = warning_views(p.warnings@);
    let mut i: usize = 0;
    assert(head + warning_lines(ws, 0) =~= head);
    while i < p.warnings.len()
        invariant
            i <= p.warnings.len(),
            ws == warning_views(p.warnings@),
            line_views(out@) == head + warning_lines(ws, i as int),
        decreases p.warnings.len() - i,
    {
        push_line(&mut out, prefixed("WARNING: ", debug::warning(&p.warnings[i]).as_str()));
        i = i + 1;
        assert(line_views(out@) =~= head + warning_lines(ws, i as int));
    }
    push_line(&mut out, String::new());
    push_line(&mut out, owned("=== VALIDATION SUMMARY ==="));
    push_line(
        &mut out,
        owned(
            if p.cpu.is_valid() {
                "CPU temperature sensor: WORKING"
            } else {
                "CPU temperature sensor: ISSUE DETECTED"
            },
        ),
    );
    push_line(
        &mut out,
        owned(
            if p.gpu.idle.is_some() && p.gpu.peak.is_some() {
                "GPU temperature sensor: WORKING"
            } else {
                "GPU temperature sensor: ISSUE DETECTED"
            },
        ),
    );
    let busy = match p.cpu.usage_max {
        Some(u) => u > 50 * UNIT,
        None => false,
    };
    push_line(
        &mut out,
        owned(
            if busy {
                "CPU stress threads: WORKING"
            } else {
                "CPU stress threads: LOW USAGE"
            },
        ),
    );
    let verdict = match &p.stress.gpu {
        GpuStress::Running { .. } => owned("WORKING"),
        GpuStress::Failed(e) => cat3("FAILED (", e.as_str(), ")"),
        other => debug::stress(other),
    };
    push_line(&mut out, prefixed("GPU stress: ", verdict.as_str()));
    assert(line_views(out@) =~= summary_lines(kind, p@));
    out
}

/// The whole log before the stress: the machine, the setup, the system's checks
/// where there are any, the sources and the adapters.
pub fn collect(
    hardware: Vec<String>,
    setup: Vec<String>,
    checks: Option<Vec<String>>,
    sources: Vec<String>,
    adapters: Vec<String>,
) -> (r: Vec<String>)
    ensures
        line_views(r@) == line_views(hardware@) + line_views(setup@) + (match checks {
            Some(c) => line_views(c@),
            None => Seq::empty(),
        }) + line_views(sources@) + line_views(adapters@),
{
    let ghost h = line_views(hardware@);
    let ghost s = line_views(setup@);
    let ghost t = line_views(sources@);
    let ghost a = line_views(adapters@);
    let mut out: Vec<String> = hardware;
    let mut setup = setup;
    out.append(&mut setup);
    assert(line_views(out@) =~= h + s);
    match checks {
        Some(c) => {
            let ghost k = line_views(c@);
            let mut c = c;
            out.append(&mut c);
            assert(line_views(out@) =~= h + s + k);
        },
        None => {},
    }
    let mut sources = sources;
    let mut adapters = adapters;
    out.append(&mut sources);
    out.append(&mut adapters);
    assert(line_views(out@) =~= h + s + (match checks {
        Some(c) => line_views(c@),
        None => Seq::empty(),
    }) + t + a);
    out
}

/// The log to send, with what it was taken on: the selected card's name where
/// there is such a card.
pub fn log_payload(
    hw: &HardwareInfo,
    selected: usize,
    lines: &Vec<String>,
    version: &str,
) -> (r: DebugLogPayload)
    ensures
        r.log@ == joined(line_views(lines@), "\n"@),
        r.cpu_model == hw.cpu_model,
        text_of(r.gpu_model) == (if selected < hw.gpus@.len() {
            Some(hw.gpus@[selected as int].name@)
        } else {
            None
        }),
        r.os == hw.os,
        text_of(r.cli_version) == Some(version@),
{
    let cpu_model = match &hw.cpu_model {
        Some(m) => Some(m.clone()),
        None => None,
    };
    let os = match &hw.os {
        Some(o) => Some(o.clone()),
        None => None,
    };
    let gpu_model = if selected < hw.gpus.len() {
        Some(hw.gpus[selected].name.clone())
    } else {
        None
    };
    DebugLogPayload {
        log: join_lines(lines, "\n"),
        cpu_model,
        gpu_model,
        os,
        cli_version: Some(owned(version)),
    }
}

/// The program's exit code after the log was to be uploaded.
pub fn exit_code(sent: bool) -> (r: i32)
    ensures
        r == (if sent {
            0i32
        } else {
            1i32
        }),
{
    if sent {
        0
    } else {
        1
    }
}

} // verus!
