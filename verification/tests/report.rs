use thermalstats::debug;
use thermalstats::diagnostics::{
    adapters_section, collect, exit_code, hardware_section, is_on, log_payload, setup_section,
    sources_section, summarize, windows_checks, AdapterReport, GpuReading, WindowsReport,
};
use thermalstats::engine::{Part, Phase, Progress, TestKind, TestPlan, Warning};
use thermalstats::form::LaunchOptions;
use thermalstats::gpus::{GpuDevice, GpuKind};
use thermalstats::hardware::HardwareInfo;
use thermalstats::hwinfo::HwinfoStatus;
use thermalstats::payload::{
    block_reason, comparison, is_local, submission, BlockReason, Details, MIN_SUBMIT_SECS,
};
use thermalstats::plain;
use thermalstats::sensors::{Channel, Probe, SECOND};
use thermalstats::series::Series;
use thermalstats::setup::{plain_setup, DriverState};
use thermalstats::stress::{GpuStress, StressStatus};
use thermalstats::temps::TempReading;

fn units(x: f64) -> i64 {
    (x * 1e6).round() as i64
}

fn card() -> GpuDevice {
    GpuDevice {
        name: "NVIDIA GeForce RTX 4080 SUPER".into(),
        vram_bytes: Some(16 << 30),
        kind: GpuKind::Discrete,
        vendor_id: Some(0x10DE),
        device_id: Some(0x2702),
        nvml_index: Some(0),
        sysfs_device: None,
    }
}

fn hardware() -> HardwareInfo {
    HardwareInfo {
        cpu_model: Some("AMD Ryzen 7 7800X3D".into()),
        cpu_cores: Some(8),
        cpu_threads: Some(16),
        os: Some("Windows 11 (26100)".into()),
        is_laptop: false,
        gpus: vec![card()],
    }
}

fn finished() -> Progress {
    let mut p = Progress::new();
    p.phase = Phase::Finished;
    p.cpu = Part { idle: Some(units(40.0)), current: None, peak: Some(units(80.25)), low: None, usage_now: None, usage_max: Some(units(99.5)) };
    p.gpu = Part { idle: Some(units(35.0)), current: None, peak: Some(units(70.0)), low: None, usage_now: None, usage_max: Some(units(100.0)) };
    p.stress = StressStatus { cpu_threads: 16, gpu: GpuStress::Running { adapter: "A".into(), backend: "Vulkan".into() } };
    p.series = Some(Series { v: 1, interval: 1, start: 0, cpu_temp: Some(vec![Some(1)]), gpu_temp: Some(vec![Some(2)]), cpu_usage: None, gpu_usage: None });
    p
}

fn options() -> LaunchOptions {
    LaunchOptions {
        api_url: "https://thermalstats.com/api/submissions".into(),
        no_submit: false,
        demo: false,
        test: None,
        duration: None,
        cooling_type: None,
        cooling_model: None,
        ambient_temp: None,
        diagnostics: false,
    }
}

fn no_details() -> Details {
    Details { laptop_model: None, cooling_type: None, cooling_model: None, ambient_temp: None, baseline_id: None, change_type: None }
}

#[test]
fn only_what_was_submitted_is_in_the_payload() {
    let p = finished();
    let hw = hardware();
    let s = submission(TestKind::Gpu, Some(&hw), Some(&card()), false, no_details(), &p, 120, "2.0.0", "cli-1", false);
    assert_eq!(s.test_type, "gpu");
    assert_eq!(s.cpu_temp_load, None);
    assert_eq!(s.cpu_usage_max, None);
    assert_eq!(s.gpu_temp_load, Some(units(70.0)));
    assert_eq!(s.gpu_vram.as_deref(), Some("16 GB"));
    assert_eq!(s.device_type.as_deref(), Some("desktop"));
    assert_eq!(s.test_duration, Some(120));
    assert_eq!(s.session_id.as_deref(), Some("cli-1"));
    let series = s.series.as_ref().unwrap();
    assert!(series.cpu_temp.is_none() && series.gpu_temp.is_some());
    let r = comparison(s, Some("id1".into()));
    assert_eq!(r.test_type, "gpu");
    assert_eq!(r.gpu_temp_load, Some(units(70.0)));
    assert_eq!(r.result_id.as_deref(), Some("id1"));
}

#[test]
fn results_are_kept_back_for_a_reason() {
    let site = "https://thermalstats.com";
    let why = |demo, no_submit, stopped, valid, secs| block_reason(demo, no_submit, site, stopped, valid, secs);
    assert!(why(false, false, false, true, MIN_SUBMIT_SECS).is_none());
    assert!(matches!(why(true, true, true, false, 1), Some(BlockReason::Demo)));
    assert!(matches!(why(false, true, true, false, 1), Some(BlockReason::NoSubmit)));
    assert!(matches!(why(false, false, true, false, 1), Some(BlockReason::Stopped)));
    assert!(matches!(why(false, false, false, false, 1), Some(BlockReason::NoTemps)));
    assert!(matches!(why(false, false, false, true, MIN_SUBMIT_SECS - 1), Some(BlockReason::Quick)));
    // Simulated results may go to a local server.
    assert!(block_reason(true, false, "http://localhost:3000", false, true, 60).is_none());
    assert!(is_local("http://127.0.0.1:80"));
    assert!(!is_local(site));
}

#[test]
fn plain_output_lists_the_machine() {
    let lines = plain::print_hardware(&hardware());
    assert_eq!(lines, vec![
        "  CPU:    AMD Ryzen 7 7800X3D",
        "  Cores:  8 (16 threads)",
        "  GPU 1:  NVIDIA GeForce RTX 4080 SUPER (16 GB)",
        "  OS:     Windows 11 (26100)",
        "  Type:   Desktop",
    ]);
    assert_eq!(plain::temp(Some(units(71.25))), "71.2°C");
    // As a double each of these lies a little beside the tie, but for the last.
    assert_eq!(plain::temp(Some(units(71.35))), "71.3°C");
    assert_eq!(plain::temp(Some(units(27.05))), "27.1°C");
    assert_eq!(plain::temp(Some(units(71.25))), "71.2°C");
    for i in -4_000..4_000 {
        let x = i as f64 / 20.0;
        assert_eq!(plain::temp(Some(units(x))), format!("{:.1}°C", units(x) as f64 / 1e6));
    }
    assert_eq!(plain::temp(None), "--");
}

#[test]
fn plain_output_tells_the_sensors() {
    let mut c = Channel::new(0);
    assert_eq!(plain::sensor_line("CPU", &c, true).as_deref(), Some("  CPU temperature: not available"));
    assert_eq!(plain::sensor_line("GPU", &c, false), None);
    c.push(SECOND, units(50.0), Some("HWiNFO / CPU".into()));
    assert_eq!(plain::sensor_line("CPU", &c, true).as_deref(), Some("  CPU temperature: 50.0°C via HWiNFO / CPU"));
}

#[test]
fn plain_tests_follow_the_flags() {
    let mut o = options();
    let p = plain::plan(&o, None);
    assert_eq!((p.kind, p.duration), (TestKind::Cpu, 120 * SECOND));
    let p = plain::plan(&o, Some(&card()));
    assert_eq!(p.kind, TestKind::Both);
    assert_eq!(p.gpu.unwrap().name, card().name);
    o.test = Some(TestKind::Cpu);
    o.duration = Some(30);
    let p = plain::plan(&o, Some(&card()));
    assert!(p.gpu.is_none());
    assert_eq!(plain::quick_note(60), None);
    assert_eq!(plain::quick_note(59).as_deref(), Some("  Quick test: only tests of 60 seconds or longer are submitted."));
    assert_eq!(
        plain::start_line(TestKind::Both, 120),
        "▸ BOTH stress test for 120s. Your PC may feel slow and fans may get loud; that's normal."
    );
}

#[test]
fn plain_progress_comes_every_ten_seconds() {
    assert!(plain::prints_now(Phase::Running, None, 5 * SECOND));
    assert!(!plain::prints_now(Phase::Running, Some(SECOND), 10 * SECOND));
    assert!(plain::prints_now(Phase::Running, Some(SECOND), 11 * SECOND));
    assert!(!plain::prints_now(Phase::Starting, None, 11 * SECOND));
    assert_eq!(plain::elapsed_secs(Some(SECOND), 500 * SECOND, 120), 120);
    assert_eq!(plain::elapsed_secs(None, 500 * SECOND, 120), 0);
    let p = Part { current: Some(units(70.0)), peak: Some(units(71.0)), usage_now: Some(units(99.6)), ..Default::default() };
    assert_eq!(
        plain::progress_line(7, 120, TestKind::Cpu, &p, &p),
        "  [   7s / 120s]  CPU 70.0°C (peak 71.0°C) 100%"
    );
    assert_eq!(plain::result_line("GPU", &Part::default()), "  GPU  idle --  peak --  max load --");
}

#[test]
fn plain_outcomes_have_exit_codes() {
    let plan = TestPlan { kind: TestKind::Both, duration: 120 * SECOND, gpu: Some(card()) };
    let site = "https://thermalstats.com";
    let p = finished();
    let o = options();
    let out = plain::outcome(&o, site, &plan, &p);
    assert!(matches!(out, plain::Outcome::Submit(TestKind::Both)));
    assert_eq!(out.exit_code(true), 0);
    assert_eq!(out.exit_code(false), 1);
    let quick = TestPlan { duration: 30 * SECOND, ..plan.clone() };
    let out = plain::outcome(&o, site, &quick, &p);
    assert!(matches!(out, plain::Outcome::Quick));
    assert_eq!(out.exit_code(false), 0);
    let skip = LaunchOptions { no_submit: true, ..options() };
    let out = plain::outcome(&skip, site, &plan, &p);
    assert!(matches!(out, plain::Outcome::Skipped));
    assert_eq!(out.exit_code(false), 0);
    let mut bad = finished();
    bad.stopped_early = true;
    let out = plain::outcome(&o, site, &plan, &bad);
    assert!(matches!(out, plain::Outcome::Invalid));
    assert_eq!(out.exit_code(false), 1);
}

#[test]
fn the_plain_payload_takes_the_flags() {
    let mut o = options();
    o.cooling_type = Some("aio".into());
    o.ambient_temp = Some(units(61.0));
    let s = plain::payload(&o, &hardware(), Some(&card()), TestKind::Both, &finished(), 120, "2.0.0", "cli-1");
    assert_eq!(s.cooling_type.as_deref(), Some("aio"));
    assert_eq!(s.ambient_temp, None);
    assert_eq!(s.stress_method, "cli_tool");
    assert_eq!(s.cpu_temp_idle, Some(units(40.0)));
    assert_eq!(s.baseline_id, None);
}

#[test]
fn values_are_written_as_in_logs() {
    assert_eq!(debug::quote("plain"), "\"plain\"");
    assert_eq!(debug::quote("a\"b\n\u{e9}"), format!("{:?}", "a\"b\n\u{e9}"));
    assert_eq!(debug::number(units(71.5)), "71.5");
    assert_eq!(debug::number(units(71.0)), "71.0");
    assert_eq!(debug::number(units(-0.05)), "-0.05");
    assert_eq!(debug::optional(None), "None");
    assert_eq!(debug::optional(Some(units(1.0))), "Some(1.0)");
    assert_eq!(debug::probe(Probe::Missing), "Missing");
    assert_eq!(debug::kind(GpuKind::Discrete), "Discrete");
    assert_eq!(debug::driver(&DriverState::Failed("x".into())), "Failed(\"x\")");
    assert_eq!(
        debug::stress(&GpuStress::Running { adapter: "A".into(), backend: "B".into() }),
        "Running { adapter: \"A\", backend: \"B\" }"
    );
    assert_eq!(
        debug::warnings(&vec![Warning::CpuTempFlat, Warning::GpuVeryHot(units(91.0))]),
        "[CpuTempFlat, GpuVeryHot(91.0)]"
    );
    assert_eq!(debug::warning(&Warning::GpuStressFailed("no".into())), "GpuStressFailed(\"no\")");
}

#[test]
fn the_log_begins_with_the_machine() {
    let lines = hardware_section("2.0.0", "2024-01-01 00:00:00", &hardware(), Some(0), Some(true));
    assert_eq!(lines[0], "ThermalStats CLI Debug Log — v2.0.0");
    assert!(lines.contains(&"CPU Cores: 8".to_string()));
    assert!(lines.contains(&"GPU 0 (selected): NVIDIA GeForce RTX 4080 SUPER | VRAM: 16 GB | Discrete | PCI 10de:2702 | NVML index: 0".to_string()));
    assert!(lines.contains(&"Power: BATTERY".to_string()));
}

#[test]
fn the_log_lists_sources_and_adapters() {
    let setup = setup_section(&plain_setup(true), false);
    assert!(setup.iter().any(|l| l.contains("Admin")));
    let sources = sources_section(
        &TempReading::new(units(50.0), "hwmon".into()),
        &vec![GpuReading { name: "X".into(), temp: None, usage: Some(units(12.5)) }],
    );
    assert!(sources.iter().any(|l| l.contains("50.0°C") && l.contains("hwmon")), "{:?}", sources);
    assert!(sources.iter().any(|l| l == "GPU 0 (X): NOT AVAILABLE | load: 12%"), "{:?}", sources);
    let adapters = adapters_section(&vec![AdapterReport {
        name: "A".into(),
        backend: "Vulkan".into(),
        kind: "DiscreteGpu".into(),
        vendor: 0x10DE,
        device: 0x2684,
        driver: "d".into(),
        driver_info: "i".into(),
    }]);
    assert!(adapters.iter().any(|l| l.contains("Vulkan") && l.contains("10de")), "{:?}", adapters);
    let all = collect(vec!["h".into()], vec!["s".into()], None, vec!["t".into()], vec!["a".into()]);
    assert_eq!(all, vec!["h", "s", "t", "a"]);
}

#[test]
fn windows_checks_name_what_is_wrong() {
    let w = WindowsReport {
        pawnio_installed: false,
        service: None,
        helper: None,
        hwinfo: HwinfoStatus::NotRunning,
        hwinfo_reading: None,
        hwinfo_raw: String::new(),
        hwinfo_all: vec![],
        afterburner: None,
        aida64: None,
        coretemp: None,
        acpi: "No thermal zones found".into(),
        ohm: "-".into(),
        perf: "-".into(),
        antivirus: None,
        folder_access: Some("1".into()),
    };
    let lines = windows_checks(&w);
    assert!(lines.iter().any(|l| l.starts_with("===")));
    assert!(lines.iter().any(|l| l.contains("NOT ")), "{:?}", lines);
    assert!(is_on("1"));
    assert!(!is_on("0"));
}

#[test]
fn the_log_ends_with_the_stress() {
    let lines = summarize(TestKind::Both, &finished());
    assert!(lines.iter().any(|l| l.contains("80.2°C")), "{:?}", lines);
    assert!(lines.iter().any(|l| l.contains("Vulkan")), "{:?}", lines);
}

#[test]
fn a_log_is_sent_with_what_it_was_taken_on() {
    let lines = vec!["first".to_string(), "second".to_string()];
    let p = log_payload(&hardware(), 0, &lines, "2.0.0");
    assert_eq!(p.log, "first\nsecond");
    assert_eq!(p.cpu_model.as_deref(), Some("AMD Ryzen 7 7800X3D"));
    assert_eq!(p.gpu_model.as_deref(), Some("NVIDIA GeForce RTX 4080 SUPER"));
    assert_eq!(p.os.as_deref(), Some("Windows 11 (26100)"));
    assert_eq!(p.cli_version.as_deref(), Some("2.0.0"));
    let p = log_payload(&hardware(), 1, &vec![], "2.0.0");
    assert_eq!(p.log, "");
    assert_eq!(p.gpu_model, None);
    assert_eq!(exit_code(true), 0);
    assert_eq!(exit_code(false), 1);
}
