use thermalstats::afterburner::AfterburnerReading;
use thermalstats::cli::{check_cooling, clamp_duration, parse_test, TestArg};
use thermalstats::decimal::LIMIT;
use thermalstats::engine::TestKind;
use thermalstats::gpus::{GpuDevice, GpuKind};
use thermalstats::hardware::{cpu_model, detect_is_laptop, normalize_cpu_name};
use thermalstats::hwinfo::{check_status, HwinfoReading, HwinfoStatus};
use thermalstats::inventory::{
    is_adapter_key, is_display, linux_gpu, lspci_name, mac_gpus, parse_size, pci_id, reg_string,
    reg_u64, registry_adapter, to_upper, windows_gpu, PciReport,
};
use thermalstats::lhm::{LhmGpu, LhmSample, PawnIOStatus};
use thermalstats::numerals::{millionths_of_bits, parse_millionths, parse_numeral, Numeral};
use thermalstats::nvidia::{
    smi_devices, smi_query, split_pci, temperature, utilization, NvSource,
};
use thermalstats::payload::machine_id;
use thermalstats::plain;
use thermalstats::platform::{
    has_battery_windows, on_battery_linux, on_battery_mac, on_battery_windows, shell_url,
    PowerSupply,
};
use thermalstats::sensors::{grace_period, next_tick, tick_wait, Channel, Probe, Readings, SECOND};
use thermalstats::setup::{plain_setup, sensor_setup, with_driver, DriverState, Found, MonitoringApp};
use thermalstats::stress::{
    next_dispatches, pick_adapter, score, StressAdapter, MAX_DISPATCHES,
};
use thermalstats::temps::{
    debug_read_cpu_temp_perfcounter, debug_read_cpu_temp_wmi, lhm_gpu, powermetrics_value, read_cpu, read_cpu_mac,
    read_cpu_temp_linux, read_cpu_temp_ohm, read_cpu_temp_perfcounter, read_cpu_temp_wmi, read_gpu,
    read_gpu_linux, read_gpu_mac, read_gpu_usage, OhmSensor, PerfZone, Sources, SystemSensor, TempReading,
};

fn units(x: f64) -> i64 {
    (x * 1e6).round() as i64
}

fn gpu(name: &str) -> GpuDevice {
    GpuDevice {
        name: name.into(),
        vram_bytes: None,
        kind: GpuKind::Unknown,
        vendor_id: None,
        device_id: None,
        nvml_index: None,
        sysfs_device: None,
    }
}

#[test]
fn cpu_names_are_made_uniform() {
    for (raw, name) in [
        ("13th Gen Intel(R) Core(TM) i9-13950HX", "Intel Core i9-13950HX"),
        ("Intel(R) Core(TM) i7-9700K CPU @ 3.60GHz", "Intel Core i7-9700K"),
        ("Intel(R) Core(TM) Ultra 9 285K", "Intel Core Ultra 9 285K"),
        ("AMD Ryzen 7 7800X3D 8-Core Processor", "AMD Ryzen 7 7800X3D"),
        ("AMD Ryzen Threadripper 3970X 32-Core Processor", "AMD Ryzen Threadripper 3970X"),
        ("AMD FX(tm)-8350 Eight-Core Processor", "AMD FX-8350"),
        ("  Apple M2 Pro ", "Apple M2 Pro"),
    ] {
        assert_eq!(normalize_cpu_name(raw), name);
    }
    assert_eq!(cpu_model(None), None);
    assert_eq!(cpu_model(Some("Apple M1")).as_deref(), Some("Apple M1"));
}

#[test]
fn laptops_are_told_by_their_parts() {
    let list = |name: &str| vec![gpu(name)];
    assert!(detect_is_laptop(None, &list("NVIDIA GeForce RTX 4070 Laptop GPU"), false, false));
    assert!(detect_is_laptop(None, &list("AMD Radeon RX 7600M XT"), false, false));
    assert!(!detect_is_laptop(None, &list("AMD Radeon RX 7600 XT"), false, false));
    assert!(detect_is_laptop(Some("AMD Ryzen 9 7945HX"), &vec![], false, false));
    assert!(detect_is_laptop(Some("Intel Core i7-13700H"), &vec![], false, false));
    assert!(!detect_is_laptop(Some("AMD Ryzen 7 7800X3D"), &vec![], false, false));
    assert!(detect_is_laptop(Some("AMD Ryzen 7 7800X3D"), &vec![], false, true));
}

#[test]
fn the_machine_id_is_a_hash_of_host_and_cpu() {
    assert_eq!(machine_id("desk", "AMD Ryzen 7 7800X3D"), "cli-fc2ebbd8bc848665");
    assert_eq!(machine_id("é", ""), "cli-000000000b8a066b");
}

#[test]
fn pci_devices_become_cards() {
    let report = |class: &str| PciReport {
        class: Some(class.into()),
        vendor: Some("0x1002\n".into()),
        device: Some("0x744c\n".into()),
        memory: Some("25753026560\n".into()),
        lspci: None,
        dir: "/sys/bus/pci/devices/0000:03:00.0".into(),
    };
    let g = linux_gpu(report("0x030000\n")).unwrap();
    assert_eq!(g.name, "GPU 1002:744c");
    assert_eq!(g.vendor_id, Some(0x1002));
    assert_eq!(g.device_id, Some(0x744c));
    assert_eq!(g.vram_bytes, Some(25753026560));
    assert_eq!(g.sysfs_device.as_deref(), Some("/sys/bus/pci/devices/0000:03:00.0"));
    assert!(linux_gpu(report("0x020000\n")).is_none());
    assert!(linux_gpu(report("junk")).is_none());
}

#[test]
fn lspci_names_are_the_vendor_and_the_device() {
    let text = "03:00.0 \"VGA compatible controller\" \"Advanced Micro Devices, Inc. [AMD/ATI]\" \"Navi 31 [Radeon RX 7900 XT/7900 XTX]\" -rc8\n";
    assert_eq!(lspci_name(text).as_deref(), Some("Advanced Radeon RX 7900 XT/7900 XTX"));
    assert_eq!(lspci_name("00:02.0 \"VGA\" \"Intel Corporation\" \"UHD Graphics\"").as_deref(), Some("Intel UHD Graphics"));
    assert_eq!(lspci_name(""), None);
}

#[test]
fn windows_cards_take_their_memory_from_the_registry() {
    let reg = vec![registry_adapter(
        "NVIDIA GeForce RTX 4090".into(),
        "PCI\\VEN_10DE&DEV_2684",
        Some(25769803776u64.to_le_bytes().to_vec()),
        None,
    )];
    let g = windows_gpu(
        Some(" NVIDIA GeForce RTX 4090 ".into()),
        Some("pci\\ven_10de&dev_2684&subsys_0".into()),
        Some(4293918720),
        &reg,
    ).unwrap();
    assert_eq!(g.name, "NVIDIA GeForce RTX 4090");
    assert_eq!((g.vendor_id, g.device_id), (Some(0x10DE), Some(0x2684)));
    assert_eq!(g.vram_bytes, Some(25769803776));
    // Virtual adapters aren't on PCI.
    assert!(windows_gpu(Some("Parsec".into()), Some("ROOT\\DISPLAY".into()), None, &reg).is_none());
    assert!(windows_gpu(Some("  ".into()), Some("PCI\\VEN_10DE".into()), None, &reg).is_none());
    // Without an entry the 32-bit figure counts unless it is saturated.
    let g = windows_gpu(Some("X".into()), Some("PCI\\VEN_1002&DEV_0001".into()), Some(1 << 30), &reg).unwrap();
    assert_eq!(g.vram_bytes, Some(1 << 30));
    let g = windows_gpu(Some("X".into()), Some("PCI\\VEN_1002&DEV_0001".into()), Some(0xFFFF_FFFF), &reg).unwrap();
    assert_eq!(g.vram_bytes, None);
}

#[test]
fn registry_values_may_be_long_or_short() {
    assert_eq!(reg_u64(&[1, 0, 0, 0, 0, 0, 0, 0]), Some(1));
    assert_eq!(reg_u64(&[2, 0, 0, 0]), Some(2));
    assert_eq!(reg_u64(&[2]), None);
    assert!(is_adapter_key("0000"));
    assert!(!is_adapter_key("Properties"));
    assert_eq!(pci_id("PCI\\VEN_10DE&DEV_2684", "DEV_"), Some(0x2684));
    assert_eq!(pci_id("PCI\\VEN_10DE", "DEV_"), None);
}

#[test]
fn upper_case_goes_beyond_ascii() {
    assert_eq!(to_upper("pci\\ß"), "PCI\\SS");
    // A letter that only upper case turns into "V": none, so no vendor is found.
    let g = windows_gpu(Some("X".into()), Some("pci\\ven_10de&straße".into()), None, &vec![]).unwrap();
    assert_eq!(g.vendor_id, Some(0x10DE));
}

#[test]
fn mac_reports_are_read() {
    let report = r#"{"SPDisplaysDataType":[{"sppci_model":"Apple M2"},{"sppci_model":" AMD Radeon Pro 5500M ","spdisplays_vram":"8 GB"},{"sppci_model":"Intel UHD","spdisplays_vram_shared":"1536 MB"},{"other":1}]}"#;
    let list = mac_gpus(report);
    assert_eq!(list.len(), 3);
    assert_eq!(list[0].kind, GpuKind::Integrated);
    assert_eq!(list[1].name, "AMD Radeon Pro 5500M");
    assert_eq!(list[1].vram_bytes, Some(8 << 30));
    assert_eq!(list[2].vram_bytes, Some(1536 << 20));
    assert!(mac_gpus("{}").is_empty());
    assert!(mac_gpus("junk").is_empty());
    assert_eq!(parse_size("1.5 gb"), Some(3 << 29));
    assert_eq!(parse_size("512"), Some(512 << 20));
    assert_eq!(parse_size("many"), None);
}

#[test]
fn nvidia_tool_output_is_read() {
    assert_eq!(smi_query("61\n"), Some(units(61.0)));
    assert_eq!(smi_query("[N/A]\n"), None);
    assert_eq!(smi_query(""), None);
    let list = smi_devices("0, NVIDIA GeForce RTX 4090, 0x268410DE, 24564\nbroken\n1, B, junk, [N/A]\n");
    assert_eq!(list.len(), 2);
    assert_eq!((list[0].vendor_id, list[0].device_id), (0x10DE, 0x2684));
    assert_eq!(list[0].vram_bytes, Some(24564 << 20));
    assert_eq!((list[1].vendor_id, list[1].device_id), (0x10DE, 0));
    assert_eq!(list[1].vram_bytes, None);
    assert_eq!(split_pci(Some(0x268410DE)), (0x10DE, 0x2684));
}

#[test]
fn the_first_nvidia_source_counts() {
    let (t, s) = temperature(None, Some(61), Some(units(70.0))).unwrap();
    assert_eq!(t, units(61.0));
    assert!(!s.text().is_empty());
    assert_eq!(temperature(None, None, Some(units(70.0))).unwrap().0, units(70.0));
    assert!(temperature(None, None, None).is_none());
    assert_eq!(utilization(Some(55), None), Some(units(55.0)));
    assert_eq!(utilization(None, Some(units(7.0))), Some(units(7.0)));
}

fn no_sources() -> Sources {
    Sources {
        hwinfo: None,
        afterburner: None,
        aida64: None,
        coretemp: None,
        lhm: None,
        acpi: None,
        ohm: None,
        perf: None,
        nvidia: None,
        nvidia_load: None,
        hwinfo_load: None,
        probe: None,
    }
}

#[test]
fn the_first_source_with_a_temperature_decides() {
    let mut s = no_sources();
    assert!(read_cpu(&s).reading().is_none());
    s.perf = Some(units(40.0));
    assert_eq!(read_cpu(&s).reading().unwrap().source, "Windows thermal zone (motherboard)");
    s.ohm = Some((units(55.0), "CPU Package".into()));
    assert_eq!(read_cpu(&s).reading().unwrap().source, "Hardware monitor WMI / CPU Package");
    s.acpi = Some(units(41.0));
    assert_eq!(read_cpu(&s).reading().unwrap().source, "ACPI thermal zone (motherboard)");
    s.lhm = Some(LhmSample { cpu_temp: Some(units(66.0)), cpu_sensor: None, gpus: vec![] });
    let r = read_cpu(&s).reading().unwrap();
    assert_eq!((r.celsius, r.source.as_str()), (units(66.0), "LibreHardwareMonitor / CPU"));
    s.hwinfo = Some(HwinfoReading { cpu_temp: Some(units(67.0)), gpu_temp: None, cpu_source: Some("A / B".into()), gpu_source: None });
    assert_eq!(read_cpu(&s).reading().unwrap().source, "HWiNFO / A / B");
    // The first source decides even where its value is absurd.
    s.hwinfo = Some(HwinfoReading { cpu_temp: Some(units(150.0)), gpu_temp: None, cpu_source: None, gpu_source: None });
    assert!(read_cpu(&s).reading().is_none());
    assert!(TempReading::new(units(149.9), "x".into()).is_some());
    assert!(TempReading::new(0, "x".into()).is_none());
}

#[test]
fn cards_are_told_apart_where_there_are_several() {
    let mut s = no_sources();
    s.lhm = Some(LhmSample {
        cpu_temp: None,
        cpu_sensor: None,
        gpus: vec![
            LhmGpu { name: "AMD Radeon RX 7900 XTX".into(), temp: Some(units(60.0)), sensor: Some("GPU Core".into()), load: Some(units(99.0)) },
            LhmGpu { name: "Other".into(), temp: Some(units(45.0)), sensor: None, load: None },
        ],
    });
    let mine = gpu("AMD Radeon RX 7900 XTX");
    assert_eq!(read_gpu(&s, &mine, true).reading().unwrap().celsius, units(60.0));
    assert_eq!(read_gpu_usage(&s, &mine, true), Some(units(99.0)));
    let unknown = gpu("Some card");
    assert!(read_gpu(&s, &unknown, true).reading().is_none());
    assert_eq!(read_gpu(&s, &unknown, false).reading().unwrap().celsius, units(45.0));
    assert!(lhm_gpu(&s.lhm, &unknown, true).is_none());
}

#[test]
fn thermal_zones_are_converted() {
    // Tenths of a kelvin.
    assert_eq!(read_cpu_temp_wmi(&vec![Some(3231), Some(3131), None]), Some(49_950_001));
    assert_eq!(read_cpu_temp_wmi(&vec![]), None);
    assert!(debug_read_cpu_temp_wmi(&vec![]).contains("No thermal zones"));
    assert!(debug_read_cpu_temp_wmi(&vec![Some(3231)]).contains("Found 1 zone(s)"));
    let zone = |t: Option<u32>| PerfZone { name: Some("_TZ.TZ00".into()), high_precision: None, temperature: t };
    for raw in 2560..5120u32 {
        let text = debug_read_cpu_temp_wmi(&vec![Some(raw)]);
        assert!(text.contains(&format!("{:.1}°C", raw as f64 / 10.0 - 273.15)), "{} {}", raw, text);
    }
    assert!(debug_read_cpu_temp_wmi(&vec![Some(3002)]).contains("27.1°C"));
    // As a double the difference lies a little above.
    assert_eq!(read_cpu_temp_perfcounter(&vec![zone(Some(323))]), Some(49_850_001));
    assert_eq!(read_cpu_temp_perfcounter(&vec![zone(None)]), None);
    let (t, name) = read_cpu_temp_ohm(&vec![
        OhmSensor { name: Some("CPU Core #1".into()), value: Some(units(50.0)) },
        OhmSensor { name: Some("CPU Package".into()), value: Some(units(52.0)) },
    ]).unwrap();
    assert_eq!((t, name.as_str()), (units(52.0), "CPU Package"));
}

#[test]
fn system_sensors_are_read_on_linux() {
    let s = |name: &str, temp: &str| SystemSensor { name: name.into(), temp: Some(temp.into()) };
    let r = read_cpu_temp_linux(&vec![s("acpitz\n", "30000\n"), s("x86_pkg_temp\n", "61500\n")], &vec![], &None).reading().unwrap();
    assert_eq!(r.celsius, units(61.5));
    let r = read_cpu_temp_linux(&vec![], &vec![s("k10temp\n", "55250\n")], &None).reading().unwrap();
    assert_eq!(r.celsius, units(55.25));
    assert!(read_cpu_temp_linux(&vec![], &vec![], &None).reading().is_none());
    let r = read_gpu_linux(&None, &vec![Some("70000\n".into())], &vec![], true).reading().unwrap();
    assert_eq!((r.celsius, r.source.as_str()), (units(70.0), "amdgpu / edge"));
    assert!(read_gpu_linux(&None, &vec![], &vec![Some("70000".into())], true).reading().is_none());
    assert!(read_gpu_linux(&None, &vec![], &vec![Some("70000".into())], false).reading().is_some());
}

#[test]
fn mac_tools_are_read() {
    let out = "*** SMC sensors ***\nCPU die temperature: 61.50 C\nGPU die temperature: 55.00 C\n";
    assert_eq!(powermetrics_value(out, "cpu die temperature", "cpu thermal level"), Some(units(61.5)));
    let r = read_cpu_mac(&Some(out.into()), &None).unwrap();
    assert_eq!((r.celsius, r.source.as_str()), (units(61.5), "powermetrics / CPU die"));
    assert!(read_cpu_mac(&None, &None).is_none());
}

#[test]
fn power_is_told_from_what_the_system_reports() {
    assert_eq!(on_battery_windows(true, 1, 0), Some(true));
    assert_eq!(on_battery_windows(true, 1, 1), Some(false));
    assert_eq!(on_battery_windows(true, 128, 0), None);
    assert_eq!(on_battery_windows(false, 1, 0), None);
    assert!(has_battery_windows(true, 1));
    assert!(!has_battery_windows(true, 255));
    let supply = |kind: &str, online: &str| PowerSupply { kind: kind.into(), online: online.into() };
    assert_eq!(on_battery_linux(&vec![supply("Battery\n", ""), supply("Mains\n", "0\n")]), Some(true));
    assert_eq!(on_battery_linux(&vec![supply("Battery\n", ""), supply("Mains\n", "1\n")]), Some(false));
    assert_eq!(on_battery_linux(&vec![supply("Mains\n", "1\n")]), None);
    assert_eq!(on_battery_linux(&vec![supply("Battery\n", "")]), None);
    assert_eq!(on_battery_mac("Now drawing from 'Battery Power'\n -InternalBattery-0"), Some(true));
    assert_eq!(on_battery_mac("Now drawing from 'AC Power'\n -InternalBattery-0"), Some(false));
    assert_eq!(on_battery_mac("Now drawing from 'AC Power'"), None);
    assert_eq!(shell_url("https://t.com/?a=1&b=2"), "https://t.com/?a=1^&b=2");
}

#[test]
fn a_monitoring_app_with_a_temperature_is_enough() {
    let none = Found {
        hwinfo: HwinfoStatus::NotRunning,
        hwinfo_cpu: false,
        afterburner: None,
        aida64: None,
        coretemp: None,
    };
    let (s, needs) = sensor_setup(Found { hwinfo: HwinfoStatus::SharedMemoryReadable, hwinfo_cpu: true, ..none }, true);
    assert!(matches!(s.monitoring_app, Some(MonitoringApp::Hwinfo)));
    assert!(!needs);
    let (s, needs) = sensor_setup(none, true);
    assert!(s.monitoring_app.is_none());
    assert!(needs);
    let s = with_driver(s, Some("C:\\lhm".into()), PawnIOStatus::Installed);
    assert!(matches!(s.driver, DriverState::InstalledNow));
    let (s, needs) = sensor_setup(none, false);
    assert!(!needs);
    assert!(matches!(s.driver, DriverState::NoAdmin));
    let (s, _) = sensor_setup(Found { hwinfo: HwinfoStatus::ProcessRunningNoSharedMem, ..none }, true);
    assert!(s.hwinfo_shared_memory_off);
    assert!(matches!(plain_setup(false).driver, DriverState::NotNeeded));
    assert!(matches!(check_status(false, true), HwinfoStatus::ProcessRunningNoSharedMem));
}

fn adapter(name: &str, device: u32, vulkan: bool) -> StressAdapter {
    StressAdapter { name: name.into(), vendor: 0x10DE, device, vulkan }
}

#[test]
fn the_adapter_of_the_chosen_card_is_stressed() {
    let mut card = gpu("NVIDIA GeForce RTX 4090");
    card.vendor_id = Some(0x10DE);
    card.device_id = Some(0x2684);
    let list = vec![adapter("Other", 1, true), adapter("NVIDIA GeForce RTX 4090", 0x2684, false), adapter("NVIDIA GeForce RTX 4090", 0x2684, true)];
    assert_eq!(pick_adapter(&card, &list), Ok(2));
    assert!(score(&card, &list[2]) > score(&card, &list[1]));
    assert_eq!(pick_adapter(&gpu("Z"), &vec![adapter("Other", 1, true)]), Ok(0));
    assert!(pick_adapter(&gpu("Z"), &vec![]).is_err());
}

#[test]
fn batches_are_steered_to_their_time() {
    assert_eq!(next_dispatches(16, 16, 0), 16);
    assert!(next_dispatches(16, 16, 5_000_000) > 16);
    assert!(next_dispatches(16, 16, 200_000_000) < 16);
    assert_eq!(next_dispatches(1, 1, u64::MAX), 1);
    assert!(next_dispatches(MAX_DISPATCHES, MAX_DISPATCHES, 1) <= MAX_DISPATCHES);
}

#[test]
fn channels_keep_an_hour_and_find_their_sensor() {
    let t0 = 1000 * SECOND;
    let mut c = Channel::new(t0);
    assert_eq!(c.probe, Probe::Searching);
    c.miss(t0 + SECOND, grace_period(false));
    assert_eq!(c.probe, Probe::Searching);
    c.miss(t0 + grace_period(false) + SECOND, grace_period(false));
    assert_eq!(c.probe, Probe::Missing);
    for i in 0..4000u64 {
        c.push(t0 + i * SECOND, units(i as f64 / 100.0), Some("a".into()));
    }
    assert_eq!(c.samples.len(), 3600);
    assert_eq!(c.probe, Probe::Found);
    assert_eq!(c.latest().unwrap().value, units(39.99));
    assert_eq!(c.since(t0 + 3990 * SECOND).len(), 10);
    assert_eq!(c.clone_light().samples.len(), 1);
    c.reset(t0);
    assert_eq!(c.samples.len(), 0);
    assert_eq!(c.probe, Probe::Searching);
    assert!(grace_period(true) > grace_period(false));
}

#[test]
fn another_card_starts_afresh() {
    let t0 = 1000 * SECOND;
    let mut r = Readings::new(t0);
    r.take_gpu_temp(t0, 5 * SECOND, TempReading::new(units(50.0), "a".into()), true);
    r.take_usage(t0, 5 * SECOND, units(150.0), Some(units(30.0)), true);
    assert_eq!(r.cpu_usage.latest().unwrap().value, units(100.0));
    r.take_cpu_temp(t0, 5 * SECOND, TempReading::new(units(60.0), "b".into()));
    // A reading of the card before the change is dropped.
    r.take_gpu_temp(t0 + SECOND, 5 * SECOND, TempReading::new(units(70.0), "a".into()), false);
    assert_eq!(r.gpu_temp.latest().unwrap().value, units(50.0));
    r.select_gpu(t0 + 2 * SECOND);
    assert!(r.gpu_temp.latest().is_none());
    assert!(r.cpu_temp.latest().is_some());
}

#[test]
fn ticks_do_not_pile_up() {
    let t0 = 1000 * SECOND;
    assert_eq!(tick_wait(t0 + SECOND, t0), Some(50_000_000));
    assert_eq!(tick_wait(t0 + 7, t0), Some(7));
    assert_eq!(tick_wait(t0, t0 + SECOND), None);
    assert!(next_tick(t0, t0) == t0 + SECOND);
    assert!(next_tick(t0, t0 + 60 * SECOND) > t0 + 59 * SECOND);
}

#[test]
fn flags_are_checked() {
    assert!(matches!(parse_test(None), TestArg::Unset));
    assert!(matches!(parse_test(Some("debug")), TestArg::Debug));
    assert!(matches!(parse_test(Some("gpu")), TestArg::Kind(TestKind::Gpu)));
    match parse_test(Some("x")) {
        TestArg::Invalid(m) => assert_eq!(m, "Invalid test type 'x'. Use: cpu, gpu, both or debug"),
        _ => panic!("not a test"),
    }
    assert_eq!(check_cooling("aio"), None);
    assert!(check_cooling("").is_some());
    assert_eq!((clamp_duration(1), clamp_duration(90), clamp_duration(9999)), (30, 90, 3600));
}

#[test]
fn registry_texts_are_utf_16() {
    let wide = |s: &str| s.encode_utf16().flat_map(|u| u.to_le_bytes()).collect::<Vec<u8>>();
    let read = |b: &[u8]| reg_string(true, b);
    assert_eq!(read(&wide("  NVIDIA RTX \0rest\0")).as_deref(), Some("NVIDIA RTX"));
    assert_eq!(read(&wide("Графика 🖥")).as_deref(), Some("Графика 🖥"));
    // Half of a pair is replaced, a byte left over dropped.
    assert_eq!(read(&[0x41, 0, 0x3d, 0xd8, 0x42, 0, 0x43]).as_deref(), Some("A\u{fffd}B"));
    assert_eq!(read(&wide(" \0x")), None);
    assert_eq!(read(&[]), None);
    assert_eq!(reg_string(false, &wide("NVIDIA")), None);
}

#[test]
fn numbers_are_read_as_doubles() {
    let parse = |s: &str| parse_millionths(&s.chars().collect::<Vec<char>>());
    assert_eq!(parse("61.25"), Some(units(61.25)));
    assert_eq!(parse("1e-7"), Some(1));
    assert_eq!(parse("149.9999999"), Some(149_999_999));
    assert_eq!(parse("150.0000001"), Some(150_000_001));
    assert_eq!(parse("150"), Some(units(150.0)));
    assert_eq!(parse("-0.04"), Some(-40_000));
    assert_eq!(parse("1e300"), Some(LIMIT));
    assert_eq!(parse("-inf"), Some(-LIMIT));
    assert_eq!(parse("nan"), None);
    assert_eq!(parse("1_000"), None);
    assert_eq!(millionths_of_bits(61.25f64.to_bits()), Some(units(61.25)));
    assert_eq!(millionths_of_bits(f64::NAN.to_bits()), None);
}

#[test]
fn numerals_match_the_nearest_double() {
    let long = format!("0.{}1", "0".repeat(400));
    let many = "123456789".repeat(60);
    let near = "9007199254740993.0000000000000000000000000000000001";
    let texts = [
        "0", "-0", "1", "71.35", "0.1", "1e22", "1e23", "9007199254740993", near, "1.7976931348623157e308",
        "1.7976931348623159e308", "2e308", "5e-324", "2e-324", "2.4703282292062328e-324", "4.9e-324",
        "2.2250738585072011e-308", "1e400", "1e-400", "123456789012345678901234567890", "0.3e1", ".5", "5.", "1E5",
        "+7.25", "-12.125e-3", "inf", "-Infinity", "NaN", "+nan", "infinit", "", ".", "e5", "1e", "0x10", "1e99999999999999999999",
        "1e-99999999999999999999", "0e99999999999999999999", &long, &many,
        "179769313486231580793728971405303415079934132710037826936173778980444968292764750946649017977587207096330286416692887910946555547851940402630657488671505820681908902000708383676273854845817711531764475730270069855571366959622842914819860834936475292719074168444365510704342711559699508093042880",
    ];
    for t in texts {
        let bits = match parse_numeral(&t.chars().collect::<Vec<char>>()) {
            None => None,
            Some(Numeral::Finite(b)) => {
                let v = b.mantissa as f64 * 2f64.powi(b.exponent.max(-1000)) * 2f64.powi(b.exponent.min(-1000) + 1000);
                Some(if b.negative { -v } else { v })
            }
            Some(Numeral::Infinite(below)) => Some(if below { f64::NEG_INFINITY } else { f64::INFINITY }),
            Some(Numeral::Undefined) => Some(f64::NAN),
        };
        let want = t.parse::<f64>().ok();
        assert_eq!(bits.map(|v| if v.is_nan() { 1 } else { v.to_bits() }), want.map(|v| if v.is_nan() { 1 } else { v.to_bits() }), "{}", t);
    }
}

#[test]
fn sizes_are_counted_as_doubles() {
    assert_eq!(parse_size("inf GB"), Some(u64::MAX));
    assert_eq!(parse_size("-inf"), Some(0));
    assert_eq!(parse_size("nan MB"), Some(0));
    assert_eq!(parse_size("-8 GB"), Some(0));
    assert_eq!(parse_size("1e300 GB"), Some(u64::MAX));
    for t in ["1.00000000001", "0.3", "7.9999999999", "1e-9", "1e10", "17179869184.5"] {
        let v: f64 = t.parse().unwrap();
        assert_eq!(parse_size(&format!("{} GB", t)), Some((v * 1024.0 * 1024.0 * 1024.0) as u64), "{}", t);
        assert_eq!(parse_size(t), Some((v * 1024.0 * 1024.0) as u64), "{}", t);
    }
}

#[test]
fn a_zone_is_shown_as_the_difference_of_doubles() {
    for raw in (0..6000u32).chain([9_999, 123_457, 4_294_967_295]) {
        let text = debug_read_cpu_temp_wmi(&vec![Some(raw)]);
        assert!(text.contains(&format!(" {:.1}°C (raw", raw as f64 / 10.0 - 273.15)), "{} {}", raw, text);
        let zone = PerfZone { name: None, high_precision: None, temperature: Some(raw) };
        let text = debug_read_cpu_temp_perfcounter(&vec![zone]);
        assert!(text.contains(&format!("={:.1}°C (raw", raw as f64 - 273.15)), "{} {}", raw, text);
    }
    assert!(debug_read_cpu_temp_wmi(&vec![Some(2000)]).contains("-73.1°C"));
    // The reading that is shown while a test runs is rounded alike.
    for raw in 2732..4232u32 {
        let v = read_cpu_temp_wmi(&vec![Some(raw)]);
        assert_eq!(plain::temp(v), format!("{:.1}°C", raw as f64 / 10.0 - 273.15), "{}", raw);
    }
}

#[test]
fn sources_of_a_load_are_asked_in_order() {
    let mut s = no_sources();
    let card = gpu("Some card");
    assert_eq!(read_gpu_usage(&s, &card, false), None);
    s.afterburner = Some(AfterburnerReading { cpu_temp: None, gpu_temp: None, cpu_source: None, gpu_source: None, gpu_usage: Some(units(40.0)) });
    assert_eq!(read_gpu_usage(&s, &card, false), Some(units(40.0)));
    s.hwinfo_load = Some(units(50.0));
    assert_eq!(read_gpu_usage(&s, &card, false), Some(units(50.0)));
    s.nvidia_load = Some(units(60.0));
    assert_eq!(read_gpu_usage(&s, &card, false), Some(units(60.0)));
}

#[test]
fn a_mac_asks_the_driver_first() {
    let power = Some("GPU die temperature: 44.5 C".to_string());
    assert_eq!(read_gpu_mac(&None, &power).unwrap().celsius, units(44.5));
    let nv = Some((units(61.0), NvSource::Driver));
    assert_eq!(read_gpu_mac(&nv, &power).unwrap().celsius, units(61.0));
    assert!(read_gpu_mac(&Some((0, NvSource::Driver)), &power).is_none());
    assert!(read_gpu_mac(&None, &None).is_none());
    assert!(is_display("0x030000\n") && !is_display("0x020000") && !is_display("x"));
}
