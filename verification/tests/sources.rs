use thermalstats::afterburner;
use thermalstats::aida64;
use thermalstats::coretemp;
use thermalstats::gpus::{GpuDevice, GpuKind};
use thermalstats::hwinfo;

fn units(x: f64) -> i64 {
    (x * 1e6).round() as i64
}

fn gpu(name: &str) -> GpuDevice {
    GpuDevice {
        name: name.into(),
        vram_bytes: None,
        kind: GpuKind::Unknown,
        vendor_id: None,
        device_id: None,
        nvml_index: None,
        sysfs_device: None,
    }
}

fn put(b: &mut [u8], at: usize, bytes: &[u8]) {
    b[at..at + bytes.len()].copy_from_slice(bytes);
}

fn put32(b: &mut [u8], at: usize, v: u32) {
    put(b, at, &v.to_le_bytes());
}

/// A mapping with sensors and their readings: (sensor, label, type, value).
fn hwinfo_memory(sensors: &[&str], readings: &[(u32, &str, u32, f64)]) -> Vec<u8> {
    let (head, size_s, size_r) = (44, 264, 316);
    let off_r = head + sensors.len() * size_s;
    let mut b = vec![0u8; off_r + readings.len() * size_r];
    put(&mut b, 0, b"HWiS");
    put32(&mut b, 20, head as u32);
    put32(&mut b, 24, size_s as u32);
    put32(&mut b, 28, sensors.len() as u32);
    put32(&mut b, 32, off_r as u32);
    put32(&mut b, 36, size_r as u32);
    put32(&mut b, 40, readings.len() as u32);
    for (i, s) in sensors.iter().enumerate() {
        put(&mut b, head + i * size_s + 8, s.as_bytes());
    }
    for (i, (sensor, label, kind, value)) in readings.iter().enumerate() {
        let at = off_r + i * size_r;
        put32(&mut b, at, *kind);
        put32(&mut b, at + 4, *sensor);
        put(&mut b, at + 12, label.as_bytes());
        put(&mut b, at + 284, &value.to_le_bytes());
    }
    b
}

#[test]
fn hwinfo_prefers_the_package() {
    let b = hwinfo_memory(
        &["CPU [#0]: AMD Ryzen 7 7800X3D", "GPU [#0]: AMD Radeon RX 7900 XTX: "],
        &[
            (0, "Core 0", 1, 71.0),
            (0, "CPU (Tctl/Tdie)", 1, 70.5),
            (0, "CPU Package", 2, 99.0),
            (1, "GPU Temperature", 1, 61.25),
        ],
    );
    assert_eq!(hwinfo::mapping_len(&b), Some(b.len()));
    let r = hwinfo::parse(&b, None).unwrap();
    assert_eq!(r.cpu_temp, Some(units(70.5)));
    assert!(r.cpu_source.unwrap().contains("CPU [#0]: AMD Ryzen 7 7800X3D / CPU (Tctl/Tdie)"));
    assert_eq!(r.gpu_temp, Some(units(61.25)));
    let all = hwinfo::parse_all(&b).unwrap();
    assert_eq!(all.len(), 3);
    assert_eq!(all[2].label, "GPU Temperature");
    assert_eq!(all[2].value, Some(units(61.25)));
}

#[test]
fn hwinfo_reads_only_the_chosen_card() {
    let b = hwinfo_memory(
        &["GPU [#0]: AMD Radeon Graphics:", "GPU [#1]: AMD Radeon RX 7900 XTX: "],
        &[(0, "GPU Temperature", 1, 45.0), (1, "GPU Temperature", 1, 61.0)],
    );
    let card = gpu("AMD Radeon RX 7900 XTX");
    assert_eq!(hwinfo::parse(&b, Some(&card)).unwrap().gpu_temp, Some(units(61.0)));
    assert_eq!(hwinfo::parse(&b, None).unwrap().gpu_temp, Some(units(45.0)));
}

#[test]
fn hwinfo_texts_may_hold_other_bytes() {
    let mut b = hwinfo_memory(&["CPU"], &[(0, "CPU Package", 1, 50.0)]);
    // Not UTF-8: the byte is replaced.
    put(&mut b, 44 + 8, b"CPU \xff\0");
    let r = hwinfo::parse(&b, None).unwrap();
    assert!(r.cpu_source.unwrap().contains("CPU \u{fffd} / CPU Package"));
}

#[test]
fn hwinfo_memory_must_make_sense() {
    let good = hwinfo_memory(&["CPU"], &[(0, "CPU Package", 1, 50.0)]);
    assert!(hwinfo::parse(&good, None).is_some());
    let mut bad = good.clone();
    bad[0] = b'X';
    assert!(hwinfo::parse(&bad, None).is_none());
    let mut bad = good.clone();
    put32(&mut bad, 40, 0);
    assert!(hwinfo::parse(&bad, None).is_none());
    assert!(hwinfo::parse(&good[..good.len() - 1], None).is_none());
    assert!(hwinfo::parse(&[], None).is_none());
    // Absurd values are no temperatures.
    let hot = hwinfo_memory(&["CPU"], &[(0, "CPU Package", 1, 150.0)]);
    assert!(hwinfo::parse(&hot, None).map_or(true, |r| r.cpu_temp.is_none()));
}

#[test]
fn hwinfo_labels_are_scored() {
    assert_eq!(hwinfo::score_cpu("CPU [#0]", "CPU Package"), Some(100));
    assert_eq!(hwinfo::score_cpu("CPU [#0]", "Core 1"), Some(50));
    assert_eq!(hwinfo::score_cpu("CPU [#0]", "CPU Socket"), None);
    assert_eq!(hwinfo::score_cpu("Nuvoton", "CPU"), None);
    assert!(hwinfo::is_hwinfo_process("HWiNFO64.EXE"));
    assert!(!hwinfo::is_hwinfo_process("explorer.exe"));
}

#[test]
fn the_raw_header_is_described() {
    let b = hwinfo_memory(&["CPU"], &[(0, "CPU Package", 1, 50.0)]);
    let text = hwinfo::debug_raw_header(&Some(b), &None, &None);
    assert!(text.contains("HWiS"), "{}", text);
    assert_ne!(hwinfo::debug_raw_header(&None, &None, &None), text);
}

/// Entries (name, units, value, active, card) and the cards' names.
fn afterburner_memory(entries: &[(&str, &str, f32, bool, u32)], cards: &[&str]) -> Vec<u8> {
    let mut b = vec![0u8; 32 + entries.len() * 1324 + cards.len() * 1304];
    put(&mut b, 0, b"MAHM");
    put32(&mut b, 4, 0x20000);
    put32(&mut b, 8, 32);
    put32(&mut b, 12, entries.len() as u32);
    put32(&mut b, 16, 1324);
    put32(&mut b, 24, cards.len() as u32);
    put32(&mut b, 28, 1304);
    for (i, (name, unit, value, active, card)) in entries.iter().enumerate() {
        let at = 32 + i * 1324;
        put(&mut b, at, name.as_bytes());
        put(&mut b, at + 260, unit.as_bytes());
        put(&mut b, at + 1300, &value.to_le_bytes());
        put32(&mut b, at + 1312, *active as u32);
        put32(&mut b, at + 1316, *card);
    }
    for (i, name) in cards.iter().enumerate() {
        put(&mut b, 32 + entries.len() * 1324 + i * 1304 + 520, name.as_bytes());
    }
    b
}

#[test]
fn afterburner_reads_temperatures_and_load() {
    let b = afterburner_memory(
        &[
            ("GPU1 temperature", "°C", 62.5, true, 0),
            ("GPU2 temperature", "°C", 45.0, true, 1),
            ("GPU1 usage", "%", 97.0, true, 0),
            ("CPU temperature", "°C", 71.0, true, 9),
            ("CPU1 temperature", "°C", f32::NAN, true, 9),
            ("GPU1 hot spot temperature", "°C", 80.0, false, 0),
        ],
        &["NVIDIA GeForce RTX 4090", "AMD Radeon Graphics"],
    );
    assert_eq!(afterburner::mapping_len(&b[..32]), Some(b.len()));
    let r = afterburner::parse(&b, None).unwrap();
    assert_eq!(r.cpu_temp, Some(units(71.0)));
    assert_eq!(r.gpu_temp, Some(units(62.5)));
    assert_eq!(r.gpu_usage, Some(units(97.0)));
    let card = gpu("AMD Radeon(TM) Graphics");
    let r = afterburner::parse(&b, Some(&card)).unwrap();
    assert_eq!(r.gpu_temp, Some(units(45.0)));
    assert_eq!(r.gpu_usage, None);
    let mut bad = b;
    bad[0] = 0;
    assert!(afterburner::parse(&bad, None).is_none());
}

#[test]
fn aida64_records_are_read() {
    let text = "<sys><id>SCC</id></sys><temp><id>TCPU</id><label>CPU</label><value>45,5</value></temp>\
                <temp><id>TCPUPKG</id><label>CPU Package</label><value>61</value></temp>\
                <temp><id>TGPU1HS</id><label>GPU Hotspot</label><value>70.25</value></temp>\
                <temp><id>TGPU1</id><label>GPU</label><value>999</value></temp>";
    let r = aida64::parse(text).unwrap();
    assert_eq!(r.cpu_temp, Some(units(61.0)));
    assert_eq!(r.cpu_source.as_deref(), Some("AIDA64 / CPU Package (TCPUPKG)"));
    assert_eq!(r.gpu_temp, Some(units(70.25)));
    assert!(aida64::parse("<temp><id>TMOBO</id><value>30</value></temp>").is_none());
    assert_eq!(aida64::extract_tag("<a>1</a><b>2</b>", "b").as_deref(), Some("2"));
    assert_eq!(aida64::extract_tag("<a>1", "a"), None);
    assert_eq!(aida64::score_cpu("TCC-1-1", "CPU #1 / Core #1"), Some(50));
    assert_eq!(aida64::score_gpu("TGPU1MEM", "GPU Memory"), Some(20));
    assert_eq!(aida64::read_to_string(b"abc\0def"), "abc");
}

/// A mapping with one processor of these cores' temperatures.
fn coretemp_memory(temps: &[f32], fahrenheit: bool, to_tjmax: bool) -> Vec<u8> {
    let mut b = vec![0u8; coretemp::MAPPING_LEN];
    put32(&mut b, 1024, 100);
    put32(&mut b, 1536, temps.len() as u32);
    put32(&mut b, 1540, 1);
    for (i, t) in temps.iter().enumerate() {
        put(&mut b, 1544 + i * 4, &t.to_le_bytes());
    }
    put(&mut b, 2584, b" Intel Core i7-9700K ");
    b[2684] = fahrenheit as u8;
    b[2685] = to_tjmax as u8;
    b
}

#[test]
fn coretemp_reports_the_hottest_core() {
    let r = coretemp::parse(&coretemp_memory(&[50.0, 63.5, 61.0], false, false)).unwrap();
    assert_eq!(r.cpu_temp, Some(units(63.5)));
    assert_eq!(r.cpu_source.as_deref(), Some("Core Temp / Intel Core i7-9700K"));
    // Distance to the limit of 100 degrees.
    let r = coretemp::parse(&coretemp_memory(&[50.0, 30.0], false, true)).unwrap();
    assert_eq!(r.cpu_temp, Some(units(70.0)));
    let r = coretemp::parse(&coretemp_memory(&[140.0], true, false)).unwrap();
    assert_eq!(r.cpu_temp, Some(units(60.0)));
    assert!(coretemp::parse(&coretemp_memory(&[], false, false)).is_none());
    assert!(coretemp::parse(&[0; 10]).is_none());
}

#[test]
fn mappings_are_looked_for_in_every_session() {
    for names in [
        hwinfo::candidate_names(),
        afterburner::candidate_names(),
        aida64::candidate_names(),
        coretemp::candidate_names(),
    ] {
        assert!(names.len() >= 2);
        assert!(names[0].starts_with("Global\\"));
    }
}

#[test]
fn every_hwinfo_reading_is_shown() {
    let mut values = vec![
        61.25, -0.04, -0.0, 0.0, 71.35, 27.05, 4294967296.0, 1e22, 1.7e308, f64::MAX, -1e300, 5e-324,
        0.05, f64::NAN, f64::INFINITY, f64::NEG_INFINITY,
    ];
    values.extend((0..400).map(|i| i as f64 / 7.0 - 20.0));
    for v in values {
        let mut b = hwinfo_memory(&["CPU"], &[(0, "CPU Package", 1, v)]);
        // The value stands at its aligned place too.
        let at = b.len() - 316;
        let shown = hwinfo::parse_all(&b).unwrap().remove(0).shown;
        if v > -100.0 && v < 500.0 {
            assert_eq!(shown, format!("{:.1}", v));
        }
        put(&mut b, at + 284, &f64::NAN.to_le_bytes());
        put(&mut b, at + 288, &v.to_le_bytes());
        let packed = f64::from_le_bytes(b[at + 284..at + 292].try_into().unwrap());
        let value = if packed > -100.0 && packed < 500.0 { packed } else { v };
        assert_eq!(hwinfo::parse_all(&b).unwrap().remove(0).shown, format!("{:.1}", value));
    }
}

#[test]
fn a_layout_may_be_tried_anywhere() {
    let b = hwinfo_memory(&["CPU"], &[(0, "CPU Package", 1, 50.0)]);
    assert!(hwinfo::try_layout(&b, 20).is_some());
    assert!(hwinfo::try_layout(&b, 5_000).is_none());
    assert!(hwinfo::try_layout(&b, usize::MAX - 24).is_none());
    let mut far = vec![0u8; 2_000];
    far.extend_from_slice(&b[20..44]);
    far.resize(4_000, 0);
    assert!(hwinfo::try_layout(&far, 2_000).is_some());
}

#[test]
fn aida64_takes_what_is_just_below_the_limit() {
    let read = |v: &str| aida64::parse(&format!("<temp><id>TCPU</id><label>CPU</label><value>{}</value></temp>", v));
    assert_eq!(read("149.9999999").unwrap().cpu_temp, Some(149_999_999));
    assert_eq!(read("0,0000001").unwrap().cpu_temp, Some(1));
    assert!(read("150").is_none());
    assert!(read("0").is_none());
    assert!(read("inf").is_none());
    assert!(read("nan").is_none());
}
