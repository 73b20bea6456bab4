use thermalstats::gpus::{
    clean_adapter_name, default_index, detect, format_vram, guess_kind, normalize, Adapter,
    AdapterKind, GpuDevice, GpuKind, NvDevice,
};

fn gpu(name: &str) -> GpuDevice {
    GpuDevice {
        name: name.into(),
        vram_bytes: None,
        kind: GpuKind::Unknown,
        vendor_id: None,
        device_id: None,
        nvml_index: None,
        sysfs_device: None,
    }
}

#[test]
fn matches_names_across_tools() {
    let igpu = gpu("AMD Radeon(TM) Graphics");
    let dgpu = gpu("AMD Radeon RX 7900 XTX");
    assert!(igpu.matches_name("GPU [#1]: AMD Radeon Graphics:"));
    assert!(!igpu.matches_name("AMD Radeon RX 7900 XTX"));
    assert!(dgpu.matches_name("GPU [#0]: AMD Radeon RX 7900 XTX: "));
    assert!(!dgpu.matches_name("AMD Radeon(TM) Graphics"));
}

#[test]
fn formats_vram_like_v1() {
    assert_eq!(format_vram(16 * 1024 * 1024 * 1024), "16 GB");
    assert_eq!(format_vram(512 * 1024 * 1024), "512 MB");
}

#[test]
fn cleans_mesa_names() {
    assert_eq!(clean_adapter_name("AMD Radeon RX 7900 XTX (RADV NAVI31)"), "AMD Radeon RX 7900 XTX");
    assert_eq!(clean_adapter_name("NVIDIA GeForce RTX 4090"), "NVIDIA GeForce RTX 4090");
}

#[test]
fn default_prefers_discrete_with_most_vram() {
    let mut a = gpu("Intel(R) UHD Graphics 770");
    a.kind = GpuKind::Integrated;
    let mut b = gpu("NVIDIA GeForce RTX 3060");
    b.kind = GpuKind::Discrete;
    b.vram_bytes = Some(12 << 30);
    let mut c = gpu("NVIDIA GeForce RTX 4090");
    c.kind = GpuKind::Discrete;
    c.vram_bytes = Some(24 << 30);
    assert_eq!(default_index(&[a, b, c]), 2);
}

#[test]
fn matching_names_is_mutual() {
    let pairs = [
        ("AMD Radeon(TM) Graphics", "GPU [#1]: AMD Radeon Graphics:"),
        ("NVIDIA GeForce RTX 4090", "GeForce RTX 4090"),
        ("NVIDIA GeForce RTX 4090", "NVIDIA GeForce RTX 4080"),
    ];
    for (a, b) in pairs {
        assert_eq!(gpu(a).matches_name(b), gpu(b).matches_name(a));
        assert!(gpu(a).matches_name(a));
    }
}

#[test]
fn names_are_compared_in_lower_case_beyond_ascii() {
    assert!(gpu("Графика ГИГА 3000").matches_name("графика гига 3000"));
    assert_eq!(normalize("NVIDIA GeForce RTX 4090"), normalize("nvidia geforce rtx 4090"));
}

#[test]
fn the_last_of_equal_cards_is_the_default() {
    assert_eq!(default_index(&[]), 0);
    assert_eq!(default_index(&[gpu("a"), gpu("b")]), 1);
}

#[test]
fn vram_is_rounded_to_whole_units() {
    assert_eq!(format_vram(0), "0 MB");
    assert_eq!(format_vram((1 << 30) - 1), "1024 MB");
    assert_eq!(format_vram(1 << 30), "1 GB");
    // Halves go to the even neighbour.
    assert_eq!(format_vram((5 << 30) / 2), "2 GB");
    assert_eq!(format_vram((7 << 30) / 2), "4 GB");
}

#[test]
fn integrated_graphics_are_told_by_vendor_and_name() {
    assert_eq!(guess_kind(Some(0x10DE), "NVIDIA GeForce RTX 3060"), GpuKind::Discrete);
    assert_eq!(guess_kind(Some(0x8086), "Intel(R) UHD Graphics 770"), GpuKind::Integrated);
}

fn adapter(name: &str, kind: AdapterKind) -> Adapter {
    Adapter { name: name.into(), vendor: 0x10DE, device: 0x2684, kind }
}

#[test]
fn sources_are_merged_into_one_list() {
    let mut card = gpu("NVIDIA GeForce RTX 4090");
    card.vendor_id = Some(0x10DE);
    card.device_id = Some(0x2684);
    let nv = vec![NvDevice {
        index: 0,
        name: "NVIDIA GeForce RTX 4090".into(),
        vram_bytes: Some(24 << 30),
        vendor_id: 0x10DE,
        device_id: 0x2684,
    }];
    let adapters = vec![adapter("NVIDIA GeForce RTX 4090", AdapterKind::Discrete)];
    let list = detect(vec![card], &nv, &adapters, true);
    assert_eq!(list.len(), 1);
    assert_eq!(list[0].nvml_index, Some(0));
    assert_eq!(list[0].vram_bytes, Some(24 << 30));
    assert_eq!(list[0].kind, GpuKind::Discrete);
}

#[test]
fn normalizing_twice_is_normalizing_once() {
    let long = "  AMD  Radeon(TM)\tGraphics (R) ";
    assert_eq!(normalize(long), "amd radeon graphics");
    for name in [long, "NVIDIA GeForce RTX 4090", "Intel(R) Arc(TM) A770", "", "(r)(tm)"] {
        let once = normalize(name);
        assert_eq!(normalize(&once), once);
        assert!(!once.contains("  ") && !once.starts_with(' ') && !once.ends_with(' '));
        for card in ["AMD Radeon Graphics", "NVIDIA GeForce RTX 4090", "Intel Arc A770"] {
            assert_eq!(gpu(card).matches_name(name), gpu(card).matches_name(&once));
        }
    }
}
