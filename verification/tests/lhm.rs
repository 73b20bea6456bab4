use thermalstats::lhm::{
    ensure_pawnio, is_fresh, needs_extract, poll_wait, stream_ended, stream_start,
    uninstall_pawnio, unpacks, InstallerRun, LhmSample, PawnIOStatus, StreamNext, BUNDLE_VERSION,
};
use thermalstats::sensors::SECOND;

fn units(x: f64) -> i64 {
    (x * 1e6).round() as i64
}

#[test]
fn parses_stream_format() {
    let s = LhmSample::parse(r#"{"cpu":71.5,"gpu":60.0,"cpuName":"AMD Ryzen 7 7800X3D","gpuName":"AMD Radeon RX 7900 XTX","cpuSensor":"Core (Tctl/Tdie)","gpus":[{"name":"AMD Radeon(TM) Graphics","type":"GpuAmd","temp":45.0,"sensor":"GPU Core","load":2.0},{"name":"AMD Radeon RX 7900 XTX","type":"GpuAmd","temp":60.0,"sensor":"GPU Hot Spot","load":99.0}]}"#).unwrap();
    assert_eq!(s.cpu_temp, Some(units(71.5)));
    assert_eq!(s.cpu_sensor.as_deref(), Some("Core (Tctl/Tdie)"));
    assert_eq!(s.gpus.len(), 2);
    assert_eq!(s.gpus[1].load, Some(units(99.0)));
}

#[test]
fn parses_v1_format() {
    let s = LhmSample::parse(r#"{"cpu":55.0,"gpu":null,"cpuName":"Intel Core i7","gpuName":null}"#).unwrap();
    assert_eq!(s.cpu_temp, Some(units(55.0)));
    assert!(s.gpus.is_empty());
}

#[test]
fn lines_that_are_no_sample_are_left_out() {
    assert!(LhmSample::parse("starting up").is_none());
    assert!(LhmSample::parse("").is_none());
}

#[test]
fn the_old_format_names_its_one_card() {
    let s = LhmSample::parse(r#"{"cpu":55.0,"gpu":61.5,"gpuName":"AMD Radeon RX 580"}"#).unwrap();
    assert_eq!(s.gpus.len(), 1);
    assert_eq!(s.gpus[0].name, "AMD Radeon RX 580");
    assert_eq!(s.gpus[0].temp, Some(units(61.5)));
}

#[test]
fn a_helper_of_another_version_is_unpacked_again() {
    assert!(needs_extract(None));
    assert!(needs_extract(Some("0.9.4")));
    assert!(!needs_extract(Some(BUNDLE_VERSION)));
}

#[test]
fn entries_stay_inside_the_directory() {
    assert!(unpacks("helper.exe"));
    assert!(!unpacks("../evil.exe"));
}

#[test]
fn the_driver_install_is_judged_by_its_exit() {
    assert!(matches!(
        ensure_pawnio(true, false, InstallerRun::Exited(None)),
        PawnIOStatus::AlreadyInstalled
    ));
    assert!(matches!(
        ensure_pawnio(false, false, InstallerRun::Exited(Some(0))),
        PawnIOStatus::InstallerMissing
    ));
    assert!(matches!(
        ensure_pawnio(false, true, InstallerRun::Exited(Some(0))),
        PawnIOStatus::Installed
    ));
    assert!(matches!(
        ensure_pawnio(false, true, InstallerRun::Exited(Some(7))),
        PawnIOStatus::Failed(_)
    ));
    assert!(matches!(
        ensure_pawnio(false, true, InstallerRun::NotStarted("denied".into())),
        PawnIOStatus::Failed(_)
    ));
    assert!(uninstall_pawnio(true, true, InstallerRun::Exited(Some(0))).is_ok());
    assert!(uninstall_pawnio(true, false, InstallerRun::Exited(Some(0))).is_err());
}

#[test]
fn a_stream_that_keeps_failing_gives_way_to_polling() {
    assert!(matches!(stream_start(true, 0), StreamNext::Quit));
    assert!(matches!(stream_start(false, 0), StreamNext::Stream));
    assert!(matches!(stream_start(false, 3), StreamNext::Poll));
    // One reading and then the end: an older helper that cannot stream.
    assert!(matches!(stream_ended(false, 1, 2 * SECOND, 0), (StreamNext::Poll, 0)));
    assert!(matches!(stream_ended(false, 1, 10 * SECOND, 0), (StreamNext::Stream, 1)));
    assert!(matches!(stream_ended(false, 60, SECOND, 1), (StreamNext::Stream, 2)));
    assert!(matches!(stream_ended(false, 60, SECOND, 2), (StreamNext::Poll, 3)));
    assert!(matches!(stream_ended(true, 60, SECOND, 2), (StreamNext::Quit, 2)));
}

#[test]
fn old_samples_are_not_used() {
    assert!(is_fresh(6 * SECOND - 1));
    assert!(!is_fresh(6 * SECOND));
    assert_eq!(poll_wait(0), SECOND);
    assert_eq!(poll_wait(SECOND / 2), SECOND / 2);
    assert_eq!(poll_wait(u64::MAX), SECOND / 5);
}
