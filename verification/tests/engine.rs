use thermalstats::engine::{
    collect, idle_level, idle_of, median, push_once, update_warnings, verdict, IdleLevel, Part,
    Phase, Progress, Step, TestKind, Warning,
};
use thermalstats::nearest::subtract;
use thermalstats::plain::{waits_for_sensors, SENSOR_WAIT};
use thermalstats::results::rise_cell;
use thermalstats::sensors::{Channel, Probe, Readings, SECOND};
use thermalstats::stress::{GpuStress, StressStatus};

fn units(x: f64) -> i64 {
    (x * 1e6).round() as i64
}

const T0: u64 = 1000 * SECOND;

#[test]
fn median_picks_middle() {
    assert_eq!(median(vec![units(3.0), units(1.0), units(2.0)]), Some(units(2.0)));
    assert_eq!(median(vec![]), None);
}

#[test]
fn part_validity_matches_api_rules() {
    let mut p = Part { idle: Some(units(40.0)), peak: Some(units(80.0)), ..Default::default() };
    assert!(p.is_valid());
    p.peak = Some(units(40.0)); // unchanged → rejected by the API
    assert!(!p.is_valid());
    p.peak = Some(units(130.0)); // above the API maximum
    assert!(!p.is_valid());
}

#[test]
fn idle_thresholds() {
    assert_eq!(idle_level(units(56.0)), None);
    assert_eq!(idle_level(units(56.5)), Some(IdleLevel::Warm));
    assert_eq!(idle_level(units(65.0)), Some(IdleLevel::Warm));
    assert_eq!(idle_level(units(65.1)), Some(IdleLevel::Hot));
}

#[test]
fn warnings_are_not_duplicated() {
    let mut w = vec![Warning::CpuVeryHot(units(95.0))];
    push_once(&mut w, Warning::CpuVeryHot(units(97.0)));
    assert_eq!(w, vec![Warning::CpuVeryHot(units(97.0))]);
}

#[test]
fn kinds_are_named() {
    for kind in [TestKind::Both, TestKind::Cpu, TestKind::Gpu] {
        assert_eq!(TestKind::parse(kind.as_str()), Some(kind));
    }
    assert_eq!(TestKind::parse("all"), None);
    assert!(TestKind::Both.cpu() && TestKind::Both.gpu());
    assert!(TestKind::Cpu.cpu() && !TestKind::Cpu.gpu());
    assert!(!TestKind::Gpu.cpu() && TestKind::Gpu.gpu());
}

fn channel(samples: &[(u64, f64)]) -> Channel {
    let mut c = Channel::new(T0);
    for (s, v) in samples {
        c.push(T0 + s * SECOND, units(*v), Some("test".into()));
    }
    c
}

#[test]
fn the_idle_figure_is_the_median_of_the_last_seconds() {
    let c = channel(&[(0, 90.0), (20, 40.0), (21, 42.0), (22, 60.0), (40, 99.0)]);
    assert_eq!(idle_of(&c, T0 + 25 * SECOND), Some(units(42.0)));
    // Nothing recent: the last reading before.
    assert_eq!(idle_of(&c, T0 + 35 * SECOND), Some(units(60.0)));
    assert_eq!(idle_of(&Channel::new(T0), T0), None);
}

#[test]
fn peaks_and_lows_are_taken_within_the_run() {
    let temp = channel(&[(0, 99.0), (10, 50.0), (11, 80.0), (12, 70.0), (20, 98.0)]);
    let usage = channel(&[(0, 100.0), (11, 60.0)]);
    let mut p = Part::default();
    collect(&mut p, &temp, &usage, T0 + 10 * SECOND, T0 + 15 * SECOND);
    assert_eq!(p.peak, Some(units(80.0)));
    assert_eq!(p.low, Some(units(50.0)));
    assert_eq!(p.usage_max, Some(units(60.0)));
    assert_eq!(p.current, Some(units(98.0)));
    assert_eq!(p.usage_now, Some(units(60.0)));
}

fn running() -> StressStatus {
    StressStatus { cpu_threads: 8, gpu: GpuStress::Running { adapter: "A".into(), backend: "Vulkan".into() } }
}

#[test]
fn a_flat_sensor_is_noticed_after_half_a_minute() {
    let cpu = Part {
        idle: Some(units(40.0)),
        peak: Some(units(42.0)),
        low: Some(units(41.0)),
        usage_max: Some(units(99.0)),
        ..Default::default()
    };
    let gpu = Part {
        idle: Some(units(40.0)),
        peak: Some(units(42.0)),
        usage_max: Some(units(20.0)),
        ..Default::default()
    };
    let mut w = vec![];
    update_warnings(&mut w, TestKind::Both, &cpu, &gpu, &running(), 29 * SECOND);
    assert_eq!(w, vec![]);
    update_warnings(&mut w, TestKind::Both, &cpu, &gpu, &running(), 30 * SECOND);
    assert_eq!(w, vec![Warning::CpuTempFlat, Warning::GpuLoadLow(units(20.0)), Warning::GpuTempFlat]);
}

#[test]
fn hot_parts_and_a_failed_stress_are_noticed() {
    let cpu = Part { peak: Some(units(95.0)), ..Default::default() };
    let gpu = Part { peak: Some(units(90.0)), ..Default::default() };
    let failed = StressStatus { cpu_threads: 8, gpu: GpuStress::Failed("no driver".into()) };
    let mut w = vec![];
    update_warnings(&mut w, TestKind::Both, &cpu, &gpu, &failed, SECOND);
    assert_eq!(w, vec![
        Warning::CpuVeryHot(units(95.0)),
        Warning::GpuStressFailed("no driver".into()),
        Warning::GpuVeryHot(units(90.0)),
    ]);
    let mut w = vec![];
    update_warnings(&mut w, TestKind::Gpu, &cpu, &Part::default(), &running(), SECOND);
    assert_eq!(w, vec![]);
}

fn readings(cpu: f64, gpu: f64) -> Readings {
    let mut r = Readings::new(T0);
    r.cpu_temp = channel(&[(0, 60.0), (1, cpu)]);
    r.gpu_temp = channel(&[(0, 40.0), (1, gpu)]);
    r.cpu_usage = channel(&[(1, 100.0)]);
    r.gpu_usage = channel(&[(1, 100.0)]);
    r
}

#[test]
fn a_run_goes_through_its_phases() {
    let r = readings(60.0, 40.0);
    let off = StressStatus::starting(true);
    let mut p = Progress::new();
    let start = T0 + 2 * SECOND;
    assert!(matches!(p.step(TestKind::Both, &r, &off, false, start), Step::StartStress));
    assert_eq!(p.cpu.idle, Some(units(60.0)));
    assert_eq!(p.gpu.idle, Some(units(40.0)));
    assert_eq!(p.warnings, vec![Warning::CpuIdleWarm(units(60.0))]);
    p.stress_started(start, 60 * SECOND);
    assert_eq!(p.phase, Phase::Running);
    let mut r = r;
    r.cpu_temp.push(start + 5 * SECOND, units(85.0), None);
    r.gpu_temp.push(start + 5 * SECOND, units(75.0), None);
    match p.step(TestKind::Both, &r, &running(), false, start + 10 * SECOND) {
        Step::Wait(n) => assert_eq!(n, 250_000_000),
        _ => panic!("the run goes on"),
    }
    assert_eq!(p.cpu.peak, Some(units(85.0)));
    assert!(matches!(p.step(TestKind::Both, &r, &running(), false, start + 60 * SECOND), Step::StopStress));
    assert_eq!(p.phase, Phase::Stopping);
    assert!(!p.stopped_early);
    let mut steps = 0;
    let mut now = start + 61 * SECOND;
    loop {
        steps += 1;
        assert!(steps < 20);
        match p.step(TestKind::Both, &r, &running(), false, now) {
            Step::Done => break,
            Step::Wait(n) => now += n,
            _ => panic!("the run is stopping"),
        }
    }
    assert_eq!(p.phase, Phase::Finished);
    assert!(p.series.is_some());
    let v = verdict(TestKind::Both, &p);
    assert_eq!(v.kind, Some(TestKind::Both));
}

#[test]
fn a_run_that_is_stopped_is_not_submitted() {
    let r = readings(50.0, 40.0);
    let mut p = Progress::new();
    let start = T0 + 2 * SECOND;
    assert!(matches!(p.step(TestKind::Cpu, &r, &StressStatus::starting(false), false, start), Step::StartStress));
    p.stress_started(start, 60 * SECOND);
    assert!(matches!(p.step(TestKind::Cpu, &r, &running(), true, start + SECOND), Step::StopStress));
    assert!(p.stopped_early);
    assert_eq!(verdict(TestKind::Cpu, &p).kind, None);
    // Stopped before it began.
    let mut p = Progress::new();
    assert!(matches!(p.step(TestKind::Cpu, &r, &StressStatus::starting(false), true, start), Step::Done));
    assert!(p.stopped_early);
    assert_eq!(p.phase, Phase::Finished);
}

#[test]
fn a_sensor_that_warms_up_is_waited_for() {
    let mut r = Readings::new(T0);
    let mut p = Progress::new();
    assert!(matches!(p.step(TestKind::Cpu, &r, &StressStatus::starting(false), false, T0), Step::Wait(100_000_000)));
    assert!(matches!(p.step(TestKind::Cpu, &r, &StressStatus::starting(false), false, T0 + 4 * SECOND), Step::StartStress));
    assert_eq!(p.warnings, vec![Warning::CpuSensorMissing]);
    // One that is known to be missing is not.
    r.cpu_temp.probe = Probe::Missing;
    let mut p = Progress::new();
    assert!(matches!(p.step(TestKind::Cpu, &r, &StressStatus::starting(false), false, T0), Step::StartStress));
}

#[test]
fn the_gpu_counts_only_under_stress() {
    let mut p = Progress::new();
    p.phase = Phase::Finished;
    p.cpu = Part { idle: Some(units(40.0)), peak: Some(units(80.0)), ..Default::default() };
    p.gpu = p.cpu;
    p.stress = StressStatus { cpu_threads: 8, gpu: GpuStress::Failed("x".into()) };
    assert_eq!(verdict(TestKind::Both, &p).kind, Some(TestKind::Cpu));
    assert_eq!(verdict(TestKind::Gpu, &p).kind, None);
    p.stress = running();
    assert_eq!(verdict(TestKind::Gpu, &p).kind, Some(TestKind::Gpu));
    assert_eq!(verdict(TestKind::Both, &p).kind, Some(TestKind::Both));
}

#[test]
fn a_rise_is_the_difference_of_doubles() {
    for (a, b) in [(71.3, 45.25), (42.3, 39.3), (80.25, 40.1), (75.7, 40.0), (43.1, 40.1), (40.0, 80.0), (50.0, 50.0)] {
        let p = Part { idle: Some(units(b)), peak: Some(units(a)), ..Default::default() };
        assert_eq!(rise_cell(&p), format!("{:+.1}", a - b), "{} {}", a, b);
        assert_eq!(p.rise().unwrap() < units(3.0), a - b < 3.0, "{} {}", a, b);
    }
}

#[test]
fn differences_of_ordinary_temperatures_are_those_of_doubles() {
    for a in (20..110).map(|i| i as f64 + 0.35) {
        for b in (20..110).map(|i| i as f64 / 1.6) {
            let (x, y) = (units(a) as f64 / 1e6, units(b) as f64 / 1e6);
            let d = subtract(units(a), units(b));
            assert!((d - (units(a) - units(b))).abs() <= 1);
            assert_eq!(d < units(0.5), x - y < 0.5, "{} {}", x, y);
        }
    }
    assert_eq!(subtract(units(2000.0), units(0.5)), units(1999.5));
}

#[test]
fn the_first_readings_are_waited_for() {
    let mut r = Readings::new(T0);
    assert!(waits_for_sensors(&r, true, 0));
    assert!(waits_for_sensors(&r, true, SENSOR_WAIT));
    assert!(!waits_for_sensors(&r, true, SENSOR_WAIT + 1));
    r.cpu_temp.probe = Probe::Missing;
    assert!(waits_for_sensors(&r, true, 0));
    assert!(!waits_for_sensors(&r, false, 0));
    assert_eq!(SENSOR_WAIT, 20 * SECOND);
}
