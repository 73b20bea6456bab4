use std::collections::VecDeque;

use thermalstats::sensors::{Sample, SECOND};
use thermalstats::series::{PartSamples, Series, MAX_POINTS};

fn units(x: f64) -> i64 {
    (x * 1e6).round() as i64
}

/// A time well after the clock's origin.
const T0: u64 = 1000 * SECOND;

fn samples(from: u64, secs: u64, value: impl Fn(u64) -> f64) -> VecDeque<Sample> {
    (0..secs).map(|s| Sample { at: from + s * SECOND, value: units(value(s)) }).collect()
}

#[test]
fn two_minute_run_keeps_one_second_points() {
    let t0 = T0;
    let started = t0 + 10 * SECOND;
    let stopped = started + 120 * SECOND;
    let temp = samples(t0, 130, |s| if s < 10 { 40.0 } else { 40.0 + (s - 10) as f64 * 0.3 });
    let usage = samples(t0, 130, |s| if s < 10 { 5.0 } else { 100.0 });
    let series = Series::build(Some(PartSamples { temp: &temp, usage: &usage }), None, started, stopped).unwrap();
    assert_eq!(series.interval, 1);
    assert_eq!(series.start, -10);
    let cpu = series.cpu_temp.as_ref().unwrap();
    assert_eq!(cpu.len(), 130);
    assert_eq!(cpu[0], Some(units(40.0)));
    assert_eq!(cpu[129], Some(units(75.7)));
    assert!(series.gpu_temp.is_none());
}

#[test]
fn long_runs_are_capped_and_keep_the_peak() {
    let t0 = T0;
    let started = t0 + 10 * SECOND;
    let stopped = started + 1800 * SECOND;
    // One spike at 1000 s must survive resampling.
    let temp = samples(t0, 1810, |s| if s == 1000 { 99.0 } else { 70.0 });
    let usage = samples(t0, 1810, |_| 100.0);
    let series = Series::build(None, Some(PartSamples { temp: &temp, usage: &usage }), started, stopped).unwrap();
    let gpu = series.gpu_temp.as_ref().unwrap();
    assert!(gpu.len() as u64 <= MAX_POINTS);
    assert_eq!(series.interval, 7);
    assert!(gpu.contains(&Some(units(99.0))));
    assert_eq!(series.gpu_usage.as_ref().unwrap()[3], Some(units(100.0)));
}

#[test]
fn gaps_stay_empty_and_empty_runs_give_nothing() {
    let t0 = T0;
    let started = t0 + 10 * SECOND;
    let stopped = started + 60 * SECOND;
    let temp: VecDeque<Sample> = samples(t0, 70, |_| 50.0).into_iter().filter(|s| s.at != t0 + 30 * SECOND).collect();
    let usage = VecDeque::new();
    let series = Series::build(Some(PartSamples { temp: &temp, usage: &usage }), None, started, stopped).unwrap();
    assert_eq!(series.cpu_temp.as_ref().unwrap()[30], None);
    assert!(series.cpu_usage.as_ref().unwrap().iter().all(Option::is_none));

    let none = VecDeque::new();
    assert!(Series::build(Some(PartSamples { temp: &none, usage: &none }), None, started, stopped).is_none());
}

#[test]
fn empty_lead_in_is_trimmed() {
    let t0 = T0;
    let started = t0 + 10 * SECOND;
    let stopped = started + 60 * SECOND;
    // First reading 3 s before the stress.
    let temp = samples(t0 + 7 * SECOND, 63, |_| 45.0);
    let usage = samples(t0, 70, |_| 50.0);
    let series = Series::build(Some(PartSamples { temp: &temp, usage: &usage }), None, started, stopped).unwrap();
    assert_eq!(series.start, -3);
    assert_eq!(series.cpu_temp.as_ref().unwrap()[0], Some(units(45.0)));
    assert_eq!(series.cpu_temp.as_ref().unwrap().len(), series.cpu_usage.as_ref().unwrap().len());
}

#[test]
fn only_the_asked_parts_are_kept() {
    let s = Series { v: 1, interval: 2, start: -10, cpu_temp: Some(vec![Some(units(40.0)), None]), gpu_temp: Some(vec![Some(units(1.0)), Some(units(2.0))]), cpu_usage: None, gpu_usage: None };
    let only = s.only(false, true);
    assert!(only.cpu_temp.is_none() && only.gpu_temp.is_some());
    let again = only.only(false, true);
    assert_eq!(again.gpu_temp, only.gpu_temp);
    assert_eq!((again.v, again.interval, again.start), (1, 2, -10));
}

#[test]
fn loads_are_averaged_and_rounded_to_tenths() {
    let started = T0;
    let stopped = started + 600 * SECOND;
    let temp = samples(started, 600, |s| s as f64 / 10.0);
    let usage = samples(started, 600, |s| if s % 3 == 0 { 100.0 } else { 50.0 });
    let series = Series::build(Some(PartSamples { temp: &temp, usage: &usage }), None, started, stopped).unwrap();
    assert_eq!(series.interval, 3);
    // Bins are counted from ten seconds before the start; the first with a
    // reading holds the start's two.
    assert_eq!(series.start, -1);
    assert_eq!(series.cpu_usage.as_ref().unwrap()[1], Some(units(66.7)));
    assert_eq!(series.cpu_temp.as_ref().unwrap()[1], Some(units(0.4)));
}

#[test]
fn readings_after_the_stop_are_left_out() {
    let t0 = T0;
    let started = t0 + 10 * SECOND;
    let stopped = started + 291 * SECOND;
    let mut temp = samples(t0, 301, |_| 50.0);
    temp.push_back(Sample { at: stopped + SECOND / 2, value: units(99.0) });
    let usage = VecDeque::new();
    let series = Series::build(Some(PartSamples { temp: &temp, usage: &usage }), None, started, stopped).unwrap();
    let cpu = series.cpu_temp.as_ref().unwrap();
    assert!(cpu.iter().all(|p| *p == Some(units(50.0))));
    assert!(series.cpu_usage.as_ref().unwrap().iter().all(|p| p.is_none()));
    // Loads are treated alike, and a reading at the stop itself still counts.
    let mut usage = samples(t0, 301, |_| 100.0);
    usage.push_back(Sample { at: stopped + SECOND / 2, value: units(0.0) });
    let series = Series::build(Some(PartSamples { temp: &temp, usage: &usage }), None, started, stopped).unwrap();
    assert!(series.cpu_usage.as_ref().unwrap().iter().all(|p| *p == Some(units(100.0))));
    let mut temp = samples(t0, 301, |_| 50.0);
    temp.push_back(Sample { at: stopped, value: units(60.0) });
    let series = Series::build(Some(PartSamples { temp: &temp, usage: &usage }), None, started, stopped).unwrap();
    assert!(series.cpu_temp.as_ref().unwrap().contains(&Some(units(60.0))));
}
