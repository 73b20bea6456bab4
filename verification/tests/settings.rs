use thermalstats::settings::{LastResult, Moment};

fn result(at: &str) -> LastResult {
    LastResult {
        id: "abc".into(),
        machine_id: "cli-1".into(),
        at: at.into(),
        test_type: String::new(),
        cpu_idle: None,
        cpu_load: None,
        gpu_idle: None,
        gpu_load: None,
    }
}

fn now() -> Moment {
    let t = std::time::SystemTime::now().duration_since(std::time::UNIX_EPOCH).unwrap();
    Moment { secs: t.as_secs() as i64, nanos: t.subsec_nanos() }
}

#[test]
fn last_result_must_be_this_machine_and_recent() {
    let recent = result(&chrono::Local::now().to_rfc3339());
    assert!(recent.usable_for("cli-1", now()));
    assert!(!recent.usable_for("cli-2", now()));
    let old = LastResult { at: "2020-01-01T00:00:00+00:00".into(), ..recent.clone() };
    assert!(!old.usable_for("cli-1", now()));
    let broken = LastResult { at: "yesterday".into(), ..recent };
    assert!(!broken.usable_for("cli-1", now()));
}

#[test]
fn moments_are_read_in_their_zone() {
    let at = result("2024-03-01T01:00:00.5+01:00").submitted_at().unwrap();
    assert_eq!((at.secs, at.nanos), (1_709_251_200, 500_000_000));
    assert!(result("2024-03-01").submitted_at().is_none());
}

#[test]
fn a_result_is_usable_for_ninety_whole_days() {
    let r = result("2024-01-01T00:00:00Z");
    let at = r.submitted_at().unwrap();
    let later = |secs: i64| Moment { secs: at.secs + secs, nanos: at.nanos };
    assert!(r.usable_for("cli-1", later(91 * 86_400 - 1)));
    assert!(!r.usable_for("cli-1", later(91 * 86_400)));
    // A clock that was set back does no harm.
    assert!(r.usable_for("cli-1", later(-1000)));
    assert!(!r.usable_for("", later(0)));
}

#[test]
fn a_leap_second_counts() {
    let r = result("2016-12-31T23:59:60Z");
    let at = r.submitted_at().unwrap();
    // It is kept as the second before, with more nanoseconds than fit in one.
    assert_eq!((at.secs, at.nanos), (1_483_228_799, 1_000_000_000));
    let midnight = |days: i64| Moment { secs: 1_483_228_800 + days * 86_400, nanos: 0 };
    assert!(r.usable_for("cli-1", midnight(90)));
    assert!(r.usable_for("cli-1", midnight(0)));
    assert!(!r.usable_for("cli-1", midnight(91)));
    let since = |now: Moment| {
        let now = chrono::DateTime::from_timestamp(now.secs, now.nanos).unwrap();
        let then = chrono::DateTime::parse_from_rfc3339(&r.at).unwrap();
        now.signed_duration_since(then).num_days() <= 90
    };
    for secs in [91 * 86_400 - 2, 91 * 86_400 - 1, 91 * 86_400, 91 * 86_400 + 1] {
        let now = Moment { secs: at.secs + secs, nanos: 0 };
        assert_eq!(r.usable_for("cli-1", now), since(now));
    }
}
