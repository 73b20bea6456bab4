use thermalstats::api::{CompareEntry, Standing};
use thermalstats::app::Screen;
use thermalstats::engine::{IdleLevel, Part, Phase, Progress, TestKind, Verdict, Warning};
use thermalstats::form::Field;
use thermalstats::input::TextInput;
use thermalstats::layout::{
    centered, content_area, flow, line_up, log_window, pad, truncate, width_of, wrapped_height, Rect,
};
use thermalstats::frames::{
    button_row, dashboard, dialog_place, dialog_tone, feedback_rows, form_columns, is_lit,
    log_place, paragraph, shelf, Shape,
};
use thermalstats::results::{
    big_digits, chart_bounds, compare_line, is_part_good, load_cell, log_tone, ranking, rise_cell,
    temp_cell, CompareLine, Outcome,
};
use thermalstats::screens::{
    box_height, bullets, cards, chart_rows, elapsed, is_lagging, is_recommended,
    percent, progress_bar, progress_label, run_title, text_box, Before, Bullet, Cards, RunTitle,
};
use thermalstats::sensors::{Channel, SECOND};
use thermalstats::setup::{plain_setup, BootStep};
use thermalstats::ui::{
    boot_mark, boot_steps, fmt_clock, format_duration, idle_note, pulse, sensor_check, sensor_row,
    sensor_tips, step_tone, steps_at, temp_tone, toast_place, Check, Mark, SensorRow, System, Tip,
    Tone,
};

fn units(x: f64) -> i64 {
    (x * 1e6).round() as i64
}

const AREA: Rect = Rect { x: 0, y: 0, width: 80, height: 24 };

#[test]
fn widths_follow_unicode() {
    assert_eq!(width_of("abc"), 3);
    assert_eq!(width_of("한국어"), 6);
    assert_eq!(pad("한", 4), "한  ");
    assert_eq!(pad("abcd", 2), "abcd");
    assert_eq!(truncate("abcdef", 4), "abc…");
    assert_eq!(truncate("abcd", 4), "abcd");
    assert_eq!(truncate("한국어", 4), "한…");
    assert_eq!(truncate("abc", 0), "…");
}

#[test]
fn paragraphs_are_measured_by_words() {
    assert_eq!(wrapped_height("", 10), 1);
    assert_eq!(wrapped_height("aaa bbb ccc", 7), 2);
    assert_eq!(wrapped_height("aaa bbb ccc", 11), 1);
    // Words longer than a line are broken across lines.
    assert_eq!(wrapped_height("aaaaaaaaaaaa", 5), 3);
    assert_eq!(wrapped_height("a", 0), 1);
}

#[test]
fn places_stay_within_their_area() {
    assert_eq!(centered(AREA, 60, 10), Rect { x: 10, y: 7, width: 60, height: 10 });
    assert_eq!(centered(AREA, 200, 200), AREA);
    assert_eq!(content_area(Rect { x: 0, y: 0, width: 200, height: 50 }), Some(Rect { x: 38, y: 0, width: 124, height: 50 }));
    assert_eq!(content_area(Rect { x: 0, y: 0, width: 79, height: 50 }), None);
    assert_eq!(content_area(Rect { x: 0, y: 0, width: 80, height: 23 }), None);
}

#[test]
fn buttons_wrap_into_rows() {
    let area = Rect { x: 2, y: 3, width: 20, height: 3 };
    let (places, rows) = flow(&vec![8, 8, 8, 30], area, 3, 2);
    assert_eq!(rows, 3);
    assert_eq!(places[0], Rect { x: 2, y: 3, width: 8, height: 1 });
    assert_eq!(places[1], Rect { x: 12, y: 3, width: 8, height: 1 });
    assert_eq!(places[2], Rect { x: 2, y: 4, width: 8, height: 1 });
    assert_eq!(places[3], Rect { x: 2, y: 5, width: 20, height: 1 });
    // What does not fit is left out.
    assert_eq!(flow(&vec![20, 20, 20, 20], area, 3, 2).0.len(), 3);
    assert_eq!(line_up(&vec![8, 8, 8], area, 2).len(), 2);
}

#[test]
fn logs_are_scrolled_from_their_end() {
    assert_eq!(log_window(100, 10, 0), (90, 100));
    assert_eq!(log_window(100, 10, 5), (85, 95));
    assert_eq!(log_window(100, 10, 1000), (0, 10));
    assert_eq!(log_window(3, 10, 7), (0, 3));
}

#[test]
fn the_cursor_stays_in_its_box() {
    let b = text_box(&TextInput::new("abc", 40), "hint", 12);
    assert_eq!(b.text, " abc        ");
    assert_eq!(b.cursor, 4);
    let b = text_box(&TextInput::new("", 40), "hint", 12);
    assert_eq!(b.text, " hint       ");
    assert_eq!(b.cursor, 1);
    let b = text_box(&TextInput::new("abcdefghijklmnop", 40), "hint", 12);
    assert_eq!(b.text, " hijklmnop  ");
    assert_eq!(b.cursor, 10);
}

#[test]
fn tones_follow_the_temperature() {
    assert_eq!(temp_tone(units(70.0)), Tone::Good);
    assert_eq!(temp_tone(units(70.1)), Tone::Warn);
    assert_eq!(temp_tone(units(85.1)), Tone::Bad);
    assert_eq!(step_tone(Screen::Running, 0), Tone::Muted);
    assert_eq!(step_tone(Screen::Running, 2), Tone::Accent);
    assert_eq!(step_tone(Screen::Running, 3), Tone::Dim);
    assert_eq!(log_tone("=== GPU ==="), Tone::Accent);
    assert_eq!(log_tone("PawnIO: NOT installed"), Tone::Warn);
    assert_eq!(log_tone("fine"), Tone::Muted);
}

#[test]
fn clocks_and_durations() {
    assert_eq!(fmt_clock(65 * SECOND), "1:05");
    assert_eq!(fmt_clock(3600 * SECOND), "60:00");
    assert_eq!(format_duration(120), (Some(2), None));
    assert_eq!(format_duration(90), (Some(1), Some(30)));
    assert_eq!(format_duration(45), (None, Some(45)));
    assert_eq!((pulse(0), pulse(3), pulse(6), pulse(11), pulse(12)), ('·', '•', '●', '•', '·'));
}

#[test]
fn the_first_line_leaves_out_what_does_not_fit() {
    assert_eq!(steps_at(AREA, 20, 40, 4), Some(34));
    assert_eq!(steps_at(AREA, 33, 40, 4), None);
    assert_eq!(toast_place(AREA, 10), Rect { x: 67, y: 22, width: 12, height: 1 });
}

#[test]
fn boot_steps_are_marked() {
    assert_eq!(boot_mark(BootStep::Hardware, BootStep::Driver), Mark::Done);
    assert_eq!(boot_mark(BootStep::Driver, BootStep::Driver), Mark::Now);
    assert_eq!(boot_mark(BootStep::Driver, BootStep::Hardware), Mark::Ahead);
    assert_eq!(boot_steps(false, BootStep::Hardware).len(), 2);
    assert_eq!(boot_steps(true, BootStep::Hardware).len(), 3);
}

fn found(source: &str, value: f64) -> Channel {
    let mut c = Channel::new(SECOND);
    c.push(10 * SECOND, units(value), Some(source.into()));
    c
}

#[test]
fn sensors_are_checked_before_the_test() {
    let mut missing = Channel::new(SECOND);
    assert_eq!(sensor_check(&missing, &missing, true), Check::Waiting);
    assert!(matches!(sensor_row(&missing, SECOND), SensorRow::Searching));
    missing.miss(1000 * SECOND, SECOND);
    assert!(matches!(sensor_row(&missing, SECOND), SensorRow::Missing));
    let cpu = found("HWiNFO / CPU", 50.0);
    assert_eq!(sensor_check(&cpu, &missing, false), Check::AllGood);
    assert_eq!(sensor_check(&cpu, &missing, true), Check::Partial);
    let board = found("ACPI thermal zone (motherboard)", 40.0);
    assert_eq!(sensor_check(&board, &cpu, true), Check::Partial);
    match sensor_row(&cpu, 14 * SECOND) {
        SensorRow::Reading { value, source, age } => {
            assert_eq!(value, units(50.0));
            assert_eq!(source.as_deref(), Some("HWiNFO / CPU"));
            assert_eq!(age, Some(4));
        }
        _ => panic!("there is a reading"),
    }
    let setup = Some(plain_setup(true));
    assert!(matches!(sensor_tips(&setup, System::Linux, &board, &missing, true).as_slice(), [Tip::LinuxSensors, Tip::GpuDriver]));
    assert!(sensor_tips(&setup, System::Windows, &cpu, &cpu, true).is_empty());
    assert!(sensor_tips(&None, System::Linux, &board, &missing, true).is_empty());
    assert_eq!(idle_note(true, Some(units(66.0))).unwrap().level, IdleLevel::Hot);
    assert!(idle_note(true, Some(units(50.0))).is_none());
}

#[test]
fn the_user_is_told_what_to_expect() {
    let before = Before { cpu: Some(units(60.0)), gpu: None, cpu_missing: false, gpu_missing: true };
    let b = bullets(TestKind::Both, true, Some(true), Some(before));
    assert_eq!(b[0], Bullet::Load(TestKind::Both));
    assert!(matches!(b[6], Bullet::Idle(n) if !n.gpu && n.level == IdleLevel::Warm));
    assert_eq!(b[4], Bullet::AutoSubmit);
    assert_eq!(b[5], Bullet::Battery);
    assert_eq!(b.last(), Some(&Bullet::GpuMissing));
    assert_eq!(bullets(TestKind::Cpu, false, None, None).len(), 4);
    assert_eq!(box_height(&vec![1, 2, 1], AREA, 5), 6);
    assert_eq!(box_height(&vec![30], AREA, 5), 17);
    assert!(is_recommended(Field::Duration, 1));
    assert!(is_recommended(Field::Test, 0));
    assert!(!is_recommended(Field::Duration, 0));
}

#[test]
fn progress_follows_the_clock() {
    let mut p = Progress::new();
    assert_eq!(elapsed(&p, 100 * SECOND, 60 * SECOND), 0);
    p.phase = Phase::Running;
    p.started = Some(10 * SECOND);
    assert_eq!(elapsed(&p, 40 * SECOND, 60 * SECOND), 30 * SECOND);
    assert_eq!(elapsed(&p, 400 * SECOND, 60 * SECOND), 60 * SECOND);
    p.phase = Phase::Stopping;
    p.stopped = Some(20 * SECOND);
    assert_eq!(elapsed(&p, 400 * SECOND, 60 * SECOND), 10 * SECOND);
    assert_eq!(percent(20 * SECOND, 60 * SECOND), 33);
    assert_eq!(progress_label(9 * SECOND, 120 * SECOND), "    7%   0:09 / 2:00");
    let (done, rest) = progress_bar(10, 45 * SECOND, 100 * SECOND);
    assert_eq!(done, "████▌");
    assert_eq!(rest, "░░░░░");
    let (done, rest) = progress_bar(10, 100 * SECOND, 100 * SECOND);
    assert_eq!((done.chars().count(), rest.as_str()), (10, ""));
    assert_eq!(run_title(Phase::Running, true), RunTitle::Diagnostics);
    assert_eq!(run_title(Phase::Finished, true), RunTitle::Stopping);
}

#[test]
fn a_sensor_that_is_late_is_noticed() {
    let c = found("a", 50.0);
    assert!(!is_lagging(Phase::Running, &c, 15 * SECOND));
    assert!(is_lagging(Phase::Running, &c, 15 * SECOND + 1));
    assert!(!is_lagging(Phase::Stopping, &c, 100 * SECOND));
    assert!(!is_lagging(Phase::Running, &Channel::new(0), 100 * SECOND));
}

#[test]
fn cards_share_the_screen() {
    assert_eq!(cards(TestKind::Cpu, 100), Cards::One);
    assert_eq!(cards(TestKind::Both, 72), Cards::Beside);
    assert_eq!(cards(TestKind::Both, 71), Cards::Stacked);
    assert_eq!(chart_rows(Rect { x: 0, y: 0, width: 30, height: 12 }, 4), Some(7));
    assert_eq!(chart_rows(Rect { x: 0, y: 0, width: 30, height: 8 }, 4), None);
}

#[test]
fn charts_hold_all_their_values() {
    assert_eq!(chart_bounds(&vec![]), (units(30.0), units(90.0)));
    assert_eq!(chart_bounds(&vec![units(41.0), units(83.2)]), (units(35.0), units(90.0)));
    assert_eq!(chart_bounds(&vec![units(50.0)]), (units(40.0), units(60.0)));
    assert_eq!(chart_bounds(&vec![units(52.0)]), (units(42.5), units(62.5)));
    assert_eq!(chart_bounds(&vec![units(-12.0), units(20.0)]), (units(-20.0), units(25.0)));
}

#[test]
fn large_figures_have_three_rows() {
    assert_eq!(big_digits("1.5", 0), "▀█    █▀▀");
    assert_eq!(big_digits("1.5", 2), "▀▀▀ ▀ ▀▀▀");
    assert_eq!(big_digits("", 0), "");
}

#[test]
fn cells_show_what_is_known() {
    let p = Part { idle: Some(units(40.0)), peak: Some(units(80.25)), ..Default::default() };
    assert_eq!(temp_cell(p.peak), "80.2°C");
    assert_eq!(temp_cell(None), "--");
    assert_eq!(rise_cell(&p), "+40.2");
    assert_eq!(rise_cell(&Part::default()), "--");
    assert_eq!(load_cell(Some(units(99.5))), "100%");
    let v = Verdict { kind: Some(TestKind::Both), cpu_ok: true, gpu_ok: true };
    assert!(is_part_good(true, TestKind::Both, v, &vec![Warning::CpuTempFlat]));
    assert!(!is_part_good(false, TestKind::Both, v, &vec![Warning::CpuTempFlat]));
    assert!(!is_part_good(false, TestKind::Gpu, v, &vec![]));
}

#[test]
fn results_are_compared_with_the_average() {
    let entry = |count: u64, avg: Option<f64>, scope: &str| Some(CompareEntry {
        model: Some("X".into()),
        count: Some(count),
        scope: Some(scope.into()),
        avg_load: avg.map(units),
        standing: None,
    });
    match compare_line(&entry(3, Some(75.0), "exact"), Some(units(80.0)), true) {
        Some(CompareLine::Average { model, outcome, count, .. }) => {
            assert_eq!(model.as_deref(), Some("X"));
            assert_eq!(outcome, Outcome::Warmer(units(5.0)));
            assert_eq!(count, 3);
        }
        _ => panic!("there is an average"),
    }
    match compare_line(&entry(3, Some(75.0), "similar"), Some(units(74.6)), true) {
        Some(CompareLine::Average { model, outcome, .. }) => {
            assert_eq!(model, None);
            assert_eq!(outcome, Outcome::Same);
        }
        _ => panic!("there is an average"),
    }
    match compare_line(&entry(3, Some(75.0), "exact"), Some(units(74.5)), true) {
        Some(CompareLine::Average { outcome, .. }) => assert_eq!(outcome, Outcome::Cooler(units(0.5))),
        _ => panic!("there is an average"),
    }
    assert!(matches!(compare_line(&entry(1, Some(75.0), "exact"), Some(units(74.5)), true), Some(CompareLine::First { .. })));
    assert!(compare_line(&entry(3, Some(75.0), "exact"), Some(units(74.5)), false).is_none());
    assert!(compare_line(&None, Some(units(74.5)), true).is_none());
}

#[test]
fn the_rank_is_the_servers() {
    let entry = Some(CompareEntry {
        model: None,
        count: None,
        scope: None,
        avg_load: None,
        standing: Some(Standing { cooler_than: units(81.0), hotter_than: units(19.0), count: 39 }),
    });
    let rank = ranking(&entry, true).unwrap();
    assert_eq!((rank.cooler_than, rank.count), (units(81.0), 39));
    assert!(ranking(&entry, false).is_none());
    assert!(ranking(&None, true).is_none());
}

#[test]
fn a_run_is_laid_out_from_top_to_bottom() {
    let d = dashboard(AREA, 20, 2, &vec![3, 3]);
    assert_eq!(d.title, Rect { x: 0, y: 1, width: 80, height: 1 });
    assert_eq!(d.bar, Rect { x: 0, y: 2, width: 60, height: 1 });
    assert_eq!(d.label, Rect { x: 60, y: 2, width: 20, height: 1 });
    assert_eq!(d.cards, Rect { x: 0, y: 4, width: 80, height: 13 });
    assert_eq!(d.bottom, Rect { x: 0, y: 17, width: 80, height: 7 });
    assert_eq!(dashboard(AREA, 20, 2, &vec![]).bottom.height, 3);
}

#[test]
fn rows_and_columns() {
    assert_eq!(paragraph(AREA, 22, 5, 2), Some(Rect { x: 2, y: 22, width: 78, height: 2 }));
    assert_eq!(paragraph(AREA, 24, 5, 2), None);
    assert_eq!(paragraph(AREA, 22, 5, 80), Some(Rect { x: 80, y: 22, width: 1, height: 2 }));
    assert_eq!(paragraph(AREA, 22, 5, 200), Some(Rect { x: 200, y: 22, width: 1, height: 2 }));
    assert_eq!((button_row(AREA, 10), button_row(AREA, 23)), (11, 23));
    assert_eq!(form_columns(AREA, 10), (15, 65));
    assert_eq!(log_place(AREA, 5, &vec![1, 1], true), Some(Rect { x: 0, y: 5, width: 80, height: 13 }));
    assert_eq!(log_place(AREA, 18, &vec![], true), None);
}

#[test]
fn dialogs_stand_in_the_middle() {
    assert_eq!(dialog_place(AREA, Shape::Languages), Rect { x: 20, y: 4, width: 40, height: 15 });
    assert_eq!(dialog_place(AREA, Shape::Feedback), Rect { x: 4, y: 1, width: 72, height: 22 });
    assert_eq!(dialog_place(AREA, Shape::Stop { text: 2 }).width, 60);
    assert_eq!(dialog_place(AREA, Shape::Driver { text: 2 }).height, 8);
    assert_eq!(dialog_place(AREA, Shape::Details { fields: 3 }).height, 13);
    assert_eq!(dialog_place(AREA, Shape::Help { texts: 60 }).height, 24);
    assert_eq!(dialog_tone(Shape::Stop { text: 2 }), Tone::Warn);
    let rows = feedback_rows(1, 1);
    assert_eq!((rows.rating, rows.message, rows.email, rows.error), (2, 8, 13, 17));
    assert!(is_lit(Some(3), 3));
    assert!(!is_lit(Some(3), 4));
    assert!(!is_lit(None, 1));
    let places = shelf(&vec![5, 5, 5], 10, 3, 20, 3);
    assert_eq!(places[1], Rect { x: 18, y: 3, width: 2, height: 1 });
    assert_eq!(places[2].width, 0);
}
