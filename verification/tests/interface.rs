use thermalstats::api::{ApiError, Comparison, Submitted};
use thermalstats::app::{
    Action, App, CompareState, DiagStage, Effect, FbField, FbState, Modal, Screen, SubmitState,
    Toast, LANGUAGES,
};
use thermalstats::buttons::{
    dialog_buttons, find_hit, footer_buttons, screen_buttons, Label, Mouse, Press,
};
use thermalstats::engine::{Part, Phase, Progress, TestKind, Warning};
use thermalstats::form::{Field, Form, LaunchOptions};
use thermalstats::gpus::{GpuDevice, GpuKind};
use thermalstats::hardware::HardwareInfo;
use thermalstats::input::{Key, KeyCode, TextInput};
use thermalstats::layout::Rect;
use thermalstats::payload::BlockReason;
use thermalstats::sensors::{Channel, Readings, SECOND};
use thermalstats::settings::{Moment, Settings};
use thermalstats::setup::{plain_setup, DriverState, SensorSetup};
use thermalstats::stress::{GpuStress, StressStatus};
use thermalstats::summary::feedback_to_send;

fn units(x: f64) -> i64 {
    (x * 1e6).round() as i64
}

fn options() -> LaunchOptions {
    LaunchOptions {
        api_url: "https://thermalstats.com/api/submissions".into(),
        no_submit: false,
        demo: false,
        test: None,
        duration: None,
        cooling_type: None,
        cooling_model: None,
        ambient_temp: None,
        diagnostics: false,
    }
}

fn card(name: &str, kind: GpuKind) -> GpuDevice {
    GpuDevice {
        name: name.into(),
        vram_bytes: None,
        kind,
        vendor_id: None,
        device_id: None,
        nvml_index: None,
        sysfs_device: None,
    }
}

fn hardware() -> HardwareInfo {
    HardwareInfo {
        cpu_model: Some("AMD Ryzen 7 7800X3D".into()),
        cpu_cores: Some(8),
        cpu_threads: Some(16),
        os: Some("Linux".into()),
        is_laptop: false,
        gpus: vec![
            card("NVIDIA GeForce RTX 4080 SUPER", GpuKind::Discrete),
            card("Intel(R) UHD Graphics 770", GpuKind::Integrated),
        ],
    }
}

fn booted(opts: LaunchOptions) -> App {
    let mut app = App::new("en".into(), opts, Settings::default(), "2.0.0".into(), false);
    let effects = app.finish_boot(hardware(), plain_setup(false), "cli-1".into(), Some(false));
    assert!(matches!(effects.as_slice(), [Effect::StartSensors { gpu_count: 2, demo: false, .. }]) || app.opts.demo);
    app
}

fn key(code: KeyCode) -> Key {
    Key { code, ctrl: false }
}

fn letter(c: char) -> Key {
    key(KeyCode::Char(c))
}

fn finished() -> Progress {
    let mut p = Progress::new();
    p.phase = Phase::Finished;
    p.cpu = Part { idle: Some(units(40.0)), peak: Some(units(80.0)), ..Default::default() };
    p.gpu = Part { idle: Some(units(35.0)), peak: Some(units(70.0)), ..Default::default() };
    p.stress = StressStatus { cpu_threads: 16, gpu: GpuStress::Running { adapter: "A".into(), backend: "Vulkan".into() } };
    p
}

fn running() -> App {
    let mut app = booted(options());
    app.on_key(&key(KeyCode::Enter));
    assert_eq!(app.screen, Screen::Options);
    app.on_key(&key(KeyCode::Enter));
    assert_eq!(app.screen, Screen::Confirm);
    let effects = app.on_key(&key(KeyCode::Enter));
    assert_eq!(app.screen, Screen::Running);
    assert!(effects.iter().any(|e| matches!(e, Effect::StartTest(p) if p.kind == TestKind::Both && p.duration == 120 * SECOND)));
    app
}

#[test]
fn a_completed_test_is_submitted_at_once() {
    let mut app = running();
    let effects = app.on_finished(finished(), vec![]);
    assert_eq!(app.screen, Screen::Results);
    match effects.as_slice() {
        [Effect::Submit(p)] => {
            assert_eq!(p.test_type, "both");
            assert_eq!(p.cpu_temp_load, Some(units(80.0)));
            assert_eq!(p.session_id.as_deref(), Some("cli-1"));
        }
        _ => panic!("nothing was submitted"),
    }
    assert!(matches!(app.results.as_ref().unwrap().submit, SubmitState::Sending));
    let effects = app.on_accepted(Submitted { id: "r1".into(), baseline_id: None }, "2024-01-01T00:00:00Z".into());
    assert!(matches!(effects.as_slice(), [Effect::SaveSettings, Effect::OpenResult(_), Effect::Compare(_)]));
    assert_eq!(app.farewell_url.as_deref(), Some("https://thermalstats.com/results/r1"));
    assert_eq!(app.settings.last_result.as_ref().unwrap().id, "r1");
    app.on_compared(Some(Comparison { cpu: None, gpu: None }));
    assert!(matches!(app.results.as_ref().unwrap().compare, CompareState::Ready(_)));
    // The link can be opened and copied.
    assert!(matches!(app.on_key(&letter('c')).as_slice(), [Effect::Copy(u)] if u == "https://thermalstats.com/results/r1"));
    app.on_copied(true, 5 * SECOND);
    assert!(matches!(app.toast, Some((Toast::Copied, _))));
    app.tick(11 * SECOND);
    assert!(app.toast.is_none());
}

#[test]
fn a_stopped_test_is_kept() {
    let mut app = running();
    app.on_key(&key(KeyCode::Esc));
    assert!(matches!(app.modal, Some(Modal::StopTest)));
    assert!(matches!(app.on_key(&letter('s')).as_slice(), [Effect::StopTest]));
    let mut p = finished();
    p.stopped_early = true;
    assert!(app.on_finished(p, vec![]).is_empty());
    assert!(matches!(app.results.as_ref().unwrap().submit, SubmitState::Blocked(_)));
}

#[test]
fn a_refused_submission_can_be_sent_again() {
    let mut app = running();
    app.on_finished(finished(), vec![]);
    app.on_refused(ApiError::Connection("offline".into()));
    match &app.results.as_ref().unwrap().submit {
        SubmitState::Failed { reason, retry } => {
            assert_eq!(reason, "offline");
            assert!(retry);
        }
        _ => panic!("should have failed"),
    }
    assert!(matches!(app.on_key(&key(KeyCode::Enter)).as_slice(), [Effect::Submit(_)]));
}

#[test]
fn a_running_test_cannot_be_left_by_accident() {
    let mut app = running();
    app.on_key(&letter('q'));
    assert!(!app.quit);
    assert!(matches!(app.modal, Some(Modal::StopTest)));
    app.on_key(&key(KeyCode::Enter));
    assert!(app.modal.is_none());
    assert_eq!(app.screen, Screen::Running);
}

#[test]
fn the_card_can_be_changed_there_and_back() {
    let mut app = booted(options());
    assert_eq!(app.selected_gpu().unwrap().name, "NVIDIA GeForce RTX 4080 SUPER");
    let effects = app.on_key(&key(KeyCode::Right));
    assert!(effects.iter().any(|e| matches!(e, Effect::SelectGpu(Some(g)) if g.name == "Intel(R) UHD Graphics 770")));
    assert_eq!(app.gpu_index, 1);
    app.on_key(&key(KeyCode::Left));
    assert_eq!(app.gpu_index, 0);
}

#[test]
fn a_machine_without_a_card_tests_its_cpu() {
    let mut app = App::new("en".into(), options(), Settings::default(), "2.0.0".into(), false);
    let hw = HardwareInfo { gpus: vec![], ..hardware() };
    app.finish_boot(hw, plain_setup(false), "cli-1".into(), None);
    assert_eq!(app.form.kind(), TestKind::Cpu);
    assert!(app.selected_gpu().is_none());
    let mut app = App::new("en".into(), options(), Settings::default(), "2.0.0".into(), false);
    app.boot_failed();
    assert_eq!(app.screen, Screen::Home);
    assert_eq!(app.gpu_count(), 0);
}

#[test]
fn wrong_options_are_pointed_out() {
    let mut app = booted(options());
    app.on_key(&key(KeyCode::Enter));
    app.act(Action::Choose(Field::Duration, 4));
    app.act(Action::Focus(Field::CustomSecs));
    while app.form.custom_secs.len() > 0 {
        app.on_key(&key(KeyCode::Backspace));
    }
    app.on_key(&letter('5'));
    app.on_key(&key(KeyCode::Enter));
    assert_eq!(app.screen, Screen::Options);
    assert!(app.form.error.is_some());
}

#[test]
fn feedback_needs_a_message() {
    let mut app = booted(options());
    app.on_key(&letter('f'));
    app.act(Action::FbFocus(FbField::Send));
    assert!(app.on_key(&key(KeyCode::Enter)).is_empty());
    match &app.modal {
        Some(Modal::Feedback(f)) => assert!(f.error),
        _ => panic!("the form is open"),
    }
    app.act(Action::FbFocus(FbField::Message));
    app.on_paste("works well");
    app.act(Action::FbRating(5));
    app.act(Action::FbCategory(2));
    app.act(Action::FbFocus(FbField::Send));
    match app.on_key(&key(KeyCode::Enter)).as_slice() {
        [Effect::SendFeedback { payload, include_info }] => {
            assert_eq!(payload.message, "works well");
            assert_eq!(payload.rating, Some(5));
            assert_eq!(payload.category, "praise");
            assert_eq!(payload.context, "home");
            assert_eq!(payload.diagnostics, None);
            assert!(*include_info);
            let sent = feedback_to_send(&booted(options()), payload.clone(), *include_info, None);
            assert!(sent.diagnostics.unwrap().starts_with("Device: desktop"));
            let sent = feedback_to_send(&booted(options()), payload.clone(), false, None);
            assert_eq!((sent.diagnostics, sent.message.as_str()), (None, "works well"));
        }
        _ => panic!("nothing was sent"),
    }
    app.on_feedback(None);
    match &app.modal {
        Some(Modal::Feedback(f)) => assert!(matches!(f.state, FbState::Sent)),
        _ => panic!("the form is open"),
    }
    app.on_key(&key(KeyCode::Esc));
    assert!(app.modal.is_none());
}

#[test]
fn diagnostics_end_with_a_link() {
    let mut app = booted(options());
    app.on_key(&letter('d'));
    assert_eq!(app.screen, Screen::Diagnostics);
    assert!(matches!(app.on_key(&key(KeyCode::Enter)).as_slice(), [Effect::CollectDiagnostics]));
    app.on_line("=== A ===".into());
    let effects = app.on_collected();
    assert!(effects.iter().any(|e| matches!(e, Effect::StartTest(p) if p.duration == 30 * SECOND)));
    let effects = app.on_finished(finished(), vec!["summary".into()]);
    match effects.as_slice() {
        [Effect::UploadLog(p)] => assert_eq!(p.log, "=== A ===\nsummary"),
        _ => panic!("the log is uploaded"),
    }
    assert!(app.results.is_none());
    app.on_saved("/tmp/log.txt".into());
    app.on_uploaded("d1");
    match &app.diag.as_ref().unwrap().stage {
        DiagStage::Done { url } => assert_eq!(url, "https://thermalstats.com/debug/d1"),
        _ => panic!("done"),
    }
    app.on_mouse(&vec![], Mouse::WheelUp);
    assert_eq!(app.diag.as_ref().unwrap().scroll, 3);
    app.on_mouse(&vec![], Mouse::WheelDown);
    app.on_mouse(&vec![], Mouse::WheelDown);
    assert_eq!(app.diag.as_ref().unwrap().scroll, 0);
}

#[test]
fn a_log_that_is_refused_is_reported() {
    let mut app = booted(options());
    app.on_key(&letter('d'));
    app.on_key(&key(KeyCode::Enter));
    app.on_collected();
    app.on_finished(finished(), vec![]);
    app.on_upload_failed(&ApiError::Rejected { status: 500, message: "full".into() });
    match &app.diag.as_ref().unwrap().stage {
        DiagStage::Failed(reason) => assert!(reason.contains("full")),
        _ => panic!("failed"),
    }
}

#[test]
fn languages_are_chosen_from_a_list() {
    let mut app = booted(options());
    app.on_key(&letter('l'));
    assert!(matches!(app.modal, Some(Modal::Language { cursor: 0 })));
    app.on_key(&key(KeyCode::Down));
    let effects = app.on_key(&key(KeyCode::Enter));
    assert_eq!(app.locale, LANGUAGES[1]);
    assert_eq!(app.settings.lang.as_deref(), Some("fr"));
    assert!(effects.iter().any(|e| matches!(e, Effect::SaveSettings)));
    assert!(matches!(app.act(Action::Support).as_slice(), [Effect::OpenUrl(u)] if u == "https://thermalstats.com/fr/support"));
    app.on_opened("u".into(), false, SECOND);
    assert!(matches!(app.toast, Some((Toast::OpenFailed(_), _))));
}

#[test]
fn the_user_decides_on_a_driver_that_was_installed() {
    let mut app = App::new("en".into(), options(), Settings::default(), "2.0.0".into(), true);
    let setup = SensorSetup {
        lhm_dir: Some("C:\\lhm".into()),
        monitoring_app: None,
        driver: DriverState::InstalledNow,
        elevated: true,
        hwinfo_shared_memory_off: false,
    };
    app.finish_boot(hardware(), setup, "cli-1".into(), None);
    app.on_key(&letter('q'));
    assert!(!app.quit);
    assert!(matches!(app.modal, Some(Modal::Pawnio { .. })));
    assert!(matches!(app.on_key(&letter('u')).as_slice(), [Effect::RemoveDriver]));
    app.on_driver_removed(Some("denied".into()));
    assert!(matches!(app.modal, Some(Modal::Pawnio { removing: false, error: Some(_) })));
    app.on_key(&key(KeyCode::Enter));
    assert!(app.quit);
}

#[test]
fn an_earlier_result_can_be_the_baseline() {
    let mut app = running();
    app.on_finished(finished(), vec![]);
    app.on_accepted(Submitted { id: "r1".into(), baseline_id: None }, "2024-01-01T00:00:00Z".into());
    app.on_key(&letter('r'));
    assert_eq!(app.screen, Screen::Options);
    let at = app.settings.last_result.as_ref().unwrap().submitted_at();
    let now = Moment { secs: at.unwrap().secs + 3600, nanos: 0 };
    app.re_test(Some("paste".into()), at, now);
    assert_eq!(app.baseline.as_deref(), Some("r1"));
    app.on_key(&key(KeyCode::Enter));
    app.on_key(&key(KeyCode::Enter));
    match app.on_finished(finished(), vec![]).as_slice() {
        [Effect::Submit(p)] => {
            assert_eq!(p.baseline_id.as_deref(), Some("r1"));
            assert_eq!(p.change_type.as_deref(), Some("paste"));
        }
        _ => panic!("nothing was submitted"),
    }
}

#[test]
fn buttons_and_their_keys_agree() {
    let app = booted(options());
    let names: Vec<String> = screen_buttons(&app).iter().map(|b| b.key.name()).collect();
    assert_eq!(names, vec!["Enter", "D"]);
    for b in screen_buttons(&app).into_iter().chain(footer_buttons(app.screen)) {
        let code = match b.key {
            Press::Enter => KeyCode::Enter,
            Press::Esc => KeyCode::Esc,
            Press::Letter(c) => KeyCode::Char(c),
        };
        let mut by_key = app.clone();
        let mut by_click = app.clone();
        let place = Rect { x: 3, y: 4, width: 5, height: 1 };
        by_key.on_key(&key(code));
        by_click.on_mouse(&vec![(place, b.action)], Mouse::Down { x: 7, y: 4 });
        assert_eq!(format!("{:?}", by_key), format!("{:?}", by_click));
    }
    assert!(footer_buttons(Screen::Boot).is_empty());
    assert_eq!(footer_buttons(Screen::Running)[0].label, Label::Stop);
    assert_eq!(dialog_buttons(&Modal::StopTest).len(), 2);
}

#[test]
fn what_is_drawn_last_is_hit_first() {
    let whole = Rect { x: 0, y: 0, width: 80, height: 24 };
    let part = Rect { x: 10, y: 5, width: 10, height: 2 };
    let hits = vec![(whole, Action::Back), (part, Action::Continue)];
    assert_eq!(find_hit(&hits, 10, 5), Some(Action::Continue));
    assert_eq!(find_hit(&hits, 19, 6), Some(Action::Continue));
    assert_eq!(find_hit(&hits, 20, 6), Some(Action::Back));
    assert_eq!(find_hit(&hits, 80, 0), None);
}

#[test]
fn the_summary_names_machine_sensors_and_test() {
    let mut app = running();
    let mut p = finished();
    p.warnings.push(Warning::CpuTempFlat);
    app.on_finished(p, vec![]);
    let mut r = Readings::new(SECOND);
    let mut c = Channel::new(SECOND);
    c.push(SECOND, units(50.0), Some("hwmon".into()));
    r.cpu_temp = c;
    let text = app.feedback_diagnostics(Some(&r));
    let lines: Vec<&str> = text.lines().collect();
    assert_eq!(lines, vec![
        "Device: desktop",
        "GPU 0 [selected]: NVIDIA GeForce RTX 4080 SUPER",
        "GPU 1: Intel(R) UHD Graphics 770",
        "Admin: false | Monitoring app: none | Driver: NotNeeded",
        "CPU sensor: Found hwmon | GPU sensor: Searching ",
        "Last test: both 120s | CPU idle Some(40.0) peak Some(80.0) | GPU idle Some(35.0) peak Some(70.0) | GPU stress Running { adapter: \"A\", backend: \"Vulkan\" } | warnings [CpuTempFlat]",
    ]);
}

#[test]
fn answers_are_remembered_for_the_next_run() {
    let mut app = booted(options());
    app.on_key(&key(KeyCode::Enter));
    app.act(Action::Choose(Field::Test, 2));
    app.act(Action::Choose(Field::Duration, 4));
    app.form.custom_secs = TextInput::new("95", 4);
    app.act(Action::Choose(Field::Cooling, 2));
    app.form.cooler_model = TextInput::new("  NZXT Kraken X63 ", 120);
    app.form.ambient = TextInput::new("72f", 8);
    let effects = app.on_key(&key(KeyCode::Enter));
    assert!(matches!(effects.as_slice(), [Effect::SaveSettings]));
    let next = Form::new(&app.settings, &options());
    assert_eq!(next.kind(), TestKind::Gpu);
    assert_eq!(next.duration_secs(), Some(95));
    assert_eq!(next.cooling, 2);
    assert_eq!(next.cooler_model.value, "NZXT Kraken X63");
    assert_eq!(next.ambient_celsius(), Ok(Some(units(22.2))));
    assert_eq!(next.ambient.value, "22.2");
    assert_eq!(app.settings.gpu_name.as_deref(), Some("NVIDIA GeForce RTX 4080 SUPER"));
}

#[test]
fn the_chosen_card_is_tested_and_submitted() {
    let mut app = booted(options());
    app.on_key(&key(KeyCode::Right));
    app.on_key(&key(KeyCode::Enter));
    app.on_key(&key(KeyCode::Enter));
    match app.on_key(&key(KeyCode::Enter)).as_slice() {
        [Effect::StartTest(p)] => assert_eq!(p.gpu.as_ref().unwrap().name, "Intel(R) UHD Graphics 770"),
        _ => panic!("the test starts"),
    }
    match app.on_finished(finished(), vec![]).as_slice() {
        [Effect::Submit(p)] => assert_eq!(p.gpu_model.as_deref(), Some("Intel(R) UHD Graphics 770")),
        _ => panic!("the result is submitted"),
    }
}

#[test]
fn quick_tests_are_kept() {
    assert!(App::is_quick(59));
    assert!(!App::is_quick(60));
    let mut opts = options();
    opts.duration = Some(30);
    let mut app = booted(opts);
    for _ in 0..3 {
        app.on_key(&key(KeyCode::Enter));
    }
    assert!(app.on_finished(finished(), vec![]).is_empty());
    assert!(matches!(app.results.as_ref().unwrap().submit, SubmitState::Blocked(BlockReason::Quick)));
    assert!(app.act(Action::Submit).is_empty());
}
