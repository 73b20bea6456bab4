use thermalstats::api::DEFAULT_API_URL;
use thermalstats::decimal::{push_shown, push_signed};
use thermalstats::engine::TestKind;
use thermalstats::form::{ambient_of, edit_form, turn, Field, Form, LaunchOptions, COOLING, DURATIONS};
use thermalstats::input::{Key, KeyCode, TextInput};
use thermalstats::numerals::parse_millionths;
use thermalstats::settings::Settings;

fn units(x: f64) -> i64 {
    (x * 1e6).round() as i64
}

fn opts() -> LaunchOptions {
    LaunchOptions {
        api_url: DEFAULT_API_URL.into(),
        no_submit: false,
        demo: false,
        test: None,
        duration: None,
        cooling_type: None,
        cooling_model: None,
        ambient_temp: None,
        diagnostics: false,
    }
}

#[test]
fn parses_room_temperature() {
    let mut form = Form::new(&Settings::default(), &opts());
    form.ambient = TextInput::new("72f", 8);
    assert_eq!(form.ambient_celsius(), Ok(Some(units(22.2))));
    form.ambient = TextInput::new("22,5", 8);
    assert_eq!(form.ambient_celsius(), Ok(Some(units(22.5))));
    form.ambient = TextInput::new("", 8);
    assert_eq!(form.ambient_celsius(), Ok(None));
    form.ambient = TextInput::new("hot", 8);
    assert!(form.ambient_celsius().is_err());
    form.ambient = TextInput::new("95", 8);
    assert!(form.ambient_celsius().is_err());
}

#[test]
fn custom_duration_bounds() {
    let mut form = Form::new(&Settings::default(), &opts());
    form.duration = DURATIONS.len();
    form.custom_secs = TextInput::new("29", 4);
    assert_eq!(form.duration_secs(), None);
    form.custom_secs = TextInput::new("90", 4);
    assert_eq!(form.duration_secs(), Some(90));
}

#[test]
fn launch_flags_prefill_the_form() {
    let mut o = opts();
    o.duration = Some(180);
    o.cooling_type = Some("aio".into());
    let form = Form::new(&Settings::default(), &o);
    assert_eq!(form.duration_secs(), Some(180));
    assert_eq!(COOLING[form.cooling], "aio");
}

#[test]
fn text_input_edits_at_cursor() {
    let mut t = TextInput::new("ac", 10);
    t.cursor = 1;
    t.insert('b');
    assert_eq!(t.value, "abc");
    t.backspace();
    assert_eq!(t.value, "ac");
}

#[test]
fn a_full_field_takes_no_more() {
    let mut t = TextInput::new("abcdef", 4);
    assert_eq!(t.value, "abcd");
    t.insert('x');
    assert_eq!(t.value, "abcd");
    t.insert_str("yz");
    assert_eq!(t.value, "abcd");
    t.cursor = 0;
    t.delete();
    assert_eq!(t.value, "bcd");
    t.insert_str("1\n\u{7}2");
    assert_eq!(t.value, "1bcd");
    assert_eq!(t.len(), 4);
    t.cursor = 0;
    t.backspace();
    assert_eq!(t.value, "1bcd");
}

#[test]
fn pasted_line_ends_become_blanks() {
    let mut t = TextInput::new("", 10);
    t.insert_str("a\nb\tc");
    assert_eq!(t.value, "a b c");
    assert_eq!(t.trimmed().as_deref(), Some("a b c"));
    assert_eq!(TextInput::new("   ", 10).trimmed(), None);
}

#[test]
fn keys_move_the_cursor() {
    let key = |code: KeyCode| Key { code, ctrl: false };
    let mut t = TextInput::new("añb", 10);
    assert!(t.handle(&key(KeyCode::Home)));
    assert_eq!(t.cursor, 0);
    assert!(t.handle(&key(KeyCode::Right)));
    assert!(t.handle(&key(KeyCode::Delete)));
    assert_eq!(t.value, "ab");
    assert!(t.handle(&key(KeyCode::End)));
    assert!(t.handle(&key(KeyCode::Left)));
    assert!(t.handle(&key(KeyCode::Char('é'))));
    assert_eq!(t.value, "aéb");
    assert!(!t.handle(&key(KeyCode::Enter)));
}

#[test]
fn rows_depend_on_the_machine() {
    let form = Form::new(&Settings::default(), &opts());
    assert!(form.fields(false, 2, false).contains(&Field::Gpu));
    assert!(!form.fields(false, 1, false).contains(&Field::Gpu));
    assert!(form.fields(true, 1, false).contains(&Field::LaptopModel));
    assert!(form.fields(false, 1, false).contains(&Field::Cooling));
    assert!(!form.fields(false, 1, true).contains(&Field::Test));
}

#[test]
fn choices_turn_round() {
    assert_eq!(turn(0, 3, true), 2);
    assert_eq!(turn(2, 3, false), 0);
    for i in 0..5 {
        assert_eq!(turn(turn(i, 5, true), 5, false), i);
    }
}

#[test]
fn the_arrow_keys_change_the_choice() {
    let mut form = Form::new(&Settings::default(), &opts());
    let rows = form.fields(false, 1, false);
    form.focus = Field::Test;
    assert_eq!(form.kind(), TestKind::Both);
    assert!(edit_form(&mut form, &rows, &Key { code: KeyCode::Right, ctrl: false }, 1));
    assert_eq!(form.kind(), TestKind::Cpu);
    assert!(edit_form(&mut form, &rows, &Key { code: KeyCode::Down, ctrl: false }, 1));
    assert_ne!(form.focus, Field::Test);
    assert!(!edit_form(&mut form, &rows, &Key { code: KeyCode::Enter, ctrl: false }, 1));
}

#[test]
fn settings_prefill_the_form() {
    let mut s = Settings::default();
    s.test_type = Some("gpu".into());
    s.duration_secs = Some(90);
    s.ambient_temp = Some(units(21.5));
    let form = Form::new(&s, &opts());
    assert_eq!(form.kind(), TestKind::Gpu);
    assert_eq!(form.duration_secs(), Some(90));
    assert_eq!(form.ambient_or_none(), Some(units(21.5)));
}

#[test]
fn the_room_may_be_in_fahrenheit_with_any_spelling() {
    let mut form = Form::new(&Settings::default(), &opts());
    for (text, celsius) in [(" 68 F ", 20.0), ("20°C", 20.0), ("20 c", 20.0), ("32f", 0.0)] {
        form.ambient = TextInput::new(text, 8);
        assert_eq!(form.ambient_celsius(), Ok(Some(units(celsius))), "{}", text);
    }
    form.ambient = TextInput::new("-1", 8);
    assert!(form.ambient_celsius().is_err());
}

fn read(text: &str) -> Option<i64> {
    parse_millionths(&text.chars().collect::<Vec<char>>())
}

#[test]
fn numbers_that_are_written_are_read_back() {
    for v in [0, 1, -1, 100_000, 22_200_000, -1_500_001, 999_999, 123_456_789_000_000] {
        let mut s = String::new();
        push_shown(&mut s, v);
        assert_eq!(read(&s), Some(v), "{}", s);
    }
    assert_eq!(read("1e3"), Some(units(1000.0)));
    assert_eq!(read("+2.5E-1"), Some(units(0.25)));
    assert_eq!(read(".5"), Some(units(0.5)));
    assert_eq!(read("5."), Some(units(5.0)));
    assert_eq!(read("."), None);
    assert_eq!(read(""), None);
    assert_eq!(read("1e"), None);
    assert_eq!(read("1 2"), None);
    let mut s = String::new();
    push_signed(&mut s, units(-0.25));
    assert_eq!(s, "-0.2");
}

#[test]
fn room_temperatures_are_rounded_as_doubles() {
    let read = |s: &str| ambient_of(s);
    let want = |s: &str, f: bool| {
        let v: f64 = s.parse().unwrap();
        let c = if f { (v - 32.0) * 5.0 / 9.0 } else { v };
        let r = (c * 10.0).round() / 10.0;
        if (0.0..=60.0).contains(&r) { Ok(Some(units(r))) } else { Err(()) }
    };
    for i in -200..14_000 {
        let s = format!("{}", i as f64 / 100.0);
        assert_eq!(read(&s), want(&s, false), "{}", s);
        assert_eq!(read(&format!("{}f", s)), want(&s, true), "{}f", s);
    }
    for s in [".0499999", "60.05", "60.04999", "-0.04", "-0.05", "1e-300", "1e300", "31.91", "0.9", "1048576", "1e9"] {
        assert_eq!(read(s), want(s, false), "{}", s);
        assert_eq!(read(&format!("{} °f", s)), want(s, true), "{}f", s);
    }
    assert_eq!(read("inf"), Err(()));
    assert_eq!(read("nan"), Err(()));
}
