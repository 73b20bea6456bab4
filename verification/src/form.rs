//! The form with the test's options.
use vstd::arithmetic::power::*;
use vstd::arithmetic::power2::*;
use vstd::prelude::*;

use crate::decimal::{
    decimal, lemma_dec, lemma_shown_is_read_back, number, parse_whole, push_shown, shown, whole,
    without_zeros, zeros_behind,
};
use crate::engine::TestKind;
use crate::fixed::{lemma_one, one, rounded, Binary, TENTH, UNIT};
use crate::input::{edits, Key, KeyCode, TextInput, TextView};
use crate::nearest::{
    difference, lemma_exponent, lemma_near, lemma_scale, lemma_zero, nearest, nearest_signed, top,
};
use crate::numerals::{parse_numeral, numeral, Numeral, NumeralView};
use crate::settings::Settings;
use crate::text::{
    chars_of, dec, dec_of, digit, digit_char, digits, ends, ends_with, is_digit,
    lemma_nothing_replaced, lemma_trimmed, lemma_trimmed_already, lower, owned, padded_left,
    replace, replaced, same, text_of, to_lower, trim, trim_end_matches, trim_str, trimmed,
    without_suffixes,
};

verus! {

/// The durations that are offered, in seconds.
pub const DURATIONS: [u64; 4] = [60, 120, 180, 300];

pub const TEST_KINDS: [TestKind; 3] = [TestKind::Both, TestKind::Cpu, TestKind::Gpu];

/// API values for the cooling choices, in display order ("" = skip).
pub const COOLING: [&'static str; 7] = [
    "stock",
    "air",
    "aio",
    "custom_loop",
    "passive",
    "other",
    "",
];

/// Settings passed on the command line.
#[derive(Debug, Clone)]
pub struct LaunchOptions {
    pub api_url: String,
    pub no_submit: bool,
    pub demo: bool,
    pub test: Option<TestKind>,
    pub duration: Option<u64>,
    pub cooling_type: Option<String>,
    pub cooling_model: Option<String>,
    pub ambient_temp: Option<i64>,
    pub diagnostics: bool,
}

/// A row of the form.
#[derive(Debug, Clone, Copy, PartialEq, Eq, Structural)]
pub enum Field {
    Test,
    Gpu,
    Duration,
    CustomSecs,
    Cooling,
    CoolerModel,
    LaptopModel,
    Ambient,
}

impl Field {
    /// The row is edited as text.
    pub open spec fn text(self) -> bool {
        self == Field::CustomSecs || self == Field::CoolerModel || self == Field::LaptopModel
            || self == Field::Ambient
    }

    /// Whether the row is edited as text.
    pub fn is_text(self) -> (r: bool)
        ensures
            r == self.text(),
    {
        matches!(self, Field::CustomSecs | Field::CoolerModel | Field::LaptopModel | Field::Ambient)
    }
}

/// What is wrong with the form.
#[derive(Debug, Clone, Copy, PartialEq, Eq, Structural)]
pub enum FormError {
    Duration,
    Ambient,
}

/// The form.
#[derive(Debug, Clone)]
pub struct Form {
    /// Index into TEST_KINDS
    pub test: usize,
    /// Index into DURATIONS, or DURATIONS.len() for "custom"
    pub duration: usize,
    pub custom_secs: TextInput,
    /// Index into COOLING
    pub cooling: usize,
    pub cooler_model: TextInput,
    pub laptop_model: TextInput,
    pub ambient: TextInput,
    pub focus: Field,
    pub error: Option<FormError>,
}

/// The form's contents.
pub ghost struct FormView {
    pub test: int,
    pub duration: int,
    pub custom_secs: TextView,
    pub cooling: int,
    pub cooler_model: TextView,
    pub laptop_model: TextView,
    pub ambient: TextView,
    pub focus: Field,
    pub error: Option<FormError>,
}

impl View for Form {
    type V = FormView;

    open spec fn view(&self) -> FormView {
        FormView {
            test: self.test as int,
            duration: self.duration as int,
            custom_secs: self.custom_secs@,
            cooling: self.cooling as int,
            cooler_model: self.cooler_model@,
            laptop_model: self.laptop_model@,
            ambient: self.ambient@,
            focus: self.focus,
            error: self.error,
        }
    }
}

/// What a room temperature is: nothing typed, a temperature, or unusable.
pub ghost enum Ambient {
    Nothing,
    Celsius(int),
    Unusable,
}

/// A text without its last characters.
pub open spec fn without_last(s: Seq<char>, n: int) -> Seq<char> {
    s.take(s.len() - n)
}

/// Degrees Fahrenheit in degrees Celsius: `(f - 32.0) * 5.0 / 9.0`.
pub open spec fn fahrenheit(f: int) -> int {
    nearest_signed(nearest_signed(nearest_signed(f - 32 * one(), 1) * 5, 1), 9)
}

/// The tenths of a degree nearest to a temperature, halves away from zero.
pub open spec fn room_tenths(v: int) -> int {
    rounded(nearest_signed(v * 10, 1), one())
}

/// A room temperature: rounded to tenths it must lie between 0 °C and 60 °C.
pub open spec fn room(v: int) -> Ambient {
    let t = room_tenths(v);
    if 0 <= t <= 600 {
        Ambient::Celsius(t * TENTH)
    } else {
        Ambient::Unusable
    }
}

/// The room temperature that a number names, if it can be one.
pub open spec fn room_in(text: Seq<char>, in_fahrenheit: bool) -> Ambient {
    match numeral(text) {
        Some(NumeralView::Number(v)) => if in_fahrenheit {
            room(fahrenheit(v))
        } else {
            room(v)
        },
        _ => Ambient::Unusable,
    }
}

/// The room temperature that a text in lower case names: in degrees Celsius,
/// or Fahrenheit where it ends so.
pub open spec fn ambient_in(low: Seq<char>) -> Ambient {
    let text = replaced(low, ","@, "."@);
    let t = trimmed(without_suffixes(without_suffixes(text, "°c"@), "c"@));
    if text.len() == 0 {
        Ambient::Nothing
    } else if ends(t, "°f"@) {
        room_in(trimmed(without_last(t, 2)), true)
    } else if ends(t, "f"@) {
        room_in(trimmed(without_last(t, 1)), true)
    } else {
        room_in(t, false)
    }
}

/// The result of reading a room temperature.
pub open spec fn ambient_result(a: Ambient) -> Result<Option<int>, ()> {
    match a {
        Ambient::Nothing => Ok(None),
        Ambient::Celsius(c) => Ok(Some(c)),
        Ambient::Unusable => Err(()),
    }
}

/// A result in millionths.
pub open spec fn result_of(r: Result<Option<i64>, ()>) -> Result<Option<int>, ()> {
    match r {
        Ok(Some(v)) => Ok(Some(v as int)),
        Ok(None) => Ok(None),
        Err(_) => Err(()),
    }
}

/// A room temperature in a text, if there is a usable one.
pub open spec fn celsius_or_none(a: Ambient) -> Option<int> {
    match a {
        Ambient::Celsius(c) => Some(c),
        _ => None,
    }
}

/// Seconds that are typed in, if they are a duration that is allowed.
pub open spec fn custom_duration(text: Seq<char>) -> Option<int> {
    match whole(trimmed(text), u64::MAX as int) {
        Some(n) if 30 <= n <= 3600 => Some(n),
        _ => None,
    }
}

impl FormView {
    /// The choices exist, and the texts are sound.
    pub open spec fn wf(self) -> bool {
        &&& 0 <= self.test < 3
        &&& 0 <= self.duration <= 4
        &&& 0 <= self.cooling < 7
        &&& self.custom_secs.wf()
        &&& self.cooler_model.wf()
        &&& self.laptop_model.wf()
        &&& self.ambient.wf()
    }

    /// Which parts are tested.
    pub open spec fn chosen(self) -> TestKind {
        TEST_KINDS@[self.test]
    }

    /// The duration in seconds, if it is one that is allowed.
    pub open spec fn secs(self) -> Option<int> {
        if self.duration < 4 {
            Some(DURATIONS@[self.duration] as int)
        } else {
            custom_duration(self.custom_secs.value)
        }
    }

    /// The room temperature.
    pub open spec fn room(self) -> Ambient {
        ambient_in(lower(trimmed(self.ambient.value)))
    }

    /// The rows shown for a machine, in order.
    pub open spec fn rows(self, laptop: bool, gpu_count: int, details_only: bool) -> Seq<Field> {
        let choice = if gpu_count > 1 && self.chosen().has_gpu() {
            seq![Field::Test, Field::Gpu, Field::Duration]
        } else {
            seq![Field::Test, Field::Duration]
        };
        let test = if self.duration == 4 {
            choice.push(Field::CustomSecs)
        } else {
            choice
        };
        let cooling = if laptop {
            seq![Field::LaptopModel, Field::Ambient]
        } else {
            seq![Field::Cooling, Field::CoolerModel, Field::Ambient]
        };
        if details_only {
            cooling
        } else {
            test + cooling
        }
    }

    /// The cooling to submit: a laptop's is its own unless told otherwise.
    pub open spec fn cooling_for(self, laptop: bool, told: Option<Seq<char>>) -> Option<Seq<char>> {
        if laptop {
            if told is Some {
                told
            } else {
                Some("stock"@)
            }
        } else if self.cooling < 6 {
            Some(COOLING@[self.cooling]@)
        } else {
            None
        }
    }

    /// The text of a row.
    pub open spec fn text_at(self, field: Field) -> TextView {
        match field {
            Field::CustomSecs => self.custom_secs,
            Field::CoolerModel => self.cooler_model,
            Field::LaptopModel => self.laptop_model,
            _ => self.ambient,
        }
    }

    /// The form with another text in a row.
    pub open spec fn with_text(self, field: Field, t: TextView) -> FormView {
        match field {
            Field::CustomSecs => FormView { custom_secs: t, ..self },
            Field::CoolerModel => FormView { cooler_model: t, ..self },
            Field::LaptopModel => FormView { laptop_model: t, ..self },
            Field::Ambient => FormView { ambient: t, ..self },
            _ => self,
        }
    }

    /// The form with a text pasted into the row that has the focus.
    pub open spec fn pasted(self, s: Seq<char>) -> FormView {
        if self.focus.text() {
            self.with_text(self.focus, self.text_at(self.focus).pasted(s, s.len() as int))
        } else {
            self
        }
    }
}

/// Where the rows have the focus, or the first row.
pub open spec fn row_of(rows: Seq<Field>, f: Field, i: int) -> int
    decreases rows.len() - i,
{
    if i < 0 || i >= rows.len() {
        0
    } else if rows[i] == f {
        i
    } else {
        row_of(rows, f, i + 1)
    }
}

/// A character that a row takes: numbers only such as can form a value.
pub open spec fn takes(field: Field, c: char) -> bool {
    match field {
        Field::CustomSecs => digit(c),
        Field::Ambient => digit(c) || c == '.' || c == ',' || c == '-' || c == '°' || c == 'f' || c
            == 'F' || c == 'c' || c == 'C' || c == ' ',
        _ => true,
    }
}

/// How many choices a row has.
pub open spec fn choices(field: Field, gpu_count: int) -> int {
    match field {
        Field::Test => 3,
        Field::Gpu => gpu_count,
        Field::Duration => 5,
        Field::Cooling => 7,
        _ => 0,
    }
}

/// The choice before or after another, the last beside the first.
pub open spec fn turned(current: int, count: int, left: bool) -> int {
    if left {
        if current == 0 {
            count - 1
        } else {
            current - 1
        }
    } else if current + 1 == count {
        0
    } else {
        current + 1
    }
}

/// Turning one way and back leads to where one was.
pub proof fn lemma_turning_back(current: int, count: int, left: bool)
    requires
        0 <= current < count,
    ensures
        0 <= turned(current, count, left) < count,
        turned(turned(current, count, left), count, !left) == current,
{
}

/// The form and whether a key was consumed, after a key on its rows.
pub open spec fn edited(
    form: FormView,
    rows: Seq<Field>,
    key: Key,
    gpu_count: int,
) -> (FormView, bool) {
    let pos = row_of(rows, form.focus, 0);
    let focus = rows[pos];
    let f = FormView { focus, ..form };
    match key.code {
        KeyCode::Up | KeyCode::BackTab => (
            FormView {
                focus: rows[if pos > 0 {
                    pos - 1
                } else {
                    0
                }],
                ..f
            },
            true,
        ),
        KeyCode::Down | KeyCode::Tab => (
            FormView {
                focus: rows[if pos + 1 < rows.len() {
                    pos + 1
                } else {
                    rows.len() - 1
                }],
                ..f
            },
            true,
        ),
        code => if focus.text() {
            if code is Char && !takes(focus, code->Char_0) {
                (f, true)
            } else if edits(key) {
                (
                    FormView {
                        error: None,
                        ..f.with_text(focus, f.text_at(focus).handled(key))
                    },
                    true,
                )
            } else {
                (f, false)
            }
        } else if choices(focus, gpu_count) > 0 && (code == KeyCode::Left || code
            == KeyCode::Right) {
            let left = code == KeyCode::Left;
            let n = choices(focus, gpu_count);
            (
                match focus {
                    Field::Test => FormView { test: turned(f.test, n, left), error: None, ..f },
                    Field::Duration => FormView {
                        duration: turned(f.duration, n, left),
                        error: None,
                        ..f
                    },
                    Field::Cooling => FormView {
                        cooling: turned(f.cooling, n, left),
                        error: None,
                        ..f
                    },
                    _ => FormView { error: None, ..f },
                },
                true,
            )
        } else {
            (f, false)
        },
    }
}

/// A key leaves the form sound, and the focus on one of its rows.
pub proof fn lemma_edited(form: FormView, rows: Seq<Field>, key: Key, gpu_count: int)
    requires
        form.wf(),
        rows.len() > 0,
        gpu_count >= 0,
    ensures
        edited(form, rows, key, gpu_count).0.wf(),
        rows.contains(edited(form, rows, key, gpu_count).0.focus),
{
    lemma_row(rows, form.focus, 0);
    let pos = row_of(rows, form.focus, 0);
    assert(rows[pos] == rows[pos]);
    let f = FormView { focus: rows[pos], ..form };
    assert(f.wf());
    lemma_turning_back(form.test, 3, key.code == KeyCode::Left);
    lemma_turning_back(form.duration, 5, key.code == KeyCode::Left);
    lemma_turning_back(form.cooling, 7, key.code == KeyCode::Left);
    let r = edited(form, rows, key, gpu_count).0;
    let at = match key.code {
        KeyCode::Up | KeyCode::BackTab => if pos > 0 {
            pos - 1
        } else {
            0
        },
        KeyCode::Down | KeyCode::Tab => if pos + 1 < rows.len() {
            pos + 1
        } else {
            rows.len() - 1
        },
        _ => pos,
    };
    assert(rows[at] == r.focus);
}

proof fn lemma_row(rows: Seq<Field>, f: Field, i: int)
    requires
        rows.len() > 0,
        0 <= i,
    ensures
        0 <= row_of(rows, f, i) < rows.len(),
    decreases rows.len() - i,
{
    if i < rows.len() && rows[i] != f {
        lemma_row(rows, f, i + 1);
    }
}

// ---------------------------------------------------------------------------
// A form to begin with

/// The first of two that is there.
pub open spec fn or_else<T>(a: Option<T>, b: Option<T>) -> Option<T> {
    if a is Some {
        a
    } else {
        b
    }
}

/// The place of a duration among those offered; behind them for others.
pub open spec fn duration_place(secs: int) -> int {
    if secs == 60 {
        0
    } else if secs == 120 {
        1
    } else if secs == 180 {
        2
    } else if secs == 300 {
        3
    } else {
        4
    }
}

/// The place of a cooling among the choices; that of "skip" for others.
pub open spec fn cooling_place(value: Seq<char>, i: int) -> int
    decreases 7 - i,
{
    if i < 0 || i >= 6 || COOLING@[i]@ == value {
        i
    } else {
        cooling_place(value, i + 1)
    }
}

/// The place of a kind among the choices.
pub open spec fn kind_place(kind: TestKind) -> int {
    match kind {
        TestKind::Both => 0,
        TestKind::Cpu => 1,
        TestKind::Gpu => 2,
    }
}

/// A text, empty where there is none.
pub open spec fn or_nothing(s: Option<Seq<char>>) -> Seq<char> {
    match s {
        Some(x) => x,
        None => Seq::empty(),
    }
}

/// A form filled in from the command line, else from what is remembered.
pub open spec fn first_form(settings: Settings, opts: LaunchOptions) -> FormView {
    let remembered = match settings.test_type {
        Some(t) => TestKind::named(t@),
        None => None,
    };
    let kind = match or_else(opts.test, remembered) {
        Some(k) => k,
        None => TestKind::Both,
    };
    let secs = match or_else(opts.duration, settings.duration_secs) {
        Some(s) => s as int,
        None => 120,
    };
    let cooling = or_nothing(or_else(text_of(opts.cooling_type), text_of(settings.cooling_type)));
    let ambient = match or_else(opts.ambient_temp, settings.ambient_temp) {
        Some(a) => shown(a as int),
        None => Seq::empty(),
    };
    FormView {
        test: kind_place(kind),
        duration: duration_place(secs),
        custom_secs: TextView::of(
            if duration_place(secs) < 4 {
                Seq::empty()
            } else {
                dec(secs as nat)
            },
            4,
        ),
        cooling: cooling_place(cooling, 0),
        cooler_model: TextView::of(
            or_nothing(or_else(text_of(opts.cooling_model), text_of(settings.cooling_model))),
            120,
        ),
        laptop_model: TextView::of(or_nothing(text_of(settings.laptop_model)), 120),
        ambient: TextView::of(ambient, 8),
        focus: Field::Test,
        error: None,
    }
}

fn place_of_cooling(value: &str) -> (r: usize)
    ensures
        r == cooling_place(value@, 0),
        r < 7,
{
    let mut i: usize = 0;
    while i < 6 && !same(COOLING[i], value)
        invariant
            i <= 6,
            cooling_place(value@, 0) == cooling_place(value@, i as int),
        decreases 6 - i,
    {
        i = i + 1;
    }
    i
}

fn first_text<'a>(a: &'a Option<String>, b: &'a Option<String>) -> (r: &'a str)
    ensures
        r@ == or_nothing(or_else(text_of(*a), text_of(*b))),
{
    match a {
        Some(s) => s.as_str(),
        None => match b {
            Some(s) => s.as_str(),
            None => {
                proof {
                    reveal_strlit("");
                    assert(""@ =~= Seq::empty());
                }
                ""
            },
        },
    }
}

/// What is far from 32 °F is far from 0 °C.
proof fn lemma_far(w: int)
    requires
        w >= 31 * one(),
    ensures
        ({
            let c = nearest(nearest(nearest(w, 1) * 5, 1), 9);
            c >= 0 && 3 * nearest(c * 10, 1) >= w
        }),
{
    lemma_one();
    lemma_pow2_strictly_increases(7, 1074);
    lemma2_to64();
    lemma_near(w, 1);
    let a = nearest(w, 1);
    lemma_near(a * 5, 1);
    let b = nearest(a * 5, 1);
    lemma_near(b, 9);
    let c = nearest(b, 9);
    lemma_near(c * 10, 1);
}

/// Rounds a temperature to tenths of a degree.
fn room_of(b: &Binary) -> (r: Result<Option<i64>, ()>)
    requires
        b.wf(),
    ensures
        result_of(r) == ambient_result(room(b.exact())),
        r is Ok && r->Ok_0 is Some ==> 0 <= r->Ok_0->0 <= 60 * UNIT,
{
    let ghost s = b.size();
    let ghost o = one();
    proof {
        lemma_one();
        b.lemma_size();
        lemma_near(s * 10, 1);
        lemma_pow2_strictly_increases(7, 1074);
        lemma2_to64();
    }
    if !b.size_below(0x10_0000) {
        proof {
            let g = nearest(s * 10, 1);
            assert(g >= 601 * o);
            assert((2 * g + o) / (2 * o) >= 601) by (nonlinear_arith)
                requires
                    g >= 601 * o,
                    o > 0,
            ;
        }
        return Err(());
    }
    let c = b.scaled(10, 1);
    let n: u64 = c.to_whole();
    proof {
        let g = c.size();
        if g == 0 {
            assert(o / (2 * o) == 0) by (nonlinear_arith)
                requires
                    o > 0,
            ;
        }
        assert(g == nearest(s * 10, 1));
        assert(rounded(g, o) == n);
        assert(g == 0 ==> n == 0);
        if b.negative {
            assert(b.exact() * 10 == -(s * 10));
            if s * 10 == 0 {
                lemma_zero(1);
            }
            assert(nearest_signed(b.exact() * 10, 1) == -g);
            assert(rounded(-g, o) == -rounded(g, o));
        } else {
            assert(nearest_signed(b.exact() * 10, 1) == g);
        }
        assert(room_tenths(b.exact()) == if b.negative {
            -(n as int)
        } else {
            n as int
        });
        assert(TENTH == 100_000);
    }
    if (b.negative && n > 0) || n > 600 {
        Err(())
    } else {
        Ok(Some(n as i64 * TENTH))
    }
}

/// Turns degrees Fahrenheit into a room temperature.
fn room_of_fahrenheit(f: &Binary) -> (r: Result<Option<i64>, ()>)
    requires
        f.wf(),
    ensures
        result_of(r) == ambient_result(room(fahrenheit(f.exact()))),
        r is Ok && r->Ok_0 is Some ==> 0 <= r->Ok_0->0 <= 60 * UNIT,
{
    let ghost v = f.exact();
    let ghost o = one();
    proof {
        lemma_one();
        f.lemma_size();
    }
    if f.negative || f.size_below(1) {
        proof {
            let w = 32 * o - v;
            lemma_far(w);
            let c = nearest(nearest(nearest(w, 1) * 5, 1), 9);
            let g = nearest(c * 10, 1);
            lemma_below(w);
            lemma_zero(1);
            assert(c > 0);
            assert(fahrenheit(v) == -c);
            assert(room_tenths(-c) == rounded(-g, o));
            assert((2 * g + o) / (2 * o) >= 1) by (nonlinear_arith)
                requires
                    g >= o,
                    o > 0,
            ;
        }
        return Err(());
    }
    if !f.size_below(0x10_0000) {
        proof {
            let w = v - 32 * o;
            lemma_far(w);
            let c = nearest(nearest(nearest(w, 1) * 5, 1), 9);
            let g = nearest(c * 10, 1);
            lemma_above(w);
            assert((2 * g + o) / (2 * o) >= 601) by (nonlinear_arith)
                requires
                    g >= 601 * o,
                    o > 0,
            ;
        }
        return Err(());
    }
    let ice = Binary { negative: false, mantissa: 32, exponent: 0 };
    proof {
        lemma_exponent(*f);
        assert(ice.size() == 32 * o);
    }
    let a = difference(f, &ice);
    let b = a.scaled(5, 1);
    let c = b.scaled(1, 9);
    proof {
        let w = if v < 32 * o {
            32 * o - v
        } else {
            v - 32 * o
        };
        a.lemma_size();
        b.lemma_size();
        c.lemma_size();
        if v < 32 * o {
            lemma_below(w);
        } else {
            lemma_above(w);
        }
    }
    room_of(&c)
}

/// `fahrenheit` of what lies so far below 32 °F.
proof fn lemma_below(w: int)
    requires
        w > 0,
    ensures
        ({
            let c = nearest(nearest(nearest(w, 1) * 5, 1), 9);
            &&& c >= 0
            &&& fahrenheit(32 * one() - w) == -c
            &&& c > 0 ==> nearest_signed(-c * 10, 1) == -nearest(c * 10, 1)
        }),
{
    lemma_near(w, 1);
    let a = nearest(w, 1);
    lemma_near(a * 5, 1);
    let b = nearest(a * 5, 1);
    lemma_near(b, 9);
    assert(-a * 5 == -(a * 5));
    lemma_zero(1);
    lemma_zero(9);
    lemma_near(nearest(b, 9) * 10, 1);
}

/// `fahrenheit` of what lies so far above 32 °F.
proof fn lemma_above(w: int)
    requires
        w >= 0,
    ensures
        ({
            let c = nearest(nearest(nearest(w, 1) * 5, 1), 9);
            &&& c >= 0
            &&& fahrenheit(32 * one() + w) == c
            &&& nearest_signed(c * 10, 1) == nearest(c * 10, 1)
        }),
{
    lemma_near(w, 1);
    let a = nearest(w, 1);
    lemma_near(a * 5, 1);
    let b = nearest(a * 5, 1);
    lemma_near(b, 9);
}

fn read_room(text: &[char], in_fahrenheit: bool) -> (r: Result<Option<i64>, ()>)
    ensures
        result_of(r) == ambient_result(room_in(text@, in_fahrenheit)),
        r is Ok && r->Ok_0 is Some ==> 0 <= r->Ok_0->0 <= 60 * UNIT,
{
    match parse_numeral(text) {
        Some(Numeral::Finite(b)) => if in_fahrenheit {
            room_of_fahrenheit(&b)
        } else {
            room_of(&b)
        },
        _ => Err(()),
    }
}

/// Reads a room temperature from a text in lower case.
pub fn ambient_of(low: &str) -> (r: Result<Option<i64>, ()>)
    ensures
        result_of(r) == ambient_result(ambient_in(low@)),
        r is Ok && r->Ok_0 is Some ==> 0 <= r->Ok_0->0 <= 60 * UNIT,
{
    proof {
        reveal_strlit(",");
        reveal_strlit("f");
        reveal_strlit("°f");
    }
    let text = replace(low, ",", ".");
    if text.as_str().is_empty() {
        return Ok(None);
    }
    let a = trim_end_matches(text.as_str(), "°c");
    let b = trim_end_matches(a.as_str(), "c");
    let t = trim_str(b.as_str());
    let cs: Vec<char> = chars_of(t.as_str());
    if ends_with(t.as_str(), "°f") || ends_with(t.as_str(), "f") {
        let n: usize = if ends_with(t.as_str(), "°f") {
            cs.len() - 2
        } else {
            cs.len() - 1
        };
        let part = vstd::slice::slice_subrange(cs.as_slice(), 0, n);
        assert(part@ =~= cs@.take(n as int));
        read_room(trim(part), true)
    } else {
        read_room(cs.as_slice(), false)
    }
}

impl Form {
    /// A form filled in from the command line, else from what is remembered.
    pub fn new(settings: &Settings, opts: &LaunchOptions) -> (r: Form)
        ensures
            r@ == first_form(*settings, *opts),
            r@.wf(),
    {
        let kind = match opts.test {
            Some(k) => k,
            None => match &settings.test_type {
                Some(t) => match TestKind::parse(t.as_str()) {
                    Some(k) => k,
                    None => TestKind::Both,
                },
                None => TestKind::Both,
            },
        };
        let test: usize = match kind {
            TestKind::Both => 0,
            TestKind::Cpu => 1,
            TestKind::Gpu => 2,
        };
        let secs: u64 = match opts.duration {
            Some(s) => s,
            None => match settings.duration_secs {
                Some(s) => s,
                None => 120,
            },
        };
        let duration: usize = if secs == 60 {
            0
        } else if secs == 120 {
            1
        } else if secs == 180 {
            2
        } else if secs == 300 {
            3
        } else {
            4
        };
        let custom = if duration < 4 {
            String::new()
        } else {
            dec_of(secs)
        };
        let mut ambient = String::new();
        match opts.ambient_temp {
            Some(a) => {
                push_shown(&mut ambient, a);
                assert(ambient@ =~= shown(a as int));
            },
            None => match settings.ambient_temp {
                Some(a) => {
                    push_shown(&mut ambient, a);
                    assert(ambient@ =~= shown(a as int));
                },
                None => {},
            },
        }
        let cooling: usize = place_of_cooling(
            first_text(&opts.cooling_type, &settings.cooling_type),
        );
        let none: Option<String> = None;
        Form {
            test,
            duration,
            custom_secs: TextInput::new(custom.as_str(), 4),
            cooling,
            cooler_model: TextInput::new(
                first_text(&opts.cooling_model, &settings.cooling_model),
                120,
            ),
            laptop_model: TextInput::new(first_text(&settings.laptop_model, &none), 120),
            ambient: TextInput::new(ambient.as_str(), 8),
            focus: Field::Test,
            error: None,
        }
    }

    /// Which parts are tested.
    pub fn kind(&self) -> (r: TestKind)
        requires
            self@.wf(),
        ensures
            r == self@.chosen(),
    {
        TEST_KINDS[self.test]
    }

    /// Fields shown for this machine, in order.
    pub fn fields(&self, laptop: bool, gpu_count: usize, details_only: bool) -> (r: Vec<Field>)
        requires
            self@.wf(),
        ensures
            r@ == self@.rows(laptop, gpu_count as int, details_only),
            r@.len() > 0,
    {
        let mut fields: Vec<Field> = Vec::new();
        if !details_only {
            fields.push(Field::Test);
            if gpu_count > 1 && self.kind().gpu() {
                fields.push(Field::Gpu);
            }
            fields.push(Field::Duration);
            if self.duration == 4 {
                fields.push(Field::CustomSecs);
            }
        }
        if laptop {
            fields.push(Field::LaptopModel);
        } else {
            fields.push(Field::Cooling);
            fields.push(Field::CoolerModel);
        }
        fields.push(Field::Ambient);
        assert(fields@ =~= self@.rows(laptop, gpu_count as int, details_only));
        fields
    }

    /// The duration in seconds, if it is one that is allowed.
    pub fn duration_secs(&self) -> (r: Option<u64>)
        requires
            self@.wf(),
        ensures
            (match r {
                Some(n) => Some(n as int),
                None => None,
            }) == self@.secs(),
            r is Some ==> 30 <= r->0 <= 3600,
    {
        if self.duration < 4 {
            assert(DURATIONS@[0] == 60 && DURATIONS@[1] == 120 && DURATIONS@[2] == 180
                && DURATIONS@[3] == 300);
            return Some(DURATIONS[self.duration]);
        }
        match parse_whole(
            trim(chars_of(self.custom_secs.value.as_str()).as_slice()),
            0xffff_ffff_ffff_ffff,
        ) {
            Some(n) => if 30 <= n && n <= 3600 {
                Some(n)
            } else {
                None
            },
            None => None,
        }
    }

    /// Room temperature in °C. `Err` if something was typed but can't be used.
    pub fn ambient_celsius(&self) -> (r: Result<Option<i64>, ()>)
        ensures
            result_of(r) == ambient_result(self@.room()),
            r is Ok && r->Ok_0 is Some ==> 0 <= r->Ok_0->0 <= 60 * UNIT,
    {
        let low = to_lower(trim_str(self.ambient.value.as_str()).as_str());
        ambient_of(low.as_str())
    }

    /// The room temperature, if a usable one was typed.
    pub fn ambient_or_none(&self) -> (r: Option<i64>)
        ensures
            (match r {
                Some(v) => Some(v as int),
                None => None,
            }) == celsius_or_none(self@.room()),
    {
        match self.ambient_celsius() {
            Ok(v) => v,
            Err(_) => None,
        }
    }

    /// The cooling to submit.
    pub fn cooling_type(&self, laptop: bool, opts: &LaunchOptions) -> (r: Option<String>)
        requires
            self@.wf(),
        ensures
            text_of(r) == self@.cooling_for(laptop, text_of(opts.cooling_type)),
    {
        if laptop {
            return match &opts.cooling_type {
                Some(c) => Some(c.clone()),
                None => Some(owned("stock")),
            };
        }
        if self.cooling < 6 {
            Some(owned(COOLING[self.cooling]))
        } else {
            None
        }
    }

    fn handle_text(&mut self, field: Field, key: &Key) -> (r: bool)
        requires
            old(self)@.wf(),
            field.text(),
        ensures
            r == edits(*key),
            final(self)@ == old(self)@.with_text(field, old(self)@.text_at(field).handled(*key)),
            final(self)@.wf(),
    {
        match field {
            Field::CustomSecs => self.custom_secs.handle(key),
            Field::CoolerModel => self.cooler_model.handle(key),
            Field::LaptopModel => self.laptop_model.handle(key),
            _ => self.ambient.handle(key),
        }
    }

    /// Pastes a text into the row that has the focus.
    pub fn paste(&mut self, s: &str)
        requires
            old(self)@.wf(),
        ensures
            final(self)@ == old(self)@.pasted(s@),
            final(self)@.wf(),
    {
        match self.focus {
            Field::CustomSecs => self.custom_secs.insert_str(s),
            Field::CoolerModel => self.cooler_model.insert_str(s),
            Field::LaptopModel => self.laptop_model.insert_str(s),
            Field::Ambient => self.ambient.insert_str(s),
            _ => {},
        }
    }

    /// A form with the same contents.
    pub fn duplicate(&self) -> (r: Form)
        ensures
            r@ == self@,
    {
        Form {
            test: self.test,
            duration: self.duration,
            custom_secs: self.custom_secs.duplicate(),
            cooling: self.cooling,
            cooler_model: self.cooler_model.duplicate(),
            laptop_model: self.laptop_model.duplicate(),
            ambient: self.ambient.duplicate(),
            focus: self.focus,
            error: self.error,
        }
    }
}

fn find_row(rows: &Vec<Field>, f: Field) -> (r: usize)
    requires
        rows.len() > 0,
    ensures
        r == row_of(rows@, f, 0),
        r < rows.len(),
{
    let mut i: usize = 0;
    while i < rows.len()
        invariant
            i <= rows.len(),
            rows.len() > 0,
            row_of(rows@, f, 0) == row_of(rows@, f, i as int),
        decreases rows.len() - i,
    {
        if rows[i] == f {
            return i;
        }
        i = i + 1;
    }
    0
}

fn is_taken(field: Field, c: char) -> (r: bool)
    ensures
        r == takes(field, c),
{
    match field {
        Field::CustomSecs => is_digit(c),
        Field::Ambient => is_digit(c) || c == '.' || c == ',' || c == '-' || c == '°' || c == 'f'
            || c == 'F' || c == 'c' || c == 'C' || c == ' ',
        _ => true,
    }
}

/// The choice before or after another, the last beside the first.
pub fn turn(current: usize, count: usize, left: bool) -> (r: usize)
    requires
        current < count,
    ensures
        r == turned(current as int, count as int, left),
        r < count,
{
    if left {
        if current == 0 {
            count - 1
        } else {
            current - 1
        }
    } else if current + 1 == count {
        0
    } else {
        current + 1
    }
}

/// Keyboard editing shared by the options screen and the edit dialog.
/// Returns true if the key was consumed.
pub fn edit_form(form: &mut Form, rows: &Vec<Field>, key: &Key, gpu_count: usize) -> (r: bool)
    requires
        old(form)@.wf(),
        rows.len() > 0,
    ensures
        (final(form)@, r) == edited(old(form)@, rows@, *key, gpu_count as int),
        final(form)@.wf(),
{
    proof {
        lemma_edited(form@, rows@, *key, gpu_count as int);
    }
    let pos: usize = find_row(rows, form.focus);
    let focus: Field = rows[pos];
    form.focus = focus;
    match key.code {
        KeyCode::Up | KeyCode::BackTab => {
            form.focus = rows[if pos > 0 {
                pos - 1
            } else {
                0
            }];
            return true;
        },
        KeyCode::Down | KeyCode::Tab => {
            form.focus = rows[if pos + 1 < rows.len() {
                pos + 1
            } else {
                rows.len() - 1
            }];
            return true;
        },
        _ => {},
    }
    if focus.is_text() {
        match key.code {
            KeyCode::Char(c) => {
                if !is_taken(focus, c) {
                    return true;
                }
            },
            _ => {},
        }
        if form.handle_text(focus, key) {
            form.error = None;
            return true;
        }
        return false;
    }
    let left = key.code == KeyCode::Left;
    if !left && key.code != KeyCode::Right {
        return false;
    }
    match focus {
        Field::Test => {
            form.test = turn(form.test, 3, left);
        },
        Field::Duration => {
            form.duration = turn(form.duration, 5, left);
        },
        Field::Cooling => {
            form.cooling = turn(form.cooling, 7, left);
        },
        _ => {
            if gpu_count == 0 {
                return false;
            }
        },
    }
    form.error = None;
    true
}

// ---------------------------------------------------------------------------
// What is remembered comes back

/// A duration that is remembered is the one that comes back.
pub proof fn lemma_duration_comes_back(n: int)
    requires
        30 <= n <= 3600,
    ensures
        ({
            let place = duration_place(n);
            let typed = TextView::of(dec(n as nat), 4).value;
            if place < 4 {
                DURATIONS@[place] == n
            } else {
                custom_duration(typed) == Some(n)
            }
        }),
{
    let s = dec(n as nat);
    lemma_dec(n as nat);
    reveal_with_fuel(digits, 5);
    assert(s.len() <= 4);
    assert(digit(s[0]) && digit(s[s.len() - 1]));
    lemma_trimmed_already(s);
    assert(TextView::of(s, 4).value == s);
}

/// A cooling that is remembered is the one that comes back.
pub proof fn lemma_cooling_comes_back(i: int)
    requires
        0 <= i < 7,
    ensures
        cooling_place(
            if i < 6 {
                COOLING@[i]@
            } else {
                Seq::empty()
            },
            0,
        ) == i,
{
    reveal_strlit("stock");
    reveal_strlit("air");
    reveal_strlit("aio");
    reveal_strlit("custom_loop");
    reveal_strlit("passive");
    reveal_strlit("other");
    reveal_with_fuel(cooling_place, 8);
    assert("stock"@.len() == 5 && "stock"@[0] == 's');
    assert("air"@.len() == 3 && "air"@[2] == 'r');
    assert("aio"@.len() == 3 && "aio"@[2] == 'o');
    assert("custom_loop"@.len() == 11);
    assert("passive"@.len() == 7);
    assert("other"@.len() == 5 && "other"@[0] == 'o');
}

/// What was typed in a field comes back without the white space around it.
pub proof fn lemma_entry_comes_back(t: TextView, max: int)
    requires
        t.value.len() <= max,
    ensures
        TextView::of(or_nothing(t.entry()), max).entry() == t.entry(),
{
    lemma_trimmed(t.value);
    assert(trimmed(Seq::<char>::empty()) =~= Seq::<char>::empty());
}

/// A text of digits and points is left alone until its number is read.
proof fn lemma_bare_number(s: Seq<char>)
    requires
        s.len() > 0,
        digit(s[0]),
        digit(s.last()),
        forall|i: int| 0 <= i < s.len() ==> digit(#[trigger] s[i]) || s[i] == '.',
    ensures
        ambient_in(lower(trimmed(s))) == room_in(s, false),
{
    reveal_strlit(",");
    reveal_strlit("°c");
    reveal_strlit("c");
    reveal_strlit("°f");
    reveal_strlit("f");
    lemma_trimmed_already(s);
    assert(lower(s) =~= s);
    lemma_nothing_replaced(s, ","@, "."@, 0);
    assert(s.skip(0) =~= s);
    assert(!ends(s, "°c"@)) by {
        if ends(s, "°c"@) {
            let n = "°c"@.len();
            assert(s.subrange(s.len() - n, s.len() as int)[n - 1] == s.last());
        }
    }
    assert(!ends(s, "c"@)) by {
        if ends(s, "c"@) {
            assert(s.subrange(s.len() - 1, s.len() as int)[0] == s.last());
        }
    }
    assert(!ends(s, "°f"@)) by {
        if ends(s, "°f"@) {
            let n = "°f"@.len();
            assert(s.subrange(s.len() - n, s.len() as int)[n - 1] == s.last());
        }
    }
    assert(!ends(s, "f"@)) by {
        if ends(s, "f"@) {
            assert(s.subrange(s.len() - 1, s.len() as int)[0] == s.last());
        }
    }
}

proof fn lemma_tenths_of_a_degree(d: nat)
    requires
        0 < d < 10,
    ensures
        without_zeros(d * 100_000) == d,
        zeros_behind(d * 100_000) == 5,
        dec(d) == seq![digit_char(d as int)],
{
    reveal_with_fuel(without_zeros, 7);
    reveal_with_fuel(zeros_behind, 7);
}

proof fn lemma_two_digits(q: nat)
    requires
        q <= 60,
    ensures
        dec(q).len() <= 2,
{
    reveal_with_fuel(digits, 3);
}

/// A room temperature is written in at most four digits and points.
proof fn lemma_room_text(c: int)
    requires
        0 <= c <= 60 * UNIT,
        c % (TENTH as int) == 0,
    ensures
        ({
            let s = shown(c);
            &&& 0 < s.len() <= 4
            &&& digit(s[0]) && digit(s.last())
            &&& forall|i: int| 0 <= i < s.len() ==> digit(#[trigger] s[i]) || s[i] == '.'
        }),
{
    let s = shown(c);
    let q = (c / 1_000_000) as nat;
    let f = (c % 1_000_000) as nat;
    let a = dec(q);
    lemma_dec(q);
    lemma_two_digits(q);
    assert(digit(a[0]));
    if f == 0 {
        assert(s =~= a);
    } else {
        let d = f / 100_000;
        assert(f == d * 100_000 && 0 < d < 10);
        lemma_tenths_of_a_degree(d);
        assert(padded_left(dec(d), '0', 1) == dec(d));
        assert(s =~= a + seq!['.'] + dec(d));
        assert(digit(dec(d)[0]));
        assert(s[0] == a[0]);
        assert(s.last() == dec(d)[0]);
        assert forall|i: int| 0 <= i < s.len() implies digit(#[trigger] s[i]) || s[i] == '.' by {
            if i < a.len() {
                assert(s[i] == a[i]);
            }
        }
    }
}

/// So many tenths of a degree are read as such.
proof fn lemma_room_tenths(t: int)
    requires
        0 <= t <= 600,
    ensures
        room_tenths(nearest(t * one(), 10)) == t,
        0 <= nearest(t * one(), 10) < top(),
{
    let o = one();
    let n = t * o;
    lemma_one();
    lemma2_to64();
    lemma2_to64_rest();
    lemma_pow2_strictly_increases(63, 1074);
    lemma_pow2_adds(1074, 10);
    lemma_pow2_strictly_increases(1084, 2098);
    assert(n >= 0 && n <= 600 * o && (t >= 1 ==> n >= o)) by (nonlinear_arith)
        requires
            n == t * o,
            0 <= t <= 600,
            o > 0,
    ;
    lemma_near(n, 10);
    let v = nearest(n, 10);
    lemma_near(v * 10, 1);
    let c = nearest(v * 10, 1);
    if t == 0 {
        lemma_zero(10);
        lemma_zero(1);
        assert(o / (2 * o) == 0) by (nonlinear_arith)
            requires
                o > 0,
        ;
    } else {
        assert(2 * n - o < 2 * c && 2 * c < 2 * n + o);
        assert((2 * c + o) / (2 * o) == t) by (nonlinear_arith)
            requires
                n == t * o,
                2 * n - o < 2 * c,
                2 * c < 2 * n + o,
                o > 0,
        ;
    }
}

/// A room temperature that is remembered is the one that comes back.
pub proof fn lemma_room_comes_back(c: int)
    requires
        0 <= c <= 60 * UNIT,
        c % (TENTH as int) == 0,
    ensures
        ambient_in(lower(trimmed(TextView::of(shown(c), 8).value))) == Ambient::Celsius(c),
{
    let s = shown(c);
    let o = one();
    let t = c / 100_000;
    assert(c == t * 100_000);
    lemma_shown_is_read_back(c);
    lemma_room_text(c);
    assert(TextView::of(s, 8).value == s);
    lemma_bare_number(s);
    let d = decimal(s)->0;
    let n = number(d.digits) as int;
    let k = (6 + d.shift) as nat;
    let p = pow(10, k);
    lemma_one();
    lemma_pow_positive(10, k);
    lemma_pow_positive(10, (-d.shift) as nat);
    lemma_pow_adds(10, k, (-d.shift) as nat);
    assert(pow(10, 6) == 1_000_000) by {
        reveal_with_fuel(pow, 7);
    }
    assert(n * o >= 0) by (nonlinear_arith)
        requires
            n >= 0,
            o > 0,
    ;
    lemma_scale(n * o, pow(10, (-d.shift) as nat), p);
    assert((n * o) * p == c * o) by (nonlinear_arith)
        requires
            n * p == c,
    ;
    assert(pow(10, (-d.shift) as nat) * p == 1_000_000) by (nonlinear_arith)
        requires
            p * pow(10, (-d.shift) as nat) == 1_000_000,
    ;
    assert(t * o >= 0) by (nonlinear_arith)
        requires
            t >= 0,
            o > 0,
    ;
    lemma_scale(t * o, 10, 100_000);
    assert((t * o) * 100_000 == c * o) by (nonlinear_arith)
        requires
            c == t * 100_000,
    ;
    if d.shift == 0 {
        assert(pow(10, 0) == 1) by {
            lemma_pow0(10);
        }
        assert(n * o * 1 == n * o);
    }
    assert(d.size() == nearest(t * o, 10));
    lemma_room_tenths(t);
}

/// A number below 2 to the 53rd is small against a degree.
proof fn lemma_degree_is_large()
    ensures
        one() >= 1_000_000_000_000_000_000 * 1_000_000_000_000,
{
    assert(pow2(128) >= 1_000_000_000_000_000_000 * 1_000_000_000_000) by {
        lemma_pow2_adds(64, 64);
        lemma2_to64();
    }
    lemma_pow2_strictly_increases(128, 1074);
}

/// Degrees Fahrenheit become five ninths of what they are above 32, up to less
/// than a millionth of a degree.
pub proof fn lemma_fahrenheit_is_converted(f: int)
    requires
        32 * one() <= f <= 1000 * one(),
    ensures
        -one() <= 1_000_000 * (9 * fahrenheit(f) - 5 * (f - 32 * one())) <= one(),
        fahrenheit(f) >= 0,
{
    lemma_one();
    lemma_degree_is_large();
    let w = f - 32 * one();
    lemma_above(w);
    lemma_near(w, 1);
    let a = nearest(w, 1);
    lemma_near(a * 5, 1);
    let b = nearest(a * 5, 1);
    lemma_near(b, 9);
    let c = nearest(b, 9);
    assert(f == 32 * one() + w);
}

/// A room's temperature is rounded to a tenth of a degree Celsius, and can be
/// used from 0 °C to 60 °C.
pub proof fn lemma_room_is_rounded(v: int)
    requires
        0 <= v <= 1000 * one(),
    ensures
        v <= 60 * one() ==> room(v) is Celsius,
        v > 61 * one() ==> room(v) is Unusable,
        room(v) is Celsius ==> {
            let c = room(v)->Celsius_0;
            &&& 0 <= c <= 60_000_000 && c % 100_000 == 0
            &&& -50_001 * one() <= c * one() - 1_000_000 * v <= 50_001 * one()
        },
{
    lemma_one();
    lemma_degree_is_large();
    let o = one();
    lemma_near(v * 10, 1);
    let n = nearest(v * 10, 1);
    let t = room_tenths(v);
    assert(t == (2 * n + o) / (2 * o));
    assert(2 * n - o < t * o * 2 <= 2 * n + o) by (nonlinear_arith)
        requires
            t == (2 * n + o) / (2 * o),
            o > 0,
            n >= 0,
    ;
    let e = t * o;
    assert(1_000_000 * (n - 10 * v) <= o && 1_000_000 * (10 * v - n) <= o);
    if v <= 60 * o {
        assert(t <= 600) by (nonlinear_arith)
            requires
                2 * e <= 2 * n + o,
                e == t * o,
                1_000_000 * (n - 10 * v) <= o,
                v <= 60 * o,
                o > 0,
        ;
    }
    assert(t >= 0) by (nonlinear_arith)
        requires
            t == (2 * n + o) / (2 * o),
            o > 0,
            n >= 0,
    ;
    if v > 61 * o {
        assert(t > 600) by (nonlinear_arith)
            requires
                2 * n - o < 2 * e,
                e == t * o,
                1_000_000 * (10 * v - n) <= o,
                v > 61 * o,
                o > 0,
        ;
    }
    assert((t * 100_000) * o == 100_000 * e) by (nonlinear_arith)
        requires
            e == t * o,
    ;
}

/// Nothing but a room's temperature between 0 °C and 60 °C is taken from what
/// was typed.
pub proof fn lemma_room_range(low: Seq<char>)
    ensures
        ambient_in(low) is Celsius ==> 0 <= ambient_in(low)->Celsius_0 <= 60_000_000
            && ambient_in(low)->Celsius_0 % 100_000 == 0,
{
}

proof fn lemma_last(s: Seq<char>, suffix: Seq<char>)
    requires
        suffix.len() > 0,
        s.len() > 0,
    ensures
        ends(s, suffix) ==> s.last() == suffix.last(),
{
    if ends(s, suffix) {
        let n = suffix.len();
        assert(s.subrange(s.len() - n, s.len() as int)[n - 1] == s.last());
    }
}

/// No comma stands in a number with a unit behind it.
proof fn lemma_no_comma(s: Seq<char>)
    requires
        forall|i: int| 0 <= i < s.len() ==> #[trigger] s[i] != ',',
    ensures
        replaced(s, ","@, "."@) == s,
{
    reveal_strlit(",");
    lemma_nothing_replaced(s, ","@, "."@, 0);
    assert(s.skip(0) =~= s);
}

/// A suffix that does not end like the text is not cut.
proof fn lemma_not_cut(s: Seq<char>, suffix: Seq<char>)
    requires
        suffix.len() > 0,
        s.len() > 0,
        s.last() != suffix.last(),
    ensures
        !ends(s, suffix),
        without_suffixes(s, suffix) == s,
{
    lemma_last(s, suffix);
}

/// A suffix is cut once from a text that does not end in it.
proof fn lemma_cut_once(s: Seq<char>, suffix: Seq<char>)
    requires
        suffix.len() > 0,
        !ends(s, suffix),
    ensures
        ends(s + suffix, suffix),
        without_suffixes(s + suffix, suffix) == s,
{
    let t = s + suffix;
    assert(t.subrange(t.len() - suffix.len(), t.len() as int) =~= suffix);
    assert(t.take(t.len() - suffix.len()) =~= s);
    reveal_with_fuel(without_suffixes, 2);
}

/// A number is in Celsius, with and without a unit and with and without a degree
/// sign.
pub proof fn lemma_celsius_units(s: Seq<char>)
    requires
        s.len() > 0,
        digit(s[0]),
        digit(s.last()),
        forall|i: int| 0 <= i < s.len() ==> digit(#[trigger] s[i]) || s[i] == '.',
    ensures
        ambient_in(s) == room_in(s, false),
        ambient_in(s + "c"@) == room_in(s, false),
        ambient_in(s + "°c"@) == room_in(s, false),
{
    reveal_strlit("°c");
    reveal_strlit("c");
    reveal_strlit("°f");
    reveal_strlit("f");
    lemma_trimmed_already(s);
    lemma_no_comma(s);
    lemma_no_comma(s + "c"@);
    lemma_no_comma(s + "°c"@);
    lemma_not_cut(s, "°c"@);
    lemma_not_cut(s, "c"@);
    lemma_not_cut(s, "°f"@);
    lemma_not_cut(s, "f"@);
    lemma_cut_once(s, "c"@);
    lemma_cut_once(s, "°c"@);
    let c = s + "c"@;
    assert(!ends(c, "°c"@)) by {
        if ends(c, "°c"@) {
            assert(c.subrange(c.len() - 2, c.len() as int)[0] == c[c.len() - 2]);
            assert(c[c.len() - 2] == s.last());
        }
    }
}

/// A number with an `f` behind it is in Fahrenheit, with and without a degree
/// sign.
pub proof fn lemma_fahrenheit_units(s: Seq<char>)
    requires
        s.len() > 0,
        digit(s[0]),
        digit(s.last()),
        forall|i: int| 0 <= i < s.len() ==> digit(#[trigger] s[i]) || s[i] == '.',
    ensures
        ambient_in(s + "f"@) == room_in(s, true),
        ambient_in(s + "°f"@) == room_in(s, true),
{
    reveal_strlit("°c");
    reveal_strlit("c");
    reveal_strlit("°f");
    reveal_strlit("f");
    let f = s + "f"@;
    let df = s + "°f"@;
    lemma_trimmed_already(s);
    lemma_trimmed_already(f);
    lemma_trimmed_already(df);
    lemma_no_comma(f);
    lemma_no_comma(df);
    lemma_not_cut(f, "°c"@);
    lemma_not_cut(f, "c"@);
    lemma_not_cut(df, "°c"@);
    lemma_not_cut(df, "c"@);
    lemma_not_cut(s, "f"@);
    lemma_not_cut(s, "°f"@);
    lemma_cut_once(s, "f"@);
    lemma_cut_once(s, "°f"@);
    assert(!ends(f, "°f"@)) by {
        if ends(f, "°f"@) {
            assert(f.subrange(f.len() - 2, f.len() as int)[0] == f[f.len() - 2]);
            assert(f[f.len() - 2] == s.last());
        }
    }
    assert(without_last(f, 1) =~= s);
    assert(without_last(df, 2) =~= s);
}

/// A test takes from 30 seconds to an hour: the chosen duration, or the typed one
/// where it is within that.
pub proof fn lemma_duration_range(f: FormView)
    requires
        f.wf(),
    ensures
        f.secs() is Some ==> 30 <= f.secs()->0 <= 3600,
        f.duration == 0 ==> f.secs() == Some(60int),
        f.duration == 1 ==> f.secs() == Some(120int),
        f.duration == 2 ==> f.secs() == Some(180int),
        f.duration == 3 ==> f.secs() == Some(300int),
        f.duration == 4 ==> (f.secs() is Some <==> whole(
            trimmed(f.custom_secs.value),
            u64::MAX as int,
        ) is Some && 30 <= whole(trimmed(f.custom_secs.value), u64::MAX as int)->0 <= 3600),
{
}

/// Which rows are shown: the choice of a card only where there are several and
/// one is tested, the typed duration only where it is chosen, a laptop's model
/// only of a laptop and a cooler only of others, and each row once.
pub proof fn lemma_rows_shown(f: FormView, laptop: bool, gpu_count: int, details_only: bool)
    requires
        f.wf(),
    ensures
        ({
            let rows = f.rows(laptop, gpu_count, details_only);
            let all = !details_only;
            &&& rows.contains(Field::Test) <==> all
            &&& rows.contains(Field::Duration) <==> all
            &&& rows.contains(Field::Gpu) <==> all && gpu_count > 1 && f.test != 1
            &&& rows.contains(Field::CustomSecs) <==> all && f.duration == 4
            &&& rows.contains(Field::LaptopModel) <==> laptop
            &&& rows.contains(Field::Cooling) <==> !laptop
            &&& rows.contains(Field::CoolerModel) <==> !laptop
            &&& rows.contains(Field::Ambient)
            &&& forall|i: int, j: int| 0 <= i < j < rows.len() ==> #[trigger] rows[i] != #[trigger] rows[j]
        }),
{
    let rows = f.rows(laptop, gpu_count, details_only);
    let choice = if gpu_count > 1 && f.chosen().has_gpu() {
        seq![Field::Test, Field::Gpu, Field::Duration]
    } else {
        seq![Field::Test, Field::Duration]
    };
    let n: int = if details_only {
        0
    } else if f.duration == 4 {
        (choice.len() + 1) as int
    } else {
        choice.len() as int
    };
    if !details_only {
        assert(rows[0] == Field::Test);
        assert(rows[1] == choice[1] && rows[choice.len() - 1] == Field::Duration);
        if f.duration == 4 {
            assert(rows[choice.len() as int] == Field::CustomSecs);
        }
    }
    assert(rows[rows.len() - 1] == Field::Ambient);
    assert(laptop ==> rows[n] == Field::LaptopModel);
    assert(!laptop ==> rows[n] == Field::Cooling && rows[n + 1] == Field::CoolerModel);
}

/// A key changes at most what stands in the row that has the focus.
pub proof fn lemma_only_focus_is_edited(
    form: FormView,
    rows: Seq<Field>,
    key: Key,
    gpu_count: int,
)
    requires
        form.wf(),
        rows.contains(form.focus),
        gpu_count >= 0,
    ensures
        ({
            let r = edited(form, rows, key, gpu_count).0;
            let at = form.focus;
            &&& r.test != form.test ==> at == Field::Test
            &&& r.duration != form.duration ==> at == Field::Duration
            &&& r.cooling != form.cooling ==> at == Field::Cooling
            &&& r.custom_secs != form.custom_secs ==> at == Field::CustomSecs
            &&& r.cooler_model != form.cooler_model ==> at == Field::CoolerModel
            &&& r.laptop_model != form.laptop_model ==> at == Field::LaptopModel
            &&& r.ambient != form.ambient ==> at == Field::Ambient
            &&& r.focus != form.focus ==> r == (FormView { focus: r.focus, ..form })
            &&& !edited(form, rows, key, gpu_count).1 ==> r == form
        }),
{
    lemma_row_found(rows, form.focus, 0);
    assert(FormView { focus: form.focus, ..form } == form);
}

proof fn lemma_row_found(rows: Seq<Field>, f: Field, i: int)
    requires
        0 <= i,
        exists|j: int| i <= j < rows.len() && #[trigger] rows[j] == f,
    ensures
        i <= row_of(rows, f, i) < rows.len(),
        rows[row_of(rows, f, i)] == f,
    decreases rows.len() - i,
{
    let j = choose|j: int| i <= j < rows.len() && #[trigger] rows[j] == f;
    if rows[i] != f {
        assert(j > i);
        lemma_row_found(rows, f, i + 1);
    }
}

/// What the form begins with: what the command line says, else what is
/// remembered, else both parts for two minutes.
pub proof fn lemma_first_form(settings: Settings, opts: LaunchOptions)
    ensures
        ({
            let f = first_form(settings, opts);
            let remembered = if settings.test_type is Some {
                TestKind::named(settings.test_type->0@)
            } else {
                None
            };
            &&& opts.test is Some ==> f.chosen() == opts.test->0
            &&& opts.test is None && remembered is Some ==> f.chosen() == remembered->0
            &&& opts.test is None && remembered is None ==> f.chosen() == TestKind::Both
            &&& opts.duration is None && settings.duration_secs is None ==> f.secs() == Some(120int)
            &&& opts.duration is Some && (opts.duration->0 == 60 || opts.duration->0 == 120
                || opts.duration->0 == 180 || opts.duration->0 == 300) ==> f.secs() == Some(
                opts.duration->0 as int,
            )
            &&& opts.duration is None && settings.duration_secs is Some && (
            settings.duration_secs->0 == 60 || settings.duration_secs->0 == 120
                || settings.duration_secs->0 == 180 || settings.duration_secs->0 == 300)
                ==> f.secs() == Some(settings.duration_secs->0 as int)
        }),
{
}

} // verus!
