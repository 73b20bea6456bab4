//! Remembered answers from the previous run, so repeat tests (after a new
//! cooler, a repaste, a room change…) take a couple of key presses.
use vstd::prelude::*;

use crate::text::{same, text_of};

verus! {

/// What is remembered.
#[derive(Debug, Clone)]
pub struct Settings {
    pub lang: Option<String>,
    pub test_type: Option<String>,
    pub duration_secs: Option<u64>,
    pub gpu_name: Option<String>,
    pub cooling_type: Option<String>,
    pub cooling_model: Option<String>,
    pub laptop_model: Option<String>,
    pub ambient_temp: Option<i64>,
    /// The last result this machine submitted: the "before" of a re-test.
    pub last_result: Option<LastResult>,
}

impl Default for Settings {
    fn default() -> (r: Settings)
        ensures
            r == Settings::blank(),
    {
        Settings {
            lang: None,
            test_type: None,
            duration_secs: None,
            gpu_name: None,
            cooling_type: None,
            cooling_model: None,
            laptop_model: None,
            ambient_temp: None,
            last_result: None,
        }
    }
}

impl Settings {
    /// Nothing is remembered.
    pub open spec fn blank() -> Settings {
        Settings {
            lang: None,
            test_type: None,
            duration_secs: None,
            gpu_name: None,
            cooling_type: None,
            cooling_model: None,
            laptop_model: None,
            ambient_temp: None,
            last_result: None,
        }
    }
}

/// Enough of a submitted result to compare a re-test against it.
#[derive(Debug, Clone)]
pub struct LastResult {
    pub id: String,
    pub machine_id: String,
    /// When it was submitted (RFC 3339).
    pub at: String,
    pub test_type: String,
    pub cpu_idle: Option<i64>,
    pub cpu_load: Option<i64>,
    pub gpu_idle: Option<i64>,
    pub gpu_load: Option<i64>,
}

/// The contents of what is remembered.
pub ghost struct SettingsView {
    pub lang: Option<Seq<char>>,
    pub test_type: Option<Seq<char>>,
    pub duration_secs: Option<u64>,
    pub gpu_name: Option<Seq<char>>,
    pub cooling_type: Option<Seq<char>>,
    pub cooling_model: Option<Seq<char>>,
    pub laptop_model: Option<Seq<char>>,
    pub ambient_temp: Option<i64>,
    pub last_result: Option<LastView>,
}

/// The contents of a remembered result.
pub ghost struct LastView {
    pub id: Seq<char>,
    pub machine_id: Seq<char>,
    pub at: Seq<char>,
    pub test_type: Seq<char>,
    pub cpu_idle: Option<i64>,
    pub cpu_load: Option<i64>,
    pub gpu_idle: Option<i64>,
    pub gpu_load: Option<i64>,
}

impl View for LastResult {
    type V = LastView;

    open spec fn view(&self) -> LastView {
        LastView {
            id: self.id@,
            machine_id: self.machine_id@,
            at: self.at@,
            test_type: self.test_type@,
            cpu_idle: self.cpu_idle,
            cpu_load: self.cpu_load,
            gpu_idle: self.gpu_idle,
            gpu_load: self.gpu_load,
        }
    }
}

impl View for Settings {
    type V = SettingsView;

    open spec fn view(&self) -> SettingsView {
        SettingsView {
            lang: text_of(self.lang),
            test_type: text_of(self.test_type),
            duration_secs: self.duration_secs,
            gpu_name: text_of(self.gpu_name),
            cooling_type: text_of(self.cooling_type),
            cooling_model: text_of(self.cooling_model),
            laptop_model: text_of(self.laptop_model),
            ambient_temp: self.ambient_temp,
            last_result: match self.last_result {
                Some(r) => Some(r@),
                None => None,
            },
        }
    }
}

/// Re-tests are only linked to results up to this old.
pub const MAX_BASELINE_DAYS: i64 = 90;

/// A point in time: seconds since 1970 in UTC, and nanoseconds on top.  A
/// second's nanoseconds go on to two seconds' where a leap second follows it.
#[derive(Debug, Clone, Copy, PartialEq, Eq, Structural)]
pub struct Moment {
    pub secs: i64,
    pub nanos: u32,
}

impl Moment {
    /// In nanoseconds.
    pub open spec fn total(self) -> int {
        self.secs * 1_000_000_000 + self.nanos
    }

    /// The second of the day.
    pub open spec fn time_of_day(self) -> int {
        self.secs as int % 86_400
    }

    /// Within a leap second.
    pub open spec fn leaps(self) -> bool {
        self.nanos >= 1_000_000_000
    }

    fn day_second(&self) -> (r: i128)
        ensures
            r == self.time_of_day(),
    {
        let s: i128 = self.secs as i128;
        if s >= 0 {
            s % 86_400
        } else {
            let m: i128 = (-s) % 86_400;
            if m == 0 {
                0
            } else {
                86_400 - m
            }
        }
    }
}

/// The leap second between two moments that is known of: that of the first
/// where the second is later in the day, that of the second where it is
/// earlier.
pub open spec fn leap_between(a: Moment, b: Moment) -> int {
    if b.time_of_day() > a.time_of_day() && a.leaps() {
        1
    } else if b.time_of_day() < a.time_of_day() && b.leaps() {
        -1
    } else {
        0
    }
}

/// The nanoseconds from one moment to another.
pub open spec fn nanos_between(a: Moment, b: Moment) -> int {
    b.total() - a.total() + leap_between(a, b) * 1_000_000_000
}

/// Whole days from one moment to another, none where the second is earlier.
pub open spec fn days_between(a: Moment, b: Moment) -> int {
    if nanos_between(a, b) <= 0 {
        0
    } else {
        nanos_between(a, b) / 86_400_000_000_000
    }
}

/// What `chrono` reads in a text of RFC 3339.
pub uninterp spec fn rfc3339(s: Seq<char>) -> Option<Moment>;

/// `chrono::DateTime::parse_from_rfc3339`, and of the result `timestamp` and
/// `timestamp_subsec_nanos`: the moment that a text of RFC 3339 names, none
/// for other texts.  The same text always gives the same moment.
#[verifier::external_body]
fn parse_rfc3339(s: &str) -> (r: Option<Moment>)
    ensures
        r == rfc3339(s@),
{
    let time = chrono::DateTime::parse_from_rfc3339(s).ok()?;
    Some(Moment { secs: time.timestamp(), nanos: time.timestamp_subsec_nanos() })
}

impl LastView {
    /// A run on the machine, now, can be compared with this result, which was
    /// submitted `at` a moment: it is this machine's and recent.
    pub open spec fn comparable(self, machine_id: Seq<char>, at: Option<Moment>, now: Moment) -> bool {
        &&& self.id.len() > 0
        &&& machine_id.len() > 0
        &&& self.machine_id == machine_id
        &&& at is Some && days_between(at->0, now) <= MAX_BASELINE_DAYS
    }
}

impl LastResult {
    /// When the result was submitted, if that can be read.
    pub fn submitted_at(&self) -> (r: Option<Moment>)
        ensures
            r == rfc3339(self.at@),
    {
        parse_rfc3339(self.at.as_str())
    }

    /// Whether a run on the machine can be compared with this result, which
    /// was submitted `at` a moment.
    pub fn usable_since(&self, machine_id: &str, at: Option<Moment>, now: Moment) -> (r: bool)
        ensures
            r == self@.comparable(machine_id@, at, now),
    {
        if self.id.as_str().is_empty() || machine_id.is_empty() || !same(
            self.machine_id.as_str(),
            machine_id,
        ) {
            return false;
        }
        match at {
            Some(a) => {
                let from: i128 = a.secs as i128 * 1_000_000_000 + a.nanos as i128;
                let to: i128 = now.secs as i128 * 1_000_000_000 + now.nanos as i128;
                let then: i128 = a.day_second();
                let today: i128 = now.day_second();
                let leap: i128 = if today > then && a.nanos >= 1_000_000_000 {
                    1_000_000_000
                } else if today < then && now.nanos >= 1_000_000_000 {
                    -1_000_000_000
                } else {
                    0
                };
                let passed: i128 = to - from + leap;
                passed <= 0 || passed / 86_400_000_000_000 <= 90
            },
            None => false,
        }
    }

    /// Whether a new run on `machine_id` can be compared with this result.
    pub fn usable_for(&self, machine_id: &str, now: Moment) -> (r: bool)
        ensures
            r == self@.comparable(machine_id@, rfc3339(self.at@), now),
    {
        self.usable_since(machine_id, self.submitted_at(), now)
    }
}

/// A result is comparable for less than 91 days, and only on its own machine.
pub proof fn lemma_comparable(r: LastView, machine_id: Seq<char>, at: Moment, now: Moment)
    ensures
        nanos_between(at, now) >= 91 * 86_400_000_000_000 ==> !r.comparable(
            machine_id,
            Some(at),
            now,
        ),
        r.machine_id != machine_id ==> !r.comparable(machine_id, Some(at), now),
        !r.comparable(machine_id, None, now),
        r.id.len() > 0 && r.machine_id.len() > 0 && nanos_between(at, now) < 91
            * 86_400_000_000_000 ==> r.comparable(r.machine_id, Some(at), now),
{
}

/// Where no leap second is in sight, a result is comparable exactly while less
/// than 91 days of 24 hours have passed, and always before it was submitted.
pub proof fn lemma_comparable_for_days(r: LastView, at: Moment, now: Moment)
    requires
        r.id.len() > 0,
        r.machine_id.len() > 0,
        at.nanos < 1_000_000_000,
        now.nanos < 1_000_000_000,
    ensures
        r.comparable(r.machine_id, Some(at), now) <==> (now.secs - at.secs < 91 * 24 * 60 * 60 || (
        now.secs - at.secs == 91 * 24 * 60 * 60 && now.nanos < at.nanos)),
{
}

/// Nothing is comparable without an identity on both sides.
pub proof fn lemma_nameless_is_not_comparable(
    r: LastView,
    machine_id: Seq<char>,
    at: Option<Moment>,
    now: Moment,
)
    ensures
        r.id.len() == 0 || machine_id.len() == 0 ==> !r.comparable(machine_id, at, now),
{
}

} // verus!
