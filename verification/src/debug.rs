//! Values as they are written into logs.
use vstd::prelude::*;

use crate::decimal::{push_shown, shown};
use crate::engine::{Warning, WarningView};
use crate::gpus::GpuKind;
use crate::sensors::Probe;
use crate::setup::{DriverState, DriverView};
use crate::stress::{GpuStress, GpuStressView};
use crate::text::{chars_of, owned};

verus! {

/// A character that stands for itself in quotes.
pub open spec fn plain(c: char) -> bool {
    ' ' <= c <= '~' && c != '"' && c != '\\'
}

/// All characters stand for themselves in quotes.
pub open spec fn all_plain(s: Seq<char>) -> bool {
    forall|i: int| 0 <= i < s.len() ==> plain(#[trigger] s[i])
}

/// What `{:?}` makes of a text.
pub uninterp spec fn debug_text(s: Seq<char>) -> Seq<char>;

/// `str`'s `Debug`: the text in quotes, with escapes for what is not
/// printable, by tables that are too long to state; the same text always gives
/// the same result.
#[verifier::external_body]
fn debug_of(s: &str) -> (r: String)
    ensures
        r@ == debug_text(s@),
{
    format!("{:?}", s)
}

/// A text in quotes.
pub open spec fn quoted(s: Seq<char>) -> Seq<char> {
    if all_plain(s) {
        seq!['"'] + s + seq!['"']
    } else {
        debug_text(s)
    }
}

/// Puts a text in quotes.
pub fn quote(s: &str) -> (r: String)
    ensures
        r@ == quoted(s@),
{
    let cs: Vec<char> = chars_of(s);
    let mut i: usize = 0;
    while i < cs.len()
        invariant
            i <= cs.len(),
            cs@ == s@,
            forall|j: int| 0 <= j < i ==> plain(#[trigger] s@[j]),
        decreases cs.len() - i,
    {
        let c = cs[i];
        if !(' ' <= c && c <= '~' && c != '"' && c != '\\') {
            assert(!plain(s@[i as int]));
            return debug_of(s);
        }
        i = i + 1;
    }
    let mut r = String::new();
    r.push('"');
    r.append(s);
    r.push('"');
    assert(r@ =~= seq!['"'] + s@ + seq!['"']);
    r
}

/// A number with at least one digit behind the point.
pub open spec fn number_text(v: int) -> Seq<char> {
    if v % 1_000_000 == 0 {
        shown(v) + ".0"@
    } else {
        shown(v)
    }
}

/// Writes a number with at least one digit behind the point.
pub fn number(v: i64) -> (r: String)
    ensures
        r@ == number_text(v as int),
{
    let mut r = String::new();
    push_shown(&mut r, v);
    assert(r@ =~= shown(v as int));
    if (v as i128) % 1_000_000 == 0 {
        assert(v % 1_000_000 == 0);
        r.append(".0");
    } else {
        assert(v % 1_000_000 != 0);
    }
    r
}

/// An optional number.
pub open spec fn optional_number(v: Option<i64>) -> Seq<char> {
    match v {
        Some(x) => "Some("@ + number_text(x as int) + ")"@,
        None => "None"@,
    }
}

/// Writes an optional number.
pub fn optional(v: Option<i64>) -> (r: String)
    ensures
        r@ == optional_number(v),
{
    match v {
        Some(x) => crate::text::cat3("Some(", number(x).as_str(), ")"),
        None => owned("None"),
    }
}

/// A name with something in brackets.
pub open spec fn named_with(name: Seq<char>, inner: Seq<char>) -> Seq<char> {
    name + "("@ + inner + ")"@
}

fn name_with(name: &str, inner: String) -> (r: String)
    ensures
        r@ == named_with(name@, inner@),
{
    crate::text::cat4(name, "(", inner.as_str(), ")")
}

/// A kind of card.
pub open spec fn kind_text(k: GpuKind) -> Seq<char> {
    match k {
        GpuKind::Discrete => "Discrete"@,
        GpuKind::Integrated => "Integrated"@,
        GpuKind::Unknown => "Unknown"@,
    }
}

/// Writes a kind of card.
pub fn kind(k: GpuKind) -> (r: &'static str)
    ensures
        r@ == kind_text(k),
{
    match k {
        GpuKind::Discrete => "Discrete",
        GpuKind::Integrated => "Integrated",
        GpuKind::Unknown => "Unknown",
    }
}

/// How the search for a sensor stands.
pub open spec fn probe_text(p: Probe) -> Seq<char> {
    match p {
        Probe::Searching => "Searching"@,
        Probe::Found => "Found"@,
        Probe::Missing => "Missing"@,
    }
}

/// Writes how the search for a sensor stands.
pub fn probe(p: Probe) -> (r: &'static str)
    ensures
        r@ == probe_text(p),
{
    match p {
        Probe::Searching => "Searching",
        Probe::Found => "Found",
        Probe::Missing => "Missing",
    }
}

/// How the driver stands.
pub open spec fn driver_text(d: DriverView) -> Seq<char> {
    match d {
        DriverView::NotNeeded => "NotNeeded"@,
        DriverView::AlreadyInstalled => "AlreadyInstalled"@,
        DriverView::InstalledNow => "InstalledNow"@,
        DriverView::Failed(e) => named_with("Failed"@, quoted(e)),
        DriverView::NoAdmin => "NoAdmin"@,
    }
}

/// Writes how the driver stands.
pub fn driver(d: &DriverState) -> (r: String)
    ensures
        r@ == driver_text(d@),
{
    match d {
        DriverState::NotNeeded => owned("NotNeeded"),
        DriverState::AlreadyInstalled => owned("AlreadyInstalled"),
        DriverState::InstalledNow => owned("InstalledNow"),
        DriverState::Failed(e) => name_with("Failed", quote(e.as_str())),
        DriverState::NoAdmin => owned("NoAdmin"),
    }
}

/// How the GPU's stress stands.
pub open spec fn stress_text(g: GpuStressView) -> Seq<char> {
    match g {
        GpuStressView::Off => "Off"@,
        GpuStressView::Starting => "Starting"@,
        GpuStressView::Running { adapter, backend } => "Running { adapter: "@ + quoted(adapter)
            + ", backend: "@ + quoted(backend) + " }"@,
        GpuStressView::Failed(e) => named_with("Failed"@, quoted(e)),
    }
}

/// Writes how the GPU's stress stands.
pub fn stress(g: &GpuStress) -> (r: String)
    ensures
        r@ == stress_text(g@),
{
    match g {
        GpuStress::Off => owned("Off"),
        GpuStress::Starting => owned("Starting"),
        GpuStress::Running { adapter, backend } => crate::text::cat5(
            "Running { adapter: ",
            quote(adapter.as_str()).as_str(),
            ", backend: ",
            quote(backend.as_str()).as_str(),
            " }",
        ),
        GpuStress::Failed(e) => name_with("Failed", quote(e.as_str())),
    }
}

/// A warning.
pub open spec fn warning_text(w: WarningView) -> Seq<char> {
    match w {
        WarningView::CpuTempFlat => "CpuTempFlat"@,
        WarningView::GpuTempFlat => "GpuTempFlat"@,
        WarningView::CpuSensorMissing => "CpuSensorMissing"@,
        WarningView::GpuSensorMissing => "GpuSensorMissing"@,
        WarningView::GpuStressFailed(e) => named_with("GpuStressFailed"@, quoted(e)),
        WarningView::GpuLoadLow(v) => named_with("GpuLoadLow"@, number_text(v as int)),
        WarningView::CpuVeryHot(v) => named_with("CpuVeryHot"@, number_text(v as int)),
        WarningView::GpuVeryHot(v) => named_with("GpuVeryHot"@, number_text(v as int)),
        WarningView::CpuIdleWarm(v) => named_with("CpuIdleWarm"@, number_text(v as int)),
        WarningView::CpuIdleHot(v) => named_with("CpuIdleHot"@, number_text(v as int)),
        WarningView::GpuIdleWarm(v) => named_with("GpuIdleWarm"@, number_text(v as int)),
        WarningView::GpuIdleHot(v) => named_with("GpuIdleHot"@, number_text(v as int)),
    }
}

/// Writes a warning.
pub fn warning(w: &Warning) -> (r: String)
    ensures
        r@ == warning_text(w@),
{
    match w {
        Warning::CpuTempFlat => owned("CpuTempFlat"),
        Warning::GpuTempFlat => owned("GpuTempFlat"),
        Warning::CpuSensorMissing => owned("CpuSensorMissing"),
        Warning::GpuSensorMissing => owned("GpuSensorMissing"),
        Warning::GpuStressFailed(e) => name_with("GpuStressFailed", quote(e.as_str())),
        Warning::GpuLoadLow(v) => name_with("GpuLoadLow", number(*v)),
        Warning::CpuVeryHot(v) => name_with("CpuVeryHot", number(*v)),
        Warning::GpuVeryHot(v) => name_with("GpuVeryHot", number(*v)),
        Warning::CpuIdleWarm(v) => name_with("CpuIdleWarm", number(*v)),
        Warning::CpuIdleHot(v) => name_with("CpuIdleHot", number(*v)),
        Warning::GpuIdleWarm(v) => name_with("GpuIdleWarm", number(*v)),
        Warning::GpuIdleHot(v) => name_with("GpuIdleHot", number(*v)),
    }
}

/// The first `n` warnings of a list, with commas between them.
pub open spec fn warnings_text(ws: Seq<WarningView>, n: int) -> Seq<char>
    decreases n,
{
    if n <= 0 {
        Seq::empty()
    } else if n == 1 {
        warning_text(ws[0])
    } else {
        warnings_text(ws, n - 1) + ", "@ + warning_text(ws[n - 1])
    }
}

/// A list of warnings.
pub open spec fn listed_text(ws: Seq<WarningView>) -> Seq<char> {
    "["@ + warnings_text(ws, ws.len() as int) + "]"@
}

/// Writes a list of warnings.
pub fn warnings(ws: &Vec<Warning>) -> (r: String)
    ensures
        r@ == listed_text(crate::engine::warning_views(ws@)),
{
    let ghost views = crate::engine::warning_views(ws@);
    let mut inner = String::new();
    let mut i: usize = 0;
    while i < ws.len()
        invariant
            i <= ws.len(),
            views == crate::engine::warning_views(ws@),
            inner@ == warnings_text(views, i as int),
        decreases ws.len() - i,
    {
        if i > 0 {
            inner.append(", ");
        }
        inner.append(warning(&ws[i]).as_str());
        i = i + 1;
        proof {
            if i == 1 {
                assert(inner@ =~= warning_text(views[0]));
            } else {
                assert(inner@ =~= warnings_text(views, i as int));
            }
        }
    }
    crate::text::cat3("[", inner.as_str(), "]")
}

} // verus!
