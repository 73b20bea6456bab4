//! Temperature and GPU-load sources, tried in a fixed priority order.
//!
//! The order never changes, so that results stay comparable:
//!   CPU (Windows): HWiNFO → MSI Afterburner → AIDA64 → Core Temp →
//!                  LibreHardwareMonitor → WMI ACPI → OHM WMI → perf counters
//!   GPU (Windows): NVIDIA driver → HWiNFO → Afterburner → AIDA64 → LHM → WMI
//!
//! Every reading carries a short source label that is shown next to it.
use vstd::prelude::*;

use crate::afterburner::AfterburnerReading;
use crate::aida64::Aida64Reading;
use crate::coretemp::CoreTempReading;
use crate::decimal::{
    half_even, magnitude, minus_of, parse_signed, push_tenths, shown_tenths, signed_whole,
    tenths_text,
};
use crate::fixed::{higher, int_of, one, Binary, UNIT};
use crate::gpus::{names_match, GpuDevice};
use crate::hwinfo::HwinfoReading;
use crate::lhm::{lhm_views, LhmGpu, LhmGpuView, LhmSample};
use crate::nearest::{
    beside, beside_of, difference, lemma_near, nearest, nearest_signed, quotient,
};
use crate::numerals::{millionths, parse_millionths};
use crate::nvidia::NvSource;
use crate::text::{
    char_views, chars_of, contains, dec, lines, lines_of, lower, occurs, or_text, owned, prefixed,
    push_dec, same, string_of, text_of, text_or, to_lower, trim, trim_str, trimmed, words, words_of,
};

verus! {

/// A temperature and where it was read.
#[derive(Debug, Clone)]
pub struct TempReading {
    pub celsius: i64,
    pub source: String,
}

/// A temperature's contents.
pub ghost struct TempView {
    pub celsius: int,
    pub source: Seq<char>,
}

impl View for TempReading {
    type V = TempView;

    open spec fn view(&self) -> TempView {
        TempView { celsius: self.celsius as int, source: self.source@ }
    }
}

/// The contents of an optional temperature.
pub open spec fn temp_of(t: Option<TempReading>) -> Option<TempView> {
    match t {
        Some(x) => Some(x@),
        None => None,
    }
}

/// A temperature that can be: above 0 °C and under 150 °C.
pub open spec fn sane_temp(celsius: int, source: Seq<char>) -> Option<TempView> {
    if 0 < celsius < 150 * UNIT {
        Some(TempView { celsius, source })
    } else {
        None
    }
}

impl TempReading {
    /// A reading, if the temperature can be.
    pub fn new(celsius: i64, source: String) -> (r: Option<TempReading>)
        ensures
            temp_of(r) == sane_temp(celsius as int, source@),
    {
        if celsius > 0 && celsius < 150 * UNIT {
            Some(TempReading { celsius, source })
        } else {
            None
        }
    }
}

// ---------------------------------------------------------------------------
// Windows

/// What the sources of a Windows machine say, as far as they were asked.
pub struct Sources {
    pub hwinfo: Option<HwinfoReading>,
    pub afterburner: Option<AfterburnerReading>,
    pub aida64: Option<Aida64Reading>,
    pub coretemp: Option<CoreTempReading>,
    pub lhm: Option<LhmSample>,
    /// The ACPI thermal zones.
    pub acpi: Option<i64>,
    /// Another hardware monitor's sensor, and its name.
    pub ohm: Option<(i64, String)>,
    /// The performance counters.
    pub perf: Option<i64>,
    /// The card's own driver, and how it was asked.
    pub nvidia: Option<(i64, NvSource)>,
    /// The card's load by its own driver.
    pub nvidia_load: Option<i64>,
    /// The card's load by HWiNFO.
    pub hwinfo_load: Option<i64>,
    /// The temperature probes.
    pub probe: Option<i64>,
}

/// What HWiNFO says of the CPU.
pub open spec fn hwinfo_cpu(r: Option<HwinfoReading>) -> Option<TempView> {
    match r {
        Some(x) => match x.cpu_temp {
            Some(t) => Some(
                TempView { celsius: t as int, source: "HWiNFO / "@ + or_text(x.cpu_source, ""@) },
            ),
            None => None,
        },
        None => None,
    }
}

/// What Afterburner says of the CPU.
pub open spec fn afterburner_cpu(r: Option<AfterburnerReading>) -> Option<TempView> {
    match r {
        Some(x) => match x.cpu_temp {
            Some(t) => Some(
                TempView { celsius: t as int, source: or_text(x.cpu_source, "MSI Afterburner"@) },
            ),
            None => None,
        },
        None => None,
    }
}

/// What AIDA64 says of the CPU.
pub open spec fn aida64_cpu(r: Option<Aida64Reading>) -> Option<TempView> {
    match r {
        Some(x) => match x.cpu_temp {
            Some(t) => Some(
                TempView { celsius: t as int, source: or_text(x.cpu_source, "AIDA64"@) },
            ),
            None => None,
        },
        None => None,
    }
}

/// What Core Temp says.
pub open spec fn coretemp_cpu(r: Option<CoreTempReading>) -> Option<TempView> {
    match r {
        Some(x) => match x.cpu_temp {
            Some(t) => Some(
                TempView { celsius: t as int, source: or_text(x.cpu_source, "Core Temp"@) },
            ),
            None => None,
        },
        None => None,
    }
}

/// What the helper says of the CPU.
pub open spec fn lhm_cpu(r: Option<LhmSample>) -> Option<TempView> {
    match r {
        Some(x) => match x.cpu_temp {
            Some(t) => Some(
                TempView {
                    celsius: t as int,
                    source: "LibreHardwareMonitor / "@ + or_text(x.cpu_sensor, "CPU"@),
                },
            ),
            None => None,
        },
        None => None,
    }
}

/// A temperature under a fixed label.
pub open spec fn labelled(t: Option<i64>, source: Seq<char>) -> Option<TempView> {
    match t {
        Some(x) => Some(TempView { celsius: x as int, source }),
        None => None,
    }
}

/// What another hardware monitor says.
pub open spec fn ohm_cpu(t: Option<(i64, String)>) -> Option<TempView> {
    match t {
        Some((x, name)) => Some(
            TempView { celsius: x as int, source: "Hardware monitor WMI / "@ + name@ },
        ),
        None => None,
    }
}

/// The first of several that is there.
pub open spec fn first_some(s: Seq<Option<TempView>>) -> Option<TempView>
    decreases s.len(),
{
    if s.len() == 0 {
        None
    } else if s[0] is Some {
        s[0]
    } else {
        first_some(s.skip(1))
    }
}

/// What the sources say of the CPU, in the order in which they are asked.
pub open spec fn cpu_offers(s: Sources) -> Seq<Option<TempView>> {
    seq![
        hwinfo_cpu(s.hwinfo),
        afterburner_cpu(s.afterburner),
        aida64_cpu(s.aida64),
        coretemp_cpu(s.coretemp),
        lhm_cpu(s.lhm),
        labelled(s.acpi, "ACPI thermal zone (motherboard)"@),
        ohm_cpu(s.ohm),
        labelled(s.perf, "Windows thermal zone (motherboard)"@),
    ]
}

/// What a source answers: a temperature, or that its value cannot be one.
#[derive(Debug, Clone)]
pub enum Answer {
    /// A source has a value.  It is a reading if the temperature can be.
    Value(Option<TempReading>),
    /// No source that was asked has a value.
    Nothing,
}

impl Answer {
    /// The answer is the value offered, kept only if it can be.
    pub open spec fn is(self, offer: Option<TempView>) -> bool {
        match self {
            Answer::Value(t) => offer is Some && temp_of(t) == sane_temp(
                offer->0.celsius,
                offer->0.source,
            ),
            Answer::Nothing => offer is None,
        }
    }

    /// The reading, if there is one.
    pub fn reading(self) -> (r: Option<TempReading>)
        ensures
            r == (match self {
                Answer::Value(t) => t,
                Answer::Nothing => None,
            }),
    {
        match self {
            Answer::Value(t) => t,
            Answer::Nothing => None,
        }
    }
}

/// The CPU temperature of a Windows machine: that of the first source that has
/// a value.
pub fn read_cpu(s: &Sources) -> (r: Answer)
    ensures
        r.is(first_some(cpu_offers(*s))),
{
    proof {
        let o = cpu_offers(*s);
        lemma_first_some(o, 0);
        lemma_first_some(o, 1);
        lemma_first_some(o, 2);
        lemma_first_some(o, 3);
        lemma_first_some(o, 4);
        lemma_first_some(o, 5);
        lemma_first_some(o, 6);
        lemma_first_some(o, 7);
        lemma_first_some(o, 8);
        assert(o.skip(0) =~= o);
    }
    match &s.hwinfo {
        Some(x) => match x.cpu_temp {
            Some(t) => {
                let label = text_or(&x.cpu_source, "");
                return Answer::Value(TempReading::new(t, prefixed("HWiNFO / ", label.as_str())));
            },
            None => {},
        },
        None => {},
    }
    match &s.afterburner {
        Some(x) => match x.cpu_temp {
            Some(t) => {
                return Answer::Value(
                    TempReading::new(t, text_or(&x.cpu_source, "MSI Afterburner")),
                );
            },
            None => {},
        },
        None => {},
    }
    match &s.aida64 {
        Some(x) => match x.cpu_temp {
            Some(t) => {
                return Answer::Value(TempReading::new(t, text_or(&x.cpu_source, "AIDA64")));
            },
            None => {},
        },
        None => {},
    }
    match &s.coretemp {
        Some(x) => match x.cpu_temp {
            Some(t) => {
                return Answer::Value(TempReading::new(t, text_or(&x.cpu_source, "Core Temp")));
            },
            None => {},
        },
        None => {},
    }
    match &s.lhm {
        Some(x) => match x.cpu_temp {
            Some(t) => {
                let sensor = text_or(&x.cpu_sensor, "CPU");
                return Answer::Value(
                    TempReading::new(t, prefixed("LibreHardwareMonitor / ", sensor.as_str())),
                );
            },
            None => {},
        },
        None => {},
    }
    match s.acpi {
        Some(t) => {
            return Answer::Value(TempReading::new(t, owned("ACPI thermal zone (motherboard)")));
        },
        None => {},
    }
    match &s.ohm {
        Some((t, name)) => {
            return Answer::Value(
                TempReading::new(*t, prefixed("Hardware monitor WMI / ", name.as_str())),
            );
        },
        None => {},
    }
    match s.perf {
        Some(t) => Answer::Value(TempReading::new(t, owned("Windows thermal zone (motherboard)"))),
        None => Answer::Nothing,
    }
}

/// What stands in front of the first value does not matter.
proof fn lemma_first_some(s: Seq<Option<TempView>>, i: int)
    requires
        0 <= i <= s.len(),
    ensures
        i < s.len() && s[i] is Some ==> first_some(s.skip(i)) == s[i],
        i < s.len() && s[i] is None ==> first_some(s.skip(i)) == first_some(s.skip(i + 1)),
        i == s.len() ==> first_some(s.skip(i)) is None,
{
    if i < s.len() {
        assert(s.skip(i)[0] == s[i]);
        assert(s.skip(i).skip(1) =~= s.skip(i + 1));
    }
}

/// A source decides wherever none in front of it has a value: what the later
/// ones say does not matter.
pub proof fn lemma_first_source_decides(s: Seq<Option<TempView>>, i: int)
    requires
        0 <= i < s.len(),
        s[i] is Some,
        forall|j: int| 0 <= j < i ==> s[j] is None,
    ensures
        first_some(s) == s[i],
    decreases i,
{
    if i > 0 {
        assert(s[0] is None);
        lemma_first_source_decides(s.skip(1), i - 1);
    }
}

/// The first GPU of a reading from `i` on whose name is the card's, or their
/// number.
pub open spec fn lhm_pick(name: Seq<char>, gpus: Seq<LhmGpuView>, i: int) -> int
    decreases gpus.len() - i,
{
    if i < 0 || i >= gpus.len() || names_match(name, gpus[i].name) {
        i
    } else {
        lhm_pick(name, gpus, i + 1)
    }
}

/// What the helper says of the card: the GPU of that name, or the last one
/// where the machine has but one card.
pub open spec fn lhm_choice(r: Option<LhmSample>, name: Seq<char>, multi: bool) -> Option<
    LhmGpuView,
> {
    match r {
        None => None,
        Some(x) => {
            let gpus = x@.gpus;
            let i = lhm_pick(name, gpus, 0);
            if i < gpus.len() {
                Some(gpus[i])
            } else if !multi && gpus.len() > 0 {
                Some(gpus.last())
            } else {
                None
            }
        },
    }
}

/// Finds what the helper says of the card.
pub fn lhm_gpu<'a>(r: &'a Option<LhmSample>, gpu: &GpuDevice, multi: bool) -> (g: Option<
    &'a LhmGpu,
>)
    ensures
        (match g {
            Some(x) => Some(x@),
            None => None,
        }) == lhm_choice(*r, gpu.name@, multi),
{
    let x: &LhmSample = match r {
        Some(x) => x,
        None => {
            return None;
        },
    };
    let ghost views = lhm_views(x.gpus@);
    let mut i: usize = 0;
    while i < x.gpus.len()
        invariant
            i <= x.gpus.len(),
            views == lhm_views(x.gpus@),
            x@.gpus == views,
            *r == Some(*x),
            lhm_pick(gpu.name@, views, 0) == lhm_pick(gpu.name@, views, i as int),
        decreases x.gpus.len() - i,
    {
        if gpu.matches_name(x.gpus[i].name.as_str()) {
            return Some(&x.gpus[i]);
        }
        i = i + 1;
    }
    if multi || x.gpus.len() == 0 {
        return None;
    }
    Some(&x.gpus[x.gpus.len() - 1])
}

/// What HWiNFO says of the card.
pub open spec fn hwinfo_gpu(r: Option<HwinfoReading>) -> Option<TempView> {
    match r {
        Some(x) => match x.gpu_temp {
            Some(t) => Some(
                TempView { celsius: t as int, source: "HWiNFO / "@ + or_text(x.gpu_source, ""@) },
            ),
            None => None,
        },
        None => None,
    }
}

/// What Afterburner says of the card.
pub open spec fn afterburner_gpu(r: Option<AfterburnerReading>) -> Option<TempView> {
    match r {
        Some(x) => match x.gpu_temp {
            Some(t) => Some(
                TempView { celsius: t as int, source: or_text(x.gpu_source, "MSI Afterburner"@) },
            ),
            None => None,
        },
        None => None,
    }
}

/// What AIDA64 says of the only card.
pub open spec fn aida64_gpu(r: Option<Aida64Reading>, multi: bool) -> Option<TempView> {
    match r {
        Some(x) => match x.gpu_temp {
            Some(t) if !multi => Some(
                TempView { celsius: t as int, source: or_text(x.gpu_source, "AIDA64"@) },
            ),
            _ => None,
        },
        None => None,
    }
}

/// What the helper says of the card's temperature.
pub open spec fn lhm_gpu_temp(g: Option<LhmGpuView>) -> Option<TempView> {
    match g {
        Some(x) => match x.temp {
            Some(t) => Some(
                TempView {
                    celsius: t,
                    source: "LibreHardwareMonitor / "@ + match x.sensor {
                        Some(s) => s,
                        None => "GPU"@,
                    },
                },
            ),
            None => None,
        },
        None => None,
    }
}

/// What the card's driver says.
pub open spec fn nvidia_gpu(t: Option<(i64, NvSource)>) -> Option<TempView> {
    match t {
        Some((x, source)) => Some(TempView { celsius: x as int, source: source.label() }),
        None => None,
    }
}

/// What the sources say of the card, in the order in which they are asked.
/// Those that cannot tell cards apart are asked only where there is but one.
pub open spec fn gpu_offers(s: Sources, name: Seq<char>, multi: bool) -> Seq<Option<TempView>> {
    seq![
        nvidia_gpu(s.nvidia),
        hwinfo_gpu(s.hwinfo),
        afterburner_gpu(s.afterburner),
        aida64_gpu(s.aida64, multi),
        lhm_gpu_temp(lhm_choice(s.lhm, name, multi)),
        if multi {
            None
        } else {
            labelled(s.probe, "WMI temperature probe"@)
        },
    ]
}

/// The temperature of `gpu` in a Windows machine. With several GPUs installed
/// (`multi`), sources that can't tell GPUs apart are skipped rather than risk
/// reading the wrong card.
pub fn read_gpu(s: &Sources, gpu: &GpuDevice, multi: bool) -> (r: Answer)
    ensures
        r.is(first_some(gpu_offers(*s, gpu.name@, multi))),
{
    proof {
        let o = gpu_offers(*s, gpu.name@, multi);
        lemma_first_some(o, 0);
        lemma_first_some(o, 1);
        lemma_first_some(o, 2);
        lemma_first_some(o, 3);
        lemma_first_some(o, 4);
        lemma_first_some(o, 5);
        lemma_first_some(o, 6);
        assert(o.skip(0) =~= o);
    }
    match &s.nvidia {
        Some((t, source)) => {
            return Answer::Value(TempReading::new(*t, owned(source.text())));
        },
        None => {},
    }
    match &s.hwinfo {
        Some(x) => match x.gpu_temp {
            Some(t) => {
                let label = text_or(&x.gpu_source, "");
                return Answer::Value(TempReading::new(t, prefixed("HWiNFO / ", label.as_str())));
            },
            None => {},
        },
        None => {},
    }
    match &s.afterburner {
        Some(x) => match x.gpu_temp {
            Some(t) => {
                return Answer::Value(
                    TempReading::new(t, text_or(&x.gpu_source, "MSI Afterburner")),
                );
            },
            None => {},
        },
        None => {},
    }
    if !multi {
        match &s.aida64 {
            Some(x) => match x.gpu_temp {
                Some(t) => {
                    return Answer::Value(TempReading::new(t, text_or(&x.gpu_source, "AIDA64")));
                },
                None => {},
            },
            None => {},
        }
    }
    match lhm_gpu(&s.lhm, gpu, multi) {
        Some(g) => match g.temp {
            Some(t) => {
                let sensor = text_or(&g.sensor, "GPU");
                return Answer::Value(
                    TempReading::new(t, prefixed("LibreHardwareMonitor / ", sensor.as_str())),
                );
            },
            None => {},
        },
        None => {},
    }
    if !multi {
        match s.probe {
            Some(t) => {
                return Answer::Value(TempReading::new(t, owned("WMI temperature probe")));
            },
            None => {},
        }
    }
    Answer::Nothing
}

/// The load of a card by Afterburner.
pub open spec fn afterburner_load(r: Option<AfterburnerReading>) -> Option<int> {
    match r {
        Some(x) => int_of(x.gpu_usage),
        None => None,
    }
}

/// The load of a card by the helper.
pub open spec fn lhm_load(g: Option<LhmGpuView>) -> Option<int> {
    match g {
        Some(x) => x.load,
        None => None,
    }
}

/// The load of a card: that of the first source that has one.
pub open spec fn gpu_load(s: Sources, name: Seq<char>, multi: bool) -> Option<int> {
    if s.nvidia_load is Some {
        int_of(s.nvidia_load)
    } else if s.hwinfo_load is Some {
        int_of(s.hwinfo_load)
    } else if afterburner_load(s.afterburner) is Some {
        afterburner_load(s.afterburner)
    } else {
        lhm_load(lhm_choice(s.lhm, name, multi))
    }
}

/// GPU load (%) for `gpu` in a Windows machine, when some source reports it:
/// its driver, HWiNFO, Afterburner, or the helper.
pub fn read_gpu_usage(s: &Sources, gpu: &GpuDevice, multi: bool) -> (r: Option<i64>)
    ensures
        int_of(r) == gpu_load(*s, gpu.name@, multi),
{
    match s.nvidia_load {
        Some(u) => {
            return Some(u);
        },
        None => {},
    }
    match s.hwinfo_load {
        Some(u) => {
            return Some(u);
        },
        None => {},
    }
    match &s.afterburner {
        Some(x) => match x.gpu_usage {
            Some(u) => {
                return Some(u);
            },
            None => {},
        },
        None => {},
    }
    match lhm_gpu(&s.lhm, gpu, multi) {
        Some(g) => g.load,
        None => None,
    }
}

/// The double nearest to 273.15, the kelvin at which water freezes.
pub open spec fn freezing() -> int {
    nearest(27_315 * one(), 100)
}

/// A temperature above absolute zero in degrees Celsius: the difference of two
/// doubles.
pub open spec fn above_freezing(kelvin: int) -> int {
    nearest_signed(kelvin - freezing(), 1)
}

/// Tenths of a kelvin in degrees Celsius.
pub open spec fn from_decikelvin(t: u32) -> int {
    beside(above_freezing(nearest(t * one(), 10)), t * 100_000 - 273_150_000)
}

/// Kelvin in degrees Celsius.
pub open spec fn from_kelvin(t: u32) -> int {
    beside(above_freezing(nearest(t * one(), 1)), t * 1_000_000 - 273_150_000)
}

fn celsius_of(kelvin: &Binary, millionths: i64) -> (r: i64)
    requires
        kelvin.moderate(),
        !kelvin.negative,
        -0x7000_0000_0000_0000 <= millionths <= 0x7000_0000_0000_0000,
    ensures
        r == beside(above_freezing(kelvin.size()), millionths as int),
{
    beside_of(&difference(kelvin, &quotient(27_315, 100)), millionths)
}

/// The highest of several values.
pub open spec fn highest(s: Seq<Option<int>>) -> Option<int>
    decreases s.len(),
{
    if s.len() == 0 {
        None
    } else {
        higher(highest(s.drop_last()), s.last())
    }
}

/// The highest is one of the values, and none is higher.
pub proof fn lemma_highest(s: Seq<Option<int>>)
    ensures
        forall|i: int|
            0 <= i < s.len() && (#[trigger] s[i]) is Some ==> highest(s) is Some && s[i]->0
                <= highest(s)->0,
        highest(s) is Some ==> s.contains(highest(s)),
    decreases s.len(),
{
    if s.len() > 0 {
        let front = s.drop_last();
        lemma_highest(front);
        assert(forall|i: int| 0 <= i < front.len() ==> front[i] == s[i]);
        if highest(s) is Some {
            if highest(s) == s.last() {
                assert(s[s.len() - 1] == highest(s));
            } else {
                let i = choose|i: int| 0 <= i < front.len() && front[i] == highest(front);
                assert(s[i] == highest(s));
            }
        }
    }
}

fn take_higher(a: Option<i64>, b: Option<i64>) -> (r: Option<i64>)
    ensures
        int_of(r) == higher(int_of(a), int_of(b)),
{
    match (a, b) {
        (Some(x), Some(y)) => if x < y {
            b
        } else {
            a
        },
        (None, _) => b,
        (_, None) => a,
    }
}

/// An ACPI zone's temperature, given in tenths of a kelvin.
pub open spec fn acpi_celsius(t: Option<u32>) -> Option<int> {
    match t {
        Some(x) => Some(from_decikelvin(x)),
        None => None,
    }
}

/// The temperature of the hottest ACPI zone.
pub fn read_cpu_temp_wmi(zones: &Vec<Option<u32>>) -> (r: Option<i64>)
    ensures
        int_of(r) == highest(zones@.map_values(|t: Option<u32>| acpi_celsius(t))),
{
    let ghost all = zones@.map_values(|t: Option<u32>| acpi_celsius(t));
    let mut r: Option<i64> = None;
    let mut i: usize = 0;
    while i < zones.len()
        invariant
            i <= zones.len(),
            all == zones@.map_values(|t: Option<u32>| acpi_celsius(t)),
            int_of(r) == highest(all.take(i as int)),
        decreases zones.len() - i,
    {
        let t = match zones[i] {
            Some(x) => Some(celsius_of(&quotient(x, 10), x as i64 * 100_000 - 273_150_000)),
            None => None,
        };
        assert(int_of(t) == all[i as int]);
        r = take_higher(r, t);
        i = i + 1;
        assert(all.take(i as int).drop_last() =~= all.take(i - 1));
    }
    assert(all.take(all.len() as int) =~= all);
    r
}

/// A thermal zone among the performance counters.
pub struct PerfZone {
    pub name: Option<String>,
    /// In tenths of a kelvin.
    pub high_precision: Option<u32>,
    /// In kelvin.
    pub temperature: Option<u32>,
}

/// A zone's temperature: the precise value where there is one.
pub open spec fn perf_celsius(z: PerfZone) -> Option<int> {
    match z.high_precision {
        Some(x) => Some(from_decikelvin(x)),
        None => match z.temperature {
            Some(x) => Some(from_kelvin(x)),
            None => None,
        },
    }
}

/// A value that can be a temperature.
pub open spec fn kept_sane(t: Option<int>) -> Option<int> {
    match t {
        Some(x) if 0 < x < 150 * UNIT => Some(x),
        _ => None,
    }
}

fn perf_value(z: &PerfZone) -> (r: Option<i64>)
    ensures
        int_of(r) == perf_celsius(*z),
{
    match z.high_precision {
        Some(x) => Some(celsius_of(&quotient(x, 10), x as i64 * 100_000 - 273_150_000)),
        None => match z.temperature {
            Some(x) => Some(celsius_of(&quotient(x, 1), x as i64 * 1_000_000 - 273_150_000)),
            None => None,
        },
    }
}

/// The highest temperature among the performance counters' zones that can be
/// one (typically that of the zone closest to the CPU).
pub fn read_cpu_temp_perfcounter(zones: &Vec<PerfZone>) -> (r: Option<i64>)
    ensures
        int_of(r) == highest(zones@.map_values(|z: PerfZone| kept_sane(perf_celsius(z)))),
{
    let ghost all = zones@.map_values(|z: PerfZone| kept_sane(perf_celsius(z)));
    let mut r: Option<i64> = None;
    let mut i: usize = 0;
    while i < zones.len()
        invariant
            i <= zones.len(),
            all == zones@.map_values(|z: PerfZone| kept_sane(perf_celsius(z))),
            int_of(r) == highest(all.take(i as int)),
        decreases zones.len() - i,
    {
        let t = match perf_value(&zones[i]) {
            Some(x) => if 0 < x && x < 150 * UNIT {
                Some(x)
            } else {
                None
            },
            None => None,
        };
        assert(int_of(t) == all[i as int]);
        r = take_higher(r, t);
        i = i + 1;
        assert(all.take(i as int).drop_last() =~= all.take(i - 1));
    }
    assert(all.take(all.len() as int) =~= all);
    r
}

/// A probe's temperature, given in degrees.
pub open spec fn probe_celsius(t: Option<u32>) -> Option<int> {
    match t {
        Some(x) => Some(x * UNIT),
        None => None,
    }
}

/// The highest temperature of the probes.
pub fn read_gpu_temp_wmi(probes: &Vec<Option<u32>>) -> (r: Option<i64>)
    ensures
        int_of(r) == highest(probes@.map_values(|t: Option<u32>| probe_celsius(t))),
{
    let ghost all = probes@.map_values(|t: Option<u32>| probe_celsius(t));
    let mut r: Option<i64> = None;
    let mut i: usize = 0;
    while i < probes.len()
        invariant
            i <= probes.len(),
            all == probes@.map_values(|t: Option<u32>| probe_celsius(t)),
            int_of(r) == highest(all.take(i as int)),
        decreases probes.len() - i,
    {
        let t = match probes[i] {
            Some(x) => Some(x as i64 * UNIT),
            None => None,
        };
        assert(int_of(t) == all[i as int]);
        r = take_higher(r, t);
        i = i + 1;
        assert(all.take(i as int).drop_last() =~= all.take(i - 1));
    }
    assert(all.take(all.len() as int) =~= all);
    r
}

/// A temperature sensor of another hardware monitor.
pub struct OhmSensor {
    pub name: Option<String>,
    pub value: Option<i64>,
}

/// The sensor is of the CPU's package.
pub open spec fn package_sensor(s: OhmSensor) -> bool {
    match s.name {
        Some(n) => occurs(n@, "CPU Package"@) || occurs(n@, "CPU (Tctl"@),
        None => false,
    }
}

/// The sensor is of the CPU.
pub open spec fn cpu_sensor(s: OhmSensor) -> bool {
    match s.name {
        Some(n) => occurs(lower(n@), "cpu"@),
        None => false,
    }
}

/// The first sensor of the package from `i` on, or their number.
pub open spec fn package_pick(s: Seq<OhmSensor>, i: int) -> int
    decreases s.len() - i,
{
    if i < 0 || i >= s.len() || package_sensor(s[i]) {
        i
    } else {
        package_pick(s, i + 1)
    }
}

/// The first sensor of the CPU from `i` on, or their number.
pub open spec fn cpu_pick(s: Seq<OhmSensor>, i: int) -> int
    decreases s.len() - i,
{
    if i < 0 || i >= s.len() || cpu_sensor(s[i]) {
        i
    } else {
        cpu_pick(s, i + 1)
    }
}

/// The sensor to take: the package's, else any of the CPU.
pub open spec fn ohm_pick(s: Seq<OhmSensor>) -> int {
    if package_pick(s, 0) < s.len() {
        package_pick(s, 0)
    } else {
        cpu_pick(s, 0)
    }
}

fn is_package_sensor(s: &OhmSensor) -> (r: bool)
    ensures
        r == package_sensor(*s),
{
    match &s.name {
        Some(n) => contains(n.as_str(), "CPU Package") || contains(n.as_str(), "CPU (Tctl"),
        None => false,
    }
}

fn is_cpu_sensor(s: &OhmSensor) -> (r: bool)
    ensures
        r == cpu_sensor(*s),
{
    match &s.name {
        Some(n) => contains(to_lower(n.as_str()).as_str(), "cpu"),
        None => false,
    }
}

/// The CPU temperature of another hardware monitor, and the sensor's name.
pub fn read_cpu_temp_ohm(sensors: &Vec<OhmSensor>) -> (r: Option<(i64, String)>)
    ensures
        ({
            let i = ohm_pick(sensors@);
            match r {
                Some((v, name)) => i < sensors@.len() && sensors@[i].value == Some(v) && name@
                    == or_text(sensors@[i].name, ""@),
                None => i >= sensors@.len() || sensors@[i].value is None,
            }
        }),
{
    let mut i: usize = 0;
    while i < sensors.len() && !is_package_sensor(&sensors[i])
        invariant
            i <= sensors.len(),
            package_pick(sensors@, 0) == package_pick(sensors@, i as int),
        decreases sensors.len() - i,
    {
        i = i + 1;
    }
    if i == sensors.len() {
        i = 0;
        while i < sensors.len() && !is_cpu_sensor(&sensors[i])
            invariant
                i <= sensors.len(),
                cpu_pick(sensors@, 0) == cpu_pick(sensors@, i as int),
            decreases sensors.len() - i,
        {
            i = i + 1;
        }
    }
    if i < sensors.len() {
        match sensors[i].value {
            Some(v) => Some((v, text_or(&sensors[i].name, ""))),
            None => None,
        }
    } else {
        None
    }
}

// ---------------------------------------------------------------------------
// Linux

/// The temperature in a file of the system, which counts thousandths of a
/// degree.
pub open spec fn millidegrees(text: Option<Seq<char>>) -> Option<int> {
    match text {
        Some(t) => match signed_whole(trimmed(t)) {
            Some(n) => Some(n * 1000),
            None => None,
        },
        None => None,
    }
}

/// A sensor of the system: what it is, and the file with its temperature.
pub struct SystemSensor {
    pub name: String,
    pub temp: Option<String>,
}

/// What a file says: nothing, or a value that may or may not be a temperature.
fn file_answer(text: &Option<String>, source: String) -> (r: Answer)
    ensures
        r.is(
            match millidegrees(text_of(*text)) {
                Some(v) => Some(TempView { celsius: v, source: source@ }),
                None => None,
            },
        ),
{
    match text {
        Some(t) => match parse_signed(trim(chars_of(t.as_str()).as_slice())) {
            Some(n) => {
                if n > 0 && n < 150_000 {
                    Answer::Value(TempReading::new(n * 1000, source))
                } else {
                    Answer::Value(None)
                }
            },
            None => Answer::Nothing,
        },
        None => Answer::Nothing,
    }
}

/// A thermal zone, its kind in lower case, is the CPU's.
pub open spec fn cpu_zone(kind: Seq<char>) -> bool {
    occurs(kind, "cpu"@) || occurs(kind, "x86_pkg"@) || occurs(kind, "soc"@)
}

/// Whether a thermal zone, its kind in lower case, is the CPU's.
pub fn is_cpu_zone(kind: &str) -> (r: bool)
    ensures
        r == cpu_zone(kind@),
{
    contains(kind, "cpu") || contains(kind, "x86_pkg") || contains(kind, "soc")
}

/// What a thermal zone says of the CPU.
pub open spec fn zone_offer(z: SystemSensor) -> Option<TempView> {
    let kind = lower(trimmed(z.name@));
    match millidegrees(text_of(z.temp)) {
        Some(v) if cpu_zone(kind) => Some(
            TempView { celsius: v, source: "thermal zone / "@ + kind },
        ),
        _ => None,
    }
}

/// What a hardware monitor of the system says of the CPU.
pub open spec fn monitor_offer(z: SystemSensor) -> Option<TempView> {
    let name = trimmed(z.name@);
    match millidegrees(text_of(z.temp)) {
        Some(v) if name == "coretemp"@ || name == "k10temp"@ || name == "zenpower"@ => Some(
            TempView { celsius: v, source: "hwmon / "@ + name },
        ),
        _ => None,
    }
}

/// What the first zone says, whatever it is of.
pub open spec fn zone0_offer(text: Option<Seq<char>>) -> Option<TempView> {
    match millidegrees(text) {
        Some(v) => Some(TempView { celsius: v, source: "thermal zone 0 (may be motherboard)"@ }),
        None => None,
    }
}

/// What the system's sensors say of the CPU, in the order in which they are
/// asked.
pub open spec fn linux_offers(
    zones: Seq<SystemSensor>,
    monitors: Seq<SystemSensor>,
    zone0: Option<Seq<char>>,
) -> Seq<Option<TempView>> {
    zones.map_values(|z: SystemSensor| zone_offer(z)) + monitors.map_values(
        |z: SystemSensor| monitor_offer(z),
    ) + seq![zone0_offer(zone0)]
}

/// The CPU temperature of a Linux machine.  CPU package sensors first
/// (x86_pkg_temp, coretemp, k10temp, zenpower); zone 0, often the
/// motherboard's, only as a last resort.
pub fn read_cpu_temp_linux(
    zones: &Vec<SystemSensor>,
    monitors: &Vec<SystemSensor>,
    zone0: &Option<String>,
) -> (r: Answer)
    ensures
        r.is(first_some(linux_offers(zones@, monitors@, text_of(*zone0)))),
{
    let ghost a = zones@.map_values(|z: SystemSensor| zone_offer(z));
    let ghost b = monitors@.map_values(|z: SystemSensor| monitor_offer(z));
    let ghost o = linux_offers(zones@, monitors@, text_of(*zone0));
    assert(o =~= a + b + seq![zone0_offer(text_of(*zone0))]);
    assert(o.skip(0) =~= o);
    let mut i: usize = 0;
    while i < zones.len()
        invariant
            i <= zones.len(),
            o == linux_offers(zones@, monitors@, text_of(*zone0)),
            a == zones@.map_values(|z: SystemSensor| zone_offer(z)),
            b == monitors@.map_values(|z: SystemSensor| monitor_offer(z)),
            o == a + b + seq![zone0_offer(text_of(*zone0))],
            first_some(o) == first_some(o.skip(i as int)),
        decreases zones.len() - i,
    {
        proof {
            lemma_first_some(o, i as int);
            assert(o[i as int] == zone_offer(zones@[i as int]));
        }
        let kind = to_lower(trim_str(zones[i].name.as_str()).as_str());
        if is_cpu_zone(kind.as_str()) {
            let answer = file_answer(&zones[i].temp, prefixed("thermal zone / ", kind.as_str()));
            match answer {
                Answer::Value(t) => {
                    return Answer::Value(t);
                },
                Answer::Nothing => {},
            }
        }
        i = i + 1;
    }
    let mut k: usize = 0;
    while k < monitors.len()
        invariant
            k <= monitors.len(),
            o == linux_offers(zones@, monitors@, text_of(*zone0)),
            a == zones@.map_values(|z: SystemSensor| zone_offer(z)),
            b == monitors@.map_values(|z: SystemSensor| monitor_offer(z)),
            o == a + b + seq![zone0_offer(text_of(*zone0))],
            first_some(o) == first_some(o.skip(zones.len() + k)),
        decreases monitors.len() - k,
    {
        proof {
            lemma_first_some(o, zones.len() + k);
            assert(o[zones.len() + k] == b[k as int]);
        }
        let name = trim_str(monitors[k].name.as_str());
        if same(name.as_str(), "coretemp") || same(name.as_str(), "k10temp") || same(
            name.as_str(),
            "zenpower",
        ) {
            let answer = file_answer(&monitors[k].temp, prefixed("hwmon / ", name.as_str()));
            match answer {
                Answer::Value(t) => {
                    return Answer::Value(t);
                },
                Answer::Nothing => {},
            }
        }
        k = k + 1;
    }
    proof {
        lemma_first_some(o, zones.len() + k);
        lemma_first_some(o, zones.len() + k + 1);
    }
    file_answer(zone0, owned("thermal zone 0 (may be motherboard)"))
}

/// The first file from `i` on that holds a value, or their number.
pub open spec fn value_pick(files: Seq<Option<String>>, i: int) -> int
    decreases files.len() - i,
{
    if i < 0 || i >= files.len() || millidegrees(text_of(files[i])) is Some {
        i
    } else {
        value_pick(files, i + 1)
    }
}

/// What the files of a card say of its temperature: the first value counts.
pub open spec fn card_offer(files: Seq<Option<String>>, source: Seq<char>) -> Option<TempView> {
    let i = value_pick(files, 0);
    if i < files.len() {
        Some(TempView { celsius: millidegrees(text_of(files[i]))->0, source })
    } else {
        None
    }
}

/// What the files of a card say of its temperature.
fn read_hwmon_temp(files: &Vec<Option<String>>, source: &str) -> (r: Answer)
    ensures
        r.is(card_offer(files@, source@)),
{
    let mut i: usize = 0;
    while i < files.len()
        invariant
            i <= files.len(),
            value_pick(files@, 0) == value_pick(files@, i as int),
        decreases files.len() - i,
    {
        match file_answer(&files[i], owned(source)) {
            Answer::Value(t) => {
                return Answer::Value(t);
            },
            Answer::Nothing => {},
        }
        i = i + 1;
    }
    Answer::Nothing
}

/// What the sources of a Linux machine say of a card, in the order in which
/// they are asked.
pub open spec fn linux_gpu_offers(
    nvidia: Option<(i64, NvSource)>,
    own: Seq<Option<String>>,
    any: Seq<Option<String>>,
    multi: bool,
) -> Seq<Option<TempView>> {
    seq![
        nvidia_gpu(nvidia),
        card_offer(own, "amdgpu / edge"@),
        if multi {
            None
        } else {
            card_offer(any, "hwmon / GPU"@)
        },
    ]
}

/// The temperature of a card in a Linux machine: by its driver, by the files
/// of its device, or, where it is the only one, by those of any card.
pub fn read_gpu_linux(
    nvidia: &Option<(i64, NvSource)>,
    own: &Vec<Option<String>>,
    any: &Vec<Option<String>>,
    multi: bool,
) -> (r: Answer)
    ensures
        r.is(first_some(linux_gpu_offers(*nvidia, own@, any@, multi))),
{
    proof {
        let o = linux_gpu_offers(*nvidia, own@, any@, multi);
        lemma_first_some(o, 0);
        lemma_first_some(o, 1);
        lemma_first_some(o, 2);
        lemma_first_some(o, 3);
        assert(o.skip(0) =~= o);
    }
    match nvidia {
        Some((t, source)) => {
            return Answer::Value(TempReading::new(*t, owned(source.text())));
        },
        None => {},
    }
    match read_hwmon_temp(own, "amdgpu / edge") {
        Answer::Value(t) => {
            return Answer::Value(t);
        },
        Answer::Nothing => {},
    }
    if multi {
        return Answer::Nothing;
    }
    read_hwmon_temp(any, "hwmon / GPU")
}

/// The load in a driver's file.
pub open spec fn busy_percent(text: Option<Seq<char>>) -> Option<int> {
    match text {
        Some(t) => millionths(trimmed(t)),
        None => None,
    }
}

/// The load of a card in a Linux machine.
pub open spec fn linux_load(driver: Option<int>, busy: Option<Seq<char>>) -> Option<int> {
    if driver is Some {
        driver
    } else {
        busy_percent(busy)
    }
}

/// GPU load (%) in a Linux machine: by the card's driver, or by its file.
pub fn read_gpu_usage_linux(nvidia: Option<i64>, busy: &Option<String>) -> (r: Option<i64>)
    ensures
        int_of(r) == linux_load(int_of(nvidia), text_of(*busy)),
{
    match nvidia {
        Some(u) => Some(u),
        None => match busy {
            Some(t) => parse_millionths(trim(chars_of(t.as_str()).as_slice())),
            None => None,
        },
    }
}

// ---------------------------------------------------------------------------
// macOS

/// The first of the words from `i` on that is a temperature that can be.
pub open spec fn temp_word(ws: Seq<Seq<char>>, i: int) -> Option<int>
    decreases ws.len() - i,
{
    if i < 0 || i >= ws.len() {
        None
    } else {
        match millionths(ws[i]) {
            Some(v) if 0 < v < 150 * UNIT => Some(v),
            _ => temp_word(ws, i + 1),
        }
    }
}

/// A line that says the temperature: one that, in lower case, holds one of two
/// texts.
pub open spec fn tells(line: Seq<char>, a: Seq<char>, b: Seq<char>) -> bool {
    occurs(lower(line), a) || occurs(lower(line), b)
}

/// The first temperature on lines from `i` on that say it.
pub open spec fn told_temp(ls: Seq<Seq<char>>, a: Seq<char>, b: Seq<char>, i: int) -> Option<int>
    decreases ls.len() - i,
{
    if i < 0 || i >= ls.len() {
        None
    } else if tells(ls[i], a, b) && temp_word(words(ls[i]), 0) is Some {
        temp_word(words(ls[i]), 0)
    } else {
        told_temp(ls, a, b, i + 1)
    }
}

fn find_temp_word(line: &[char]) -> (r: Option<i64>)
    ensures
        int_of(r) == temp_word(words(line@), 0),
        r is Some ==> 0 < r->0 < 150 * UNIT,
{
    let ws: Vec<Vec<char>> = words_of(line);
    let ghost all = char_views(ws@);
    let mut i: usize = 0;
    while i < ws.len()
        invariant
            i <= ws.len(),
            all == char_views(ws@),
            all == words(line@),
            temp_word(all, 0) == temp_word(all, i as int),
        decreases ws.len() - i,
    {
        assert(all[i as int] == ws@[i as int]@);
        match parse_millionths(ws[i].as_slice()) {
            Some(v) => {
                if v > 0 && v < 150 * UNIT {
                    return Some(v);
                }
            },
            None => {},
        }
        i = i + 1;
    }
    None
}

/// The temperature in the output of `powermetrics`, on a line that holds one
/// of two texts.
pub fn powermetrics_value(out: &str, a: &str, b: &str) -> (r: Option<i64>)
    ensures
        int_of(r) == told_temp(lines(out@), a@, b@, 0),
        r is Some ==> 0 < r->0 < 150 * UNIT,
{
    let ls: Vec<Vec<char>> = lines_of(chars_of(out).as_slice());
    let ghost all = char_views(ls@);
    let mut i: usize = 0;
    while i < ls.len()
        invariant
            i <= ls.len(),
            all == char_views(ls@),
            all == lines(out@),
            told_temp(all, a@, b@, 0) == told_temp(all, a@, b@, i as int),
        decreases ls.len() - i,
    {
        assert(all[i as int] == ls@[i as int]@);
        let low = to_lower(string_of(ls[i].as_slice()).as_str());
        if contains(low.as_str(), a) || contains(low.as_str(), b) {
            match find_temp_word(ls[i].as_slice()) {
                Some(v) => {
                    return Some(v);
                },
                None => {},
            }
        }
        i = i + 1;
    }
    None
}

/// The first temperature on lines from `i` on that name the CPU's.
pub open spec fn sysctl_temp(ls: Seq<Seq<char>>, i: int) -> Option<int>
    decreases ls.len() - i,
{
    if i < 0 || i >= ls.len() {
        None
    } else if occurs(ls[i], "temperature"@) && occurs(ls[i], "CPU"@) && temp_word(
        words(ls[i]),
        0,
    ) is Some {
        temp_word(words(ls[i]), 0)
    } else {
        sysctl_temp(ls, i + 1)
    }
}

/// The CPU temperature in the output of `sysctl`, which some versions have.
pub fn read_cpu_temp_sysctl(out: &str) -> (r: Option<i64>)
    ensures
        int_of(r) == sysctl_temp(lines(out@), 0),
        r is Some ==> 0 < r->0 < 150 * UNIT,
{
    let ls: Vec<Vec<char>> = lines_of(chars_of(out).as_slice());
    let ghost all = char_views(ls@);
    let mut i: usize = 0;
    while i < ls.len()
        invariant
            i <= ls.len(),
            all == char_views(ls@),
            all == lines(out@),
            sysctl_temp(all, 0) == sysctl_temp(all, i as int),
        decreases ls.len() - i,
    {
        assert(all[i as int] == ls@[i as int]@);
        let line = string_of(ls[i].as_slice());
        if contains(line.as_str(), "temperature") && contains(line.as_str(), "CPU") {
            match find_temp_word(ls[i].as_slice()) {
                Some(v) => {
                    return Some(v);
                },
                None => {},
            }
        }
        i = i + 1;
    }
    None
}

/// The CPU temperature of a Mac: by `powermetrics`, else by `sysctl`.
pub open spec fn mac_cpu(powermetrics: Option<Seq<char>>, sysctl: Option<Seq<char>>) -> Option<
    TempView,
> {
    let p = match powermetrics {
        Some(t) => told_temp(lines(t), "cpu die temperature"@, "cpu thermal level"@, 0),
        None => None,
    };
    let s = match sysctl {
        Some(t) => sysctl_temp(lines(t), 0),
        None => None,
    };
    match p {
        Some(v) => Some(TempView { celsius: v, source: "powermetrics / CPU die"@ }),
        None => match s {
            Some(v) => Some(TempView { celsius: v, source: "sysctl"@ }),
            None => None,
        },
    }
}

/// The CPU temperature of a Mac: by `powermetrics`, else by `sysctl`.
pub fn read_cpu_mac(powermetrics: &Option<String>, sysctl: &Option<String>) -> (r: Option<
    TempReading,
>)
    ensures
        temp_of(r) == mac_cpu(text_of(*powermetrics), text_of(*sysctl)),
{
    match powermetrics {
        Some(t) => match powermetrics_value(
            t.as_str(),
            "cpu die temperature",
            "cpu thermal level",
        ) {
            Some(v) => {
                return Some(
                    TempReading { celsius: v, source: owned("powermetrics / CPU die") },
                );
            },
            None => {},
        },
        None => {},
    }
    match sysctl {
        Some(t) => match read_cpu_temp_sysctl(t.as_str()) {
            Some(v) => Some(TempReading { celsius: v, source: owned("sysctl") }),
            None => None,
        },
        None => None,
    }
}

/// The GPU temperature of a Mac: by the card's driver, else by `powermetrics`.
pub open spec fn mac_gpu(driver: Option<TempView>, powermetrics: Option<Seq<char>>) -> Option<
    TempView,
> {
    match driver {
        Some(t) => sane_temp(t.celsius, t.source),
        None => match powermetrics {
            Some(t) => match told_temp(
                lines(t),
                "gpu die temperature"@,
                "gpu thermal level"@,
                0,
            ) {
                Some(v) => Some(TempView { celsius: v, source: "powermetrics / GPU die"@ }),
                None => None,
            },
            None => None,
        },
    }
}

/// The GPU temperature of a Mac: by the card's driver, else by `powermetrics`.
pub fn read_gpu_mac(nvidia: &Option<(i64, NvSource)>, powermetrics: &Option<String>) -> (r: Option<
    TempReading,
>)
    ensures
        temp_of(r) == mac_gpu(nvidia_gpu(*nvidia), text_of(*powermetrics)),
{
    match nvidia {
        Some((t, source)) => {
            return TempReading::new(*t, owned(source.text()));
        },
        None => {},
    }
    match powermetrics {
        Some(t) => match powermetrics_value(
            t.as_str(),
            "gpu die temperature",
            "gpu thermal level",
        ) {
            Some(v) => Some(
                TempReading { celsius: v, source: owned("powermetrics / GPU die") },
            ),
            None => None,
        },
        None => None,
    }
}

// ---------------------------------------------------------------------------
// Diagnostics

/// A temperature with its unit.
pub open spec fn degrees(v: int) -> Seq<char> {
    shown_tenths(v) + "°C"@
}

fn push_degrees(out: &mut String, v: i64)
    ensures
        final(out)@ == old(out)@ + degrees(v as int),
{
    let ghost start = out@;
    push_tenths(out, v);
    out.append("°C");
    assert(out@ =~= start + degrees(v as int));
}

/// A temperature above absolute zero, in degrees Celsius with one digit behind
/// the point: as the difference of two doubles has them.
pub open spec fn celsius_text(kelvin: int) -> Seq<char> {
    let d = above_freezing(kelvin);
    minus_of(d) + tenths_text(half_even(magnitude(d) * 10, one())) + "°C"@
}

/// Tenths of a kelvin, in degrees Celsius with their unit.
pub open spec fn decikelvin_text(t: u32) -> Seq<char> {
    celsius_text(nearest(t * one(), 10))
}

/// Kelvin, in degrees Celsius with their unit.
pub open spec fn kelvin_text(t: u32) -> Seq<char> {
    celsius_text(nearest(t * one(), 1))
}

fn push_celsius(out: &mut String, kelvin: &Binary)
    requires
        kelvin.moderate(),
        !kelvin.negative,
    ensures
        final(out)@ == old(out)@ + celsius_text(kelvin.size()),
{
    let ghost start = out@;
    let d = difference(kelvin, &quotient(27_315, 100));
    d.push_shown(out);
    out.append("°C");
    proof {
        d.lemma_size();
        lemma_near(
            if kelvin.size() < freezing() {
                freezing() - kelvin.size()
            } else {
                kelvin.size() - freezing()
            },
            1,
        );
    }
    assert(out@ =~= start + celsius_text(kelvin.size()));
}

fn push_decikelvin(out: &mut String, t: u32)
    ensures
        final(out)@ == old(out)@ + decikelvin_text(t),
{
    push_celsius(out, &quotient(t, 10));
}

fn push_kelvin(out: &mut String, t: u32)
    ensures
        final(out)@ == old(out)@ + kelvin_text(t),
{
    push_celsius(out, &quotient(t, 1));
}

/// The first `n` ACPI zones as text.
pub open spec fn acpi_text(zones: Seq<Option<u32>>, n: int) -> Seq<char>
    decreases n,
{
    if n <= 0 {
        "Found "@ + dec(zones.len()) + " zone(s):"@
    } else {
        acpi_text(zones, n - 1) + " Zone"@ + dec((n - 1) as nat) + match zones[n - 1] {
            Some(t) => ": "@ + decikelvin_text(t) + " (raw: "@ + dec(t as nat) + ")"@,
            None => ": null"@,
        }
    }
}

/// The ACPI zones as text.
pub fn debug_read_cpu_temp_wmi(zones: &Vec<Option<u32>>) -> (r: String)
    ensures
        r@ == if zones@.len() == 0 {
            "No thermal zones found"@
        } else {
            acpi_text(zones@, zones@.len() as int)
        },
{
    if zones.len() == 0 {
        return owned("No thermal zones found");
    }
    let mut out = String::new();
    out.append("Found ");
    push_dec(&mut out, zones.len() as u64);
    out.append(" zone(s):");
    assert(out@ =~= acpi_text(zones@, 0));
    let mut i: usize = 0;
    while i < zones.len()
        invariant
            i <= zones.len(),
            out@ == acpi_text(zones@, i as int),
        decreases zones.len() - i,
    {
        out.append(" Zone");
        push_dec(&mut out, i as u64);
        match zones[i] {
            Some(t) => {
                out.append(": ");
                push_decikelvin(&mut out, t);
                out.append(" (raw: ");
                push_dec(&mut out, t as u64);
                out.append(")");
            },
            None => {
                out.append(": null");
            },
        }
        i = i + 1;
        assert(out@ =~= acpi_text(zones@, i as int));
    }
    out
}

/// The first `n` zones of the performance counters as text.
pub open spec fn perf_text(zones: Seq<PerfZone>, n: int) -> Seq<char>
    decreases n,
{
    if n <= 0 {
        "Found "@ + dec(zones.len()) + " zone(s):"@
    } else {
        let z = zones[n - 1];
        perf_text(zones, n - 1) + " ["@ + or_text(z.name, "?"@) + "="@ + (
        match z.high_precision {
            Some(t) => decikelvin_text(t) + " (HP: "@ + dec(t as nat) + ")"@,
            None => match z.temperature {
                Some(t) => kelvin_text(t) + " (raw: "@ + dec(t as nat) + ")"@,
                None => "null"@,
            },
        }) + "]"@
    }
}

/// The zones of the performance counters as text.
pub fn debug_read_cpu_temp_perfcounter(zones: &Vec<PerfZone>) -> (r: String)
    ensures
        r@ == if zones@.len() == 0 {
            "No performance counter thermal zones found"@
        } else {
            perf_text(zones@, zones@.len() as int)
        },
{
    if zones.len() == 0 {
        return owned("No performance counter thermal zones found");
    }
    let mut out = String::new();
    out.append("Found ");
    push_dec(&mut out, zones.len() as u64);
    out.append(" zone(s):");
    assert(out@ =~= perf_text(zones@, 0));
    let mut i: usize = 0;
    while i < zones.len()
        invariant
            i <= zones.len(),
            out@ == perf_text(zones@, i as int),
        decreases zones.len() - i,
    {
        let z: &PerfZone = &zones[i];
        let name = text_or(&z.name, "?");
        out.append(" [");
        out.append(name.as_str());
        out.append("=");
        match z.high_precision {
            Some(t) => {
                push_decikelvin(&mut out, t);
                out.append(" (HP: ");
                push_dec(&mut out, t as u64);
                out.append(")");
            },
            None => match z.temperature {
                Some(t) => {
                    push_kelvin(&mut out, t);
                    out.append(" (raw: ");
                    push_dec(&mut out, t as u64);
                    out.append(")");
                },
                None => {
                    out.append("null");
                },
            },
        }
        out.append("]");
        i = i + 1;
        assert(out@ =~= perf_text(zones@, i as int));
    }
    out
}

/// The first `n` sensors of another hardware monitor as text.
pub open spec fn ohm_text(namespace: Seq<char>, sensors: Seq<OhmSensor>, n: int) -> Seq<char>
    decreases n,
{
    if n <= 0 {
        namespace + ": "@ + dec(sensors.len()) + " sensor(s) —"@
    } else {
        let s = sensors[n - 1];
        ohm_text(namespace, sensors, n - 1) + " ["@ + or_text(s.name, "?"@) + "="@ + (
        match s.value {
            Some(v) => degrees(v as int),
            None => "null"@,
        }) + "]"@
    }
}

/// The sensors of another hardware monitor as text.
pub fn debug_read_cpu_temp_ohm(namespace: &str, sensors: &Vec<OhmSensor>) -> (r: String)
    ensures
        r@ == if sensors@.len() == 0 {
            "No OHM/LHM WMI namespace available (neither LibreHardwareMonitor nor OpenHardwareMonitor running)"@
        } else {
            ohm_text(namespace@, sensors@, sensors@.len() as int)
        },
{
    if sensors.len() == 0 {
        return owned(
            "No OHM/LHM WMI namespace available (neither LibreHardwareMonitor nor OpenHardwareMonitor running)",
        );
    }
    let mut out = String::new();
    out.append(namespace);
    out.append(": ");
    push_dec(&mut out, sensors.len() as u64);
    out.append(" sensor(s) —");
    assert(out@ =~= ohm_text(namespace@, sensors@, 0));
    let mut i: usize = 0;
    while i < sensors.len()
        invariant
            i <= sensors.len(),
            out@ == ohm_text(namespace@, sensors@, i as int),
        decreases sensors.len() - i,
    {
        let s: &OhmSensor = &sensors[i];
        let name = text_or(&s.name, "?");
        out.append(" [");
        out.append(name.as_str());
        out.append("=");
        match s.value {
            Some(v) => {
                push_degrees(&mut out, v);
            },
            None => {
                out.append("null");
            },
        }
        out.append("]");
        i = i + 1;
        assert(out@ =~= ohm_text(namespace@, sensors@, i as int));
    }
    out
}

// ---------------------------------------------------------------------------
// Which source is believed

/// A reading is one of a temperature above 0 °C and under 150 °C, and keeps it.
pub proof fn lemma_sane_temp(celsius: int, source: Seq<char>)
    ensures
        sane_temp(celsius, source) is Some <==> 0 < celsius < 150_000_000,
        sane_temp(celsius, source) is Some ==> sane_temp(celsius, source)->0.celsius == celsius
            && sane_temp(celsius, source)->0.source == source,
{
}

/// The first value is there exactly if any is, and is one of those offered.
proof fn lemma_first_some_is(s: Seq<Option<TempView>>)
    ensures
        match first_some(s) {
            Some(v) => exists|i: int|
                0 <= i < s.len() && #[trigger] s[i] == Some(v) && forall|j: int|
                    0 <= j < i ==> (#[trigger] s[j]) is None,
            None => forall|i: int| 0 <= i < s.len() ==> (#[trigger] s[i]) is None,
        },
    decreases s.len(),
{
    if s.len() > 0 {
        if s[0] is Some {
            assert(s[0] == first_some(s));
        } else {
            let t = s.skip(1);
            lemma_first_some_is(t);
            assert(forall|j: int| 0 <= j < t.len() ==> t[j] == s[j + 1]);
            if first_some(t) is Some {
                let v = first_some(t)->0;
                let i = choose|i: int|
                    0 <= i < t.len() && #[trigger] t[i] == Some(v) && forall|j: int|
                        0 <= j < i ==> (#[trigger] t[j]) is None;
                assert(s[i + 1] == Some(v));
                assert forall|j: int| 0 <= j < i + 1 implies (#[trigger] s[j]) is None by {
                    if j > 0 {
                        assert(t[j - 1] is None);
                    }
                }
            } else {
                assert forall|i: int| 0 <= i < s.len() implies (#[trigger] s[i]) is None by {
                    if i > 0 {
                        assert(t[i - 1] is None);
                    }
                }
            }
        }
    }
}

/// The CPU temperature of a Windows machine: shared memory is believed before
/// the helper, and both before what the system itself reports.
pub proof fn lemma_cpu_order(s: Sources)
    ensures
        ({
            let r = first_some(cpu_offers(s));
            let hwinfo = s.hwinfo is Some && s.hwinfo->0.cpu_temp is Some;
            let afterburner = s.afterburner is Some && s.afterburner->0.cpu_temp is Some;
            let aida64 = s.aida64 is Some && s.aida64->0.cpu_temp is Some;
            let coretemp = s.coretemp is Some && s.coretemp->0.cpu_temp is Some;
            let lhm = s.lhm is Some && s.lhm->0.cpu_temp is Some;
            let shared = hwinfo || afterburner || aida64 || coretemp;
            &&& r is Some <==> shared || lhm || s.acpi is Some || s.ohm is Some || s.perf is Some
            &&& hwinfo ==> r->0.celsius == s.hwinfo->0.cpu_temp->0
            &&& !hwinfo && afterburner ==> r->0.celsius == s.afterburner->0.cpu_temp->0
            &&& !hwinfo && !afterburner && aida64 ==> r->0.celsius == s.aida64->0.cpu_temp->0
            &&& !hwinfo && !afterburner && !aida64 && coretemp ==> r->0.celsius
                == s.coretemp->0.cpu_temp->0
            &&& !shared && lhm ==> r->0.celsius == s.lhm->0.cpu_temp->0
            &&& !shared && !lhm && s.acpi is Some ==> r->0.celsius == s.acpi->0
            &&& !shared && !lhm && s.acpi is None && s.ohm is Some ==> r->0.celsius == (s.ohm->0).0
            &&& !shared && !lhm && s.acpi is None && s.ohm is None && s.perf is Some
                ==> r->0.celsius == s.perf->0
        }),
{
    let o = cpu_offers(s);
    lemma_first_some(o, 0);
    lemma_first_some(o, 1);
    lemma_first_some(o, 2);
    lemma_first_some(o, 3);
    lemma_first_some(o, 4);
    lemma_first_some(o, 5);
    lemma_first_some(o, 6);
    lemma_first_some(o, 7);
    lemma_first_some(o, 8);
    assert(o.skip(0) =~= o);
}

/// With several cards, the sources that do not say which card they read are not
/// asked: whatever AIDA64 and the probes report, the answer is the same.
pub proof fn lemma_nameless_sources_do_not_matter(a: Sources, b: Sources, name: Seq<char>)
    requires
        a.nvidia == b.nvidia,
        a.hwinfo == b.hwinfo,
        a.afterburner == b.afterburner,
        a.lhm == b.lhm,
    ensures
        first_some(gpu_offers(a, name, true)) == first_some(gpu_offers(b, name, true)),
{
    assert(gpu_offers(a, name, true) =~= gpu_offers(b, name, true));
}

/// What the helper says of the card: of several cards it is one whose name is
/// the card's, the first of them; of one card it may be the last that it lists.
pub proof fn lemma_helper_choice(r: Option<LhmSample>, name: Seq<char>, multi: bool)
    ensures
        match lhm_choice(r, name, multi) {
            Some(g) => {
                let gpus = lhm_views(r->0.gpus@);
                &&& r is Some
                &&& exists|i: int|
                    0 <= i < gpus.len() && #[trigger] gpus[i] == g && if names_match(
                        name,
                        g.name,
                    ) {
                        forall|j: int|
                            0 <= j < i ==> !names_match(name, (#[trigger] gpus[j]).name)
                    } else {
                        !multi && i == gpus.len() - 1 && forall|j: int|
                            0 <= j < gpus.len() ==> !names_match(name, (#[trigger] gpus[j]).name)
                    }
            },
            None => r is Some ==> {
                let gpus = lhm_views(r->0.gpus@);
                &&& multi || gpus.len() == 0
                &&& forall|j: int|
                    0 <= j < gpus.len() ==> !names_match(name, (#[trigger] gpus[j]).name)
            },
        },
{
    if r is Some {
        let gpus = lhm_views(r->0.gpus@);
        assert(r->0@.gpus == gpus);
        lemma_lhm_pick(name, gpus, 0);
        let i = lhm_pick(name, gpus, 0);
        if i < gpus.len() {
            assert(gpus[i] == lhm_choice(r, name, multi)->0);
        } else if !multi && gpus.len() > 0 {
            assert(gpus[gpus.len() - 1] == lhm_choice(r, name, multi)->0);
        }
    }
}

proof fn lemma_lhm_pick(name: Seq<char>, gpus: Seq<LhmGpuView>, i: int)
    requires
        0 <= i <= gpus.len(),
    ensures
        i <= lhm_pick(name, gpus, i) <= gpus.len(),
        forall|j: int|
            i <= j < lhm_pick(name, gpus, i) ==> !names_match(name, (#[trigger] gpus[j]).name),
        lhm_pick(name, gpus, i) < gpus.len() ==> names_match(
            name,
            gpus[lhm_pick(name, gpus, i)].name,
        ),
    decreases gpus.len() - i,
{
    if i < gpus.len() && !names_match(name, gpus[i].name) {
        lemma_lhm_pick(name, gpus, i + 1);
    }
}

/// The temperature of a card in a Windows machine: its own driver is believed
/// before shared memory, this before the helper, and the probes last.
pub proof fn lemma_gpu_order(s: Sources, name: Seq<char>, multi: bool)
    ensures
        ({
            let r = first_some(gpu_offers(s, name, multi));
            let hwinfo = s.hwinfo is Some && s.hwinfo->0.gpu_temp is Some;
            let afterburner = s.afterburner is Some && s.afterburner->0.gpu_temp is Some;
            let aida64 = !multi && s.aida64 is Some && s.aida64->0.gpu_temp is Some;
            let g = lhm_choice(s.lhm, name, multi);
            let lhm = g is Some && g->0.temp is Some;
            let shared = hwinfo || afterburner || aida64;
            let probe = !multi && s.probe is Some;
            &&& r is Some <==> s.nvidia is Some || shared || lhm || probe
            &&& s.nvidia is Some ==> r->0.celsius == (s.nvidia->0).0
            &&& s.nvidia is None && hwinfo ==> r->0.celsius == s.hwinfo->0.gpu_temp->0
            &&& s.nvidia is None && !hwinfo && afterburner ==> r->0.celsius
                == s.afterburner->0.gpu_temp->0
            &&& s.nvidia is None && !hwinfo && !afterburner && aida64 ==> r->0.celsius
                == s.aida64->0.gpu_temp->0
            &&& s.nvidia is None && !shared && lhm ==> r->0.celsius == g->0.temp->0
            &&& s.nvidia is None && !shared && !lhm && probe ==> r->0.celsius == s.probe->0
        }),
{
    let o = gpu_offers(s, name, multi);
    lemma_first_some(o, 0);
    lemma_first_some(o, 1);
    lemma_first_some(o, 2);
    lemma_first_some(o, 3);
    lemma_first_some(o, 4);
    lemma_first_some(o, 5);
    lemma_first_some(o, 6);
    assert(o.skip(0) =~= o);
}

/// Of several cards the load that the helper gives is the card's own: it is
/// listed under its name.  The driver is believed first, then HWiNFO, then
/// Afterburner.
pub proof fn lemma_load_order(s: Sources, name: Seq<char>, multi: bool)
    ensures
        ({
            let r = gpu_load(s, name, multi);
            let afterburner = s.afterburner is Some && s.afterburner->0.gpu_usage is Some;
            let others = s.nvidia_load is Some || s.hwinfo_load is Some || afterburner;
            &&& s.nvidia_load is Some ==> r == Some(s.nvidia_load->0 as int)
            &&& s.nvidia_load is None && s.hwinfo_load is Some ==> r == Some(
                s.hwinfo_load->0 as int,
            )
            &&& s.nvidia_load is None && s.hwinfo_load is None && afterburner ==> r == Some(
                s.afterburner->0.gpu_usage->0 as int,
            )
            &&& !others && multi && r is Some ==> s.lhm is Some && exists|i: int|
                0 <= i < lhm_views(s.lhm->0.gpus@).len() && names_match(
                    name,
                    (#[trigger] lhm_views(s.lhm->0.gpus@)[i]).name,
                ) && lhm_views(s.lhm->0.gpus@)[i].load == r
        }),
{
    lemma_helper_choice(s.lhm, name, multi);
    if s.lhm is Some && lhm_choice(s.lhm, name, multi) is Some {
        let g = lhm_choice(s.lhm, name, multi)->0;
        let gpus = lhm_views(s.lhm->0.gpus@);
        let i = choose|i: int| 0 <= i < gpus.len() && #[trigger] gpus[i] == g;
        assert(gpus[i] == g);
    }
}

/// Kelvin and degrees Celsius lie 273.15 apart, to the millionth.
pub proof fn lemma_kelvin(t: u32)
    ensures
        t * 100_000 - 273_150_001 <= from_decikelvin(t) <= t * 100_000 - 273_149_999,
        t * 1_000_000 - 273_150_001 <= from_kelvin(t) <= t * 1_000_000 - 273_149_999,
{
}

/// The temperature of the ACPI zones is that of the hottest.
pub proof fn lemma_hottest_zone(zones: Seq<Option<u32>>)
    ensures
        ({
            let r = highest(zones.map_values(|t: Option<u32>| acpi_celsius(t)));
            &&& forall|i: int|
                0 <= i < zones.len() && (#[trigger] zones[i]) is Some ==> r is Some && r->0
                    >= zones[i]->0 * 100_000 - 273_150_001
            &&& r is Some ==> exists|i: int|
                0 <= i < zones.len() && (#[trigger] zones[i]) is Some && r->0 <= zones[i]->0
                    * 100_000 - 273_149_999
        }),
{
    let all = zones.map_values(|t: Option<u32>| acpi_celsius(t));
    lemma_highest(all);
    assert forall|i: int| 0 <= i < zones.len() && (#[trigger] zones[i]) is Some implies highest(
        all,
    ) is Some && highest(all)->0 >= zones[i]->0 * 100_000 - 273_150_001 by {
        lemma_kelvin(zones[i]->0);
        assert(all[i] is Some);
    }
    if highest(all) is Some {
        let i = choose|i: int| 0 <= i < all.len() && all[i] == highest(all);
        assert(zones[i] is Some);
        lemma_kelvin(zones[i]->0);
    }
}

/// The temperature of the probes is that of the hottest, in degrees.
pub proof fn lemma_hottest_probe(probes: Seq<Option<u32>>)
    ensures
        ({
            let r = highest(probes.map_values(|t: Option<u32>| probe_celsius(t)));
            &&& forall|i: int|
                0 <= i < probes.len() && (#[trigger] probes[i]) is Some ==> r is Some && r->0
                    >= probes[i]->0 * 1_000_000
            &&& r is Some ==> exists|i: int|
                0 <= i < probes.len() && (#[trigger] probes[i]) is Some && r->0 == probes[i]->0
                    * 1_000_000
        }),
{
    let all = probes.map_values(|t: Option<u32>| probe_celsius(t));
    lemma_highest(all);
    assert forall|i: int| 0 <= i < probes.len() && (#[trigger] probes[i]) is Some implies highest(
        all,
    ) is Some && highest(all)->0 >= probes[i]->0 * 1_000_000 by {
        assert(all[i] is Some);
    }
    if highest(all) is Some {
        let i = choose|i: int| 0 <= i < all.len() && all[i] == highest(all);
        assert(probes[i] is Some);
    }
}

/// The temperature of the performance counters is that of the hottest zone
/// among those between 0 °C and 150 °C; a zone's precise value counts where it
/// has one.
pub proof fn lemma_hottest_counter(zones: Seq<PerfZone>, i: int)
    requires
        0 <= i < zones.len(),
    ensures
        ({
            let r = highest(zones.map_values(|z: PerfZone| kept_sane(perf_celsius(z))));
            let z = zones[i];
            &&& r is Some ==> 0 < r->0 < 150_000_000
            &&& z.high_precision is Some && 2732 <= z.high_precision->0 <= 4231 ==> r is Some
                && r->0 >= z.high_precision->0 * 100_000 - 273_150_001
            &&& z.high_precision is None && z.temperature is Some && 274 <= z.temperature->0 <= 423
                ==> r is Some && r->0 >= z.temperature->0 * 1_000_000 - 273_150_001
            &&& r is Some ==> exists|k: int|
                0 <= k < zones.len() && match (#[trigger] zones[k]).high_precision {
                    Some(t) => t * 100_000 - 273_150_001 <= r->0 <= t * 100_000 - 273_149_999,
                    None => zones[k].temperature is Some && zones[k].temperature->0 * 1_000_000
                        - 273_150_001 <= r->0 <= zones[k].temperature->0 * 1_000_000
                        - 273_149_999,
                }
        }),
{
    let all = zones.map_values(|z: PerfZone| kept_sane(perf_celsius(z)));
    lemma_highest(all);
    let z = zones[i];
    if z.high_precision is Some {
        lemma_kelvin(z.high_precision->0);
    } else if z.temperature is Some {
        lemma_kelvin(z.temperature->0);
    }
    assert(all[i] == kept_sane(perf_celsius(z)));
    if highest(all) is Some {
        let k = choose|k: int| 0 <= k < all.len() && all[k] == highest(all);
        assert(all[k] == kept_sane(perf_celsius(zones[k])));
        if zones[k].high_precision is Some {
            lemma_kelvin(zones[k].high_precision->0);
        } else {
            lemma_kelvin(zones[k].temperature->0);
        }
    }
}

/// A sensor's name says that it is of the CPU's package.
pub open spec fn names_package(s: OhmSensor) -> bool {
    s.name is Some && (occurs(s.name->0@, "CPU Package"@) || occurs(s.name->0@, "CPU (Tctl"@))
}

/// Of another hardware monitor's sensors the first of the CPU's package is
/// taken; where none is, the first whose name, in lower case, holds "cpu".
pub proof fn lemma_monitor_choice(s: Seq<OhmSensor>)
    ensures
        ({
            let i = ohm_pick(s);
            &&& 0 <= i <= s.len()
            &&& (exists|k: int| 0 <= k < s.len() && names_package(#[trigger] s[k])) ==> i < s.len()
                && names_package(s[i]) && forall|k: int|
                    0 <= k < i ==> !names_package(#[trigger] s[k])
            &&& (forall|k: int| 0 <= k < s.len() ==> !names_package(#[trigger] s[k])) ==> {
                &&& i < s.len() ==> s[i].name is Some && occurs(lower(s[i].name->0@), "cpu"@)
                &&& forall|k: int|
                    0 <= k < i && (#[trigger] s[k]).name is Some ==> !occurs(
                        lower(s[k].name->0@),
                        "cpu"@,
                    )
            }
        }),
{
    lemma_package_pick(s, 0);
    lemma_cpu_pick(s, 0);
}

proof fn lemma_package_pick(s: Seq<OhmSensor>, i: int)
    requires
        0 <= i <= s.len(),
    ensures
        i <= package_pick(s, i) <= s.len(),
        package_pick(s, i) < s.len() ==> package_sensor(s[package_pick(s, i)]),
        forall|k: int| i <= k < package_pick(s, i) ==> !package_sensor(#[trigger] s[k]),
    decreases s.len() - i,
{
    if i < s.len() && !package_sensor(s[i]) {
        lemma_package_pick(s, i + 1);
    }
}

proof fn lemma_cpu_pick(s: Seq<OhmSensor>, i: int)
    requires
        0 <= i <= s.len(),
    ensures
        i <= cpu_pick(s, i) <= s.len(),
        cpu_pick(s, i) < s.len() ==> cpu_sensor(s[cpu_pick(s, i)]),
        forall|k: int| i <= k < cpu_pick(s, i) ==> !cpu_sensor(#[trigger] s[k]),
    decreases s.len() - i,
{
    if i < s.len() && !cpu_sensor(s[i]) {
        lemma_cpu_pick(s, i + 1);
    }
}

/// The whole number in a file of the system.
pub open spec fn file_whole(text: Option<String>) -> Option<int> {
    match text {
        Some(t) => signed_whole(trimmed(t@)),
        None => None,
    }
}

/// A thermal zone that is the CPU's, with a number in its file.
pub open spec fn zone_of_cpu(z: SystemSensor) -> bool {
    let kind = lower(trimmed(z.name@));
    &&& occurs(kind, "cpu"@) || occurs(kind, "x86_pkg"@) || occurs(kind, "soc"@)
    &&& file_whole(z.temp) is Some
}

/// A hardware monitor that is the CPU's, with a number in its file.
pub open spec fn monitor_of_cpu(z: SystemSensor) -> bool {
    let name = trimmed(z.name@);
    &&& name == "coretemp"@ || name == "k10temp"@ || name == "zenpower"@
    &&& file_whole(z.temp) is Some
}

/// The CPU temperature of a Linux machine: that of the first zone of the CPU,
/// else of the first monitor of the CPU; zone 0, often the motherboard's, only
/// where there is neither.  Files count thousandths of a degree.
pub proof fn lemma_linux_cpu_order(
    zones: Seq<SystemSensor>,
    monitors: Seq<SystemSensor>,
    zone0: Option<String>,
)
    ensures
        ({
            let r = first_some(linux_offers(zones, monitors, text_of(zone0)));
            let no_zone = forall|i: int| 0 <= i < zones.len() ==> !zone_of_cpu(#[trigger] zones[i]);
            let no_monitor = forall|i: int|
                0 <= i < monitors.len() ==> !monitor_of_cpu(#[trigger] monitors[i]);
            &&& !no_zone ==> r is Some && exists|i: int|
                0 <= i < zones.len() && zone_of_cpu(#[trigger] zones[i]) && r->0.celsius
                    == file_whole(zones[i].temp)->0 * 1000 && forall|j: int|
                    0 <= j < i ==> !zone_of_cpu(#[trigger] zones[j])
            &&& no_zone && !no_monitor ==> r is Some && exists|i: int|
                0 <= i < monitors.len() && monitor_of_cpu(#[trigger] monitors[i]) && r->0.celsius
                    == file_whole(monitors[i].temp)->0 * 1000 && forall|j: int|
                    0 <= j < i ==> !monitor_of_cpu(#[trigger] monitors[j])
            &&& no_zone && no_monitor ==> match file_whole(zone0) {
                Some(n) => r is Some && r->0.celsius == n * 1000,
                None => r is None,
            }
        }),
{
    let o = linux_offers(zones, monitors, text_of(zone0));
    let n = zones.len() as int;
    let m = monitors.len() as int;
    assert(o.len() == n + m + 1);
    assert forall|i: int| 0 <= i < n implies o[i] == zone_offer(#[trigger] zones[i]) && (
    zone_of_cpu(zones[i]) <==> o[i] is Some) by {}
    assert forall|i: int| 0 <= i < m implies o[n + i] == monitor_offer(#[trigger] monitors[i]) && (
    monitor_of_cpu(monitors[i]) <==> o[n + i] is Some) by {}
    assert(o[n + m] == zone0_offer(text_of(zone0)));
    lemma_first_some_is(o);
    if first_some(o) is Some {
        let v = first_some(o)->0;
        let k = choose|k: int|
            0 <= k < o.len() && #[trigger] o[k] == Some(v) && forall|j: int|
                0 <= j < k ==> (#[trigger] o[j]) is None;
        if k < n {
            assert(zone_of_cpu(zones[k]));
            assert forall|j: int| 0 <= j < k implies !zone_of_cpu(#[trigger] zones[j]) by {
                assert(o[j] is None);
            }
        } else {
            assert forall|j: int| 0 <= j < n implies !zone_of_cpu(#[trigger] zones[j]) by {
                assert(o[j] is None);
            }
            if k < n + m {
                assert(o[n + (k - n)] == o[k]);
                assert(monitor_of_cpu(monitors[k - n]));
                assert forall|j: int| 0 <= j < k - n implies !monitor_of_cpu(
                    #[trigger] monitors[j],
                ) by {
                    assert(o[n + j] is None);
                }
            } else {
                assert forall|j: int| 0 <= j < m implies !monitor_of_cpu(
                    #[trigger] monitors[j],
                ) by {
                    assert(o[n + j] is None);
                }
            }
        }
    } else {
        assert forall|j: int| 0 <= j < n implies !zone_of_cpu(#[trigger] zones[j]) by {
            assert(o[j] is None);
        }
        assert forall|j: int| 0 <= j < m implies !monitor_of_cpu(#[trigger] monitors[j]) by {
            assert(o[n + j] is None);
        }
        assert(o[n + m] is None);
    }
}

proof fn lemma_value_pick(files: Seq<Option<String>>, i: int)
    requires
        0 <= i <= files.len(),
    ensures
        i <= value_pick(files, i) <= files.len(),
        value_pick(files, i) < files.len() ==> file_whole(files[value_pick(files, i)]) is Some,
        forall|k: int| i <= k < value_pick(files, i) ==> file_whole(#[trigger] files[k]) is None,
    decreases files.len() - i,
{
    if i < files.len() && file_whole(files[i]) is None {
        lemma_value_pick(files, i + 1);
    }
}

/// The first of the files of a card that holds a number.
pub open spec fn first_number(files: Seq<Option<String>>, n: int) -> bool {
    exists|i: int|
        0 <= i < files.len() && file_whole(#[trigger] files[i]) == Some(n) && forall|k: int|
            0 <= k < i ==> file_whole(#[trigger] files[k]) is None
}

/// The temperature of a card in a Linux machine: its driver's, else that of the
/// first file of its own device.  Other cards' files count only where there is
/// but one card.
pub proof fn lemma_linux_gpu_order(
    nvidia: Option<(i64, NvSource)>,
    own: Seq<Option<String>>,
    any: Seq<Option<String>>,
    other: Seq<Option<String>>,
    multi: bool,
)
    ensures
        ({
            let r = first_some(linux_gpu_offers(nvidia, own, any, multi));
            let silent = forall|i: int|
                0 <= i < own.len() ==> file_whole(#[trigger] own[i]) is None;
            &&& nvidia is Some ==> r is Some && r->0.celsius == (nvidia->0).0
            &&& nvidia is None && !silent ==> r is Some && r->0.celsius % 1000 == 0 && first_number(
                own,
                r->0.celsius / 1000,
            )
            &&& nvidia is None && silent && !multi && r is Some ==> r->0.celsius % 1000 == 0
                && first_number(any, r->0.celsius / 1000)
            &&& nvidia is None && silent && !multi && r is None ==> forall|i: int|
                0 <= i < any.len() ==> file_whole(#[trigger] any[i]) is None
            &&& multi ==> r == first_some(linux_gpu_offers(nvidia, own, other, multi))
            &&& nvidia is None && silent && multi ==> r is None
        }),
{
    let o = linux_gpu_offers(nvidia, own, any, multi);
    lemma_first_some(o, 0);
    lemma_first_some(o, 1);
    lemma_first_some(o, 2);
    lemma_first_some(o, 3);
    assert(o.skip(0) =~= o);
    lemma_value_pick(own, 0);
    lemma_value_pick(any, 0);
    let i = value_pick(own, 0);
    if i < own.len() {
        let n = file_whole(own[i])->0;
        assert(n * 1000 / 1000 == n && n * 1000 % 1000 == 0);
        assert(first_number(own, n));
    }
    let k = value_pick(any, 0);
    if k < any.len() {
        let n = file_whole(any[k])->0;
        assert(n * 1000 / 1000 == n && n * 1000 % 1000 == 0);
        assert(first_number(any, n));
    }
    if multi {
        assert(o =~= linux_gpu_offers(nvidia, own, other, multi));
    }
}

/// A word is a temperature between 0 °C and 150 °C.
pub open spec fn warm_word(w: Seq<char>) -> bool {
    millionths(w) is Some && 0 < millionths(w)->0 < 150_000_000
}

proof fn lemma_temp_word(ws: Seq<Seq<char>>, i: int)
    requires
        0 <= i <= ws.len(),
    ensures
        match temp_word(ws, i) {
            Some(v) => exists|k: int|
                i <= k < ws.len() && warm_word(#[trigger] ws[k]) && millionths(ws[k]) == Some(v)
                    && forall|j: int| i <= j < k ==> !warm_word(#[trigger] ws[j]),
            None => forall|k: int| i <= k < ws.len() ==> !warm_word(#[trigger] ws[k]),
        },
    decreases ws.len() - i,
{
    if i < ws.len() {
        if warm_word(ws[i]) {
            assert(millionths(ws[i]) == temp_word(ws, i));
        } else {
            lemma_temp_word(ws, i + 1);
        }
    }
}

/// A line says the temperature, and holds one.
pub open spec fn told_on(line: Seq<char>, a: Seq<char>, b: Seq<char>) -> bool {
    (occurs(lower(line), a) || occurs(lower(line), b)) && exists|k: int|
        0 <= k < words(line).len() && warm_word(#[trigger] words(line)[k])
}

/// The temperature that `powermetrics` tells is the first word that can be one
/// on the first line that speaks of it and holds such a word.
pub proof fn lemma_told_temp(ls: Seq<Seq<char>>, a: Seq<char>, b: Seq<char>, i: int)
    requires
        0 <= i <= ls.len(),
    ensures
        match told_temp(ls, a, b, i) {
            Some(v) => exists|n: int, k: int|
                #![trigger words(ls[n])[k]]
                {
                    &&& i <= n < ls.len() && told_on(ls[n], a, b)
                    &&& 0 <= k < words(ls[n]).len() && warm_word(words(ls[n])[k])
                    &&& millionths(words(ls[n])[k]) == Some(v)
                    &&& forall|j: int| 0 <= j < k ==> !warm_word(#[trigger] words(ls[n])[j])
                    &&& forall|m: int| i <= m < n ==> !told_on(#[trigger] ls[m], a, b)
                },
            None => forall|m: int| i <= m < ls.len() ==> !told_on(#[trigger] ls[m], a, b),
        },
    decreases ls.len() - i,
{
    if i < ls.len() {
        let ws = words(ls[i]);
        lemma_temp_word(ws, 0);
        if tells(ls[i], a, b) && temp_word(ws, 0) is Some {
            let v = temp_word(ws, 0)->0;
            let k = choose|k: int|
                0 <= k < ws.len() && warm_word(#[trigger] ws[k]) && millionths(ws[k]) == Some(v)
                    && forall|j: int| 0 <= j < k ==> !warm_word(#[trigger] ws[j]);
            assert(warm_word(words(ls[i])[k]));
        } else {
            assert(!told_on(ls[i], a, b));
            lemma_told_temp(ls, a, b, i + 1);
        }
    }
}

/// A line is of the CPU's temperature, and holds one.
pub open spec fn sysctl_on(line: Seq<char>) -> bool {
    occurs(line, "temperature"@) && occurs(line, "CPU"@) && exists|k: int|
        0 <= k < words(line).len() && warm_word(#[trigger] words(line)[k])
}

/// The temperature that `sysctl` tells is the first word that can be one on the
/// first line of the CPU's temperature that holds such a word.
pub proof fn lemma_sysctl_temp(ls: Seq<Seq<char>>, i: int)
    requires
        0 <= i <= ls.len(),
    ensures
        match sysctl_temp(ls, i) {
            Some(v) => exists|n: int, k: int|
                #![trigger words(ls[n])[k]]
                {
                    &&& i <= n < ls.len() && sysctl_on(ls[n])
                    &&& 0 <= k < words(ls[n]).len() && warm_word(words(ls[n])[k])
                    &&& millionths(words(ls[n])[k]) == Some(v)
                    &&& forall|j: int| 0 <= j < k ==> !warm_word(#[trigger] words(ls[n])[j])
                    &&& forall|m: int| i <= m < n ==> !sysctl_on(#[trigger] ls[m])
                },
            None => forall|m: int| i <= m < ls.len() ==> !sysctl_on(#[trigger] ls[m]),
        },
    decreases ls.len() - i,
{
    if i < ls.len() {
        let ws = words(ls[i]);
        lemma_temp_word(ws, 0);
        if occurs(ls[i], "temperature"@) && occurs(ls[i], "CPU"@) && temp_word(ws, 0) is Some {
            let v = temp_word(ws, 0)->0;
            let k = choose|k: int|
                0 <= k < ws.len() && warm_word(#[trigger] ws[k]) && millionths(ws[k]) == Some(v)
                    && forall|j: int| 0 <= j < k ==> !warm_word(#[trigger] ws[j]);
            assert(warm_word(words(ls[i])[k]));
        } else {
            assert(!sysctl_on(ls[i]));
            lemma_sysctl_temp(ls, i + 1);
        }
    }
}

/// On a Mac, what `powermetrics` says of the CPU goes before what `sysctl` says,
/// and a temperature is told exactly where one of them tells one.
pub proof fn lemma_mac_cpu_order(powermetrics: Option<Seq<char>>, sysctl: Option<Seq<char>>)
    ensures
        ({
            let die = powermetrics is Some && told_temp(
                lines(powermetrics->0),
                "cpu die temperature"@,
                "cpu thermal level"@,
                0,
            ) is Some;
            let other = sysctl is Some && sysctl_temp(lines(sysctl->0), 0) is Some;
            let r = mac_cpu(powermetrics, sysctl);
            &&& r is Some <==> die || other
            &&& die ==> mac_cpu(powermetrics, None) == r && r->0.source == "powermetrics / CPU die"@
            &&& !die ==> r == mac_cpu(None, sysctl)
            &&& !die && other ==> r->0.source == "sysctl"@ && Some(r->0.celsius) == sysctl_temp(
                lines(sysctl->0),
                0,
            )
        }),
{
}

/// On a Mac, the driver's temperature of the card goes before what
/// `powermetrics` says, which is asked only where there is none.
pub proof fn lemma_mac_gpu_order(driver: Option<TempView>, powermetrics: Option<Seq<char>>)
    ensures
        ({
            let r = mac_gpu(driver, powermetrics);
            &&& driver is Some ==> (r is Some <==> 0 < driver->0.celsius < 150_000_000)
            &&& driver is Some && r is Some ==> r == driver
            &&& driver is None && powermetrics is None ==> r is None
            &&& driver is None && powermetrics is Some ==> (match r {
                Some(t) => Some(t.celsius) == told_temp(
                    lines(powermetrics->0),
                    "gpu die temperature"@,
                    "gpu thermal level"@,
                    0,
                ),
                None => told_temp(
                    lines(powermetrics->0),
                    "gpu die temperature"@,
                    "gpu thermal level"@,
                    0,
                ) is None,
            })
        }),
{
}

/// On Linux, the driver's load of the card goes before that in the card's file.
pub proof fn lemma_linux_load_order(driver: Option<int>, busy: Option<Seq<char>>)
    ensures
        driver is Some ==> linux_load(driver, busy) == driver,
        driver is None && busy is Some ==> linux_load(driver, busy) == millionths(
            trimmed(busy->0),
        ),
        driver is None && busy is None ==> linux_load(driver, busy) is None,
{
}

} // verus!
