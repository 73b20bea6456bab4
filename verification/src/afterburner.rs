//! MSI Afterburner's shared memory.
//!
//! It begins with a header (signature `MAHM`, version, header size, number and
//! size of the entries, a time, number and size of the GPU entries), then come
//! the sensor entries and the GPU entries.  A sensor entry holds five texts of
//! 260 bytes (the name first, then the unit), the value as a single, two
//! limits, flags, and the index of its GPU.
use vstd::prelude::*;

use crate::bytes::{field, has_mark, le32, read_field, read_u32, signed};
use crate::fixed::{
    int_of, is_sane, lemma_one, millionths_of, one, sane, single_of, single_value, Binary,
};
use crate::gpus::{is_wanted, names_match, wanted, GpuDevice};
use crate::pick::{
    best, consider, is_best, lemma_best_offered, offered, seen, value_of, with, Candidate,
    CandidateView,
};
use crate::text::{
    ascii_lower, begins, contains, occurs, same, starts_with, text_of, to_ascii_lower, trim_str,
    trimmed,
};

verus! {

/// The readings of Afterburner's sensors.
#[derive(Debug, Clone)]
pub struct AfterburnerReading {
    pub cpu_temp: Option<i64>,
    pub gpu_temp: Option<i64>,
    pub cpu_source: Option<String>,
    pub gpu_source: Option<String>,
    pub gpu_usage: Option<i64>,
}

/// The names under which the memory may be found, in the order to try them.
pub fn candidate_names() -> (r: Vec<&'static str>)
    ensures
        r@.map_values(|s: &'static str| s@) == seq![
            "Global\\MAHMSharedMemory"@,
            "MAHMSharedMemory"@,
            "Local\\MAHMSharedMemory"@,
        ],
{
    let mut r: Vec<&'static str> = Vec::new();
    r.push("Global\\MAHMSharedMemory");
    r.push("MAHMSharedMemory");
    r.push("Local\\MAHMSharedMemory");
    assert(r@.map_values(|s: &'static str| s@) =~= seq![
        "Global\\MAHMSharedMemory"@,
        "MAHMSharedMemory"@,
        "Local\\MAHMSharedMemory"@,
    ]);
    r
}

// ---------------------------------------------------------------------------
// Layout

/// Where the sensor entries begin.
pub open spec fn entries_at(b: Seq<u8>) -> int {
    le32(b, 8) as int
}

/// How many sensor entries there are.
pub open spec fn entry_count(b: Seq<u8>) -> int {
    le32(b, 12) as int
}

/// How long a sensor entry is.
pub open spec fn entry_size(b: Seq<u8>) -> int {
    le32(b, 16) as int
}

/// How many GPU entries there are: none where the header makes no sense.
pub open spec fn gpu_count(b: Seq<u8>) -> int {
    if 0 < le32(b, 24) <= 16 && 1300 <= le32(b, 28) <= 4096 {
        le32(b, 24) as int
    } else {
        0
    }
}

/// How long a GPU entry is.
pub open spec fn gpu_size(b: Seq<u8>) -> int {
    le32(b, 28) as int
}

/// The header is one of Afterburner's.  Entries must be long enough for the
/// flags, which stand at 1312.
pub open spec fn header_fits(b: Seq<u8>) -> bool {
    &&& b.len() >= 32
    &&& signed(b, seq![0x4D, 0x41, 0x48, 0x4D])
    &&& 24 <= entries_at(b) <= 256
    &&& 1 <= entry_count(b) <= 1024
    &&& 1316 <= entry_size(b) <= 4096
}

/// How much memory the header says there is.
pub open spec fn extent(b: Seq<u8>) -> int {
    entries_at(b) + entry_count(b) * entry_size(b) + gpu_count(b) * gpu_size(b)
}

/// The memory is Afterburner's, and all of it.
pub open spec fn complete(b: Seq<u8>) -> bool {
    header_fits(b) && b.len() >= extent(b)
}

/// The `i`th sensor entry.
pub open spec fn entry(b: Seq<u8>, i: int) -> Seq<u8> {
    b.subrange(
        entries_at(b) + i * entry_size(b),
        entries_at(b) + i * entry_size(b) + entry_size(b),
    )
}

/// The `g`th GPU entry.
pub open spec fn gpu_entry(b: Seq<u8>, g: int) -> Seq<u8> {
    let table = entries_at(b) + entry_count(b) * entry_size(b);
    b.subrange(table + g * gpu_size(b), table + g * gpu_size(b) + gpu_size(b))
}

/// The name of the `g`th GPU: the device, or the family where that is empty.
pub open spec fn gpu_name(b: Seq<u8>, g: int) -> Seq<char> {
    if 0 <= g < gpu_count(b) {
        let e = gpu_entry(b, g);
        let device = field(e, 520, 780);
        if device.len() == 0 {
            field(e, 260, 520)
        } else {
            device
        }
    } else {
        Seq::empty()
    }
}

/// The index of an entry's GPU.
pub open spec fn gpu_index(e: Seq<u8>) -> int {
    if e.len() >= 1320 {
        le32(e, 1316) as int
    } else {
        u32::MAX as int
    }
}

/// A GPU is named by its device, else by its family, and one that the table does
/// not hold has no name.
pub proof fn lemma_gpu_name(b: Seq<u8>, g: int)
    ensures
        ({
            let e = gpu_entry(b, g);
            let listed = 0 <= g < le32(b, 24) && le32(b, 24) <= 16 && 1300 <= le32(b, 28) <= 4096;
            &&& !listed ==> gpu_name(b, g).len() == 0
            &&& listed && field(e, 520, 780).len() > 0 ==> gpu_name(b, g) == field(e, 520, 780)
            &&& listed && field(e, 520, 780).len() == 0 ==> gpu_name(b, g) == field(e, 260, 520)
        }),
{
}

// ---------------------------------------------------------------------------
// Sensors

/// How good a CPU temperature a sensor is, by its name in lower case.
pub open spec fn cpu_score(n: Seq<char>) -> Option<i32> {
    if !begins(n, "cpu"@) && !begins(n, "ccd"@) {
        None
    } else if !occurs(n, "temperature"@) && !occurs(n, "temp"@) {
        None
    } else if occurs(n, "motherboard"@) || occurs(n, "vrm"@) {
        None
    } else if occurs(n, "package"@) {
        Some(100i32)
    } else if occurs(n, "tctl"@) || occurs(n, "tdie"@) {
        Some(95i32)
    } else if occurs(n, "die"@) {
        Some(90i32)
    } else if begins(n, "ccd"@) {
        Some(85i32)
    } else if n == "cpu temperature"@ || begins(n, "cpu1 temp"@) || begins(n, "cpu temp"@) {
        Some(80i32)
    } else if occurs(n, "core"@) {
        Some(50i32)
    } else {
        None
    }
}

/// How good a GPU temperature a sensor is, by its name in lower case.
pub open spec fn gpu_score(n: Seq<char>) -> Option<i32> {
    if !begins(n, "gpu"@) {
        None
    } else if !occurs(n, "temperature"@) && !occurs(n, "temp"@) && !occurs(n, "hotspot"@)
        && !occurs(n, "hot spot"@) {
        None
    } else if occurs(n, "memory"@) || occurs(n, "vram"@) {
        Some(20i32)
    } else if occurs(n, "hot spot"@) || occurs(n, "hotspot"@) {
        Some(100i32)
    } else if occurs(n, "junction"@) {
        Some(95i32)
    } else if occurs(n, "edge"@) {
        Some(85i32)
    } else if n == "gpu temperature"@ || begins(n, "gpu1 temp"@) || begins(n, "gpu temp"@) {
        Some(80i32)
    } else if occurs(n, "core"@) {
        Some(75i32)
    } else {
        Some(60i32)
    }
}

/// How good a GPU load a sensor is, by its name in lower case.
pub open spec fn usage_score(n: Seq<char>) -> Option<i32> {
    if !begins(n, "gpu"@) || !occurs(n, "usage"@) {
        None
    } else if n == "gpu usage"@ || begins(n, "gpu1 usage"@) {
        Some(100i32)
    } else {
        Some(50i32)
    }
}

/// Higher score = better CPU temperature candidate. None = not a CPU temp.
/// Names are like "CPU temperature", "CPU1 temperature", "CPU package", "CCD1
/// temperature"; usage, clock and power sources are left out.
pub fn score_cpu(name: &str) -> (r: Option<i32>)
    ensures
        r == cpu_score(ascii_lower(name@)),
{
    let low = to_ascii_lower(name);
    let n = low.as_str();
    if !starts_with(n, "cpu") && !starts_with(n, "ccd") {
        None
    } else if !contains(n, "temperature") && !contains(n, "temp") {
        None
    } else if contains(n, "motherboard") || contains(n, "vrm") {
        None
    } else if contains(n, "package") {
        Some(100)
    } else if contains(n, "tctl") || contains(n, "tdie") {
        Some(95)
    } else if contains(n, "die") {
        Some(90)
    } else if starts_with(n, "ccd") {
        Some(85)
    } else if same(n, "cpu temperature") || starts_with(n, "cpu1 temp") || starts_with(
        n,
        "cpu temp",
    ) {
        Some(80)
    } else if contains(n, "core") {
        Some(50)
    } else {
        None
    }
}

/// Higher score = better GPU temperature candidate. None = not a GPU temp.
pub fn score_gpu(name: &str) -> (r: Option<i32>)
    ensures
        r == gpu_score(ascii_lower(name@)),
{
    let low = to_ascii_lower(name);
    let n = low.as_str();
    if !starts_with(n, "gpu") {
        None
    } else if !contains(n, "temperature") && !contains(n, "temp") && !contains(n, "hotspot")
        && !contains(n, "hot spot") {
        None
    } else if contains(n, "memory") || contains(n, "vram") {
        Some(20)
    } else if contains(n, "hot spot") || contains(n, "hotspot") {
        Some(100)
    } else if contains(n, "junction") {
        Some(95)
    } else if contains(n, "edge") {
        Some(85)
    } else if same(n, "gpu temperature") || starts_with(n, "gpu1 temp") || starts_with(
        n,
        "gpu temp",
    ) {
        Some(80)
    } else if contains(n, "core") {
        Some(75)
    } else {
        Some(60)
    }
}

fn score_usage(name: &str) -> (r: Option<i32>)
    ensures
        r == usage_score(ascii_lower(name@)),
{
    let low = to_ascii_lower(name);
    let n = low.as_str();
    if !starts_with(n, "gpu") || !contains(n, "usage") {
        None
    } else if same(n, "gpu usage") || starts_with(n, "gpu1 usage") {
        Some(100)
    } else {
        Some(50)
    }
}

/// What an entry says.
pub ghost struct Sensor {
    pub name: Seq<char>,
    pub unit: Seq<char>,
    /// The value, if the sensor is there and has one.
    pub value: Option<Binary>,
    pub gpu: Seq<char>,
}

/// What the `i`th entry says.  The lowest flag marks sensors that are there.
pub open spec fn sensor(b: Seq<u8>, i: int) -> Sensor {
    let e = entry(b, i);
    Sensor {
        name: field(e, 0, 260),
        unit: field(e, 260, 520),
        value: if le32(e, 1312) % 2 == 1 {
            single_value(le32(e, 1300))
        } else {
            None
        },
        gpu: gpu_name(b, gpu_index(e)),
    }
}

/// A unit of temperature.
pub open spec fn celsius(unit: Seq<char>) -> bool {
    unit == "C"@ || occurs(unit, "°C"@)
}

/// A share of a hundred.
pub open spec fn percent(unit: Seq<char>) -> bool {
    trimmed(unit) == "%"@
}

/// A candidate of this score, if there is one.
pub open spec fn scored(score: Option<i32>, v: Binary, name: Seq<char>) -> Option<CandidateView> {
    match score {
        Some(s) => Some(
            CandidateView { score: s as int, value: v.millionths(), source: name },
        ),
        None => None,
    }
}

impl Sensor {
    /// The sensor as a CPU temperature.
    pub open spec fn as_cpu(self) -> Option<CandidateView> {
        match self.value {
            Some(v) if celsius(self.unit) && !percent(self.unit) && sane(v) => scored(
                cpu_score(ascii_lower(self.name)),
                v,
                self.name,
            ),
            _ => None,
        }
    }

    /// The sensor as a temperature of the GPU that is meant.
    pub open spec fn as_gpu(self, only: Option<&GpuDevice>) -> Option<CandidateView> {
        match self.value {
            Some(v) if celsius(self.unit) && !percent(self.unit) && sane(v) && wanted(
                only,
                self.gpu,
            ) => scored(gpu_score(ascii_lower(self.name)), v, self.name),
            _ => None,
        }
    }

    /// The sensor as the load of the GPU that is meant.
    pub open spec fn as_usage(self, only: Option<&GpuDevice>) -> Option<CandidateView> {
        match self.value {
            Some(v) if percent(self.unit) && 0 <= v.exact() <= 100 * one() && wanted(
                only,
                self.gpu,
            ) => scored(usage_score(ascii_lower(self.name)), v, Seq::empty()),
            _ => None,
        }
    }
}

/// The CPU temperatures among the first `n` entries.
pub open spec fn cpu_sensors(b: Seq<u8>, n: int) -> Seq<CandidateView>
    decreases n,
{
    if n <= 0 {
        Seq::empty()
    } else {
        with(cpu_sensors(b, n - 1), sensor(b, n - 1).as_cpu())
    }
}

/// The temperatures of the GPU that is meant among the first `n` entries.
pub open spec fn gpu_sensors(b: Seq<u8>, only: Option<&GpuDevice>, n: int) -> Seq<CandidateView>
    decreases n,
{
    if n <= 0 {
        Seq::empty()
    } else {
        with(gpu_sensors(b, only, n - 1), sensor(b, n - 1).as_gpu(only))
    }
}

/// The loads of the GPU that is meant among the first `n` entries.
pub open spec fn usage_sensors(b: Seq<u8>, only: Option<&GpuDevice>, n: int) -> Seq<CandidateView>
    decreases n,
{
    if n <= 0 {
        Seq::empty()
    } else {
        with(usage_sensors(b, only, n - 1), sensor(b, n - 1).as_usage(only))
    }
}

/// Where a candidate comes from, with the tool in front.
pub open spec fn source_of(c: Option<CandidateView>) -> Option<Seq<char>> {
    match c {
        Some(x) => Some("MSI Afterburner / "@ + x.source),
        None => None,
    }
}

impl AfterburnerReading {
    /// The reading is made of these candidates.
    pub open spec fn holds(
        self,
        cpu: Option<CandidateView>,
        gpu: Option<CandidateView>,
        usage: Option<CandidateView>,
    ) -> bool {
        &&& int_of(self.cpu_temp) == value_of(cpu)
        &&& int_of(self.gpu_temp) == value_of(gpu)
        &&& int_of(self.gpu_usage) == value_of(usage)
        &&& text_of(self.cpu_source) == source_of(cpu)
        &&& text_of(self.gpu_source) == source_of(gpu)
    }
}

// ---------------------------------------------------------------------------
// What the scores prefer

/// A sensor's name says that it is a temperature.
pub open spec fn names_temperature(n: Seq<char>) -> bool {
    occurs(n, "temp"@)
}

/// A sensor's name says that it is of a GPU's memory.
pub open spec fn names_memory(n: Seq<char>) -> bool {
    occurs(n, "memory"@) || occurs(n, "vram"@)
}

/// A sensor's name says that it is of the hottest spot of a die.
pub open spec fn names_hot_spot(n: Seq<char>) -> bool {
    occurs(n, "hot spot"@) || occurs(n, "hotspot"@)
}

/// What holds "temperature" holds "temp".
proof fn lemma_names_temperature(n: Seq<char>)
    ensures
        occurs(n, "temperature"@) ==> names_temperature(n),
{
    reveal_strlit("temperature");
    reveal_strlit("temp");
    if occurs(n, "temperature"@) {
        let i = choose|i: int| crate::text::at(n, "temperature"@, i);
        assert(n.subrange(i, i + 4) =~= "temperature"@.subrange(0, 4));
        assert("temperature"@.subrange(0, 4) =~= "temp"@);
        assert(crate::text::at(n, "temp"@, i));
    }
}

/// Every temperature or hot spot whose name begins with "gpu" counts as a GPU's,
/// and nothing else.
pub proof fn lemma_gpu_readings(n: Seq<char>)
    ensures
        gpu_score(n) is Some <==> begins(n, "gpu"@) && (names_temperature(n) || names_hot_spot(n)),
{
    lemma_names_temperature(n);
}

/// Of a GPU's readings, the memory's is taken only where nothing else is listed.
/// The hottest spot is taken before the junction, this before the edge, this
/// before the GPU's own temperature, this before the core's, and the rest after
/// that.  Readings of the same sort are equal.
pub proof fn lemma_gpu_preference(a: Seq<char>, b: Seq<char>)
    requires
        gpu_score(a) is Some,
        gpu_score(b) is Some,
    ensures
        ({
            let x = gpu_score(a)->0;
            let y = gpu_score(b)->0;
            let whole = |n: Seq<char>|
                n == "gpu temperature"@ || begins(n, "gpu1 temp"@) || begins(n, "gpu temp"@);
            &&& names_memory(a) && !names_memory(b) ==> x < y
            &&& names_memory(a) && names_memory(b) ==> x == y
            &&& !names_memory(a) && !names_memory(b) ==> {
                &&& names_hot_spot(a) && !names_hot_spot(b) ==> x > y
                &&& names_hot_spot(a) && names_hot_spot(b) ==> x == y
                &&& !names_hot_spot(a) && !names_hot_spot(b) ==> {
                    &&& occurs(a, "junction"@) && !occurs(b, "junction"@) ==> x > y
                    &&& occurs(a, "junction"@) && occurs(b, "junction"@) ==> x == y
                    &&& !occurs(a, "junction"@) && !occurs(b, "junction"@) ==> {
                        &&& occurs(a, "edge"@) && !occurs(b, "edge"@) ==> x > y
                        &&& occurs(a, "edge"@) && occurs(b, "edge"@) ==> x == y
                        &&& !occurs(a, "edge"@) && !occurs(b, "edge"@) ==> {
                            &&& whole(a) && !whole(b) ==> x > y
                            &&& whole(a) && whole(b) ==> x == y
                            &&& !whole(a) && !whole(b) ==> {
                                &&& occurs(a, "core"@) && !occurs(b, "core"@) ==> x > y
                                &&& occurs(a, "core"@) == occurs(b, "core"@) ==> x == y
                            }
                        }
                    }
                }
            }
        }),
{
}

/// What counts as a CPU's temperature, by name: none of the board.
pub proof fn lemma_cpu_readings(n: Seq<char>)
    ensures
        cpu_score(n) is Some ==> (begins(n, "cpu"@) || begins(n, "ccd"@)) && names_temperature(n)
            && !occurs(n, "motherboard"@) && !occurs(n, "vrm"@),
        begins(n, "ccd"@) && names_temperature(n) && !occurs(n, "motherboard"@) && !occurs(
            n,
            "vrm"@,
        ) ==> cpu_score(n) is Some,
        begins(n, "cpu"@) && names_temperature(n) && !occurs(n, "motherboard"@) && !occurs(n, "vrm"@)
            && (occurs(n, "package"@) || occurs(n, "tctl"@) || occurs(n, "tdie"@) || occurs(
            n,
            "die"@,
        ) || n == "cpu temperature"@ || begins(n, "cpu1 temp"@) || begins(n, "cpu temp"@) || occurs(
            n,
            "core"@,
        )) ==> cpu_score(n) is Some,
{
    lemma_names_temperature(n);
}

/// Of a CPU's readings, the package's is taken before the control temperature
/// and the die's, this before those of parts of the die, these before what is
/// just the CPU's, and those of single cores last.  Readings of the same sort
/// are equal.
pub proof fn lemma_cpu_preference(a: Seq<char>, b: Seq<char>)
    requires
        cpu_score(a) is Some,
        cpu_score(b) is Some,
    ensures
        ({
            let x = cpu_score(a)->0;
            let y = cpu_score(b)->0;
            let control = |n: Seq<char>| occurs(n, "tctl"@) || occurs(n, "tdie"@);
            let whole = |n: Seq<char>|
                n == "cpu temperature"@ || begins(n, "cpu1 temp"@) || begins(n, "cpu temp"@);
            &&& occurs(a, "package"@) && !occurs(b, "package"@) ==> x > y
            &&& occurs(a, "package"@) && occurs(b, "package"@) ==> x == y
            &&& !occurs(a, "package"@) && !occurs(b, "package"@) ==> {
                &&& control(a) && !control(b) ==> x > y
                &&& control(a) && control(b) ==> x == y
                &&& !control(a) && !control(b) ==> {
                    &&& occurs(a, "die"@) && !occurs(b, "die"@) ==> x > y
                    &&& occurs(a, "die"@) && occurs(b, "die"@) ==> x == y
                    &&& !occurs(a, "die"@) && !occurs(b, "die"@) ==> {
                        &&& begins(a, "ccd"@) && !begins(b, "ccd"@) ==> x > y
                        &&& begins(a, "ccd"@) && begins(b, "ccd"@) ==> x == y
                        &&& !begins(a, "ccd"@) && !begins(b, "ccd"@) ==> {
                            &&& whole(a) && !whole(b) ==> x > y
                            &&& whole(a) == whole(b) ==> x == y
                        }
                    }
                }
            }
        }),
{
}

/// Of the loads of a GPU, the one that is just its usage is taken before those
/// of its parts.
pub proof fn lemma_usage_preference(a: Seq<char>, b: Seq<char>)
    ensures
        usage_score(a) is Some <==> begins(a, "gpu"@) && occurs(a, "usage"@),
        usage_score(a) is Some && usage_score(b) is Some ==> {
            let whole = |n: Seq<char>| n == "gpu usage"@ || begins(n, "gpu1 usage"@);
            &&& whole(a) && !whole(b) ==> usage_score(a)->0 > usage_score(b)->0
            &&& whole(a) == whole(b) ==> usage_score(a)->0 == usage_score(b)->0
        },
{
}

// ---------------------------------------------------------------------------
// Which reading is taken

/// The `i`th sensor is there, and its number is a temperature between 0 °C and
/// 150 °C.
pub open spec fn is_temperature(b: Seq<u8>, i: int) -> bool {
    let e = entry(b, i);
    let v = single_value(le32(e, 1300));
    &&& le32(e, 1312) % 2 == 1
    &&& v is Some && 0 < v->0.exact() < 150 * one()
    &&& celsius(field(e, 260, 520)) && !percent(field(e, 260, 520))
}

/// The `i`th sensor is there, and its number is a share of a hundred.
pub open spec fn is_share(b: Seq<u8>, i: int) -> bool {
    let e = entry(b, i);
    let v = single_value(le32(e, 1300));
    &&& le32(e, 1312) % 2 == 1
    &&& v is Some && 0 <= v->0.exact() <= 100 * one()
    &&& trimmed(field(e, 260, 520)) == "%"@
}

/// The `i`th sensor's name in lower case.
pub open spec fn low_name(b: Seq<u8>, i: int) -> Seq<char> {
    ascii_lower(field(entry(b, i), 0, 260))
}

/// The `i`th sensor is of the GPU that is meant, where one is.
pub open spec fn of_the_gpu(b: Seq<u8>, only: Option<&GpuDevice>, i: int) -> bool {
    only is Some ==> names_match(only->0.name@, gpu_name(b, gpu_index(entry(b, i))))
}

/// What is taken is the `i`th sensor's number.
pub open spec fn taken_from(b: Seq<u8>, i: int, c: CandidateView) -> bool {
    c.value == single_value(le32(entry(b, i), 1300))->0.millionths()
}

/// The first of those of the highest score among the first `n`.
pub open spec fn foremost(
    fits: spec_fn(int) -> bool,
    score: spec_fn(int) -> Option<i32>,
    n: int,
    i: int,
) -> bool {
    &&& 0 <= i < n
    &&& fits(i) && score(i) is Some
    &&& forall|j: int|
        0 <= j < n && #[trigger] fits(j) && score(j) is Some ==> score(j)->0 <= score(i)->0 && (j < i
            ==> score(j)->0 < score(i)->0)
}

proof fn lemma_offers(b: Seq<u8>, only: Option<&GpuDevice>, n: int)
    ensures
        cpu_sensors(b, n) == offered(|i: int| sensor(b, i).as_cpu(), n),
        gpu_sensors(b, only, n) == offered(|i: int| sensor(b, i).as_gpu(only), n),
        usage_sensors(b, only, n) == offered(|i: int| sensor(b, i).as_usage(only), n),
    decreases n,
{
    if n > 0 {
        lemma_offers(b, only, n - 1);
    }
}

/// The temperature that is taken for the CPU is one of the CPU; of these it is
/// the first of those of the highest score.  None is taken only where there is
/// none.
pub proof fn lemma_cpu_taken(b: Seq<u8>, n: int)
    ensures
        ({
            let score = |i: int| cpu_score(low_name(b, i));
            let fits = |i: int| is_temperature(b, i);
            match best(cpu_sensors(b, n)) {
                Some(c) => exists|i: int|
                    #[trigger] foremost(fits, score, n, i) && taken_from(b, i, c) && c.source
                        == field(entry(b, i), 0, 260),
                None => forall|i: int| 0 <= i < n && #[trigger] fits(i) ==> score(i) is None,
            }
        }),
{
    let score = |i: int| cpu_score(low_name(b, i));
    let fits = |i: int| is_temperature(b, i);
    let f = |i: int| sensor(b, i).as_cpu();
    lemma_offers(b, None, n);
    lemma_best_offered(f, n);
    assert forall|j: int| #[trigger] fits(j) implies (f(j) is Some <==> score(j) is Some) by {}
    match best(cpu_sensors(b, n)) {
        Some(c) => {
            let i = choose|i: int| #[trigger] is_best(f, n, i) && f(i) == Some(c);
            assert forall|j: int| 0 <= j < n && #[trigger] fits(j) && score(j) is Some implies score(
                j,
            )->0 <= score(i)->0 && (j < i ==> score(j)->0 < score(i)->0) by {
                assert(f(j) is Some);
            }
            assert(fits(i));
            assert(foremost(fits, score, n, i));
        },
        None => {
            assert forall|i: int| 0 <= i < n && #[trigger] fits(i) implies score(i) is None by {
                assert(f(i) is None);
            }
        },
    }
}

/// The temperature that is taken for a GPU is one of a GPU, and of the one that
/// is meant; of these it is the first of those of the highest score.  None is
/// taken only where there is none.
pub proof fn lemma_gpu_taken(b: Seq<u8>, only: Option<&GpuDevice>, n: int)
    ensures
        ({
            let score = |i: int| gpu_score(low_name(b, i));
            let fits = |i: int| is_temperature(b, i) && of_the_gpu(b, only, i);
            match best(gpu_sensors(b, only, n)) {
                Some(c) => exists|i: int|
                    #[trigger] foremost(fits, score, n, i) && taken_from(b, i, c) && c.source
                        == field(entry(b, i), 0, 260),
                None => forall|i: int| 0 <= i < n && #[trigger] fits(i) ==> score(i) is None,
            }
        }),
{
    let score = |i: int| gpu_score(low_name(b, i));
    let fits = |i: int| is_temperature(b, i) && of_the_gpu(b, only, i);
    let f = |i: int| sensor(b, i).as_gpu(only);
    lemma_offers(b, only, n);
    lemma_best_offered(f, n);
    assert forall|j: int| #[trigger] fits(j) implies (f(j) is Some <==> score(j) is Some) by {}
    match best(gpu_sensors(b, only, n)) {
        Some(c) => {
            let i = choose|i: int| #[trigger] is_best(f, n, i) && f(i) == Some(c);
            assert forall|j: int| 0 <= j < n && #[trigger] fits(j) && score(j) is Some implies score(
                j,
            )->0 <= score(i)->0 && (j < i ==> score(j)->0 < score(i)->0) by {
                assert(f(j) is Some);
            }
            assert(fits(i));
            assert(foremost(fits, score, n, i));
        },
        None => {
            assert forall|i: int| 0 <= i < n && #[trigger] fits(i) implies score(i) is None by {
                assert(f(i) is None);
            }
        },
    }
}

/// The load that is taken is a share of a hundred, of the GPU that is meant; of
/// these it is the first of those of the highest score.  None is taken only
/// where there is none.
pub proof fn lemma_usage_taken(b: Seq<u8>, only: Option<&GpuDevice>, n: int)
    ensures
        ({
            let score = |i: int| usage_score(low_name(b, i));
            let fits = |i: int| is_share(b, i) && of_the_gpu(b, only, i);
            match best(usage_sensors(b, only, n)) {
                Some(c) => exists|i: int|
                    #[trigger] foremost(fits, score, n, i) && taken_from(b, i, c),
                None => forall|i: int| 0 <= i < n && #[trigger] fits(i) ==> score(i) is None,
            }
        }),
{
    let score = |i: int| usage_score(low_name(b, i));
    let fits = |i: int| is_share(b, i) && of_the_gpu(b, only, i);
    let f = |i: int| sensor(b, i).as_usage(only);
    lemma_offers(b, only, n);
    lemma_best_offered(f, n);
    assert forall|j: int| #[trigger] fits(j) implies (f(j) is Some <==> score(j) is Some) by {}
    match best(usage_sensors(b, only, n)) {
        Some(c) => {
            let i = choose|i: int| #[trigger] is_best(f, n, i) && f(i) == Some(c);
            assert forall|j: int| 0 <= j < n && #[trigger] fits(j) && score(j) is Some implies score(
                j,
            )->0 <= score(i)->0 && (j < i ==> score(j)->0 < score(i)->0) by {
                assert(f(j) is Some);
            }
            assert(fits(i));
            assert(foremost(fits, score, n, i));
        },
        None => {
            assert forall|i: int| 0 <= i < n && #[trigger] fits(i) implies score(i) is None by {
                assert(f(i) is None);
            }
        },
    }
}

/// How much memory there is to read, by the header; none if it is not
/// Afterburner's.
pub fn mapping_len(header: &[u8]) -> (r: Option<usize>)
    ensures
        r is Some <==> header_fits(header@),
        r is Some ==> r->0 == extent(header@),
{
    if header.len() < 32 || !has_mark(header, 0x4D, 0x41, 0x48, 0x4D) {
        return None;
    }
    let start: u32 = read_u32(header, 8);
    let count: u32 = read_u32(header, 12);
    let size: u32 = read_u32(header, 16);
    if start < 24 || start > 256 {
        return None;
    }
    if count == 0 || count > 1024 {
        return None;
    }
    if size < 1316 || size > 4096 {
        return None;
    }
    let gpus: usize = table_len(header);
    let gpu: u32 = read_u32(header, 28);
    assert(0 <= count * size <= 1024 * 4096) by (nonlinear_arith)
        requires
            0 <= count <= 1024,
            0 <= size <= 4096,
    ;
    if gpus == 0 {
        assert(gpu_count(header@) * gpu_size(header@) == 0) by (nonlinear_arith)
            requires
                gpu_count(header@) == 0,
        ;
        return Some(start as usize + count as usize * size as usize);
    }
    assert(0 <= gpus * gpu <= 16 * 4096) by (nonlinear_arith)
        requires
            0 <= gpus <= 16,
            0 <= gpu <= 4096,
    ;
    Some(start as usize + count as usize * size as usize + gpus * gpu as usize)
}

fn table_len(b: &[u8]) -> (r: usize)
    requires
        b.len() >= 32,
    ensures
        r == gpu_count(b@),
        r <= 16,
        r > 0 ==> 1300 <= gpu_size(b@) <= 4096,
{
    let n: u32 = read_u32(b, 24);
    let size: u32 = read_u32(b, 28);
    if 0 < n && n <= 16 && 1300 <= size && size <= 4096 {
        n as usize
    } else {
        0
    }
}

/// Entries stand within the memory.
proof fn lemma_entry(b: Seq<u8>, i: int)
    requires
        complete(b),
        0 <= i < entry_count(b),
    ensures
        0 <= entries_at(b) + i * entry_size(b),
        entries_at(b) + i * entry_size(b) + entry_size(b) <= entries_at(b) + entry_count(b)
            * entry_size(b) <= extent(b) <= b.len(),
        0 <= i * entry_size(b) <= 1024 * 4096,
{
    let s = entry_size(b);
    let n = entry_count(b);
    assert(i * s + s <= n * s) by (nonlinear_arith)
        requires
            i + 1 <= n,
            s > 0,
    ;
    assert(0 <= i * s <= 1024 * 4096) by (nonlinear_arith)
        requires
            0 <= i <= 1024,
            0 < s <= 4096,
    ;
    assert(gpu_count(b) * gpu_size(b) >= 0) by (nonlinear_arith)
        requires
            gpu_count(b) >= 0,
            gpu_size(b) >= 0,
    ;
}

fn read_gpu_name(b: &[u8], g: u32) -> (r: String)
    requires
        complete(b@),
    ensures
        r@ == gpu_name(b@, g as int),
{
    let n: usize = table_len(b);
    if g as usize >= n {
        return String::new();
    }
    let start: usize = read_u32(b, 8) as usize;
    let count: usize = read_u32(b, 12) as usize;
    let size: usize = read_u32(b, 16) as usize;
    let gpu: usize = read_u32(b, 28) as usize;
    assert(0 <= count * size <= 1024 * 4096) by (nonlinear_arith)
        requires
            0 <= count <= 1024,
            0 <= size <= 4096,
    ;
    assert(g * gpu + gpu <= n * gpu && 0 <= g * gpu <= 16 * 4096) by (nonlinear_arith)
        requires
            0 <= g,
            g + 1 <= n <= 16,
            0 < gpu <= 4096,
    ;
    let at: usize = start + count * size + g as usize * gpu;
    let e = vstd::slice::slice_subrange(b, at, at + gpu);
    let device = read_field(e, 520, 780);
    if device.as_str().is_empty() {
        read_field(e, 260, 520)
    } else {
        device
    }
}

/// Looks at one entry.
fn read_sensor(
    b: &[u8],
    i: usize,
    only: Option<&GpuDevice>,
    cpu: &mut Option<Candidate>,
    gpu: &mut Option<Candidate>,
    usage: &mut Option<Candidate>,
)
    requires
        complete(b@),
        i < entry_count(b@),
        seen(*old(cpu)) == best(cpu_sensors(b@, i as int)),
        seen(*old(gpu)) == best(gpu_sensors(b@, only, i as int)),
        seen(*old(usage)) == best(usage_sensors(b@, only, i as int)),
    ensures
        seen(*final(cpu)) == best(cpu_sensors(b@, i + 1)),
        seen(*final(gpu)) == best(gpu_sensors(b@, only, i + 1)),
        seen(*final(usage)) == best(usage_sensors(b@, only, i + 1)),
{
    let start: usize = read_u32(b, 8) as usize;
    let size: usize = read_u32(b, 16) as usize;
    proof {
        lemma_entry(b@, i as int);
    }
    let e = vstd::slice::slice_subrange(b, start + i * size, start + i * size + size);
    assert(e@ == entry(b@, i as int));
    let ghost s = sensor(b@, i as int);
    let name = read_field(e, 0, 260);
    let unit = read_field(e, 260, 520);
    let is_celsius = same(unit.as_str(), "C") || contains(unit.as_str(), "°C");
    let is_percent = same(trim_str(unit.as_str()).as_str(), "%");
    if !is_celsius && !is_percent {
        return ;
    }
    if read_u32(e, 1312) % 2 == 0 {
        return ;
    }
    let value: Binary = match single_of(read_u32(e, 1300)) {
        Some(v) => v,
        None => {
            return ;
        },
    };
    let index: u32 = if e.len() >= 1320 {
        read_u32(e, 1316)
    } else {
        u32::MAX
    };
    let gpu_label = read_gpu_name(b, index);
    let gpu_ok = is_wanted(only, gpu_label.as_str());
    proof {
        value.lemma_size();
        lemma_one();
    }
    if is_percent {
        if gpu_ok && (!value.negative || value.mantissa == 0) && value.size_at_most(100) {
            match score_usage(name.as_str()) {
                Some(score) => {
                    let c = Candidate {
                        score,
                        value: millionths_of(&value),
                        source: String::new(),
                    };
                    consider(usage, c, Ghost(usage_sensors(b@, only, i as int)));
                },
                None => {},
            }
        }
        return ;
    }
    if !is_sane(&value) {
        return ;
    }
    let v: i64 = millionths_of(&value);
    match score_cpu(name.as_str()) {
        Some(score) => {
            let c = Candidate { score, value: v, source: name.clone() };
            consider(cpu, c, Ghost(cpu_sensors(b@, i as int)));
        },
        None => {},
    }
    if !gpu_ok {
        return ;
    }
    match score_gpu(name.as_str()) {
        Some(score) => {
            let c = Candidate { score, value: v, source: name };
            consider(gpu, c, Ghost(gpu_sensors(b@, only, i as int)));
        },
        None => {},
    }
}

fn named_source(c: &Candidate) -> (r: String)
    ensures
        Some(r@) == source_of(Some(c@)),
{
    let mut r = String::new();
    r.append("MSI Afterburner / ");
    r.append(c.source.as_str());
    assert(r@ =~= "MSI Afterburner / "@ + c.source@);
    r
}

/// Reads the memory: the best CPU temperature, and the best temperature and
/// load of the GPU that is meant.
pub fn parse(b: &[u8], only: Option<&GpuDevice>) -> (r: Option<AfterburnerReading>)
    ensures
        ({
            let n = entry_count(b@);
            let cpu = best(cpu_sensors(b@, n));
            let gpu = best(gpu_sensors(b@, only, n));
            let usage = best(usage_sensors(b@, only, n));
            &&& r is Some <==> complete(b@) && (cpu is Some || gpu is Some)
            &&& r is Some ==> r->0.holds(cpu, gpu, usage)
        }),
{
    match mapping_len(b) {
        Some(n) => {
            if b.len() < n {
                return None;
            }
        },
        None => {
            return None;
        },
    }
    let count: usize = read_u32(b, 12) as usize;
    let mut cpu: Option<Candidate> = None;
    let mut gpu: Option<Candidate> = None;
    let mut usage: Option<Candidate> = None;
    let mut i: usize = 0;
    while i < count
        invariant
            complete(b@),
            count == entry_count(b@),
            i <= count,
            seen(cpu) == best(cpu_sensors(b@, i as int)),
            seen(gpu) == best(gpu_sensors(b@, only, i as int)),
            seen(usage) == best(usage_sensors(b@, only, i as int)),
        decreases count - i,
    {
        read_sensor(b, i, only, &mut cpu, &mut gpu, &mut usage);
        i = i + 1;
    }
    if cpu.is_none() && gpu.is_none() {
        return None;
    }
    let cpu_temp = match &cpu {
        Some(c) => Some(c.value),
        None => None,
    };
    let gpu_temp = match &gpu {
        Some(c) => Some(c.value),
        None => None,
    };
    let gpu_usage = match &usage {
        Some(c) => Some(c.value),
        None => None,
    };
    let cpu_source = match &cpu {
        Some(c) => Some(named_source(c)),
        None => None,
    };
    let gpu_source = match &gpu {
        Some(c) => Some(named_source(c)),
        None => None,
    };
    Some(AfterburnerReading { cpu_temp, gpu_temp, cpu_source, gpu_source, gpu_usage })
}

} // verus!
