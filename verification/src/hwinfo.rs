//! HWiNFO's shared memory.
//!
//! A header with the signature `HWiS` gives place, size and number of the
//! sensor groups and of the readings.  It is packed or aligned to four bytes;
//! which, is found by whether it makes sense.  A group holds two names of 128
//! bytes, the second given by the user.  A reading holds its type, its group,
//! two labels likewise, a unit, and the value as a double.
use vstd::prelude::*;

use crate::bytes::{bytes_of, field, has_mark, le32, le64, read_field, read_u32, read_u64, signed};
use crate::doubles::{double_text, show_double};
use crate::fixed::{
    double_of, double_value, int_of, is_sane, lemma_one, millionths_of, one, sane, Binary,
};
use crate::gpus::{is_wanted, names_match, wanted, GpuDevice};
use crate::pick::{best, consider, seen, value_of, with, Candidate, CandidateView};
use crate::text::{
    ascii_lower, begins, contains, dec, digits, digits_of, ends, ends_with, lower, occurs,
    padded_left, push_dec, push_padded, same, starts_with, text_of, to_ascii_lower, to_lower,
};

verus! {

/// The readings of HWiNFO's sensors.
#[derive(Debug, Clone)]
pub struct HwinfoReading {
    pub cpu_temp: Option<i64>,
    pub gpu_temp: Option<i64>,
    /// Sensor group + label that was picked for the CPU temp (for diagnostics)
    pub cpu_source: Option<String>,
    /// Sensor group + label that was picked for the GPU temp (for diagnostics)
    pub gpu_source: Option<String>,
}

/// A raw temperature reading (for diagnostics).
#[derive(Debug, Clone)]
pub struct TempSample {
    pub sensor_name: String,
    pub label: String,
    /// None where the number is not finite or beyond `2^32`.
    pub value: Option<i64>,
    /// The number with one digit behind the point, whatever it is.
    pub shown: String,
}

/// A raw reading's contents.
pub ghost struct SampleView {
    pub sensor_name: Seq<char>,
    pub label: Seq<char>,
    pub value: Option<int>,
    pub shown: Seq<char>,
}

impl View for TempSample {
    type V = SampleView;

    open spec fn view(&self) -> SampleView {
        SampleView {
            sensor_name: self.sensor_name@,
            label: self.label@,
            value: int_of(self.value),
            shown: self.shown@,
        }
    }
}

/// Whether HWiNFO runs and can be read.
#[derive(Debug, Clone, Copy, PartialEq, Eq, Structural)]
pub enum HwinfoStatus {
    /// Shared memory is accessible: its sensors can be read.
    SharedMemoryReadable,
    /// The process is running but shared memory is not accessible
    /// (the user needs to enable Shared Memory Support in Sensor Settings).
    ProcessRunningNoSharedMem,
    /// HWiNFO is not running.
    NotRunning,
}

/// HWiNFO's state: running with shared memory, running without, or not.
pub fn check_status(available: bool, running: bool) -> (r: HwinfoStatus)
    ensures
        r == if available {
            HwinfoStatus::SharedMemoryReadable
        } else if running {
            HwinfoStatus::ProcessRunningNoSharedMem
        } else {
            HwinfoStatus::NotRunning
        },
{
    if available {
        HwinfoStatus::SharedMemoryReadable
    } else if running {
        HwinfoStatus::ProcessRunningNoSharedMem
    } else {
        HwinfoStatus::NotRunning
    }
}

/// Whether a process of this name is HWiNFO (HWiNFO.exe, HWiNFO64.exe).
pub fn is_hwinfo_process(name: &str) -> (r: bool)
    ensures
        r == (begins(ascii_lower(name@), "hwinfo"@) && ends(ascii_lower(name@), ".exe"@)),
{
    let low = to_ascii_lower(name);
    starts_with(low.as_str(), "hwinfo") && ends_with(low.as_str(), ".exe")
}

/// The names under which the memory may be found, in the order to try them:
/// HWiNFO typically runs as administrator.
pub fn candidate_names() -> (r: Vec<&'static str>)
    ensures
        r@.map_values(|s: &'static str| s@) == seq![
            "Global\\HWiNFO_SENS_SM2"@,
            "HWiNFO_SENS_SM2"@,
        ],
{
    let mut r: Vec<&'static str> = Vec::new();
    r.push("Global\\HWiNFO_SENS_SM2");
    r.push("HWiNFO_SENS_SM2");
    assert(r@.map_values(|s: &'static str| s@) =~= seq![
        "Global\\HWiNFO_SENS_SM2"@,
        "HWiNFO_SENS_SM2"@,
    ]);
    r
}

// ---------------------------------------------------------------------------
// Layout

/// Places, sizes and numbers of the sensor groups and the readings.
#[derive(Clone, Copy)]
pub struct Header {
    pub offset_sensor: usize,
    pub size_sensor: usize,
    pub num_sensor: usize,
    pub offset_reading: usize,
    pub size_reading: usize,
    pub num_reading: usize,
}

impl Header {
    /// The header makes sense: the groups begin just past it, the readings
    /// right behind them, and sizes and numbers are sane.
    pub open spec fn wf(self) -> bool {
        &&& 40 <= self.offset_sensor <= 64
        &&& 1 <= self.num_sensor <= 1024
        &&& 1 <= self.num_reading <= 65535
        &&& 264 <= self.size_sensor <= 2048
        &&& 316 <= self.size_reading <= 2048
        &&& self.offset_reading == self.offset_sensor + self.num_sensor * self.size_sensor
    }

    /// How much memory there is.
    pub open spec fn extent(self) -> int {
        self.offset_reading + self.num_reading * self.size_reading
    }
}

/// The header whose first field stands at `pos`.
pub open spec fn header_at(b: Seq<u8>, pos: int) -> Header {
    Header {
        offset_sensor: le32(b, pos) as usize,
        size_sensor: le32(b, pos + 4) as usize,
        num_sensor: le32(b, pos + 8) as usize,
        offset_reading: le32(b, pos + 12) as usize,
        size_reading: le32(b, pos + 16) as usize,
        num_reading: le32(b, pos + 20) as usize,
    }
}

/// The header at `pos`, if it makes sense.
pub open spec fn layout(b: Seq<u8>, pos: int) -> Option<Header> {
    if b.len() >= pos + 24 && header_at(b, pos).wf() {
        Some(header_at(b, pos))
    } else {
        None
    }
}

/// The header: packed, or aligned where the packed one makes no sense.
pub open spec fn header(b: Seq<u8>) -> Option<Header> {
    if b.len() < 64 || !signed(b, seq![0x48, 0x57, 0x69, 0x53]) {
        None
    } else if layout(b, 20) is Some {
        layout(b, 20)
    } else {
        layout(b, 24)
    }
}

/// The memory is HWiNFO's, and all of it.
pub open spec fn complete(b: Seq<u8>) -> bool {
    header(b) is Some && b.len() >= header(b)->0.extent()
}

/// Whether the layout whose first field stands at `pos` makes sense.
pub fn try_layout(b: &[u8], pos: usize) -> (r: Option<Header>)
    requires
        pos <= usize::MAX - 24,
    ensures
        r == layout(b@, pos as int),
{
    if b.len() < pos + 24 {
        return None;
    }
    let off_s: usize = read_u32(b, pos) as usize;
    let sz_s: usize = read_u32(b, pos + 4) as usize;
    let n_s: usize = read_u32(b, pos + 8) as usize;
    let off_r: usize = read_u32(b, pos + 12) as usize;
    let sz_r: usize = read_u32(b, pos + 16) as usize;
    let n_r: usize = read_u32(b, pos + 20) as usize;
    if off_s < 40 || off_s > 64 {
        return None;
    }
    if n_s == 0 || n_s > 1024 || n_r == 0 || n_r > 65535 {
        return None;
    }
    if sz_s < 264 || sz_s > 2048 || sz_r < 316 || sz_r > 2048 {
        return None;
    }
    assert(0 <= n_s * sz_s <= 1024 * 2048) by (nonlinear_arith)
        requires
            0 <= n_s <= 1024,
            0 <= sz_s <= 2048,
    ;
    if off_r != off_s + n_s * sz_s {
        return None;
    }
    Some(
        Header {
            offset_sensor: off_s,
            size_sensor: sz_s,
            num_sensor: n_s,
            offset_reading: off_r,
            size_reading: sz_r,
            num_reading: n_r,
        },
    )
}

fn read_header(b: &[u8]) -> (r: Option<Header>)
    ensures
        r == header(b@),
{
    if b.len() < 64 || !has_mark(b, 0x48, 0x57, 0x69, 0x53) {
        return None;
    }
    match try_layout(b, 20) {
        Some(h) => Some(h),
        None => try_layout(b, 24),
    }
}

/// How much memory there is to read, by the header; none if it is not
/// HWiNFO's.
pub fn mapping_len(b: &[u8]) -> (r: Option<usize>)
    ensures
        r is Some <==> header(b@) is Some,
        r is Some ==> r->0 == header(b@)->0.extent(),
{
    match read_header(b) {
        Some(h) => {
            let n: usize = h.num_reading;
            let s: usize = h.size_reading;
            assert(0 <= n * s <= 65535 * 2048) by (nonlinear_arith)
                requires
                    0 <= n <= 65535,
                    0 <= s <= 2048,
            ;
            assert(0 <= h.num_sensor * h.size_sensor <= 1024 * 2048) by (nonlinear_arith)
                requires
                    0 <= h.num_sensor <= 1024,
                    0 <= h.size_sensor <= 2048,
            ;
            Some(h.offset_reading + n * s)
        },
        None => None,
    }
}

fn complete_header(b: &[u8]) -> (r: Option<Header>)
    ensures
        r is Some <==> complete(b@),
        r is Some ==> r == header(b@) && r->0.wf(),
{
    match mapping_len(b) {
        Some(n) => if b.len() < n {
            None
        } else {
            read_header(b)
        },
        None => None,
    }
}

/// The `i`th group.
pub open spec fn group(b: Seq<u8>, h: Header, i: int) -> Seq<u8> {
    b.subrange(
        h.offset_sensor + i * h.size_sensor,
        h.offset_sensor + i * h.size_sensor + h.size_sensor,
    )
}

/// The `i`th reading.
pub open spec fn reading(b: Seq<u8>, h: Header, i: int) -> Seq<u8> {
    b.subrange(
        h.offset_reading + i * h.size_reading,
        h.offset_reading + i * h.size_reading + h.size_reading,
    )
}

/// The user's text, or the original one where there is none.
pub open spec fn preferred(user: Seq<char>, original: Seq<char>) -> Seq<char> {
    if user.len() > 0 {
        user
    } else {
        original
    }
}

/// The name of the `i`th group, empty where there is no such group.
pub open spec fn group_name(b: Seq<u8>, h: Header, i: int) -> Seq<char> {
    if 0 <= i < h.num_sensor {
        let e = group(b, h, i);
        preferred(field(e, 136, 264), field(e, 8, 136))
    } else {
        Seq::empty()
    }
}

/// A reading is a temperature.
pub open spec fn is_temp(e: Seq<u8>) -> bool {
    le32(e, 0) == 1
}

/// The label of a reading.
pub open spec fn label(e: Seq<u8>) -> Seq<char> {
    preferred(field(e, 140, 268), field(e, 12, 140))
}

/// A number that a packed value may be.
pub open spec fn plausible(v: Binary) -> bool {
    -100 * one() < v.exact() < 500 * one()
}

/// The bits of a reading's value: at its packed place, or at its aligned one
/// where the first is nonsense.
pub open spec fn value_bits(e: Seq<u8>) -> u64 {
    match double_value(le64(e, 284)) {
        Some(v) if plausible(v) => le64(e, 284),
        _ => le64(e, 288),
    }
}

/// The value of a reading, if it is a number.
pub open spec fn value(e: Seq<u8>) -> Option<Binary> {
    double_value(value_bits(e))
}

/// The names that a user gave to a group and to a reading are taken before the
/// original ones, and these only where the user gave none.
pub proof fn lemma_names_of_the_user(b: Seq<u8>, h: Header, i: int, e: Seq<u8>)
    requires
        0 <= i < h.num_sensor,
    ensures
        ({
            let g = group(b, h, i);
            &&& field(e, 140, 268).len() > 0 ==> label(e) == field(e, 140, 268)
            &&& field(e, 140, 268).len() == 0 ==> label(e) == field(e, 12, 140)
            &&& field(g, 136, 264).len() > 0 ==> group_name(b, h, i) == field(g, 136, 264)
            &&& field(g, 136, 264).len() == 0 ==> group_name(b, h, i) == field(g, 8, 136)
        }),
{
}

/// A reading's number stands at 284 where what stands there is between -100 and
/// 500, else at 288.
pub proof fn lemma_number_is_plausible(e: Seq<u8>)
    ensures
        ({
            let first = double_value(le64(e, 284));
            let fits = first is Some && -100 * one() < first->0.exact() < 500 * one();
            &&& fits ==> value(e) == first
            &&& !fits ==> value(e) == double_value(le64(e, 288))
        }),
{
}

/// The tables follow one another: that of the groups behind the header, and that
/// of the readings right behind it.  No reading of one that is complete lies
/// outside of the memory, and no two lie on one another.
pub proof fn lemma_tables(b: Seq<u8>, i: int, j: int)
    requires
        complete(b),
        0 <= i < j < header(b)->0.num_reading,
    ensures
        ({
            let h = header(b)->0;
            &&& signed(b, seq![0x48, 0x57, 0x69, 0x53])
            &&& h.offset_reading == h.offset_sensor + h.num_sensor * h.size_sensor
            &&& h.offset_reading + i * h.size_reading + h.size_reading <= h.offset_reading + j
                * h.size_reading
            &&& h.offset_reading + j * h.size_reading + h.size_reading <= b.len()
            &&& reading(b, h, i).len() == h.size_reading && h.size_reading >= 316
        }),
{
    let h = header(b)->0;
    let s = h.size_reading as int;
    let n = h.num_reading as int;
    assert(i * s + s <= j * s && j * s + s <= n * s && 0 <= i * s) by (nonlinear_arith)
        requires
            0 <= i < j < n,
            s >= 0,
    ;
}

fn group_bounds(b: &[u8], h: &Header, i: usize) -> (r: usize)
    requires
        h.wf(),
        b.len() >= h.extent(),
        i < h.num_sensor,
    ensures
        r == h.offset_sensor + i * h.size_sensor,
        r + h.size_sensor <= b.len(),
{
    let n: usize = h.num_sensor;
    let s: usize = h.size_sensor;
    assert(i * s + s <= n * s && 0 <= i * s <= 1024 * 2048) by (nonlinear_arith)
        requires
            0 <= i,
            i + 1 <= n <= 1024,
            0 < s <= 2048,
    ;
    assert(h.num_reading * h.size_reading >= 0) by (nonlinear_arith)
        requires
            h.num_reading >= 0,
            h.size_reading >= 0,
    ;
    h.offset_sensor + i * s
}

fn reading_bounds(b: &[u8], h: &Header, i: usize) -> (r: usize)
    requires
        h.wf(),
        b.len() >= h.extent(),
        i < h.num_reading,
    ensures
        r == h.offset_reading + i * h.size_reading,
        r + h.size_reading <= b.len(),
{
    let n: usize = h.num_reading;
    let s: usize = h.size_reading;
    assert(i * s + s <= n * s && 0 <= i * s <= 65535 * 2048) by (nonlinear_arith)
        requires
            0 <= i,
            i + 1 <= n <= 65535,
            0 < s <= 2048,
    ;
    assert(0 <= h.num_sensor * h.size_sensor <= 1024 * 2048) by (nonlinear_arith)
        requires
            0 <= h.num_sensor <= 1024,
            0 <= h.size_sensor <= 2048,
    ;
    h.offset_reading + i * s
}

fn prefer(user: String, original: String) -> (r: String)
    ensures
        r@ == preferred(user@, original@),
{
    if !user.as_str().is_empty() {
        user
    } else {
        original
    }
}

fn read_group_name(b: &[u8], h: &Header, i: usize) -> (r: String)
    requires
        h.wf(),
        b.len() >= h.extent(),
    ensures
        r@ == group_name(b@, *h, i as int),
{
    if i >= h.num_sensor {
        return String::new();
    }
    let at: usize = group_bounds(b, h, i);
    let e = vstd::slice::slice_subrange(b, at, at + h.size_sensor);
    prefer(read_field(e, 136, 264), read_field(e, 8, 136))
}

fn read_bits(e: &[u8]) -> (r: u64)
    requires
        e.len() >= 316,
    ensures
        r == value_bits(e@),
{
    let packed: u64 = read_u64(e, 284);
    match double_of(packed) {
        Some(v) => {
            proof {
                v.lemma_size();
                lemma_one();
            }
            let fits = if v.negative {
                v.size_below(100)
            } else {
                v.size_below(500)
            };
            if fits {
                packed
            } else {
                read_u64(e, 288)
            }
        },
        None => read_u64(e, 288),
    }
}

fn read_value(e: &[u8]) -> (r: Option<Binary>)
    requires
        e.len() >= 316,
    ensures
        r == value(e@),
        r is Some ==> r->0.wf(),
{
    double_of(read_bits(e))
}

// ---------------------------------------------------------------------------
// Scores

/// A group whose name in lower case says that it is of a CPU.
pub open spec fn cpu_group(s: Seq<char>) -> bool {
    occurs(s, "cpu"@) || occurs(s, "intel core"@) || occurs(s, "ryzen"@) || occurs(
        s,
        "threadripper"@,
    ) || occurs(s, "xeon"@) || occurs(s, "epyc"@)
}

/// A group whose name in lower case says that it is of a GPU.
pub open spec fn gpu_group(s: Seq<char>) -> bool {
    occurs(s, "gpu"@) || occurs(s, "nvidia"@) || occurs(s, "geforce"@) || occurs(s, "radeon"@)
        || occurs(s, "rtx "@) || occurs(s, "gtx "@) || occurs(s, "arc "@) || (occurs(s, "amd "@)
        && !occurs(s, "ryzen"@) && !occurs(s, "epyc"@))
}

/// How good a CPU temperature a reading is, by its group and label in lower
/// case: the die or package before single cores, board sensors not at all.
pub open spec fn cpu_score(s: Seq<char>, l: Seq<char>) -> Option<i32> {
    if !cpu_group(s) {
        None
    } else if occurs(l, "motherboard"@) || occurs(l, "socket"@) || occurs(l, "vrm"@) {
        None
    } else if occurs(l, "cpu package"@) || l == "package"@ {
        Some(100i32)
    } else if occurs(l, "tctl/tdie"@) || occurs(l, "tctl"@) || occurs(l, "tdie"@) {
        Some(95i32)
    } else if occurs(l, "cpu die"@) || occurs(l, "die (average)"@) {
        Some(90i32)
    } else if occurs(l, "core max"@) || occurs(l, "ccd max"@) {
        Some(85i32)
    } else if l == "cpu"@ || l == "cpu temperature"@ {
        Some(80i32)
    } else if begins(l, "ccd"@) {
        Some(70i32)
    } else if occurs(l, "core"@) && !occurs(l, "distance"@) {
        Some(50i32)
    } else {
        None
    }
}

/// How good a GPU temperature a reading is, by its group and label in lower
/// case.
pub open spec fn gpu_score(s: Seq<char>, l: Seq<char>) -> Option<i32> {
    if !gpu_group(s) {
        None
    } else if occurs(l, "memory"@) || occurs(l, "vram"@) {
        Some(20i32)
    } else if occurs(l, "hot spot"@) || occurs(l, "hotspot"@) {
        Some(100i32)
    } else if occurs(l, "junction"@) {
        Some(95i32)
    } else if l == "gpu temperature"@ || l == "gpu"@ {
        Some(90i32)
    } else if occurs(l, "edge"@) {
        Some(85i32)
    } else if occurs(l, "gpu core"@) || l == "core"@ {
        Some(80i32)
    } else if occurs(l, "gpu"@) && occurs(l, "temperature"@) {
        Some(75i32)
    } else if occurs(l, "temperature"@) {
        Some(60i32)
    } else {
        None
    }
}

/// Higher score = better CPU temperature candidate, by group and label in
/// lower case. None = not a CPU temp.
pub fn score_cpu_lower(s: &str, l: &str) -> (r: Option<i32>)
    ensures
        r == cpu_score(s@, l@),
{
    let is_cpu = contains(s, "cpu") || contains(s, "intel core") || contains(s, "ryzen")
        || contains(s, "threadripper") || contains(s, "xeon") || contains(s, "epyc");
    if !is_cpu {
        None
    } else if contains(l, "motherboard") || contains(l, "socket") || contains(l, "vrm") {
        None
    } else if contains(l, "cpu package") || same(l, "package") {
        Some(100)
    } else if contains(l, "tctl/tdie") || contains(l, "tctl") || contains(l, "tdie") {
        Some(95)
    } else if contains(l, "cpu die") || contains(l, "die (average)") {
        Some(90)
    } else if contains(l, "core max") || contains(l, "ccd max") {
        Some(85)
    } else if same(l, "cpu") || same(l, "cpu temperature") {
        Some(80)
    } else if starts_with(l, "ccd") {
        Some(70)
    } else if contains(l, "core") && !contains(l, "distance") {
        Some(50)
    } else {
        None
    }
}

/// Higher score = better GPU temperature candidate, by group and label in
/// lower case. None = not a GPU temp.
pub fn score_gpu_lower(s: &str, l: &str) -> (r: Option<i32>)
    ensures
        r == gpu_score(s@, l@),
{
    let is_gpu = contains(s, "gpu") || contains(s, "nvidia") || contains(s, "geforce")
        || contains(s, "radeon") || contains(s, "rtx ") || contains(s, "gtx ") || contains(
        s,
        "arc ",
    ) || (contains(s, "amd ") && !contains(s, "ryzen") && !contains(s, "epyc"));
    if !is_gpu {
        None
    } else if contains(l, "memory") || contains(l, "vram") {
        Some(20)
    } else if contains(l, "hot spot") || contains(l, "hotspot") {
        Some(100)
    } else if contains(l, "junction") {
        Some(95)
    } else if same(l, "gpu temperature") || same(l, "gpu") {
        Some(90)
    } else if contains(l, "edge") {
        Some(85)
    } else if contains(l, "gpu core") || same(l, "core") {
        Some(80)
    } else if contains(l, "gpu") && contains(l, "temperature") {
        Some(75)
    } else if contains(l, "temperature") {
        Some(60)
    } else {
        None
    }
}

/// Higher score = better CPU temperature candidate. None = not a CPU temp.
pub fn score_cpu(sensor: &str, label: &str) -> (r: Option<i32>)
    ensures
        r == cpu_score(lower(sensor@), lower(label@)),
{
    score_cpu_lower(to_lower(sensor).as_str(), to_lower(label).as_str())
}

/// Higher score = better GPU temperature candidate. None = not a GPU temp.
pub fn score_gpu(sensor: &str, label: &str) -> (r: Option<i32>)
    ensures
        r == gpu_score(lower(sensor@), lower(label@)),
{
    score_gpu_lower(to_lower(sensor).as_str(), to_lower(label).as_str())
}

// ---------------------------------------------------------------------------
// What the scores prefer

/// A label names a GPU's memory.
pub open spec fn names_memory(l: Seq<char>) -> bool {
    occurs(l, "memory"@) || occurs(l, "vram"@)
}

/// A label names the hottest spot of a die.
pub open spec fn names_hot_spot(l: Seq<char>) -> bool {
    occurs(l, "hot spot"@) || occurs(l, "hotspot"@)
}

/// A group's name says that it is of a GPU: it holds one of these words, or
/// "amd" without being of a CPU.
pub open spec fn of_a_gpu(s: Seq<char>) -> bool {
    ||| occurs(s, "gpu"@)
    ||| occurs(s, "nvidia"@)
    ||| occurs(s, "geforce"@)
    ||| occurs(s, "radeon"@)
    ||| occurs(s, "rtx "@)
    ||| occurs(s, "gtx "@)
    ||| occurs(s, "arc "@)
    ||| occurs(s, "amd "@) && !occurs(s, "ryzen"@) && !occurs(s, "epyc"@)
}

/// A group's name says that it is of a CPU.
pub open spec fn of_a_cpu(s: Seq<char>) -> bool {
    ||| occurs(s, "cpu"@)
    ||| occurs(s, "intel core"@)
    ||| occurs(s, "ryzen"@)
    ||| occurs(s, "threadripper"@)
    ||| occurs(s, "xeon"@)
    ||| occurs(s, "epyc"@)
}

/// Which readings count as a GPU's, by group and label in lower case.
pub proof fn lemma_gpu_readings(s: Seq<char>, l: Seq<char>)
    ensures
        gpu_score(s, l) is Some <==> of_a_gpu(s) && (names_memory(l) || names_hot_spot(l) || occurs(
            l,
            "junction"@,
        ) || l == "gpu"@ || l == "core"@ || occurs(l, "edge"@) || occurs(l, "gpu core"@) || occurs(
            l,
            "temperature"@,
        )),
{
    reveal_strlit("gpu temperature");
    reveal_strlit("temperature");
    let g = "gpu temperature"@;
    let t = "temperature"@;
    assert(g.subrange(4, 15) =~= t);
    assert(crate::text::at(g, t, 4));
}

/// Within a GPU's group, the memory is taken only where nothing else is listed;
/// the hottest spot is taken before the junction, this before the GPU's own
/// temperature, this before the edge, this before the core, and all of them
/// before what merely is some temperature.  Readings of the same sort are equal.
pub proof fn lemma_gpu_preference(s: Seq<char>, a: Seq<char>, b: Seq<char>)
    requires
        gpu_score(s, a) is Some,
        gpu_score(s, b) is Some,
    ensures
        ({
            let x = gpu_score(s, a)->0;
            let y = gpu_score(s, b)->0;
            let whole = |l: Seq<char>| l == "gpu temperature"@ || l == "gpu"@;
            let core = |l: Seq<char>| occurs(l, "gpu core"@) || l == "core"@;
            let some_gpu = |l: Seq<char>| occurs(l, "gpu"@) && occurs(l, "temperature"@);
            &&& names_memory(a) && !names_memory(b) ==> x < y
            &&& names_memory(a) && names_memory(b) ==> x == y
            &&& !names_memory(a) && !names_memory(b) ==> {
                &&& names_hot_spot(a) && !names_hot_spot(b) ==> x > y
                &&& names_hot_spot(a) && names_hot_spot(b) ==> x == y
                &&& !names_hot_spot(a) && !names_hot_spot(b) ==> {
                    &&& occurs(a, "junction"@) && !occurs(b, "junction"@) ==> x > y
                    &&& occurs(a, "junction"@) && occurs(b, "junction"@) ==> x == y
                    &&& !occurs(a, "junction"@) && !occurs(b, "junction"@) ==> {
                        &&& whole(a) && !whole(b) ==> x > y
                        &&& whole(a) && whole(b) ==> x == y
                        &&& !whole(a) && !whole(b) ==> {
                            &&& occurs(a, "edge"@) && !occurs(b, "edge"@) ==> x > y
                            &&& occurs(a, "edge"@) && occurs(b, "edge"@) ==> x == y
                            &&& !occurs(a, "edge"@) && !occurs(b, "edge"@) ==> {
                                &&& core(a) && !core(b) ==> x > y
                                &&& core(a) && core(b) ==> x == y
                                &&& !core(a) && !core(b) ==> {
                                    &&& some_gpu(a) && !some_gpu(b) ==> x > y
                                    &&& some_gpu(a) == some_gpu(b) ==> x == y
                                }
                            }
                        }
                    }
                }
            }
        }),
{
}

/// A label names a sensor of the board.
pub open spec fn names_board(l: Seq<char>) -> bool {
    occurs(l, "motherboard"@) || occurs(l, "socket"@) || occurs(l, "vrm"@)
}

/// A label names the control temperature or that of the die.
pub open spec fn names_die(l: Seq<char>) -> bool {
    occurs(l, "tctl"@) || occurs(l, "tdie"@)
}

/// `tctl/tdie` holds `tctl`.
proof fn lemma_names_die(l: Seq<char>)
    ensures
        occurs(l, "tctl/tdie"@) ==> names_die(l),
{
    reveal_strlit("tctl/tdie");
    reveal_strlit("tctl");
    if occurs(l, "tctl/tdie"@) {
        let i = choose|i: int| crate::text::at(l, "tctl/tdie"@, i);
        assert(l.subrange(i, i + 4) =~= "tctl/tdie"@.subrange(0, 4));
        assert("tctl/tdie"@.subrange(0, 4) =~= "tctl"@);
        assert(crate::text::at(l, "tctl"@, i));
    }
}

/// Which readings count as a CPU's, by group and label in lower case: none of
/// the board, and of the cores not their distance from a limit.
pub proof fn lemma_cpu_readings(s: Seq<char>, l: Seq<char>)
    ensures
        cpu_score(s, l) is Some <==> of_a_cpu(s) && !names_board(l) && (occurs(l, "cpu package"@)
            || l == "package"@ || names_die(l) || occurs(l, "cpu die"@) || occurs(
            l,
            "die (average)"@,
        ) || occurs(l, "core max"@) || occurs(l, "ccd max"@) || l == "cpu"@ || l
            == "cpu temperature"@ || begins(l, "ccd"@) || (occurs(l, "core"@) && !occurs(
            l,
            "distance"@,
        ))),
{
    lemma_names_die(l);
}

/// Within a CPU's group, the package is taken before the die, this before the
/// average over the die, this before the hottest of several, this before what
/// is just the CPU, this before a part of the die, and single cores last.
/// Readings of the same sort are equal.
pub proof fn lemma_cpu_preference(s: Seq<char>, a: Seq<char>, b: Seq<char>)
    requires
        cpu_score(s, a) is Some,
        cpu_score(s, b) is Some,
    ensures
        ({
            let x = cpu_score(s, a)->0;
            let y = cpu_score(s, b)->0;
            let package = |l: Seq<char>| occurs(l, "cpu package"@) || l == "package"@;
            let mean = |l: Seq<char>| occurs(l, "cpu die"@) || occurs(l, "die (average)"@);
            let most = |l: Seq<char>| occurs(l, "core max"@) || occurs(l, "ccd max"@);
            let whole = |l: Seq<char>| l == "cpu"@ || l == "cpu temperature"@;
            &&& package(a) && !package(b) ==> x > y
            &&& package(a) && package(b) ==> x == y
            &&& !package(a) && !package(b) ==> {
                &&& names_die(a) && !names_die(b) ==> x > y
                &&& names_die(a) && names_die(b) ==> x == y
                &&& !names_die(a) && !names_die(b) ==> {
                    &&& mean(a) && !mean(b) ==> x > y
                    &&& mean(a) && mean(b) ==> x == y
                    &&& !mean(a) && !mean(b) ==> {
                        &&& most(a) && !most(b) ==> x > y
                        &&& most(a) && most(b) ==> x == y
                        &&& !most(a) && !most(b) ==> {
                            &&& whole(a) && !whole(b) ==> x > y
                            &&& whole(a) && whole(b) ==> x == y
                            &&& !whole(a) && !whole(b) ==> {
                                &&& begins(a, "ccd"@) && !begins(b, "ccd"@) ==> x > y
                                &&& begins(a, "ccd"@) == begins(b, "ccd"@) ==> x == y
                            }
                        }
                    }
                }
            }
        }),
{
    lemma_names_die(a);
    lemma_names_die(b);
}

// ---------------------------------------------------------------------------
// Readings

/// Where a reading comes from: group and label.
pub open spec fn origin(sensor: Seq<char>, l: Seq<char>) -> Seq<char> {
    sensor + " / "@ + l
}

/// A candidate of this score, if there is one.
pub open spec fn scored(score: Option<i32>, v: Binary, source: Seq<char>) -> Option<CandidateView> {
    match score {
        Some(s) => Some(CandidateView { score: s as int, value: v.millionths(), source }),
        None => None,
    }
}

/// The `i`th reading as a CPU temperature.
pub open spec fn as_cpu(b: Seq<u8>, h: Header, i: int) -> Option<CandidateView> {
    let e = reading(b, h, i);
    let s = group_name(b, h, le32(e, 4) as int);
    match value(e) {
        Some(v) if is_temp(e) && sane(v) => scored(
            cpu_score(lower(s), lower(label(e))),
            v,
            origin(s, label(e)),
        ),
        _ => None,
    }
}

/// The `i`th reading as a temperature of the GPU that is meant.
pub open spec fn as_gpu(
    b: Seq<u8>,
    h: Header,
    only: Option<&GpuDevice>,
    i: int,
) -> Option<CandidateView> {
    let e = reading(b, h, i);
    let s = group_name(b, h, le32(e, 4) as int);
    match value(e) {
        Some(v) if is_temp(e) && sane(v) && wanted(only, s) => scored(
            gpu_score(lower(s), lower(label(e))),
            v,
            origin(s, label(e)),
        ),
        _ => None,
    }
}

/// The CPU temperatures among the first `n` readings.
pub open spec fn cpu_sensors(b: Seq<u8>, h: Header, n: int) -> Seq<CandidateView>
    decreases n,
{
    if n <= 0 {
        Seq::empty()
    } else {
        with(cpu_sensors(b, h, n - 1), as_cpu(b, h, n - 1))
    }
}

/// The temperatures of the GPU that is meant among the first `n` readings.
pub open spec fn gpu_sensors(
    b: Seq<u8>,
    h: Header,
    only: Option<&GpuDevice>,
    n: int,
) -> Seq<CandidateView>
    decreases n,
{
    if n <= 0 {
        Seq::empty()
    } else {
        with(gpu_sensors(b, h, only, n - 1), as_gpu(b, h, only, n - 1))
    }
}

/// The source of a candidate.
pub open spec fn source_of(c: Option<CandidateView>) -> Option<Seq<char>> {
    match c {
        Some(x) => Some(x.source),
        None => None,
    }
}

impl HwinfoReading {
    /// The reading is made of these candidates.
    pub open spec fn holds(self, cpu: Option<CandidateView>, gpu: Option<CandidateView>) -> bool {
        &&& int_of(self.cpu_temp) == value_of(cpu)
        &&& int_of(self.gpu_temp) == value_of(gpu)
        &&& text_of(self.cpu_source) == source_of(cpu)
        &&& text_of(self.gpu_source) == source_of(gpu)
    }
}

fn origin_of(sensor: &str, l: &str) -> (r: String)
    ensures
        r@ == origin(sensor@, l@),
{
    let mut r = String::new();
    r.append(sensor);
    r.append(" / ");
    r.append(l);
    assert(r@ =~= origin(sensor@, l@));
    r
}

/// Looks at one reading.
fn read_sensor(
    b: &[u8],
    h: &Header,
    i: usize,
    only: Option<&GpuDevice>,
    cpu: &mut Option<Candidate>,
    gpu: &mut Option<Candidate>,
)
    requires
        h.wf(),
        b.len() >= h.extent(),
        i < h.num_reading,
        seen(*old(cpu)) == best(cpu_sensors(b@, *h, i as int)),
        seen(*old(gpu)) == best(gpu_sensors(b@, *h, only, i as int)),
    ensures
        seen(*final(cpu)) == best(cpu_sensors(b@, *h, i + 1)),
        seen(*final(gpu)) == best(gpu_sensors(b@, *h, only, i + 1)),
{
    let at: usize = reading_bounds(b, h, i);
    let e = vstd::slice::slice_subrange(b, at, at + h.size_reading);
    assert(e@ == reading(b@, *h, i as int));
    if read_u32(e, 0) != 1 {
        return ;
    }
    let value: Binary = match read_value(e) {
        Some(v) => v,
        None => {
            return ;
        },
    };
    if !is_sane(&value) {
        return ;
    }
    proof {
        value.lemma_size();
    }
    let v: i64 = millionths_of(&value);
    let label = prefer(read_field(e, 140, 268), read_field(e, 12, 140));
    let sensor = read_group_name(b, h, read_u32(e, 4) as usize);
    match score_cpu(sensor.as_str(), label.as_str()) {
        Some(score) => {
            let c = Candidate {
                score,
                value: v,
                source: origin_of(sensor.as_str(), label.as_str()),
            };
            consider(cpu, c, Ghost(cpu_sensors(b@, *h, i as int)));
        },
        None => {},
    }
    if !is_wanted(only, sensor.as_str()) {
        return ;
    }
    match score_gpu(sensor.as_str(), label.as_str()) {
        Some(score) => {
            let c = Candidate {
                score,
                value: v,
                source: origin_of(sensor.as_str(), label.as_str()),
            };
            consider(gpu, c, Ghost(gpu_sensors(b@, *h, only, i as int)));
        },
        None => {},
    }
}

/// Reads the memory: the best CPU temperature, and the best temperature of the
/// GPU that is meant.
pub fn parse(b: &[u8], only: Option<&GpuDevice>) -> (r: Option<HwinfoReading>)
    ensures
        ({
            let h = header(b@)->0;
            let cpu = best(cpu_sensors(b@, h, h.num_reading as int));
            let gpu = best(gpu_sensors(b@, h, only, h.num_reading as int));
            &&& r is Some <==> complete(b@) && (cpu is Some || gpu is Some)
            &&& r is Some ==> r->0.holds(cpu, gpu)
        }),
{
    let h: Header = match complete_header(b) {
        Some(h) => h,
        None => {
            return None;
        },
    };
    let mut cpu: Option<Candidate> = None;
    let mut gpu: Option<Candidate> = None;
    let mut i: usize = 0;
    while i < h.num_reading
        invariant
            h.wf(),
            b.len() >= h.extent(),
            i <= h.num_reading,
            seen(cpu) == best(cpu_sensors(b@, h, i as int)),
            seen(gpu) == best(gpu_sensors(b@, h, only, i as int)),
        decreases h.num_reading - i,
    {
        read_sensor(b, &h, i, only, &mut cpu, &mut gpu);
        i = i + 1;
    }
    if cpu.is_none() && gpu.is_none() {
        return None;
    }
    let (cpu_temp, cpu_source) = match cpu {
        Some(c) => (Some(c.value), Some(c.source)),
        None => (None, None),
    };
    let (gpu_temp, gpu_source) = match gpu {
        Some(c) => (Some(c.value), Some(c.source)),
        None => (None, None),
    };
    Some(HwinfoReading { cpu_temp, gpu_temp, cpu_source, gpu_source })
}

// ---------------------------------------------------------------------------
// Which reading is taken

/// The `i`th reading is a temperature between 0 °C and 150 °C.
pub open spec fn usable(b: Seq<u8>, h: Header, i: int) -> bool {
    let e = reading(b, h, i);
    le32(e, 0) == 1 && value(e) is Some && 0 < value(e)->0.exact() < 150 * one()
}

/// The name of the group of the `i`th reading, and its label, in lower case.
pub open spec fn low_names(b: Seq<u8>, h: Header, i: int) -> (Seq<char>, Seq<char>) {
    let e = reading(b, h, i);
    (lower(group_name(b, h, le32(e, 4) as int)), lower(label(e)))
}

/// What is taken of the `i`th reading: its number, and its group and label.
pub open spec fn taken_from(b: Seq<u8>, h: Header, i: int, c: CandidateView) -> bool {
    let e = reading(b, h, i);
    &&& c.value == value(e)->0.millionths()
    &&& c.source == group_name(b, h, le32(e, 4) as int) + " / "@ + label(e)
}

/// The temperature that is taken for the CPU is a usable reading of the CPU.  No
/// other scores higher, and none in front of it as high.  None is taken only
/// where there is no such reading.
pub proof fn lemma_cpu_taken(b: Seq<u8>, h: Header, n: int)
    requires
        0 <= n,
    ensures
        ({
            let score = |i: int| cpu_score(low_names(b, h, i).0, low_names(b, h, i).1);
            let fits = |i: int| usable(b, h, i) && score(i) is Some;
            match best(cpu_sensors(b, h, n)) {
                Some(c) => exists|i: int|
                    {
                        &&& 0 <= i < n && #[trigger] fits(i) && taken_from(b, h, i, c) && c.score
                            == score(i)->0
                        &&& forall|j: int|
                            0 <= j < n && #[trigger] fits(j) ==> score(j)->0 <= score(i)->0 && (j
                                < i ==> score(j)->0 < score(i)->0)
                    },
                None => forall|i: int| 0 <= i < n ==> !#[trigger] fits(i),
            }
        }),
    decreases n,
{
    let score = |i: int| cpu_score(low_names(b, h, i).0, low_names(b, h, i).1);
    let fits = |i: int| usable(b, h, i) && score(i) is Some;
    if n > 0 {
        lemma_cpu_taken(b, h, n - 1);
        let front = cpu_sensors(b, h, n - 1);
        let m = n - 1;
        assert(as_cpu(b, h, m) is Some <==> fits(m));
        if fits(m) {
            let c = as_cpu(b, h, m)->0;
            assert(front.push(c).drop_last() =~= front);
            assert(taken_from(b, h, m, c));
            if best(front) is Some {
                let d = best(front)->0;
                let i = choose|i: int|
                    {
                        &&& 0 <= i < m && #[trigger] fits(i) && taken_from(b, h, i, d) && d.score
                            == score(i)->0
                        &&& forall|j: int|
                            0 <= j < m && #[trigger] fits(j) ==> score(j)->0 <= score(i)->0 && (j
                                < i ==> score(j)->0 < score(i)->0)
                    };
                assert(fits(i));
            }
        }
    }
}

/// The temperature that is taken for a GPU is a usable reading of a GPU, of the
/// one that is meant where one is.  No other scores higher, and none in front of
/// it as high.  None is taken only where there is no such reading.
pub proof fn lemma_gpu_taken(b: Seq<u8>, h: Header, only: Option<&GpuDevice>, n: int)
    requires
        0 <= n,
    ensures
        ({
            let score = |i: int| gpu_score(low_names(b, h, i).0, low_names(b, h, i).1);
            let name = |i: int| group_name(b, h, le32(reading(b, h, i), 4) as int);
            let fits = |i: int|
                usable(b, h, i) && score(i) is Some && (only is Some ==> names_match(
                    only->0.name@,
                    name(i),
                ));
            match best(gpu_sensors(b, h, only, n)) {
                Some(c) => exists|i: int|
                    {
                        &&& 0 <= i < n && #[trigger] fits(i) && taken_from(b, h, i, c) && c.score
                            == score(i)->0
                        &&& forall|j: int|
                            0 <= j < n && #[trigger] fits(j) ==> score(j)->0 <= score(i)->0 && (j
                                < i ==> score(j)->0 < score(i)->0)
                    },
                None => forall|i: int| 0 <= i < n ==> !#[trigger] fits(i),
            }
        }),
    decreases n,
{
    let score = |i: int| gpu_score(low_names(b, h, i).0, low_names(b, h, i).1);
    let name = |i: int| group_name(b, h, le32(reading(b, h, i), 4) as int);
    let fits = |i: int|
        usable(b, h, i) && score(i) is Some && (only is Some ==> names_match(
            only->0.name@,
            name(i),
        ));
    if n > 0 {
        lemma_gpu_taken(b, h, only, n - 1);
        let front = gpu_sensors(b, h, only, n - 1);
        let m = n - 1;
        assert(as_gpu(b, h, only, m) is Some <==> fits(m));
        if fits(m) {
            let c = as_gpu(b, h, only, m)->0;
            assert(front.push(c).drop_last() =~= front);
            assert(taken_from(b, h, m, c));
            if best(front) is Some {
                let d = best(front)->0;
                let i = choose|i: int|
                    {
                        &&& 0 <= i < m && #[trigger] fits(i) && taken_from(b, h, i, d) && d.score
                            == score(i)->0
                        &&& forall|j: int|
                            0 <= j < m && #[trigger] fits(j) ==> score(j)->0 <= score(i)->0 && (j
                                < i ==> score(j)->0 < score(i)->0)
                    };
                assert(fits(i));
            }
        }
    }
}

/// The `i`th reading as it stands; none if it is no temperature.
pub open spec fn sample(b: Seq<u8>, h: Header, i: int) -> Option<SampleView> {
    let e = reading(b, h, i);
    if is_temp(e) {
        Some(
            SampleView {
                sensor_name: group_name(b, h, le32(e, 4) as int),
                label: label(e),
                value: match value(e) {
                    Some(v) if v.size() < 0x1_0000_0000 * one() => Some(v.millionths()),
                    _ => None,
                },
                shown: double_text(value_bits(e)),
            },
        )
    } else {
        None
    }
}

/// All temperatures among the first `n` readings.
pub open spec fn samples(b: Seq<u8>, h: Header, n: int) -> Seq<SampleView>
    decreases n,
{
    if n <= 0 {
        Seq::empty()
    } else {
        match sample(b, h, n - 1) {
            Some(s) => samples(b, h, n - 1).push(s),
            None => samples(b, h, n - 1),
        }
    }
}

/// The contents of a list of raw readings.
pub open spec fn sample_views(v: Seq<TempSample>) -> Seq<SampleView> {
    v.map_values(|s: TempSample| s@)
}

/// Every temperature that HWiNFO exposes, with its group.
pub fn parse_all(b: &[u8]) -> (r: Option<Vec<TempSample>>)
    ensures
        r is Some <==> complete(b@),
        r is Some ==> sample_views(r->0@) == samples(
            b@,
            header(b@)->0,
            header(b@)->0.num_reading as int,
        ),
{
    let h: Header = match complete_header(b) {
        Some(h) => h,
        None => {
            return None;
        },
    };
    let mut r: Vec<TempSample> = Vec::new();
    let mut i: usize = 0;
    assert(sample_views(r@) =~= samples(b@, h, 0));
    while i < h.num_reading
        invariant
            h.wf(),
            b.len() >= h.extent(),
            i <= h.num_reading,
            sample_views(r@) == samples(b@, h, i as int),
        decreases h.num_reading - i,
    {
        let at: usize = reading_bounds(b, &h, i);
        let e = vstd::slice::slice_subrange(b, at, at + h.size_reading);
        assert(e@ == reading(b@, h, i as int));
        if read_u32(e, 0) == 1 {
            let value = match read_value(e) {
                Some(v) => v.to_millionths(),
                None => None,
            };
            let s = TempSample {
                sensor_name: read_group_name(b, &h, read_u32(e, 4) as usize),
                label: prefer(read_field(e, 140, 268), read_field(e, 12, 140)),
                value,
                shown: show_double(read_bits(e)),
            };
            let ghost before = sample_views(r@);
            let ghost sv = s@;
            assert(sample(b@, h, i as int) == Some(sv));
            r.push(s);
            assert(sample_views(r@) =~= before.push(sv));
        }
        i = i + 1;
    }
    Some(r)
}

// ---------------------------------------------------------------------------
// Diagnostics

/// The names that are looked up for diagnostics.
pub open spec fn debug_names() -> Seq<Seq<char>> {
    seq!["Global\\HWiNFO_SENS_SM2"@, "HWiNFO_SENS_SM2"@, "Local\\HWiNFO_SENS_SM2"@]
}

/// A byte as a character, a dot where it is not printable.
pub open spec fn printable(x: u8) -> char {
    if 0x20 <= x < 0x7f {
        x as char
    } else {
        '.'
    }
}

/// A byte in two hexadecimal digits, and a blank.
pub open spec fn hex_byte(x: u8) -> Seq<char> {
    padded_left(digits(x as nat, 16), '0', 2).push(' ')
}

/// The bytes from `from` to `to` in hexadecimal.
pub open spec fn hex_bytes(b: Seq<u8>, from: int, to: int) -> Seq<char>
    decreases to - from,
{
    if to <= from {
        Seq::empty()
    } else {
        hex_bytes(b, from, to - 1) + hex_byte(b[to - 1])
    }
}

/// The bytes from `from` to `to` as characters.
pub open spec fn shown_bytes(b: Seq<u8>, from: int, to: int) -> Seq<char>
    decreases to - from,
{
    if to <= from {
        Seq::empty()
    } else {
        shown_bytes(b, from, to - 1).push(printable(b[to - 1]))
    }
}

/// The bytes from `from` to `to` as characters between blanks.
pub open spec fn spaced_bytes(b: Seq<u8>, from: int, to: int) -> Seq<char>
    decreases to - from,
{
    if to <= from {
        Seq::empty()
    } else {
        spaced_bytes(b, from, to - 1) + seq![' ', printable(b[to - 1]), ' ']
    }
}

/// A line on the header whose first field stands at `pos`.
pub open spec fn layout_line(name: Seq<char>, b: Seq<u8>, pos: int) -> Seq<char> {
    name + "sensor_off="@ + dec(le32(b, pos) as nat) + ", sensor_sz="@ + dec(
        le32(b, pos + 4) as nat,
    ) + ", n_sensor="@ + dec(le32(b, pos + 8) as nat) + ", reading_off="@ + dec(
        le32(b, pos + 12) as nat,
    ) + ", reading_sz="@ + dec(le32(b, pos + 16) as nat) + ", n_reading="@ + dec(
        le32(b, pos + 20) as nat,
    ) + "\n"@
}

/// The lines on the header.
pub open spec fn header_lines(b: Seq<u8>) -> Seq<char> {
    "  Hex:   "@ + hex_bytes(b, 0, 32) + "\n  ASCII: "@ + spaced_bytes(b, 0, 32)
        + "\n  Signature: '"@ + shown_bytes(b, 0, 4) + "'\n  Version: "@ + dec(le32(b, 4) as nat)
        + ", Revision: "@ + dec(le32(b, 8) as nat) + "\n"@ + layout_line(
        "  [packed]  "@,
        b,
        20,
    ) + layout_line("  [aligned] "@, b, 24)
}

/// The `i`th reading by the packed header, whose fields need not make sense.
pub open spec fn raw_reading(b: Seq<u8>, i: int) -> Seq<u8> {
    let size = le32(b, 36) as int;
    b.subrange(le32(b, 32) + i * size, le32(b, 32) + i * size + size)
}

/// The `i`th reading lies within the memory.
pub open spec fn raw_inside(b: Seq<u8>, i: int) -> bool {
    le32(b, 32) + i * le32(b, 36) + le32(b, 36) <= b.len()
}

/// A label in lower case of a sensor that should have a value without a
/// driver.
pub open spec fn telling(l: Seq<char>) -> bool {
    occurs(l, "gpu"@) || occurs(l, "hot spot"@) || occurs(l, "drive"@)
}

/// The `i`th reading is worth a dump.
pub open spec fn dumpable(b: Seq<u8>, i: int) -> bool {
    raw_inside(b, i) && le32(b, 36) >= 268 && is_temp(raw_reading(b, i)) && telling(
        lower(field(raw_reading(b, i), 12, 140)),
    )
}

/// The first reading from `i` on and under `n` that is worth a dump, or `n`.
pub open spec fn dump_pick(b: Seq<u8>, i: int, n: int) -> int
    decreases n - i,
{
    if i >= n || dumpable(b, i) {
        i
    } else {
        dump_pick(b, i + 1, n)
    }
}

/// The least of two numbers.
pub open spec fn least(a: int, b: int) -> int {
    if a < b {
        a
    } else {
        b
    }
}

/// A number right-aligned in three places between brackets.
pub open spec fn bracketed(n: int) -> Seq<char> {
    "["@ + padded_left(dec(n as nat), ' ', 3) + "] "@
}

/// One row of a dump: sixteen bytes, fewer at the end.
pub open spec fn dump_row(e: Seq<u8>, from: int) -> Seq<char> {
    let to = least(from + 16, e.len() as int);
    "    "@ + bracketed(from) + hex_bytes(e, from, to) + Seq::new(
        (3 * (16 - (to - from))) as nat,
        |i: int| ' ',
    ) + " | "@ + shown_bytes(e, from, to) + "\n"@
}

/// The rows of a dump from `from` on.
pub open spec fn dump_rows(e: Seq<u8>, from: int) -> Seq<char>
    decreases e.len() + 16 - from,
{
    if from >= e.len() {
        Seq::empty()
    } else {
        dump_row(e, from) + dump_rows(e, from + 16)
    }
}

/// A number with two digits behind the point.
pub open spec fn shown_hundredths(v: Binary) -> Seq<char> {
    (if v.negative {
        seq!['-']
    } else {
        Seq::empty()
    }) + dec((v.hundredths() / 100) as nat) + seq!['.'] + padded_left(
        dec((v.hundredths() % 100) as nat),
        '0',
        2,
    )
}

/// The line on a double that may be a temperature; nothing for others.
pub open spec fn double_line(e: Seq<u8>, at: int) -> Seq<char> {
    match double_value(le64(e, at)) {
        Some(v) if -50 * one() <= v.exact() <= 200 * one() && v.exact() != 0 => "      "@
            + bracketed(at) + shown_hundredths(v) + "\n"@,
        _ => Seq::empty(),
    }
}

/// The lines on the doubles at every fourth place from `at` on.
pub open spec fn double_lines(e: Seq<u8>, at: int) -> Seq<char>
    decreases e.len() - at,
{
    if at + 8 > e.len() {
        Seq::empty()
    } else {
        double_line(e, at) + double_lines(e, at + 4)
    }
}

/// The lines on the reading that is dumped.
pub open spec fn reading_lines(b: Seq<u8>) -> Seq<char> {
    let size = le32(b, 36);
    let n = le32(b, 40);
    if 0 < size < 4096 && 0 < n < 10000 {
        let limit = least(n as int, 200);
        let i = dump_pick(b, 0, limit);
        if i < limit {
            let e = raw_reading(b, i);
            "  Reading["@ + dec(i as nat) + "] label='"@ + field(e, 12, 140) + "' size="@ + dec(
                size as nat,
            ) + ":\n"@ + dump_rows(e, 260) + "    f64 candidates (offset: value):\n"@
                + double_lines(e, 264)
        } else {
            "  (no GPU/Drive temp reading found to dump)\n"@
        }
    } else {
        Seq::empty()
    }
}

/// The lines on one mapping.  One of under 64 bytes counts as missing.
pub open spec fn mapping_lines(name: Seq<char>, b: Option<Seq<u8>>) -> Seq<char> {
    "Mapping '"@ + name + "': "@ + match b {
        Some(x) if x.len() >= 64 => "FOUND\n"@ + header_lines(x) + reading_lines(x),
        _ => "not found\n"@,
    }
}

fn printable_of(x: u8) -> (r: char)
    ensures
        r == printable(x),
{
    if 0x20 <= x && x < 0x7f {
        x as char
    } else {
        '.'
    }
}

fn push_hex_bytes(out: &mut String, b: &[u8], from: usize, to: usize)
    requires
        from <= to <= b.len(),
    ensures
        final(out)@ == old(out)@ + hex_bytes(b@, from as int, to as int),
{
    let ghost start = out@;
    let mut i: usize = from;
    assert(out@ =~= start + hex_bytes(b@, from as int, from as int));
    while i < to
        invariant
            from <= i <= to <= b.len(),
            out@ == start + hex_bytes(b@, from as int, i as int),
        decreases to - i,
    {
        push_padded(out, digits_of(b[i] as u64, 16).as_slice(), '0', 2);
        out.push(' ');
        i = i + 1;
        assert(out@ =~= start + hex_bytes(b@, from as int, i as int));
    }
}

fn push_shown_bytes(out: &mut String, b: &[u8], from: usize, to: usize)
    requires
        from <= to <= b.len(),
    ensures
        final(out)@ == old(out)@ + shown_bytes(b@, from as int, to as int),
{
    let ghost start = out@;
    let mut i: usize = from;
    assert(out@ =~= start + shown_bytes(b@, from as int, from as int));
    while i < to
        invariant
            from <= i <= to <= b.len(),
            out@ == start + shown_bytes(b@, from as int, i as int),
        decreases to - i,
    {
        out.push(printable_of(b[i]));
        i = i + 1;
        assert(out@ =~= start + shown_bytes(b@, from as int, i as int));
    }
}

fn push_spaced_bytes(out: &mut String, b: &[u8], from: usize, to: usize)
    requires
        from <= to <= b.len(),
    ensures
        final(out)@ == old(out)@ + spaced_bytes(b@, from as int, to as int),
{
    let ghost start = out@;
    let mut i: usize = from;
    assert(out@ =~= start + spaced_bytes(b@, from as int, from as int));
    while i < to
        invariant
            from <= i <= to <= b.len(),
            out@ == start + spaced_bytes(b@, from as int, i as int),
        decreases to - i,
    {
        out.push(' ');
        out.push(printable_of(b[i]));
        out.push(' ');
        i = i + 1;
        assert(out@ =~= start + spaced_bytes(b@, from as int, i as int));
    }
}

fn push_layout_line(out: &mut String, name: &str, b: &[u8], pos: usize)
    requires
        pos + 24 <= b.len(),
    ensures
        final(out)@ == old(out)@ + layout_line(name@, b@, pos as int),
{
    let ghost start = out@;
    out.append(name);
    out.append("sensor_off=");
    push_dec(out, read_u32(b, pos) as u64);
    out.append(", sensor_sz=");
    push_dec(out, read_u32(b, pos + 4) as u64);
    out.append(", n_sensor=");
    push_dec(out, read_u32(b, pos + 8) as u64);
    out.append(", reading_off=");
    push_dec(out, read_u32(b, pos + 12) as u64);
    out.append(", reading_sz=");
    push_dec(out, read_u32(b, pos + 16) as u64);
    out.append(", n_reading=");
    push_dec(out, read_u32(b, pos + 20) as u64);
    out.append("\n");
    assert(out@ =~= start + layout_line(name@, b@, pos as int));
}

fn push_header_lines(out: &mut String, b: &[u8])
    requires
        b.len() >= 64,
    ensures
        final(out)@ == old(out)@ + header_lines(b@),
{
    let ghost start = out@;
    out.append("  Hex:   ");
    push_hex_bytes(out, b, 0, 32);
    out.append("\n  ASCII: ");
    push_spaced_bytes(out, b, 0, 32);
    out.append("\n  Signature: '");
    push_shown_bytes(out, b, 0, 4);
    out.append("'\n  Version: ");
    push_dec(out, read_u32(b, 4) as u64);
    out.append(", Revision: ");
    push_dec(out, read_u32(b, 8) as u64);
    out.append("\n");
    push_layout_line(out, "  [packed]  ", b, 20);
    push_layout_line(out, "  [aligned] ", b, 24);
    assert(out@ =~= start + header_lines(b@));
}

fn push_bracketed(out: &mut String, n: usize)
    ensures
        final(out)@ == old(out)@ + bracketed(n as int),
{
    let ghost start = out@;
    out.append("[");
    push_padded(out, digits_of(n as u64, 10).as_slice(), ' ', 3);
    out.append("] ");
    assert(out@ =~= start + bracketed(n as int));
}

fn push_row(out: &mut String, e: &[u8], at: usize)
    requires
        at < e.len() < 4096,
    ensures
        final(out)@ == old(out)@ + dump_row(e@, at as int),
{
    let ghost start = out@;
    let to: usize = if at + 16 < e.len() {
        at + 16
    } else {
        e.len()
    };
    out.append("    ");
    push_bracketed(out, at);
    push_hex_bytes(out, e, at, to);
    let gap: usize = 3 * (16 - (to - at));
    let none: Vec<char> = Vec::new();
    push_padded(out, none.as_slice(), ' ', gap);
    assert(padded_left(none@, ' ', gap as nat) =~= Seq::new(gap as nat, |i: int| ' '));
    out.append(" | ");
    push_shown_bytes(out, e, at, to);
    out.append("\n");
    assert(out@ =~= start + dump_row(e@, at as int));
}

fn push_rows(out: &mut String, e: &[u8])
    requires
        260 <= e.len() < 4096,
    ensures
        final(out)@ == old(out)@ + dump_rows(e@, 260),
{
    let ghost start = out@;
    let mut at: usize = 260;
    while at < e.len()
        invariant
            260 <= at < 5000,
            260 <= e.len() < 4096,
            start + dump_rows(e@, 260) == out@ + dump_rows(e@, at as int),
        decreases e.len() + 16 - at,
    {
        let ghost before = out@;
        push_row(out, e, at);
        assert(before + (dump_row(e@, at as int) + dump_rows(e@, at + 16)) =~= out@ + dump_rows(
            e@,
            at + 16,
        ));
        at = at + 16;
    }
    assert(out@ + Seq::<char>::empty() =~= out@);
}

fn push_double_line(out: &mut String, e: &[u8], at: usize)
    requires
        at + 8 <= e.len(),
    ensures
        final(out)@ == old(out)@ + double_line(e@, at as int),
{
    let ghost start = out@;
    assert(start + Seq::<char>::empty() =~= start);
    let v: Binary = match double_of(read_u64(e, at)) {
        Some(v) => v,
        None => {
            return ;
        },
    };
    proof {
        v.lemma_size();
        lemma_one();
    }
    if v.mantissa == 0 {
        return ;
    }
    if v.negative {
        if !v.size_at_most(50) {
            return ;
        }
    } else if !v.size_at_most(200) {
        return ;
    }
    let h: u64 = v.to_hundredths();
    out.append("      ");
    push_bracketed(out, at);
    if v.negative {
        out.push('-');
    }
    push_dec(out, h / 100);
    out.push('.');
    push_padded(out, digits_of(h % 100, 10).as_slice(), '0', 2);
    out.append("\n");
    assert(out@ =~= start + ("      "@ + bracketed(at as int) + shown_hundredths(v) + "\n"@));
}

fn push_double_lines(out: &mut String, e: &[u8])
    requires
        268 <= e.len() < 4096,
    ensures
        final(out)@ == old(out)@ + double_lines(e@, 264),
{
    let ghost start = out@;
    let mut at: usize = 264;
    while at + 8 <= e.len()
        invariant
            264 <= at < 5000,
            e.len() < 4096,
            start + double_lines(e@, 264) == out@ + double_lines(e@, at as int),
        decreases e.len() - at,
    {
        let ghost before = out@;
        push_double_line(out, e, at);
        assert(before + (double_line(e@, at as int) + double_lines(e@, at + 4)) =~= out@
            + double_lines(e@, at + 4));
        at = at + 4;
    }
    assert(out@ + Seq::<char>::empty() =~= out@);
}

fn is_dumpable(b: &[u8], i: usize) -> (r: bool)
    requires
        b.len() >= 64,
        i < 200,
        0 < le32(b@, 36) < 4096,
    ensures
        r == dumpable(b@, i as int),
{
    let size: usize = read_u32(b, 36) as usize;
    let off: u64 = read_u32(b, 32) as u64;
    assert(0 <= i * size <= 200 * 4096) by (nonlinear_arith)
        requires
            0 <= i < 200,
            0 <= size < 4096,
    ;
    if off + (i as u64) * (size as u64) + size as u64 > b.len() as u64 {
        return false;
    }
    if size < 268 {
        return false;
    }
    let at: usize = off as usize + i * size;
    let e = vstd::slice::slice_subrange(b, at, at + size);
    if read_u32(e, 0) != 1 {
        return false;
    }
    let low = to_lower(read_field(e, 12, 140).as_str());
    contains(low.as_str(), "gpu") || contains(low.as_str(), "hot spot") || contains(
        low.as_str(),
        "drive",
    )
}

#[verifier::spinoff_prover]
fn push_reading_lines(out: &mut String, b: &[u8])
    requires
        b.len() >= 64,
    ensures
        final(out)@ == old(out)@ + reading_lines(b@),
{
    let ghost start = out@;
    assert(start + Seq::<char>::empty() =~= start);
    let size: u32 = read_u32(b, 36);
    let n: u32 = read_u32(b, 40);
    if !(size > 0 && size < 4096 && n > 0 && n < 10000) {
        return ;
    }
    let limit: usize = if n < 200 {
        n as usize
    } else {
        200
    };
    let mut i: usize = 0;
    while i < limit && !is_dumpable(b, i)
        invariant
            i <= limit <= 200,
            b.len() >= 64,
            0 < le32(b@, 36) < 4096,
            dump_pick(b@, 0, limit as int) == dump_pick(b@, i as int, limit as int),
        decreases limit - i,
    {
        i = i + 1;
    }
    if i >= limit {
        out.append("  (no GPU/Drive temp reading found to dump)\n");
        return ;
    }
    let sz: usize = size as usize;
    assert(0 <= i * sz <= 200 * 4096) by (nonlinear_arith)
        requires
            0 <= i < 200,
            0 <= sz < 4096,
    ;
    let at: usize = read_u32(b, 32) as usize + i * sz;
    let e = vstd::slice::slice_subrange(b, at, at + sz);
    assert(e@ == raw_reading(b@, i as int));
    let label = read_field(e, 12, 140);
    out.append("  Reading[");
    push_dec(out, i as u64);
    out.append("] label='");
    out.append(label.as_str());
    out.append("' size=");
    push_dec(out, size as u64);
    out.append(":\n");
    push_rows(out, e);
    out.append("    f64 candidates (offset: value):\n");
    push_double_lines(out, e);
    assert(out@ =~= start + reading_lines(b@));
}

fn push_mapping_lines(out: &mut String, name: &str, b: &Option<Vec<u8>>)
    ensures
        final(out)@ == old(out)@ + mapping_lines(name@, bytes_of(*b)),
{
    let ghost start = out@;
    out.append("Mapping '");
    out.append(name);
    out.append("': ");
    let mut found = false;
    match b {
        Some(x) => {
            if x.len() >= 64 {
                found = true;
                out.append("FOUND\n");
                push_header_lines(out, x.as_slice());
                push_reading_lines(out, x.as_slice());
            }
        },
        None => {},
    }
    if !found {
        out.append("not found\n");
    }
    assert(out@ =~= start + mapping_lines(name@, bytes_of(*b)));
}

/// Shows what the mappings of the three names hold: the header in hexadecimal
/// and taken apart, and one reading.
pub fn debug_raw_header(
    global: &Option<Vec<u8>>,
    plain: &Option<Vec<u8>>,
    local: &Option<Vec<u8>>,
) -> (r: String)
    ensures
        r@ == mapping_lines(debug_names()[0], bytes_of(*global)) + mapping_lines(
            debug_names()[1],
            bytes_of(*plain),
        ) + mapping_lines(debug_names()[2], bytes_of(*local)),
{
    let mut out = String::new();
    push_mapping_lines(&mut out, "Global\\HWiNFO_SENS_SM2", global);
    push_mapping_lines(&mut out, "HWiNFO_SENS_SM2", plain);
    push_mapping_lines(&mut out, "Local\\HWiNFO_SENS_SM2", local);
    assert(out@ =~= mapping_lines(debug_names()[0], bytes_of(*global)) + mapping_lines(
        debug_names()[1],
        bytes_of(*plain),
    ) + mapping_lines(debug_names()[2], bytes_of(*local)));
    out
}

} // verus!
