//! AIDA64's shared memory.
//!
//! It is a text of records such as
//! `<temp><id>TCPU</id><label>CPU</label><value>45</value></temp>`, ended by a
//! zero byte.
use vstd::prelude::*;

use crate::bytes::{decoded, next_zero, read_cstr};
use crate::fixed::{int_of, UNIT};
use crate::numerals::{millionths, parse_millionths};
use crate::pick::{
    best, consider, is_best, lemma_best_offered, offered, seen, value_of, with, Candidate,
    CandidateView,
};
use crate::text::{
    ascii_lower, at, begins, chars_of, contains, ends, ends_with, find, first_at, lemma_first_at,
    occurs, replace, replaced, same, starts_with, string_of, text_of, to_ascii_lower,
};

verus! {

/// How much of the memory is read at most.
pub const MAX_READ: usize = 131_072;

/// The readings of AIDA64's sensors.
#[derive(Debug, Clone)]
pub struct Aida64Reading {
    pub cpu_temp: Option<i64>,
    pub gpu_temp: Option<i64>,
    pub cpu_source: Option<String>,
    pub gpu_source: Option<String>,
}

/// The names under which the memory may be found, in the order to try them.
pub fn candidate_names() -> (r: Vec<&'static str>)
    ensures
        r@.map_values(|s: &'static str| s@) == seq![
            "Global\\AIDA64_SensorValues"@,
            "AIDA64_SensorValues"@,
            "Local\\AIDA64_SensorValues"@,
        ],
{
    let mut r: Vec<&'static str> = Vec::new();
    r.push("Global\\AIDA64_SensorValues");
    r.push("AIDA64_SensorValues");
    r.push("Local\\AIDA64_SensorValues");
    assert(r@.map_values(|s: &'static str| s@) =~= seq![
        "Global\\AIDA64_SensorValues"@,
        "AIDA64_SensorValues"@,
        "Local\\AIDA64_SensorValues"@,
    ]);
    r
}

/// The text in the memory: up to the first zero byte, at most `MAX_READ` bytes.
pub open spec fn mapped_text(b: Seq<u8>) -> Seq<char> {
    let m = if b.len() > MAX_READ {
        b.take(MAX_READ as int)
    } else {
        b
    };
    decoded(m.take(next_zero(m, 0)))
}

/// Reads the text in the memory.
pub fn read_to_string(b: &[u8]) -> (r: String)
    ensures
        r@ == mapped_text(b@),
{
    let n: usize = if b.len() > MAX_READ {
        MAX_READ
    } else {
        b.len()
    };
    let m = vstd::slice::slice_subrange(b, 0, n);
    assert(m@ =~= if b@.len() > MAX_READ {
        b@.take(MAX_READ as int)
    } else {
        b@
    });
    read_cstr(m)
}

// ---------------------------------------------------------------------------
// Records

/// What stands between the first `open` and the `close` behind it.
pub open spec fn between(s: Seq<char>, open: Seq<char>, close: Seq<char>) -> Option<Seq<char>> {
    match first_at(s, open, 0) {
        None => None,
        Some(a) => match first_at(s, close, a + open.len()) {
            None => None,
            Some(b) => Some(s.subrange(a + open.len(), b)),
        },
    }
}

/// A text, empty where there is none.
pub open spec fn or_empty(s: Option<Seq<char>>) -> Seq<char> {
    match s {
        Some(x) => x,
        None => Seq::empty(),
    }
}

/// A temperature record.
pub ghost struct Record {
    pub id: Seq<char>,
    pub label: Seq<char>,
    pub value: int,
}

/// The record between its tags, if its value is a temperature that can be.
/// The decimal separator may be a comma.
pub open spec fn record(s: Seq<char>) -> Option<Record> {
    let v = or_empty(between(s, "<value>"@, "</value>"@));
    match millionths(replaced(v, ","@, "."@)) {
        Some(x) if 0 < x < 150 * UNIT => Some(
            Record {
                id: or_empty(between(s, "<id>"@, "</id>"@)),
                label: or_empty(between(s, "<label>"@, "</label>"@)),
                value: x,
            },
        ),
        _ => None,
    }
}

/// What stands between two marks is the shortest text behind the first opening
/// mark that a closing one follows, and none only where one of them is missing.
pub proof fn lemma_between(s: Seq<char>, open: Seq<char>, close: Seq<char>)
    ensures
        match between(s, open, close) {
            Some(t) => exists|a: int| #[trigger]
                at(s, open, a) && (forall|j: int| 0 <= j < a ==> !at(s, open, j)) && t
                    == s.subrange(a + open.len(), a + open.len() + t.len()) && at(
                    s,
                    close,
                    a + open.len() + t.len(),
                ) && forall|j: int|
                    a + open.len() <= j < a + open.len() + t.len() ==> !at(s, close, j),
            None => !occurs(s, open) || forall|a: int, j: int|
                #![trigger at(s, open, a), at(s, close, j)]
                at(s, open, a) && (forall|k: int| 0 <= k < a ==> !at(s, open, k)) && j >= a
                    + open.len() ==> !at(s, close, j),
        },
{
    lemma_first_at(s, open, 0);
    match first_at(s, open, 0) {
        Some(a) => {
            lemma_first_at(s, close, a + open.len());
            assert(at(s, open, a));
        },
        None => {},
    }
}

/// A record counts exactly where its number, with a comma or a point in it, is
/// above 0 °C and below 150 °C.
pub proof fn lemma_record(s: Seq<char>)
    ensures
        ({
            let v = between(s, "<value>"@, "</value>"@);
            let number = if v is Some {
                millionths(replaced(v->0, ","@, "."@))
            } else {
                millionths(replaced(Seq::empty(), ","@, "."@))
            };
            let r = record(s);
            &&& r is Some <==> number is Some && 0 < number->0 < 150_000_000
            &&& r is Some ==> Some(r->0.value) == number
            &&& r is Some && between(s, "<id>"@, "</id>"@) is Some ==> Some(r->0.id) == between(
                s,
                "<id>"@,
                "</id>"@,
            )
            &&& r is Some && between(s, "<label>"@, "</label>"@) is Some ==> Some(r->0.label)
                == between(s, "<label>"@, "</label>"@)
        }),
{
}

/// The place of the next record from `i` on: where its contents begin and end.
pub open spec fn next_record(s: Seq<char>, i: int) -> Option<(int, int)> {
    match first_at(s, "<temp>"@, i) {
        None => None,
        Some(a) => match first_at(s, "</temp>"@, a + 6) {
            None => None,
            Some(b) => Some((a + 6, b)),
        },
    }
}

/// The records that begin from `i` on.
pub open spec fn records_from(s: Seq<char>, i: int) -> Seq<Record>
    decreases s.len() - i,
{
    match next_record(s, i) {
        Some((a, b)) if i < a <= b && b + 7 <= s.len() => match record(s.subrange(a, b)) {
            Some(r) => seq![r] + records_from(s, b + 7),
            None => records_from(s, b + 7),
        },
        _ => Seq::empty(),
    }
}

/// What stands between two marks, if both are there.
fn part_between(s: &[char], open: &str, close: &str) -> (r: Option<String>)
    ensures
        text_of(r) == between(s@, open@, close@),
{
    let o: Vec<char> = chars_of(open);
    let c: Vec<char> = chars_of(close);
    match find(s, o.as_slice(), 0) {
        Some(a) => match find(s, c.as_slice(), a + o.len()) {
            Some(b) => Some(string_of(vstd::slice::slice_subrange(s, a + o.len(), b))),
            None => None,
        },
        None => None,
    }
}

fn extract(s: &[char], open: &str, close: &str) -> (r: String)
    ensures
        r@ == or_empty(between(s@, open@, close@)),
{
    match part_between(s, open, close) {
        Some(t) => t,
        None => String::new(),
    }
}

/// The contents of the first element of a record with this tag.
pub fn extract_tag(record: &str, tag: &str) -> (r: Option<String>)
    ensures
        text_of(r) == between(
            record@,
            seq!['<'] + tag@ + seq!['>'],
            "</"@ + tag@ + seq!['>'],
        ),
{
    let mut open = String::new();
    open.push('<');
    open.append(tag);
    open.push('>');
    assert(open@ =~= seq!['<'] + tag@ + seq!['>']);
    let mut close = String::new();
    close.append("</");
    close.append(tag);
    close.push('>');
    assert(close@ =~= "</"@ + tag@ + seq!['>']);
    part_between(chars_of(record).as_slice(), open.as_str(), close.as_str())
}

// ---------------------------------------------------------------------------
// Scores

/// How good a CPU temperature a record is, by id and label in lower case.
pub open spec fn cpu_score(id: Seq<char>, l: Seq<char>) -> Option<i32> {
    if !begins(id, "tcpu"@) && !begins(id, "tcc"@) && !begins(id, "tccd"@) {
        None
    } else if occurs(l, "motherboard"@) || occurs(l, "socket"@) || occurs(l, "vrm"@) {
        None
    } else if occurs(l, "cpu package"@) || id == "tcpupck"@ || id == "tcpupkg"@ {
        Some(100i32)
    } else if occurs(l, "tctl/tdie"@) || occurs(l, "tctl"@) || occurs(l, "tdie"@) {
        Some(95i32)
    } else if occurs(l, "cpu diode"@) || id == "tcpudio"@ {
        Some(90i32)
    } else if begins(l, "ccd"@) || begins(id, "tccd"@) {
        Some(85i32)
    } else if l == "cpu"@ || id == "tcpu"@ {
        Some(80i32)
    } else if occurs(l, "core"@) && !occurs(l, "distance"@) {
        Some(50i32)
    } else {
        None
    }
}

/// How good a GPU temperature a record is, by id and label in lower case.
pub open spec fn gpu_score(id: Seq<char>, l: Seq<char>) -> Option<i32> {
    if !begins(id, "tgpu"@) {
        None
    } else if occurs(l, "memory"@) || occurs(l, "vram"@) || occurs(id, "mem"@) {
        Some(20i32)
    } else if occurs(l, "hot spot"@) || occurs(l, "hotspot"@) || ends(id, "hs"@) {
        Some(100i32)
    } else if occurs(l, "junction"@) {
        Some(95i32)
    } else if occurs(l, "diode"@) {
        Some(90i32)
    } else if l == "gpu"@ || occurs(l, "gpu core"@) || occurs(l, "gpu die"@) {
        Some(80i32)
    } else if occurs(l, "gpu"@) {
        Some(60i32)
    } else {
        None
    }
}

/// Higher score = better CPU temperature candidate. None = not a CPU temp.
/// The CPU's ids start with TCPU, TCC (per core) or TCCD (Ryzen die).
pub fn score_cpu(id: &str, label: &str) -> (r: Option<i32>)
    ensures
        r == cpu_score(ascii_lower(id@), ascii_lower(label@)),
{
    let id_l = to_ascii_lower(id);
    let lbl = to_ascii_lower(label);
    let i = id_l.as_str();
    let l = lbl.as_str();
    if !starts_with(i, "tcpu") && !starts_with(i, "tcc") && !starts_with(i, "tccd") {
        None
    } else if contains(l, "motherboard") || contains(l, "socket") || contains(l, "vrm") {
        None
    } else if contains(l, "cpu package") || same(i, "tcpupck") || same(i, "tcpupkg") {
        Some(100)
    } else if contains(l, "tctl/tdie") || contains(l, "tctl") || contains(l, "tdie") {
        Some(95)
    } else if contains(l, "cpu diode") || same(i, "tcpudio") {
        Some(90)
    } else if starts_with(l, "ccd") || starts_with(i, "tccd") {
        Some(85)
    } else if same(l, "cpu") || same(i, "tcpu") {
        Some(80)
    } else if contains(l, "core") && !contains(l, "distance") {
        Some(50)
    } else {
        None
    }
}

/// Higher score = better GPU temperature candidate. None = not a GPU temp.
/// The GPU's ids start with TGPU.
pub fn score_gpu(id: &str, label: &str) -> (r: Option<i32>)
    ensures
        r == gpu_score(ascii_lower(id@), ascii_lower(label@)),
{
    let id_l = to_ascii_lower(id);
    let lbl = to_ascii_lower(label);
    let i = id_l.as_str();
    let l = lbl.as_str();
    if !starts_with(i, "tgpu") {
        None
    } else if contains(l, "memory") || contains(l, "vram") || contains(i, "mem") {
        Some(20)
    } else if contains(l, "hot spot") || contains(l, "hotspot") || ends_with(i, "hs") {
        Some(100)
    } else if contains(l, "junction") {
        Some(95)
    } else if contains(l, "diode") {
        Some(90)
    } else if same(l, "gpu") || contains(l, "gpu core") || contains(l, "gpu die") {
        Some(80)
    } else if contains(l, "gpu") {
        Some(60)
    } else {
        None
    }
}

// ---------------------------------------------------------------------------
// Reading

/// Where a record comes from: label and id.
pub open spec fn origin(r: Record) -> Seq<char> {
    r.label + " ("@ + r.id + ")"@
}

impl Record {
    /// The record as a CPU temperature.
    pub open spec fn as_cpu(self) -> Option<CandidateView> {
        match cpu_score(ascii_lower(self.id), ascii_lower(self.label)) {
            Some(s) => Some(
                CandidateView { score: s as int, value: self.value, source: origin(self) },
            ),
            None => None,
        }
    }

    /// The record as a GPU temperature.
    pub open spec fn as_gpu(self) -> Option<CandidateView> {
        match gpu_score(ascii_lower(self.id), ascii_lower(self.label)) {
            Some(s) => Some(
                CandidateView { score: s as int, value: self.value, source: origin(self) },
            ),
            None => None,
        }
    }
}

/// The CPU temperatures among records.
pub open spec fn cpu_records(rs: Seq<Record>) -> Seq<CandidateView>
    decreases rs.len(),
{
    if rs.len() == 0 {
        Seq::empty()
    } else {
        with(cpu_records(rs.drop_last()), rs.last().as_cpu())
    }
}

/// The GPU temperatures among records.
pub open spec fn gpu_records(rs: Seq<Record>) -> Seq<CandidateView>
    decreases rs.len(),
{
    if rs.len() == 0 {
        Seq::empty()
    } else {
        with(gpu_records(rs.drop_last()), rs.last().as_gpu())
    }
}

// ---------------------------------------------------------------------------
// What the scores prefer, and which record is taken

/// A record is of a GPU's memory.
pub open spec fn of_memory(id: Seq<char>, l: Seq<char>) -> bool {
    occurs(l, "memory"@) || occurs(l, "vram"@) || occurs(id, "mem"@)
}

/// A record is of the hottest spot of a GPU.
pub open spec fn of_hot_spot(id: Seq<char>, l: Seq<char>) -> bool {
    occurs(l, "hot spot"@) || occurs(l, "hotspot"@) || ends(id, "hs"@)
}

/// Which records count as a GPU's: those whose id begins with "tgpu" and that
/// are of its memory, its hottest spot, a junction, a diode or the GPU.
pub proof fn lemma_gpu_readings(id: Seq<char>, l: Seq<char>)
    ensures
        gpu_score(id, l) is Some <==> begins(id, "tgpu"@) && (of_memory(id, l) || of_hot_spot(
            id,
            l,
        ) || occurs(l, "junction"@) || occurs(l, "diode"@) || occurs(l, "gpu"@)),
{
    reveal_strlit("gpu");
    reveal_strlit("gpu core");
    reveal_strlit("gpu die");
    if l == "gpu"@ {
        assert(l.subrange(0, 3) =~= "gpu"@);
        assert(crate::text::at(l, "gpu"@, 0));
    }
    if occurs(l, "gpu core"@) {
        let i = choose|i: int| crate::text::at(l, "gpu core"@, i);
        assert(l.subrange(i, i + 3) =~= "gpu core"@.subrange(0, 3));
        assert("gpu core"@.subrange(0, 3) =~= "gpu"@);
        assert(crate::text::at(l, "gpu"@, i));
    }
    if occurs(l, "gpu die"@) {
        let i = choose|i: int| crate::text::at(l, "gpu die"@, i);
        assert(l.subrange(i, i + 3) =~= "gpu die"@.subrange(0, 3));
        assert("gpu die"@.subrange(0, 3) =~= "gpu"@);
        assert(crate::text::at(l, "gpu"@, i));
    }
}

/// Of a GPU's records, the memory's is taken only where nothing else is listed.
/// The hottest spot is taken before a junction, this before a diode, this before
/// the GPU itself, and the rest after that.  Records of the same sort are equal.
pub proof fn lemma_gpu_preference(ia: Seq<char>, a: Seq<char>, ib: Seq<char>, b: Seq<char>)
    requires
        gpu_score(ia, a) is Some,
        gpu_score(ib, b) is Some,
    ensures
        ({
            let x = gpu_score(ia, a)->0;
            let y = gpu_score(ib, b)->0;
            let whole = |l: Seq<char>|
                l == "gpu"@ || occurs(l, "gpu core"@) || occurs(l, "gpu die"@);
            &&& of_memory(ia, a) && !of_memory(ib, b) ==> x < y
            &&& of_memory(ia, a) && of_memory(ib, b) ==> x == y
            &&& !of_memory(ia, a) && !of_memory(ib, b) ==> {
                &&& of_hot_spot(ia, a) && !of_hot_spot(ib, b) ==> x > y
                &&& of_hot_spot(ia, a) && of_hot_spot(ib, b) ==> x == y
                &&& !of_hot_spot(ia, a) && !of_hot_spot(ib, b) ==> {
                    &&& occurs(a, "junction"@) && !occurs(b, "junction"@) ==> x > y
                    &&& occurs(a, "junction"@) && occurs(b, "junction"@) ==> x == y
                    &&& !occurs(a, "junction"@) && !occurs(b, "junction"@) ==> {
                        &&& occurs(a, "diode"@) && !occurs(b, "diode"@) ==> x > y
                        &&& occurs(a, "diode"@) && occurs(b, "diode"@) ==> x == y
                        &&& !occurs(a, "diode"@) && !occurs(b, "diode"@) ==> {
                            &&& whole(a) && !whole(b) ==> x > y
                            &&& whole(a) == whole(b) ==> x == y
                        }
                    }
                }
            }
        }),
{
}

/// A record is of a CPU's package.
pub open spec fn of_package(id: Seq<char>, l: Seq<char>) -> bool {
    occurs(l, "cpu package"@) || id == "tcpupck"@ || id == "tcpupkg"@
}

/// A record is a CPU's control temperature or that of its die.
pub open spec fn of_die(l: Seq<char>) -> bool {
    occurs(l, "tctl"@) || occurs(l, "tdie"@)
}

/// A record is of a CPU's diode.
pub open spec fn of_diode(id: Seq<char>, l: Seq<char>) -> bool {
    occurs(l, "cpu diode"@) || id == "tcpudio"@
}

/// A record is of a part of a CPU's die.
pub open spec fn of_part(id: Seq<char>, l: Seq<char>) -> bool {
    begins(l, "ccd"@) || begins(id, "tccd"@)
}

/// A record is just the CPU's.
pub open spec fn of_cpu(id: Seq<char>, l: Seq<char>) -> bool {
    l == "cpu"@ || id == "tcpu"@
}

/// What begins with "tccd" begins with "tcc", and `tctl/tdie` holds `tctl`.
proof fn lemma_prefixes(id: Seq<char>, l: Seq<char>)
    ensures
        begins(id, "tccd"@) ==> begins(id, "tcc"@),
        occurs(l, "tctl/tdie"@) ==> of_die(l),
{
    reveal_strlit("tccd");
    reveal_strlit("tcc");
    reveal_strlit("tctl/tdie");
    reveal_strlit("tctl");
    if begins(id, "tccd"@) {
        assert(id.subrange(0, 3) =~= id.subrange(0, 4).subrange(0, 3));
        assert("tccd"@.subrange(0, 3) =~= "tcc"@);
    }
    if occurs(l, "tctl/tdie"@) {
        let i = choose|i: int| crate::text::at(l, "tctl/tdie"@, i);
        assert(l.subrange(i, i + 4) =~= "tctl/tdie"@.subrange(0, 4));
        assert("tctl/tdie"@.subrange(0, 4) =~= "tctl"@);
        assert(crate::text::at(l, "tctl"@, i));
    }
}

/// Which records count as a CPU's: those whose id begins with "tcpu" or "tcc",
/// none of the board, and of the cores not their distance from a limit.
pub proof fn lemma_cpu_readings(id: Seq<char>, l: Seq<char>)
    ensures
        cpu_score(id, l) is Some <==> (begins(id, "tcpu"@) || begins(id, "tcc"@)) && !occurs(
            l,
            "motherboard"@,
        ) && !occurs(l, "socket"@) && !occurs(l, "vrm"@) && (of_package(id, l) || of_die(l)
            || of_diode(id, l) || of_part(id, l) || of_cpu(id, l) || (occurs(l, "core"@) && !occurs(
            l,
            "distance"@,
        ))),
{
    lemma_prefixes(id, l);
}

/// Of a CPU's records, the package is taken before the die, this before the
/// diode, this before parts of the die, these before what is just the CPU's, and
/// single cores last.  Records of the same sort are equal.
pub proof fn lemma_cpu_preference(ia: Seq<char>, a: Seq<char>, ib: Seq<char>, b: Seq<char>)
    requires
        cpu_score(ia, a) is Some,
        cpu_score(ib, b) is Some,
    ensures
        ({
            let x = cpu_score(ia, a)->0;
            let y = cpu_score(ib, b)->0;
            &&& of_package(ia, a) && !of_package(ib, b) ==> x > y
            &&& of_package(ia, a) && of_package(ib, b) ==> x == y
            &&& !of_package(ia, a) && !of_package(ib, b) ==> {
                &&& of_die(a) && !of_die(b) ==> x > y
                &&& of_die(a) && of_die(b) ==> x == y
                &&& !of_die(a) && !of_die(b) ==> {
                    &&& of_diode(ia, a) && !of_diode(ib, b) ==> x > y
                    &&& of_diode(ia, a) && of_diode(ib, b) ==> x == y
                    &&& !of_diode(ia, a) && !of_diode(ib, b) ==> {
                        &&& of_part(ia, a) && !of_part(ib, b) ==> x > y
                        &&& of_part(ia, a) && of_part(ib, b) ==> x == y
                        &&& !of_part(ia, a) && !of_part(ib, b) ==> {
                            &&& of_cpu(ia, a) && !of_cpu(ib, b) ==> x > y
                            &&& of_cpu(ia, a) == of_cpu(ib, b) ==> x == y
                        }
                    }
                }
            }
        }),
{
    lemma_prefixes(ia, a);
    lemma_prefixes(ib, b);
}

proof fn lemma_offers(rs: Seq<Record>, n: int)
    requires
        0 <= n <= rs.len(),
    ensures
        cpu_records(rs.take(n)) == offered(|i: int| rs[i].as_cpu(), n),
        gpu_records(rs.take(n)) == offered(|i: int| rs[i].as_gpu(), n),
    decreases n,
{
    if n > 0 {
        lemma_offers(rs, n - 1);
        assert(rs.take(n).drop_last() =~= rs.take(n - 1));
    }
}

/// The record that is taken for the CPU is one of the CPU; of these it is the
/// first of those of the highest score.  None is taken only where there is none.
pub proof fn lemma_cpu_taken(rs: Seq<Record>)
    ensures
        ({
            let score = |i: int| cpu_score(ascii_lower(rs[i].id), ascii_lower(rs[i].label));
            match best(cpu_records(rs)) {
                Some(c) => exists|i: int|
                    {
                        &&& 0 <= i < rs.len() && (#[trigger] score(i)) is Some && c.value
                            == rs[i].value
                        &&& forall|j: int|
                            0 <= j < rs.len() && (#[trigger] score(j)) is Some ==> score(j)->0
                                <= score(i)->0 && (j < i ==> score(j)->0 < score(i)->0)
                    },
                None => forall|i: int| 0 <= i < rs.len() ==> (#[trigger] score(i)) is None,
            }
        }),
{
    let score = |i: int| cpu_score(ascii_lower(rs[i].id), ascii_lower(rs[i].label));
    let n = rs.len() as int;
    let f = |i: int| rs[i].as_cpu();
    assert(rs.take(n) =~= rs);
    lemma_offers(rs, n);
    lemma_best_offered(f, n);
    assert forall|j: int| (#[trigger] score(j)) is Some <==> f(j) is Some by {}
    if best(cpu_records(rs)) is Some {
        let i = choose|i: int| #[trigger] is_best(f, n, i) && f(i) == best(cpu_records(rs));
        assert(score(i) is Some);
        assert forall|j: int| 0 <= j < rs.len() && (#[trigger] score(j)) is Some implies score(j)->0
            <= score(i)->0 && (j < i ==> score(j)->0 < score(i)->0) by {
            assert(f(j) is Some);
        }
    } else {
        assert forall|i: int| 0 <= i < rs.len() implies (#[trigger] score(i)) is None by {
            assert(f(i) is None);
        }
    }
}

/// The record that is taken for the GPU is one of the GPU; of these it is the
/// first of those of the highest score.  None is taken only where there is none.
pub proof fn lemma_gpu_taken(rs: Seq<Record>)
    ensures
        ({
            let score = |i: int| gpu_score(ascii_lower(rs[i].id), ascii_lower(rs[i].label));
            match best(gpu_records(rs)) {
                Some(c) => exists|i: int|
                    {
                        &&& 0 <= i < rs.len() && (#[trigger] score(i)) is Some && c.value
                            == rs[i].value
                        &&& forall|j: int|
                            0 <= j < rs.len() && (#[trigger] score(j)) is Some ==> score(j)->0
                                <= score(i)->0 && (j < i ==> score(j)->0 < score(i)->0)
                    },
                None => forall|i: int| 0 <= i < rs.len() ==> (#[trigger] score(i)) is None,
            }
        }),
{
    let score = |i: int| gpu_score(ascii_lower(rs[i].id), ascii_lower(rs[i].label));
    let n = rs.len() as int;
    let f = |i: int| rs[i].as_gpu();
    assert(rs.take(n) =~= rs);
    lemma_offers(rs, n);
    lemma_best_offered(f, n);
    assert forall|j: int| (#[trigger] score(j)) is Some <==> f(j) is Some by {}
    if best(gpu_records(rs)) is Some {
        let i = choose|i: int| #[trigger] is_best(f, n, i) && f(i) == best(gpu_records(rs));
        assert(score(i) is Some);
        assert forall|j: int| 0 <= j < rs.len() && (#[trigger] score(j)) is Some implies score(j)->0
            <= score(i)->0 && (j < i ==> score(j)->0 < score(i)->0) by {
            assert(f(j) is Some);
        }
    } else {
        assert forall|i: int| 0 <= i < rs.len() implies (#[trigger] score(i)) is None by {
            assert(f(i) is None);
        }
    }
}

/// Every record that is read is a temperature above 0 °C and below 150 °C.
pub proof fn lemma_records_are_temperatures(s: Seq<char>, i: int)
    ensures
        forall|k: int|
            0 <= k < records_from(s, i).len() ==> 0 < (#[trigger] records_from(s, i)[k]).value
                < 150_000_000,
    decreases s.len() - i,
{
    match next_record(s, i) {
        Some((a, b)) if i < a <= b && b + 7 <= s.len() => {
            lemma_records_are_temperatures(s, b + 7);
            let rest = records_from(s, b + 7);
            match record(s.subrange(a, b)) {
                Some(r) => {
                    let all = seq![r] + rest;
                    assert forall|k: int| 0 <= k < all.len() implies 0 < (#[trigger] all[k]).value
                        < 150_000_000 by {
                        if k > 0 {
                            assert(all[k] == rest[k - 1]);
                        }
                    }
                },
                None => {},
            }
        },
        _ => {},
    }
}

/// Where a candidate comes from, with the tool in front.
pub open spec fn source_of(c: Option<CandidateView>) -> Option<Seq<char>> {
    match c {
        Some(x) => Some("AIDA64 / "@ + x.source),
        None => None,
    }
}

impl Aida64Reading {
    /// The reading is made of these candidates.
    pub open spec fn holds(self, cpu: Option<CandidateView>, gpu: Option<CandidateView>) -> bool {
        &&& int_of(self.cpu_temp) == value_of(cpu)
        &&& int_of(self.gpu_temp) == value_of(gpu)
        &&& text_of(self.cpu_source) == source_of(cpu)
        &&& text_of(self.gpu_source) == source_of(gpu)
    }
}

fn origin_of(id: &str, label: &str) -> (r: String)
    ensures
        r@ == label@ + " ("@ + id@ + ")"@,
{
    let mut r = String::new();
    r.append(label);
    r.append(" (");
    r.append(id);
    r.append(")");
    assert(r@ =~= label@ + " ("@ + id@ + ")"@);
    r
}

fn named(c: Option<Candidate>) -> (r: Option<String>)
    ensures
        text_of(r) == source_of(seen(c)),
{
    match c {
        Some(x) => {
            let mut s = String::new();
            s.append("AIDA64 / ");
            s.append(x.source.as_str());
            assert(s@ =~= "AIDA64 / "@ + x.source@);
            Some(s)
        },
        None => None,
    }
}

/// Looks at one record.
fn read_record(
    s: &[char],
    cpu: &mut Option<Candidate>,
    gpu: &mut Option<Candidate>,
    Ghost(rs): Ghost<Seq<Record>>,
)
    requires
        seen(*old(cpu)) == best(cpu_records(rs)),
        seen(*old(gpu)) == best(gpu_records(rs)),
    ensures
        ({
            let more = match record(s@) {
                Some(x) => rs.push(x),
                None => rs,
            };
            &&& seen(*final(cpu)) == best(cpu_records(more))
            &&& seen(*final(gpu)) == best(gpu_records(more))
        }),
{
    let text = extract(s, "<value>", "</value>");
    proof {
        reveal_strlit(",");
    }
    let plain = replace(text.as_str(), ",", ".");
    let v: i64 = match parse_millionths(chars_of(plain.as_str()).as_slice()) {
        Some(v) => v,
        None => {
            return ;
        },
    };
    if !(v > 0 && v < 150 * UNIT) {
        return ;
    }
    let id = extract(s, "<id>", "</id>");
    let label = extract(s, "<label>", "</label>");
    let ghost x = record(s@)->0;
    proof {
        assert(rs.push(x).drop_last() =~= rs);
    }
    match score_cpu(id.as_str(), label.as_str()) {
        Some(score) => {
            let c = Candidate { score, value: v, source: origin_of(id.as_str(), label.as_str()) };
            consider(cpu, c, Ghost(cpu_records(rs)));
        },
        None => {},
    }
    match score_gpu(id.as_str(), label.as_str()) {
        Some(score) => {
            let c = Candidate { score, value: v, source: origin_of(id.as_str(), label.as_str()) };
            consider(gpu, c, Ghost(gpu_records(rs)));
        },
        None => {},
    }
}

/// Reads the records: the best CPU and the best GPU temperature.
pub fn parse(text: &str) -> (r: Option<Aida64Reading>)
    ensures
        ({
            let rs = records_from(text@, 0);
            let cpu = best(cpu_records(rs));
            let gpu = best(gpu_records(rs));
            &&& r is Some <==> cpu is Some || gpu is Some
            &&& r is Some ==> r->0.holds(cpu, gpu)
        }),
{
    let s: Vec<char> = chars_of(text);
    let open: Vec<char> = chars_of("<temp>");
    let close: Vec<char> = chars_of("</temp>");
    proof {
        reveal_strlit("<temp>");
        reveal_strlit("</temp>");
    }
    let mut cpu: Option<Candidate> = None;
    let mut gpu: Option<Candidate> = None;
    let ghost mut rs: Seq<Record> = Seq::empty();
    let mut i: usize = 0;
    let mut more = true;
    assert(rs + records_from(text@, 0) =~= records_from(text@, 0));
    while more
        invariant
            s@ == text@,
            open@ == "<temp>"@,
            close@ == "</temp>"@,
            open@.len() == 6,
            close@.len() == 7,
            i <= s.len(),
            seen(cpu) == best(cpu_records(rs)),
            seen(gpu) == best(gpu_records(rs)),
            more ==> rs + records_from(text@, i as int) == records_from(text@, 0),
            !more ==> rs == records_from(text@, 0),
        decreases (if more { s.len() - i + 1 } else { 0 }),
    {
        assert(rs + Seq::<Record>::empty() =~= rs);
        more = false;
        match find(s.as_slice(), open.as_slice(), i) {
            Some(a) => match find(s.as_slice(), close.as_slice(), a + 6) {
                Some(b) => {
                    let part = vstd::slice::slice_subrange(s.as_slice(), a + 6, b);
                    read_record(part, &mut cpu, &mut gpu, Ghost(rs));
                    proof {
                        let rest = records_from(text@, b + 7);
                        match record(part@) {
                            Some(x) => {
                                assert(rs + (seq![x] + rest) =~= rs.push(x) + rest);
                                rs = rs.push(x);
                            },
                            None => {},
                        }
                    }
                    i = b + 7;
                    more = true;
                },
                None => {},
            },
            None => {},
        }
    }
    if cpu.is_none() && gpu.is_none() {
        return None;
    }
    let cpu_temp = match &cpu {
        Some(c) => Some(c.value),
        None => None,
    };
    let gpu_temp = match &gpu {
        Some(c) => Some(c.value),
        None => None,
    };
    Some(Aida64Reading { cpu_temp, gpu_temp, cpu_source: named(cpu), gpu_source: named(gpu) })
}

} // verus!
