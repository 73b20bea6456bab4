//! Core Temp's shared memory.
//!
//! It holds 256 loads, 128 TjMax values at 1024, the core and CPU counts at
//! 1536 and 1540, 256 temperatures as singles at 1544, the CPU's name at 2584,
//! and two flags: Fahrenheit at 2684, and at 2685 whether the temperatures are
//! distances to TjMax.
use vstd::prelude::*;

use crate::bytes::{field, le32, read_field, read_u32};
use crate::fixed::{higher, int_of, round_div, rounded, single_of, single_value, UNIT};
use crate::text::{text_of, trim_str, trimmed};

verus! {

/// The size of the memory.
pub const MAPPING_LEN: usize = 4740;

/// The reading of Core Temp's sensors.
#[derive(Debug, Clone)]
pub struct CoreTempReading {
    pub cpu_temp: Option<i64>,
    /// Descriptive source: "Core Temp / <CPU name>"
    pub cpu_source: Option<String>,
}

/// The names under which the memory may be found, in the order to try them.
pub fn candidate_names() -> (r: Vec<&'static str>)
    ensures
        r@.map_values(|s: &'static str| s@) == seq![
            "Global\\CoreTempMappingObjectEx"@,
            "CoreTempMappingObjectEx"@,
            "Local\\CoreTempMappingObjectEx"@,
            "Global\\CoreTempMappingObject"@,
            "CoreTempMappingObject"@,
        ],
{
    let mut r: Vec<&'static str> = Vec::new();
    r.push("Global\\CoreTempMappingObjectEx");
    r.push("CoreTempMappingObjectEx");
    r.push("Local\\CoreTempMappingObjectEx");
    r.push("Global\\CoreTempMappingObject");
    r.push("CoreTempMappingObject");
    assert(r@.map_values(|s: &'static str| s@) =~= seq![
        "Global\\CoreTempMappingObjectEx"@,
        "CoreTempMappingObjectEx"@,
        "Local\\CoreTempMappingObjectEx"@,
        "Global\\CoreTempMappingObject"@,
        "CoreTempMappingObject"@,
    ]);
    r
}

/// Cores of each CPU.
pub open spec fn cores(b: Seq<u8>) -> int {
    le32(b, 1536) as int
}

/// CPUs.
pub open spec fn cpus(b: Seq<u8>) -> int {
    le32(b, 1540) as int
}

/// The memory is whole, and the counts make sense.
pub open spec fn valid(b: Seq<u8>) -> bool {
    &&& b.len() >= MAPPING_LEN
    &&& 1 <= cores(b) <= 256
    &&& 1 <= cpus(b) <= 128
    &&& cores(b) * cpus(b) <= 256
}

/// Degrees Fahrenheit in Celsius.
pub open spec fn from_fahrenheit(v: int) -> int {
    rounded((v - 32 * UNIT) * 5, 9)
}

/// The temperature in a slot whose number is finite and under `2^32`, in
/// millionths of a degree Celsius.
pub open spec fn slot_celsius(b: Seq<u8>, i: int, raw: int) -> int {
    let v = if b[2685] != 0 {
        le32(b, 1024 + i / cores(b) * 4) * UNIT - raw
    } else {
        raw
    };
    if b[2684] != 0 {
        from_fahrenheit(v)
    } else {
        v
    }
}

/// The temperature of the `i`th core; none where the slot holds none.
pub open spec fn core_temp(b: Seq<u8>, i: int) -> Option<int> {
    match single_value(le32(b, 1544 + i * 4)) {
        Some(x) if x.size() < 0x1_0000_0000 * crate::fixed::one() => {
            let c = slot_celsius(b, i, x.millionths());
            if 0 < c < 150 * UNIT {
                Some(c)
            } else {
                None
            }
        },
        _ => None,
    }
}

/// The highest temperature of the first `n` cores.
pub open spec fn hottest(b: Seq<u8>, n: int) -> Option<int>
    decreases n,
{
    if n <= 0 {
        None
    } else {
        higher(hottest(b, n - 1), core_temp(b, n - 1))
    }
}

/// No core of the first `n` is hotter than the hottest, and one is as hot.
pub proof fn lemma_hottest(b: Seq<u8>, n: int)
    ensures
        forall|i: int|
            0 <= i < n && (#[trigger] core_temp(b, i)) is Some ==> hottest(b, n) is Some
                && core_temp(b, i)->0 <= hottest(b, n)->0,
        hottest(b, n) is Some ==> exists|i: int|
            0 <= i < n && #[trigger] core_temp(b, i) == hottest(b, n),
    decreases n,
{
    if n > 0 {
        lemma_hottest(b, n - 1);
        if hottest(b, n) is Some {
            if hottest(b, n) == core_temp(b, n - 1) {
            } else {
                let i = choose|i: int|
                    0 <= i < n - 1 && #[trigger] core_temp(b, i) == hottest(b, n - 1);
                assert(core_temp(b, i) == hottest(b, n));
            }
        }
    }
}

/// What a core's temperature is of the number in its slot: the number itself,
/// or what it leaves of the limit of the core's CPU, and where the numbers are
/// in Fahrenheit, that in Celsius, to the nearest millionth.
pub proof fn lemma_core_temp(b: Seq<u8>, i: int)
    requires
        valid(b),
        0 <= i < cores(b) * cpus(b),
        core_temp(b, i) is Some,
    ensures
        ({
            let t = core_temp(b, i)->0;
            let number = single_value(le32(b, 1544 + i * 4))->0.millionths();
            let cpu = i / (le32(b, 1536) as int);
            let limit = le32(b, 1024 + 4 * cpu) * 1_000_000;
            let shown = if b[2685] == 0 {
                number
            } else {
                limit - number
            };
            &&& 0 < t < 150_000_000
            &&& b[2684] == 0 && b[2685] == 0 ==> t == number
            &&& b[2684] == 0 && b[2685] != 0 ==> t + number == limit
            &&& b[2684] != 0 ==> -9 <= 18 * t - 10 * (shown - 32_000_000) <= 9
            &&& 0 <= cpu < cpus(b)
        }),
{
    let c = cores(b);
    let n = cpus(b);
    let cpu = i / c;
    assert(0 <= cpu < n) by (nonlinear_arith)
        requires
            cpu == i / c,
            0 <= i < c * n,
            c >= 1,
    ;
    assert(i / c * 4 == 4 * cpu);
}

/// Where the reading comes from: the tool, and the CPU's name where it has one.
pub open spec fn source(b: Seq<u8>) -> Seq<char> {
    let name = trimmed(field(b, 2584, 2684));
    if name.len() == 0 {
        "Core Temp"@
    } else {
        "Core Temp / "@ + name
    }
}

fn read_core(b: &[u8], i: usize) -> (r: Option<i64>)
    requires
        valid(b@),
        i < cores(b@) * cpus(b@),
    ensures
        int_of(r) == core_temp(b@, i as int),
        r is Some ==> 0 < r->0 < 150 * UNIT,
{
    let per: usize = read_u32(b, 1536) as usize;
    let raw: i64 = match single_of(read_u32(b, 1544 + i * 4)) {
        Some(x) => match x.to_millionths() {
            Some(v) => v,
            None => {
                return None;
            },
        },
        None => {
            return None;
        },
    };
    let mut v: i64 = raw;
    if b[2685] != 0 {
        let cpu: usize = i / per;
        assert(cpu <= i) by (nonlinear_arith)
            requires
                cpu == i / per,
                per >= 1,
        ;
        assert(cpu < 128) by {
            let c = cores(b@);
            let n = cpus(b@);
            assert(cpu < n) by (nonlinear_arith)
                requires
                    cpu == i as int / c,
                    i < c * n,
                    c >= 1,
            ;
        }
        v = read_u32(b, 1024 + cpu * 4) as i64 * UNIT - raw;
    }
    if b[2684] != 0 {
        v = round_div((v - 32 * UNIT) * 5, 9);
    }
    if 0 < v && v < 150 * UNIT {
        Some(v)
    } else {
        None
    }
}

/// Reads the memory: the temperature of the hottest core.
pub fn parse(b: &[u8]) -> (r: Option<CoreTempReading>)
    ensures
        ({
            let top = hottest(b@, cores(b@) * cpus(b@));
            &&& r is Some <==> valid(b@) && top is Some
            &&& r is Some ==> int_of(r->0.cpu_temp) == top && text_of(r->0.cpu_source) == Some(
                source(b@),
            )
        }),
{
    if b.len() < MAPPING_LEN {
        return None;
    }
    let per: u32 = read_u32(b, 1536);
    let n: u32 = read_u32(b, 1540);
    if per == 0 || per > 256 || n == 0 || n > 128 {
        return None;
    }
    assert(0 <= per * n <= 256 * 128) by (nonlinear_arith)
        requires
            0 <= per <= 256,
            0 <= n <= 128,
    ;
    let total: usize = (per * n) as usize;
    if total > 256 {
        return None;
    }
    let mut top: Option<i64> = None;
    let mut i: usize = 0;
    while i < total
        invariant
            valid(b@),
            total == cores(b@) * cpus(b@),
            i <= total,
            int_of(top) == hottest(b@, i as int),
        decreases total - i,
    {
        match read_core(b, i) {
            Some(c) => {
                let take = match top {
                    Some(t) => t < c,
                    None => true,
                };
                if take {
                    top = Some(c);
                }
            },
            None => {},
        }
        i = i + 1;
    }
    match top {
        None => None,
        Some(t) => {
            let name = trim_str(read_field(b, 2584, 2684).as_str());
            let mut source = String::new();
            if name.as_str().is_empty() {
                source.append("Core Temp");
                assert(source@ =~= "Core Temp"@);
            } else {
                source.append("Core Temp / ");
                source.append(name.as_str());
                assert(source@ =~= "Core Temp / "@ + name@);
            }
            Some(CoreTempReading { cpu_temp: Some(t), cpu_source: Some(source) })
        },
    }
}

} // verus!
