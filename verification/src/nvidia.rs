//! NVIDIA's own view of its cards: numbers from the driver's library, and the
//! output of `nvidia-smi`.
use vstd::prelude::*;

use crate::decimal::{parse_whole, whole};
use crate::fixed::{int_of, UNIT};
use crate::gpus::{nv_views, NvDevice, NvView, VENDOR_NVIDIA};
use crate::inventory::{hex, parse_hex, skip_0x, without_0x};
use crate::numerals::{millionths, parse_millionths};
use crate::text::{
    char_views, chars_of, lines, lines_of, split, split_at_char, string_of, trim, trimmed,
};

verus! {

/// The vendor in a PCI number.
pub open spec fn vendor_part(pci: u32) -> u32 {
    pci % 0x1_0000
}

/// The device in a PCI number.
pub open spec fn device_part(pci: u32) -> u32 {
    pci / 0x1_0000
}

/// The vendor and the device are the lower and the upper half of the number.
pub proof fn lemma_halves(pci: u32)
    ensures
        device_part(pci) * 65_536 + vendor_part(pci) == pci,
        vendor_part(pci) < 65_536,
        device_part(pci) < 65_536,
{
}

/// Vendor and device of a card, by its PCI number if that could be read.
pub fn split_pci(pci: Option<u32>) -> (r: (u32, u32))
    ensures
        r == (match pci {
            Some(p) => (vendor_part(p), device_part(p)),
            None => (VENDOR_NVIDIA, 0u32),
        }),
{
    match pci {
        Some(p) => (p % 0x1_0000, p / 0x1_0000),
        None => (VENDOR_NVIDIA, 0),
    }
}

/// The number that `nvidia-smi` printed, in millionths: that of the first line.
pub open spec fn smi_value(out: Seq<char>) -> Option<int> {
    if lines(out).len() > 0 {
        millionths(trimmed(lines(out)[0]))
    } else {
        None
    }
}

/// Reads the number that `nvidia-smi` printed.
pub fn smi_query(out: &str) -> (r: Option<i64>)
    ensures
        int_of(r) == smi_value(out@),
{
    let ls: Vec<Vec<char>> = lines_of(chars_of(out).as_slice());
    assert(char_views(ls@).len() == ls@.len());
    if ls.len() == 0 {
        return None;
    }
    assert(char_views(ls@)[0] == ls@[0]@);
    parse_millionths(trim(ls[0].as_slice()))
}

/// The bytes of a number of MiB, if they can be counted.
pub open spec fn mib_bytes(mib: int) -> Option<u64> {
    if mib * 0x10_0000 <= u64::MAX {
        Some((mib * 0x10_0000) as u64)
    } else {
        None
    }
}

/// The card on a line of `nvidia-smi`: index, name, PCI number, memory.
pub open spec fn smi_card(line: Seq<char>) -> Option<NvView> {
    let parts = split(line, ',');
    if parts.len() < 4 {
        None
    } else {
        let pci = match hex(without_0x(trimmed(parts[2]))) {
            Some(p) => p,
            None => 0x10DEu32,
        };
        match whole(trimmed(parts[0]), u32::MAX as int) {
            Some(index) => Some(
                NvView {
                    index: index as u32,
                    name: trimmed(parts[1]),
                    vram_bytes: match whole(trimmed(parts[3]), u64::MAX as int) {
                        Some(mib) => mib_bytes(mib),
                        None => None,
                    },
                    vendor_id: vendor_part(pci),
                    device_id: device_part(pci),
                },
            ),
            None => None,
        }
    }
}

/// The cards on lines of `nvidia-smi`.
pub open spec fn smi_cards(ls: Seq<Seq<char>>) -> Seq<NvView>
    decreases ls.len(),
{
    if ls.len() == 0 {
        Seq::empty()
    } else {
        match smi_card(ls.last()) {
            Some(d) => smi_cards(ls.drop_last()).push(d),
            None => smi_cards(ls.drop_last()),
        }
    }
}

/// A line names a card where it has four parts and the first is a number: the
/// card's index.  The second is its name, and the fourth its memory in megabytes.
pub proof fn lemma_card_of_line(line: Seq<char>)
    ensures
        ({
            let parts = split(line, ',');
            let c = smi_card(line);
            let index = whole(trimmed(parts[0]), u32::MAX as int);
            let mib = whole(trimmed(parts[3]), u64::MAX as int);
            &&& c is Some <==> parts.len() >= 4 && index is Some
            &&& c is Some ==> {
                &&& c->0.name == trimmed(parts[1])
                &&& mib is None ==> c->0.vram_bytes is None
                &&& mib is Some && mib->0 * 1024 * 1024 <= u64::MAX ==> c->0.vram_bytes is Some
                    && c->0.vram_bytes->0 == mib->0 * 1024 * 1024
                &&& hex(without_0x(trimmed(parts[2]))) is Some ==> c->0.device_id * 65_536
                    + c->0.vendor_id == hex(without_0x(trimmed(parts[2])))->0
                &&& hex(without_0x(trimmed(parts[2]))) is None ==> c->0.vendor_id == 0x10DE
                    && c->0.device_id == 0
            }
        }),
{
}

/// The cards of several lines are those of each, in their order.
pub proof fn lemma_cards_of_lines(a: Seq<Seq<char>>, b: Seq<Seq<char>>)
    ensures
        smi_cards(a + b) == smi_cards(a) + smi_cards(b),
    decreases b.len(),
{
    if b.len() == 0 {
        assert(a + b =~= a);
        assert(smi_cards(a) + smi_cards(b) =~= smi_cards(a));
    } else {
        lemma_cards_of_lines(a, b.drop_last());
        assert((a + b).drop_last() =~= a + b.drop_last());
        assert(smi_cards(a + b) =~= smi_cards(a) + smi_cards(b));
    }
}

fn read_card(line: &[char]) -> (r: Option<NvDevice>)
    ensures
        match r {
            Some(d) => smi_card(line@) == Some(d@),
            None => smi_card(line@) is None,
        },
{
    let parts: Vec<Vec<char>> = split_at_char(line, ',');
    let ghost ps = char_views(parts@);
    if parts.len() < 4 {
        return None;
    }
    assert(ps[0] == parts@[0]@ && ps[1] == parts@[1]@ && ps[2] == parts@[2]@ && ps[3]
        == parts@[3]@);
    let index: u64 = match parse_whole(trim(parts[0].as_slice()), 0xffff_ffff) {
        Some(i) => i,
        None => {
            return None;
        },
    };
    let pci: u32 = match parse_hex(skip_0x(trim(parts[2].as_slice()))) {
        Some(p) => p,
        None => 0x10DE,
    };
    let vram_bytes = match parse_whole(trim(parts[3].as_slice()), 0xffff_ffff_ffff_ffff) {
        Some(mib) => if mib <= 0xfff_ffff_ffff {
            Some(mib * 0x10_0000)
        } else {
            None
        },
        None => None,
    };
    Some(
        NvDevice {
            index: index as u32,
            name: string_of(trim(parts[1].as_slice())),
            vram_bytes,
            vendor_id: pci % 0x1_0000,
            device_id: pci / 0x1_0000,
        },
    )
}

/// The cards that `nvidia-smi` printed.
pub fn smi_devices(out: &str) -> (r: Vec<NvDevice>)
    ensures
        nv_views(r@) == smi_cards(lines(out@)),
{
    let ls: Vec<Vec<char>> = lines_of(chars_of(out).as_slice());
    let ghost all = char_views(ls@);
    let mut r: Vec<NvDevice> = Vec::new();
    let mut i: usize = 0;
    assert(nv_views(r@) =~= smi_cards(all.take(0)));
    while i < ls.len()
        invariant
            i <= ls.len(),
            all == char_views(ls@),
            nv_views(r@) == smi_cards(all.take(i as int)),
        decreases ls.len() - i,
    {
        let ghost before = nv_views(r@);
        assert(all.take(i + 1).drop_last() =~= all.take(i as int));
        assert(all.take(i + 1).last() == ls@[i as int]@);
        match read_card(ls[i].as_slice()) {
            Some(d) => {
                let ghost dv = d@;
                r.push(d);
                assert(nv_views(r@) =~= before.push(dv));
            },
            None => {},
        }
        i = i + 1;
    }
    assert(all.take(all.len() as int) =~= all);
    r
}

/// A temperature that can be.
pub open spec fn possible(t: Option<i64>) -> bool {
    match t {
        Some(x) => 0 < x < 150 * UNIT,
        None => false,
    }
}

fn is_possible(t: Option<i64>) -> (r: bool)
    ensures
        r == possible(t),
{
    match t {
        Some(x) => 0 < x && x < 150 * UNIT,
        None => false,
    }
}

/// Where a card's temperature was read.
#[derive(Debug, Clone, Copy, PartialEq, Eq, Structural)]
pub enum NvSource {
    HotSpot,
    Driver,
    Smi,
}

impl NvSource {
    /// The source as it is shown.
    pub open spec fn label(self) -> Seq<char> {
        match self {
            NvSource::HotSpot => "nvidia-smi / GPU Hot Spot"@,
            NvSource::Driver => "NVIDIA driver (NVML) / GPU Core"@,
            NvSource::Smi => "nvidia-smi / GPU Core"@,
        }
    }

    /// The source as it is shown.
    pub fn text(&self) -> (r: &'static str)
        ensures
            r@ == self.label(),
    {
        match self {
            NvSource::HotSpot => "nvidia-smi / GPU Hot Spot",
            NvSource::Driver => "NVIDIA driver (NVML) / GPU Core",
            NvSource::Smi => "nvidia-smi / GPU Core",
        }
    }
}

/// The temperature, and where it is from: the hot spot's where it can be, else
/// the driver's, else the core's where it can be.
pub open spec fn told_temperature(
    hotspot: Option<i64>,
    driver: Option<u32>,
    core: Option<i64>,
) -> Option<(i64, NvSource)> {
    if possible(hotspot) {
        Some((hotspot->0, NvSource::HotSpot))
    } else if driver is Some {
        Some(((driver->0 * UNIT) as i64, NvSource::Driver))
    } else if possible(core) {
        Some((core->0, NvSource::Smi))
    } else {
        None
    }
}

/// A hot spot between 0 °C and 150 °C goes before the driver's temperature, this
/// before the core's, and the core's counts only between 0 °C and 150 °C.  The
/// number that is told is that of the source that is told.
pub proof fn lemma_hot_spot_first(hotspot: Option<i64>, driver: Option<u32>, core: Option<i64>)
    ensures
        ({
            let r = told_temperature(hotspot, driver, core);
            let hot = hotspot is Some && 0 < hotspot->0 < 150_000_000;
            let cold = core is Some && 0 < core->0 < 150_000_000;
            &&& r is Some <==> hot || driver is Some || cold
            &&& r is Some ==> {
                &&& (r->0).1 == NvSource::HotSpot <==> hot
                &&& (r->0).1 == NvSource::Driver <==> !hot && driver is Some
                &&& (r->0).1 == NvSource::HotSpot ==> Some((r->0).0) == hotspot
                &&& (r->0).1 == NvSource::Driver ==> (r->0).0 == driver->0 * 1_000_000
                &&& (r->0).1 == NvSource::Smi ==> Some((r->0).0) == core
            }
        }),
{
}

/// The temperature of a card: the hot spot if `nvidia-smi` has it, else what
/// the driver says in whole degrees, else the core by `nvidia-smi`.
pub fn temperature(hotspot: Option<i64>, driver: Option<u32>, core: Option<i64>) -> (r: Option<
    (i64, NvSource),
>)
    ensures
        r == told_temperature(hotspot, driver, core),
{
    if is_possible(hotspot) {
        match hotspot {
            Some(t) => Some((t, NvSource::HotSpot)),
            None => None,
        }
    } else {
        match driver {
            Some(t) => Some((t as i64 * UNIT, NvSource::Driver)),
            None => if is_possible(core) {
                match core {
                    Some(t) => Some((t, NvSource::Smi)),
                    None => None,
                }
            } else {
                None
            },
        }
    }
}

/// The load of a card: what the driver says in whole percent, else what
/// `nvidia-smi` says.
pub fn utilization(driver: Option<u32>, smi: Option<i64>) -> (r: Option<i64>)
    ensures
        r == (match driver {
            Some(u) => Some((u * UNIT) as i64),
            None => smi,
        }),
{
    match driver {
        Some(u) => Some(u as i64 * UNIT),
        None => smi,
    }
}

} // verus!
