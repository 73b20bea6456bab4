//! The system's own list of graphics cards, made from what it reports.
use vstd::arithmetic::power2::*;
use vstd::prelude::*;

use crate::bytes::{bytes_of, decode_wide, decoded_wide, read_units, units};
use crate::decimal::{capped, parse_whole, whole};
use crate::fixed::one;
use crate::gpus::{
    adapter_views, clean_adapter_name, cleaned, gpu_of, gpu_views, same_device, Adapter,
    AdapterView, GpuDevice, GpuKind, GpuView,
};
use crate::json::{as_list, as_text, json_at, json_node, list_in, node_of, text_in, Node, NodeView};
use crate::numerals::{parse_numeral, numeral, Numeral, NumeralView};
use crate::text::{
    all_ascii, ascii_lower, at, begins, char_views, chars_of, dec, digit_char, digits, digits_of,
    find, first_at, is_all_ascii, lemma_first_at, lemma_next_char, next_char, padded_left, push_dec, push_padded, same, split, split_at_char,
    starts_with, string_of, text_of, to_ascii_lower, trim, trim_str, trimmed, words, words_of,
};

verus! {

// ---------------------------------------------------------------------------
// Hexadecimal numbers

/// The value of a hexadecimal digit; none for other characters.
pub open spec fn hex_value(c: char) -> Option<int> {
    if '0' <= c <= '9' {
        Some(c as u8 - 48)
    } else if 'a' <= c <= 'f' {
        Some(c as u8 - 87)
    } else if 'A' <= c <= 'F' {
        Some(c as u8 - 55)
    } else {
        None
    }
}

/// All of `s` is hexadecimal digits.
pub open spec fn all_hex(s: Seq<char>) -> bool {
    forall|i: int| 0 <= i < s.len() ==> hex_value(#[trigger] s[i]) is Some
}

/// The number that hexadecimal digits stand for.
pub open spec fn hex_number(s: Seq<char>) -> nat
    decreases s.len(),
{
    if s.len() == 0 {
        0
    } else {
        hex_number(s.drop_last()) * 16 + (hex_value(s.last())->0 as nat)
    }
}

/// The number of at most 32 bits that a text stands for: hexadecimal digits,
/// a plus in front allowed.
pub open spec fn hex(s: Seq<char>) -> Option<u32> {
    let t = if s.len() > 0 && s[0] == '+' {
        s.skip(1)
    } else {
        s
    };
    if t.len() > 0 && all_hex(t) && hex_number(t) <= u32::MAX {
        Some(hex_number(t) as u32)
    } else {
        None
    }
}

proof fn lemma_hex_digits(n: nat)
    ensures
        digits(n, 16).len() > 0,
        all_hex(digits(n, 16)),
        hex_number(digits(n, 16)) == n,
        digits(n, 16)[0] != '+',
    decreases n,
{
    let s = digits(n, 16);
    let d = (n % 16) as int;
    assert(hex_value(digit_char(d)) == Some(d) && digit_char(d) != '+');
    if n < 16 {
        assert(s.drop_last() =~= Seq::empty());
        assert(hex_number(s.drop_last()) == 0);
    } else {
        lemma_hex_digits(n / 16);
        let front = digits(n / 16, 16);
        assert(s.drop_last() =~= front);
        assert forall|i: int| 0 <= i < s.len() implies hex_value(#[trigger] s[i]) is Some by {
            if i < front.len() {
                assert(s[i] == front[i]);
            }
        }
    }
}

/// A number that is written in hexadecimal digits is read back.
pub proof fn lemma_hex_is_read_back(n: u32)
    ensures
        hex(digits(n as nat, 16)) == Some(n),
{
    lemma_hex_digits(n as nat);
}

fn hex_digit(c: char) -> (r: Option<u8>)
    ensures
        r is Some <==> hex_value(c) is Some,
        r is Some ==> r->0 < 16 && Some(r->0 as int) == hex_value(c),
{
    if '0' <= c && c <= '9' {
        Some(c as u8 - 48)
    } else if 'a' <= c && c <= 'f' {
        Some(c as u8 - 87)
    } else if 'A' <= c && c <= 'F' {
        Some(c as u8 - 55)
    } else {
        None
    }
}

/// Reads a hexadecimal number of at most 32 bits.
pub fn parse_hex(s: &[char]) -> (r: Option<u32>)
    ensures
        r == hex(s@),
{
    let start: usize = if s.len() > 0 && s[0] == '+' {
        1
    } else {
        0
    };
    let ghost t = if s@.len() > 0 && s@[0] == '+' {
        s@.skip(1)
    } else {
        s@
    };
    assert(t =~= s@.skip(start as int));
    if start == s.len() {
        return None;
    }
    let mut n: u64 = 0;
    let mut over = false;
    let mut i: usize = start;
    while i < s.len()
        invariant
            start <= i <= s.len(),
            t == s@.skip(start as int),
            t == if s@.len() > 0 && s@[0] == '+' {
                s@.skip(1)
            } else {
                s@
            },
            forall|j: int| 0 <= j < i - start ==> hex_value(#[trigger] t[j]) is Some,
            over ==> hex_number(t.take(i - start)) > u32::MAX,
            !over ==> n == hex_number(t.take(i - start)) && n <= u32::MAX,
        decreases s.len() - i,
    {
        assert(t[i - start] == s@[i as int]);
        match hex_digit(s[i]) {
            None => {
                return None;
            },
            Some(d) => {
                assert(t.take(i + 1 - start).drop_last() =~= t.take(i - start));
                if !over {
                    n = n * 16 + d as u64;
                    if n > 0xffff_ffff {
                        over = true;
                    }
                }
            },
        }
        i = i + 1;
    }
    assert(t.take(t.len() as int) =~= t);
    if over {
        None
    } else {
        Some(n as u32)
    }
}

/// `s` without every `0x` in front.
pub open spec fn without_0x(s: Seq<char>) -> Seq<char>
    decreases s.len(),
{
    if s.len() >= 2 && s[0] == '0' && s[1] == 'x' {
        without_0x(s.skip(2))
    } else {
        s
    }
}

/// Cuts every `0x` in front.
pub fn skip_0x<'a>(t: &'a [char]) -> (r: &'a [char])
    ensures
        r@ == without_0x(t@),
{
    let mut i: usize = 0;
    assert(t@.skip(0) =~= t@);
    while t.len() - i >= 2 && t[i] == '0' && t[i + 1] == 'x'
        invariant
            i <= t.len(),
            without_0x(t@) == without_0x(t@.skip(i as int)),
        decreases t.len() - i,
    {
        assert(t@.skip(i as int).skip(2) =~= t@.skip(i + 2));
        i = i + 2;
    }
    let rest = vstd::slice::slice_subrange(t, i, t.len());
    assert(rest@ =~= t@.skip(i as int));
    rest
}

/// The number in a file of the PCI directory, `0x` and hexadecimal digits.
pub open spec fn pci_number(s: Seq<char>) -> Option<u32> {
    hex(without_0x(trimmed(s)))
}

/// Reads the number in a file of the PCI directory.
pub fn read_hex(text: &str) -> (r: Option<u32>)
    ensures
        r == pci_number(text@),
{
    let cs: Vec<char> = chars_of(text);
    let t = trim(cs.as_slice());
    parse_hex(skip_0x(t))
}

// ---------------------------------------------------------------------------
// Linux

/// The PCI class number of a display controller.
pub open spec fn display_class(class: u32) -> bool {
    class / 0x1_0000 == 3
}

/// Whether a PCI device is a display controller, by its class.
pub fn is_display(class: &str) -> (r: bool)
    ensures
        r == match pci_number(class@) {
            Some(c) => display_class(c),
            None => false,
        },
{
    match read_hex(class) {
        Some(c) => c / 0x1_0000 == 3,
        None => false,
    }
}

/// The memory that a driver reports.
pub open spec fn driver_memory(s: Seq<char>) -> Option<u64> {
    match whole(trimmed(s), u64::MAX as int) {
        Some(n) if n > 0 => Some(n as u64),
        _ => None,
    }
}

/// The name of a card that has none: its vendor and device numbers.
pub open spec fn numbered_name(vendor: Option<u32>, device: Option<u32>) -> Seq<char> {
    "GPU "@ + padded_left(digits(or_zero(vendor) as nat, 16), '0', 4) + seq![':'] + padded_left(
        digits(or_zero(device) as nat, 16),
        '0',
        4,
    )
}

/// A number, zero where there is none.
pub open spec fn or_zero(n: Option<u32>) -> u32 {
    match n {
        Some(x) => x,
        None => 0,
    }
}

/// What the files of a PCI device and `lspci` say of a card.
pub struct PciReport {
    pub class: Option<String>,
    pub vendor: Option<String>,
    pub device: Option<String>,
    pub memory: Option<String>,
    /// The output of `lspci -mm` for its slot.
    pub lspci: Option<String>,
    /// Its directory.
    pub dir: String,
}

/// The number in a file, if the file is there.
pub open spec fn file_number(s: Option<String>) -> Option<u32> {
    match s {
        Some(x) => pci_number(x@),
        None => None,
    }
}

/// The name that `lspci` gives, if it ran.
pub open spec fn listed_name(s: Option<String>) -> Option<Seq<char>> {
    match s {
        Some(x) => lspci_text(x@),
        None => None,
    }
}

/// The card that a PCI device is; none if it is no display controller.
pub open spec fn pci_gpu(p: PciReport) -> Option<GpuView> {
    let vendor_id = file_number(p.vendor);
    let device_id = file_number(p.device);
    match file_number(p.class) {
        Some(class) if display_class(class) => Some(
            GpuView {
                name: match listed_name(p.lspci) {
                    Some(n) => n,
                    None => numbered_name(vendor_id, device_id),
                },
                vram_bytes: match p.memory {
                    Some(m) => driver_memory(m@),
                    None => None,
                },
                kind: GpuKind::Unknown,
                vendor_id,
                device_id,
                nvml_index: None,
                sysfs_device: Some(p.dir@),
            },
        ),
        _ => None,
    }
}

/// A device is a card exactly where its class is a display controller's, from
/// 0x030000 to 0x03FFFF.  It has the numbers and the directory of the device, the
/// name that is listed where one is, and no memory where that is said to be none.
pub proof fn lemma_pci_gpu(p: PciReport)
    ensures
        ({
            let class = file_number(p.class);
            let g = pci_gpu(p);
            &&& g is Some <==> class is Some && 0x03_0000 <= class->0 <= 0x03_FFFF
            &&& g is Some ==> {
                &&& g->0.vendor_id == file_number(p.vendor)
                &&& g->0.device_id == file_number(p.device)
                &&& g->0.sysfs_device == Some(p.dir@)
                &&& listed_name(p.lspci) is Some ==> g->0.name == listed_name(p.lspci)->0
                &&& g->0.vram_bytes != Some(0u64)
                &&& p.memory is None ==> g->0.vram_bytes is None
            }
        }),
{
}

fn number_of(s: &Option<String>) -> (r: Option<u32>)
    ensures
        r == file_number(*s),
{
    match s {
        Some(x) => read_hex(x.as_str()),
        None => None,
    }
}

fn push_hex4(s: &mut String, n: Option<u32>)
    ensures
        final(s)@ == old(s)@ + padded_left(digits(or_zero(n) as nat, 16), '0', 4),
{
    let v: u32 = match n {
        Some(x) => x,
        None => 0,
    };
    push_padded(s, digits_of(v as u64, 16).as_slice(), '0', 4);
}

/// Makes a card of what the system reports of a PCI device.
pub fn linux_gpu(p: PciReport) -> (r: Option<GpuDevice>)
    ensures
        gpu_of(r) == pci_gpu(p),
{
    let displays = match &p.class {
        Some(c) => is_display(c.as_str()),
        None => false,
    };
    if !displays {
        return None;
    }
    let vendor_id = number_of(&p.vendor);
    let device_id = number_of(&p.device);
    let listed = match &p.lspci {
        Some(t) => lspci_name(t.as_str()),
        None => None,
    };
    let name = match listed {
        Some(n) => n,
        None => {
            let mut n = String::new();
            n.append("GPU ");
            push_hex4(&mut n, vendor_id);
            n.push(':');
            push_hex4(&mut n, device_id);
            assert(n@ =~= numbered_name(vendor_id, device_id));
            n
        },
    };
    let vram_bytes = match &p.memory {
        Some(m) => match parse_whole(trim(chars_of(m.as_str()).as_slice()), u64::MAX) {
            Some(b) => if b > 0 {
                Some(b)
            } else {
                None
            },
            None => None,
        },
        None => None,
    };
    Some(
        GpuDevice {
            name,
            vram_bytes,
            kind: GpuKind::Unknown,
            vendor_id,
            device_id,
            nvml_index: None,
            sysfs_device: Some(p.dir),
        },
    )
}

/// The parts that are not blank.
pub open spec fn not_blank(parts: Seq<Seq<char>>) -> Seq<Seq<char>>
    decreases parts.len(),
{
    if parts.len() == 0 {
        parts
    } else if trimmed(parts.last()).len() == 0 {
        not_blank(parts.drop_last())
    } else {
        not_blank(parts.drop_last()).push(parts.last())
    }
}

/// The position of the last `c` under `i`, or -1.
pub open spec fn last_char(s: Seq<char>, c: char, i: int) -> int
    decreases i,
{
    if i <= 0 || i > s.len() {
        -1
    } else if s[i - 1] == c {
        i - 1
    } else {
        last_char(s, c, i - 1)
    }
}

/// What stands in the outermost square brackets; the whole text where there
/// are none.
pub open spec fn in_brackets(s: Seq<char>) -> Seq<char> {
    let a = next_char(s, '[', 0);
    let b = last_char(s, ']', s.len() as int);
    if a < b {
        s.subrange(a + 1, b)
    } else {
        s
    }
}

proof fn lemma_last_char(s: Seq<char>, c: char, i: int)
    requires
        0 <= i <= s.len(),
    ensures
        -1 <= last_char(s, c, i) < i,
        last_char(s, c, i) >= 0 ==> s[last_char(s, c, i)] == c,
        forall|j: int| last_char(s, c, i) < j < i ==> s[j] != c,
    decreases i,
{
    if i > 0 && s[i - 1] != c {
        lemma_last_char(s, c, i - 1);
    }
}

/// What stands in brackets is taken from a name, and a name without them whole.
pub proof fn lemma_in_brackets(a: Seq<char>, m: Seq<char>, b: Seq<char>)
    requires
        forall|i: int| 0 <= i < a.len() ==> a[i] != '[',
        forall|i: int| 0 <= i < b.len() ==> b[i] != ']',
    ensures
        in_brackets(a + seq!['['] + m + seq![']'] + b) == m,
        in_brackets(a) == a,
{
    let s = a + seq!['['] + m + seq![']'] + b;
    let n = a.len() as int;
    let e = n + 1 + m.len();
    lemma_next_char(s, '[', 0);
    lemma_last_char(s, ']', s.len() as int);
    assert(s[n] == '[' && s[e] == ']');
    assert forall|i: int| 0 <= i < n implies s[i] != '[' by {
        assert(s[i] == a[i]);
    }
    assert forall|i: int| e < i < s.len() implies s[i] != ']' by {
        assert(s[i] == b[i - e - 1]);
    }
    assert(next_char(s, '[', 0) == n);
    assert(last_char(s, ']', s.len() as int) == e);
    assert(s.subrange(n + 1, e) =~= m);
    lemma_next_char(a, '[', 0);
    lemma_last_char(a, ']', a.len() as int);
    assert(next_char(a, '[', 0) == n);
}

/// The first word of a text, empty where there is none.
pub open spec fn first_word(s: Seq<char>) -> Seq<char> {
    if words(s).len() > 0 {
        words(s)[0]
    } else {
        Seq::empty()
    }
}

/// The card's name in the output of `lspci -mm`: the first word of the vendor,
/// and the device, of which what is in brackets.  Its fields stand in quotes:
/// slot, class, vendor, device.
pub open spec fn lspci_text(text: Seq<char>) -> Option<Seq<char>> {
    let fields = not_blank(split(text, '"'));
    if fields.len() >= 4 {
        Some(trimmed(first_word(fields[2]) + seq![' '] + in_brackets(fields[3])))
    } else {
        None
    }
}

fn quoted_fields(text: &str) -> (r: Vec<Vec<char>>)
    ensures
        char_views(r@) == not_blank(split(text@, '"')),
{
    let parts: Vec<Vec<char>> = split_at_char(chars_of(text).as_slice(), '"');
    let ghost all = char_views(parts@);
    let mut r: Vec<Vec<char>> = Vec::new();
    let mut i: usize = 0;
    assert(char_views(r@) =~= not_blank(all.take(0)));
    while i < parts.len()
        invariant
            i <= parts.len(),
            all == char_views(parts@),
            char_views(r@) == not_blank(all.take(i as int)),
        decreases parts.len() - i,
    {
        let ghost before = char_views(r@);
        assert(all.take(i + 1).drop_last() =~= all.take(i as int));
        assert(all.take(i + 1).last() == parts@[i as int]@);
        if trim(parts[i].as_slice()).len() > 0 {
            let part: Vec<char> = vstd::slice::slice_to_vec(parts[i].as_slice());
            r.push(part);
            assert(char_views(r@) =~= before.push(part@));
        }
        i = i + 1;
    }
    assert(all.take(all.len() as int) =~= all);
    r
}

/// `lspci -mm -s <slot>` → "Advanced Micro Devices, Inc. [AMD/ATI]" "Navi 31 [...]"
pub fn lspci_name(text: &str) -> (r: Option<String>)
    ensures
        text_of(r) == lspci_text(text@),
{
    let fields: Vec<Vec<char>> = quoted_fields(text);
    let ghost fs = char_views(fields@);
    if fields.len() < 4 {
        return None;
    }
    assert(fs[2] == fields@[2]@ && fs[3] == fields@[3]@);
    let vendor_words: Vec<Vec<char>> = words_of(fields[2].as_slice());
    assert(char_views(vendor_words@).len() == vendor_words@.len());
    let mut name = String::new();
    if vendor_words.len() > 0 {
        assert(char_views(vendor_words@)[0] == vendor_words@[0]@);
        name = string_of(vendor_words[0].as_slice());
    }
    assert(name@ =~= first_word(fs[2]));
    name.push(' ');
    let device: &Vec<char> = &fields[3];
    let a: usize = crate::text::find_char(device.as_slice(), '[', 0);
    let mut b: usize = device.len();
    while b > 0 && device[b - 1] != ']'
        invariant
            b <= device.len(),
            last_char(device@, ']', device@.len() as int) == last_char(device@, ']', b as int),
        decreases b,
    {
        b = b - 1;
    }
    let inner = if b > 0 && a < b - 1 {
        let part = vstd::slice::slice_subrange(device.as_slice(), a + 1, b - 1);
        string_of(part)
    } else {
        string_of(device.as_slice())
    };
    assert(inner@ =~= in_brackets(fs[3]));
    name.append(inner.as_str());
    assert(name@ =~= first_word(fs[2]) + seq![' '] + in_brackets(fs[3]));
    Some(trim_str(name.as_str()))
}

/// The first card from `i` on with the adapter's numbers, or their number.
pub open spec fn device_pick(gpus: Seq<GpuView>, a: AdapterView, i: int) -> int
    decreases gpus.len() - i,
{
    if i < 0 || i >= gpus.len() || same_device(gpus[i], a) {
        i
    } else {
        device_pick(gpus, a, i + 1)
    }
}

/// The cards with the name that one adapter has, but for NVIDIA's.
pub open spec fn named_by(gpus: Seq<GpuView>, a: AdapterView) -> Seq<GpuView> {
    let i = device_pick(gpus, a, 0);
    if i < gpus.len() && !gpus[i].nvidia() {
        gpus.update(i, GpuView { name: cleaned(a.name), ..gpus[i] })
    } else {
        gpus
    }
}

proof fn lemma_device_pick(gpus: Seq<GpuView>, a: AdapterView, i: int)
    requires
        0 <= i <= gpus.len(),
    ensures
        i <= device_pick(gpus, a, i) <= gpus.len(),
        device_pick(gpus, a, i) < gpus.len() ==> same_device(gpus[device_pick(gpus, a, i)], a),
        forall|j: int| i <= j < device_pick(gpus, a, i) ==> !same_device(#[trigger] gpus[j], a),
    decreases gpus.len() - i,
{
    if i < gpus.len() && !same_device(gpus[i], a) {
        lemma_device_pick(gpus, a, i + 1);
    }
}

/// An adapter names the first card that has both of its numbers, unless that is
/// NVIDIA's, and changes nothing else.
pub proof fn lemma_named_by(gpus: Seq<GpuView>, a: AdapterView, i: int)
    requires
        0 <= i < gpus.len(),
    ensures
        ({
            let r = named_by(gpus, a);
            let same = |j: int|
                gpus[j].vendor_id == Some(a.vendor) && gpus[j].device_id == Some(a.device);
            &&& r.len() == gpus.len()
            &&& r[i] == (GpuView { name: r[i].name, ..gpus[i] })
            &&& r[i].name != gpus[i].name ==> same(i) && !gpus[i].nvidia() && r[i].name == cleaned(
                a.name,
            )
            &&& same(i) && !gpus[i].nvidia() && (forall|j: int| 0 <= j < i ==> !#[trigger] same(j))
                ==> r[i].name == cleaned(a.name)
        }),
{
    lemma_device_pick(gpus, a, 0);
    let p = device_pick(gpus, a, 0);
    let same = |j: int| gpus[j].vendor_id == Some(a.vendor) && gpus[j].device_id == Some(a.device);
    assert(gpus[i] == (GpuView { name: gpus[i].name, ..gpus[i] }));
    if p < gpus.len() {
        assert(same(p));
    }
}

/// The cards with the names that the first `k` adapters have.
pub open spec fn named_by_all(gpus: Seq<GpuView>, ads: Seq<AdapterView>, k: int) -> Seq<GpuView>
    decreases k,
{
    if k <= 0 {
        gpus
    } else {
        named_by(named_by_all(gpus, ads, k - 1), ads[k - 1])
    }
}

fn find_device(gpus: &Vec<GpuDevice>, a: &Adapter) -> (r: usize)
    ensures
        r == device_pick(gpu_views(gpus@), a@, 0),
        r <= gpus.len(),
{
    let mut i: usize = 0;
    while i < gpus.len()
        invariant
            i <= gpus.len(),
            device_pick(gpu_views(gpus@), a@, 0) == device_pick(gpu_views(gpus@), a@, i as int),
        decreases gpus.len() - i,
    {
        let vendor = match gpus[i].vendor_id {
            Some(v) => v == a.vendor,
            None => false,
        };
        let device = match gpus[i].device_id {
            Some(d) => d == a.device,
            None => false,
        };
        if vendor && device {
            return i;
        }
        i = i + 1;
    }
    i
}

/// Prefer the graphics interface's marketing names ("AMD Radeon RX 7900 XTX")
/// over chip names ("Navi 31 [Radeon RX 7900 XT/7900 XTX]").
pub fn prefer_adapter_names(gpus: &mut Vec<GpuDevice>, adapters: &Vec<Adapter>)
    ensures
        gpu_views(final(gpus)@) == named_by_all(
            gpu_views(old(gpus)@),
            adapter_views(adapters@),
            adapters@.len() as int,
        ),
{
    let ghost start = gpu_views(gpus@);
    let ghost ads = adapter_views(adapters@);
    let mut k: usize = 0;
    while k < adapters.len()
        invariant
            k <= adapters.len(),
            ads == adapter_views(adapters@),
            gpu_views(gpus@) == named_by_all(start, ads, k as int),
        decreases adapters.len() - k,
    {
        let ghost before = gpu_views(gpus@);
        let i: usize = find_device(gpus, &adapters[k]);
        if i < gpus.len() && !gpus[i].is_nvidia() {
            let mut g: GpuDevice = gpus[i].duplicate();
            g.name = clean_adapter_name(adapters[k].name.as_str());
            let ghost gv = g@;
            gpus.set(i, g);
            assert(gpu_views(gpus@) =~= before.update(i as int, gv));
        }
        assert(gpu_views(gpus@) =~= named_by(before, ads[k as int]));
        k = k + 1;
    }
}

// ---------------------------------------------------------------------------
// Windows

/// What `str::to_uppercase` makes of a text.
pub uninterp spec fn unicode_upper(s: Seq<char>) -> Seq<char>;

/// `str::to_uppercase`: the Unicode case tables, which are too long to state;
/// the same text always gives the same result.
#[verifier::external_body]
fn unicode_to_upper(s: &str) -> (r: String)
    ensures
        r@ == unicode_upper(s@),
{
    s.to_uppercase()
}

/// A character with the letters of ASCII in upper case.
pub open spec fn ascii_upper_char(c: char) -> char {
    if 'a' <= c <= 'z' {
        (c as u8 - 32) as u8 as char
    } else {
        c
    }
}

/// `s` in upper case.
pub open spec fn upper(s: Seq<char>) -> Seq<char> {
    if all_ascii(s) {
        s.map_values(|c: char| ascii_upper_char(c))
    } else {
        unicode_upper(s)
    }
}

/// Turns a text to upper case.
pub fn to_upper(s: &str) -> (r: String)
    ensures
        r@ == upper(s@),
{
    if !is_all_ascii(s) {
        return unicode_to_upper(s);
    }
    let cs: Vec<char> = chars_of(s);
    let ghost up = s@.map_values(|c: char| ascii_upper_char(c));
    let mut r = String::new();
    let mut i: usize = 0;
    while i < cs.len()
        invariant
            i <= cs.len(),
            cs@ == s@,
            up == s@.map_values(|c: char| ascii_upper_char(c)),
            r@ == up.take(i as int),
        decreases cs.len() - i,
    {
        let c = cs[i];
        if 'a' <= c && c <= 'z' {
            r.push((c as u8 - 32) as char);
        } else {
            r.push(c);
        }
        i = i + 1;
        assert(up.take(i as int) =~= up.take(i - 1).push(up[i - 1]));
    }
    assert(up.take(up.len() as int) =~= up);
    r
}

/// The number of four hexadecimal digits behind a key in a device's path.
pub open spec fn keyed_number(pnp: Seq<char>, key: Seq<char>) -> Option<u32> {
    match first_at(pnp, key, 0) {
        Some(i) if i + key.len() + 4 <= pnp.len() => hex(
            pnp.subrange(i + key.len(), i + key.len() + 4),
        ),
        _ => None,
    }
}

proof fn lemma_found_first(s: Seq<char>, key: Seq<char>, n: int)
    requires
        0 <= n,
        at(s, key, n),
        forall|j: int| 0 <= j < n ==> !at(s, key, j),
    ensures
        first_at(s, key, 0) == Some(n),
{
    lemma_first_at(s, key, 0);
}

/// The four digits behind the first of a key are its number.
pub proof fn lemma_keyed_number(s: Seq<char>, key: Seq<char>, n: int)
    requires
        0 <= n,
        n + key.len() + 4 <= s.len(),
        at(s, key, n),
        forall|j: int| 0 <= j < n ==> !at(s, key, j),
    ensures
        keyed_number(s, key) == hex(s.subrange(n + key.len(), n + key.len() + 4)),
{
    lemma_found_first(s, key, n);
}

/// Parse "VEN_10DE" / "DEV_2704" out of a PNP device ID.
pub fn pci_id(pnp: &str, key: &str) -> (r: Option<u32>)
    ensures
        r == keyed_number(pnp@, key@),
{
    let cs: Vec<char> = chars_of(pnp);
    let ks: Vec<char> = chars_of(key);
    match find(cs.as_slice(), ks.as_slice(), 0) {
        Some(i) => {
            let start: usize = i + ks.len();
            if cs.len() - start < 4 {
                return None;
            }
            parse_hex(vstd::slice::slice_subrange(cs.as_slice(), start, start + 4))
        },
        None => None,
    }
}

/// A display adapter in the registry, where each driver records the size of
/// its memory.
#[derive(Debug, Clone)]
pub struct RegistryAdapter {
    pub name: String,
    pub vendor_id: Option<u32>,
    pub device_id: Option<u32>,
    pub vram_bytes: Option<u64>,
}

/// The subkeys that hold adapters are numbers.
pub open spec fn adapter_key(subkey: Seq<char>) -> bool {
    crate::decimal::all_digits(subkey)
}

/// Whether a subkey of the display class holds an adapter.
pub fn is_adapter_key(subkey: &str) -> (r: bool)
    ensures
        r == adapter_key(subkey@),
{
    let cs: Vec<char> = chars_of(subkey);
    let mut i: usize = 0;
    while i < cs.len()
        invariant
            i <= cs.len(),
            cs@ == subkey@,
            forall|j: int| 0 <= j < i ==> crate::text::digit(#[trigger] subkey@[j]),
        decreases cs.len() - i,
    {
        if !crate::text::is_digit(cs[i]) {
            assert(!crate::text::digit(subkey@[i as int]));
            return false;
        }
        i = i + 1;
    }
    true
}

/// The number in a registry value of four or eight bytes.
pub open spec fn registry_number(data: Seq<u8>) -> Option<u64> {
    if data.len() == 8 {
        Some(crate::bytes::le64(data, 0))
    } else if data.len() == 4 {
        Some(crate::bytes::le32(data, 0) as u64)
    } else {
        None
    }
}

/// Reads the number in a registry value.
pub fn reg_u64(data: &[u8]) -> (r: Option<u64>)
    ensures
        r == registry_number(data@),
{
    if data.len() == 8 {
        Some(crate::bytes::read_u64(data, 0))
    } else if data.len() == 4 {
        Some(crate::bytes::read_u32(data, 0) as u64)
    } else {
        None
    }
}

/// The memory that a driver recorded: the long value where it can be read, else
/// the short one, and none if it is zero.
pub open spec fn recorded_memory(long: Option<Seq<u8>>, short: Option<Seq<u8>>) -> Option<u64> {
    let a = match long {
        Some(d) => registry_number(d),
        None => None,
    };
    let b = match short {
        Some(d) => registry_number(d),
        None => None,
    };
    match if a is Some {
        a
    } else {
        b
    } {
        Some(n) if n > 0 => Some(n),
        _ => None,
    }
}

/// The long record of the memory goes before the short one, and a memory of
/// nothing is none.
pub proof fn lemma_recorded_memory(long: Seq<u8>, short: Option<Seq<u8>>)
    ensures
        long.len() == 8 ==> (match recorded_memory(Some(long), short) {
            Some(n) => n > 0 && n == crate::bytes::le64(long, 0),
            None => crate::bytes::le64(long, 0) == 0,
        }),
        long.len() != 8 && long.len() != 4 ==> recorded_memory(Some(long), short)
            == recorded_memory(None, short),
        recorded_memory(Some(long), short) != Some(0u64),
        recorded_memory(None, None) is None,
{
}

/// A registry value as text: UTF-16 up to a zero, trimmed; none where nothing
/// is left or the value is of another kind.
pub open spec fn registry_text(is_text: bool, data: Seq<u8>) -> Option<Seq<char>> {
    let t = trimmed(decoded_wide(units(data, 0)));
    if is_text && t.len() > 0 {
        Some(t)
    } else {
        None
    }
}

/// Reads a registry value as text.
pub fn reg_string(is_text: bool, data: &[u8]) -> (r: Option<String>)
    ensures
        text_of(r) == registry_text(is_text, data@),
{
    if !is_text {
        return None;
    }
    let t = trim_str(decode_wide(read_units(data).as_slice()).as_str());
    if t.as_str().unicode_len() > 0 {
        Some(t)
    } else {
        None
    }
}

/// Makes an adapter of its registry values.
pub fn registry_adapter(
    name: String,
    matching: &str,
    long: Option<Vec<u8>>,
    short: Option<Vec<u8>>,
) -> (r: RegistryAdapter)
    ensures
        r.name == name,
        r.vendor_id == keyed_number(upper(matching@), "VEN_"@),
        r.device_id == keyed_number(upper(matching@), "DEV_"@),
        r.vram_bytes == recorded_memory(bytes_of(long), bytes_of(short)),
{
    let m = to_upper(matching);
    let a = match &long {
        Some(d) => reg_u64(d.as_slice()),
        None => None,
    };
    let b = match &short {
        Some(d) => reg_u64(d.as_slice()),
        None => None,
    };
    let vram_bytes = match if a.is_some() {
        a
    } else {
        b
    } {
        Some(n) => if n > 0 {
            Some(n)
        } else {
            None
        },
        None => None,
    };
    RegistryAdapter {
        name,
        vendor_id: pci_id(m.as_str(), "VEN_"),
        device_id: pci_id(m.as_str(), "DEV_"),
        vram_bytes,
    }
}

/// The registry's adapter is the card with these numbers or this name.
pub open spec fn registry_fits(
    r: RegistryAdapter,
    vendor_id: Option<u32>,
    device_id: Option<u32>,
    name: Seq<char>,
) -> bool {
    (vendor_id is Some && r.vendor_id == vendor_id && r.device_id == device_id) || ascii_lower(
        r.name@,
    ) == ascii_lower(name)
}

/// The first of the registry's adapters from `i` on that fits, or their number.
pub open spec fn registry_pick(
    registry: Seq<RegistryAdapter>,
    vendor_id: Option<u32>,
    device_id: Option<u32>,
    name: Seq<char>,
    i: int,
) -> int
    decreases registry.len() - i,
{
    if i < 0 || i >= registry.len() || registry_fits(registry[i], vendor_id, device_id, name) {
        i
    } else {
        registry_pick(registry, vendor_id, device_id, name, i + 1)
    }
}

/// The card that a video controller is, its path in upper case; none for
/// virtual ones, which are not on the PCI bus, and for those without a name.
/// The driver's record of the memory goes before the controller's, which is
/// too short for 4 GB.
pub open spec fn controller_gpu(
    name: Option<Seq<char>>,
    pnp: Seq<char>,
    ram: Option<u64>,
    registry: Seq<RegistryAdapter>,
) -> Option<GpuView> {
    let n = match name {
        Some(x) => trimmed(x),
        None => Seq::empty(),
    };
    if n.len() == 0 || !begins(pnp, "PCI\\"@) {
        None
    } else {
        let vendor_id = keyed_number(pnp, "VEN_"@);
        let device_id = keyed_number(pnp, "DEV_"@);
        let i = registry_pick(registry, vendor_id, device_id, n, 0);
        let recorded = if i < registry.len() {
            registry[i].vram_bytes
        } else {
            None
        };
        let plain = match ram {
            Some(b) if 0 < b < 0xFFFF_FFFF => Some(b),
            _ => None,
        };
        Some(
            GpuView {
                name: n,
                vram_bytes: if recorded is Some {
                    recorded
                } else {
                    plain
                },
                kind: GpuKind::Unknown,
                vendor_id,
                device_id,
                nvml_index: None,
                sysfs_device: None,
            },
        )
    }
}

proof fn lemma_registry_pick(
    registry: Seq<RegistryAdapter>,
    vendor_id: Option<u32>,
    device_id: Option<u32>,
    name: Seq<char>,
    i: int,
)
    requires
        0 <= i <= registry.len(),
    ensures
        ({
            let p = registry_pick(registry, vendor_id, device_id, name, i);
            &&& i <= p <= registry.len()
            &&& p < registry.len() ==> registry_fits(registry[p], vendor_id, device_id, name)
            &&& forall|j: int|
                i <= j < p ==> !registry_fits(#[trigger] registry[j], vendor_id, device_id, name)
        }),
    decreases registry.len() - i,
{
    if i < registry.len() && !registry_fits(registry[i], vendor_id, device_id, name) {
        lemma_registry_pick(registry, vendor_id, device_id, name, i + 1);
    }
}

/// A video controller is a card exactly where it has a name and is on the PCI
/// bus.  Its memory is the one recorded of the first adapter of its numbers or
/// its name, else the one it reports itself, which counts below 4 GB only.
pub proof fn lemma_controller(
    name: Seq<char>,
    pnp: Seq<char>,
    ram: Option<u64>,
    registry: Seq<RegistryAdapter>,
)
    ensures
        ({
            let g = controller_gpu(Some(name), pnp, ram, registry);
            let ven = keyed_number(pnp, "VEN_"@);
            let dev = keyed_number(pnp, "DEV_"@);
            let fits = |i: int|
                (ven is Some && registry[i].vendor_id == ven && registry[i].device_id == dev)
                    || ascii_lower(registry[i].name@) == ascii_lower(trimmed(name));
            &&& g is Some <==> trimmed(name).len() > 0 && begins(pnp, "PCI\\"@)
            &&& g is Some ==> {
                &&& g->0.name == trimmed(name) && g->0.vendor_id == ven && g->0.device_id == dev
                &&& forall|i: int|
                    0 <= i < registry.len() && #[trigger] fits(i) && (forall|j: int|
                        0 <= j < i ==> !#[trigger] fits(j)) && registry[i].vram_bytes is Some
                        ==> g->0.vram_bytes == registry[i].vram_bytes
                &&& (forall|i: int| 0 <= i < registry.len() ==> !#[trigger] fits(i)) ==> (
                g->0.vram_bytes is Some <==> ram is Some && 0 < ram->0 < 4_294_967_295)
                &&& (forall|i: int| 0 <= i < registry.len() ==> !#[trigger] fits(i))
                    && g->0.vram_bytes is Some ==> g->0.vram_bytes == ram
            }
        }),
        controller_gpu(None, pnp, ram, registry) is None,
{
    let ven = keyed_number(pnp, "VEN_"@);
    let dev = keyed_number(pnp, "DEV_"@);
    let n = trimmed(name);
    lemma_registry_pick(registry, ven, dev, n, 0);
    let p = registry_pick(registry, ven, dev, n, 0);
    let fits = |i: int|
        (ven is Some && registry[i].vendor_id == ven && registry[i].device_id == dev)
            || ascii_lower(registry[i].name@) == ascii_lower(trimmed(name));
    assert forall|j: int| 0 <= j < p implies !#[trigger] fits(j) by {
        assert(!registry_fits(registry[j], ven, dev, n));
    }
    if p < registry.len() {
        assert(fits(p));
    }
}

fn same_option(a: Option<u32>, b: Option<u32>) -> (r: bool)
    ensures
        r == (a == b),
{
    match (a, b) {
        (Some(x), Some(y)) => x == y,
        (None, None) => true,
        _ => false,
    }
}

/// Makes a card of a video controller whose path is in upper case.
pub fn controller_card(
    name: Option<String>,
    pnp: &str,
    ram: Option<u64>,
    registry: &Vec<RegistryAdapter>,
) -> (r: Option<GpuDevice>)
    ensures
        gpu_of(r) == controller_gpu(text_of(name), pnp@, ram, registry@),
{
    let name = match &name {
        Some(n) => trim_str(n.as_str()),
        None => String::new(),
    };
    if name.as_str().is_empty() || !starts_with(pnp, "PCI\\") {
        return None;
    }
    let vendor_id = pci_id(pnp, "VEN_");
    let device_id = pci_id(pnp, "DEV_");
    let lowered = to_ascii_lower(name.as_str());
    let mut recorded: Option<u64> = None;
    let mut i: usize = 0;
    let ghost mut at: int = 0;
    let mut looking = true;
    while looking && i < registry.len()
        invariant
            i <= registry.len(),
            lowered@ == ascii_lower(name@),
            looking ==> recorded is None && registry_pick(
                registry@,
                vendor_id,
                device_id,
                name@,
                0,
            ) == registry_pick(registry@, vendor_id, device_id, name@, i as int),
            !looking ==> 0 <= at < registry.len() && at == registry_pick(
                registry@,
                vendor_id,
                device_id,
                name@,
                0,
            ) && recorded == registry@[at].vram_bytes,
        decreases registry.len() - i,
    {
        let a: &RegistryAdapter = &registry[i];
        if (vendor_id.is_some() && same_option(a.vendor_id, vendor_id) && same_option(
            a.device_id,
            device_id,
        )) || same(to_ascii_lower(a.name.as_str()).as_str(), lowered.as_str()) {
            recorded = a.vram_bytes;
            looking = false;
            proof {
                at = i as int;
            }
        }
        i = i + 1;
    }
    let plain = match ram {
        Some(b) => if 0 < b && b < 0xFFFF_FFFF {
            Some(b)
        } else {
            None
        },
        None => None,
    };
    let vram_bytes = if recorded.is_some() {
        recorded
    } else {
        plain
    };
    Some(
        GpuDevice {
            name,
            vram_bytes,
            kind: GpuKind::Unknown,
            vendor_id,
            device_id,
            nvml_index: None,
            sysfs_device: None,
        },
    )
}

/// Makes a card of what the system reports of a video controller.
pub fn windows_gpu(
    name: Option<String>,
    pnp: Option<String>,
    ram: Option<u64>,
    registry: &Vec<RegistryAdapter>,
) -> (r: Option<GpuDevice>)
    ensures
        gpu_of(r) == controller_gpu(
            text_of(name),
            upper(
                match pnp {
                    Some(p) => p@,
                    None => Seq::empty(),
                },
            ),
            ram,
            registry@,
        ),
{
    let path = match pnp {
        Some(p) => p,
        None => String::new(),
    };
    assert(path@ =~= match pnp {
        Some(p) => p@,
        None => Seq::empty(),
    });
    controller_card(name, to_upper(path.as_str()).as_str(), ram, registry)
}

// ---------------------------------------------------------------------------
// macOS

/// So many units of `2^k` bytes, cut to whole bytes: nothing where it is below
/// zero or not a number, and at most what can be counted.
pub open spec fn unit_bytes(v: NumeralView, k: nat) -> u64 {
    match v {
        NumeralView::Number(x) => if x > 0 {
            capped((x * pow2(k)) / one(), u64::MAX as int) as u64
        } else {
            0
        },
        NumeralView::Above => u64::MAX,
        NumeralView::Below => 0,
        NumeralView::Undefined => 0,
    }
}

/// A word in which gigabytes are meant.
pub open spec fn giga(ws: Seq<Seq<char>>) -> bool {
    ws.len() > 1 && ws[1].len() > 0 && (ws[1][0] == 'G' || ws[1][0] == 'g')
}

/// A size such as "8 GB" or "1536 MB" in bytes.  MB is meant where no unit
/// stands.
pub open spec fn size_bytes(text: Seq<char>) -> Option<u64> {
    let ws = words(text);
    if ws.len() == 0 {
        None
    } else {
        match numeral(ws[0]) {
            None => None,
            Some(v) => Some(
                unit_bytes(
                    v,
                    if giga(ws) {
                        30
                    } else {
                        20
                    },
                ),
            ),
        }
    }
}

/// A memory of so many gigabytes is 1024 times as large as one of so many
/// megabytes, and a megabyte is 1024 times 1024 bytes.
pub proof fn lemma_memory_units(n: nat, text: Seq<char>)
    requires
        words(text).len() > 0,
        numeral(words(text)[0]) == Some(NumeralView::Number(n * one())),
        n * 1_073_741_824 < u64::MAX,
    ensures
        giga(words(text)) ==> size_bytes(text) is Some && size_bytes(text)->0 == n * 1_073_741_824,
        !giga(words(text)) ==> size_bytes(text) is Some && size_bytes(text)->0 == n * 1_048_576,
{
    crate::fixed::lemma_one();
    lemma2_to64();
    let o = one();
    assert(n * o >= 0 && (n > 0 ==> n * o > 0) && (n == 0 ==> n * o == 0)) by (nonlinear_arith)
        requires
            n >= 0,
            o > 0,
    ;
    let g = pow2(30) as int;
    let m = pow2(20) as int;
    assert(g == 1_073_741_824 && m == 1_048_576);
    assert((n * o * g) / o == n * g) by (nonlinear_arith)
        requires
            o > 0,
    ;
    assert((n * o * m) / o == n * m) by (nonlinear_arith)
        requires
            o > 0,
    ;
}

/// "8 GB" / "1536 MB" → bytes
pub fn parse_size(text: &str) -> (r: Option<u64>)
    ensures
        r == size_bytes(text@),
{
    let ws: Vec<Vec<char>> = words_of(chars_of(text).as_slice());
    let ghost views = char_views(ws@);
    if ws.len() == 0 {
        return None;
    }
    assert(views[0] == ws@[0]@);
    assert(views.len() > 1 ==> views[1] == ws@[1]@);
    let k: u32 = if ws.len() > 1 && ws[1].len() > 0 && (ws[1][0] == 'G' || ws[1][0] == 'g') {
        30
    } else {
        20
    };
    match parse_numeral(ws[0].as_slice()) {
        None => None,
        Some(Numeral::Finite(b)) => {
            proof {
                b.lemma_size();
            }
            if b.negative || b.mantissa == 0 {
                Some(0)
            } else {
                Some(b.shifted(k))
            }
        },
        Some(Numeral::Infinite(negative)) => if negative {
            Some(0)
        } else {
            Some(u64::MAX)
        },
        Some(Numeral::Undefined) => Some(0),
    }
}

/// The card that a display entry is: its model, and its own or shared memory.
/// The shared one counts only where the entry has no memory of its own.
pub open spec fn display_gpu(
    model: Option<NodeView>,
    own: Option<NodeView>,
    shared: Option<NodeView>,
) -> Option<GpuView> {
    match as_text(model) {
        None => None,
        Some(m) => Some(
            GpuView {
                name: trimmed(m),
                vram_bytes: match as_text(
                    if own is Some {
                        own
                    } else {
                        shared
                    },
                ) {
                    Some(t) => size_bytes(t),
                    None => None,
                },
                kind: if begins(trimmed(m), "Apple"@) {
                    GpuKind::Integrated
                } else {
                    GpuKind::Unknown
                },
                vendor_id: None,
                device_id: None,
                nvml_index: None,
                sysfs_device: None,
            },
        ),
    }
}

/// A display of a Mac is a card exactly where it has a model.  Its own memory
/// goes before a shared one, and Apple's are part of the processor.
pub proof fn lemma_display(
    model: Option<NodeView>,
    own: Option<NodeView>,
    shared: Option<NodeView>,
)
    ensures
        ({
            let g = display_gpu(model, own, shared);
            &&& g is Some <==> as_text(model) is Some
            &&& g is Some ==> {
                &&& g->0.name == trimmed(as_text(model)->0)
                &&& own is Some ==> g == display_gpu(model, own, None)
                &&& own is None ==> g == display_gpu(model, shared, None)
                &&& as_text(own) is Some ==> g->0.vram_bytes == size_bytes(as_text(own)->0)
                &&& own is None && shared is None ==> g->0.vram_bytes is None
                &&& g->0.kind == GpuKind::Integrated <==> begins(g->0.name, "Apple"@)
                &&& g->0.kind != GpuKind::Discrete
            }
        }),
{
}

/// Makes a card of a display entry.
pub fn display_card(model: Option<Node>, own: Option<Node>, shared: Option<Node>) -> (r: Option<
    GpuDevice,
>)
    ensures
        gpu_of(r) == display_gpu(node_of(model), node_of(own), node_of(shared)),
{
    let name = match text_in(model) {
        Some(m) => trim_str(m.as_str()),
        None => {
            return None;
        },
    };
    let memory = text_in(
        if own.is_some() {
            own
        } else {
            shared
        },
    );
    let vram_bytes = match &memory {
        Some(t) => parse_size(t.as_str()),
        None => None,
    };
    let kind = if starts_with(name.as_str(), "Apple") {
        GpuKind::Integrated
    } else {
        GpuKind::Unknown
    };
    Some(
        GpuDevice {
            name,
            vram_bytes,
            kind,
            vendor_id: None,
            device_id: None,
            nvml_index: None,
            sysfs_device: None,
        },
    )
}

/// The place of a field of the `i`th display.
pub open spec fn display_path(i: nat, field: Seq<char>) -> Seq<char> {
    "/SPDisplaysDataType/"@ + dec(i) + field
}

/// The card that the `i`th display of a report is.
pub open spec fn nth_display(report: Seq<char>, i: nat) -> Option<GpuView> {
    display_gpu(
        json_node(report, display_path(i, "/sppci_model"@)),
        json_node(report, display_path(i, "/spdisplays_vram"@)),
        json_node(report, display_path(i, "/spdisplays_vram_shared"@)),
    )
}

/// The cards that the first `n` displays of a report are.
pub open spec fn first_displays(report: Seq<char>, n: nat) -> Seq<GpuView>
    decreases n,
{
    if n == 0 {
        Seq::empty()
    } else {
        let front = first_displays(report, (n - 1) as nat);
        match nth_display(report, (n - 1) as nat) {
            Some(g) => front.push(g),
            None => front,
        }
    }
}

fn path_of(i: usize, field: &str) -> (r: String)
    ensures
        r@ == display_path(i as nat, field@),
{
    let mut r = String::new();
    r.append("/SPDisplaysDataType/");
    push_dec(&mut r, i as u64);
    r.append(field);
    assert(r@ =~= display_path(i as nat, field@));
    r
}

/// Makes the list of cards of a report of `system_profiler`.
pub fn mac_gpus(report: &str) -> (r: Vec<GpuDevice>)
    ensures
        gpu_views(r@) == (match as_list(json_node(report@, "/SPDisplaysDataType"@)) {
            Some(n) => first_displays(report@, n),
            None => Seq::empty(),
        }),
{
    let mut r: Vec<GpuDevice> = Vec::new();
    assert(gpu_views(r@) =~= first_displays(report@, 0));
    let n: usize = match list_in(json_at(report, "/SPDisplaysDataType")) {
        Some(n) => n,
        None => {
            return r;
        },
    };
    let mut i: usize = 0;
    while i < n
        invariant
            i <= n,
            gpu_views(r@) == first_displays(report@, i as nat),
        decreases n - i,
    {
        let model = json_at(report, path_of(i, "/sppci_model").as_str());
        let own = json_at(report, path_of(i, "/spdisplays_vram").as_str());
        let shared = json_at(report, path_of(i, "/spdisplays_vram_shared").as_str());
        let ghost before = gpu_views(r@);
        match display_card(model, own, shared) {
            Some(g) => {
                let ghost gv = g@;
                r.push(g);
                assert(gpu_views(r@) =~= before.push(gv));
            },
            None => {},
        }
        i = i + 1;
    }
    r
}

} // verus!
