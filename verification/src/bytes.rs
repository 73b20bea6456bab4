//! Little-endian numbers and zero-ended texts in raw memory.
use vstd::prelude::*;

use crate::text::string_of;

verus! {

/// The four bytes at `pos` as a little-endian number.
pub open spec fn le32(b: Seq<u8>, pos: int) -> u32 {
    (b[pos] + 0x100 * b[pos + 1] + 0x1_0000 * b[pos + 2] + 0x100_0000 * b[pos + 3]) as u32
}

/// The eight bytes at `pos` as a little-endian number.
pub open spec fn le64(b: Seq<u8>, pos: int) -> u64 {
    (le32(b, pos) + 0x1_0000_0000 * le32(b, pos + 4)) as u64
}

/// Reads four bytes as a little-endian number.
pub fn read_u32(b: &[u8], pos: usize) -> (r: u32)
    requires
        pos + 4 <= b.len(),
    ensures
        r == le32(b@, pos as int),
{
    b[pos] as u32 + 0x100 * (b[pos + 1] as u32) + 0x1_0000 * (b[pos + 2] as u32) + 0x100_0000 * (
    b[pos + 3] as u32)
}

/// Reads eight bytes as a little-endian number.
pub fn read_u64(b: &[u8], pos: usize) -> (r: u64)
    requires
        pos + 8 <= b.len(),
    ensures
        r == le64(b@, pos as int),
{
    read_u32(b, pos) as u64 + 0x1_0000_0000 * (read_u32(b, pos + 4) as u64)
}

/// All bytes are ASCII.
pub open spec fn ascii_bytes(b: Seq<u8>) -> bool {
    forall|i: int| 0 <= i < b.len() ==> #[trigger] b[i] < 0x80
}

/// What `String::from_utf8_lossy` makes of bytes.
pub uninterp spec fn utf8_lossy(b: Seq<u8>) -> Seq<char>;

/// `String::from_utf8_lossy`: UTF-8 with a replacement character for what is
/// not; the same bytes always give the same text.
#[verifier::external_body]
fn utf8_lossy_of(b: &[u8]) -> (r: String)
    ensures
        r@ == utf8_lossy(b@),
{
    String::from_utf8_lossy(b).into_owned()
}

/// The text that bytes stand for.
pub open spec fn decoded(b: Seq<u8>) -> Seq<char> {
    if ascii_bytes(b) {
        b.map_values(|x: u8| x as char)
    } else {
        utf8_lossy(b)
    }
}

/// Turns bytes into text.
pub fn decode(b: &[u8]) -> (r: String)
    ensures
        r@ == decoded(b@),
{
    let mut cs: Vec<char> = Vec::new();
    let mut i: usize = 0;
    while i < b.len()
        invariant
            i <= b.len(),
            forall|j: int| 0 <= j < i ==> #[trigger] b@[j] < 0x80,
            cs@ == b@.take(i as int).map_values(|x: u8| x as char),
        decreases b.len() - i,
    {
        if b[i] >= 0x80 {
            assert(b@[i as int] >= 0x80);
            return utf8_lossy_of(b);
        }
        cs.push(b[i] as char);
        i = i + 1;
        assert(cs@ =~= b@.take(i as int).map_values(|x: u8| x as char));
    }
    assert(b@.take(b@.len() as int) =~= b@);
    string_of(cs.as_slice())
}

/// All units are ASCII.
pub open spec fn ascii_units(u: Seq<u16>) -> bool {
    forall|i: int| 0 <= i < u.len() ==> #[trigger] u[i] < 0x80
}

/// What `String::from_utf16_lossy` makes of 16-bit units.
pub uninterp spec fn utf16_lossy(u: Seq<u16>) -> Seq<char>;

/// `String::from_utf16_lossy`: UTF-16 with a replacement character for what is
/// not; the same units always give the same text.
#[verifier::external_body]
fn utf16_lossy_of(u: &[u16]) -> (r: String)
    ensures
        r@ == utf16_lossy(u@),
{
    String::from_utf16_lossy(u)
}

/// The text that 16-bit units stand for.
pub open spec fn decoded_wide(u: Seq<u16>) -> Seq<char> {
    if ascii_units(u) {
        u.map_values(|x: u16| x as char)
    } else {
        utf16_lossy(u)
    }
}

/// Turns 16-bit units into text.
pub fn decode_wide(u: &[u16]) -> (r: String)
    ensures
        r@ == decoded_wide(u@),
{
    let mut cs: Vec<char> = Vec::new();
    let mut i: usize = 0;
    while i < u.len()
        invariant
            i <= u.len(),
            forall|j: int| 0 <= j < i ==> #[trigger] u@[j] < 0x80,
            cs@ == u@.take(i as int).map_values(|x: u16| x as char),
        decreases u.len() - i,
    {
        if u[i] >= 0x80 {
            assert(u@[i as int] >= 0x80);
            return utf16_lossy_of(u);
        }
        cs.push(u[i] as u8 as char);
        i = i + 1;
        assert(cs@ =~= u@.take(i as int).map_values(|x: u16| x as char));
    }
    assert(u@.take(u@.len() as int) =~= u@);
    string_of(cs.as_slice())
}

/// The pairs of bytes from the one at `i` on as little-endian units, up to a
/// zero; a byte left over is dropped.
pub open spec fn units(b: Seq<u8>, i: int) -> Seq<u16>
    decreases b.len() - i,
{
    if i < 0 || i + 2 > b.len() || (b[i] == 0 && b[i + 1] == 0) {
        Seq::empty()
    } else {
        seq![(b[i] + 0x100 * b[i + 1]) as u16] + units(b, i + 2)
    }
}

/// Reads little-endian units up to a zero.
pub fn read_units(b: &[u8]) -> (r: Vec<u16>)
    ensures
        r@ == units(b@, 0),
{
    let mut r: Vec<u16> = Vec::new();
    let mut i: usize = 0;
    while b.len() - i >= 2 && !(b[i] == 0 && b[i + 1] == 0)
        invariant
            i <= b.len(),
            units(b@, 0) == r@ + units(b@, i as int),
        decreases b.len() - i,
    {
        let ghost before = r@;
        let u: u16 = b[i] as u16 + 0x100 * (b[i + 1] as u16);
        r.push(u);
        i = i + 2;
        assert(before + (seq![u] + units(b@, i as int)) =~= r@ + units(b@, i as int));
    }
    assert(r@ + Seq::<u16>::empty() =~= r@);
    r
}

/// The position of the first zero byte from `i` on, or the length.
pub open spec fn next_zero(b: Seq<u8>, i: int) -> int
    decreases b.len() - i,
{
    if i < 0 || i >= b.len() || b[i] == 0 {
        i
    } else {
        next_zero(b, i + 1)
    }
}

/// The text in `b` up to the first zero byte.
pub open spec fn cstr(b: Seq<u8>) -> Seq<char> {
    decoded(b.take(next_zero(b, 0)))
}

/// Reads a text that a zero byte or the end of its field ends.
pub fn read_cstr(b: &[u8]) -> (r: String)
    ensures
        r@ == cstr(b@),
{
    let mut i: usize = 0;
    while i < b.len() && b[i] != 0
        invariant
            i <= b.len(),
            next_zero(b@, 0) == next_zero(b@, i as int),
        decreases b.len() - i,
    {
        i = i + 1;
    }
    let part = vstd::slice::slice_subrange(b, 0, i);
    assert(part@ =~= b@.take(i as int));
    decode(part)
}

/// The text in the field from `from` to `to`.
pub open spec fn field(b: Seq<u8>, from: int, to: int) -> Seq<char> {
    cstr(b.subrange(from, to))
}

/// Reads the text in a field.
pub fn read_field(b: &[u8], from: usize, to: usize) -> (r: String)
    requires
        from <= to <= b.len(),
    ensures
        r@ == field(b@, from as int, to as int),
{
    read_cstr(vstd::slice::slice_subrange(b, from, to))
}

/// The four bytes at the start are the given ones.
pub open spec fn signed(b: Seq<u8>, mark: Seq<u8>) -> bool {
    b.len() >= 4 && b.take(4) =~= mark
}

/// Whether memory begins with the given four bytes.
pub fn has_mark(b: &[u8], m0: u8, m1: u8, m2: u8, m3: u8) -> (r: bool)
    ensures
        r == signed(b@, seq![m0, m1, m2, m3]),
{
    if b.len() < 4 {
        return false;
    }
    let r = b[0] == m0 && b[1] == m1 && b[2] == m2 && b[3] == m3;
    let ghost t = b@.take(4);
    assert(t[0] == b@[0] && t[1] == b@[1] && t[2] == b@[2] && t[3] == b@[3]);
    r
}

/// The contents of optional bytes.
pub open spec fn bytes_of(b: Option<Vec<u8>>) -> Option<Seq<u8>> {
    match b {
        Some(x) => Some(x@),
        None => None,
    }
}

/// Numbers stand with their lowest byte first: whatever the other bytes are, one
/// more in a byte is 256 times as much as one more in the byte before it.
pub proof fn lemma_little_endian(b: Seq<u8>, pos: int)
    requires
        0 <= pos,
        pos + 8 <= b.len(),
    ensures
        le32(b, pos) == b[pos] + 256 * (b[pos + 1] + 256 * (b[pos + 2] + 256 * b[pos + 3])),
        le64(b, pos) == le32(b, pos) + 4_294_967_296 * le32(b, pos + 4),
{
}

proof fn lemma_next_zero(b: Seq<u8>, i: int)
    requires
        0 <= i <= b.len(),
    ensures
        i <= next_zero(b, i) <= b.len(),
        next_zero(b, i) < b.len() ==> b[next_zero(b, i)] == 0,
        forall|j: int| i <= j < next_zero(b, i) ==> b[j] != 0,
    decreases b.len() - i,
{
    if i < b.len() && b[i] != 0 {
        lemma_next_zero(b, i + 1);
    }
}

/// A text of ASCII in bytes is read up to the first zero, byte for byte; what
/// stands behind the zero does not matter.
pub proof fn lemma_text_ends_at_zero(t: Seq<u8>, rest: Seq<u8>)
    requires
        forall|i: int| 0 <= i < t.len() ==> 0 < #[trigger] t[i] < 0x80,
    ensures
        cstr(t + seq![0u8] + rest) == t.map_values(|x: u8| x as char),
        cstr(t) == t.map_values(|x: u8| x as char),
{
    let b = t + seq![0u8] + rest;
    let n = t.len() as int;
    lemma_next_zero(b, 0);
    lemma_next_zero(t, 0);
    assert(b[n] == 0);
    assert forall|i: int| 0 <= i < n implies b[i] != 0 by {
        assert(b[i] == t[i]);
    }
    assert(next_zero(b, 0) == n);
    assert(next_zero(t, 0) == n);
    assert(b.take(n) =~= t);
    assert(t.take(n) =~= t);
}

} // verus!
