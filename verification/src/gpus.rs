//! The graphics cards of a machine, and how the lists that different tools
//! give of them are brought together.
use vstd::prelude::*;

use crate::decimal::half_even;
use crate::text::{
    all_ascii, alphanumeric, ascii_lower_char, at, begins, char_views, chars_of, contains, dec, ends,
    ends_with, find, first_at, is_alphanumeric, join, joined, lemma_first_at,
    lemma_nothing_replaced, lemma_replaced_all, lower, occurs, push_dec, replace, replaced,
    starts_with, string_of, text_of, to_lower, trim, trimmed,
};

verus! {

pub const VENDOR_NVIDIA: u32 = 0x10DE;

pub const VENDOR_AMD: u32 = 0x1002;

pub const VENDOR_INTEL: u32 = 0x8086;

/// Whether a card is its own or part of the processor.
#[derive(Debug, Clone, Copy, PartialEq, Eq, Structural)]
pub enum GpuKind {
    Discrete,
    Integrated,
    Unknown,
}

/// A graphics card.
#[derive(Debug, Clone)]
pub struct GpuDevice {
    /// Display name, also submitted as the GPU model.
    pub name: String,
    pub vram_bytes: Option<u64>,
    pub kind: GpuKind,
    pub vendor_id: Option<u32>,
    pub device_id: Option<u32>,
    /// NVML / nvidia-smi index (NVIDIA only).
    pub nvml_index: Option<u32>,
    /// Linux: the PCI device directory, e.g. /sys/bus/pci/devices/0000:01:00.0
    pub sysfs_device: Option<String>,
}

/// A card's contents.
pub ghost struct GpuView {
    pub name: Seq<char>,
    pub vram_bytes: Option<u64>,
    pub kind: GpuKind,
    pub vendor_id: Option<u32>,
    pub device_id: Option<u32>,
    pub nvml_index: Option<u32>,
    pub sysfs_device: Option<Seq<char>>,
}

impl View for GpuDevice {
    type V = GpuView;

    open spec fn view(&self) -> GpuView {
        GpuView {
            name: self.name@,
            vram_bytes: self.vram_bytes,
            kind: self.kind,
            vendor_id: self.vendor_id,
            device_id: self.device_id,
            nvml_index: self.nvml_index,
            sysfs_device: text_of(self.sysfs_device),
        }
    }
}

/// The contents of an optional card.
pub open spec fn gpu_of(g: Option<GpuDevice>) -> Option<GpuView> {
    match g {
        Some(x) => Some(x@),
        None => None,
    }
}

/// The contents of a list of cards.
pub open spec fn gpu_views(v: Seq<GpuDevice>) -> Seq<GpuView> {
    v.map_values(|g: GpuDevice| g@)
}

// ---------------------------------------------------------------------------
// Names

/// The position of the first character from `i` on that is no letter or
/// number, or the length.
pub open spec fn next_gap(s: Seq<char>, i: int) -> int
    decreases s.len() - i,
{
    if i < 0 || i >= s.len() || !alphanumeric(s[i]) {
        i
    } else {
        next_gap(s, i + 1)
    }
}

proof fn lemma_next_gap(s: Seq<char>, i: int)
    requires
        0 <= i <= s.len(),
    ensures
        i <= next_gap(s, i) <= s.len(),
        i < s.len() && alphanumeric(s[i]) ==> i < next_gap(s, i),
    decreases s.len() - i,
{
    if i < s.len() && alphanumeric(s[i]) {
        lemma_next_gap(s, i + 1);
    }
}

/// The runs of letters and numbers from `i` on.
pub open spec fn name_words_from(s: Seq<char>, i: int) -> Seq<Seq<char>>
    decreases s.len() - i,
{
    if i < 0 || i >= s.len() {
        Seq::empty()
    } else if !alphanumeric(s[i]) {
        name_words_from(s, i + 1)
    } else {
        let k = next_gap(s, i);
        if i < k <= s.len() {
            seq![s.subrange(i, k)] + name_words_from(s, k)
        } else {
            Seq::empty()
        }
    }
}

/// A name in lower case with blanks for trade marks.
pub open spec fn without_marks(s: Seq<char>) -> Seq<char> {
    let a = replaced(s, "(r)"@, " "@);
    let b = replaced(a, "(tm)"@, " "@);
    let c = replaced(b, "®"@, " "@);
    replaced(c, "™"@, " "@)
}

/// A name in lower case without trade marks and punctuation.
pub open spec fn normalized_lower(s: Seq<char>) -> Seq<char> {
    joined(name_words_from(without_marks(s), 0), " "@)
}

/// A name without case, trade marks and punctuation.
pub open spec fn normalized(s: Seq<char>) -> Seq<char> {
    normalized_lower(lower(s))
}

fn name_words(s: &[char]) -> (r: Vec<Vec<char>>)
    ensures
        char_views(r@) == name_words_from(s@, 0),
{
    let mut r: Vec<Vec<char>> = Vec::new();
    let mut i: usize = 0;
    assert(char_views(r@) =~= Seq::empty());
    assert(Seq::<Seq<char>>::empty() + name_words_from(s@, 0) =~= name_words_from(s@, 0));
    while i < s.len()
        invariant
            i <= s.len(),
            char_views(r@) + name_words_from(s@, i as int) == name_words_from(s@, 0),
        decreases s.len() - i,
    {
        if !is_alphanumeric(s[i]) {
            i = i + 1;
        } else {
            let start: usize = i;
            let mut k: usize = i;
            while k < s.len() && is_alphanumeric(s[k])
                invariant
                    start <= k <= s.len(),
                    next_gap(s@, start as int) == next_gap(s@, k as int),
                decreases s.len() - k,
            {
                k = k + 1;
            }
            proof {
                lemma_next_gap(s@, start as int);
            }
            let part: Vec<char> = vstd::slice::slice_to_vec(vstd::slice::slice_subrange(s, i, k));
            let ghost before = char_views(r@);
            r.push(part);
            assert(char_views(r@) =~= before.push(part@));
            assert(before + (seq![part@] + name_words_from(s@, k as int)) =~= char_views(r@)
                + name_words_from(s@, k as int));
            i = k;
        }
    }
    assert(char_views(r@) + Seq::<Seq<char>>::empty() =~= char_views(r@));
    r
}

/// Strips trade marks and punctuation from a name in lower case.
pub fn normalize_lower(name: &str) -> (r: String)
    ensures
        r@ == normalized_lower(name@),
{
    proof {
        reveal_strlit("(r)");
        reveal_strlit("(tm)");
        reveal_strlit("®");
        reveal_strlit("™");
    }
    let a = replace(name, "(r)", " ");
    let b = replace(a.as_str(), "(tm)", " ");
    let c = replace(b.as_str(), "®", " ");
    let d = replace(c.as_str(), "™", " ");
    join(&name_words(chars_of(d.as_str()).as_slice()), " ")
}

/// Lowercase, strip ®/™ markers and punctuation so names from different
/// tools compare equal ("AMD Radeon(TM) Graphics" == "AMD Radeon Graphics").
pub fn normalize(name: &str) -> (r: String)
    ensures
        r@ == normalized(name@),
{
    normalize_lower(to_lower(name).as_str())
}

/// Words of letters and numbers, none of them empty.
pub open spec fn good_words(ws: Seq<Seq<char>>) -> bool {
    forall|k: int| 0 <= k < ws.len() ==> good_word(#[trigger] ws[k])
}

/// A word of letters and numbers.
pub open spec fn good_word(w: Seq<char>) -> bool {
    w.len() > 0 && forall|j: int| 0 <= j < w.len() ==> alphanumeric(#[trigger] w[j])
}

/// Words with single blanks between them: letters, numbers and blanks, with no
/// blank at either end and no two beside each other.
pub open spec fn single_spaced(s: Seq<char>) -> bool {
    &&& forall|j: int| 0 <= j < s.len() ==> alphanumeric(#[trigger] s[j]) || s[j] == ' '
    &&& s.len() > 0 ==> s[0] != ' ' && s.last() != ' '
    &&& forall|j: int| 0 < j < s.len() ==> !(#[trigger] s[j] == ' ' && s[j - 1] == ' ')
}

/// Every character of every word is one for which something holds.
pub open spec fn words_all(ws: Seq<Seq<char>>, p: spec_fn(char) -> bool) -> bool {
    forall|k: int, j: int|
        0 <= k < ws.len() && 0 <= j < ws[k].len() ==> p(#[trigger] ws[k][j])
}

proof fn lemma_gap_run(s: Seq<char>, i: int, end: int)
    requires
        0 <= i <= end <= s.len(),
        forall|j: int| i <= j < end ==> alphanumeric(#[trigger] s[j]),
        end < s.len() ==> !alphanumeric(s[end]),
    ensures
        next_gap(s, i) == end,
    decreases end - i,
{
    if i < end {
        lemma_gap_run(s, i + 1, end);
    }
}

proof fn lemma_gap_ends(s: Seq<char>, i: int)
    requires
        0 <= i <= s.len(),
    ensures
        i <= next_gap(s, i) <= s.len(),
        forall|j: int| i <= j < next_gap(s, i) ==> alphanumeric(#[trigger] s[j]),
        next_gap(s, i) < s.len() ==> !alphanumeric(s[next_gap(s, i)]),
    decreases s.len() - i,
{
    if i < s.len() && alphanumeric(s[i]) {
        lemma_gap_ends(s, i + 1);
    }
}

/// The runs of letters and numbers of a text are words, of its characters.
proof fn lemma_name_words(s: Seq<char>, p: spec_fn(char) -> bool, i: int)
    requires
        0 <= i,
        forall|j: int| 0 <= j < s.len() ==> p(#[trigger] s[j]),
    ensures
        good_words(name_words_from(s, i)),
        words_all(name_words_from(s, i), p),
    decreases s.len() - i,
{
    let ws = name_words_from(s, i);
    if i < s.len() {
        if !alphanumeric(s[i]) {
            lemma_name_words(s, p, i + 1);
        } else {
            lemma_gap_ends(s, i);
            lemma_next_gap(s, i);
            let k = next_gap(s, i);
            lemma_name_words(s, p, k);
            let w = s.subrange(i, k);
            let rest = name_words_from(s, k);
            assert(good_word(w)) by {
                assert forall|j: int| 0 <= j < w.len() implies alphanumeric(#[trigger] w[j]) by {
                    assert(w[j] == s[i + j]);
                }
            }
            assert forall|n: int| 0 <= n < ws.len() implies good_word(#[trigger] ws[n]) by {
                if n > 0 {
                    assert(ws[n] == rest[n - 1]);
                }
            }
            assert forall|n: int, j: int| 0 <= n < ws.len() && 0 <= j < ws[n].len() implies p(
                #[trigger] ws[n][j],
            ) by {
                if n > 0 {
                    assert(ws[n] == rest[n - 1]);
                    assert(p(rest[n - 1][j]));
                } else {
                    assert(ws[n][j] == s[i + j]);
                }
            }
        }
    }
}

proof fn lemma_blank()
    ensures
        " "@ == seq![' '],
        !alphanumeric(' '),
{
    reveal_strlit(" ");
    assert(" "@ =~= seq![' ']);
}

/// Words that are joined by blanks are single spaced, of their characters.
proof fn lemma_joined_words(ws: Seq<Seq<char>>, p: spec_fn(char) -> bool)
    requires
        good_words(ws),
        words_all(ws, p),
        p(' '),
    ensures
        single_spaced(joined(ws, " "@)),
        ws.len() > 0 ==> joined(ws, " "@).len() > 0,
        forall|j: int| 0 <= j < joined(ws, " "@).len() ==> p(#[trigger] joined(ws, " "@)[j]),
    decreases ws.len(),
{
    lemma_blank();
    let n = joined(ws, " "@);
    if ws.len() == 1 {
        let w = ws[0];
        assert(good_word(w));
        assert forall|j: int| 0 <= j < n.len() implies alphanumeric(#[trigger] n[j]) && p(n[j]) by {
            assert(p(ws[0][j]));
        }
        assert(alphanumeric(n[0]) && alphanumeric(n[n.len() - 1]));
        assert forall|j: int| 0 < j < n.len() implies !(#[trigger] n[j] == ' ' && n[j - 1] == ' ') by {
            assert(alphanumeric(n[j]));
        }
    } else if ws.len() > 1 {
        let front = ws.drop_last();
        let w = ws.last();
        assert(good_words(front)) by {
            assert forall|k: int| 0 <= k < front.len() implies good_word(#[trigger] front[k]) by {
                assert(front[k] == ws[k]);
            }
        }
        assert(words_all(front, p)) by {
            assert forall|k: int, j: int|
                0 <= k < front.len() && 0 <= j < front[k].len() implies p(
                #[trigger] front[k][j],
            ) by {
                assert(p(ws[k][j]));
            }
        }
        lemma_joined_words(front, p);
        let a = joined(front, " "@);
        assert(good_word(ws[ws.len() - 1]));
        assert(n == a + seq![' '] + w);
        let m = a.len() as int;
        assert forall|j: int| 0 <= j < n.len() implies (alphanumeric(#[trigger] n[j]) || n[j] == ' ')
            && p(n[j]) by {
            if j < m {
                assert(n[j] == a[j]);
            } else if j > m {
                assert(n[j] == w[j - m - 1]);
                assert(p(ws[ws.len() - 1][j - m - 1]));
            }
        }
        assert(n[0] == a[0]);
        assert(n.last() == w[w.len() - 1]);
        assert(alphanumeric(w[w.len() - 1]));
        assert forall|j: int| 0 < j < n.len() implies !(#[trigger] n[j] == ' ' && n[j - 1] == ' ') by {
            if j < m {
                assert(n[j] == a[j] && n[j - 1] == a[j - 1]);
            } else if j == m {
                assert(n[j - 1] == a.last());
            } else {
                assert(n[j] == w[j - m - 1]);
                assert(alphanumeric(w[j - m - 1]));
            }
        }
    }
}

/// A word behind a blank is the last of the words.
proof fn lemma_last_word(a: Seq<char>, w: Seq<char>, i: int)
    requires
        good_word(w),
        0 <= i <= a.len(),
    ensures
        name_words_from(a + seq![' '] + w, i) == name_words_from(a, i).push(w),
    decreases a.len() - i,
{
    lemma_blank();
    let s = a + seq![' '] + w;
    let m = a.len() as int;
    if i == m {
        assert(s.skip(m + 1) =~= w);
        lemma_only_word(s, w, m + 1);
        assert(name_words_from(a, i) =~= Seq::empty());
        assert(Seq::<Seq<char>>::empty().push(w) =~= seq![w]);
    } else if !alphanumeric(a[i]) {
        assert(s[i] == a[i]);
        lemma_last_word(a, w, i + 1);
    } else {
        assert(s[i] == a[i]);
        lemma_gap_ends(a, i);
        lemma_next_gap(a, i);
        let k = next_gap(a, i);
        assert forall|j: int| i <= j < k implies alphanumeric(#[trigger] s[j]) by {
            assert(s[j] == a[j]);
        }
        assert(!alphanumeric(s[k]));
        lemma_gap_run(s, i, k);
        assert(s.subrange(i, k) =~= a.subrange(i, k));
        lemma_last_word(a, w, k);
        assert(seq![a.subrange(i, k)] + name_words_from(a, k).push(w) =~= (seq![a.subrange(i, k)]
            + name_words_from(a, k)).push(w));
    }
}

/// A word that a text ends in.
proof fn lemma_only_word(s: Seq<char>, w: Seq<char>, i: int)
    requires
        good_word(w),
        0 <= i,
        i + w.len() == s.len(),
        s.skip(i) == w,
    ensures
        name_words_from(s, i) == seq![w],
{
    let end = s.len() as int;
    assert forall|j: int| i <= j < end implies alphanumeric(#[trigger] s[j]) by {
        assert(s[j] == s.skip(i)[j - i]);
        assert(alphanumeric(w[j - i]));
    }
    lemma_gap_run(s, i, end);
    assert(s.subrange(i, end) =~= w);
    assert(name_words_from(s, end) =~= Seq::empty());
    assert(seq![w] + Seq::<Seq<char>>::empty() =~= seq![w]);
}

/// Words that are joined by blanks are found again.
proof fn lemma_words_found(ws: Seq<Seq<char>>)
    requires
        good_words(ws),
    ensures
        name_words_from(joined(ws, " "@), 0) == ws,
    decreases ws.len(),
{
    lemma_blank();
    if ws.len() == 0 {
        assert(ws =~= Seq::empty());
    } else if ws.len() == 1 {
        assert(good_word(ws[0]));
        assert(ws[0].skip(0) =~= ws[0]);
        lemma_only_word(ws[0], ws[0], 0);
        assert(ws =~= seq![ws[0]]);
    } else {
        let front = ws.drop_last();
        assert(good_words(front)) by {
            assert forall|k: int| 0 <= k < front.len() implies good_word(#[trigger] front[k]) by {
                assert(front[k] == ws[k]);
            }
        }
        lemma_words_found(front);
        assert(good_word(ws[ws.len() - 1]));
        lemma_last_word(joined(front, " "@), ws.last(), 0);
        assert(front.push(ws.last()) =~= ws);
    }
}

/// A name without trade marks: the marks are gone.
proof fn lemma_without_marks(s: Seq<char>, p: spec_fn(char) -> bool)
    requires
        forall|j: int| 0 <= j < s.len() ==> p(#[trigger] s[j]),
        p(' '),
    ensures
        ({
            let d = without_marks(s);
            forall|j: int|
                0 <= j < d.len() ==> p(#[trigger] d[j]) && d[j] != '®' && d[j] != '™'
        }),
{
    lemma_blank();
    reveal_strlit("®");
    reveal_strlit("™");
    assert("®"@ =~= seq!['®']);
    assert("™"@ =~= seq!['™']);
    let blank = " "@;
    let a = replaced(s, "(r)"@, blank);
    let b = replaced(a, "(tm)"@, blank);
    let c = replaced(b, "®"@, blank);
    let d = replaced(c, "™"@, blank);
    lemma_replaced_all(s, "(r)"@, blank, p, 0);
    lemma_replaced_all(a, "(tm)"@, blank, p, 0);
    lemma_replaced_all(b, "®"@, blank, p, 0);
    let nr = |x: char| x != '®';
    lemma_replaced_all(b, "®"@, blank, nr, 0);
    lemma_replaced_all(c, "™"@, blank, p, 0);
    lemma_replaced_all(c, "™"@, blank, nr, 0);
    let nt = |x: char| x != '™';
    lemma_replaced_all(c, "™"@, blank, nt, 0);
    assert forall|j: int| 0 <= j < d.len() implies p(#[trigger] d[j]) && d[j] != '®' && d[j]
        != '™' by {
        assert(nr(d[j]) && nt(d[j]) && p(d[j]));
    }
}

/// A single spaced name without marks is normalized already.
proof fn lemma_normalized_already(ws: Seq<Seq<char>>)
    requires
        good_words(ws),
        words_all(ws, |c: char| c != '®' && c != '™'),
    ensures
        normalized_lower(joined(ws, " "@)) == joined(ws, " "@),
{
    let p = |c: char| c != '®' && c != '™';
    let n = joined(ws, " "@);
    lemma_joined_words(ws, p);
    reveal_strlit("(r)");
    reveal_strlit("(tm)");
    reveal_strlit("®");
    reveal_strlit("™");
    assert("(r)"@[0] == '(' && "(tm)"@[0] == '(' && "®"@[0] == '®' && "™"@[0] == '™');
    assert forall|j: int| 0 <= j < n.len() implies #[trigger] n[j] != '(' && n[j] != '®' && n[j]
        != '™' by {
        assert(p(n[j]));
        assert(alphanumeric(n[j]) || n[j] == ' ');
    }
    assert(n.skip(0) =~= n);
    lemma_nothing_replaced(n, "(r)"@, " "@, 0);
    lemma_nothing_replaced(n, "(tm)"@, " "@, 0);
    lemma_nothing_replaced(n, "®"@, " "@, 0);
    lemma_nothing_replaced(n, "™"@, " "@, 0);
    lemma_words_found(ws);
}

/// A normalized name is words of letters and numbers with single blanks
/// between them, and to strip it of marks and punctuation again changes
/// nothing.
pub proof fn lemma_normalized_lower(s: Seq<char>)
    ensures
        single_spaced(normalized_lower(s)),
        normalized_lower(normalized_lower(s)) == normalized_lower(s),
{
    let d = without_marks(s);
    let any = |c: char| true;
    lemma_without_marks(s, any);
    let p = |c: char| c != '®' && c != '™';
    assert forall|j: int| 0 <= j < d.len() implies p(#[trigger] d[j]) by {}
    lemma_name_words(d, p, 0);
    lemma_joined_words(name_words_from(d, 0), p);
    lemma_normalized_already(name_words_from(d, 0));
}

/// A character of ASCII that is no capital letter.
pub open spec fn small(c: char) -> bool {
    c <= '\u{7f}' && !('A' <= c <= 'Z')
}

proof fn lemma_lower_small(s: Seq<char>)
    requires
        forall|j: int| 0 <= j < s.len() ==> small(#[trigger] s[j]),
    ensures
        lower(s) == s,
{
    assert(lower(s) =~= s);
}

proof fn lemma_ascii_stays_small(s: Seq<char>)
    requires
        all_ascii(s),
    ensures
        lower(normalized(s)) == normalized(s),
{
    let low = lower(s);
    let p = |c: char| small(c);
    assert forall|j: int| 0 <= j < low.len() implies p(#[trigger] low[j]) by {
        assert(s[j] <= '\u{7f}');
        assert(low[j] == ascii_lower_char(s[j]));
    }
    lemma_without_marks(low, p);
    let d = without_marks(low);
    lemma_name_words(d, p, 0);
    lemma_joined_words(name_words_from(d, 0), p);
    let n = normalized(s);
    assert forall|j: int| 0 <= j < n.len() implies small(#[trigger] n[j]) by {
        assert(p(n[j]));
    }
    lemma_lower_small(n);
}

/// Normalizing a name twice is normalizing it once: always of ASCII, and of
/// other scripts where a lower case text stays as it is in lower case.
pub proof fn lemma_normalized_twice(s: Seq<char>)
    ensures
        single_spaced(normalized(s)),
        all_ascii(s) ==> lower(normalized(s)) == normalized(s),
        lower(normalized(s)) == normalized(s) ==> normalized(normalized(s)) == normalized(s),
{
    lemma_normalized_lower(lower(s));
    if all_ascii(s) {
        lemma_ascii_stays_small(s);
    }
}

/// Two normalized names may be the same card's: one holds the other.
pub open spec fn related(mine: Seq<char>, theirs: Seq<char>) -> bool {
    mine.len() > 0 && theirs.len() > 0 && (occurs(theirs, mine) || occurs(mine, theirs))
}

/// Two names may be the same card's.
pub open spec fn names_match(a: Seq<char>, b: Seq<char>) -> bool {
    related(normalized(a), normalized(b))
}

/// Names of the same card are so both ways round.
pub proof fn lemma_names_match_symmetric(a: Seq<char>, b: Seq<char>)
    ensures
        names_match(a, b) == names_match(b, a),
{
}

/// Every name matches itself, unless nothing of it is left when normalized.
pub proof fn lemma_names_match_reflexive(a: Seq<char>)
    ensures
        names_match(a, a) <==> normalized(a).len() > 0,
{
    let n = normalized(a);
    assert(n.subrange(0, n.len() as int) =~= n);
    assert(at(n, n, 0));
}

/// To match a name is to match its normalized form: always of ASCII, and of
/// other scripts where a lower case text stays as it is in lower case.  A name
/// of which nothing is left when normalized matches none.
pub proof fn lemma_names_match_normalized(a: Seq<char>, b: Seq<char>)
    ensures
        all_ascii(b) || lower(normalized(b)) == normalized(b) ==> names_match(a, normalized(b))
            == names_match(a, b),
        all_ascii(a) || lower(normalized(a)) == normalized(a) ==> names_match(normalized(a), b)
            == names_match(a, b),
        normalized(a).len() == 0 || normalized(b).len() == 0 ==> !names_match(a, b),
{
    lemma_normalized_twice(a);
    lemma_normalized_twice(b);
}

/// Whether two normalized names may be the same card's.
pub fn are_related(mine: &str, theirs: &str) -> (r: bool)
    ensures
        r == related(mine@, theirs@),
{
    !mine.is_empty() && !theirs.is_empty() && (contains(theirs, mine) || contains(mine, theirs))
}

/// The vendor, or the name in lower case, says that a card is NVIDIA's.
pub open spec fn nvidia_by(vendor_id: Option<u32>, lower_name: Seq<char>) -> bool {
    vendor_id == Some(VENDOR_NVIDIA) || occurs(lower_name, "nvidia"@)
}

impl GpuView {
    /// The card is NVIDIA's.
    pub open spec fn nvidia(self) -> bool {
        nvidia_by(self.vendor_id, lower(self.name))
    }
}

fn same_id(a: Option<u32>, b: u32) -> (r: bool)
    ensures
        r == (a == Some(b)),
{
    match a {
        Some(x) => x == b,
        None => false,
    }
}

impl GpuDevice {
    /// Whether the card is NVIDIA's.
    pub fn is_nvidia(&self) -> (r: bool)
        ensures
            r == self@.nvidia(),
    {
        same_id(self.vendor_id, VENDOR_NVIDIA) || contains(
            to_lower(self.name.as_str()).as_str(),
            "nvidia",
        )
    }

    /// VRAM formatted the way it is submitted ("16 GB", "512 MB").
    pub fn vram(&self) -> (r: Option<String>)
        ensures
            text_of(r) == (match self.vram_bytes {
                Some(b) => Some(vram_text(b as int)),
                None => None,
            }),
    {
        match self.vram_bytes {
            Some(b) => Some(format_vram(b)),
            None => None,
        }
    }

    /// Whether a sensor/device name reported by another tool refers to this GPU.
    pub fn matches_name(&self, other: &str) -> (r: bool)
        ensures
            r == names_match(self.name@, other@),
    {
        are_related(normalize(self.name.as_str()).as_str(), normalize(other).as_str())
    }

    /// A card with the same contents.
    pub fn duplicate(&self) -> (r: GpuDevice)
        ensures
            r@ == self@,
    {
        let sysfs_device = match &self.sysfs_device {
            Some(s) => Some(s.clone()),
            None => None,
        };
        GpuDevice {
            name: self.name.clone(),
            vram_bytes: self.vram_bytes,
            kind: self.kind,
            vendor_id: self.vendor_id,
            device_id: self.device_id,
            nvml_index: self.nvml_index,
            sysfs_device,
        }
    }
}

/// Readings of a GPU count: those of any, or of the one that is meant.
pub open spec fn wanted(only: Option<&GpuDevice>, name: Seq<char>) -> bool {
    match only {
        Some(g) => names_match(g.name@, name),
        None => true,
    }
}

/// Whether readings of a GPU of this name count.
pub fn is_wanted(only: Option<&GpuDevice>, name: &str) -> (r: bool)
    ensures
        r == wanted(only, name@),
{
    match only {
        Some(g) => g.matches_name(name),
        None => true,
    }
}

// ---------------------------------------------------------------------------
// Memory sizes

/// The distance between the double precision numbers around `n`, at least 1.
pub open spec fn double_step(n: nat) -> nat
    decreases n,
{
    if n < 0x20_0000_0000_0000 {
        1
    } else {
        2 * double_step(n / 2)
    }
}

/// `n` as a double precision number: the nearest, halves to even.
pub open spec fn as_double(n: nat) -> int {
    half_even(n as int, double_step(n) as int) * double_step(n)
}

/// A size in bytes as text: whole GB, or MB where it is under one GB.
pub open spec fn vram_text(bytes: int) -> Seq<char> {
    if bytes >= 0x4000_0000 {
        dec(half_even(as_double(bytes as nat), 0x4000_0000) as nat) + " GB"@
    } else {
        dec(half_even(bytes, 0x10_0000) as nat) + " MB"@
    }
}

/// Memory from a gigabyte on is shown in the nearest number of gigabytes, and
/// less than that in the nearest number of megabytes.
pub proof fn lemma_vram_is_nearest(bytes: int)
    requires
        0 <= bytes < 0x20_0000_0000_0000,
    ensures
        bytes >= 1024 * 1024 * 1024 ==> exists|n: nat| #[trigger]
            dec(n) + " GB"@ == vram_text(bytes) && -(1024 * 1024 * 1024) <= 2 * (n * (1024 * 1024
                * 1024) - bytes) <= 1024 * 1024 * 1024,
        bytes < 1024 * 1024 * 1024 ==> exists|n: nat| #[trigger]
            dec(n) + " MB"@ == vram_text(bytes) && -(1024 * 1024) <= 2 * (n * (1024 * 1024) - bytes)
                <= 1024 * 1024,
{
    if bytes >= 0x4000_0000 {
        assert(as_double(bytes as nat) == bytes) by {
            assert(double_step(bytes as nat) == 1);
            assert(bytes / 1 == bytes && bytes % 1 == 0);
        }
        let n = half_even(bytes, 0x4000_0000) as nat;
        assert(dec(n) + " GB"@ == vram_text(bytes));
    } else {
        let n = half_even(bytes, 0x10_0000) as nat;
        assert(dec(n) + " MB"@ == vram_text(bytes));
    }
}

fn half_even_u128(n: u128, d: u128) -> (r: u128)
    requires
        0 < d <= 0x1_0000_0000,
        n <= 0x2_0000_0000_0000_0000,
    ensures
        r == half_even(n as int, d as int),
        r <= n + 1,
        r * d <= n + d,
{
    let q: u128 = n / d;
    let rest: u128 = n % d;
    assert(rest < d && q <= n && q * d + rest == n) by (nonlinear_arith)
        requires
            rest == n % d,
            q == n / d,
            d > 0,
    ;
    assert((q + 1) * d == q * d + d) by (nonlinear_arith);
    if 2 * rest > d || (2 * rest == d && q % 2 == 1) {
        q + 1
    } else {
        q
    }
}

fn step_of(n: u64) -> (r: u64)
    ensures
        r == double_step(n as nat),
        1 <= r <= n + 1,
        n < 0x20_0000_0000_0000 ==> r == 1,
        n < 0x40_0000_0000_0000 ==> r <= 2,
        n < 0x80_0000_0000_0000 ==> r <= 4,
        n < 0x100_0000_0000_0000 ==> r <= 8,
        n < 0x200_0000_0000_0000 ==> r <= 16,
        n < 0x400_0000_0000_0000 ==> r <= 32,
        n < 0x800_0000_0000_0000 ==> r <= 64,
        n < 0x1000_0000_0000_0000 ==> r <= 128,
        n < 0x2000_0000_0000_0000 ==> r <= 256,
        n < 0x4000_0000_0000_0000 ==> r <= 512,
        n < 0x8000_0000_0000_0000 ==> r <= 1024,
        r <= 2048,
    decreases n,
{
    if n < 0x20_0000_0000_0000 {
        1
    } else {
        2 * step_of(n / 2)
    }
}

/// Formats a size in bytes ("16 GB", "512 MB").
pub fn format_vram(bytes: u64) -> (r: String)
    ensures
        r@ == vram_text(bytes as int),
{
    let mut r = String::new();
    if bytes >= 0x4000_0000 {
        let step: u64 = step_of(bytes);
        let q: u128 = half_even_u128(bytes as u128, step as u128);
        assert(q * step <= 0x1_0000_0000_0000_0800);
        assert(q * step >= 0) by (nonlinear_arith)
            requires
                q >= 0,
                step >= 0,
        ;
        let gb: u128 = half_even_u128(q * step as u128, 0x4000_0000);
        assert(gb <= 0x4_0000_0001) by (nonlinear_arith)
            requires
                gb * 0x4000_0000 <= q * step + 0x4000_0000,
                q * step <= 0x1_0000_0000_0000_0800,
        ;
        push_dec(&mut r, gb as u64);
        r.append(" GB");
    } else {
        let mb: u128 = half_even_u128(bytes as u128, 0x10_0000);
        push_dec(&mut r, mb as u64);
        r.append(" MB");
    }
    assert(r@ =~= vram_text(bytes as int));
    r
}

// ---------------------------------------------------------------------------
// Which card to take

/// The memory of a card, nothing where it is not known.
pub open spec fn memory(g: GpuView) -> int {
    match g.vram_bytes {
        Some(b) => b as int,
        None => 0,
    }
}

/// `a` is at least as good a choice as `b`: a discrete card before others,
/// then the one with more memory.
pub open spec fn as_good(a: GpuView, b: GpuView) -> bool {
    if (a.kind == GpuKind::Discrete) == (b.kind == GpuKind::Discrete) {
        memory(a) >= memory(b)
    } else {
        a.kind == GpuKind::Discrete
    }
}

fn memory_of(g: &GpuDevice) -> (r: u64)
    ensures
        r == memory(g@),
{
    match g.vram_bytes {
        Some(b) => b,
        None => 0,
    }
}

fn is_as_good(a: &GpuDevice, b: &GpuDevice) -> (r: bool)
    ensures
        r == as_good(a@, b@),
{
    let da = a.kind == GpuKind::Discrete;
    let db = b.kind == GpuKind::Discrete;
    if da == db {
        memory_of(a) >= memory_of(b)
    } else {
        da
    }
}

/// The place of the best choice, the last of equally good ones; the first
/// place where there is none.
pub open spec fn best_place(s: Seq<GpuView>) -> int
    decreases s.len(),
{
    if s.len() <= 1 {
        0
    } else {
        let b = best_place(s.drop_last());
        if as_good(s.last(), s[b]) {
            s.len() - 1
        } else {
            b
        }
    }
}

/// The best choice is as good as every other and better than those behind it.
pub proof fn lemma_best_place(s: Seq<GpuView>)
    requires
        s.len() > 0,
    ensures
        0 <= best_place(s) < s.len(),
        forall|i: int| 0 <= i < s.len() ==> as_good(s[best_place(s)], #[trigger] s[i]),
        forall|i: int| best_place(s) < i < s.len() ==> !as_good(#[trigger] s[i], s[best_place(s)]),
    decreases s.len(),
{
    if s.len() > 1 {
        let front = s.drop_last();
        lemma_best_place(front);
        assert(forall|i: int| 0 <= i < front.len() ==> front[i] == s[i]);
    }
}

/// The card that is taken without a choice is discrete where one is, and of its
/// kind none has more memory.  Of equals it is the last.
pub proof fn lemma_default_card(s: Seq<GpuView>)
    requires
        s.len() > 0,
    ensures
        ({
            let b = best_place(s);
            let discrete = |i: int| s[i].kind == GpuKind::Discrete;
            let size = |i: int|
                match s[i].vram_bytes {
                    Some(n) => n as int,
                    None => 0,
                };
            &&& 0 <= b < s.len()
            &&& forall|i: int| 0 <= i < s.len() && #[trigger] discrete(i) ==> discrete(b)
            &&& forall|i: int|
                0 <= i < s.len() && (#[trigger] discrete(i)) == discrete(b) ==> size(i) <= size(b)
                    && (size(i) == size(b) ==> i <= b)
        }),
{
    lemma_best_place(s);
    let b = best_place(s);
    assert forall|i: int| 0 <= i < s.len() implies as_good(s[b], #[trigger] s[i]) && (b < i
        ==> !as_good(s[i], s[b])) by {}
}

/// The GPU to select by default: the discrete card with the most memory.
/// Of equally good ones it is the last.
pub fn default_index(gpus: &[GpuDevice]) -> (r: usize)
    ensures
        r == best_place(gpu_views(gpus@)),
        gpus.len() > 0 ==> r < gpus.len(),
{
    let ghost views = gpu_views(gpus@);
    let mut r: usize = 0;
    let mut i: usize = 1;
    proof {
        if gpus.len() > 0 {
            assert(views.take(1).len() == 1);
        }
    }
    while i < gpus.len()
        invariant
            1 <= i,
            views == gpu_views(gpus@),
            gpus.len() > 0 ==> i <= gpus.len() && r < i && r == best_place(views.take(i as int)),
            gpus.len() == 0 ==> r == 0,
        decreases gpus.len() - i,
    {
        assert(views.take(i + 1).drop_last() =~= views.take(i as int));
        assert(views.take(i as int)[r as int] == gpus@[r as int]@);
        if is_as_good(&gpus[i], &gpus[r]) {
            r = i;
        }
        i = i + 1;
    }
    assert(views.take(views.len() as int) =~= views);
    r
}

/// Whether a card is discrete, as far as the vendor and the name in lower
/// case tell.
pub open spec fn kind_by(vendor_id: Option<u32>, name: Seq<char>) -> GpuKind {
    if vendor_id == Some(VENDOR_NVIDIA) {
        GpuKind::Discrete
    } else if vendor_id == Some(VENDOR_INTEL) {
        if occurs(name, "arc a"@) || occurs(name, "arc b"@) || occurs(name, "arc pro"@) {
            GpuKind::Discrete
        } else {
            GpuKind::Integrated
        }
    } else if vendor_id == Some(VENDOR_AMD) {
        if occurs(name, "rx "@) || occurs(name, "radeon pro"@) || occurs(name, "instinct"@) {
            GpuKind::Discrete
        } else if occurs(name, "radeon graphics"@) || occurs(name, "vega"@) || ends(
            name,
            "m graphics"@,
        ) {
            GpuKind::Integrated
        } else {
            GpuKind::Unknown
        }
    } else if begins(name, "apple"@) {
        GpuKind::Integrated
    } else {
        GpuKind::Unknown
    }
}

/// What a vendor's cards are: all of NVIDIA's are discrete, and Intel's but for
/// the Arc cards are part of the processor.  Of AMD's, a name of a card of its
/// own goes before one of a processor's graphics.  Of others nothing is known,
/// but for Apple's.
pub proof fn lemma_kinds(vendor_id: Option<u32>, name: Seq<char>)
    ensures
        ({
            let k = kind_by(vendor_id, name);
            let arc = occurs(name, "arc a"@) || occurs(name, "arc b"@) || occurs(name, "arc pro"@);
            let own = occurs(name, "rx "@) || occurs(name, "radeon pro"@) || occurs(
                name,
                "instinct"@,
            );
            let built_in = occurs(name, "radeon graphics"@) || occurs(name, "vega"@) || ends(
                name,
                "m graphics"@,
            );
            &&& vendor_id == Some(0x10DEu32) ==> k == GpuKind::Discrete
            &&& vendor_id == Some(0x8086u32) ==> k != GpuKind::Unknown && (k == GpuKind::Discrete
                <==> arc)
            &&& vendor_id == Some(0x1002u32) ==> (k == GpuKind::Discrete <==> own) && (k
                == GpuKind::Integrated <==> !own && built_in)
            &&& vendor_id != Some(0x10DEu32) && vendor_id != Some(0x8086u32) && vendor_id != Some(
                0x1002u32,
            ) ==> k != GpuKind::Discrete && (k == GpuKind::Integrated <==> begins(name, "apple"@))
        }),
{
}

/// Tells from the vendor and the name in lower case whether a card is
/// discrete.  Arc A/B-series cards are; "Arc Graphics" is part of the
/// processor.
pub fn guess_kind(vendor_id: Option<u32>, name: &str) -> (r: GpuKind)
    ensures
        r == kind_by(vendor_id, name@),
{
    if same_id(vendor_id, VENDOR_NVIDIA) {
        GpuKind::Discrete
    } else if same_id(vendor_id, VENDOR_INTEL) {
        if contains(name, "arc a") || contains(name, "arc b") || contains(name, "arc pro") {
            GpuKind::Discrete
        } else {
            GpuKind::Integrated
        }
    } else if same_id(vendor_id, VENDOR_AMD) {
        if contains(name, "rx ") || contains(name, "radeon pro") || contains(name, "instinct") {
            GpuKind::Discrete
        } else if contains(name, "radeon graphics") || contains(name, "vega") || ends_with(
            name,
            "m graphics",
        ) {
            GpuKind::Integrated
        } else {
            GpuKind::Unknown
        }
    } else if starts_with(name, "apple") {
        GpuKind::Integrated
    } else {
        GpuKind::Unknown
    }
}

// ---------------------------------------------------------------------------
// NVIDIA's own list

/// A card as NVIDIA's tools list it.
#[derive(Debug, Clone)]
pub struct NvDevice {
    pub index: u32,
    pub name: String,
    pub vram_bytes: Option<u64>,
    pub vendor_id: u32,
    pub device_id: u32,
}

/// The contents of a listed card.
pub ghost struct NvView {
    pub index: u32,
    pub name: Seq<char>,
    pub vram_bytes: Option<u64>,
    pub vendor_id: u32,
    pub device_id: u32,
}

impl View for NvDevice {
    type V = NvView;

    open spec fn view(&self) -> NvView {
        NvView {
            index: self.index,
            name: self.name@,
            vram_bytes: self.vram_bytes,
            vendor_id: self.vendor_id,
            device_id: self.device_id,
        }
    }
}

/// The contents of NVIDIA's list.
pub open spec fn nv_views(v: Seq<NvDevice>) -> Seq<NvView> {
    v.map_values(|d: NvDevice| d@)
}

/// The listed card `d` may be the card `g`.
pub open spec fn nv_fits(g: GpuView, d: NvView) -> bool {
    g.device_id == Some(d.device_id) || names_match(g.name, d.name)
}

/// The first of the listed cards from `i` on that is free and fits `g`, or
/// their number.
pub open spec fn nv_pick(g: GpuView, nv: Seq<NvView>, used: Seq<bool>, i: int) -> int
    decreases nv.len() - i,
{
    if i < 0 || i >= nv.len() || (!used[i] && nv_fits(g, nv[i])) {
        i
    } else {
        nv_pick(g, nv, used, i + 1)
    }
}

/// The card with what the list says of it.
pub open spec fn nv_merged(g: GpuView, d: NvView) -> GpuView {
    GpuView {
        nvml_index: Some(d.index),
        vendor_id: Some(d.vendor_id),
        device_id: if d.device_id != 0 {
            Some(d.device_id)
        } else {
            g.device_id
        },
        vram_bytes: if d.vram_bytes is Some {
            d.vram_bytes
        } else {
            g.vram_bytes
        },
        ..g
    }
}

/// The cards and which of the listed ones are taken, once the first `k` cards
/// have been looked up.
pub open spec fn nv_matched(gpus: Seq<GpuView>, nv: Seq<NvView>, k: int) -> (Seq<GpuView>, Seq<bool>)
    decreases k,
{
    if k <= 0 {
        (gpus, Seq::new(nv.len(), |i: int| false))
    } else {
        let (gs, used) = nv_matched(gpus, nv, k - 1);
        let g = gpus[k - 1];
        let i = nv_pick(g, nv, used, 0);
        if g.nvidia() && i < nv.len() {
            (gs.update(k - 1, nv_merged(g, nv[i])), used.update(i, true))
        } else {
            (gs, used)
        }
    }
}

/// A listed card that no other list has.
pub open spec fn nv_alone(d: NvView) -> GpuView {
    GpuView {
        name: d.name,
        vram_bytes: d.vram_bytes,
        kind: GpuKind::Discrete,
        vendor_id: Some(d.vendor_id),
        device_id: Some(d.device_id),
        nvml_index: Some(d.index),
        sysfs_device: None,
    }
}

/// The first `k` listed cards that are not taken.
pub open spec fn nv_rest(nv: Seq<NvView>, used: Seq<bool>, k: int) -> Seq<GpuView>
    decreases k,
{
    if k <= 0 {
        Seq::empty()
    } else if used[k - 1] {
        nv_rest(nv, used, k - 1)
    } else {
        nv_rest(nv, used, k - 1).push(nv_alone(nv[k - 1]))
    }
}

/// The cards with what NVIDIA's list says, and those that only it has.
pub open spec fn with_nvidia(gpus: Seq<GpuView>, nv: Seq<NvView>) -> Seq<GpuView> {
    let (gs, used) = nv_matched(gpus, nv, gpus.len() as int);
    gs + nv_rest(nv, used, nv.len() as int)
}

proof fn lemma_nv_pick(g: GpuView, nv: Seq<NvView>, used: Seq<bool>, i: int)
    requires
        0 <= i <= nv.len(),
    ensures
        i <= nv_pick(g, nv, used, i) <= nv.len(),
    decreases nv.len() - i,
{
    if i < nv.len() && !(!used[i] && nv_fits(g, nv[i])) {
        lemma_nv_pick(g, nv, used, i + 1);
    }
}

proof fn lemma_nv_matched(gpus: Seq<GpuView>, nv: Seq<NvView>, k: int)
    requires
        0 <= k <= gpus.len(),
    ensures
        nv_matched(gpus, nv, k).0.len() == gpus.len(),
        nv_matched(gpus, nv, k).1.len() == nv.len(),
        forall|j: int| k <= j < gpus.len() ==> nv_matched(gpus, nv, k).0[j] == gpus[j],
    decreases k,
{
    if k > 0 {
        lemma_nv_matched(gpus, nv, k - 1);
        let used = nv_matched(gpus, nv, k - 1).1;
        lemma_nv_pick(gpus[k - 1], nv, used, 0);
    }
}

/// Which of the driver's cards each card of the list is: `m[j]` is the place of
/// the driver's card, or -1.
pub open spec fn nv_found(
    gpus: Seq<GpuView>,
    nv: Seq<NvView>,
    r: Seq<GpuView>,
    m: Seq<int>,
) -> bool {
    let n = gpus.len() as int;
    &&& n <= r.len() && m.len() == r.len()
    // Each of the driver's cards stands in the list once.
    &&& forall|j: int| 0 <= j < m.len() ==> -1 <= #[trigger] m[j] < nv.len()
    &&& forall|j: int, l: int| 0 <= j < l < m.len() && #[trigger] m[j] >= 0 ==> m[j] != #[trigger] m[l]
    &&& forall|i: int| 0 <= i < nv.len() ==> #[trigger] m.contains(i)
    // A card that is none of the driver's stays as it is.
    &&& forall|j: int| 0 <= j < n && #[trigger] m[j] < 0 ==> r[j] == gpus[j]
    // One that is has its index and numbers, keeps its name, kind and directory,
    // and was NVIDIA's and of the same number or name before.
    &&& forall|j: int| 0 <= j < n && #[trigger] m[j] >= 0 ==> nv_same(gpus[j], nv[m[j]], r[j])
    // A card that fits goes without only where a card in front of it has it.
    &&& forall|j: int, i: int|
        0 <= j < n && m[j] < 0 && 0 <= i < nv.len() && gpus[j].nvidia() && #[trigger] nv_fits(
            gpus[j],
            nv[i],
        ) ==> m.take(j).contains(i)
    // What comes behind are the driver's own.
    &&& forall|j: int|
        n <= j < m.len() ==> 0 <= #[trigger] m[j] && r[j].name == nv[m[j]].name && r[j].nvml_index
            == Some(nv[m[j]].index) && r[j].vram_bytes == nv[m[j]].vram_bytes && r[j].kind
            == GpuKind::Discrete && r[j].device_id == Some(nv[m[j]].device_id)
}

/// A card `g` of the list that is the driver's card `d` becomes `r`.
pub open spec fn nv_same(g: GpuView, d: NvView, r: GpuView) -> bool {
    &&& g.vendor_id == Some(0x10DEu32) || occurs(lower(g.name), "nvidia"@)
    &&& g.device_id == Some(d.device_id) || names_match(g.name, d.name)
    &&& r.name == g.name && r.kind == g.kind && r.sysfs_device == g.sysfs_device
    &&& r.nvml_index == Some(d.index)
    &&& r.vendor_id == Some(d.vendor_id)
    &&& d.vram_bytes is Some ==> r.vram_bytes == d.vram_bytes
    &&& d.vram_bytes is None ==> r.vram_bytes == g.vram_bytes
    &&& d.device_id != 0 ==> r.device_id == Some(d.device_id)
    &&& d.device_id == 0 ==> r.device_id == g.device_id
}

proof fn lemma_nv_pick_first(g: GpuView, nv: Seq<NvView>, used: Seq<bool>, i: int)
    requires
        0 <= i <= nv.len(),
    ensures
        ({
            let p = nv_pick(g, nv, used, i);
            &&& i <= p <= nv.len()
            &&& p < nv.len() ==> !used[p] && nv_fits(g, nv[p])
            &&& forall|l: int| i <= l < p ==> used[l] || !nv_fits(g, #[trigger] nv[l])
        }),
    decreases nv.len() - i,
{
    if i < nv.len() && !(!used[i] && nv_fits(g, nv[i])) {
        lemma_nv_pick_first(g, nv, used, i + 1);
    }
}

/// The places of the driver's cards of the first `k` cards.
spec fn nv_places(gpus: Seq<GpuView>, nv: Seq<NvView>, k: int) -> Seq<int>
    decreases k,
{
    if k <= 0 {
        Seq::empty()
    } else {
        let used = nv_matched(gpus, nv, k - 1).1;
        let g = gpus[k - 1];
        let i = nv_pick(g, nv, used, 0);
        nv_places(gpus, nv, k - 1).push(
            if g.nvidia() && i < nv.len() {
                i
            } else {
                -1
            },
        )
    }
}

proof fn lemma_nv_places(gpus: Seq<GpuView>, nv: Seq<NvView>, k: int)
    requires
        0 <= k <= gpus.len(),
    ensures
        ({
            let (gs, used) = nv_matched(gpus, nv, k);
            let m = nv_places(gpus, nv, k);
            &&& gs.len() == gpus.len() && used.len() == nv.len() && m.len() == k
            &&& forall|j: int| 0 <= j < k ==> -1 <= #[trigger] m[j] < nv.len()
            &&& forall|j: int, l: int|
                0 <= j < l < k && #[trigger] m[j] >= 0 ==> m[j] != #[trigger] m[l]
            &&& forall|i: int| 0 <= i < nv.len() ==> (#[trigger] used[i] <==> m.contains(i))
            &&& forall|j: int| 0 <= j < k && #[trigger] m[j] < 0 ==> gs[j] == gpus[j]
            &&& forall|j: int| k <= j < gs.len() ==> #[trigger] gs[j] == gpus[j]
            &&& forall|j: int| 0 <= j < k && #[trigger] m[j] >= 0 ==> nv_same(gpus[j], nv[m[j]], gs[j])
            &&& forall|j: int, i: int|
                0 <= j < k && m[j] < 0 && 0 <= i < nv.len() && gpus[j].nvidia()
                    && #[trigger] nv_fits(gpus[j], nv[i]) ==> m.take(j).contains(i)
        }),
    decreases k,
{
    if k > 0 {
        lemma_nv_places(gpus, nv, k - 1);
        let (gs, used) = nv_matched(gpus, nv, k - 1);
        let m = nv_places(gpus, nv, k - 1);
        let g = gpus[k - 1];
        lemma_nv_pick_first(g, nv, used, 0);
        let p = nv_pick(g, nv, used, 0);
        let m2 = nv_places(gpus, nv, k);
        let (gs2, used2) = nv_matched(gpus, nv, k);
        assert(m2.drop_last() =~= m);
        assert forall|j: int| 0 <= j < k - 1 implies #[trigger] m2[j] == m[j] by {}
        assert forall|i: int| 0 <= i < nv.len() implies (#[trigger] used2[i] <==> m2.contains(i)) by {
            if m.contains(i) {
                let j = choose|j: int| 0 <= j < m.len() && m[j] == i;
                assert(m2[j] == i);
            }
            if m2.contains(i) && i != m2[k - 1] {
                let j = choose|j: int| 0 <= j < m2.len() && m2[j] == i;
                assert(m[j] == i);
            }
            if m2[k - 1] == i {
                assert(m2.contains(i));
            }
            assert(used[i] <==> m.contains(i));
        }
        assert forall|j: int, l: int| 0 <= j < l < k && #[trigger] m2[j] >= 0 implies m2[j]
            != #[trigger] m2[l] by {
            if l == k - 1 && m2[l] >= 0 {
                assert(!used[p]);
                assert(m.contains(m[j]));
            }
        }
        assert forall|j: int, i: int|
            0 <= j < k && m2[j] < 0 && 0 <= i < nv.len() && gpus[j].nvidia() && #[trigger] nv_fits(
                gpus[j],
                nv[i],
            ) implies m2.take(j).contains(i) by {
            if j < k - 1 {
                assert(m2.take(j) =~= m.take(j));
            } else {
                assert(m2.take(j) =~= m);
                assert(p == nv.len());
                assert(used[i]);
            }
        }
    }
}

proof fn lemma_nv_rest(
    nv: Seq<NvView>,
    used: Seq<bool>,
    m: Seq<int>,
    k: int,
) -> (all: Seq<int>)
    requires
        0 <= k <= nv.len(),
        used.len() == nv.len(),
        forall|j: int| 0 <= j < m.len() ==> -1 <= #[trigger] m[j] < nv.len(),
        forall|j: int, l: int|
            0 <= j < l < m.len() && #[trigger] m[j] >= 0 ==> m[j] != #[trigger] m[l],
        forall|i: int| 0 <= i < nv.len() ==> (#[trigger] used[i] <==> m.contains(i)),
    ensures
        ({
            let rest = nv_rest(nv, used, k);
            &&& all.len() == m.len() + rest.len()
            &&& all.take(m.len() as int) == m
            &&& forall|j: int| m.len() <= j < all.len() ==> 0 <= #[trigger] all[j] < k && !used[all[j]]
                && rest[j - m.len()] == nv_alone(nv[all[j]])
            &&& forall|j: int, l: int|
                0 <= j < l < all.len() && #[trigger] all[j] >= 0 ==> all[j] != #[trigger] all[l]
            &&& forall|i: int| 0 <= i < k ==> #[trigger] all.contains(i)
        }),
    decreases k,
{
    let rest = nv_rest(nv, used, k);
    if k <= 0 {
        assert(m.take(m.len() as int) =~= m);
        m
    } else {
        let front = lemma_nv_rest(nv, used, m, k - 1);
        let n = m.len() as int;
        if used[k - 1] {
            assert(m.contains(k - 1));
            let j = choose|j: int| 0 <= j < m.len() && m[j] == k - 1;
            assert(front.take(n)[j] == front[j]);
            assert(front.contains(k - 1));
            front
        } else {
            let all = front.push(k - 1);
            assert(all.take(n) =~= m) by {
                assert(all.take(n) =~= front.take(n));
            }
            assert forall|j: int| 0 <= j < n implies #[trigger] front[j] == m[j] by {
                assert(front.take(n)[j] == front[j]);
            }
            assert forall|j: int, l: int| 0 <= j < l < all.len() && #[trigger] all[j] >= 0 implies all[j]
                != #[trigger] all[l] by {
                if l == front.len() {
                    if j < n {
                        assert(front[j] == m[j]);
                        if m[j] == k - 1 {
                            assert(m.contains(k - 1));
                        }
                    } else {
                        assert(0 <= front[j] < k - 1);
                    }
                } else {
                    assert(front[j] == all[j] && front[l] == all[l]);
                }
            }
            assert forall|i: int| 0 <= i < k implies #[trigger] all.contains(i) by {
                if i < k - 1 {
                    assert(front.contains(i));
                    let j = choose|j: int| 0 <= j < front.len() && front[j] == i;
                    assert(all[j] == i);
                } else {
                    assert(all[front.len() as int] == i);
                }
            }
            assert forall|j: int| n <= j < all.len() implies 0 <= #[trigger] all[j] < k && !used[all[j]]
                && rest[j - n] == nv_alone(nv[all[j]]) by {
                if j < front.len() {
                    assert(front[j] == all[j]);
                }
            }
            all
        }
    }
}

/// The driver's cards are brought into the list: each stands in it once, at a
/// card of the list that is the same where there is one, and no card of the list
/// is lost.
pub proof fn lemma_nvidia_cards(gpus: Seq<GpuView>, nv: Seq<NvView>)
    ensures
        exists|m: Seq<int>| nv_found(gpus, nv, with_nvidia(gpus, nv), m),
{
    let n = gpus.len() as int;
    lemma_nv_places(gpus, nv, n);
    let (gs, used) = nv_matched(gpus, nv, n);
    let m = nv_places(gpus, nv, n);
    let all = lemma_nv_rest(nv, used, m, nv.len() as int);
    let r = with_nvidia(gpus, nv);
    assert forall|j: int| 0 <= j < n implies #[trigger] all[j] == m[j] && r[j] == gs[j] by {
        assert(all.take(n)[j] == all[j]);
    }
    assert forall|j: int, i: int|
        0 <= j < n && all[j] < 0 && 0 <= i < nv.len() && gpus[j].nvidia() && #[trigger] nv_fits(
            gpus[j],
            nv[i],
        ) implies all.take(j).contains(i) by {
        assert(all.take(j) =~= m.take(j));
        assert(m[j] == all[j]);
    }
    assert forall|j: int| n <= j < all.len() implies 0 <= #[trigger] all[j] && r[j] == nv_alone(
        nv[all[j]],
    ) by {
        assert(r[j] == nv_rest(nv, used, nv.len() as int)[j - n]);
    }
    assert(nv_found(gpus, nv, r, all));
}

fn nv_find(g: &GpuDevice, nv: &Vec<NvDevice>, used: &Vec<bool>) -> (r: usize)
    requires
        used.len() == nv.len(),
    ensures
        r == nv_pick(g@, nv_views(nv@), used@, 0),
        r <= nv.len(),
{
    let mut i: usize = 0;
    while i < nv.len()
        invariant
            i <= nv.len(),
            used.len() == nv.len(),
            nv_pick(g@, nv_views(nv@), used@, 0) == nv_pick(g@, nv_views(nv@), used@, i as int),
        decreases nv.len() - i,
    {
        if !used[i] && (same_id(g.device_id, nv[i].device_id) || g.matches_name(
            nv[i].name.as_str(),
        )) {
            return i;
        }
        i = i + 1;
    }
    i
}

/// Attach NVML indices (and exact VRAM) to NVIDIA GPUs; add any NVIDIA GPU
/// that the list lacks.
pub fn enrich_with_nvidia(gpus: &mut Vec<GpuDevice>, nv: &Vec<NvDevice>)
    ensures
        gpu_views(final(gpus)@) == with_nvidia(gpu_views(old(gpus)@), nv_views(nv@)),
{
    let ghost start = gpu_views(gpus@);
    let ghost nvs = nv_views(nv@);
    let mut used: Vec<bool> = Vec::new();
    let mut u: usize = 0;
    while u < nv.len()
        invariant
            u <= nv.len(),
            used@ == Seq::new(u as nat, |i: int| false),
        decreases nv.len() - u,
    {
        used.push(false);
        u = u + 1;
        assert(used@ =~= Seq::new(u as nat, |i: int| false));
    }
    let mut k: usize = 0;
    while k < gpus.len()
        invariant
            k <= gpus.len(),
            nvs == nv_views(nv@),
            gpus.len() == start.len(),
            used.len() == nv.len(),
            nv_matched(start, nvs, k as int) == (gpu_views(gpus@), used@),
        decreases gpus.len() - k,
    {
        let ghost before = gpu_views(gpus@);
        let ghost was = used@;
        proof {
            lemma_nv_matched(start, nvs, k as int);
            assert(before[k as int] == start[k as int]);
            lemma_nv_pick(start[k as int], nvs, was, 0);
        }
        if gpus[k].is_nvidia() {
            let i: usize = nv_find(&gpus[k], nv, &used);
            if i < nv.len() {
                used.set(i, true);
                let d: &NvDevice = &nv[i];
                let old_gpu: GpuDevice = gpus[k].duplicate();
                let device_id = if d.device_id != 0 {
                    Some(d.device_id)
                } else {
                    old_gpu.device_id
                };
                let vram_bytes = if d.vram_bytes.is_some() {
                    d.vram_bytes
                } else {
                    old_gpu.vram_bytes
                };
                let merged = GpuDevice {
                    name: old_gpu.name,
                    vram_bytes,
                    kind: old_gpu.kind,
                    vendor_id: Some(d.vendor_id),
                    device_id,
                    nvml_index: Some(d.index),
                    sysfs_device: old_gpu.sysfs_device,
                };
                assert(merged@ == nv_merged(start[k as int], nvs[i as int]));
                gpus.set(k, merged);
                assert(gpu_views(gpus@) =~= before.update(k as int, merged@));
                assert(nv_matched(start, nvs, k + 1) == (gpu_views(gpus@), used@));
            } else {
                assert(nv_matched(start, nvs, k + 1) == (gpu_views(gpus@), used@));
            }
        }
        k = k + 1;
    }
    let ghost matched = gpu_views(gpus@);
    let mut i: usize = 0;
    assert(matched + nv_rest(nvs, used@, 0) =~= matched);
    while i < nv.len()
        invariant
            i <= nv.len(),
            used.len() == nv.len(),
            nvs == nv_views(nv@),
            gpu_views(gpus@) == matched + nv_rest(nvs, used@, i as int),
        decreases nv.len() - i,
    {
        if !used[i] {
            let d: &NvDevice = &nv[i];
            let ghost before = gpu_views(gpus@);
            let more = GpuDevice {
                name: d.name.clone(),
                vram_bytes: d.vram_bytes,
                kind: GpuKind::Discrete,
                vendor_id: Some(d.vendor_id),
                device_id: Some(d.device_id),
                nvml_index: Some(d.index),
                sysfs_device: None,
            };
            assert(more@ == nv_alone(nvs[i as int]));
            gpus.push(more);
            assert(gpu_views(gpus@) =~= before.push(more@));
            assert(gpu_views(gpus@) =~= matched + nv_rest(nvs, used@, i + 1));
        }
        i = i + 1;
    }
}

// ---------------------------------------------------------------------------
// The graphics interface's list

/// What the graphics interface calls an adapter.
#[derive(Debug, Clone, Copy, PartialEq, Eq, Structural)]
pub enum AdapterKind {
    Discrete,
    Integrated,
    Other,
}

/// A card as the graphics interface lists it.
#[derive(Debug, Clone)]
pub struct Adapter {
    pub name: String,
    pub vendor: u32,
    pub device: u32,
    pub kind: AdapterKind,
}

/// The contents of an adapter.
pub ghost struct AdapterView {
    pub name: Seq<char>,
    pub vendor: u32,
    pub device: u32,
    pub kind: AdapterKind,
}

impl View for Adapter {
    type V = AdapterView;

    open spec fn view(&self) -> AdapterView {
        AdapterView {
            name: self.name@,
            vendor: self.vendor,
            device: self.device,
            kind: self.kind,
        }
    }
}

/// The contents of a list of adapters.
pub open spec fn adapter_views(v: Seq<Adapter>) -> Seq<AdapterView> {
    v.map_values(|a: Adapter| a@)
}

/// The adapter has the card's vendor and device number.
pub open spec fn same_device(g: GpuView, a: AdapterView) -> bool {
    g.vendor_id == Some(a.vendor) && g.device_id == Some(a.device)
}

/// The adapter may be the card `g`.
pub open spec fn adapter_fits(g: GpuView, a: AdapterView) -> bool {
    same_device(g, a) || names_match(g.name, a.name)
}

/// The first card from `i` on that the adapter fits, or their number.
pub open spec fn adapter_pick(gpus: Seq<GpuView>, a: AdapterView, i: int) -> int
    decreases gpus.len() - i,
{
    if i < 0 || i >= gpus.len() || adapter_fits(gpus[i], a) {
        i
    } else {
        adapter_pick(gpus, a, i + 1)
    }
}

/// The kind that an adapter gives its card; none for software and the like.
pub open spec fn adapter_gives(a: AdapterView) -> Option<GpuKind> {
    match a.kind {
        AdapterKind::Discrete => Some(GpuKind::Discrete),
        AdapterKind::Integrated => Some(GpuKind::Integrated),
        AdapterKind::Other => None,
    }
}

/// The cards with what one adapter says.
pub open spec fn with_adapter(gpus: Seq<GpuView>, a: AdapterView, add: bool) -> Seq<GpuView> {
    let i = adapter_pick(gpus, a, 0);
    match adapter_gives(a) {
        None => gpus,
        Some(kind) => if i < gpus.len() {
            let g = gpus[i];
            gpus.update(
                i,
                if g.vendor_id is None {
                    GpuView { kind, vendor_id: Some(a.vendor), device_id: Some(a.device), ..g }
                } else {
                    GpuView { kind, ..g }
                },
            )
        } else if add {
            gpus.push(
                GpuView {
                    name: cleaned(a.name),
                    vram_bytes: None,
                    kind,
                    vendor_id: Some(a.vendor),
                    device_id: Some(a.device),
                    nvml_index: None,
                    sysfs_device: None,
                },
            )
        } else {
            gpus
        },
    }
}

/// The cards with what the first `k` adapters say.
pub open spec fn with_adapters(
    gpus: Seq<GpuView>,
    adapters: Seq<AdapterView>,
    add: bool,
    k: int,
) -> Seq<GpuView>
    decreases k,
{
    if k <= 0 {
        gpus
    } else {
        with_adapter(with_adapters(gpus, adapters, add, k - 1), adapters[k - 1], add)
    }
}

proof fn lemma_adapter_pick(gpus: Seq<GpuView>, a: AdapterView, i: int)
    requires
        0 <= i <= gpus.len(),
    ensures
        ({
            let p = adapter_pick(gpus, a, i);
            &&& i <= p <= gpus.len()
            &&& p < gpus.len() ==> adapter_fits(gpus[p], a)
            &&& forall|j: int| i <= j < p ==> !adapter_fits(#[trigger] gpus[j], a)
        }),
    decreases gpus.len() - i,
{
    if i < gpus.len() && !adapter_fits(gpus[i], a) {
        lemma_adapter_pick(gpus, a, i + 1);
    }
}

/// All but kind and numbers are the same, and numbers that are known stay.
pub open spec fn same_card(g: GpuView, r: GpuView) -> bool {
    &&& r.name == g.name
    &&& r.vram_bytes == g.vram_bytes
    &&& r.nvml_index == g.nvml_index
    &&& r.sysfs_device == g.sysfs_device
    &&& g.vendor_id is Some ==> r.vendor_id == g.vendor_id && r.device_id == g.device_id
}

/// An adapter of which it is known whether it is part of the processor says so
/// of the first card that has its numbers or its name, and of no other.  Where
/// there is none, it is added, if adapters are.  Of others nothing is learnt.
pub proof fn lemma_adapter_tells_the_kind(gpus: Seq<GpuView>, a: AdapterView, add: bool)
    ensures
        ({
            let r = with_adapter(gpus, a, add);
            let fits = |i: int|
                (gpus[i].vendor_id == Some(a.vendor) && gpus[i].device_id == Some(a.device))
                    || names_match(gpus[i].name, a.name);
            let some = exists|i: int| 0 <= i < gpus.len() && #[trigger] fits(i);
            &&& a.kind == AdapterKind::Other ==> r == gpus
            &&& a.kind != AdapterKind::Other && some ==> r.len() == gpus.len() && exists|i: int|
                {
                    &&& 0 <= i < gpus.len() && #[trigger] fits(i)
                    &&& forall|j: int| 0 <= j < i ==> !#[trigger] fits(j)
                    &&& forall|j: int| 0 <= j < gpus.len() && j != i ==> #[trigger] r[j] == gpus[j]
                    &&& same_card(gpus[i], r[i])
                    &&& r[i].kind == GpuKind::Discrete <==> a.kind == AdapterKind::Discrete
                    &&& r[i].kind == GpuKind::Integrated <==> a.kind == AdapterKind::Integrated
                    &&& gpus[i].vendor_id is None ==> r[i].vendor_id == Some(a.vendor)
                        && r[i].device_id == Some(a.device)
                }
            &&& a.kind != AdapterKind::Other && !some && !add ==> r == gpus
            &&& a.kind != AdapterKind::Other && !some && add ==> r.len() == gpus.len() + 1
                && r.drop_last() == gpus && r.last().name == cleaned(a.name) && r.last().vendor_id
                == Some(a.vendor) && r.last().device_id == Some(a.device) && (r.last().kind
                == GpuKind::Discrete <==> a.kind == AdapterKind::Discrete) && (r.last().kind
                == GpuKind::Integrated <==> a.kind == AdapterKind::Integrated)
        }),
{
    let r = with_adapter(gpus, a, add);
    let fits = |i: int|
        (gpus[i].vendor_id == Some(a.vendor) && gpus[i].device_id == Some(a.device)) || names_match(
            gpus[i].name,
            a.name,
        );
    let some = exists|i: int| 0 <= i < gpus.len() && #[trigger] fits(i);
    lemma_adapter_pick(gpus, a, 0);
    let p = adapter_pick(gpus, a, 0);
    assert forall|j: int| 0 <= j < p implies !#[trigger] fits(j) by {
        assert(!adapter_fits(gpus[j], a));
    }
    if p < gpus.len() {
        assert(fits(p));
    } else {
        assert(!some);
        if add && a.kind != AdapterKind::Other {
            assert(r.drop_last() =~= gpus);
        }
    }
}

/// No adapter takes a card out of the list or changes which card it is; where
/// adapters are not added, the list stays as long as it is.
pub proof fn lemma_adapters_keep_cards(
    gpus: Seq<GpuView>,
    adapters: Seq<AdapterView>,
    add: bool,
    k: int,
)
    ensures
        ({
            let r = with_adapters(gpus, adapters, add, k);
            &&& r.len() >= gpus.len()
            &&& !add ==> r.len() == gpus.len()
            &&& forall|j: int| 0 <= j < gpus.len() ==> same_card(gpus[j], #[trigger] r[j])
        }),
    decreases k,
{
    if k > 0 {
        lemma_adapters_keep_cards(gpus, adapters, add, k - 1);
        let b = with_adapters(gpus, adapters, add, k - 1);
        let r = with_adapters(gpus, adapters, add, k);
        lemma_adapter_pick(b, adapters[k - 1], 0);
        assert forall|j: int| 0 <= j < gpus.len() implies same_card(gpus[j], #[trigger] r[j]) by {
            assert(same_card(gpus[j], b[j]));
        }
    }
}

/// An adapter's name without the driver and chip in brackets at the end.
pub open spec fn cleaned(name: Seq<char>) -> Seq<char> {
    match first_at(name, " ("@, 0) {
        Some(i) if ends(name, ")"@) => trimmed(name.take(i)),
        _ => trimmed(name),
    }
}

/// What an adapter's name says in brackets at its end is no part of the card's
/// name; other names are kept.
pub proof fn lemma_cleaned(stem: Seq<char>, rest: Seq<char>)
    requires
        !occurs(stem + " "@, " ("@),
    ensures
        cleaned(stem + " ("@ + rest + ")"@) == trimmed(stem),
        cleaned(stem) == trimmed(stem),
{
    reveal_strlit(" (");
    reveal_strlit(" ");
    reveal_strlit(")");
    let open = seq![' ', '('];
    assert(" ("@ =~= open);
    assert(" "@ =~= seq![' ']);
    let name = stem + " ("@ + rest + ")"@;
    let n = stem.len() as int;
    let tail = rest + ")"@;
    assert(name =~= stem + open + tail);
    lemma_bracket_found(stem, tail);
    assert(name.take(n) =~= stem);
    assert(ends(name, ")"@)) by {
        assert(name.subrange(name.len() - 1, name.len() as int) =~= ")"@);
    }
}

/// A bracket behind a text that holds none is found behind it.
proof fn lemma_bracket_found(stem: Seq<char>, tail: Seq<char>)
    requires
        !occurs(stem + seq![' '], seq![' ', '(']),
    ensures
        first_at(stem + seq![' ', '('] + tail, seq![' ', '('], 0) == Some(stem.len() as int),
        first_at(stem, seq![' ', '('], 0) is None,
{
    let open = seq![' ', '('];
    let t = stem + seq![' '];
    let name = stem + open + tail;
    let n = stem.len() as int;
    lemma_first_at(name, open, 0);
    lemma_two_at(name, n);
    assert(name[n] == ' ' && name[n + 1] == '(');
    let f = first_at(name, open, 0);
    assert(f is Some && f->0 <= n);
    if f->0 < n {
        let j = f->0;
        lemma_two_at(name, j);
        lemma_two_at(t, j);
        assert(name[j] == stem[j] && t[j] == stem[j]);
        if j + 1 < n {
            assert(name[j + 1] == stem[j + 1] && t[j + 1] == stem[j + 1]);
        } else {
            assert(name[n] == ' ');
        }
        assert(at(t, open, j));
    }
    lemma_first_at(stem, open, 0);
    if first_at(stem, open, 0) is Some {
        let j = first_at(stem, open, 0)->0;
        lemma_two_at(stem, j);
        lemma_two_at(t, j);
        assert(t[j] == stem[j] && t[j + 1] == stem[j + 1]);
        assert(at(t, open, j));
    }
}

/// A blank and a bracket stand where they stand.
proof fn lemma_two_at(s: Seq<char>, j: int)
    ensures
        at(s, seq![' ', '('], j) <==> 0 <= j && j + 2 <= s.len() && s[j] == ' ' && s[j + 1] == '(',
{
    if 0 <= j && j + 2 <= s.len() {
        let u = s.subrange(j, j + 2);
        assert(u[0] == s[j] && u[1] == s[j + 1]);
        if s[j] == ' ' && s[j + 1] == '(' {
            assert(u =~= seq![' ', '(']);
        }
        if at(s, seq![' ', '('], j) {
            assert(u[0] == seq![' ', '('][0] && u[1] == seq![' ', '('][1]);
        }
    }
}

/// Mesa appends the driver and chip: "AMD Radeon RX 7900 XTX (RADV NAVI31)".
pub fn clean_adapter_name(name: &str) -> (r: String)
    ensures
        r@ == cleaned(name@),
{
    let cs: Vec<char> = chars_of(name);
    let mark: Vec<char> = chars_of(" (");
    match find(cs.as_slice(), mark.as_slice(), 0) {
        Some(i) => {
            if ends_with(name, ")") {
                let part = vstd::slice::slice_subrange(cs.as_slice(), 0, i);
                assert(part@ =~= name@.take(i as int));
                return string_of(trim(part));
            }
        },
        None => {},
    }
    string_of(trim(cs.as_slice()))
}

fn find_fit(gpus: &Vec<GpuDevice>, a: &Adapter) -> (r: usize)
    ensures
        r == adapter_pick(gpu_views(gpus@), a@, 0),
        r <= gpus.len(),
{
    let mut i: usize = 0;
    while i < gpus.len()
        invariant
            i <= gpus.len(),
            adapter_pick(gpu_views(gpus@), a@, 0) == adapter_pick(gpu_views(gpus@), a@, i as int),
        decreases gpus.len() - i,
    {
        if (same_id(gpus[i].vendor_id, a.vendor) && same_id(gpus[i].device_id, a.device))
            || gpus[i].matches_name(a.name.as_str()) {
            return i;
        }
        i = i + 1;
    }
    i
}

/// Use the graphics interface's own view of each adapter to fill in the
/// discrete/integrated flag, and to find GPUs that the list lacks: everywhere
/// if it is empty, else only where it is not authoritative.
pub fn enrich_with_wgpu(gpus: &mut Vec<GpuDevice>, adapters: &Vec<Adapter>, authoritative: bool)
    ensures
        gpu_views(final(gpus)@) == with_adapters(
            gpu_views(old(gpus)@),
            adapter_views(adapters@),
            old(gpus)@.len() == 0 || !authoritative,
            adapters@.len() as int,
        ),
{
    let ghost start = gpu_views(gpus@);
    let ghost ads = adapter_views(adapters@);
    let add = gpus.len() == 0 || !authoritative;
    let mut k: usize = 0;
    while k < adapters.len()
        invariant
            k <= adapters.len(),
            ads == adapter_views(adapters@),
            gpu_views(gpus@) == with_adapters(start, ads, add, k as int),
        decreases adapters.len() - k,
    {
        let a: &Adapter = &adapters[k];
        let ghost before = gpu_views(gpus@);
        let given = match a.kind {
            AdapterKind::Discrete => Some(GpuKind::Discrete),
            AdapterKind::Integrated => Some(GpuKind::Integrated),
            AdapterKind::Other => None,
        };
        match given {
            None => {},
            Some(kind) => {
                let i: usize = find_fit(gpus, a);
                if i < gpus.len() {
                    let mut g: GpuDevice = gpus[i].duplicate();
                    g.kind = kind;
                    if g.vendor_id.is_none() {
                        g.vendor_id = Some(a.vendor);
                        g.device_id = Some(a.device);
                    }
                    let ghost gv = g@;
                    gpus.set(i, g);
                    assert(gpu_views(gpus@) =~= before.update(i as int, gv));
                } else if add {
                    let g = GpuDevice {
                        name: clean_adapter_name(a.name.as_str()),
                        vram_bytes: None,
                        kind,
                        vendor_id: Some(a.vendor),
                        device_id: Some(a.device),
                        nvml_index: None,
                        sysfs_device: None,
                    };
                    let ghost gv = g@;
                    gpus.push(g);
                    assert(gpu_views(gpus@) =~= before.push(gv));
                }
            },
        }
        assert(gpu_views(gpus@) =~= with_adapter(before, ads[k as int], add));
        k = k + 1;
    }
}

// ---------------------------------------------------------------------------
// The whole list

/// The card with its kind told from vendor and name where nothing else did.
pub open spec fn with_kind(g: GpuView) -> GpuView {
    if g.kind == GpuKind::Unknown {
        GpuView { kind: kind_by(g.vendor_id, lower(g.name)), ..g }
    } else {
        g
    }
}

/// The place of `g` among cards in order, looked for from `i` on: behind all
/// that are as good.
pub open spec fn place(s: Seq<GpuView>, g: GpuView, i: int) -> int
    decreases s.len() - i,
{
    if i < 0 || i >= s.len() || !as_good(s[i], g) {
        i
    } else {
        place(s, g, i + 1)
    }
}

/// The cards with the better ones in front; equally good ones keep their order.
pub open spec fn arranged(s: Seq<GpuView>) -> Seq<GpuView>
    decreases s.len(),
{
    if s.len() == 0 {
        s
    } else {
        let front = arranged(s.drop_last());
        front.insert(place(front, s.last(), 0), s.last())
    }
}

/// Each card is as good as those behind it.
pub open spec fn in_order(s: Seq<GpuView>) -> bool {
    forall|i: int, j: int| 0 <= i <= j < s.len() ==> as_good(#[trigger] s[i], #[trigger] s[j])
}

proof fn lemma_place(s: Seq<GpuView>, g: GpuView, i: int)
    requires
        0 <= i <= s.len(),
        forall|j: int| 0 <= j < i ==> as_good(#[trigger] s[j], g),
    ensures
        i <= place(s, g, i) <= s.len(),
        forall|j: int| 0 <= j < place(s, g, i) ==> as_good(#[trigger] s[j], g),
        place(s, g, i) < s.len() ==> !as_good(s[place(s, g, i)], g),
    decreases s.len() - i,
{
    if i < s.len() && as_good(s[i], g) {
        lemma_place(s, g, i + 1);
    }
}

/// Arranging keeps every card and brings them in order.
pub proof fn lemma_arranged(s: Seq<GpuView>)
    ensures
        arranged(s).len() == s.len(),
        in_order(arranged(s)),
        arranged(s).to_multiset() == s.to_multiset(),
    decreases s.len(),
{
    if s.len() > 0 {
        let init = s.drop_last();
        let g = s.last();
        lemma_arranged(init);
        let front = arranged(init);
        lemma_place(front, g, 0);
        let p = place(front, g, 0);
        let r = front.insert(p, g);
        assert forall|i: int, j: int| 0 <= i <= j < r.len() implies as_good(
            #[trigger] r[i],
            #[trigger] r[j],
        ) by {
            let fi = if i < p {
                i
            } else {
                i - 1
            };
            let fj = if j < p {
                j
            } else {
                j - 1
            };
            if i != p && j != p {
                assert(as_good(front[fi], front[fj]));
            } else if i == p && j != p {
                assert(as_good(front[p], front[fj]));
                assert(!as_good(front[p], g));
            }
        }
        broadcast use vstd::seq_lib::group_to_multiset_ensures;

        assert(front.insert(p, g).to_multiset() == front.to_multiset().insert(g));
        assert(s =~= init.push(g));
        assert(s.to_multiset() == init.to_multiset().insert(g));
    }
}

/// Discrete cards stand before all others, and of cards of the same kind those
/// with more memory before those with less.
pub proof fn lemma_discrete_first(s: Seq<GpuView>)
    ensures
        ({
            let r = arranged(s);
            let discrete = |i: int| r[i].kind == GpuKind::Discrete;
            let size = |i: int|
                match r[i].vram_bytes {
                    Some(n) => n as int,
                    None => 0,
                };
            forall|i: int, j: int|
                0 <= i < j < r.len() ==> (#[trigger] discrete(j) ==> #[trigger] discrete(i)) && (
                discrete(i) == discrete(j) ==> size(i) >= size(j))
        }),
{
    lemma_arranged(s);
    let r = arranged(s);
    assert forall|i: int, j: int| 0 <= i < j < r.len() implies as_good(
        #[trigger] r[i],
        #[trigger] r[j],
    ) by {}
}

/// Two cards are equally good choices.
pub open spec fn equally_good(a: GpuView, b: GpuView) -> bool {
    as_good(a, b) && as_good(b, a)
}

/// The cards that are as good a choice as `r` stand in the order in which
/// they came.
pub proof fn lemma_arranged_stable(s: Seq<GpuView>, r: GpuView)
    ensures
        arranged(s).filter(|g: GpuView| equally_good(g, r)) == s.filter(
            |g: GpuView| equally_good(g, r),
        ),
    decreases s.len(),
{
    let p = |g: GpuView| equally_good(g, r);
    if s.len() > 0 {
        let init = s.drop_last();
        let g = s.last();
        lemma_arranged_stable(init, r);
        lemma_arranged(init);
        let front = arranged(init);
        lemma_place(front, g, 0);
        let k = place(front, g, 0);
        let a = front.take(k);
        let b = front.skip(k);
        assert(front =~= a + b);
        assert(front.insert(k, g) =~= a + seq![g] + b);
        Seq::filter_distributes_over_add(a, b, p);
        Seq::filter_distributes_over_add(a + seq![g], b, p);
        Seq::filter_distributes_over_add(a, seq![g], p);
        Seq::filter_distributes_over_add(init, seq![g], p);
        assert(s =~= init + seq![g]);
        if p(g) {
            assert forall|i: int| 0 <= i < b.len() implies !p(#[trigger] b[i]) by {
                assert(b[i] == front[k + i]);
                assert(as_good(front[k], front[k + i]));
                assert(!as_good(front[k], g));
            }
            lemma_filter_none(b, p);
            assert(b.filter(p) =~= Seq::empty());
            assert(front.filter(p) =~= a.filter(p));
            assert(front.insert(k, g).filter(p) =~= a.filter(p) + seq![g].filter(p));
        } else {
            assert(seq![g].filter(p) =~= Seq::empty()) by {
                lemma_filter_none(seq![g], p);
            }
            assert(front.insert(k, g).filter(p) =~= front.filter(p));
        }
    } else {
        assert(arranged(s) =~= s);
    }
}

proof fn lemma_filter_none(s: Seq<GpuView>, p: spec_fn(GpuView) -> bool)
    requires
        forall|i: int| 0 <= i < s.len() ==> !p(#[trigger] s[i]),
    ensures
        s.filter(p).len() == 0,
    decreases s.len(),
{
    reveal(Seq::filter);
    if s.len() > 0 {
        lemma_filter_none(s.drop_last(), p);
    }
}

/// All GPUs: the system's list with what the others add, in order.
pub open spec fn detected(
    os: Seq<GpuView>,
    nv: Seq<NvView>,
    adapters: Seq<AdapterView>,
    authoritative: bool,
) -> Seq<GpuView> {
    let a = with_nvidia(os, nv);
    let b = with_adapters(a, adapters, a.len() == 0 || !authoritative, adapters.len() as int);
    arranged(b.map_values(|g: GpuView| with_kind(g)))
}

/// One of the cards has this name and this directory.
pub open spec fn has_card(r: Seq<GpuView>, name: Seq<char>, sysfs: Option<Seq<char>>) -> bool {
    exists|k: int|
        0 <= k < r.len() && (#[trigger] r[k]).name == name && r[k].sysfs_device == sysfs
}

/// One of the cards has this index in the driver's list.
pub open spec fn has_index(r: Seq<GpuView>, index: u32) -> bool {
    exists|k: int| 0 <= k < r.len() && (#[trigger] r[k]).nvml_index == Some(index)
}

/// No card of the system's list is lost, and none of the driver's: of each there
/// is one in the list of all with its name, and of the driver's with its index.
/// Adapters add cards only where the system's list is not to be relied on, or
/// nothing else lists any.
pub proof fn lemma_all_cards_detected(
    os: Seq<GpuView>,
    nv: Seq<NvView>,
    adapters: Seq<AdapterView>,
    authoritative: bool,
)
    ensures
        ({
            let r = detected(os, nv, adapters, authoritative);
            &&& forall|j: int|
                0 <= j < os.len() ==> has_card(r, (#[trigger] os[j]).name, os[j].sysfs_device)
            &&& forall|i: int| 0 <= i < nv.len() ==> has_index(r, (#[trigger] nv[i]).index)
            &&& authoritative && os.len() > 0 ==> r.len() <= os.len() + nv.len()
            &&& r.len() >= os.len()
        }),
{
    let a = with_nvidia(os, nv);
    lemma_nvidia_cards(os, nv);
    let m = choose|m: Seq<int>| nv_found(os, nv, a, m);
    assert(nv_found(os, nv, a, m));
    let add = a.len() == 0 || !authoritative;
    let b = with_adapters(a, adapters, add, adapters.len() as int);
    lemma_adapters_keep_cards(a, adapters, add, adapters.len() as int);
    let c = b.map_values(|g: GpuView| with_kind(g));
    lemma_arranged(c);
    let r = arranged(c);
    assert forall|j: int| 0 <= j < a.len() implies has_card(
        r,
        (#[trigger] a[j]).name,
        a[j].sysfs_device,
    ) && (a[j].nvml_index is Some ==> has_index(r, a[j].nvml_index->0)) by {
        assert(same_card(a[j], b[j]));
        broadcast use vstd::seq_lib::group_to_multiset_ensures;

        assert(c.contains(c[j]));
        assert(c.to_multiset().contains(c[j]));
        assert(r.to_multiset().contains(c[j]));
        assert(r.contains(c[j]));
        let k = choose|k: int| 0 <= k < r.len() && r[k] == c[j];
        assert(r[k].name == a[j].name && r[k].nvml_index == a[j].nvml_index);
    }
    assert forall|j: int| 0 <= j < os.len() implies has_card(
        r,
        (#[trigger] os[j]).name,
        os[j].sysfs_device,
    ) by {
        if m[j] < 0 {
            assert(a[j] == os[j]);
        } else {
            assert(nv_same(os[j], nv[m[j]], a[j]));
        }
        assert(a[j].name == os[j].name && a[j].sysfs_device == os[j].sysfs_device);
    }
    assert forall|i: int| 0 <= i < nv.len() implies has_index(r, (#[trigger] nv[i]).index) by {
        assert(m.contains(i));
        let j = choose|j: int| 0 <= j < m.len() && m[j] == i;
        assert(a[j].nvml_index == Some(nv[i].index));
    }
    lemma_nv_places(os, nv, os.len() as int);
    lemma_rest_is_short(nv, nv_matched(os, nv, os.len() as int).1, nv.len() as int);
    assert(r.len() == b.len());
    assert(a.len() <= os.len() + nv.len());
}

proof fn lemma_rest_is_short(nv: Seq<NvView>, used: Seq<bool>, k: int)
    requires
        0 <= k,
    ensures
        nv_rest(nv, used, k).len() <= k,
    decreases k,
{
    if k > 0 {
        lemma_rest_is_short(nv, used, k - 1);
    }
}

/// All GPUs.  Discrete cards come first, those with more memory before others.
pub fn detect(
    os: Vec<GpuDevice>,
    nv: &Vec<NvDevice>,
    adapters: &Vec<Adapter>,
    authoritative: bool,
) -> (r: Vec<GpuDevice>)
    ensures
        gpu_views(r@) == detected(
            gpu_views(os@),
            nv_views(nv@),
            adapter_views(adapters@),
            authoritative,
        ),
{
    let mut gpus: Vec<GpuDevice> = os;
    enrich_with_nvidia(&mut gpus, nv);
    enrich_with_wgpu(&mut gpus, adapters, authoritative);
    let ghost raw = gpu_views(gpus@);
    let ghost kinds = raw.map_values(|g: GpuView| with_kind(g));
    let mut r: Vec<GpuDevice> = Vec::new();
    let mut k: usize = 0;
    assert(gpu_views(r@) =~= arranged(kinds.take(0)));
    while k < gpus.len()
        invariant
            k <= gpus.len(),
            raw == gpu_views(gpus@),
            kinds == raw.map_values(|g: GpuView| with_kind(g)),
            gpu_views(r@) == arranged(kinds.take(k as int)),
        decreases gpus.len() - k,
    {
        let mut g: GpuDevice = gpus[k].duplicate();
        if g.kind == GpuKind::Unknown {
            g.kind = guess_kind(g.vendor_id, to_lower(g.name.as_str()).as_str());
        }
        let ghost gv = g@;
        assert(gv == kinds[k as int]);
        let ghost before = gpu_views(r@);
        let mut i: usize = 0;
        while i < r.len() && is_as_good(&r[i], &g)
            invariant
                i <= r.len(),
                before == gpu_views(r@),
                gv == g@,
                place(before, gv, 0) == place(before, gv, i as int),
            decreases r.len() - i,
        {
            i = i + 1;
        }
        r.insert(i, g);
        assert(gpu_views(r@) =~= before.insert(i as int, gv));
        k = k + 1;
        assert(kinds.take(k as int).drop_last() =~= kinds.take(k - 1));
    }
    assert(kinds.take(kinds.len() as int) =~= kinds);
    r
}

} // verus!
