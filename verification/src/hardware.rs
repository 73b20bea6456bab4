//! What is known of the machine: the CPU's name in a uniform form, and whether
//! it is a laptop.
use vstd::prelude::*;

use crate::gpus::GpuDevice;
use crate::text::{
    ascii_lower, at, begins, byte_len, char_views, chars_of, contains, cut_at, digit, ends,
    ends_with, find, first_at, has_bytes, is_digit, join, joined, lemma_first_at, lower, occurs, prefixed, replace, replaced,
    same, starts_with, string_of, text_of, to_ascii_lower, to_lower, trim_str, trimmed, up_to,
    words, words_of,
};

verus! {

/// The machine.
#[derive(Debug, Clone)]
pub struct HardwareInfo {
    pub cpu_model: Option<String>,
    pub cpu_cores: Option<i32>,
    pub cpu_threads: Option<i32>,
    pub os: Option<String>,
    pub is_laptop: bool,
    /// Every physical GPU, discrete cards first.
    pub gpus: Vec<GpuDevice>,
}

// ---------------------------------------------------------------------------
// The CPU's name

/// A word is an Intel model such as "i9-13950HX".
pub open spec fn intel_word(w: Seq<char>) -> bool {
    (begins(w, "i3-"@) || begins(w, "i5-"@) || begins(w, "i7-"@) || begins(w, "i9-"@)) && byte_len(
        w,
    ) >= 5
}

/// The first Intel model among the words from `i` on, up to a comma.
pub open spec fn intel_model(ws: Seq<Seq<char>>, i: int) -> Option<Seq<char>>
    decreases ws.len() - i,
{
    if i < 0 || i >= ws.len() {
        None
    } else if intel_word(ws[i]) {
        Some(up_to(ws[i], ","@))
    } else {
        intel_model(ws, i + 1)
    }
}

/// An Intel model is the first word of its family with a number behind the
/// hyphen, up to a comma.
pub proof fn lemma_intel_model(ws: Seq<Seq<char>>, i: int)
    requires
        0 <= i <= ws.len(),
    ensures
        match intel_model(ws, i) {
            Some(m) => exists|k: int|
                i <= k < ws.len() && intel_word(#[trigger] ws[k]) && m == up_to(ws[k], ","@)
                    && forall|j: int| i <= j < k ==> !intel_word(#[trigger] ws[j]),
            None => forall|k: int| i <= k < ws.len() ==> !intel_word(#[trigger] ws[k]),
        },
    decreases ws.len() - i,
{
    if i < ws.len() {
        if intel_word(ws[i]) {
            assert(intel_model(ws, i) == Some(up_to(ws[i], ","@)));
        } else {
            lemma_intel_model(ws, i + 1);
        }
    }
}

/// An Intel Core name: "Ultra N XXXXX", else "iN-XXXXX".
pub open spec fn intel_name(s: Seq<char>) -> Option<Seq<char>> {
    let c = replaced(replaced(s, "(R)"@, ""@), "(TM)"@, ""@);
    let ultra = match first_at(c, "Ultra"@, 0) {
        Some(u) => words(c.skip(u)),
        None => Seq::empty(),
    };
    if ultra.len() >= 3 {
        Some(up_to(joined(ultra.take(3), " "@), " CPU"@))
    } else {
        intel_model(words(c), 0)
    }
}

/// The first place from `i` on where the words say `name` in any case and at
/// least `more` follow, or their number.
pub open spec fn word_pick(ws: Seq<Seq<char>>, name: Seq<char>, more: int, i: int) -> int
    decreases ws.len() - i,
{
    if i < 0 || i >= ws.len() || (ascii_lower(ws[i]) == name && i + more < ws.len()) {
        i
    } else {
        word_pick(ws, name, more, i + 1)
    }
}

/// The first word of this name that has enough words behind it.
pub proof fn lemma_word_pick(ws: Seq<Seq<char>>, name: Seq<char>, more: int, i: int)
    requires
        0 <= i <= ws.len(),
        0 <= more,
    ensures
        ({
            let p = word_pick(ws, name, more, i);
            &&& i <= p <= ws.len()
            &&& p < ws.len() ==> ascii_lower(ws[p]) == name && p + more < ws.len()
            &&& forall|j: int|
                i <= j < p ==> !(ascii_lower(#[trigger] ws[j]) == name && j + more < ws.len())
        }),
    decreases ws.len() - i,
{
    if i < ws.len() && !(ascii_lower(ws[i]) == name && i + more < ws.len()) {
        lemma_word_pick(ws, name, more, i + 1);
    }
}

/// Tier and model of a Ryzen, by its name and its name in lower case.
pub open spec fn ryzen_name(s: Seq<char>, low: Seq<char>) -> Option<(Seq<char>, Seq<char>)> {
    let ws = words(s);
    let i = word_pick(ws, "ryzen"@, 2, 0);
    if occurs(low, "ryzen"@) && !occurs(low, "threadripper"@) && i < ws.len() {
        Some((ws[i + 1], ws[i + 2]))
    } else {
        None
    }
}

/// The model of a Threadripper, by its name and its name in lower case.
pub open spec fn threadripper_name(s: Seq<char>, low: Seq<char>) -> Option<Seq<char>> {
    let ws = words(s);
    let i = word_pick(ws, "threadripper"@, 1, 0);
    if occurs(low, "threadripper"@) && i < ws.len() {
        Some(ws[i + 1])
    } else {
        None
    }
}

/// The position of the last blank under `i`, or -1.
pub open spec fn last_blank(s: Seq<char>, i: int) -> int
    decreases i,
{
    if i <= 0 || i > s.len() {
        -1
    } else if s[i - 1] == ' ' {
        i - 1
    } else {
        last_blank(s, i - 1)
    }
}

/// A name without trade marks.
pub open spec fn without_marks(s: Seq<char>) -> Seq<char> {
    replaced(replaced(replaced(s, "(R)"@, ""@), "(TM)"@, ""@), "(tm)"@, ""@)
}

/// A name without "Nth Gen " in front.
pub open spec fn without_generation(s: Seq<char>) -> Seq<char> {
    match first_at(s, "Gen "@, 0) {
        Some(i) => s.skip(i + 4),
        None => s,
    }
}

/// What stands up to a generation goes from a name, and names without one are
/// kept.
pub proof fn lemma_without_generation(s: Seq<char>)
    ensures
        ({
            let r = without_generation(s);
            &&& !occurs(s, "Gen "@) ==> r == s
            &&& occurs(s, "Gen "@) ==> exists|i: int| #[trigger]
                at(s, "Gen "@, i) && r == s.skip(i + 4) && forall|j: int|
                    0 <= j < i ==> !at(s, "Gen "@, j)
        }),
{
    lemma_first_at(s, "Gen "@, 0);
    if occurs(s, "Gen "@) {
        let j = choose|j: int| at(s, "Gen "@, j);
        assert(at(s, "Gen "@, j));
        assert(at(s, "Gen "@, first_at(s, "Gen "@, 0)->0));
    }
}

/// A name without " N-Core Processor" behind.
pub open spec fn without_core_count(s: Seq<char>) -> Seq<char> {
    match first_at(s, "-Core Processor"@, 0) {
        Some(i) if last_blank(s, i) >= 0 => s.take(last_blank(s, i)),
        _ => s,
    }
}

proof fn lemma_last_blank(s: Seq<char>, i: int)
    requires
        0 <= i <= s.len(),
    ensures
        -1 <= last_blank(s, i) < i,
        last_blank(s, i) >= 0 ==> s[last_blank(s, i)] == ' ',
        forall|j: int| last_blank(s, i) < j < i ==> s[j] != ' ',
    decreases i,
{
    if i > 0 && s[i - 1] != ' ' {
        lemma_last_blank(s, i - 1);
    }
}

/// The number of cores goes from a name together with what follows it, and
/// nothing else: what is left is the name's beginning, up to the blank in front
/// of the word that counts the cores.  Names that do not count them are kept.
pub proof fn lemma_without_core_count(s: Seq<char>)
    ensures
        ({
            let r = without_core_count(s);
            &&& !occurs(s, "-Core Processor"@) ==> r == s
            &&& r.len() <= s.len() && r == s.take(r.len() as int)
            &&& r.len() < s.len() ==> s[r.len() as int] == ' ' && exists|i: int|
                r.len() < i && #[trigger] at(s, "-Core Processor"@, i) && forall|j: int|
                    r.len() < j < i ==> s[j] != ' '
        }),
{
    lemma_first_at(s, "-Core Processor"@, 0);
    assert(s.take(s.len() as int) =~= s);
    match first_at(s, "-Core Processor"@, 0) {
        Some(i) => {
            lemma_last_blank(s, i);
            if last_blank(s, i) >= 0 {
                assert(at(s, "-Core Processor"@, i));
            }
        },
        None => {},
    }
}

/// Any other name, tidied.
pub open spec fn tidied(s: Seq<char>) -> Seq<char> {
    let a = without_generation(without_marks(s));
    let b = without_core_count(up_to(a, " CPU @ "@));
    trimmed(replaced(b, "  "@, " "@))
}

/// The CPU's name in its uniform form, by its name and its name in lower case.
pub open spec fn cpu_name(s: Seq<char>, low: Seq<char>) -> Seq<char> {
    match intel_name(s) {
        Some(m) => "Intel Core "@ + m,
        None => match ryzen_name(s, low) {
            Some((tier, model)) => "AMD Ryzen "@ + tier + " "@ + model,
            None => match threadripper_name(s, low) {
                Some(m) => "AMD Ryzen Threadripper "@ + m,
                None => tidied(s),
            },
        },
    }
}

/// A name of Intel's families goes before one of AMD's; a Ryzen is named by the
/// two words behind that word, a Threadripper by the one, and is never taken for
/// a plain Ryzen; any other name is only tidied.
pub proof fn lemma_cpu_name(s: Seq<char>, low: Seq<char>)
    ensures
        ({
            let n = cpu_name(s, low);
            let ws = words(s);
            let ripper = occurs(low, "threadripper"@);
            let r = word_pick(ws, "ryzen"@, 2, 0);
            let t = word_pick(ws, "threadripper"@, 1, 0);
            &&& intel_name(s) is Some ==> n == "Intel Core "@ + intel_name(s)->0
            &&& intel_name(s) is None && occurs(low, "ryzen"@) && !ripper && r < ws.len() ==> n
                == "AMD Ryzen "@ + ws[r + 1] + " "@ + ws[r + 2]
            &&& intel_name(s) is None && ripper && t < ws.len() ==> n == "AMD Ryzen Threadripper "@
                + ws[t + 1]
            &&& intel_name(s) is None && ripper && t >= ws.len() ==> n == tidied(s)
            &&& intel_name(s) is None && !ripper && (r >= ws.len() || !occurs(low, "ryzen"@)) ==> n
                == tidied(s)
        }),
{
}

fn first_three(ws: &Vec<Vec<char>>) -> (r: String)
    requires
        ws.len() >= 3,
    ensures
        r@ == joined(char_views(ws@).take(3), " "@),
{
    let mut three: Vec<Vec<char>> = Vec::new();
    three.push(vstd::slice::slice_to_vec(ws[0].as_slice()));
    three.push(vstd::slice::slice_to_vec(ws[1].as_slice()));
    three.push(vstd::slice::slice_to_vec(ws[2].as_slice()));
    assert(char_views(three@) =~= char_views(ws@).take(3));
    join(&three, " ")
}

fn find_intel(s: &str) -> (r: Option<String>)
    ensures
        text_of(r) == intel_name(s@),
{
    proof {
        reveal_strlit("(R)");
        reveal_strlit("(TM)");
    }
    let a = replace(s, "(R)", "");
    let clean = replace(a.as_str(), "(TM)", "");
    let c: Vec<char> = chars_of(clean.as_str());
    let mark: Vec<char> = chars_of("Ultra");
    match find(c.as_slice(), mark.as_slice(), 0) {
        Some(u) => {
            let rest = vstd::slice::slice_subrange(c.as_slice(), u, c.len());
            assert(rest@ =~= c@.skip(u as int));
            let ws: Vec<Vec<char>> = words_of(rest);
            assert(char_views(ws@).len() == ws@.len());
            if ws.len() >= 3 {
                return Some(cut_at(first_three(&ws).as_str(), " CPU"));
            }
        },
        None => {},
    }
    let ws: Vec<Vec<char>> = words_of(c.as_slice());
    let ghost views = char_views(ws@);
    let mut i: usize = 0;
    while i < ws.len()
        invariant
            i <= ws.len(),
            views == char_views(ws@),
            intel_name(s@) == intel_model(views, 0),
            intel_model(views, 0) == intel_model(views, i as int),
        decreases ws.len() - i,
    {
        assert(views[i as int] == ws@[i as int]@);
        let w = string_of(ws[i].as_slice());
        let p = w.as_str();
        if (starts_with(p, "i3-") || starts_with(p, "i5-") || starts_with(p, "i7-")
            || starts_with(p, "i9-")) && has_bytes(ws[i].as_slice(), 5) {
            return Some(cut_at(p, ","));
        }
        i = i + 1;
    }
    None
}

fn find_word(ws: &Vec<Vec<char>>, name: &str, more: usize) -> (r: usize)
    requires
        more <= 2,
    ensures
        r == word_pick(char_views(ws@), name@, more as int, 0),
        r <= ws.len(),
        r < ws.len() ==> r + more < ws.len(),
{
    let ghost views = char_views(ws@);
    let mut i: usize = 0;
    while i < ws.len()
        invariant
            i <= ws.len(),
            more <= 2,
            views == char_views(ws@),
            word_pick(views, name@, more as int, 0) == word_pick(
                views,
                name@,
                more as int,
                i as int,
            ),
        decreases ws.len() - i,
    {
        assert(views[i as int] == ws@[i as int]@);
        if ws.len() - i > more {
            let w = to_ascii_lower(string_of(ws[i].as_slice()).as_str());
            if same(w.as_str(), name) {
                return i;
            }
        }
        i = i + 1;
    }
    i
}

fn find_ryzen(s: &str, low: &str) -> (r: Option<(String, String)>)
    ensures
        match r {
            Some((a, b)) => ryzen_name(s@, low@) == Some((a@, b@)),
            None => ryzen_name(s@, low@) is None,
        },
{
    if !contains(low, "ryzen") || contains(low, "threadripper") {
        return None;
    }
    let ws: Vec<Vec<char>> = words_of(chars_of(s).as_slice());
    let ghost views = char_views(ws@);
    let i: usize = find_word(&ws, "ryzen", 2);
    if i < ws.len() {
        assert(views[i + 1] == ws@[i + 1]@ && views[i + 2] == ws@[i + 2]@);
        Some((string_of(ws[i + 1].as_slice()), string_of(ws[i + 2].as_slice())))
    } else {
        None
    }
}

fn find_threadripper(s: &str, low: &str) -> (r: Option<String>)
    ensures
        text_of(r) == threadripper_name(s@, low@),
{
    if !contains(low, "threadripper") {
        return None;
    }
    let ws: Vec<Vec<char>> = words_of(chars_of(s).as_slice());
    let ghost views = char_views(ws@);
    let i: usize = find_word(&ws, "threadripper", 1);
    if i < ws.len() {
        assert(views[i + 1] == ws@[i + 1]@);
        Some(string_of(ws[i + 1].as_slice()))
    } else {
        None
    }
}

fn tidy(s: &str) -> (r: String)
    ensures
        r@ == tidied(s@),
{
    proof {
        reveal_strlit("(R)");
        reveal_strlit("(TM)");
        reveal_strlit("(tm)");
        reveal_strlit("  ");
        reveal_strlit("Gen ");
    }
    let a = replace(s, "(R)", "");
    let b = replace(a.as_str(), "(TM)", "");
    let c = replace(b.as_str(), "(tm)", "");
    let cs: Vec<char> = chars_of(c.as_str());
    let mark: Vec<char> = chars_of("Gen ");
    let d = match find(cs.as_slice(), mark.as_slice(), 0) {
        Some(i) => {
            let rest = vstd::slice::slice_subrange(cs.as_slice(), i + 4, cs.len());
            assert(rest@ =~= cs@.skip(i + 4));
            string_of(rest)
        },
        None => c,
    };
    assert(d@ == without_generation(without_marks(s@)));
    let e = cut_at(d.as_str(), " CPU @ ");
    let es: Vec<char> = chars_of(e.as_str());
    let core: Vec<char> = chars_of("-Core Processor");
    let mut f = e.clone();
    match find(es.as_slice(), core.as_slice(), 0) {
        Some(i) => {
            let mut k: usize = i;
            while k > 0 && es[k - 1] != ' '
                invariant
                    k <= i <= es.len(),
                    last_blank(es@, i as int) == last_blank(es@, k as int),
                decreases k,
            {
                k = k - 1;
            }
            if k > 0 {
                let part = vstd::slice::slice_subrange(es.as_slice(), 0, k - 1);
                assert(part@ =~= es@.take(k - 1));
                f = string_of(part);
            }
        },
        None => {},
    }
    assert(f@ == without_core_count(e@));
    trim_str(replace(f.as_str(), "  ", " ").as_str())
}

/// Brings a CPU's name, given as it is and in lower case, into its uniform
/// form.
pub fn uniform_cpu_name(s: &str, low: &str) -> (r: String)
    ensures
        r@ == cpu_name(s@, low@),
{
    match find_intel(s) {
        Some(m) => {
            return prefixed("Intel Core ", m.as_str());
        },
        None => {},
    }
    match find_ryzen(s, low) {
        Some((tier, model)) => {
            let mut r = String::new();
            r.append("AMD Ryzen ");
            r.append(tier.as_str());
            r.append(" ");
            r.append(model.as_str());
            assert(r@ =~= "AMD Ryzen "@ + tier@ + " "@ + model@);
            return r;
        },
        None => {},
    }
    match find_threadripper(s, low) {
        Some(m) => prefixed("AMD Ryzen Threadripper ", m.as_str()),
        None => tidy(s),
    }
}

/// Normalize CPU model name to a consistent format.
///
/// Examples:
///   "13th Gen Intel(R) Core(TM) i9-13950HX" → "Intel Core i9-13950HX"
///   "Intel(R) Core(TM) i7-14700K CPU @ 3.40GHz" → "Intel Core i7-14700K"
///   "AMD Ryzen 9 7950X 16-Core Processor" → "AMD Ryzen 9 7950X"
pub fn normalize_cpu_name(raw: &str) -> (r: String)
    ensures
        r@ == cpu_name(trimmed(raw@), lower(trimmed(raw@))),
{
    let s = trim_str(raw);
    let low = to_lower(s.as_str());
    uniform_cpu_name(s.as_str(), low.as_str())
}

/// The CPU's model, if it has a name.
pub fn cpu_model(brand: Option<&str>) -> (r: Option<String>)
    ensures
        text_of(r) == (match brand {
            Some(b) => {
                let n = cpu_name(trimmed(trimmed(b@)), lower(trimmed(trimmed(b@))));
                if n.len() > 0 {
                    Some(n)
                } else {
                    None
                }
            },
            None => None,
        }),
{
    match brand {
        Some(b) => {
            let n = normalize_cpu_name(trim_str(b).as_str());
            if n.as_str().is_empty() {
                None
            } else {
                Some(n)
            }
        },
        None => None,
    }
}

// ---------------------------------------------------------------------------
// Laptops

/// All of `s` but its last character is digits.
pub open spec fn digits_then_one(s: Seq<char>) -> bool {
    s.len() > 0 && forall|i: int| 0 <= i < s.len() - 1 ==> digit(#[trigger] s[i])
}

/// `s` without commas and closing brackets at its end.
pub open spec fn without_closing(s: Seq<char>) -> Seq<char>
    decreases s.len(),
{
    if s.len() > 0 && (s.last() == ',' || s.last() == ')') {
        without_closing(s.drop_last())
    } else {
        s
    }
}

/// A word is the number of a mobile Radeon: "7900M", "7700S".
pub open spec fn mobile_radeon(w: Seq<char>) -> bool {
    let p = without_closing(w);
    p.len() >= 4 && (p.last() == 'M' || p.last() == 'S') && digits_then_one(p)
}

/// A GPU's name, given as it is and in lower case, is a laptop's.
pub open spec fn laptop_gpu(name: Seq<char>, low: Seq<char>) -> bool {
    ||| occurs(low, "laptop gpu"@)
    ||| occurs(low, "radeon"@) && exists|i: int|
        0 <= i < words(name).len() && mobile_radeon(#[trigger] words(name)[i])
}

/// A word is the model of a mobile Ryzen: "7945HX", "7840U".
pub open spec fn mobile_ryzen(w: Seq<char>) -> bool {
    byte_len(w) >= 5 && (ends(w, "HX"@) || ends(w, "HS"@) || (w.len() >= 2 && (w.last() == 'H'
        || w.last() == 'U') && digit(w[w.len() - 2])))
}

/// A word is the model of a mobile Intel Core: "i7-13700H", "i9-13950HX".
pub open spec fn mobile_intel(w: Seq<char>) -> bool {
    occurs(w, "-"@) && (ends(w, "H"@) || ends(w, "HX"@) || ends(w, "HK"@))
}

/// A word is the model of a mobile Intel Core Ultra: "185H".
pub open spec fn mobile_ultra(w: Seq<char>) -> bool {
    w.len() >= 3 && w.last() == 'H' && digits_then_one(w)
}

/// Which words of a CPU's name say that it is a laptop's: a number with an `H` or
/// a `U` behind it, or a word with `HX` or `HS` at its end, is a Ryzen's; a word
/// with a hyphen and `H`, `HX` or `HK` at its end is an Intel's.  A word that
/// ends in a digit never does, nor does one that ends in `X` with a digit before.
pub proof fn lemma_mobile_words(w: Seq<char>)
    ensures
        mobile_ryzen(w) ==> w.len() >= 2 && (w.last() == 'H' || w.last() == 'U' || (w.last() == 'X'
            && w[w.len() - 2] == 'H') || (w.last() == 'S' && w[w.len() - 2] == 'H')),
        mobile_intel(w) ==> w.last() == 'H' || (w.len() >= 2 && w[w.len() - 2] == 'H' && (w.last()
            == 'X' || w.last() == 'K')),
        mobile_ultra(w) ==> w.last() == 'H',
        w.len() >= 2 && digit(w[w.len() - 2]) && (w.last() == 'H' || w.last() == 'U') && byte_len(w)
            >= 5 ==> mobile_ryzen(w),
        w.len() >= 1 && digit(w.last()) ==> !mobile_ryzen(w) && !mobile_intel(w) && !mobile_ultra(
            w,
        ),
        w.len() >= 2 && w.last() == 'X' && digit(w[w.len() - 2]) ==> !mobile_ryzen(w)
            && !mobile_intel(w) && !mobile_ultra(w),
{
    reveal_strlit("HX");
    reveal_strlit("HS");
    reveal_strlit("H");
    reveal_strlit("HK");
    reveal_strlit("-");
    let n = w.len() as int;
    if n >= 2 {
        let u = w.subrange(n - 2, n);
        assert(u[0] == w[n - 2] && u[1] == w[n - 1]);
    }
    if n >= 1 {
        assert(w.subrange(n - 1, n)[0] == w[n - 1]);
    }
}

/// A CPU's name is a laptop's.
pub open spec fn laptop_cpu(c: Seq<char>, mac: bool) -> bool {
    let ws = words(c);
    ||| occurs(c, "Ryzen"@) && exists|i: int| 0 <= i < ws.len() && mobile_ryzen(#[trigger] ws[i])
    ||| occurs(c, "Intel"@) && exists|i: int| 0 <= i < ws.len() && mobile_intel(#[trigger] ws[i])
    ||| occurs(c, "Intel"@) && occurs(c, "Ultra"@) && exists|i: int|
        0 <= i < ws.len() && mobile_ultra(#[trigger] ws[i])
    ||| mac && begins(c, "Apple M"@)
}

fn is_digits_then_one(s: &[char]) -> (r: bool)
    ensures
        r == digits_then_one(s@),
{
    if s.len() == 0 {
        return false;
    }
    let mut i: usize = 0;
    while i < s.len() - 1
        invariant
            0 < s.len(),
            i <= s.len() - 1,
            forall|j: int| 0 <= j < i ==> digit(#[trigger] s@[j]),
        decreases s.len() - i,
    {
        if !is_digit(s[i]) {
            assert(!digit(s@[i as int]));
            return false;
        }
        i = i + 1;
    }
    true
}

fn is_mobile_radeon(w: &[char]) -> (r: bool)
    ensures
        r == mobile_radeon(w@),
{
    let mut n: usize = w.len();
    assert(w@.take(n as int) =~= w@);
    while n > 0 && (w[n - 1] == ',' || w[n - 1] == ')')
        invariant
            n <= w.len(),
            without_closing(w@) == without_closing(w@.take(n as int)),
        decreases n,
    {
        assert(w@.take(n as int).drop_last() =~= w@.take(n - 1));
        n = n - 1;
    }
    let p = vstd::slice::slice_subrange(w, 0, n);
    assert(p@ =~= w@.take(n as int));
    p.len() >= 4 && (p[p.len() - 1] == 'M' || p[p.len() - 1] == 'S') && is_digits_then_one(p)
}

/// Whether a GPU's name, given as it is and in lower case, is a laptop's.
pub fn is_laptop_gpu(name: &str, low: &str) -> (r: bool)
    ensures
        r == laptop_gpu(name@, low@),
{
    if contains(low, "laptop gpu") {
        return true;
    }
    if !contains(low, "radeon") {
        return false;
    }
    let ws: Vec<Vec<char>> = words_of(chars_of(name).as_slice());
    let ghost views = char_views(ws@);
    let mut i: usize = 0;
    while i < ws.len()
        invariant
            i <= ws.len(),
            views == char_views(ws@),
            views == words(name@),
            occurs(low@, "radeon"@),
            forall|j: int| 0 <= j < i ==> !mobile_radeon(#[trigger] views[j]),
        decreases ws.len() - i,
    {
        assert(views[i as int] == ws@[i as int]@);
        if is_mobile_radeon(ws[i].as_slice()) {
            assert(mobile_radeon(words(name@)[i as int]));
            return true;
        }
        i = i + 1;
    }
    false
}

fn is_mobile_ryzen(w: &[char]) -> (r: bool)
    ensures
        r == mobile_ryzen(w@),
{
    if !has_bytes(w, 5) {
        return false;
    }
    let s = string_of(w);
    if ends_with(s.as_str(), "HX") || ends_with(s.as_str(), "HS") {
        return true;
    }
    w.len() >= 2 && (w[w.len() - 1] == 'H' || w[w.len() - 1] == 'U') && is_digit(w[w.len() - 2])
}

fn is_mobile_intel(w: &[char]) -> (r: bool)
    ensures
        r == mobile_intel(w@),
{
    let s = string_of(w);
    contains(s.as_str(), "-") && (ends_with(s.as_str(), "H") || ends_with(s.as_str(), "HX")
        || ends_with(s.as_str(), "HK"))
}

/// Whether a CPU's name is a laptop's.
pub fn is_laptop_cpu(c: &str, mac: bool) -> (r: bool)
    ensures
        r == laptop_cpu(c@, mac),
{
    let ws: Vec<Vec<char>> = words_of(chars_of(c).as_slice());
    let ghost views = char_views(ws@);
    let ryzen = contains(c, "Ryzen");
    let intel = contains(c, "Intel");
    let ultra = contains(c, "Ultra");
    let mut i: usize = 0;
    while i < ws.len()
        invariant
            i <= ws.len(),
            views == char_views(ws@),
            views == words(c@),
            ryzen == occurs(c@, "Ryzen"@),
            intel == occurs(c@, "Intel"@),
            ultra == occurs(c@, "Ultra"@),
            forall|j: int| 0 <= j < i ==> !(ryzen && mobile_ryzen(#[trigger] views[j])),
            forall|j: int| 0 <= j < i ==> !(intel && mobile_intel(#[trigger] views[j])),
            forall|j: int| 0 <= j < i ==> !(intel && ultra && mobile_ultra(#[trigger] views[j])),
        decreases ws.len() - i,
    {
        assert(views[i as int] == ws@[i as int]@);
        let w = ws[i].as_slice();
        if ryzen && is_mobile_ryzen(w) {
            assert(mobile_ryzen(words(c@)[i as int]));
            return true;
        }
        if intel && is_mobile_intel(w) {
            assert(mobile_intel(words(c@)[i as int]));
            return true;
        }
        if intel && ultra && w.len() >= 3 && w[w.len() - 1] == 'H' && is_digits_then_one(w) {
            assert(mobile_ultra(words(c@)[i as int]));
            return true;
        }
        i = i + 1;
    }
    mac && starts_with(c, "Apple M")
}

/// One of the GPUs is a laptop's.
pub open spec fn any_laptop_gpu(gpus: Seq<GpuDevice>) -> bool {
    exists|i: int|
        0 <= i < gpus.len() && laptop_gpu((#[trigger] gpus[i]).name@, lower(gpus[i].name@))
}

/// A machine is a laptop exactly where one of its cards or its CPU has a laptop's
/// name, or it has a battery.
pub open spec fn laptop_signs(
    cpu: Option<Seq<char>>,
    gpus: Seq<GpuDevice>,
    mac: bool,
    battery: bool,
) -> bool {
    any_laptop_gpu(gpus) || (cpu is Some && laptop_cpu(cpu->0, mac)) || battery
}

/// A battery alone makes a laptop, and so does one card with a laptop's name;
/// without either, and without a CPU's name, there is none.
pub proof fn lemma_laptop_signs(
    cpu: Option<Seq<char>>,
    gpus: Seq<GpuDevice>,
    mac: bool,
    battery: bool,
    i: int,
)
    ensures
        battery ==> laptop_signs(cpu, gpus, mac, battery),
        0 <= i < gpus.len() && occurs(lower(gpus[i].name@), "laptop gpu"@) ==> laptop_signs(
            cpu,
            gpus,
            mac,
            battery,
        ),
        gpus.len() == 0 && cpu is None ==> (laptop_signs(cpu, gpus, mac, battery) <==> battery),
        mac && cpu is Some && begins(cpu->0, "Apple M"@) ==> laptop_signs(cpu, gpus, mac, battery),
{
    if 0 <= i < gpus.len() && occurs(lower(gpus[i].name@), "laptop gpu"@) {
        assert(laptop_gpu(gpus[i].name@, lower(gpus[i].name@)));
    }
}

/// Detect whether the system is a laptop: by the names of its GPUs (most
/// reliable) and of its CPU, else by whether it has a battery.
pub fn detect_is_laptop(
    cpu: Option<&str>,
    gpus: &Vec<GpuDevice>,
    mac: bool,
    battery: bool,
) -> (r: bool)
    ensures
        r == laptop_signs(
            match cpu {
                Some(c) => Some(c@),
                None => None,
            },
            gpus@,
            mac,
            battery,
        ),
{
    let mut i: usize = 0;
    while i < gpus.len()
        invariant
            i <= gpus.len(),
            forall|j: int|
                0 <= j < i ==> !laptop_gpu((#[trigger] gpus@[j]).name@, lower(gpus@[j].name@)),
        decreases gpus.len() - i,
    {
        let low = to_lower(gpus[i].name.as_str());
        if is_laptop_gpu(gpus[i].name.as_str(), low.as_str()) {
            return true;
        }
        i = i + 1;
    }
    match cpu {
        Some(c) => {
            if is_laptop_cpu(c, mac) {
                return true;
            }
        },
        None => {},
    }
    battery
}

} // verus!
