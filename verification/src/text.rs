//! Text as a sequence of characters: searching, trimming, splitting and
//! putting it together.
use vstd::prelude::*;

verus! {

/// `String::push` appends one character.
pub assume_specification[ String::push ](s: &mut String, c: char)
    ensures
        final(s)@ == old(s)@.push(c),
;

/// The contents of an optional text.
pub open spec fn text_of(s: Option<String>) -> Option<Seq<char>> {
    match s {
        Some(x) => Some(x@),
        None => None,
    }
}

/// The characters of a text.
pub fn chars_of(s: &str) -> (r: Vec<char>)
    ensures
        r@ == s@,
{
    let mut r: Vec<char> = Vec::new();
    for c in it: s.chars()
        invariant
            r@ == s@.take(it.index()),
            it.seq() == s@,
    {
        r.push(c);
    }
    assert(s@.take(s@.len() as int) =~= s@);
    r
}

/// The text made of the given characters.
pub fn string_of(cs: &[char]) -> (r: String)
    ensures
        r@ == cs@,
{
    let mut r = String::new();
    let mut i: usize = 0;
    while i < cs.len()
        invariant
            i <= cs.len(),
            r@ == cs@.take(i as int),
        decreases cs.len() - i,
    {
        r.push(cs[i]);
        i = i + 1;
        assert(cs@.take(i as int) =~= cs@.take(i - 1).push(cs@[i - 1]));
    }
    assert(cs@.take(cs@.len() as int) =~= cs@);
    r
}


// ---------------------------------------------------------------------------
// Searching

/// `needle` stands in `hay` at position `i`.
pub open spec fn at(hay: Seq<char>, needle: Seq<char>, i: int) -> bool {
    0 <= i && i + needle.len() <= hay.len() && hay.subrange(i, i + needle.len()) =~= needle
}

/// `needle` stands somewhere in `hay`.
pub open spec fn occurs(hay: Seq<char>, needle: Seq<char>) -> bool {
    exists|i: int| at(hay, needle, i)
}

/// The first position from `from` on at which `needle` stands in `hay`.
pub open spec fn first_at(hay: Seq<char>, needle: Seq<char>, from: int) -> Option<int>
    decreases hay.len() - from,
{
    if from < 0 || from + needle.len() > hay.len() {
        None
    } else if at(hay, needle, from) {
        Some(from)
    } else {
        first_at(hay, needle, from + 1)
    }
}

/// `first_at` finds an occurrence if there is one, and the leftmost.
pub proof fn lemma_first_at(hay: Seq<char>, needle: Seq<char>, from: int)
    requires
        0 <= from,
    ensures
        match first_at(hay, needle, from) {
            Some(i) => from <= i && at(hay, needle, i) && forall|j: int|
                from <= j < i ==> !at(hay, needle, j),
            None => forall|j: int| from <= j ==> !at(hay, needle, j),
        },
    decreases hay.len() - from,
{
    if from + needle.len() > hay.len() {
    } else if at(hay, needle, from) {
    } else {
        lemma_first_at(hay, needle, from + 1);
    }
}

/// Whether `needle` stands in `hay` at `i`.
pub fn is_at(hay: &[char], needle: &[char], i: usize) -> (r: bool)
    ensures
        r == at(hay@, needle@, i as int),
{
    if i > hay.len() || needle.len() > hay.len() - i {
        return false;
    }
    let mut k: usize = 0;
    while k < needle.len()
        invariant
            k <= needle.len(),
            i + needle.len() <= hay.len(),
            forall|j: int| 0 <= j < k ==> hay@[i + j] == needle@[j],
        decreases needle.len() - k,
    {
        if hay[i + k] != needle[k] {
            assert(hay@.subrange(i as int, i + needle.len())[k as int] == hay@[i + k]);
            return false;
        }
        k = k + 1;
    }
    true
}

/// The first position from `from` on at which `needle` stands in `hay`.
pub fn find(hay: &[char], needle: &[char], from: usize) -> (r: Option<usize>)
    ensures
        r is Some <==> first_at(hay@, needle@, from as int) is Some,
        r is Some ==> first_at(hay@, needle@, from as int) == Some(r->0 as int),
        r is Some ==> from <= r->0 && r->0 + needle.len() <= hay.len(),
{
    if from > hay.len() || needle.len() > hay.len() - from {
        return None;
    }
    let mut i: usize = from;
    while i <= hay.len() - needle.len()
        invariant
            from <= i,
            needle.len() <= hay.len(),
            i <= hay.len() - needle.len() + 1,
            first_at(hay@, needle@, from as int) == first_at(hay@, needle@, i as int),
        decreases hay.len() - needle.len() + 1 - i,
    {
        if is_at(hay, needle, i) {
            return Some(i);
        }
        assert(needle.len() > 0) by {
            if needle.len() == 0 {
                assert(hay@.subrange(i as int, i as int) =~= needle@);
            }
        }
        i = i + 1;
    }
    None
}

/// Whether `needle` stands somewhere in `hay`.
pub fn contains(hay: &str, needle: &str) -> (r: bool)
    ensures
        r == occurs(hay@, needle@),
{
    let h: Vec<char> = chars_of(hay);
    let n: Vec<char> = chars_of(needle);
    proof {
        lemma_first_at(hay@, needle@, 0);
    }
    find(h.as_slice(), n.as_slice(), 0).is_some()
}

/// `s` begins with `prefix`.
pub open spec fn begins(s: Seq<char>, prefix: Seq<char>) -> bool {
    at(s, prefix, 0)
}

/// `s` ends in `suffix`.
pub open spec fn ends(s: Seq<char>, suffix: Seq<char>) -> bool {
    at(s, suffix, s.len() - suffix.len())
}

/// Whether `s` begins with `prefix`.
pub fn starts_with(s: &str, prefix: &str) -> (r: bool)
    ensures
        r == begins(s@, prefix@),
{
    is_at(chars_of(s).as_slice(), chars_of(prefix).as_slice(), 0)
}

/// Whether `s` ends in `suffix`.
pub fn ends_with(s: &str, suffix: &str) -> (r: bool)
    ensures
        r == ends(s@, suffix@),
{
    let h: Vec<char> = chars_of(s);
    let n: Vec<char> = chars_of(suffix);
    if n.len() > h.len() {
        return false;
    }
    is_at(h.as_slice(), n.as_slice(), h.len() - n.len())
}

/// Whether two texts are the same.
pub fn same(a: &str, b: &str) -> (r: bool)
    ensures
        r == (a@ == b@),
{
    let x: Vec<char> = chars_of(a);
    let y: Vec<char> = chars_of(b);
    if x.len() != y.len() {
        return false;
    }
    let r = is_at(x.as_slice(), y.as_slice(), 0);
    assert(a@.subrange(0, a@.len() as int) =~= a@);
    r
}

// ---------------------------------------------------------------------------
// Character classes

/// White space as Unicode defines it.
pub open spec fn white(c: char) -> bool {
    ||| '\u{9}' <= c <= '\u{d}'
    ||| c == '\u{20}'
    ||| c == '\u{85}'
    ||| c == '\u{a0}'
    ||| c == '\u{1680}'
    ||| '\u{2000}' <= c <= '\u{200a}'
    ||| c == '\u{2028}'
    ||| c == '\u{2029}'
    ||| c == '\u{202f}'
    ||| c == '\u{205f}'
    ||| c == '\u{3000}'
}

/// Whether a character is white space.
pub fn is_white(c: char) -> (r: bool)
    ensures
        r == white(c),
{
    ('\u{9}' <= c && c <= '\u{d}') || c == '\u{20}' || c == '\u{85}' || c == '\u{a0}' || c
        == '\u{1680}' || ('\u{2000}' <= c && c <= '\u{200a}') || c == '\u{2028}' || c == '\u{2029}'
        || c == '\u{202f}' || c == '\u{205f}' || c == '\u{3000}'
}

/// A control character.
pub open spec fn control(c: char) -> bool {
    c <= '\u{1f}' || '\u{7f}' <= c <= '\u{9f}'
}

/// Whether a character is a control character.
pub fn is_control(c: char) -> (r: bool)
    ensures
        r == control(c),
{
    c <= '\u{1f}' || ('\u{7f}' <= c && c <= '\u{9f}')
}

/// A decimal digit of ASCII.
pub open spec fn digit(c: char) -> bool {
    '0' <= c <= '9'
}

/// Whether a character is a decimal digit of ASCII.
pub fn is_digit(c: char) -> (r: bool)
    ensures
        r == digit(c),
{
    '0' <= c && c <= '9'
}

/// A letter or digit of ASCII.
pub open spec fn ascii_alphanumeric(c: char) -> bool {
    digit(c) || 'a' <= c <= 'z' || 'A' <= c <= 'Z'
}

/// What `char::is_alphanumeric` says of a character.
pub uninterp spec fn unicode_alphanumeric(c: char) -> bool;

/// `char::is_alphanumeric`: the Unicode tables of letters and numbers, which
/// are too long to state; the same character always gives the same answer.
#[verifier::external_body]
fn unicode_is_alphanumeric(c: char) -> (r: bool)
    ensures
        r == unicode_alphanumeric(c),
{
    c.is_alphanumeric()
}

/// A letter or a number in any script.
pub open spec fn alphanumeric(c: char) -> bool {
    if c <= '\u{7f}' {
        ascii_alphanumeric(c)
    } else {
        unicode_alphanumeric(c)
    }
}

/// Whether a character is a letter or a number in any script.
pub fn is_alphanumeric(c: char) -> (r: bool)
    ensures
        r == alphanumeric(c),
{
    if c <= '\u{7f}' {
        is_digit(c) || ('a' <= c && c <= 'z') || ('A' <= c && c <= 'Z')
    } else {
        unicode_is_alphanumeric(c)
    }
}


// ---------------------------------------------------------------------------
// Trimming

/// `s` without the white space in front.
pub open spec fn trimmed_start(s: Seq<char>) -> Seq<char>
    decreases s.len(),
{
    if s.len() > 0 && white(s[0]) {
        trimmed_start(s.skip(1))
    } else {
        s
    }
}

/// `s` without the white space behind.
pub open spec fn trimmed_end(s: Seq<char>) -> Seq<char>
    decreases s.len(),
{
    if s.len() > 0 && white(s.last()) {
        trimmed_end(s.drop_last())
    } else {
        s
    }
}

/// `s` without the white space at both ends.
pub open spec fn trimmed(s: Seq<char>) -> Seq<char> {
    trimmed_end(trimmed_start(s))
}

/// A text with no white space at its ends is trimmed already.
pub proof fn lemma_trimmed_already(s: Seq<char>)
    requires
        s.len() > 0 ==> !white(s[0]) && !white(s.last()),
    ensures
        trimmed(s) == s,
{
}

proof fn lemma_trimmed_start(s: Seq<char>)
    ensures
        trimmed_start(s).len() <= s.len(),
        trimmed_start(s).len() > 0 ==> !white(trimmed_start(s)[0]),
    decreases s.len(),
{
    if s.len() > 0 && white(s[0]) {
        lemma_trimmed_start(s.skip(1));
    }
}

proof fn lemma_trimmed_end(s: Seq<char>)
    requires
        s.len() > 0 ==> !white(s[0]),
    ensures
        trimmed_end(s).len() <= s.len(),
        trimmed_end(s).len() > 0 ==> !white(trimmed_end(s)[0]) && !white(trimmed_end(s).last()),
    decreases s.len(),
{
    if s.len() > 0 && white(s.last()) {
        assert(s.drop_last().len() > 0 ==> s.drop_last()[0] == s[0]);
        lemma_trimmed_end(s.drop_last());
    }
}

/// Trimming twice does no more than trimming once.
pub proof fn lemma_trimmed(s: Seq<char>)
    ensures
        trimmed(s).len() <= s.len(),
        trimmed(trimmed(s)) == trimmed(s),
{
    lemma_trimmed_start(s);
    lemma_trimmed_end(trimmed_start(s));
    lemma_trimmed_already(trimmed(s));
}

/// Cuts the white space in front.
pub fn trim_start<'a>(s: &'a [char]) -> (r: &'a [char])
    ensures
        r@ == trimmed_start(s@),
        r@.len() <= s@.len(),
{
    let mut i: usize = 0;
    assert(s@.skip(0) =~= s@);
    while i < s.len() && is_white(s[i])
        invariant
            i <= s.len(),
            trimmed_start(s@) == trimmed_start(s@.skip(i as int)),
        decreases s.len() - i,
    {
        assert(s@.skip(i as int).skip(1) =~= s@.skip(i + 1));
        i = i + 1;
    }
    let r = vstd::slice::slice_subrange(s, i, s.len());
    assert(r@ =~= s@.skip(i as int));
    r
}

/// Cuts the white space behind.
pub fn trim_end<'a>(s: &'a [char]) -> (r: &'a [char])
    ensures
        r@ == trimmed_end(s@),
        r@.len() <= s@.len(),
{
    let mut n: usize = s.len();
    assert(s@.take(n as int) =~= s@);
    while n > 0 && is_white(s[n - 1])
        invariant
            n <= s.len(),
            trimmed_end(s@) == trimmed_end(s@.take(n as int)),
        decreases n,
    {
        assert(s@.take(n as int).drop_last() =~= s@.take(n - 1));
        n = n - 1;
    }
    let r = vstd::slice::slice_subrange(s, 0, n);
    assert(r@ =~= s@.take(n as int));
    r
}

/// Cuts the white space at both ends.
pub fn trim<'a>(s: &'a [char]) -> (r: &'a [char])
    ensures
        r@ == trimmed(s@),
        r@.len() <= s@.len(),
{
    trim_end(trim_start(s))
}

/// Cuts the white space at both ends of a text.
pub fn trim_str(s: &str) -> (r: String)
    ensures
        r@ == trimmed(s@),
{
    string_of(trim(chars_of(s).as_slice()))
}

// ---------------------------------------------------------------------------
// Splitting

/// The position of the first `c` from `i` on, or the length.
pub open spec fn next_char(s: Seq<char>, c: char, i: int) -> int
    decreases s.len() - i,
{
    if i < 0 || i >= s.len() || s[i] == c {
        i
    } else {
        next_char(s, c, i + 1)
    }
}

/// `next_char` stays within the text.
pub proof fn lemma_next_char(s: Seq<char>, c: char, i: int)
    requires
        0 <= i <= s.len(),
    ensures
        i <= next_char(s, c, i) <= s.len(),
        next_char(s, c, i) < s.len() ==> s[next_char(s, c, i)] == c,
        forall|j: int| i <= j < next_char(s, c, i) ==> s[j] != c,
    decreases s.len() - i,
{
    if i < s.len() && s[i] != c {
        lemma_next_char(s, c, i + 1);
    }
}

/// The position of the first `c` from `i` on, or the length.
pub fn find_char(s: &[char], c: char, i: usize) -> (r: usize)
    requires
        i <= s.len(),
    ensures
        r == next_char(s@, c, i as int),
        i <= r <= s.len(),
{
    let mut k: usize = i;
    while k < s.len() && s[k] != c
        invariant
            i <= k <= s.len(),
            next_char(s@, c, i as int) == next_char(s@, c, k as int),
        decreases s.len() - k,
    {
        k = k + 1;
    }
    k
}

/// The parts of `s` from `i` on between the separators `c`.
pub open spec fn split_from(s: Seq<char>, c: char, i: int) -> Seq<Seq<char>>
    decreases s.len() - i,
{
    if i < 0 || i > s.len() {
        Seq::empty()
    } else {
        let k = next_char(s, c, i);
        if i <= k < s.len() {
            seq![s.subrange(i, k)] + split_from(s, c, k + 1)
        } else {
            seq![s.subrange(i, s.len() as int)]
        }
    }
}

/// The parts of `s` between the separators `c`.
pub open spec fn split(s: Seq<char>, c: char) -> Seq<Seq<char>> {
    split_from(s, c, 0)
}

/// The views of a list of character lists.
pub open spec fn char_views(v: Seq<Vec<char>>) -> Seq<Seq<char>> {
    v.map_values(|x: Vec<char>| x@)
}

/// Splits at every `c`.
pub fn split_at_char(s: &[char], c: char) -> (r: Vec<Vec<char>>)
    ensures
        char_views(r@) == split(s@, c),
{
    let mut r: Vec<Vec<char>> = Vec::new();
    let mut i: usize = 0;
    let mut done = false;
    assert(char_views(r@) =~= Seq::empty());
    assert(Seq::<Seq<char>>::empty() + split_from(s@, c, 0) =~= split_from(s@, c, 0));
    while !done
        invariant
            !done ==> i <= s.len(),
            !done ==> char_views(r@) + split_from(s@, c, i as int) == split(s@, c),
            done ==> char_views(r@) == split(s@, c),
        decreases (if done { 0 } else { s.len() - i + 1 }),
    {
        let k: usize = find_char(s, c, i);
        proof {
            lemma_next_char(s@, c, i as int);
        }
        let part: Vec<char> = vstd::slice::slice_to_vec(vstd::slice::slice_subrange(s, i, k));
        let ghost before = char_views(r@);
        r.push(part);
        assert(char_views(r@) =~= before.push(s@.subrange(i as int, k as int)));
        if k < s.len() {
            assert(before + (seq![s@.subrange(i as int, k as int)] + split_from(s@, c, k + 1))
                =~= char_views(r@) + split_from(s@, c, k + 1));
            i = k + 1;
        } else {
            assert(before + seq![s@.subrange(i as int, k as int)] =~= char_views(r@));
            done = true;
        }
    }
    r
}

/// A line without the line end that a feed completed: `\n` or `\r\n`.
pub open spec fn without_return(s: Seq<char>) -> Seq<char> {
    if s.len() > 0 && s.last() == '\r' {
        s.drop_last()
    } else {
        s
    }
}

/// The lines of `s` from `i` on.  The end of the last line is optional.
pub open spec fn lines_from(s: Seq<char>, i: int) -> Seq<Seq<char>>
    decreases s.len() - i,
{
    if i < 0 || i >= s.len() {
        Seq::empty()
    } else {
        let k = next_char(s, '\n', i);
        if i <= k < s.len() {
            seq![without_return(s.subrange(i, k))] + lines_from(s, k + 1)
        } else {
            seq![s.subrange(i, s.len() as int)]
        }
    }
}

/// The lines of `s`.
pub open spec fn lines(s: Seq<char>) -> Seq<Seq<char>> {
    lines_from(s, 0)
}

/// Splits a text into its lines.
pub fn lines_of(s: &[char]) -> (r: Vec<Vec<char>>)
    ensures
        char_views(r@) == lines(s@),
{
    let mut r: Vec<Vec<char>> = Vec::new();
    let mut i: usize = 0;
    assert(char_views(r@) =~= Seq::empty());
    assert(Seq::<Seq<char>>::empty() + lines_from(s@, 0) =~= lines_from(s@, 0));
    while i < s.len()
        invariant
            i <= s.len(),
            char_views(r@) + lines_from(s@, i as int) == lines(s@),
        decreases s.len() - i,
    {
        let k: usize = find_char(s, '\n', i);
        proof {
            lemma_next_char(s@, '\n', i as int);
        }
        let mut end: usize = k;
        if k < s.len() && k > i && s[k - 1] == '\r' {
            end = k - 1;
        }
        let part: Vec<char> = vstd::slice::slice_to_vec(vstd::slice::slice_subrange(s, i, end));
        let ghost before = char_views(r@);
        let ghost cut = s@.subrange(i as int, k as int);
        assert(part@ =~= if k < s.len() {
            without_return(cut)
        } else {
            cut
        });
        r.push(part);
        assert(char_views(r@) =~= before.push(part@));
        if k < s.len() {
            assert(before + (seq![part@] + lines_from(s@, k + 1)) =~= char_views(r@) + lines_from(
                s@,
                k + 1,
            ));
            i = k + 1;
        } else {
            assert(before + seq![part@] =~= char_views(r@) + lines_from(s@, k as int));
            i = k;
        }
    }
    assert(char_views(r@) + Seq::<Seq<char>>::empty() =~= char_views(r@));
    r
}

/// The position of the first white space from `i` on, or the length.
pub open spec fn next_white(s: Seq<char>, i: int) -> int
    decreases s.len() - i,
{
    if i < 0 || i >= s.len() || white(s[i]) {
        i
    } else {
        next_white(s, i + 1)
    }
}

/// `next_white` stays within the text and moves past what is not white.
pub proof fn lemma_next_white(s: Seq<char>, i: int)
    requires
        0 <= i <= s.len(),
    ensures
        i <= next_white(s, i) <= s.len(),
        i < s.len() && !white(s[i]) ==> i < next_white(s, i),
    decreases s.len() - i,
{
    if i < s.len() && !white(s[i]) {
        lemma_next_white(s, i + 1);
    }
}

/// The words of `s` from `i` on: the longest runs without white space.
pub open spec fn words_from(s: Seq<char>, i: int) -> Seq<Seq<char>>
    decreases s.len() - i,
{
    if i < 0 || i >= s.len() {
        Seq::empty()
    } else if white(s[i]) {
        words_from(s, i + 1)
    } else {
        let k = next_white(s, i);
        if i < k <= s.len() {
            seq![s.subrange(i, k)] + words_from(s, k)
        } else {
            Seq::empty()
        }
    }
}

/// The words of `s`.
pub open spec fn words(s: Seq<char>) -> Seq<Seq<char>> {
    words_from(s, 0)
}

/// Splits a text at its white space.
pub fn words_of(s: &[char]) -> (r: Vec<Vec<char>>)
    ensures
        char_views(r@) == words(s@),
{
    let mut r: Vec<Vec<char>> = Vec::new();
    let mut i: usize = 0;
    assert(char_views(r@) =~= Seq::empty());
    assert(Seq::<Seq<char>>::empty() + words_from(s@, 0) =~= words_from(s@, 0));
    while i < s.len()
        invariant
            i <= s.len(),
            char_views(r@) + words_from(s@, i as int) == words(s@),
        decreases s.len() - i,
    {
        if is_white(s[i]) {
            i = i + 1;
        } else {
            let start: usize = i;
            let mut k: usize = i;
            while k < s.len() && !is_white(s[k])
                invariant
                    start <= k <= s.len(),
                    next_white(s@, start as int) == next_white(s@, k as int),
                decreases s.len() - k,
            {
                k = k + 1;
            }
            proof {
                lemma_next_white(s@, start as int);
            }
            let part: Vec<char> = vstd::slice::slice_to_vec(vstd::slice::slice_subrange(s, i, k));
            let ghost before = char_views(r@);
            r.push(part);
            assert(char_views(r@) =~= before.push(part@));
            assert(before + (seq![part@] + words_from(s@, k as int)) =~= char_views(r@)
                + words_from(s@, k as int));
            i = k;
        }
    }
    assert(char_views(r@) + Seq::<Seq<char>>::empty() =~= char_views(r@));
    r
}


// ---------------------------------------------------------------------------
// Putting together

/// The parts with `sep` between each two.
pub open spec fn joined(parts: Seq<Seq<char>>, sep: Seq<char>) -> Seq<char>
    decreases parts.len(),
{
    if parts.len() == 0 {
        Seq::empty()
    } else if parts.len() == 1 {
        parts[0]
    } else {
        joined(parts.drop_last(), sep) + sep + parts.last()
    }
}

/// Joins the parts with `sep` between each two.
pub fn join(parts: &Vec<Vec<char>>, sep: &str) -> (r: String)
    ensures
        r@ == joined(char_views(parts@), sep@),
{
    let mut r = String::new();
    let mut i: usize = 0;
    let ghost all = char_views(parts@);
    while i < parts.len()
        invariant
            i <= parts.len(),
            all == char_views(parts@),
            r@ == joined(all.take(i as int), sep@),
        decreases parts.len() - i,
    {
        if i > 0 {
            r.append(sep);
        }
        let part = string_of(parts[i].as_slice());
        r.append(part.as_str());
        i = i + 1;
        proof {
            assert(all.take(i as int).drop_last() =~= all.take(i - 1));
            assert(all.take(i as int).last() == parts@[i - 1]@);
            assert(joined(all.take(0), sep@) =~= Seq::empty());
            if i == 1 {
                assert(r@ =~= parts@[0]@);
            }
        }
    }
    assert(all.take(all.len() as int) =~= all);
    r
}

/// `s` from `i` on with every `from` replaced by `to`, found from the left
/// without overlap.
pub open spec fn replaced_from(
    s: Seq<char>,
    from: Seq<char>,
    to: Seq<char>,
    i: int,
) -> Seq<char>
    decreases s.len() - i,
{
    if i < 0 || i >= s.len() {
        Seq::empty()
    } else if from.len() > 0 && at(s, from, i) {
        to + replaced_from(s, from, to, i + from.len())
    } else {
        seq![s[i]] + replaced_from(s, from, to, i + 1)
    }
}

/// `s` with every `from` replaced by `to`.
pub open spec fn replaced(s: Seq<char>, from: Seq<char>, to: Seq<char>) -> Seq<char> {
    replaced_from(s, from, to, 0)
}

/// A text stays the same where what is replaced begins with a character that
/// it does not hold.
pub proof fn lemma_nothing_replaced(s: Seq<char>, from: Seq<char>, to: Seq<char>, i: int)
    requires
        0 <= i <= s.len(),
        from.len() > 0,
        forall|j: int| 0 <= j < s.len() ==> #[trigger] s[j] != from[0],
    ensures
        replaced_from(s, from, to, i) == s.skip(i),
    decreases s.len() - i,
{
    if i < s.len() {
        lemma_nothing_replaced(s, from, to, i + 1);
        if at(s, from, i) {
            assert(s.subrange(i, i + from.len())[0] == s[i]);
        }
        assert(seq![s[i]] + s.skip(i + 1) =~= s.skip(i));
    } else {
        assert(s.skip(i) =~= Seq::empty());
    }
}

/// What holds of each character of a text, but of one that is replaced, and of
/// what it is replaced by, holds of the result.
pub proof fn lemma_replaced_all(
    s: Seq<char>,
    from: Seq<char>,
    to: Seq<char>,
    p: spec_fn(char) -> bool,
    i: int,
)
    requires
        0 <= i,
        forall|j: int| 0 <= j < s.len() ==> p(#[trigger] s[j]) || from == seq![s[j]],
        forall|j: int| 0 <= j < to.len() ==> p(#[trigger] to[j]),
    ensures
        forall|j: int|
            0 <= j < replaced_from(s, from, to, i).len() ==> p(
                #[trigger] replaced_from(s, from, to, i)[j],
            ),
    decreases s.len() - i,
{
    if i < s.len() {
        let r = replaced_from(s, from, to, i);
        if from.len() > 0 && at(s, from, i) {
            lemma_replaced_all(s, from, to, p, i + from.len());
            let rest = replaced_from(s, from, to, i + from.len());
            assert forall|j: int| 0 <= j < r.len() implies p(#[trigger] r[j]) by {
                if j < to.len() {
                    assert(r[j] == to[j]);
                } else {
                    assert(r[j] == rest[j - to.len()]);
                }
            }
        } else {
            lemma_replaced_all(s, from, to, p, i + 1);
            let rest = replaced_from(s, from, to, i + 1);
            assert(p(s[i])) by {
                if from == seq![s[i]] {
                    assert(s.subrange(i, i + 1) =~= from);
                    assert(at(s, from, i));
                }
            }
            assert forall|j: int| 0 <= j < r.len() implies p(#[trigger] r[j]) by {
                if j > 0 {
                    assert(r[j] == rest[j - 1]);
                }
            }
        }
    }
}

/// Replaces every `from` by `to`.
pub fn replace(s: &str, from: &str, to: &str) -> (r: String)
    requires
        from@.len() > 0,
    ensures
        r@ == replaced(s@, from@, to@),
{
    let cs: Vec<char> = chars_of(s);
    let f: Vec<char> = chars_of(from);
    let mut r = String::new();
    let mut i: usize = 0;
    assert(r@ + replaced_from(s@, from@, to@, 0) =~= replaced_from(s@, from@, to@, 0));
    while i < cs.len()
        invariant
            i <= cs.len(),
            cs@ == s@,
            f@ == from@,
            from@.len() > 0,
            r@ + replaced_from(s@, from@, to@, i as int) == replaced(s@, from@, to@),
        decreases cs.len() - i,
    {
        let ghost before = r@;
        if is_at(cs.as_slice(), f.as_slice(), i) {
            r.append(to);
            assert(before + (to@ + replaced_from(s@, from@, to@, i + from@.len())) =~= r@
                + replaced_from(s@, from@, to@, i + from@.len()));
            i = i + f.len();
        } else {
            r.push(cs[i]);
            assert(before + (seq![cs@[i as int]] + replaced_from(s@, from@, to@, i + 1)) =~= r@
                + replaced_from(s@, from@, to@, i + 1));
            i = i + 1;
        }
    }
    assert(r@ + Seq::<char>::empty() =~= r@);
    r
}

/// A character with the letters of ASCII in lower case.
pub open spec fn ascii_lower_char(c: char) -> char {
    if 'A' <= c <= 'Z' {
        (c as u8 + 32) as u8 as char
    } else {
        c
    }
}

/// `s` with the letters of ASCII in lower case.
pub open spec fn ascii_lower(s: Seq<char>) -> Seq<char> {
    s.map_values(|c: char| ascii_lower_char(c))
}

/// Turns the letters of ASCII to lower case.
pub fn to_ascii_lower(s: &str) -> (r: String)
    ensures
        r@ == ascii_lower(s@),
{
    let cs: Vec<char> = chars_of(s);
    let mut r = String::new();
    let mut i: usize = 0;
    while i < cs.len()
        invariant
            i <= cs.len(),
            cs@ == s@,
            r@ == ascii_lower(s@).take(i as int),
        decreases cs.len() - i,
    {
        let c = cs[i];
        if 'A' <= c && c <= 'Z' {
            r.push((c as u8 + 32) as char);
        } else {
            r.push(c);
        }
        i = i + 1;
        assert(ascii_lower(s@).take(i as int) =~= ascii_lower(s@).take(i - 1).push(
            ascii_lower(s@)[i - 1],
        ));
    }
    assert(ascii_lower(s@).take(s@.len() as int) =~= ascii_lower(s@));
    r
}

/// All of `s` is ASCII.
pub open spec fn all_ascii(s: Seq<char>) -> bool {
    forall|i: int| 0 <= i < s.len() ==> #[trigger] s[i] <= '\u{7f}'
}

/// What `str::to_lowercase` makes of a text.
pub uninterp spec fn unicode_lower(s: Seq<char>) -> Seq<char>;

/// `str::to_lowercase`: the Unicode case tables, which are too long to state;
/// the same text always gives the same result.
#[verifier::external_body]
fn unicode_to_lower(s: &str) -> (r: String)
    ensures
        r@ == unicode_lower(s@),
{
    s.to_lowercase()
}

/// `s` in lower case.
pub open spec fn lower(s: Seq<char>) -> Seq<char> {
    if all_ascii(s) {
        ascii_lower(s)
    } else {
        unicode_lower(s)
    }
}

/// Whether all of a text is ASCII.
pub fn is_all_ascii(s: &str) -> (r: bool)
    ensures
        r == all_ascii(s@),
{
    let cs: Vec<char> = chars_of(s);
    let mut i: usize = 0;
    while i < cs.len()
        invariant
            i <= cs.len(),
            cs@ == s@,
            forall|j: int| 0 <= j < i ==> #[trigger] s@[j] <= '\u{7f}',
        decreases cs.len() - i,
    {
        if cs[i] > '\u{7f}' {
            assert(s@[i as int] > '\u{7f}');
            return false;
        }
        i = i + 1;
    }
    true
}

/// Turns a text to lower case.
pub fn to_lower(s: &str) -> (r: String)
    ensures
        r@ == lower(s@),
{
    if is_all_ascii(s) {
        to_ascii_lower(s)
    } else {
        unicode_to_lower(s)
    }
}

// ---------------------------------------------------------------------------
// Numbers in digits

/// The digit for a value under sixteen.
pub open spec fn digit_char(d: int) -> char {
    if 0 <= d < 10 {
        (48 + d) as u8 as char
    } else {
        (87 + d) as u8 as char
    }
}

/// The value of a decimal digit.
pub open spec fn digit_value(c: char) -> int {
    c as u8 - 48
}

/// The digits of `n` in the given base.
pub open spec fn digits(n: nat, base: nat) -> Seq<char>
    decreases n,
{
    if base < 2 || n < base {
        seq![digit_char(n as int)]
    } else {
        proof {
            assert(n / base < n) by (nonlinear_arith)
                requires
                    n >= base,
                    base >= 2,
            ;
        }
        digits(n / base, base).push(digit_char((n % base) as int))
    }
}

/// `n` in decimal digits.
pub open spec fn dec(n: nat) -> Seq<char> {
    digits(n, 10)
}

fn digit_of(d: u8) -> (r: char)
    requires
        d < 16,
    ensures
        r == digit_char(d as int),
{
    if d < 10 {
        (48 + d) as char
    } else {
        (87 + d) as char
    }
}

/// The digits of `n` in the given base, most significant first.
pub fn digits_of(n: u64, base: u64) -> (r: Vec<char>)
    requires
        2 <= base <= 16,
    ensures
        r@ == digits(n as nat, base as nat),
    decreases n,
{
    if n < base {
        let mut r: Vec<char> = Vec::new();
        r.push(digit_of(n as u8));
        assert(r@ =~= seq![digit_char(n as int)]);
        r
    } else {
        assert(n / base < n) by (nonlinear_arith)
            requires
                n >= base,
                base >= 2,
        ;
        let mut r: Vec<char> = digits_of(n / base, base);
        assert(n % base < base) by (nonlinear_arith)
            requires
                base >= 2,
        ;
        r.push(digit_of((n % base) as u8));
        r
    }
}

/// Appends `n` in decimal digits.
pub fn push_dec(s: &mut String, n: u64)
    ensures
        final(s)@ == old(s)@ + dec(n as nat),
{
    let cs = string_of(digits_of(n, 10).as_slice());
    s.append(cs.as_str());
}

/// `n` in decimal digits.
pub fn dec_of(n: u64) -> (r: String)
    ensures
        r@ == dec(n as nat),
{
    string_of(digits_of(n, 10).as_slice())
}

/// `s` with as many `pad` in front as bring it to `width`.
pub open spec fn padded_left(s: Seq<char>, pad: char, width: nat) -> Seq<char> {
    if s.len() < width {
        Seq::new((width - s.len()) as nat, |i: int| pad) + s
    } else {
        s
    }
}

/// Appends `part`, brought to `width` with `pad` in front.
pub fn push_padded(s: &mut String, part: &[char], pad: char, width: usize)
    ensures
        final(s)@ == old(s)@ + padded_left(part@, pad, width as nat),
{
    let ghost start = s@;
    let mut i: usize = 0;
    if part.len() < width {
        while i < width - part.len()
            invariant
                part.len() < width,
                i <= width - part.len(),
                s@ == start + Seq::new(i as nat, |j: int| pad),
            decreases width - i,
        {
            s.push(pad);
            i = i + 1;
            assert(s@ =~= start + Seq::new(i as nat, |j: int| pad));
        }
    }
    let rest = string_of(part);
    s.append(rest.as_str());
    assert(s@ =~= start + padded_left(part@, pad, width as nat));
}

// ---------------------------------------------------------------------------
// Bytes and ends

/// How many bytes UTF-8 takes for a character.
pub open spec fn char_bytes(c: char) -> nat {
    if c <= '\u{7f}' {
        1
    } else if c <= '\u{7ff}' {
        2
    } else if c <= '\u{ffff}' {
        3
    } else {
        4
    }
}

/// How many bytes UTF-8 takes for a text.
pub open spec fn byte_len(s: Seq<char>) -> nat
    decreases s.len(),
{
    if s.len() == 0 {
        0
    } else {
        byte_len(s.drop_last()) + char_bytes(s.last())
    }
}

/// Whether UTF-8 takes at least `n` bytes for a text.
pub fn has_bytes(s: &[char], n: usize) -> (r: bool)
    requires
        n <= 1000,
    ensures
        r == (byte_len(s@) >= n),
{
    let mut sum: usize = 0;
    let mut i: usize = 0;
    while i < s.len()
        invariant
            i <= s.len(),
            n <= 1000,
            sum <= 2000,
            sum < n ==> sum == byte_len(s@.take(i as int)),
            sum >= n ==> byte_len(s@.take(i as int)) >= n,
        decreases s.len() - i,
    {
        assert(s@.take(i + 1).drop_last() =~= s@.take(i as int));
        assert(s@.take(i + 1).last() == s@[i as int]);
        if sum < n {
            let c = s[i];
            if c <= '\u{7f}' {
                sum = sum + 1;
            } else if c <= '\u{7ff}' {
                sum = sum + 2;
            } else if c <= '\u{ffff}' {
                sum = sum + 3;
            } else {
                sum = sum + 4;
            }
        }
        i = i + 1;
    }
    assert(s@.take(s@.len() as int) =~= s@);
    sum >= n
}

/// `s` without every `suffix` at its end.
pub open spec fn without_suffixes(s: Seq<char>, suffix: Seq<char>) -> Seq<char>
    decreases s.len(),
{
    if suffix.len() > 0 && ends(s, suffix) {
        without_suffixes(s.take(s.len() - suffix.len()), suffix)
    } else {
        s
    }
}

/// Cuts every `suffix` at the end.
pub fn trim_end_matches(s: &str, suffix: &str) -> (r: String)
    ensures
        r@ == without_suffixes(s@, suffix@),
{
    let cs: Vec<char> = chars_of(s);
    let x: Vec<char> = chars_of(suffix);
    let mut n: usize = cs.len();
    assert(cs@.take(n as int) =~= cs@);
    while x.len() > 0 && x.len() <= n && is_at(
        vstd::slice::slice_subrange(cs.as_slice(), 0, n),
        x.as_slice(),
        n - x.len(),
    )
        invariant
            n <= cs.len(),
            cs@ == s@,
            x@ == suffix@,
            without_suffixes(s@, suffix@) == without_suffixes(s@.take(n as int), suffix@),
        decreases n,
    {
        assert(cs@.subrange(0, n as int) =~= s@.take(n as int));
        assert(s@.take(n as int).take(n - x.len()) =~= s@.take(n - x.len()));
        n = n - x.len();
    }
    assert(cs@.subrange(0, n as int) =~= s@.take(n as int));
    string_of(vstd::slice::slice_subrange(cs.as_slice(), 0, n))
}

/// `s` up to the first `mark`, all of it where there is none.
pub open spec fn up_to(s: Seq<char>, mark: Seq<char>) -> Seq<char> {
    match first_at(s, mark, 0) {
        Some(i) => s.take(i),
        None => s,
    }
}

/// Cuts a text at the first `mark`.
pub fn cut_at(s: &str, mark: &str) -> (r: String)
    ensures
        r@ == up_to(s@, mark@),
{
    let cs: Vec<char> = chars_of(s);
    let m: Vec<char> = chars_of(mark);
    match find(cs.as_slice(), m.as_slice(), 0) {
        Some(i) => {
            let part = vstd::slice::slice_subrange(cs.as_slice(), 0, i);
            assert(part@ =~= s@.take(i as int));
            string_of(part)
        },
        None => string_of(cs.as_slice()),
    }
}

/// A copy of an optional text.
pub fn copy_text(s: &Option<String>) -> (r: Option<String>)
    ensures
        r == *s,
{
    match s {
        Some(x) => Some(x.clone()),
        None => None,
    }
}

/// A text of its own with the same characters.
pub fn owned(s: &str) -> (r: String)
    ensures
        r@ == s@,
{
    let mut r = String::new();
    r.append(s);
    assert(r@ =~= s@);
    r
}

/// Two texts behind each other.
pub fn prefixed(prefix: &str, s: &str) -> (r: String)
    ensures
        r@ == prefix@ + s@,
{
    let mut r = String::new();
    r.append(prefix);
    r.append(s);
    assert(r@ =~= prefix@ + s@);
    r
}

/// The contents of lines.
pub open spec fn line_views(v: Seq<String>) -> Seq<Seq<char>> {
    v.map_values(|s: String| s@)
}

/// Adds a line.
pub fn push_line(out: &mut Vec<String>, s: String)
    ensures
        line_views(final(out)@) == line_views(old(out)@).push(s@),
{
    let ghost before = line_views(out@);
    let ghost sv = s@;
    out.push(s);
    assert(line_views(out@) =~= before.push(sv));
}

/// Joins texts with `sep` between each two.
pub fn join_lines(parts: &Vec<String>, sep: &str) -> (r: String)
    ensures
        r@ == joined(line_views(parts@), sep@),
{
    let mut r = String::new();
    let mut i: usize = 0;
    let ghost all = line_views(parts@);
    while i < parts.len()
        invariant
            i <= parts.len(),
            all == line_views(parts@),
            r@ == joined(all.take(i as int), sep@),
        decreases parts.len() - i,
    {
        if i > 0 {
            r.append(sep);
        }
        r.append(parts[i].as_str());
        i = i + 1;
        proof {
            assert(all.take(i as int).drop_last() =~= all.take(i - 1));
            assert(all.take(i as int).last() == parts@[i - 1]@);
            assert(joined(all.take(0), sep@) =~= Seq::empty());
            if i == 1 {
                assert(r@ =~= parts@[0]@);
            }
        }
    }
    assert(all.take(all.len() as int) =~= all);
    r
}

/// Three texts behind each other.
pub fn cat3(a: &str, b: &str, c: &str) -> (r: String)
    ensures
        r@ == a@ + b@ + c@,
{
    let mut r = String::new();
    r.append(a);
    r.append(b);
    r.append(c);
    assert(r@ =~= a@ + b@ + c@);
    r
}

/// Four texts behind each other.
pub fn cat4(a: &str, b: &str, c: &str, d: &str) -> (r: String)
    ensures
        r@ == a@ + b@ + c@ + d@,
{
    let mut r = String::new();
    r.append(a);
    r.append(b);
    r.append(c);
    r.append(d);
    assert(r@ =~= a@ + b@ + c@ + d@);
    r
}

/// Five texts behind each other.
pub fn cat5(a: &str, b: &str, c: &str, d: &str, e: &str) -> (r: String)
    ensures
        r@ == a@ + b@ + c@ + d@ + e@,
{
    let mut r = String::new();
    r.append(a);
    r.append(b);
    r.append(c);
    r.append(d);
    r.append(e);
    assert(r@ =~= a@ + b@ + c@ + d@ + e@);
    r
}

/// A text, or another where there is none.
pub open spec fn or_text(s: Option<String>, other: Seq<char>) -> Seq<char> {
    match s {
        Some(x) => x@,
        None => other,
    }
}

/// A text, or another where there is none.
pub fn text_or(s: &Option<String>, other: &str) -> (r: String)
    ensures
        r@ == or_text(*s, other@),
{
    match s {
        Some(x) => x.clone(),
        None => owned(other),
    }
}

// ---------------------------------------------------------------------------
// Taking apart and putting together

/// Joining parts behind a first one.
proof fn lemma_joined_front(a: Seq<char>, rest: Seq<Seq<char>>, sep: Seq<char>)
    ensures
        rest.len() == 0 ==> joined(seq![a] + rest, sep) == a,
        rest.len() > 0 ==> joined(seq![a] + rest, sep) == a + sep + joined(rest, sep),
    decreases rest.len(),
{
    let all = seq![a] + rest;
    if rest.len() == 0 {
        assert(all =~= seq![a]);
    } else if rest.len() == 1 {
        assert(all.drop_last() =~= seq![a]);
        assert(joined(all.drop_last(), sep) == a);
        assert(all.last() == rest[0]);
    } else {
        let front = rest.drop_last();
        lemma_joined_front(a, front, sep);
        assert(all.drop_last() =~= seq![a] + front);
        assert(all.last() == rest.last());
        assert(joined(all, sep) =~= a + sep + joined(rest, sep));
    }
}

proof fn lemma_split_from(s: Seq<char>, c: char, i: int)
    requires
        0 <= i <= s.len(),
    ensures
        split_from(s, c, i).len() > 0,
        joined(split_from(s, c, i), seq![c]) == s.skip(i),
        forall|k: int, j: int|
            0 <= k < split_from(s, c, i).len() && 0 <= j < split_from(s, c, i)[k].len()
                ==> #[trigger] split_from(s, c, i)[k][j] != c,
    decreases s.len() - i,
{
    lemma_next_char(s, c, i);
    let k = next_char(s, c, i);
    let parts = split_from(s, c, i);
    if k < s.len() {
        lemma_split_from(s, c, k + 1);
        let rest = split_from(s, c, k + 1);
        let a = s.subrange(i, k);
        lemma_joined_front(a, rest, seq![c]);
        assert(a + seq![c] + s.skip(k + 1) =~= s.skip(i));
        assert forall|m: int, j: int|
            0 <= m < parts.len() && 0 <= j < parts[m].len() implies #[trigger] parts[m][j] != c by {
            if m == 0 {
                assert(parts[m][j] == s[i + j]);
            } else {
                assert(parts[m] == rest[m - 1]);
                assert(rest[m - 1][j] != c);
            }
        }
    } else {
        assert(s.subrange(i, s.len() as int) =~= s.skip(i));
        assert forall|m: int, j: int|
            0 <= m < parts.len() && 0 <= j < parts[m].len() implies #[trigger] parts[m][j] != c by {
            assert(parts[m][j] == s[i + j]);
        }
    }
}

/// A text that is split at a character is put together again by it, and no part
/// holds it.
pub proof fn lemma_split(s: Seq<char>, c: char)
    ensures
        split(s, c).len() > 0,
        joined(split(s, c), seq![c]) == s,
        forall|k: int, j: int|
            0 <= k < split(s, c).len() && 0 <= j < split(s, c)[k].len() ==> #[trigger] split(s, c)[k][j]
                != c,
{
    lemma_split_from(s, c, 0);
    assert(s.skip(0) =~= s);
    assert forall|k: int, j: int|
        0 <= k < split(s, c).len() && 0 <= j < split(s, c)[k].len() implies #[trigger] split(s, c)[k][j]
        != c by {
        assert(split_from(s, c, 0)[k][j] != c);
    }
}

proof fn lemma_lines_from(s: Seq<char>, i: int)
    requires
        0 <= i <= s.len(),
    ensures
        ({
            let ls = lines_from(s, i);
            &&& forall|k: int, j: int|
                0 <= k < ls.len() && 0 <= j < ls[k].len() ==> #[trigger] ls[k][j] != '\n'
            &&& ls.len() > 0 <==> i < s.len()
            &&& (forall|j: int| 0 <= j < s.len() ==> s[j] != '\r') && i < s.len() ==> joined(
                ls,
                seq!['\n'],
            ) == if s.last() == '\n' {
                s.subrange(i, s.len() - 1)
            } else {
                s.skip(i)
            }
        }),
    decreases s.len() - i,
{
    let ls = lines_from(s, i);
    let bare = forall|j: int| 0 <= j < s.len() ==> s[j] != '\r';
    if i < s.len() {
        lemma_next_char(s, '\n', i);
        let k = next_char(s, '\n', i);
        if k < s.len() {
            lemma_lines_from(s, k + 1);
            let rest = lines_from(s, k + 1);
            let raw = s.subrange(i, k);
            let a = without_return(raw);
            lemma_joined_front(a, rest, seq!['\n']);
            assert forall|m: int, j: int|
                0 <= m < ls.len() && 0 <= j < ls[m].len() implies #[trigger] ls[m][j] != '\n' by {
                if m == 0 {
                    assert(ls[m][j] == raw[j] && raw[j] == s[i + j]);
                } else {
                    assert(ls[m] == rest[m - 1]);
                    assert(rest[m - 1][j] != '\n');
                }
            }
            if bare {
                if raw.len() > 0 {
                    assert(raw.last() == s[k - 1]);
                }
                assert(a == raw);
                if k + 1 == s.len() {
                    assert(rest.len() == 0);
                    assert(s.last() == '\n');
                } else if s.last() == '\n' {
                    assert(raw + seq!['\n'] + s.subrange(k + 1, s.len() - 1) =~= s.subrange(
                        i,
                        s.len() - 1,
                    ));
                } else {
                    assert(raw + seq!['\n'] + s.skip(k + 1) =~= s.skip(i));
                }
            }
        } else {
            assert(s.subrange(i, s.len() as int) =~= s.skip(i));
            assert(s.last() == s[s.len() - 1]);
            assert forall|m: int, j: int|
                0 <= m < ls.len() && 0 <= j < ls[m].len() implies #[trigger] ls[m][j] != '\n' by {
                assert(ls[m][j] == s[i + j]);
            }
        }
    }
}

/// No line of a text holds the end of one, and where none ends with a return, the
/// lines with their ends between them are the text but for an end behind it.
pub proof fn lemma_lines(s: Seq<char>)
    ensures
        forall|k: int, j: int|
            0 <= k < lines(s).len() && 0 <= j < lines(s)[k].len() ==> #[trigger] lines(s)[k][j]
                != '\n',
        lines(s).len() > 0 <==> s.len() > 0,
        (forall|j: int| 0 <= j < s.len() ==> s[j] != '\r') && s.len() > 0 ==> joined(
            lines(s),
            seq!['\n'],
        ) == if s.last() == '\n' {
            s.drop_last()
        } else {
            s
        },
{
    lemma_lines_from(s, 0);
    assert(s.skip(0) =~= s);
    if s.len() > 0 {
        assert(s.subrange(0, s.len() - 1) =~= s.drop_last());
    }
    assert forall|k: int, j: int|
        0 <= k < lines(s).len() && 0 <= j < lines(s)[k].len() implies #[trigger] lines(s)[k][j]
        != '\n' by {
        assert(lines_from(s, 0)[k][j] != '\n');
    }
}

/// The characters that are no white space.
pub open spec fn inked() -> spec_fn(char) -> bool {
    |c: char| !white(c)
}

proof fn lemma_all_inked(s: Seq<char>)
    requires
        forall|j: int| 0 <= j < s.len() ==> !white(#[trigger] s[j]),
    ensures
        s.filter(inked()) == s,
    decreases s.len(),
{
    reveal(Seq::filter);
    if s.len() > 0 {
        lemma_all_inked(s.drop_last());
        assert(s.drop_last().push(s.last()) =~= s);
    } else {
        assert(s.filter(inked()) =~= s);
    }
}

proof fn lemma_inked_until_white(s: Seq<char>, i: int)
    requires
        0 <= i <= s.len(),
    ensures
        forall|j: int| i <= j < next_white(s, i) ==> !white(#[trigger] s[j]),
    decreases s.len() - i,
{
    if i < s.len() && !white(s[i]) {
        lemma_inked_until_white(s, i + 1);
    }
}

proof fn lemma_words_from(s: Seq<char>, i: int)
    requires
        0 <= i <= s.len(),
    ensures
        joined(words_from(s, i), Seq::empty()) == s.skip(i).filter(inked()),
        forall|k: int|
            0 <= k < words_from(s, i).len() ==> (#[trigger] words_from(s, i)[k]).len() > 0,
        forall|k: int, j: int|
            0 <= k < words_from(s, i).len() && 0 <= j < words_from(s, i)[k].len() ==> !white(
                #[trigger] words_from(s, i)[k][j],
            ),
    decreases s.len() - i,
{
    let ws = words_from(s, i);
    let none = Seq::<char>::empty();
    if i >= s.len() {
        assert(s.skip(i) =~= none);
        reveal(Seq::filter);
    } else if white(s[i]) {
        lemma_words_from(s, i + 1);
        assert(s.skip(i) =~= seq![s[i]] + s.skip(i + 1));
        Seq::filter_distributes_over_add(seq![s[i]], s.skip(i + 1), inked());
        assert(seq![s[i]].filter(inked()) =~= none) by {
            reveal(Seq::filter);
            assert(seq![s[i]].drop_last() =~= none);
            assert(none.filter(inked()) =~= none);
        }
        assert(none + s.skip(i + 1).filter(inked()) =~= s.skip(i + 1).filter(inked()));
    } else {
        lemma_next_white(s, i);
        lemma_inked_until_white(s, i);
        let k = next_white(s, i);
        lemma_words_from(s, k);
        let w = s.subrange(i, k);
        let rest = words_from(s, k);
        lemma_joined_front(w, rest, none);
        assert forall|j: int| 0 <= j < w.len() implies !white(#[trigger] w[j]) by {
            assert(w[j] == s[i + j]);
        }
        lemma_all_inked(w);
        assert(s.skip(i) =~= w + s.skip(k));
        Seq::filter_distributes_over_add(w, s.skip(k), inked());
        assert(w + none + joined(rest, none) =~= w + joined(rest, none));
        if rest.len() == 0 {
            assert(joined(rest, none) =~= none);
            assert(w + none =~= w);
        }
        assert forall|m: int| 0 <= m < ws.len() implies (#[trigger] ws[m]).len() > 0 by {
            if m > 0 {
                assert(ws[m] == rest[m - 1]);
            }
        }
        assert forall|m: int, j: int|
            0 <= m < ws.len() && 0 <= j < ws[m].len() implies !white(#[trigger] ws[m][j]) by {
            if m == 0 {
                assert(ws[m][j] == w[j]);
            } else {
                assert(ws[m] == rest[m - 1]);
                assert(!white(rest[m - 1][j]));
            }
        }
    }
}

/// The words of a text are all of it but its white space, in order, and none is
/// empty or holds any.
pub proof fn lemma_words(s: Seq<char>)
    ensures
        joined(words(s), Seq::empty()) == s.filter(inked()),
        forall|k: int| 0 <= k < words(s).len() ==> (#[trigger] words(s)[k]).len() > 0,
        forall|k: int, j: int|
            0 <= k < words(s).len() && 0 <= j < words(s)[k].len() ==> !white(
                #[trigger] words(s)[k][j],
            ),
{
    lemma_words_from(s, 0);
    assert(s.skip(0) =~= s);
    assert forall|k: int| 0 <= k < words(s).len() implies (#[trigger] words(s)[k]).len() > 0 by {
        assert(words_from(s, 0)[k].len() > 0);
    }
    assert forall|k: int, j: int|
        0 <= k < words(s).len() && 0 <= j < words(s)[k].len() implies !white(
        #[trigger] words(s)[k][j],
    ) by {
        assert(!white(words_from(s, 0)[k][j]));
    }
}

/// A text up to a mark is what stands in front of the first one, and a text
/// without it whole.
pub proof fn lemma_up_to(s: Seq<char>, mark: Seq<char>)
    requires
        mark.len() > 0,
    ensures
        ({
            let r = up_to(s, mark);
            &&& r.len() <= s.len() && r == s.take(r.len() as int)
            &&& occurs(s, mark) <==> r.len() < s.len()
            &&& occurs(s, mark) ==> at(s, mark, r.len() as int)
            &&& forall|j: int| 0 <= j < r.len() ==> !at(s, mark, j)
        }),
{
    lemma_first_at(s, mark, 0);
    assert(s.take(s.len() as int) =~= s);
    if occurs(s, mark) {
        let j = choose|j: int| at(s, mark, j);
        assert(at(s, mark, j));
    }
}

} // verus!
