//! Measuring text in terminal columns and laying things out on the screen.
use vstd::prelude::*;

use crate::text::{chars_of, split, split_at_char, char_views, string_of};

verus! {

// ---------------------------------------------------------------------------
// Widths

/// Every character is a printable one of ASCII.
pub open spec fn printable(s: Seq<char>) -> bool {
    forall|i: int| 0 <= i < s.len() ==> ' ' <= #[trigger] s[i] <= '~'
}

/// How many columns `unicode_width` gives a text.
pub uninterp spec fn text_width(s: Seq<char>) -> nat;

/// How many columns `unicode_width` gives a character.
pub uninterp spec fn char_width(c: char) -> Option<usize>;

/// `unicode_width::UnicodeWidthStr::width`: the columns that a text takes, by
/// Unicode's tables, which are too long to state; the same text always takes
/// the same.  Every printable character of ASCII takes one.
#[verifier::external_body]
pub(crate) fn width_of_text(s: &str) -> (r: usize)
    ensures
        r == text_width(s@),
        printable(s@) ==> r == s@.len(),
{
    unicode_width::UnicodeWidthStr::width(s)
}

/// `unicode_width::UnicodeWidthChar::width`: the columns that a character
/// takes, by Unicode's tables; none for a control character.  The same
/// character always takes the same.
#[verifier::external_body]
fn width_of_char(c: char) -> (r: Option<usize>)
    ensures
        r == char_width(c),
        ' ' <= c <= '~' ==> r == Some(1usize),
{
    unicode_width::UnicodeWidthChar::width(c)
}

/// The columns of a character, none for a control character.
pub open spec fn columns(c: char) -> nat {
    match char_width(c) {
        Some(w) => w as nat,
        None => 0,
    }
}

/// A width that fits the screen's coordinates: the largest where it is more.
pub open spec fn short(n: nat) -> nat {
    if n > 0xffff {
        0xffff
    } else {
        n
    }
}

/// The columns that a text takes on the screen.
pub fn width_of(s: &str) -> (r: u16)
    ensures
        r == short(text_width(s@)),
        printable(s@) && s@.len() <= 0xffff ==> r == s@.len(),
{
    let w: usize = width_of_text(s);
    if w > 0xffff {
        0xffff
    } else {
        w as u16
    }
}

/// A text of this width with as many blanks behind as bring it to `width`
/// columns.
pub open spec fn padded(s: Seq<char>, w: nat, width: nat) -> Seq<char> {
    if w < width {
        s + Seq::new((width - w) as nat, |i: int| ' ')
    } else {
        s
    }
}

/// Pads a text whose width is given.
pub fn pad_measured(s: &str, w: usize, width: usize) -> (r: String)
    ensures
        r@ == padded(s@, w as nat, width as nat),
{
    let mut r = String::new();
    r.append(s);
    assert(r@ =~= s@);
    if w < width {
        let mut i: usize = 0;
        assert(r@ =~= s@ + Seq::new(0, |j: int| ' '));
        while i < width - w
            invariant
                w < width,
                i <= width - w,
                r@ == s@ + Seq::new(i as nat, |j: int| ' '),
            decreases width - w - i,
        {
            r.push(' ');
            i = i + 1;
            assert(r@ =~= s@ + Seq::new(i as nat, |j: int| ' '));
        }
    }
    r
}

/// Left-align `s` in `width` terminal columns (CJK characters take two).
pub fn pad(s: &str, width: usize) -> (r: String)
    ensures
        r@ == padded(s@, text_width(s@), width as nat),
{
    pad_measured(s, width_of_text(s), width)
}

/// The columns of the first `n` characters, taken one by one.
pub open spec fn columns_of(s: Seq<char>, n: int) -> nat
    decreases n,
{
    if n <= 0 {
        0
    } else {
        columns_of(s, n - 1) + columns(s[n - 1])
    }
}

/// How many characters from `i` on still leave a column free out of `max`.
pub open spec fn fitting(s: Seq<char>, max: nat, i: int) -> int
    decreases s.len() - i,
{
    if i < 0 || i >= s.len() || columns_of(s, i + 1) + 1 > max {
        i
    } else {
        fitting(s, max, i + 1)
    }
}

/// A text of this width, cut to `max` columns with "…" at its end where it is
/// wider.
pub open spec fn shortened(s: Seq<char>, w: nat, max: nat) -> Seq<char> {
    if w <= max {
        s
    } else {
        s.take(fitting(s, max, 0)).push('…')
    }
}

/// A shortened text is the beginning of the text, and what is kept of it
/// leaves a column for the mark.
pub proof fn lemma_fitting(s: Seq<char>, max: nat, i: int)
    requires
        0 <= i <= s.len(),
        i > 0 ==> columns_of(s, i) + 1 <= max,
    ensures
        i <= fitting(s, max, i) <= s.len(),
        fitting(s, max, i) > 0 ==> columns_of(s, fitting(s, max, i)) + 1 <= max,
    decreases s.len() - i,
{
    if i < s.len() && columns_of(s, i + 1) + 1 <= max {
        lemma_fitting(s, max, i + 1);
    }
}

/// Cuts a text whose width is given.
pub fn truncate_measured(s: &str, w: usize, max: usize) -> (r: String)
    ensures
        r@ == shortened(s@, w as nat, max as nat),
{
    let mut out = String::new();
    if w <= max {
        out.append(s);
        assert(out@ =~= s@);
        return out;
    }
    let cs: Vec<char> = chars_of(s);
    let mut used: usize = 0;
    let mut i: usize = 0;
    let mut more = true;
    assert(out@ =~= s@.take(0));
    while more && i < cs.len()
        invariant
            i <= cs.len(),
            cs@ == s@,
            used == columns_of(s@, i as int),
            i > 0 ==> used < max,
            i == 0 ==> used == 0,
            out@ == s@.take(i as int),
            more ==> fitting(s@, max as nat, 0) == fitting(s@, max as nat, i as int),
            !more ==> fitting(s@, max as nat, 0) == i,
        decreases cs.len() - i, (if more { 1int } else { 0int }),
    {
        let cw: usize = match width_of_char(cs[i]) {
            Some(x) => x,
            None => 0,
        };
        assert(columns_of(s@, i + 1) == used + cw);
        if max == 0 || used >= max || cw >= max - used {
            more = false;
        } else {
            out.push(cs[i]);
            used = used + cw;
            i = i + 1;
            assert(out@ =~= s@.take(i as int));
        }
    }
    out.push('…');
    out
}

/// Cut `s` to `max` columns, ending with "…" if shortened.
pub fn truncate(s: &str, max: usize) -> (r: String)
    ensures
        r@ == shortened(s@, text_width(s@), max as nat),
{
    truncate_measured(s, width_of_text(s), max)
}

// ---------------------------------------------------------------------------
// Wrapping

/// Rows and columns used by the first `n` words, whose widths are given, in
/// lines of `width` columns.  Words that are longer than a line are broken.
pub open spec fn wrapped(ws: Seq<nat>, width: nat, n: int) -> (nat, nat)
    decreases n,
{
    if n <= 0 {
        (1, 0)
    } else {
        let (rows, col) = wrapped(ws, width, n - 1);
        let w = ws[n - 1];
        let (r2, c2) = if col > 0 && col + 1 + w > width {
            (rows + 1, 0nat)
        } else if col > 0 {
            (rows, col + 1)
        } else {
            (rows, col)
        };
        broken(r2, c2 + w, width)
    }
}

/// A line of `col` columns broken into lines of `width`.
pub open spec fn broken(rows: nat, col: nat, width: nat) -> (nat, nat)
    decreases col,
{
    if width == 0 || col <= width {
        (rows, col)
    } else {
        broken(rows + 1, (col - width) as nat, width)
    }
}

/// The widths of words.
pub open spec fn widths(words: Seq<Seq<char>>) -> Seq<nat> {
    words.map_values(|w: Seq<char>| text_width(w))
}

/// At least one column.
pub open spec fn at_least_one(w: u16) -> nat {
    if w == 0 {
        1
    } else {
        w as nat
    }
}

/// The rows that a text takes in lines of a width, at most what the screen can
/// count.
pub open spec fn height_of(text: Seq<char>, width: u16) -> nat {
    let ws = widths(split(text, ' '));
    short(wrapped(ws, at_least_one(width), ws.len() as int).0)
}

proof fn lemma_broken(rows: nat, col: nat, width: nat)
    requires
        width > 0,
    ensures
        col > 0 ==> broken(rows, col, width) == (
            (rows + (col - 1) / (width as int)) as nat,
            (col - ((col - 1) / (width as int)) * width) as nat,
        ),
        col == 0 ==> broken(rows, col, width) == (rows, 0nat),
        broken(rows, col, width).1 <= width,
    decreases col,
{
    let d = width as int;
    if col > width {
        lemma_broken(rows + 1, (col - width) as nat, width);
        assert((col - 1) / d == (col - width - 1) / d + 1) by (nonlinear_arith)
            requires
                d == width,
                d > 0,
                col > width,
        ;
        let q = (col - width - 1) / d;
        assert((q + 1) * d == q * d + d) by (nonlinear_arith);
    } else if col > 0 {
        assert((col - 1) / d == 0) by (nonlinear_arith)
            requires
                0 < col <= d,
        ;
    }
}

fn add_short(rows: u32, more: u128) -> (r: u32)
    requires
        rows <= 0xffff,
    ensures
        r == if rows + more > 0xffff {
            0xffff
        } else {
            rows + more
        },
{
    if more > 0xffff - rows as u128 {
        0xffff
    } else {
        rows + more as u32
    }
}

/// The rows that words of these widths take in lines of a width.
pub fn wrapped_rows(ws: &Vec<usize>, width: u16) -> (r: u16)
    ensures
        r == short(
            wrapped(
                ws@.map_values(|w: usize| w as nat),
                at_least_one(width),
                ws@.len() as int,
            ).0,
        ),
{
    let ghost views = ws@.map_values(|w: usize| w as nat);
    let line: u128 = if width == 0 {
        1
    } else {
        width as u128
    };
    let mut rows: u32 = 1;
    let mut col: u128 = 0;
    let mut i: usize = 0;
    while i < ws.len()
        invariant
            i <= ws.len(),
            views == ws@.map_values(|w: usize| w as nat),
            line == at_least_one(width),
            1 <= line <= 0xffff,
            rows <= 0xffff,
            rows == short(wrapped(views, line as nat, i as int).0),
            col == wrapped(views, line as nat, i as int).1,
            col <= line,
        decreases ws.len() - i,
    {
        let w: u128 = ws[i] as u128;
        let ghost before = wrapped(views, line as nat, i as int);
        assert(views[i as int] == w);
        if col > 0 && col + 1 + w > line {
            rows = add_short(rows, 1);
            col = 0;
        } else if col > 0 {
            col = col + 1;
        }
        col = col + w;
        if col > line {
            proof {
                let start = if before.1 > 0 && before.1 + 1 + w > line {
                    before.0 + 1
                } else {
                    before.0
                };
                lemma_broken(start as nat, col as nat, line as nat);
            }
            let extra: u128 = (col - 1) / line;
            assert(0 <= extra * line <= col) by (nonlinear_arith)
                requires
                    extra == (col - 1) / line as int,
                    line > 0,
                    col > 0,
            ;
            rows = add_short(rows, extra);
            col = col - extra * line;
        }
        i = i + 1;
    }
    rows as u16
}

/// The rows that a text takes in lines of a width.
pub fn wrapped_height(text: &str, width: u16) -> (r: u16)
    ensures
        r == height_of(text@, width),
{
    let parts: Vec<Vec<char>> = split_at_char(chars_of(text).as_slice(), ' ');
    let ghost all = char_views(parts@);
    let mut ws: Vec<usize> = Vec::new();
    let mut i: usize = 0;
    while i < parts.len()
        invariant
            i <= parts.len(),
            all == char_views(parts@),
            ws@.map_values(|w: usize| w as nat) == widths(all).take(i as int),
        decreases parts.len() - i,
    {
        assert(all[i as int] == parts@[i as int]@);
        let w: usize = width_of_text(string_of(parts[i].as_slice()).as_str());
        let ghost before = ws@;
        ws.push(w);
        i = i + 1;
        proof {
            assert(widths(all).take(i as int) =~= widths(all).take(i - 1).push(w as nat));
            assert(ws@.map_values(|w: usize| w as nat) =~= before.map_values(
                |w: usize| w as nat,
            ).push(w as nat));
        }
    }
    assert(widths(all).take(all.len() as int) =~= widths(all));
    wrapped_rows(&ws, width)
}

// ---------------------------------------------------------------------------
// Places

/// A place on the screen.
#[derive(Debug, Clone, Copy, PartialEq, Eq, Structural)]
pub struct Rect {
    pub x: u16,
    pub y: u16,
    pub width: u16,
    pub height: u16,
}

impl Rect {
    /// The column behind the place.
    pub open spec fn end_x(self) -> int {
        self.x + self.width
    }

    /// The row below the place.
    pub open spec fn end_y(self) -> int {
        self.y + self.height
    }

    /// The place lies within the screen's coordinates.
    pub open spec fn wf(self) -> bool {
        self.end_x() <= 0xffff && self.end_y() <= 0xffff
    }

    /// A point lies within the place.
    pub open spec fn holds(self, x: u16, y: u16) -> bool {
        self.x <= x < self.end_x() && self.y <= y < self.end_y()
    }

    /// The place lies within another.
    pub open spec fn within(self, outer: Rect) -> bool {
        outer.x <= self.x && self.end_x() <= outer.end_x() && outer.y <= self.y && self.end_y()
            <= outer.end_y()
    }

    /// Whether a point lies within the place.
    pub fn contains(&self, x: u16, y: u16) -> (r: bool)
        ensures
            r == self.holds(x, y),
    {
        self.x <= x && (x as u32) < self.x as u32 + self.width as u32 && self.y <= y && (y as u32)
            < self.y as u32 + self.height as u32
    }
}

/// The least of two sizes.
pub open spec fn least(a: u16, b: u16) -> u16 {
    if a < b {
        a
    } else {
        b
    }
}

fn smaller(a: u16, b: u16) -> (r: u16)
    ensures
        r == least(a, b),
{
    if a < b {
        a
    } else {
        b
    }
}

/// A place of a size in the middle of another, as far as it fits.
pub fn centered(area: Rect, width: u16, height: u16) -> (r: Rect)
    requires
        area.wf(),
    ensures
        r.width == least(width, area.width),
        r.height == least(height, area.height),
        r.x == area.x + (area.width - r.width) / 2,
        r.y == area.y + (area.height - r.height) / 2,
        r.within(area),
{
    let w: u16 = smaller(width, area.width);
    let h: u16 = smaller(height, area.height);
    Rect { x: area.x + (area.width - w) / 2, y: area.y + (area.height - h) / 2, width: w, height: h }
}

/// The smallest window, and the widest that is used.
pub const MIN_W: u16 = 80;

pub const MIN_H: u16 = 24;

/// Content is capped at this width so lines stay readable on wide windows.
pub const MAX_W: u16 = 124;

/// The part of a window that is used: as wide as it may be, in the middle;
/// none if the window is too small.
pub fn content_area(full: Rect) -> (r: Option<Rect>)
    requires
        full.wf(),
    ensures
        r is None <==> full.width < MIN_W || full.height < MIN_H,
        match r {
            Some(a) => {
                &&& a.width == least(full.width, MAX_W)
                &&& a.x == full.x + (full.width - a.width) / 2
                &&& a.y == full.y && a.height == full.height
                &&& a.within(full)
            },
            None => true,
        },
{
    if full.width < MIN_W || full.height < MIN_H {
        return None;
    }
    let width: u16 = smaller(full.width, MAX_W);
    Some(Rect { x: full.x + (full.width - width) / 2, y: full.y, width, height: full.height })
}

/// A row of things laid out from left to right: the things, so far as they fit,
/// and where the next one would stand.
pub ghost struct Flow {
    pub placed: Seq<Rect>,
    pub x: int,
    pub y: int,
    /// Nothing more fits.
    pub full: bool,
}

/// The layout of the first `n` things of these widths: one behind the other
/// with a gap between them, in a new row where the right edge is reached, until
/// the bottom is.  One that is wider than a row is cut.
pub open spec fn flowed(ws: Seq<u16>, area: Rect, top: int, gap: int, n: int) -> Flow
    decreases n,
{
    if n <= 0 {
        Flow { placed: Seq::empty(), x: area.x as int, y: top, full: false }
    } else {
        let f = flowed(ws, area, top, gap, n - 1);
        let w = ws[n - 1];
        let wraps = f.x > area.x && f.x + w > area.end_x();
        let x = if wraps {
            area.x as int
        } else {
            f.x
        };
        let y = if wraps {
            f.y + 1
        } else {
            f.y
        };
        if f.full {
            f
        } else if y >= area.end_y() {
            Flow { x, y, full: true, ..f }
        } else {
            Flow {
                placed: f.placed.push(
                    Rect {
                        x: x as u16,
                        y: y as u16,
                        width: if x + w > area.end_x() {
                            (area.end_x() - x) as u16
                        } else {
                            w
                        },
                        height: 1,
                    },
                ),
                x: x + w + gap,
                y,
                full: false,
            }
        }
    }
}

/// Whatever is placed lies within the area, and things in a row stand behind
/// each other.
pub proof fn lemma_flowed(ws: Seq<u16>, area: Rect, top: int, gap: int, n: int)
    requires
        area.wf(),
        area.y <= top,
        gap >= 0,
        0 <= n <= ws.len(),
    ensures
        ({
            let f = flowed(ws, area, top, gap, n);
            &&& f.x >= area.x && f.y >= top
            &&& f.placed.len() <= n
            &&& f.full || f.placed.len() == n
            &&& forall|i: int| 0 <= i < f.placed.len() ==> (#[trigger] f.placed[i]).within(area)
        }),
    decreases n,
{
    if n > 0 {
        lemma_flowed(ws, area, top, gap, n - 1);
        let f = flowed(ws, area, top, gap, n - 1);
        let g = flowed(ws, area, top, gap, n);
        assert forall|i: int| 0 <= i < g.placed.len() implies (#[trigger] g.placed[i]).within(
            area,
        ) by {
            if i < f.placed.len() {
                assert(g.placed[i] == f.placed[i]);
            }
        }
    }
}

/// Lays things out left to right, wrapping when needed.  Returns their places,
/// so far as they fit, and the rows used.
pub fn flow(ws: &Vec<u16>, area: Rect, top: u16, gap: u16) -> (r: (Vec<Rect>, u32))
    requires
        area.wf(),
        area.y <= top,
    ensures
        r.0@ == flowed(ws@, area, top as int, gap as int, ws@.len() as int).placed,
        r.1 == short(
            (flowed(ws@, area, top as int, gap as int, ws@.len() as int).y - top + 1) as nat,
        ),
{
    let mut placed: Vec<Rect> = Vec::new();
    let mut x: u32 = area.x as u32;
    let mut y: u32 = top as u32;
    let right: u32 = area.x as u32 + area.width as u32;
    let bottom: u32 = area.y as u32 + area.height as u32;
    let mut full = false;
    let mut i: usize = 0;
    while i < ws.len()
        invariant
            i <= ws.len(),
            area.wf(),
            area.y <= top,
            right == area.end_x(),
            bottom == area.end_y(),
            x <= 0x3_0000,
            top <= y <= 0x1_0000,
            !full ==> y < bottom || y == top,
            (Flow { placed: placed@, x: x as int, y: y as int, full }) == flowed(
                ws@,
                area,
                top as int,
                gap as int,
                i as int,
            ),
        decreases ws.len() - i,
    {
        let w: u32 = ws[i] as u32;
        proof {
            lemma_flowed(ws@, area, top as int, gap as int, i as int);
        }
        if !full {
            if x > area.x as u32 && x + w > right {
                x = area.x as u32;
                y = y + 1;
            }
            if y >= bottom {
                full = true;
            } else {
                let width: u32 = if x + w > right {
                    right - x
                } else {
                    w
                };
                placed.push(Rect { x: x as u16, y: y as u16, width: width as u16, height: 1 });
                x = x + w + gap as u32;
            }
        }
        i = i + 1;
    }
    proof {
        lemma_flowed(ws@, area, top as int, gap as int, ws@.len() as int);
    }
    let rows: u32 = y - top as u32 + 1;
    if rows > 0xffff {
        (placed, 0xffff)
    } else {
        (placed, rows)
    }
}

/// The places of things in one row, so far as they fit before the right edge.
pub open spec fn lined_up(ws: Seq<u16>, area: Rect, gap: int, n: int) -> (Seq<Rect>, int, bool)
    decreases n,
{
    if n <= 0 {
        (Seq::empty(), area.x + 1, false)
    } else {
        let (placed, x, full) = lined_up(ws, area, gap, n - 1);
        let w = ws[n - 1];
        if full || x + w > area.end_x() {
            (placed, x, true)
        } else {
            (
                placed.push(Rect { x: x as u16, y: area.y, width: w, height: 1 }),
                x + w + gap,
                false,
            )
        }
    }
}

/// Lays things out in one row, so far as they fit.
pub fn line_up(ws: &Vec<u16>, area: Rect, gap: u16) -> (r: Vec<Rect>)
    requires
        area.wf(),
    ensures
        r@ == lined_up(ws@, area, gap as int, ws@.len() as int).0,
{
    let mut placed: Vec<Rect> = Vec::new();
    let mut x: u32 = area.x as u32 + 1;
    let right: u32 = area.x as u32 + area.width as u32;
    let mut full = false;
    let mut i: usize = 0;
    while i < ws.len()
        invariant
            i <= ws.len(),
            area.wf(),
            right == area.end_x(),
            x <= 0x2_0000,
            (placed@, x as int, full) == lined_up(ws@, area, gap as int, i as int),
        decreases ws.len() - i,
    {
        let w: u32 = ws[i] as u32;
        if full || x + w > right {
            full = true;
        } else {
            placed.push(Rect { x: x as u16, y: area.y, width: w as u16, height: 1 });
            x = x + w + gap as u32;
        }
        i = i + 1;
    }
    placed
}

// ---------------------------------------------------------------------------
// A line of text that is edited

/// The first character that is shown from `start` on, so that the cursor stays
/// visible: what stands before the cursor leaves a column free.
pub open spec fn scroll_start(s: Seq<char>, cursor: int, inner: nat, start: int) -> int
    decreases cursor - start,
{
    let room = if inner > 0 {
        (inner - 1) as nat
    } else {
        0
    };
    if start >= cursor || text_width(s.subrange(start, cursor)) <= room {
        start
    } else {
        scroll_start(s, cursor, inner, start + 1)
    }
}

/// Finds the first character that is shown.
pub fn scroll_from(s: &[char], cursor: usize, inner: usize) -> (r: usize)
    requires
        cursor <= s.len(),
    ensures
        r == scroll_start(s@, cursor as int, inner as nat, 0),
        r <= cursor,
{
    let room: usize = if inner > 0 {
        inner - 1
    } else {
        0
    };
    let mut start: usize = 0;
    while start < cursor
        invariant
            start <= cursor <= s.len(),
            room == if inner > 0 {
                inner - 1
            } else {
                0
            },
            scroll_start(s@, cursor as int, inner as nat, 0) == scroll_start(
                s@,
                cursor as int,
                inner as nat,
                start as int,
            ),
        decreases cursor - start,
    {
        let part = string_of(vstd::slice::slice_subrange(s, start, cursor));
        if width_of_text(part.as_str()) <= room {
            return start;
        }
        start = start + 1;
    }
    start
}

// ---------------------------------------------------------------------------
// Logs

/// The first line of a log that is shown, and the one behind the last.
pub open spec fn log_part(count: int, visible: int, scroll: int) -> (int, int) {
    let top = if count > visible {
        count - visible
    } else {
        0
    };
    let up = if scroll < top {
        scroll
    } else {
        top
    };
    let end = count - up;
    (
        if end > visible {
            end - visible
        } else {
            0
        },
        end,
    )
}

/// As many lines are shown as there is room for, or all; without scrolling the
/// last, and one line further up for each that is scrolled, until the first.
pub proof fn lemma_log_part(count: int, visible: int, scroll: int)
    requires
        0 <= count,
        0 <= visible,
        0 <= scroll,
    ensures
        ({
            let (a, b) = log_part(count, visible, scroll);
            &&& 0 <= a <= b <= count
            &&& count >= visible ==> b - a == visible
            &&& count <= visible ==> a == 0 && b == count
            &&& b == count - scroll || a == 0
            &&& log_part(count, visible, 0).1 == count
        }),
{
}

/// The lines of a log that are shown: a window of `visible` lines, scrolled up
/// from the end but never past the first.
pub fn log_window(count: usize, visible: usize, scroll: usize) -> (r: (usize, usize))
    ensures
        r.0 == log_part(count as int, visible as int, scroll as int).0,
        r.1 == log_part(count as int, visible as int, scroll as int).1,
        r.0 <= r.1 <= count,
        r.1 - r.0 <= visible,
{
    let top: usize = if count > visible {
        count - visible
    } else {
        0
    };
    let up: usize = if scroll < top {
        scroll
    } else {
        top
    };
    let end: usize = count - up;
    let start: usize = if end > visible {
        end - visible
    } else {
        0
    };
    (start, end)
}

// ---------------------------------------------------------------------------
// What the layouts keep

/// A text that is too wide is cut no shorter than it must be: one more character
/// would leave no column for the mark.
pub proof fn lemma_cut_is_longest(s: Seq<char>, max: nat, i: int)
    requires
        0 <= i <= s.len(),
    ensures
        ({
            let n = fitting(s, max, i);
            n < s.len() ==> columns_of(s, n + 1) + 1 > max
        }),
    decreases s.len() - i,
{
    if i < s.len() && columns_of(s, i + 1) + 1 <= max {
        lemma_cut_is_longest(s, max, i + 1);
    }
}

/// A text that fits is shown whole, and one that does not by its beginning and a
/// mark.
pub proof fn lemma_shortened(s: Seq<char>, w: nat, max: nat)
    ensures
        w <= max ==> shortened(s, w, max) == s,
        w > max ==> {
            let r = shortened(s, w, max);
            &&& r.len() > 0 && r.last() == '…'
            &&& r.drop_last() == s.take(r.len() - 1)
            &&& r.len() - 1 <= s.len()
        },
{
    if w > max {
        lemma_fitting(s, max, 0);
        let r = shortened(s, w, max);
        assert(r.drop_last() =~= s.take(fitting(s, max, 0)));
    }
}

/// The columns of all words together.
pub open spec fn total(ws: Seq<nat>, n: int) -> nat
    decreases n,
{
    if n <= 0 {
        0
    } else {
        total(ws, n - 1) + ws[n - 1]
    }
}

/// Rows are counted so that all words have room in them, and a text whose words
/// and blanks fit one row takes one.
pub proof fn lemma_rows_have_room(ws: Seq<nat>, width: nat, n: int)
    requires
        width > 0,
        0 <= n <= ws.len(),
    ensures
        ({
            let (rows, col) = wrapped(ws, width, n);
            &&& rows >= 1 && col <= width
            &&& total(ws, n) <= (rows - 1) * width + col
            &&& n > 0 && total(ws, n) + n - 1 <= width ==> rows == 1 && col <= total(ws, n) + n - 1
        }),
    decreases n,
{
    if n > 0 {
        lemma_rows_have_room(ws, width, n - 1);
        let (rows, col) = wrapped(ws, width, n - 1);
        let w = ws[n - 1];
        let (r2, c2) = if col > 0 && col + 1 + w > width {
            (rows + 1, 0nat)
        } else if col > 0 {
            (rows, col + 1)
        } else {
            (rows, col)
        };
        lemma_broken(r2, c2 + w, width);
        let (r3, c3) = broken(r2, c2 + w, width);
        let q = if c2 + w > 0 {
            (c2 + w - 1) / (width as int)
        } else {
            0
        };
        assert(q >= 0 && q * width <= c2 + w) by (nonlinear_arith)
            requires
                q == 0 || (q == (c2 + w - 1) / (width as int) && c2 + w > 0),
                width > 0,
                c2 + w >= 0,
        ;
        assert(r3 == r2 + q && c3 + q * width == c2 + w);
        assert((r3 - 1) * width == (r2 - 1) * width + q * width) by (nonlinear_arith)
            requires
                r3 == r2 + q,
        ;
        if r2 == rows + 1 {
            assert((r2 - 1) * width == (rows - 1) * width + width) by (nonlinear_arith)
                requires
                    r2 == rows + 1,
            ;
        }
        if total(ws, n) + n - 1 <= width {
            if n == 1 {
                assert(total(ws, 0) == 0);
            }
            assert(rows == 1 && c2 + w <= width);
            assert(q == 0) by (nonlinear_arith)
                requires
                    q == 0 || (q == (c2 + w - 1) / (width as int) && c2 + w > 0),
                    c2 + w <= width,
                    width > 0,
            ;
        }
    }
}

/// `a` stands in front of `b` with the gap between them, or in a row above.
pub open spec fn precedes(a: Rect, b: Rect, gap: int) -> bool {
    a.y < b.y || (a.y == b.y && a.end_x() + gap <= b.x)
}

/// Things that are laid out in rows stand in their order and never on one
/// another, each as wide as it is or as there is room for.
pub proof fn lemma_flow_keeps_apart(ws: Seq<u16>, area: Rect, top: int, gap: int, n: int)
    requires
        area.wf(),
        area.y <= top,
        gap >= 0,
        0 <= n <= ws.len(),
    ensures
        ({
            let f = flowed(ws, area, top, gap, n);
            &&& forall|i: int, j: int|
                0 <= i < j < f.placed.len() && (#[trigger] f.placed[i]).width == ws[i] ==> precedes(
                    f.placed[i],
                    #[trigger] f.placed[j],
                    gap,
                )
            &&& forall|i: int|
                0 <= i < f.placed.len() ==> (#[trigger] f.placed[i]).width == ws[i]
                    || f.placed[i].end_x() == area.end_x()
            &&& forall|i: int| 0 <= i < f.placed.len() ==> (#[trigger] f.placed[i]).height == 1
            &&& forall|i: int|
                0 <= i < f.placed.len() ==> (#[trigger] f.placed[i]).y < f.y || (f.placed[i].y == f.y
                    && (f.placed[i].end_x() + gap <= f.x))
        }),
    decreases n,
{
    if n > 0 {
        lemma_flow_keeps_apart(ws, area, top, gap, n - 1);
        lemma_flowed(ws, area, top, gap, n - 1);
        lemma_flowed(ws, area, top, gap, n);
        let f = flowed(ws, area, top, gap, n - 1);
        let g = flowed(ws, area, top, gap, n);
        assert forall|i: int| 0 <= i < f.placed.len() implies #[trigger] g.placed[i] == f.placed[i] by {}
        assert forall|i: int| 0 <= i < g.placed.len() implies (#[trigger] g.placed[i]).y < g.y || (
        g.placed[i].y == g.y && g.placed[i].end_x() + gap <= g.x) by {
            if i < f.placed.len() {
                assert(g.placed[i] == f.placed[i]);
            }
        }
        assert forall|i: int, j: int|
            0 <= i < j < g.placed.len() && (#[trigger] g.placed[i]).width == ws[i] implies precedes(
            g.placed[i],
            #[trigger] g.placed[j],
            gap,
        ) by {
            assert(g.placed[i] == f.placed[i]);
            if j < f.placed.len() {
                assert(g.placed[j] == f.placed[j]);
            }
        }
    }
}

/// Things that are lined up stand in one row, in their order, each at its full
/// width, apart from one another and within the area.
pub proof fn lemma_lined_up(ws: Seq<u16>, area: Rect, gap: int, n: int)
    requires
        area.wf(),
        gap >= 0,
        0 <= n <= ws.len(),
    ensures
        ({
            let (placed, x, full) = lined_up(ws, area, gap, n);
            &&& placed.len() <= n && (full || placed.len() == n)
            &&& x >= area.x + 1
            &&& forall|i: int|
                0 <= i < placed.len() ==> {
                    &&& (#[trigger] placed[i]).y == area.y && placed[i].width == ws[i]
                    &&& area.x < placed[i].x && placed[i].end_x() <= area.end_x()
                    &&& placed[i].end_x() + gap <= x
                }
            &&& forall|i: int, j: int|
                0 <= i < j < placed.len() ==> (#[trigger] placed[i]).end_x() + gap
                    <= (#[trigger] placed[j]).x
        }),
    decreases n,
{
    if n > 0 {
        lemma_lined_up(ws, area, gap, n - 1);
        let (f, fx, ff) = lined_up(ws, area, gap, n - 1);
        let (g, gx, gf) = lined_up(ws, area, gap, n);
        assert forall|i: int| 0 <= i < f.len() implies #[trigger] g[i] == f[i] by {}
        assert forall|i: int, j: int| 0 <= i < j < g.len() implies (#[trigger] g[i]).end_x() + gap <= (
        #[trigger] g[j]).x by {
            assert(g[i] == f[i]);
            if j < f.len() {
                assert(g[j] == f[j]);
            }
        }
        assert forall|i: int| 0 <= i < g.len() implies (#[trigger] g[i]).y == area.y && g[i].width
            == ws[i] && area.x < g[i].x && g[i].end_x() <= area.end_x() && g[i].end_x() + gap <= gx by {
            if i < f.len() {
                assert(g[i] == f[i]);
            }
        }
    }
}

} // verus!
