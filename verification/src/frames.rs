//! Where things stand: paragraphs, the run's dashboard and the dialogs.
use vstd::prelude::*;

use crate::layout::{centered, least, Rect};
use crate::screens::{room_below, total, total_rows};
use crate::ui::Tone;

verus! {

// ---------------------------------------------------------------------------
// Rows

/// The width that an indent leaves of a place: at least one column.
pub open spec fn room_beside(area: Rect, indent: u16) -> int {
    if indent < area.width {
        area.width - indent
    } else {
        1
    }
}

/// The place of a paragraph of some rows at `y`, cut at the bottom; none where
/// nothing is left.
pub fn paragraph(area: Rect, y: u16, rows: u16, indent: u16) -> (r: Option<Rect>)
    requires
        area.wf(),
        area.x + indent <= u16::MAX,
    ensures
        r is Some <==> y < area.end_y(),
        match r {
            Some(p) => {
                &&& p.x == area.x + indent && p.y == y
                &&& p.width == room_beside(area, indent)
                &&& p.height == if rows < area.end_y() - y {
                    rows as int
                } else {
                    area.end_y() - y
                }
                &&& area.y <= y && indent < area.width ==> p.within(area)
            },
            None => true,
        },
{
    let bottom: u16 = area.y + area.height;
    if y >= bottom {
        return None;
    }
    Some(
        Rect {
            x: area.x + indent,
            y,
            width: if indent < area.width {
                area.width - indent
            } else {
                1
            },
            height: if rows < bottom - y {
                rows
            } else {
                bottom - y
            },
        },
    )
}

/// The row of the buttons: one is left free above, where there is room for it.
pub open spec fn buttons_at(area: Rect, y: u16) -> int {
    let last = if area.end_y() > 0 {
        area.end_y() - 1
    } else {
        0
    };
    if y + 1 < last {
        y + 1
    } else {
        last
    }
}

/// Tells the row of the buttons.
pub fn button_row(area: Rect, y: u16) -> (r: u16)
    requires
        area.wf(),
    ensures
        r == buttons_at(area, y),
        area.height > 0 && area.y <= y ==> area.y <= r < area.end_y(),
{
    let bottom: u16 = area.y + area.height;
    let last: u16 = if bottom > 0 {
        bottom - 1
    } else {
        0
    };
    if (y as u32) + 1 < last as u32 {
        y + 1
    } else {
        last
    }
}

/// The columns of a form: where the values begin, and how wide they are, beside
/// labels of which the widest is given.
pub fn form_columns(area: Rect, widest: u16) -> (r: (u16, u16))
    requires
        area.wf(),
        widest + 5 <= area.width,
    ensures
        r.0 == area.x + widest + 5,
        r.0 + r.1 == area.end_x(),
{
    (area.x + widest + 5, area.width - widest - 5)
}

// ---------------------------------------------------------------------------
// A run

/// Where the parts of a run's screen stand.
#[derive(Debug, Clone, Copy, PartialEq, Eq, Structural)]
pub struct Dashboard {
    pub title: Rect,
    pub bar: Rect,
    pub label: Rect,
    pub status: Rect,
    pub cards: Rect,
    /// The warnings and the notice.
    pub bottom: Rect,
}

/// Lays a run's screen out: a title, the bar with its label at the right, a
/// status line, and the notice with the warnings at the bottom; the cards take
/// the rest.
pub fn dashboard(area: Rect, label: u16, notice: u16, warnings: &Vec<u16>) -> (r: Dashboard)
    requires
        area.wf(),
        area.height >= 4,
    ensures
        ({
            let lines = notice + (if total(warnings@) < 4 {
                total(warnings@)
            } else {
                4
            }) + 1;
            let low = if lines < area.height - 4 {
                lines as int
            } else {
                area.height - 4
            };
            let l = least(label, area.width);
            &&& r.title == (Rect { y: (area.y + 1) as u16, height: 1, ..area })
            &&& r.bar == (Rect {
                y: (area.y + 2) as u16,
                height: 1,
                width: (area.width - l) as u16,
                ..area
            })
            &&& r.label == (Rect {
                x: (area.x + area.width - l) as u16,
                y: (area.y + 2) as u16,
                width: l,
                height: 1,
            })
            &&& r.status == (Rect { y: (area.y + 3) as u16, height: 1, ..area })
            &&& r.cards == (Rect {
                y: (area.y + 4) as u16,
                height: (area.height - 4 - low) as u16,
                ..area
            })
            &&& r.bottom == (Rect {
                y: (area.end_y() - low) as u16,
                height: low as u16,
                ..area
            })
        }),
{
    let w: u16 = total_rows(warnings);
    let lines: u32 = notice as u32 + (if w < 4 {
        w as u32
    } else {
        4
    }) + 1;
    let room: u16 = area.height - 4;
    let low: u16 = if lines < room as u32 {
        lines as u16
    } else {
        room
    };
    let l: u16 = if label < area.width {
        label
    } else {
        area.width
    };
    Dashboard {
        title: Rect { x: area.x, y: area.y + 1, width: area.width, height: 1 },
        bar: Rect { x: area.x, y: area.y + 2, width: area.width - l, height: 1 },
        label: Rect { x: area.x + (area.width - l), y: area.y + 2, width: l, height: 1 },
        status: Rect { x: area.x, y: area.y + 3, width: area.width, height: 1 },
        cards: Rect { x: area.x, y: area.y + 4, width: area.width, height: room - low },
        bottom: Rect { x: area.x, y: area.y + 4 + (room - low), width: area.width, height: low },
    }
}

/// The place of a log above its footer: the status, what else is said below it
/// and the buttons; none where fewer than three rows are left.
pub fn log_place(area: Rect, y: u16, extra: &Vec<u16>, buttons: bool) -> (r: Option<Rect>)
    requires
        area.wf(),
        area.y <= y,
    ensures
        ({
            let footer = total(extra@) + if buttons {
                4int
            } else {
                2
            };
            let rows = room_below(area, y, footer);
            &&& r is Some <==> rows >= 3
            &&& r is Some ==> r->0 == (Rect { y, height: rows as u16, ..area })
            &&& r is Some ==> r->0.within(area)
        }),
{
    let footer: u32 = total_rows(extra) as u32 + if buttons {
        4
    } else {
        2
    };
    let bottom: u32 = area.y as u32 + area.height as u32;
    if bottom < y as u32 + footer + 3 {
        return None;
    }
    Some(Rect { x: area.x, y, width: area.width, height: (bottom - y as u32 - footer) as u16 })
}

// ---------------------------------------------------------------------------
// Dialogs

/// A dialog's shape: which one, and how many rows its texts or fields take.
#[derive(Debug, Clone, Copy, PartialEq, Eq, Structural)]
pub enum Shape {
    /// The rows of its three texts.
    Help { texts: u16 },
    Languages,
    /// The rows of the question.
    Stop { text: u16 },
    /// The fields that are edited.
    Details { fields: u16 },
    Feedback,
    /// The rows of the question.
    Driver { text: u16 },
}

/// How wide dialogs are: the screen without a margin, at most 76 columns.
pub open spec fn dialog_room(area: Rect) -> int {
    if area.width < 8 {
        0
    } else if area.width - 8 < 76 {
        area.width - 8
    } else {
        76
    }
}

/// Tells how wide dialogs are.
pub fn dialog_width(area: Rect) -> (r: u16)
    ensures
        r == dialog_room(area),
{
    if area.width < 8 {
        0
    } else if area.width - 8 < 76 {
        area.width - 8
    } else {
        76
    }
}

/// A dialog's size, before it is cut to the screen.
pub open spec fn dialog_size(area: Rect, shape: Shape) -> (int, int) {
    let room = dialog_room(area);
    match shape {
        // The keys' list with its title, and two free rows.
        Shape::Help { texts } => (room, texts + 11 + 6),
        Shape::Languages => (40, 9int + 6),
        Shape::Stop { text } => (
            if room < 60 {
                room
            } else {
                60
            },
            text + 6,
        ),
        Shape::Details { fields } => (room, 2 * fields + 7),
        Shape::Feedback => (
            room,
            if area.height < 2 {
                0
            } else if area.height - 2 < 22 {
                area.height - 2
            } else {
                22
            },
        ),
        Shape::Driver { text } => (
            if room < 66 {
                room
            } else {
                66
            },
            text + 6,
        ),
    }
}

/// A size that the screen can count.
pub open spec fn countable(n: int) -> u16 {
    if n > 0xffff {
        0xffff
    } else {
        n as u16
    }
}

fn counted(n: u32) -> (r: u16)
    ensures
        r == countable(n as int),
{
    if n > 0xffff {
        0xffff
    } else {
        n as u16
    }
}

/// The place of a dialog: in the middle, as far as it fits.
pub fn dialog_place(area: Rect, shape: Shape) -> (r: Rect)
    requires
        area.wf(),
    ensures
        ({
            let (w, h) = dialog_size(area, shape);
            &&& r.width == least(w as u16, area.width)
            &&& r.height == least(countable(h), area.height)
            &&& r.x == area.x + (area.width - r.width) / 2
            &&& r.y == area.y + (area.height - r.height) / 2
            &&& r.within(area)
        }),
{
    let room: u16 = dialog_width(area);
    let (w, h): (u16, u32) = match shape {
        Shape::Help { texts } => (room, texts as u32 + 17),
        Shape::Languages => (40, 15),
        Shape::Stop { text } => (
            if room < 60 {
                room
            } else {
                60
            },
            text as u32 + 6,
        ),
        Shape::Details { fields } => (room, 2 * fields as u32 + 7),
        Shape::Feedback => (
            room,
            if area.height < 2 {
                0
            } else if area.height - 2 < 22 {
                area.height as u32 - 2
            } else {
                22
            },
        ),
        Shape::Driver { text } => (
            if room < 66 {
                room
            } else {
                66
            },
            text as u32 + 6,
        ),
    };
    centered(area, w, counted(h))
}

/// The tone of a dialog's frame: stopping a test is a warning.
pub fn dialog_tone(shape: Shape) -> (r: Tone)
    ensures
        r == (match shape {
            Shape::Stop { .. } => Tone::Warn,
            _ => Tone::Accent,
        }),
{
    match shape {
        Shape::Stop { .. } => Tone::Warn,
        _ => Tone::Accent,
    }
}

/// The rows of the feedback form, counted from the dialog's first.
#[derive(Debug, Clone, Copy, PartialEq, Eq, Structural)]
pub struct FeedbackRows {
    pub rating: u32,
    pub marks: u32,
    pub category: u32,
    pub message_label: u32,
    /// The first row of the message.
    pub message: u32,
    pub email: u32,
    pub include_info: u32,
    pub error: u32,
}

/// The rows of a message that are shown.
pub const MESSAGE_ROWS: u16 = 4;

/// The rows of the feedback form below an introduction of some rows, with a
/// last line of some rows, at most two.
pub open spec fn rows_of(intro: u16, last: u16) -> FeedbackRows {
    let at = intro + 1;
    FeedbackRows {
        rating: at as u32,
        marks: (at + 1) as u32,
        category: (at + 3) as u32,
        message_label: (at + 5) as u32,
        message: (at + 6) as u32,
        email: (at + 6 + MESSAGE_ROWS + 1) as u32,
        include_info: (at + 6 + MESSAGE_ROWS + 3) as u32,
        error: (at + 6 + MESSAGE_ROWS + 4 + if last < 2 {
            last as int
        } else {
            2
        }) as u32,
    }
}

/// Tells the rows of the feedback form.
pub fn feedback_rows(intro: u16, last: u16) -> (r: FeedbackRows)
    ensures
        r == rows_of(intro, last),
{
    let at: u32 = intro as u32 + 1;
    FeedbackRows {
        rating: at,
        marks: at + 1,
        category: at + 3,
        message_label: at + 5,
        message: at + 6,
        email: at + 11,
        include_info: at + 13,
        error: at + 14 + if last < 2 {
            last as u32
        } else {
            2
        },
    }
}

/// No two rows of the feedback form overlap.
pub proof fn lemma_feedback_rows_apart(intro: u16, last: u16)
    ensures
        ({
            let r = rows_of(intro, last);
            &&& intro < r.rating < r.marks < r.category < r.message_label < r.message
            &&& r.message + MESSAGE_ROWS <= r.email
            &&& r.email < r.include_info
            &&& r.include_info + (if last < 2 {
                last as int
            } else {
                2
            }) <= r.error
        }),
{
}

/// Whether a mark of the rating is lit: those up to the rating are.
pub fn is_lit(rating: Option<u8>, mark: u8) -> (r: bool)
    ensures
        r == (rating is Some && mark <= rating->0),
{
    match rating {
        Some(n) => mark <= n,
        None => false,
    }
}

/// The places of marks or choices in a row, the next behind the one before it
/// after a gap, each cut at the right edge.
pub open spec fn shelved(ws: Seq<u16>, x: int, y: u16, right: int, gap: int, n: int) -> (
    Seq<Rect>,
    int,
)
    decreases n,
{
    if n <= 0 {
        (Seq::empty(), x)
    } else {
        let (before, at) = shelved(ws, x, y, right, gap, n - 1);
        let w = ws[n - 1];
        let room = if at < right {
            right - at
        } else {
            0
        };
        (
            before.push(
                Rect {
                    x: countable(at),
                    y,
                    width: least(w, room as u16),
                    height: 1,
                },
            ),
            countable(at + w + gap) as int,
        )
    }
}

/// Lays marks or choices out in a row.
pub fn shelf(ws: &Vec<u16>, x: u16, y: u16, right: u16, gap: u16) -> (r: Vec<Rect>)
    ensures
        r@ == shelved(ws@, x as int, y, right as int, gap as int, ws@.len() as int).0,
{
    let mut r: Vec<Rect> = Vec::new();
    let mut at: u16 = x;
    let mut i: usize = 0;
    while i < ws.len()
        invariant
            i <= ws.len(),
            (r@, at as int) == shelved(ws@, x as int, y, right as int, gap as int, i as int),
        decreases ws.len() - i,
    {
        let room: u16 = if at < right {
            right - at
        } else {
            0
        };
        let w: u16 = ws[i];
        r.push(
            Rect {
                x: at,
                y,
                width: if w < room {
                    w
                } else {
                    room
                },
                height: 1,
            },
        );
        at = counted(at as u32 + w as u32 + gap as u32);
        i = i + 1;
    }
    r
}

} // verus!
