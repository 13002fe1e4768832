//! Motions within the visible part of the text: `H`, `M`, `L`.

use vstd::prelude::*;

use crate::buffer::{DisplayPoint, TextBuffer};
use crate::movement::SelectionGoal;

verus! {

/// What the motions need of the editor's layout, in whole rows.
#[derive(Clone, Copy, Debug, PartialEq, Eq, Structural)]
pub struct TextLayoutDetails {
    /// The first visible row, where the view is scrolled to.
    pub first_visible_row: u32,
    /// How many rows fit in the view, when that is known.
    pub visible_rows: Option<u32>,
    /// How many rows below the first visible one the last visible row
    /// lies, the part of the first row scrolled out of view taken into account.
    pub last_visible_row_offset: u32,
    /// How many rows the cursor keeps from the top and bottom of the view:
    /// the scroll margin rounded up.
    pub vertical_scroll_margin: u32,
    /// The scroll margin rounded down, which a count is compared with.
    pub vertical_scroll_margin_floor: u32,
}

/// The layout describes a view on the text, and `times` more rows than
/// the first visible one still fit in a row number.
pub open spec fn layout_fits(buf: TextBuffer, layout: TextLayoutDetails, times: int) -> bool {
    &&& layout.first_visible_row < buf.line_count()
    &&& layout.first_visible_row + times <= u32::MAX
    &&& layout.first_visible_row + layout.vertical_scroll_margin <= u32::MAX
    &&& layout.first_visible_row + layout.last_visible_row_offset <= u32::MAX
    &&& layout.visible_rows matches Some(v) ==> layout.first_visible_row + v <= u32::MAX
}

pub open spec fn min_u32(a: int, b: int) -> int {
    if a <= b {
        a
    } else {
        b
    }
}

/// `H`: `times` rows below the first visible row (the scroll margin,
/// rounded up, when the view is scrolled and `times` is below the margin
/// rounded down), within the view and the text; the
/// column is kept, up to the length of the first visible line.
pub open spec fn window_top_of(buf: TextBuffer, p: DisplayPoint, layout: TextLayoutDetails, times: int) -> (
    DisplayPoint,
    SelectionGoal,
) {
    let first = layout.first_visible_row as int;
    let times = if first != 0 && layout.vertical_scroll_margin_floor > times {
        layout.vertical_scroll_margin as int
    } else {
        times
    };
    let new_row = match layout.visible_rows {
        Some(v) => min_u32(min_u32(first + times, first + v), buf.max_row()),
        None => min_u32(first + times, buf.max_row()),
    };
    let new_col = min_u32(p.column as int, buf.line_len(first));
    (buf.clip(DisplayPoint { row: new_row as u32, column: new_col as u32 }), SelectionGoal::NoGoal)
}

pub fn window_top(
    buf: &TextBuffer,
    point: DisplayPoint,
    layout: &TextLayoutDetails,
    times: usize,
) -> (r: (DisplayPoint, SelectionGoal))
    requires
        layout_fits(*buf, *layout, times as int),
    ensures
        r == window_top_of(*buf, point, *layout, times as int),
        buf.valid_point(r.0),
{
    let first = layout.first_visible_row;
    let mut times = times;
    if first != 0 && layout.vertical_scroll_margin_floor as usize > times {
        times = layout.vertical_scroll_margin as usize;
    }
    let max_row = buf.max_row_exec();
    let first_len = buf.line_len_exec(first);
    let new_col = if point.column < first_len {
        point.column
    } else {
        first_len
    };
    let down = first + times as u32;
    let new_row = match layout.visible_rows {
        Some(v) => {
            let bottom_row = first + v;
            let r = if down < bottom_row {
                down
            } else {
                bottom_row
            };
            if r < max_row {
                r
            } else {
                max_row
            }
        },
        None => {
            if down < max_row {
                down
            } else {
                max_row
            }
        },
    };
    (buf.clip_exec(DisplayPoint { row: new_row, column: new_col }), SelectionGoal::NoGoal)
}

/// `M`: the middle of the visible rows that hold text; the column is
/// kept, up to the length of that line. Without a known view height the
/// cursor stays.
pub open spec fn window_middle_of(buf: TextBuffer, p: DisplayPoint, layout: TextLayoutDetails) -> (
    DisplayPoint,
    SelectionGoal,
) {
    match layout.visible_rows {
        Some(v) => {
            let first = layout.first_visible_row as int;
            let max_visible_rows = min_u32(v as int, buf.max_row() - first);
            let new_row = min_u32(first + max_visible_rows / 2, buf.max_row());
            let new_col = min_u32(p.column as int, buf.line_len(new_row));
            (buf.clip(DisplayPoint { row: new_row as u32, column: new_col as u32 }), SelectionGoal::NoGoal)
        },
        None => (p, SelectionGoal::NoGoal),
    }
}

pub fn window_middle(buf: &TextBuffer, point: DisplayPoint, layout: &TextLayoutDetails) -> (r: (
    DisplayPoint,
    SelectionGoal,
))
    requires
        buf.valid_point(point),
        layout_fits(*buf, *layout, 0),
    ensures
        r == window_middle_of(*buf, point, *layout),
        buf.valid_point(r.0),
{
    match layout.visible_rows {
        Some(v) => {
            let first = layout.first_visible_row;
            let max_row = buf.max_row_exec();
            let room = max_row - first;
            let max_visible_rows = if v < room {
                v
            } else {
                room
            };
            let mid = first + max_visible_rows / 2;
            let new_row = if mid < max_row {
                mid
            } else {
                max_row
            };
            let len = buf.line_len_exec(new_row);
            let new_col = if point.column < len {
                point.column
            } else {
                len
            };
            (buf.clip_exec(DisplayPoint { row: new_row, column: new_col }), SelectionGoal::NoGoal)
        },
        None => (point, SelectionGoal::NoGoal),
    }
}

/// `L`: `times` rows above the last visible row (the scroll margin,
/// rounded up, when more text lies below the view and `times` is below the
/// margin rounded down), not above the first
/// visible row; the column is kept, up to the length of that line.
/// Without a known view height the cursor stays.
pub open spec fn window_bottom_of(buf: TextBuffer, p: DisplayPoint, layout: TextLayoutDetails, times: int) -> (
    DisplayPoint,
    SelectionGoal,
) {
    match layout.visible_rows {
        Some(v) => {
            let first = layout.first_visible_row as int;
            let bottom_row = first + layout.last_visible_row_offset;
            let times = if bottom_row < buf.max_row() && layout.vertical_scroll_margin_floor > times {
                layout.vertical_scroll_margin as int
            } else {
                times
            };
            let capped = min_u32(bottom_row, buf.max_row());
            let lifted = if capped >= times {
                capped - times
            } else {
                0
            };
            let new_row = if lifted < first {
                first
            } else {
                lifted
            };
            let new_col = min_u32(p.column as int, buf.line_len(new_row));
            (buf.clip(DisplayPoint { row: new_row as u32, column: new_col as u32 }), SelectionGoal::NoGoal)
        },
        None => (p, SelectionGoal::NoGoal),
    }
}

pub fn window_bottom(
    buf: &TextBuffer,
    point: DisplayPoint,
    layout: &TextLayoutDetails,
    times: usize,
) -> (r: (DisplayPoint, SelectionGoal))
    requires
        buf.valid_point(point),
        layout_fits(*buf, *layout, times as int),
    ensures
        r == window_bottom_of(*buf, point, *layout, times as int),
        buf.valid_point(r.0),
{
    match layout.visible_rows {
        Some(_) => {
            let first = layout.first_visible_row;
            let max_row = buf.max_row_exec();
            let bottom_row = first + layout.last_visible_row_offset;
            let mut times = times;
            if bottom_row < max_row && layout.vertical_scroll_margin_floor as usize > times {
                times = layout.vertical_scroll_margin as usize;
            }
            let capped = if bottom_row < max_row {
                bottom_row
            } else {
                max_row
            };
            let lifted = if capped as usize >= times {
                capped - times as u32
            } else {
                0
            };
            let new_row = if lifted < first {
                first
            } else {
                lifted
            };
            let len = buf.line_len_exec(new_row);
            let new_col = if point.column < len {
                point.column
            } else {
                len
            };
            (buf.clip_exec(DisplayPoint { row: new_row, column: new_col }), SelectionGoal::NoGoal)
        },
        None => (point, SelectionGoal::NoGoal),
    }
}

/// `H` goes `times` rows below the first visible row (the scroll margin,
/// rounded up, instead, when the view is scrolled and `times` is below the
/// margin rounded down), but not below the last row the view holds nor
/// below the last row of the text; the goal is dropped.
pub proof fn law_window_top_row(buf: TextBuffer, p: DisplayPoint, layout: TextLayoutDetails, times: int)
    requires
        buf.wf(),
        layout_fits(buf, layout, times),
        times >= 0,
    ensures
        ({
            let (q, g) = window_top_of(buf, p, layout, times);
            let first = layout.first_visible_row as int;
            let t = if first != 0 && layout.vertical_scroll_margin_floor > times {
                layout.vertical_scroll_margin as int
            } else {
                times
            };
            &&& buf.valid_point(q)
            &&& g == SelectionGoal::NoGoal
            &&& q.row <= buf.max_row()
            &&& q.row <= first + t
            &&& layout.visible_rows matches Some(v) ==> q.row <= first + v
            &&& (q.row == first + t || q.row == buf.max_row() || (layout.visible_rows matches Some(v)
                && q.row == first + v))
            &&& first <= q.row
        }),
{
    buf.lemma_line_bounds(buf.max_row());
    buf.lemma_line_bounds(layout.first_visible_row as int);
    let (q, g) = window_top_of(buf, p, layout, times);
    buf.lemma_line_bounds(q.row as int);
    buf.law_clip_idempotent(q);
}

/// `M` goes to the middle of the visible rows that hold text, or, without a
/// known view height, leaves the cursor where it is.
pub proof fn law_window_middle_row(buf: TextBuffer, p: DisplayPoint, layout: TextLayoutDetails)
    requires
        buf.wf(),
        layout_fits(buf, layout, 0),
    ensures
        ({
            let (q, g) = window_middle_of(buf, p, layout);
            let first = layout.first_visible_row as int;
            &&& g == SelectionGoal::NoGoal
            &&& layout.visible_rows is None ==> q == p
            &&& layout.visible_rows matches Some(v) ==> {
                let shown = if v <= buf.max_row() - first { v as int } else { buf.max_row() - first };
                &&& buf.valid_point(q)
                &&& q.row == first + shown / 2
            }
        }),
{
    buf.lemma_line_bounds(buf.max_row());
    if let Some(v) = layout.visible_rows {
        let first = layout.first_visible_row as int;
        let shown = if v <= buf.max_row() - first { v as int } else { buf.max_row() - first };
        buf.lemma_line_bounds(first + shown / 2);
    }
}

/// `L` lands between the first visible row and the last visible row that
/// holds text, `times` rows above the latter where there is room (more when
/// the scroll margin asks for it); without a known view height the cursor stays.
pub proof fn law_window_bottom_row(buf: TextBuffer, p: DisplayPoint, layout: TextLayoutDetails, times: int)
    requires
        buf.wf(),
        layout_fits(buf, layout, times),
        layout.vertical_scroll_margin_floor <= layout.vertical_scroll_margin,
        times >= 0,
    ensures
        ({
            let (q, g) = window_bottom_of(buf, p, layout, times);
            let first = layout.first_visible_row as int;
            let bottom = first + layout.last_visible_row_offset;
            let capped = if bottom <= buf.max_row() { bottom } else { buf.max_row() };
            &&& g == SelectionGoal::NoGoal
            &&& layout.visible_rows is None ==> q == p
            &&& layout.visible_rows is Some ==> {
                &&& buf.valid_point(q)
                &&& first <= q.row <= capped
                &&& q.row <= capped - times || q.row == first
                &&& layout.vertical_scroll_margin_floor <= times ==> (q.row == capped - times || (q.row
                    == first && capped - times < first))
            }
        }),
{
    buf.lemma_line_bounds(buf.max_row());
    let (q, g) = window_bottom_of(buf, p, layout, times);
    if layout.visible_rows is Some {
        buf.lemma_line_bounds(q.row as int);
    }
}

} // verus!
