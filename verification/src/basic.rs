//! Motions by characters and by lines: `h`, `l`, backspace, space, `j`,
//! `k`, `0`, `$`, `gg`, `G`, `|`, `+`, `-`.

use vstd::prelude::*;

use crate::buffer::{DisplayPoint, TextBuffer};
use crate::movement::{
    column_for_x, column_for_x_exec, down, down_of, left as move_left, left_of, saturating_left,
    saturating_left_of, saturating_right, saturating_right_of, up, up_of, SelectionGoal,
};

verus! {

/// Clipping leaves a point alone that lies before the end of its line, or
/// anywhere on its line when the cursor may rest after the last character.
pub proof fn lemma_clip_valid(buf: TextBuffer, p: DisplayPoint)
    requires
        buf.valid_point(p),
    ensures
        buf.clip_to_text(p) == p,
        (p.column < buf.line_len(p.row as int) || p.column == 0 || !buf.clips_at_line_ends())
            ==> buf.clip(p) == p,
{
}

/// `h`: `times` characters to the left, not past the start of the line.
pub open spec fn left_n(buf: TextBuffer, p: DisplayPoint, times: nat) -> DisplayPoint {
    DisplayPoint {
        row: p.row,
        column: (p.column - (if times <= p.column {
            times as int
        } else {
            p.column as int
        })) as u32,
    }
}

pub fn left(buf: &TextBuffer, point: DisplayPoint, times: usize) -> (r: DisplayPoint)
    requires
        buf.valid_point(point),
    ensures
        r == left_n(*buf, point, times as nat),
        buf.valid_point(r),
{
    let mut p = point;
    let mut i: usize = 0;
    // a step from the first column stays there, so stopping there early
    // changes nothing
    while i < times && p.column > 0
        invariant
            buf.valid_point(p),
            i <= times,
            p.row == point.row,
            i <= point.column ==> p.column == point.column - i,
            i > point.column ==> p.column == 0,
        decreases times - i,
    {
        proof {
            if p.column > 0 {
                lemma_clip_valid(*buf, DisplayPoint { row: p.row, column: (p.column - 1) as u32 });
            } else {
                lemma_clip_valid(*buf, p);
            }
        }
        p = saturating_left(buf, p);
        i = i + 1;
    }
    p
}

/// Backspace: `times` characters to the left, over line ends, stopping at
/// the start of the text.
pub open spec fn backspace_n(buf: TextBuffer, p: DisplayPoint, times: nat) -> DisplayPoint
    decreases times,
{
    if times == 0 {
        p
    } else {
        let q = left_of(buf, p);
        if q.row == 0 && q.column == 0 {
            q
        } else {
            backspace_n(buf, q, (times - 1) as nat)
        }
    }
}

pub fn backspace(buf: &TextBuffer, point: DisplayPoint, times: usize) -> (r: DisplayPoint)
    requires
        buf.valid_point(point),
    ensures
        r == backspace_n(*buf, point, times as nat),
        buf.valid_point(r),
{
    let mut p = point;
    let mut i: usize = 0;
    while i < times
        invariant
            buf.valid_point(p),
            i <= times,
            backspace_n(*buf, point, times as nat) == backspace_n(*buf, p, (times - i) as nat),
        decreases times - i,
    {
        p = move_left(buf, p);
        i = i + 1;
        if p.is_zero() {
            return p;
        }
    }
    p
}

/// One character to the right, to the start of the next line from the last
/// character of a line; not clipped.
pub open spec fn wrapping_right_of(buf: TextBuffer, p: DisplayPoint) -> DisplayPoint {
    let max_column = if buf.line_len(p.row as int) > 0 {
        buf.line_len(p.row as int) - 1
    } else {
        0
    };
    if p.column < max_column {
        DisplayPoint { row: p.row, column: (p.column + 1) as u32 }
    } else if p.row < buf.max_row() {
        DisplayPoint { row: (p.row + 1) as u32, column: 0 }
    } else {
        p
    }
}

pub fn wrapping_right(buf: &TextBuffer, point: DisplayPoint) -> (r: DisplayPoint)
    requires
        buf.valid_point(point),
    ensures
        r == wrapping_right_of(*buf, point),
        buf.valid_point(r),
{
    proof {
        use_type_invariant(buf);
    }
    let len = buf.line_len_exec(point.row);
    let max_column = if len > 0 {
        len - 1
    } else {
        0
    };
    let mut p = point;
    if p.column < max_column {
        p.column = p.column + 1;
    } else if p.row < buf.max_row_exec() {
        p.row = p.row + 1;
        p.column = 0;
    }
    p
}

/// Space: `times` characters to the right, over line ends, stopping at the
/// end of the text.
pub open spec fn space_n(buf: TextBuffer, p: DisplayPoint, times: nat) -> DisplayPoint
    decreases times,
{
    if times == 0 {
        p
    } else {
        let q = wrapping_right_of(buf, p);
        if q == buf.max_point() {
            q
        } else {
            space_n(buf, q, (times - 1) as nat)
        }
    }
}

pub fn space(buf: &TextBuffer, point: DisplayPoint, times: usize) -> (r: DisplayPoint)
    requires
        buf.valid_point(point),
    ensures
        r == space_n(*buf, point, times as nat),
        buf.valid_point(r),
{
    let max = buf.max_point_exec();
    let mut p = point;
    let mut i: usize = 0;
    while i < times
        invariant
            buf.valid_point(p),
            max == buf.max_point(),
            i <= times,
            space_n(*buf, point, times as nat) == space_n(*buf, p, (times - i) as nat),
        decreases times - i,
    {
        p = wrapping_right(buf, p);
        i = i + 1;
        if p == max {
            return p;
        }
    }
    p
}

/// The last column the cursor can reach on row `row` by moving right.
pub open spec fn last_column(buf: TextBuffer, row: int) -> int {
    if buf.clips_at_line_ends() && buf.line_len(row) > 0 {
        buf.line_len(row) - 1
    } else {
        buf.line_len(row)
    }
}

/// `l`: `times` characters to the right, not past the last column of the line.
pub open spec fn right_n(buf: TextBuffer, p: DisplayPoint, times: nat) -> DisplayPoint {
    if times == 0 {
        p
    } else {
        DisplayPoint {
            row: p.row,
            column: (if p.column + times <= last_column(buf, p.row as int) {
                p.column + times
            } else {
                last_column(buf, p.row as int)
            }) as u32,
        }
    }
}

#[verifier::rlimit(30)]
#[verifier::spinoff_prover]
pub fn right(buf: &TextBuffer, point: DisplayPoint, times: usize) -> (r: DisplayPoint)
    requires
        buf.valid_point(point),
    ensures
        r == right_n(*buf, point, times as nat),
        buf.valid_point(r),
{
    proof {
        use_type_invariant(buf);
        buf.lemma_line_bounds(point.row as int);
    }
    let mut p = point;
    let mut i: usize = 0;
    while i < times
        invariant
            buf.wf(),
            buf.valid_point(p),
            i <= times,
            p.row == point.row,
            i == 0 ==> p == point,
            i > 0 ==> p == right_n(*buf, point, i as nat),
        decreases times - i,
    {
        let new_point = saturating_right(buf, p);
        if p == new_point {
            proof {
                if i == 0 {
                    assert(point.column == last_column(*buf, point.row as int));
                }
                assert forall|j: nat| j >= i && i > 0 implies right_n(*buf, point, j) == p by {
                }
            }
            return p;
        }
        p = new_point;
        i = i + 1;
    }
    p
}

/// The first column of the buffer row `times` rows away from the row of
/// `p`, kept within the text.
pub open spec fn relative_row_start(buf: TextBuffer, p: DisplayPoint, times: int) -> DisplayPoint {
    let target = p.row + times;
    let new_row: int = if target < 0 {
        0
    } else if target > buf.max_row() {
        buf.max_row()
    } else {
        target
    };
    buf.clip(DisplayPoint { row: new_row as u32, column: 0 })
}

pub fn start_of_relative_buffer_row(buf: &TextBuffer, point: DisplayPoint, times: i64) -> (r:
    DisplayPoint)
    requires
        buf.valid_point(point),
    ensures
        r == relative_row_start(*buf, point, times as int),
        buf.valid_point(r),
        r.column == 0,
{
    proof {
        use_type_invariant(buf);
    }
    let target: i128 = point.row as i128 + times as i128;
    let max_row = buf.max_row_exec();
    let new_row: u32 = if target < 0 {
        0
    } else if target > max_row as i128 {
        max_row
    } else {
        target as u32
    };
    buf.clip_exec(DisplayPoint { row: new_row, column: 0 })
}

/// `j` and `k` over buffer rows: `times` rows down (up when negative),
/// aiming for the goal column. The goal is kept, or set from the column of
/// `p` when there is none.
pub open spec fn up_down_rows_of(
    buf: TextBuffer,
    p: DisplayPoint,
    goal: SelectionGoal,
    times: int,
) -> (DisplayPoint, SelectionGoal) {
    let (goal_wrap, x, new_goal) = match goal {
        SelectionGoal::WrappedHorizontalPosition(row, x) => (row, x, goal),
        SelectionGoal::HorizontalRange { end, .. } => (0u32, end, goal),
        SelectionGoal::HorizontalPosition(x) => (0u32, x, goal),
        SelectionGoal::NoGoal => (
            0u32,
            p.column,
            SelectionGoal::WrappedHorizontalPosition(0, p.column),
        ),
    };
    let target = p.row + times;
    let new_row: int = if target < 0 {
        0
    } else if target > buf.max_row() {
        buf.max_row()
    } else {
        target
    };
    let new_col = if goal_wrap == 0 {
        column_for_x(buf, new_row, x)
    } else {
        buf.line_len(new_row) as u32
    };
    (buf.clip(DisplayPoint { row: new_row as u32, column: new_col }), new_goal)
}

/// Every display row is its own buffer row here, so a goal on a later
/// wrapped row of a line is not reached, and the move goes to the end of
/// the line.
pub fn up_down_buffer_rows(
    buf: &TextBuffer,
    point: DisplayPoint,
    goal: SelectionGoal,
    times: i64,
) -> (r: (DisplayPoint, SelectionGoal))
    requires
        buf.valid_point(point),
    ensures
        r == up_down_rows_of(*buf, point, goal, times as int),
        buf.valid_point(r.0),
{
    proof {
        use_type_invariant(buf);
    }
    let (goal_wrap, x, new_goal) = match goal {
        SelectionGoal::WrappedHorizontalPosition(row, x) => (row, x, goal),
        SelectionGoal::HorizontalRange { end, .. } => (0u32, end, goal),
        SelectionGoal::HorizontalPosition(x) => (0u32, x, goal),
        SelectionGoal::NoGoal => (
            0u32,
            point.column,
            SelectionGoal::WrappedHorizontalPosition(0, point.column),
        ),
    };
    let target: i128 = point.row as i128 + times as i128;
    let max_row = buf.max_row_exec();
    let new_row: u32 = if target < 0 {
        0
    } else if target > max_row as i128 {
        max_row
    } else {
        target as u32
    };
    let new_col = if goal_wrap == 0 {
        column_for_x_exec(buf, new_row, x)
    } else {
        buf.line_len_exec(new_row)
    };
    (buf.clip_exec(DisplayPoint { row: new_row, column: new_col }), new_goal)
}

/// `gj`: `times` display rows down.
pub open spec fn down_display_n(buf: TextBuffer, p: DisplayPoint, goal: SelectionGoal, times: nat) -> (
    DisplayPoint,
    SelectionGoal,
)
    decreases times,
{
    if times == 0 {
        (p, goal)
    } else {
        let (q, g) = down_of(buf, p, goal);
        down_display_n(buf, q, g, (times - 1) as nat)
    }
}

/// `gk`: `times` display rows up.
pub open spec fn up_display_n(buf: TextBuffer, p: DisplayPoint, goal: SelectionGoal, times: nat) -> (
    DisplayPoint,
    SelectionGoal,
)
    decreases times,
{
    if times == 0 {
        (p, goal)
    } else {
        let (q, g) = up_of(buf, p, goal);
        up_display_n(buf, q, g, (times - 1) as nat)
    }
}

pub fn down_display(buf: &TextBuffer, point: DisplayPoint, goal: SelectionGoal, times: usize) -> (r:
    (DisplayPoint, SelectionGoal))
    requires
        buf.valid_point(point),
    ensures
        r == down_display_n(*buf, point, goal, times as nat),
        buf.valid_point(r.0),
{
    let mut p = point;
    let mut g = goal;
    let mut i: usize = 0;
    while i < times
        invariant
            buf.valid_point(p),
            i <= times,
            down_display_n(*buf, point, goal, times as nat) == down_display_n(
                *buf,
                p,
                g,
                (times - i) as nat,
            ),
        decreases times - i,
    {
        let (q, h) = down(buf, p, g);
        p = q;
        g = h;
        i = i + 1;
    }
    (p, g)
}

pub fn up_display(buf: &TextBuffer, point: DisplayPoint, goal: SelectionGoal, times: usize) -> (r:
    (DisplayPoint, SelectionGoal))
    requires
        buf.valid_point(point),
    ensures
        r == up_display_n(*buf, point, goal, times as nat),
        buf.valid_point(r.0),
{
    let mut p = point;
    let mut g = goal;
    let mut i: usize = 0;
    while i < times
        invariant
            buf.valid_point(p),
            i <= times,
            up_display_n(*buf, point, goal, times as nat) == up_display_n(
                *buf,
                p,
                g,
                (times - i) as nat,
            ),
        decreases times - i,
    {
        let (q, h) = up(buf, p, g);
        p = q;
        g = h;
        i = i + 1;
    }
    (p, g)
}


/// `0`: the first column of the line.
pub fn start_of_line(buf: &TextBuffer, display_lines: bool, point: DisplayPoint) -> (r:
    DisplayPoint)
    requires
        buf.valid_point(point),
    ensures
        r == (DisplayPoint { row: point.row, column: 0 }),
        buf.valid_point(r),
{
    let start = DisplayPoint { row: point.row, column: 0 };
    if display_lines {
        buf.clip_exec(start)
    } else {
        start
    }
}

/// `$`: the end of the line `times - 1` rows down, clipped.
pub open spec fn end_of_line_of(buf: TextBuffer, p: DisplayPoint, times: int) -> DisplayPoint {
    let q = if times > 1 {
        relative_row_start(buf, p, times - 1)
    } else {
        p
    };
    buf.clip(DisplayPoint { row: q.row, column: buf.line_len(q.row as int) as u32 })
}

pub fn end_of_line(buf: &TextBuffer, _display_lines: bool, point: DisplayPoint, times: usize) -> (r:
    DisplayPoint)
    requires
        buf.valid_point(point),
        times <= i64::MAX,
    ensures
        r == end_of_line_of(*buf, point, times as int),
        buf.valid_point(r),
{
    proof {
        use_type_invariant(buf);
    }
    let mut point = point;
    if times > 1 {
        point = start_of_relative_buffer_row(buf, point, times as i64 - 1);
    }
    // a display line is a line of the text here, so both kinds of line
    // end at the same place
    let len = buf.line_len_exec(point.row);
    buf.clip_exec(DisplayPoint { row: point.row, column: len })
}

/// `gg` with a count: the column of `p` on buffer row `line - 1`.
pub open spec fn start_of_document_of(buf: TextBuffer, p: DisplayPoint, line: int) -> DisplayPoint {
    let q = buf.clip_to_text(DisplayPoint { row: (line - 1) as u32, column: 0 });
    buf.clip(DisplayPoint { row: q.row, column: p.column })
}

pub fn start_of_document(buf: &TextBuffer, point: DisplayPoint, line: usize) -> (r: DisplayPoint)
    requires
        line >= 1,
    ensures
        r == start_of_document_of(*buf, point, line as int),
        buf.valid_point(r),
{
    let mut new_point = buf.clip_to_text_exec(DisplayPoint { row: (line - 1) as u32, column: 0 });
    new_point.column = point.column;
    buf.clip_exec(new_point)
}

/// `G`: the column of `p` on buffer row `line - 1`, or on the last row.
pub open spec fn end_of_document_of(buf: TextBuffer, p: DisplayPoint, line: Option<usize>) -> DisplayPoint {
    let new_row: u32 = match line {
        Some(l) => (l - 1) as u32,
        None => buf.max_row() as u32,
    };
    buf.clip(buf.clip_to_text(DisplayPoint { row: new_row, column: p.column }))
}

pub fn end_of_document(buf: &TextBuffer, point: DisplayPoint, line: Option<usize>) -> (r:
    DisplayPoint)
    requires
        line matches Some(l) ==> l >= 1,
    ensures
        r == end_of_document_of(*buf, point, line),
        buf.valid_point(r),
{
    let new_row = match line {
        Some(l) => (l - 1) as u32,
        None => buf.max_row_exec(),
    };
    let q = buf.clip_to_text_exec(DisplayPoint { row: new_row, column: point.column });
    buf.clip_exec(q)
}

/// `|`: column `times` of the line, counting from one.
pub open spec fn go_to_column_of(buf: TextBuffer, p: DisplayPoint, times: int) -> DisplayPoint {
    right_n(
        buf,
        relative_row_start(buf, p, 0),
        (if times >= 1 {
            times - 1
        } else {
            0
        }) as nat,
    )
}

pub fn go_to_column(buf: &TextBuffer, point: DisplayPoint, times: usize) -> (r: DisplayPoint)
    requires
        buf.valid_point(point),
    ensures
        r == go_to_column_of(*buf, point, times as int),
        buf.valid_point(r),
{
    proof {
        use_type_invariant(buf);
    }
    let correct_line = start_of_relative_buffer_row(buf, point, 0);
    right(buf, correct_line, if times >= 1 { times - 1 } else { 0 })
}

/// The end of the line `times - 1` rows down.
pub open spec fn next_line_end_of(buf: TextBuffer, p: DisplayPoint, times: int) -> DisplayPoint {
    let q = if times > 1 {
        relative_row_start(buf, p, times - 1)
    } else {
        p
    };
    end_of_line_of(buf, q, 1)
}

pub fn next_line_end(buf: &TextBuffer, point: DisplayPoint, times: usize) -> (r: DisplayPoint)
    requires
        buf.valid_point(point),
        times <= i64::MAX,
    ensures
        r == next_line_end_of(*buf, point, times as int),
        buf.valid_point(r),
{
    proof {
        use_type_invariant(buf);
    }
    let mut point = point;
    if times > 1 {
        point = start_of_relative_buffer_row(buf, point, times as i64 - 1);
    }
    end_of_line(buf, false, point, 1)
}


/// `h` keeps to the line and never moves right; `l` keeps to the line and,
/// from a column the cursor can rest on, never moves left.
pub proof fn law_left_right_stay_on_line(buf: TextBuffer, p: DisplayPoint, n: nat)
    requires
        buf.wf(),
        buf.valid_point(p),
    ensures
        left_n(buf, p, n).row == p.row,
        left_n(buf, p, n).column <= p.column,
        right_n(buf, p, n).row == p.row,
        p.column <= last_column(buf, p.row as int) ==> right_n(buf, p, n).column >= p.column,
{
}

/// `n` characters left and then `n` right come back to the start, as long
/// as the line holds `n` characters before the cursor and the cursor
/// rests on a column it can reach.
pub proof fn law_left_then_right_returns(buf: TextBuffer, p: DisplayPoint, n: nat)
    requires
        buf.valid_point(p),
        n <= p.column,
        p.column <= last_column(buf, p.row as int),
    ensures
        right_n(buf, left_n(buf, p, n), n) == p,
{
}

/// `n` rows down and then `n` rows up with the goal column the first move
/// left come back to the start, when the rows below exist and the cursor
/// rests where clipping leaves it.
pub proof fn law_down_then_up_returns(buf: TextBuffer, p: DisplayPoint, n: int)
    requires
        buf.wf(),
        buf.valid_point(p),
        buf.clip(p) == p,
        0 <= n,
        p.row + n <= buf.max_row(),
    ensures
        ({
            let (q, g) = up_down_rows_of(buf, p, SelectionGoal::NoGoal, n);
            up_down_rows_of(buf, q, g, -n) == (p, g)
        }),
{
    let (q, g) = up_down_rows_of(buf, p, SelectionGoal::NoGoal, n);
    buf.lemma_line_bounds((p.row + n) as int);
    buf.lemma_line_bounds(p.row as int);
    assert(q.row == p.row + n);
}

/// `G` goes to the last line without a count and to line `l` (counted from
/// one) with a count of `l`, keeping the column where the line is long
/// enough to hold the character under it; past the last line it goes to
/// the end of the text.
pub proof fn law_end_of_document_row(buf: TextBuffer, p: DisplayPoint, line: Option<usize>)
    requires
        buf.wf(),
        line matches Some(l) ==> 1 <= l <= u32::MAX + 1,
    ensures
        ({
            let q = end_of_document_of(buf, p, line);
            let row: int = match line {
                Some(l) => l - 1,
                None => buf.max_row(),
            };
            &&& buf.valid_point(q)
            &&& row <= buf.max_row() ==> {
                &&& q.row == row
                &&& q.column <= p.column
                &&& p.column < buf.line_len(row) ==> q.column == p.column
            }
            &&& row > buf.max_row() ==> q == buf.clip(buf.max_point())
        }),
{
    buf.lemma_line_bounds(buf.max_row());
    let row: int = match line {
        Some(l) => l - 1,
        None => buf.max_row(),
    };
    if row <= buf.max_row() {
        buf.lemma_line_bounds(row);
    }
    buf.law_clip_idempotent(DisplayPoint { row: row as u32, column: p.column });
}

/// The first column of the row `times` rows away, stopping at the first and
/// the last row.
pub proof fn law_relative_row_start(buf: TextBuffer, p: DisplayPoint, times: int)
    requires
        buf.wf(),
        buf.valid_point(p),
    ensures
        ({
            let q = relative_row_start(buf, p, times);
            let target = p.row + times;
            &&& buf.valid_point(q)
            &&& q.column == 0
            &&& q.row == (if target < 0 { 0 } else if target > buf.max_row() { buf.max_row() } else { target })
        }),
{
    buf.lemma_line_bounds(buf.max_row());
    buf.lemma_line_bounds(0);
}

/// `j` and `k` over buffer rows move `times` rows (down when positive),
/// stopping at the first and the last row, keep the goal that was set (or
/// set it from the cursor's column), and land on the goal column where the
/// new line holds it, otherwise no further right than the line allows.
pub proof fn law_up_down_rows(buf: TextBuffer, p: DisplayPoint, goal: SelectionGoal, times: int)
    requires
        buf.wf(),
        buf.valid_point(p),
    ensures
        ({
            let (q, g) = up_down_rows_of(buf, p, goal, times);
            let target = p.row + times;
            let row = if target < 0 { 0 } else if target > buf.max_row() { buf.max_row() } else { target };
            let x = match goal {
                SelectionGoal::NoGoal => p.column,
                SelectionGoal::HorizontalPosition(x) => x,
                SelectionGoal::HorizontalRange { end, .. } => end,
                SelectionGoal::WrappedHorizontalPosition(_, x) => x,
            };
            let wrapped_row = match goal {
                SelectionGoal::WrappedHorizontalPosition(r, _) => r,
                _ => 0u32,
            };
            &&& buf.valid_point(q)
            &&& q.row == row
            &&& g == (match goal {
                SelectionGoal::NoGoal => SelectionGoal::WrappedHorizontalPosition(0, p.column),
                _ => goal,
            })
            &&& wrapped_row == 0 && x < buf.line_len(row) ==> q.column == x
            &&& wrapped_row == 0 ==> q.column <= x
        }),
{
    buf.lemma_line_bounds(buf.max_row());
    let target = p.row + times;
    let row = if target < 0 { 0 } else if target > buf.max_row() { buf.max_row() } else { target };
    buf.lemma_line_bounds(row);
}

/// `$` with a count of `n` goes `n - 1` rows down (stopping at the last
/// row) to the end of that line: after its last character, or onto it
/// where the cursor may not rest after it.
pub proof fn law_end_of_line(buf: TextBuffer, p: DisplayPoint, times: int)
    requires
        buf.wf(),
        buf.valid_point(p),
    ensures
        ({
            let q = end_of_line_of(buf, p, times);
            let row = if times <= 1 {
                p.row as int
            } else if p.row + times - 1 > buf.max_row() {
                buf.max_row()
            } else {
                p.row + times - 1
            };
            &&& buf.valid_point(q)
            &&& q.row == row
            &&& q.column == last_column(buf, row)
        }),
{
    buf.lemma_line_bounds(buf.max_row());
    buf.lemma_line_bounds(p.row as int);
    if times > 1 {
        law_relative_row_start(buf, p, times - 1);
        buf.lemma_line_bounds(relative_row_start(buf, p, times - 1).row as int);
    }
}

/// `gg` with a count of `l` goes to line `l` (counted from one, at most the
/// last line), keeping the column where the line is long enough to hold
/// the character under it.
pub proof fn law_start_of_document(buf: TextBuffer, p: DisplayPoint, line: int)
    requires
        buf.wf(),
        1 <= line <= u32::MAX + 1,
    ensures
        ({
            let q = start_of_document_of(buf, p, line);
            let row = if line - 1 > buf.max_row() { buf.max_row() } else { line - 1 };
            &&& buf.valid_point(q)
            &&& q.row == row
            &&& q.column <= p.column
            &&& p.column < buf.line_len(row) ==> q.column == p.column
        }),
{
    buf.lemma_line_bounds(buf.max_row());
    let row = if line - 1 > buf.max_row() { buf.max_row() } else { line - 1 };
    buf.lemma_line_bounds(row);
}

/// `|` with a count of `n` goes to column `n - 1` of the line, or to its
/// last column where the line is shorter.
pub proof fn law_go_to_column(buf: TextBuffer, p: DisplayPoint, times: int)
    requires
        buf.wf(),
        buf.valid_point(p),
        times >= 1,
    ensures
        ({
            let q = go_to_column_of(buf, p, times);
            &&& q.row == p.row
            &&& q.column == (if times - 1 <= last_column(buf, p.row as int) {
                times - 1
            } else {
                last_column(buf, p.row as int)
            })
        }),
{
    law_relative_row_start(buf, p, 0);
    buf.lemma_line_bounds(p.row as int);
}

/// Space never moves the cursor back, and backspace never moves it forward,
/// whatever the count.
pub proof fn law_space_forward_backspace_back(buf: TextBuffer, p: DisplayPoint, n: nat)
    requires
        buf.wf(),
        buf.valid_point(p),
    ensures
        buf.valid_point(space_n(buf, p, n)),
        buf.offset_of(space_n(buf, p, n)) >= buf.offset_of(p),
        buf.valid_point(backspace_n(buf, p, n)),
        buf.offset_of(backspace_n(buf, p, n)) <= buf.offset_of(p),
    decreases n,
{
    if n > 0 {
        buf.lemma_line_bounds(p.row as int);
        let q = wrapping_right_of(buf, p);
        if p.row < buf.max_row() {
            buf.lemma_line_bounds(p.row + 1);
        }
        let l = if p.column > 0 {
            DisplayPoint { row: p.row, column: (p.column - 1) as u32 }
        } else if p.row > 0 {
            DisplayPoint { row: (p.row - 1) as u32, column: buf.line_len(p.row - 1) as u32 }
        } else {
            p
        };
        if p.row > 0 {
            buf.lemma_line_bounds(p.row - 1);
        }
        buf.lemma_clip_offset(l);
        let b = left_of(buf, p);
        law_space_forward_backspace_back(buf, q, (n - 1) as nat);
        law_space_forward_backspace_back(buf, b, (n - 1) as nat);
    }
}

/// The current-line motion (`dd`, `yy`) with a count of `n` ends on the
/// row `n - 1` rows down (stopping at the last row), at the end of that line.
pub proof fn law_next_line_end(buf: TextBuffer, p: DisplayPoint, times: int)
    requires
        buf.wf(),
        buf.valid_point(p),
    ensures
        ({
            let q = next_line_end_of(buf, p, times);
            let row = if times <= 1 {
                p.row as int
            } else if p.row + times - 1 > buf.max_row() {
                buf.max_row()
            } else {
                p.row + times - 1
            };
            &&& buf.valid_point(q)
            &&& q.row == row
            &&& q.column == last_column(buf, row)
        }),
{
    if times > 1 {
        law_relative_row_start(buf, p, times - 1);
        law_end_of_line(buf, relative_row_start(buf, p, times - 1), 1);
    } else {
        law_end_of_line(buf, p, 1);
    }
}

} // verus!
