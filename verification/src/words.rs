//! Motions by words and by parts of words: `w`, `e`, `b`, `ge` and their
//! subword forms.

use vstd::prelude::*;

use crate::buffer::{DisplayPoint, TextBuffer};
use crate::chars::{is_whitespace_char, CharKind};
use crate::movement::{
    lemma_scan_backward, lemma_scan_backward_bounds, stops_backward, lemma_scan_forward, lemma_scan_forward_bounds, scan_backward,
    stops_forward,
    boundary_point, find_boundary, find_boundary_exclusive, find_preceding_boundary_display_point,
    find_preceding_boundary_point, preceding_boundary_point, repeat_until_stuck, saturating_left,
    saturating_left_of, scan_forward, scan_forward_exec, Boundary, FindRange,
};

verus! {

/// Each of up to `n` steps from `p`, stopping at the first step that stays
/// put, starts on a line that holds a character.
pub open spec fn steps_start_on_nonempty_lines(
    buf: TextBuffer,
    step: spec_fn(DisplayPoint) -> DisplayPoint,
    p: DisplayPoint,
    n: nat,
) -> bool
    decreases n,
{
    n == 0 || (buf.line_len(p.row as int) > 0 && (step(p) == p || steps_start_on_nonempty_lines(
        buf,
        step,
        step(p),
        (n - 1) as nat,
    )))
}

/// One character to the right; across the end of the line to the start of
/// the next when `allow_cross_newline`, and otherwise not onto the last
/// character of the line.
pub open spec fn next_char_of(buf: TextBuffer, p: DisplayPoint, allow_cross_newline: bool) -> DisplayPoint {
    let max_column = if allow_cross_newline {
        buf.line_len(p.row as int)
    } else {
        buf.line_len(p.row as int) - 1
    };
    buf.clip_to_text(
        if p.column < max_column {
            DisplayPoint { row: p.row, column: (p.column + 1) as u32 }
        } else if p.precedes(buf.max_point()) && allow_cross_newline {
            DisplayPoint { row: (p.row + 1) as u32, column: 0 }
        } else {
            p
        },
    )
}

pub fn next_char(buf: &TextBuffer, point: DisplayPoint, allow_cross_newline: bool) -> (r:
    DisplayPoint)
    requires
        buf.valid_point(point),
        !allow_cross_newline ==> buf.line_len(point.row as int) > 0,
    ensures
        r == next_char_of(*buf, point, allow_cross_newline),
        buf.valid_point(r),
{
    proof {
        use_type_invariant(buf);
        buf.lemma_line_bounds(point.row as int);
    }
    let mut max_column = buf.line_len_exec(point.row);
    if !allow_cross_newline {
        max_column = max_column - 1;
    }
    let mut new_point = point;
    let max_point = buf.max_point_exec();
    if new_point.column < max_column {
        new_point.column = new_point.column + 1;
    } else if new_point.is_before(&max_point) && allow_cross_newline {
        new_point.row = new_point.row + 1;
        new_point.column = 0;
    }
    buf.clip_to_text_exec(new_point)
}

// ---------------------------------------------------------------------------
// Forward

/// One `w` step: to the start of the next word, or to the next empty line.
pub open spec fn word_start_step(buf: TextBuffer, p: DisplayPoint, ip: bool) -> DisplayPoint {
    boundary_point(buf, p, FindRange::MultiLine, Boundary::WordStart { ignore_punctuation: ip }, false)
}

pub open spec fn word_start_stepper(buf: TextBuffer, ip: bool) -> spec_fn(DisplayPoint) -> DisplayPoint {
    |p: DisplayPoint| word_start_step(buf, p, ip)
}

/// `w`: `times` steps to the start of the next word, stopping where a step
/// no longer moves.
pub open spec fn next_word_start_of(buf: TextBuffer, p: DisplayPoint, ip: bool, times: nat) -> DisplayPoint {
    repeat_until_stuck(word_start_stepper(buf, ip), p, times)
}

pub fn next_word_start(
    buf: &TextBuffer,
    point: DisplayPoint,
    ignore_punctuation: bool,
    times: usize,
) -> (r: DisplayPoint)
    requires
        buf.valid_point(point),
    ensures
        r == next_word_start_of(*buf, point, ignore_punctuation, times as nat),
        buf.valid_point(r),
{
    let mut p = point;
    let mut i: usize = 0;
    while i < times
        invariant
            buf.valid_point(p),
            i <= times,
            next_word_start_of(*buf, point, ignore_punctuation, times as nat) == repeat_until_stuck(
                word_start_stepper(*buf, ignore_punctuation),
                p,
                (times - i) as nat,
            ),
        decreases times - i,
    {
        let new_point = find_boundary(
            buf,
            p,
            FindRange::MultiLine,
            Boundary::WordStart { ignore_punctuation },
        );
        if p == new_point {
            return p;
        }
        p = new_point;
        i = i + 1;
    }
    p
}

/// One `e` step: one character on, then to the last character of the
/// word there; where the scan may not cross a line end and stops at one,
/// on to the next line.
pub open spec fn word_end_step(buf: TextBuffer, p: DisplayPoint, ip: bool, allow: bool) -> DisplayPoint {
    let b = Boundary::WordEnd { ignore_punctuation: ip, allow_cross_newline: allow };
    let np = next_char_of(buf, p, allow);
    let q = scan_forward(buf, b, false, buf.offset_of(np));
    let r = boundary_point(buf, np, FindRange::MultiLine, b, true);
    let need_next_char = q < buf.len() && !allow && buf.text()[q] == '\n';
    buf.clip(
        if need_next_char {
            next_char_of(buf, r, true)
        } else {
            r
        },
    )
}

pub open spec fn word_end_stepper(buf: TextBuffer, ip: bool, allow: bool) -> spec_fn(DisplayPoint) -> DisplayPoint {
    |p: DisplayPoint| word_end_step(buf, p, ip, allow)
}

/// `e`: `times` steps to the end of the next word, stopping where a step
/// no longer moves.
pub open spec fn next_word_end_of(buf: TextBuffer, p: DisplayPoint, ip: bool, times: nat, allow: bool) -> DisplayPoint {
    repeat_until_stuck(word_end_stepper(buf, ip, allow), p, times)
}

fn word_end_step_exec(buf: &TextBuffer, p: DisplayPoint, ignore_punctuation: bool, allow_cross_newline: bool) -> (r: DisplayPoint)
    requires
        buf.valid_point(p),
        !allow_cross_newline ==> buf.line_len(p.row as int) > 0,
    ensures
        r == word_end_step(*buf, p, ignore_punctuation, allow_cross_newline),
        buf.valid_point(r),
{
    let b = Boundary::WordEnd { ignore_punctuation, allow_cross_newline };
    let np = next_char(buf, p, allow_cross_newline);
    let f = buf.to_offset(np);
    let q = scan_forward_exec(buf, b, FindRange::MultiLine, f);
    let r = find_boundary_exclusive(buf, np, FindRange::MultiLine, b);
    let need_next_char = q < buf.len_chars() && !allow_cross_newline && buf.char_at_exec(
        q,
    ).unwrap() == '\n';
    let r2 = if need_next_char {
        next_char(buf, r, true)
    } else {
        r
    };
    let new_point = buf.clip_exec(r2);
    new_point
}

/// `next_word_end` where it is defined: `None` when line crossing is off
/// and one of the steps would start on an empty line.
pub fn next_word_end_checked(
    buf: &TextBuffer,
    point: DisplayPoint,
    ignore_punctuation: bool,
    times: usize,
    allow_cross_newline: bool,
) -> (r: Option<DisplayPoint>)
    requires
        buf.valid_point(point),
    ensures
        r is Some <==> (allow_cross_newline || steps_start_on_nonempty_lines(
            *buf,
            word_end_stepper(*buf, ignore_punctuation, allow_cross_newline),
            point,
            times as nat,
        )),
        r matches Some(q) ==> q == next_word_end_of(
            *buf,
            point,
            ignore_punctuation,
            times as nat,
            allow_cross_newline,
        ),
{
    let mut p = point;
    let mut i: usize = 0;
    while i < times
        invariant
            buf.valid_point(p),
            i <= times,
            !allow_cross_newline ==> (steps_start_on_nonempty_lines(
                *buf,
                word_end_stepper(*buf, ignore_punctuation, allow_cross_newline),
                point,
                times as nat,
            ) <==> steps_start_on_nonempty_lines(
                *buf,
                word_end_stepper(*buf, ignore_punctuation, allow_cross_newline),
                p,
                (times - i) as nat,
            )),
            next_word_end_of(*buf, point, ignore_punctuation, times as nat, allow_cross_newline)
                == repeat_until_stuck(
                word_end_stepper(*buf, ignore_punctuation, allow_cross_newline),
                p,
                (times - i) as nat,
            ),
        decreases times - i,
    {
        if !allow_cross_newline && buf.line_len_exec(p.row) == 0 {
            return None;
        }
        let new_point = word_end_step_exec(buf, p, ignore_punctuation, allow_cross_newline);
        assert(word_end_stepper(*buf, ignore_punctuation, allow_cross_newline)(p) == new_point);
        if p == new_point {
            return Some(p);
        }
        p = new_point;
        i = i + 1;
    }
    Some(p)
}

pub fn next_word_end(
    buf: &TextBuffer,
    point: DisplayPoint,
    ignore_punctuation: bool,
    times: usize,
    allow_cross_newline: bool,
) -> (r: DisplayPoint)
    requires
        buf.valid_point(point),
        allow_cross_newline || steps_start_on_nonempty_lines(
            *buf,
            word_end_stepper(*buf, ignore_punctuation, allow_cross_newline),
            point,
            times as nat,
        ),
    ensures
        r == next_word_end_of(*buf, point, ignore_punctuation, times as nat, allow_cross_newline),
        buf.valid_point(r),
{
    let mut p = point;
    let mut i: usize = 0;
    while i < times
        invariant
            buf.valid_point(p),
            i <= times,
            allow_cross_newline || steps_start_on_nonempty_lines(
                *buf,
                word_end_stepper(*buf, ignore_punctuation, allow_cross_newline),
                p,
                (times - i) as nat,
            ),
            next_word_end_of(*buf, point, ignore_punctuation, times as nat, allow_cross_newline)
                == repeat_until_stuck(
                word_end_stepper(*buf, ignore_punctuation, allow_cross_newline),
                p,
                (times - i) as nat,
            ),
        decreases times - i,
    {
        let new_point = word_end_step_exec(buf, p, ignore_punctuation, allow_cross_newline);
        assert(word_end_stepper(*buf, ignore_punctuation, allow_cross_newline)(p) == new_point);
        if p == new_point {
            return p;
        }
        p = new_point;
        i = i + 1;
    }
    p
}

/// One step to the start of the next part of a word.
pub open spec fn subword_start_step(buf: TextBuffer, p: DisplayPoint, ip: bool) -> DisplayPoint {
    boundary_point(buf, p, FindRange::MultiLine, Boundary::SubwordStart { ignore_punctuation: ip }, false)
}

pub open spec fn subword_start_stepper(buf: TextBuffer, ip: bool) -> spec_fn(DisplayPoint) -> DisplayPoint {
    |p: DisplayPoint| subword_start_step(buf, p, ip)
}

/// `times` steps to the start of the next part of a word.
pub open spec fn next_subword_start_of(buf: TextBuffer, p: DisplayPoint, ip: bool, times: nat) -> DisplayPoint {
    repeat_until_stuck(subword_start_stepper(buf, ip), p, times)
}

pub fn next_subword_start(
    buf: &TextBuffer,
    point: DisplayPoint,
    ignore_punctuation: bool,
    times: usize,
) -> (r: DisplayPoint)
    requires
        buf.valid_point(point),
    ensures
        r == next_subword_start_of(*buf, point, ignore_punctuation, times as nat),
        buf.valid_point(r),
{
    let mut p = point;
    let mut i: usize = 0;
    while i < times
        invariant
            buf.valid_point(p),
            i <= times,
            next_subword_start_of(*buf, point, ignore_punctuation, times as nat)
                == repeat_until_stuck(
                subword_start_stepper(*buf, ignore_punctuation),
                p,
                (times - i) as nat,
            ),
        decreases times - i,
    {
        let new_point = find_boundary(
            buf,
            p,
            FindRange::MultiLine,
            Boundary::SubwordStart { ignore_punctuation },
        );
        if p == new_point {
            return p;
        }
        p = new_point;
        i = i + 1;
    }
    p
}

/// One step to the end of the next part of a word: one character on, then
/// to the place where a part of a word ends, and back onto its last
/// character when the scan stopped there.
pub open spec fn subword_end_step(buf: TextBuffer, p: DisplayPoint, ip: bool, allow: bool) -> DisplayPoint {
    let b = Boundary::SubwordEnd { ignore_punctuation: ip, allow_cross_newline: allow };
    let np = next_char_of(buf, p, allow);
    let q = scan_forward(buf, b, false, buf.offset_of(np));
    let r = buf.clip(boundary_point(buf, np, FindRange::MultiLine, b, false));
    let need_backtrack = q < buf.len() && !(!allow && buf.text()[q] == '\n');
    if need_backtrack {
        DisplayPoint { row: r.row, column: (r.column - 1) as u32 }
    } else {
        r
    }
}

pub open spec fn subword_end_stepper(buf: TextBuffer, ip: bool, allow: bool) -> spec_fn(DisplayPoint) -> DisplayPoint {
    |p: DisplayPoint| subword_end_step(buf, p, ip, allow)
}

/// `times` steps to the end of the next part of a word.
pub open spec fn next_subword_end_of(buf: TextBuffer, p: DisplayPoint, ip: bool, times: nat, allow: bool) -> DisplayPoint {
    repeat_until_stuck(subword_end_stepper(buf, ip, allow), p, times)
}

fn subword_end_step_exec(buf: &TextBuffer, p: DisplayPoint, ignore_punctuation: bool, allow_cross_newline: bool) -> (r: DisplayPoint)
    requires
        buf.valid_point(p),
        !allow_cross_newline ==> buf.line_len(p.row as int) > 0,
    ensures
        r == subword_end_step(*buf, p, ignore_punctuation, allow_cross_newline),
        buf.valid_point(r),
{
    let b = Boundary::SubwordEnd { ignore_punctuation, allow_cross_newline };
    let np = next_char(buf, p, allow_cross_newline);
    let f = buf.to_offset(np);
    let q = scan_forward_exec(buf, b, FindRange::MultiLine, f);
    let r0 = find_boundary(buf, np, FindRange::MultiLine, b);
    let mut new_point = buf.clip_exec(r0);
    let need_backtrack = q < buf.len_chars() && !(!allow_cross_newline && buf.char_at_exec(
        q,
    ).unwrap() == '\n');
    if need_backtrack {
        proof {
        use_type_invariant(buf);
        buf.lemma_point_of_column(q as int);
        buf.lemma_point_of(q as int);
        }
        new_point.column = new_point.column - 1;
    }
    new_point
}

/// `next_subword_end` where it is defined: `None` when line crossing is off
/// and one of the steps would start on an empty line.
pub fn next_subword_end_checked(
    buf: &TextBuffer,
    point: DisplayPoint,
    ignore_punctuation: bool,
    times: usize,
    allow_cross_newline: bool,
) -> (r: Option<DisplayPoint>)
    requires
        buf.valid_point(point),
    ensures
        r is Some <==> (allow_cross_newline || steps_start_on_nonempty_lines(
            *buf,
            subword_end_stepper(*buf, ignore_punctuation, allow_cross_newline),
            point,
            times as nat,
        )),
        r matches Some(q) ==> q == next_subword_end_of(
            *buf,
            point,
            ignore_punctuation,
            times as nat,
            allow_cross_newline,
        ),
{
    let mut p = point;
    let mut i: usize = 0;
    while i < times
        invariant
            buf.valid_point(p),
            i <= times,
            !allow_cross_newline ==> (steps_start_on_nonempty_lines(
                *buf,
                subword_end_stepper(*buf, ignore_punctuation, allow_cross_newline),
                point,
                times as nat,
            ) <==> steps_start_on_nonempty_lines(
                *buf,
                subword_end_stepper(*buf, ignore_punctuation, allow_cross_newline),
                p,
                (times - i) as nat,
            )),
            next_subword_end_of(*buf, point, ignore_punctuation, times as nat, allow_cross_newline)
                == repeat_until_stuck(
                subword_end_stepper(*buf, ignore_punctuation, allow_cross_newline),
                p,
                (times - i) as nat,
            ),
        decreases times - i,
    {
        if !allow_cross_newline && buf.line_len_exec(p.row) == 0 {
            return None;
        }
        let new_point = subword_end_step_exec(buf, p, ignore_punctuation, allow_cross_newline);
        assert(subword_end_stepper(*buf, ignore_punctuation, allow_cross_newline)(p) == new_point);
        if p == new_point {
            return Some(p);
        }
        p = new_point;
        i = i + 1;
    }
    Some(p)
}

pub fn next_subword_end(
    buf: &TextBuffer,
    point: DisplayPoint,
    ignore_punctuation: bool,
    times: usize,
    allow_cross_newline: bool,
) -> (r: DisplayPoint)
    requires
        buf.valid_point(point),
        allow_cross_newline || steps_start_on_nonempty_lines(
            *buf,
            subword_end_stepper(*buf, ignore_punctuation, allow_cross_newline),
            point,
            times as nat,
        ),
    ensures
        r == next_subword_end_of(*buf, point, ignore_punctuation, times as nat, allow_cross_newline),
        buf.valid_point(r),
{
    let mut p = point;
    let mut i: usize = 0;
    while i < times
        invariant
            buf.valid_point(p),
            i <= times,
            allow_cross_newline || steps_start_on_nonempty_lines(
                *buf,
                subword_end_stepper(*buf, ignore_punctuation, allow_cross_newline),
                p,
                (times - i) as nat,
            ),
            next_subword_end_of(*buf, point, ignore_punctuation, times as nat, allow_cross_newline)
                == repeat_until_stuck(
                subword_end_stepper(*buf, ignore_punctuation, allow_cross_newline),
                p,
                (times - i) as nat,
            ),
        decreases times - i,
    {
        let new_point = subword_end_step_exec(buf, p, ignore_punctuation, allow_cross_newline);
        assert(subword_end_stepper(*buf, ignore_punctuation, allow_cross_newline)(p) == new_point);
        if p == new_point {
            return p;
        }
        p = new_point;
        i = i + 1;
    }
    p
}

// ---------------------------------------------------------------------------
// Backward

/// One backward step that stops where the scan for `b` stops, clipped.
pub open spec fn preceding_step(buf: TextBuffer, p: DisplayPoint, b: Boundary) -> DisplayPoint {
    buf.clip(preceding_boundary_point(buf, p, FindRange::MultiLine, b))
}

pub open spec fn preceding_stepper(buf: TextBuffer, b: Boundary) -> spec_fn(DisplayPoint) -> DisplayPoint {
    |p: DisplayPoint| preceding_step(buf, p, b)
}

/// One backward step that stops where the scan for `b` stops, not clipped.
pub open spec fn preceding_point_stepper(buf: TextBuffer, b: Boundary) -> spec_fn(DisplayPoint) -> DisplayPoint {
    |p: DisplayPoint| preceding_boundary_point(buf, p, FindRange::MultiLine, b)
}

/// `b`: `times` steps back to the start of a word.
pub open spec fn previous_word_start_of(buf: TextBuffer, p: DisplayPoint, ip: bool, times: nat) -> DisplayPoint {
    repeat_until_stuck(
        preceding_stepper(buf, Boundary::PrecedingWordStart { ignore_punctuation: ip }),
        p,
        times,
    )
}

/// The preceding-scan loop shared by `b` and its subword form.
fn repeat_preceding(buf: &TextBuffer, point: DisplayPoint, b: Boundary, times: usize) -> (r:
    DisplayPoint)
    requires
        buf.valid_point(point),
    ensures
        r == repeat_until_stuck(preceding_stepper(*buf, b), point, times as nat),
        buf.valid_point(r),
{
    let mut p = point;
    let mut i: usize = 0;
    while i < times
        invariant
            buf.valid_point(p),
            i <= times,
            repeat_until_stuck(preceding_stepper(*buf, b), point, times as nat)
                == repeat_until_stuck(preceding_stepper(*buf, b), p, (times - i) as nat),
        decreases times - i,
    {
        let new_point = find_preceding_boundary_display_point(buf, p, FindRange::MultiLine, b);
        if p == new_point {
            return p;
        }
        p = new_point;
        i = i + 1;
    }
    p
}

pub fn previous_word_start(
    buf: &TextBuffer,
    point: DisplayPoint,
    ignore_punctuation: bool,
    times: usize,
) -> (r: DisplayPoint)
    requires
        buf.valid_point(point),
    ensures
        r == previous_word_start_of(*buf, point, ignore_punctuation, times as nat),
        buf.valid_point(r),
{
    repeat_preceding(buf, point, Boundary::PrecedingWordStart { ignore_punctuation }, times)
}

/// Backward steps to the end of a word: from one character on (when not
/// at the end of the line), `times` unclipped steps, then one character left.
pub open spec fn preceding_end_of(buf: TextBuffer, p: DisplayPoint, b: Boundary, times: nat) -> DisplayPoint {
    let start = if p.column < buf.line_len(p.row as int) {
        DisplayPoint { row: p.row, column: (p.column + 1) as u32 }
    } else {
        p
    };
    saturating_left_of(buf, repeat_until_stuck(preceding_point_stepper(buf, b), start, times))
}

fn preceding_end(buf: &TextBuffer, point: DisplayPoint, b: Boundary, times: usize) -> (r:
    DisplayPoint)
    requires
        buf.valid_point(point),
    ensures
        r == preceding_end_of(*buf, point, b, times as nat),
        buf.valid_point(r),
{
    let mut p = point;
    if p.column < buf.line_len_exec(p.row) {
        p.column = p.column + 1;
    }
    let ghost start = p;
    let mut i: usize = 0;
    while i < times
        invariant
            buf.valid_point(p),
            i <= times,
            start == (if point.column < buf.line_len(point.row as int) {
                DisplayPoint { row: point.row, column: (point.column + 1) as u32 }
            } else {
                point
            }),
            repeat_until_stuck(preceding_point_stepper(*buf, b), start, times as nat)
                == repeat_until_stuck(preceding_point_stepper(*buf, b), p, (times - i) as nat),
        decreases times - i,
    {
        let new_point = find_preceding_boundary_point(buf, p, FindRange::MultiLine, b);
        if new_point == p {
            return saturating_left(buf, p);
        }
        p = new_point;
        i = i + 1;
    }
    saturating_left(buf, p)
}

/// `ge`: `times` steps back to the end of a word.
pub open spec fn previous_word_end_of(buf: TextBuffer, p: DisplayPoint, ip: bool, times: nat) -> DisplayPoint {
    preceding_end_of(buf, p, Boundary::PrecedingWordEnd { ignore_punctuation: ip }, times)
}

pub fn previous_word_end(
    buf: &TextBuffer,
    point: DisplayPoint,
    ignore_punctuation: bool,
    times: usize,
) -> (r: DisplayPoint)
    requires
        buf.valid_point(point),
    ensures
        r == previous_word_end_of(*buf, point, ignore_punctuation, times as nat),
        buf.valid_point(r),
{
    preceding_end(buf, point, Boundary::PrecedingWordEnd { ignore_punctuation }, times)
}

/// `times` steps back to the start of a part of a word.
pub open spec fn previous_subword_start_of(buf: TextBuffer, p: DisplayPoint, ip: bool, times: nat) -> DisplayPoint {
    repeat_until_stuck(
        preceding_stepper(buf, Boundary::PrecedingSubwordStart { ignore_punctuation: ip }),
        p,
        times,
    )
}

pub fn previous_subword_start(
    buf: &TextBuffer,
    point: DisplayPoint,
    ignore_punctuation: bool,
    times: usize,
) -> (r: DisplayPoint)
    requires
        buf.valid_point(point),
    ensures
        r == previous_subword_start_of(*buf, point, ignore_punctuation, times as nat),
        buf.valid_point(r),
{
    repeat_preceding(buf, point, Boundary::PrecedingSubwordStart { ignore_punctuation }, times)
}

/// `times` steps back to the end of a part of a word.
pub open spec fn previous_subword_end_of(buf: TextBuffer, p: DisplayPoint, ip: bool, times: nat) -> DisplayPoint {
    preceding_end_of(buf, p, Boundary::PrecedingSubwordEnd { ignore_punctuation: ip }, times)
}

pub fn previous_subword_end(
    buf: &TextBuffer,
    point: DisplayPoint,
    ignore_punctuation: bool,
    times: usize,
) -> (r: DisplayPoint)
    requires
        buf.valid_point(point),
    ensures
        r == previous_subword_end_of(*buf, point, ignore_punctuation, times as nat),
        buf.valid_point(r),
{
    preceding_end(buf, point, Boundary::PrecedingSubwordEnd { ignore_punctuation }, times)
}


// ---------------------------------------------------------------------------
// Direction

/// A forward scan that ends at the first stop never lands before where it
/// started, and lands where the cursor may rest.
proof fn lemma_boundary_point_forward(buf: TextBuffer, p: DisplayPoint, b: Boundary)
    requires
        buf.wf(),
        buf.valid_point(p),
        buf.clip(p) == p,
    ensures
        buf.valid_point(boundary_point(buf, p, FindRange::MultiLine, b, false)),
        buf.clip(boundary_point(buf, p, FindRange::MultiLine, b, false)) == boundary_point(
            buf,
            p,
            FindRange::MultiLine,
            b,
            false,
        ),
        buf.offset_of(boundary_point(buf, p, FindRange::MultiLine, b, false)) >= buf.offset_of(p),
{
    let f = buf.offset_of(p);
    buf.lemma_valid_point_offset(p);
    lemma_scan_forward_bounds(buf, b, false, f);
    let q = scan_forward(buf, b, false, f);
    buf.law_offset_point_round_trip(q);
    buf.lemma_clip_offset(buf.point_of(q));
    buf.law_clip_idempotent(buf.point_of(q));
    if q == f {
        buf.law_point_offset_round_trip(p);
    }
}

/// `w`, and its subword form, never move the cursor back, and keep it
/// where it may rest.
pub proof fn law_next_word_start_moves_forward(buf: TextBuffer, p: DisplayPoint, ip: bool, n: nat)
    requires
        buf.wf(),
        buf.valid_point(p),
        buf.clip(p) == p,
    ensures
        buf.valid_point(next_word_start_of(buf, p, ip, n)),
        buf.offset_of(next_word_start_of(buf, p, ip, n)) >= buf.offset_of(p),
        buf.valid_point(next_subword_start_of(buf, p, ip, n)),
        buf.offset_of(next_subword_start_of(buf, p, ip, n)) >= buf.offset_of(p),
    decreases n,
{
    if n > 0 {
        lemma_boundary_point_forward(buf, p, Boundary::WordStart { ignore_punctuation: ip });
        lemma_boundary_point_forward(buf, p, Boundary::SubwordStart { ignore_punctuation: ip });
        let q = word_start_step(buf, p, ip);
        let r = subword_start_step(buf, p, ip);
        assert(word_start_stepper(buf, ip)(p) == q);
        assert(subword_start_stepper(buf, ip)(p) == r);
        law_next_word_start_moves_forward(buf, q, ip, (n - 1) as nat);
        law_next_word_start_moves_forward(buf, r, ip, (n - 1) as nat);
    }
}

/// A backward scan, clipped, never lands after where it started.
proof fn lemma_preceding_step_backward(buf: TextBuffer, p: DisplayPoint, b: Boundary)
    requires
        buf.wf(),
        buf.valid_point(p),
    ensures
        buf.valid_point(preceding_step(buf, p, b)),
        buf.offset_of(preceding_step(buf, p, b)) <= buf.offset_of(p),
{
    let f = buf.offset_of(p);
    buf.lemma_valid_point_offset(p);
    lemma_scan_backward_bounds(buf, b, false, f);
    let r = scan_backward(buf, b, false, f);
    buf.law_offset_point_round_trip(r);
    buf.lemma_clip_offset(buf.point_of(r));
    buf.law_clip_idempotent(buf.point_of(r));
}

/// `b`, and its subword form, never move the cursor forward.
pub proof fn law_previous_word_start_moves_backward(buf: TextBuffer, p: DisplayPoint, ip: bool, n: nat)
    requires
        buf.wf(),
        buf.valid_point(p),
    ensures
        buf.valid_point(previous_word_start_of(buf, p, ip, n)),
        buf.offset_of(previous_word_start_of(buf, p, ip, n)) <= buf.offset_of(p),
        buf.valid_point(previous_subword_start_of(buf, p, ip, n)),
        buf.offset_of(previous_subword_start_of(buf, p, ip, n)) <= buf.offset_of(p),
    decreases n,
{
    if n > 0 {
        let bw = Boundary::PrecedingWordStart { ignore_punctuation: ip };
        let bs = Boundary::PrecedingSubwordStart { ignore_punctuation: ip };
        lemma_preceding_step_backward(buf, p, bw);
        lemma_preceding_step_backward(buf, p, bs);
        let q = preceding_step(buf, p, bw);
        let r = preceding_step(buf, p, bs);
        assert(preceding_stepper(buf, bw)(p) == q);
        assert(preceding_stepper(buf, bs)(p) == r);
        law_previous_word_start_moves_backward(buf, q, ip, (n - 1) as nat);
        law_previous_word_start_moves_backward(buf, r, ip, (n - 1) as nat);
    }
}

/// Unclipped backward steps never land after where they started, and land
/// strictly before it unless they stay put.
proof fn lemma_repeat_preceding_points(buf: TextBuffer, b: Boundary, p: DisplayPoint, n: nat)
    requires
        buf.wf(),
        buf.valid_point(p),
    ensures
        ({
            let r = repeat_until_stuck(preceding_point_stepper(buf, b), p, n);
            &&& buf.valid_point(r)
            &&& r == p || buf.offset_of(r) < buf.offset_of(p)
        }),
    decreases n,
{
    if n > 0 {
        let f = buf.offset_of(p);
        buf.lemma_valid_point_offset(p);
        lemma_scan_backward_bounds(buf, b, false, f);
        let o = scan_backward(buf, b, false, f);
        buf.law_offset_point_round_trip(o);
        let q = preceding_boundary_point(buf, p, FindRange::MultiLine, b);
        assert(preceding_point_stepper(buf, b)(p) == q);
        if q != p {
            buf.law_point_offset_round_trip(p);
            lemma_repeat_preceding_points(buf, b, q, (n - 1) as nat);
        }
    }
}

/// `ge`, and its subword form, never move the cursor forward.
pub proof fn law_previous_word_end_moves_backward(buf: TextBuffer, p: DisplayPoint, ip: bool, n: nat)
    requires
        buf.wf(),
        buf.valid_point(p),
    ensures
        buf.offset_of(previous_word_end_of(buf, p, ip, n)) <= buf.offset_of(p),
        buf.offset_of(previous_subword_end_of(buf, p, ip, n)) <= buf.offset_of(p),
{
    let start = if p.column < buf.line_len(p.row as int) {
        DisplayPoint { row: p.row, column: (p.column + 1) as u32 }
    } else {
        p
    };
    buf.lemma_line_bounds(p.row as int);
    let bw = Boundary::PrecedingWordEnd { ignore_punctuation: ip };
    let bs = Boundary::PrecedingSubwordEnd { ignore_punctuation: ip };
    lemma_repeat_preceding_points(buf, bw, start, n);
    lemma_repeat_preceding_points(buf, bs, start, n);
    let rw = repeat_until_stuck(preceding_point_stepper(buf, bw), start, n);
    let rs = repeat_until_stuck(preceding_point_stepper(buf, bs), start, n);
    if rw.column > 0 {
        buf.lemma_clip_offset(DisplayPoint { row: rw.row, column: (rw.column - 1) as u32 });
    } else {
        buf.lemma_clip_offset(rw);
    }
    if rs.column > 0 {
        buf.lemma_clip_offset(DisplayPoint { row: rs.row, column: (rs.column - 1) as u32 });
    } else {
        buf.lemma_clip_offset(rs);
    }
}

/// `e` (and `E` when punctuation is ignored) from the first character of a
/// run of at least two characters of one kind, not whitespace, lands on the
/// last character of that run.
pub proof fn law_word_end_of_run(buf: TextBuffer, p: DisplayPoint, ip: bool, e: int)
    requires
        buf.wf(),
        buf.valid_point(p),
        buf.offset_of(p) < e,
        e + 1 < buf.len(),
        buf.kind_of(ip, buf.text()[buf.offset_of(p)]) != CharKind::Whitespace,
        forall|i: int|
            buf.offset_of(p) <= i <= e ==> buf.kind_of(ip, #[trigger] buf.text()[i]) == buf.kind_of(
                ip,
                buf.text()[buf.offset_of(p)],
            ),
        buf.kind_of(ip, buf.text()[e + 1]) != buf.kind_of(ip, buf.text()[buf.offset_of(p)]),
    ensures
        next_word_end_of(buf, p, ip, 1, true) == buf.point_of(e),
{
    let s = buf.offset_of(p);
    let kind = buf.kind_of(ip, buf.text()[s]);
    buf.lemma_valid_point_offset(p);
    let r = p.row as int;
    buf.lemma_line_bounds(r);
    // the run holds no line end, so it lies on the line of `p`
    assert(buf.kind_of(ip, '\n') == CharKind::Whitespace);
    if buf.line_end(r) <= e {
        assert(buf.kind_of(ip, buf.text()[buf.line_end(r)]) == kind);
    }
    assert(buf.line_end(r) > e);
    let np = DisplayPoint { row: p.row, column: (p.column + 1) as u32 };
    assert(next_char_of(buf, p, true) == np);
    let f = s + 1;
    assert(buf.offset_of(np) == f);
    let b = Boundary::WordEnd { ignore_punctuation: ip, allow_cross_newline: true };
    assert forall|k: int| f <= k < e + 1 implies !#[trigger] stops_forward(buf, b, false, f, k) by {
        if k > f {
            assert(buf.kind_of(ip, buf.text()[k - 1]) == kind);
            assert(buf.kind_of(ip, buf.text()[k]) == kind);
        }
    }
    assert(buf.kind_of(ip, buf.text()[e]) == kind);
    assert(stops_forward(buf, b, false, f, e + 1));
    lemma_scan_forward(buf, b, false, f, e + 1);
    buf.law_offset_point_round_trip(e);
    buf.lemma_point_of_column(e);
    assert(buf.point_of(e).column < buf.line_len(buf.point_of(e).row as int));
    assert(word_end_step(buf, p, ip, true) == buf.point_of(e));
    assert(word_end_stepper(buf, ip, true)(p) == buf.point_of(e));
    assert(buf.point_of(e) != p);
    reveal_with_fuel(repeat_until_stuck, 2);
}

/// `E`: from the first character of a run of at least two characters that
/// are not whitespace, punctuation included, lands on the last character
/// of that run.
pub proof fn law_word_end_ignoring_punctuation(buf: TextBuffer, p: DisplayPoint, e: int)
    requires
        buf.wf(),
        buf.valid_point(p),
        buf.offset_of(p) < e,
        e + 1 < buf.len(),
        forall|i: int| buf.offset_of(p) <= i <= e ==> !is_whitespace_char(#[trigger] buf.text()[i]),
        is_whitespace_char(buf.text()[e + 1]),
    ensures
        next_word_end_of(buf, p, true, 1, true) == buf.point_of(e),
{
    let s = buf.offset_of(p);
    buf.lemma_valid_point_offset(p);
    assert(!is_whitespace_char(buf.text()[s]));
    assert forall|i: int|
        s <= i <= e implies buf.kind_of(true, #[trigger] buf.text()[i]) == buf.kind_of(
            true,
            buf.text()[s],
        ) by {
        assert(!is_whitespace_char(buf.text()[i]));
    }
    law_word_end_of_run(buf, p, true, e);
}

/// `w` (and `W` when punctuation is ignored) from a character of a run of
/// one kind, not whitespace, goes over the rest of the run and the blanks
/// after it (on the same line) to the next character that is not
/// whitespace: the start of the next word.
pub proof fn law_word_start_after_run(buf: TextBuffer, p: DisplayPoint, ip: bool, e: int, m: int)
    requires
        buf.wf(),
        buf.valid_point(p),
        buf.offset_of(p) <= e < m < buf.len(),
        buf.kind_of(ip, buf.text()[buf.offset_of(p)]) != CharKind::Whitespace,
        forall|i: int|
            buf.offset_of(p) <= i <= e ==> buf.kind_of(ip, #[trigger] buf.text()[i]) == buf.kind_of(
                ip,
                buf.text()[buf.offset_of(p)],
            ),
        forall|i: int| e < i < m ==> is_whitespace_char(#[trigger] buf.text()[i]) && buf.text()[i] != '\n',
        !is_whitespace_char(buf.text()[m]),
        m == e + 1 ==> buf.kind_of(ip, buf.text()[m]) != buf.kind_of(ip, buf.text()[buf.offset_of(p)]),
    ensures
        next_word_start_of(buf, p, ip, 1) == buf.point_of(m),
{
    let s = buf.offset_of(p);
    let kind = buf.kind_of(ip, buf.text()[s]);
    buf.lemma_valid_point_offset(p);
    let b = Boundary::WordStart { ignore_punctuation: ip };
    assert(buf.kind_of(ip, '\n') == CharKind::Whitespace);
    assert forall|k: int| s <= k < m implies !#[trigger] stops_forward(buf, b, false, s, k) by {
        if k > s {
            if k <= e {
                assert(buf.kind_of(ip, buf.text()[k - 1]) == kind);
                assert(buf.kind_of(ip, buf.text()[k]) == kind);
            } else {
                assert(is_whitespace_char(buf.text()[k]) && buf.text()[k] != '\n');
            }
        }
    }
    if m > e + 1 {
        assert(is_whitespace_char(buf.text()[m - 1]));
    } else {
        assert(buf.kind_of(ip, buf.text()[e]) == kind);
    }
    assert(stops_forward(buf, b, false, s, m));
    lemma_scan_forward(buf, b, false, s, m);
    buf.law_offset_point_round_trip(m);
    buf.lemma_point_of_column(m);
    assert(word_start_step(buf, p, ip) == buf.point_of(m));
    assert(word_start_stepper(buf, ip)(p) == buf.point_of(m));
    assert(buf.point_of(m) != p);
    reveal_with_fuel(repeat_until_stuck, 2);
}

/// `b` (and `B` when punctuation is ignored) from after the first
/// character of a word, a run of one kind that is not whitespace, goes back
/// to the first character of that word.
pub proof fn law_word_start_before_cursor(buf: TextBuffer, p: DisplayPoint, ip: bool, a: int)
    requires
        buf.wf(),
        buf.valid_point(p),
        0 <= a < buf.offset_of(p),
        buf.kind_of(ip, buf.text()[a]) != CharKind::Whitespace,
        forall|i: int|
            a <= i < buf.offset_of(p) ==> buf.kind_of(ip, #[trigger] buf.text()[i]) == buf.kind_of(
                ip,
                buf.text()[a],
            ),
        a > 0 ==> buf.kind_of(ip, buf.text()[a - 1]) != buf.kind_of(ip, buf.text()[a]),
    ensures
        previous_word_start_of(buf, p, ip, 1) == buf.point_of(a),
{
    let s = buf.offset_of(p);
    let kind = buf.kind_of(ip, buf.text()[a]);
    buf.lemma_valid_point_offset(p);
    let b = Boundary::PrecedingWordStart { ignore_punctuation: ip };
    assert(buf.kind_of(ip, '\n') == CharKind::Whitespace);
    assert forall|k: int| a <= k < s implies !#[trigger] stops_backward(buf, b, false, s, k) by {
        if k + 1 < s {
            assert(buf.kind_of(ip, buf.text()[k]) == kind);
            assert(buf.kind_of(ip, buf.text()[k + 1]) == kind);
        }
    }
    if a > 0 {
        assert(stops_backward(buf, b, false, s, a - 1));
    }
    lemma_scan_backward(buf, b, false, s, a);
    buf.law_offset_point_round_trip(a);
    buf.lemma_point_of_column(a);
    assert(preceding_step(buf, p, b) == buf.point_of(a));
    assert(preceding_stepper(buf, b)(p) == buf.point_of(a));
    assert(buf.point_of(a) != p);
    reveal_with_fuel(repeat_until_stuck, 2);
}

/// `ge` (and `gE` when punctuation is ignored) from a character of a word,
/// a run of one kind that is not whitespace, goes back to the last
/// character of the word before it on the line.
pub proof fn law_previous_word_end_of_run(buf: TextBuffer, p: DisplayPoint, ip: bool, c: int, a: int)
    requires
        buf.wf(),
        buf.valid_point(p),
        0 <= c < a <= buf.offset_of(p) < buf.len(),
        buf.kind_of(ip, buf.text()[a]) != CharKind::Whitespace,
        forall|i: int|
            a <= i <= buf.offset_of(p) ==> buf.kind_of(ip, #[trigger] buf.text()[i]) == buf.kind_of(
                ip,
                buf.text()[a],
            ),
        forall|i: int| c < i < a ==> is_whitespace_char(#[trigger] buf.text()[i]) && buf.text()[i] != '\n',
        buf.kind_of(ip, buf.text()[c]) != CharKind::Whitespace,
        c + 1 == a ==> buf.kind_of(ip, buf.text()[c]) != buf.kind_of(ip, buf.text()[a]),
    ensures
        previous_word_end_of(buf, p, ip, 1) == buf.point_of(c),
{
    let s = buf.offset_of(p);
    let kind = buf.kind_of(ip, buf.text()[a]);
    buf.lemma_valid_point_offset(p);
    assert(buf.kind_of(ip, '\n') == CharKind::Whitespace);
    let r = p.row as int;
    buf.lemma_line_bounds(r);
    // the cursor is on a character of its line
    buf.law_offset_point_round_trip(s);
    buf.lemma_point_of_column(s);
    buf.law_point_offset_round_trip(p);
    assert(p.column < buf.line_len(r));
    let start = DisplayPoint { row: p.row, column: (p.column + 1) as u32 };
    let f = s + 1;
    assert(buf.offset_of(start) == f);
    let b = Boundary::PrecedingWordEnd { ignore_punctuation: ip };
    assert forall|k: int| c + 1 <= k < f implies !#[trigger] stops_backward(buf, b, false, f, k) by {
        if k + 1 < f {
            if k >= a {
                assert(buf.kind_of(ip, buf.text()[k]) == kind);
                assert(buf.kind_of(ip, buf.text()[k + 1]) == kind);
            } else {
                assert(is_whitespace_char(buf.text()[k]) && buf.text()[k] != '\n');
                if k + 1 < a {
                    assert(is_whitespace_char(buf.text()[k + 1]) && buf.text()[k + 1] != '\n');
                } else {
                    assert(buf.kind_of(ip, buf.text()[k + 1]) == kind);
                }
            }
        }
    }
    if c + 1 < a {
        assert(is_whitespace_char(buf.text()[c + 1]));
    } else {
        assert(buf.kind_of(ip, buf.text()[c + 1]) == kind);
    }
    assert(stops_backward(buf, b, false, f, c));
    lemma_scan_backward(buf, b, false, f, c + 1);
    buf.law_offset_point_round_trip(c + 1);
    buf.law_offset_point_round_trip(c);
    buf.lemma_point_of_column(c);
    buf.lemma_point_of_column(c + 1);
    let q = buf.point_of(c + 1);
    assert(preceding_point_stepper(buf, b)(start) == q);
    assert(q != start);
    reveal_with_fuel(repeat_until_stuck, 2);
    assert(repeat_until_stuck(preceding_point_stepper(buf, b), start, 1) == q);
    assert(q.column > 0);
    let l = DisplayPoint { row: q.row, column: (q.column - 1) as u32 };
    buf.lemma_line_bounds(q.row as int);
    assert(buf.point_at(c, l));
    buf.lemma_point_of(c);
}

} // verus!
