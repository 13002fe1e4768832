//! Finding a character on the line or in the text: `f`, `t`, `F`, `T`.

use vstd::prelude::*;

use crate::buffer::{DisplayPoint, TextBuffer};
use crate::chars::{character_match, is_character_match};
use crate::movement::{
    boundary_point, find_boundary, lemma_scan_forward, lemma_scan_forward_bounds,
    lemma_scan_forward_no_earlier_stop, stops_forward, find_preceding_boundary_display_point, preceding_boundary_point,
    repeat_until_stuck, scan_forward, scan_forward_exec, Boundary, FindRange,
};

verus! {

/// Whether a forward scan for `target` from `to` stopped on a matching
/// character, rather than at a line end or at the end of the text.
pub open spec fn find_stopped_on_match(
    buf: TextBuffer,
    to: DisplayPoint,
    target: char,
    mode: FindRange,
    smartcase: bool,
) -> bool {
    let single_line = mode == FindRange::SingleLine;
    let q = scan_forward(
        buf,
        Boundary::Character { target, smartcase },
        single_line,
        buf.offset_of(to),
    );
    q < buf.len() && !(single_line && buf.text()[q] == '\n')
}

/// Up to `n` forward scans for `target` from `to`, stopping when a scan no
/// longer moves; the point reached, and whether the last scan stopped on a match.
pub open spec fn find_forward_steps(
    buf: TextBuffer,
    to: DisplayPoint,
    target: char,
    n: nat,
    mode: FindRange,
    smartcase: bool,
) -> (DisplayPoint, bool)
    decreases n,
{
    if n == 0 {
        (to, false)
    } else {
        let found = find_stopped_on_match(buf, to, target, mode, smartcase);
        let new_to = boundary_point(buf, to, mode, Boundary::Character { target, smartcase }, false);
        if new_to == to || n == 1 {
            (new_to, found)
        } else {
            find_forward_steps(buf, new_to, target, (n - 1) as nat, mode, smartcase)
        }
    }
}

/// `f` (and `t` when `before`): the `times`-th match of `target` after
/// `from`, or one column before it for `t`; nothing when the last scan
/// found no match.
pub open spec fn find_forward_of(
    buf: TextBuffer,
    from: DisplayPoint,
    before: bool,
    target: char,
    times: nat,
    mode: FindRange,
    smartcase: bool,
) -> Option<DisplayPoint> {
    let (to, found) = find_forward_steps(buf, from, target, times, mode, smartcase);
    if found {
        if before && to.column > 0 {
            Some(buf.clip(DisplayPoint { row: to.row, column: (to.column - 1) as u32 }))
        } else {
            Some(to)
        }
    } else {
        None
    }
}

fn find_forward_steps_exec(
    buf: &TextBuffer,
    from: DisplayPoint,
    target: char,
    times: usize,
    mode: FindRange,
    smartcase: bool,
) -> (r: (DisplayPoint, bool))
    requires
        buf.valid_point(from),
    ensures
        r == find_forward_steps(*buf, from, target, times as nat, mode, smartcase),
        buf.valid_point(r.0),
{
    if times == 0 {
        return (from, false);
    }
    let b = Boundary::Character { target, smartcase };
    let mut to = from;
    let mut remaining = times;
    loop
        invariant
            buf.valid_point(to),
            1 <= remaining <= times,
            b == (Boundary::Character { target, smartcase }),
            find_forward_steps(*buf, from, target, times as nat, mode, smartcase)
                == find_forward_steps(*buf, to, target, remaining as nat, mode, smartcase),
        decreases remaining,
    {
        let f = buf.to_offset(to);
        let q = scan_forward_exec(buf, b, mode, f);
        let found = q < buf.len_chars() && !(mode == FindRange::SingleLine && buf.char_at_exec(
            q,
        ).unwrap() == '\n');
        let new_to = find_boundary(buf, to, mode, b);
        if to == new_to || remaining == 1 {
            return (new_to, found);
        }
        to = new_to;
        remaining = remaining - 1;
    }
}

pub fn find_forward(
    buf: &TextBuffer,
    from: DisplayPoint,
    before: bool,
    target: char,
    times: usize,
    mode: FindRange,
    smartcase: bool,
) -> (r: Option<DisplayPoint>)
    requires
        buf.valid_point(from),
    ensures
        r == find_forward_of(*buf, from, before, target, times as nat, mode, smartcase),
        r matches Some(p) ==> buf.valid_point(p),
{
    let (mut to, found) = find_forward_steps_exec(buf, from, target, times, mode, smartcase);
    if found {
        if before && to.column > 0 {
            to.column = to.column - 1;
            Some(buf.clip_exec(to))
        } else {
            Some(to)
        }
    } else {
        None
    }
}

/// One backward scan for `target`, clipped.
pub open spec fn find_backward_step(
    buf: TextBuffer,
    p: DisplayPoint,
    target: char,
    mode: FindRange,
    smartcase: bool,
) -> DisplayPoint {
    buf.clip(preceding_boundary_point(buf, p, mode, Boundary::Character { target, smartcase }))
}

pub open spec fn find_backward_stepper(
    buf: TextBuffer,
    target: char,
    mode: FindRange,
    smartcase: bool,
) -> spec_fn(DisplayPoint) -> DisplayPoint {
    |p: DisplayPoint| find_backward_step(buf, p, target, mode, smartcase)
}

/// `F` (and `T` when `after`): the `times`-th match of `target` before
/// `from`, or one column after it for `T`; `from` itself when the point
/// reached holds no match.
pub open spec fn find_backward_of(
    buf: TextBuffer,
    from: DisplayPoint,
    after: bool,
    target: char,
    times: nat,
    mode: FindRange,
    smartcase: bool,
) -> DisplayPoint {
    let to = repeat_until_stuck(find_backward_stepper(buf, target, mode, smartcase), from, times);
    let o = buf.offset_of(to);
    if o < buf.len() && character_match(target, buf.text()[o], smartcase) {
        if after {
            buf.clip(DisplayPoint { row: to.row, column: (to.column + 1) as u32 })
        } else {
            to
        }
    } else {
        from
    }
}

pub fn find_backward(
    buf: &TextBuffer,
    from: DisplayPoint,
    after: bool,
    target: char,
    times: usize,
    mode: FindRange,
    smartcase: bool,
) -> (r: DisplayPoint)
    requires
        buf.valid_point(from),
    ensures
        r == find_backward_of(*buf, from, after, target, times as nat, mode, smartcase),
        buf.valid_point(r),
{
    let b = Boundary::Character { target, smartcase };
    let mut to = from;
    let mut i: usize = 0;
    let mut stuck = false;
    while i < times && !stuck
        invariant
            buf.valid_point(to),
            i <= times,
            b == (Boundary::Character { target, smartcase }),
            stuck ==> find_backward_stepper(*buf, target, mode, smartcase)(to) == to,
            repeat_until_stuck(find_backward_stepper(*buf, target, mode, smartcase), from, times as nat)
                == repeat_until_stuck(
                find_backward_stepper(*buf, target, mode, smartcase),
                to,
                (times - i) as nat,
            ),
        decreases times - i, (if stuck { 0int } else { 1int }),
    {
        let new_to = find_preceding_boundary_display_point(buf, to, mode, b);
        if to == new_to {
            stuck = true;
        } else {
            to = new_to;
            i = i + 1;
        }
    }
    let o = buf.to_offset(to);
    let next = buf.char_at_exec(o);
    if next.is_some() && is_character_match(target, next.unwrap(), smartcase) {
        if after {
            proof {
                use_type_invariant(buf);
                buf.lemma_line_bounds(to.row as int);
            }
            to.column = to.column + 1;
            buf.clip_exec(to)
        } else {
            to
        }
    } else {
        from
    }
}


proof fn lemma_find_steps_land_on_match(
    buf: TextBuffer,
    to: DisplayPoint,
    target: char,
    n: nat,
    mode: FindRange,
    smartcase: bool,
)
    requires
        buf.wf(),
        buf.valid_point(to),
        !character_match(target, '\n', smartcase),
    ensures
        buf.valid_point(find_forward_steps(buf, to, target, n, mode, smartcase).0),
        find_forward_steps(buf, to, target, n, mode, smartcase).1 ==> {
            let o = buf.offset_of(find_forward_steps(buf, to, target, n, mode, smartcase).0);
            o < buf.len() && character_match(target, buf.text()[o], smartcase)
        },
    decreases n,
{
    if n > 0 {
        let b = Boundary::Character { target, smartcase };
        let single_line = mode == FindRange::SingleLine;
        let f = buf.offset_of(to);
        buf.lemma_valid_point_offset(to);
        lemma_scan_forward_bounds(buf, b, single_line, f);
        let q = scan_forward(buf, b, single_line, f);
        buf.law_offset_point_round_trip(q);
        buf.law_clip_idempotent(buf.point_of(q));
        let new_to = boundary_point(buf, to, mode, b, false);
        if find_stopped_on_match(buf, to, target, mode, smartcase) {
            assert(buf.text()[q] != '\n');
            buf.lemma_point_of_column(q);
            assert(new_to == buf.point_of(q));
        }
        if !(new_to == to || n == 1) {
            lemma_find_steps_land_on_match(buf, new_to, target, (n - 1) as nat, mode, smartcase);
        }
    }
}

/// `F` lands on a character that matches what it looks for, or, where it
/// finds none, leaves the cursor where it is.
pub proof fn law_find_backward_lands_on_match(
    buf: TextBuffer,
    from: DisplayPoint,
    target: char,
    n: nat,
    mode: FindRange,
    smartcase: bool,
)
    requires
        buf.wf(),
        buf.valid_point(from),
    ensures
        ({
            let q = find_backward_of(buf, from, false, target, n, mode, smartcase);
            let o = buf.offset_of(q);
            ||| q == from
            ||| o < buf.len() && character_match(target, buf.text()[o], smartcase)
        }),
{
}

/// Whether the character at offset `k` is one a find for `target` stops at.
pub open spec fn is_match_at(buf: TextBuffer, target: char, smartcase: bool, k: int) -> bool {
    0 <= k < buf.len() && character_match(target, buf.text()[k], smartcase)
}

/// How many characters strictly between offsets `a` and `b` a find for
/// `target` stops at.
pub open spec fn matches_between(buf: TextBuffer, target: char, smartcase: bool, a: int, b: int) -> nat
    decreases b - a,
{
    if b <= a + 1 {
        0
    } else {
        matches_between(buf, target, smartcase, a, b - 1) + if is_match_at(buf, target, smartcase, b - 1) {
            1nat
        } else {
            0nat
        }
    }
}

proof fn lemma_no_matches_between(buf: TextBuffer, target: char, smartcase: bool, a: int, b: int)
    requires
        forall|k: int| a < k < b ==> !#[trigger] is_match_at(buf, target, smartcase, k),
    ensures
        matches_between(buf, target, smartcase, a, b) == 0,
    decreases b - a,
{
    if b > a + 1 {
        lemma_no_matches_between(buf, target, smartcase, a, b - 1);
    }
}

proof fn lemma_matches_between_split(buf: TextBuffer, target: char, smartcase: bool, a: int, m: int, b: int)
    requires
        a < m < b,
    ensures
        matches_between(buf, target, smartcase, a, b) == matches_between(buf, target, smartcase, a, m)
            + (if is_match_at(buf, target, smartcase, m) { 1nat } else { 0nat })
            + matches_between(buf, target, smartcase, m, b),
    decreases b - m,
{
    if b > m + 1 {
        lemma_matches_between_split(buf, target, smartcase, a, m, b - 1);
    }
}

/// One scan that stops on a match goes to the first match after the
/// cursor; one that does not leaves every later scan without a match.
proof fn lemma_find_step(buf: TextBuffer, to: DisplayPoint, target: char, mode: FindRange, smartcase: bool)
    requires
        buf.wf(),
        buf.valid_point(to),
        !character_match(target, '\n', smartcase),
    ensures
        ({
            let b = Boundary::Character { target, smartcase };
            let new_to = boundary_point(buf, to, mode, b, false);
            let f = buf.offset_of(to);
            &&& buf.valid_point(new_to)
            &&& find_stopped_on_match(buf, to, target, mode, smartcase) ==> {
                let o = buf.offset_of(new_to);
                &&& o > f
                &&& is_match_at(buf, target, smartcase, o)
                &&& matches_between(buf, target, smartcase, f, o) == 0
            }
            &&& !find_stopped_on_match(buf, to, target, mode, smartcase) ==> !find_stopped_on_match(
                buf,
                new_to,
                target,
                mode,
                smartcase,
            )
        }),
{
    let b = Boundary::Character { target, smartcase };
    let single_line = mode == FindRange::SingleLine;
    let f = buf.offset_of(to);
    buf.lemma_valid_point_offset(to);
    lemma_scan_forward_bounds(buf, b, single_line, f);
    lemma_scan_forward_no_earlier_stop(buf, b, single_line, f, f);
    let q = scan_forward(buf, b, single_line, f);
    buf.law_offset_point_round_trip(q);
    buf.law_clip_idempotent(buf.point_of(q));
    buf.lemma_clip_offset(buf.point_of(q));
    buf.lemma_point_of_column(q);
    let new_to = boundary_point(buf, to, mode, b, false);
    if find_stopped_on_match(buf, to, target, mode, smartcase) {
        assert(buf.text()[q] != '\n');
        assert(new_to == buf.point_of(q));
        assert forall|k: int| f < k < q implies !#[trigger] is_match_at(buf, target, smartcase, k) by {
            assert(!stops_forward(buf, b, single_line, f, k));
        }
        lemma_no_matches_between(buf, target, smartcase, f, q);
    } else {
        let f2 = buf.offset_of(new_to);
        assert(f2 == q || f2 == q - 1);
        if f2 == q - 1 {
            assert(buf.text()[q - 1] != '\n');
            assert(!stops_forward(buf, b, single_line, f2, f2));
        }
        lemma_scan_forward(buf, b, single_line, f2, q);
    }
}

proof fn lemma_find_fails_after(buf: TextBuffer, to: DisplayPoint, target: char, n: nat, mode: FindRange, smartcase: bool)
    requires
        buf.wf(),
        buf.valid_point(to),
        !character_match(target, '\n', smartcase),
        !find_stopped_on_match(buf, to, target, mode, smartcase),
    ensures
        !find_forward_steps(buf, to, target, n, mode, smartcase).1,
    decreases n,
{
    if n > 1 {
        lemma_find_step(buf, to, target, mode, smartcase);
        let new_to = boundary_point(buf, to, mode, Boundary::Character { target, smartcase }, false);
        if new_to != to {
            lemma_find_fails_after(buf, new_to, target, (n - 1) as nat, mode, smartcase);
        }
    }
}

proof fn lemma_find_steps_count(buf: TextBuffer, to: DisplayPoint, target: char, n: nat, mode: FindRange, smartcase: bool)
    requires
        buf.wf(),
        buf.valid_point(to),
        !character_match(target, '\n', smartcase),
    ensures
        find_forward_steps(buf, to, target, n, mode, smartcase).1 ==> {
            let o = buf.offset_of(find_forward_steps(buf, to, target, n, mode, smartcase).0);
            &&& n >= 1
            &&& o > buf.offset_of(to)
            &&& is_match_at(buf, target, smartcase, o)
            &&& matches_between(buf, target, smartcase, buf.offset_of(to), o) == n - 1
        },
    decreases n,
{
    if n > 0 {
        lemma_find_step(buf, to, target, mode, smartcase);
        let b = Boundary::Character { target, smartcase };
        let new_to = boundary_point(buf, to, mode, b, false);
        if !find_stopped_on_match(buf, to, target, mode, smartcase) {
            if !(new_to == to || n == 1) {
                lemma_find_step(buf, to, target, mode, smartcase);
                lemma_find_fails_after(buf, new_to, target, (n - 1) as nat, mode, smartcase);
            }
        } else if n > 1 {
            lemma_find_steps_count(buf, new_to, target, (n - 1) as nat, mode, smartcase);
            let r = find_forward_steps(buf, new_to, target, (n - 1) as nat, mode, smartcase);
            if r.1 {
                lemma_matches_between_split(
                    buf,
                    target,
                    smartcase,
                    buf.offset_of(to),
                    buf.offset_of(new_to),
                    buf.offset_of(r.0),
                );
            }
        }
    }
}

/// `f` with a count of `n` lands on the `n`-th character after the cursor
/// that matches what it looks for (unless that is a line end).
pub proof fn law_find_forward_lands_on_nth_match(
    buf: TextBuffer,
    from: DisplayPoint,
    target: char,
    n: nat,
    mode: FindRange,
    smartcase: bool,
)
    requires
        buf.wf(),
        buf.valid_point(from),
        !character_match(target, '\n', smartcase),
    ensures
        find_forward_of(buf, from, false, target, n, mode, smartcase) matches Some(q) ==> {
            let o = buf.offset_of(q);
            &&& buf.valid_point(q)
            &&& o > buf.offset_of(from)
            &&& is_match_at(buf, target, smartcase, o)
            &&& matches_between(buf, target, smartcase, buf.offset_of(from), o) == n - 1
        },
{
    lemma_find_steps_land_on_match(buf, from, target, n, mode, smartcase);
    lemma_find_steps_count(buf, from, target, n, mode, smartcase);
}

/// `t` stops one character before where `f` lands, unless that is the first
/// column, and fails exactly where `f` fails.
pub proof fn law_till_stops_before_find(
    buf: TextBuffer,
    from: DisplayPoint,
    target: char,
    n: nat,
    mode: FindRange,
    smartcase: bool,
)
    requires
        buf.wf(),
        buf.valid_point(from),
        !character_match(target, '\n', smartcase),
    ensures
        match (
            find_forward_of(buf, from, false, target, n, mode, smartcase),
            find_forward_of(buf, from, true, target, n, mode, smartcase),
        ) {
            (Some(f), Some(t)) => t == (if f.column > 0 {
                DisplayPoint { row: f.row, column: (f.column - 1) as u32 }
            } else {
                f
            }),
            (None, None) => true,
            _ => false,
        },
{
    lemma_find_steps_land_on_match(buf, from, target, n, mode, smartcase);
    let (to, found) = find_forward_steps(buf, from, target, n, mode, smartcase);
    if found && to.column > 0 {
        buf.lemma_line_bounds(to.row as int);
    }
}

} // verus!
