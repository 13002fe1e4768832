//! Motions between matching delimiters: `%`, `[(`, `[{`, `])`, `]}`.

use vstd::prelude::*;

use crate::buffer::{DelimitedRange, DisplayPoint, TextBuffer};
use crate::lines::{first_char_from, first_char_from_exec, CharTest};
use crate::movement::repeat_until_stuck;

verus! {

/// Whether the syntax tree reports bracket pair `i` for the text from
/// offset `s` to offset `e`: its span, from the start of its opening
/// bracket to the end of its closing one, meets that text widened by one
/// character on each side.
pub open spec fn reported_for(buf: TextBuffer, i: int, s: int, e: int) -> bool {
    let p = buf.bracket_pairs()[i];
    let lo = if s > 0 {
        s - 1
    } else {
        0
    };
    let hi = if e + 1 < buf.len() {
        e + 1
    } else {
        buf.len()
    };
    p.open_start < hi && p.close_end >= lo
}

/// Whether bracket pair `i` encloses offset `o`.
pub open spec fn encloses(buf: TextBuffer, i: int, o: int) -> bool {
    let p = buf.bracket_pairs()[i];
    p.open_start <= o && o <= p.close_end
}

// ---------------------------------------------------------------------------
// Unmatched brackets

/// Pair `i` encloses `o` and closes with `ch` after `o`.
pub open spec fn closes_after(buf: TextBuffer, i: int, o: int, ch: char) -> bool {
    let p = buf.bracket_pairs()[i];
    0 <= i < buf.bracket_pairs().len() && encloses(buf, i, o) && p.close_start > o
        && buf.text()[p.close_start as int] == ch
}

/// Pair `i` encloses `o` and opens with `ch` before `o`.
pub open spec fn opens_before(buf: TextBuffer, i: int, o: int, ch: char) -> bool {
    let p = buf.bracket_pairs()[i];
    0 <= i < buf.bracket_pairs().len() && encloses(buf, i, o) && p.open_start < o
        && buf.text()[p.open_start as int] == ch
}

/// The nearest offset after `o` where a pair enclosing `o` closes with `ch`.
pub open spec fn is_nearest_close(buf: TextBuffer, o: int, ch: char, c: int) -> bool {
    &&& exists|i: int| #[trigger] closes_after(buf, i, o, ch) && buf.bracket_pairs()[i].close_start == c
    &&& forall|i: int| #[trigger] closes_after(buf, i, o, ch) ==> c <= buf.bracket_pairs()[i].close_start
}

/// The nearest offset before `o` where a pair enclosing `o` opens with `ch`.
pub open spec fn is_nearest_open(buf: TextBuffer, o: int, ch: char, c: int) -> bool {
    &&& exists|i: int| #[trigger] opens_before(buf, i, o, ch) && buf.bracket_pairs()[i].open_start == c
    &&& forall|i: int| #[trigger] opens_before(buf, i, o, ch) ==> buf.bracket_pairs()[i].open_start <= c
}

/// One `])` step: to the nearest unmatched closing `ch` after the point,
/// that is, the closing bracket `ch` of the nearest pair around it; or stay.
pub open spec fn unmatched_forward_step(buf: TextBuffer, p: DisplayPoint, ch: char) -> DisplayPoint {
    let o = buf.offset_of(p);
    if exists|c: int| is_nearest_close(buf, o, ch, c) {
        buf.point_of(choose|c: int| is_nearest_close(buf, o, ch, c))
    } else {
        p
    }
}

/// One `[(` step: to the nearest unmatched opening `ch` before the point;
/// or stay.
pub open spec fn unmatched_backward_step(buf: TextBuffer, p: DisplayPoint, ch: char) -> DisplayPoint {
    let o = buf.offset_of(p);
    if exists|c: int| is_nearest_open(buf, o, ch, c) {
        buf.point_of(choose|c: int| is_nearest_open(buf, o, ch, c))
    } else {
        p
    }
}

pub open spec fn unmatched_forward_stepper(buf: TextBuffer, ch: char) -> spec_fn(DisplayPoint) -> DisplayPoint {
    |p: DisplayPoint| unmatched_forward_step(buf, p, ch)
}

pub open spec fn unmatched_backward_stepper(buf: TextBuffer, ch: char) -> spec_fn(DisplayPoint) -> DisplayPoint {
    |p: DisplayPoint| unmatched_backward_step(buf, p, ch)
}

/// `])` and `]}`: `times` steps to an unmatched closing `ch`.
pub open spec fn unmatched_forward_of(buf: TextBuffer, p: DisplayPoint, ch: char, times: nat) -> DisplayPoint {
    repeat_until_stuck(unmatched_forward_stepper(buf, ch), p, times)
}

/// `[(` and `[{`: `times` steps to an unmatched opening `ch`.
pub open spec fn unmatched_backward_of(buf: TextBuffer, p: DisplayPoint, ch: char, times: nat) -> DisplayPoint {
    repeat_until_stuck(unmatched_backward_stepper(buf, ch), p, times)
}

fn nearest_close_exec(buf: &TextBuffer, o: usize, ch: char) -> (r: Option<usize>)
    requires
        o <= buf.len(),
    ensures
        r matches Some(c) ==> is_nearest_close(*buf, o as int, ch, c as int) && c <= buf.len(),
        r is None ==> forall|c: int| !is_nearest_close(*buf, o as int, ch, c),
{
    let n = buf.bracket_count();
    let mut best: Option<usize> = None;
    let mut k: usize = 0;
    while k < n
        invariant
            k <= n,
            n == buf.bracket_pairs().len(),
            o <= buf.len(),
            best is None ==> forall|i: int| 0 <= i < k ==> !#[trigger] closes_after(*buf, i, o as int, ch),
            best matches Some(c) ==> {
                &&& c <= buf.len()
                &&& exists|i: int| 0 <= i < k && #[trigger] closes_after(*buf, i, o as int, ch)
                    && buf.bracket_pairs()[i].close_start == c
                &&& forall|i: int| 0 <= i < k && #[trigger] closes_after(*buf, i, o as int, ch)
                    ==> c <= buf.bracket_pairs()[i].close_start
            },
        decreases n - k,
    {
        let p = buf.bracket_pair(k);
        let is_candidate = p.open_start <= o && o <= p.close_end && p.close_start > o
            && buf.char_at_exec(p.close_start).unwrap() == ch;
        proof {
            assert(is_candidate == closes_after(*buf, k as int, o as int, ch));
        }
        if is_candidate {
            let better = match best {
                None => true,
                Some(c) => p.close_start < c,
            };
            if better {
                best = Some(p.close_start);
                proof {
                    assert(closes_after(*buf, k as int, o as int, ch) && buf.bracket_pairs()[k as int].close_start
                        == p.close_start);
                }
            }
        }
        k = k + 1;
    }
    best
}

fn nearest_open_exec(buf: &TextBuffer, o: usize, ch: char) -> (r: Option<usize>)
    requires
        o <= buf.len(),
    ensures
        r matches Some(c) ==> is_nearest_open(*buf, o as int, ch, c as int) && c <= buf.len(),
        r is None ==> forall|c: int| !is_nearest_open(*buf, o as int, ch, c),
{
    let n = buf.bracket_count();
    let mut best: Option<usize> = None;
    let mut k: usize = 0;
    while k < n
        invariant
            k <= n,
            n == buf.bracket_pairs().len(),
            o <= buf.len(),
            best is None ==> forall|i: int| 0 <= i < k ==> !#[trigger] opens_before(*buf, i, o as int, ch),
            best matches Some(c) ==> {
                &&& c <= buf.len()
                &&& exists|i: int| 0 <= i < k && #[trigger] opens_before(*buf, i, o as int, ch)
                    && buf.bracket_pairs()[i].open_start == c
                &&& forall|i: int| 0 <= i < k && #[trigger] opens_before(*buf, i, o as int, ch)
                    ==> buf.bracket_pairs()[i].open_start <= c
            },
        decreases n - k,
    {
        let p = buf.bracket_pair(k);
        let is_candidate = p.open_start <= o && o <= p.close_end && p.open_start < o
            && buf.char_at_exec(p.open_start).unwrap() == ch;
        proof {
            assert(is_candidate == opens_before(*buf, k as int, o as int, ch));
        }
        if is_candidate {
            let better = match best {
                None => true,
                Some(c) => p.open_start > c,
            };
            if better {
                best = Some(p.open_start);
                proof {
                    assert(opens_before(*buf, k as int, o as int, ch) && buf.bracket_pairs()[k as int].open_start
                        == p.open_start);
                }
            }
        }
        k = k + 1;
    }
    best
}

pub proof fn lemma_nearest_close_unique(buf: TextBuffer, o: int, ch: char, c: int, d: int)
    requires
        is_nearest_close(buf, o, ch, c),
        is_nearest_close(buf, o, ch, d),
    ensures
        c == d,
{
    let i = choose|i: int| #[trigger] closes_after(buf, i, o, ch) && buf.bracket_pairs()[i].close_start == c;
    let j = choose|j: int| #[trigger] closes_after(buf, j, o, ch) && buf.bracket_pairs()[j].close_start == d;
}

pub proof fn lemma_nearest_open_unique(buf: TextBuffer, o: int, ch: char, c: int, d: int)
    requires
        is_nearest_open(buf, o, ch, c),
        is_nearest_open(buf, o, ch, d),
    ensures
        c == d,
{
    let i = choose|i: int| #[trigger] opens_before(buf, i, o, ch) && buf.bracket_pairs()[i].open_start == c;
    let j = choose|j: int| #[trigger] opens_before(buf, j, o, ch) && buf.bracket_pairs()[j].open_start == d;
}

pub fn unmatched_forward(buf: &TextBuffer, point: DisplayPoint, ch: char, times: usize) -> (r:
    DisplayPoint)
    requires
        buf.valid_point(point),
    ensures
        r == unmatched_forward_of(*buf, point, ch, times as nat),
        buf.valid_point(r),
{
    let mut p = point;
    let mut i: usize = 0;
    while i < times
        invariant
            buf.valid_point(p),
            i <= times,
            unmatched_forward_of(*buf, point, ch, times as nat) == repeat_until_stuck(
                unmatched_forward_stepper(*buf, ch),
                p,
                (times - i) as nat,
            ),
        decreases times - i,
    {
        let o = buf.to_offset(p);
        let new_point = match nearest_close_exec(buf, o, ch) {
            Some(c) => {
                proof {
                    assert forall|d: int| is_nearest_close(*buf, o as int, ch, d) implies d == c by {
                        lemma_nearest_close_unique(*buf, o as int, ch, c as int, d);
                    }
                }
                buf.to_point(c)
            },
            None => p,
        };
        if new_point == p {
            return p;
        }
        p = new_point;
        i = i + 1;
    }
    p
}

pub fn unmatched_backward(buf: &TextBuffer, point: DisplayPoint, ch: char, times: usize) -> (r:
    DisplayPoint)
    requires
        buf.valid_point(point),
    ensures
        r == unmatched_backward_of(*buf, point, ch, times as nat),
        buf.valid_point(r),
{
    let mut p = point;
    let mut i: usize = 0;
    while i < times
        invariant
            buf.valid_point(p),
            i <= times,
            unmatched_backward_of(*buf, point, ch, times as nat) == repeat_until_stuck(
                unmatched_backward_stepper(*buf, ch),
                p,
                (times - i) as nat,
            ),
        decreases times - i,
    {
        let o = buf.to_offset(p);
        let new_point = match nearest_open_exec(buf, o, ch) {
            Some(c) => {
                proof {
                    assert forall|d: int| is_nearest_open(*buf, o as int, ch, d) implies d == c by {
                        lemma_nearest_open_unique(*buf, o as int, ch, c as int, d);
                    }
                }
                buf.to_point(c)
            },
            None => p,
        };
        if new_point == p {
            return p;
        }
        p = new_point;
        i = i + 1;
    }
    p
}


// ---------------------------------------------------------------------------
// Matching tags

/// Element `e` spans offset `o`, from the start of its opening tag to the
/// end of its closing tag.
pub open spec fn element_contains(buf: TextBuffer, e: int, o: int) -> bool {
    &&& 0 <= e < buf.tag_elements().len()
    &&& buf.tag_elements()[e].open_start <= o <= buf.tag_elements()[e].close_end
}

/// The innermost element around `o`: the last one listed that spans it.
pub open spec fn is_innermost_element(buf: TextBuffer, o: int, e: int) -> bool {
    &&& element_contains(buf, e, o)
    &&& forall|f: int| e < f < buf.tag_elements().len() ==> !#[trigger] element_contains(buf, f, o)
}

/// Where `%` goes from inside a tag: from within the name of an opening
/// tag, to the first `/`, `'\n'` or `>` from the start of the closing tag;
/// otherwise to just after the first `<` or `'\n'` from the start of the
/// opening tag.
pub open spec fn matching_tag_of(buf: TextBuffer, head: DisplayPoint) -> Option<DisplayPoint> {
    let o = buf.offset_of(head);
    if exists|e: int| is_innermost_element(buf, o, e) {
        let t = buf.tag_elements()[choose|e: int| is_innermost_element(buf, o, e)];
        if o > t.open_start && o < t.open_end {
            let k = first_char_from(buf, CharTest::TagEnd, t.close_start as int);
            if k < buf.len() {
                Some(buf.point_of(k))
            } else {
                None
            }
        } else {
            let k = first_char_from(buf, CharTest::TagStartOrNewline, t.open_start as int);
            if k < buf.len() {
                Some(buf.point_of(k + 1))
            } else {
                None
            }
        }
    } else {
        None
    }
}

fn innermost_element(buf: &TextBuffer, o: usize) -> (r: Option<usize>)
    ensures
        r matches Some(e) ==> is_innermost_element(*buf, o as int, e as int),
        r is None ==> forall|e: int| !is_innermost_element(*buf, o as int, e),
{
    let mut k = buf.element_count();
    while k > 0
        invariant
            k <= buf.tag_elements().len(),
            forall|f: int| k <= f < buf.tag_elements().len() ==> !#[trigger] element_contains(*buf, f, o as int),
        decreases k,
    {
        let t = buf.element(k - 1);
        if t.open_start <= o && o <= t.close_end {
            return Some(k - 1);
        }
        k = k - 1;
    }
    proof {
        assert forall|e: int| !is_innermost_element(*buf, o as int, e) by {
            if is_innermost_element(*buf, o as int, e) {
                assert(!element_contains(*buf, e, o as int));
            }
        }
    }
    None
}

pub fn matching_tag(buf: &TextBuffer, head: DisplayPoint) -> (r: Option<DisplayPoint>)
    requires
        buf.valid_point(head),
    ensures
        r == matching_tag_of(*buf, head),
        r matches Some(p) ==> buf.valid_point(p),
{
    let o = buf.to_offset(head);
    match innermost_element(buf, o) {
        None => None,
        Some(e) => {
            proof {
                assert forall|f: int| is_innermost_element(*buf, o as int, f) implies f == e by {
                    if f < e {
                        assert(!element_contains(*buf, e as int, o as int));
                    } else if e < f {
                        assert(!element_contains(*buf, f, o as int));
                    }
                }
            }
            let t = buf.element(e);
            if o > t.open_start && o < t.open_end {
                let k = first_char_from_exec(buf, CharTest::TagEnd, t.close_start);
                if k < buf.len_chars() {
                    Some(buf.to_point(k))
                } else {
                    None
                }
            } else {
                let k = first_char_from_exec(buf, CharTest::TagStartOrNewline, t.open_start);
                if k < buf.len_chars() {
                    Some(buf.to_point(k + 1))
                } else {
                    None
                }
            }
        },
    }
}

// ---------------------------------------------------------------------------
// Matching brackets

/// What `%` looks at from `display_point`: the cursor moved off a line
/// end, its offset, and the offsets where its line starts, where the line
/// ends (the end of the text when the cursor sits at the line end), and
/// where the visible part of the line ends.
pub open spec fn matching_scope(buf: TextBuffer, display_point: DisplayPoint) -> (DisplayPoint, int, int, int, int) {
    let dp = buf.clip_line_end(display_point);
    let line_end = DisplayPoint { row: dp.row, column: buf.line_len(dp.row as int) as u32 };
    let line_end = if line_end == dp {
        buf.max_point()
    } else {
        line_end
    };
    let visible_end = DisplayPoint {
        row: line_end.row,
        column: (if line_end.column > 0 {
            line_end.column - 1
        } else {
            0
        }) as u32,
    };
    (
        dp,
        buf.offset_of(dp),
        buf.line_start(dp.row as int),
        buf.offset_of(line_end),
        buf.offset_of(visible_end),
    )
}

/// Pair `i` is among those reported for the cursor's line.
pub open spec fn reported_on_line(buf: TextBuffer, display_point: DisplayPoint, i: int) -> bool {
    let (dp, o, ls, le, ve) = matching_scope(buf, display_point);
    0 <= i < buf.bracket_pairs().len() && reported_for(buf, i, ls, ve)
}

/// The closing bracket of pair `i` is `/>`.
pub open spec fn self_closing(buf: TextBuffer, i: int) -> bool {
    let p = buf.bracket_pairs()[i];
    p.close_start + 1 < buf.len() && buf.text()[p.close_start as int] == '/'
        && buf.text()[p.close_start + 1] == '>'
}

/// Whether pair `i`, an angle bracket pair, decides where `%` goes: the
/// cursor is inside it (and it closes with `/>`, or a matching tag is
/// found), or on its opening or closing bracket.
pub open spec fn angle_pair_decides(buf: TextBuffer, display_point: DisplayPoint, i: int) -> bool {
    let (dp, o, ls, le, ve) = matching_scope(buf, display_point);
    let p = buf.bracket_pairs()[i];
    &&& reported_on_line(buf, display_point, i)
    &&& buf.text()[p.open_start as int] == '<'
    &&& if o > p.open_start && o < p.close_start {
        self_closing(buf, i) || matching_tag_of(buf, dp) is Some
    } else {
        (p.close_start <= o < p.close_end) || (p.open_start <= o < p.open_end)
    }
}

/// Where `%` goes when angle bracket pair `i` decides it.
pub open spec fn angle_pair_target(buf: TextBuffer, display_point: DisplayPoint, i: int) -> DisplayPoint {
    let (dp, o, ls, le, ve) = matching_scope(buf, display_point);
    let p = buf.bracket_pairs()[i];
    if o > p.open_start && o < p.close_start {
        if self_closing(buf, i) {
            dp
        } else {
            matching_tag_of(buf, dp).unwrap()
        }
    } else if p.close_start <= o && o < p.close_end {
        buf.point_of(p.open_start as int)
    } else {
        buf.point_of(p.close_end - 1)
    }
}

pub open spec fn first_deciding_pair(buf: TextBuffer, display_point: DisplayPoint, i: int) -> bool {
    &&& angle_pair_decides(buf, display_point, i)
    &&& forall|j: int| 0 <= j < i ==> !#[trigger] angle_pair_decides(buf, display_point, j)
}

/// Candidate `j` stands for the opening bracket (`j` even) or the closing
/// bracket (`j` odd) of pair `j / 2`: one at or after the cursor, on its line.
pub open spec fn candidate_valid(buf: TextBuffer, display_point: DisplayPoint, j: int) -> bool {
    let (dp, o, ls, le, ve) = matching_scope(buf, display_point);
    let i = j / 2;
    let p = buf.bracket_pairs()[i];
    let at: int = if j % 2 == 0 {
        p.open_start as int
    } else {
        p.close_start as int
    };
    0 <= j && reported_on_line(buf, display_point, i) && at >= o && ls <= at && at < le
}

/// How far candidate `j` lies after the cursor.
pub open spec fn candidate_distance(buf: TextBuffer, display_point: DisplayPoint, j: int) -> int {
    let (dp, o, ls, le, ve) = matching_scope(buf, display_point);
    let p = buf.bracket_pairs()[j / 2];
    if j % 2 == 0 {
        p.open_start - o
    } else {
        p.close_start - o
    }
}

/// Where `%` goes from candidate `j`: the other bracket of its pair.
pub open spec fn candidate_target(buf: TextBuffer, j: int) -> int {
    let p = buf.bracket_pairs()[j / 2];
    if j % 2 == 0 {
        p.close_end - 1
    } else {
        p.open_start as int
    }
}

/// Candidate `j` is the nearest among the first `m`, and the first of the
/// nearest ones.
pub open spec fn nearest_candidate(buf: TextBuffer, display_point: DisplayPoint, j: int, m: int) -> bool {
    &&& 0 <= j < m
    &&& candidate_valid(buf, display_point, j)
    &&& forall|k: int|
        0 <= k < m && #[trigger] candidate_valid(buf, display_point, k) ==> candidate_distance(
            buf,
            display_point,
            j,
        ) <= candidate_distance(buf, display_point, k)
    &&& forall|k: int|
        0 <= k < j && #[trigger] candidate_valid(buf, display_point, k) ==> candidate_distance(
            buf,
            display_point,
            k,
        ) > candidate_distance(buf, display_point, j)
}

/// `%`: from on or inside an angle bracket pair or tag, its counterpart;
/// otherwise the bracket that matches the nearest bracket at or after the
/// cursor on its line; otherwise the cursor, moved off the line end.
pub open spec fn matching_of(buf: TextBuffer, display_point: DisplayPoint) -> DisplayPoint {
    let (dp, o, ls, le, ve) = matching_scope(buf, display_point);
    let m: int = 2 * (buf.bracket_pairs().len() as int);
    if exists|i: int| first_deciding_pair(buf, display_point, i) {
        angle_pair_target(buf, display_point, choose|i: int| first_deciding_pair(buf, display_point, i))
    } else if exists|j: int| nearest_candidate(buf, display_point, j, m) {
        buf.point_of(candidate_target(buf, choose|j: int| nearest_candidate(buf, display_point, j, m)))
    } else {
        dp
    }
}

pub proof fn lemma_nearest_candidate_unique(buf: TextBuffer, display_point: DisplayPoint, a: int, b: int, m: int)
    requires
        nearest_candidate(buf, display_point, a, m),
        nearest_candidate(buf, display_point, b, m),
    ensures
        a == b,
{
    if a < b {
        assert(candidate_valid(buf, display_point, a));
    } else if b < a {
        assert(candidate_valid(buf, display_point, b));
    }
}

pub proof fn lemma_first_deciding_unique(buf: TextBuffer, display_point: DisplayPoint, a: int, b: int)
    requires
        first_deciding_pair(buf, display_point, a),
        first_deciding_pair(buf, display_point, b),
    ensures
        a == b,
{
    if a < b {
        assert(angle_pair_decides(buf, display_point, a));
    } else if b < a {
        assert(angle_pair_decides(buf, display_point, b));
    }
}


pub proof fn lemma_first_decides(buf: TextBuffer, display_point: DisplayPoint, i: int)
    requires
        angle_pair_decides(buf, display_point, i),
        forall|j: int| 0 <= j < i ==> !#[trigger] angle_pair_decides(buf, display_point, j),
    ensures
        matching_of(buf, display_point) == angle_pair_target(buf, display_point, i),
{
    assert(first_deciding_pair(buf, display_point, i));
    let c = choose|c: int| first_deciding_pair(buf, display_point, c);
    lemma_first_deciding_unique(buf, display_point, c, i);
}

pub fn matching(buf: &TextBuffer, display_point: DisplayPoint) -> (r: DisplayPoint)
    requires
        buf.valid_point(display_point),
    ensures
        r == matching_of(*buf, display_point),
        buf.valid_point(r),
{
    let dp = buf.clip_line_end_exec(display_point);
    let o = buf.to_offset(dp);
    let row_len = buf.line_len_exec(dp.row);
    let mut line_end = DisplayPoint { row: dp.row, column: row_len };
    if line_end == dp {
        line_end = buf.max_point_exec();
    }
    let visible_end = DisplayPoint {
        row: line_end.row,
        column: if line_end.column > 0 {
            line_end.column - 1
        } else {
            0
        },
    };
    let ls = buf.to_offset(DisplayPoint { row: dp.row, column: 0 });
    let le = buf.to_offset(line_end);
    let ve = buf.to_offset(visible_end);
    let tag = matching_tag(buf, dp);
    let n = buf.bracket_count();
    let len = buf.len_chars();
    let ghost scope = matching_scope(*buf, display_point);
    proof {
        use_type_invariant(buf);
    }
    assert(scope == (dp, o as int, ls as int, le as int, ve as int));
    let mut best: Option<(usize, usize)> = None;
    let ghost mut best_j: int = 0;
    let mut i: usize = 0;
    while i < n
        invariant
            n == buf.bracket_pairs().len(),
            len == buf.len(),
            scope == matching_scope(*buf, display_point),
            scope == (dp, o as int, ls as int, le as int, ve as int),
            buf.valid_point(dp),
            tag == matching_tag_of(*buf, dp),
            tag matches Some(t) ==> buf.valid_point(t),
            o <= len,
            ve <= len,
            len < u32::MAX,
            i <= n,
            forall|j: int| 0 <= j < i ==> !#[trigger] angle_pair_decides(*buf, display_point, j),
            best is None ==> forall|k: int|
                0 <= k < 2 * i ==> !#[trigger] candidate_valid(*buf, display_point, k),
            best matches Some(bt) ==> {
                &&& nearest_candidate(*buf, display_point, best_j, 2 * i as int)
                &&& bt.0 == candidate_distance(*buf, display_point, best_j)
                &&& bt.1 == candidate_target(*buf, best_j)
                &&& bt.1 < len
            },
        decreases n - i,
    {
        let p = buf.bracket_pair(i);
        let lo = if ls > 0 {
            ls - 1
        } else {
            0
        };
        let hi = if ve + 1 < len {
            ve + 1
        } else {
            len
        };
        let reported = p.open_start < hi && p.close_end >= lo;
        proof {
            assert(reported == reported_on_line(*buf, display_point, i as int));
            assert((2 * i as int) / 2 == i as int && (2 * i as int) % 2 == 0);
            assert((2 * i as int + 1) / 2 == i as int && (2 * i as int + 1) % 2 == 1);
        }
        if reported {
            if buf.char_at_exec(p.open_start).unwrap() == '<' {
                if o > p.open_start && o < p.close_start {
                    let self_close = p.close_start + 1 < len && buf.char_at_exec(p.close_start).unwrap()
                        == '/' && buf.char_at_exec(p.close_start + 1).unwrap() == '>';
                    proof {
                        assert(self_close == self_closing(*buf, i as int));
                    }
                    if self_close {
                        proof {
                            lemma_first_decides(*buf, display_point, i as int);
                        }
                        return dp;
                    }
                    if let Some(t) = tag {
                        proof {
                            lemma_first_decides(*buf, display_point, i as int);
                        }
                        return t;
                    }
                } else if p.close_start <= o && o < p.close_end {
                    proof {
                        lemma_first_decides(*buf, display_point, i as int);
                    }
                    return buf.to_point(p.open_start);
                } else if p.open_start <= o && o < p.open_end {
                    proof {
                        lemma_first_decides(*buf, display_point, i as int);
                    }
                    return buf.to_point(p.close_end - 1);
                }
            }
        }
        assert(!angle_pair_decides(*buf, display_point, i as int));
        let ghost j0 = 2 * i as int;
        let mut taken = false;
        if reported && p.open_start >= o && ls <= p.open_start && p.open_start < le {
            let d = p.open_start - o;
            let better = match best {
                None => true,
                Some(bt) => d < bt.0,
            };
            if better {
                best = Some((d, p.close_end - 1));
                proof {
                    best_j = j0;
                }
                taken = true;
            }
        }
        if !taken && reported && p.close_start >= o && ls <= p.close_start && p.close_start < le {
            let d = p.close_start - o;
            let better = match best {
                None => true,
                Some(bt) => d < bt.0,
            };
            if better {
                best = Some((d, p.open_start));
                proof {
                    best_j = j0 + 1;
                }
            }
        }
        i = i + 1;
    }
    proof {
        assert forall|j: int| !#[trigger] first_deciding_pair(*buf, display_point, j) by {
            if first_deciding_pair(*buf, display_point, j) {
                assert(angle_pair_decides(*buf, display_point, j));
            }
        }
    }
    match best {
        Some(bt) => {
            proof {
                assert forall|j: int|
                    #[trigger] nearest_candidate(*buf, display_point, j, 2 * n as int) implies j == best_j by {
                    lemma_nearest_candidate_unique(*buf, display_point, j, best_j, 2 * n as int);
                }
            }
            buf.to_point(bt.1)
        },
        None => {
            proof {
                assert forall|j: int| !#[trigger] nearest_candidate(*buf, display_point, j, 2 * n as int) by {
                    if nearest_candidate(*buf, display_point, j, 2 * n as int) {
                        assert(candidate_valid(*buf, display_point, j));
                    }
                }
            }
            dp
        },
    }
}


/// Every bracket pair other than pair `i` either is the same pair, listed
/// again, or puts no bracket where pair `i` has one.
pub open spec fn brackets_apart(buf: TextBuffer, i: int) -> bool {
    let p = buf.bracket_pairs()[i];
    forall|k: int|
        0 <= k < buf.bracket_pairs().len() && k != i ==> {
            let q = #[trigger] buf.bracket_pairs()[k];
            ||| q == p
            ||| {
                &&& q.open_start != p.open_start
                &&& q.open_start != p.close_start
                &&& q.close_start != p.open_start
                &&& q.close_start != p.close_start
            }
        }
}

/// No angle bracket pair decides where `%` goes from `dp`: of those on its
/// line, none that the cursor is inside closes with `/>` or leads to a
/// matching tag, and the cursor is on none of their brackets.
pub open spec fn no_angle_pair_decides(buf: TextBuffer, dp: DisplayPoint) -> bool {
    forall|k: int| !#[trigger] angle_pair_decides(buf, dp, k)
}

/// The offset of the bracket that candidate `k` stands for.
pub open spec fn candidate_offset(buf: TextBuffer, k: int) -> int {
    let p = buf.bracket_pairs()[k / 2];
    if k % 2 == 0 {
        p.open_start as int
    } else {
        p.close_start as int
    }
}

/// Among the candidates up to `j` at the cursor, the first is the nearest.
proof fn lemma_first_at_cursor(buf: TextBuffer, dp0: DisplayPoint, j: int, m: int) -> (c: int)
    requires
        0 <= j < m,
        candidate_valid(buf, dp0, j),
        candidate_distance(buf, dp0, j) == 0,
    ensures
        nearest_candidate(buf, dp0, c, m),
        candidate_distance(buf, dp0, c) == 0,
    decreases j,
{
    if exists|k: int|
        0 <= k < j && #[trigger] candidate_valid(buf, dp0, k) && candidate_distance(buf, dp0, k) == 0 {
        let k = choose|k: int|
            0 <= k < j && #[trigger] candidate_valid(buf, dp0, k) && candidate_distance(buf, dp0, k)
                == 0;
        lemma_first_at_cursor(buf, dp0, k, m)
    } else {
        assert forall|k: int| 0 <= k < m && #[trigger] candidate_valid(buf, dp0, k) implies candidate_distance(
            buf,
            dp0,
            j,
        ) <= candidate_distance(buf, dp0, k) by {}
        assert forall|k: int| 0 <= k < j && #[trigger] candidate_valid(buf, dp0, k) implies candidate_distance(
            buf,
            dp0,
            k,
        ) > candidate_distance(buf, dp0, j) by {}
        j
    }
}

/// `%` at bracket offset `o`, where every candidate at `o` leads to the
/// same place as candidate `j`.
proof fn lemma_matching_at_bracket(buf: TextBuffer, o: int, j: int)
    requires
        buf.wf(),
        0 <= o < buf.len(),
        buf.text()[o] != '\n',
        no_angle_pair_decides(buf, buf.point_of(o)),
        0 <= j < 2 * buf.bracket_pairs().len(),
        candidate_offset(buf, j) == o,
        forall|k: int|
            0 <= k < 2 * buf.bracket_pairs().len() && #[trigger] candidate_offset(buf, k) == o
                ==> candidate_target(buf, k) == candidate_target(buf, j),
    ensures
        matching_of(buf, buf.point_of(o)) == buf.point_of(candidate_target(buf, j)),
{
    let dp0 = buf.point_of(o);
    buf.law_offset_point_round_trip(o);
    buf.lemma_point_of_column(o);
    buf.lemma_line_bounds(dp0.row as int);
    let (dp, oo, ls, le, ve) = matching_scope(buf, dp0);
    assert(dp == dp0);
    assert(oo == o);
    let m: int = 2 * (buf.bracket_pairs().len() as int);
    let i = j / 2;
    let p = buf.bracket_pairs()[i];
    assert(p.well_formed_in(buf.len()));
    assert(reported_on_line(buf, dp0, i));
    assert(candidate_valid(buf, dp0, j));
    assert(candidate_distance(buf, dp0, j) == 0);
    let c = lemma_first_at_cursor(buf, dp0, j, m);
    assert(candidate_offset(buf, c) == o);
    assert forall|c2: int| #[trigger] nearest_candidate(buf, dp0, c2, m) implies c2 == c by {
        lemma_nearest_candidate_unique(buf, dp0, c2, c, m);
    }
    assert forall|c2: int| !#[trigger] first_deciding_pair(buf, dp0, c2) by {
        if first_deciding_pair(buf, dp0, c2) {
            assert(angle_pair_decides(buf, dp0, c2));
        }
    }
}

/// `%` takes the cursor from a bracket to its partner and back, for
/// one-character brackets, unless an angle bracket pair decides otherwise
/// (the cursor inside one that closes with `/>` or leads to a matching
/// tag, or on one of its brackets), or a different pair puts a bracket at
/// the same place.
pub proof fn law_matching_round_trip(buf: TextBuffer, i: int)
    requires
        buf.wf(),
        0 <= i < buf.bracket_pairs().len(),
        buf.bracket_pairs()[i].open_end == buf.bracket_pairs()[i].open_start + 1,
        buf.bracket_pairs()[i].close_end == buf.bracket_pairs()[i].close_start + 1,
        buf.text()[buf.bracket_pairs()[i].open_start as int] != '\n',
        buf.text()[buf.bracket_pairs()[i].close_start as int] != '\n',
        no_angle_pair_decides(buf, buf.point_of(buf.bracket_pairs()[i].open_start as int)),
        no_angle_pair_decides(buf, buf.point_of(buf.bracket_pairs()[i].close_start as int)),
        brackets_apart(buf, i),
    ensures
        matching_of(buf, buf.point_of(buf.bracket_pairs()[i].open_start as int)) == buf.point_of(
            buf.bracket_pairs()[i].close_start as int,
        ),
        matching_of(buf, buf.point_of(buf.bracket_pairs()[i].close_start as int)) == buf.point_of(
            buf.bracket_pairs()[i].open_start as int,
        ),
{
    let p = buf.bracket_pairs()[i];
    assert(p.well_formed_in(buf.len()));
    let n = buf.bracket_pairs().len() as int;
    assert((2 * i) / 2 == i && (2 * i) % 2 == 0);
    assert((2 * i + 1) / 2 == i && (2 * i + 1) % 2 == 1);
    assert forall|k: int|
        0 <= k < 2 * n && #[trigger] candidate_offset(buf, k) == p.open_start implies candidate_target(
            buf,
            k,
        ) == candidate_target(buf, 2 * i) by {
        let q = buf.bracket_pairs()[k / 2];
        if k / 2 != i {
            assert(q == p || (q.open_start != p.open_start && q.close_start != p.open_start));
        }
    }
    lemma_matching_at_bracket(buf, p.open_start as int, 2 * i);
    assert forall|k: int|
        0 <= k < 2 * n && #[trigger] candidate_offset(buf, k) == p.close_start implies candidate_target(
            buf,
            k,
        ) == candidate_target(buf, 2 * i + 1) by {
        let q = buf.bracket_pairs()[k / 2];
        if k / 2 != i {
            assert(q == p || (q.open_start != p.close_start && q.close_start != p.close_start));
        }
    }
    lemma_matching_at_bracket(buf, p.close_start as int, 2 * i + 1);
}


/// `])` and `[(` either leave the cursor where it is or put it on the
/// bracket they look for.
pub proof fn law_unmatched_lands_on_bracket(buf: TextBuffer, p: DisplayPoint, ch: char, n: nat)
    requires
        buf.wf(),
        buf.valid_point(p),
    ensures
        buf.valid_point(unmatched_forward_of(buf, p, ch, n)),
        unmatched_forward_of(buf, p, ch, n) == p || ({
            let o = buf.offset_of(unmatched_forward_of(buf, p, ch, n));
            o < buf.len() && buf.text()[o] == ch
        }),
        buf.valid_point(unmatched_backward_of(buf, p, ch, n)),
        unmatched_backward_of(buf, p, ch, n) == p || ({
            let o = buf.offset_of(unmatched_backward_of(buf, p, ch, n));
            o < buf.len() && buf.text()[o] == ch
        }),
    decreases n,
{
    if n > 0 {
        let o = buf.offset_of(p);
        let q = unmatched_forward_step(buf, p, ch);
        assert(unmatched_forward_stepper(buf, ch)(p) == q);
        if exists|c: int| is_nearest_close(buf, o, ch, c) {
            let c = choose|c: int| is_nearest_close(buf, o, ch, c);
            let i = choose|i: int| #[trigger] closes_after(buf, i, o, ch) && buf.bracket_pairs()[i].close_start == c;
            assert(buf.bracket_pairs()[i].well_formed_in(buf.len()));
            buf.law_offset_point_round_trip(c);
        }
        let r = unmatched_backward_step(buf, p, ch);
        assert(unmatched_backward_stepper(buf, ch)(p) == r);
        if exists|c: int| is_nearest_open(buf, o, ch, c) {
            let c = choose|c: int| is_nearest_open(buf, o, ch, c);
            let i = choose|i: int| #[trigger] opens_before(buf, i, o, ch) && buf.bracket_pairs()[i].open_start == c;
            assert(buf.bracket_pairs()[i].well_formed_in(buf.len()));
            buf.law_offset_point_round_trip(c);
        }
        if q != p {
            law_unmatched_lands_on_bracket(buf, q, ch, (n - 1) as nat);
        }
        if r != p {
            law_unmatched_lands_on_bracket(buf, r, ch, (n - 1) as nat);
        }
    }
}

} // verus!
