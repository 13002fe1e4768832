//! Motions that look for characters of a kind: `^`, `g_`, `+`, `-`, `(` and `)`.

use vstd::prelude::*;

use crate::basic::{
    end_of_line, end_of_line_of, law_end_of_line, law_relative_row_start,
    relative_row_start, start_of_line,
    start_of_relative_buffer_row,
};
use crate::buffer::{DisplayPoint, TextBuffer};
use crate::chars::{is_whitespace, is_whitespace_char};
use crate::movement::line_blank;

verus! {

/// A test on one character.
#[derive(Clone, Copy, Debug, PartialEq, Eq, Structural)]
pub enum CharTest {
    /// A `'\n'`, or any character that is not whitespace.
    NewlineOrNonBlank,
    /// Anything but a closing `)`, `]`, `"` or `'`.
    NotCloser,
    /// `/`, `'\n'` or `>`.
    TagEnd,
    /// `<` or `'\n'`.
    TagStartOrNewline,
}

pub open spec fn char_test(t: CharTest, c: char) -> bool {
    match t {
        CharTest::NewlineOrNonBlank => c == '\n' || !is_whitespace_char(c),
        CharTest::NotCloser => !(c == ')' || c == ']' || c == '"' || c == '\''),
        CharTest::TagEnd => c == '/' || c == '\n' || c == '>',
        CharTest::TagStartOrNewline => c == '<' || c == '\n',
    }
}

pub fn char_test_exec(t: CharTest, c: char) -> (b: bool)
    ensures
        b == char_test(t, c),
{
    match t {
        CharTest::NewlineOrNonBlank => c == '\n' || !is_whitespace(c),
        CharTest::NotCloser => !(c == ')' || c == ']' || c == '"' || c == '\''),
        CharTest::TagEnd => c == '/' || c == '\n' || c == '>',
        CharTest::TagStartOrNewline => c == '<' || c == '\n',
    }
}

pub open spec fn is_first_char_from(buf: TextBuffer, t: CharTest, s: int, k: int) -> bool {
    &&& s <= k < buf.len()
    &&& char_test(t, buf.text()[k])
    &&& forall|j: int| s <= j < k ==> !char_test(t, #[trigger] buf.text()[j])
}

/// The first offset from `s` on whose character passes the test, or the
/// end of the text.
pub open spec fn first_char_from(buf: TextBuffer, t: CharTest, s: int) -> int {
    if exists|k: int| is_first_char_from(buf, t, s, k) {
        choose|k: int| is_first_char_from(buf, t, s, k)
    } else {
        buf.len()
    }
}

pub proof fn lemma_first_char_from(buf: TextBuffer, t: CharTest, s: int, k: int)
    requires
        0 <= s <= k <= buf.len(),
        k < buf.len() ==> char_test(t, buf.text()[k]),
        forall|j: int| s <= j < k ==> !char_test(t, #[trigger] buf.text()[j]),
    ensures
        first_char_from(buf, t, s) == k,
{
    if k < buf.len() {
        assert(is_first_char_from(buf, t, s, k));
        let c = choose|c: int| is_first_char_from(buf, t, s, c);
        if c < k {
            assert(!char_test(t, buf.text()[c]));
        } else if k < c {
            assert(!char_test(t, buf.text()[k]));
        }
    } else if exists|c: int| is_first_char_from(buf, t, s, c) {
        let c = choose|c: int| is_first_char_from(buf, t, s, c);
        assert(!char_test(t, buf.text()[c]));
    }
}

pub fn first_char_from_exec(buf: &TextBuffer, t: CharTest, s: usize) -> (k: usize)
    requires
        s <= buf.len(),
    ensures
        k == first_char_from(*buf, t, s as int),
        s <= k <= buf.len(),
        k < buf.len() ==> char_test(t, buf.text()[k as int]),
{
    let len = buf.len_chars();
    let mut k = s;
    while k < len
        invariant
            s <= k <= len,
            len == buf.len(),
            forall|j: int| s <= j < k ==> !char_test(t, #[trigger] buf.text()[j]),
        decreases len - k,
    {
        if char_test_exec(t, buf.char_at_exec(k).unwrap()) {
            proof {
                lemma_first_char_from(*buf, t, s as int, k as int);
            }
            return k;
        }
        k = k + 1;
    }
    proof {
        lemma_first_char_from(*buf, t, s as int, k as int);
    }
    k
}

pub open spec fn is_last_char_before(buf: TextBuffer, t: CharTest, e: int, k: int) -> bool {
    &&& 0 <= k < e
    &&& char_test(t, buf.text()[k])
    &&& forall|j: int| k < j < e ==> !char_test(t, #[trigger] buf.text()[j])
}

/// The last offset before `e` whose character passes the test, or `-1`.
pub open spec fn last_char_before(buf: TextBuffer, t: CharTest, e: int) -> int {
    if exists|k: int| is_last_char_before(buf, t, e, k) {
        choose|k: int| is_last_char_before(buf, t, e, k)
    } else {
        -1
    }
}

pub proof fn lemma_last_char_before(buf: TextBuffer, t: CharTest, e: int, k: int)
    requires
        -1 <= k < e <= buf.len(),
        k >= 0 ==> char_test(t, buf.text()[k]),
        forall|j: int| k < j < e ==> !char_test(t, #[trigger] buf.text()[j]),
    ensures
        last_char_before(buf, t, e) == k,
{
    if k >= 0 {
        assert(is_last_char_before(buf, t, e, k));
        let c = choose|c: int| is_last_char_before(buf, t, e, c);
        if c < k {
            assert(!char_test(t, buf.text()[k]));
        } else if k < c {
            assert(!char_test(t, buf.text()[c]));
        }
    } else if exists|c: int| is_last_char_before(buf, t, e, c) {
        let c = choose|c: int| is_last_char_before(buf, t, e, c);
        assert(!char_test(t, buf.text()[c]));
    }
}

/// Searches backward from `e`; returns one past the offset found, or 0.
pub fn last_char_before_exec(buf: &TextBuffer, t: CharTest, e: usize) -> (k: usize)
    requires
        e <= buf.len(),
    ensures
        k as int - 1 == last_char_before(*buf, t, e as int),
        k <= e,
{
    let mut k = e;
    while k > 0
        invariant
            k <= e <= buf.len(),
            forall|j: int| k <= j < e ==> !char_test(t, #[trigger] buf.text()[j]),
        decreases k,
    {
        if char_test_exec(t, buf.char_at_exec(k - 1).unwrap()) {
            proof {
                lemma_last_char_before(*buf, t, e as int, k - 1);
            }
            return k;
        }
        k = k - 1;
    }
    proof {
        lemma_last_char_before(*buf, t, e as int, -1);
    }
    0
}

/// `^`: the first character of the line that is not whitespace; on a line
/// of whitespace only, `from` itself, or, when the text ends on that line,
/// its last character.
pub open spec fn first_non_whitespace_of(buf: TextBuffer, from: DisplayPoint) -> DisplayPoint {
    let s = buf.line_start(from.row as int);
    let k = first_char_from(buf, CharTest::NewlineOrNonBlank, s);
    if k < buf.len() {
        if buf.text()[k] == '\n' {
            from
        } else {
            buf.point_of(k)
        }
    } else if buf.len() > s {
        buf.point_of(buf.len() - 1)
    } else {
        buf.point_of(s)
    }
}

pub fn first_non_whitespace(buf: &TextBuffer, display_lines: bool, from: DisplayPoint) -> (r:
    DisplayPoint)
    requires
        buf.valid_point(from),
    ensures
        r == first_non_whitespace_of(*buf, from),
        buf.valid_point(r),
{
    let line_start = start_of_line(buf, display_lines, from);
    let s = buf.to_offset(line_start);
    let k = first_char_from_exec(buf, CharTest::NewlineOrNonBlank, s);
    let len = buf.len_chars();
    if k < len {
        if buf.char_at_exec(k).unwrap() == '\n' {
            from
        } else {
            buf.to_point(k)
        }
    } else if len > s {
        buf.to_point(len - 1)
    } else {
        buf.to_point(s)
    }
}

/// `g_`: the last character that is not whitespace on the line `count - 1`
/// rows down; on a line of whitespace only, its start.
pub open spec fn last_non_whitespace_of(buf: TextBuffer, from: DisplayPoint, count: int) -> DisplayPoint {
    let e = buf.offset_of(end_of_line_of(buf, from, count));
    if e < buf.len() && !is_whitespace_char(buf.text()[e]) {
        buf.point_of(e)
    } else {
        let k = last_char_before(buf, CharTest::NewlineOrNonBlank, e);
        if k >= 0 {
            if buf.text()[k] == '\n' {
                buf.point_of(k + 1)
            } else {
                buf.point_of(k)
            }
        } else {
            buf.point_of(0)
        }
    }
}

pub fn last_non_whitespace(buf: &TextBuffer, from: DisplayPoint, count: usize) -> (r: DisplayPoint)
    requires
        buf.valid_point(from),
        count <= i64::MAX,
    ensures
        r == last_non_whitespace_of(*buf, from, count as int),
        buf.valid_point(r),
{
    proof {
        use_type_invariant(buf);
    }
    let eol = end_of_line(buf, false, from, count);
    let e = buf.to_offset(eol);
    if e < buf.len_chars() && !is_whitespace(buf.char_at_exec(e).unwrap()) {
        return buf.to_point(e);
    }
    let k1 = last_char_before_exec(buf, CharTest::NewlineOrNonBlank, e);
    if k1 > 0 {
        if buf.char_at_exec(k1 - 1).unwrap() == '\n' {
            buf.to_point(k1)
        } else {
            buf.to_point(k1 - 1)
        }
    } else {
        buf.to_point(0)
    }
}

/// `+` and enter: the first character that is not whitespace on the line
/// `times` rows down.
pub open spec fn next_line_start_of(buf: TextBuffer, p: DisplayPoint, times: int) -> DisplayPoint {
    first_non_whitespace_of(buf, relative_row_start(buf, p, times))
}

pub fn next_line_start(buf: &TextBuffer, point: DisplayPoint, times: usize) -> (r: DisplayPoint)
    requires
        buf.valid_point(point),
        times <= i64::MAX,
    ensures
        r == next_line_start_of(*buf, point, times as int),
        buf.valid_point(r),
{
    let correct_line = start_of_relative_buffer_row(buf, point, times as i64);
    first_non_whitespace(buf, false, correct_line)
}

/// `-`: the first character that is not whitespace on the line `times` rows up.
pub open spec fn previous_line_start_of(buf: TextBuffer, p: DisplayPoint, times: int) -> DisplayPoint {
    first_non_whitespace_of(buf, relative_row_start(buf, p, -times))
}

pub fn previous_line_start(buf: &TextBuffer, point: DisplayPoint, times: usize) -> (r: DisplayPoint)
    requires
        buf.valid_point(point),
        times <= i64::MAX,
    ensures
        r == previous_line_start_of(*buf, point, times as int),
        buf.valid_point(r),
{
    let correct_line = start_of_relative_buffer_row(buf, point, -(times as i64));
    first_non_whitespace(buf, false, correct_line)
}


/// The first offset from `start` on that holds a `'\n'` or a character
/// that is not whitespace.
pub fn next_non_blank(buf: &TextBuffer, start: usize) -> (k: usize)
    requires
        start <= buf.len(),
    ensures
        k == first_char_from(*buf, CharTest::NewlineOrNonBlank, start as int),
        start <= k <= buf.len(),
{
    first_char_from_exec(buf, CharTest::NewlineOrNonBlank, start)
}

pub open spec fn ends_sentence(c: char) -> bool {
    c == '.' || c == '?' || c == '!'
}

/// Given the offset just after a `.`, `?` or `!`: the start of the next
/// sentence, if this is the end of one. Closing `)`, `]` and quotes may
/// follow the mark; then there must be whitespace, and the next sentence
/// starts at the first `'\n'` or character that is not whitespace after it.
pub open spec fn start_of_next_sentence_of(buf: TextBuffer, end: int) -> Option<int> {
    let j = first_char_from(buf, CharTest::NotCloser, end);
    if j == buf.len() {
        Some(buf.len())
    } else if !is_whitespace_char(buf.text()[j]) {
        None
    } else {
        Some(first_char_from(buf, CharTest::NewlineOrNonBlank, j + 1))
    }
}

pub fn start_of_next_sentence(buf: &TextBuffer, end_of_sentence: usize) -> (r: Option<usize>)
    requires
        end_of_sentence <= buf.len(),
    ensures
        r matches Some(k) ==> start_of_next_sentence_of(*buf, end_of_sentence as int) == Some(k as int) && k <= buf.len(),
        r is None ==> start_of_next_sentence_of(*buf, end_of_sentence as int) is None,
{
    let j = first_char_from_exec(buf, CharTest::NotCloser, end_of_sentence);
    let len = buf.len_chars();
    if j == len {
        Some(len)
    } else if !is_whitespace(buf.char_at_exec(j).unwrap()) {
        None
    } else {
        Some(first_char_from_exec(buf, CharTest::NewlineOrNonBlank, j + 1))
    }
}

/// `)` from offset `k` on, where `was_newline` says that the scan is inside
/// a run of empty lines and `times` sentence starts remain to be passed.
pub open spec fn sentence_forward_from(buf: TextBuffer, k: int, was_newline: bool, times: int) -> DisplayPoint
    decreases buf.len() - k,
{
    if k >= buf.len() || k < 0 {
        buf.max_point()
    } else {
        let ch = buf.text()[k];
        if was_newline && ch == '\n' {
            sentence_forward_from(buf, k + 1, was_newline, times)
        } else {
            let next_newline = k + 1 < buf.len() && buf.text()[k + 1] == '\n';
            let found: Option<int> = if was_newline {
                Some(first_char_from(buf, CharTest::NewlineOrNonBlank, k))
            } else if ch == '\n' && next_newline {
                Some(first_char_from(buf, CharTest::NewlineOrNonBlank, k + 1))
            } else if ends_sentence(ch) {
                start_of_next_sentence_of(buf, k + 1)
            } else {
                None
            };
            match found {
                Some(x) => {
                    let left = if times > 0 {
                        times - 1
                    } else {
                        0
                    };
                    if left == 0 {
                        buf.clip(buf.point_of(x))
                    } else {
                        sentence_forward_from(buf, k + 1, ch == '\n' && next_newline, left)
                    }
                },
                None => sentence_forward_from(buf, k + 1, ch == '\n' && next_newline, times),
            }
        }
    }
}

/// `)`: the start of the sentence `times` sentences ahead. Empty lines
/// count as sentences, and a sentence ends at `.`, `?` or `!` followed by
/// whitespace; past the last one, the end of the text.
pub open spec fn sentence_forwards_of(buf: TextBuffer, p: DisplayPoint, times: int) -> DisplayPoint {
    let s = buf.offset_of(p);
    let was_newline = s > 0 && buf.text()[s - 1] == '\n' && s < buf.len() && buf.text()[s] == '\n';
    sentence_forward_from(buf, s, was_newline, times)
}

pub fn sentence_forwards(buf: &TextBuffer, point: DisplayPoint, times: usize) -> (r: DisplayPoint)
    requires
        buf.valid_point(point),
    ensures
        r == sentence_forwards_of(*buf, point, times as int),
        buf.valid_point(r),
{
    let start = buf.to_offset(point);
    let len = buf.len_chars();
    let mut was_newline = start > 0 && buf.char_at_exec(start - 1).unwrap() == '\n' && start < len
        && buf.char_at_exec(start).unwrap() == '\n';
    let mut remaining = times;
    let mut k = start;
    let ghost target = sentence_forwards_of(*buf, point, times as int);
    while k < len
        invariant
            start <= k <= len,
            len == buf.len(),
            target == sentence_forwards_of(*buf, point, times as int),
            target == sentence_forward_from(*buf, k as int, was_newline, remaining as int),
        decreases len - k,
    {
        let ch = buf.char_at_exec(k).unwrap();
        if was_newline && ch == '\n' {
            k = k + 1;
            continue;
        }
        let next_newline = k + 1 < len && buf.char_at_exec(k + 1).unwrap() == '\n';
        let found: Option<usize> = if was_newline {
            Some(next_non_blank(buf, k))
        } else if ch == '\n' && next_newline {
            Some(next_non_blank(buf, k + 1))
        } else if ch == '.' || ch == '?' || ch == '!' {
            start_of_next_sentence(buf, k + 1)
        } else {
            None
        };
        proof {
            let found_spec: Option<int> = if was_newline {
                Some(first_char_from(*buf, CharTest::NewlineOrNonBlank, k as int))
            } else if ch == '\n' && next_newline {
                Some(first_char_from(*buf, CharTest::NewlineOrNonBlank, k + 1))
            } else if ends_sentence(ch) {
                start_of_next_sentence_of(*buf, k + 1)
            } else {
                None
            };
            assert(found_spec == match found {
                Some(x) => Some(x as int),
                None => None,
            });
        }
        if let Some(x) = found {
            remaining = if remaining > 0 {
                remaining - 1
            } else {
                0
            };
            if remaining == 0 {
                let p = buf.to_point(x);
                return buf.clip_exec(p);
            }
        }
        was_newline = ch == '\n' && next_newline;
        k = k + 1;
    }
    buf.max_point_exec()
}

/// `(` from just before offset `k` backward, where `start` is the offset
/// that sentence starts must lie before to count, `was_newline` says
/// whether the character after the scan is a `'\n'`, and `times` sentence
/// starts remain to be passed.
pub open spec fn sentence_backward_from(
    buf: TextBuffer,
    k: int,
    start: int,
    was_newline: bool,
    times: int,
) -> DisplayPoint
    decreases k,
{
    if k <= 0 || k > buf.len() {
        DisplayPoint { row: 0, column: 0 }
    } else {
        let q = k - 1;
        let ch = buf.text()[q];
        let prev_newline = q >= 1 && buf.text()[q - 1] == '\n';
        let found: Option<int> = if was_newline && ch == '\n' {
            Some(q + 1)
        } else if ch == '\n' && prev_newline {
            Some(first_char_from(buf, CharTest::NewlineOrNonBlank, q + 1))
        } else if ends_sentence(ch) {
            start_of_next_sentence_of(buf, q + 1)
        } else {
            None
        };
        let next_start = if was_newline {
            q
        } else {
            start
        };
        match found {
            Some(x) => {
                let left = if x < start {
                    if times > 0 {
                        times - 1
                    } else {
                        0
                    }
                } else {
                    times
                };
                if left == 0 || q == 0 {
                    buf.clip(buf.point_of(x))
                } else {
                    sentence_backward_from(buf, q, next_start, ch == '\n', left)
                }
            },
            None => sentence_backward_from(buf, q, next_start, ch == '\n', times),
        }
    }
}

/// `(`: the start of the sentence `times` sentences back, by the same
/// rules as `)`; before the first one, the start of the text.
pub open spec fn sentence_backwards_of(buf: TextBuffer, p: DisplayPoint, times: int) -> DisplayPoint {
    let s = buf.offset_of(p);
    let was_newline = s < buf.len() && buf.text()[s] == '\n';
    sentence_backward_from(buf, s, s, was_newline, times)
}

pub fn sentence_backwards(buf: &TextBuffer, point: DisplayPoint, times: usize) -> (r: DisplayPoint)
    requires
        buf.valid_point(point),
    ensures
        r == sentence_backwards_of(*buf, point, times as int),
        buf.valid_point(r),
{
    let mut start = buf.to_offset(point);
    let len = buf.len_chars();
    let mut was_newline = start < len && buf.char_at_exec(start).unwrap() == '\n';
    let mut remaining = times;
    let mut k = start;
    let ghost target = sentence_backwards_of(*buf, point, times as int);
    while k > 0
        invariant
            k <= len,
            len == buf.len(),
            target == sentence_backwards_of(*buf, point, times as int),
            target == sentence_backward_from(*buf, k as int, start as int, was_newline, remaining as int),
        decreases k,
    {
        let q = k - 1;
        let ch = buf.char_at_exec(q).unwrap();
        let prev_newline = q >= 1 && buf.char_at_exec(q - 1).unwrap() == '\n';
        let found: Option<usize> = if was_newline && ch == '\n' {
            Some(q + 1)
        } else if ch == '\n' && prev_newline {
            Some(next_non_blank(buf, q + 1))
        } else if ch == '.' || ch == '?' || ch == '!' {
            start_of_next_sentence(buf, q + 1)
        } else {
            None
        };
        proof {
            let found_spec: Option<int> = if was_newline && ch == '\n' {
                Some(q + 1)
            } else if ch == '\n' && prev_newline {
                Some(first_char_from(*buf, CharTest::NewlineOrNonBlank, q + 1))
            } else if ends_sentence(ch) {
                start_of_next_sentence_of(*buf, q + 1)
            } else {
                None
            };
            assert(found_spec == match found {
                Some(x) => Some(x as int),
                None => None,
            });
        }
        if let Some(x) = found {
            if x < start {
                remaining = if remaining > 0 {
                    remaining - 1
                } else {
                    0
                };
            }
            if remaining == 0 || q == 0 {
                let p = buf.to_point(x);
                return buf.clip_exec(p);
            }
        }
        if was_newline {
            start = q;
        }
        was_newline = ch == '\n';
        k = q;
    }
    proof {
        use_type_invariant(buf);
        buf.lemma_line_bounds(0);
    }
    DisplayPoint::zero()
}

/// What `first_char_from` finds: an offset from `s` on, whose character
/// passes the test unless it is the end of the text, with none passing before it.
proof fn lemma_first_char_from_found(buf: TextBuffer, t: CharTest, s: int, k0: int)
    requires
        0 <= s <= k0 <= buf.len(),
        forall|j: int| s <= j < k0 ==> !char_test(t, #[trigger] buf.text()[j]),
    ensures
        s <= first_char_from(buf, t, s) <= buf.len(),
        first_char_from(buf, t, s) < buf.len() ==> char_test(
            t,
            buf.text()[first_char_from(buf, t, s)],
        ),
        forall|j: int| s <= j < first_char_from(buf, t, s) ==> !char_test(t, #[trigger] buf.text()[j]),
    decreases buf.len() - k0,
{
    if k0 == buf.len() || char_test(t, buf.text()[k0]) {
        lemma_first_char_from(buf, t, s, k0);
    } else {
        lemma_first_char_from_found(buf, t, s, k0 + 1);
    }
}

/// `^` stays on the line of the cursor and, unless that line is blank,
/// lands on its first character that is not whitespace.
pub proof fn law_first_non_whitespace(buf: TextBuffer, from: DisplayPoint)
    requires
        buf.wf(),
        buf.valid_point(from),
    ensures
        first_non_whitespace_of(buf, from).row == from.row,
        line_blank(buf, from.row as int) || {
            let o = buf.offset_of(first_non_whitespace_of(buf, from));
            &&& o < buf.len()
            &&& !is_whitespace_char(buf.text()[o])
            &&& forall|j: int| buf.line_start(from.row as int) <= j < o ==> is_whitespace_char(
                #[trigger] buf.text()[j],
            )
        },
{
    let r = from.row as int;
    let s = buf.line_start(r);
    buf.lemma_line_bounds(r);
    lemma_first_char_from_found(buf, CharTest::NewlineOrNonBlank, s, s);
    let k = first_char_from(buf, CharTest::NewlineOrNonBlank, s);
    let q = first_non_whitespace_of(buf, from);
    // no character before `k` on the line is a line end
    if k > buf.line_end(r) {
        if r + 1 < buf.line_count() {
            assert(!char_test(CharTest::NewlineOrNonBlank, buf.text()[buf.line_end(r)]));
        }
    }
    if k == buf.line_end(r) && k < buf.len() {
        assert(r + 1 < buf.line_count());
    }
    assert(k <= buf.line_end(r));
    if k < buf.line_end(r) {
        buf.lemma_no_newline_in_line(r, k);
        let p = DisplayPoint { row: from.row, column: (k - s) as u32 };
        assert(buf.point_at(k, p));
        buf.lemma_point_of(k);
    } else {
        assert forall|j: int| buf.line_start(r) <= j < buf.line_end(r) implies is_whitespace_char(
            #[trigger] buf.text()[j],
        ) by {
            assert(!char_test(CharTest::NewlineOrNonBlank, buf.text()[j]));
        }
        if k == buf.len() {
            if buf.len() > s {
                let p = DisplayPoint { row: from.row, column: (buf.len() - 1 - s) as u32 };
                assert(buf.point_at(buf.len() - 1, p));
                buf.lemma_point_of(buf.len() - 1);
            } else {
                let p = DisplayPoint { row: from.row, column: 0 };
                assert(buf.point_at(s, p));
                buf.lemma_point_of(s);
            }
        }
    }
}

/// `+` and `Enter` with a count of `n` go `n` rows down (stopping at the
/// last row), `-` goes `n` rows up (stopping at the first), each to the
/// first character of that row that is not whitespace, unless the row is blank.
pub proof fn law_line_start_rows(buf: TextBuffer, p: DisplayPoint, n: int)
    requires
        buf.wf(),
        buf.valid_point(p),
        n >= 0,
    ensures
        ({
            let q = next_line_start_of(buf, p, n);
            let row = if p.row + n > buf.max_row() { buf.max_row() } else { p.row + n };
            &&& q.row == row
            &&& line_blank(buf, row) || {
                let o = buf.offset_of(q);
                &&& o < buf.len()
                &&& !is_whitespace_char(buf.text()[o])
                &&& forall|j: int| buf.line_start(row) <= j < o ==> is_whitespace_char(
                    #[trigger] buf.text()[j],
                )
            }
        }),
        ({
            let q = previous_line_start_of(buf, p, n);
            let row = if p.row - n < 0 { 0 } else { p.row - n };
            &&& q.row == row
            &&& line_blank(buf, row) || {
                let o = buf.offset_of(q);
                &&& o < buf.len()
                &&& !is_whitespace_char(buf.text()[o])
                &&& forall|j: int| buf.line_start(row) <= j < o ==> is_whitespace_char(
                    #[trigger] buf.text()[j],
                )
            }
        }),
{
    law_relative_row_start(buf, p, n);
    law_relative_row_start(buf, p, -n);
    law_first_non_whitespace(buf, relative_row_start(buf, p, n));
    law_first_non_whitespace(buf, relative_row_start(buf, p, -n));
}

proof fn lemma_sentence_forward_skips(buf: TextBuffer, j: int, k: int)
    requires
        0 <= j <= k < buf.len(),
        forall|i: int|
            j <= i < k ==> #[trigger] buf.text()[i] != '\n' && buf.text()[i] != '.' && buf.text()[i]
                != '?' && buf.text()[i] != '!',
    ensures
        sentence_forward_from(buf, j, false, 1) == sentence_forward_from(buf, k, false, 1),
    decreases k - j,
{
    if j < k {
        let ch = buf.text()[j];
        assert(ch != '\n' && ch != '.' && ch != '?' && ch != '!');
        lemma_sentence_forward_skips(buf, j + 1, k);
    }
}

/// `)` from before the first `.`, `?` or `!` on the line, where that mark is
/// followed by blanks and then a character that is not whitespace, goes to
/// that character: the start of the next sentence.
pub proof fn law_sentence_forward_after_mark(buf: TextBuffer, p: DisplayPoint, k: int, m: int)
    requires
        buf.wf(),
        buf.valid_point(p),
        buf.offset_of(p) <= k,
        k + 1 < m < buf.len(),
        buf.text()[k] == '.' || buf.text()[k] == '?' || buf.text()[k] == '!',
        forall|i: int|
            buf.offset_of(p) <= i < k ==> #[trigger] buf.text()[i] != '\n' && buf.text()[i] != '.'
                && buf.text()[i] != '?' && buf.text()[i] != '!',
        forall|i: int|
            k < i < m ==> is_whitespace_char(#[trigger] buf.text()[i]) && buf.text()[i] != '\n',
        !is_whitespace_char(buf.text()[m]),
    ensures
        sentence_forwards_of(buf, p, 1) == buf.point_of(m),
{
    let s = buf.offset_of(p);
    buf.lemma_valid_point_offset(p);
    lemma_sentence_forward_skips(buf, s, k);
    let c = buf.text()[k + 1];
    assert(is_whitespace_char(c));
    lemma_first_char_from(buf, CharTest::NotCloser, k + 1, k + 1);
    assert forall|j: int| k + 2 <= j < m implies !char_test(CharTest::NewlineOrNonBlank, #[trigger] buf.text()[j]) by {
        assert(is_whitespace_char(buf.text()[j]) && buf.text()[j] != '\n');
    }
    lemma_first_char_from(buf, CharTest::NewlineOrNonBlank, k + 2, m);
    assert(start_of_next_sentence_of(buf, k + 1) == Some(m));
    buf.law_offset_point_round_trip(m);
    buf.lemma_point_of_column(m);
    buf.lemma_line_bounds(buf.point_of(m).row as int);
}

proof fn lemma_sentence_backward_skips(buf: TextBuffer, k: int, j: int, start: int)
    requires
        0 <= k < j <= buf.len(),
        forall|i: int|
            k < i < j ==> #[trigger] buf.text()[i] != '\n' && buf.text()[i] != '.' && buf.text()[i]
                != '?' && buf.text()[i] != '!',
    ensures
        sentence_backward_from(buf, j, start, false, 1) == sentence_backward_from(
            buf,
            k + 1,
            start,
            false,
            1,
        ),
    decreases j - k,
{
    if j > k + 1 {
        let ch = buf.text()[j - 1];
        assert(ch != '\n' && ch != '.' && ch != '?' && ch != '!');
        lemma_sentence_backward_skips(buf, k, j - 1, start);
    }
}

/// `(` from inside a sentence on one line, after its first character, goes
/// back to that first character: the first character that is not
/// whitespace after the blanks that follow the `.`, `?` or `!` before it.
pub proof fn law_sentence_backward_to_start(buf: TextBuffer, p: DisplayPoint, k: int, m: int)
    requires
        buf.wf(),
        buf.valid_point(p),
        0 <= k,
        k + 1 < m < buf.offset_of(p),
        !(buf.offset_of(p) < buf.len() && buf.text()[buf.offset_of(p)] == '\n'),
        buf.text()[k] == '.' || buf.text()[k] == '?' || buf.text()[k] == '!',
        forall|i: int|
            k < i < m ==> is_whitespace_char(#[trigger] buf.text()[i]) && buf.text()[i] != '\n',
        !is_whitespace_char(buf.text()[m]),
        forall|i: int|
            m <= i < buf.offset_of(p) ==> #[trigger] buf.text()[i] != '\n' && buf.text()[i] != '.'
                && buf.text()[i] != '?' && buf.text()[i] != '!',
    ensures
        sentence_backwards_of(buf, p, 1) == buf.point_of(m),
{
    let s = buf.offset_of(p);
    buf.lemma_valid_point_offset(p);
    assert forall|i: int|
        k < i < s implies #[trigger] buf.text()[i] != '\n' && buf.text()[i] != '.' && buf.text()[i]
            != '?' && buf.text()[i] != '!' by {
        if i < m {
            assert(is_whitespace_char(buf.text()[i]) && buf.text()[i] != '\n');
        }
    }
    lemma_sentence_backward_skips(buf, k, s, s);
    lemma_first_char_from(buf, CharTest::NotCloser, k + 1, k + 1);
    assert forall|j: int| k + 2 <= j < m implies !char_test(CharTest::NewlineOrNonBlank, #[trigger] buf.text()[j]) by {
        assert(is_whitespace_char(buf.text()[j]) && buf.text()[j] != '\n');
    }
    lemma_first_char_from(buf, CharTest::NewlineOrNonBlank, k + 2, m);
    assert(start_of_next_sentence_of(buf, k + 1) == Some(m));
    buf.law_offset_point_round_trip(m);
    buf.lemma_point_of_column(m);
    buf.lemma_line_bounds(buf.point_of(m).row as int);
}

proof fn lemma_last_char_before_found(buf: TextBuffer, t: CharTest, e: int, k0: int)
    requires
        -1 <= k0 < e <= buf.len(),
        forall|j: int| k0 < j < e ==> !char_test(t, #[trigger] buf.text()[j]),
    ensures
        -1 <= last_char_before(buf, t, e) < e,
        last_char_before(buf, t, e) >= 0 ==> char_test(t, buf.text()[last_char_before(buf, t, e)]),
        forall|j: int| last_char_before(buf, t, e) < j < e ==> !char_test(t, #[trigger] buf.text()[j]),
    decreases k0 + 1,
{
    if k0 == -1 || char_test(t, buf.text()[k0]) {
        lemma_last_char_before(buf, t, e, k0);
    } else {
        lemma_last_char_before_found(buf, t, e, k0 - 1);
    }
}

/// `g_` with a count of `n` goes `n - 1` rows down (stopping at the last
/// row) to the last character of that line that is not whitespace, or, on
/// a line of whitespace only, to its start.
/// The row and offset `g_` starts from: the end of the line `count - 1`
/// rows down.
proof fn lemma_g_underscore_start(buf: TextBuffer, p: DisplayPoint, count: int)
    requires
        buf.wf(),
        buf.valid_point(p),
    ensures
        ({
            let end = end_of_line_of(buf, p, count);
            let r = end.row as int;
            let e = buf.offset_of(end);
            &&& 0 <= r < buf.line_count()
            &&& r == (if count <= 1 {
                p.row as int
            } else if p.row + count - 1 > buf.max_row() {
                buf.max_row()
            } else {
                p.row + count - 1
            })
            &&& e == buf.line_end(r) || (e == buf.line_end(r) - 1 && buf.line_len(r) > 0)
        }),
{
    law_end_of_line(buf, p, count);
    let end = end_of_line_of(buf, p, count);
    buf.lemma_line_bounds(end.row as int);
}

proof fn lemma_g_underscore_on_char(buf: TextBuffer, p: DisplayPoint, count: int)
    requires
        buf.wf(),
        buf.valid_point(p),
        ({
            let e = buf.offset_of(end_of_line_of(buf, p, count));
            e < buf.len() && !is_whitespace_char(buf.text()[e])
        }),
    ensures
        ({
            let q = last_non_whitespace_of(buf, p, count);
            let r = end_of_line_of(buf, p, count).row as int;
            let o = buf.offset_of(q);
            &&& q.row == r
            &&& !line_blank(buf, r)
            &&& o < buf.line_end(r)
            &&& !is_whitespace_char(buf.text()[o])
            &&& forall|j: int| o < j < buf.line_end(r) ==> is_whitespace_char(#[trigger] buf.text()[j])
        }),
{
    lemma_g_underscore_start(buf, p, count);
    let end = end_of_line_of(buf, p, count);
    let r = end.row as int;
    buf.lemma_line_bounds(r);
    let ls = buf.line_start(r);
    let le = buf.line_end(r);
    let e = buf.offset_of(end);
    assert(e == le - 1);
    buf.lemma_no_newline_in_line(r, e);
    assert(buf.point_at(e, DisplayPoint { row: r as u32, column: (e - ls) as u32 }));
    buf.lemma_point_of(e);
}

proof fn lemma_g_underscore_back(buf: TextBuffer, p: DisplayPoint, count: int)
    requires
        buf.wf(),
        buf.valid_point(p),
        ({
            let e = buf.offset_of(end_of_line_of(buf, p, count));
            !(e < buf.len() && !is_whitespace_char(buf.text()[e]))
        }),
    ensures
        ({
            let q = last_non_whitespace_of(buf, p, count);
            let r = end_of_line_of(buf, p, count).row as int;
            &&& q.row == r
            &&& line_blank(buf, r) ==> q.column == 0
            &&& !line_blank(buf, r) ==> {
                let o = buf.offset_of(q);
                &&& o < buf.line_end(r)
                &&& !is_whitespace_char(buf.text()[o])
                &&& forall|j: int| o < j < buf.line_end(r) ==> is_whitespace_char(#[trigger] buf.text()[j])
            }
        }),
{
    lemma_g_underscore_start(buf, p, count);
    let end = end_of_line_of(buf, p, count);
    let r = end.row as int;
    buf.lemma_line_bounds(r);
    if r > 0 {
        buf.lemma_line_bounds(r - 1);
    }
    let ls = buf.line_start(r);
    let le = buf.line_end(r);
    let e = buf.offset_of(end);
    if e == 0 {
        lemma_last_char_before(buf, CharTest::NewlineOrNonBlank, e, -1);
    } else {
        lemma_last_char_before_found(buf, CharTest::NewlineOrNonBlank, e, e - 1);
    }
    let k = last_char_before(buf, CharTest::NewlineOrNonBlank, e);
    if k >= ls {
        buf.lemma_no_newline_in_line(r, k);
        assert(buf.point_at(k, DisplayPoint { row: r as u32, column: (k - ls) as u32 }));
        buf.lemma_point_of(k);
        assert(!line_blank(buf, r));
        assert forall|j: int| k < j < le implies is_whitespace_char(#[trigger] buf.text()[j]) by {
            if j < e {
                assert(!char_test(CharTest::NewlineOrNonBlank, buf.text()[j]));
            }
        }
    } else {
        if r > 0 {
            assert(buf.text()[ls - 1] == '\n');
            assert(char_test(CharTest::NewlineOrNonBlank, buf.text()[ls - 1]));
            assert(k >= ls - 1);
            assert(buf.point_at(ls, DisplayPoint { row: r as u32, column: 0 }));
            buf.lemma_point_of(ls);
        } else {
            assert(buf.starts()[0] == 0);
            assert(k == -1);
            assert(buf.point_at(0, DisplayPoint { row: 0, column: 0 }));
            buf.lemma_point_of(0);
        }
        assert forall|j: int| ls <= j < le implies is_whitespace_char(#[trigger] buf.text()[j]) by {
            if j < e {
                assert(!char_test(CharTest::NewlineOrNonBlank, buf.text()[j]));
            }
        }
    }
}

/// `g_` with a count of `n` goes `n - 1` rows down (stopping at the last
/// row) to the last character of that line that is not whitespace, or, on
/// a line of whitespace only, to its start.
pub proof fn law_last_non_whitespace(buf: TextBuffer, p: DisplayPoint, count: int)
    requires
        buf.wf(),
        buf.valid_point(p),
    ensures
        ({
            let q = last_non_whitespace_of(buf, p, count);
            let row = if count <= 1 {
                p.row as int
            } else if p.row + count - 1 > buf.max_row() {
                buf.max_row()
            } else {
                p.row + count - 1
            };
            &&& q.row == row
            &&& line_blank(buf, row) ==> q.column == 0
            &&& !line_blank(buf, row) ==> {
                let o = buf.offset_of(q);
                &&& o < buf.line_end(row)
                &&& !is_whitespace_char(buf.text()[o])
                &&& forall|j: int| o < j < buf.line_end(row) ==> is_whitespace_char(#[trigger] buf.text()[j])
            }
        }),
{
    lemma_g_underscore_start(buf, p, count);
    let e = buf.offset_of(end_of_line_of(buf, p, count));
    if e < buf.len() && !is_whitespace_char(buf.text()[e]) {
        lemma_g_underscore_on_char(buf, p, count);
    } else {
        lemma_g_underscore_back(buf, p, count);
    }
}

} // verus!
