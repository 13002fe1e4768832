//! Moving over the text: one character at a time, by rows, to paragraph
//! boundaries, and scanning for the first place where a test on two
//! neighbouring characters holds.

use vstd::prelude::*;

use crate::buffer::{DisplayPoint, TextBuffer};
use crate::chars::{
    character_match, is_alphanumeric, is_character_match, is_lowercase, is_uppercase,
    is_whitespace, is_whitespace_char, unicode_alphanumeric, unicode_lowercase, unicode_uppercase,
    CharKind,
};

verus! {

/// Whether a scan may leave the line on which it starts.
#[derive(Clone, Copy, Debug, PartialEq, Eq, Structural)]
pub enum FindRange {
    SingleLine,
    MultiLine,
}

/// The test that ends a scan, applied to the character on the left and the
/// character on the right of a place in the text.
#[derive(Clone, Copy, Debug, PartialEq, Eq, Structural)]
pub enum Boundary {
    /// The start of the next word (`w`).
    WordStart { ignore_punctuation: bool },
    /// The end of the next word (`e`).
    WordEnd { ignore_punctuation: bool, allow_cross_newline: bool },
    /// The start of the next part of a word in snake or camel case.
    SubwordStart { ignore_punctuation: bool },
    /// The end of the next part of a word in snake or camel case.
    SubwordEnd { ignore_punctuation: bool, allow_cross_newline: bool },
    /// The start of the preceding word (`b`).
    PrecedingWordStart { ignore_punctuation: bool },
    /// The end of the preceding word (`ge`).
    PrecedingWordEnd { ignore_punctuation: bool },
    /// The start of the preceding part of a word.
    PrecedingSubwordStart { ignore_punctuation: bool },
    /// The end of the preceding part of a word.
    PrecedingSubwordEnd { ignore_punctuation: bool },
    /// A character that matches `target` (`f`, `t`, `F`, `T`).
    Character { target: char, smartcase: bool },
}

/// The start of a word: a change of kind out of a character that is not a
/// letter or digit, or the start of a part of a snake or camel case word.
pub open spec fn subword_start_test(buf: TextBuffer, ip: bool, left: char, right: char) -> bool {
    let is_word_start = buf.kind_of(ip, left) != buf.kind_of(ip, right) && !unicode_alphanumeric(
        left,
    );
    let is_subword_start = (left == '_' && right != '_') || (unicode_lowercase(left)
        && unicode_uppercase(right));
    !is_whitespace_char(right) && (is_word_start || is_subword_start)
}

/// Whether the test `b` holds between `left` and `right`, where `crossed` says
/// whether the scan has already passed a `'\n'`.
pub open spec fn boundary_test(
    buf: TextBuffer,
    b: Boundary,
    left: char,
    right: char,
    crossed: bool,
) -> bool {
    let at_newline = right == '\n';
    match b {
        Boundary::WordStart { ignore_punctuation: ip } => {
            (buf.kind_of(ip, left) != buf.kind_of(ip, right) && buf.kind_of(ip, right)
                != CharKind::Whitespace) || (at_newline && crossed) || (at_newline && left == '\n')
        },
        Boundary::WordEnd { ignore_punctuation: ip, allow_cross_newline: allow } => {
            if !allow && at_newline {
                true
            } else {
                buf.kind_of(ip, left) != buf.kind_of(ip, right) && buf.kind_of(ip, left)
                    != CharKind::Whitespace
            }
        },
        Boundary::SubwordStart { ignore_punctuation: ip } => {
            subword_start_test(buf, ip, left, right) || (at_newline && crossed) || (at_newline
                && left == '\n')
        },
        Boundary::SubwordEnd { ignore_punctuation: ip, allow_cross_newline: allow } => {
            if !allow && at_newline {
                true
            } else {
                let is_word_end = buf.kind_of(ip, left) != buf.kind_of(ip, right)
                    && !unicode_alphanumeric(right);
                let is_subword_end = (left != '_' && right == '_') || (unicode_lowercase(left)
                    && unicode_uppercase(right));
                !is_whitespace_char(left) && !at_newline && (is_word_end || is_subword_end)
            }
        },
        Boundary::PrecedingWordStart { ignore_punctuation: ip } => {
            (buf.kind_of(ip, left) != buf.kind_of(ip, right) && !is_whitespace_char(right))
                || left == '\n'
        },
        Boundary::PrecedingWordEnd { ignore_punctuation: ip } => {
            let lk = buf.kind_of(ip, left);
            let rk = buf.kind_of(ip, right);
            if lk == CharKind::Whitespace && rk == CharKind::Whitespace {
                left == '\n' && right == '\n'
            } else {
                lk != rk && lk != CharKind::Whitespace
            }
        },
        Boundary::PrecedingSubwordStart { ignore_punctuation: ip } => {
            subword_start_test(buf, ip, left, right) || (at_newline && crossed) || (at_newline
                && left == '\n')
        },
        Boundary::PrecedingSubwordEnd { ignore_punctuation: ip } => {
            let lk = buf.kind_of(ip, left);
            let rk = buf.kind_of(ip, right);
            if (left != '_' && right == '_') || (unicode_lowercase(left) && unicode_uppercase(
                right,
            )) {
                true
            } else if lk == CharKind::Whitespace && rk == CharKind::Whitespace {
                left == '\n' && right == '\n'
            } else {
                lk == CharKind::Word && rk != CharKind::Word
            }
        },
        Boundary::Character { target, smartcase } => character_match(target, right, smartcase),
    }
}

pub fn boundary_test_exec(
    buf: &TextBuffer,
    b: Boundary,
    left: char,
    right: char,
    crossed: bool,
) -> (r: bool)
    ensures
        r == boundary_test(*buf, b, left, right, crossed),
{
    let at_newline = right == '\n';
    match b {
        Boundary::WordStart { ignore_punctuation: ip } => {
            let lk = buf.kind(ip, left);
            let rk = buf.kind(ip, right);
            (lk != rk && rk != CharKind::Whitespace) || (at_newline && crossed) || (at_newline
                && left == '\n')
        },
        Boundary::WordEnd { ignore_punctuation: ip, allow_cross_newline: allow } => {
            if !allow && at_newline {
                true
            } else {
                let lk = buf.kind(ip, left);
                let rk = buf.kind(ip, right);
                lk != rk && lk != CharKind::Whitespace
            }
        },
        Boundary::SubwordStart { ignore_punctuation: ip } => {
            subword_start_exec(buf, ip, left, right) || (at_newline && crossed) || (at_newline
                && left == '\n')
        },
        Boundary::SubwordEnd { ignore_punctuation: ip, allow_cross_newline: allow } => {
            if !allow && at_newline {
                true
            } else {
                let lk = buf.kind(ip, left);
                let rk = buf.kind(ip, right);
                let is_word_end = lk != rk && !is_alphanumeric(right);
                let is_subword_end = (left != '_' && right == '_') || (is_lowercase(left)
                    && is_uppercase(right));
                !is_whitespace(left) && !at_newline && (is_word_end || is_subword_end)
            }
        },
        Boundary::PrecedingWordStart { ignore_punctuation: ip } => {
            let lk = buf.kind(ip, left);
            let rk = buf.kind(ip, right);
            (lk != rk && !is_whitespace(right)) || left == '\n'
        },
        Boundary::PrecedingWordEnd { ignore_punctuation: ip } => {
            let lk = buf.kind(ip, left);
            let rk = buf.kind(ip, right);
            if lk == CharKind::Whitespace && rk == CharKind::Whitespace {
                left == '\n' && right == '\n'
            } else {
                lk != rk && lk != CharKind::Whitespace
            }
        },
        Boundary::PrecedingSubwordStart { ignore_punctuation: ip } => {
            subword_start_exec(buf, ip, left, right) || (at_newline && crossed) || (at_newline
                && left == '\n')
        },
        Boundary::PrecedingSubwordEnd { ignore_punctuation: ip } => {
            let lk = buf.kind(ip, left);
            let rk = buf.kind(ip, right);
            if (left != '_' && right == '_') || (is_lowercase(left) && is_uppercase(right)) {
                true
            } else if lk == CharKind::Whitespace && rk == CharKind::Whitespace {
                left == '\n' && right == '\n'
            } else {
                lk == CharKind::Word && rk != CharKind::Word
            }
        },
        Boundary::Character { target, smartcase } => is_character_match(target, right, smartcase),
    }
}

fn subword_start_exec(buf: &TextBuffer, ip: bool, left: char, right: char) -> (r: bool)
    ensures
        r == subword_start_test(*buf, ip, left, right),
{
    let lk = buf.kind(ip, left);
    let rk = buf.kind(ip, right);
    let is_word_start = lk != rk && !is_alphanumeric(left);
    let is_subword_start = (left == '_' && right != '_') || (is_lowercase(left) && is_uppercase(
        right,
    ));
    !is_whitespace(right) && (is_word_start || is_subword_start)
}

// ---------------------------------------------------------------------------
// Scanning forward

/// Whether a forward scan from offset `f` has passed a `'\n'` before it
/// tests the place at offset `q`.
pub open spec fn crossed_forward(buf: TextBuffer, f: int, q: int) -> bool {
    exists|k: int| f < k < q && #[trigger] buf.text()[k] == '\n'
}

/// Whether a forward scan from `f` stops at offset `q`: at a `'\n'` when it
/// keeps to one line, or where the test holds between the characters before
/// and at `q`.
pub open spec fn stops_forward(buf: TextBuffer, b: Boundary, single_line: bool, f: int, q: int) -> bool {
    ||| (single_line && buf.text()[q] == '\n')
    ||| (q > f && boundary_test(buf, b, buf.text()[q - 1], buf.text()[q], crossed_forward(buf, f, q)))
}

pub open spec fn first_stop_forward(buf: TextBuffer, b: Boundary, single_line: bool, f: int, q: int) -> bool {
    &&& f <= q < buf.len()
    &&& stops_forward(buf, b, single_line, f, q)
    &&& forall|k: int| f <= k < q ==> !#[trigger] stops_forward(buf, b, single_line, f, k)
}

/// The offset at which a forward scan from `f` stops: the first offset from
/// `f` on where it stops, or the end of the text.
pub open spec fn scan_forward(buf: TextBuffer, b: Boundary, single_line: bool, f: int) -> int {
    if exists|q: int| first_stop_forward(buf, b, single_line, f, q) {
        choose|q: int| first_stop_forward(buf, b, single_line, f, q)
    } else {
        buf.len()
    }
}

pub proof fn lemma_scan_forward(buf: TextBuffer, b: Boundary, single_line: bool, f: int, q: int)
    requires
        0 <= f <= q <= buf.len(),
        q < buf.len() ==> stops_forward(buf, b, single_line, f, q),
        forall|k: int| f <= k < q ==> !#[trigger] stops_forward(buf, b, single_line, f, k),
    ensures
        scan_forward(buf, b, single_line, f) == q,
{
    if q < buf.len() {
        assert(first_stop_forward(buf, b, single_line, f, q));
        let c = choose|c: int| first_stop_forward(buf, b, single_line, f, c);
        if c < q {
            assert(!stops_forward(buf, b, single_line, f, c));
        } else if q < c {
            assert(!stops_forward(buf, b, single_line, f, q));
        }
    } else {
        if exists|c: int| first_stop_forward(buf, b, single_line, f, c) {
            let c = choose|c: int| first_stop_forward(buf, b, single_line, f, c);
            assert(!stops_forward(buf, b, single_line, f, c));
        }
    }
}

pub proof fn lemma_scan_forward_bounds(buf: TextBuffer, b: Boundary, single_line: bool, f: int)
    requires
        0 <= f <= buf.len(),
    ensures
        f <= scan_forward(buf, b, single_line, f) <= buf.len(),
        scan_forward(buf, b, single_line, f) < buf.len() ==> stops_forward(
            buf,
            b,
            single_line,
            f,
            scan_forward(buf, b, single_line, f),
        ),
{
    if exists|q: int| first_stop_forward(buf, b, single_line, f, q) {
        let q = choose|q: int| first_stop_forward(buf, b, single_line, f, q);
    }
}

/// A forward scan stops at its first stop: nothing between where it starts
/// and where it stops is a stop.
pub proof fn lemma_scan_forward_no_earlier_stop(buf: TextBuffer, b: Boundary, single_line: bool, f: int, k0: int)
    requires
        0 <= f <= k0 <= buf.len(),
        forall|k: int| f <= k < k0 ==> !#[trigger] stops_forward(buf, b, single_line, f, k),
    ensures
        forall|k: int|
            f <= k < scan_forward(buf, b, single_line, f) ==> !#[trigger] stops_forward(
                buf,
                b,
                single_line,
                f,
                k,
            ),
    decreases buf.len() - k0,
{
    if k0 == buf.len() || stops_forward(buf, b, single_line, f, k0) {
        lemma_scan_forward(buf, b, single_line, f, k0);
    } else {
        lemma_scan_forward_no_earlier_stop(buf, b, single_line, f, k0 + 1);
    }
}

/// Scans forward from offset `f` for the first place where the scan stops.
pub fn scan_forward_exec(buf: &TextBuffer, b: Boundary, range: FindRange, f: usize) -> (q: usize)
    requires
        f <= buf.len(),
    ensures
        q == scan_forward(*buf, b, range == FindRange::SingleLine, f as int),
        f <= q <= buf.len(),
        q < buf.len() ==> stops_forward(*buf, b, range == FindRange::SingleLine, f as int, q as int),
{
    let single_line = range == FindRange::SingleLine;
    let len = buf.len_chars();
    let mut q = f;
    let mut crossed = false;
    while q < len
        invariant
            f <= q <= len,
            len == buf.len(),
            single_line == (range == FindRange::SingleLine),
            q > f ==> crossed == crossed_forward(*buf, f as int, q as int),
            forall|k: int| f <= k < q ==> !#[trigger] stops_forward(*buf, b, single_line, f as int, k),
        decreases len - q,
    {
        let ch = buf.char_at_exec(q).unwrap();
        if single_line && ch == '\n' {
            proof {
                lemma_scan_forward(*buf, b, single_line, f as int, q as int);
            }
            return q;
        }
        if q > f {
            let left = buf.char_at_exec(q - 1).unwrap();
            if boundary_test_exec(buf, b, left, ch, crossed) {
                proof {
                    lemma_scan_forward(*buf, b, single_line, f as int, q as int);
                }
                return q;
            }
        }
        proof {
            if q > f && ch == '\n' {
                assert(buf.text()[q as int] == '\n');
                assert(crossed_forward(*buf, f as int, q + 1));
            }
            if q > f && ch != '\n' {
                if crossed_forward(*buf, f as int, q + 1) {
                    let k = choose|k: int| f < k < q + 1 && #[trigger] buf.text()[k] == '\n';
                    assert(k < q);
                }
            }
            if q == f {
                if crossed_forward(*buf, f as int, q + 1) {
                    let k = choose|k: int| f < k < q + 1 && #[trigger] buf.text()[k] == '\n';
                }
            }
        }
        if q > f && ch == '\n' {
            crossed = true;
        }
        if q == f {
            crossed = false;
        }
        q = q + 1;
    }
    proof {
        lemma_scan_forward(*buf, b, single_line, f as int, q as int);
    }
    q
}

// ---------------------------------------------------------------------------
// Scanning backward

/// Whether a backward scan from offset `f` has passed a `'\n'` before it
/// tests the place between offsets `q` and `q + 1`.
pub open spec fn crossed_backward(buf: TextBuffer, f: int, q: int) -> bool {
    exists|j: int| q + 1 < j < f && #[trigger] buf.text()[j] == '\n'
}

/// Whether a backward scan from `f` stops before the character at `q`: that
/// character is a `'\n'` and the scan keeps to one line, or the test holds
/// between it and the character after it.
pub open spec fn stops_backward(buf: TextBuffer, b: Boundary, single_line: bool, f: int, q: int) -> bool {
    ||| (single_line && buf.text()[q] == '\n')
    ||| (q + 1 < f && boundary_test(buf, b, buf.text()[q], buf.text()[q + 1], crossed_backward(buf, f, q)))
}

pub open spec fn first_stop_backward(buf: TextBuffer, b: Boundary, single_line: bool, f: int, q: int) -> bool {
    &&& 0 <= q < f
    &&& stops_backward(buf, b, single_line, f, q)
    &&& forall|k: int| q < k < f ==> !#[trigger] stops_backward(buf, b, single_line, f, k)
}

/// The offset at which a backward scan from `f` stops: just after the last
/// character before `f` at which it stops, or the start of the text.
pub open spec fn scan_backward(buf: TextBuffer, b: Boundary, single_line: bool, f: int) -> int {
    if exists|q: int| first_stop_backward(buf, b, single_line, f, q) {
        (choose|q: int| first_stop_backward(buf, b, single_line, f, q)) + 1
    } else {
        0
    }
}

pub proof fn lemma_scan_backward(buf: TextBuffer, b: Boundary, single_line: bool, f: int, r: int)
    requires
        0 <= r <= f <= buf.len(),
        r > 0 ==> stops_backward(buf, b, single_line, f, r - 1),
        forall|k: int| r <= k < f ==> !#[trigger] stops_backward(buf, b, single_line, f, k),
    ensures
        scan_backward(buf, b, single_line, f) == r,
{
    if r > 0 {
        assert(first_stop_backward(buf, b, single_line, f, r - 1));
        let c = choose|c: int| first_stop_backward(buf, b, single_line, f, c);
        if c < r - 1 {
            assert(!stops_backward(buf, b, single_line, f, r - 1));
        } else if r - 1 < c {
            assert(!stops_backward(buf, b, single_line, f, c));
        }
    } else {
        if exists|c: int| first_stop_backward(buf, b, single_line, f, c) {
            let c = choose|c: int| first_stop_backward(buf, b, single_line, f, c);
            assert(!stops_backward(buf, b, single_line, f, c));
        }
    }
}

pub proof fn lemma_scan_backward_bounds(buf: TextBuffer, b: Boundary, single_line: bool, f: int)
    requires
        0 <= f <= buf.len(),
    ensures
        0 <= scan_backward(buf, b, single_line, f) <= f,
{
    if exists|q: int| first_stop_backward(buf, b, single_line, f, q) {
        let q = choose|q: int| first_stop_backward(buf, b, single_line, f, q);
    }
}

/// Scans backward from offset `f` for the last place before it where the scan stops.
pub fn scan_backward_exec(buf: &TextBuffer, b: Boundary, range: FindRange, f: usize) -> (r: usize)
    requires
        f <= buf.len(),
    ensures
        r == scan_backward(*buf, b, range == FindRange::SingleLine, f as int),
        r <= f,
        r > 0 ==> stops_backward(*buf, b, range == FindRange::SingleLine, f as int, r - 1),
{
    let single_line = range == FindRange::SingleLine;
    let mut r = f;
    let mut crossed = false;
    while r > 0
        invariant
            r <= f <= buf.len(),
            single_line == (range == FindRange::SingleLine),
            r < f ==> crossed == crossed_backward(*buf, f as int, r - 1),
            forall|k: int| r <= k < f ==> !#[trigger] stops_backward(*buf, b, single_line, f as int, k),
        decreases r,
    {
        let q = r - 1;
        let ch = buf.char_at_exec(q).unwrap();
        if single_line && ch == '\n' {
            proof {
                lemma_scan_backward(*buf, b, single_line, f as int, r as int);
            }
            return r;
        }
        if r < f {
            let right = buf.char_at_exec(r).unwrap();
            if boundary_test_exec(buf, b, ch, right, crossed) {
                proof {
                    lemma_scan_backward(*buf, b, single_line, f as int, r as int);
                }
                return r;
            }
            proof {
                if right == '\n' {
                    assert(buf.text()[r as int] == '\n');
                    if q > 0 {
                        assert(crossed_backward(*buf, f as int, q - 1));
                    }
                } else if q > 0 {
                    if crossed_backward(*buf, f as int, q - 1) {
                        let j = choose|j: int| q < j < f && #[trigger] buf.text()[j] == '\n';
                        assert(j > r);
                    }
                }
            }
            if right == '\n' {
                crossed = true;
            }
        } else {
            proof {
                if q > 0 && crossed_backward(*buf, f as int, q - 1) {
                    let j = choose|j: int| q < j < f && #[trigger] buf.text()[j] == '\n';
                }
            }
            crossed = false;
        }
        r = q;
    }
    proof {
        lemma_scan_backward(*buf, b, single_line, f as int, r as int);
    }
    r
}


// ---------------------------------------------------------------------------
// Points reached by a scan

/// The point at which a forward scan from `from` ends: the place where it
/// stops or, when `before` is asked for and the scan stopped on the test,
/// the place just before it; clipped.
pub open spec fn boundary_point(
    buf: TextBuffer,
    from: DisplayPoint,
    range: FindRange,
    b: Boundary,
    before: bool,
) -> DisplayPoint {
    let single_line = range == FindRange::SingleLine;
    let q = scan_forward(buf, b, single_line, buf.offset_of(from));
    if before && q < buf.len() && !(single_line && buf.text()[q] == '\n') {
        buf.clip(buf.point_of(q - 1))
    } else {
        buf.clip(buf.point_of(q))
    }
}

fn find_boundary_point(
    buf: &TextBuffer,
    from: DisplayPoint,
    range: FindRange,
    b: Boundary,
    before: bool,
) -> (p: DisplayPoint)
    requires
        buf.valid_point(from),
    ensures
        p == boundary_point(*buf, from, range, b, before),
        buf.valid_point(p),
{
    proof {
        use_type_invariant(buf);
    }
    let f = buf.to_offset(from);
    let q = scan_forward_exec(buf, b, range, f);
    let len = buf.len_chars();
    if before && q < len && !(range == FindRange::SingleLine && buf.char_at_exec(q).unwrap()
        == '\n') {
        // a stop on the test lies after the start of the scan
        let p = buf.to_point(q - 1);
        buf.clip_exec(p)
    } else {
        let p = buf.to_point(q);
        buf.clip_exec(p)
    }
}

/// The point where the scan from `from` stops.
pub fn find_boundary(buf: &TextBuffer, from: DisplayPoint, range: FindRange, b: Boundary) -> (p:
    DisplayPoint)
    requires
        buf.valid_point(from),
    ensures
        p == boundary_point(*buf, from, range, b, false),
        buf.valid_point(p),
{
    find_boundary_point(buf, from, range, b, false)
}

/// The point just before the place where the scan from `from` stops on the test.
pub fn find_boundary_exclusive(
    buf: &TextBuffer,
    from: DisplayPoint,
    range: FindRange,
    b: Boundary,
) -> (p: DisplayPoint)
    requires
        buf.valid_point(from),
    ensures
        p == boundary_point(*buf, from, range, b, true),
        buf.valid_point(p),
{
    find_boundary_point(buf, from, range, b, true)
}

/// The point where a backward scan from `from` stops, not clipped.
pub open spec fn preceding_boundary_point(
    buf: TextBuffer,
    from: DisplayPoint,
    range: FindRange,
    b: Boundary,
) -> DisplayPoint {
    buf.point_of(scan_backward(buf, b, range == FindRange::SingleLine, buf.offset_of(from)))
}

pub fn find_preceding_boundary_point(
    buf: &TextBuffer,
    from: DisplayPoint,
    range: FindRange,
    b: Boundary,
) -> (p: DisplayPoint)
    requires
        buf.valid_point(from),
    ensures
        p == preceding_boundary_point(*buf, from, range, b),
        buf.valid_point(p),
        buf.offset_of(p) <= buf.offset_of(from),
{
    proof {
        use_type_invariant(buf);
    }
    let f = buf.to_offset(from);
    let r = scan_backward_exec(buf, b, range, f);
    buf.to_point(r)
}

/// The point where a backward scan from `from` stops, clipped.
pub fn find_preceding_boundary_display_point(
    buf: &TextBuffer,
    from: DisplayPoint,
    range: FindRange,
    b: Boundary,
) -> (p: DisplayPoint)
    requires
        buf.valid_point(from),
    ensures
        p == buf.clip(preceding_boundary_point(*buf, from, range, b)),
        buf.valid_point(p),
{
    let p = find_preceding_boundary_point(buf, from, range, b);
    buf.clip_exec(p)
}

// ---------------------------------------------------------------------------
// One character at a time

/// One character to the left, to the end of the previous line from the
/// start of a line; clipped.
pub open spec fn left_of(buf: TextBuffer, p: DisplayPoint) -> DisplayPoint {
    buf.clip(
        if p.column > 0 {
            DisplayPoint { row: p.row, column: (p.column - 1) as u32 }
        } else if p.row > 0 {
            DisplayPoint { row: (p.row - 1) as u32, column: buf.line_len(p.row - 1) as u32 }
        } else {
            p
        },
    )
}

/// One character to the left, staying on the line; clipped.
pub open spec fn saturating_left_of(buf: TextBuffer, p: DisplayPoint) -> DisplayPoint {
    buf.clip(
        if p.column > 0 {
            DisplayPoint { row: p.row, column: (p.column - 1) as u32 }
        } else {
            p
        },
    )
}

/// One character to the right, to the start of the next line from the end
/// of a line; clipped.
pub open spec fn right_of(buf: TextBuffer, p: DisplayPoint) -> DisplayPoint {
    buf.clip(
        if p.column < buf.line_len(p.row as int) {
            DisplayPoint { row: p.row, column: (p.column + 1) as u32 }
        } else if p.row < buf.max_row() {
            DisplayPoint { row: (p.row + 1) as u32, column: 0 }
        } else {
            p
        },
    )
}

/// One character to the right, staying on the line; clipped.
pub open spec fn saturating_right_of(buf: TextBuffer, p: DisplayPoint) -> DisplayPoint {
    buf.clip(DisplayPoint { row: p.row, column: (p.column + 1) as u32 })
}

pub fn left(buf: &TextBuffer, p: DisplayPoint) -> (q: DisplayPoint)
    requires
        buf.valid_point(p),
    ensures
        q == left_of(*buf, p),
        buf.valid_point(q),
{
    proof {
        use_type_invariant(buf);
    }
    let mut p = p;
    if p.column > 0 {
        p.column = p.column - 1;
    } else if p.row > 0 {
        p.row = p.row - 1;
        p.column = buf.line_len_exec(p.row);
    }
    buf.clip_exec(p)
}

pub fn saturating_left(buf: &TextBuffer, p: DisplayPoint) -> (q: DisplayPoint)
    requires
        buf.valid_point(p),
    ensures
        q == saturating_left_of(*buf, p),
        buf.valid_point(q),
{
    let mut p = p;
    if p.column > 0 {
        p.column = p.column - 1;
    }
    buf.clip_exec(p)
}

pub fn right(buf: &TextBuffer, p: DisplayPoint) -> (q: DisplayPoint)
    requires
        buf.valid_point(p),
    ensures
        q == right_of(*buf, p),
        buf.valid_point(q),
{
    proof {
        use_type_invariant(buf);
    }
    let mut p = p;
    if p.column < buf.line_len_exec(p.row) {
        p.column = p.column + 1;
    } else if p.row < buf.max_row_exec() {
        p.row = p.row + 1;
        p.column = 0;
    }
    buf.clip_exec(p)
}

pub fn saturating_right(buf: &TextBuffer, p: DisplayPoint) -> (q: DisplayPoint)
    requires
        buf.valid_point(p),
    ensures
        q == saturating_right_of(*buf, p),
        buf.valid_point(q),
{
    proof {
        use_type_invariant(buf);
        buf.lemma_line_bounds(p.row as int);
    }
    buf.clip_exec(DisplayPoint { row: p.row, column: p.column + 1 })
}


// ---------------------------------------------------------------------------
// Paragraphs

/// A line made of whitespace only.
pub open spec fn line_blank(buf: TextBuffer, r: int) -> bool {
    forall|k: int|
        buf.line_start(r) <= k < buf.line_end(r) ==> is_whitespace_char(#[trigger] buf.text()[k])
}

pub fn is_line_blank(buf: &TextBuffer, row: u32) -> (b: bool)
    requires
        row < buf.line_count(),
    ensures
        b == line_blank(*buf, row as int),
{
    proof {
        use_type_invariant(buf);
        buf.lemma_line_bounds(row as int);
    }
    let start = buf.to_offset(DisplayPoint { row, column: 0 });
    let end = start + buf.line_len_exec(row) as usize;
    let mut k = start;
    while k < end
        invariant
            start == buf.line_start(row as int),
            end == buf.line_end(row as int),
            end <= buf.len(),
            start <= k <= end,
            forall|j: int| start <= j < k ==> is_whitespace_char(#[trigger] buf.text()[j]),
        decreases end - k,
    {
        if !is_whitespace(buf.char_at_exec(k).unwrap()) {
            return false;
        }
        k = k + 1;
    }
    true
}

/// Walking up from row `row`: the `count`-th blank line that follows (going
/// up) a line that is not blank; `found` says whether such a line was passed
/// since the last blank line that was counted.
pub open spec fn paragraph_start_from(buf: TextBuffer, row: int, found: bool, count: int) -> DisplayPoint
    decreases row + 1,
{
    if row < 0 {
        DisplayPoint { row: 0, column: 0 }
    } else {
        let blank = line_blank(buf, row);
        if found && blank {
            if count <= 1 {
                DisplayPoint { row: row as u32, column: 0 }
            } else {
                paragraph_start_from(buf, row - 1, false, count - 1)
            }
        } else {
            paragraph_start_from(buf, row - 1, found || !blank, count)
        }
    }
}

/// `{`: the start of the paragraph `count` paragraphs up.
pub open spec fn start_of_paragraph_of(buf: TextBuffer, p: DisplayPoint, count: int) -> DisplayPoint {
    if p.row == 0 {
        DisplayPoint { row: 0, column: 0 }
    } else {
        paragraph_start_from(buf, p.row as int, false, count)
    }
}

/// Walking down from row `row`, as `paragraph_start_from` walks up.
pub open spec fn paragraph_end_from(buf: TextBuffer, row: int, found: bool, count: int) -> DisplayPoint
    decreases buf.line_count() - row,
{
    if row >= buf.line_count() || row < 0 {
        buf.max_point()
    } else {
        let blank = line_blank(buf, row);
        if found && blank {
            if count <= 1 {
                DisplayPoint { row: row as u32, column: 0 }
            } else {
                paragraph_end_from(buf, row + 1, false, count - 1)
            }
        } else {
            paragraph_end_from(buf, row + 1, found || !blank, count)
        }
    }
}

/// `}`: the end of the paragraph `count` paragraphs down.
pub open spec fn end_of_paragraph_of(buf: TextBuffer, p: DisplayPoint, count: int) -> DisplayPoint {
    if p.row == buf.max_row() {
        buf.max_point()
    } else {
        paragraph_end_from(buf, p.row as int, false, count)
    }
}

pub fn start_of_paragraph(buf: &TextBuffer, p: DisplayPoint, count: usize) -> (q: DisplayPoint)
    requires
        buf.valid_point(p),
    ensures
        q == start_of_paragraph_of(*buf, p, count as int),
        buf.valid_point(q),
{
    proof {
        use_type_invariant(buf);
    }
    if p.row == 0 {
        return DisplayPoint::zero();
    }
    let mut remaining = count;
    let mut found = false;
    let mut row: u32 = p.row;
    loop
        invariant
            buf.wf(),
            row < buf.line_count(),
            start_of_paragraph_of(*buf, p, count as int) == paragraph_start_from(
                *buf,
                row as int,
                found,
                remaining as int,
            ),
            p.row != 0,
        decreases row,
    {
        let blank = is_line_blank(buf, row);
        let ghost before = paragraph_start_from(*buf, row as int, found, remaining as int);
        if found && blank {
            if remaining <= 1 {
                proof {
                    buf.lemma_line_bounds(row as int);
                }
                return DisplayPoint { row, column: 0 };
            }
            remaining = remaining - 1;
            found = false;
        } else {
            found = found || !blank;
        }
        assert(before == paragraph_start_from(*buf, row - 1, found, remaining as int));
        if row == 0 {
            proof {
                buf.lemma_line_bounds(0);
            }
            return DisplayPoint::zero();
        }
        row = row - 1;
    }
}

pub fn end_of_paragraph(buf: &TextBuffer, p: DisplayPoint, count: usize) -> (q: DisplayPoint)
    requires
        buf.valid_point(p),
    ensures
        q == end_of_paragraph_of(*buf, p, count as int),
        buf.valid_point(q),
{
    proof {
        use_type_invariant(buf);
    }
    let max_row = buf.max_row_exec();
    if p.row == max_row {
        return buf.max_point_exec();
    }
    let mut remaining = count;
    let mut found = false;
    let mut row: u32 = p.row;
    while row <= max_row
        invariant
            buf.wf(),
            max_row == buf.max_row(),
            row <= max_row + 1,
            end_of_paragraph_of(*buf, p, count as int) == paragraph_end_from(
                *buf,
                row as int,
                found,
                remaining as int,
            ),
            p.row != max_row,
        decreases max_row + 1 - row,
    {
        let blank = is_line_blank(buf, row);
        if found && blank {
            if remaining <= 1 {
                proof {
                    buf.lemma_line_bounds(row as int);
                }
                return DisplayPoint { row, column: 0 };
            }
            remaining = remaining - 1;
            found = false;
        } else {
            found = found || !blank;
        }
        row = row + 1;
    }
    buf.max_point_exec()
}

// ---------------------------------------------------------------------------
// Up and down by display rows

/// The column the cursor aims for when it moves between rows, kept in
/// character cells.
#[derive(Clone, Copy, Debug, PartialEq, Eq, Structural)]
pub enum SelectionGoal {
    NoGoal,
    HorizontalPosition(u32),
    HorizontalRange { start: u32, end: u32 },
    WrappedHorizontalPosition(u32, u32),
}

/// The horizontal position a vertical move aims for.
pub open spec fn goal_x(goal: SelectionGoal, start: DisplayPoint) -> u32 {
    match goal {
        SelectionGoal::HorizontalPosition(x) => x,
        SelectionGoal::WrappedHorizontalPosition(_, x) => x,
        SelectionGoal::HorizontalRange { end, .. } => end,
        SelectionGoal::NoGoal => start.column,
    }
}

pub fn goal_x_exec(goal: SelectionGoal, start: DisplayPoint) -> (x: u32)
    ensures
        x == goal_x(goal, start),
{
    match goal {
        SelectionGoal::HorizontalPosition(x) => x,
        SelectionGoal::WrappedHorizontalPosition(_, x) => x,
        SelectionGoal::HorizontalRange { end, .. } => end,
        SelectionGoal::NoGoal => start.column,
    }
}

/// The column on row `row` closest to the horizontal position `x`.
pub open spec fn column_for_x(buf: TextBuffer, row: int, x: u32) -> u32 {
    if x <= buf.line_len(row) {
        x
    } else {
        buf.line_len(row) as u32
    }
}

pub fn column_for_x_exec(buf: &TextBuffer, row: u32, x: u32) -> (c: u32)
    requires
        row < buf.line_count(),
    ensures
        c == column_for_x(*buf, row as int, x),
{
    let len = buf.line_len_exec(row);
    if x <= len {
        x
    } else {
        len
    }
}

/// One display row down, aiming for the goal column; on the last row the
/// point and goal stay.
pub open spec fn down_of(buf: TextBuffer, start: DisplayPoint, goal: SelectionGoal) -> (
    DisplayPoint,
    SelectionGoal,
) {
    let x = goal_x(goal, start);
    let point = buf.clip(DisplayPoint { row: (start.row + 1) as u32, column: 0 });
    if point.row > start.row {
        (
            buf.clip(DisplayPoint { row: point.row, column: column_for_x(buf, point.row as int, x) }),
            SelectionGoal::HorizontalPosition(x),
        )
    } else {
        (start, goal)
    }
}

/// One display row up, aiming for the goal column; on the first row the
/// point and goal stay.
pub open spec fn up_of(buf: TextBuffer, start: DisplayPoint, goal: SelectionGoal) -> (
    DisplayPoint,
    SelectionGoal,
) {
    let x = goal_x(goal, start);
    let prev_row: int = if start.row > 0 {
        start.row - 1
    } else {
        0
    };
    let point = buf.clip(DisplayPoint { row: prev_row as u32, column: buf.line_len(prev_row) as u32 });
    if point.row < start.row {
        (
            buf.clip(DisplayPoint { row: point.row, column: column_for_x(buf, point.row as int, x) }),
            SelectionGoal::HorizontalPosition(x),
        )
    } else {
        (start, goal)
    }
}

pub fn down(buf: &TextBuffer, start: DisplayPoint, goal: SelectionGoal) -> (r: (
    DisplayPoint,
    SelectionGoal,
))
    requires
        buf.valid_point(start),
    ensures
        r == down_of(*buf, start, goal),
        buf.valid_point(r.0),
{
    proof {
        use_type_invariant(buf);
    }
    let x = goal_x_exec(goal, start);
    let point = buf.clip_exec(DisplayPoint { row: start.row + 1, column: 0 });
    if point.row > start.row {
        let col = column_for_x_exec(buf, point.row, x);
        (buf.clip_exec(DisplayPoint { row: point.row, column: col }), SelectionGoal::HorizontalPosition(x))
    } else {
        (start, goal)
    }
}

pub fn up(buf: &TextBuffer, start: DisplayPoint, goal: SelectionGoal) -> (r: (
    DisplayPoint,
    SelectionGoal,
))
    requires
        buf.valid_point(start),
    ensures
        r == up_of(*buf, start, goal),
        buf.valid_point(r.0),
{
    let x = goal_x_exec(goal, start);
    let prev_row = if start.row > 0 {
        start.row - 1
    } else {
        0
    };
    let len = buf.line_len_exec(prev_row);
    let point = buf.clip_exec(DisplayPoint { row: prev_row, column: len });
    if point.row < start.row {
        let col = column_for_x_exec(buf, point.row, x);
        (buf.clip_exec(DisplayPoint { row: point.row, column: col }), SelectionGoal::HorizontalPosition(x))
    } else {
        (start, goal)
    }
}


/// Taking `step` up to `n` times from `p`, stopping early at the first step
/// that leaves the point where it is.
pub open spec fn repeat_until_stuck(step: spec_fn(DisplayPoint) -> DisplayPoint, p: DisplayPoint, n: nat) -> DisplayPoint
    decreases n,
{
    if n == 0 {
        p
    } else {
        let q = step(p);
        if q == p {
            p
        } else {
            repeat_until_stuck(step, q, (n - 1) as nat)
        }
    }
}

proof fn lemma_paragraph_start_from(buf: TextBuffer, row: int, found: bool, count: int)
    requires
        buf.wf(),
        row < buf.line_count(),
    ensures
        ({
            let q = paragraph_start_from(buf, row, found, count);
            ||| q == DisplayPoint { row: 0, column: 0 }
            ||| {
                &&& q.column == 0
                &&& q.row <= row
                &&& !found ==> q.row < row
                &&& line_blank(buf, q.row as int)
            }
        }),
    decreases row + 1,
{
    if row >= 0 {
        let blank = line_blank(buf, row);
        if found && blank {
            if count > 1 {
                lemma_paragraph_start_from(buf, row - 1, false, count - 1);
            }
        } else {
            lemma_paragraph_start_from(buf, row - 1, found || !blank, count);
        }
    }
}

proof fn lemma_paragraph_end_from(buf: TextBuffer, row: int, found: bool, count: int)
    requires
        buf.wf(),
        row >= 0,
    ensures
        ({
            let q = paragraph_end_from(buf, row, found, count);
            ||| q == buf.max_point()
            ||| {
                &&& q.column == 0
                &&& row <= q.row < buf.line_count()
                &&& !found ==> q.row > row
                &&& line_blank(buf, q.row as int)
            }
        }),
    decreases buf.line_count() - row,
{
    if row < buf.line_count() {
        let blank = line_blank(buf, row);
        if found && blank {
            if count > 1 {
                lemma_paragraph_end_from(buf, row + 1, false, count - 1);
            }
        } else {
            lemma_paragraph_end_from(buf, row + 1, found || !blank, count);
        }
    }
}

/// `{` goes up to a blank line above the cursor, or to the start of the
/// text; `}` goes down to a blank line below the cursor, or to the end of
/// the text.
pub proof fn law_paragraph_motions_land_on_blank_lines(buf: TextBuffer, p: DisplayPoint, count: int)
    requires
        buf.wf(),
        buf.valid_point(p),
    ensures
        ({
            let q = start_of_paragraph_of(buf, p, count);
            ||| q == DisplayPoint { row: 0, column: 0 }
            ||| q.column == 0 && q.row < p.row && line_blank(buf, q.row as int)
        }),
        ({
            let q = end_of_paragraph_of(buf, p, count);
            ||| q == buf.max_point()
            ||| q.column == 0 && q.row > p.row && line_blank(buf, q.row as int)
        }),
{
    if p.row != 0 {
        lemma_paragraph_start_from(buf, p.row as int, false, count);
    }
    if p.row != buf.max_row() {
        lemma_paragraph_end_from(buf, p.row as int, false, count);
    }
}

} // verus!
