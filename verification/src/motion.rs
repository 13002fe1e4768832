//! The motions of Vim: what kind each is, where each moves the cursor,
//! and what text an operator combined with one acts on.
//!
//! How motions behave is described in Vim's documentation, `motion.txt`.

use vstd::prelude::*;

use crate::basic::{
    law_end_of_document_row, backspace, backspace_n, down_display, down_display_n, end_of_document, end_of_document_of,
    end_of_line, end_of_line_of, go_to_column, go_to_column_of, left, left_n, next_line_end,
    next_line_end_of, right, right_n, space, space_n, start_of_document, start_of_document_of,
    start_of_line, up_display, up_display_n, up_down_buffer_rows, up_down_rows_of,
};
use crate::brackets::{
    matching, matching_of, unmatched_backward, unmatched_backward_of, unmatched_forward,
    unmatched_forward_of,
};
use crate::buffer::{DisplayPoint, TextBuffer};
use crate::find::{find_backward, find_backward_of, find_forward, find_forward_of};
use crate::lines::{
    first_non_whitespace, first_non_whitespace_of, last_non_whitespace, last_non_whitespace_of,
    next_line_start, next_line_start_of, previous_line_start, previous_line_start_of,
    sentence_backwards, sentence_backwards_of, sentence_forwards, sentence_forwards_of,
};
use crate::movement::{
    end_of_paragraph, end_of_paragraph_of, saturating_right, saturating_right_of,
    start_of_paragraph, start_of_paragraph_of, FindRange, SelectionGoal,
};
use crate::window::{
    layout_fits, window_bottom, window_bottom_of, window_middle, window_middle_of, window_top,
    window_top_of, TextLayoutDetails,
};
use crate::words::{
    next_subword_end, next_subword_end_of, next_subword_start, next_subword_start_of,
    next_word_end, next_word_end_of, next_word_start, next_word_start_of, previous_subword_end,
    previous_subword_end_of, previous_subword_start, previous_subword_start_of,
    previous_word_end, previous_word_end_of, previous_word_start, previous_word_start_of,
};

verus! {

/// A span of text between two points.
#[derive(Clone, Copy, Debug, PartialEq, Eq, Structural)]
pub struct PointRange {
    pub start: DisplayPoint,
    pub end: DisplayPoint,
}

/// A selection: the text from `start` to `end`, with the cursor (the
/// head) at `end`, or at `start` when it is reversed.
#[derive(Clone, Copy, Debug, PartialEq, Eq, Structural)]
pub struct Selection {
    pub id: usize,
    pub start: DisplayPoint,
    pub end: DisplayPoint,
    pub reversed: bool,
    pub goal: SelectionGoal,
}

impl Selection {
    pub open spec fn head_of(self) -> DisplayPoint {
        if self.reversed {
            self.start
        } else {
            self.end
        }
    }

    pub open spec fn tail_of(self) -> DisplayPoint {
        if self.reversed {
            self.end
        } else {
            self.start
        }
    }

    pub fn head(&self) -> (p: DisplayPoint)
        ensures
            p == self.head_of(),
    {
        if self.reversed {
            self.start
        } else {
            self.end
        }
    }

    /// The selection with its head moved to `head`; the tail stays, and the
    /// selection turns round when the head passes it.
    pub open spec fn with_head(self, head: DisplayPoint, goal: SelectionGoal) -> Selection {
        if head.precedes(self.tail_of()) {
            Selection {
                id: self.id,
                start: head,
                end: if self.reversed {
                    self.end
                } else {
                    self.start
                },
                reversed: true,
                goal,
            }
        } else {
            Selection {
                id: self.id,
                start: if self.reversed {
                    self.end
                } else {
                    self.start
                },
                end: head,
                reversed: false,
                goal,
            }
        }
    }

    pub fn set_head(&mut self, head: DisplayPoint, goal: SelectionGoal)
        ensures
            *final(self) == old(self).with_head(head, goal),
    {
        let tail = if self.reversed {
            self.end
        } else {
            self.start
        };
        if head.is_before(&tail) {
            if !self.reversed {
                self.end = self.start;
                self.reversed = true;
            }
            self.start = head;
        } else {
            if self.reversed {
                self.start = self.end;
                self.reversed = false;
            }
            self.end = head;
        }
        self.goal = goal;
    }
}

/// A motion of the cursor.
#[derive(Debug)]
pub enum Motion {
    Left,
    Backspace,
    Down { display_lines: bool },
    Up { display_lines: bool },
    Right,
    Space,
    NextWordStart { ignore_punctuation: bool },
    NextWordEnd { ignore_punctuation: bool },
    PreviousWordStart { ignore_punctuation: bool },
    PreviousWordEnd { ignore_punctuation: bool },
    NextSubwordStart { ignore_punctuation: bool },
    NextSubwordEnd { ignore_punctuation: bool },
    PreviousSubwordStart { ignore_punctuation: bool },
    PreviousSubwordEnd { ignore_punctuation: bool },
    FirstNonWhitespace { display_lines: bool },
    CurrentLine,
    StartOfLine { display_lines: bool },
    EndOfLine { display_lines: bool },
    SentenceBackward,
    SentenceForward,
    StartOfParagraph,
    EndOfParagraph,
    StartOfDocument,
    EndOfDocument,
    Matching,
    UnmatchedForward { char: char },
    UnmatchedBackward { char: char },
    FindForward { before: bool, char: char, mode: FindRange, smartcase: bool },
    FindBackward { after: bool, char: char, mode: FindRange, smartcase: bool },
    RepeatFind { last_find: Box<Motion> },
    RepeatFindReversed { last_find: Box<Motion> },
    NextLineStart,
    PreviousLineStart,
    StartOfLineDownward,
    EndOfLineDownward,
    GoToColumn,
    WindowTop,
    WindowMiddle,
    WindowBottom,
    /// The result of a search, run elsewhere: the selections before it and
    /// the selections it made.
    ZedSearchResult { prior_selections: Vec<PointRange>, new_selections: Vec<PointRange> },
    /// A jump to a mark, to its line when `line`.
    Jump { anchor: DisplayPoint, line: bool },
}

fn copy_ranges(v: &Vec<PointRange>) -> (r: Vec<PointRange>)
    ensures
        r@ == v@,
{
    let mut r: Vec<PointRange> = Vec::new();
    let mut i: usize = 0;
    while i < v.len()
        invariant
            i <= v.len(),
            r@ == v@.subrange(0, i as int),
        decreases v.len() - i,
    {
        r.push(v[i]);
        i = i + 1;
    }
    r
}

/// Whether `b` is a copy of `a`: the same motion, with search results
/// holding the same selections.
pub open spec fn is_copy_of(a: Motion, b: Motion) -> bool
    decreases a,
{
    match a {
        Motion::ZedSearchResult { prior_selections, new_selections } => b matches Motion::ZedSearchResult {
            prior_selections: p2,
            new_selections: n2,
        } && p2@ == prior_selections@ && n2@ == new_selections@,
        Motion::RepeatFind { last_find } => b matches Motion::RepeatFind { last_find: l2 }
            && is_copy_of(*last_find, *l2),
        Motion::RepeatFindReversed { last_find } => b matches Motion::RepeatFindReversed {
            last_find: l2,
        } && is_copy_of(*last_find, *l2),
        _ => b == a,
    }
}

impl Clone for Motion {
    fn clone(&self) -> (r: Self)
        ensures
            is_copy_of(*self, r),
        decreases self,
    {
        match self {
            Motion::Left => Motion::Left,
            Motion::Backspace => Motion::Backspace,
            Motion::Down { display_lines } => Motion::Down { display_lines: *display_lines },
            Motion::Up { display_lines } => Motion::Up { display_lines: *display_lines },
            Motion::Right => Motion::Right,
            Motion::Space => Motion::Space,
            Motion::NextWordStart { ignore_punctuation } => Motion::NextWordStart {
                ignore_punctuation: *ignore_punctuation,
            },
            Motion::NextWordEnd { ignore_punctuation } => Motion::NextWordEnd {
                ignore_punctuation: *ignore_punctuation,
            },
            Motion::PreviousWordStart { ignore_punctuation } => Motion::PreviousWordStart {
                ignore_punctuation: *ignore_punctuation,
            },
            Motion::PreviousWordEnd { ignore_punctuation } => Motion::PreviousWordEnd {
                ignore_punctuation: *ignore_punctuation,
            },
            Motion::NextSubwordStart { ignore_punctuation } => Motion::NextSubwordStart {
                ignore_punctuation: *ignore_punctuation,
            },
            Motion::NextSubwordEnd { ignore_punctuation } => Motion::NextSubwordEnd {
                ignore_punctuation: *ignore_punctuation,
            },
            Motion::PreviousSubwordStart { ignore_punctuation } => Motion::PreviousSubwordStart {
                ignore_punctuation: *ignore_punctuation,
            },
            Motion::PreviousSubwordEnd { ignore_punctuation } => Motion::PreviousSubwordEnd {
                ignore_punctuation: *ignore_punctuation,
            },
            Motion::FirstNonWhitespace { display_lines } => Motion::FirstNonWhitespace {
                display_lines: *display_lines,
            },
            Motion::CurrentLine => Motion::CurrentLine,
            Motion::StartOfLine { display_lines } => Motion::StartOfLine { display_lines: *display_lines },
            Motion::EndOfLine { display_lines } => Motion::EndOfLine { display_lines: *display_lines },
            Motion::SentenceBackward => Motion::SentenceBackward,
            Motion::SentenceForward => Motion::SentenceForward,
            Motion::StartOfParagraph => Motion::StartOfParagraph,
            Motion::EndOfParagraph => Motion::EndOfParagraph,
            Motion::StartOfDocument => Motion::StartOfDocument,
            Motion::EndOfDocument => Motion::EndOfDocument,
            Motion::Matching => Motion::Matching,
            Motion::UnmatchedForward { char } => Motion::UnmatchedForward { char: *char },
            Motion::UnmatchedBackward { char } => Motion::UnmatchedBackward { char: *char },
            Motion::FindForward { before, char, mode, smartcase } => Motion::FindForward {
                before: *before,
                char: *char,
                mode: *mode,
                smartcase: *smartcase,
            },
            Motion::FindBackward { after, char, mode, smartcase } => Motion::FindBackward {
                after: *after,
                char: *char,
                mode: *mode,
                smartcase: *smartcase,
            },
            Motion::RepeatFind { last_find } => {
                let inner: &Motion = last_find;
                Motion::RepeatFind { last_find: Box::new(inner.clone()) }
            },
            Motion::RepeatFindReversed { last_find } => {
                let inner: &Motion = last_find;
                Motion::RepeatFindReversed { last_find: Box::new(inner.clone()) }
            },
            Motion::NextLineStart => Motion::NextLineStart,
            Motion::PreviousLineStart => Motion::PreviousLineStart,
            Motion::StartOfLineDownward => Motion::StartOfLineDownward,
            Motion::EndOfLineDownward => Motion::EndOfLineDownward,
            Motion::GoToColumn => Motion::GoToColumn,
            Motion::WindowTop => Motion::WindowTop,
            Motion::WindowMiddle => Motion::WindowMiddle,
            Motion::WindowBottom => Motion::WindowBottom,
            Motion::ZedSearchResult { prior_selections, new_selections } => Motion::ZedSearchResult {
                prior_selections: copy_ranges(prior_selections),
                new_selections: copy_ranges(new_selections),
            },
            Motion::Jump { anchor, line } => Motion::Jump { anchor: *anchor, line: *line },
        }
    }
}

impl Motion {
    /// Whether an operator with this motion acts on whole lines.
    ///
    /// `}` is not among them: it is an exclusive motion that ends on the
    /// line after the paragraph, and with an operator (`d}`) that line is
    /// not taken in, as the rule for exclusive motions in `range_of` gives.
    pub open spec fn is_linewise(&self) -> bool {
        match *self {
            Motion::Down { .. } | Motion::Up { .. } | Motion::StartOfDocument
            | Motion::EndOfDocument | Motion::CurrentLine | Motion::NextLineStart
            | Motion::PreviousLineStart | Motion::StartOfLineDownward | Motion::SentenceBackward
            | Motion::SentenceForward | Motion::StartOfParagraph
            | Motion::WindowTop | Motion::WindowMiddle | Motion::WindowBottom => true,
            Motion::Jump { line, .. } => line,
            _ => false,
        }
    }

    /// Whether the motion counts as done even where the cursor does not move.
    pub open spec fn is_infallible(&self) -> bool {
        match *self {
            Motion::StartOfDocument | Motion::EndOfDocument | Motion::CurrentLine => true,
            _ => false,
        }
    }

    /// Whether the text an operator acts on includes the character the
    /// motion ends on; a repeated find is inclusive as the find it repeats.
    pub open spec fn is_inclusive(&self) -> bool
        decreases self,
    {
        match *self {
            Motion::Down { .. } | Motion::Up { .. } | Motion::StartOfDocument
            | Motion::EndOfDocument | Motion::CurrentLine | Motion::EndOfLine { .. }
            | Motion::EndOfLineDownward | Motion::Matching | Motion::UnmatchedForward { .. }
            | Motion::UnmatchedBackward { .. } | Motion::FindForward { .. } | Motion::WindowTop
            | Motion::WindowMiddle | Motion::WindowBottom | Motion::NextWordEnd { .. }
            | Motion::PreviousWordEnd { .. } | Motion::NextSubwordEnd { .. }
            | Motion::PreviousSubwordEnd { .. } | Motion::NextLineStart
            | Motion::PreviousLineStart => true,
            Motion::RepeatFind { last_find } => last_find.is_inclusive(),
            Motion::RepeatFindReversed { last_find } => last_find.is_inclusive(),
            _ => false,
        }
    }

    pub fn linewise(&self) -> (b: bool)
        ensures
            b == self.is_linewise(),
    {
        match self {
            Motion::Down { .. } | Motion::Up { .. } | Motion::StartOfDocument
            | Motion::EndOfDocument | Motion::CurrentLine | Motion::NextLineStart
            | Motion::PreviousLineStart | Motion::StartOfLineDownward | Motion::SentenceBackward
            | Motion::SentenceForward | Motion::StartOfParagraph
            | Motion::WindowTop | Motion::WindowMiddle | Motion::WindowBottom => true,
            Motion::Jump { line, .. } => *line,
            Motion::EndOfParagraph | Motion::EndOfLine { .. } | Motion::Matching | Motion::UnmatchedForward { .. }
            | Motion::UnmatchedBackward { .. } | Motion::FindForward { .. } | Motion::Left
            | Motion::Backspace | Motion::Right | Motion::Space | Motion::StartOfLine { .. }
            | Motion::EndOfLineDownward | Motion::GoToColumn | Motion::NextWordStart { .. }
            | Motion::NextWordEnd { .. } | Motion::PreviousWordStart { .. }
            | Motion::PreviousWordEnd { .. } | Motion::NextSubwordStart { .. }
            | Motion::NextSubwordEnd { .. } | Motion::PreviousSubwordStart { .. }
            | Motion::PreviousSubwordEnd { .. } | Motion::FirstNonWhitespace { .. }
            | Motion::FindBackward { .. } | Motion::RepeatFind { .. }
            | Motion::RepeatFindReversed { .. } | Motion::ZedSearchResult { .. } => false,
        }
    }

    pub fn infallible(&self) -> (b: bool)
        ensures
            b == self.is_infallible(),
    {
        match self {
            Motion::StartOfDocument | Motion::EndOfDocument | Motion::CurrentLine => true,
            Motion::Down { .. } | Motion::Up { .. } | Motion::EndOfLine { .. } | Motion::Matching
            | Motion::UnmatchedForward { .. } | Motion::UnmatchedBackward { .. }
            | Motion::FindForward { .. } | Motion::RepeatFind { .. } | Motion::Left
            | Motion::Backspace | Motion::Right | Motion::Space | Motion::StartOfLine { .. }
            | Motion::StartOfParagraph | Motion::EndOfParagraph | Motion::SentenceBackward
            | Motion::SentenceForward | Motion::StartOfLineDownward | Motion::EndOfLineDownward
            | Motion::GoToColumn | Motion::NextWordStart { .. } | Motion::NextWordEnd { .. }
            | Motion::PreviousWordStart { .. } | Motion::PreviousWordEnd { .. }
            | Motion::NextSubwordStart { .. } | Motion::NextSubwordEnd { .. }
            | Motion::PreviousSubwordStart { .. } | Motion::PreviousSubwordEnd { .. }
            | Motion::FirstNonWhitespace { .. } | Motion::FindBackward { .. }
            | Motion::RepeatFindReversed { .. } | Motion::WindowTop | Motion::WindowMiddle
            | Motion::WindowBottom | Motion::NextLineStart | Motion::PreviousLineStart
            | Motion::ZedSearchResult { .. } | Motion::Jump { .. } => false,
        }
    }

    pub fn inclusive(&self) -> (b: bool)
        ensures
            b == self.is_inclusive(),
        decreases self,
    {
        match self {
            Motion::Down { .. } | Motion::Up { .. } | Motion::StartOfDocument
            | Motion::EndOfDocument | Motion::CurrentLine | Motion::EndOfLine { .. }
            | Motion::EndOfLineDownward | Motion::Matching | Motion::UnmatchedForward { .. }
            | Motion::UnmatchedBackward { .. } | Motion::FindForward { .. } | Motion::WindowTop
            | Motion::WindowMiddle | Motion::WindowBottom | Motion::NextWordEnd { .. }
            | Motion::PreviousWordEnd { .. } | Motion::NextSubwordEnd { .. }
            | Motion::PreviousSubwordEnd { .. } | Motion::NextLineStart
            | Motion::PreviousLineStart => true,
            Motion::Left | Motion::Backspace | Motion::Right | Motion::Space
            | Motion::StartOfLine { .. } | Motion::StartOfLineDownward | Motion::StartOfParagraph
            | Motion::EndOfParagraph | Motion::SentenceBackward | Motion::SentenceForward
            | Motion::GoToColumn | Motion::NextWordStart { .. } | Motion::PreviousWordStart { .. }
            | Motion::NextSubwordStart { .. } | Motion::PreviousSubwordStart { .. }
            | Motion::FirstNonWhitespace { .. } | Motion::FindBackward { .. } | Motion::Jump { .. }
            | Motion::ZedSearchResult { .. } => false,
            Motion::RepeatFind { last_find } => last_find.inclusive(),
            Motion::RepeatFindReversed { last_find } => last_find.inclusive(),
        }
    }
}


/// Where a motion that is not a find, a repeated find or a search result
/// takes the cursor, with the goal column it leaves; `times` is the count.
pub open spec fn plain_move_of(
    m: Motion,
    buf: TextBuffer,
    p: DisplayPoint,
    goal: SelectionGoal,
    times: int,
    maybe_times: Option<usize>,
    layout: TextLayoutDetails,
) -> (DisplayPoint, SelectionGoal) {
    let n = times as nat;
    let none = SelectionGoal::NoGoal;
    match m {
        Motion::Left => (left_n(buf, p, n), none),
        Motion::Backspace => (backspace_n(buf, p, n), none),
        Motion::Down { display_lines } => if display_lines {
            down_display_n(buf, p, goal, n)
        } else {
            up_down_rows_of(buf, p, goal, times)
        },
        Motion::Up { display_lines } => if display_lines {
            up_display_n(buf, p, goal, n)
        } else {
            up_down_rows_of(buf, p, goal, -times)
        },
        Motion::Right => (right_n(buf, p, n), none),
        Motion::Space => (space_n(buf, p, n), none),
        Motion::NextWordStart { ignore_punctuation } => (
            next_word_start_of(buf, p, ignore_punctuation, n),
            none,
        ),
        Motion::NextWordEnd { ignore_punctuation } => (
            next_word_end_of(buf, p, ignore_punctuation, n, true),
            none,
        ),
        Motion::PreviousWordStart { ignore_punctuation } => (
            previous_word_start_of(buf, p, ignore_punctuation, n),
            none,
        ),
        Motion::PreviousWordEnd { ignore_punctuation } => (
            previous_word_end_of(buf, p, ignore_punctuation, n),
            none,
        ),
        Motion::NextSubwordStart { ignore_punctuation } => (
            next_subword_start_of(buf, p, ignore_punctuation, n),
            none,
        ),
        Motion::NextSubwordEnd { ignore_punctuation } => (
            next_subword_end_of(buf, p, ignore_punctuation, n, true),
            none,
        ),
        Motion::PreviousSubwordStart { ignore_punctuation } => (
            previous_subword_start_of(buf, p, ignore_punctuation, n),
            none,
        ),
        Motion::PreviousSubwordEnd { ignore_punctuation } => (
            previous_subword_end_of(buf, p, ignore_punctuation, n),
            none,
        ),
        Motion::FirstNonWhitespace { .. } => (first_non_whitespace_of(buf, p), none),
        Motion::StartOfLine { .. } => (DisplayPoint { row: p.row, column: 0 }, none),
        Motion::EndOfLine { .. } => (end_of_line_of(buf, p, times), none),
        Motion::SentenceBackward => (sentence_backwards_of(buf, p, times), none),
        Motion::SentenceForward => (sentence_forwards_of(buf, p, times), none),
        Motion::StartOfParagraph => (start_of_paragraph_of(buf, p, times), none),
        Motion::EndOfParagraph => (buf.clip_line_end(end_of_paragraph_of(buf, p, times)), none),
        Motion::CurrentLine => (next_line_end_of(buf, p, times), none),
        Motion::StartOfDocument => (start_of_document_of(buf, p, times), none),
        Motion::EndOfDocument => (end_of_document_of(buf, p, maybe_times), none),
        Motion::Matching => (matching_of(buf, p), none),
        Motion::UnmatchedForward { char } => (unmatched_forward_of(buf, p, char, n), none),
        Motion::UnmatchedBackward { char } => (unmatched_backward_of(buf, p, char, n), none),
        Motion::FindBackward { after, char, mode, smartcase } => (
            find_backward_of(buf, p, after, char, n, mode, smartcase),
            none,
        ),
        Motion::NextLineStart => (next_line_start_of(buf, p, times), none),
        Motion::PreviousLineStart => (previous_line_start_of(buf, p, times), none),
        Motion::StartOfLineDownward => (next_line_start_of(buf, p, times - 1), none),
        Motion::EndOfLineDownward => (last_non_whitespace_of(buf, p, times), none),
        Motion::GoToColumn => (go_to_column_of(buf, p, times), none),
        Motion::WindowTop => window_top_of(buf, p, layout, times - 1),
        Motion::WindowMiddle => window_middle_of(buf, p, layout),
        Motion::WindowBottom => window_bottom_of(buf, p, layout, times - 1),
        Motion::Jump { anchor, line } => (
            if line {
                first_non_whitespace_of(buf, anchor)
            } else {
                anchor
            },
            none,
        ),
        _ => (p, none),
    }
}

/// `;` and `,`: the find `last_find` repeated, forward or reversed. A repeat
/// that would stay where the cursor is (a `t` or `T` right before its
/// target) goes one match further.
pub open spec fn repeat_find_of(
    last_find: Motion,
    reversed: bool,
    buf: TextBuffer,
    p: DisplayPoint,
    times: int,
) -> Option<(DisplayPoint, SelectionGoal)> {
    let none = SelectionGoal::NoGoal;
    let forward = |before: bool, char: char, mode: FindRange, smartcase: bool| {
        let first = find_forward_of(buf, p, before, char, times as nat, mode, smartcase);
        let found = if first == Some(p) {
            find_forward_of(buf, p, before, char, (times + 1) as nat, mode, smartcase)
        } else {
            first
        };
        match found {
            Some(q) => Some((q, none)),
            None => None,
        }
    };
    let backward = |after: bool, char: char, mode: FindRange, smartcase: bool| {
        let first = find_backward_of(buf, p, after, char, times as nat, mode, smartcase);
        let q = if first == p {
            find_backward_of(buf, p, after, char, (times + 1) as nat, mode, smartcase)
        } else {
            first
        };
        if q != p {
            Some((q, none))
        } else {
            None
        }
    };
    match last_find {
        Motion::FindForward { before, char, mode, smartcase } => if reversed {
            backward(before, char, mode, smartcase)
        } else {
            forward(before, char, mode, smartcase)
        },
        Motion::FindBackward { after, char, mode, smartcase } => if reversed {
            forward(after, char, mode, smartcase)
        } else {
            backward(after, char, mode, smartcase)
        },
        _ => None,
    }
}

impl Motion {
    /// The inputs on which moving by this motion is defined: a point in the
    /// text; a count that is positive where the motion subtracts one from
    /// it; for the motions that take the count as a signed number of rows, a
    /// count that fits one; for a repeated find, a count that one more still
    /// fits; for the window motions, a layout that fits the text; for a
    /// jump, a mark in the text; for a search result, a first match in the text.
    pub open spec fn move_point_requires(
        &self,
        buf: TextBuffer,
        point: DisplayPoint,
        maybe_times: Option<usize>,
        layout: TextLayoutDetails,
    ) -> bool {
        let times: int = match maybe_times {
            Some(t) => t as int,
            None => 1,
        };
        &&& buf.valid_point(point)
        &&& match *self {
            Motion::Down { display_lines } | Motion::Up { display_lines } => display_lines || times
                <= i64::MAX,
            Motion::EndOfLine { .. } | Motion::CurrentLine | Motion::NextLineStart
            | Motion::PreviousLineStart | Motion::EndOfLineDownward => times <= i64::MAX,
            Motion::StartOfLineDownward => 1 <= times <= i64::MAX,
            Motion::RepeatFind { .. } | Motion::RepeatFindReversed { .. } => times < usize::MAX,
            Motion::StartOfDocument => times >= 1,
            Motion::WindowTop | Motion::WindowBottom => times >= 1 && layout_fits(buf, layout, times - 1),
            Motion::WindowMiddle => layout_fits(buf, layout, 0),
            Motion::EndOfDocument => maybe_times != Some(0usize),
            Motion::Jump { anchor, .. } => buf.valid_point(anchor),
            Motion::ZedSearchResult { new_selections, .. } => new_selections@.len() > 0
                ==> buf.valid_point(new_selections@[0].start),
            _ => true,
        }
    }

    /// Where the motion takes the cursor from `point`, with the new goal;
    /// nothing when it fails: when it does not move the cursor (unless it
    /// counts as done anyway), when a find finds nothing, or when there is
    /// no search result.
    pub open spec fn move_point_of(
        &self,
        buf: TextBuffer,
        point: DisplayPoint,
        goal: SelectionGoal,
        maybe_times: Option<usize>,
        layout: TextLayoutDetails,
    ) -> Option<(DisplayPoint, SelectionGoal)> {
        let times: int = match maybe_times {
            Some(t) => t as int,
            None => 1,
        };
        match *self {
            Motion::FindForward { before, char, mode, smartcase } => match find_forward_of(
                buf,
                point,
                before,
                char,
                times as nat,
                mode,
                smartcase,
            ) {
                Some(q) => Some((q, SelectionGoal::NoGoal)),
                None => None,
            },
            Motion::RepeatFind { last_find } => repeat_find_of(*last_find, false, buf, point, times),
            Motion::RepeatFindReversed { last_find } => repeat_find_of(
                *last_find,
                true,
                buf,
                point,
                times,
            ),
            Motion::ZedSearchResult { new_selections, .. } => if new_selections@.len() > 0 {
                if new_selections@[0].start != point {
                    Some((new_selections@[0].start, SelectionGoal::NoGoal))
                } else {
                    None
                }
            } else {
                None
            },
            _ => {
                let (q, g) = plain_move_of(*self, buf, point, goal, times, maybe_times, layout);
                if q != point || self.is_infallible() {
                    Some((q, g))
                } else {
                    None
                }
            },
        }
    }
}


fn repeat_find(
    last_find: &Motion,
    reversed: bool,
    buf: &TextBuffer,
    point: DisplayPoint,
    times: usize,
) -> (r: Option<(DisplayPoint, SelectionGoal)>)
    requires
        buf.valid_point(point),
        times < usize::MAX,
    ensures
        r == repeat_find_of(*last_find, reversed, *buf, point, times as int),
        r matches Some(q) ==> buf.valid_point(q.0),
{
    let (forward, before, char, mode, smartcase) = match last_find {
        Motion::FindForward { before, char, mode, smartcase } => (
            !reversed,
            *before,
            *char,
            *mode,
            *smartcase,
        ),
        Motion::FindBackward { after, char, mode, smartcase } => (
            reversed,
            *after,
            *char,
            *mode,
            *smartcase,
        ),
        _ => {
            return None;
        },
    };
    if forward {
        let mut new_point = find_forward(buf, point, before, char, times, mode, smartcase);
        if new_point == Some(point) {
            new_point = find_forward(buf, point, before, char, times + 1, mode, smartcase);
        }
        match new_point {
            Some(q) => Some((q, SelectionGoal::NoGoal)),
            None => None,
        }
    } else {
        let mut new_point = find_backward(buf, point, before, char, times, mode, smartcase);
        if new_point == point {
            new_point = find_backward(buf, point, before, char, times + 1, mode, smartcase);
        }
        if new_point != point {
            Some((new_point, SelectionGoal::NoGoal))
        } else {
            None
        }
    }
}

impl Motion {
    /// Every motion but a find forward, a repeated find and a search result.
    pub open spec fn moves_plainly(&self) -> bool {
        match *self {
            Motion::FindForward { .. } | Motion::RepeatFind { .. } | Motion::RepeatFindReversed { .. }
            | Motion::ZedSearchResult { .. } => false,
            _ => true,
        }
    }

    /// Where a motion other than a find forward, a repeated find or a
    /// search result takes the cursor.
    #[verifier::rlimit(100)]
    fn plain_move(
        &self,
        buf: &TextBuffer,
        point: DisplayPoint,
        goal: SelectionGoal,
        maybe_times: Option<usize>,
        text_layout_details: &TextLayoutDetails,
    ) -> (r: (DisplayPoint, SelectionGoal))
        requires
            self.move_point_requires(*buf, point, maybe_times, *text_layout_details),
        ensures
            r == plain_move_of(
                *self,
                *buf,
                point,
                goal,
                match maybe_times {
                    Some(t) => t as int,
                    None => 1,
                },
                maybe_times,
                *text_layout_details,
            ),
            buf.valid_point(r.0) || !self.moves_plainly(),
    {
        let times = match maybe_times {
            Some(t) => t,
            None => 1,
        };
        let none = SelectionGoal::NoGoal;
        match self {
            Motion::Left => (left(buf, point, times), none),
            Motion::Backspace => (backspace(buf, point, times), none),
            Motion::Down { display_lines } => if *display_lines {
                down_display(buf, point, goal, times)
            } else {
                up_down_buffer_rows(buf, point, goal, times as i64)
            },
            Motion::Up { display_lines } => if *display_lines {
                up_display(buf, point, goal, times)
            } else {
                up_down_buffer_rows(buf, point, goal, 0 - times as i64)
            },
            Motion::Right => (right(buf, point, times), none),
            Motion::Space => (space(buf, point, times), none),
            Motion::NextWordStart { ignore_punctuation } => (
                next_word_start(buf, point, *ignore_punctuation, times),
                none,
            ),
            Motion::NextWordEnd { ignore_punctuation } => (
                next_word_end(buf, point, *ignore_punctuation, times, true),
                none,
            ),
            Motion::PreviousWordStart { ignore_punctuation } => (
                previous_word_start(buf, point, *ignore_punctuation, times),
                none,
            ),
            Motion::PreviousWordEnd { ignore_punctuation } => (
                previous_word_end(buf, point, *ignore_punctuation, times),
                none,
            ),
            Motion::NextSubwordStart { ignore_punctuation } => (
                next_subword_start(buf, point, *ignore_punctuation, times),
                none,
            ),
            Motion::NextSubwordEnd { ignore_punctuation } => (
                next_subword_end(buf, point, *ignore_punctuation, times, true),
                none,
            ),
            Motion::PreviousSubwordStart { ignore_punctuation } => (
                previous_subword_start(buf, point, *ignore_punctuation, times),
                none,
            ),
            Motion::PreviousSubwordEnd { ignore_punctuation } => (
                previous_subword_end(buf, point, *ignore_punctuation, times),
                none,
            ),
            Motion::FirstNonWhitespace { display_lines } => (
                first_non_whitespace(buf, *display_lines, point),
                none,
            ),
            Motion::StartOfLine { display_lines } => (
                start_of_line(buf, *display_lines, point),
                none,
            ),
            Motion::EndOfLine { display_lines } => (
                end_of_line(buf, *display_lines, point, times),
                none,
            ),
            Motion::SentenceBackward => (sentence_backwards(buf, point, times), none),
            Motion::SentenceForward => (sentence_forwards(buf, point, times), none),
            Motion::StartOfParagraph => (start_of_paragraph(buf, point, times), none),
            Motion::EndOfParagraph => {
                let q = end_of_paragraph(buf, point, times);
                (buf.clip_line_end_exec(q), none)
            },
            Motion::CurrentLine => (next_line_end(buf, point, times), none),
            Motion::StartOfDocument => (start_of_document(buf, point, times), none),
            Motion::EndOfDocument => (end_of_document(buf, point, maybe_times), none),
            Motion::Matching => (matching(buf, point), none),
            Motion::UnmatchedForward { char } => (
                unmatched_forward(buf, point, *char, times),
                none,
            ),
            Motion::UnmatchedBackward { char } => (
                unmatched_backward(buf, point, *char, times),
                none,
            ),
            Motion::FindBackward { after, char, mode, smartcase } => (
                find_backward(buf, point, *after, *char, times, *mode, *smartcase),
                none,
            ),
            Motion::NextLineStart => (next_line_start(buf, point, times), none),
            Motion::PreviousLineStart => (previous_line_start(buf, point, times), none),
            Motion::StartOfLineDownward => (next_line_start(buf, point, times - 1), none),
            Motion::EndOfLineDownward => (last_non_whitespace(buf, point, times), none),
            Motion::GoToColumn => (go_to_column(buf, point, times), none),
            Motion::WindowTop => window_top(buf, point, text_layout_details, times - 1),
            Motion::WindowMiddle => window_middle(buf, point, text_layout_details),
            Motion::WindowBottom => window_bottom(buf, point, text_layout_details, times - 1),
            Motion::Jump { anchor, line } => {
                let q = if *line {
                    first_non_whitespace(buf, false, *anchor)
                } else {
                    *anchor
                };
                (q, none)
            },
            _ => (point, none),
        }
    }

    /// Moves `point` by this motion, `maybe_times` times (once when no count is given).
    pub fn move_point(
        &self,
        buf: &TextBuffer,
        point: DisplayPoint,
        goal: SelectionGoal,
        maybe_times: Option<usize>,
        text_layout_details: &TextLayoutDetails,
    ) -> (r: Option<(DisplayPoint, SelectionGoal)>)
        requires
            self.move_point_requires(*buf, point, maybe_times, *text_layout_details),
        ensures
            r == self.move_point_of(*buf, point, goal, maybe_times, *text_layout_details),
            r matches Some(q) ==> buf.valid_point(q.0),
    {
        let times = match maybe_times {
            Some(t) => t,
            None => 1,
        };
        match self {
            Motion::FindForward { before, char, mode, smartcase } => {
                return match find_forward(buf, point, *before, *char, times, *mode, *smartcase) {
                    Some(q) => Some((q, SelectionGoal::NoGoal)),
                    None => None,
                };
            },
            Motion::RepeatFind { last_find } => {
                return repeat_find(last_find, false, buf, point, times);
            },
            Motion::RepeatFindReversed { last_find } => {
                return repeat_find(last_find, true, buf, point, times);
            },
            Motion::ZedSearchResult { new_selections, .. } => {
                if new_selections.len() > 0 && new_selections[0].start != point {
                    return Some((new_selections[0].start, SelectionGoal::NoGoal));
                } else {
                    return None;
                }
            },
            _ => {},
        }
        let infallible = self.infallible();
        let (new_point, new_goal) = self.plain_move(buf, point, goal, maybe_times, text_layout_details);
        if new_point != point || infallible {
            Some((new_point, new_goal))
        } else {
            None
        }
    }
}


/// The earlier of two points.
pub open spec fn earlier(a: DisplayPoint, b: DisplayPoint) -> DisplayPoint {
    if b.precedes(a) {
        b
    } else {
        a
    }
}

/// The later of two points.
pub open spec fn later(a: DisplayPoint, b: DisplayPoint) -> DisplayPoint {
    if b.precedes(a) {
        a
    } else {
        b
    }
}

impl Motion {
    /// The inputs on which `range` is defined: a selection within the text,
    /// and what moving its head requires.
    pub open spec fn range_requires(
        &self,
        buf: TextBuffer,
        selection: Selection,
        times: Option<usize>,
        layout: TextLayoutDetails,
    ) -> bool {
        match *self {
            Motion::ZedSearchResult { .. } => true,
            _ => {
                &&& buf.valid_point(selection.start)
                &&& buf.valid_point(selection.end)
                &&& self.move_point_requires(buf, selection.head_of(), times, layout)
            },
        }
    }

    /// The text an operator with this motion acts on, from `selection`.
    ///
    /// For a search result: from the earlier to the later end of the first
    /// selection before and after the search. Otherwise the selection with
    /// its head moved by the motion, then:
    /// - for a linewise motion, from the start of its first line to the
    ///   end of its last line; when the surrounding newline is wanted, to
    ///   the start of the next line, or, on the last line, from the end of
    ///   the line before;
    /// - otherwise, where `w` crosses into another line, only to the end of
    ///   the line it started on; an exclusive motion other than backspace
    ///   that ends at the start of a later line ends at the end of the line
    ///   before instead and becomes inclusive; and an inclusive motion
    ///   takes in the character it ends on.
    ///
    /// Nothing when the motion fails.
    pub open spec fn range_of(
        &self,
        buf: TextBuffer,
        selection: Selection,
        times: Option<usize>,
        expand_to_surrounding_newline: bool,
        layout: TextLayoutDetails,
    ) -> Option<PointRange> {
        match *self {
            Motion::ZedSearchResult { prior_selections, new_selections } => {
                if prior_selections@.len() > 0 && new_selections@.len() > 0 {
                    let prior = prior_selections@[0];
                    let new = new_selections@[0];
                    let start = earlier(prior.start, new.start);
                    let end = later(new.end, prior.end);
                    if start.precedes(end) {
                        Some(PointRange { start, end })
                    } else {
                        Some(PointRange { start: end, end: start })
                    }
                } else {
                    None
                }
            },
            _ => match self.move_point_of(buf, selection.head_of(), selection.goal, times, layout) {
                None => None,
                Some(moved) => {
                    let sel = selection.with_head(moved.0, moved.1);
                    if self.is_linewise() {
                        let start = DisplayPoint { row: sel.start.row, column: 0 };
                        if expand_to_surrounding_newline && sel.end.row < buf.max_row() {
                            Some(
                                PointRange {
                                    start,
                                    end: buf.clip(DisplayPoint { row: (sel.end.row + 1) as u32, column: 0 }),
                                },
                            )
                        } else {
                            let start = if expand_to_surrounding_newline && start.row > 0 {
                                buf.clip(
                                    DisplayPoint {
                                        row: (start.row - 1) as u32,
                                        column: buf.line_len(start.row - 1) as u32,
                                    },
                                )
                            } else {
                                start
                            };
                            Some(
                                PointRange {
                                    start,
                                    end: DisplayPoint {
                                        row: sel.end.row,
                                        column: buf.line_len(sel.end.row as int) as u32,
                                    },
                                },
                            )
                        }
                    } else {
                        let end1 = if (*self is NextWordStart) && sel.end.row > sel.start.row {
                            DisplayPoint {
                                row: sel.start.row,
                                column: buf.line_len(sel.start.row as int) as u32,
                            }
                        } else {
                            sel.end
                        };
                        let becomes_inclusive = !self.is_inclusive() && !(*self is Backspace)
                            && end1.row > sel.start.row && end1.column == 0;
                        let inclusive = self.is_inclusive() || becomes_inclusive;
                        let end2 = if becomes_inclusive {
                            buf.clip(
                                DisplayPoint {
                                    row: (end1.row - 1) as u32,
                                    column: buf.line_len(end1.row - 1) as u32,
                                },
                            )
                        } else {
                            end1
                        };
                        let end3 = if inclusive && end2.column < buf.line_len(end2.row as int) {
                            saturating_right_of(buf, end2)
                        } else {
                            end2
                        };
                        Some(PointRange { start: sel.start, end: end3 })
                    }
                },
            },
        }
    }

    pub fn range(
        &self,
        buf: &TextBuffer,
        selection: Selection,
        times: Option<usize>,
        expand_to_surrounding_newline: bool,
        text_layout_details: &TextLayoutDetails,
    ) -> (r: Option<PointRange>)
        requires
            self.range_requires(*buf, selection, times, *text_layout_details),
        ensures
            r == self.range_of(*buf, selection, times, expand_to_surrounding_newline, *text_layout_details),
    {
        if let Motion::ZedSearchResult { prior_selections, new_selections } = self {
            if prior_selections.len() > 0 && new_selections.len() > 0 {
                let prior = prior_selections[0];
                let new = new_selections[0];
                let start = if new.start.is_before(&prior.start) {
                    new.start
                } else {
                    prior.start
                };
                let end = if prior.end.is_before(&new.end) {
                    new.end
                } else {
                    prior.end
                };
                if start.is_before(&end) {
                    return Some(PointRange { start, end });
                } else {
                    return Some(PointRange { start: end, end: start });
                }
            } else {
                return None;
            }
        }
        match self.move_point(buf, selection.head(), selection.goal, times, text_layout_details) {
            None => None,
            Some((new_head, goal)) => {
                let mut sel = selection;
                sel.set_head(new_head, goal);
                if self.linewise() {
                    sel.start = DisplayPoint { row: sel.start.row, column: 0 };
                    if expand_to_surrounding_newline {
                        if sel.end.row < buf.max_row_exec() {
                            sel.end.row = sel.end.row + 1;
                            sel.end.column = 0;
                            sel.end = buf.clip_exec(sel.end);
                            return Some(PointRange { start: sel.start, end: sel.end });
                        } else if sel.start.row > 0 {
                            sel.start.row = sel.start.row - 1;
                            sel.start.column = buf.line_len_exec(sel.start.row);
                            sel.start = buf.clip_exec(sel.start);
                        }
                    }
                    sel.end = DisplayPoint { row: sel.end.row, column: buf.line_len_exec(sel.end.row) };
                } else {
                    if let Motion::NextWordStart { .. } = self {
                        let start_row = sel.start.row;
                        if sel.end.row > start_row {
                            sel.end = DisplayPoint {
                                row: start_row,
                                column: buf.line_len_exec(start_row),
                            };
                        }
                    }
                    let mut inclusive = self.inclusive();
                    let is_backspace = if let Motion::Backspace = self {
                        true
                    } else {
                        false
                    };
                    if !inclusive && !is_backspace && sel.end.row > sel.start.row && sel.end.column
                        == 0 {
                        inclusive = true;
                        let row = sel.end.row - 1;
                        sel.end = buf.clip_exec(
                            DisplayPoint { row, column: buf.line_len_exec(row) },
                        );
                    }
                    if inclusive && sel.end.column < buf.line_len_exec(sel.end.row) {
                        sel.end = saturating_right(buf, sel.end);
                    }
                }
                Some(PointRange { start: sel.start, end: sel.end })
            },
        }
    }

    /// Sets `selection` to the text an operator with this motion acts on;
    /// whether the motion succeeded.
    pub fn expand_selection(
        &self,
        buf: &TextBuffer,
        selection: &mut Selection,
        times: Option<usize>,
        expand_to_surrounding_newline: bool,
        text_layout_details: &TextLayoutDetails,
    ) -> (b: bool)
        requires
            self.range_requires(*buf, *old(selection), times, *text_layout_details),
        ensures
            b == self.range_of(*buf, *old(selection), times, expand_to_surrounding_newline, *text_layout_details) is Some,
            match self.range_of(*buf, *old(selection), times, expand_to_surrounding_newline, *text_layout_details) {
                Some(range) => *final(selection) == (Selection { start: range.start, end: range.end, ..*old(selection) }),
                None => *final(selection) == *old(selection),
            },
    {
        match self.range(buf, *selection, times, expand_to_surrounding_newline, text_layout_details) {
            Some(range) => {
                selection.start = range.start;
                selection.end = range.end;
                true
            },
            None => false,
        }
    }
}


/// A motion other than a forward find, a repeated find or a search result
/// succeeds only by moving the cursor, unless it counts as done anyway.
pub proof fn law_motion_fails_in_place(
    m: Motion,
    buf: TextBuffer,
    point: DisplayPoint,
    goal: SelectionGoal,
    maybe_times: Option<usize>,
    layout: TextLayoutDetails,
)
    requires
        m.moves_plainly(),
    ensures
        m.move_point_of(buf, point, goal, maybe_times, layout) is None ==> !m.is_infallible(),
        m.move_point_of(buf, point, goal, maybe_times, layout) matches Some(q) ==> q.0 != point
            || m.is_infallible(),
{
}

/// Moving the head of a selection keeps its tail, puts the head where it
/// was moved, and keeps the start of the selection at or before its end.
pub proof fn law_with_head(sel: Selection, head: DisplayPoint, goal: SelectionGoal)
    requires
        !sel.end.precedes(sel.start),
    ensures
        sel.with_head(head, goal).tail_of() == sel.tail_of(),
        sel.with_head(head, goal).head_of() == head,
        !sel.with_head(head, goal).end.precedes(sel.with_head(head, goal).start),
        sel.with_head(head, goal).goal == goal,
{
}

/// The text an operator acts on after a search runs forward: its start is
/// never after its end.
pub proof fn law_search_range_ordered(
    m: Motion,
    buf: TextBuffer,
    sel: Selection,
    times: Option<usize>,
    expand: bool,
    layout: TextLayoutDetails,
)
    requires
        m is ZedSearchResult,
    ensures
        m.range_of(buf, sel, times, expand, layout) matches Some(r) ==> !r.end.precedes(r.start),
{
}

/// An operator with a linewise motion acts on whole lines: from the start
/// of the first line to the end of the last, unless the surrounding
/// newline is asked for.
pub proof fn law_linewise_range_whole_lines(
    m: Motion,
    buf: TextBuffer,
    sel: Selection,
    times: Option<usize>,
    layout: TextLayoutDetails,
)
    requires
        m.is_linewise(),
    ensures
        m.range_of(buf, sel, times, false, layout) matches Some(r) ==> r.start.column == 0
            && r.end.column == buf.line_len(r.end.row as int) as u32,
{
    if m.range_of(buf, sel, times, false, layout) is Some {
        assert(!(m is ZedSearchResult));
    }
}


/// The motions that count as done without moving the cursor (`gg`, `G`,
/// and the current line) act on whole lines, including the last character.
pub proof fn law_infallible_motions_linewise(m: Motion)
    requires
        m.is_infallible(),
    ensures
        m.is_linewise(),
        m.is_inclusive(),
{
}

/// `d}` does not take in the line `}` stops on: where `}` takes the cursor
/// to the start of a later line, the text the operator acts on ends on an
/// earlier line, with or without the surrounding newline.
pub proof fn law_end_of_paragraph_range_stops_before_landing_line(
    buf: TextBuffer,
    sel: Selection,
    times: Option<usize>,
    expand: bool,
    layout: TextLayoutDetails,
)
    requires
        buf.wf(),
    ensures
        match (
            Motion::EndOfParagraph.move_point_of(buf, sel.head_of(), sel.goal, times, layout),
            Motion::EndOfParagraph.range_of(buf, sel, times, expand, layout),
        ) {
            (Some(q), Some(r)) => buf.valid_point(q.0) && q.0.row > sel.tail_of().row && q.0.column
                == 0 ==> r.end.row < q.0.row,
            _ => true,
        },
{
    let m = Motion::EndOfParagraph;
    if let Some(q) = m.move_point_of(buf, sel.head_of(), sel.goal, times, layout) {
        if buf.valid_point(q.0) && q.0.row > sel.tail_of().row && q.0.column == 0 {
            buf.lemma_line_bounds(q.0.row - 1);
            buf.lemma_line_bounds(buf.max_row());
        }
    }
}

/// A motion typed without a count moves as with a count of one; only `G`
/// tells the two apart (to the end of the text, or to the first line).
pub proof fn law_missing_count_is_one(
    m: Motion,
    buf: TextBuffer,
    point: DisplayPoint,
    goal: SelectionGoal,
    layout: TextLayoutDetails,
)
    requires
        !(m is EndOfDocument),
    ensures
        m.move_point_of(buf, point, goal, None, layout) == m.move_point_of(
            buf,
            point,
            goal,
            Some(1usize),
            layout,
        ),
{
    assert(plain_move_of(m, buf, point, goal, 1, None, layout) == plain_move_of(
        m,
        buf,
        point,
        goal,
        1,
        Some(1usize),
        layout,
    ));
}

/// An operator with a linewise motion, asked to take in the surrounding
/// newline, acts on whole lines and one newline beside them: from the start
/// of the first line to the start of the line after the last; or, when the
/// last line is the last of the text, from the end of the line before the
/// first (a newline the cursor may not rest after is taken in up to the
/// last character before it) to the end of the text.
#[verifier::rlimit(30)]
pub proof fn law_linewise_range_takes_a_newline(
    m: Motion,
    buf: TextBuffer,
    sel: Selection,
    times: Option<usize>,
    layout: TextLayoutDetails,
)
    requires
        buf.wf(),
        m.is_linewise(),
        buf.valid_point(sel.start),
        buf.valid_point(sel.end),
    ensures
        match (
            m.move_point_of(buf, sel.head_of(), sel.goal, times, layout),
            m.range_of(buf, sel, times, true, layout),
        ) {
            (Some(q), Some(r)) => buf.valid_point(q.0) ==> {
                let s = sel.with_head(q.0, q.1);
                let a = s.start.row as int;
                let z = s.end.row as int;
                &&& z < buf.max_row() ==> {
                    &&& buf.offset_of(r.start) == buf.line_start(a)
                    &&& buf.offset_of(r.end) == buf.line_start(z + 1)
                }
                &&& z == buf.max_row() && a > 0 ==> {
                    &&& r.start == buf.clip(
                        DisplayPoint { row: (a - 1) as u32, column: buf.line_len(a - 1) as u32 },
                    )
                    &&& !buf.clips_at_line_ends() ==> buf.offset_of(r.start) == buf.line_end(a - 1)
                    &&& buf.offset_of(r.end) == buf.len()
                }
                &&& z == buf.max_row() && a == 0 ==> {
                    &&& buf.offset_of(r.start) == 0
                    &&& buf.offset_of(r.end) == buf.len()
                }
            },
            (None, r) => r is None,
            _ => false,
        },
{
    if let Some(q) = m.move_point_of(buf, sel.head_of(), sel.goal, times, layout) {
        if buf.valid_point(q.0) {
            let s = sel.with_head(q.0, q.1);
            buf.lemma_line_bounds(s.start.row as int);
            buf.lemma_line_bounds(s.end.row as int);
            buf.lemma_line_bounds(buf.max_row());
            buf.lemma_line_bounds(0);
            if s.end.row < buf.max_row() {
                buf.lemma_line_bounds(s.end.row + 1);
            }
            if s.start.row > 0 {
                buf.lemma_line_bounds(s.start.row - 1);
            }
        }
    }
}

/// `G` without a count always succeeds and goes to the last line.
pub proof fn law_end_of_document_goes_to_last_line(
    buf: TextBuffer,
    p: DisplayPoint,
    goal: SelectionGoal,
    layout: TextLayoutDetails,
)
    requires
        buf.wf(),
    ensures
        Motion::EndOfDocument.move_point_of(buf, p, goal, None, layout) matches Some(q) && q.0.row
            == buf.max_row(),
{
    law_end_of_document_row(buf, p, None);
    let m = Motion::EndOfDocument;
    assert(m.is_infallible());
    assert(plain_move_of(m, buf, p, goal, 1, None, layout) == (
        end_of_document_of(buf, p, None),
        SelectionGoal::NoGoal,
    ));
}

/// An operator with a motion that is not linewise acts on the text from the
/// start of the moved selection. Where `w` crosses into a later line it
/// stops at the end of the line it started on. An exclusive motion other
/// than backspace that ends at the start of a later line stops at the end
/// of the line before and becomes inclusive; an inclusive motion takes in
/// the character it ends on.
#[verifier::rlimit(30)]
pub proof fn law_charwise_range(
    m: Motion,
    buf: TextBuffer,
    sel: Selection,
    times: Option<usize>,
    expand: bool,
    layout: TextLayoutDetails,
)
    requires
        buf.wf(),
        !m.is_linewise(),
        !(m is ZedSearchResult),
        !buf.clips_at_line_ends(),
        buf.valid_point(sel.start),
        buf.valid_point(sel.end),
    ensures
        match (
            m.move_point_of(buf, sel.head_of(), sel.goal, times, layout),
            m.range_of(buf, sel, times, expand, layout),
        ) {
            (Some(q), Some(r)) => buf.valid_point(q.0) ==> {
                let s = sel.with_head(q.0, q.1);
                let a = s.start.row as int;
                let z = s.end.row as int;
                &&& r.start == s.start
                &&& (m is NextWordStart) && z > a ==> r.end == DisplayPoint {
                    row: s.start.row,
                    column: buf.line_len(a) as u32,
                }
                &&& (m is NextWordStart) && z <= a ==> r.end == s.end
                &&& !(m is NextWordStart) && !m.is_inclusive() && !(m is Backspace) && z > a
                    && s.end.column == 0 ==> r.end == DisplayPoint {
                    row: (z - 1) as u32,
                    column: buf.line_len(z - 1) as u32,
                }
                &&& !(m is NextWordStart) && m.is_inclusive() && s.end.column < buf.line_len(z)
                    ==> r.end == DisplayPoint { row: s.end.row, column: (s.end.column + 1) as u32 }
                &&& !(m is NextWordStart) && m.is_inclusive() && s.end.column == buf.line_len(z)
                    ==> r.end == s.end
                &&& !(m is NextWordStart) && !m.is_inclusive() && !(z > a && s.end.column == 0
                    && !(m is Backspace)) ==> r.end == s.end
            },
            (None, r) => r is None,
            _ => false,
        },
{
    if let Some(q) = m.move_point_of(buf, sel.head_of(), sel.goal, times, layout) {
        if buf.valid_point(q.0) {
            let s = sel.with_head(q.0, q.1);
            buf.lemma_line_bounds(s.start.row as int);
            buf.lemma_line_bounds(s.end.row as int);
            if s.end.row > 0 {
                buf.lemma_line_bounds(s.end.row - 1);
            }
        }
    }
}

/// The kinds of motions, as Vim's documentation gives them: `j`, `k`, `gg`,
/// `G`, `+`, `-`, `_`, `{` and the window motions are linewise; `e`, `ge`,
/// `$`, `g_`, `f`, `t`, `%` and the bracket motions are inclusive; `h`, `l`,
/// `w`, `b`, `0`, `^`, `|`, `F`, `T` and `}` are exclusive and not linewise.
pub proof fn law_motion_kinds(b: bool, c: char, m: FindRange, s: bool)
    ensures
        forall|d: bool| (Motion::Down { display_lines: d }).is_linewise() && (Motion::Up { display_lines: d }).is_linewise(),
        Motion::StartOfDocument.is_linewise() && Motion::EndOfDocument.is_linewise(),
        Motion::NextLineStart.is_linewise() && Motion::PreviousLineStart.is_linewise(),
        Motion::CurrentLine.is_linewise() && Motion::StartOfParagraph.is_linewise(),
        Motion::StartOfLineDownward.is_linewise(),
        Motion::WindowTop.is_linewise() && Motion::WindowMiddle.is_linewise() && Motion::WindowBottom.is_linewise(),
        forall|ip: bool|
            (Motion::NextWordEnd { ignore_punctuation: ip }).is_inclusive() && (Motion::PreviousWordEnd {
                ignore_punctuation: ip,
            }).is_inclusive() && !(Motion::NextWordStart { ignore_punctuation: ip }).is_inclusive()
                && !(Motion::PreviousWordStart { ignore_punctuation: ip }).is_inclusive()
                && !(Motion::NextWordStart { ignore_punctuation: ip }).is_linewise(),
        forall|d: bool| (Motion::EndOfLine { display_lines: d }).is_inclusive() && !(Motion::StartOfLine {
            display_lines: d,
        }).is_inclusive() && !(Motion::FirstNonWhitespace { display_lines: d }).is_inclusive(),
        Motion::EndOfLineDownward.is_inclusive() && Motion::Matching.is_inclusive(),
        (Motion::FindForward { before: b, char: c, mode: m, smartcase: s }).is_inclusive(),
        (Motion::UnmatchedForward { char: c }).is_inclusive() && (Motion::UnmatchedBackward { char: c }).is_inclusive(),
        !(Motion::FindBackward { after: b, char: c, mode: m, smartcase: s }).is_inclusive(),
        !Motion::Left.is_inclusive() && !Motion::Right.is_inclusive() && !Motion::Left.is_linewise()
            && !Motion::Right.is_linewise(),
        !Motion::EndOfParagraph.is_inclusive() && !Motion::EndOfParagraph.is_linewise(),
        !Motion::GoToColumn.is_inclusive() && !Motion::GoToColumn.is_linewise(),
{
}

} // verus!
