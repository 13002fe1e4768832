//! The text that motions move over, and positions in it.
//!
//! The text is one sequence of characters in which `'\n'` separates lines.
//! A position is either an offset into that sequence or a point: a row and
//! a column, both counted in characters.

use vstd::prelude::*;

use crate::chars::{char_kind, is_alphanumeric, is_whitespace, CharKind};

verus! {

/// A row and a column in the text, both counted in characters.
#[derive(Clone, Copy, Debug, PartialEq, Eq, Structural)]
pub struct DisplayPoint {
    pub row: u32,
    pub column: u32,
}

impl DisplayPoint {
    pub fn new(row: u32, column: u32) -> (p: DisplayPoint)
        ensures
            p.row == row,
            p.column == column,
    {
        DisplayPoint { row, column }
    }

    pub fn zero() -> (p: DisplayPoint)
        ensures
            p.row == 0,
            p.column == 0,
    {
        DisplayPoint { row: 0, column: 0 }
    }

    /// Points are ordered by row, then by column.
    pub open spec fn precedes(self, other: DisplayPoint) -> bool {
        self.row < other.row || (self.row == other.row && self.column < other.column)
    }

    pub fn is_before(&self, other: &DisplayPoint) -> (b: bool)
        ensures
            b == self.precedes(*other),
    {
        self.row < other.row || (self.row == other.row && self.column < other.column)
    }

    pub fn is_zero(&self) -> (b: bool)
        ensures
            b == (self.row == 0 && self.column == 0),
    {
        self.row == 0 && self.column == 0
    }
}

/// A pair of delimiters found by the language's syntax tree: a bracket pair,
/// or the opening and closing tags of an element. Offsets into the text;
/// each range ends just after its last character.
#[derive(Clone, Copy, Debug, PartialEq, Eq, Structural)]
pub struct DelimitedRange {
    pub open_start: usize,
    pub open_end: usize,
    pub close_start: usize,
    pub close_end: usize,
}

impl DelimitedRange {
    /// The opening delimiter comes before the closing one, both non-empty
    /// and within a text of length `len`.
    pub open spec fn well_formed_in(self, len: int) -> bool {
        self.open_start < self.open_end <= self.close_start < self.close_end <= len
    }

    pub fn is_well_formed_in(&self, len: usize) -> (b: bool)
        ensures
            b == self.well_formed_in(len as int),
    {
        self.open_start < self.open_end && self.open_end <= self.close_start && self.close_start
            < self.close_end && self.close_end <= len
    }
}

/// The text of a buffer, split into lines, together with the two settings
/// of the display that motions depend on, and what the language's syntax
/// tree reports of bracket pairs and markup elements.
pub struct TextBuffer {
    chars: Vec<char>,
    line_starts: Vec<usize>,
    clip_at_line_ends: bool,
    word_characters: Vec<char>,
    brackets: Vec<DelimitedRange>,
    elements: Vec<DelimitedRange>,
}

impl TextBuffer {
    /// The characters of the text, lines separated by `'\n'`.
    pub closed spec fn text(self) -> Seq<char> {
        self.chars@
    }

    /// The offset at which each line begins.
    pub closed spec fn starts(self) -> Seq<usize> {
        self.line_starts@
    }

    /// Whether the cursor may not rest after the last character of a line
    /// (the setting of normal mode).
    pub closed spec fn clips_at_line_ends(self) -> bool {
        self.clip_at_line_ends
    }

    /// Characters that count as word characters besides letters, digits and `_`.
    pub closed spec fn extra_word_chars(self) -> Seq<char> {
        self.word_characters@
    }

    /// The bracket pairs of the text, in the order the syntax tree gives them.
    pub closed spec fn bracket_pairs(self) -> Seq<DelimitedRange> {
        self.brackets@
    }

    /// The markup elements of the text (opening and closing tag), an
    /// element listed before the elements nested in it.
    pub closed spec fn tag_elements(self) -> Seq<DelimitedRange> {
        self.elements@
    }

    pub open spec fn len(self) -> int {
        self.text().len() as int
    }

    pub open spec fn line_count(self) -> int {
        self.starts().len() as int
    }

    pub open spec fn max_row(self) -> int {
        self.line_count() - 1
    }

    pub open spec fn line_start(self, r: int) -> int {
        self.starts()[r] as int
    }

    /// The offset of the `'\n'` that ends line `r`, or the length of the
    /// text for the last line.
    pub open spec fn line_end(self, r: int) -> int {
        if r + 1 < self.line_count() {
            self.starts()[r + 1] - 1
        } else {
            self.len()
        }
    }

    pub open spec fn line_len(self, r: int) -> int {
        self.line_end(r) - self.line_start(r)
    }

    #[verifier::type_invariant]
    pub open spec fn wf(self) -> bool {
        &&& self.len() < u32::MAX
        &&& 1 <= self.line_count() <= self.len() + 1
        &&& self.starts()[0] == 0
        &&& forall|i: int, j: int|
            0 <= i < j < self.line_count() ==> #[trigger] self.starts()[i] < #[trigger] self.starts()[j]
        &&& forall|i: int| 0 <= i < self.line_count() ==> #[trigger] self.starts()[i] <= self.len()
        &&& forall|i: int|
            1 <= i < self.line_count() ==> self.text()[#[trigger] self.starts()[i] - 1] == '\n'
        &&& forall|i: int|
            0 <= i < self.bracket_pairs().len() ==> #[trigger] self.bracket_pairs()[i].well_formed_in(
                self.len(),
            )
        &&& forall|i: int|
            0 <= i < self.tag_elements().len() ==> #[trigger] self.tag_elements()[i].well_formed_in(
                self.len(),
            )
        &&& forall|i: int, k: int|
            #![trigger self.starts()[i], self.text()[k]]
            0 <= i < self.line_count() && self.line_start(i) <= k < self.line_end(i)
                ==> self.text()[k] != '\n'
    }

    /// A point that lies on a line of the text, at most one past its last character.
    pub open spec fn valid_point(self, p: DisplayPoint) -> bool {
        p.row < self.line_count() && p.column <= self.line_len(p.row as int)
    }

    /// The offset in the text of a valid point.
    pub open spec fn offset_of(self, p: DisplayPoint) -> int {
        self.line_start(p.row as int) + p.column
    }

    /// The point of offset `o`: the line on which it lies, and the distance
    /// from the start of that line.
    pub open spec fn point_at(self, o: int, p: DisplayPoint) -> bool {
        &&& self.valid_point(p)
        &&& self.offset_of(p) == o
    }

    pub open spec fn max_point(self) -> DisplayPoint {
        DisplayPoint { row: self.max_row() as u32, column: self.line_len(self.max_row()) as u32 }
    }

    /// The character at offset `o`; past the end, `'\0'`.
    pub open spec fn char_at(self, o: int) -> char {
        if 0 <= o < self.len() {
            self.text()[o]
        } else {
            '\0'
        }
    }

    /// Clipping a point into the text: a row past the last one goes to the
    /// end of the text, a column past the end of its line to that end.
    pub open spec fn clip_to_text(self, p: DisplayPoint) -> DisplayPoint {
        if p.row > self.max_row() {
            self.max_point()
        } else if p.column > self.line_len(p.row as int) {
            DisplayPoint { row: p.row, column: self.line_len(p.row as int) as u32 }
        } else {
            p
        }
    }

    /// Moving a point that lies after the last character of a non-empty line
    /// back onto that character.
    pub open spec fn clip_line_end(self, p: DisplayPoint) -> DisplayPoint {
        if p.column == self.line_len(p.row as int) && p.column > 0 {
            DisplayPoint { row: p.row, column: (p.column - 1) as u32 }
        } else {
            p
        }
    }

    /// Clipping as the display does it: into the text, and, where the cursor
    /// may not rest after the last character of a line, off that position.
    pub open spec fn clip(self, p: DisplayPoint) -> DisplayPoint {
        if self.clips_at_line_ends() {
            self.clip_line_end(self.clip_to_text(p))
        } else {
            self.clip_to_text(p)
        }
    }

    /// Every line lies within the text, and each but the last ends with `'\n'`.
    pub proof fn lemma_line_bounds(self, r: int)
        requires
            self.wf(),
            0 <= r < self.line_count(),
        ensures
            0 <= self.line_start(r) <= self.line_end(r) <= self.len(),
            r + 1 < self.line_count() ==> self.line_end(r) + 1 == self.line_start(r + 1),
            r + 1 < self.line_count() ==> self.text()[self.line_end(r)] == '\n',
            r + 1 == self.line_count() ==> self.line_end(r) == self.len(),
    {
        if r + 1 < self.line_count() {
            assert(self.starts()[r] < self.starts()[r + 1]);
            assert(self.starts()[r + 1] <= self.len());
        } else {
            assert(self.starts()[r] <= self.len());
        }
        assert(self.starts()[0] <= self.starts()[r]) by {
            if r > 0 {
                assert(self.starts()[0] < self.starts()[r]);
            }
        }
    }

    /// The characters of a line are not `'\n'`.
    pub proof fn lemma_no_newline_in_line(self, r: int, k: int)
        requires
            self.wf(),
            0 <= r < self.line_count(),
            self.line_start(r) <= k < self.line_end(r),
        ensures
            self.text()[k] != '\n',
    {
        assert(self.starts()[r] == self.line_start(r));
    }

    proof fn lemma_line_of_below(self, o: int, hi: int) -> (r: int)
        requires
            self.wf(),
            0 <= o <= self.len(),
            0 <= hi < self.line_count(),
            forall|j: int| hi < j < self.line_count() ==> self.starts()[j] > o,
        ensures
            0 <= r <= hi,
            self.line_start(r) <= o <= self.line_end(r),
        decreases hi,
    {
        if self.starts()[hi] <= o {
            if hi + 1 < self.line_count() {
                assert(self.starts()[hi + 1] > o);
            }
            hi
        } else {
            assert(hi > 0);
            self.lemma_line_of_below(o, hi - 1)
        }
    }

    /// Every offset up to the end of the text lies on exactly one line.
    pub proof fn lemma_line_of(self, o: int) -> (r: int)
        requires
            self.wf(),
            0 <= o <= self.len(),
        ensures
            0 <= r < self.line_count(),
            self.line_start(r) <= o <= self.line_end(r),
            forall|r2: int|
                0 <= r2 < self.line_count() && #[trigger] self.line_start(r2) <= o <= self.line_end(r2)
                    ==> r2 == r,
    {
        let r = self.lemma_line_of_below(o, self.line_count() - 1);
        assert forall|r2: int|
            0 <= r2 < self.line_count() && #[trigger] self.line_start(r2) <= o <= self.line_end(r2)
                implies r2 == r by {
            if r2 < r {
                assert(self.starts()[r2 + 1] <= self.starts()[r]) by {
                    if r2 + 1 < r {
                        assert(self.starts()[r2 + 1] < self.starts()[r]);
                    }
                }
            } else if r < r2 {
                assert(self.starts()[r + 1] <= self.starts()[r2]) by {
                    if r + 1 < r2 {
                        assert(self.starts()[r + 1] < self.starts()[r2]);
                    }
                }
            }
        }
        r
    }

    /// The point of an offset is unique.
    pub proof fn lemma_point_at_unique(self, o: int, p: DisplayPoint, q: DisplayPoint)
        requires
            self.wf(),
            self.point_at(o, p),
            self.point_at(o, q),
        ensures
            p == q,
    {
        self.lemma_line_bounds(p.row as int);
        self.lemma_line_bounds(q.row as int);
        let r = self.lemma_line_of(o);
    }

    /// A valid point lies within the text.
    pub proof fn lemma_valid_point_offset(self, p: DisplayPoint)
        requires
            self.wf(),
            self.valid_point(p),
        ensures
            0 <= self.offset_of(p) <= self.len(),
            self.point_at(self.offset_of(p), p),
    {
        self.lemma_line_bounds(p.row as int);
    }

    #[verifier::rlimit(100)]
    #[verifier::spinoff_prover]
    pub fn new(text: Vec<char>, clip_at_line_ends: bool, word_characters: Vec<char>) -> (b:
        TextBuffer)
        requires
            text.len() < u32::MAX,
        ensures
            b.text() == text@,
            b.clips_at_line_ends() == clip_at_line_ends,
            b.extra_word_chars() == word_characters@,
            b.bracket_pairs().len() == 0,
            b.tag_elements().len() == 0,
    {
        let mut starts: Vec<usize> = Vec::new();
        starts.push(0);
        let mut i: usize = 0;
        while i < text.len()
            invariant
                i <= text.len() < u32::MAX,
                1 <= starts.len() <= i + 1,
                starts[0] == 0,
                forall|a: int, c: int|
                    0 <= a < c < starts.len() ==> #[trigger] starts[a] < #[trigger] starts[c],
                forall|a: int| 0 <= a < starts.len() ==> #[trigger] starts[a] <= i,
                forall|a: int| 1 <= a < starts.len() ==> text@[#[trigger] starts[a] - 1] == '\n',
                forall|a: int, k: int|
                    #![trigger starts@[a], text@[k]]
                    0 <= a < starts.len() && starts[a] <= k && k < (if a + 1 < starts.len() {
                        starts[a + 1] - 1
                    } else {
                        i as int
                    }) ==> text@[k] != '\n',
            decreases text.len() - i,
        {
            if text[i] == '\n' {
                let ghost old_starts = starts@;
                starts.push(i + 1);
                assert forall|a: int, k: int|
                    #![trigger starts@[a], text@[k]]
                    0 <= a < starts.len() && starts[a] <= k && k < (if a + 1 < starts.len() {
                        starts[a + 1] - 1
                    } else {
                        (i + 1) as int
                    }) implies text@[k] != '\n' by {
                    if a + 1 < old_starts.len() {
                        assert(old_starts[a] == starts@[a]);
                        assert(old_starts[a + 1] == starts@[a + 1]);
                    } else if a + 1 == old_starts.len() {
                        assert(old_starts[a] == starts@[a]);
                    }
                }
            }
            i = i + 1;
        }
        TextBuffer {
            chars: text,
            line_starts: starts,
            clip_at_line_ends,
            word_characters,
            brackets: Vec::new(),
            elements: Vec::new(),
        }
    }

    /// The same text with the bracket pairs and elements the syntax tree
    /// found in it; `None` when one of them is not well formed in the text.
    pub fn with_syntax(self, brackets: Vec<DelimitedRange>, elements: Vec<DelimitedRange>) -> (r:
        Option<TextBuffer>)
        ensures
            r matches Some(b) ==> {
                &&& b.text() == self.text()
                &&& b.starts() == self.starts()
                &&& b.clips_at_line_ends() == self.clips_at_line_ends()
                &&& b.extra_word_chars() == self.extra_word_chars()
                &&& b.bracket_pairs() == brackets@
                &&& b.tag_elements() == elements@
            },
            r is None <==> (exists|i: int|
                0 <= i < brackets@.len() && !(#[trigger] brackets@[i]).well_formed_in(self.len()))
                || (exists|i: int|
                0 <= i < elements@.len() && !(#[trigger] elements@[i]).well_formed_in(self.len())),
    {
        proof {
            use_type_invariant(&self);
        }
        let len = self.chars.len();
        let mut i: usize = 0;
        while i < brackets.len()
            invariant
                len == self.len(),
                i <= brackets.len(),
                forall|j: int| 0 <= j < i ==> (#[trigger] brackets@[j]).well_formed_in(len as int),
            decreases brackets.len() - i,
        {
            if !brackets[i].is_well_formed_in(len) {
                return None;
            }
            i = i + 1;
        }
        let mut i: usize = 0;
        while i < elements.len()
            invariant
                len == self.len(),
                i <= elements.len(),
                forall|j: int| 0 <= j < i ==> (#[trigger] elements@[j]).well_formed_in(len as int),
            decreases elements.len() - i,
        {
            if !elements[i].is_well_formed_in(len) {
                return None;
            }
            i = i + 1;
        }
        Some(
            TextBuffer {
                chars: self.chars,
                line_starts: self.line_starts,
                clip_at_line_ends: self.clip_at_line_ends,
                word_characters: self.word_characters,
                brackets,
                elements,
            },
        )
    }

    pub fn bracket_count(&self) -> (n: usize)
        ensures
            n == self.bracket_pairs().len(),
    {
        self.brackets.len()
    }

    pub fn bracket_pair(&self, i: usize) -> (p: DelimitedRange)
        requires
            i < self.bracket_pairs().len(),
        ensures
            p == self.bracket_pairs()[i as int],
            p.well_formed_in(self.len()),
    {
        proof {
            use_type_invariant(self);
        }
        self.brackets[i]
    }

    pub fn element_count(&self) -> (n: usize)
        ensures
            n == self.tag_elements().len(),
    {
        self.elements.len()
    }

    pub fn element(&self, i: usize) -> (p: DelimitedRange)
        requires
            i < self.tag_elements().len(),
        ensures
            p == self.tag_elements()[i as int],
            p.well_formed_in(self.len()),
    {
        proof {
            use_type_invariant(self);
        }
        self.elements[i]
    }

    pub fn len_chars(&self) -> (n: usize)
        ensures
            n == self.len(),
    {
        self.chars.len()
    }

    pub fn line_count_exec(&self) -> (n: usize)
        ensures
            n == self.line_count(),
    {
        self.line_starts.len()
    }

    pub fn max_row_exec(&self) -> (r: u32)
        ensures
            r == self.max_row(),
    {
        proof {
            use_type_invariant(self);
        }
        (self.line_starts.len() - 1) as u32
    }

    /// The number of characters on line `row`.
    pub fn line_len_exec(&self, row: u32) -> (n: u32)
        requires
            row < self.line_count(),
        ensures
            n == self.line_len(row as int),
    {
        proof {
            use_type_invariant(self);
            self.lemma_line_bounds(row as int);
        }
        let r = row as usize;
        let end = if r + 1 < self.line_starts.len() {
            self.line_starts[r + 1] - 1
        } else {
            self.chars.len()
        };
        (end - self.line_starts[r]) as u32
    }

    pub fn max_point_exec(&self) -> (p: DisplayPoint)
        ensures
            p == self.max_point(),
            self.valid_point(p),
    {
        let r = self.max_row_exec();
        DisplayPoint { row: r, column: self.line_len_exec(r) }
    }

    /// The offset of a point of the text.
    pub fn to_offset(&self, p: DisplayPoint) -> (o: usize)
        requires
            self.valid_point(p),
        ensures
            o == self.offset_of(p),
            o <= self.len(),
    {
        proof {
            use_type_invariant(self);
            self.lemma_line_bounds(p.row as int);
        }
        self.line_starts[p.row as usize] + p.column as usize
    }

    /// The point of an offset of the text.
    #[verifier::rlimit(30)]
    #[verifier::spinoff_prover]
    pub fn to_point(&self, o: usize) -> (p: DisplayPoint)
        requires
            o <= self.len(),
        ensures
            self.point_at(o as int, p),
            p == self.point_of(o as int),
    {
        proof {
            use_type_invariant(self);
            self.lemma_point_of(o as int);
        }
        let mut r: usize = self.line_starts.len() - 1;
        while self.line_starts[r] > o
            invariant
                self.wf(),
                o <= self.len(),
                r < self.line_count(),
                forall|j: int| r < j < self.line_count() ==> self.starts()[j] > o,
            decreases r,
        {
            r = r - 1;
        }
        proof {
            self.lemma_line_bounds(r as int);
            if r + 1 < self.line_count() {
                assert(self.starts()[r + 1] > o);
            }
        }
        DisplayPoint { row: r as u32, column: (o - self.line_starts[r]) as u32 }
    }

    /// The character at offset `o`, if there is one.
    pub fn char_at_exec(&self, o: usize) -> (c: Option<char>)
        ensures
            o < self.len() ==> c == Some(self.text()[o as int]),
            o >= self.len() ==> c.is_none(),
    {
        if o < self.chars.len() {
            Some(self.chars[o])
        } else {
            None
        }
    }

    pub fn clips_at_line_ends_exec(&self) -> (b: bool)
        ensures
            b == self.clips_at_line_ends(),
    {
        self.clip_at_line_ends
    }

    /// Whether `c` is one of the extra word characters.
    pub fn is_extra_word_char(&self, c: char) -> (b: bool)
        ensures
            b == self.extra_word_chars().contains(c),
    {
        let mut i: usize = 0;
        while i < self.word_characters.len()
            invariant
                i <= self.word_characters.len(),
                forall|j: int| 0 <= j < i ==> self.word_characters@[j] != c,
            decreases self.word_characters.len() - i,
        {
            if self.word_characters[i] == c {
                assert(self.extra_word_chars()[i as int] == c);
                return true;
            }
            i = i + 1;
        }
        false
    }

    /// The kind of a character, as this buffer's language classifies it.
    pub open spec fn kind_of(self, ignore_punctuation: bool, c: char) -> CharKind {
        char_kind(self.extra_word_chars(), ignore_punctuation, c)
    }

    pub fn kind(&self, ignore_punctuation: bool, c: char) -> (k: CharKind)
        ensures
            k == self.kind_of(ignore_punctuation, c),
    {
        if is_whitespace(c) {
            CharKind::Whitespace
        } else if is_alphanumeric(c) || c == '_' {
            CharKind::Word
        } else if self.is_extra_word_char(c) {
            if c == '-' && !ignore_punctuation {
                CharKind::Punctuation
            } else {
                CharKind::Word
            }
        } else if ignore_punctuation {
            CharKind::Word
        } else {
            CharKind::Punctuation
        }
    }

    /// The point of an offset up to the end of the text.
    pub open spec fn point_of(self, o: int) -> DisplayPoint {
        choose|p: DisplayPoint| self.point_at(o, p)
    }

    pub proof fn lemma_point_of(self, o: int)
        requires
            self.wf(),
            0 <= o <= self.len(),
        ensures
            self.point_at(o, self.point_of(o)),
            forall|p: DisplayPoint| #[trigger] self.point_at(o, p) ==> p == self.point_of(o),
    {
        let r = self.lemma_line_of(o);
        self.lemma_line_bounds(r);
        let p = DisplayPoint { row: r as u32, column: (o - self.line_start(r)) as u32 };
        assert(self.point_at(o, p));
        assert forall|q: DisplayPoint| #[trigger] self.point_at(o, q) implies q == self.point_of(o) by {
            self.lemma_point_at_unique(o, q, self.point_of(o));
        }
    }

    /// A point is at the start of its line exactly where the text starts or
    /// a `'\n'` comes just before it, and at the end of its line exactly
    /// where the text ends or a `'\n'` follows.
    pub proof fn lemma_point_of_column(self, o: int)
        requires
            self.wf(),
            0 <= o <= self.len(),
        ensures
            self.point_of(o).column == 0 <==> (o == 0 || self.text()[o - 1] == '\n'),
            self.point_of(o).column == self.line_len(self.point_of(o).row as int) <==> (o
                == self.len() || self.text()[o] == '\n'),
    {
        self.lemma_point_of(o);
        let p = self.point_of(o);
        let r = p.row as int;
        self.lemma_line_bounds(r);
        if r > 0 {
            self.lemma_line_bounds(r - 1);
        }
        if p.column > 0 {
            self.lemma_no_newline_in_line(r, o - 1);
        }
        if p.column < self.line_len(r) {
            self.lemma_no_newline_in_line(r, o);
        }
        if p.column == 0 && o > 0 {
            assert(r > 0) by {
                if r == 0 {
                    assert(self.starts()[0] == 0);
                }
            }
        }
    }

    /// Converting a point of the text to its offset and back gives the point.
    pub proof fn law_point_offset_round_trip(self, p: DisplayPoint)
        requires
            self.wf(),
            self.valid_point(p),
        ensures
            self.point_of(self.offset_of(p)) == p,
    {
        self.lemma_valid_point_offset(p);
        self.lemma_point_of(self.offset_of(p));
    }

    /// Converting an offset of the text to its point and back gives the offset.
    pub proof fn law_offset_point_round_trip(self, o: int)
        requires
            self.wf(),
            0 <= o <= self.len(),
        ensures
            self.offset_of(self.point_of(o)) == o,
            self.valid_point(self.point_of(o)),
    {
        self.lemma_point_of(o);
    }

    /// Clipping lands on a point of the text, and clipping again changes nothing.
    pub proof fn law_clip_idempotent(self, p: DisplayPoint)
        requires
            self.wf(),
        ensures
            self.valid_point(self.clip(p)),
            self.clip(self.clip(p)) == self.clip(p),
    {
        self.lemma_line_bounds(self.max_row());
        if p.row <= self.max_row() {
            self.lemma_line_bounds(p.row as int);
        }
    }

    /// Clipping a point of the text never moves it forward, and moves it
    /// back at most from after the last character of a line onto it.
    pub proof fn lemma_clip_offset(self, p: DisplayPoint)
        requires
            self.wf(),
            self.valid_point(p),
        ensures
            self.offset_of(self.clip(p)) <= self.offset_of(p),
            self.offset_of(self.clip(p)) >= self.offset_of(p) - 1,
            self.clip(p).row == p.row,
            self.clip(p) != p ==> p.column == self.line_len(p.row as int) && p.column > 0,
    {
    }

    pub fn clip_to_text_exec(&self, p: DisplayPoint) -> (q: DisplayPoint)
        ensures
            q == self.clip_to_text(p),
            self.valid_point(q),
    {
        let max_row = self.max_row_exec();
        if p.row > max_row {
            self.max_point_exec()
        } else {
            let len = self.line_len_exec(p.row);
            if p.column > len {
                DisplayPoint { row: p.row, column: len }
            } else {
                p
            }
        }
    }

    pub fn clip_line_end_exec(&self, p: DisplayPoint) -> (q: DisplayPoint)
        requires
            self.valid_point(p),
        ensures
            q == self.clip_line_end(p),
            self.valid_point(q),
    {
        if p.column == self.line_len_exec(p.row) && p.column > 0 {
            DisplayPoint { row: p.row, column: p.column - 1 }
        } else {
            p
        }
    }

    pub fn clip_exec(&self, p: DisplayPoint) -> (q: DisplayPoint)
        ensures
            q == self.clip(p),
            self.valid_point(q),
    {
        let q = self.clip_to_text_exec(p);
        if self.clip_at_line_ends {
            self.clip_line_end_exec(q)
        } else {
            q
        }
    }
}

} // verus!
