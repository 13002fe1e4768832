use vim::actions::{motion_for_action, Action, StartOfLine};
use vim::basic::{backspace, left, right, space, up_down_buffer_rows};
use vim::brackets::{matching, matching_tag, unmatched_forward};
use vim::buffer::{DelimitedRange, DisplayPoint, TextBuffer};
use vim::chars::{is_character_match, is_whitespace, to_ascii_lowercase, CharKind};
use vim::dispatch::{motion_plan, search_plan, Mode, MotionDispatch, OperatorKind, PendingOperator};
use vim::find::{find_backward, find_forward};
use vim::lines::{first_non_whitespace, sentence_backwards, sentence_forwards, start_of_next_sentence};
use vim::motion::{Motion, PointRange, Selection};
use vim::movement::{FindRange, SelectionGoal};
use vim::window::TextLayoutDetails;
use vim::words::{
    next_char, next_subword_end, next_subword_end_checked, next_subword_start, next_word_end,
    next_word_end_checked, next_word_start,
    previous_subword_end, previous_subword_start, previous_word_end, previous_word_start,
};

fn buffer(text: &str) -> TextBuffer {
    TextBuffer::new(text.chars().collect(), true, Vec::new())
}

fn insert_buffer(text: &str) -> TextBuffer {
    TextBuffer::new(text.chars().collect(), false, Vec::new())
}

fn pt(row: u32, column: u32) -> DisplayPoint {
    DisplayPoint::new(row, column)
}

fn details() -> TextLayoutDetails {
    TextLayoutDetails {
        first_visible_row: 0,
        visible_rows: Some(20),
        last_visible_row_offset: 19,
        vertical_scroll_margin: 3,
        vertical_scroll_margin_floor: 3,
    }
}

fn selection(start: DisplayPoint, end: DisplayPoint) -> Selection {
    Selection { id: 0, start, end, reversed: false, goal: SelectionGoal::NoGoal }
}

#[test]
fn buffer_lines_and_offsets() {
    let buf = buffer("ab\n\ncde");
    assert_eq!(buf.line_count_exec(), 3);
    assert_eq!(buf.line_len_exec(0), 2);
    assert_eq!(buf.line_len_exec(1), 0);
    assert_eq!(buf.line_len_exec(2), 3);
    assert_eq!(buf.max_point_exec(), pt(2, 3));
    assert_eq!(buf.to_offset(pt(2, 1)), 5);
    assert_eq!(buf.to_point(5), pt(2, 1));
    assert_eq!(buf.to_point(3), pt(1, 0));
    // round trip
    for o in 0..=buf.len_chars() {
        assert_eq!(buf.to_offset(buf.to_point(o)), o);
    }
}

#[test]
fn buffer_clipping() {
    let buf = buffer("ab\n\ncde");
    // past the end of a line, onto its last character
    assert_eq!(buf.clip_exec(pt(0, 2)), pt(0, 1));
    assert_eq!(buf.clip_exec(pt(0, 9)), pt(0, 1));
    // an empty line stays
    assert_eq!(buf.clip_exec(pt(1, 4)), pt(1, 0));
    // past the last row, onto the end of the text
    assert_eq!(buf.clip_exec(pt(9, 0)), pt(2, 2));
    // where the cursor may rest after the last character
    let buf = insert_buffer("ab\n\ncde");
    assert_eq!(buf.clip_exec(pt(0, 9)), pt(0, 2));
    assert_eq!(buf.clip_exec(pt(9, 0)), pt(2, 3));
    // clipping twice changes nothing
    assert_eq!(buf.clip_exec(buf.clip_exec(pt(7, 7))), buf.clip_exec(pt(7, 7)));
}

#[test]
fn buffer_rejects_malformed_syntax() {
    let ok = buffer("(a)").with_syntax(vec![DelimitedRange { open_start: 0, open_end: 1, close_start: 2, close_end: 3 }], Vec::new());
    assert!(ok.is_some());
    let past_end = buffer("(a)").with_syntax(vec![DelimitedRange { open_start: 0, open_end: 1, close_start: 2, close_end: 4 }], Vec::new());
    assert!(past_end.is_none());
    let reversed = buffer("(a)").with_syntax(Vec::new(), vec![DelimitedRange { open_start: 2, open_end: 3, close_start: 0, close_end: 1 }]);
    assert!(reversed.is_none());
}

#[test]
fn character_classes() {
    let buf = buffer("x");
    assert_eq!(buf.kind(false, 'a'), CharKind::Word);
    assert_eq!(buf.kind(false, '7'), CharKind::Word);
    assert_eq!(buf.kind(false, '_'), CharKind::Word);
    assert_eq!(buf.kind(false, 'é'), CharKind::Word);
    assert_eq!(buf.kind(false, '.'), CharKind::Punctuation);
    assert_eq!(buf.kind(true, '.'), CharKind::Word);
    assert_eq!(buf.kind(false, ' '), CharKind::Whitespace);
    assert_eq!(buf.kind(false, '\n'), CharKind::Whitespace);
    assert_eq!(buf.kind(false, '\u{3000}'), CharKind::Whitespace);
    let css = TextBuffer::new("a-b".chars().collect(), true, vec!['-', '$']);
    assert_eq!(css.kind(false, '-'), CharKind::Punctuation);
    assert_eq!(css.kind(true, '-'), CharKind::Word);
    assert_eq!(css.kind(false, '$'), CharKind::Word);
    assert!(is_whitespace('\t'));
    assert!(!is_whitespace('x'));
    for c in ['a', ' ', '\n', '\u{a0}', '\u{2009}', '-', 'Ж'] {
        assert_eq!(is_whitespace(c), c.is_whitespace(), "{:?}", c);
    }
}

#[test]
fn character_match_and_smartcase() {
    assert!(is_character_match('a', 'a', false));
    assert!(!is_character_match('a', 'A', false));
    assert!(is_character_match('a', 'A', true));
    assert!(!is_character_match('A', 'a', true));
    assert!(is_character_match('A', 'A', true));
    assert_eq!(to_ascii_lowercase('Q'), 'q');
    assert_eq!(to_ascii_lowercase('q'), 'q');
    assert_eq!(to_ascii_lowercase('Ä'), 'Ä');
}

#[test]
fn left_right_backspace_space() {
    let buf = buffer("abc\ndef");
    assert_eq!(left(&buf, pt(1, 2), 1), pt(1, 1));
    assert_eq!(left(&buf, pt(1, 2), 9), pt(1, 0));
    assert_eq!(right(&buf, pt(0, 0), 1), pt(0, 1));
    assert_eq!(right(&buf, pt(0, 0), 9), pt(0, 2));
    // h then l comes back
    assert_eq!(right(&buf, left(&buf, pt(1, 2), 2), 2), pt(1, 2));
    // backspace crosses line ends, space too
    assert_eq!(backspace(&buf, pt(1, 0), 1), pt(0, 2));
    assert_eq!(backspace(&buf, pt(1, 1), 10), pt(0, 0));
    assert_eq!(space(&buf, pt(0, 2), 1), pt(1, 0));
    assert_eq!(space(&buf, pt(0, 0), 100), pt(1, 2));
}

#[test]
fn up_and_down_keep_the_goal_column() {
    let buf = buffer("abcdef\nab\nabcdef");
    let (p, goal) = up_down_buffer_rows(&buf, pt(0, 4), SelectionGoal::NoGoal, 1);
    assert_eq!(p, pt(1, 1));
    assert_eq!(goal, SelectionGoal::WrappedHorizontalPosition(0, 4));
    let (p, _) = up_down_buffer_rows(&buf, p, goal, 1);
    assert_eq!(p, pt(2, 4));
    // down and back up returns to the start
    let (p, goal) = up_down_buffer_rows(&buf, pt(0, 3), SelectionGoal::NoGoal, 2);
    let (q, _) = up_down_buffer_rows(&buf, p, goal, -2);
    assert_eq!(q, pt(0, 3));
    // the rows are kept within the text
    let (p, _) = up_down_buffer_rows(&buf, pt(1, 0), SelectionGoal::NoGoal, -5);
    assert_eq!(p, pt(0, 0));
}

#[test]
fn word_motions() {
    let buf = buffer("foo.bar baz\n\nqux");
    assert_eq!(next_word_start(&buf, pt(0, 0), false, 1), pt(0, 3));
    assert_eq!(next_word_start(&buf, pt(0, 0), true, 1), pt(0, 8));
    assert_eq!(next_word_start(&buf, pt(0, 8), false, 1), pt(1, 0));
    assert_eq!(next_word_start(&buf, pt(0, 0), false, 3), pt(0, 8));
    assert_eq!(next_word_end(&buf, pt(0, 0), false, 1, true), pt(0, 2));
    assert_eq!(next_word_end(&buf, pt(0, 2), false, 1, true), pt(0, 3));
    assert_eq!(next_word_end(&buf, pt(0, 8), false, 1, true), pt(0, 10));
    // without crossing a line end, in a text that has an empty line
    assert_eq!(next_word_end(&buf, pt(0, 0), false, 1, false), pt(0, 2));
    assert_eq!(previous_word_start(&buf, pt(0, 8), false, 1), pt(0, 4));
    assert_eq!(previous_word_start(&buf, pt(0, 8), true, 1), pt(0, 0));
    assert_eq!(previous_word_start(&buf, pt(2, 1), false, 1), pt(2, 0));
    assert_eq!(previous_word_start(&buf, pt(2, 0), false, 1), pt(1, 0));
    // w moves forward, b moves back, on every count
    for n in 0..6 {
        let w = next_word_start(&buf, pt(0, 5), false, n);
        assert!(buf.to_offset(w) >= 5);
        let b = previous_word_start(&buf, pt(2, 2), false, n);
        assert!(buf.to_offset(b) <= buf.to_offset(pt(2, 2)));
        // ge moves back too
        let ge = previous_word_end(&buf, pt(2, 1), false, n);
        assert!(buf.to_offset(ge) <= buf.to_offset(pt(2, 1)));
    }
    assert_eq!(previous_word_end(&buf, pt(0, 9), false, 1), pt(0, 6));
}

#[test]
fn subword_motions() {
    let buf = buffer("fooBar_baz qux");
    assert_eq!(next_subword_start(&buf, pt(0, 0), false, 1), pt(0, 3));
    assert_eq!(next_subword_start(&buf, pt(0, 3), false, 1), pt(0, 7));
    assert_eq!(next_subword_end(&buf, pt(0, 0), false, 1, true), pt(0, 2));
    assert_eq!(next_subword_end(&buf, pt(0, 2), false, 1, true), pt(0, 5));
    assert_eq!(previous_subword_start(&buf, pt(0, 7), false, 1), pt(0, 3));
    assert_eq!(previous_subword_end(&buf, pt(0, 11), false, 1), pt(0, 9));
}

#[test]
fn next_char_stays_on_line_when_asked() {
    let buf = buffer("ab\ncd");
    assert_eq!(next_char(&buf, pt(0, 0), false), pt(0, 1));
    assert_eq!(next_char(&buf, pt(0, 1), false), pt(0, 1));
    assert_eq!(next_char(&buf, pt(0, 2), true), pt(1, 0));
}

#[test]
fn first_non_whitespace_of_lines() {
    let buf = buffer("   x\n   \nz");
    assert_eq!(first_non_whitespace(&buf, false, pt(0, 0)), pt(0, 3));
    // a blank line keeps the cursor
    assert_eq!(first_non_whitespace(&buf, false, pt(1, 2)), pt(1, 2));
}

#[test]
fn sentences() {
    let buf = buffer("One. Two three! Four\n\nFive.");
    assert_eq!(start_of_next_sentence(&buf, 4), Some(5));
    assert_eq!(start_of_next_sentence(&buf, 1), None);
    assert_eq!(sentence_forwards(&buf, pt(0, 0), 1), pt(0, 5));
    assert_eq!(sentence_forwards(&buf, pt(0, 0), 2), pt(0, 16));
    assert_eq!(sentence_forwards(&buf, pt(0, 16), 1), pt(1, 0));
    assert_eq!(sentence_backwards(&buf, pt(0, 18), 1), pt(0, 16));
    assert_eq!(sentence_backwards(&buf, pt(0, 18), 2), pt(0, 5));
    assert_eq!(sentence_backwards(&buf, pt(0, 2), 1), pt(0, 0));
}

#[test]
fn finds() {
    let buf = buffer("a,b,c");
    assert_eq!(find_forward(&buf, pt(0, 0), false, ',', 1, FindRange::SingleLine, false), Some(pt(0, 1)));
    assert_eq!(find_forward(&buf, pt(0, 0), false, ',', 2, FindRange::SingleLine, false), Some(pt(0, 3)));
    assert_eq!(find_forward(&buf, pt(0, 0), true, ',', 2, FindRange::SingleLine, false), Some(pt(0, 2)));
    assert_eq!(find_forward(&buf, pt(0, 0), false, 'x', 1, FindRange::SingleLine, false), None);
    assert_eq!(find_backward(&buf, pt(0, 4), false, ',', 1, FindRange::SingleLine, false), pt(0, 3));
    assert_eq!(find_backward(&buf, pt(0, 4), true, ',', 2, FindRange::SingleLine, false), pt(0, 2));
    assert_eq!(find_backward(&buf, pt(0, 4), false, 'x', 1, FindRange::SingleLine, false), pt(0, 4));
    // a single-line find stops at the line end, a multi-line one does not
    let buf = buffer("ab\ncd");
    assert_eq!(find_forward(&buf, pt(0, 0), false, 'c', 1, FindRange::SingleLine, false), None);
    assert_eq!(find_forward(&buf, pt(0, 0), false, 'c', 1, FindRange::MultiLine, false), Some(pt(1, 0)));
}

#[test]
fn matching_brackets_and_tags() {
    let pairs = vec![DelimitedRange { open_start: 1, open_end: 2, close_start: 4, close_end: 5 }];
    let buf = buffer("x(ab)y").with_syntax(pairs, Vec::new()).unwrap();
    assert_eq!(matching(&buf, pt(0, 1)), pt(0, 4));
    assert_eq!(matching(&buf, pt(0, 4)), pt(0, 1));
    // from before the pair, to the partner of the nearest bracket
    assert_eq!(matching(&buf, pt(0, 0)), pt(0, 4));
    // after the last bracket, the cursor stays
    assert_eq!(matching(&buf, pt(0, 5)), pt(0, 5));
    assert_eq!(unmatched_forward(&buf, pt(0, 2), ')', 1), pt(0, 4));
    assert_eq!(unmatched_forward(&buf, pt(0, 5), ')', 1), pt(0, 5));
    let elements = vec![DelimitedRange { open_start: 0, open_end: 3, close_start: 4, close_end: 8 }];
    let tags = buffer("<a>x</a>").with_syntax(Vec::new(), elements).unwrap();
    assert_eq!(matching_tag(&tags, pt(0, 1)), Some(pt(0, 5)));
    assert_eq!(matching_tag(&tags, pt(0, 5)), Some(pt(0, 1)));
    // an angle bracket pair elsewhere on the line does not get in the way
    let pairs = vec![
        DelimitedRange { open_start: 1, open_end: 2, close_start: 3, close_end: 4 },
        DelimitedRange { open_start: 5, open_end: 6, close_start: 7, close_end: 8 },
    ];
    let buf = buffer("a<b> {x}").with_syntax(pairs, Vec::new()).unwrap();
    assert_eq!(matching(&buf, pt(0, 5)), pt(0, 7));
    assert_eq!(matching(&buf, pt(0, 7)), pt(0, 5));
    // inside generics that are no tag, and with a pair listed twice
    let pairs = vec![
        DelimitedRange { open_start: 1, open_end: 2, close_start: 5, close_end: 6 },
        DelimitedRange { open_start: 2, open_end: 3, close_start: 4, close_end: 5 },
        DelimitedRange { open_start: 2, open_end: 3, close_start: 4, close_end: 5 },
    ];
    let buf = buffer("f<(a)>").with_syntax(pairs, Vec::new()).unwrap();
    assert_eq!(matching(&buf, pt(0, 2)), pt(0, 4));
    assert_eq!(matching(&buf, pt(0, 4)), pt(0, 2));
}

#[test]
fn move_point_fails_where_the_cursor_cannot_move() {
    let buf = buffer("abc");
    let d = details();
    assert_eq!(Motion::Left.move_point(&buf, pt(0, 0), SelectionGoal::NoGoal, None, &d), None);
    assert_eq!(
        Motion::Right.move_point(&buf, pt(0, 0), SelectionGoal::NoGoal, Some(2), &d),
        Some((pt(0, 2), SelectionGoal::NoGoal))
    );
    // infallible motions succeed in place
    assert_eq!(
        Motion::StartOfDocument.move_point(&buf, pt(0, 1), SelectionGoal::NoGoal, None, &d),
        Some((pt(0, 1), SelectionGoal::NoGoal))
    );
    // a jump to a mark, on its line
    let buf = buffer("a\n  b");
    let jump = Motion::Jump { anchor: pt(1, 0), line: true };
    assert_eq!(jump.move_point(&buf, pt(0, 0), SelectionGoal::NoGoal, None, &d), Some((pt(1, 2), SelectionGoal::NoGoal)));
    // a search result moves to the first new selection
    let search = Motion::ZedSearchResult {
        prior_selections: vec![PointRange { start: pt(0, 0), end: pt(0, 0) }],
        new_selections: vec![PointRange { start: pt(1, 2), end: pt(1, 3) }],
    };
    assert_eq!(search.move_point(&buf, pt(0, 0), SelectionGoal::NoGoal, None, &d), Some((pt(1, 2), SelectionGoal::NoGoal)));
    let empty = Motion::ZedSearchResult { prior_selections: vec![], new_selections: vec![] };
    assert_eq!(empty.move_point(&buf, pt(0, 0), SelectionGoal::NoGoal, None, &d), None);
    // a repeat of something that is not a find does nothing
    let repeat = Motion::RepeatFind { last_find: Box::new(Motion::Left) };
    assert_eq!(repeat.move_point(&buf, pt(0, 0), SelectionGoal::NoGoal, None, &d), None);
}

#[test]
fn motion_kinds() {
    assert!(Motion::Down { display_lines: false }.linewise());
    assert!(!Motion::Left.linewise());
    assert!(Motion::Jump { anchor: pt(0, 0), line: true }.linewise());
    assert!(!Motion::Jump { anchor: pt(0, 0), line: false }.linewise());
    assert!(Motion::CurrentLine.infallible());
    assert!(!Motion::Matching.infallible());
    assert!(Motion::EndOfLine { display_lines: false }.inclusive());
    assert!(!Motion::NextWordStart { ignore_punctuation: false }.inclusive());
    let t = Motion::FindForward { before: true, char: 'x', mode: FindRange::SingleLine, smartcase: false };
    assert!(Motion::RepeatFind { last_find: Box::new(t) }.inclusive());
    let tb = Motion::FindBackward { after: true, char: 'x', mode: FindRange::SingleLine, smartcase: false };
    assert!(!Motion::RepeatFindReversed { last_find: Box::new(tb) }.inclusive());
}

#[test]
fn operator_ranges() {
    let d = details();
    // "dw" on the last word of a line stops at the end of that line
    let buf = buffer("one two\nthree");
    let r = Motion::NextWordStart { ignore_punctuation: false }.range(&buf, selection(pt(0, 4), pt(0, 4)), None, false, &d);
    assert_eq!(r, Some(PointRange { start: pt(0, 4), end: pt(0, 7) }));
    // "de" takes in the last character of the word
    let r = Motion::NextWordEnd { ignore_punctuation: false }.range(&buf, selection(pt(0, 0), pt(0, 0)), None, false, &d);
    assert_eq!(r, Some(PointRange { start: pt(0, 0), end: pt(0, 3) }));
    // "d}" does not take the line after the paragraph: it ends at the end
    // of the paragraph's last line, with or without the surrounding newline
    let para = insert_buffer("abc\ndef\n\nghi");
    for expand in [false, true] {
        let r = Motion::EndOfParagraph.range(&para, selection(pt(0, 0), pt(0, 0)), None, expand, &d);
        assert_eq!(r, Some(PointRange { start: pt(0, 0), end: pt(1, 3) }));
        let r = Motion::EndOfParagraph.range(&para, selection(pt(0, 1), pt(0, 1)), None, expand, &d);
        assert_eq!(r, Some(PointRange { start: pt(0, 1), end: pt(1, 3) }));
    }
    let buf = buffer("ab\ncd\n\nef");
    // "dj" takes whole lines, and the newline after them when asked
    let r = Motion::Down { display_lines: false }.range(&buf, selection(pt(0, 1), pt(0, 1)), None, false, &d);
    assert_eq!(r, Some(PointRange { start: pt(0, 0), end: pt(1, 2) }));
    let r = Motion::Down { display_lines: false }.range(&buf, selection(pt(0, 1), pt(0, 1)), None, true, &d);
    assert_eq!(r, Some(PointRange { start: pt(0, 0), end: pt(2, 0) }));
    // an exclusive motion that ends at the start of a later line stops at the
    // end of the line before it (operators run without clipping at line ends)
    let unclipped = insert_buffer("ab\ncd\n\nef");
    let r = Motion::Space.range(&unclipped, selection(pt(0, 0), pt(0, 0)), Some(2), false, &d);
    assert_eq!(r, Some(PointRange { start: pt(0, 0), end: pt(0, 2) }));
    // with clipping at line ends that end is the last character of the line
    let r = Motion::Space.range(&buf, selection(pt(0, 0), pt(0, 0)), Some(2), false, &d);
    assert_eq!(r, Some(PointRange { start: pt(0, 0), end: pt(0, 1) }));
    // a search result: from the earlier to the later end
    let search = Motion::ZedSearchResult {
        prior_selections: vec![PointRange { start: pt(1, 1), end: pt(1, 1) }],
        new_selections: vec![PointRange { start: pt(0, 0), end: pt(0, 1) }],
    };
    assert_eq!(search.range(&buf, selection(pt(1, 1), pt(1, 1)), None, false, &d), Some(PointRange { start: pt(0, 0), end: pt(1, 1) }));
    // a motion that fails gives nothing, and leaves the selection alone
    let mut sel = selection(pt(0, 0), pt(0, 0));
    assert!(!Motion::Left.expand_selection(&buf, &mut sel, None, false, &d));
    assert_eq!(sel, selection(pt(0, 0), pt(0, 0)));
    let mut sel = selection(pt(0, 0), pt(0, 0));
    assert!(Motion::Right.expand_selection(&buf, &mut sel, None, false, &d));
    assert_eq!((sel.start, sel.end), (pt(0, 0), pt(0, 1)));
}

#[test]
fn selection_heads() {
    let mut sel = selection(pt(0, 2), pt(0, 4));
    sel.set_head(pt(0, 0), SelectionGoal::NoGoal);
    assert_eq!((sel.start, sel.end, sel.reversed), (pt(0, 0), pt(0, 2), true));
    assert_eq!(sel.head(), pt(0, 0));
    sel.set_head(pt(1, 0), SelectionGoal::HorizontalPosition(3));
    assert_eq!((sel.start, sel.end, sel.reversed), (pt(0, 2), pt(1, 0), false));
    assert_eq!(sel.goal, SelectionGoal::HorizontalPosition(3));
}

#[test]
fn actions_name_motions() {
    assert!(matches!(
        motion_for_action(Action::StartOfLine(StartOfLine { display_lines: true }), None),
        Some(Motion::StartOfLine { display_lines: true })
    ));
    assert!(motion_for_action(Action::RepeatFind, None).is_none());
    let f = Motion::FindForward { before: false, char: 'x', mode: FindRange::SingleLine, smartcase: false };
    match motion_for_action(Action::RepeatFindReversed, Some(f)) {
        Some(Motion::RepeatFindReversed { last_find }) => {
            assert!(matches!(*last_find, Motion::FindForward { char: 'x', .. }))
        }
        other => panic!("unexpected {:?}", other),
    }
    assert!(matches!(motion_for_action(Action::WindowBottom, None), Some(Motion::WindowBottom)));
}

#[test]
fn motion_dispatch() {
    let plan = motion_plan(Mode::Normal, &vec![OperatorKind::Other, OperatorKind::FindForward], Some(2));
    assert!(plan.pop_find);
    assert_eq!(plan.dispatch, MotionDispatch::Normal { operator: Some(OperatorKind::Other) });
    assert_eq!(plan.push_again, None);
    // a motion typed while `ys` waits becomes its target; `ys` comes back
    // with the motion and the count
    let plan = motion_plan(Mode::Insert, &vec![OperatorKind::AddSurrounds { has_target: false }], Some(3));
    assert_eq!(plan.dispatch, MotionDispatch::SurroundTarget);
    assert_eq!(
        plan.push_again,
        Some(PendingOperator { operator: OperatorKind::AddSurrounds { has_target: true }, pre_count: Some(3) })
    );
    let plan = motion_plan(Mode::VisualLine, &vec![], None);
    assert_eq!(plan.dispatch, MotionDispatch::Visual);
    assert!(!plan.pop_find);
    assert_eq!(plan.push_again, None);
    let search = Motion::ZedSearchResult {
        prior_selections: vec![PointRange { start: pt(0, 0), end: pt(0, 1) }],
        new_selections: vec![],
    };
    let plan = search_plan(&search, Mode::Visual, false);
    assert!(plan.restore_prior_selections && plan.run_motion);
    let plan = search_plan(&search, Mode::Normal, false);
    assert!(!plan.run_motion);
    let plan = search_plan(&search, Mode::Normal, true);
    assert!(plan.run_motion && !plan.restore_prior_selections);
    let plan = search_plan(&Motion::Left, Mode::Normal, false);
    assert!(plan.run_motion);
}

#[test]
fn window_top_compares_the_count_with_the_margin_rounded_down() {
    let buf = buffer("a\nb\nc\nd\ne\nf\ng\nh\ni\nj");
    let layout = |floor: u32, ceil: u32| TextLayoutDetails {
        first_visible_row: 1,
        visible_rows: Some(8),
        last_visible_row_offset: 7,
        vertical_scroll_margin: ceil,
        vertical_scroll_margin_floor: floor,
    };
    // a margin of 2.5 and `3H` (two rows below the top): the count stays
    let r = Motion::WindowTop.move_point(&buf, pt(5, 0), SelectionGoal::NoGoal, Some(3), &layout(2, 3));
    assert_eq!(r.map(|(p, _)| p), Some(pt(3, 0)));
    // a margin of 3: the count becomes the margin
    let r = Motion::WindowTop.move_point(&buf, pt(5, 0), SelectionGoal::NoGoal, Some(3), &layout(3, 3));
    assert_eq!(r.map(|(p, _)| p), Some(pt(4, 0)));
}

#[test]
fn motions_clone_and_counts() {
    let f = Motion::FindForward { before: true, char: 'x', mode: FindRange::SingleLine, smartcase: true };
    let repeat = Motion::RepeatFind { last_find: Box::new(f) };
    match repeat.clone() {
        Motion::RepeatFind { last_find } => assert!(matches!(
            *last_find,
            Motion::FindForward { before: true, char: 'x', mode: FindRange::SingleLine, smartcase: true }
        )),
        other => panic!("unexpected {:?}", other),
    }
    // no count moves as a count of one
    let buf = buffer("one two three");
    let d = details();
    let w = Motion::NextWordStart { ignore_punctuation: false };
    assert_eq!(
        w.move_point(&buf, pt(0, 0), SelectionGoal::NoGoal, None, &d),
        w.move_point(&buf, pt(0, 0), SelectionGoal::NoGoal, Some(1), &d)
    );
    // every character matches itself; smartcase only adds matches
    for c in ['a', 'Z', '7', ' ', 'é', 'Ж'] {
        assert!(is_character_match(c, c, false));
        assert!(is_character_match(c, c, true));
    }
    assert!(is_character_match('a', 'A', true));
    assert!(!is_character_match('a', 'A', false));
}

#[test]
fn word_end_without_crossing_lines_is_checked() {
    let buf = insert_buffer("ab\n\ncd");
    // two steps end on the empty line; a third would start there
    let two = next_word_end_checked(&buf, pt(0, 0), false, 2, false);
    assert_eq!(two, Some(pt(1, 0)));
    assert_eq!(two, Some(next_word_end(&buf, pt(0, 0), false, 2, false)));
    assert_eq!(next_word_end_checked(&buf, pt(0, 0), false, 3, false), None);
    assert_eq!(next_subword_end_checked(&buf, pt(1, 0), false, 1, false), None);
    // crossing lines, every count is defined
    assert_eq!(
        next_word_end_checked(&buf, pt(0, 0), false, 3, true),
        Some(next_word_end(&buf, pt(0, 0), false, 3, true))
    );
    assert_eq!(
        next_subword_end_checked(&buf, pt(0, 0), false, 1, false),
        Some(next_subword_end(&buf, pt(0, 0), false, 1, false))
    );
}
