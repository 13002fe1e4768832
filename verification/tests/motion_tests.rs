use vim::buffer::{DelimitedRange, DisplayPoint, TextBuffer};
use vim::motion::Motion;
use vim::movement::{FindRange, SelectionGoal};
use vim::window::TextLayoutDetails;

/// Splits a text with a cursor marked by `ˇ` into the text and the cursor.
fn marked(text: &str) -> (Vec<char>, DisplayPoint) {
    let mut chars = Vec::new();
    let mut row = 0u32;
    let mut column = 0u32;
    let mut cursor = None;
    for c in text.chars() {
        if c == 'ˇ' {
            cursor = Some(DisplayPoint::new(row, column));
            continue;
        }
        chars.push(c);
        if c == '\n' {
            row += 1;
            column = 0;
        } else {
            column += 1;
        }
    }
    (chars, cursor.expect("text without a cursor"))
}

fn normal_buffer(text: &str) -> (TextBuffer, DisplayPoint) {
    let (chars, cursor) = marked(text);
    (TextBuffer::new(chars, true, Vec::new()), cursor)
}

fn layout(first_visible_row: u32, visible_rows: Option<u32>) -> TextLayoutDetails {
    TextLayoutDetails {
        first_visible_row,
        visible_rows,
        last_visible_row_offset: visible_rows.map(|v| v.saturating_sub(1)).unwrap_or(0),
        vertical_scroll_margin: 3,
        vertical_scroll_margin_floor: 3,
    }
}

/// Moves the cursor as a motion typed in normal mode does.
fn run(motion: &Motion, buf: &TextBuffer, cursor: DisplayPoint, times: Option<usize>) -> DisplayPoint {
    run_in(motion, buf, cursor, times, &layout(0, Some(40)))
}

fn run_in(
    motion: &Motion,
    buf: &TextBuffer,
    cursor: DisplayPoint,
    times: Option<usize>,
    details: &TextLayoutDetails,
) -> DisplayPoint {
    match motion.move_point(buf, cursor, SelectionGoal::NoGoal, times, details) {
        Some((point, _)) => point,
        None => cursor,
    }
}

fn check(buf_text: &str, expected: &str, motion: &Motion, times: Option<usize>) {
    let (buf, cursor) = normal_buffer(buf_text);
    let (expected_chars, expected_cursor) = marked(expected);
    let (chars, _) = marked(buf_text);
    assert_eq!(chars, expected_chars);
    assert_eq!(run(motion, &buf, cursor, times), expected_cursor, "{:?} on {:?}", motion, buf_text);
}

fn pair(open_start: usize, open_end: usize, close_start: usize, close_end: usize) -> DelimitedRange {
    DelimitedRange { open_start, open_end, close_start, close_end }
}

/// The single-character bracket pairs `()`, `[]`, `{}` of a text, in the
/// order of their opening brackets.
fn bracket_pairs(chars: &[char]) -> Vec<DelimitedRange> {
    let mut stack = Vec::new();
    let mut pairs = Vec::new();
    for (i, c) in chars.iter().enumerate() {
        match c {
            '(' | '[' | '{' => stack.push(i),
            ')' | ']' | '}' => {
                let open = stack.pop().expect("unbalanced brackets");
                pairs.push(pair(open, open + 1, i, i + 1));
            }
            _ => {}
        }
    }
    pairs.sort_by_key(|p| p.open_start);
    pairs
}

fn code_buffer(text: &str) -> (TextBuffer, DisplayPoint) {
    let (chars, cursor) = marked(text);
    let pairs = bracket_pairs(&chars);
    let buf = TextBuffer::new(chars, true, Vec::new()).with_syntax(pairs, Vec::new()).unwrap();
    (buf, cursor)
}

fn check_code(text: &str, expected: &str, motion: &Motion) {
    let (buf, cursor) = code_buffer(text);
    let (_, expected_cursor) = marked(expected);
    assert_eq!(run(motion, &buf, cursor, None), expected_cursor, "{:?} on {:?}", motion, text);
}

#[test]
fn test_start_end_of_paragraph() {
    let initial = "ˇabc\ndef\n\nparagraph\nthe second\n\n\n\nthird and\nfinal";
    let (buf, cursor) = normal_buffer(initial);
    // goes down once
    let p = run(&Motion::EndOfParagraph, &buf, cursor, None);
    assert_eq!(p, marked("abc\ndef\nˇ\nparagraph\nthe second\n\n\n\nthird and\nfinal").1);
    // goes up once
    let p = run(&Motion::StartOfParagraph, &buf, p, None);
    assert_eq!(p, cursor);
    // goes down twice
    let p = run(&Motion::EndOfParagraph, &buf, p, Some(2));
    assert_eq!(p, marked("abc\ndef\n\nparagraph\nthe second\nˇ\n\n\nthird and\nfinal").1);
    // goes down over multiple blanks
    let p = run(&Motion::EndOfParagraph, &buf, p, None);
    assert_eq!(p, marked("abc\ndef\n\nparagraph\nthe second\n\n\n\nthird and\nfinaˇl").1);
    // goes up twice
    let p = run(&Motion::StartOfParagraph, &buf, p, Some(2));
    assert_eq!(p, marked("abc\ndef\nˇ\nparagraph\nthe second\n\n\n\nthird and\nfinal").1);
}

#[test]
fn test_matching() {
    check_code(
        "func ˇ(a string) {\n    do(something(with<Types>.and_arrays[0, 2]))\n}",
        "func (a stringˇ) {\n    do(something(with<Types>.and_arrays[0, 2]))\n}",
        &Motion::Matching,
    );
    // it works on the last character of the line
    check_code(
        "func (a string) ˇ{\ndo(something(with<Types>.and_arrays[0, 2]))\n}",
        "func (a string) {\ndo(something(with<Types>.and_arrays[0, 2]))\nˇ}",
        &Motion::Matching,
    );
    // it works on immediate nesting, both ways
    check_code("ˇ{()}", "{()ˇ}", &Motion::Matching);
    check_code("{()ˇ}", "ˇ{()}", &Motion::Matching);
    // it works on immediate nesting inside braces
    check_code("{\n    ˇ{()}\n}", "{\n    {()ˇ}\n}", &Motion::Matching);
    // it jumps to the next paren on a line
    check_code("func ˇboop() {\n}", "func boop(ˇ) {\n}", &Motion::Matching);
}

#[test]
fn test_unmatched_forward() {
    let curly = Motion::UnmatchedForward { char: '}' };
    let paren = Motion::UnmatchedForward { char: ')' };
    check_code(
        "func (a string) {\n    do(something(with<Types>.anˇd_arrays[0, 2]))\n}",
        "func (a string) {\n    do(something(with<Types>.and_arrays[0, 2]))\nˇ}",
        &curly,
    );
    check_code(
        "func (a string) {\n    do(somethiˇng(with<Types>.and_arrays[0, 2]))\n}",
        "func (a string) {\n    do(something(with<Types>.and_arrays[0, 2])ˇ)\n}",
        &paren,
    );
    check_code("func (a string) { a((b, cˇ))}", "func (a string) { a((b, c)ˇ)}", &paren);
    check_code("{ˇ {}{}}", "{ {}{}ˇ}", &curly);
    check_code("(ˇ ()())", "( ()()ˇ)", &paren);
    check_code("{\n    ˇ {()}\n}", "{\n     {()}\nˇ}", &curly);
    check_code("(\n    ˇ {()}\n)", "(\n     {()}\nˇ)", &paren);
}

#[test]
fn test_unmatched_backward() {
    let curly = Motion::UnmatchedBackward { char: '{' };
    let paren = Motion::UnmatchedBackward { char: '(' };
    check_code(
        "func (a string) {\n    do(something(with<Types>.anˇd_arrays[0, 2]))\n}",
        "func (a string) ˇ{\n    do(something(with<Types>.and_arrays[0, 2]))\n}",
        &curly,
    );
    check_code(
        "func (a string) {\n    do(somethiˇng(with<Types>.and_arrays[0, 2]))\n}",
        "func (a string) {\n    doˇ(something(with<Types>.and_arrays[0, 2]))\n}",
        &paren,
    );
    check_code("{{}{} ˇ }", "ˇ{{}{}  }", &curly);
    check_code("(()() ˇ )", "ˇ(()()  )", &paren);
    check_code("{\n    {()} ˇ\n}", "ˇ{\n    {()} \n}", &curly);
    check_code("(\n    {()} ˇ\n)", "ˇ(\n    {()} \n)", &paren);
}

/// A markup buffer: the bracket pairs are the tags' delimiters (`<`, `</`,
/// `>`, `/>`) and quotes; the elements are given by their tags.
fn markup_buffer(
    text: &str,
    brackets: Vec<DelimitedRange>,
    elements: Vec<DelimitedRange>,
) -> (TextBuffer, DisplayPoint) {
    let (chars, cursor) = marked(text);
    let buf = TextBuffer::new(chars, true, Vec::new()).with_syntax(brackets, elements).unwrap();
    (buf, cursor)
}

#[test]
fn test_matching_tags() {
    // <body></body>
    let brackets = vec![pair(0, 1, 5, 6), pair(6, 8, 12, 13)];
    let elements = vec![pair(0, 6, 6, 13)];
    let (buf, cursor) = markup_buffer("<bˇody></body>", brackets, elements);
    let p = run(&Motion::Matching, &buf, cursor, None);
    assert_eq!(p, marked("<body><ˇ/body>").1);
    // jumping backwards
    let p = run(&Motion::Matching, &buf, p, None);
    assert_eq!(p, marked("<ˇbody></body>").1);

    // self-closing tags
    let brackets = vec![pair(0, 1, 2, 3), pair(3, 4, 6, 8), pair(8, 10, 11, 12)];
    let elements = vec![pair(0, 3, 8, 12)];
    let (buf, cursor) = markup_buffer("<a><bˇr/></a>", brackets, elements);
    assert_eq!(run(&Motion::Matching, &buf, cursor, None), cursor);

    // a tag with attributes
    let text = "<div class='test' ˇid='main'>\n</div>\n";
    let brackets = vec![pair(0, 1, 27, 28), pair(11, 12, 16, 17), pair(21, 22, 26, 27), pair(29, 31, 34, 35)];
    let elements = vec![pair(0, 28, 29, 35)];
    let (buf, cursor) = markup_buffer(text, brackets, elements);
    assert_eq!(
        run(&Motion::Matching, &buf, cursor, None),
        marked("<div class='test' id='main'>\n<ˇ/div>\n").1
    );

    // a self-closing tag over several lines
    let text = "<a>\n    <br\n        test = \"test\"\n    /ˇ>\n</a>";
    let (chars, cursor) = marked(text);
    let br_open = 8;
    let slash = chars.iter().position(|c| *c == '/').unwrap();
    let quote1 = chars.iter().position(|c| *c == '"').unwrap();
    let brackets = vec![
        pair(0, 1, 2, 3),
        pair(br_open, br_open + 1, slash, slash + 2),
        pair(quote1, quote1 + 1, quote1 + 5, quote1 + 6),
        pair(slash + 3, slash + 5, slash + 6, slash + 7),
    ];
    let elements = vec![pair(0, 3, slash + 3, slash + 7)];
    let buf = TextBuffer::new(chars, true, Vec::new()).with_syntax(brackets, elements).unwrap();
    assert_eq!(
        run(&Motion::Matching, &buf, cursor, None),
        marked("<a>\n    ˇ<br\n        test = \"test\"\n    />\n</a>").1
    );
}

fn find_forward(before: bool, char: char) -> Motion {
    Motion::FindForward { before, char, mode: FindRange::SingleLine, smartcase: false }
}

fn find_backward(after: bool, char: char) -> Motion {
    Motion::FindBackward { after, char, mode: FindRange::SingleLine, smartcase: false }
}

fn repeat(last: Motion) -> Motion {
    Motion::RepeatFind { last_find: Box::new(last) }
}

fn repeat_reversed(last: Motion) -> Motion {
    Motion::RepeatFindReversed { last_find: Box::new(last) }
}

#[test]
fn test_comma_semicolon() {
    let (buf, cursor) = normal_buffer("ˇone two three four");
    let at = |s: &str| marked(s).1;

    // f and F
    let p = run(&find_forward(false, 'o'), &buf, cursor, None);
    assert_eq!(p, at("one twˇo three four"));
    let p = run(&repeat_reversed(find_forward(false, 'o')), &buf, p, None);
    assert_eq!(p, at("ˇone two three four"));
    let p = run(&repeat(find_forward(false, 'o')), &buf, p, Some(2));
    assert_eq!(p, at("one two three fˇour"));
    let p = run(&find_backward(false, 'e'), &buf, p, None);
    assert_eq!(p, at("one two threˇe four"));
    let p = run(&repeat(find_backward(false, 'e')), &buf, p, Some(2));
    assert_eq!(p, at("onˇe two three four"));
    let p = run(&repeat_reversed(find_backward(false, 'e')), &buf, p, None);
    assert_eq!(p, at("one two thrˇee four"));

    // t and T
    let p = run(&find_forward(true, 'o'), &buf, cursor, None);
    assert_eq!(p, at("one tˇwo three four"));
    let p = run(&repeat_reversed(find_forward(true, 'o')), &buf, p, None);
    assert_eq!(p, at("oˇne two three four"));
    let p = run(&repeat(find_forward(true, 'o')), &buf, p, Some(2));
    assert_eq!(p, at("one two three ˇfour"));
    let p = run(&find_backward(true, 'e'), &buf, p, None);
    assert_eq!(p, at("one two threeˇ four"));
    let p = run(&repeat(find_backward(true, 'e')), &buf, p, Some(3));
    assert_eq!(p, at("oneˇ two three four"));
    let p = run(&repeat_reversed(find_backward(true, 'e')), &buf, p, None);
    assert_eq!(p, at("one two thˇree four"));
}

#[test]
fn test_next_word_end_newline_last_char() {
    check("something(ˇfoo)", "something(fooˇ)", &Motion::EndOfParagraph, None);
}

#[test]
fn test_next_line_start() {
    check("ˇone\n  two\nthree", "one\n  ˇtwo\nthree", &Motion::NextLineStart, None);
}

#[test]
fn test_end_of_line_downward() {
    check("ˇ one\n two \nthree", " onˇe\n two \nthree", &Motion::EndOfLineDownward, None);
    check("ˇ one \n two \nthree", " onˇe \n two \nthree", &Motion::EndOfLineDownward, None);
    check(" onˇe \n two \nthree", " one \n twˇo \nthree", &Motion::EndOfLineDownward, Some(2));
}

#[test]
fn test_window_top() {
    let whole = layout(0, Some(40));
    let (buf, cursor) = normal_buffer("abc\ndef\nparagraph\nthe second\nthird ˇand\nfinal");
    assert_eq!(
        run_in(&Motion::WindowTop, &buf, cursor, None, &whole),
        marked("abˇc\ndef\nparagraph\nthe second\nthird and\nfinal").1
    );
    // clip point
    let (buf, cursor) = normal_buffer("1 2 3\n4 5 6\n7 8 ˇ9\n");
    assert_eq!(run_in(&Motion::WindowTop, &buf, cursor, None, &whole), marked("1 2 ˇ3\n4 5 6\n7 8 9\n").1);
    let (buf, cursor) = normal_buffer("1 2 3\n4 5 6\nˇ7 8 9\n");
    assert_eq!(run_in(&Motion::WindowTop, &buf, cursor, None, &whole), marked("ˇ1 2 3\n4 5 6\n7 8 9\n").1);
    let (buf, cursor) = normal_buffer("1 2 3\n4 5 ˇ6\n7 8 9");
    assert_eq!(run_in(&Motion::WindowTop, &buf, cursor, Some(9), &whole), marked("1 2 3\n4 5 6\n7 8 ˇ9").1);
}

#[test]
fn test_window_middle() {
    let whole = layout(0, Some(40));
    let (buf, cursor) = normal_buffer("abˇc\ndef\nparagraph\nthe second\nthird and\nfinal");
    assert_eq!(
        run_in(&Motion::WindowMiddle, &buf, cursor, None, &whole),
        marked("abc\ndef\npaˇragraph\nthe second\nthird and\nfinal").1
    );
    let (buf, cursor) = normal_buffer("1 2 3\n4 5 6\n7 8 ˇ9\n");
    assert_eq!(run_in(&Motion::WindowMiddle, &buf, cursor, None, &whole), marked("1 2 3\n4 5 ˇ6\n7 8 9\n").1);
    let (buf, cursor) = normal_buffer("1 2 3\n4 5 6\nˇ7 8 9\n");
    assert_eq!(run_in(&Motion::WindowMiddle, &buf, cursor, None, &whole), marked("1 2 3\nˇ4 5 6\n7 8 9\n").1);
    let (buf, cursor) = normal_buffer("ˇ1 2 3\n4 5 6\n7 8 9\n");
    assert_eq!(run_in(&Motion::WindowMiddle, &buf, cursor, None, &whole), marked("1 2 3\nˇ4 5 6\n7 8 9\n").1);
    let (buf, cursor) = normal_buffer("1 2 3\nˇ4 5 6\n7 8 9\n");
    assert_eq!(run_in(&Motion::WindowMiddle, &buf, cursor, None, &whole), marked("1 2 3\nˇ4 5 6\n7 8 9\n").1);
    let (buf, cursor) = normal_buffer("1 2 3\n4 5 ˇ6\n7 8 9\n");
    assert_eq!(run_in(&Motion::WindowMiddle, &buf, cursor, None, &whole), marked("1 2 3\n4 5 ˇ6\n7 8 9\n").1);
}

#[test]
fn test_window_bottom() {
    let whole = layout(0, Some(40));
    let (buf, cursor) = normal_buffer("abc\ndeˇf\nparagraph\nthe second\nthird and\nfinal");
    assert_eq!(
        run_in(&Motion::WindowBottom, &buf, cursor, None, &whole),
        marked("abc\ndef\nparagraph\nthe second\nthird and\nfiˇnal").1
    );
    let bottom = marked("1 2 3\n4 5 6\n7 8 9\nˇ").1;
    for text in ["1 2 3\n4 5 ˇ6\n7 8 9\n", "1 2 3\nˇ4 5 6\n7 8 9\n", "1 2 ˇ3\n4 5 6\n7 8 9\n", "ˇ1 2 3\n4 5 6\n7 8 9\n"] {
        let (buf, cursor) = normal_buffer(text);
        assert_eq!(run_in(&Motion::WindowBottom, &buf, cursor, None, &whole), bottom, "{:?}", text);
    }
    let (buf, cursor) = normal_buffer("1 2 3\n4 5 ˇ6\n7 8 9\n");
    assert_eq!(
        run_in(&Motion::WindowBottom, &buf, cursor, Some(9), &whole),
        marked("1 2 ˇ3\n4 5 6\n7 8 9\n").1
    );
}

#[test]
fn test_previous_word_end() {
    let ge = Motion::PreviousWordEnd { ignore_punctuation: false };
    check("456 5ˇ67 678\n", "45ˇ6 567 678\n", &ge, None);
    // times
    check("123 234 345\n456 5ˇ67 678\n", "12ˇ3 234 345\n456 567 678\n", &ge, Some(4));
    // with punctuation
    check("123 234 345\n4;5.6 5ˇ67 678\n789 890 901\n", "123 234 345\n4;5.ˇ6 567 678\n789 890 901\n", &ge, None);
    // with punctuation and count
    check("123 234 345\n4;5.6 5ˇ67 678\n789 890 901\n", "123 234 345\nˇ4;5.6 567 678\n789 890 901\n", &ge, Some(5));
    // newlines
    let (buf, cursor) = normal_buffer("123 234 345\n\n78ˇ9 890 901\n");
    let p = run(&ge, &buf, cursor, None);
    assert_eq!(p, marked("123 234 345\nˇ\n789 890 901\n").1);
    let p = run(&ge, &buf, p, None);
    assert_eq!(p, marked("123 234 34ˇ5\n\n789 890 901\n").1);
    // ignoring punctuation
    check(
        "123 234 345\n4;5.ˇ6 567 678\n789 890 901\n",
        "123 234 34ˇ5\n4;5.6 567 678\n789 890 901\n",
        &Motion::PreviousWordEnd { ignore_punctuation: true },
        None,
    );
}

#[test]
fn test_visual_match_eol() {
    // in visual mode the cursor may rest after the last character of a line
    let (chars, cursor) = marked("fn aˇ() {\n  return\n}\n");
    let pairs = bracket_pairs(&chars);
    let buf = TextBuffer::new(chars, false, Vec::new()).with_syntax(pairs, Vec::new()).unwrap();
    // `$` goes past the `{` at the end of the line
    let eol = run(&Motion::EndOfLine { display_lines: false }, &buf, cursor, None);
    assert_eq!(eol, DisplayPoint::new(0, 8));
    // `%` from there matches that `{` with the closing `}`
    let matched = run(&Motion::Matching, &buf, eol, None);
    assert_eq!(matched, DisplayPoint::new(2, 0));
}
