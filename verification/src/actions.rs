//! The actions that key bindings name, and the motion each one runs.

use vstd::prelude::*;

use crate::motion::Motion;

verus! {

/// `0` and `g0`: to the start of the line, or of the display line.
#[derive(Clone, Copy, Debug, PartialEq, Eq, Structural)]
pub struct StartOfLine {
    pub display_lines: bool,
}

/// An action bound to a key, with its arguments.
#[derive(Clone, Copy, Debug, PartialEq, Eq, Structural)]
pub enum Action {
    Left,
    Backspace,
    Down { display_lines: bool },
    Up { display_lines: bool },
    Right,
    Space,
    FirstNonWhitespace { display_lines: bool },
    StartOfLine(StartOfLine),
    EndOfLine { display_lines: bool },
    CurrentLine,
    StartOfParagraph,
    EndOfParagraph,
    SentenceForward,
    SentenceBackward,
    StartOfDocument,
    EndOfDocument,
    Matching,
    UnmatchedForward { char: char },
    UnmatchedBackward { char: char },
    NextWordStart { ignore_punctuation: bool },
    NextWordEnd { ignore_punctuation: bool },
    PreviousWordStart { ignore_punctuation: bool },
    PreviousWordEnd { ignore_punctuation: bool },
    NextSubwordStart { ignore_punctuation: bool },
    NextSubwordEnd { ignore_punctuation: bool },
    PreviousSubwordStart { ignore_punctuation: bool },
    PreviousSubwordEnd { ignore_punctuation: bool },
    NextLineStart,
    PreviousLineStart,
    StartOfLineDownward,
    EndOfLineDownward,
    GoToColumn,
    RepeatFind,
    RepeatFindReversed,
    WindowTop,
    WindowMiddle,
    WindowBottom,
}

/// The motion an action runs: the motion of the same name with the same
/// arguments; for the repeat actions, a repeat of the last find, and
/// nothing when there has been none.
pub open spec fn motion_for_action_of(action: Action, last_find: Option<Motion>) -> Option<Motion> {
    match action {
        Action::RepeatFind => match last_find {
            Some(f) => Some(Motion::RepeatFind { last_find: Box::new(f) }),
            None => None,
        },
        Action::RepeatFindReversed => match last_find {
            Some(f) => Some(Motion::RepeatFindReversed { last_find: Box::new(f) }),
            None => None,
        },
        Action::Left => Some(Motion::Left),
        Action::Backspace => Some(Motion::Backspace),
        Action::Down { display_lines } => Some(Motion::Down { display_lines }),
        Action::Up { display_lines } => Some(Motion::Up { display_lines }),
        Action::Right => Some(Motion::Right),
        Action::Space => Some(Motion::Space),
        Action::FirstNonWhitespace { display_lines } => Some(Motion::FirstNonWhitespace { display_lines }),
        Action::StartOfLine(a) => Some(Motion::StartOfLine { display_lines: a.display_lines }),
        Action::EndOfLine { display_lines } => Some(Motion::EndOfLine { display_lines }),
        Action::CurrentLine => Some(Motion::CurrentLine),
        Action::StartOfParagraph => Some(Motion::StartOfParagraph),
        Action::EndOfParagraph => Some(Motion::EndOfParagraph),
        Action::SentenceForward => Some(Motion::SentenceForward),
        Action::SentenceBackward => Some(Motion::SentenceBackward),
        Action::StartOfDocument => Some(Motion::StartOfDocument),
        Action::EndOfDocument => Some(Motion::EndOfDocument),
        Action::Matching => Some(Motion::Matching),
        Action::UnmatchedForward { char } => Some(Motion::UnmatchedForward { char }),
        Action::UnmatchedBackward { char } => Some(Motion::UnmatchedBackward { char }),
        Action::NextWordStart { ignore_punctuation } => Some(Motion::NextWordStart { ignore_punctuation }),
        Action::NextWordEnd { ignore_punctuation } => Some(Motion::NextWordEnd { ignore_punctuation }),
        Action::PreviousWordStart { ignore_punctuation } => Some(
            Motion::PreviousWordStart { ignore_punctuation },
        ),
        Action::PreviousWordEnd { ignore_punctuation } => Some(Motion::PreviousWordEnd { ignore_punctuation }),
        Action::NextSubwordStart { ignore_punctuation } => Some(
            Motion::NextSubwordStart { ignore_punctuation },
        ),
        Action::NextSubwordEnd { ignore_punctuation } => Some(Motion::NextSubwordEnd { ignore_punctuation }),
        Action::PreviousSubwordStart { ignore_punctuation } => Some(
            Motion::PreviousSubwordStart { ignore_punctuation },
        ),
        Action::PreviousSubwordEnd { ignore_punctuation } => Some(
            Motion::PreviousSubwordEnd { ignore_punctuation },
        ),
        Action::NextLineStart => Some(Motion::NextLineStart),
        Action::PreviousLineStart => Some(Motion::PreviousLineStart),
        Action::StartOfLineDownward => Some(Motion::StartOfLineDownward),
        Action::EndOfLineDownward => Some(Motion::EndOfLineDownward),
        Action::GoToColumn => Some(Motion::GoToColumn),
        Action::WindowTop => Some(Motion::WindowTop),
        Action::WindowMiddle => Some(Motion::WindowMiddle),
        Action::WindowBottom => Some(Motion::WindowBottom),
    }
}

/// The motion that `action` runs, if any.
pub fn motion_for_action(action: Action, last_find: Option<Motion>) -> (m: Option<Motion>)
    ensures
        m == motion_for_action_of(action, last_find),
{
    match action {
        Action::RepeatFind => match last_find {
            Some(f) => Some(Motion::RepeatFind { last_find: Box::new(f) }),
            None => None,
        },
        Action::RepeatFindReversed => match last_find {
            Some(f) => Some(Motion::RepeatFindReversed { last_find: Box::new(f) }),
            None => None,
        },
        Action::Left => Some(Motion::Left),
        Action::Backspace => Some(Motion::Backspace),
        Action::Down { display_lines } => Some(Motion::Down { display_lines }),
        Action::Up { display_lines } => Some(Motion::Up { display_lines }),
        Action::Right => Some(Motion::Right),
        Action::Space => Some(Motion::Space),
        Action::FirstNonWhitespace { display_lines } => Some(
            Motion::FirstNonWhitespace { display_lines },
        ),
        Action::StartOfLine(a) => Some(Motion::StartOfLine { display_lines: a.display_lines }),
        Action::EndOfLine { display_lines } => Some(Motion::EndOfLine { display_lines }),
        Action::CurrentLine => Some(Motion::CurrentLine),
        Action::StartOfParagraph => Some(Motion::StartOfParagraph),
        Action::EndOfParagraph => Some(Motion::EndOfParagraph),
        Action::SentenceForward => Some(Motion::SentenceForward),
        Action::SentenceBackward => Some(Motion::SentenceBackward),
        Action::StartOfDocument => Some(Motion::StartOfDocument),
        Action::EndOfDocument => Some(Motion::EndOfDocument),
        Action::Matching => Some(Motion::Matching),
        Action::UnmatchedForward { char } => Some(Motion::UnmatchedForward { char }),
        Action::UnmatchedBackward { char } => Some(Motion::UnmatchedBackward { char }),
        Action::NextWordStart { ignore_punctuation } => Some(
            Motion::NextWordStart { ignore_punctuation },
        ),
        Action::NextWordEnd { ignore_punctuation } => Some(Motion::NextWordEnd { ignore_punctuation }),
        Action::PreviousWordStart { ignore_punctuation } => Some(
            Motion::PreviousWordStart { ignore_punctuation },
        ),
        Action::PreviousWordEnd { ignore_punctuation } => Some(
            Motion::PreviousWordEnd { ignore_punctuation },
        ),
        Action::NextSubwordStart { ignore_punctuation } => Some(
            Motion::NextSubwordStart { ignore_punctuation },
        ),
        Action::NextSubwordEnd { ignore_punctuation } => Some(
            Motion::NextSubwordEnd { ignore_punctuation },
        ),
        Action::PreviousSubwordStart { ignore_punctuation } => Some(
            Motion::PreviousSubwordStart { ignore_punctuation },
        ),
        Action::PreviousSubwordEnd { ignore_punctuation } => Some(
            Motion::PreviousSubwordEnd { ignore_punctuation },
        ),
        Action::NextLineStart => Some(Motion::NextLineStart),
        Action::PreviousLineStart => Some(Motion::PreviousLineStart),
        Action::StartOfLineDownward => Some(Motion::StartOfLineDownward),
        Action::EndOfLineDownward => Some(Motion::EndOfLineDownward),
        Action::GoToColumn => Some(Motion::GoToColumn),
        Action::WindowTop => Some(Motion::WindowTop),
        Action::WindowMiddle => Some(Motion::WindowMiddle),
        Action::WindowBottom => Some(Motion::WindowBottom),
    }
}

} // verus!
