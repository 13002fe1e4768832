//! Classifying characters: whitespace, word characters and punctuation.

use vstd::prelude::*;

verus! {

/// The characters with the Unicode property `White_Space`.
pub open spec fn is_whitespace_char(c: char) -> bool {
    ||| ('\u{9}' <= c && c <= '\u{d}')
    ||| c == ' '
    ||| c == '\u{85}'
    ||| c == '\u{a0}'
    ||| c == '\u{1680}'
    ||| ('\u{2000}' <= c && c <= '\u{200a}')
    ||| c == '\u{2028}'
    ||| c == '\u{2029}'
    ||| c == '\u{202f}'
    ||| c == '\u{205f}'
    ||| c == '\u{3000}'
}

pub fn is_whitespace(c: char) -> (b: bool)
    ensures
        b == is_whitespace_char(c),
{
    ('\u{9}' <= c && c <= '\u{d}') || c == ' ' || c == '\u{85}' || c == '\u{a0}' || c
        == '\u{1680}' || ('\u{2000}' <= c && c <= '\u{200a}') || c == '\u{2028}' || c
        == '\u{2029}' || c == '\u{202f}' || c == '\u{205f}' || c == '\u{3000}'
}

/// Whether `c` is alphabetic or numeric in the sense of Unicode, as
/// `char::is_alphanumeric` decides it.
pub uninterp spec fn unicode_alphanumeric(c: char) -> bool;

/// Whether `c` has the Unicode property `Lowercase`, as `char::is_lowercase` decides it.
pub uninterp spec fn unicode_lowercase(c: char) -> bool;

/// Whether `c` has the Unicode property `Uppercase`, as `char::is_uppercase` decides it.
pub uninterp spec fn unicode_uppercase(c: char) -> bool;

/// Calls `char::is_alphanumeric`; its result is the name `unicode_alphanumeric`
/// applied to `c`. Beyond that, only what the documentation of the method
/// says of ASCII is claimed: an ASCII character is alphanumeric exactly
/// when it is a letter or a digit.
#[verifier::external_body]
pub fn is_alphanumeric(c: char) -> (b: bool)
    ensures
        b == unicode_alphanumeric(c),
        c <= '\u{7f}' ==> (b <==> ('a' <= c <= 'z' || 'A' <= c <= 'Z' || '0' <= c <= '9')),
{
    c.is_alphanumeric()
}

/// Calls `char::is_lowercase`; its result is the name `unicode_lowercase`
/// applied to `c`. Beyond that, only what it says of ASCII is claimed: an
/// ASCII character is lowercase exactly when it is a small letter.
#[verifier::external_body]
pub fn is_lowercase(c: char) -> (b: bool)
    ensures
        b == unicode_lowercase(c),
        c <= '\u{7f}' ==> (b <==> 'a' <= c <= 'z'),
{
    c.is_lowercase()
}

/// Calls `char::is_uppercase`; its result is the name `unicode_uppercase`
/// applied to `c`. Beyond that, only what it says of ASCII is claimed: an
/// ASCII character is uppercase exactly when it is a capital letter.
#[verifier::external_body]
pub fn is_uppercase(c: char) -> (b: bool)
    ensures
        b == unicode_uppercase(c),
        c <= '\u{7f}' ==> (b <==> 'A' <= c <= 'Z'),
{
    c.is_uppercase()
}

/// `c` with an ASCII capital letter replaced by its small letter.
pub open spec fn ascii_lowercase(c: char) -> char {
    if 'A' <= c && c <= 'Z' {
        ((c as u32) + 32) as char
    } else {
        c
    }
}

pub fn to_ascii_lowercase(c: char) -> (r: char)
    ensures
        r == ascii_lowercase(c),
{
    if 'A' <= c && c <= 'Z' {
        let v: u8 = (c as u8) + 32;
        v as char
    } else {
        c
    }
}

/// What a character is, for the purpose of finding words.
#[derive(Clone, Copy, Debug, PartialEq, Eq, Structural)]
pub enum CharKind {
    Whitespace,
    Punctuation,
    Word,
}

/// The kind of `c`: whitespace, a word character (letters, digits, `_`, and
/// the extra word characters of the language), or punctuation. Where
/// punctuation is ignored, it counts as word characters, and so does `-`
/// when it is an extra word character.
pub open spec fn char_kind(extra: Seq<char>, ignore_punctuation: bool, c: char) -> CharKind {
    if is_whitespace_char(c) {
        CharKind::Whitespace
    } else if unicode_alphanumeric(c) || c == '_' {
        CharKind::Word
    } else if extra.contains(c) {
        if c == '-' && !ignore_punctuation {
            CharKind::Punctuation
        } else {
            CharKind::Word
        }
    } else if ignore_punctuation {
        CharKind::Word
    } else {
        CharKind::Punctuation
    }
}

/// Whether `other` is what a find for `target` stops at: the same character,
/// or, under smartcase with a target that is not uppercase, the same
/// character once an ASCII capital in `other` is made small.
pub open spec fn character_match(target: char, other: char, smartcase: bool) -> bool {
    if smartcase {
        if unicode_uppercase(target) {
            target == other
        } else {
            target == ascii_lowercase(other)
        }
    } else {
        target == other
    }
}

/// Whether a find for `target` stops at `other`. Every character matches
/// itself, so smartcase only adds matches to those of an exact search.
pub fn is_character_match(target: char, other: char, smartcase: bool) -> (b: bool)
    ensures
        b == character_match(target, other, smartcase),
        target == other ==> b,
        character_match(target, other, false) ==> b,
        smartcase && 'a' <= target <= 'z' ==> (b <==> target == ascii_lowercase(other)),
        smartcase && 'A' <= target <= 'Z' ==> (b <==> target == other),
{
    if smartcase {
        if is_uppercase(target) {
            target == other
        } else {
            target == to_ascii_lowercase(other)
        }
    } else {
        target == other
    }
}

} // verus!
