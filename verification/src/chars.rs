//! Classification of chars: line endings, whitespace, word chars and punctuation.

use crate::unicode::{
    general_category, general_category_code, is_unicode_alphanumeric, is_unicode_whitespace,
    unicode_alphanumeric, unicode_white_space,
};
use vstd::prelude::*;

verus! {

#[derive(Debug, PartialEq, Eq, Copy, Clone, Structural)]
pub enum CharCategory {
    Whitespace,
    Eol,
    Word,
    Punctuation,
    Unknown,
}

/// A line feed is the only char that ends a line.
pub open spec fn is_eol(c: char) -> bool {
    c == '\n'
}

/// The whitespace chars that an editor treats as blanks between words.
pub open spec fn is_blank_char(c: char) -> bool {
    c == '\u{0009}' || c == '\u{0020}' || c == '\u{00A0}' || c == '\u{180E}' || c == '\u{202F}'
        || c == '\u{205F}' || c == '\u{3000}' || c == '\u{FEFF}' || ('\u{2000}' <= c && c
        <= '\u{200B}')
}

/// Alphanumeric chars and the underscore make up words.
pub open spec fn is_word_char(c: char) -> bool {
    unicode_alphanumeric(c) || c == '_'
}

/// General categories that count as punctuation: the punctuation classes
/// (close, connector, dash, final, initial, open, other) and the math,
/// currency and modifier symbols.
pub open spec fn is_punctuation_code(code: u8) -> bool {
    code == 0 || code == 1 || code == 4 || code == 7 || code == 9 || code == 17 || code == 20
        || code == 13 || code == 3 || code == 15
}

/// The category of `c`: line ending, then whitespace, word, punctuation.
pub open spec fn category_of(c: char) -> CharCategory {
    if is_eol(c) {
        CharCategory::Eol
    } else if unicode_white_space(c) {
        CharCategory::Whitespace
    } else if is_word_char(c) {
        CharCategory::Word
    } else if is_punctuation_code(general_category_code(c)) {
        CharCategory::Punctuation
    } else {
        CharCategory::Unknown
    }
}

/// Whether `ch` ends a line.
pub fn char_is_line_ending(ch: char) -> (b: bool)
    ensures
        b == is_eol(ch),
{
    ch == '\n'
}

/// Whether `ch` is one of the whitespace chars between words (line endings excluded).
pub fn char_is_whitespace(ch: char) -> (b: bool)
    ensures
        b == is_blank_char(ch),
{
    ch == '\u{0009}' || ch == '\u{0020}' || ch == '\u{00A0}' || ch == '\u{180E}' || ch == '\u{202F}'
        || ch == '\u{205F}' || ch == '\u{3000}' || ch == '\u{FEFF}' || ('\u{2000}' <= ch && ch
        <= '\u{200B}')
}

/// Whether `ch` belongs to a word.
pub fn char_is_word(ch: char) -> (b: bool)
    ensures
        b == is_word_char(ch),
{
    is_unicode_alphanumeric(ch) || ch == '_'
}

/// Whether `ch` is punctuation or a symbol.
pub fn char_is_punctuation(ch: char) -> (b: bool)
    ensures
        b == is_punctuation_code(general_category_code(ch)),
{
    let code = general_category(ch);
    code == 0 || code == 1 || code == 4 || code == 7 || code == 9 || code == 17 || code == 20
        || code == 13 || code == 3 || code == 15
}

/// The category of `ch`.
pub fn categorize_char(ch: char) -> (c: CharCategory)
    ensures
        c == category_of(ch),
{
    if char_is_line_ending(ch) {
        CharCategory::Eol
    } else if is_unicode_whitespace(ch) {
        CharCategory::Whitespace
    } else if char_is_word(ch) {
        CharCategory::Word
    } else if char_is_punctuation(ch) {
        CharCategory::Punctuation
    } else {
        CharCategory::Unknown
    }
}

/// `char::is_whitespace`.
pub fn char_has_white_space(ch: char) -> (b: bool)
    ensures
        b == unicode_white_space(ch),
{
    is_unicode_whitespace(ch)
}

} // verus!
