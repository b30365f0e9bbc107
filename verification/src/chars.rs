//! Character classification for the lexical grammar.

use vstd::prelude::*;

verus! {

/// Insignificant whitespace inside a line: space, tab, form feed.
pub open spec fn is_space_char(c: char) -> bool {
    c == ' ' || c == '\t' || c == '\u{c}'
}

pub open spec fn is_digit_char(c: char) -> bool {
    '0' <= c && c <= '9'
}

pub open spec fn is_hex_char(c: char) -> bool {
    is_digit_char(c) || ('a' <= c && c <= 'f') || ('A' <= c && c <= 'F')
}

pub open spec fn is_bin_char(c: char) -> bool {
    c == '0' || c == '1'
}

pub open spec fn is_oct_char(c: char) -> bool {
    '0' <= c && c <= '7'
}

/// A character that may stand in an identifier: an ASCII letter, an ASCII
/// digit, an underscore, or any character beyond ASCII.
pub open spec fn is_ident_char(c: char) -> bool {
    ('a' <= c && c <= 'z') || ('A' <= c && c <= 'Z') || is_digit_char(c) || c == '_' || c > '\u{7f}'
}

/// A character that may stand in a comment: anything but a line terminator.
pub open spec fn is_comment_char(c: char) -> bool {
    c != '\r' && c != '\n'
}

/// A quote character opening a string literal.
pub open spec fn is_quote_char(c: char) -> bool {
    c == '\'' || c == '"'
}

/// A string-prefix letter (raw, byte, unicode, format markers).
pub open spec fn is_prefix_char(c: char) -> bool {
    c == 'b' || c == 'B' || c == 'r' || c == 'R' || c == 'u' || c == 'U' || c == 'f' || c == 'F'
}

pub open spec fn is_open_bracket(c: char) -> bool {
    c == '(' || c == '[' || c == '{'
}

pub open spec fn is_close_bracket(c: char) -> bool {
    c == ')' || c == ']' || c == '}'
}

/// The character classes a scan can run over.
#[derive(Clone, Copy, PartialEq, Eq, Structural, Debug)]
pub enum CharClass {
    Space,
    Digit,
    HexDigit,
    BinDigit,
    OctDigit,
    Ident,
    CommentBody,
}

pub open spec fn in_class(cls: CharClass, c: char) -> bool {
    match cls {
        CharClass::Space => is_space_char(c),
        CharClass::Digit => is_digit_char(c),
        CharClass::HexDigit => is_hex_char(c),
        CharClass::BinDigit => is_bin_char(c),
        CharClass::OctDigit => is_oct_char(c),
        CharClass::Ident => is_ident_char(c),
        CharClass::CommentBody => is_comment_char(c),
    }
}

/// Runtime test for membership in a character class.
pub fn class_char(cls: CharClass, c: char) -> (r: bool)
    ensures
        r == in_class(cls, c),
{
    match cls {
        CharClass::Space => c == ' ' || c == '\t' || c == '\u{c}',
        CharClass::Digit => '0' <= c && c <= '9',
        CharClass::HexDigit => ('0' <= c && c <= '9') || ('a' <= c && c <= 'f') || ('A' <= c
            && c <= 'F'),
        CharClass::BinDigit => c == '0' || c == '1',
        CharClass::OctDigit => '0' <= c && c <= '7',
        CharClass::Ident => ('a' <= c && c <= 'z') || ('A' <= c && c <= 'Z') || ('0' <= c && c
            <= '9') || c == '_' || c > '\u{7f}',
        CharClass::CommentBody => c != '\r' && c != '\n',
    }
}

pub fn quote_char(c: char) -> (r: bool)
    ensures
        r == is_quote_char(c),
{
    c == '\'' || c == '"'
}

pub fn prefix_char(c: char) -> (r: bool)
    ensures
        r == is_prefix_char(c),
{
    c == 'b' || c == 'B' || c == 'r' || c == 'R' || c == 'u' || c == 'U' || c == 'f' || c == 'F'
}

} // verus!
