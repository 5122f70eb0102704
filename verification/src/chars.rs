//! Character classes of the lexical grammar.

use vstd::prelude::*;
use crate::token::TokenType;

verus! {

/// The value that stands for "nothing left to read".
pub const SENTINEL: char = '\0';

/// Whether `c` has the Unicode property `Alphabetic`. The property is a
/// fixed table of the Unicode character database and is left without a
/// definition here; the grammar consults it beyond the ASCII range only.
pub uninterp spec fn unicode_alphabetic(c: char) -> bool;

/// Trusted: `char::is_alphabetic` of the standard library. Its answer depends
/// on the character alone and is the one that [`unicode_alphabetic`] names.
pub assume_specification[ char::is_alphabetic ](c: char) -> (b: bool)
    ensures
        b == unicode_alphabetic(c),
;

/// Whether `c` is one of the 52 unaccented Latin letters.
pub open spec fn is_ascii_letter(c: char) -> bool {
    ('a' <= c && c <= 'z') || ('A' <= c && c <= 'Z')
}

/// Whether `c` is alphabetic: a Latin letter within the ASCII range, a
/// character with the Unicode property `Alphabetic` beyond it.
pub open spec fn is_alphabetic(c: char) -> bool {
    if c <= '\x7f' {
        is_ascii_letter(c)
    } else {
        unicode_alphabetic(c)
    }
}

/// Whitespace separates tokens and belongs to none.
pub open spec fn is_whitespace(c: char) -> bool {
    c == ' ' || c == '\t' || c == '\n' || c == '\r'
}

/// The characters that identifiers and keywords are made of.
pub open spec fn is_identifier_part(c: char) -> bool {
    is_alphabetic(c) || c == '_'
}

/// The characters that integer literals are made of.
pub open spec fn is_decimal_digit(c: char) -> bool {
    '0' <= c && c <= '9'
}

/// The table of tokens that consist of one character.
pub open spec fn single_char_type(c: char) -> Option<TokenType> {
    if c == '=' {
        Some(TokenType::ASSIGN)
    } else if c == '+' {
        Some(TokenType::PLUS)
    } else if c == '(' {
        Some(TokenType::LPARAN)
    } else if c == ')' {
        Some(TokenType::RPARAN)
    } else if c == '{' {
        Some(TokenType::LBRACE)
    } else if c == '}' {
        Some(TokenType::RBRACE)
    } else if c == ',' {
        Some(TokenType::COMMA)
    } else if c == ';' {
        Some(TokenType::SEMICOLON)
    } else if c == SENTINEL {
        Some(TokenType::EOF)
    } else {
        None
    }
}

/// Looks `c` up in the table of tokens that consist of one character.
pub fn single_char_token_type(c: char) -> (found: Option<TokenType>)
    ensures
        found == single_char_type(c),
{
    match c {
        '=' => Some(TokenType::ASSIGN),
        '+' => Some(TokenType::PLUS),
        '(' => Some(TokenType::LPARAN),
        ')' => Some(TokenType::RPARAN),
        '{' => Some(TokenType::LBRACE),
        '}' => Some(TokenType::RBRACE),
        ',' => Some(TokenType::COMMA),
        ';' => Some(TokenType::SEMICOLON),
        '\0' => Some(TokenType::EOF),
        _ => None,
    }
}

} // verus!
