//! The lexical grammar, stated over sequences of characters.
//!
//! A position is an index into the text; positions at or beyond its end read
//! as the sentinel. Scanning alternates between skipping a run of whitespace
//! and reading one token, and everything here is a function of the text and
//! of the position at which a step begins.

use vstd::prelude::*;
use crate::chars::{is_decimal_digit, is_identifier_part, is_whitespace, single_char_type, SENTINEL};
use crate::token::{TokenType, TokenView};

verus! {

/// The character at position `i`, or the sentinel beyond the end of the text.
pub open spec fn char_at(s: Seq<char>, i: int) -> char {
    if 0 <= i < s.len() {
        s[i]
    } else {
        SENTINEL
    }
}

/// The classes of characters that are consumed as whole runs.
pub enum CharClass {
    Whitespace,
    Identifier,
    Digit,
}

/// Whether `c` belongs to `class`.
pub open spec fn in_class(class: CharClass, c: char) -> bool {
    match class {
        CharClass::Whitespace => is_whitespace(c),
        CharClass::Identifier => is_identifier_part(c),
        CharClass::Digit => is_decimal_digit(c),
    }
}

/// The position at which the longest run of characters of `class` that
/// begins at `start` ends: the first position from `start` on whose character
/// is not of the class, or the end of the text.
pub open spec fn run_end(s: Seq<char>, class: CharClass, start: int) -> int
    decreases s.len() - start,
{
    if 0 <= start < s.len() && in_class(class, s[start]) {
        run_end(s, class, start + 1)
    } else {
        start
    }
}

/// The kind of a run of identifier characters: a keyword where the run spells
/// one, an identifier otherwise. The comparison is exact and case-sensitive.
pub open spec fn keyword_type(text: Seq<char>) -> TokenType {
    if text == seq!['f', 'n'] {
        TokenType::FUNCTION
    } else if text == seq!['l', 'e', 't'] {
        TokenType::LET
    } else {
        TokenType::IDENTIFIER
    }
}

/// The position just behind the token that begins at `start`. The end of the
/// input is a token of no length.
pub open spec fn token_end(s: Seq<char>, start: int) -> int {
    let c = char_at(s, start);
    if c == SENTINEL {
        start
    } else if single_char_type(c) is Some {
        start + 1
    } else if is_identifier_part(c) {
        run_end(s, CharClass::Identifier, start)
    } else if is_decimal_digit(c) {
        run_end(s, CharClass::Digit, start)
    } else {
        start + 1
    }
}

/// The kind of the token that begins at `start`.
pub open spec fn token_type_at(s: Seq<char>, start: int) -> TokenType {
    let c = char_at(s, start);
    if c == SENTINEL {
        TokenType::EOF
    } else if single_char_type(c) is Some {
        single_char_type(c)->0
    } else if is_identifier_part(c) {
        keyword_type(s.subrange(start, run_end(s, CharClass::Identifier, start)))
    } else if is_decimal_digit(c) {
        TokenType::INT
    } else {
        TokenType::ILLEGAL
    }
}

/// The token that begins at `start`, a position that holds no whitespace.
/// Its text is the piece of the input between `start` and [`token_end`].
pub open spec fn token_at(s: Seq<char>, start: int) -> TokenView {
    TokenView {
        token_type: token_type_at(s, start),
        literal: if char_at(s, start) == SENTINEL {
            Seq::empty()
        } else {
            s.subrange(start, token_end(s, start))
        },
    }
}

/// The position at which the next token begins when scanning resumes at
/// `cursor`: whitespace is skipped.
pub open spec fn token_start(s: Seq<char>, cursor: int) -> int {
    run_end(s, CharClass::Whitespace, cursor)
}

/// A run never ends before it begins, and never beyond the end of the text
/// unless it began there.
pub proof fn lemma_run_end_bounds(s: Seq<char>, class: CharClass, start: int)
    ensures
        start <= run_end(s, class, start),
        start <= s.len() ==> run_end(s, class, start) <= s.len(),
        !in_class(class, char_at(s, run_end(s, class, start))),
        forall|i: int| start <= i < run_end(s, class, start) ==> in_class(class, #[trigger] s[i]),
    decreases s.len() - start,
{
    if 0 <= start < s.len() && in_class(class, s[start]) {
        lemma_run_end_bounds(s, class, start + 1);
    }
}

/// The token that marks the end of the input.
pub open spec fn eof_token() -> TokenView {
    TokenView { token_type: TokenType::EOF, literal: Seq::empty() }
}

/// The tokens that scanning yields from `cursor` on, up to and including the
/// token that marks the end of the input.
pub open spec fn tokens_from(s: Seq<char>, cursor: int) -> Seq<TokenView>
    decreases s.len() - cursor,
    via lemma_scanning_advances
{
    let start = token_start(s, cursor);
    let token = token_at(s, start);
    if token.token_type == TokenType::EOF {
        seq![token]
    } else {
        seq![token] + tokens_from(s, token_end(s, start))
    }
}

#[via_fn]
proof fn lemma_scanning_advances(s: Seq<char>, cursor: int) {
    lemma_step_advances(s, cursor);
}

/// The position at which scanning from `cursor` on finds the end of the
/// input, and rests.
pub open spec fn scan_end(s: Seq<char>, cursor: int) -> int
    decreases s.len() - cursor,
    via lemma_scan_end_advances
{
    let start = token_start(s, cursor);
    if token_at(s, start).token_type == TokenType::EOF {
        start
    } else {
        scan_end(s, token_end(s, start))
    }
}

#[via_fn]
proof fn lemma_scan_end_advances(s: Seq<char>, cursor: int) {
    lemma_step_advances(s, cursor);
}

/// The whole tokenization of a text.
pub open spec fn tokens_of(s: Seq<char>) -> Seq<TokenView> {
    tokens_from(s, 0)
}

/// The text that scanning passes over from `cursor` on: each run of skipped
/// whitespace followed by the text of the token behind it, in order, up to
/// the whitespace before the end of the input.
pub open spec fn scanned_from(s: Seq<char>, cursor: int) -> Seq<char>
    decreases s.len() - cursor,
    via lemma_scanned_advances
{
    let start = token_start(s, cursor);
    let token = token_at(s, start);
    let gap = s.subrange(cursor, start);
    if token.token_type == TokenType::EOF {
        gap
    } else {
        gap + token.literal + scanned_from(s, token_end(s, start))
    }
}

#[via_fn]
proof fn lemma_scanned_advances(s: Seq<char>, cursor: int) {
    lemma_step_advances(s, cursor);
}

/// A token that is not the end of the input has at least one character and
/// lies within the text; its text is as long as the distance it spans.
pub proof fn lemma_token_end_bounds(s: Seq<char>, start: int)
    ensures
        token_type_at(s, start) == TokenType::EOF <==> char_at(s, start) == SENTINEL,
        token_type_at(s, start) == TokenType::EOF ==> token_end(s, start) == start,
        token_type_at(s, start) != TokenType::EOF ==> 0 <= start < token_end(s, start) <= s.len(),
        token_at(s, start).literal.len() == token_end(s, start) - start,
{
    lemma_run_end_bounds(s, CharClass::Identifier, start);
    lemma_run_end_bounds(s, CharClass::Digit, start);
}

/// One step of scanning, from a cursor to the end of the token behind the
/// whitespace at it: the step never goes back, and it goes forward within the
/// text unless it meets the end of the input.
pub proof fn lemma_step_advances(s: Seq<char>, cursor: int)
    ensures
        cursor <= token_start(s, cursor),
        cursor <= s.len() ==> token_start(s, cursor) <= s.len(),
        token_at(s, token_start(s, cursor)).token_type != TokenType::EOF ==> {
            let start = token_start(s, cursor);
            0 <= start < token_end(s, start) <= s.len()
        },
{
    lemma_run_end_bounds(s, CharClass::Whitespace, cursor);
    lemma_token_end_bounds(s, token_start(s, cursor));
}

} // verus!
