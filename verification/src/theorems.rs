//! What holds of scanning as a whole.
//!
//! Each theorem is stated over the functions of [`crate::grammar`], in which
//! the contracts of the scanner are written, so that it holds of every run of
//! the scanner.

use vstd::prelude::*;
use crate::chars::{is_decimal_digit, is_identifier_part, is_whitespace, single_char_type, SENTINEL};
use crate::grammar::{
    char_at, eof_token, in_class, keyword_type, lemma_run_end_bounds, lemma_step_advances,
    lemma_token_end_bounds, run_end, scan_end, scanned_from, token_at, token_end, token_start, tokens_from, tokens_of,
    CharClass,
};
use crate::token::{TokenType, TokenView};

verus! {

/// Scanning always comes to an end: from any cursor the tokens form a finite
/// sequence, no longer than the rest of the text and one more, whose last
/// token, and no other, marks the end of the input.
pub proof fn theorem_tokens_end_in_one_eof(s: Seq<char>, cursor: int)
    ensures
        tokens_from(s, cursor).len() >= 1,
        cursor <= s.len() ==> tokens_from(s, cursor).len() <= s.len() - cursor + 1,
        tokens_from(s, cursor).last() == eof_token(),
        forall|i: int|
            0 <= i < tokens_from(s, cursor).len() - 1 ==> (#[trigger] tokens_from(
                s,
                cursor,
            )[i]).token_type != TokenType::EOF,
    decreases s.len() - cursor,
{
    let start = token_start(s, cursor);
    lemma_run_end_bounds(s, CharClass::Whitespace, cursor);
    lemma_token_end_bounds(s, start);
    if token_at(s, start).token_type != TokenType::EOF {
        theorem_tokens_end_in_one_eof(s, token_end(s, start));
    }
}

/// Once the end of the input has been handed out, the scanner rests: the
/// token has no length, no whitespace lies before the place it was found at,
/// and scanning from there yields the same token again, and nothing else.
pub proof fn theorem_eof_repeats(s: Seq<char>, cursor: int)
    requires
        token_at(s, token_start(s, cursor)).token_type == TokenType::EOF,
    ensures
        token_at(s, token_start(s, cursor)) == eof_token(),
        token_end(s, token_start(s, cursor)) == token_start(s, cursor),
        token_start(s, token_start(s, cursor)) == token_start(s, cursor),
        tokens_from(s, token_start(s, cursor)) == seq![eof_token()],
{
    let start = token_start(s, cursor);
    lemma_token_end_bounds(s, start);
    lemma_run_end_bounds(s, CharClass::Whitespace, cursor);
}

/// Nothing is lost and nothing is read twice: the skipped whitespace and the
/// texts of the tokens, put together in order, are the text from the cursor
/// up to the place at which the end of the input is found. That place is the
/// first sentinel at or behind the cursor, or the end of the text.
pub proof fn theorem_scanned_text_is_the_input(s: Seq<char>, cursor: int)
    requires
        0 <= cursor <= s.len(),
    ensures
        cursor <= scan_end(s, cursor) <= s.len(),
        scanned_from(s, cursor) == s.subrange(cursor, scan_end(s, cursor)),
        char_at(s, scan_end(s, cursor)) == SENTINEL,
        forall|i: int| cursor <= i < scan_end(s, cursor) ==> #[trigger] s[i] != SENTINEL,
    decreases s.len() - cursor,
{
    let start = token_start(s, cursor);
    let end = token_end(s, start);
    lemma_run_end_bounds(s, CharClass::Whitespace, cursor);
    lemma_token_end_bounds(s, start);
    if token_at(s, start).token_type != TokenType::EOF {
        theorem_scanned_text_is_the_input(s, end);
        lemma_run_end_bounds(s, CharClass::Identifier, start);
        lemma_run_end_bounds(s, CharClass::Digit, start);
        assert(scanned_from(s, cursor) =~= s.subrange(cursor, scan_end(s, cursor)));
    }
}

/// A text that holds no sentinel is scanned to its end: the skipped
/// whitespace and the texts of its tokens add up to the text itself.
pub proof fn theorem_scanning_loses_nothing(s: Seq<char>)
    requires
        forall|i: int| 0 <= i < s.len() ==> s[i] != SENTINEL,
    ensures
        scanned_from(s, 0) == s,
{
    theorem_scanned_text_is_the_input(s, 0);
    assert(s.subrange(0, s.len() as int) =~= s);
}

/// Keywords are recognised exactly: a text is the keyword `fn` or `let` only
/// where it spells just that, in lower case; every other text is an
/// identifier.
pub proof fn theorem_keywords_are_exact(text: Seq<char>)
    ensures
        keyword_type(text) == TokenType::FUNCTION <==> text == seq!['f', 'n'],
        keyword_type(text) == TokenType::LET <==> text == seq!['l', 'e', 't'],
        keyword_type(text) == TokenType::IDENTIFIER <==> text != seq!['f', 'n'] && text != seq![
            'l',
            'e',
            't',
        ],
{
    assert(seq!['f', 'n'].len() != seq!['l', 'e', 't'].len());
}

/// A token that begins with an identifier character is made of the whole run
/// of identifier characters at that place, and is a keyword exactly where the
/// run spells one: neither a longer run that begins like a keyword nor one in
/// other case is taken for it.
pub proof fn theorem_identifier_runs_are_whole(s: Seq<char>, start: int)
    requires
        is_identifier_part(char_at(s, start)),
    ensures
        token_end(s, start) == run_end(s, CharClass::Identifier, start),
        token_at(s, start).literal == s.subrange(start, token_end(s, start)),
        token_at(s, start).token_type == keyword_type(token_at(s, start).literal),
        forall|i: int| start <= i < token_end(s, start) ==> is_identifier_part(#[trigger] s[i]),
        !is_identifier_part(char_at(s, token_end(s, start))),
{
    lemma_run_end_bounds(s, CharClass::Identifier, start);
}

/// Digits and letters do not combine. A token that begins with a digit is an
/// integer made of the whole run of digits and nothing else; where an
/// identifier character follows the run, the next token begins right there
/// and is made of the whole run of identifier characters.
pub proof fn theorem_digits_stop_at_letters(s: Seq<char>, start: int)
    requires
        is_decimal_digit(char_at(s, start)),
    ensures
        token_at(s, start).token_type == TokenType::INT,
        token_at(s, start).literal == s.subrange(start, run_end(s, CharClass::Digit, start)),
        token_end(s, start) == run_end(s, CharClass::Digit, start),
        forall|i: int| start <= i < token_end(s, start) ==> is_decimal_digit(#[trigger] s[i]),
        !is_decimal_digit(char_at(s, token_end(s, start))),
        is_identifier_part(char_at(s, token_end(s, start))) ==> {
            let next = token_end(s, start);
            let text = s.subrange(next, run_end(s, CharClass::Identifier, next));
            &&& token_start(s, next) == next
            &&& token_at(s, next) == (TokenView { token_type: keyword_type(text), literal: text })
        },
{
    lemma_run_end_bounds(s, CharClass::Digit, start);
}

/// Each character of the table of one-character tokens, alone in a text,
/// yields one token of the kind the table gives, with that character as its
/// text, and then the end of the input.
pub proof fn theorem_single_char_alone(c: char)
    requires
        single_char_type(c) is Some,
        c != SENTINEL,
    ensures
        tokens_of(seq![c]) == seq![
            TokenView { token_type: single_char_type(c)->0, literal: seq![c] },
            eof_token(),
        ],
{
    let s = seq![c];
    reveal_with_fuel(run_end, 2);
    reveal_with_fuel(tokens_from, 2);
    assert(token_start(s, 0) == 0);
    assert(token_at(s, 0).literal =~= seq![c]);
    assert(token_end(s, 0) == 1);
    assert(token_start(s, 1) == 1);
    assert(tokens_from(s, 1) =~= seq![eof_token()]);
    assert(tokens_of(s) =~= seq![token_at(s, 0)] + tokens_from(s, 1));
}

/// A character that is no whitespace, stands in no table and begins neither
/// an identifier nor an integer is handed out as one `ILLEGAL` token with
/// that character as its text, and scanning goes on behind it.
pub proof fn theorem_illegal_fallback(s: Seq<char>, start: int)
    requires
        0 <= start < s.len(),
        !is_whitespace(s[start]),
        single_char_type(s[start]) is None,
        !is_identifier_part(s[start]),
        !is_decimal_digit(s[start]),
    ensures
        token_start(s, start) == start,
        token_at(s, start) == (TokenView {
            token_type: TokenType::ILLEGAL,
            literal: seq![s[start]],
        }),
        token_end(s, start) == start + 1,
        tokens_from(s, start) == seq![token_at(s, start)] + tokens_from(s, start + 1),
{
    assert(token_at(s, start).literal =~= seq![s[start]]);
}

/// The text `s` with `w` put in before position `at`.
pub open spec fn spliced(s: Seq<char>, at: int, w: Seq<char>) -> Seq<char> {
    s.subrange(0, at) + w + s.subrange(at, s.len() as int)
}

/// Whether `w` is made of whitespace alone.
pub open spec fn all_whitespace(w: Seq<char>) -> bool {
    forall|i: int| 0 <= i < w.len() ==> is_whitespace(#[trigger] w[i])
}

/// Whether position `at` lies between two tokens when `s` is scanned from
/// `cursor` on: within a run of skipped whitespace or at either end of one.
/// The place just behind a token and the place at which the next one begins
/// are such positions also where no whitespace parts the two.
pub open spec fn between_tokens(s: Seq<char>, cursor: int, at: int) -> bool
    decreases s.len() - cursor,
    via lemma_between_tokens_advances
{
    let start = token_start(s, cursor);
    if cursor <= at <= start {
        true
    } else if token_at(s, start).token_type == TokenType::EOF {
        false
    } else {
        between_tokens(s, token_end(s, start), at)
    }
}

#[via_fn]
proof fn lemma_between_tokens_advances(s: Seq<char>, cursor: int, at: int) {
    lemma_step_advances(s, cursor);
}

/// A position between tokens is not before the cursor, and lies within the
/// text or just behind it if the cursor does.
proof fn lemma_between_tokens_is_ahead(s: Seq<char>, cursor: int, at: int)
    requires
        between_tokens(s, cursor, at),
    ensures
        cursor <= at,
        cursor <= s.len() ==> at <= s.len(),
    decreases s.len() - cursor,
{
    let start = token_start(s, cursor);
    lemma_run_end_bounds(s, CharClass::Whitespace, cursor);
    lemma_token_end_bounds(s, start);
    if !(cursor <= at <= start) {
        lemma_between_tokens_is_ahead(s, token_end(s, start), at);
    }
}

/// A run ends at the first position whose character is not of its class.
proof fn lemma_run_end_is(s: Seq<char>, class: CharClass, start: int, end: int)
    requires
        0 <= start <= end <= s.len(),
        forall|i: int| start <= i < end ==> in_class(class, #[trigger] s[i]),
        !in_class(class, char_at(s, end)),
    ensures
        run_end(s, class, start) == end,
    decreases end - start,
{
    if start < end {
        lemma_run_end_is(s, class, start + 1, end);
    }
}

/// Behind the place at which `w` was put in, runs are the same but for their
/// position.
proof fn lemma_run_end_shifts(s: Seq<char>, at: int, w: Seq<char>, class: CharClass, start: int)
    requires
        0 <= at <= start,
        at <= s.len(),
    ensures
        run_end(spliced(s, at, w), class, start + w.len()) == run_end(s, class, start) + w.len(),
{
    let t = spliced(s, at, w);
    let end = run_end(s, class, start);
    lemma_run_end_bounds(s, class, start);
    if start <= s.len() {
        assert forall|i: int| start + w.len() <= i < end + w.len() implies in_class(
            class,
            #[trigger] t[i],
        ) by {
            assert(t[i] == s[i - w.len()]);
        }
        assert(char_at(t, end + w.len()) == char_at(s, end));
        lemma_run_end_is(t, class, start + w.len(), end + w.len());
    }
}

/// Behind the place at which `w` was put in, tokens are the same but for
/// their position.
proof fn lemma_token_shifts(s: Seq<char>, at: int, w: Seq<char>, start: int)
    requires
        0 <= at <= start,
        at <= s.len(),
    ensures
        token_at(spliced(s, at, w), start + w.len()) == token_at(s, start),
        token_end(spliced(s, at, w), start + w.len()) == token_end(s, start) + w.len(),
{
    let t = spliced(s, at, w);
    let n = w.len() as int;
    assert(char_at(t, start + n) == char_at(s, start));
    lemma_run_end_shifts(s, at, w, CharClass::Identifier, start);
    lemma_run_end_shifts(s, at, w, CharClass::Digit, start);
    lemma_token_end_bounds(s, start);
    if char_at(s, start) != SENTINEL {
        let end = token_end(s, start);
        assert(t.subrange(start + n, end + n) =~= s.subrange(start, end));
    }
}

/// Behind the place at which `w` was put in, scanning yields the same tokens.
proof fn lemma_tokens_shift(s: Seq<char>, at: int, w: Seq<char>, cursor: int)
    requires
        0 <= at <= cursor,
        at <= s.len(),
    ensures
        tokens_from(spliced(s, at, w), cursor + w.len()) == tokens_from(s, cursor),
    decreases s.len() - cursor,
{
    let start = token_start(s, cursor);
    lemma_run_end_bounds(s, CharClass::Whitespace, cursor);
    lemma_run_end_shifts(s, at, w, CharClass::Whitespace, cursor);
    lemma_token_shifts(s, at, w, start);
    lemma_token_end_bounds(s, start);
    if token_at(s, start).token_type != TokenType::EOF {
        lemma_tokens_shift(s, at, w, token_end(s, start));
    }
}

/// A run that ends at or before the place at which whitespace was put in
/// ends at the same position as before, unless it is a run of whitespace
/// that reaches that place.
proof fn lemma_run_end_before_splice(
    s: Seq<char>,
    at: int,
    w: Seq<char>,
    class: CharClass,
    start: int,
)
    requires
        0 <= start <= at <= s.len(),
        all_whitespace(w),
        w.len() > 0,
        run_end(s, class, start) <= at,
        class is Whitespace ==> run_end(s, class, start) < at,
    ensures
        run_end(spliced(s, at, w), class, start) == run_end(s, class, start),
{
    let t = spliced(s, at, w);
    let end = run_end(s, class, start);
    lemma_run_end_bounds(s, class, start);
    assert forall|i: int| start <= i < end implies in_class(class, #[trigger] t[i]) by {
        assert(t[i] == s[i]);
    }
    if end < at {
        assert(char_at(t, end) == char_at(s, end));
    } else {
        assert(char_at(t, end) == w[0]);
    }
    lemma_run_end_is(t, class, start, end);
}

/// Whitespace put into a run of whitespace, or at either end of one, makes
/// the run longer and changes nothing else.
proof fn lemma_whitespace_run_grows(s: Seq<char>, at: int, w: Seq<char>, cursor: int)
    requires
        0 <= cursor <= at <= token_start(s, cursor),
        at <= s.len(),
        all_whitespace(w),
    ensures
        token_start(spliced(s, at, w), cursor) == token_start(s, cursor) + w.len(),
{
    let t = spliced(s, at, w);
    let n = w.len() as int;
    let start = token_start(s, cursor);
    lemma_run_end_bounds(s, CharClass::Whitespace, cursor);
    assert forall|i: int| cursor <= i < start + n implies in_class(
        CharClass::Whitespace,
        #[trigger] t[i],
    ) by {
        if i < at {
            assert(t[i] == s[i]);
        } else if i < at + n {
            assert(t[i] == w[i - at]);
        } else {
            assert(t[i] == s[i - n]);
        }
    }
    assert(char_at(t, start + n) == char_at(s, start));
    lemma_run_end_is(t, CharClass::Whitespace, cursor, start + n);
}

/// Whitespace put in between two tokens that lie ahead of the cursor changes
/// no token.
proof fn lemma_tokens_ignore_whitespace(s: Seq<char>, at: int, w: Seq<char>, cursor: int)
    requires
        0 <= cursor <= s.len(),
        between_tokens(s, cursor, at),
        all_whitespace(w),
        w.len() > 0,
    ensures
        tokens_from(spliced(s, at, w), cursor) == tokens_from(s, cursor),
    decreases s.len() - cursor,
{
    let t = spliced(s, at, w);
    let n = w.len() as int;
    let start = token_start(s, cursor);
    let end = token_end(s, start);
    lemma_run_end_bounds(s, CharClass::Whitespace, cursor);
    lemma_token_end_bounds(s, start);
    lemma_between_tokens_is_ahead(s, cursor, at);
    if at <= start {
        lemma_whitespace_run_grows(s, at, w, cursor);
        lemma_token_shifts(s, at, w, start);
        if token_at(s, start).token_type != TokenType::EOF {
            lemma_tokens_shift(s, at, w, end);
        }
    } else {
        lemma_between_tokens_is_ahead(s, end, at);
        lemma_run_end_before_splice(s, at, w, CharClass::Whitespace, cursor);
        assert(char_at(t, start) == char_at(s, start));
        if is_identifier_part(char_at(s, start)) {
            lemma_run_end_before_splice(s, at, w, CharClass::Identifier, start);
        }
        if is_decimal_digit(char_at(s, start)) {
            lemma_run_end_before_splice(s, at, w, CharClass::Digit, start);
        }
        assert(token_end(t, start) == end);
        assert(t.subrange(start, end) =~= s.subrange(start, end));
        assert(token_at(t, start) == token_at(s, start));
        lemma_tokens_ignore_whitespace(s, at, w, end);
    }
}

/// Whitespace between tokens is immaterial. Where `at` lies between two
/// tokens of `s`, the text with a run of whitespace put in at `at` has the
/// same tokens as `s`, kinds and texts alike. Read from right to left, this
/// is the removal of a run of whitespace whose two neighbours remain two
/// tokens once they touch.
pub proof fn theorem_whitespace_between_tokens_is_immaterial(s: Seq<char>, at: int, w: Seq<char>)
    requires
        between_tokens(s, 0, at),
        all_whitespace(w),
    ensures
        tokens_of(spliced(s, at, w)) == tokens_of(s),
{
    lemma_between_tokens_is_ahead(s, 0, at);
    if w.len() > 0 {
        lemma_tokens_ignore_whitespace(s, at, w, 0);
    } else {
        assert(spliced(s, at, w) =~= s);
    }
}

} // verus!
