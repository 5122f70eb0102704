//! The scanner: a cursor over an owned text that yields one token per call.

use vstd::prelude::*;
use crate::chars::{is_decimal_digit, is_identifier_part, single_char_token_type, SENTINEL};
use crate::grammar::{
    char_at, keyword_type, lemma_run_end_bounds, lemma_token_end_bounds, run_end, scan_end,
    token_at, token_end, token_start, tokens_from, CharClass,
};
use crate::token::{token_views, Token, TokenType};

verus! {

/// A scanner over one input text.
///
/// It holds the text, the position of the next unread character and the
/// character that the next decision acts on.
pub struct Lexer {
    input: String,
    read_position: usize,
    current_char: char,
}

impl Lexer {
    /// The text being scanned.
    pub closed spec fn source(&self) -> Seq<char> {
        self.input@
    }

    /// The position of the next unread character.
    pub closed spec fn unread(&self) -> int {
        self.read_position as int
    }

    /// The character that the next decision acts on.
    pub closed spec fn peeked(&self) -> char {
        self.current_char
    }

    /// The position of the peeked character: one before the next unread one.
    pub open spec fn cursor(&self) -> int {
        self.unread() - 1
    }

    /// The invariant of a scanner in use: the cursor lies within the text or
    /// just behind it, the peeked character is the one at the cursor, or the
    /// sentinel once the cursor is behind the text, and the length of the
    /// text leaves room for the position behind its end.
    pub open spec fn wf(&self) -> bool {
        &&& 0 <= self.cursor() <= self.source().len()
        &&& self.peeked() == char_at(self.source(), self.cursor())
        &&& self.source().len() < usize::MAX
    }

    /// Makes the next unread character the peeked one; beyond the end of the
    /// text that is the sentinel.
    pub fn read_char(&mut self)
        requires
            old(self).unread() < usize::MAX,
        ensures
            final(self).source() == old(self).source(),
            final(self).unread() == old(self).unread() + 1,
            final(self).peeked() == char_at(old(self).source(), old(self).unread()),
    {
        let text = self.input.as_str();
        self.current_char = if self.read_position < text.unicode_len() {
            text.get_char(self.read_position)
        } else {
            SENTINEL
        };
        self.read_position = self.read_position + 1;
    }

    /// A scanner at the start of `input`, with its first character peeked.
    pub fn new(input: String) -> (l: Lexer)
        requires
            input@.len() < usize::MAX,
        ensures
            l.wf(),
            l.source() == input@,
            l.cursor() == 0,
    {
        let mut l = Lexer { input, read_position: 0, current_char: SENTINEL };
        l.read_char();
        l
    }

    /// Whether the peeked character may stand in an identifier.
    pub fn is_identifier_char(&self) -> (b: bool)
        ensures
            b == is_identifier_part(self.peeked()),
    {
        let c = self.current_char;
        if c <= '\x7f' {
            ('a' <= c && c <= 'z') || ('A' <= c && c <= 'Z') || c == '_'
        } else {
            c.is_alphabetic()
        }
    }

    /// Whether the peeked character may stand in an integer literal.
    pub fn is_number_char(&self) -> (b: bool)
        ensures
            b == is_decimal_digit(self.peeked()),
    {
        '0' <= self.current_char && self.current_char <= '9'
    }

    /// Skips the whitespace at the cursor, up to the start of the next token.
    pub fn eat_whitespace(&mut self)
        requires
            old(self).wf(),
        ensures
            final(self).wf(),
            final(self).source() == old(self).source(),
            final(self).cursor() == token_start(old(self).source(), old(self).cursor()),
    {
        while self.current_char == ' ' || self.current_char == '\t' || self.current_char == '\n'
            || self.current_char == '\r'
            invariant
                self.wf(),
                self.source() == old(self).source(),
                old(self).cursor() <= self.cursor(),
                token_start(self.source(), self.cursor()) == token_start(
                    old(self).source(),
                    old(self).cursor(),
                ),
            decreases self.source().len() - self.cursor(),
        {
            self.read_char();
        }
    }

    /// The kind of a run of identifier characters: the keyword that
    /// `identifier` spells, or an identifier where it spells none.
    #[verifier::loop_isolation(false)]
    pub fn lookup_identifier(identifier: &String) -> (token_type: TokenType)
        ensures
            token_type == keyword_type(identifier@),
    {
        let token_type_words = [("fn", TokenType::FUNCTION), ("let", TokenType::LET)];
        proof {
            reveal_strlit("fn");
            reveal_strlit("let");
            assert("fn"@ =~= seq!['f', 'n']);
            assert("let"@ =~= seq!['l', 'e', 't']);
        }
        let mut i: usize = 0;
        while i < 2
            invariant
                i <= 2,
                forall|j: int| 0 <= j < i ==> identifier@ != (#[trigger] token_type_words[j]).0@,
            decreases 2 - i,
        {
            let (token_word, token_type) = token_type_words[i];
            if *identifier == String::from_str(token_word) {
                return token_type;
            }
            i = i + 1;
        }
        TokenType::IDENTIFIER
    }

    /// Reads the run of identifier characters at the cursor as one token: a
    /// keyword where the run spells one, an identifier otherwise.
    pub fn read_identifier_token(&mut self) -> (token: Token)
        requires
            old(self).wf(),
        ensures
            final(self).wf(),
            final(self).source() == old(self).source(),
            final(self).cursor() == run_end(
                old(self).source(),
                CharClass::Identifier,
                old(self).cursor(),
            ),
            token@.literal == old(self).source().subrange(old(self).cursor(), final(self).cursor()),
            token@.token_type == keyword_type(token@.literal),
    {
        let start_position = self.read_position - 1;
        while self.is_identifier_char()
            invariant
                self.wf(),
                self.source() == old(self).source(),
                old(self).cursor() <= self.cursor(),
                start_position == old(self).cursor(),
                run_end(self.source(), CharClass::Identifier, self.cursor()) == run_end(
                    old(self).source(),
                    CharClass::Identifier,
                    old(self).cursor(),
                ),
            decreases self.source().len() - self.cursor(),
        {
            self.read_char();
        }
        proof {
            lemma_run_end_bounds(self.source(), CharClass::Identifier, old(self).cursor());
        }
        let literal = String::from_str(
            self.input.as_str().substring_char(start_position, self.read_position - 1),
        );
        let token_type = Lexer::lookup_identifier(&literal);
        Token { literal, token_type }
    }

    /// Reads the run of decimal digits at the cursor as one integer token.
    pub fn read_number_token(&mut self) -> (token: Token)
        requires
            old(self).wf(),
        ensures
            final(self).wf(),
            final(self).source() == old(self).source(),
            final(self).cursor() == run_end(
                old(self).source(),
                CharClass::Digit,
                old(self).cursor(),
            ),
            token@.literal == old(self).source().subrange(old(self).cursor(), final(self).cursor()),
            token@.token_type == TokenType::INT,
    {
        let start_position = self.read_position - 1;
        while self.is_number_char()
            invariant
                self.wf(),
                self.source() == old(self).source(),
                old(self).cursor() <= self.cursor(),
                start_position == old(self).cursor(),
                run_end(self.source(), CharClass::Digit, self.cursor()) == run_end(
                    old(self).source(),
                    CharClass::Digit,
                    old(self).cursor(),
                ),
            decreases self.source().len() - self.cursor(),
        {
            self.read_char();
        }
        proof {
            lemma_run_end_bounds(self.source(), CharClass::Digit, old(self).cursor());
        }
        let literal = String::from_str(
            self.input.as_str().substring_char(start_position, self.read_position - 1),
        );
        Token { literal, token_type: TokenType::INT }
    }

    /// Skips whitespace and reads the token behind it.
    ///
    /// At the end of the input the token is `EOF` with an empty text, and the
    /// scanner stays where it is, so that every later call answers the same.
    /// A character that begins no token is handed out as `ILLEGAL`.
    pub fn next_token(&mut self) -> (token: Token)
        requires
            old(self).wf(),
        ensures
            final(self).wf(),
            final(self).source() == old(self).source(),
            token@ == token_at(
                old(self).source(),
                token_start(old(self).source(), old(self).cursor()),
            ),
            final(self).cursor() == token_end(
                old(self).source(),
                token_start(old(self).source(), old(self).cursor()),
            ),
    {
        self.eat_whitespace();

        if self.current_char == SENTINEL {
            return Token { literal: String::new(), token_type: TokenType::EOF };
        }
        let token_type = match single_char_token_type(self.current_char) {
            Some(t) => t,
            None => {
                if self.is_identifier_char() {
                    return self.read_identifier_token();
                } else if self.is_number_char() {
                    return self.read_number_token();
                }
                TokenType::ILLEGAL
            },
        };
        let literal = String::from_str(
            self.input.as_str().substring_char(self.read_position - 1, self.read_position),
        );
        self.read_char();
        Token { token_type, literal }
    }

    /// Reads the tokens that are left, up to and including the one that
    /// marks the end of the input, and rests where that one was found.
    pub fn tokenize(&mut self) -> (tokens: Vec<Token>)
        requires
            old(self).wf(),
        ensures
            final(self).wf(),
            final(self).source() == old(self).source(),
            final(self).cursor() == scan_end(old(self).source(), old(self).cursor()),
            token_views(tokens@) == tokens_from(old(self).source(), old(self).cursor()),
    {
        let mut tokens: Vec<Token> = Vec::new();
        loop
            invariant_except_break
                self.wf(),
                self.source() == old(self).source(),
                scan_end(self.source(), self.cursor()) == scan_end(
                    old(self).source(),
                    old(self).cursor(),
                ),
                token_views(tokens@) + tokens_from(self.source(), self.cursor()) == tokens_from(
                    old(self).source(),
                    old(self).cursor(),
                ),
            ensures
                self.wf(),
                self.source() == old(self).source(),
                self.cursor() == scan_end(old(self).source(), old(self).cursor()),
                token_views(tokens@) == tokens_from(old(self).source(), old(self).cursor()),
            decreases self.source().len() - self.cursor(),
        {
            let ghost before = self.cursor();
            let ghost seen = token_views(tokens@);
            let token = self.next_token();
            let done = token.token_type == TokenType::EOF;
            tokens.push(token);
            proof {
                let s = self.source();
                let start = token_start(s, before);
                lemma_run_end_bounds(s, CharClass::Whitespace, before);
                lemma_token_end_bounds(s, start);
                assert(token_views(tokens@) =~= seen + seq![token_at(s, start)]);
            }
            if done {
                break;
            }
        }
        tokens
    }
}

} // verus!
