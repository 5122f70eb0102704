//! Tokens: the classified, indivisible units that the scanner produces.

use vstd::prelude::*;

verus! {

/// The closed set of token kinds.
#[allow(non_camel_case_types)]
#[derive(Clone, Copy, Debug, PartialEq, Eq, Structural)]
pub enum TokenType {
    /// A character that belongs to no recognised class.
    ILLEGAL,
    /// The end of the input.
    EOF,
    /// `=`
    ASSIGN,
    /// `+`
    PLUS,
    /// `,`
    COMMA,
    /// `;`
    SEMICOLON,
    /// `(`
    LPARAN,
    /// `)`
    RPARAN,
    /// `{`
    LBRACE,
    /// `}`
    RBRACE,
    /// The keyword `fn`.
    FUNCTION,
    /// The keyword `let`.
    LET,
    /// A run of identifier characters that is no keyword.
    IDENTIFIER,
    /// A run of decimal digits.
    INT,
}

/// A token: its kind and the exact piece of the input it was read from.
#[derive(Debug)]
pub struct Token {
    pub token_type: TokenType,
    pub literal: String,
}

/// The mathematical value of a [`Token`].
pub struct TokenView {
    pub token_type: TokenType,
    pub literal: Seq<char>,
}

impl View for Token {
    type V = TokenView;

    open spec fn view(&self) -> TokenView {
        TokenView { token_type: self.token_type, literal: self.literal@ }
    }
}

impl TokenType {
    /// The name of the kind, in capital letters.
    pub open spec fn name_text(self) -> Seq<char> {
        match self {
            TokenType::ILLEGAL => "ILLEGAL"@,
            TokenType::EOF => "EOF"@,
            TokenType::ASSIGN => "ASSIGN"@,
            TokenType::PLUS => "PLUS"@,
            TokenType::COMMA => "COMMA"@,
            TokenType::SEMICOLON => "SEMICOLON"@,
            TokenType::LPARAN => "LPARAN"@,
            TokenType::RPARAN => "RPARAN"@,
            TokenType::LBRACE => "LBRACE"@,
            TokenType::RBRACE => "RBRACE"@,
            TokenType::FUNCTION => "FUNCTION"@,
            TokenType::LET => "LET"@,
            TokenType::IDENTIFIER => "IDENTIFIER"@,
            TokenType::INT => "INT"@,
        }
    }

    /// The name of the kind.
    pub fn name(&self) -> (name: &'static str)
        ensures
            name@ == self.name_text(),
    {
        match self {
            TokenType::ILLEGAL => "ILLEGAL",
            TokenType::EOF => "EOF",
            TokenType::ASSIGN => "ASSIGN",
            TokenType::PLUS => "PLUS",
            TokenType::COMMA => "COMMA",
            TokenType::SEMICOLON => "SEMICOLON",
            TokenType::LPARAN => "LPARAN",
            TokenType::RPARAN => "RPARAN",
            TokenType::LBRACE => "LBRACE",
            TokenType::RBRACE => "RBRACE",
            TokenType::FUNCTION => "FUNCTION",
            TokenType::LET => "LET",
            TokenType::IDENTIFIER => "IDENTIFIER",
            TokenType::INT => "INT",
        }
    }
}

impl Token {
    /// The token as a line of text: the name of its kind, a comma and a
    /// space, and its text.
    pub fn to_text(&self) -> (text: String)
        ensures
            text@ == self.token_type.name_text() + ", "@ + self.literal@,
    {
        let mut text = String::from_str(self.token_type.name());
        text.append(", ");
        text.append(self.literal.as_str());
        text
    }
}

/// The values of a list of tokens.
pub open spec fn token_views(tokens: Seq<Token>) -> Seq<TokenView> {
    tokens.map_values(|t: Token| t@)
}

} // verus!
