use monkey_lexer::{Lexer, Token, TokenType};

/// Scans `input` to its end and returns the kind and text of every token.
fn scan(input: &str) -> Vec<(TokenType, String)> {
    let mut l = Lexer::new(String::from(input));
    let mut out = Vec::new();
    loop {
        let token = l.next_token();
        let done = token.token_type == TokenType::EOF;
        out.push((token.token_type, token.literal));
        if done {
            return out;
        }
        assert!(out.len() <= input.chars().count());
    }
}

fn pairs(expected: &[(TokenType, &str)]) -> Vec<(TokenType, String)> {
    expected.iter().map(|(t, s)| (*t, String::from(*s))).collect()
}

#[test]
fn lex_compound() {
    let correct_token_types = [
        TokenType::FUNCTION,
        TokenType::IDENTIFIER,
        TokenType::LPARAN,
        TokenType::RPARAN,
        TokenType::LBRACE,
        TokenType::LET,
        TokenType::IDENTIFIER,
        TokenType::ASSIGN,
        TokenType::LPARAN,
        TokenType::INT,
        TokenType::PLUS,
        TokenType::INT,
        TokenType::RPARAN,
        TokenType::SEMICOLON,
        TokenType::RBRACE,
        TokenType::EOF,
    ];

    let mut l = Lexer::new(String::from("fn main() { let i = (\n2 +  2    ); }"));

    for correct_token in correct_token_types.into_iter() {
        assert_eq!(l.next_token().token_type, correct_token);
    }
}

#[test]
fn lex_compound_texts() {
    assert_eq!(
        scan("fn main() { let i = (\n2 +  2    ); }"),
        pairs(&[
            (TokenType::FUNCTION, "fn"),
            (TokenType::IDENTIFIER, "main"),
            (TokenType::LPARAN, "("),
            (TokenType::RPARAN, ")"),
            (TokenType::LBRACE, "{"),
            (TokenType::LET, "let"),
            (TokenType::IDENTIFIER, "i"),
            (TokenType::ASSIGN, "="),
            (TokenType::LPARAN, "("),
            (TokenType::INT, "2"),
            (TokenType::PLUS, "+"),
            (TokenType::INT, "2"),
            (TokenType::RPARAN, ")"),
            (TokenType::SEMICOLON, ";"),
            (TokenType::RBRACE, "}"),
            (TokenType::EOF, ""),
        ])
    );
}

#[test]
fn small_program_on_one_line() {
    assert_eq!(
        scan("fn main() { let i = (2 + 2); }"),
        pairs(&[
            (TokenType::FUNCTION, "fn"),
            (TokenType::IDENTIFIER, "main"),
            (TokenType::LPARAN, "("),
            (TokenType::RPARAN, ")"),
            (TokenType::LBRACE, "{"),
            (TokenType::LET, "let"),
            (TokenType::IDENTIFIER, "i"),
            (TokenType::ASSIGN, "="),
            (TokenType::LPARAN, "("),
            (TokenType::INT, "2"),
            (TokenType::PLUS, "+"),
            (TokenType::INT, "2"),
            (TokenType::RPARAN, ")"),
            (TokenType::SEMICOLON, ";"),
            (TokenType::RBRACE, "}"),
            (TokenType::EOF, ""),
        ])
    );
}

#[test]
fn empty_input_is_end_of_input() {
    assert_eq!(scan(""), pairs(&[(TokenType::EOF, "")]));
}

#[test]
fn whitespace_alone_is_end_of_input() {
    assert_eq!(scan(" \t\r\n  "), pairs(&[(TokenType::EOF, "")]));
}

#[test]
fn end_of_input_repeats() {
    let mut l = Lexer::new(String::from("x "));
    assert_eq!(l.next_token().token_type, TokenType::IDENTIFIER);
    for _ in 0..5 {
        let token = l.next_token();
        assert_eq!(token.token_type, TokenType::EOF);
        assert_eq!(token.literal, "");
    }
}

#[test]
fn exactly_one_end_of_input_at_the_end() {
    let tokens = scan("let a = 1 ; @ b");
    let ends = tokens.iter().filter(|(t, _)| *t == TokenType::EOF).count();
    assert_eq!(ends, 1);
    assert_eq!(tokens.last().unwrap().0, TokenType::EOF);
    assert_eq!(tokens.len(), 8);
}

#[test]
fn single_character_tokens_alone() {
    let table = [
        ("=", TokenType::ASSIGN),
        ("+", TokenType::PLUS),
        ("(", TokenType::LPARAN),
        (")", TokenType::RPARAN),
        ("{", TokenType::LBRACE),
        ("}", TokenType::RBRACE),
        (",", TokenType::COMMA),
        (";", TokenType::SEMICOLON),
    ];
    for (text, kind) in table {
        assert_eq!(scan(text), pairs(&[(kind, text), (TokenType::EOF, "")]));
    }
}

#[test]
fn single_character_tokens_in_a_row() {
    assert_eq!(
        scan("=+(){},;"),
        pairs(&[
            (TokenType::ASSIGN, "="),
            (TokenType::PLUS, "+"),
            (TokenType::LPARAN, "("),
            (TokenType::RPARAN, ")"),
            (TokenType::LBRACE, "{"),
            (TokenType::RBRACE, "}"),
            (TokenType::COMMA, ","),
            (TokenType::SEMICOLON, ";"),
            (TokenType::EOF, ""),
        ])
    );
}

#[test]
fn no_two_character_operators() {
    assert_eq!(
        scan("=="),
        pairs(&[(TokenType::ASSIGN, "="), (TokenType::ASSIGN, "="), (TokenType::EOF, "")])
    );
    assert_eq!(
        scan("!="),
        pairs(&[(TokenType::ILLEGAL, "!"), (TokenType::ASSIGN, "="), (TokenType::EOF, "")])
    );
}

#[test]
fn keywords_are_exact() {
    assert_eq!(scan("fn"), pairs(&[(TokenType::FUNCTION, "fn"), (TokenType::EOF, "")]));
    assert_eq!(scan("let"), pairs(&[(TokenType::LET, "let"), (TokenType::EOF, "")]));
    assert_eq!(scan("Let"), pairs(&[(TokenType::IDENTIFIER, "Let"), (TokenType::EOF, "")]));
    assert_eq!(scan("LET"), pairs(&[(TokenType::IDENTIFIER, "LET"), (TokenType::EOF, "")]));
    assert_eq!(scan("Fn"), pairs(&[(TokenType::IDENTIFIER, "Fn"), (TokenType::EOF, "")]));
    assert_eq!(scan("_fn"), pairs(&[(TokenType::IDENTIFIER, "_fn"), (TokenType::EOF, "")]));
    assert_eq!(scan("fn_"), pairs(&[(TokenType::IDENTIFIER, "fn_"), (TokenType::EOF, "")]));
    assert_eq!(scan("lets"), pairs(&[(TokenType::IDENTIFIER, "lets"), (TokenType::EOF, "")]));
    assert_eq!(scan("f"), pairs(&[(TokenType::IDENTIFIER, "f"), (TokenType::EOF, "")]));
    assert_eq!(scan("_"), pairs(&[(TokenType::IDENTIFIER, "_"), (TokenType::EOF, "")]));
}

#[test]
fn lookup_identifier_knows_two_keywords() {
    assert_eq!(Lexer::lookup_identifier(&String::from("fn")), TokenType::FUNCTION);
    assert_eq!(Lexer::lookup_identifier(&String::from("let")), TokenType::LET);
    assert_eq!(Lexer::lookup_identifier(&String::from("Let")), TokenType::IDENTIFIER);
    assert_eq!(Lexer::lookup_identifier(&String::from("fn1")), TokenType::IDENTIFIER);
    assert_eq!(Lexer::lookup_identifier(&String::from("_fn")), TokenType::IDENTIFIER);
    assert_eq!(Lexer::lookup_identifier(&String::from("")), TokenType::IDENTIFIER);
    assert_eq!(Lexer::lookup_identifier(&String::from("main")), TokenType::IDENTIFIER);
}

#[test]
fn digits_end_an_identifier() {
    assert_eq!(
        scan("fn1"),
        pairs(&[(TokenType::FUNCTION, "fn"), (TokenType::INT, "1"), (TokenType::EOF, "")])
    );
    assert_eq!(
        scan("abc123"),
        pairs(&[(TokenType::IDENTIFIER, "abc"), (TokenType::INT, "123"), (TokenType::EOF, "")])
    );
}

#[test]
fn letters_end_an_integer() {
    assert_eq!(
        scan("123abc"),
        pairs(&[(TokenType::INT, "123"), (TokenType::IDENTIFIER, "abc"), (TokenType::EOF, "")])
    );
    assert_eq!(
        scan("7let"),
        pairs(&[(TokenType::INT, "7"), (TokenType::LET, "let"), (TokenType::EOF, "")])
    );
}

#[test]
fn integers_have_no_sign_and_no_point() {
    assert_eq!(
        scan("-5"),
        pairs(&[(TokenType::ILLEGAL, "-"), (TokenType::INT, "5"), (TokenType::EOF, "")])
    );
    assert_eq!(
        scan("1.5"),
        pairs(&[
            (TokenType::INT, "1"),
            (TokenType::ILLEGAL, "."),
            (TokenType::INT, "5"),
            (TokenType::EOF, ""),
        ])
    );
    assert_eq!(
        scan("0012345678901234567890123456789"),
        pairs(&[(TokenType::INT, "0012345678901234567890123456789"), (TokenType::EOF, "")])
    );
}

#[test]
fn illegal_characters_are_tokens() {
    assert_eq!(scan("@"), pairs(&[(TokenType::ILLEGAL, "@"), (TokenType::EOF, "")]));
    assert_eq!(scan("#"), pairs(&[(TokenType::ILLEGAL, "#"), (TokenType::EOF, "")]));
    assert_eq!(
        scan("@a #1"),
        pairs(&[
            (TokenType::ILLEGAL, "@"),
            (TokenType::IDENTIFIER, "a"),
            (TokenType::ILLEGAL, "#"),
            (TokenType::INT, "1"),
            (TokenType::EOF, ""),
        ])
    );
}

#[test]
fn letters_beyond_ascii_are_identifier_characters() {
    assert_eq!(scan("été"), pairs(&[(TokenType::IDENTIFIER, "été"), (TokenType::EOF, "")]));
    assert_eq!(
        scan("京 = 1"),
        pairs(&[
            (TokenType::IDENTIFIER, "京"),
            (TokenType::ASSIGN, "="),
            (TokenType::INT, "1"),
            (TokenType::EOF, ""),
        ])
    );
}

#[test]
fn symbols_beyond_ascii_are_illegal() {
    assert_eq!(
        scan("a💝b"),
        pairs(&[
            (TokenType::IDENTIFIER, "a"),
            (TokenType::ILLEGAL, "💝"),
            (TokenType::IDENTIFIER, "b"),
            (TokenType::EOF, ""),
        ])
    );
    assert_eq!(scan("½"), pairs(&[(TokenType::ILLEGAL, "½"), (TokenType::EOF, "")]));
}

#[test]
fn a_sentinel_in_the_text_ends_the_scan() {
    let mut l = Lexer::new(String::from("a\0b"));
    let first = l.next_token();
    assert_eq!((first.token_type, first.literal.as_str()), (TokenType::IDENTIFIER, "a"));
    for _ in 0..3 {
        let token = l.next_token();
        assert_eq!((token.token_type, token.literal.as_str()), (TokenType::EOF, ""));
    }
}

#[test]
fn texts_and_skipped_whitespace_make_up_the_input() {
    let input = " let  x1 =\t(a+ 22) ;\r\n@ ";
    let tokens = scan(input);
    let mut rest = input;
    let mut rebuilt = String::new();
    for (_, text) in tokens.iter() {
        let trimmed = rest.trim_start_matches([' ', '\t', '\n', '\r']);
        rebuilt.push_str(&rest[..rest.len() - trimmed.len()]);
        assert!(trimmed.starts_with(text.as_str()));
        rebuilt.push_str(text);
        rest = &trimmed[text.len()..];
    }
    assert_eq!(rest, "");
    assert_eq!(rebuilt, input);
    let texts: String = tokens.iter().map(|(_, text)| text.as_str()).collect();
    assert_eq!(texts, "letx1=(a+22);@");
}

#[test]
fn whitespace_between_tokens_changes_nothing() {
    let plain = scan("let x=(a+22);");
    assert_eq!(scan("let x = ( a + 22 ) ;"), plain);
    assert_eq!(scan("\n\nlet\tx\r\n=\n(a\t+\t22)\n;\n"), plain);
    assert_eq!(scan("   let x=(a+22);   "), plain);
    assert_eq!(plain.len(), 10);
}

#[test]
fn whitespace_within_a_token_splits_it() {
    assert_eq!(
        scan("ab"),
        pairs(&[(TokenType::IDENTIFIER, "ab"), (TokenType::EOF, "")])
    );
    assert_eq!(
        scan("a b"),
        pairs(&[(TokenType::IDENTIFIER, "a"), (TokenType::IDENTIFIER, "b"), (TokenType::EOF, "")])
    );
}

#[test]
fn tokenize_reads_to_the_end() {
    let mut l = Lexer::new(String::from("wow = 1 + 1;"));
    let tokens: Vec<Token> = l.tokenize();
    let got: Vec<(TokenType, String)> =
        tokens.into_iter().map(|t| (t.token_type, t.literal)).collect();
    assert_eq!(
        got,
        pairs(&[
            (TokenType::IDENTIFIER, "wow"),
            (TokenType::ASSIGN, "="),
            (TokenType::INT, "1"),
            (TokenType::PLUS, "+"),
            (TokenType::INT, "1"),
            (TokenType::SEMICOLON, ";"),
            (TokenType::EOF, ""),
        ])
    );
    let again = l.tokenize();
    assert_eq!(again.len(), 1);
    assert_eq!(again[0].token_type, TokenType::EOF);
}

#[test]
fn tokenize_after_some_tokens() {
    let mut l = Lexer::new(String::from("a b c"));
    assert_eq!(l.next_token().literal, "a");
    let rest = l.tokenize();
    let texts: Vec<&str> = rest.iter().map(|t| t.literal.as_str()).collect();
    assert_eq!(texts, vec!["b", "c", ""]);
}

#[test]
fn the_parts_of_next_token() {
    let mut l = Lexer::new(String::from("  ab12 "));
    assert!(!l.is_identifier_char());
    assert!(!l.is_number_char());
    l.eat_whitespace();
    assert!(l.is_identifier_char());
    assert!(!l.is_number_char());
    let word = l.read_identifier_token();
    assert_eq!((word.token_type, word.literal.as_str()), (TokenType::IDENTIFIER, "ab"));
    assert!(l.is_number_char());
    assert!(!l.is_identifier_char());
    let number = l.read_number_token();
    assert_eq!((number.token_type, number.literal.as_str()), (TokenType::INT, "12"));
    l.read_char();
    assert!(!l.is_identifier_char());
    assert_eq!(l.next_token().token_type, TokenType::EOF);
}

#[test]
fn a_run_of_no_length_is_an_empty_token() {
    let mut l = Lexer::new(String::from("+"));
    let word = l.read_identifier_token();
    assert_eq!((word.token_type, word.literal.as_str()), (TokenType::IDENTIFIER, ""));
    let number = l.read_number_token();
    assert_eq!((number.token_type, number.literal.as_str()), (TokenType::INT, ""));
    assert_eq!(l.next_token().token_type, TokenType::PLUS);
}

#[test]
fn underscore_is_an_identifier_character() {
    let mut l = Lexer::new(String::from("_"));
    assert!(l.is_identifier_char());
    let mut l = Lexer::new(String::from("9"));
    assert!(l.is_number_char());
    assert!(!l.is_identifier_char());
    l.read_char();
    assert!(!l.is_number_char());
}

#[test]
fn only_four_characters_are_whitespace() {
    assert_eq!(
        scan("a\u{b}b"),
        pairs(&[
            (TokenType::IDENTIFIER, "a"),
            (TokenType::ILLEGAL, "\u{b}"),
            (TokenType::IDENTIFIER, "b"),
            (TokenType::EOF, ""),
        ])
    );
    assert_eq!(
        scan("a\u{a0}b"),
        pairs(&[
            (TokenType::IDENTIFIER, "a"),
            (TokenType::ILLEGAL, "\u{a0}"),
            (TokenType::IDENTIFIER, "b"),
            (TokenType::EOF, ""),
        ])
    );
}

#[test]
fn runs_have_no_bound_on_their_length() {
    let word = "x".repeat(300);
    let number = "7".repeat(300);
    let input = format!("{} {}", word, number);
    assert_eq!(
        scan(&input),
        pairs(&[
            (TokenType::IDENTIFIER, word.as_str()),
            (TokenType::INT, number.as_str()),
            (TokenType::EOF, ""),
        ])
    );
}
