use shrub_lang::lexer::scan_tokens;
use shrub_lang::shrub_error::SyntaxError;
use shrub_lang::token::{DataType, Token, TokenType};

fn scan_ok(source: &str) -> Vec<Token> {
    match scan_tokens(source) {
        Ok(tokens) => tokens,
        Err(e) => panic!("scan failed: {} at line {}", e.message, e.line_number),
    }
}

fn scan_err(source: &str) -> SyntaxError {
    match scan_tokens(source) {
        Ok(_) => panic!("scan unexpectedly succeeded"),
        Err(e) => e,
    }
}

#[test]
fn empty_source_yields_single_eof() {
    let tokens = scan_ok("");
    assert_eq!(tokens.len(), 1);
    assert_eq!(tokens[0].name, TokenType::EOF);
    assert_eq!(tokens[0].lexeme, "");
    assert_eq!(tokens[0].value, DataType::NULL);
    assert_eq!(tokens[0].line_number, 0);
}

#[test]
fn one_plus_two() {
    let tokens = scan_ok("1+2");
    assert_eq!(tokens.len(), 4);
    assert_eq!(tokens[0].name, TokenType::NUMBER);
    assert_eq!(tokens[0].lexeme, "1");
    assert_eq!(tokens[0].value, DataType::NUMBER(String::from("1")));
    assert_eq!(tokens[1].name, TokenType::PLUS);
    assert_eq!(tokens[1].lexeme, "+");
    assert_eq!(tokens[1].value, DataType::NULL);
    assert_eq!(tokens[2].name, TokenType::NUMBER);
    assert_eq!(tokens[2].lexeme, "2");
    assert_eq!(tokens[2].value, DataType::NUMBER(String::from("2")));
    assert_eq!(tokens[3].name, TokenType::EOF);
}

#[test]
fn bang_equal_is_one_token() {
    let tokens = scan_ok("!=");
    assert_eq!(tokens.len(), 2);
    assert_eq!(tokens[0].name, TokenType::BANGEQUAL);
    assert_eq!(tokens[0].lexeme, "!=");
    assert_eq!(tokens[1].name, TokenType::EOF);
}

#[test]
fn lone_equal_is_equal() {
    let tokens = scan_ok("=");
    assert_eq!(tokens.len(), 2);
    assert_eq!(tokens[0].name, TokenType::EQUAL);
    assert_eq!(tokens[0].lexeme, "=");
    assert_eq!(tokens[1].name, TokenType::EOF);
}

#[test]
fn classy_is_one_identifier() {
    let tokens = scan_ok("classy");
    assert_eq!(tokens.len(), 2);
    assert_eq!(tokens[0].name, TokenType::IDENTIFIER);
    assert_eq!(tokens[0].lexeme, "classy");
    assert_eq!(tokens[0].value, DataType::NULL);
    assert_eq!(tokens[1].name, TokenType::EOF);
}

#[test]
fn comment_is_discarded_and_line_advances() {
    let tokens = scan_ok("// comment\n123");
    assert_eq!(tokens.len(), 2);
    assert_eq!(tokens[0].name, TokenType::NUMBER);
    assert_eq!(tokens[0].lexeme, "123");
    assert_eq!(tokens[0].line_number, 1);
    assert_eq!(tokens[1].name, TokenType::EOF);
    assert_eq!(tokens[1].line_number, 1);
}

#[test]
fn comment_at_end_of_input() {
    let tokens = scan_ok("// nothing after this");
    assert_eq!(tokens.len(), 1);
    assert_eq!(tokens[0].name, TokenType::EOF);
    assert_eq!(tokens[0].line_number, 0);
}

#[test]
fn unterminated_string_fails() {
    let error = scan_err("\"abc");
    assert_eq!(error.message, "String never terminates.");
    assert_eq!(error.line_number, 0);
}

#[test]
fn unterminated_string_reports_line_where_input_ended() {
    let error = scan_err("\"ab\ncd");
    assert_eq!(error.message, "String never terminates.");
    assert_eq!(error.line_number, 1);
}

#[test]
fn trailing_dot_is_not_absorbed() {
    let tokens = scan_ok("3.");
    assert_eq!(tokens.len(), 3);
    assert_eq!(tokens[0].name, TokenType::NUMBER);
    assert_eq!(tokens[0].lexeme, "3");
    assert_eq!(tokens[1].name, TokenType::DOT);
    assert_eq!(tokens[1].lexeme, ".");
    assert_eq!(tokens[2].name, TokenType::EOF);
}

#[test]
fn decimal_number_is_one_token() {
    let tokens = scan_ok("3.14");
    assert_eq!(tokens.len(), 2);
    assert_eq!(tokens[0].name, TokenType::NUMBER);
    assert_eq!(tokens[0].lexeme, "3.14");
    assert_eq!(tokens[0].value, DataType::NUMBER(String::from("3.14")));
    assert_eq!(tokens[1].name, TokenType::EOF);
}

#[test]
fn number_spelling_parses_as_double() {
    let tokens = scan_ok("3.14");
    match &tokens[0].value {
        DataType::NUMBER(spelling) => {
            let parsed: f64 = spelling.parse().unwrap();
            assert_eq!(parsed, 3.14);
        }
        _ => panic!("expected a number value"),
    }
}

#[test]
fn rescanning_yields_identical_tokens() {
    let source = "let x = 1.5; // note\nwhile (x != 2) { output \"hi\"; }";
    let first = scan_ok(source);
    let second = scan_ok(source);
    assert_eq!(first, second);
}

#[test]
fn keywords_scan_as_keywords() {
    let table = [
        ("and", TokenType::AND),
        ("or", TokenType::OR),
        ("true", TokenType::TRUE),
        ("false", TokenType::FALSE),
        ("null", TokenType::NULL),
        ("fn", TokenType::FN),
        ("class", TokenType::CLASS),
        ("output", TokenType::OUTPUT),
        ("let", TokenType::LET),
        ("for", TokenType::FOR),
        ("if", TokenType::IF),
        ("else", TokenType::ELSE),
        ("while", TokenType::WHILE),
        ("return", TokenType::RETURN),
        ("super", TokenType::SUPER),
    ];
    for (spelling, expected) in table.iter() {
        let tokens = scan_ok(spelling);
        assert_eq!(tokens.len(), 2);
        assert_eq!(tokens[0].name, *expected);
        assert_ne!(tokens[0].name, TokenType::IDENTIFIER);
        assert_eq!(tokens[0].lexeme, *spelling);
        assert_eq!(tokens[0].value, DataType::NULL);
        assert_eq!(tokens[1].name, TokenType::EOF);
    }
}

#[test]
fn keyword_with_trailing_letter_is_identifier() {
    for source in ["anda", "org", "fnx", "lets", "supers", "if0", "while_"].iter() {
        let tokens = scan_ok(source);
        assert_eq!(tokens.len(), 2);
        assert_eq!(tokens[0].name, TokenType::IDENTIFIER);
        assert_eq!(tokens[0].lexeme, *source);
    }
}

#[test]
fn single_character_punctuation() {
    let tokens = scan_ok("(){}.,+-*/;");
    let expected = [
        TokenType::LBRACKET,
        TokenType::RBRACKET,
        TokenType::LBRACE,
        TokenType::RBRACE,
        TokenType::DOT,
        TokenType::COMMA,
        TokenType::PLUS,
        TokenType::MINUS,
        TokenType::STAR,
        TokenType::SLASH,
        TokenType::SEMICOLON,
        TokenType::EOF,
    ];
    assert_eq!(tokens.len(), expected.len());
    for (token, kind) in tokens.iter().zip(expected.iter()) {
        assert_eq!(token.name, *kind);
    }
}

#[test]
fn one_and_two_character_operators() {
    let tokens = scan_ok("= == ! != < <= > >=");
    let expected = [
        (TokenType::EQUAL, "="),
        (TokenType::EQUALEQUAL, "=="),
        (TokenType::BANG, "!"),
        (TokenType::BANGEQUAL, "!="),
        (TokenType::LESS, "<"),
        (TokenType::LESSEQUAL, "<="),
        (TokenType::GREATER, ">"),
        (TokenType::GREATEREQUAL, ">="),
    ];
    assert_eq!(tokens.len(), expected.len() + 1);
    for (token, (kind, lexeme)) in tokens.iter().zip(expected.iter()) {
        assert_eq!(token.name, *kind);
        assert_eq!(token.lexeme, *lexeme);
    }
    assert_eq!(tokens[expected.len()].name, TokenType::EOF);
}

#[test]
fn string_literal_keeps_quotes_in_lexeme_only() {
    let tokens = scan_ok("\"abc\"");
    assert_eq!(tokens.len(), 2);
    assert_eq!(tokens[0].name, TokenType::STRING);
    assert_eq!(tokens[0].lexeme, "\"abc\"");
    assert_eq!(tokens[0].value, DataType::TEXT(String::from("abc")));
    assert_eq!(tokens[1].name, TokenType::EOF);
}

#[test]
fn string_with_embedded_newline_advances_line() {
    let tokens = scan_ok("\"a\nb\"c");
    assert_eq!(tokens.len(), 3);
    assert_eq!(tokens[0].name, TokenType::STRING);
    assert_eq!(tokens[0].value, DataType::TEXT(String::from("a\nb")));
    assert_eq!(tokens[0].line_number, 1);
    assert_eq!(tokens[1].name, TokenType::IDENTIFIER);
    assert_eq!(tokens[1].lexeme, "c");
    assert_eq!(tokens[1].line_number, 1);
    assert_eq!(tokens[2].name, TokenType::EOF);
}

#[test]
fn unexpected_character_fails_with_its_line() {
    let error = scan_err("\n\n@");
    assert_eq!(error.message, "Unexpected Character");
    assert_eq!(error.line_number, 2);
}

#[test]
fn newlines_advance_the_line_counter() {
    let tokens = scan_ok("a\nb\r\n c");
    assert_eq!(tokens.len(), 4);
    assert_eq!(tokens[0].lexeme, "a");
    assert_eq!(tokens[0].line_number, 0);
    assert_eq!(tokens[1].lexeme, "b");
    assert_eq!(tokens[1].line_number, 1);
    assert_eq!(tokens[2].lexeme, "c");
    assert_eq!(tokens[2].line_number, 2);
    assert_eq!(tokens[3].name, TokenType::EOF);
    assert_eq!(tokens[3].line_number, 2);
}

#[test]
fn underscore_starts_an_identifier() {
    let tokens = scan_ok("_tmp1");
    assert_eq!(tokens.len(), 2);
    assert_eq!(tokens[0].name, TokenType::IDENTIFIER);
    assert_eq!(tokens[0].lexeme, "_tmp1");
}

#[test]
fn slash_between_numbers_is_division() {
    let tokens = scan_ok("4/2");
    assert_eq!(tokens.len(), 4);
    assert_eq!(tokens[0].name, TokenType::NUMBER);
    assert_eq!(tokens[1].name, TokenType::SLASH);
    assert_eq!(tokens[2].name, TokenType::NUMBER);
    assert_eq!(tokens[3].name, TokenType::EOF);
}

#[test]
fn whitespace_emits_no_tokens() {
    let tokens = scan_ok("  \t\r  ");
    assert_eq!(tokens.len(), 1);
    assert_eq!(tokens[0].name, TokenType::EOF);
    assert_eq!(tokens[0].line_number, 0);
}

#[test]
fn dot_between_digit_runs_binds_only_with_following_digit() {
    let tokens = scan_ok("1.2.3");
    assert_eq!(tokens.len(), 4);
    assert_eq!(tokens[0].name, TokenType::NUMBER);
    assert_eq!(tokens[0].lexeme, "1.2");
    assert_eq!(tokens[1].name, TokenType::DOT);
    assert_eq!(tokens[2].name, TokenType::NUMBER);
    assert_eq!(tokens[2].lexeme, "3");
    assert_eq!(tokens[3].name, TokenType::EOF);
}

#[test]
fn mixed_statement_scans_in_source_order() {
    let tokens = scan_ok("let half = 1/2;");
    let expected = [
        (TokenType::LET, "let"),
        (TokenType::IDENTIFIER, "half"),
        (TokenType::EQUAL, "="),
        (TokenType::NUMBER, "1"),
        (TokenType::SLASH, "/"),
        (TokenType::NUMBER, "2"),
        (TokenType::SEMICOLON, ";"),
        (TokenType::EOF, ""),
    ];
    assert_eq!(tokens.len(), expected.len());
    for (token, (kind, lexeme)) in tokens.iter().zip(expected.iter()) {
        assert_eq!(token.name, *kind);
        assert_eq!(token.lexeme, *lexeme);
    }
}
