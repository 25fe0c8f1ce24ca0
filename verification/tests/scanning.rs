use lox_syntax::error::LoxErrors;
use lox_syntax::literal::LiteralValue;
use lox_syntax::scanner::Scanner;
use lox_syntax::token::TokenType;

fn kinds_of(source: &str) -> Vec<TokenType> {
    let mut scanner = Scanner::new(source.to_string());
    let tokens = scanner.scan_tokens().unwrap();
    tokens.iter().map(|t| t.token_type).collect()
}

#[test]
fn whitespace_and_comments_yield_only_eof() {
    let mut scanner = Scanner::new(" \t\r\n// a comment\n \n".to_string());
    let tokens = scanner.scan_tokens().unwrap();
    assert_eq!(tokens.len(), 1);
    assert_eq!(tokens[0].token_type, TokenType::Eof);
    assert_eq!(tokens[0].line, 4);
    assert_eq!(tokens[0].lexeme, "");
}

#[test]
fn comment_alone_reaches_eof_on_its_line() {
    let mut scanner = Scanner::new("// nothing else".to_string());
    let tokens = scanner.scan_tokens().unwrap();
    assert_eq!(tokens.len(), 1);
    assert_eq!(tokens[0].token_type, TokenType::Eof);
    assert_eq!(tokens[0].line, 1);
}

#[test]
fn sample_expression_kind_sequence() {
    assert_eq!(
        kinds_of("-123 * 45.67"),
        vec![
            TokenType::Minus,
            TokenType::Number,
            TokenType::Star,
            TokenType::Number,
            TokenType::Eof,
        ]
    );
}

#[test]
fn sample_expression_number_payloads() {
    let mut scanner = Scanner::new("-123 * 45.67".to_string());
    let tokens = scanner.scan_tokens().unwrap();
    assert!(matches!(&tokens[1].literal, LiteralValue::Number(s) if s == "123"));
    assert_eq!(tokens[1].lexeme, "123");
    assert!(matches!(&tokens[3].literal, LiteralValue::Number(s) if s == "45.67"));
    assert_eq!(tokens[3].lexeme, "45.67");
}

#[test]
fn numbers_are_normalized() {
    let mut scanner = Scanner::new("007 1.50 00.10 0.0 2.0".to_string());
    let tokens = scanner.scan_tokens().unwrap();
    let numerals: Vec<&str> = tokens[..5]
        .iter()
        .map(|t| match &t.literal {
            LiteralValue::Number(s) => s.as_str(),
            _ => panic!("expected a number token"),
        })
        .collect();
    assert_eq!(numerals, vec!["7", "1.5", "0.1", "0", "2"]);
}

#[test]
fn trailing_dot_is_not_part_of_a_number() {
    assert_eq!(
        kinds_of("123."),
        vec![TokenType::Number, TokenType::Dot, TokenType::Eof]
    );
}

#[test]
fn one_and_two_character_operators() {
    assert_eq!(
        kinds_of("! != = == < <= > >= / ( ) { } , . - + ; *"),
        vec![
            TokenType::Bang,
            TokenType::BangEqual,
            TokenType::Equal,
            TokenType::EqualEqual,
            TokenType::Less,
            TokenType::LessEqual,
            TokenType::Greater,
            TokenType::GreaterEqual,
            TokenType::Slash,
            TokenType::LeftParen,
            TokenType::RightParen,
            TokenType::LeftBrace,
            TokenType::RightBrace,
            TokenType::Comma,
            TokenType::Dot,
            TokenType::Minus,
            TokenType::Plus,
            TokenType::Semicolon,
            TokenType::Star,
            TokenType::Eof,
        ]
    );
}

#[test]
fn keywords_and_identifiers() {
    assert_eq!(
        kinds_of("and class else false for fun if nil or print return super this true var while foo _bar1"),
        vec![
            TokenType::And,
            TokenType::Class,
            TokenType::Else,
            TokenType::False,
            TokenType::For,
            TokenType::Fun,
            TokenType::If,
            TokenType::Nil,
            TokenType::Or,
            TokenType::Print,
            TokenType::Return,
            TokenType::Super,
            TokenType::This,
            TokenType::True,
            TokenType::Var,
            TokenType::While,
            TokenType::Identifier,
            TokenType::Identifier,
            TokenType::Eof,
        ]
    );
}

#[test]
fn string_literal_payload_strips_quotes() {
    let mut scanner = Scanner::new("\"hi there\"".to_string());
    let tokens = scanner.scan_tokens().unwrap();
    assert_eq!(tokens[0].token_type, TokenType::Str);
    assert_eq!(tokens[0].lexeme, "\"hi there\"");
    assert!(matches!(&tokens[0].literal, LiteralValue::Str(s) if s == "hi there"));
}

#[test]
fn string_with_embedded_newline_advances_the_line() {
    let mut scanner = Scanner::new("\"hi\nthere\" x".to_string());
    let tokens = scanner.scan_tokens().unwrap();
    assert_eq!(tokens[0].token_type, TokenType::Str);
    assert_eq!(tokens[0].line, 2);
    assert!(matches!(&tokens[0].literal, LiteralValue::Str(s) if s == "hi\nthere"));
    assert_eq!(tokens[1].token_type, TokenType::Identifier);
    assert_eq!(tokens[1].line, 2);
}

#[test]
fn unterminated_string_fails_with_its_starting_line() {
    let mut scanner = Scanner::new("\"abc".to_string());
    let err = scanner.scan_tokens().unwrap_err();
    assert!(matches!(err, LoxErrors::UnterminatedString { line: 1 }));
}

#[test]
fn unterminated_string_reports_the_line_the_string_began_on() {
    let mut scanner = Scanner::new("1\n\"abc\ndef".to_string());
    let err = scanner.scan_tokens().unwrap_err();
    assert!(matches!(err, LoxErrors::UnterminatedString { line: 2 }));
}

#[test]
fn invalid_character_is_carried_in_the_error() {
    let mut scanner = Scanner::new("1 + @".to_string());
    let err = scanner.scan_tokens().unwrap_err();
    assert!(matches!(err, LoxErrors::InvalidCharacter('@')));
}

#[test]
fn scanning_aborts_on_the_first_error() {
    let mut scanner = Scanner::new("@ $ 1".to_string());
    let err = scanner.scan_tokens().unwrap_err();
    assert!(matches!(err, LoxErrors::InvalidCharacter('@')));
}

#[test]
fn line_numbers_follow_newlines() {
    let mut scanner = Scanner::new("1\n2\n3".to_string());
    let tokens = scanner.scan_tokens().unwrap();
    let lines: Vec<usize> = tokens.iter().map(|t| t.line).collect();
    assert_eq!(lines, vec![1, 2, 3, 3]);
}
