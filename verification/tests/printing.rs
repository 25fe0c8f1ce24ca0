use lox_syntax::error::error;
use lox_syntax::error::parser_error;
use lox_syntax::error::report;
use lox_syntax::expr::AstPrinter;
use lox_syntax::expr::Expr;
use lox_syntax::literal::LiteralValue;
use lox_syntax::token::Token;
use lox_syntax::token::TokenType;

#[test]
fn test_printer() {
    let expression = Expr::Binary {
        left: Box::new(Expr::Unary {
            operator: Token::new(TokenType::Minus, "-".to_string(), LiteralValue::Null, 1),
            right: Box::new(Expr::Literal {
                value: LiteralValue::Number("123".to_string()),
            }),
        }),
        operator: Token::new(TokenType::Star, "*".to_string(), LiteralValue::Null, 1),
        right: Box::new(Expr::Grouping {
            expression: Box::new(Expr::Literal {
                value: LiteralValue::Number("45.67".to_string()),
            }),
        }),
    };
    let printer = AstPrinter;

    assert_eq!(printer.print(expression), "(* (- 123) (group 45.67))");
}

#[test]
fn literal_rendering_per_variant() {
    assert_eq!(LiteralValue::Boolean(true).render(), "true");
    assert_eq!(LiteralValue::Boolean(false).render(), "false");
    assert_eq!(LiteralValue::Null.render(), "null");
    assert_eq!(LiteralValue::Number("1.5".to_string()).render(), "1.5");
    assert_eq!(LiteralValue::Str("abc".to_string()).render(), "abc");
}

#[test]
fn report_formats_the_diagnostic_line() {
    assert_eq!(report(12, " at 'x'", "boom"), "[line 12] Error at 'x': boom");
}

#[test]
fn error_formats_a_scan_diagnostic() {
    assert_eq!(error(5, "bad input"), "[line 5] Error: bad input");
}

#[test]
fn parser_error_locates_ordinary_tokens() {
    let token = Token::new(TokenType::RightParen, ")".to_string(), LiteralValue::Null, 3);
    assert_eq!(parser_error(&token, "Expect expression."), "[line 3] Error at ')': Expect expression.");
}

#[test]
fn parser_error_locates_the_end_of_input() {
    let token = Token::new(TokenType::Eof, "".to_string(), LiteralValue::Null, 7);
    assert_eq!(parser_error(&token, "Expect expression."), "[line 7] Error at end: Expect expression.");
}

#[test]
fn scan_error_rendering_carries_the_character() {
    let mut scanner = lox_syntax::scanner::Scanner::new("@".to_string());
    let err = scanner.scan_tokens().unwrap_err();
    assert_eq!(err.render(), "Invalid character found while parsing: @");
}

#[test]
fn unterminated_string_rendering_carries_the_line() {
    let mut scanner = lox_syntax::scanner::Scanner::new("\n\"abc".to_string());
    let err = scanner.scan_tokens().unwrap_err();
    assert_eq!(err.render(), "String not terminated, began on line 2");
}

#[test]
fn parse_error_rendering_names_the_demanded_kind() {
    let err = lox_syntax::error::LoxErrors::UnexpectedTokenTypeFound(TokenType::RightParen);
    assert_eq!(err.render(), "Unexpected token found: RightParen");
}

#[test]
fn primary_error_rendering_describes_the_token() {
    let token = Token::new(TokenType::Star, "*".to_string(), LiteralValue::Null, 4);
    let err = lox_syntax::error::LoxErrors::PrimaryExprError(token);
    assert_eq!(
        err.render(),
        "Unexpected token found while parsing primary expr: token_type: Star, lexeme: *, literal: null, line: 4"
    );
}

#[test]
fn token_render_describes_all_parts() {
    let token = Token::new(
        TokenType::Number,
        "45.67".to_string(),
        LiteralValue::Number("45.67".to_string()),
        2,
    );
    assert_eq!(token.render(), "token_type: Number, lexeme: 45.67, literal: 45.67, line: 2");
}
