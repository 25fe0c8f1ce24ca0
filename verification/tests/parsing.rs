use lox_syntax::error::LoxErrors;
use lox_syntax::expr::AstPrinter;
use lox_syntax::parser::Parser;
use lox_syntax::scanner::Scanner;
use lox_syntax::token::TokenType;

fn parse_and_print(source: &str) -> String {
    let mut scanner = Scanner::new(source.to_string());
    let tokens = scanner.scan_tokens().unwrap();
    let mut parser = Parser::new(tokens);
    let expression = parser.parse().expect("Could not parse sample code.");
    let printer = AstPrinter;
    printer.print(expression)
}

#[test]
fn test_equality() {
    let mut scanner = Scanner::new("-123 * 45.67".to_string());
    let tokens = scanner.scan_tokens().unwrap();

    let mut parser = Parser::new(tokens);
    let expression = parser.parse().expect("Could not parse sample code.");
    let printer = AstPrinter;

    assert_eq!(printer.print(expression), "(* (- 123) 45.67)");
}

#[test]
fn left_associative_minus_chain() {
    assert_eq!(parse_and_print("1 - 2 - 3"), "(- (- 1 2) 3)");
}

#[test]
fn left_associative_four_layer_mix() {
    assert_eq!(parse_and_print("1 + 2 * 3 <= 4 == true"), "(== (<= (+ 1 (* 2 3)) 4) true)");
}

#[test]
fn right_associative_unary_chain() {
    assert_eq!(parse_and_print("- - 5"), "(- (- 5))");
}

#[test]
fn bang_chain_is_right_nested() {
    assert_eq!(parse_and_print("!!true"), "(! (! true))");
}

#[test]
fn nested_parentheses_keep_their_depth() {
    assert_eq!(parse_and_print("((5))"), "(group (group 5))");
    assert_eq!(parse_and_print("(1 + 2)"), "(group (+ 1 2))");
}

#[test]
fn literals_parse_to_leaves() {
    assert_eq!(parse_and_print("nil"), "null");
    assert_eq!(parse_and_print("true"), "true");
    assert_eq!(parse_and_print("false"), "false");
    assert_eq!(parse_and_print("\"word\""), "word");
}

#[test]
fn comment_is_not_part_of_the_expression() {
    assert_eq!(parse_and_print("1 // note\n+ 2"), "(+ 1 2)");
}

#[test]
fn unmatched_right_paren_is_a_primary_error() {
    let mut scanner = Scanner::new(")".to_string());
    let tokens = scanner.scan_tokens().unwrap();
    let mut parser = Parser::new(tokens);
    assert!(parser.parse().is_none());

    let mut scanner = Scanner::new(")".to_string());
    let tokens = scanner.scan_tokens().unwrap();
    let mut parser = Parser::new(tokens);
    match parser.expression() {
        Err(LoxErrors::PrimaryExprError(token)) => {
            assert_eq!(token.token_type, TokenType::RightParen);
            assert_eq!(token.lexeme, ")");
            assert_eq!(token.line, 1);
        },
        other => panic!("expected a primary-expression error, got {:?}", other),
    }
}

#[test]
fn missing_close_paren_is_an_unexpected_token_error() {
    let mut scanner = Scanner::new("(1 + 2".to_string());
    let tokens = scanner.scan_tokens().unwrap();
    let mut parser = Parser::new(tokens);
    match parser.expression() {
        Err(LoxErrors::UnexpectedTokenTypeFound(kind)) => {
            assert_eq!(kind, TokenType::RightParen);
        },
        other => panic!("expected an unexpected-token error, got {:?}", other),
    }
}

#[test]
fn error_in_a_binary_chain_propagates() {
    let mut scanner = Scanner::new("1 + *".to_string());
    let tokens = scanner.scan_tokens().unwrap();
    let mut parser = Parser::new(tokens);
    match parser.expression() {
        Err(LoxErrors::PrimaryExprError(token)) => {
            assert_eq!(token.token_type, TokenType::Star);
        },
        other => panic!("expected a primary-expression error, got {:?}", other),
    }
}

#[test]
fn empty_input_is_a_primary_error_at_the_sentinel() {
    let mut scanner = Scanner::new("".to_string());
    let tokens = scanner.scan_tokens().unwrap();
    let mut parser = Parser::new(tokens);
    match parser.expression() {
        Err(LoxErrors::PrimaryExprError(token)) => {
            assert_eq!(token.token_type, TokenType::Eof);
        },
        other => panic!("expected a primary-expression error, got {:?}", other),
    }
}

#[test]
fn synchronize_stops_past_a_semicolon() {
    let mut scanner = Scanner::new("+ 1 ; var".to_string());
    let tokens = scanner.scan_tokens().unwrap();
    let mut parser = Parser::new(tokens);
    parser.synchronize();
    assert_eq!(parser.peek().token_type, TokenType::Var);
}

#[test]
fn synchronize_stops_before_a_statement_keyword() {
    let mut scanner = Scanner::new("+ 1 2 print x".to_string());
    let tokens = scanner.scan_tokens().unwrap();
    let mut parser = Parser::new(tokens);
    parser.synchronize();
    assert_eq!(parser.peek().token_type, TokenType::Print);
}
