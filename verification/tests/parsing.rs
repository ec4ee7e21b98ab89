use rlox::expr::{parenthesize, Expr};
use rlox::lexing::{Scanner, Token, TokenKind};
use rlox::parsing::parse;
use rlox::stmt::Stmt;

fn tokens_of(source: &str) -> Vec<Token> {
    Scanner::new(String::from(source))
        .scan()
        .expect("scanning should succeed")
}

fn single_expression(source: &str) -> Expr {
    let tokens = tokens_of(source);
    let mut stmts = parse(&tokens).expect("parsing should succeed");
    assert_eq!(stmts.len(), 1);
    match stmts.remove(0) {
        Stmt::Expr(e) => e,
        Stmt::Print(e) => e,
    }
}

#[test]
fn parse_multiplication_binds_tighter_than_addition() {
    let expr = single_expression("1 + 2 * 3;");
    assert_eq!(expr.to_text(), "(+ 1 (* 2 3))");
}

#[test]
fn parse_division_binds_tighter_than_subtraction() {
    let expr = single_expression("8 - 6 / 3;");
    assert_eq!(expr.to_text(), "(- 8 (/ 6 3))");
}

#[test]
fn parse_binary_operators_are_left_associative() {
    let expr = single_expression("1 - 2 - 3;");
    assert_eq!(expr.to_text(), "(- (- 1 2) 3)");
}

#[test]
fn parse_grouping_overrides_precedence() {
    let expr = single_expression("(1 + 2) == 3;");
    assert_eq!(expr.to_text(), "(== (group (+ 1 2)) 3)");
}

#[test]
fn parse_comparison_binds_tighter_than_equality() {
    let expr = single_expression("1 < 2 == true;");
    assert_eq!(expr.to_text(), "(== (< 1 2) true)");
}

#[test]
fn parse_unary_operators_stack() {
    let expr = single_expression("!!true;");
    assert_eq!(expr.to_text(), "(! (! true))");
    let expr = single_expression("--1;");
    assert_eq!(expr.to_text(), "(- (- 1))");
}

#[test]
fn parse_literals_print_as_their_values() {
    assert_eq!(single_expression("nil;").to_text(), "nil");
    assert_eq!(single_expression("true;").to_text(), "true");
    assert_eq!(single_expression("1.25;").to_text(), "1.25");
    assert_eq!(single_expression("\"hi\";").to_text(), "hi");
}

#[test]
fn parse_print_statement() {
    let tokens = tokens_of("print 1 + 2;");
    let stmts = parse(&tokens).expect("parsing should succeed");
    assert_eq!(stmts.len(), 1);
    assert!(matches!(stmts[0], Stmt::Print(_)));
}

#[test]
fn parse_several_statements_in_order() {
    let tokens = tokens_of("1; print 2; 3;");
    let stmts = parse(&tokens).expect("parsing should succeed");
    assert_eq!(stmts.len(), 3);
    assert!(matches!(stmts[0], Stmt::Expr(_)));
    assert!(matches!(stmts[1], Stmt::Print(_)));
    assert!(matches!(stmts[2], Stmt::Expr(_)));
}

#[test]
fn parse_missing_semicolon_names_expected_and_found() {
    let tokens = tokens_of("1 + 2");
    let err = parse(&tokens).expect_err("a missing semicolon should fail");
    assert_eq!(err.message, "Syntax error: expected ';'");
    assert_eq!(err.token.kind, TokenKind::Eof);

    let tokens = tokens_of("1 2;");
    let err = parse(&tokens).expect_err("a missing semicolon should fail");
    assert_eq!(err.message, "Syntax error: expected ';'");
    assert_eq!(err.token.kind, TokenKind::Number);
    assert_eq!(err.token.lexeme, "2");
}

#[test]
fn parse_missing_closing_paren_names_the_token() {
    let tokens = tokens_of("(1;");
    let err = parse(&tokens).expect_err("a missing parenthesis should fail");
    assert_eq!(err.message, "Syntax error: expected ')'");
    assert_eq!(err.token.kind, TokenKind::Semicolon);
}

#[test]
fn parse_unexpected_end_of_input() {
    let tokens = tokens_of("1 +");
    let err = parse(&tokens).expect_err("a dangling operator should fail");
    assert_eq!(err.message, "Syntax error: expected primary expression, got EOF");
    assert_eq!(err.token.kind, TokenKind::Eof);
}

#[test]
fn parse_unexpected_token() {
    let tokens = tokens_of("* 1;");
    let err = parse(&tokens).expect_err("a leading operator should fail");
    assert_eq!(err.message, "Syntax error: unexpected token");
    assert_eq!(err.token.kind, TokenKind::Star);
}

#[test]
fn parse_error_token_carries_its_line() {
    let tokens = tokens_of("1;\n(2;");
    let err = parse(&tokens).expect_err("a missing parenthesis should fail");
    assert_eq!(err.message, "Syntax error: expected ')'");
    assert_eq!(err.token.loc.line_begin, 2);
}

#[test]
fn parenthesize_joins_expressions_under_one_head() {
    let one = single_expression("1;");
    let two = single_expression("2;");
    assert_eq!(parenthesize("pair", &[&one, &two]), "(pair 1 2)");
    assert_eq!(parenthesize("unit", &[]), "(unit)");
}
