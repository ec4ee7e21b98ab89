use rlox::interpreter::{evaluate, interpret, is_equal, is_truthy};
use rlox::lexing::{LiteralValue, Scanner};
use rlox::parsing::parse;
use rlox::stmt::Stmt;

fn eval_source(source: &str) -> Result<Option<LiteralValue>, rlox::interpreter::RuntimeError> {
    let tokens = Scanner::new(String::from(source))
        .scan()
        .expect("scanning should succeed");
    let mut stmts = parse(&tokens).expect("parsing should succeed");
    assert_eq!(stmts.len(), 1);
    let expr = match stmts.remove(0) {
        Stmt::Expr(e) => e,
        Stmt::Print(e) => e,
    };
    evaluate(expr)
}

fn eval_text(source: &str) -> String {
    rlox::interpreter::stringify(eval_source(source).expect("evaluation should succeed"))
}

#[test]
fn arithmetic_follows_precedence() {
    assert_eq!(eval_text("1 + 2 * 3;"), "7");
}

#[test]
fn string_concatenation() {
    assert_eq!(eval_text("\"a\" + \"b\";"), "ab");
}

#[test]
fn mixed_plus_is_a_runtime_error() {
    let err = eval_source("1 + \"a\";").expect_err("mixed-type + should fail");
    assert_eq!(
        err.message,
        "Operator + expects either two numeric or two string operands"
    );
    assert_eq!(err.loc.line_begin, 1);
}

#[test]
fn grouped_sum_equals_number() {
    assert_eq!(eval_text("(1 + 2) == 3;"), "true");
}

#[test]
fn nil_equals_only_nil() {
    assert_eq!(eval_text("nil == nil;"), "true");
    assert_eq!(eval_text("nil == false;"), "false");
    assert_eq!(eval_text("nil != 0;"), "true");
}

#[test]
fn equality_never_coerces_types() {
    assert_eq!(eval_text("1 == \"1\";"), "false");
    assert_eq!(eval_text("true == 1;"), "false");
    assert_eq!(eval_text("\"a\" == \"a\";"), "true");
}

#[test]
fn division_by_zero_follows_ieee_semantics() {
    assert_eq!(eval_text("1 / 0;"), "inf");
    assert_eq!(eval_text("-1 / 0;"), "-inf");
    assert_eq!(eval_text("0 / 0;"), "NaN");
}

#[test]
fn nan_is_not_equal_to_itself() {
    assert_eq!(eval_text("(0 / 0) == (0 / 0);"), "false");
    assert_eq!(eval_text("(0 / 0) != (0 / 0);"), "true");
}

#[test]
fn zero_and_negative_zero_are_equal() {
    assert_eq!(eval_text("0 == -0;"), "true");
}

#[test]
fn arithmetic_matches_native_binary64() {
    assert_eq!(eval_text("0.1 + 0.2;"), "0.30000000000000004");
    assert_eq!(eval_text("7 - 0.5;"), "6.5");
    assert_eq!(eval_text("1.5 * 2;"), "3");
    assert_eq!(eval_text("1 / 4;"), "0.25");
}

#[test]
fn comparisons_demand_numbers() {
    assert_eq!(eval_text("1 < 2;"), "true");
    assert_eq!(eval_text("2 <= 2;"), "true");
    assert_eq!(eval_text("3 > 4;"), "false");
    assert_eq!(eval_text("4 >= 4;"), "true");
    let err = eval_source("\"a\" < \"b\";").expect_err("comparing strings should fail");
    assert_eq!(err.message, "Binary operator < expects two numeric operands");
}

#[test]
fn numeric_binary_operators_demand_numbers() {
    let err = eval_source("1 - nil;").expect_err("subtracting nil should fail");
    assert_eq!(err.message, "Binary operator - expects two numeric operands");
    let err = eval_source("\"a\" * 2;").expect_err("multiplying a string should fail");
    assert_eq!(err.message, "Binary operator * expects two numeric operands");
}

#[test]
fn unary_minus_demands_a_number() {
    assert_eq!(eval_text("-2;"), "-2");
    assert_eq!(eval_text("--2;"), "2");
    let err = eval_source("-\"a\";").expect_err("negating a string should fail");
    assert_eq!(err.message, "Unary operator - expects a numeric operand");
}

#[test]
fn bang_negates_truthiness() {
    assert_eq!(eval_text("!nil;"), "true");
    assert_eq!(eval_text("!false;"), "true");
    assert_eq!(eval_text("!true;"), "false");
    assert_eq!(eval_text("!0;"), "false");
    assert_eq!(eval_text("!\"\";"), "false");
}

#[test]
fn truthiness_of_values() {
    assert!(!is_truthy(None));
    assert!(!is_truthy(Some(LiteralValue::Bool(false))));
    assert!(is_truthy(Some(LiteralValue::Bool(true))));
    assert!(is_truthy(Some(LiteralValue::Number(0.0f64.to_bits()))));
    assert!(is_truthy(Some(LiteralValue::String(String::new()))));
}

#[test]
fn structural_equality_of_values() {
    assert!(is_equal(None, None));
    assert!(!is_equal(None, Some(LiteralValue::Bool(false))));
    assert!(is_equal(
        Some(LiteralValue::Number(1.0f64.to_bits())),
        Some(LiteralValue::Number(1.0f64.to_bits()))
    ));
    assert!(!is_equal(
        Some(LiteralValue::Number(1.0f64.to_bits())),
        Some(LiteralValue::String(String::from("1")))
    ));
    assert!(is_equal(
        Some(LiteralValue::String(String::from("x"))),
        Some(LiteralValue::String(String::from("x")))
    ));
}

#[test]
fn stringify_each_kind_of_value() {
    assert_eq!(rlox::interpreter::stringify(None), "nil");
    assert_eq!(rlox::interpreter::stringify(Some(LiteralValue::Bool(true))), "true");
    assert_eq!(rlox::interpreter::stringify(Some(LiteralValue::Number(2.5f64.to_bits()))), "2.5");
    assert_eq!(rlox::interpreter::stringify(Some(LiteralValue::String(String::from("raw")))), "raw");
}

#[test]
fn runtime_error_carries_the_operator_line() {
    let tokens = Scanner::new(String::from("1;\n2 + \"a\";"))
        .scan()
        .expect("scanning should succeed");
    let stmts = parse(&tokens).expect("parsing should succeed");
    let err = interpret(stmts).expect_err("the second line should fail");
    assert_eq!(err.loc.line_begin, 2);
    assert_eq!(err.loc.line_end, 2);
}

#[test]
fn interpret_runs_statements_in_order() {
    let tokens = Scanner::new(String::from("1 + 1; print \"ok\";"))
        .scan()
        .expect("scanning should succeed");
    let stmts = parse(&tokens).expect("parsing should succeed");
    assert!(interpret(stmts).is_ok());
}

#[test]
fn interpret_stops_at_the_first_runtime_error() {
    let tokens = Scanner::new(String::from("1; 1 + \"a\"; 2;"))
        .scan()
        .expect("scanning should succeed");
    let stmts = parse(&tokens).expect("parsing should succeed");
    let err = interpret(stmts).expect_err("the middle statement should fail");
    assert_eq!(
        err.message,
        "Operator + expects either two numeric or two string operands"
    );
}
