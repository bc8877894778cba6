use cyntax::consteval::{ConstantEvalutator, Value};
use cyntax::lexer::lex;
use cyntax::parser::Parser;

fn eval(src: &str) -> Option<i64> {
    let tokens = lex(0, src).ok()?;
    let mut parser = Parser::new(tokens);
    let expression = parser.parse_expression().ok()?;
    match ConstantEvalutator::new().evaluate(&expression) {
        Ok(Value::Int(v)) => Some(v),
        Err(_) => None,
    }
}

#[test]
fn precedence_of_operators() {
    assert_eq!(eval("1 + 2 * 3"), Some(7));
    assert_eq!(eval("(1 + 2) * 3"), Some(9));
    assert_eq!(eval("10 - 4 - 3"), Some(3));
    assert_eq!(eval("1 << 4"), Some(16));
}

#[test]
fn comparisons_give_zero_or_one() {
    assert_eq!(eval("3 < 4"), Some(1));
    assert_eq!(eval("3 > 4"), Some(0));
    assert_eq!(eval("4 <= 4"), Some(1));
    assert_eq!(eval("5 != 5"), Some(0));
}

#[test]
fn ternary_and_logic() {
    assert_eq!(eval("1 ? 2 : 3"), Some(2));
    assert_eq!(eval("0 ? 2 : 3"), Some(3));
    assert_eq!(eval("0 && (1 / 0)"), Some(0));
    assert_eq!(eval("1 || (1 / 0)"), Some(1));
    assert_eq!(eval("!0"), Some(1));
}

#[test]
fn constants_in_other_bases() {
    assert_eq!(eval("0x10"), Some(16));
    assert_eq!(eval("010"), Some(8));
    assert_eq!(eval("10u"), Some(10));
    assert_eq!(eval("0"), Some(0));
}

#[test]
fn identifiers_count_as_zero_except_true() {
    assert_eq!(eval("true"), Some(1));
    assert_eq!(eval("false"), Some(0));
    assert_eq!(eval("UNDEFINED + 2"), Some(2));
}

#[test]
fn division_truncates_toward_zero() {
    assert_eq!(eval("-7 / 2"), Some(-3));
    assert_eq!(eval("7 / -2"), Some(-3));
}

#[test]
fn failures_are_errors() {
    assert_eq!(eval("5 / 0"), None);
    assert_eq!(eval("9223372036854775807 + 1"), None);
    assert_eq!(eval("!2"), None);
    assert_eq!(eval("1 % 2"), None);
    assert_eq!(eval("\"s\""), None);
    assert_eq!(eval("99999999999999999999"), None);
}

#[test]
fn malformed_number_leaves_an_empty_expression() {
    // A number that is no integer constant is an error item in the token stream; the
    // parser meets no token in front and reads the empty expression.
    assert_eq!(eval("1.5"), Some(0));
    assert_eq!(eval("08"), Some(0));
}

#[test]
fn value_operations() {
    let Value::Int(v) = Value::Int(6).add(Value::Int(7)).unwrap();
    assert_eq!(v, 13);
    let Value::Int(v) = Value::Int(-9).divide(Value::Int(2)).unwrap();
    assert_eq!(v, -4);
    let Value::Int(v) = Value::from_bool(true);
    assert_eq!(v, 1);
    assert_eq!(Value::Int(0).bool().unwrap(), false);
    let Value::Int(v) = Value::Int(1).not().unwrap();
    assert_eq!(v, 0);
    let Value::Int(v) = Value::Int(-8).shr(Value::Int(1)).unwrap();
    assert_eq!(v, -4);
}

#[test]
fn empty_expression_is_null_and_zero() {
    assert_eq!(eval(""), Some(0));
}

#[test]
fn trailing_comma_in_call_is_reported() {
    let tokens = lex(0, "f(a,)").unwrap();
    let mut parser = Parser::new(tokens);
    assert!(parser.parse_expression().is_ok());
    assert_eq!(parser.diagnostics.len(), 1);
}
