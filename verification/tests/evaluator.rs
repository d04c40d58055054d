use fns::frontend::ast::{AccessExpression, Expression, Statement};
use fns::frontend::parser::{parse, parse_primary_expression};
use fns::frontend::token::{Token, TokenKind};
use fns::frontend::tokenizer::tokenize;
use fns::frontend::utils::TextSpan;
use fns::runtime::evaluator::evaluate;
use fns::runtime::number::Operation;
use fns::runtime::types::Value;

fn read(text: &str) -> Option<u64> {
    text.parse::<f64>().ok().map(f64::to_bits)
}

fn apply(operation: Operation, left: u64, right: u64) -> u64 {
    let (left, right) = (f64::from_bits(left), f64::from_bits(right));
    let value = match operation {
        Operation::Add => left + right,
        Operation::Subtract => left - right,
        Operation::Multiply => left * right,
        Operation::Divide => left / right,
    };
    value.to_bits()
}

fn show(number: u64) -> String {
    format!("{}", f64::from_bits(number))
}

#[test]
fn evaluator_test_evaluate_let_statement() {
    let src = "let a = 2.71";
    let expected_value = Value::Nothing;
    let tokens = tokenize(src).unwrap();
    let program = parse(tokens, &read).unwrap();
    let (val, env) = evaluate(program, None, &apply, &show).unwrap();
    assert_eq!(val, expected_value);

    let src = "a";
    let expected_value = Value::Number((2.71_f64).to_bits());
    let tokens = tokenize(src).unwrap();
    let program = parse(tokens, &read).unwrap();
    let (val, _) = evaluate(program, Some(env), &apply, &show).unwrap();
    assert_eq!(val, expected_value);
}

#[test]
fn evaluator_test_evaluate_const_statement() {
    let src = "let E = 2.71";
    let expected_value = Value::Nothing;
    let tokens = tokenize(src).unwrap();
    let program = parse(tokens, &read).unwrap();
    let (val, env) = evaluate(program, None, &apply, &show).unwrap();
    assert_eq!(val, expected_value);

    let src = "E";
    let expected_value = Value::Number((2.71_f64).to_bits());
    let tokens = tokenize(src).unwrap();
    let program = parse(tokens, &read).unwrap();
    let (val, _) = evaluate(program, Some(env), &apply, &show).unwrap();
    assert_eq!(val, expected_value);
}

#[test]
fn evaluator_test_evaluate_assignment_expression_with_let() {
    let src = "let a = 2.71";
    let expected_value = Value::Nothing;
    let tokens = tokenize(src).unwrap();
    let program = parse(tokens, &read).unwrap();
    let (val, env) = evaluate(program, None, &apply, &show).unwrap();
    assert_eq!(val, expected_value);

    let src = "a = 5";
    let expected_value = Value::Number((5.0_f64).to_bits());
    let tokens = tokenize(src).unwrap();
    let program = parse(tokens, &read).unwrap();
    let (val, _) = evaluate(program, Some(env), &apply, &show).unwrap();
    assert_eq!(val, expected_value);
}

#[test]
fn evaluator_test_evaluate_assignment_expression_with_const() {
    let src = "const a = 2.71";
    let expected_value = Value::Nothing;
    let tokens = tokenize(src).unwrap();
    let program = parse(tokens, &read).unwrap();
    let (val, env) = evaluate(program, None, &apply, &show).unwrap();
    assert_eq!(val, expected_value);

    let src = "a = 5";
    let tokens = tokenize(src).unwrap();
    let program = parse(tokens, &read).unwrap();
    assert!(evaluate(program, Some(env), &apply, &show).is_err());
}

#[test]
fn test_evaluate_binary_arithmetic_expression() {
    let src = "5 + 5 * 2 / 5 - 2";
    let expected_value = Value::Number((5.0_f64).to_bits());
    let tokens = tokenize(src).unwrap();
    let program = parse(tokens, &read).unwrap();
    let (val, _) = evaluate(program, None, &apply, &show).unwrap();
    assert_eq!(val, expected_value);
}

#[test]
fn test_evaluate_binary_comparison_expression() {
    let src = "5 > 5";
    let expected_value = Value::Boolean(false);
    let tokens = tokenize(src).unwrap();
    let program = parse(tokens, &read).unwrap();
    let (val, _) = evaluate(program, None, &apply, &show).unwrap();
    assert_eq!(val, expected_value);

    let src = "5 < 5";
    let expected_value = Value::Boolean(false);
    let tokens = tokenize(src).unwrap();
    let program = parse(tokens, &read).unwrap();
    let (val, _) = evaluate(program, None, &apply, &show).unwrap();
    assert_eq!(val, expected_value);

    let src = "5 >= 5";
    let expected_value = Value::Boolean(true);
    let tokens = tokenize(src).unwrap();
    let program = parse(tokens, &read).unwrap();
    let (val, _) = evaluate(program, None, &apply, &show).unwrap();
    assert_eq!(val, expected_value);

    let src = "5 <= 5";
    let expected_value = Value::Boolean(true);
    let tokens = tokenize(src).unwrap();
    let program = parse(tokens, &read).unwrap();
    let (val, _) = evaluate(program, None, &apply, &show).unwrap();
    assert_eq!(val, expected_value);
}

#[test]
fn test_evaluate_binary_equality_expression() {
    let src = "5 == 5 != 5";
    let expected_value = Value::Boolean(false);
    let tokens = tokenize(src).unwrap();
    let program = parse(tokens, &read).unwrap();
    let (val, _) = evaluate(program, None, &apply, &show).unwrap();
    assert_eq!(val, expected_value);
}

#[test]
fn test_evaluate_binary_logical_expression() {
    let src = "true && false || !true";
    let expected_value = Value::Boolean(false);
    let tokens = tokenize(src).unwrap();
    let program = parse(tokens, &read).unwrap();
    let (val, _) = evaluate(program, None, &apply, &show).unwrap();
    assert_eq!(val, expected_value);
}

#[test]
fn test_evaluate_string_concatenation_expression() {
    let src = "\"hello, \" + \"world!\"";
    let expected_value = Value::String("hello, world!".to_string());
    let tokens = tokenize(src).unwrap();
    let program = parse(tokens, &read).unwrap();
    let (val, _) = evaluate(program, None, &apply, &show).unwrap();
    assert_eq!(val, expected_value);
}

#[test]
fn test_evaluate_unary_expression() {
    let src = "--+-5";
    let expected_value = Value::Number((-5.0_f64).to_bits());
    let tokens = tokenize(src).unwrap();
    let program = parse(tokens, &read).unwrap();
    let (val, _) = evaluate(program, None, &apply, &show).unwrap();
    assert_eq!(val, expected_value);

    let src = "!true";
    let expected_value = Value::Boolean(false);
    let tokens = tokenize(src).unwrap();
    let program = parse(tokens, &read).unwrap();
    let (val, _) = evaluate(program, None, &apply, &show).unwrap();
    assert_eq!(val, expected_value);
}

#[test]
fn test_evaluate_access_expression() {
    // The tree of `{wip: true}.wip`: the grammar has a property access only
    // after an identifier, so the object literal is put under the access by
    // hand.
    let tokens = tokenize("{wip: true}").unwrap();
    let (object, _) = parse_primary_expression(&tokens, 0, &read).unwrap();
    let property = Token::new(TokenKind::Identifier, "wip".to_string(), TextSpan::new(12, 15));
    let program = vec![Statement::Expression(Expression::Access(
        AccessExpression::new(object, property),
    ))];
    let expected_value = Value::Boolean(true);
    let (val, _) = evaluate(program, None, &apply, &show).unwrap();
    assert_eq!(val, expected_value);
}

#[test]
fn test_evaluate_object_expression() {
    let src = "{name: \"fns\", paradigm: \"functional\", wip: true}";
    let expected_value = Value::Object(vec![
        ("name".to_string(), Value::String("fns".to_string())),
        (
            "paradigm".to_string(),
            Value::String("functional".to_string()),
        ),
        ("wip".to_string(), Value::Boolean(true)),
    ]);
    let tokens = tokenize(src).unwrap();
    let program = parse(tokens, &read).unwrap();
    let (val, _) = evaluate(program, None, &apply, &show).unwrap();
    assert_eq!(val, expected_value);
}

#[test]
fn test_evaluate_string_expression() {
    let src = "\"hello, world!\"";
    let expected_value = Value::String("hello, world!".to_string());
    let tokens = tokenize(src).unwrap();
    let program = parse(tokens, &read).unwrap();
    let (val, _) = evaluate(program, None, &apply, &show).unwrap();
    assert_eq!(val, expected_value);
}

#[test]
fn evaluator_test_evaluate_numeric_expression() {
    let src = "5";
    let expected_value = Value::Number((5.0_f64).to_bits());
    let tokens = tokenize(src).unwrap();
    let program = parse(tokens, &read).unwrap();
    let (val, _) = evaluate(program, None, &apply, &show).unwrap();
    assert_eq!(val, expected_value);
}

#[test]
fn test_evaluate_boolean_true_expression() {
    let src = "true";
    let expected_value = Value::Boolean(true);
    let tokens = tokenize(src).unwrap();
    let program = parse(tokens, &read).unwrap();
    let (val, _) = evaluate(program, None, &apply, &show).unwrap();
    assert_eq!(val, expected_value);
}

#[test]
fn test_evaluate_boolean_false_expression() {
    let src = "false";
    let expected_value = Value::Boolean(false);
    let tokens = tokenize(src).unwrap();
    let program = parse(tokens, &read).unwrap();
    let (val, _) = evaluate(program, None, &apply, &show).unwrap();
    assert_eq!(val, expected_value);
}

#[test]
fn test_evaluate_none_expression() {
    let src = "none";
    let expected_value = Value::Nothing;
    let tokens = tokenize(src).unwrap();
    let program = parse(tokens, &read).unwrap();
    let (val, _) = evaluate(program, None, &apply, &show).unwrap();
    assert_eq!(val, expected_value);
}
