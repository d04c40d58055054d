use fns::frontend::ast::{Expression, Statement};
use fns::frontend::parser::{
    eat_token, expect_to_match, parse, parse_binary_additive_expression,
    parse_binary_comparison_expression, parse_binary_equality_expression, parse_binary_level,
    parse_binary_logical_expression, parse_binary_multiplicative_expression, parse_expression,
    parse_statement, token_matches, Level,
};
use fns::frontend::text::{
    characters, characters_with_offsets, same_text, text_between, width_of,
};
use fns::frontend::token::{Token, TokenKind};
use fns::frontend::tokenizer::tokenize;
use fns::frontend::utils::{decimal_text, Error, TextSpan};
use fns::runtime::builtin::{get_builtin, E, PI};
use fns::runtime::environment::Environment;
use fns::runtime::evaluator::{apply_binary, apply_unary, evaluate};
use fns::runtime::interpreter::run;
use fns::runtime::number::{at_most, equal, less, negate, zero, Operation};
use fns::runtime::types::{find_field, set_field, Value};

fn to_number(text: &str) -> Option<u64> {
    text.parse::<f64>().ok().map(f64::to_bits)
}

fn compute(operation: Operation, left: u64, right: u64) -> u64 {
    let (left, right) = (f64::from_bits(left), f64::from_bits(right));
    let value = match operation {
        Operation::Add => left + right,
        Operation::Subtract => left - right,
        Operation::Multiply => left * right,
        Operation::Divide => left / right,
    };
    value.to_bits()
}

fn print(number: u64) -> String {
    format!("{}", f64::from_bits(number))
}

fn number(value: f64) -> Value {
    Value::Number(value.to_bits())
}

fn interpret(source: &str) -> Result<(Value, Environment), Error> {
    run(source, None, &to_number, &compute, &print)
}

fn value_of(source: &str) -> Value {
    interpret(source).unwrap().0
}

fn error_of(source: &str) -> Error {
    interpret(source).unwrap_err()
}

fn kinds_of(source: &str) -> Vec<TokenKind> {
    tokenize(source).unwrap().iter().map(|token| token.kind).collect()
}

#[test]
fn numeric_literal_alone_yields_its_value() {
    for lexeme in ["0", "5", "3.25", "1.", "007", "123456789.125", "0.1"] {
        let expected: f64 = lexeme.parse().unwrap();
        assert_eq!(value_of(lexeme), number(expected));
    }
}

#[test]
fn numeric_lexeme_is_one_token_over_all_of_it() {
    let tokens = tokenize("12.5.7").unwrap();
    assert_eq!(tokens.len(), 2);
    assert_eq!(
        tokens[0],
        Token::new(TokenKind::Number, "12.5.7".to_string(), TextSpan::new(0, 6))
    );
    assert_eq!(tokens[1].kind, TokenKind::Eof);
}

#[test]
fn numeric_lexeme_without_a_value_is_reported() {
    let error = error_of("1.2.3");
    assert_eq!(error.message, "Invalid number '1.2.3'");
    assert_eq!(error.text_span, TextSpan::new(0, 5));
}

#[test]
fn lexemes_are_the_text_of_their_spans() {
    let source = "let résumé_1 = {a: \"x ¥ 京\", b: 2.5} // 💝 done\nconst c = a.b >= !true && 7";
    let marked = format!("{source}\0");
    let tokens = tokenize(source).unwrap();
    assert_eq!(tokens.len(), 24);
    for token in &tokens {
        let (from, to) = (token.text_span.starting_index, token.text_span.ending_index);
        if token.kind == TokenKind::String {
            assert_eq!(&marked[from..from + 1], "\"");
            assert_eq!(&marked[to - 1..to], "\"");
            assert_eq!(token.lexeme, &marked[from + 1..to - 1]);
        } else {
            assert_eq!(token.lexeme, &marked[from..to]);
        }
    }
    assert_eq!(tokens[1].text_span, TextSpan::new(4, 14));
    assert_eq!(tokens[23].text_span, TextSpan::new(marked.len() - 1, marked.len()));
}

#[test]
fn characters_have_their_width_in_bytes() {
    for c in ['\0', 'a', '\u{7F}', '\u{80}', 'é', '\u{7FF}', '\u{800}', '京', '\u{FFFF}', '\u{10000}', '💝', '\u{10FFFF}'] {
        assert_eq!(width_of(c), c.len_utf8(), "{c:?}");
    }
    let (chars, offsets) = characters_with_offsets("aé京💝b");
    assert_eq!(chars, ['a', 'é', '京', '💝', 'b']);
    assert_eq!(offsets, [0, 1, 3, 6, 10, 11]);
    assert_eq!(characters_with_offsets(""), (vec![], vec![0]));
    assert_eq!(characters("héllo"), ['h', 'é', 'l', 'l', 'o']);
    assert_eq!(text_between(&chars, 1, 3), "é京");
    assert_eq!(text_between(&chars, 2, 2), "");
    assert!(same_text("é京", "é京"));
    assert!(!same_text("é京", "é"));
    assert!(!same_text("ab", "ac"));
    assert!(same_text("", ""));
}

#[test]
fn words_take_letters_digits_and_underscores() {
    let tokens = tokenize("_a1 é2 let_ constant 1a").unwrap();
    let lexemes: Vec<&str> = tokens.iter().map(|token| token.lexeme.as_str()).collect();
    assert_eq!(lexemes, ["_a1", "é2", "let_", "constant", "1", "a", "\0"]);
    assert_eq!(
        kinds_of("_a1 é2 let_ constant 1a"),
        [
            TokenKind::Identifier,
            TokenKind::Identifier,
            TokenKind::Identifier,
            TokenKind::Identifier,
            TokenKind::Number,
            TokenKind::Identifier,
            TokenKind::Eof,
        ]
    );
    assert_eq!(tokens[1].text_span, TextSpan::new(4, 7));
    assert_eq!(tokens[2].text_span, TextSpan::new(8, 12));
}

#[test]
fn keywords_are_classified() {
    assert_eq!(TokenKind::get_lexeme_type("let"), TokenKind::Let);
    assert_eq!(TokenKind::get_lexeme_type("const"), TokenKind::Const);
    assert_eq!(TokenKind::get_lexeme_type("true"), TokenKind::True);
    assert_eq!(TokenKind::get_lexeme_type("false"), TokenKind::False);
    assert_eq!(TokenKind::get_lexeme_type("none"), TokenKind::NoneLiteral);
    assert_eq!(TokenKind::get_lexeme_type("None"), TokenKind::Identifier);
    assert_eq!(TokenKind::get_lexeme_type("lets"), TokenKind::Identifier);
    assert_eq!(TokenKind::get_lexeme_type(""), TokenKind::Identifier);
}

#[test]
fn kinds_have_their_text() {
    assert_eq!(TokenKind::Eof.text(), "\0");
    assert_eq!(TokenKind::Identifier.text(), "IDENTIFIER");
    assert_eq!(TokenKind::Number.text(), "NUMBER");
    assert_eq!(TokenKind::String.text(), "STRING");
    assert_eq!(TokenKind::NoneLiteral.text(), "none");
    assert_eq!(TokenKind::GreaterOrEqual.text(), ">=");
    assert_eq!(TokenKind::DoublePipe.text(), "||");
    assert_eq!(TokenKind::OpenBrace.text(), "{");
}

#[test]
fn comment_ends_at_the_line() {
    assert_eq!(
        kinds_of("1 // one\n/ 2 //"),
        [TokenKind::Number, TokenKind::Slash, TokenKind::Number, TokenKind::Eof]
    );
    let tokens = tokenize("// a\nb").unwrap();
    assert_eq!(tokens[0].text_span, TextSpan::new(5, 6));
}

#[test]
fn unexpected_character_is_reported_with_its_span() {
    let error = tokenize("a @ b").unwrap_err();
    assert_eq!(error.message, "Unexpected character '@'");
    assert_eq!(error.text_span, TextSpan::new(2, 3));
    let error = tokenize("a; b").unwrap_err();
    assert_eq!(error.message, "Unexpected character ';'");
    assert_eq!(error.text_span, TextSpan::new(1, 2));
}

#[test]
fn unterminated_string_is_reported_with_its_span() {
    let error = tokenize("a = \"bc").unwrap_err();
    assert_eq!(error.message, "Unterminated string");
    assert_eq!(error.text_span, TextSpan::new(4, 7));
}

#[test]
fn string_may_be_empty_or_hold_anything_but_a_quote() {
    let tokens = tokenize("\"\" \"a\\nb // c\"").unwrap();
    assert_eq!(tokens[0], Token::new(TokenKind::String, "".to_string(), TextSpan::new(0, 2)));
    assert_eq!(tokens[1].lexeme, "a\\nb // c");
    assert_eq!(tokens[1].text_span, TextSpan::new(3, 14));
}

#[test]
fn end_mark_inside_the_source_is_an_end_token() {
    assert_eq!(
        kinds_of("a\0b"),
        [TokenKind::Identifier, TokenKind::Eof, TokenKind::Identifier, TokenKind::Eof]
    );
}

#[test]
fn matching_helpers() {
    let tokens = tokenize("a =").unwrap();
    assert!(token_matches(&TokenKind::Plus, &[TokenKind::Minus, TokenKind::Plus]));
    assert!(!token_matches(&TokenKind::Plus, &[TokenKind::Minus]));
    assert!(!token_matches(&TokenKind::Plus, &[]));
    assert_eq!(eat_token(&tokens, 1), (tokens[1].clone(), 2));
    assert_eq!(
        expect_to_match(&tokens, 0, TokenKind::Identifier).unwrap(),
        (tokens[0].clone(), 1)
    );
    let error = expect_to_match(&tokens, 1, TokenKind::Colon).unwrap_err();
    assert_eq!(error.message, "Unexpected token '=', expected ':'");
    assert_eq!(error.text_span, TextSpan::new(2, 3));
}

#[test]
fn parser_reports_the_offending_token() {
    let error = error_of("let = 5");
    assert_eq!(error.message, "Unexpected token '=', expected 'IDENTIFIER'");
    assert_eq!(error.text_span, TextSpan::new(4, 5));
    let error = error_of("const a 5");
    assert_eq!(error.message, "Unexpected token '5', expected '='");
    assert_eq!(error.text_span, TextSpan::new(8, 9));
    let error = error_of("1 + )");
    assert_eq!(error.message, "Unexpected token ')'");
    assert_eq!(error.text_span, TextSpan::new(4, 5));
    let error = error_of("(1 + 2");
    assert_eq!(error.message, "Unexpected token '\0', expected ')'");
    assert_eq!(error.text_span, TextSpan::new(6, 7));
    let error = error_of("{a: 1,}");
    assert_eq!(error.message, "Unexpected token '}', expected 'IDENTIFIER'");
    let error = error_of("{a: 1 b: 2}");
    assert_eq!(error.message, "Unexpected token 'b', expected ','");
    let error = error_of("{a 1}");
    assert_eq!(error.message, "Unexpected token '1', expected ':'");
    let error = error_of("fns.1");
    assert_eq!(error.message, "Unexpected token '1', expected 'IDENTIFIER'");
}

#[test]
fn property_access_takes_one_dot_after_an_identifier() {
    let error = error_of("fns.version.length");
    assert_eq!(error.message, "Unexpected token '.'");
    assert_eq!(error.text_span, TextSpan::new(11, 12));
    let error = error_of("{wip: true}.wip");
    assert_eq!(error.message, "Unexpected token '.'");
}

#[test]
fn program_is_its_statements_in_order() {
    let program = parse(tokenize("let a = 1 a = 2 a").unwrap(), &to_number).unwrap();
    assert_eq!(program.len(), 3);
    assert!(matches!(program[0], Statement::Let(_)));
    assert!(matches!(program[1], Statement::Expression(Expression::Assignment(_))));
    assert!(matches!(program[2], Statement::Expression(Expression::Identifier(_))));
    assert_eq!(parse(tokenize("").unwrap(), &to_number).unwrap().len(), 0);
    assert_eq!(parse(Vec::new(), &to_number).unwrap().len(), 0);
}

#[test]
fn expression_spans_cover_their_parts() {
    let program = parse(tokenize("  a = (1 + 23) * -x").unwrap(), &to_number).unwrap();
    let Statement::Expression(expression) = &program[0] else { panic!() };
    assert_eq!(expression.text_span(), TextSpan::new(2, 19));
    let Expression::Assignment(assignment) = expression else { panic!() };
    assert_eq!(assignment.expression.text_span(), TextSpan::new(7, 19));
    let program = parse(tokenize("{a: 1}  fns.version").unwrap(), &to_number).unwrap();
    let Statement::Expression(object) = &program[0] else { panic!() };
    assert_eq!(object.text_span(), TextSpan::new(0, 6));
    let Statement::Expression(access) = &program[1] else { panic!() };
    assert_eq!(access.text_span(), TextSpan::new(8, 19));
}

#[test]
fn chains_of_one_level_group_to_the_right() {
    assert_eq!(value_of("5 - 3 - 1"), number(3.0));
    assert_eq!(value_of("8 / 4 / 2"), number(4.0));
    assert_eq!(value_of("2 * 3 + 4 * 5"), number(26.0));
    assert_eq!(value_of("(5 - 3) - 1"), number(1.0));
    assert_eq!(value_of("5 + 5 * 2 / 5 - 2"), number(5.0));
    assert_eq!(value_of("1 < 2 == true"), Value::Boolean(true));
}

#[test]
fn division_by_zero_fails() {
    let error = error_of("5 / 0");
    assert_eq!(error.message, "Can't divide by 0");
    assert_eq!(error.text_span, TextSpan::new(0, 5));
    assert_eq!(error_of("1 / -0").message, "Can't divide by 0");
    assert_eq!(value_of("0 / 5"), number(0.0));
}

#[test]
fn strings_are_joined() {
    assert_eq!(value_of("\"hello, \" + \"world!\""), Value::String("hello, world!".to_string()));
    assert_eq!(value_of("\"\" + \"\""), Value::String(String::new()));
}

#[test]
fn undefined_names_fail_with_their_span() {
    let error = error_of("1 + missing");
    assert_eq!(error.message, "Can't access the variable 'missing' as it's not defined");
    assert_eq!(error.text_span, TextSpan::new(4, 11));
    let error = error_of("  fns.nothing");
    assert_eq!(error.message, "Can't access the property 'nothing' as it's not defined");
    assert_eq!(error.text_span, TextSpan::new(2, 13));
    let error = error_of("let a = 1.5 a.b");
    assert_eq!(error.message, "Can't access property of '1.5' as it's not accessible");
    assert_eq!(error.text_span, TextSpan::new(12, 15));
    let error = error_of("missing.b");
    assert_eq!(error.message, "Can't access the variable 'missing' as it's not defined");
    assert_eq!(error.text_span, TextSpan::new(0, 7));
}

#[test]
fn logical_operators_evaluate_both_operands() {
    let error = error_of("false && missing");
    assert_eq!(error.message, "Can't access the variable 'missing' as it's not defined");
    assert_eq!(error.text_span, TextSpan::new(9, 16));
    let error = error_of("true || missing");
    assert_eq!(error.message, "Can't access the variable 'missing' as it's not defined");
    let error = error_of("let a = 1 true || (a = 1 / 0)");
    assert_eq!(error.message, "Can't divide by 0");
    let (value, environment) = interpret("let a = 1 true || (a = 2) == 2 a").unwrap();
    assert_eq!(value, number(2.0));
    assert_eq!(environment.access("a"), Some(number(2.0)));
    assert_eq!(value_of("false && true"), Value::Boolean(false));
    assert_eq!(value_of("false || true"), Value::Boolean(true));
}

#[test]
fn left_operand_is_evaluated_first() {
    let error = error_of("one + two");
    assert_eq!(error.message, "Can't access the variable 'one' as it's not defined");
    assert_eq!(value_of("let a = 1 (a = 5) - a"), number(0.0));
    assert_eq!(value_of("let a = 1 a - (a = 5)"), number(-4.0));
}

#[test]
fn operators_reject_other_values() {
    let error = error_of("!5");
    assert_eq!(error.message, "Can't use '!' with '5'");
    assert_eq!(error.text_span, TextSpan::new(0, 2));
    assert_eq!(error_of("-true").message, "Can't use '-' with 'true'");
    assert_eq!(error_of("+\"a\"").message, "Can't use '+' with 'a'");
    let error = error_of("1 + true");
    assert_eq!(error.message, "Can't use '+' with '1' and 'true'");
    assert_eq!(error.text_span, TextSpan::new(0, 8));
    assert_eq!(error_of("\"a\" - \"b\"").message, "Can't use '-' with 'a' and 'b'");
    assert_eq!(error_of("1 && 2").message, "Can't use '&&' with '1' and '2'");
    assert_eq!(error_of("none < 2.5").message, "Can't use '<' with 'none' and '2.5'");
    assert_eq!(error_of("true >= false").message, "Can't use '>=' with 'true' and 'false'");
    assert_eq!(error_of("{} * 1").message, "Can't use '*' with '{}' and '1'");
    assert_eq!(
        error_of("{a: 1, b: {}} || 1").message,
        "Can't use '||' with '{\n  a : 1\n  b : {}\n}' and '1'"
    );
    assert_eq!(error_of("1 & 2").message, "Unexpected token '&'");
}

#[test]
fn equality_compares_any_two_values() {
    for (source, expected) in [
        ("1 == 1", true),
        ("1 == 1.0", true),
        ("0 == -0", true),
        ("1 != 2", true),
        ("1 == \"1\"", false),
        ("1 != \"1\"", true),
        ("none == none", true),
        ("none == false", false),
        ("\"a\" == \"a\"", true),
        ("\"a\" == \"b\"", false),
        ("true != false", true),
        ("{} == {}", true),
        ("{a: 1, b: \"x\"} == {b: \"x\", a: 1}", true),
        ("{a: 1} == {a: 1, b: 2}", false),
        ("{a: 1, b: 2} == {a: 1}", false),
        ("{a: 1} == {a: 2}", false),
        ("{a: 1} != {a: 2}", true),
        ("{a: {b: none}} == {a: {b: none}}", true),
        ("{a: {b: none}} == {a: {b: 0}}", false),
        ("{a: 1} == 1", false),
    ] {
        assert_eq!(value_of(source), Value::Boolean(expected), "{source}");
    }
}

#[test]
fn numbers_are_ordered_as_doubles() {
    for (source, expected) in [
        ("1 < 2", true),
        ("2 < 1", false),
        ("-1 < 0.5", true),
        ("-2 < -1", true),
        ("-1 < -2", false),
        ("0 < -0", false),
        ("0 <= -0", true),
        ("-0 >= 0", true),
        ("2.5 > 2.25", true),
        ("2.5 >= 2.5", true),
        ("2.5 <= 2.25", false),
    ] {
        assert_eq!(value_of(source), Value::Boolean(expected), "{source}");
    }
}

#[test]
fn comparisons_agree_with_doubles() {
    let values = [
        0.0,
        -0.0,
        1.0,
        -1.0,
        0.1,
        -0.1,
        2.5,
        -2.5,
        f64::MIN_POSITIVE,
        -f64::MIN_POSITIVE,
        5e-324,
        -5e-324,
        f64::MAX,
        f64::MIN,
        f64::INFINITY,
        f64::NEG_INFINITY,
        f64::NAN,
        -f64::NAN,
        f64::from_bits(0x7FF0_0000_0000_0001),
        f64::from_bits(0xFFFF_FFFF_FFFF_FFFF),
    ];
    for a in values {
        assert_eq!(zero(a.to_bits()), a == 0.0, "{a}");
        assert_eq!(negate(a.to_bits()), (-a).to_bits(), "{a}");
        for b in values {
            assert_eq!(equal(a.to_bits(), b.to_bits()), a == b, "{a} == {b}");
            assert_eq!(less(a.to_bits(), b.to_bits()), a < b, "{a} < {b}");
            assert_eq!(at_most(a.to_bits(), b.to_bits()), a <= b, "{a} <= {b}");
        }
    }
}

#[test]
fn not_a_number_equals_nothing() {
    let huge = "9".repeat(400);
    let source = format!("let inf = {huge} let nan = inf - inf nan == nan");
    assert_eq!(value_of(&source), Value::Boolean(false));
    let source = format!("let inf = {huge} let nan = inf - inf nan != nan");
    assert_eq!(value_of(&source), Value::Boolean(true));
    let source = format!("let inf = {huge} let nan = inf - inf {{a: nan}} == {{a: nan}}");
    assert_eq!(value_of(&source), Value::Boolean(false));
    let source = format!("let inf = {huge} 1 / (inf - inf) < 1");
    assert_eq!(value_of(&source), Value::Boolean(false));
}

#[test]
fn unary_operators() {
    assert_eq!(value_of("--+-5"), number(-5.0));
    assert_eq!(value_of("-0"), number(-0.0));
    assert_eq!(value_of("+2.5"), number(2.5));
    assert_eq!(value_of("!!true"), Value::Boolean(true));
    assert_eq!(value_of("-2 * 3"), number(-6.0));
}

#[test]
fn later_key_overwrites_earlier() {
    let value = value_of("{a: 1, b: 2, a: 3}");
    assert_eq!(value, Value::Object(vec![("a".to_string(), number(3.0)), ("b".to_string(), number(2.0))]));
    let Value::Object(fields) = value else { panic!() };
    assert_eq!(fields.len(), 2);
    assert_eq!(value_of("let o = {a: 1, a: 2} o.a"), number(2.0));
}

#[test]
fn fields_are_found_and_set() {
    let mut fields = vec![("a".to_string(), number(1.0))];
    assert_eq!(find_field(&fields, "a"), 0);
    assert_eq!(find_field(&fields, "b"), 1);
    set_field(&mut fields, "b".to_string(), Value::Nothing);
    set_field(&mut fields, "a".to_string(), Value::Boolean(true));
    assert_eq!(fields.len(), 2);
    assert_eq!(find_field(&fields, "b"), 1);
    assert_eq!(fields[0].1, Value::Boolean(true));
    assert_eq!(fields[1].1, Value::Nothing);
}

#[test]
fn values_are_written_out() {
    assert_eq!(Value::Nothing.text(&print), "none");
    assert_eq!(Value::Boolean(false).text(&print), "false");
    assert_eq!(number(-2.5).text(&print), "-2.5");
    assert_eq!(Value::String("a b".to_string()).text(&print), "a b");
    assert_eq!(Value::Object(Vec::new()).text(&print), "{}");
    assert_eq!(value_of("{a: 1, b: {c: \"x\"}}").text(&print), "{\n  a : 1\n  b : {\n  c : x\n}\n}");
}

#[test]
fn copies_are_equal_and_apart() {
    let value = value_of("{a: {b: 1}, c: \"x\"}");
    let mut copy = value.clone();
    assert_eq!(copy, value);
    let Value::Object(fields) = &mut copy else { panic!() };
    set_field(fields, "c".to_string(), Value::Nothing);
    assert_ne!(copy, value);
    assert_eq!(value, value_of("{a: {b: 1}, c: \"x\"}"));
}

#[test]
fn operators_can_be_applied_to_values() {
    let span = TextSpan::new(3, 9);
    assert_eq!(apply_unary(TokenKind::Minus, number(2.0), span, &print).unwrap(), number(-2.0));
    let error = apply_unary(TokenKind::Bang, Value::Nothing, span, &print).unwrap_err();
    assert_eq!(error, Error::new("Can't use '!' with 'none'".to_string(), span));
    assert_eq!(
        apply_binary(TokenKind::Asterisk, number(1.5), number(4.0), span, &compute, &print)
            .unwrap(),
        number(6.0)
    );
    assert_eq!(
        apply_binary(TokenKind::Minus, number(1.5), number(4.0), span, &compute, &print).unwrap(),
        number(-2.5)
    );
    assert_eq!(
        apply_binary(TokenKind::Slash, number(1.0), number(4.0), span, &compute, &print).unwrap(),
        number(0.25)
    );
    let error = apply_binary(TokenKind::Slash, number(1.0), number(-0.0), span, &compute, &print)
        .unwrap_err();
    assert_eq!(error, Error::new("Can't divide by 0".to_string(), span));
    let error = apply_binary(TokenKind::Equal, number(1.0), number(1.0), span, &compute, &print)
        .unwrap_err();
    assert_eq!(error.message, "Can't use '=' with '1' and '1'");
}

#[test]
fn bindings_yield_nothing_and_are_found_again() {
    let (value, environment) = interpret("let a = 2.71").unwrap();
    assert_eq!(value, Value::Nothing);
    let (value, environment) =
        run("a", Some(environment), &to_number, &compute, &print).unwrap();
    assert_eq!(value, number(2.71));
    let (value, environment) =
        run("a = 5", Some(environment), &to_number, &compute, &print).unwrap();
    assert_eq!(value, number(5.0));
    assert_eq!(environment.access("a"), Some(number(5.0)));
    assert_eq!(environment.is_constant("a"), Some(false));
}

#[test]
fn assignment_shadows_in_the_innermost_frame() {
    let (_, outer) = interpret("let a = 1").unwrap();
    let (value, inner) = run("a = 2 a", Some(outer), &to_number, &compute, &print).unwrap();
    assert_eq!(value, number(2.0));
    assert_eq!(inner.variables.len(), 1);
    let outer = (*inner.parent).clone().unwrap();
    assert_eq!(outer.access("a"), Some(number(1.0)));
    assert_eq!(inner.access("a"), Some(number(2.0)));
}

#[test]
fn constants_cannot_be_assigned() {
    let (value, environment) = interpret("const a = 2.71").unwrap();
    assert_eq!(value, Value::Nothing);
    assert_eq!(environment.is_constant("a"), Some(true));
    let error = run("a = 5", Some(environment), &to_number, &compute, &print).unwrap_err();
    assert_eq!(error.message, "Can't assign the variable 'a' as it's a constant");
    assert_eq!(error.text_span, TextSpan::new(0, 5));
    let error = error_of("const a = 1 a = a + 1");
    assert_eq!(error.message, "Can't assign the variable 'a' as it's a constant");
    assert_eq!(error.text_span, TextSpan::new(12, 21));
    assert_eq!(value_of("const a = 1 let a = 2 a = 3 a"), number(3.0));
    assert_eq!(value_of("let a = 1 const a = 2 a"), number(2.0));
}

#[test]
fn unbound_names_cannot_be_assigned() {
    let error = error_of("a = 5");
    assert_eq!(error.message, "Can't assign to the variable 'a' as it's not defined");
    assert_eq!(error.text_span, TextSpan::new(0, 5));
    let error = error_of("a = missing");
    assert_eq!(error.message, "Can't assign to the variable 'a' as it's not defined");
}

#[test]
fn assignment_yields_its_value_and_chains() {
    assert_eq!(value_of("let a = 1 let b = 2 a = b = 7"), number(7.0));
    assert_eq!(value_of("let a = 1 let b = 2 a = b = 7 a + b"), number(14.0));
}

#[test]
fn last_statement_gives_the_value() {
    assert_eq!(value_of(""), Value::Nothing);
    assert_eq!(value_of("1 2 \"three\""), Value::String("three".to_string()));
    assert_eq!(value_of("1 let a = 2"), Value::Nothing);
    let error = error_of("1 missing 2");
    assert_eq!(error.text_span, TextSpan::new(2, 9));
}

#[test]
fn root_frame_holds_the_builtins() {
    assert_eq!(value_of("math.pi"), number(std::f64::consts::PI));
    assert_eq!(value_of("math.e"), number(std::f64::consts::E));
    assert_eq!(PI, std::f64::consts::PI.to_bits());
    assert_eq!(E, std::f64::consts::E.to_bits());
    assert_eq!(value_of("fns.version"), Value::String("0.0.1".to_string()));
    assert_eq!(error_of("math = 1").message, "Can't assign the variable 'math' as it's a constant");
    assert_eq!(value_of("let math = 1 math"), number(1.0));
    let builtin = get_builtin();
    assert_eq!(builtin.len(), 2);
    assert_eq!(builtin[0].0, "fns");
    assert_eq!(builtin[1].0, "math");
    let root = Environment::new(None);
    assert_eq!(root.variables.len(), 2);
    assert!(root.parent.is_none());
    assert_eq!(root.is_constant("fns"), Some(true));
    assert_eq!(root.is_constant("math"), Some(true));
    assert_eq!(root.access("math"), Some(builtin[1].1.clone()));
    assert_eq!(root.access("pi"), None);
}

#[test]
fn inner_frame_starts_empty_and_looks_outwards() {
    let mut root = Environment::new(None);
    root.define("a".to_string(), number(1.0), true);
    root.define("b".to_string(), number(2.0), false);
    let mut inner = Environment::new(Some(root));
    assert_eq!(inner.variables.len(), 0);
    assert_eq!(inner.access("a"), Some(number(1.0)));
    assert_eq!(inner.is_constant("a"), Some(true));
    assert_eq!(inner.is_constant("b"), Some(false));
    assert_eq!(inner.access("fns").is_some(), true);
    assert_eq!(inner.access("c"), None);
    assert_eq!(inner.is_constant("c"), None);
    inner.define("a".to_string(), Value::Nothing, false);
    assert_eq!(inner.access("a"), Some(Value::Nothing));
    assert_eq!(inner.is_constant("a"), Some(false));
    inner.define("a".to_string(), Value::Boolean(true), true);
    assert_eq!(inner.variables.len(), 1);
    assert_eq!(inner.access("a"), Some(Value::Boolean(true)));
    assert_eq!(inner.is_constant("a"), Some(true));
    let copy = inner.clone();
    assert_eq!(copy.access("a"), Some(Value::Boolean(true)));
    assert_eq!(copy.access("b"), Some(number(2.0)));
}

#[test]
fn evaluate_takes_a_program_built_by_hand() {
    let (value, environment) = evaluate(Vec::new(), None, &compute, &print).unwrap();
    assert_eq!(value, Value::Nothing);
    assert_eq!(environment.variables.len(), 2);
}

#[test]
fn spans_are_joined_from_start_to_end() {
    let span = TextSpan::add(TextSpan::new(2, 5), TextSpan::new(7, 11));
    assert_eq!(span, TextSpan::new(2, 11));
    assert_eq!(span.starting_index, 2);
    assert_eq!(span.ending_index, 11);
}

#[test]
fn errors_are_placed_by_line_and_column() {
    let source = "let a = 1\nlet b = @\n\nc";
    let at = |offset: usize| {
        Error::new("m".to_string(), TextSpan::new(offset, offset + 1)).position(source)
    };
    assert_eq!(at(0), (1, 1));
    assert_eq!(at(8), (1, 9));
    assert_eq!(at(9), (1, 10));
    assert_eq!(at(10), (2, 1));
    assert_eq!(at(18), (2, 9));
    assert_eq!(at(20), (3, 1));
    assert_eq!(at(21), (4, 1));
    assert_eq!(at(22), (4, 2));
    assert_eq!(at(500), (4, 2));
    let error = tokenize(source).unwrap_err();
    assert_eq!(error.position(source), (2, 9));
}

#[test]
fn errors_are_placed_by_characters_before_the_byte_offset() {
    let source = "é = \"京\"\n💝";
    let error = tokenize(source).unwrap_err();
    assert_eq!(error.message, "Unexpected character '💝'");
    assert_eq!(error.text_span, TextSpan::new(11, 15));
    assert_eq!(error.position(source), (2, 1));
    let error = interpret("é + 1").unwrap_err();
    assert_eq!(error.text_span, TextSpan::new(0, 2));
    let at = |offset: usize| {
        Error::new("m".to_string(), TextSpan::new(offset, offset)).position("aé京\nb")
    };
    assert_eq!(at(0), (1, 1));
    assert_eq!(at(1), (1, 2));
    assert_eq!(at(2), (1, 3));
    assert_eq!(at(3), (1, 3));
    assert_eq!(at(4), (1, 4));
    assert_eq!(at(6), (1, 4));
    assert_eq!(at(7), (2, 1));
    assert_eq!(at(8), (2, 2));
}

#[test]
fn numbers_are_written_in_decimal() {
    assert_eq!(decimal_text(0), "0");
    assert_eq!(decimal_text(7), "7");
    assert_eq!(decimal_text(10), "10");
    assert_eq!(decimal_text(1234567890), "1234567890");
    assert_eq!(decimal_text(usize::MAX), usize::MAX.to_string());
}

#[test]
fn errors_are_reported_with_their_place() {
    let source = "let a = 1\nlet b = a +\n  missing";
    let error = interpret(source).unwrap_err();
    assert_eq!(
        error.report(source),
        "[error in line: 3, column: 3]\nError: Can't access the variable 'missing' as it's not defined"
    );
    let error = Error::new("m".to_string(), TextSpan::new(0, 0));
    assert_eq!(error.report(""), "[error in line: 1, column: 1]\nError: m");
    assert_eq!(error.clone(), error);
}

#[test]
fn numeric_characters_continue_a_word_but_start_none() {
    let tokens = tokenize("a² x٣").unwrap();
    assert_eq!(tokens.len(), 3);
    assert_eq!(tokens[0].lexeme, "a²");
    assert_eq!(tokens[0].kind, TokenKind::Identifier);
    assert_eq!(tokens[1].lexeme, "x٣");
    let error = tokenize("²").unwrap_err();
    assert_eq!(error.message, "Unexpected character '²'");
    assert_eq!(error.text_span, TextSpan::new(0, 2));
    let error = tokenize("a -٣").unwrap_err();
    assert_eq!(error.message, "Unexpected character '٣'");
}

#[test]
fn outer_frames_are_left_as_they_were() {
    let (_, outer) = interpret("let a = 1 const b = {c: 2}").unwrap();
    let before = outer.clone();
    let (_, inner) = run(
        "a = 2 let b = 3 let d = 4 a = a + b",
        Some(outer),
        &to_number,
        &compute,
        &print,
    )
    .unwrap();
    let after = (*inner.parent).clone().unwrap();
    assert_eq!(after.variables.len(), before.variables.len());
    for (kept, old) in after.variables.iter().zip(before.variables.iter()) {
        assert_eq!(kept.0, old.0);
        assert_eq!(kept.1, old.1);
        assert_eq!(kept.2, old.2);
    }
    assert_eq!(inner.access("a"), Some(number(5.0)));
    assert_eq!(inner.variables.len(), 3);
}

#[test]
fn first_field_of_a_name_is_the_one_that_counts() {
    let twice = Value::Object(vec![
        ("a".to_string(), number(1.0)),
        ("b".to_string(), Value::Nothing),
        ("a".to_string(), number(2.0)),
    ]);
    let once = Value::Object(vec![
        ("b".to_string(), Value::Nothing),
        ("a".to_string(), number(1.0)),
    ]);
    let other = Value::Object(vec![
        ("b".to_string(), Value::Nothing),
        ("a".to_string(), number(2.0)),
    ]);
    assert_eq!(twice, once);
    assert_eq!(once, twice);
    assert_ne!(twice, other);
    assert_ne!(other, twice);
    assert!(twice.same(&once));
    assert!(!other.same(&twice));
}

#[test]
fn each_level_stops_at_a_looser_operator() {
    let tokens = tokenize("a * b + c < d == e && f = g").unwrap();
    let ends = [
        parse_binary_multiplicative_expression(&tokens, 0, &to_number).unwrap().1,
        parse_binary_additive_expression(&tokens, 0, &to_number).unwrap().1,
        parse_binary_comparison_expression(&tokens, 0, &to_number).unwrap().1,
        parse_binary_equality_expression(&tokens, 0, &to_number).unwrap().1,
        parse_binary_logical_expression(&tokens, 0, &to_number).unwrap().1,
    ];
    assert_eq!(ends, [3, 5, 7, 9, 11]);
    for (level, end) in [
        (Level::Multiplicative, 3),
        (Level::Additive, 5),
        (Level::Comparison, 7),
        (Level::Equality, 9),
        (Level::Logical, 11),
    ] {
        let (expression, next) = parse_binary_level(&tokens, 0, level, &to_number).unwrap();
        assert_eq!(next, end);
        assert!(matches!(expression, Expression::Binary(_)));
        assert_eq!(expression.text_span(), TextSpan::new(0, tokens[end - 1].text_span.ending_index));
    }
    let (expression, next) = parse_expression(&tokens, 10, &to_number).unwrap();
    assert_eq!(next, 13);
    assert!(matches!(expression, Expression::Assignment(_)));
    let (statement, next) = parse_statement(&tokens, 12, &to_number).unwrap();
    assert_eq!(next, 13);
    assert!(matches!(statement, Statement::Expression(Expression::Identifier(_))));
}
