//! The evaluator: walks a syntax tree against an environment.
//!
//! [`evaluated`] says what an expression yields in an environment and what
//! the environment is afterwards; [`program_run`] says the same of a
//! program. The executable functions compute exactly that.
use crate::frontend::ast::{
    lemma_pair_views, pair_views, span_of, statement_views, ConstStatement, Expression,
    ExpressionView, LetStatement, Number, PairView, Program, Statement, StatementView,
};
use crate::frontend::token::{kind_text, TokenKind, TokenView};
use crate::frontend::utils::{Error, ErrorView, TextSpan};
use crate::runtime::environment::{
    binding_in, defined, fresh, lemma_defined_is_found, optional_view, BindingView, Environment,
    EnvironmentView,
};
use crate::runtime::number::{
    applier, applies_by_value, at_most, is_zero, less, negate, negated, number_at_most,
    number_less, shower, shows_by_value, zero, Operation,
};
use crate::runtime::types::{
    field, field_views, find_field, lemma_field_views, rendered, set_field, values_equal,
    with_field, Value, ValueView,
};
use vstd::prelude::*;
use vstd::string::StringExecFns;

verus! {

/// How the rounded operations answer.
pub type Applying = spec_fn(Operation, Number, Number) -> Number;

/// How a number is printed.
pub type Showing = spec_fn(Number) -> Seq<char>;

/// The error for a name that no frame binds.
pub open spec fn variable_not_defined(name: Seq<char>, span: TextSpan) -> ErrorView {
    ErrorView {
        message: "Can't access the variable '"@ + name + "' as it's not defined"@,
        text_span: span,
    }
}

/// The error for a property that an object does not have.
pub open spec fn property_not_defined(name: Seq<char>, span: TextSpan) -> ErrorView {
    ErrorView {
        message: "Can't access the property '"@ + name + "' as it's not defined"@,
        text_span: span,
    }
}

/// The error for a property of a value that is no object.
pub open spec fn not_accessible(value: Seq<char>, span: TextSpan) -> ErrorView {
    ErrorView {
        message: "Can't access property of '"@ + value + "' as it's not accessible"@,
        text_span: span,
    }
}

/// The error for a prefix operator on a value that it does not take.
pub open spec fn unary_misuse(operator: TokenKind, right: Seq<char>, span: TextSpan) -> ErrorView {
    ErrorView {
        message: "Can't use '"@ + kind_text(operator) + "' with '"@ + right + "'"@,
        text_span: span,
    }
}

/// The error for a binary operator on values that it does not take.
pub open spec fn binary_misuse(
    operator: TokenKind,
    left: Seq<char>,
    right: Seq<char>,
    span: TextSpan,
) -> ErrorView {
    ErrorView {
        message: "Can't use '"@ + kind_text(operator) + "' with '"@ + left + "' and '"@ + right
            + "'"@,
        text_span: span,
    }
}

/// The error for a division by zero, of either sign.
pub open spec fn division_by_zero(span: TextSpan) -> ErrorView {
    ErrorView { message: "Can't divide by 0"@, text_span: span }
}

/// The error for an assignment to a name that is bound as a constant.
pub open spec fn assignment_to_constant(name: Seq<char>, span: TextSpan) -> ErrorView {
    ErrorView {
        message: "Can't assign the variable '"@ + name + "' as it's a constant"@,
        text_span: span,
    }
}

/// The error for an assignment to a name that no frame binds.
pub open spec fn assignment_to_undefined(name: Seq<char>, span: TextSpan) -> ErrorView {
    ErrorView {
        message: "Can't assign to the variable '"@ + name + "' as it's not defined"@,
        text_span: span,
    }
}

/// What a prefix operator makes of a value: `!` negates a boolean, `+`
/// leaves a number as it is, `-` flips its sign. Anything else is an error
/// over `span`.
pub open spec fn unary_value(operator: TokenKind, right: ValueView, span: TextSpan, show: Showing)
    -> Result<ValueView, ErrorView> {
    match (operator, right) {
        (TokenKind::Bang, ValueView::Boolean(a)) => Ok(ValueView::Boolean(!a)),
        (TokenKind::Plus, ValueView::Number(a)) => Ok(ValueView::Number(a)),
        (TokenKind::Minus, ValueView::Number(a)) => Ok(ValueView::Number(negated(a))),
        _ => Err(unary_misuse(operator, rendered(right, show), span)),
    }
}

/// What a binary operator makes of two values. `+` joins two strings;
/// `+ - * /` compute on two numbers, and division by zero is an error;
/// `> < >= <=` order two numbers; `==` and `!=` compare any two values;
/// `&&` and `||` combine two booleans. Anything else is an error over
/// `span`.
pub open spec fn binary_value(
    operator: TokenKind,
    left: ValueView,
    right: ValueView,
    span: TextSpan,
    apply: Applying,
    show: Showing,
) -> Result<ValueView, ErrorView> {
    match (operator, left, right) {
        (TokenKind::Plus, ValueView::String(a), ValueView::String(b)) => Ok(
            ValueView::String(a + b),
        ),
        (TokenKind::Plus, ValueView::Number(a), ValueView::Number(b)) => Ok(
            ValueView::Number(apply(Operation::Add, a, b)),
        ),
        (TokenKind::Minus, ValueView::Number(a), ValueView::Number(b)) => Ok(
            ValueView::Number(apply(Operation::Subtract, a, b)),
        ),
        (TokenKind::Asterisk, ValueView::Number(a), ValueView::Number(b)) => Ok(
            ValueView::Number(apply(Operation::Multiply, a, b)),
        ),
        (TokenKind::Slash, ValueView::Number(a), ValueView::Number(b)) => if is_zero(b) {
            Err(division_by_zero(span))
        } else {
            Ok(ValueView::Number(apply(Operation::Divide, a, b)))
        },
        (TokenKind::Greater, ValueView::Number(a), ValueView::Number(b)) => Ok(
            ValueView::Boolean(number_less(b, a)),
        ),
        (TokenKind::Lesser, ValueView::Number(a), ValueView::Number(b)) => Ok(
            ValueView::Boolean(number_less(a, b)),
        ),
        (TokenKind::GreaterOrEqual, ValueView::Number(a), ValueView::Number(b)) => Ok(
            ValueView::Boolean(number_at_most(b, a)),
        ),
        (TokenKind::LesserOrEqual, ValueView::Number(a), ValueView::Number(b)) => Ok(
            ValueView::Boolean(number_at_most(a, b)),
        ),
        (TokenKind::BangEqual, a, b) => Ok(ValueView::Boolean(!values_equal(a, b))),
        (TokenKind::DoubleEqual, a, b) => Ok(ValueView::Boolean(values_equal(a, b))),
        (TokenKind::DoubleAmpersand, ValueView::Boolean(a), ValueView::Boolean(b)) => Ok(
            ValueView::Boolean(a && b),
        ),
        (TokenKind::DoublePipe, ValueView::Boolean(a), ValueView::Boolean(b)) => Ok(
            ValueView::Boolean(a || b),
        ),
        _ => Err(binary_misuse(operator, rendered(left, show), rendered(right, show), span)),
    }
}

/// What the property `property` of `value` is: the field of that name, if
/// `value` is an object that has it.
pub open spec fn property_value(
    value: ValueView,
    property: Seq<char>,
    span: TextSpan,
    show: Showing,
) -> Result<ValueView, ErrorView> {
    match value {
        ValueView::Object(fields) => match field(fields, property) {
            Some(found) => Ok(found),
            None => Err(property_not_defined(property, span)),
        },
        _ => Err(not_accessible(rendered(value, show), span)),
    }
}

/// What `expression` yields in `environment`, and the environment
/// afterwards.
///
/// Operands are evaluated from left to right, each in the environment that
/// the one before left behind, and both operands of a binary operator are
/// evaluated whatever the first yields. The first error ends the
/// evaluation. An assignment looks its name up first, fails on a name that
/// is unbound or constant, and otherwise binds the name, as a variable, in
/// the innermost frame.
pub open spec fn evaluated(
    expression: ExpressionView,
    environment: EnvironmentView,
    apply: Applying,
    show: Showing,
) -> (Result<ValueView, ErrorView>, EnvironmentView)
    decreases expression,
{
    match expression {
        ExpressionView::NoneLiteral { .. } => (Ok(ValueView::Nothing), environment),
        ExpressionView::Boolean { value, .. } => (Ok(ValueView::Boolean(value)), environment),
        ExpressionView::Numeric { value, .. } => (Ok(ValueView::Number(value)), environment),
        ExpressionView::String { value, .. } => (Ok(ValueView::String(value)), environment),
        ExpressionView::Object { pairs, .. } => {
            let (fields, after) = fields_evaluated(
                pairs,
                pairs.len() as int,
                environment,
                apply,
                show,
            );
            match fields {
                Ok(fields) => (Ok(ValueView::Object(fields)), after),
                Err(error) => (Err(error), after),
            }
        },
        ExpressionView::Identifier { identifier } => match binding_in(
            environment,
            identifier.lexeme,
        ) {
            Some(binding) => (Ok(binding.value), environment),
            None => (
                Err(variable_not_defined(identifier.lexeme, identifier.text_span)),
                environment,
            ),
        },
        ExpressionView::Access { object, property } => {
            let (value, after) = evaluated(*object, environment, apply, show);
            match value {
                Ok(value) => (
                    property_value(value, property.lexeme, span_of(expression), show),
                    after,
                ),
                Err(error) => (Err(error), after),
            }
        },
        ExpressionView::Unary { operator, right } => {
            let (value, after) = evaluated(*right, environment, apply, show);
            match value {
                Ok(value) => (unary_value(operator.kind, value, span_of(expression), show), after),
                Err(error) => (Err(error), after),
            }
        },
        ExpressionView::Binary { left, operator, right } => {
            let (first, between) = evaluated(*left, environment, apply, show);
            match first {
                Ok(first) => {
                    let (second, after) = evaluated(*right, between, apply, show);
                    match second {
                        Ok(second) => (
                            binary_value(
                                operator.kind,
                                first,
                                second,
                                span_of(expression),
                                apply,
                                show,
                            ),
                            after,
                        ),
                        Err(error) => (Err(error), after),
                    }
                },
                Err(error) => (Err(error), between),
            }
        },
        ExpressionView::Assignment { identifier, expression: source } => match binding_in(
            environment,
            identifier.lexeme,
        ) {
            Some(binding) => if binding.is_constant {
                (
                    Err(assignment_to_constant(identifier.lexeme, span_of(expression))),
                    environment,
                )
            } else {
                let (value, after) = evaluated(*source, environment, apply, show);
                match value {
                    Ok(value) => (Ok(value), defined(after, identifier.lexeme, value, false)),
                    Err(error) => (Err(error), after),
                }
            },
            None => (
                Err(assignment_to_undefined(identifier.lexeme, span_of(expression))),
                environment,
            ),
        },
    }
}

/// The fields that the first `count` pairs of an object literal yield, and
/// the environment afterwards. The pairs are evaluated in order; a later
/// pair of the same key overwrites the earlier one.
pub open spec fn fields_evaluated(
    pairs: Seq<PairView>,
    count: int,
    environment: EnvironmentView,
    apply: Applying,
    show: Showing,
) -> (Result<Seq<(Seq<char>, ValueView)>, ErrorView>, EnvironmentView)
    decreases pairs, count,
{
    if count <= 0 || count > pairs.len() {
        (Ok(Seq::empty()), environment)
    } else {
        let (fields, between) = fields_evaluated(pairs, count - 1, environment, apply, show);
        match fields {
            Ok(fields) => {
                let (value, after) = evaluated(pairs[count - 1].value, between, apply, show);
                match value {
                    Ok(value) => (
                        Ok(with_field(fields, pairs[count - 1].key.lexeme, value)),
                        after,
                    ),
                    Err(error) => (Err(error), after),
                }
            },
            Err(error) => (Err(error), between),
        }
    }
}

/// What a statement yields in `environment`, and the environment
/// afterwards. A binding evaluates its expression, binds the name in the
/// innermost frame and yields nothing.
pub open spec fn statement_run(
    statement: StatementView,
    environment: EnvironmentView,
    apply: Applying,
    show: Showing,
) -> (Result<ValueView, ErrorView>, EnvironmentView) {
    match statement {
        StatementView::Let { identifier, expression, .. } => bound(
            identifier.lexeme,
            false,
            evaluated(expression, environment, apply, show),
        ),
        StatementView::Const { identifier, expression, .. } => bound(
            identifier.lexeme,
            true,
            evaluated(expression, environment, apply, show),
        ),
        StatementView::Expression { expression } => evaluated(
            expression,
            environment,
            apply,
            show,
        ),
    }
}

/// The outcome of a binding whose expression had the outcome `outcome`.
pub open spec fn bound(
    name: Seq<char>,
    is_constant: bool,
    outcome: (Result<ValueView, ErrorView>, EnvironmentView),
) -> (Result<ValueView, ErrorView>, EnvironmentView) {
    match outcome.0 {
        Ok(value) => (Ok(ValueView::Nothing), defined(outcome.1, name, value, is_constant)),
        Err(error) => (Err(error), outcome.1),
    }
}

/// What the first `count` statements of a program yield in `environment`:
/// the value of the last of them, or nothing where there is none, and the
/// environment afterwards. The first error ends the run.
pub open spec fn program_run(
    statements: Seq<StatementView>,
    count: int,
    environment: EnvironmentView,
    apply: Applying,
    show: Showing,
) -> (Result<ValueView, ErrorView>, EnvironmentView)
    decreases count,
{
    if count <= 0 || count > statements.len() {
        (Ok(ValueView::Nothing), environment)
    } else {
        let (before, between) = program_run(statements, count - 1, environment, apply, show);
        match before {
            Ok(_) => statement_run(statements[count - 1], between, apply, show),
            Err(error) => (Err(error), between),
        }
    }
}

/// What a whole program yields in a new frame around `parent`, and that
/// frame afterwards.
pub open spec fn program_outcome(
    statements: Seq<StatementView>,
    parent: Option<EnvironmentView>,
    apply: Applying,
    show: Showing,
) -> (Result<ValueView, ErrorView>, EnvironmentView) {
    program_run(statements, statements.len() as int, fresh(parent), apply, show)
}

/// Once a pair has failed, the pairs after it change nothing.
pub proof fn lemma_fields_error_stays(
    pairs: Seq<PairView>,
    count: int,
    more: int,
    environment: EnvironmentView,
    apply: Applying,
    show: Showing,
)
    requires
        0 <= count <= more <= pairs.len(),
        fields_evaluated(pairs, count, environment, apply, show).0 is Err,
    ensures
        fields_evaluated(pairs, more, environment, apply, show) == fields_evaluated(
            pairs,
            count,
            environment,
            apply,
            show,
        ),
    decreases more - count,
{
    if count < more {
        lemma_fields_error_stays(pairs, count, more - 1, environment, apply, show);
    }
}

/// Once a statement has failed, the statements after it change nothing.
pub proof fn lemma_run_error_stays(
    statements: Seq<StatementView>,
    count: int,
    more: int,
    environment: EnvironmentView,
    apply: Applying,
    show: Showing,
)
    requires
        0 <= count <= more <= statements.len(),
        program_run(statements, count, environment, apply, show).0 is Err,
    ensures
        program_run(statements, more, environment, apply, show) == program_run(
            statements,
            count,
            environment,
            apply,
            show,
        ),
    decreases more - count,
{
    if count < more {
        lemma_run_error_stays(statements, count, more - 1, environment, apply, show);
    }
}

/// Whether `result` is what `model` says: a value with that view, or the
/// same error.
pub open spec fn gives(result: Result<Value, Error>, model: Result<ValueView, ErrorView>) -> bool {
    match (result, model) {
        (Ok(value), Ok(view)) => value@ == view,
        (Err(error), Err(failure)) => error@ == failure,
        _ => false,
    }
}

/// Whether `result` and the environment `after` are what `model` says.
pub open spec fn yields(
    result: Result<Value, Error>,
    after: EnvironmentView,
    model: (Result<ValueView, ErrorView>, EnvironmentView),
) -> bool {
    gives(result, model.0) && after == model.1
}

/// `before`, `name` and `after`, one after the other.
fn around(before: &str, name: &str, after: &str) -> (text: String)
    ensures
        text@ == before@ + name@ + after@,
{
    let mut text = String::from_str(before);
    text.append(name);
    text.append(after);
    text
}

/// Applies a prefix operator to a value.
pub fn apply_unary<S: Fn(Number) -> String>(
    operator: TokenKind,
    right: Value,
    span: TextSpan,
    show: &S,
) -> (result: Result<Value, Error>)
    requires
        shows_by_value(show),
    ensures
        gives(result, unary_value(operator, right@, span, shower(show))),
{
    match (operator, &right) {
        (TokenKind::Bang, Value::Boolean(a)) => Ok(Value::Boolean(!*a)),
        (TokenKind::Plus, Value::Number(a)) => Ok(Value::Number(*a)),
        (TokenKind::Minus, Value::Number(a)) => Ok(Value::Number(negate(*a))),
        _ => {
            let mut message = around("Can't use '", operator.text(), "' with '");
            message.append(right.text(show).as_str());
            message.append("'");
            Err(Error::new(message, span))
        },
    }
}

/// Applies a binary operator to two values.
pub fn apply_binary<A: Fn(Operation, Number, Number) -> Number, S: Fn(Number) -> String>(
    operator: TokenKind,
    left: Value,
    right: Value,
    span: TextSpan,
    apply: &A,
    show: &S,
) -> (result: Result<Value, Error>)
    requires
        applies_by_value(apply),
        shows_by_value(show),
    ensures
        gives(result, binary_value(operator, left@, right@, span, applier(apply), shower(show))),
{
    match (operator, &left, &right) {
        (TokenKind::Plus, Value::String(a), Value::String(b)) => {
            let mut joined = a.clone();
            joined.append(b.as_str());
            Ok(Value::String(joined))
        },
        (TokenKind::Plus, Value::Number(a), Value::Number(b)) => Ok(
            Value::Number(apply(Operation::Add, *a, *b)),
        ),
        (TokenKind::Minus, Value::Number(a), Value::Number(b)) => Ok(
            Value::Number(apply(Operation::Subtract, *a, *b)),
        ),
        (TokenKind::Asterisk, Value::Number(a), Value::Number(b)) => Ok(
            Value::Number(apply(Operation::Multiply, *a, *b)),
        ),
        (TokenKind::Slash, Value::Number(a), Value::Number(b)) => {
            if zero(*b) {
                Err(Error::new(String::from_str("Can't divide by 0"), span))
            } else {
                Ok(Value::Number(apply(Operation::Divide, *a, *b)))
            }
        },
        (TokenKind::Greater, Value::Number(a), Value::Number(b)) => Ok(
            Value::Boolean(less(*b, *a)),
        ),
        (TokenKind::Lesser, Value::Number(a), Value::Number(b)) => Ok(
            Value::Boolean(less(*a, *b)),
        ),
        (TokenKind::GreaterOrEqual, Value::Number(a), Value::Number(b)) => Ok(
            Value::Boolean(at_most(*b, *a)),
        ),
        (TokenKind::LesserOrEqual, Value::Number(a), Value::Number(b)) => Ok(
            Value::Boolean(at_most(*a, *b)),
        ),
        (TokenKind::BangEqual, a, b) => Ok(Value::Boolean(!a.same(b))),
        (TokenKind::DoubleEqual, a, b) => Ok(Value::Boolean(a.same(b))),
        (TokenKind::DoubleAmpersand, Value::Boolean(a), Value::Boolean(b)) => Ok(
            Value::Boolean(*a && *b),
        ),
        (TokenKind::DoublePipe, Value::Boolean(a), Value::Boolean(b)) => Ok(
            Value::Boolean(*a || *b),
        ),
        _ => {
            let mut message = around("Can't use '", operator.text(), "' with '");
            message.append(left.text(show).as_str());
            message.append("' and '");
            message.append(right.text(show).as_str());
            message.append("'");
            Err(Error::new(message, span))
        },
    }
}

/// Reads the property `property` of a value.
pub fn access_property<S: Fn(Number) -> String>(
    value: Value,
    property: &str,
    span: TextSpan,
    show: &S,
) -> (result: Result<Value, Error>)
    requires
        shows_by_value(show),
    ensures
        gives(result, property_value(value@, property@, span, shower(show))),
{
    match &value {
        Value::Object(fields) => {
            let index = find_field(fields, property);
            proof {
                lemma_field_views(fields@);
            }
            if index < fields.len() {
                Ok(fields[index].1.clone())
            } else {
                Err(
                    Error::new(
                        around("Can't access the property '", property, "' as it's not defined"),
                        span,
                    ),
                )
            }
        },
        _ => Err(
            Error::new(
                around(
                    "Can't access property of '",
                    value.text(show).as_str(),
                    "' as it's not accessible",
                ),
                span,
            ),
        ),
    }
}

/// Evaluates `expression` in `environment`.
pub fn evaluate_expression<A: Fn(Operation, Number, Number) -> Number, S: Fn(Number) -> String>(
    expression: &Expression,
    environment: &mut Environment,
    apply: &A,
    show: &S,
) -> (result: Result<Value, Error>)
    requires
        applies_by_value(apply),
        shows_by_value(show),
    ensures
        yields(
            result,
            final(environment)@,
            evaluated(expression@, old(environment)@, applier(apply), shower(show)),
        ),
    decreases *expression,
{
    match expression {
        Expression::NoneLiteral(_) => Ok(Value::Nothing),
        Expression::Boolean(b) => Ok(Value::Boolean(b.value)),
        Expression::Numeric(n) => Ok(Value::Number(n.value)),
        Expression::String(s) => Ok(Value::String(s.value.clone())),
        Expression::Object(o) => {
            let mut fields: Vec<(String, Value)> = Vec::new();
            let mut count: usize = 0;
            let ghost start = environment@;
            let ghost pairs = pair_views(o.pairs@);
            proof {
                lemma_pair_views(o.pairs@);
            }
            while count < o.pairs.len()
                invariant
                    count <= o.pairs.len(),
                    applies_by_value(apply),
                    shows_by_value(show),
                    *expression == Expression::Object(*o),
                    start == old(environment)@,
                    pairs == pair_views(o.pairs@),
                    pairs.len() == o.pairs.len(),
                    forall|i: int|
                        0 <= i < o.pairs.len() ==> (#[trigger] pairs[i]) == (PairView {
                            key: o.pairs[i].key@,
                            value: o.pairs[i].value@,
                        }),
                    fields_evaluated(pairs, count as int, start, applier(apply), shower(show)) == (
                        Ok::<Seq<(Seq<char>, ValueView)>, ErrorView>(field_views(fields@)),
                        environment@,
                    ),
                decreases o.pairs.len() - count,
            {
                let pair = &o.pairs[count];
                assert(decreases_to!(*expression => expression->Object_0));
                assert(decreases_to!(*o => o.pairs));
                assert(decreases_to!(o.pairs => o.pairs[count as int]));
                assert(decreases_to!(o.pairs[count as int] => o.pairs[count as int].value));
                match evaluate_expression(&pair.value, environment, apply, show) {
                    Ok(value) => {
                        set_field(&mut fields, pair.key.lexeme.clone(), value);
                        count += 1;
                    },
                    Err(error) => {
                        proof {
                            assert(fields_evaluated(
                                pairs,
                                count + 1,
                                start,
                                applier(apply),
                                shower(show),
                            ).0 is Err);
                            lemma_fields_error_stays(
                                pairs,
                                count + 1,
                                pairs.len() as int,
                                start,
                                applier(apply),
                                shower(show),
                            );
                        }
                        return Err(error);
                    },
                }
            }
            Ok(Value::Object(fields))
        },
        Expression::Identifier(i) => {
            match environment.access(i.identifier.lexeme.as_str()) {
                Some(value) => Ok(value),
                None => Err(
                    Error::new(
                        around(
                            "Can't access the variable '",
                            i.identifier.lexeme.as_str(),
                            "' as it's not defined",
                        ),
                        i.text_span(),
                    ),
                ),
            }
        },
        Expression::Access(a) => {
            let value = evaluate_expression(&a.object, environment, apply, show)?;
            access_property(value, a.property.lexeme.as_str(), a.text_span(), show)
        },
        Expression::Unary(u) => {
            let right = evaluate_expression(&u.right, environment, apply, show)?;
            apply_unary(u.operator.kind, right, u.text_span(), show)
        },
        Expression::Binary(b) => {
            let left = evaluate_expression(&b.left, environment, apply, show)?;
            let right = evaluate_expression(&b.right, environment, apply, show)?;
            apply_binary(b.operator.kind, left, right, b.text_span(), apply, show)
        },
        Expression::Assignment(a) => {
            match environment.is_constant(a.identifier.lexeme.as_str()) {
                Some(is_constant) => {
                    if is_constant {
                        Err(
                            Error::new(
                                around(
                                    "Can't assign the variable '",
                                    a.identifier.lexeme.as_str(),
                                    "' as it's a constant",
                                ),
                                a.text_span(),
                            ),
                        )
                    } else {
                        let value = evaluate_expression(&a.expression, environment, apply, show)?;
                        environment.define(a.identifier.lexeme.clone(), value.clone(), false);
                        Ok(value)
                    }
                },
                None => Err(
                    Error::new(
                        around(
                            "Can't assign to the variable '",
                            a.identifier.lexeme.as_str(),
                            "' as it's not defined",
                        ),
                        a.text_span(),
                    ),
                ),
            }
        },
    }
}

/// Evaluates the expression of a binding and binds `name` to its value.
fn evaluate_binding<A: Fn(Operation, Number, Number) -> Number, S: Fn(Number) -> String>(
    name: &String,
    is_constant: bool,
    expression: &Expression,
    environment: &mut Environment,
    apply: &A,
    show: &S,
) -> (result: Result<Value, Error>)
    requires
        applies_by_value(apply),
        shows_by_value(show),
    ensures
        yields(
            result,
            final(environment)@,
            bound(
                name@,
                is_constant,
                evaluated(expression@, old(environment)@, applier(apply), shower(show)),
            ),
        ),
{
    let value = evaluate_expression(expression, environment, apply, show)?;
    environment.define(name.clone(), value, is_constant);
    Ok(Value::Nothing)
}

/// Evaluates a `let` binding: binds a variable and yields nothing.
pub fn evaluate_let_statement<A: Fn(Operation, Number, Number) -> Number, S: Fn(Number) -> String>(
    statement: &LetStatement,
    environment: &mut Environment,
    apply: &A,
    show: &S,
) -> (result: Result<Value, Error>)
    requires
        applies_by_value(apply),
        shows_by_value(show),
    ensures
        yields(
            result,
            final(environment)@,
            bound(
                statement.identifier.lexeme@,
                false,
                evaluated(statement.expression@, old(environment)@, applier(apply), shower(show)),
            ),
        ),
{
    evaluate_binding(
        &statement.identifier.lexeme,
        false,
        &statement.expression,
        environment,
        apply,
        show,
    )
}

/// Evaluates a `const` binding: binds a constant and yields nothing.
pub fn evaluate_const_statement<
    A: Fn(Operation, Number, Number) -> Number,
    S: Fn(Number) -> String,
>(
    statement: &ConstStatement,
    environment: &mut Environment,
    apply: &A,
    show: &S,
) -> (result: Result<Value, Error>)
    requires
        applies_by_value(apply),
        shows_by_value(show),
    ensures
        yields(
            result,
            final(environment)@,
            bound(
                statement.identifier.lexeme@,
                true,
                evaluated(statement.expression@, old(environment)@, applier(apply), shower(show)),
            ),
        ),
{
    evaluate_binding(
        &statement.identifier.lexeme,
        true,
        &statement.expression,
        environment,
        apply,
        show,
    )
}

/// Evaluates one statement in `environment`.
pub fn evaluate_statement<A: Fn(Operation, Number, Number) -> Number, S: Fn(Number) -> String>(
    statement: &Statement,
    environment: &mut Environment,
    apply: &A,
    show: &S,
) -> (result: Result<Value, Error>)
    requires
        applies_by_value(apply),
        shows_by_value(show),
    ensures
        yields(
            result,
            final(environment)@,
            statement_run(statement@, old(environment)@, applier(apply), shower(show)),
        ),
{
    match statement {
        Statement::Let(l) => evaluate_let_statement(l, environment, apply, show),
        Statement::Const(c) => evaluate_const_statement(c, environment, apply, show),
        Statement::Expression(e) => evaluate_expression(e, environment, apply, show),
    }
}

/// Whether `result` is what `model` says: the value and the environment,
/// or the error.
pub open spec fn evaluation_is(
    result: Result<(Value, Environment), Error>,
    model: (Result<ValueView, ErrorView>, EnvironmentView),
) -> bool {
    match (result, model.0) {
        (Ok((value, environment)), Ok(view)) => value@ == view && environment@ == model.1,
        (Err(error), Err(failure)) => error@ == failure,
        _ => false,
    }
}

/// Runs `program` in a new frame around `parent`, or in a new root frame
/// with the built-in bindings, and returns the value of the last statement
/// with that frame, or the first error.
///
/// `apply` computes the four rounded operations on numbers and `show`
/// prints a number for a message.
pub fn evaluate<A: Fn(Operation, Number, Number) -> Number, S: Fn(Number) -> String>(
    program: Program,
    parent: Option<Environment>,
    apply: &A,
    show: &S,
) -> (result: Result<(Value, Environment), Error>)
    requires
        applies_by_value(apply),
        shows_by_value(show),
    ensures
        evaluation_is(
            result,
            program_outcome(
                statement_views(program@),
                optional_view(parent),
                applier(apply),
                shower(show),
            ),
        ),
{
    let mut value = Value::Nothing;
    let mut environment = Environment::new(parent);
    let ghost start = environment@;
    let ghost statements = statement_views(program@);
    let mut count: usize = 0;
    while count < program.len()
        invariant
            count <= program.len(),
            applies_by_value(apply),
            shows_by_value(show),
            statements == statement_views(program@),
            start == fresh(optional_view(parent)),
            program_run(statements, count as int, start, applier(apply), shower(show)) == (
                Ok::<ValueView, ErrorView>(value@),
                environment@,
            ),
        decreases program.len() - count,
    {
        match evaluate_statement(&program[count], &mut environment, apply, show) {
            Ok(next) => {
                value = next;
                count += 1;
            },
            Err(error) => {
                proof {
                    assert(program_run(
                        statements,
                        count + 1,
                        start,
                        applier(apply),
                        shower(show),
                    ).0 is Err);
                    lemma_run_error_stays(
                        statements,
                        count + 1,
                        statements.len() as int,
                        start,
                        applier(apply),
                        shower(show),
                    );
                }
                return Err(error);
            },
        }
    }
    Ok((value, environment))
}

/// No binary operator skips its right operand: where the left operand
/// yields a value, whatever it is, and the right operand then fails, the
/// whole expression fails with the right operand's error. In particular
/// `false && x` and `true || x` fail where `x` does.
pub proof fn lemma_right_operand_always_evaluated(
    left: ExpressionView,
    operator: TokenView,
    right: ExpressionView,
    environment: EnvironmentView,
    apply: Applying,
    show: Showing,
)
    requires
        evaluated(left, environment, apply, show).0 is Ok,
        evaluated(right, evaluated(left, environment, apply, show).1, apply, show).0 is Err,
    ensures
        evaluated(
            ExpressionView::Binary { left: Box::new(left), operator, right: Box::new(right) },
            environment,
            apply,
            show,
        ) == evaluated(right, evaluated(left, environment, apply, show).1, apply, show),
{
}

/// Evaluation writes to the innermost frame alone: the frames around it
/// are afterwards what they were before, whether the expression yields a
/// value or fails.
pub proof fn lemma_evaluation_keeps_outer_frames(
    expression: ExpressionView,
    environment: EnvironmentView,
    apply: Applying,
    show: Showing,
)
    ensures
        evaluated(expression, environment, apply, show).1.parent == environment.parent,
    decreases expression,
{
    match expression {
        ExpressionView::Object { pairs, .. } => {
            lemma_fields_keep_outer_frames(pairs, pairs.len() as int, environment, apply, show);
        },
        ExpressionView::Access { object, .. } => {
            lemma_evaluation_keeps_outer_frames(*object, environment, apply, show);
        },
        ExpressionView::Unary { right, .. } => {
            lemma_evaluation_keeps_outer_frames(*right, environment, apply, show);
        },
        ExpressionView::Binary { left, right, .. } => {
            lemma_evaluation_keeps_outer_frames(*left, environment, apply, show);
            let between = evaluated(*left, environment, apply, show).1;
            lemma_evaluation_keeps_outer_frames(*right, between, apply, show);
        },
        ExpressionView::Assignment { expression: source, .. } => {
            lemma_evaluation_keeps_outer_frames(*source, environment, apply, show);
        },
        _ => {},
    }
}

/// The pairs of an object literal write to the innermost frame alone.
pub proof fn lemma_fields_keep_outer_frames(
    pairs: Seq<PairView>,
    count: int,
    environment: EnvironmentView,
    apply: Applying,
    show: Showing,
)
    ensures
        fields_evaluated(pairs, count, environment, apply, show).1.parent == environment.parent,
    decreases pairs, count,
{
    if 0 < count <= pairs.len() {
        lemma_fields_keep_outer_frames(pairs, count - 1, environment, apply, show);
        let between = fields_evaluated(pairs, count - 1, environment, apply, show).1;
        lemma_evaluation_keeps_outer_frames(pairs[count - 1].value, between, apply, show);
    }
}

/// A program writes to its own frame alone: the environment that it was
/// run around is, afterwards, the parent of that frame, unchanged.
pub proof fn lemma_program_keeps_outer_frames(
    statements: Seq<StatementView>,
    count: int,
    environment: EnvironmentView,
    apply: Applying,
    show: Showing,
)
    ensures
        program_run(statements, count, environment, apply, show).1.parent == environment.parent,
    decreases count,
{
    if 0 < count <= statements.len() {
        lemma_program_keeps_outer_frames(statements, count - 1, environment, apply, show);
        let between = program_run(statements, count - 1, environment, apply, show).1;
        match statements[count - 1] {
            StatementView::Let { expression, .. } => {
                lemma_evaluation_keeps_outer_frames(expression, between, apply, show);
            },
            StatementView::Const { expression, .. } => {
                lemma_evaluation_keeps_outer_frames(expression, between, apply, show);
            },
            StatementView::Expression { expression } => {
                lemma_evaluation_keeps_outer_frames(expression, between, apply, show);
            },
        }
    }
}

/// What a binding statement binds is read back: once `let` or `const` has
/// bound a name to the value of its expression, the name evaluates to that
/// value, in the same frame and in any new frame around it.
pub proof fn lemma_bound_name_is_read_back(
    name: TokenView,
    is_constant: bool,
    outcome: (Result<ValueView, ErrorView>, EnvironmentView),
    reference: TokenView,
    apply: Applying,
    show: Showing,
)
    requires
        outcome.0 is Ok,
        reference.lexeme == name.lexeme,
    ensures
        bound(name.lexeme, is_constant, outcome).0 == Ok::<ValueView, ErrorView>(
            ValueView::Nothing,
        ),
        evaluated(
            ExpressionView::Identifier { identifier: reference },
            bound(name.lexeme, is_constant, outcome).1,
            apply,
            show,
        ).0 == outcome.0,
        evaluated(
            ExpressionView::Identifier { identifier: reference },
            fresh(Some(bound(name.lexeme, is_constant, outcome).1)),
            apply,
            show,
        ).0 == outcome.0,
{
    lemma_defined_is_found(outcome.1, name.lexeme, outcome.0->Ok_0, is_constant);
}

/// A constant is never assigned: where the innermost binding of a name is
/// constant, an assignment to the name fails, whatever its right side is,
/// and leaves the environment as it was.
pub proof fn lemma_constant_is_not_assigned(
    identifier: TokenView,
    source: ExpressionView,
    environment: EnvironmentView,
    apply: Applying,
    show: Showing,
)
    requires
        binding_in(environment, identifier.lexeme) matches Some(binding) && binding.is_constant,
    ensures
        ({
            let assignment = ExpressionView::Assignment {
                identifier,
                expression: Box::new(source),
            };
            evaluated(assignment, environment, apply, show) == (
                Err::<ValueView, ErrorView>(
                    assignment_to_constant(identifier.lexeme, span_of(assignment)),
                ),
                environment,
            )
        }),
{
}

/// A variable is assigned: where the innermost binding of a name is not
/// constant and the right side yields a value, the assignment yields that
/// value, and afterwards the name evaluates to it and is still a variable.
pub proof fn lemma_variable_is_assigned(
    identifier: TokenView,
    source: ExpressionView,
    environment: EnvironmentView,
    apply: Applying,
    show: Showing,
)
    requires
        binding_in(environment, identifier.lexeme) matches Some(binding) && !binding.is_constant,
        evaluated(source, environment, apply, show).0 is Ok,
    ensures
        ({
            let assignment = ExpressionView::Assignment {
                identifier,
                expression: Box::new(source),
            };
            let value = evaluated(source, environment, apply, show).0;
            let after = evaluated(assignment, environment, apply, show).1;
            &&& evaluated(assignment, environment, apply, show).0 == value
            &&& binding_in(after, identifier.lexeme) == Some(
                BindingView { name: identifier.lexeme, value: value->Ok_0, is_constant: false },
            )
            &&& evaluated(ExpressionView::Identifier { identifier }, after, apply, show).0 == value
        }),
{
    let outcome = evaluated(source, environment, apply, show);
    lemma_defined_is_found(outcome.1, identifier.lexeme, outcome.0->Ok_0, false);
}

} // verus!
