//! The whole way from source text to a value.
use crate::frontend::ast::{
    expression_of, spans_nest, ExpressionView, Number, StatementView,
};
use crate::frontend::text::byte_offset;
use crate::frontend::literal::{reader, reads_by_text, Reading};
use crate::frontend::parser::{
    assignment_at, binary_at, lemma_program_nests, parse, primary_at, program_at, program_of,
    statement_at, unary_at, Level,
};
use crate::frontend::token::{TokenKind, TokenView};
use crate::frontend::tokenizer::{
    is_digit, lemma_run_end_bounds, lemma_tokens_end_with_eof, lemma_tokens_in_order, lex_at,
    marked, run_end, token_over, tokenize, tokens_from, tokens_of, Lexed, Run,
};
use crate::frontend::utils::{Error, ErrorView};
use crate::runtime::environment::{fresh, optional_view, Environment, EnvironmentView};
use crate::runtime::evaluator::{
    evaluate, program_outcome, program_run, statement_run, Applying, Showing,
};
use crate::runtime::number::{applier, applies_by_value, shower, shows_by_value, Operation};
use crate::runtime::types::{Value, ValueView};
use vstd::prelude::*;

verus! {

/// What a source text yields in a new frame around `parent`: the value of
/// its last statement and that frame afterwards, or the first error of the
/// lexer, the parser or the evaluator, in that order.
pub open spec fn interpreted(
    source: Seq<char>,
    parent: Option<EnvironmentView>,
    read: Reading,
    apply: Applying,
    show: Showing,
) -> Result<(ValueView, EnvironmentView), ErrorView> {
    match tokens_of(source) {
        Ok(tokens) => match program_of(tokens, read) {
            Ok(statements) => match program_outcome(statements, parent, apply, show) {
                (Ok(value), environment) => Ok((value, environment)),
                (Err(error), _) => Err(error),
            },
            Err(error) => Err(error),
        },
        Err(error) => Err(error),
    }
}

/// Whether `result` is what `model` says: the value and the environment,
/// or the error.
pub open spec fn ran(
    result: Result<(Value, Environment), Error>,
    model: Result<(ValueView, EnvironmentView), ErrorView>,
) -> bool {
    match (result, model) {
        (Ok((value, environment)), Ok((view, after))) => value@ == view && environment@ == after,
        (Err(error), Err(failure)) => error@ == failure,
        _ => false,
    }
}

/// Tokenizes, parses and evaluates `source_code` in a new frame around
/// `parent`, or in a new root frame.
///
/// `read` gives the value of a numeric literal, `apply` computes the four
/// rounded operations and `show` prints a number for a message.
pub fn run<
    R: Fn(&str) -> Option<Number>,
    A: Fn(Operation, Number, Number) -> Number,
    S: Fn(Number) -> String,
>(source_code: &str, parent: Option<Environment>, read: &R, apply: &A, show: &S) -> (result:
    Result<(Value, Environment), Error>)
    requires
        reads_by_text(read),
        applies_by_value(apply),
        shows_by_value(show),
    ensures
        ran(
            result,
            interpreted(
                source_code@,
                optional_view(parent),
                reader(read),
                applier(apply),
                shower(show),
            ),
        ),
{
    let tokens = tokenize(source_code)?;
    let program = parse(tokens, read)?;
    evaluate(program, parent, apply, show)
}

/// A lexeme that the lexer reads as one number: a digit, then digits and
/// dots.
pub open spec fn is_numeric_lexeme(lexeme: Seq<char>) -> bool {
    &&& lexeme.len() > 0
    &&& is_digit(lexeme[0])
    &&& forall|i: int| 0 <= i < lexeme.len() ==> is_digit(#[trigger] lexeme[i]) || lexeme[i] == '.'
}

/// The tokens of a numeric lexeme: the number, over the whole lexeme, and
/// the end-of-input token.
pub open spec fn number_tokens(lexeme: Seq<char>) -> Seq<TokenView> {
    seq![
        token_over(marked(lexeme), 0, lexeme.len() as int, TokenKind::Number),
        token_over(marked(lexeme), lexeme.len() as int, lexeme.len() as int + 1, TokenKind::Eof),
    ]
}

/// A numeric lexeme alone is lexed as one number token, whose lexeme it is.
pub proof fn lemma_number_is_one_token(lexeme: Seq<char>)
    requires
        is_numeric_lexeme(lexeme),
    ensures
        tokens_of(lexeme) == Ok::<Seq<TokenView>, ErrorView>(number_tokens(lexeme)),
        number_tokens(lexeme)[0].lexeme == lexeme,
{
    let text = marked(lexeme);
    let len = lexeme.len() as int;
    lemma_run_end_bounds(text, 1, Run::Digits);
    assert(run_end(text, 1, Run::Digits) == len) by {
        let end = run_end(text, 1, Run::Digits);
        if end < len {
            assert(text[end] == lexeme[end]);
        }
        if end > len {
            assert(Run::Digits.takes(text[len]));
        }
    }
    assert(text[0] == lexeme[0]);
    assert(lex_at(text, 0) == Lexed::Found {
        token: token_over(text, 0, len, TokenKind::Number),
        next: len,
    });
    assert(lex_at(text, len) == Lexed::Found {
        token: token_over(text, len, len + 1, TokenKind::Eof),
        next: len + 1,
    });
    assert(tokens_from(text, len + 1) == Ok::<Seq<TokenView>, ErrorView>(Seq::empty()));
    assert(tokens_from(text, len) == Ok::<Seq<TokenView>, ErrorView>(
        seq![token_over(text, len, len + 1, TokenKind::Eof)] + Seq::empty(),
    ));
    assert(seq![token_over(text, 0, len, TokenKind::Number)] + (seq![
        token_over(text, len, len + 1, TokenKind::Eof),
    ] + Seq::empty()) =~= number_tokens(lexeme));
    assert(text.subrange(0, len) =~= lexeme);
}

/// A number token followed by the end of input is parsed as one statement:
/// the numeric literal with the value that `read` finds in the lexeme.
pub proof fn lemma_number_is_one_statement(tokens: Seq<TokenView>, read: Reading, value: Number)
    requires
        tokens.len() == 2,
        tokens[0].kind == TokenKind::Number,
        tokens[1].kind == TokenKind::Eof,
        read(tokens[0].lexeme) == Some(value),
    ensures
        program_of(tokens, read) == Ok::<Seq<StatementView>, ErrorView>(
            seq![
                StatementView::Expression {
                    expression: ExpressionView::Numeric { number: tokens[0], value },
                },
            ],
        ),
{
    let literal = ExpressionView::Numeric { number: tokens[0], value };
    let found = Ok::<(ExpressionView, int), ErrorView>((literal, 1));
    assert(primary_at(tokens, 0, read) == found);
    assert(unary_at(tokens, 0, read) == found);
    assert(binary_at(tokens, 0, Level::Multiplicative, read) == found);
    assert(binary_at(tokens, 0, Level::Additive, read) == found);
    assert(binary_at(tokens, 0, Level::Comparison, read) == found);
    assert(binary_at(tokens, 0, Level::Equality, read) == found);
    assert(binary_at(tokens, 0, Level::Logical, read) == found);
    assert(assignment_at(tokens, 0, read) == found);
    assert(statement_at(tokens, 0, read) == Ok::<(StatementView, int), ErrorView>(
        (StatementView::Expression { expression: literal }, 1),
    ));
    assert(program_at(tokens, 1, read) == Ok::<Seq<StatementView>, ErrorView>(Seq::empty()));
    assert(seq![StatementView::Expression { expression: literal }] + Seq::empty() =~= seq![
        StatementView::Expression { expression: literal },
    ]);
}

/// A numeric literal alone evaluates to its own value: where `lexeme` is a
/// digit followed by digits and dots and `read` finds the number `value`
/// in it, the source `lexeme` yields `value`, and leaves the new frame as
/// it was made.
pub proof fn lemma_numeric_literal_evaluates_to_its_value(
    lexeme: Seq<char>,
    value: Number,
    parent: Option<EnvironmentView>,
    read: Reading,
    apply: Applying,
    show: Showing,
)
    requires
        is_numeric_lexeme(lexeme),
        read(lexeme) == Some(value),
    ensures
        interpreted(lexeme, parent, read, apply, show) == Ok::<
            (ValueView, EnvironmentView),
            ErrorView,
        >((ValueView::Number(value), fresh(parent))),
{
    lemma_number_is_one_token(lexeme);
    let tokens = number_tokens(lexeme);
    lemma_number_is_one_statement(tokens, read, value);
    let statement = StatementView::Expression {
        expression: ExpressionView::Numeric { number: tokens[0], value },
    };
    let statements = seq![statement];
    assert(program_run(statements, 0, fresh(parent), apply, show) == (
        Ok::<ValueView, ErrorView>(ValueView::Nothing),
        fresh(parent),
    ));
    assert(statement_run(statement, fresh(parent), apply, show) == (
        Ok::<ValueView, ErrorView>(ValueView::Number(value)),
        fresh(parent),
    ));
    assert(program_run(statements, 1, fresh(parent), apply, show) == (
        Ok::<ValueView, ErrorView>(ValueView::Number(value)),
        fresh(parent),
    ));
}

/// In every expression that is parsed from a source text, the span of a
/// node covers the spans of its parts. The source must be short enough for
/// its byte offsets to be spans.
pub proof fn lemma_parsed_spans_nest(source: Seq<char>, read: Reading)
    requires
        byte_offset(marked(source), marked(source).len() as int) <= usize::MAX,
    ensures
        tokens_of(source) matches Ok(tokens) ==> (program_of(tokens, read) matches Ok(
            statements,
        ) ==> forall|i: int|
            0 <= i < statements.len() ==> spans_nest(expression_of(#[trigger] statements[i]))),
{
    lemma_tokens_in_order(marked(source), 0);
    lemma_tokens_end_with_eof(marked(source), 0);
    if let Ok(tokens) = tokens_of(source) {
        lemma_program_nests(tokens, 0, read);
    }
}

} // verus!
