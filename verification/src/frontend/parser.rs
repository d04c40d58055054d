//! The parser: from tokens to statements, by recursive descent.
//!
//! The grammar is written down twice. The spec functions ending in `_at`
//! say, for a sequence of tokens and an offset into it, which tree starts
//! there and where it ends, or which error. The executable functions
//! compute exactly that.
//!
//! Every level of binary operators parses its right operand at its own
//! level, so a chain of operators of one level groups to the right:
//! `a - b - c` is `a - (b - c)`.
use crate::frontend::ast::{
    expression_of, pair_views, span_of, spans_nest, statement_views, AccessExpression,
    AssignmentExpression, BinaryExpression, BooleanLiteralExpression, ConstStatement, Expression,
    ExpressionView, IdentifierExpression, KeyValuePair, LetStatement, NoneLiteralExpression,
    Number, NumericLiteralExpression, ObjectLiteralExpression, PairView, Program, Statement,
    StatementView, StringLiteralExpression, UnaryExpression,
};
use crate::frontend::literal::{reader, reads_by_text, Reading};
use crate::frontend::token::{in_order, kind_text, token_views, Token, TokenKind, TokenView};
use crate::frontend::utils::{Error, ErrorView, TextSpan};
use vstd::prelude::*;
use vstd::string::StringExecFns;

verus! {

/// The kind of the token at `index`; past the end it reads as end-of-input.
pub open spec fn kind_at(tokens: Seq<TokenView>, index: int) -> TokenKind {
    if 0 <= index < tokens.len() {
        tokens[index].kind
    } else {
        TokenKind::Eof
    }
}

/// A sequence of tokens that the parser can work on: its last token is the
/// end-of-input token.
pub open spec fn ends_with_eof(tokens: Seq<TokenView>) -> bool {
    tokens.len() > 0 && tokens.last().kind == TokenKind::Eof
}

/// The error for a token with which no expression starts.
pub open spec fn unexpected_token(token: TokenView) -> ErrorView {
    ErrorView {
        message: "Unexpected token '"@ + token.lexeme + "'"@,
        text_span: token.text_span,
    }
}

/// The error for a token that stands where one of kind `expected` is due.
pub open spec fn unexpected_token_expected(token: TokenView, expected: TokenKind) -> ErrorView {
    ErrorView {
        message: "Unexpected token '"@ + token.lexeme + "', expected '"@ + kind_text(expected)
            + "'"@,
        text_span: token.text_span,
    }
}

/// The error for a numeric lexeme in which no number is read.
pub open spec fn invalid_number(token: TokenView) -> ErrorView {
    ErrorView {
        message: "Invalid number '"@ + token.lexeme + "'"@,
        text_span: token.text_span,
    }
}

/// The token at `index` if it is of kind `expected`, with the offset after
/// it; otherwise the error that names both.
pub open spec fn expect_at(tokens: Seq<TokenView>, index: int, expected: TokenKind) -> Result<
    (TokenView, int),
    ErrorView,
> {
    if kind_at(tokens, index) == expected {
        Ok((tokens[index], index + 1))
    } else {
        Err(unexpected_token_expected(tokens[index], expected))
    }
}

/// The levels of binary operators, loosest first.
#[derive(Debug, PartialEq, Eq, Structural, Clone, Copy)]
pub enum Level {
    Logical,
    Equality,
    Comparison,
    Additive,
    Multiplicative,
}

impl Level {
    /// Whether `kind` is an operator of this level.
    pub open spec fn takes(self, kind: TokenKind) -> bool {
        match self {
            Level::Logical => kind == TokenKind::DoubleAmpersand || kind == TokenKind::DoublePipe,
            Level::Equality => kind == TokenKind::DoubleEqual || kind == TokenKind::BangEqual,
            Level::Comparison => kind == TokenKind::Greater || kind == TokenKind::Lesser || kind
                == TokenKind::GreaterOrEqual || kind == TokenKind::LesserOrEqual,
            Level::Additive => kind == TokenKind::Plus || kind == TokenKind::Minus,
            Level::Multiplicative => kind == TokenKind::Asterisk || kind == TokenKind::Slash,
        }
    }

    /// The next tighter level; after the tightest come the unary operators.
    pub open spec fn tighter(self) -> Option<Level> {
        match self {
            Level::Logical => Some(Level::Equality),
            Level::Equality => Some(Level::Comparison),
            Level::Comparison => Some(Level::Additive),
            Level::Additive => Some(Level::Multiplicative),
            Level::Multiplicative => None,
        }
    }

    /// How loose the level is: the measure by which a level calls the next.
    pub open spec fn rank(self) -> nat {
        match self {
            Level::Logical => 6,
            Level::Equality => 5,
            Level::Comparison => 4,
            Level::Additive => 3,
            Level::Multiplicative => 2,
        }
    }
}

/// Whether `kind` is a prefix operator: `!`, `+` or `-`.
pub open spec fn is_unary_operator(kind: TokenKind) -> bool {
    kind == TokenKind::Bang || kind == TokenKind::Plus || kind == TokenKind::Minus
}

/// The primary expression that starts at `index`: a parenthesized
/// expression, a literal, an object literal, or an identifier, which one
/// dot and a second identifier turn into a property access.
pub open spec fn primary_at(tokens: Seq<TokenView>, index: int, read: Reading) -> Result<
    (ExpressionView, int),
    ErrorView,
>
    decreases tokens.len() - index, 0nat,
{
    let token = tokens[index];
    match kind_at(tokens, index) {
        TokenKind::OpenParen => match assignment_at(tokens, index + 1, read) {
            Ok((inner, next)) => match expect_at(tokens, next, TokenKind::CloseParen) {
                Ok((_, end)) => Ok((inner, end)),
                Err(error) => Err(error),
            },
            Err(error) => Err(error),
        },
        TokenKind::NoneLiteral => Ok((ExpressionView::NoneLiteral { none: token }, index + 1)),
        TokenKind::True => Ok((ExpressionView::Boolean { boolean: token, value: true }, index + 1)),
        TokenKind::False => Ok(
            (ExpressionView::Boolean { boolean: token, value: false }, index + 1),
        ),
        TokenKind::Number => match read(token.lexeme) {
            Some(value) => Ok((ExpressionView::Numeric { number: token, value }, index + 1)),
            None => Err(invalid_number(token)),
        },
        TokenKind::String => Ok(
            (ExpressionView::String { string: token, value: token.lexeme }, index + 1),
        ),
        TokenKind::OpenBrace => if kind_at(tokens, index + 1) == TokenKind::CloseBrace {
            Ok(
                (
                    ExpressionView::Object {
                        open_brace: token,
                        pairs: Seq::empty(),
                        close_brace: tokens[index + 1],
                    },
                    index + 2,
                ),
            )
        } else {
            match pairs_at(tokens, index + 1, read) {
                Ok((pairs, close)) => Ok(
                    (
                        ExpressionView::Object {
                            open_brace: token,
                            pairs,
                            close_brace: tokens[close],
                        },
                        close + 1,
                    ),
                ),
                Err(error) => Err(error),
            }
        },
        TokenKind::Identifier => if kind_at(tokens, index + 1) == TokenKind::Dot {
            match expect_at(tokens, index + 2, TokenKind::Identifier) {
                Ok((property, end)) => Ok(
                    (
                        ExpressionView::Access {
                            object: Box::new(ExpressionView::Identifier { identifier: token }),
                            property,
                        },
                        end,
                    ),
                ),
                Err(error) => Err(error),
            }
        } else {
            Ok((ExpressionView::Identifier { identifier: token }, index + 1))
        },
        _ => Err(unexpected_token(token)),
    }
}

/// The pairs of an object literal from `index` on, which is where a key is
/// due, with the offset of the closing brace. A pair is followed by the
/// brace or by a comma and another pair.
pub open spec fn pairs_at(tokens: Seq<TokenView>, index: int, read: Reading) -> Result<
    (Seq<PairView>, int),
    ErrorView,
>
    decreases tokens.len() - index, 8nat,
{
    match pair_at(tokens, index, read) {
        Ok((pair, next)) => if kind_at(tokens, next) == TokenKind::CloseBrace {
            Ok((seq![pair], next))
        } else {
            match expect_at(tokens, next, TokenKind::Comma) {
                Ok((_, after)) => if index < after {
                    match pairs_at(tokens, after, read) {
                        Ok((rest, close)) => Ok((seq![pair] + rest, close)),
                        Err(error) => Err(error),
                    }
                } else {
                    Ok((seq![pair], next))
                },
                Err(error) => Err(error),
            }
        },
        Err(error) => Err(error),
    }
}

/// The pair `key : value` that starts at `index`.
pub open spec fn pair_at(tokens: Seq<TokenView>, index: int, read: Reading) -> Result<
    (PairView, int),
    ErrorView,
>
    decreases tokens.len() - index, 7nat,
{
    match expect_at(tokens, index, TokenKind::Identifier) {
        Ok((key, _)) => match expect_at(tokens, index + 1, TokenKind::Colon) {
            Ok(_) => match assignment_at(tokens, index + 2, read) {
                Ok((value, next)) => Ok((PairView { key, value }, next)),
                Err(error) => Err(error),
            },
            Err(error) => Err(error),
        },
        Err(error) => Err(error),
    }
}

/// The unary expression that starts at `index`: any number of prefix
/// operators before a primary expression.
pub open spec fn unary_at(tokens: Seq<TokenView>, index: int, read: Reading) -> Result<
    (ExpressionView, int),
    ErrorView,
>
    decreases tokens.len() - index, 1nat,
{
    if is_unary_operator(kind_at(tokens, index)) {
        match unary_at(tokens, index + 1, read) {
            Ok((right, next)) => Ok(
                (ExpressionView::Unary { operator: tokens[index], right: Box::new(right) }, next),
            ),
            Err(error) => Err(error),
        }
    } else {
        primary_at(tokens, index, read)
    }
}

/// The binary expression of level `level` that starts at `index`: an
/// operand of the next tighter level and, if an operator of this level
/// follows, all the rest of the chain as the right operand.
///
/// An operand never ends before it starts; the test on `next` is there for
/// the sake of the definition, which must be seen to terminate.
pub open spec fn binary_at(tokens: Seq<TokenView>, index: int, level: Level, read: Reading)
    -> Result<(ExpressionView, int), ErrorView>
    decreases tokens.len() - index, level.rank(),
{
    let operand = match level.tighter() {
        Some(inner) => binary_at(tokens, index, inner, read),
        None => unary_at(tokens, index, read),
    };
    match operand {
        Ok((left, next)) => if index <= next && level.takes(kind_at(tokens, next)) {
            match binary_at(tokens, next + 1, level, read) {
                Ok((right, end)) => Ok(
                    (
                        ExpressionView::Binary {
                            left: Box::new(left),
                            operator: tokens[next],
                            right: Box::new(right),
                        },
                        end,
                    ),
                ),
                Err(error) => Err(error),
            }
        } else {
            Ok((left, next))
        },
        Err(error) => Err(error),
    }
}

/// The expression that starts at `index`. An identifier directly followed
/// by `=` starts an assignment, whose value is again an expression;
/// anything else is a binary expression of the loosest level.
pub open spec fn assignment_at(tokens: Seq<TokenView>, index: int, read: Reading) -> Result<
    (ExpressionView, int),
    ErrorView,
>
    decreases tokens.len() - index, 9nat,
{
    if kind_at(tokens, index) == TokenKind::Identifier && kind_at(tokens, index + 1)
        == TokenKind::Equal {
        match assignment_at(tokens, index + 2, read) {
            Ok((value, next)) => Ok(
                (
                    ExpressionView::Assignment {
                        identifier: tokens[index],
                        expression: Box::new(value),
                    },
                    next,
                ),
            ),
            Err(error) => Err(error),
        }
    } else {
        binary_at(tokens, index, Level::Logical, read)
    }
}

/// The binding that starts at `index` with the keyword `keyword`: the
/// keyword, an identifier, `=` and an expression, which are returned
/// without the `=`.
pub open spec fn binding_at(tokens: Seq<TokenView>, index: int, keyword: TokenKind, read: Reading)
    -> Result<((TokenView, TokenView, ExpressionView), int), ErrorView> {
    match expect_at(tokens, index, keyword) {
        Ok((word, _)) => match expect_at(tokens, index + 1, TokenKind::Identifier) {
            Ok((identifier, _)) => match expect_at(tokens, index + 2, TokenKind::Equal) {
                Ok(_) => match assignment_at(tokens, index + 3, read) {
                    Ok((expression, next)) => Ok(((word, identifier, expression), next)),
                    Err(error) => Err(error),
                },
                Err(error) => Err(error),
            },
            Err(error) => Err(error),
        },
        Err(error) => Err(error),
    }
}

/// The `let` statement that starts at `index`.
pub open spec fn let_at(tokens: Seq<TokenView>, index: int, read: Reading) -> Result<
    (StatementView, int),
    ErrorView,
> {
    match binding_at(tokens, index, TokenKind::Let, read) {
        Ok(((keyword, identifier, expression), next)) => Ok(
            (StatementView::Let { keyword, identifier, expression }, next),
        ),
        Err(error) => Err(error),
    }
}

/// The `const` statement that starts at `index`.
pub open spec fn const_at(tokens: Seq<TokenView>, index: int, read: Reading) -> Result<
    (StatementView, int),
    ErrorView,
> {
    match binding_at(tokens, index, TokenKind::Const, read) {
        Ok(((keyword, identifier, expression), next)) => Ok(
            (StatementView::Const { keyword, identifier, expression }, next),
        ),
        Err(error) => Err(error),
    }
}

/// The statement that starts at `index`: a binding where a `let` or
/// `const` stands, otherwise an expression.
pub open spec fn statement_at(tokens: Seq<TokenView>, index: int, read: Reading) -> Result<
    (StatementView, int),
    ErrorView,
> {
    match kind_at(tokens, index) {
        TokenKind::Let => let_at(tokens, index, read),
        TokenKind::Const => const_at(tokens, index, read),
        _ => match assignment_at(tokens, index, read) {
            Ok((expression, next)) => Ok((StatementView::Expression { expression }, next)),
            Err(error) => Err(error),
        },
    }
}

/// `first`, then the statements of `rest`; an error in `rest` stays an
/// error.
pub open spec fn then_statements(
    first: Seq<StatementView>,
    rest: Result<Seq<StatementView>, ErrorView>,
) -> Result<Seq<StatementView>, ErrorView> {
    match rest {
        Ok(statements) => Ok(first + statements),
        Err(error) => Err(error),
    }
}

/// The statements from `index` up to the first end-of-input token, or the
/// first error.
///
/// A statement never ends where it starts; the test on `next` is there for
/// the sake of the definition, which must be seen to terminate.
pub open spec fn program_at(tokens: Seq<TokenView>, index: int, read: Reading) -> Result<
    Seq<StatementView>,
    ErrorView,
>
    decreases tokens.len() - index,
{
    if kind_at(tokens, index) == TokenKind::Eof {
        Ok(Seq::empty())
    } else {
        match statement_at(tokens, index, read) {
            Ok((statement, next)) => if index < next <= tokens.len() {
                then_statements(seq![statement], program_at(tokens, next, read))
            } else {
                Ok(seq![statement])
            },
            Err(error) => Err(error),
        }
    }
}

/// The program that `tokens` spell, or the first error.
pub open spec fn program_of(tokens: Seq<TokenView>, read: Reading) -> Result<
    Seq<StatementView>,
    ErrorView,
> {
    program_at(tokens, 0, read)
}

/// Whether a successful `result` of parsing at `index` ends strictly after
/// `index` and before the last of `len` tokens.
pub open spec fn advances<T>(result: Result<(T, int), ErrorView>, index: int, len: nat) -> bool {
    result matches Ok((_, next)) ==> index < next < len
}

/// A primary expression takes at least one token and leaves the last one.
pub proof fn lemma_primary_advances(tokens: Seq<TokenView>, index: int, read: Reading)
    requires
        ends_with_eof(tokens),
        0 <= index < tokens.len(),
    ensures
        advances(primary_at(tokens, index, read), index, tokens.len()),
    decreases tokens.len() - index, 0nat,
{
    match kind_at(tokens, index) {
        TokenKind::OpenParen => {
            lemma_assignment_advances(tokens, index + 1, read);
        },
        TokenKind::OpenBrace => {
            if kind_at(tokens, index + 1) != TokenKind::CloseBrace {
                lemma_pairs_advance(tokens, index + 1, read);
            }
        },
        _ => {},
    }
}

/// The pairs of an object literal end at a closing brace further on.
pub proof fn lemma_pairs_advance(tokens: Seq<TokenView>, index: int, read: Reading)
    requires
        ends_with_eof(tokens),
        0 <= index < tokens.len(),
    ensures
        pairs_at(tokens, index, read) matches Ok((_, close)) ==> index < close < tokens.len()
            && tokens[close].kind == TokenKind::CloseBrace,
    decreases tokens.len() - index, 8nat,
{
    lemma_pair_advances(tokens, index, read);
    if let Ok((_, next)) = pair_at(tokens, index, read) {
        if kind_at(tokens, next) != TokenKind::CloseBrace {
            if let Ok((_, after)) = expect_at(tokens, next, TokenKind::Comma) {
                lemma_pairs_advance(tokens, after, read);
            }
        }
    }
}

/// A pair takes at least one token and leaves the last one.
pub proof fn lemma_pair_advances(tokens: Seq<TokenView>, index: int, read: Reading)
    requires
        ends_with_eof(tokens),
        0 <= index < tokens.len(),
    ensures
        advances(pair_at(tokens, index, read), index, tokens.len()),
    decreases tokens.len() - index, 7nat,
{
    if kind_at(tokens, index) == TokenKind::Identifier && kind_at(tokens, index + 1)
        == TokenKind::Colon {
        lemma_assignment_advances(tokens, index + 2, read);
    }
}

/// A unary expression takes at least one token and leaves the last one.
pub proof fn lemma_unary_advances(tokens: Seq<TokenView>, index: int, read: Reading)
    requires
        ends_with_eof(tokens),
        0 <= index < tokens.len(),
    ensures
        advances(unary_at(tokens, index, read), index, tokens.len()),
    decreases tokens.len() - index, 1nat,
{
    if is_unary_operator(kind_at(tokens, index)) {
        lemma_unary_advances(tokens, index + 1, read);
    } else {
        lemma_primary_advances(tokens, index, read);
    }
}

/// A binary expression takes at least one token and leaves the last one;
/// so the operand of [`binary_at`] always ends after it starts.
pub proof fn lemma_binary_advances(tokens: Seq<TokenView>, index: int, level: Level, read: Reading)
    requires
        ends_with_eof(tokens),
        0 <= index < tokens.len(),
    ensures
        advances(binary_at(tokens, index, level, read), index, tokens.len()),
    decreases tokens.len() - index, level.rank(),
{
    let operand = match level.tighter() {
        Some(inner) => {
            lemma_binary_advances(tokens, index, inner, read);
            binary_at(tokens, index, inner, read)
        },
        None => {
            lemma_unary_advances(tokens, index, read);
            unary_at(tokens, index, read)
        },
    };
    if let Ok((_, next)) = operand {
        if level.takes(kind_at(tokens, next)) {
            lemma_binary_advances(tokens, next + 1, level, read);
        }
    }
}

/// An expression takes at least one token and leaves the last one.
pub proof fn lemma_assignment_advances(tokens: Seq<TokenView>, index: int, read: Reading)
    requires
        ends_with_eof(tokens),
        0 <= index < tokens.len(),
    ensures
        advances(assignment_at(tokens, index, read), index, tokens.len()),
    decreases tokens.len() - index, 9nat,
{
    if kind_at(tokens, index) == TokenKind::Identifier && kind_at(tokens, index + 1)
        == TokenKind::Equal {
        lemma_assignment_advances(tokens, index + 2, read);
    } else {
        lemma_binary_advances(tokens, index, Level::Logical, read);
    }
}

/// A statement takes at least one token and leaves the last one; so the
/// statements of [`program_at`] follow one another without a gap.
pub proof fn lemma_statement_advances(tokens: Seq<TokenView>, index: int, read: Reading)
    requires
        ends_with_eof(tokens),
        0 <= index < tokens.len(),
    ensures
        advances(statement_at(tokens, index, read), index, tokens.len()),
{
    match kind_at(tokens, index) {
        TokenKind::Let => {
            if kind_at(tokens, index + 1) == TokenKind::Identifier && kind_at(tokens, index + 2)
                == TokenKind::Equal {
                lemma_assignment_advances(tokens, index + 3, read);
            }
        },
        TokenKind::Const => {
            if kind_at(tokens, index + 1) == TokenKind::Identifier && kind_at(tokens, index + 2)
                == TokenKind::Equal {
                lemma_assignment_advances(tokens, index + 3, read);
            }
        },
        _ => {
            lemma_assignment_advances(tokens, index, read);
        },
    }
}

/// Whether `span` lies between the start of the token at `index` and the
/// end of the token before `next`, and does not end before it starts.
pub open spec fn lies_between(span: TextSpan, tokens: Seq<TokenView>, index: int, next: int)
    -> bool {
    tokens[index].text_span.starting_index <= span.starting_index <= span.ending_index
        <= tokens[next - 1].text_span.ending_index
}

/// Whether a successful `result` of parsing at `index` is an expression
/// whose spans nest and lie among the tokens that it was parsed from.
pub open spec fn nests(
    result: Result<(ExpressionView, int), ErrorView>,
    tokens: Seq<TokenView>,
    index: int,
) -> bool {
    result matches Ok((expression, next)) ==> {
        &&& index < next < tokens.len()
        &&& spans_nest(expression)
        &&& lies_between(span_of(expression), tokens, index, next)
    }
}

/// Among tokens in order, an earlier token starts and ends no later than a
/// later one.
pub proof fn lemma_in_order(tokens: Seq<TokenView>, i: int, j: int)
    requires
        in_order(tokens),
        0 <= i <= j < tokens.len(),
    ensures
        tokens[i].text_span.starting_index <= tokens[i].text_span.ending_index,
        tokens[i].text_span.starting_index <= tokens[j].text_span.starting_index,
        tokens[i].text_span.ending_index <= tokens[j].text_span.ending_index,
        i < j ==> tokens[i].text_span.ending_index <= tokens[j].text_span.starting_index,
{
    let first = tokens[i];
    let second = tokens[j];
}

/// The spans of a parsed primary expression nest.
pub proof fn lemma_primary_nests(tokens: Seq<TokenView>, index: int, read: Reading)
    requires
        ends_with_eof(tokens),
        in_order(tokens),
        0 <= index < tokens.len(),
    ensures
        nests(primary_at(tokens, index, read), tokens, index),
    decreases tokens.len() - index, 0nat,
{
    lemma_primary_advances(tokens, index, read);
    lemma_in_order(tokens, index, index);
    match kind_at(tokens, index) {
        TokenKind::OpenParen => {
            lemma_assignment_nests(tokens, index + 1, read);
            if let Ok((_, next)) = assignment_at(tokens, index + 1, read) {
                lemma_in_order(tokens, index, index + 1);
                lemma_in_order(tokens, next - 1, next);
            }
        },
        TokenKind::OpenBrace => {
            if kind_at(tokens, index + 1) != TokenKind::CloseBrace {
                lemma_pairs_nest(tokens, index + 1, read);
                if let Ok((pairs, close)) = pairs_at(tokens, index + 1, read) {
                    lemma_in_order(tokens, index, index + 1);
                    lemma_in_order(tokens, close - 1, close);
                    lemma_in_order(tokens, index, close);
                }
            } else {
                lemma_in_order(tokens, index, index + 1);
            }
        },
        TokenKind::Identifier => {
            if kind_at(tokens, index + 1) == TokenKind::Dot {
                lemma_in_order(tokens, index, index + 2);
                let object = ExpressionView::Identifier { identifier: tokens[index] };
                assert(span_of(object) == tokens[index].text_span);
                assert(spans_nest(object));
            }
        },
        _ => {},
    }
}

/// The spans of the parsed pairs of an object literal nest, and lie
/// between the first key and the closing brace.
pub proof fn lemma_pairs_nest(tokens: Seq<TokenView>, index: int, read: Reading)
    requires
        ends_with_eof(tokens),
        in_order(tokens),
        0 <= index < tokens.len(),
    ensures
        pairs_at(tokens, index, read) matches Ok((pairs, close)) ==> {
            &&& index < close < tokens.len()
            &&& tokens[close].kind == TokenKind::CloseBrace
            &&& forall|i: int|
                0 <= i < pairs.len() ==> {
                    &&& lies_between((#[trigger] pairs[i]).key.text_span, tokens, index, close)
                    &&& lies_between(span_of(pairs[i].value), tokens, index, close)
                    &&& spans_nest(pairs[i].value)
                }
        },
    decreases tokens.len() - index, 8nat,
{
    lemma_pairs_advance(tokens, index, read);
    lemma_pair_advances(tokens, index, read);
    if kind_at(tokens, index) == TokenKind::Identifier && kind_at(tokens, index + 1)
        == TokenKind::Colon {
        lemma_assignment_nests(tokens, index + 2, read);
    }
    if let Ok((pair, next)) = pair_at(tokens, index, read) {
        if kind_at(tokens, next) != TokenKind::CloseBrace {
            if let Ok((_, after)) = expect_at(tokens, next, TokenKind::Comma) {
                lemma_pairs_nest(tokens, after, read);
                if let Ok((rest, close)) = pairs_at(tokens, after, read) {
                    let pairs = seq![pair] + rest;
                    assert forall|i: int| 0 <= i < pairs.len() implies {
                        &&& lies_between((#[trigger] pairs[i]).key.text_span, tokens, index, close)
                        &&& lies_between(span_of(pairs[i].value), tokens, index, close)
                        &&& spans_nest(pairs[i].value)
                    } by {
                        if i > 0 {
                            assert(pairs[i] == rest[i - 1]);
                        }
                    }
                }
            }
        } else {
            let pairs = seq![pair];
            assert(pairs[0] == pair);
        }
    }
}

/// The spans of a parsed unary expression nest.
pub proof fn lemma_unary_nests(tokens: Seq<TokenView>, index: int, read: Reading)
    requires
        ends_with_eof(tokens),
        in_order(tokens),
        0 <= index < tokens.len(),
    ensures
        nests(unary_at(tokens, index, read), tokens, index),
    decreases tokens.len() - index, 1nat,
{
    if is_unary_operator(kind_at(tokens, index)) {
        lemma_unary_nests(tokens, index + 1, read);
    } else {
        lemma_primary_nests(tokens, index, read);
    }
}

/// The spans of a parsed binary expression nest.
pub proof fn lemma_binary_nests(tokens: Seq<TokenView>, index: int, level: Level, read: Reading)
    requires
        ends_with_eof(tokens),
        in_order(tokens),
        0 <= index < tokens.len(),
    ensures
        nests(binary_at(tokens, index, level, read), tokens, index),
    decreases tokens.len() - index, level.rank(),
{
    let operand = match level.tighter() {
        Some(inner) => {
            lemma_binary_nests(tokens, index, inner, read);
            binary_at(tokens, index, inner, read)
        },
        None => {
            lemma_unary_nests(tokens, index, read);
            unary_at(tokens, index, read)
        },
    };
    if let Ok((_, next)) = operand {
        if level.takes(kind_at(tokens, next)) {
            lemma_binary_nests(tokens, next + 1, level, read);
        }
    }
}

/// The spans of a parsed expression nest.
pub proof fn lemma_assignment_nests(tokens: Seq<TokenView>, index: int, read: Reading)
    requires
        ends_with_eof(tokens),
        in_order(tokens),
        0 <= index < tokens.len(),
    ensures
        nests(assignment_at(tokens, index, read), tokens, index),
    decreases tokens.len() - index, 9nat,
{
    if kind_at(tokens, index) == TokenKind::Identifier && kind_at(tokens, index + 1)
        == TokenKind::Equal {
        lemma_assignment_nests(tokens, index + 2, read);
    } else {
        lemma_binary_nests(tokens, index, Level::Logical, read);
    }
}

/// The spans of the expression of a parsed statement nest.
pub proof fn lemma_statement_nests(tokens: Seq<TokenView>, index: int, read: Reading)
    requires
        ends_with_eof(tokens),
        in_order(tokens),
        0 <= index < tokens.len(),
    ensures
        statement_at(tokens, index, read) matches Ok((statement, next)) ==> index < next
            < tokens.len() && spans_nest(expression_of(statement)),
{
    lemma_statement_advances(tokens, index, read);
    match kind_at(tokens, index) {
        TokenKind::Let => {
            if kind_at(tokens, index + 1) == TokenKind::Identifier && kind_at(tokens, index + 2)
                == TokenKind::Equal {
                lemma_assignment_nests(tokens, index + 3, read);
            }
        },
        TokenKind::Const => {
            if kind_at(tokens, index + 1) == TokenKind::Identifier && kind_at(tokens, index + 2)
                == TokenKind::Equal {
                lemma_assignment_nests(tokens, index + 3, read);
            }
        },
        _ => {
            lemma_assignment_nests(tokens, index, read);
        },
    }
}

/// In every expression that the parser builds from tokens in order, the
/// span of a node covers the spans of its parts.
pub proof fn lemma_program_nests(tokens: Seq<TokenView>, index: int, read: Reading)
    requires
        ends_with_eof(tokens),
        in_order(tokens),
        0 <= index < tokens.len(),
    ensures
        program_at(tokens, index, read) matches Ok(statements) ==> forall|i: int|
            0 <= i < statements.len() ==> spans_nest(expression_of(#[trigger] statements[i])),
    decreases tokens.len() - index,
{
    if kind_at(tokens, index) != TokenKind::Eof {
        lemma_statement_nests(tokens, index, read);
        if let Ok((statement, next)) = statement_at(tokens, index, read) {
            lemma_program_nests(tokens, next, read);
            if let Ok(rest) = program_at(tokens, next, read) {
                let statements = seq![statement] + rest;
                assert forall|i: int| 0 <= i < statements.len() implies spans_nest(
                    expression_of(#[trigger] statements[i]),
                ) by {
                    if i > 0 {
                        assert(statements[i] == rest[i - 1]);
                    }
                }
            }
        }
    }
}

/// Whether `result` is what `model` says: a value with that view and the
/// same offset after it, or the same error.
pub open spec fn agrees<T: View>(
    result: Result<(T, usize), Error>,
    model: Result<(T::V, int), ErrorView>,
) -> bool {
    match (result, model) {
        (Ok((value, next)), Ok((view, to))) => value@ == view && next == to,
        (Err(error), Err(failure)) => error@ == failure,
        _ => false,
    }
}

/// Whether a successful `result` ends strictly after `index` and before the
/// last token.
pub open spec fn moves_on<T>(result: Result<(T, usize), Error>, index: usize, len: nat) -> bool {
    result matches Ok((_, next)) ==> index < next < len
}

/// What every parsing function asks of its input: tokens that end with the
/// end-of-input token, and an offset among them.
pub open spec fn parsable(tokens: Seq<Token>, index: usize) -> bool {
    ends_with_eof(token_views(tokens)) && index < tokens.len()
}

fn unexpected(token: &Token) -> (error: Error)
    ensures
        error@ == unexpected_token(token@),
{
    let mut message = String::from_str("Unexpected token '");
    message.append(token.lexeme.as_str());
    message.append("'");
    Error::new(message, token.text_span)
}

fn not_a_number(token: &Token) -> (error: Error)
    ensures
        error@ == invalid_number(token@),
{
    let mut message = String::from_str("Invalid number '");
    message.append(token.lexeme.as_str());
    message.append("'");
    Error::new(message, token.text_span)
}

/// Whether `token_kind` is one of `expected_to_be_in`.
pub fn token_matches(token_kind: &TokenKind, expected_to_be_in: &[TokenKind]) -> (found: bool)
    ensures
        found == expected_to_be_in@.contains(*token_kind),
{
    let mut i: usize = 0;
    while i < expected_to_be_in.len()
        invariant
            i <= expected_to_be_in.len(),
            forall|j: int| 0 <= j < i ==> expected_to_be_in@[j] != *token_kind,
        decreases expected_to_be_in.len() - i,
    {
        if expected_to_be_in[i] == *token_kind {
            return true;
        }
        i += 1;
    }
    false
}

/// The token at `current_token_index` if its kind is `expected`, with the
/// offset after it; otherwise an error that names the token and the kind.
pub fn expect_to_match(
    tokens: &[Token],
    current_token_index: usize,
    expected: TokenKind,
) -> (result: Result<(Token, usize), Error>)
    requires
        current_token_index < tokens.len(),
    ensures
        agrees(result, expect_at(token_views(tokens@), current_token_index as int, expected)),
        result matches Ok((token, next)) ==> token == tokens[current_token_index as int]
            && token.kind == expected && next == current_token_index + 1,
{
    let token = &tokens[current_token_index];
    if token.kind == expected {
        Ok((token.clone(), current_token_index + 1))
    } else {
        let mut message = String::from_str("Unexpected token '");
        message.append(token.lexeme.as_str());
        message.append("', expected '");
        message.append(expected.text());
        message.append("'");
        Err(Error::new(message, token.text_span))
    }
}

/// The token at `current_token_index` and the offset after it.
pub fn eat_token(tokens: &[Token], current_token_index: usize) -> (eaten: (Token, usize))
    requires
        current_token_index < tokens.len(),
    ensures
        eaten.0 == tokens[current_token_index as int],
        eaten.1 == current_token_index + 1,
{
    (tokens[current_token_index].clone(), current_token_index + 1)
}

impl Level {
    fn has(&self, kind: TokenKind) -> (yes: bool)
        ensures
            yes == self.takes(kind),
    {
        match self {
            Level::Logical => kind == TokenKind::DoubleAmpersand || kind == TokenKind::DoublePipe,
            Level::Equality => kind == TokenKind::DoubleEqual || kind == TokenKind::BangEqual,
            Level::Comparison => kind == TokenKind::Greater || kind == TokenKind::Lesser || kind
                == TokenKind::GreaterOrEqual || kind == TokenKind::LesserOrEqual,
            Level::Additive => kind == TokenKind::Plus || kind == TokenKind::Minus,
            Level::Multiplicative => kind == TokenKind::Asterisk || kind == TokenKind::Slash,
        }
    }
}

/// Parses the primary expression that starts at `current_token_index`.
pub fn parse_primary_expression<R: Fn(&str) -> Option<Number>>(
    tokens: &[Token],
    current_token_index: usize,
    read: &R,
) -> (result: Result<(Expression, usize), Error>)
    requires
        parsable(tokens@, current_token_index),
        reads_by_text(read),
    ensures
        agrees(result, primary_at(token_views(tokens@), current_token_index as int, reader(read))),
        moves_on(result, current_token_index, tokens@.len()),
    decreases tokens.len() - current_token_index, 0nat,
{
    let index = current_token_index;
    let token = &tokens[index];
    match token.kind {
        TokenKind::OpenParen => {
            let (expression, next) = parse_expression(tokens, index + 1, read)?;
            let (_, end) = expect_to_match(tokens, next, TokenKind::CloseParen)?;
            return Ok((expression, end));
        },
        TokenKind::NoneLiteral => return Ok(
            (Expression::NoneLiteral(NoneLiteralExpression::new(token.clone())), index + 1),
        ),
        TokenKind::True => return Ok(
            (Expression::Boolean(BooleanLiteralExpression::new(token.clone(), true)), index + 1),
        ),
        TokenKind::False => return Ok(
            (Expression::Boolean(BooleanLiteralExpression::new(token.clone(), false)), index + 1),
        ),
        TokenKind::Number => match read(token.lexeme.as_str()) {
            Some(value) => return Ok(
                (
                    Expression::Numeric(NumericLiteralExpression::new(token.clone(), value)),
                    index + 1,
                ),
            ),
            None => return Err(not_a_number(token)),
        },
        TokenKind::String => return Ok(
            (
                Expression::String(
                    StringLiteralExpression::new(token.clone(), token.lexeme.clone()),
                ),
                index + 1,
            ),
        ),
        TokenKind::OpenBrace => {
            let mut pairs: Vec<KeyValuePair> = Vec::new();
            let close = if tokens[index + 1].kind == TokenKind::CloseBrace {
                index + 1
            } else {
                parse_pairs(tokens, index + 1, read, &mut pairs)?
            };
            proof {
                assert(pair_views(Seq::<KeyValuePair>::empty()) =~= Seq::<PairView>::empty());
                assert(Seq::<PairView>::empty() + pair_views(pairs@) =~= pair_views(pairs@));
            }
            let node = ObjectLiteralExpression::new(token.clone(), pairs, tokens[close].clone());
            return Ok((Expression::Object(node), close + 1));
        },
        TokenKind::Identifier => {
            if tokens[index + 1].kind == TokenKind::Dot {
                let (property, end) = expect_to_match(tokens, index + 2, TokenKind::Identifier)?;
                let object = Expression::Identifier(IdentifierExpression::new(token.clone()));
                assert(object@ == ExpressionView::Identifier { identifier: token@ });
                return Ok((Expression::Access(AccessExpression::new(object, property)), end));
            } else {
                return Ok(
                    (Expression::Identifier(IdentifierExpression::new(token.clone())), index + 1),
                );
            }
        },
        _ => return Err(unexpected(token)),
    }
}

/// Parses the pairs of an object literal from `index` on, where a key is
/// due, appends them to `pairs` and returns the offset of the closing brace.
fn parse_pairs<R: Fn(&str) -> Option<Number>>(
    tokens: &[Token],
    index: usize,
    read: &R,
    pairs: &mut Vec<KeyValuePair>,
) -> (result: Result<usize, Error>)
    requires
        parsable(tokens@, index),
        reads_by_text(read),
    ensures
        match (result, pairs_at(token_views(tokens@), index as int, reader(read))) {
            (Ok(close), Ok((found, to))) => close == to && pair_views(final(pairs)@) == pair_views(
                old(pairs)@,
            ) + found && index < close < tokens.len() - 1
                && tokens[close as int].kind == TokenKind::CloseBrace,
            (Err(error), Err(failure)) => error@ == failure,
            _ => false,
        },
    decreases tokens.len() - index, 18nat,
{
    let ghost before = pairs@;
    let (pair, next) = parse_key_value_pair(tokens, index, read)?;
    proof {
        assert(before.push(pair).drop_last() =~= before);
        assert(pair_views(before.push(pair)) =~= pair_views(before) + seq![pair@]);
    }
    pairs.push(pair);
    if tokens[next].kind == TokenKind::CloseBrace {
        return Ok(next);
    }
    let ghost first = pair_views(pairs@);
    let (_, after) = expect_to_match(tokens, next, TokenKind::Comma)?;
    let close = parse_pairs(tokens, after, read, pairs)?;
    proof {
        let rest = pairs_at(token_views(tokens@), after as int, reader(read))->Ok_0.0;
        assert((pair_views(before) + seq![pair@]) + rest =~= pair_views(before) + (seq![pair@]
            + rest));
    }
    Ok(close)
}

/// Parses the pair `key : value` that starts at `current_token_index`.
pub fn parse_key_value_pair<R: Fn(&str) -> Option<Number>>(
    tokens: &[Token],
    current_token_index: usize,
    read: &R,
) -> (result: Result<(KeyValuePair, usize), Error>)
    requires
        parsable(tokens@, current_token_index),
        reads_by_text(read),
    ensures
        agrees(result, pair_at(token_views(tokens@), current_token_index as int, reader(read))),
        moves_on(result, current_token_index, tokens@.len()),
    decreases tokens.len() - current_token_index, 17nat,
{
    let (key, after_key) = expect_to_match(tokens, current_token_index, TokenKind::Identifier)?;
    let (_, after_colon) = expect_to_match(tokens, after_key, TokenKind::Colon)?;
    let (value, next) = parse_expression(tokens, after_colon, read)?;
    Ok((KeyValuePair::new(key, value), next))
}

/// Parses the unary expression that starts at `current_token_index`.
pub fn parse_unary_expression<R: Fn(&str) -> Option<Number>>(
    tokens: &[Token],
    current_token_index: usize,
    read: &R,
) -> (result: Result<(Expression, usize), Error>)
    requires
        parsable(tokens@, current_token_index),
        reads_by_text(read),
    ensures
        agrees(result, unary_at(token_views(tokens@), current_token_index as int, reader(read))),
        moves_on(result, current_token_index, tokens@.len()),
    decreases tokens.len() - current_token_index, 1nat,
{
    let kind = tokens[current_token_index].kind;
    if kind == TokenKind::Bang || kind == TokenKind::Plus || kind == TokenKind::Minus {
        let (operator, after) = eat_token(tokens, current_token_index);
        let (right, next) = parse_unary_expression(tokens, after, read)?;
        return Ok((Expression::Unary(UnaryExpression::new(operator, right)), next));
    }
    parse_primary_expression(tokens, current_token_index, read)
}

/// Parses the binary expression of level `level` that starts at `index`:
/// an operand of the next tighter level and, where an operator of this
/// level follows, the rest of the chain as its right operand.
pub fn parse_binary_level<R: Fn(&str) -> Option<Number>>(
    tokens: &[Token],
    index: usize,
    level: Level,
    read: &R,
) -> (result: Result<(Expression, usize), Error>)
    requires
        parsable(tokens@, index),
        reads_by_text(read),
    ensures
        agrees(result, binary_at(token_views(tokens@), index as int, level, reader(read))),
        moves_on(result, index, tokens@.len()),
    decreases tokens.len() - index, 2 * level.rank(),
{
    let (left, next) = match level {
        Level::Logical => parse_binary_equality_expression(tokens, index, read)?,
        Level::Equality => parse_binary_comparison_expression(tokens, index, read)?,
        Level::Comparison => parse_binary_additive_expression(tokens, index, read)?,
        Level::Additive => parse_binary_multiplicative_expression(tokens, index, read)?,
        Level::Multiplicative => parse_unary_expression(tokens, index, read)?,
    };
    if level.has(tokens[next].kind) {
        let (operator, after) = eat_token(tokens, next);
        let (right, end) = parse_binary_level(tokens, after, level, read)?;
        Ok((Expression::Binary(BinaryExpression::new(left, operator, right)), end))
    } else {
        Ok((left, next))
    }
}

/// Parses the logical (`&&`, `||`) expression that starts at `current_token_index`.
pub fn parse_binary_logical_expression<R: Fn(&str) -> Option<Number>>(
    tokens: &[Token],
    current_token_index: usize,
    read: &R,
) -> (result: Result<(Expression, usize), Error>)
    requires
        parsable(tokens@, current_token_index),
        reads_by_text(read),
    ensures
        agrees(
            result,
            binary_at(
                token_views(tokens@),
                current_token_index as int,
                Level::Logical,
                reader(read),
            ),
        ),
        moves_on(result, current_token_index, tokens@.len()),
    decreases tokens.len() - current_token_index, 2 * Level::Logical.rank() + 1,
{
    parse_binary_level(tokens, current_token_index, Level::Logical, read)
}

/// Parses the equality (`==`, `!=`) expression that starts at `current_token_index`.
pub fn parse_binary_equality_expression<R: Fn(&str) -> Option<Number>>(
    tokens: &[Token],
    current_token_index: usize,
    read: &R,
) -> (result: Result<(Expression, usize), Error>)
    requires
        parsable(tokens@, current_token_index),
        reads_by_text(read),
    ensures
        agrees(
            result,
            binary_at(
                token_views(tokens@),
                current_token_index as int,
                Level::Equality,
                reader(read),
            ),
        ),
        moves_on(result, current_token_index, tokens@.len()),
    decreases tokens.len() - current_token_index, 2 * Level::Equality.rank() + 1,
{
    parse_binary_level(tokens, current_token_index, Level::Equality, read)
}

/// Parses the comparison (`>`, `<`, `>=`, `<=`) expression that starts at `current_token_index`.
pub fn parse_binary_comparison_expression<R: Fn(&str) -> Option<Number>>(
    tokens: &[Token],
    current_token_index: usize,
    read: &R,
) -> (result: Result<(Expression, usize), Error>)
    requires
        parsable(tokens@, current_token_index),
        reads_by_text(read),
    ensures
        agrees(
            result,
            binary_at(
                token_views(tokens@),
                current_token_index as int,
                Level::Comparison,
                reader(read),
            ),
        ),
        moves_on(result, current_token_index, tokens@.len()),
    decreases tokens.len() - current_token_index, 2 * Level::Comparison.rank() + 1,
{
    parse_binary_level(tokens, current_token_index, Level::Comparison, read)
}

/// Parses the additive (`+`, `-`) expression that starts at `current_token_index`.
pub fn parse_binary_additive_expression<R: Fn(&str) -> Option<Number>>(
    tokens: &[Token],
    current_token_index: usize,
    read: &R,
) -> (result: Result<(Expression, usize), Error>)
    requires
        parsable(tokens@, current_token_index),
        reads_by_text(read),
    ensures
        agrees(
            result,
            binary_at(
                token_views(tokens@),
                current_token_index as int,
                Level::Additive,
                reader(read),
            ),
        ),
        moves_on(result, current_token_index, tokens@.len()),
    decreases tokens.len() - current_token_index, 2 * Level::Additive.rank() + 1,
{
    parse_binary_level(tokens, current_token_index, Level::Additive, read)
}

/// Parses the multiplicative (`*`, `/`) expression that starts at `current_token_index`.
pub fn parse_binary_multiplicative_expression<R: Fn(&str) -> Option<Number>>(
    tokens: &[Token],
    current_token_index: usize,
    read: &R,
) -> (result: Result<(Expression, usize), Error>)
    requires
        parsable(tokens@, current_token_index),
        reads_by_text(read),
    ensures
        agrees(
            result,
            binary_at(
                token_views(tokens@),
                current_token_index as int,
                Level::Multiplicative,
                reader(read),
            ),
        ),
        moves_on(result, current_token_index, tokens@.len()),
    decreases tokens.len() - current_token_index, 2 * Level::Multiplicative.rank() + 1,
{
    parse_binary_level(tokens, current_token_index, Level::Multiplicative, read)
}

/// Parses the binary expression that starts at `current_token_index`,
/// beginning at the loosest level.
pub fn parse_binary_expression<R: Fn(&str) -> Option<Number>>(
    tokens: &[Token],
    current_token_index: usize,
    read: &R,
) -> (result: Result<(Expression, usize), Error>)
    requires
        parsable(tokens@, current_token_index),
        reads_by_text(read),
    ensures
        agrees(
            result,
            binary_at(
                token_views(tokens@),
                current_token_index as int,
                Level::Logical,
                reader(read),
            ),
        ),
        moves_on(result, current_token_index, tokens@.len()),
    decreases tokens.len() - current_token_index, 14nat,
{
    parse_binary_logical_expression(tokens, current_token_index, read)
}

/// Parses the assignment, or the binary expression, that starts at
/// `current_token_index`.
pub fn parse_assignment_expression<R: Fn(&str) -> Option<Number>>(
    tokens: &[Token],
    current_token_index: usize,
    read: &R,
) -> (result: Result<(Expression, usize), Error>)
    requires
        parsable(tokens@, current_token_index),
        reads_by_text(read),
    ensures
        agrees(
            result,
            assignment_at(token_views(tokens@), current_token_index as int, reader(read)),
        ),
        moves_on(result, current_token_index, tokens@.len()),
    decreases tokens.len() - current_token_index, 15nat,
{
    let index = current_token_index;
    if tokens[index].kind == TokenKind::Identifier && tokens[index + 1].kind == TokenKind::Equal {
        let (identifier, after) = expect_to_match(tokens, index, TokenKind::Identifier)?;
        let (_, after) = expect_to_match(tokens, after, TokenKind::Equal)?;
        let (expression, next) = parse_assignment_expression(tokens, after, read)?;
        Ok((Expression::Assignment(AssignmentExpression::new(identifier, expression)), next))
    } else {
        parse_binary_expression(tokens, index, read)
    }
}

/// Parses the expression that starts at `current_token_index`.
pub fn parse_expression<R: Fn(&str) -> Option<Number>>(
    tokens: &[Token],
    current_token_index: usize,
    read: &R,
) -> (result: Result<(Expression, usize), Error>)
    requires
        parsable(tokens@, current_token_index),
        reads_by_text(read),
    ensures
        agrees(
            result,
            assignment_at(token_views(tokens@), current_token_index as int, reader(read)),
        ),
        moves_on(result, current_token_index, tokens@.len()),
    decreases tokens.len() - current_token_index, 16nat,
{
    parse_assignment_expression(tokens, current_token_index, read)
}

/// Parses the binding that starts at `index` with the keyword `keyword`.
fn parse_binding<R: Fn(&str) -> Option<Number>>(
    tokens: &[Token],
    index: usize,
    keyword: TokenKind,
    read: &R,
) -> (result: Result<((Token, Token, Expression), usize), Error>)
    requires
        parsable(tokens@, index),
        reads_by_text(read),
        keyword != TokenKind::Eof,
    ensures
        match (result, binding_at(token_views(tokens@), index as int, keyword, reader(read))) {
            (Ok(((word, identifier, expression), next)), Ok(((w, i, e), to))) => word@ == w
                && identifier@ == i && expression@ == e && next == to,
            (Err(error), Err(failure)) => error@ == failure,
            _ => false,
        },
        moves_on(result, index, tokens@.len()),
{
    let (word, after) = expect_to_match(tokens, index, keyword)?;
    let (identifier, after) = expect_to_match(tokens, after, TokenKind::Identifier)?;
    let (_, after) = expect_to_match(tokens, after, TokenKind::Equal)?;
    let (expression, next) = parse_expression(tokens, after, read)?;
    Ok(((word, identifier, expression), next))
}

/// Parses the `let` binding that starts at `current_token_index`.
pub fn parse_let_statement<R: Fn(&str) -> Option<Number>>(
    tokens: &[Token],
    current_token_index: usize,
    read: &R,
) -> (result: Result<(Statement, usize), Error>)
    requires
        parsable(tokens@, current_token_index),
        reads_by_text(read),
    ensures
        agrees(result, let_at(token_views(tokens@), current_token_index as int, reader(read))),
        moves_on(result, current_token_index, tokens@.len()),
{
    let ((keyword, identifier, expression), next) = parse_binding(
        tokens,
        current_token_index,
        TokenKind::Let,
        read,
    )?;
    Ok((Statement::Let(LetStatement::new(keyword, identifier, expression)), next))
}

/// Parses the `const` binding that starts at `current_token_index`.
pub fn parse_const_statement<R: Fn(&str) -> Option<Number>>(
    tokens: &[Token],
    current_token_index: usize,
    read: &R,
) -> (result: Result<(Statement, usize), Error>)
    requires
        parsable(tokens@, current_token_index),
        reads_by_text(read),
    ensures
        agrees(result, const_at(token_views(tokens@), current_token_index as int, reader(read))),
        moves_on(result, current_token_index, tokens@.len()),
{
    let ((keyword, identifier, expression), next) = parse_binding(
        tokens,
        current_token_index,
        TokenKind::Const,
        read,
    )?;
    Ok((Statement::Const(ConstStatement::new(keyword, identifier, expression)), next))
}

/// Parses the statement that starts at `current_token_index`.
pub fn parse_statement<R: Fn(&str) -> Option<Number>>(
    tokens: &[Token],
    current_token_index: usize,
    read: &R,
) -> (result: Result<(Statement, usize), Error>)
    requires
        parsable(tokens@, current_token_index),
        reads_by_text(read),
    ensures
        agrees(
            result,
            statement_at(token_views(tokens@), current_token_index as int, reader(read)),
        ),
        moves_on(result, current_token_index, tokens@.len()),
{
    match tokens[current_token_index].kind {
        TokenKind::Let => parse_let_statement(tokens, current_token_index, read),
        TokenKind::Const => parse_const_statement(tokens, current_token_index, read),
        _ => {
            let (expression, next) = parse_expression(tokens, current_token_index, read)?;
            Ok((Statement::Expression(expression), next))
        },
    }
}

/// Whether `result` holds what `model` says: statements with those views,
/// or the same error.
pub open spec fn parsed(
    result: Result<Program, Error>,
    model: Result<Seq<StatementView>, ErrorView>,
) -> bool {
    match (result, model) {
        (Ok(program), Ok(views)) => statement_views(program@) == views,
        (Err(error), Err(failure)) => error@ == failure,
        _ => false,
    }
}

/// Parses `tokens` into the statements they spell, up to the first
/// end-of-input token, or reports the first token that fits no rule.
///
/// `read` gives the value of a numeric lexeme; a lexeme for which it has
/// none is reported as an invalid number.
pub fn parse<R: Fn(&str) -> Option<Number>>(tokens: Vec<Token>, read: &R) -> (result: Result<
    Program,
    Error,
>)
    requires
        tokens.len() == 0 || ends_with_eof(token_views(tokens@)),
        reads_by_text(read),
    ensures
        parsed(result, program_of(token_views(tokens@), reader(read))),
{
    let mut program: Vec<Statement> = Vec::new();
    let mut index: usize = 0;
    let ghost views = token_views(tokens@);
    assert(then_statements(statement_views(program@), program_at(views, 0, reader(read)))
        == program_at(views, 0, reader(read))) by {
        match program_at(views, 0, reader(read)) {
            Ok(rest) => assert(statement_views(program@) + rest =~= rest),
            Err(_) => {},
        }
    }
    while index < tokens.len() && tokens[index].kind != TokenKind::Eof
        invariant
            index <= tokens.len(),
            tokens.len() == 0 || ends_with_eof(token_views(tokens@)),
            reads_by_text(read),
            views == token_views(tokens@),
            program_of(views, reader(read)) == then_statements(
                statement_views(program@),
                program_at(views, index as int, reader(read)),
            ),
        decreases tokens.len() - index,
    {
        let ghost before = statement_views(program@);
        let (statement, next) = parse_statement(tokens.as_slice(), index, read)?;
        proof {
            assert(statement_views(program@.push(statement)) =~= before + seq![statement@]);
            match program_at(views, next as int, reader(read)) {
                Ok(more) => assert((before + seq![statement@]) + more =~= before + (seq![
                    statement@,
                ] + more)),
                Err(_) => {},
            }
        }
        program.push(statement);
        index = next;
    }
    assert(statement_views(program@) + Seq::<StatementView>::empty() =~= statement_views(
        program@,
    ));
    Ok(program)
}

} // verus!
