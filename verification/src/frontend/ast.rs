//! The syntax tree that the parser builds and the evaluator walks.
use crate::frontend::token::{Token, TokenView};
use crate::frontend::utils::TextSpan;
use vstd::prelude::*;

verus! {

/// A program is its statements, in order.
pub type Program = Vec<Statement>;

/// A number of the language: the 64 bits of an IEEE 754 double.
pub type Number = u64;

/// The view of an [`Expression`], of which the contracts speak.
#[allow(inconsistent_fields)]
pub enum ExpressionView {
    NoneLiteral { none: TokenView },
    Boolean { boolean: TokenView, value: bool },
    Numeric { number: TokenView, value: Number },
    String { string: TokenView, value: Seq<char> },
    Object { open_brace: TokenView, pairs: Seq<PairView>, close_brace: TokenView },
    Identifier { identifier: TokenView },
    Access { object: Box<ExpressionView>, property: TokenView },
    Unary { operator: TokenView, right: Box<ExpressionView> },
    Binary { left: Box<ExpressionView>, operator: TokenView, right: Box<ExpressionView> },
    Assignment { identifier: TokenView, expression: Box<ExpressionView> },
}

/// The view of a [`KeyValuePair`], of which the contracts speak.
pub struct PairView {
    pub key: TokenView,
    pub value: ExpressionView,
}

/// The view of a [`Statement`], of which the contracts speak.
#[allow(inconsistent_fields)]
pub enum StatementView {
    Let { keyword: TokenView, identifier: TokenView, expression: ExpressionView },
    Const { keyword: TokenView, identifier: TokenView, expression: ExpressionView },
    Expression { expression: ExpressionView },
}

/// The source text that an expression came from: for a leaf the span of its
/// token, otherwise from the start of its first part to the end of its last.
pub open spec fn span_of(expression: ExpressionView) -> TextSpan
    decreases expression,
{
    match expression {
        ExpressionView::NoneLiteral { none } => none.text_span,
        ExpressionView::Boolean { boolean, .. } => boolean.text_span,
        ExpressionView::Numeric { number, .. } => number.text_span,
        ExpressionView::String { string, .. } => string.text_span,
        ExpressionView::Object { open_brace, close_brace, .. } => TextSpan::joined(
            open_brace.text_span,
            close_brace.text_span,
        ),
        ExpressionView::Identifier { identifier } => identifier.text_span,
        ExpressionView::Access { object, property } => TextSpan::joined(
            span_of(*object),
            property.text_span,
        ),
        ExpressionView::Unary { operator, right } => TextSpan::joined(
            operator.text_span,
            span_of(*right),
        ),
        ExpressionView::Binary { left, right, .. } => TextSpan::joined(
            span_of(*left),
            span_of(*right),
        ),
        ExpressionView::Assignment { identifier, expression } => TextSpan::joined(
            identifier.text_span,
            span_of(*expression),
        ),
    }
}

/// Whether the span of every node of `expression` covers the spans of the
/// node's parts: its tokens and its operands.
pub open spec fn spans_nest(expression: ExpressionView) -> bool
    decreases expression,
{
    let span = span_of(expression);
    match expression {
        ExpressionView::Object { open_brace, pairs, close_brace } => {
            &&& span.covers(open_brace.text_span)
            &&& span.covers(close_brace.text_span)
            &&& forall|i: int|
                0 <= i < pairs.len() ==> {
                    &&& span.covers((#[trigger] pairs[i]).key.text_span)
                    &&& span.covers(span_of(pairs[i].value))
                    &&& spans_nest(pairs[i].value)
                }
        },
        ExpressionView::Access { object, property } => {
            &&& span.covers(span_of(*object))
            &&& span.covers(property.text_span)
            &&& spans_nest(*object)
        },
        ExpressionView::Unary { operator, right } => {
            &&& span.covers(operator.text_span)
            &&& span.covers(span_of(*right))
            &&& spans_nest(*right)
        },
        ExpressionView::Binary { left, operator, right } => {
            &&& span.covers(span_of(*left))
            &&& span.covers(operator.text_span)
            &&& span.covers(span_of(*right))
            &&& spans_nest(*left)
            &&& spans_nest(*right)
        },
        ExpressionView::Assignment { identifier, expression: source } => {
            &&& span.covers(identifier.text_span)
            &&& span.covers(span_of(*source))
            &&& spans_nest(*source)
        },
        _ => true,
    }
}

/// The expression of a statement.
pub open spec fn expression_of(statement: StatementView) -> ExpressionView {
    match statement {
        StatementView::Let { expression, .. } => expression,
        StatementView::Const { expression, .. } => expression,
        StatementView::Expression { expression } => expression,
    }
}

/// A statement: a binding of either sort, or an expression.
#[derive(Debug, PartialEq)]
pub enum Statement {
    Let(LetStatement),
    Const(ConstStatement),
    Expression(Expression),
}

/// `let identifier = expression`: binds a variable.
#[derive(Debug, PartialEq)]
pub struct LetStatement {
    pub keyword: Token,
    pub identifier: Token,
    pub expression: Expression,
}

/// `const identifier = expression`: binds a constant.
#[derive(Debug, PartialEq)]
pub struct ConstStatement {
    pub keyword: Token,
    pub identifier: Token,
    pub expression: Expression,
}

/// An expression, by its form.
#[derive(Debug, PartialEq)]
pub enum Expression {
    NoneLiteral(NoneLiteralExpression),
    Boolean(BooleanLiteralExpression),
    Numeric(NumericLiteralExpression),
    String(StringLiteralExpression),
    Object(ObjectLiteralExpression),
    Identifier(IdentifierExpression),
    Access(AccessExpression),
    Unary(UnaryExpression),
    Binary(BinaryExpression),
    Assignment(AssignmentExpression),
}

/// `identifier = expression`.
#[derive(Debug, PartialEq)]
pub struct AssignmentExpression {
    pub identifier: Token,
    pub expression: Box<Expression>,
}

/// Two operands with an operator between them.
#[derive(Debug, PartialEq)]
pub struct BinaryExpression {
    pub left: Box<Expression>,
    pub operator: Token,
    pub right: Box<Expression>,
}

/// A prefix operator and its operand.
#[derive(Debug, PartialEq)]
pub struct UnaryExpression {
    pub operator: Token,
    pub right: Box<Expression>,
}

/// `object . property`: the property of what `object` yields.
#[derive(Debug, PartialEq)]
pub struct AccessExpression {
    pub object: Box<Expression>,
    pub property: Token,
}

/// A name, standing for what it is bound to.
#[derive(Debug, PartialEq)]
pub struct IdentifierExpression {
    pub identifier: Token,
}

/// `{ key : value , ... }`, with its pairs in the order written.
#[derive(Debug, PartialEq)]
pub struct ObjectLiteralExpression {
    pub open_brace: Token,
    pub pairs: Vec<KeyValuePair>,
    pub close_brace: Token,
}

/// A string literal and the string it denotes.
#[derive(Debug, PartialEq)]
pub struct StringLiteralExpression {
    pub string: Token,
    pub value: String,
}

/// A numeric literal and the number it denotes.
#[derive(Debug, PartialEq)]
pub struct NumericLiteralExpression {
    pub number: Token,
    pub value: Number,
}

/// `true` or `false`.
#[derive(Debug, PartialEq)]
pub struct BooleanLiteralExpression {
    pub boolean: Token,
    pub value: bool,
}

/// `none`.
#[derive(Debug, PartialEq)]
pub struct NoneLiteralExpression {
    pub none: Token,
}

/// One `key : value` of an object literal.
#[derive(Debug, PartialEq)]
pub struct KeyValuePair {
    pub key: Token,
    pub value: Expression,
}

/// The view of an expression: the same tree, with every token and string
/// replaced by its view.
pub open spec fn expression_view(expression: Expression) -> ExpressionView
    decreases expression,
{
    match expression {
        Expression::NoneLiteral(n) => ExpressionView::NoneLiteral { none: n.none@ },
        Expression::Boolean(b) => ExpressionView::Boolean { boolean: b.boolean@, value: b.value },
        Expression::Numeric(n) => ExpressionView::Numeric { number: n.number@, value: n.value },
        Expression::String(s) => ExpressionView::String { string: s.string@, value: s.value@ },
        Expression::Object(o) => ExpressionView::Object {
            open_brace: o.open_brace@,
            pairs: pair_views(o.pairs@),
            close_brace: o.close_brace@,
        },
        Expression::Identifier(i) => ExpressionView::Identifier { identifier: i.identifier@ },
        Expression::Access(a) => ExpressionView::Access {
            object: Box::new(expression_view(*a.object)),
            property: a.property@,
        },
        Expression::Unary(u) => ExpressionView::Unary {
            operator: u.operator@,
            right: Box::new(expression_view(*u.right)),
        },
        Expression::Binary(b) => ExpressionView::Binary {
            left: Box::new(expression_view(*b.left)),
            operator: b.operator@,
            right: Box::new(expression_view(*b.right)),
        },
        Expression::Assignment(a) => ExpressionView::Assignment {
            identifier: a.identifier@,
            expression: Box::new(expression_view(*a.expression)),
        },
    }
}

/// The views of the pairs of an object literal, one for one.
pub open spec fn pair_views(pairs: Seq<KeyValuePair>) -> Seq<PairView>
    decreases pairs,
{
    if pairs.len() == 0 {
        Seq::empty()
    } else {
        pair_views(pairs.drop_last()).push(
            PairView { key: pairs.last().key@, value: expression_view(pairs.last().value) },
        )
    }
}

/// The views of pairs are as many as the pairs, and each is the view of
/// the pair at its place.
pub proof fn lemma_pair_views(pairs: Seq<KeyValuePair>)
    ensures
        pair_views(pairs).len() == pairs.len(),
        forall|i: int|
            0 <= i < pairs.len() ==> (#[trigger] pair_views(pairs)[i]) == (PairView {
                key: pairs[i].key@,
                value: expression_view(pairs[i].value),
            }),
    decreases pairs.len(),
{
    if pairs.len() > 0 {
        lemma_pair_views(pairs.drop_last());
    }
}

impl View for Expression {
    type V = ExpressionView;

    open spec fn view(&self) -> ExpressionView {
        expression_view(*self)
    }
}

impl View for KeyValuePair {
    type V = PairView;

    open spec fn view(&self) -> PairView {
        PairView { key: self.key@, value: self.value@ }
    }
}

impl View for Statement {
    type V = StatementView;

    open spec fn view(&self) -> StatementView {
        match *self {
            Statement::Let(l) => StatementView::Let {
                keyword: l.keyword@,
                identifier: l.identifier@,
                expression: l.expression@,
            },
            Statement::Const(c) => StatementView::Const {
                keyword: c.keyword@,
                identifier: c.identifier@,
                expression: c.expression@,
            },
            Statement::Expression(e) => StatementView::Expression { expression: e@ },
        }
    }
}

/// The views of a program's statements, one for one.
pub open spec fn statement_views(program: Seq<Statement>) -> Seq<StatementView> {
    program.map_values(|statement: Statement| statement@)
}

impl LetStatement {
    pub fn new(keyword: Token, identifier: Token, expression: Expression) -> (statement: Self)
        ensures
            statement.keyword == keyword,
            statement.identifier == identifier,
            statement.expression == expression,
    {
        Self { keyword, identifier, expression }
    }
}

impl ConstStatement {
    pub fn new(keyword: Token, identifier: Token, expression: Expression) -> (statement: Self)
        ensures
            statement.keyword == keyword,
            statement.identifier == identifier,
            statement.expression == expression,
    {
        Self { keyword, identifier, expression }
    }
}

impl Expression {
    /// The span of source text that this expression came from.
    pub fn text_span(&self) -> (span: TextSpan)
        ensures
            span == span_of(self@),
        decreases *self,
    {
        match self {
            Expression::NoneLiteral(n) => n.text_span(),
            Expression::Boolean(b) => b.text_span(),
            Expression::Numeric(n) => n.text_span(),
            Expression::String(s) => s.text_span(),
            Expression::Object(o) => o.text_span(),
            Expression::Identifier(i) => i.text_span(),
            Expression::Access(a) => TextSpan::add(a.object.text_span(), a.property.text_span),
            Expression::Unary(u) => TextSpan::add(u.operator.text_span, u.right.text_span()),
            Expression::Binary(b) => TextSpan::add(b.left.text_span(), b.right.text_span()),
            Expression::Assignment(a) => TextSpan::add(
                a.identifier.text_span,
                a.expression.text_span(),
            ),
        }
    }
}

impl AssignmentExpression {
    pub fn new(identifier: Token, expression: Expression) -> (node: Self)
        ensures
            node.identifier == identifier,
            *node.expression == expression,
    {
        Self { identifier, expression: Box::new(expression) }
    }

    pub fn text_span(&self) -> (span: TextSpan)
        ensures
            span == TextSpan::joined(self.identifier.text_span, span_of(self.expression@)),
    {
        TextSpan::add(self.identifier.text_span, self.expression.text_span())
    }
}

impl BinaryExpression {
    pub fn new(left: Expression, operator: Token, right: Expression) -> (node: Self)
        ensures
            *node.left == left,
            node.operator == operator,
            *node.right == right,
    {
        Self { left: Box::new(left), operator, right: Box::new(right) }
    }

    pub fn text_span(&self) -> (span: TextSpan)
        ensures
            span == TextSpan::joined(span_of(self.left@), span_of(self.right@)),
    {
        TextSpan::add(self.left.text_span(), self.right.text_span())
    }
}

impl UnaryExpression {
    pub fn new(operator: Token, right: Expression) -> (node: Self)
        ensures
            node.operator == operator,
            *node.right == right,
    {
        Self { operator, right: Box::new(right) }
    }

    pub fn text_span(&self) -> (span: TextSpan)
        ensures
            span == TextSpan::joined(self.operator.text_span, span_of(self.right@)),
    {
        TextSpan::add(self.operator.text_span, self.right.text_span())
    }
}

impl AccessExpression {
    pub fn new(object: Expression, property: Token) -> (node: Self)
        ensures
            *node.object == object,
            node.property == property,
    {
        Self { object: Box::new(object), property }
    }

    pub fn text_span(&self) -> (span: TextSpan)
        ensures
            span == TextSpan::joined(span_of(self.object@), self.property.text_span),
    {
        TextSpan::add(self.object.text_span(), self.property.text_span)
    }
}

impl IdentifierExpression {
    pub fn new(identifier: Token) -> (node: Self)
        ensures
            node.identifier == identifier,
    {
        Self { identifier }
    }

    pub fn text_span(&self) -> (span: TextSpan)
        ensures
            span == self.identifier.text_span,
    {
        self.identifier.text_span
    }
}

impl ObjectLiteralExpression {
    pub fn new(open_brace: Token, pairs: Vec<KeyValuePair>, close_brace: Token) -> (node: Self)
        ensures
            node.open_brace == open_brace,
            node.pairs == pairs,
            node.close_brace == close_brace,
    {
        Self { open_brace, pairs, close_brace }
    }

    pub fn text_span(&self) -> (span: TextSpan)
        ensures
            span == TextSpan::joined(self.open_brace.text_span, self.close_brace.text_span),
    {
        TextSpan::add(self.open_brace.text_span, self.close_brace.text_span)
    }
}

impl StringLiteralExpression {
    pub fn new(string: Token, value: String) -> (node: Self)
        ensures
            node.string == string,
            node.value == value,
    {
        Self { string, value }
    }

    pub fn text_span(&self) -> (span: TextSpan)
        ensures
            span == self.string.text_span,
    {
        self.string.text_span
    }
}

impl NumericLiteralExpression {
    pub fn new(number: Token, value: Number) -> (node: Self)
        ensures
            node.number == number,
            node.value == value,
    {
        Self { number, value }
    }

    pub fn text_span(&self) -> (span: TextSpan)
        ensures
            span == self.number.text_span,
    {
        self.number.text_span
    }
}

impl BooleanLiteralExpression {
    pub fn new(boolean: Token, value: bool) -> (node: Self)
        ensures
            node.boolean == boolean,
            node.value == value,
    {
        Self { boolean, value }
    }

    pub fn text_span(&self) -> (span: TextSpan)
        ensures
            span == self.boolean.text_span,
    {
        self.boolean.text_span
    }
}

impl NoneLiteralExpression {
    pub fn new(none: Token) -> (node: Self)
        ensures
            node.none == none,
    {
        Self { none }
    }

    pub fn text_span(&self) -> (span: TextSpan)
        ensures
            span == self.none.text_span,
    {
        self.none.text_span
    }
}

impl KeyValuePair {
    pub fn new(key: Token, value: Expression) -> (pair: Self)
        ensures
            pair.key == key,
            pair.value == value,
    {
        Self { key, value }
    }
}

} // verus!
