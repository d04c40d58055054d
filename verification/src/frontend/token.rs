//! Tokens and their kinds.
use crate::frontend::text::same_text;
use crate::frontend::utils::TextSpan;
use vstd::prelude::*;

verus! {

/// What a token is: the end of input, a literal, a name, a keyword, a
/// punctuation mark or an operator.
#[derive(Debug, PartialEq, Eq, Structural, Clone, Copy)]
pub enum TokenKind {
    Eof,
    Number,
    String,
    Identifier,
    Let,
    Const,
    True,
    False,
    NoneLiteral,
    Colon,
    Comma,
    Dot,
    OpenParen,
    CloseParen,
    OpenBrace,
    CloseBrace,
    Plus,
    Minus,
    Asterisk,
    Slash,
    Equal,
    Bang,
    Ampersand,
    Pipe,
    Greater,
    Lesser,
    DoubleAmpersand,
    DoublePipe,
    DoubleEqual,
    BangEqual,
    GreaterOrEqual,
    LesserOrEqual,
}

/// The kind of a word: one of the five keywords, or an identifier.
pub open spec fn word_kind(lexeme: Seq<char>) -> TokenKind {
    if lexeme == "let"@ {
        TokenKind::Let
    } else if lexeme == "const"@ {
        TokenKind::Const
    } else if lexeme == "true"@ {
        TokenKind::True
    } else if lexeme == "false"@ {
        TokenKind::False
    } else if lexeme == "none"@ {
        TokenKind::NoneLiteral
    } else {
        TokenKind::Identifier
    }
}

/// How a kind is written in a message: the spelling of a keyword, operator
/// or punctuation mark, and a name in capitals for the kinds that stand for
/// many lexemes.
pub open spec fn kind_text(kind: TokenKind) -> Seq<char> {
    match kind {
        TokenKind::Eof => "\0"@,
        TokenKind::Number => "NUMBER"@,
        TokenKind::String => "STRING"@,
        TokenKind::Identifier => "IDENTIFIER"@,
        TokenKind::Let => "let"@,
        TokenKind::Const => "const"@,
        TokenKind::True => "true"@,
        TokenKind::False => "false"@,
        TokenKind::NoneLiteral => "none"@,
        TokenKind::Colon => ":"@,
        TokenKind::Comma => ","@,
        TokenKind::Dot => "."@,
        TokenKind::OpenParen => "("@,
        TokenKind::CloseParen => ")"@,
        TokenKind::OpenBrace => "{"@,
        TokenKind::CloseBrace => "}"@,
        TokenKind::Plus => "+"@,
        TokenKind::Minus => "-"@,
        TokenKind::Asterisk => "*"@,
        TokenKind::Slash => "/"@,
        TokenKind::Equal => "="@,
        TokenKind::Bang => "!"@,
        TokenKind::Ampersand => "&"@,
        TokenKind::Pipe => "|"@,
        TokenKind::Greater => ">"@,
        TokenKind::Lesser => "<"@,
        TokenKind::DoubleAmpersand => "&&"@,
        TokenKind::DoublePipe => "||"@,
        TokenKind::DoubleEqual => "=="@,
        TokenKind::BangEqual => "!="@,
        TokenKind::GreaterOrEqual => ">="@,
        TokenKind::LesserOrEqual => "<="@,
    }
}

impl TokenKind {
    /// Classifies a word as a keyword or an identifier.
    pub fn get_lexeme_type(lexeme: &str) -> (kind: Self)
        ensures
            kind == word_kind(lexeme@),
    {
        if same_text(lexeme, "let") {
            TokenKind::Let
        } else if same_text(lexeme, "const") {
            TokenKind::Const
        } else if same_text(lexeme, "true") {
            TokenKind::True
        } else if same_text(lexeme, "false") {
            TokenKind::False
        } else if same_text(lexeme, "none") {
            TokenKind::NoneLiteral
        } else {
            TokenKind::Identifier
        }
    }

    /// The text that stands for this kind in a message.
    pub fn text(&self) -> (text: &'static str)
        ensures
            text@ == kind_text(*self),
    {
        match self {
            TokenKind::Eof => "\0",
            TokenKind::Number => "NUMBER",
            TokenKind::String => "STRING",
            TokenKind::Identifier => "IDENTIFIER",
            TokenKind::Let => "let",
            TokenKind::Const => "const",
            TokenKind::True => "true",
            TokenKind::False => "false",
            TokenKind::NoneLiteral => "none",
            TokenKind::Colon => ":",
            TokenKind::Comma => ",",
            TokenKind::Dot => ".",
            TokenKind::OpenParen => "(",
            TokenKind::CloseParen => ")",
            TokenKind::OpenBrace => "{",
            TokenKind::CloseBrace => "}",
            TokenKind::Plus => "+",
            TokenKind::Minus => "-",
            TokenKind::Asterisk => "*",
            TokenKind::Slash => "/",
            TokenKind::Equal => "=",
            TokenKind::Bang => "!",
            TokenKind::Ampersand => "&",
            TokenKind::Pipe => "|",
            TokenKind::Greater => ">",
            TokenKind::Lesser => "<",
            TokenKind::DoubleAmpersand => "&&",
            TokenKind::DoublePipe => "||",
            TokenKind::DoubleEqual => "==",
            TokenKind::BangEqual => "!=",
            TokenKind::GreaterOrEqual => ">=",
            TokenKind::LesserOrEqual => "<=",
        }
    }
}

/// The view of a [`Token`], of which the contracts speak.
pub struct TokenView {
    pub kind: TokenKind,
    pub lexeme: Seq<char>,
    pub text_span: TextSpan,
}

/// One lexical unit of the source: its kind, its text, and where it stood.
#[derive(Debug, PartialEq, Eq)]
pub struct Token {
    pub kind: TokenKind,
    pub lexeme: String,
    pub text_span: TextSpan,
}

impl View for Token {
    type V = TokenView;

    open spec fn view(&self) -> TokenView {
        TokenView { kind: self.kind, lexeme: self.lexeme@, text_span: self.text_span }
    }
}

impl Clone for Token {
    fn clone(&self) -> (copy: Self)
        ensures
            copy == *self,
    {
        Token { kind: self.kind, lexeme: self.lexeme.clone(), text_span: self.text_span }
    }
}

impl Token {
    pub fn new(kind: TokenKind, lexeme: String, text_span: TextSpan) -> (token: Self)
        ensures
            token.kind == kind,
            token.lexeme == lexeme,
            token.text_span == text_span,
    {
        Self { kind, lexeme, text_span }
    }
}

/// The views of a sequence of tokens, one for one.
pub open spec fn token_views(tokens: Seq<Token>) -> Seq<TokenView> {
    tokens.map_values(|token: Token| token@)
}

/// Tokens whose spans follow one another: no span ends before it starts,
/// and none starts before an earlier one has ended.
pub open spec fn in_order(tokens: Seq<TokenView>) -> bool {
    &&& forall|i: int|
        0 <= i < tokens.len() ==> (#[trigger] tokens[i]).text_span.starting_index
            <= tokens[i].text_span.ending_index
    &&& forall|i: int, j: int|
        0 <= i < j < tokens.len() ==> (#[trigger] tokens[i]).text_span.ending_index <= (
        #[trigger] tokens[j]).text_span.starting_index
}

} // verus!
