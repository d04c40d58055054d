//! The lexer: from source text to tokens.
//!
//! [`tokens_of`] says which tokens a source has, or which error; [`tokenize`]
//! computes exactly that.
use crate::frontend::text::{
    byte_offset, characters_with_offsets, lemma_byte_offset_grows, lemma_byte_offset_of_prefix,
    offsets_of, push_char, text_between,
};
use crate::frontend::token::{in_order, token_views, word_kind, Token, TokenKind, TokenView};
use crate::frontend::utils::{Error, ErrorView, TextSpan};
use vstd::prelude::*;
use vstd::string::StringExecFns;

verus! {

/// Whether `c` has the Unicode property `Alphabetic`, as the standard
/// library's tables have it.
pub uninterp spec fn unicode_alphabetic(c: char) -> bool;

/// Whether `c` is alphabetic or numeric, as the standard library's Unicode
/// tables have it.
pub uninterp spec fn unicode_alphanumeric(c: char) -> bool;

/// Stands for `char::is_alphabetic`, whose answer comes from the Unicode
/// tables of the standard library and depends on `c` alone.
#[verifier::external_body]
fn is_alphabetic(c: char) -> (yes: bool)
    ensures
        yes == unicode_alphabetic(c),
{
    c.is_alphabetic()
}

/// Stands for `char::is_alphanumeric`, whose answer comes from the Unicode
/// tables of the standard library and depends on `c` alone.
#[verifier::external_body]
fn is_alphanumeric(c: char) -> (yes: bool)
    ensures
        yes == unicode_alphanumeric(c),
{
    c.is_alphanumeric()
}

/// The end-of-input mark. The lexer reads the source with one such
/// character appended, and the same character inside the source is lexed as
/// the mark is.
pub open spec fn end_mark() -> char {
    '\0'
}

/// The text that the lexer scans: the source followed by the end mark.
pub open spec fn marked(source: Seq<char>) -> Seq<char> {
    source.push(end_mark())
}

/// Whether `c` is a blank, which the lexer skips.
pub open spec fn is_blank(c: char) -> bool {
    c == ' ' || c == '\t' || c == '\n' || c == '\r'
}

/// Whether `c` is one of the ten digits.
pub open spec fn is_digit(c: char) -> bool {
    '0' <= c && c <= '9'
}

/// Whether a word may start with `c`: a letter or an underscore.
pub open spec fn starts_word(c: char) -> bool {
    c == '_' || unicode_alphabetic(c)
}

/// The kind of the token that `c` is by itself, if it is one.
pub open spec fn single_kind(c: char) -> Option<TokenKind> {
    if c == end_mark() {
        Some(TokenKind::Eof)
    } else if c == ':' {
        Some(TokenKind::Colon)
    } else if c == ',' {
        Some(TokenKind::Comma)
    } else if c == '.' {
        Some(TokenKind::Dot)
    } else if c == '(' {
        Some(TokenKind::OpenParen)
    } else if c == ')' {
        Some(TokenKind::CloseParen)
    } else if c == '{' {
        Some(TokenKind::OpenBrace)
    } else if c == '}' {
        Some(TokenKind::CloseBrace)
    } else if c == '+' {
        Some(TokenKind::Plus)
    } else if c == '-' {
        Some(TokenKind::Minus)
    } else if c == '*' {
        Some(TokenKind::Asterisk)
    } else {
        None
    }
}

/// For a character that starts a one- or two-character operator: the
/// character that must follow for the long form, the kind of the long form,
/// and the kind of the short form.
pub open spec fn double_kind(c: char) -> Option<(char, TokenKind, TokenKind)> {
    if c == '&' {
        Some(('&', TokenKind::DoubleAmpersand, TokenKind::Ampersand))
    } else if c == '|' {
        Some(('|', TokenKind::DoublePipe, TokenKind::Pipe))
    } else if c == '=' {
        Some(('=', TokenKind::DoubleEqual, TokenKind::Equal))
    } else if c == '!' {
        Some(('=', TokenKind::BangEqual, TokenKind::Bang))
    } else if c == '>' {
        Some(('=', TokenKind::GreaterOrEqual, TokenKind::Greater))
    } else if c == '<' {
        Some(('=', TokenKind::LesserOrEqual, TokenKind::Lesser))
    } else {
        None
    }
}

/// The stretches of characters that the lexer reads as a whole.
#[derive(Debug, PartialEq, Eq, Structural, Clone, Copy)]
pub enum Run {
    /// A line comment: up to, not including, the newline or end mark.
    Comment,
    /// The inside of a string literal: up to the closing quote or end mark.
    Quoted,
    /// A word: letters, digits and underscores.
    Word,
    /// A number: digits and dots.
    Digits,
}

impl Run {
    /// Whether a run of this sort goes on over `c`.
    pub open spec fn takes(self, c: char) -> bool {
        match self {
            Run::Comment => c != '\n' && c != end_mark(),
            Run::Quoted => c != '"' && c != end_mark(),
            Run::Word => c != end_mark() && (c == '_' || unicode_alphanumeric(c)),
            Run::Digits => is_digit(c) || c == '.',
        }
    }

    fn accepts(&self, c: char) -> (yes: bool)
        ensures
            yes == self.takes(c),
    {
        match self {
            Run::Comment => c != '\n' && c != '\0',
            Run::Quoted => c != '"' && c != '\0',
            Run::Word => c != '\0' && (c == '_' || is_alphanumeric(c)),
            Run::Digits => ('0' <= c && c <= '9') || c == '.',
        }
    }
}

/// The first offset at or after `from` whose character the run does not
/// take, or the length of `text` if it takes them all.
pub open spec fn run_end(text: Seq<char>, from: int, run: Run) -> int
    decreases text.len() - from,
{
    if 0 <= from < text.len() && run.takes(text[from]) {
        run_end(text, from + 1, run)
    } else {
        from
    }
}

/// A run ends between its start and the end of the text, takes every
/// character up to its end, and not the one at its end.
pub proof fn lemma_run_end_bounds(text: Seq<char>, from: int, run: Run)
    requires
        0 <= from <= text.len(),
    ensures
        from <= run_end(text, from, run) <= text.len(),
        forall|i: int| from <= i < run_end(text, from, run) ==> run.takes(#[trigger] text[i]),
        run_end(text, from, run) < text.len() ==> !run.takes(text[run_end(text, from, run)]),
    decreases text.len() - from,
{
    if from < text.len() && run.takes(text[from]) {
        lemma_run_end_bounds(text, from + 1, run);
    }
}

/// What the lexer finds at one offset.
pub enum Lexed {
    /// Blanks or a comment: nothing to emit, go on at `next`.
    Skipped { next: int },
    /// A token, and the offset after it.
    Found { token: TokenView, next: int },
    /// A character or literal that the language does not have.
    Failed { error: ErrorView },
}

/// The span of the characters `text[start..end]`, in bytes of UTF-8.
pub open spec fn span_over(text: Seq<char>, start: int, end: int) -> TextSpan {
    TextSpan {
        starting_index: byte_offset(text, start) as usize,
        ending_index: byte_offset(text, end) as usize,
    }
}

/// The token of kind `kind` whose lexeme is `text[start..end]`.
pub open spec fn token_over(text: Seq<char>, start: int, end: int, kind: TokenKind) -> TokenView {
    TokenView { kind, lexeme: text.subrange(start, end), text_span: span_over(text, start, end) }
}

/// The message for a character with which no token starts.
pub open spec fn unexpected_character(c: char) -> Seq<char> {
    "Unexpected character '"@.push(c) + "'"@
}

/// The message for a string literal that the end of input cuts short.
pub open spec fn unterminated_string() -> Seq<char> {
    "Unterminated string"@
}

/// What stands at offset `start` of `text`, for `0 <= start < text.len()`.
///
/// Blanks are skipped. `//` starts a comment that runs to the end of the
/// line. Punctuation and operators are read with one character of
/// lookahead. A string literal runs to the next quote and its lexeme leaves
/// the quotes out; if the end mark comes first, that is an error. A number
/// starts with a digit and takes digits and dots; a word starts with a
/// letter or underscore and is a keyword or an identifier. Anything else is
/// an error on that one character.
pub open spec fn lex_at(text: Seq<char>, start: int) -> Lexed {
    let c = text[start];
    let after = start + 1;
    if is_blank(c) {
        Lexed::Skipped { next: after }
    } else if single_kind(c) is Some {
        Lexed::Found { token: token_over(text, start, after, single_kind(c)->0), next: after }
    } else if c == '/' {
        if after < text.len() && text[after] == '/' {
            Lexed::Skipped { next: run_end(text, after, Run::Comment) }
        } else {
            Lexed::Found { token: token_over(text, start, after, TokenKind::Slash), next: after }
        }
    } else if double_kind(c) is Some {
        let (second, long, short) = double_kind(c)->0;
        if after < text.len() && text[after] == second {
            Lexed::Found { token: token_over(text, start, after + 1, long), next: after + 1 }
        } else {
            Lexed::Found { token: token_over(text, start, after, short), next: after }
        }
    } else if c == '"' {
        let close = run_end(text, after, Run::Quoted);
        if close < text.len() && text[close] == '"' {
            Lexed::Found {
                token: TokenView {
                    kind: TokenKind::String,
                    lexeme: text.subrange(after, close),
                    text_span: span_over(text, start, close + 1),
                },
                next: close + 1,
            }
        } else {
            Lexed::Failed {
                error: ErrorView {
                    message: unterminated_string(),
                    text_span: span_over(text, start, close),
                },
            }
        }
    } else if is_digit(c) {
        let end = run_end(text, after, Run::Digits);
        Lexed::Found { token: token_over(text, start, end, TokenKind::Number), next: end }
    } else if starts_word(c) {
        let end = run_end(text, after, Run::Word);
        Lexed::Found {
            token: token_over(text, start, end, word_kind(text.subrange(start, end))),
            next: end,
        }
    } else {
        Lexed::Failed {
            error: ErrorView {
                message: unexpected_character(c),
                text_span: span_over(text, start, after),
            },
        }
    }
}

/// `first`, then what `rest` holds; an error in `rest` stays an error.
pub open spec fn followed_by(first: Seq<TokenView>, rest: Result<Seq<TokenView>, ErrorView>)
    -> Result<Seq<TokenView>, ErrorView> {
    match rest {
        Ok(tokens) => Ok(first + tokens),
        Err(error) => Err(error),
    }
}

/// The tokens of `text` from offset `start` on, or the first error.
pub open spec fn tokens_from(text: Seq<char>, start: int) -> Result<Seq<TokenView>, ErrorView>
    decreases text.len() - start,
{
    if start < 0 || start >= text.len() {
        Ok(Seq::empty())
    } else {
        match lex_at(text, start) {
            Lexed::Failed { error } => Err(error),
            Lexed::Skipped { next } => {
                proof {
                    lemma_lex_at_moves_on(text, start);
                }
                tokens_from(text, next)
            },
            Lexed::Found { token, next } => {
                proof {
                    lemma_lex_at_moves_on(text, start);
                }
                followed_by(seq![token], tokens_from(text, next))
            },
        }
    }
}

/// The tokens of a source text, or the first error in it. Where there is no
/// error, the last token is the end-of-input token.
pub open spec fn tokens_of(source: Seq<char>) -> Result<Seq<TokenView>, ErrorView> {
    tokens_from(marked(source), 0)
}

/// Whatever stands at `start`, the lexer goes on strictly after it and not
/// past the end of the text.
pub proof fn lemma_lex_at_moves_on(text: Seq<char>, start: int)
    requires
        0 <= start < text.len(),
    ensures
        match lex_at(text, start) {
            Lexed::Skipped { next } => start < next <= text.len(),
            Lexed::Found { token, next } => start < next <= text.len(),
            Lexed::Failed { error } => true,
        },
{
    lemma_run_end_bounds(text, start + 1, Run::Comment);
    lemma_run_end_bounds(text, start + 1, Run::Quoted);
    lemma_run_end_bounds(text, start + 1, Run::Word);
    lemma_run_end_bounds(text, start + 1, Run::Digits);
}

/// A run stops at the latest where a character stands that it does not
/// take.
pub proof fn lemma_run_stops_at(text: Seq<char>, from: int, run: Run, stop: int)
    requires
        0 <= from <= stop < text.len(),
        !run.takes(text[stop]),
    ensures
        run_end(text, from, run) <= stop,
    decreases stop - from,
{
    if from < stop && run.takes(text[from]) {
        lemma_run_stops_at(text, from + 1, run, stop);
    }
}

/// Before the last character of a text that ends with the end mark, the
/// lexer never steps over that mark.
pub proof fn lemma_lex_at_keeps_end_mark(text: Seq<char>, start: int)
    requires
        0 <= start < text.len() - 1,
        text.last() == end_mark(),
    ensures
        match lex_at(text, start) {
            Lexed::Skipped { next } => next <= text.len() - 1,
            Lexed::Found { token, next } => next <= text.len() - 1,
            Lexed::Failed { error } => true,
        },
{
    let last = text.len() - 1;
    lemma_run_stops_at(text, start + 1, Run::Comment, last);
    lemma_run_stops_at(text, start + 1, Run::Quoted, last);
    lemma_run_stops_at(text, start + 1, Run::Word, last);
    lemma_run_stops_at(text, start + 1, Run::Digits, last);
    lemma_run_end_bounds(text, start + 1, Run::Quoted);
}

/// The tokens of a text that ends with the end mark end with the
/// end-of-input token.
pub proof fn lemma_tokens_end_with_eof(text: Seq<char>, start: int)
    requires
        0 <= start < text.len(),
        text.last() == end_mark(),
    ensures
        tokens_from(text, start) matches Ok(tokens) ==> tokens.len() > 0 && tokens.last().kind
            == TokenKind::Eof,
    decreases text.len() - start,
{
    if start == text.len() - 1 {
        assert(tokens_from(text, start + 1) == Ok::<Seq<TokenView>, ErrorView>(Seq::empty()));
    } else {
        lemma_lex_at_moves_on(text, start);
        lemma_lex_at_keeps_end_mark(text, start);
        match lex_at(text, start) {
            Lexed::Skipped { next } => lemma_tokens_end_with_eof(text, next),
            Lexed::Found { token, next } => lemma_tokens_end_with_eof(text, next),
            Lexed::Failed { error } => {},
        }
    }
}

/// In a text whose only end mark is its last character, only the last
/// token is the end-of-input token.
pub proof fn lemma_only_last_token_is_eof(text: Seq<char>, start: int)
    requires
        0 <= start < text.len(),
        text.last() == end_mark(),
        forall|i: int| 0 <= i < text.len() - 1 ==> text[i] != end_mark(),
    ensures
        tokens_from(text, start) matches Ok(tokens) ==> forall|i: int|
            0 <= i < tokens.len() - 1 ==> (#[trigger] tokens[i]).kind != TokenKind::Eof,
    decreases text.len() - start,
{
    if start < text.len() - 1 {
        lemma_lex_at_moves_on(text, start);
        lemma_lex_at_keeps_end_mark(text, start);
        match lex_at(text, start) {
            Lexed::Skipped { next } => lemma_only_last_token_is_eof(text, next),
            Lexed::Found { token, next } => {
                lemma_only_last_token_is_eof(text, next);
                lemma_tokens_end_with_eof(text, next);
                if let Ok(rest) = tokens_from(text, next) {
                    let tokens = seq![token] + rest;
                    assert forall|i: int| 0 <= i < tokens.len() - 1 implies (
                    #[trigger] tokens[i]).kind != TokenKind::Eof by {
                        if i > 0 {
                            assert(tokens[i] == rest[i - 1]);
                        }
                    }
                }
            },
            Lexed::Failed { error } => {},
        }
    } else {
        assert(tokens_from(text, start + 1) == Ok::<Seq<TokenView>, ErrorView>(Seq::empty()));
    }
}

/// The tokens of a source end with exactly one end-of-input token, unless
/// the source itself holds the end mark: the last token is of that kind,
/// and none before it.
pub proof fn lemma_one_end_token(source: Seq<char>)
    requires
        forall|i: int| 0 <= i < source.len() ==> source[i] != end_mark(),
    ensures
        tokens_of(source) matches Ok(tokens) ==> {
            &&& tokens.len() > 0
            &&& tokens.last().kind == TokenKind::Eof
            &&& forall|i: int|
                0 <= i < tokens.len() - 1 ==> (#[trigger] tokens[i]).kind != TokenKind::Eof
        },
{
    lemma_tokens_end_with_eof(marked(source), 0);
    lemma_only_last_token_is_eof(marked(source), 0);
}

/// Whether `token` carries the text of its span: the span is that of some
/// stretch of characters of `text`, and the lexeme is that stretch; for a
/// string literal, the stretch between the two quotes.
pub open spec fn spells_its_span(text: Seq<char>, token: TokenView) -> bool {
    exists|from: int, to: int|
        {
            &&& 0 <= from < to <= text.len()
            &&& token.text_span == #[trigger] span_over(text, from, to)
            &&& if token.kind == TokenKind::String {
                &&& to - from >= 2
                &&& text[from] == '"'
                &&& text[to - 1] == '"'
                &&& token.lexeme == text.subrange(from + 1, to - 1)
            } else {
                token.lexeme == text.subrange(from, to)
            }
        }
}

/// The token found at `start` carries the text of its span.
pub proof fn lemma_lex_at_spells_span(text: Seq<char>, start: int)
    requires
        0 <= start < text.len(),
    ensures
        lex_at(text, start) matches Lexed::Found { token, next } ==> spells_its_span(text, token),
{
    lemma_lex_at_moves_on(text, start);
    lemma_run_end_bounds(text, start + 1, Run::Quoted);
    if let Lexed::Found { token, next } = lex_at(text, start) {
        assert(token.text_span == span_over(text, start, next));
    }
}

/// Every token of a text carries the text of its span: the lexeme of a
/// token is the very stretch of the text that its span names, without the
/// quotes where the token is a string literal.
pub proof fn lemma_tokens_spell_their_spans(text: Seq<char>, start: int)
    requires
        0 <= start <= text.len(),
    ensures
        tokens_from(text, start) matches Ok(tokens) ==> forall|i: int|
            0 <= i < tokens.len() ==> spells_its_span(text, #[trigger] tokens[i]),
    decreases text.len() - start,
{
    if start < text.len() {
        lemma_lex_at_moves_on(text, start);
        lemma_lex_at_spells_span(text, start);
        match lex_at(text, start) {
            Lexed::Skipped { next } => lemma_tokens_spell_their_spans(text, next),
            Lexed::Found { token, next } => {
                lemma_tokens_spell_their_spans(text, next);
                if let Ok(rest) = tokens_from(text, next) {
                    let tokens = seq![token] + rest;
                    assert forall|i: int| 0 <= i < tokens.len() implies spells_its_span(
                        text,
                        #[trigger] tokens[i],
                    ) by {
                        if i > 0 {
                            assert(tokens[i] == rest[i - 1]);
                        }
                    }
                }
            },
            Lexed::Failed { error } => {},
        }
    }
}

/// The tokens of a text stand in the order of the text: each span ends no
/// earlier than it starts, and no later than the next one starts.
pub proof fn lemma_tokens_in_order(text: Seq<char>, start: int)
    requires
        0 <= start <= text.len(),
        byte_offset(text, text.len() as int) <= usize::MAX,
    ensures
        tokens_from(text, start) matches Ok(tokens) ==> in_order(tokens) && forall|i: int|
            0 <= i < tokens.len() ==> byte_offset(text, start) <= (
            #[trigger] tokens[i]).text_span.starting_index,
    decreases text.len() - start,
{
    if start < text.len() {
        lemma_lex_at_moves_on(text, start);
        lemma_run_end_bounds(text, start + 1, Run::Quoted);
        match lex_at(text, start) {
            Lexed::Skipped { next } => {
                lemma_tokens_in_order(text, next);
                lemma_byte_offset_grows(text, start, next);
            },
            Lexed::Found { token, next } => {
                lemma_tokens_in_order(text, next);
                lemma_byte_offset_grows(text, start, next);
                lemma_byte_offset_grows(text, next, text.len() as int);
                assert(token.text_span == span_over(text, start, next));
                if let Ok(rest) = tokens_from(text, next) {
                    let tokens = seq![token] + rest;
                    assert forall|i: int| 0 <= i < tokens.len() implies byte_offset(text, start)
                        <= (#[trigger] tokens[i]).text_span.starting_index
                        <= tokens[i].text_span.ending_index by {
                        if i > 0 {
                            assert(tokens[i] == rest[i - 1]);
                        }
                    }
                    assert forall|i: int, j: int| 0 <= i < j < tokens.len() implies (
                    #[trigger] tokens[i]).text_span.ending_index <= (
                    #[trigger] tokens[j]).text_span.starting_index by {
                        assert(tokens[j] == rest[j - 1]);
                        if i > 0 {
                            assert(tokens[i] == rest[i - 1]);
                        }
                    }
                }
            },
            Lexed::Failed { error } => {},
        }
    }
}

/// Every token of a text but the last carries the text of its span without
/// reaching the end mark that the text ends with.
pub proof fn lemma_tokens_before_last_spell_their_spans(text: Seq<char>, start: int)
    requires
        0 <= start < text.len(),
        text.last() == end_mark(),
    ensures
        tokens_from(text, start) matches Ok(tokens) ==> forall|i: int|
            0 <= i < tokens.len() - 1 ==> spells_its_span(text.drop_last(), #[trigger] tokens[i]),
    decreases text.len() - start,
{
    let source = text.drop_last();
    if start < text.len() - 1 {
        lemma_lex_at_moves_on(text, start);
        lemma_lex_at_keeps_end_mark(text, start);
        lemma_run_end_bounds(text, start + 1, Run::Quoted);
        match lex_at(text, start) {
            Lexed::Skipped { next } => lemma_tokens_before_last_spell_their_spans(text, next),
            Lexed::Found { token, next } => {
                lemma_tokens_before_last_spell_their_spans(text, next);
                lemma_tokens_end_with_eof(text, next);
                lemma_byte_offset_of_prefix(source, text, start);
                lemma_byte_offset_of_prefix(source, text, next);
                assert(token.text_span == span_over(source, start, next));
                assert(source.subrange(start, next) =~= text.subrange(start, next));
                if token.kind == TokenKind::String {
                    assert(source.subrange(start + 1, next - 1) =~= text.subrange(
                        start + 1,
                        next - 1,
                    ));
                }
                assert(spells_its_span(source, token));
                if let Ok(rest) = tokens_from(text, next) {
                    let tokens = seq![token] + rest;
                    assert forall|i: int| 0 <= i < tokens.len() - 1 implies spells_its_span(
                        source,
                        #[trigger] tokens[i],
                    ) by {
                        if i > 0 {
                            assert(tokens[i] == rest[i - 1]);
                        }
                    }
                }
            },
            Lexed::Failed { error } => {},
        }
    } else {
        assert(tokens_from(text, start + 1) == Ok::<Seq<TokenView>, ErrorView>(Seq::empty()));
    }
}

/// The law of the lexer's spans, stated of a source: where `source` has
/// tokens, the lexeme of each one before the end-of-input token is the
/// text of the source over the token's span; for a string literal, the
/// text between its quotes. The end-of-input token, the last, carries the
/// end mark, which stands right after the source.
pub proof fn lemma_lexemes_are_source_text(source: Seq<char>)
    ensures
        tokens_of(source) matches Ok(tokens) ==> {
            &&& forall|i: int|
                0 <= i < tokens.len() - 1 ==> spells_its_span(source, #[trigger] tokens[i])
            &&& forall|i: int|
                0 <= i < tokens.len() ==> spells_its_span(marked(source), #[trigger] tokens[i])
        },
{
    lemma_tokens_spell_their_spans(marked(source), 0);
    lemma_tokens_before_last_spell_their_spans(marked(source), 0);
    assert(marked(source).drop_last() =~= source);
}

fn single_kind_of(c: char) -> (kind: Option<TokenKind>)
    ensures
        kind == single_kind(c),
{
    if c == '\0' {
        Some(TokenKind::Eof)
    } else if c == ':' {
        Some(TokenKind::Colon)
    } else if c == ',' {
        Some(TokenKind::Comma)
    } else if c == '.' {
        Some(TokenKind::Dot)
    } else if c == '(' {
        Some(TokenKind::OpenParen)
    } else if c == ')' {
        Some(TokenKind::CloseParen)
    } else if c == '{' {
        Some(TokenKind::OpenBrace)
    } else if c == '}' {
        Some(TokenKind::CloseBrace)
    } else if c == '+' {
        Some(TokenKind::Plus)
    } else if c == '-' {
        Some(TokenKind::Minus)
    } else if c == '*' {
        Some(TokenKind::Asterisk)
    } else {
        None
    }
}

fn double_kind_of(c: char) -> (kinds: Option<(char, TokenKind, TokenKind)>)
    ensures
        kinds == double_kind(c),
{
    if c == '&' {
        Some(('&', TokenKind::DoubleAmpersand, TokenKind::Ampersand))
    } else if c == '|' {
        Some(('|', TokenKind::DoublePipe, TokenKind::Pipe))
    } else if c == '=' {
        Some(('=', TokenKind::DoubleEqual, TokenKind::Equal))
    } else if c == '!' {
        Some(('=', TokenKind::BangEqual, TokenKind::Bang))
    } else if c == '>' {
        Some(('=', TokenKind::GreaterOrEqual, TokenKind::Greater))
    } else if c == '<' {
        Some(('=', TokenKind::LesserOrEqual, TokenKind::Lesser))
    } else {
        None
    }
}

/// Where the run that starts at `from` ends.
fn scan_run(chars: &Vec<char>, from: usize, run: Run) -> (end: usize)
    requires
        from <= chars.len(),
    ensures
        end == run_end(chars@, from as int, run),
        from <= end <= chars.len(),
{
    let mut end: usize = from;
    while end < chars.len() && run.accepts(chars[end])
        invariant
            from <= end <= chars.len(),
            run_end(chars@, from as int, run) == run_end(chars@, end as int, run),
        decreases chars.len() - end,
    {
        end += 1;
    }
    end
}

/// The span of `chars[start..end]`.
fn span_between(chars: &Vec<char>, offsets: &Vec<usize>, start: usize, end: usize) -> (span:
    TextSpan)
    requires
        offsets_of(chars@, offsets@),
        start <= end <= chars.len(),
    ensures
        span == span_over(chars@, start as int, end as int),
{
    TextSpan::new(offsets[start], offsets[end])
}

/// The token of kind `kind` over `chars[start..end]`.
fn token_between(
    chars: &Vec<char>,
    offsets: &Vec<usize>,
    start: usize,
    end: usize,
    kind: TokenKind,
) -> (token: Token)
    requires
        offsets_of(chars@, offsets@),
        start <= end <= chars.len(),
    ensures
        token@ == token_over(chars@, start as int, end as int, kind),
{
    Token::new(kind, text_between(chars, start, end), span_between(chars, offsets, start, end))
}

/// Whether `result` is what `lexed` says: the same step, token or error.
pub open spec fn agrees_with(result: Result<(Option<Token>, usize), Error>, lexed: Lexed) -> bool {
    match (result, lexed) {
        (Ok((None, next)), Lexed::Skipped { next: to }) => next == to,
        (Ok((Some(token), next)), Lexed::Found { token: found, next: to }) => token@ == found
            && next == to,
        (Err(error), Lexed::Failed { error: failure }) => error@ == failure,
        _ => false,
    }
}

/// Reads what stands at `start`: a token or nothing, with the offset to go
/// on from, or the error. `offsets` holds the byte offsets of `chars`.
fn next_token(chars: &Vec<char>, offsets: &Vec<usize>, start: usize) -> (result: Result<
    (Option<Token>, usize),
    Error,
>)
    requires
        offsets_of(chars@, offsets@),
        start < chars.len(),
    ensures
        agrees_with(result, lex_at(chars@, start as int)),
        result matches Ok((_, next)) ==> start < next <= chars.len(),
{
    proof {
        lemma_lex_at_moves_on(chars@, start as int);
    }
    let c = chars[start];
    let after = start + 1;
    if c == ' ' || c == '\t' || c == '\n' || c == '\r' {
        return Ok((None, after));
    }
    if let Some(kind) = single_kind_of(c) {
        return Ok((Some(token_between(chars, offsets, start, after, kind)), after));
    }
    if c == '/' {
        if after < chars.len() && chars[after] == '/' {
            return Ok((None, scan_run(chars, after, Run::Comment)));
        }
        return Ok((Some(token_between(chars, offsets, start, after, TokenKind::Slash)), after));
    }
    if let Some((second, long, short)) = double_kind_of(c) {
        if after < chars.len() && chars[after] == second {
            return Ok((Some(token_between(chars, offsets, start, after + 1, long)), after + 1));
        }
        return Ok((Some(token_between(chars, offsets, start, after, short)), after));
    }
    if c == '"' {
        let close = scan_run(chars, after, Run::Quoted);
        if close < chars.len() && chars[close] == '"' {
            let token = Token::new(
                TokenKind::String,
                text_between(chars, after, close),
                span_between(chars, offsets, start, close + 1),
            );
            return Ok((Some(token), close + 1));
        }
        return Err(
            Error::new(
                String::from_str("Unterminated string"),
                span_between(chars, offsets, start, close),
            ),
        );
    }
    if '0' <= c && c <= '9' {
        let end = scan_run(chars, after, Run::Digits);
        return Ok((Some(token_between(chars, offsets, start, end, TokenKind::Number)), end));
    }
    if c == '_' || is_alphabetic(c) {
        let end = scan_run(chars, after, Run::Word);
        let lexeme = text_between(chars, start, end);
        let kind = TokenKind::get_lexeme_type(lexeme.as_str());
        let span = span_between(chars, offsets, start, end);
        return Ok((Some(Token::new(kind, lexeme, span)), end));
    }
    let mut message = String::from_str("Unexpected character '");
    push_char(&mut message, c);
    message.append("'");
    Err(Error::new(message, span_between(chars, offsets, start, after)))
}

/// Whether `result` holds what `model` says: the same tokens, or the same
/// error.
pub open spec fn tokenized(
    result: Result<Vec<Token>, Error>,
    model: Result<Seq<TokenView>, ErrorView>,
) -> bool {
    match (result, model) {
        (Ok(tokens), Ok(views)) => token_views(tokens@) == views,
        (Err(error), Err(failure)) => error@ == failure,
        _ => false,
    }
}

/// Splits `source_code` into its tokens, the end-of-input token last, or
/// reports the first character or literal that is no token.
///
/// The source with its end mark is short enough for every byte offset in
/// it to be a span's bound; the last clause says so for the laws that ask
/// for it.
pub fn tokenize(source_code: &str) -> (result: Result<Vec<Token>, Error>)
    ensures
        tokenized(result, tokens_of(source_code@)),
        result matches Ok(tokens) ==> tokens@.len() > 0 && tokens@.last().kind == TokenKind::Eof,
        result matches Ok(tokens) ==> in_order(token_views(tokens@)),
        byte_offset(marked(source_code@), marked(source_code@).len() as int) <= usize::MAX,
{
    let mut text = String::from_str(source_code);
    text.append("\0");
    proof {
        reveal_strlit("\0");
        assert(text@ =~= marked(source_code@));
    }
    let (chars, offsets) = characters_with_offsets(text.as_str());
    let mut tokens: Vec<Token> = Vec::new();
    let mut start: usize = 0;
    proof {
        assert(offsets[chars.len() as int] == byte_offset(chars@, chars.len() as int));
        lemma_tokens_end_with_eof(chars@, 0);
        lemma_tokens_in_order(chars@, 0);
    }
    assert(followed_by(token_views(tokens@), tokens_from(chars@, 0)) == tokens_from(chars@, 0))
        by {
        match tokens_from(chars@, 0) {
            Ok(rest) => assert(token_views(tokens@) + rest =~= rest),
            Err(_) => {},
        }
    }
    while start < chars.len()
        invariant
            chars@ == marked(source_code@),
            offsets_of(chars@, offsets@),
            byte_offset(chars@, chars.len() as int) <= usize::MAX,
            start <= chars.len(),
            tokens_of(source_code@) == followed_by(
                token_views(tokens@),
                tokens_from(chars@, start as int),
            ),
        decreases chars.len() - start,
    {
        let ghost before = token_views(tokens@);
        match next_token(&chars, &offsets, start) {
            Err(error) => {
                return Err(error);
            },
            Ok((None, next)) => {
                start = next;
            },
            Ok((Some(token), next)) => {
                proof {
                    let rest = tokens_from(chars@, next as int);
                    assert(token_views(tokens@.push(token)) =~= before + seq![token@]);
                    match rest {
                        Ok(more) => assert((before + seq![token@]) + more =~= before + (seq![
                            token@,
                        ] + more)),
                        Err(_) => {},
                    }
                }
                tokens.push(token);
                start = next;
            },
        }
    }
    assert(token_views(tokens@) + Seq::<TokenView>::empty() =~= token_views(tokens@));
    Ok(tokens)
}

} // verus!
