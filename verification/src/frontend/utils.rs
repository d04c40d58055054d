//! Source spans and the error value shared by every stage.
use crate::frontend::text::{
    byte_offset, characters_with_offsets, lemma_byte_offset_of_prefix, offsets_of, push_char,
};
use vstd::prelude::*;
use vstd::string::StringExecFns;

verus! {

/// A half-open interval `[starting_index, ending_index)` of byte offsets
/// into the source text, as UTF-8.
#[derive(Debug, PartialEq, Eq, Structural, Clone, Copy)]
pub struct TextSpan {
    pub starting_index: usize,
    pub ending_index: usize,
}

impl TextSpan {
    pub fn new(starting_index: usize, ending_index: usize) -> (span: Self)
        ensures
            span.starting_index == starting_index,
            span.ending_index == ending_index,
    {
        Self { starting_index, ending_index }
    }

    /// The span that runs from where `starting_span` starts to where
    /// `ending_span` ends.
    pub open spec fn joined(starting_span: Self, ending_span: Self) -> Self {
        TextSpan {
            starting_index: starting_span.starting_index,
            ending_index: ending_span.ending_index,
        }
    }

    /// Whether every offset of `inner` lies inside `self`.
    pub open spec fn covers(self, inner: Self) -> bool {
        self.starting_index <= inner.starting_index && inner.ending_index <= self.ending_index
    }

    pub fn add(starting_span: Self, ending_span: Self) -> (span: Self)
        ensures
            span == Self::joined(starting_span, ending_span),
    {
        Self {
            starting_index: starting_span.starting_index,
            ending_index: ending_span.ending_index,
        }
    }
}

/// The view of an [`Error`], of which the contracts speak: its message as a
/// sequence of characters, and its span.
pub struct ErrorView {
    pub message: Seq<char>,
    pub text_span: TextSpan,
}

/// A failure of any stage: a message for the reader and the span of source
/// text that caused it.
#[derive(Debug, PartialEq, Eq)]
pub struct Error {
    pub message: String,
    pub text_span: TextSpan,
}

impl View for Error {
    type V = ErrorView;

    open spec fn view(&self) -> ErrorView {
        ErrorView { message: self.message@, text_span: self.text_span }
    }
}

impl Clone for Error {
    fn clone(&self) -> (copy: Self)
        ensures
            copy == *self,
    {
        Error { message: self.message.clone(), text_span: self.text_span }
    }
}

/// Line and column, both counted from 1, reached after reading the first
/// `count` characters of `source`: a newline starts a new line at column 1,
/// any other character moves one column on.
pub open spec fn line_column(source: Seq<char>, count: int) -> (int, int)
    decreases count,
{
    if count <= 0 || count > source.len() {
        (1, 1)
    } else {
        let (line, column) = line_column(source, count - 1);
        if source[count - 1] == '\n' {
            (line + 1, 1)
        } else {
            (line, column + 1)
        }
    }
}

/// The number of characters of `source`, from `from` on, that start before
/// the byte offset `offset`, added to `from`.
pub open spec fn characters_before(source: Seq<char>, offset: int, from: int) -> int
    decreases source.len() - from,
{
    if from < 0 || from >= source.len() || byte_offset(source, from) >= offset {
        from
    } else {
        characters_before(source, offset, from + 1)
    }
}

/// Line and column of the byte offset `offset` in `source`: those reached
/// after reading the characters that start before it. An offset past the
/// end is placed right after the last character.
pub open spec fn position_of(source: Seq<char>, offset: int) -> (int, int) {
    line_column(source, characters_before(source, offset, 0))
}

/// The character that stands for a digit.
pub open spec fn digit_char(digit: int) -> char {
    if digit == 0 {
        '0'
    } else if digit == 1 {
        '1'
    } else if digit == 2 {
        '2'
    } else if digit == 3 {
        '3'
    } else if digit == 4 {
        '4'
    } else if digit == 5 {
        '5'
    } else if digit == 6 {
        '6'
    } else if digit == 7 {
        '7'
    } else if digit == 8 {
        '8'
    } else {
        '9'
    }
}

/// A natural number written in decimal, without leading zeros.
pub open spec fn decimal(number: nat) -> Seq<char>
    decreases number,
{
    if number < 10 {
        seq![digit_char(number as int)]
    } else {
        decimal(number / 10).push(digit_char((number % 10) as int))
    }
}

/// What is printed for an error in `source`: the line and column where its
/// span starts, and on the next line its message.
pub open spec fn report_of(error: ErrorView, source: Seq<char>) -> Seq<char> {
    let place = position_of(source, error.text_span.starting_index as int);
    "[error in line: "@ + decimal(place.0 as nat) + ", column: "@ + decimal(place.1 as nat)
        + "]\nError: "@ + error.message
}

fn digit_of(digit: usize) -> (c: char)
    requires
        digit < 10,
    ensures
        c == digit_char(digit as int),
{
    if digit == 0 {
        '0'
    } else if digit == 1 {
        '1'
    } else if digit == 2 {
        '2'
    } else if digit == 3 {
        '3'
    } else if digit == 4 {
        '4'
    } else if digit == 5 {
        '5'
    } else if digit == 6 {
        '6'
    } else if digit == 7 {
        '7'
    } else if digit == 8 {
        '8'
    } else {
        '9'
    }
}

/// `number` written in decimal.
pub fn decimal_text(number: usize) -> (text: String)
    ensures
        text@ == decimal(number as nat),
    decreases number,
{
    if number < 10 {
        let mut text = String::new();
        push_char(&mut text, digit_of(number));
        assert(text@ =~= seq![digit_char(number as int)]);
        text
    } else {
        let mut text = decimal_text(number / 10);
        push_char(&mut text, digit_of(number % 10));
        text
    }
}

impl Error {
    pub fn new(message: String, text_span: TextSpan) -> (error: Self)
        ensures
            error.message == message,
            error.text_span == text_span,
    {
        Self { message, text_span }
    }

    /// Line and column, both counted from 1, at which this error's span
    /// starts in `source_code`.
    pub fn position(&self, source_code: &str) -> (place: (usize, usize))
        ensures
            (place.0 as int, place.1 as int) == position_of(
                source_code@,
                self.text_span.starting_index as int,
            ),
    {
        // The text as the lexer reads it, with its end mark: one character
        // longer than the source, so that counting from 1 stays in range.
        let mut text = String::from_str(source_code);
        text.append("\0");
        proof {
            reveal_strlit("\0");
            assert(text@ =~= source_code@.push('\0'));
        }
        let (chars, offsets) = characters_with_offsets(text.as_str());
        let length = chars.len() - 1;
        let start = self.text_span.starting_index;
        let mut line: usize = 1;
        let mut column: usize = 1;
        let mut index: usize = 0;
        proof {
            assert forall|i: int| 0 <= i <= length implies byte_offset(source_code@, i)
                == #[trigger] byte_offset(chars@, i) by {
                lemma_byte_offset_of_prefix(source_code@, chars@, i);
            }
        }
        while index < length && offsets[index] < start
            invariant
                chars@ == source_code@.push('\0'),
                offsets_of(chars@, offsets@),
                length == source_code@.len(),
                length < chars.len(),
                index <= length,
                forall|i: int|
                    0 <= i <= length ==> byte_offset(source_code@, i) == #[trigger] byte_offset(
                        chars@,
                        i,
                    ),
                characters_before(source_code@, start as int, 0) == characters_before(
                    source_code@,
                    start as int,
                    index as int,
                ),
                (line as int, column as int) == line_column(source_code@, index as int),
                1 <= line <= index + 1,
                1 <= column <= index + 1,
            decreases length - index,
        {
            if chars[index] == '\n' {
                line += 1;
                column = 1;
            } else {
                column += 1;
            }
            index += 1;
        }
        (line, column)
    }
}

impl Error {
    /// The text to print for this error in `source_code`: a line that
    /// names the line and column where the span starts, and a line with
    /// the message.
    pub fn report(&self, source_code: &str) -> (text: String)
        ensures
            text@ == report_of(self@, source_code@),
    {
        let place = self.position(source_code);
        let mut text = String::from_str("[error in line: ");
        text.append(decimal_text(place.0).as_str());
        text.append(", column: ");
        text.append(decimal_text(place.1).as_str());
        text.append("]\nError: ");
        text.append(self.message.as_str());
        text
    }
}

} // verus!
