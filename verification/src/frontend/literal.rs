//! The value of a numeric literal.
//!
//! How a lexeme such as `2.5` becomes a double is not decided here: the
//! parser is handed a function that reads it, and asks only that the
//! function answers by the characters of the lexeme alone.
use crate::frontend::ast::Number;
use vstd::prelude::*;

verus! {

/// How the value of a numeric lexeme is found.
pub type Reading = spec_fn(Seq<char>) -> Option<Number>;

/// Whether `read`, asked for the number that some text with the characters
/// `lexeme` denotes, may answer `value`.
pub open spec fn read_gives<R: Fn(&str) -> Option<Number>>(
    read: &R,
    lexeme: Seq<char>,
    value: Option<Number>,
) -> bool {
    exists|text: &str| text@ == lexeme && #[trigger] read.ensures((text,), value)
}

/// The number that `read` finds in `lexeme`, or `None` where it finds none.
pub open spec fn number_read<R: Fn(&str) -> Option<Number>>(read: &R, lexeme: Seq<char>) -> Option<
    Number,
> {
    choose|value: Option<Number>| read_gives(read, lexeme, value)
}

/// `read` as a function on the characters of a lexeme.
pub open spec fn reader<R: Fn(&str) -> Option<Number>>(read: &R) -> spec_fn(Seq<char>) -> Option<
    Number,
> {
    |lexeme: Seq<char>| number_read(read, lexeme)
}

/// `read` can be asked about any text, and its answer depends on the
/// characters of the text alone.
pub open spec fn reads_by_text<R: Fn(&str) -> Option<Number>>(read: &R) -> bool {
    &&& forall|text: &str| #[trigger] read.requires((text,))
    &&& forall|text: &str, value: Option<Number>| #[trigger]
        read.ensures((text,), value) ==> value == number_read(read, text@)
}

} // verus!
