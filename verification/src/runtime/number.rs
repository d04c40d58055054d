//! Numbers and the arithmetic that the language borrows.
//!
//! A number is the bit pattern of an IEEE 754 double. What can be said of
//! such a pattern in a few lines is computed here: negation, the test for
//! zero, equality and order. The four rounded operations and printing are
//! handed in by the caller as functions; the language asks only that each
//! answers by its arguments alone.
use crate::frontend::ast::Number;
use vstd::prelude::*;

verus! {

/// The four operations whose results are rounded.
#[derive(Debug, PartialEq, Eq, Structural, Clone, Copy)]
pub enum Operation {
    Add,
    Subtract,
    Multiply,
    Divide,
}

/// What `apply` returns for `operation` on `left` and `right`.
pub open spec fn applied<A: Fn(Operation, Number, Number) -> Number>(
    apply: &A,
    operation: Operation,
    left: Number,
    right: Number,
) -> Number {
    choose|value: Number| apply.ensures((operation, left, right), value)
}

/// `apply` as a function on its three arguments.
pub open spec fn applier<A: Fn(Operation, Number, Number) -> Number>(apply: &A) -> spec_fn(
    Operation,
    Number,
    Number,
) -> Number {
    |operation: Operation, left: Number, right: Number| applied(apply, operation, left, right)
}

/// `apply` can be asked about any operation and operands, and its answer
/// depends on them alone.
pub open spec fn applies_by_value<A: Fn(Operation, Number, Number) -> Number>(apply: &A) -> bool {
    &&& forall|operation: Operation, left: Number, right: Number| #[trigger]
        apply.requires((operation, left, right))
    &&& forall|operation: Operation, left: Number, right: Number, value: Number| #[trigger]
        apply.ensures((operation, left, right), value) ==> value == applied(
            apply,
            operation,
            left,
            right,
        )
}

/// Whether `show`, asked to print `number`, may answer a string with the
/// characters `text`.
pub open spec fn show_gives<S: Fn(Number) -> String>(show: &S, number: Number, text: Seq<char>)
    -> bool {
    exists|printed: String| printed@ == text && #[trigger] show.ensures((number,), printed)
}

/// How `show` prints `number`.
pub open spec fn number_shown<S: Fn(Number) -> String>(show: &S, number: Number) -> Seq<char> {
    choose|text: Seq<char>| show_gives(show, number, text)
}

/// `show` as a function from a number to its text.
pub open spec fn shower<S: Fn(Number) -> String>(show: &S) -> spec_fn(Number) -> Seq<char> {
    |number: Number| number_shown(show, number)
}

/// `show` can be asked about any number, and its answer depends on the
/// number alone.
pub open spec fn shows_by_value<S: Fn(Number) -> String>(show: &S) -> bool {
    &&& forall|number: Number| #[trigger] show.requires((number,))
    &&& forall|number: Number, printed: String| #[trigger]
        show.ensures((number,), printed) ==> printed@ == number_shown(show, number)
}

/// The sign bit of a double.
pub const SIGN_BIT: u64 = 0x8000_0000_0000_0000;

/// Every bit of a double but the sign.
pub const MAGNITUDE_BITS: u64 = 0x7FFF_FFFF_FFFF_FFFF;

/// The magnitude of infinity: every exponent bit set, no fraction bit.
pub const INFINITY_MAGNITUDE: u64 = 0x7FF0_0000_0000_0000;

/// Exponent and fraction of `number`, as an integer.
pub open spec fn magnitude(number: Number) -> u64 {
    number & MAGNITUDE_BITS
}

/// Whether the sign bit of `number` is set.
pub open spec fn is_negative(number: Number) -> bool {
    number & SIGN_BIT != 0
}

/// Whether `number` is one of the patterns that are not a number.
pub open spec fn is_nan(number: Number) -> bool {
    magnitude(number) > INFINITY_MAGNITUDE
}

/// Whether `number` is zero, of either sign.
pub open spec fn is_zero(number: Number) -> bool {
    magnitude(number) == 0
}

/// `number` with its sign flipped.
pub open spec fn negated(number: Number) -> Number {
    number ^ SIGN_BIT
}

/// Where `number` stands on the line of doubles: its magnitude, counted
/// downwards from zero where the sign is set. Both zeros stand at 0.
pub open spec fn place(number: Number) -> int {
    if is_negative(number) {
        -(magnitude(number) as int)
    } else {
        magnitude(number) as int
    }
}

/// Equality of doubles: neither is NaN, and they stand at the same place.
pub open spec fn numbers_equal(left: Number, right: Number) -> bool {
    !is_nan(left) && !is_nan(right) && place(left) == place(right)
}

/// Order of doubles: neither is NaN, and `left` stands before `right`.
pub open spec fn number_less(left: Number, right: Number) -> bool {
    !is_nan(left) && !is_nan(right) && place(left) < place(right)
}

/// Order or equality of doubles.
pub open spec fn number_at_most(left: Number, right: Number) -> bool {
    !is_nan(left) && !is_nan(right) && place(left) <= place(right)
}

/// Whether `number` is zero, of either sign.
pub fn zero(number: Number) -> (yes: bool)
    ensures
        yes == is_zero(number),
{
    number & MAGNITUDE_BITS == 0
}

/// `number` with its sign flipped.
pub fn negate(number: Number) -> (flipped: Number)
    ensures
        flipped == negated(number),
{
    number ^ SIGN_BIT
}

fn not_a_number(number: Number) -> (yes: bool)
    ensures
        yes == is_nan(number),
{
    number & MAGNITUDE_BITS > INFINITY_MAGNITUDE
}

/// Whether `left` stands before `right`, or, with `or_equal`, at the same
/// place.
fn stands_before(left: Number, right: Number, or_equal: bool) -> (yes: bool)
    ensures
        yes == if or_equal {
            place(left) <= place(right)
        } else {
            place(left) < place(right)
        },
{
    let a = left & MAGNITUDE_BITS;
    let b = right & MAGNITUDE_BITS;
    let a_negative = left & SIGN_BIT != 0;
    let b_negative = right & SIGN_BIT != 0;
    if a_negative {
        if b_negative {
            if or_equal {
                b <= a
            } else {
                b < a
            }
        } else if or_equal {
            true
        } else {
            a != 0 || b != 0
        }
    } else if b_negative {
        or_equal && a == 0 && b == 0
    } else if or_equal {
        a <= b
    } else {
        a < b
    }
}

/// Equality of two numbers as doubles.
pub fn equal(left: Number, right: Number) -> (yes: bool)
    ensures
        yes == numbers_equal(left, right),
{
    !not_a_number(left) && !not_a_number(right) && stands_before(left, right, true)
        && stands_before(right, left, true)
}

/// Whether `left` is less than `right` as doubles.
pub fn less(left: Number, right: Number) -> (yes: bool)
    ensures
        yes == number_less(left, right),
{
    !not_a_number(left) && !not_a_number(right) && stands_before(left, right, false)
}

/// Whether `left` is less than or equal to `right` as doubles.
pub fn at_most(left: Number, right: Number) -> (yes: bool)
    ensures
        yes == number_at_most(left, right),
{
    !not_a_number(left) && !not_a_number(right) && stands_before(left, right, true)
}

} // verus!
