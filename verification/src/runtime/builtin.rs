//! The bindings that every root scope starts with.
use crate::frontend::ast::Number;
use crate::runtime::types::{field_views, lemma_field_views, Value, ValueView};
use vstd::prelude::*;
use vstd::string::StringExecFns;

verus! {

/// The double nearest to the ratio of a circle's circumference to its
/// diameter.
pub const PI: Number = 0x4009_21FB_5444_2D18;

/// The double nearest to the base of the natural logarithm.
pub const E: Number = 0x4005_BF0A_8B14_5769;

/// The built-in names and their values: `fns`, which tells of the language
/// itself, and `math`, which holds the constants `pi` and `e`.
pub open spec fn builtin_view() -> Seq<(Seq<char>, ValueView)> {
    seq![
        ("fns"@, ValueView::Object(seq![("version"@, ValueView::String("0.0.1"@))])),
        (
            "math"@,
            ValueView::Object(seq![("pi"@, ValueView::Number(PI)), ("e"@, ValueView::Number(E))]),
        ),
    ]
}

/// The built-in names with their values.
pub fn get_builtin() -> (builtin: Vec<(String, Value)>)
    ensures
        field_views(builtin@) == builtin_view(),
{
    let mut language: Vec<(String, Value)> = Vec::new();
    language.push((String::from_str("version"), Value::String(String::from_str("0.0.1"))));
    let mut math: Vec<(String, Value)> = Vec::new();
    math.push((String::from_str("pi"), Value::Number(PI)));
    math.push((String::from_str("e"), Value::Number(E)));
    proof {
        lemma_field_views(language@);
        lemma_field_views(math@);
        assert(field_views(language@) =~= seq![("version"@, ValueView::String("0.0.1"@))]);
        assert(field_views(math@) =~= seq![
            ("pi"@, ValueView::Number(PI)),
            ("e"@, ValueView::Number(E)),
        ]);
    }
    let mut builtin: Vec<(String, Value)> = Vec::new();
    builtin.push((String::from_str("fns"), Value::Object(language)));
    builtin.push((String::from_str("math"), Value::Object(math)));
    proof {
        lemma_field_views(builtin@);
        assert(field_views(builtin@) =~= builtin_view());
    }
    builtin
}

} // verus!
