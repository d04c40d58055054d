//! The values that evaluation produces.
use crate::frontend::ast::Number;
use crate::runtime::number::{equal, numbers_equal, shower, shows_by_value};
use vstd::prelude::*;
use vstd::string::StringExecFns;

verus! {

/// The view of a [`Value`], of which the contracts speak. An object is the
/// sequence of its fields, each a name and a value; the first field of a
/// name is the one that counts.
pub enum ValueView {
    Object(Seq<(Seq<char>, ValueView)>),
    String(Seq<char>),
    Number(Number),
    Boolean(bool),
    Nothing,
}

/// A value of the language. `Nothing` is the value that the literal `none`
/// denotes.
#[derive(Debug)]
pub enum Value {
    Object(Vec<(String, Value)>),
    String(String),
    Number(Number),
    Boolean(bool),
    Nothing,
}

/// The view of a value: the same value, with every string replaced by its
/// characters.
pub open spec fn value_view(value: Value) -> ValueView
    decreases value,
{
    match value {
        Value::Object(fields) => ValueView::Object(field_views(fields@)),
        Value::String(text) => ValueView::String(text@),
        Value::Number(number) => ValueView::Number(number),
        Value::Boolean(truth) => ValueView::Boolean(truth),
        Value::Nothing => ValueView::Nothing,
    }
}

/// The views of an object's fields, one for one.
pub open spec fn field_views(fields: Seq<(String, Value)>) -> Seq<(Seq<char>, ValueView)>
    decreases fields,
{
    if fields.len() == 0 {
        Seq::empty()
    } else {
        field_views(fields.drop_last()).push((fields.last().0@, value_view(fields.last().1)))
    }
}

impl View for Value {
    type V = ValueView;

    open spec fn view(&self) -> ValueView {
        value_view(*self)
    }
}

/// The views of fields are as many as the fields, and each is the view
/// of the field at its place.
pub proof fn lemma_field_views(fields: Seq<(String, Value)>)
    ensures
        field_views(fields).len() == fields.len(),
        forall|i: int|
            0 <= i < fields.len() ==> (#[trigger] field_views(fields)[i]) == (
                fields[i].0@,
                fields[i].1@,
            ),
    decreases fields.len(),
{
    if fields.len() > 0 {
        lemma_field_views(fields.drop_last());
    }
}

/// The offset of the first field of `fields` that is named `name`, at or
/// after `from`; the length of `fields` if there is none.
pub open spec fn field_index(fields: Seq<(Seq<char>, ValueView)>, name: Seq<char>, from: int) -> int
    decreases fields.len() - from,
{
    if from < 0 || from >= fields.len() {
        fields.len() as int
    } else if fields[from].0 == name {
        from
    } else {
        field_index(fields, name, from + 1)
    }
}

/// The first offset of a name lies between where the search starts and
/// the end, and where it lies before the end, the name stands there.
pub proof fn lemma_field_index(fields: Seq<(Seq<char>, ValueView)>, name: Seq<char>, from: int)
    requires
        0 <= from <= fields.len(),
    ensures
        from <= field_index(fields, name, from) <= fields.len(),
        field_index(fields, name, from) < fields.len() ==> fields[field_index(
            fields,
            name,
            from,
        )].0 == name,
    decreases fields.len() - from,
{
    if from < fields.len() && fields[from].0 != name {
        lemma_field_index(fields, name, from + 1);
    }
}

/// The value of the field `name` of an object, if it has one.
pub open spec fn field(fields: Seq<(Seq<char>, ValueView)>, name: Seq<char>) -> Option<ValueView> {
    let index = field_index(fields, name, 0);
    if index < fields.len() {
        Some(fields[index].1)
    } else {
        None
    }
}

/// The fields of an object after `name` is set to `value`: a field of that
/// name is overwritten where it stands, a new name is added at the end.
pub open spec fn with_field(
    fields: Seq<(Seq<char>, ValueView)>,
    name: Seq<char>,
    value: ValueView,
) -> Seq<(Seq<char>, ValueView)> {
    let index = field_index(fields, name, 0);
    if index < fields.len() {
        fields.update(index, (name, value))
    } else {
        fields.push((name, value))
    }
}

/// Equality of values, as `==` of the language has it. Values of different
/// sorts are never equal; numbers are equal as doubles are; two objects
/// are equal where they have the same names and, under each name, equal
/// values.
pub open spec fn values_equal(left: ValueView, right: ValueView) -> bool
    decreases left,
{
    match (left, right) {
        (ValueView::Object(mine), ValueView::Object(theirs)) => fields_within(
            mine,
            theirs,
            mine.len() as int,
        ) && names_within(theirs, mine),
        (ValueView::String(a), ValueView::String(b)) => a == b,
        (ValueView::Number(a), ValueView::Number(b)) => numbers_equal(a, b),
        (ValueView::Boolean(a), ValueView::Boolean(b)) => a == b,
        (ValueView::Nothing, ValueView::Nothing) => true,
        _ => false,
    }
}

/// Whether each of the first `count` fields of `mine` that counts, being
/// the first of its name, has a field of its name in `theirs`, with an
/// equal value.
pub open spec fn fields_within(
    mine: Seq<(Seq<char>, ValueView)>,
    theirs: Seq<(Seq<char>, ValueView)>,
    count: int,
) -> bool
    decreases mine, count,
{
    if count <= 0 || count > mine.len() {
        true
    } else {
        fields_within(mine, theirs, count - 1) && (field_index(mine, mine[count - 1].0, 0) == count
            - 1 ==> match field(theirs, mine[count - 1].0) {
            Some(other) => values_equal(mine[count - 1].1, other),
            None => false,
        })
    }
}

/// Whether every name of `theirs` is a name of `mine`.
pub open spec fn names_within(
    theirs: Seq<(Seq<char>, ValueView)>,
    mine: Seq<(Seq<char>, ValueView)>,
) -> bool {
    forall|i: int| 0 <= i < theirs.len() ==> field(mine, #[trigger] theirs[i].0) is Some
}

/// How a value is written out. An object with no field is `{}`; any other
/// object is a `{` line, one line `  name : value` for each field, and
/// `}`. A string is its characters, a number is what `show` makes of it.
pub open spec fn rendered(value: ValueView, show: spec_fn(Number) -> Seq<char>) -> Seq<char>
    decreases value,
{
    match value {
        ValueView::Object(fields) => if fields.len() == 0 {
            "{}"@
        } else {
            "{\n"@ + rendered_fields(fields, fields.len() as int, show) + "}"@
        },
        ValueView::String(text) => text,
        ValueView::Number(number) => show(number),
        ValueView::Boolean(truth) => if truth {
            "true"@
        } else {
            "false"@
        },
        ValueView::Nothing => "none"@,
    }
}

/// The lines of the first `count` fields of an object.
pub open spec fn rendered_fields(
    fields: Seq<(Seq<char>, ValueView)>,
    count: int,
    show: spec_fn(Number) -> Seq<char>,
) -> Seq<char>
    decreases fields, count,
{
    if count <= 0 || count > fields.len() {
        Seq::empty()
    } else {
        rendered_fields(fields, count - 1, show) + "  "@ + fields[count - 1].0 + " : "@ + rendered(
            fields[count - 1].1,
            show,
        ) + "\n"@
    }
}

/// The offset of the first field named `name`, or the number of fields if
/// there is none.
pub fn find_field(fields: &Vec<(String, Value)>, name: &str) -> (index: usize)
    ensures
        index == field_index(field_views(fields@), name@, 0),
        index <= fields.len(),
{
    let wanted = String::from_str(name);
    let mut index: usize = 0;
    proof {
        lemma_field_views(fields@);
    }
    while index < fields.len()
        invariant
            index <= fields.len(),
            wanted@ == name@,
            field_views(fields@).len() == fields.len(),
            forall|i: int|
                0 <= i < fields.len() ==> (#[trigger] field_views(fields@)[i]) == (
                    fields[i].0@,
                    fields[i].1@,
                ),
            field_index(field_views(fields@), name@, 0) == field_index(
                field_views(fields@),
                name@,
                index as int,
            ),
        decreases fields.len() - index,
    {
        if fields[index].0 == wanted {
            return index;
        }
        index += 1;
    }
    index
}

/// Sets the field `name` to `value`: overwrites the first field of that
/// name, or adds one at the end.
pub fn set_field(fields: &mut Vec<(String, Value)>, name: String, value: Value)
    ensures
        field_views(final(fields)@) == with_field(field_views(old(fields)@), name@, value@),
{
    let index = find_field(fields, name.as_str());
    proof {
        lemma_field_views(fields@);
    }
    let ghost before = fields@;
    if index < fields.len() {
        fields.set(index, (name, value));
        proof {
            lemma_field_views(fields@);
            assert(field_views(fields@) =~= field_views(before).update(
                index as int,
                (name@, value@),
            ));
        }
    } else {
        fields.push((name, value));
        proof {
            assert(fields@.drop_last() =~= before);
        }
    }
}

impl Clone for Value {
    /// A copy that shares nothing with the value.
    fn clone(&self) -> (copy: Self)
        ensures
            copy@ == self@,
        decreases *self,
    {
        match self {
            Value::Object(fields) => {
                let mut copies: Vec<(String, Value)> = Vec::new();
                let mut i: usize = 0;
                while i < fields.len()
                    invariant
                        i <= fields.len(),
                        copies.len() == i,
                        *self == Value::Object(*fields),
                        forall|j: int|
                            0 <= j < i ==> (#[trigger] copies[j]).0@ == fields[j].0@
                                && copies[j].1@ == fields[j].1@,
                    decreases fields.len() - i,
                {
                    let field = &fields[i];
                    assert(decreases_to!(*self => self->Object_0));
                    assert(decreases_to!(*fields => fields[i as int]));
                    assert(decreases_to!(fields[i as int] => fields[i as int].1));
                    copies.push((field.0.clone(), field.1.clone()));
                    i += 1;
                }
                proof {
                    lemma_field_views(fields@);
                    lemma_field_views(copies@);
                    assert(field_views(copies@) =~= field_views(fields@));
                }
                Value::Object(copies)
            },
            Value::String(text) => Value::String(text.clone()),
            Value::Number(number) => Value::Number(*number),
            Value::Boolean(truth) => Value::Boolean(*truth),
            Value::Nothing => Value::Nothing,
        }
    }
}

impl Value {
    /// Whether `self` and `other` are equal as `==` of the language has it.
    pub fn same(&self, other: &Value) -> (yes: bool)
        ensures
            yes == values_equal(self@, other@),
        decreases *self,
    {
        match (self, other) {
            (Value::Object(mine), Value::Object(theirs)) => {
                proof {
                    lemma_field_views(mine@);
                    lemma_field_views(theirs@);
                }
                let mut count: usize = 0;
                while count < mine.len()
                    invariant
                        count <= mine.len(),
                        *self == Value::Object(*mine),
                        *other == Value::Object(*theirs),
                        field_views(mine@).len() == mine.len(),
                        field_views(theirs@).len() == theirs.len(),
                        forall|i: int|
                            0 <= i < mine.len() ==> (#[trigger] field_views(mine@)[i]) == (
                                mine[i].0@,
                                mine[i].1@,
                            ),
                        forall|i: int|
                            0 <= i < theirs.len() ==> (#[trigger] field_views(theirs@)[i]) == (
                                theirs[i].0@,
                                theirs[i].1@,
                            ),
                        fields_within(field_views(mine@), field_views(theirs@), count as int),
                    decreases mine.len() - count,
                {
                    let field = &mine[count];
                    if find_field(mine, field.0.as_str()) != count {
                        count += 1;
                        continue ;
                    }
                    let index = find_field(theirs, field.0.as_str());
                    if index >= theirs.len() {
                        assert(!fields_within(
                            field_views(mine@),
                            field_views(theirs@),
                            count + 1,
                        ));
                        proof {
                            lemma_fields_within_shrinks(
                                field_views(mine@),
                                field_views(theirs@),
                                count + 1,
                            );
                        }
                        return false;
                    }
                    if !field.1.same(&theirs[index].1) {
                        assert(!fields_within(
                            field_views(mine@),
                            field_views(theirs@),
                            count + 1,
                        ));
                        proof {
                            lemma_fields_within_shrinks(
                                field_views(mine@),
                                field_views(theirs@),
                                count + 1,
                            );
                        }
                        return false;
                    }
                    count += 1;
                }
                let mut seen: usize = 0;
                while seen < theirs.len()
                    invariant
                        seen <= theirs.len(),
                        *self == Value::Object(*mine),
                        *other == Value::Object(*theirs),
                        fields_within(field_views(mine@), field_views(theirs@), mine.len() as int),
                        field_views(mine@).len() == mine.len(),
                        field_views(theirs@).len() == theirs.len(),
                        forall|i: int|
                            0 <= i < theirs.len() ==> (#[trigger] field_views(theirs@)[i]) == (
                                theirs[i].0@,
                                theirs[i].1@,
                            ),
                        forall|i: int|
                            0 <= i < seen ==> field(
                                field_views(mine@),
                                (#[trigger] field_views(theirs@)[i]).0,
                            ) is Some,
                    decreases theirs.len() - seen,
                {
                    if find_field(mine, theirs[seen].0.as_str()) >= mine.len() {
                        assert(field(field_views(mine@), field_views(theirs@)[seen as int].0)
                            is None);
                        return false;
                    }
                    seen += 1;
                }
                true
            },
            (Value::String(a), Value::String(b)) => *a == *b,
            (Value::Number(a), Value::Number(b)) => equal(*a, *b),
            (Value::Boolean(a), Value::Boolean(b)) => *a == *b,
            (Value::Nothing, Value::Nothing) => true,
            _ => false,
        }
    }

    /// The value written out, with numbers printed by `show`.
    pub fn text<S: Fn(Number) -> String>(&self, show: &S) -> (text: String)
        requires
            shows_by_value(show),
        ensures
            text@ == rendered(self@, shower(show)),
        decreases *self,
    {
        match self {
            Value::Object(fields) => {
                if fields.len() == 0 {
                    return String::from_str("{}");
                }
                proof {
                    lemma_field_views(fields@);
                }
                let mut text = String::from_str("{\n");
                let mut count: usize = 0;
                while count < fields.len()
                    invariant
                        count <= fields.len(),
                        shows_by_value(show),
                        *self == Value::Object(*fields),
                        field_views(fields@).len() == fields.len(),
                        forall|i: int|
                            0 <= i < fields.len() ==> (#[trigger] field_views(fields@)[i]) == (
                                fields[i].0@,
                                fields[i].1@,
                            ),
                        text@ == "{\n"@ + rendered_fields(
                            field_views(fields@),
                            count as int,
                            shower(show),
                        ),
                    decreases fields.len() - count,
                {
                    let ghost before = text@;
                    let field = &fields[count];
                    assert(decreases_to!(*self => self->Object_0));
                    assert(decreases_to!(*fields => fields[count as int]));
                    assert(decreases_to!(fields[count as int] => fields[count as int].1));
                    let inner = field.1.text(show);
                    text.append("  ");
                    text.append(field.0.as_str());
                    text.append(" : ");
                    text.append(inner.as_str());
                    text.append("\n");
                    count += 1;
                    proof {
                        let lines = rendered_fields(
                            field_views(fields@),
                            count - 1,
                            shower(show),
                        );
                        assert(text@ =~= "{\n"@ + (lines + "  "@ + field.0@ + " : "@ + inner@
                            + "\n"@));
                    }
                }
                text.append("}");
                text
            },
            Value::String(text) => text.clone(),
            Value::Number(number) => show(*number),
            Value::Boolean(truth) => if *truth {
                String::from_str("true")
            } else {
                String::from_str("false")
            },
            Value::Nothing => String::from_str("none"),
        }
    }
}

/// Once some of the first fields have no equal on the other side, taking
/// more fields does not mend it.
pub proof fn lemma_fields_within_shrinks(
    mine: Seq<(Seq<char>, ValueView)>,
    theirs: Seq<(Seq<char>, ValueView)>,
    count: int,
)
    requires
        0 <= count <= mine.len(),
        !fields_within(mine, theirs, count),
    ensures
        !fields_within(mine, theirs, mine.len() as int),
    decreases mine.len() - count,
{
    if count < mine.len() {
        lemma_fields_within_shrinks(mine, theirs, count + 1);
    }
}

impl PartialEq for Value {
    fn eq(&self, other: &Self) -> (yes: bool) {
        self.same(other)
    }
}

impl vstd::std_specs::cmp::PartialEqSpecImpl for Value {
    open spec fn obeys_eq_spec() -> bool {
        true
    }

    open spec fn eq_spec(&self, other: &Self) -> bool {
        values_equal(self@, other@)
    }
}

/// Where a name first stands among the fields depends on the names alone.
pub proof fn lemma_field_index_by_names(
    before: Seq<(Seq<char>, ValueView)>,
    after: Seq<(Seq<char>, ValueView)>,
    name: Seq<char>,
    from: int,
)
    requires
        before.len() == after.len(),
        forall|i: int| 0 <= i < before.len() ==> before[i].0 == after[i].0,
    ensures
        field_index(after, name, from) == field_index(before, name, from),
    decreases before.len() - from,
{
    if 0 <= from < before.len() && before[from].0 != name {
        lemma_field_index_by_names(before, after, name, from + 1);
    }
}

/// Where a name first stands after one more field is added at the end.
pub proof fn lemma_field_index_after_push(
    fields: Seq<(Seq<char>, ValueView)>,
    added: (Seq<char>, ValueView),
    name: Seq<char>,
    from: int,
)
    requires
        0 <= from <= fields.len(),
    ensures
        field_index(fields.push(added), name, from) == if field_index(fields, name, from)
            < fields.len() {
            field_index(fields, name, from)
        } else if added.0 == name {
            fields.len() as int
        } else {
            fields.len() as int + 1
        },
    decreases fields.len() - from,
{
    let longer = fields.push(added);
    lemma_field_index(fields, name, from);
    if from < fields.len() {
        assert(longer[from] == fields[from]);
        if fields[from].0 != name {
            lemma_field_index_after_push(fields, added, name, from + 1);
        }
    } else {
        assert(longer[from] == added);
        if added.0 != name {
            assert(field_index(longer, name, from + 1) == longer.len());
        }
    }
}

/// An object in which a field was set has that field with that value, and
/// every other field as before: the last write of a name wins.
pub proof fn lemma_with_field(
    fields: Seq<(Seq<char>, ValueView)>,
    name: Seq<char>,
    value: ValueView,
    other: Seq<char>,
)
    ensures
        field(with_field(fields, name, value), other) == if other == name {
            Some(value)
        } else {
            field(fields, other)
        },
{
    let index = field_index(fields, name, 0);
    lemma_field_index(fields, name, 0);
    lemma_field_index(fields, other, 0);
    lemma_field_index_after_push(fields, (name, value), name, 0);
    lemma_field_index_after_push(fields, (name, value), other, 0);
    if index < fields.len() {
        let after = fields.update(index, (name, value));
        lemma_field_index_by_names(fields, after, other, 0);
    } else {
        let after = fields.push((name, value));
        if field_index(fields, other, 0) < fields.len() {
            assert(after[field_index(fields, other, 0)] == fields[field_index(fields, other, 0)]);
        }
    }
}

/// A name that stands at `at` is first found at `at` or before.
pub proof fn lemma_field_index_finds(
    fields: Seq<(Seq<char>, ValueView)>,
    name: Seq<char>,
    from: int,
    at: int,
)
    requires
        0 <= from <= at < fields.len(),
        fields[at].0 == name,
    ensures
        from <= field_index(fields, name, from) <= at,
    decreases at - from,
{
    if fields[from].0 != name {
        lemma_field_index_finds(fields, name, from + 1, at);
    }
}

/// What [`fields_within`] says of the first `count` fields, it says of each
/// of them.
pub proof fn lemma_fields_within_at(
    mine: Seq<(Seq<char>, ValueView)>,
    theirs: Seq<(Seq<char>, ValueView)>,
    count: int,
    at: int,
)
    requires
        0 <= at < count <= mine.len(),
        fields_within(mine, theirs, count),
        field_index(mine, mine[at].0, 0) == at,
    ensures
        field(theirs, mine[at].0) matches Some(other) && values_equal(mine[at].1, other),
    decreases count,
{
    if at < count - 1 {
        lemma_fields_within_at(mine, theirs, count - 1, at);
    }
}

/// Whether two objects have the same names and, under each name, equal
/// values.
pub open spec fn same_mapping(
    mine: Seq<(Seq<char>, ValueView)>,
    theirs: Seq<(Seq<char>, ValueView)>,
) -> bool {
    forall|name: Seq<char>|
        match (#[trigger] field(mine, name), field(theirs, name)) {
            (Some(a), Some(b)) => values_equal(a, b),
            (None, None) => true,
            _ => false,
        }
}

/// Equality of objects is equality of mappings: it asks only which value
/// each name has, not where the fields stand.
pub proof fn lemma_objects_equal_as_mappings(
    mine: Seq<(Seq<char>, ValueView)>,
    theirs: Seq<(Seq<char>, ValueView)>,
)
    ensures
        values_equal(ValueView::Object(mine), ValueView::Object(theirs)) == same_mapping(
            mine,
            theirs,
        ),
{
    if values_equal(ValueView::Object(mine), ValueView::Object(theirs)) {
        assert forall|name: Seq<char>|
            match (#[trigger] field(mine, name), field(theirs, name)) {
                (Some(a), Some(b)) => values_equal(a, b),
                (None, None) => true,
                _ => false,
            } by {
            lemma_field_index(mine, name, 0);
            lemma_field_index(theirs, name, 0);
            let at = field_index(mine, name, 0);
            if at < mine.len() {
                lemma_fields_within_at(mine, theirs, mine.len() as int, at);
            } else {
                let other = field_index(theirs, name, 0);
                if other < theirs.len() {
                    assert(field(mine, theirs[other].0) is Some);
                }
            }
        }
    }
    if same_mapping(mine, theirs) {
        lemma_same_mapping_fields_within(mine, theirs, mine.len() as int);
        assert forall|i: int| 0 <= i < theirs.len() implies field(
            mine,
            #[trigger] theirs[i].0,
        ) is Some by {
            lemma_field_index_finds(theirs, theirs[i].0, 0, i);
            assert(field(theirs, theirs[i].0) is Some);
            assert(field(mine, theirs[i].0) is Some);
        }
    }
}

/// Objects that are the same mapping agree on every field that counts.
pub proof fn lemma_same_mapping_fields_within(
    mine: Seq<(Seq<char>, ValueView)>,
    theirs: Seq<(Seq<char>, ValueView)>,
    count: int,
)
    requires
        same_mapping(mine, theirs),
        0 <= count <= mine.len(),
    ensures
        fields_within(mine, theirs, count),
    decreases count,
{
    if count > 0 {
        lemma_same_mapping_fields_within(mine, theirs, count - 1);
        let name = mine[count - 1].0;
        if field_index(mine, name, 0) == count - 1 {
            assert(field(mine, name) == Some(mine[count - 1].1));
        }
    }
}

} // verus!
