//! Scopes: chained frames of named bindings.
use crate::runtime::builtin::{builtin_view, get_builtin};
use crate::runtime::types::{lemma_field_views, field_views, Value, ValueView};
use vstd::prelude::*;
use vstd::string::StringExecFns;

verus! {

/// The view of a binding, of which the contracts speak: a name, its value,
/// and whether it may be assigned again.
pub struct BindingView {
    pub name: Seq<char>,
    pub value: ValueView,
    pub is_constant: bool,
}

/// The view of an [`Environment`], of which the contracts speak: the
/// bindings of the innermost frame, and the environment around it. The
/// first binding of a name in a frame is the one that counts.
pub struct EnvironmentView {
    pub parent: Option<Box<EnvironmentView>>,
    pub variables: Seq<BindingView>,
}

/// A frame of bindings and the frame around it, if any.
#[derive(Debug)]
pub struct Environment {
    pub parent: Box<Option<Environment>>,
    pub variables: Vec<(String, Value, bool)>,
}

/// The views of the bindings of a frame, one for one.
pub open spec fn binding_views(variables: Seq<(String, Value, bool)>) -> Seq<BindingView> {
    variables.map_values(
        |binding: (String, Value, bool)|
            BindingView { name: binding.0@, value: binding.1@, is_constant: binding.2 },
    )
}

/// The view of an environment: its frames, from the innermost outwards.
pub open spec fn environment_view(environment: Environment) -> EnvironmentView
    decreases environment,
{
    EnvironmentView {
        parent: match *environment.parent {
            Some(outer) => Some(Box::new(environment_view(outer))),
            None => None,
        },
        variables: binding_views(environment.variables@),
    }
}

impl View for Environment {
    type V = EnvironmentView;

    open spec fn view(&self) -> EnvironmentView {
        environment_view(*self)
    }
}

/// The view of an optional environment.
pub open spec fn optional_view(environment: Option<Environment>) -> Option<EnvironmentView> {
    match environment {
        Some(outer) => Some(outer@),
        None => None,
    }
}

/// The offset of the first binding of `name` at or after `from`; the
/// number of bindings if there is none.
pub open spec fn binding_index(variables: Seq<BindingView>, name: Seq<char>, from: int) -> int
    decreases variables.len() - from,
{
    if from < 0 || from >= variables.len() {
        variables.len() as int
    } else if variables[from].name == name {
        from
    } else {
        binding_index(variables, name, from + 1)
    }
}

/// The binding of `name` in one frame, if it has one.
pub open spec fn local_binding(variables: Seq<BindingView>, name: Seq<char>) -> Option<
    BindingView,
> {
    let index = binding_index(variables, name, 0);
    if index < variables.len() {
        Some(variables[index])
    } else {
        None
    }
}

/// The binding that `name` has in `environment`: the one in the innermost
/// frame that binds it.
pub open spec fn binding_in(environment: EnvironmentView, name: Seq<char>) -> Option<BindingView>
    decreases environment,
{
    match local_binding(environment.variables, name) {
        Some(binding) => Some(binding),
        None => match environment.parent {
            Some(outer) => binding_in(*outer, name),
            None => None,
        },
    }
}

/// The bindings of a frame after `binding` is made in it: a binding of
/// that name is overwritten where it stands, a new name is added at the
/// end.
pub open spec fn with_binding(variables: Seq<BindingView>, binding: BindingView) -> Seq<
    BindingView,
> {
    let index = binding_index(variables, binding.name, 0);
    if index < variables.len() {
        variables.update(index, binding)
    } else {
        variables.push(binding)
    }
}

/// `environment` after `name` is bound in its innermost frame. Outer
/// frames are left as they are.
pub open spec fn defined(
    environment: EnvironmentView,
    name: Seq<char>,
    value: ValueView,
    is_constant: bool,
) -> EnvironmentView {
    EnvironmentView {
        parent: environment.parent,
        variables: with_binding(environment.variables, BindingView { name, value, is_constant }),
    }
}

/// The built-in bindings, each of them constant.
pub open spec fn builtin_bindings() -> Seq<BindingView> {
    builtin_view().map_values(
        |entry: (Seq<char>, ValueView)|
            BindingView { name: entry.0, value: entry.1, is_constant: true },
    )
}

/// A new innermost frame. Around `parent` it is empty; without a parent it
/// is a root and holds the built-in bindings.
pub open spec fn fresh(parent: Option<EnvironmentView>) -> EnvironmentView {
    match parent {
        Some(outer) => EnvironmentView { parent: Some(Box::new(outer)), variables: Seq::empty() },
        None => EnvironmentView { parent: None, variables: builtin_bindings() },
    }
}

/// The offset of the first binding of `name`, or the number of bindings if
/// there is none.
fn find_binding(variables: &Vec<(String, Value, bool)>, name: &str) -> (index: usize)
    ensures
        index == binding_index(binding_views(variables@), name@, 0),
        index <= variables.len(),
{
    let wanted = String::from_str(name);
    let mut index: usize = 0;
    while index < variables.len()
        invariant
            index <= variables.len(),
            wanted@ == name@,
            binding_index(binding_views(variables@), name@, 0) == binding_index(
                binding_views(variables@),
                name@,
                index as int,
            ),
        decreases variables.len() - index,
    {
        if variables[index].0 == wanted {
            return index;
        }
        index += 1;
    }
    index
}

impl Clone for Environment {
    /// A copy that shares nothing with the environment.
    fn clone(&self) -> (copy: Self)
        ensures
            copy@ == self@,
        decreases *self,
    {
        let parent = match &*self.parent {
            Some(outer) => Some(outer.clone()),
            None => None,
        };
        let mut variables: Vec<(String, Value, bool)> = Vec::new();
        let mut i: usize = 0;
        while i < self.variables.len()
            invariant
                i <= self.variables.len(),
                variables.len() == i,
                forall|j: int|
                    0 <= j < i ==> (#[trigger] variables[j]).0@ == self.variables[j].0@
                        && variables[j].1@ == self.variables[j].1@ && variables[j].2
                        == self.variables[j].2,
            decreases self.variables.len() - i,
        {
            let binding = &self.variables[i];
            variables.push((binding.0.clone(), binding.1.clone(), binding.2));
            i += 1;
        }
        assert(binding_views(variables@) =~= binding_views(self.variables@));
        Environment { parent: Box::new(parent), variables }
    }
}

impl Environment {
    /// A new innermost frame around `parent`, or a root frame with the
    /// built-in bindings.
    pub fn new(parent: Option<Self>) -> (environment: Self)
        ensures
            environment@ == fresh(optional_view(parent)),
    {
        let mut variables: Vec<(String, Value, bool)> = Vec::new();
        if parent.is_none() {
            let mut builtin = get_builtin();
            proof {
                lemma_field_views(builtin@);
            }
            let ghost all = builtin@;
            while builtin.len() > 0
                invariant
                    builtin.len() + variables.len() == all.len(),
                    builtin@ == all.subrange(variables.len() as int, all.len() as int),
                    field_views(all) == builtin_view(),
                    field_views(all).len() == all.len(),
                    forall|j: int|
                        0 <= j < all.len() ==> (#[trigger] field_views(all)[j]) == (
                            all[j].0@,
                            all[j].1@,
                        ),
                    forall|j: int|
                        0 <= j < variables.len() ==> (#[trigger] variables[j]) == (
                            all[j].0,
                            all[j].1,
                            true,
                        ),
                decreases builtin.len(),
            {
                let entry = builtin.remove(0);
                variables.push((entry.0, entry.1, true));
                assert(builtin@ =~= all.subrange(variables.len() as int, all.len() as int));
            }
            assert(binding_views(variables@) =~= builtin_bindings());
        } else {
            assert(binding_views(variables@) =~= Seq::<BindingView>::empty());
        }
        Environment { parent: Box::new(parent), variables }
    }

    /// Binds `identifier` in the innermost frame, over any binding that the
    /// frame already has for it.
    pub fn define(&mut self, identifier: String, value: Value, is_constant: bool)
        ensures
            final(self)@ == defined(old(self)@, identifier@, value@, is_constant),
    {
        let index = find_binding(&self.variables, identifier.as_str());
        let ghost before = binding_views(self.variables@);
        let ghost binding = BindingView { name: identifier@, value: value@, is_constant };
        if index < self.variables.len() {
            self.variables.set(index, (identifier, value, is_constant));
            assert(binding_views(self.variables@) =~= before.update(index as int, binding));
        } else {
            self.variables.push((identifier, value, is_constant));
            assert(binding_views(self.variables@) =~= before.push(binding));
        }
    }

    /// Whether `identifier` is bound as a constant, in the innermost frame
    /// that binds it; `None` where no frame does.
    pub fn is_constant(&self, identifier: &str) -> (constant: Option<bool>)
        ensures
            constant == match binding_in(self@, identifier@) {
                Some(binding) => Some(binding.is_constant),
                None => None,
            },
        decreases *self,
    {
        let index = find_binding(&self.variables, identifier);
        if index < self.variables.len() {
            Some(self.variables[index].2)
        } else {
            match &*self.parent {
                Some(environment) => environment.is_constant(identifier),
                None => None,
            }
        }
    }

    /// A copy of the value that `identifier` is bound to, in the innermost
    /// frame that binds it; `None` where no frame does.
    pub fn access(&self, identifier: &str) -> (value: Option<Value>)
        ensures
            match binding_in(self@, identifier@) {
                Some(binding) => value matches Some(found) && found@ == binding.value,
                None => value is None,
            },
        decreases *self,
    {
        let index = find_binding(&self.variables, identifier);
        if index < self.variables.len() {
            Some(self.variables[index].1.clone())
        } else {
            match &*self.parent {
                Some(environment) => environment.access(identifier),
                None => None,
            }
        }
    }
}

/// Where a name is first bound depends on the names alone.
pub proof fn lemma_binding_index_by_names(
    before: Seq<BindingView>,
    after: Seq<BindingView>,
    name: Seq<char>,
    from: int,
)
    requires
        before.len() == after.len(),
        forall|i: int| 0 <= i < before.len() ==> before[i].name == after[i].name,
    ensures
        binding_index(after, name, from) == binding_index(before, name, from),
    decreases before.len() - from,
{
    if 0 <= from < before.len() && before[from].name != name {
        lemma_binding_index_by_names(before, after, name, from + 1);
    }
}

/// Where a name is first bound after one more binding is added at the end.
pub proof fn lemma_binding_index_after_push(
    variables: Seq<BindingView>,
    binding: BindingView,
    name: Seq<char>,
    from: int,
)
    requires
        0 <= from <= variables.len(),
    ensures
        binding_index(variables.push(binding), name, from) == if binding_index(
            variables,
            name,
            from,
        ) < variables.len() {
            binding_index(variables, name, from)
        } else if binding.name == name {
            variables.len() as int
        } else {
            variables.len() as int + 1
        },
        from <= binding_index(variables, name, from) <= variables.len(),
        binding_index(variables, name, from) < variables.len() ==> variables[binding_index(
            variables,
            name,
            from,
        )].name == name,
    decreases variables.len() - from,
{
    let longer = variables.push(binding);
    if from < variables.len() {
        assert(longer[from] == variables[from]);
        if variables[from].name != name {
            lemma_binding_index_after_push(variables, binding, name, from + 1);
        }
    } else {
        assert(longer[from] == binding);
        if binding.name != name {
            assert(binding_index(longer, name, from + 1) == longer.len());
        }
    }
}

/// A frame in which a binding was made binds that name as it was bound,
/// and every other name as before.
pub proof fn lemma_with_binding(variables: Seq<BindingView>, binding: BindingView, name: Seq<char>)
    ensures
        local_binding(with_binding(variables, binding), name) == if name == binding.name {
            Some(binding)
        } else {
            local_binding(variables, name)
        },
{
    let index = binding_index(variables, binding.name, 0);
    lemma_binding_index_after_push(variables, binding, binding.name, 0);
    lemma_binding_index_after_push(variables, binding, name, 0);
    if index < variables.len() {
        let after = variables.update(index, binding);
        lemma_binding_index_by_names(variables, after, name, 0);
    } else {
        let after = variables.push(binding);
        if binding_index(variables, name, 0) < variables.len() {
            assert(after[binding_index(variables, name, 0)] == variables[binding_index(
                variables,
                name,
                0,
            )]);
        }
    }
}

/// What was defined is found: after `name` is bound in an environment,
/// looking `name` up gives that value and that flag, whatever the
/// environment held before.
pub proof fn lemma_defined_is_found(
    environment: EnvironmentView,
    name: Seq<char>,
    value: ValueView,
    is_constant: bool,
)
    ensures
        binding_in(defined(environment, name, value, is_constant), name) == Some(
            BindingView { name, value, is_constant },
        ),
{
    lemma_with_binding(environment.variables, BindingView { name, value, is_constant }, name);
}

/// Defining a name leaves every other name as it was.
pub proof fn lemma_defined_keeps_other_names(
    environment: EnvironmentView,
    name: Seq<char>,
    value: ValueView,
    is_constant: bool,
    other: Seq<char>,
)
    requires
        other != name,
    ensures
        binding_in(defined(environment, name, value, is_constant), other) == binding_in(
            environment,
            other,
        ),
{
    lemma_with_binding(environment.variables, BindingView { name, value, is_constant }, other);
}

/// A name that the innermost frame does not bind means in a new frame what
/// it meant outside: a new frame around an environment hides nothing.
pub proof fn lemma_fresh_frame_looks_outwards(outer: EnvironmentView, name: Seq<char>)
    ensures
        binding_in(fresh(Some(outer)), name) == binding_in(outer, name),
{
}

} // verus!
