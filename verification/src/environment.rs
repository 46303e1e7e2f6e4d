//! The variables that a line may refer to.

use vstd::prelude::*;

verus! {

/// Named values, as they stood when the line was read. Where a name occurs
/// more than once, its first binding counts.
#[derive(Debug, Clone, PartialEq, Eq)]
pub struct Environment {
    pub bindings: Vec<(String, String)>,
}

impl View for Environment {
    type V = Seq<(Seq<char>, Seq<char>)>;

    open spec fn view(&self) -> Seq<(Seq<char>, Seq<char>)> {
        self.bindings.deep_view()
    }
}

/// The value of the first binding of `name` at or behind index `i`.
pub open spec fn lookup_from(
    bindings: Seq<(Seq<char>, Seq<char>)>,
    name: Seq<char>,
    i: int,
) -> Option<Seq<char>>
    decreases bindings.len() - i,
{
    if i < 0 || i >= bindings.len() {
        None
    } else if bindings[i].0 == name {
        Some(bindings[i].1)
    } else {
        lookup_from(bindings, name, i + 1)
    }
}

/// The value bound to `name`, if there is one.
pub open spec fn lookup(bindings: Seq<(Seq<char>, Seq<char>)>, name: Seq<char>) -> Option<
    Seq<char>,
> {
    lookup_from(bindings, name, 0)
}

/// View of an optional text.
pub open spec fn view_text(t: Option<String>) -> Option<Seq<char>> {
    match t {
        Some(text) => Some(text@),
        None => None,
    }
}

impl Environment {
    /// An environment without bindings.
    pub fn new() -> (env: Environment)
        ensures
            env@ == Seq::<(Seq<char>, Seq<char>)>::empty(),
    {
        let env = Environment { bindings: Vec::new() };
        assert(env@ =~= Seq::<(Seq<char>, Seq<char>)>::empty());
        env
    }

    /// Adds a binding behind those that are there: it counts only where the
    /// name is not bound yet.
    pub fn bind(&mut self, name: String, value: String)
        ensures
            final(self)@ == old(self)@.push((name@, value@)),
    {
        self.bindings.push((name, value));
        assert(self@ =~= old(self)@.push((name@, value@)));
    }

    /// The value bound to `name`, if there is one.
    pub fn get(&self, name: &String) -> (value: Option<String>)
        ensures
            view_text(value) == lookup(self@, name@),
    {
        let mut i: usize = 0;
        while i < self.bindings.len()
            invariant
                i <= self.bindings.len(),
                lookup(self@, name@) == lookup_from(self@, name@, i as int),
            decreases self.bindings.len() - i,
        {
            assert(self@[i as int] == (self.bindings[i as int].0@, self.bindings[i as int].1@));
            if self.bindings[i].0 == *name {
                return Some(self.bindings[i].1.clone());
            }
            i += 1;
        }
        None
    }
}

} // verus!
