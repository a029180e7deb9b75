//! The store of named values that evaluations share.

use crate::decimal::{Decimal, DecimalView};
use vstd::prelude::*;

verus! {

/// The values that have been assigned to variables, by name. A name has a
/// value only once an assignment to it has been evaluated, and then the one
/// assigned last.
#[derive(Debug)]
pub struct EvalContext {
    variables: Vec<(String, Decimal)>,
}

impl EvalContext {
    #[verifier::type_invariant]
    spec fn names_differ(self) -> bool {
        forall|i: int, j: int|
            0 <= i < j < self.variables@.len() ==> self.variables@[i].0@ != self.variables@[j].0@
    }

    /// Whether the entry at `i` is the one of `name`.
    spec fn is_at(self, name: Seq<char>, i: int) -> bool {
        0 <= i < self.variables@.len() && self.variables@[i].0@ == name
    }

    /// Whether there is an entry of `name`.
    spec fn holds(self, name: Seq<char>) -> bool {
        exists|i: int| self.is_at(name, i)
    }

    /// Where the entry of `name` is.
    spec fn place(self, name: Seq<char>) -> int {
        choose|i: int| self.is_at(name, i)
    }
}

impl View for EvalContext {
    type V = Map<Seq<char>, DecimalView>;

    closed spec fn view(&self) -> Map<Seq<char>, DecimalView> {
        Map::new(
            |name: Seq<char>| self.holds(name),
            |name: Seq<char>| self.variables@[self.place(name)].1@,
        )
    }
}

impl EvalContext {
    /// A store without any variable.
    pub fn new() -> (r: EvalContext)
        ensures
            r@ == Map::<Seq<char>, DecimalView>::empty(),
    {
        let r = EvalContext { variables: Vec::new() };
        assert(r@ =~= Map::<Seq<char>, DecimalView>::empty());
        r
    }

    /// Where the entry of `name` is, if there is one.
    fn find(&self, name: &String) -> (r: Option<usize>)
        ensures
            match r {
                Some(i) => self.is_at(name@, i as int),
                None => !self.holds(name@),
            },
    {
        let mut i: usize = 0;
        while i < self.variables.len()
            invariant
                i <= self.variables@.len(),
                forall|k: int| 0 <= k < i ==> !self.is_at(name@, k),
            decreases self.variables@.len() - i,
        {
            if self.variables[i].0 == *name {
                return Some(i);
            }
            i += 1;
        }
        None
    }

    /// The value of the variable `name`, if one was assigned.
    pub fn get(&self, name: &String) -> (r: Option<&Decimal>)
        ensures
            match r {
                Some(value) => self@.contains_key(name@) && value@ == self@[name@],
                None => !self@.contains_key(name@),
            },
    {
        proof {
            use_type_invariant(self);
        }
        match self.find(name) {
            Some(i) => {
                assert(self.is_at(name@, self.place(name@)));
                Some(&self.variables[i].1)
            },
            None => None,
        }
    }

    /// Assigns `value` to the variable `name`, in place of any value it had.
    pub fn insert(&mut self, name: String, value: Decimal)
        ensures
            final(self)@ == old(self)@.insert(name@, value@),
    {
        proof {
            use_type_invariant(&*self);
        }
        let ghost before = *self;
        let ghost key = name@;
        let ghost content = value@;
        let found = self.find(&name);
        let mut variables: Vec<(String, Decimal)> = Vec::new();
        core::mem::swap(&mut self.variables, &mut variables);
        match found {
            Some(i) => {
                variables.set(i, (name, value));
            },
            None => {
                variables.push((name, value));
            },
        }
        proof {
            assert forall|a: int, b: int| 0 <= a < b < variables@.len() implies variables@[a].0@
                != variables@[b].0@ by {
                if found is Some {
                    assert(before.is_at(key, found->0 as int));
                    assert(variables@[a].0@ == before.variables@[a].0@);
                    assert(variables@[b].0@ == before.variables@[b].0@);
                } else if b == before.variables@.len() {
                    assert(!before.is_at(key, a));
                }
            }
        }
        core::mem::swap(&mut self.variables, &mut variables);
        proof {
            assert forall|k: Seq<char>, j: int|
                self.is_at(k, j) <==> (before.is_at(k, j) || (k == key && !before.holds(key) && j
                    == before.variables@.len())) by {
                if found is Some {
                    assert(before.is_at(key, found->0 as int));
                }
            }
            if found is None {
                assert(self.is_at(key, before.variables@.len() as int));
            }
            assert forall|k: Seq<char>| self.holds(k) <==> (before.holds(k) || k == key) by {
                if before.holds(k) {
                    assert(self.is_at(k, before.place(k)));
                }
                if self.holds(k) && k != key {
                    assert(before.is_at(k, self.place(k)));
                }
                if k == key {
                    if before.holds(k) {
                        assert(self.is_at(k, before.place(k)));
                    }
                }
            }
            assert forall|k: Seq<char>| self.holds(k) implies self.variables@[self.place(k)].1@
                == (if k == key {
                content
            } else {
                before.variables@[before.place(k)].1@
            }) by {
                let j = self.place(k);
                assert(self.is_at(k, j));
                if k != key {
                    assert(before.is_at(k, j));
                    assert(before.is_at(k, before.place(k)));
                }
            }
            assert(self@ =~= before@.insert(key, content));
        }
    }
}

impl Default for EvalContext {
    fn default() -> (r: EvalContext)
        ensures
            r@ == Map::<Seq<char>, DecimalView>::empty(),
    {
        EvalContext::new()
    }
}

} // verus!
