//! Environments: the bindings of names to values that terms are evaluated in.

use crate::syntax::{Value, ValueView};
use vstd::prelude::*;
use vstd::set_lib::lemma_subset_equality;
use vstd::std_specs::cmp::PartialEqSpecImpl;

verus! {

/// A mapping from names to values. A name is bound at most once; binding a
/// name again replaces what it was bound to.
#[derive(Debug)]
pub struct Environment {
    entries: Vec<(String, Value)>,
}

/// The scope that a closure carries: the bindings in force where it was
/// made and, for a closure made by `label`, the name under which the closure
/// is bound to itself whenever it is applied.
#[derive(Debug)]
pub struct Scope {
    pub bindings: Environment,
    pub own_name: Option<String>,
}

/// The mathematical value of a [`Scope`].
pub struct ScopeView {
    pub bindings: Map<Seq<char>, ValueView>,
    pub own_name: Option<Seq<char>>,
}

/// The mapping that a list of bindings stands for. Where a name occurs more
/// than once, the first binding counts.
pub closed spec fn entries_model(entries: Seq<(String, Value)>) -> Map<Seq<char>, ValueView>
    decreases entries,
{
    if entries.len() == 0 {
        Map::empty()
    } else {
        entries_model(entries.drop_first()).insert(entries[0].0@, entries[0].1.model())
    }
}

impl Scope {
    /// The mathematical value of this scope.
    pub open spec fn model(&self) -> ScopeView
        decreases self,
    {
        ScopeView {
            bindings: self.bindings.model(),
            own_name: match self.own_name {
                Some(name) => Some(name@),
                None => None,
            },
        }
    }
}

impl View for Scope {
    type V = ScopeView;

    open spec fn view(&self) -> ScopeView {
        self.model()
    }
}

impl Environment {
    /// The mapping that this environment stands for.
    pub closed spec fn model(&self) -> Map<Seq<char>, ValueView>
        decreases self,
    {
        entries_model(self.entries@)
    }

    /// No two bindings have the same name.
    #[verifier::type_invariant]
    spec fn distinct(&self) -> bool {
        forall|i: int, j: int|
            0 <= i < j < self.entries@.len() ==> self.entries@[i].0@ != self.entries@[j].0@
    }

    /// An environment that binds nothing.
    pub fn new() -> (r: Self)
        ensures
            r@ == Map::<Seq<char>, ValueView>::empty(),
    {
        Environment { entries: Vec::new() }
    }

    /// The value that `name` is bound to, if it is bound.
    pub fn lookup(&self, name: &String) -> (r: Option<&Value>)
        ensures
            match r {
                Some(value) => self@.contains_key(name@) && value@ == self@[name@],
                None => !self@.contains_key(name@),
            },
    {
        proof {
            lemma_entries_model_lookup(self.entries@, name@);
        }
        match self.position(name) {
            Some(i) => Some(&self.entries[i].1),
            None => None,
        }
    }

    /// Binds `name` to `value`, in place of what it was bound to before, and
    /// returns what it was bound to before. No other binding changes, and
    /// none is ever taken away.
    pub fn extend(&mut self, name: String, value: Value) -> (r: Option<Value>)
        ensures
            final(self)@ == old(self)@.insert(name@, value@),
            forall|other: Seq<char>|
                old(self)@.contains_key(other) ==> final(self)@.contains_key(other),
            match r {
                Some(previous) => old(self)@.contains_key(name@) && previous@ == old(self)@[name@],
                None => !old(self)@.contains_key(name@),
            },
    {
        proof {
            use_type_invariant(&*self);
            lemma_entries_model_lookup(self.entries@, name@);
        }
        let found = self.position(&name);
        let mut taken = Environment::new();
        core::mem::swap(self, &mut taken);
        let mut entries = taken.entries;
        let ghost before = entries@;
        let previous = match found {
            Some(i) => {
                let previous = entries.remove(i);
                entries.insert(i, (name, value));
                proof {
                    assert(entries@ =~= before.update(i as int, (name, value)));
                    lemma_entries_model_update(before, i as int, (name, value));
                }
                Some(previous.1)
            },
            None => {
                proof {
                    lemma_entries_model_push(before, (name, value));
                }
                entries.push((name, value));
                None
            },
        };
        *self = Environment { entries };
        previous
    }

    /// The place of the first binding of `name`, if there is one.
    fn position(&self, name: &String) -> (r: Option<usize>)
        ensures
            match r {
                Some(i) => i < self.entries@.len() && first_at(self.entries@, name@, i as int),
                None => forall|k: int|
                    0 <= k < self.entries@.len() ==> self.entries@[k].0@ != name@,
            },
    {
        let mut i: usize = 0;
        while i < self.entries.len()
            invariant
                i <= self.entries@.len(),
                forall|k: int| 0 <= k < i ==> self.entries@[k].0@ != name@,
            decreases self.entries@.len() - i,
        {
            if self.entries[i].0 == *name {
                return Some(i);
            }
            i = i + 1;
        }
        None
    }
}

impl Clone for Environment {
    fn clone(&self) -> (r: Self)
        ensures
            r@ == self@,
        decreases self,
    {
        let mut copy: Vec<(String, Value)> = Vec::new();
        let mut i: usize = 0;
        while i < self.entries.len()
            invariant
                i <= self.entries@.len(),
                copy@.len() == i,
                forall|k: int|
                    0 <= k < i ==> copy@[k].0@ == self.entries@[k].0@ && copy@[k].1@
                        == self.entries@[k].1@,
            decreases self.entries@.len() - i,
        {
            let name = self.entries[i].0.clone();
            let value = self.entries[i].1.clone();
            copy.push((name, value));
            i = i + 1;
        }
        proof {
            use_type_invariant(self);
            lemma_entries_model_same(copy@, self.entries@);
        }
        Environment { entries: copy }
    }
}

impl Clone for Scope {
    fn clone(&self) -> (r: Self)
        ensures
            r@ == self@,
        decreases self,
    {
        Scope {
            bindings: self.bindings.clone(),
            own_name: match &self.own_name {
                Some(name) => Some(name.clone()),
                None => None,
            },
        }
    }
}

impl Default for Environment {
    fn default() -> (r: Self)
        ensures
            r@ == Map::<Seq<char>, ValueView>::empty(),
    {
        Environment::new()
    }
}

impl PartialEq for Scope {
    fn eq(&self, other: &Self) -> (r: bool)
        decreases self,
    {
        let names = match (&self.own_name, &other.own_name) {
            (Some(a), Some(b)) => *a == *b,
            (None, None) => true,
            _ => false,
        };
        names && self.bindings.eq(&other.bindings)
    }
}

impl PartialEqSpecImpl for Scope {
    open spec fn obeys_eq_spec() -> bool {
        true
    }

    open spec fn eq_spec(&self, other: &Self) -> bool {
        self@ == other@
    }
}

impl Eq for Scope {

}

impl PartialEq for Environment {
    fn eq(&self, other: &Self) -> (r: bool)
        decreases self,
    {
        proof {
            use_type_invariant(self);
            use_type_invariant(other);
            lemma_entries_model_len(self.entries@);
            lemma_entries_model_len(other.entries@);
        }
        if self.entries.len() != other.entries.len() {
            return false;
        }
        let mut i: usize = 0;
        while i < self.entries.len()
            invariant
                i <= self.entries@.len(),
                self.entries@.len() == other.entries@.len(),
                self.distinct(),
                forall|k: int|
                    0 <= k < i ==> other@.contains_key(#[trigger] self.entries@[k].0@)
                        && other@[self.entries@[k].0@] == self.entries@[k].1@,
            decreases self.entries@.len() - i,
        {
            proof {
                lemma_entries_model_lookup(self.entries@, self.entries@[i as int].0@);
                assert(first_at(self.entries@, self.entries@[i as int].0@, i as int));
            }
            match other.lookup(&self.entries[i].0) {
                Some(value) => {
                    if !self.entries[i].1.eq(value) {
                        return false;
                    }
                },
                None => {
                    return false;
                },
            }
            i = i + 1;
        }
        proof {
            assert forall|name: Seq<char>| #[trigger]
                self@.dom().contains(name) implies other@.dom().contains(name) && other@[name]
                == self@[name] by {
                lemma_entries_model_lookup(self.entries@, name);
                assert(self@.contains_key(name));
                let k = choose|k: int| first_at(self.entries@, name, k);
                assert(other@.contains_key(self.entries@[k].0@));
            }
            use_type_invariant(other);
            lemma_entries_model_len(self.entries@);
            lemma_entries_model_len(other.entries@);
            assert(self@.dom().subset_of(other@.dom()));
            lemma_subset_equality(self@.dom(), other@.dom());
            assert(self@ =~= other@);
        }
        true
    }
}

impl PartialEqSpecImpl for Environment {
    open spec fn obeys_eq_spec() -> bool {
        true
    }

    open spec fn eq_spec(&self, other: &Self) -> bool {
        self@ == other@
    }
}

impl Eq for Environment {

}

impl View for Environment {
    type V = Map<Seq<char>, ValueView>;

    open spec fn view(&self) -> Map<Seq<char>, ValueView> {
        self.model()
    }
}

/// Whether the first binding of `name` in `entries` stands at place `i`.
spec fn first_at(entries: Seq<(String, Value)>, name: Seq<char>, i: int) -> bool {
    &&& 0 <= i < entries.len()
    &&& entries[i].0@ == name
    &&& forall|k: int| 0 <= k < i ==> entries[k].0@ != name
}

/// A name is bound in the mapping exactly if some binding in the list has
/// it, and then to the value of the first such binding.
proof fn lemma_entries_model_lookup(entries: Seq<(String, Value)>, name: Seq<char>)
    ensures
        entries_model(entries).contains_key(name) <==> exists|i: int|
            first_at(entries, name, i),
        forall|i: int|
            first_at(entries, name, i) ==> entries_model(entries)[name] == entries[i].1@,
    decreases entries.len(),
{
    if entries.len() > 0 {
        let rest = entries.drop_first();
        lemma_entries_model_lookup(rest, name);
        if entries[0].0@ == name {
            assert(first_at(entries, name, 0));
        } else {
            assert forall|i: int| first_at(entries, name, i) implies first_at(
                rest,
                name,
                i - 1,
            ) by {
                assert(forall|k: int| 0 <= k < i - 1 ==> rest[k] == entries[k + 1]);
            }
            assert forall|i: int| first_at(rest, name, i) implies first_at(
                entries,
                name,
                i + 1,
            ) by {
                assert(forall|k: int| 1 <= k < i + 1 ==> entries[k] == rest[k - 1]);
            }
            if entries_model(entries).contains_key(name) {
                let i = choose|i: int| first_at(rest, name, i);
                assert(first_at(entries, name, i + 1));
            }
            if exists|i: int| first_at(entries, name, i) {
                let i = choose|i: int| first_at(entries, name, i);
                assert(first_at(rest, name, i - 1));
            }
        }
    }
}

/// Replacing the first binding of a name by another binding of that name
/// rebinds the name in the mapping.
proof fn lemma_entries_model_update(entries: Seq<(String, Value)>, i: int, entry: (String, Value))
    requires
        first_at(entries, entry.0@, i),
    ensures
        entries_model(entries.update(i, entry)) == entries_model(entries).insert(
            entry.0@,
            entry.1@,
        ),
    decreases entries.len(),
{
    let updated = entries.update(i, entry);
    if i == 0 {
        assert(updated.drop_first() =~= entries.drop_first());
        assert(entries_model(updated) =~= entries_model(entries).insert(entry.0@, entry.1@));
    } else {
        let rest = entries.drop_first();
        assert(forall|k: int| 0 <= k < i - 1 ==> rest[k] == entries[k + 1]);
        lemma_entries_model_update(rest, i - 1, entry);
        assert(updated.drop_first() =~= rest.update(i - 1, entry));
        assert(entries_model(updated) =~= entries_model(entries).insert(entry.0@, entry.1@));
    }
}

/// Adding a binding of a name that no binding in the list has binds the
/// name in the mapping.
proof fn lemma_entries_model_push(entries: Seq<(String, Value)>, entry: (String, Value))
    requires
        forall|k: int| 0 <= k < entries.len() ==> entries[k].0@ != entry.0@,
    ensures
        entries_model(entries.push(entry)) == entries_model(entries).insert(entry.0@, entry.1@),
        !entries_model(entries).contains_key(entry.0@),
    decreases entries.len(),
{
    let pushed = entries.push(entry);
    if entries.len() == 0 {
        assert(pushed.drop_first() =~= entries);
        assert(entries_model(pushed) =~= entries_model(entries).insert(entry.0@, entry.1@));
    } else {
        let rest = entries.drop_first();
        lemma_entries_model_push(rest, entry);
        assert(pushed.drop_first() =~= rest.push(entry));
        assert(entries_model(pushed) =~= entries_model(entries).insert(entry.0@, entry.1@));
    }
}

/// A list of bindings with distinct names stands for a mapping that binds
/// as many names as the list is long.
proof fn lemma_entries_model_len(entries: Seq<(String, Value)>)
    requires
        forall|i: int, j: int| 0 <= i < j < entries.len() ==> entries[i].0@ != entries[j].0@,
    ensures
        entries_model(entries).dom().finite(),
        entries_model(entries).dom().len() == entries.len(),
    decreases entries.len(),
{
    if entries.len() > 0 {
        let rest = entries.drop_first();
        assert forall|i: int, j: int| 0 <= i < j < rest.len() implies rest[i].0@ != rest[j].0@ by {
            assert(rest[i] == entries[i + 1]);
            assert(rest[j] == entries[j + 1]);
        }
        lemma_entries_model_len(rest);
        lemma_entries_model_lookup(rest, entries[0].0@);
        if entries_model(rest).contains_key(entries[0].0@) {
            let k = choose|k: int| first_at(rest, entries[0].0@, k);
            assert(rest[k] == entries[k + 1]);
        }
        assert(entries_model(entries).dom() =~= entries_model(rest).dom().insert(entries[0].0@));
    }
}

/// Lists of bindings that agree name by name and value by value stand for
/// the same mapping.
proof fn lemma_entries_model_same(a: Seq<(String, Value)>, b: Seq<(String, Value)>)
    requires
        a.len() == b.len(),
        forall|k: int| 0 <= k < a.len() ==> a[k].0@ == b[k].0@ && a[k].1@ == b[k].1@,
    ensures
        entries_model(a) == entries_model(b),
    decreases a.len(),
{
    if a.len() > 0 {
        lemma_entries_model_same(a.drop_first(), b.drop_first());
    }
}

} // verus!
