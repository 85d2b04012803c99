//! A small map from names to values, kept as a list of bindings.
//!
//! Of a hash map with `String` keys the verifier knows too little to
//! prove what a lookup finds, so the names are kept in a list, and the map
//! that the list stands for is its value in contracts.

use vstd::prelude::*;

verus! {

/// Bindings of names to values. A later binding of a name hides an earlier
/// one.
pub struct Bindings<V> {
    pub entries: Vec<(String, V)>,
}

/// The map that a list of bindings stands for.
pub open spec fn bound<V>(entries: Seq<(String, V)>) -> Map<Seq<char>, V>
    decreases entries.len(),
{
    if entries.len() == 0 {
        Map::empty()
    } else {
        bound(entries.drop_last()).insert(entries.last().0@, entries.last().1)
    }
}

/// No binding from `from` on is one of `name`.
pub open spec fn unbound_from<V>(entries: Seq<(String, V)>, name: Seq<char>, from: int) -> bool {
    forall|j: int| from <= j < entries.len() ==> (#[trigger] entries[j]).0@ != name
}

/// A name that no binding binds is not in the map.
pub proof fn lemma_bound_absent<V>(entries: Seq<(String, V)>, name: Seq<char>)
    requires
        unbound_from(entries, name, 0),
    ensures
        !bound(entries).contains_key(name),
    decreases entries.len(),
{
    if entries.len() > 0 {
        let rest = entries.drop_last();
        assert forall|j: int| 0 <= j < rest.len() implies (#[trigger] rest[j]).0@ != name by {
            assert(rest[j] == entries[j]);
        }
        assert(entries.last() == entries[entries.len() - 1]);
        lemma_bound_absent(rest, name);
    }
}

/// The map gives a name the value of its last binding.
pub proof fn lemma_bound_last<V>(entries: Seq<(String, V)>, i: int)
    requires
        0 <= i < entries.len(),
        unbound_from(entries, entries[i].0@, i + 1),
    ensures
        bound(entries).contains_key(entries[i].0@),
        bound(entries)[entries[i].0@] == entries[i].1,
    decreases entries.len(),
{
    if i < entries.len() - 1 {
        let rest = entries.drop_last();
        assert(rest[i] == entries[i]);
        assert forall|j: int| i + 1 <= j < rest.len() implies (#[trigger] rest[j]).0@
            != entries[i].0@ by {
            assert(rest[j] == entries[j]);
        }
        assert(entries.last() == entries[entries.len() - 1]);
        lemma_bound_last(rest, i);
    }
}

/// To put a new value into the last binding of a name is to bind the name
/// to that value.
pub proof fn lemma_bound_update<V>(entries: Seq<(String, V)>, i: int, entry: (String, V))
    requires
        0 <= i < entries.len(),
        entry.0@ == entries[i].0@,
        unbound_from(entries, entries[i].0@, i + 1),
    ensures
        bound(entries.update(i, entry)) == bound(entries).insert(entry.0@, entry.1),
    decreases entries.len(),
{
    let changed = entries.update(i, entry);
    let rest = entries.drop_last();
    if i == entries.len() - 1 {
        assert(changed.drop_last() =~= rest);
        assert(bound(changed) =~= bound(entries).insert(entry.0@, entry.1));
    } else {
        assert(rest[i] == entries[i]);
        assert forall|j: int| i + 1 <= j < rest.len() implies (#[trigger] rest[j]).0@
            != entries[i].0@ by {
            assert(rest[j] == entries[j]);
        }
        lemma_bound_update(rest, i, entry);
        assert(changed.drop_last() =~= rest.update(i, entry));
        assert(changed.last() == entries.last());
        assert(entries.last() == entries[entries.len() - 1]);
        assert(bound(changed) =~= bound(entries).insert(entry.0@, entry.1));
    }
}

impl<V> View for Bindings<V> {
    type V = Map<Seq<char>, V>;

    open spec fn view(&self) -> Map<Seq<char>, V> {
        bound(self.entries@)
    }
}

impl<V> Bindings<V> {
    /// No bindings.
    pub fn new() -> (b: Self)
        ensures
            b@ == Map::<Seq<char>, V>::empty(),
    {
        Bindings { entries: Vec::new() }
    }

    /// The place of the last binding of `name`.
    pub fn find(&self, name: &String) -> (r: Option<usize>)
        ensures
            match r {
                Some(i) => {
                    &&& i < self.entries.len()
                    &&& self.entries[i as int].0@ == name@
                    &&& unbound_from(self.entries@, name@, i + 1)
                    &&& self@.contains_key(name@)
                    &&& self@[name@] == self.entries[i as int].1
                },
                None => !self@.contains_key(name@),
            },
    {
        let mut i: usize = self.entries.len();
        while i > 0
            invariant
                i <= self.entries.len(),
                unbound_from(self.entries@, name@, i as int),
            decreases i,
        {
            i = i - 1;
            if self.entries[i].0 == *name {
                proof {
                    lemma_bound_last(self.entries@, i as int);
                }
                return Some(i);
            }
        }
        proof {
            lemma_bound_absent(self.entries@, name@);
        }
        None
    }

    /// `name` is bound.
    pub fn contains_key(&self, name: &String) -> (r: bool)
        ensures
            r == self@.contains_key(name@),
    {
        self.find(name).is_some()
    }

    /// The value that `name` is bound to.
    pub fn get(&self, name: &String) -> (r: Option<&V>)
        ensures
            match r {
                Some(v) => self@.contains_key(name@) && *v == self@[name@],
                None => !self@.contains_key(name@),
            },
    {
        match self.find(name) {
            Some(i) => Some(&self.entries[i].1),
            None => None,
        }
    }

    /// Binds `name` to `value`, whether or not it was bound before.
    pub fn insert(&mut self, name: String, value: V)
        ensures
            final(self)@ == old(self)@.insert(name@, value),
    {
        match self.find(&name) {
            Some(i) => {
                proof {
                    lemma_bound_update(self.entries@, i as int, (name, value));
                }
                self.entries.set(i, (name, value));
            },
            None => {
                self.entries.push((name, value));
                assert(self.entries@.drop_last() =~= old(self).entries@);
            },
        }
    }
}

} // verus!
