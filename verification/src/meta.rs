//! The annotations of a classifier: a map from names to values that is
//! walked in the order of the names.

use vstd::prelude::*;
use crate::entries::{
    as_map, ascending, lemma_as_map_at, lemma_rank_parts, lemma_with_entry_as_map,
    lemma_with_entry_ascending, names, rank, with_entry,
};
use crate::order::{lemma_name_before_total, name_before, place_of, Place};

verus! {

/// A map from annotation names to values, kept in the order of the names.
///
/// No name occurs twice, and the entries are walked from the first name to
/// the last whatever the order in which they were put in.
#[derive(Debug, PartialEq)]
pub struct MetaMap<'input, M> {
    entries: Vec<(&'input str, M)>,
}

impl<'input, M> View for MetaMap<'input, M> {
    type V = Seq<(Seq<char>, M)>;

    /// The entries, each a name and its value, from the first name to the
    /// last.
    closed spec fn view(&self) -> Seq<(Seq<char>, M)> {
        Seq::new(self.entries@.len(), |i: int| (self.entries@[i].0@, self.entries@[i].1))
    }
}

impl<'input, M> MetaMap<'input, M> {
    #[verifier::type_invariant]
    spec fn inv(&self) -> bool {
        ascending(self@)
    }

    /// Makes a map without entries.
    pub fn new() -> (map: Self)
        ensures
            map@ == Seq::<(Seq<char>, M)>::empty(),
    {
        let map = MetaMap { entries: Vec::new() };
        assert(map@ =~= Seq::<(Seq<char>, M)>::empty());
        map
    }

    /// The number of entries. The entries ascend, as those of every map do.
    pub fn len(&self) -> (n: usize)
        ensures
            n == self@.len(),
            ascending(self@),
    {
        proof {
            use_type_invariant(self);
        }
        self.entries.len()
    }

    /// Whether the map has no entry.
    pub fn is_empty(&self) -> (empty: bool)
        ensures
            empty == (self@.len() == 0),
    {
        self.entries.len() == 0
    }

    /// The name of the entry at offset `at`.
    pub fn name_at(&self, at: usize) -> (name: &'input str)
        requires
            at < self@.len(),
        ensures
            name@ == self@[at as int].0,
    {
        self.entries[at].0
    }

    /// The value of the entry at offset `at`.
    pub fn value_at(&self, at: usize) -> (value: &M)
        requires
            at < self@.len(),
        ensures
            *value == self@[at as int].1,
    {
        &self.entries[at].1
    }

    /// Takes the map apart into its entries, from the first name to the
    /// last.
    pub fn into_entries(self) -> (entries: Vec<(&'input str, M)>)
        ensures
            entries@.len() == self@.len(),
            forall|i: int|
                0 <= i < entries@.len() ==> (#[trigger] entries@[i]).0@ == self@[i].0
                    && entries@[i].1 == self@[i].1,
            ascending(self@),
    {
        proof {
            use_type_invariant(&self);
        }
        self.entries
    }

    /// Gives `name` the value `value`, and returns the value that the name
    /// had before, if it had one.
    ///
    /// The new entry goes where the order of the names asks for it; an
    /// entry of the same name keeps its place and changes its value. As a
    /// map, the entries are the old ones with `name` set to `value`.
    pub fn insert(&mut self, name: &'input str, value: M) -> (before: Option<M>)
        ensures
            final(self)@ == with_entry(old(self)@, name@, value),
            before == if names(old(self)@, name@) {
                Some(old(self)@[rank(old(self)@, name@)].1)
            } else {
                None
            },
            ascending(final(self)@),
            final(self)@.len() == if names(old(self)@, name@) {
                old(self)@.len()
            } else {
                old(self)@.len() + 1
            },
            as_map(final(self)@) == as_map(old(self)@).insert(name@, value),
            before == if as_map(old(self)@).contains_key(name@) {
                Some(as_map(old(self)@)[name@])
            } else {
                None
            },
    {
        proof {
            use_type_invariant(&*self);
        }
        let ghost was = self@;
        let mut taken = MetaMap { entries: Vec::new() };
        assert(taken@ =~= Seq::<(Seq<char>, M)>::empty());
        core::mem::swap(self, &mut taken);
        let MetaMap { entries } = taken;
        let mut entries = entries;
        let mut at: usize = 0;
        let mut found = false;
        while at < entries.len()
            invariant_except_break
                !found,
            invariant
                at <= entries.len(),
                was == Seq::new(entries@.len(), |i: int| (entries@[i].0@, entries@[i].1)),
                forall|j: int| 0 <= j < at ==> name_before(#[trigger] was[j].0, name@),
            ensures
                at <= entries.len(),
                was == Seq::new(entries@.len(), |i: int| (entries@[i].0@, entries@[i].1)),
                forall|j: int| 0 <= j < at ==> name_before(#[trigger] was[j].0, name@),
                found ==> at < was.len() && was[at as int].0 == name@,
                !found && at < was.len() ==> name_before(name@, was[at as int].0),
            decreases entries.len() - at,
        {
            match place_of(entries[at].0, name) {
                Place::Before => {
                    at += 1;
                },
                Place::Same => {
                    found = true;
                    break;
                },
                Place::After => {
                    break;
                },
            }
        }
        proof {
            if at < was.len() {
                lemma_name_before_total(was[at as int].0, name@);
            }
            lemma_rank_parts(was, name@, at as int);
            lemma_with_entry_ascending(was, name@, value);
            lemma_with_entry_as_map(was, name@, value);
            if found {
                lemma_as_map_at(was, at as int);
            }
        }
        let before = if found {
            let gone = entries.remove(at);
            Some(gone.1)
        } else {
            None
        };
        entries.insert(at, (name, value));
        let ghost now = Seq::new(entries@.len(), |i: int| (entries@[i].0@, entries@[i].1));
        assert(now =~= with_entry(was, name@, value));
        *self = MetaMap { entries };
        before
    }
}

impl<'input, M: Clone> Clone for MetaMap<'input, M> {
    /// Copies the map: the same names in the same places, each with a
    /// clone of its value.
    fn clone(&self) -> (copy: Self)
        ensures
            copy@.len() == self@.len(),
            forall|i: int| 0 <= i < self@.len() ==> (#[trigger] copy@[i]).0 == self@[i].0,
            forall|i: int| 0 <= i < self@.len() ==> cloned::<M>(self@[i].1, (#[trigger] copy@[i]).1),
    {
        proof {
            use_type_invariant(self);
        }
        let mut entries: Vec<(&'input str, M)> = Vec::new();
        let mut at: usize = 0;
        while at < self.entries.len()
            invariant
                at <= self.entries.len(),
                entries@.len() == at,
                forall|i: int| 0 <= i < at ==> (#[trigger] entries@[i]).0 == self.entries@[i].0,
                forall|i: int|
                    0 <= i < at ==> cloned::<M>(self.entries@[i].1, (#[trigger] entries@[i]).1),
            decreases self.entries.len() - at,
        {
            let value = self.entries[at].1.clone();
            entries.push((self.entries[at].0, value));
            at += 1;
        }
        proof {
            let old_view = self@;
            let new_view = Seq::new(entries@.len(), |i: int| (entries@[i].0@, entries@[i].1));
            assert forall|i: int, j: int| 0 <= i < j < new_view.len() implies name_before(
                #[trigger] new_view[i].0,
                #[trigger] new_view[j].0,
            ) by {
                assert(name_before(old_view[i].0, old_view[j].0));
            }
        }
        MetaMap { entries }
    }
}

} // verus!
