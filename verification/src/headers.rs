//! The header fields of a request: a mapping from names to values.

use crate::text::same_text;
use vstd::prelude::*;

verus! {

/// The mapping that a list of fields stands for: each name is mapped to the
/// value beside it, a later field winning over an earlier one of its name.
pub open spec fn map_of(entries: Seq<(String, String)>) -> Map<Seq<char>, Seq<char>>
    decreases entries.len(),
{
    if entries.len() == 0 {
        Map::empty()
    } else {
        map_of(entries.drop_last()).insert(entries.last().0@, entries.last().1@)
    }
}

/// No two fields of the list have the same name.
pub open spec fn distinct_names(entries: Seq<(String, String)>) -> bool {
    forall|i: int, j: int|
        0 <= i < j < entries.len() ==> (#[trigger] entries[i]).0@ != (#[trigger] entries[j]).0@
}

/// The names of `map_of(entries)` are the names in the list, and there are
/// finitely many of them.
proof fn lemma_map_of_names(entries: Seq<(String, String)>)
    ensures
        map_of(entries).dom().finite(),
        forall|name: Seq<char>| #[trigger]
            map_of(entries).contains_key(name) <==> exists|i: int|
                0 <= i < entries.len() && (#[trigger] entries[i]).0@ == name,
    decreases entries.len(),
{
    if entries.len() > 0 {
        let front = entries.drop_last();
        lemma_map_of_names(front);
        assert forall|name: Seq<char>| #[trigger]
            map_of(entries).contains_key(name) <==> exists|i: int|
                0 <= i < entries.len() && (#[trigger] entries[i]).0@ == name by {
            if map_of(entries).contains_key(name) {
                if name == entries.last().0@ {
                    assert(entries[entries.len() - 1].0@ == name);
                } else {
                    let i = choose|i: int| 0 <= i < front.len() && (#[trigger] front[i]).0@ == name;
                    assert(entries[i].0@ == name);
                }
            }
            if exists|i: int| 0 <= i < entries.len() && (#[trigger] entries[i]).0@ == name {
                let i = choose|i: int| 0 <= i < entries.len() && (#[trigger] entries[i]).0@ == name;
                if i < entries.len() - 1 {
                    assert(front[i].0@ == name);
                }
            }
        }
    }
}

/// Where names are distinct, each field's name is mapped to its value, and
/// the mapping has as many names as the list has fields.
proof fn lemma_map_of_distinct(entries: Seq<(String, String)>)
    requires
        distinct_names(entries),
    ensures
        map_of(entries).len() == entries.len(),
        forall|i: int|
            0 <= i < entries.len() ==> map_of(entries).contains_key((#[trigger] entries[i]).0@)
                && map_of(entries)[entries[i].0@] == entries[i].1@,
    decreases entries.len(),
{
    if entries.len() > 0 {
        let front = entries.drop_last();
        let last = entries.last();
        assert forall|i: int, j: int| 0 <= i < j < front.len() implies (#[trigger] front[i]).0@ != (
        #[trigger] front[j]).0@ by {
            assert(front[i] == entries[i] && front[j] == entries[j]);
        }
        lemma_map_of_distinct(front);
        lemma_map_of_names(front);
        assert(!map_of(front).contains_key(last.0@)) by {
            if map_of(front).contains_key(last.0@) {
                let i = choose|i: int| 0 <= i < front.len() && (#[trigger] front[i]).0@ == last.0@;
                assert(entries[i].0@ == entries[entries.len() - 1].0@);
            }
        }
        assert forall|i: int| 0 <= i < entries.len() implies map_of(entries).contains_key(
            (#[trigger] entries[i]).0@,
        ) && map_of(entries)[entries[i].0@] == entries[i].1@ by {
            if i < entries.len() - 1 {
                assert(front[i] == entries[i]);
                assert(entries[i].0@ != entries[entries.len() - 1].0@);
            }
        }
    }
}

/// Giving the field at `i` a new value, under the name it had, maps that
/// name to the new value and leaves the other names as they were.
proof fn lemma_map_of_update(entries: Seq<(String, String)>, i: int, field: (String, String))
    requires
        distinct_names(entries),
        0 <= i < entries.len(),
        field.0@ == entries[i].0@,
    ensures
        distinct_names(entries.update(i, field)),
        map_of(entries.update(i, field)) == map_of(entries).insert(field.0@, field.1@),
    decreases entries.len(),
{
    let after = entries.update(i, field);
    assert forall|a: int, b: int| 0 <= a < b < after.len() implies (#[trigger] after[a]).0@ != (
    #[trigger] after[b]).0@ by {
        assert(after[a].0@ == entries[a].0@ && after[b].0@ == entries[b].0@);
    }
    let front = entries.drop_last();
    if i == entries.len() - 1 {
        assert(after.drop_last() == front);
        assert(map_of(after) == map_of(entries).insert(field.0@, field.1@));
    } else {
        assert forall|a: int, b: int| 0 <= a < b < front.len() implies (#[trigger] front[a]).0@ != (
        #[trigger] front[b]).0@ by {
            assert(front[a] == entries[a] && front[b] == entries[b]);
        }
        lemma_map_of_update(front, i, field);
        assert(after.drop_last() == front.update(i, field));
        assert(after.last() == entries.last());
        assert(entries[i].0@ != entries[entries.len() - 1].0@);
        assert(map_of(after) == map_of(entries).insert(field.0@, field.1@));
    }
}

/// The header fields of a request. A name is a key as it was written: its
/// case is kept, and names that differ only in case are different keys.
#[derive(Debug)]
pub struct Headers {
    entries: Vec<(String, String)>,
}

impl View for Headers {
    type V = Map<Seq<char>, Seq<char>>;

    closed spec fn view(&self) -> Map<Seq<char>, Seq<char>> {
        map_of(self.entries@)
    }
}

impl Headers {
    #[verifier::type_invariant]
    spec fn well_formed(self) -> bool {
        distinct_names(self.entries@)
    }

    /// The mapping without any field.
    pub fn new() -> (headers: Headers)
        ensures
            headers@ == Map::<Seq<char>, Seq<char>>::empty(),
    {
        Headers { entries: Vec::new() }
    }

    /// Where the field named `name` stands in the list, if it has one.
    fn position(&self, name: &str) -> (found: Option<usize>)
        ensures
            match found {
                Some(i) => i < self.entries@.len() && self.entries@[i as int].0@ == name@,
                None => !self@.contains_key(name@),
            },
    {
        let mut i: usize = 0;
        while i < self.entries.len()
            invariant
                i <= self.entries@.len(),
                forall|j: int| 0 <= j < i ==> (#[trigger] self.entries@[j]).0@ != name@,
            decreases self.entries@.len() - i,
        {
            if same_text(self.entries[i].0.as_str(), name) {
                return Some(i);
            }
            i += 1;
        }
        proof {
            lemma_map_of_names(self.entries@);
        }
        None
    }

    /// The number of fields.
    pub fn len(&self) -> (n: usize)
        ensures
            self@.dom().finite(),
            n == self@.len(),
    {
        proof {
            use_type_invariant(self);
            lemma_map_of_names(self.entries@);
            lemma_map_of_distinct(self.entries@);
        }
        self.entries.len()
    }

    /// Whether there is no field.
    pub fn is_empty(&self) -> (empty: bool)
        ensures
            empty == (self@ == Map::<Seq<char>, Seq<char>>::empty()),
    {
        proof {
            use_type_invariant(self);
            lemma_map_of_names(self.entries@);
            lemma_map_of_distinct(self.entries@);
            if self.entries@.len() > 0 {
                assert(self@.contains_key(self.entries@[0].0@));
            }
        }
        self.entries.len() == 0
    }

    /// Whether a field is named `name`.
    pub fn contains_key(&self, name: &str) -> (present: bool)
        ensures
            present == self@.contains_key(name@),
    {
        proof {
            use_type_invariant(self);
            lemma_map_of_distinct(self.entries@);
        }
        self.position(name).is_some()
    }

    /// The value of the field named `name`.
    pub fn get(&self, name: &str) -> (value: Option<&String>)
        ensures
            match value {
                Some(v) => self@.contains_key(name@) && v@ == self@[name@],
                None => !self@.contains_key(name@),
            },
    {
        proof {
            use_type_invariant(self);
            lemma_map_of_distinct(self.entries@);
        }
        match self.position(name) {
            Some(i) => Some(&self.entries[i].1),
            None => None,
        }
    }

    /// Sets the field named `name` to `value`, in place of the value that the
    /// name had, if it had one.
    pub fn insert(&mut self, name: String, value: String)
        ensures
            final(self)@ == old(self)@.insert(name@, value@),
    {
        proof {
            use_type_invariant(&*self);
        }
        let found = self.position(name.as_str());
        // A call that may unwind cannot borrow the list from `self`, so the
        // list leaves `self` while it changes.
        let mut entries: Vec<(String, String)> = Vec::new();
        std::mem::swap(&mut self.entries, &mut entries);
        match found {
            Some(i) => {
                proof {
                    lemma_map_of_update(entries@, i as int, (name, value));
                }
                entries.set(i, (name, value));
            },
            None => {
                proof {
                    lemma_map_of_names(entries@);
                    let grown = entries@.push((name, value));
                    assert(grown.drop_last() == entries@);
                    assert forall|a: int, b: int| 0 <= a < b < grown.len() implies (
                    #[trigger] grown[a]).0@ != (#[trigger] grown[b]).0@ by {
                        if b == entries@.len() {
                            assert(entries@[a].0@ != name@);
                        }
                    }
                }
                entries.push((name, value));
            },
        }
        std::mem::swap(&mut self.entries, &mut entries);
    }

    /// Puts `more` behind the value of the field named `name`, with nothing
    /// in between. Where no field has that name nothing changes. Tells
    /// whether there was such a field.
    pub fn append(&mut self, name: &str, more: &str) -> (present: bool)
        ensures
            present == old(self)@.contains_key(name@),
            present ==> final(self)@ == old(self)@.insert(name@, old(self)@[name@] + more@),
            !present ==> final(self)@ == old(self)@,
    {
        proof {
            use_type_invariant(&*self);
            lemma_map_of_distinct(self.entries@);
        }
        match self.position(name) {
            Some(i) => {
                let mut entries: Vec<(String, String)> = Vec::new();
                std::mem::swap(&mut self.entries, &mut entries);
                let ghost before = entries@;
                entries[i].1.append(more);
                proof {
                    lemma_map_of_update(before, i as int, entries@[i as int]);
                    assert(entries@ == before.update(i as int, entries@[i as int]));
                }
                std::mem::swap(&mut self.entries, &mut entries);
                true
            },
            None => false,
        }
    }

    /// The fields as a list, each name once, beside its value.
    pub fn entries(&self) -> (fields: &Vec<(String, String)>)
        ensures
            distinct_names(fields@),
            self@ == map_of(fields@),
    {
        proof {
            use_type_invariant(self);
        }
        &self.entries
    }
}

} // verus!
