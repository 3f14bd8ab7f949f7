//! A table from top-level names to the kind of item that declared them; a later declaration of
//! a name replaces the earlier one.
use vstd::prelude::*;

use crate::text::str_equal;

verus! {

/// The map that a list of declarations builds, later entries replacing earlier ones.
pub open spec fn table_map(entries: Seq<(String, &'static str)>) -> Map<Seq<char>, Seq<char>>
    decreases entries.len(),
{
    if entries.len() == 0 {
        Map::empty()
    } else {
        table_map(entries.drop_last()).insert(entries.last().0@, entries.last().1@)
    }
}

/// Names and the kind of their latest declaration.
pub struct NameTable {
    entries: Vec<(String, &'static str)>,
}

impl View for NameTable {
    type V = Map<Seq<char>, Seq<char>>;

    closed spec fn view(&self) -> Map<Seq<char>, Seq<char>> {
        table_map(self.entries@)
    }
}

/// Entries from `from` on that do not declare `name` leave its kind as the shorter list had it.
proof fn lemma_later_entries_keep(entries: Seq<(String, &'static str)>, from: int, name: Seq<char>)
    requires
        0 <= from <= entries.len(),
        forall|j: int| from <= j < entries.len() ==> (#[trigger] entries[j]).0@ != name,
    ensures
        table_map(entries).contains_key(name) == table_map(entries.subrange(0, from)).contains_key(name),
        table_map(entries).contains_key(name) ==> table_map(entries)[name] == table_map(entries.subrange(0, from))[name],
    decreases entries.len() - from,
{
    if from < entries.len() {
        let shorter = entries.drop_last();
        assert(shorter.subrange(0, from) == entries.subrange(0, from));
        assert forall|j: int| from <= j < shorter.len() implies (#[trigger] shorter[j]).0@ != name by {
            assert(shorter[j] == entries[j]);
        }
        lemma_later_entries_keep(shorter, from, name);
    } else {
        assert(entries.subrange(0, from) == entries);
    }
}

impl NameTable {
    pub fn new() -> (table: NameTable)
        ensures
            table@ == Map::<Seq<char>, Seq<char>>::empty(),
    {
        NameTable { entries: Vec::new() }
    }

    /// The kind of the latest declaration of `name`.
    pub fn get(&self, name: &str) -> (kind: Option<&'static str>)
        ensures
            match kind {
                Some(k) => self@.contains_key(name@) && self@[name@] == k@,
                None => !self@.contains_key(name@),
            },
    {
        let mut k: usize = self.entries.len();
        while k > 0
            invariant
                k <= self.entries@.len(),
                forall|j: int| k <= j < self.entries@.len() ==> (#[trigger] self.entries@[j]).0@ != name@,
            decreases k,
        {
            if str_equal(self.entries[k - 1].0.as_str(), name) {
                proof {
                    lemma_later_entries_keep(self.entries@, k as int, name@);
                    let prefix = self.entries@.subrange(0, k as int);
                    assert(prefix.drop_last() == self.entries@.subrange(0, k - 1));
                    assert(prefix.last() == self.entries@[k - 1]);
                }
                return Some(self.entries[k - 1].1);
            }
            k -= 1;
        }
        proof {
            lemma_later_entries_keep(self.entries@, 0, name@);
        }
        None
    }

    /// Records `name` as declared by a `kind` item and gives the kind it had before, if any.
    pub fn insert(&mut self, name: &str, kind: &'static str) -> (previous: Option<&'static str>)
        ensures
            final(self)@ == old(self)@.insert(name@, kind@),
            match previous {
                Some(k) => old(self)@.contains_key(name@) && old(self)@[name@] == k@,
                None => !old(self)@.contains_key(name@),
            },
    {
        let previous = self.get(name);
        let ghost before = self.entries@;
        self.entries.push((crate::text::owned(name), kind));
        assert(self.entries@.drop_last() == before);
        previous
    }
}

} // verus!
