//! Sizes by name.

use vstd::prelude::*;
use vstd::string::*;

use crate::text::same;

verus! {

/// A name and a size.
#[derive(Debug)]
pub struct NamedSize {
    pub name: String,
    pub size: u64,
}

/// What the entries of a list say.
pub open spec fn entries_view(entries: Seq<NamedSize>) -> Seq<(Seq<char>, u64)> {
    entries.map_values(|entry: NamedSize| (entry.name@, entry.size))
}

/// The sizes that these entries give their names: where one comes twice, the later one holds.
pub open spec fn sizes_of(entries: Seq<(Seq<char>, u64)>) -> Map<Seq<char>, u64>
    decreases entries.len(),
{
    if entries.len() == 0 {
        Map::empty()
    } else {
        sizes_of(entries.drop_last()).insert(entries.last().0, entries.last().1)
    }
}

/// Whether no name comes twice.
pub open spec fn names_once(entries: Seq<(Seq<char>, u64)>) -> bool {
    forall|i: int, j: int|
        0 <= i < j < entries.len() ==> (#[trigger] entries[i]).0 != (#[trigger] entries[j]).0
}

/// A size for each of some names.
#[derive(Debug)]
pub struct Sizes {
    entries: Vec<NamedSize>,
}

impl View for Sizes {
    type V = Map<Seq<char>, u64>;

    closed spec fn view(&self) -> Map<Seq<char>, u64> {
        sizes_of(entries_view(self.entries@))
    }
}

proof fn lemma_sizes(entries: Seq<(Seq<char>, u64)>, name: Seq<char>)
    requires
        names_once(entries),
    ensures
        sizes_of(entries).contains_key(name) <==> exists|i: int|
            0 <= i < entries.len() && (#[trigger] entries[i]).0 == name,
        forall|i: int|
            0 <= i < entries.len() && (#[trigger] entries[i]).0 == name ==> sizes_of(entries)[name]
                == entries[i].1,
    decreases entries.len(),
{
    if entries.len() > 0 {
        let rest = entries.drop_last();
        assert forall|i: int, j: int| 0 <= i < j < rest.len() implies (#[trigger] rest[i]).0 != (
        #[trigger] rest[j]).0 by {
            assert(rest[i] == entries[i] && rest[j] == entries[j]);
        }
        lemma_sizes(rest, name);
        assert(forall|i: int| 0 <= i < rest.len() ==> #[trigger] entries[i] == rest[i]);
        let last = entries.len() - 1;
        assert(entries[last] == entries.last());
        if sizes_of(rest).contains_key(name) {
            let i = choose|i: int| 0 <= i < rest.len() && (#[trigger] rest[i]).0 == name;
            assert(entries[i].0 == name);
        }
    }
}

proof fn lemma_update(entries: Seq<(Seq<char>, u64)>, at: int, size: u64)
    requires
        names_once(entries),
        0 <= at < entries.len(),
    ensures
        sizes_of(entries.update(at, (entries[at].0, size))) == sizes_of(entries).insert(
            entries[at].0,
            size,
        ),
    decreases entries.len(),
{
    let name = entries[at].0;
    let updated = entries.update(at, (name, size));
    let rest = entries.drop_last();
    assert forall|i: int, j: int| 0 <= i < j < rest.len() implies (#[trigger] rest[i]).0 != (
    #[trigger] rest[j]).0 by {
        assert(rest[i] == entries[i] && rest[j] == entries[j]);
    }
    let last = entries.len() - 1;
    if at < last {
        lemma_update(rest, at, size);
        assert(updated.drop_last() =~= rest.update(at, (name, size)));
        assert(updated.last() == entries.last());
        assert(entries[last].0 != entries[at].0);
        assert(sizes_of(updated) =~= sizes_of(entries).insert(name, size));
    } else {
        assert(updated.drop_last() =~= rest);
        assert(sizes_of(updated) =~= sizes_of(entries).insert(name, size));
    }
}

impl Sizes {
    #[verifier::type_invariant]
    spec fn well_formed(self) -> bool {
        names_once(entries_view(self.entries@))
    }

    /// No sizes.
    pub fn new() -> (r: Sizes)
        ensures
            r@ == Map::<Seq<char>, u64>::empty(),
    {
        Sizes { entries: Vec::new() }
    }

    /// The entries, each name once.
    pub fn entries(&self) -> (r: &Vec<NamedSize>)
        ensures
            sizes_of(entries_view(r@)) == self@,
            names_once(entries_view(r@)),
    {
        proof {
            use_type_invariant(self);
        }
        &self.entries
    }

    fn find(&self, name: &str) -> (r: Option<usize>)
        ensures
            match r {
                Some(at) => at < self.entries@.len() && self.entries@[at as int].name@ == name@,
                None => forall|i: int|
                    0 <= i < self.entries@.len() ==> (#[trigger] self.entries@[i]).name@ != name@,
            },
    {
        let mut i: usize = 0;
        while i < self.entries.len()
            invariant
                i <= self.entries@.len(),
                forall|j: int| 0 <= j < i ==> (#[trigger] self.entries@[j]).name@ != name@,
            decreases self.entries.len() - i,
        {
            if same(self.entries[i].name.as_str(), name) {
                return Some(i);
            }
            i += 1;
        }
        None
    }

    /// The size of this name, where it has one.
    pub fn get(&self, name: &str) -> (r: Option<u64>)
        ensures
            r == (if self@.contains_key(name@) {
                Some(self@[name@])
            } else {
                None
            }),
    {
        proof {
            use_type_invariant(self);
            lemma_sizes(entries_view(self.entries@), name@);
        }
        let ghost entries = entries_view(self.entries@);
        assert(forall|i: int|
            0 <= i < entries.len() ==> (#[trigger] entries[i]).0 == self.entries@[i].name@);
        match self.find(name) {
            Some(at) => {
                assert(entries[at as int].0 == name@);
                Some(self.entries[at].size)
            },
            None => None,
        }
    }

    /// These sizes with that of this name set.
    pub fn with(self, name: &str, size: u64) -> (r: Sizes)
        ensures
            r@ == self@.insert(name@, size),
    {
        proof {
            use_type_invariant(&self);
        }
        let found = self.find(name);
        let ghost before = entries_view(self.entries@);
        let ghost old_entries = self.entries@;
        let mut entries = self.entries;
        let entry = NamedSize { name: name.to_owned(), size };
        match found {
            Some(at) => {
                proof {
                    assert(before[at as int].0 == name@);
                    lemma_update(before, at as int, size);
                }
                entries.set(at, entry);
                assert(entries_view(entries@) =~= before.update(at as int, (name@, size)));
                assert(names_once(entries_view(entries@))) by {
                    let after = entries_view(entries@);
                    assert(forall|i: int|
                        0 <= i < after.len() ==> (#[trigger] after[i]).0 == before[i].0);
                }
            },
            None => {
                entries.push(entry);
                assert(entries_view(entries@) =~= before.push((name@, size)));
                assert(entries_view(entries@).drop_last() =~= before);
                assert(names_once(entries_view(entries@))) by {
                    let after = entries_view(entries@);
                    assert forall|i: int, j: int| 0 <= i < j < after.len() implies (
                    #[trigger] after[i]).0 != (#[trigger] after[j]).0 by {
                        assert(after[i] == before[i]);
                        assert(before[i].0 == old_entries[i].name@);
                        if j < before.len() {
                            assert(after[j] == before[j]);
                        }
                    }
                }
            },
        }
        Sizes { entries }
    }
}

} // verus!
