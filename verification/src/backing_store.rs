//! An in-memory model of stable storage: one persisted image per device
//! identity, keyed by device name.
//!
//! The store is an append-only log of `(name, image)` records; its visible
//! state is the latest image recorded for each name. A surrounding program
//! that keeps real files synchronizes them from this visible state.

use vstd::prelude::*;

verus! {

/// The visible state of a record log: for each name, the image of the last
/// record that carries it.
pub open spec fn records_map(s: Seq<(String, Vec<u8>)>) -> Map<Seq<char>, Seq<u8>>
    decreases s.len(),
{
    if s.len() == 0 {
        Map::empty()
    } else {
        records_map(s.drop_last()).insert(s.last().0@, s.last().1@)
    }
}

/// Stable storage for persisted device images, keyed by device name.
pub struct BackingStore {
    pub records: Vec<(String, Vec<u8>)>,
}

impl View for BackingStore {
    type V = Map<Seq<char>, Seq<u8>>;

    open spec fn view(&self) -> Map<Seq<char>, Seq<u8>> {
        records_map(self.records@)
    }
}

/// A record whose key is held by no later record determines the lookup.
proof fn lemma_lookup_at(s: Seq<(String, Vec<u8>)>, i: int)
    requires
        0 <= i < s.len(),
        forall|j: int| i < j < s.len() ==> (#[trigger] s[j]).0@ != s[i].0@,
    ensures
        records_map(s).contains_key(s[i].0@),
        records_map(s)[s[i].0@] == s[i].1@,
    decreases s.len(),
{
    if i == s.len() - 1 {
    } else {
        assert(s.drop_last()[i] == s[i]);
        lemma_lookup_at(s.drop_last(), i);
        assert(s.last().0@ != s[i].0@);
    }
}

/// A key carried by no record at all is absent from the visible state.
proof fn lemma_lookup_absent(s: Seq<(String, Vec<u8>)>, k: Seq<char>)
    requires
        forall|j: int| 0 <= j < s.len() ==> (#[trigger] s[j]).0@ != k,
    ensures
        !records_map(s).contains_key(k),
    decreases s.len(),
{
    if s.len() > 0 {
        lemma_lookup_absent(s.drop_last(), k);
    }
}

impl BackingStore {
    /// An empty store: no device identity has a persisted image.
    pub fn new() -> (r: BackingStore)
        ensures
            r@ == Map::<Seq<char>, Seq<u8>>::empty(),
    {
        BackingStore { records: Vec::new() }
    }

    /// Records `image` as the persisted image of `name`, creating the entry
    /// if absent and superseding any earlier image otherwise.
    pub fn put(&mut self, name: &String, image: Vec<u8>)
        ensures
            final(self)@ == old(self)@.insert(name@, image@),
    {
        let key: String = name.clone();
        self.records.push((key, image));
        proof {
            assert(self.records@.drop_last() =~= old(self).records@);
        }
    }

    /// The persisted image of `name`, if one exists: the image of the most
    /// recent `put` for that name.
    pub fn get(&self, name: &String) -> (r: Option<&Vec<u8>>)
        ensures
            r is Some <==> self@.contains_key(name@),
            r matches Some(image) ==> image@ == self@[name@],
    {
        let mut i: usize = self.records.len();
        while i > 0
            invariant
                i <= self.records@.len(),
                forall|j: int| i <= j < self.records@.len() ==> (#[trigger] self.records@[j]).0@
                    != name@,
            decreases i,
        {
            i = i - 1;
            if self.records[i].0 == *name {
                proof {
                    lemma_lookup_at(self.records@, i as int);
                }
                return Some(&self.records[i].1);
            }
        }
        proof {
            lemma_lookup_absent(self.records@, name@);
        }
        None
    }
}

} // verus!
