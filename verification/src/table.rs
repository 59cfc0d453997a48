//! Deduplicating material table.
//!
//! Geometry extraction registers every referenced material here and receives
//! a stable integer index; equal keys (same name, same search-path list, in
//! the same order) always receive the same index. After all geometry is
//! emitted the table is drained once into the ordered key list that material
//! resolution works through. Index assignment is serialised by exclusive
//! access to the table; geometry emission threads one table through both
//! extraction passes.

use vstd::prelude::*;
use crate::bytestr::bytes_eq;

verus! {

/// Key of one table entry: a material name together with the ordered list of
/// search-path prefixes it is to be looked up under.
///
/// Equality is structural. The order of the search paths is significant: two
/// keys that differ only in path order are distinct entries (the table does
/// not normalise path order).
pub struct MaterialKey {
    pub name: Vec<u8>,
    pub search_paths: Vec<Vec<u8>>,
}

/// A path list as a sequence of byte sequences.
pub open spec fn paths_model(v: Vec<Vec<u8>>) -> Seq<Seq<u8>> {
    v@.map_values(|p: Vec<u8>| p@)
}

/// Mathematical value of a key: its name and path list as sequences.
pub open spec fn key_model(k: MaterialKey) -> (Seq<u8>, Seq<Seq<u8>>) {
    (k.name@, paths_model(k.search_paths))
}

/// Structural equality of two keys.
pub fn key_eq(a: &MaterialKey, b: &MaterialKey) -> (r: bool)
    ensures
        r == (key_model(*a) == key_model(*b)),
{
    if !bytes_eq(a.name.as_slice(), b.name.as_slice()) {
        return false;
    }
    if a.search_paths.len() != b.search_paths.len() {
        assert(key_model(*a).1.len() != key_model(*b).1.len());
        return false;
    }
    let mut i: usize = 0;
    while i < a.search_paths.len()
        invariant
            i <= a.search_paths.len(),
            a.search_paths.len() == b.search_paths.len(),
            a.name@ == b.name@,
            forall|j: int| 0 <= j < i ==> paths_model(a.search_paths)[j] == paths_model(b.search_paths)[j],
        decreases a.search_paths.len() - i,
    {
        if !bytes_eq(a.search_paths[i].as_slice(), b.search_paths[i].as_slice()) {
            assert(paths_model(a.search_paths)[i as int] != paths_model(b.search_paths)[i as int]);
            return false;
        }
        i = i + 1;
    }
    proof {
        assert(paths_model(a.search_paths) =~= paths_model(b.search_paths));
    }
    true
}

/// Insertion-ordered, deduplicated list of material keys.
pub struct MaterialSet {
    keys: Vec<MaterialKey>,
}

impl MaterialSet {
    /// The table as the sequence of its key values, in insertion order.
    pub closed spec fn model(self) -> Seq<(Seq<u8>, Seq<Seq<u8>>)> {
        self.keys@.map_values(|k: MaterialKey| key_model(k))
    }

    /// No two entries hold the same key.
    pub open spec fn inv(self) -> bool {
        forall|i: int, j: int|
            0 <= i < j < self.model().len() ==> self.model()[i] != self.model()[j]
    }

    /// An empty table.
    pub fn new() -> (r: Self)
        ensures
            r.model() == Seq::<(Seq<u8>, Seq<Seq<u8>>)>::empty(),
            r.inv(),
    {
        let r = MaterialSet { keys: Vec::new() };
        proof {
            assert(r.model() =~= Seq::<(Seq<u8>, Seq<Seq<u8>>)>::empty());
        }
        r
    }

    /// Number of entries.
    pub fn len(&self) -> (r: usize)
        ensures
            r == self.model().len(),
    {
        self.keys.len()
    }

    /// Index of `key`, assigning the next free index on a first sight.
    ///
    /// Returns the position of the unique entry equal to `key`; when no such
    /// entry exists, `key` is appended and its new position returned. The
    /// table is only ever grown, never reordered.
    pub fn get_index(&mut self, key: MaterialKey) -> (r: usize)
        requires
            old(self).inv(),
        ensures
            final(self).inv(),
            r < final(self).model().len(),
            final(self).model()[r as int] == key_model(key),
            old(self).model().contains(key_model(key)) ==> final(self).model() == old(
                self,
            ).model(),
            !old(self).model().contains(key_model(key)) ==> final(self).model() == old(
                self,
            ).model().push(key_model(key)) && r == old(self).model().len(),
    {
        let mut i: usize = 0;
        while i < self.keys.len()
            invariant
                i <= self.keys.len(),
                self.inv(),
                forall|j: int| 0 <= j < i ==> self.model()[j] != key_model(key),
            decreases self.keys.len() - i,
        {
            if key_eq(&self.keys[i], &key) {
                proof {
                    assert(self.model()[i as int] == key_model(key));
                    assert(self.model().contains(key_model(key)));
                }
                return i;
            }
            i = i + 1;
        }
        proof {
            assert(forall|j: int|
                0 <= j < self.model().len() ==> self.model()[j] != key_model(key));
            assert(!self.model().contains(key_model(key)));
        }
        let r = self.keys.len();
        let ghost old_model = self.model();
        self.keys.push(key);
        proof {
            assert(self.model() =~= old_model.push(key_model(key)));
        }
        r
    }

    /// Drain the table into its ordered key list.
    pub fn into_materials(self) -> (r: Vec<MaterialKey>)
        ensures
            r@.map_values(|k: MaterialKey| key_model(k)) == self.model(),
    {
        self.keys
    }
}

/// Index assignment deduplicates: the table never holds one key at two
/// positions, so any two lookups of equal keys are answered with the same
/// index, and a repeated insert leaves the table unchanged.
pub proof fn lemma_table_dedup(s: MaterialSet, i: int, j: int)
    requires
        s.inv(),
        0 <= i < s.model().len(),
        0 <= j < s.model().len(),
        s.model()[i] == s.model()[j],
    ensures
        i == j,
{
    if i < j {
        assert(s.model()[i] != s.model()[j]);
    }
    if j < i {
        assert(s.model()[j] != s.model()[i]);
    }
}

} // verus!
