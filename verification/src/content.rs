//! The content store: raw bytes of regular files and symlink targets, keyed
//! by inode number. An inode without an entry has empty content.

use vstd::prelude::*;
use vstd::slice::slice_to_vec;
use std::collections::HashMap;

verus! {

broadcast use vstd::std_specs::hash::group_hash_axioms;

/// Byte payloads by inode number.
pub struct ContentStore {
    data: HashMap<u64, Vec<u8>>,
}

/// The bytes stored for `ino`, or the empty sequence where none are stored.
pub open spec fn content_or_empty(contents: Map<u64, Seq<u8>>, ino: u64) -> Seq<u8> {
    if contents.contains_key(ino) {
        contents[ino]
    } else {
        Seq::empty()
    }
}

impl View for ContentStore {
    type V = Map<u64, Seq<u8>>;

    closed spec fn view(&self) -> Map<u64, Seq<u8>> {
        self.data@.map_values(|bytes: Vec<u8>| bytes@)
    }
}

impl ContentStore {
    /// A store that holds nothing.
    pub fn new() -> (store: ContentStore)
        ensures
            store@ == Map::<u64, Seq<u8>>::empty(),
    {
        let store = ContentStore { data: HashMap::new() };
        assert(store@ =~= Map::<u64, Seq<u8>>::empty());
        store
    }

    /// Replaces whatever is stored for `ino` by a copy of `bytes`.
    pub fn set_content(&mut self, ino: u64, bytes: &[u8])
        ensures
            final(self)@ == old(self)@.insert(ino, bytes@),
    {
        let owned = slice_to_vec(bytes);
        self.data.insert(ino, owned);
        assert(self@ =~= old(self)@.insert(ino, bytes@));
    }

    /// A copy of the bytes stored for `ino`; empty where none are stored.
    pub fn get_content(&self, ino: u64) -> (bytes: Vec<u8>)
        ensures
            bytes@ == content_or_empty(self@, ino),
    {
        match self.data.get(&ino) {
            Some(stored) => slice_to_vec(stored.as_slice()),
            None => Vec::new(),
        }
    }

    /// Whether anything is stored for `ino`.
    pub fn contains(&self, ino: u64) -> (present: bool)
        ensures
            present == self@.contains_key(ino),
    {
        self.data.contains_key(&ino)
    }

    /// Drops whatever is stored for `ino`.
    pub fn remove(&mut self, ino: u64)
        ensures
            final(self)@ == old(self)@.remove(ino),
    {
        self.data.remove(&ino);
        assert(self@ =~= old(self)@.remove(ino));
    }
}

} // verus!
