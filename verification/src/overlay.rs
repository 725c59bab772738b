//! The changes of a durable trie that are not written to the database yet.
//!
//! The overlay is a `PrefixedMemoryDB` of `sp-trie`: a map from node keys to
//! a node and its reference count. Tries are changed in the overlay by
//! `trie-db`, and the overlay is later turned into one batch for the
//! database. Nothing in this module is proved: each function calls the
//! outside crates, and its contract states what they do.

use vstd::prelude::*;
use crate::constants::empty_trie_root;
use crate::kv::{hash_bytes, node_key};

verus! {

/// Nodes that were inserted or removed since the last commit, by node key.
#[verifier::external_body]
pub struct Overlay {
    inner: sp_trie::PrefixedMemoryDB<sp_core::Blake2Hasher>,
}

/// A node as the database had it when a lookup asked for it.
pub struct FetchedNode {
    pub prefix: Vec<u8>,
    pub padding: Option<u8>,
    pub hash: [u8; 32],
    pub data: Vec<u8>,
}

/// What the overlay holds: for each node key the node and its count of
/// references.
pub uninterp spec fn overlay_entries(overlay: Overlay) -> Map<Seq<u8>, (Seq<u8>, int)>;

/// `listed` names each entry of `entries` once, and nothing else.
pub open spec fn lists_entries(listed: Seq<(Vec<u8>, Vec<u8>, i32)>, entries: Map<Seq<u8>, (Seq<u8>, int)>) -> bool {
    &&& forall|i: int|
        0 <= i < listed.len() ==> entries.contains_key(#[trigger] listed[i].0@) && entries[listed[i].0@] == (
            listed[i].1@,
            listed[i].2 as int,
        )
    &&& forall|i: int, j: int| 0 <= i < j < listed.len() ==> listed[i].0@ != listed[j].0@
    &&& forall|key: Seq<u8>|
        entries.contains_key(key) ==> exists|i: int| 0 <= i < listed.len() && #[trigger] listed[i].0@ == key
}

/// The bytes of the node without content, which every overlay knows under
/// the root of the trie without leaves.
pub open spec fn empty_node() -> Seq<u8> {
    seq![0u8]
}

/// The node that the overlay hands out for a hash at a prefix: the node
/// without content for its own hash, else the node of the entry under the
/// node key, if that entry has a positive count of references.
pub open spec fn node_in(
    entries: Map<Seq<u8>, (Seq<u8>, int)>,
    hash: Seq<u8>,
    prefix: Seq<u8>,
    padding: Option<u8>,
) -> Option<Seq<u8>> {
    let key = node_key(hash, prefix, padding);
    if hash == empty_trie_root() {
        Some(empty_node())
    } else if entries.contains_key(key) && entries[key].1 > 0 {
        Some(entries[key].0)
    } else {
        None
    }
}

/// The entries after a node was put under a hash at a prefix: the node
/// without content is never kept; a new entry counts one reference; an
/// entry that is there counts one more, and takes the node where it had no
/// reference.
pub open spec fn entries_with(
    entries: Map<Seq<u8>, (Seq<u8>, int)>,
    hash: Seq<u8>,
    prefix: Seq<u8>,
    padding: Option<u8>,
    node: Seq<u8>,
) -> Map<Seq<u8>, (Seq<u8>, int)> {
    let key = node_key(hash, prefix, padding);
    if node == empty_node() {
        entries
    } else if !entries.contains_key(key) {
        entries.insert(key, (node, 1))
    } else if entries[key].1 <= 0 {
        entries.insert(key, (node, entries[key].1 + 1))
    } else {
        entries.insert(key, (entries[key].0, entries[key].1 + 1))
    }
}

/// What `trie-db` makes of the overlay when it inserts `value` under `key`
/// into the trie with root `root`: the entries of the overlay afterwards,
/// and the root of the changed trie, or no root where the insertion fails.
pub uninterp spec fn after_insert(
    entries: Map<Seq<u8>, (Seq<u8>, int)>,
    root: Seq<u8>,
    key: Seq<u8>,
    value: Seq<u8>,
) -> (Map<Seq<u8>, (Seq<u8>, int)>, Option<Seq<u8>>);

/// What `trie-db` makes of the overlay when it removes `key` from the trie
/// with root `root`: the entries of the overlay afterwards, and the root of
/// the changed trie, or no root where the removal fails.
pub uninterp spec fn after_remove(entries: Map<Seq<u8>, (Seq<u8>, int)>, root: Seq<u8>, key: Seq<u8>) -> (
    Map<Seq<u8>, (Seq<u8>, int)>,
    Option<Seq<u8>>,
);

impl Overlay {
    /// Calls `PrefixedMemoryDB::default_with_root`, which returns an overlay
    /// without entries and the root of the trie without leaves.
    #[verifier::external_body]
    pub(crate) fn empty() -> (out: (Overlay, [u8; 32]))
        ensures
            out.1@ == empty_trie_root(),
            overlay_entries(out.0) == (Map::<Seq<u8>, (Seq<u8>, int)>::empty()),
    {
        let (db, root) = sp_trie::PrefixedMemoryDB::<sp_core::Blake2Hasher>::default_with_root();
        (Overlay { inner: db }, root.0)
    }

    /// Calls `HashDB::get` of the overlay: the node with hash `key` at
    /// `prefix`, if the overlay holds it with a positive count.
    #[verifier::external_body]
    pub(crate) fn node(&self, key: &sp_core::H256, prefix: (&[u8], Option<u8>)) -> (node: Option<Vec<u8>>)
        ensures
            node.is_some() == node_in(overlay_entries(*self), hash_bytes(*key), prefix.0@, prefix.1).is_some(),
            node matches Some(bytes) ==> node_in(overlay_entries(*self), hash_bytes(*key), prefix.0@, prefix.1) == Some(bytes@),
    {
        hash_db::HashDB::get(&self.inner, key, prefix)
    }

    /// Calls `HashDB::contains` of the overlay, which tells whether
    /// `HashDB::get` would hand out a node.
    #[verifier::external_body]
    pub(crate) fn has_node(&self, hash: &[u8; 32], prefix: &[u8], padding: Option<u8>) -> (found: bool)
        ensures
            found == node_in(overlay_entries(*self), hash@, prefix@, padding).is_some(),
    {
        hash_db::HashDB::contains(&self.inner, &sp_core::H256(*hash), (prefix, padding))
    }

    /// Calls `HashDB::emplace` of the overlay with a node that the database
    /// holds and the overlay does not hand out.
    #[verifier::external_body]
    pub(crate) fn emplace(&mut self, node: FetchedNode)
        requires
            node_in(overlay_entries(*old(self)), node.hash@, node.prefix@, node.padding) is None,
        ensures
            overlay_entries(*final(self)) == entries_with(
                overlay_entries(*old(self)),
                node.hash@,
                node.prefix@,
                node.padding,
                node.data@,
            ),
    {
        hash_db::HashDB::emplace(&mut self.inner, sp_core::H256(node.hash), (node.prefix.as_slice(), node.padding), node.data)
    }

    /// Calls `MemoryDB::drain` on a copy of the overlay, and hands out the
    /// entries of the map that it returns.
    #[verifier::external_body]
    pub(crate) fn entries(&self) -> (listed: Vec<(Vec<u8>, Vec<u8>, i32)>)
        ensures
            lists_entries(listed@, overlay_entries(*self)),
    {
        self.inner.clone().drain().into_iter().map(|(key, (value, rc))| (key, value, rc)).collect()
    }

    /// Calls `MemoryDB::clear`, which removes every entry.
    #[verifier::external_body]
    pub(crate) fn clear(&mut self)
        ensures
            overlay_entries(*final(self)) == (Map::<Seq<u8>, (Seq<u8>, int)>::empty()),
    {
        self.inner.clear()
    }

    /// Calls `TrieMut::insert` on a `TrieDBMut` built over the overlay from
    /// `root`, and drops the trie, which writes the changed nodes to the
    /// overlay. Returns the root of the changed trie. What comes of it
    /// depends on the entries of the overlay, the root, the key and the
    /// value alone.
    #[verifier::external_body]
    pub(crate) fn insert_leaf(&mut self, root: &[u8; 32], key: &[u8], value: &[u8]) -> (out: Result<[u8; 32], ()>)
        ensures
            overlay_entries(*final(self)) == after_insert(overlay_entries(*old(self)), root@, key@, value@).0,
            out matches Ok(new_root) ==> after_insert(overlay_entries(*old(self)), root@, key@, value@).1 == Some(new_root@),
            out is Err ==> after_insert(overlay_entries(*old(self)), root@, key@, value@).1 is None,
    {
        let mut new_root = sp_core::H256(*root);
        let mut trie = trie_db::TrieDBMutBuilder::<sp_trie::LayoutV1<sp_core::Blake2Hasher>>::from_existing(&mut self.inner, &mut new_root).build();
        let outcome = trie_db::TrieMut::insert(&mut trie, key, value).map(|_| ()).map_err(|_| ());
        drop(trie);
        outcome.map(|_| new_root.0)
    }

    /// Calls `TrieMut::remove` on a `TrieDBMut` built over the overlay from
    /// `root`, and drops the trie, which writes the changed nodes to the
    /// overlay. Returns the root of the changed trie. What comes of it
    /// depends on the entries of the overlay, the root and the key alone.
    #[verifier::external_body]
    pub(crate) fn remove_leaf(&mut self, root: &[u8; 32], key: &[u8]) -> (out: Result<[u8; 32], ()>)
        ensures
            overlay_entries(*final(self)) == after_remove(overlay_entries(*old(self)), root@, key@).0,
            out matches Ok(new_root) ==> after_remove(overlay_entries(*old(self)), root@, key@).1 == Some(new_root@),
            out is Err ==> after_remove(overlay_entries(*old(self)), root@, key@).1 is None,
    {
        let mut new_root = sp_core::H256(*root);
        let mut trie = trie_db::TrieDBMutBuilder::<sp_trie::LayoutV1<sp_core::Blake2Hasher>>::from_existing(&mut self.inner, &mut new_root).build();
        let outcome = trie_db::TrieMut::remove(&mut trie, key).map(|_| ()).map_err(|_| ());
        drop(trie);
        outcome.map(|_| new_root.0)
    }
}

} // verus!
