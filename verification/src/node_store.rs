//! The node store of a trie that lives in memory, and the operations of
//! `trie-db` on it.
//!
//! The store is a `MemoryDB` of `sp-trie`; the tries are those of `sp-trie`'s
//! layout `LayoutV1` over BLAKE2b-256. Nothing in this module is proved: each
//! function calls the outside crates, and its contract states what they do.

use vstd::prelude::*;
use crate::constants::empty_trie_root;

verus! {

/// The nodes of tries, by their hash.
#[verifier::external_body]
pub struct NodeStore {
    inner: sp_trie::MemoryDB<sp_core::Blake2Hasher>,
}

/// Collects the nodes that lookups visit, to make a proof of them.
#[verifier::external_body]
pub struct ProofRecorder {
    pub(crate) inner: sp_trie::recorder::Recorder<sp_core::Blake2Hasher>,
}

/// What the recorder holds: the nodes that were visited, by their hash.
pub uninterp spec fn recorded_nodes(recorder: ProofRecorder) -> Map<Seq<u8>, Seq<u8>>;

/// The nodes that a lookup of `key` visits in the trie that `root` names
/// among `nodes`, by their hash.
pub uninterp spec fn lookup_nodes(nodes: NodeStore, root: Seq<u8>, key: Seq<u8>) -> Map<Seq<u8>, Seq<u8>>;

/// The compact proof that `sp-trie` makes of recorded nodes for the root
/// `root`: its encoded nodes, or nothing where no proof can be made of them.
pub uninterp spec fn compacted(recorded: Map<Seq<u8>, Seq<u8>>, root: Seq<u8>) -> Option<Seq<Seq<u8>>>;

/// What a recorder holds after lookups of `keys`, one after the other, in
/// the trie that `root` names among `nodes`: a node that is visited again
/// stays as it was recorded first.
pub open spec fn proof_nodes(nodes: NodeStore, root: Seq<u8>, keys: Seq<Seq<u8>>) -> Map<Seq<u8>, Seq<u8>>
    decreases keys.len(),
{
    if keys.len() == 0 {
        Map::empty()
    } else {
        lookup_nodes(nodes, root, keys.last()).union_prefer_right(proof_nodes(nodes, root, keys.drop_last()))
    }
}

/// The compact proof that the values under `keys` stand in the trie that
/// `root` names among `nodes`, or nothing where none can be made.
pub open spec fn compact_proof_of(nodes: NodeStore, root: Seq<u8>, keys: Seq<Seq<u8>>) -> Option<Seq<Seq<u8>>> {
    compacted(proof_nodes(nodes, root, keys), root)
}

/// The keys and values of the trie that `root` names among `nodes`.
pub uninterp spec fn trie_leaves(nodes: NodeStore, root: Seq<u8>) -> Map<Seq<u8>, Seq<u8>>;

/// Every node of the trie that `root` names is among `nodes` and can be read.
pub uninterp spec fn trie_intact(nodes: NodeStore, root: Seq<u8>) -> bool;

/// What a walk over the leaves of the trie that `root` names among `nodes`
/// yields, item by item: a key with its value, or nothing where a node is
/// not there; nothing at all where the walk cannot begin.
pub uninterp spec fn walked(nodes: NodeStore, root: Seq<u8>) -> Option<Seq<Option<(Seq<u8>, Seq<u8>)>>>;

/// What a compact proof shows when it is replayed against `root`: nothing
/// where the proof does not decode to a trie with that root, else what the
/// walk over the decoded trie's leaves yields.
pub uninterp spec fn replayed_leaves(nodes: Seq<Seq<u8>>, root: Seq<u8>) -> Option<Seq<Option<(Seq<u8>, Seq<u8>)>>>;

/// The items of a walk are the leaves of the trie, each once.
pub open spec fn lists_leaves(items: Seq<Option<(Seq<u8>, Seq<u8>)>>, leaves: Map<Seq<u8>, Seq<u8>>) -> bool {
    &&& forall|i: int|
        0 <= i < items.len() ==> (#[trigger] items[i] matches Some(leaf) && leaves.contains_key(leaf.0)
            && leaves[leaf.0] == leaf.1)
    &&& forall|i: int, j: int| 0 <= i < j < items.len() ==> items[i] != items[j]
    &&& forall|key: Seq<u8>|
        leaves.contains_key(key) ==> exists|i: int| 0 <= i < items.len() && #[trigger] items[i] == Some((key, leaves[key]))
}

/// The walk has begun, and its items are the leaves of the trie, each once.
pub open spec fn walk_lists_leaves(
    walk: Option<Seq<Option<(Seq<u8>, Seq<u8>)>>>,
    leaves: Map<Seq<u8>, Seq<u8>>,
) -> bool {
    walk matches Some(items) && lists_leaves(items, leaves)
}

impl NodeStore {
    /// Calls `CompactProof::to_memory_db` with `root` as the root to expect,
    /// which decodes the nodes of the proof into a store, or fails where
    /// they do not make a trie with that root.
    #[verifier::external_body]
    pub(crate) fn from_compact_proof(nodes: &Vec<Vec<u8>>, root: &[u8; 32]) -> (decoded: Option<NodeStore>)
        ensures
            decoded is None ==> replayed_leaves(nodes.deep_view(), root@) is None,
            decoded matches Some(store) ==> replayed_leaves(nodes.deep_view(), root@) == walked(store, root@),
    {
        let compact = sp_trie::CompactProof { encoded_nodes: nodes.clone() };
        compact.to_memory_db::<sp_core::Blake2Hasher>(Some(&sp_core::H256(*root))).ok().map(|(db, _)| NodeStore { inner: db })
    }

    /// Calls `Trie::iter` on a `TrieDB` built over the store and hands out
    /// the items of the walk. On a trie whose nodes are all there, these are
    /// its leaves, each once.
    #[verifier::external_body]
    pub(crate) fn walk(&self, root: &[u8; 32]) -> (items: Option<Vec<Option<(Vec<u8>, Vec<u8>)>>>)
        ensures
            items.deep_view() == walked(*self, root@),
            trie_intact(*self, root@) ==> walk_lists_leaves(items.deep_view(), trie_leaves(*self, root@)),
    {
        let root = sp_core::H256(*root);
        let trie = trie_db::TrieDBBuilder::<sp_trie::LayoutV1<sp_core::Blake2Hasher>>::new(&self.inner, &root).build();
        let items = trie_db::Trie::iter(&trie).ok()?;
        Some(items.map(|item| item.ok()).collect())
    }

    /// Calls `MemoryDB::default_with_root`, which returns a store without
    /// nodes and the hash of the empty node: the root of the trie without
    /// leaves.
    #[verifier::external_body]
    pub(crate) fn empty() -> (out: (NodeStore, [u8; 32]))
        ensures
            out.1@ == empty_trie_root(),
            trie_intact(out.0, out.1@),
            trie_leaves(out.0, out.1@) == (Map::<Seq<u8>, Seq<u8>>::empty()),
    {
        let (db, root) = sp_trie::MemoryDB::<sp_core::Blake2Hasher>::default_with_root();
        (NodeStore { inner: db }, root.0)
    }

    /// Calls `Trie::get` on a `TrieDB` built over the store. On a trie whose
    /// nodes are all there, the call returns the value under `key`, if any.
    #[verifier::external_body]
    pub(crate) fn lookup(&self, root: &[u8; 32], key: &[u8]) -> (out: Result<Option<Vec<u8>>, ()>)
        ensures
            trie_intact(*self, root@) ==> out.is_ok(),
            trie_intact(*self, root@) ==> (out matches Ok(Some(value)) ==> trie_leaves(*self, root@).contains_key(key@)
                && trie_leaves(*self, root@)[key@] == value@),
            trie_intact(*self, root@) ==> (out matches Ok(None) ==> !trie_leaves(*self, root@).contains_key(key@)),
    {
        let root = sp_core::H256(*root);
        let trie = trie_db::TrieDBBuilder::<sp_trie::LayoutV1<sp_core::Blake2Hasher>>::new(&self.inner, &root).build();
        trie_db::Trie::get(&trie, key).map_err(|_| ())
    }

    /// Calls `Trie::get` as `lookup` does, on a `TrieDB` that hands every
    /// node it visits to `recorder`. The value found is that of `lookup`.
    /// The recorder keeps each node under its hash, unless it holds a node
    /// under that hash already.
    #[verifier::external_body]
    pub(crate) fn recorded_lookup(&self, root: &[u8; 32], recorder: &mut ProofRecorder, key: &[u8]) -> (out: Result<Option<Vec<u8>>, ()>)
        ensures
            trie_intact(*self, root@) ==> out.is_ok(),
            trie_intact(*self, root@) ==> (out matches Ok(Some(value)) ==> trie_leaves(*self, root@).contains_key(key@)
                && trie_leaves(*self, root@)[key@] == value@),
            trie_intact(*self, root@) ==> (out matches Ok(None) ==> !trie_leaves(*self, root@).contains_key(key@)),
            recorded_nodes(*final(recorder)) == lookup_nodes(*self, root@, key@).union_prefer_right(
                recorded_nodes(*old(recorder)),
            ),
    {
        let root = sp_core::H256(*root);
        let mut trie_recorder = recorder.inner.as_trie_recorder(root);
        let trie = trie_db::TrieDBBuilder::<sp_trie::LayoutV1<sp_core::Blake2Hasher>>::new(&self.inner, &root)
            .with_recorder(&mut trie_recorder)
            .build();
        trie_db::Trie::get(&trie, key).map_err(|_| ())
    }

    /// Calls `TrieMut::insert` on a `TrieDBMut` built over the store from
    /// `root`, and drops the trie, which writes the changed nodes to the
    /// store. On a trie whose nodes are all there, the call succeeds, and the
    /// trie under the root returned holds the former leaves and `value`
    /// under `key`.
    #[verifier::external_body]
    pub(crate) fn insert(&mut self, root: &[u8; 32], key: &[u8], value: &[u8]) -> (out: Result<[u8; 32], ()>)
        ensures
            trie_intact(*old(self), root@) ==> out.is_ok(),
            trie_intact(*old(self), root@) ==> (out matches Ok(new_root) ==> trie_intact(*final(self), new_root@)
                && trie_leaves(*final(self), new_root@) == trie_leaves(*old(self), root@).insert(key@, value@)),
    {
        let mut new_root = sp_core::H256(*root);
        let mut trie = trie_db::TrieDBMutBuilder::<sp_trie::LayoutV1<sp_core::Blake2Hasher>>::from_existing(&mut self.inner, &mut new_root).build();
        let outcome = trie_db::TrieMut::insert(&mut trie, key, value).map(|_| ()).map_err(|_| ());
        drop(trie);
        outcome.map(|_| new_root.0)
    }

    /// Calls `Trie::iter` on a `TrieDB` built over the store and counts the
    /// items. On a trie whose nodes are all there, these are its leaves.
    #[verifier::external_body]
    pub(crate) fn leaf_count(&self, root: &[u8; 32]) -> (out: Result<u64, ()>)
        ensures
            trie_intact(*self, root@) ==> out.is_ok(),
            trie_intact(*self, root@) ==> (out matches Ok(count) ==> trie_leaves(*self, root@).dom().finite()
                && count == trie_leaves(*self, root@).dom().len()),
    {
        let root = sp_core::H256(*root);
        let trie = trie_db::TrieDBBuilder::<sp_trie::LayoutV1<sp_core::Blake2Hasher>>::new(&self.inner, &root).build();
        trie_db::Trie::iter(&trie).map(|items| items.count() as u64).map_err(|_| ())
    }
}

impl ProofRecorder {
    /// Calls `Recorder::default`, which returns a recorder that holds nothing.
    #[verifier::external_body]
    pub(crate) fn new() -> (recorder: ProofRecorder)
        ensures
            recorded_nodes(recorder) == (Map::<Seq<u8>, Seq<u8>>::empty()),
    {
        ProofRecorder { inner: Default::default() }
    }

    /// Calls `Recorder::drain_storage_proof` and `StorageProof::to_compact_proof`,
    /// and hands out the encoded nodes of the compact proof, if it could be
    /// made. The proof is made of the nodes that the recorder holds.
    #[verifier::external_body]
    pub(crate) fn into_compact_proof(self, root: &[u8; 32]) -> (nodes: Option<Vec<Vec<u8>>>)
        ensures
            nodes.deep_view() == compacted(recorded_nodes(self), root@),
    {
        let root = sp_core::H256(*root);
        self.inner.drain_storage_proof().to_compact_proof::<sp_core::Blake2Hasher>(root).ok().map(|proof| proof.encoded_nodes)
    }
}

} // verus!
