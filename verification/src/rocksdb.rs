//! Files kept in a key-value database: the trie of one file, whose changes
//! are buffered in an overlay until they are committed, and the registry of
//! files.

use vstd::prelude::*;
use vstd::rwlock::{RwLock, RwLockPredicate};
use crate::bytes::{bytes_equal, bytes_from, join, starts_with};
use crate::codec::{encoded_chunk, json_of_metadata, metadata_from_json, metadata_of_json, metadata_to_json};
use crate::constants::{
    empty_root, empty_trie_root, BUCKET_PREFIX_COLUMN, CHUNKS_COLUMN, METADATA_COLUMN, ROOTS_COLUMN,
};
use crate::kv::{
    batch_delete, batch_put, hash_bytes, hash_to_bytes, new_batch, transaction_ops, BatchOp, StorageDb,
};
use crate::node_store::{compacted, recorded_nodes, ProofRecorder};
use crate::overlay::{
    after_insert, after_remove, entries_with, lists_entries, node_in, overlay_entries, FetchedNode, Overlay,
};
use crate::types::{
    chunk_from_lookup, chunk_key, chunk_of_lookup, chunk_view, chunks_needed, convert_raw_bytes_to_hasher_out,
    outcome_after_write, outcome_of, Chunk, ChunkId, ChunkWithId, FileKeyProof, FileMetadata, FileMetadataView, FileProof, FileStorageError, FileStorageWriteError,
    FileStorageWriteOutcome, Fingerprint,
};

verus! {

/// The change that writes one entry of the overlay to the database: an entry
/// without references deletes its node, any other puts it.
pub open spec fn change_of(key: Seq<u8>, entry: (Seq<u8>, int)) -> BatchOp {
    if entry.1 <= 0 {
        (CHUNKS_COLUMN, key, None)
    } else {
        (CHUNKS_COLUMN, key, Some(entry.0))
    }
}

/// `ops` holds the change of each entry of `entries` once, and no other.
pub open spec fn writes_entries(ops: Seq<BatchOp>, entries: Map<Seq<u8>, (Seq<u8>, int)>) -> bool {
    &&& forall|i: int|
        0 <= i < ops.len() ==> entries.contains_key(#[trigger] ops[i].1) && ops[i] == change_of(
            ops[i].1,
            entries[ops[i].1],
        )
    &&& forall|i: int, j: int| 0 <= i < j < ops.len() ==> ops[i].1 != ops[j].1
    &&& forall|key: Seq<u8>| entries.contains_key(key) ==> exists|i: int| 0 <= i < ops.len() && #[trigger] ops[i].1 == key
}

/// The entries of the overlay once the nodes `nodes` were put into it, the
/// last node first. A node that the overlay hands out already is passed
/// over.
pub open spec fn absorbed(entries: Map<Seq<u8>, (Seq<u8>, int)>, nodes: Seq<FetchedNode>) -> Map<
    Seq<u8>,
    (Seq<u8>, int),
>
    decreases nodes.len(),
{
    if nodes.len() == 0 {
        entries
    } else {
        let node = nodes.last();
        let next = if node_in(entries, node.hash@, node.prefix@, node.padding) is None {
            entries_with(entries, node.hash@, node.prefix@, node.padding, node.data@)
        } else {
            entries
        };
        absorbed(next, nodes.drop_last())
    }
}

/// How a commit ends that is to make `new_root` the root: nothing changes
/// where it is the root already; else the root is advanced and the overlay
/// emptied where the database took the batch, and both stay where it did not.
pub open spec fn commit_ends(
    pending: Map<Seq<u8>, (Seq<u8>, int)>,
    root: Seq<u8>,
    new_root: Seq<u8>,
    taken: bool,
    final_pending: Map<Seq<u8>, (Seq<u8>, int)>,
    final_root: Seq<u8>,
) -> bool {
    if new_root == root {
        taken && final_pending == pending && final_root == root
    } else if taken {
        final_pending == Map::<Seq<u8>, (Seq<u8>, int)>::empty() && final_root == new_root
    } else {
        final_pending == pending && final_root == root
    }
}

/// How the write of `data` as chunk `id` ends once the lookup has found no
/// such chunk and the database has handed out the nodes `fetched` on the
/// way: the nodes are put into the overlay, the leaf is inserted there, and
/// the new root is committed.
pub open spec fn write_ends(
    pending: Map<Seq<u8>, (Seq<u8>, int)>,
    root: Seq<u8>,
    id: u64,
    data: Seq<u8>,
    fetched: Seq<FetchedNode>,
    written: Result<(), FileStorageWriteError>,
    final_pending: Map<Seq<u8>, (Seq<u8>, int)>,
    final_root: Seq<u8>,
) -> bool {
    let staged = after_insert(absorbed(pending, fetched), root, chunk_key(id), encoded_chunk(id, data));
    match staged.1 {
        None => written == Err::<(), FileStorageWriteError>(FileStorageWriteError::FailedToInsertFileChunk)
            && final_pending == staged.0 && final_root == root,
        Some(new_root) => commit_ends(staged.0, root, new_root, written is Ok, final_pending, final_root) && (
        written matches Err(e) ==> e == FileStorageWriteError::FailedToPersistChanges),
    }
}

/// How the write of `data` as chunk `id` ends for what the lookup of the
/// chunk gave: a chunk that is there refuses the write, and a lookup that
/// fails ends it, both without any change; where no chunk is there, the
/// write goes on as `write_ends` says.
pub open spec fn write_found_ends(
    pending: Map<Seq<u8>, (Seq<u8>, int)>,
    root: Seq<u8>,
    id: u64,
    data: Seq<u8>,
    found: Result<Option<Vec<u8>>, ()>,
    fetched: Seq<FetchedNode>,
    written: Result<(), FileStorageWriteError>,
    final_pending: Map<Seq<u8>, (Seq<u8>, int)>,
    final_root: Seq<u8>,
) -> bool {
    match found {
        Ok(Some(_)) => written == Err::<(), FileStorageWriteError>(FileStorageWriteError::FileChunkAlreadyExists)
            && final_pending == pending && final_root == root,
        Err(_) => written == Err::<(), FileStorageWriteError>(FileStorageWriteError::FailedToGetFileChunk)
            && final_pending == pending && final_root == root,
        Ok(None) => write_ends(pending, root, id, data, fetched, written, final_pending, final_root),
    }
}

/// The overlay and the root after the chunks `0..count` were removed from
/// the trie with root `root`, one by one; no root where a removal fails,
/// and then nothing more is removed.
pub open spec fn chunks_removed(entries: Map<Seq<u8>, (Seq<u8>, int)>, root: Seq<u8>, count: nat) -> (
    Map<Seq<u8>, (Seq<u8>, int)>,
    Option<Seq<u8>>,
)
    decreases count,
{
    if count == 0 {
        (entries, Some(root))
    } else {
        let before = chunks_removed(entries, root, (count - 1) as nat);
        match before.1 {
            None => before,
            Some(reached) => after_remove(before.0, reached, chunk_key((count - 1) as u64)),
        }
    }
}

/// The overlay and the root after the chunks `0..count` and the entry under
/// the root itself were removed from the trie with root `root`.
pub open spec fn all_removed(entries: Map<Seq<u8>, (Seq<u8>, int)>, root: Seq<u8>, count: nat) -> (
    Map<Seq<u8>, (Seq<u8>, int)>,
    Option<Seq<u8>>,
) {
    let cleared = chunks_removed(entries, root, count);
    match cleared.1 {
        None => cleared,
        Some(reached) => after_remove(cleared.0, reached, root),
    }
}

/// How the removal of a trie ends once `count` chunks were counted and the
/// database has handed out the nodes `fetched` on the way: the nodes are
/// put into the overlay, the chunks `0..count` and the entry under the root
/// are removed there, and the new root is committed.
pub open spec fn delete_ends(
    pending: Map<Seq<u8>, (Seq<u8>, int)>,
    root: Seq<u8>,
    fetched: Seq<FetchedNode>,
    count: u64,
    deleted: Result<(), FileStorageWriteError>,
    final_pending: Map<Seq<u8>, (Seq<u8>, int)>,
    final_root: Seq<u8>,
) -> bool {
    let staged = all_removed(absorbed(pending, fetched), root, count as nat);
    match staged.1 {
        None => deleted == Err::<(), FileStorageWriteError>(FileStorageWriteError::FailedToDeleteChunk)
            && final_pending == staged.0 && final_root == root,
        Some(new_root) => commit_ends(staged.0, root, new_root, deleted is Ok, final_pending, final_root) && (
        deleted matches Err(e) ==> e == FileStorageWriteError::FailedToPersistChanges),
    }
}

/// How the removal of a trie ends for what the count of its chunks gave: a
/// count that fails ends the removal without any change; else the removal
/// goes on as `delete_ends` says.
pub open spec fn delete_counted_ends(
    pending: Map<Seq<u8>, (Seq<u8>, int)>,
    root: Seq<u8>,
    counted: Result<u64, ()>,
    fetched: Seq<FetchedNode>,
    deleted: Result<(), FileStorageWriteError>,
    final_pending: Map<Seq<u8>, (Seq<u8>, int)>,
    final_root: Seq<u8>,
) -> bool {
    match counted {
        Err(_) => deleted == Err::<(), FileStorageWriteError>(FileStorageWriteError::FailedToGetStoredChunksCount)
            && final_pending == pending && final_root == root,
        Ok(count) => delete_ends(pending, root, fetched, count, deleted, final_pending, final_root),
    }
}

/// Once a removal has failed, counting further chunks changes nothing.
pub proof fn lemma_removal_stops(entries: Map<Seq<u8>, (Seq<u8>, int)>, root: Seq<u8>, failed: nat, count: nat)
    requires
        failed <= count,
        chunks_removed(entries, root, failed).1 is None,
    ensures
        chunks_removed(entries, root, count) == chunks_removed(entries, root, failed),
    decreases count,
{
    if failed < count {
        lemma_removal_stops(entries, root, failed, (count - 1) as nat);
    }
}

/// The proof of a trie with root `root` for what the compaction of the
/// recorded nodes gave: the nodes with the root as fingerprint, or the
/// error that says that no proof could be made.
pub fn proof_from_compaction(compaction: Option<Vec<Vec<u8>>>, root: &[u8; 32]) -> (generated: Result<
    FileProof,
    FileStorageError,
>)
    ensures
        match compaction {
            Some(nodes) => generated matches Ok(file_proof) && file_proof.proof == nodes
                && file_proof.fingerprint.0 == *root,
            None => generated == Err::<FileProof, FileStorageError>(
                FileStorageError::FailedToGenerateCompactProof,
            ),
        },
{
    match compaction {
        Some(nodes) => Ok(FileProof { proof: nodes, fingerprint: Fingerprint::new(*root) }),
        None => Err(FileStorageError::FailedToGenerateCompactProof),
    }
}

/// Any list of fetched nodes may stand in the log.
pub struct AnyNodes;

impl RwLockPredicate<Vec<FetchedNode>> for AnyNodes {
    open spec fn inv(self, nodes: Vec<FetchedNode>) -> bool {
        true
    }
}

/// The trie of one file's chunks, with its nodes in the database.
pub struct RocksDbFileDataTrie<DB> {
    /// The database.
    storage: StorageDb<DB>,
    /// Changes that are not in the database yet.
    overlay: Overlay,
    /// The nodes that lookups took from the database while `recording`.
    fetched: RwLock<Vec<FetchedNode>, AnyNodes>,
    recording: bool,
    /// The root of the trie.
    root: [u8; 32],
}

impl<DB: kvdb::KeyValueDB> hash_db::HashDBRef<sp_core::Blake2Hasher, Vec<u8>> for RocksDbFileDataTrie<DB> {
    /// The node with hash `key` at `prefix`: from the overlay if it is
    /// there, else from the database.
    fn get(&self, key: &sp_core::H256, prefix: (&[u8], Option<u8>)) -> (node: Option<Vec<u8>>)
        ensures
            node_in(self.pending(), hash_bytes(*key), prefix.0@, prefix.1) matches Some(bytes) ==> (node matches Some(
                found,
            ) && found@ == bytes),
    {
        match self.overlay.node(key, prefix) {
            Some(node) => Some(node),
            None => match self.storage.get(key, prefix) {
                Ok(Some(node)) => {
                    if self.recording {
                        self.note_fetched(key, prefix, &node);
                    }
                    Some(node)
                },
                _ => None,
            },
        }
    }

    /// Tells whether the overlay hands out the node with hash `key` at
    /// `prefix`. The database is not asked.
    fn contains(&self, key: &sp_core::H256, prefix: (&[u8], Option<u8>)) -> (found: bool)
        ensures
            found == node_in(self.pending(), hash_bytes(*key), prefix.0@, prefix.1).is_some(),
    {
        let hash = hash_to_bytes(key);
        self.overlay.has_node(&hash, prefix.0, prefix.1)
    }
}

impl<DB: kvdb::KeyValueDB> RocksDbFileDataTrie<DB> {
    /// The root of the trie, as a sequence of bytes.
    pub closed spec fn root_bytes(&self) -> Seq<u8> {
        self.root@
    }

    /// The changes that are not written to the database yet.
    pub closed spec fn pending(&self) -> Map<Seq<u8>, (Seq<u8>, int)> {
        overlay_entries(self.overlay)
    }

    /// The database that holds the nodes of the trie.
    pub closed spec fn database(&self) -> StorageDb<DB> {
        self.storage
    }

    /// A trie without chunks.
    pub fn new(storage: StorageDb<DB>) -> (trie: Self)
        ensures
            trie.database() == storage,
            trie.root_bytes() == empty_trie_root(),
            trie.pending() == Map::<Seq<u8>, (Seq<u8>, int)>::empty(),
    {
        let (overlay, root) = Overlay::empty();
        RocksDbFileDataTrie {
            storage,
            overlay,
            fetched: RwLock::new(Vec::new(), Ghost(AnyNodes)),
            recording: false,
            root,
        }
    }

    /// The trie with root `root`, as the database has it.
    pub fn from_existing(storage: StorageDb<DB>, root: &[u8; 32]) -> (trie: Self)
        ensures
            trie.database() == storage,
            trie.root_bytes() == root@,
            trie.pending() == Map::<Seq<u8>, (Seq<u8>, int)>::empty(),
    {
        let (overlay, _) = Overlay::empty();
        RocksDbFileDataTrie {
            storage,
            overlay,
            fetched: RwLock::new(Vec::new(), Ghost(AnyNodes)),
            recording: false,
            root: *root,
        }
    }

    /// Keeps a copy of a node that the database handed out.
    fn note_fetched(&self, key: &sp_core::H256, prefix: (&[u8], Option<u8>), node: &Vec<u8>) {
        let fetched = FetchedNode {
            prefix: crate::bytes::bytes_from(prefix.0, 0),
            padding: prefix.1,
            hash: hash_to_bytes(key),
            data: node.clone(),
        };
        let (mut nodes, handle) = self.fetched.acquire_write();
        nodes.push(fetched);
        handle.release_write(nodes);
    }

    /// Hands out the nodes that were kept, and keeps none.
    fn take_fetched(&self) -> Vec<FetchedNode> {
        let (nodes, handle) = self.fetched.acquire_write();
        handle.release_write(Vec::new());
        nodes
    }

    /// Puts the nodes that a lookup took from the database into the overlay,
    /// where a change of the trie finds them. A node that the overlay hands
    /// out already is left as it is.
    fn absorb(&mut self, nodes: Vec<FetchedNode>)
        ensures
            final(self).pending() == absorbed(old(self).pending(), nodes@),
            final(self).root_bytes() == old(self).root_bytes(),
            final(self).database() == old(self).database(),
    {
        let mut nodes = nodes;
        let ghost all = nodes@;
        while nodes.len() > 0
            invariant
                absorbed(self.pending(), nodes@) == absorbed(old(self).pending(), all),
                self.root_bytes() == old(self).root_bytes(),
                self.database() == old(self).database(),
            decreases nodes.len(),
        {
            let ghost rest = nodes@;
            match nodes.pop() {
                Some(node) => {
                    assert(nodes@ == rest.drop_last());
                    assert(node == rest.last());
                    if !self.overlay.has_node(&node.hash, node.prefix.as_slice(), node.padding) {
                        self.overlay.emplace(node);
                    }
                },
                None => {},
            }
        }
    }

    /// Calls `Trie::get` on a `TrieDB` built over this trie's nodes.
    #[verifier::external_body]
    fn lookup(&self, key: &[u8]) -> (out: Result<Option<Vec<u8>>, ()>)
    {
        let root = sp_core::H256(self.root);
        let trie = trie_db::TrieDBBuilder::<sp_trie::LayoutV1<sp_core::Blake2Hasher>>::new(self, &root).build();
        trie_db::Trie::get(&trie, key).map_err(|_| ())
    }

    /// Calls `Trie::get` as `lookup` does, on a `TrieDB` that hands every
    /// node it visits to `recorder`. The recorder keeps what it held, and
    /// each node visited under its hash, unless it holds a node under that
    /// hash already.
    #[verifier::external_body]
    fn recorded_lookup(&self, recorder: &mut ProofRecorder, key: &[u8]) -> (out: Result<Option<Vec<u8>>, ()>)
        ensures
            exists|visited: Map<Seq<u8>, Seq<u8>>| recorded_nodes(*final(recorder)) == #[trigger] visited.union_prefer_right(recorded_nodes(*old(recorder))),
    {
        let root = sp_core::H256(self.root);
        let mut trie_recorder = recorder.inner.as_trie_recorder(root);
        let trie = trie_db::TrieDBBuilder::<sp_trie::LayoutV1<sp_core::Blake2Hasher>>::new(self, &root)
            .with_recorder(&mut trie_recorder)
            .build();
        trie_db::Trie::get(&trie, key).map_err(|_| ())
    }

    /// Calls `Trie::iter` on a `TrieDB` built over this trie's nodes and
    /// counts the items.
    #[verifier::external_body]
    fn leaf_count(&self) -> (out: Result<u64, ()>)
    {
        let root = sp_core::H256(self.root);
        let trie = trie_db::TrieDBBuilder::<sp_trie::LayoutV1<sp_core::Blake2Hasher>>::new(self, &root).build();
        trie_db::Trie::iter(&trie).map(|items| items.count() as u64).map_err(|_| ())
    }

    /// The batch that writes the overlay to the database.
    fn changes(&self) -> (transaction: kvdb::DBTransaction)
        ensures
            writes_entries(transaction_ops(transaction), self.pending()),
    {
        let mut transaction = new_batch();
        let entries = self.overlay.entries();
        let mut i: usize = 0;
        while i < entries.len()
            invariant
                i <= entries@.len(),
                lists_entries(entries@, self.pending()),
                transaction_ops(transaction).len() == i,
                forall|j: int|
                    0 <= j < i ==> #[trigger] transaction_ops(transaction)[j] == change_of(
                        entries@[j].0@,
                        (entries@[j].1@, entries@[j].2 as int),
                    ),
            decreases entries@.len() - i,
        {
            let entry = &entries[i];
            if entry.2 <= 0 {
                batch_delete(&mut transaction, CHUNKS_COLUMN, entry.0.as_slice());
            } else {
                batch_put(&mut transaction, CHUNKS_COLUMN, entry.0.as_slice(), entry.1.as_slice());
            }
            i += 1;
        }
        proof {
            let ops = transaction_ops(transaction);
            let pending = self.pending();
            assert forall|j: int| 0 <= j < ops.len() implies pending.contains_key(#[trigger] ops[j].1) && ops[j]
                == change_of(ops[j].1, pending[ops[j].1]) by {
                assert(pending.contains_key(entries@[j].0@));
            }
            assert forall|key: Seq<u8>| pending.contains_key(key) implies exists|j: int|
                0 <= j < ops.len() && #[trigger] ops[j].1 == key by {
                let j = choose|j: int| 0 <= j < entries@.len() && #[trigger] entries@[j].0@ == key;
                assert(ops[j].1 == key);
            }
        }
        transaction
    }

    /// Writes the changes of the overlay to the database and makes
    /// `new_root` the root of the trie. Nothing is written where `new_root`
    /// is the root already. Where the database refuses the batch, root and
    /// overlay stay as they were.
    pub fn commit(&mut self, new_root: [u8; 32]) -> (committed: Result<(), FileStorageError>)
        ensures
            final(self).database() == old(self).database(),
            old(self).root_bytes() == new_root@ ==> committed.is_ok() && final(self).root_bytes() == old(self).root_bytes() && final(self).pending() == old(self).pending(),
            old(self).root_bytes() != new_root@ ==> match committed {
                Ok(_) => final(self).root_bytes() == new_root@ && final(self).pending() == Map::<
                    Seq<u8>,
                    (Seq<u8>, int),
                >::empty(),
                Err(e) => e == FileStorageError::FailedToWriteToStorage && final(self).root_bytes() == old(self).root_bytes() && final(self).pending() == old(self).pending(),
            },
    {
        if bytes_equal(self.root.as_slice(), new_root.as_slice()) {
            return Ok(());
        }
        let transaction = self.changes();
        match self.storage.write(transaction) {
            Ok(_) => {},
            Err(e) => {
                return Err(e);
            },
        }
        self.overlay.clear();
        self.root = new_root;
        Ok(())
    }

    /// The root of the trie as it is now.
    pub fn get_root(&self) -> (root: &[u8; 32])
        ensures
            root@ == self.root_bytes(),
    {
        &self.root
    }

    /// The number of chunks in the trie.
    pub fn stored_chunks_count(&self) -> (count: Result<u64, FileStorageError>)
        ensures
            count matches Err(e) ==> e == FileStorageError::FailedToConstructTrieIter,
    {
        match self.leaf_count() {
            Ok(count) => Ok(count),
            Err(_) => Err(FileStorageError::FailedToConstructTrieIter),
        }
    }

    /// Makes a compact proof that the chunks `chunk_ids` stand in the trie:
    /// each chunk is looked up with a recorder, and the proof is what
    /// `sp-trie` makes of the nodes recorded. A lookup that gives no chunk
    /// ends the proving with the error that `chunk_of_lookup` names.
    pub fn generate_proof(&self, chunk_ids: &Vec<ChunkId>) -> (generated: Result<FileProof, FileStorageError>)
        ensures
            match generated {
                Ok(file_proof) => file_proof.fingerprint.0@ == self.root_bytes(),
                Err(e) => e == FileStorageError::FailedToGetFileChunk || e
                    == FileStorageError::FileChunkDoesNotExist || e == FileStorageError::FailedToParseChunkWithId
                    || e == FileStorageError::FailedToGenerateCompactProof,
            },
            generated matches Ok(file_proof) ==> exists|recorded: Map<Seq<u8>, Seq<u8>>| #[trigger]
                compacted(recorded, self.root_bytes()) == Some(file_proof.proof.deep_view()),
            generated matches Err(e) ==> e == FileStorageError::FailedToGenerateCompactProof || exists|
                found: Result<Option<Vec<u8>>, ()>,
            | #[trigger] chunk_of_lookup(found) == Err::<Seq<u8>, FileStorageError>(e),
            chunk_ids@.len() == 0 ==> match compacted(Map::empty(), self.root_bytes()) {
                Some(nodes) => generated matches Ok(file_proof) && file_proof.proof.deep_view() == nodes,
                None => generated == Err::<FileProof, FileStorageError>(
                    FileStorageError::FailedToGenerateCompactProof,
                ),
            },
    {
        let mut recorder = ProofRecorder::new();
        let mut i: usize = 0;
        while i < chunk_ids.len()
            invariant
                i <= chunk_ids.len(),
                i == 0 ==> recorded_nodes(recorder) == Map::<Seq<u8>, Seq<u8>>::empty(),
            decreases chunk_ids.len() - i,
        {
            let key = chunk_ids[i].as_trie_key();
            let found = self.recorded_lookup(&mut recorder, key.as_slice());
            let ghost looked_up = found;
            let chunk = chunk_from_lookup(found);
            match chunk {
                Ok(_) => {},
                Err(e) => {
                    assert(chunk_of_lookup(looked_up) == Err::<Seq<u8>, FileStorageError>(e));
                    return Err(e);
                },
            }
            i += 1;
        }
        let ghost recorded = recorded_nodes(recorder);
        let generated = proof_from_compaction(recorder.into_compact_proof(&self.root), &self.root);
        proof {
            if generated is Ok {
                assert(compacted(recorded, self.root_bytes()) == Some(generated->Ok_0.proof.deep_view()));
            }
        }
        generated
    }

    /// The bytes of chunk `chunk_id`, if the chunk was written: what
    /// `chunk_of_lookup` makes of the lookup of the chunk's key.
    pub fn get_chunk(&self, chunk_id: &ChunkId) -> (chunk: Result<Chunk, FileStorageError>)
        ensures
            chunk matches Err(e) ==> e == FileStorageError::FailedToGetFileChunk || e
                == FileStorageError::FileChunkDoesNotExist || e == FileStorageError::FailedToParseChunkWithId,
            exists|found: Result<Option<Vec<u8>>, ()>| chunk_view(chunk) == #[trigger] chunk_of_lookup(found),
    {
        let key = chunk_id.as_trie_key();
        let found = self.lookup(key.as_slice());
        let ghost looked_up = found;
        let chunk = chunk_from_lookup(found);
        assert(chunk_view(chunk) == chunk_of_lookup(looked_up));
        chunk
    }

    /// Looks `key` up and keeps the nodes that the database hands out on the way.
    fn lookup_and_keep(&mut self, key: &[u8]) -> (out: (Result<Option<Vec<u8>>, ()>, Vec<FetchedNode>))
        ensures
            final(self).pending() == old(self).pending(),
            final(self).root_bytes() == old(self).root_bytes(),
            final(self).database() == old(self).database(),
            !final(self).recording,
    {
        let _ = self.take_fetched();
        self.recording = true;
        let found = self.lookup(key);
        self.recording = false;
        (found, self.take_fetched())
    }

    /// Goes on with the write of `data` as chunk `chunk_id` once the chunk
    /// was looked up: `found` is what the lookup gave, `fetched` the nodes
    /// that the database handed out on the way. A chunk that is there
    /// refuses the write; where none is there, the nodes are put into the
    /// overlay, the leaf is inserted, and the new root is committed.
    pub fn write_found(
        &mut self,
        found: Result<Option<Vec<u8>>, ()>,
        fetched: Vec<FetchedNode>,
        chunk_id: &ChunkId,
        data: &Chunk,
    ) -> (written: Result<(), FileStorageWriteError>)
        requires
            data@.len() <= u32::MAX,
        ensures
            final(self).database() == old(self).database(),
            write_found_ends(
                old(self).pending(),
                old(self).root_bytes(),
                chunk_id.0,
                data@,
                found,
                fetched@,
                written,
                final(self).pending(),
                final(self).root_bytes(),
            ),
    {
        match found {
            Ok(Some(_)) => {
                return Err(FileStorageWriteError::FileChunkAlreadyExists);
            },
            Ok(None) => {},
            Err(_) => {
                return Err(FileStorageWriteError::FailedToGetFileChunk);
            },
        }
        let key = chunk_id.as_trie_key();
        self.absorb(fetched);
        let decoded_chunk = ChunkWithId { chunk_id: *chunk_id, data: data.clone() };
        let leaf = decoded_chunk.encode();
        match self.overlay.insert_leaf(&self.root, key.as_slice(), leaf.as_slice()) {
            Ok(new_root) => match self.commit(new_root) {
                Ok(_) => Ok(()),
                Err(_) => Err(FileStorageWriteError::FailedToPersistChanges),
            },
            Err(_) => Err(FileStorageWriteError::FailedToInsertFileChunk),
        }
    }

    /// Writes `data` as chunk `chunk_id`, unless that chunk is there
    /// already, and commits the change: the chunk is looked up, and the
    /// write ends as `write_found_ends` says for what the lookup gave and
    /// for the nodes that the database handed out.
    pub fn write_chunk(&mut self, chunk_id: &ChunkId, data: &Chunk) -> (written: Result<(), FileStorageWriteError>)
        requires
            data@.len() <= u32::MAX,
        ensures
            final(self).database() == old(self).database(),
            written is Err ==> final(self).root_bytes() == old(self).root_bytes(),
            exists|found: Result<Option<Vec<u8>>, ()>, fetched: Seq<FetchedNode>| #[trigger]
                write_found_ends(
                    old(self).pending(),
                    old(self).root_bytes(),
                    chunk_id.0,
                    data@,
                    found,
                    fetched,
                    written,
                    final(self).pending(),
                    final(self).root_bytes(),
                ),
    {
        let key = chunk_id.as_trie_key();
        let (found, fetched) = self.lookup_and_keep(key.as_slice());
        let ghost looked_up = found;
        let ghost handed_out = fetched@;
        let written = self.write_found(found, fetched, chunk_id, data);
        assert(write_found_ends(
            old(self).pending(),
            old(self).root_bytes(),
            chunk_id.0,
            data@,
            looked_up,
            handed_out,
            written,
            self.pending(),
            self.root_bytes(),
        ));
        written
    }

    /// Counts the chunks and keeps the nodes that the database hands out on the way.
    fn count_and_keep(&mut self) -> (out: (Result<u64, ()>, Vec<FetchedNode>))
        ensures
            final(self).pending() == old(self).pending(),
            final(self).root_bytes() == old(self).root_bytes(),
            final(self).database() == old(self).database(),
            !final(self).recording,
    {
        let _ = self.take_fetched();
        self.recording = true;
        let count = self.leaf_count();
        self.recording = false;
        (count, self.take_fetched())
    }

    /// Goes on with the removal of the trie once its chunks were counted:
    /// `counted` is what the count gave, `fetched` the nodes that the
    /// database handed out on the way. A count that fails ends the removal;
    /// else the nodes are put into the overlay, the chunks `0..count` and
    /// the entry under the root itself are removed, and the new root is
    /// committed.
    pub fn delete_counted(&mut self, counted: Result<u64, ()>, fetched: Vec<FetchedNode>) -> (deleted: Result<
        (),
        FileStorageWriteError,
    >)
        ensures
            final(self).database() == old(self).database(),
            delete_counted_ends(
                old(self).pending(),
                old(self).root_bytes(),
                counted,
                fetched@,
                deleted,
                final(self).pending(),
                final(self).root_bytes(),
            ),
    {
        let stored_chunks_count = match counted {
            Ok(count) => count,
            Err(_) => {
                return Err(FileStorageWriteError::FailedToGetStoredChunksCount);
            },
        };
        self.absorb(fetched);
        let ghost staged = self.pending();
        let trie_root_key = self.root;
        let mut root = self.root;
        let mut failed = false;
        let mut chunk_id: u64 = 0;
        while chunk_id < stored_chunks_count && !failed
            invariant
                chunk_id <= stored_chunks_count,
                self.root_bytes() == old(self).root_bytes(),
                self.database() == old(self).database(),
                trie_root_key@ == old(self).root_bytes(),
                self.pending() == chunks_removed(staged, trie_root_key@, chunk_id as nat).0,
                failed ==> chunks_removed(staged, trie_root_key@, chunk_id as nat).1 is None,
                !failed ==> chunks_removed(staged, trie_root_key@, chunk_id as nat).1 == Some(root@),
            decreases stored_chunks_count - chunk_id, if failed { 0int } else { 1int },
        {
            let key = ChunkId::new(chunk_id).as_trie_key();
            match self.overlay.remove_leaf(&root, key.as_slice()) {
                Ok(reached) => {
                    root = reached;
                },
                Err(_) => {
                    failed = true;
                },
            }
            chunk_id += 1;
        }
        proof {
            if failed {
                lemma_removal_stops(staged, trie_root_key@, chunk_id as nat, stored_chunks_count as nat);
            }
        }
        let removed_root = if failed {
            Err(())
        } else {
            self.overlay.remove_leaf(&root, trie_root_key.as_slice())
        };
        match removed_root {
            Ok(new_root) => match self.commit(new_root) {
                Ok(_) => Ok(()),
                Err(_) => Err(FileStorageWriteError::FailedToPersistChanges),
            },
            Err(_) => Err(FileStorageWriteError::FailedToDeleteChunk),
        }
    }

    /// Removes the chunks `0..stored_chunks_count()` and the entry under the
    /// root itself, and commits the change: the chunks are counted, and the
    /// removal ends as `delete_counted_ends` says for what the count gave
    /// and for the nodes that the database handed out.
    pub fn delete(&mut self) -> (deleted: Result<(), FileStorageWriteError>)
        ensures
            final(self).database() == old(self).database(),
            deleted is Err ==> final(self).root_bytes() == old(self).root_bytes(),
            exists|counted: Result<u64, ()>, fetched: Seq<FetchedNode>| #[trigger]
                delete_counted_ends(
                    old(self).pending(),
                    old(self).root_bytes(),
                    counted,
                    fetched,
                    deleted,
                    final(self).pending(),
                    final(self).root_bytes(),
                ),
    {
        let (counted, fetched) = self.count_and_keep();
        let ghost handed_out = fetched@;
        let deleted = self.delete_counted(counted, fetched);
        assert(delete_counted_ends(
            old(self).pending(),
            old(self).root_bytes(),
            counted,
            handed_out,
            deleted,
            self.pending(),
            self.root_bytes(),
        ));
        deleted
    }
}

/// The metadata that a record of the database holds, if it holds any: the
/// five fields read from JSON, with a fingerprint of 32 bytes.
pub open spec fn metadata_of_record(record: Seq<u8>) -> Option<FileMetadataView> {
    match metadata_of_json(record) {
        Some(fields) => if fields.4.len() == 32 {
            Some(
                FileMetadataView {
                    owner: fields.0,
                    bucket_id: fields.1,
                    location: fields.2,
                    file_size: fields.3,
                    fingerprint: fields.4,
                },
            )
        } else {
            None
        },
        None => None,
    }
}

/// The record under which the database keeps `metadata`, if it can be written.
pub open spec fn record_of_metadata(metadata: FileMetadataView) -> Option<Seq<u8>> {
    json_of_metadata(
        metadata.owner,
        metadata.bucket_id,
        metadata.location,
        metadata.file_size,
        metadata.fingerprint,
    )
}

/// Reads the metadata of a file from what the database holds under the
/// file's key: nothing where there is no record, and an error where the
/// record cannot be read.
pub fn metadata_from_stored(raw: Option<Vec<u8>>) -> (found: Result<Option<FileMetadata>, FileStorageError>)
    ensures
        metadata_view(found) == metadata_of_read(Ok(raw)),
        raw is None ==> found matches Ok(None),
        raw matches Some(record) ==> match metadata_of_record(record@) {
            Some(metadata) => found matches Ok(Some(read)) && read@ == metadata,
            None => found == Err::<Option<FileMetadata>, FileStorageError>(
                FileStorageError::FailedToParseFileMetadata,
            ),
        },
{
    let record = match raw {
        Some(record) => record,
        None => {
            return Ok(None);
        },
    };
    let (owner, bucket_id, location, file_size, raw_fingerprint) = match metadata_from_json(record.as_slice()) {
        Some(fields) => fields,
        None => {
            return Err(FileStorageError::FailedToParseFileMetadata);
        },
    };
    match convert_raw_bytes_to_hasher_out(raw_fingerprint) {
        Ok(fingerprint) => Ok(
            Some(FileMetadata { owner, bucket_id, location, file_size, fingerprint: Fingerprint::new(fingerprint) }),
        ),
        Err(_) => Err(FileStorageError::FailedToParseFileMetadata),
    }
}

/// The record under which the database keeps `metadata`.
pub fn metadata_to_stored(metadata: &FileMetadata) -> (record: Result<Vec<u8>, FileStorageError>)
    ensures
        match record_of_metadata(metadata@) {
            Some(text) => record matches Ok(written) && written@ == text,
            None => record == Err::<Vec<u8>, FileStorageError>(FileStorageError::FailedToParseFileMetadata),
        },
{
    match metadata_to_json(
        &metadata.owner,
        &metadata.bucket_id,
        &metadata.location,
        metadata.file_size,
        &metadata.fingerprint.0,
    ) {
        Some(record) => Ok(record),
        None => Err(FileStorageError::FailedToParseFileMetadata),
    }
}

/// Reads the root that a file's trie has now from what the database holds
/// under the file's fingerprint: exactly 32 bytes are a root.
pub fn partial_root_from_stored(raw: Option<Vec<u8>>) -> (root: Result<[u8; 32], FileStorageError>)
    ensures
        match raw {
            Some(bytes) => if bytes@.len() == 32 {
                root matches Ok(hash) && hash@ == bytes@
            } else {
                root == Err::<[u8; 32], FileStorageError>(FileStorageError::FailedToParsePartialRoot)
            },
            None => root == Err::<[u8; 32], FileStorageError>(FileStorageError::FailedToParsePartialRoot),
        },
{
    match raw {
        Some(bytes) => match convert_raw_bytes_to_hasher_out(bytes) {
            Ok(hash) => Ok(hash),
            Err(_) => Err(FileStorageError::FailedToParsePartialRoot),
        },
        None => Err(FileStorageError::FailedToParsePartialRoot),
    }
}

/// The file key that stands behind the bucket id in an entry of the bucket
/// index: what follows the first `prefix_len` bytes, if that is 32 bytes.
pub fn file_key_of_entry(entry: &Vec<u8>, prefix_len: usize) -> (key: Result<[u8; 32], FileStorageError>)
    ensures
        entry@.len() == prefix_len + 32 ==> (key matches Ok(hash) && hash@ == entry@.subrange(
            prefix_len as int,
            entry@.len() as int,
        )),
        entry@.len() != prefix_len + 32 ==> key == Err::<[u8; 32], FileStorageError>(
            FileStorageError::FailedToParseFingerprint,
        ),
{
    if entry.len() < prefix_len {
        return Err(FileStorageError::FailedToParseFingerprint);
    }
    let raw = bytes_from(entry.as_slice(), prefix_len);
    match convert_raw_bytes_to_hasher_out(raw) {
        Ok(hash) => Ok(hash),
        Err(_) => Err(FileStorageError::FailedToParseFingerprint),
    }
}

/// Tells whether chunks of a file may be proved, from the number of chunks
/// that the file has and the root of its trie: the file must be complete.
pub fn check_complete(metadata: &FileMetadata, stored_chunks: u64, root: &[u8; 32]) -> (checked: Result<
    (),
    FileStorageError,
>)
    ensures
        stored_chunks != chunks_needed(metadata.file_size) ==> checked == Err::<(), FileStorageError>(
            FileStorageError::IncompleteFile,
        ),
        stored_chunks == chunks_needed(metadata.file_size) && root@ != metadata.fingerprint.0@ ==> checked == Err::<
            (),
            FileStorageError,
        >(FileStorageError::FingerprintAndStoredFileMismatch),
        stored_chunks == chunks_needed(metadata.file_size) && root@ == metadata.fingerprint.0@ ==> checked.is_ok(),
{
    if metadata.chunks_count() != stored_chunks {
        return Err(FileStorageError::IncompleteFile);
    }
    if !bytes_equal(metadata.fingerprint.0.as_slice(), root.as_slice()) {
        return Err(FileStorageError::FingerprintAndStoredFileMismatch);
    }
    Ok(())
}

/// The batch that registers a file: its metadata under its key, the root of
/// its trie under its fingerprint, and its entry in the bucket index.
pub fn registration(key: &[u8; 32], record: &Vec<u8>, fingerprint: &[u8; 32], root: &[u8; 32], full_key: &Vec<u8>) -> (
    transaction: kvdb::DBTransaction
)
    ensures
        transaction_ops(transaction) == seq![
            (METADATA_COLUMN, key@, Some(record@)),
            (ROOTS_COLUMN, fingerprint@, Some(root@)),
            (BUCKET_PREFIX_COLUMN, full_key@, Some(Seq::<u8>::empty())),
        ],
{
    let mut transaction = new_batch();
    batch_put(&mut transaction, METADATA_COLUMN, key.as_slice(), record.as_slice());
    batch_put(&mut transaction, ROOTS_COLUMN, fingerprint.as_slice(), root.as_slice());
    let nothing: Vec<u8> = Vec::new();
    batch_put(&mut transaction, BUCKET_PREFIX_COLUMN, full_key.as_slice(), nothing.as_slice());
    assert(nothing@ =~= Seq::<u8>::empty());
    assert(transaction_ops(transaction) =~= seq![
        (METADATA_COLUMN, key@, Some(record@)),
        (ROOTS_COLUMN, fingerprint@, Some(root@)),
        (BUCKET_PREFIX_COLUMN, full_key@, Some(Seq::<u8>::empty())),
    ]);
    transaction
}

/// The batch that records the root that a file's trie has now.
pub fn root_update(fingerprint: &[u8; 32], root: &[u8; 32]) -> (transaction: kvdb::DBTransaction)
    ensures
        transaction_ops(transaction) == seq![(ROOTS_COLUMN, fingerprint@, Some(root@))],
{
    let mut transaction = new_batch();
    batch_put(&mut transaction, ROOTS_COLUMN, fingerprint.as_slice(), root.as_slice());
    assert(transaction_ops(transaction) =~= seq![(ROOTS_COLUMN, fingerprint@, Some(root@))]);
    transaction
}

/// The batch that removes what `registration` has written of a file.
pub fn removal(key: &[u8; 32], fingerprint: &[u8; 32], full_key: &Vec<u8>) -> (transaction: kvdb::DBTransaction)
    ensures
        transaction_ops(transaction) == seq![
            (METADATA_COLUMN, key@, None::<Seq<u8>>),
            (ROOTS_COLUMN, fingerprint@, None::<Seq<u8>>),
            (BUCKET_PREFIX_COLUMN, full_key@, None::<Seq<u8>>),
        ],
{
    let mut transaction = new_batch();
    batch_delete(&mut transaction, METADATA_COLUMN, key.as_slice());
    batch_delete(&mut transaction, ROOTS_COLUMN, fingerprint.as_slice());
    batch_delete(&mut transaction, BUCKET_PREFIX_COLUMN, full_key.as_slice());
    assert(transaction_ops(transaction) =~= seq![
        (METADATA_COLUMN, key@, None::<Seq<u8>>),
        (ROOTS_COLUMN, fingerprint@, None::<Seq<u8>>),
        (BUCKET_PREFIX_COLUMN, full_key@, None::<Seq<u8>>),
    ]);
    transaction
}

/// The error of a write that stands for an error met while a file was opened.
pub fn write_error_of(error: FileStorageError) -> (mapped: FileStorageWriteError)
    ensures
        mapped == write_error(error),
{
    match error {
        FileStorageError::FileDoesNotExist => FileStorageWriteError::FileDoesNotExist,
        FileStorageError::FailedToReadStorage => FileStorageWriteError::FailedToReadStorage,
        FileStorageError::FailedToParsePartialRoot => FileStorageWriteError::FailedToParsePartialRoot,
        FileStorageError::FailedToParseFingerprint => FileStorageWriteError::FailedToParseFingerprint,
        _ => FileStorageWriteError::FailedToParseFileMetadata,
    }
}

/// The error of a write that stands for an error met while a file was opened.
pub open spec fn write_error(error: FileStorageError) -> FileStorageWriteError {
    match error {
        FileStorageError::FileDoesNotExist => FileStorageWriteError::FileDoesNotExist,
        FileStorageError::FailedToReadStorage => FileStorageWriteError::FailedToReadStorage,
        FileStorageError::FailedToParsePartialRoot => FileStorageWriteError::FailedToParsePartialRoot,
        FileStorageError::FailedToParseFingerprint => FileStorageWriteError::FailedToParseFingerprint,
        _ => FileStorageWriteError::FailedToParseFileMetadata,
    }
}

/// What a read of the database can end with: a value, nothing, or the error
/// of a read that failed.
pub type Read = Result<Option<Vec<u8>>, FileStorageError>;

/// `read` is a way in which a read of the database ends.
pub open spec fn is_read(read: Read) -> bool {
    read matches Err(e) ==> e == FileStorageError::FailedToReadStorage
}

/// The metadata that a read of a file's record yields: nothing where there
/// is no record, an error where the read fails or the record is none.
pub open spec fn metadata_of_read(read: Read) -> Result<Option<FileMetadataView>, FileStorageError> {
    match read {
        Err(e) => Err(e),
        Ok(None) => Ok(None),
        Ok(Some(record)) => match metadata_of_record(record@) {
            Some(metadata) => Ok(Some(metadata)),
            None => Err(FileStorageError::FailedToParseFileMetadata),
        },
    }
}

/// Metadata that was looked for, as mathematical values.
pub open spec fn metadata_view(found: Result<Option<FileMetadata>, FileStorageError>) -> Result<
    Option<FileMetadataView>,
    FileStorageError,
> {
    match found {
        Err(e) => Err(e),
        Ok(None) => Ok(None),
        Ok(Some(metadata)) => Ok(Some(metadata@)),
    }
}

/// The file that the reads of its record and of its root yield: its
/// metadata and the root that its trie has now. A file without record does
/// not exist; a root must be there and have 32 bytes.
pub open spec fn file_of_reads(record: Read, root: Read) -> Result<(FileMetadataView, Seq<u8>), FileStorageError> {
    match metadata_of_read(record) {
        Err(e) => Err(e),
        Ok(None) => Err(FileStorageError::FileDoesNotExist),
        Ok(Some(metadata)) => match root {
            Err(e) => Err(e),
            Ok(None) => Err(FileStorageError::FailedToParsePartialRoot),
            Ok(Some(bytes)) => if bytes@.len() == 32 {
                Ok((metadata, bytes@))
            } else {
                Err(FileStorageError::FailedToParsePartialRoot)
            },
        },
    }
}

/// What the reader of a chunk of a file gets for the reads of the file's
/// record and root and for the lookup of the chunk in the file's trie.
pub open spec fn chunk_of_reads(record: Read, root: Read, found: Result<Option<Vec<u8>>, ()>) -> Result<
    Seq<u8>,
    FileStorageError,
> {
    match file_of_reads(record, root) {
        Err(e) => Err(e),
        Ok(_) => chunk_of_lookup(found),
    }
}

/// The number of chunks of a file for the reads of the file's record and
/// root and for what the count of the leaves of the file's trie gave.
pub open spec fn count_of_reads(record: Read, root: Read, counted: Result<u64, ()>) -> Result<u64, FileStorageError> {
    match file_of_reads(record, root) {
        Err(e) => Err(e),
        Ok(_) => match counted {
            Ok(count) => Ok(count),
            Err(_) => Err(FileStorageError::FailedToConstructTrieIter),
        },
    }
}

/// `outcome` ends as `expected` does: with success, or with the same error.
pub open spec fn ends_as(outcome: Result<(), FileStorageError>, expected: Result<(), FileStorageError>) -> bool {
    match expected {
        Ok(_) => outcome is Ok,
        Err(e) => outcome matches Err(met) && met == e,
    }
}

/// How the registration of a file ends for the read of the record under
/// the file's key, and for whether the database took the batch: a file
/// that has a record exists already.
pub open spec fn registered(record: Read, metadata: FileMetadataView, taken: bool) -> Result<(), FileStorageError> {
    match metadata_of_read(record) {
        Err(e) => Err(e),
        Ok(Some(_)) => Err(FileStorageError::FileAlreadyExists),
        Ok(None) => if record_of_metadata(metadata) is None {
            Err(FileStorageError::FailedToParseFileMetadata)
        } else if taken {
            Ok(())
        } else {
            Err(FileStorageError::FailedToWriteToStorage)
        },
    }
}

/// How the removal of a file ends for the reads of the file's record and
/// root, for whether the file's trie could be emptied, and for whether the
/// database took the batch.
pub open spec fn file_deleted(record: Read, root: Read, emptied: bool, taken: bool) -> Result<(), FileStorageError> {
    match file_of_reads(record, root) {
        Err(e) => Err(e),
        Ok(_) => if !emptied {
            Err(FileStorageError::FailedToDeleteFileChunk)
        } else if taken {
            Ok(())
        } else {
            Err(FileStorageError::FailedToWriteToStorage)
        },
    }
}

/// How the write of a chunk of a file ends for the reads of the file's
/// record and root, for how the write to the file's trie ended, for whether
/// the database took the new root, for what the count of the leaves gave,
/// and for the root that the trie has after the write.
pub open spec fn chunk_written(
    record: Read,
    root: Read,
    written: Result<(), FileStorageWriteError>,
    taken: bool,
    counted: Result<u64, ()>,
    new_root: Seq<u8>,
) -> Result<FileStorageWriteOutcome, FileStorageWriteError> {
    match file_of_reads(record, root) {
        Err(e) => Err(write_error(e)),
        Ok(file) => match written {
            Err(e) => Err(e),
            Ok(_) => if !taken {
                Err(FileStorageWriteError::FailedToUpdatePartialRoot)
            } else {
                match counted {
                    Err(_) => Err(FileStorageWriteError::FailedToConstructTrieIter),
                    Ok(count) => Ok(outcome_of(file.0, count, new_root)),
                }
            },
        },
    }
}

/// How the write of a chunk of a file ends, with all that the database and
/// `trie-db` gave on the way: the reads of the file's record and root, the
/// lookup of the chunk with the nodes handed out, the write to the file's
/// trie as `write_found_ends` says it of the trie that was opened, and the
/// result as `chunk_written` says it for the root that this write left.
pub open spec fn file_write_ends(
    record: Read,
    root: Read,
    id: u64,
    data: Seq<u8>,
    found: Result<Option<Vec<u8>>, ()>,
    fetched: Seq<FetchedNode>,
    to_trie: Result<(), FileStorageWriteError>,
    final_pending: Map<Seq<u8>, (Seq<u8>, int)>,
    new_root: Seq<u8>,
    taken: bool,
    counted: Result<u64, ()>,
    written: Result<FileStorageWriteOutcome, FileStorageWriteError>,
) -> bool {
    &&& is_read(record)
    &&& is_read(root)
    &&& file_of_reads(record, root) matches Ok(file) ==> write_found_ends(
        Map::<Seq<u8>, (Seq<u8>, int)>::empty(),
        file.1,
        id,
        data,
        found,
        fetched,
        to_trie,
        final_pending,
        new_root,
    )
    &&& written == chunk_written(record, root, to_trie, taken, counted, new_root)
}

/// How the removal of a file ends, with all that the database and `trie-db`
/// gave on the way: the reads of the file's record and root, the count of
/// the chunks with the nodes handed out, the removal of the file's trie as
/// `delete_counted_ends` says it of the trie that was opened, and the
/// result as `file_deleted` says it for whether that removal succeeded.
pub open spec fn file_removal_ends(
    record: Read,
    root: Read,
    counted: Result<u64, ()>,
    fetched: Seq<FetchedNode>,
    emptied: Result<(), FileStorageWriteError>,
    final_pending: Map<Seq<u8>, (Seq<u8>, int)>,
    final_root: Seq<u8>,
    taken: bool,
    deleted: Result<(), FileStorageError>,
) -> bool {
    &&& is_read(record)
    &&& is_read(root)
    &&& file_of_reads(record, root) matches Ok(file) ==> delete_counted_ends(
        Map::<Seq<u8>, (Seq<u8>, int)>::empty(),
        file.1,
        counted,
        fetched,
        emptied,
        final_pending,
        final_root,
    )
    &&& ends_as(deleted, file_deleted(record, root, emptied is Ok, taken))
}

/// How the proving of chunks of a file ends for the reads of the file's
/// record and root, for what the count of the leaves gave, and for the
/// proof that the file's trie made: only a complete file is proved, and the
/// proof is that of the trie with the file's metadata.
pub open spec fn proof_ends(
    record: Read,
    root: Read,
    counted: Result<u64, ()>,
    made: Result<FileProof, FileStorageError>,
    generated: Result<FileKeyProof, FileStorageError>,
) -> bool {
    match file_of_reads(record, root) {
        Err(e) => generated matches Err(met) && met == e,
        Ok(file) => match counted {
            Err(_) => generated matches Err(met) && met == FileStorageError::FailedToConstructTrieIter,
            Ok(count) => if count != chunks_needed(file.0.file_size) {
                generated matches Err(met) && met == FileStorageError::IncompleteFile
            } else if file.1 != file.0.fingerprint {
                generated matches Err(met) && met == FileStorageError::FingerprintAndStoredFileMismatch
            } else {
                match made {
                    Err(e) => generated matches Err(met) && met == e,
                    Ok(trie_proof) => generated matches Ok(file_proof) && file_proof.file_metadata@ == file.0
                        && file_proof.fingerprint == trie_proof.fingerprint && file_proof.proof == trie_proof.proof,
                }
            },
        },
    }
}

/// `outcome` is a way in which the removal of a file ends.
pub open spec fn is_removal(outcome: Result<(), FileStorageError>) -> bool {
    outcome matches Err(e) ==> e == FileStorageError::FailedToReadStorage || e
        == FileStorageError::FailedToParseFileMetadata || e == FileStorageError::FileDoesNotExist || e
        == FileStorageError::FailedToParsePartialRoot || e == FileStorageError::FailedToDeleteFileChunk || e
        == FileStorageError::FailedToWriteToStorage
}

/// An entry of the bucket index has 64 bytes: a bucket id and a file key.
pub open spec fn is_index_entry(entry: Seq<u8>) -> bool {
    entry.len() == 64
}

/// The first error among `outcomes`, if there is one.
pub open spec fn first_failure(outcomes: Seq<Result<(), FileStorageError>>) -> Result<(), FileStorageError>
    decreases outcomes.len(),
{
    if outcomes.len() == 0 {
        Ok(())
    } else {
        match outcomes[0] {
            Err(e) => Err(e),
            Ok(_) => first_failure(outcomes.subrange(1, outcomes.len() as int)),
        }
    }
}

/// How the removal of a bucket ends for the entries that the bucket index
/// lists and for how the removal of each entry's file ends: an entry that
/// is none fails the removal before any file is removed; else the files are
/// removed in order, up to the first removal that fails.
pub open spec fn bucket_removed(entries: Seq<Vec<u8>>, outcomes: Seq<Result<(), FileStorageError>>) -> Result<
    (),
    FileStorageError,
> {
    if exists|i: int| 0 <= i < entries.len() && !#[trigger] is_index_entry(entries[i]@) {
        Err(FileStorageError::FailedToParseFingerprint)
    } else {
        first_failure(outcomes)
    }
}

/// Where all outcomes before the one at `at` are successes, the first
/// failure is the outcome at `at`.
pub proof fn lemma_first_failure(outcomes: Seq<Result<(), FileStorageError>>, at: int)
    requires
        0 <= at < outcomes.len(),
        forall|k: int| 0 <= k < at ==> (#[trigger] outcomes[k]) is Ok,
        outcomes[at] is Err,
    ensures
        first_failure(outcomes) == outcomes[at],
    decreases at,
{
    if at > 0 {
        let rest = outcomes.subrange(1, outcomes.len() as int);
        assert(outcomes[0] is Ok);
        assert forall|k: int| 0 <= k < at - 1 implies (#[trigger] rest[k]) is Ok by {
            assert(outcomes[k + 1] is Ok);
        }
        lemma_first_failure(rest, at - 1);
    }
}

/// Where all outcomes are successes, there is no failure.
pub proof fn lemma_no_failure(outcomes: Seq<Result<(), FileStorageError>>)
    requires
        forall|k: int| 0 <= k < outcomes.len() ==> (#[trigger] outcomes[k]) is Ok,
    ensures
        first_failure(outcomes) is Ok,
    decreases outcomes.len(),
{
    if outcomes.len() > 0 {
        let rest = outcomes.subrange(1, outcomes.len() as int);
        assert(outcomes[0] is Ok);
        assert forall|k: int| 0 <= k < rest.len() implies (#[trigger] rest[k]) is Ok by {
            assert(outcomes[k + 1] is Ok);
        }
        lemma_no_failure(rest);
    }
}

/// The metadata that the read `read` of a file's record yields: the error
/// of a read that failed, nothing where there is no record, and else what
/// the record holds, or an error where it cannot be read.
pub fn metadata_from_read(read: Read) -> (found: Result<Option<FileMetadata>, FileStorageError>)
    ensures
        metadata_view(found) == metadata_of_read(read),
        read matches Err(e) ==> found == Err::<Option<FileMetadata>, FileStorageError>(e),
        read matches Ok(None) ==> found matches Ok(None),
        read matches Ok(Some(record)) ==> match metadata_of_record(record@) {
            Some(metadata) => found matches Ok(Some(held)) && held@ == metadata,
            None => found == Err::<Option<FileMetadata>, FileStorageError>(
                FileStorageError::FailedToParseFileMetadata,
            ),
        },
{
    match read {
        Ok(raw) => metadata_from_stored(raw),
        Err(e) => Err(e),
    }
}

/// The metadata of a file that is to be opened, for what was found under
/// its key: a file without metadata does not exist.
pub fn registered_file(found: Result<Option<FileMetadata>, FileStorageError>) -> (file: Result<
    FileMetadata,
    FileStorageError,
>)
    ensures
        match found {
            Err(e) => file == Err::<FileMetadata, FileStorageError>(e),
            Ok(None) => file == Err::<FileMetadata, FileStorageError>(FileStorageError::FileDoesNotExist),
            Ok(Some(metadata)) => file == Ok::<FileMetadata, FileStorageError>(metadata),
        },
{
    match found {
        Ok(Some(metadata)) => Ok(metadata),
        Ok(None) => Err(FileStorageError::FileDoesNotExist),
        Err(e) => Err(e),
    }
}

/// The root that a file's trie has now, for the read `read` of what the
/// database holds under the file's fingerprint: the error of a read that
/// failed, and else what `partial_root_from_stored` makes of the value.
pub fn partial_root_from_read(read: Read) -> (root: Result<[u8; 32], FileStorageError>)
    ensures
        match read {
            Err(e) => root == Err::<[u8; 32], FileStorageError>(e),
            Ok(Some(bytes)) => if bytes@.len() == 32 {
                root matches Ok(hash) && hash@ == bytes@
            } else {
                root == Err::<[u8; 32], FileStorageError>(FileStorageError::FailedToParsePartialRoot)
            },
            Ok(None) => root == Err::<[u8; 32], FileStorageError>(FileStorageError::FailedToParsePartialRoot),
        },
{
    match read {
        Ok(raw) => partial_root_from_stored(raw),
        Err(e) => Err(e),
    }
}

/// The batch that registers the file `key` with the root `root` of its
/// trie, for what was found under the key: the error of the search, or that
/// the file exists already where metadata was found, or that the metadata
/// has no record; else the batch of `registration`, with the file's entry
/// in the bucket index under its bucket id followed by its key.
pub fn registration_of(
    found: Result<Option<FileMetadata>, FileStorageError>,
    key: &[u8; 32],
    metadata: &FileMetadata,
    root: &[u8; 32],
) -> (batch: Result<kvdb::DBTransaction, FileStorageError>)
    ensures
        match found {
            Err(e) => batch matches Err(met) && met == e,
            Ok(Some(_)) => batch matches Err(met) && met == FileStorageError::FileAlreadyExists,
            Ok(None) => match record_of_metadata(metadata@) {
                None => batch matches Err(met) && met == FileStorageError::FailedToParseFileMetadata,
                Some(text) => batch matches Ok(transaction) && transaction_ops(transaction) == seq![
                    (METADATA_COLUMN, key@, Some(text)),
                    (ROOTS_COLUMN, metadata@.fingerprint, Some(root@)),
                    (BUCKET_PREFIX_COLUMN, metadata@.bucket_id + key@, Some(Seq::<u8>::empty())),
                ],
            },
        },
{
    match found {
        Ok(None) => {},
        Ok(Some(_)) => {
            return Err(FileStorageError::FileAlreadyExists);
        },
        Err(e) => {
            return Err(e);
        },
    }
    let record = match metadata_to_stored(metadata) {
        Ok(record) => record,
        Err(e) => {
            return Err(e);
        },
    };
    let full_key = join(metadata.bucket_id.as_slice(), key.as_slice());
    Ok(registration(key, &record, &metadata.fingerprint.0, root, &full_key))
}

/// The batch that records the root `root` of a file's trie after a write,
/// for how the write to the trie ended: a write that failed is passed on,
/// and nothing is recorded.
pub fn root_update_of(to_trie: Result<(), FileStorageWriteError>, fingerprint: &[u8; 32], root: &[u8; 32]) -> (batch:
    Result<kvdb::DBTransaction, FileStorageWriteError>)
    ensures
        match to_trie {
            Err(e) => batch matches Err(met) && met == e,
            Ok(_) => batch matches Ok(transaction) && transaction_ops(transaction) == seq![
                (ROOTS_COLUMN, fingerprint@, Some(root@)),
            ],
        },
{
    match to_trie {
        Ok(_) => Ok(root_update(fingerprint, root)),
        Err(e) => Err(e),
    }
}

/// How a write goes on for the database's answer `taken` to the batch that
/// records the new root: a batch that was not taken ends the write.
pub fn root_recorded(taken: Result<(), FileStorageError>) -> (recorded: Result<(), FileStorageWriteError>)
    ensures
        taken is Ok ==> recorded is Ok,
        taken is Err ==> recorded == Err::<(), FileStorageWriteError>(
            FileStorageWriteError::FailedToUpdatePartialRoot,
        ),
{
    match taken {
        Ok(_) => Ok(()),
        Err(_) => Err(FileStorageWriteError::FailedToUpdatePartialRoot),
    }
}

/// What a write has made of the file with `metadata`, for the count
/// `counted` of the chunks that the file has now and the root `root` of its
/// trie: a count that failed ends the write; else the file is complete
/// exactly if it has as many chunks as its size asks for and the root is
/// its fingerprint.
pub fn outcome_at_count(counted: Result<u64, FileStorageError>, metadata: &FileMetadata, root: &[u8; 32]) -> (written:
    Result<FileStorageWriteOutcome, FileStorageWriteError>)
    ensures
        match counted {
            Err(_) => written == Err::<FileStorageWriteOutcome, FileStorageWriteError>(
                FileStorageWriteError::FailedToConstructTrieIter,
            ),
            Ok(count) => written == Ok::<FileStorageWriteOutcome, FileStorageWriteError>(
                outcome_of(metadata@, count, root@),
            ),
        },
{
    match counted {
        Ok(count) => Ok(outcome_after_write(metadata, count, root)),
        Err(_) => Err(FileStorageWriteError::FailedToConstructTrieIter),
    }
}

/// Tells whether chunks of the file with `metadata` may be proved, for the
/// count `counted` of the chunks that the file has and the root `root` of
/// its trie: a count that failed is passed on; with another number of
/// chunks than its size asks for the file is incomplete; with another root
/// than its fingerprint what is stored is not the file.
pub fn complete_at_count(counted: Result<u64, FileStorageError>, metadata: &FileMetadata, root: &[u8; 32]) -> (checked:
    Result<(), FileStorageError>)
    ensures
        match counted {
            Err(e) => checked == Err::<(), FileStorageError>(e),
            Ok(count) => if count != chunks_needed(metadata@.file_size) {
                checked == Err::<(), FileStorageError>(FileStorageError::IncompleteFile)
            } else if root@ != metadata@.fingerprint {
                checked == Err::<(), FileStorageError>(FileStorageError::FingerprintAndStoredFileMismatch)
            } else {
                checked is Ok
            },
        },
{
    match counted {
        Ok(count) => check_complete(metadata, count, root),
        Err(e) => Err(e),
    }
}

/// The proof of a file for the proof `made` of its trie: the trie's proof
/// with the file's metadata, or the error that the trie met.
pub fn file_proof_of(made: Result<FileProof, FileStorageError>, metadata: FileMetadata) -> (generated: Result<
    FileKeyProof,
    FileStorageError,
>)
    ensures
        match made {
            Err(e) => generated == Err::<FileKeyProof, FileStorageError>(e),
            Ok(trie_proof) => generated matches Ok(file_proof) && file_proof.file_metadata == metadata
                && file_proof.fingerprint == trie_proof.fingerprint && file_proof.proof == trie_proof.proof,
        },
{
    match made {
        Ok(trie_proof) => Ok(trie_proof.to_file_key_proof(metadata)),
        Err(e) => Err(e),
    }
}

/// The batch that removes the file `key` from the registry, for how the
/// removal of the chunks of its trie ended: chunks that could not be
/// removed end the removal; else the batch of `removal`, with the file's
/// entry in the bucket index under its bucket id followed by its key.
pub fn removal_of(emptied: Result<(), FileStorageWriteError>, key: &[u8; 32], metadata: &FileMetadata) -> (batch:
    Result<kvdb::DBTransaction, FileStorageError>)
    ensures
        match emptied {
            Err(_) => batch matches Err(met) && met == FileStorageError::FailedToDeleteFileChunk,
            Ok(_) => batch matches Ok(transaction) && transaction_ops(transaction) == seq![
                (METADATA_COLUMN, key@, None::<Seq<u8>>),
                (ROOTS_COLUMN, metadata@.fingerprint, None::<Seq<u8>>),
                (BUCKET_PREFIX_COLUMN, metadata@.bucket_id + key@, None::<Seq<u8>>),
            ],
        },
{
    match emptied {
        Ok(_) => {
            let full_key = join(metadata.bucket_id.as_slice(), key.as_slice());
            Ok(removal(key, &metadata.fingerprint.0, &full_key))
        },
        Err(_) => Err(FileStorageError::FailedToDeleteFileChunk),
    }
}

/// The file key of each of `entries`, which the bucket index listed: the
/// 32 bytes behind the bucket id. One entry that has not 64 bytes fails
/// them all.
pub fn file_keys_of_entries(entries: &Vec<Vec<u8>>) -> (keys: Result<Vec<[u8; 32]>, FileStorageError>)
    ensures
        (exists|i: int| 0 <= i < entries@.len() && !#[trigger] is_index_entry(entries@[i]@)) ==> keys == Err::<
            Vec<[u8; 32]>,
            FileStorageError,
        >(FileStorageError::FailedToParseFingerprint),
        (forall|i: int| 0 <= i < entries@.len() ==> #[trigger] is_index_entry(entries@[i]@)) ==> (keys matches Ok(
            listed,
        ) && listed@.len() == entries@.len() && forall|i: int|
            0 <= i < listed@.len() ==> (#[trigger] listed@[i])@ == entries@[i]@.subrange(32, 64)),
{
    let mut listed: Vec<[u8; 32]> = Vec::new();
    let mut i: usize = 0;
    while i < entries.len()
        invariant
            i <= entries.len(),
            listed@.len() == i,
            forall|k: int| 0 <= k < i ==> is_index_entry(#[trigger] entries@[k]@),
            forall|k: int| 0 <= k < i ==> (#[trigger] listed@[k])@ == entries@[k]@.subrange(32, 64),
        decreases entries.len() - i,
    {
        match file_key_of_entry(&entries[i], 32) {
            Ok(key) => listed.push(key),
            Err(e) => {
                assert(!is_index_entry(entries@[i as int]@));
                return Err(e);
            },
        }
        i += 1;
    }
    Ok(listed)
}

/// The registry of files kept in a database.
pub struct RocksDbFileStorage<DB> {
    storage: StorageDb<DB>,
}

impl<DB: kvdb::KeyValueDB> RocksDbFileStorage<DB> {
    /// The database that holds the files of the registry.
    pub closed spec fn database(&self) -> StorageDb<DB> {
        self.storage
    }

    /// The registry of the files in the database `storage`.
    pub fn new(storage: StorageDb<DB>) -> (registry: Self)
        ensures
            registry.database() == storage,
    {
        RocksDbFileStorage { storage }
    }

    /// A trie without chunks, for a file that is to be registered.
    pub fn new_file_data_trie(&self) -> (trie: RocksDbFileDataTrie<DB>)
        ensures
            trie.database() == self.database(),
            trie.root_bytes() == empty_trie_root(),
            trie.pending() == Map::<Seq<u8>, (Seq<u8>, int)>::empty(),
    {
        RocksDbFileDataTrie::new(self.storage.clone())
    }

    /// The file `opened` is the file `file`, with its trie in this
    /// registry's database and without changes that wait to be written; or
    /// both are the same error.
    pub open spec fn opens(
        &self,
        opened: Result<(FileMetadata, RocksDbFileDataTrie<DB>), FileStorageError>,
        file: Result<(FileMetadataView, Seq<u8>), FileStorageError>,
    ) -> bool {
        match file {
            Err(e) => opened matches Err(met) && met == e,
            Ok(known) => opened matches Ok(at_hand) && at_hand.0@ == known.0 && at_hand.1.root_bytes() == known.1
                && at_hand.1.pending() == Map::<Seq<u8>, (Seq<u8>, int)>::empty() && at_hand.1.database()
                == self.database(),
        }
    }

    /// The metadata of the file `key`, if the database has a record of it:
    /// what `metadata_from_read` makes of the read of the record.
    pub fn get_metadata(&self, key: &[u8; 32]) -> (found: Result<Option<FileMetadata>, FileStorageError>)
        ensures
            found matches Err(e) ==> e == FileStorageError::FailedToReadStorage || e
                == FileStorageError::FailedToParseFileMetadata,
            exists|record: Read| is_read(record) && #[trigger] metadata_of_read(record) == metadata_view(found),
    {
        let read = self.storage.read(METADATA_COLUMN, key.as_slice());
        let ghost record = read;
        let found = metadata_from_read(read);
        assert(metadata_of_read(record) == metadata_view(found));
        found
    }

    /// The metadata of the file `key` and its trie as the database has it
    /// now: what `file_of_reads` makes of the reads of the file's record and
    /// of the root kept under its fingerprint. The file is that of
    /// `registered_file`, the root that of `partial_root_from_read`.
    fn open_file(&self, key: &[u8; 32]) -> (opened: Result<(FileMetadata, RocksDbFileDataTrie<DB>), FileStorageError>)
        ensures
            match opened {
                Ok(file) => file.1.pending() == Map::<Seq<u8>, (Seq<u8>, int)>::empty(),
                Err(e) => e == FileStorageError::FailedToReadStorage || e
                    == FileStorageError::FailedToParseFileMetadata || e == FileStorageError::FileDoesNotExist || e
                    == FileStorageError::FailedToParsePartialRoot,
            },
            exists|record: Read, root: Read|
                is_read(record) && is_read(root) && self.opens(opened, #[trigger] file_of_reads(record, root)),
    {
        let found = self.get_metadata(key);
        let ghost record = choose|record: Read|
            is_read(record) && #[trigger] metadata_of_read(record) == metadata_view(found);
        let ghost no_root: Read = Ok(None);
        let metadata = match registered_file(found) {
            Ok(metadata) => metadata,
            Err(e) => {
                let opened = Err(e);
                assert(self.opens(opened, file_of_reads(record, no_root)));
                return opened;
            },
        };
        let read = self.storage.read(ROOTS_COLUMN, metadata.fingerprint.0.as_slice());
        let ghost root = read;
        let partial_root = match partial_root_from_read(read) {
            Ok(partial_root) => partial_root,
            Err(e) => {
                let opened = Err(e);
                assert(self.opens(opened, file_of_reads(record, root)));
                return opened;
            },
        };
        let file_trie = RocksDbFileDataTrie::from_existing(self.storage.clone(), &partial_root);
        let opened = Ok((metadata, file_trie));
        assert(self.opens(opened, file_of_reads(record, root)));
        opened
    }

    /// The bytes of chunk `chunk_id` of the file `key`: what
    /// `chunk_of_reads` makes of the reads of the file and of the lookup of
    /// the chunk.
    pub fn get_chunk(&self, key: &[u8; 32], chunk_id: &ChunkId) -> (chunk: Result<Chunk, FileStorageError>)
        ensures
            chunk matches Err(e) ==> e == FileStorageError::FailedToReadStorage || e
                == FileStorageError::FailedToParseFileMetadata || e == FileStorageError::FileDoesNotExist || e
                == FileStorageError::FailedToParsePartialRoot || e == FileStorageError::FailedToGetFileChunk || e
                == FileStorageError::FileChunkDoesNotExist || e == FileStorageError::FailedToParseChunkWithId,
            exists|record: Read, root: Read, found: Result<Option<Vec<u8>>, ()>|
                is_read(record) && is_read(root) && chunk_view(chunk) == #[trigger] chunk_of_reads(record, root, found),
    {
        let opened = self.open_file(key);
        let ghost (record, root) = choose|record: Read, root: Read|
            is_read(record) && is_read(root) && self.opens(opened, #[trigger] file_of_reads(record, root));
        match opened {
            Ok((_, file_trie)) => {
                let chunk = file_trie.get_chunk(chunk_id);
                proof {
                    let found = choose|found: Result<Option<Vec<u8>>, ()>|
                        chunk_view(chunk) == #[trigger] chunk_of_lookup(found);
                    assert(chunk_view(chunk) == chunk_of_reads(record, root, found));
                }
                chunk
            },
            Err(e) => {
                let chunk = Err(e);
                assert(chunk_view(chunk) == chunk_of_reads(record, root, Err::<Option<Vec<u8>>, ()>(())));
                chunk
            },
        }
    }

    /// Writes a chunk of the file `key`, records the new root of the file's
    /// trie, and tells whether the file is complete now. The write ends as
    /// `file_write_ends` says, for what the database and the file's trie
    /// gave.
    pub fn write_chunk(&mut self, key: &[u8; 32], chunk_id: &ChunkId, data: &Chunk) -> (written: Result<
        FileStorageWriteOutcome,
        FileStorageWriteError,
    >)
        requires
            data@.len() <= u32::MAX,
        ensures
            final(self).database() == old(self).database(),
            written matches Err(e) ==> e != FileStorageWriteError::FailedToDeleteChunk && e
                != FileStorageWriteError::FailedToGetStoredChunksCount && e
                != FileStorageWriteError::FailedToWriteToStorage,
            exists|
                record: Read,
                root: Read,
                found: Result<Option<Vec<u8>>, ()>,
                fetched: Seq<FetchedNode>,
                to_trie: Result<(), FileStorageWriteError>,
                final_pending: Map<Seq<u8>, (Seq<u8>, int)>,
                new_root: Seq<u8>,
                taken: bool,
                counted: Result<u64, ()>,
            | #[trigger]
                file_write_ends(
                    record,
                    root,
                    chunk_id.0,
                    data@,
                    found,
                    fetched,
                    to_trie,
                    final_pending,
                    new_root,
                    taken,
                    counted,
                    written,
                ),
    {
        let opened = self.open_file(key);
        let ghost (record, root) = choose|record: Read, root: Read|
            is_read(record) && is_read(root) && self.opens(opened, #[trigger] file_of_reads(record, root));
        let ghost nothing_found = Err::<Option<Vec<u8>>, ()>(());
        let ghost no_nodes = Seq::<FetchedNode>::empty();
        let ghost no_changes = Map::<Seq<u8>, (Seq<u8>, int)>::empty();
        let (metadata, mut file_trie) = match opened {
            Ok(file) => file,
            Err(e) => {
                let written = Err(write_error_of(e));
                assert(file_write_ends(
                    record,
                    root,
                    chunk_id.0,
                    data@,
                    nothing_found,
                    no_nodes,
                    Ok::<(), FileStorageWriteError>(()),
                    no_changes,
                    Seq::<u8>::empty(),
                    true,
                    Err::<u64, ()>(()),
                    written,
                ));
                return written;
            },
        };
        let ghost opened_root = file_trie.root_bytes();
        let to_trie = file_trie.write_chunk(chunk_id, data);
        let ghost by_trie = to_trie;
        let ghost new_root = file_trie.root_bytes();
        let ghost final_pending = file_trie.pending();
        let ghost (found, fetched) = choose|found: Result<Option<Vec<u8>>, ()>, fetched: Seq<FetchedNode>| #[trigger]
            write_found_ends(
                no_changes,
                opened_root,
                chunk_id.0,
                data@,
                found,
                fetched,
                by_trie,
                final_pending,
                new_root,
            );
        let ghost not_counted = Err::<u64, ()>(());
        let transaction = match root_update_of(to_trie, &metadata.fingerprint.0, file_trie.get_root()) {
            Ok(transaction) => transaction,
            Err(e) => {
                let written = Err(e);
                assert(file_write_ends(
                    record,
                    root,
                    chunk_id.0,
                    data@,
                    found,
                    fetched,
                    by_trie,
                    final_pending,
                    new_root,
                    true,
                    not_counted,
                    written,
                ));
                return written;
            },
        };
        match root_recorded(self.storage.write(transaction)) {
            Ok(_) => {},
            Err(e) => {
                let written = Err(e);
                assert(file_write_ends(
                    record,
                    root,
                    chunk_id.0,
                    data@,
                    found,
                    fetched,
                    by_trie,
                    final_pending,
                    new_root,
                    false,
                    not_counted,
                    written,
                ));
                return written;
            },
        }
        let count = file_trie.stored_chunks_count();
        let ghost counted = match count {
            Ok(stored_chunks) => Ok::<u64, ()>(stored_chunks),
            Err(_) => not_counted,
        };
        let written = outcome_at_count(count, &metadata, file_trie.get_root());
        assert(file_write_ends(
            record,
            root,
            chunk_id.0,
            data@,
            found,
            fetched,
            by_trie,
            final_pending,
            new_root,
            true,
            counted,
            written,
        ));
        written
    }

    /// Registers a file with the root `root` of its trie: what `registered`
    /// makes of the read of the file's record and of the database's answer
    /// to the batch of `registration_of`.
    fn register(&mut self, key: [u8; 32], metadata: FileMetadata, root: &[u8; 32]) -> (inserted: Result<
        (),
        FileStorageError,
    >)
        ensures
            final(self).database() == old(self).database(),
            inserted matches Err(e) ==> e == FileStorageError::FailedToReadStorage || e
                == FileStorageError::FailedToParseFileMetadata || e == FileStorageError::FileAlreadyExists || e
                == FileStorageError::FailedToWriteToStorage,
            exists|record: Read, taken: bool|
                is_read(record) && ends_as(inserted, #[trigger] registered(record, metadata@, taken)),
    {
        let found = self.get_metadata(&key);
        let ghost read = choose|record: Read|
            is_read(record) && #[trigger] metadata_of_read(record) == metadata_view(found);
        let transaction = match registration_of(found, &key, &metadata, root) {
            Ok(transaction) => transaction,
            Err(e) => {
                let inserted = Err(e);
                assert(ends_as(inserted, registered(read, metadata@, true)));
                return inserted;
            },
        };
        let inserted = self.storage.write(transaction);
        assert(ends_as(inserted, registered(read, metadata@, inserted is Ok)));
        inserted
    }

    /// Registers a file of which no chunk has been written yet: what
    /// `registered` makes of the read of the file's record and of the
    /// database's answer to the batch.
    pub fn insert_file(&mut self, key: [u8; 32], metadata: FileMetadata) -> (inserted: Result<(), FileStorageError>)
        ensures
            final(self).database() == old(self).database(),
            inserted matches Err(e) ==> e == FileStorageError::FailedToReadStorage || e
                == FileStorageError::FailedToParseFileMetadata || e == FileStorageError::FileAlreadyExists || e
                == FileStorageError::FailedToWriteToStorage,
            exists|record: Read, taken: bool|
                is_read(record) && ends_as(inserted, #[trigger] registered(record, metadata@, taken)),
    {
        let empty_root = empty_root();
        self.register(key, metadata, &empty_root)
    }

    /// Registers a file of which chunks have been written to `file_data`:
    /// what `registered` makes of the read of the file's record and of the
    /// database's answer to the batch.
    pub fn insert_file_with_data(
        &mut self,
        key: [u8; 32],
        metadata: FileMetadata,
        file_data: RocksDbFileDataTrie<DB>,
    ) -> (inserted: Result<(), FileStorageError>)
        ensures
            final(self).database() == old(self).database(),
            inserted matches Err(e) ==> e == FileStorageError::FailedToReadStorage || e
                == FileStorageError::FailedToParseFileMetadata || e == FileStorageError::FileAlreadyExists || e
                == FileStorageError::FailedToWriteToStorage,
            exists|record: Read, taken: bool|
                is_read(record) && ends_as(inserted, #[trigger] registered(record, metadata@, taken)),
    {
        self.register(key, metadata, file_data.get_root())
    }

    /// The number of chunks written of the file `key`: what
    /// `count_of_reads` makes of the reads of the file and of the count of
    /// the leaves of its trie.
    pub fn stored_chunks_count(&self, key: &[u8; 32]) -> (count: Result<u64, FileStorageError>)
        ensures
            count matches Err(e) ==> e == FileStorageError::FailedToReadStorage || e
                == FileStorageError::FailedToParseFileMetadata || e == FileStorageError::FileDoesNotExist || e
                == FileStorageError::FailedToParsePartialRoot || e == FileStorageError::FailedToConstructTrieIter,
            exists|record: Read, root: Read, counted: Result<u64, ()>|
                is_read(record) && is_read(root) && count == #[trigger] count_of_reads(record, root, counted),
    {
        let opened = self.open_file(key);
        let ghost (record, root) = choose|record: Read, root: Read|
            is_read(record) && is_read(root) && self.opens(opened, #[trigger] file_of_reads(record, root));
        match opened {
            Ok((_, file_trie)) => {
                let count = file_trie.stored_chunks_count();
                proof {
                    let counted = match count {
                        Ok(stored) => Ok::<u64, ()>(stored),
                        Err(_) => Err::<u64, ()>(()),
                    };
                    assert(count == count_of_reads(record, root, counted));
                }
                count
            },
            Err(e) => {
                let count = Err(e);
                assert(count == count_of_reads(record, root, Err::<u64, ()>(())));
                count
            },
        }
    }

    /// Proves that chunks of a complete file stand in its trie: the proving
    /// ends as `proof_ends` says, for what the database and the file's trie
    /// gave, and a proof holds what `sp-trie` makes of recorded nodes for
    /// the file's fingerprint.
    pub fn generate_proof(&self, key: &[u8; 32], chunk_ids: &Vec<ChunkId>) -> (generated: Result<
        FileKeyProof,
        FileStorageError,
    >)
        ensures
            generated matches Ok(file_proof) ==> file_proof.fingerprint.0@ == file_proof.file_metadata@.fingerprint,
            generated matches Ok(file_proof) ==> exists|recorded: Map<Seq<u8>, Seq<u8>>| #[trigger]
                compacted(recorded, file_proof.fingerprint.0@) == Some(file_proof.proof.deep_view()),
            exists|record: Read, root: Read, counted: Result<u64, ()>, made: Result<FileProof, FileStorageError>|
                is_read(record) && is_read(root) && #[trigger] proof_ends(record, root, counted, made, generated),
    {
        let opened = self.open_file(key);
        let ghost (record, root) = choose|record: Read, root: Read|
            is_read(record) && is_read(root) && self.opens(opened, #[trigger] file_of_reads(record, root));
        let ghost nothing_made = Err::<FileProof, FileStorageError>(FileStorageError::FailedToGenerateCompactProof);
        let (metadata, file_trie) = match opened {
            Ok(file) => file,
            Err(e) => {
                let generated = Err(e);
                assert(proof_ends(record, root, Err::<u64, ()>(()), nothing_made, generated));
                return generated;
            },
        };
        let count = file_trie.stored_chunks_count();
        let ghost counted = match count {
            Ok(stored_chunks) => Ok::<u64, ()>(stored_chunks),
            Err(_) => Err::<u64, ()>(()),
        };
        match complete_at_count(count, &metadata, file_trie.get_root()) {
            Ok(_) => {},
            Err(e) => {
                let generated = Err(e);
                assert(proof_ends(record, root, counted, nothing_made, generated));
                return generated;
            },
        }
        let made = file_trie.generate_proof(chunk_ids);
        let ghost by_trie = made;
        let generated = file_proof_of(made, metadata);
        assert(proof_ends(record, root, counted, by_trie, generated));
        proof {
            if by_trie is Ok {
                let recorded = choose|recorded: Map<Seq<u8>, Seq<u8>>| #[trigger]
                    compacted(recorded, file_trie.root_bytes()) == Some(by_trie->Ok_0.proof.deep_view());
                assert(compacted(recorded, generated->Ok_0.fingerprint.0@) == Some(
                    generated->Ok_0.proof.deep_view(),
                ));
            }
        }
        generated
    }

    /// Removes the file `key`: the chunks of its trie, its metadata, the
    /// root kept under its fingerprint and its entry in the bucket index.
    /// The removal ends as `file_removal_ends` says, for what the database
    /// and the file's trie gave.
    pub fn delete_file(&mut self, key: &[u8; 32]) -> (deleted: Result<(), FileStorageError>)
        ensures
            final(self).database() == old(self).database(),
            is_removal(deleted),
            exists|
                record: Read,
                root: Read,
                counted: Result<u64, ()>,
                fetched: Seq<FetchedNode>,
                emptied: Result<(), FileStorageWriteError>,
                final_pending: Map<Seq<u8>, (Seq<u8>, int)>,
                final_root: Seq<u8>,
                taken: bool,
            | #[trigger]
                file_removal_ends(record, root, counted, fetched, emptied, final_pending, final_root, taken, deleted),
    {
        let opened = self.open_file(key);
        let ghost (record, root) = choose|record: Read, root: Read|
            is_read(record) && is_read(root) && self.opens(opened, #[trigger] file_of_reads(record, root));
        let ghost no_nodes = Seq::<FetchedNode>::empty();
        let ghost no_changes = Map::<Seq<u8>, (Seq<u8>, int)>::empty();
        let (metadata, mut file_trie) = match opened {
            Ok(file) => file,
            Err(e) => {
                let deleted = Err(e);
                assert(file_removal_ends(
                    record,
                    root,
                    Err::<u64, ()>(()),
                    no_nodes,
                    Ok::<(), FileStorageWriteError>(()),
                    no_changes,
                    Seq::<u8>::empty(),
                    true,
                    deleted,
                ));
                return deleted;
            },
        };
        let ghost opened_root = file_trie.root_bytes();
        let by_trie = file_trie.delete();
        let ghost emptied = by_trie;
        let ghost final_pending = file_trie.pending();
        let ghost final_root = file_trie.root_bytes();
        let ghost (counted, fetched) = choose|counted: Result<u64, ()>, fetched: Seq<FetchedNode>| #[trigger]
            delete_counted_ends(no_changes, opened_root, counted, fetched, emptied, final_pending, final_root);
        let transaction = match removal_of(by_trie, key, &metadata) {
            Ok(transaction) => transaction,
            Err(e) => {
                let deleted = Err(e);
                assert(file_removal_ends(
                    record,
                    root,
                    counted,
                    fetched,
                    emptied,
                    final_pending,
                    final_root,
                    true,
                    deleted,
                ));
                return deleted;
            },
        };
        let deleted = self.storage.write(transaction);
        assert(file_removal_ends(
            record,
            root,
            counted,
            fetched,
            emptied,
            final_pending,
            final_root,
            deleted is Ok,
            deleted,
        ));
        deleted
    }

    /// Removes the files `keys` in order, up to the first removal that
    /// fails: the removal ends with that failure, or with success where
    /// every file was removed.
    pub fn delete_files(&mut self, keys: &Vec<[u8; 32]>) -> (deleted: Result<(), FileStorageError>)
        ensures
            final(self).database() == old(self).database(),
            is_removal(deleted),
            keys@.len() == 0 ==> deleted is Ok,
            exists|outcomes: Seq<Result<(), FileStorageError>>|
                {
                    &&& outcomes.len() == keys@.len()
                    &&& forall|i: int| 0 <= i < outcomes.len() ==> is_removal(#[trigger] outcomes[i])
                    &&& ends_as(deleted, #[trigger] first_failure(outcomes))
                },
    {
        let ghost mut outcomes: Seq<Result<(), FileStorageError>> = Seq::empty();
        let mut j: usize = 0;
        while j < keys.len()
            invariant
                j <= keys.len(),
                outcomes.len() == j,
                forall|k: int| 0 <= k < j ==> (#[trigger] outcomes[k]) is Ok,
                self.database() == old(self).database(),
            decreases keys.len() - j,
        {
            let removed = self.delete_file(&keys[j]);
            match removed {
                Ok(_) => {
                    proof {
                        outcomes = outcomes.push(removed);
                    }
                },
                Err(e) => {
                    let deleted = Err(e);
                    proof {
                        let rest = Seq::new((keys@.len() - j - 1) as nat, |i: int| Ok::<(), FileStorageError>(()));
                        let ended = outcomes.push(removed) + rest;
                        lemma_first_failure(ended, j as int);
                        assert(ends_as(deleted, first_failure(ended)));
                    }
                    return deleted;
                },
            }
            j += 1;
        }
        proof {
            lemma_no_failure(outcomes);
        }
        let deleted = Ok(());
        assert(ends_as(deleted, first_failure(outcomes)));
        deleted
    }

    /// Removes every file whose entry in the bucket index begins with
    /// `prefix`. The removal ends as `bucket_removed` says, for the entries
    /// that the database lists and for how the removal of each file ends.
    pub fn delete_files_with_prefix(&mut self, prefix: &[u8; 32]) -> (deleted: Result<(), FileStorageError>)
        ensures
            final(self).database() == old(self).database(),
            deleted matches Err(e) ==> e == FileStorageError::FailedToReadStorage || e
                == FileStorageError::FailedToParseFileMetadata || e == FileStorageError::FileDoesNotExist || e
                == FileStorageError::FailedToParsePartialRoot || e == FileStorageError::FailedToDeleteFileChunk || e
                == FileStorageError::FailedToWriteToStorage || e == FileStorageError::FailedToParseFingerprint,
            exists|entries: Seq<Vec<u8>>, outcomes: Seq<Result<(), FileStorageError>>|
                {
                    &&& forall|i: int| 0 <= i < entries.len() ==> starts_with(#[trigger] entries[i]@, prefix@)
                    &&& outcomes.len() == entries.len()
                    &&& forall|i: int| 0 <= i < outcomes.len() ==> is_removal(#[trigger] outcomes[i])
                    &&& ends_as(deleted, #[trigger] bucket_removed(entries, outcomes))
                },
    {
        let entries = self.storage.keys_with_prefix(BUCKET_PREFIX_COLUMN, prefix.as_slice());
        match file_keys_of_entries(&entries) {
            Ok(keys) => {
                let deleted = self.delete_files(&keys);
                proof {
                    let outcomes = choose|outcomes: Seq<Result<(), FileStorageError>>|
                        {
                            &&& outcomes.len() == keys@.len()
                            &&& forall|i: int| 0 <= i < outcomes.len() ==> is_removal(#[trigger] outcomes[i])
                            &&& ends_as(deleted, #[trigger] first_failure(outcomes))
                        };
                    assert(ends_as(deleted, bucket_removed(entries@, outcomes)));
                }
                deleted
            },
            Err(e) => {
                let deleted = Err(e);
                proof {
                    let all_fine = Seq::new(entries@.len(), |i: int| Ok::<(), FileStorageError>(()));
                    assert(ends_as(deleted, bucket_removed(entries@, all_fine)));
                }
                deleted
            },
        }
    }
}

} // verus!
