//! Files held in memory only: the trie of one file, and the registry of files.

use vstd::prelude::*;
use vstd::set_lib::lemma_map_size;
use vstd::relations::injective_on;
use crate::bytes::{bytes_equal, bytes_from, join, has_prefix, starts_with};
use crate::codec::{
    encoded_chunk, holds_chunk, leaf_chunk, lemma_encoded_chunk_len, lemma_leaf_chunk,
};
use crate::constants::empty_trie_root;
use crate::keyed::KeyedStore;
use crate::node_store::{
    compact_proof_of, proof_nodes, recorded_nodes, trie_intact, trie_leaves, NodeStore, ProofRecorder,
};
use crate::types::{
    chunk_from_lookup, chunk_key, chunks_needed, convert_raw_bytes_to_hasher_out, is_leaf,
    lemma_chunk_key_injective, outcome_after_write, Chunk, ChunkId, ChunkWithId, FileKeyProof, FileMetadata, FileMetadataView, FileProof, FileStorageError,
    FileStorageWriteError, FileStorageWriteOutcome, Fingerprint,
};

verus! {

/// What writing `data` as chunk `id` makes of the chunks of a file: chunks
/// are written once, so a chunk that is there is never replaced.
pub open spec fn chunks_after_write(chunks: Map<u64, Seq<u8>>, id: u64, data: Seq<u8>) -> Result<
    Map<u64, Seq<u8>>,
    FileStorageWriteError,
> {
    if chunks.contains_key(id) {
        Err(FileStorageWriteError::FileChunkAlreadyExists)
    } else {
        Ok(chunks.insert(id, data))
    }
}

/// What reading chunk `id` of a file returns.
pub open spec fn chunk_read(chunks: Map<u64, Seq<u8>>, id: u64) -> Result<Seq<u8>, FileStorageError> {
    if chunks.contains_key(id) {
        Ok(chunks[id])
    } else {
        Err(FileStorageError::FileChunkDoesNotExist)
    }
}

/// All of `ids` are among the chunks.
pub open spec fn all_stored(chunks: Map<u64, Seq<u8>>, ids: Seq<ChunkId>) -> bool {
    forall|i: int| 0 <= i < ids.len() ==> chunks.contains_key(#[trigger] ids[i].0)
}

/// The trie keys of the chunks `ids`, in their order.
pub open spec fn chunk_keys(ids: Seq<ChunkId>) -> Seq<Seq<u8>> {
    Seq::new(ids.len(), |i: int| chunk_key(ids[i].0))
}

/// The trie of one file's chunks, held in memory.
pub struct InMemoryFileDataTrie {
    root: [u8; 32],
    memdb: NodeStore,
}

impl View for InMemoryFileDataTrie {
    type V = Map<u64, Seq<u8>>;

    /// The chunks of the file, by their index.
    closed spec fn view(&self) -> Map<u64, Seq<u8>> {
        Map::new(
            |id: u64| self.leaves().contains_key(chunk_key(id)),
            |id: u64| leaf_chunk(self.leaves()[chunk_key(id)]).1,
        )
    }
}

impl InMemoryFileDataTrie {
    /// The keys and values of the trie.
    pub closed spec fn leaves(&self) -> Map<Seq<u8>, Seq<u8>> {
        trie_leaves(self.memdb, self.root@)
    }

    /// The root of the trie, as a sequence of bytes.
    pub closed spec fn root_bytes(&self) -> Seq<u8> {
        self.root@
    }

    /// The compact proof that the chunks `ids` stand in the trie: the proof
    /// that `sp-trie` makes of the nodes visited by lookups of the chunks'
    /// keys, in their order; nothing where it makes none.
    pub closed spec fn proof_of(&self, ids: Seq<ChunkId>) -> Option<Seq<Seq<u8>>> {
        compact_proof_of(self.memdb, self.root@, chunk_keys(ids))
    }

    /// All nodes of the trie are in memory, and each leaf holds a chunk under
    /// the key of the chunk's index.
    pub closed spec fn wf(&self) -> bool {
        &&& trie_intact(self.memdb, self.root@)
        &&& self.leaves().dom().finite()
        &&& forall|key: Seq<u8>| #[trigger]
            self.leaves().contains_key(key) ==> {
                let chunk = leaf_chunk(self.leaves()[key]);
                &&& key == chunk_key(chunk.0)
                &&& self.leaves()[key] == encoded_chunk(chunk.0, chunk.1)
                &&& chunk.1.len() <= u32::MAX
            }
    }

    /// The file has as many chunks as its trie has leaves.
    proof fn lemma_chunks_are_leaves(&self)
        requires
            self.wf(),
        ensures
            self@.dom().finite(),
            self@.dom().len() == self.leaves().dom().len(),
    {
        let leaves = self.leaves();
        let index_of = |key: Seq<u8>| leaf_chunk(leaves[key]).0;
        assert(injective_on(index_of, leaves.dom())) by {
            assert forall|k1: Seq<u8>, k2: Seq<u8>|
                leaves.dom().contains(k1) && leaves.dom().contains(k2) && index_of(k1) == index_of(k2) implies k1
                == k2 by {
                assert(leaves.contains_key(k1));
                assert(leaves.contains_key(k2));
            }
        }
        assert(leaves.dom().map(index_of) =~= self@.dom()) by {
            assert forall|id: u64| leaves.dom().map(index_of).contains(id) implies self@.dom().contains(id) by {
                let key = choose|key: Seq<u8>| leaves.dom().contains(key) && index_of(key) == id;
                assert(leaves.contains_key(key));
            }
            assert forall|id: u64| self@.dom().contains(id) implies leaves.dom().map(index_of).contains(id) by {
                let key = chunk_key(id);
                assert(leaves.contains_key(key));
                lemma_chunk_key_injective(id, index_of(key));
                assert(leaves.dom().contains(key) && index_of(key) == id);
            }
        }
        lemma_map_size(leaves.dom(), self@.dom(), index_of);
    }

    /// The leaf that stands under the key of chunk `id` holds that chunk.
    proof fn lemma_leaf_found(&self, id: u64, leaf: Seq<u8>)
        requires
            self.wf(),
            self.leaves().contains_key(chunk_key(id)),
            self.leaves()[chunk_key(id)] == leaf,
        ensures
            is_leaf(leaf),
            self@.contains_key(id),
            self@[id] == leaf_chunk(leaf).1,
    {
        let stored = leaf_chunk(leaf);
        lemma_chunk_key_injective(id, stored.0);
        lemma_encoded_chunk_len(stored.0, stored.1);
        assert(holds_chunk(leaf, stored.0, stored.1));
    }

    /// A trie without chunks.
    pub fn new() -> (trie: Self)
        ensures
            trie.wf(),
            trie@ == Map::<u64, Seq<u8>>::empty(),
            trie.root_bytes() == empty_trie_root(),
    {
        let (memdb, root) = NodeStore::empty();
        let trie = InMemoryFileDataTrie { root, memdb };
        assert(trie@ =~= Map::<u64, Seq<u8>>::empty());
        trie
    }

    /// The root of the trie as it is now.
    pub fn get_root(&self) -> (root: &[u8; 32])
        ensures
            root@ == self.root_bytes(),
    {
        &self.root
    }

    /// The number of chunks in the trie.
    pub fn stored_chunks_count(&self) -> (count: Result<u64, FileStorageError>)
        requires
            self.wf(),
        ensures
            self@.dom().finite(),
            count == Ok::<u64, FileStorageError>(self@.dom().len() as u64),
            self@.dom().len() <= u64::MAX,
    {
        proof {
            self.lemma_chunks_are_leaves();
        }
        match self.memdb.leaf_count(&self.root) {
            Ok(stored_chunks) => Ok(stored_chunks),
            Err(_) => Err(FileStorageError::FailedToConstructTrieIter),
        }
    }

    /// The bytes of chunk `chunk_id`, if the chunk was written.
    pub fn get_chunk(&self, chunk_id: &ChunkId) -> (chunk: Result<Chunk, FileStorageError>)
        requires
            self.wf(),
        ensures
            match chunk_read(self@, chunk_id.0) {
                Ok(data) => chunk matches Ok(found) && found@ == data,
                Err(e) => chunk == Err::<Chunk, FileStorageError>(e),
            },
    {
        let key = chunk_id.as_trie_key();
        let found = self.memdb.lookup(&self.root, key.as_slice());
        let ghost seen = found;
        proof {
            if let Ok(Some(leaf)) = seen {
                self.lemma_leaf_found(chunk_id.0, leaf@);
            }
        }
        chunk_from_lookup(found)
    }

    /// Writes `data` as chunk `chunk_id`, unless that chunk is there already.
    pub fn write_chunk(&mut self, chunk_id: &ChunkId, data: &Chunk) -> (written: Result<(), FileStorageWriteError>)
        requires
            old(self).wf(),
            data@.len() <= u32::MAX,
        ensures
            final(self).wf(),
            match chunks_after_write(old(self)@, chunk_id.0, data@) {
                Ok(chunks) => written.is_ok() && final(self)@ == chunks,
                Err(e) => written == Err::<(), FileStorageWriteError>(e) && final(self)@ == old(self)@
                    && final(self).root_bytes() == old(self).root_bytes(),
            },
    {
        let key = chunk_id.as_trie_key();
        match self.memdb.lookup(&self.root, key.as_slice()) {
            Ok(Some(_)) => {
                return Err(FileStorageWriteError::FileChunkAlreadyExists);
            },
            Ok(None) => {},
            Err(_) => {
                return Err(FileStorageWriteError::FailedToGetFileChunk);
            },
        }
        let decoded_chunk = ChunkWithId { chunk_id: *chunk_id, data: data.clone() };
        let leaf = decoded_chunk.encode();
        let ghost before = *self;
        match self.memdb.insert(&self.root, key.as_slice(), leaf.as_slice()) {
            Ok(new_root) => {
                self.root = new_root;
            },
            Err(_) => {
                return Err(FileStorageWriteError::FailedToInsertFileChunk);
            },
        }
        proof {
            let id = chunk_id.0;
            assert(self.leaves() == before.leaves().insert(key@, leaf@));
            lemma_leaf_chunk(id, data@);
            assert forall|k: Seq<u8>| #[trigger] self.leaves().contains_key(k) implies {
                let chunk = leaf_chunk(self.leaves()[k]);
                &&& k == chunk_key(chunk.0)
                &&& self.leaves()[k] == encoded_chunk(chunk.0, chunk.1)
                &&& chunk.1.len() <= u32::MAX
            } by {
                if k != key@ {
                    assert(before.leaves().contains_key(k));
                }
            }
            assert(self@ =~= before@.insert(id, data@)) by {
                assert forall|other: u64| other != id implies chunk_key(other) != key@ by {
                    if chunk_key(other) == key@ {
                        lemma_chunk_key_injective(other, id);
                    }
                }
            }
        }
        Ok(())
    }

    /// Makes a compact proof that the chunks `chunk_ids` stand in the trie.
    /// A chunk that is not there refuses the proof; else the proof is
    /// `proof_of(chunk_ids)`, with the root as its fingerprint.
    pub fn generate_proof(&self, chunk_ids: &Vec<ChunkId>) -> (generated: Result<FileProof, FileStorageError>)
        requires
            self.wf(),
        ensures
            !all_stored(self@, chunk_ids@) ==> generated == Err::<FileProof, FileStorageError>(
                FileStorageError::FileChunkDoesNotExist,
            ),
            all_stored(self@, chunk_ids@) ==> match self.proof_of(chunk_ids@) {
                Some(nodes) => generated matches Ok(file_proof) && file_proof.proof.deep_view() == nodes
                    && file_proof.fingerprint.0@ == self.root_bytes(),
                None => generated == Err::<FileProof, FileStorageError>(
                    FileStorageError::FailedToGenerateCompactProof,
                ),
            },
    {
        let mut recorder = ProofRecorder::new();
        let ghost keys = chunk_keys(chunk_ids@);
        let mut i: usize = 0;
        while i < chunk_ids.len()
            invariant
                self.wf(),
                i <= chunk_ids.len(),
                keys == chunk_keys(chunk_ids@),
                forall|j: int| 0 <= j < i ==> self@.contains_key(#[trigger] chunk_ids@[j].0),
                recorded_nodes(recorder) == proof_nodes(self.memdb, self.root@, keys.take(i as int)),
            decreases chunk_ids.len() - i,
        {
            let key = chunk_ids[i].as_trie_key();
            let found = self.memdb.recorded_lookup(&self.root, &mut recorder, key.as_slice());
            let ghost seen = found;
            proof {
                if let Ok(Some(leaf)) = seen {
                    self.lemma_leaf_found(chunk_ids@[i as int].0, leaf@);
                }
                assert(keys.take(i + 1).drop_last() == keys.take(i as int));
                assert(keys.take(i + 1).last() == key@);
            }
            match chunk_from_lookup(found) {
                Ok(_) => {},
                Err(e) => {
                    return Err(e);
                },
            }
            i += 1;
        }
        proof {
            assert(keys.take(i as int) == keys);
        }
        match recorder.into_compact_proof(&self.root) {
            Some(nodes) => Ok(FileProof { proof: nodes, fingerprint: Fingerprint::new(self.root) }),
            None => Err(FileStorageError::FailedToGenerateCompactProof),
        }
    }

    /// Forgets all chunks: the trie is then the trie without chunks.
    pub fn delete(&mut self) -> (deleted: Result<(), FileStorageWriteError>)
        ensures
            deleted.is_ok(),
            final(self).wf(),
            final(self)@ == Map::<u64, Seq<u8>>::empty(),
            final(self).root_bytes() == empty_trie_root(),
    {
        let (memdb, root) = NodeStore::empty();
        self.root = root;
        self.memdb = memdb;
        assert(self@ =~= Map::<u64, Seq<u8>>::empty());
        Ok(())
    }
}

/// What the registry holds of one file.
pub struct StoredFile {
    pub metadata: FileMetadataView,
    pub chunks: Map<u64, Seq<u8>>,
    pub root: Seq<u8>,
}

/// A file is complete when it has as many chunks as its size asks for and
/// the root of its trie is its fingerprint.
pub open spec fn is_complete(file: StoredFile) -> bool {
    file.chunks.dom().len() == chunks_needed(file.metadata.file_size) && file.root == file.metadata.fingerprint
}

/// What a write reports of the file as the write has left it.
pub open spec fn outcome_of_write(file: StoredFile) -> FileStorageWriteOutcome {
    if is_complete(file) {
        FileStorageWriteOutcome::FileComplete
    } else {
        FileStorageWriteOutcome::FileIncomplete
    }
}

/// The error, if any, with which the registry refuses to prove chunks of a file.
pub open spec fn proof_refusal(file: StoredFile, ids: Seq<ChunkId>) -> Option<FileStorageError> {
    if file.chunks.dom().len() != chunks_needed(file.metadata.file_size) {
        Some(FileStorageError::IncompleteFile)
    } else if file.root != file.metadata.fingerprint {
        Some(FileStorageError::FingerprintAndStoredFileMismatch)
    } else if !all_stored(file.chunks, ids) {
        Some(FileStorageError::FileChunkDoesNotExist)
    } else {
        None
    }
}

/// The files of `files` that do not belong to bucket `bucket_id`.
pub open spec fn without_bucket(files: Map<Seq<u8>, StoredFile>, bucket_id: Seq<u8>) -> Map<Seq<u8>, StoredFile> {
    files.restrict(Set::new(|key: Seq<u8>| files.contains_key(key) && files[key].metadata.bucket_id != bucket_id))
}

/// The registry of files held in memory.
pub struct InMemoryFileStorage {
    metadata: KeyedStore<FileMetadata>,
    file_data: KeyedStore<InMemoryFileDataTrie>,
    bucket_prefix_map: Vec<Vec<u8>>,
}

impl View for InMemoryFileStorage {
    type V = Map<Seq<u8>, StoredFile>;

    /// The files of the registry, by their key.
    closed spec fn view(&self) -> Map<Seq<u8>, StoredFile> {
        Map::new(
            |key: Seq<u8>| self.metadata.map().contains_key(key),
            |key: Seq<u8>|
                StoredFile {
                    metadata: self.metadata.map()[key]@,
                    chunks: self.file_data.map()[key]@,
                    root: self.file_data.map()[key].root_bytes(),
                },
        )
    }
}

impl InMemoryFileStorage {
    /// The compact proof that the chunks `ids` stand in the trie of the
    /// file `key`, or nothing where none can be made.
    pub closed spec fn proof_of(&self, key: Seq<u8>, ids: Seq<ChunkId>) -> Option<Seq<Seq<u8>>> {
        self.file_data.map()[key].proof_of(ids)
    }

    /// The bucket index: one composite key per file.
    pub closed spec fn index(&self) -> Seq<Seq<u8>> {
        Seq::new(self.bucket_prefix_map@.len(), |i: int| self.bucket_prefix_map@[i]@)
    }

    /// `entry` is the composite key of a registered file: the file's bucket
    /// id followed by the file's key.
    pub closed spec fn indexes_a_file(&self, entry: Seq<u8>) -> bool {
        let key = entry.subrange(32, 64);
        &&& entry.len() == 64
        &&& self.metadata.map().contains_key(key)
        &&& self.metadata.map()[key].bucket_id@ == entry.subrange(0, 32)
    }

    /// Every file has its metadata and its trie, every trie is well formed,
    /// every bucket id has 32 bytes, and the bucket index holds exactly the
    /// composite keys of the files.
    pub closed spec fn wf(&self) -> bool {
        &&& self.metadata.wf()
        &&& self.file_data.wf()
        &&& self.metadata.map().dom() == self.file_data.map().dom()
        &&& forall|key: Seq<u8>| #[trigger]
            self.file_data.map().contains_key(key) ==> self.file_data.map()[key].wf()
        &&& forall|key: Seq<u8>| #[trigger]
            self.metadata.map().contains_key(key) ==> self.metadata.map()[key].bucket_id@.len() == 32
        &&& self.index().no_duplicates()
        &&& forall|entry: Seq<u8>| #[trigger] self.index().contains(entry) <==> self.indexes_a_file(entry)
    }

    /// The files of a well-formed registry are finitely many, their keys and
    /// bucket ids are 32 bytes long, and each has finitely many chunks.
    pub proof fn lemma_wf(&self)
        requires
            self.wf(),
        ensures
            self@.dom().finite(),
            forall|key: Seq<u8>| #[trigger]
                self@.contains_key(key) ==> key.len() == 32 && self@[key].metadata.bucket_id.len() == 32
                    && self@[key].chunks.dom().finite(),
    {
        self.metadata.lemma_finite();
        assert(self@.dom() =~= self.metadata.map().dom());
        assert forall|key: Seq<u8>| #[trigger] self@.contains_key(key) implies key.len() == 32
            && self@[key].metadata.bucket_id.len() == 32 && self@[key].chunks.dom().finite() by {
            self.metadata.lemma_key_len(key);
            assert(self.metadata.map().dom().contains(key));
            assert(self.file_data.map().dom().contains(key));
            assert(self.file_data.map().contains_key(key));
            self.file_data.map()[key].lemma_chunks_are_leaves();
        }
    }

    /// The bucket index of a well-formed registry holds the composite key of
    /// a bucket id and a file key exactly where the file is registered in
    /// that bucket, and holds nothing else.
    pub proof fn lemma_index(&self, bucket_id: Seq<u8>, key: Seq<u8>, entry: Seq<u8>)
        requires
            self.wf(),
            bucket_id.len() == 32,
            key.len() == 32,
        ensures
            self.index().contains(bucket_id + key) <==> self@.contains_key(key) && self@[key].metadata.bucket_id
                == bucket_id,
            self.index().contains(entry) ==> entry.len() == 64 && self@.contains_key(entry.subrange(32, 64))
                && self@[entry.subrange(32, 64)].metadata.bucket_id == entry.subrange(0, 32),
            self.index().no_duplicates(),
    {
        let composite = bucket_id + key;
        assert(composite.subrange(0, 32) =~= bucket_id);
        assert(composite.subrange(32, 64) =~= key);
        assert(self.index().contains(composite) <==> self.indexes_a_file(composite));
        assert(self.index().contains(entry) <==> self.indexes_a_file(entry));
    }

    /// A registry without files.
    pub fn new() -> (storage: Self)
        ensures
            storage.wf(),
            storage@ == Map::<Seq<u8>, StoredFile>::empty(),
    {
        let storage = InMemoryFileStorage {
            metadata: KeyedStore::new(),
            file_data: KeyedStore::new(),
            bucket_prefix_map: Vec::new(),
        };
        assert(storage@ =~= Map::<Seq<u8>, StoredFile>::empty());
        assert(storage.index() =~= Seq::<Seq<u8>>::empty());
        storage
    }

    /// A trie without chunks, for a file that is to be registered.
    pub fn new_file_data_trie(&self) -> (trie: InMemoryFileDataTrie)
        ensures
            trie.wf(),
            trie@ == Map::<u64, Seq<u8>>::empty(),
            trie.root_bytes() == empty_trie_root(),
    {
        InMemoryFileDataTrie::new()
    }

    /// The metadata of the file `file_key`, if the file is registered.
    pub fn get_metadata(&self, file_key: &[u8; 32]) -> (found: Result<Option<FileMetadata>, FileStorageError>)
        requires
            self.wf(),
        ensures
            found.is_ok(),
            self@.contains_key(file_key@) ==> (found matches Ok(Some(metadata)) && metadata@ == self@[file_key@].metadata),
            !self@.contains_key(file_key@) ==> (found matches Ok(None)),
    {
        match self.metadata.get(file_key) {
            Some(metadata) => Ok(Some(metadata.clone())),
            None => Ok(None),
        }
    }

    /// Registers a file with the given trie, and enters it in the bucket index.
    pub fn insert_file_with_data(
        &mut self,
        key: [u8; 32],
        metadata: FileMetadata,
        file_data: InMemoryFileDataTrie,
    ) -> (inserted: Result<(), FileStorageError>)
        requires
            old(self).wf(),
            file_data.wf(),
            !old(self)@.contains_key(key@) ==> metadata.bucket_id@.len() == 32,
        ensures
            final(self).wf(),
            old(self)@.contains_key(key@) ==> inserted == Err::<(), FileStorageError>(
                FileStorageError::FileAlreadyExists,
            ) && final(self)@ == old(self)@,
            !old(self)@.contains_key(key@) ==> inserted.is_ok() && final(self)@ == old(self)@.insert(
                key@,
                StoredFile { metadata: metadata@, chunks: file_data@, root: file_data.root_bytes() },
            ),
    {
        if self.metadata.contains_key(&key) {
            return Err(FileStorageError::FileAlreadyExists);
        }
        let ghost before = *self;
        let ghost new_file = StoredFile { metadata: metadata@, chunks: file_data@, root: file_data.root_bytes() };
        let full_key = join(metadata.bucket_id.as_slice(), key.as_slice());
        assert(!self.file_data.map().dom().contains(key@));
        self.metadata.insert(key, metadata);
        self.file_data.insert(key, file_data);
        self.bucket_prefix_map.push(full_key);
        proof {
            let entry = full_key@;
            assert(entry.subrange(0, 32) =~= metadata.bucket_id@);
            assert(entry.subrange(32, 64) =~= key@);
            assert(self.index() =~= before.index().push(entry));
            assert(!before.index().contains(entry)) by {
                if before.index().contains(entry) {
                    assert(before.indexes_a_file(entry));
                }
            }
            assert(self.index().no_duplicates()) by {
                let n = before.index().len() as int;
                assert forall|i: int, j: int| 0 <= i < self.index().len() && 0 <= j < self.index().len() && i != j implies self.index()[i]
                    != self.index()[j] by {
                    if i < n && j < n {
                        assert(before.index()[i] != before.index()[j]);
                    } else if i < n {
                        assert(before.index().contains(before.index()[i]));
                    } else {
                        assert(before.index().contains(before.index()[j]));
                    }
                }
            }
            assert forall|e: Seq<u8>| #[trigger] self.index().contains(e) <==> self.indexes_a_file(e) by {
                let k = e.subrange(32, 64);
                if self.index().contains(e) {
                    let w = choose|i: int| 0 <= i < self.index().len() && self.index()[i] == e;
                    if w < before.index().len() {
                        assert(before.index().contains(e));
                        assert(before.indexes_a_file(e));
                    }
                }
                if self.indexes_a_file(e) {
                    if k == key@ {
                        assert(e =~= entry);
                        assert(self.index()[before.index().len() as int] == e);
                    } else {
                        assert(before.indexes_a_file(e));
                        assert(before.index().contains(e));
                        let w = choose|i: int| 0 <= i < before.index().len() && before.index()[i] == e;
                        assert(self.index()[w] == e);
                    }
                }
            }
            assert(self@ =~= before@.insert(key@, new_file));
        }
        Ok(())
    }

    /// Registers a file of which no chunk has been written yet.
    pub fn insert_file(&mut self, key: [u8; 32], metadata: FileMetadata) -> (inserted: Result<(), FileStorageError>)
        requires
            old(self).wf(),
            !old(self)@.contains_key(key@) ==> metadata.bucket_id@.len() == 32,
        ensures
            final(self).wf(),
            old(self)@.contains_key(key@) ==> inserted == Err::<(), FileStorageError>(
                FileStorageError::FileAlreadyExists,
            ) && final(self)@ == old(self)@,
            !old(self)@.contains_key(key@) ==> inserted.is_ok() && final(self)@ == old(self)@.insert(
                key@,
                StoredFile { metadata: metadata@, chunks: Map::empty(), root: empty_trie_root() },
            ),
    {
        let empty_file_trie = self.new_file_data_trie();
        self.insert_file_with_data(key, metadata, empty_file_trie)
    }

    /// The number of chunks written of the file `key`.
    pub fn stored_chunks_count(&self, key: &[u8; 32]) -> (count: Result<u64, FileStorageError>)
        requires
            self.wf(),
        ensures
            !self@.contains_key(key@) ==> count == Err::<u64, FileStorageError>(FileStorageError::FileDoesNotExist),
            self@.contains_key(key@) ==> count == Ok::<u64, FileStorageError>(
                self@[key@].chunks.dom().len() as u64,
            ) && self@[key@].chunks.dom().len() <= u64::MAX,
    {
        match self.file_data.get(key) {
            Some(file_data) => file_data.stored_chunks_count(),
            None => Err(FileStorageError::FileDoesNotExist),
        }
    }

    /// The bytes of chunk `chunk_id` of the file `file_key`.
    pub fn get_chunk(&self, file_key: &[u8; 32], chunk_id: &ChunkId) -> (chunk: Result<Chunk, FileStorageError>)
        requires
            self.wf(),
        ensures
            !self@.contains_key(file_key@) ==> chunk == Err::<Chunk, FileStorageError>(
                FileStorageError::FileDoesNotExist,
            ),
            self@.contains_key(file_key@) ==> match chunk_read(self@[file_key@].chunks, chunk_id.0) {
                Ok(data) => chunk matches Ok(found) && found@ == data,
                Err(e) => chunk == Err::<Chunk, FileStorageError>(e),
            },
    {
        match self.file_data.get(file_key) {
            Some(file_data) => file_data.get_chunk(chunk_id),
            None => Err(FileStorageError::FileDoesNotExist),
        }
    }

    /// Writes a chunk of the file `file_key` and tells whether the file is
    /// complete now.
    pub fn write_chunk(&mut self, file_key: &[u8; 32], chunk_id: &ChunkId, data: &Chunk) -> (written: Result<
        FileStorageWriteOutcome,
        FileStorageWriteError,
    >)
        requires
            old(self).wf(),
            data@.len() <= u32::MAX,
        ensures
            final(self).wf(),
            !old(self)@.contains_key(file_key@) ==> written == Err::<FileStorageWriteOutcome, FileStorageWriteError>(
                FileStorageWriteError::FileDoesNotExist,
            ) && final(self)@ == old(self)@,
            old(self)@.contains_key(file_key@) ==> match chunks_after_write(
                old(self)@[file_key@].chunks,
                chunk_id.0,
                data@,
            ) {
                Ok(chunks) => final(self)@ == old(self)@.insert(
                    file_key@,
                    StoredFile {
                        metadata: old(self)@[file_key@].metadata,
                        chunks,
                        root: final(self)@[file_key@].root,
                    },
                ) && written == Ok::<FileStorageWriteOutcome, FileStorageWriteError>(
                    outcome_of_write(final(self)@[file_key@]),
                ),
                Err(e) => written == Err::<FileStorageWriteOutcome, FileStorageWriteError>(e) && final(self)@ == old(self)@,
            },
    {
        let ghost before = *self;
        let mut file_data = match self.file_data.remove(file_key) {
            Some(file_data) => file_data,
            None => {
                assert(self.file_data.map() =~= before.file_data.map());
                assert(self@ =~= before@);
                return Err(FileStorageWriteError::FileDoesNotExist);
            },
        };
        assert(before.file_data.map().contains_key(file_key@));
        let result = file_data.write_chunk(chunk_id, data);
        let counted = file_data.stored_chunks_count();
        let root = *file_data.get_root();
        let ghost new_trie = file_data;
        self.file_data.insert(*file_key, file_data);
        proof {
            assert(self.file_data.map() =~= before.file_data.map().insert(file_key@, new_trie));
            assert forall|e: Seq<u8>| #[trigger] self.index().contains(e) <==> self.indexes_a_file(e) by {
                assert(before.index().contains(e) <==> before.indexes_a_file(e));
            }
            assert(self.wf());
        }
        match result {
            Err(e) => {
                assert(self@ =~= before@);
                return Err(e);
            },
            Ok(_) => {},
        }
        proof {
            assert(self@ =~= before@.insert(
                file_key@,
                StoredFile {
                    metadata: before@[file_key@].metadata,
                    chunks: new_trie@,
                    root: new_trie.root_bytes(),
                },
            ));
        }
        let stored_chunks = match counted {
            Ok(stored_chunks) => stored_chunks,
            Err(_) => {
                return Err(FileStorageWriteError::FailedToConstructTrieIter);
            },
        };
        let metadata = match self.metadata.get(file_key) {
            Some(metadata) => metadata,
            None => {
                return Err(FileStorageWriteError::FileDoesNotExist);
            },
        };
        Ok(outcome_after_write(metadata, stored_chunks, &root))
    }

    /// Proves that chunks of a complete file stand in its trie: the proof
    /// is that of the file's trie, `proof_of(file_key, chunk_ids)`, with the
    /// file's metadata.
    pub fn generate_proof(&self, file_key: &[u8; 32], chunk_ids: &Vec<ChunkId>) -> (generated: Result<
        FileKeyProof,
        FileStorageError,
    >)
        requires
            self.wf(),
        ensures
            !self@.contains_key(file_key@) ==> generated == Err::<FileKeyProof, FileStorageError>(
                FileStorageError::FileDoesNotExist,
            ),
            self@.contains_key(file_key@) ==> match proof_refusal(self@[file_key@], chunk_ids@) {
                Some(e) => generated == Err::<FileKeyProof, FileStorageError>(e),
                None => match self.proof_of(file_key@, chunk_ids@) {
                    Some(nodes) => generated matches Ok(file_proof) && file_proof.proof.deep_view() == nodes
                        && file_proof.file_metadata@ == self@[file_key@].metadata && file_proof.fingerprint.0@
                        == self@[file_key@].root,
                    None => generated == Err::<FileKeyProof, FileStorageError>(
                        FileStorageError::FailedToGenerateCompactProof,
                    ),
                },
            },
    {
        let metadata = match self.metadata.get(file_key) {
            Some(metadata) => metadata,
            None => {
                return Err(FileStorageError::FileDoesNotExist);
            },
        };
        assert(self.file_data.map().dom().contains(file_key@));
        let file_data = match self.file_data.get(file_key) {
            Some(file_data) => file_data,
            None => {
                return Err(FileStorageError::FileDoesNotExist);
            },
        };
        let stored_chunks = match file_data.stored_chunks_count() {
            Ok(stored_chunks) => stored_chunks,
            Err(e) => {
                return Err(e);
            },
        };
        if metadata.chunks_count() != stored_chunks {
            return Err(FileStorageError::IncompleteFile);
        }
        if !bytes_equal(metadata.fingerprint.0.as_slice(), file_data.get_root().as_slice()) {
            return Err(FileStorageError::FingerprintAndStoredFileMismatch);
        }
        match file_data.generate_proof(chunk_ids) {
            Ok(file_proof) => Ok(file_proof.to_file_key_proof(metadata.clone())),
            Err(e) => Err(e),
        }
    }

    /// Takes the composite key `entry` out of the bucket index.
    fn unindex(&mut self, entry: &Vec<u8>)
        requires
            old(self).index().no_duplicates(),
        ensures
            final(self).metadata == old(self).metadata,
            final(self).file_data == old(self).file_data,
            final(self).index().no_duplicates(),
            forall|e: Seq<u8>| #[trigger] final(self).index().contains(e) <==> old(self).index().contains(e) && e != entry@,
    {
        let ghost before = *self;
        let mut i: usize = 0;
        while i < self.bucket_prefix_map.len()
            invariant
                *self == before,
                before == *old(self),
                before.index().no_duplicates(),
                i <= self.bucket_prefix_map@.len(),
                forall|j: int| 0 <= j < i ==> self.index()[j] != entry@,
            decreases self.bucket_prefix_map@.len() - i,
        {
            if bytes_equal(self.bucket_prefix_map[i].as_slice(), entry.as_slice()) {
                self.bucket_prefix_map.remove(i);
                proof {
                    let at = i as int;
                    assert(before.index()[at] == entry@);
                    assert(self.index() =~= before.index().remove(at));
                    assert forall|a: int, b: int| 0 <= a < self.index().len() && 0 <= b < self.index().len() && a != b implies self.index()[a]
                        != self.index()[b] by {
                        let a0 = if a < at { a } else { a + 1 };
                        let b0 = if b < at { b } else { b + 1 };
                        assert(before.index()[a0] != before.index()[b0]);
                    }
                    assert forall|e: Seq<u8>| #[trigger] self.index().contains(e) <==> before.index().contains(e) && e
                        != entry@ by {
                        if self.index().contains(e) {
                            let a = choose|a: int| 0 <= a < self.index().len() && self.index()[a] == e;
                            let a0 = if a < at { a } else { a + 1 };
                            assert(before.index()[a0] == e);
                            assert(before.index()[a0] != before.index()[at]);
                        }
                        if before.index().contains(e) && e != entry@ {
                            let a0 = choose|a: int| 0 <= a < before.index().len() && before.index()[a] == e;
                            let a = if a0 < at { a0 } else { a0 - 1 };
                            assert(self.index()[a] == e);
                        }
                    }
                }
                return ;
            }
            i += 1;
        }
        proof {
            assert forall|e: Seq<u8>| #[trigger] self.index().contains(e) implies e != entry@ by {
                let a = choose|a: int| 0 <= a < self.index().len() && self.index()[a] == e;
            }
        }
    }

    /// Removes the file `key` with its metadata, its trie and its entry in
    /// the bucket index. Removing a file that is not registered changes nothing.
    pub fn delete_file(&mut self, key: &[u8; 32]) -> (deleted: Result<(), FileStorageError>)
        requires
            old(self).wf(),
        ensures
            final(self).wf(),
            deleted.is_ok(),
            final(self)@ == old(self)@.remove(key@),
    {
        let ghost before = *self;
        let removed = self.metadata.remove(key);
        self.file_data.remove(key);
        match removed {
            Some(metadata) => {
                let full_key = join(metadata.bucket_id.as_slice(), key.as_slice());
                self.unindex(&full_key);
                proof {
                    let entry = full_key@;
                    assert(entry.subrange(0, 32) =~= metadata.bucket_id@);
                    assert(entry.subrange(32, 64) =~= key@);
                    assert forall|e: Seq<u8>| #[trigger] self.index().contains(e) <==> self.indexes_a_file(e) by {
                        assert(before.index().contains(e) <==> before.indexes_a_file(e));
                        if before.indexes_a_file(e) && e.subrange(32, 64) == key@ {
                            assert(e =~= entry);
                        }
                    }
                }
            },
            None => {
                proof {
                    assert(self.metadata.map() =~= before.metadata.map());
                    assert(self.file_data.map() =~= before.file_data.map());
                    assert forall|e: Seq<u8>| #[trigger] self.index().contains(e) <==> self.indexes_a_file(e) by {
                        assert(before.index().contains(e) <==> before.indexes_a_file(e));
                    }
                }
            },
        }
        assert(self@ =~= before@.remove(key@));
        Ok(())
    }

    /// Removes every file of the bucket `prefix`; the other files stay as they are.
    pub fn delete_files_with_prefix(&mut self, prefix: &[u8; 32]) -> (deleted: Result<(), FileStorageError>)
        requires
            old(self).wf(),
        ensures
            final(self).wf(),
            deleted.is_ok(),
            final(self)@ == without_bucket(old(self)@, prefix@),
    {
        let ghost before = *self;
        let mut keys_to_delete: Vec<[u8; 32]> = Vec::new();
        let mut i: usize = 0;
        while i < self.bucket_prefix_map.len()
            invariant
                *self == before,
                self.wf(),
                i <= self.bucket_prefix_map@.len(),
                forall|j: int|
                    0 <= j < keys_to_delete@.len() ==> before@.contains_key(#[trigger] keys_to_delete@[j]@)
                        && before@[keys_to_delete@[j]@].metadata.bucket_id == prefix@,
                forall|m: int|
                    0 <= m < i && starts_with(#[trigger] self.index()[m], prefix@) ==> exists|j: int|
                        0 <= j < keys_to_delete@.len() && keys_to_delete@[j]@ == self.index()[m].subrange(32, 64),
            decreases self.bucket_prefix_map@.len() - i,
        {
            let full_key = &self.bucket_prefix_map[i];
            proof {
                assert(self.index()[i as int] == full_key@);
                assert(self.index().contains(full_key@));
                assert(self.indexes_a_file(full_key@));
            }
            if has_prefix(full_key.as_slice(), prefix.as_slice()) {
                let raw = bytes_from(full_key.as_slice(), 32);
                match convert_raw_bytes_to_hasher_out(raw) {
                    Ok(key) => {
                        let ghost collected = keys_to_delete@;
                        keys_to_delete.push(key);
                        proof {
                            assert(full_key@.subrange(0, 32) =~= prefix@);
                            assert forall|m: int|
                                0 <= m < i + 1 && starts_with(#[trigger] self.index()[m], prefix@) implies exists|j: int|
                                    0 <= j < keys_to_delete@.len() && keys_to_delete@[j]@ == self.index()[m].subrange(
                                    32,
                                    64,
                                ) by {
                                if m < i {
                                    let j = choose|j: int|
                                        0 <= j < collected.len() && collected[j]@ == self.index()[m].subrange(32, 64);
                                    assert(keys_to_delete@[j]@ == self.index()[m].subrange(32, 64));
                                } else {
                                    assert(keys_to_delete@[collected.len() as int]@ == self.index()[m].subrange(
                                        32,
                                        64,
                                    ));
                                }
                            }
                        }
                    },
                    Err(_) => {
                        return Err(FileStorageError::FailedToParseKey);
                    },
                }
            }
            i += 1;
        }
        let mut j: usize = 0;
        while j < keys_to_delete.len()
            invariant
                self.wf(),
                j <= keys_to_delete@.len(),
                forall|key: Seq<u8>| #[trigger]
                    self@.contains_key(key) <==> before@.contains_key(key) && !(exists|m: int|
                        0 <= m < j && keys_to_delete@[m]@ == key),
                forall|key: Seq<u8>| #[trigger] self@.contains_key(key) ==> self@[key] == before@[key],
            decreases keys_to_delete@.len() - j,
        {
            let ghost current = *self;
            let _ = self.delete_file(&keys_to_delete[j]);
            proof {
                let gone = keys_to_delete@[j as int]@;
                assert forall|key: Seq<u8>| #[trigger]
                    self@.contains_key(key) <==> before@.contains_key(key) && !(exists|m: int|
                        0 <= m < j + 1 && keys_to_delete@[m]@ == key) by {
                    if self@.contains_key(key) {
                        assert(current@.contains_key(key));
                        if exists|m: int| 0 <= m < j + 1 && keys_to_delete@[m]@ == key {
                            let m = choose|m: int| 0 <= m < j + 1 && keys_to_delete@[m]@ == key;
                            assert(m < j);
                        }
                    }
                    if before@.contains_key(key) && !(exists|m: int| 0 <= m < j + 1 && keys_to_delete@[m]@ == key) {
                        assert(key != gone);
                        assert(!(exists|m: int| 0 <= m < j && keys_to_delete@[m]@ == key));
                        assert(current@.contains_key(key));
                    }
                }
                assert forall|key: Seq<u8>| #[trigger] self@.contains_key(key) implies self@[key] == before@[key] by {
                    assert(current@.contains_key(key));
                }
            }
            j += 1;
        }
        proof {
            let kept = without_bucket(before@, prefix@);
            assert(j == keys_to_delete@.len());
            assert forall|key: Seq<u8>| self@.contains_key(key) <==> kept.contains_key(key) by {
                assert(kept.contains_key(key) <==> before@.contains_key(key) && before@[key].metadata.bucket_id
                    != prefix@);
                assert(self@.contains_key(key) <==> before@.contains_key(key) && !(exists|m: int|
                    0 <= m < j && keys_to_delete@[m]@ == key));
                if before@.contains_key(key) {
                    if before@[key].metadata.bucket_id == prefix@ {
                        let entry = prefix@ + key;
                        before.lemma_wf();
                        assert(entry.subrange(32, 64) =~= key);
                        assert(entry.subrange(0, 32) =~= prefix@);
                        assert(before.indexes_a_file(entry));
                        assert(before.index().contains(entry));
                        let m = choose|m: int| 0 <= m < before.index().len() && before.index()[m] == entry;
                        assert(starts_with(before.index()[m], prefix@));
                        let w = choose|w: int|
                            0 <= w < keys_to_delete@.len() && keys_to_delete@[w]@ == before.index()[m].subrange(
                                32,
                                64,
                            );
                        assert(keys_to_delete@[w]@ == key);
                    } else {
                        if exists|m: int| 0 <= m < j && keys_to_delete@[m]@ == key {
                            let m = choose|m: int| 0 <= m < j && keys_to_delete@[m]@ == key;
                            assert(before@[keys_to_delete@[m]@].metadata.bucket_id == prefix@);
                        }
                    }
                }
            }
            assert forall|key: Seq<u8>| self@.contains_key(key) implies #[trigger] self@[key] == kept[key] by {
                assert(kept.contains_key(key));
            }
            assert(self@ =~= kept);
        }
        Ok(())
    }
}

} // verus!
