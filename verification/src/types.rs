//! Chunk identifiers and the key under which a chunk stands in a file's trie.

use vstd::prelude::*;
use crate::bytes::{
    be_bytes, lemma_be_bytes_injective, lemma_be_bytes_len, lemma_be_bytes_ordered, lemma_lex_less_asymmetric,
    lemma_u64_below_pow256, lex_less,
};
use crate::codec::{
    blake2_256, blake2_256_digest, encoded_chunk, encoded_metadata, holds_chunk, leaf_chunk,
    lemma_holds_chunk_unique, scale_decode_chunk, scale_encode_chunk, scale_encode_metadata,
};
use crate::bytes::bytes_equal;
use crate::constants::FILE_CHUNK_SIZE;
use crate::node_store::{replayed_leaves, NodeStore};

verus! {

/// A chunk of a file: an opaque byte string.
pub type Chunk = Vec<u8>;

/// The trie key of the chunk with index `id`: its eight bytes, most significant first.
pub open spec fn chunk_key(id: u64) -> Seq<u8> {
    be_bytes(id as nat, 8)
}

/// The index of a chunk within its file, counted from zero.
#[derive(Clone, Copy, Debug, PartialEq, Eq, Structural)]
pub struct ChunkId(pub u64);

impl ChunkId {
    pub fn new(id: u64) -> (chunk_id: Self)
        ensures
            chunk_id.0 == id,
    {
        ChunkId(id)
    }

    pub fn as_u64(&self) -> (id: u64)
        ensures
            id == self.0,
    {
        self.0
    }

    /// The key under which this chunk stands in the trie of its file.
    pub fn as_trie_key(&self) -> (key: Vec<u8>)
        ensures
            key@ == chunk_key(self.0),
            key@.len() == 8,
    {
        let v: u64 = self.0;
        let r1: u64 = v / 256;
        let r2: u64 = r1 / 256;
        let r3: u64 = r2 / 256;
        let r4: u64 = r3 / 256;
        let r5: u64 = r4 / 256;
        let r6: u64 = r5 / 256;
        let r7: u64 = r6 / 256;
        let mut key: Vec<u8> = Vec::new();
        key.push((r7 % 256) as u8);
        key.push((r6 % 256) as u8);
        key.push((r5 % 256) as u8);
        key.push((r4 % 256) as u8);
        key.push((r3 % 256) as u8);
        key.push((r2 % 256) as u8);
        key.push((r1 % 256) as u8);
        key.push((v % 256) as u8);
        proof {
            reveal_with_fuel(be_bytes, 9);
            assert(key@ =~= chunk_key(v));
        }
        key
    }
}

/// Distinct chunk indices have distinct trie keys.
pub proof fn lemma_chunk_key_injective(a: u64, b: u64)
    requires
        chunk_key(a) == chunk_key(b),
    ensures
        a == b,
{
    lemma_u64_below_pow256(a);
    lemma_u64_below_pow256(b);
    lemma_be_bytes_injective(a as nat, b as nat, 8);
}

/// The trie keys of chunks stand in the order of the chunks' indices.
pub proof fn lemma_chunk_key_ordered(a: u64, b: u64)
    ensures
        a < b <==> lex_less(chunk_key(a), chunk_key(b)),
{
    lemma_u64_below_pow256(a);
    lemma_u64_below_pow256(b);
    if a < b {
        lemma_be_bytes_ordered(a as nat, b as nat, 8);
    } else if b < a {
        lemma_be_bytes_ordered(b as nat, a as nat, 8);
        lemma_lex_less_asymmetric(chunk_key(b), chunk_key(a));
    } else {
        if lex_less(chunk_key(a), chunk_key(b)) {
            lemma_lex_less_asymmetric(chunk_key(a), chunk_key(b));
        }
    }
}

/// Every trie key of a chunk is eight bytes long.
pub proof fn lemma_chunk_key_len(id: u64)
    ensures
        chunk_key(id).len() == 8,
{
    lemma_be_bytes_len(id as nat, 8);
}

/// A chunk together with its own index, as it stands in a leaf of the trie.
#[derive(Debug, PartialEq, Eq)]
pub struct ChunkWithId {
    pub chunk_id: ChunkId,
    pub data: Chunk,
}

impl ChunkWithId {
    /// The bytes of the leaf that holds this chunk.
    pub fn encode(&self) -> (bytes: Vec<u8>)
        requires
            self.data@.len() <= u32::MAX,
        ensures
            bytes@ == encoded_chunk(self.chunk_id.0, self.data@),
    {
        scale_encode_chunk(self.chunk_id.0, &self.data)
    }

    /// Reads a leaf. Succeeds exactly on bytes that begin with the leaf bytes
    /// of some chunk, and then returns that chunk.
    pub fn decode(bytes: &[u8]) -> (chunk: Option<ChunkWithId>)
        ensures
            match chunk {
                Some(c) => holds_chunk(bytes@, c.chunk_id.0, c.data@),
                None => forall|id: u64, data: Seq<u8>| !holds_chunk(bytes@, id, data),
            },
    {
        match scale_decode_chunk(bytes) {
            Some((id, data)) => Some(ChunkWithId { chunk_id: ChunkId(id), data }),
            None => None,
        }
    }
}

/// The root that a file's trie has once all chunks are written.
#[derive(Clone, Copy, Debug, PartialEq, Eq)]
pub struct Fingerprint(pub [u8; 32]);

impl Fingerprint {
    pub fn new(hash: [u8; 32]) -> (fingerprint: Self)
        ensures
            fingerprint.0 == hash,
    {
        Fingerprint(hash)
    }

    pub fn as_hash(&self) -> (hash: [u8; 32])
        ensures
            hash == self.0,
    {
        self.0
    }
}

/// What is known of a file apart from its content.
#[derive(Debug, PartialEq, Eq)]
pub struct FileMetadata {
    pub owner: Vec<u8>,
    pub bucket_id: Vec<u8>,
    pub location: Vec<u8>,
    pub file_size: u64,
    pub fingerprint: Fingerprint,
}

/// A file's metadata as mathematical values.
pub struct FileMetadataView {
    pub owner: Seq<u8>,
    pub bucket_id: Seq<u8>,
    pub location: Seq<u8>,
    pub file_size: u64,
    pub fingerprint: Seq<u8>,
}

impl View for FileMetadata {
    type V = FileMetadataView;

    open spec fn view(&self) -> FileMetadataView {
        FileMetadataView {
            owner: self.owner@,
            bucket_id: self.bucket_id@,
            location: self.location@,
            file_size: self.file_size,
            fingerprint: self.fingerprint.0@,
        }
    }
}

/// The number of chunks of a file of `file_size` bytes: the size divided by
/// the chunk size, rounded up.
pub open spec fn chunks_needed(file_size: u64) -> nat {
    if file_size % FILE_CHUNK_SIZE > 0 {
        (file_size / FILE_CHUNK_SIZE + 1) as nat
    } else {
        (file_size / FILE_CHUNK_SIZE) as nat
    }
}

/// The key of the file with the given metadata: the digest of its encoding.
pub open spec fn file_key_of(metadata: FileMetadataView) -> Seq<u8> {
    blake2_256_digest(
        encoded_metadata(
            metadata.owner,
            metadata.bucket_id,
            metadata.file_size,
            metadata.fingerprint,
            metadata.location,
        ),
    )
}

impl Clone for FileMetadata {
    fn clone(&self) -> (copy: Self)
        ensures
            copy@ == self@,
    {
        FileMetadata {
            owner: self.owner.clone(),
            bucket_id: self.bucket_id.clone(),
            location: self.location.clone(),
            file_size: self.file_size,
            fingerprint: self.fingerprint,
        }
    }
}

impl FileMetadata {
    /// The number of chunks that the file is made of.
    pub fn chunks_count(&self) -> (count: u64)
        ensures
            count == chunks_needed(self.file_size),
    {
        let full_chunks: u64 = self.file_size / FILE_CHUNK_SIZE;
        if self.file_size % FILE_CHUNK_SIZE > 0 {
            full_chunks + 1
        } else {
            full_chunks
        }
    }

    /// The key under which the file is registered.
    pub fn file_key(&self) -> (key: [u8; 32])
        requires
            self.owner@.len() <= u32::MAX,
            self.bucket_id@.len() <= u32::MAX,
            self.location@.len() <= u32::MAX,
        ensures
            key@ == file_key_of(self@),
    {
        let encoded = scale_encode_metadata(
            &self.owner,
            &self.bucket_id,
            self.file_size,
            &self.fingerprint.0,
            &self.location,
        );
        blake2_256(encoded.as_slice())
    }
}

/// A compact proof that some chunks stand in the trie with root `fingerprint`.
#[derive(Debug, PartialEq, Eq)]
pub struct FileProof {
    pub proof: Vec<Vec<u8>>,
    pub fingerprint: Fingerprint,
}

/// A file's proof together with the file's metadata.
#[derive(Debug, PartialEq, Eq)]
pub struct FileKeyProof {
    pub file_metadata: FileMetadata,
    pub fingerprint: Fingerprint,
    pub proof: Vec<Vec<u8>>,
}

impl FileProof {
    /// Attaches the metadata of the file to its proof.
    pub fn to_file_key_proof(self, file_metadata: FileMetadata) -> (with_metadata: FileKeyProof)
        ensures
            with_metadata.file_metadata == file_metadata,
            with_metadata.fingerprint == self.fingerprint,
            with_metadata.proof == self.proof,
    {
        FileKeyProof { file_metadata, fingerprint: self.fingerprint, proof: self.proof }
    }
}

/// Whether a file has all its chunks after a write.
#[derive(Clone, Copy, Debug, PartialEq, Eq)]
pub enum FileStorageWriteOutcome {
    FileComplete,
    FileIncomplete,
}

/// What can go wrong when a file is read, registered or removed.
#[derive(Clone, Copy, Debug, PartialEq, Eq)]
pub enum FileStorageError {
    FileAlreadyExists,
    FileDoesNotExist,
    FileChunkDoesNotExist,
    IncompleteFile,
    FingerprintAndStoredFileMismatch,
    FailedToConstructTrieIter,
    FailedToGetFileChunk,
    FailedToParseChunkWithId,
    FailedToParseFileMetadata,
    FailedToParseFingerprint,
    FailedToParsePartialRoot,
    FailedToHasherOutput,
    FailedToGenerateCompactProof,
    FailedToReadStorage,
    FailedToWriteToStorage,
    FailedToParseKey,
    FailedToDeleteFileChunk,
}

/// What can go wrong when a chunk is written or a trie is deleted.
#[derive(Clone, Copy, Debug, PartialEq, Eq)]
pub enum FileStorageWriteError {
    FileDoesNotExist,
    FileChunkAlreadyExists,
    FailedToInsertFileChunk,
    FailedToGetFileChunk,
    FailedToDeleteChunk,
    FailedToPersistChanges,
    FailedToUpdatePartialRoot,
    FailedToWriteToStorage,
    FailedToGetStoredChunksCount,
    FailedToConstructTrieIter,
    FailedToParseFileMetadata,
    FailedToParseFingerprint,
    FailedToParsePartialRoot,
    FailedToReadStorage,
}

/// Reads a hash from raw bytes: succeeds on exactly 32 bytes.
pub fn convert_raw_bytes_to_hasher_out(key: Vec<u8>) -> (hash: Result<[u8; 32], FileStorageError>)
    ensures
        key@.len() == 32 ==> (hash matches Ok(h) && h@ == key@),
        key@.len() != 32 ==> hash == Err::<[u8; 32], FileStorageError>(FileStorageError::FailedToHasherOutput),
{
    if key.len() != 32 {
        return Err(FileStorageError::FailedToHasherOutput);
    }
    let mut hash: [u8; 32] = [0u8; 32];
    let mut i: usize = 0;
    while i < 32
        invariant
            key@.len() == 32,
            i <= 32,
            forall|j: int| 0 <= j < i ==> hash@[j] == key@[j],
        decreases 32 - i,
    {
        hash[i] = key[i];
        i += 1;
    }
    assert(hash@ =~= key@);
    Ok(hash)
}

/// Some chunk's leaf bytes begin `leaf`.
pub open spec fn is_leaf(leaf: Seq<u8>) -> bool {
    exists|id: u64, data: Seq<u8>| holds_chunk(leaf, id, data)
}

/// What the reader of a chunk gets for what a lookup in the trie gave: the
/// bytes of the chunk where a leaf was found and holds a chunk, and else the
/// error that tells why there are none.
pub open spec fn chunk_of_lookup(found: Result<Option<Vec<u8>>, ()>) -> Result<Seq<u8>, FileStorageError> {
    match found {
        Err(_) => Err(FileStorageError::FailedToGetFileChunk),
        Ok(None) => Err(FileStorageError::FileChunkDoesNotExist),
        Ok(Some(leaf)) => if is_leaf(leaf@) {
            Ok(leaf_chunk(leaf@).1)
        } else {
            Err(FileStorageError::FailedToParseChunkWithId)
        },
    }
}

/// A chunk or the error in its place, with the chunk as a sequence of bytes.
pub open spec fn chunk_view(chunk: Result<Chunk, FileStorageError>) -> Result<Seq<u8>, FileStorageError> {
    match chunk {
        Ok(data) => Ok(data@),
        Err(e) => Err(e),
    }
}

/// What a lookup in a trie gives the reader of a chunk: the bytes of the
/// chunk where a leaf was found and can be read, and else the error that
/// tells why there are none.
pub fn chunk_from_lookup(found: Result<Option<Vec<u8>>, ()>) -> (chunk: Result<Chunk, FileStorageError>)
    ensures
        chunk_view(chunk) == chunk_of_lookup(found),
        found is Err ==> chunk == Err::<Chunk, FileStorageError>(FileStorageError::FailedToGetFileChunk),
        found == Ok::<Option<Vec<u8>>, ()>(None) ==> chunk == Err::<Chunk, FileStorageError>(
            FileStorageError::FileChunkDoesNotExist,
        ),
        found matches Ok(Some(leaf)) ==> match chunk {
            Ok(data) => is_leaf(leaf@) && data@ == leaf_chunk(leaf@).1,
            Err(e) => !is_leaf(leaf@) && e == FileStorageError::FailedToParseChunkWithId,
        },
{
    let leaf = match found {
        Ok(Some(leaf)) => leaf,
        Ok(None) => {
            return Err(FileStorageError::FileChunkDoesNotExist);
        },
        Err(_) => {
            return Err(FileStorageError::FailedToGetFileChunk);
        },
    };
    match ChunkWithId::decode(leaf.as_slice()) {
        Some(decoded_chunk) => {
            proof {
                let stored = leaf_chunk(leaf@);
                assert(holds_chunk(leaf@, (decoded_chunk.chunk_id.0, decoded_chunk.data@).0, (decoded_chunk.chunk_id.0, decoded_chunk.data@).1));
                lemma_holds_chunk_unique(leaf@, stored.0, stored.1, decoded_chunk.chunk_id.0, decoded_chunk.data@);
            }
            Ok(decoded_chunk.data)
        },
        None => Err(FileStorageError::FailedToParseChunkWithId),
    }
}

/// What a write has made of a file with the given metadata that has
/// `stored_chunks` chunks now and a trie with root `root`: the file is
/// complete when it has as many chunks as its size asks for and the root is
/// its fingerprint.
pub open spec fn outcome_of(metadata: FileMetadataView, stored_chunks: u64, root: Seq<u8>) -> FileStorageWriteOutcome {
    if stored_chunks == chunks_needed(metadata.file_size) && root == metadata.fingerprint {
        FileStorageWriteOutcome::FileComplete
    } else {
        FileStorageWriteOutcome::FileIncomplete
    }
}

/// Tells what a write has made of a file, from the number of chunks that
/// the file has now and the root of its trie: the file is complete when it
/// has as many chunks as its size asks for and the root is its fingerprint.
pub fn outcome_after_write(metadata: &FileMetadata, stored_chunks: u64, root: &[u8; 32]) -> (outcome:
    FileStorageWriteOutcome)
    ensures
        outcome == outcome_of(metadata@, stored_chunks, root@),
{
    if metadata.chunks_count() != stored_chunks {
        return FileStorageWriteOutcome::FileIncomplete;
    }
    if !bytes_equal(metadata.fingerprint.0.as_slice(), root.as_slice()) {
        return FileStorageWriteOutcome::FileIncomplete;
    }
    FileStorageWriteOutcome::FileComplete
}

/// A chunk that a proof shows to stand in a file's trie.
#[derive(Debug, PartialEq, Eq)]
pub struct Leaf {
    pub key: ChunkId,
    pub data: Chunk,
}

/// The chunk that an item of a replayed proof shows: the value must be the
/// leaf of a chunk, and the key the trie key of that chunk's index.
pub open spec fn proven_leaf(key: Seq<u8>, value: Seq<u8>) -> Option<(u64, Seq<u8>)> {
    if is_leaf(value) && key == chunk_key(leaf_chunk(value).0) {
        Some(leaf_chunk(value))
    } else {
        None
    }
}

/// The chunks that the items of a replayed proof show, in order. Items
/// without a node are passed over; an item that shows no chunk spoils the lot.
pub open spec fn proven_leaves(items: Seq<Option<(Seq<u8>, Seq<u8>)>>) -> Option<Seq<(u64, Seq<u8>)>>
    decreases items.len(),
{
    if items.len() == 0 {
        Some(Seq::empty())
    } else {
        match proven_leaves(items.drop_last()) {
            None => None,
            Some(before) => match items.last() {
                None => Some(before),
                Some(item) => match proven_leaf(item.0, item.1) {
                    Some(leaf) => Some(before.push(leaf)),
                    None => None,
                },
            },
        }
    }
}

/// The chunks of a list of leaves, as mathematical values.
pub open spec fn leaves_view(leaves: Seq<Leaf>) -> Seq<(u64, Seq<u8>)> {
    Seq::new(leaves.len(), |i: int| (leaves[i].key.0, leaves[i].data@))
}

/// Items that are spoiled after some of them are spoiled altogether.
proof fn lemma_spoiled_prefix(items: Seq<Option<(Seq<u8>, Seq<u8>)>>, n: int)
    requires
        0 <= n <= items.len(),
        proven_leaves(items.take(n)) is None,
    ensures
        proven_leaves(items) is None,
    decreases items.len() - n,
{
    if n < items.len() {
        assert(items.take(n + 1).drop_last() =~= items.take(n));
        lemma_spoiled_prefix(items, n + 1);
    } else {
        assert(items.take(n) =~= items);
    }
}

impl FileKeyProof {
    /// Replays the proof against its fingerprint and hands out the chunks
    /// that it shows, or nothing where the proof does not fit the
    /// fingerprint or shows something that is no chunk.
    pub fn proven(&self) -> (shown: Option<Vec<Leaf>>)
        ensures
            match replayed_leaves(self.proof.deep_view(), self.fingerprint.0@) {
                Some(items) => match proven_leaves(items) {
                    Some(chunks) => shown matches Some(leaves) && leaves_view(leaves@) == chunks,
                    None => shown is None,
                },
                None => shown is None,
            },
    {
        let decoded = match NodeStore::from_compact_proof(&self.proof, &self.fingerprint.0) {
            Some(decoded) => decoded,
            None => {
                return None;
            },
        };
        let items = match decoded.walk(&self.fingerprint.0) {
            Some(items) => items,
            None => {
                return None;
            },
        };
        let ghost all = items.deep_view();
        let mut leaves: Vec<Leaf> = Vec::new();
        let mut i: usize = 0;
        while i < items.len()
            invariant
                i <= items.len(),
                all == items.deep_view(),
                all.len() == items.len(),
                replayed_leaves(self.proof.deep_view(), self.fingerprint.0@) == Some(all),
                proven_leaves(all.take(i as int)) == Some(leaves_view(leaves@)),
            decreases items.len() - i,
        {
            proof {
                assert(all.take(i + 1).drop_last() =~= all.take(i as int));
                assert(all.take(i + 1).last() == all[i as int]);
                assert(all[i as int] == items@[i as int].deep_view());
            }
            match &items[i] {
                Some(item) => {
                    let ghost before = leaves@;
                    let decoded_chunk = match ChunkWithId::decode(item.1.as_slice()) {
                        Some(decoded_chunk) => decoded_chunk,
                        None => {
                            proof {
                                assert(all[i as int] == Some((item.0@, item.1@)));
                                assert(proven_leaf(item.0@, item.1@) is None);
                                assert(proven_leaves(all.take(i + 1)) is None);
                                lemma_spoiled_prefix(all, i + 1);
                            }
                            return None;
                        },
                    };
                    proof {
                        assert(all[i as int] == Some((item.0@, item.1@)));
                        let stored = leaf_chunk(item.1@);
                        assert(holds_chunk(
                            item.1@,
                            (decoded_chunk.chunk_id.0, decoded_chunk.data@).0,
                            (decoded_chunk.chunk_id.0, decoded_chunk.data@).1,
                        ));
                        lemma_holds_chunk_unique(
                            item.1@,
                            stored.0,
                            stored.1,
                            decoded_chunk.chunk_id.0,
                            decoded_chunk.data@,
                        );
                    }
                    let key = decoded_chunk.chunk_id.as_trie_key();
                    if !bytes_equal(key.as_slice(), item.0.as_slice()) {
                        proof {
                            assert(proven_leaf(item.0@, item.1@) is None);
                            assert(proven_leaves(all.take(i + 1)) is None);
                            lemma_spoiled_prefix(all, i + 1);
                        }
                        return None;
                    }
                    leaves.push(Leaf { key: decoded_chunk.chunk_id, data: decoded_chunk.data });
                    proof {
                        assert(leaves_view(leaves@) =~= leaves_view(before).push(leaf_chunk(item.1@)));
                    }
                },
                None => {
                    proof {
                        assert(all[i as int] is None);
                    }
                },
            }
            i += 1;
        }
        proof {
            assert(all.take(i as int) =~= all);
        }
        Some(leaves)
    }
}

} // verus!
