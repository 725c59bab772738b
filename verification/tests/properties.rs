use std::io;
use std::sync::Arc;

use file_manager::bytes::{bytes_equal, bytes_from, join, has_prefix};
use file_manager::constants::{
    empty_root, BUCKET_PREFIX_COLUMN, CHUNKS_COLUMN, FILE_CHUNK_SIZE, H_LENGTH, METADATA_COLUMN,
    ROOTS_COLUMN,
};
use file_manager::in_memory::{InMemoryFileDataTrie, InMemoryFileStorage};
use file_manager::keyed::KeyedStore;
use file_manager::kv::{keys_until_failure, StorageDb};
use file_manager::rocksdb::{
    check_complete, file_key_of_entry, metadata_from_stored, metadata_to_stored,
    partial_root_from_stored, registration, removal, root_update, write_error_of,
    RocksDbFileDataTrie, RocksDbFileStorage,
};
use file_manager::types::{
    chunk_from_lookup, convert_raw_bytes_to_hasher_out, outcome_after_write, Chunk, ChunkId,
    ChunkWithId, FileKeyProof, FileMetadata, FileStorageError, FileStorageWriteError,
    FileStorageWriteOutcome, Fingerprint,
};
use kvdb::{DBKeyValue, DBOp, DBTransaction, DBValue, KeyValueDB};
use kvdb_memorydb::InMemory;

/// A database that reads nothing and refuses every batch.
struct RefusingDb;

impl KeyValueDB for RefusingDb {
    fn get(&self, _col: u32, _key: &[u8]) -> io::Result<Option<DBValue>> {
        Ok(None)
    }

    fn get_by_prefix(&self, _col: u32, _prefix: &[u8]) -> io::Result<Option<DBValue>> {
        Ok(None)
    }

    fn write(&self, _transaction: DBTransaction) -> io::Result<()> {
        Err(io::Error::new(io::ErrorKind::Other, "refused"))
    }

    fn iter<'a>(&'a self, _col: u32) -> Box<dyn Iterator<Item = io::Result<DBKeyValue>> + 'a> {
        Box::new(std::iter::empty())
    }

    fn iter_with_prefix<'a>(
        &'a self,
        _col: u32,
        _prefix: &'a [u8],
    ) -> Box<dyn Iterator<Item = io::Result<DBKeyValue>> + 'a> {
        Box::new(std::iter::empty())
    }
}

/// A database that keeps what it is given, but refuses batches that touch
/// the column of roots once it is told to.
struct PickyDb {
    inner: InMemory,
    refuse_roots: std::sync::atomic::AtomicBool,
}

impl KeyValueDB for PickyDb {
    fn get(&self, col: u32, key: &[u8]) -> io::Result<Option<DBValue>> {
        self.inner.get(col, key)
    }

    fn get_by_prefix(&self, col: u32, prefix: &[u8]) -> io::Result<Option<DBValue>> {
        self.inner.get_by_prefix(col, prefix)
    }

    fn write(&self, transaction: DBTransaction) -> io::Result<()> {
        let refuse = self.refuse_roots.load(std::sync::atomic::Ordering::SeqCst);
        if refuse && transaction.ops.iter().any(|op| op.col() == ROOTS_COLUMN) {
            return Err(io::Error::new(io::ErrorKind::Other, "refused"));
        }
        self.inner.write(transaction)
    }

    fn iter<'a>(&'a self, col: u32) -> Box<dyn Iterator<Item = io::Result<DBKeyValue>> + 'a> {
        self.inner.iter(col)
    }

    fn iter_with_prefix<'a>(
        &'a self,
        col: u32,
        prefix: &'a [u8],
    ) -> Box<dyn Iterator<Item = io::Result<DBKeyValue>> + 'a> {
        self.inner.iter_with_prefix(col, prefix)
    }
}

fn new_storage(columns: u32) -> StorageDb<InMemory> {
    StorageDb {
        db: Arc::new(kvdb_memorydb::create(columns)),
    }
}

fn sample_metadata(file_size: u64, fingerprint: [u8; 32], bucket: u8) -> FileMetadata {
    FileMetadata {
        owner: [0u8; 32].to_vec(),
        bucket_id: [bucket; 32].to_vec(),
        location: "location".to_string().into_bytes(),
        file_size,
        fingerprint: Fingerprint::new(fingerprint),
    }
}

fn sample_chunks() -> Vec<Chunk> {
    vec![vec![0u8; 1024], vec![1u8; 1024], vec![2u8; 1024]]
}

fn sample_ids() -> Vec<ChunkId> {
    vec![ChunkId::new(0), ChunkId::new(1), ChunkId::new(2)]
}

fn memory_trie_of(chunks: &Vec<Chunk>) -> InMemoryFileDataTrie {
    let mut trie = InMemoryFileDataTrie::new();
    for (id, chunk) in chunks.iter().enumerate() {
        trie.write_chunk(&ChunkId::new(id as u64), chunk).unwrap();
    }
    trie
}

#[test]
fn constants_have_their_values() {
    assert_eq!(H_LENGTH, 32);
    assert_eq!(FILE_CHUNK_SIZE, 1024);
    assert_eq!(METADATA_COLUMN, 0);
    assert_eq!(ROOTS_COLUMN, 1);
    assert_eq!(CHUNKS_COLUMN, 2);
    assert_eq!(BUCKET_PREFIX_COLUMN, 3);
    assert_eq!(
        empty_root(),
        [
            3, 23, 10, 46, 117, 151, 183, 183, 227, 216, 76, 5, 57, 29, 19, 154, 98, 177, 87,
            231, 135, 134, 216, 192, 130, 242, 157, 207, 76, 17, 19, 20
        ]
    );
}

#[test]
fn empty_root_is_the_same_in_memory_and_in_the_database() {
    let memory = InMemoryFileDataTrie::new();
    let durable = RocksDbFileDataTrie::<InMemory>::new(new_storage(4));
    assert_eq!(memory.get_root(), durable.get_root());
    assert_eq!(*memory.get_root(), empty_root());
    assert_eq!(memory.stored_chunks_count().unwrap(), 0);
    assert_eq!(durable.stored_chunks_count().unwrap(), 0);
}

#[test]
fn chunk_key_is_big_endian() {
    assert_eq!(ChunkId::new(0).as_trie_key(), vec![0, 0, 0, 0, 0, 0, 0, 0]);
    assert_eq!(ChunkId::new(258).as_trie_key(), vec![0, 0, 0, 0, 0, 0, 1, 2]);
    assert_eq!(
        ChunkId::new(0x0102030405060708).as_trie_key(),
        vec![1, 2, 3, 4, 5, 6, 7, 8]
    );
    assert_eq!(ChunkId::new(u64::MAX).as_trie_key(), vec![255u8; 8]);
    assert_eq!(ChunkId::new(77).as_u64(), 77);
}

#[test]
fn chunk_keys_keep_the_order_of_indices() {
    let ids: [u64; 7] = [0, 1, 255, 256, 65535, 65536, u64::MAX];
    for a in ids {
        for b in ids {
            let ka = ChunkId::new(a).as_trie_key();
            let kb = ChunkId::new(b).as_trie_key();
            assert_eq!(a < b, ka < kb);
            assert_eq!(a == b, ka == kb);
        }
    }
}

#[test]
fn chunks_count_rounds_up() {
    let count = |file_size: u64| sample_metadata(file_size, [0u8; 32], 1).chunks_count();
    assert_eq!(count(0), 0);
    assert_eq!(count(1), 1);
    assert_eq!(count(1023), 1);
    assert_eq!(count(1024), 1);
    assert_eq!(count(1025), 2);
    assert_eq!(count(3072), 3);
    assert_eq!(count(u64::MAX), 1u64 << 54);
}

#[test]
fn file_key_is_the_digest_of_the_encoded_metadata() {
    let mut fingerprint = [0u8; 32];
    for (i, byte) in fingerprint.iter_mut().enumerate() {
        *byte = i as u8;
    }
    let metadata = sample_metadata(3072, fingerprint, 1);
    assert_eq!(
        metadata.file_key(),
        [
            118, 255, 143, 154, 7, 156, 43, 4, 42, 19, 192, 93, 145, 203, 107, 181, 197, 188,
            217, 52, 153, 255, 206, 67, 19, 222, 147, 116, 227, 59, 15, 244
        ]
    );
    let other = sample_metadata(3073, fingerprint, 1);
    assert_ne!(metadata.file_key(), other.file_key());
    assert_eq!(metadata.clone().file_key(), metadata.file_key());
}

#[test]
fn leaf_bytes_are_index_length_and_data() {
    let short = ChunkWithId {
        chunk_id: ChunkId::new(7),
        data: vec![9u8; 3],
    };
    assert_eq!(short.encode(), vec![7, 0, 0, 0, 0, 0, 0, 0, 12, 9, 9, 9]);

    let empty = ChunkWithId {
        chunk_id: ChunkId::new(0x0102),
        data: vec![],
    };
    assert_eq!(empty.encode(), vec![2, 1, 0, 0, 0, 0, 0, 0, 0]);

    let two_byte_length = ChunkWithId {
        chunk_id: ChunkId::new(1),
        data: vec![5u8; 70],
    };
    let bytes = two_byte_length.encode();
    assert_eq!(bytes.len(), 8 + 2 + 70);
    assert_eq!(&bytes[..10], &[1, 0, 0, 0, 0, 0, 0, 0, 25, 1]);

    let full = ChunkWithId {
        chunk_id: ChunkId::new(1),
        data: vec![5u8; 1024],
    };
    assert_eq!(&full.encode()[8..10], &[1, 16]);

    let four_byte_length = ChunkWithId {
        chunk_id: ChunkId::new(1),
        data: vec![5u8; 16384],
    };
    assert_eq!(&four_byte_length.encode()[8..12], &[2, 0, 1, 0]);
}

#[test]
fn leaf_is_read_back_and_trailing_bytes_are_ignored() {
    let chunk = ChunkWithId {
        chunk_id: ChunkId::new(300),
        data: vec![4u8; 100],
    };
    let mut bytes = chunk.encode();
    let decoded = ChunkWithId::decode(&bytes).unwrap();
    assert_eq!(decoded.chunk_id, ChunkId::new(300));
    assert_eq!(decoded.data, vec![4u8; 100]);

    bytes.extend_from_slice(&[1, 2, 3]);
    let decoded = ChunkWithId::decode(&bytes).unwrap();
    assert_eq!(decoded.chunk_id, ChunkId::new(300));
    assert_eq!(decoded.data, vec![4u8; 100]);
}

#[test]
fn leaf_that_is_cut_short_or_has_a_long_length_is_refused() {
    let chunk = ChunkWithId {
        chunk_id: ChunkId::new(1),
        data: vec![4u8; 10],
    };
    let bytes = chunk.encode();
    assert!(ChunkWithId::decode(&bytes[..bytes.len() - 1]).is_none());
    assert!(ChunkWithId::decode(&bytes[..8]).is_none());
    assert!(ChunkWithId::decode(&bytes[..3]).is_none());
    assert!(ChunkWithId::decode(&[]).is_none());

    // The length 1 in two bytes where one byte is enough.
    let padded = vec![0, 0, 0, 0, 0, 0, 0, 0, 5, 0, 7];
    assert!(ChunkWithId::decode(&padded).is_none());
    let shortest = vec![0, 0, 0, 0, 0, 0, 0, 0, 4, 7];
    assert_eq!(ChunkWithId::decode(&shortest).unwrap().data, vec![7]);
}

#[test]
fn lookup_results_become_chunks_or_errors() {
    let leaf = ChunkWithId {
        chunk_id: ChunkId::new(2),
        data: vec![8u8; 5],
    }
    .encode();
    assert_eq!(chunk_from_lookup(Ok(Some(leaf))), Ok(vec![8u8; 5]));
    assert_eq!(
        chunk_from_lookup(Ok(None)),
        Err(FileStorageError::FileChunkDoesNotExist)
    );
    assert_eq!(
        chunk_from_lookup(Err(())),
        Err(FileStorageError::FailedToGetFileChunk)
    );
    assert_eq!(
        chunk_from_lookup(Ok(Some(vec![1, 2, 3]))),
        Err(FileStorageError::FailedToParseChunkWithId)
    );
}

#[test]
fn raw_bytes_are_a_hash_only_at_32_bytes() {
    let mut raw = vec![0u8; 32];
    raw[31] = 9;
    let hash = convert_raw_bytes_to_hasher_out(raw.clone()).unwrap();
    assert_eq!(hash.to_vec(), raw);
    assert_eq!(
        convert_raw_bytes_to_hasher_out(vec![0u8; 31]),
        Err(FileStorageError::FailedToHasherOutput)
    );
    assert_eq!(
        convert_raw_bytes_to_hasher_out(vec![0u8; 33]),
        Err(FileStorageError::FailedToHasherOutput)
    );
    assert_eq!(
        convert_raw_bytes_to_hasher_out(vec![]),
        Err(FileStorageError::FailedToHasherOutput)
    );
}

#[test]
fn byte_helpers_work() {
    assert!(bytes_equal(&[1, 2], &[1, 2]));
    assert!(!bytes_equal(&[1, 2], &[1, 3]));
    assert!(!bytes_equal(&[1, 2], &[1, 2, 3]));
    assert!(bytes_equal(&[], &[]));
    assert!(has_prefix(&[1, 2, 3], &[1, 2]));
    assert!(has_prefix(&[1, 2, 3], &[]));
    assert!(!has_prefix(&[1, 2, 3], &[2]));
    assert!(!has_prefix(&[1], &[1, 2]));
    assert_eq!(bytes_from(&[1, 2, 3], 1), vec![2, 3]);
    assert_eq!(bytes_from(&[1, 2, 3], 3), Vec::<u8>::new());
    assert_eq!(join(&[1, 2], &[3]), vec![1, 2, 3]);
    assert_eq!(join(&[], &[]), Vec::<u8>::new());
}

#[test]
fn keyed_store_is_a_map() {
    let mut store: KeyedStore<u32> = KeyedStore::new();
    let a = [1u8; 32];
    let b = [2u8; 32];
    assert!(!store.contains_key(&a));
    assert_eq!(store.get(&a), None);
    store.insert(a, 10);
    store.insert(b, 20);
    assert!(store.contains_key(&a));
    assert_eq!(store.get(&a), Some(&10));
    assert_eq!(store.get(&b), Some(&20));
    assert_eq!(store.remove(&a), Some(10));
    assert_eq!(store.remove(&a), None);
    assert_eq!(store.get(&a), None);
    assert_eq!(store.get(&b), Some(&20));
}

#[test]
fn written_chunk_is_read_back_and_second_write_is_refused() {
    let data = vec![7u8; 1000];
    let other = vec![8u8; 1000];

    let mut memory = InMemoryFileDataTrie::new();
    memory.write_chunk(&ChunkId::new(4), &data).unwrap();
    assert_eq!(memory.get_chunk(&ChunkId::new(4)).unwrap(), data);
    let root = *memory.get_root();
    assert_eq!(
        memory.write_chunk(&ChunkId::new(4), &other),
        Err(FileStorageWriteError::FileChunkAlreadyExists)
    );
    assert_eq!(
        memory.write_chunk(&ChunkId::new(4), &data),
        Err(FileStorageWriteError::FileChunkAlreadyExists)
    );
    assert_eq!(memory.get_chunk(&ChunkId::new(4)).unwrap(), data);
    assert_eq!(*memory.get_root(), root);
    assert_eq!(
        memory.get_chunk(&ChunkId::new(5)),
        Err(FileStorageError::FileChunkDoesNotExist)
    );

    let mut durable = RocksDbFileDataTrie::<InMemory>::new(new_storage(4));
    durable.write_chunk(&ChunkId::new(4), &data).unwrap();
    assert_eq!(durable.get_chunk(&ChunkId::new(4)).unwrap(), data);
    let root = *durable.get_root();
    assert_eq!(
        durable.write_chunk(&ChunkId::new(4), &other),
        Err(FileStorageWriteError::FileChunkAlreadyExists)
    );
    assert_eq!(
        durable.write_chunk(&ChunkId::new(4), &data),
        Err(FileStorageWriteError::FileChunkAlreadyExists)
    );
    assert_eq!(durable.get_chunk(&ChunkId::new(4)).unwrap(), data);
    assert_eq!(*durable.get_root(), root);
    assert_eq!(
        durable.get_chunk(&ChunkId::new(5)),
        Err(FileStorageError::FileChunkDoesNotExist)
    );
}

#[test]
fn both_tries_have_the_same_roots() {
    let mut memory = InMemoryFileDataTrie::new();
    let mut durable = RocksDbFileDataTrie::<InMemory>::new(new_storage(4));
    for id in [3u64, 0, 70000, 2, 1] {
        let data = vec![id as u8; 40 + id as usize % 1000];
        memory.write_chunk(&ChunkId::new(id), &data).unwrap();
        durable.write_chunk(&ChunkId::new(id), &data).unwrap();
        assert_eq!(memory.get_root(), durable.get_root());
    }
    assert_eq!(memory.stored_chunks_count().unwrap(), 5);
    assert_eq!(durable.stored_chunks_count().unwrap(), 5);
}

#[test]
fn each_write_adds_one_chunk_and_changes_the_root() {
    let mut memory = InMemoryFileDataTrie::new();
    let mut durable = RocksDbFileDataTrie::<InMemory>::new(new_storage(4));
    let mut roots = vec![*memory.get_root()];
    for n in 1..=20u64 {
        let data = vec![n as u8; 1024];
        memory.write_chunk(&ChunkId::new(n * 3), &data).unwrap();
        durable.write_chunk(&ChunkId::new(n * 3), &data).unwrap();
        assert_eq!(memory.stored_chunks_count().unwrap(), n);
        assert_eq!(durable.stored_chunks_count().unwrap(), n);
        assert!(!roots.contains(memory.get_root()));
        roots.push(*memory.get_root());
    }
    for n in 1..=20u64 {
        assert_eq!(
            memory.get_chunk(&ChunkId::new(n * 3)).unwrap(),
            vec![n as u8; 1024]
        );
        assert_eq!(
            durable.get_chunk(&ChunkId::new(n * 3)).unwrap(),
            vec![n as u8; 1024]
        );
    }
}

#[test]
fn root_does_not_depend_on_the_order_of_writes() {
    let mut forward = InMemoryFileDataTrie::new();
    let mut backward = InMemoryFileDataTrie::new();
    for id in 0..10u64 {
        forward.write_chunk(&ChunkId::new(id), &vec![id as u8; 50]).unwrap();
    }
    for id in (0..10u64).rev() {
        backward.write_chunk(&ChunkId::new(id), &vec![id as u8; 50]).unwrap();
    }
    assert_eq!(forward.get_root(), backward.get_root());
}

#[test]
fn durable_trie_is_found_again_under_its_root() {
    let storage = new_storage(4);
    let mut trie = RocksDbFileDataTrie::<InMemory>::new(storage.clone());
    for id in 0..8u64 {
        trie.write_chunk(&ChunkId::new(id), &vec![id as u8; 900]).unwrap();
    }
    let root = *trie.get_root();

    let mut reopened = RocksDbFileDataTrie::<InMemory>::from_existing(storage.clone(), &root);
    assert_eq!(reopened.stored_chunks_count().unwrap(), 8);
    assert_eq!(reopened.get_chunk(&ChunkId::new(5)).unwrap(), vec![5u8; 900]);
    reopened.write_chunk(&ChunkId::new(8), &vec![8u8; 900]).unwrap();
    assert_eq!(reopened.stored_chunks_count().unwrap(), 9);
    assert_eq!(
        reopened.write_chunk(&ChunkId::new(3), &vec![0u8; 1]),
        Err(FileStorageWriteError::FileChunkAlreadyExists)
    );

    let again = RocksDbFileDataTrie::<InMemory>::from_existing(storage, reopened.get_root());
    assert_eq!(again.stored_chunks_count().unwrap(), 9);
    for id in 0..9u64 {
        assert_eq!(again.get_chunk(&ChunkId::new(id)).unwrap(), vec![id as u8; 900]);
    }
}

#[test]
fn proof_of_a_subset_shows_exactly_that_subset() {
    let chunks: Vec<Chunk> = (0..6u8).map(|n| vec![n; 700]).collect();
    let memory = memory_trie_of(&chunks);
    let mut durable = RocksDbFileDataTrie::<InMemory>::new(new_storage(4));
    for (id, chunk) in chunks.iter().enumerate() {
        durable.write_chunk(&ChunkId::new(id as u64), chunk).unwrap();
    }

    let subset = vec![ChunkId::new(4), ChunkId::new(1)];
    let from_memory = memory.generate_proof(&subset).unwrap();
    let from_database = durable.generate_proof(&subset).unwrap();
    assert_eq!(from_memory.fingerprint.as_hash(), *memory.get_root());
    assert_eq!(from_database.fingerprint.as_hash(), *durable.get_root());
    assert_eq!(from_memory.proof, from_database.proof);

    let metadata = sample_metadata(700 * 6, *memory.get_root(), 1);
    let shown = from_memory.to_file_key_proof(metadata).proven().unwrap();
    assert_eq!(shown.len(), 2);
    assert_eq!(shown[0].key, ChunkId::new(1));
    assert_eq!(shown[0].data, vec![1u8; 700]);
    assert_eq!(shown[1].key, ChunkId::new(4));
    assert_eq!(shown[1].data, vec![4u8; 700]);
}

#[test]
fn proof_does_not_fit_another_fingerprint() {
    let chunks = sample_chunks();
    let trie = memory_trie_of(&chunks);
    let file_proof = trie.generate_proof(&sample_ids()).unwrap();
    let tampered = FileKeyProof {
        file_metadata: sample_metadata(3072, [9u8; 32], 1),
        fingerprint: Fingerprint::new([9u8; 32]),
        proof: file_proof.proof,
    };
    assert!(tampered.proven().is_none());
}

#[test]
fn proof_of_a_missing_chunk_is_refused() {
    let trie = memory_trie_of(&sample_chunks());
    assert_eq!(
        trie.generate_proof(&vec![ChunkId::new(0), ChunkId::new(3)]).err(),
        Some(FileStorageError::FileChunkDoesNotExist)
    );
    let mut durable = RocksDbFileDataTrie::<InMemory>::new(new_storage(4));
    durable.write_chunk(&ChunkId::new(0), &vec![1u8; 10]).unwrap();
    assert_eq!(
        durable.generate_proof(&vec![ChunkId::new(3)]).err(),
        Some(FileStorageError::FileChunkDoesNotExist)
    );
}

#[test]
fn delete_forgets_every_chunk() {
    let mut memory = memory_trie_of(&sample_chunks());
    assert_eq!(memory.delete(), Ok(()));
    assert_eq!(memory.stored_chunks_count().unwrap(), 0);
    assert_eq!(*memory.get_root(), empty_root());
    for id in sample_ids() {
        assert_eq!(
            memory.get_chunk(&id),
            Err(FileStorageError::FileChunkDoesNotExist)
        );
    }
    memory.write_chunk(&ChunkId::new(0), &vec![3u8; 3]).unwrap();
    assert_eq!(memory.get_chunk(&ChunkId::new(0)).unwrap(), vec![3u8; 3]);

    let storage = new_storage(4);
    let mut durable = RocksDbFileDataTrie::<InMemory>::new(storage.clone());
    for (id, chunk) in sample_chunks().iter().enumerate() {
        durable.write_chunk(&ChunkId::new(id as u64), chunk).unwrap();
    }
    let old_root = *durable.get_root();
    assert_eq!(durable.delete(), Ok(()));
    assert_eq!(durable.stored_chunks_count().unwrap(), 0);
    assert_eq!(*durable.get_root(), empty_root());
    for id in sample_ids() {
        assert_eq!(
            durable.get_chunk(&id),
            Err(FileStorageError::FileChunkDoesNotExist)
        );
    }
    // The nodes are gone from the database too.
    let stale = RocksDbFileDataTrie::<InMemory>::from_existing(storage, &old_root);
    assert!(stale.get_chunk(&ChunkId::new(0)).is_err());
}

#[test]
fn durable_delete_removes_the_chunks_counted_from_zero() {
    let mut durable = RocksDbFileDataTrie::<InMemory>::new(new_storage(4));
    durable.write_chunk(&ChunkId::new(0), &vec![1u8; 10]).unwrap();
    durable.write_chunk(&ChunkId::new(7), &vec![2u8; 10]).unwrap();
    assert_eq!(durable.delete(), Ok(()));
    // Two chunks were counted, so the indices 0 and 1 were removed.
    assert_eq!(
        durable.get_chunk(&ChunkId::new(0)),
        Err(FileStorageError::FileChunkDoesNotExist)
    );
    assert_eq!(durable.get_chunk(&ChunkId::new(7)).unwrap(), vec![2u8; 10]);
    assert_eq!(durable.stored_chunks_count().unwrap(), 1);
}

#[test]
fn commit_with_the_same_root_writes_nothing() {
    let storage = StorageDb {
        db: Arc::new(RefusingDb),
    };
    let mut trie = RocksDbFileDataTrie::<RefusingDb>::new(storage);
    let root = *trie.get_root();
    assert_eq!(trie.commit(root), Ok(()));
    assert_eq!(*trie.get_root(), root);
}

#[test]
fn refused_commit_keeps_the_root() {
    let storage = StorageDb {
        db: Arc::new(RefusingDb),
    };
    let mut trie = RocksDbFileDataTrie::<RefusingDb>::new(storage);
    let root = *trie.get_root();
    assert_eq!(
        trie.commit([1u8; 32]),
        Err(FileStorageError::FailedToWriteToStorage)
    );
    assert_eq!(*trie.get_root(), root);
    assert_eq!(
        trie.write_chunk(&ChunkId::new(0), &vec![1u8; 10]),
        Err(FileStorageWriteError::FailedToPersistChanges)
    );
    assert_eq!(*trie.get_root(), root);
    // The change is still pending: a second try finds the chunk in the overlay.
    assert_eq!(
        trie.write_chunk(&ChunkId::new(0), &vec![1u8; 10]),
        Err(FileStorageWriteError::FailedToPersistChanges)
    );
    assert_eq!(*trie.get_root(), root);
}

#[test]
fn refusing_database_fails_the_registry() {
    let storage = StorageDb {
        db: Arc::new(RefusingDb),
    };
    let mut registry = RocksDbFileStorage::<RefusingDb>::new(storage);
    let metadata = sample_metadata(3072, [5u8; 32], 1);
    let key = metadata.file_key();
    assert_eq!(
        registry.insert_file(key, metadata),
        Err(FileStorageError::FailedToWriteToStorage)
    );
    assert_eq!(registry.get_metadata(&key), Ok(None));
    assert_eq!(
        registry.get_chunk(&key, &ChunkId::new(0)),
        Err(FileStorageError::FileDoesNotExist)
    );
    assert_eq!(
        registry.write_chunk(&key, &ChunkId::new(0), &vec![1u8; 4]),
        Err(FileStorageWriteError::FileDoesNotExist)
    );
}

#[test]
fn database_without_columns_cannot_be_read() {
    let mut registry = RocksDbFileStorage::<InMemory>::new(new_storage(0));
    let key = [3u8; 32];
    assert_eq!(
        registry.get_metadata(&key),
        Err(FileStorageError::FailedToReadStorage)
    );
    assert_eq!(
        registry.get_chunk(&key, &ChunkId::new(0)),
        Err(FileStorageError::FailedToReadStorage)
    );
    assert_eq!(
        registry.stored_chunks_count(&key),
        Err(FileStorageError::FailedToReadStorage)
    );
    assert_eq!(
        registry.generate_proof(&key, &sample_ids()).err(),
        Some(FileStorageError::FailedToReadStorage)
    );
    assert_eq!(
        registry.delete_file(&key),
        Err(FileStorageError::FailedToReadStorage)
    );
    assert_eq!(
        registry.write_chunk(&key, &ChunkId::new(0), &vec![1u8; 4]),
        Err(FileStorageWriteError::FailedToReadStorage)
    );
    assert_eq!(
        registry.insert_file(key, sample_metadata(1, [0u8; 32], 1)),
        Err(FileStorageError::FailedToReadStorage)
    );
}

#[test]
fn root_that_cannot_be_recorded_fails_the_write() {
    let db = Arc::new(PickyDb {
        inner: kvdb_memorydb::create(4),
        refuse_roots: std::sync::atomic::AtomicBool::new(false),
    });
    let mut registry = RocksDbFileStorage::<PickyDb>::new(StorageDb { db: db.clone() });
    let metadata = sample_metadata(3072, [5u8; 32], 1);
    let key = metadata.file_key();
    registry.insert_file(key, metadata).unwrap();
    db.refuse_roots.store(true, std::sync::atomic::Ordering::SeqCst);
    assert_eq!(
        registry.write_chunk(&key, &ChunkId::new(0), &vec![1u8; 4]),
        Err(FileStorageWriteError::FailedToUpdatePartialRoot)
    );
    assert_eq!(
        registry.delete_file(&key),
        Err(FileStorageError::FailedToWriteToStorage)
    );
}

#[test]
fn trie_that_is_not_in_the_database_cannot_be_used() {
    let storage = new_storage(4);
    let mut missing = RocksDbFileDataTrie::<InMemory>::from_existing(storage, &[7u8; 32]);
    assert_eq!(
        missing.get_chunk(&ChunkId::new(0)),
        Err(FileStorageError::FailedToGetFileChunk)
    );
    assert_eq!(
        missing.write_chunk(&ChunkId::new(0), &vec![1u8; 4]),
        Err(FileStorageWriteError::FailedToGetFileChunk)
    );
    assert_eq!(
        missing.generate_proof(&vec![ChunkId::new(0)]).err(),
        Some(FileStorageError::FailedToGetFileChunk)
    );
    assert_eq!(*missing.get_root(), [7u8; 32]);
}

#[test]
fn stored_records_are_read_exactly() {
    let metadata = sample_metadata(3072, [5u8; 32], 1);
    let record = metadata_to_stored(&metadata).unwrap();
    assert_ne!(record, metadata.owner);
    assert_eq!(
        metadata_from_stored(Some(record.clone())),
        Ok(Some(metadata.clone()))
    );
    assert_eq!(metadata_from_stored(None), Ok(None));
    assert_eq!(
        metadata_from_stored(Some(b"not a record".to_vec())),
        Err(FileStorageError::FailedToParseFileMetadata)
    );
    assert_eq!(
        metadata_from_stored(Some(b"[[1],[2],[3],4,[5,6]]".to_vec())),
        Err(FileStorageError::FailedToParseFileMetadata)
    );
    let short = b"[[1],[2],[3],4,[5,5,5,5,5,5,5,5,5,5,5,5,5,5,5,5,5,5,5,5,5,5,5,5,5,5,5,5,5,5,5,5]]".to_vec();
    assert_eq!(
        metadata_from_stored(Some(short)),
        Ok(Some(FileMetadata {
            owner: vec![1],
            bucket_id: vec![2],
            location: vec![3],
            file_size: 4,
            fingerprint: Fingerprint::new([5u8; 32]),
        }))
    );
}

#[test]
fn stored_roots_are_read_exactly() {
    assert_eq!(partial_root_from_stored(Some(vec![4u8; 32])), Ok([4u8; 32]));
    assert_eq!(
        partial_root_from_stored(Some(vec![4u8; 31])),
        Err(FileStorageError::FailedToParsePartialRoot)
    );
    assert_eq!(
        partial_root_from_stored(None),
        Err(FileStorageError::FailedToParsePartialRoot)
    );
}

#[test]
fn index_entries_yield_file_keys() {
    let entry = join(&[1u8; 32], &[2u8; 32]);
    assert_eq!(file_key_of_entry(&entry, 32), Ok([2u8; 32]));
    assert_eq!(
        file_key_of_entry(&vec![1u8; 65], 32),
        Err(FileStorageError::FailedToParseFingerprint)
    );
    assert_eq!(
        file_key_of_entry(&vec![1u8; 63], 32),
        Err(FileStorageError::FailedToParseFingerprint)
    );
    assert_eq!(
        file_key_of_entry(&vec![1u8; 3], 32),
        Err(FileStorageError::FailedToParseFingerprint)
    );
}

#[test]
fn completeness_needs_count_and_fingerprint() {
    let metadata = sample_metadata(3072, [5u8; 32], 1);
    assert_eq!(
        outcome_after_write(&metadata, 2, &[5u8; 32]),
        FileStorageWriteOutcome::FileIncomplete
    );
    assert_eq!(
        outcome_after_write(&metadata, 3, &[5u8; 32]),
        FileStorageWriteOutcome::FileComplete
    );
    assert_eq!(
        outcome_after_write(&metadata, 3, &[6u8; 32]),
        FileStorageWriteOutcome::FileIncomplete
    );
    assert_eq!(
        outcome_after_write(&metadata, 4, &[5u8; 32]),
        FileStorageWriteOutcome::FileIncomplete
    );
    assert_eq!(
        check_complete(&metadata, 2, &[5u8; 32]),
        Err(FileStorageError::IncompleteFile)
    );
    assert_eq!(
        check_complete(&metadata, 3, &[6u8; 32]),
        Err(FileStorageError::FingerprintAndStoredFileMismatch)
    );
    assert_eq!(check_complete(&metadata, 3, &[5u8; 32]), Ok(()));
}

#[test]
fn batches_hold_their_changes_in_order() {
    let key = [1u8; 32];
    let fingerprint = [2u8; 32];
    let root = [3u8; 32];
    let record = vec![9u8, 8, 7];
    let full_key = join(&[4u8; 32], &key);

    let batch = registration(&key, &record, &fingerprint, &root, &full_key);
    assert_eq!(batch.ops.len(), 3);
    assert!(
        batch.ops[0]
            == DBOp::Insert {
                col: METADATA_COLUMN,
                key: key.as_slice().into(),
                value: record.clone()
            }
    );
    assert!(
        batch.ops[1]
            == DBOp::Insert {
                col: ROOTS_COLUMN,
                key: fingerprint.as_slice().into(),
                value: root.to_vec()
            }
    );
    assert!(
        batch.ops[2]
            == DBOp::Insert {
                col: BUCKET_PREFIX_COLUMN,
                key: full_key.as_slice().into(),
                value: vec![]
            }
    );

    let batch = root_update(&fingerprint, &root);
    assert_eq!(batch.ops.len(), 1);
    assert!(
        batch.ops[0]
            == DBOp::Insert {
                col: ROOTS_COLUMN,
                key: fingerprint.as_slice().into(),
                value: root.to_vec()
            }
    );

    let batch = removal(&key, &fingerprint, &full_key);
    assert_eq!(batch.ops.len(), 3);
    assert!(
        batch.ops[0]
            == DBOp::Delete {
                col: METADATA_COLUMN,
                key: key.as_slice().into()
            }
    );
    assert!(
        batch.ops[1]
            == DBOp::Delete {
                col: ROOTS_COLUMN,
                key: fingerprint.as_slice().into()
            }
    );
    assert!(
        batch.ops[2]
            == DBOp::Delete {
                col: BUCKET_PREFIX_COLUMN,
                key: full_key.as_slice().into()
            }
    );
}

#[test]
fn errors_of_opening_become_errors_of_writing() {
    assert_eq!(
        write_error_of(FileStorageError::FileDoesNotExist),
        FileStorageWriteError::FileDoesNotExist
    );
    assert_eq!(
        write_error_of(FileStorageError::FailedToReadStorage),
        FileStorageWriteError::FailedToReadStorage
    );
    assert_eq!(
        write_error_of(FileStorageError::FailedToParsePartialRoot),
        FileStorageWriteError::FailedToParsePartialRoot
    );
    assert_eq!(
        write_error_of(FileStorageError::FailedToParseFileMetadata),
        FileStorageWriteError::FailedToParseFileMetadata
    );
}

#[test]
fn registry_in_memory_reports_each_error() {
    let mut registry = InMemoryFileStorage::new();
    let key = [8u8; 32];
    assert_eq!(registry.get_metadata(&key), Ok(None));
    assert_eq!(
        registry.get_chunk(&key, &ChunkId::new(0)),
        Err(FileStorageError::FileDoesNotExist)
    );
    assert_eq!(
        registry.stored_chunks_count(&key),
        Err(FileStorageError::FileDoesNotExist)
    );
    assert_eq!(
        registry.write_chunk(&key, &ChunkId::new(0), &vec![1u8; 4]),
        Err(FileStorageWriteError::FileDoesNotExist)
    );
    assert_eq!(
        registry.generate_proof(&key, &sample_ids()).err(),
        Some(FileStorageError::FileDoesNotExist)
    );
    assert_eq!(registry.delete_file(&key), Ok(()));

    let trie = memory_trie_of(&sample_chunks());
    let metadata = sample_metadata(3072, [5u8; 32], 1);
    registry.insert_file_with_data(key, metadata.clone(), trie).unwrap();
    assert_eq!(
        registry.insert_file(key, metadata.clone()),
        Err(FileStorageError::FileAlreadyExists)
    );
    assert_eq!(
        registry.insert_file_with_data(key, metadata.clone(), registry.new_file_data_trie()),
        Err(FileStorageError::FileAlreadyExists)
    );
    assert_eq!(registry.get_metadata(&key), Ok(Some(metadata)));
    assert_eq!(registry.stored_chunks_count(&key), Ok(3));
    assert_eq!(
        registry.get_chunk(&key, &ChunkId::new(3)),
        Err(FileStorageError::FileChunkDoesNotExist)
    );
    assert_eq!(
        registry.write_chunk(&key, &ChunkId::new(1), &vec![1u8; 4]),
        Err(FileStorageWriteError::FileChunkAlreadyExists)
    );
    // All chunks are there, but the root is not the fingerprint.
    assert_eq!(
        registry.generate_proof(&key, &sample_ids()).err(),
        Some(FileStorageError::FingerprintAndStoredFileMismatch)
    );

    let other_key = [9u8; 32];
    registry
        .insert_file(other_key, sample_metadata(3072, [5u8; 32], 1))
        .unwrap();
    registry
        .write_chunk(&other_key, &ChunkId::new(0), &vec![1u8; 4])
        .unwrap();
    assert_eq!(
        registry.generate_proof(&other_key, &sample_ids()).err(),
        Some(FileStorageError::IncompleteFile)
    );
}

#[test]
fn registry_in_the_database_reports_each_error() {
    let storage = new_storage(4);
    let mut registry = RocksDbFileStorage::<InMemory>::new(storage.clone());
    let key = [8u8; 32];
    assert_eq!(registry.get_metadata(&key), Ok(None));
    assert_eq!(
        registry.get_chunk(&key, &ChunkId::new(0)),
        Err(FileStorageError::FileDoesNotExist)
    );
    assert_eq!(
        registry.stored_chunks_count(&key),
        Err(FileStorageError::FileDoesNotExist)
    );
    assert_eq!(
        registry.write_chunk(&key, &ChunkId::new(0), &vec![1u8; 4]),
        Err(FileStorageWriteError::FileDoesNotExist)
    );
    assert_eq!(
        registry.generate_proof(&key, &sample_ids()).err(),
        Some(FileStorageError::FileDoesNotExist)
    );
    assert_eq!(
        registry.delete_file(&key),
        Err(FileStorageError::FileDoesNotExist)
    );

    let mut trie = registry.new_file_data_trie();
    for (id, chunk) in sample_chunks().iter().enumerate() {
        trie.write_chunk(&ChunkId::new(id as u64), chunk).unwrap();
    }
    let metadata = sample_metadata(3072, [5u8; 32], 1);
    registry.insert_file_with_data(key, metadata.clone(), trie).unwrap();
    assert_eq!(
        registry.insert_file(key, metadata.clone()),
        Err(FileStorageError::FileAlreadyExists)
    );
    assert_eq!(registry.get_metadata(&key), Ok(Some(metadata)));
    assert_eq!(registry.stored_chunks_count(&key), Ok(3));
    assert_eq!(
        registry.get_chunk(&key, &ChunkId::new(3)),
        Err(FileStorageError::FileChunkDoesNotExist)
    );
    assert_eq!(
        registry.write_chunk(&key, &ChunkId::new(1), &vec![1u8; 4]),
        Err(FileStorageWriteError::FileChunkAlreadyExists)
    );
    assert_eq!(
        registry.generate_proof(&key, &sample_ids()).err(),
        Some(FileStorageError::FingerprintAndStoredFileMismatch)
    );

    let other_key = [9u8; 32];
    registry
        .insert_file(other_key, sample_metadata(3072, [6u8; 32], 1))
        .unwrap();
    registry
        .write_chunk(&other_key, &ChunkId::new(0), &vec![1u8; 4])
        .unwrap();
    assert_eq!(
        registry.generate_proof(&other_key, &sample_ids()).err(),
        Some(FileStorageError::IncompleteFile)
    );

    // A record that is no metadata, and a root that is no root.
    let mut garbage = DBTransaction::new();
    garbage.put(METADATA_COLUMN, &[7u8; 32], b"garbage");
    storage.db.write(garbage).unwrap();
    assert_eq!(
        registry.get_metadata(&[7u8; 32]),
        Err(FileStorageError::FailedToParseFileMetadata)
    );
    assert_eq!(
        registry.write_chunk(&[7u8; 32], &ChunkId::new(0), &vec![1u8; 4]),
        Err(FileStorageWriteError::FailedToParseFileMetadata)
    );
    let mut bad_root = DBTransaction::new();
    bad_root.put(ROOTS_COLUMN, &[6u8; 32], &[1, 2, 3]);
    storage.db.write(bad_root).unwrap();
    assert_eq!(
        registry.get_chunk(&other_key, &ChunkId::new(0)),
        Err(FileStorageError::FailedToParsePartialRoot)
    );
    assert_eq!(
        registry.write_chunk(&other_key, &ChunkId::new(1), &vec![1u8; 4]),
        Err(FileStorageWriteError::FailedToParsePartialRoot)
    );
}

#[test]
fn file_is_complete_exactly_on_the_last_write() {
    let chunks = sample_chunks();
    let ids = sample_ids();
    let fingerprint = *memory_trie_of(&chunks).get_root();

    let mut memory = InMemoryFileStorage::new();
    let metadata = sample_metadata(3072, fingerprint, 1);
    let key = metadata.file_key();
    memory.insert_file(key, metadata).unwrap();
    assert_eq!(memory.stored_chunks_count(&key), Ok(0));
    assert_eq!(
        memory.write_chunk(&key, &ids[0], &chunks[0]),
        Ok(FileStorageWriteOutcome::FileIncomplete)
    );
    assert_eq!(
        memory.write_chunk(&key, &ids[1], &chunks[1]),
        Ok(FileStorageWriteOutcome::FileIncomplete)
    );
    assert_eq!(
        memory.write_chunk(&key, &ids[2], &chunks[2]),
        Ok(FileStorageWriteOutcome::FileComplete)
    );
    assert_eq!(memory.stored_chunks_count(&key), Ok(3));
    let file_proof = memory.generate_proof(&key, &ids).unwrap();
    assert_eq!(file_proof.fingerprint.as_hash(), fingerprint);
    let shown = file_proof.proven().unwrap();
    assert_eq!(shown.len(), 3);
    for (id, leaf) in shown.iter().enumerate() {
        assert_eq!(leaf.key, ids[id]);
        assert_eq!(leaf.data, chunks[id]);
    }
    assert_eq!(memory.delete_file(&key), Ok(()));
    assert_eq!(memory.get_metadata(&key), Ok(None));
    for id in &ids {
        assert_eq!(
            memory.get_chunk(&key, id),
            Err(FileStorageError::FileDoesNotExist)
        );
    }

    let mut durable = RocksDbFileStorage::<InMemory>::new(new_storage(4));
    let metadata = sample_metadata(3072, fingerprint, 1);
    durable.insert_file(key, metadata).unwrap();
    assert_eq!(durable.stored_chunks_count(&key), Ok(0));
    assert_eq!(
        durable.write_chunk(&key, &ids[0], &chunks[0]),
        Ok(FileStorageWriteOutcome::FileIncomplete)
    );
    assert_eq!(
        durable.write_chunk(&key, &ids[1], &chunks[1]),
        Ok(FileStorageWriteOutcome::FileIncomplete)
    );
    assert_eq!(
        durable.write_chunk(&key, &ids[2], &chunks[2]),
        Ok(FileStorageWriteOutcome::FileComplete)
    );
    assert_eq!(durable.stored_chunks_count(&key), Ok(3));
    let file_proof = durable.generate_proof(&key, &ids).unwrap();
    assert_eq!(file_proof.fingerprint.as_hash(), fingerprint);
    let shown = file_proof.proven().unwrap();
    assert_eq!(shown.len(), 3);
    for (id, leaf) in shown.iter().enumerate() {
        assert_eq!(leaf.key, ids[id]);
        assert_eq!(leaf.data, chunks[id]);
    }
    assert_eq!(durable.delete_file(&key), Ok(()));
    assert_eq!(durable.get_metadata(&key), Ok(None));
    for id in &ids {
        assert_eq!(
            durable.get_chunk(&key, id),
            Err(FileStorageError::FileDoesNotExist)
        );
    }
}

#[test]
fn wrong_fingerprint_never_completes_the_file() {
    let chunks = sample_chunks();
    let ids = sample_ids();

    let mut memory = InMemoryFileStorage::new();
    let metadata = sample_metadata(3072, [1u8; 32], 1);
    let key = metadata.file_key();
    memory.insert_file(key, metadata).unwrap();
    for (id, chunk) in ids.iter().zip(&chunks) {
        assert_eq!(
            memory.write_chunk(&key, id, chunk),
            Ok(FileStorageWriteOutcome::FileIncomplete)
        );
    }
    assert_eq!(
        memory.generate_proof(&key, &ids).err(),
        Some(FileStorageError::FingerprintAndStoredFileMismatch)
    );

    let mut durable = RocksDbFileStorage::<InMemory>::new(new_storage(4));
    durable
        .insert_file(key, sample_metadata(3072, [1u8; 32], 1))
        .unwrap();
    for (id, chunk) in ids.iter().zip(&chunks) {
        assert_eq!(
            durable.write_chunk(&key, id, chunk),
            Ok(FileStorageWriteOutcome::FileIncomplete)
        );
    }
    assert_eq!(
        durable.generate_proof(&key, &ids).err(),
        Some(FileStorageError::FingerprintAndStoredFileMismatch)
    );
}

#[test]
fn removing_a_bucket_leaves_the_other_buckets() {
    let mut memory = InMemoryFileStorage::new();
    let mut durable = RocksDbFileStorage::<InMemory>::new(new_storage(4));
    let mut files = Vec::new();
    for (n, bucket) in [1u8, 2, 1, 3, 2].iter().enumerate() {
        let chunks: Vec<Chunk> = (0..3u8).map(|id| vec![10 * n as u8 + id; 1024]).collect();
        let trie = memory_trie_of(&chunks);
        let metadata = sample_metadata(3072, *trie.get_root(), *bucket);
        let key = metadata.file_key();
        memory.insert_file_with_data(key, metadata.clone(), trie).unwrap();
        durable.insert_file(key, metadata).unwrap();
        for (id, chunk) in chunks.iter().enumerate() {
            durable.write_chunk(&key, &ChunkId::new(id as u64), chunk).unwrap();
        }
        files.push((key, *bucket, chunks));
    }

    assert_eq!(memory.delete_files_with_prefix(&[1u8; 32]), Ok(()));
    assert_eq!(durable.delete_files_with_prefix(&[1u8; 32]), Ok(()));
    for (key, bucket, chunks) in &files {
        if *bucket == 1 {
            assert_eq!(memory.get_metadata(key), Ok(None));
            assert_eq!(durable.get_metadata(key), Ok(None));
            assert_eq!(
                memory.get_chunk(key, &ChunkId::new(0)),
                Err(FileStorageError::FileDoesNotExist)
            );
            assert_eq!(
                durable.get_chunk(key, &ChunkId::new(0)),
                Err(FileStorageError::FileDoesNotExist)
            );
        } else {
            assert_eq!(memory.get_metadata(key).unwrap().unwrap().bucket_id, vec![*bucket; 32]);
            assert_eq!(durable.get_metadata(key).unwrap().unwrap().bucket_id, vec![*bucket; 32]);
            for (id, chunk) in chunks.iter().enumerate() {
                assert_eq!(memory.get_chunk(key, &ChunkId::new(id as u64)).as_ref(), Ok(chunk));
                assert_eq!(durable.get_chunk(key, &ChunkId::new(id as u64)).as_ref(), Ok(chunk));
            }
            assert_eq!(memory.stored_chunks_count(key), Ok(3));
            assert_eq!(durable.stored_chunks_count(key), Ok(3));
        }
    }

    // A bucket without files: nothing changes.
    assert_eq!(memory.delete_files_with_prefix(&[9u8; 32]), Ok(()));
    assert_eq!(durable.delete_files_with_prefix(&[9u8; 32]), Ok(()));
    assert_eq!(memory.stored_chunks_count(&files[1].0), Ok(3));
    assert_eq!(durable.stored_chunks_count(&files[1].0), Ok(3));
    // A file can be registered again once it was removed.
    let (gone, _, chunks) = &files[0];
    let metadata = sample_metadata(3072, *memory_trie_of(chunks).get_root(), 1);
    assert_eq!(memory.insert_file(*gone, metadata.clone()), Ok(()));
    assert_eq!(durable.insert_file(*gone, metadata), Ok(()));
}

#[test]
fn files_with_the_same_content_share_their_trie_in_the_database() {
    let chunks = sample_chunks();
    let fingerprint = *memory_trie_of(&chunks).get_root();
    let mut durable = RocksDbFileStorage::<InMemory>::new(new_storage(4));
    let first = sample_metadata(3072, fingerprint, 1);
    let second = sample_metadata(3072, fingerprint, 2);
    let first_key = first.file_key();
    let second_key = second.file_key();
    durable.insert_file(first_key, first).unwrap();
    for (id, chunk) in chunks.iter().enumerate() {
        durable.write_chunk(&first_key, &ChunkId::new(id as u64), chunk).unwrap();
    }
    // The second file is registered with the trie that the first one has built.
    let trie = RocksDbFileDataTrie::<InMemory>::from_existing(new_storage(4), &fingerprint);
    durable.insert_file_with_data(second_key, second, trie).unwrap();
    assert_eq!(durable.get_chunk(&second_key, &ChunkId::new(2)).as_ref(), Ok(&chunks[2]));

    // The root is kept under the fingerprint, so removing one file removes it for both.
    assert_eq!(durable.delete_files_with_prefix(&[1u8; 32]), Ok(()));
    assert_eq!(durable.get_metadata(&first_key), Ok(None));
    assert!(durable.get_metadata(&second_key).unwrap().is_some());
    assert_eq!(
        durable.get_chunk(&second_key, &ChunkId::new(2)),
        Err(FileStorageError::FailedToParsePartialRoot)
    );
}

#[test]
fn proof_of_no_chunk_cannot_be_compacted() {
    let mut memory = InMemoryFileDataTrie::new();
    memory.write_chunk(&ChunkId::new(7), &vec![9u8; 70]).unwrap();
    assert_eq!(
        memory.generate_proof(&vec![]).err(),
        Some(FileStorageError::FailedToGenerateCompactProof)
    );
    let mut durable = RocksDbFileDataTrie::<InMemory>::new(new_storage(4));
    durable.write_chunk(&ChunkId::new(7), &vec![9u8; 70]).unwrap();
    assert_eq!(
        durable.generate_proof(&vec![]).err(),
        Some(FileStorageError::FailedToGenerateCompactProof)
    );
}

#[test]
fn trie_with_an_unknown_root_cannot_be_counted_or_deleted() {
    let storage = new_storage(4);
    let mut missing = RocksDbFileDataTrie::<InMemory>::from_existing(storage.clone(), &[7u8; 32]);
    assert_eq!(
        missing.stored_chunks_count(),
        Err(FileStorageError::FailedToConstructTrieIter)
    );
    assert_eq!(
        missing.delete(),
        Err(FileStorageWriteError::FailedToGetStoredChunksCount)
    );
    assert_eq!(*missing.get_root(), [7u8; 32]);

    // A file that is registered with such a trie cannot be removed.
    let mut registry = RocksDbFileStorage::<InMemory>::new(storage.clone());
    let metadata = sample_metadata(3072, [5u8; 32], 1);
    let key = metadata.file_key();
    registry.insert_file_with_data(key, metadata, missing).unwrap();
    assert_eq!(
        registry.stored_chunks_count(&key),
        Err(FileStorageError::FailedToConstructTrieIter)
    );
    assert_eq!(
        registry.delete_file(&key),
        Err(FileStorageError::FailedToDeleteFileChunk)
    );
    assert_eq!(
        registry.delete_files_with_prefix(&[1u8; 32]),
        Err(FileStorageError::FailedToDeleteFileChunk)
    );
}

#[test]
fn index_entry_of_the_wrong_length_stops_the_removal() {
    let storage = new_storage(4);
    let mut registry = RocksDbFileStorage::<InMemory>::new(storage.clone());
    let mut odd = DBTransaction::new();
    odd.put(BUCKET_PREFIX_COLUMN, &[1u8; 40], &[]);
    storage.db.write(odd).unwrap();
    assert_eq!(
        registry.delete_files_with_prefix(&[1u8; 32]),
        Err(FileStorageError::FailedToParseFingerprint)
    );
    assert_eq!(registry.delete_files_with_prefix(&[2u8; 32]), Ok(()));
}

#[test]
fn overlay_is_written_as_one_batch() {
    let storage = new_storage(4);
    let mut trie = RocksDbFileDataTrie::<InMemory>::new(storage.clone());
    trie.write_chunk(&ChunkId::new(0), &vec![1u8; 1024]).unwrap();
    let nodes_after_first: Vec<_> = storage.db.iter(CHUNKS_COLUMN).map(|item| item.unwrap()).collect();
    // The leaf with its value node: two nodes under the root.
    assert_eq!(nodes_after_first.len(), 2);
    trie.write_chunk(&ChunkId::new(1), &vec![2u8; 1024]).unwrap();
    let nodes_after_second: Vec<_> = storage.db.iter(CHUNKS_COLUMN).map(|item| item.unwrap()).collect();
    // The old root is deleted; a branch and two leaves with their values stay.
    assert_eq!(nodes_after_second.len(), 5);
    for (key, _) in &nodes_after_second {
        assert!(key.len() >= 32);
    }
    assert!(storage.db.iter(METADATA_COLUMN).next().is_none());
    assert!(storage.db.iter(ROOTS_COLUMN).next().is_none());
}

#[test]
fn nodes_stand_under_prefix_and_hash() {
    let storage = new_storage(4);
    let mut trie = RocksDbFileDataTrie::<InMemory>::new(storage.clone());
    trie.write_chunk(&ChunkId::new(0), &vec![1u8; 1024]).unwrap();
    trie.write_chunk(&ChunkId::new(1), &vec![2u8; 1024]).unwrap();
    let root = *trie.get_root();

    // The root node has no prefix: its key is its hash.
    let node = storage.db.get(CHUNKS_COLUMN, &root).unwrap().unwrap();
    assert_eq!(sp_core::hashing::blake2_256(&node), root);
    assert_eq!(
        storage.get(&sp_core::H256(root), (&[], None)),
        Ok(Some(node.clone()))
    );
    // Under a prefix the key is the prefix, its last half byte and the hash.
    assert_eq!(storage.get(&sp_core::H256(root), (&[7], Some(0x10))), Ok(None));
    let mut moved = DBTransaction::new();
    let mut key = vec![7u8, 0x10];
    key.extend_from_slice(&root);
    moved.put(CHUNKS_COLUMN, &key, &node);
    storage.db.write(moved).unwrap();
    assert_eq!(
        storage.get(&sp_core::H256(root), (&[7], Some(0x10))),
        Ok(Some(node))
    );
    assert_eq!(storage.get(&sp_core::H256([9u8; 32]), (&[], None)), Ok(None));
    assert_eq!(
        new_storage(2).get(&sp_core::H256(root), (&[], None)),
        Err(FileStorageError::FailedToReadStorage)
    );
}

#[test]
fn write_goes_on_only_where_no_chunk_was_found() {
    let storage = new_storage(4);
    let mut trie = RocksDbFileDataTrie::<InMemory>::new(storage.clone());
    let root = *trie.get_root();
    let data = vec![3u8; 100];
    assert_eq!(
        trie.write_found(Ok(Some(vec![1, 2, 3])), Vec::new(), &ChunkId::new(0), &data),
        Err(FileStorageWriteError::FileChunkAlreadyExists)
    );
    assert_eq!(*trie.get_root(), root);
    assert_eq!(
        trie.write_found(Err(()), Vec::new(), &ChunkId::new(0), &data),
        Err(FileStorageWriteError::FailedToGetFileChunk)
    );
    assert_eq!(*trie.get_root(), root);
    assert_eq!(trie.stored_chunks_count(), Ok(0));
    assert_eq!(
        trie.write_found(Ok(None), Vec::new(), &ChunkId::new(0), &data),
        Ok(())
    );
    assert_ne!(*trie.get_root(), root);
    assert_eq!(trie.get_chunk(&ChunkId::new(0)), Ok(data.clone()));

    // The same write through the lookup gives the same root.
    let mut other = RocksDbFileDataTrie::<InMemory>::new(new_storage(4));
    other.write_chunk(&ChunkId::new(0), &data).unwrap();
    assert_eq!(other.get_root(), trie.get_root());
}

#[test]
fn removal_goes_on_only_where_the_chunks_were_counted() {
    let mut trie = RocksDbFileDataTrie::<InMemory>::new(new_storage(4));
    trie.write_chunk(&ChunkId::new(0), &vec![3u8; 10]).unwrap();
    let root = *trie.get_root();
    assert_eq!(
        trie.delete_counted(Err(()), Vec::new()),
        Err(FileStorageWriteError::FailedToGetStoredChunksCount)
    );
    assert_eq!(*trie.get_root(), root);
    assert_eq!(trie.get_chunk(&ChunkId::new(0)), Ok(vec![3u8; 10]));
    // Without the nodes that the count hands out, the chunk cannot be removed.
    assert_eq!(
        trie.delete_counted(Ok(1), Vec::new()),
        Err(FileStorageWriteError::FailedToDeleteChunk)
    );
    assert_eq!(*trie.get_root(), root);
    // No chunk counted: only the entry under the root is looked for.
    let mut empty = RocksDbFileDataTrie::<InMemory>::new(new_storage(4));
    assert_eq!(empty.delete_counted(Ok(0), Vec::new()), Ok(()));
    assert_eq!(*empty.get_root(), empty_root());
}

#[test]
fn listed_keys_end_at_the_first_failure() {
    assert_eq!(
        keys_until_failure(&vec![Some(vec![1]), Some(vec![2, 3]), None, Some(vec![4])]),
        vec![vec![1], vec![2, 3]]
    );
    assert_eq!(keys_until_failure(&vec![None, Some(vec![4])]), Vec::<Vec<u8>>::new());
    assert_eq!(keys_until_failure(&vec![]), Vec::<Vec<u8>>::new());
    assert_eq!(
        keys_until_failure(&vec![Some(vec![]), Some(vec![9])]),
        vec![vec![], vec![9]]
    );

    let storage = new_storage(4);
    let mut batch = DBTransaction::new();
    batch.put(BUCKET_PREFIX_COLUMN, &[1, 1, 5], &[]);
    batch.put(BUCKET_PREFIX_COLUMN, &[1, 2], &[]);
    batch.put(BUCKET_PREFIX_COLUMN, &[1, 1], &[]);
    batch.put(BUCKET_PREFIX_COLUMN, &[2, 1, 1], &[]);
    batch.put(ROOTS_COLUMN, &[1, 1, 7], &[]);
    storage.db.write(batch).unwrap();
    assert_eq!(
        storage.keys_with_prefix(BUCKET_PREFIX_COLUMN, &[1, 1]),
        vec![vec![1, 1], vec![1, 1, 5]]
    );
    assert_eq!(
        storage.keys_with_prefix(BUCKET_PREFIX_COLUMN, &[3]),
        Vec::<Vec<u8>>::new()
    );
    // A column that is not there: the list is a failure from the start.
    assert_eq!(
        new_storage(2).keys_with_prefix(BUCKET_PREFIX_COLUMN, &[1]),
        Vec::<Vec<u8>>::new()
    );
}

#[test]
fn proof_in_memory_is_the_same_for_the_same_chunks_asked() {
    let chunks: Vec<Chunk> = (0..5u8).map(|n| vec![n; 600]).collect();
    let first = memory_trie_of(&chunks);
    let second = memory_trie_of(&chunks);
    let asked = vec![ChunkId::new(3), ChunkId::new(0), ChunkId::new(3)];
    let one = first.generate_proof(&asked).unwrap();
    let two = second.generate_proof(&asked).unwrap();
    assert_eq!(one, two);
    assert_eq!(first.generate_proof(&asked).unwrap(), one);
    assert_ne!(
        first.generate_proof(&vec![ChunkId::new(1)]).unwrap().proof,
        one.proof
    );

    // The registry hands out the proof of the file's trie with the metadata.
    let metadata = sample_metadata(1024 * 5, *first.get_root(), 1);
    let key = metadata.file_key();
    let mut registry = InMemoryFileStorage::new();
    registry.insert_file_with_data(key, metadata.clone(), first).unwrap();
    let with_metadata = registry.generate_proof(&key, &asked).unwrap();
    assert_eq!(with_metadata.proof, one.proof);
    assert_eq!(with_metadata.fingerprint, one.fingerprint);
    assert_eq!(with_metadata.file_metadata, metadata);
}

#[test]
fn registered_key_is_refused_whatever_the_bucket_id() {
    let mut registry = InMemoryFileStorage::new();
    let metadata = sample_metadata(3072, [5u8; 32], 1);
    let key = metadata.file_key();
    registry.insert_file(key, metadata).unwrap();
    let mut odd = sample_metadata(3072, [5u8; 32], 1);
    odd.bucket_id = vec![1, 2, 3];
    assert_eq!(
        registry.insert_file(key, odd.clone()),
        Err(FileStorageError::FileAlreadyExists)
    );
    assert_eq!(
        registry.insert_file_with_data(key, odd, InMemoryFileDataTrie::new()),
        Err(FileStorageError::FileAlreadyExists)
    );
    assert_eq!(registry.stored_chunks_count(&key), Ok(0));
}
