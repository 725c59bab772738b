use file_manager::in_memory::{InMemoryFileDataTrie, InMemoryFileStorage};
use file_manager::types::{Chunk, ChunkId, FileMetadata, Fingerprint};

fn zero_account() -> Vec<u8> {
    [0u8; 32].to_vec()
}

#[test]
fn in_memory_file_trie_create_empty_works() {
    let file_trie = InMemoryFileDataTrie::new();

    // expected hash is the root hash of an empty tree.
    let expected_hash: [u8; 32] = [
        3, 23, 10, 46, 117, 151, 183, 183, 227, 216, 76, 5, 57, 29, 19, 154, 98, 177, 87, 231,
        135, 134, 216, 192, 130, 242, 157, 207, 76, 17, 19, 20,
    ];

    assert_eq!(
        *file_trie.get_root(),
        expected_hash,
        "Root should be initialized to default."
    );
}

#[test]
fn in_memory_file_trie_write_chunk_works() {
    let mut file_trie = InMemoryFileDataTrie::new();
    let old_root = *file_trie.get_root();
    file_trie
        .write_chunk(&ChunkId::new(0u64), &Chunk::from([1u8; 1024]))
        .unwrap();
    let new_root = file_trie.get_root();
    assert_ne!(&old_root, new_root);

    let chunk = file_trie.get_chunk(&ChunkId::new(0u64)).unwrap();
    assert_eq!(chunk.as_slice(), [1u8; 1024]);
}

#[test]
fn in_memory_file_trie_get_chunk_works() {
    let mut file_trie = InMemoryFileDataTrie::new();

    let chunk = Chunk::from([3u8; 32]);
    let chunk_id = ChunkId::new(3);
    file_trie.write_chunk(&chunk_id, &chunk).unwrap();
    let chunk = file_trie.get_chunk(&chunk_id).unwrap();
    assert_eq!(chunk.as_slice(), [3u8; 32]);
}

#[test]
fn in_memory_file_trie_stored_chunks_count_works() {
    let chunk_ids = vec![ChunkId::new(0u64), ChunkId::new(1u64)];
    let chunks = vec![Chunk::from([0u8; 1024]), Chunk::from([1u8; 1024])];
    let mut file_trie = InMemoryFileDataTrie::new();

    file_trie.write_chunk(&chunk_ids[0], &chunks[0]).unwrap();
    assert_eq!(file_trie.stored_chunks_count().unwrap(), 1);
    assert!(file_trie.get_chunk(&chunk_ids[0]).is_ok());

    file_trie.write_chunk(&chunk_ids[1], &chunks[1]).unwrap();
    assert_eq!(file_trie.stored_chunks_count().unwrap(), 2);
    assert!(file_trie.get_chunk(&chunk_ids[1]).is_ok());
}

fn three_chunk_trie(chunk_ids: &Vec<ChunkId>, chunks: &Vec<Chunk>) -> InMemoryFileDataTrie {
    let mut file_trie = InMemoryFileDataTrie::new();

    file_trie.write_chunk(&chunk_ids[0], &chunks[0]).unwrap();
    assert_eq!(file_trie.stored_chunks_count().unwrap(), 1);
    assert!(file_trie.get_chunk(&chunk_ids[0]).is_ok());

    file_trie.write_chunk(&chunk_ids[1], &chunks[1]).unwrap();
    assert_eq!(file_trie.stored_chunks_count().unwrap(), 2);
    assert!(file_trie.get_chunk(&chunk_ids[1]).is_ok());

    file_trie.write_chunk(&chunk_ids[2], &chunks[2]).unwrap();
    assert_eq!(file_trie.stored_chunks_count().unwrap(), 3);
    assert!(file_trie.get_chunk(&chunk_ids[2]).is_ok());

    file_trie
}

#[test]
fn in_memory_file_trie_generate_proof_works() {
    let chunk_ids = vec![ChunkId::new(0u64), ChunkId::new(1u64), ChunkId::new(2u64)];

    let chunks = vec![
        Chunk::from([0u8; 1024]),
        Chunk::from([1u8; 1024]),
        Chunk::from([2u8; 1024]),
    ];

    let file_trie = three_chunk_trie(&chunk_ids, &chunks);

    let file_proof = file_trie.generate_proof(&chunk_ids).unwrap();

    assert_eq!(file_proof.fingerprint.as_hash(), *file_trie.get_root());
}

#[test]
fn in_memory_file_trie_delete_works() {
    let chunk_ids = vec![ChunkId::new(0u64), ChunkId::new(1u64), ChunkId::new(2u64)];

    let chunks = vec![
        Chunk::from([0u8; 1024]),
        Chunk::from([1u8; 1024]),
        Chunk::from([2u8; 1024]),
    ];

    let mut file_trie = three_chunk_trie(&chunk_ids, &chunks);

    file_trie.delete().unwrap();
    assert!(file_trie.get_chunk(&chunk_ids[0]).is_err());
    assert!(file_trie.get_chunk(&chunk_ids[1]).is_err());
    assert!(file_trie.get_chunk(&chunk_ids[2]).is_err());

    assert_eq!(file_trie.stored_chunks_count().unwrap(), 0);
}

#[test]
fn in_memory_file_storage_insert_file_works() {
    let chunks = vec![
        Chunk::from([5u8; 32]),
        Chunk::from([6u8; 32]),
        Chunk::from([7u8; 32]),
    ];

    let chunk_ids: Vec<ChunkId> = chunks
        .iter()
        .enumerate()
        .map(|(id, _)| ChunkId::new(id as u64))
        .collect();

    let file_trie = three_chunk_trie(&chunk_ids, &chunks);

    let file_metadata = FileMetadata {
        file_size: 32u64 * chunks.len() as u64,
        fingerprint: Fingerprint::new(*file_trie.get_root()),
        owner: zero_account(),
        location: "location".to_string().into_bytes(),
        bucket_id: [1u8; 32].to_vec(),
    };

    let key = file_metadata.file_key();
    let mut file_storage = InMemoryFileStorage::new();
    file_storage
        .insert_file_with_data(key, file_metadata, file_trie)
        .unwrap();

    assert!(file_storage.get_metadata(&key).is_ok());
    assert!(file_storage.get_chunk(&key, &chunk_ids[0]).is_ok());
    assert!(file_storage.get_chunk(&key, &chunk_ids[1]).is_ok());
    assert!(file_storage.get_chunk(&key, &chunk_ids[2]).is_ok());
}

#[test]
fn in_memory_file_storage_delete_file_works() {
    let chunks = vec![
        Chunk::from([5u8; 32]),
        Chunk::from([6u8; 32]),
        Chunk::from([7u8; 32]),
    ];

    let chunk_ids: Vec<ChunkId> = chunks
        .iter()
        .enumerate()
        .map(|(id, _)| ChunkId::new(id as u64))
        .collect();

    let file_trie = three_chunk_trie(&chunk_ids, &chunks);

    let file_metadata = FileMetadata {
        file_size: 32u64 * chunks.len() as u64,
        fingerprint: Fingerprint::new(*file_trie.get_root()),
        owner: zero_account(),
        location: "location".to_string().into_bytes(),
        bucket_id: [1u8; 32].to_vec(),
    };

    let key = file_metadata.file_key();
    let mut file_storage = InMemoryFileStorage::new();
    file_storage
        .insert_file_with_data(key, file_metadata, file_trie)
        .unwrap();
    assert!(file_storage.get_metadata(&key).is_ok());

    assert!(file_storage.delete_file(&key).is_ok());

    // Should get a None option here when trying to get File Metadata.
    assert!(file_storage
        .get_metadata(&key)
        .is_ok_and(|metadata| metadata.is_none()));
    assert!(file_storage.get_chunk(&key, &chunk_ids[0]).is_err());
    assert!(file_storage.get_chunk(&key, &chunk_ids[1]).is_err());
    assert!(file_storage.get_chunk(&key, &chunk_ids[2]).is_err());
}

#[test]
fn in_memory_file_storage_generate_proof_works() {
    let chunks = vec![
        Chunk::from([0u8; 1024]),
        Chunk::from([1u8; 1024]),
        Chunk::from([2u8; 1024]),
    ];

    let chunk_ids: Vec<ChunkId> = chunks
        .iter()
        .enumerate()
        .map(|(id, _)| ChunkId::new(id as u64))
        .collect();

    let file_trie = three_chunk_trie(&chunk_ids, &chunks);

    let file_metadata = FileMetadata {
        file_size: 1024u64 * chunks.len() as u64,
        fingerprint: Fingerprint::new(*file_trie.get_root()),
        owner: zero_account(),
        location: "location".to_string().into_bytes(),
        bucket_id: [1u8; 32].to_vec(),
    };

    let key = file_metadata.file_key();
    let mut file_storage = InMemoryFileStorage::new();

    file_storage
        .insert_file_with_data(key, file_metadata, file_trie)
        .unwrap();

    assert!(file_storage.get_metadata(&key).is_ok());

    let file_proof = file_storage.generate_proof(&key, &chunk_ids).unwrap();
    let proven_leaves = file_proof.proven().unwrap();
    for (id, leaf) in proven_leaves.iter().enumerate() {
        assert_eq!(chunk_ids[id], leaf.key);
        assert_eq!(chunks[id], leaf.data);
    }
}

#[test]
fn in_memory_delete_files_with_prefix_works() {
    fn create_file_data_trie(chunks: &Vec<Chunk>) -> InMemoryFileDataTrie {
        let chunk_ids: Vec<ChunkId> = chunks
            .iter()
            .enumerate()
            .map(|(id, _)| ChunkId::new(id as u64))
            .collect();

        let mut file_trie = InMemoryFileDataTrie::new();
        for (chunk_id, chunk) in chunk_ids.iter().zip(chunks) {
            file_trie.write_chunk(chunk_id, chunk).unwrap();
        }

        file_trie
    }

    fn create_file_metadata(
        file_trie: &InMemoryFileDataTrie,
        location: &str,
        bucket_id: [u8; 32],
    ) -> FileMetadata {
        FileMetadata {
            file_size: 1024u64 * 3,
            fingerprint: Fingerprint::new(*file_trie.get_root()),
            owner: [0u8; 32].to_vec(),
            location: location.to_string().into_bytes(),
            bucket_id: bucket_id.to_vec(),
        }
    }

    let chunks = vec![
        Chunk::from([0u8; 1024]),
        Chunk::from([1u8; 1024]),
        Chunk::from([2u8; 1024]),
    ];

    let file_trie_1 = create_file_data_trie(&chunks);
    let file_metadata_1 = create_file_metadata(&file_trie_1, "location_1", [1u8; 32]);
    let file_key_1 = file_metadata_1.file_key();

    let file_trie_2 = create_file_data_trie(&chunks);
    let file_metadata_2 = create_file_metadata(&file_trie_2, "location_2", [2u8; 32]);
    let file_key_2 = file_metadata_2.file_key();

    let mut file_storage = InMemoryFileStorage::new();

    file_storage
        .insert_file_with_data(file_key_1, file_metadata_1, file_trie_1)
        .unwrap();
    file_storage
        .insert_file_with_data(file_key_2, file_metadata_2, file_trie_2)
        .unwrap();

    assert!(file_storage.get_metadata(&file_key_1).is_ok());
    assert!(file_storage.get_metadata(&file_key_2).is_ok());

    let prefix = [1u8; 32].to_vec();
    file_storage
        .delete_files_with_prefix(prefix.as_slice().try_into().unwrap())
        .unwrap();

    assert!(file_storage
        .get_metadata(&file_key_1)
        .is_ok_and(|metadata| metadata.is_none()));
    assert!(file_storage
        .get_chunk(&file_key_1, &ChunkId::new(0u64))
        .is_err());
    assert!(file_storage
        .get_chunk(&file_key_1, &ChunkId::new(1u64))
        .is_err());
    assert!(file_storage
        .get_chunk(&file_key_1, &ChunkId::new(2u64))
        .is_err());

    assert!(file_storage.get_metadata(&file_key_2).is_ok());
    assert!(file_storage
        .get_chunk(&file_key_2, &ChunkId::new(0u64))
        .is_ok());
    assert!(file_storage
        .get_chunk(&file_key_2, &ChunkId::new(1u64))
        .is_ok());
    assert!(file_storage
        .get_chunk(&file_key_2, &ChunkId::new(2u64))
        .is_ok());
}
