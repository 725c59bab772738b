//! What holds of every file and every registry, stated over the chunks of a
//! file and the files of a registry as mathematical maps.

use vstd::prelude::*;
use crate::in_memory::{
    all_stored, chunk_read, chunks_after_write, is_complete, outcome_of_write, proof_refusal, without_bucket,
    StoredFile,
};
use crate::codec::{encoded_chunk, lemma_encoded_chunk_len, lemma_leaf_chunk};
use crate::types::{
    chunk_of_lookup, chunks_needed, is_leaf, ChunkId, FileMetadataView, FileStorageError, FileStorageWriteError,
    FileStorageWriteOutcome,
};

verus! {

/// The chunks of a file after a series of writes to a file without chunks.
/// A write that is refused leaves the chunks as they were.
pub open spec fn chunks_written(writes: Seq<(u64, Seq<u8>)>) -> Map<u64, Seq<u8>>
    decreases writes.len(),
{
    if writes.len() == 0 {
        Map::empty()
    } else {
        let before = chunks_written(writes.drop_last());
        match chunks_after_write(before, writes.last().0, writes.last().1) {
            Ok(after) => after,
            Err(_) => before,
        }
    }
}

/// No index occurs twice among the writes.
pub open spec fn distinct_indices(writes: Seq<(u64, Seq<u8>)>) -> bool {
    forall|i: int, j: int| 0 <= i < j < writes.len() ==> writes[i].0 != writes[j].0
}

/// A chunk that was written is read back unchanged.
pub proof fn law_write_then_read(chunks: Map<u64, Seq<u8>>, id: u64, data: Seq<u8>)
    requires
        !chunks.contains_key(id),
    ensures
        chunks_after_write(chunks, id, data) matches Ok(after) && chunk_read(after, id) == Ok::<
            Seq<u8>,
            FileStorageError,
        >(data),
{
}

/// A chunk is written once: a second write of the same index is refused,
/// whatever the bytes, and the first bytes stay.
pub proof fn law_second_write_is_refused(chunks: Map<u64, Seq<u8>>, id: u64, first: Seq<u8>, second: Seq<u8>)
    requires
        !chunks.contains_key(id),
    ensures
        chunks_after_write(chunks, id, first) matches Ok(after) && chunks_after_write(after, id, second) == Err::<
            Map<u64, Seq<u8>>,
            FileStorageWriteError,
        >(FileStorageWriteError::FileChunkAlreadyExists),
{
}

/// A write of a new chunk leaves every other chunk as it was.
pub proof fn law_write_keeps_other_chunks(chunks: Map<u64, Seq<u8>>, id: u64, data: Seq<u8>, other: u64)
    requires
        !chunks.contains_key(id),
        other != id,
    ensures
        chunks_after_write(chunks, id, data) matches Ok(after) && chunk_read(after, other) == chunk_read(
            chunks,
            other,
        ),
{
}

/// Each write of a new chunk adds one to the number of chunks.
pub proof fn law_write_adds_one_chunk(chunks: Map<u64, Seq<u8>>, id: u64, data: Seq<u8>)
    requires
        chunks.dom().finite(),
        !chunks.contains_key(id),
    ensures
        chunks_after_write(chunks, id, data) matches Ok(after) && after.dom().finite() && after.dom().len()
            == chunks.dom().len() + 1,
{
}

/// After writes of distinct chunks to a file without chunks, the file has
/// as many chunks as there were writes, and each is read back unchanged.
pub proof fn law_distinct_writes_are_counted(writes: Seq<(u64, Seq<u8>)>)
    requires
        distinct_indices(writes),
    ensures
        chunks_written(writes).dom().finite(),
        chunks_written(writes).dom().len() == writes.len(),
        forall|i: int|
            0 <= i < writes.len() ==> chunk_read(chunks_written(writes), #[trigger] writes[i].0) == Ok::<
                Seq<u8>,
                FileStorageError,
            >(writes[i].1),
        forall|id: u64|
            chunks_written(writes).contains_key(id) ==> exists|i: int| 0 <= i < writes.len() && writes[i].0 == id,
    decreases writes.len(),
{
    if writes.len() > 0 {
        let earlier = writes.drop_last();
        let before = chunks_written(earlier);
        law_distinct_writes_are_counted(earlier);
        let last = writes.last();
        if before.contains_key(last.0) {
            let i = choose|i: int| 0 <= i < earlier.len() && earlier[i].0 == last.0;
            assert(writes[i].0 == writes[writes.len() - 1].0);
        }
        let after = chunks_written(writes);
        assert(after == before.insert(last.0, last.1));
        assert forall|i: int| 0 <= i < writes.len() implies chunk_read(after, #[trigger] writes[i].0) == Ok::<
            Seq<u8>,
            FileStorageError,
        >(writes[i].1) by {
            if i < earlier.len() {
                assert(earlier[i] == writes[i]);
                assert(chunk_read(before, earlier[i].0) == Ok::<Seq<u8>, FileStorageError>(earlier[i].1));
            }
        }
        assert forall|id: u64| after.contains_key(id) implies exists|i: int|
            0 <= i < writes.len() && writes[i].0 == id by {
            if id == last.0 {
                assert(writes[writes.len() - 1].0 == id);
            } else {
                let i = choose|i: int| 0 <= i < earlier.len() && earlier[i].0 == id;
                assert(writes[i].0 == id);
            }
        }
    }
}

/// A file without chunks has none to read.
pub proof fn law_no_chunk_without_writes(id: u64)
    ensures
        Map::<u64, Seq<u8>>::empty().dom().len() == 0,
        chunk_read(Map::<u64, Seq<u8>>::empty(), id) == Err::<Seq<u8>, FileStorageError>(
            FileStorageError::FileChunkDoesNotExist,
        ),
{
}

/// Of the writes of distinct chunks to a new file, the one that brings the
/// number of chunks to what the file's size asks for reports the file
/// complete, if the root is then the fingerprint; every earlier one reports
/// it incomplete. Where root and fingerprint differ at that point, the file
/// is not complete, and a proof is refused for the mismatch.
pub proof fn law_complete_exactly_on_last_write(
    metadata: FileMetadataView,
    writes: Seq<(u64, Seq<u8>)>,
    root: Seq<u8>,
    ids: Seq<ChunkId>,
)
    requires
        distinct_indices(writes),
        writes.len() <= chunks_needed(metadata.file_size),
    ensures
        ({
            let file = StoredFile { metadata, chunks: chunks_written(writes), root };
            let last = writes.len() == chunks_needed(metadata.file_size);
            &&& !last ==> outcome_of_write(file) == FileStorageWriteOutcome::FileIncomplete
            &&& !last ==> proof_refusal(file, ids) == Some(FileStorageError::IncompleteFile)
            &&& last && root == metadata.fingerprint ==> is_complete(file) && outcome_of_write(file)
                == FileStorageWriteOutcome::FileComplete
            &&& last && root != metadata.fingerprint ==> outcome_of_write(file)
                == FileStorageWriteOutcome::FileIncomplete
            &&& last && root != metadata.fingerprint ==> proof_refusal(file, ids) == Some(
                FileStorageError::FingerprintAndStoredFileMismatch,
            )
        }),
{
    law_distinct_writes_are_counted(writes);
}

/// A lookup that finds the leaf that the write of a chunk puts into a trie
/// gives the reader the bytes of that chunk, unchanged.
pub proof fn law_written_leaf_reads_back(id: u64, data: Seq<u8>, leaf: Vec<u8>)
    requires
        data.len() <= u32::MAX,
        leaf@ == encoded_chunk(id, data),
    ensures
        chunk_of_lookup(Ok(Some(leaf))) == Ok::<Seq<u8>, FileStorageError>(data),
{
    lemma_encoded_chunk_len(id, data);
    lemma_leaf_chunk(id, data);
    assert(is_leaf(leaf@));
}

/// A proof is made only of chunks that were all written, of a complete file.
pub proof fn law_proof_needs_complete_file(file: StoredFile, ids: Seq<ChunkId>)
    ensures
        proof_refusal(file, ids).is_none() <==> is_complete(file) && all_stored(file.chunks, ids),
{
}

/// Removing a bucket removes the files of that bucket and no other: every
/// other file stays, with its metadata, its root and all its chunks.
pub proof fn law_bucket_removal(files: Map<Seq<u8>, StoredFile>, bucket_id: Seq<u8>, key: Seq<u8>, id: u64)
    requires
        files.contains_key(key),
    ensures
        files[key].metadata.bucket_id == bucket_id ==> !without_bucket(files, bucket_id).contains_key(key),
        files[key].metadata.bucket_id != bucket_id ==> without_bucket(files, bucket_id).contains_key(key)
            && without_bucket(files, bucket_id)[key] == files[key] && chunk_read(
            without_bucket(files, bucket_id)[key].chunks,
            id,
        ) == chunk_read(files[key].chunks, id),
{
}

} // verus!
