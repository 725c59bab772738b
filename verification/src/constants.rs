//! Sizes and database columns shared by the whole crate.

use vstd::prelude::*;

verus! {

/// The size of a hash output in bytes.
pub const H_LENGTH: usize = 32;

/// The size of a file chunk in bytes: each leaf of a file's trie holds at most
/// this many bytes of the file.
pub const FILE_CHUNK_SIZE: u64 = 1024;

/// Column that maps a file key to the file's metadata.
pub const METADATA_COLUMN: u32 = 0;

/// Column that maps a file's final root to the root its trie has right now.
pub const ROOTS_COLUMN: u32 = 1;

/// Column that holds the trie nodes of all files.
pub const CHUNKS_COLUMN: u32 = 2;

/// Column that holds one key per file: the bucket id followed by the file key.
pub const BUCKET_PREFIX_COLUMN: u32 = 3;

/// The root of a trie without leaves, as a sequence of bytes.
pub open spec fn empty_trie_root() -> Seq<u8> {
    seq![
        3u8, 23, 10, 46, 117, 151, 183, 183, 227, 216, 76, 5, 57, 29, 19, 154,
        98, 177, 87, 231, 135, 134, 216, 192, 130, 242, 157, 207, 76, 17, 19, 20,
    ]
}

/// The root of a trie without leaves.
pub fn empty_root() -> (root: [u8; 32])
    ensures
        root@ == empty_trie_root(),
{
    let root: [u8; 32] = [
        3, 23, 10, 46, 117, 151, 183, 183, 227, 216, 76, 5, 57, 29, 19, 154,
        98, 177, 87, 231, 135, 134, 216, 192, 130, 242, 157, 207, 76, 17, 19, 20,
    ];
    assert(root@ =~= empty_trie_root());
    root
}

} // verus!
