//! The byte format of a trie leaf and of a file's metadata, and the digest
//! that turns metadata into a file key.
//!
//! Encoding and decoding are done by `parity-scale-codec`; this module states
//! what the bytes are and proves that a leaf's bytes name one chunk only.

use vstd::prelude::*;
use crate::bytes::{le_bytes, lemma_le_bytes_injective, lemma_le_bytes_len, lemma_u64_below_pow256, pow256, starts_with};

verus! {

/// The compact encoding of a collection's length.
pub open spec fn compact_len(n: nat) -> Seq<u8> {
    if n < 64 {
        le_bytes(4 * n, 1)
    } else if n < 16384 {
        le_bytes(4 * n + 1, 2)
    } else if n < 1073741824 {
        le_bytes(4 * n + 2, 4)
    } else {
        seq![3u8] + le_bytes(n, 4)
    }
}

/// The encoding of a byte string: its length in compact form, then the bytes.
pub open spec fn scale_bytes(data: Seq<u8>) -> Seq<u8> {
    compact_len(data.len()) + data
}

/// The bytes of a trie leaf: the chunk's index in eight bytes, least
/// significant first, then the encoded chunk.
pub open spec fn encoded_chunk(id: u64, data: Seq<u8>) -> Seq<u8> {
    le_bytes(id as nat, 8) + scale_bytes(data)
}

/// `bytes` begins with the leaf bytes of chunk `id` holding `data`.
pub open spec fn holds_chunk(bytes: Seq<u8>, id: u64, data: Seq<u8>) -> bool {
    data.len() <= u32::MAX && starts_with(bytes, encoded_chunk(id, data))
}

/// The chunk that the bytes of a leaf hold: its index and its bytes.
pub open spec fn leaf_chunk(leaf: Seq<u8>) -> (u64, Seq<u8>) {
    choose|chunk: (u64, Seq<u8>)| holds_chunk(leaf, chunk.0, chunk.1)
}

/// The bytes that are hashed into a file key: owner, bucket id, file size,
/// fingerprint and location, in this order.
pub open spec fn encoded_metadata(
    owner: Seq<u8>,
    bucket_id: Seq<u8>,
    file_size: u64,
    fingerprint: Seq<u8>,
    location: Seq<u8>,
) -> Seq<u8> {
    scale_bytes(owner) + scale_bytes(bucket_id) + le_bytes(file_size as nat, 8) + fingerprint
        + scale_bytes(location)
}

/// The BLAKE2b digest of 256 bits of `data`.
pub uninterp spec fn blake2_256_digest(data: Seq<u8>) -> Seq<u8>;

/// The JSON text in which a file's metadata is kept in the database.
pub uninterp spec fn json_of_metadata(
    owner: Seq<u8>,
    bucket_id: Seq<u8>,
    location: Seq<u8>,
    file_size: u64,
    fingerprint: Seq<u8>,
) -> Option<Seq<u8>>;

/// What a JSON text yields when read as a file's metadata: owner, bucket id,
/// location, file size and fingerprint.
pub uninterp spec fn metadata_of_json(text: Seq<u8>) -> Option<(Seq<u8>, Seq<u8>, Seq<u8>, u64, Seq<u8>)>;

pub proof fn lemma_compact_len_size(n: nat)
    ensures
        1 <= compact_len(n).len() <= 5,
        n < 64 ==> compact_len(n).len() == 1,
        64 <= n < 16384 ==> compact_len(n).len() == 2,
        16384 <= n < 1073741824 ==> compact_len(n).len() == 4,
        1073741824 <= n ==> compact_len(n).len() == 5,
{
    lemma_le_bytes_len(4 * n, 1);
    lemma_le_bytes_len(4 * n + 1, 2);
    lemma_le_bytes_len(4 * n + 2, 4);
    lemma_le_bytes_len(n, 4);
}

/// The first byte of a compact length tells which of the four forms it has.
proof fn lemma_compact_len_mode(n: nat)
    ensures
        n < 64 ==> compact_len(n)[0] % 4 == 0,
        64 <= n < 16384 ==> compact_len(n)[0] % 4 == 1,
        16384 <= n < 1073741824 ==> compact_len(n)[0] % 4 == 2,
        1073741824 <= n ==> compact_len(n)[0] % 4 == 3,
{
    reveal_with_fuel(le_bytes, 2);
    if n < 64 {
        assert(le_bytes(4 * n, 1)[0] == ((4 * n) % 256) as u8);
    } else if n < 16384 {
        assert(le_bytes(4 * n + 1, 2)[0] == ((4 * n + 1) % 256) as u8);
    } else if n < 1073741824 {
        assert(le_bytes(4 * n + 2, 4)[0] == ((4 * n + 2) % 256) as u8);
    } else {
        assert((seq![3u8] + le_bytes(n, 4))[0] == 3u8);
    }
}

/// No compact length is the beginning of another: two lengths whose compact
/// forms begin the same byte string are equal.
pub proof fn lemma_compact_len_prefix_free(a: nat, b: nat, bytes: Seq<u8>)
    requires
        a <= u32::MAX,
        b <= u32::MAX,
        starts_with(bytes, compact_len(a)),
        starts_with(bytes, compact_len(b)),
    ensures
        a == b,
{
    lemma_compact_len_size(a);
    lemma_compact_len_size(b);
    lemma_compact_len_mode(a);
    lemma_compact_len_mode(b);
    let ca = compact_len(a);
    let cb = compact_len(b);
    assert(ca[0] == bytes.subrange(0, ca.len() as int)[0]);
    assert(cb[0] == bytes.subrange(0, cb.len() as int)[0]);
    assert(ca.len() == cb.len());
    assert(ca == cb);
    reveal_with_fuel(pow256, 5);
    if a < 64 {
        lemma_le_bytes_injective(4 * a, 4 * b, 1);
    } else if a < 16384 {
        lemma_le_bytes_injective(4 * a + 1, 4 * b + 1, 2);
    } else if a < 1073741824 {
        lemma_le_bytes_injective(4 * a + 2, 4 * b + 2, 4);
    } else {
        let ta = le_bytes(a, 4);
        let tb = le_bytes(b, 4);
        assert((seq![3u8] + ta).subrange(1, 5) == ta) by {
            lemma_le_bytes_len(a, 4);
        }
        assert((seq![3u8] + tb).subrange(1, 5) == tb) by {
            lemma_le_bytes_len(b, 4);
        }
        lemma_le_bytes_injective(a, b, 4);
    }
}

/// A byte string begins with the leaf bytes of at most one chunk.
pub proof fn lemma_holds_chunk_unique(bytes: Seq<u8>, id1: u64, data1: Seq<u8>, id2: u64, data2: Seq<u8>)
    requires
        holds_chunk(bytes, id1, data1),
        holds_chunk(bytes, id2, data2),
    ensures
        id1 == id2,
        data1 == data2,
{
    let e1 = encoded_chunk(id1, data1);
    let e2 = encoded_chunk(id2, data2);
    lemma_le_bytes_len(id1 as nat, 8);
    lemma_le_bytes_len(id2 as nat, 8);
    lemma_compact_len_size(data1.len());
    lemma_compact_len_size(data2.len());
    assert(e1.subrange(0, 8) == le_bytes(id1 as nat, 8));
    assert(e2.subrange(0, 8) == le_bytes(id2 as nat, 8));
    assert(bytes.subrange(0, e1.len() as int).subrange(0, 8) == bytes.subrange(0, 8));
    assert(bytes.subrange(0, e2.len() as int).subrange(0, 8) == bytes.subrange(0, 8));
    lemma_u64_below_pow256(id1);
    lemma_u64_below_pow256(id2);
    lemma_le_bytes_injective(id1 as nat, id2 as nat, 8);

    let rest = bytes.subrange(8, bytes.len() as int);
    let c1 = compact_len(data1.len());
    let c2 = compact_len(data2.len());
    assert(rest.subrange(0, c1.len() as int) == c1) by {
        assert(rest.subrange(0, c1.len() as int) =~= bytes.subrange(0, e1.len() as int).subrange(
            8,
            8 + c1.len() as int,
        ));
        assert(e1.subrange(8, 8 + c1.len() as int) =~= c1);
    }
    assert(rest.subrange(0, c2.len() as int) == c2) by {
        assert(rest.subrange(0, c2.len() as int) =~= bytes.subrange(0, e2.len() as int).subrange(
            8,
            8 + c2.len() as int,
        ));
        assert(e2.subrange(8, 8 + c2.len() as int) =~= c2);
    }
    lemma_compact_len_prefix_free(data1.len(), data2.len(), rest);
    let from = 8 + c1.len();
    assert(data1 =~= e1.subrange(from as int, e1.len() as int));
    assert(data2 =~= e2.subrange(from as int, e2.len() as int));
    assert(e1 =~= bytes.subrange(0, e1.len() as int));
    assert(e2 =~= bytes.subrange(0, e2.len() as int));
}

/// The leaf bytes of a chunk are never empty.
pub proof fn lemma_encoded_chunk_len(id: u64, data: Seq<u8>)
    ensures
        encoded_chunk(id, data).len() >= 9,
        holds_chunk(encoded_chunk(id, data), id, data) <==> data.len() <= u32::MAX,
{
    lemma_le_bytes_len(id as nat, 8);
    lemma_compact_len_size(data.len());
    let e = encoded_chunk(id, data);
    assert(e.subrange(0, e.len() as int) =~= e);
}

/// The leaf that holds a chunk holds no other.
pub proof fn lemma_leaf_chunk(id: u64, data: Seq<u8>)
    requires
        data.len() <= u32::MAX,
    ensures
        leaf_chunk(encoded_chunk(id, data)) == (id, data),
{
    let leaf = encoded_chunk(id, data);
    lemma_encoded_chunk_len(id, data);
    assert(holds_chunk(leaf, (id, data).0, (id, data).1));
    let found = leaf_chunk(leaf);
    lemma_holds_chunk_unique(leaf, id, data, found.0, found.1);
}

/// Calls `Encode::encode` of `parity-scale-codec` on the pair of a chunk's
/// index and its bytes. The codec writes the index as eight bytes, least
/// significant first, then the length of the bytes in compact form, then the
/// bytes. It panics on more than `u32::MAX` bytes.
#[verifier::external_body]
pub(crate) fn scale_encode_chunk(id: u64, data: &Vec<u8>) -> (bytes: Vec<u8>)
    requires
        data@.len() <= u32::MAX,
    ensures
        bytes@ == encoded_chunk(id, data@),
{
    parity_scale_codec::Encode::encode(&(id, data))
}

/// Calls `Decode::decode` of `parity-scale-codec` for the pair of a chunk's
/// index and its bytes. The codec reads what `scale_encode_chunk` writes,
/// accepts a length in its shortest compact form only, fails where the input
/// ends early, and ignores what follows the pair.
#[verifier::external_body]
pub(crate) fn scale_decode_chunk(bytes: &[u8]) -> (pair: Option<(u64, Vec<u8>)>)
    ensures
        match pair {
            Some((id, data)) => holds_chunk(bytes@, id, data@),
            None => forall|id: u64, data: Seq<u8>| !holds_chunk(bytes@, id, data),
        },
{
    let mut input: &[u8] = bytes;
    <(u64, Vec<u8>) as parity_scale_codec::Decode>::decode(&mut input).ok()
}

/// Calls `Encode::encode` of `parity-scale-codec` on the five fields of a
/// file's metadata, taken as a tuple. Byte strings are written as in a leaf,
/// the file size as eight bytes, least significant first, and the 32 bytes of
/// the fingerprint as they are. It panics on a byte string of more than
/// `u32::MAX` bytes.
#[verifier::external_body]
pub(crate) fn scale_encode_metadata(
    owner: &Vec<u8>,
    bucket_id: &Vec<u8>,
    file_size: u64,
    fingerprint: &[u8; 32],
    location: &Vec<u8>,
) -> (bytes: Vec<u8>)
    requires
        owner@.len() <= u32::MAX,
        bucket_id@.len() <= u32::MAX,
        location@.len() <= u32::MAX,
    ensures
        bytes@ == encoded_metadata(owner@, bucket_id@, file_size, fingerprint@, location@),
{
    parity_scale_codec::Encode::encode(&(owner, bucket_id, file_size, fingerprint, location))
}

/// Calls `sp_core::hashing::blake2_256`, which returns the 32 bytes of the
/// BLAKE2b digest of its input.
#[verifier::external_body]
pub(crate) fn blake2_256(data: &[u8]) -> (digest: [u8; 32])
    ensures
        digest@ == blake2_256_digest(data@),
{
    sp_core::hashing::blake2_256(data)
}

/// Calls `serde_json::to_vec` on the five fields of a file's metadata, taken
/// as a tuple.
#[verifier::external_body]
pub(crate) fn metadata_to_json(
    owner: &Vec<u8>,
    bucket_id: &Vec<u8>,
    location: &Vec<u8>,
    file_size: u64,
    fingerprint: &[u8; 32],
) -> (text: Option<Vec<u8>>)
    ensures
        text.is_some() == json_of_metadata(owner@, bucket_id@, location@, file_size, fingerprint@).is_some(),
        text matches Some(t) ==> json_of_metadata(owner@, bucket_id@, location@, file_size, fingerprint@) == Some(t@),
{
    serde_json::to_vec(&(owner, bucket_id, location, file_size, fingerprint.to_vec())).ok()
}

/// Calls `serde_json::from_slice` for the five fields of a file's metadata,
/// taken as a tuple.
#[verifier::external_body]
pub(crate) fn metadata_from_json(text: &[u8]) -> (fields: Option<(Vec<u8>, Vec<u8>, Vec<u8>, u64, Vec<u8>)>)
    ensures
        fields.is_some() == metadata_of_json(text@).is_some(),
        fields matches Some(f) ==> metadata_of_json(text@) == Some((f.0@, f.1@, f.2@, f.3, f.4@)),
{
    serde_json::from_slice::<(Vec<u8>, Vec<u8>, Vec<u8>, u64, Vec<u8>)>(text).ok()
}

} // verus!
