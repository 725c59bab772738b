//! The key-value database that keeps files durably, and the batches of
//! changes that are written to it.
//!
//! The database is any `KeyValueDB` of `kvdb`. It is shared: every handle
//! reads what any other handle wrote, so nothing is known here of what a
//! read returns.

use std::sync::Arc;
use vstd::prelude::*;
use crate::bytes::starts_with;
use crate::constants::CHUNKS_COLUMN;
use crate::types::FileStorageError;

verus! {

#[verifier::external_type_specification]
#[verifier::external_body]
pub struct ExDBTransaction(kvdb::DBTransaction);

#[verifier::external_type_specification]
#[verifier::external_body]
pub struct ExH256(sp_core::H256);

#[verifier::external_type_specification]
#[verifier::external_body]
pub struct ExBlake2Hasher(sp_core::Blake2Hasher);

/// One change of a batch: the column, the key, and the value to put there,
/// or no value where the key is to be deleted.
pub type BatchOp = (u32, Seq<u8>, Option<Seq<u8>>);

/// The changes of a batch, in the order in which they will be applied.
pub uninterp spec fn transaction_ops(transaction: kvdb::DBTransaction) -> Seq<(u32, Seq<u8>, Option<Seq<u8>>)>;

/// Calls `DBTransaction::new`, which returns a batch without changes.
#[verifier::external_body]
pub(crate) fn new_batch() -> (transaction: kvdb::DBTransaction)
    ensures
        transaction_ops(transaction) == Seq::<BatchOp>::empty(),
{
    kvdb::DBTransaction::new()
}

/// Calls `DBTransaction::put`, which adds the change that puts `value`
/// under `key` in column `col`.
#[verifier::external_body]
pub(crate) fn batch_put(transaction: &mut kvdb::DBTransaction, col: u32, key: &[u8], value: &[u8])
    ensures
        transaction_ops(*final(transaction)) == transaction_ops(*old(transaction)).push((col, key@, Some(value@))),
{
    transaction.put(col, key, value)
}

/// Calls `DBTransaction::delete`, which adds the change that deletes `key`
/// from column `col`.
#[verifier::external_body]
pub(crate) fn batch_delete(transaction: &mut kvdb::DBTransaction, col: u32, key: &[u8])
    ensures
        transaction_ops(*final(transaction)) == transaction_ops(*old(transaction)).push((col, key@, None)),
{
    transaction.delete(col, key)
}

/// The key under which the node with hash `hash` at `prefix` stands in the
/// database: the bytes of the prefix, its last half byte if there is one,
/// and the hash.
pub open spec fn node_key(hash: Seq<u8>, prefix: Seq<u8>, padding: Option<u8>) -> Seq<u8> {
    match padding {
        Some(last) => prefix.push(last) + hash,
        None => prefix + hash,
    }
}

/// The bytes of a hash.
pub uninterp spec fn hash_bytes(hash: sp_core::H256) -> Seq<u8>;

/// Calls `H256::to_fixed_bytes`, which hands out the 32 bytes of the hash.
#[verifier::external_body]
pub(crate) fn hash_to_bytes(hash: &sp_core::H256) -> (bytes: [u8; 32])
    ensures
        bytes@ == hash_bytes(*hash),
{
    hash.to_fixed_bytes()
}

/// Calls `sp_trie::prefixed_key`, which joins the bytes of the prefix, its
/// last half byte if there is one, and the hash.
#[verifier::external_body]
pub(crate) fn prefixed_node_key(hash: &sp_core::H256, prefix: (&[u8], Option<u8>)) -> (key: Vec<u8>)
    ensures
        key@ == node_key(hash_bytes(*hash), prefix.0@, prefix.1),
{
    sp_trie::prefixed_key::<sp_core::Blake2Hasher>(hash, prefix)
}

/// The keys that a list of items holds before its first failure, in order.
pub open spec fn listed_keys(items: Seq<Option<Seq<u8>>>) -> Seq<Seq<u8>>
    decreases items.len(),
{
    if items.len() == 0 {
        Seq::empty()
    } else {
        match items[0] {
            None => Seq::empty(),
            Some(key) => seq![key] + listed_keys(items.subrange(1, items.len() as int)),
        }
    }
}

/// The keys before the first failure are the first items of the list, one
/// for one.
pub proof fn lemma_listed_keys(items: Seq<Option<Seq<u8>>>)
    ensures
        listed_keys(items).len() <= items.len(),
        forall|i: int| 0 <= i < listed_keys(items).len() ==> items[i] == Some(#[trigger] listed_keys(items)[i]),
        listed_keys(items).len() < items.len() ==> items[listed_keys(items).len() as int] is None,
    decreases items.len(),
{
    if items.len() > 0 {
        if let Some(key) = items[0] {
            let rest = items.subrange(1, items.len() as int);
            lemma_listed_keys(rest);
            assert forall|i: int| 0 <= i < listed_keys(items).len() implies items[i] == Some(
                #[trigger] listed_keys(items)[i],
            ) by {
                if i > 0 {
                    assert(listed_keys(items)[i] == listed_keys(rest)[i - 1]);
                    assert(rest[i - 1] == items[i]);
                }
            }
            if listed_keys(items).len() < items.len() {
                assert(rest[listed_keys(rest).len() as int] == items[listed_keys(items).len() as int]);
            }
        }
    }
}

/// Keys as sequences of bytes.
pub open spec fn key_views(keys: Seq<Vec<u8>>) -> Seq<Seq<u8>> {
    Seq::new(keys.len(), |i: int| keys[i]@)
}

/// Items with their keys as sequences of bytes.
pub open spec fn item_views(items: Seq<Option<Vec<u8>>>) -> Seq<Option<Seq<u8>>> {
    Seq::new(
        items.len(),
        |i: int|
            match items[i] {
                Some(key) => Some(key@),
                None => None,
            },
    )
}

/// The keys of a list of items, up to the end of the list or its first
/// failure.
pub fn keys_until_failure(items: &Vec<Option<Vec<u8>>>) -> (keys: Vec<Vec<u8>>)
    ensures
        key_views(keys@) == listed_keys(item_views(items@)),
{
    let mut keys: Vec<Vec<u8>> = Vec::new();
    let mut failed = false;
    let mut i: usize = 0;
    let ghost all = item_views(items@);
    proof {
        assert(all.subrange(0, all.len() as int) =~= all);
        assert(key_views(keys@) + listed_keys(all) =~= listed_keys(all));
    }
    while i < items.len() && !failed
        invariant
            i <= items.len(),
            all == item_views(items@),
            !failed ==> listed_keys(all) == key_views(keys@) + listed_keys(all.subrange(i as int, all.len() as int)),
            failed ==> listed_keys(all) == key_views(keys@),
        decreases items.len() - i, if failed { 0int } else { 1int },
    {
        let ghost rest = all.subrange(i as int, all.len() as int);
        let ghost before = key_views(keys@);
        proof {
            assert(rest.subrange(1, rest.len() as int) =~= all.subrange(i + 1, all.len() as int));
        }
        match &items[i] {
            Some(key) => {
                keys.push(key.clone());
                proof {
                    let after = listed_keys(all.subrange(i + 1, all.len() as int));
                    assert(rest[0] == Some(key@));
                    assert(key_views(keys@) =~= before.push(key@));
                    assert(before.push(key@) + after =~= before + (seq![key@] + after));
                }
            },
            None => {
                failed = true;
                proof {
                    assert(rest[0] is None);
                    assert(before + Seq::<Seq<u8>>::empty() =~= before);
                }
            },
        }
        i += 1;
    }
    proof {
        if !failed {
            assert(key_views(keys@) + Seq::<Seq<u8>>::empty() =~= key_views(keys@));
        }
    }
    keys
}

/// A handle of the database.
pub struct StorageDb<DB> {
    pub db: Arc<DB>,
}

impl<DB> Clone for StorageDb<DB> {
    fn clone(&self) -> (handle: Self)
        ensures
            handle == *self,
    {
        StorageDb { db: self.db.clone() }
    }
}

impl<DB: kvdb::KeyValueDB> StorageDb<DB> {
    /// Calls `KeyValueDB::write`, which applies the batch as a whole or fails.
    #[verifier::external_body]
    pub(crate) fn write(&self, transaction: kvdb::DBTransaction) -> (written: Result<(), FileStorageError>)
        ensures
            written matches Err(e) ==> e == FileStorageError::FailedToWriteToStorage,
    {
        self.db.write(transaction).map_err(|_| FileStorageError::FailedToWriteToStorage)
    }

    /// Calls `KeyValueDB::get`, which returns the value under `key` in
    /// `column`, if there is one, or fails.
    #[verifier::external_body]
    pub(crate) fn read(&self, column: u32, key: &[u8]) -> (value: Result<Option<Vec<u8>>, FileStorageError>)
        ensures
            value matches Err(e) ==> e == FileStorageError::FailedToReadStorage,
    {
        self.db.get(column, key).map_err(|_| FileStorageError::FailedToReadStorage)
    }

    /// Calls `KeyValueDB::iter_with_prefix` and hands out what it yields,
    /// item by item: the key of an item, or nothing where the item is a
    /// failure. The database yields keys of `column` that begin with
    /// `prefix`.
    #[verifier::external_body]
    pub(crate) fn items_with_prefix(&self, column: u32, prefix: &[u8]) -> (items: Vec<Option<Vec<u8>>>)
        ensures
            forall|i: int|
                0 <= i < items@.len() ==> (#[trigger] items@[i] matches Some(key) ==> starts_with(key@, prefix@)),
    {
        self.db.iter_with_prefix(column, prefix).map(|item| item.ok().map(|(key, _)| key.to_vec())).collect()
    }

    /// The keys of `column` that begin with `prefix`, as the database lists
    /// them, up to the end of the list or its first failure: what
    /// `listed_keys` makes of the items that the database yields.
    pub fn keys_with_prefix(&self, column: u32, prefix: &[u8]) -> (keys: Vec<Vec<u8>>)
        ensures
            forall|i: int| 0 <= i < keys@.len() ==> starts_with(#[trigger] keys@[i]@, prefix@),
            exists|items: Seq<Option<Vec<u8>>>| key_views(keys@) == listed_keys(#[trigger] item_views(items)),
    {
        let items = self.items_with_prefix(column, prefix);
        let keys = keys_until_failure(&items);
        assert(key_views(keys@) == listed_keys(item_views(items@)));
        proof {
            lemma_listed_keys(item_views(items@));
            assert forall|i: int| 0 <= i < keys@.len() implies starts_with(#[trigger] keys@[i]@, prefix@) by {
                assert(key_views(keys@)[i] == keys@[i]@);
                assert(item_views(items@)[i] == Some(keys@[i]@));
                assert(items@[i] is Some);
            }
        }
        keys
    }

    /// The node with hash `key` at `prefix`, as the database has it.
    pub fn get(&self, key: &sp_core::H256, prefix: (&[u8], Option<u8>)) -> (node: Result<Option<Vec<u8>>, FileStorageError>)
        ensures
            node matches Err(e) ==> e == FileStorageError::FailedToReadStorage,
    {
        let prefixed_key = prefixed_node_key(key, prefix);
        self.read(CHUNKS_COLUMN, prefixed_key.as_slice())
    }
}

} // verus!
