use vstd::prelude::*;

use jmt::mock::MockTreeStore;
use jmt::{KeyHash, Sha256Jmt};
use prost::Message;
use sha2::Sha256;

use crate::column::{opt_bytes, sorted, Column};

verus! {

/// The protobuf encoding of the ICS23 proof, existence or non-existence,
/// that a Jellyfish Merkle tree holding the pairs `tree` (key hash to value)
/// gives for `key`, `index` supplying the preimages of key hashes; `None`
/// where the tree cannot give one.
pub uninterp spec fn tree_proof_of(tree: Seq<(Seq<u8>, Seq<u8>)>, index: Seq<(Seq<u8>, Seq<u8>)>, key: Seq<u8>) -> Option<Seq<u8>>;

/// Every key of `tree` is 32 bytes long, the length of a key hash.
pub open spec fn hashed_keys(tree: Seq<(Seq<u8>, Seq<u8>)>) -> bool {
    forall|i: int| 0 <= i < tree.len() ==> (#[trigger] tree[i]).0.len() == 32
}

/// The root of a Jellyfish Merkle tree holding the pairs `tree` (key hash to
/// value).
pub uninterp spec fn tree_root_of(tree: Seq<(Seq<u8>, Seq<u8>)>) -> Seq<u8>;

/// Relies on jmt's Sha256Jmt::get_with_ics23_proof, on a MockTreeStore that
/// holds `tree` at version 0 and the preimages of `index`: the encoded proof
/// for `key`, which depends on these arguments alone; `None` where jmt fails.
#[verifier::external_body]
pub(crate) fn jmt_proof(tree: &Column, index: &Column, key: &[u8]) -> (r: Option<Vec<u8>>)
    ensures
        opt_bytes(r) == tree_proof_of(tree@, index@, key@),
{
    let store = MockTreeStore::default();
    index.entries.iter().for_each(|e| store.put_key_preimage(KeyHash::with::<Sha256>(&e.key), &e.key));
    let values: Option<Vec<_>> =
        tree.entries.iter().map(|e| Some((KeyHash(e.key.as_slice().try_into().ok()?), Some(e.value.clone())))).collect();
    let (_, batch) = Sha256Jmt::new(&store).put_value_set(values?, 0).ok()?;
    store.write_tree_update_batch(batch).ok()?;
    let (_, proof) = Sha256Jmt::new(&store).get_with_ics23_proof(key.to_vec(), 0).ok()?;
    Some(proof.encode_to_vec())
}

/// Relies on jmt's Sha256Jmt::get_root_hash, on a MockTreeStore that holds
/// `tree` at version 0: the tree's root, which depends on `tree` alone. On a
/// fresh store, distinct 32-byte key hashes are inserted and the root found
/// without error.
#[verifier::external_body]
pub(crate) fn jmt_root(tree: &Column) -> (r: Option<[u8; 32]>)
    ensures
        r matches Some(h) ==> h@ == tree_root_of(tree@),
        sorted(tree@) && hashed_keys(tree@) ==> r is Some,
{
    let store = MockTreeStore::default();
    let values: Option<Vec<_>> =
        tree.entries.iter().map(|e| Some((KeyHash(e.key.as_slice().try_into().ok()?), Some(e.value.clone())))).collect();
    let (_, batch) = Sha256Jmt::new(&store).put_value_set(values?, 0).ok()?;
    store.write_tree_update_batch(batch).ok()?;
    Sha256Jmt::new(&store).get_root_hash(0).ok().map(|h| h.0)
}

/// Whether every key of `c` is 32 bytes long.
pub fn has_hashed_keys(c: &Column) -> (r: bool)
    ensures
        r == hashed_keys(c@),
{
    let mut i: usize = 0;
    while i < c.entries.len()
        invariant
            i <= c@.len(),
            forall|j: int| 0 <= j < i ==> (#[trigger] c@[j]).0.len() == 32,
        decreases c@.len() - i,
    {
        assert(c@[i as int].0 == c.entries@[i as int].key@);
        if c.entries[i].key.len() != 32 {
            return false;
        }
        i += 1;
    }
    true
}

} // verus!
