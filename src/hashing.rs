use vstd::prelude::*;

verus! {

/// The leaf address of a key in an authenticated tree.
pub uninterp spec fn key_hash_of(key: Seq<u8>) -> Seq<u8>;

/// Relies on jmt::KeyHash::with::<sha2::Sha256>: the key's leaf address, the
/// SHA-256 digest of the key, which depends on the key alone.
#[verifier::external_body]
fn jmt_key_hash(key: &[u8]) -> (r: [u8; 32])
    ensures
        r@ == key_hash_of(key@),
{
    jmt::KeyHash::with::<sha2::Sha256>(key).0
}

/// The address of a key's leaf in an authenticated tree: the SHA-256 digest
/// of the key.
pub struct KeyHash(pub [u8; 32]);

impl KeyHash {
    pub open spec fn view(&self) -> Seq<u8> {
        self.0@
    }
}

/// Hashes `key` to its leaf address.
pub fn key_hash(key: &[u8]) -> (r: KeyHash)
    ensures
        r@ == key_hash_of(key@),
{
    KeyHash(jmt_key_hash(key))
}

/// The digest that summarizes one sub-store at one version.
pub struct RootHash(pub [u8; 32]);

/// Thirty-two zero bytes.
pub open spec fn zero_digest() -> Seq<u8> {
    Seq::new(32, |i: int| 0u8)
}

impl RootHash {
    pub open spec fn view(&self) -> Seq<u8> {
        self.0@
    }

    /// The all-zero digest, the root of a store that holds nothing.
    pub fn zero() -> (r: RootHash)
        ensures
            r@ == zero_digest(),
    {
        let r = RootHash([0u8; 32]);
        assert(r@ =~= zero_digest());
        r
    }

    /// A copy of this digest.
    pub fn duplicate(&self) -> (r: RootHash)
        ensures
            r@ == self@,
    {
        RootHash(self.0)
    }

    /// The digest as a byte vector.
    pub fn to_vec(&self) -> (r: Vec<u8>)
        ensures
            r@ == self@,
    {
        vstd::slice::slice_to_vec(self.0.as_slice())
    }
}

} // verus!
