use vstd::prelude::*;

verus! {

pub const PAYLOAD_KEY_LEN_BYTES: usize = 32;
pub const OVK_WRAPPED_LEN_BYTES: usize = 48;
pub const MEMOKEY_WRAPPED_LEN_BYTES: usize = 48;

/// The item a payload key encrypts; each kind has its own nonce.
#[derive(Debug, Clone, Copy, PartialEq, Eq, Structural)]
pub enum PayloadKind {
    /// Note is action-scoped.
    Note,
    /// MemoKey is action-scoped.
    MemoKey,
    /// Swap is action-scoped.
    Swap,
    /// Memo is transaction-scoped.
    Memo,
}

/// The tag byte that opens the nonce of each kind.
pub open spec fn kind_tag(kind: PayloadKind) -> u8 {
    match kind {
        PayloadKind::Note => 0,
        PayloadKind::MemoKey => 1,
        PayloadKind::Swap => 2,
        PayloadKind::Memo => 3,
    }
}

impl PayloadKind {
    /// The 12-byte nonce of this kind: its tag byte, then eleven zeros.
    pub fn nonce(&self) -> (r: [u8; 12])
        ensures
            r@ == Seq::new(12, |i: int| if i == 0 { kind_tag(*self) } else { 0u8 }),
    {
        let r = match self {
            Self::Note => [0, 0, 0, 0, 0, 0, 0, 0, 0, 0, 0, 0],
            Self::MemoKey => [1, 0, 0, 0, 0, 0, 0, 0, 0, 0, 0, 0],
            Self::Swap => [2, 0, 0, 0, 0, 0, 0, 0, 0, 0, 0, 0],
            Self::Memo => [3, 0, 0, 0, 0, 0, 0, 0, 0, 0, 0, 0],
        };
        assert(r@ =~= Seq::new(12, |i: int| if i == 0 { kind_tag(*self) } else { 0u8 }));
        r
    }
}

/// Why bytes do not make a wrapped key.
#[derive(Debug, Clone, Copy, PartialEq, Eq, Structural)]
pub enum KeyError {
    /// The bytes are not exactly the wrapped key's length.
    Malformed,
}

/// The array holding the bytes `s`.
pub open spec fn array48_of(s: Seq<u8>) -> [u8; 48] {
    choose|a: [u8; 48]| a@ == s
}

/// The 48 bytes of `v` as an array; `None` for another length.
fn to_array48(v: &[u8]) -> (r: Option<[u8; 48]>)
    ensures
        r is Some <==> v@.len() == 48,
        r matches Some(a) ==> a == array48_of(v@) && a@ == v@,
{
    if v.len() != 48 {
        return None;
    }
    let mut a = [0u8; 48];
    let mut i: usize = 0;
    while i < 48
        invariant
            v@.len() == 48,
            i <= 48,
            forall|j: int| 0 <= j < i ==> a@[j] == v@[j],
        decreases 48 - i,
    {
        a[i] = v[i];
        i += 1;
    }
    assert(a@ =~= v@);
    assert(array48_of(v@)@ == v@);
    Some(a)
}

/// Encrypted key material used to reconstruct a payload key.
pub struct OvkWrappedKey(pub [u8; OVK_WRAPPED_LEN_BYTES]);

impl TryFrom<Vec<u8>> for OvkWrappedKey {
    type Error = KeyError;

    /// The wrapped OVK held in exactly 48 bytes.
    fn try_from(vector: Vec<u8>) -> (r: Result<Self, Self::Error>) {
        match to_array48(vector.as_slice()) {
            Some(bytes) => Ok(Self(bytes)),
            None => Err(KeyError::Malformed),
        }
    }
}

impl vstd::std_specs::convert::TryFromSpecImpl<Vec<u8>> for OvkWrappedKey {
    open spec fn obeys_try_from_spec() -> bool {
        true
    }

    open spec fn try_from_spec(v: Vec<u8>) -> Result<Self, KeyError> {
        if v@.len() == 48 {
            Ok(OvkWrappedKey(array48_of(v@)))
        } else {
            Err(KeyError::Malformed)
        }
    }
}

impl<'a> TryFrom<&'a [u8]> for OvkWrappedKey {
    type Error = KeyError;

    /// The wrapped OVK held in exactly 48 bytes.
    fn try_from(arr: &'a [u8]) -> (r: Result<Self, Self::Error>) {
        match to_array48(arr) {
            Some(bytes) => Ok(Self(bytes)),
            None => Err(KeyError::Malformed),
        }
    }
}

impl<'a> vstd::std_specs::convert::TryFromSpecImpl<&'a [u8]> for OvkWrappedKey {
    open spec fn obeys_try_from_spec() -> bool {
        true
    }

    open spec fn try_from_spec(v: &'a [u8]) -> Result<Self, KeyError> {
        if v@.len() == 48 {
            Ok(OvkWrappedKey(array48_of(v@)))
        } else {
            Err(KeyError::Malformed)
        }
    }
}

impl OvkWrappedKey {
    /// The wrapped key's bytes.
    pub fn to_vec(&self) -> (r: Vec<u8>)
        ensures
            r@ == self.0@,
    {
        vstd::slice::slice_to_vec(self.0.as_slice())
    }
}

/// Encrypted key material used to decrypt a memo.
pub struct WrappedMemoKey(pub [u8; MEMOKEY_WRAPPED_LEN_BYTES]);

impl TryFrom<Vec<u8>> for WrappedMemoKey {
    type Error = KeyError;

    /// The wrapped memo key held in exactly 48 bytes.
    fn try_from(vector: Vec<u8>) -> (r: Result<Self, Self::Error>) {
        match to_array48(vector.as_slice()) {
            Some(bytes) => Ok(Self(bytes)),
            None => Err(KeyError::Malformed),
        }
    }
}

impl vstd::std_specs::convert::TryFromSpecImpl<Vec<u8>> for WrappedMemoKey {
    open spec fn obeys_try_from_spec() -> bool {
        true
    }

    open spec fn try_from_spec(v: Vec<u8>) -> Result<Self, KeyError> {
        if v@.len() == 48 {
            Ok(WrappedMemoKey(array48_of(v@)))
        } else {
            Err(KeyError::Malformed)
        }
    }
}

impl<'a> TryFrom<&'a [u8]> for WrappedMemoKey {
    type Error = KeyError;

    /// The wrapped memo key held in exactly 48 bytes.
    fn try_from(arr: &'a [u8]) -> (r: Result<Self, Self::Error>) {
        match to_array48(arr) {
            Some(bytes) => Ok(Self(bytes)),
            None => Err(KeyError::Malformed),
        }
    }
}

impl<'a> vstd::std_specs::convert::TryFromSpecImpl<&'a [u8]> for WrappedMemoKey {
    open spec fn obeys_try_from_spec() -> bool {
        true
    }

    open spec fn try_from_spec(v: &'a [u8]) -> Result<Self, KeyError> {
        if v@.len() == 48 {
            Ok(WrappedMemoKey(array48_of(v@)))
        } else {
            Err(KeyError::Malformed)
        }
    }
}

impl WrappedMemoKey {
    /// The wrapped key's bytes.
    pub fn to_vec(&self) -> (r: Vec<u8>)
        ensures
            r@ == self.0@,
    {
        vstd::slice::slice_to_vec(self.0.as_slice())
    }
}

/// Taking a wrapped OVK's bytes out and back in gives the same key.
pub proof fn lemma_ovk_wrapped_round_trip(k: OvkWrappedKey, v: Vec<u8>)
    requires
        v@ == k.0@,
    ensures
        <OvkWrappedKey as vstd::std_specs::convert::TryFromSpec<Vec<u8>>>::try_from_spec(v) == Ok::<OvkWrappedKey, KeyError>(k),
{
    assert(array48_of(v@)@ == v@);
    assert(array48_of(v@) == k.0);
}

/// Taking a wrapped memo key's bytes out and back in gives the same key.
pub proof fn lemma_memo_wrapped_round_trip(k: WrappedMemoKey, v: Vec<u8>)
    requires
        v@ == k.0@,
    ensures
        <WrappedMemoKey as vstd::std_specs::convert::TryFromSpec<Vec<u8>>>::try_from_spec(v) == Ok::<WrappedMemoKey, KeyError>(k),
{
    assert(array48_of(v@)@ == v@);
    assert(array48_of(v@) == k.0);
}

} // verus!
