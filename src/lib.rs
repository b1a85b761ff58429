//! A versioned, authenticated multi-store read engine.
//!
//! The keyspace is split into sub-stores by prefix; each sub-store has an
//! authenticated tree addressed by key hash, a sorted raw-key index that
//! recovers lexicographic iteration, and an unauthenticated side column.
//! A [`Snapshot`] pins one committed version and answers point, prefix and
//! range queries, and builds proof chains, over it.
pub mod bytes;
pub mod column;
pub mod cursor;
pub mod hashing;
pub mod leaf;
pub mod router;
pub mod snapshot;
pub mod storage;
pub mod symmetric;
pub mod tree;

pub use bytes::{has_prefix, lex_less};
pub use column::{Column, Entry};
pub use cursor::{PrefixCursor, ScanCursor};
pub use hashing::{key_hash, KeyHash, RootHash};
pub use leaf::Leaf;
pub use router::{MultistoreConfig, SubstoreConfig};
pub use snapshot::{compose_proof, MultistoreState, RangeBound, Snapshot, StorageError, SubstoreState};
pub use storage::Storage;
pub use symmetric::{
    KeyError, OvkWrappedKey, PayloadKind, WrappedMemoKey, MEMOKEY_WRAPPED_LEN_BYTES, OVK_WRAPPED_LEN_BYTES,
    PAYLOAD_KEY_LEN_BYTES,
};
