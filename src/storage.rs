use vstd::prelude::*;

use std::sync::Arc;

use crate::router::{residual_of, route_of, MultistoreConfig};
use crate::column::lookup;
use crate::hashing::key_hash_of;
use crate::tree::tree_proof_of;
use crate::snapshot::{share, MultistoreState, Snapshot, StorageError};

verus! {

/// The value of `key` in `state` under `config`: looked up by the hash of the
/// key's rest in the tree of the sub-store it routes to.
pub open spec fn get_in(config: MultistoreConfig, state: MultistoreState, key: Seq<u8>) -> Option<Seq<u8>> {
    let ps = config.prefixes();
    lookup(state.substores@[route_of(ps, key)].tree@, key_hash_of(residual_of(ps, key)))
}

/// The proof chain for `key` in `state` under `config`: the proof of the tree
/// of the key's sub-store for the rest of the key; for a nested sub-store,
/// then the proof of the main store's tree for the sub-store's prefix.
/// `None` where a tree cannot give its proof.
pub open spec fn chain_in(config: MultistoreConfig, state: MultistoreState, key: Seq<u8>) -> Option<Seq<Seq<u8>>> {
    let ps = config.prefixes();
    let i = route_of(ps, key);
    let st = state.substores@[i];
    let main = state.substores@[ps.len() as int];
    match tree_proof_of(st.tree@, st.keys@, residual_of(ps, key)) {
        None => None,
        Some(inner) => if i == ps.len() {
            Some(seq![inner])
        } else {
            match tree_proof_of(main.tree@, main.keys@, ps[i]) {
                None => None,
                Some(outer) => Some(seq![inner, outer]),
            }
        },
    }
}

/// The committed versions of a multi-store; version `v` is the `v`-th state
/// handed to `commit`. Committed states are never changed.
pub struct Storage {
    config: Arc<MultistoreConfig>,
    versions: Vec<Arc<MultistoreState>>,
}

impl Storage {
    pub closed spec fn spec_config(&self) -> MultistoreConfig {
        *self.config
    }

    pub closed spec fn spec_versions(&self) -> Seq<MultistoreState> {
        self.versions@.map_values(|a: Arc<MultistoreState>| *a)
    }

    pub open spec fn wf(&self) -> bool {
        &&& self.spec_config().wf()
        &&& forall|v: int| 0 <= v < self.spec_versions().len() ==> (#[trigger] self.spec_versions()[v]).wf_for(self.spec_config())
    }

    /// A storage with no committed version.
    pub fn new(config: MultistoreConfig) -> (r: Storage)
        requires
            config.wf(),
        ensures
            r.wf(),
            r.spec_config() == config,
            r.spec_versions().len() == 0,
    {
        let r = Storage { config: Arc::new(config), versions: Vec::new() };
        assert(r.spec_versions().len() == 0);
        r
    }

    /// The newest committed version, if any.
    pub fn latest_version(&self) -> (r: Option<u64>)
        ensures
            r is None <==> self.spec_versions().len() == 0,
            r matches Some(v) ==> v == self.spec_versions().len() - 1,
    {
        if self.versions.len() == 0 {
            None
        } else {
            Some((self.versions.len() - 1) as u64)
        }
    }

    /// Takes in the state the commit path produced as the next version, and
    /// returns its number; refuses a state that does not fit the
    /// configuration.
    pub fn commit(&mut self, state: MultistoreState) -> (r: Result<u64, StorageError>)
        requires
            old(self).wf(),
        ensures
            final(self).wf(),
            final(self).spec_config() == old(self).spec_config(),
            r is Ok <==> state.wf_for(old(self).spec_config()),
            r matches Ok(v) ==> v == old(self).spec_versions().len()
                && final(self).spec_versions() == old(self).spec_versions().push(state),
            r matches Err(e) ==> e == StorageError::Malformed
                && final(self).spec_versions() == old(self).spec_versions(),
    {
        if !state.fits(&self.config) {
            return Err(StorageError::Malformed);
        }
        let v: u64 = self.versions.len() as u64;
        let ghost before = self.spec_versions();
        self.versions.push(Arc::new(state));
        assert(self.spec_versions() =~= before.push(state));
        Ok(v)
    }

    /// A snapshot pinned at `version`.
    pub fn snapshot(&self, version: u64) -> (r: Result<Snapshot, StorageError>)
        requires
            self.wf(),
        ensures
            r is Ok <==> version < self.spec_versions().len(),
            r matches Ok(s) ==> s.wf() && s.spec_version() == version
                && s.spec_config() == self.spec_config()
                && s.spec_state() == self.spec_versions()[version as int],
            r matches Err(e) ==> e == StorageError::UnknownVersion,
    {
        let n: usize = self.versions.len();
        if version >= n as u64 {
            return Err(StorageError::UnknownVersion);
        }
        let state = share(&self.versions[version as usize]);
        assert(self.spec_versions()[version as int] == *self.versions@[version as int]);
        Ok(Snapshot::new(share(&self.config), state, version))
    }

    /// A snapshot pinned at the newest version, if there is one.
    pub fn latest_snapshot(&self) -> (r: Option<Snapshot>)
        requires
            self.wf(),
        ensures
            r is None <==> self.spec_versions().len() == 0,
            r matches Some(s) ==> s.wf() && s.spec_version() == self.spec_versions().len() - 1
                && s.spec_state() == self.spec_versions().last(),
    {
        match self.latest_version() {
            None => None,
            Some(v) => match self.snapshot(v) {
                Ok(s) => Some(s),
                Err(_) => None,
            },
        }
    }
}

/// Snapshot isolation: once later versions are committed, a key read at an
/// earlier version still has the value, and the proof chain, it had there.
pub proof fn lemma_snapshot_isolation(before: Storage, after: Storage, version: int, key: Seq<u8>)
    requires
        before.wf(),
        after.spec_config() == before.spec_config(),
        before.spec_versions().is_prefix_of(after.spec_versions()),
        0 <= version < before.spec_versions().len(),
    ensures
        get_in(after.spec_config(), after.spec_versions()[version], key)
            == get_in(before.spec_config(), before.spec_versions()[version], key),
        chain_in(after.spec_config(), after.spec_versions()[version], key)
            == chain_in(before.spec_config(), before.spec_versions()[version], key),
{
}

/// A snapshot reads what its version holds.
pub proof fn lemma_snapshot_reads_version(storage: Storage, snap: Snapshot, key: Seq<u8>)
    requires
        storage.wf(),
        snap.spec_config() == storage.spec_config(),
        snap.spec_version() < storage.spec_versions().len(),
        snap.spec_state() == storage.spec_versions()[snap.spec_version() as int],
    ensures
        snap.spec_get(key) == get_in(storage.spec_config(), storage.spec_versions()[snap.spec_version() as int], key),
        snap.spec_chain(key) == chain_in(storage.spec_config(), storage.spec_versions()[snap.spec_version() as int], key),
{
}

} // verus!
