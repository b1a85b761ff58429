use vstd::prelude::*;

use std::sync::Arc;

use crate::bytes::{concat, lemma_lex_prepend, lemma_prefix_le, lex_lt, starts_with};
use crate::column::{entries_view, in_scan, lemma_filter_sorted, lookup, opt_bytes, scan_spec, sorted, Column, Entry, Kv};
use crate::cursor::{PrefixCursor, ScanCursor};
use crate::hashing::{key_hash, key_hash_of, zero_digest, KeyHash, RootHash};
use crate::storage::chain_in;
use crate::tree::{has_hashed_keys, hashed_keys, jmt_proof, jmt_root, tree_proof_of, tree_root_of};
use crate::router::{prefix_of, residual_of, route_of, MultistoreConfig};

verus! {

/// Why a read failed.
#[derive(Debug, Clone, Copy, PartialEq, Eq, Structural)]
pub enum StorageError {
    /// A range bound of a kind that scans do not support: an exclusive start
    /// or an inclusive end.
    UnsupportedBound,
    /// The tree backend could not produce a proof.
    ProofUnavailable,
    /// No committed version has that number.
    UnknownVersion,
    /// A committed state that does not fit the store configuration.
    Malformed,
}

/// One end of a key range.
pub enum RangeBound {
    Included(Vec<u8>),
    Excluded(Vec<u8>),
    Unbounded,
}

/// A start bound scans accept: inclusive or open.
pub open spec fn start_supported(b: RangeBound) -> bool {
    !(b is Excluded)
}

/// An end bound scans accept: exclusive or open.
pub open spec fn end_supported(b: RangeBound) -> bool {
    !(b is Included)
}

/// The exclusive end a bound gives; `None` for an open end.
pub open spec fn end_bound(b: RangeBound) -> Option<Seq<u8>> {
    match b {
        RangeBound::Excluded(v) => Some(v@),
        _ => None,
    }
}

/// The bytes a bound carries; empty for an open bound.
pub open spec fn bound_bytes(b: RangeBound) -> Seq<u8> {
    match b {
        RangeBound::Included(v) => v@,
        RangeBound::Excluded(v) => v@,
        RangeBound::Unbounded => Seq::empty(),
    }
}

/// One sub-store pinned at a version: its authenticated tree (key hash to
/// value), its raw-key index (key to key hash), its unauthenticated column,
/// and the root the commit path computed for the tree.
pub struct SubstoreState {
    pub tree: Column,
    pub keys: Column,
    pub nonverifiable: Column,
    pub root: RootHash,
}

/// The pairs of the raw-key index whose key begins with `p`.
pub open spec fn index_matches(st: SubstoreState, p: Seq<u8>) -> Seq<Kv> {
    st.keys@.filter(|kv: Kv| starts_with(kv.0, p))
}

/// Every key of `ks` has a value in the tree.
pub open spec fn all_present(st: SubstoreState, ks: Seq<Kv>) -> bool {
    forall|i: int| 0 <= i < ks.len() ==> (#[trigger] lookup(st.tree@, key_hash_of(ks[i].0))) is Some
}

/// Each key of `ks` behind `sp`, with its value from the tree.
pub open spec fn joined(st: SubstoreState, sp: Seq<u8>, ks: Seq<Kv>) -> Seq<Kv> {
    ks.map_values(|kv: Kv| (sp + kv.0, lookup(st.tree@, key_hash_of(kv.0))->0))
}

impl SubstoreState {
    pub open spec fn wf(&self) -> bool {
        &&& self.tree.wf()
        &&& self.keys.wf()
        &&& self.nonverifiable.wf()
        &&& hashed_keys(self.tree@)
        &&& self.index_backed()
        &&& self.root_computed()
    }

    /// Every key of the raw-key index has a value in the tree.
    pub open spec fn index_backed(&self) -> bool {
        forall|i: int| 0 <= i < self.keys@.len() ==> (#[trigger] lookup(self.tree@, key_hash_of(self.keys@[i].0))) is Some
    }

    /// A non-empty tree's recorded root is the root the tree computes.
    pub open spec fn root_computed(&self) -> bool {
        self.tree@.len() > 0 ==> self.root@ == tree_root_of(self.tree@)
    }

    /// The root of the tree; all zeros when it holds nothing.
    pub open spec fn root_of(&self) -> Seq<u8> {
        if self.tree@.len() == 0 {
            zero_digest()
        } else {
            self.root@
        }
    }

    /// A sub-store over the three columns, with the root its tree computes
    /// (all zeros for an empty tree); `None` where the tree backend fails.
    pub fn with_computed_root(tree: Column, keys: Column, nonverifiable: Column) -> (r: Option<SubstoreState>)
        ensures
            r matches Some(s) ==> s.tree == tree && s.keys == keys && s.nonverifiable == nonverifiable
                && s.root_computed(),
            tree@.len() == 0 ==> r is Some,
            tree.wf() && hashed_keys(tree@) ==> r is Some,
    {
        let root = if tree.len() == 0 {
            RootHash::zero()
        } else {
            match jmt_root(&tree) {
                Some(h) => RootHash(h),
                None => {
                    return None;
                },
            }
        };
        Some(SubstoreState { tree, keys, nonverifiable, root })
    }

    /// Whether every key of the raw-key index has a value in the tree.
    pub fn check_index(&self) -> (r: bool)
        ensures
            r == self.index_backed(),
    {
        let mut j: usize = 0;
        while j < self.keys.entries.len()
            invariant
                j <= self.keys@.len(),
                forall|a: int| 0 <= a < j ==> (#[trigger] lookup(self.tree@, key_hash_of(self.keys@[a].0))) is Some,
            decreases self.keys@.len() - j,
        {
            assert(self.keys@[j as int].0 == self.keys.entries@[j as int].key@);
            if self.get(self.keys.entries[j].key.as_slice()).is_none() {
                return false;
            }
            j += 1;
        }
        true
    }

    /// Whether the sub-store is well formed: sorted columns, 32-byte key
    /// hashes in the tree, an index backed by the tree, and a recorded root
    /// equal to the root the tree computes.
    pub fn validate(&self) -> (r: bool)
        ensures
            r == self.wf(),
    {
        if !(self.tree.is_sorted() && self.keys.is_sorted() && self.nonverifiable.is_sorted()
            && has_hashed_keys(&self.tree) && self.check_index()) {
            return false;
        }
        if self.tree.len() == 0 {
            return true;
        }
        match jmt_root(&self.tree) {
            Some(h) => crate::bytes::bytes_eq(h.as_slice(), self.root.0.as_slice()),
            None => false,
        }
    }

    /// A sub-store that holds nothing.
    pub fn empty() -> (r: SubstoreState)
        ensures
            r.wf(),
            r.tree@.len() == 0,
            r.keys@.len() == 0,
            r.nonverifiable@.len() == 0,
    {
        SubstoreState { tree: Column::empty(), keys: Column::empty(), nonverifiable: Column::empty(), root: RootHash::zero() }
    }

    /// The root hash; the all-zero digest when the tree is empty.
    pub fn root_hash(&self) -> (r: RootHash)
        ensures
            r@ == self.root_of(),
            self.tree@.len() == 0 ==> r@ == zero_digest(),
            self.root_computed() && self.tree@.len() > 0 ==> r@ == tree_root_of(self.tree@),
    {
        if self.tree.len() == 0 {
            RootHash::zero()
        } else {
            self.root.duplicate()
        }
    }

    /// The value at a key hash in the tree.
    pub fn get_jmt(&self, key_hash: &KeyHash) -> (r: Option<Vec<u8>>)
        ensures
            opt_bytes(r) == lookup(self.tree@, key_hash@),
    {
        self.tree.get(key_hash.0.as_slice())
    }

    /// The value of a key of this sub-store (its prefix taken off).
    pub fn get(&self, key: &[u8]) -> (r: Option<Vec<u8>>)
        ensures
            opt_bytes(r) == lookup(self.tree@, key_hash_of(key@)),
    {
        let h = key_hash(key);
        self.get_jmt(&h)
    }
}

/// The sub-stores of one version: one for each configured prefix, in order,
/// then the main store.
pub struct MultistoreState {
    pub substores: Vec<SubstoreState>,
}

impl MultistoreState {
    pub open spec fn wf_for(&self, config: MultistoreConfig) -> bool {
        &&& self.substores@.len() == config.substores@.len() + 1
        &&& forall|i: int| 0 <= i < self.substores@.len() ==> (#[trigger] self.substores@[i]).wf()
        &&& self.roots_recorded(config)
    }

    /// The main store's tree holds, under each nested sub-store's prefix, that
    /// sub-store's root, so that the composite root commits to every
    /// sub-store; and the main store's index holds each prefix.
    pub open spec fn roots_recorded(&self, config: MultistoreConfig) -> bool {
        let ps = config.prefixes();
        let main = self.substores@[ps.len() as int];
        forall|i: int| 0 <= i < ps.len() ==> {
            &&& lookup(main.tree@, key_hash_of(#[trigger] ps[i])) == Some(self.substores@[i].root_of())
            &&& lookup(main.keys@, ps[i]) is Some
        }
    }

    /// Whether this state fits `config`: one sub-store per prefix and the
    /// main store, each well formed, and each nested sub-store's root
    /// recorded in the main store's tree, and its prefix in the main index.
    pub fn fits(&self, config: &MultistoreConfig) -> (r: bool)
        ensures
            r == self.wf_for(*config),
    {
        if self.substores.len() == 0 || self.substores.len() - 1 != config.substores.len() {
            return false;
        }
        let mut i: usize = 0;
        while i < self.substores.len()
            invariant
                i <= self.substores@.len(),
                forall|a: int| 0 <= a < i ==> (#[trigger] self.substores@[a]).wf(),
            decreases self.substores@.len() - i,
        {
            if !self.substores[i].validate() {
                return false;
            }
            i += 1;
        }
        let n: usize = config.substores.len();
        let ghost ps = config.prefixes();
        let main = &self.substores[n];
        let mut j: usize = 0;
        while j < n
            invariant
                n == ps.len(),
                ps == config.prefixes(),
                self.substores@.len() == n + 1,
                *main == self.substores@[n as int],
                j <= n,
                forall|a: int| 0 <= a < j ==> {
                    &&& lookup(main.tree@, key_hash_of(#[trigger] ps[a])) == Some(self.substores@[a].root_of())
                    &&& lookup(main.keys@, ps[a]) is Some
                },
            decreases n - j,
        {
            let root = self.substores[j].root_hash();
            assert(ps[j as int] == config.substores@[j as int].prefix@);
            match main.get(config.substores[j].prefix.as_slice()) {
                Some(v) => {
                    if !crate::bytes::bytes_eq(v.as_slice(), root.0.as_slice()) {
                        return false;
                    }
                },
                None => {
                    return false;
                },
            }
            if main.keys.get(config.substores[j].prefix.as_slice()).is_none() {
                return false;
            }
            j += 1;
        }
        true
    }
}

/// Relies on Arc::clone: the new handle points at the same value.
#[verifier::external_body]
pub(crate) fn share<T>(a: &Arc<T>) -> (r: Arc<T>)
    ensures
        r == *a,
{
    Arc::clone(a)
}

/// The forward scan from `p` over `s` that ends past the keys beginning with
/// `p` yields exactly those keys.
proof fn lemma_prefix_scan(s: Seq<Kv>, p: Seq<u8>)
    ensures
        scan_spec(s, p, None, p) == s.filter(|kv: Kv| starts_with(kv.0, p)),
{
    let f = |kv: Kv| in_scan(p, None, p, kv.0);
    let g = |kv: Kv| starts_with(kv.0, p);
    assert forall|kv: Kv| #[trigger] f(kv) == g(kv) by {
        if starts_with(kv.0, p) {
            lemma_prefix_le(kv.0, p);
        }
    }
    assert(f =~= g);
}

/// Under a backed index, every index key that a prefix matches has a value
/// in the tree.
pub proof fn lemma_index_present(st: SubstoreState, p: Seq<u8>)
    requires
        st.index_backed(),
    ensures
        all_present(st, index_matches(st, p)),
{
    let pred = |kv: Kv| starts_with(kv.0, p);
    let ks = index_matches(st, p);
    assert forall|i: int| 0 <= i < ks.len() implies (#[trigger] lookup(st.tree@, key_hash_of(ks[i].0))) is Some by {
        crate::column::lemma_filter_member(st.keys@, pred, i);
        let j = choose|j: int| 0 <= j < st.keys@.len() && st.keys@[j] == st.keys@.filter(pred)[i];
        assert(lookup(st.tree@, key_hash_of(st.keys@[j].0)) is Some);
    }
}

/// The bytes of an optional prefix; empty when there is none.
pub open spec fn opt_prefix(p: Option<&[u8]>) -> Seq<u8> {
    match p {
        Some(v) => v@,
        None => Seq::empty(),
    }
}

/// The links of the chain that `get_with_proof` gives for `key` come from
/// the trees the snapshot's roots summarize: the first from the tree of the
/// key's sub-store, whose computed root is that sub-store's root hash; for a
/// nested sub-store, the second from the main store's tree, which holds the
/// sub-store's root under the sub-store's prefix and whose computed root is
/// the composite root.
pub proof fn lemma_proof_chain_anchors(snap: Snapshot, key: Seq<u8>)
    requires
        snap.wf(),
    ensures
        ({
            let ps = snap.prefixes();
            let i = route_of(ps, key);
            let st = snap.store_for(key);
            let main = snap.spec_state().substores@[ps.len() as int];
            &&& st.tree@.len() > 0 ==> st.root_of() == tree_root_of(st.tree@)
            &&& i != ps.len() ==> {
                &&& lookup(main.tree@, key_hash_of(ps[i])) == Some(st.root_of())
                &&& main.tree@.len() > 0
                &&& main.root_of() == tree_root_of(main.tree@)
            }
        }),
{
    let ps = snap.prefixes();
    let i = route_of(ps, key);
    let main = snap.spec_state().substores@[ps.len() as int];
    assert(snap.spec_state().substores@[i].wf());
    assert(main.wf());
    if i != ps.len() {
        assert(snap.spec_state().roots_recorded(snap.spec_config()));
        assert(lookup(main.tree@, key_hash_of(ps[i])) == Some(snap.spec_state().substores@[i].root_of()));
    }
}

/// `prefix_raw` yields its pairs in strictly ascending key order, and each
/// key begins with the queried prefix.
pub proof fn lemma_prefix_raw_ordered(snap: Snapshot, prefix: Seq<u8>)
    requires
        snap.wf(),
    ensures
        ({
            let out = joined(snap.store_for(prefix), snap.store_prefix(prefix), snap.prefix_index(prefix));
            &&& sorted(out)
            &&& forall|i: int| 0 <= i < out.len() ==> starts_with(#[trigger] out[i].0, prefix)
        }),
{
    let ps = snap.prefixes();
    let i = route_of(ps, prefix);
    let st = snap.store_for(prefix);
    let sp = snap.store_prefix(prefix);
    let rp = residual_of(ps, prefix);
    let pred = |kv: Kv| starts_with(kv.0, rp);
    let ks = st.keys@.filter(pred);
    let out = joined(st, sp, ks);
    assert(0 <= i <= ps.len());
    assert(st.wf());
    lemma_filter_sorted(st.keys@, pred);
    assert forall|a: int, b: int| 0 <= a < b < out.len() implies lex_lt(#[trigger] out[a].0, #[trigger] out[b].0) by {
        lemma_lex_prepend(sp, ks[a].0, ks[b].0);
    }
    assert(starts_with(prefix, sp)) by {
        if i == ps.len() {
            assert(prefix.subrange(0, 0) =~= sp);
        }
    }
    assert(prefix =~= sp + rp);
    assert forall|a: int| 0 <= a < out.len() implies starts_with(#[trigger] out[a].0, prefix) by {
        st.keys@.lemma_filter_pred(pred, a);
        let k = ks[a].0;
        assert(k.subrange(0, rp.len() as int) == rp);
        assert((sp + k).subrange(0, prefix.len() as int) =~= sp + k.subrange(0, rp.len() as int));
    }
}

/// Mapping then filtering equals filtering then mapping, when the two
/// predicates agree through the map.
proof fn lemma_map_filter(s: Seq<Kv>, f: spec_fn(Kv) -> Kv, q: spec_fn(Kv) -> bool, q2: spec_fn(Kv) -> bool)
    requires
        forall|x: Kv| #[trigger] q2(f(x)) == q(x),
    ensures
        s.filter(q).map_values(f) == s.map_values(f).filter(q2),
    decreases s.len(),
{
    reveal_with_fuel(Seq::filter, 1);
    if s.len() > 0 {
        lemma_map_filter(s.drop_last(), f, q, q2);
        assert(s.map_values(f).drop_last() =~= s.drop_last().map_values(f));
        assert(s.map_values(f).last() == f(s.last()));
        if q(s.last()) {
            assert(s.filter(q).map_values(f) =~= s.drop_last().filter(q).map_values(f).push(f(s.last())));
        }
    } else {
        assert(s.filter(q).map_values(f) =~= s.map_values(f).filter(q2));
    }
}

/// `prefix_raw` yields exactly the pairs of a full scan of the sub-store
/// that the prefix routes to (every indexed key, with the sub-store's prefix,
/// and its value) whose key begins with the prefix, in the same order.
pub proof fn lemma_prefix_raw_filters_full_scan(snap: Snapshot, prefix: Seq<u8>)
    requires
        snap.wf(),
    ensures
        joined(snap.store_for(prefix), snap.store_prefix(prefix), snap.prefix_index(prefix))
            == joined(snap.store_for(prefix), snap.store_prefix(prefix), snap.store_for(prefix).keys@).filter(
            |kv: Kv| starts_with(kv.0, prefix),
        ),
{
    let ps = snap.prefixes();
    let i = route_of(ps, prefix);
    let st = snap.store_for(prefix);
    let sp = snap.store_prefix(prefix);
    let rp = residual_of(ps, prefix);
    let q = |kv: Kv| starts_with(kv.0, rp);
    let q2 = |kv: Kv| starts_with(kv.0, prefix);
    let f = |kv: Kv| (sp + kv.0, lookup(st.tree@, key_hash_of(kv.0))->0);
    assert(starts_with(prefix, sp)) by {
        if i == ps.len() {
            assert(prefix.subrange(0, 0) =~= sp);
        }
    }
    assert(prefix =~= sp + rp);
    assert forall|x: Kv| #[trigger] q2(f(x)) == q(x) by {
        let k = x.0;
        if starts_with(k, rp) {
            assert((sp + k).subrange(0, prefix.len() as int) =~= sp + k.subrange(0, rp.len() as int));
        }
        if starts_with(sp + k, prefix) {
            assert(k.subrange(0, rp.len() as int) =~= (sp + k).subrange(0, prefix.len() as int).subrange(sp.len() as int, prefix.len() as int));
        }
    }
    lemma_map_filter(st.keys@, f, q, q2);
    assert(joined(st, sp, st.keys@.filter(q)) =~= st.keys@.filter(q).map_values(f));
    assert(joined(st, sp, st.keys@) =~= st.keys@.map_values(f));
}

/// With an exclusive end, a range scan yields exactly the half-open interval
/// from the rest of the prefix followed by `start` (inclusive) to the rest of
/// the prefix followed by `end` (exclusive): the stop at the first key outside
/// the prefix never cuts it short.
pub proof fn lemma_bounded_range_is_interval(snap: Snapshot, prefix: Seq<u8>, start: Seq<u8>, end: Seq<u8>)
    requires
        snap.wf(),
    ensures
        ({
            let rp = residual_of(snap.prefixes(), prefix);
            snap.range_spec(prefix, start, Some(end)) == snap.store_for(prefix).nonverifiable@.filter(
                |kv: Kv| crate::bytes::lex_le(rp + start, kv.0) && lex_lt(kv.0, rp + end),
            )
        }),
{
    let rp = residual_of(snap.prefixes(), prefix);
    let lo = rp + start;
    let hi = rp + end;
    assert(lo.subrange(0, rp.len() as int) =~= rp);
    assert(hi.subrange(0, rp.len() as int) =~= rp);
    let f = |kv: Kv| in_scan(lo, Some(hi), rp, kv.0);
    let g = |kv: Kv| crate::bytes::lex_le(lo, kv.0) && lex_lt(kv.0, hi);
    assert forall|kv: Kv| #[trigger] f(kv) == g(kv) by {
        if g(kv) {
            crate::bytes::lemma_prefix_block(lo, kv.0, hi, rp);
        }
    }
    assert(f =~= g);
}

/// The chain made of the sub-store's proof `inner` and, for a nested
/// sub-store, the main store's proof `outer`; `ProofUnavailable` where a
/// proof it needs is missing.
pub fn compose_proof(inner: Option<Vec<u8>>, outer: Option<Vec<u8>>, nested: bool) -> (r: Result<Vec<Vec<u8>>, StorageError>)
    ensures
        r is Ok <==> inner is Some && (nested ==> outer is Some),
        r matches Ok(chain) ==> chain@.map_values(|p: Vec<u8>| p@) == if nested {
            seq![inner->0@, outer->0@]
        } else {
            seq![inner->0@]
        },
        r matches Err(e) ==> e == StorageError::ProofUnavailable,
{
    let inner = match inner {
        Some(p) => p,
        None => {
            return Err(StorageError::ProofUnavailable);
        },
    };
    let ghost inner_v = inner@;
    let mut chain: Vec<Vec<u8>> = Vec::new();
    chain.push(inner);
    if nested {
        match outer {
            Some(p) => {
                let ghost outer_v = p@;
                chain.push(p);
                assert(chain@.map_values(|p: Vec<u8>| p@) =~= seq![inner_v, outer_v]);
            },
            None => {
                return Err(StorageError::ProofUnavailable);
            },
        }
    } else {
        assert(chain@.map_values(|p: Vec<u8>| p@) =~= seq![inner_v]);
    }
    Ok(chain)
}

/// A read view pinned at one committed version; cheap to clone, as it shares
/// the configuration and the state.
pub struct Snapshot {
    config: Arc<MultistoreConfig>,
    state: Arc<MultistoreState>,
    version: u64,
}

impl Snapshot {
    pub closed spec fn spec_config(&self) -> MultistoreConfig {
        *self.config
    }

    pub closed spec fn spec_state(&self) -> MultistoreState {
        *self.state
    }

    pub closed spec fn spec_version(&self) -> u64 {
        self.version
    }

    pub open spec fn wf(&self) -> bool {
        &&& self.spec_config().wf()
        &&& self.spec_state().wf_for(self.spec_config())
    }

    pub open spec fn prefixes(&self) -> Seq<Seq<u8>> {
        self.spec_config().prefixes()
    }

    /// The sub-store that `key` routes to.
    pub open spec fn store_for(&self, key: Seq<u8>) -> SubstoreState {
        self.spec_state().substores@[route_of(self.prefixes(), key)]
    }

    /// The value of `key` in this snapshot.
    pub open spec fn spec_get(&self, key: Seq<u8>) -> Option<Seq<u8>> {
        lookup(self.store_for(key).tree@, key_hash_of(residual_of(self.prefixes(), key)))
    }

    /// A snapshot of `state` at `version` under `config`.
    pub(crate) fn new(config: Arc<MultistoreConfig>, state: Arc<MultistoreState>, version: u64) -> (r: Snapshot)
        ensures
            r.spec_config() == *config,
            r.spec_state() == *state,
            r.spec_version() == version,
    {
        Snapshot { config, state, version }
    }

    /// Another handle on the same view.
    pub fn duplicate(&self) -> (r: Snapshot)
        ensures
            r.spec_config() == self.spec_config(),
            r.spec_state() == self.spec_state(),
            r.spec_version() == self.spec_version(),
    {
        Snapshot { config: share(&self.config), state: share(&self.state), version: self.version }
    }

    pub fn version(&self) -> (r: u64)
        ensures
            r == self.spec_version(),
    {
        self.version
    }

    /// The pairs of the raw-key index, in the sub-store that `prefix` routes
    /// to, whose key begins with the rest of `prefix`.
    pub open spec fn prefix_index(&self, prefix: Seq<u8>) -> Seq<Kv> {
        index_matches(self.store_for(prefix), residual_of(self.prefixes(), prefix))
    }

    /// The prefix of the sub-store that `key` routes to.
    pub open spec fn store_prefix(&self, key: Seq<u8>) -> Seq<u8> {
        prefix_of(self.prefixes(), route_of(self.prefixes(), key))
    }

    /// The chain `get_with_proof` gives for `key`; `None` where a tree cannot
    /// give its proof.
    pub open spec fn spec_chain(&self, key: Seq<u8>) -> Option<Seq<Seq<u8>>> {
        chain_in(self.spec_config(), self.spec_state(), key)
    }

    /// The pairs a range scan yields from the unauthenticated column of the
    /// sub-store that `prefix` routes to.
    pub open spec fn range_spec(&self, prefix: Seq<u8>, start: Seq<u8>, end: Option<Seq<u8>>) -> Seq<Kv> {
        let rp = residual_of(self.prefixes(), prefix);
        scan_spec(
            self.store_for(prefix).nonverifiable@,
            rp + start,
            match end {
                Some(e) => Some(rp + e),
                None => None,
            },
            rp,
        )
    }

    /// The value of `key`, from the authenticated tree of its sub-store.
    pub fn get_raw(&self, key: &[u8]) -> (r: Option<Vec<u8>>)
        requires
            self.wf(),
        ensures
            opt_bytes(r) == self.spec_get(key@),
    {
        let (residual, i) = self.config.route_key_bytes(key);
        self.substore(i).get(residual.as_slice())
    }

    /// The value of `key` in the unauthenticated column of its sub-store.
    pub fn nonverifiable_get_raw(&self, key: &[u8]) -> (r: Option<Vec<u8>>)
        requires
            self.wf(),
        ensures
            opt_bytes(r) == lookup(self.store_for(key@).nonverifiable@, residual_of(self.prefixes(), key@)),
    {
        let (residual, i) = self.config.route_key_bytes(key);
        self.substore(i).nonverifiable.get(residual.as_slice())
    }

    /// The root hash of the sub-store that `prefix` routes to; the all-zero
    /// digest when its tree is empty.
    pub fn root_hash_for(&self, prefix: &[u8]) -> (r: RootHash)
        requires
            self.wf(),
        ensures
            r@ == self.store_for(prefix@).root_of(),
            self.store_for(prefix@).tree@.len() == 0 ==> r@ == zero_digest(),
            self.store_for(prefix@).tree@.len() > 0 ==> r@ == tree_root_of(self.store_for(prefix@).tree@),
    {
        let (_, i) = self.config.route_key_bytes(prefix);
        self.substore(i).root_hash()
    }

    /// The root hash of the main store.
    pub fn root_hash(&self) -> (r: RootHash)
        requires
            self.wf(),
        ensures
            r@ == self.spec_state().substores@[self.prefixes().len() as int].root_of(),
            self.spec_state().substores@[self.prefixes().len() as int].tree@.len() > 0
                ==> r@ == tree_root_of(self.spec_state().substores@[self.prefixes().len() as int].tree@),
    {
        let empty: Vec<u8> = Vec::new();
        assert(route_of(self.prefixes(), empty@) == self.prefixes().len()) by {
            assert(forall|i: int| 0 <= i < self.prefixes().len() ==> !starts_with(empty@, #[trigger] self.prefixes()[i]));
        }
        self.root_hash_for(empty.as_slice())
    }

    /// The value of `key` with its proof chain, each link the protobuf
    /// encoding of an ICS23 proof: the proof of the key's sub-store tree for
    /// the rest of the key (existence or non-existence), then, for a nested
    /// sub-store, the proof of the main store's tree for the sub-store's
    /// prefix, whose value is the sub-store's root. Fails exactly where one
    /// of the two trees cannot give its proof.
    pub fn get_with_proof(&self, key: &[u8]) -> (r: Result<(Option<Vec<u8>>, Vec<Vec<u8>>), StorageError>)
        requires
            self.wf(),
        ensures
            r is Ok <==> self.spec_chain(key@) is Some,
            r matches Ok((v, chain)) ==> opt_bytes(v) == self.spec_get(key@)
                && self.spec_chain(key@) == Some(chain@.map_values(|p: Vec<u8>| p@)),
            r matches Err(e) ==> e == StorageError::ProofUnavailable,
    {
        let (residual, i) = self.config.route_key_bytes(key);
        let store = self.substore(i);
        let value = store.get(residual.as_slice());
        let inner = jmt_proof(&store.tree, &store.keys, residual.as_slice());
        let nested = i < self.config.substores.len();
        let outer = if nested {
            let main = self.substore(self.config.substores.len());
            jmt_proof(&main.tree, &main.keys, self.config.substores[i].prefix.as_slice())
        } else {
            None
        };
        match compose_proof(inner, outer, nested) {
            Ok(chain) => Ok((value, chain)),
            Err(e) => Err(e),
        }
    }

    /// The pairs of the sub-store that `prefix` routes to whose key begins
    /// with `prefix`, in ascending key order, each value fetched from the tree
    /// by the key's hash.
    pub fn prefix_raw(&self, prefix: &[u8]) -> (r: Vec<Entry>)
        requires
            self.wf(),
        ensures
            entries_view(r@) == joined(
                self.store_for(prefix@),
                self.store_prefix(prefix@),
                self.prefix_index(prefix@),
            ),
    {
        let (rp, i) = self.config.route_key_bytes(prefix);
        let store = self.substore(i);
        let sp = self.config.prefix(i);
        assert(rp@.subrange(0, rp@.len() as int) =~= rp@);
        let found = store.keys.scan(rp.as_slice(), None, rp.as_slice());
        let ghost ks = self.prefix_index(prefix@);
        proof {
            lemma_prefix_scan(store.keys@, rp@);
            lemma_index_present(*store, rp@);
        }
        let mut out: Vec<Entry> = Vec::new();
        let mut j: usize = 0;
        while j < found.len()
            invariant
                entries_view(found@) == ks,
                ks == index_matches(*store, rp@),
                ks == self.prefix_index(prefix@),
                *store == self.store_for(prefix@),
                sp@ == self.store_prefix(prefix@),
                j <= ks.len(),
                entries_view(out@) == joined(*store, sp@, ks.take(j as int)),
                all_present(*store, ks),
            decreases ks.len() - j,
        {
            let k = found[j].key.as_slice();
            assert(k@ == ks[j as int].0);
            match store.get(k) {
                None => {
                    assert(lookup(store.tree@, key_hash_of(ks[j as int].0)) is Some);
                    return out;
                },
                Some(v) => {
                    let ghost before = out@;
                    let ghost kv = (sp@ + k@, v@);
                    out.push(Entry { key: concat(sp.as_slice(), k), value: v });
                    assert(entries_view(out@) =~= entries_view(before).push(kv));
                    assert(ks.take(j + 1).drop_last() =~= ks.take(j as int));
                    assert(joined(*store, sp@, ks.take(j + 1)) =~= joined(*store, sp@, ks.take(j as int)).push(kv));
                },
            }
            j += 1;
        }
        assert(ks.take(j as int) =~= ks);
        out
    }

    /// The keys of the sub-store that `prefix` routes to that begin with
    /// `prefix`, in ascending order.
    pub fn prefix_keys(&self, prefix: &[u8]) -> (r: Vec<Vec<u8>>)
        requires
            self.wf(),
        ensures
            r@.map_values(|k: Vec<u8>| k@) == self.prefix_index(prefix@).map_values(
                |kv: Kv| self.store_prefix(prefix@) + kv.0,
            ),
    {
        let (rp, i) = self.config.route_key_bytes(prefix);
        let store = self.substore(i);
        let sp = self.config.prefix(i);
        assert(rp@.subrange(0, rp@.len() as int) =~= rp@);
        let found = store.keys.scan(rp.as_slice(), None, rp.as_slice());
        let ghost ks = self.prefix_index(prefix@);
        let ghost f = |kv: Kv| self.store_prefix(prefix@) + kv.0;
        proof {
            lemma_prefix_scan(store.keys@, rp@);
        }
        let mut out: Vec<Vec<u8>> = Vec::new();
        let mut j: usize = 0;
        while j < found.len()
            invariant
                entries_view(found@) == ks,
                ks == self.prefix_index(prefix@),
                sp@ == self.store_prefix(prefix@),
                f == (|kv: Kv| self.store_prefix(prefix@) + kv.0),
                j <= ks.len(),
                out@.map_values(|k: Vec<u8>| k@) == ks.take(j as int).map_values(f),
            decreases ks.len() - j,
        {
            let k = found[j].key.as_slice();
            assert(k@ == ks[j as int].0);
            let ghost before = out@;
            out.push(concat(sp.as_slice(), k));
            assert(out@.map_values(|k: Vec<u8>| k@) =~= before.map_values(|k: Vec<u8>| k@).push(sp@ + k@));
            assert(ks.take(j + 1).map_values(f) =~= ks.take(j as int).map_values(f).push(sp@ + k@));
            j += 1;
        }
        assert(ks.take(j as int) =~= ks);
        out
    }

    /// The pairs of the unauthenticated column of the sub-store that `prefix`
    /// routes to whose key begins with the rest of `prefix`, in ascending key
    /// order.
    pub fn nonverifiable_prefix_raw(&self, prefix: &[u8]) -> (r: Vec<Entry>)
        requires
            self.wf(),
        ensures
            entries_view(r@) == self.store_for(prefix@).nonverifiable@.filter(
                |kv: Kv| starts_with(kv.0, residual_of(self.prefixes(), prefix@)),
            ),
    {
        let (rp, i) = self.config.route_key_bytes(prefix);
        let store = self.substore(i);
        proof {
            lemma_prefix_scan(store.nonverifiable@, rp@);
        }
        assert(rp@.subrange(0, rp@.len() as int) =~= rp@);
        store.nonverifiable.scan(rp.as_slice(), None, rp.as_slice())
    }

    /// A range scan over the unauthenticated column of the sub-store that
    /// `prefix` routes to: from the rest of `prefix` followed by `start`
    /// (inclusive) to the rest of `prefix` followed by `end` (exclusive), or,
    /// with an open end, for as long as keys begin with the rest of `prefix`. An exclusive start or an inclusive end is refused.
    pub fn nonverifiable_range_raw(&self, prefix: Option<&[u8]>, start: &RangeBound, end: &RangeBound) -> (r: Result<Vec<Entry>, StorageError>)
        requires
            self.wf(),
        ensures
            r is Ok <==> start_supported(*start) && end_supported(*end),
            r matches Ok(v) ==> entries_view(v@) == self.range_spec(
                opt_prefix(prefix),
                bound_bytes(*start),
                end_bound(*end),
            ),
            r matches Err(e) ==> e == StorageError::UnsupportedBound,
    {
        let empty: Vec<u8> = Vec::new();
        let p: &[u8] = match prefix {
            Some(p) => p,
            None => empty.as_slice(),
        };
        assert(p@ == opt_prefix(prefix));
        let s: &[u8] = match start {
            RangeBound::Included(v) => v.as_slice(),
            RangeBound::Excluded(_) => {
                return Err(StorageError::UnsupportedBound);
            },
            RangeBound::Unbounded => empty.as_slice(),
        };
        let e: Option<&[u8]> = match end {
            RangeBound::Included(_) => {
                return Err(StorageError::UnsupportedBound);
            },
            RangeBound::Excluded(v) => Some(v.as_slice()),
            RangeBound::Unbounded => None,
        };
        let (rp, i) = self.config.route_key_bytes(p);
        let store = self.substore(i);
        let lo = concat(rp.as_slice(), s);
        assert(lo@.subrange(0, rp@.len() as int) =~= rp@);
        match e {
            Some(e) => {
                let hi = concat(rp.as_slice(), e);
                Ok(store.nonverifiable.scan(lo.as_slice(), Some(hi.as_slice()), rp.as_slice()))
            },
            None => Ok(store.nonverifiable.scan(lo.as_slice(), None, rp.as_slice())),
        }
    }

    /// A cursor that yields what `prefix_raw` yields, one pair per step.
    pub fn prefix_raw_cursor(&self, prefix: &[u8]) -> (r: PrefixCursor)
        requires
            self.wf(),
        ensures
            r.wf(),
            r.emitted_keys() == Seq::<Kv>::empty(),
            r.total_keys() == self.prefix_index(prefix@),
            r.tree() == self.store_for(prefix@).tree@,
            r.key_prefix() == self.store_prefix(prefix@),
    {
        let (rp, i) = self.config.route_key_bytes(prefix);
        let sp = self.config.prefix(i);
        assert(rp@.subrange(0, rp@.len() as int) =~= rp@);
        proof {
            lemma_prefix_scan(self.spec_state().substores@[i as int].keys@, rp@);
        }
        let lo = vstd::slice::slice_to_vec(rp.as_slice());
        let keys = ScanCursor::new(self.duplicate(), i, true, lo, None, rp);
        PrefixCursor::new(keys, sp)
    }

    /// A cursor that yields what `nonverifiable_prefix_raw` yields, one pair
    /// per step.
    pub fn nonverifiable_prefix_cursor(&self, prefix: &[u8]) -> (r: ScanCursor)
        requires
            self.wf(),
        ensures
            r.wf(),
            r.emitted() == Seq::<Kv>::empty(),
            r.total() == self.store_for(prefix@).nonverifiable@.filter(
                |kv: Kv| starts_with(kv.0, residual_of(self.prefixes(), prefix@)),
            ),
    {
        let (rp, i) = self.config.route_key_bytes(prefix);
        assert(rp@.subrange(0, rp@.len() as int) =~= rp@);
        proof {
            lemma_prefix_scan(self.spec_state().substores@[i as int].nonverifiable@, rp@);
        }
        let lo = vstd::slice::slice_to_vec(rp.as_slice());
        ScanCursor::new(self.duplicate(), i, false, lo, None, rp)
    }

    /// A cursor that yields what `nonverifiable_range_raw` yields, one pair
    /// per step; refuses the same bounds.
    pub fn nonverifiable_range_cursor(&self, prefix: Option<&[u8]>, start: &RangeBound, end: &RangeBound) -> (r: Result<ScanCursor, StorageError>)
        requires
            self.wf(),
        ensures
            r is Ok <==> start_supported(*start) && end_supported(*end),
            r matches Ok(c) ==> c.wf() && c.emitted() == Seq::<Kv>::empty() && c.total() == self.range_spec(
                opt_prefix(prefix),
                bound_bytes(*start),
                end_bound(*end),
            ),
            r matches Err(e) ==> e == StorageError::UnsupportedBound,
    {
        let empty: Vec<u8> = Vec::new();
        let p: &[u8] = match prefix {
            Some(p) => p,
            None => empty.as_slice(),
        };
        let s: &[u8] = match start {
            RangeBound::Included(v) => v.as_slice(),
            RangeBound::Excluded(_) => {
                return Err(StorageError::UnsupportedBound);
            },
            RangeBound::Unbounded => empty.as_slice(),
        };
        let e: Option<&[u8]> = match end {
            RangeBound::Included(_) => {
                return Err(StorageError::UnsupportedBound);
            },
            RangeBound::Excluded(v) => Some(v.as_slice()),
            RangeBound::Unbounded => None,
        };
        let (rp, i) = self.config.route_key_bytes(p);
        let lo = concat(rp.as_slice(), s);
        assert(lo@.subrange(0, rp@.len() as int) =~= rp@);
        let hi = match e {
            Some(e) => Some(concat(rp.as_slice(), e)),
            None => None,
        };
        Ok(ScanCursor::new(self.duplicate(), i, false, lo, hi, rp))
    }

    /// The store that `key` belongs to, and `key` with that store's prefix
    /// taken off.
    pub fn route(&self, key: &[u8]) -> (r: (Vec<u8>, usize))
        requires
            self.wf(),
        ensures
            r.1 == route_of(self.prefixes(), key@),
            r.0@ == residual_of(self.prefixes(), key@),
            r.1 <= self.spec_config().substores@.len(),
    {
        self.config.route_key_bytes(key)
    }

    /// Store `i`: the `i`-th nested sub-store, or the main store for `i`
    /// equal to the number of nested ones.
    pub fn substore(&self, i: usize) -> (r: &SubstoreState)
        requires
            self.wf(),
            i <= self.spec_config().substores@.len(),
        ensures
            *r == self.spec_state().substores@[i as int],
            r.wf(),
    {
        &self.state.substores[i]
    }
}

} // verus!
