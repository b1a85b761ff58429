use vstd::prelude::*;

use crate::bytes::{has_prefix, starts_with};

verus! {

/// The configuration of one nested sub-store: the key prefix it owns.
pub struct SubstoreConfig {
    pub prefix: Vec<u8>,
}

/// The declared sub-stores; keys that match none of them belong to the main
/// store.
pub struct MultistoreConfig {
    pub substores: Vec<SubstoreConfig>,
}

/// No prefix is empty and none begins with another, so that a key matches
/// at most one of them.
pub open spec fn disjoint_prefixes(ps: Seq<Seq<u8>>) -> bool {
    &&& forall|i: int| 0 <= i < ps.len() ==> #[trigger] ps[i].len() > 0
    &&& forall|i: int, j: int|
        0 <= i < ps.len() && 0 <= j < ps.len() && i != j ==> !starts_with(#[trigger] ps[i], #[trigger] ps[j])
}

/// The store that `key` belongs to: the index of the prefix it begins with,
/// or `ps.len()` (the main store) if it begins with none.
pub open spec fn route_of(ps: Seq<Seq<u8>>, key: Seq<u8>) -> int {
    if exists|i: int| 0 <= i < ps.len() && starts_with(key, #[trigger] ps[i]) {
        choose|i: int| 0 <= i < ps.len() && starts_with(key, #[trigger] ps[i])
    } else {
        ps.len() as int
    }
}

/// The prefix of store `i`; the main store's is empty.
pub open spec fn prefix_of(ps: Seq<Seq<u8>>, i: int) -> Seq<u8> {
    if 0 <= i < ps.len() {
        ps[i]
    } else {
        Seq::empty()
    }
}

/// `key` with the prefix of its store taken off.
pub open spec fn residual_of(ps: Seq<Seq<u8>>, key: Seq<u8>) -> Seq<u8> {
    key.skip(prefix_of(ps, route_of(ps, key)).len() as int)
}

/// Two prefixes that both begin a key are the same prefix.
proof fn lemma_route_unique(ps: Seq<Seq<u8>>, key: Seq<u8>, i: int)
    requires
        disjoint_prefixes(ps),
        0 <= i < ps.len(),
        starts_with(key, ps[i]),
    ensures
        route_of(ps, key) == i,
{
    let j = route_of(ps, key);
    assert(0 <= j < ps.len() && starts_with(key, ps[j]));
    if j != i {
        if ps[i].len() <= ps[j].len() {
            assert(ps[j].subrange(0, ps[i].len() as int) =~= key.subrange(0, ps[i].len() as int));
            assert(starts_with(ps[j], ps[i]));
        } else {
            assert(ps[i].subrange(0, ps[j].len() as int) =~= key.subrange(0, ps[j].len() as int));
            assert(starts_with(ps[i], ps[j]));
        }
    }
}

/// Every key routes to exactly one store: the sub-store whose prefix it
/// begins with, or the main store when there is none; and the store's prefix
/// followed by the rest of the key gives back the key.
pub proof fn lemma_route_exact(ps: Seq<Seq<u8>>, key: Seq<u8>)
    requires
        disjoint_prefixes(ps),
    ensures
        0 <= route_of(ps, key) <= ps.len(),
        forall|i: int| 0 <= i < ps.len() && starts_with(key, #[trigger] ps[i]) ==> route_of(ps, key) == i,
        route_of(ps, key) == ps.len() <==> forall|i: int| 0 <= i < ps.len() ==> !starts_with(key, #[trigger] ps[i]),
        prefix_of(ps, route_of(ps, key)) + residual_of(ps, key) == key,
{
    assert forall|i: int| 0 <= i < ps.len() && starts_with(key, #[trigger] ps[i]) implies route_of(ps, key) == i by {
        lemma_route_unique(ps, key, i);
    }
    let j = route_of(ps, key);
    if j < ps.len() {
        assert(0 <= j && starts_with(key, ps[j]));
        assert(ps[j] + key.skip(ps[j].len() as int) =~= key);
    } else {
        assert(Seq::<u8>::empty() + key.skip(0) =~= key);
    }
}

impl MultistoreConfig {
    pub open spec fn prefixes(&self) -> Seq<Seq<u8>> {
        self.substores@.map_values(|c: SubstoreConfig| c.prefix@)
    }

    pub open spec fn wf(&self) -> bool {
        disjoint_prefixes(self.prefixes())
    }

    /// A configuration over `prefixes`; `None` if one is empty or begins with
    /// another.
    pub fn new(prefixes: Vec<Vec<u8>>) -> (r: Option<MultistoreConfig>)
        ensures
            r is Some <==> disjoint_prefixes(prefixes@.map_values(|p: Vec<u8>| p@)),
            r matches Some(c) ==> c.wf() && c.prefixes() == prefixes@.map_values(|p: Vec<u8>| p@),
    {
        let ghost ps = prefixes@.map_values(|p: Vec<u8>| p@);
        let n: usize = prefixes.len();
        let mut i: usize = 0;
        while i < n
            invariant
                ps == prefixes@.map_values(|p: Vec<u8>| p@),
                n == ps.len(),
                i <= n,
                forall|a: int| 0 <= a < i ==> #[trigger] ps[a].len() > 0,
                forall|a: int, b: int| 0 <= a < i && 0 <= b < n && a != b ==> !starts_with(#[trigger] ps[a], #[trigger] ps[b]),
            decreases n - i,
        {
            if prefixes[i].len() == 0 {
                assert(ps[i as int] == prefixes@[i as int]@);
                return None;
            }
            let mut j: usize = 0;
            while j < n
                invariant
                    ps == prefixes@.map_values(|p: Vec<u8>| p@),
                    n == ps.len(),
                    i < n,
                    j <= n,
                    forall|b: int| 0 <= b < j && i != b ==> !starts_with(ps[i as int], #[trigger] ps[b]),
                decreases n - j,
            {
                assert(ps[i as int] == prefixes@[i as int]@);
                assert(ps[j as int] == prefixes@[j as int]@);
                if j != i && has_prefix(prefixes[i].as_slice(), prefixes[j].as_slice()) {
                    return None;
                }
                j += 1;
            }
            i += 1;
        }
        let mut substores: Vec<SubstoreConfig> = Vec::new();
        let mut k: usize = 0;
        while k < n
            invariant
                ps == prefixes@.map_values(|p: Vec<u8>| p@),
                n == ps.len(),
                k <= n,
                substores@.len() == k,
                forall|a: int| 0 <= a < k ==> (#[trigger] substores@[a]).prefix@ == ps[a],
            decreases n - k,
        {
            substores.push(SubstoreConfig { prefix: vstd::slice::slice_to_vec(prefixes[k].as_slice()) });
            k += 1;
        }
        let c = MultistoreConfig { substores };
        assert(c.prefixes() =~= ps);
        Some(c)
    }

    /// The number of stores, the main store included.
    pub fn store_count(&self) -> (r: usize)
        requires
            self.substores@.len() < usize::MAX,
        ensures
            r == self.substores@.len() + 1,
    {
        self.substores.len() + 1
    }

    /// The prefix of store `i`; the main store's (`i == substores.len()`) is
    /// empty.
    pub fn prefix(&self, i: usize) -> (r: Vec<u8>)
        requires
            i <= self.substores@.len(),
        ensures
            r@ == prefix_of(self.prefixes(), i as int),
    {
        if i < self.substores.len() {
            vstd::slice::slice_to_vec(self.substores[i].prefix.as_slice())
        } else {
            Vec::new()
        }
    }

    /// The store that `key` belongs to, and `key` with that store's prefix
    /// taken off.
    pub fn route_key_bytes(&self, key: &[u8]) -> (r: (Vec<u8>, usize))
        requires
            self.wf(),
        ensures
            r.1 == route_of(self.prefixes(), key@),
            r.0@ == residual_of(self.prefixes(), key@),
            r.1 <= self.substores@.len(),
    {
        let ghost ps = self.prefixes();
        let mut i: usize = 0;
        while i < self.substores.len()
            invariant
                ps == self.prefixes(),
                disjoint_prefixes(ps),
                i <= ps.len(),
                forall|a: int| 0 <= a < i ==> !starts_with(key@, #[trigger] ps[a]),
            decreases ps.len() - i,
        {
            let p = self.substores[i].prefix.as_slice();
            if has_prefix(key, p) {
                proof {
                    lemma_route_unique(ps, key@, i as int);
                }
                let residual = vstd::slice::slice_to_vec(vstd::slice::slice_subrange(key, p.len(), key.len()));
                assert(residual@ =~= key@.skip(p@.len() as int));
                return (residual, i);
            }
            i += 1;
        }
        assert(key@.skip(0) =~= key@);
        (vstd::slice::slice_to_vec(key), i)
    }
}

} // verus!
