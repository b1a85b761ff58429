use vstd::prelude::*;

use crate::bytes::starts_with;
use crate::column::{
    in_scan, lemma_filter_prefix, lemma_filter_skip, lookup, opt_slice, scan_spec, Column, Entry, Kv,
};
use crate::hashing::key_hash_of;
use crate::snapshot::Snapshot;

verus! {

pub open spec fn opt_vec(o: Option<Vec<u8>>) -> Option<Seq<u8>> {
    match o {
        Some(v) => Some(v@),
        None => None,
    }
}

/// Forward iteration over one column of a pinned sub-store, one pair per
/// step: from `lo`, below `hi` when there is one, ending at the first key
/// that does not begin with `prefix`. A consumer that stops asking stops
/// the scan.
pub struct ScanCursor {
    snap: Snapshot,
    store: usize,
    index: bool,
    lo: Vec<u8>,
    hi: Option<Vec<u8>>,
    prefix: Vec<u8>,
    pos: usize,
    done: bool,
}

impl ScanCursor {
    /// The column walked: the raw-key index or the unauthenticated column.
    pub closed spec fn column(&self) -> Seq<Kv> {
        let st = self.snap.spec_state().substores@[self.store as int];
        if self.index {
            st.keys@
        } else {
            st.nonverifiable@
        }
    }

    /// Whether the cursor walks the raw-key index.
    pub closed spec fn walks_index(&self) -> bool {
        self.index
    }

    /// The tree of the sub-store walked.
    pub closed spec fn tree(&self) -> Seq<Kv> {
        self.snap.spec_state().substores@[self.store as int].tree@
    }

    pub closed spec fn pred(&self) -> spec_fn(Kv) -> bool {
        |kv: Kv| in_scan(self.lo@, opt_vec(self.hi), self.prefix@, kv.0)
    }

    /// Everything the scan yields, in order.
    pub closed spec fn total(&self) -> Seq<Kv> {
        scan_spec(self.column(), self.lo@, opt_vec(self.hi), self.prefix@)
    }

    /// What the scan has yielded so far, in order.
    pub closed spec fn emitted(&self) -> Seq<Kv> {
        self.column().take(self.pos as int).filter(self.pred())
    }

    pub closed spec fn wf(&self) -> bool {
        &&& self.snap.wf()
        &&& self.store <= self.snap.spec_config().substores@.len()
        &&& starts_with(self.lo@, self.prefix@)
        &&& self.pos <= self.column().len()
        &&& self.done ==> forall|k: int| self.pos <= k < self.column().len() ==> !(self.pred())(#[trigger] self.column()[k])
    }

    /// A cursor at the start of the scan of store `store` of `snap`.
    pub(crate) fn new(snap: Snapshot, store: usize, index: bool, lo: Vec<u8>, hi: Option<Vec<u8>>, prefix: Vec<u8>) -> (r: ScanCursor)
        requires
            snap.wf(),
            store <= snap.spec_config().substores@.len(),
            starts_with(lo@, prefix@),
        ensures
            r.wf(),
            r.walks_index() == index,
            r.tree() == snap.spec_state().substores@[store as int].tree@,
            r.emitted() == Seq::<Kv>::empty(),
            r.total() == scan_spec(
                if index { snap.spec_state().substores@[store as int].keys@ } else { snap.spec_state().substores@[store as int].nonverifiable@ },
                lo@,
                opt_vec(hi),
                prefix@,
            ),
    {
        let r = ScanCursor { snap, store, index, lo, hi, prefix, pos: 0, done: false };
        proof {
            reveal_with_fuel(Seq::filter, 1);
            assert(r.column().take(0) =~= Seq::<Kv>::empty());
        }
        r
    }

    fn walked(&self) -> (r: &Column)
        requires
            self.wf(),
        ensures
            r@ == self.column(),
            r.wf(),
    {
        let st = self.snap.substore(self.store);
        if self.index {
            &st.keys
        } else {
            &st.nonverifiable
        }
    }

    /// The next pair of the scan, or `None` once it is over.
    pub fn next(&mut self) -> (r: Option<Entry>)
        requires
            old(self).wf(),
        ensures
            final(self).wf(),
            final(self).total() == old(self).total(),
            final(self).walks_index() == old(self).walks_index(),
            final(self).tree() == old(self).tree(),
            r matches Some(e) ==> final(self).emitted() == old(self).emitted().push(e@),
            r matches Some(e) ==> exists|j: int| 0 <= j < old(self).column().len() && #[trigger] old(self).column()[j] == e@,
            r is None ==> final(self).emitted() == old(self).emitted() && old(self).emitted() == old(self).total(),
    {
        let ghost s = self.column();
        let ghost pred = self.pred();
        if self.done {
            proof {
                lemma_filter_prefix(s, pred, self.pos as int);
            }
            return None;
        }
        let hi: Option<&[u8]> = match &self.hi {
            Some(h) => Some(h.as_slice()),
            None => None,
        };
        assert(opt_slice(hi) == opt_vec(self.hi));
        let column = self.walked();
        match column.next_match(self.pos, self.lo.as_slice(), hi, self.prefix.as_slice()) {
            Some(j) => {
                let n: usize = column.entries.len();
                assert(j < n);
                let e = column.entries[j].duplicate();
                proof {
                    assert(column@[j as int] == e@);
                    lemma_filter_skip(s, pred, self.pos as int, j as int);
                    reveal_with_fuel(Seq::filter, 1);
                    assert(s.take(j + 1).drop_last() =~= s.take(j as int));
                }
                self.pos = j + 1;
                Some(e)
            },
            None => {
                proof {
                    lemma_filter_prefix(s, pred, self.pos as int);
                }
                self.done = true;
                None
            },
        }
    }
}

/// A prefix scan of a sub-store's raw-key index that fetches each key's
/// value from the tree, one pair per step.
pub struct PrefixCursor {
    keys: ScanCursor,
    store_prefix: Vec<u8>,
}

impl PrefixCursor {
    pub closed spec fn wf(&self) -> bool {
        self.keys.wf() && self.keys.index
    }

    /// The index pairs the scan walks, in order.
    pub closed spec fn total_keys(&self) -> Seq<Kv> {
        self.keys.total()
    }

    /// The index pairs walked so far, in order.
    pub closed spec fn emitted_keys(&self) -> Seq<Kv> {
        self.keys.emitted()
    }

    /// The prefix put back in front of each key.
    pub closed spec fn key_prefix(&self) -> Seq<u8> {
        self.store_prefix@
    }

    /// The tree the values come from.
    pub closed spec fn tree(&self) -> Seq<Kv> {
        self.keys.tree()
    }

    pub(crate) fn new(keys: ScanCursor, store_prefix: Vec<u8>) -> (r: PrefixCursor)
        requires
            keys.wf(),
            keys.walks_index(),
        ensures
            r.wf(),
            r.total_keys() == keys.total(),
            r.emitted_keys() == keys.emitted(),
            r.key_prefix() == store_prefix@,
            r.tree() == keys.tree(),
    {
        PrefixCursor { keys, store_prefix }
    }

    /// The next key (with the sub-store's prefix) and its value from the
    /// tree; `None` once the scan is over.
    pub fn next(&mut self) -> (r: Option<Entry>)
        requires
            old(self).wf(),
        ensures
            final(self).wf(),
            final(self).total_keys() == old(self).total_keys(),
            final(self).tree() == old(self).tree(),
            final(self).key_prefix() == old(self).key_prefix(),
            r is None ==> final(self).emitted_keys() == old(self).emitted_keys()
                && old(self).emitted_keys() == old(self).total_keys(),
            r is Some ==> final(self).emitted_keys().len() == old(self).emitted_keys().len() + 1
                && final(self).emitted_keys().drop_last() == old(self).emitted_keys(),
            r matches Some(e) ==> {
                let k = final(self).emitted_keys().last().0;
                &&& lookup(old(self).tree(), key_hash_of(k)) is Some
                &&& e@ == (old(self).key_prefix() + k, lookup(old(self).tree(), key_hash_of(k))->0)
            },
    {
        let ghost st = self.keys.snap.spec_state().substores@[self.keys.store as int];
        match self.keys.next() {
            None => None,
            Some(e) => {
                let ghost before = old(self).emitted_keys();
                assert(self.emitted_keys().drop_last() =~= before);
                let st_ref = self.keys.snap.substore(self.keys.store);
                proof {
                    let j = choose|j: int| 0 <= j < st.keys@.len() && #[trigger] st.keys@[j] == e@;
                    assert(st.wf());
                    assert(lookup(st.tree@, key_hash_of(st.keys@[j].0)) is Some);
                }
                match st_ref.get(e.key.as_slice()) {
                    None => None,
                    Some(v) => Some(Entry { key: crate::bytes::concat(self.store_prefix.as_slice(), e.key.as_slice()), value: v }),
                }
            },
        }
    }

    /// The next key (with the sub-store's prefix), without its value; `None`
    /// once the scan is over.
    pub fn next_key(&mut self) -> (r: Option<Vec<u8>>)
        requires
            old(self).wf(),
        ensures
            final(self).wf(),
            final(self).total_keys() == old(self).total_keys(),
            final(self).tree() == old(self).tree(),
            final(self).key_prefix() == old(self).key_prefix(),
            r is None ==> final(self).emitted_keys() == old(self).emitted_keys()
                && old(self).emitted_keys() == old(self).total_keys(),
            r matches Some(k) ==> final(self).emitted_keys().len() == old(self).emitted_keys().len() + 1
                && final(self).emitted_keys().drop_last() == old(self).emitted_keys()
                && k@ == old(self).key_prefix() + final(self).emitted_keys().last().0,
    {
        match self.keys.next() {
            None => None,
            Some(e) => {
                let ghost before = old(self).emitted_keys();
                assert(self.emitted_keys().drop_last() =~= before);
                Some(crate::bytes::concat(self.store_prefix.as_slice(), e.key.as_slice()))
            },
        }
    }
}

} // verus!
