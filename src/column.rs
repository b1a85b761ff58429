use vstd::prelude::*;

use crate::bytes::{has_prefix, lemma_lex_irreflexive, lemma_lex_total, lemma_lex_transitive,
    lemma_prefix_block, lex_le, lex_less, lex_lt, starts_with};

verus! {

/// A key and its value, both as bytes.
pub type Kv = (Seq<u8>, Seq<u8>);

/// One stored pair of a column.
pub struct Entry {
    pub key: Vec<u8>,
    pub value: Vec<u8>,
}

impl Entry {
    pub open spec fn view(&self) -> Kv {
        (self.key@, self.value@)
    }

    /// A copy of this entry.
    pub fn duplicate(&self) -> (r: Entry)
        ensures
            r@ == self@,
    {
        Entry {
            key: vstd::slice::slice_to_vec(self.key.as_slice()),
            value: vstd::slice::slice_to_vec(self.value.as_slice()),
        }
    }
}

/// The pairs a sequence of entries holds, in order.
pub open spec fn entries_view(v: Seq<Entry>) -> Seq<Kv> {
    v.map_values(|e: Entry| e@)
}

/// Keys strictly ascending in byte-lexicographic order (hence unique).
pub open spec fn sorted(s: Seq<Kv>) -> bool {
    forall|i: int, j: int| 0 <= i < j < s.len() ==> lex_lt(#[trigger] s[i].0, #[trigger] s[j].0)
}

/// The value stored under `k`, if any.
pub open spec fn lookup(s: Seq<Kv>, k: Seq<u8>) -> Option<Seq<u8>>
    decreases s.len(),
{
    if s.len() == 0 {
        None
    } else if s.last().0 == k {
        Some(s.last().1)
    } else {
        lookup(s.drop_last(), k)
    }
}

/// What forward iteration from `lo` yields for key `k`: `k` is at least `lo`,
/// below `hi` when there is one, and begins with `prefix`.
pub open spec fn in_scan(lo: Seq<u8>, hi: Option<Seq<u8>>, prefix: Seq<u8>, k: Seq<u8>) -> bool {
    &&& lex_le(lo, k)
    &&& match hi {
        Some(h) => lex_lt(k, h),
        None => true,
    }
    &&& starts_with(k, prefix)
}

/// The pairs of `s` that a scan yields, in the order of `s`.
pub open spec fn scan_spec(s: Seq<Kv>, lo: Seq<u8>, hi: Option<Seq<u8>>, prefix: Seq<u8>) -> Seq<Kv> {
    s.filter(|kv: Kv| in_scan(lo, hi, prefix, kv.0))
}

pub open spec fn opt_bytes(o: Option<Vec<u8>>) -> Option<Seq<u8>> {
    match o {
        Some(v) => Some(v@),
        None => None,
    }
}

pub open spec fn opt_slice(o: Option<&[u8]>) -> Option<Seq<u8>> {
    match o {
        Some(v) => Some(v@),
        None => None,
    }
}

/// Filtering a sequence whose elements from `i` on all fail the predicate
/// gives what filtering its first `i` elements gives.
pub proof fn lemma_filter_prefix(s: Seq<Kv>, pred: spec_fn(Kv) -> bool, i: int)
    requires
        0 <= i <= s.len(),
        forall|j: int| i <= j < s.len() ==> !pred(#[trigger] s[j]),
    ensures
        s.filter(pred) == s.take(i).filter(pred),
    decreases s.len() - i,
{
    if i < s.len() {
        reveal_with_fuel(Seq::filter, 1);
        assert(s.take(i + 1).drop_last() =~= s.take(i));
        lemma_filter_prefix(s, pred, i + 1);
    } else {
        assert(s.take(i) =~= s);
    }
}

/// Skipping elements that fail the predicate leaves the filter unchanged.
pub proof fn lemma_filter_skip(s: Seq<Kv>, pred: spec_fn(Kv) -> bool, a: int, b: int)
    requires
        0 <= a <= b <= s.len(),
        forall|k: int| a <= k < b ==> !pred(#[trigger] s[k]),
    ensures
        s.take(b).filter(pred) == s.take(a).filter(pred),
    decreases b - a,
{
    if a < b {
        reveal_with_fuel(Seq::filter, 1);
        assert(s.take(b).drop_last() =~= s.take(b - 1));
        assert(s.take(b).last() == s[b - 1]);
        lemma_filter_skip(s, pred, a, b - 1);
    }
}

/// Every element of a filtered sequence is an element of the sequence.
pub proof fn lemma_filter_member(s: Seq<Kv>, pred: spec_fn(Kv) -> bool, i: int)
    requires
        0 <= i < s.filter(pred).len(),
    ensures
        exists|j: int| 0 <= j < s.len() && s[j] == s.filter(pred)[i],
    decreases s.len(),
{
    reveal_with_fuel(Seq::filter, 1);
    if s.len() > 0 {
        let f0 = s.drop_last().filter(pred);
        if i < f0.len() {
            lemma_filter_member(s.drop_last(), pred, i);
            let j = choose|j: int| 0 <= j < s.drop_last().len() && s.drop_last()[j] == f0[i];
            assert(s[j] == s.drop_last()[j]);
        } else {
            assert(s[s.len() - 1] == s.filter(pred)[i]);
        }
    }
}

/// Filtering keeps keys in ascending order.
pub proof fn lemma_filter_sorted(s: Seq<Kv>, pred: spec_fn(Kv) -> bool)
    requires
        sorted(s),
    ensures
        sorted(s.filter(pred)),
    decreases s.len(),
{
    reveal_with_fuel(Seq::filter, 1);
    if s.len() > 0 {
        let d = s.drop_last();
        assert(sorted(d)) by {
            assert forall|i: int, j: int| 0 <= i < j < d.len() implies lex_lt(#[trigger] d[i].0, #[trigger] d[j].0) by {
                assert(d[i] == s[i] && d[j] == s[j]);
            }
        }
        lemma_filter_sorted(d, pred);
        let f0 = d.filter(pred);
        if pred(s.last()) {
            assert forall|i: int| 0 <= i < f0.len() implies lex_lt(#[trigger] f0[i].0, s.last().0) by {
                lemma_filter_member(d, pred, i);
                let j = choose|j: int| 0 <= j < d.len() && d[j] == f0[i];
                assert(s[j] == d[j]);
                assert(lex_lt(s[j].0, s[s.len() - 1].0));
            }
            let f = f0.push(s.last());
            assert forall|i: int, j: int| 0 <= i < j < f.len() implies lex_lt(#[trigger] f[i].0, #[trigger] f[j].0) by {
                if j == f.len() - 1 {
                    assert(f[i] == f0[i]);
                } else {
                    assert(f[i] == f0[i] && f[j] == f0[j]);
                }
            }
        }
    }
}

/// A sorted column of pairs, as one pinned view of the database holds it.
pub struct Column {
    pub entries: Vec<Entry>,
}

impl Column {
    pub open spec fn view(&self) -> Seq<Kv> {
        entries_view(self.entries@)
    }

    pub open spec fn wf(&self) -> bool {
        sorted(self@)
    }

    /// A column holding nothing.
    pub fn empty() -> (r: Column)
        ensures
            r.wf(),
            r@ == Seq::<Kv>::empty(),
    {
        let r = Column { entries: Vec::new() };
        assert(r@ =~= Seq::<Kv>::empty());
        r
    }

    /// A column over `entries`, which must come in strictly ascending key order.
    pub fn new(entries: Vec<Entry>) -> (r: Option<Column>)
        ensures
            r is Some <==> sorted(entries_view(entries@)),
            r matches Some(c) ==> c.wf() && c@ == entries_view(entries@),
    {
        let c = Column { entries };
        if c.is_sorted() {
            Some(c)
        } else {
            None
        }
    }

    /// Whether the keys come in strictly ascending order.
    pub fn is_sorted(&self) -> (r: bool)
        ensures
            r == self.wf(),
    {
        let ghost s = self@;
        let mut i: usize = 1;
        while i < self.entries.len()
            invariant
                s == self@,
                1 <= i,
                forall|a: int, b: int| 0 <= a < b < i && b < s.len() ==> lex_lt(#[trigger] s[a].0, #[trigger] s[b].0),
            decreases s.len() - i,
        {
            if !lex_less(self.entries[i - 1].key.as_slice(), self.entries[i].key.as_slice()) {
                assert(!sorted(s)) by {
                    assert(s[i - 1].0 == self.entries@[i - 1].key@);
                    assert(s[i as int].0 == self.entries@[i as int].key@);
                }
                return false;
            }
            proof {
                assert forall|a: int, b: int| 0 <= a < b < i + 1 && b < s.len() implies lex_lt(#[trigger] s[a].0, #[trigger] s[b].0) by {
                    if b == i && a < i - 1 {
                        lemma_lex_transitive(s[a].0, s[i - 1].0, s[b].0);
                    }
                }
            }
            i += 1;
        }
        true
    }

    pub fn len(&self) -> (r: usize)
        ensures
            r == self@.len(),
    {
        self.entries.len()
    }

    /// The value stored under `key`, if any.
    pub fn get(&self, key: &[u8]) -> (r: Option<Vec<u8>>)
        ensures
            opt_bytes(r) == lookup(self@, key@),
    {
        let ghost s = self@;
        let mut i: usize = self.entries.len();
        assert(s.take(i as int) =~= s);
        while i > 0
            invariant
                s == self@,
                i <= s.len(),
                lookup(s, key@) == lookup(s.take(i as int), key@),
            decreases i,
        {
            let e = &self.entries[i - 1];
            assert(s.take(i as int).drop_last() =~= s.take(i - 1));
            if e.key.as_slice().len() == key.len() && has_prefix(e.key.as_slice(), key) {
                assert(e.key@ =~= key@);
                return Some(vstd::slice::slice_to_vec(e.value.as_slice()));
            }
            proof {
                if e.key@ == key@ {
                    assert(starts_with(e.key@, key@)) by {
                        assert(e.key@.subrange(0, key@.len() as int) =~= e.key@);
                    }
                }
            }
            i -= 1;
        }
        None
    }

    /// From position `pos`, the position of the next pair that forward
    /// iteration from `lo` yields (key at least `lo`, below `hi`, beginning
    /// with `prefix`), or `None` when iteration ends there.
    pub fn next_match(&self, pos: usize, lo: &[u8], hi: Option<&[u8]>, prefix: &[u8]) -> (r: Option<usize>)
        requires
            self.wf(),
            starts_with(lo@, prefix@),
            pos <= self@.len(),
        ensures
            match r {
                Some(j) => {
                    &&& pos <= j < self@.len()
                    &&& in_scan(lo@, opt_slice(hi), prefix@, self@[j as int].0)
                    &&& forall|k: int| pos <= k < j ==> !in_scan(lo@, opt_slice(hi), prefix@, #[trigger] self@[k].0)
                },
                None => forall|k: int| pos <= k < self@.len() ==> !in_scan(lo@, opt_slice(hi), prefix@, #[trigger] self@[k].0),
            },
    {
        let ghost s = self@;
        let ghost hs = opt_slice(hi);
        let mut i: usize = pos;
        while i < self.entries.len()
            invariant
                s == self@,
                hs == opt_slice(hi),
                sorted(s),
                starts_with(lo@, prefix@),
                pos <= i <= s.len(),
                forall|k: int| pos <= k < i ==> !in_scan(lo@, hs, prefix@, #[trigger] s[k].0),
            decreases s.len() - i,
        {
            let e = &self.entries[i];
            assert(s[i as int] == e@);
            if lex_less(e.key.as_slice(), lo) {
                proof {
                    lemma_lex_irreflexive(e.key@);
                    if lex_lt(lo@, e.key@) {
                        lemma_lex_transitive(lo@, e.key@, lo@);
                        lemma_lex_irreflexive(lo@);
                    }
                }
                i += 1;
            } else {
                proof {
                    lemma_lex_total(e.key@, lo@);
                }
                let below_hi = match hi {
                    Some(h) => lex_less(e.key.as_slice(), h),
                    None => true,
                };
                if !below_hi {
                    proof {
                        let h = hs->0;
                        assert forall|j: int| i < j < s.len() implies !in_scan(lo@, hs, prefix@, #[trigger] s[j].0) by {
                            assert(lex_lt(s[i as int].0, s[j].0));
                            lemma_lex_total(e.key@, h);
                            if lex_lt(s[j].0, h) {
                                if e.key@ != h {
                                    lemma_lex_transitive(h, e.key@, s[j].0);
                                }
                                lemma_lex_transitive(h, s[j].0, h);
                                lemma_lex_irreflexive(h);
                            }
                        }
                    }
                    return None;
                } else if !has_prefix(e.key.as_slice(), prefix) {
                    proof {
                        assert forall|j: int| i < j < s.len() implies !in_scan(lo@, hs, prefix@, #[trigger] s[j].0) by {
                            assert(lex_lt(s[i as int].0, s[j].0));
                            if starts_with(s[j].0, prefix@) {
                                lemma_prefix_block(lo@, e.key@, s[j].0, prefix@);
                            }
                        }
                    }
                    return None;
                } else {
                    return Some(i);
                }
            }
        }
        None
    }

    /// Forward iteration from `lo`: the pairs with key at least `lo` and below
    /// `hi`, in key order, ending at the first key that does not begin with
    /// `prefix`.
    pub fn scan(&self, lo: &[u8], hi: Option<&[u8]>, prefix: &[u8]) -> (r: Vec<Entry>)
        requires
            self.wf(),
            starts_with(lo@, prefix@),
        ensures
            entries_view(r@) == scan_spec(self@, lo@, opt_slice(hi), prefix@),
    {
        let ghost s = self@;
        let ghost pred = |kv: Kv| in_scan(lo@, opt_slice(hi), prefix@, kv.0);
        let mut out: Vec<Entry> = Vec::new();
        let mut pos: usize = 0;
        loop
            invariant
                s == self@,
                pred == (|kv: Kv| in_scan(lo@, opt_slice(hi), prefix@, kv.0)),
                self.wf(),
                starts_with(lo@, prefix@),
                pos <= s.len(),
                entries_view(out@) == s.take(pos as int).filter(pred),
            decreases s.len() - pos,
        {
            match self.next_match(pos, lo, hi, prefix) {
                Some(j) => {
                    let n: usize = self.entries.len();
                    assert(j < n);
                    proof {
                        lemma_filter_skip(s, pred, pos as int, j as int);
                        reveal_with_fuel(Seq::filter, 1);
                        assert(s.take(j + 1).drop_last() =~= s.take(j as int));
                    }
                    let ghost before = out@;
                    out.push(self.entries[j].duplicate());
                    assert(entries_view(out@) =~= entries_view(before).push(s[j as int]));
                    pos = j + 1;
                },
                None => {
                    proof {
                        lemma_filter_prefix(s, pred, pos as int);
                    }
                    return out;
                },
            }
        }
    }
}

} // verus!
