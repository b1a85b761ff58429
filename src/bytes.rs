use vstd::prelude::*;

verus! {

/// `k` begins with `p`.
pub open spec fn starts_with(k: Seq<u8>, p: Seq<u8>) -> bool {
    p.len() <= k.len() && k.subrange(0, p.len() as int) == p
}

/// Strict byte-lexicographic order, the order in which the columns are kept.
pub open spec fn lex_lt(a: Seq<u8>, b: Seq<u8>) -> bool
    decreases a.len(),
{
    if a.len() == 0 {
        b.len() > 0
    } else if b.len() == 0 {
        false
    } else if a[0] != b[0] {
        a[0] < b[0]
    } else {
        lex_lt(a.drop_first(), b.drop_first())
    }
}

pub open spec fn lex_le(a: Seq<u8>, b: Seq<u8>) -> bool {
    a == b || lex_lt(a, b)
}

pub proof fn lemma_lex_irreflexive(a: Seq<u8>)
    ensures
        !lex_lt(a, a),
    decreases a.len(),
{
    if a.len() > 0 {
        lemma_lex_irreflexive(a.drop_first());
    }
}

pub proof fn lemma_lex_transitive(a: Seq<u8>, b: Seq<u8>, c: Seq<u8>)
    requires
        lex_lt(a, b),
        lex_lt(b, c),
    ensures
        lex_lt(a, c),
    decreases a.len(),
{
    if a.len() > 0 && b.len() > 0 && c.len() > 0 && a[0] == b[0] && b[0] == c[0] {
        lemma_lex_transitive(a.drop_first(), b.drop_first(), c.drop_first());
    }
}

/// Exactly one of `a < b`, `a == b`, `b < a` holds.
pub proof fn lemma_lex_total(a: Seq<u8>, b: Seq<u8>)
    ensures
        lex_lt(a, b) || a == b || lex_lt(b, a),
    decreases a.len(),
{
    if a.len() > 0 && b.len() > 0 && a[0] == b[0] {
        lemma_lex_total(a.drop_first(), b.drop_first());
        if a.drop_first() == b.drop_first() {
            assert(a =~= seq![a[0]] + a.drop_first());
            assert(b =~= seq![b[0]] + b.drop_first());
        }
    } else if a.len() == 0 && b.len() == 0 {
        assert(a =~= b);
    }
}

/// Between two keys that begin with `p`, every key begins with `p`.
pub proof fn lemma_prefix_block(lo: Seq<u8>, k: Seq<u8>, hi: Seq<u8>, p: Seq<u8>)
    requires
        starts_with(lo, p),
        starts_with(hi, p),
        lex_le(lo, k),
        lex_lt(k, hi),
    ensures
        starts_with(k, p),
    decreases p.len(),
{
    if p.len() == 0 {
        assert(k.subrange(0, 0) =~= p);
        return;
    }
    if lo == k {
        return;
    }
    assert(lo[0] == p[0]);
    assert(hi[0] == p[0]);
    if k.len() == 0 {
        return;
    }
    assert(k[0] == p[0]);
    assert(lo.drop_first().subrange(0, p.len() - 1) =~= p.drop_first());
    assert(hi.drop_first().subrange(0, p.len() - 1) =~= p.drop_first());
    if lo.drop_first() == k.drop_first() {
        assert(lo =~= seq![lo[0]] + lo.drop_first());
        assert(k =~= seq![k[0]] + k.drop_first());
    }
    lemma_prefix_block(lo.drop_first(), k.drop_first(), hi.drop_first(), p.drop_first());
    assert(k.subrange(0, p.len() as int) =~= seq![k[0]] + k.drop_first().subrange(0, p.len() - 1));
    assert(p =~= seq![p[0]] + p.drop_first());
}

/// `p` is no greater than any key that begins with it.
pub proof fn lemma_prefix_le(k: Seq<u8>, p: Seq<u8>)
    requires
        starts_with(k, p),
    ensures
        lex_le(p, k),
    decreases p.len(),
{
    if p.len() == 0 {
        if k.len() == 0 {
            assert(k =~= p);
        }
    } else {
        assert(k.drop_first().subrange(0, p.len() - 1) =~= p.drop_first());
        lemma_prefix_le(k.drop_first(), p.drop_first());
        if p.drop_first() == k.drop_first() {
            assert(p =~= seq![p[0]] + p.drop_first());
            assert(k =~= seq![k[0]] + k.drop_first());
        }
    }
}

/// Whether `key` begins with `prefix`.
pub fn has_prefix(key: &[u8], prefix: &[u8]) -> (r: bool)
    ensures
        r == starts_with(key@, prefix@),
{
    if prefix.len() > key.len() {
        return false;
    }
    let mut i: usize = 0;
    while i < prefix.len()
        invariant
            prefix@.len() <= key@.len(),
            i <= prefix@.len(),
            forall|j: int| 0 <= j < i ==> key@[j] == prefix@[j],
        decreases prefix@.len() - i,
    {
        if key[i] != prefix[i] {
            assert(key@.subrange(0, prefix@.len() as int)[i as int] != prefix@[i as int]);
            return false;
        }
        i += 1;
    }
    assert(key@.subrange(0, prefix@.len() as int) =~= prefix@);
    true
}

/// Whether `a` comes strictly before `b` in byte-lexicographic order.
pub fn lex_less(a: &[u8], b: &[u8]) -> (r: bool)
    ensures
        r == lex_lt(a@, b@),
{
    let mut i: usize = 0;
    assert(a@.skip(0) =~= a@);
    assert(b@.skip(0) =~= b@);
    while i < a.len() && i < b.len() && a[i] == b[i]
        invariant
            i <= a@.len(),
            i <= b@.len(),
            lex_lt(a@, b@) == lex_lt(a@.skip(i as int), b@.skip(i as int)),
        decreases a@.len() - i,
    {
        proof {
            let (sa, sb) = (a@.skip(i as int), b@.skip(i as int));
            assert(sa.drop_first() =~= a@.skip(i + 1));
            assert(sb.drop_first() =~= b@.skip(i + 1));
        }
        i += 1;
    }
    if i == a.len() {
        i < b.len()
    } else if i == b.len() {
        false
    } else {
        a[i] < b[i]
    }
}

/// Whether `a` and `b` hold the same bytes.
pub fn bytes_eq(a: &[u8], b: &[u8]) -> (r: bool)
    ensures
        r == (a@ == b@),
{
    if a.len() != b.len() {
        return false;
    }
    let r = has_prefix(a, b);
    proof {
        assert(a@.subrange(0, b@.len() as int) =~= a@);
        if a@ == b@ {
            assert(starts_with(a@, b@));
        }
    }
    r
}

/// Putting the same bytes in front of two keys keeps their order.
pub proof fn lemma_lex_prepend(p: Seq<u8>, a: Seq<u8>, b: Seq<u8>)
    requires
        lex_lt(a, b),
    ensures
        lex_lt(p + a, p + b),
    decreases p.len(),
{
    if p.len() > 0 {
        lemma_lex_prepend(p.drop_first(), a, b);
        assert((p + a).drop_first() =~= p.drop_first() + a);
        assert((p + b).drop_first() =~= p.drop_first() + b);
    } else {
        assert(p + a =~= a);
        assert(p + b =~= b);
    }
}

/// `a` followed by `b`.
pub fn concat(a: &[u8], b: &[u8]) -> (r: Vec<u8>)
    ensures
        r@ == a@ + b@,
{
    let mut r = vstd::slice::slice_to_vec(a);
    r.extend_from_slice(b);
    assert(r@ =~= a@ + b@);
    r
}

} // verus!
