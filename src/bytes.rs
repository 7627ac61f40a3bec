//! Byte-string order and prefix tests used by key selectors.

use vstd::prelude::*;

verus! {

/// Strict lexicographic order on byte strings (a proper prefix sorts first).
pub open spec fn lex_lt(a: Seq<u8>, b: Seq<u8>) -> bool
    decreases a.len(),
{
    if b.len() == 0 {
        false
    } else if a.len() == 0 {
        true
    } else if a[0] != b[0] {
        a[0] < b[0]
    } else {
        lex_lt(a.drop_first(), b.drop_first())
    }
}

pub proof fn lemma_lex_irreflexive(a: Seq<u8>)
    ensures
        !lex_lt(a, a),
    decreases a.len(),
{
    if a.len() > 0 {
        lemma_lex_irreflexive(a.drop_first());
    }
}

pub proof fn lemma_lex_asymmetric(a: Seq<u8>, b: Seq<u8>)
    ensures
        !(lex_lt(a, b) && lex_lt(b, a)),
    decreases a.len(),
{
    if a.len() > 0 && b.len() > 0 && a[0] == b[0] {
        lemma_lex_asymmetric(a.drop_first(), b.drop_first());
    }
}

pub proof fn lemma_lex_transitive(a: Seq<u8>, b: Seq<u8>, c: Seq<u8>)
    requires
        lex_lt(a, b),
        lex_lt(b, c),
    ensures
        lex_lt(a, c),
    decreases a.len(),
{
    if a.len() > 0 && a[0] == b[0] && b[0] == c[0] {
        lemma_lex_transitive(a.drop_first(), b.drop_first(), c.drop_first());
    }
}

pub proof fn lemma_lex_total(a: Seq<u8>, b: Seq<u8>)
    ensures
        a == b || lex_lt(a, b) || lex_lt(b, a),
    decreases a.len(),
{
    if a.len() > 0 && b.len() > 0 && a[0] == b[0] {
        lemma_lex_total(a.drop_first(), b.drop_first());
        if a.drop_first() == b.drop_first() {
            assert(a =~= seq![a[0]] + a.drop_first());
            assert(b =~= seq![b[0]] + b.drop_first());
        }
    } else if a.len() == 0 && b.len() == 0 {
        assert(a =~= b);
    }
}

/// The outcome of comparing two byte strings.
#[derive(PartialEq, Eq, Structural, Clone, Copy, Debug)]
pub enum KeyOrder {
    Less,
    Equal,
    Greater,
}

/// Compares two byte strings in lexicographic order.
pub fn compare_bytes(a: &[u8], b: &[u8]) -> (r: KeyOrder)
    ensures
        r == KeyOrder::Less <==> lex_lt(a@, b@),
        r == KeyOrder::Equal <==> a@ == b@,
        r == KeyOrder::Greater <==> lex_lt(b@, a@),
{
    let mut i: usize = 0;
    assert(a@.skip(0) =~= a@);
    assert(b@.skip(0) =~= b@);
    while i < a.len() && i < b.len() && a[i] == b[i]
        invariant
            0 <= i <= a@.len(),
            i <= b@.len(),
            a@.take(i as int) == b@.take(i as int),
            lex_lt(a@, b@) == lex_lt(a@.skip(i as int), b@.skip(i as int)),
            lex_lt(b@, a@) == lex_lt(b@.skip(i as int), a@.skip(i as int)),
        decreases a@.len() - i,
    {
        assert(a@.skip(i as int).drop_first() =~= a@.skip(i + 1));
        assert(b@.skip(i as int).drop_first() =~= b@.skip(i + 1));
        assert(a@.take(i + 1) =~= a@.take(i as int).push(a@[i as int]));
        assert(b@.take(i + 1) =~= b@.take(i as int).push(b@[i as int]));
        i = i + 1;
    }
    proof {
        lemma_lex_irreflexive(a@);
        lemma_lex_asymmetric(a@, b@);
        lemma_lex_total(a@, b@);
    }
    if i < a.len() && i < b.len() {
        if a[i] < b[i] {
            assert(a@.skip(i as int)[0] == a@[i as int]);
            assert(b@.skip(i as int)[0] == b@[i as int]);
            KeyOrder::Less
        } else {
            assert(a@.skip(i as int)[0] == a@[i as int]);
            assert(b@.skip(i as int)[0] == b@[i as int]);
            KeyOrder::Greater
        }
    } else if i == a.len() && i == b.len() {
        assert(a@ =~= a@.take(i as int));
        assert(b@ =~= b@.take(i as int));
        KeyOrder::Equal
    } else if i == a.len() {
        assert(a@.skip(i as int).len() == 0);
        assert(b@.skip(i as int).len() > 0);
        KeyOrder::Less
    } else {
        assert(a@.skip(i as int).len() > 0);
        assert(b@.skip(i as int).len() == 0);
        KeyOrder::Greater
    }
}

/// Whether `prefix` is a prefix of `key`.
pub fn has_prefix(key: &[u8], prefix: &[u8]) -> (r: bool)
    ensures
        r == prefix@.is_prefix_of(key@),
{
    if prefix.len() > key.len() {
        return false;
    }
    let mut i: usize = 0;
    while i < prefix.len()
        invariant
            prefix@.len() <= key@.len(),
            0 <= i <= prefix@.len(),
            forall|j: int| 0 <= j < i ==> prefix@[j] == key@[j],
        decreases prefix@.len() - i,
    {
        if prefix[i] != key[i] {
            return false;
        }
        i = i + 1;
    }
    assert(prefix@ =~= key@.subrange(0, prefix@.len() as int));
    true
}

/// Copies a byte string.
pub fn copy_bytes(v: &[u8]) -> (r: Vec<u8>)
    ensures
        r@ == v@,
{
    let mut r: Vec<u8> = Vec::new();
    let mut i: usize = 0;
    while i < v.len()
        invariant
            0 <= i <= v@.len(),
            r@ == v@.take(i as int),
        decreases v@.len() - i,
    {
        r.push(v[i]);
        assert(v@.take(i + 1) =~= v@.take(i as int).push(v@[i as int]));
        i = i + 1;
    }
    assert(v@.take(v@.len() as int) =~= v@);
    r
}

/// The least byte string above every string that starts with `p`: `p`
/// without its trailing 0xff bytes, last byte raised by one. None when no
/// such string exists (`p` empty or all 0xff).
pub open spec fn prefix_upper(p: Seq<u8>) -> Option<Seq<u8>>
    decreases p.len(),
{
    if p.len() == 0 {
        None
    } else if p.last() < 255 {
        Some(p.drop_last().push((p.last() + 1) as u8))
    } else {
        prefix_upper(p.drop_last())
    }
}

proof fn lemma_prefix_not_below(p: Seq<u8>, k: Seq<u8>)
    requires
        p.is_prefix_of(k),
    ensures
        !lex_lt(k, p),
    decreases p.len(),
{
    if p.len() > 0 {
        assert(k[0] == p[0]);
        assert(p.drop_first().is_prefix_of(k.drop_first())) by {
            assert forall|i: int| 0 <= i < p.len() - 1 implies p.drop_first()[i] == k.drop_first()[i] by {
                assert(p[i + 1] == k[i + 1]);
            }
            assert(p.drop_first() =~= k.drop_first().subrange(0, p.len() - 1)) by {
                assert forall|i: int| 0 <= i < p.len() - 1 implies p.drop_first()[i] == k.drop_first().subrange(0, p.len() - 1)[i] by {
                    assert(k.subrange(0, p.len() as int)[i + 1] == k[i + 1]);
                }
            }
        }
        lemma_prefix_not_below(p.drop_first(), k.drop_first());
    }
}

proof fn lemma_common_prefix(q: Seq<u8>, x: Seq<u8>, y: Seq<u8>)
    ensures
        lex_lt(q + x, q + y) == lex_lt(x, y),
    decreases q.len(),
{
    if q.len() > 0 {
        assert((q + x).drop_first() =~= q.drop_first() + x);
        assert((q + y).drop_first() =~= q.drop_first() + y);
        lemma_common_prefix(q.drop_first(), x, y);
    } else {
        assert(q + x =~= x);
        assert(q + y =~= y);
    }
}

proof fn lemma_decided_within(q: Seq<u8>, k: Seq<u8>, x: Seq<u8>, y: Seq<u8>)
    requires
        !q.is_prefix_of(k),
    ensures
        lex_lt(k, q + x) == lex_lt(k, q + y),
    decreases q.len(),
{
    if q.len() == 0 {
        assert(q =~= k.subrange(0, 0));
    } else if k.len() > 0 && k[0] == q[0] {
        assert((q + x).drop_first() =~= q.drop_first() + x);
        assert((q + y).drop_first() =~= q.drop_first() + y);
        if q.drop_first().is_prefix_of(k.drop_first()) {
            assert(q =~= k.subrange(0, q.len() as int)) by {
                assert forall|i: int| 0 <= i < q.len() implies q[i] == k.subrange(0, q.len() as int)[i] by {
                    if i > 0 {
                        assert(q.drop_first()[i - 1] == k.drop_first().subrange(0, q.len() - 1)[i - 1]);
                    }
                }
            }
        }
        lemma_decided_within(q.drop_first(), k.drop_first(), x, y);
    } else {
        assert((q + x)[0] == q[0]);
        assert((q + y)[0] == q[0]);
    }
}

proof fn lemma_not_below_trans(k: Seq<u8>, p: Seq<u8>, q: Seq<u8>)
    requires
        !lex_lt(k, p),
        !lex_lt(p, q),
    ensures
        !lex_lt(k, q),
{
    lemma_lex_total(p, q);
    if lex_lt(k, q) && lex_lt(q, p) {
        lemma_lex_transitive(k, q, p);
    }
}

/// A prefix selects exactly the keys of the range from the prefix up to
/// `prefix_upper` of it, or every key from the prefix on when there is no
/// such bound.
pub proof fn lemma_prefix_as_range(p: Seq<u8>, k: Seq<u8>)
    ensures
        match prefix_upper(p) {
            Some(e) => p.is_prefix_of(k) <==> (!lex_lt(k, p) && lex_lt(k, e)),
            None => p.is_prefix_of(k) <==> !lex_lt(k, p),
        },
    decreases p.len(),
{
    if p.len() == 0 {
        assert(p =~= k.subrange(0, 0));
        return;
    }
    let q = p.drop_last();
    let b = p.last();
    assert(p =~= q + seq![b]);
    if p.is_prefix_of(k) {
        lemma_prefix_not_below(p, k);
    }
    let qk = q.is_prefix_of(k);
    if p.is_prefix_of(k) {
        assert(q =~= k.subrange(0, q.len() as int)) by {
            assert forall|i: int| 0 <= i < q.len() implies q[i] == k.subrange(0, q.len() as int)[i] by {
                assert(p[i] == k.subrange(0, p.len() as int)[i]);
            }
        }
    }
    let r = k.skip(q.len() as int);
    if qk {
        assert(k =~= q + r);
        lemma_common_prefix(q, r, seq![b]);
    }
    if b < 255 {
        let e = q.push((b + 1) as u8);
        assert(e =~= q + seq![(b + 1) as u8]);
        if qk {
            lemma_common_prefix(q, r, seq![(b + 1) as u8]);
            if p.is_prefix_of(k) {
                assert(r[0] == b) by {
                    assert(p[q.len() as int] == k.subrange(0, p.len() as int)[q.len() as int]);
                }
            }
            if !lex_lt(k, p) && lex_lt(k, e) {
                assert(r.len() > 0);
                let one = seq![b];
                let up = seq![(b + 1) as u8];
                assert(one[0] == b && one.len() == 1);
                assert(up[0] == (b + 1) as u8 && up.len() == 1);
                assert(lex_lt(r, up));
                assert(!lex_lt(r, one));
                if r[0] == (b + 1) as u8 {
                    assert(!lex_lt(r.drop_first(), up.drop_first()));
                }
                assert(r[0] == b);
                assert(p =~= k.subrange(0, p.len() as int)) by {
                    assert forall|i: int| 0 <= i < p.len() implies p[i] == k.subrange(0, p.len() as int)[i] by {
                        if i == q.len() {
                            assert(k[i] == r[0]);
                        } else {
                            assert(q[i] == k.subrange(0, q.len() as int)[i]);
                        }
                    }
                }
            }
        } else {
            lemma_decided_within(q, k, seq![b], seq![(b + 1) as u8]);
        }
    } else {
        lemma_prefix_as_range(q, k);
        lemma_prefix_not_below(q, p);
        if !lex_lt(k, p) {
            lemma_not_below_trans(k, p, q);
        }
        if qk && !lex_lt(k, p) {
            assert(r.len() > 0);
            assert(r[0] == 255);
            assert(p =~= k.subrange(0, p.len() as int)) by {
                assert forall|i: int| 0 <= i < p.len() implies p[i] == k.subrange(0, p.len() as int)[i] by {
                    if i == q.len() {
                        assert(k[i] == r[0]);
                    } else {
                        assert(q[i] == k.subrange(0, q.len() as int)[i]);
                    }
                }
            }
        }
        if p.is_prefix_of(k) {
            assert(q.is_prefix_of(k));
        }
    }
}

/// The keys from `k` up to `k` followed by a zero byte are `k` alone.
pub proof fn lemma_single_key_range(k: Seq<u8>, x: Seq<u8>)
    ensures
        (!lex_lt(x, k) && lex_lt(x, k.push(0u8))) <==> x == k,
{
    let z = seq![0u8];
    assert(k.push(0u8) =~= k + z);
    if x == k {
        lemma_lex_irreflexive(k);
        assert(k =~= k + Seq::<u8>::empty());
        lemma_common_prefix(k, Seq::<u8>::empty(), z);
    }
    if !lex_lt(x, k) && lex_lt(x, k.push(0u8)) {
        if k.is_prefix_of(x) {
            let r = x.skip(k.len() as int);
            assert(x =~= k + r);
            lemma_common_prefix(k, r, z);
            if r.len() > 0 {
                if r[0] == 0 {
                    assert(!lex_lt(r.drop_first(), z.drop_first()));
                }
                assert(false);
            }
            assert(x =~= k);
        } else {
            assert(k =~= k + Seq::<u8>::empty());
            lemma_decided_within(k, x, Seq::<u8>::empty(), z);
        }
    }
}

/// The end of the key range that a prefix stands for; None when the range
/// has no end.
pub fn prefix_end(p: &[u8]) -> (r: Option<Vec<u8>>)
    ensures
        match r {
            Some(e) => prefix_upper(p@) == Some(e@),
            None => prefix_upper(p@) is None,
        },
{
    let mut i: usize = p.len();
    assert(p@.take(i as int) =~= p@);
    while i > 0 && p[i - 1] == 255
        invariant
            i <= p@.len(),
            prefix_upper(p@) == prefix_upper(p@.take(i as int)),
        decreases i,
    {
        assert(p@.take(i as int).drop_last() =~= p@.take(i - 1));
        i = i - 1;
    }
    if i == 0 {
        return None;
    }
    let mut e: Vec<u8> = Vec::new();
    let mut j: usize = 0;
    while j < i - 1
        invariant
            0 < i <= p@.len(),
            j <= i - 1,
            e@ == p@.take(j as int),
        decreases i - 1 - j,
    {
        e.push(p[j]);
        assert(p@.take(j + 1) =~= p@.take(j as int).push(p@[j as int]));
        j = j + 1;
    }
    e.push(p[i - 1] + 1);
    assert(p@.take(i as int).drop_last() =~= p@.take(i - 1));
    Some(e)
}

} // verus!
