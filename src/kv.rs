//! Key-value entries, key selectors, and the model that the store protocol's
//! contracts are stated over: a strictly ascending sequence of entries and
//! the finite map that it denotes.

use crate::bytes::{compare_bytes, copy_bytes, has_prefix, lemma_prefix_as_range, lemma_single_key_range, prefix_end, lemma_lex_irreflexive, lemma_lex_transitive, lex_lt, KeyOrder};
use vstd::map::*;
use vstd::prelude::*;

verus! {

/// One entry of the key-value store.
#[derive(Clone, Debug, PartialEq, Eq)]
pub struct KeyValue {
    pub key: Vec<u8>,
    pub value: Vec<u8>,
}

impl View for KeyValue {
    type V = (Seq<u8>, Seq<u8>);

    open spec fn view(&self) -> (Seq<u8>, Seq<u8>) {
        (self.key@, self.value@)
    }
}

impl KeyValue {
    pub fn new(key: &[u8], value: &[u8]) -> (r: KeyValue)
        ensures
            r@ == (key@, value@),
    {
        KeyValue { key: copy_bytes(key), value: copy_bytes(value) }
    }

    pub fn key(&self) -> (r: &[u8])
        ensures
            r@ == self.key@,
    {
        self.key.as_slice()
    }

    pub fn value(&self) -> (r: &[u8])
        ensures
            r@ == self.value@,
    {
        self.value.as_slice()
    }

    /// Takes the key out, leaving an empty one.
    pub fn take_key(&mut self) -> (r: Vec<u8>)
        ensures
            r@ == old(self).key@,
            final(self).key@.len() == 0,
            final(self).value@ == old(self).value@,
    {
        let mut r: Vec<u8> = Vec::new();
        std::mem::swap(&mut r, &mut self.key);
        r
    }

    /// Takes the value out, leaving an empty one.
    pub fn take_value(&mut self) -> (r: Vec<u8>)
        ensures
            r@ == old(self).value@,
            final(self).value@.len() == 0,
            final(self).key@ == old(self).key@,
    {
        let mut r: Vec<u8> = Vec::new();
        std::mem::swap(&mut r, &mut self.value);
        r
    }
}

pub open spec fn kv_views(v: Seq<KeyValue>) -> Seq<(Seq<u8>, Seq<u8>)> {
    v.map_values(|e: KeyValue| e@)
}

pub open spec fn opt_kv_view(o: Option<KeyValue>) -> Option<(Seq<u8>, Seq<u8>)> {
    match o {
        Some(kv) => Some(kv@),
        None => None,
    }
}

pub open spec fn opt_bytes_view(o: Option<Vec<u8>>) -> Option<Seq<u8>> {
    match o {
        Some(v) => Some(v@),
        None => None,
    }
}

/// Which keys an operation applies to: one key, the half-open range
/// `[start, end)`, or every key that starts with a prefix.
#[derive(Clone, Debug)]
pub enum KeySelector {
    Key(Vec<u8>),
    Range(Vec<u8>, Vec<u8>),
    Prefix(Vec<u8>),
}

/// Whether `sel` selects the key `k`.
pub open spec fn selects(sel: KeySelector, k: Seq<u8>) -> bool {
    match sel {
        KeySelector::Key(key) => k == key@,
        KeySelector::Range(start, end) => !lex_lt(k, start@) && lex_lt(k, end@),
        KeySelector::Prefix(p) => p@.is_prefix_of(k),
    }
}

/// Whether `k` lies in the range from `start` up to `end` (exclusive), or
/// from `start` on when there is no end.
pub open spec fn in_range(start: Seq<u8>, end: Option<Seq<u8>>, k: Seq<u8>) -> bool {
    !lex_lt(k, start) && match end {
        Some(e) => lex_lt(k, e),
        None => true,
    }
}

impl KeySelector {
    /// The selector as one key range `[start, end)`, the shape in which
    /// requests travel: a key `k` is `[k, k ++ [0])`, a prefix is bounded by
    /// `prefix_end`.
    pub fn to_range(&self) -> (r: (Vec<u8>, Option<Vec<u8>>))
        ensures
            forall|k: Seq<u8>| #[trigger] selects(*self, k) <==> in_range(r.0@, opt_bytes_view(r.1), k),
    {
        match self {
            KeySelector::Key(key) => {
                let mut end = copy_bytes(key.as_slice());
                end.push(0u8);
                assert forall|k: Seq<u8>| #[trigger] selects(*self, k) <==> in_range(key@, Some(end@), k) by {
                    lemma_single_key_range(key@, k);
                }
                (copy_bytes(key.as_slice()), Some(end))
            },
            KeySelector::Range(start, end) => (copy_bytes(start.as_slice()), Some(copy_bytes(end.as_slice()))),
            KeySelector::Prefix(p) => {
                let end = prefix_end(p.as_slice());
                assert forall|k: Seq<u8>| #[trigger] selects(*self, k) <==> in_range(p@, opt_bytes_view(end), k) by {
                    lemma_prefix_as_range(p@, k);
                }
                (copy_bytes(p.as_slice()), end)
            },
        }
    }

    pub fn matches(&self, k: &[u8]) -> (r: bool)
        ensures
            r == selects(*self, k@),
    {
        match self {
            KeySelector::Key(key) => compare_bytes(k, key.as_slice()) == KeyOrder::Equal,
            KeySelector::Range(start, end) => compare_bytes(k, start.as_slice()) != KeyOrder::Less
                && compare_bytes(k, end.as_slice()) == KeyOrder::Less,
            KeySelector::Prefix(p) => has_prefix(k, p.as_slice()),
        }
    }
}

/// Keys strictly ascend along the sequence.
pub open spec fn sorted_keys(s: Seq<(Seq<u8>, Seq<u8>)>) -> bool {
    forall|i: int, j: int| 0 <= i < j < s.len() ==> lex_lt(#[trigger] s[i].0, #[trigger] s[j].0)
}

pub open spec fn has_key(s: Seq<(Seq<u8>, Seq<u8>)>, k: Seq<u8>) -> bool {
    exists|i: int| 0 <= i < s.len() && #[trigger] s[i].0 == k
}

pub open spec fn value_of(s: Seq<(Seq<u8>, Seq<u8>)>, k: Seq<u8>) -> Seq<u8> {
    s[choose|i: int| 0 <= i < s.len() && #[trigger] s[i].0 == k].1
}

/// The finite map from keys to values that a sequence of entries denotes.
pub open spec fn kv_map(s: Seq<(Seq<u8>, Seq<u8>)>) -> Map<Seq<u8>, Seq<u8>> {
    Map::new(|k: Seq<u8>| has_key(s, k), |k: Seq<u8>| value_of(s, k))
}

/// The entries of `s` that `sel` selects, in order, with values emptied when
/// only keys are asked for.
pub open spec fn select(s: Seq<(Seq<u8>, Seq<u8>)>, sel: KeySelector, keys_only: bool) -> Seq<
    (Seq<u8>, Seq<u8>),
>
    decreases s.len(),
{
    if s.len() == 0 {
        seq![]
    } else {
        let rest = select(s.drop_last(), sel, keys_only);
        let e = s.last();
        if selects(sel, e.0) {
            rest.push(if keys_only { (e.0, Seq::empty()) } else { e })
        } else {
            rest
        }
    }
}

/// The entries of `s` that `sel` does not select, in order.
pub open spec fn retain(s: Seq<(Seq<u8>, Seq<u8>)>, sel: KeySelector) -> Seq<(Seq<u8>, Seq<u8>)>
    decreases s.len(),
{
    if s.len() == 0 {
        seq![]
    } else {
        let rest = retain(s.drop_last(), sel);
        if selects(sel, s.last().0) {
            rest
        } else {
            rest.push(s.last())
        }
    }
}

pub proof fn lemma_kv_map_at(s: Seq<(Seq<u8>, Seq<u8>)>, i: int)
    requires
        sorted_keys(s),
        0 <= i < s.len(),
    ensures
        kv_map(s).contains_key(s[i].0),
        kv_map(s)[s[i].0] == s[i].1,
{
    let k = s[i].0;
    assert(has_key(s, k));
    let j = choose|j: int| 0 <= j < s.len() && #[trigger] s[j].0 == k;
    lemma_lex_irreflexive(k);
    if j < i {
        assert(lex_lt(s[j].0, s[i].0));
    } else if i < j {
        assert(lex_lt(s[i].0, s[j].0));
    }
}

/// A map equals the one a sorted sequence denotes once each entry is in it
/// and each of its keys has an entry.
pub proof fn lemma_kv_map_eq(t: Seq<(Seq<u8>, Seq<u8>)>, m: Map<Seq<u8>, Seq<u8>>)
    requires
        sorted_keys(t),
        forall|i: int| 0 <= i < t.len() ==> m.contains_key(#[trigger] t[i].0) && m[t[i].0] == t[i].1,
        forall|k: Seq<u8>| #[trigger] m.contains_key(k) ==> has_key(t, k),
    ensures
        kv_map(t) == m,
{
    assert forall|k: Seq<u8>| #[trigger] kv_map(t).contains_key(k) implies m.contains_key(k) && kv_map(t)[k] == m[k] by {
        let i = choose|i: int| 0 <= i < t.len() && #[trigger] t[i].0 == k;
        lemma_kv_map_at(t, i);
    }
    assert_maps_equal!(kv_map(t), m);
}

pub proof fn lemma_update_value(s: Seq<(Seq<u8>, Seq<u8>)>, p: int, v: Seq<u8>)
    requires
        sorted_keys(s),
        0 <= p < s.len(),
    ensures
        sorted_keys(s.update(p, (s[p].0, v))),
        kv_map(s.update(p, (s[p].0, v))) == kv_map(s).insert(s[p].0, v),
{
    let t = s.update(p, (s[p].0, v));
    let m = kv_map(s).insert(s[p].0, v);
    assert forall|i: int| 0 <= i < t.len() implies m.contains_key(#[trigger] t[i].0) && m[t[i].0] == t[i].1 by {
        lemma_kv_map_at(s, i);
        if i != p {
            lemma_lex_irreflexive(s[p].0);
            if i < p {
                assert(lex_lt(s[i].0, s[p].0));
            } else {
                assert(lex_lt(s[p].0, s[i].0));
            }
        }
    }
    assert forall|k: Seq<u8>| #[trigger] m.contains_key(k) implies has_key(t, k) by {
        if k == s[p].0 {
            assert(t[p].0 == k);
        } else {
            let i = choose|i: int| 0 <= i < s.len() && #[trigger] s[i].0 == k;
            assert(t[i].0 == k);
        }
    }
    lemma_kv_map_eq(t, m);
}

pub proof fn lemma_insert_entry(s: Seq<(Seq<u8>, Seq<u8>)>, p: int, k: Seq<u8>, v: Seq<u8>)
    requires
        sorted_keys(s),
        0 <= p <= s.len(),
        forall|i: int| 0 <= i < p ==> lex_lt(#[trigger] s[i].0, k),
        forall|i: int| p <= i < s.len() ==> lex_lt(k, #[trigger] s[i].0),
    ensures
        sorted_keys(s.insert(p, (k, v))),
        kv_map(s.insert(p, (k, v))) == kv_map(s).insert(k, v),
{
    let t = s.insert(p, (k, v));
    let m = kv_map(s).insert(k, v);
    assert forall|i: int, j: int| 0 <= i < j < t.len() implies lex_lt(#[trigger] t[i].0, #[trigger] t[j].0) by {
        if j < p {
        } else if j == p {
        } else if i < p {
            lemma_lex_transitive(s[i].0, k, s[j - 1].0);
        } else if i == p {
        } else {
        }
    }
    assert forall|i: int| 0 <= i < t.len() implies m.contains_key(#[trigger] t[i].0) && m[t[i].0] == t[i].1 by {
        if i < p {
            lemma_kv_map_at(s, i);
            lemma_lex_irreflexive(k);
        } else if i > p {
            lemma_kv_map_at(s, i - 1);
            lemma_lex_irreflexive(k);
        }
    }
    assert forall|k2: Seq<u8>| #[trigger] m.contains_key(k2) implies has_key(t, k2) by {
        if k2 == k {
            assert(t[p].0 == k2);
        } else {
            let i = choose|i: int| 0 <= i < s.len() && #[trigger] s[i].0 == k2;
            if i < p {
                assert(t[i].0 == k2);
            } else {
                assert(t[i + 1].0 == k2);
            }
        }
    }
    lemma_kv_map_eq(t, m);
}

pub proof fn lemma_remove_entry(s: Seq<(Seq<u8>, Seq<u8>)>, p: int)
    requires
        sorted_keys(s),
        0 <= p < s.len(),
    ensures
        sorted_keys(s.remove(p)),
        kv_map(s.remove(p)) == kv_map(s).remove(s[p].0),
{
    let t = s.remove(p);
    let m = kv_map(s).remove(s[p].0);
    assert forall|i: int, j: int| 0 <= i < j < t.len() implies lex_lt(#[trigger] t[i].0, #[trigger] t[j].0) by {
        if j < p {
        } else if i < p {
            assert(lex_lt(s[i].0, s[j + 1].0));
        } else {
            assert(lex_lt(s[i + 1].0, s[j + 1].0));
        }
    }
    assert forall|i: int| 0 <= i < t.len() implies m.contains_key(#[trigger] t[i].0) && m[t[i].0] == t[i].1 by {
        lemma_lex_irreflexive(s[p].0);
        if i < p {
            lemma_kv_map_at(s, i);
            assert(lex_lt(s[i].0, s[p].0));
        } else {
            lemma_kv_map_at(s, i + 1);
            assert(lex_lt(s[p].0, s[i + 1].0));
        }
    }
    assert forall|k2: Seq<u8>| #[trigger] m.contains_key(k2) implies has_key(t, k2) by {
        let i = choose|i: int| 0 <= i < s.len() && #[trigger] s[i].0 == k2;
        if i < p {
            assert(t[i].0 == k2);
        } else {
            assert(i != p);
            assert(t[i - 1].0 == k2);
        }
    }
    lemma_kv_map_eq(t, m);
}

} // verus!
