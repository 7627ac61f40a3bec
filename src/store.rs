//! The key-value store protocol: requests, responses, and `MemStore`, a model
//! of how the service answers them. The client never holds entries; the
//! model states the protocol's semantics and serves as a stand-in service
//! where no remote one is wanted. Entries are held in ascending key order,
//! one entry per key.

use crate::bytes::{compare_bytes, copy_bytes, lemma_lex_irreflexive, lemma_lex_transitive, lex_lt, KeyOrder};
use crate::kv::{has_key, selects, kv_map, kv_views, lemma_insert_entry, lemma_kv_map_at, lemma_remove_entry, lemma_update_value, retain, opt_kv_view, select, sorted_keys, KeySelector, KeyValue};
use vstd::prelude::*;

verus! {

/// The previous entry that a write reports: present only when asked for and
/// when the key held a value.
pub open spec fn prev_entry(m: Map<Seq<u8>, Seq<u8>>, k: Seq<u8>, asked: bool) -> Option<
    (Seq<u8>, Seq<u8>),
> {
    if asked && m.contains_key(k) {
        Some((k, m[k]))
    } else {
        None
    }
}

pub open spec fn key_views(v: Seq<Vec<u8>>) -> Seq<Seq<u8>> {
    v.map_values(|k: Vec<u8>| k@)
}

/// The entries that exist for the requested keys, in request order.
pub open spec fn get_all(m: Map<Seq<u8>, Seq<u8>>, keys: Seq<Seq<u8>>) -> Seq<(Seq<u8>, Seq<u8>)>
    decreases keys.len(),
{
    if keys.len() == 0 {
        seq![]
    } else {
        let rest = get_all(m, keys.drop_last());
        let k = keys.last();
        if m.contains_key(k) {
            rest.push((k, m[k]))
        } else {
            rest
        }
    }
}

/// The map after writing each pair in turn.
pub open spec fn put_all(m: Map<Seq<u8>, Seq<u8>>, kvs: Seq<(Seq<u8>, Seq<u8>)>) -> Map<Seq<u8>, Seq<u8>>
    decreases kvs.len(),
{
    if kvs.len() == 0 {
        m
    } else {
        put_all(m, kvs.drop_last()).insert(kvs.last().0, kvs.last().1)
    }
}

/// The entries that the writes of `put_all` replaced, in request order.
pub open spec fn put_all_prev(m: Map<Seq<u8>, Seq<u8>>, kvs: Seq<(Seq<u8>, Seq<u8>)>) -> Seq<
    (Seq<u8>, Seq<u8>),
>
    decreases kvs.len(),
{
    if kvs.len() == 0 {
        seq![]
    } else {
        let before = put_all(m, kvs.drop_last());
        let rest = put_all_prev(m, kvs.drop_last());
        let k = kvs.last().0;
        if before.contains_key(k) {
            rest.push((k, before[k]))
        } else {
            rest
        }
    }
}

/// The map after deleting each key in turn.
pub open spec fn delete_all(m: Map<Seq<u8>, Seq<u8>>, keys: Seq<Seq<u8>>) -> Map<Seq<u8>, Seq<u8>>
    decreases keys.len(),
{
    if keys.len() == 0 {
        m
    } else {
        delete_all(m, keys.drop_last()).remove(keys.last())
    }
}

/// The entries that the deletions of `delete_all` removed, in request order.
pub open spec fn delete_all_prev(m: Map<Seq<u8>, Seq<u8>>, keys: Seq<Seq<u8>>) -> Seq<
    (Seq<u8>, Seq<u8>),
>
    decreases keys.len(),
{
    if keys.len() == 0 {
        seq![]
    } else {
        let before = delete_all(m, keys.drop_last());
        let rest = delete_all_prev(m, keys.drop_last());
        let k = keys.last();
        if before.contains_key(k) {
            rest.push((k, before[k]))
        } else {
            rest
        }
    }
}

/// Whether a compare-and-put on `k` expecting `expect` (None: absence) wins.
pub open spec fn cas_succeeds(m: Map<Seq<u8>, Seq<u8>>, k: Seq<u8>, expect: Option<Seq<u8>>) -> bool {
    match expect {
        Some(e) => m.contains_key(k) && m[k] == e,
        None => !m.contains_key(k),
    }
}

pub open spec fn opt_bytes(o: Option<Vec<u8>>) -> Option<Seq<u8>> {
    match o {
        Some(v) => Some(v@),
        None => None,
    }
}

/// The map after moving the value of `from` to `to`, unless `to` holds one.
pub open spec fn moved(m: Map<Seq<u8>, Seq<u8>>, from: Seq<u8>, to: Seq<u8>) -> Map<Seq<u8>, Seq<u8>> {
    if !m.contains_key(to) && m.contains_key(from) {
        m.remove(from).insert(to, m[from])
    } else {
        m
    }
}

/// The entry that a move reports: the destination's if it holds a value,
/// else the source's if it does.
pub open spec fn move_report(m: Map<Seq<u8>, Seq<u8>>, from: Seq<u8>, to: Seq<u8>) -> Option<
    (Seq<u8>, Seq<u8>),
> {
    if m.contains_key(to) {
        Some((to, m[to]))
    } else if m.contains_key(from) {
        Some((from, m[from]))
    } else {
        None
    }
}

pub struct RangeRequest {
    pub selector: KeySelector,
    pub keys_only: bool,
}

pub struct RangeResponse {
    pub kvs: Vec<KeyValue>,
}

pub struct PutRequest {
    pub key: Vec<u8>,
    pub value: Vec<u8>,
    pub prev_kv: bool,
}

pub struct PutResponse {
    pub prev_kv: Option<KeyValue>,
}

pub struct BatchGetRequest {
    pub keys: Vec<Vec<u8>>,
}

pub struct BatchGetResponse {
    pub kvs: Vec<KeyValue>,
}

pub struct BatchPutRequest {
    pub kvs: Vec<KeyValue>,
    pub prev_kv: bool,
}

pub struct BatchPutResponse {
    pub prev_kvs: Vec<KeyValue>,
}

pub struct BatchDeleteRequest {
    pub keys: Vec<Vec<u8>>,
    pub prev_kv: bool,
}

pub struct BatchDeleteResponse {
    pub prev_kvs: Vec<KeyValue>,
}

/// `expect` is the value the key must hold, or None when it must be absent.
pub struct CompareAndPutRequest {
    pub key: Vec<u8>,
    pub expect: Option<Vec<u8>>,
    pub value: Vec<u8>,
}

pub struct CompareAndPutResponse {
    pub success: bool,
    pub prev_kv: Option<KeyValue>,
}

pub struct DeleteRangeRequest {
    pub selector: KeySelector,
    pub prev_kv: bool,
}

pub struct DeleteRangeResponse {
    pub deleted: usize,
    pub prev_kvs: Vec<KeyValue>,
}

pub struct MoveValueRequest {
    pub from_key: Vec<u8>,
    pub to_key: Vec<u8>,
}

pub struct MoveValueResponse {
    pub kv: Option<KeyValue>,
}

/// A key that sorts after every entry before `p` and before every entry
/// from `p` on is not in the map.
proof fn lemma_absent_between(s: Seq<(Seq<u8>, Seq<u8>)>, k: Seq<u8>, p: int)
    requires
        0 <= p <= s.len(),
        forall|i: int| 0 <= i < p ==> lex_lt(#[trigger] s[i].0, k),
        forall|i: int| p <= i < s.len() ==> lex_lt(k, #[trigger] s[i].0),
    ensures
        !kv_map(s).contains_key(k),
{
    lemma_lex_irreflexive(k);
    if has_key(s, k) {
        let i = choose|i: int| 0 <= i < s.len() && #[trigger] s[i].0 == k;
        if i < p {
            assert(lex_lt(s[i].0, k));
        } else {
            assert(lex_lt(k, s[i].0));
        }
    }
}

/// A model of the store service: each call is one atomic step, which is
/// what linearizability asks of the remote one.
pub struct MemStore {
    entries: Vec<KeyValue>,
}

impl View for MemStore {
    type V = Seq<(Seq<u8>, Seq<u8>)>;

    closed spec fn view(&self) -> Seq<(Seq<u8>, Seq<u8>)> {
        kv_views(self.entries@)
    }
}

impl MemStore {
    pub open spec fn wf(&self) -> bool {
        sorted_keys(self@)
    }

    /// The contents as a map from keys to values.
    pub open spec fn contents(&self) -> Map<Seq<u8>, Seq<u8>> {
        kv_map(self@)
    }

    pub fn new() -> (r: MemStore)
        ensures
            r.wf(),
            r@.len() == 0,
            r.contents() == Map::<Seq<u8>, Seq<u8>>::empty(),
    {
        let r = MemStore { entries: Vec::new() };
        assert(r.contents() =~= Map::<Seq<u8>, Seq<u8>>::empty());
        r
    }

    pub fn len(&self) -> (r: usize)
        ensures
            r == self@.len(),
    {
        self.entries.len()
    }

    /// The position where `key` is or would be inserted.
    fn find(&self, key: &[u8]) -> (r: (bool, usize))
        requires
            self.wf(),
        ensures
            r.1 <= self@.len(),
            forall|i: int| 0 <= i < r.1 ==> lex_lt(#[trigger] self@[i].0, key@),
            forall|i: int| r.1 < i < self@.len() ==> lex_lt(key@, #[trigger] self@[i].0),
            r.0 <==> (r.1 < self@.len() && self@[r.1 as int].0 == key@),
            !r.0 && r.1 < self@.len() ==> lex_lt(key@, self@[r.1 as int].0),
            !r.0 ==> !self.contents().contains_key(key@),
    {
        let mut i: usize = 0;
        while i < self.entries.len()
            invariant
                self.wf(),
                i <= self@.len(),
                forall|j: int| 0 <= j < i ==> lex_lt(#[trigger] self@[j].0, key@),
            decreases self@.len() - i,
        {
            let c = compare_bytes(self.entries[i].key.as_slice(), key);
            if c != KeyOrder::Less {
                assert(self@[i as int].0 == self.entries@[i as int].key@);
                assert forall|j: int| i < j < self@.len() implies lex_lt(key@, #[trigger] self@[j].0) by {
                    assert(lex_lt(self@[i as int].0, self@[j].0));
                    if c == KeyOrder::Greater {
                        lemma_lex_transitive(key@, self@[i as int].0, self@[j].0);
                    }
                }
                proof {
                    if c == KeyOrder::Greater {
                        lemma_absent_between(self@, key@, i as int);
                    }
                }
                return (c == KeyOrder::Equal, i);
            }
            i = i + 1;
        }
        proof {
            lemma_absent_between(self@, key@, i as int);
        }
        (false, i)
    }

    /// Writes `value` under `key`.
    fn set(&mut self, key: &[u8], value: &[u8])
        requires
            old(self).wf(),
        ensures
            final(self).wf(),
            final(self).contents() == old(self).contents().insert(key@, value@),
    {
        let (found, p) = self.find(key);
        let kv = KeyValue::new(key, value);
        if found {
            proof {
                lemma_update_value(self@, p as int, value@);
            }
            self.entries.set(p, kv);
            assert(self@ =~= old(self)@.update(p as int, (key@, value@)));
        } else {
            proof {
                lemma_insert_entry(self@, p as int, key@, value@);
            }
            self.entries.insert(p, kv);
            assert(self@ =~= old(self)@.insert(p as int, (key@, value@)));
        }
    }

    /// The entries that the selector picks, in ascending key order.
    pub fn range(&self, req: &RangeRequest) -> (r: RangeResponse)
        ensures
            kv_views(r.kvs@) == select(self@, req.selector, req.keys_only),
    {
        let mut kvs: Vec<KeyValue> = Vec::new();
        let mut i: usize = 0;
        while i < self.entries.len()
            invariant
                i <= self@.len(),
                kv_views(kvs@) == select(self@.take(i as int), req.selector, req.keys_only),
            decreases self@.len() - i,
        {
            let e = &self.entries[i];
            assert(self@.take(i + 1).drop_last() =~= self@.take(i as int));
            assert(self@.take(i + 1).last() == e@);
            if req.selector.matches(e.key.as_slice()) {
                let value = if req.keys_only {
                    Vec::new()
                } else {
                    copy_bytes(e.value.as_slice())
                };
                let kv = KeyValue { key: copy_bytes(e.key.as_slice()), value };
                kvs.push(kv);
                assert(kv_views(kvs@) =~= select(self@.take(i as int), req.selector, req.keys_only).push(kv@));
            }
            i = i + 1;
        }
        assert(self@.take(i as int) =~= self@);
        RangeResponse { kvs }
    }

    /// Writes the pair, reporting the previous entry when asked.
    pub fn put(&mut self, req: &PutRequest) -> (r: PutResponse)
        requires
            old(self).wf(),
        ensures
            final(self).wf(),
            final(self).contents() == old(self).contents().insert(req.key@, req.value@),
            opt_kv_view(r.prev_kv) == prev_entry(old(self).contents(), req.key@, req.prev_kv),
    {
        let prev = self.get(req.key.as_slice());
        self.set(req.key.as_slice(), req.value.as_slice());
        if req.prev_kv {
            PutResponse { prev_kv: prev }
        } else {
            PutResponse { prev_kv: None }
        }
    }

    /// The entry stored under `key`, if any.
    pub fn get(&self, key: &[u8]) -> (r: Option<KeyValue>)
        requires
            self.wf(),
        ensures
            opt_kv_view(r) == prev_entry(self.contents(), key@, true),
    {
        let (found, p) = self.find(key);
        if found {
            proof {
                lemma_kv_map_at(self@, p as int);
            }
            let e = &self.entries[p];
            Some(KeyValue::new(key, e.value.as_slice()))
        } else {
            None
        }
    }

    /// Deletes `key`, returning the entry it held.
    fn delete(&mut self, key: &[u8]) -> (r: Option<KeyValue>)
        requires
            old(self).wf(),
        ensures
            final(self).wf(),
            final(self).contents() == old(self).contents().remove(key@),
            opt_kv_view(r) == prev_entry(old(self).contents(), key@, true),
    {
        let prev = self.get(key);
        let (found, p) = self.find(key);
        if found {
            proof {
                lemma_remove_entry(self@, p as int);
            }
            self.entries.remove(p);
            assert(self@ =~= old(self)@.remove(p as int));
        } else {
            assert(old(self).contents().remove(key@) =~= old(self).contents());
        }
        prev
    }

    /// The entries for the keys that exist, in request order; absent keys
    /// are left out.
    pub fn batch_get(&self, req: &BatchGetRequest) -> (r: BatchGetResponse)
        requires
            self.wf(),
        ensures
            kv_views(r.kvs@) == get_all(self.contents(), key_views(req.keys@)),
    {
        let mut kvs: Vec<KeyValue> = Vec::new();
        let mut i: usize = 0;
        while i < req.keys.len()
            invariant
                self.wf(),
                i <= req.keys@.len(),
                kv_views(kvs@) == get_all(self.contents(), key_views(req.keys@).take(i as int)),
            decreases req.keys@.len() - i,
        {
            let ghost ks = key_views(req.keys@);
            assert(ks.take(i + 1).drop_last() =~= ks.take(i as int));
            assert(ks.take(i + 1).last() == req.keys@[i as int]@);
            match self.get(req.keys[i].as_slice()) {
                Some(kv) => {
                    kvs.push(kv);
                    assert(kv_views(kvs@) =~= get_all(self.contents(), ks.take(i as int)).push(kv@));
                },
                None => {},
            }
            i = i + 1;
        }
        assert(key_views(req.keys@).take(i as int) =~= key_views(req.keys@));
        BatchGetResponse { kvs }
    }

    /// Writes every pair in request order as one step; reports the entries
    /// that were replaced when asked.
    pub fn batch_put(&mut self, req: &BatchPutRequest) -> (r: BatchPutResponse)
        requires
            old(self).wf(),
        ensures
            final(self).wf(),
            final(self).contents() == put_all(old(self).contents(), kv_views(req.kvs@)),
            kv_views(r.prev_kvs@) == if req.prev_kv {
                put_all_prev(old(self).contents(), kv_views(req.kvs@))
            } else {
                seq![]
            },
    {
        let ghost m0 = self.contents();
        let ghost all = kv_views(req.kvs@);
        let mut prev_kvs: Vec<KeyValue> = Vec::new();
        let mut i: usize = 0;
        while i < req.kvs.len()
            invariant
                self.wf(),
                i <= req.kvs@.len(),
                all == kv_views(req.kvs@),
                self.contents() == put_all(m0, all.take(i as int)),
                kv_views(prev_kvs@) == if req.prev_kv {
                    put_all_prev(m0, all.take(i as int))
                } else {
                    seq![]
                },
            decreases req.kvs@.len() - i,
        {
            assert(all.take(i + 1).drop_last() =~= all.take(i as int));
            assert(all.take(i + 1).last() == req.kvs@[i as int]@);
            let kv = &req.kvs[i];
            let prev = self.get(kv.key.as_slice());
            self.set(kv.key.as_slice(), kv.value.as_slice());
            if req.prev_kv {
                match prev {
                    Some(p) => {
                        prev_kvs.push(p);
                        assert(kv_views(prev_kvs@) =~= put_all_prev(m0, all.take(i as int)).push(p@));
                    },
                    None => {},
                }
            }
            i = i + 1;
        }
        assert(all.take(i as int) =~= all);
        BatchPutResponse { prev_kvs }
    }

    /// Deletes every key in request order as one step; reports the entries
    /// that were removed when asked.
    pub fn batch_delete(&mut self, req: &BatchDeleteRequest) -> (r: BatchDeleteResponse)
        requires
            old(self).wf(),
        ensures
            final(self).wf(),
            final(self).contents() == delete_all(old(self).contents(), key_views(req.keys@)),
            kv_views(r.prev_kvs@) == if req.prev_kv {
                delete_all_prev(old(self).contents(), key_views(req.keys@))
            } else {
                seq![]
            },
    {
        let ghost m0 = self.contents();
        let ghost all = key_views(req.keys@);
        let mut prev_kvs: Vec<KeyValue> = Vec::new();
        let mut i: usize = 0;
        while i < req.keys.len()
            invariant
                self.wf(),
                i <= req.keys@.len(),
                all == key_views(req.keys@),
                self.contents() == delete_all(m0, all.take(i as int)),
                kv_views(prev_kvs@) == if req.prev_kv {
                    delete_all_prev(m0, all.take(i as int))
                } else {
                    seq![]
                },
            decreases req.keys@.len() - i,
        {
            assert(all.take(i + 1).drop_last() =~= all.take(i as int));
            assert(all.take(i + 1).last() == req.keys@[i as int]@);
            let prev = self.delete(req.keys[i].as_slice());
            if req.prev_kv {
                match prev {
                    Some(p) => {
                        prev_kvs.push(p);
                        assert(kv_views(prev_kvs@) =~= delete_all_prev(m0, all.take(i as int)).push(p@));
                    },
                    None => {},
                }
            }
            i = i + 1;
        }
        assert(all.take(i as int) =~= all);
        BatchDeleteResponse { prev_kvs }
    }

    /// Writes `value` only if the key holds `expect` (or is absent, when
    /// `expect` is None). Reports the entry found either way.
    pub fn compare_and_put(&mut self, req: &CompareAndPutRequest) -> (r: CompareAndPutResponse)
        requires
            old(self).wf(),
        ensures
            final(self).wf(),
            r.success == cas_succeeds(old(self).contents(), req.key@, opt_bytes(req.expect)),
            final(self).contents() == if r.success {
                old(self).contents().insert(req.key@, req.value@)
            } else {
                old(self).contents()
            },
            opt_kv_view(r.prev_kv) == prev_entry(old(self).contents(), req.key@, true),
    {
        let prev = self.get(req.key.as_slice());
        let success = match (&prev, &req.expect) {
            (Some(kv), Some(e)) => compare_bytes(kv.value.as_slice(), e.as_slice()) == KeyOrder::Equal,
            (None, None) => true,
            _ => false,
        };
        if success {
            self.set(req.key.as_slice(), req.value.as_slice());
        }
        CompareAndPutResponse { success, prev_kv: prev }
    }

    /// Deletes every entry that the selector picks; reports how many, and
    /// the removed entries in ascending key order when asked.
    pub fn delete_range(&mut self, req: &DeleteRangeRequest) -> (r: DeleteRangeResponse)
        requires
            old(self).wf(),
        ensures
            final(self).wf(),
            final(self)@ == retain(old(self)@, req.selector),
            r.deleted == select(old(self)@, req.selector, false).len(),
            kv_views(r.prev_kvs@) == if req.prev_kv {
                select(old(self)@, req.selector, false)
            } else {
                seq![]
            },
    {
        let ghost s = self@;
        let mut kept: Vec<KeyValue> = Vec::new();
        let mut removed: Vec<KeyValue> = Vec::new();
        let mut deleted: usize = 0;
        let mut i: usize = 0;
        while i < self.entries.len()
            invariant
                s == self@,
                sorted_keys(s),
                i <= s.len(),
                kv_views(kept@) == retain(s.take(i as int), req.selector),
                sorted_keys(kv_views(kept@)),
                forall|j: int, m: int| 0 <= j < kept@.len() && i <= m < s.len() ==> lex_lt(#[trigger] kv_views(kept@)[j].0, #[trigger] s[m].0),
                deleted == select(s.take(i as int), req.selector, false).len(),
                deleted <= i,
                kv_views(removed@) == if req.prev_kv {
                    select(s.take(i as int), req.selector, false)
                } else {
                    seq![]
                },
            decreases s.len() - i,
        {
            let e = &self.entries[i];
            assert(s.take(i + 1).drop_last() =~= s.take(i as int));
            assert(s.take(i + 1).last() == e@);
            assert(s[i as int] == e@);
            let kv = KeyValue::new(e.key.as_slice(), e.value.as_slice());
            if req.selector.matches(e.key.as_slice()) {
                deleted = deleted + 1;
                if req.prev_kv {
                    removed.push(kv);
                    assert(kv_views(removed@) =~= select(s.take(i as int), req.selector, false).push(kv@));
                }
            } else {
                let ghost before = kv_views(kept@);
                kept.push(kv);
                assert(kv_views(kept@) =~= before.push(kv@));
                assert forall|j: int, m: int| 0 <= j < kept@.len() && i + 1 <= m < s.len() implies lex_lt(#[trigger] kv_views(kept@)[j].0, #[trigger] s[m].0) by {
                    if j < before.len() {
                        assert(lex_lt(before[j].0, s[m].0));
                    } else {
                        assert(lex_lt(s[i as int].0, s[m].0));
                    }
                }
                assert forall|j: int, k: int| 0 <= j < k < kv_views(kept@).len() implies lex_lt(#[trigger] kv_views(kept@)[j].0, #[trigger] kv_views(kept@)[k].0) by {
                    if k < before.len() {
                        assert(lex_lt(before[j].0, before[k].0));
                    } else {
                        assert(lex_lt(before[j].0, s[i as int].0));
                    }
                }
            }
            i = i + 1;
        }
        assert(s.take(i as int) =~= s);
        self.entries = kept;
        DeleteRangeResponse { deleted, prev_kvs: removed }
    }

    /// Moves the value of `from_key` to `to_key`, unless `to_key` already
    /// holds one, which then stays and is reported.
    pub fn move_value(&mut self, req: &MoveValueRequest) -> (r: MoveValueResponse)
        requires
            old(self).wf(),
        ensures
            final(self).wf(),
            final(self).contents() == moved(old(self).contents(), req.from_key@, req.to_key@),
            opt_kv_view(r.kv) == move_report(old(self).contents(), req.from_key@, req.to_key@),
    {
        let to = self.get(req.to_key.as_slice());
        if to.is_some() {
            return MoveValueResponse { kv: to };
        }
        let from = self.delete(req.from_key.as_slice());
        match &from {
            Some(kv) => {
                self.set(req.to_key.as_slice(), kv.value.as_slice());
            },
            None => {},
        }
        MoveValueResponse { kv: from }
    }
}

} // verus!

verus! {

proof fn lemma_select_nothing(s: Seq<(Seq<u8>, Seq<u8>)>, sel: KeySelector, keys_only: bool)
    requires
        forall|i: int| 0 <= i < s.len() ==> !selects(sel, #[trigger] s[i].0),
    ensures
        select(s, sel, keys_only) == Seq::<(Seq<u8>, Seq<u8>)>::empty(),
    decreases s.len(),
{
    if s.len() > 0 {
        assert(!selects(sel, s[s.len() - 1].0));
        lemma_select_nothing(s.drop_last(), sel, keys_only);
    }
}

/// What a range over one key returns: exactly the entry stored under it.
pub proof fn lemma_range_one_key(s: Seq<(Seq<u8>, Seq<u8>)>, sel: KeySelector, k: Seq<u8>)
    requires
        sorted_keys(s),
        sel matches KeySelector::Key(key) && key@ == k,
        kv_map(s).contains_key(k),
    ensures
        select(s, sel, false) == seq![(k, kv_map(s)[k])],
    decreases s.len(),
{
    let t = s.drop_last();
    let last = s.last();
    assert(sorted_keys(t));
    if last.0 == k {
        lemma_kv_map_at(s, s.len() - 1);
        assert forall|i: int| 0 <= i < t.len() implies !selects(sel, #[trigger] t[i].0) by {
            assert(lex_lt(s[i].0, s[s.len() - 1].0));
            lemma_lex_irreflexive(k);
        }
        lemma_select_nothing(t, sel, false);
        assert(select(s, sel, false) =~= seq![(k, kv_map(s)[k])]);
    } else {
        let i = choose|i: int| 0 <= i < s.len() && #[trigger] s[i].0 == k;
        assert(i < s.len() - 1);
        assert(t[i].0 == k);
        lemma_kv_map_at(s, i);
        lemma_kv_map_at(t, i);
        lemma_range_one_key(t, sel, k);
    }
}

/// A write followed by a read of its key sees exactly the written value;
/// a second write that asks for the previous entry gets the first value;
/// a write to a fresh key reports no previous entry.
pub proof fn lemma_put_then_read(
    m: Map<Seq<u8>, Seq<u8>>,
    s: Seq<(Seq<u8>, Seq<u8>)>,
    sel: KeySelector,
    k: Seq<u8>,
    v1: Seq<u8>,
)
    requires
        sorted_keys(s),
        kv_map(s) == m.insert(k, v1),
        sel matches KeySelector::Key(key) && key@ == k,
    ensures
        select(s, sel, false) == seq![(k, v1)],
        prev_entry(kv_map(s), k, true) == Some((k, v1)),
        !m.contains_key(k) ==> forall|asked: bool| prev_entry(m, k, asked) is None,
{
    lemma_range_one_key(s, sel, k);
}

proof fn lemma_select_members(s: Seq<(Seq<u8>, Seq<u8>)>, sel: KeySelector)
    requires
        sorted_keys(s),
    ensures
        sorted_keys(select(s, sel, false)),
        forall|j: int| 0 <= j < select(s, sel, false).len() ==> s.contains(#[trigger] select(s, sel, false)[j]) && selects(sel, select(s, sel, false)[j].0),
        forall|i: int| 0 <= i < s.len() && selects(sel, #[trigger] s[i].0) ==> select(s, sel, false).contains(s[i]),
    decreases s.len(),
{
    if s.len() > 0 {
        let t = s.drop_last();
        let n = s.len() - 1;
        assert(sorted_keys(t));
        lemma_select_members(t, sel);
        let r = select(t, sel, false);
        assert forall|j: int| 0 <= j < r.len() implies s.contains(#[trigger] r[j]) && selects(sel, r[j].0) by {
            let i = choose|i: int| 0 <= i < t.len() && t[i] == r[j];
            assert(s[i] == r[j]);
        }
        if selects(sel, s[n].0) {
            let r2 = r.push(s[n]);
            assert(select(s, sel, false) == r2);
            assert forall|a: int, b: int| 0 <= a < b < r2.len() implies lex_lt(#[trigger] r2[a].0, #[trigger] r2[b].0) by {
                if b < r.len() {
                } else {
                    assert(t.contains(r[a]));
                    let i = choose|i: int| 0 <= i < t.len() && t[i] == r[a];
                    assert(lex_lt(s[i].0, s[n].0));
                }
            }
            assert forall|j: int| 0 <= j < r2.len() implies s.contains(#[trigger] r2[j]) && selects(sel, r2[j].0) by {
                if j < r.len() {
                    assert(r2[j] == r[j]);
                } else {
                    assert(s[n] == r2[j]);
                }
            }
            assert forall|i: int| 0 <= i < s.len() && selects(sel, #[trigger] s[i].0) implies r2.contains(s[i]) by {
                if i < n {
                    assert(t[i] == s[i]);
                    let j = choose|j: int| 0 <= j < r.len() && r[j] == t[i];
                    assert(r2[j] == s[i]);
                } else {
                    assert(r2[r.len() as int] == s[i]);
                }
            }
        } else {
            assert(select(s, sel, false) == r);
            assert forall|i: int| 0 <= i < s.len() && selects(sel, #[trigger] s[i].0) implies r.contains(s[i]) by {
                assert(i < n);
                assert(t[i] == s[i]);
            }
        }
    }
}

proof fn lemma_retain_members(s: Seq<(Seq<u8>, Seq<u8>)>, sel: KeySelector)
    requires
        sorted_keys(s),
    ensures
        sorted_keys(retain(s, sel)),
        forall|j: int| 0 <= j < retain(s, sel).len() ==> s.contains(#[trigger] retain(s, sel)[j]) && !selects(sel, retain(s, sel)[j].0),
        forall|i: int| 0 <= i < s.len() && !selects(sel, #[trigger] s[i].0) ==> retain(s, sel).contains(s[i]),
    decreases s.len(),
{
    if s.len() > 0 {
        let t = s.drop_last();
        let n = s.len() - 1;
        assert(sorted_keys(t));
        lemma_retain_members(t, sel);
        let r = retain(t, sel);
        assert forall|j: int| 0 <= j < r.len() implies s.contains(#[trigger] r[j]) && !selects(sel, r[j].0) by {
            let i = choose|i: int| 0 <= i < t.len() && t[i] == r[j];
            assert(s[i] == r[j]);
        }
        if !selects(sel, s[n].0) {
            let r2 = r.push(s[n]);
            assert(retain(s, sel) == r2);
            assert forall|a: int, b: int| 0 <= a < b < r2.len() implies lex_lt(#[trigger] r2[a].0, #[trigger] r2[b].0) by {
                if b < r.len() {
                } else {
                    assert(t.contains(r[a]));
                    let i = choose|i: int| 0 <= i < t.len() && t[i] == r[a];
                    assert(lex_lt(s[i].0, s[n].0));
                }
            }
            assert forall|j: int| 0 <= j < r2.len() implies s.contains(#[trigger] r2[j]) && !selects(sel, r2[j].0) by {
                if j < r.len() {
                    assert(r2[j] == r[j]);
                } else {
                    assert(s[n] == r2[j]);
                }
            }
            assert forall|i: int| 0 <= i < s.len() && !selects(sel, #[trigger] s[i].0) implies r2.contains(s[i]) by {
                if i < n {
                    assert(t[i] == s[i]);
                    let j = choose|j: int| 0 <= j < r.len() && r[j] == t[i];
                    assert(r2[j] == s[i]);
                } else {
                    assert(r2[r.len() as int] == s[i]);
                }
            }
        } else {
            assert(retain(s, sel) == r);
            assert forall|i: int| 0 <= i < s.len() && !selects(sel, #[trigger] s[i].0) implies r.contains(s[i]) by {
                assert(i < n);
                assert(t[i] == s[i]);
            }
        }
    }
}

/// A delete over a selector reports, in strictly ascending key order,
/// exactly the stored entries whose keys the selector picks (their number is
/// the count it reports), and leaves exactly the entries it does not pick.
pub proof fn lemma_delete_range_report(s: Seq<(Seq<u8>, Seq<u8>)>, sel: KeySelector)
    requires
        sorted_keys(s),
    ensures
        sorted_keys(select(s, sel, false)),
        forall|k: Seq<u8>, v: Seq<u8>| #[trigger] select(s, sel, false).contains((k, v)) <==> (kv_map(s).contains_key(k) && kv_map(s)[k] == v && selects(sel, k)),
        kv_map(retain(s, sel)) == Map::new(|k: Seq<u8>| kv_map(s).contains_key(k) && !selects(sel, k), |k: Seq<u8>| kv_map(s)[k]),
{
    lemma_select_members(s, sel);
    lemma_retain_members(s, sel);
    let kept = retain(s, sel);
    let m = Map::new(|k: Seq<u8>| kv_map(s).contains_key(k) && !selects(sel, k), |k: Seq<u8>| kv_map(s)[k]);
    assert forall|j: int| 0 <= j < kept.len() implies m.contains_key(#[trigger] kept[j].0) && m[kept[j].0] == kept[j].1 by {
        assert(s.contains(kept[j]));
        let i = choose|i: int| 0 <= i < s.len() && s[i] == kept[j];
        lemma_kv_map_at(s, i);
    }
    assert forall|k: Seq<u8>| #[trigger] m.contains_key(k) implies has_key(kept, k) by {
        let i = choose|i: int| 0 <= i < s.len() && #[trigger] s[i].0 == k;
        assert(kept.contains(s[i]));
        let j = choose|j: int| 0 <= j < kept.len() && kept[j] == s[i];
        assert(kept[j].0 == k);
    }
    crate::kv::lemma_kv_map_eq(kept, m);
    let r = select(s, sel, false);
    assert forall|k: Seq<u8>, v: Seq<u8>| #[trigger] r.contains((k, v)) <==> (kv_map(s).contains_key(k) && kv_map(s)[k] == v && selects(sel, k)) by {
        if r.contains((k, v)) {
            let j = choose|j: int| 0 <= j < r.len() && r[j] == (k, v);
            assert(s.contains(r[j]));
            let i = choose|i: int| 0 <= i < s.len() && s[i] == r[j];
            lemma_kv_map_at(s, i);
        }
        if kv_map(s).contains_key(k) && kv_map(s)[k] == v && selects(sel, k) {
            let i = choose|i: int| 0 <= i < s.len() && #[trigger] s[i].0 == k;
            lemma_kv_map_at(s, i);
            assert(s[i] == (k, v));
        }
    }
}

/// A keys-only range returns the same keys as a full one, each with an
/// empty value.
pub proof fn lemma_keys_only_range(s: Seq<(Seq<u8>, Seq<u8>)>, sel: KeySelector)
    ensures
        select(s, sel, true) == select(s, sel, false).map_values(|e: (Seq<u8>, Seq<u8>)| (e.0, Seq::<u8>::empty())),
    decreases s.len(),
{
    if s.len() > 0 {
        lemma_keys_only_range(s.drop_last(), sel);
        let f = select(s.drop_last(), sel, false);
        if selects(sel, s.last().0) {
            assert(f.push(s.last()).map_values(|e: (Seq<u8>, Seq<u8>)| (e.0, Seq::<u8>::empty())) =~= f.map_values(
                |e: (Seq<u8>, Seq<u8>)| (e.0, Seq::<u8>::empty()),
            ).push((s.last().0, Seq::<u8>::empty())));
        }
    } else {
        assert(select(s, sel, false).map_values(|e: (Seq<u8>, Seq<u8>)| (e.0, Seq::<u8>::empty())) =~= Seq::<
            (Seq<u8>, Seq<u8>),
        >::empty());
    }
}

/// Compare-and-put on an absent key expecting absence wins; expecting the
/// stored value then wins and reports it; expecting a stale value loses,
/// reports the current value, and changes nothing.
pub proof fn lemma_compare_and_put_sequence(
    m: Map<Seq<u8>, Seq<u8>>,
    k: Seq<u8>,
    v: Seq<u8>,
    v2: Seq<u8>,
    stale: Seq<u8>,
)
    requires
        !m.contains_key(k),
        stale != v2,
    ensures
        cas_succeeds(m, k, None),
        prev_entry(m, k, true) is None,
        cas_succeeds(m.insert(k, v), k, Some(v)),
        prev_entry(m.insert(k, v), k, true) == Some((k, v)),
        !cas_succeeds(m.insert(k, v).insert(k, v2), k, Some(stale)),
        !cas_succeeds(m.insert(k, v).insert(k, v2), k, None),
        prev_entry(m.insert(k, v).insert(k, v2), k, true) == Some((k, v2)),
{
}

/// A move keeps a value already at the destination and leaves the source
/// alone; else it carries the source's value over and clears the source;
/// with neither holding a value it reports nothing and changes nothing.
pub proof fn lemma_move_value_cases(m: Map<Seq<u8>, Seq<u8>>, from: Seq<u8>, to: Seq<u8>)
    ensures
        m.contains_key(to) ==> moved(m, from, to) == m && move_report(m, from, to) == Some((to, m[to])),
        !m.contains_key(to) && m.contains_key(from) ==> moved(m, from, to).contains_key(to) && moved(m, from, to)[to] == m[from]
            && !moved(m, from, to).contains_key(from) && move_report(m, from, to) == Some((from, m[from])),
        !m.contains_key(to) && !m.contains_key(from) ==> moved(m, from, to) == m && move_report(m, from, to) is None,
{
}

/// A batch read returns the requested keys that exist, each with its value,
/// in request order; so its length is the number of those keys.
pub proof fn lemma_batch_get_exact(m: Map<Seq<u8>, Seq<u8>>, keys: Seq<Seq<u8>>)
    ensures
        get_all(m, keys) == keys.filter(|k: Seq<u8>| m.contains_key(k)).map_values(|k: Seq<u8>| (k, m[k])),
        get_all(m, keys).len() == keys.filter(|k: Seq<u8>| m.contains_key(k)).len(),
    decreases keys.len(),
{
    reveal(Seq::filter);
    if keys.len() > 0 {
        lemma_batch_get_exact(m, keys.drop_last());
        let f = keys.drop_last().filter(|k: Seq<u8>| m.contains_key(k));
        assert(keys.filter(|k: Seq<u8>| m.contains_key(k)) == if m.contains_key(keys.last()) { f.push(keys.last()) } else { f });
        if m.contains_key(keys.last()) {
            assert(f.push(keys.last()).map_values(|k: Seq<u8>| (k, m[k])) =~= f.map_values(|k: Seq<u8>| (k, m[k])).push((keys.last(), m[keys.last()])));
        }
    } else {
        assert(keys.filter(|k: Seq<u8>| m.contains_key(k)) =~= Seq::<Seq<u8>>::empty());
    }
}

} // verus!
