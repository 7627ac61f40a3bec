//! The lock protocol: its messages, and a model of the service's lock
//! table, where a named lock has at most one holder at a time. Expiry is the
//! service's own and the model keeps no clock.

use crate::bytes::{compare_bytes, copy_bytes, KeyOrder};
use vstd::prelude::*;

verus! {

pub struct LockRequest {
    pub name: Vec<u8>,
    /// How long the service may keep the lock before it expires.
    pub expire_secs: i64,
}

pub struct LockResponse {
    /// The token that releases the lock.
    pub key: Vec<u8>,
}

pub struct UnlockRequest {
    pub key: Vec<u8>,
}

/// `s` with every occurrence of `k` left out.
pub open spec fn without(s: Seq<Seq<u8>>, k: Seq<u8>) -> Seq<Seq<u8>>
    decreases s.len(),
{
    if s.len() == 0 {
        seq![]
    } else if s.last() == k {
        without(s.drop_last(), k)
    } else {
        without(s.drop_last(), k).push(s.last())
    }
}

/// The names of the locks that are held, in the order they were granted.
pub struct LockTable {
    held: Vec<Vec<u8>>,
}

impl View for LockTable {
    type V = Seq<Seq<u8>>;

    closed spec fn view(&self) -> Seq<Seq<u8>> {
        self.held@.map_values(|n: Vec<u8>| n@)
    }
}

impl LockTable {
    pub fn new() -> (r: LockTable)
        ensures
            r@.len() == 0,
    {
        LockTable { held: Vec::new() }
    }

    pub fn is_held(&self, name: &[u8]) -> (r: bool)
        ensures
            r == self@.contains(name@),
    {
        let mut i: usize = 0;
        while i < self.held.len()
            invariant
                i <= self@.len(),
                forall|j: int| 0 <= j < i ==> self@[j] != name@,
            decreases self@.len() - i,
        {
            assert(self@[i as int] == self.held@[i as int]@);
            if compare_bytes(self.held[i].as_slice(), name) == KeyOrder::Equal {
                return true;
            }
            i = i + 1;
        }
        false
    }

    /// Grants the named lock when nobody holds it; its token is its name.
    /// None means not granted yet: the service answers the request once the
    /// holder has released the lock.
    pub fn lock(&mut self, req: &LockRequest) -> (r: Option<LockResponse>)
        ensures
            old(self)@.contains(req.name@) ==> r is None && final(self)@ == old(self)@,
            !old(self)@.contains(req.name@) ==> match r {
                Some(resp) => resp.key@ == req.name@ && final(self)@ == old(self)@.push(req.name@),
                None => false,
            },
    {
        if self.is_held(req.name.as_slice()) {
            return None;
        }
        let name = copy_bytes(req.name.as_slice());
        self.held.push(name);
        assert(self@ =~= old(self)@.push(req.name@));
        Some(LockResponse { key: copy_bytes(req.name.as_slice()) })
    }

    /// Releases the lock that `key` stands for; releasing a lock that is
    /// not held changes nothing.
    pub fn unlock(&mut self, req: &UnlockRequest)
        ensures
            final(self)@ == without(old(self)@, req.key@),
    {
        let ghost s = self@;
        let mut kept: Vec<Vec<u8>> = Vec::new();
        let mut i: usize = 0;
        while i < self.held.len()
            invariant
                s == self@,
                i <= s.len(),
                kept@.map_values(|n: Vec<u8>| n@) == without(s.take(i as int), req.key@),
            decreases s.len() - i,
        {
            assert(s.take(i + 1).drop_last() =~= s.take(i as int));
            assert(s[i as int] == self.held@[i as int]@);
            if compare_bytes(self.held[i].as_slice(), req.key.as_slice()) != KeyOrder::Equal {
                let n = copy_bytes(self.held[i].as_slice());
                let ghost before = kept@;
                kept.push(n);
                assert(kept@.map_values(|n: Vec<u8>| n@) =~= before.map_values(|n: Vec<u8>| n@).push(s[i as int]));
            }
            i = i + 1;
        }
        assert(s.take(i as int) =~= s);
        self.held = kept;
    }
}

} // verus!
