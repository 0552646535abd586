//! The per-request orchestration: which tier is read, which tiers are
//! written, and what the caller gets back.
//!
//! Presence in the in-process tier gates a read of the persistent tier;
//! a failure of any tier falls through to the next one, and only the
//! origin fetch itself can fail a request.  The origin fetch is the
//! caller's: `lookup` says whether one is needed, and `store_fetched`
//! performs the unconditional distributed-tier write-through and the
//! policy-gated writes to the other tiers.

use vstd::prelude::*;
use vstd::pervasive::VecAdditionalExecFns;

use crate::local::Cache;
use crate::model::{CacheKey, CachedResponse, KeyV, RespV, clone_bytes, clone_headers, clone_key,
    clone_resp};
use crate::policy::{CachePolicy, spec_is_cacheable, spec_is_storable};
use crate::rows::{spec_content_decode, spec_content_of};
use crate::store::MemoryStore;
use crate::wire::{
    cacheableBody, cachekey_to_key, cached_response_to_value, decode_cacheable, encode_cacheable,
    encode_key, spec_unwire, spec_wire, spec_wire_key, value_to_cache_response,
};

verus! {

/// The envelope stored for `k` in a byte-keyed entry list, scanning
/// from `i`.
pub open spec fn wire_lookup(es: Seq<(Vec<u8>, Vec<u8>)>, k: Seq<u8>, i: int) -> Option<Seq<u8>>
    decreases es.len() - i,
{
    if i < 0 || i >= es.len() {
        None
    } else if es[i].0@ == k {
        Some(es[i].1@)
    } else {
        wire_lookup(es, k, i + 1)
    }
}

proof fn lemma_wire_update(
    es: Seq<(Vec<u8>, Vec<u8>)>,
    i0: int,
    item: (Vec<u8>, Vec<u8>),
    k: Seq<u8>,
    i: int,
)
    requires
        0 <= i <= es.len(),
        0 <= i0 < es.len(),
        es[i0].0@ == item.0@,
        forall|a: int, b: int| 0 <= a < b < es.len() ==> es[a].0@ != es[b].0@,
    ensures
        wire_lookup(es.update(i0, item), k, i) == if k == item.0@ && i <= i0 {
            Some(item.1@)
        } else {
            wire_lookup(es, k, i)
        },
    decreases es.len() - i,
{
    let es2 = es.update(i0, item);
    if i < 0 || i >= es.len() {
    } else {
        lemma_wire_update(es, i0, item, k, i + 1);
        if i == i0 {
            assert(es2[i] == item);
        } else {
            assert(es2[i] == es[i]);
            if es[i].0@ == k && k == item.0@ && i <= i0 {
                assert(es[i].0@ == es[i0].0@);
            }
        }
    }
}

proof fn lemma_wire_push(es: Seq<(Vec<u8>, Vec<u8>)>, item: (Vec<u8>, Vec<u8>), k: Seq<u8>, i: int)
    requires
        0 <= i <= es.len(),
    ensures
        wire_lookup(es.push(item), k, i) == match wire_lookup(es, k, i) {
            Some(v) => Some(v),
            None => if item.0@ == k {
                Some(item.1@)
            } else {
                None
            },
        },
    decreases es.len() - i,
{
    if i < es.len() {
        assert(es.push(item)[i] == es[i]);
        lemma_wire_push(es, item, k, i + 1);
    } else {
        assert(es.push(item)[es.len() as int] == item);
        assert(wire_lookup(es.push(item), k, i + 1) is None);
    }
}

/// A failed scan means no entry matches.
proof fn lemma_wire_none(es: Seq<(Vec<u8>, Vec<u8>)>, k: Seq<u8>, i: int, at: int)
    requires
        0 <= i <= at < es.len(),
        wire_lookup(es, k, i) is None,
    ensures
        es[at].0@ != k,
    decreases at - i,
{
    if i < at {
        lemma_wire_none(es, k, i + 1, at);
    }
}

/// An index holding `k`, extracted from a successful scan.
proof fn lemma_wire_witness(es: Seq<(Vec<u8>, Vec<u8>)>, k: Seq<u8>, i: int) -> (j: int)
    requires
        0 <= i,
        wire_lookup(es, k, i) is Some,
    ensures
        i <= j < es.len(),
        es[j].0@ == k,
    decreases es.len() - i,
{
    if es[i].0@ == k {
        i
    } else {
        lemma_wire_witness(es, k, i + 1)
    }
}

/// The distributed tier as this process sees it: envelope bytes stored
/// under serialized-key bytes.  The same operations the external store
/// offers — read, upsert, delete — with its contents as the model.
#[derive(Debug)]
pub struct WireStore {
    entries: Vec<(Vec<u8>, Vec<u8>)>,
}

impl WireStore {
    /// The stored envelope bytes under each key.
    pub closed spec fn spec_get(&self, k: Seq<u8>) -> Option<Seq<u8>> {
        wire_lookup(self.entries@, k, 0)
    }

    /// One entry per key.
    pub closed spec fn wf(&self) -> bool {
        forall|a: int, b: int|
            0 <= a < b < self.entries@.len() ==> self.entries@[a].0@ != self.entries@[b].0@
    }

    pub fn new() -> (r: Self)
        ensures
            r.wf(),
            forall|k: Seq<u8>| r.spec_get(k) is None,
    {
        WireStore { entries: Vec::new() }
    }

    fn find_index(&self, key: &Vec<u8>) -> (r: Option<usize>)
        ensures
            match r {
                Some(i) => i < self.entries@.len() && self.entries@[i as int].0@ == key@
                    && self.spec_get(key@) == Some(self.entries@[i as int].1@),
                None => self.spec_get(key@) is None,
            },
    {
        let mut i: usize = 0;
        while i < self.entries.len()
            invariant
                0 <= i <= self.entries@.len(),
                wire_lookup(self.entries@, key@, 0) == wire_lookup(
                    self.entries@,
                    key@,
                    i as int,
                ),
            decreases self.entries@.len() - i,
        {
            if crate::model::bytes_eq(&self.entries[i].0, key) {
                assert(wire_lookup(self.entries@, key@, i as int) == Some(
                    self.entries@[i as int].1@,
                ));
                return Some(i);
            }
            i = i + 1;
        }
        None
    }

    /// A copy of the envelope stored under the key, or a typed absence.
    pub fn get(&self, key: &Vec<u8>) -> (r: Option<Vec<u8>>)
        ensures
            match r {
                Some(v) => self.spec_get(key@) == Some(v@),
                None => self.spec_get(key@) is None,
            },
    {
        match self.find_index(key) {
            Some(i) => Some(clone_bytes(&self.entries[i].1)),
            None => None,
        }
    }

    /// Upsert: the key now holds exactly these bytes.
    pub fn set(&mut self, key: Vec<u8>, value: Vec<u8>)
        requires
            old(self).wf(),
        ensures
            final(self).wf(),
            forall|k2: Seq<u8>|
                final(self).spec_get(k2) == if k2 == key@ {
                    Some(value@)
                } else {
                    old(self).spec_get(k2)
                },
    {
        let ghost kv = key@;
        let ghost vv = value@;
        let ghost es = self.entries@;
        match self.find_index(&key) {
            Some(i) => {
                self.entries.set(i, (key, value));
                proof {
                    assert forall|k2: Seq<u8>|
                        self.spec_get(k2) == (if k2 == kv {
                            Some(vv)
                        } else {
                            wire_lookup(es, k2, 0)
                        }) by {
                        lemma_wire_update(es, i as int, self.entries@[i as int], k2, 0);
                    }
                }
            },
            None => {
                self.entries.push((key, value));
                proof {
                    assert forall|k2: Seq<u8>|
                        self.spec_get(k2) == (if k2 == kv {
                            Some(vv)
                        } else {
                            wire_lookup(es, k2, 0)
                        }) by {
                        lemma_wire_push(es, self.entries@[es.len() as int], k2, 0);
                        if k2 == kv {
                            assert(wire_lookup(es, k2, 0) is None);
                        }
                    }
                    assert forall|a: int, b: int|
                        0 <= a < b < self.entries@.len() implies self.entries@[a].0@
                        != self.entries@[b].0@ by {
                        if b == es.len() {
                            assert(self.entries@[a] == es[a]);
                            assert(self.entries@[b].0@ == kv);
                            if es[a].0@ == kv {
                                lemma_wire_none(es, kv, 0, a);
                            }
                        }
                    }
                }
            },
        }
    }

    /// Delete the key's entry; the result says whether one existed.
    pub fn remove(&mut self, key: &Vec<u8>) -> (r: bool)
        requires
            old(self).wf(),
        ensures
            final(self).wf(),
            r == old(self).spec_get(key@) is Some,
            final(self).spec_get(key@) is None,
            forall|k2: Seq<u8>|
                k2 != key@ ==> final(self).spec_get(k2) == old(self).spec_get(k2),
    {
        let ghost es = self.entries@;
        match self.find_index(key) {
            Some(i) => {
                self.entries.remove(i);
                proof {
                    assert(self.entries@ =~= es.subrange(0, i as int) + es.subrange(
                        i + 1,
                        es.len() as int,
                    ));
                    assert forall|k2: Seq<u8>|
                        self.spec_get(k2) == (if k2 == key@ {
                            None::<Seq<u8>>
                        } else {
                            wire_lookup(es, k2, 0)
                        }) by {
                        lemma_wire_cut(es, i as int, k2, 0, 0);
                    }
                }
                true
            },
            None => false,
        }
    }
}

/// Cursor form of the removal argument.
proof fn lemma_wire_cut(es: Seq<(Vec<u8>, Vec<u8>)>, i0: int, k: Seq<u8>, i: int, ci: int)
    requires
        0 <= i <= es.len(),
        0 <= i0 < es.len(),
        ci == if i <= i0 {
            i
        } else {
            i - 1
        },
        forall|a: int, b: int| 0 <= a < b < es.len() ==> es[a].0@ != es[b].0@,
    ensures
        wire_lookup(es.subrange(0, i0) + es.subrange(i0 + 1, es.len() as int), k, ci) == if k
            == es[i0].0@ && i <= i0 {
            None::<Seq<u8>>
        } else {
            wire_lookup(es, k, i)
        },
    decreases es.len() - i,
{
    let cut = es.subrange(0, i0) + es.subrange(i0 + 1, es.len() as int);
    if i >= es.len() {
        assert(ci >= cut.len());
    } else if i == i0 {
        lemma_wire_cut(es, i0, k, i + 1, ci);
        if k == es[i0].0@ {
            if wire_lookup(es, k, i + 1) is Some {
                let j2 = lemma_wire_witness(es, k, i + 1);
                assert(es[j2].0@ == es[i0].0@);
                assert(false);
            }
        }
    } else {
        lemma_wire_cut(es, i0, k, i + 1, if i + 1 <= i0 {
            i + 1
        } else {
            i
        });
        if i < i0 {
            assert(cut[i] == es[i]);
            if es[i].0@ == k && k == es[i0].0@ {
                assert(es[i].0@ != es[i0].0@);
            }
        } else {
            assert(cut[i - 1] == es[i]);
        }
    }
}

// ------------------------------------------------------------------
// The orchestrator
// ------------------------------------------------------------------

/// What a tier lookup produced: a cached response, or the instruction
/// to fetch from the origin and write the result through.
#[derive(Debug)]
pub enum LookupOutcome {
    Found(CachedResponse),
    NeedsOrigin,
}

/// The three tiers one proxy process works with.
#[derive(Debug)]
pub struct CacheSystem {
    pub l1: Cache,
    pub l2: WireStore,
    pub l3: MemoryStore,
}

impl CacheSystem {
    pub open spec fn wf(&self) -> bool {
        self.l1.wf() && self.l2.wf() && self.l3.wf()
    }

    /// What the distributed tier yields for a model key: the stored
    /// envelope, decoded; any malformation is a miss.
    pub open spec fn spec_l2_find(&self, kv: KeyV) -> Option<RespV> {
        match self.l2.spec_get(spec_wire_key(kv)) {
            None => None,
            Some(bytes) => match spec_unwire(bytes) {
                None => None,
                Some(p) => Some(p.1),
            },
        }
    }

    /// What a lookup yields before any origin fetch: presence in the
    /// in-process tier gates a persistent-tier read; any failure along
    /// the way falls through to the distributed tier.
    pub open spec fn spec_lookup_result(&self, kv: KeyV) -> Option<RespV> {
        if self.l1.spec_contains(kv) && self.l3.spec_find_ok(kv) is Some {
            self.l3.spec_find_ok(kv)
        } else {
            self.spec_l2_find(kv)
        }
    }

    pub fn new() -> (r: Self)
        ensures
            r.wf(),
            forall|k: KeyV| !r.l1.spec_contains(k),
            forall|k: Seq<u8>| r.l2.spec_get(k) is None,
            forall|k: KeyV| !r.l3.spec_contains(k),
    {
        CacheSystem { l1: Cache::new(), l2: WireStore::new(), l3: MemoryStore::new() }
    }

    /// Steps one and two of a request: consult the in-process tier,
    /// then the persistent or the distributed tier.  A hit from the
    /// distributed tier repopulates the in-process tier.  No tier
    /// failure aborts the request: the caller is told to fetch from
    /// the origin instead.
    pub fn lookup(&mut self, key: &CacheKey) -> (r: LookupOutcome)
        requires
            old(self).wf(),
        ensures
            final(self).wf(),
            final(self).l2 == old(self).l2,
            final(self).l3 == old(self).l3,
            match r {
                LookupOutcome::Found(c) => old(self).spec_lookup_result(key@) == Some(c@),
                LookupOutcome::NeedsOrigin => old(self).spec_lookup_result(key@) is None,
            },
            if old(self).l1.spec_contains(key@) && old(self).l3.spec_find_ok(key@) is Some {
                final(self).l1 == old(self).l1
            } else if old(self).spec_l2_find(key@) is Some {
                forall|k2: KeyV|
                    final(self).l1.spec_get(k2) == if k2 == key@ {
                        old(self).spec_l2_find(key@)
                    } else {
                        old(self).l1.spec_get(k2)
                    }
            } else {
                final(self).l1 == old(self).l1
            },
    {
        let ghost kv = key@;
        if self.l1.is_cached(&key.method, &key.uri) {
            match self.l3.find_page_and_content(key) {
                Ok(c) => {
                    return LookupOutcome::Found(c);
                },
                Err(_) => {},
            }
        }
        let wire_key = encode_key(&cachekey_to_key(key));
        assert(wire_key@ == spec_wire_key(kv));
        match self.l2.get(&wire_key) {
            None => LookupOutcome::NeedsOrigin,
            Some(env) => {
                match decode_cacheable(&env) {
                    Err(_) => LookupOutcome::NeedsOrigin,
                    Ok(cb) => {
                        match value_to_cache_response(&cb.value) {
                            Err(_) => LookupOutcome::NeedsOrigin,
                            Ok(c) => {
                                self.l1.insert(clone_key(key), clone_resp(&c));
                                LookupOutcome::Found(c)
                            },
                        }
                    },
                }
            },
        }
    }

    /// Steps four and five of a request, after an origin fetch: the
    /// fresh value always goes to the distributed tier; the policy on
    /// its headers decides the in-process and the persistent writes.
    pub fn store_fetched(&mut self, key: &CacheKey, resp: &CachedResponse)
        requires
            old(self).wf(),
        ensures
            final(self).wf(),
            spec_store_rel(*old(self), *final(self), key@, resp@),
    {
        let k = cachekey_to_key(key);
        let v = cached_response_to_value(resp);
        let wire_key = encode_key(&k);
        assert(wire_key@ == spec_wire_key(key@));
        let cb = cacheableBody { key: k, value: v };
        assert(cb@ =~= (crate::wire::CbV {
            key: crate::wire::spec_key_of(key@),
            value: crate::wire::spec_value_of(resp@),
        }));
        let env = encode_cacheable(&cb);
        assert(env@ == spec_wire(key@, resp@));
        self.l2.set(wire_key, env);
        let policy = CachePolicy { headers: clone_headers(&resp.headers) };
        if policy.is_cacheable() {
            self.l1.insert(clone_key(key), clone_resp(resp));
        }
        if policy.is_storable_to_disk() {
            let added = self.l3.add(clone_key(key), clone_resp(resp));
            match added {
                Ok(_) => {},
                Err(_) => {},
            }
        }
    }
}

/// How the write-through relates the system before the store to the
/// system after it: the distributed tier holds the fresh envelope under
/// the key and nothing else changed there; the in-process tier gains
/// the entry exactly when the policy says cacheable; the persistent
/// tier gains the key exactly when the policy says disk-worthy and the
/// key was new, and is untouched otherwise.
pub open spec fn spec_store_rel(s0: CacheSystem, s1: CacheSystem, kv: KeyV, c: RespV) -> bool {
    &&& forall|kb: Seq<u8>|
        s1.l2.spec_get(kb) == if kb == spec_wire_key(kv) {
            Some(spec_wire(kv, c))
        } else {
            s0.l2.spec_get(kb)
        }
    &&& if spec_is_cacheable(c.headers) {
        forall|k2: KeyV|
            s1.l1.spec_get(k2) == if k2 == kv {
                Some(c)
            } else {
                s0.l1.spec_get(k2)
            }
    } else {
        s1.l1 == s0.l1
    }
    &&& if spec_is_storable(c.headers) {
        &&& forall|k2: KeyV|
            s1.l3.spec_find_ok(k2) == if k2 == kv && !s0.l3.spec_contains(kv) {
                spec_content_decode(spec_content_of(c))
            } else {
                s0.l3.spec_find_ok(k2)
            }
        &&& forall|k2: KeyV| s1.l3.spec_contains(k2) == (s0.l3.spec_contains(k2) || k2 == kv)
    } else {
        s1.l3 == s0.l3
    }
}

} // verus!
