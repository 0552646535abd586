//! The in-process tier: a mapping from cache key to cached response.
//! One instance is constructed at startup and shared behind a lock by
//! whoever runs requests; the operations here are the whole of what the
//! lock protects, so its critical sections stay small.  A miss is a
//! typed absence, never a failure.

use vstd::prelude::*;
use vstd::pervasive::VecAdditionalExecFns;

use crate::model::{CacheKey, CachedResponse, Header, KeyV, RespV, clone_key, clone_resp,
    hviews, key_matches};
use crate::policy::{CachePolicy, spec_is_stale};

verus! {

/// The value stored for `k` in an entry list, scanning from `i`.
pub open spec fn lookup_entry(es: Seq<(CacheKey, CachedResponse)>, k: KeyV, i: int) -> Option<
    RespV,
>
    decreases es.len() - i,
{
    if i < 0 || i >= es.len() {
        None
    } else if es[i].0@ == k {
        Some(es[i].1@)
    } else {
        lookup_entry(es, k, i + 1)
    }
}

/// Replacing the entry that holds `k` changes only `k`'s value.
proof fn lemma_lookup_update(
    es: Seq<(CacheKey, CachedResponse)>,
    i0: int,
    item: (CacheKey, CachedResponse),
    k: KeyV,
    i: int,
)
    requires
        0 <= i <= es.len(),
        0 <= i0 < es.len(),
        es[i0].0@ == item.0@,
        forall|a: int, b: int| 0 <= a < b < es.len() ==> es[a].0@ != es[b].0@,
    ensures
        lookup_entry(es.update(i0, item), k, i) == if k == item.0@ && i <= i0 {
            Some(item.1@)
        } else {
            lookup_entry(es, k, i)
        },
    decreases es.len() - i,
{
    let es2 = es.update(i0, item);
    if i < 0 || i >= es.len() {
    } else {
        lemma_lookup_update(es, i0, item, k, i + 1);
        if i == i0 {
            assert(es2[i] == item);
            if k == item.0@ {
            } else {
                assert(es[i].0@ == item.0@);
                assert(es[i].0@ != k);
            }
        } else {
            assert(es2[i] == es[i]);
            if es[i].0@ == k {
                if k == item.0@ && i <= i0 {
                    assert(es[i].0@ == es[i0].0@);
                    assert(false);
                }
            }
        }
    }
}

/// Appending an entry for a key not present adds exactly that key.
proof fn lemma_lookup_push(
    es: Seq<(CacheKey, CachedResponse)>,
    item: (CacheKey, CachedResponse),
    k: KeyV,
    i: int,
)
    requires
        0 <= i <= es.len(),
    ensures
        lookup_entry(es.push(item), k, i) == match lookup_entry(es, k, i) {
            Some(v) => Some(v),
            None => if item.0@ == k {
                Some(item.1@)
            } else {
                None
            },
        },
    decreases es.len() - i,
{
    if i < es.len() {
        assert(es.push(item)[i] == es[i]);
        lemma_lookup_push(es, item, k, i + 1);
    } else {
        assert(es.push(item)[es.len() as int] == item);
        assert(lookup_entry(es.push(item), k, i + 1) is None);
    }
}

/// How a sweep at `now` relates the cache before to the cache after:
/// exactly the stale entries are gone, every other entry is untouched.
pub open spec fn sweep_rel(before: Cache, after: Cache, now: u64) -> bool {
    forall|k2: KeyV|
        after.spec_get(k2) == match before.spec_get(k2) {
            Some(c) => if spec_is_stale(c.headers, c.cached_at, now) {
                None::<RespV>
            } else {
                Some(c)
            },
            None => None::<RespV>,
        }
}

/// The in-process cache.
#[derive(Debug)]
pub struct Cache {
    entries: Vec<(CacheKey, CachedResponse)>,
}

impl Cache {
    /// The mapping this cache holds.
    pub closed spec fn spec_get(&self, k: KeyV) -> Option<RespV> {
        lookup_entry(self.entries@, k, 0)
    }

    pub open spec fn spec_contains(&self, k: KeyV) -> bool {
        self.spec_get(k) is Some
    }

    /// One entry per key.
    pub closed spec fn wf(&self) -> bool {
        forall|a: int, b: int|
            0 <= a < b < self.entries@.len() ==> self.entries@[a].0@ != self.entries@[b].0@
    }

    pub fn new() -> (r: Self)
        ensures
            r.wf(),
            forall|k: KeyV| r.spec_get(k) is None,
    {
        Cache { entries: Vec::new() }
    }

    /// Index of the entry holding the key, if any.
    fn find_index(&self, method: &Vec<u8>, uri: &Vec<u8>) -> (r: Option<usize>)
        ensures
            match r {
                Some(i) => i < self.entries@.len() && self.entries@[i as int].0@ == (KeyV {
                    method: method@,
                    uri: uri@,
                }) && self.spec_get(KeyV { method: method@, uri: uri@ }) == Some(
                    self.entries@[i as int].1@,
                ),
                None => self.spec_get(KeyV { method: method@, uri: uri@ }) is None,
            },
    {
        let ghost k = KeyV { method: method@, uri: uri@ };
        let probe = CacheKey { method: crate::model::clone_bytes(method), uri:
            crate::model::clone_bytes(uri) };
        let mut i: usize = 0;
        while i < self.entries.len()
            invariant
                0 <= i <= self.entries@.len(),
                probe@ == k,
                k == (KeyV { method: method@, uri: uri@ }),
                lookup_entry(self.entries@, k, 0) == lookup_entry(self.entries@, k, i as int),
            decreases self.entries@.len() - i,
        {
            if key_matches(&self.entries[i].0, &probe) {
                assert(lookup_entry(self.entries@, k, i as int) == Some(
                    self.entries@[i as int].1@,
                ));
                return Some(i);
            }
            i = i + 1;
        }
        None
    }

    /// Unconditional upsert: any prior value for the key is replaced.
    pub fn insert(&mut self, key: CacheKey, resp: CachedResponse)
        requires
            old(self).wf(),
        ensures
            final(self).wf(),
            forall|k2: KeyV|
                final(self).spec_get(k2) == if k2 == key@ {
                    Some(resp@)
                } else {
                    old(self).spec_get(k2)
                },
    {
        let ghost kv = key@;
        let ghost rv = resp@;
        let ghost es = self.entries@;
        match self.find_index(&key.method, &key.uri) {
            Some(i) => {
                self.entries.set(i, (key, resp));
                proof {
                    assert forall|k2: KeyV|
                        self.spec_get(k2) == (if k2 == kv {
                            Some(rv)
                        } else {
                            lookup_entry(es, k2, 0)
                        }) by {
                        lemma_lookup_update(es, i as int, self.entries@[i as int], k2, 0);
                    }
                }
            },
            None => {
                self.entries.push((key, resp));
                proof {
                    assert forall|k2: KeyV|
                        self.spec_get(k2) == (if k2 == kv {
                            Some(rv)
                        } else {
                            lookup_entry(es, k2, 0)
                        }) by {
                        lemma_lookup_push(es, self.entries@[es.len() as int], k2, 0);
                        if k2 == kv {
                            assert(lookup_entry(es, k2, 0) is None);
                        }
                    }
                    assert forall|a: int, b: int|
                        0 <= a < b < self.entries@.len() implies self.entries@[a].0@
                        != self.entries@[b].0@ by {
                        if b < es.len() {
                        } else {
                            assert(self.entries@[b].0@ == kv);
                            if self.entries@[a].0@ == kv {
                                crate::local::lemma_lookup_found(es, kv, 0, a);
                            }
                        }
                    }
                }
            },
        }
    }

    /// Build the stored response for (method, uri, status, headers,
    /// body) cached at `now`, and insert it.
    pub fn insert_into_cache(
        &mut self,
        method: Vec<u8>,
        uri: Vec<u8>,
        status: u16,
        headers: Vec<Header>,
        body: Vec<u8>,
        now: u64,
    )
        requires
            old(self).wf(),
        ensures
            final(self).wf(),
            forall|k2: KeyV|
                final(self).spec_get(k2) == if k2 == (KeyV { method: method@, uri: uri@ }) {
                    Some(
                        RespV {
                            status,
                            headers: hviews(headers@),
                            body: body@,
                            cached_at: now,
                        },
                    )
                } else {
                    old(self).spec_get(k2)
                },
    {
        let key = CacheKey::new(method, uri);
        let resp = CachedResponse::new(status, headers, body, now);
        self.insert(key, resp);
    }

    /// A deep copy of the stored response, or a typed absence.
    pub fn get_from_cache(&self, method: &Vec<u8>, uri: &Vec<u8>) -> (r: Option<CachedResponse>)
        ensures
            match r {
                Some(c) => self.spec_get(KeyV { method: method@, uri: uri@ }) == Some(c@),
                None => self.spec_get(KeyV { method: method@, uri: uri@ }) is None,
            },
    {
        match self.find_index(method, uri) {
            Some(i) => Some(clone_resp(&self.entries[i].1)),
            None => None,
        }
    }

    pub fn is_cached(&self, method: &Vec<u8>, uri: &Vec<u8>) -> (r: bool)
        ensures
            r == self.spec_contains(KeyV { method: method@, uri: uri@ }),
    {
        match self.find_index(method, uri) {
            Some(_) => true,
            None => false,
        }
    }

    /// How many entries the cache holds.
    pub closed spec fn spec_len(&self) -> nat {
        self.entries@.len()
    }

    pub fn len(&self) -> (r: usize)
        ensures
            r == self.spec_len(),
    {
        self.entries.len()
    }

    /// An independent deep copy: the snapshot and the original evolve
    /// separately from here on.
    pub fn snapshot(&self) -> (r: Cache)
        requires
            self.wf(),
        ensures
            r.wf(),
            forall|k2: KeyV| r.spec_get(k2) == self.spec_get(k2),
    {
        let mut out: Vec<(CacheKey, CachedResponse)> = Vec::new();
        let mut i: usize = 0;
        while i < self.entries.len()
            invariant
                0 <= i <= self.entries@.len(),
                out@.len() == i,
                forall|j: int| 0 <= j < i ==> out@[j].0@ == self.entries@[j].0@ && out@[j].1@
                    == self.entries@[j].1@,
            decreases self.entries@.len() - i,
        {
            out.push((clone_key(&self.entries[i].0), clone_resp(&self.entries[i].1)));
            i = i + 1;
        }
        let r = Cache { entries: out };
        proof {
            assert forall|k2: KeyV| r.spec_get(k2) == self.spec_get(k2) by {
                lemma_lookup_pointwise(r.entries@, self.entries@, k2, 0);
            }
        }
        r
    }

    /// Remove the key's entry.  `Some(1)` says one entry went away.
    pub fn remove_from_cache(&mut self, method: &Vec<u8>, uri: &Vec<u8>) -> (r: Option<u32>)
        requires
            old(self).wf(),
        ensures
            final(self).wf(),
            r == if old(self).spec_contains(KeyV { method: method@, uri: uri@ }) {
                Some(1u32)
            } else {
                None::<u32>
            },
            final(self).spec_get(KeyV { method: method@, uri: uri@ }) is None,
            forall|k2: KeyV|
                k2 != (KeyV { method: method@, uri: uri@ }) ==> final(self).spec_get(k2) == old(
                    self,
                ).spec_get(k2),
    {
        let ghost kv = KeyV { method: method@, uri: uri@ };
        match self.find_index(method, uri) {
            Some(i) => {
                let ghost es = self.entries@;
                self.entries.remove(i);
                proof {
                    assert(self.entries@ =~= es.subrange(0, i as int) + es.subrange(
                        i + 1,
                        es.len() as int,
                    ));
                    assert forall|k2: KeyV|
                        self.spec_get(k2) == (if k2 == kv {
                            None::<RespV>
                        } else {
                            lookup_entry(es, k2, 0)
                        }) by {
                        lemma_lookup_remove(es, i as int, k2, 0);
                    }
                }
                Some(1)
            },
            None => None,
        }
    }

    /// One sweep cycle at time `now`: every entry whose headers carry an
    /// expired `max-age` is removed; everything else stays.  An entry
    /// without a `max-age` never expires.
    pub fn remove_stale_cache(&mut self, now: u64)
        requires
            old(self).wf(),
        ensures
            final(self).wf(),
            sweep_rel(*old(self), *final(self), now),
    {
        let ghost es = self.entries@;
        let mut kept: Vec<(CacheKey, CachedResponse)> = Vec::new();
        let mut i: usize = 0;
        while i < self.entries.len()
            invariant
                0 <= i <= self.entries@.len(),
                es == self.entries@,
                forall|a: int, b: int| 0 <= a < b < es.len() ==> es[a].0@ != es[b].0@,
                forall|k2: KeyV|
                    lookup_entry(kept@, k2, 0) == match lookup_entry(
                        es.subrange(0, i as int),
                        k2,
                        0,
                    ) {
                        Some(c) => if spec_is_stale(c.headers, c.cached_at, now) {
                            None::<RespV>
                        } else {
                            Some(c)
                        },
                        None => None::<RespV>,
                    },
                forall|j: int| 0 <= j < kept@.len() ==> lookup_entry(
                    es.subrange(0, i as int),
                    #[trigger] kept@[j].0@,
                    0,
                ) is Some,
                forall|a: int, b: int| 0 <= a < b < kept@.len() ==> kept@[a].0@ != kept@[b].0@,
            decreases self.entries@.len() - i,
        {
            let ghost pre = es.subrange(0, i as int);
            let ghost post = es.subrange(0, i + 1);
            let entry = &self.entries[i];
            let policy = CachePolicy { headers: crate::model::clone_headers(&entry.1.headers) };
            let stale = policy.is_stale(entry.1.cached_at, now);
            assert(hviews(policy.headers@) == es[i as int].1@.headers);
            let ghost keptpre = kept@;
            if !stale {
                kept.push((clone_key(&entry.0), clone_resp(&entry.1)));
            }
            proof {
                assert forall|k2: KeyV|
                    lookup_entry(kept@, k2, 0) == (match lookup_entry(post, k2, 0) {
                        Some(c) => if spec_is_stale(c.headers, c.cached_at, now) {
                            None::<RespV>
                        } else {
                            Some(c)
                        },
                        None => None::<RespV>,
                    }) by {
                    lemma_lookup_snoc(post, pre, k2);
                    if lookup_entry(pre, k2, 0) is Some {
                        let j2 = lemma_lookup_witness(pre, k2, 0);
                        assert(pre[j2] == es[j2]);
                        assert(es[j2].0@ == k2);
                    }
                    if !stale {
                        lemma_lookup_push(keptpre, kept@[keptpre.len() as int], k2, 0);
                    }
                }
                assert forall|j: int| 0 <= j < kept@.len() implies lookup_entry(
                    post,
                    #[trigger] kept@[j].0@,
                    0,
                ) is Some by {
                    if j < keptpre.len() {
                        assert(lookup_entry(pre, keptpre[j].0@, 0) is Some);
                        lemma_lookup_snoc(post, pre, kept@[j].0@);
                    } else {
                        assert(kept@[j].0@ == es[i as int].0@);
                        lemma_lookup_snoc(post, pre, kept@[j].0@);
                    }
                }
                if !stale {
                    assert forall|a: int, b: int|
                        0 <= a < b < kept@.len() implies kept@[a].0@ != kept@[b].0@ by {
                        if b == keptpre.len() {
                            assert(lookup_entry(pre, keptpre[a].0@, 0) is Some);
                            let j2 = lemma_lookup_witness(pre, keptpre[a].0@, 0);
                            assert(pre[j2] == es[j2]);
                            assert(es[j2].0@ != es[i as int].0@);
                        }
                    }
                }
            }
            i = i + 1;
        }
        assert(es.subrange(0, es.len() as int) =~= es);
        self.entries = kept;
    }
}

/// An index holding `k`, extracted from a successful scan.
proof fn lemma_lookup_witness(es: Seq<(CacheKey, CachedResponse)>, k: KeyV, i: int) -> (j: int)
    requires
        0 <= i,
        lookup_entry(es, k, i) is Some,
    ensures
        i <= j < es.len(),
        es[j].0@ == k,
    decreases es.len() - i,
{
    if es[i].0@ == k {
        i
    } else {
        lemma_lookup_witness(es, k, i + 1)
    }
}

/// If a scan finds nothing for `k`, no entry at or after `i` holds `k`.
proof fn lemma_lookup_found(es: Seq<(CacheKey, CachedResponse)>, k: KeyV, i: int, at: int)
    requires
        0 <= i <= at < es.len(),
        lookup_entry(es, k, i) is None,
    ensures
        es[at].0@ != k,
    decreases at - i,
{
    if i < at {
        lemma_lookup_found(es, k, i + 1, at);
    }
}

/// Scans agree on entry lists whose keys and values agree pointwise.
proof fn lemma_lookup_pointwise(
    a: Seq<(CacheKey, CachedResponse)>,
    b: Seq<(CacheKey, CachedResponse)>,
    k: KeyV,
    i: int,
)
    requires
        0 <= i,
        a.len() == b.len(),
        forall|j: int| 0 <= j < a.len() ==> a[j].0@ == b[j].0@ && a[j].1@ == b[j].1@,
    ensures
        lookup_entry(a, k, i) == lookup_entry(b, k, i),
    decreases a.len() - i,
{
    if i < a.len() {
        lemma_lookup_pointwise(a, b, k, i + 1);
    }
}

/// Scanning one entry more than a prefix.
proof fn lemma_lookup_snoc(
    post: Seq<(CacheKey, CachedResponse)>,
    pre: Seq<(CacheKey, CachedResponse)>,
    k: KeyV,
)
    requires
        post.len() == pre.len() + 1,
        forall|j: int| 0 <= j < pre.len() ==> post[j] == pre[j],
    ensures
        lookup_entry(post, k, 0) == match lookup_entry(pre, k, 0) {
            Some(v) => Some(v),
            None => if post[pre.len() as int].0@ == k {
                Some(post[pre.len() as int].1@)
            } else {
                None
            },
        },
{
    assert(post =~= pre.push(post[pre.len() as int]));
    lemma_lookup_push(pre, post[pre.len() as int], k, 0);
}

/// Dropping the entry at `i0` removes exactly its key.
proof fn lemma_lookup_remove(es: Seq<(CacheKey, CachedResponse)>, i0: int, k: KeyV, i: int)
    requires
        0 <= i <= es.len(),
        0 <= i0 < es.len(),
        forall|a: int, b: int| 0 <= a < b < es.len() ==> es[a].0@ != es[b].0@,
    ensures
        lookup_entry(es.subrange(0, i0) + es.subrange(i0 + 1, es.len() as int), k, 0) == if k
            == es[i0].0@ {
            None::<RespV>
        } else {
            lookup_entry(es, k, 0)
        },
    decreases es.len(),
{
    let cut = es.subrange(0, i0) + es.subrange(i0 + 1, es.len() as int);
    lemma_lookup_cut(es, cut, i0, k, 0, 0);
}

/// Cursor form of the removal lemma.
proof fn lemma_lookup_cut(
    es: Seq<(CacheKey, CachedResponse)>,
    cut: Seq<(CacheKey, CachedResponse)>,
    i0: int,
    k: KeyV,
    i: int,
    ci: int,
)
    requires
        0 <= i <= es.len(),
        0 <= i0 < es.len(),
        cut == es.subrange(0, i0) + es.subrange(i0 + 1, es.len() as int),
        ci == if i <= i0 {
            i
        } else {
            i - 1
        },
        forall|a: int, b: int| 0 <= a < b < es.len() ==> es[a].0@ != es[b].0@,
    ensures
        lookup_entry(cut, k, ci) == if k == es[i0].0@ && i <= i0 {
            None::<RespV>
        } else {
            lookup_entry(es, k, i)
        },
    decreases es.len() - i,
{
    if i >= es.len() {
        assert(ci >= cut.len());
    } else if i == i0 {
        lemma_lookup_cut(es, cut, i0, k, i + 1, ci);
        if k == es[i0].0@ {
            if lookup_entry(es, k, i + 1) is Some {
                let j2 = lemma_lookup_witness(es, k, i + 1);
                assert(es[j2].0@ == es[i0].0@);
                assert(false);
            }
        }
    } else {
        lemma_lookup_cut(es, cut, i0, k, i + 1, if i + 1 <= i0 {
            i + 1
        } else {
            i
        });
        if i < i0 {
            assert(cut[i] == es[i]);
            if es[i].0@ == k && k == es[i0].0@ {
                assert(es[i].0@ != es[i0].0@);
            }
        } else {
            assert(cut[i - 1] == es[i]);
        }
    }
}

} // verus!
