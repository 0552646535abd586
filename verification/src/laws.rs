//! The system-level guarantees, stated and proved once over the tier
//! models: what the write-through leaves in each tier for each policy
//! band, what a sweep removes, what the storage encodings preserve, and
//! what identifies a cache entry.

use vstd::prelude::*;

use crate::local::{Cache, sweep_rel};
use crate::model::{KeyV, RespV, resp_wf};
use crate::orchestrator::{CacheSystem, spec_store_rel};
use crate::policy::{spec_is_cacheable, spec_is_stale, spec_is_storable, spec_max_age};
use crate::rows::{spec_content_decode, spec_content_of, lemma_row_round_trip};
use crate::wire::{spec_unwire, spec_wire, spec_wire_key, lemma_wire_round_trip};

verus! {

/// A response with `max-age` strictly between zero and one hour, written
/// through after an origin fetch, sits in the in-process and the
/// distributed tier — where it decodes back exactly, so a lookup within
/// the window is served without a second origin fetch — and the
/// persistent tier was not written.
pub proof fn lemma_short_ttl_write_through(
    s0: CacheSystem,
    s1: CacheSystem,
    kv: KeyV,
    c: RespV,
    n: u64,
)
    requires
        resp_wf(c),
        spec_max_age(c.headers) == Some(n),
        0 < n < 3600,
        spec_store_rel(s0, s1, kv, c),
    ensures
        s1.l1.spec_get(kv) == Some(c),
        s1.spec_l2_find(kv) == Some(c),
        s1.l3 == s0.l3,
        s0.l3.spec_find_ok(kv) is None ==> s1.spec_lookup_result(kv) == Some(c),
{
    assert(spec_is_cacheable(c.headers));
    assert(!spec_is_storable(c.headers));
    assert(s1.l2.spec_get(spec_wire_key(kv)) == Some(spec_wire(kv, c)));
    lemma_wire_round_trip(kv, c);
    assert(s1.spec_l2_find(kv) == Some(c));
}

/// A response with `max-age` of an hour or more, written through for a
/// key the persistent tier did not yet hold, is additionally
/// retrievable from the persistent tier alone — the tier that survives
/// a process restart with the other two cleared.
pub proof fn lemma_long_ttl_write_through(
    s0: CacheSystem,
    s1: CacheSystem,
    kv: KeyV,
    c: RespV,
    n: u64,
)
    requires
        resp_wf(c),
        spec_max_age(c.headers) == Some(n),
        n >= 3600,
        !s0.l3.spec_contains(kv),
        spec_store_rel(s0, s1, kv, c),
    ensures
        s1.l1.spec_get(kv) == Some(c),
        s1.spec_l2_find(kv) == Some(c),
        s1.l3.spec_find_ok(kv) == Some(c),
{
    assert(spec_is_cacheable(c.headers));
    assert(spec_is_storable(c.headers));
    lemma_wire_round_trip(kv, c);
    lemma_row_round_trip(c);
    assert(s1.l3.spec_find_ok(kv) == spec_content_decode(spec_content_of(c)));
}

/// A response whose headers carry no positive `max-age` — absent,
/// malformed, or zero — is never written to the in-process or the
/// persistent tier; the distributed tier still receives it, per the
/// unconditional write-through.
pub proof fn lemma_uncacheable_write_through(s0: CacheSystem, s1: CacheSystem, kv: KeyV, c: RespV)
    requires
        !spec_is_cacheable(c.headers),
        spec_store_rel(s0, s1, kv, c),
    ensures
        s1.l1 == s0.l1,
        s1.l3 == s0.l3,
        s1.l2.spec_get(spec_wire_key(kv)) == Some(spec_wire(kv, c)),
{
    assert(!spec_is_storable(c.headers));
}

/// Within its `max-age` window an entry is not stale, so no sweep
/// removes it before its time: what the write-through put in the
/// in-process tier stays retrievable for the whole window.
pub proof fn lemma_fresh_within_window(c: RespV, n: u64, now: u64)
    requires
        spec_max_age(c.headers) == Some(n),
        now <= c.cached_at + n,
    ensures
        !spec_is_stale(c.headers, c.cached_at, now),
{
}

/// A sweep removes exactly the stale entries: one that has expired by
/// `now` is gone afterwards — so a later lookup falls through to the
/// distributed tier or the origin — and one still fresh is untouched.
pub proof fn lemma_sweep_is_exact(c0: Cache, c1: Cache, kv: KeyV, c: RespV, now: u64)
    requires
        sweep_rel(c0, c1, now),
        c0.spec_get(kv) == Some(c),
    ensures
        spec_is_stale(c.headers, c.cached_at, now) ==> !c1.spec_contains(kv),
        !spec_is_stale(c.headers, c.cached_at, now) ==> c1.spec_get(kv) == Some(c),
{
}

/// With the in-process tier no longer holding the key, a lookup is
/// decided by the distributed tier alone.
pub proof fn lemma_absent_l1_falls_through(s: CacheSystem, kv: KeyV)
    requires
        !s.l1.spec_contains(kv),
    ensures
        s.spec_lookup_result(kv) == s.spec_l2_find(kv),
{
}

/// The round-trip law, stated as the original serialization shape:
/// encoding, decoding and encoding again is the first encoding — for
/// both storage forms, on any well-formed response.
pub proof fn lemma_storage_form_idempotent(k: KeyV, c: RespV)
    requires
        resp_wf(c),
    ensures
        spec_unwire(spec_wire(k, c)) == Some((k, c)),
        spec_wire(k, spec_unwire(spec_wire(k, c)).unwrap().1) == spec_wire(k, c),
        spec_content_decode(spec_content_of(c)) == Some(c),
        spec_content_of(spec_content_decode(spec_content_of(c)).unwrap()) == spec_content_of(c),
{
    lemma_wire_round_trip(k, c);
    lemma_row_round_trip(c);
}

/// What identifies a cache entry: the (method, uri) pair and nothing
/// else.  Requests that differ only in their headers share the entry;
/// a different method or uri is a different entry.
pub proof fn lemma_key_identity(cache: Cache, m1: Seq<u8>, u1: Seq<u8>, m2: Seq<u8>, u2: Seq<u8>)
    ensures
        ((KeyV { method: m1, uri: u1 }) == (KeyV { method: m2, uri: u2 })) <==> (m1 == m2 && u1
            == u2),
        m1 == m2 && u1 == u2 ==> cache.spec_get(KeyV { method: m1, uri: u1 }) == cache.spec_get(
            KeyV { method: m2, uri: u2 },
        ),
{
    if m1 == m2 && u1 == u2 {
        assert((KeyV { method: m1, uri: u1 }) =~= (KeyV { method: m2, uri: u2 }));
    }
}

} // verus!
