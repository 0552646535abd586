//! The cache model: the key and value types that every tier shares.
//!
//! Text is carried as bytes.  A cache key is the pair (method, uri), equal
//! exactly when both byte strings are equal.  A cached response holds the
//! status code, an ordered multi-valued header collection, the body bytes
//! and the time it was cached, in seconds since the epoch.

use vstd::prelude::*;

verus! {

/// Why a stored form would not decode back into the model.  Decoding
/// never panics: a malformed stored value surfaces as one of these and
/// the tier that held it is treated as a miss.
#[derive(Debug, PartialEq, Eq, Structural, Clone, Copy)]
pub enum DecodeError {
    MalformedHeaderLine,
    BadStatus,
    BadCachedAt,
    BadBody,
    BadEnvelope,
}

/// Why the persistent tier returned no response.
#[derive(Debug, PartialEq, Eq, Structural, Clone, Copy)]
pub enum StoreError {
    /// No resource row for the key.
    NotFound,
    /// A resource row exists with no content row.
    Consistency,
    /// The content row would not decode.
    Serialization,
}

/// One response header: a name and a value, both byte strings.
#[derive(Debug)]
pub struct Header {
    pub name: Vec<u8>,
    pub value: Vec<u8>,
}

#[verifier::ext_equal]
pub struct HeaderV {
    pub name: Seq<u8>,
    pub value: Seq<u8>,
}

impl View for Header {
    type V = HeaderV;

    open spec fn view(&self) -> HeaderV {
        HeaderV { name: self.name@, value: self.value@ }
    }
}

/// The views of a header list.
pub open spec fn hviews(hs: Seq<Header>) -> Seq<HeaderV> {
    hs.map_values(|h: Header| h@)
}

/// Identifies one logical cached resource.  No normalization is applied:
/// the method is case-sensitive and the uri must already be canonical.
#[derive(Debug)]
pub struct CacheKey {
    pub method: Vec<u8>,
    pub uri: Vec<u8>,
}

#[verifier::ext_equal]
pub struct KeyV {
    pub method: Seq<u8>,
    pub uri: Seq<u8>,
}

impl View for CacheKey {
    type V = KeyV;

    open spec fn view(&self) -> KeyV {
        KeyV { method: self.method@, uri: self.uri@ }
    }
}

/// An immutable snapshot of an origin response together with the time it
/// was cached.  Updates replace the whole value in a tier; nothing mutates
/// one in place.
#[derive(Debug)]
pub struct CachedResponse {
    pub status: u16,
    pub headers: Vec<Header>,
    pub body: Vec<u8>,
    pub cached_at: u64,
}

#[verifier::ext_equal]
pub struct RespV {
    pub status: u16,
    pub headers: Seq<HeaderV>,
    pub body: Seq<u8>,
    pub cached_at: u64,
}

impl View for CachedResponse {
    type V = RespV;

    open spec fn view(&self) -> RespV {
        RespV {
            status: self.status,
            headers: hviews(self.headers@),
            body: self.body@,
            cached_at: self.cached_at,
        }
    }
}

// ------------------------------------------------------------------
// Well-formedness
// ------------------------------------------------------------------

/// A header name fit for the line encoding: non-empty, no colon, no
/// newline.  Real HTTP header names satisfy this.
pub open spec fn name_wf(n: Seq<u8>) -> bool {
    n.len() > 0 && forall|i: int| 0 <= i < n.len() ==> n[i] != 58 && n[i] != 10
}

/// A header value fit for the line encoding: no newline.
pub open spec fn value_wf(v: Seq<u8>) -> bool {
    forall|i: int| 0 <= i < v.len() ==> v[i] != 10
}

pub open spec fn headers_wf(hs: Seq<HeaderV>) -> bool {
    forall|i: int| 0 <= i < hs.len() ==> name_wf(#[trigger] hs[i].name) && value_wf(hs[i].value)
}

/// A response that both storage encodings carry losslessly.
pub open spec fn resp_wf(c: RespV) -> bool {
    headers_wf(c.headers) && 100 <= c.status <= 999
}

// ------------------------------------------------------------------
// Deep copies
// ------------------------------------------------------------------

pub fn clone_bytes(v: &Vec<u8>) -> (r: Vec<u8>)
    ensures
        r@ == v@,
{
    let mut out: Vec<u8> = Vec::new();
    let mut i: usize = 0;
    while i < v.len()
        invariant
            0 <= i <= v@.len(),
            out@ == v@.subrange(0, i as int),
        decreases v@.len() - i,
    {
        out.push(v[i]);
        assert(out@ =~= v@.subrange(0, i + 1));
        i = i + 1;
    }
    assert(out@ =~= v@);
    out
}

pub fn clone_header(h: &Header) -> (r: Header)
    ensures
        r@ == h@,
{
    let r = Header { name: clone_bytes(&h.name), value: clone_bytes(&h.value) };
    assert(r@ =~= h@);
    r
}

pub fn clone_headers(hs: &Vec<Header>) -> (r: Vec<Header>)
    ensures
        hviews(r@) == hviews(hs@),
{
    let mut out: Vec<Header> = Vec::new();
    let mut i: usize = 0;
    while i < hs.len()
        invariant
            0 <= i <= hs@.len(),
            out@.len() == i,
            forall|j: int| 0 <= j < i ==> out@[j]@ == hs@[j]@,
        decreases hs@.len() - i,
    {
        out.push(clone_header(&hs[i]));
        i = i + 1;
    }
    assert(hviews(out@) =~= hviews(hs@));
    out
}

pub fn clone_key(k: &CacheKey) -> (r: CacheKey)
    ensures
        r@ == k@,
{
    let r = CacheKey { method: clone_bytes(&k.method), uri: clone_bytes(&k.uri) };
    assert(r@ =~= k@);
    r
}

pub fn clone_resp(c: &CachedResponse) -> (r: CachedResponse)
    ensures
        r@ == c@,
{
    let r = CachedResponse {
        status: c.status,
        headers: clone_headers(&c.headers),
        body: clone_bytes(&c.body),
        cached_at: c.cached_at,
    };
    assert(r@ =~= c@);
    r
}

/// The absolute uri a proxied request resolves to: the fixed `http`
/// scheme, the origin authority, then the request's own path and query.
pub open spec fn spec_target_uri(authority: Seq<u8>, path_and_query: Seq<u8>) -> Seq<u8> {
    seq![104u8, 116u8, 116u8, 112u8, 58u8, 47u8, 47u8] + authority + path_and_query
}

pub fn build_target_uri(authority: &Vec<u8>, path_and_query: &Vec<u8>) -> (r: Vec<u8>)
    ensures
        r@ == spec_target_uri(authority@, path_and_query@),
{
    let mut out: Vec<u8> = Vec::new();
    out.push(104);
    out.push(116);
    out.push(116);
    out.push(112);
    out.push(58);
    out.push(47);
    out.push(47);
    let mut i: usize = 0;
    while i < authority.len()
        invariant
            0 <= i <= authority@.len(),
            out@ == seq![104u8, 116u8, 116u8, 112u8, 58u8, 47u8, 47u8] + authority@.subrange(
                0,
                i as int,
            ),
        decreases authority@.len() - i,
    {
        out.push(authority[i]);
        assert(out@ =~= seq![104u8, 116u8, 116u8, 112u8, 58u8, 47u8, 47u8]
            + authority@.subrange(0, i + 1));
        i = i + 1;
    }
    assert(authority@.subrange(0, authority@.len() as int) =~= authority@);
    let mut j: usize = 0;
    while j < path_and_query.len()
        invariant
            0 <= j <= path_and_query@.len(),
            out@ == seq![104u8, 116u8, 116u8, 112u8, 58u8, 47u8, 47u8] + authority@
                + path_and_query@.subrange(0, j as int),
        decreases path_and_query@.len() - j,
    {
        out.push(path_and_query[j]);
        assert(out@ =~= seq![104u8, 116u8, 116u8, 112u8, 58u8, 47u8, 47u8] + authority@
            + path_and_query@.subrange(0, j + 1));
        j = j + 1;
    }
    assert(path_and_query@.subrange(0, path_and_query@.len() as int) =~= path_and_query@);
    assert(out@ =~= spec_target_uri(authority@, path_and_query@));
    out
}

// ------------------------------------------------------------------
// Comparisons
// ------------------------------------------------------------------

pub fn bytes_eq(a: &Vec<u8>, b: &Vec<u8>) -> (r: bool)
    ensures
        r == (a@ == b@),
{
    if a.len() != b.len() {
        return false;
    }
    let mut i: usize = 0;
    while i < a.len()
        invariant
            0 <= i <= a@.len(),
            a@.len() == b@.len(),
            forall|j: int| 0 <= j < i ==> a@[j] == b@[j],
        decreases a@.len() - i,
    {
        if a[i] != b[i] {
            return false;
        }
        i = i + 1;
    }
    assert(a@ =~= b@);
    true
}

/// Structural key equality: both components, byte for byte.
pub fn key_matches(a: &CacheKey, b: &CacheKey) -> (r: bool)
    ensures
        r == (a@ == b@),
{
    let r = bytes_eq(&a.method, &b.method) && bytes_eq(&a.uri, &b.uri);
    proof {
        if a.method@ == b.method@ && a.uri@ == b.uri@ {
            assert(a@ =~= b@);
        }
    }
    r
}

// ------------------------------------------------------------------
// Construction and access
// ------------------------------------------------------------------

impl CacheKey {
    pub fn new(method: Vec<u8>, uri: Vec<u8>) -> (r: Self)
        ensures
            r@ == (KeyV { method: method@, uri: uri@ }),
    {
        CacheKey { method, uri }
    }
}

impl CachedResponse {
    /// A 200 response with no headers and no body.
    pub fn default(now: u64) -> (r: Self)
        ensures
            r@ == (RespV { status: 200, headers: Seq::empty(), body: Seq::empty(), cached_at: now }),
    {
        let r = CachedResponse { status: 200, headers: Vec::new(), body: Vec::new(), cached_at: now };
        assert(hviews(Seq::<Header>::empty()) =~= Seq::<HeaderV>::empty());
        r
    }

    pub fn new(status: u16, headers: Vec<Header>, body: Vec<u8>, cached_at: u64) -> (r: Self)
        ensures
            r@ == (RespV { status, headers: hviews(headers@), body: body@, cached_at }),
    {
        CachedResponse { status, headers, body, cached_at }
    }

    /// The parts of the response, deep-copied so the caller's copy and the
    /// cached one evolve independently.
    pub fn get_parts(&self) -> (r: (u16, Vec<Header>, Vec<u8>, u64))
        ensures
            r.0 == self@.status,
            hviews(r.1@) == self@.headers,
            r.2@ == self@.body,
            r.3 == self@.cached_at,
    {
        (self.status, clone_headers(&self.headers), clone_bytes(&self.body), self.cached_at)
    }
}

} // verus!
