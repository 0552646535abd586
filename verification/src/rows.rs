//! The persistent tier's relational rows: a resource identity row and a
//! resource content row.  The content row carries the status, the joined
//! `Name:Value` header lines, the body as raw bytes (binary-safe), and
//! the cache time as decimal text.

use vstd::prelude::*;

use crate::ascii::{parse_dec, spec_dec, spec_parse_dec, u64_to_dec, lemma_spec_dec};
use crate::lines::{headers_to_lines, parse_headers, spec_lines, spec_parse_headers,
    lemma_lines_round_trip};
use crate::model::{CacheKey, CachedResponse, DecodeError, RespV, clone_bytes, resp_wf};

verus! {

/// A native representation that can stand in for a model value and come
/// back.
pub trait Serializer<T>: Sized {
    fn serialize(t: T) -> Self;

    fn deserialize(&self) -> T;
}

/// The resource identity row: one per (method, url).
#[derive(Debug)]
pub struct Page {
    pub id: Option<u64>,
    pub method: Vec<u8>,
    pub url: Vec<u8>,
}

#[verifier::ext_equal]
pub struct PageV {
    pub id: Option<u64>,
    pub method: Seq<u8>,
    pub url: Seq<u8>,
}

impl View for Page {
    type V = PageV;

    open spec fn view(&self) -> PageV {
        PageV { id: self.id, method: self.method@, url: self.url@ }
    }
}

/// The resource content row, referencing its identity row by `page_key`.
#[allow(non_camel_case_types)]
#[derive(Debug)]
pub struct Page_content {
    pub id: Option<u64>,
    pub status: u16,
    pub headers: Vec<u8>,
    pub body: Vec<u8>,
    pub cached_at: Vec<u8>,
    pub page_key: Option<u64>,
}

#[verifier::ext_equal]
pub struct ContentV {
    pub id: Option<u64>,
    pub status: u16,
    pub headers: Seq<u8>,
    pub body: Seq<u8>,
    pub cached_at: Seq<u8>,
    pub page_key: Option<u64>,
}

impl View for Page_content {
    type V = ContentV;

    open spec fn view(&self) -> ContentV {
        ContentV {
            id: self.id,
            status: self.status,
            headers: self.headers@,
            body: self.body@,
            cached_at: self.cached_at@,
            page_key: self.page_key,
        }
    }
}

impl Serializer<CacheKey> for Page {
    fn serialize(t: CacheKey) -> Self {
        Page { id: None, method: t.method, url: t.uri }
    }

    fn deserialize(&self) -> CacheKey {
        CacheKey { method: clone_bytes(&self.method), uri: clone_bytes(&self.url) }
    }
}

/// The content row a response is stored as; identity fields are filled
/// in by the store.
pub open spec fn spec_content_of(c: RespV) -> ContentV {
    ContentV {
        id: None,
        status: c.status,
        headers: spec_lines(c.headers),
        body: c.body,
        cached_at: spec_dec(c.cached_at as nat),
        page_key: None,
    }
}

/// The response a content row decodes to, if its serialized fields are
/// sound.  The identity fields do not matter.
pub open spec fn spec_content_decode(v: ContentV) -> Option<RespV> {
    match spec_parse_headers(v.headers) {
        None => None,
        Some(hs) => match spec_parse_dec(v.cached_at) {
            None => None,
            Some(ca) => if 100 <= v.status && v.status <= 999 {
                Some(RespV { status: v.status, headers: hs, body: v.body, cached_at: ca })
            } else {
                None
            },
        },
    }
}

impl Page_content {
    /// Serialize a response into a content row with empty identity.
    pub fn from_response(c: &CachedResponse) -> (r: Self)
        ensures
            r@ == spec_content_of(c@),
    {
        let r = Page_content {
            id: None,
            status: c.status,
            headers: headers_to_lines(&c.headers),
            body: clone_bytes(&c.body),
            cached_at: u64_to_dec(c.cached_at),
            page_key: None,
        };
        assert(r@ =~= spec_content_of(c@));
        r
    }

    /// Decode the row back into the model; a malformed row is a typed
    /// error, never a panic.
    pub fn to_response(&self) -> (r: Result<CachedResponse, DecodeError>)
        ensures
            match r {
                Ok(c) => spec_content_decode(self@) == Some(c@),
                Err(_) => spec_content_decode(self@) is None,
            },
    {
        let hs = match parse_headers(&self.headers) {
            Ok(hs) => hs,
            Err(e) => {
                return Err(e);
            },
        };
        let n = self.cached_at.len();
        let cached_at = match parse_dec(&self.cached_at, 0, n) {
            Some(v) => v,
            None => {
                assert(self.cached_at@.subrange(0, n as int) =~= self.cached_at@);
                return Err(DecodeError::BadCachedAt);
            },
        };
        assert(self.cached_at@.subrange(0, n as int) =~= self.cached_at@);
        if self.status < 100 || self.status > 999 {
            return Err(DecodeError::BadStatus);
        }
        let c = CachedResponse {
            status: self.status,
            headers: hs,
            body: clone_bytes(&self.body),
            cached_at,
        };
        assert(spec_content_decode(self@) == Some(c@)) by {
            assert(c@ =~= spec_content_decode(self@).unwrap());
        }
        Ok(c)
    }
}

/// The round-trip law of the persistent tier's encoding: a well-formed
/// response survives the row form exactly — status, header pairs and
/// body bytes alike.
pub proof fn lemma_row_round_trip(c: RespV)
    requires
        resp_wf(c),
    ensures
        spec_content_decode(spec_content_of(c)) == Some(c),
{
    lemma_lines_round_trip(c.headers);
    lemma_spec_dec(c.cached_at as nat);
    let got = spec_content_decode(spec_content_of(c)).unwrap();
    assert(got =~= c);
}

} // verus!
