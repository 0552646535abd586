//! The distributed tier's wire envelope.  A cached response travels as
//! one JSON object,
//! `{"key":{"method":M,"url":U},"value":{"status":S,"headers":H,"body":B,"cached_at":C}}`,
//! where `H` is the joined `Name:Value` lines, `B` is the body in
//! lowercase hex (binary-safe), and `C` is the cache time in decimal
//! epoch seconds as a string.  The envelope is written and read here,
//! byte for byte; nothing outside this crate defines the format.

use vstd::prelude::*;

use crate::ascii::{is_digit, spec_dec, spec_parse_dec, u64_to_dec, parse_dec, lemma_spec_dec};
use crate::hexcodec::{hex_of, hex_valid, unhex, hex_encode_bytes, hex_decode_bytes, lemma_hex_round_trip};
use crate::json::{
    jstr, spec_parse_str, spec_parse_u16, spec_expect, parse_str_exec, parse_u16_exec, expect_lit,
    append_jstr, lemma_parse_jstr, lemma_parse_u16_at, lemma_peel,
};
use crate::lines::{spec_lines, spec_parse_headers, headers_to_lines, parse_headers, append_bytes,
    lemma_lines_round_trip};
use crate::model::{CacheKey, CachedResponse, DecodeError, KeyV, RespV, clone_bytes, resp_wf};

verus! {

/// The wire form of a cache key.
#[derive(Debug)]
pub struct Key {
    pub method: Vec<u8>,
    pub url: Vec<u8>,
}

#[verifier::ext_equal]
pub struct WireKeyV {
    pub method: Seq<u8>,
    pub url: Seq<u8>,
}

impl View for Key {
    type V = WireKeyV;

    open spec fn view(&self) -> WireKeyV {
        WireKeyV { method: self.method@, url: self.url@ }
    }
}

/// The wire form of a cached response.
#[derive(Debug)]
pub struct Value {
    pub status: u16,
    pub headers: Vec<u8>,
    pub body: Vec<u8>,
    pub cached_at: Vec<u8>,
}

#[verifier::ext_equal]
pub struct WireValueV {
    pub status: u16,
    pub headers: Seq<u8>,
    pub body: Seq<u8>,
    pub cached_at: Seq<u8>,
}

impl View for Value {
    type V = WireValueV;

    open spec fn view(&self) -> WireValueV {
        WireValueV {
            status: self.status,
            headers: self.headers@,
            body: self.body@,
            cached_at: self.cached_at@,
        }
    }
}

/// What the distributed tier stores under a key: the key and the value
/// together, as the envelope carries them.
#[allow(non_camel_case_types)]
#[derive(Debug)]
pub struct cacheableBody {
    pub key: Key,
    pub value: Value,
}

#[verifier::ext_equal]
pub struct CbV {
    pub key: WireKeyV,
    pub value: WireValueV,
}

impl View for cacheableBody {
    type V = CbV;

    open spec fn view(&self) -> CbV {
        CbV { key: self.key@, value: self.value@ }
    }
}

/// The punctuation `{"key":{"method":"`.
#[verifier::opaque]
pub open spec fn lit1() -> Seq<u8> {
    seq![123u8, 34u8, 107u8, 101u8, 121u8, 34u8, 58u8, 123u8, 34u8, 109u8, 101u8, 116u8, 104u8, 111u8, 100u8, 34u8, 58u8, 34u8]
}

fn lit1_vec() -> (v: Vec<u8>)
    ensures
        v@ == lit1(),
{
    let mut v: Vec<u8> = Vec::new();
    v.push(123u8);
    v.push(34u8);
    v.push(107u8);
    v.push(101u8);
    v.push(121u8);
    v.push(34u8);
    v.push(58u8);
    v.push(123u8);
    v.push(34u8);
    v.push(109u8);
    v.push(101u8);
    v.push(116u8);
    v.push(104u8);
    v.push(111u8);
    v.push(100u8);
    v.push(34u8);
    v.push(58u8);
    v.push(34u8);
    proof {
        reveal(lit1);
    }
    assert(v@ =~= lit1());
    v
}

/// The punctuation `,"url":"`.
#[verifier::opaque]
pub open spec fn lit2() -> Seq<u8> {
    seq![44u8, 34u8, 117u8, 114u8, 108u8, 34u8, 58u8, 34u8]
}

fn lit2_vec() -> (v: Vec<u8>)
    ensures
        v@ == lit2(),
{
    let mut v: Vec<u8> = Vec::new();
    v.push(44u8);
    v.push(34u8);
    v.push(117u8);
    v.push(114u8);
    v.push(108u8);
    v.push(34u8);
    v.push(58u8);
    v.push(34u8);
    proof {
        reveal(lit2);
    }
    assert(v@ =~= lit2());
    v
}

/// The punctuation `},"value":{"status":`.
#[verifier::opaque]
pub open spec fn lit3() -> Seq<u8> {
    seq![125u8, 44u8, 34u8, 118u8, 97u8, 108u8, 117u8, 101u8, 34u8, 58u8, 123u8, 34u8, 115u8, 116u8, 97u8, 116u8, 117u8, 115u8, 34u8, 58u8]
}

fn lit3_vec() -> (v: Vec<u8>)
    ensures
        v@ == lit3(),
{
    let mut v: Vec<u8> = Vec::new();
    v.push(125u8);
    v.push(44u8);
    v.push(34u8);
    v.push(118u8);
    v.push(97u8);
    v.push(108u8);
    v.push(117u8);
    v.push(101u8);
    v.push(34u8);
    v.push(58u8);
    v.push(123u8);
    v.push(34u8);
    v.push(115u8);
    v.push(116u8);
    v.push(97u8);
    v.push(116u8);
    v.push(117u8);
    v.push(115u8);
    v.push(34u8);
    v.push(58u8);
    proof {
        reveal(lit3);
    }
    assert(v@ =~= lit3());
    v
}

/// The punctuation `,"headers":"`.
#[verifier::opaque]
pub open spec fn lit4() -> Seq<u8> {
    seq![44u8, 34u8, 104u8, 101u8, 97u8, 100u8, 101u8, 114u8, 115u8, 34u8, 58u8, 34u8]
}

fn lit4_vec() -> (v: Vec<u8>)
    ensures
        v@ == lit4(),
{
    let mut v: Vec<u8> = Vec::new();
    v.push(44u8);
    v.push(34u8);
    v.push(104u8);
    v.push(101u8);
    v.push(97u8);
    v.push(100u8);
    v.push(101u8);
    v.push(114u8);
    v.push(115u8);
    v.push(34u8);
    v.push(58u8);
    v.push(34u8);
    proof {
        reveal(lit4);
    }
    assert(v@ =~= lit4());
    v
}

/// The punctuation `,"body":"`.
#[verifier::opaque]
pub open spec fn lit5() -> Seq<u8> {
    seq![44u8, 34u8, 98u8, 111u8, 100u8, 121u8, 34u8, 58u8, 34u8]
}

fn lit5_vec() -> (v: Vec<u8>)
    ensures
        v@ == lit5(),
{
    let mut v: Vec<u8> = Vec::new();
    v.push(44u8);
    v.push(34u8);
    v.push(98u8);
    v.push(111u8);
    v.push(100u8);
    v.push(121u8);
    v.push(34u8);
    v.push(58u8);
    v.push(34u8);
    proof {
        reveal(lit5);
    }
    assert(v@ =~= lit5());
    v
}

/// The punctuation `,"cached_at":"`.
#[verifier::opaque]
pub open spec fn lit6() -> Seq<u8> {
    seq![44u8, 34u8, 99u8, 97u8, 99u8, 104u8, 101u8, 100u8, 95u8, 97u8, 116u8, 34u8, 58u8, 34u8]
}

fn lit6_vec() -> (v: Vec<u8>)
    ensures
        v@ == lit6(),
{
    let mut v: Vec<u8> = Vec::new();
    v.push(44u8);
    v.push(34u8);
    v.push(99u8);
    v.push(97u8);
    v.push(99u8);
    v.push(104u8);
    v.push(101u8);
    v.push(100u8);
    v.push(95u8);
    v.push(97u8);
    v.push(116u8);
    v.push(34u8);
    v.push(58u8);
    v.push(34u8);
    proof {
        reveal(lit6);
    }
    assert(v@ =~= lit6());
    v
}

/// The punctuation `}}`.
#[verifier::opaque]
pub open spec fn lit7() -> Seq<u8> {
    seq![125u8, 125u8]
}

fn lit7_vec() -> (v: Vec<u8>)
    ensures
        v@ == lit7(),
{
    let mut v: Vec<u8> = Vec::new();
    v.push(125u8);
    v.push(125u8);
    proof {
        reveal(lit7);
    }
    assert(v@ =~= lit7());
    v
}

/// The punctuation `{"method":"`.
#[verifier::opaque]
pub open spec fn litk1() -> Seq<u8> {
    seq![123u8, 34u8, 109u8, 101u8, 116u8, 104u8, 111u8, 100u8, 34u8, 58u8, 34u8]
}

fn litk1_vec() -> (v: Vec<u8>)
    ensures
        v@ == litk1(),
{
    let mut v: Vec<u8> = Vec::new();
    v.push(123u8);
    v.push(34u8);
    v.push(109u8);
    v.push(101u8);
    v.push(116u8);
    v.push(104u8);
    v.push(111u8);
    v.push(100u8);
    v.push(34u8);
    v.push(58u8);
    v.push(34u8);
    proof {
        reveal(litk1);
    }
    assert(v@ =~= litk1());
    v
}

/// The punctuation `}`.
#[verifier::opaque]
pub open spec fn litk3() -> Seq<u8> {
    seq![125u8]
}

fn litk3_vec() -> (v: Vec<u8>)
    ensures
        v@ == litk3(),
{
    let mut v: Vec<u8> = Vec::new();
    v.push(125u8);
    proof {
        reveal(litk3);
    }
    assert(v@ =~= litk3());
    v
}

// ------------------------------------------------------------------
// Envelope encoding
// ------------------------------------------------------------------

/// The whole envelope, byte for byte.
pub open spec fn spec_encode_cb(cb: CbV) -> Seq<u8> {
    lit1() + (jstr(cb.key.method) + (lit2() + (jstr(cb.key.url) + (lit3() + (spec_dec(
        cb.value.status as nat,
    ) + (lit4() + (jstr(cb.value.headers) + (lit5() + (jstr(cb.value.body) + (lit6() + (jstr(
        cb.value.cached_at,
    ) + lit7())))))))))))
}

/// The serialized form of the key alone: what the distributed tier is
/// keyed by.
pub open spec fn spec_encode_key(k: WireKeyV) -> Seq<u8> {
    litk1() + (jstr(k.method) + (lit2() + (jstr(k.url) + litk3())))
}

pub fn encode_cacheable(cb: &cacheableBody) -> (r: Vec<u8>)
    ensures
        r@ == spec_encode_cb(cb@),
{
    let mut out = lit1_vec();
    append_jstr(&mut out, &cb.key.method);
    let l2 = lit2_vec();
    append_bytes(&mut out, &l2);
    append_jstr(&mut out, &cb.key.url);
    let l3 = lit3_vec();
    append_bytes(&mut out, &l3);
    let st = u64_to_dec(cb.value.status as u64);
    append_bytes(&mut out, &st);
    let l4 = lit4_vec();
    append_bytes(&mut out, &l4);
    append_jstr(&mut out, &cb.value.headers);
    let l5 = lit5_vec();
    append_bytes(&mut out, &l5);
    append_jstr(&mut out, &cb.value.body);
    let l6 = lit6_vec();
    append_bytes(&mut out, &l6);
    append_jstr(&mut out, &cb.value.cached_at);
    let l7 = lit7_vec();
    append_bytes(&mut out, &l7);
    assert(out@ =~= spec_encode_cb(cb@));
    out
}

pub fn encode_key(key: &Key) -> (r: Vec<u8>)
    ensures
        r@ == spec_encode_key(key@),
{
    let mut out = litk1_vec();
    append_jstr(&mut out, &key.method);
    let l2 = lit2_vec();
    append_bytes(&mut out, &l2);
    append_jstr(&mut out, &key.url);
    let l3 = litk3_vec();
    append_bytes(&mut out, &l3);
    assert(out@ =~= spec_encode_key(key@));
    out
}

// ------------------------------------------------------------------
// Envelope decoding
// ------------------------------------------------------------------

/// What decoding an envelope byte string yields: the exact inverse of
/// the encoder on its image, `None` on anything malformed.
pub open spec fn spec_decode_cb(s: Seq<u8>) -> Option<CbV> {
    match spec_expect(s, 0, lit1()) {
        None => None,
        Some(i1) => match spec_parse_str(s, i1) {
            None => None,
            Some((m, i2)) => match spec_expect(s, i2, lit2()) {
                None => None,
                Some(i3) => match spec_parse_str(s, i3) {
                    None => None,
                    Some((u, i4)) => match spec_expect(s, i4, lit3()) {
                        None => None,
                        Some(i5) => match spec_parse_u16(s, i5) {
                            None => None,
                            Some((st, i6)) => match spec_expect(s, i6, lit4()) {
                                None => None,
                                Some(i7) => match spec_parse_str(s, i7) {
                                    None => None,
                                    Some((hd, i8)) => match spec_expect(s, i8, lit5()) {
                                        None => None,
                                        Some(i9) => match spec_parse_str(s, i9) {
                                            None => None,
                                            Some((bd, i10)) => match spec_expect(s, i10, lit6()) {
                                                None => None,
                                                Some(i11) => match spec_parse_str(s, i11) {
                                                    None => None,
                                                    Some((ca, i12)) => match spec_expect(
                                                        s,
                                                        i12,
                                                        lit7(),
                                                    ) {
                                                        None => None,
                                                        Some(i13) => if i13 == s.len() {
                                                            Some(
                                                                CbV {
                                                                    key: WireKeyV {
                                                                        method: m,
                                                                        url: u,
                                                                    },
                                                                    value: WireValueV {
                                                                        status: st,
                                                                        headers: hd,
                                                                        body: bd,
                                                                        cached_at: ca,
                                                                    },
                                                                },
                                                            )
                                                        } else {
                                                            None
                                                        },
                                                    },
                                                },
                                            },
                                        },
                                    },
                                },
                            },
                        },
                    },
                },
            },
        },
    }
}

pub fn decode_cacheable(s: &Vec<u8>) -> (r: Result<cacheableBody, DecodeError>)
    ensures
        match r {
            Ok(cb) => spec_decode_cb(s@) == Some(cb@),
            Err(_) => spec_decode_cb(s@) is None,
        },
{
    let l1 = lit1_vec();
    let i1 = match expect_lit(s, 0, &l1) {
        Some(i) => i,
        None => {
            return Err(DecodeError::BadEnvelope);
        },
    };
    let (m, i2) = match parse_str_exec(s, i1) {
        Some(p) => p,
        None => {
            return Err(DecodeError::BadEnvelope);
        },
    };
    let l2 = lit2_vec();
    let i3 = match expect_lit(s, i2, &l2) {
        Some(i) => i,
        None => {
            return Err(DecodeError::BadEnvelope);
        },
    };
    let (u, i4) = match parse_str_exec(s, i3) {
        Some(p) => p,
        None => {
            return Err(DecodeError::BadEnvelope);
        },
    };
    let l3 = lit3_vec();
    let i5 = match expect_lit(s, i4, &l3) {
        Some(i) => i,
        None => {
            return Err(DecodeError::BadEnvelope);
        },
    };
    let (st, i6) = match parse_u16_exec(s, i5) {
        Some(p) => p,
        None => {
            return Err(DecodeError::BadStatus);
        },
    };
    let l4 = lit4_vec();
    let i7 = match expect_lit(s, i6, &l4) {
        Some(i) => i,
        None => {
            return Err(DecodeError::BadEnvelope);
        },
    };
    let (hd, i8) = match parse_str_exec(s, i7) {
        Some(p) => p,
        None => {
            return Err(DecodeError::BadEnvelope);
        },
    };
    let l5 = lit5_vec();
    let i9 = match expect_lit(s, i8, &l5) {
        Some(i) => i,
        None => {
            return Err(DecodeError::BadEnvelope);
        },
    };
    let (bd, i10) = match parse_str_exec(s, i9) {
        Some(p) => p,
        None => {
            return Err(DecodeError::BadEnvelope);
        },
    };
    let l6 = lit6_vec();
    let i11 = match expect_lit(s, i10, &l6) {
        Some(i) => i,
        None => {
            return Err(DecodeError::BadEnvelope);
        },
    };
    let (ca, i12) = match parse_str_exec(s, i11) {
        Some(p) => p,
        None => {
            return Err(DecodeError::BadEnvelope);
        },
    };
    let l7 = lit7_vec();
    let i13 = match expect_lit(s, i12, &l7) {
        Some(i) => i,
        None => {
            return Err(DecodeError::BadEnvelope);
        },
    };
    if i13 != s.len() {
        return Err(DecodeError::BadEnvelope);
    }
    let cb = cacheableBody {
        key: Key { method: m, url: u },
        value: Value { status: st, headers: hd, body: bd, cached_at: ca },
    };
    assert(spec_decode_cb(s@) == Some(cb@));
    Ok(cb)
}

// Token offsets inside an encoded envelope, named so the round-trip
// proof can speak of them.
spec fn cbo1(cb: CbV) -> int {
    lit1().len() as int
}

spec fn cbo2(cb: CbV) -> int {
    cbo1(cb) + jstr(cb.key.method).len()
}

spec fn cbo3(cb: CbV) -> int {
    cbo2(cb) + lit2().len()
}

spec fn cbo4(cb: CbV) -> int {
    cbo3(cb) + jstr(cb.key.url).len()
}

spec fn cbo5(cb: CbV) -> int {
    cbo4(cb) + lit3().len()
}

spec fn cbo6(cb: CbV) -> int {
    cbo5(cb) + spec_dec(cb.value.status as nat).len()
}

spec fn cbo7(cb: CbV) -> int {
    cbo6(cb) + lit4().len()
}

spec fn cbo8(cb: CbV) -> int {
    cbo7(cb) + jstr(cb.value.headers).len()
}

spec fn cbo9(cb: CbV) -> int {
    cbo8(cb) + lit5().len()
}

spec fn cbo10(cb: CbV) -> int {
    cbo9(cb) + jstr(cb.value.body).len()
}

spec fn cbo11(cb: CbV) -> int {
    cbo10(cb) + lit6().len()
}

spec fn cbo12(cb: CbV) -> int {
    cbo11(cb) + jstr(cb.value.cached_at).len()
}

/// The tail of an encoded envelope from the headers field on.
spec fn cb_tail(cb: CbV) -> Seq<u8> {
    lit4() + (jstr(cb.value.headers) + (lit5() + (jstr(cb.value.body) + (lit6() + (jstr(
        cb.value.cached_at,
    ) + lit7())))))
}

/// The key, url and status tokens of an encoded envelope parse at their
/// offsets, and the rest of the bytes are the tail fields.
#[verifier::rlimit(100)]
proof fn lemma_cb_tokens_head(s: Seq<u8>, cb: CbV)
    requires
        s == spec_encode_cb(cb),
    ensures
        spec_expect(s, 0, lit1()) == Some(cbo1(cb)),
        spec_parse_str(s, cbo1(cb)) == Some((cb.key.method, cbo2(cb))),
        spec_expect(s, cbo2(cb), lit2()) == Some(cbo3(cb)),
        spec_parse_str(s, cbo3(cb)) == Some((cb.key.url, cbo4(cb))),
        spec_expect(s, cbo4(cb), lit3()) == Some(cbo5(cb)),
        spec_parse_u16(s, cbo5(cb)) == Some((cb.value.status, cbo6(cb))),
        0 <= cbo6(cb),
        s.subrange(cbo6(cb), s.len() as int) == cb_tail(cb),
        cbo6(cb) + cb_tail(cb).len() == s.len(),
{
    let p1 = lit1();
    let p2 = jstr(cb.key.method);
    let p3 = lit2();
    let p4 = jstr(cb.key.url);
    let p5 = lit3();
    let p6 = spec_dec(cb.value.status as nat);
    let r7 = cb_tail(cb);
    let r6 = p6 + r7;
    let r5 = p5 + r6;
    let r4 = p4 + r5;
    let r3 = p3 + r4;
    let r2 = p2 + r3;
    assert(s == p1 + r2);
    assert(s.subrange(0, s.len() as int) =~= s);
    lemma_peel(s, 0, p1, r2);
    let o1 = p1.len() as int;
    assert(spec_expect(s, 0, p1) == Some(o1));
    lemma_peel(s, o1, p2, r3);
    lemma_parse_jstr(s, o1, cb.key.method);
    let o2 = o1 + p2.len();
    assert(spec_parse_str(s, o1) == Some((cb.key.method, o2)));
    lemma_peel(s, o2, p3, r4);
    assert(spec_expect(s, o2, p3) == Some(o2 + p3.len()));
    let o3 = o2 + p3.len();
    lemma_peel(s, o3, p4, r5);
    lemma_parse_jstr(s, o3, cb.key.url);
    let o4 = o3 + p4.len();
    assert(spec_parse_str(s, o3) == Some((cb.key.url, o4)));
    lemma_peel(s, o4, p5, r6);
    assert(spec_expect(s, o4, p5) == Some(o4 + p5.len()));
    let o5 = o4 + p5.len();
    lemma_peel(s, o5, p6, r7);
    let o6 = o5 + p6.len();
    assert(s.subrange(o6, o6 + r7.len())[0] == s[o6]);
    reveal(lit4);
    assert(r7[0] == 44);
    assert(!is_digit(s[o6]));
    lemma_parse_u16_at(s, o5, cb.value.status);
    assert(spec_parse_u16(s, o5) == Some((cb.value.status, o6)));
}

/// The headers, body and cached-at tokens parse at their offsets, and
/// the envelope ends exactly at the closing braces.
#[verifier::rlimit(100)]
proof fn lemma_cb_tokens_tail(s: Seq<u8>, cb: CbV)
    requires
        0 <= cbo6(cb),
        s.subrange(cbo6(cb), s.len() as int) == cb_tail(cb),
        cbo6(cb) + cb_tail(cb).len() == s.len(),
    ensures
        spec_expect(s, cbo6(cb), lit4()) == Some(cbo7(cb)),
        spec_parse_str(s, cbo7(cb)) == Some((cb.value.headers, cbo8(cb))),
        spec_expect(s, cbo8(cb), lit5()) == Some(cbo9(cb)),
        spec_parse_str(s, cbo9(cb)) == Some((cb.value.body, cbo10(cb))),
        spec_expect(s, cbo10(cb), lit6()) == Some(cbo11(cb)),
        spec_parse_str(s, cbo11(cb)) == Some((cb.value.cached_at, cbo12(cb))),
        spec_expect(s, cbo12(cb), lit7()) == Some(s.len() as int),
        cbo12(cb) + lit7().len() == s.len(),
{
    let p7 = lit4();
    let p8 = jstr(cb.value.headers);
    let p9 = lit5();
    let p10 = jstr(cb.value.body);
    let p11 = lit6();
    let p12 = jstr(cb.value.cached_at);
    let p13 = lit7();
    let r13 = p13;
    let r12 = p12 + r13;
    let r11 = p11 + r12;
    let r10 = p10 + r11;
    let r9 = p9 + r10;
    let r8 = p8 + r9;
    let o6 = cbo6(cb);
    assert(cb_tail(cb) == p7 + r8);
    lemma_peel(s, o6, p7, r8);
    assert(spec_expect(s, o6, p7) == Some(o6 + p7.len()));
    let o7 = o6 + p7.len();
    lemma_peel(s, o7, p8, r9);
    lemma_parse_jstr(s, o7, cb.value.headers);
    let o8 = o7 + p8.len();
    assert(spec_parse_str(s, o7) == Some((cb.value.headers, o8)));
    lemma_peel(s, o8, p9, r10);
    assert(spec_expect(s, o8, p9) == Some(o8 + p9.len()));
    let o9 = o8 + p9.len();
    lemma_peel(s, o9, p10, r11);
    lemma_parse_jstr(s, o9, cb.value.body);
    let o10 = o9 + p10.len();
    assert(spec_parse_str(s, o9) == Some((cb.value.body, o10)));
    lemma_peel(s, o10, p11, r12);
    assert(spec_expect(s, o10, p11) == Some(o10 + p11.len()));
    let o11 = o10 + p11.len();
    lemma_peel(s, o11, p12, r13);
    lemma_parse_jstr(s, o11, cb.value.cached_at);
    let o12 = o11 + p12.len();
    assert(spec_parse_str(s, o11) == Some((cb.value.cached_at, o12)));
    assert(spec_expect(s, o12, p13) == Some(o12 + p13.len()));
    assert(o12 + p13.len() == s.len());
}

/// Decoding is the exact inverse of encoding: every envelope the encoder
/// writes reads back as the same key and value.
#[verifier::rlimit(100)]
pub proof fn lemma_cb_round_trip(cb: CbV)
    ensures
        spec_decode_cb(spec_encode_cb(cb)) == Some(cb),
{
    let s = spec_encode_cb(cb);
    lemma_cb_tokens_head(s, cb);
    lemma_cb_tokens_tail(s, cb);
    let got = spec_decode_cb(s).unwrap();
    assert(got =~= cb);
}

// ------------------------------------------------------------------
// Between the model and the wire forms
// ------------------------------------------------------------------

/// The wire form of a model key.
pub open spec fn spec_key_of(k: KeyV) -> WireKeyV {
    WireKeyV { method: k.method, url: k.uri }
}

/// The wire form of a model response: lines for the headers, hex for the
/// body, decimal text for the cache time.
pub open spec fn spec_value_of(c: RespV) -> WireValueV {
    WireValueV {
        status: c.status,
        headers: spec_lines(c.headers),
        body: hex_of(c.body),
        cached_at: spec_dec(c.cached_at as nat),
    }
}

/// The model response a wire value decodes to, if every field is sound.
pub open spec fn spec_value_decode(v: WireValueV) -> Option<RespV> {
    match spec_parse_headers(v.headers) {
        None => None,
        Some(hs) => if !hex_valid(v.body) {
            None
        } else {
            match spec_parse_dec(v.cached_at) {
                None => None,
                Some(ca) => if 100 <= v.status && v.status <= 999 {
                    Some(RespV { status: v.status, headers: hs, body: unhex(v.body), cached_at: ca })
                } else {
                    None
                },
            }
        },
    }
}

pub fn cachekey_to_key(cache_key: &CacheKey) -> (r: Key)
    ensures
        r@ == spec_key_of(cache_key@),
{
    let r = Key { method: clone_bytes(&cache_key.method), url: clone_bytes(&cache_key.uri) };
    assert(r@ =~= spec_key_of(cache_key@));
    r
}

pub fn key_to_cachekey(key: &Key) -> (r: CacheKey)
    ensures
        r@ == (KeyV { method: key@.method, uri: key@.url }),
{
    let r = CacheKey { method: clone_bytes(&key.method), uri: clone_bytes(&key.url) };
    assert(r@ =~= (KeyV { method: key@.method, uri: key@.url }));
    r
}

pub fn cached_response_to_value(response: &CachedResponse) -> (r: Value)
    ensures
        r@ == spec_value_of(response@),
{
    let r = Value {
        status: response.status,
        headers: headers_to_lines(&response.headers),
        body: hex_encode_bytes(&response.body),
        cached_at: u64_to_dec(response.cached_at),
    };
    assert(r@ =~= spec_value_of(response@));
    r
}

pub fn value_to_cache_response(value: &Value) -> (r: Result<CachedResponse, DecodeError>)
    ensures
        match r {
            Ok(c) => spec_value_decode(value@) == Some(c@),
            Err(_) => spec_value_decode(value@) is None,
        },
{
    let hs = match parse_headers(&value.headers) {
        Ok(hs) => hs,
        Err(e) => {
            return Err(e);
        },
    };
    let body = match hex_decode_bytes(&value.body) {
        Some(b) => b,
        None => {
            return Err(DecodeError::BadBody);
        },
    };
    let n = value.cached_at.len();
    let cached_at = match parse_dec(&value.cached_at, 0, n) {
        Some(v) => v,
        None => {
            assert(value.cached_at@.subrange(0, n as int) =~= value.cached_at@);
            return Err(DecodeError::BadCachedAt);
        },
    };
    assert(value.cached_at@.subrange(0, n as int) =~= value.cached_at@);
    if value.status < 100 || value.status > 999 {
        return Err(DecodeError::BadStatus);
    }
    let c = CachedResponse { status: value.status, headers: hs, body, cached_at };
    assert(spec_value_decode(value@) == Some(c@)) by {
        assert(c@ =~= spec_value_decode(value@).unwrap());
    }
    Ok(c)
}

/// A well-formed response survives the wire value forms exactly.
pub proof fn lemma_value_round_trip(c: RespV)
    requires
        resp_wf(c),
    ensures
        spec_value_decode(spec_value_of(c)) == Some(c),
{
    lemma_lines_round_trip(c.headers);
    lemma_hex_round_trip(c.body);
    lemma_spec_dec(c.cached_at as nat);
    let v = spec_value_of(c);
    assert(spec_parse_dec(v.cached_at) == Some(c.cached_at));
    let got = spec_value_decode(v).unwrap();
    assert(got =~= c);
}

// ------------------------------------------------------------------
// The whole wire form of one cached entry
// ------------------------------------------------------------------

/// The envelope bytes stored for key `k` holding response `c`.
pub open spec fn spec_wire(k: KeyV, c: RespV) -> Seq<u8> {
    spec_encode_cb(CbV { key: spec_key_of(k), value: spec_value_of(c) })
}

/// The key bytes the distributed tier is addressed by.
pub open spec fn spec_wire_key(k: KeyV) -> Seq<u8> {
    spec_encode_key(spec_key_of(k))
}

/// What stored envelope bytes yield: a key and a response, or nothing.
pub open spec fn spec_unwire(s: Seq<u8>) -> Option<(KeyV, RespV)> {
    match spec_decode_cb(s) {
        None => None,
        Some(cb) => match spec_value_decode(cb.value) {
            None => None,
            Some(c) => Some((KeyV { method: cb.key.method, uri: cb.key.url }, c)),
        },
    }
}

/// The round-trip law of the distributed tier: any well-formed response,
/// stored under any key, reads back byte-identical in status, headers,
/// body and cache time.
pub proof fn lemma_wire_round_trip(k: KeyV, c: RespV)
    requires
        resp_wf(c),
    ensures
        spec_unwire(spec_wire(k, c)) == Some((k, c)),
{
    let cb = CbV { key: spec_key_of(k), value: spec_value_of(c) };
    lemma_cb_round_trip(cb);
    lemma_value_round_trip(c);
    let got = spec_unwire(spec_wire(k, c)).unwrap();
    assert(got.0 =~= k);
}

} // verus!
