//! The cache policy engine: derives cacheability, staleness and
//! disk-worthiness from a response's headers.
//!
//! Only one directive is recognised: a `Cache-Control` header (name
//! compared case-insensitively) whose trimmed value starts with
//! `max-age=` followed by a whole non-negative decimal number.  A missing
//! header, a missing token or a malformed number all count as "no policy
//! data": not cacheable, not disk-worthy, never stale.

use vstd::prelude::*;

use crate::ascii::{lower, lower_byte, lower_seq, parse_dec, spec_parse_dec, trim, trim_bounds};
use crate::model::{Header, HeaderV, hviews};

verus! {

/// The byte string `cache-control`.
pub open spec fn spec_cc_name() -> Seq<u8> {
    seq![99u8, 97u8, 99u8, 104u8, 101u8, 45u8, 99u8, 111u8, 110u8, 116u8, 114u8, 111u8, 108u8]
}

/// The byte string `max-age=`.
pub open spec fn spec_ma_prefix() -> Seq<u8> {
    seq![109u8, 97u8, 120u8, 45u8, 97u8, 103u8, 101u8, 61u8]
}

/// The value of the first header whose lower-cased name is `name_l`,
/// searching from position `i`.
pub open spec fn lookup_from(hs: Seq<HeaderV>, name_l: Seq<u8>, i: int) -> Option<Seq<u8>>
    decreases hs.len() - i,
{
    if i < 0 || i >= hs.len() {
        None
    } else if lower_seq(hs[i].name) == name_l {
        Some(hs[i].value)
    } else {
        lookup_from(hs, name_l, i + 1)
    }
}

pub open spec fn lookup_value(hs: Seq<HeaderV>, name_l: Seq<u8>) -> Option<Seq<u8>> {
    lookup_from(hs, name_l, 0)
}

/// The `max-age` the headers carry, if any: the trimmed `Cache-Control`
/// value must be `max-age=` followed by nothing but a decimal number.
pub open spec fn spec_max_age(hs: Seq<HeaderV>) -> Option<u64> {
    match lookup_value(hs, spec_cc_name()) {
        None => None,
        Some(v) => {
            let t = trim(v);
            if t.len() >= 8 && t.subrange(0, 8) == spec_ma_prefix() {
                spec_parse_dec(t.subrange(8, t.len() as int))
            } else {
                None
            }
        },
    }
}

/// Cacheable: a present, strictly positive `max-age`.
pub open spec fn spec_is_cacheable(hs: Seq<HeaderV>) -> bool {
    match spec_max_age(hs) {
        Some(n) => n > 0,
        None => false,
    }
}

/// Disk-worthy: a `max-age` of at least one hour.
pub open spec fn spec_is_storable(hs: Seq<HeaderV>) -> bool {
    match spec_max_age(hs) {
        Some(n) => n >= 3600,
        None => false,
    }
}

/// Stale at `now`: a present `max-age` whose window has passed.  Without
/// a `max-age` an entry never goes stale.
pub open spec fn spec_is_stale(hs: Seq<HeaderV>, cached_at: u64, now: u64) -> bool {
    match spec_max_age(hs) {
        Some(n) => now > cached_at + n,
        None => false,
    }
}

/// One byte of `cache-control`.
fn cc_byte(i: usize) -> (r: u8)
    requires
        i < 13,
    ensures
        r == spec_cc_name()[i as int],
{
    match i {
        0 => 99,
        1 => 97,
        2 => 99,
        3 => 104,
        4 => 101,
        5 => 45,
        6 => 99,
        7 => 111,
        8 => 110,
        9 => 116,
        10 => 114,
        11 => 111,
        _ => 108,
    }
}

/// One byte of `max-age=`.
fn ma_byte(i: usize) -> (r: u8)
    requires
        i < 8,
    ensures
        r == spec_ma_prefix()[i as int],
{
    match i {
        0 => 109,
        1 => 97,
        2 => 120,
        3 => 45,
        4 => 97,
        5 => 103,
        _ => {
            if i == 6 {
                101
            } else {
                61
            }
        },
    }
}

/// Is this name `cache-control`, ignoring ASCII case?
fn name_is_cache_control(name: &Vec<u8>) -> (r: bool)
    ensures
        r == (lower_seq(name@) == spec_cc_name()),
{
    if name.len() != 13 {
        assert(lower_seq(name@).len() == name@.len());
        return false;
    }
    let mut i: usize = 0;
    while i < 13
        invariant
            0 <= i <= 13,
            name@.len() == 13,
            forall|j: int| 0 <= j < i ==> lower_seq(name@)[j] == spec_cc_name()[j],
        decreases 13 - i,
    {
        let lb = lower_byte(name[i]);
        if lb != cc_byte(i) {
            assert(lower_seq(name@)[i as int] == lower(name@[i as int]));
            return false;
        }
        assert(lower_seq(name@)[i as int] == lower(name@[i as int]));
        i = i + 1;
    }
    assert(lower_seq(name@) =~= spec_cc_name());
    true
}

/// The policy engine holds the headers it judges.
#[derive(Debug)]
pub struct CachePolicy {
    pub headers: Vec<Header>,
}

impl CachePolicy {
    pub fn new(headers: Vec<Header>) -> (r: Self)
        ensures
            hviews(r.headers@) == hviews(headers@),
    {
        CachePolicy { headers }
    }

    /// The `max-age` carried by the headers, absent on any malformation.
    pub fn max_age(&self) -> (r: Option<u64>)
        ensures
            r == spec_max_age(hviews(self.headers@)),
    {
        let ghost hv = hviews(self.headers@);
        let mut i: usize = 0;
        let n = self.headers.len();
        while i < n
            invariant
                0 <= i <= n == self.headers@.len(),
                hv == hviews(self.headers@),
                lookup_from(hv, spec_cc_name(), 0) == lookup_from(hv, spec_cc_name(), i as int),
            decreases n - i,
        {
            assert(hv[i as int] == self.headers@[i as int]@);
            if name_is_cache_control(&self.headers[i].name) {
                let value = &self.headers[i].value;
                assert(lookup_from(hv, spec_cc_name(), i as int) == Some(value@));
                let (lo, hi) = trim_bounds(value);
                let ghost t = trim(value@);
                if hi - lo < 8 {
                    return None;
                }
                let mut j: usize = 0;
                while j < 8
                    invariant
                        0 <= j <= 8,
                        lo + 8 <= hi <= value@.len(),
                        t == value@.subrange(lo as int, hi as int),
                        t == trim(value@),
                        lookup_value(hviews(self.headers@), spec_cc_name()) == Some(value@),
                        forall|k: int| 0 <= k < j ==> t[k] == spec_ma_prefix()[k],
                    decreases 8 - j,
                {
                    assert(t[j as int] == value@[lo + j]);
                    if value[lo + j] != ma_byte(j) {
                        assert(t.subrange(0, 8)[j as int] != spec_ma_prefix()[j as int]);
                        return None;
                    }
                    j = j + 1;
                }
                assert(t.subrange(0, 8) =~= spec_ma_prefix());
                let r = parse_dec(value, lo + 8, hi);
                assert(value@.subrange(lo + 8, hi as int) =~= t.subrange(8, t.len() as int));
                return r;
            }
            assert(lookup_from(hv, spec_cc_name(), i as int) == lookup_from(
                hv,
                spec_cc_name(),
                i + 1,
            ));
            i = i + 1;
        }
        None
    }

    /// True exactly when `max-age` is present and strictly positive.
    pub fn is_cacheable(&self) -> (r: bool)
        ensures
            r == spec_is_cacheable(hviews(self.headers@)),
    {
        match self.max_age() {
            Some(age) => age > 0,
            None => false,
        }
    }

    /// True exactly when `max-age` is present and the entry cached at
    /// `time_when_cached` has expired by `now`.
    pub fn is_stale(&self, time_when_cached: u64, now: u64) -> (r: bool)
        ensures
            r == spec_is_stale(hviews(self.headers@), time_when_cached, now),
    {
        match self.max_age() {
            Some(max_age) => {
                if now <= time_when_cached {
                    false
                } else {
                    now - time_when_cached > max_age
                }
            },
            None => false,
        }
    }

    /// True exactly when `max-age` is at least one hour.
    pub fn is_storable_to_disk(&self) -> (r: bool)
        ensures
            r == spec_is_storable(hviews(self.headers@)),
    {
        match self.max_age() {
            Some(age) => age >= 3600,
            None => false,
        }
    }
}

} // verus!
