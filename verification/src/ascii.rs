//! Byte-level text helpers shared by the policy engine and the codecs:
//! ASCII case folding, whitespace trimming, decimal numerals, and searching.

use vstd::prelude::*;

verus! {

pub open spec fn is_digit(b: u8) -> bool {
    48 <= b && b <= 57
}

pub open spec fn is_space(b: u8) -> bool {
    b == 32 || b == 9 || b == 10 || b == 12 || b == 13
}

/// ASCII lower-casing of a single byte.
pub open spec fn lower(b: u8) -> u8 {
    if 65 <= b && b <= 90 {
        (b + 32) as u8
    } else {
        b
    }
}

pub open spec fn lower_seq(s: Seq<u8>) -> Seq<u8> {
    s.map_values(|b: u8| lower(b))
}

pub fn lower_byte(b: u8) -> (r: u8)
    ensures
        r == lower(b),
{
    if 65 <= b && b <= 90 {
        b + 32
    } else {
        b
    }
}

// ------------------------------------------------------------------
// Decimal numerals
// ------------------------------------------------------------------

/// Numeric value of a digit string, most significant digit first.
pub open spec fn dec_val(s: Seq<u8>) -> nat
    decreases s.len(),
{
    if s.len() == 0 {
        0
    } else {
        (dec_val(s.drop_last()) * 10 + (s.last() - 48)) as nat
    }
}

pub open spec fn all_digits(s: Seq<u8>) -> bool {
    forall|i: int| 0 <= i < s.len() ==> is_digit(s[i])
}

/// What parsing a whole byte string as a non-negative decimal yields.
pub open spec fn spec_parse_dec(s: Seq<u8>) -> Option<u64> {
    if s.len() > 0 && all_digits(s) && dec_val(s) <= u64::MAX {
        Some(dec_val(s) as u64)
    } else {
        None
    }
}

/// Canonical decimal form of a number: no sign, no leading zeros.
pub open spec fn spec_dec(n: nat) -> Seq<u8>
    decreases n,
{
    if n < 10 {
        seq![(48 + n) as u8]
    } else {
        spec_dec(n / 10).push((48 + n % 10) as u8)
    }
}

pub proof fn lemma_spec_dec(n: nat)
    ensures
        spec_dec(n).len() >= 1,
        all_digits(spec_dec(n)),
        dec_val(spec_dec(n)) == n,
        spec_dec(n)[0] != 48 || spec_dec(n).len() == 1,
    decreases n,
{
    if n < 10 {
        let s = spec_dec(n);
        assert(s == seq![(48 + n) as u8]);
        assert(s.len() == 1);
        assert(s.last() == (48 + n) as u8);
        assert(s.drop_last() =~= Seq::<u8>::empty());
        assert(dec_val(s.drop_last()) == 0);
        assert(dec_val(s) == n);
    } else {
        lemma_spec_dec(n / 10);
        vstd::arithmetic::div_mod::lemma_fundamental_div_mod(n as int, 10);
        let p = spec_dec(n / 10);
        let s = spec_dec(n);
        assert(s == p.push((48 + n % 10) as u8));
        assert(s.drop_last() =~= p);
        assert(s.last() == (48 + n % 10) as u8);
        assert(dec_val(s) == dec_val(p) * 10 + n % 10);
        assert(n / 10 >= 1);
        assert(p[0] != 48 || p.len() == 1);
        assert(s[0] == p[0]);
        if p.len() == 1 {
            assert(dec_val(p) == n / 10);
            assert(p.drop_last() =~= Seq::<u8>::empty());
            assert(p[0] == p.last());
            assert(is_digit(p[0]));
            assert(dec_val(p) == ((dec_val(p.drop_last()) * 10 + (p.last() - 48)) as nat));
            assert(dec_val(p.drop_last()) == 0);
            assert(p[0] - 48 == n / 10);
            assert(p[0] != 48);
        }
    }
}

/// A longer digit prefix never has a smaller value.
pub proof fn lemma_dec_val_prefix(s: Seq<u8>, i: int)
    requires
        0 <= i <= s.len(),
        all_digits(s),
    ensures
        dec_val(s.subrange(0, i)) <= dec_val(s),
    decreases s.len() - i,
{
    if i == s.len() {
        assert(s.subrange(0, i) =~= s);
    } else {
        lemma_dec_val_prefix(s, i + 1);
        let a = s.subrange(0, i);
        let b = s.subrange(0, i + 1);
        assert(b.drop_last() =~= a);
        assert(is_digit(s[i]));
        assert(dec_val(b) == (dec_val(a) * 10 + (s[i] - 48)) as nat);
        assert(dec_val(a) * 10 >= dec_val(a));
    }
}

/// Parse the bytes of `s` between `from` and `to` as a decimal number.
pub fn parse_dec(s: &Vec<u8>, from: usize, to: usize) -> (r: Option<u64>)
    requires
        from <= to <= s@.len(),
    ensures
        r == spec_parse_dec(s@.subrange(from as int, to as int)),
{
    let ghost whole = s@.subrange(from as int, to as int);
    if from == to {
        return None;
    }
    let mut acc: u64 = 0;
    let mut i: usize = from;
    while i < to
        invariant
            from <= i <= to <= s@.len(),
            whole == s@.subrange(from as int, to as int),
            all_digits(s@.subrange(from as int, i as int)),
            acc == dec_val(s@.subrange(from as int, i as int)),
        decreases to - i,
    {
        let b = s[i];
        if b < 48 || b > 57 {
            assert(!is_digit(whole[i - from]));
            return None;
        }
        let d = b - 48;
        proof {
            let a = s@.subrange(from as int, i as int);
            let bb = s@.subrange(from as int, i + 1 as int);
            assert(bb.drop_last() =~= a);
            assert(bb.last() == s@[i as int]);
        }
        if acc > (u64::MAX - (d as u64)) / 10 {
            proof {
                vstd::arithmetic::div_mod::lemma_fundamental_div_mod(
                    (u64::MAX - (d as u64)) as int,
                    10,
                );
                assert(acc * 10 + d > u64::MAX) by (nonlinear_arith)
                    requires
                        acc > ((u64::MAX - (d as u64)) / 10) as int,
                        0 <= d <= 9,
                        u64::MAX - (d as u64) == 10 * (((u64::MAX - (d as u64)) / 10) as int) + (((
                        u64::MAX - (d as u64)) % 10) as int),
                        0 <= (((u64::MAX - (d as u64)) % 10) as int) < 10;
                assert(dec_val(s@.subrange(from as int, i + 1 as int)) > u64::MAX);
                if all_digits(whole) {
                    lemma_dec_val_prefix(whole, i + 1 - from);
                    assert(whole.subrange(0, i + 1 - from) =~= s@.subrange(
                        from as int,
                        i + 1 as int,
                    ));
                    assert(dec_val(whole) > u64::MAX);
                }
            }
            return None;
        }
        proof {
            vstd::arithmetic::div_mod::lemma_fundamental_div_mod((u64::MAX - (d as u64)) as int, 10);
            assert(acc * 10 + d <= u64::MAX) by (nonlinear_arith)
                requires
                    acc <= ((u64::MAX - (d as u64)) / 10) as int,
                    0 <= d <= 9,
                    u64::MAX - (d as u64) == 10 * (((u64::MAX - (d as u64)) / 10) as int) + (((
                    u64::MAX - (d as u64)) % 10) as int),
                    0 <= (((u64::MAX - (d as u64)) % 10) as int) < 10;
        }
        acc = acc * 10 + (d as u64);
        i = i + 1;
    }
    assert(whole =~= s@.subrange(from as int, i as int));
    Some(acc)
}

/// Render a number in its canonical decimal form.
pub fn u64_to_dec(n: u64) -> (r: Vec<u8>)
    ensures
        r@ == spec_dec(n as nat),
    decreases n,
{
    if n < 10 {
        let mut v: Vec<u8> = Vec::new();
        v.push(48 + (n as u8));
        assert(v@ =~= seq![(48 + (n as nat)) as u8]);
        v
    } else {
        let mut v = u64_to_dec(n / 10);
        v.push(48 + ((n % 10) as u8));
        assert(v@ =~= spec_dec((n as nat) / 10).push((48 + (n as nat) % 10) as u8));
        v
    }
}

// ------------------------------------------------------------------
// Searching
// ------------------------------------------------------------------

/// Index of the first occurrence of `b` in `s` at or after `i`,
/// or `s.len()` if there is none.
pub open spec fn find_byte(s: Seq<u8>, b: u8, i: int) -> int
    decreases s.len() - i,
{
    if i < 0 || i >= s.len() {
        s.len() as int
    } else if s[i] == b {
        i
    } else {
        find_byte(s, b, i + 1)
    }
}

pub proof fn lemma_find_byte(s: Seq<u8>, b: u8, i: int)
    requires
        0 <= i <= s.len(),
    ensures
        i <= find_byte(s, b, i) <= s.len(),
        find_byte(s, b, i) < s.len() ==> s[find_byte(s, b, i)] == b,
        forall|k: int| i <= k < find_byte(s, b, i) ==> s[k] != b,
    decreases s.len() - i,
{
    if i < s.len() && s[i] != b {
        lemma_find_byte(s, b, i + 1);
    }
}

/// Where the first occurrence is known, `find_byte` returns it.
pub proof fn lemma_find_byte_at(s: Seq<u8>, b: u8, i: int, k: int)
    requires
        0 <= i <= k <= s.len(),
        forall|j: int| i <= j < k ==> s[j] != b,
        k == s.len() || s[k] == b,
    ensures
        find_byte(s, b, i) == if k < s.len() {
            k
        } else {
            s.len() as int
        },
    decreases k - i,
{
    if i < k {
        lemma_find_byte_at(s, b, i + 1, k);
    }
}

pub fn find_byte_from(s: &Vec<u8>, b: u8, from: usize) -> (r: usize)
    requires
        from <= s@.len(),
    ensures
        r == find_byte(s@, b, from as int),
        from <= r <= s@.len(),
{
    let mut i: usize = from;
    proof {
        lemma_find_byte(s@, b, from as int);
    }
    while i < s.len()
        invariant
            from <= i <= s@.len(),
            find_byte(s@, b, from as int) == find_byte(s@, b, i as int),
        decreases s@.len() - i,
    {
        if s[i] == b {
            return i;
        }
        i = i + 1;
    }
    i
}

/// Does `pat` occur in `s` starting exactly at `from`?
pub fn match_at(s: &Vec<u8>, from: usize, pat: &Vec<u8>) -> (r: bool)
    requires
        from <= s@.len(),
    ensures
        r == (from + pat@.len() <= s@.len() && s@.subrange(
            from as int,
            from as int + pat@.len(),
        ) == pat@),
{
    if pat.len() > s.len() - from {
        return false;
    }
    let mut i: usize = 0;
    while i < pat.len()
        invariant
            0 <= i <= pat@.len(),
            from + pat@.len() <= s@.len(),
            s@.len() <= usize::MAX,
            forall|j: int| 0 <= j < i ==> s@[from + j] == pat@[j],
        decreases pat@.len() - i,
    {
        assert(from + i < s@.len());
        if s[from + i] != pat[i] {
            assert(s@.subrange(from as int, from as int + pat@.len())[i as int] != pat@[i as int]);
            return false;
        }
        i = i + 1;
    }
    assert(s@.subrange(from as int, from as int + pat@.len()) =~= pat@);
    true
}

// ------------------------------------------------------------------
// Trimming
// ------------------------------------------------------------------

pub open spec fn trim_front(s: Seq<u8>) -> Seq<u8>
    decreases s.len(),
{
    if s.len() > 0 && is_space(s[0]) {
        trim_front(s.drop_first())
    } else {
        s
    }
}

pub open spec fn trim_back(s: Seq<u8>) -> Seq<u8>
    decreases s.len(),
{
    if s.len() > 0 && is_space(s.last()) {
        trim_back(s.drop_last())
    } else {
        s
    }
}

/// ASCII whitespace stripped from both ends.
pub open spec fn trim(s: Seq<u8>) -> Seq<u8> {
    trim_back(trim_front(s))
}

pub proof fn lemma_trim_front_idx(s: Seq<u8>, lo: int)
    requires
        0 <= lo <= s.len(),
        forall|j: int| 0 <= j < lo ==> is_space(s[j]),
        lo == s.len() || !is_space(s[lo]),
    ensures
        trim_front(s) == s.subrange(lo, s.len() as int),
    decreases lo,
{
    if lo == 0 {
        assert(s.subrange(0, s.len() as int) =~= s);
    } else {
        let t = s.drop_first();
        assert(is_space(s[0]));
        assert(forall|j: int| 0 <= j < lo - 1 ==> is_space(t[j]));
        lemma_trim_front_idx(t, lo - 1);
        assert(t.subrange(lo - 1, t.len() as int) =~= s.subrange(lo, s.len() as int));
    }
}

pub proof fn lemma_trim_back_idx(s: Seq<u8>, hi: int)
    requires
        0 <= hi <= s.len(),
        forall|j: int| hi <= j < s.len() ==> is_space(s[j]),
        hi == 0 || !is_space(s[hi - 1]),
    ensures
        trim_back(s) == s.subrange(0, hi),
    decreases s.len() - hi,
{
    if hi == s.len() {
        assert(s.subrange(0, hi) =~= s);
    } else {
        let t = s.drop_last();
        assert(is_space(s.last()));
        assert(forall|j: int| hi <= j < t.len() ==> is_space(t[j]));
        lemma_trim_back_idx(t, hi);
        assert(t.subrange(0, hi) =~= s.subrange(0, hi));
    }
}

/// Bounds of the whitespace-trimmed middle of `s`:
/// `trim(s@) == s@.subrange(lo, hi)`.
pub fn trim_bounds(s: &Vec<u8>) -> (r: (usize, usize))
    ensures
        r.0 <= r.1 <= s@.len(),
        trim(s@) == s@.subrange(r.0 as int, r.1 as int),
{
    let mut lo: usize = 0;
    while lo < s.len() && (s[lo] == 32 || s[lo] == 9 || s[lo] == 10 || s[lo] == 12 || s[lo] == 13)
        invariant
            0 <= lo <= s@.len(),
            forall|j: int| 0 <= j < lo ==> is_space(s@[j]),
        decreases s@.len() - lo,
    {
        lo = lo + 1;
    }
    proof {
        lemma_trim_front_idx(s@, lo as int);
    }
    let ghost f = s@.subrange(lo as int, s@.len() as int);
    let mut hi: usize = s.len();
    while hi > lo && (s[hi - 1] == 32 || s[hi - 1] == 9 || s[hi - 1] == 10 || s[hi - 1] == 12 || s[
        hi - 1] == 13)
        invariant
            lo <= hi <= s@.len(),
            forall|j: int| hi <= j < s@.len() ==> is_space(s@[j]),
        decreases hi,
    {
        hi = hi - 1;
    }
    proof {
        assert(forall|j: int| (hi - lo) <= j < f.len() ==> is_space(f[j]));
        assert(hi - lo == 0 || !is_space(f[hi - lo - 1]));
        lemma_trim_back_idx(f, hi - lo);
        assert(f.subrange(0, hi - lo) =~= s@.subrange(lo as int, hi as int));
    }
    (lo, hi)
}

} // verus!
