//! The JSON primitives of the wire envelope: string escaping, string and
//! number tokens, and fixed punctuation.  Only the exact shape the
//! envelope needs is read and written; strings escape the quote, the
//! backslash and control bytes, and pass every other byte through, so the
//! envelope is binary-clean at the byte level.

use vstd::prelude::*;

use crate::ascii::{all_digits, dec_val, is_digit, lemma_dec_val_prefix, lemma_spec_dec, spec_dec};
use crate::hexcodec::hex_digit;

verus! {

// ------------------------------------------------------------------
// String escaping
// ------------------------------------------------------------------

/// Lowercase hex digit?
pub open spec fn is_lhex(c: u8) -> bool {
    (48 <= c && c <= 57) || (97 <= c && c <= 102)
}

pub open spec fn lhex_val(c: u8) -> u8 {
    if c <= 57 {
        (c - 48) as u8
    } else {
        (c - 87) as u8
    }
}

/// The byte a short escape `\c` stands for.
pub open spec fn unesc_short(c: u8) -> u8 {
    if c == 110 {
        10
    } else if c == 114 {
        13
    } else if c == 116 {
        9
    } else {
        c
    }
}

pub open spec fn is_short_esc(c: u8) -> bool {
    c == 34 || c == 92 || c == 110 || c == 114 || c == 116
}

/// How one byte is written inside a JSON string.
pub open spec fn esc_byte(b: u8) -> Seq<u8> {
    if b == 34 {
        seq![92u8, 34u8]
    } else if b == 92 {
        seq![92u8, 92u8]
    } else if b == 10 {
        seq![92u8, 110u8]
    } else if b == 13 {
        seq![92u8, 114u8]
    } else if b == 9 {
        seq![92u8, 116u8]
    } else if b < 32 {
        seq![92u8, 117u8, 48u8, 48u8, hex_digit((b / 16) as u8), hex_digit((b % 16) as u8)]
    } else {
        seq![b]
    }
}

/// A byte string escaped for a JSON string body.
pub open spec fn esc(s: Seq<u8>) -> Seq<u8>
    decreases s.len(),
{
    if s.len() == 0 {
        Seq::empty()
    } else {
        esc_byte(s[0]) + esc(s.drop_first())
    }
}

/// The escaped string body followed by its closing quote.
pub open spec fn jstr(s: Seq<u8>) -> Seq<u8> {
    esc(s) + seq![34u8]
}

pub proof fn lemma_esc_append(a: Seq<u8>, b: Seq<u8>)
    ensures
        esc(a + b) == esc(a) + esc(b),
    decreases a.len(),
{
    if a.len() == 0 {
        assert(a + b =~= b);
        assert(esc(a) + esc(b) =~= esc(b));
    } else {
        lemma_esc_append(a.drop_first(), b);
        assert((a + b).drop_first() =~= a.drop_first() + b);
        assert((a + b)[0] == a[0]);
        assert(esc(a + b) == esc_byte(a[0]) + (esc(a.drop_first()) + esc(b)));
        assert(esc_byte(a[0]) + (esc(a.drop_first()) + esc(b)) =~= (esc_byte(a[0]) + esc(
            a.drop_first(),
        )) + esc(b));
    }
}

/// Append the escape of one byte.
pub fn esc_push(out: &mut Vec<u8>, b: u8)
    ensures
        final(out)@ == old(out)@ + esc_byte(b),
{
    if b == 34 {
        out.push(92);
        out.push(34);
    } else if b == 92 {
        out.push(92);
        out.push(92);
    } else if b == 10 {
        out.push(92);
        out.push(110);
    } else if b == 13 {
        out.push(92);
        out.push(114);
    } else if b == 9 {
        out.push(92);
        out.push(116);
    } else if b < 32 {
        out.push(92);
        out.push(117);
        out.push(48);
        out.push(48);
        let hi = b / 16;
        let lo = b % 16;
        out.push(if hi < 10 { 48 + hi } else { 87 + hi });
        out.push(if lo < 10 { 48 + lo } else { 87 + lo });
    } else {
        out.push(b);
    }
    assert(out@ =~= old(out)@ + esc_byte(b));
}

/// Append the whole escaped string and its closing quote.
pub fn append_jstr(out: &mut Vec<u8>, v: &Vec<u8>)
    ensures
        final(out)@ == old(out)@ + jstr(v@),
{
    let mut i: usize = 0;
    while i < v.len()
        invariant
            0 <= i <= v@.len(),
            out@ == old(out)@ + esc(v@.subrange(0, i as int)),
        decreases v@.len() - i,
    {
        proof {
            lemma_esc_append(v@.subrange(0, i as int), seq![v@[i as int]]);
            assert(v@.subrange(0, i + 1) =~= v@.subrange(0, i as int) + seq![v@[i as int]]);
            assert(esc(seq![v@[i as int]]) == esc_byte(v@[i as int]) + esc(
                seq![v@[i as int]].drop_first(),
            ));
            assert(seq![v@[i as int]].drop_first() =~= Seq::<u8>::empty());
            assert(esc(seq![v@[i as int]]) =~= esc_byte(v@[i as int]));
        }
        esc_push(out, v[i]);
        assert(out@ =~= old(out)@ + esc(v@.subrange(0, i + 1)));
        i = i + 1;
    }
    assert(v@.subrange(0, v@.len() as int) =~= v@);
    out.push(34);
    assert(out@ =~= old(out)@ + jstr(v@));
}

// ------------------------------------------------------------------
// String parsing
// ------------------------------------------------------------------

/// Parse a JSON string body from `i` up to and past its closing quote,
/// yielding the unescaped bytes and the position after the quote.
pub open spec fn spec_parse_str(s: Seq<u8>, i: int) -> Option<(Seq<u8>, int)>
    decreases s.len() - i,
{
    if i < 0 || i >= s.len() {
        None
    } else if s[i] == 34 {
        Some((Seq::empty(), i + 1))
    } else if s[i] == 92 {
        if i + 1 < s.len() && is_short_esc(s[i + 1]) {
            match spec_parse_str(s, i + 2) {
                None => None,
                Some(p) => Some((seq![unesc_short(s[i + 1])] + p.0, p.1)),
            }
        } else if i + 5 < s.len() && s[i + 1] == 117 && s[i + 2] == 48 && s[i + 3] == 48 && is_lhex(
            s[i + 4],
        ) && is_lhex(s[i + 5]) && lhex_val(s[i + 4]) * 16 + lhex_val(s[i + 5]) < 32 {
            match spec_parse_str(s, i + 6) {
                None => None,
                Some(p) => Some((seq![(lhex_val(s[i + 4]) * 16 + lhex_val(s[i + 5])) as u8] + p.0, p.1)),
            }
        } else {
            None
        }
    } else if s[i] < 32 {
        None
    } else {
        match spec_parse_str(s, i + 1) {
            None => None,
            Some(p) => Some((seq![s[i]] + p.0, p.1)),
        }
    }
}

pub proof fn lemma_parse_str_bounds(s: Seq<u8>, i: int)
    ensures
        spec_parse_str(s, i) matches Some(p) ==> i < p.1 <= s.len(),
    decreases s.len() - i,
{
    if 0 <= i && i < s.len() {
        lemma_parse_str_bounds(s, i + 1);
        if i + 1 < s.len() {
            lemma_parse_str_bounds(s, i + 2);
        }
        if i + 5 < s.len() {
            lemma_parse_str_bounds(s, i + 6);
        }
    }
}

pub fn parse_str_exec(s: &Vec<u8>, start: usize) -> (r: Option<(Vec<u8>, usize)>)
    requires
        start <= s@.len(),
    ensures
        match r {
            Some(p) => spec_parse_str(s@, start as int) == Some((p.0@, p.1 as int)) && start
                < p.1 <= s@.len(),
            None => spec_parse_str(s@, start as int) is None,
        },
{
    let mut out: Vec<u8> = Vec::new();
    let mut cur: usize = start;
    proof {
        if spec_parse_str(s@, start as int) is Some {
            let p = spec_parse_str(s@, start as int).unwrap();
            assert(out@ + p.0 =~= p.0);
        }
    }
    loop
        invariant
            start <= cur <= s@.len(),
            spec_parse_str(s@, start as int) == (match spec_parse_str(s@, cur as int) {
                None => None::<(Seq<u8>, int)>,
                Some(p) => Some((out@ + p.0, p.1)),
            }),
        decreases s@.len() - cur,
    {
        if cur >= s.len() {
            return None;
        }
        let b = s[cur];
        if b == 34 {
            proof {
                assert(spec_parse_str(s@, cur as int) == Some((Seq::<u8>::empty(), cur + 1)));
                assert(out@ + Seq::<u8>::empty() =~= out@);
            }
            return Some((out, cur + 1));
        }
        if b == 92 {
            if cur + 1 < s.len() && (s[cur + 1] == 34 || s[cur + 1] == 92 || s[cur + 1] == 110 || s[
                cur + 1] == 114 || s[cur + 1] == 116) {
                let u = if s[cur + 1] == 110 {
                    10
                } else if s[cur + 1] == 114 {
                    13
                } else if s[cur + 1] == 116 {
                    9
                } else {
                    s[cur + 1]
                };
                let ghost prev = out@;
                out.push(u);
                proof {
                    assert(u == unesc_short(s@[cur + 1]));
                    if spec_parse_str(s@, cur + 2) is Some {
                        let p = spec_parse_str(s@, cur + 2).unwrap();
                        assert(prev + (seq![u] + p.0) =~= out@ + p.0);
                    }
                    lemma_parse_str_bounds(s@, cur + 2);
                }
                cur = cur + 2;
            } else if s.len() - cur > 5 && s[cur + 1] == 117 && s[cur + 2] == 48 && s[cur + 3] == 48
                && (48 <= s[cur + 4] && s[cur + 4] <= 57 || 97 <= s[cur + 4] && s[cur + 4] <= 102)
                && (48 <= s[cur + 5] && s[cur + 5] <= 57 || 97 <= s[cur + 5] && s[cur + 5] <= 102)
                && {
                let h1 = if s[cur + 4] <= 57 {
                    s[cur + 4] - 48
                } else {
                    s[cur + 4] - 87
                };
                let h2 = if s[cur + 5] <= 57 {
                    s[cur + 5] - 48
                } else {
                    s[cur + 5] - 87
                };
                h1 * 16 + h2 < 32
            } {
                let h1 = if s[cur + 4] <= 57 {
                    s[cur + 4] - 48
                } else {
                    s[cur + 4] - 87
                };
                let h2 = if s[cur + 5] <= 57 {
                    s[cur + 5] - 48
                } else {
                    s[cur + 5] - 87
                };
                let u = h1 * 16 + h2;
                let ghost prev = out@;
                out.push(u);
                proof {
                    assert(h1 == lhex_val(s@[cur + 4]) && h2 == lhex_val(s@[cur + 5]));
                    if spec_parse_str(s@, cur + 6) is Some {
                        let p = spec_parse_str(s@, cur + 6).unwrap();
                        assert(prev + (seq![u] + p.0) =~= out@ + p.0);
                    }
                    lemma_parse_str_bounds(s@, cur + 6);
                }
                cur = cur + 6;
            } else {
                return None;
            }
        } else if b < 32 {
            return None;
        } else {
            let ghost prev = out@;
            out.push(b);
            proof {
                if spec_parse_str(s@, cur + 1) is Some {
                    let p = spec_parse_str(s@, cur + 1).unwrap();
                    assert(prev + (seq![b] + p.0) =~= out@ + p.0);
                }
                lemma_parse_str_bounds(s@, cur + 1);
            }
            cur = cur + 1;
        }
    }
}

/// Parsing the escaped form of `x` (with its closing quote) gives `x`
/// back and lands just past the quote.
pub proof fn lemma_parse_jstr(s: Seq<u8>, i: int, x: Seq<u8>)
    requires
        0 <= i,
        i + jstr(x).len() <= s.len(),
        s.subrange(i, i + jstr(x).len()) == jstr(x),
    ensures
        spec_parse_str(s, i) == Some((x, i + jstr(x).len())),
    decreases x.len(),
{
    let e = esc(x);
    let j = jstr(x);
    assert forall|t: int| 0 <= t < j.len() implies s[i + t] == j[t] by {
        assert(s.subrange(i, i + j.len())[t] == s[i + t]);
        assert(s.subrange(i, i + j.len())[t] == j[t]);
    }
    assert(j[e.len() as int] == 34);
    if x.len() == 0 {
        assert(e.len() == 0);
        assert(s[i] == j[0]);
        assert(s[i] == 34);
    } else {
        let b = x[0];
        let eb = esc_byte(b);
        let rest = x.drop_first();
        assert(e == eb + esc(rest));
        assert forall|t: int| 0 <= t < eb.len() implies s[i + t] == eb[t] by {
            assert(s[i + t] == j[t]);
            assert(j[t] == e[t]);
            assert(e[t] == eb[t]);
        }
        let i2 = i + eb.len();
        assert forall|t: int| 0 <= t < jstr(rest).len() implies s.subrange(
            i2,
            i2 + jstr(rest).len(),
        )[t] == jstr(rest)[t] by {
            assert(s.subrange(i2, i2 + jstr(rest).len())[t] == s[i2 + t]);
            assert(s[i2 + t] == j[eb.len() + t]);
            assert(j[eb.len() + t] == jstr(rest)[t]) by {
                if t < esc(rest).len() {
                    assert(j[eb.len() + t] == e[eb.len() + t]);
                    assert(e[eb.len() + t] == esc(rest)[t]);
                    assert(jstr(rest)[t] == esc(rest)[t]);
                } else {
                    assert(j[eb.len() + t] == 34);
                    assert(jstr(rest)[t] == 34);
                }
            }
        }
        assert(s.subrange(i2, i2 + jstr(rest).len()) =~= jstr(rest));
        lemma_parse_jstr(s, i2, rest);
        assert(jstr(rest).len() >= 1);
        if b == 34 || b == 92 || b == 10 || b == 13 || b == 9 {
            assert(s[i] == eb[0] && s[i + 1] == eb[1]);
            assert(eb[0] == 92);
            assert(is_short_esc(eb[1]) && unesc_short(eb[1]) == b);
            assert(spec_parse_str(s, i) == Some((seq![b] + rest, i + j.len())));
            assert(seq![b] + rest =~= x);
        } else if b < 32 {
            assert(s[i] == eb[0] && s[i + 1] == eb[1] && s[i + 2] == eb[2] && s[i + 3] == eb[3] && s[
                i + 4] == eb[4] && s[i + 5] == eb[5]);
            assert(eb[0] == 92 && eb[1] == 117 && eb[2] == 48 && eb[3] == 48);
            assert(eb[4] == hex_digit((b / 16) as u8) && eb[5] == hex_digit((b % 16) as u8));
            assert(!is_short_esc(117));
            assert(b / 16 < 10);
            assert(is_lhex(s[i + 4]) && is_lhex(s[i + 5]));
            assert(lhex_val(s[i + 4]) == b / 16 && lhex_val(s[i + 5]) == b % 16);
            assert(lhex_val(s[i + 4]) * 16 + lhex_val(s[i + 5]) == b);
            assert(spec_parse_str(s, i) == Some((seq![b] + rest, i + j.len())));
            assert(seq![b] + rest =~= x);
        } else {
            assert(s[i] == eb[0]);
            assert(eb[0] == b);
            assert(b != 34 && b != 92 && b >= 32);
            assert(spec_parse_str(s, i) == Some((seq![b] + rest, i + j.len())));
            assert(seq![b] + rest =~= x);
        }
    }
}

// ------------------------------------------------------------------
// Numbers
// ------------------------------------------------------------------

/// First position at or after `i` that does not hold a digit.
pub open spec fn digits_end(s: Seq<u8>, i: int) -> int
    decreases s.len() - i,
{
    if i < 0 || i >= s.len() || !is_digit(s[i]) {
        i
    } else {
        digits_end(s, i + 1)
    }
}

pub proof fn lemma_digits_end(s: Seq<u8>, i: int)
    requires
        0 <= i <= s.len(),
    ensures
        i <= digits_end(s, i) <= s.len(),
        forall|k: int| i <= k < digits_end(s, i) ==> is_digit(s[k]),
        digits_end(s, i) < s.len() ==> !is_digit(s[digits_end(s, i)]),
    decreases s.len() - i,
{
    if i < s.len() && is_digit(s[i]) {
        lemma_digits_end(s, i + 1);
    }
}

pub proof fn lemma_digits_end_at(s: Seq<u8>, i: int, k: int)
    requires
        0 <= i <= k <= s.len(),
        forall|j: int| i <= j < k ==> is_digit(s[j]),
        k == s.len() || !is_digit(s[k]),
    ensures
        digits_end(s, i) == k,
    decreases k - i,
{
    if i < k {
        lemma_digits_end_at(s, i + 1, k);
    }
}

/// A bare decimal number token, canonical (no leading zero) and small
/// enough for a status code's type.
pub open spec fn spec_parse_u16(s: Seq<u8>, i: int) -> Option<(u16, int)> {
    let j = digits_end(s, i);
    if 0 <= i && i < j && (s[i] != 48 || j == i + 1) && dec_val(s.subrange(i, j)) <= u16::MAX {
        Some((dec_val(s.subrange(i, j)) as u16, j))
    } else {
        None
    }
}

pub fn parse_u16_exec(s: &Vec<u8>, start: usize) -> (r: Option<(u16, usize)>)
    requires
        start <= s@.len(),
    ensures
        match r {
            Some(p) => spec_parse_u16(s@, start as int) == Some((p.0, p.1 as int)) && start
                < p.1 <= s@.len(),
            None => spec_parse_u16(s@, start as int) is None,
        },
{
    let mut j: usize = start;
    proof {
        lemma_digits_end(s@, start as int);
    }
    while j < s.len() && 48 <= s[j] && s[j] <= 57
        invariant
            start <= j <= s@.len(),
            digits_end(s@, start as int) == digits_end(s@, j as int),
        decreases s@.len() - j,
    {
        j = j + 1;
    }
    assert(digits_end(s@, start as int) == j);
    if j == start {
        return None;
    }
    if s[start] == 48 && j > start + 1 {
        return None;
    }
    let ghost digits = s@.subrange(start as int, j as int);
    proof {
        lemma_digits_end(s@, start as int);
        assert(forall|t: int| 0 <= t < digits.len() ==> digits[t] == s@[start + t]);
        assert(all_digits(digits));
    }
    let mut acc: u32 = 0;
    let mut i: usize = start;
    assert(s@.subrange(start as int, start as int) =~= Seq::<u8>::empty());
    while i < j
        invariant
            start <= i <= j <= s@.len(),
            digits == s@.subrange(start as int, j as int),
            digits_end(s@, start as int) == j as int,
            start < j,
            s@[start as int] != 48 || j == start + 1,
            all_digits(digits),
            acc == dec_val(s@.subrange(start as int, i as int)),
            acc <= u16::MAX,
        decreases j - i,
    {
        proof {
            assert(is_digit(s@[i as int])) by {
                assert(digits[i - start] == s@[i as int]);
            }
            let a = s@.subrange(start as int, i as int);
            let bb = s@.subrange(start as int, i + 1 as int);
            assert(bb.drop_last() =~= a);
            assert(bb.last() == s@[i as int]);
        }
        let d = s[i] - 48;
        let next = acc * 10 + (d as u32);
        if next > 65535 {
            proof {
                assert(dec_val(s@.subrange(start as int, i + 1 as int)) > u16::MAX);
                lemma_dec_val_prefix(digits, i + 1 - start);
                assert(digits.subrange(0, i + 1 - start) =~= s@.subrange(
                    start as int,
                    i + 1 as int,
                ));
                assert(dec_val(digits) > u16::MAX);
            }
            return None;
        }
        acc = next;
        i = i + 1;
    }
    assert(digits =~= s@.subrange(start as int, i as int));
    Some((acc as u16, j))
}

/// Parsing the canonical decimal form of `n` followed by a non-digit
/// yields `n`.
pub proof fn lemma_parse_u16_at(s: Seq<u8>, i: int, n: u16)
    requires
        0 <= i,
        i + spec_dec(n as nat).len() <= s.len(),
        s.subrange(i, i + spec_dec(n as nat).len()) == spec_dec(n as nat),
        i + spec_dec(n as nat).len() == s.len() || !is_digit(s[i + spec_dec(n as nat).len()]),
    ensures
        spec_parse_u16(s, i) == Some((n, i + spec_dec(n as nat).len())),
{
    let d = spec_dec(n as nat);
    lemma_spec_dec(n as nat);
    assert(forall|t: int| 0 <= t < d.len() ==> s[i + t] == d[t]) by {
        assert(forall|t: int| 0 <= t < d.len() ==> #[trigger] s.subrange(i, i + d.len())[t] == s[i + t]);
    }
    assert(forall|t: int| i <= t < i + d.len() ==> is_digit(s[t])) by {
        assert(forall|t: int| i <= t < i + d.len() ==> s[t] == d[t - i]);
    }
    lemma_digits_end_at(s, i, i + d.len());
    assert(s.subrange(i, i + d.len()) =~= d);
    assert(s[i] == d[0]);
    assert(d[0] != 48 || d.len() == 1);
    assert(dec_val(s.subrange(i, i + d.len())) == n);
}

// ------------------------------------------------------------------
// Fixed punctuation
// ------------------------------------------------------------------

/// Position after `lit` if it sits at `i` in `s`.
pub open spec fn spec_expect(s: Seq<u8>, i: int, lit: Seq<u8>) -> Option<int> {
    if 0 <= i && i + lit.len() <= s.len() && s.subrange(i, i + lit.len()) == lit {
        Some(i + lit.len())
    } else {
        None
    }
}

pub fn expect_lit(s: &Vec<u8>, i: usize, lit: &Vec<u8>) -> (r: Option<usize>)
    requires
        i <= s@.len(),
    ensures
        match r {
            Some(j) => spec_expect(s@, i as int, lit@) == Some(j as int) && i <= j <= s@.len(),
            None => spec_expect(s@, i as int, lit@) is None,
        },
{
    let n = s.len();
    if crate::ascii::match_at(s, i, lit) {
        assert(i + lit@.len() <= n);
        Some(i + lit.len())
    } else {
        None
    }
}

/// Splitting a known concatenation at its seam.
pub proof fn lemma_peel(s: Seq<u8>, i: int, a: Seq<u8>, b: Seq<u8>)
    requires
        0 <= i,
        i + a.len() + b.len() <= s.len(),
        s.subrange(i, i + a.len() + b.len()) == a + b,
    ensures
        s.subrange(i, i + a.len()) == a,
        s.subrange(i + a.len(), i + a.len() + b.len()) == b,
{
    assert forall|t: int| 0 <= t < a.len() implies s.subrange(i, i + a.len())[t] == a[t] by {
        assert(s.subrange(i, i + a.len())[t] == s[i + t]);
        assert(s.subrange(i, i + a.len() + b.len())[t] == s[i + t]);
        assert((a + b)[t] == a[t]);
    }
    assert(s.subrange(i, i + a.len()) =~= a);
    assert forall|t: int| 0 <= t < b.len() implies s.subrange(
        i + a.len(),
        i + a.len() + b.len(),
    )[t] == b[t] by {
        assert(s.subrange(i + a.len(), i + a.len() + b.len())[t] == s[i + a.len() + t]);
        assert(s.subrange(i, i + a.len() + b.len())[a.len() + t] == s[i + a.len() + t]);
        assert((a + b)[a.len() + t] == b[t]);
    }
    assert(s.subrange(i + a.len(), i + a.len() + b.len()) =~= b);
}

} // verus!
