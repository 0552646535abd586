//! The header serialization both storage tiers share: each header is
//! rendered as `Name:Value` and the lines are joined with a newline.
//! Reading splits each line at its first colon.  A line without a colon,
//! or with an empty name, is malformed and fails the whole decode.

use vstd::prelude::*;

use crate::ascii::{find_byte, find_byte_from, lemma_find_byte_at};
use crate::model::{DecodeError, Header, HeaderV, headers_wf, hviews, name_wf, value_wf};

verus! {

/// `Name:Value`.
pub open spec fn spec_header_line(h: HeaderV) -> Seq<u8> {
    h.name + seq![58u8] + h.value
}

/// The lines of all headers, joined with a newline, no trailing newline.
pub open spec fn spec_lines(hs: Seq<HeaderV>) -> Seq<u8>
    decreases hs.len(),
{
    if hs.len() == 0 {
        Seq::empty()
    } else if hs.len() == 1 {
        spec_header_line(hs[0])
    } else {
        spec_header_line(hs[0]) + seq![10u8] + spec_lines(hs.drop_first())
    }
}

pub proof fn lemma_lines_push(hs: Seq<HeaderV>, h: HeaderV)
    ensures
        spec_lines(hs.push(h)) == if hs.len() == 0 {
            spec_header_line(h)
        } else {
            spec_lines(hs) + seq![10u8] + spec_lines(seq![h])
        },
    decreases hs.len(),
{
    let w = hs.push(h);
    if hs.len() == 0 {
        assert(w.len() == 1);
        assert(w[0] == h);
    } else {
        lemma_lines_push(hs.drop_first(), h);
        assert(w.drop_first() =~= hs.drop_first().push(h));
        assert(w[0] == hs[0]);
        if hs.len() == 1 {
            assert(hs.drop_first().len() == 0);
            assert(spec_lines(w.drop_first()) == spec_header_line(h));
            assert(spec_lines(seq![h]) == spec_header_line(h));
            assert(spec_lines(hs) == spec_header_line(hs[0]));
            assert(spec_lines(w) == spec_header_line(hs[0]) + seq![10u8] + spec_lines(seq![h]));
        } else {
            assert(spec_lines(w) == spec_header_line(w[0]) + seq![10u8] + spec_lines(w.drop_first()));
            assert(spec_lines(hs) == spec_header_line(hs[0]) + seq![10u8] + spec_lines(
                hs.drop_first(),
            ));
            assert(spec_lines(w) =~= spec_lines(hs) + seq![10u8] + spec_lines(seq![h]));
        }
    }
}

/// Append all of `v` to `out`.
pub fn append_bytes(out: &mut Vec<u8>, v: &Vec<u8>)
    ensures
        final(out)@ == old(out)@ + v@,
{
    let mut i: usize = 0;
    while i < v.len()
        invariant
            0 <= i <= v@.len(),
            out@ == old(out)@ + v@.subrange(0, i as int),
        decreases v@.len() - i,
    {
        out.push(v[i]);
        assert(out@ =~= old(out)@ + v@.subrange(0, i + 1));
        i = i + 1;
    }
    assert(out@ =~= old(out)@ + v@);
}

/// Render the headers in their joined-lines form.
pub fn headers_to_lines(hs: &Vec<Header>) -> (r: Vec<u8>)
    ensures
        r@ == spec_lines(hviews(hs@)),
{
    let ghost hv = hviews(hs@);
    let mut out: Vec<u8> = Vec::new();
    let mut i: usize = 0;
    while i < hs.len()
        invariant
            0 <= i <= hs@.len(),
            hv == hviews(hs@),
            out@ == spec_lines(hv.subrange(0, i as int)),
        decreases hs@.len() - i,
    {
        let ghost pre = hv.subrange(0, i as int);
        if i > 0 {
            out.push(10);
        }
        append_bytes(&mut out, &hs[i].name);
        out.push(58);
        append_bytes(&mut out, &hs[i].value);
        proof {
            lemma_lines_push(pre, hv[i as int]);
            assert(hv.subrange(0, i + 1) =~= pre.push(hv[i as int]));
            assert(hv[i as int] == hs@[i as int]@);
            assert(spec_lines(seq![hv[i as int]]) == spec_header_line(hv[i as int]));
            if i == 0 {
                assert(out@ =~= spec_header_line(hv[0]));
            } else {
                assert(out@ =~= spec_lines(pre) + seq![10u8] + spec_header_line(hv[i as int]));
            }
        }
        i = i + 1;
    }
    assert(hv.subrange(0, hs@.len() as int) =~= hv);
    out
}

/// The header a single line `s[start..end)` spells, if it is well formed:
/// a non-empty name, a colon, then the value.
pub open spec fn spec_split_line(s: Seq<u8>, start: int, end: int) -> Option<HeaderV> {
    let c = find_byte(s, 58, start);
    if start < c && c < end {
        Some(HeaderV { name: s.subrange(start, c), value: s.subrange(c + 1, end) })
    } else {
        None
    }
}

/// Parse the lines of `s` from position `i` to the end.
pub open spec fn spec_parse_lines_from(s: Seq<u8>, i: int) -> Option<Seq<HeaderV>>
    decreases s.len() - i,
{
    if i < 0 || i > s.len() {
        None
    } else {
        let j = find_byte(s, 10, i);
        match spec_split_line(s, i, j) {
            None => None,
            Some(h) => {
                if j >= s.len() {
                    Some(seq![h])
                } else {
                    match spec_parse_lines_from(s, j + 1) {
                        None => None,
                        Some(rest) => Some(seq![h] + rest),
                    }
                }
            },
        }
    }
}

/// What parsing a whole joined-lines byte string yields.
pub open spec fn spec_parse_headers(s: Seq<u8>) -> Option<Seq<HeaderV>> {
    if s.len() == 0 {
        Some(Seq::empty())
    } else {
        spec_parse_lines_from(s, 0)
    }
}

pub fn copy_range(s: &Vec<u8>, from: usize, to: usize) -> (r: Vec<u8>)
    requires
        from <= to <= s@.len(),
    ensures
        r@ == s@.subrange(from as int, to as int),
{
    let mut out: Vec<u8> = Vec::new();
    let mut i: usize = from;
    while i < to
        invariant
            from <= i <= to <= s@.len(),
            out@ == s@.subrange(from as int, i as int),
        decreases to - i,
    {
        out.push(s[i]);
        assert(out@ =~= s@.subrange(from as int, i + 1));
        i = i + 1;
    }
    out
}

/// Split a joined-lines byte string back into headers.  Fails exactly
/// where the spec parser fails.
pub fn parse_headers(bytes: &Vec<u8>) -> (r: Result<Vec<Header>, DecodeError>)
    ensures
        match r {
            Ok(hs) => spec_parse_headers(bytes@) == Some(hviews(hs@)),
            Err(_) => spec_parse_headers(bytes@) is None,
        },
{
    if bytes.len() == 0 {
        let out: Vec<Header> = Vec::new();
        assert(hviews(out@) =~= Seq::<HeaderV>::empty());
        return Ok(out);
    }
    let mut out: Vec<Header> = Vec::new();
    let mut i: usize = 0;
    loop
        invariant
            0 <= i <= bytes@.len() <= usize::MAX,
            spec_parse_lines_from(bytes@, 0) == match spec_parse_lines_from(bytes@, i as int) {
                None => None,
                Some(rest) => Some(hviews(out@) + rest),
            },
            bytes@.len() > 0,
        decreases bytes@.len() - i,
    {
        let j = find_byte_from(bytes, 10, i);
        let c = find_byte_from(bytes, 58, i);
        if c == i || c >= j {
            assert(spec_split_line(bytes@, i as int, j as int) is None);
            return Err(DecodeError::MalformedHeaderLine);
        }
        let name = copy_range(bytes, i, c);
        let value = copy_range(bytes, c + 1, j);
        let ghost h = HeaderV { name: bytes@.subrange(i as int, c as int), value: bytes@.subrange(
            c + 1,
            j as int,
        ) };
        let ghost prev = out@;
        out.push(Header { name, value });
        proof {
            assert(spec_split_line(bytes@, i as int, j as int) == Some(h));
            assert(out@[prev.len() as int]@ == h);
            assert(hviews(out@) =~= hviews(prev).push(h));
        }
        if j >= bytes.len() {
            proof {
                assert(spec_parse_lines_from(bytes@, i as int) == Some(seq![h]));
                assert(hviews(prev) + seq![h] =~= hviews(out@));
            }
            return Ok(out);
        }
        proof {
            assert(spec_parse_lines_from(bytes@, i as int) == (match spec_parse_lines_from(
                bytes@,
                j + 1,
            ) {
                None => None,
                Some(rest) => Some(seq![h] + rest),
            }));
            assert(forall|rest: Seq<HeaderV>|
                hviews(prev) + (seq![h] + rest) =~= hviews(out@) + rest);
        }
        i = j + 1;
    }
}

/// Well-formed headers round-trip through the line encoding: parsing from
/// position `i` of a byte string whose tail is their joined-lines form
/// gives them back exactly.
pub proof fn lemma_parse_lines_at(s: Seq<u8>, i: int, hs: Seq<HeaderV>)
    requires
        0 <= i <= s.len(),
        hs.len() > 0,
        headers_wf(hs),
        s.subrange(i, s.len() as int) == spec_lines(hs),
    ensures
        spec_parse_lines_from(s, i) == Some(hs),
    decreases hs.len(),
{
    let h = hs[0];
    let line = spec_header_line(h);
    let tail = s.subrange(i, s.len() as int);
    assert(name_wf(h.name) && value_wf(h.value));
    assert(line.len() == h.name.len() + 1 + h.value.len());
    assert(forall|t: int| 0 <= t < tail.len() ==> tail[t] == s[i + t]);
    // No newline inside the first line, and none inside the name before
    // the colon.
    assert(forall|t: int| 0 <= t < h.name.len() ==> line[t] == h.name[t]);
    assert(line[h.name.len() as int] == 58);
    assert(forall|t: int| h.name.len() + 1 <= t < line.len() ==> line[t] == h.value[t - h.name.len()
        - 1]);
    assert(forall|t: int| 0 <= t < line.len() ==> line[t] != 10);
    if hs.len() == 1 {
        assert(tail == line);
        assert(s.len() == i + line.len());
        assert forall|t: int| i <= t < s.len() implies s[t] != 10 by {
            assert(s[t] == tail[t - i]);
            assert(tail[t - i] == line[t - i]);
        }
        lemma_find_byte_at(s, 10, i, s.len() as int);
        let j = find_byte(s, 10, i);
        assert(j == s.len());
        assert forall|t: int| i <= t < i + h.name.len() implies s[t] != 58 by {
            assert(s[t] == tail[t - i]);
            assert(tail[t - i] == line[t - i]);
            assert(line[t - i] == h.name[t - i]);
        }
        assert(s[i + h.name.len()] == tail[h.name.len() as int]);
        assert(s[i + h.name.len()] == 58);
        lemma_find_byte_at(s, 58, i, i + h.name.len());
        let c = find_byte(s, 58, i);
        assert(c == i + h.name.len());
        assert(i < c && c < j);
        let got = spec_split_line(s, i, j).unwrap();
        assert forall|t: int| 0 <= t < h.name.len() implies s[i + t] == h.name[t] by {
            assert(s[i + t] == tail[t]);
            assert(tail[t] == line[t]);
        }
        assert(got.name =~= h.name);
        assert forall|t: int| 0 <= t < h.value.len() implies s[c + 1 + t] == h.value[t] by {
            assert(s[c + 1 + t] == tail[h.name.len() + 1 + t]);
            assert(tail[h.name.len() + 1 + t] == line[h.name.len() + 1 + t]);
            assert(line[h.name.len() + 1 + t] == h.value[t]);
        }
        assert(got.value =~= h.value);
        assert(got == h);
        assert(spec_parse_lines_from(s, i) == Some(seq![h]));
        assert(seq![h] =~= hs);
    } else {
        let rest = hs.drop_first();
        assert(spec_lines(hs) == line + seq![10u8] + spec_lines(rest));
        assert(tail.len() == line.len() + 1 + spec_lines(rest).len());
        assert(tail[line.len() as int] == 10);
        assert(s[i + line.len()] == 10);
        assert forall|t: int| i <= t < i + line.len() implies s[t] != 10 by {
            assert(s[t] == tail[t - i]);
            assert(tail[t - i] == line[t - i]);
        }
        lemma_find_byte_at(s, 10, i, i + line.len());
        let j = find_byte(s, 10, i);
        assert(j == i + line.len());
        assert forall|t: int| i <= t < i + h.name.len() implies s[t] != 58 by {
            assert(s[t] == tail[t - i]);
            assert(tail[t - i] == line[t - i]);
            assert(line[t - i] == h.name[t - i]);
        }
        assert(s[i + h.name.len()] == tail[h.name.len() as int]);
        assert(tail[h.name.len() as int] == line[h.name.len() as int]);
        assert(s[i + h.name.len()] == 58);
        lemma_find_byte_at(s, 58, i, i + h.name.len());
        let c = find_byte(s, 58, i);
        assert(c == i + h.name.len());
        assert(i < c && c < j);
        let got = spec_split_line(s, i, j).unwrap();
        assert forall|t: int| 0 <= t < h.name.len() implies s[i + t] == h.name[t] by {
            assert(s[i + t] == tail[t]);
            assert(tail[t] == line[t]);
        }
        assert(got.name =~= h.name);
        assert forall|t: int| 0 <= t < h.value.len() implies s[c + 1 + t] == h.value[t] by {
            assert(s[c + 1 + t] == tail[h.name.len() + 1 + t]);
            assert(tail[h.name.len() + 1 + t] == line[h.name.len() + 1 + t]);
            assert(line[h.name.len() + 1 + t] == h.value[t]);
        }
        assert(got.value =~= h.value);
        assert(got == h);
        assert forall|t: int| 0 <= t < spec_lines(rest).len() implies s[j + 1 + t] == spec_lines(
            rest,
        )[t] by {
            assert(s[j + 1 + t] == tail[line.len() + 1 + t]);
            assert(tail[line.len() + 1 + t] == spec_lines(rest)[t]);
        }
        assert(s.subrange(j + 1, s.len() as int) =~= spec_lines(rest));
        lemma_parse_lines_at(s, j + 1, rest);
        assert(spec_parse_lines_from(s, i) == Some(seq![h] + rest));
        assert(seq![h] + rest =~= hs);
    }
}

/// The round-trip law of the line encoding: well-formed headers are
/// preserved exactly, names, values and order alike.
pub proof fn lemma_lines_round_trip(hs: Seq<HeaderV>)
    requires
        headers_wf(hs),
    ensures
        spec_parse_headers(spec_lines(hs)) == Some(hs),
{
    if hs.len() == 0 {
        assert(spec_lines(hs).len() == 0);
        assert(spec_parse_headers(spec_lines(hs)) == Some(Seq::<HeaderV>::empty()));
        assert(Seq::<HeaderV>::empty() =~= hs);
    } else {
        let s = spec_lines(hs);
        assert(s.len() > 0) by {
            assert(name_wf(hs[0].name));
            if hs.len() == 1 {
            } else {
            }
        }
        assert(s.subrange(0, s.len() as int) =~= s);
        lemma_parse_lines_at(s, 0, hs);
    }
}

} // verus!
