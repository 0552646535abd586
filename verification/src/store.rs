//! The persistent tier, modelled in memory: a resource table unique on
//! (method, url) and a content table referencing it, exactly the
//! two-step shape of the relational store.  Rows, once written, are
//! never refreshed or deleted: the tier is append-only by key.  This
//! store also serves as the fallback when no database file can be
//! opened.

use vstd::prelude::*;

use crate::model::{CacheKey, CachedResponse, KeyV, RespV, StoreError};
use crate::rows::{Page, Page_content, spec_content_decode, spec_content_of};

verus! {

/// Index of the first page row matching the key, scanning from `i`.
pub open spec fn find_page_at(ps: Seq<Page>, k: KeyV, i: int) -> Option<int>
    decreases ps.len() - i,
{
    if i < 0 || i >= ps.len() {
        None
    } else if ps[i].method@ == k.method && ps[i].url@ == k.uri {
        Some(i)
    } else {
        find_page_at(ps, k, i + 1)
    }
}

/// Index of the first content row referencing page `pid`, scanning from
/// `i`.
pub open spec fn find_content_at(cs: Seq<Page_content>, pid: u64, i: int) -> Option<int>
    decreases cs.len() - i,
{
    if i < 0 || i >= cs.len() {
        None
    } else if cs[i].page_key == Some(pid) {
        Some(i)
    } else {
        find_content_at(cs, pid, i + 1)
    }
}

proof fn lemma_find_page_push(ps: Seq<Page>, p: Page, k: KeyV, i: int)
    requires
        0 <= i <= ps.len(),
    ensures
        find_page_at(ps.push(p), k, i) == match find_page_at(ps, k, i) {
            Some(j) => Some(j),
            None => if p.method@ == k.method && p.url@ == k.uri {
                Some(ps.len() as int)
            } else {
                None
            },
        },
    decreases ps.len() - i,
{
    if i < ps.len() {
        assert(ps.push(p)[i] == ps[i]);
        lemma_find_page_push(ps, p, k, i + 1);
    } else {
        assert(ps.push(p)[ps.len() as int] == p);
        assert(find_page_at(ps.push(p), k, i + 1) is None);
    }
}

proof fn lemma_find_content_push(cs: Seq<Page_content>, c: Page_content, pid: u64, i: int)
    requires
        0 <= i <= cs.len(),
    ensures
        find_content_at(cs.push(c), pid, i) == match find_content_at(cs, pid, i) {
            Some(j) => Some(j),
            None => if c.page_key == Some(pid) {
                Some(cs.len() as int)
            } else {
                None
            },
        },
    decreases cs.len() - i,
{
    if i < cs.len() {
        assert(cs.push(c)[i] == cs[i]);
        lemma_find_content_push(cs, c, pid, i + 1);
    } else {
        assert(cs.push(c)[cs.len() as int] == c);
        assert(find_content_at(cs.push(c), pid, i + 1) is None);
    }
}

/// An index holding the key, extracted from a successful page scan.
proof fn lemma_find_page_witness(ps: Seq<Page>, k: KeyV, i: int) -> (j: int)
    requires
        0 <= i,
        find_page_at(ps, k, i) is Some,
    ensures
        i <= j < ps.len(),
        ps[j].method@ == k.method && ps[j].url@ == k.uri,
        find_page_at(ps, k, i) == Some(j),
    decreases ps.len() - i,
{
    if ps[i].method@ == k.method && ps[i].url@ == k.uri {
        i
    } else {
        lemma_find_page_witness(ps, k, i + 1)
    }
}

/// The in-memory relational store.
#[derive(Debug)]
pub struct MemoryStore {
    pages: Vec<Page>,
    contents: Vec<Page_content>,
}

impl MemoryStore {
    /// Row shape: page ids are their indexes, page keys are unique,
    /// every content row references an existing page, and a page has at
    /// most one content row.
    pub closed spec fn wf(&self) -> bool {
        &&& forall|i: int|
            0 <= i < self.pages@.len() ==> (#[trigger] self.pages@[i].id) == Some(i as u64)
        &&& forall|a: int, b: int|
            0 <= a < b < self.pages@.len() ==> !((#[trigger] self.pages@[a].method@) == (
            #[trigger] self.pages@[b].method@) && self.pages@[a].url@ == self.pages@[b].url@)
        &&& forall|j: int|
            0 <= j < self.contents@.len() ==> (#[trigger] self.contents@[j].page_key) is Some
                && self.contents@[j].page_key.unwrap() < self.pages@.len()
        &&& forall|a: int, b: int|
            0 <= a < b < self.contents@.len() ==> (#[trigger] self.contents@[a].page_key) != (
            #[trigger] self.contents@[b].page_key)
    }

    /// Whether a resource row exists for the key.
    pub closed spec fn spec_contains(&self, k: KeyV) -> bool {
        find_page_at(self.pages@, k, 0) is Some
    }

    /// The response the store yields for the key, if the key has a page
    /// row, the page has a content row, and the row decodes.
    pub closed spec fn spec_find_ok(&self, k: KeyV) -> Option<RespV> {
        match find_page_at(self.pages@, k, 0) {
            None => None,
            Some(i) => match find_content_at(self.contents@, i as u64, 0) {
                None => None,
                Some(j) => spec_content_decode(self.contents@[j]@),
            },
        }
    }

    /// Which error the store reports when it yields nothing.
    pub closed spec fn spec_find_err(&self, k: KeyV) -> StoreError {
        match find_page_at(self.pages@, k, 0) {
            None => StoreError::NotFound,
            Some(i) => match find_content_at(self.contents@, i as u64, 0) {
                None => StoreError::Consistency,
                Some(_) => StoreError::Serialization,
            },
        }
    }

    pub fn new() -> (r: Self)
        ensures
            r.wf(),
            forall|k: KeyV| !r.spec_contains(k),
            forall|k: KeyV| r.spec_find_ok(k) is None,
    {
        MemoryStore { pages: Vec::new(), contents: Vec::new() }
    }

    /// Index of the page row for the key, if any.
    fn find_page_index(&self, method: &Vec<u8>, uri: &Vec<u8>) -> (r: Option<usize>)
        ensures
            match r {
                Some(i) => i < self.pages@.len() && find_page_at(
                    self.pages@,
                    KeyV { method: method@, uri: uri@ },
                    0,
                ) == Some(i as int),
                None => find_page_at(self.pages@, KeyV { method: method@, uri: uri@ }, 0) is None,
            },
    {
        let ghost k = KeyV { method: method@, uri: uri@ };
        let mut i: usize = 0;
        while i < self.pages.len()
            invariant
                0 <= i <= self.pages@.len(),
                k == (KeyV { method: method@, uri: uri@ }),
                find_page_at(self.pages@, k, 0) == find_page_at(self.pages@, k, i as int),
            decreases self.pages@.len() - i,
        {
            if crate::model::bytes_eq(&self.pages[i].method, method) && crate::model::bytes_eq(
                &self.pages[i].url,
                uri,
            ) {
                return Some(i);
            }
            i = i + 1;
        }
        None
    }

    /// Index of the content row for page `pid`, if any.
    fn find_content_index(&self, pid: u64) -> (r: Option<usize>)
        ensures
            match r {
                Some(j) => j < self.contents@.len() && find_content_at(self.contents@, pid, 0)
                    == Some(j as int),
                None => find_content_at(self.contents@, pid, 0) is None,
            },
    {
        let mut j: usize = 0;
        while j < self.contents.len()
            invariant
                0 <= j <= self.contents@.len(),
                find_content_at(self.contents@, pid, 0) == find_content_at(
                    self.contents@,
                    pid,
                    j as int,
                ),
            decreases self.contents@.len() - j,
        {
            let matches = match self.contents[j].page_key {
                Some(p) => p == pid,
                None => false,
            };
            if matches {
                return Some(j);
            }
            j = j + 1;
        }
        None
    }

    /// The two-step write: insert the resource row if the key is new,
    /// then its content row, both in one call.  A key already present is
    /// left exactly as it was: rows are never refreshed.
    pub fn add(&mut self, key: CacheKey, content: CachedResponse) -> (r: Result<(), StoreError>)
        requires
            old(self).wf(),
        ensures
            final(self).wf(),
            r is Ok,
            old(self).spec_contains(key@) ==> *final(self) == *old(self),
            forall|k2: KeyV|
                final(self).spec_contains(k2) == (old(self).spec_contains(k2) || k2 == key@),
            forall|k2: KeyV|
                final(self).spec_find_ok(k2) == if k2 == key@ && !old(self).spec_contains(key@) {
                    spec_content_decode(spec_content_of(content@))
                } else {
                    old(self).spec_find_ok(k2)
                },
    {
        let ghost kv = key@;
        match self.find_page_index(&key.method, &key.uri) {
            Some(_) => {
                proof {
                    assert forall|k2: KeyV|
                        self.spec_contains(k2) == (self.spec_contains(k2) || k2 == kv) by {
                        if k2 == kv {
                        }
                    }
                }
                Ok(())
            },
            None => {
                let ghost ps = self.pages@;
                let ghost cs = self.contents@;
                let pid = self.pages.len() as u64;
                let page = Page { id: Some(pid), method: key.method, url: key.uri };
                self.pages.push(page);
                let mut row = Page_content::from_response(&content);
                row.id = Some(self.contents.len() as u64);
                row.page_key = Some(pid);
                self.contents.push(row);
                proof {
                    let ps2 = self.pages@;
                    let cs2 = self.contents@;
                    let newpage = ps2[ps.len() as int];
                    let newrow = cs2[cs.len() as int];
                    assert(newpage.method@ == kv.method && newpage.url@ == kv.uri);
                    assert(newrow.page_key == Some(pid));
                    // Shape is preserved.
                    assert forall|i: int|
                        0 <= i < ps2.len() implies (#[trigger] ps2[i].id) == Some(i as u64) by {
                        if i < ps.len() {
                            assert(ps2[i] == ps[i]);
                        }
                    }
                    assert forall|a: int, b: int|
                        0 <= a < b < ps2.len() implies !((#[trigger] ps2[a].method@) == (
                    #[trigger] ps2[b].method@) && ps2[a].url@ == ps2[b].url@) by {
                        if b < ps.len() {
                            assert(ps2[a] == ps[a] && ps2[b] == ps[b]);
                        } else {
                            assert(ps2[a] == ps[a]);
                            if ps2[a].method@ == kv.method && ps2[a].url@ == kv.uri {
                                lemma_find_page_none(ps, kv, 0, a);
                            }
                        }
                    }
                    assert forall|j: int|
                        0 <= j < cs2.len() implies (#[trigger] cs2[j].page_key) is Some
                        && cs2[j].page_key.unwrap() < ps2.len() by {
                        if j < cs.len() {
                            assert(cs2[j] == cs[j]);
                        }
                    }
                    assert forall|a: int, b: int|
                        0 <= a < b < cs2.len() implies (#[trigger] cs2[a].page_key) != (
                    #[trigger] cs2[b].page_key) by {
                        if b < cs.len() {
                            assert(cs2[a] == cs[a] && cs2[b] == cs[b]);
                        } else {
                            assert(cs2[a] == cs[a]);
                            assert(cs[a].page_key.unwrap() < ps.len());
                        }
                    }
                    // The mapping gains exactly this key.
                    assert forall|k2: KeyV|
                        self.spec_find_ok(k2) == (if k2 == kv {
                            spec_content_decode(spec_content_of(content@))
                        } else {
                            match find_page_at(ps, k2, 0) {
                                None => None,
                                Some(i) => match find_content_at(cs, i as u64, 0) {
                                    None => None,
                                    Some(j) => spec_content_decode(cs[j]@),
                                },
                            }
                        }) by {
                        lemma_find_page_push(ps, newpage, k2, 0);
                        if k2 == kv {
                            assert(find_page_at(ps2, k2, 0) == Some(ps.len() as int));
                            lemma_find_content_push(cs, newrow, pid, 0);
                            if find_content_at(cs, pid, 0) is Some {
                                let j = lemma_find_content_witness(cs, pid, 0);
                                assert(cs[j].page_key.unwrap() < ps.len());
                                assert(false);
                            }
                            assert(find_content_at(cs2, pid, 0) == Some(cs.len() as int));
                            assert(spec_content_decode(newrow@) == spec_content_decode(
                                spec_content_of(content@),
                            ));
                        } else {
                            if find_page_at(ps, k2, 0) is Some {
                                let i = lemma_find_page_witness(ps, k2, 0);
                                assert(find_page_at(ps2, k2, 0) == find_page_at(ps, k2, 0));
                                let i0 = find_page_at(ps, k2, 0).unwrap();
                                lemma_find_content_push(cs, newrow, i0 as u64, 0);
                                assert(i0 < ps.len());
                                assert(i0 as u64 != pid);
                                if find_content_at(cs, i0 as u64, 0) is Some {
                                    let j = find_content_at(cs, i0 as u64, 0).unwrap();
                                    lemma_find_content_bounds(cs, i0 as u64, 0);
                                    assert(cs2[j] == cs[j]);
                                }
                            } else {
                                if newpage.method@ == k2.method && newpage.url@ == k2.uri {
                                    assert(k2 =~= kv);
                                }
                            }
                        }
                    }
                    assert forall|k2: KeyV|
                        self.spec_contains(k2) == (find_page_at(ps, k2, 0) is Some || k2 == kv) by {
                        lemma_find_page_push(ps, newpage, k2, 0);
                        if !(find_page_at(ps, k2, 0) is Some) {
                            if newpage.method@ == k2.method && newpage.url@ == k2.uri {
                                assert(k2 =~= kv);
                            }
                        }
                    }
                }
                Ok(())
            },
        }
    }

    /// The two-step read: the resource row by key, its content row by
    /// page id, then the decoded response.  Each missing or malformed
    /// step is its own typed error; none is a panic.
    pub fn find_page_and_content(&self, key: &CacheKey) -> (r: Result<CachedResponse, StoreError>)
        requires
            self.wf(),
        ensures
            match r {
                Ok(c) => self.spec_find_ok(key@) == Some(c@),
                Err(e) => self.spec_find_ok(key@) is None && e == self.spec_find_err(key@),
            },
    {
        let i = match self.find_page_index(&key.method, &key.uri) {
            Some(i) => i,
            None => {
                return Err(StoreError::NotFound);
            },
        };
        let pid = i as u64;
        let j = match self.find_content_index(pid) {
            Some(j) => j,
            None => {
                return Err(StoreError::Consistency);
            },
        };
        match self.contents[j].to_response() {
            Ok(c) => Ok(c),
            Err(_) => Err(StoreError::Serialization),
        }
    }

    /// How many resource rows the store holds.
    pub closed spec fn spec_page_count(&self) -> nat {
        self.pages@.len()
    }

    pub fn page_count(&self) -> (r: usize)
        ensures
            r == self.spec_page_count(),
    {
        self.pages.len()
    }
}

/// A failed scan means no row matches.
proof fn lemma_find_page_none(ps: Seq<Page>, k: KeyV, i: int, at: int)
    requires
        0 <= i <= at < ps.len(),
        find_page_at(ps, k, i) is None,
    ensures
        !(ps[at].method@ == k.method && ps[at].url@ == k.uri),
    decreases at - i,
{
    if i < at {
        lemma_find_page_none(ps, k, i + 1, at);
    }
}

/// An index referencing `pid`, extracted from a successful content scan.
proof fn lemma_find_content_witness(cs: Seq<Page_content>, pid: u64, i: int) -> (j: int)
    requires
        0 <= i,
        find_content_at(cs, pid, i) is Some,
    ensures
        i <= j < cs.len(),
        cs[j].page_key == Some(pid),
        find_content_at(cs, pid, i) == Some(j),
    decreases cs.len() - i,
{
    if cs[i].page_key == Some(pid) {
        i
    } else {
        lemma_find_content_witness(cs, pid, i + 1)
    }
}

proof fn lemma_find_content_bounds(cs: Seq<Page_content>, pid: u64, i: int)
    requires
        0 <= i,
    ensures
        find_content_at(cs, pid, i) matches Some(j) ==> i <= j < cs.len() && cs[j].page_key
            == Some(pid),
    decreases cs.len() - i,
{
    if 0 <= i && i < cs.len() {
        lemma_find_content_bounds(cs, pid, i + 1);
    }
}

} // verus!
