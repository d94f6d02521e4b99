//! BM25 lexical index bookkeeping, kept per domain alongside the vector
//! index: postings, document lengths and tombstones. Deleted chunks are
//! tombstoned (their postings stay until a rebuild).

use std::collections::{HashMap, HashSet};

use vstd::hash_map::StringHashMap;
use vstd::prelude::*;

use crate::id::ChunkId;
use crate::idset::IdSet;
use crate::text::{alnum, is_alphanumeric, push_char, str_chars, str_lowercase, str_views, to_lowercase};

verus! {

broadcast use vstd::string::group_string_axioms, vstd::std_specs::hash::group_hash_axioms;

/// A finished run as it contributes to the terms: kept, lower-cased, when it
/// has at least two characters.
pub open spec fn emit(run: Seq<char>) -> Seq<Seq<char>> {
    if run.len() >= 2 { seq![str_lowercase(run)] } else { Seq::empty() }
}

/// The terms of `cs[i..]`, `cur` being the alphanumeric run in progress: the
/// maximal runs of alphanumeric characters (`split(|c| !c.is_alphanumeric())`)
/// of at least two characters, lower-cased.
pub open spec fn term_runs(cs: Seq<char>, i: int, cur: Seq<char>) -> Seq<Seq<char>>
    decreases cs.len() - i,
{
    if i < 0 || i >= cs.len() {
        emit(cur)
    } else if alnum(cs[i]) {
        term_runs(cs, i + 1, cur.push(cs[i]))
    } else {
        emit(cur) + term_runs(cs, i + 1, Seq::empty())
    }
}

/// The terms of a text.
pub open spec fn terms(text: Seq<char>) -> Seq<Seq<char>> {
    term_runs(text, 0, Seq::empty())
}

/// Tokenise into lowercased alphanumeric terms (Unicode-aware, keeps accents).
pub fn tokenize(text: &str) -> (r: Vec<String>)
    ensures r@.map_values(|s: String| s@) == terms(text@),
{
    let cs = str_chars(text);
    let mut out: Vec<String> = Vec::new();
    let mut cur = String::new();
    let mut cur_len: usize = 0;
    let mut i: usize = 0;
    assert(out@.map_values(|s: String| s@) + term_runs(cs@, 0, cur@) =~= terms(text@));
    while i < cs.len()
        invariant
            i <= cs@.len(),
            cs@ == text@,
            cur_len == cur@.len(),
            cur_len <= i,
            out@.map_values(|s: String| s@) + term_runs(cs@, i as int, cur@) == terms(text@),
        decreases cs.len() - i,
    {
        let c = cs[i];
        if is_alphanumeric(c) {
            push_char(&mut cur, c);
            cur_len = cur_len + 1;
        } else {
            let ghost o = out@.map_values(|s: String| s@);
            let ghost prev = cur@;
            if cur_len >= 2 {
                let lw = to_lowercase(cur.as_str());
                out.push(lw);
            }
            assert(out@.map_values(|s: String| s@) =~= o + emit(prev));
            assert(o + (emit(prev) + term_runs(cs@, i + 1, Seq::empty()))
                =~= (o + emit(prev)) + term_runs(cs@, i + 1, Seq::empty()));
            cur = String::new();
            cur_len = 0;
        }
        i = i + 1;
    }
    let ghost o = out@.map_values(|s: String| s@);
    let ghost prev = cur@;
    if cur_len >= 2 {
        let lw = to_lowercase(cur.as_str());
        out.push(lw);
    }
    assert(out@.map_values(|s: String| s@) =~= o + emit(prev));
    out
}

/// How many times `t` occurs in `ts`.
pub open spec fn occurrences(ts: Seq<Seq<char>>, t: Seq<char>) -> nat
    decreases ts.len(),
{
    if ts.len() == 0 {
        0
    } else {
        occurrences(ts.drop_last(), t) + if ts.last() == t { 1nat } else { 0nat }
    }
}

proof fn lemma_occurrences_absent(ts: Seq<Seq<char>>, t: Seq<char>)
    requires !ts.contains(t),
    ensures occurrences(ts, t) == 0,
    decreases ts.len(),
{
    if ts.len() > 0 {
        assert(ts.last() == ts[ts.len() - 1]);
        assert forall|i: int| 0 <= i < ts.drop_last().len() implies ts.drop_last()[i] != t by {
            assert(ts.drop_last()[i] == ts[i]);
        }
        lemma_occurrences_absent(ts.drop_last(), t);
    }
}

/// A term occurs no more often than there are terms.
proof fn lemma_occurrences_bound(ts: Seq<Seq<char>>, t: Seq<char>)
    ensures occurrences(ts, t) <= ts.len(),
    decreases ts.len(),
{
    if ts.len() > 0 {
        lemma_occurrences_bound(ts.drop_last(), t);
    }
}

/// A prefix holds a term no more often than the whole.
proof fn lemma_occurrences_prefix(ts: Seq<Seq<char>>, n: int, t: Seq<char>)
    requires 0 <= n <= ts.len(),
    ensures occurrences(ts.take(n), t) <= occurrences(ts, t),
    decreases ts.len() - n,
{
    if n == ts.len() {
        assert(ts.take(n) =~= ts);
    } else {
        assert(ts.take(n + 1).drop_last() =~= ts.take(n));
        lemma_occurrences_prefix(ts, n + 1, t);
    }
}

/// The postings list of `t` in `p` (empty when the term is unknown).
pub open spec fn postings_of(p: Map<Seq<char>, Seq<(ChunkId, u32)>>, t: Seq<char>) -> Seq<(ChunkId, u32)> {
    if p.contains_key(t) { p[t] } else { Seq::empty() }
}

/// BM25 statistics over chunk texts.
pub struct LexicalIndex {
    /// term -> postings (chunk id, term frequency).
    postings: StringHashMap<Vec<(ChunkId, u32)>>,
    /// chunk id -> document length (token count).
    doc_len: HashMap<u64, u32>,
    tombstones: HashSet<u64>,
    total_len: u64,
}

impl LexicalIndex {
    /// The postings: for each known term, its `(chunk, frequency)` entries in
    /// insertion order.
    pub closed spec fn spec_postings(&self) -> Map<Seq<char>, Seq<(ChunkId, u32)>> {
        self.postings@.map_values(|v: Vec<(ChunkId, u32)>| v@)
    }

    /// Token count of every indexed chunk (by raw chunk id).
    pub closed spec fn spec_doc_len(&self) -> Map<u64, u32> {
        self.doc_len@
    }

    /// Chunks removed since they were indexed.
    pub closed spec fn spec_tombstones(&self) -> Set<u64> {
        self.tombstones@
    }

    /// Sum of the token counts of every `add`.
    pub closed spec fn spec_total_len(&self) -> u64 {
        self.total_len
    }

    /// Tombstones only ever name indexed chunks.
    pub closed spec fn wf(&self) -> bool {
        self.tombstones@.subset_of(self.doc_len@.dom())
    }

    /// The number of live (indexed, not removed) chunks.
    pub open spec fn live_count(&self) -> int {
        self.spec_doc_len().len() - self.spec_tombstones().len()
    }

    /// Whether chunk `id` is indexed and not removed.
    pub open spec fn is_live(&self, id: u64) -> bool {
        self.spec_doc_len().contains_key(id) && !self.spec_tombstones().contains(id)
    }

    /// An empty index.
    pub fn new() -> (r: Self)
        ensures
            r.wf(),
            r.spec_postings() == Map::<Seq<char>, Seq<(ChunkId, u32)>>::empty(),
            r.spec_doc_len() == Map::<u64, u32>::empty(),
            r.spec_tombstones() == Set::<u64>::empty(),
            r.spec_total_len() == 0,
    {
        let r = LexicalIndex {
            postings: StringHashMap::new(),
            doc_len: HashMap::new(),
            tombstones: HashSet::new(),
            total_len: 0,
        };
        assert(r.spec_postings() =~= Map::<Seq<char>, Seq<(ChunkId, u32)>>::empty());
        r
    }

    /// Number of live documents indexed.
    pub fn len(&self) -> (r: usize)
        requires self.wf(),
        ensures r == self.live_count(),
    {
        proof {
            vstd::set_lib::lemma_len_subset(self.tombstones@, self.doc_len@.dom());
        }
        self.doc_len.len() - self.tombstones.len()
    }

    /// Whether no live document is indexed.
    pub fn is_empty(&self) -> (r: bool)
        requires self.wf(),
        ensures r == (self.live_count() == 0),
    {
        self.len() == 0
    }

    /// Index `text` as chunk `id`: each of its terms' postings gains
    /// `(id, frequency)`, its length becomes its number of terms, and a
    /// tombstone on `id` is lifted.
    pub fn add(&mut self, id: ChunkId, text: &str)
        requires
            old(self).wf(),
            forall|t: Seq<char>| #[trigger] occurrences(terms(text@), t) <= u32::MAX,
            old(self).spec_total_len() + (terms(text@).len() as u32) <= u64::MAX,
        ensures
            final(self).wf(),
            final(self).spec_tombstones() == old(self).spec_tombstones().remove(id.0),
            final(self).spec_doc_len() == old(self).spec_doc_len().insert(id.0, terms(text@).len() as u32),
            final(self).spec_total_len() == old(self).spec_total_len() + (terms(text@).len() as u32),
            forall|t: Seq<char>| #[trigger] postings_of(final(self).spec_postings(), t) == if terms(text@).contains(t) {
                postings_of(old(self).spec_postings(), t).push((id, occurrences(terms(text@), t) as u32))
            } else {
                postings_of(old(self).spec_postings(), t)
            },
            forall|t: Seq<char>| #[trigger] final(self).spec_postings().contains_key(t)
                <==> (old(self).spec_postings().contains_key(t) || terms(text@).contains(t)),
            final(self).is_live(id.0),
            final(self).live_count() == old(self).live_count() + if old(self).is_live(id.0) { 0int } else { 1int },
            forall|other: u64| other != id.0 ==> (#[trigger] final(self).is_live(other) == old(self).is_live(other)),
    {
        self.tombstones.remove(&id.0);
        let tokens = tokenize(text);
        let ghost toks = tokens@.map_values(|s: String| s@);
        let dl: u32 = tokens.len() as u32;
        // Term frequencies, and the distinct terms in first-occurrence order.
        let mut counts: StringHashMap<u32> = StringHashMap::new();
        let mut distinct: Vec<String> = Vec::new();
        let mut k: usize = 0;
        while k < tokens.len()
            invariant
                k <= tokens@.len(),
                toks == tokens@.map_values(|s: String| s@),
                toks == terms(text@),
                forall|t: Seq<char>| #[trigger] occurrences(toks, t) <= u32::MAX,
                forall|t: Seq<char>| #[trigger] counts@.contains_key(t) <==> toks.take(k as int).contains(t),
                forall|t: Seq<char>| counts@.contains_key(t) ==> #[trigger] counts@[t] == occurrences(toks.take(k as int), t),
                forall|t: Seq<char>| counts@.contains_key(t) <==> #[trigger] str_views(distinct@).contains(t),
                str_views(distinct@).no_duplicates(),
            decreases tokens.len() - k,
        {
            let t = &tokens[k];
            let ghost tv = t@;
            let ghost prefix = toks.take(k as int);
            assert(tv == toks[k as int]);
            assert(toks.take(k + 1) =~= prefix.push(tv));
            assert(toks.take(k + 1).drop_last() =~= prefix);
            assert forall|u: Seq<char>| #[trigger] toks.take(k + 1).contains(u) <==> (prefix.contains(u) || u == tv) by {
                if toks.take(k + 1).contains(u) {
                    let w = choose|w: int| 0 <= w < k + 1 && #[trigger] toks.take(k + 1)[w] == u;
                    if w < k { assert(prefix[w] == u); }
                }
                if prefix.contains(u) {
                    let w = choose|w: int| 0 <= w < k && #[trigger] prefix[w] == u;
                    assert(toks.take(k + 1)[w] == u);
                }
                if u == tv { assert(toks.take(k + 1)[k as int] == u); }
            }
            assert forall|u: Seq<char>| #[trigger] occurrences(toks.take(k + 1), u)
                == occurrences(prefix, u) + if u == tv { 1nat } else { 0nat } by {
                assert(toks.take(k + 1).last() == tv);
            }
            proof {
                lemma_occurrences_prefix(toks, k as int + 1, tv);
            }
            let ghost dv = str_views(distinct@);
            let ghost oc = counts@;
            match counts.get(t.as_str()) {
                Some(c) => {
                    let c2 = *c + 1;
                    counts.insert(t.clone(), c2);
                },
                None => {
                    counts.insert(t.clone(), 1);
                    distinct.push(t.clone());
                    assert(str_views(distinct@) =~= dv.push(tv));
                    assert(!dv.contains(tv));
                    assert forall|u: Seq<char>| #[trigger] dv.push(tv).contains(u) <==> (dv.contains(u) || u == tv) by {
                        if dv.push(tv).contains(u) {
                            let w = choose|w: int| 0 <= w < dv.len() + 1 && #[trigger] dv.push(tv)[w] == u;
                            if w < dv.len() { assert(dv[w] == u); }
                        }
                        if dv.contains(u) {
                            let w = choose|w: int| 0 <= w < dv.len() && #[trigger] dv[w] == u;
                            assert(dv.push(tv)[w] == u);
                        }
                        if u == tv { assert(dv.push(tv)[dv.len() as int] == u); }
                    }
                },
            }
            assert forall|u: Seq<char>| counts@.contains_key(u) implies #[trigger] counts@[u] == occurrences(toks.take(k + 1), u) by {
                assert(occurrences(toks.take(k + 1), u) == occurrences(prefix, u) + if u == tv { 1nat } else { 0nat });
                if u == tv && !oc.contains_key(u) {
                    lemma_occurrences_absent(prefix, u);
                }
            }
            k = k + 1;
        }
        assert(toks.take(tokens@.len() as int) =~= toks);
        // Append `(id, frequency)` to each distinct term's postings.
        let ghost old_p = self.postings@;
        let ghost dvs = str_views(distinct@);
        let mut j: usize = 0;
        while j < distinct.len()
            invariant
                j <= distinct@.len(),
                dvs == str_views(distinct@),
                dvs.no_duplicates(),
                forall|t: Seq<char>| #[trigger] counts@.contains_key(t) <==> toks.contains(t),
                forall|t: Seq<char>| counts@.contains_key(t) ==> #[trigger] counts@[t] == occurrences(toks, t),
                forall|t: Seq<char>| counts@.contains_key(t) <==> #[trigger] dvs.contains(t),
                forall|t: Seq<char>| #[trigger] self.postings@.contains_key(t)
                    <==> (old_p.contains_key(t) || dvs.take(j as int).contains(t)),
                forall|t: Seq<char>| #[trigger] self.postings@.contains_key(t) ==> self.postings@[t]@ == if dvs.take(j as int).contains(t) {
                    (if old_p.contains_key(t) { old_p[t]@ } else { Seq::empty() }).push((id, occurrences(toks, t) as u32))
                } else {
                    old_p[t]@
                },
                self.tombstones@ == old(self).tombstones@.remove(id.0),
                self.doc_len@ == old(self).doc_len@,
                self.total_len == old(self).total_len,
                old_p == old(self).postings@,
            decreases distinct.len() - j,
        {
            let term = &distinct[j];
            let ghost tv = term@;
            assert(dvs[j as int] == tv);
            assert(dvs.take(j + 1) =~= dvs.take(j as int).push(tv));
            assert(!dvs.take(j as int).contains(tv)) by {
                if dvs.take(j as int).contains(tv) {
                    let w = choose|w: int| 0 <= w < j && #[trigger] dvs.take(j as int)[w] == tv;
                    assert(dvs[w] == dvs[j as int]);
                }
            }
            assert forall|u: Seq<char>| #[trigger] dvs.take(j + 1).contains(u) <==> (dvs.take(j as int).contains(u) || u == tv) by {
                if dvs.take(j + 1).contains(u) {
                    let w = choose|w: int| 0 <= w < j + 1 && #[trigger] dvs.take(j + 1)[w] == u;
                    if w < j { assert(dvs.take(j as int)[w] == u); }
                }
                if dvs.take(j as int).contains(u) {
                    let w = choose|w: int| 0 <= w < j && #[trigger] dvs.take(j as int)[w] == u;
                    assert(dvs.take(j + 1)[w] == u);
                }
                if u == tv { assert(dvs.take(j + 1)[j as int] == u); }
            }
            assert(dvs.contains(tv));
            let freq: u32 = match counts.get(term.as_str()) {
                Some(c) => *c,
                None => 0,
            };
            let mut list: Vec<(ChunkId, u32)> = Vec::new();
            match self.postings.get(term.as_str()) {
                Some(existing) => {
                    let mut m: usize = 0;
                    while m < existing.len()
                        invariant
                            m <= existing@.len(),
                            list@ == existing@.take(m as int),
                        decreases existing.len() - m,
                    {
                        list.push(existing[m]);
                        m = m + 1;
                        assert(list@ =~= existing@.take(m as int));
                    }
                    assert(existing@.take(existing@.len() as int) =~= existing@);
                },
                None => {},
            }
            list.push((id, freq));
            self.postings.insert(term.clone(), list);
            j = j + 1;
        }
        assert(dvs.take(distinct@.len() as int) =~= dvs);
        self.doc_len.insert(id.0, dl);
        self.total_len = self.total_len + dl as u64;
        proof {
            assert(toks == terms(text@));
            assert forall|t: Seq<char>| #[trigger] postings_of(self.spec_postings(), t) == if terms(text@).contains(t) {
                postings_of(old(self).spec_postings(), t).push((id, occurrences(terms(text@), t) as u32))
            } else {
                postings_of(old(self).spec_postings(), t)
            } by {
                assert(toks.contains(t) <==> dvs.contains(t));
            }
            assert forall|t: Seq<char>| #[trigger] self.spec_postings().contains_key(t)
                <==> (old(self).spec_postings().contains_key(t) || terms(text@).contains(t)) by {
                assert(toks.contains(t) <==> dvs.contains(t));
            }
            assert(self.tombstones@.subset_of(self.doc_len@.dom()));
            self.lemma_finite();
            old(self).lemma_finite();
        }
    }

    /// Whether a search restricted to `allowed` (when given) may return chunk `id`:
    /// it is not tombstoned, and the restriction names it.
    pub open spec fn admits(&self, allowed: Option<Set<u64>>, id: ChunkId) -> bool {
        &&& !self.spec_tombstones().contains(id.0)
        &&& match allowed { Some(a) => a.contains(id.0), None => true }
    }

    /// Index `text` as chunk `id` as `add` does, when its counts fit: it is
    /// refused (`false`, the index unchanged) when the text has more than
    /// `u32::MAX` terms or the sum of lengths would pass `u64::MAX`.
    pub fn try_add(&mut self, id: ChunkId, text: &str) -> (r: bool)
        requires old(self).wf(),
        ensures
            final(self).wf(),
            r == (terms(text@).len() <= u32::MAX && old(self).spec_total_len() + terms(text@).len() <= u64::MAX),
            !r ==> *final(self) == *old(self),
            r ==> final(self).spec_tombstones() == old(self).spec_tombstones().remove(id.0),
            r ==> final(self).spec_doc_len() == old(self).spec_doc_len().insert(id.0, terms(text@).len() as u32),
            r ==> final(self).spec_total_len() == old(self).spec_total_len() + terms(text@).len(),
            r ==> forall|t: Seq<char>| #[trigger] postings_of(final(self).spec_postings(), t) == if terms(text@).contains(t) {
                postings_of(old(self).spec_postings(), t).push((id, occurrences(terms(text@), t) as u32))
            } else {
                postings_of(old(self).spec_postings(), t)
            },
            r ==> final(self).is_live(id.0),
            r ==> final(self).live_count() == old(self).live_count() + if old(self).is_live(id.0) { 0int } else { 1int },
            forall|other: u64| other != id.0 ==> (#[trigger] final(self).is_live(other) == old(self).is_live(other)),
    {
        let n = tokenize(text).len();
        if n > u32::MAX as usize || self.total_len() as u128 + n as u128 > u64::MAX as u128 {
            return false;
        }
        proof {
            assert forall|t: Seq<char>| #[trigger] occurrences(terms(text@), t) <= u32::MAX by {
                lemma_occurrences_bound(terms(text@), t);
            }
        }
        self.add(id, text);
        true
    }

    /// The BM25 inputs of postings `ps`: each admitted entry `(id, frequency)`
    /// with the chunk's length (0 when unknown), in postings order.
    pub open spec fn hits_of(&self, ps: Seq<(ChunkId, u32)>, allowed: Option<Set<u64>>) -> Seq<(ChunkId, u32, u32)>
        decreases ps.len(),
    {
        if ps.len() == 0 {
            Seq::empty()
        } else {
            let rest = self.hits_of(ps.drop_last(), allowed);
            let (id, f) = ps.last();
            if self.admits(allowed, id) {
                let dl: u32 = if self.spec_doc_len().contains_key(id.0) { self.spec_doc_len()[id.0] } else { 0 };
                rest.push((id, f, dl))
            } else {
                rest
            }
        }
    }

    /// For each query term, in order: its document frequency (the length of its
    /// postings, tombstoned entries included) and the postings a search over
    /// `allowed` may score, each with the chunk's length. A term the index does
    /// not know has frequency 0 and no hits.
    pub fn term_hits(&self, terms: &Vec<String>, allowed: Option<&IdSet>) -> (r: Vec<(usize, Vec<(ChunkId, u32, u32)>)>)
        ensures
            r@.len() == terms@.len(),
            forall|i: int| 0 <= i < terms@.len() ==> {
                let ps = postings_of(self.spec_postings(), #[trigger] terms@[i]@);
                &&& r@[i].0 == ps.len()
                &&& r@[i].1@ == self.hits_of(ps, match allowed { Some(a) => Some(a@), None => None })
            },
    {
        let ghost al = match allowed { Some(a) => Some(a@), None => None };
        let mut out: Vec<(usize, Vec<(ChunkId, u32, u32)>)> = Vec::new();
        let mut i: usize = 0;
        while i < terms.len()
            invariant
                i <= terms@.len(),
                al == match allowed { Some(a) => Some(a@), None => None::<Set<u64>> },
                out@.len() == i,
                forall|j: int| 0 <= j < i ==> {
                    let ps = postings_of(self.spec_postings(), #[trigger] terms@[j]@);
                    &&& out@[j].0 == ps.len()
                    &&& out@[j].1@ == self.hits_of(ps, al)
                },
            decreases terms.len() - i,
        {
            let mut hits: Vec<(ChunkId, u32, u32)> = Vec::new();
            let mut df: usize = 0;
            match self.postings(terms[i].as_str()) {
                Some(ps) => {
                    df = ps.len();
                    let mut k: usize = 0;
                    while k < ps.len()
                        invariant
                            k <= ps@.len(),
                            al == match allowed { Some(a) => Some(a@), None => None::<Set<u64>> },
                            hits@ == self.hits_of(ps@.take(k as int), al),
                        decreases ps.len() - k,
                    {
                        let (id, f) = ps[k];
                        assert(ps@.take(k + 1).drop_last() =~= ps@.take(k as int));
                        let admitted = !self.is_tombstoned(id) && match allowed {
                            Some(a) => a.contains(id.0),
                            None => true,
                        };
                        if admitted {
                            let dl: u32 = match self.doc_len(id) {
                                Some(n) => n,
                                None => 0,
                            };
                            hits.push((id, f, dl));
                        }
                        k = k + 1;
                    }
                    assert(ps@.take(ps@.len() as int) =~= ps@);
                },
                None => {},
            }
            out.push((df, hits));
            i = i + 1;
        }
        out
    }

    /// A search finds what it may score: a posting `(id, f)` of a term whose
    /// chunk the search admits is among that term's hits, with the chunk's
    /// length.
    pub proof fn lemma_admitted_posting_is_a_hit(&self, ps: Seq<(ChunkId, u32)>, allowed: Option<Set<u64>>, id: ChunkId, f: u32)
        requires
            ps.contains((id, f)),
            self.admits(allowed, id),
        ensures
            self.hits_of(ps, allowed).contains(
                (id, f, if self.spec_doc_len().contains_key(id.0) { self.spec_doc_len()[id.0] } else { 0u32 }),
            ),
        decreases ps.len(),
    {
        let dl: u32 = if self.spec_doc_len().contains_key(id.0) { self.spec_doc_len()[id.0] } else { 0 };
        let rest = self.hits_of(ps.drop_last(), allowed);
        if ps.last() == (id, f) {
            assert(self.hits_of(ps, allowed) == rest.push((id, f, dl)));
            assert(self.hits_of(ps, allowed)[rest.len() as int] == (id, f, dl));
        } else {
            let k = choose|k: int| 0 <= k < ps.len() && ps[k] == (id, f);
            assert(k < ps.len() - 1);
            assert(ps.drop_last()[k] == (id, f));
            self.lemma_admitted_posting_is_a_hit(ps.drop_last(), allowed, id, f);
            let j = choose|j: int| 0 <= j < rest.len() && rest[j] == (id, f, dl);
            let (lid, lf) = ps.last();
            if self.admits(allowed, lid) {
                let dl2: u32 = if self.spec_doc_len().contains_key(lid.0) { self.spec_doc_len()[lid.0] } else { 0 };
                assert(self.hits_of(ps, allowed) == rest.push((lid, lf, dl2)));
                assert(self.hits_of(ps, allowed)[j] == (id, f, dl));
            }
        }
    }

    proof fn lemma_finite(&self)
        ensures
            self.doc_len@.dom().finite(),
            self.wf() ==> self.tombstones@.finite(),
    {
        assert(self.doc_len@.dom().finite());
        if self.wf() {
            vstd::set_lib::lemma_len_subset(self.tombstones@, self.doc_len@.dom());
        }
    }

    /// The postings of `term`: its `(chunk, frequency)` entries, if it is known.
    pub fn postings(&self, term: &str) -> (r: Option<&Vec<(ChunkId, u32)>>)
        ensures
            match r {
                Some(v) => self.spec_postings().contains_key(term@) && v@ == self.spec_postings()[term@],
                None => !self.spec_postings().contains_key(term@),
            },
    {
        self.postings.get(term)
    }

    /// The token count of chunk `id`, if it was indexed.
    pub fn doc_len(&self, id: ChunkId) -> (r: Option<u32>)
        ensures
            match r {
                Some(n) => self.spec_doc_len().contains_key(id.0) && n == self.spec_doc_len()[id.0],
                None => !self.spec_doc_len().contains_key(id.0),
            },
    {
        match self.doc_len.get(&id.0) {
            Some(n) => Some(*n),
            None => None,
        }
    }

    /// Whether chunk `id` was removed since it was indexed.
    pub fn is_tombstoned(&self, id: ChunkId) -> (r: bool)
        ensures r == self.spec_tombstones().contains(id.0),
    {
        self.tombstones.contains(&id.0)
    }

    /// The sum of the token counts of every `add`.
    pub fn total_len(&self) -> (r: u64)
        ensures r == self.spec_total_len(),
    {
        self.total_len
    }

    /// The number of chunks ever indexed (removed ones included).
    pub fn indexed_count(&self) -> (r: usize)
        ensures r == self.spec_doc_len().len(),
    {
        self.doc_len.len()
    }

    /// Tombstone chunk `id` if it is indexed (no-op otherwise).
    pub fn remove(&mut self, id: ChunkId)
        requires old(self).wf(),
        ensures
            final(self).wf(),
            final(self).spec_postings() == old(self).spec_postings(),
            final(self).spec_doc_len() == old(self).spec_doc_len(),
            final(self).spec_total_len() == old(self).spec_total_len(),
            final(self).spec_tombstones() == if old(self).spec_doc_len().contains_key(id.0) {
                old(self).spec_tombstones().insert(id.0)
            } else {
                old(self).spec_tombstones()
            },
            !final(self).is_live(id.0),
            final(self).live_count() == old(self).live_count() - if old(self).is_live(id.0) { 1int } else { 0int },
    {
        proof { self.lemma_finite(); }
        if self.doc_len.contains_key(&id.0) {
            self.tombstones.insert(id.0);
        }
    }
}

} // verus!
