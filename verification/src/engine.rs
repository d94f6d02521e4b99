//! The engine's own decisions around ingest and search: what an ingest body
//! becomes, how a filter expression is resolved with set algebra over the
//! secondary-index candidate sets, how pre-filters narrow the candidates, and
//! the snippet shown with a hit.

use vstd::prelude::*;

use crate::chunking::{Chunker, FixedSizeChunker};
use crate::error::NucleusError;
use crate::id::TagId;
use crate::idset::IdSet;
use crate::model::{Chunk, Document};
use crate::query::{eval, Expr, SpecExpr};
use crate::text::{is_whitespace, push_char, str_chars, str_views, ws_words};

verus! {

/// The body of an ingest request: either raw text (the engine chunks it) or
/// already-split chunks.
pub enum IngestBody {
    Text(String),
    Chunks(Vec<String>),
}

/// Result of ingesting a document synchronously.
pub struct IngestOutcome {
    pub document: Document,
    pub chunk_count: usize,
}

/// The chunk texts an ingest body yields: the given chunks, or the chunker's
/// split of the text.
pub open spec fn body_texts(body: IngestBody, chunker: FixedSizeChunker) -> Seq<Seq<char>> {
    match body {
        IngestBody::Chunks(c) => str_views(c@),
        IngestBody::Text(t) => chunker.chunks_of(t@),
    }
}

/// Whether the chunker can split this body (the text must leave room for one
/// more window in `usize`).
pub open spec fn body_accepted(body: IngestBody, chunker: FixedSizeChunker) -> bool {
    match body {
        IngestBody::Chunks(_) => true,
        IngestBody::Text(t) => chunker.accepts(t@),
    }
}

/// Whether the chunker can split this body (see `body_accepted`).
pub fn body_texts_fit(body: &IngestBody, chunker: &FixedSizeChunker) -> (r: bool)
    ensures r == body_accepted(*body, *chunker),
{
    match body {
        IngestBody::Chunks(_) => true,
        IngestBody::Text(t) => {
            let n = str_chars(t.as_str()).len();
            chunker.size <= usize::MAX - n
        },
    }
}

/// The chunk texts to embed and store for an ingest body.
pub fn ingest_texts(body: IngestBody, chunker: &FixedSizeChunker) -> (r: Vec<String>)
    requires body_accepted(body, *chunker),
    ensures str_views(r@) == body_texts(body, *chunker),
{
    match body {
        IngestBody::Chunks(c) => c,
        IngestBody::Text(t) => chunker.chunk(t.as_str()),
    }
}

/// Hard cap on `k` per search, to bound per-request work and memory.
pub const MAX_K: usize = 1000;

/// How many results a search returns, fetches per retriever, and keeps for the
/// reranking or diversification stage.
#[derive(Debug, Clone, Copy, PartialEq, Eq, Structural)]
pub struct SearchPlan {
    /// Results returned: the requested `k`, capped at `MAX_K`.
    pub k: usize,
    /// Candidates fetched from each retriever: `5k`, at least 50.
    pub fetch: usize,
    /// Fused candidates kept: the reranker's window (within `[k, fetch]`) when
    /// reranking, the whole fetch when diversifying, `k` otherwise.
    pub window: usize,
}

/// The plan of a search for `k` results.
pub open spec fn plan_spec(k: int, do_rerank: bool, do_mmr: bool, rerank_candidates: int) -> (int, int, int) {
    let k2 = if k <= MAX_K { k } else { MAX_K as int };
    let fetch = if 5 * k2 >= 50 { 5 * k2 } else { 50 };
    let window = if do_rerank {
        if rerank_candidates < k2 { k2 } else if rerank_candidates > fetch { fetch } else { rerank_candidates }
    } else if do_mmr {
        fetch
    } else {
        k2
    };
    (k2, fetch, window)
}

/// Plan a search: cap `k`, size the candidate fetch and the stage-two window.
pub fn search_plan(k: usize, do_rerank: bool, do_mmr: bool, rerank_candidates: usize) -> (r: SearchPlan)
    ensures
        (r.k as int, r.fetch as int, r.window as int) == plan_spec(k as int, do_rerank, do_mmr, rerank_candidates as int),
        r.k <= r.window <= r.fetch || (!do_rerank && !do_mmr && r.window == r.k),
{
    let k2 = if k <= MAX_K { k } else { MAX_K };
    let fetch = if 5 * k2 >= 50 { 5 * k2 } else { 50 };
    let window = if do_rerank {
        if rerank_candidates < k2 {
            k2
        } else if rerank_candidates > fetch {
            fetch
        } else {
            rerank_candidates
        }
    } else if do_mmr {
        fetch
    } else {
        k2
    };
    SearchPlan { k: k2, fetch, window }
}

/// A query vector must have the domain's dimension.
pub fn check_dimension(expected: usize, got: usize) -> (r: Result<(), NucleusError>)
    ensures
        expected == got ==> r is Ok,
        expected != got ==> r == Err::<(), NucleusError>(NucleusError::DimensionMismatch { expected, got }),
{
    if expected == got { Ok(()) } else { Err(NucleusError::DimensionMismatch { expected, got }) }
}

/// `Some(s)` narrowed by a further candidate set: the set itself when nothing
/// restricted the candidates yet, the intersection otherwise.
pub open spec fn meet(acc: Option<Set<u64>>, s: Set<u64>) -> Option<Set<u64>> {
    match acc {
        None => Some(s),
        Some(p) => Some(p.intersect(s)),
    }
}

/// The view of an optional candidate set.
pub open spec fn opt_view(o: Option<IdSet>) -> Option<Set<u64>> {
    match o {
        None => None,
        Some(s) => Some(s@),
    }
}

/// Narrow the candidate set `acc` (`None` = no restriction) by `s`.
pub fn narrow(acc: Option<IdSet>, s: IdSet) -> (r: Option<IdSet>)
    requires
        acc matches Some(a) ==> a.wf(),
        s.wf(),
    ensures
        opt_view(r) == meet(opt_view(acc), s@),
        r matches Some(x) && x.wf(),
{
    match acc {
        None => Some(s),
        Some(p) => Some(p.intersect(&s)),
    }
}

/// The leaf terms of a filter expression, left to right.
pub open spec fn leaf_list(e: SpecExpr) -> Seq<SpecExpr>
    decreases e,
{
    match e {
        SpecExpr::And(a, b) => leaf_list(*a) + leaf_list(*b),
        SpecExpr::Or(a, b) => leaf_list(*a) + leaf_list(*b),
        SpecExpr::Not(a) => leaf_list(*a),
        _ => seq![e],
    }
}

/// The chunk ids an expression selects, given the candidate set of each of its
/// leaves (left to right, from the start of `leaves`) and the universe that
/// `NOT` complements against.
pub open spec fn set_eval(e: SpecExpr, leaves: Seq<Set<u64>>, u: Set<u64>) -> Set<u64>
    decreases e,
{
    match e {
        SpecExpr::And(a, b) => set_eval(*a, leaves, u).intersect(set_eval(*b, leaves.skip(leaf_list(*a).len() as int), u)),
        SpecExpr::Or(a, b) => set_eval(*a, leaves, u).union(set_eval(*b, leaves.skip(leaf_list(*a).len() as int), u)),
        SpecExpr::Not(a) => u.difference(set_eval(*a, leaves, u)),
        _ => leaves[0],
    }
}

/// A leaf term of a filter, owned.
pub enum FilterLeaf {
    /// The chunks carrying the tag with this name.
    Tag(String),
    /// The chunks of this document.
    Doc(u64),
    /// The chunks whose metadata `key` equals `value`.
    Meta(String, String),
}

/// The expression a leaf stands for.
pub open spec fn leaf_view(l: FilterLeaf) -> SpecExpr {
    match l {
        FilterLeaf::Tag(n) => SpecExpr::Tag(n@),
        FilterLeaf::Doc(d) => SpecExpr::Doc(d),
        FilterLeaf::Meta(k, v) => SpecExpr::Meta(k@, v@),
    }
}

/// The leaves of `e`, left to right, appended to `out`.
fn push_leaves(e: &Expr, out: &mut Vec<FilterLeaf>)
    ensures final(out)@.map_values(|l: FilterLeaf| leaf_view(l)) == old(out)@.map_values(|l: FilterLeaf| leaf_view(l)) + leaf_list(e@),
    decreases e,
{
    let ghost before = out@.map_values(|l: FilterLeaf| leaf_view(l));
    match e {
        Expr::And(a, b) => {
            push_leaves(a, out);
            push_leaves(b, out);
            assert(before + leaf_list((**a)@) + leaf_list((**b)@) =~= before + (leaf_list((**a)@) + leaf_list((**b)@)));
        },
        Expr::Or(a, b) => {
            push_leaves(a, out);
            push_leaves(b, out);
            assert(before + leaf_list((**a)@) + leaf_list((**b)@) =~= before + (leaf_list((**a)@) + leaf_list((**b)@)));
        },
        Expr::Not(a) => {
            push_leaves(a, out);
        },
        Expr::Tag(n) => {
            out.push(FilterLeaf::Tag(n.clone()));
            assert(out@.map_values(|l: FilterLeaf| leaf_view(l)) =~= before + leaf_list(e@));
        },
        Expr::Doc(d) => {
            out.push(FilterLeaf::Doc(*d));
            assert(out@.map_values(|l: FilterLeaf| leaf_view(l)) =~= before + leaf_list(e@));
        },
        Expr::Meta(k, v) => {
            out.push(FilterLeaf::Meta(k.clone(), v.clone()));
            assert(out@.map_values(|l: FilterLeaf| leaf_view(l)) =~= before + leaf_list(e@));
        },
    }
}

/// The leaf terms of a filter expression, left to right: each is resolved to
/// its candidate set from the secondary indexes before `eval_filter`.
pub fn filter_leaves(e: &Expr) -> (r: Vec<FilterLeaf>)
    ensures r@.map_values(|l: FilterLeaf| leaf_view(l)) == leaf_list(e@),
{
    let mut out: Vec<FilterLeaf> = Vec::new();
    push_leaves(e, &mut out);
    assert(Seq::<FilterLeaf>::empty().map_values(|l: FilterLeaf| leaf_view(l)) + leaf_list(e@) =~= leaf_list(e@));
    out
}

/// The views of a list of candidate sets.
pub open spec fn set_views(v: Seq<IdSet>) -> Seq<Set<u64>> {
    v.map_values(|s: IdSet| s@)
}

fn eval_from(e: &Expr, leaves: &Vec<IdSet>, pos: usize, universe: &IdSet) -> (r: (IdSet, usize))
    requires
        pos + leaf_list(e@).len() <= leaves@.len(),
        forall|i: int| 0 <= i < leaves@.len() ==> (#[trigger] leaves@[i]).wf(),
        universe.wf(),
    ensures
        r.0.wf(),
        r.0@ == set_eval(e@, set_views(leaves@).skip(pos as int), universe@),
        r.1 == pos + leaf_list(e@).len(),
    decreases e,
{
    let ghost lv = set_views(leaves@);
    match e {
        Expr::And(a, b) => {
            let (x, p) = eval_from(a, leaves, pos, universe);
            let (y, q) = eval_from(b, leaves, p, universe);
            assert(lv.skip(pos as int).skip(leaf_list((**a)@).len() as int) =~= lv.skip(p as int));
            (x.intersect(&y), q)
        },
        Expr::Or(a, b) => {
            let (x, p) = eval_from(a, leaves, pos, universe);
            let (y, q) = eval_from(b, leaves, p, universe);
            assert(lv.skip(pos as int).skip(leaf_list((**a)@).len() as int) =~= lv.skip(p as int));
            (x.union(&y), q)
        },
        Expr::Not(a) => {
            let (x, p) = eval_from(a, leaves, pos, universe);
            (universe.minus(&x), p)
        },
        _ => {
            assert(leaf_list(e@) == seq![e@]);
            let total = leaves.len();
            assert(pos < total);
            let s = leaves[pos].intersect(&leaves[pos]);
            assert(s@ =~= leaves@[pos as int]@);
            (s, pos + 1)
        },
    }
}

/// Resolve a filter with set algebra: `leaves` holds the candidate set of each
/// leaf of `e` (see `filter_leaves`), `universe` the domain's chunk ids.
pub fn eval_filter(e: &Expr, leaves: &Vec<IdSet>, universe: &IdSet) -> (r: IdSet)
    requires
        leaf_list(e@).len() <= leaves@.len(),
        forall|i: int| 0 <= i < leaves@.len() ==> (#[trigger] leaves@[i]).wf(),
        universe.wf(),
    ensures
        r.wf(),
        r@ == set_eval(e@, set_views(leaves@), universe@),
{
    let (r, _) = eval_from(e, leaves, 0, universe);
    assert(set_views(leaves@).skip(0) =~= set_views(leaves@));
    r
}

/// Resolving a filter with set algebra selects exactly the chunks that match
/// it: for a chunk of the universe, when each leaf's candidate set contains the
/// chunk just when the leaf matches it, the resolved set contains the chunk
/// just when the whole expression matches it.
pub proof fn lemma_set_eval_agrees(
    e: SpecExpr,
    leaves: Seq<Set<u64>>,
    u: Set<u64>,
    k: u64,
    c: Chunk,
    names: Map<Seq<char>, TagId>,
)
    requires
        u.contains(k),
        leaf_list(e).len() <= leaves.len(),
        forall|i: int| 0 <= i < leaf_list(e).len() ==> #[trigger] leaves[i].contains(k) == eval(leaf_list(e)[i], c, names),
    ensures
        set_eval(e, leaves, u).contains(k) == eval(e, c, names),
    decreases e,
{
    match e {
        SpecExpr::And(a, b) | SpecExpr::Or(a, b) => {
            let na = leaf_list(*a).len() as int;
            assert forall|i: int| 0 <= i < leaf_list(*a).len() implies #[trigger] leaves[i].contains(k) == eval(leaf_list(*a)[i], c, names) by {
                assert(leaf_list(e)[i] == leaf_list(*a)[i]);
            }
            lemma_set_eval_agrees(*a, leaves, u, k, c, names);
            let rest = leaves.skip(na);
            assert forall|i: int| 0 <= i < leaf_list(*b).len() implies #[trigger] rest[i].contains(k) == eval(leaf_list(*b)[i], c, names) by {
                assert(leaf_list(e)[na + i] == leaf_list(*b)[i]);
                assert(rest[i] == leaves[na + i]);
            }
            lemma_set_eval_agrees(*b, rest, u, k, c, names);
        },
        SpecExpr::Not(a) => {
            lemma_set_eval_agrees(*a, leaves, u, k, c, names);
        },
        _ => {
            assert(leaf_list(e)[0] == e);
        },
    }
}

/// Lower-case a character to a single character: the first scalar of its
/// Unicode lower-case mapping.
pub uninterp spec fn lower_first(c: char) -> char;

/// `c.to_lowercase().next().unwrap_or(c)`; named by `lower_first`.
#[verifier::external_body]
fn lower1(c: char) -> (r: char)
    ensures r == lower_first(c),
{
    c.to_lowercase().next().unwrap_or(c)
}

/// Per-character lower-casing (one character for one, so positions carry over).
pub open spec fn lower_each(s: Seq<char>) -> Seq<char> {
    s.map_values(|c: char| lower_first(c))
}

fn lower_each_vec(cs: &[char]) -> (r: Vec<char>)
    ensures r@ == lower_each(cs@),
{
    let mut out: Vec<char> = Vec::new();
    let mut i: usize = 0;
    while i < cs.len()
        invariant
            i <= cs@.len(),
            out@ == lower_each(cs@.take(i as int)),
        decreases cs.len() - i,
    {
        out.push(lower1(cs[i]));
        i = i + 1;
        assert(out@ =~= lower_each(cs@.take(i as int)));
    }
    assert(cs@.take(cs@.len() as int) =~= cs@);
    out
}

/// The first position, from `i` on, where `n` occurs in `h`.
pub open spec fn find_from(h: Seq<char>, n: Seq<char>, i: int) -> Option<int>
    decreases h.len() + 1 - i,
{
    if i < 0 || i + n.len() > h.len() {
        None
    } else if h.subrange(i, i + n.len()) == n {
        Some(i)
    } else {
        find_from(h, n, i + 1)
    }
}

/// The first position where `needle` occurs in `haystack`; `None` for an
/// empty needle.
pub open spec fn find_first(haystack: Seq<char>, needle: Seq<char>) -> Option<int> {
    if needle.len() == 0 {
        None
    } else {
        find_from(haystack, needle, 0)
    }
}

fn matches_at(h: &[char], n: &[char], i: usize) -> (r: bool)
    requires i + n@.len() <= h@.len(),
    ensures r == (h@.subrange(i as int, i + n@.len()) == n@),
{
    let hl = h.len();
    assert(hl == h@.len());
    let mut j: usize = 0;
    while j < n.len()
        invariant
            j <= n@.len(),
            i + n@.len() <= h@.len(),
            hl == h@.len(),
            forall|k: int| 0 <= k < j ==> h@[i + k] == n@[k],
        decreases n.len() - j,
    {
        if h[i + j] != n[j] {
            assert(h@.subrange(i as int, i + n@.len())[j as int] != n@[j as int]);
            return false;
        }
        j = j + 1;
    }
    assert(h@.subrange(i as int, i + n@.len()) =~= n@);
    true
}

/// Find the first index at which `needle` occurs in `haystack` (both as char
/// slices). Naive search — needles are short query terms.
pub fn find_subslice(haystack: &[char], needle: &[char]) -> (r: Option<usize>)
    ensures
        match r {
            Some(i) => find_first(haystack@, needle@) == Some(i as int),
            None => find_first(haystack@, needle@) is None,
        },
{
    if needle.len() == 0 || needle.len() > haystack.len() {
        return None;
    }
    let hl = haystack.len();
    let last = hl - needle.len();
    let mut i: usize = 0;
    while i <= last
        invariant
            needle@.len() > 0,
            last + needle@.len() == haystack@.len(),
            hl == haystack@.len(),
            i <= last + 1,
            find_first(haystack@, needle@) == find_from(haystack@, needle@, i as int),
        decreases last + 1 - i,
    {
        if matches_at(haystack, needle, i) {
            return Some(i);
        }
        i = i + 1;
    }
    None
}

/// The query terms a snippet looks for: the whitespace-separated words of at
/// least two characters, lower-cased character by character.
pub open spec fn snippet_terms(ws: Seq<Seq<char>>) -> Seq<Seq<char>>
    decreases ws.len(),
{
    if ws.len() == 0 {
        Seq::empty()
    } else {
        snippet_terms(ws.drop_last()) + if ws.last().len() >= 2 {
            seq![lower_each(ws.last())]
        } else {
            Seq::empty()
        }
    }
}

/// The earliest position where any of `terms` occurs in `h`.
pub open spec fn earliest(h: Seq<char>, terms: Seq<Seq<char>>) -> Option<int>
    decreases terms.len(),
{
    if terms.len() == 0 {
        None
    } else {
        let rest = earliest(h, terms.drop_last());
        match (rest, find_first(h, terms.last())) {
            (None, x) => x,
            (Some(p), None) => Some(p),
            (Some(p), Some(q)) => Some(if q < p { q } else { p }),
        }
    }
}

/// The snippet of `text` for `query`: the characters within `radius` of the
/// earliest (case-insensitive) term match, with `…` marking cut ends; `None`
/// when the query has no usable term or none occurs.
pub open spec fn snippet_spec(text: Seq<char>, query: Seq<char>, radius: int) -> Option<Seq<char>> {
    let terms = snippet_terms(ws_words(query));
    if terms.len() == 0 {
        None
    } else {
        match earliest(lower_each(text), terms) {
            None => None,
            Some(pos) => {
                let start = if pos > radius { pos - radius } else { 0 };
                let end = if pos + radius < text.len() { pos + radius } else { text.len() as int };
                Some((if start > 0 { seq!['…'] } else { Seq::empty() }) + text.subrange(start, end)
                    + (if end < text.len() { seq!['…'] } else { Seq::empty() }))
            },
        }
    }
}

/// A query word of two or more characters is looked for, lower-cased.
proof fn lemma_snippet_terms_has(ws: Seq<Seq<char>>, k: int)
    requires 0 <= k < ws.len(), ws[k].len() >= 2,
    ensures snippet_terms(ws).contains(lower_each(ws[k])),
    decreases ws.len(),
{
    if k == ws.len() - 1 {
        let rest = snippet_terms(ws.drop_last());
        assert((rest + seq![lower_each(ws.last())])[rest.len() as int] == lower_each(ws[k]));
    } else {
        assert(ws.drop_last()[k] == ws[k]);
        lemma_snippet_terms_has(ws.drop_last(), k);
        let rest = snippet_terms(ws.drop_last());
        let j = choose|j: int| 0 <= j < rest.len() && rest[j] == lower_each(ws[k]);
        let tail = if ws.last().len() >= 2 { seq![lower_each(ws.last())] } else { Seq::empty() };
        assert((rest + tail)[j] == rest[j]);
    }
}

/// If any of the terms occurs, some earliest position is found.
proof fn lemma_earliest_found(h: Seq<char>, terms: Seq<Seq<char>>, k: int)
    requires 0 <= k < terms.len(), find_first(h, terms[k]) is Some,
    ensures earliest(h, terms) is Some,
    decreases terms.len(),
{
    if k < terms.len() - 1 {
        assert(terms.drop_last()[k] == terms[k]);
        lemma_earliest_found(h, terms.drop_last(), k);
    }
}

/// The earliest match lies in the haystack.
proof fn lemma_earliest_bound(h: Seq<char>, terms: Seq<Seq<char>>)
    ensures earliest(h, terms) matches Some(p) ==> 0 <= p < h.len(),
    decreases terms.len(),
{
    if terms.len() > 0 {
        lemma_earliest_bound(h, terms.drop_last());
        lemma_find_first_bound(h, terms.last());
    }
}

/// Matching ignores case: the snippet depends on the case of `text` only
/// through the characters it copies out. Two texts that agree once lower-cased
/// character by character get a snippet at the same place (both or neither,
/// of the same length).
pub proof fn lemma_snippet_ignores_case(t1: Seq<char>, t2: Seq<char>, query: Seq<char>, radius: int)
    requires
        lower_each(t1) == lower_each(t2),
        radius >= 0,
    ensures
        snippet_spec(t1, query, radius) is Some <==> snippet_spec(t2, query, radius) is Some,
        snippet_spec(t1, query, radius) matches Some(a) ==> (snippet_spec(t2, query, radius) matches Some(b)
            && a.len() == b.len()),
{
    assert(t1.len() == lower_each(t1).len() && t2.len() == lower_each(t2).len());
    let terms = snippet_terms(ws_words(query));
    lemma_earliest_bound(lower_each(t1), terms);
    if terms.len() > 0 {
        if let Some(pos) = earliest(lower_each(t1), terms) {
            let start = if pos > radius { pos - radius } else { 0 };
            let end = if pos + radius < t1.len() { pos + radius } else { t1.len() as int };
            let e1: Seq<char> = if start > 0 { seq!['…'] } else { Seq::empty() };
            let e2: Seq<char> = if end < t1.len() { seq!['…'] } else { Seq::empty() };
            assert(snippet_spec(t1, query, radius) == Some(e1 + t1.subrange(start, end) + e2));
            assert(snippet_spec(t2, query, radius) == Some(e1 + t2.subrange(start, end) + e2));
            assert((e1 + t1.subrange(start, end) + e2).len() == (e1 + t2.subrange(start, end) + e2).len());
        }
    }
}

/// A query word of two or more characters that occurs in the text, case
/// ignored (both lower-cased character by character), yields a snippet.
pub proof fn lemma_snippet_found(text: Seq<char>, query: Seq<char>, radius: int, k: int)
    requires
        0 <= k < ws_words(query).len(),
        ws_words(query)[k].len() >= 2,
        find_first(lower_each(text), lower_each(ws_words(query)[k])) is Some,
    ensures snippet_spec(text, query, radius) is Some,
{
    let ws = ws_words(query);
    let terms = snippet_terms(ws);
    lemma_snippet_terms_has(ws, k);
    let j = choose|j: int| 0 <= j < terms.len() && terms[j] == lower_each(ws[k]);
    lemma_earliest_found(lower_each(text), terms, j);
}

/// Build a short snippet of `text` centred on the earliest query-term match,
/// padded by `radius` characters and elided with `…`. Case-insensitive.
/// Returns `None` when the query has no usable terms or none of them appear in
/// the text, in which case the caller keeps the full text.
pub fn snippet(text: &str, query: &str, radius: usize) -> (r: Option<String>)
    ensures
        match snippet_spec(text@, query@, radius as int) {
            None => r is None,
            Some(s) => r matches Some(x) && x@ == s,
        },
{
    let chars = str_chars(text);
    let lower = lower_each_vec(chars.as_slice());
    let words = crate::text::split_ws(query);
    let ghost ws = str_views(words@);
    let mut terms: Vec<Vec<char>> = Vec::new();
    let mut i: usize = 0;
    while i < words.len()
        invariant
            i <= words@.len(),
            ws == str_views(words@),
            ws == ws_words(query@),
            terms@.map_values(|t: Vec<char>| t@) == snippet_terms(ws.take(i as int)),
        decreases words.len() - i,
    {
        let wc = str_chars(words[i].as_str());
        let ghost before = terms@.map_values(|t: Vec<char>| t@);
        assert(ws.take(i + 1).drop_last() =~= ws.take(i as int));
        assert(ws.take(i + 1).last() == wc@);
        if wc.len() >= 2 {
            let lw = lower_each_vec(wc.as_slice());
            terms.push(lw);
            assert(terms@.map_values(|t: Vec<char>| t@) =~= before.push(lower_each(wc@)));
        }
        assert(terms@.map_values(|t: Vec<char>| t@) =~= snippet_terms(ws.take(i + 1)));
        i = i + 1;
    }
    assert(ws.take(ws.len() as int) =~= ws);
    if terms.len() == 0 {
        return None;
    }
    let ghost tv = terms@.map_values(|t: Vec<char>| t@);
    let mut best: Option<usize> = None;
    let mut j: usize = 0;
    while j < terms.len()
        invariant
            j <= terms@.len(),
            tv == terms@.map_values(|t: Vec<char>| t@),
            match best {
                None => earliest(lower@, tv.take(j as int)) is None,
                Some(b) => earliest(lower@, tv.take(j as int)) == Some(b as int),
            },
            best matches Some(p) ==> p < lower@.len(),
        decreases terms.len() - j,
    {
        assert(tv.take(j + 1).drop_last() =~= tv.take(j as int));
        assert(tv.take(j + 1).last() == terms@[j as int]@);
        let found = find_subslice(lower.as_slice(), terms[j].as_slice());
        proof { lemma_find_first_bound(lower@, terms@[j as int]@); }
        best = match (best, found) {
            (None, x) => x,
            (Some(p), None) => Some(p),
            (Some(p), Some(q)) => Some(if q < p { q } else { p }),
        };
        j = j + 1;
    }
    assert(tv.take(tv.len() as int) =~= tv);
    let pos = match best {
        None => return None,
        Some(p) => p,
    };
    assert(lower@.len() == chars@.len());
    let start = pos.saturating_sub(radius);
    let end = if radius < chars.len() - pos { pos + radius } else { chars.len() };
    let mut out = String::new();
    if start > 0 {
        push_char(&mut out, '…');
    }
    let ghost head = out@;
    let mut k: usize = start;
    while k < end
        invariant
            start <= k <= end <= chars@.len(),
            out@ == head + chars@.subrange(start as int, k as int),
        decreases end - k,
    {
        push_char(&mut out, chars[k]);
        k = k + 1;
        assert(out@ =~= head + chars@.subrange(start as int, k as int));
    }
    if end < chars.len() {
        push_char(&mut out, '…');
    }
    Some(out)
}

proof fn lemma_find_from_bound(h: Seq<char>, n: Seq<char>, i: int)
    ensures find_from(h, n, i) matches Some(p) ==> 0 <= i <= p && p + n.len() <= h.len(),
    decreases h.len() + 1 - i,
{
    if !(i < 0 || i + n.len() > h.len()) && h.subrange(i, i + n.len()) != n {
        lemma_find_from_bound(h, n, i + 1);
    }
}

proof fn lemma_find_first_bound(h: Seq<char>, n: Seq<char>)
    ensures find_first(h, n) matches Some(p) ==> 0 <= p < h.len(),
{
    lemma_find_from_bound(h, n, 0);
}

} // verus!
