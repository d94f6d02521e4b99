//! The deterministic, dependency-free reranker used in tests: a passage's
//! score is how many distinct query terms it contains.

use vstd::prelude::*;

use crate::index::lexical::{terms, tokenize};
use crate::text::{contains_str, str_views};

verus! {

/// The entries of `s` without repeats, each kept at its first occurrence.
pub open spec fn distinct(s: Seq<Seq<char>>) -> Seq<Seq<char>>
    decreases s.len(),
{
    if s.len() == 0 {
        Seq::empty()
    } else {
        let d = distinct(s.drop_last());
        if d.contains(s.last()) { d } else { d.push(s.last()) }
    }
}

/// How many entries of `q` occur in `d`.
pub open spec fn count_in(q: Seq<Seq<char>>, d: Seq<Seq<char>>) -> nat
    decreases q.len(),
{
    if q.len() == 0 {
        0
    } else {
        count_in(q.drop_last(), d) + if d.contains(q.last()) { 1nat } else { 0nat }
    }
}

/// The overlap score of a passage for a query: the number of distinct query
/// terms that are terms of the passage.
pub open spec fn overlap(query: Seq<char>, doc: Seq<char>) -> nat {
    count_in(distinct(terms(query)), terms(doc))
}

/// Term-overlap reranker.
#[derive(Debug, Clone, Copy)]
pub struct MockReranker;

fn distinct_terms(ts: &Vec<String>) -> (r: Vec<String>)
    ensures str_views(r@) == distinct(str_views(ts@)),
{
    let ghost v = str_views(ts@);
    let mut out: Vec<String> = Vec::new();
    let mut i: usize = 0;
    while i < ts.len()
        invariant
            i <= ts@.len(),
            v == str_views(ts@),
            str_views(out@) == distinct(v.take(i as int)),
        decreases ts.len() - i,
    {
        assert(v.take(i + 1).drop_last() =~= v.take(i as int));
        assert(v.take(i + 1).last() == ts@[i as int]@);
        if !contains_str(&out, ts[i].as_str()) {
            let ghost before = str_views(out@);
            out.push(ts[i].clone());
            assert(str_views(out@) =~= before.push(ts@[i as int]@));
        }
        i = i + 1;
    }
    assert(v.take(v.len() as int) =~= v);
    out
}

fn count_contained(q: &Vec<String>, d: &Vec<String>) -> (r: u64)
    ensures r == count_in(str_views(q@), str_views(d@)),
{
    let ghost qv = str_views(q@);
    let mut n: u64 = 0;
    let mut i: usize = 0;
    while i < q.len()
        invariant
            i <= q@.len(),
            qv == str_views(q@),
            n == count_in(qv.take(i as int), str_views(d@)),
            n <= i,
        decreases q.len() - i,
    {
        assert(qv.take(i + 1).drop_last() =~= qv.take(i as int));
        assert(qv.take(i + 1).last() == q@[i as int]@);
        if contains_str(d, q[i].as_str()) {
            n = n + 1;
        }
        i = i + 1;
    }
    assert(qv.take(qv.len() as int) =~= qv);
    n
}

impl MockReranker {
    /// The reranker.
    pub fn new() -> (r: Self) {
        MockReranker
    }

    /// The overlap score of each passage for `query`, in order.
    pub fn overlap_scores(&self, query: &str, docs: &[String]) -> (r: Vec<u64>)
        ensures
            r@.len() == docs@.len(),
            forall|i: int| 0 <= i < docs@.len() ==> r@[i] == #[trigger] overlap(query@, docs@[i]@),
    {
        let qt = tokenize(query);
        let q = distinct_terms(&qt);
        let mut out: Vec<u64> = Vec::new();
        let mut i: usize = 0;
        while i < docs.len()
            invariant
                i <= docs@.len(),
                out@.len() == i,
                str_views(q@) == distinct(terms(query@)),
                forall|j: int| 0 <= j < i ==> out@[j] == #[trigger] overlap(query@, docs@[j]@),
            decreases docs.len() - i,
        {
            let dt = tokenize(docs[i].as_str());
            out.push(count_contained(&q, &dt));
            i = i + 1;
        }
        out
    }
}

} // verus!
