//! Shaping of API requests before they reach the engine: request defaults and
//! caps, comma-separated label and tag lists, the ingest body a request
//! carries, and the content hash used to detect duplicate ingests.

use vstd::prelude::*;

use crate::error::NucleusError;
use crate::id::{SubdomainId, TagId};
use crate::jobs::JobBody;
use crate::query::{parse_u64, parse_u64_chars};
use crate::text::{push_char, str_chars, str_views, string_from_chars, trim, trim_chars};

verus! {

broadcast use vstd::string::group_string_axioms;

/// Results per search when the request does not say.
pub fn default_k() -> (r: usize)
    ensures r == 10,
{
    10
}

/// Page size when the request does not say.
pub fn default_limit() -> (r: usize)
    ensures r == 50,
{
    50
}

/// Neighbouring chunks on each side for a context request that does not say.
pub fn default_context() -> (r: usize)
    ensures r == 1,
{
    1
}

/// The page size served for a requested one: at most 500.
pub fn page_limit(requested: usize) -> (r: usize)
    ensures r == if requested <= 500 { requested } else { 500 },
{
    if requested <= 500 { requested } else { 500 }
}

/// The comma-separated pieces of `cs[i..]`, `cur` being the piece in progress
/// (`str::split(',')`: empty pieces kept).
pub open spec fn comma_pieces_from(cs: Seq<char>, i: int, cur: Seq<char>) -> Seq<Seq<char>>
    decreases cs.len() - i,
{
    if i < 0 || i >= cs.len() {
        seq![cur]
    } else if cs[i] == ',' {
        seq![cur] + comma_pieces_from(cs, i + 1, Seq::empty())
    } else {
        comma_pieces_from(cs, i + 1, cur.push(cs[i]))
    }
}

/// The comma-separated pieces of a text.
pub open spec fn comma_pieces(s: Seq<char>) -> Seq<Seq<char>> {
    comma_pieces_from(s, 0, Seq::empty())
}

fn split_commas(s: &str) -> (r: Vec<Vec<char>>)
    ensures r@.map_values(|p: Vec<char>| p@) == comma_pieces(s@),
{
    let cs = str_chars(s);
    let mut out: Vec<Vec<char>> = Vec::new();
    let mut cur: Vec<char> = Vec::new();
    let mut i: usize = 0;
    while i < cs.len()
        invariant
            i <= cs@.len(),
            cs@ == s@,
            out@.map_values(|p: Vec<char>| p@) + comma_pieces_from(cs@, i as int, cur@) == comma_pieces(s@),
        decreases cs.len() - i,
    {
        let ghost o = out@.map_values(|p: Vec<char>| p@);
        let ghost c = cur@;
        if cs[i] == ',' {
            out.push(cur);
            cur = Vec::new();
            assert(out@.map_values(|p: Vec<char>| p@) =~= o.push(c));
            assert(o + (seq![c] + comma_pieces_from(cs@, i + 1, Seq::empty()))
                =~= o.push(c) + comma_pieces_from(cs@, i + 1, Seq::empty()));
        } else {
            cur.push(cs[i]);
        }
        i = i + 1;
    }
    let ghost o = out@.map_values(|p: Vec<char>| p@);
    let ghost c = cur@;
    out.push(cur);
    assert(out@.map_values(|p: Vec<char>| p@) =~= o + seq![c]);
    out
}

/// The trimmed, non-empty pieces of a comma-separated list.
pub open spec fn list_items(pieces: Seq<Seq<char>>) -> Seq<Seq<char>>
    decreases pieces.len(),
{
    if pieces.len() == 0 {
        Seq::empty()
    } else {
        list_items(pieces.drop_last()) + if trim(pieces.last()).len() > 0 {
            seq![trim(pieces.last())]
        } else {
            Seq::empty()
        }
    }
}

/// The numbers among the trimmed pieces of a comma-separated list (pieces that
/// are not `u64` numbers are skipped).
pub open spec fn list_ids(pieces: Seq<Seq<char>>) -> Seq<u64>
    decreases pieces.len(),
{
    if pieces.len() == 0 {
        Seq::empty()
    } else {
        list_ids(pieces.drop_last()) + match parse_u64(trim(pieces.last())) {
            Some(n) => seq![n],
            None => Seq::empty(),
        }
    }
}

/// The names in a comma-separated list (absent = empty): each piece trimmed,
/// empty ones dropped.
pub fn comma_list(s: Option<&str>) -> (r: Vec<String>)
    ensures
        str_views(r@) == match s {
            Some(t) => list_items(comma_pieces(t@)),
            None => list_items(comma_pieces(Seq::empty())),
        },
{
    let text: &str = match s {
        Some(t) => t,
        None => "",
    };
    proof { reveal_strlit(""); }
    let pieces = split_commas(text);
    let ghost pv = pieces@.map_values(|p: Vec<char>| p@);
    let mut out: Vec<String> = Vec::new();
    let mut i: usize = 0;
    while i < pieces.len()
        invariant
            i <= pieces@.len(),
            pv == pieces@.map_values(|p: Vec<char>| p@),
            str_views(out@) == list_items(pv.take(i as int)),
        decreases pieces.len() - i,
    {
        assert(pv.take(i + 1).drop_last() =~= pv.take(i as int));
        assert(pv.take(i + 1).last() == pieces@[i as int]@);
        let t = trim_chars(pieces[i].as_slice());
        if t.len() > 0 {
            let ghost before = str_views(out@);
            out.push(string_from_chars(t.as_slice()));
            assert(str_views(out@) =~= before.push(t@));
        }
        i = i + 1;
        assert(str_views(out@) =~= list_items(pv.take(i as int)));
    }
    assert(pv.take(pv.len() as int) =~= pv);
    out
}

/// The ids in a comma-separated list (absent = empty): each piece trimmed and
/// parsed as a `u64`, those that do not parse skipped.
pub fn comma_ids(s: Option<&str>) -> (r: Vec<u64>)
    ensures
        r@ == match s {
            Some(t) => list_ids(comma_pieces(t@)),
            None => list_ids(comma_pieces(Seq::empty())),
        },
{
    let text: &str = match s {
        Some(t) => t,
        None => "",
    };
    proof { reveal_strlit(""); }
    let pieces = split_commas(text);
    let ghost pv = pieces@.map_values(|p: Vec<char>| p@);
    let mut out: Vec<u64> = Vec::new();
    let mut i: usize = 0;
    while i < pieces.len()
        invariant
            i <= pieces@.len(),
            pv == pieces@.map_values(|p: Vec<char>| p@),
            out@ == list_ids(pv.take(i as int)),
        decreases pieces.len() - i,
    {
        assert(pv.take(i + 1).drop_last() =~= pv.take(i as int));
        assert(pv.take(i + 1).last() == pieces@[i as int]@);
        let t = trim_chars(pieces[i].as_slice());
        match parse_u64_chars(&t) {
            Some(n) => out.push(n),
            None => {},
        }
        i = i + 1;
        assert(out@ =~= list_ids(pv.take(i as int)));
    }
    assert(pv.take(pv.len() as int) =~= pv);
    out
}

/// A name field: trimmed, or absent when blank.
pub fn trimmed_name(name: Option<String>) -> (r: Option<String>)
    ensures
        match name {
            Some(n) => if trim(n@).len() > 0 {
                r matches Some(t) && t@ == trim(n@)
            } else {
                r is None
            },
            None => r is None,
        },
{
    match name {
        Some(n) => {
            let cs = str_chars(n.as_str());
            let t = trim_chars(cs.as_slice());
            if t.len() > 0 { Some(string_from_chars(t.as_slice())) } else { None }
        },
        None => None,
    }
}

/// The body of an ingest request: given chunks win over text; neither is an
/// invalid request.
pub fn ingest_body(chunks: Option<Vec<String>>, text: Option<String>) -> (r: Result<JobBody, NucleusError>)
    ensures
        match (chunks, text) {
            (Some(c), _) => r == Ok::<JobBody, NucleusError>(JobBody::Chunks(c)),
            (None, Some(t)) => r == Ok::<JobBody, NucleusError>(JobBody::Text(t)),
            (None, None) => r matches Err(NucleusError::InvalidRequest(m)) && m@ == "provide `text` or `chunks`"@,
        },
{
    match (chunks, text) {
        (Some(c), _) => Ok(JobBody::Chunks(c)),
        (None, Some(t)) => Ok(JobBody::Text(t)),
        (None, None) => Err(NucleusError::invalid("provide `text` or `chunks`".to_owned())),
    }
}

/// `parts` joined with `sep` between consecutive parts.
pub open spec fn join(parts: Seq<Seq<char>>, sep: Seq<char>) -> Seq<char>
    decreases parts.len(),
{
    if parts.len() == 0 {
        Seq::empty()
    } else if parts.len() == 1 {
        parts[0]
    } else {
        join(parts.drop_last(), sep) + sep + parts.last()
    }
}

/// The content a duplicate check hashes: the text, or the chunks joined by
/// newlines.
pub open spec fn body_content(body: JobBody) -> Seq<char> {
    match body {
        JobBody::Text(t) => t@,
        JobBody::Chunks(c) => join(str_views(c@), seq!['\n']),
    }
}

/// The content of an ingest body, as hashed for deduplication.
pub fn dedup_content(body: &JobBody) -> (r: String)
    ensures r@ == body_content(*body),
{
    match body {
        JobBody::Text(t) => t.clone(),
        JobBody::Chunks(c) => {
            let ghost cv = str_views(c@);
            let mut out = String::new();
            let mut i: usize = 0;
            while i < c.len()
                invariant
                    i <= c@.len(),
                    cv == str_views(c@),
                    out@ == join(cv.take(i as int), seq!['\n']),
                decreases c.len() - i,
            {
                assert(cv.take(i + 1).drop_last() =~= cv.take(i as int));
                assert(cv.take(i + 1).last() == c@[i as int]@);
                if i > 0 {
                    push_char(&mut out, '\n');
                }
                out.append(c[i].as_str());
                i = i + 1;
                assert(out@ =~= join(cv.take(i as int), seq!['\n']));
            }
            assert(cv.take(cv.len() as int) =~= cv);
            out
        },
    }
}

/// The tags among label lookups, in order (unknown labels left out).
pub open spec fn known_tags(found: Seq<Option<TagId>>) -> Seq<TagId>
    decreases found.len(),
{
    if found.len() == 0 {
        Seq::empty()
    } else {
        let rest = known_tags(found.drop_last());
        match found.last() {
            Some(t) => rest.push(t),
            None => rest,
        }
    }
}

/// Whether a search by label and subdomain names has no hits before it runs:
/// an unknown label when all labels must match (or it is the only one), or an
/// unknown subdomain.
pub open spec fn filters_match_nothing(
    found: Seq<Option<TagId>>,
    match_all: bool,
    subdomain: Option<Option<SubdomainId>>,
) -> bool {
    ||| exists|i: int| 0 <= i < found.len() && found[i] is None && (match_all || found.len() == 1)
    ||| subdomain == Some(None::<SubdomainId>)
}

/// The filters of a search given by names, from what each name was found to
/// be (`found[i]`: the tag named by the `i`-th label, `None` when no tag has
/// that name; `subdomain`: `None` when no subdomain was named, else what the
/// name found). Names are looked up, never created. `None` when the search can
/// have no hits (see `filters_match_nothing`); otherwise the known tags in
/// label order (an unknown label among several, matched by any, is dropped)
/// and the subdomain.
pub fn resolve_name_filters(
    found: &Vec<Option<TagId>>,
    match_all: bool,
    subdomain: Option<Option<SubdomainId>>,
) -> (r: Option<(Vec<TagId>, Option<SubdomainId>)>)
    ensures
        r is None <==> filters_match_nothing(found@, match_all, subdomain),
        r matches Some((tags, sub)) ==> tags@ == known_tags(found@)
            && sub == match subdomain { Some(Some(s)) => Some(s), _ => None::<SubdomainId> },
{
    let mut tags: Vec<TagId> = Vec::new();
    let mut i: usize = 0;
    while i < found.len()
        invariant
            i <= found@.len(),
            tags@ == known_tags(found@.take(i as int)),
            forall|j: int| 0 <= j < i ==> (found@[j] is None ==> !(match_all || found@.len() == 1)),
        decreases found.len() - i,
    {
        assert(found@.take(i + 1).drop_last() =~= found@.take(i as int));
        match found[i] {
            Some(t) => tags.push(t),
            None => {
                if match_all || found.len() == 1 {
                    return None;
                }
            },
        }
        i = i + 1;
    }
    assert(found@.take(found@.len() as int) =~= found@);
    match subdomain {
        Some(None) => None,
        Some(Some(s)) => Some((tags, Some(s))),
        None => Some((tags, None)),
    }
}

} // verus!
