//! A small boolean **query language** for filtering chunks at search time.
//!
//! Grammar (case-insensitive keywords, `AND` binds tighter than `OR`):
//!
//! ```text
//! expr    := or
//! or      := and ( "OR"  and )*
//! and     := unary ( "AND" unary )*
//! unary   := "NOT" unary | primary
//! primary := "(" expr ")" | term
//! term    := "tag:" VALUE | "doc:" NUMBER | "meta." KEY ":" VALUE
//! ```
//!
//! `VALUE` is a bareword or a `"quoted string"` (quotes allow spaces).

use vstd::prelude::*;
use vstd::hash_map::StringHashMap;

use crate::error::NucleusError;
use crate::id::{DocumentId, TagId};
use crate::model::{lemma_lookup_index, lemma_unique_lookup, meta_get, meta_keys_unique, meta_lookup, Chunk};
use crate::text::{
    ascii_lower, ascii_upper, is_whitespace, is_ws, push_char, str_chars, string_from_chars,
    string_from_range, to_ascii_lower, to_ascii_upper, lower, upper,
};

verus! {

broadcast use vstd::string::group_string_axioms;

/// A parsed filter expression.
#[derive(Debug, PartialEq, Eq)]
pub enum Expr {
    And(Box<Expr>, Box<Expr>),
    Or(Box<Expr>, Box<Expr>),
    Not(Box<Expr>),
    /// Chunk carries the tag with this name.
    Tag(String),
    /// Chunk belongs to this document.
    Doc(u64),
    /// Chunk metadata `key` equals `value`.
    Meta(String, String),
}

/// The mathematical form of an [`Expr`]: strings as character sequences.
pub enum SpecExpr {
    And(Box<SpecExpr>, Box<SpecExpr>),
    Or(Box<SpecExpr>, Box<SpecExpr>),
    Not(Box<SpecExpr>),
    Tag(Seq<char>),
    Doc(u64),
    Meta(Seq<char>, Seq<char>),
}

/// The mathematical form of an expression.
pub open spec fn expr_view(e: Expr) -> SpecExpr
    decreases e,
{
    match e {
        Expr::And(a, b) => SpecExpr::And(Box::new(expr_view(*a)), Box::new(expr_view(*b))),
        Expr::Or(a, b) => SpecExpr::Or(Box::new(expr_view(*a)), Box::new(expr_view(*b))),
        Expr::Not(a) => SpecExpr::Not(Box::new(expr_view(*a))),
        Expr::Tag(n) => SpecExpr::Tag(n@),
        Expr::Doc(d) => SpecExpr::Doc(d),
        Expr::Meta(k, v) => SpecExpr::Meta(k@, v@),
    }
}

impl View for Expr {
    type V = SpecExpr;

    open spec fn view(&self) -> SpecExpr {
        expr_view(*self)
    }
}

/// Tag names of a domain mapped to their ids, used to evaluate `tag:` terms.
pub struct TagNames {
    map: StringHashMap<TagId>,
}

impl View for TagNames {
    type V = Map<Seq<char>, TagId>;

    closed spec fn view(&self) -> Map<Seq<char>, TagId> {
        self.map@
    }
}

impl TagNames {
    /// An empty name table.
    pub fn new() -> (r: Self)
        ensures r@ == Map::<Seq<char>, TagId>::empty(),
    {
        TagNames { map: StringHashMap::new() }
    }

    /// Map `name` to `id` (replacing any previous id for that name).
    pub fn insert(&mut self, name: String, id: TagId)
        ensures final(self)@ == old(self)@.insert(name@, id),
    {
        self.map.insert(name, id);
    }

    /// The id mapped to `name`, if any.
    pub fn get(&self, name: &str) -> (r: Option<TagId>)
        ensures
            match r {
                Some(id) => self@.contains_key(name@) && self@[name@] == id,
                None => !self@.contains_key(name@),
            },
    {
        match self.map.get(name) {
            Some(id) => Some(*id),
            None => None,
        }
    }
}

/// Whether a chunk satisfies an expression: `tag:` needs the named tag (known
/// in `names`) on the chunk, `doc:` the chunk's document, `meta.k:v` the value
/// `v` under key `k` in the chunk's metadata.
pub open spec fn eval(e: SpecExpr, chunk: Chunk, names: Map<Seq<char>, TagId>) -> bool
    decreases e,
{
    match e {
        SpecExpr::And(a, b) => eval(*a, chunk, names) && eval(*b, chunk, names),
        SpecExpr::Or(a, b) => eval(*a, chunk, names) || eval(*b, chunk, names),
        SpecExpr::Not(a) => !eval(*a, chunk, names),
        SpecExpr::Tag(n) => names.contains_key(n) && chunk.tags@.contains(names[n]),
        SpecExpr::Doc(d) => chunk.document_id.0 == d,
        SpecExpr::Meta(k, v) => meta_lookup(chunk.metadata@, k) == Some(v),
    }
}

/// A `meta.k:v` term matches exactly the chunks whose metadata holds the value
/// `v` under `k`: a match has such an entry (the first under `k`), a chunk
/// without key `k` never matches, and with each key once (as built metadata
/// is) any entry `(k, v)` makes it match.
pub proof fn lemma_meta_term_meaning(k: Seq<char>, v: Seq<char>, chunk: Chunk, names: Map<Seq<char>, TagId>)
    ensures
        eval(SpecExpr::Meta(k, v), chunk, names) ==> exists|i: int|
            0 <= i < chunk.metadata@.len() && (#[trigger] chunk.metadata@[i]).0@ == k && chunk.metadata@[i].1@ == v,
        (forall|i: int| 0 <= i < chunk.metadata@.len() ==> (#[trigger] chunk.metadata@[i]).0@ != k)
            ==> !eval(SpecExpr::Meta(k, v), chunk, names),
        meta_keys_unique(chunk.metadata@) ==> ((exists|i: int|
            0 <= i < chunk.metadata@.len() && (#[trigger] chunk.metadata@[i]).0@ == k && chunk.metadata@[i].1@ == v)
            ==> eval(SpecExpr::Meta(k, v), chunk, names)),
{
    lemma_lookup_index(chunk.metadata@, k);
    if meta_keys_unique(chunk.metadata@) {
        if exists|i: int| 0 <= i < chunk.metadata@.len() && (#[trigger] chunk.metadata@[i]).0@ == k && chunk.metadata@[i].1@ == v {
            let i = choose|i: int| 0 <= i < chunk.metadata@.len() && (#[trigger] chunk.metadata@[i]).0@ == k && chunk.metadata@[i].1@ == v;
            lemma_unique_lookup(chunk.metadata@, i);
        }
    }
}

fn has_tag(tags: &Vec<TagId>, id: TagId) -> (r: bool)
    ensures r == tags@.contains(id),
{
    let mut i: usize = 0;
    while i < tags.len()
        invariant
            i <= tags@.len(),
            forall|k: int| 0 <= k < i ==> tags@[k] != id,
        decreases tags.len() - i,
    {
        if tags[i] == id {
            return true;
        }
        i = i + 1;
    }
    false
}

impl Expr {
    /// Evaluate the expression against a chunk. `tags` maps tag *names* to ids
    /// within the chunk's domain (an unknown name simply never matches).
    pub fn matches(&self, chunk: &Chunk, tags: &TagNames) -> (r: bool)
        ensures r == eval(self@, *chunk, tags@),
        decreases self,
    {
        match self {
            Expr::And(a, b) => a.matches(chunk, tags) && b.matches(chunk, tags),
            Expr::Or(a, b) => a.matches(chunk, tags) || b.matches(chunk, tags),
            Expr::Not(e) => !e.matches(chunk, tags),
            Expr::Tag(name) => match tags.get(name.as_str()) {
                Some(id) => has_tag(&chunk.tags, id),
                None => false,
            },
            Expr::Doc(id) => chunk.document_id == DocumentId::new(*id),
            Expr::Meta(key, value) => match meta_get(&chunk.metadata, key.as_str()) {
                Some(v) => crate::text::str_eq(v.as_str(), value.as_str()),
                None => false,
            },
        }
    }
}

// ---------------------------------------------------------------------------
// Lexing
// ---------------------------------------------------------------------------

#[derive(Debug, Clone)]
enum Tok {
    LParen,
    RParen,
    And,
    Or,
    Not,
    Term { field: String, value: String },
}

/// The mathematical form of a token.
pub enum SpecTok {
    LParen,
    RParen,
    And,
    Or,
    Not,
    Term(Seq<char>, Seq<char>),
}

spec fn tok_view(t: Tok) -> SpecTok {
    match t {
        Tok::LParen => SpecTok::LParen,
        Tok::RParen => SpecTok::RParen,
        Tok::And => SpecTok::And,
        Tok::Or => SpecTok::Or,
        Tok::Not => SpecTok::Not,
        Tok::Term { field, value } => SpecTok::Term(field@, value@),
    }
}

spec fn toks_view(ts: Seq<Tok>) -> Seq<SpecTok> {
    ts.map_values(|t: Tok| tok_view(t))
}

/// Prepend a known prefix to a lexing outcome (a failure stays as it is).
pub open spec fn prepend_toks(a: Seq<SpecTok>, r: Result<Seq<SpecTok>, Seq<char>>) -> Result<Seq<SpecTok>, Seq<char>> {
    match r {
        Err(m) => Err(m),
        Ok(rest) => Ok(a + rest),
    }
}

/// Prepend one character to the word read from a position.
pub open spec fn cons_word(c: char, r: Option<(int, Seq<char>)>) -> Option<(int, Seq<char>)> {
    match r {
        None => None,
        Some((e, w)) => Some((e, seq![c] + w)),
    }
}

/// Prepend a known prefix to the word read from a position.
pub open spec fn prefix_word(b: Seq<char>, r: Option<(int, Seq<char>)>) -> Option<(int, Seq<char>)> {
    match r {
        None => None,
        Some((e, w)) => Some((e, b + w)),
    }
}

/// Read one word from `cs[i..]`: characters up to whitespace or a parenthesis,
/// with `"quoted"` segments (which may contain those) taken verbatim without
/// their quotes. `in_quote` says whether a quote is open. Returns the end
/// position and the word, or `None` for an unterminated quote.
pub open spec fn read_word(cs: Seq<char>, i: int, in_quote: bool) -> Option<(int, Seq<char>)>
    decreases cs.len() - i,
{
    if i >= cs.len() {
        if in_quote { None } else { Some((i, Seq::empty())) }
    } else if in_quote {
        if cs[i] == '"' {
            read_word(cs, i + 1, false)
        } else {
            cons_word(cs[i], read_word(cs, i + 1, true))
        }
    } else if is_ws(cs[i]) || cs[i] == '(' || cs[i] == ')' {
        Some((i, Seq::empty()))
    } else if cs[i] == '"' {
        read_word(cs, i + 1, true)
    } else {
        cons_word(cs[i], read_word(cs, i + 1, false))
    }
}

/// Index of the first `c` in `s` at or after `from`.
pub open spec fn find_char(s: Seq<char>, c: char, from: int) -> Option<int>
    decreases s.len() - from,
{
    if from >= s.len() {
        None
    } else if s[from] == c {
        Some(from)
    } else {
        find_char(s, c, from + 1)
    }
}

/// `s` is exactly the three characters `a`, `b`, `c`.
pub open spec fn is3(s: Seq<char>, a: char, b: char, c: char) -> bool {
    s.len() == 3 && s[0] == a && s[1] == b && s[2] == c
}

/// `s` is exactly the two characters `a`, `b`.
pub open spec fn is2(s: Seq<char>, a: char, b: char) -> bool {
    s.len() == 2 && s[0] == a && s[1] == b
}

/// The token a word stands for: a keyword (case-insensitive), or a
/// `field:value` term split at the first colon; otherwise the complaint.
pub open spec fn classify(w: Seq<char>) -> Result<SpecTok, Seq<char>> {
    let u = upper(w);
    if is3(u, 'A', 'N', 'D') {
        Ok(SpecTok::And)
    } else if is2(u, 'O', 'R') {
        Ok(SpecTok::Or)
    } else if is3(u, 'N', 'O', 'T') {
        Ok(SpecTok::Not)
    } else {
        match find_char(w, ':', 0) {
            None => Err("expected `field:value`, found `"@ + w + "`"@),
            Some(k) => Ok(SpecTok::Term(w.subrange(0, k), w.subrange(k + 1, w.len() as int))),
        }
    }
}

/// The tokens of `cs[i..]`, or the complaint about the first malformed word.
pub open spec fn spec_lex(cs: Seq<char>, i: int) -> Result<Seq<SpecTok>, Seq<char>>
    decreases cs.len() - i,
{
    if i >= cs.len() {
        Ok(Seq::empty())
    } else if is_ws(cs[i]) {
        spec_lex(cs, i + 1)
    } else if cs[i] == '(' {
        prepend_toks(seq![SpecTok::LParen], spec_lex(cs, i + 1))
    } else if cs[i] == ')' {
        prepend_toks(seq![SpecTok::RParen], spec_lex(cs, i + 1))
    } else {
        match read_word(cs, i, false) {
            None => Err("unterminated quoted string"@),
            Some((e, w)) => match classify(w) {
                Err(m) => Err(m),
                Ok(t) => if i < e <= cs.len() {
                    prepend_toks(seq![t], spec_lex(cs, e))
                } else {
                    Err(Seq::empty())
                },
            },
        }
    }
}

proof fn lemma_prefix_cons(b: Seq<char>, c: char, r: Option<(int, Seq<char>)>)
    ensures prefix_word(b, cons_word(c, r)) == prefix_word(b.push(c), r),
{
    match r {
        None => {},
        Some((e, w)) => {
            assert(b + (seq![c] + w) =~= b.push(c) + w);
        },
    }
}

proof fn lemma_read_word_end(cs: Seq<char>, i: int, q: bool)
    requires 0 <= i <= cs.len(),
    ensures
        read_word(cs, i, q) matches Some((e, w)) ==> i <= e <= cs.len(),
    decreases cs.len() - i,
{
    if i < cs.len() {
        lemma_read_word_end(cs, i + 1, true);
        lemma_read_word_end(cs, i + 1, false);
    }
}

/// `e` is the error reporting complaint `m` about a filter: an
/// `InvalidRequest` whose message is `query: ` followed by `m`.
pub open spec fn query_failure(e: NucleusError, m: Seq<char>) -> bool {
    e matches NucleusError::InvalidRequest(s) && s@ == "query: "@ + m
}

fn query_error(msg: &str) -> (r: NucleusError)
    ensures query_failure(r, msg@),
{
    let mut s = String::from_str("query: ");
    s.append(msg);
    NucleusError::InvalidRequest(s)
}

fn is_colon_at(w: &Vec<char>, from: usize) -> (r: Option<usize>)
    requires from <= w@.len(),
    ensures
        match r {
            Some(k) => find_char(w@, ':', from as int) == Some(k as int) && k < w@.len(),
            None => find_char(w@, ':', from as int) is None,
        },
{
    let mut k = from;
    while k < w.len()
        invariant
            from <= k <= w@.len(),
            find_char(w@, ':', from as int) == find_char(w@, ':', k as int),
        decreases w.len() - k,
    {
        if w[k] == ':' {
            return Some(k);
        }
        k = k + 1;
    }
    None
}

fn classify_word(w: &Vec<char>) -> (r: Result<Tok, NucleusError>)
    ensures
        match r {
            Ok(t) => classify(w@) == Ok::<SpecTok, Seq<char>>(tok_view(t)),
            Err(e) => classify(w@) matches Err(m) && query_failure(e, m),
        },
{
    let mut u: Vec<char> = Vec::new();
    let mut i: usize = 0;
    while i < w.len()
        invariant
            i <= w@.len(),
            u@ == upper(w@.take(i as int)),
        decreases w.len() - i,
    {
        u.push(to_ascii_upper(w[i]));
        i = i + 1;
        assert(u@ =~= upper(w@.take(i as int)));
    }
    assert(w@.take(w@.len() as int) =~= w@);
    if u.len() == 3 && u[0] == 'A' && u[1] == 'N' && u[2] == 'D' {
        return Ok(Tok::And);
    }
    if u.len() == 2 && u[0] == 'O' && u[1] == 'R' {
        return Ok(Tok::Or);
    }
    if u.len() == 3 && u[0] == 'N' && u[1] == 'O' && u[2] == 'T' {
        return Ok(Tok::Not);
    }
    match is_colon_at(w, 0) {
        None => {
            let mut s = String::from_str("expected `field:value`, found `");
            let b = string_from_chars(w.as_slice());
            s.append(b.as_str());
            s.append("`");
            Err(query_error(s.as_str()))
        },
        Some(k) => {
            let field = string_from_range(w.as_slice(), 0, k);
            let value = string_from_range(w.as_slice(), k + 1, w.len());
            Ok(Tok::Term { field, value })
        },
    }
}

fn lex(input: &str) -> (r: Result<Vec<Tok>, NucleusError>)
    ensures
        match r {
            Ok(ts) => spec_lex(input@, 0) == Ok::<Seq<SpecTok>, Seq<char>>(toks_view(ts@)),
            Err(e) => spec_lex(input@, 0) matches Err(m) && query_failure(e, m),
        },
{
    let chars = str_chars(input);
    let ghost cs = chars@;
    let mut toks: Vec<Tok> = Vec::new();
    let mut i: usize = 0;
    proof {
        match spec_lex(cs, 0) {
            Err(_) => {},
            Ok(r) => { assert(toks_view(toks@) + r =~= r); },
        }
    }
    while i < chars.len()
        invariant
            cs == chars@,
            cs == input@,
            i <= cs.len(),
            spec_lex(cs, 0) == prepend_toks(toks_view(toks@), spec_lex(cs, i as int)),
        decreases chars.len() - i,
    {
        let c = chars[i];
        if is_whitespace(c) {
            i = i + 1;
            continue;
        }
        if c == '(' || c == ')' {
            let t = if c == '(' { Tok::LParen } else { Tok::RParen };
            proof {
                let tv = if c == '(' { SpecTok::LParen } else { SpecTok::RParen };
                assert(tok_view(t) == tv);
                match spec_lex(cs, i + 1) {
                    Err(_) => {},
                    Ok(rest) => {
                        assert(toks_view(toks@.push(t)) + rest =~= toks_view(toks@) + (seq![tv] + rest));
                    },
                }
            }
            toks.push(t);
            i = i + 1;
            continue;
        }
        // Read a word, honouring "quoted" segments (which may contain spaces).
        let start = i;
        let mut buf: Vec<char> = Vec::new();
        proof {
            assert(prefix_word(buf@, read_word(cs, i as int, false)) == read_word(cs, start as int, false)) by {
                match read_word(cs, i as int, false) {
                    None => {},
                    Some((e, w)) => { assert(buf@ + w =~= w); },
                }
            }
        }
        while i < chars.len()
            invariant
                cs == chars@,
                start <= i <= cs.len(),
                start < cs.len(),
                cs == input@,
                spec_lex(cs, 0) == prepend_toks(toks_view(toks@), spec_lex(cs, start as int)),
                !is_ws(cs[start as int]) && cs[start as int] != '(' && cs[start as int] != ')',
                i == start ==> buf@.len() == 0,
                read_word(cs, start as int, false) == prefix_word(buf@, read_word(cs, i as int, false)),
            ensures
                start < i,
                i < cs.len() ==> (is_ws(cs[i as int]) || cs[i as int] == '(' || cs[i as int] == ')'),
                read_word(cs, start as int, false) == prefix_word(buf@, read_word(cs, i as int, false)),
            decreases chars.len() - i,
        {
            let c = chars[i];
            if is_whitespace(c) || c == '(' || c == ')' {
                break;
            }
            if c == '"' {
                let ghost i0 = i;
                i = i + 1;
                while i < chars.len() && chars[i] != '"'
                    invariant
                        cs == chars@,
                        start < i <= cs.len(),
                        i0 < i,
                        cs == input@,
                        spec_lex(cs, 0) == prepend_toks(toks_view(toks@), spec_lex(cs, start as int)),
                        !is_ws(cs[start as int]) && cs[start as int] != '(' && cs[start as int] != ')',
                        read_word(cs, start as int, false) == prefix_word(buf@, read_word(cs, i as int, true)),
                    decreases chars.len() - i,
                {
                    proof { lemma_prefix_cons(buf@, cs[i as int], read_word(cs, i as int + 1, true)); }
                    buf.push(chars[i]);
                    i = i + 1;
                }
                if i >= chars.len() {
                    proof {
                        assert(read_word(cs, start as int, false) is None);
                        assert(spec_lex(cs, start as int) == Err::<Seq<SpecTok>, Seq<char>>("unterminated quoted string"@));
                    }
                    return Err(query_error("unterminated quoted string"));
                }
                i = i + 1;
                continue;
            }
            proof { lemma_prefix_cons(buf@, cs[i as int], read_word(cs, i as int + 1, false)); }
            buf.push(c);
            i = i + 1;
        }
        proof {
            assert(read_word(cs, i as int, false) == Some((i as int, Seq::<char>::empty())));
            assert(buf@ + Seq::<char>::empty() =~= buf@);
            assert(read_word(cs, start as int, false) == Some((i as int, buf@)));
        }
        let t = classify_word(&buf);
        match t {
            Err(e) => {
                return Err(e);
            },
            Ok(t) => {
                proof {
                    match spec_lex(cs, i as int) {
                        Err(_) => {},
                        Ok(rest) => {
                            assert(toks_view(toks@.push(t)) + rest =~= toks_view(toks@) + (seq![tok_view(t)] + rest));
                        },
                    }
                }
                toks.push(t);
            },
        }
    }
    proof {
        assert(toks_view(toks@) + Seq::<SpecTok>::empty() =~= toks_view(toks@));
    }
    Ok(toks)
}


// ---------------------------------------------------------------------------
// Parsing
// ---------------------------------------------------------------------------

/// Decimal digit value of a character.
pub open spec fn digit_val(c: char) -> int {
    (c as int) - ('0' as int)
}

/// Whether every character of `s` is an ASCII digit.
pub open spec fn all_digits(s: Seq<char>) -> bool {
    forall|k: int| 0 <= k < s.len() ==> '0' <= #[trigger] s[k] && s[k] <= '9'
}

/// The number written by the decimal digits `s` (most significant first).
pub open spec fn decimal_value(s: Seq<char>) -> int
    decreases s.len(),
{
    if s.len() == 0 {
        0
    } else {
        decimal_value(s.drop_last()) * 10 + digit_val(s.last())
    }
}

/// `str::parse::<u64>`: an optional leading `+`, then one or more ASCII digits
/// whose value fits in a `u64`.
pub open spec fn parse_u64(s: Seq<char>) -> Option<u64> {
    let d = if s.len() > 0 && s[0] == '+' { s.drop_first() } else { s };
    if d.len() == 0 || !all_digits(d) || decimal_value(d) > u64::MAX {
        None
    } else {
        Some(decimal_value(d) as u64)
    }
}

/// The expression for a `field:value` term: `tag`, `doc` (numeric) or
/// `meta.<key>` (field names are case-insensitive; the key keeps its case);
/// otherwise the complaint.
pub open spec fn term_spec(field: Seq<char>, value: Seq<char>) -> Result<SpecExpr, Seq<char>> {
    let l = lower(field);
    if is3(l, 't', 'a', 'g') {
        Ok(SpecExpr::Tag(value))
    } else if is3(l, 'd', 'o', 'c') {
        match parse_u64(value) {
            Some(n) => Ok(SpecExpr::Doc(n)),
            None => Err("`doc` id must be a number, found `"@ + value + "`"@),
        }
    } else if l.len() >= 5 && l[0] == 'm' && l[1] == 'e' && l[2] == 't' && l[3] == 'a' && l[4] == '.' {
        if l.len() == 5 {
            Err("`meta.` needs a key, e.g. `meta.lang:es`"@)
        } else {
            Ok(SpecExpr::Meta(field.subrange(5, field.len() as int), value))
        }
    } else {
        Err("unknown field `"@ + field + "` (use tag, doc, meta.*)"@)
    }
}

/// The outcome of a parsing step from some position: the expression and the
/// position after it, or the complaint.
pub type Parsed = Result<(SpecExpr, int), Seq<char>>;

/// `or := and ("OR" and)*` from position `pos`.
pub open spec fn p_or(t: Seq<SpecTok>, pos: int) -> Parsed
    decreases t.len() - pos, 3int,
{
    match p_and(t, pos) {
        Err(m) => Err(m),
        Ok((l, p1)) => if pos < p1 <= t.len() { p_or_rest(t, p1, l) } else { Err(Seq::empty()) },
    }
}

/// The `("OR" and)*` tail, folding left-associatively onto `left`.
pub open spec fn p_or_rest(t: Seq<SpecTok>, pos: int, left: SpecExpr) -> Parsed
    decreases t.len() - pos, 5int,
{
    if 0 <= pos < t.len() && t[pos] is Or {
        match p_and(t, pos + 1) {
            Err(m) => Err(m),
            Ok((r, p2)) => if pos + 1 < p2 <= t.len() {
                p_or_rest(t, p2, SpecExpr::Or(Box::new(left), Box::new(r)))
            } else {
                Err(Seq::empty())
            },
        }
    } else {
        Ok((left, pos))
    }
}

/// `and := unary ("AND" unary)*`.
pub open spec fn p_and(t: Seq<SpecTok>, pos: int) -> Parsed
    decreases t.len() - pos, 2int,
{
    match p_unary(t, pos) {
        Err(m) => Err(m),
        Ok((l, p1)) => if pos < p1 <= t.len() { p_and_rest(t, p1, l) } else { Err(Seq::empty()) },
    }
}

/// The `("AND" unary)*` tail, folding left-associatively onto `left`.
pub open spec fn p_and_rest(t: Seq<SpecTok>, pos: int, left: SpecExpr) -> Parsed
    decreases t.len() - pos, 4int,
{
    if 0 <= pos < t.len() && t[pos] is And {
        match p_unary(t, pos + 1) {
            Err(m) => Err(m),
            Ok((r, p2)) => if pos + 1 < p2 <= t.len() {
                p_and_rest(t, p2, SpecExpr::And(Box::new(left), Box::new(r)))
            } else {
                Err(Seq::empty())
            },
        }
    } else {
        Ok((left, pos))
    }
}

/// `unary := "NOT" unary | primary`.
pub open spec fn p_unary(t: Seq<SpecTok>, pos: int) -> Parsed
    decreases t.len() - pos, 1int,
{
    if 0 <= pos < t.len() && t[pos] is Not {
        match p_unary(t, pos + 1) {
            Err(m) => Err(m),
            Ok((e, p1)) => Ok((SpecExpr::Not(Box::new(e)), p1)),
        }
    } else {
        p_primary(t, pos)
    }
}

/// `NOT` binds tighter than `AND` and `OR`: its operand is exactly the one
/// unary expression after it (a term, a parenthesised expression or another
/// `NOT`), and an `AND` chain that starts with `NOT` has that negation as its
/// first operand.
pub proof fn lemma_not_takes_one_unary(t: Seq<SpecTok>, pos: int, e: SpecExpr, p1: int)
    requires
        0 <= pos < t.len(),
        t[pos] is Not,
        p_unary(t, pos + 1) == Ok::<(SpecExpr, int), Seq<char>>((e, p1)),
        pos + 1 < p1 <= t.len(),
    ensures
        p_unary(t, pos) == Ok::<(SpecExpr, int), Seq<char>>((SpecExpr::Not(Box::new(e)), p1)),
        p_and(t, pos) == p_and_rest(t, p1, SpecExpr::Not(Box::new(e))),
{
}

/// For any two terms `a` and `b`: `NOT a AND b` is `(NOT a) AND b`, and
/// `NOT a OR b` is `(NOT a) OR b`.
pub proof fn lemma_not_before_and_or(f1: Seq<char>, v1: Seq<char>, f2: Seq<char>, v2: Seq<char>, a: SpecExpr, b: SpecExpr)
    requires
        term_spec(f1, v1) == Ok::<SpecExpr, Seq<char>>(a),
        term_spec(f2, v2) == Ok::<SpecExpr, Seq<char>>(b),
    ensures
        p_or(seq![SpecTok::Not, SpecTok::Term(f1, v1), SpecTok::And, SpecTok::Term(f2, v2)], 0)
            == Ok::<(SpecExpr, int), Seq<char>>((SpecExpr::And(Box::new(SpecExpr::Not(Box::new(a))), Box::new(b)), 4)),
        p_or(seq![SpecTok::Not, SpecTok::Term(f1, v1), SpecTok::Or, SpecTok::Term(f2, v2)], 0)
            == Ok::<(SpecExpr, int), Seq<char>>((SpecExpr::Or(Box::new(SpecExpr::Not(Box::new(a))), Box::new(b)), 4)),
{
    let na = SpecExpr::Not(Box::new(a));
    let t = seq![SpecTok::Not, SpecTok::Term(f1, v1), SpecTok::And, SpecTok::Term(f2, v2)];
    assert(p_primary(t, 1) == Ok::<(SpecExpr, int), Seq<char>>((a, 2)));
    assert(p_unary(t, 1) == Ok::<(SpecExpr, int), Seq<char>>((a, 2)));
    assert(p_unary(t, 0) == Ok::<(SpecExpr, int), Seq<char>>((na, 2)));
    assert(p_primary(t, 3) == Ok::<(SpecExpr, int), Seq<char>>((b, 4)));
    assert(p_unary(t, 3) == Ok::<(SpecExpr, int), Seq<char>>((b, 4)));
    let ab = SpecExpr::And(Box::new(na), Box::new(b));
    assert(p_and_rest(t, 4, ab) == Ok::<(SpecExpr, int), Seq<char>>((ab, 4)));
    assert(p_and_rest(t, 2, na) == Ok::<(SpecExpr, int), Seq<char>>((ab, 4)));
    assert(p_and(t, 0) == Ok::<(SpecExpr, int), Seq<char>>((ab, 4)));
    assert(p_or_rest(t, 4, ab) == Ok::<(SpecExpr, int), Seq<char>>((ab, 4)));

    let u = seq![SpecTok::Not, SpecTok::Term(f1, v1), SpecTok::Or, SpecTok::Term(f2, v2)];
    assert(p_primary(u, 1) == Ok::<(SpecExpr, int), Seq<char>>((a, 2)));
    assert(p_unary(u, 1) == Ok::<(SpecExpr, int), Seq<char>>((a, 2)));
    assert(p_unary(u, 0) == Ok::<(SpecExpr, int), Seq<char>>((na, 2)));
    assert(p_and_rest(u, 2, na) == Ok::<(SpecExpr, int), Seq<char>>((na, 2)));
    assert(p_and(u, 0) == Ok::<(SpecExpr, int), Seq<char>>((na, 2)));
    assert(p_primary(u, 3) == Ok::<(SpecExpr, int), Seq<char>>((b, 4)));
    assert(p_unary(u, 3) == Ok::<(SpecExpr, int), Seq<char>>((b, 4)));
    assert(p_and_rest(u, 4, b) == Ok::<(SpecExpr, int), Seq<char>>((b, 4)));
    assert(p_and(u, 3) == Ok::<(SpecExpr, int), Seq<char>>((b, 4)));
    let ob = SpecExpr::Or(Box::new(na), Box::new(b));
    assert(p_or_rest(u, 4, ob) == Ok::<(SpecExpr, int), Seq<char>>((ob, 4)));
    assert(p_or_rest(u, 2, na) == Ok::<(SpecExpr, int), Seq<char>>((ob, 4)));
}

/// For any three terms: `AND` binds tighter than `OR` on either side, so
/// `a OR b AND c` is `a OR (b AND c)` and `a AND b OR c` is `(a AND b) OR c`.
pub proof fn lemma_and_before_or(
    f1: Seq<char>, v1: Seq<char>, f2: Seq<char>, v2: Seq<char>, f3: Seq<char>, v3: Seq<char>,
    a: SpecExpr, b: SpecExpr, c: SpecExpr,
)
    requires
        term_spec(f1, v1) == Ok::<SpecExpr, Seq<char>>(a),
        term_spec(f2, v2) == Ok::<SpecExpr, Seq<char>>(b),
        term_spec(f3, v3) == Ok::<SpecExpr, Seq<char>>(c),
    ensures
        p_or(seq![SpecTok::Term(f1, v1), SpecTok::Or, SpecTok::Term(f2, v2), SpecTok::And, SpecTok::Term(f3, v3)], 0)
            == Ok::<(SpecExpr, int), Seq<char>>((SpecExpr::Or(Box::new(a), Box::new(SpecExpr::And(Box::new(b), Box::new(c)))), 5)),
        p_or(seq![SpecTok::Term(f1, v1), SpecTok::And, SpecTok::Term(f2, v2), SpecTok::Or, SpecTok::Term(f3, v3)], 0)
            == Ok::<(SpecExpr, int), Seq<char>>((SpecExpr::Or(Box::new(SpecExpr::And(Box::new(a), Box::new(b))), Box::new(c)), 5)),
{
    let t = seq![SpecTok::Term(f1, v1), SpecTok::Or, SpecTok::Term(f2, v2), SpecTok::And, SpecTok::Term(f3, v3)];
    assert(p_primary(t, 0) == Ok::<(SpecExpr, int), Seq<char>>((a, 1)));
    assert(p_unary(t, 0) == Ok::<(SpecExpr, int), Seq<char>>((a, 1)));
    assert(p_and_rest(t, 1, a) == Ok::<(SpecExpr, int), Seq<char>>((a, 1)));
    assert(p_and(t, 0) == Ok::<(SpecExpr, int), Seq<char>>((a, 1)));
    assert(p_primary(t, 2) == Ok::<(SpecExpr, int), Seq<char>>((b, 3)));
    assert(p_unary(t, 2) == Ok::<(SpecExpr, int), Seq<char>>((b, 3)));
    assert(p_primary(t, 4) == Ok::<(SpecExpr, int), Seq<char>>((c, 5)));
    assert(p_unary(t, 4) == Ok::<(SpecExpr, int), Seq<char>>((c, 5)));
    let bc = SpecExpr::And(Box::new(b), Box::new(c));
    assert(p_and_rest(t, 5, bc) == Ok::<(SpecExpr, int), Seq<char>>((bc, 5)));
    assert(p_and_rest(t, 3, b) == Ok::<(SpecExpr, int), Seq<char>>((bc, 5)));
    assert(p_and(t, 2) == Ok::<(SpecExpr, int), Seq<char>>((bc, 5)));
    let abc = SpecExpr::Or(Box::new(a), Box::new(bc));
    assert(p_or_rest(t, 5, abc) == Ok::<(SpecExpr, int), Seq<char>>((abc, 5)));
    assert(p_or_rest(t, 1, a) == Ok::<(SpecExpr, int), Seq<char>>((abc, 5)));

    let u = seq![SpecTok::Term(f1, v1), SpecTok::And, SpecTok::Term(f2, v2), SpecTok::Or, SpecTok::Term(f3, v3)];
    assert(p_primary(u, 0) == Ok::<(SpecExpr, int), Seq<char>>((a, 1)));
    assert(p_unary(u, 0) == Ok::<(SpecExpr, int), Seq<char>>((a, 1)));
    assert(p_primary(u, 2) == Ok::<(SpecExpr, int), Seq<char>>((b, 3)));
    assert(p_unary(u, 2) == Ok::<(SpecExpr, int), Seq<char>>((b, 3)));
    let ab = SpecExpr::And(Box::new(a), Box::new(b));
    assert(p_and_rest(u, 3, ab) == Ok::<(SpecExpr, int), Seq<char>>((ab, 3)));
    assert(p_and_rest(u, 1, a) == Ok::<(SpecExpr, int), Seq<char>>((ab, 3)));
    assert(p_and(u, 0) == Ok::<(SpecExpr, int), Seq<char>>((ab, 3)));
    assert(p_primary(u, 4) == Ok::<(SpecExpr, int), Seq<char>>((c, 5)));
    assert(p_unary(u, 4) == Ok::<(SpecExpr, int), Seq<char>>((c, 5)));
    assert(p_and_rest(u, 5, c) == Ok::<(SpecExpr, int), Seq<char>>((c, 5)));
    assert(p_and(u, 4) == Ok::<(SpecExpr, int), Seq<char>>((c, 5)));
    let abc2 = SpecExpr::Or(Box::new(ab), Box::new(c));
    assert(p_or_rest(u, 5, abc2) == Ok::<(SpecExpr, int), Seq<char>>((abc2, 5)));
    assert(p_or_rest(u, 3, ab) == Ok::<(SpecExpr, int), Seq<char>>((abc2, 5)));
}

/// How the token found where a primary expression was expected is named in
/// the complaint (`None` past the end).
pub open spec fn unexpected_msg(t: Seq<SpecTok>, pos: int) -> Seq<char> {
    if 0 <= pos < t.len() {
        match t[pos] {
            SpecTok::RParen => "unexpected token: Some(RParen)"@,
            SpecTok::And => "unexpected token: Some(And)"@,
            SpecTok::Or => "unexpected token: Some(Or)"@,
            SpecTok::Not => "unexpected token: Some(Not)"@,
            _ => Seq::empty(),
        }
    } else {
        "unexpected token: None"@
    }
}

/// `primary := "(" expr ")" | term`.
pub open spec fn p_primary(t: Seq<SpecTok>, pos: int) -> Parsed
    decreases t.len() - pos, 0int,
{
    if 0 <= pos < t.len() {
        match t[pos] {
            SpecTok::LParen => match p_or(t, pos + 1) {
                Err(m) => Err(m),
                Ok((inner, p1)) => if 0 <= p1 < t.len() && t[p1] is RParen {
                    Ok((inner, p1 + 1))
                } else {
                    Err("expected `)`"@)
                },
            },
            SpecTok::Term(f, v) => match term_spec(f, v) {
                Err(m) => Err(m),
                Ok(e) => Ok((e, pos + 1)),
            },
            _ => Err(unexpected_msg(t, pos)),
        }
    } else {
        Err(unexpected_msg(t, pos))
    }
}

/// What [`parse`] yields for `input`: the expression, or the complaint about
/// the first problem (a bad token, an empty filter, a grammar violation or
/// trailing tokens).
pub open spec fn spec_parse(input: Seq<char>) -> Result<SpecExpr, Seq<char>> {
    match spec_lex(input, 0) {
        Err(m) => Err(m),
        Ok(t) => if t.len() == 0 {
            Err("empty query"@)
        } else {
            match p_or(t, 0) {
                Ok((e, p)) => if p == t.len() { Ok(e) } else { Err("unexpected trailing input"@) },
                Err(m) => Err(m),
            }
        },
    }
}

pub(crate) fn parse_u64_chars(s: &Vec<char>) -> (r: Option<u64>)
    ensures r == parse_u64(s@),
{
    let start: usize = if s.len() > 0 && s[0] == '+' { 1 } else { 0 };
    let ghost d = if s@.len() > 0 && s@[0] == '+' { s@.drop_first() } else { s@ };
    assert(d =~= s@.skip(start as int));
    assert(parse_u64(s@) == (if d.len() == 0 || !all_digits(d) || decimal_value(d) > u64::MAX {
        None
    } else {
        Some(decimal_value(d) as u64)
    }));
    if start >= s.len() {
        return None;
    }
    let mut acc: u64 = 0;
    let mut i: usize = start;
    while i < s.len()
        invariant
            start <= i <= s@.len(),
            d =~= s@.skip(start as int),
            parse_u64(s@) == (if d.len() == 0 || !all_digits(d) || decimal_value(d) > u64::MAX {
                None
            } else {
                Some(decimal_value(d) as u64)
            }),
            all_digits(d.take(i - start)),
            acc as int == decimal_value(d.take(i - start)),
        decreases s.len() - i,
    {
        let c = s[i];
        assert(d.take(i - start + 1).drop_last() =~= d.take(i - start));
        if !('0' <= c && c <= '9') {
            assert(d[i - start] == c);
            assert(!all_digits(d));
            return None;
        }
        let dv: u64 = (c as u32 - '0' as u32) as u64;
        match acc.checked_mul(10) {
            None => {
                proof {
                    if all_digits(d) {
                        lemma_decimal_prefix_bound(d, i - start + 1);
                        lemma_decimal_nonneg(d.take(i - start));
                    }
                }
                return None;
            },
            Some(m) => match m.checked_add(dv) {
                None => {
                    proof { if all_digits(d) { lemma_decimal_prefix_bound(d, i - start + 1); } }
                    return None;
                },
                Some(v) => {
                    acc = v;
                },
            },
        }
        i = i + 1;
    }
    assert(d.take(d.len() as int) =~= d);
    Some(acc)
}

proof fn lemma_decimal_prefix_bound(d: Seq<char>, n: int)
    requires
        0 <= n <= d.len(),
        all_digits(d),
    ensures decimal_value(d.take(n)) <= decimal_value(d),
    decreases d.len() - n,
{
    if n < d.len() {
        lemma_decimal_prefix_bound(d, n + 1);
        assert(d.take(n + 1).drop_last() =~= d.take(n));
        assert(decimal_value(d.take(n)) >= 0) by {
            lemma_decimal_nonneg(d.take(n));
        }
    } else {
        assert(d.take(n) =~= d);
    }
}

proof fn lemma_decimal_nonneg(d: Seq<char>)
    requires all_digits(d),
    ensures decimal_value(d) >= 0,
    decreases d.len(),
{
    if d.len() > 0 {
        lemma_decimal_nonneg(d.drop_last());
    }
}

fn term_expr(field: &String, value: &String) -> (r: Result<Expr, NucleusError>)
    ensures
        match r {
            Ok(e) => term_spec(field@, value@) == Ok::<SpecExpr, Seq<char>>(e@),
            Err(e) => term_spec(field@, value@) matches Err(m) && query_failure(e, m),
        },
{
    let fc = str_chars(field.as_str());
    let mut l: Vec<char> = Vec::new();
    let mut i: usize = 0;
    while i < fc.len()
        invariant
            i <= fc@.len(),
            l@ == lower(fc@.take(i as int)),
        decreases fc.len() - i,
    {
        l.push(to_ascii_lower(fc[i]));
        i = i + 1;
        assert(l@ =~= lower(fc@.take(i as int)));
    }
    assert(fc@.take(fc@.len() as int) =~= fc@);
    if l.len() == 3 && l[0] == 't' && l[1] == 'a' && l[2] == 'g' {
        let v = value.clone();
        return Ok(Expr::Tag(v));
    }
    if l.len() == 3 && l[0] == 'd' && l[1] == 'o' && l[2] == 'c' {
        let vc = str_chars(value.as_str());
        return match parse_u64_chars(&vc) {
            Some(n) => Ok(Expr::Doc(n)),
            None => {
                let mut s = String::from_str("`doc` id must be a number, found `");
                s.append(value.as_str());
                s.append("`");
                Err(query_error(s.as_str()))
            },
        };
    }
    if l.len() >= 5 && l[0] == 'm' && l[1] == 'e' && l[2] == 't' && l[3] == 'a' && l[4] == '.' {
        if l.len() == 5 {
            return Err(query_error("`meta.` needs a key, e.g. `meta.lang:es`"));
        }
        let key = string_from_range(fc.as_slice(), 5, fc.len());
        let v = value.clone();
        return Ok(Expr::Meta(key, v));
    }
    let mut s = String::from_str("unknown field `");
    s.append(field.as_str());
    s.append("` (use tag, doc, meta.*)");
    Err(query_error(s.as_str()))
}

struct Parser {
    toks: Vec<Tok>,
}

impl Parser {
    spec fn tv(&self) -> Seq<SpecTok> {
        toks_view(self.toks@)
    }

    fn is_at(&self, pos: usize, kind: u8) -> (r: bool)
        ensures
            r ==> pos < self.toks.len(),
            r == (pos < self.toks@.len() && match self.toks@[pos as int] {
                Tok::And => kind == 0,
                Tok::Or => kind == 1,
                Tok::Not => kind == 2,
                Tok::RParen => kind == 3,
                _ => false,
            }),
    {
        if pos >= self.toks.len() {
            return false;
        }
        match self.toks[pos] {
            Tok::And => kind == 0,
            Tok::Or => kind == 1,
            Tok::Not => kind == 2,
            Tok::RParen => kind == 3,
            _ => false,
        }
    }

    fn parse_or(&self, pos: usize) -> (r: Result<(Expr, usize), NucleusError>)
        requires pos <= self.toks@.len(),
        ensures
            match r {
                Ok((e, p)) => p_or(self.tv(), pos as int) == Parsed::Ok((e@, p as int)) && pos < p <= self.toks@.len(),
                Err(e) => p_or(self.tv(), pos as int) matches Err(m) && query_failure(e, m),
            },
        decreases self.toks@.len() - pos, 3int,
    {
        let ghost t = self.tv();
        let (mut left, mut p) = self.parse_and(pos)?;
        while self.is_at(p, 1)
            invariant
                t == self.tv(),
                pos < p <= self.toks@.len(),
                p_or(t, pos as int) == p_or_rest(t, p as int, left@),
            decreases self.toks@.len() - p,
        {
            assert(t[p as int] is Or);
            let (right, p2) = self.parse_and(p + 1)?;
            left = Expr::Or(Box::new(left), Box::new(right));
            p = p2;
        }
        Ok((left, p))
    }

    fn parse_and(&self, pos: usize) -> (r: Result<(Expr, usize), NucleusError>)
        requires pos <= self.toks@.len(),
        ensures
            match r {
                Ok((e, p)) => p_and(self.tv(), pos as int) == Parsed::Ok((e@, p as int)) && pos < p <= self.toks@.len(),
                Err(e) => p_and(self.tv(), pos as int) matches Err(m) && query_failure(e, m),
            },
        decreases self.toks@.len() - pos, 2int,
    {
        let ghost t = self.tv();
        let (mut left, mut p) = self.parse_unary(pos)?;
        while self.is_at(p, 0)
            invariant
                t == self.tv(),
                pos < p <= self.toks@.len(),
                p_and(t, pos as int) == p_and_rest(t, p as int, left@),
            decreases self.toks@.len() - p,
        {
            assert(t[p as int] is And);
            let (right, p2) = self.parse_unary(p + 1)?;
            left = Expr::And(Box::new(left), Box::new(right));
            p = p2;
        }
        Ok((left, p))
    }

    fn parse_unary(&self, pos: usize) -> (r: Result<(Expr, usize), NucleusError>)
        requires pos <= self.toks@.len(),
        ensures
            match r {
                Ok((e, p)) => p_unary(self.tv(), pos as int) == Parsed::Ok((e@, p as int)) && pos < p <= self.toks@.len(),
                Err(e) => p_unary(self.tv(), pos as int) matches Err(m) && query_failure(e, m),
            },
        decreases self.toks@.len() - pos, 1int,
    {
        if self.is_at(pos, 2) {
            assert(self.tv()[pos as int] is Not);
            let (inner, p) = self.parse_unary(pos + 1)?;
            Ok((Expr::Not(Box::new(inner)), p))
        } else {
            self.parse_primary(pos)
        }
    }

    fn parse_primary(&self, pos: usize) -> (r: Result<(Expr, usize), NucleusError>)
        requires pos <= self.toks@.len(),
        ensures
            match r {
                Ok((e, p)) => p_primary(self.tv(), pos as int) == Parsed::Ok((e@, p as int)) && pos < p <= self.toks@.len(),
                Err(e) => p_primary(self.tv(), pos as int) matches Err(m) && query_failure(e, m),
            },
        decreases self.toks@.len() - pos, 0int,
    {
        if pos >= self.toks.len() {
            return Err(query_error("unexpected token: None"));
        }
        let ghost t = self.tv();
        match &self.toks[pos] {
            Tok::LParen => {
                assert(t[pos as int] is LParen);
                let (inner, p) = self.parse_or(pos + 1)?;
                if self.is_at(p, 3) {
                    assert(t[p as int] is RParen);
                    Ok((inner, p + 1))
                } else {
                    Err(query_error("expected `)`"))
                }
            },
            Tok::Term { field, value } => {
                assert(t[pos as int] == SpecTok::Term(field@, value@));
                let e = term_expr(field, value)?;
                Ok((e, pos + 1))
            },
            Tok::RParen => Err(query_error("unexpected token: Some(RParen)")),
            Tok::And => Err(query_error("unexpected token: Some(And)")),
            Tok::Or => Err(query_error("unexpected token: Some(Or)")),
            Tok::Not => Err(query_error("unexpected token: Some(Not)")),
        }
    }
}

/// Parse a filter string into an [`Expr`]. Fails with `InvalidRequest` exactly
/// when the input does not lex, is empty, or does not follow the grammar.
pub fn parse(input: &str) -> (r: Result<Expr, NucleusError>)
    ensures
        match r {
            Ok(e) => spec_parse(input@) == Ok::<SpecExpr, Seq<char>>(e@),
            Err(e) => spec_parse(input@) matches Err(m) && query_failure(e, m),
        },
{
    let toks = lex(input)?;
    if toks.len() == 0 {
        return Err(query_error("empty query"));
    }
    let parser = Parser { toks };
    let (expr, pos) = parser.parse_or(0)?;
    if pos != parser.toks.len() {
        return Err(query_error("unexpected trailing input"));
    }
    Ok(expr)
}

} // verus!
