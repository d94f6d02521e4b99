//! Character and string helpers shared by the text-processing modules.

use vstd::prelude::*;

verus! {

broadcast use vstd::string::group_string_axioms;

/// Rust's `char::is_whitespace`: the Unicode `White_Space` property.
pub open spec fn is_ws(c: char) -> bool {
    ||| ('\u{9}' <= c && c <= '\u{d}')
    ||| c == ' '
    ||| c == '\u{85}'
    ||| c == '\u{a0}'
    ||| c == '\u{1680}'
    ||| ('\u{2000}' <= c && c <= '\u{200a}')
    ||| c == '\u{2028}'
    ||| c == '\u{2029}'
    ||| c == '\u{202f}'
    ||| c == '\u{205f}'
    ||| c == '\u{3000}'
}

/// Whether `c` is Unicode whitespace.
pub fn is_whitespace(c: char) -> (r: bool)
    ensures r == is_ws(c),
{
    ('\u{9}' <= c && c <= '\u{d}') || c == ' ' || c == '\u{85}' || c == '\u{a0}'
        || c == '\u{1680}' || ('\u{2000}' <= c && c <= '\u{200a}') || c == '\u{2028}'
        || c == '\u{2029}' || c == '\u{202f}' || c == '\u{205f}' || c == '\u{3000}'
}

/// The characters of `s`, in order.
pub fn str_chars(s: &str) -> (v: Vec<char>)
    ensures v@ == s@,
{
    let mut v: Vec<char> = Vec::new();
    for c in it: s.chars()
        invariant
            v@ == it.seq().take(it.index() as int),
    {
        v.push(c);
    }
    v
}


/// Whether two string slices hold the same characters.
pub(crate) fn str_eq(a: &str, b: &str) -> (r: bool)
    ensures r == (a@ == b@),
{
    let x = str_chars(a);
    let y = str_chars(b);
    chars_eq(x.as_slice(), y.as_slice())
}

/// `String::push`: appends one character.
#[verifier::external_body]
pub(crate) fn push_char(s: &mut String, c: char)
    ensures final(s)@ == old(s)@.push(c),
{
    s.push(c);
}

/// Whether `c` is Unicode alphanumeric (`char::is_alphanumeric`).
pub uninterp spec fn alnum(c: char) -> bool;

/// Unicode lower-casing of a whole string (`str::to_lowercase`).
pub uninterp spec fn str_lowercase(s: Seq<char>) -> Seq<char>;

/// `char::is_alphanumeric` (Unicode `Alphabetic` or `Numeric`); named by `alnum`.
#[verifier::external_body]
pub(crate) fn is_alphanumeric(c: char) -> (r: bool)
    ensures r == alnum(c),
{
    c.is_alphanumeric()
}

/// `str::to_lowercase`: Unicode lower-casing; named by `str_lowercase`.
#[verifier::external_body]
pub(crate) fn to_lowercase(s: &str) -> (r: String)
    ensures r@ == str_lowercase(s@),
{
    s.to_lowercase()
}

/// The whitespace-separated words of `cs[i..]`, `cur` being the word in
/// progress (`str::split_whitespace`: maximal runs of non-whitespace).
pub open spec fn ws_words_from(cs: Seq<char>, i: int, cur: Seq<char>) -> Seq<Seq<char>>
    decreases cs.len() - i,
{
    if i < 0 || i >= cs.len() {
        if cur.len() > 0 { seq![cur] } else { Seq::empty() }
    } else if is_ws(cs[i]) {
        (if cur.len() > 0 { seq![cur] } else { Seq::empty() }) + ws_words_from(cs, i + 1, Seq::empty())
    } else {
        ws_words_from(cs, i + 1, cur.push(cs[i]))
    }
}

/// The whitespace-separated words of a text (`str::split_whitespace`).
pub open spec fn ws_words(s: Seq<char>) -> Seq<Seq<char>> {
    ws_words_from(s, 0, Seq::empty())
}

/// `str::split_whitespace`, collected.
pub fn split_ws(text: &str) -> (r: Vec<String>)
    ensures str_views(r@) == ws_words(text@),
{
    let cs = str_chars(text);
    let mut out: Vec<String> = Vec::new();
    let mut cur = String::new();
    let mut cur_len: usize = 0;
    let mut i: usize = 0;
    while i < cs.len()
        invariant
            i <= cs@.len(),
            cs@ == text@,
            cur_len == cur@.len(),
            cur_len <= i,
            str_views(out@) + ws_words_from(cs@, i as int, cur@) == ws_words(text@),
        decreases cs.len() - i,
    {
        let c = cs[i];
        if is_whitespace(c) {
            let ghost o = str_views(out@);
            let ghost prev = cur@;
            let ghost e: Seq<Seq<char>> = if prev.len() > 0 { seq![prev] } else { Seq::empty() };
            if cur_len > 0 {
                out.push(cur);
            }
            assert(str_views(out@) =~= o + e);
            assert(o + (e + ws_words_from(cs@, i + 1, Seq::empty()))
                =~= (o + e) + ws_words_from(cs@, i + 1, Seq::empty()));
            cur = String::new();
            cur_len = 0;
        } else {
            push_char(&mut cur, c);
            cur_len = cur_len + 1;
        }
        i = i + 1;
    }
    let ghost o = str_views(out@);
    if cur_len > 0 {
        out.push(cur);
        assert(str_views(out@) =~= o + seq![cur@]);
    } else {
        assert(o + Seq::<Seq<char>>::empty() =~= o);
    }
    out
}


/// The character sequences of a list of strings.
pub open spec fn str_views(v: Seq<String>) -> Seq<Seq<char>> {
    v.map_values(|s: String| s@)
}

/// Whether `s` is one of the strings of `v`.
pub fn contains_str(v: &Vec<String>, s: &str) -> (r: bool)
    ensures r == str_views(v@).contains(s@),
{
    let mut i: usize = 0;
    while i < v.len()
        invariant
            i <= v@.len(),
            forall|k: int| 0 <= k < i ==> v@[k]@ != s@,
        decreases v.len() - i,
    {
        if str_eq(v[i].as_str(), s) {
            assert(str_views(v@)[i as int] == s@);
            return true;
        }
        i = i + 1;
    }
    proof {
        if str_views(v@).contains(s@) {
            let k = choose|k: int| 0 <= k < str_views(v@).len() && #[trigger] str_views(v@)[k] == s@;
            assert(v@[k]@ == s@);
        }
    }
    false
}

/// A `String` holding exactly the characters `cs`.
pub fn string_from_chars(cs: &[char]) -> (r: String)
    ensures r@ == cs@,
{
    let mut r = String::new();
    let mut i: usize = 0;
    while i < cs.len()
        invariant
            i <= cs.len(),
            r@ == cs@.take(i as int),
        decreases cs.len() - i,
    {
        push_char(&mut r, cs[i]);
        i = i + 1;
        assert(r@ == cs@.take(i as int));
    }
    assert(cs@.take(cs@.len() as int) == cs@);
    r
}

/// A `String` holding exactly the characters `cs[from..to]`.
pub fn string_from_range(cs: &[char], from: usize, to: usize) -> (r: String)
    requires from <= to <= cs@.len(),
    ensures r@ == cs@.subrange(from as int, to as int),
{
    let mut r = String::new();
    let mut i: usize = from;
    while i < to
        invariant
            from <= i <= to <= cs@.len(),
            r@ == cs@.subrange(from as int, i as int),
        decreases to - i,
    {
        push_char(&mut r, cs[i]);
        i = i + 1;
        assert(r@ == cs@.subrange(from as int, i as int));
    }
    r
}

/// Index of the first non-whitespace character at or after `from` (or `to`).
pub open spec fn skip_ws_fwd(s: Seq<char>, from: int, to: int) -> int
    decreases to - from,
{
    if from >= to {
        to
    } else if is_ws(s[from]) {
        skip_ws_fwd(s, from + 1, to)
    } else {
        from
    }
}

/// One past the last non-whitespace character before `to` (or `from`).
pub open spec fn skip_ws_back(s: Seq<char>, from: int, to: int) -> int
    decreases to - from,
{
    if to <= from {
        from
    } else if is_ws(s[to - 1]) {
        skip_ws_back(s, from, to - 1)
    } else {
        to
    }
}

/// `str::trim` on the characters `s[from..to]`: leading and trailing Unicode
/// whitespace removed.
pub open spec fn trim_range(s: Seq<char>, from: int, to: int) -> Seq<char> {
    let a = skip_ws_fwd(s, from, to);
    let b = skip_ws_back(s, a, to);
    s.subrange(a, b)
}

/// `str::trim` on a whole character sequence.
pub open spec fn trim(s: Seq<char>) -> Seq<char> {
    trim_range(s, 0, s.len() as int)
}

pub proof fn lemma_skip_ws_fwd(s: Seq<char>, from: int, to: int)
    requires 0 <= from <= to <= s.len(),
    ensures
        from <= skip_ws_fwd(s, from, to) <= to,
        forall|k: int| from <= k < skip_ws_fwd(s, from, to) ==> is_ws(#[trigger] s[k]),
        skip_ws_fwd(s, from, to) < to ==> !is_ws(s[skip_ws_fwd(s, from, to)]),
    decreases to - from,
{
    if from < to && is_ws(s[from]) {
        lemma_skip_ws_fwd(s, from + 1, to);
    }
}

pub proof fn lemma_skip_ws_back(s: Seq<char>, from: int, to: int)
    requires 0 <= from <= to <= s.len(),
    ensures
        from <= skip_ws_back(s, from, to) <= to,
        forall|k: int| skip_ws_back(s, from, to) <= k < to ==> is_ws(#[trigger] s[k]),
        skip_ws_back(s, from, to) > from ==> !is_ws(s[skip_ws_back(s, from, to) - 1]),
    decreases to - from,
{
    if from < to && is_ws(s[to - 1]) {
        lemma_skip_ws_back(s, from, to - 1);
    }
}

/// The bounds `(a, b)` such that `cs[a..b]` is `cs[from..to]` trimmed.
pub fn trim_bounds(cs: &[char], from: usize, to: usize) -> (r: (usize, usize))
    requires from <= to <= cs@.len(),
    ensures
        r.0 == skip_ws_fwd(cs@, from as int, to as int),
        r.1 == skip_ws_back(cs@, r.0 as int, to as int),
        from <= r.0 <= r.1 <= to,
{
    proof { lemma_skip_ws_fwd(cs@, from as int, to as int); }
    let mut a = from;
    while a < to && is_whitespace(cs[a])
        invariant
            from <= a <= to <= cs@.len(),
            skip_ws_fwd(cs@, a as int, to as int) == skip_ws_fwd(cs@, from as int, to as int),
        decreases to - a,
    {
        a = a + 1;
    }
    proof { lemma_skip_ws_back(cs@, a as int, to as int); }
    let mut b = to;
    while b > a && is_whitespace(cs[b - 1])
        invariant
            from <= a <= b <= to <= cs@.len(),
            skip_ws_back(cs@, a as int, b as int) == skip_ws_back(cs@, a as int, to as int),
        decreases b - a,
    {
        b = b - 1;
    }
    (a, b)
}

/// `str::trim` on a character sequence, as a new vector.
pub fn trim_chars(cs: &[char]) -> (r: Vec<char>)
    ensures r@ == trim(cs@),
{
    let (a, b) = trim_bounds(cs, 0, cs.len());
    let mut out: Vec<char> = Vec::new();
    let mut i: usize = a;
    while i < b
        invariant
            a <= i <= b <= cs@.len(),
            out@ == cs@.subrange(a as int, i as int),
        decreases b - i,
    {
        out.push(cs[i]);
        i = i + 1;
        assert(out@ =~= cs@.subrange(a as int, i as int));
    }
    out
}

/// ASCII upper-casing of one character (`char::to_ascii_uppercase`).
pub open spec fn ascii_upper(c: char) -> char {
    if 'a' <= c && c <= 'z' { ((c as u32) - 32) as char } else { c }
}

/// ASCII lower-casing of one character (`char::to_ascii_lowercase`).
pub open spec fn ascii_lower(c: char) -> char {
    if 'A' <= c && c <= 'Z' { ((c as u32) + 32) as char } else { c }
}

/// `char::to_ascii_uppercase`.
pub fn to_ascii_upper(c: char) -> (r: char)
    ensures r == ascii_upper(c),
{
    if 'a' <= c && c <= 'z' {
        let u: u8 = (c as u32 - 32) as u8;
        u as char
    } else {
        c
    }
}

/// `char::to_ascii_lowercase`.
pub fn to_ascii_lower(c: char) -> (r: char)
    ensures r == ascii_lower(c),
{
    if 'A' <= c && c <= 'Z' {
        let u: u8 = (c as u32 + 32) as u8;
        u as char
    } else {
        c
    }
}

/// ASCII upper-casing of a character sequence.
pub open spec fn upper(s: Seq<char>) -> Seq<char> {
    s.map_values(|c: char| ascii_upper(c))
}

/// ASCII lower-casing of a character sequence.
pub open spec fn lower(s: Seq<char>) -> Seq<char> {
    s.map_values(|c: char| ascii_lower(c))
}

/// The characters of `s`, ASCII lower-cased (`str::to_ascii_lowercase`).
pub fn lower_chars(s: &str) -> (r: Vec<char>)
    ensures r@ == lower(s@),
{
    let cs = str_chars(s);
    let mut out: Vec<char> = Vec::new();
    let mut i: usize = 0;
    while i < cs.len()
        invariant
            i <= cs@.len(),
            cs@ == s@,
            out@ == lower(cs@.take(i as int)),
        decreases cs.len() - i,
    {
        out.push(to_ascii_lower(cs[i]));
        i = i + 1;
        assert(out@ =~= lower(cs@.take(i as int)));
    }
    assert(cs@.take(cs@.len() as int) =~= cs@);
    out
}

/// Whether two character sequences are equal.
pub fn chars_eq(a: &[char], b: &[char]) -> (r: bool)
    ensures r == (a@ == b@),
{
    if a.len() != b.len() {
        return false;
    }
    let mut i: usize = 0;
    while i < a.len()
        invariant
            a@.len() == b@.len(),
            i <= a@.len(),
            forall|k: int| 0 <= k < i ==> a@[k] == b@[k],
        decreases a.len() - i,
    {
        if a[i] != b[i] {
            return false;
        }
        i = i + 1;
    }
    assert(a@ =~= b@);
    true
}


/// `s` with every non-overlapping occurrence of `pat` (scanning left to right
/// from `i`) replaced by `rep`: `str::replace` on `s[i..]`.
pub open spec fn replace_from(s: Seq<char>, pat: Seq<char>, rep: Seq<char>, i: int) -> Seq<char>
    decreases s.len() - i,
{
    if i < 0 || i >= s.len() {
        Seq::empty()
    } else if pat.len() > 0 && i + pat.len() <= s.len() && s.subrange(i, i + pat.len() as int) == pat {
        rep + replace_from(s, pat, rep, i + pat.len())
    } else {
        seq![s[i]] + replace_from(s, pat, rep, i + 1)
    }
}

/// `str::replace(pat, rep)` for a non-empty pattern.
pub open spec fn replace_all(s: Seq<char>, pat: Seq<char>, rep: Seq<char>) -> Seq<char> {
    replace_from(s, pat, rep, 0)
}

fn matches_at(s: &Vec<char>, pat: &[char], i: usize) -> (r: bool)
    requires i <= s@.len(),
    ensures r == (i + pat@.len() <= s@.len() && s@.subrange(i as int, i + pat@.len()) == pat@),
{
    if pat.len() > s.len() - i {
        return false;
    }
    let mut k: usize = 0;
    while k < pat.len()
        invariant
            k <= pat@.len(),
            i + pat@.len() <= s.len(),
            forall|m: int| 0 <= m < k ==> s@[i + m] == pat@[m],
        decreases pat.len() - k,
    {
        if s[i + k] != pat[k] {
            assert(s@.subrange(i as int, i + pat@.len())[k as int] != pat@[k as int]);
            return false;
        }
        k = k + 1;
    }
    assert(s@.subrange(i as int, i + pat@.len()) =~= pat@);
    true
}

/// `str::replace` over character vectors (the pattern must be non-empty).
pub fn replace_chars(s: &Vec<char>, pat: &[char], rep: &[char]) -> (r: Vec<char>)
    requires pat@.len() > 0,
    ensures r@ == replace_all(s@, pat@, rep@),
{
    let mut out: Vec<char> = Vec::new();
    let mut i: usize = 0;
    assert(out@ + replace_from(s@, pat@, rep@, 0) =~= replace_all(s@, pat@, rep@));
    while i < s.len()
        invariant
            i <= s@.len(),
            pat@.len() > 0,
            out@ + replace_from(s@, pat@, rep@, i as int) == replace_all(s@, pat@, rep@),
        decreases s.len() - i,
    {
        if matches_at(s, pat, i) {
            let ghost before = out@;
            let mut k: usize = 0;
            while k < rep.len()
                invariant
                    k <= rep@.len(),
                    out@ == before + rep@.take(k as int),
                decreases rep.len() - k,
            {
                out.push(rep[k]);
                k = k + 1;
                assert(out@ =~= before + rep@.take(k as int));
            }
            assert(rep@.take(rep@.len() as int) =~= rep@);
            assert(before + (rep@ + replace_from(s@, pat@, rep@, i + pat@.len()))
                =~= (before + rep@) + replace_from(s@, pat@, rep@, i + pat@.len()));
            i = i + pat.len();
        } else {
            let ghost before = out@;
            out.push(s[i]);
            assert(before + (seq![s@[i as int]] + replace_from(s@, pat@, rep@, i + 1))
                =~= before.push(s@[i as int]) + replace_from(s@, pat@, rep@, i + 1));
            i = i + 1;
        }
    }
    assert(out@ + Seq::<char>::empty() =~= out@);
    out
}

} // verus!
